use novault::commands::rests_in;
use novault::error::VaultError;
use novault::keys::{CachedPassword, MasterVaultKey, UserVaultKey, WrappedKey};
use novault::statefile::{find, put, read_hashmap, render_state, StateFileHandle, SyncMethod};
use novault::states::VaultState;

fn pairs(v: &[(&str, &str)]) -> Vec<(String, String)> {
    v.iter().map(|(k, v)| (k.to_string(), v.to_string())).collect()
}

#[test]
fn lines_are_read_as_key_and_value() {
    assert_eq!(
        read_hashmap("state=Sealed\ninit=false\n"),
        pairs(&[("state", "Sealed"), ("init", "false")])
    );
}

#[test]
fn blank_lines_and_lines_without_equals_are_passed_over() {
    assert_eq!(
        read_hashmap("\n\nstate=Sealed\n   \nno equals here\n\ninit=true"),
        pairs(&[("state", "Sealed"), ("init", "true")])
    );
    assert_eq!(read_hashmap(""), pairs(&[]));
}

#[test]
fn lines_are_trimmed() {
    assert_eq!(
        read_hashmap("  state=Sealed  \r\n\tinit=false\u{a0}\n"),
        pairs(&[("state", "Sealed"), ("init", "false")])
    );
    assert_eq!(read_hashmap("a = b"), pairs(&[("a ", " b")]));
}

#[test]
fn the_value_is_all_that_follows_the_first_equals() {
    assert_eq!(read_hashmap("a=b=c"), pairs(&[("a", "b=c")]));
    assert_eq!(read_hashmap("a=="), pairs(&[("a", "=")]));
    assert_eq!(read_hashmap("a="), pairs(&[("a", "")]));
    assert_eq!(read_hashmap("=b"), pairs(&[("", "b")]));
}

#[test]
fn a_key_that_occurs_again_replaces_its_value_in_place() {
    assert_eq!(
        read_hashmap("state=Sealed\ninit=false\nstate=Unsealed\n"),
        pairs(&[("state", "Unsealed"), ("init", "false")])
    );
}

#[test]
fn put_and_find() {
    let mut v = pairs(&[("a", "1")]);
    put(&mut v, "b", "2".to_string());
    put(&mut v, "a", "3".to_string());
    assert_eq!(v, pairs(&[("a", "3"), ("b", "2")]));
    assert_eq!(find(&v, "a"), Some(&"3".to_string()));
    assert_eq!(find(&v, "c"), None);
}

#[test]
fn every_entry_is_written_on_a_line_of_its_own() {
    assert_eq!(render_state(&pairs(&[("state", "Sealed"), ("init", "false")])), "state=Sealed\ninit=false\n");
    assert_eq!(render_state(&pairs(&[])), "");
}

#[test]
fn what_is_written_is_read_back() {
    let entries = pairs(&[
        ("state", "Encrypting"),
        ("init", "true"),
        ("wrapped", "00ff"),
        ("remote", "git@github.com:JohnSmith/vault.git"),
        ("remote_backend", "Git"),
        ("prev_stamp_t3", "20240102T030405Z"),
        ("odd key", "odd  value"),
        ("url", "https://host/path?a=b&c=d"),
        ("", ""),
    ]);
    assert_eq!(read_hashmap(&render_state(&entries)), entries);
}

#[test]
fn a_missing_state_is_uninit() {
    let mut handle = StateFileHandle::new("/v", "");
    assert_eq!(handle.get_state(), Ok(VaultState::Uninit));
    let mut handle = StateFileHandle::new("/v", "init=true\n");
    assert_eq!(handle.get_state(), Ok(VaultState::Uninit));
}

#[test]
fn an_unknown_state_is_corruption() {
    let mut handle = StateFileHandle::new("/v", "state=Melted\n");
    assert_eq!(handle.get_state(), Err(VaultError::StateCorruption));
    let mut handle = StateFileHandle::new("/v", "state=sealed\n");
    assert_eq!(handle.get_state(), Err(VaultError::StateCorruption));
}

#[test]
fn every_state_is_written_and_read_back() {
    let all = [
        VaultState::Uninit,
        VaultState::Seed,
        VaultState::InitFileSystem,
        VaultState::MakeExternalGitRepo,
        VaultState::MarkInitDone,
        VaultState::RecreatingDirectories,
        VaultState::Encrypting,
        VaultState::UnlinkPostSeal,
        VaultState::RelocateEncryptedBinaries,
        VaultState::WriteMandatoryPostSealFiles,
        VaultState::RestoreVaultGit,
        VaultState::Sealed,
        VaultState::DecryptMainVault,
        VaultState::DecryptLocallySecuredVault,
        VaultState::StashExternalGitRepo,
        VaultState::DeleteSealedGitFiles,
        VaultState::ExpandMainVault,
        VaultState::ExpandLocalVault,
        VaultState::CleanupOldBinaries,
        VaultState::RestoreUnsecureFiles,
        VaultState::Unsealed,
    ];
    for state in all {
        let mut handle = StateFileHandle::new("/v", "");
        handle.set_state(state);
        assert_eq!(handle.writeback(), format!("state={state:?}\n"));
        let mut again = StateFileHandle::new("/v", &handle.writeback());
        assert_eq!(again.get_state(), Ok(state));
        assert_eq!(VaultState::from_str(state.as_str()), Ok(state));
        assert_eq!(
            state.is_rest_state(),
            matches!(state, VaultState::Uninit | VaultState::Sealed | VaultState::Unsealed)
        );
    }
    assert_eq!(VaultState::from_str("Nope"), Err(VaultError::StateCorruption));
    assert_eq!(VaultState::from_str(""), Err(VaultError::StateCorruption));
}

#[test]
fn the_init_flag() {
    let mut handle = StateFileHandle::new("/v", "");
    assert_eq!(handle.get_init(), Err(VaultError::StateCorruption));
    handle.set_init(true);
    assert_eq!(handle.get_init(), Ok(true));
    assert_eq!(handle.writeback(), "init=true\n");
    handle.set_init(false);
    assert_eq!(handle.get_init(), Ok(false));
    assert_eq!(handle.writeback(), "init=false\n");
    let handle = StateFileHandle::new("/v", "init=yes\n");
    assert_eq!(handle.get_init(), Err(VaultError::StateCorruption));
}

#[test]
fn the_remote_and_its_backend() {
    let mut handle = StateFileHandle::new("/v", "state=Sealed\n");
    assert_eq!(handle.get_remote(), None);
    assert_eq!(handle.get_remote_storage(), Ok(None));
    handle.set_remote("mybucket");
    handle.set_remote_storage(SyncMethod::TigrisS3);
    assert_eq!(handle.get_remote(), Some("mybucket".to_string()));
    assert_eq!(handle.get_remote_storage(), Ok(Some(SyncMethod::TigrisS3)));
    assert_eq!(handle.writeback(), "state=Sealed\nremote=mybucket\nremote_backend=TigrisS3\n");
    handle.set_remote_storage(SyncMethod::Git);
    assert_eq!(handle.get_remote_storage(), Ok(Some(SyncMethod::Git)));
    let handle = StateFileHandle::new("/v", "remote_backend=Ftp\n");
    assert_eq!(handle.get_remote_storage(), Err(VaultError::StateCorruption));
    assert_eq!(SyncMethod::from_str("Git"), Ok(SyncMethod::Git));
    assert_eq!(SyncMethod::from_str("git"), Err(VaultError::StateCorruption));
    assert_eq!(SyncMethod::TigrisS3.as_str(), "TigrisS3");
}

#[test]
fn a_remote_with_an_equals_sign_survives() {
    let mut handle = StateFileHandle::new("/v", "state=Sealed\n");
    handle.set_remote("git@h:a=b.git");
    let again = StateFileHandle::new("/v", &handle.writeback());
    assert_eq!(again.get_remote(), Some("git@h:a=b.git".to_string()));
}

#[test]
fn the_last_stamp() {
    let mut handle = StateFileHandle::new("/v", "");
    assert_eq!(handle.get_previous_tigris_commit_stamp(), Err(VaultError::StateCorruption));
    handle.previous_tigris_commit_stamp("20240102T030405Z");
    assert_eq!(handle.get_previous_tigris_commit_stamp(), Ok("20240102T030405Z".to_string()));
    assert_eq!(handle.writeback(), "prev_stamp_t3=20240102T030405Z\n");
}

#[test]
fn the_wrapped_key() {
    let mut handle = StateFileHandle::new("/v", "");
    assert!(matches!(handle.get_wrapped_key(), Err(VaultError::StateCorruption)));
    let pw = CachedPassword::from_string("pw".to_string());
    let user = UserVaultKey::init_fresh(&pw).unwrap();
    let wrapped = WrappedKey::init(&user, &MasterVaultKey::generate()).unwrap();
    handle.set_master_key(&wrapped);
    assert_eq!(handle.writeback(), format!("wrapped={}\n", wrapped.to_hex()));
    assert_eq!(handle.get_wrapped_key().unwrap().to_hex(), wrapped.to_hex());
    let handle = StateFileHandle::new("/v", "wrapped=nothex\n");
    assert!(matches!(handle.get_wrapped_key(), Err(VaultError::StateCorruption)));
}

#[test]
fn reload_forgets_what_was_held() {
    let mut handle = StateFileHandle::new("/v", "state=Sealed\nremote=x\n");
    handle.reload("state=Unsealed\n");
    assert_eq!(handle.get_state(), Ok(VaultState::Unsealed));
    assert_eq!(handle.get_remote(), None);
}

#[test]
fn unknown_keys_are_kept() {
    let mut handle = StateFileHandle::new("/v", "later=feature\nstate=Sealed\n");
    handle.set_state(VaultState::Unsealed);
    assert_eq!(handle.writeback(), "later=feature\nstate=Unsealed\n");
}

#[test]
fn rests_in_reads_the_state() {
    assert!(rests_in("state=Sealed\n", VaultState::Sealed));
    assert!(!rests_in("state=Sealed\n", VaultState::Unsealed));
    assert!(rests_in("", VaultState::Uninit));
    assert!(!rests_in("state=Bogus\n", VaultState::Uninit));
}
