use novault::actions::{wipe_bytes, Context, Need, StepInput, StepPlan};
use novault::commands::{
    close_session, key_action, require_seal, require_seal_with_retrieval, seal_full, unseal,
    KeyAction, Phase,
};
use novault::effects::{Effect, FsOp};
use novault::error::VaultError;
use novault::keys::CachedPassword;
use novault::paths::{Normal, RootPath};
use novault::sequence::{ComposedSequence, NormalSequence, Playable};
use novault::states::VaultState;
use novault::steps::{
    forward, relocate_unsecure_files, unlink_other_archives,
};

fn root() -> RootPath<Normal> {
    RootPath::new("/v")
}

fn ctx(state_text: &str) -> Context {
    Context::new(&root(), CachedPassword::from_string("pw".to_string()), state_text)
}

/// What the step asks for where it succeeds, and its failure alone where it fails.
fn enter(step: VaultState, c: &mut Context, input: StepInput) -> Result<Vec<Effect>, VaultError> {
    let StepPlan { effects, outcome } = step.act(&root(), c, input);
    outcome.map(|_| effects)
}

fn op(op: FsOp, path: &str) -> Effect {
    Effect::Apply { op, path: path.to_string() }
}

fn mv(from: &str, to: &str, if_present: bool) -> Effect {
    Effect::Rename { from: from.to_string(), to: to.to_string(), if_present }
}

fn commit(text: &str) -> Effect {
    Effect::CommitState { text: text.to_string() }
}

const SEAL: [VaultState; 7] = [
    VaultState::RecreatingDirectories,
    VaultState::Encrypting,
    VaultState::UnlinkPostSeal,
    VaultState::RelocateEncryptedBinaries,
    VaultState::WriteMandatoryPostSealFiles,
    VaultState::RestoreVaultGit,
    VaultState::Sealed,
];

const UNSEAL: [VaultState; 9] = [
    VaultState::DecryptMainVault,
    VaultState::DecryptLocallySecuredVault,
    VaultState::StashExternalGitRepo,
    VaultState::DeleteSealedGitFiles,
    VaultState::ExpandMainVault,
    VaultState::ExpandLocalVault,
    VaultState::CleanupOldBinaries,
    VaultState::RestoreUnsecureFiles,
    VaultState::Unsealed,
];

#[test]
fn the_sequences() {
    assert_eq!(ComposedSequence::seal_full().iter(), SEAL.to_vec());
    assert_eq!(NormalSequence::unseal_full().iter(), UNSEAL.to_vec());
    assert_eq!(NormalSequence::seal_partial().iter(), SEAL[..5].to_vec());
    assert_eq!(
        NormalSequence::pre_init().iter(),
        vec![VaultState::InitFileSystem, VaultState::Seed]
    );
    let mut init = vec![VaultState::InitFileSystem, VaultState::Seed];
    init.extend_from_slice(&SEAL[..5]);
    init.extend_from_slice(&[
        VaultState::MakeExternalGitRepo,
        VaultState::MarkInitDone,
        VaultState::Sealed,
    ]);
    assert_eq!(ComposedSequence::init_full().iter(), init);
    assert_eq!(ComposedSequence::new(Vec::new()).iter(), Vec::new());
    assert_eq!(NormalSequence::new(vec![VaultState::Sealed]).iter(), vec![VaultState::Sealed]);
}

#[test]
fn resume_starts_at_the_first_occurrence() {
    let seal = ComposedSequence::seal_full();
    assert_eq!(seal.resume(VaultState::UnlinkPostSeal).iter(), SEAL[2..].to_vec());
    assert_eq!(seal.resume(VaultState::RecreatingDirectories).iter(), SEAL.to_vec());
    assert_eq!(seal.resume(VaultState::Sealed).iter(), vec![VaultState::Sealed]);
    assert_eq!(seal.resume(VaultState::Unsealed).iter(), Vec::new());
    let twice = NormalSequence::new(vec![VaultState::Seed, VaultState::Sealed, VaultState::Seed]);
    assert_eq!(
        twice.resume(VaultState::Sealed).iter(),
        vec![VaultState::Sealed, VaultState::Seed]
    );
    assert_eq!(twice.resume(VaultState::Seed).iter().len(), 3);
}

#[test]
fn a_run_from_a_rest_state_plays_the_sequence() {
    let mut c = ctx("state=Unsealed\n");
    let plan = seal_full(&root(), &mut c).unwrap();
    assert!(plan.repair.is_empty());
    assert_eq!(plan.steps, SEAL.to_vec());
    assert!(!c.is_starting());
    assert!(!c.fell_through());

    let mut c = ctx("state=Sealed\n");
    let plan = unseal(&root(), &mut c).unwrap();
    assert!(plan.repair.is_empty());
    assert_eq!(plan.steps, UNSEAL.to_vec());
}

#[test]
fn a_run_to_where_the_vault_is_falls_through() {
    let mut c = ctx("state=Sealed\n");
    let plan = seal_full(&root(), &mut c).unwrap();
    assert!(plan.repair.is_empty() && plan.steps.is_empty());
    assert!(c.fell_through());
    assert_eq!(enter(VaultState::Encrypting, &mut c, StepInput::Nothing), Ok(Vec::new()));

    let mut c = ctx("state=Unsealed\n");
    let plan = unseal(&root(), &mut c).unwrap();
    assert!(plan.repair.is_empty() && plan.steps.is_empty());
    assert!(c.fell_through());
}

#[test]
fn an_interrupted_encryption_is_reverted() {
    let mut c = ctx("state=Encrypting\ninit=false\n");
    let plan = seal_full(&root(), &mut c).unwrap();
    assert_eq!(
        plan.repair,
        vec![
            op(FsOp::RemoveFileIfPresent, "/v/.nov/.delete"),
            op(FsOp::RemoveFileIfPresent, "/v/.nov/secure_local/inpro.bin"),
            op(FsOp::RemoveFileIfPresent, "/v/.nov/inpro.zip"),
            commit("state=Unsealed\ninit=false\n"),
        ]
    );
    assert_eq!(plan.steps, SEAL.to_vec());

    let mut c = ctx("state=Encrypting\ninit=false\n");
    let plan = unseal(&root(), &mut c).unwrap();
    assert_eq!(plan.repair.len(), 4);
    assert!(plan.steps.is_empty());
    assert!(c.fell_through());
}

#[test]
fn an_encryption_interrupted_during_init_restarts_the_seal() {
    let mut c = ctx("state=Encrypting\ninit=true\n");
    let plan = seal_full(&root(), &mut c).unwrap();
    assert_eq!(plan.repair.last(), Some(&commit("state=RecreatingDirectories\ninit=true\n")));
    assert_eq!(plan.steps, SEAL.to_vec());
}

#[test]
fn a_repair_that_cannot_read_the_flag_is_corruption() {
    let mut c = ctx("state=Encrypting\n");
    assert_eq!(seal_full(&root(), &mut c), Err(VaultError::StateCorruption));
    assert!(c.is_starting());
    let mut c = ctx("state=Gone\n");
    assert_eq!(seal_full(&root(), &mut c), Err(VaultError::StateCorruption));
}

#[test]
fn steps_that_can_be_taken_up_again_are_replayed() {
    for (at, state) in SEAL.iter().enumerate().skip(2).take(4) {
        let text = format!("state={state:?}\n");
        let mut c = ctx(&text);
        let plan = seal_full(&root(), &mut c).unwrap();
        assert!(plan.repair.is_empty());
        assert_eq!(plan.steps, SEAL[at..].to_vec());
        assert!(!c.fell_through());

        let mut c = ctx(&text);
        let plan = unseal(&root(), &mut c).unwrap();
        let mut expected = SEAL[at..].to_vec();
        expected.extend_from_slice(&UNSEAL);
        assert_eq!(plan.steps, expected);
    }
    for (at, state) in UNSEAL.iter().enumerate().skip(6).take(2) {
        let text = format!("state={state:?}\n");
        let mut c = ctx(&text);
        let plan = unseal(&root(), &mut c).unwrap();
        assert_eq!(plan.steps, UNSEAL[at..].to_vec());
        let mut c = ctx(&text);
        let plan = seal_full(&root(), &mut c).unwrap();
        let mut expected = UNSEAL[at..].to_vec();
        expected.extend_from_slice(&SEAL);
        assert_eq!(plan.steps, expected);
    }
}

#[test]
fn steps_that_changed_nothing_lasting_fall_back_to_sealed() {
    for state in [
        VaultState::DecryptMainVault,
        VaultState::DecryptLocallySecuredVault,
        VaultState::ExpandMainVault,
        VaultState::ExpandLocalVault,
    ] {
        let mut c = ctx(&format!("state={state:?}\n"));
        let plan = unseal(&root(), &mut c).unwrap();
        assert_eq!(plan.repair, vec![commit("state=Sealed\n")]);
        assert_eq!(plan.steps, UNSEAL.to_vec());
    }
}

#[test]
fn other_repairs() {
    let mut c = ctx("state=StashExternalGitRepo\n");
    assert_eq!(
        unseal(&root(), &mut c).unwrap().repair,
        vec![
            mv("/v/.nov/wrap/external.git", "/v/.git", false),
            op(FsOp::RemoveDir, "/v/.nov/wrap"),
            commit("state=Sealed\n"),
        ]
    );
    let mut c = ctx("state=StashExternalGitRepo\nremote_backend=TigrisS3\n");
    assert_eq!(
        unseal(&root(), &mut c).unwrap().repair,
        vec![commit("state=Sealed\nremote_backend=TigrisS3\n")]
    );
    let mut c = ctx("state=DeleteSealedGitFiles\n");
    let repair = unseal(&root(), &mut c).unwrap().repair;
    assert_eq!(repair.len(), 3);
    assert!(matches!(&repair[0], Effect::Write { path, if_absent: false, .. } if path == "/v/.gitignore"));
    assert!(matches!(&repair[1], Effect::Write { path, if_absent: false, .. } if path == "/v/.gitattributes"));
    assert_eq!(repair[2], commit("state=Sealed\n"));

    let mut c = ctx("state=RecreatingDirectories\n");
    let plan = seal_full(&root(), &mut c).unwrap();
    assert_eq!(
        plan.repair,
        vec![
            op(FsOp::RecreateDir, "/v/.nov/unsecure"),
            op(FsOp::RecreateDir, "/v/.nov/secure_local"),
            op(FsOp::RemoveFileIfPresent, "/v/.nov/.delete"),
            op(FsOp::RemoveFileIfPresent, "/v/.nov/inpro.zip"),
            commit("state=Unsealed\n"),
        ]
    );
    let mut c = ctx("state=Seed\nwrapped=00\ninit=true\n");
    assert_eq!(
        seal_full(&root(), &mut c).unwrap().repair,
        vec![
            op(FsOp::RemoveDirAllIfPresent, "/v/.nov"),
            commit("state=Uninit\nwrapped=00\ninit=true\n"),
        ]
    );
    let mut c = ctx("state=MakeExternalGitRepo\ninit=true\n");
    let plan = seal_full(&root(), &mut c).unwrap();
    assert_eq!(plan.repair, vec![op(FsOp::GitInit, "/v"), commit("state=Sealed\ninit=false\n")]);
    assert!(plan.steps.is_empty());
    let mut c = ctx("state=MarkInitDone\ninit=true\n");
    assert_eq!(seal_full(&root(), &mut c).unwrap().repair, vec![commit("state=Sealed\ninit=false\n")]);
}

#[test]
fn a_directory_without_a_vault_is_refused() {
    let mut c = ctx("");
    assert_eq!(seal_full(&root(), &mut c), Err(VaultError::NotInitialized));
    assert_eq!(unseal(&root(), &mut c), Err(VaultError::NotInitialized));
    assert!(c.is_starting());
    let mut c = ctx("state=Uninit\nremote=x\n");
    assert_eq!(seal_full(&root(), &mut c), Err(VaultError::NotInitialized));
    assert_eq!(c.state_file().peek_state(), Ok(VaultState::Uninit));
}

#[test]
fn what_each_state_needs() {
    assert_eq!(VaultState::Encrypting.needs(), Need::WorkingTree);
    assert_eq!(VaultState::UnlinkPostSeal.needs(), Need::DeletionList);
    assert_eq!(VaultState::DecryptMainVault.needs(), Need::VaultBinary);
    assert_eq!(VaultState::DecryptLocallySecuredVault.needs(), Need::LocalVault);
    assert_eq!(VaultState::RestoreUnsecureFiles.needs(), Need::UnsecureNames);
    assert_eq!(VaultState::Sealed.needs(), Need::Nothing);
    assert_eq!(VaultState::ExpandMainVault.needs(), Need::Nothing);
}

#[test]
fn entering_a_state_commits_before_and_after() {
    let mut c = ctx("state=Unsealed\n");
    let effects = enter(VaultState::RelocateEncryptedBinaries, &mut c, StepInput::Nothing).unwrap();
    assert_eq!(
        effects,
        vec![
            commit("state=RelocateEncryptedBinaries\n"),
            mv("/v/.nov/inpro.zip", "/v/vault.bin", false),
            commit("state=RelocateEncryptedBinaries\n"),
        ]
    );
    let effects = enter(VaultState::MarkInitDone, &mut c, StepInput::Nothing).unwrap();
    assert_eq!(
        effects,
        vec![commit("state=MarkInitDone\n"), commit("state=MarkInitDone\ninit=false\n")]
    );
    let effects = enter(VaultState::Sealed, &mut c, StepInput::Nothing).unwrap();
    assert_eq!(effects, vec![commit("state=Sealed\ninit=false\n"), commit("state=Sealed\ninit=false\n")]);
}

#[test]
fn the_first_state_refuses_an_interrupted_vault() {
    let mut c = ctx("state=Encrypting\ninit=false\n");
    assert_eq!(
        enter(VaultState::RecreatingDirectories, &mut c, StepInput::Nothing),
        Err(VaultError::WrongState)
    );
    assert!(c.is_starting());
    let mut c = ctx("state=Nope\n");
    assert_eq!(
        enter(VaultState::RecreatingDirectories, &mut c, StepInput::Nothing),
        Err(VaultError::StateCorruption)
    );
}

#[test]
fn the_wrong_input_is_an_io_failure() {
    let mut c = ctx("state=Unsealed\n");
    assert_eq!(
        enter(VaultState::UnlinkPostSeal, &mut c, StepInput::Nothing),
        Err(VaultError::IoError)
    );
    assert_eq!(
        enter(VaultState::UnlinkPostSeal, &mut c, StepInput::DeletionList(None)),
        Err(VaultError::IoError)
    );
    assert_eq!(
        enter(VaultState::Sealed, &mut c, StepInput::VaultBinary(Vec::new())),
        Err(VaultError::IoError)
    );
}

#[test]
fn a_step_that_fails_is_on_record_all_the_same() {
    let mut c = ctx("state=Unsealed\ninit=false\n");
    let plan = VaultState::UnlinkPostSeal.act(&root(), &mut c, StepInput::DeletionList(None));
    assert_eq!(plan.outcome, Err(VaultError::IoError));
    assert_eq!(plan.effects, vec![commit("state=UnlinkPostSeal\ninit=false\n")]);
    assert_eq!(c.state_file().peek_state(), Ok(VaultState::UnlinkPostSeal));
    assert!(!c.is_starting());

    let mut c = ctx("state=Sealed\n");
    let plan = VaultState::DecryptMainVault.act(&root(), &mut c, StepInput::VaultBinary(vec![1]));
    assert_eq!(plan.outcome, Err(VaultError::StateCorruption));
    assert_eq!(plan.effects, vec![commit("state=DecryptMainVault\n")]);
    assert_eq!(c.state_file().writeback(), "state=DecryptMainVault\n");
}

#[test]
fn a_state_refused_at_the_startup_gate_commits_nothing() {
    let mut c = ctx("state=Encrypting\ninit=false\n");
    let plan = VaultState::RecreatingDirectories.act(&root(), &mut c, StepInput::Nothing);
    assert_eq!(plan, StepPlan { effects: Vec::new(), outcome: Err(VaultError::WrongState) });
    assert!(c.is_starting());
    assert_eq!(c.state_file().writeback(), "state=Encrypting\ninit=false\n");
}

#[test]
fn steps_out_of_order_are_refused() {
    let mut c = ctx("state=Sealed\n");
    assert_eq!(
        enter(VaultState::ExpandMainVault, &mut c, StepInput::Nothing),
        Err(VaultError::WrongState)
    );
    assert!(!c.is_starting());
    assert_eq!(
        enter(VaultState::DecryptLocallySecuredVault, &mut c, StepInput::LocalVault(None)),
        Err(VaultError::WrongState)
    );
    assert_eq!(
        enter(VaultState::DecryptMainVault, &mut c, StepInput::VaultBinary(vec![1, 2, 3])),
        Err(VaultError::StateCorruption)
    );
}

#[test]
fn the_object_store_keeps_no_repository() {
    let git = forward(VaultState::RestoreVaultGit, &root(), false);
    assert_eq!(
        git,
        vec![mv("/v/.nov/wrap/external.git", "/v/.git", false), op(FsOp::RemoveDir, "/v/.nov/wrap")]
    );
    assert!(forward(VaultState::RestoreVaultGit, &root(), true).is_empty());
    assert!(forward(VaultState::StashExternalGitRepo, &root(), true).is_empty());
    assert!(forward(VaultState::DeleteSealedGitFiles, &root(), true).is_empty());
    assert_eq!(
        forward(VaultState::StashExternalGitRepo, &root(), false),
        vec![op(FsOp::CreateDirAll, "/v/.nov/wrap"), mv("/v/.git", "/v/.nov/wrap/external.git", false)]
    );
    assert_eq!(
        forward(VaultState::DeleteSealedGitFiles, &root(), false),
        vec![op(FsOp::RemoveFile, "/v/.gitignore"), op(FsOp::RemoveFile, "/v/.gitattributes")]
    );
    assert_eq!(
        forward(VaultState::CleanupOldBinaries, &root(), true),
        vec![op(FsOp::RemoveFile, "/v/vault.bin"), op(FsOp::RemoveDirAllIfPresent, "/v/.nov/secure_local")]
    );
    let mut c = ctx("state=Sealed\nremote_backend=TigrisS3\n");
    let effects = enter(VaultState::StashExternalGitRepo, &mut c, StepInput::Nothing).unwrap();
    assert_eq!(effects.len(), 2);
    let mut c = ctx("state=Sealed\nremote_backend=Pigeon\n");
    assert_eq!(
        enter(VaultState::StashExternalGitRepo, &mut c, StepInput::Nothing),
        Err(VaultError::StateCorruption)
    );
}

#[test]
fn init_filesystem_prepares_the_directory() {
    let plan = forward(VaultState::InitFileSystem, &root(), false);
    assert_eq!(plan.len(), 5);
    assert_eq!(plan[0], op(FsOp::GitInitIfAbsent, "/v"));
    assert_eq!(plan[1], op(FsOp::CreateDirAll, "/v/.nov"));
    assert_eq!(plan[2], op(FsOp::HideDir, "/v/.nov"));
    assert_eq!(
        plan[3],
        Effect::Write {
            path: "/v/.gitignore".to_string(),
            contents: b"# Feel free to customize.\n\n# Leave the next line be.\n/.nov\n".to_vec(),
            if_absent: true,
        }
    );
    assert_eq!(
        plan[4],
        Effect::Write {
            path: "/v/novault.toml".to_string(),
            contents: b"[settings]\ndefault_policy = \"IgnoreAndEncrypt\"\n\n[rules]\nunsecured = []\ndelete = []\n".to_vec(),
            if_absent: true,
        }
    );
    assert_eq!(forward(VaultState::MakeExternalGitRepo, &root(), false), vec![op(FsOp::GitInit, "/v")]);
    assert!(forward(VaultState::Sealed, &root(), false).is_empty());
}

#[test]
fn the_deletion_list_is_unlinked_last_line_first() {
    let plan = unlink_other_archives(&root(), "/v/dir\n/v/dir/a.txt\n\n/v/b.txt\n");
    assert_eq!(
        plan,
        vec![
            op(FsOp::Unlink, "/v/b.txt"),
            op(FsOp::Unlink, "/v/dir/a.txt"),
            op(FsOp::Unlink, "/v/dir"),
            op(FsOp::RemoveFile, "/v/.nov/.delete"),
        ]
    );
    assert_eq!(unlink_other_archives(&root(), ""), vec![op(FsOp::RemoveFile, "/v/.nov/.delete")]);
}

#[test]
fn unsecured_files_are_moved_back() {
    let names = vec!["public".to_string(), "public/index.html".to_string()];
    assert_eq!(
        relocate_unsecure_files(&root(), &names),
        vec![
            mv("/v/.nov/unsecure/public", "/v/public", true),
            mv("/v/.nov/unsecure/public/index.html", "/v/public/index.html", true),
            op(FsOp::RemoveDirAll, "/v/.nov/unsecure"),
        ]
    );
    let mut c = ctx("state=Sealed\n");
    c.begin_run();
    let effects =
        enter(VaultState::RestoreUnsecureFiles, &mut c, StepInput::UnsecureNames(None)).unwrap();
    assert_eq!(effects.len(), 2);
}

#[test]
fn the_context_hands_out_its_parts() {
    let mut c = ctx("state=Sealed\n");
    assert!(c.password().same_as(&CachedPassword::from_string("pw".to_string())));
    assert_eq!(c.state_file().peek_state(), Ok(VaultState::Sealed));
    c.state_file_mut().set_remote("git@h:r");
    assert_eq!(c.state_file().get_remote(), Some("git@h:r".to_string()));
    assert_eq!(c.state_file().writeback(), "state=Sealed\nremote=git@h:r\n");
    c.reload("state=Unsealed\n");
    assert_eq!(c.state_file().get_remote(), None);
    assert!(c.is_starting());
}

#[test]
fn the_sync_gate() {
    assert_eq!(
        require_seal(VaultState::Unsealed),
        Ok(vec![Phase::Seal, Phase::Operate, Phase::Unseal])
    );
    assert_eq!(require_seal(VaultState::Sealed), Ok(vec![Phase::Operate]));
    assert_eq!(require_seal(VaultState::Uninit), Err(VaultError::NotInitialized));
    for state in [
        VaultState::Encrypting,
        VaultState::UnlinkPostSeal,
        VaultState::DecryptMainVault,
        VaultState::CleanupOldBinaries,
        VaultState::Seed,
    ] {
        assert_eq!(require_seal(state), Err(VaultError::WrongState));
    }
    assert_eq!(require_seal_with_retrieval(Ok(()), Ok(())), Ok(()));
    assert_eq!(
        require_seal_with_retrieval(Err(VaultError::RemoteError), Ok(())),
        Err(VaultError::RemoteError)
    );
    assert_eq!(
        require_seal_with_retrieval(Err(VaultError::RemoteError), Err(VaultError::IoError)),
        Err(VaultError::IoError)
    );
    assert_eq!(require_seal_with_retrieval(Ok(()), Err(VaultError::AuthError)), Err(VaultError::AuthError));
}

#[test]
fn session_keys() {
    assert_eq!(key_action('q', false), KeyAction::Quit);
    assert_eq!(key_action('c', true), KeyAction::Quit);
    assert_eq!(key_action('c', false), KeyAction::Ignore);
    assert_eq!(key_action('s', false), KeyAction::Synchronize);
    assert_eq!(key_action('s', true), KeyAction::Synchronize);
    assert_eq!(key_action('x', false), KeyAction::Ignore);
    assert_eq!(key_action('Q', false), KeyAction::Ignore);
}

#[test]
fn a_session_ends_with_a_seal_of_its_own() {
    let mut c = ctx("state=Unsealed\n");
    let plan = unseal(&root(), &mut c).unwrap();
    assert!(plan.steps.is_empty() && c.fell_through());
    let plan = close_session(&root(), &mut c, "state=Unsealed\n").unwrap();
    assert_eq!(plan.steps, SEAL.to_vec());
    assert!(!c.fell_through());
    assert_eq!(close_session(&root(), &mut c, "state=Sealed\n"), None);
}

#[test]
fn errors_that_the_user_can_correct() {
    assert!(VaultError::AuthError.is_recoverable());
    assert!(VaultError::WrongState.is_recoverable());
    assert!(VaultError::AlreadyInitialized.is_recoverable());
    assert!(VaultError::NotInitialized.is_recoverable());
    assert!(!VaultError::IntegrityError.is_recoverable());
    assert!(!VaultError::StateCorruption.is_recoverable());
    assert!(!VaultError::IoError.is_recoverable());
    assert!(!VaultError::RemoteError.is_recoverable());
    assert!(!VaultError::ConfigError.is_recoverable());
}

#[test]
fn wiping_overwrites_every_byte() {
    let mut bytes = vec![1u8, 2, 3, 0, 255];
    wipe_bytes(&mut bytes);
    assert_eq!(bytes, vec![0u8; 5]);
    let mut none: Vec<u8> = Vec::new();
    wipe_bytes(&mut none);
    assert!(none.is_empty());
}

#[test]
fn a_wiped_context_holds_no_password() {
    let mut c = ctx("state=Sealed\nremote=git@h:v.git\n");
    assert!(c.password().same_as(&CachedPassword::from_string("pw".to_string())));
    c.wipe();
    assert!(c.password().same_as(&CachedPassword::from_string("\0\0".to_string())));
    assert_eq!(c.state_file().writeback(), "state=Sealed\nremote=git@h:v.git\n");
    assert!(c.is_starting());
}
