use std::collections::BTreeMap;

use novault::commands::{link, pull, sync};
use novault::error::VaultError;
use novault::paths::{Normal, RootPath};
use novault::statefile::{StateFileHandle, SyncMethod};
use novault::sync::{
    get_snapshot_sig, init_remote, load_s3_params_direct, parse_link, pull_remote, pull_snapshot,
    push_remote, render_s3_params, select_remote, set_lock, transfer_file, PullStart, RemoteOp,
};

fn root() -> RootPath<Normal> {
    RootPath::new("/v")
}

fn upload(from: &str, key: &str) -> RemoteOp {
    RemoteOp::Upload { from: from.to_string(), key: key.to_string() }
}

fn delete(key: &str) -> RemoteOp {
    RemoteOp::Delete { key: key.to_string() }
}

fn put(key: &str, text: &str) -> RemoteOp {
    RemoteOp::PutText { key: key.to_string(), text: text.to_string() }
}

fn carry_out(bucket: &mut BTreeMap<String, Vec<u8>>, disk: &BTreeMap<String, Vec<u8>>, ops: &[RemoteOp]) {
    for op in ops {
        match op {
            RemoteOp::Upload { from, key } => {
                bucket.insert(key.clone(), disk[from].clone());
            }
            RemoteOp::PutText { key, text } => {
                bucket.insert(key.clone(), text.as_bytes().to_vec());
            }
            RemoteOp::Delete { key } => {
                assert!(bucket.remove(key).is_some());
            }
            _ => panic!("not an operation on the bucket"),
        }
    }
}

#[test]
fn the_stamp_has_the_snapshot_format() {
    let stamp = get_snapshot_sig();
    let bytes = stamp.as_bytes();
    assert_eq!(bytes.len(), 16);
    assert_eq!(bytes[8], b'T');
    assert_eq!(bytes[15], b'Z');
    for (i, b) in bytes.iter().enumerate() {
        if i != 8 && i != 15 {
            assert!(b.is_ascii_digit());
        }
    }
    assert!(stamp.as_str() > "20240101T000000Z");
}

#[test]
fn urls_select_the_backend() {
    assert_eq!(select_remote("t3://mybucket"), Ok((SyncMethod::TigrisS3, "mybucket".to_string())));
    assert_eq!(select_remote("t3://"), Ok((SyncMethod::TigrisS3, String::new())));
    assert_eq!(
        select_remote("git@github.com:JohnSmith/vault.git"),
        Ok((SyncMethod::Git, "git@github.com:JohnSmith/vault.git".to_string()))
    );
    assert_eq!(select_remote("https://github.com/x/y"), Err(VaultError::RemoteError));
    assert_eq!(select_remote(""), Err(VaultError::RemoteError));
    assert_eq!(parse_link("git@host:repo"), Ok("git@host:repo".to_string()));
    assert_eq!(parse_link("t3://bucket"), Err(VaultError::RemoteError));
}

#[test]
fn lock_and_transfer() {
    assert_eq!(set_lock("20240102T030405Z"), put(".lock", "20240102T030405Z"));
    assert_eq!(
        transfer_file("/v", "/v/.nov/.state", "20240102T030405Z"),
        Ok(upload("/v/.nov/.state", "20240102T030405Z/.nov/.state"))
    );
    assert_eq!(
        transfer_file("/v", "/v/vault.bin", "T1"),
        Ok(upload("/v/vault.bin", "T1/vault.bin"))
    );
    assert_eq!(transfer_file("/v", "/w/vault.bin", "T1"), Err(VaultError::IoError));
}

#[test]
fn linking_to_git() {
    let mut state = StateFileHandle::new("/v", "state=Sealed\n");
    let plan = init_remote(&root(), &mut state, "git@github.com:me/v.git", "T0").unwrap();
    assert_eq!(
        plan.ops,
        vec![
            RemoteOp::AddRemoteOrigin { url: "git@github.com:me/v.git".to_string() },
            RemoteOp::BranchMain,
            RemoteOp::AddCommitPush,
        ]
    );
    assert_eq!(
        plan.commit,
        Some("state=Sealed\nremote=git@github.com:me/v.git\nremote_backend=Git\n".to_string())
    );
    assert_eq!(state.get_remote_storage(), Ok(Some(SyncMethod::Git)));
}

#[test]
fn linking_to_the_object_store_publishes_a_first_snapshot() {
    let mut state = StateFileHandle::new("/v", "state=Sealed\n");
    let plan = init_remote(&root(), &mut state, "t3://mybucket", "20240102T030405Z").unwrap();
    assert_eq!(
        plan.ops,
        vec![
            upload("/v/.nov/.state", "20240102T030405Z/.nov/.state"),
            upload("/v/vault.bin", "20240102T030405Z/vault.bin"),
            put(".lock", "20240102T030405Z"),
        ]
    );
    assert_eq!(
        plan.commit,
        Some(
            "state=Sealed\nremote=mybucket\nremote_backend=TigrisS3\nprev_stamp_t3=20240102T030405Z\n"
                .to_string()
        )
    );
}

#[test]
fn linking_refuses_other_urls() {
    let mut state = StateFileHandle::new("/v", "state=Sealed\n");
    assert_eq!(init_remote(&root(), &mut state, "ftp://x", "T0"), Err(VaultError::RemoteError));
    assert_eq!(state.writeback(), "state=Sealed\n");
}

#[test]
fn push_needs_a_backend() {
    let mut state = StateFileHandle::new("/v", "state=Sealed\n");
    assert_eq!(push_remote(&root(), &mut state, "T1"), Err(VaultError::WrongState));
    assert_eq!(sync(&root(), &mut state, "T1"), Err(VaultError::WrongState));
    let mut state = StateFileHandle::new("/v", "remote=b\nremote_backend=Pigeon\n");
    assert_eq!(push_remote(&root(), &mut state, "T1"), Err(VaultError::StateCorruption));
    let mut state = StateFileHandle::new("/v", "remote_backend=TigrisS3\nprev_stamp_t3=T0\n");
    assert_eq!(push_remote(&root(), &mut state, "T1"), Err(VaultError::StateCorruption));
    assert_eq!(sync(&root(), &mut state, "T1"), Err(VaultError::WrongState));
    let mut state = StateFileHandle::new("/v", "remote=b\nremote_backend=TigrisS3\n");
    assert_eq!(push_remote(&root(), &mut state, "T1"), Err(VaultError::StateCorruption));
    assert_eq!(state.writeback(), "remote=b\nremote_backend=TigrisS3\n");
}

#[test]
fn push_to_git() {
    let mut state = StateFileHandle::new("/v", "remote=git@h:r\nremote_backend=Git\n");
    let plan = sync(&root(), &mut state, "T1").unwrap();
    assert_eq!(plan.ops, vec![RemoteOp::AddCommitPush]);
    assert_eq!(plan.commit, None);
}

#[test]
fn s3_push_rotation() {
    let mut disk = BTreeMap::new();
    let mut bucket = BTreeMap::new();
    let mut state = StateFileHandle::new("/v", "state=Sealed\nwrapped=aa\n");
    disk.insert("/v/.nov/.state".to_string(), state.writeback().into_bytes());
    disk.insert("/v/vault.bin".to_string(), b"first".to_vec());

    let plan = init_remote(&root(), &mut state, "t3://mybucket", "20240101T000000Z").unwrap();
    carry_out(&mut bucket, &disk, &plan.ops);
    disk.insert("/v/.nov/.state".to_string(), plan.commit.unwrap().into_bytes());
    assert_eq!(bucket[".lock"], b"20240101T000000Z");

    disk.insert("/v/vault.bin".to_string(), b"second".to_vec());
    let plan = push_remote(&root(), &mut state, "20240202T000000Z").unwrap();
    assert_eq!(
        plan.ops,
        vec![
            upload("/v/.nov/.state", "20240202T000000Z/.nov/.state"),
            upload("/v/vault.bin", "20240202T000000Z/vault.bin"),
            put(".lock", "20240202T000000Z"),
            delete("20240101T000000Z/vault.bin"),
            delete("20240101T000000Z/.nov/.state"),
        ]
    );
    carry_out(&mut bucket, &disk, &plan.ops);
    assert_eq!(bucket[".lock"], b"20240202T000000Z");
    assert_eq!(bucket["20240202T000000Z/vault.bin"], b"second");
    assert!(bucket.contains_key("20240202T000000Z/.nov/.state"));
    assert_eq!(bucket.len(), 3);
    assert_eq!(state.get_previous_tigris_commit_stamp(), Ok("20240202T000000Z".to_string()));
    assert!(plan.commit.unwrap().ends_with("prev_stamp_t3=20240202T000000Z\n"));
}

#[test]
fn pull_into_empty_dir() {
    assert_eq!(
        pull_remote("t3://mybucket", false),
        Ok(PullStart::FetchLock { bucket: "mybucket".to_string() })
    );
    assert_eq!(
        pull_snapshot(&RootPath::new("/w"), "20240202T000000Z", "AK", "SK"),
        vec![
            RemoteOp::Download { key: "20240202T000000Z/.nov/.state".to_string(), to: "/w/.nov/.state".to_string() },
            RemoteOp::Download { key: "20240202T000000Z/vault.bin".to_string(), to: "/w/vault.bin".to_string() },
            RemoteOp::WriteLocal { to: "/w/.nov/.s3auth".to_string(), text: "ACCESS_KEY=AK\nSECRET_KEY=SK\n".to_string() },
        ]
    );
    assert_eq!(
        pull_remote("git@h:r.git", false),
        Ok(PullStart::Clone { url: "git@h:r.git".to_string() })
    );
}

#[test]
fn pull_refuses_an_initialized_directory_and_other_urls() {
    assert_eq!(pull_remote("t3://mybucket", true), Err(VaultError::AlreadyInitialized));
    assert_eq!(pull_remote("git@h:r.git", true), Err(VaultError::AlreadyInitialized));
    assert_eq!(pull_remote("http://x", false), Err(VaultError::RemoteError));
}

#[test]
fn the_commands_take_both_kinds_of_remote() {
    let mut state = StateFileHandle::new("/v", "state=Sealed\n");
    let plan = link(&root(), &mut state, "t3://b", "T1").unwrap();
    assert_eq!(plan.ops.len(), 3);
    assert_eq!(state.get_remote(), Some("b".to_string()));
    let mut state = StateFileHandle::new("/v", "state=Sealed\n");
    let plan = link(&root(), &mut state, "git@h:r", "T1").unwrap();
    assert_eq!(plan.ops.len(), 3);
    assert_eq!(state.get_previous_tigris_commit_stamp(), Err(VaultError::StateCorruption));
    assert_eq!(link(&root(), &mut state, "h:r", "T1"), Err(VaultError::RemoteError));
    assert_eq!(pull("t3://b", false), Ok(PullStart::FetchLock { bucket: "b".to_string() }));
    assert_eq!(pull("t3://b", true), Err(VaultError::AlreadyInitialized));
}

#[test]
fn credentials_file() {
    assert_eq!(render_s3_params("AK", "SK"), "ACCESS_KEY=AK\nSECRET_KEY=SK\n");
    assert_eq!(
        load_s3_params_direct("ACCESS_KEY=AK\nSECRET_KEY=SK\n"),
        Ok(("AK".to_string(), "SK".to_string()))
    );
    assert_eq!(load_s3_params_direct(&render_s3_params("a b", "c/d+e")), Ok(("a b".to_string(), "c/d+e".to_string())));
    assert_eq!(load_s3_params_direct("ACCESS_KEY=AK\n"), Err(VaultError::ConfigError));
    assert_eq!(load_s3_params_direct("SECRET_KEY=SK\n"), Err(VaultError::ConfigError));
    assert_eq!(load_s3_params_direct(""), Err(VaultError::ConfigError));
}

#[test]
fn stamps_are_checked() {
    assert!(novault::sync::check_stamp("20240102T030405Z"));
    assert!(!novault::sync::check_stamp("20240102T030405"));
    assert!(!novault::sync::check_stamp("20240102 030405Z"));
    assert!(!novault::sync::check_stamp("2024010aT030405Z"));
    assert!(!novault::sync::check_stamp("+0240102T030405Z"));
    assert!(!novault::sync::check_stamp(""));
    assert!(novault::sync::check_stamp(&novault::sync::snapshot_stamp().unwrap()));
}
