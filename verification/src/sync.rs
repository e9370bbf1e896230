//! Synchronisation with a remote, which only ever sees the sealed form: a
//! git remote, or an object store that keeps each published snapshot under
//! a timestamp and names the current one in `.lock`.
//!
//! The library plans; the host talks to git and to the store.

use vstd::prelude::*;
use chrono::Utc;
use crate::error::VaultError;
use crate::filter::{relative, strip_root};
use crate::paths::{child, join_path, Normal, RootPath};
use crate::statefile::{
    find, key_backend, key_remote, key_stamp, lookup, parse_state, read_hashmap, render, upsert,
    Entries, StateFileHandle, SyncMethod,
};
use crate::text::{chars_of, skip_text, starts_with};

verus! {

/// Asks `chrono` for the present time in UTC and writes it as
/// `YYYYMMDDTHHMMSSZ`. Nothing is believed of the result.
#[verifier::external_body]
pub fn get_snapshot_sig() -> (stamp: String) {
    Utc::now().format("%Y%m%dT%H%M%SZ").to_string()
}

/// Whether `c` is a decimal digit.
pub open spec fn is_digit(c: char) -> bool {
    0x30 <= c as u32 <= 0x39
}

/// Whether `stamp` has the form of a snapshot's timestamp,
/// `YYYYMMDDTHHMMSSZ`: eight digits, `T`, six digits, `Z`.
pub open spec fn is_stamp(stamp: Seq<char>) -> bool {
    &&& stamp.len() == 16
    &&& stamp[8] == 'T'
    &&& stamp[15] == 'Z'
    &&& forall|i: int| 0 <= i < 15 && i != 8 ==> is_digit(#[trigger] stamp[i])
}

/// Whether `stamp` has the form of a snapshot's timestamp.
pub fn check_stamp(stamp: &str) -> (r: bool)
    ensures
        r == is_stamp(stamp@),
{
    let cs = chars_of(stamp);
    if cs.len() != 16 || cs[8] != 'T' || cs[15] != 'Z' {
        return false;
    }
    let mut i: usize = 0;
    while i < 15
        invariant
            i <= 15,
            cs@ == stamp@,
            cs.len() == 16,
            forall|k: int| 0 <= k < i && k != 8 ==> is_digit(#[trigger] cs@[k]),
        decreases 15 - i,
    {
        if i != 8 {
            let n: u32 = cs[i] as u32;
            if n < 0x30 || n > 0x39 {
                assert(!is_digit(stamp@[i as int]));
                return false;
            }
        }
        i += 1;
    }
    true
}

/// The timestamp for a new snapshot: the present time, if the clock gives
/// one of the expected form. A clock so far off that the year does not
/// have four digits makes the remote unusable.
pub fn snapshot_stamp() -> (r: Result<String, VaultError>)
    ensures
        r matches Ok(stamp) ==> is_stamp(stamp@),
        r matches Err(e) ==> e == VaultError::RemoteError,
{
    let stamp = get_snapshot_sig();
    if check_stamp(stamp.as_str()) {
        Ok(stamp)
    } else {
        Err(VaultError::RemoteError)
    }
}

/// One thing for the host to do with the remote.
#[derive(Clone, Debug, PartialEq, Eq)]
pub enum RemoteOp {
    /// Store the local file `from` in the bucket under `key`.
    Upload { from: String, key: String },
    /// Store `text` in the bucket under `key`.
    PutText { key: String, text: String },
    /// Remove the object `key` from the bucket.
    Delete { key: String },
    /// Fetch the object `key` from the bucket into the local file `to`.
    Download { key: String, to: String },
    /// Write `text` to the local file `to`.
    WriteLocal { to: String, text: String },
    /// Make `url` the origin of the repository.
    AddRemoteOrigin { url: String },
    /// Switch the repository to the branch `main`, creating it if need be.
    BranchMain,
    /// Stage everything, commit, and push to `origin main`.
    AddCommitPush,
    /// Clone `url` into the root.
    Clone { url: String },
}

/// A remote operation as a value of the model.
pub enum RemoteOpView {
    Upload { from: Seq<char>, key: Seq<char> },
    PutText { key: Seq<char>, text: Seq<char> },
    Delete { key: Seq<char> },
    Download { key: Seq<char>, to: Seq<char> },
    WriteLocal { to: Seq<char>, text: Seq<char> },
    AddRemoteOrigin { url: Seq<char> },
    BranchMain,
    AddCommitPush,
    Clone { url: Seq<char> },
}

impl View for RemoteOp {
    type V = RemoteOpView;

    open spec fn view(&self) -> RemoteOpView {
        match self {
            RemoteOp::Upload { from, key } => RemoteOpView::Upload { from: from@, key: key@ },
            RemoteOp::PutText { key, text } => RemoteOpView::PutText { key: key@, text: text@ },
            RemoteOp::Delete { key } => RemoteOpView::Delete { key: key@ },
            RemoteOp::Download { key, to } => RemoteOpView::Download { key: key@, to: to@ },
            RemoteOp::WriteLocal { to, text } => RemoteOpView::WriteLocal { to: to@, text: text@ },
            RemoteOp::AddRemoteOrigin { url } => RemoteOpView::AddRemoteOrigin { url: url@ },
            RemoteOp::BranchMain => RemoteOpView::BranchMain,
            RemoteOp::AddCommitPush => RemoteOpView::AddCommitPush,
            RemoteOp::Clone { url } => RemoteOpView::Clone { url: url@ },
        }
    }
}

/// The operations of `v` as values of the model.
pub open spec fn ops_of(v: Seq<RemoteOp>) -> Seq<RemoteOpView> {
    Seq::new(v.len(), |i: int| v[i]@)
}

/// The name of the object that names the current snapshot.
pub open spec fn lock_key() -> Seq<char> {
    ".lock"@
}

/// The key of a snapshot's state file.
pub open spec fn state_key(stamp: Seq<char>) -> Seq<char> {
    child(child(stamp, ".nov"@), ".state"@)
}

/// The key of a snapshot's sealed archive.
pub open spec fn vault_key(stamp: Seq<char>) -> Seq<char> {
    child(stamp, "vault.bin"@)
}

/// What a remote is, by its URL.
pub open spec fn remote_of(url: Seq<char>) -> Option<(SyncMethod, Seq<char>)> {
    if "t3://"@.is_prefix_of(url) {
        Some((SyncMethod::TigrisS3, url.skip(5)))
    } else if "git@"@.is_prefix_of(url) {
        Some((SyncMethod::Git, url))
    } else {
        None
    }
}

/// The backend of a remote, by its URL; git for a URL of neither kind.
pub open spec fn backend_of(url: Seq<char>) -> SyncMethod {
    match remote_of(url) {
        Some(pair) => pair.0,
        None => SyncMethod::Git,
    }
}

/// Accepts the SSH form of a git URL, `git@host:path`, and nothing else.
pub fn parse_link(url: &str) -> (r: Result<String, VaultError>)
    ensures
        r matches Ok(u) ==> u@ == url@ && "git@"@.is_prefix_of(url@),
        r matches Err(e) ==> e == VaultError::RemoteError && !"git@"@.is_prefix_of(url@),
{
    if starts_with(url, "git@") {
        Ok(url.to_owned())
    } else {
        Err(VaultError::RemoteError)
    }
}

/// Tells the backend from the URL: `t3://bucket` is the object store and
/// names the bucket, `git@...` is git. Any other URL is refused.
pub fn select_remote(url: &str) -> (r: Result<(SyncMethod, String), VaultError>)
    ensures
        r matches Ok(pair) ==> remote_of(url@) == Some((pair.0, pair.1@)),
        r matches Err(e) ==> e == VaultError::RemoteError && remote_of(url@) is None,
{
    proof {
        reveal_strlit("t3://");
    }
    if starts_with(url, "t3://") {
        Ok((SyncMethod::TigrisS3, skip_text(url, 5)))
    } else if starts_with(url, "git@") {
        Ok((SyncMethod::Git, url.to_owned()))
    } else {
        Err(VaultError::RemoteError)
    }
}

/// Naming `stamp` as the current snapshot.
pub fn set_lock(stamp: &str) -> (op: RemoteOp)
    ensures
        op@ == (RemoteOpView::PutText { key: lock_key(), text: stamp@ }),
{
    RemoteOp::PutText { key: ".lock".to_owned(), text: stamp.to_owned() }
}

/// Storing the local file `location`, which lies below `root`, under the
/// same relative path below `remote_root`. A file outside the root is an
/// I/O failure.
pub fn transfer_file(root: &str, location: &str, remote_root: &str) -> (r: Result<
    RemoteOp,
    VaultError,
>)
    ensures
        r is Ok <==> relative(location@, root@) is Some,
        r matches Ok(op) ==> op@ == (RemoteOpView::Upload {
            from: location@,
            key: child(remote_root@, relative(location@, root@)->0),
        }),
        r matches Err(e) ==> e == VaultError::IoError,
{
    match strip_root(location, root) {
        None => Err(VaultError::IoError),
        Some(rel) => Ok(
            RemoteOp::Upload { from: location.to_owned(), key: join_path(remote_root, rel.as_str()) },
        ),
    }
}

/// Publishing a snapshot under `stamp`: the state file, the sealed archive,
/// and then the lock that names the snapshot.
pub open spec fn publish_ops(root: RootPath<Normal>, stamp: Seq<char>) -> Seq<RemoteOpView> {
    seq![
        RemoteOpView::Upload { from: root.state_path(), key: state_key(stamp) },
        RemoteOpView::Upload { from: root.vault_path(), key: vault_key(stamp) },
        RemoteOpView::PutText { key: lock_key(), text: stamp },
    ]
}

/// Pushing to the object store: the new snapshot is published, and only
/// then is the snapshot before it collected.
pub open spec fn push_ops(root: RootPath<Normal>, previous: Seq<char>, stamp: Seq<char>) -> Seq<
    RemoteOpView,
> {
    publish_ops(root, stamp) + seq![
        RemoteOpView::Delete { key: vault_key(previous) },
        RemoteOpView::Delete { key: state_key(previous) },
    ]
}

/// What is to be done with the remote, and the state file to commit once
/// all of it is done.
#[derive(Clone, Debug, PartialEq, Eq)]
pub struct RemotePlan {
    pub ops: Vec<RemoteOp>,
    pub commit: Option<String>,
}

fn publish(root: &RootPath<Normal>, stamp: &str) -> (ops: Vec<RemoteOp>)
    ensures
        ops_of(ops@) == publish_ops(*root, stamp@),
{
    let mut ops: Vec<RemoteOp> = Vec::new();
    let dir = join_path(stamp, ".nov");
    ops.push(RemoteOp::Upload { from: root.state_file(), key: join_path(dir.as_str(), ".state") });
    ops.push(RemoteOp::Upload { from: root.vault_binary(), key: join_path(stamp, "vault.bin") });
    ops.push(set_lock(stamp));
    assert(ops_of(ops@) =~= publish_ops(*root, stamp@));
    ops
}

/// The backend that the state file names, where it names one that exists.
pub open spec fn backend_in(e: Entries) -> Option<SyncMethod> {
    match lookup(e, key_backend()) {
        Some(n) => SyncMethod::named(n),
        None => None,
    }
}

/// The failure that a push is bound to meet on the state file `e`: no
/// backend is configured, or the state file lacks what the backend needs.
pub open spec fn push_fails(e: Entries) -> Option<VaultError> {
    match lookup(e, key_backend()) {
        None => Some(VaultError::WrongState),
        Some(n) => match SyncMethod::named(n) {
            None => Some(VaultError::StateCorruption),
            Some(SyncMethod::Git) => None,
            Some(SyncMethod::TigrisS3) => if lookup(e, key_remote()) is None || lookup(
                e,
                key_stamp(),
            ) is None {
                Some(VaultError::StateCorruption)
            } else {
                None
            },
        },
    }
}

/// Whether `plan` and `after` are what planning a push under `stamp`
/// leaves on the state file `before`: with git, one commit-and-push and
/// nothing to record; with the object store, the rotation of the
/// snapshots, and the new stamp on record and ready to commit.
pub open spec fn pushed(
    root: RootPath<Normal>,
    before: Entries,
    stamp: Seq<char>,
    after: Entries,
    plan: RemotePlan,
) -> bool {
    match backend_in(before) {
        Some(SyncMethod::Git) => {
            &&& ops_of(plan.ops@) == seq![RemoteOpView::AddCommitPush]
            &&& plan.commit is None
            &&& after == before
        },
        Some(SyncMethod::TigrisS3) => {
            &&& ops_of(plan.ops@) == push_ops(root, lookup(before, key_stamp())->0, stamp)
            &&& after == upsert(before, key_stamp(), stamp)
            &&& plan.commit is Some && plan.commit->0@ == render(after)
        },
        None => false,
    }
}

/// Plans a push of the sealed vault. With git, everything is committed and
/// pushed. With the object store, the snapshot is published under `stamp`,
/// the snapshot published before is collected, and `stamp` is recorded as
/// the snapshot published last, to be committed once all of that is done.
/// Without a backend the vault is in the wrong state for a push; a state
/// file that lacks the bucket or the last stamp is corrupt. A failure
/// changes nothing.
pub fn push_remote(root: &RootPath<Normal>, state: &mut StateFileHandle, stamp: &str) -> (r: Result<
    RemotePlan,
    VaultError,
>)
    ensures
        final(state).root() == old(state).root(),
        r is Err <==> push_fails(old(state).entries()) is Some,
        r matches Err(e) ==> Some(e) == push_fails(old(state).entries()) && final(state).entries()
            == old(state).entries(),
        r matches Ok(plan) ==> pushed(
            *root,
            old(state).entries(),
            stamp@,
            final(state).entries(),
            plan,
        ),
{
    let sync = match state.get_remote_storage() {
        Ok(Some(s)) => s,
        Ok(None) => {
            return Err(VaultError::WrongState);
        },
        Err(e) => {
            return Err(e);
        },
    };
    match sync {
        SyncMethod::Git => {
            let mut ops: Vec<RemoteOp> = Vec::new();
            ops.push(RemoteOp::AddCommitPush);
            assert(ops_of(ops@) =~= seq![RemoteOpView::AddCommitPush]);
            Ok(RemotePlan { ops, commit: None })
        },
        SyncMethod::TigrisS3 => {
            if state.get_remote().is_none() {
                return Err(VaultError::StateCorruption);
            }
            let previous = match state.get_previous_tigris_commit_stamp() {
                Ok(p) => p,
                Err(e) => {
                    return Err(e);
                },
            };
            let mut ops = publish(root, stamp);
            let dir = join_path(previous.as_str(), ".nov");
            ops.push(RemoteOp::Delete { key: join_path(previous.as_str(), "vault.bin") });
            ops.push(RemoteOp::Delete { key: join_path(dir.as_str(), ".state") });
            assert(ops_of(ops@) =~= push_ops(*root, previous@, stamp@));
            state.previous_tigris_commit_stamp(stamp);
            let text = state.writeback();
            Ok(RemotePlan { ops, commit: Some(text) })
        },
    }
}

/// What linking to the remote `url` records in the state file.
pub open spec fn linked(e: Entries, url: Seq<char>, stamp: Seq<char>) -> Entries {
    match remote_of(url) {
        Some((SyncMethod::Git, u)) => upsert(
            upsert(e, key_remote(), u),
            key_backend(),
            SyncMethod::Git.name(),
        ),
        Some((SyncMethod::TigrisS3, bucket)) => upsert(
            upsert(
                upsert(e, key_remote(), bucket),
                key_backend(),
                SyncMethod::TigrisS3.name(),
            ),
            key_stamp(),
            stamp,
        ),
        None => e,
    }
}

/// Plans the linking of a sealed vault to the remote `url`. With git, the
/// remote becomes the origin, the branch is `main`, and everything is
/// pushed. With the object store, a first snapshot is published under
/// `stamp`. Either way the remote and the backend are recorded, to be
/// committed once all of that is done. A URL of neither kind is refused
/// and changes nothing.
pub fn init_remote(root: &RootPath<Normal>, state: &mut StateFileHandle, url: &str, stamp: &str) -> (r: Result<
    RemotePlan,
    VaultError,
>)
    ensures
        final(state).root() == old(state).root(),
        r is Ok <==> remote_of(url@) is Some,
        r matches Err(e) ==> e == VaultError::RemoteError && final(state).entries() == old(
            state,
        ).entries(),
        r matches Ok(plan) ==> {
            &&& final(state).entries() == linked(old(state).entries(), url@, stamp@)
            &&& plan.commit is Some && plan.commit->0@ == render(final(state).entries())
            &&& ops_of(plan.ops@) == match backend_of(url@) {
                SyncMethod::Git => seq![
                    RemoteOpView::AddRemoteOrigin { url: url@ },
                    RemoteOpView::BranchMain,
                    RemoteOpView::AddCommitPush,
                ],
                SyncMethod::TigrisS3 => publish_ops(*root, stamp@),
            }
        },
{
    let (sync, target) = match select_remote(url) {
        Ok(pair) => pair,
        Err(e) => {
            return Err(e);
        },
    };
    match sync {
        SyncMethod::Git => {
            let mut ops: Vec<RemoteOp> = Vec::new();
            ops.push(RemoteOp::AddRemoteOrigin { url: target.clone() });
            ops.push(RemoteOp::BranchMain);
            ops.push(RemoteOp::AddCommitPush);
            assert(ops_of(ops@) =~= seq![
                RemoteOpView::AddRemoteOrigin { url: url@ },
                RemoteOpView::BranchMain,
                RemoteOpView::AddCommitPush,
            ]);
            state.set_remote(target.as_str());
            state.set_remote_storage(SyncMethod::Git);
            let text = state.writeback();
            Ok(RemotePlan { ops, commit: Some(text) })
        },
        SyncMethod::TigrisS3 => {
            let ops = publish(root, stamp);
            state.set_remote(target.as_str());
            state.set_remote_storage(SyncMethod::TigrisS3);
            state.previous_tigris_commit_stamp(stamp);
            let text = state.writeback();
            Ok(RemotePlan { ops, commit: Some(text) })
        },
    }
}

/// How a pull into a new directory begins.
#[derive(Clone, Debug, PartialEq, Eq)]
pub enum PullStart {
    /// Clone the repository at `url` into the root.
    Clone { url: String },
    /// Fetch `.lock` from `bucket` and go on with `pull_snapshot`.
    FetchLock { bucket: String },
}

/// Plans the start of a pull from the remote `url` into a directory that
/// holds no vault yet. A directory that already has its metadata is
/// refused, and so is a URL of neither kind.
pub fn pull_remote(url: &str, initialized: bool) -> (r: Result<PullStart, VaultError>)
    ensures
        initialized ==> r is Err && r->Err_0 == VaultError::AlreadyInitialized,
        !initialized ==> match remote_of(url@) {
            None => r is Err && r->Err_0 == VaultError::RemoteError,
            Some((SyncMethod::Git, u)) => r matches Ok(PullStart::Clone { url: c }) && c@ == u,
            Some((SyncMethod::TigrisS3, b)) => r matches Ok(PullStart::FetchLock { bucket }) && bucket@
                == b,
        },
{
    if initialized {
        return Err(VaultError::AlreadyInitialized);
    }
    match select_remote(url) {
        Err(e) => Err(e),
        Ok((SyncMethod::Git, target)) => Ok(PullStart::Clone { url: target }),
        Ok((SyncMethod::TigrisS3, target)) => Ok(PullStart::FetchLock { bucket: target }),
    }
}

/// The credentials file: the access key and the secret key, each on a line
/// of its own.
pub open spec fn credentials_text(access: Seq<char>, secret: Seq<char>) -> Seq<char> {
    "ACCESS_KEY="@ + access + "\nSECRET_KEY="@ + secret + "\n"@
}

/// Writes the credentials file.
pub fn render_s3_params(access: &str, secret: &str) -> (text: String)
    ensures
        text@ == credentials_text(access@, secret@),
{
    let mut text = "ACCESS_KEY=".to_owned();
    text.append(access);
    text.append("\nSECRET_KEY=");
    text.append(secret);
    text.append("\n");
    text
}

/// Reads the credentials file. A file without either key is a
/// configuration error.
pub fn load_s3_params_direct(text: &str) -> (r: Result<(String, String), VaultError>)
    ensures
        r matches Ok(pair) ==> lookup(parse_state(text@), "ACCESS_KEY"@) == Some(pair.0@)
            && lookup(parse_state(text@), "SECRET_KEY"@) == Some(pair.1@),
        r matches Err(e) ==> e == VaultError::ConfigError && (lookup(
            parse_state(text@),
            "ACCESS_KEY"@,
        ) is None || lookup(parse_state(text@), "SECRET_KEY"@) is None),
{
    let map = read_hashmap(text);
    let access = match find(&map, "ACCESS_KEY") {
        Some(a) => a.clone(),
        None => {
            return Err(VaultError::ConfigError);
        },
    };
    match find(&map, "SECRET_KEY") {
        Some(s) => Ok((access, s.clone())),
        None => Err(VaultError::ConfigError),
    }
}

/// Fetching the snapshot that `.lock` names, and keeping the credentials.
pub open spec fn pull_ops(
    root: RootPath<Normal>,
    stamp: Seq<char>,
    access: Seq<char>,
    secret: Seq<char>,
) -> Seq<RemoteOpView> {
    seq![
        RemoteOpView::Download { key: state_key(stamp), to: root.state_path() },
        RemoteOpView::Download { key: vault_key(stamp), to: root.vault_path() },
        RemoteOpView::WriteLocal {
            to: root.s3_param_path(),
            text: credentials_text(access, secret),
        },
    ]
}

/// Plans the rest of a pull from the object store, once `.lock` was
/// fetched and held the text `lock`: the snapshot it names is fetched into
/// place and the credentials are kept beside it.
pub fn pull_snapshot(root: &RootPath<Normal>, lock: &str, access: &str, secret: &str) -> (ops: Vec<
    RemoteOp,
>)
    ensures
        ops_of(ops@) == pull_ops(*root, lock@, access@, secret@),
{
    let mut ops: Vec<RemoteOp> = Vec::new();
    let dir = join_path(lock, ".nov");
    ops.push(RemoteOp::Download { key: join_path(dir.as_str(), ".state"), to: root.state_file() });
    ops.push(RemoteOp::Download { key: join_path(lock, "vault.bin"), to: root.vault_binary() });
    ops.push(
        RemoteOp::WriteLocal { to: root.s3_param_file(), text: render_s3_params(access, secret) },
    );
    assert(ops_of(ops@) =~= pull_ops(*root, lock@, access@, secret@));
    ops
}

/// A bucket: the objects it holds, by key.
pub type Bucket = Map<Seq<char>, Seq<u8>>;

/// What one operation makes of a bucket, where `disk` holds the local
/// files. Only uploads, puts and deletes touch the bucket.
pub open spec fn bucket_after_op(bucket: Bucket, disk: Map<Seq<char>, Seq<u8>>, op: RemoteOpView) -> Bucket {
    match op {
        RemoteOpView::Upload { from, key } => bucket.insert(key, disk[from]),
        RemoteOpView::PutText { key, text } => bucket.insert(key, vstd::utf8::encode_utf8(text)),
        RemoteOpView::Delete { key } => bucket.remove(key),
        _ => bucket,
    }
}

/// What a list of operations, all of which succeed, makes of a bucket.
pub open spec fn bucket_after(bucket: Bucket, disk: Map<Seq<char>, Seq<u8>>, ops: Seq<RemoteOpView>) -> Bucket
    decreases ops.len(),
{
    if ops.len() == 0 {
        bucket
    } else {
        bucket_after_op(bucket_after(bucket, disk, ops.drop_last()), disk, ops.last())
    }
}

/// Whether `stamp` can name a snapshot: it is not empty and holds no `/`.
pub open spec fn plain_stamp(stamp: Seq<char>) -> bool {
    stamp.len() > 0 && !stamp.contains('/')
}

/// A push to the object store sends the state file and the sealed archive,
/// and no other file.
pub proof fn lemma_push_sends_the_sealed_form_only(
    root: RootPath<Normal>,
    previous: Seq<char>,
    stamp: Seq<char>,
    k: int,
)
    requires
        0 <= k < push_ops(root, previous, stamp).len(),
    ensures
        push_ops(root, previous, stamp)[k] matches RemoteOpView::Upload { from, key } ==> from
            == root.state_path() || from == root.vault_path(),
{
}

/// A timestamp can name a snapshot.
pub proof fn lemma_stamp_is_plain(stamp: Seq<char>)
    requires
        is_stamp(stamp),
    ensures
        plain_stamp(stamp),
{
    if stamp.contains('/') {
        let k = choose|k: int| 0 <= k < stamp.len() && stamp[k] == '/';
        if k != 8 && k != 15 {
            assert(is_digit(stamp[k]));
        }
    }
}

/// After a push to the object store in which every operation succeeded,
/// `.lock` names the new snapshot, both objects of the new snapshot are in
/// the bucket as they are on disk, and the objects of the snapshot before
/// it are gone. This needs the two timestamps to differ: a second push
/// under the timestamp of the first would collect what it just published.
pub proof fn lemma_push_rotates(
    root: RootPath<Normal>,
    bucket: Bucket,
    disk: Map<Seq<char>, Seq<u8>>,
    previous: Seq<char>,
    stamp: Seq<char>,
)
    requires
        plain_stamp(previous),
        plain_stamp(stamp),
        previous != stamp,
    ensures
        ({
            let after = bucket_after(bucket, disk, push_ops(root, previous, stamp));
            &&& after.contains_key(lock_key()) && after[lock_key()] == vstd::utf8::encode_utf8(
                stamp,
            )
            &&& after.contains_key(state_key(stamp)) && after[state_key(stamp)]
                == disk[root.state_path()]
            &&& after.contains_key(vault_key(stamp)) && after[vault_key(stamp)]
                == disk[root.vault_path()]
            &&& !after.contains_key(state_key(previous))
            &&& !after.contains_key(vault_key(previous))
        }),
{
    let ops = push_ops(root, previous, stamp);
    assert(ops.len() == 5);
    let o4 = ops.drop_last();
    let o3 = o4.drop_last();
    let o2 = o3.drop_last();
    let o1 = o2.drop_last();
    let o0 = o1.drop_last();
    assert(o0.len() == 0);
    let b0 = bucket_after(bucket, disk, o0);
    let b1 = bucket_after(bucket, disk, o1);
    let b2 = bucket_after(bucket, disk, o2);
    let b3 = bucket_after(bucket, disk, o3);
    let b4 = bucket_after(bucket, disk, o4);
    let b5 = bucket_after(bucket, disk, ops);
    assert(b0 == bucket);
    assert(o1.last() == ops[0] && o2.last() == ops[1] && o3.last() == ops[2] && o4.last()
        == ops[3] && ops.last() == ops[4]);
    lemma_keys_apart(previous, stamp);
    assert(b1 == b0.insert(state_key(stamp), disk[root.state_path()]));
    assert(b2 == b1.insert(vault_key(stamp), disk[root.vault_path()]));
    assert(b3 == b2.insert(lock_key(), vstd::utf8::encode_utf8(stamp)));
    assert(b4 == b3.remove(vault_key(previous)));
    assert(b5 == b4.remove(state_key(previous)));
}

/// The keys of two different snapshots, and the lock, are all different.
proof fn lemma_keys_apart(previous: Seq<char>, stamp: Seq<char>)
    requires
        plain_stamp(previous),
        plain_stamp(stamp),
        previous != stamp,
    ensures
        state_key(previous) != state_key(stamp),
        state_key(previous) != vault_key(stamp),
        state_key(previous) != lock_key(),
        vault_key(previous) != state_key(stamp),
        vault_key(previous) != vault_key(stamp),
        vault_key(previous) != lock_key(),
        state_key(stamp) != vault_key(stamp),
        state_key(stamp) != lock_key(),
        vault_key(stamp) != lock_key(),
{
    reveal_strlit(".nov");
    reveal_strlit(".state");
    reveal_strlit("vault.bin");
    reveal_strlit(".lock");
    lemma_key_shape(previous);
    lemma_key_shape(stamp);
    let sp = state_key(previous);
    let ss = state_key(stamp);
    let vp = vault_key(previous);
    let vs = vault_key(stamp);
    assert(sp.last() == 'e' && ss.last() == 'e' && vp.last() == 'n' && vs.last() == 'n');
    assert(lock_key().len() == 5 && lock_key().last() == 'k');
    if sp == ss {
        assert(sp.len() == ss.len());
        assert(previous =~= sp.subrange(0, previous.len() as int));
        assert(stamp =~= ss.subrange(0, stamp.len() as int));
    }
    if vp == vs {
        assert(vp.len() == vs.len());
        assert(previous =~= vp.subrange(0, previous.len() as int));
        assert(stamp =~= vs.subrange(0, stamp.len() as int));
    }
}

/// The keys of a snapshot are its stamp followed by a fixed tail.
proof fn lemma_key_shape(stamp: Seq<char>)
    requires
        plain_stamp(stamp),
    ensures
        state_key(stamp) == stamp + "/.nov/.state"@,
        vault_key(stamp) == stamp + "/vault.bin"@,
        state_key(stamp).len() == stamp.len() + 12,
        vault_key(stamp).len() == stamp.len() + 10,
{
    reveal_strlit(".nov");
    reveal_strlit(".state");
    reveal_strlit("vault.bin");
    reveal_strlit("/.nov/.state");
    reveal_strlit("/vault.bin");
    assert(stamp.last() != '/') by {
        if stamp.last() == '/' {
            assert(stamp.contains('/'));
        }
    }
    let dir = child(stamp, ".nov"@);
    assert(dir == stamp + seq!['/'] + ".nov"@);
    assert(dir.last() == 'v');
    assert(state_key(stamp) =~= stamp + "/.nov/.state"@);
    assert(vault_key(stamp) =~= stamp + "/vault.bin"@);
}

} // verus!
