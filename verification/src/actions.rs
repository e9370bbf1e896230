//! The state machine: what entering each state does, and the context that
//! is threaded through a run.
//!
//! Entering a state commits its name to the state file first, then does its
//! work, then commits again; whatever interrupts the work, the state file
//! names the step that was under way. The library plans, the host carries
//! out: `act` takes what the host read for the step and returns the effects
//! to apply.

use vstd::prelude::*;
use crate::archive::zip_contents;
use crate::effects::{append_effects, apply, commit, plan_of, push_effect, Effect, EffectView, FsOp};
use crate::envelope::{open_blob, opened};
use crate::error::VaultError;
use crate::filter::{config_ok, gitignore_builds, ignore_lines_of, relative, NovFilter, RulesFile};
use crate::hex::hex_of;
use crate::keys::{
    unwrapped, wrapped_bytes, wrapped_of_hex, CachedPassword, MAX_PASSWORD_LEN, MasterVaultKey,
    UserVaultKey, WrappedKey, WrappedKeyView,
};
use crate::paths::{Normal, RootPath};
use crate::sealing::{sealing_ok, 
    classify_tree, is_sealing_plan, plan_sealing, sorted_of, sorts, Sorted, WorkingTree,
};
use crate::statefile::{wrapped_in, 
    flag_text, init_in, key_backend, key_init, key_state, key_wrapped, lookup, render, state_in,
    upsert, Entries, StateFileHandle, SyncMethod,
};
use crate::states::VaultState;
use crate::steps::{
    create_mandatory_post_seal_files, forward, forward_plan, post_seal_files_plan,
    recreate_directories, recreate_plan, relocate_unsecure_files, restore_git_plan, restore_plan,
    restore_vault_git, revert_encryption, revert_encryption_plan, unlink_other_archives,
    unlink_plan,
};
use crate::text::texts;
use crate::unsealing::{all_readable, expand_decrypted_bin, unpacks};

verus! {

/// What the host must read before a state is entered.
#[derive(Clone, Copy, Debug, PartialEq, Eq, Structural)]
pub enum Need {
    Nothing,
    /// The working tree: ignore file, rules file, and every path with its contents.
    WorkingTree,
    /// The deletion list, where it exists.
    DeletionList,
    /// The sealed archive.
    VaultBinary,
    /// The local-only envelope, where it exists.
    LocalVault,
    /// The names of all entries below the clear-text staging directory,
    /// relative to it, a directory before what is in it; where it exists.
    UnsecureNames,
}

/// What the host read for a step.
#[derive(Clone, Debug, PartialEq, Eq)]
pub enum StepInput {
    Nothing,
    WorkingTree(WorkingTree),
    DeletionList(Option<String>),
    VaultBinary(Vec<u8>),
    LocalVault(Option<Vec<u8>>),
    UnsecureNames(Option<Vec<String>>),
}

impl StepInput {
    /// The need that this input answers.
    pub open spec fn answers(self) -> Need {
        match self {
            StepInput::Nothing => Need::Nothing,
            StepInput::WorkingTree(_) => Need::WorkingTree,
            StepInput::DeletionList(_) => Need::DeletionList,
            StepInput::VaultBinary(_) => Need::VaultBinary,
            StepInput::LocalVault(_) => Need::LocalVault,
            StepInput::UnsecureNames(_) => Need::UnsecureNames,
        }
    }
}

/// What is threaded through the states of one run.
pub struct Context {
    password: CachedPassword,
    handle: StateFileHandle,
    master: Option<MasterVaultKey>,
    new_wrapped: Option<WrappedKey>,
    decrypted_zip_bytes: Option<Vec<u8>>,
    decrypted_local_bytes: Option<Vec<u8>>,
    starting: bool,
    skip_local_zip: bool,
    fallthrough: bool,
}

/// Overwrites every byte of `bytes` with zero.
pub fn wipe_bytes(bytes: &mut Vec<u8>)
    ensures
        final(bytes)@.len() == old(bytes)@.len(),
        forall|i: int| 0 <= i < final(bytes)@.len() ==> final(bytes)@[i] == 0,
{
    let mut i: usize = 0;
    while i < bytes.len()
        invariant
            i <= bytes.len(),
            bytes.len() == old(bytes).len(),
            forall|k: int| 0 <= k < i ==> bytes@[k] == 0,
        decreases bytes.len() - i,
    {
        bytes.set(i, 0);
        i += 1;
    }
}

/// The bytes of an optional byte string.
pub open spec fn bytes_view(b: Option<Vec<u8>>) -> Option<Seq<u8>> {
    match b {
        Some(v) => Some(v@),
        None => None,
    }
}

impl Context {
    /// What the state file handle records.
    pub closed spec fn entries(&self) -> Entries {
        self.handle.entries()
    }

    /// The vault's root, as the handle knows it.
    pub closed spec fn root(&self) -> Seq<char> {
        self.handle.root()
    }

    /// The bytes of the password.
    pub closed spec fn secret(&self) -> Seq<u8> {
        self.password@
    }

    /// The master key, once a step has unwrapped it.
    pub closed spec fn master(&self) -> Option<Seq<u8>> {
        match self.master {
            Some(m) => Some(m@),
            None => None,
        }
    }

    /// The wrapped key that the run reads or writes.
    pub closed spec fn wrapped(&self) -> Option<WrappedKeyView> {
        match self.new_wrapped {
            Some(w) => Some(w@),
            None => None,
        }
    }

    /// The decrypted public archive, between decryption and unpacking.
    pub closed spec fn main_image(&self) -> Option<Seq<u8>> {
        bytes_view(self.decrypted_zip_bytes)
    }

    /// The decrypted local-only archive, between decryption and unpacking.
    pub closed spec fn local_image(&self) -> Option<Seq<u8>> {
        bytes_view(self.decrypted_local_bytes)
    }

    /// True until the first state of the run has passed the startup gate.
    pub closed spec fn starting(&self) -> bool {
        self.starting
    }

    /// True where the vault holds no local-only envelope.
    pub closed spec fn skip_local_zip(&self) -> bool {
        self.skip_local_zip
    }

    /// True once the run found the vault already where it was asked to go.
    pub closed spec fn fallthrough(&self) -> bool {
        self.fallthrough
    }

    /// Whether two contexts agree in everything but the state file handle
    /// and the starting flag.
    pub open spec fn same_memory(&self, other: Context) -> bool {
        &&& self.root() == other.root()
        &&& self.secret() == other.secret()
        &&& self.master() == other.master()
        &&& self.wrapped() == other.wrapped()
        &&& self.main_image() == other.main_image()
        &&& self.local_image() == other.local_image()
        &&& self.skip_local_zip() == other.skip_local_zip()
        &&& self.fallthrough() == other.fallthrough()
    }

    /// Whether two contexts agree in everything.
    pub open spec fn unchanged(&self, other: Context) -> bool {
        &&& self.same_memory(other)
        &&& self.entries() == other.entries()
        &&& self.starting() == other.starting()
    }

    /// Whether two contexts are for the same vault, password and outcome.
    pub open spec fn kept(&self, other: Context) -> bool {
        &&& self.root() == other.root()
        &&& self.secret() == other.secret()
        &&& self.fallthrough() == other.fallthrough()
    }

    pub fn password(&self) -> (r: &CachedPassword)
        ensures
            r@ == self.secret(),
    {
        &self.password
    }

    pub fn state_file(&self) -> (r: &StateFileHandle)
        ensures
            r.entries() == self.entries(),
            r.root() == self.root(),
    {
        &self.handle
    }

    /// The state file handle, to change what it records. Nothing else of
    /// the context changes.
    pub fn state_file_mut(&mut self) -> (r: &mut StateFileHandle)
        ensures
            r.entries() == old(self).entries(),
            r.root() == old(self).root(),
            final(self).entries() == final(r).entries(),
            final(self).root() == final(r).root(),
            final(self).secret() == old(self).secret(),
            final(self).master() == old(self).master(),
            final(self).wrapped() == old(self).wrapped(),
            final(self).main_image() == old(self).main_image(),
            final(self).local_image() == old(self).local_image(),
            final(self).starting() == old(self).starting(),
            final(self).skip_local_zip() == old(self).skip_local_zip(),
            final(self).fallthrough() == old(self).fallthrough(),
    {
        &mut self.handle
    }

    /// The context for a run on the vault at `root`, whose state file
    /// holds `state_text`; nothing is unwrapped or decrypted yet.
    pub fn new(root: &RootPath<Normal>, pass: CachedPassword, state_text: &str) -> (r: Context)
        ensures
            r.root() == root@,
            r.entries() == crate::statefile::parse_state(state_text@),
            r.secret() == pass@,
            r.master() is None,
            r.wrapped() is None,
            r.main_image() is None,
            r.local_image() is None,
            r.starting(),
            !r.skip_local_zip(),
            !r.fallthrough(),
    {
        Context {
            starting: true,
            password: pass,
            handle: StateFileHandle::new(root.path().as_str(), state_text),
            master: None,
            new_wrapped: None,
            decrypted_zip_bytes: None,
            decrypted_local_bytes: None,
            fallthrough: false,
            skip_local_zip: false,
        }
    }

    /// Wipes the secrets that the context holds: every byte of the
    /// password, of the master key and of the decrypted archives is
    /// overwritten with zero, and the key and the archives are let go.
    /// What the state file records is not secret and stays.
    pub fn wipe(&mut self)
        ensures
            final(self).secret().len() == old(self).secret().len(),
            forall|i: int|
                0 <= i < final(self).secret().len() ==> #[trigger] final(self).secret()[i] == 0,
            final(self).master() is None,
            final(self).main_image() is None,
            final(self).local_image() is None,
            final(self).entries() == old(self).entries(),
            final(self).root() == old(self).root(),
            final(self).wrapped() == old(self).wrapped(),
            final(self).starting() == old(self).starting(),
            final(self).skip_local_zip() == old(self).skip_local_zip(),
            final(self).fallthrough() == old(self).fallthrough(),
    {
        self.password.wipe();
        match self.master.take() {
            Some(mut key) => {
                key.wipe();
            },
            None => {},
        }
        match self.decrypted_zip_bytes.take() {
            Some(mut bytes) => {
                wipe_bytes(&mut bytes);
            },
            None => {},
        }
        match self.decrypted_local_bytes.take() {
            Some(mut bytes) => {
                wipe_bytes(&mut bytes);
            },
            None => {},
        }
    }

    /// Makes the context ready for another run: the next run meets the
    /// startup gate again, and an earlier fall-through is forgotten. What
    /// the context holds in memory stays.
    pub fn begin_run(&mut self)
        ensures
            final(self).starting(),
            !final(self).fallthrough(),
            final(self).entries() == old(self).entries(),
            final(self).root() == old(self).root(),
            final(self).secret() == old(self).secret(),
            final(self).master() == old(self).master(),
            final(self).wrapped() == old(self).wrapped(),
            final(self).main_image() == old(self).main_image(),
            final(self).local_image() == old(self).local_image(),
            final(self).skip_local_zip() == old(self).skip_local_zip(),
    {
        self.starting = true;
        self.fallthrough = false;
    }

    /// Reads the state file anew, after the host has changed it on disk.
    pub fn reload(&mut self, state_text: &str)
        ensures
            final(self).entries() == crate::statefile::parse_state(state_text@),
            final(self).same_memory(*old(self)),
            final(self).starting() == old(self).starting(),
    {
        self.handle.reload(state_text);
    }

    /// Whether the startup gate has still to be passed.
    pub fn is_starting(&self) -> (r: bool)
        ensures
            r == self.starting(),
    {
        self.starting
    }

    /// Whether the run found the vault already where it was asked to go.
    pub fn fell_through(&self) -> (r: bool)
        ensures
            r == self.fallthrough(),
    {
        self.fallthrough
    }
}

/// The wrapped key that the state file holds, where it holds one that can be read.
pub open spec fn stored_wrapped(e: Entries) -> Option<WrappedKeyView> {
    wrapped_in(e)
}

/// Whether the state file names the object store as backend; `None` where
/// it names a backend that does not exist.
pub open spec fn object_store(e: Entries) -> Option<bool> {
    match lookup(e, key_backend()) {
        None => Some(false),
        Some(n) => match SyncMethod::named(n) {
            Some(m) => Some(m == SyncMethod::TigrisS3),
            None => None,
        },
    }
}

/// The states whose forward action asks which backend is configured.
pub open spec fn asks_backend(state: VaultState) -> bool {
    state == VaultState::RestoreVaultGit || state == VaultState::StashExternalGitRepo || state
        == VaultState::DeleteSealedGitFiles
}

/// The text of an optional string.
pub open spec fn text_view(t: Option<String>) -> Option<Seq<char>> {
    match t {
        Some(s) => Some(s@),
        None => None,
    }
}

/// What opening the sealed archive gives: the wrapped key of the state
/// file, the master key it gives up to the password, and the archive that
/// the envelope `blob` holds under that key.
pub open spec fn main_opening(e: Entries, secret: Seq<u8>, blob: Seq<u8>) -> Result<
    (WrappedKeyView, Seq<u8>, Seq<u8>),
    VaultError,
> {
    match stored_wrapped(e) {
        None => Err(VaultError::StateCorruption),
        Some(w) => match unwrapped(w, secret) {
            None => Err(VaultError::AuthError),
            Some(m) => match opened(blob, m) {
                None => Err(VaultError::IntegrityError),
                Some(image) => Ok((w, m, image)),
            },
        },
    }
}

/// What opening the local-only envelope gives: nothing where there is no
/// envelope, the archive it holds under the master key otherwise. Without a
/// master key the step is out of order.
pub open spec fn local_opening(master: Option<Seq<u8>>, blob: Option<Seq<u8>>) -> Result<
    Option<Seq<u8>>,
    VaultError,
> {
    match master {
        None => Err(VaultError::WrongState),
        Some(m) => match blob {
            None => Ok(None),
            Some(b) => match opened(b, m) {
                Some(image) => Ok(Some(image)),
                None => Err(VaultError::IntegrityError),
            },
        },
    }
}

/// Why a decrypted archive cannot be unpacked, if it cannot: without the
/// archive the step is out of order; bytes that are no archive, or an
/// entry that cannot be read, are an integrity failure.
pub open spec fn unpack_fails(image: Option<Seq<u8>>) -> Option<VaultError> {
    match image {
        None => Some(VaultError::WrongState),
        Some(i) => if zip_contents(i) is Some && all_readable(zip_contents(i)->0) {
            None
        } else {
            Some(VaultError::IntegrityError)
        },
    }
}

/// Whether `fx` unpacks the decrypted archive under the root.
pub open spec fn unpacking(root: Seq<char>, image: Option<Seq<u8>>, fx: Seq<EffectView>) -> bool {
    image is Some && unpacks(root, image->0, fx)
}

/// Whether every walked path of `tree` lies at or below its root.
pub open spec fn all_below_root(tree: WorkingTree) -> bool {
    forall|i: int|
        0 <= i < tree.entries@.len() ==> relative((#[trigger] tree.entries@[i]).path@, tree.root@)
            is Some
}

/// The failure that sealing the tree `tree` is bound to meet: the state
/// file holds no wrapped key that can be read, the password does not open
/// it, the ignore file or the rules cannot be compiled, or a walked path
/// lies outside the root.
pub open spec fn sealing_fails(entries: Entries, secret: Seq<u8>, tree: WorkingTree) -> Option<
    VaultError,
> {
    match stored_wrapped(entries) {
        None => Some(VaultError::StateCorruption),
        Some(w) => if unwrapped(w, secret) is None {
            Some(VaultError::AuthError)
        } else if !(gitignore_builds(ignore_lines_of(text_view(tree.gitignore))) && config_ok(
            tree.config,
        )) {
            Some(VaultError::ConfigError)
        } else if !all_below_root(tree) {
            Some(VaultError::IoError)
        } else {
            None
        },
    }
}

/// Whether `sorted` is the tree `tree` as its classifier `filter` sorts it.
pub open spec fn tree_sorted(filter: NovFilter, tree: WorkingTree, sorted: Seq<Sorted>) -> bool {
    &&& filter.built_from(tree.root@, text_view(tree.gitignore), tree.config)
    &&& sorted.len() == tree.entries@.len()
    &&& forall|i: int| 0 <= i < sorted.len() ==> sorts(filter, tree.entries@[i], #[trigger] sorted[i])
}

/// Whether the tree `tree` can be sealed, however its classifier sorts it:
/// the archives take every entry that is sorted to them and can be
/// finished and sealed.
pub open spec fn tree_seals(tree: WorkingTree) -> bool {
    forall|filter: NovFilter, sorted: Seq<Sorted>| #[trigger]
        tree_sorted(filter, tree, sorted) ==> sealing_ok(sorted)
}

/// Whether `fx` seals the tree `tree` by way of these values: the stored
/// key opens under the password to `master`, `w` is a wrapping of `master`
/// that opens under the same password, `filter` is the tree's classifier,
/// `sorted` is the tree sorted by it, and `fx` writes the sorted tree under
/// `master`.
pub open spec fn seals(
    w: WrappedKeyView,
    master: Seq<u8>,
    filter: NovFilter,
    sorted: Seq<Sorted>,
    root: RootPath<Normal>,
    entries: Entries,
    secret: Seq<u8>,
    tree: WorkingTree,
    fx: Seq<EffectView>,
) -> bool {
    &&& stored_wrapped(entries) is Some
    &&& unwrapped(stored_wrapped(entries)->0, secret) == Some(master)
    &&& unwrapped(w, secret) == Some(master)
    &&& filter.built_from(tree.root@, text_view(tree.gitignore), tree.config)
    &&& sorted.len() == tree.entries@.len()
    &&& forall|i: int| 0 <= i < sorted.len() ==> sorts(filter, tree.entries@[i], #[trigger] sorted[i])
    &&& is_sealing_plan(fx, root, sorted, master)
}

/// Whether sealing the tree `tree` can have gone by way of these values:
/// the stored key opens under the password to `master`, `w` is a wrapping
/// of `master` that opens under the same password, `filter` is the tree's
/// classifier, `sorted` is the tree sorted by it, and `fx` writes the sorted
/// tree under `master`; `after` records `w` and is otherwise as `before`.
pub open spec fn sealed_by(
    w: WrappedKeyView,
    master: Seq<u8>,
    filter: NovFilter,
    sorted: Seq<Sorted>,
    root: RootPath<Normal>,
    before: Context,
    e1: Entries,
    tree: WorkingTree,
    after: Context,
    fx: Seq<EffectView>,
) -> bool {
    &&& seals(w, master, filter, sorted, root, before.entries(), before.secret(), tree, fx)
    &&& stored_wrapped(after.entries()) == Some(w)
    &&& after.entries() == upsert(e1, key_wrapped(), hex_of(wrapped_bytes(w)))
    &&& after.wrapped() == Some(w)
    &&& after.root() == before.root()
    &&& after.secret() == before.secret()
    &&& after.master() == before.master()
    &&& after.main_image() == before.main_image()
    &&& after.local_image() == before.local_image()
    &&& after.skip_local_zip() == before.skip_local_zip()
    &&& after.fallthrough() == before.fallthrough()
}

/// Whether `after` and `fx` are what sealing the working tree of `input`
/// leaves: the stored key opens under the password to a master key, a
/// fresh wrapping of that key is recorded, and the plan writes the tree,
/// sorted by its classifier, under that key.
pub open spec fn encrypted(
    root: RootPath<Normal>,
    before: Context,
    e1: Entries,
    input: StepInput,
    after: Context,
    fx: Seq<EffectView>,
) -> bool {
    input matches StepInput::WorkingTree(tree) && exists|
        w: WrappedKeyView,
        master: Seq<u8>,
        filter: NovFilter,
        sorted: Seq<Sorted>,
    | #[trigger] sealed_by(w, master, filter, sorted, root, before, e1, tree, after, fx)
}

/// Whether `after` and `fx` are what the forward action of `state` leaves
/// when it succeeds on the context `before` with what the host read.
pub open spec fn forward_result(
    state: VaultState,
    root: RootPath<Normal>,
    before: Context,
    input: StepInput,
    after: Context,
    fx: Seq<EffectView>,
) -> bool {
    let e1 = upsert(before.entries(), key_state(), state.name());
    match state {
        VaultState::Seed => {
            &&& fx.len() == 0
            &&& exists|w: WrappedKeyView| #[trigger]
                unwrapped(w, before.secret()) is Some && after.entries() == upsert(
                    upsert(e1, key_wrapped(), hex_of(wrapped_bytes(w))),
                    key_init(),
                    flag_text(true),
                )
            &&& after.same_memory(before)
        },
        VaultState::MarkInitDone => {
            &&& fx.len() == 0
            &&& after.entries() == upsert(e1, key_init(), flag_text(false))
            &&& after.same_memory(before)
        },
        VaultState::Encrypting => encrypted(root, before, e1, input, after, fx),
        VaultState::UnlinkPostSeal => {
            &&& input matches StepInput::DeletionList(Some(list)) && fx == unlink_plan(root, list@)
            &&& after.entries() == e1
            &&& after.same_memory(before)
        },
        VaultState::DecryptMainVault => {
            &&& fx.len() == 0
            &&& after.entries() == e1
            &&& input matches StepInput::VaultBinary(blob) && main_opening(
                before.entries(),
                before.secret(),
                blob@,
            ) == Ok::<(WrappedKeyView, Seq<u8>, Seq<u8>), VaultError>(
                (after.wrapped()->0, after.master()->0, after.main_image()->0),
            )
            &&& after.wrapped() is Some && after.master() is Some && after.main_image() is Some
            &&& after.local_image() == before.local_image()
            &&& after.skip_local_zip() == before.skip_local_zip()
            &&& after.kept(before)
        },
        VaultState::DecryptLocallySecuredVault => {
            &&& fx.len() == 0
            &&& after.entries() == e1
            &&& input matches StepInput::LocalVault(blob) && match local_opening(
                before.master(),
                bytes_view(blob),
            ) {
                Ok(Some(image)) => after.local_image() == Some(image) && after.skip_local_zip()
                    == before.skip_local_zip(),
                Ok(None) => after.local_image() == before.local_image() && after.skip_local_zip(),
                Err(_) => false,
            }
            &&& after.master() == before.master()
            &&& after.wrapped() == before.wrapped()
            &&& after.main_image() == before.main_image()
            &&& after.kept(before)
        },
        VaultState::ExpandMainVault => {
            &&& unpacking(root@, before.main_image(), fx)
            &&& after.entries() == e1
            &&& after.main_image() is None
            &&& after.master() == before.master()
            &&& after.wrapped() == before.wrapped()
            &&& after.local_image() == before.local_image()
            &&& after.skip_local_zip() == before.skip_local_zip()
            &&& after.kept(before)
        },
        VaultState::ExpandLocalVault => {
            &&& after.entries() == e1
            &&& if before.skip_local_zip() {
                fx.len() == 0 && after.local_image() == before.local_image()
            } else {
                unpacking(root@, before.local_image(), fx) && after.local_image() is None
            }
            &&& after.master() == before.master()
            &&& after.wrapped() == before.wrapped()
            &&& after.main_image() == before.main_image()
            &&& after.skip_local_zip() == before.skip_local_zip()
            &&& after.kept(before)
        },
        VaultState::RestoreUnsecureFiles => {
            &&& input matches StepInput::UnsecureNames(names) && fx == match names {
                Some(n) => restore_plan(root, texts(n@)),
                None => Seq::empty(),
            }
            &&& after.entries() == e1
            &&& after.same_memory(before)
        },
        _ => {
            &&& asks_backend(state) ==> object_store(before.entries()) is Some
            &&& fx == forward_plan(
                state,
                root,
                asks_backend(state) && object_store(before.entries()) == Some(true),
            )
            &&& after.entries() == e1
            &&& after.same_memory(before)
        },
    }
}

/// The failure that the forward action of `state` is bound to meet on the
/// context `before` with what the host read; `None` where nothing in them
/// makes it fail.
pub open spec fn forward_fails(
    state: VaultState,
    root: RootPath<Normal>,
    before: Context,
    input: StepInput,
) -> Option<VaultError> {
    if input.answers() != state.need() {
        Some(VaultError::IoError)
    } else {
        match state {
            VaultState::Encrypting => sealing_fails(
                before.entries(),
                before.secret(),
                input->WorkingTree_0,
            ),
            VaultState::UnlinkPostSeal => if input matches StepInput::DeletionList(None) {
                Some(VaultError::IoError)
            } else {
                None
            },
            VaultState::DecryptMainVault => match main_opening(
                before.entries(),
                before.secret(),
                input->VaultBinary_0@,
            ) {
                Err(e) => Some(e),
                Ok(_) => None,
            },
            VaultState::DecryptLocallySecuredVault => match local_opening(
                before.master(),
                bytes_view(input->LocalVault_0),
            ) {
                Err(e) => Some(e),
                Ok(_) => None,
            },
            VaultState::ExpandMainVault => unpack_fails(before.main_image()),
            VaultState::ExpandLocalVault => if before.skip_local_zip() {
                None
            } else {
                unpack_fails(before.local_image())
            },
            _ => if asks_backend(state) && object_store(before.entries()) is None {
                Some(VaultError::StateCorruption)
            } else {
                None
            },
        }
    }
}

/// Whether the forward action of `state` is owed to succeed where nothing
/// is bound to make it fail: `Encrypting` where the tree can be sealed,
/// `Seed` where the password is not too long to hash, and every other
/// state always.
pub open spec fn forward_sure(state: VaultState, before: Context, input: StepInput) -> bool {
    &&& state == VaultState::Encrypting ==> input is WorkingTree && tree_seals(
        input->WorkingTree_0,
    )
    &&& state == VaultState::Seed ==> before.secret().len() <= MAX_PASSWORD_LEN
}

impl VaultState {
    /// What the host must read before the state is entered.
    pub open spec fn need(self) -> Need {
        match self {
            VaultState::Encrypting => Need::WorkingTree,
            VaultState::UnlinkPostSeal => Need::DeletionList,
            VaultState::DecryptMainVault => Need::VaultBinary,
            VaultState::DecryptLocallySecuredVault => Need::LocalVault,
            VaultState::RestoreUnsecureFiles => Need::UnsecureNames,
            _ => Need::Nothing,
        }
    }

    pub fn needs(&self) -> (r: Need)
        ensures
            r == self.need(),
    {
        match self {
            VaultState::Encrypting => Need::WorkingTree,
            VaultState::UnlinkPostSeal => Need::DeletionList,
            VaultState::DecryptMainVault => Need::VaultBinary,
            VaultState::DecryptLocallySecuredVault => Need::LocalVault,
            VaultState::RestoreUnsecureFiles => Need::UnsecureNames,
            _ => Need::Nothing,
        }
    }
}

/// Generates a master key and wraps it under the password of the run.
pub fn seed_state(ctx: &Context) -> (r: Result<WrappedKey, VaultError>)
    ensures
        ctx.secret().len() <= MAX_PASSWORD_LEN ==> r is Ok,
        r matches Ok(w) ==> unwrapped(w@, ctx.secret()) is Some,
        r matches Err(e) ==> e == VaultError::AuthError,
{
    let master = MasterVaultKey::generate();
    let user = match UserVaultKey::init_fresh(&ctx.password) {
        Ok(u) => u,
        Err(e) => {
            return Err(e);
        },
    };
    match WrappedKey::init(&user, &master) {
        Ok(w) => {
            assert(user.derived_from(ctx.secret()));
            Ok(w)
        },
        Err(_) => Err(VaultError::AuthError),
    }
}

/// Unwraps the master key and opens the sealed archive `blob` in memory.
/// Nothing on disk is touched.
pub fn decrypt_main_vault(ctx: &Context, blob: &Vec<u8>) -> (r: Result<
    (WrappedKey, MasterVaultKey, Vec<u8>),
    VaultError,
>)
    ensures
        r matches Ok(t) ==> main_opening(ctx.entries(), ctx.secret(), blob@) == Ok::<
            (WrappedKeyView, Seq<u8>, Seq<u8>),
            VaultError,
        >((t.0@, t.1@, t.2@)),
        r matches Err(e) ==> main_opening(ctx.entries(), ctx.secret(), blob@) == Err::<
            (WrappedKeyView, Seq<u8>, Seq<u8>),
            VaultError,
        >(e),
{
    let wrapped = match ctx.handle.get_wrapped_key() {
        Ok(w) => w,
        Err(e) => {
            return Err(e);
        },
    };
    let master = match wrapped.get_master_key_with_no_rewrap(&ctx.password) {
        Ok(m) => m,
        Err(e) => {
            return Err(e);
        },
    };
    match open_blob(blob, master.key_bytes()) {
        Ok(image) => Ok((wrapped, master, image)),
        Err(e) => Err(e),
    }
}

/// Opens the local-only envelope in memory, where there is one.
pub fn decrypt_local_vault(ctx: &Context, blob: &Option<Vec<u8>>) -> (r: Result<
    Option<Vec<u8>>,
    VaultError,
>)
    ensures
        r matches Ok(image) ==> local_opening(ctx.master(), bytes_view(*blob)) == Ok::<
            Option<Seq<u8>>,
            VaultError,
        >(bytes_view(image)),
        r matches Err(e) ==> local_opening(ctx.master(), bytes_view(*blob)) == Err::<
            Option<Seq<u8>>,
            VaultError,
        >(e),
{
    match &ctx.master {
        None => Err(VaultError::WrongState),
        Some(k) => match blob {
            None => Ok(None),
            Some(b) => match open_blob(b, k.key_bytes()) {
                Ok(image) => Ok(Some(image)),
                Err(e) => Err(e),
            },
        },
    }
}

/// Plans the unpacking of a decrypted archive that the context holds.
pub fn expand_image(root: &RootPath<Normal>, image: &Option<Vec<u8>>) -> (r: Result<
    Vec<Effect>,
    VaultError,
>)
    ensures
        r is Ok <==> unpack_fails(bytes_view(*image)) is None,
        r matches Ok(plan) ==> unpacking(root@, bytes_view(*image), plan_of(plan@)),
        r matches Err(e) ==> unpack_fails(bytes_view(*image)) == Some(e),
{
    match image {
        None => Err(VaultError::WrongState),
        Some(i) => expand_decrypted_bin(root, i),
    }
}

/// Whether the state file names the object store as backend.
pub fn uses_object_store(handle: &StateFileHandle) -> (r: Result<bool, VaultError>)
    ensures
        r matches Ok(b) ==> object_store(handle.entries()) == Some(b),
        r matches Err(e) ==> e == VaultError::StateCorruption && object_store(handle.entries())
            is None,
{
    match handle.get_remote_storage() {
        Ok(Some(SyncMethod::TigrisS3)) => Ok(true),
        Ok(Some(SyncMethod::Git)) => Ok(false),
        Ok(None) => Ok(false),
        Err(e) => Err(e),
    }
}

/// Walks nothing and writes nothing itself: plans what sealing the working
/// tree `tree` writes. The master key is unwrapped with the password of the
/// run and wrapped afresh; the tree is sorted by its classifier; the plan
/// holds the clear-text copies, the deletion list and the envelopes. The
/// fresh wrapping is returned beside the plan.
pub fn write_encrypted_archives(root: &RootPath<Normal>, ctx: &Context, tree: WorkingTree) -> (r: Result<
    (Vec<Effect>, WrappedKey),
    VaultError,
>)
    ensures
        sealing_fails(ctx.entries(), ctx.secret(), tree) is Some ==> r is Err && Some(r->Err_0)
            == sealing_fails(ctx.entries(), ctx.secret(), tree),
        sealing_fails(ctx.entries(), ctx.secret(), tree) is None && tree_seals(tree) ==> r is Ok,
        r matches Ok(pair) ==> exists|master: Seq<u8>, filter: NovFilter, sorted: Seq<Sorted>| #[trigger]
            seals(
                pair.1@,
                master,
                filter,
                sorted,
                *root,
                ctx.entries(),
                ctx.secret(),
                tree,
                plan_of(pair.0@),
            ),
        r matches Err(e) ==> sealing_fails(ctx.entries(), ctx.secret(), tree) == Some(e) || (e
            == VaultError::IoError && !tree_seals(tree)),
{
    let stored = match ctx.handle.get_wrapped_key() {
        Ok(w) => w,
        Err(e) => {
            return Err(e);
        },
    };
    let (fresh, master) = match stored.get_master_key(&ctx.password) {
        Ok(pair) => pair,
        Err(e) => {
            return Err(e);
        },
    };
    let ghost whole = tree;
    let WorkingTree { root: tree_root, gitignore: tree_ignore, config: tree_config, entries: tree_entries } =
        tree;
    let gitignore: Option<&str> = match &tree_ignore {
        Some(text) => Some(text.as_str()),
        None => None,
    };
    let config: Option<&RulesFile> = match &tree_config {
        Some(c) => Some(c),
        None => None,
    };
    let filter = match NovFilter::from_root(tree_root.as_str(), gitignore, config) {
        Ok(f) => f,
        Err(e) => {
            return Err(e);
        },
    };
    let ghost entries = tree_entries@;
    let sorted = match classify_tree(&filter, tree_entries) {
        Ok(s) => s,
        Err(e) => {
            return Err(e);
        },
    };
    proof {
        let s = sorted_of(sorted@);
        assert forall|i: int| 0 <= i < s.len() implies sorts(filter, entries[i], #[trigger] s[i]) by {
            assert(s[i] == sorted@[i]@);
        }
        assert(tree_sorted(filter, whole, s));
    }
    match plan_sealing(root, &sorted, master.key_bytes()) {
        Ok(plan) => {
            proof {
                let s = sorted_of(sorted@);
                assert forall|i: int| 0 <= i < s.len() implies sorts(
                    filter,
                    entries[i],
                    #[trigger] s[i],
                ) by {
                    assert(s[i] == sorted@[i]@);
                }
                assert(seals(
                    fresh@,
                    master@,
                    filter,
                    s,
                    *root,
                    ctx.entries(),
                    ctx.secret(),
                    whole,
                    plan_of(plan@),
                ));
            }
            let ghost w = fresh@;
            let ghost fx = plan_of(plan@);
            let ghost m0 = master@;
            let r: Result<(Vec<Effect>, WrappedKey), VaultError> = Ok((plan, fresh));
            proof {
                let pair = r->Ok_0;
                assert(pair.1@ == w);
                assert(plan_of(pair.0@) == fx);
                assert(seals(
                    pair.1@,
                    m0,
                    filter,
                    sorted_of(sorted@),
                    *root,
                    ctx.entries(),
                    ctx.secret(),
                    tree,
                    plan_of(pair.0@),
                ));
            }
            r
        },
        Err(e) => Err(e),
    }
}

/// What the startup gate says of entering a state.
#[derive(Clone, Copy, Debug, PartialEq, Eq, Structural)]
pub enum Gate {
    /// The state file names no state that exists.
    Corrupt,
    /// An earlier run was interrupted; it must be repaired first.
    Repair,
    /// The vault already is where the run would take it.
    AlreadyThere,
    Proceed,
}

/// The verdict of the startup gate on entering `state` as the first state
/// of a run, when the state file records `persisted`: a state that is no
/// rest state asks for repair; unsealing an unsealed vault and sealing a
/// sealed one have nothing to do.
pub open spec fn gate(state: VaultState, persisted: Option<VaultState>) -> Gate {
    match persisted {
        None => Gate::Corrupt,
        Some(p) => if !p.rest() {
            Gate::Repair
        } else if p == VaultState::Unsealed && state == VaultState::DecryptMainVault {
            Gate::AlreadyThere
        } else if p == VaultState::Sealed && state == VaultState::RecreatingDirectories {
            Gate::AlreadyThere
        } else {
            Gate::Proceed
        },
    }
}

/// What a forward action changes in the context once it has succeeded.
enum Update {
    Nothing,
    Seeded(WrappedKey),
    InitDone,
    Rewrapped(WrappedKey),
    MainOpened(WrappedKey, MasterVaultKey, Vec<u8>),
    LocalOpened(Option<Vec<u8>>),
    MainExpanded,
    LocalExpanded,
}

/// Whether `fx` and `update` are what the forward action of `state` gives
/// on the context `before` with what the host read.
spec fn step_ok(
    state: VaultState,
    root: RootPath<Normal>,
    before: Context,
    input: StepInput,
    fx: Seq<EffectView>,
    update: Update,
) -> bool {
    match state {
        VaultState::Seed => update matches Update::Seeded(w) && unwrapped(w@, before.secret())
            is Some && fx.len() == 0,
        VaultState::MarkInitDone => fx.len() == 0 && update is InitDone,
        VaultState::Encrypting => input matches StepInput::WorkingTree(tree)
            && update matches Update::Rewrapped(w) && exists|
            master: Seq<u8>,
            filter: NovFilter,
            sorted: Seq<Sorted>,
        | #[trigger]
            seals(w@, master, filter, sorted, root, before.entries(), before.secret(), tree, fx),
        VaultState::UnlinkPostSeal => input matches StepInput::DeletionList(Some(list)) && fx
            == unlink_plan(root, list@) && update is Nothing,
        VaultState::DecryptMainVault => input matches StepInput::VaultBinary(blob)
            && update matches Update::MainOpened(w, m, image) && main_opening(
            before.entries(),
            before.secret(),
            blob@,
        ) == Ok::<(WrappedKeyView, Seq<u8>, Seq<u8>), VaultError>((w@, m@, image@)) && fx.len()
            == 0,
        VaultState::DecryptLocallySecuredVault => input matches StepInput::LocalVault(blob)
            && update matches Update::LocalOpened(image) && local_opening(
            before.master(),
            bytes_view(blob),
        ) == Ok::<Option<Seq<u8>>, VaultError>(bytes_view(image)) && fx.len() == 0,
        VaultState::ExpandMainVault => update is MainExpanded && unpacking(
            root@,
            before.main_image(),
            fx,
        ),
        VaultState::ExpandLocalVault => if before.skip_local_zip() {
            fx.len() == 0 && update is Nothing
        } else {
            update is LocalExpanded && unpacking(root@, before.local_image(), fx)
        },
        VaultState::RestoreUnsecureFiles => input matches StepInput::UnsecureNames(names) && fx
            == (match names {
            Some(n) => restore_plan(root, texts(n@)),
            None => Seq::empty(),
        }) && update is Nothing,
        _ => {
            &&& update is Nothing
            &&& asks_backend(state) ==> object_store(before.entries()) is Some
            &&& fx == forward_plan(
                state,
                root,
                asks_backend(state) && object_store(before.entries()) == Some(true),
            )
        },
    }
}

/// Whether the failure `e` of the forward action of `state` is one that
/// only the outside can cause: a tree that the archives or the cipher do
/// not take, or a password too long to hash.
pub open spec fn outside_failure(state: VaultState, input: StepInput, e: VaultError) -> bool {
    ||| state == VaultState::Encrypting && e == VaultError::IoError && input is WorkingTree
        && !tree_seals(input->WorkingTree_0)
    ||| state == VaultState::Seed && e == VaultError::AuthError
}

fn empty_effects() -> (plan: Vec<Effect>)
    ensures
        plan_of(plan@) == Seq::<EffectView>::empty(),
        plan@.len() == 0,
{
    let plan: Vec<Effect> = Vec::new();
    assert(plan_of(plan@) =~= Seq::<EffectView>::empty());
    plan
}

impl VaultState {
    /// The forward action of the state, without the commits around it.
    /// The context is read, not changed.
    fn forward_step(&self, root: &RootPath<Normal>, ctx: &Context, input: StepInput) -> (r: Result<
        (Vec<Effect>, Update),
        VaultError,
    >)
        ensures
            forward_fails(*self, *root, *ctx, input) is Some ==> r is Err && Some(r->Err_0)
                == forward_fails(*self, *root, *ctx, input),
            forward_fails(*self, *root, *ctx, input) is None && forward_sure(*self, *ctx, input)
                ==> r is Ok,
            r matches Ok(pair) ==> step_ok(*self, *root, *ctx, input, plan_of(pair.0@), pair.1),
            r matches Err(e) ==> forward_fails(*self, *root, *ctx, input) == Some(e)
                || outside_failure(*self, input, e),
    {
        match *self {
            VaultState::Seed => match input {
                StepInput::Nothing => match seed_state(ctx) {
                    Ok(w) => Ok((empty_effects(), Update::Seeded(w))),
                    Err(e) => Err(e),
                },
                _ => Err(VaultError::IoError),
            },
            VaultState::MarkInitDone => match input {
                StepInput::Nothing => Ok((empty_effects(), Update::InitDone)),
                _ => Err(VaultError::IoError),
            },
            VaultState::Encrypting => match input {
                StepInput::WorkingTree(tree) => {
                    let ghost whole = tree;
                    match write_encrypted_archives(root, ctx, tree) {
                        Ok((plan, fresh)) => {
                            let ghost w = fresh@;
                            let ghost fx = plan_of(plan@);
                            let ghost witness = choose|
                                m: Seq<u8>,
                                f: NovFilter,
                                so: Seq<Sorted>,
                            | #[trigger]
                                seals(
                                    w,
                                    m,
                                    f,
                                    so,
                                    *root,
                                    ctx.entries(),
                                    ctx.secret(),
                                    whole,
                                    fx,
                                );
                            let r: Result<(Vec<Effect>, Update), VaultError> = Ok(
                                (plan, Update::Rewrapped(fresh)),
                            );
                            proof {
                                assert(whole == input->WorkingTree_0);
                                assert(seals(
                                    r->Ok_0.1->Rewrapped_0@,
                                    witness.0,
                                    witness.1,
                                    witness.2,
                                    *root,
                                    ctx.entries(),
                                    ctx.secret(),
                                    input->WorkingTree_0,
                                    plan_of(r->Ok_0.0@),
                                ));
                            }
                            r
                        },
                        Err(e) => Err(e),
                    }
                },
                _ => Err(VaultError::IoError),
            },
            VaultState::UnlinkPostSeal => match input {
                StepInput::DeletionList(Some(list)) => Ok(
                    (unlink_other_archives(root, list.as_str()), Update::Nothing),
                ),
                _ => Err(VaultError::IoError),
            },
            VaultState::DecryptMainVault => match input {
                StepInput::VaultBinary(blob) => match decrypt_main_vault(ctx, &blob) {
                    Ok((w, m, image)) => Ok((empty_effects(), Update::MainOpened(w, m, image))),
                    Err(e) => Err(e),
                },
                _ => Err(VaultError::IoError),
            },
            VaultState::DecryptLocallySecuredVault => match input {
                StepInput::LocalVault(blob) => match decrypt_local_vault(ctx, &blob) {
                    Ok(image) => Ok((empty_effects(), Update::LocalOpened(image))),
                    Err(e) => Err(e),
                },
                _ => Err(VaultError::IoError),
            },
            VaultState::ExpandMainVault => match input {
                StepInput::Nothing => match expand_image(root, &ctx.decrypted_zip_bytes) {
                    Ok(plan) => Ok((plan, Update::MainExpanded)),
                    Err(e) => Err(e),
                },
                _ => Err(VaultError::IoError),
            },
            VaultState::ExpandLocalVault => match input {
                StepInput::Nothing => {
                    if ctx.skip_local_zip {
                        Ok((empty_effects(), Update::Nothing))
                    } else {
                        match expand_image(root, &ctx.decrypted_local_bytes) {
                            Ok(plan) => Ok((plan, Update::LocalExpanded)),
                            Err(e) => Err(e),
                        }
                    }
                },
                _ => Err(VaultError::IoError),
            },
            VaultState::RestoreUnsecureFiles => match input {
                StepInput::UnsecureNames(Some(names)) => Ok(
                    (relocate_unsecure_files(root, &names), Update::Nothing),
                ),
                StepInput::UnsecureNames(None) => Ok((empty_effects(), Update::Nothing)),
                _ => Err(VaultError::IoError),
            },
            VaultState::RestoreVaultGit | VaultState::StashExternalGitRepo
            | VaultState::DeleteSealedGitFiles => match input {
                StepInput::Nothing => match uses_object_store(&ctx.handle) {
                    Ok(s3) => Ok((forward(*self, root, s3), Update::Nothing)),
                    Err(e) => Err(e),
                },
                _ => Err(VaultError::IoError),
            },
            _ => match input {
                StepInput::Nothing => Ok((forward(*self, root, false), Update::Nothing)),
                _ => Err(VaultError::IoError),
            },
        }
    }
}

/// Whether `after` is `before` with `update` applied.
spec fn applied(before: Context, update: Update, after: Context) -> bool {
    &&& after.kept(before)
    &&& after.starting() == before.starting()
    &&& match update {
        Update::Nothing => after.unchanged(before),
        Update::Seeded(w) => after.same_memory(before) && after.entries() == upsert(
            upsert(before.entries(), key_wrapped(), hex_of(wrapped_bytes(w@))),
            key_init(),
            flag_text(true),
        ),
        Update::InitDone => after.same_memory(before) && after.entries() == upsert(
            before.entries(),
            key_init(),
            flag_text(false),
        ),
        Update::Rewrapped(w) => {
            &&& after.entries() == upsert(before.entries(), key_wrapped(), hex_of(wrapped_bytes(w@)))
            &&& after.wrapped() == Some(w@)
            &&& after.master() == before.master()
            &&& after.main_image() == before.main_image()
            &&& after.local_image() == before.local_image()
            &&& after.skip_local_zip() == before.skip_local_zip()
        },
        Update::MainOpened(w, m, image) => {
            &&& after.entries() == before.entries()
            &&& after.wrapped() == Some(w@)
            &&& after.master() == Some(m@)
            &&& after.main_image() == Some(image@)
            &&& after.local_image() == before.local_image()
            &&& after.skip_local_zip() == before.skip_local_zip()
        },
        Update::LocalOpened(image) => {
            &&& after.entries() == before.entries()
            &&& after.wrapped() == before.wrapped()
            &&& after.master() == before.master()
            &&& after.main_image() == before.main_image()
            &&& match image {
                Some(i) => after.local_image() == Some(i@) && after.skip_local_zip()
                    == before.skip_local_zip(),
                None => after.local_image() == before.local_image() && after.skip_local_zip(),
            }
        },
        Update::MainExpanded => {
            &&& after.entries() == before.entries()
            &&& after.wrapped() == before.wrapped()
            &&& after.master() == before.master()
            &&& after.main_image() is None
            &&& after.local_image() == before.local_image()
            &&& after.skip_local_zip() == before.skip_local_zip()
        },
        Update::LocalExpanded => {
            &&& after.entries() == before.entries()
            &&& after.wrapped() == before.wrapped()
            &&& after.master() == before.master()
            &&& after.main_image() == before.main_image()
            &&& after.local_image() is None
            &&& after.skip_local_zip() == before.skip_local_zip()
        },
    }
}

fn apply_update(ctx: &mut Context, update: Update)
    ensures
        applied(*old(ctx), update, *final(ctx)),
{
    match update {
        Update::Nothing => {},
        Update::Seeded(w) => {
            ctx.handle.set_master_key(&w);
            ctx.handle.set_init(true);
        },
        Update::InitDone => {
            ctx.handle.set_init(false);
        },
        Update::Rewrapped(w) => {
            ctx.handle.set_master_key(&w);
            ctx.new_wrapped = Some(w);
        },
        Update::MainOpened(w, m, image) => {
            ctx.new_wrapped = Some(w);
            ctx.master = Some(m);
            ctx.decrypted_zip_bytes = Some(image);
        },
        Update::LocalOpened(image) => {
            match image {
                Some(i) => {
                    ctx.decrypted_local_bytes = Some(i);
                },
                None => {
                    ctx.skip_local_zip = true;
                },
            }
        },
        Update::MainExpanded => {
            ctx.decrypted_zip_bytes = None;
        },
        Update::LocalExpanded => {
            ctx.decrypted_local_bytes = None;
        },
    }
}

/// Whether `plan` and `after` are what entering `state` leaves when it
/// succeeds: the state's name is committed, the forward action's effects
/// follow, and what the context then records is committed.
pub open spec fn committed(
    state: VaultState,
    root: RootPath<Normal>,
    before: Context,
    input: StepInput,
    after: Context,
    plan: Seq<EffectView>,
) -> bool {
    &&& plan.len() >= 2
    &&& plan[0] == commit(render(upsert(before.entries(), key_state(), state.name())))
    &&& plan.last() == commit(render(after.entries()))
    &&& forward_result(state, root, before, input, after, plan.subrange(1, plan.len() - 1))
    &&& !after.starting()
    &&& state_in(after.entries()) == Some(state)
}

/// Whether `plan` and `after` are what entering `state` leaves when its
/// forward action fails: the state's name is committed and on record, and
/// nothing else has changed.
pub open spec fn entered(
    state: VaultState,
    before: Context,
    after: Context,
    plan: Seq<EffectView>,
) -> bool {
    &&& plan == seq![commit(render(upsert(before.entries(), key_state(), state.name())))]
    &&& after.entries() == upsert(before.entries(), key_state(), state.name())
    &&& state_in(after.entries()) == Some(state)
    &&& !after.starting()
    &&& after.same_memory(before)
}

/// What entering a state asks of the host: the effects to carry out, in
/// order, and then the outcome to report.
#[derive(Debug, PartialEq, Eq)]
pub struct StepPlan {
    pub effects: Vec<Effect>,
    pub outcome: Result<(), VaultError>,
}

/// Whether entering `state` gets past the startup gate.
pub open spec fn proceeds(state: VaultState, before: Context) -> bool {
    !before.fallthrough() && (before.starting() ==> gate(state, state_in(before.entries()))
        == Gate::Proceed)
}

proof fn lemma_forward_result(
    state: VaultState,
    root: RootPath<Normal>,
    before: Context,
    mid: Context,
    input: StepInput,
    fx: Seq<EffectView>,
    update: Update,
    after: Context,
)
    requires
        step_ok(state, root, before, input, fx, update),
        mid.same_memory(before),
        mid.entries() == upsert(before.entries(), key_state(), state.name()),
        applied(mid, update, after),
    ensures
        forward_result(state, root, before, input, after, fx),
        state_in(after.entries()) == Some(state),
{
    let e1 = upsert(before.entries(), key_state(), state.name());
    crate::statefile::lemma_keys_distinct();
    crate::states::lemma_state_names_distinct(state, state);
    crate::statefile::lemma_lookup_upsert(before.entries(), key_state(), state.name(), key_state());
    match update {
        Update::Seeded(w) => {
            let e2 = upsert(e1, key_wrapped(), hex_of(wrapped_bytes(w@)));
            crate::statefile::lemma_lookup_upsert(
                e1,
                key_wrapped(),
                hex_of(wrapped_bytes(w@)),
                key_state(),
            );
            crate::statefile::lemma_lookup_upsert(e2, key_init(), flag_text(true), key_state());
            assert(unwrapped(w@, before.secret()) is Some);
        },
        Update::InitDone => {
            crate::statefile::lemma_lookup_upsert(e1, key_init(), flag_text(false), key_state());
        },
        Update::Rewrapped(w) => {
            crate::statefile::lemma_lookup_upsert(
                e1,
                key_wrapped(),
                hex_of(wrapped_bytes(w@)),
                key_state(),
            );
            crate::statefile::lemma_wrapped_key_is_read_back(e1, w);
            let tree = input->WorkingTree_0;
            let witness = choose|master: Seq<u8>, filter: NovFilter, sorted: Seq<Sorted>| #[trigger]
                seals(
                    w@,
                    master,
                    filter,
                    sorted,
                    root,
                    before.entries(),
                    before.secret(),
                    tree,
                    fx,
                );
            assert(sealed_by(
                w@,
                witness.0,
                witness.1,
                witness.2,
                root,
                before,
                e1,
                tree,
                after,
                fx,
            ));
        },
        _ => {},
    }
}

impl VaultState {
    /// Enters the state. The first state of a run meets the startup gate:
    /// with the vault already where the run would take it, nothing is done
    /// and the rest of the run falls through; with an interrupted run on
    /// record, the state is refused until `repair` has been planned and
    /// carried out. Once the state is let in, the plan commits the state's
    /// name, does the forward action on what the host read, and commits
    /// again.
    ///
    /// Where the forward action fails, the plan still commits the state's
    /// name, and nothing else: the host carries that out and then reports
    /// the failure, so that the next run finds the step on record and
    /// repairs it. A state that is refused at the startup gate commits
    /// nothing and leaves the context as it was.
    pub fn act(&self, root: &RootPath<Normal>, ctx: &mut Context, input: StepInput) -> (r: StepPlan)
        ensures
            old(ctx).fallthrough() ==> r.outcome is Ok && r.effects@.len() == 0,
            old(ctx).fallthrough() ==> final(ctx).unchanged(*old(ctx)),
            !old(ctx).fallthrough() && old(ctx).starting() ==> match gate(
                *self,
                state_in(old(ctx).entries()),
            ) {
                Gate::Corrupt => {
                    &&& r.outcome is Err && r.outcome->Err_0 == VaultError::StateCorruption
                    &&& r.effects@.len() == 0
                    &&& final(ctx).unchanged(*old(ctx))
                },
                Gate::Repair => {
                    &&& r.outcome is Err && r.outcome->Err_0 == VaultError::WrongState
                    &&& r.effects@.len() == 0
                    &&& final(ctx).unchanged(*old(ctx))
                },
                Gate::AlreadyThere => {
                    &&& r.outcome is Ok && r.effects@.len() == 0
                    &&& final(ctx).fallthrough()
                    &&& final(ctx).starting()
                    &&& final(ctx).entries() == old(ctx).entries()
                    &&& final(ctx).root() == old(ctx).root()
                    &&& final(ctx).secret() == old(ctx).secret()
                    &&& final(ctx).master() == old(ctx).master()
                    &&& final(ctx).wrapped() == old(ctx).wrapped()
                    &&& final(ctx).main_image() == old(ctx).main_image()
                    &&& final(ctx).local_image() == old(ctx).local_image()
                    &&& final(ctx).skip_local_zip() == old(ctx).skip_local_zip()
                },
                Gate::Proceed => true,
            },
            proceeds(*self, *old(ctx)) ==> {
                &&& forward_fails(*self, *root, *old(ctx), input) is Some ==> r.outcome is Err
                    && Some(r.outcome->Err_0) == forward_fails(*self, *root, *old(ctx), input)
                &&& forward_fails(*self, *root, *old(ctx), input) is None && forward_sure(
                    *self,
                    *old(ctx),
                    input,
                ) ==> r.outcome is Ok
                &&& r.outcome is Ok ==> committed(
                    *self,
                    *root,
                    *old(ctx),
                    input,
                    *final(ctx),
                    plan_of(r.effects@),
                )
                &&& r.outcome matches Err(e) ==> (forward_fails(*self, *root, *old(ctx), input)
                    == Some(e) || outside_failure(*self, input, e)) && entered(
                    *self,
                    *old(ctx),
                    *final(ctx),
                    plan_of(r.effects@),
                )
            },
    {
        if ctx.fallthrough {
            return StepPlan { effects: empty_effects(), outcome: Ok(()) };
        }
        if ctx.starting {
            let persisted = match ctx.handle.get_state() {
                Ok(s) => s,
                Err(e) => {
                    return StepPlan { effects: empty_effects(), outcome: Err(e) };
                },
            };
            if !persisted.is_rest_state() {
                return StepPlan { effects: empty_effects(), outcome: Err(VaultError::WrongState) };
            }
            if (persisted == VaultState::Unsealed && *self == VaultState::DecryptMainVault) || (
            persisted == VaultState::Sealed && *self == VaultState::RecreatingDirectories) {
                ctx.fallthrough = true;
                return StepPlan { effects: empty_effects(), outcome: Ok(()) };
            }
        }
        let ghost before = *ctx;
        assert(before.unchanged(*old(ctx)));
        let step = self.forward_step(root, &*ctx, input);
        ctx.starting = false;
        ctx.handle.set_state(*self);
        let ghost mid = *ctx;
        let mut plan = empty_effects();
        push_effect(&mut plan, Effect::CommitState { text: ctx.handle.writeback() });
        proof {
            crate::statefile::lemma_keys_distinct();
            crate::states::lemma_state_names_distinct(*self, *self);
            crate::statefile::lemma_lookup_upsert(
                before.entries(),
                key_state(),
                self.name(),
                key_state(),
            );
        }
        match step {
            Err(e) => {
                assert(plan_of(plan@) =~= seq![
                    commit(render(upsert(before.entries(), key_state(), self.name()))),
                ]);
                StepPlan { effects: plan, outcome: Err(e) }
            },
            Ok((fx, update)) => {
                let ghost steps = plan_of(fx@);
                apply_update(ctx, update);
                append_effects(&mut plan, fx);
                push_effect(&mut plan, Effect::CommitState { text: ctx.handle.writeback() });
                proof {
                    lemma_forward_result(*self, *root, before, mid, input, steps, update, *ctx);
                    let p = plan_of(plan@);
                    assert(p.subrange(1, p.len() - 1) =~= steps);
                }
                StepPlan { effects: plan, outcome: Ok(()) }
            },
        }
    }
}

/// What repairing `source` does to the disk before anything is played
/// again or committed.
pub open spec fn repair_effects(source: VaultState, root: RootPath<Normal>, object_store: bool) -> Seq<
    EffectView,
> {
    match source {
        VaultState::Seed | VaultState::InitFileSystem => seq![
            apply(FsOp::RemoveDirAllIfPresent, root.metadata_path()),
        ],
        VaultState::MakeExternalGitRepo => seq![apply(FsOp::GitInit, root@)],
        VaultState::RecreatingDirectories => recreate_plan(root),
        VaultState::Encrypting => revert_encryption_plan(root),
        VaultState::DeleteSealedGitFiles => post_seal_files_plan(root),
        VaultState::StashExternalGitRepo => restore_git_plan(root, object_store),
        _ => Seq::empty(),
    }
}

/// The state that repairing `source` leaves on record, where the repair
/// itself sets one: a step that changed nothing lasting falls back to the
/// rest state it started from. `init` is the init flag on record.
pub open spec fn repaired_state(source: VaultState, init: bool) -> Option<VaultState> {
    match source {
        VaultState::Seed | VaultState::InitFileSystem => Some(VaultState::Uninit),
        VaultState::MakeExternalGitRepo | VaultState::MarkInitDone => Some(VaultState::Sealed),
        VaultState::RecreatingDirectories => Some(VaultState::Unsealed),
        VaultState::Encrypting => Some(
            if init {
                VaultState::RecreatingDirectories
            } else {
                VaultState::Unsealed
            },
        ),
        VaultState::DeleteSealedGitFiles | VaultState::DecryptMainVault
        | VaultState::DecryptLocallySecuredVault | VaultState::StashExternalGitRepo
        | VaultState::ExpandMainVault | VaultState::ExpandLocalVault => Some(VaultState::Sealed),
        _ => None,
    }
}

/// Whether repairing `source` reads the init flag.
pub open spec fn repair_asks_init(source: VaultState) -> bool {
    source == VaultState::MakeExternalGitRepo || source == VaultState::Encrypting
}

/// What the state file records once `source` is repaired: the init flag is
/// cleared where initialisation is thereby over, and the state is set.
pub open spec fn repaired_entries(source: VaultState, e: Entries) -> Entries {
    let init = init_in(e) == Some(true);
    let cleared = if source == VaultState::MarkInitDone || (source
        == VaultState::MakeExternalGitRepo && init) {
        upsert(e, key_init(), flag_text(false))
    } else {
        e
    };
    match repaired_state(source, init) {
        Some(s) => upsert(cleared, key_state(), s.name()),
        None => e,
    }
}

/// The failure that repairing `source` is bound to meet on the state file
/// `e`: a step that reads the init flag or the backend finds none it can
/// read.
pub open spec fn repair_fails(source: VaultState, e: Entries) -> bool {
    ||| repair_asks_init(source) && init_in(e) is None
    ||| source == VaultState::StashExternalGitRepo && object_store(e) is None
}

/// The effects of repairing `source`: what it does to the disk, and then,
/// where the repair itself sets the state, the commit of the state file.
pub open spec fn repair_plan(source: VaultState, root: RootPath<Normal>, e: Entries) -> Seq<
    EffectView,
> {
    let fx = repair_effects(source, root, object_store(e) == Some(true));
    if repaired_state(source, true) is Some {
        fx.push(commit(render(repaired_entries(source, e))))
    } else {
        fx
    }
}


/// The interrupted states that are repaired by taking the step up again and
/// playing the rest of its sequence.
pub open spec fn resumes(source: VaultState) -> bool {
    source == VaultState::UnlinkPostSeal || source == VaultState::RelocateEncryptedBinaries
        || source == VaultState::WriteMandatoryPostSealFiles || source
        == VaultState::RestoreVaultGit || source == VaultState::CleanupOldBinaries || source
        == VaultState::RestoreUnsecureFiles
}

/// The state on record once `source` is repaired and what the repair plays
/// again has been played: a seal that is taken up again ends sealed, an
/// unseal unsealed.
pub open spec fn state_after_repair(source: VaultState, init: bool) -> VaultState {
    match repaired_state(source, init) {
        Some(s) => s,
        None => if source == VaultState::CleanupOldBinaries || source
            == VaultState::RestoreUnsecureFiles {
            VaultState::Unsealed
        } else if resumes(source) {
            VaultState::Sealed
        } else {
            source
        },
    }
}

/// Whether a run that starts with `first` has nothing to do on a vault in
/// the state `at`.
pub open spec fn already_there(at: VaultState, first: VaultState) -> bool {
    (at == VaultState::Unsealed && first == VaultState::DecryptMainVault) || (at
        == VaultState::Sealed && first == VaultState::RecreatingDirectories)
}

/// What the startup gate found.
#[derive(Clone, Debug, PartialEq, Eq)]
pub struct GateResult {
    /// The effects that repair an interrupted run; to be carried out first.
    pub repair: Vec<Effect>,
    /// The interrupted state whose sequence is then to be played from that
    /// state on, where the repair takes a step up again.
    pub interrupted: Option<VaultState>,
    /// Whether the run that was asked for is to be played after that.
    pub go_on: bool,
}

impl VaultState {
    /// Plans the repair of a run that was interrupted in this state, for
    /// the states that are not simply taken up again: what is undone or
    /// completed on disk, and the commit of the state that the vault falls
    /// back to. A state that is taken up again, and a rest state, need
    /// nothing here. A state file without the flag or backend that the
    /// repair reads is corrupt, and nothing is changed.
    pub fn repair(&self, root: &RootPath<Normal>, ctx: &mut Context) -> (r: Result<
        Vec<Effect>,
        VaultError,
    >)
        ensures
            r is Err <==> repair_fails(*self, old(ctx).entries()),
            r matches Err(e) ==> e == VaultError::StateCorruption && final(ctx).unchanged(
                *old(ctx),
            ),
            r matches Ok(plan) ==> {
                &&& plan_of(plan@) == repair_plan(*self, *root, old(ctx).entries())
                &&& final(ctx).entries() == repaired_entries(*self, old(ctx).entries())
                &&& final(ctx).same_memory(*old(ctx))
                &&& final(ctx).starting() == old(ctx).starting()
            },
    {
        let mut plan = empty_effects();
        let target: VaultState;
        match *self {
            VaultState::Seed | VaultState::InitFileSystem => {
                push_effect(
                    &mut plan,
                    Effect::Apply { op: FsOp::RemoveDirAllIfPresent, path: root.metadata_folder() },
                );
                target = VaultState::Uninit;
            },
            VaultState::MakeExternalGitRepo => {
                let init = match ctx.handle.get_init() {
                    Ok(b) => b,
                    Err(e) => {
                        return Err(e);
                    },
                };
                push_effect(
                    &mut plan,
                    Effect::Apply { op: FsOp::GitInit, path: root.path().clone() },
                );
                if init {
                    ctx.handle.set_init(false);
                }
                target = VaultState::Sealed;
            },
            VaultState::MarkInitDone => {
                ctx.handle.set_init(false);
                target = VaultState::Sealed;
            },
            VaultState::RecreatingDirectories => {
                plan = recreate_directories(root);
                target = VaultState::Unsealed;
            },
            VaultState::Encrypting => {
                let init = match ctx.handle.get_init() {
                    Ok(b) => b,
                    Err(e) => {
                        return Err(e);
                    },
                };
                plan = revert_encryption(root);
                target = if init {
                    VaultState::RecreatingDirectories
                } else {
                    VaultState::Unsealed
                };
            },
            VaultState::DeleteSealedGitFiles => {
                plan = create_mandatory_post_seal_files(root);
                target = VaultState::Sealed;
            },
            VaultState::StashExternalGitRepo => {
                let s3 = match uses_object_store(&ctx.handle) {
                    Ok(b) => b,
                    Err(e) => {
                        return Err(e);
                    },
                };
                plan = restore_vault_git(root, s3);
                target = VaultState::Sealed;
            },
            VaultState::DecryptMainVault | VaultState::DecryptLocallySecuredVault
            | VaultState::ExpandMainVault | VaultState::ExpandLocalVault => {
                target = VaultState::Sealed;
            },
            _ => {
                assert(plan_of(plan@) =~= repair_plan(*self, *root, old(ctx).entries()));
                return Ok(plan);
            },
        }
        ctx.handle.set_state(target);
        push_effect(&mut plan, Effect::CommitState { text: ctx.handle.writeback() });
        assert(plan_of(plan@) =~= repair_plan(*self, *root, old(ctx).entries()));
        Ok(plan)
    }
}

/// What the startup gate leaves, for a run that starts with `first` on the
/// context `before`.
pub open spec fn gate_result(
    root: RootPath<Normal>,
    first: VaultState,
    before: Context,
    after: Context,
    repair: Seq<EffectView>,
    interrupted: Option<VaultState>,
    go_on: bool,
) -> bool {
    if before.fallthrough() {
        after.unchanged(before) && repair.len() == 0 && interrupted is None && !go_on
    } else if !before.starting() {
        after.unchanged(before) && repair.len() == 0 && interrupted is None && go_on
    } else {
        let source = state_in(before.entries())->0;
        let at = state_after_repair(source, init_in(before.entries()) == Some(true));
        &&& state_in(before.entries()) is Some
        &&& !source.rest() ==> !repair_fails(source, before.entries())
        &&& repair == if source.rest() {
            Seq::empty()
        } else {
            repair_plan(source, root, before.entries())
        }
        &&& after.entries() == if source.rest() {
            before.entries()
        } else {
            repaired_entries(source, before.entries())
        }
        &&& interrupted == if resumes(source) {
            Some(source)
        } else {
            None
        }
        &&& go_on == !already_there(at, first)
        &&& !after.starting()
        &&& after.fallthrough() == (already_there(at, first) && !resumes(source))
        &&& after.root() == before.root()
        &&& after.secret() == before.secret()
        &&& after.master() == before.master()
        &&& after.wrapped() == before.wrapped()
        &&& after.main_image() == before.main_image()
        &&& after.local_image() == before.local_image()
        &&& after.skip_local_zip() == before.skip_local_zip()
    }
}

/// Whether the startup gate is bound to fail on the context `before`: the
/// state file names no state, or the repair cannot read what it needs.
pub open spec fn gate_fails(before: Context) -> bool {
    !before.fallthrough() && before.starting() && match state_in(before.entries()) {
        None => true,
        Some(source) => !source.rest() && repair_fails(source, before.entries()),
    }
}

impl Context {
    /// The startup gate, for a run whose first state is `first`. A run
    /// that fell through, or that is past its gate, passes. Otherwise the
    /// state on record decides: an interrupted run is repaired first, and a
    /// vault that already is where the run would take it has nothing more
    /// to do. A corrupt state file is a failure and changes nothing.
    pub fn startup_gate(&mut self, root: &RootPath<Normal>, first: VaultState) -> (r: Result<
        GateResult,
        VaultError,
    >)
        ensures
            r is Err <==> gate_fails(*old(self)),
            r matches Err(e) ==> e == VaultError::StateCorruption && final(self).unchanged(
                *old(self),
            ),
            r matches Ok(g) ==> gate_result(
                *root,
                first,
                *old(self),
                *final(self),
                plan_of(g.repair@),
                g.interrupted,
                g.go_on,
            ),
    {
        if self.fallthrough {
            return Ok(GateResult { repair: empty_effects(), interrupted: None, go_on: false });
        }
        if !self.starting {
            return Ok(GateResult { repair: empty_effects(), interrupted: None, go_on: true });
        }
        let source = match self.handle.get_state() {
            Ok(s) => s,
            Err(e) => {
                return Err(e);
            },
        };
        let mut repair = empty_effects();
        let mut interrupted: Option<VaultState> = None;
        let mut at = source;
        if !source.is_rest_state() {
            let init = match self.handle.get_init() {
                Ok(b) => b,
                Err(_) => false,
            };
            repair = match source.repair(root, self) {
                Ok(plan) => plan,
                Err(e) => {
                    return Err(e);
                },
            };
            match source {
                VaultState::UnlinkPostSeal | VaultState::RelocateEncryptedBinaries
                | VaultState::WriteMandatoryPostSealFiles | VaultState::RestoreVaultGit => {
                    interrupted = Some(source);
                    at = VaultState::Sealed;
                },
                VaultState::CleanupOldBinaries | VaultState::RestoreUnsecureFiles => {
                    interrupted = Some(source);
                    at = VaultState::Unsealed;
                },
                VaultState::Seed | VaultState::InitFileSystem => {
                    at = VaultState::Uninit;
                },
                VaultState::RecreatingDirectories => {
                    at = VaultState::Unsealed;
                },
                VaultState::Encrypting => {
                    at = if init {
                        VaultState::RecreatingDirectories
                    } else {
                        VaultState::Unsealed
                    };
                },
                _ => {
                    at = VaultState::Sealed;
                },
            }
        }
        let there = (at == VaultState::Unsealed && first == VaultState::DecryptMainVault) || (at
            == VaultState::Sealed && first == VaultState::RecreatingDirectories);
        self.starting = false;
        if there && interrupted.is_none() {
            self.fallthrough = true;
        }
        Ok(GateResult { repair, interrupted, go_on: !there })
    }
}

/// Whether `effect` writes to `path` an envelope that opens under `key`.
pub open spec fn opens_at(effect: EffectView, path: Seq<char>, key: Seq<u8>) -> bool {
    effect matches EffectView::Write { path: p, contents, if_absent } && p == path && opened(
        contents,
        key,
    ) is Some
}

/// The wrapped key that a seal records opens under the password of the
/// run, and the master key it gives up opens the public envelope that the
/// same seal writes.
pub proof fn lemma_recorded_key_opens_the_archive(
    w: WrappedKeyView,
    master: Seq<u8>,
    filter: NovFilter,
    sorted: Seq<Sorted>,
    root: RootPath<Normal>,
    entries: Entries,
    secret: Seq<u8>,
    tree: WorkingTree,
    fx: Seq<EffectView>,
)
    requires
        seals(w, master, filter, sorted, root, entries, secret, tree, fx),
    ensures
        unwrapped(w, secret) is Some,
        exists|k: int|
            0 <= k < fx.len() && opens_at(
                #[trigger] fx[k],
                root.inprogress_path(),
                unwrapped(w, secret)->0,
            ),
{
    let n = crate::sealing::unsecure_part(root, sorted).len() as int;
    assert(crate::sealing::stores_envelope(
        fx[n + 1],
        root.inprogress_path(),
        master,
        crate::archive::zip_image(
            crate::sealing::archive_part(sorted, crate::filter::FilterDecision::Encrypt),
        )->0,
    ));
}

} // verus!
