//! What each state's forward action does to the disk, for the states whose
//! action depends on nothing but the layout and the backend.

use vstd::prelude::*;
use vstd::string::StringSliceAdditionalSpecFns;
use crate::effects::{apply, plan_of, push_effect, rename, store, Effect, EffectView, FsOp};
use crate::paths::{child, join_path, Normal, RootPath};
use crate::states::VaultState;
use crate::text::{file_lines, lines_of, texts};

verus! {

/// The ignore file of a sealed vault.
pub open spec fn sealed_gitignore() -> Seq<u8> {
    "# NOVAULT\n# DO NOT MODIFY THIS\n/.nov/unsecure\n/.nov/secure_local\n/.nov/.s3auth\n".spec_bytes()
}

/// The attributes file of a sealed vault.
pub open spec fn sealed_gitattributes() -> Seq<u8> {
    "# NOVAULT\n# DO NOT MODIFY THIS\nvault.bin binary".spec_bytes()
}

/// The ignore file a new vault starts with.
pub open spec fn starter_gitignore() -> Seq<u8> {
    "# Feel free to customize.\n\n# Leave the next line be.\n/.nov\n".spec_bytes()
}

/// The rules file a new vault starts with.
pub open spec fn starter_config() -> Seq<u8> {
    "[settings]\ndefault_policy = \"IgnoreAndEncrypt\"\n\n[rules]\nunsecured = []\ndelete = []\n".spec_bytes()
}

/// Emptying the staging directories and removing what an earlier seal left behind.
pub open spec fn recreate_plan(root: RootPath<Normal>) -> Seq<EffectView> {
    seq![
        apply(FsOp::RecreateDir, root.unsecure_path()),
        apply(FsOp::RecreateDir, root.secure_local_path()),
        apply(FsOp::RemoveFileIfPresent, root.deletion_path()),
        apply(FsOp::RemoveFileIfPresent, root.inprogress_path()),
    ]
}

/// Writing the two files every sealed vault carries.
pub open spec fn post_seal_files_plan(root: RootPath<Normal>) -> Seq<EffectView> {
    seq![
        store(root.gitignore_path(), sealed_gitignore()),
        store(root.gitattributes_path(), sealed_gitattributes()),
    ]
}

/// Moving the user's repository back out of the wrap directory. The object
/// store backend keeps no repository, so there is nothing to move.
pub open spec fn restore_git_plan(root: RootPath<Normal>, object_store: bool) -> Seq<EffectView> {
    if object_store {
        Seq::empty()
    } else {
        seq![
            rename(root.external_git_path(), root.local_git_path()),
            apply(FsOp::RemoveDir, root.wrap_path()),
        ]
    }
}

/// Removing what an interrupted encryption left behind.
pub open spec fn revert_encryption_plan(root: RootPath<Normal>) -> Seq<EffectView> {
    seq![
        apply(FsOp::RemoveFileIfPresent, root.deletion_path()),
        apply(FsOp::RemoveFileIfPresent, root.secure_local_zip_path()),
        apply(FsOp::RemoveFileIfPresent, root.inprogress_path()),
    ]
}

/// What the forward action of `state` does to the disk, for a state whose
/// action needs nothing read from disk. `object_store` says whether the
/// backend is the object store, which keeps no git repository.
pub open spec fn forward_plan(state: VaultState, root: RootPath<Normal>, object_store: bool) -> Seq<
    EffectView,
> {
    match state {
        VaultState::InitFileSystem => seq![
            apply(FsOp::GitInitIfAbsent, root@),
            apply(FsOp::CreateDirAll, root.metadata_path()),
            apply(FsOp::HideDir, root.metadata_path()),
            EffectView::Write {
                path: root.gitignore_path(),
                contents: starter_gitignore(),
                if_absent: true,
            },
            EffectView::Write {
                path: root.config_path(),
                contents: starter_config(),
                if_absent: true,
            },
        ],
        VaultState::MakeExternalGitRepo => seq![apply(FsOp::GitInit, root@)],
        VaultState::RecreatingDirectories => recreate_plan(root),
        VaultState::RelocateEncryptedBinaries => seq![
            rename(root.inprogress_path(), root.vault_path()),
        ],
        VaultState::WriteMandatoryPostSealFiles => post_seal_files_plan(root),
        VaultState::RestoreVaultGit => restore_git_plan(root, object_store),
        VaultState::StashExternalGitRepo => if object_store {
            Seq::empty()
        } else {
            seq![
                apply(FsOp::CreateDirAll, root.wrap_path()),
                rename(root.local_git_path(), root.external_git_path()),
            ]
        },
        VaultState::DeleteSealedGitFiles => if object_store {
            Seq::empty()
        } else {
            seq![
                apply(FsOp::RemoveFile, root.gitignore_path()),
                apply(FsOp::RemoveFile, root.gitattributes_path()),
            ]
        },
        VaultState::CleanupOldBinaries => seq![
            apply(FsOp::RemoveFile, root.vault_path()),
            apply(FsOp::RemoveDirAllIfPresent, root.secure_local_path()),
        ],
        _ => Seq::empty(),
    }
}

fn op(plan: &mut Vec<Effect>, op: FsOp, path: String)
    ensures
        plan_of(final(plan)@) == plan_of(old(plan)@).push(apply(op, path@)),
{
    push_effect(plan, Effect::Apply { op, path });
}

fn mv(plan: &mut Vec<Effect>, from: String, to: String, if_present: bool)
    ensures
        plan_of(final(plan)@) == plan_of(old(plan)@).push(
            EffectView::Rename { from: from@, to: to@, if_present },
        ),
{
    push_effect(plan, Effect::Rename { from, to, if_present });
}

fn put_file(plan: &mut Vec<Effect>, path: String, contents: Vec<u8>, if_absent: bool)
    ensures
        plan_of(final(plan)@) == plan_of(old(plan)@).push(
            EffectView::Write { path: path@, contents: contents@, if_absent },
        ),
{
    push_effect(plan, Effect::Write { path, contents, if_absent });
}

fn empty_plan() -> (plan: Vec<Effect>)
    ensures
        plan_of(plan@) == Seq::<EffectView>::empty(),
{
    let plan: Vec<Effect> = Vec::new();
    assert(plan_of(plan@) =~= Seq::<EffectView>::empty());
    plan
}

pub fn recreate_directories(root: &RootPath<Normal>) -> (plan: Vec<Effect>)
    ensures
        plan_of(plan@) == recreate_plan(*root),
{
    let mut plan = empty_plan();
    op(&mut plan, FsOp::RecreateDir, root.unsecure_folder());
    op(&mut plan, FsOp::RecreateDir, root.secure_local_folder());
    op(&mut plan, FsOp::RemoveFileIfPresent, root.deletion_shards());
    op(&mut plan, FsOp::RemoveFileIfPresent, root.inprogress_vault());
    assert(plan_of(plan@) =~= recreate_plan(*root));
    plan
}

pub fn create_mandatory_post_seal_files(root: &RootPath<Normal>) -> (plan: Vec<Effect>)
    ensures
        plan_of(plan@) == post_seal_files_plan(*root),
{
    let mut plan = empty_plan();
    put_file(
        &mut plan,
        root.gitignore(),
        "# NOVAULT\n# DO NOT MODIFY THIS\n/.nov/unsecure\n/.nov/secure_local\n/.nov/.s3auth\n".as_bytes_vec(),
        false,
    );
    put_file(
        &mut plan,
        root.gitattributes(),
        "# NOVAULT\n# DO NOT MODIFY THIS\nvault.bin binary".as_bytes_vec(),
        false,
    );
    assert(plan_of(plan@) =~= post_seal_files_plan(*root));
    plan
}

pub fn restore_vault_git(root: &RootPath<Normal>, object_store: bool) -> (plan: Vec<Effect>)
    ensures
        plan_of(plan@) == restore_git_plan(*root, object_store),
{
    let mut plan = empty_plan();
    if !object_store {
        mv(&mut plan, root.external_git(), root.local_git(), false);
        op(&mut plan, FsOp::RemoveDir, root.wrap_folder());
    }
    assert(plan_of(plan@) =~= restore_git_plan(*root, object_store));
    plan
}

pub fn revert_encryption(root: &RootPath<Normal>) -> (plan: Vec<Effect>)
    ensures
        plan_of(plan@) == revert_encryption_plan(*root),
{
    let mut plan = empty_plan();
    op(&mut plan, FsOp::RemoveFileIfPresent, root.deletion_shards());
    op(&mut plan, FsOp::RemoveFileIfPresent, root.secure_local_zip());
    op(&mut plan, FsOp::RemoveFileIfPresent, root.inprogress_vault());
    assert(plan_of(plan@) =~= revert_encryption_plan(*root));
    plan
}

/// The disk side of the forward action of `state`, for a state whose
/// action needs nothing read from disk; empty for every other state.
pub fn forward(state: VaultState, root: &RootPath<Normal>, object_store: bool) -> (plan: Vec<
    Effect,
>)
    ensures
        plan_of(plan@) == forward_plan(state, *root, object_store),
{
    let mut plan = empty_plan();
    match state {
        VaultState::InitFileSystem => {
            op(&mut plan, FsOp::GitInitIfAbsent, root.path().clone());
            op(&mut plan, FsOp::CreateDirAll, root.metadata_folder());
            op(&mut plan, FsOp::HideDir, root.metadata_folder());
            put_file(
                &mut plan,
                root.gitignore(),
                "# Feel free to customize.\n\n# Leave the next line be.\n/.nov\n".as_bytes_vec(),
                true,
            );
            put_file(
                &mut plan,
                root.config(),
                "[settings]\ndefault_policy = \"IgnoreAndEncrypt\"\n\n[rules]\nunsecured = []\ndelete = []\n".as_bytes_vec(),
                true,
            );
        },
        VaultState::MakeExternalGitRepo => {
            op(&mut plan, FsOp::GitInit, root.path().clone());
        },
        VaultState::RecreatingDirectories => {
            plan = recreate_directories(root);
        },
        VaultState::RelocateEncryptedBinaries => {
            mv(&mut plan, root.inprogress_vault(), root.vault_binary(), false);
        },
        VaultState::WriteMandatoryPostSealFiles => {
            plan = create_mandatory_post_seal_files(root);
        },
        VaultState::RestoreVaultGit => {
            plan = restore_vault_git(root, object_store);
        },
        VaultState::StashExternalGitRepo => {
            if !object_store {
                op(&mut plan, FsOp::CreateDirAll, root.wrap_folder());
                mv(&mut plan, root.local_git(), root.external_git(), false);
            }
        },
        VaultState::DeleteSealedGitFiles => {
            if !object_store {
                op(&mut plan, FsOp::RemoveFile, root.gitignore());
                op(&mut plan, FsOp::RemoveFile, root.gitattributes());
            }
        },
        VaultState::CleanupOldBinaries => {
            op(&mut plan, FsOp::RemoveFile, root.vault_binary());
            op(&mut plan, FsOp::RemoveDirAllIfPresent, root.secure_local_folder());
        },
        _ => {},
    }
    assert(plan_of(plan@) =~= forward_plan(state, *root, object_store));
    plan
}

/// The lines of `lines` that are not empty, last line first.
pub open spec fn unlink_order(lines: Seq<Seq<char>>) -> Seq<Seq<char>>
    decreases lines.len(),
{
    if lines.len() == 0 {
        Seq::empty()
    } else if lines[0].len() == 0 {
        unlink_order(lines.skip(1))
    } else {
        unlink_order(lines.skip(1)).push(lines[0])
    }
}

/// Removing every path that the deletion list names, and then the list
/// itself. The list names a directory before what is in it, so the paths
/// are taken last first: files go before their parents.
pub open spec fn unlink_plan(root: RootPath<Normal>, list: Seq<char>) -> Seq<EffectView> {
    let paths = unlink_order(file_lines(list));
    Seq::new(paths.len(), |i: int| apply(FsOp::Unlink, paths[i])).push(
        apply(FsOp::RemoveFile, root.deletion_path()),
    )
}

pub fn unlink_other_archives(root: &RootPath<Normal>, list: &str) -> (plan: Vec<Effect>)
    ensures
        plan_of(plan@) == unlink_plan(*root, list@),
{
    let lines = lines_of(list);
    let ghost all = texts(lines@);
    let mut plan = empty_plan();
    let mut i: usize = lines.len();
    assert(all.skip(i as int) =~= Seq::<Seq<char>>::empty());
    while i > 0
        invariant
            i <= lines.len(),
            all == texts(lines@),
            plan_of(plan@) == Seq::new(
                unlink_order(all.skip(i as int)).len(),
                |k: int| apply(FsOp::Unlink, unlink_order(all.skip(i as int))[k]),
            ),
        decreases i,
    {
        i -= 1;
        let ghost rest = all.skip(i as int);
        assert(rest[0] == lines@[i as int]@);
        assert(rest.skip(1) =~= all.skip(i + 1));
        if !lines[i].as_str().is_empty() {
            op(&mut plan, FsOp::Unlink, lines[i].clone());
        }
        assert(plan_of(plan@) =~= Seq::new(
            unlink_order(rest).len(),
            |k: int| apply(FsOp::Unlink, unlink_order(rest)[k]),
        ));
    }
    assert(all.skip(0) =~= all);
    op(&mut plan, FsOp::RemoveFile, root.deletion_shards());
    plan
}

/// Moving every entry of the clear-text staging directory back to its place
/// under the root, and removing the directory. A directory is named before
/// what is in it and takes its contents along, so an entry that is no
/// longer there is passed over.
pub open spec fn restore_plan(root: RootPath<Normal>, names: Seq<Seq<char>>) -> Seq<EffectView> {
    Seq::new(
        names.len(),
        |i: int|
            EffectView::Rename {
                from: child(root.unsecure_path(), names[i]),
                to: child(root@, names[i]),
                if_present: true,
            },
    ).push(apply(FsOp::RemoveDirAll, root.unsecure_path()))
}

pub fn relocate_unsecure_files(root: &RootPath<Normal>, names: &Vec<String>) -> (plan: Vec<
    Effect,
>)
    ensures
        plan_of(plan@) == restore_plan(*root, texts(names@)),
{
    let mut plan = empty_plan();
    let unsecure = root.unsecure_folder();
    let mut i: usize = 0;
    while i < names.len()
        invariant
            i <= names.len(),
            unsecure@ == root.unsecure_path(),
            plan_of(plan@).len() == i,
            forall|k: int|
                0 <= k < i ==> (#[trigger] plan_of(plan@)[k]) == (EffectView::Rename {
                    from: child(root.unsecure_path(), names@[k]@),
                    to: child(root@, names@[k]@),
                    if_present: true,
                }),
        decreases names.len() - i,
    {
        let from = join_path(unsecure.as_str(), names[i].as_str());
        let to = join_path(root.path().as_str(), names[i].as_str());
        mv(&mut plan, from, to, true);
        i += 1;
    }
    op(&mut plan, FsOp::RemoveDirAll, unsecure);
    assert(plan_of(plan@) =~= restore_plan(*root, texts(names@)));
    plan
}

} // verus!
