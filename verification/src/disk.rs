//! A model of the working directory, to state what a seal leaves behind:
//! the set of paths that exist, and what each effect makes of it when it
//! succeeds.

use vstd::prelude::*;
use crate::effects::{apply, rename, store, EffectView, FsOp};
use crate::paths::{child, Normal, RootPath};
use crate::sealing::{
    deletion_list, is_sealing_plan, lemma_every_walked_path_is_unlinked, listable, paths_of,
    unsecure_copy, unsecure_part, Sorted,
};
use crate::states::VaultState;
use crate::steps::{forward_plan, sealed_gitattributes, sealed_gitignore, unlink_plan};

verus! {

/// The paths that exist.
pub type Disk = Set<Seq<char>>;

/// Whether `path` is `dir` itself or lies below it.
pub open spec fn under(dir: Seq<char>, path: Seq<char>) -> bool {
    path == dir || (dir + seq!['/']).is_prefix_of(path)
}

/// `path`, which is `from` or lies below it, carried over to `to`.
pub open spec fn carried(from: Seq<char>, to: Seq<char>, path: Seq<char>) -> Seq<char> {
    to + path.skip(from.len() as int)
}

/// What is left of the disk when `path` and all below it are removed.
pub open spec fn without(disk: Disk, path: Seq<char>) -> Disk {
    Set::new(|q: Seq<char>| disk.contains(q) && !under(path, q))
}

/// The disk with `path` and every directory above it in place.
pub open spec fn with_path(disk: Disk, path: Seq<char>) -> Disk {
    Set::new(|q: Seq<char>| disk.contains(q) || under(q, path))
}

/// What an effect makes of the disk when it succeeds. A commit writes the
/// state file at `state`. Of `git init` only the repository directory
/// itself is modelled, not what git puts into it.
pub open spec fn disk_after(disk: Disk, state: Seq<char>, effect: EffectView) -> Disk {
    match effect {
        EffectView::CommitState { text } => with_path(disk, state),
        EffectView::Apply { op, path } => match op {
            FsOp::CreateDirAll => with_path(disk, path),
            FsOp::RecreateDir => with_path(without(disk, path), path),
            FsOp::RemoveFile | FsOp::RemoveFileIfPresent | FsOp::RemoveDir => disk.remove(path),
            FsOp::RemoveDirAll | FsOp::RemoveDirAllIfPresent | FsOp::Unlink => without(disk, path),
            FsOp::GitInit | FsOp::GitInitIfAbsent => with_path(disk, child(path, ".git"@)),
            FsOp::HideDir => disk,
        },
        EffectView::Rename { from, to, if_present } => if if_present && !disk.contains(from) {
            disk
        } else {
            Set::new(
                |q: Seq<char>|
                    (disk.contains(q) && !under(from, q)) || (under(to, q) && disk.contains(
                        carried(to, from, q),
                    )),
            )
        },
        EffectView::Write { path, contents, if_absent } => with_path(disk, path),
    }
}

/// What a plan makes of the disk when every effect succeeds.
pub open spec fn disk_after_all(disk: Disk, state: Seq<char>, plan: Seq<EffectView>) -> Disk
    decreases plan.len(),
{
    if plan.len() == 0 {
        disk
    } else {
        disk_after(disk_after_all(disk, state, plan.drop_last()), state, plan.last())
    }
}

/// Whether a root is written without a `/` at its end, and is not empty.
pub open spec fn tidy(root: Seq<char>) -> bool {
    root.len() > 0 && root.last() != '/'
}

/// Whether `path` belongs to the user: it lies below the root and neither
/// is nor lies below the metadata directory.
pub open spec fn user_path(root: RootPath<Normal>, path: Seq<char>) -> bool {
    under(root@, path) && path != root@ && !under(root.metadata_path(), path)
}

/// A path below the root is the root, a `/`, and a name.
pub proof fn lemma_child_of_tidy(base: Seq<char>, name: Seq<char>)
    requires
        tidy(base),
    ensures
        child(base, name) == base + seq!['/'] + name,
        under(base, child(base, name)),
        child(base, name).len() == base.len() + 1 + name.len(),
        name.len() > 0 && name.last() != '/' ==> tidy(child(base, name)),
{
    let c = base + seq!['/'] + name;
    assert(c.subrange(0, base.len() as int + 1) =~= base + seq!['/']);
}

/// Two directories that have the same path under them lie one under the other.
pub proof fn lemma_under_comparable(a: Seq<char>, b: Seq<char>, x: Seq<char>)
    requires
        under(a, x),
        under(b, x),
    ensures
        under(a, b) || under(b, a),
{
    let pa = a + seq!['/'];
    let pb = b + seq!['/'];
    if x == a {
        if x != b {
            assert(pb =~= x.subrange(0, pb.len() as int));
            assert(pb =~= a.subrange(0, pb.len() as int));
        }
    } else if x == b {
        assert(pa =~= x.subrange(0, pa.len() as int));
        assert(pa =~= b.subrange(0, pa.len() as int));
    } else {
        assert(pa =~= x.subrange(0, pa.len() as int));
        assert(pb =~= x.subrange(0, pb.len() as int));
        if a.len() == b.len() {
            assert(a =~= pa.subrange(0, a.len() as int));
            assert(b =~= pb.subrange(0, b.len() as int));
            assert(a =~= b);
        } else if a.len() < b.len() {
            assert(pa =~= b.subrange(0, pa.len() as int)) by {
                assert forall|k: int| 0 <= k < pa.len() implies pa[k] == b[k] by {
                    assert(pa[k] == x[k]);
                    assert(pb[k] == x[k]);
                    assert(pb[k] == b[k]);
                }
            }
        } else {
            assert(pb =~= a.subrange(0, pb.len() as int)) by {
                assert forall|k: int| 0 <= k < pb.len() implies pb[k] == a[k] by {
                    assert(pb[k] == x[k]);
                    assert(pa[k] == x[k]);
                    assert(pa[k] == a[k]);
                }
            }
        }
    }
}

/// Lying under is transitive.
pub proof fn lemma_under_trans(a: Seq<char>, b: Seq<char>, c: Seq<char>)
    requires
        under(a, b),
        under(b, c),
    ensures
        under(a, c),
{
    let pa = a + seq!['/'];
    let pb = b + seq!['/'];
    if b != a && c != b {
        assert(pa =~= b.subrange(0, pa.len() as int));
        assert(pb =~= c.subrange(0, pb.len() as int));
        assert(pa =~= c.subrange(0, pa.len() as int)) by {
            assert forall|k: int| 0 <= k < pa.len() implies pa[k] == c[k] by {
                assert(pa[k] == b[k]);
                assert(pb[k] == b[k]);
                assert(pb[k] == c[k]);
            }
        }
    }
}

/// A directory directly below the root has nothing of the user's above it
/// but what lies under it: a user path with a path of the directory `dir`
/// under it would itself lie under `dir`.
pub proof fn lemma_top_level_is_apart(root: Seq<char>, name: Seq<char>, p: Seq<char>, x: Seq<char>)
    requires
        tidy(root),
        name.len() > 0,
        !name.contains('/'),
        under(root, p),
        p != root,
        under(p, x),
        under(child(root, name), x),
    ensures
        under(child(root, name), p),
{
    let dir = child(root, name);
    lemma_child_of_tidy(root, name);
    lemma_under_comparable(p, dir, x);
    if !under(dir, p) {
        // Then `dir` lies under `p`, and `p` under the root, strictly
        // between the root and one of its children: impossible.
        assert(under(p, dir));
        assert(p != dir);
        let pp = p + seq!['/'];
        let pr = root + seq!['/'];
        assert(pp =~= dir.subrange(0, pp.len() as int));
        assert(pr =~= p.subrange(0, pr.len() as int));
        assert(p.len() >= root.len() + 1);
        let k = p.len() as int;
        assert(dir[k] == pp[k]);
        assert(pp[k] == '/');
        assert(dir[k] == name[k - root.len() - 1]);
        assert(name.contains('/'));
    }
}

/// What is carried over from under one path lies under the other.
pub proof fn lemma_carried_under(from: Seq<char>, to: Seq<char>, q: Seq<char>)
    requires
        under(to, q),
    ensures
        under(from, carried(to, from, q)),
        q == to ==> carried(to, from, q) == from,
        q != to ==> carried(to, from, q) != from,
{
    let c = carried(to, from, q);
    if q == to {
        assert(c =~= from);
    } else {
        let pt = to + seq!['/'];
        assert(pt =~= q.subrange(0, pt.len() as int));
        assert(q[to.len() as int] == pt[to.len() as int]);
        let tail = q.skip(to.len() as int);
        assert(tail[0] == '/');
        assert(c.len() == from.len() + tail.len());
        let pf = from + seq!['/'];
        assert forall|k: int| 0 <= k < pf.len() implies pf[k] == c[k] by {
            if k == from.len() {
                assert(c[k] == tail[0]);
            }
        }
        assert(pf =~= c.subrange(0, pf.len() as int));
    }
}

/// A name of one component: not empty, and without a `/`.
pub open spec fn plain_name(name: Seq<char>) -> bool {
    name.len() > 0 && !name.contains('/')
}

/// Two different entries of one directory have nothing in common below them.
pub proof fn lemma_siblings_apart(base: Seq<char>, a: Seq<char>, b: Seq<char>, x: Seq<char>)
    requires
        tidy(base),
        plain_name(a),
        plain_name(b),
        a != b,
        under(child(base, a), x),
    ensures
        !under(child(base, b), x),
{
    let da = child(base, a);
    let db = child(base, b);
    lemma_child_of_tidy(base, a);
    lemma_child_of_tidy(base, b);
    if under(db, x) {
        lemma_under_comparable(da, db, x);
        if da == db {
            assert(a =~= da.skip(base.len() as int + 1));
            assert(b =~= db.skip(base.len() as int + 1));
        } else if under(da, db) {
            let pa = da + seq!['/'];
            assert(pa =~= db.subrange(0, pa.len() as int));
            assert(db[da.len() as int] == pa[da.len() as int]);
            assert(db[da.len() as int] == b[da.len() - base.len() - 1]);
            assert(b.contains('/'));
        } else {
            let pb = db + seq!['/'];
            assert(pb =~= da.subrange(0, pb.len() as int));
            assert(da[db.len() as int] == pb[db.len() as int]);
            assert(da[db.len() as int] == a[db.len() - base.len() - 1]);
            assert(a.contains('/'));
        }
    }
}

/// Nothing lies strictly between a directory and one of its entries.
pub proof fn lemma_nothing_between(base: Seq<char>, name: Seq<char>, q: Seq<char>)
    requires
        tidy(base),
        plain_name(name),
        under(base, q),
        q != base,
        under(q, child(base, name)),
    ensures
        q == child(base, name),
{
    let dir = child(base, name);
    lemma_child_of_tidy(base, name);
    if q != dir {
        let pq = q + seq!['/'];
        let pb = base + seq!['/'];
        assert(pq =~= dir.subrange(0, pq.len() as int));
        assert(pb =~= q.subrange(0, pb.len() as int));
        let k = q.len() as int;
        assert(dir[k] == pq[k]);
        assert(dir[k] == name[k - base.len() - 1]);
        assert(name.contains('/'));
    }
}

/// What a plan that follows another makes of the disk.
pub proof fn lemma_after_all_concat(
    disk: Disk,
    state: Seq<char>,
    first: Seq<EffectView>,
    then: Seq<EffectView>,
)
    ensures
        disk_after_all(disk, state, first + then) == disk_after_all(
            disk_after_all(disk, state, first),
            state,
            then,
        ),
    decreases then.len(),
{
    if then.len() == 0 {
        assert(first + then =~= first);
    } else {
        lemma_after_all_concat(disk, state, first, then.drop_last());
        assert((first + then).drop_last() =~= first + then.drop_last());
        assert((first + then).last() == then.last());
    }
}

/// The effects that unlink `paths`, the last path first.
pub open spec fn unlinks(paths: Seq<Seq<char>>) -> Seq<EffectView> {
    Seq::new(paths.len(), |k: int| apply(FsOp::Unlink, paths[paths.len() - 1 - k]))
}

/// Unlinking a list of paths leaves what was there and lies under none of them.
pub proof fn lemma_unlinks(disk: Disk, state: Seq<char>, paths: Seq<Seq<char>>, q: Seq<char>)
    ensures
        disk_after_all(disk, state, unlinks(paths)).contains(q) <==> disk.contains(q) && forall|
            j: int,
        |
            0 <= j < paths.len() ==> !under(#[trigger] paths[j], q),
    decreases paths.len(),
{
    if paths.len() > 0 {
        // The plan unlinks the last path first and the first path last.
        let rest = paths.skip(1);
        let plan = unlinks(paths);
        assert(plan.drop_last() =~= unlinks(rest)) by {
            assert forall|k: int| 0 <= k < rest.len() implies plan.drop_last()[k] == unlinks(
                rest,
            )[k] by {
                assert(rest[rest.len() - 1 - k] == paths[paths.len() - 1 - k]);
            }
        }
        assert(plan.last() == apply(FsOp::Unlink, paths[0]));
        lemma_unlinks(disk, state, rest, q);
        let before = disk_after_all(disk, state, unlinks(rest));
        if disk.contains(q) && forall|j: int|
            0 <= j < paths.len() ==> !under(#[trigger] paths[j], q) {
            assert forall|j: int| 0 <= j < rest.len() implies !under(#[trigger] rest[j], q) by {
                assert(rest[j] == paths[j + 1]);
            }
        }
        if before.contains(q) && !under(paths[0], q) {
            assert forall|j: int| 0 <= j < paths.len() implies !under(#[trigger] paths[j], q) by {
                if j > 0 {
                    assert(paths[j] == rest[j - 1]);
                }
            }
        }
    }
}

/// What the steps of a seal do to the disk once the archives are written:
/// the walked paths are unlinked, the archive takes its place, the two
/// files of the sealed form are written, and the user's repository, where
/// there is one, comes back out of the wrap directory.
pub open spec fn seal_tail(root: RootPath<Normal>, list: Seq<char>, object_store: bool) -> Seq<
    EffectView,
> {
    unlink_plan(root, list) + forward_plan(
        VaultState::RelocateEncryptedBinaries,
        root,
        object_store,
    ) + forward_plan(VaultState::WriteMandatoryPostSealFiles, root, object_store) + forward_plan(
        VaultState::RestoreVaultGit,
        root,
        object_store,
    )
}

/// Whether `sorted` is a complete walk of the user's part of the disk:
/// every walked path is the user's, and every path of the user's that
/// exists was walked.
pub open spec fn walked(root: RootPath<Normal>, disk: Disk, sorted: Seq<Sorted>) -> bool {
    &&& forall|i: int| 0 <= i < sorted.len() ==> user_path(root, (#[trigger] sorted[i]).path)
    &&& forall|q: Seq<char>|
        disk.contains(q) && user_path(root, q) ==> exists|i: int|
            0 <= i < sorted.len() && (#[trigger] sorted[i]).path == q
}

/// Whether `path` is part of the sealed form of a vault: the archive, the
/// two files that go with it, or, with a git backend, the repository as it
/// was kept in the wrap directory.
pub open spec fn in_sealed_form(
    root: RootPath<Normal>,
    disk: Disk,
    object_store: bool,
    path: Seq<char>,
) -> bool {
    ||| path == root.vault_path()
    ||| path == root.gitignore_path()
    ||| path == root.gitattributes_path()
    ||| !object_store && under(root.local_git_path(), path) && disk.contains(
        carried(root.local_git_path(), root.external_git_path(), path),
    )
}

/// The names of the layout are single components, and no two entries of
/// one directory share a name.
proof fn lemma_layout_names()
    ensures
        plain_name(".nov"@),
        plain_name(".git"@),
        plain_name("vault.bin"@),
        plain_name(".gitignore"@),
        plain_name(".gitattributes"@),
        plain_name("inpro.zip"@),
        plain_name(".delete"@),
        plain_name("wrap"@),
        plain_name("external.git"@),
        ".nov"@ != ".git"@,
        ".nov"@ != "vault.bin"@,
        ".nov"@ != ".gitignore"@,
        ".nov"@ != ".gitattributes"@,
        "wrap"@ != "inpro.zip"@,
        "wrap"@ != ".delete"@,
        "inpro.zip"@ != ".delete"@,
{
    reveal_strlit(".nov");
    reveal_strlit(".git");
    reveal_strlit("vault.bin");
    reveal_strlit(".gitignore");
    reveal_strlit(".gitattributes");
    reveal_strlit("inpro.zip");
    reveal_strlit(".delete");
    reveal_strlit("wrap");
    reveal_strlit("external.git");
    lemma_no_slash(".nov"@);
    lemma_no_slash(".git"@);
    lemma_no_slash("vault.bin"@);
    lemma_no_slash(".gitignore"@);
    lemma_no_slash(".gitattributes"@);
    lemma_no_slash("inpro.zip"@);
    lemma_no_slash(".delete"@);
    lemma_no_slash("wrap"@);
    lemma_no_slash("external.git"@);
    assert(".nov"@[1] != ".git"@[1]);
    assert(".nov"@.len() != "vault.bin"@.len());
    assert(".nov"@.len() != ".gitignore"@.len());
    assert(".nov"@.len() != ".gitattributes"@.len());
    assert("wrap"@.len() != "inpro.zip"@.len());
    assert("wrap"@.len() != ".delete"@.len());
    assert("inpro.zip"@.len() != ".delete"@.len());
}

proof fn lemma_no_slash(name: Seq<char>)
    requires
        forall|i: int| 0 <= i < name.len() ==> name[i] != '/',
    ensures
        !name.contains('/'),
{
}

/// A path of the user's has nothing of the metadata under it.
proof fn lemma_user_path_owns_no_metadata(root: RootPath<Normal>, p: Seq<char>, x: Seq<char>)
    requires
        tidy(root@),
        user_path(root, p),
        under(root.metadata_path(), x),
    ensures
        !under(p, x),
{
    lemma_layout_names();
    if under(p, x) {
        lemma_top_level_is_apart(root@, ".nov"@, p, x);
    }
}

/// What lies under a path of the user's is the user's.
proof fn lemma_under_user_path(root: RootPath<Normal>, p: Seq<char>, q: Seq<char>)
    requires
        tidy(root@),
        user_path(root, p),
        under(p, q),
    ensures
        user_path(root, q),
{
    lemma_under_trans(root@, p, q);
    if under(root.metadata_path(), q) {
        lemma_user_path_owns_no_metadata(root, p, q);
    }
    if q == root@ {
        // The root would lie under a path that lies strictly under it.
        let pp = p + seq!['/'];
        let pr = root@ + seq!['/'];
        assert(pr =~= p.subrange(0, pr.len() as int));
        if q != p {
            assert(pp =~= q.subrange(0, pp.len() as int));
        }
    }
}

/// The disk once the walked paths and the deletion list are gone: what was
/// there and is not the user's, but for the list.
pub open spec fn unlinked(root: RootPath<Normal>, disk: Disk) -> Disk {
    Set::new(
        |q: Seq<char>| disk.contains(q) && !user_path(root, q) && q != root.deletion_path(),
    )
}

/// Unlinking a complete walk removes everything of the user's and nothing else.
proof fn lemma_unlink_phase(root: RootPath<Normal>, disk: Disk, sorted: Seq<Sorted>)
    requires
        tidy(root@),
        walked(root, disk, sorted),
        forall|i: int| 0 <= i < sorted.len() ==> listable((#[trigger] sorted[i]).path),
    ensures
        disk_after_all(disk, root.state_path(), unlink_plan(root, deletion_list(sorted))) == unlinked(
            root,
            disk,
        ),
{
    let state = root.state_path();
    let paths = paths_of(sorted);
    lemma_every_walked_path_is_unlinked(root, sorted);
    let plan = unlink_plan(root, deletion_list(sorted));
    assert(plan.drop_last() =~= unlinks(paths));
    assert(plan.last() == apply(FsOp::RemoveFile, root.deletion_path()));
    let gone = disk_after_all(disk, state, unlinks(paths));
    let after = disk_after_all(disk, state, plan);
    assert(after == gone.remove(root.deletion_path()));
    assert forall|q: Seq<char>| after.contains(q) <==> unlinked(root, disk).contains(q) by {
        lemma_unlinks(disk, state, paths, q);
        if disk.contains(q) && user_path(root, q) {
            let i = choose|i: int| 0 <= i < sorted.len() && (#[trigger] sorted[i]).path == q;
            assert(paths[i] == q);
            assert(under(paths[i], q));
        }
        if disk.contains(q) && !user_path(root, q) {
            assert forall|j: int| 0 <= j < paths.len() implies !under(#[trigger] paths[j], q) by {
                assert(paths[j] == sorted[j].path);
                assert(user_path(root, sorted[j].path));
                if under(paths[j], q) {
                    lemma_under_user_path(root, paths[j], q);
                }
            }
        }
    }
    assert(after =~= unlinked(root, disk));
}

/// The disk that the steps of a seal leave, in closed form: the walked
/// paths and the deletion list are gone, the archive in progress has
/// become the archive, the two files are written, and with a git backend
/// the repository is back from the wrap directory, which is removed.
pub open spec fn sealed_disk(root: RootPath<Normal>, disk: Disk, object_store: bool) -> Disk {
    let state = root.state_path();
    let placed = disk_after(
        unlinked(root, disk),
        state,
        rename(root.inprogress_path(), root.vault_path()),
    );
    let written = with_path(with_path(placed, root.gitignore_path()), root.gitattributes_path());
    if object_store {
        written
    } else {
        disk_after(
            written,
            state,
            rename(root.external_git_path(), root.local_git_path()),
        ).remove(root.wrap_path())
    }
}

/// The steps of a seal after the encryption leave the disk in its sealed form.
proof fn lemma_seal_tail_unfolds(
    root: RootPath<Normal>,
    disk: Disk,
    sorted: Seq<Sorted>,
    object_store: bool,
)
    requires
        tidy(root@),
        walked(root, disk, sorted),
        forall|i: int| 0 <= i < sorted.len() ==> listable((#[trigger] sorted[i]).path),
    ensures
        disk_after_all(
            disk,
            root.state_path(),
            seal_tail(root, deletion_list(sorted), object_store),
        ) == sealed_disk(root, disk, object_store),
{
    let state = root.state_path();
    let u = unlink_plan(root, deletion_list(sorted));
    let r = forward_plan(VaultState::RelocateEncryptedBinaries, root, object_store);
    let w = forward_plan(VaultState::WriteMandatoryPostSealFiles, root, object_store);
    let g = forward_plan(VaultState::RestoreVaultGit, root, object_store);
    let d1 = disk_after_all(disk, state, u);
    let d2 = disk_after_all(d1, state, r);
    let d3 = disk_after_all(d2, state, w);
    let d4 = disk_after_all(d3, state, g);
    lemma_after_all_concat(disk, state, u, r);
    lemma_after_all_concat(disk, state, u + r, w);
    lemma_after_all_concat(disk, state, u + r + w, g);
    lemma_unlink_phase(root, disk, sorted);
    // The archive takes its place.
    assert(r.len() == 1 && r.drop_last().len() == 0);
    assert(r.last() == rename(root.inprogress_path(), root.vault_path()));
    assert(disk_after_all(d1, state, r.drop_last()) == d1);
    // The two files are written.
    assert(w.len() == 2 && w.drop_last().len() == 1 && w.drop_last().drop_last().len() == 0);
    assert(w.drop_last().last() == store(root.gitignore_path(), sealed_gitignore()));
    assert(w.last() == store(root.gitattributes_path(), sealed_gitattributes()));
    assert(disk_after_all(d2, state, w.drop_last().drop_last()) == d2);
    assert(disk_after_all(d2, state, w.drop_last()) == with_path(d2, root.gitignore_path()));
    assert(d1 == unlinked(root, disk));
    assert(d2 == disk_after(d1, state, rename(root.inprogress_path(), root.vault_path())));
    assert(d3 == with_path(with_path(d2, root.gitignore_path()), root.gitattributes_path()));
    if object_store {
        assert(g.len() == 0);
        assert(d4 == d3);
    } else {
        assert(g.len() == 2 && g.drop_last().len() == 1 && g.drop_last().drop_last().len() == 0);
        assert(g.drop_last().last() == rename(root.external_git_path(), root.local_git_path()));
        assert(g.last() == apply(FsOp::RemoveDir, root.wrap_path()));
        assert(disk_after_all(d3, state, g.drop_last().drop_last()) == d3);
        let moved = disk_after(d3, state, rename(root.external_git_path(), root.local_git_path()));
        assert(disk_after_all(d3, state, g.drop_last()) == moved);
        assert(d4 == moved.remove(root.wrap_path()));
    }
    assert(disk_after_all(disk, state, seal_tail(root, deletion_list(sorted), object_store)) == d4);
}

/// After any seal that succeeds, the working tree holds of the user's
/// exactly the sealed form: the archive, the two files that go with it,
/// and, with a git backend, the repository that was kept in the wrap
/// directory. This is stated of the model of the disk, for a root written
/// without a `/` at its end, a walk that was complete, and an archive in
/// progress that is a file.
pub proof fn lemma_seal_leaves_the_sealed_form(
    root: RootPath<Normal>,
    disk: Disk,
    sorted: Seq<Sorted>,
    object_store: bool,
    p: Seq<char>,
)
    requires
        tidy(root@),
        walked(root, disk, sorted),
        forall|i: int| 0 <= i < sorted.len() ==> listable((#[trigger] sorted[i]).path),
        disk.contains(root.inprogress_path()),
        forall|q: Seq<char>|
            disk.contains(q) && under(root.inprogress_path(), q) ==> q == root.inprogress_path(),
        user_path(root, p),
    ensures
        disk_after_all(
            disk,
            root.state_path(),
            seal_tail(root, deletion_list(sorted), object_store),
        ).contains(p) <==> in_sealed_form(root, disk, object_store, p),
{
    lemma_layout_names();
    lemma_seal_tail_unfolds(root, disk, sorted, object_store);
    let state = root.state_path();
    let nov = root.metadata_path();
    let inpro = root.inprogress_path();
    let vault = root.vault_path();
    let ignore = root.gitignore_path();
    let attributes = root.gitattributes_path();
    let wrap = root.wrap_path();
    let ext = root.external_git_path();
    let git = root.local_git_path();
    let deletion = root.deletion_path();
    lemma_child_of_tidy(root@, ".nov"@);
    lemma_child_of_tidy(root@, ".git"@);
    lemma_child_of_tidy(root@, "vault.bin"@);
    lemma_child_of_tidy(root@, ".gitignore"@);
    lemma_child_of_tidy(root@, ".gitattributes"@);
    lemma_child_of_tidy(nov, "inpro.zip"@);
    lemma_child_of_tidy(nov, ".delete"@);
    lemma_child_of_tidy(nov, "wrap"@);
    lemma_child_of_tidy(wrap, "external.git"@);
    let d1 = unlinked(root, disk);
    let d2 = disk_after(d1, state, rename(inpro, vault));
    let d3 = with_path(with_path(d2, ignore), attributes);

    // The metadata is not the user's, and the sealed form is.
    lemma_siblings_apart(root@, "vault.bin"@, ".nov"@, vault);
    lemma_siblings_apart(root@, ".gitignore"@, ".nov"@, ignore);
    lemma_siblings_apart(root@, ".gitattributes"@, ".nov"@, attributes);
    assert(user_path(root, vault) && user_path(root, ignore) && user_path(root, attributes));
    assert(!user_path(root, inpro) && inpro != deletion) by {
        lemma_under_trans(nov, inpro, inpro);
        if inpro == deletion {
            lemma_siblings_apart(nov, "inpro.zip"@, ".delete"@, inpro);
        }
    }
    assert(d1.contains(inpro));

    // Once the archive is in place, only the archive is the user's.
    assert(d2.contains(p) <==> p == vault) by {
        assert(!d1.contains(p));
        if under(vault, p) && d1.contains(carried(vault, inpro, p)) {
            lemma_carried_under(inpro, vault, p);
        }
        if p == vault {
            lemma_carried_under(inpro, vault, p);
        }
    }
    // Then the two files join it.
    assert(d3.contains(p) <==> p == vault || p == ignore || p == attributes) by {
        if under(p, ignore) {
            lemma_nothing_between(root@, ".gitignore"@, p);
        }
        if under(p, attributes) {
            lemma_nothing_between(root@, ".gitattributes"@, p);
        }
    }
    if !object_store {
        let moved = disk_after(d3, state, rename(ext, git));
        lemma_under_trans(nov, wrap, ext);
        lemma_under_trans(nov, wrap, wrap);
        assert(p != wrap);
        // What is under the wrapped repository is metadata.
        if under(ext, p) {
            lemma_under_trans(nov, ext, p);
        }
        if under(git, p) {
            let c = carried(git, ext, p);
            lemma_carried_under(ext, git, p);
            lemma_under_trans(wrap, ext, c);
            lemma_under_trans(nov, wrap, c);
            assert(!user_path(root, c));
            // It is neither the deletion list nor the archive in progress.
            if c == deletion {
                lemma_siblings_apart(nov, "wrap"@, ".delete"@, c);
            }
            if under(inpro, c) {
                lemma_siblings_apart(nov, "wrap"@, "inpro.zip"@, c);
            }
            // It is not under the archive, nor above the two files.
            if under(vault, c) {
                lemma_siblings_apart(root@, ".nov"@, "vault.bin"@, c);
            }
            if under(c, ignore) {
                lemma_under_trans(nov, c, ignore);
            }
            if under(c, attributes) {
                lemma_under_trans(nov, c, attributes);
            }
            assert(d1.contains(c) <==> disk.contains(c));
            assert(d2.contains(c) <==> disk.contains(c));
            assert(d3.contains(c) <==> disk.contains(c));
        }
        assert(moved.contains(p) <==> (d3.contains(p) && !under(ext, p)) || (under(git, p)
            && d3.contains(carried(git, ext, p))));
    }
}

/// A seal that succeeds keeps the metadata directory.
pub proof fn lemma_seal_keeps_the_metadata_directory(
    root: RootPath<Normal>,
    disk: Disk,
    sorted: Seq<Sorted>,
    object_store: bool,
)
    requires
        tidy(root@),
        walked(root, disk, sorted),
        forall|i: int| 0 <= i < sorted.len() ==> listable((#[trigger] sorted[i]).path),
        disk.contains(root.metadata_path()),
    ensures
        disk_after_all(
            disk,
            root.state_path(),
            seal_tail(root, deletion_list(sorted), object_store),
        ).contains(root.metadata_path()),
{
    lemma_layout_names();
    lemma_seal_tail_unfolds(root, disk, sorted, object_store);
    let nov = root.metadata_path();
    let wrap = root.wrap_path();
    lemma_child_of_tidy(root@, ".nov"@);
    lemma_child_of_tidy(nov, "inpro.zip"@);
    lemma_child_of_tidy(nov, ".delete"@);
    lemma_child_of_tidy(nov, "wrap"@);
    lemma_child_of_tidy(wrap, "external.git"@);
    let d1 = unlinked(root, disk);
    assert(d1.contains(nov));
    // The directory is shorter than anything below it.
    assert(!under(root.inprogress_path(), nov));
    assert(!under(root.external_git_path(), nov));
    assert(nov != wrap);
}

/// Whether an effect touches the metadata alone: it commits the state
/// file, or it creates, writes or removes at a path under the metadata
/// directory.
pub open spec fn touches_metadata_only(root: RootPath<Normal>, effect: EffectView) -> bool {
    match effect {
        EffectView::CommitState { text } => true,
        EffectView::Apply { op, path } => under(root.metadata_path(), path) && op != FsOp::GitInit
            && op != FsOp::GitInitIfAbsent,
        EffectView::Rename { from, to, if_present } => false,
        EffectView::Write { path, contents, if_absent } => under(root.metadata_path(), path),
    }
}

/// An effect that touches the metadata alone leaves what is the user's as it was.
pub proof fn lemma_metadata_effect_keeps_user_paths(
    root: RootPath<Normal>,
    disk: Disk,
    effect: EffectView,
    p: Seq<char>,
)
    requires
        tidy(root@),
        touches_metadata_only(root, effect),
        user_path(root, p),
    ensures
        disk_after(disk, root.state_path(), effect).contains(p) <==> disk.contains(p),
{
    lemma_layout_names();
    let nov = root.metadata_path();
    lemma_child_of_tidy(root@, ".nov"@);
    lemma_child_of_tidy(nov, ".state"@);
    let at = match effect {
        EffectView::CommitState { text } => root.state_path(),
        EffectView::Apply { op, path } => path,
        EffectView::Rename { from, to, if_present } => nov,
        EffectView::Write { path, contents, if_absent } => path,
    };
    assert(under(nov, at));
    // The user's path is neither above nor below a path of the metadata.
    if under(p, at) {
        lemma_user_path_owns_no_metadata(root, p, at);
    }
    if under(at, p) {
        lemma_under_trans(nov, at, p);
    }
}

/// A plan that touches the metadata alone leaves what is the user's as it was.
pub proof fn lemma_metadata_plan_keeps_user_paths(
    root: RootPath<Normal>,
    disk: Disk,
    plan: Seq<EffectView>,
    p: Seq<char>,
)
    requires
        tidy(root@),
        forall|k: int| 0 <= k < plan.len() ==> touches_metadata_only(root, #[trigger] plan[k]),
        user_path(root, p),
    ensures
        disk_after_all(disk, root.state_path(), plan).contains(p) <==> disk.contains(p),
    decreases plan.len(),
{
    if plan.len() > 0 {
        let head = plan.drop_last();
        assert forall|k: int| 0 <= k < head.len() implies touches_metadata_only(
            root,
            #[trigger] head[k],
        ) by {
            assert(head[k] == plan[k]);
        }
        lemma_metadata_plan_keeps_user_paths(root, disk, head, p);
        assert(touches_metadata_only(root, plan[plan.len() - 1]));
        lemma_metadata_effect_keeps_user_paths(
            root,
            disk_after_all(disk, root.state_path(), head),
            plan.last(),
            p,
        );
    }
}

/// What sealing writes before anything is unlinked is metadata: the
/// clear-text copies, the deletion list and the envelopes all go under the
/// metadata directory.
pub proof fn lemma_sealing_touches_metadata_only(
    root: RootPath<Normal>,
    sorted: Seq<Sorted>,
    key: Seq<u8>,
    plan: Seq<EffectView>,
    k: int,
)
    requires
        tidy(root@),
        is_sealing_plan(plan, root, sorted, key),
        0 <= k < plan.len(),
    ensures
        touches_metadata_only(root, plan[k]),
{
    lemma_layout_names();
    reveal_strlit("unsecure");
    reveal_strlit("secure_local");
    reveal_strlit("inpro.bin");
    let nov = root.metadata_path();
    lemma_child_of_tidy(root@, ".nov"@);
    lemma_child_of_tidy(nov, ".delete"@);
    lemma_child_of_tidy(nov, "inpro.zip"@);
    lemma_child_of_tidy(nov, "unsecure"@);
    lemma_child_of_tidy(nov, "secure_local"@);
    lemma_child_of_tidy(root.secure_local_path(), "inpro.bin"@);
    lemma_under_trans(nov, root.secure_local_path(), root.secure_local_zip_path());
    let copies = unsecure_part(root, sorted);
    let n = copies.len() as int;
    if k < n {
        assert(plan[k] == plan.subrange(0, n)[k]);
        lemma_copies_go_under_staging(root, sorted, k);
        let i = choose|i: int|
            0 <= i < sorted.len() && copies[k] == unsecure_copy(root, #[trigger] sorted[i]);
        lemma_child_of_tidy(root.unsecure_path(), sorted[i].name);
        lemma_under_trans(nov, root.unsecure_path(), child(root.unsecure_path(), sorted[i].name));
    }
}

proof fn lemma_copies_go_under_staging(root: RootPath<Normal>, sorted: Seq<Sorted>, k: int)
    requires
        0 <= k < unsecure_part(root, sorted).len(),
    ensures
        exists|i: int|
            0 <= i < sorted.len() && unsecure_part(root, sorted)[k] == unsecure_copy(
                root,
                #[trigger] sorted[i],
            ),
    decreases sorted.len(),
{
    if sorted.len() > 0 {
        let head = unsecure_part(root, sorted.drop_last());
        if k < head.len() {
            lemma_copies_go_under_staging(root, sorted.drop_last(), k);
            let i = choose|i: int|
                0 <= i < sorted.drop_last().len() && head[k] == unsecure_copy(
                    root,
                    #[trigger] sorted.drop_last()[i],
                );
            assert(sorted[i] == sorted.drop_last()[i]);
        } else {
            assert(sorted[sorted.len() - 1] == sorted.last());
        }
    }
}

} // verus!
