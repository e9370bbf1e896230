//! The archive builder: sorts the walked tree by the classifier's decisions
//! and plans what sealing writes: the public envelope, the local-only
//! envelope, the clear-text copies and the deletion list.

use vstd::prelude::*;
use crate::archive::{dir_name, zip_image, ENTRY_MODE, VaultWriter};
use crate::effects::{apply, plan_of, push_effect, store, Effect, EffectView, FsOp};
use crate::envelope::is_envelope;
use crate::error::VaultError;
use crate::filter::{relative, strip_root, FilterDecision, NovFilter, RulesFile};
use crate::paths::{child, join_path, Normal, RootPath};
use crate::steps::{unlink_order, unlink_plan};
use crate::text::{file_lines, lemma_split_prepend, same_text, split_on, strip_cr};

verus! {

/// One path of the working tree as the host walked it: the path itself,
/// whether it is a directory, and the contents where it is a file.
#[derive(Clone, Debug, PartialEq, Eq)]
pub struct TreeEntry {
    pub path: String,
    pub is_dir: bool,
    pub contents: Vec<u8>,
}

/// The working tree as the host read it: the canonical root, the ignore and
/// rules files where they exist, and every path below the root except the
/// metadata directory, a directory before what is in it.
#[derive(Clone, Debug, PartialEq, Eq)]
pub struct WorkingTree {
    pub root: String,
    pub gitignore: Option<String>,
    pub config: Option<RulesFile>,
    pub entries: Vec<TreeEntry>,
}

/// Whether the walk descends into an entry of this file name: everything
/// but the metadata directory.
pub fn include_in_walk(file_name: &str) -> (r: bool)
    ensures
        r == (file_name@ != ".nov"@),
{
    !same_text(file_name, ".nov")
}

/// A walked path with its name relative to the root and its fate.
#[derive(Clone, Debug, PartialEq, Eq)]
pub struct SortedEntry {
    pub name: String,
    pub path: String,
    pub is_dir: bool,
    pub contents: Vec<u8>,
    pub decision: FilterDecision,
}

/// A sorted entry as a value of the model.
pub struct Sorted {
    pub name: Seq<char>,
    pub path: Seq<char>,
    pub is_dir: bool,
    pub contents: Seq<u8>,
    pub decision: FilterDecision,
}

impl View for SortedEntry {
    type V = Sorted;

    open spec fn view(&self) -> Sorted {
        Sorted {
            name: self.name@,
            path: self.path@,
            is_dir: self.is_dir,
            contents: self.contents@,
            decision: self.decision,
        }
    }
}

/// The entries of `v` as values of the model.
pub open spec fn sorted_of(v: Seq<SortedEntry>) -> Seq<Sorted> {
    Seq::new(v.len(), |i: int| v[i]@)
}

/// Whether `s` is the entry `e` of a tree rooted at `root`, sorted by
/// `filter`: the same path, kind and contents, named relative to the root,
/// with the classifier's decision. The decision for a name with a backslash
/// is left to the host's path syntax.
pub open spec fn sorts(filter: NovFilter, e: TreeEntry, s: Sorted) -> bool {
    &&& s.path == e.path@
    &&& s.is_dir == e.is_dir
    &&& s.contents == e.contents@
    &&& relative(e.path@, filter.root()) == Some(s.name)
    &&& !s.name.contains('\\') ==> s.decision == filter.decision(s.name, e.is_dir)
}

/// Sorts the walked entries. A path outside the root is an I/O failure.
pub fn classify_tree(filter: &NovFilter, entries: Vec<TreeEntry>) -> (r: Result<
    Vec<SortedEntry>,
    VaultError,
>)
    ensures
        r is Ok <==> forall|i: int|
            0 <= i < entries@.len() ==> relative((#[trigger] entries@[i]).path@, filter.root())
                is Some,
        r matches Ok(sorted) ==> sorted@.len() == entries@.len() && forall|i: int|
            0 <= i < entries@.len() ==> sorts(*filter, entries@[i], (#[trigger] sorted@[i])@),
        r matches Err(e) ==> e == VaultError::IoError,
{
    let mut sorted: Vec<SortedEntry> = Vec::new();
    let ghost all = entries@;
    let root = filter.root_path().as_str();
    let n = entries.len();
    let mut stack = entries;
    let mut rest: Vec<TreeEntry> = Vec::new();
    assert(stack@ =~= all.take(stack@.len() as int));
    // Take the entries from the back, so that they come off `rest` in walk order.
    while stack.len() > 0
        invariant
            stack@.len() + rest@.len() == n,
            n == all.len(),
            stack@ == all.take(stack@.len() as int),
            forall|k: int| 0 <= k < rest@.len() ==> rest@[k] == all[n - 1 - k],
        decreases stack.len(),
    {
        let e = stack.pop().unwrap();
        assert(stack@ =~= all.take(stack@.len() as int));
        rest.push(e);
    }
    let mut i: usize = 0;
    while rest.len() > 0
        invariant
            i + rest@.len() == n,
            n == all.len(),
            all == entries@,
            root@ == filter.root(),
            forall|k: int| 0 <= k < rest@.len() ==> rest@[k] == all[n - 1 - k],
            sorted@.len() == i,
            forall|k: int| 0 <= k < i ==> sorts(*filter, all[k], (#[trigger] sorted@[k])@),
            forall|k: int| 0 <= k < i ==> relative((#[trigger] all[k]).path@, filter.root()) is Some,
        decreases rest.len(),
    {
        let e = rest.pop().unwrap();
        assert(e == all[i as int]);
        let name = match strip_root(e.path.as_str(), root) {
            Some(name) => name,
            None => {
                assert(relative(all[i as int].path@, filter.root()) is None);
                return Err(VaultError::IoError);
            },
        };
        let decision = match filter.check_decision(e.path.as_str(), e.is_dir) {
            Ok(d) => d,
            Err(err) => {
                assert(relative(all[i as int].path@, filter.root()) is None);
                return Err(err);
            },
        };
        sorted.push(
            SortedEntry { name, path: e.path, is_dir: e.is_dir, contents: e.contents, decision },
        );
        i += 1;
    }
    Ok(sorted)
}

/// What the entry `s` puts into an archive.
pub open spec fn zip_entry_of(s: Sorted) -> (Seq<char>, bool, u32, Seq<u8>) {
    if s.is_dir {
        (dir_name(s.name), true, ENTRY_MODE, Seq::empty())
    } else {
        (s.name, false, ENTRY_MODE, s.contents)
    }
}

/// The entries of the archive that takes the fate `which`, in walk order.
pub open spec fn archive_part(sorted: Seq<Sorted>, which: FilterDecision) -> Seq<
    (Seq<char>, bool, u32, Seq<u8>),
>
    decreases sorted.len(),
{
    if sorted.len() == 0 {
        Seq::empty()
    } else if sorted.last().decision == which {
        archive_part(sorted.drop_last(), which).push(zip_entry_of(sorted.last()))
    } else {
        archive_part(sorted.drop_last(), which)
    }
}

/// Where the clear-text copy of the entry `s` goes.
pub open spec fn unsecure_copy(root: RootPath<Normal>, s: Sorted) -> EffectView {
    if s.is_dir {
        apply(FsOp::CreateDirAll, child(root.unsecure_path(), s.name))
    } else {
        store(child(root.unsecure_path(), s.name), s.contents)
    }
}

/// The clear-text copies of the entries that stay unsecured, in walk order.
pub open spec fn unsecure_part(root: RootPath<Normal>, sorted: Seq<Sorted>) -> Seq<EffectView>
    decreases sorted.len(),
{
    if sorted.len() == 0 {
        Seq::empty()
    } else if sorted.last().decision == FilterDecision::Unsecure {
        unsecure_part(root, sorted.drop_last()).push(unsecure_copy(root, sorted.last()))
    } else {
        unsecure_part(root, sorted.drop_last())
    }
}

/// The deletion list: every walked path on a line of its own, in walk order.
pub open spec fn deletion_list(sorted: Seq<Sorted>) -> Seq<char>
    decreases sorted.len(),
{
    if sorted.len() == 0 {
        Seq::empty()
    } else {
        deletion_list(sorted.drop_last()) + sorted.last().path + seq!['\n']
    }
}

/// Whether `effect` stores at `path` an envelope of `plaintext` under `key`.
pub open spec fn stores_envelope(
    effect: EffectView,
    path: Seq<char>,
    key: Seq<u8>,
    plaintext: Seq<u8>,
) -> bool {
    effect matches EffectView::Write { path: p, contents, if_absent } && p == path && !if_absent
        && is_envelope(contents, key, plaintext)
}

/// Whether `plan` is what sealing the entries `sorted` under `key` writes:
/// the clear-text copies, the deletion list, the public envelope, and the
/// local-only envelope where anything goes into it.
pub open spec fn is_sealing_plan(
    plan: Seq<EffectView>,
    root: RootPath<Normal>,
    sorted: Seq<Sorted>,
    key: Seq<u8>,
) -> bool {
    let copies = unsecure_part(root, sorted);
    let public = archive_part(sorted, FilterDecision::Encrypt);
    let local = archive_part(sorted, FilterDecision::IgnoreAndEncrypt);
    let n = copies.len() as int;
    &&& plan.len() == n + 2 + if local.len() > 0 {
        1int
    } else {
        0int
    }
    &&& plan.subrange(0, n) == copies
    &&& plan[n] == store(root.deletion_path(), vstd::utf8::encode_utf8(deletion_list(sorted)))
    &&& stores_envelope(plan[n + 1], root.inprogress_path(), key, zip_image(public)->0)
    &&& local.len() > 0 ==> stores_envelope(
        plan[n + 2],
        root.secure_local_zip_path(),
        key,
        zip_image(local)->0,
    )
}

/// What the entry `s` offers to an archive: its contents where it is a
/// file, nothing where it is a directory.
pub open spec fn offered(s: Sorted) -> Option<Seq<u8>> {
    if s.is_dir {
        None
    } else {
        Some(s.contents)
    }
}

/// Whether the archive for the fate `which` takes, one after the other,
/// every entry that is sorted to it.
pub open spec fn archive_takes(sorted: Seq<Sorted>, which: FilterDecision) -> bool
    decreases sorted.len(),
{
    if sorted.len() == 0 {
        true
    } else {
        &&& archive_takes(sorted.drop_last(), which)
        &&& sorted.last().decision == which ==> VaultWriter::takes(
            archive_part(sorted.drop_last(), which),
            sorted.last().name,
            offered(sorted.last()),
        )
    }
}

/// Whether the sorted entries can be sealed: both archives take what is
/// sorted to them, the public archive can be finished and sealed, and so
/// can the local one where anything goes into it.
pub open spec fn sealing_ok(sorted: Seq<Sorted>) -> bool {
    &&& archive_takes(sorted, FilterDecision::Encrypt)
    &&& archive_takes(sorted, FilterDecision::IgnoreAndEncrypt)
    &&& VaultWriter::seals(archive_part(sorted, FilterDecision::Encrypt))
    &&& archive_part(sorted, FilterDecision::IgnoreAndEncrypt).len() > 0 ==> VaultWriter::seals(
        archive_part(sorted, FilterDecision::IgnoreAndEncrypt),
    )
}

/// An archive that takes all entries takes the first of them.
proof fn lemma_archive_takes_prefix(sorted: Seq<Sorted>, which: FilterDecision, k: int)
    requires
        archive_takes(sorted, which),
        0 <= k <= sorted.len(),
    ensures
        archive_takes(sorted.take(k), which),
    decreases sorted.len(),
{
    if k == sorted.len() {
        assert(sorted.take(k) =~= sorted);
    } else {
        assert(sorted.take(k) =~= sorted.drop_last().take(k));
        lemma_archive_takes_prefix(sorted.drop_last(), which, k);
    }
}

/// Plans what sealing the sorted entries writes. An entry that the archive
/// refuses, an archive that cannot be finished, or one too long for the
/// cipher, is an I/O failure; nothing else is.
pub fn plan_sealing(root: &RootPath<Normal>, sorted: &Vec<SortedEntry>, key: &[u8; 32]) -> (r: Result<
    Vec<Effect>,
    VaultError,
>)
    ensures
        r is Ok <==> sealing_ok(sorted_of(sorted@)),
        r matches Ok(plan) ==> is_sealing_plan(plan_of(plan@), *root, sorted_of(sorted@), key@),
        r matches Err(e) ==> e == VaultError::IoError,
{
    let ghost all = sorted_of(sorted@);
    let unsecure = root.unsecure_folder();
    let mut public = VaultWriter::new(root.inprogress_vault().as_str(), key);
    let mut local = VaultWriter::new(root.secure_local_zip().as_str(), key);
    let mut plan: Vec<Effect> = Vec::new();
    let mut list = String::new();
    let mut any_local = false;
    let mut i: usize = 0;
    assert(all.take(0) =~= Seq::<Sorted>::empty());
    assert(plan_of(plan@) =~= Seq::<EffectView>::empty());
    while i < sorted.len()
        invariant
            i <= sorted.len(),
            all == sorted_of(sorted@),
            unsecure@ == root.unsecure_path(),
            public.open() && local.open(),
            public.key() == key@ && local.key() == key@,
            public.entries() == archive_part(all.take(i as int), FilterDecision::Encrypt),
            local.entries() == archive_part(all.take(i as int), FilterDecision::IgnoreAndEncrypt),
            any_local == (local.entries().len() > 0),
            archive_takes(all.take(i as int), FilterDecision::Encrypt),
            archive_takes(all.take(i as int), FilterDecision::IgnoreAndEncrypt),
            plan_of(plan@) == unsecure_part(*root, all.take(i as int)),
            list@ == deletion_list(all.take(i as int)),
        decreases sorted.len() - i,
    {
        let e = &sorted[i];
        proof {
            let now = all.take(i + 1);
            assert(now.drop_last() =~= all.take(i as int));
            assert(now.last() == e@);
            reveal_strlit("\n");
        }
        list.append(e.path.as_str());
        list.append("\n");
        assert("\n"@ == seq!['\n']);
        match e.decision {
            FilterDecision::Delete => {},
            FilterDecision::Encrypt => {
                let written = if e.is_dir {
                    public.write_path(e.name.as_str(), None)
                } else {
                    public.write_path(e.name.as_str(), Some(&e.contents))
                };
                if written.is_err() {
                    proof {
                        if archive_takes(all, FilterDecision::Encrypt) {
                            lemma_archive_takes_prefix(all, FilterDecision::Encrypt, i + 1);
                        }
                    }
                    return Err(VaultError::IoError);
                }
            },
            FilterDecision::IgnoreAndEncrypt => {
                let written = if e.is_dir {
                    local.write_path(e.name.as_str(), None)
                } else {
                    local.write_path(e.name.as_str(), Some(&e.contents))
                };
                if written.is_err() {
                    proof {
                        if archive_takes(all, FilterDecision::IgnoreAndEncrypt) {
                            lemma_archive_takes_prefix(
                                all,
                                FilterDecision::IgnoreAndEncrypt,
                                i + 1,
                            );
                        }
                    }
                    return Err(VaultError::IoError);
                }
                any_local = true;
            },
            FilterDecision::Unsecure => {
                let to = join_path(unsecure.as_str(), e.name.as_str());
                if e.is_dir {
                    push_effect(&mut plan, Effect::Apply { op: FsOp::CreateDirAll, path: to });
                } else {
                    push_effect(
                        &mut plan,
                        Effect::Write { path: to, contents: e.contents.clone(), if_absent: false },
                    );
                }
            },
        }
        i += 1;
    }
    assert(all.take(i as int) =~= all);
    let ghost copies = plan_of(plan@);
    push_effect(
        &mut plan,
        Effect::Write { path: root.deletion_shards(), contents: list.as_str().as_bytes_vec(), if_absent: false },
    );
    let sealed = match public.finish() {
        Ok(blob) => blob,
        Err(e) => {
            return Err(e);
        },
    };
    push_effect(
        &mut plan,
        Effect::Write { path: root.inprogress_vault(), contents: sealed, if_absent: false },
    );
    if any_local {
        let sealed_local = match local.finish() {
            Ok(blob) => blob,
            Err(e) => {
                return Err(e);
            },
        };
        push_effect(
            &mut plan,
            Effect::Write { path: root.secure_local_zip(), contents: sealed_local, if_absent: false },
        );
    }
    assert(plan_of(plan@).subrange(0, copies.len() as int) =~= copies);
    Ok(plan)
}

/// The number of entries that meet the fate `which`.
pub open spec fn fate_count(sorted: Seq<Sorted>, which: FilterDecision) -> nat
    decreases sorted.len(),
{
    if sorted.len() == 0 {
        0
    } else if sorted.last().decision == which {
        fate_count(sorted.drop_last(), which) + 1
    } else {
        fate_count(sorted.drop_last(), which)
    }
}

/// Every walked path meets exactly one fate: the public archive, the local
/// archive and the clear-text copies hold as many entries as were sorted
/// to them, and together with the deleted ones these are all entries.
pub proof fn lemma_every_path_has_one_fate(root: RootPath<Normal>, sorted: Seq<Sorted>)
    ensures
        archive_part(sorted, FilterDecision::Encrypt).len() == fate_count(
            sorted,
            FilterDecision::Encrypt,
        ),
        archive_part(sorted, FilterDecision::IgnoreAndEncrypt).len() == fate_count(
            sorted,
            FilterDecision::IgnoreAndEncrypt,
        ),
        unsecure_part(root, sorted).len() == fate_count(sorted, FilterDecision::Unsecure),
        fate_count(sorted, FilterDecision::Encrypt) + fate_count(
            sorted,
            FilterDecision::IgnoreAndEncrypt,
        ) + fate_count(sorted, FilterDecision::Unsecure) + fate_count(
            sorted,
            FilterDecision::Delete,
        ) == sorted.len(),
    decreases sorted.len(),
{
    if sorted.len() > 0 {
        lemma_every_path_has_one_fate(root, sorted.drop_last());
    }
}

/// An entry that is sorted to an archive is in that archive, and in it
/// alone; an entry that is to be deleted is in neither.
pub proof fn lemma_archive_holds_its_entries(sorted: Seq<Sorted>, which: FilterDecision, k: int)
    requires
        0 <= k < archive_part(sorted, which).len(),
    ensures
        exists|i: int|
            0 <= i < sorted.len() && (#[trigger] sorted[i]).decision == which && archive_part(
                sorted,
                which,
            )[k] == zip_entry_of(sorted[i]),
    decreases sorted.len(),
{
    if sorted.len() > 0 {
        let head = archive_part(sorted.drop_last(), which);
        if k < head.len() {
            lemma_archive_holds_its_entries(sorted.drop_last(), which, k);
            let i = choose|i: int|
                0 <= i < sorted.drop_last().len() && (#[trigger] sorted.drop_last()[i]).decision
                    == which && head[k] == zip_entry_of(sorted.drop_last()[i]);
            assert(sorted[i] == sorted.drop_last()[i]);
        } else {
            assert(sorted[sorted.len() - 1] == sorted.last());
        }
    }
}

/// Nothing that is sorted to an archive is left out of it: the archive
/// holds, at some place, what the entry puts into it.
pub proof fn lemma_archive_leaves_nothing_out(sorted: Seq<Sorted>, which: FilterDecision, i: int)
    requires
        0 <= i < sorted.len(),
        sorted[i].decision == which,
    ensures
        exists|k: int|
            0 <= k < archive_part(sorted, which).len() && #[trigger] archive_part(sorted, which)[k]
                == zip_entry_of(sorted[i]),
    decreases sorted.len(),
{
    let fewer = sorted.drop_last();
    let head = archive_part(fewer, which);
    if i == sorted.len() - 1 {
        assert(sorted[i] == sorted.last());
        assert(archive_part(sorted, which)[head.len() as int] == zip_entry_of(sorted[i]));
    } else {
        assert(fewer[i] == sorted[i]);
        lemma_archive_leaves_nothing_out(fewer, which, i);
        let k = choose|k: int| 0 <= k < head.len() && #[trigger] head[k] == zip_entry_of(fewer[i]);
        assert(archive_part(sorted, which)[k] == head[k]);
    }
}

/// Whether a path can stand on a line of the deletion list: it is not
/// empty, holds no line feed, and does not end in a carriage return.
pub open spec fn listable(path: Seq<char>) -> bool {
    path.len() > 0 && !path.contains('\n') && path.last() != '\r'
}

/// The paths of the entries, in walk order.
pub open spec fn paths_of(sorted: Seq<Sorted>) -> Seq<Seq<char>> {
    Seq::new(sorted.len(), |i: int| sorted[i].path)
}

proof fn lemma_list_lines(sorted: Seq<Sorted>)
    requires
        forall|i: int| 0 <= i < sorted.len() ==> listable((#[trigger] sorted[i]).path),
    ensures
        split_on(deletion_list(sorted), '\n') == paths_of(sorted).push(Seq::empty()),
    decreases sorted.len(),
{
    let empty = Seq::<char>::empty();
    if sorted.len() == 0 {
        assert(deletion_list(sorted) == empty);
        assert(empty.subrange(0, 0) =~= empty);
        assert(split_on(empty, '\n') =~= paths_of(sorted).push(empty));
    } else {
        let head = sorted.drop_last();
        let last = sorted.last().path;
        assert forall|i: int| 0 <= i < head.len() implies listable((#[trigger] head[i]).path) by {
            assert(head[i] == sorted[i]);
        }
        lemma_list_lines(head);
        assert(listable(sorted[sorted.len() - 1].path));
        lemma_split_append(deletion_list(head), paths_of(head), last);
        assert(deletion_list(sorted) == deletion_list(head) + last + seq!['\n']);
        assert(paths_of(head).push(last) =~= paths_of(sorted));
    }
}

/// Where a text splits into `lines` and an empty last piece, the text
/// with one more line and a line feed splits into those lines, the new
/// line, and an empty last piece.
proof fn lemma_split_append(text: Seq<char>, lines: Seq<Seq<char>>, line: Seq<char>)
    requires
        split_on(text, '\n') == lines.push(Seq::empty()),
        !line.contains('\n'),
    ensures
        split_on(text + line + seq!['\n'], '\n') == lines.push(line).push(Seq::empty()),
    decreases lines.len(),
{
    let empty = Seq::<char>::empty();
    let i = crate::text::first_at(text, 0, '\n');
    crate::text::lemma_first_at(text, 0, '\n');
    if lines.len() == 0 {
        // The text is one piece, and that piece is empty.
        assert(split_on(text, '\n').len() == 1);
        if i < text.len() {
            assert(split_on(text, '\n').len() >= 1 + 1) by {
                crate::text::lemma_first_at(text, i + 1, '\n');
                let rest = crate::text::split_from(text, i + 1, '\n');
                assert(rest.len() >= 1);
            }
        }
        assert(split_on(text, '\n')[0] == text.subrange(0, text.len() as int));
        assert(text =~= empty);
        lemma_split_prepend(line, empty, '\n');
        assert(split_on(empty, '\n') =~= seq![empty]) by {
            assert(empty.subrange(0, 0) =~= empty);
        }
        assert(text + line + seq!['\n'] =~= line + seq!['\n'] + empty);
        assert(seq![line] + seq![empty] =~= lines.push(line).push(empty));
    } else {
        // The first line ends at the first line feed; go on with the rest.
        if i >= text.len() {
            assert(split_on(text, '\n').len() == 1);
        }
        let first = text.subrange(0, i);
        let rest = text.skip(i + 1);
        assert(text =~= first + seq!['\n'] + rest);
        assert(!first.contains('\n')) by {
            if first.contains('\n') {
                let k = choose|k: int| 0 <= k < first.len() && first[k] == '\n';
                assert(text[k] == '\n');
            }
        }
        lemma_split_prepend(first, rest, '\n');
        assert(split_on(text, '\n') == seq![first] + split_on(rest, '\n'));
        let tail = lines.skip(1);
        assert(lines[0] == first) by {
            assert(split_on(text, '\n')[0] == first);
            assert(lines.push(empty)[0] == lines[0]);
        }
        assert(split_on(rest, '\n') =~= tail.push(empty)) by {
            assert((seq![first] + split_on(rest, '\n')).skip(1) =~= split_on(rest, '\n'));
            assert(lines.push(empty).skip(1) =~= tail.push(empty));
        }
        lemma_split_append(rest, tail, line);
        lemma_split_prepend(first, rest + line + seq!['\n'], '\n');
        assert(text + line + seq!['\n'] =~= first + seq!['\n'] + (rest + line + seq!['\n']));
        assert(seq![first] + tail.push(line).push(empty) =~= lines.push(line).push(empty));
    }
}

proof fn lemma_unlink_order_reverses(lines: Seq<Seq<char>>)
    requires
        forall|i: int| 0 <= i < lines.len() ==> (#[trigger] lines[i]).len() > 0,
    ensures
        unlink_order(lines) == Seq::new(lines.len(), |k: int| lines[lines.len() - 1 - k]),
    decreases lines.len(),
{
    if lines.len() > 0 {
        let rest = lines.skip(1);
        assert forall|i: int| 0 <= i < rest.len() implies (#[trigger] rest[i]).len() > 0 by {
            assert(rest[i] == lines[i + 1]);
        }
        lemma_unlink_order_reverses(rest);
        assert(lines[0].len() > 0);
        assert(unlink_order(lines) =~= Seq::new(lines.len(), |k: int| lines[lines.len() - 1 - k]));
    } else {
        assert(unlink_order(lines) =~= Seq::new(lines.len(), |k: int| lines[lines.len() - 1 - k]));
    }
}

/// What one step lists, the next one removes: the deletion list that
/// sealing writes for the walked paths makes the unlink step remove every
/// one of them, the path walked last first, and then the list itself.
pub proof fn lemma_every_walked_path_is_unlinked(root: RootPath<Normal>, sorted: Seq<Sorted>)
    requires
        forall|i: int| 0 <= i < sorted.len() ==> listable((#[trigger] sorted[i]).path),
    ensures
        unlink_plan(root, deletion_list(sorted)) == Seq::new(
            sorted.len(),
            |k: int| apply(FsOp::Unlink, sorted[sorted.len() - 1 - k].path),
        ).push(apply(FsOp::RemoveFile, root.deletion_path())),
{
    let paths = paths_of(sorted);
    lemma_list_lines(sorted);
    let parts = split_on(deletion_list(sorted), '\n');
    assert(parts.last().len() == 0);
    assert(parts.drop_last() =~= paths);
    assert forall|i: int| 0 <= i < paths.len() implies strip_cr(#[trigger] paths[i])
        == paths[i] by {
        assert(listable(sorted[i].path));
    }
    assert(file_lines(deletion_list(sorted)) =~= paths);
    assert forall|i: int| 0 <= i < paths.len() implies (#[trigger] paths[i]).len() > 0 by {
        assert(listable(sorted[i].path));
    }
    lemma_unlink_order_reverses(paths);
    let order = unlink_order(paths);
    assert(unlink_plan(root, deletion_list(sorted)) =~= Seq::new(
        sorted.len(),
        |k: int| apply(FsOp::Unlink, sorted[sorted.len() - 1 - k].path),
    ).push(apply(FsOp::RemoveFile, root.deletion_path())));
}

} // verus!
