//! Unpacking a decrypted archive: which directories and files it puts back
//! under the root.

use vstd::prelude::*;
use crate::archive::{
    enclosed, judged, portable_name, read_archive, zip_contents, ArchiveEntry,
};
use crate::effects::{apply, plan_of, push_effect, store, Effect, EffectView, FsOp};
use crate::error::VaultError;
use crate::filter::{relative, FilterDecision};
use crate::paths::{child, join_path, Normal, RootPath};
use crate::sealing::{
    archive_part, lemma_archive_holds_its_entries, lemma_archive_leaves_nothing_out, zip_entry_of,
    Sorted,
};

verus! {

/// The entries of `v` as values of the model.
pub open spec fn unpacked_of(v: Seq<ArchiveEntry>) -> Seq<(Seq<char>, bool, Seq<u8>)> {
    Seq::new(v.len(), |i: int| v[i]@)
}

/// What the archive reader found of the names of `v`, entry by entry.
pub open spec fn safe_of(v: Seq<ArchiveEntry>) -> Seq<bool> {
    Seq::new(v.len(), |i: int| v[i].safe_name)
}

/// Whether `safe` judges the names of `entries`, one by one.
pub open spec fn judges(entries: Seq<(Seq<char>, bool, Seq<u8>)>, safe: Seq<bool>) -> bool {
    &&& safe.len() == entries.len()
    &&& forall|i: int| 0 <= i < entries.len() ==> judged((#[trigger] entries[i]).0, safe[i])
}

/// What unpacking one entry puts on disk: a directory is created with its
/// parents, a file is written with its parents.
pub open spec fn unpacked(root: Seq<char>, entry: (Seq<char>, bool, Seq<u8>)) -> EffectView {
    if entry.1 {
        apply(FsOp::CreateDirAll, child(root, entry.0))
    } else {
        store(child(root, entry.0), entry.2)
    }
}

/// What unpacking the entries puts on disk, in archive order, where `safe`
/// tells for each entry whether its name was found safe. An entry whose
/// name was not is passed over.
pub open spec fn expansion(
    root: Seq<char>,
    entries: Seq<(Seq<char>, bool, Seq<u8>)>,
    safe: Seq<bool>,
) -> Seq<EffectView>
    recommends
        safe.len() == entries.len(),
    decreases entries.len(),
{
    if entries.len() == 0 || safe.len() != entries.len() {
        Seq::empty()
    } else if safe.last() {
        expansion(root, entries.drop_last(), safe.drop_last()).push(unpacked(root, entries.last()))
    } else {
        expansion(root, entries.drop_last(), safe.drop_last())
    }
}

/// Whether `plan` unpacks the archive `image` under the root: every entry
/// of the archive can be read, and `plan` is the expansion of the entries
/// under some judgement of their names.
pub open spec fn unpacks(root: Seq<char>, image: Seq<u8>, plan: Seq<EffectView>) -> bool {
    &&& zip_contents(image) is Some
    &&& all_readable(zip_contents(image)->0)
    &&& exists|safe: Seq<bool>|
        judges(readable_entries(zip_contents(image)->0), safe) && plan == #[trigger] expansion(
            root,
            readable_entries(zip_contents(image)->0),
            safe,
        )
}

/// Whether every entry of an archive can be read.
pub open spec fn all_readable(contents: Seq<Option<(Seq<char>, bool, Seq<u8>)>>) -> bool {
    forall|i: int| 0 <= i < contents.len() ==> (#[trigger] contents[i]) is Some
}

/// The entries of an archive whose entries can all be read.
pub open spec fn readable_entries(contents: Seq<Option<(Seq<char>, bool, Seq<u8>)>>) -> Seq<
    (Seq<char>, bool, Seq<u8>),
> {
    Seq::new(contents.len(), |i: int| contents[i]->0)
}

/// Unpacking passes over what was found unsafe: every effect of an
/// expansion creates or writes below the root, at the name of an entry that
/// was found safe. Where every platform reads that name alike, it holds no
/// NUL, is not absolute and never leads above the root.
pub proof fn lemma_expansion_stays_below(
    root: Seq<char>,
    entries: Seq<(Seq<char>, bool, Seq<u8>)>,
    safe: Seq<bool>,
    k: int,
)
    requires
        judges(entries, safe),
        0 <= k < expansion(root, entries, safe).len(),
    ensures
        exists|i: int|
            0 <= i < entries.len() && safe[i] && judged(entries[i].0, true) && expansion(
                root,
                entries,
                safe,
            )[k] == unpacked(root, #[trigger] entries[i]),
    decreases entries.len(),
{
    if entries.len() > 0 {
        let fewer = entries.drop_last();
        let head = expansion(root, fewer, safe.drop_last());
        if k < head.len() {
            assert forall|i: int| 0 <= i < fewer.len() implies judged(
                (#[trigger] fewer[i]).0,
                safe.drop_last()[i],
            ) by {
                assert(fewer[i] == entries[i]);
            }
            lemma_expansion_stays_below(root, fewer, safe.drop_last(), k);
            let i = choose|i: int|
                0 <= i < fewer.len() && safe.drop_last()[i] && judged(fewer[i].0, true) && head[k]
                    == unpacked(root, #[trigger] fewer[i]);
            assert(entries[i] == fewer[i]);
        } else {
            let last = entries.len() - 1;
            assert(entries[last] == entries.last());
            assert(judged(entries[last].0, safe[last]));
        }
    }
}

/// Of names that every platform reads alike there is one judgement, and
/// so one expansion: it passes over exactly the names that hold a NUL, are
/// absolute or lead above the root.
pub proof fn lemma_portable_names_have_one_judgement(
    entries: Seq<(Seq<char>, bool, Seq<u8>)>,
    safe: Seq<bool>,
)
    requires
        judges(entries, safe),
        forall|i: int| 0 <= i < entries.len() ==> portable_name((#[trigger] entries[i]).0),
    ensures
        safe == Seq::new(entries.len(), |i: int| enclosed(entries[i].0)),
{
    let fixed = Seq::new(entries.len(), |i: int| enclosed(entries[i].0));
    assert forall|i: int| 0 <= i < entries.len() implies safe[i] == fixed[i] by {
        assert(judged(entries[i].0, safe[i]));
    }
    assert(safe =~= fixed);
}

/// Nothing that was found safe is passed over: the expansion unpacks
/// every entry whose name was found safe.
pub proof fn lemma_expansion_unpacks_what_is_safe(
    root: Seq<char>,
    entries: Seq<(Seq<char>, bool, Seq<u8>)>,
    safe: Seq<bool>,
    i: int,
)
    requires
        safe.len() == entries.len(),
        0 <= i < entries.len(),
        safe[i],
    ensures
        expansion(root, entries, safe).contains(unpacked(root, entries[i])),
    decreases entries.len(),
{
    let head = expansion(root, entries.drop_last(), safe.drop_last());
    let all = expansion(root, entries, safe);
    if i == entries.len() - 1 {
        assert(entries[i] == entries.last());
        assert(safe[i] == safe.last());
        assert(all[head.len() as int] == unpacked(root, entries[i]));
    } else {
        assert(entries.drop_last()[i] == entries[i]);
        assert(safe.drop_last()[i] == safe[i]);
        lemma_expansion_unpacks_what_is_safe(root, entries.drop_last(), safe.drop_last(), i);
        let k = choose|k: int| 0 <= k < head.len() && head[k] == unpacked(root, entries[i]);
        assert(all[k] == head[k]);
    }
}

/// Whether the archive `image` reads back as it was written: entry by
/// entry the name, the kind and the data that the writer was given.
pub open spec fn reads_back(image: Seq<u8>, written: Seq<(Seq<char>, bool, u32, Seq<u8>)>) -> bool {
    zip_contents(image) == Some(
        Seq::new(
            written.len(),
            |k: int| Some::<(Seq<char>, bool, Seq<u8>)>((written[k].0, written[k].1, written[k].3)),
        ),
    )
}

/// A file that went into an archive comes back as it was. Let the entries
/// `sorted` of a tree under `root` be sealed, and let the archive of the
/// fate `which` read back as it was written. Then every plan that unpacks
/// that archive under the root writes, for each file sorted to it, the
/// file's bytes at the file's path, where the file's name relative to the
/// root is read alike on every platform and stays inside the root.
pub proof fn lemma_sealed_file_comes_back(
    root: Seq<char>,
    sorted: Seq<Sorted>,
    which: FilterDecision,
    image: Seq<u8>,
    plan: Seq<EffectView>,
    i: int,
)
    requires
        reads_back(image, archive_part(sorted, which)),
        unpacks(root, image, plan),
        0 <= i < sorted.len(),
        sorted[i].decision == which,
        !sorted[i].is_dir,
        sorted[i].path != root,
        relative(sorted[i].path, root) == Some(sorted[i].name),
        portable_name(sorted[i].name),
        enclosed(sorted[i].name),
    ensures
        plan.contains(store(sorted[i].path, sorted[i].contents)),
{
    let written = archive_part(sorted, which);
    let contents = zip_contents(image)->0;
    let read = readable_entries(contents);
    let safe = choose|safe: Seq<bool>|
        judges(read, safe) && plan == #[trigger] expansion(root, read, safe);
    lemma_archive_leaves_nothing_out(sorted, which, i);
    let k = choose|k: int|
        0 <= k < written.len() && #[trigger] written[k] == zip_entry_of(sorted[i]);
    assert(contents[k] == Some((written[k].0, written[k].1, written[k].3)));
    assert(read[k] == (sorted[i].name, false, sorted[i].contents));
    assert(judged(read[k].0, safe[k]));
    lemma_expansion_unpacks_what_is_safe(root, read, safe, k);
    let name = sorted[i].name;
    let path = sorted[i].path;
    assert(child(root, name) =~= path) by {
        if root.len() == 0 {
        } else if root.last() == '/' {
            assert(root.is_prefix_of(path));
            assert(root + path.skip(root.len() as int) =~= path);
        } else {
            assert((root + seq!['/']).is_prefix_of(path));
            assert(root + seq!['/'] + path.skip(root.len() as int + 1) =~= path);
        }
    }
}

/// What the entry `s` is read back as from an archive that reads back as
/// it was written.
pub open spec fn read_entry_of(s: Sorted) -> (Seq<char>, bool, Seq<u8>) {
    (zip_entry_of(s).0, zip_entry_of(s).1, zip_entry_of(s).3)
}

/// Nothing comes back that did not go in. Let the archive of the fate
/// `which` read back as it was written. Then every effect of a plan that
/// unpacks it puts back one of the entries that were sorted to that
/// archive: what was sorted elsewhere, or was to be deleted, is not
/// unpacked from it.
pub proof fn lemma_only_what_was_sealed_comes_back(
    root: Seq<char>,
    sorted: Seq<Sorted>,
    which: FilterDecision,
    image: Seq<u8>,
    plan: Seq<EffectView>,
    k: int,
)
    requires
        reads_back(image, archive_part(sorted, which)),
        unpacks(root, image, plan),
        0 <= k < plan.len(),
    ensures
        exists|i: int|
            0 <= i < sorted.len() && (#[trigger] sorted[i]).decision == which && plan[k]
                == unpacked(root, read_entry_of(sorted[i])),
{
    let written = archive_part(sorted, which);
    let contents = zip_contents(image)->0;
    let read = readable_entries(contents);
    let safe = choose|safe: Seq<bool>|
        judges(read, safe) && plan == #[trigger] expansion(root, read, safe);
    lemma_expansion_stays_below(root, read, safe, k);
    let at = choose|at: int|
        0 <= at < read.len() && safe[at] && judged(read[at].0, true) && plan[k] == unpacked(
            root,
            #[trigger] read[at],
        );
    assert(contents[at] == Some((written[at].0, written[at].1, written[at].3)));
    lemma_archive_holds_its_entries(sorted, which, at);
    let i = choose|i: int|
        0 <= i < sorted.len() && (#[trigger] sorted[i]).decision == which && written[at]
            == zip_entry_of(sorted[i]);
    assert(read[at] == read_entry_of(sorted[i]));
}

/// Plans the unpacking of entries that were read from an archive.
pub fn expansion_plan(root: &RootPath<Normal>, entries: &Vec<ArchiveEntry>) -> (plan: Vec<Effect>)
    ensures
        plan_of(plan@) == expansion(root@, unpacked_of(entries@), safe_of(entries@)),
{
    let ghost all = unpacked_of(entries@);
    let ghost safe = safe_of(entries@);
    let mut plan: Vec<Effect> = Vec::new();
    let mut i: usize = 0;
    assert(all.take(0) =~= Seq::<(Seq<char>, bool, Seq<u8>)>::empty());
    assert(plan_of(plan@) =~= Seq::<EffectView>::empty());
    while i < entries.len()
        invariant
            i <= entries.len(),
            all == unpacked_of(entries@),
            safe == safe_of(entries@),
            plan_of(plan@) == expansion(root@, all.take(i as int), safe.take(i as int)),
        decreases entries.len() - i,
    {
        let e = &entries[i];
        proof {
            let now = all.take(i + 1);
            assert(now.drop_last() =~= all.take(i as int));
            assert(now.last() == e@);
            assert(safe.take(i + 1).drop_last() =~= safe.take(i as int));
            assert(safe.take(i + 1).last() == e.safe_name);
        }
        if e.safe_name {
            let path = join_path(root.path().as_str(), e.name.as_str());
            if e.is_dir {
                push_effect(&mut plan, Effect::Apply { op: FsOp::CreateDirAll, path });
            } else {
                push_effect(
                    &mut plan,
                    Effect::Write { path, contents: e.data.clone(), if_absent: false },
                );
            }
        }
        i += 1;
    }
    assert(all.take(i as int) =~= all);
    assert(safe.take(i as int) =~= safe);
    plan
}

/// Plans the unpacking of the archive `image` under the root. Bytes that
/// are no archive, or an entry that cannot be read, are an integrity
/// failure, and nothing is unpacked.
pub fn expand_decrypted_bin(root: &RootPath<Normal>, image: &Vec<u8>) -> (r: Result<
    Vec<Effect>,
    VaultError,
>)
    ensures
        r is Ok <==> zip_contents(image@) is Some && all_readable(zip_contents(image@)->0),
        r matches Ok(plan) ==> unpacks(root@, image@, plan_of(plan@)),
        r matches Err(e) ==> e == VaultError::IntegrityError,
{
    match read_archive(image) {
        Err(e) => Err(e),
        Ok(entries) => {
            proof {
                let contents = zip_contents(image@)->0;
                assert forall|i: int| 0 <= i < contents.len() implies (#[trigger] contents[i])
                    is Some by {
                    assert(contents[i] == Some(entries@[i]@));
                }
                assert(unpacked_of(entries@) =~= readable_entries(contents));
                assert(judges(readable_entries(contents), safe_of(entries@)));
            }
            let plan = expansion_plan(root, &entries);
            assert(unpacks(root@, image@, plan_of(plan@)));
            Ok(plan)
        },
    }
}

} // verus!
