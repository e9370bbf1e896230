//! What a step asks of the host. The library decides; the host touches the
//! disk. Every step hands back a list of effects that the host carries out
//! in order, stopping at the first that fails.

use vstd::prelude::*;

verus! {

/// An operation on one path.
#[derive(Clone, Copy, Debug, PartialEq, Eq, Structural)]
pub enum FsOp {
    /// Create the directory and every missing parent.
    CreateDirAll,
    /// Leave an empty directory at the path, whatever was there.
    RecreateDir,
    /// Remove the file; fail where there is none.
    RemoveFile,
    /// Remove the file where there is one.
    RemoveFileIfPresent,
    /// Remove the directory, which must be empty.
    RemoveDir,
    /// Remove the directory and all below it; fail where there is none.
    RemoveDirAll,
    /// Remove the directory and all below it where there is one.
    RemoveDirAllIfPresent,
    /// Remove whatever is at the path, a directory with all below it;
    /// nothing where the path is absent.
    Unlink,
    /// Make the directory a git repository.
    GitInit,
    /// Make the directory a git repository unless it is one.
    GitInitIfAbsent,
    /// Mark the directory hidden, on a platform that has such a mark.
    HideDir,
}

/// One thing for the host to do.
#[derive(Clone, Debug, PartialEq, Eq)]
pub enum Effect {
    /// Replace the state file with `text`, atomically.
    CommitState { text: String },
    /// Carry out `op` on `path`.
    Apply { op: FsOp, path: String },
    /// Move `from` to `to`. With `if_present`, nothing where `from` is absent.
    Rename { from: String, to: String, if_present: bool },
    /// Create the file at `path`, and its missing parent directories, with
    /// `contents`. With `if_absent`, nothing where the file exists.
    Write { path: String, contents: Vec<u8>, if_absent: bool },
}

/// An effect as a value of the model.
pub enum EffectView {
    CommitState { text: Seq<char> },
    Apply { op: FsOp, path: Seq<char> },
    Rename { from: Seq<char>, to: Seq<char>, if_present: bool },
    Write { path: Seq<char>, contents: Seq<u8>, if_absent: bool },
}

impl View for Effect {
    type V = EffectView;

    open spec fn view(&self) -> EffectView {
        match self {
            Effect::CommitState { text } => EffectView::CommitState { text: text@ },
            Effect::Apply { op, path } => EffectView::Apply { op: *op, path: path@ },
            Effect::Rename { from, to, if_present } => EffectView::Rename {
                from: from@,
                to: to@,
                if_present: *if_present,
            },
            Effect::Write { path, contents, if_absent } => EffectView::Write {
                path: path@,
                contents: contents@,
                if_absent: *if_absent,
            },
        }
    }
}

/// The effects of `v` as values of the model.
pub open spec fn plan_of(v: Seq<Effect>) -> Seq<EffectView> {
    Seq::new(v.len(), |i: int| v[i]@)
}

/// `op` on `path`.
pub open spec fn apply(op: FsOp, path: Seq<char>) -> EffectView {
    EffectView::Apply { op, path }
}

/// Moving `from` to `to`, failing where `from` is absent.
pub open spec fn rename(from: Seq<char>, to: Seq<char>) -> EffectView {
    EffectView::Rename { from, to, if_present: false }
}

/// Writing `contents` to `path`, over what was there.
pub open spec fn store(path: Seq<char>, contents: Seq<u8>) -> EffectView {
    EffectView::Write { path, contents, if_absent: false }
}

/// Committing `text` as the state file.
pub open spec fn commit(text: Seq<char>) -> EffectView {
    EffectView::CommitState { text }
}

/// Adds one effect to a plan.
pub fn push_effect(plan: &mut Vec<Effect>, effect: Effect)
    ensures
        plan_of(final(plan)@) == plan_of(old(plan)@).push(effect@),
{
    plan.push(effect);
    assert(plan_of(plan@) =~= plan_of(old(plan)@).push(effect@));
}

/// Adds the effects of `more` after those of `plan`.
pub fn append_effects(plan: &mut Vec<Effect>, more: Vec<Effect>)
    ensures
        plan_of(final(plan)@) == plan_of(old(plan)@) + plan_of(more@),
{
    let mut more = more;
    let ghost a = plan_of(plan@);
    let ghost b = plan_of(more@);
    plan.append(&mut more);
    assert(plan_of(plan@) =~= a + b);
}

} // verus!
