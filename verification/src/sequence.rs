//! The pipeline driver: the sequences of states that make up a run, the
//! repair of an interrupted run, and the startup gate that decides what a
//! run has to do.

use vstd::prelude::*;
use crate::actions::{
    already_there, gate_fails, gate_result, repair_fails, repaired_entries, repaired_state, resumes,
    state_after_repair, Context, GateResult,
};
use crate::effects::{plan_of, Effect};
use crate::error::VaultError;
use crate::paths::{Normal, RootPath};
use crate::statefile::{
    flag_text, init_in, key_init, key_state, lemma_keys_distinct, lemma_lookup_upsert, state_in,
    upsert, Entries,
};
use crate::states::{lemma_state_names_distinct, VaultState};

verus! {

/// The states that prepare a directory for its first seal.
pub open spec fn pre_init_states() -> Seq<VaultState> {
    seq![VaultState::InitFileSystem, VaultState::Seed]
}

/// The states that turn the working tree into the sealed archive.
pub open spec fn seal_partial_states() -> Seq<VaultState> {
    seq![
        VaultState::RecreatingDirectories,
        VaultState::Encrypting,
        VaultState::UnlinkPostSeal,
        VaultState::RelocateEncryptedBinaries,
        VaultState::WriteMandatoryPostSealFiles,
    ]
}

/// The states of a seal.
pub open spec fn seal_full_states() -> Seq<VaultState> {
    seal_partial_states() + seq![VaultState::RestoreVaultGit, VaultState::Sealed]
}

/// The states of an initialisation: prepare, seal, and finish.
pub open spec fn init_full_states() -> Seq<VaultState> {
    pre_init_states() + seal_partial_states() + seq![
        VaultState::MakeExternalGitRepo,
        VaultState::MarkInitDone,
        VaultState::Sealed,
    ]
}

/// The states of an unseal.
pub open spec fn unseal_full_states() -> Seq<VaultState> {
    seq![
        VaultState::DecryptMainVault,
        VaultState::DecryptLocallySecuredVault,
        VaultState::StashExternalGitRepo,
        VaultState::DeleteSealedGitFiles,
        VaultState::ExpandMainVault,
        VaultState::ExpandLocalVault,
        VaultState::CleanupOldBinaries,
        VaultState::RestoreUnsecureFiles,
        VaultState::Unsealed,
    ]
}

/// The index of the first `pos` in `seq` at or after `from`; `seq.len()`
/// where there is none.
pub open spec fn state_at(seq: Seq<VaultState>, from: int, pos: VaultState) -> int
    decreases seq.len() - from,
{
    if from < 0 || from >= seq.len() {
        seq.len() as int
    } else if seq[from] == pos {
        from
    } else {
        state_at(seq, from + 1, pos)
    }
}

/// `state_at` finds the first occurrence at or after `from`.
pub proof fn lemma_state_at(seq: Seq<VaultState>, from: int, pos: VaultState)
    requires
        0 <= from <= seq.len(),
    ensures
        from <= state_at(seq, from, pos) <= seq.len(),
        state_at(seq, from, pos) < seq.len() ==> seq[state_at(seq, from, pos)] == pos,
        forall|k: int| from <= k < state_at(seq, from, pos) ==> seq[k] != pos,
    decreases seq.len() - from,
{
    if from < seq.len() && seq[from] != pos {
        lemma_state_at(seq, from + 1, pos);
    }
}

/// Where `i` is the first index at or after `from` that holds `pos`, `state_at` is `i`.
pub proof fn lemma_state_at_is(seq: Seq<VaultState>, from: int, pos: VaultState, i: int)
    requires
        0 <= from <= i <= seq.len(),
        i < seq.len() ==> seq[i] == pos,
        forall|k: int| from <= k < i ==> seq[k] != pos,
    ensures
        state_at(seq, from, pos) == i,
    decreases i - from,
{
    if from < i {
        lemma_state_at_is(seq, from + 1, pos, i);
    }
}

/// What is left of `seq` from the first `pos` on; nothing where `pos` does
/// not occur.
pub open spec fn resume_from(seq: Seq<VaultState>, pos: VaultState) -> Seq<VaultState> {
    seq.skip(state_at(seq, 0, pos))
}

/// A sequence that is resumed at a state it holds starts with that state,
/// and goes on as the sequence does after the first occurrence of it; one
/// that is resumed at a state it does not hold is empty.
pub proof fn lemma_resume_starts_at(seq: Seq<VaultState>, pos: VaultState)
    ensures
        seq.contains(pos) <==> resume_from(seq, pos).len() > 0,
        resume_from(seq, pos).len() > 0 ==> resume_from(seq, pos)[0] == pos,
        resume_from(seq, pos).len() <= seq.len(),
        forall|k: int|
            0 <= k < resume_from(seq, pos).len() ==> #[trigger] resume_from(seq, pos)[k] == seq[seq.len()
                - resume_from(seq, pos).len() + k],
{
    lemma_state_at(seq, 0, pos);
    let i = state_at(seq, 0, pos);
    if seq.contains(pos) {
        let k = choose|k: int| 0 <= k < seq.len() && seq[k] == pos;
        assert(i <= k);
    }
    if i < seq.len() {
        assert(seq[i] == pos);
    }
}

/// An ordered list of states.
pub struct NormalSequence(Vec<VaultState>);

/// Sequences played one after the other.
pub struct ComposedSequence(Vec<NormalSequence>);

/// The states of `parts`, one part after the other.
pub open spec fn flat(parts: Seq<Seq<VaultState>>) -> Seq<VaultState>
    decreases parts.len(),
{
    if parts.len() == 0 {
        Seq::empty()
    } else {
        flat(parts.drop_last()) + parts.last()
    }
}

/// What a run has to do: effects that repair an interrupted run, to be
/// carried out first, and then the states to enter in order.
#[derive(Clone, Debug, PartialEq, Eq)]
pub struct RunPlan {
    pub repair: Vec<Effect>,
    pub steps: Vec<VaultState>,
}

impl NormalSequence {
    pub closed spec fn list(&self) -> Seq<VaultState> {
        self.0@
    }

    pub fn new(states: Vec<VaultState>) -> (r: NormalSequence)
        ensures
            r.list() == states@,
    {
        NormalSequence(states)
    }

    pub fn pre_init() -> (r: NormalSequence)
        ensures
            r.list() == pre_init_states(),
    {
        let mut v: Vec<VaultState> = Vec::new();
        v.push(VaultState::InitFileSystem);
        v.push(VaultState::Seed);
        assert(v@ =~= pre_init_states());
        NormalSequence(v)
    }

    pub fn seal_partial() -> (r: NormalSequence)
        ensures
            r.list() == seal_partial_states(),
    {
        NormalSequence(seal_partial_list())
    }

    pub fn unseal_full() -> (r: NormalSequence)
        ensures
            r.list() == unseal_full_states(),
    {
        NormalSequence(unseal_full_list())
    }
}

impl ComposedSequence {
    pub closed spec fn parts(&self) -> Seq<Seq<VaultState>> {
        Seq::new(self.0@.len(), |i: int| self.0@[i].list())
    }

    pub fn new(parts: Vec<NormalSequence>) -> (r: ComposedSequence)
        ensures
            r.parts() == Seq::new(parts@.len(), |i: int| parts@[i].list()),
    {
        ComposedSequence(parts)
    }

    pub fn seal_full() -> (r: ComposedSequence)
        ensures
            flat(r.parts()) == seal_full_states(),
    {
        let mut tail: Vec<VaultState> = Vec::new();
        tail.push(VaultState::RestoreVaultGit);
        tail.push(VaultState::Sealed);
        let mut parts: Vec<NormalSequence> = Vec::new();
        parts.push(NormalSequence::seal_partial());
        parts.push(NormalSequence(tail));
        let r = ComposedSequence(parts);
        proof {
            let p = r.parts();
            assert(p.len() == 2);
            assert(p.drop_last().drop_last() =~= Seq::<Seq<VaultState>>::empty());
            assert(flat(p.drop_last().drop_last()) =~= Seq::<VaultState>::empty());
            assert(p.drop_last().last() == seal_partial_states());
            assert(flat(p.drop_last()) =~= seal_partial_states());
            assert(p.last() =~= seq![VaultState::RestoreVaultGit, VaultState::Sealed]);
        }
        r
    }

    pub fn init_full() -> (r: ComposedSequence)
        ensures
            flat(r.parts()) == init_full_states(),
    {
        let mut tail: Vec<VaultState> = Vec::new();
        tail.push(VaultState::MakeExternalGitRepo);
        tail.push(VaultState::MarkInitDone);
        tail.push(VaultState::Sealed);
        let mut parts: Vec<NormalSequence> = Vec::new();
        parts.push(NormalSequence::pre_init());
        parts.push(NormalSequence::seal_partial());
        parts.push(NormalSequence(tail));
        let r = ComposedSequence(parts);
        proof {
            let p = r.parts();
            assert(p.len() == 3);
            let two = p.drop_last();
            let one = two.drop_last();
            assert(one.drop_last() =~= Seq::<Seq<VaultState>>::empty());
            assert(flat(one.drop_last()) =~= Seq::<VaultState>::empty());
            assert(one.last() == pre_init_states());
            assert(flat(one) =~= pre_init_states());
            assert(two.last() == seal_partial_states());
            assert(flat(two) =~= pre_init_states() + seal_partial_states());
            assert(p.last() =~= seq![
                VaultState::MakeExternalGitRepo,
                VaultState::MarkInitDone,
                VaultState::Sealed,
            ]);
        }
        r
    }
}

/// The states that repairing `source` plays again: a step that can simply
/// be taken up again is re-entered, and the rest of its sequence follows.
pub open spec fn replays(source: VaultState) -> Seq<VaultState> {
    match source {
        VaultState::UnlinkPostSeal | VaultState::RelocateEncryptedBinaries
        | VaultState::WriteMandatoryPostSealFiles | VaultState::RestoreVaultGit => resume_from(
            seal_full_states(),
            source,
        ),
        VaultState::CleanupOldBinaries | VaultState::RestoreUnsecureFiles => resume_from(
            unseal_full_states(),
            source,
        ),
        _ => Seq::empty(),
    }
}

/// The steps of a run of `seq` on a vault whose state file records
/// `source`, with the init flag `init`: what the repair plays again, and
/// then the sequence itself unless the vault then already is where the
/// sequence would take it.
pub open spec fn steps_for(seq: Seq<VaultState>, source: VaultState, init: bool) -> Seq<VaultState> {
    if seq.len() > 0 && already_there(state_after_repair(source, init), seq[0]) {
        replays(source)
    } else {
        replays(source) + seq
    }
}

/// The state that a run of `seq` leaves on record when every step
/// succeeds: that of its last step, or, with no step to take, the state
/// that the repair left.
pub open spec fn end_state(seq: Seq<VaultState>, source: VaultState, init: bool) -> VaultState {
    let steps = steps_for(seq, source, init);
    if steps.len() > 0 {
        steps.last()
    } else {
        state_after_repair(source, init)
    }
}

/// The steps that `play` plans for `seq` on the context `before`.
pub open spec fn planned_steps(seq: Seq<VaultState>, before: Context) -> Seq<VaultState> {
    if seq.len() == 0 || before.fallthrough() {
        Seq::empty()
    } else if !before.starting() {
        seq
    } else {
        steps_for(
            seq,
            state_in(before.entries())->0,
            init_in(before.entries()) == Some(true),
        )
    }
}

/// Whether `plan` and `after` are what planning a run of `seq` leaves on
/// the context `before`: the steps are those planned, and the repair and
/// the context are as the startup gate leaves them. An empty sequence
/// plans nothing and leaves the context alone.
pub open spec fn played(
    seq: Seq<VaultState>,
    root: RootPath<Normal>,
    before: Context,
    after: Context,
    plan: RunPlan,
) -> bool {
    &&& plan.steps@ == planned_steps(seq, before)
    &&& if seq.len() == 0 {
        plan.repair@.len() == 0 && after.unchanged(before)
    } else {
        exists|interrupted: Option<VaultState>, go_on: bool| #[trigger]
            gate_result(root, seq[0], before, after, plan_of(plan.repair@), interrupted, go_on)
    }
}

/// Copies the states of `from`, starting at `start`, to the end of `to`.
fn extend_states(to: &mut Vec<VaultState>, from: &Vec<VaultState>, start: usize)
    requires
        start <= from.len(),
    ensures
        final(to)@ == old(to)@ + from@.skip(start as int),
{
    let mut i: usize = start;
    assert(from@.subrange(start as int, start as int) =~= Seq::<VaultState>::empty());
    assert(to@ + Seq::<VaultState>::empty() =~= to@);
    while i < from.len()
        invariant
            start <= i <= from.len(),
            to@ == old(to)@ + from@.subrange(start as int, i as int),
        decreases from.len() - i,
    {
        to.push(from[i]);
        assert(from@.subrange(start as int, i + 1) =~= from@.subrange(start as int, i as int).push(
            from@[i as int],
        ));
        i += 1;
    }
    assert(from@.subrange(start as int, from@.len() as int) =~= from@.skip(start as int));
}

/// The states of `states` from the first `pos` on.
fn resume_states(states: &Vec<VaultState>, pos: VaultState) -> (r: Vec<VaultState>)
    ensures
        r@ == resume_from(states@, pos),
{
    let mut i: usize = 0;
    while i < states.len() && states[i] != pos
        invariant
            i <= states.len(),
            forall|k: int| 0 <= k < i ==> states@[k] != pos,
        decreases states.len() - i,
    {
        i += 1;
    }
    proof {
        lemma_state_at_is(states@, 0, pos, i as int);
    }
    let mut r: Vec<VaultState> = Vec::new();
    extend_states(&mut r, states, i);
    assert(Seq::<VaultState>::empty() + states@.skip(i as int) =~= states@.skip(i as int));
    r
}

/// The states that repairing `source` plays again.
fn replay_states(source: VaultState) -> (r: Vec<VaultState>)
    requires
        resumes(source),
    ensures
        r@ == replays(source),
{
    match source {
        VaultState::CleanupOldBinaries | VaultState::RestoreUnsecureFiles => {
            let all = unseal_full_list();
            resume_states(&all, source)
        },
        _ => {
            let mut all = seal_partial_list();
            all.push(VaultState::RestoreVaultGit);
            all.push(VaultState::Sealed);
            assert(all@ =~= seal_full_states());
            resume_states(&all, source)
        },
    }
}

fn seal_partial_list() -> (v: Vec<VaultState>)
    ensures
        v@ == seal_partial_states(),
{
    let mut v: Vec<VaultState> = Vec::new();
    v.push(VaultState::RecreatingDirectories);
    v.push(VaultState::Encrypting);
    v.push(VaultState::UnlinkPostSeal);
    v.push(VaultState::RelocateEncryptedBinaries);
    v.push(VaultState::WriteMandatoryPostSealFiles);
    assert(v@ =~= seal_partial_states());
    v
}

fn unseal_full_list() -> (v: Vec<VaultState>)
    ensures
        v@ == unseal_full_states(),
{
    let mut v: Vec<VaultState> = Vec::new();
    v.push(VaultState::DecryptMainVault);
    v.push(VaultState::DecryptLocallySecuredVault);
    v.push(VaultState::StashExternalGitRepo);
    v.push(VaultState::DeleteSealedGitFiles);
    v.push(VaultState::ExpandMainVault);
    v.push(VaultState::ExpandLocalVault);
    v.push(VaultState::CleanupOldBinaries);
    v.push(VaultState::RestoreUnsecureFiles);
    v.push(VaultState::Unsealed);
    assert(v@ =~= unseal_full_states());
    v
}

/// A sequence of states that can be played.
pub trait Playable {
    /// The states of the sequence, in order.
    spec fn states(&self) -> Seq<VaultState>;

    fn iter(&self) -> (r: Vec<VaultState>)
        ensures
            r@ == self.states(),
    ;

    /// Plans a run of the sequence: passes the startup gate and says what
    /// is to be done. The host carries out the repair, then enters each
    /// step with `act`. A corrupt state file fails the plan and changes
    /// nothing; an empty sequence plans nothing and asks nothing of the state file.
    fn play(&self, root: &RootPath<Normal>, ctx: &mut Context) -> (r: Result<RunPlan, VaultError>)
        ensures
            r is Err <==> self.states().len() > 0 && gate_fails(*old(ctx)),
            r matches Err(e) ==> e == VaultError::StateCorruption && final(ctx).unchanged(
                *old(ctx),
            ),
            r matches Ok(plan) ==> played(self.states(), *root, *old(ctx), *final(ctx), plan),
    {
        let seq = self.iter();
        if seq.len() == 0 {
            return Ok(RunPlan { repair: Vec::new(), steps: Vec::new() });
        }
        let first = seq[0];
        let g = match ctx.startup_gate(root, first) {
            Ok(g) => g,
            Err(e) => {
                return Err(e);
            },
        };
        let GateResult { repair, interrupted, go_on } = g;
        let mut steps: Vec<VaultState> = match interrupted {
            Some(source) => replay_states(source),
            None => Vec::new(),
        };
        if go_on {
            extend_states(&mut steps, &seq, 0);
            assert(seq@.skip(0) =~= seq@);
        }
        proof {
            if !old(ctx).fallthrough() && old(ctx).starting() {
                let source = state_in(old(ctx).entries())->0;
                if !resumes(source) {
                    assert(replays(source) =~= Seq::<VaultState>::empty());
                }
            }
            assert(steps@ =~= planned_steps(self.states(), *old(ctx)));
        }
        let r: Result<RunPlan, VaultError> = Ok(RunPlan { repair, steps });
        proof {
            assert(gate_result(
                *root,
                self.states()[0],
                *old(ctx),
                *ctx,
                plan_of(r->Ok_0.repair@),
                interrupted,
                go_on,
            ));
        }
        r
    }

    /// What is left of the sequence from the first `pos` on; nothing where
    /// `pos` does not occur in it.
    fn resume(&self, pos: VaultState) -> (r: NormalSequence)
        ensures
            r.list() == resume_from(self.states(), pos),
    {
        let seq = self.iter();
        NormalSequence::new(resume_states(&seq, pos))
    }
}

impl Playable for NormalSequence {
    open spec fn states(&self) -> Seq<VaultState> {
        self.list()
    }

    fn iter(&self) -> (r: Vec<VaultState>) {
        self.0.clone()
    }
}

impl Playable for ComposedSequence {
    open spec fn states(&self) -> Seq<VaultState> {
        flat(self.parts())
    }

    fn iter(&self) -> (r: Vec<VaultState>) {
        let mut r: Vec<VaultState> = Vec::new();
        let mut i: usize = 0;
        assert(self.parts().take(0) =~= Seq::<Seq<VaultState>>::empty());
        while i < self.0.len()
            invariant
                i <= self.0.len(),
                r@ == flat(self.parts().take(i as int)),
            decreases self.0.len() - i,
        {
            proof {
                let now = self.parts().take(i + 1);
                assert(now.drop_last() =~= self.parts().take(i as int));
                assert(now.last() == self.0@[i as int].list());
            }
            extend_states(&mut r, &self.0[i].0, 0);
            assert(self.0@[i as int].0@.skip(0) =~= self.0@[i as int].list());
            i += 1;
        }
        assert(self.parts().take(i as int) =~= self.parts());
        r
    }
}

/// What a repair plays again starts with the interrupted state and ends in
/// the rest state that its sequence ends in.
pub proof fn lemma_replays(source: VaultState, init: bool)
    requires
        resumes(source),
    ensures
        replays(source).len() > 0,
        replays(source)[0] == source,
        replays(source).last() == state_after_repair(source, init),
        state_after_repair(source, init).rest(),
{
    let seal = seal_full_states();
    let unseal = unseal_full_states();
    assert(seal.len() == 7 && unseal.len() == 9);
    match source {
        VaultState::UnlinkPostSeal => {
            lemma_state_at_is(seal, 0, source, 2);
        },
        VaultState::RelocateEncryptedBinaries => {
            lemma_state_at_is(seal, 0, source, 3);
        },
        VaultState::WriteMandatoryPostSealFiles => {
            lemma_state_at_is(seal, 0, source, 4);
        },
        VaultState::RestoreVaultGit => {
            lemma_state_at_is(seal, 0, source, 5);
        },
        VaultState::CleanupOldBinaries => {
            lemma_state_at_is(unseal, 0, source, 6);
        },
        _ => {
            lemma_state_at_is(unseal, 0, source, 7);
        },
    }
}

/// A repair that plays nothing again leaves on record the state that it
/// falls back to.
pub proof fn lemma_repair_records(source: VaultState, e: Entries)
    requires
        !source.rest(),
        !resumes(source),
        !repair_fails(source, e),
    ensures
        state_in(repaired_entries(source, e)) == Some(
            state_after_repair(source, init_in(e) == Some(true)),
        ),
{
    let init = init_in(e) == Some(true);
    let target = repaired_state(source, init)->0;
    let cleared = if source == VaultState::MarkInitDone || (source
        == VaultState::MakeExternalGitRepo && init) {
        upsert(e, key_init(), flag_text(false))
    } else {
        e
    };
    lemma_keys_distinct();
    lemma_state_names_distinct(target, target);
    lemma_lookup_upsert(cleared, key_state(), target.name(), key_state());
}

/// A seal that succeeds leaves the vault sealed, whatever state was on
/// record when it started.
pub proof fn lemma_seal_ends_sealed(source: VaultState, init: bool)
    ensures
        end_state(seal_full_states(), source, init) == VaultState::Sealed,
{
    let seq = seal_full_states();
    assert(seq.len() == 7 && seq[0] == VaultState::RecreatingDirectories && seq.last()
        == VaultState::Sealed);
    if resumes(source) {
        lemma_replays(source, init);
    }
    let steps = steps_for(seq, source, init);
    if already_there(state_after_repair(source, init), seq[0]) {
        assert(steps == replays(source));
    } else {
        assert(steps.last() == seq.last());
    }
}

/// An unseal that succeeds leaves the vault unsealed, whatever state was on
/// record when it started.
pub proof fn lemma_unseal_ends_unsealed(source: VaultState, init: bool)
    ensures
        end_state(unseal_full_states(), source, init) == VaultState::Unsealed,
{
    let seq = unseal_full_states();
    assert(seq.len() == 9 && seq[0] == VaultState::DecryptMainVault && seq.last()
        == VaultState::Unsealed);
    if resumes(source) {
        lemma_replays(source, init);
    }
    let steps = steps_for(seq, source, init);
    if already_there(state_after_repair(source, init), seq[0]) {
        assert(steps == replays(source));
    } else {
        assert(steps.last() == seq.last());
    }
}

/// An initialisation that succeeds leaves the vault sealed.
pub proof fn lemma_init_ends_sealed(source: VaultState, init: bool)
    ensures
        end_state(init_full_states(), source, init) == VaultState::Sealed,
{
    let seq = init_full_states();
    assert(seq.len() == 10 && seq[0] == VaultState::InitFileSystem && seq.last()
        == VaultState::Sealed);
    let steps = steps_for(seq, source, init);
    assert(steps.last() == seq.last());
}

/// A run ends in a rest state where the sequence that was asked for does,
/// if the repair itself leaves one on record or takes a seal or unseal up
/// again.
pub proof fn lemma_run_ends_at_rest(seq: Seq<VaultState>, source: VaultState, init: bool)
    requires
        seq.len() > 0,
        seq.last().rest(),
        source.rest() || resumes(source) || (repaired_state(source, init) is Some
            && repaired_state(source, init)->0.rest()),
    ensures
        end_state(seq, source, init).rest(),
{
    if resumes(source) {
        lemma_replays(source, init);
    }
    let steps = steps_for(seq, source, init);
    if already_there(state_after_repair(source, init), seq[0]) {
        assert(steps == replays(source));
    } else {
        assert(steps.last() == seq.last());
    }
}

} // verus!
