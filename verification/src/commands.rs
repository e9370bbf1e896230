//! The commands: what each of them asks of the driver and of the remote.
//! Prompting, the terminal and the calls to git stay with the host.

use vstd::prelude::*;
use crate::actions::{gate_fails, gate_result, Context};
use crate::effects::plan_of;
use crate::error::VaultError;
use crate::keys::{unwrapped, CachedPassword, WrappedKey};
use crate::paths::{Normal, RootPath};
use crate::sequence::{played, 
    init_full_states, planned_steps, seal_full_states, unseal_full_states, ComposedSequence,
    NormalSequence, Playable, RunPlan,
};
use crate::statefile::{
    key_remote, lookup, parse_state, render, state_in, StateFileHandle, SyncMethod,
};
use crate::states::VaultState;
use crate::sync::{pushed, 
    backend_of, init_remote, linked, ops_of, publish_ops, pull_remote, push_fails, push_remote,
    remote_of, PullStart, RemoteOpView, RemotePlan,
};

verus! {

/// Whether a state file with the contents `contents` records `state`.
pub fn rests_in(contents: &str, state: VaultState) -> (r: bool)
    ensures
        r == (state_in(parse_state(contents@)) == Some(state)),
{
    let mut handle = StateFileHandle::new("", contents);
    match handle.get_state() {
        Ok(s) => s == state,
        Err(_) => false,
    }
}

/// Whether a run on the context `before` would start on a directory that
/// holds no vault: it is at its startup gate and the state on record is
/// `Uninit`.
pub open spec fn starts_uninitialized(before: Context) -> bool {
    !before.fallthrough() && before.starting() && state_in(before.entries()) == Some(
        VaultState::Uninit,
    )
}

/// The failure that planning a seal or an unseal is bound to meet.
pub open spec fn run_fails(before: Context) -> Option<VaultError> {
    if starts_uninitialized(before) {
        Some(VaultError::NotInitialized)
    } else if gate_fails(before) {
        Some(VaultError::StateCorruption)
    } else {
        None
    }
}

/// Plans a seal: the startup gate, then the seal sequence. A directory
/// that holds no vault is refused; so is a corrupt state file. A failure
/// changes nothing.
pub fn seal_full(root: &RootPath<Normal>, ctx: &mut Context) -> (r: Result<RunPlan, VaultError>)
    ensures
        r is Err <==> run_fails(*old(ctx)) is Some,
        r matches Err(e) ==> Some(e) == run_fails(*old(ctx)) && final(ctx).unchanged(*old(ctx)),
        r matches Ok(plan) ==> played(seal_full_states(), *root, *old(ctx), *final(ctx), plan),
{
    if uninitialized(ctx) {
        return Err(VaultError::NotInitialized);
    }
    let seq = ComposedSequence::seal_full();
    assert(seal_full_states().len() == 7);
    seq.play(root, ctx)
}

/// Plans an unseal: the startup gate, then the unseal sequence. A
/// directory that holds no vault is refused; so is a corrupt state file. A
/// failure changes nothing.
pub fn unseal(root: &RootPath<Normal>, ctx: &mut Context) -> (r: Result<RunPlan, VaultError>)
    ensures
        r is Err <==> run_fails(*old(ctx)) is Some,
        r matches Err(e) ==> Some(e) == run_fails(*old(ctx)) && final(ctx).unchanged(*old(ctx)),
        r matches Ok(plan) ==> played(unseal_full_states(), *root, *old(ctx), *final(ctx), plan),
{
    if uninitialized(ctx) {
        return Err(VaultError::NotInitialized);
    }
    let seq = NormalSequence::unseal_full();
    assert(unseal_full_states().len() == 9);
    seq.play(root, ctx)
}

fn uninitialized(ctx: &Context) -> (r: bool)
    ensures
        r == starts_uninitialized(*ctx),
{
    if ctx.fell_through() || !ctx.is_starting() {
        return false;
    }
    recorded_uninit(ctx.state_file())
}

fn recorded_uninit(state: &StateFileHandle) -> (r: bool)
    ensures
        r == (state_in(state.entries()) == Some(VaultState::Uninit)),
{
    match state.peek_state() {
        Ok(s) => s == VaultState::Uninit,
        Err(_) => false,
    }
}

/// Plans the initialisation of a directory. A directory that already has
/// its metadata is refused.
pub fn run_init(root: &RootPath<Normal>, ctx: &mut Context, initialized: bool) -> (r: Result<
    RunPlan,
    VaultError,
>)
    ensures
        r is Err <==> initialized || gate_fails(*old(ctx)),
        r matches Err(e) ==> final(ctx).unchanged(*old(ctx)) && e == if initialized {
            VaultError::AlreadyInitialized
        } else {
            VaultError::StateCorruption
        },
        r matches Ok(plan) ==> played(init_full_states(), *root, *old(ctx), *final(ctx), plan),
{
    if initialized {
        return Err(VaultError::AlreadyInitialized);
    }
    let seq = ComposedSequence::init_full();
    assert(init_full_states().len() == 10);
    seq.play(root, ctx)
}

/// What the sync gate does around an operation on the remote.
#[derive(Clone, Copy, Debug, PartialEq, Eq, Structural)]
pub enum Phase {
    Seal,
    Operate,
    Unseal,
}

/// The phases of an operation that needs the vault sealed: a sealed
/// vault is operated on as it is; an unsealed vault is sealed first and
/// unsealed again afterwards. In any other state the remote must not be
/// touched, and there are no phases.
pub open spec fn seal_phases(state: VaultState) -> Option<Seq<Phase>> {
    if state == VaultState::Sealed {
        Some(seq![Phase::Operate])
    } else if state == VaultState::Unsealed {
        Some(seq![Phase::Seal, Phase::Operate, Phase::Unseal])
    } else {
        None
    }
}

/// Plans an operation on the remote for a vault with `state` on record.
/// The remote is only ever worked on while the vault is sealed: a
/// directory that holds no vault is refused as not initialised, and a
/// vault that an interrupted run left in any other state is in the wrong
/// state until a seal or an unseal has repaired it.
pub fn require_seal(state: VaultState) -> (r: Result<Vec<Phase>, VaultError>)
    ensures
        r matches Ok(phases) ==> seal_phases(state) == Some(phases@),
        r matches Err(e) ==> seal_phases(state) is None && e == if state == VaultState::Uninit {
            VaultError::NotInitialized
        } else {
            VaultError::WrongState
        },
{
    let mut r: Vec<Phase> = Vec::new();
    match state {
        VaultState::Sealed => {
            r.push(Phase::Operate);
            assert(r@ =~= seq![Phase::Operate]);
            Ok(r)
        },
        VaultState::Unsealed => {
            r.push(Phase::Seal);
            r.push(Phase::Operate);
            r.push(Phase::Unseal);
            assert(r@ =~= seq![Phase::Seal, Phase::Operate, Phase::Unseal]);
            Ok(r)
        },
        VaultState::Uninit => Err(VaultError::NotInitialized),
        _ => Err(VaultError::WrongState),
    }
}

/// The remote is worked on only while the vault is sealed: the operation
/// is planned only for a sealed vault, or behind a seal.
pub proof fn lemma_operate_only_when_sealed(state: VaultState, k: int)
    requires
        seal_phases(state) is Some,
        0 <= k < seal_phases(state)->0.len(),
        seal_phases(state)->0[k] == Phase::Operate,
    ensures
        state == VaultState::Sealed || (k > 0 && seal_phases(state)->0[k - 1] == Phase::Seal),
{
}

/// What the sync gate reports once the vault is unsealed again: a failure
/// of the unseal first, and a failure of the operation only when the
/// unseal went through.
pub fn require_seal_with_retrieval(
    operation: Result<(), VaultError>,
    unseal: Result<(), VaultError>,
) -> (r: Result<(), VaultError>)
    ensures
        r == match unseal {
            Err(e) => Err::<(), VaultError>(e),
            Ok(_) => operation,
        },
{
    match unseal {
        Err(e) => Err(e),
        Ok(_) => operation,
    }
}

/// Plans a synchronisation with the remote under the timestamp `stamp`.
/// A vault without a remote is in the wrong state for it.
pub fn sync(root: &RootPath<Normal>, state: &mut StateFileHandle, stamp: &str) -> (r: Result<
    RemotePlan,
    VaultError,
>)
    ensures
        final(state).root() == old(state).root(),
        r is Err <==> lookup(old(state).entries(), key_remote()) is None || push_fails(
            old(state).entries(),
        ) is Some,
        r matches Err(e) ==> final(state).entries() == old(state).entries() && e == if lookup(
            old(state).entries(),
            key_remote(),
        ) is None {
            VaultError::WrongState
        } else {
            push_fails(old(state).entries())->0
        },
        r matches Ok(plan) ==> pushed(
            *root,
            old(state).entries(),
            stamp@,
            final(state).entries(),
            plan,
        ),
{
    if state.get_remote().is_none() {
        return Err(VaultError::WrongState);
    }
    push_remote(root, state, stamp)
}

/// Plans the linking of the sealed vault to the remote `url`, which is a
/// git URL of the form `git@...` or a bucket as `t3://<bucket>`. `stamp`
/// names the first snapshot in the object store.
pub fn link(root: &RootPath<Normal>, state: &mut StateFileHandle, url: &str, stamp: &str) -> (r: Result<
    RemotePlan,
    VaultError,
>)
    ensures
        final(state).root() == old(state).root(),
        r is Ok <==> remote_of(url@) is Some,
        r matches Err(e) ==> e == VaultError::RemoteError && final(state).entries() == old(
            state,
        ).entries(),
        r matches Ok(plan) ==> {
            &&& final(state).entries() == linked(old(state).entries(), url@, stamp@)
            &&& plan.commit is Some && plan.commit->0@ == render(final(state).entries())
            &&& ops_of(plan.ops@) == match backend_of(url@) {
                SyncMethod::Git => seq![
                    RemoteOpView::AddRemoteOrigin { url: url@ },
                    RemoteOpView::BranchMain,
                    RemoteOpView::AddCommitPush,
                ],
                SyncMethod::TigrisS3 => publish_ops(*root, stamp@),
            }
        },
{
    init_remote(root, state, url, stamp)
}

/// Plans the start of a pull from the remote `url`. `initialized` says
/// whether the directory already has its metadata, in which case the pull
/// is refused.
pub fn pull(url: &str, initialized: bool) -> (r: Result<PullStart, VaultError>)
    ensures
        initialized ==> r is Err && r->Err_0 == VaultError::AlreadyInitialized,
        !initialized ==> match remote_of(url@) {
            None => r is Err && r->Err_0 == VaultError::RemoteError,
            Some((SyncMethod::Git, u)) => r matches Ok(PullStart::Clone { url: c }) && c@ == u,
            Some((SyncMethod::TigrisS3, b)) => r matches Ok(PullStart::FetchLock { bucket }) && bucket@
                == b,
        },
{
    pull_remote(url, initialized)
}

/// What a key does in an editing session.
#[derive(Clone, Copy, Debug, PartialEq, Eq, Structural)]
pub enum KeyAction {
    /// Leave the session and seal the vault again.
    Quit,
    /// Synchronise with the remote.
    Synchronize,
    Ignore,
}

/// `q` and Ctrl+C end the session; `s` synchronises; other keys do nothing.
pub open spec fn key_meaning(key: char, control: bool) -> KeyAction {
    if key == 'q' || (key == 'c' && control) {
        KeyAction::Quit
    } else if key == 's' {
        KeyAction::Synchronize
    } else {
        KeyAction::Ignore
    }
}

pub fn key_action(key: char, control: bool) -> (r: KeyAction)
    ensures
        r == key_meaning(key, control),
{
    if key == 'q' || (key == 'c' && control) {
        KeyAction::Quit
    } else if key == 's' {
        KeyAction::Synchronize
    } else {
        KeyAction::Ignore
    }
}

/// Plans the end of an editing session: a vault that is on record as
/// unsealed is sealed again, by a run of its own; any other is left as it
/// is.
pub fn close_session(root: &RootPath<Normal>, ctx: &mut Context, state_text: &str) -> (r: Option<
    RunPlan,
>)
    ensures
        r is Some <==> state_in(parse_state(state_text@)) == Some(VaultState::Unsealed),
        r matches Some(plan) ==> plan.steps@ == seal_full_states() && plan.repair@.len() == 0,
        r is Some ==> final(ctx).entries() == parse_state(state_text@) && !final(ctx).starting()
            && !final(ctx).fallthrough(),
        r is None ==> final(ctx).unchanged(*old(ctx)),
{
    if !rests_in(state_text, VaultState::Unsealed) {
        return None;
    }
    ctx.reload(state_text);
    ctx.begin_run();
    let ghost before = *ctx;
    match seal_full(root, ctx) {
        Ok(plan) => {
            proof {
                let seq = seal_full_states();
                assert(seq.len() == 7);
                assert(seq[0] == VaultState::RecreatingDirectories);
                assert(crate::sequence::replays(VaultState::Unsealed) =~= Seq::<
                    VaultState,
                >::empty());
                assert(Seq::<VaultState>::empty() + seq =~= seq);
                let found = choose|interrupted: Option<VaultState>, go_on: bool| #[trigger]
                    gate_result(
                        *root,
                        seq[0],
                        before,
                        *ctx,
                        plan_of(plan.repair@),
                        interrupted,
                        go_on,
                    );
                assert(gate_result(
                    *root,
                    seq[0],
                    before,
                    *ctx,
                    plan_of(plan.repair@),
                    found.0,
                    found.1,
                ));
                assert(plan_of(plan.repair@).len() == 0);
            }
            Some(plan)
        },
        Err(_) => {
            assert(false);
            None
        },
    }
}

/// Settles on a password: the first entry, or, where a confirmation was
/// asked for, the first entry if the second is the same. Entries that
/// differ are an authentication failure.
pub fn prompt_password(first: CachedPassword, confirmation: Option<CachedPassword>) -> (r: Result<
    CachedPassword,
    VaultError,
>)
    ensures
        r matches Ok(p) ==> p@ == first@ && (confirmation matches Some(second) ==> second@
            == first@),
        r matches Err(e) ==> e == VaultError::AuthError && confirmation is Some
            && confirmation->0@ != first@,
{
    match confirmation {
        None => Ok(first),
        Some(second) => {
            if first.same_as(&second) {
                Ok(first)
            } else {
                Err(VaultError::AuthError)
            }
        },
    }
}

/// Tries the password that the environment offers, if any: it is taken
/// where it opens the wrapped key, and otherwise the user has to be asked.
pub fn fetch_password(wrapped: &WrappedKey, offered: Option<String>) -> (r: Option<CachedPassword>)
    ensures
        r matches Some(p) ==> offered is Some && p@ == vstd::utf8::encode_utf8(offered->0@)
            && unwrapped(wrapped@, p@) is Some,
        r is None ==> offered is None || unwrapped(
            wrapped@,
            vstd::utf8::encode_utf8(offered->0@),
        ) is None,
{
    match offered {
        None => None,
        Some(text) => {
            let candidate = CachedPassword::from_string(text);
            match wrapped.get_master_key_with_no_rewrap(&candidate) {
                Ok(_) => Some(candidate),
                Err(_) => None,
            }
        },
    }
}

} // verus!
