//! The detach protocol: how a foreground command becomes a background
//! process group of its own, with a record in the registry, and how two
//! starts of one project are kept apart.
//!
//! The caller first claims the project's name, which only one process can
//! hold at a time, and under the claim looks into the registry once more: a
//! name that is claimed or live is left alone. Then the process is
//! duplicated twice. The caller's side waits for the first duplicate, gives
//! the claim back and returns. The first duplicate starts a session, whose
//! identifier is the instance's handle, has the record written, and
//! duplicates again; it then exits, which ends the caller's wait. The second
//! duplicate replaces itself with the command. Every process that takes part
//! follows `step` from `begin`, each with the events that it sees itself.

use crate::envs::keys_distinct;
use crate::live::is_live;
use crate::project::{Project, ProjectView, RunningProject, RunningView};
use crate::text::copy;
use vstd::prelude::*;

verus! {

/// What a duplication of the process returns: on the parent's side the
/// child's identifier, on the child's side nothing.
#[derive(Clone, Copy, Debug, PartialEq, Eq, Structural)]
pub enum Fork {
    Parent(i32),
    Child,
}

/// Where a process stands in the protocol.
#[derive(Clone, Copy, Debug, PartialEq, Eq, Structural)]
pub enum DaemonState {
    /// The claim of the project's name was asked for.
    Claiming,
    /// The claim is held; the registry was asked whether the name is live.
    Looking,
    /// The claim is held; the first duplication was asked for.
    Launching,
    /// The caller's side waits for the session branch to exit.
    Reaping,
    /// The caller's side gives the claim back after a detachment.
    Releasing,
    /// The caller's side gives the claim back because the name is live.
    Declining,
    /// The caller's side gives the claim back after a failure.
    Failing,
    /// The session branch asked for a session of its own.
    Detaching,
    /// The session branch asked for the record under the handle.
    Recording(i32),
    /// The session branch asked for the second duplication.
    Orphaning(i32),
    /// The exec branch asked to be replaced by the command.
    Executing(i32),
    /// The caller's side has nothing more to do in the protocol.
    Finished,
    /// A duplicate has ended.
    Exited,
}

/// What the platform reports back to a process.
#[derive(Clone, Copy, Debug, PartialEq, Eq, Structural)]
pub enum DaemonEvent {
    /// The name was free and is now claimed by this process.
    Claimed,
    /// Another process holds the claim of the name.
    ClaimTaken,
    /// The claim could not be asked for.
    ClaimFailed,
    /// The registry holds no live instance of the name.
    Vacant,
    /// The registry holds a live instance of the name.
    Occupied,
    /// The registry could not be read.
    LookFailed,
    /// The claim was given back, or could not be.
    Released,
    /// The process was duplicated.
    Forked(Fork),
    /// The process could not be duplicated.
    ForkFailed,
    /// The child that was waited for has exited.
    Reaped,
    /// The wait for the child failed.
    WaitFailed,
    /// A session was started; its identifier is the handle.
    SessionStarted(i32),
    /// No session could be started.
    SessionFailed,
    /// The record was written.
    Recorded,
    /// The record could not be written.
    RecordFailed,
    /// The process could not be replaced by the command.
    ExecFailed,
}

/// What a process is to do next.
#[derive(Clone, Copy, Debug, PartialEq, Eq, Structural)]
pub enum DaemonAction {
    /// Claim the project's name: create the claim if and only if there is none.
    Claim,
    /// Read the registry and say whether an instance of the name is live.
    Look,
    /// Give the claim back.
    Release,
    /// Duplicate the process.
    Fork,
    /// Wait for the child with this identifier to exit.
    Wait(i32),
    /// Start a session and leave the controlling terminal.
    NewSession,
    /// Write the instance's record under this handle.
    Record(i32),
    /// Send the output to the log file, empty the input, and replace the
    /// process by the command.
    Exec,
    /// End the process with this exit code.
    Exit(i32),
    /// Hand control back to the caller: the instance is detached.
    Return,
    /// Hand control back to the caller: the project runs already, or is
    /// being started by another process; nothing was detached.
    AlreadyRunning,
    /// Hand control back to the caller: no process could be created.
    Fail,
}

/// A state with the action that a process takes on entering it.
#[derive(Clone, Copy, Debug, PartialEq, Eq, Structural)]
pub struct DaemonStep {
    pub state: DaemonState,
    pub action: DaemonAction,
}

/// Whether the state belongs to a process that left the caller: one of the
/// duplicates, which must end by exiting and never by returning.
pub open spec fn detached(state: DaemonState) -> bool {
    state is Detaching || state is Recording || state is Orphaning || state is Executing
        || state is Exited
}

/// Whether the state belongs to the caller's side while it holds the claim
/// and has not yet asked to give it back.
pub open spec fn holds_claim(state: DaemonState) -> bool {
    state is Looking || state is Launching || state is Reaping
}

/// How the protocol begins: with the claim of the project's name.
pub open spec fn initial() -> DaemonStep {
    DaemonStep { state: DaemonState::Claiming, action: DaemonAction::Claim }
}

/// How a process ends on an event that its state does not expect: a
/// duplicate exits with a failure; the caller's side fails, after giving the
/// claim back where it holds it.
pub open spec fn give_up(state: DaemonState) -> DaemonStep {
    if detached(state) {
        DaemonStep { state: DaemonState::Exited, action: DaemonAction::Exit(1) }
    } else if holds_claim(state) {
        DaemonStep { state: DaemonState::Failing, action: DaemonAction::Release }
    } else {
        DaemonStep { state: DaemonState::Finished, action: DaemonAction::Fail }
    }
}

/// The protocol's transitions.
pub open spec fn transition(state: DaemonState, event: DaemonEvent) -> DaemonStep {
    match (state, event) {
        (DaemonState::Claiming, DaemonEvent::Claimed) => DaemonStep {
            state: DaemonState::Looking,
            action: DaemonAction::Look,
        },
        (DaemonState::Claiming, DaemonEvent::ClaimTaken) => DaemonStep {
            state: DaemonState::Finished,
            action: DaemonAction::AlreadyRunning,
        },
        (DaemonState::Looking, DaemonEvent::Vacant) => DaemonStep {
            state: DaemonState::Launching,
            action: DaemonAction::Fork,
        },
        (DaemonState::Looking, DaemonEvent::Occupied) => DaemonStep {
            state: DaemonState::Declining,
            action: DaemonAction::Release,
        },
        (DaemonState::Launching, DaemonEvent::Forked(Fork::Parent(child))) => DaemonStep {
            state: DaemonState::Reaping,
            action: DaemonAction::Wait(child),
        },
        (DaemonState::Launching, DaemonEvent::Forked(Fork::Child)) => DaemonStep {
            state: DaemonState::Detaching,
            action: DaemonAction::NewSession,
        },
        (DaemonState::Reaping, DaemonEvent::Reaped) => DaemonStep {
            state: DaemonState::Releasing,
            action: DaemonAction::Release,
        },
        (DaemonState::Releasing, _) => DaemonStep {
            state: DaemonState::Finished,
            action: DaemonAction::Return,
        },
        (DaemonState::Declining, _) => DaemonStep {
            state: DaemonState::Finished,
            action: DaemonAction::AlreadyRunning,
        },
        (DaemonState::Detaching, DaemonEvent::SessionStarted(handle)) => DaemonStep {
            state: DaemonState::Recording(handle),
            action: DaemonAction::Record(handle),
        },
        (DaemonState::Recording(handle), DaemonEvent::Recorded) => DaemonStep {
            state: DaemonState::Orphaning(handle),
            action: DaemonAction::Fork,
        },
        (DaemonState::Orphaning(handle), DaemonEvent::Forked(Fork::Parent(child))) => DaemonStep {
            state: DaemonState::Exited,
            action: DaemonAction::Exit(0),
        },
        (DaemonState::Orphaning(handle), DaemonEvent::Forked(Fork::Child)) => DaemonStep {
            state: DaemonState::Executing(handle),
            action: DaemonAction::Exec,
        },
        _ => give_up(state),
    }
}

/// The actions that a process takes, in order, on a sequence of events.
pub open spec fn actions_on(events: Seq<DaemonEvent>) -> Seq<DaemonAction>
    decreases events.len(),
{
    if events.len() == 0 {
        seq![initial().action]
    } else {
        actions_on(events.drop_last()).push(
            transition(state_on(events.drop_last()), events.last()).action,
        )
    }
}

/// The state that a process is in after a sequence of events.
pub open spec fn state_on(events: Seq<DaemonEvent>) -> DaemonState
    decreases events.len(),
{
    if events.len() == 0 {
        initial().state
    } else {
        transition(state_on(events.drop_last()), events.last()).state
    }
}

/// What a look into the registry says of the name, under the claim.
pub open spec fn look_event(live: Seq<RunningView>, name: Seq<char>) -> DaemonEvent {
    if is_live(live, name) {
        DaemonEvent::Occupied
    } else {
        DaemonEvent::Vacant
    }
}

/// Says what a look into the registry found: the name is occupied where an
/// instance of the project is live, and vacant where none is.
pub fn look(project: &Project, live: &Vec<RunningProject>) -> (r: DaemonEvent)
    ensures
        r == look_event(live.deep_view(), project@.name),
{
    if project.is_running(live) {
        DaemonEvent::Occupied
    } else {
        DaemonEvent::Vacant
    }
}

/// The first step of the protocol.
pub fn begin() -> (r: DaemonStep)
    ensures
        r == initial(),
{
    DaemonStep { state: DaemonState::Claiming, action: DaemonAction::Claim }
}

/// How a process in `state` ends on an event that the state does not expect.
fn stop_from(state: DaemonState) -> (r: DaemonStep)
    ensures
        r == give_up(state),
{
    match state {
        DaemonState::Detaching
        | DaemonState::Recording(_)
        | DaemonState::Orphaning(_)
        | DaemonState::Executing(_)
        | DaemonState::Exited => DaemonStep {
            state: DaemonState::Exited,
            action: DaemonAction::Exit(1),
        },
        DaemonState::Looking | DaemonState::Launching | DaemonState::Reaping => DaemonStep {
            state: DaemonState::Failing,
            action: DaemonAction::Release,
        },
        _ => DaemonStep { state: DaemonState::Finished, action: DaemonAction::Fail },
    }
}

/// The next step of the protocol, for a process in `state` that sees `event`.
pub fn step(state: DaemonState, event: DaemonEvent) -> (r: DaemonStep)
    ensures
        r == transition(state, event),
{
    match state {
        DaemonState::Claiming => match event {
            DaemonEvent::Claimed => DaemonStep {
                state: DaemonState::Looking,
                action: DaemonAction::Look,
            },
            DaemonEvent::ClaimTaken => DaemonStep {
                state: DaemonState::Finished,
                action: DaemonAction::AlreadyRunning,
            },
            _ => stop_from(state),
        },
        DaemonState::Looking => match event {
            DaemonEvent::Vacant => DaemonStep {
                state: DaemonState::Launching,
                action: DaemonAction::Fork,
            },
            DaemonEvent::Occupied => DaemonStep {
                state: DaemonState::Declining,
                action: DaemonAction::Release,
            },
            _ => stop_from(state),
        },
        DaemonState::Launching => match event {
            DaemonEvent::Forked(Fork::Parent(child)) => DaemonStep {
                state: DaemonState::Reaping,
                action: DaemonAction::Wait(child),
            },
            DaemonEvent::Forked(Fork::Child) => DaemonStep {
                state: DaemonState::Detaching,
                action: DaemonAction::NewSession,
            },
            _ => stop_from(state),
        },
        DaemonState::Reaping => match event {
            DaemonEvent::Reaped => DaemonStep {
                state: DaemonState::Releasing,
                action: DaemonAction::Release,
            },
            _ => stop_from(state),
        },
        DaemonState::Releasing => DaemonStep {
            state: DaemonState::Finished,
            action: DaemonAction::Return,
        },
        DaemonState::Declining => DaemonStep {
            state: DaemonState::Finished,
            action: DaemonAction::AlreadyRunning,
        },
        DaemonState::Detaching => match event {
            DaemonEvent::SessionStarted(handle) => DaemonStep {
                state: DaemonState::Recording(handle),
                action: DaemonAction::Record(handle),
            },
            _ => stop_from(state),
        },
        DaemonState::Recording(handle) => match event {
            DaemonEvent::Recorded => DaemonStep {
                state: DaemonState::Orphaning(handle),
                action: DaemonAction::Fork,
            },
            _ => stop_from(state),
        },
        DaemonState::Orphaning(handle) => match event {
            DaemonEvent::Forked(Fork::Parent(_)) => DaemonStep {
                state: DaemonState::Exited,
                action: DaemonAction::Exit(0),
            },
            DaemonEvent::Forked(Fork::Child) => DaemonStep {
                state: DaemonState::Executing(handle),
                action: DaemonAction::Exec,
            },
            _ => stop_from(state),
        },
        DaemonState::Failing => stop_from(state),
        DaemonState::Executing(_) => stop_from(state),
        DaemonState::Finished => stop_from(state),
        DaemonState::Exited => stop_from(state),
    }
}

/// Whether the action ends a process or hands it over: what only a
/// duplicate may do.
pub open spec fn leaves_caller(action: DaemonAction) -> bool {
    action is NewSession || action is Record || action is Exec || action is Exit
}

/// Whether the action belongs to the caller's code: what only the caller's
/// side may do.
pub open spec fn returns_to_caller(action: DaemonAction) -> bool {
    action is Claim || action is Look || action is Release || action is Wait || action is Return
        || action is AlreadyRunning || action is Fail
}

/// Whether the action makes a process, a session or a record, or runs the
/// command: what happens only under the claim of a name that is not live.
pub open spec fn detaches(action: DaemonAction) -> bool {
    action is Fork || action is Wait || action is NewSession || action is Record || action is Exec
}

/// The two sides stay apart. A duplicate stays a duplicate and never hands
/// control back to the caller's code; the caller's side never exits, writes
/// a record or runs the command, and becomes a duplicate only as the child
/// of the first duplication.
pub proof fn law_sides_stay_apart(state: DaemonState, event: DaemonEvent)
    ensures
        detached(state) ==> detached(transition(state, event).state) && !returns_to_caller(
            transition(state, event).action,
        ),
        !detached(state) && !detached(transition(state, event).state) ==> !leaves_caller(
            transition(state, event).action,
        ),
        !detached(state) && detached(transition(state, event).state) ==> state
            == DaemonState::Launching && event == DaemonEvent::Forked(Fork::Child),
{
}

/// Whether a record under `handle` was asked for among the first `n` actions.
pub open spec fn recorded_within(actions: Seq<DaemonAction>, handle: i32, n: int) -> bool {
    exists|j: int| 0 <= j < n && j < actions.len() && #[trigger] actions[j] == DaemonAction::Record(handle)
}

/// The handle that a state carries.
pub open spec fn handle_of(state: DaemonState) -> Option<i32> {
    match state {
        DaemonState::Recording(h) => Some(h),
        DaemonState::Orphaning(h) => Some(h),
        DaemonState::Executing(h) => Some(h),
        _ => None,
    }
}

/// The record comes before the command. Whatever the events, a process that
/// asks to be replaced by the command has asked before for the record of the
/// session that it is in; and a state carries a handle only after the record
/// under that handle was asked for.
pub proof fn law_record_before_exec(events: Seq<DaemonEvent>)
    ensures
        actions_on(events).len() == events.len() + 1,
        handle_of(state_on(events)) is Some ==> recorded_within(
            actions_on(events),
            handle_of(state_on(events))->0,
            actions_on(events).len() as int,
        ),
        forall|k: int|
            0 <= k < actions_on(events).len() && #[trigger] actions_on(events)[k]
                == DaemonAction::Exec ==> exists|h: i32| recorded_within(actions_on(events), h, k),
    decreases events.len(),
{
    if events.len() == 0 {
        return ;
    }
    let before = events.drop_last();
    let prev = actions_on(before);
    let now = actions_on(events);
    let s = state_on(before);
    let step = transition(s, events.last());
    law_record_before_exec(before);
    assert(now == prev.push(step.action));
    if handle_of(step.state) is Some {
        let h = handle_of(step.state)->0;
        if s == DaemonState::Detaching {
            assert(now[prev.len() as int] == DaemonAction::Record(h));
        } else {
            assert(handle_of(s) == Some(h));
            let j = choose|j: int|
                0 <= j < prev.len() && j < prev.len() && #[trigger] prev[j] == DaemonAction::Record(h);
            assert(now[j] == DaemonAction::Record(h));
        }
    }
    assert forall|k: int|
        0 <= k < now.len() && #[trigger] now[k] == DaemonAction::Exec implies exists|h: i32|
        recorded_within(now, h, k) by {
        if k < prev.len() {
            assert(prev[k] == DaemonAction::Exec);
            let h = choose|h: i32| recorded_within(prev, h, k);
            let j = choose|j: int|
                0 <= j < k && j < prev.len() && #[trigger] prev[j] == DaemonAction::Record(h);
            assert(now[j] == DaemonAction::Record(h));
            assert(recorded_within(now, h, k));
        } else {
            assert(s is Orphaning);
            let h = handle_of(s)->0;
            let j = choose|j: int|
                0 <= j < prev.len() && j < prev.len() && #[trigger] prev[j] == DaemonAction::Record(h);
            assert(now[j] == DaemonAction::Record(h));
            assert(recorded_within(now, h, k));
        }
    }
}

/// Whether the events begin with the claim of the name and the look that
/// found no live instance of it.
pub open spec fn claimed_vacant(events: Seq<DaemonEvent>) -> bool {
    events.len() >= 2 && events[0] == DaemonEvent::Claimed && events[1] == DaemonEvent::Vacant
}

/// Whether the state is one that a process is in only after a detachment began.
pub open spec fn under_way(state: DaemonState) -> bool {
    state is Launching || state is Reaping || state is Releasing || state is Detaching
        || state is Recording || state is Orphaning || state is Executing || state is Exited
}

/// The claim comes before everything. Whatever the events, a process
/// duplicates itself, starts a session, asks for a record or runs the
/// command only after it was given the claim of the name and then found no
/// live instance of the name in the registry.
pub proof fn law_claim_before_detach(events: Seq<DaemonEvent>)
    ensures
        under_way(state_on(events)) ==> claimed_vacant(events),
        forall|k: int|
            0 <= k < actions_on(events).len() && detaches(#[trigger] actions_on(events)[k])
                ==> claimed_vacant(events) && k >= 2,
    decreases events.len(),
{
    if events.len() == 0 {
        return ;
    }
    let before = events.drop_last();
    let prev = actions_on(before);
    let now = actions_on(events);
    let s = state_on(before);
    let step = transition(s, events.last());
    law_claim_before_detach(before);
    law_record_before_exec(before);
    assert(now == prev.push(step.action));
    if claimed_vacant(before) {
        assert(events[0] == before[0] && events[1] == before[1]);
    }
    if under_way(step.state) {
        if s is Looking {
            assert(before.len() == 1 && before[0] == DaemonEvent::Claimed) by {
                lemma_looking(before);
            }
        } else {
            assert(under_way(s));
        }
    }
    assert forall|k: int| 0 <= k < now.len() && detaches(#[trigger] now[k]) implies claimed_vacant(
        events,
    ) && k >= 2 by {
        if k < prev.len() {
            assert(prev[k] == now[k]);
        } else {
            assert(now[k] == step.action);
            if s is Looking {
                lemma_looking(before);
            } else {
                assert(under_way(s));
            }
        }
    }
}

/// A process looks into the registry only right after it was given the claim.
pub proof fn lemma_looking(events: Seq<DaemonEvent>)
    requires
        state_on(events) is Looking,
    ensures
        events.len() == 1,
        events[0] == DaemonEvent::Claimed,
    decreases events.len(),
{
    if events.len() > 0 {
        let before = events.drop_last();
        if before.len() > 0 {
            lemma_never_claiming_again(before);
        }
    }
}

/// A process asks for the claim once, at the beginning.
pub proof fn lemma_never_claiming_again(events: Seq<DaemonEvent>)
    requires
        events.len() > 0,
    ensures
        !(state_on(events) is Claiming),
    decreases events.len(),
{
}

/// A name that is taken is left alone. Where another process holds the
/// claim, or the registry holds a live instance of the name, the process
/// duplicates nothing, starts no session, asks for no record and runs no
/// command, and it hands back to the caller that the project runs already.
pub proof fn law_taken_name_is_left_alone(events: Seq<DaemonEvent>)
    requires
        events.len() > 0,
        events[0] == DaemonEvent::ClaimTaken || (events[0] == DaemonEvent::Claimed && events.len()
            > 1 && events[1] == DaemonEvent::Occupied),
    ensures
        forall|k: int|
            0 <= k < actions_on(events).len() ==> !detaches(#[trigger] actions_on(events)[k]),
        events[0] == DaemonEvent::ClaimTaken ==> actions_on(events)[1]
            == DaemonAction::AlreadyRunning,
        events[0] == DaemonEvent::Claimed ==> actions_on(events)[2] == DaemonAction::Release,
        events[0] == DaemonEvent::Claimed && events.len() > 2 ==> actions_on(events)[3]
            == DaemonAction::AlreadyRunning,
{
    law_claim_before_detach(events);
    law_record_before_exec(events);
    lemma_prefix_actions(events, 1);
    assert(events.take(1).drop_last() =~= Seq::<DaemonEvent>::empty());
    assert(events.take(1).last() == events[0]);
    if events[0] == DaemonEvent::Claimed {
        lemma_prefix_actions(events, 2);
        assert(events.take(2).drop_last() =~= events.take(1));
        assert(events.take(2).last() == events[1]);
        if events.len() > 2 {
            lemma_prefix_actions(events, 3);
            assert(events.take(3).drop_last() =~= events.take(2));
        }
    }
}

/// The events of a process that was given the claim and then looked into
/// the registry `live` for `name`, with what it saw afterwards.
pub open spec fn looked(live: Seq<RunningView>, name: Seq<char>, rest: Seq<DaemonEvent>) -> Seq<
    DaemonEvent,
> {
    Seq::empty().push(DaemonEvent::Claimed).push(look_event(live, name)) + rest
}

/// No second instance. Where the registry holds a live instance of the
/// project when the process looks under its claim, the process makes no
/// process, no session and no record, whatever happens after the look.
pub proof fn law_live_name_gets_no_second_record(
    live: Seq<RunningView>,
    name: Seq<char>,
    rest: Seq<DaemonEvent>,
)
    requires
        is_live(live, name),
    ensures
        forall|k: int|
            0 <= k < actions_on(looked(live, name, rest)).len() ==> !detaches(
                #[trigger] actions_on(looked(live, name, rest))[k],
            ),
{
    let events = looked(live, name, rest);
    assert(events[0] == DaemonEvent::Claimed);
    assert(events[1] == DaemonEvent::Occupied);
    law_taken_name_is_left_alone(events);
}

/// The actions on the first events are the first actions on all events.
pub proof fn lemma_prefix_actions(events: Seq<DaemonEvent>, n: int)
    requires
        0 <= n <= events.len(),
    ensures
        actions_on(events.take(n)).len() == n + 1,
        actions_on(events).len() == events.len() + 1,
        forall|k: int| 0 <= k <= n ==> actions_on(events.take(n))[k] == actions_on(events)[k],
    decreases events.len() - n,
{
    law_record_before_exec(events);
    law_record_before_exec(events.take(n));
    if n == events.len() {
        assert(events.take(n) =~= events);
    } else {
        lemma_prefix_actions(events, n + 1);
        assert(events.take(n + 1).drop_last() =~= events.take(n));
    }
}

/// The claim is given back. Whatever the events, the caller's side hands
/// control back after a claim only once it has asked to give the claim back.
pub proof fn law_claim_is_given_back(events: Seq<DaemonEvent>)
    requires
        events.len() > 0,
        events[0] == DaemonEvent::Claimed,
    ensures
        state_on(events) is Finished ==> exists|j: int|
            0 <= j < actions_on(events).len() && #[trigger] actions_on(events)[j]
                == DaemonAction::Release,
        state_on(events) is Releasing || state_on(events) is Declining || state_on(events)
            is Failing ==> actions_on(events).last() == DaemonAction::Release,
    decreases events.len(),
{
    let before = events.drop_last();
    let prev = actions_on(before);
    let now = actions_on(events);
    let s = state_on(before);
    law_record_before_exec(before);
    if before.len() > 0 {
        assert(before[0] == events[0]);
        law_claim_is_given_back(before);
        lemma_never_claiming_again(before);
        if state_on(events) is Finished {
            if s is Finished {
                let j = choose|j: int| 0 <= j < prev.len() && #[trigger] prev[j] == DaemonAction::Release;
                assert(now[j] == DaemonAction::Release);
            } else {
                assert(s is Releasing || s is Declining || s is Failing);
                assert(now[prev.len() - 1] == DaemonAction::Release);
            }
        }
    }
}

/// The command of a process: the program, its arguments, its directory and
/// its environment, each variable once.
#[derive(Clone, Debug, PartialEq, Eq)]
pub struct Invocation {
    pub program: String,
    pub args: Vec<String>,
    pub cwd: String,
    pub envs: Vec<(String, String)>,
}

/// The command of a process, as mathematical values.
pub struct InvocationView {
    pub program: Seq<char>,
    pub args: Seq<Seq<char>>,
    pub cwd: Seq<char>,
    pub envs: Seq<(Seq<char>, Seq<char>)>,
}

impl View for Invocation {
    type V = InvocationView;

    open spec fn view(&self) -> InvocationView {
        InvocationView {
            program: self.program@,
            args: self.args.deep_view(),
            cwd: self.cwd@,
            envs: self.envs.deep_view(),
        }
    }
}

impl DeepView for Invocation {
    type V = InvocationView;

    open spec fn deep_view(&self) -> InvocationView {
        self@
    }
}

impl ProjectView {
    /// The command that runs the project: the first word of `command` is
    /// the program, the others are its arguments. A project without a word
    /// has none.
    pub open spec fn invocation(self) -> Option<InvocationView> {
        if self.command.len() == 0 {
            None
        } else {
            Some(
                InvocationView {
                    program: self.command[0],
                    args: self.command.skip(1),
                    cwd: self.cwd,
                    envs: match self.envs {
                        Some(e) => e,
                        None => Seq::empty(),
                    },
                },
            )
        }
    }
}

impl Project {
    /// The command that runs the project, if it has one: what a run in the
    /// foreground executes, and what the last duplicate of a detached start
    /// is replaced by.
    pub fn run(&self) -> (r: Option<Invocation>)
        ensures
            r.deep_view() == self@.invocation(),
            r matches Some(call) ==> keys_distinct(call.envs.deep_view()),
    {
        if self.command.len() == 0 {
            return None;
        }
        let mut args: Vec<String> = Vec::new();
        let mut i: usize = 1;
        while i < self.command.len()
            invariant
                1 <= i <= self.command.len(),
                args.len() == i - 1,
                forall|k: int| 0 <= k < i - 1 ==> args[k]@ == self.command[k + 1]@,
            decreases self.command.len() - i,
        {
            args.push(copy(&self.command[i]));
            i += 1;
        }
        assert(args.deep_view() =~= self@.command.skip(1));
        let envs: Vec<(String, String)> = match &self.envs {
            Some(e) => e.pairs(),
            None => {
                let none: Vec<(String, String)> = Vec::new();
                assert(none.deep_view() =~= Seq::<(Seq<char>, Seq<char>)>::empty());
                none
            },
        };
        Some(Invocation { program: copy(&self.command[0]), args, cwd: copy(&self.cwd), envs })
    }
}

} // verus!
