//! Stopping one child: terminate, wait, and kill what is still alive.
//!
//! The watcher decides; its caller sends the signals, sleeps and looks
//! at the child, and feeds back what happened.

use crate::graph::NodeHandle;
use crate::process::{info_text, ProcessInfo};
use crate::text::concat2;
use crate::worker::LogLevel;
use vstd::prelude::*;

verus! {

/// What a non-blocking wait on a child found.
#[derive(Debug, Clone, Copy, PartialEq, Eq, Structural)]
pub enum ChildState {
    /// The child has not changed state: it runs.
    StillAlive,
    /// The child exited by itself.
    Exited,
    /// The child was ended by a signal.
    Signaled,
    /// The child is stopped or traced.
    Stopped,
    /// The child was resumed.
    Continued,
    /// The wait failed: the child is not there to be waited for.
    Gone,
}

/// Whether a child still runs: only one that has not changed state does,
/// no terminal state and no failed wait counts.
pub fn is_alive(state: ChildState) -> (alive: bool)
    ensures
        alive == (state == ChildState::StillAlive),
{
    match state {
        ChildState::StillAlive => true,
        _ => false,
    }
}

/// Where the stop of a child stands.
#[derive(Debug, Clone, Copy, PartialEq, Eq, Structural)]
pub enum StopPhase {
    /// No stop was asked for yet.
    Waiting,
    /// The terminate signal is being sent.
    Terminating,
    /// The child has its grace period.
    Sleeping,
    /// The child is looked at.
    Checking,
    /// The kill signal is being sent.
    Killing,
    /// Nothing is left to do.
    Done,
}

/// What reaches a stop watcher.
#[derive(Debug, Clone, Copy, PartialEq, Eq, Structural)]
pub enum StopInput {
    /// A stop command for this handle was broadcast.
    Stop(NodeHandle),
    /// The broadcast was closed.
    Closed,
    /// The child has ended without being told to.
    Exited,
    /// The signal asked for was sent, or could not be.
    Signalled(bool),
    /// The grace period is over.
    Elapsed,
    /// The child was looked at.
    Observed(ChildState),
}

/// What the caller does for a stop watcher.
#[derive(Debug, PartialEq, Eq)]
pub enum StopAction {
    /// Write a log line.
    Log(LogLevel, String),
    /// Send the terminate signal to this process.
    Terminate(u32),
    /// Sleep for this many milliseconds.
    Sleep(u64),
    /// Look at this process without blocking.
    CheckAlive(u32),
    /// Send the kill signal to this process.
    Kill(u32),
}

/// Mathematical value of a [`StopAction`].
pub ghost enum StopActionView {
    Log(LogLevel, Seq<char>),
    Terminate(u32),
    Sleep(u64),
    CheckAlive(u32),
    Kill(u32),
}

impl View for StopAction {
    type V = StopActionView;

    open spec fn view(&self) -> StopActionView {
        match self {
            StopAction::Log(level, line) => StopActionView::Log(*level, line@),
            StopAction::Terminate(pid) => StopActionView::Terminate(*pid),
            StopAction::Sleep(ms) => StopActionView::Sleep(*ms),
            StopAction::CheckAlive(pid) => StopActionView::CheckAlive(*pid),
            StopAction::Kill(pid) => StopActionView::Kill(*pid),
        }
    }
}

/// The values of a list of actions.
pub open spec fn stop_action_views(list: Seq<StopAction>) -> Seq<StopActionView> {
    Seq::new(list.len(), |i: int| list[i]@)
}

/// The watcher that stops one child when told to.
#[derive(Debug)]
pub struct StopWatcher {
    pub handle: NodeHandle,
    pub info: ProcessInfo,
    /// Milliseconds between terminate and kill.
    pub terminate_timeout: u64,
    pub phase: StopPhase,
}

/// Mathematical value of a [`StopWatcher`].
pub ghost struct StopWatcherView {
    pub handle: NodeHandle,
    pub name: Seq<char>,
    pub pid: u32,
    pub terminate_timeout: u64,
    pub phase: StopPhase,
}

impl View for StopWatcher {
    type V = StopWatcherView;

    open spec fn view(&self) -> StopWatcherView {
        StopWatcherView {
            handle: self.handle,
            name: self.info.name@,
            pid: self.info.pid,
            terminate_timeout: self.terminate_timeout,
            phase: self.phase,
        }
    }
}

/// A watcher in another phase.
pub open spec fn in_phase(w: StopWatcherView, phase: StopPhase) -> StopWatcherView {
    StopWatcherView { phase, ..w }
}

/// The next state of a stop watcher and the actions that an input
/// calls for.
///
/// A stop command for the watcher's own handle has the terminate signal
/// sent; once it is sent the child has its grace period, after which it
/// is looked at and killed if it still runs. A terminate signal that
/// could not be sent leads to the kill at once. A watcher that learns
/// while it waits that its child has ended is done, and sends no signal
/// ever. Stop commands for other handles, and anything that the phase
/// does not expect, change nothing.
pub open spec fn stop_step(w: StopWatcherView, input: StopInput) -> (
    StopWatcherView,
    Seq<StopActionView>,
) {
    let info = info_text(w.name, w.pid);
    match (w.phase, input) {
        (StopPhase::Waiting, StopInput::Stop(handle)) => if handle == w.handle {
            (in_phase(w, StopPhase::Terminating), seq![StopActionView::Terminate(w.pid)])
        } else {
            (w, seq![])
        },
        (StopPhase::Waiting, StopInput::Closed) => (in_phase(w, StopPhase::Done), seq![]),
        (StopPhase::Waiting, StopInput::Exited) => (in_phase(w, StopPhase::Done), seq![]),
        (StopPhase::Terminating, StopInput::Signalled(sent)) => if sent {
            (in_phase(w, StopPhase::Sleeping), seq![StopActionView::Sleep(w.terminate_timeout)])
        } else {
            (
                in_phase(w, StopPhase::Killing),
                seq![
                    StopActionView::Log(LogLevel::Warn, "failed to terminate "@ + info),
                    StopActionView::Kill(w.pid),
                ],
            )
        },
        (StopPhase::Sleeping, StopInput::Elapsed) => (
            in_phase(w, StopPhase::Checking),
            seq![StopActionView::CheckAlive(w.pid)],
        ),
        (StopPhase::Checking, StopInput::Observed(state)) => if state == ChildState::StillAlive {
            (
                in_phase(w, StopPhase::Killing),
                seq![
                    StopActionView::Log(LogLevel::Warn, info + " failed to terminate, killing"@),
                    StopActionView::Kill(w.pid),
                ],
            )
        } else {
            (
                in_phase(w, StopPhase::Done),
                seq![StopActionView::Log(LogLevel::Info, info + " terminated"@)],
            )
        },
        (StopPhase::Killing, StopInput::Signalled(sent)) => (
            in_phase(w, StopPhase::Done),
            if sent {
                seq![StopActionView::Log(LogLevel::Info, info + " killed"@)]
            } else {
                seq![StopActionView::Log(LogLevel::Warn, "failed to kill "@ + info)]
            },
        ),
        _ => (w, seq![]),
    }
}

/// Every action handed out while the inputs are taken one after the
/// other.
pub open spec fn stop_run(w: StopWatcherView, inputs: Seq<StopInput>) -> Seq<StopActionView>
    decreases inputs.len(),
{
    if inputs.len() == 0 {
        seq![]
    } else {
        let (next, actions) = stop_step(w, inputs[0]);
        actions + stop_run(next, inputs.drop_first())
    }
}

/// The state after the inputs were taken one after the other.
pub open spec fn stop_state(w: StopWatcherView, inputs: Seq<StopInput>) -> StopWatcherView
    decreases inputs.len(),
{
    if inputs.len() == 0 {
        w
    } else {
        stop_state(stop_step(w, inputs[0]).0, inputs.drop_first())
    }
}

/// A stop command that comes again while the first is being carried
/// out, or after it, changes nothing and asks for nothing.
pub proof fn lemma_stop_is_idempotent(w: StopWatcherView, handle: NodeHandle)
    ensures
        stop_step(stop_step(w, StopInput::Stop(handle)).0, StopInput::Stop(handle)) == (
            stop_step(w, StopInput::Stop(handle)).0,
            Seq::<StopActionView>::empty(),
        ),
{
    let once = stop_step(w, StopInput::Stop(handle));
    assert(stop_step(once.0, StopInput::Stop(handle)).1 =~= Seq::<StopActionView>::empty());
}

/// Whatever reaches a watcher that waits for its stop command, the
/// first thing that it ever asks for is the terminate signal for its
/// child: the kill never comes first, and never without it.
pub proof fn lemma_terminate_comes_first(w: StopWatcherView, inputs: Seq<StopInput>)
    requires
        w.phase == StopPhase::Waiting,
    ensures
        stop_run(w, inputs).len() > 0 ==> stop_run(w, inputs)[0] == StopActionView::Terminate(
            w.pid,
        ),
        stop_state(w, inputs).phase == StopPhase::Waiting ==> stop_run(w, inputs).len() == 0,
    decreases inputs.len(),
{
    if inputs.len() > 0 {
        let (next, actions) = stop_step(w, inputs[0]);
        let rest = stop_run(next, inputs.drop_first());
        if next.phase == StopPhase::Waiting {
            assert(next == w);
            lemma_terminate_comes_first(next, inputs.drop_first());
            assert(actions.len() == 0);
            assert(stop_run(w, inputs) =~= rest);
        } else if next.phase == StopPhase::Terminating {
            assert(actions[0] == StopActionView::Terminate(w.pid));
            assert(stop_run(w, inputs)[0] == actions[0]);
            lemma_leaves_waiting_for_good(next, inputs.drop_first());
        } else {
            assert(next.phase == StopPhase::Done);
            lemma_leaves_waiting_for_good(next, inputs.drop_first());
            lemma_done_is_final(next, inputs.drop_first());
            assert(stop_run(w, inputs) =~= Seq::<StopActionView>::empty());
        }
    }
}

/// The milliseconds that an action asks to be slept.
pub open spec fn grace_of(action: StopActionView) -> nat {
    match action {
        StopActionView::Sleep(ms) => ms as nat,
        _ => 0,
    }
}

/// The milliseconds that a list of actions asks to be slept, all told.
pub open spec fn grace_asked(actions: Seq<StopActionView>) -> nat
    decreases actions.len(),
{
    if actions.len() == 0 {
        0
    } else {
        grace_asked(actions.drop_last()) + grace_of(actions.last())
    }
}

proof fn lemma_grace_adds(first: Seq<StopActionView>, second: Seq<StopActionView>)
    ensures
        grace_asked(first + second) == grace_asked(first) + grace_asked(second),
    decreases second.len(),
{
    if second.len() == 0 {
        assert(first + second =~= first);
    } else {
        assert((first + second).drop_last() =~= first + second.drop_last());
        assert((first + second).last() == second.last());
        lemma_grace_adds(first, second.drop_last());
    }
}

proof fn lemma_grace_of_few(actions: Seq<StopActionView>)
    requires
        actions.len() <= 2,
    ensures
        actions.len() == 0 ==> grace_asked(actions) == 0,
        actions.len() == 1 ==> grace_asked(actions) == grace_of(actions[0]),
        actions.len() == 2 ==> grace_asked(actions) == grace_of(actions[0]) + grace_of(actions[1]),
    decreases actions.len(),
{
    if actions.len() > 0 {
        lemma_grace_of_few(actions.drop_last());
    }
}

proof fn lemma_grace_of_step(w: StopWatcherView, input: StopInput)
    ensures
        grace_asked(stop_step(w, input).1) == if w.phase == StopPhase::Terminating && input
            == StopInput::Signalled(true) {
            w.terminate_timeout as nat
        } else {
            0
        },
{
    lemma_grace_of_few(stop_step(w, input).1);
}

/// However a watcher is driven, it asks for one grace period at most,
/// of the terminate timeout: no child is given longer between the
/// terminate signal and the look that decides on the kill. Once the
/// grace period has begun, none is asked for again.
pub proof fn lemma_grace_is_bounded(w: StopWatcherView, inputs: Seq<StopInput>)
    ensures
        grace_asked(stop_run(w, inputs)) <= w.terminate_timeout,
        w.phase != StopPhase::Waiting && w.phase != StopPhase::Terminating ==> grace_asked(
            stop_run(w, inputs),
        ) == 0,
    decreases inputs.len(),
{
    if inputs.len() > 0 {
        let (next, actions) = stop_step(w, inputs[0]);
        lemma_grace_of_step(w, inputs[0]);
        lemma_grace_is_bounded(next, inputs.drop_first());
        lemma_grace_adds(actions, stop_run(next, inputs.drop_first()));
    }
}

/// A stop command that comes after the child has ended by itself
/// sends no signal: nothing is asked for, whatever comes later.
pub proof fn lemma_ended_child_gets_no_signal(w: StopWatcherView, inputs: Seq<StopInput>)
    requires
        w.phase == StopPhase::Waiting,
    ensures
        stop_run(stop_step(w, StopInput::Exited).0, inputs) == Seq::<StopActionView>::empty(),
{
    lemma_done_is_final(stop_step(w, StopInput::Exited).0, inputs);
}

/// A watcher that has left the waiting phase never returns to it.
pub proof fn lemma_leaves_waiting_for_good(w: StopWatcherView, inputs: Seq<StopInput>)
    requires
        w.phase != StopPhase::Waiting,
    ensures
        stop_state(w, inputs).phase != StopPhase::Waiting,
    decreases inputs.len(),
{
    if inputs.len() > 0 {
        lemma_leaves_waiting_for_good(stop_step(w, inputs[0]).0, inputs.drop_first());
    }
}

/// A watcher that is done asks for nothing more.
pub proof fn lemma_done_is_final(w: StopWatcherView, inputs: Seq<StopInput>)
    requires
        w.phase == StopPhase::Done,
    ensures
        stop_run(w, inputs) == Seq::<StopActionView>::empty(),
    decreases inputs.len(),
{
    if inputs.len() > 0 {
        lemma_done_is_final(w, inputs.drop_first());
        assert(stop_run(w, inputs) =~= Seq::<StopActionView>::empty());
    }
}

fn one_action(action: StopAction) -> (actions: Vec<StopAction>)
    ensures
        stop_action_views(actions@) == seq![action@],
{
    let mut actions: Vec<StopAction> = Vec::new();
    actions.push(action);
    assert(stop_action_views(actions@) =~= seq![action@]);
    actions
}

fn two_actions(first: StopAction, second: StopAction) -> (actions: Vec<StopAction>)
    ensures
        stop_action_views(actions@) == seq![first@, second@],
{
    let mut actions: Vec<StopAction> = Vec::new();
    actions.push(first);
    actions.push(second);
    assert(stop_action_views(actions@) =~= seq![first@, second@]);
    actions
}

fn no_action() -> (actions: Vec<StopAction>)
    ensures
        stop_action_views(actions@) == Seq::<StopActionView>::empty(),
{
    let actions: Vec<StopAction> = Vec::new();
    assert(stop_action_views(actions@) =~= Seq::<StopActionView>::empty());
    actions
}

impl StopWatcher {
    /// A watcher that waits for the stop command of its handle.
    pub fn new(handle: NodeHandle, info: ProcessInfo, terminate_timeout: u64) -> (watcher:
        StopWatcher)
        ensures
            watcher@ == (StopWatcherView {
                handle,
                name: info.name@,
                pid: info.pid,
                terminate_timeout,
                phase: StopPhase::Waiting,
            }),
    {
        StopWatcher { handle, info, terminate_timeout, phase: StopPhase::Waiting }
    }

    /// Takes what happened and says what to do next.
    pub fn step(&mut self, input: StopInput) -> (actions: Vec<StopAction>)
        ensures
            (final(self)@, stop_action_views(actions@)) == stop_step(old(self)@, input),
    {
        let pid = self.info.pid;
        match (self.phase, input) {
            (StopPhase::Waiting, StopInput::Stop(handle)) => {
                if handle == self.handle {
                    self.phase = StopPhase::Terminating;
                    one_action(StopAction::Terminate(pid))
                } else {
                    no_action()
                }
            },
            (StopPhase::Waiting, StopInput::Closed) => {
                self.phase = StopPhase::Done;
                no_action()
            },
            (StopPhase::Waiting, StopInput::Exited) => {
                self.phase = StopPhase::Done;
                no_action()
            },
            (StopPhase::Terminating, StopInput::Signalled(sent)) => {
                if sent {
                    self.phase = StopPhase::Sleeping;
                    one_action(StopAction::Sleep(self.terminate_timeout))
                } else {
                    let info = self.info.to_text();
                    self.phase = StopPhase::Killing;
                    two_actions(
                        StopAction::Log(
                            LogLevel::Warn,
                            concat2("failed to terminate ", info.as_str()),
                        ),
                        StopAction::Kill(pid),
                    )
                }
            },
            (StopPhase::Sleeping, StopInput::Elapsed) => {
                self.phase = StopPhase::Checking;
                one_action(StopAction::CheckAlive(pid))
            },
            (StopPhase::Checking, StopInput::Observed(state)) => {
                let info = self.info.to_text();
                if is_alive(state) {
                    self.phase = StopPhase::Killing;
                    two_actions(
                        StopAction::Log(
                            LogLevel::Warn,
                            concat2(info.as_str(), " failed to terminate, killing"),
                        ),
                        StopAction::Kill(pid),
                    )
                } else {
                    self.phase = StopPhase::Done;
                    one_action(StopAction::Log(LogLevel::Info, concat2(info.as_str(), " terminated")))
                }
            },
            (StopPhase::Killing, StopInput::Signalled(sent)) => {
                let info = self.info.to_text();
                self.phase = StopPhase::Done;
                if sent {
                    one_action(StopAction::Log(LogLevel::Info, concat2(info.as_str(), " killed")))
                } else {
                    one_action(
                        StopAction::Log(LogLevel::Warn, concat2("failed to kill ", info.as_str())),
                    )
                }
            },
            _ => no_action(),
        }
    }
}

} // verus!
