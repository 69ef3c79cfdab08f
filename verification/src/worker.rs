//! The life of one child, as the worker that owns it sees it.
//!
//! The worker decides; its caller acts. [`Worker::start`] and
//! [`Worker::step`] hand out the actions to perform, in order, and
//! `step` takes what came of them: the process id of the spawned child,
//! the outcome of the ready probe, the exit status.

use crate::config::{Program, ProgramView, ReadySignal, ReadySignalView};
use crate::graph::NodeHandle;
use crate::process::{
    info_text, ErrorKind, Event, EventView, ExitStatus, ExitStatusView, Failure, FailureView,
    ProcessInfo,
};
use crate::text::{concat2, concat3};
use vstd::prelude::*;

verus! {

/// Weight of a log line.
#[derive(Debug, Clone, Copy, PartialEq, Eq, Structural)]
pub enum LogLevel {
    Error,
    Warn,
    Info,
    Debug,
}

/// One of the two output streams of a child.
#[derive(Debug, Clone, Copy, PartialEq, Eq, Structural)]
pub enum Stream {
    Stdout,
    Stderr,
}

/// What a ready probe found.
#[derive(Debug, PartialEq, Eq)]
pub enum ProbeOutcome {
    Ready,
    NotReady,
    Error(String),
}

/// Mathematical value of a [`ProbeOutcome`].
pub ghost enum ProbeOutcomeView {
    Ready,
    NotReady,
    Error(Seq<char>),
}

impl View for ProbeOutcome {
    type V = ProbeOutcomeView;

    open spec fn view(&self) -> ProbeOutcomeView {
        match self {
            ProbeOutcome::Ready => ProbeOutcomeView::Ready,
            ProbeOutcome::NotReady => ProbeOutcomeView::NotReady,
            ProbeOutcome::Error(message) => ProbeOutcomeView::Error(message@),
        }
    }
}

/// Where a child stands.
#[derive(Debug, Clone, Copy, PartialEq, Eq, Structural)]
pub enum WorkerPhase {
    /// The child is being spawned.
    Spawning,
    /// The child runs and its readiness is awaited.
    Running,
    /// The child is ready and its exit is awaited.
    Ready,
    /// The child has ended, or was never to run.
    Stopped,
    /// The child could not be brought up.
    Failed,
}

/// What the caller does for the worker.
#[derive(Debug, PartialEq, Eq)]
pub enum WorkerAction {
    /// Write a log line.
    Log(LogLevel, String),
    /// Send an event to the orchestrator.
    Emit(Event),
    /// Spawn the worker's program with piped output.
    Spawn,
    /// Watch for a stop command for the child with this process id, and
    /// give it this many milliseconds between terminate and kill.
    WatchStop(u32, u64),
    /// Subscribe the ready probe to the bus of this stream.
    Subscribe(Stream),
    /// Start the producers that publish the child's output lines.
    PipeOutput,
    /// Run the ready probe, within this many milliseconds if any.
    AwaitReady(ReadySignal, Option<u64>),
    /// Wait for the child to exit, within this many milliseconds if any.
    AwaitExit(Option<u64>),
    /// Have the child stopped as a stop command for its handle would:
    /// terminate it, give it its grace, and kill it if it still runs.
    StopChild,
}

/// Mathematical value of a [`WorkerAction`].
pub ghost enum WorkerActionView {
    Log(LogLevel, Seq<char>),
    Emit(EventView),
    Spawn,
    WatchStop(u32, u64),
    Subscribe(Stream),
    PipeOutput,
    AwaitReady(ReadySignalView, Option<u64>),
    AwaitExit(Option<u64>),
    StopChild,
}

impl View for WorkerAction {
    type V = WorkerActionView;

    open spec fn view(&self) -> WorkerActionView {
        match self {
            WorkerAction::Log(level, line) => WorkerActionView::Log(*level, line@),
            WorkerAction::Emit(event) => WorkerActionView::Emit(event@),
            WorkerAction::Spawn => WorkerActionView::Spawn,
            WorkerAction::WatchStop(pid, grace) => WorkerActionView::WatchStop(*pid, *grace),
            WorkerAction::Subscribe(stream) => WorkerActionView::Subscribe(*stream),
            WorkerAction::PipeOutput => WorkerActionView::PipeOutput,
            WorkerAction::AwaitReady(ready, limit) => WorkerActionView::AwaitReady(ready@, *limit),
            WorkerAction::AwaitExit(limit) => WorkerActionView::AwaitExit(*limit),
            WorkerAction::StopChild => WorkerActionView::StopChild,
        }
    }
}

/// The values of a list of actions.
pub open spec fn action_views(list: Seq<WorkerAction>) -> Seq<WorkerActionView> {
    Seq::new(list.len(), |i: int| list[i]@)
}

/// What came of an action.
#[derive(Debug, PartialEq, Eq)]
pub enum WorkerInput {
    /// The child was spawned and has this process id.
    Spawned(u32),
    /// The child could not be spawned.
    SpawnFailed(String),
    /// The ready probe returned.
    Probed(ProbeOutcome),
    /// The time limit of the current wait ran out.
    TimedOut,
    /// The child exited.
    Exited(ExitStatus),
    /// Waiting for the child failed.
    WaitFailed(String),
}

/// Mathematical value of a [`WorkerInput`].
pub ghost enum WorkerInputView {
    Spawned(u32),
    SpawnFailed(Seq<char>),
    Probed(ProbeOutcomeView),
    TimedOut,
    Exited(ExitStatusView),
    WaitFailed(Seq<char>),
}

impl View for WorkerInput {
    type V = WorkerInputView;

    open spec fn view(&self) -> WorkerInputView {
        match self {
            WorkerInput::Spawned(pid) => WorkerInputView::Spawned(*pid),
            WorkerInput::SpawnFailed(message) => WorkerInputView::SpawnFailed(message@),
            WorkerInput::Probed(outcome) => WorkerInputView::Probed(outcome@),
            WorkerInput::TimedOut => WorkerInputView::TimedOut,
            WorkerInput::Exited(status) => WorkerInputView::Exited(status@),
            WorkerInput::WaitFailed(message) => WorkerInputView::WaitFailed(message@),
        }
    }
}

/// The worker of one child.
#[derive(Debug)]
pub struct Worker {
    pub handle: NodeHandle,
    pub prog: Program,
    pub start_timeout: Option<u64>,
    pub terminate_timeout: u64,
    pub phase: WorkerPhase,
    /// Process id of the child; zero until it is spawned.
    pub pid: u32,
}

/// Mathematical value of a [`Worker`].
pub ghost struct WorkerView {
    pub handle: NodeHandle,
    pub prog: ProgramView,
    pub start_timeout: Option<u64>,
    pub terminate_timeout: u64,
    pub phase: WorkerPhase,
    pub pid: u32,
}

impl View for Worker {
    type V = WorkerView;

    open spec fn view(&self) -> WorkerView {
        WorkerView {
            handle: self.handle,
            prog: self.prog@,
            start_timeout: self.start_timeout,
            terminate_timeout: self.terminate_timeout,
            phase: self.phase,
            pid: self.pid,
        }
    }
}

/// The time limit of a ready probe: the start timeout, except for the
/// manual and the timer probe, which have none.
pub open spec fn probe_limit(ready: ReadySignalView, start_timeout: Option<u64>) -> Option<u64> {
    match ready {
        ReadySignalView::Manual => None,
        ReadySignalView::Timer(_) => None,
        _ => start_timeout,
    }
}

/// The time limit of the wait that a running child is in.
pub open spec fn running_limit(w: WorkerView) -> Option<u64> {
    if w.prog.ready == ReadySignalView::Completed {
        w.start_timeout
    } else {
        probe_limit(w.prog.ready, w.start_timeout)
    }
}

/// The failure reported when a child is found not ready.
pub open spec fn not_ready(info: Seq<char>) -> Seq<WorkerActionView> {
    seq![
        WorkerActionView::Log(LogLevel::Error, info + " not ready"@),
        WorkerActionView::Emit(
            EventView::Error(FailureView { kind: ErrorKind::Probe, message: info + " not ready"@ }),
        ),
    ]
}

/// A worker in another phase, with the given process id.
pub open spec fn moved(w: WorkerView, phase: WorkerPhase, pid: u32) -> WorkerView {
    WorkerView { phase, pid, ..w }
}

/// The first state of a worker and its first actions. A disabled
/// program is reported started and stopped at once and is never
/// spawned; any other program is spawned.
pub open spec fn spec_start(
    handle: NodeHandle,
    prog: ProgramView,
    start_timeout: Option<u64>,
    terminate_timeout: u64,
) -> (WorkerView, Seq<WorkerActionView>) {
    let w = WorkerView {
        handle,
        prog,
        start_timeout,
        terminate_timeout,
        phase: WorkerPhase::Spawning,
        pid: 0,
    };
    if prog.disabled {
        (
            moved(w, WorkerPhase::Stopped, 0),
            seq![
                WorkerActionView::Log(LogLevel::Info, prog.name + " disabled, not starting"@),
                WorkerActionView::Emit(EventView::Started(handle)),
                WorkerActionView::Emit(EventView::Stopped(handle, None)),
            ],
        )
    } else {
        (w, seq![WorkerActionView::Spawn])
    }
}

/// What is set up around a child that was just spawned: the log line,
/// the stop watcher, the probe's subscription before the producers
/// start, and the wait for readiness.
pub open spec fn spawned_actions(w: WorkerView, pid: u32) -> Seq<WorkerActionView> {
    let info = info_text(w.prog.name, pid);
    let head = seq![
        WorkerActionView::Log(LogLevel::Info, info + " started"@),
        WorkerActionView::WatchStop(pid, w.terminate_timeout),
    ];
    let subscription = match w.prog.ready {
        ReadySignalView::Stdout(_) => seq![WorkerActionView::Subscribe(Stream::Stdout)],
        ReadySignalView::Stderr(_) => seq![WorkerActionView::Subscribe(Stream::Stderr)],
        _ => seq![],
    };
    let wait = if w.prog.ready == ReadySignalView::Completed {
        WorkerActionView::AwaitExit(w.start_timeout)
    } else {
        WorkerActionView::AwaitReady(w.prog.ready, probe_limit(w.prog.ready, w.start_timeout))
    };
    head + subscription + seq![WorkerActionView::PipeOutput, wait]
}

/// The next state of a worker and the actions that an input calls for.
/// A child that is not ready in time, or whose probe or wait fails, is
/// reported with an error and then stopped. An input that the phase
/// does not expect changes nothing.
pub open spec fn spec_step(w: WorkerView, input: WorkerInputView) -> (
    WorkerView,
    Seq<WorkerActionView>,
) {
    let info = info_text(w.prog.name, w.pid);
    let completed = w.prog.ready == ReadySignalView::Completed;
    match (w.phase, input) {
        (WorkerPhase::Spawning, WorkerInputView::Spawned(pid)) => (
            moved(w, WorkerPhase::Running, pid),
            spawned_actions(w, pid),
        ),
        (WorkerPhase::Spawning, WorkerInputView::SpawnFailed(message)) => (
            moved(w, WorkerPhase::Failed, w.pid),
            seq![
                WorkerActionView::Emit(
                    EventView::Error(FailureView { kind: ErrorKind::Spawn, message }),
                ),
            ],
        ),
        (WorkerPhase::Running, WorkerInputView::Exited(status)) => if !completed {
            (w, seq![])
        } else if status.success {
            (
                moved(w, WorkerPhase::Stopped, w.pid),
                seq![
                    WorkerActionView::Log(LogLevel::Info, info + " ready"@),
                    WorkerActionView::Emit(EventView::Started(w.handle)),
                    WorkerActionView::Log(LogLevel::Info, info + " stopped"@),
                    WorkerActionView::Emit(EventView::Stopped(w.handle, Some(status))),
                ],
            )
        } else {
            (moved(w, WorkerPhase::Failed, w.pid), not_ready(info))
        },
        (WorkerPhase::Running, WorkerInputView::Probed(outcome)) => if completed {
            (w, seq![])
        } else {
            match outcome {
                ProbeOutcomeView::Ready => (
                    moved(w, WorkerPhase::Ready, w.pid),
                    seq![
                        WorkerActionView::Log(LogLevel::Info, info + " ready"@),
                        WorkerActionView::Emit(EventView::Started(w.handle)),
                        WorkerActionView::AwaitExit(None),
                    ],
                ),
                ProbeOutcomeView::NotReady => (
                    moved(w, WorkerPhase::Failed, w.pid),
                    not_ready(info).push(WorkerActionView::StopChild),
                ),
                ProbeOutcomeView::Error(message) => (
                    moved(w, WorkerPhase::Failed, w.pid),
                    seq![
                        WorkerActionView::Emit(
                            EventView::Error(FailureView { kind: ErrorKind::Probe, message }),
                        ),
                        WorkerActionView::StopChild,
                    ],
                ),
            }
        },
        (WorkerPhase::Running, WorkerInputView::TimedOut) => if running_limit(w).is_some() {
            (
                moved(w, WorkerPhase::Failed, w.pid),
                seq![
                    WorkerActionView::Emit(
                        EventView::Error(
                            FailureView { kind: ErrorKind::Timeout, message: "timeout"@ },
                        ),
                    ),
                    WorkerActionView::StopChild,
                ],
            )
        } else {
            (w, seq![])
        },
        (WorkerPhase::Running, WorkerInputView::WaitFailed(message)) => (
            moved(w, WorkerPhase::Failed, w.pid),
            seq![
                WorkerActionView::Emit(
                    EventView::Error(FailureView { kind: ErrorKind::Internal, message }),
                ),
                WorkerActionView::StopChild,
            ],
        ),
        (WorkerPhase::Ready, WorkerInputView::Exited(status)) => (
            moved(w, WorkerPhase::Stopped, w.pid),
            seq![
                WorkerActionView::Log(LogLevel::Info, info + " stopped, "@ + status.text),
                WorkerActionView::Emit(EventView::Stopped(w.handle, Some(status))),
            ],
        ),
        (WorkerPhase::Ready, WorkerInputView::WaitFailed(message)) => (
            moved(w, WorkerPhase::Failed, w.pid),
            seq![
                WorkerActionView::Emit(
                    EventView::Error(FailureView { kind: ErrorKind::Internal, message }),
                ),
                WorkerActionView::StopChild,
            ],
        ),
        _ => (w, seq![]),
    }
}

/// Every action handed out while the inputs are taken one after the
/// other.
pub open spec fn spec_run(w: WorkerView, inputs: Seq<WorkerInputView>) -> Seq<WorkerActionView>
    decreases inputs.len(),
{
    if inputs.len() == 0 {
        seq![]
    } else {
        let (next, actions) = spec_step(w, inputs[0]);
        actions + spec_run(next, inputs.drop_first())
    }
}

/// A disabled program is reported started and then stopped without a
/// status, exactly once each and at once, and nothing else is ever asked
/// for: no process is spawned, whatever is fed to the worker later.
pub proof fn lemma_disabled_is_vacuous(
    handle: NodeHandle,
    prog: ProgramView,
    start_timeout: Option<u64>,
    terminate_timeout: u64,
    inputs: Seq<WorkerInputView>,
)
    requires
        prog.disabled,
    ensures
        spec_start(handle, prog, start_timeout, terminate_timeout).1 + spec_run(
            spec_start(handle, prog, start_timeout, terminate_timeout).0,
            inputs,
        ) == seq![
            WorkerActionView::Log(LogLevel::Info, prog.name + " disabled, not starting"@),
            WorkerActionView::Emit(EventView::Started(handle)),
            WorkerActionView::Emit(EventView::Stopped(handle, None)),
        ],
{
    let first = spec_start(handle, prog, start_timeout, terminate_timeout);
    lemma_stopped_is_final(first.0, inputs);
    assert(first.1 + spec_run(first.0, inputs) =~= first.1);
}

/// A worker whose child has stopped, or could not be brought up, asks
/// for nothing more.
pub proof fn lemma_stopped_is_final(w: WorkerView, inputs: Seq<WorkerInputView>)
    requires
        w.phase == WorkerPhase::Stopped || w.phase == WorkerPhase::Failed,
    ensures
        spec_run(w, inputs) == Seq::<WorkerActionView>::empty(),
    decreases inputs.len(),
{
    if inputs.len() > 0 {
        lemma_stopped_is_final(w, inputs.drop_first());
        assert(spec_run(w, inputs) =~= Seq::<WorkerActionView>::empty());
    }
}

fn not_ready_actions(info: &str) -> (actions: Vec<WorkerAction>)
    ensures
        action_views(actions@) == not_ready(info@),
{
    let mut actions: Vec<WorkerAction> = Vec::new();
    actions.push(WorkerAction::Log(LogLevel::Error, concat2(info, " not ready")));
    actions.push(
        WorkerAction::Emit(
            Event::Error(Failure { kind: ErrorKind::Probe, message: concat2(info, " not ready") }),
        ),
    );
    assert(action_views(actions@) =~= not_ready(info@));
    actions
}

fn and_stop(actions: Vec<WorkerAction>) -> (longer: Vec<WorkerAction>)
    ensures
        action_views(longer@) == action_views(actions@).push(WorkerActionView::StopChild),
{
    let mut longer = actions;
    longer.push(WorkerAction::StopChild);
    assert(action_views(longer@) =~= action_views(actions@).push(WorkerActionView::StopChild));
    longer
}

fn failure_action(kind: ErrorKind, message: String) -> (actions: Vec<WorkerAction>)
    ensures
        action_views(actions@) == seq![
            WorkerActionView::Emit(EventView::Error(FailureView { kind, message: message@ })),
        ],
{
    let mut actions: Vec<WorkerAction> = Vec::new();
    actions.push(WorkerAction::Emit(Event::Error(Failure { kind, message })));
    assert(action_views(actions@) =~= seq![
        WorkerActionView::Emit(EventView::Error(FailureView { kind, message: message@ })),
    ]);
    actions
}

/// The path to run: the canonical path of the executable if the
/// executable is found on disk, else the path as it is configured.
pub fn resolve_executable(canonical: Option<String>, configured: &str) -> (path: String)
    ensures
        path@ == match canonical {
            Some(found) => found@,
            None => configured@,
        },
{
    match canonical {
        Some(found) => found,
        None => String::from_str(configured),
    }
}

impl Worker {
    /// Takes charge of a program: reports a disabled one as started and
    /// stopped, and asks for any other to be spawned.
    pub fn start(
        handle: NodeHandle,
        prog: Program,
        start_timeout: Option<u64>,
        terminate_timeout: u64,
    ) -> (out: (Worker, Vec<WorkerAction>))
        ensures
            (out.0@, action_views(out.1@)) == spec_start(
                handle,
                prog@,
                start_timeout,
                terminate_timeout,
            ),
    {
        let mut actions: Vec<WorkerAction> = Vec::new();
        let mut phase = WorkerPhase::Spawning;
        if prog.disabled {
            actions.push(
                WorkerAction::Log(
                    LogLevel::Info,
                    concat2(prog.name.as_str(), " disabled, not starting"),
                ),
            );
            actions.push(WorkerAction::Emit(Event::Started(handle)));
            actions.push(WorkerAction::Emit(Event::Stopped(handle, None)));
            phase = WorkerPhase::Stopped;
        } else {
            actions.push(WorkerAction::Spawn);
        }
        let worker = Worker { handle, prog, start_timeout, terminate_timeout, phase, pid: 0 };
        assert(action_views(actions@) =~= spec_start(
            handle,
            prog@,
            start_timeout,
            terminate_timeout,
        ).1);
        (worker, actions)
    }

    /// The child as it is named in log lines.
    pub fn info(&self) -> (info: ProcessInfo)
        ensures
            info.name@ == self.prog.name@,
            info.pid == self.pid,
    {
        ProcessInfo { name: self.prog.name.clone(), pid: self.pid }
    }

    /// The time limit of the ready probe of this worker's program.
    pub fn probe_timeout(&self) -> (limit: Option<u64>)
        ensures
            limit == probe_limit(self.prog.ready@, self.start_timeout),
    {
        match self.prog.ready {
            ReadySignal::Manual => None,
            ReadySignal::Timer(_) => None,
            _ => self.start_timeout,
        }
    }

    fn is_completed(&self) -> (yes: bool)
        ensures
            yes == (self.prog.ready@ == ReadySignalView::Completed),
    {
        match self.prog.ready {
            ReadySignal::Completed => true,
            _ => false,
        }
    }

    fn on_spawned(&self, pid: u32) -> (actions: Vec<WorkerAction>)
        ensures
            action_views(actions@) == spawned_actions(self@, pid),
    {
        let info = ProcessInfo { name: self.prog.name.clone(), pid }.to_text();
        let mut actions: Vec<WorkerAction> = Vec::new();
        actions.push(WorkerAction::Log(LogLevel::Info, concat2(info.as_str(), " started")));
        actions.push(WorkerAction::WatchStop(pid, self.terminate_timeout));
        match self.prog.ready {
            ReadySignal::Stdout(_) => {
                actions.push(WorkerAction::Subscribe(Stream::Stdout));
            },
            ReadySignal::Stderr(_) => {
                actions.push(WorkerAction::Subscribe(Stream::Stderr));
            },
            _ => {},
        }
        actions.push(WorkerAction::PipeOutput);
        if self.is_completed() {
            actions.push(WorkerAction::AwaitExit(self.start_timeout));
        } else {
            actions.push(WorkerAction::AwaitReady(self.prog.ready.clone(), self.probe_timeout()));
        }
        assert(action_views(actions@) =~= spawned_actions(self@, pid));
        actions
    }

    /// Takes what came of the last action and says what to do next.
    pub fn step(&mut self, input: WorkerInput) -> (actions: Vec<WorkerAction>)
        ensures
            (final(self)@, action_views(actions@)) == spec_step(old(self)@, input@),
    {
        let info = self.info().to_text();
        let completed = self.is_completed();
        match (self.phase, input) {
            (WorkerPhase::Spawning, WorkerInput::Spawned(pid)) => {
                let actions = self.on_spawned(pid);
                self.phase = WorkerPhase::Running;
                self.pid = pid;
                actions
            },
            (WorkerPhase::Spawning, WorkerInput::SpawnFailed(message)) => {
                self.phase = WorkerPhase::Failed;
                failure_action(ErrorKind::Spawn, message)
            },
            (WorkerPhase::Running, WorkerInput::Exited(status)) => {
                if !completed {
                    Vec::new()
                } else if status.success {
                    let mut actions: Vec<WorkerAction> = Vec::new();
                    actions.push(WorkerAction::Log(LogLevel::Info, concat2(info.as_str(), " ready")));
                    actions.push(WorkerAction::Emit(Event::Started(self.handle)));
                    actions.push(
                        WorkerAction::Log(LogLevel::Info, concat2(info.as_str(), " stopped")),
                    );
                    actions.push(WorkerAction::Emit(Event::Stopped(self.handle, Some(status))));
                    self.phase = WorkerPhase::Stopped;
                    assert(action_views(actions@) =~= spec_step(old(self)@, input@).1);
                    actions
                } else {
                    self.phase = WorkerPhase::Failed;
                    not_ready_actions(info.as_str())
                }
            },
            (WorkerPhase::Running, WorkerInput::Probed(outcome)) => {
                if completed {
                    Vec::new()
                } else {
                    match outcome {
                        ProbeOutcome::Ready => {
                            let mut actions: Vec<WorkerAction> = Vec::new();
                            actions.push(
                                WorkerAction::Log(LogLevel::Info, concat2(info.as_str(), " ready")),
                            );
                            actions.push(WorkerAction::Emit(Event::Started(self.handle)));
                            actions.push(WorkerAction::AwaitExit(None));
                            self.phase = WorkerPhase::Ready;
                            assert(action_views(actions@) =~= spec_step(old(self)@, input@).1);
                            actions
                        },
                        ProbeOutcome::NotReady => {
                            self.phase = WorkerPhase::Failed;
                            and_stop(not_ready_actions(info.as_str()))
                        },
                        ProbeOutcome::Error(message) => {
                            self.phase = WorkerPhase::Failed;
                            let actions = and_stop(failure_action(ErrorKind::Probe, message));
                            assert(action_views(actions@) =~= spec_step(old(self)@, input@).1);
                            actions
                        },
                    }
                }
            },
            (WorkerPhase::Running, WorkerInput::TimedOut) => {
                let limited = if completed {
                    self.start_timeout.is_some()
                } else {
                    self.probe_timeout().is_some()
                };
                if limited {
                    self.phase = WorkerPhase::Failed;
                    let actions = and_stop(
                        failure_action(ErrorKind::Timeout, String::from_str("timeout")),
                    );
                    assert(action_views(actions@) =~= spec_step(old(self)@, input@).1);
                    actions
                } else {
                    Vec::new()
                }
            },
            (WorkerPhase::Running, WorkerInput::WaitFailed(message)) => {
                self.phase = WorkerPhase::Failed;
                let actions = and_stop(failure_action(ErrorKind::Internal, message));
                assert(action_views(actions@) =~= spec_step(old(self)@, input@).1);
                actions
            },
            (WorkerPhase::Ready, WorkerInput::Exited(status)) => {
                let mut actions: Vec<WorkerAction> = Vec::new();
                let line = concat3(info.as_str(), " stopped, ", status.text.as_str());
                actions.push(WorkerAction::Log(LogLevel::Info, line));
                actions.push(WorkerAction::Emit(Event::Stopped(self.handle, Some(status))));
                self.phase = WorkerPhase::Stopped;
                assert(action_views(actions@) =~= spec_step(old(self)@, input@).1);
                actions
            },
            (WorkerPhase::Ready, WorkerInput::WaitFailed(message)) => {
                self.phase = WorkerPhase::Failed;
                let actions = and_stop(failure_action(ErrorKind::Internal, message));
                assert(action_views(actions@) =~= spec_step(old(self)@, input@).1);
                actions
            },
            _ => Vec::new(),
        }
    }
}

} // verus!
