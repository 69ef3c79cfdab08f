//! Commands, events and the process manager's own decisions.

use crate::config::{Program, ProgramView, System};
use crate::graph::NodeHandle;
use crate::text::{concat3, decimal, decimal_text};
use std::collections::HashSet;
use vstd::prelude::*;

verus! {

/// How a child ended: whether it succeeded, and the status as text.
#[derive(Debug, PartialEq, Eq)]
pub struct ExitStatus {
    pub success: bool,
    pub text: String,
}

/// Mathematical value of an [`ExitStatus`].
pub ghost struct ExitStatusView {
    pub success: bool,
    pub text: Seq<char>,
}

impl View for ExitStatus {
    type V = ExitStatusView;

    open spec fn view(&self) -> ExitStatusView {
        ExitStatusView { success: self.success, text: self.text@ }
    }
}

impl Clone for ExitStatus {
    fn clone(&self) -> (copy: ExitStatus)
        ensures
            copy@ == self@,
    {
        ExitStatus { success: self.success, text: self.text.clone() }
    }
}

impl ExitStatus {
    /// Whether the child ended well.
    pub fn success(&self) -> (ok: bool)
        ensures
            ok == self.success,
    {
        self.success
    }
}

/// The value of an optional exit status.
pub open spec fn status_view(status: Option<ExitStatus>) -> Option<ExitStatusView> {
    match status {
        Some(s) => Some(s@),
        None => None,
    }
}

/// Copies an optional exit status.
pub fn clone_status(status: &Option<ExitStatus>) -> (copy: Option<ExitStatus>)
    ensures
        status_view(copy) == status_view(*status),
{
    match status {
        Some(s) => Some(s.clone()),
        None => None,
    }
}

/// What went wrong, by the stage at which it did.
#[derive(Debug, Clone, Copy, PartialEq, Eq, Structural)]
pub enum ErrorKind {
    /// The configuration text could not be read.
    Config,
    /// The configuration describes no valid ensemble.
    Validation,
    /// A child could not be spawned.
    Spawn,
    /// A ready probe failed or found the child not ready.
    Probe,
    /// A child was not ready within the start timeout.
    Timeout,
    /// A critical child stopped without success.
    ChildFailed,
    /// A queue closed unexpectedly, or a wait failed.
    Internal,
}

impl ErrorKind {
    /// The exit code that the program ends with after this kind of
    /// error: 2 for a bad configuration, 1 for a failure at run time.
    pub fn exit_code(&self) -> (code: u8)
        ensures
            code == if *self == ErrorKind::Config || *self == ErrorKind::Validation {
                2u8
            } else {
                1u8
            },
    {
        match self {
            ErrorKind::Config => 2,
            ErrorKind::Validation => 2,
            _ => 1,
        }
    }
}

/// An error with its kind and message.
#[derive(Debug, PartialEq, Eq)]
pub struct Failure {
    pub kind: ErrorKind,
    pub message: String,
}

/// Mathematical value of a [`Failure`].
pub ghost struct FailureView {
    pub kind: ErrorKind,
    pub message: Seq<char>,
}

impl View for Failure {
    type V = FailureView;

    open spec fn view(&self) -> FailureView {
        FailureView { kind: self.kind, message: self.message@ }
    }
}

impl Clone for Failure {
    fn clone(&self) -> (copy: Failure)
        ensures
            copy@ == self@,
    {
        Failure { kind: self.kind, message: self.message.clone() }
    }
}

impl Failure {
    /// The message alone, as it is shown to the user.
    pub fn to_text(&self) -> (text: String)
        ensures
            text@ == self.message@,
    {
        self.message.clone()
    }
}

/// An internal error with the given message.
pub fn make_err(message: &str) -> (failure: Failure)
    ensures
        failure@ == (FailureView { kind: ErrorKind::Internal, message: message@ }),
{
    Failure { kind: ErrorKind::Internal, message: String::from_str(message) }
}

/// Order from the orchestrator to the process manager.
#[derive(Debug, PartialEq, Eq)]
pub enum Command {
    Start((NodeHandle, Program)),
    Stop(NodeHandle),
}

/// Mathematical value of a [`Command`].
pub ghost enum CommandView {
    Start(NodeHandle, ProgramView),
    Stop(NodeHandle),
}

impl View for Command {
    type V = CommandView;

    open spec fn view(&self) -> CommandView {
        match self {
            Command::Start(pair) => CommandView::Start(pair.0, pair.1@),
            Command::Stop(handle) => CommandView::Stop(*handle),
        }
    }
}

impl Clone for Command {
    fn clone(&self) -> (copy: Command)
        ensures
            copy@ == self@,
    {
        match self {
            Command::Start(pair) => Command::Start((pair.0, pair.1.clone())),
            Command::Stop(handle) => Command::Stop(*handle),
        }
    }
}

/// The values of a list of commands.
pub open spec fn command_views(list: Seq<Command>) -> Seq<CommandView> {
    Seq::new(list.len(), |i: int| list[i]@)
}

/// Report from the process manager to the orchestrator.
#[derive(Debug, PartialEq, Eq)]
pub enum Event {
    /// The program is ready.
    Started(NodeHandle),
    /// The program has ended, with its status if it ever ran.
    Stopped(NodeHandle, Option<ExitStatus>),
    /// The operator asked for the ensemble to stop.
    Shutdown,
    /// A child could not be brought up.
    Error(Failure),
}

/// Mathematical value of an [`Event`].
pub ghost enum EventView {
    Started(NodeHandle),
    Stopped(NodeHandle, Option<ExitStatusView>),
    Shutdown,
    Error(FailureView),
}

impl View for Event {
    type V = EventView;

    open spec fn view(&self) -> EventView {
        match self {
            Event::Started(handle) => EventView::Started(*handle),
            Event::Stopped(handle, status) => EventView::Stopped(*handle, status_view(*status)),
            Event::Shutdown => EventView::Shutdown,
            Event::Error(failure) => EventView::Error(failure@),
        }
    }
}

/// Name and process id of a running child.
#[derive(Debug, PartialEq, Eq)]
pub struct ProcessInfo {
    pub name: String,
    pub pid: u32,
}

/// The text `name:pid`.
pub open spec fn info_text(name: Seq<char>, pid: u32) -> Seq<char> {
    name + seq![':'] + decimal_text(pid as nat)
}

impl Clone for ProcessInfo {
    fn clone(&self) -> (copy: ProcessInfo)
        ensures
            copy.name@ == self.name@,
            copy.pid == self.pid,
    {
        ProcessInfo { name: self.name.clone(), pid: self.pid }
    }
}

impl ProcessInfo {
    /// The child as it is named in log lines: `name:pid`.
    pub fn to_text(&self) -> (text: String)
        ensures
            text@ == info_text(self.name@, self.pid),
    {
        proof {
            reveal_strlit(":");
            assert(":"@ =~= seq![':']);
        }
        let digits = decimal(self.pid as u64);
        concat3(self.name.as_str(), ":", digits.as_str())
    }
}

/// The operating system signals that ask for a shutdown.
#[derive(Debug, Clone, Copy, PartialEq, Eq, Structural)]
pub enum SignalKind {
    Interrupt,
    Terminate,
}

/// What reaches the process manager.
#[derive(Debug, PartialEq, Eq)]
pub enum ManagerInput {
    /// The operating system delivered a signal.
    Signal(SignalKind),
    /// The orchestrator sent a command.
    Received(Command),
    /// The worker of this handle is done: its child has stopped, or
    /// never came up.
    Finished(NodeHandle),
    /// The command queue was closed.
    Closed,
}

/// Mathematical value of a [`ManagerInput`].
pub ghost enum ManagerInputView {
    Signal(SignalKind),
    Received(CommandView),
    Finished(NodeHandle),
    Closed,
}

impl View for ManagerInput {
    type V = ManagerInputView;

    open spec fn view(&self) -> ManagerInputView {
        match self {
            ManagerInput::Signal(kind) => ManagerInputView::Signal(*kind),
            ManagerInput::Received(command) => ManagerInputView::Received(command@),
            ManagerInput::Finished(handle) => ManagerInputView::Finished(*handle),
            ManagerInput::Closed => ManagerInputView::Closed,
        }
    }
}

/// What the caller does for the process manager.
#[derive(Debug, PartialEq, Eq)]
pub enum ManagerAction {
    /// Nothing is to be done.
    Nothing,
    /// Send the shutdown event to the orchestrator.
    EmitShutdown,
    /// Create the output buses of the program and give it a worker with
    /// the two time limits: the start timeout, then the terminate
    /// timeout.
    Launch(NodeHandle, Program, Option<u64>, u64),
    /// Tell the stop watcher of this handle to stop its child.
    BroadcastStop(NodeHandle),
    /// Leave the loop.
    Exit,
}

/// Mathematical value of a [`ManagerAction`].
pub ghost enum ManagerActionView {
    Nothing,
    EmitShutdown,
    Launch(NodeHandle, ProgramView, Option<u64>, u64),
    BroadcastStop(NodeHandle),
    Exit,
}

impl View for ManagerAction {
    type V = ManagerActionView;

    open spec fn view(&self) -> ManagerActionView {
        match self {
            ManagerAction::Nothing => ManagerActionView::Nothing,
            ManagerAction::EmitShutdown => ManagerActionView::EmitShutdown,
            ManagerAction::Launch(handle, prog, start, grace) => ManagerActionView::Launch(
                *handle,
                prog@,
                *start,
                *grace,
            ),
            ManagerAction::BroadcastStop(handle) => ManagerActionView::BroadcastStop(*handle),
            ManagerAction::Exit => ManagerActionView::Exit,
        }
    }
}

/// The process manager: the one place that children are started and
/// stopped from. It keeps the handles that it launched a worker for,
/// each until its worker is done.
pub struct ProcessManager {
    pub start_timeout: Option<u64>,
    pub terminate_timeout: u64,
    /// Handles whose child may still have to be stopped.
    pub watched: HashSet<NodeHandle>,
    /// Whether the shutdown event was sent.
    pub shutdown_sent: bool,
    /// Whether the command queue was closed.
    pub closed: bool,
}

/// Mathematical value of a [`ProcessManager`].
pub ghost struct ManagerView {
    pub start_timeout: Option<u64>,
    pub terminate_timeout: u64,
    pub watched: Set<NodeHandle>,
    pub shutdown_sent: bool,
    pub closed: bool,
}

impl View for ProcessManager {
    type V = ManagerView;

    open spec fn view(&self) -> ManagerView {
        ManagerView {
            start_timeout: self.start_timeout,
            terminate_timeout: self.terminate_timeout,
            watched: self.watched@,
            shutdown_sent: self.shutdown_sent,
            closed: self.closed,
        }
    }
}

/// The next state of the process manager and what an input calls for.
///
/// The first signal is passed on as a shutdown event and later ones
/// are ignored. A start command launches a worker and records its
/// handle, and the handle is forgotten when the worker is done. A stop
/// command for a recorded handle is broadcast; one for a handle that is
/// unknown or forgotten does nothing. When the queue closes the manager
/// leaves, and nothing that comes later has any effect.
pub open spec fn manager_step(m: ManagerView, input: ManagerInputView) -> (
    ManagerView,
    ManagerActionView,
) {
    if m.closed {
        (m, ManagerActionView::Nothing)
    } else {
        match input {
            ManagerInputView::Signal(_) => if m.shutdown_sent {
                (m, ManagerActionView::Nothing)
            } else {
                (ManagerView { shutdown_sent: true, ..m }, ManagerActionView::EmitShutdown)
            },
            ManagerInputView::Received(CommandView::Start(handle, prog)) => (
                ManagerView { watched: m.watched.insert(handle), ..m },
                ManagerActionView::Launch(handle, prog, m.start_timeout, m.terminate_timeout),
            ),
            ManagerInputView::Received(CommandView::Stop(handle)) => if m.watched.contains(handle) {
                (m, ManagerActionView::BroadcastStop(handle))
            } else {
                (m, ManagerActionView::Nothing)
            },
            ManagerInputView::Finished(handle) => (
                ManagerView { watched: m.watched.remove(handle), ..m },
                ManagerActionView::Nothing,
            ),
            ManagerInputView::Closed => (ManagerView { closed: true, ..m }, ManagerActionView::Exit),
        }
    }
}

/// A second signal changes nothing and asks for nothing: the shutdown
/// event goes out once.
pub proof fn lemma_signal_once(m: ManagerView, first: SignalKind, second: SignalKind)
    ensures
        manager_step(manager_step(m, ManagerInputView::Signal(first)).0, ManagerInputView::Signal(second))
            == (manager_step(m, ManagerInputView::Signal(first)).0, ManagerActionView::Nothing),
{
}

/// Once the worker of a handle is done, a stop command for the handle
/// reaches no child: the handle is forgotten until it is started again.
pub proof fn lemma_finished_is_forgotten(m: ManagerView, handle: NodeHandle)
    requires
        !m.closed,
    ensures
        !manager_step(m, ManagerInputView::Finished(handle)).0.watched.contains(handle),
        manager_step(
            manager_step(m, ManagerInputView::Finished(handle)).0,
            ManagerInputView::Received(CommandView::Stop(handle)),
        ).1 == ManagerActionView::Nothing,
{
}

impl ProcessManager {
    /// A process manager with the time limits of the system and no
    /// worker yet.
    pub fn new(sys: &System) -> (manager: ProcessManager)
        ensures
            manager@ == (ManagerView {
                start_timeout: sys.start_timeout,
                terminate_timeout: sys.terminate_timeout,
                watched: Set::empty(),
                shutdown_sent: false,
                closed: false,
            }),
    {
        ProcessManager {
            start_timeout: sys.start_timeout,
            terminate_timeout: sys.terminate_timeout,
            watched: HashSet::new(),
            shutdown_sent: false,
            closed: false,
        }
    }

    /// Takes one input of the manager's loop and says what to do.
    pub fn step(&mut self, input: ManagerInput) -> (action: ManagerAction)
        ensures
            (final(self)@, action@) == manager_step(old(self)@, input@),
    {
        broadcast use vstd::std_specs::hash::group_hash_axioms;

        if self.closed {
            return ManagerAction::Nothing;
        }
        match input {
            ManagerInput::Signal(_) => self.send_shutdown(),
            ManagerInput::Received(Command::Start(pair)) => self.start(pair.0, pair.1),
            ManagerInput::Received(Command::Stop(handle)) => self.stop(handle),
            ManagerInput::Finished(handle) => self.forget(handle),
            ManagerInput::Closed => {
                self.closed = true;
                ManagerAction::Exit
            },
        }
    }

    /// Records the handle and asks for a worker for the program.
    pub fn start(&mut self, handle: NodeHandle, prog: Program) -> (action: ManagerAction)
        ensures
            final(self)@ == (ManagerView { watched: old(self)@.watched.insert(handle), ..old(self)@ }),
            action@ == ManagerActionView::Launch(
                handle,
                prog@,
                old(self).start_timeout,
                old(self).terminate_timeout,
            ),
    {
        broadcast use vstd::std_specs::hash::group_hash_axioms;

        self.watched.insert(handle);
        ManagerAction::Launch(handle, prog, self.start_timeout, self.terminate_timeout)
    }

    /// Passes a stop command on to the watcher of a known handle.
    pub fn stop(&mut self, handle: NodeHandle) -> (action: ManagerAction)
        ensures
            final(self)@ == old(self)@,
            action@ == if old(self)@.watched.contains(handle) {
                ManagerActionView::BroadcastStop(handle)
            } else {
                ManagerActionView::Nothing
            },
    {
        broadcast use vstd::std_specs::hash::group_hash_axioms;

        if self.watched.contains(&handle) {
            ManagerAction::BroadcastStop(handle)
        } else {
            ManagerAction::Nothing
        }
    }

    /// Forgets a handle whose worker is done: a stop command for it
    /// will be passed on to nobody.
    pub fn forget(&mut self, handle: NodeHandle) -> (action: ManagerAction)
        ensures
            final(self)@ == (ManagerView { watched: old(self)@.watched.remove(handle), ..old(self)@ }),
            action@ == ManagerActionView::Nothing,
    {
        broadcast use vstd::std_specs::hash::group_hash_axioms;

        self.watched.remove(&handle);
        ManagerAction::Nothing
    }

    /// Passes the first shutdown request on to the orchestrator.
    pub fn send_shutdown(&mut self) -> (action: ManagerAction)
        ensures
            final(self)@ == (ManagerView { shutdown_sent: true, ..old(self)@ }),
            action@ == if old(self).shutdown_sent {
                ManagerActionView::Nothing
            } else {
                ManagerActionView::EmitShutdown
            },
    {
        if self.shutdown_sent {
            ManagerAction::Nothing
        } else {
            self.shutdown_sent = true;
            ManagerAction::EmitShutdown
        }
    }
}

} // verus!
