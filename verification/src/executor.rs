//! The orchestrator: from lifecycle events to start and stop commands.
//!
//! The executor keeps which programs are pending and which are running.
//! It starts a program when none of its dependencies is pending any
//! more, and once a shutdown has begun it stops a program when none of
//! its dependents runs any more. It performs nothing itself: every
//! function hands back the commands to send to the process manager.

use crate::config::{is_root, ProgramView, System, ValidationError};
use crate::graph::{
    all_hold, computes, is_dependency, lemma_kept_from, unlocked, unlocked_back, valid_graph,
    Graph, GraphView, NodeHandle,
};
use crate::process::{
    command_views, status_view, Command, CommandView, ErrorKind, Event, EventView, ExitStatusView,
    Failure, FailureView,
};
use crate::text::concat3;
use crate::topology::{nodes_where, targets_of};
use std::collections::HashSet;
use vstd::prelude::*;

verus! {

/// The exit status of a critical program, with the program's name.
#[derive(Debug, PartialEq, Eq)]
pub struct ExitStatus {
    pub name: String,
    pub status: crate::process::ExitStatus,
}

/// Mathematical value of a named exit status.
pub ghost struct NamedStatusView {
    pub name: Seq<char>,
    pub status: ExitStatusView,
}

impl View for ExitStatus {
    type V = NamedStatusView;

    open spec fn view(&self) -> NamedStatusView {
        NamedStatusView { name: self.name@, status: self.status@ }
    }
}

/// A critical program that ended without success.
#[derive(Debug, PartialEq, Eq)]
pub struct ExitStatusError {
    pub name: String,
    pub status: crate::process::ExitStatus,
}

impl View for ExitStatusError {
    type V = NamedStatusView;

    open spec fn view(&self) -> NamedStatusView {
        NamedStatusView { name: self.name@, status: self.status@ }
    }
}

/// The message for a critical program that failed.
pub open spec fn failed_text(s: NamedStatusView) -> Seq<char> {
    s.name + " failed: "@ + s.status.text
}

impl ExitStatusError {
    /// The error as it is shown to the user: the name of the program,
    /// ` failed: `, and its status.
    pub fn to_text(&self) -> (text: String)
        ensures
            text@ == failed_text(self@),
    {
        concat3(self.name.as_str(), " failed: ", self.status.text.as_str())
    }
}

impl ExitStatus {
    /// Success if the program succeeded, else the error that names it.
    pub fn into_result(self) -> (result: Result<(), ExitStatusError>)
        ensures
            match result {
                Ok(_) => self.status.success,
                Err(e) => !self.status.success && e@ == self@,
            },
    {
        if self.status.success() {
            Ok(())
        } else {
            Err(ExitStatusError { name: self.name, status: self.status })
        }
    }
}

/// Mathematical value of an [`Executor`].
pub ghost struct ExecutorView {
    pub graph: GraphView,
    pub running: Set<NodeHandle>,
    pub pending: Set<NodeHandle>,
    pub shutting_down: bool,
    pub status: Option<NamedStatusView>,
    pub failure: Option<FailureView>,
}

/// One start command for each handle, with the program of the handle.
pub open spec fn starts(nodes: Seq<ProgramView>, handles: Seq<usize>) -> Seq<CommandView> {
    Seq::new(handles.len(), |i: int| CommandView::Start(handles[i], nodes[handles[i] as int]))
}

/// One stop command for each handle.
pub open spec fn stops(handles: Seq<usize>) -> Seq<CommandView> {
    Seq::new(handles.len(), |i: int| CommandView::Stop(handles[i]))
}

/// The programs that depend on nothing.
pub open spec fn root_handles(nodes: Seq<ProgramView>) -> Seq<usize> {
    nodes_where(nodes.len() as int, |node: usize| is_root(nodes, node as int))
}

/// The programs that no program depends on.
pub open spec fn leaf_handles(nodes: Seq<ProgramView>) -> Seq<usize> {
    nodes_where(nodes.len() as int, |node: usize| !is_dependency(nodes, node as int))
}

/// Whether anything is pending or running.
pub open spec fn alive(s: ExecutorView) -> bool {
    s.pending.len() > 0 || s.running.len() > 0
}

/// Whether a program is no hindrance to those that depend on it: it
/// runs, or it is no longer pending.
pub open spec fn satisfied(s: ExecutorView) -> spec_fn(NodeHandle) -> bool {
    |node: NodeHandle| s.running.contains(node) || !s.pending.contains(node)
}

/// Whether a program does not run.
pub open spec fn halted(s: ExecutorView) -> spec_fn(NodeHandle) -> bool {
    |node: NodeHandle| !s.running.contains(node)
}

/// The beginning: every program is pending, no status is recorded, and
/// every root is started.
pub open spec fn spec_init(s: ExecutorView) -> (ExecutorView, Seq<CommandView>) {
    (
        ExecutorView {
            pending: Set::new(|node: NodeHandle| node < s.graph.nodes.len()),
            status: None,
            ..s
        },
        starts(s.graph.nodes, root_handles(s.graph.nodes)),
    )
}

/// A shutdown begins: the flag is set, and while anything is pending or
/// running every leaf is stopped.
pub open spec fn spec_shutdown(s: ExecutorView) -> (ExecutorView, Seq<CommandView>) {
    (
        ExecutorView { shutting_down: true, ..s },
        if alive(s) {
            stops(leaf_handles(s.graph.nodes))
        } else {
            Seq::empty()
        },
    )
}

/// A program is ready: it is no longer pending and runs, and each
/// program that depends on it and has no unsatisfied dependency left is
/// started. A handle that is no node changes nothing.
pub open spec fn spec_started(s: ExecutorView, h: NodeHandle) -> (ExecutorView, Seq<CommandView>) {
    if h >= s.graph.nodes.len() {
        (s, Seq::empty())
    } else {
        let next = ExecutorView { pending: s.pending.remove(h), running: s.running.insert(h), ..s };
        (next, starts(s.graph.nodes, unlocked(s.graph.edges, h, satisfied(next))))
    }
}

/// The state after a running program has stopped, before any command
/// is thought of: the program no longer runs, and if it is critical and
/// not disabled its status is recorded unless one was recorded before.
pub open spec fn after_stop(
    s: ExecutorView,
    h: NodeHandle,
    status: Option<ExitStatusView>,
) -> ExecutorView {
    let prog = s.graph.nodes[h as int];
    let gone = ExecutorView { running: s.running.remove(h), ..s };
    if s.running.contains(h) && prog.critical && !prog.disabled {
        match (s.status, status) {
            (None, Some(st)) => ExecutorView {
                status: Some(NamedStatusView { name: prog.name, status: st }),
                ..gone
            },
            _ => gone,
        }
    } else {
        gone
    }
}

/// A program has stopped. If it ran and is critical and not disabled, a
/// shutdown begins. During a shutdown each dependency of the program
/// whose dependents have all halted is stopped. A handle that is no
/// node changes nothing.
pub open spec fn spec_stopped(s: ExecutorView, h: NodeHandle, status: Option<ExitStatusView>) -> (
    ExecutorView,
    Seq<CommandView>,
) {
    if h >= s.graph.nodes.len() {
        (s, Seq::empty())
    } else {
        let prog = s.graph.nodes[h as int];
        let gone = after_stop(s, h, status);
        let (next, first) = if s.running.contains(h) && prog.critical && !prog.disabled {
            spec_shutdown(gone)
        } else {
            (gone, Seq::empty())
        };
        (
            next,
            if next.shutting_down {
                first + stops(unlocked_back(s.graph.edges, h, halted(next)))
            } else {
                first
            },
        )
    }
}

/// What one event does to the executor, and the commands it calls for.
/// An error begins the shutdown and asks for nothing: the error itself
/// is what the caller gets.
pub open spec fn spec_process(s: ExecutorView, event: EventView) -> (
    ExecutorView,
    Seq<CommandView>,
) {
    match event {
        EventView::Started(h) => spec_started(s, h),
        EventView::Stopped(h, status) => spec_stopped(s, h, status),
        EventView::Shutdown => spec_shutdown(s),
        EventView::Error(_) => (ExecutorView { shutting_down: true, ..s }, Seq::empty()),
    }
}

/// The state after one turn of the loop, the commands of the turn, and
/// whether the loop is over.
///
/// A closed event queue ends the run with a last shutdown pass. An
/// error is recorded, the first one only, and begins the shutdown as a
/// shutdown event does. The run is over once nothing is pending or
/// running.
pub open spec fn spec_step(s: ExecutorView, event: Option<EventView>) -> (
    ExecutorView,
    Seq<CommandView>,
    bool,
) {
    match event {
        None => (spec_shutdown(s).0, spec_shutdown(s).1, true),
        Some(e) => {
            let (next, commands) = match e {
                EventView::Error(failure) => spec_shutdown(
                    ExecutorView {
                        failure: if s.failure.is_none() {
                            Some(failure)
                        } else {
                            s.failure
                        },
                        ..s
                    },
                ),
                _ => spec_process(s, e),
            };
            if alive(next) {
                (next, commands, false)
            } else {
                (ExecutorView { shutting_down: true, ..next }, commands, true)
            }
        },
    }
}

/// How the run ends: with the first error if there was one, else with
/// the failure of the critical program whose status was recorded, if it
/// did not succeed.
pub open spec fn spec_result(s: ExecutorView) -> Result<(), FailureView> {
    match s.failure {
        Some(failure) => Err(failure),
        None => match s.status {
            Some(named) => if named.status.success {
                Ok(())
            } else {
                Err(FailureView { kind: ErrorKind::ChildFailed, message: failed_text(named) })
            },
            None => Ok(()),
        },
    }
}

/// The executor of one ensemble.
pub struct Executor {
    dependency_graph: Graph,
    running: HashSet<NodeHandle>,
    pending: HashSet<NodeHandle>,
    shutting_down: bool,
    status: Option<ExitStatus>,
    failure: Option<Failure>,
}

/// The value of an optional named status.
pub open spec fn named_view(status: Option<ExitStatus>) -> Option<NamedStatusView> {
    match status {
        Some(s) => Some(s@),
        None => None,
    }
}

/// The value of an optional failure.
pub open spec fn failure_view(failure: Option<Failure>) -> Option<FailureView> {
    match failure {
        Some(f) => Some(f@),
        None => None,
    }
}

impl View for Executor {
    type V = ExecutorView;

    closed spec fn view(&self) -> ExecutorView {
        ExecutorView {
            graph: self.dependency_graph@,
            running: self.running@,
            pending: self.pending@,
            shutting_down: self.shutting_down,
            status: named_view(self.status),
            failure: failure_view(self.failure),
        }
    }
}

impl Executor {
    /// Whether the executor is in order: its graph is sound, and
    /// finitely many programs are pending or running.
    pub closed spec fn wf(&self) -> bool {
        &&& self.dependency_graph.wf()
        &&& self.running@.finite()
        &&& self.pending@.finite()
    }

    /// An executor for the ensemble of a sound system: nothing is
    /// pending or running yet.
    pub fn from_config(cfg: &System) -> (made: Result<Executor, ValidationError>)
        ensures
            match made {
                Ok(executor) => {
                    &&& executor.wf()
                    &&& valid_graph(executor@.graph)
                    &&& executor@.graph.nodes == cfg@.program
                    &&& executor@.running == Set::<NodeHandle>::empty()
                    &&& executor@.pending == Set::<NodeHandle>::empty()
                    &&& !executor@.shutting_down
                    &&& executor@.status.is_none()
                    &&& executor@.failure.is_none()
                },
                Err(e) => crate::graph::graph_defect(cfg@.program) == Some(e@),
            },
    {
        match Graph::from_config(cfg.clone()) {
            Ok(graph) => Ok(
                Executor {
                    dependency_graph: graph,
                    running: HashSet::new(),
                    pending: HashSet::new(),
                    shutting_down: false,
                    status: None,
                    failure: None,
                },
            ),
            Err(e) => Err(e),
        }
    }

    /// The graph of the ensemble.
    pub fn graph(&self) -> (graph: &Graph)
        ensures
            graph@ == self@.graph,
            self.wf() ==> graph.wf(),
    {
        &self.dependency_graph
    }

    /// Whether anything is pending or running.
    pub fn is_alive(&self) -> (yes: bool)
        requires
            self.wf(),
        ensures
            yes == alive(self@),
    {
        broadcast use vstd::std_specs::hash::group_hash_axioms;

        !self.pending.is_empty() || !self.running.is_empty()
    }

    /// Whether a shutdown has begun.
    pub fn is_shutting_down(&self) -> (yes: bool)
        ensures
            yes == self@.shutting_down,
    {
        self.shutting_down
    }

    /// Whether the program of a handle runs.
    pub fn is_running(&self, h: NodeHandle) -> (yes: bool)
        ensures
            yes == self@.running.contains(h),
    {
        broadcast use vstd::std_specs::hash::group_hash_axioms;

        self.running.contains(&h)
    }

    /// Whether the program of a handle is pending.
    pub fn is_pending(&self, h: NodeHandle) -> (yes: bool)
        ensures
            yes == self@.pending.contains(h),
    {
        broadcast use vstd::std_specs::hash::group_hash_axioms;

        self.pending.contains(&h)
    }

    /// The command that starts the program of a handle.
    pub fn send_start(&self, handle: NodeHandle) -> (command: Command)
        requires
            handle < self@.graph.nodes.len(),
        ensures
            command@ == CommandView::Start(handle, self@.graph.nodes[handle as int]),
    {
        Command::Start((handle, self.dependency_graph.node(handle).clone()))
    }

    /// The command that stops the program of a handle.
    pub fn send_stop(&self, handle: NodeHandle) -> (command: Command)
        ensures
            command@ == CommandView::Stop(handle),
    {
        Command::Stop(handle)
    }

    fn start_all(&self, handles: &Vec<NodeHandle>) -> (commands: Vec<Command>)
        requires
            forall|i: int| 0 <= i < handles.len() ==> handles[i] < self@.graph.nodes.len(),
        ensures
            command_views(commands@) == starts(self@.graph.nodes, handles@),
    {
        let mut commands: Vec<Command> = Vec::new();
        let mut i: usize = 0;
        while i < handles.len()
            invariant
                i <= handles.len(),
                commands.len() == i,
                forall|k: int| 0 <= k < handles.len() ==> handles[k] < self@.graph.nodes.len(),
                forall|k: int|
                    0 <= k < i ==> commands[k]@ == CommandView::Start(
                        handles[k],
                        self@.graph.nodes[handles[k] as int],
                    ),
            decreases handles.len() - i,
        {
            commands.push(self.send_start(handles[i]));
            i += 1;
        }
        assert(command_views(commands@) =~= starts(self@.graph.nodes, handles@));
        commands
    }

    fn stop_all(&self, handles: &Vec<NodeHandle>) -> (commands: Vec<Command>)
        ensures
            command_views(commands@) == stops(handles@),
    {
        let mut commands: Vec<Command> = Vec::new();
        let mut i: usize = 0;
        while i < handles.len()
            invariant
                i <= handles.len(),
                commands.len() == i,
                forall|k: int| 0 <= k < i ==> commands[k]@ == CommandView::Stop(handles[k]),
            decreases handles.len() - i,
        {
            commands.push(self.send_stop(handles[i]));
            i += 1;
        }
        assert(command_views(commands@) =~= stops(handles@));
        commands
    }

    /// Begins the run: every program becomes pending and every root is
    /// started.
    pub fn init(&mut self) -> (commands: Vec<Command>)
        requires
            old(self).wf(),
        ensures
            final(self).wf(),
            (final(self)@, command_views(commands@)) == spec_init(old(self)@),
    {
        broadcast use vstd::std_specs::hash::group_hash_axioms;

        let all = self.dependency_graph.all();
        let mut pending: HashSet<NodeHandle> = HashSet::new();
        let mut i: usize = 0;
        while i < all.len()
            invariant
                i <= all.len(),
                all@ == Seq::new(self@.graph.nodes.len(), |k: int| k as usize),
                pending@.finite(),
                forall|node: NodeHandle| pending@.contains(node) <==> node < i,
            decreases all.len() - i,
        {
            pending.insert(all[i]);
            i += 1;
        }
        assert(pending@ =~= Set::new(|node: NodeHandle| node < self@.graph.nodes.len()));
        self.pending = pending;
        self.status = None;
        let roots = self.dependency_graph.roots();
        proof {
            let nodes = self@.graph.nodes;
            assert forall|k: int| 0 <= k < roots.len() implies roots[k] < nodes.len() by {
                assert(roots@.contains(roots[k]));
                crate::graph::lemma_nodes_where_holds(
                    nodes.len() as int,
                    |node: usize| is_root(nodes, node as int),
                    roots[k],
                );
            }
        }
        self.start_all(&roots)
    }

    /// Begins the shutdown: while anything is pending or running, every
    /// leaf is stopped.
    pub fn shutdown(&mut self) -> (commands: Vec<Command>)
        requires
            old(self).wf(),
        ensures
            final(self).wf(),
            (final(self)@, command_views(commands@)) == spec_shutdown(old(self)@),
    {
        self.shutting_down = true;
        if self.is_alive() {
            let leaves = self.dependency_graph.leaves();
            self.stop_all(&leaves)
        } else {
            let commands: Vec<Command> = Vec::new();
            assert(command_views(commands@) =~= Seq::<CommandView>::empty());
            commands
        }
    }

    /// Takes note that a program is ready and starts what was waiting
    /// for it alone.
    pub fn on_started(&mut self, handle: NodeHandle) -> (commands: Vec<Command>)
        requires
            old(self).wf(),
        ensures
            final(self).wf(),
            (final(self)@, command_views(commands@)) == spec_started(old(self)@, handle),
    {
        broadcast use vstd::std_specs::hash::group_hash_axioms;

        if handle >= self.dependency_graph.len() {
            let commands: Vec<Command> = Vec::new();
            assert(command_views(commands@) =~= Seq::<CommandView>::empty());
            return commands;
        }
        self.pending.remove(&handle);
        self.running.insert(handle);
        let running = &self.running;
        let pending = &self.pending;
        let visited = |node: NodeHandle| -> (yes: bool)
            ensures
                yes == (running@.contains(node) || !pending@.contains(node)),
            { running.contains(&node) || !pending.contains(&node) };
        let next = self.dependency_graph.expand(handle, visited);
        proof {
            let s = self@;
            assert(computes(visited, satisfied(s)));
            let edges = s.graph.edges;
            let keep = |to: NodeHandle|
                all_hold(
                    crate::topology::neighbours(edges, to, petgraph::Direction::Incoming),
                    satisfied(s),
                );
            crate::graph::lemma_edges_within(s.graph.nodes);
            assert forall|k: int| 0 <= k < next.len() implies next[k] < s.graph.nodes.len() by {
                lemma_kept_from(targets_of(edges, handle), keep, k);
                crate::topology::lemma_targets(edges, handle, next[k]);
                let e = choose|e: int| 0 <= e < edges.len() && edges[e] == (handle, next[k]);
                assert(edges[e].1 < s.graph.nodes.len());
            }
        }
        self.start_all(&next)
    }

    /// Takes note that a program has stopped, begins the shutdown if
    /// the program is critical, and during a shutdown stops what only
    /// this program was holding up.
    pub fn on_stopped(&mut self, handle: NodeHandle, status: Option<crate::process::ExitStatus>) -> (commands:
        Vec<Command>)
        requires
            old(self).wf(),
        ensures
            final(self).wf(),
            (final(self)@, command_views(commands@)) == spec_stopped(
                old(self)@,
                handle,
                status_view(status),
            ),
    {
        broadcast use vstd::std_specs::hash::group_hash_axioms;

        let mut commands: Vec<Command> = Vec::new();
        assert(command_views(commands@) =~= Seq::<CommandView>::empty());
        if handle >= self.dependency_graph.len() {
            return commands;
        }
        let was_running = self.running.remove(&handle);
        if was_running {
            let critical = self.dependency_graph.node(handle).critical;
            let disabled = self.dependency_graph.node(handle).disabled;
            if critical && !disabled {
                if self.status.is_none() {
                    match status {
                        Some(st) => {
                            let name = self.dependency_graph.node(handle).name.clone();
                            self.status = Some(ExitStatus { name, status: st });
                        },
                        None => {},
                    }
                }
                assert(self@ == after_stop(old(self)@, handle, status_view(status)));
                commands = self.shutdown();
            }
        }
        assert(self@ == spec_stopped(old(self)@, handle, status_view(status)).0);
        if self.shutting_down {
            let running = &self.running;
            let visited = |node: NodeHandle| -> (yes: bool)
                ensures
                    yes == !running@.contains(node),
                { !running.contains(&node) };
            let back = self.dependency_graph.expand_back(handle, visited);
            assert(computes(visited, halted(self@)));
            let more = self.stop_all(&back);
            let ghost first = command_views(commands@);
            let mut more = more;
            commands.append(&mut more);
            assert(command_views(commands@) =~= first + stops(back@));
        }
        commands
    }

    /// Takes one event. An error event hands the error back, after the
    /// shutdown flag is set; any other event gives `true` and the
    /// commands that it calls for.
    pub fn process(&mut self, event: Event) -> (outcome: Result<(bool, Vec<Command>), Failure>)
        requires
            old(self).wf(),
        ensures
            final(self).wf(),
            final(self)@ == spec_process(old(self)@, event@).0,
            match outcome {
                Ok(pair) => pair.0 && !(event@ is Error) && command_views(pair.1@) == spec_process(
                    old(self)@,
                    event@,
                ).1,
                Err(failure) => event@ == EventView::Error(failure@),
            },
    {
        match event {
            Event::Started(h) => Ok((true, self.on_started(h))),
            Event::Stopped(h, s) => Ok((true, self.on_stopped(h, s))),
            Event::Shutdown => Ok((true, self.shutdown())),
            Event::Error(failure) => {
                self.shutting_down = true;
                Err(failure)
            },
        }
    }

    /// One turn of the loop that runs the ensemble: takes the next
    /// event, or `None` when the event queue is closed, and gives the
    /// commands to send and whether the run is over.
    pub fn step(&mut self, event: Option<Event>) -> (turn: (Vec<Command>, bool))
        requires
            old(self).wf(),
        ensures
            final(self).wf(),
            (final(self)@, command_views(turn.0@), turn.1) == spec_step(
                old(self)@,
                match event {
                    Some(e) => Some(e@),
                    None => None,
                },
            ),
    {
        let commands = match event {
            None => {
                return (self.shutdown(), true);
            },
            Some(Event::Error(failure)) => {
                if self.failure.is_none() {
                    self.failure = Some(failure);
                }
                self.shutdown()
            },
            Some(other) => match self.process(other) {
                Ok(pair) => pair.1,
                Err(_) => Vec::new(),
            },
        };
        if self.is_alive() {
            (commands, false)
        } else {
            self.shutting_down = true;
            (commands, true)
        }
    }

    /// How the run ends.
    pub fn result(&self) -> (outcome: Result<(), Failure>)
        ensures
            match outcome {
                Ok(_) => spec_result(self@) == Ok::<(), FailureView>(()),
                Err(failure) => spec_result(self@) == Err::<(), FailureView>(failure@),
            },
    {
        match &self.failure {
            Some(failure) => Err(failure.clone()),
            None => match &self.status {
                Some(named) => {
                    if named.status.success() {
                        Ok(())
                    } else {
                        let message = concat3(
                            named.name.as_str(),
                            " failed: ",
                            named.status.text.as_str(),
                        );
                        Err(Failure { kind: ErrorKind::ChildFailed, message })
                    }
                },
                None => Ok(()),
            },
        }
    }
}

} // verus!
