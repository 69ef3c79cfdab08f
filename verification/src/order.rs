//! What holds of every run of the executor, whatever the events are
//! and in whatever order they come.

use crate::config::{is_root, lemma_sound_system};
use crate::executor::{
    halted, leaf_handles, root_handles, satisfied, spec_init, spec_process, spec_shutdown,
    spec_stopped, stops, ExecutorView,
};
use crate::graph::{
    all_hold, is_dependency, lemma_edges_within, lemma_kept_from, lemma_leaf_is_external,
    lemma_nodes_where_holds, lemma_root_is_external, lemma_unlocked_once, unlocked,
    unlocked_back, valid_graph, NodeHandle,
};
use crate::process::{CommandView, EventView, ExitStatusView};
use crate::topology::{
    lemma_sources, lemma_targets, neighbours, nodes_where, sources_of, targets_of,
};
use vstd::prelude::*;

verus! {

/// The state after the events were taken one after the other.
pub open spec fn run_state(s: ExecutorView, events: Seq<EventView>) -> ExecutorView
    decreases events.len(),
{
    if events.len() == 0 {
        s
    } else {
        spec_process(run_state(s, events.drop_last()), events.last()).0
    }
}

/// The commands that the event at `i` calls for, after the events
/// before it.
pub open spec fn run_commands(s: ExecutorView, events: Seq<EventView>, i: int) -> Seq<CommandView> {
    spec_process(run_state(s, events.take(i)), events[i]).1
}

/// Whether a state is that of a run that has just begun: the graph is
/// sound, every program is pending and none runs.
pub open spec fn begun(s: ExecutorView) -> bool {
    &&& valid_graph(s.graph)
    &&& s.graph.nodes.len() <= usize::MAX
    &&& s.running == Set::<NodeHandle>::empty()
    &&& s.pending == Set::new(|node: NodeHandle| node < s.graph.nodes.len())
}

/// Whether an event says that the program of a handle has stopped.
pub open spec fn stopped_event(e: EventView, h: NodeHandle) -> bool {
    match e {
        EventView::Stopped(handle, _) => handle == h,
        _ => false,
    }
}

/// Whether the start command of a program went out before the event at
/// `i`: at the beginning, for a program that depends on nothing, or in
/// answer to an earlier event.
pub open spec fn start_was_sent(
    s: ExecutorView,
    events: Seq<EventView>,
    i: int,
    p: NodeHandle,
) -> bool {
    ||| is_root(s.graph.nodes, p as int)
    ||| exists|m: int, k: int|
        0 <= m < i && 0 <= k < run_commands(s, events, m).len() && #[trigger] run_commands(
            s,
            events,
            m,
        )[k] == CommandView::Start(p, s.graph.nodes[p as int])
}

/// No event changes the graph.
pub proof fn lemma_graph_stays(s: ExecutorView, events: Seq<EventView>)
    ensures
        run_state(s, events).graph == s.graph,
    decreases events.len(),
{
    if events.len() > 0 {
        lemma_graph_stays(s, events.drop_last());
    }
}

/// Taking one event more is one more step.
pub proof fn lemma_run_step(s: ExecutorView, events: Seq<EventView>, i: int)
    requires
        0 <= i < events.len(),
    ensures
        run_state(s, events.take(i + 1)) == spec_process(
            run_state(s, events.take(i)),
            events[i],
        ).0,
{
    let longer = events.take(i + 1);
    assert(longer.drop_last() =~= events.take(i));
    assert(longer.last() == events[i]);
}

/// A critical program that ran and is not disabled begins the shutdown
/// when it stops, in the very step that takes the event.
pub proof fn lemma_critical_stop_shuts_down(
    s: ExecutorView,
    h: NodeHandle,
    status: Option<ExitStatusView>,
)
    requires
        h < s.graph.nodes.len(),
        s.running.contains(h),
        s.graph.nodes[h as int].critical,
        !s.graph.nodes[h as int].disabled,
    ensures
        spec_process(s, EventView::Stopped(h, status)).0.shutting_down,
{
}

/// A shutdown event that comes again leaves the state as the first one
/// left it and asks for nothing that the first did not ask for.
pub proof fn lemma_shutdown_is_idempotent(s: ExecutorView)
    ensures
        spec_process(spec_process(s, EventView::Shutdown).0, EventView::Shutdown) == spec_process(
            s,
            EventView::Shutdown,
        ),
{
}

/// Every program started at the beginning depends on nothing.
pub proof fn lemma_first_starts_are_roots(s: ExecutorView, k: int)
    requires
        s.graph.nodes.len() <= usize::MAX,
        0 <= k < spec_init(s).1.len(),
    ensures
        spec_init(s).1[k] is Start,
        spec_init(s).1[k]->Start_0 < s.graph.nodes.len(),
        s.graph.nodes[spec_init(s).1[k]->Start_0 as int].depends.len() == 0,
{
    let roots = root_handles(s.graph.nodes);
    assert(roots.contains(roots[k]));
    lemma_nodes_where_holds(
        s.graph.nodes.len() as int,
        |node: usize| is_root(s.graph.nodes, node as int),
        roots[k],
    );
}

/// A program is started only when each of its dependencies runs or is
/// no longer pending, in the state that the step leaves.
pub proof fn lemma_start_needs_dependencies(s: ExecutorView, e: EventView, k: int, d: NodeHandle)
    requires
        0 <= k < spec_process(s, e).1.len(),
        spec_process(s, e).1[k] is Start,
        sources_of(s.graph.edges, spec_process(s, e).1[k]->Start_0).contains(d),
    ensures
        spec_process(s, e).0.running.contains(d) || !spec_process(s, e).0.pending.contains(d),
{
    let (next, commands) = spec_process(s, e);
    match e {
        EventView::Started(h) => {
            let keep = |to: NodeHandle|
                all_hold(
                    neighbours(s.graph.edges, to, petgraph::Direction::Incoming),
                    satisfied(next),
                );
            let list = unlocked(s.graph.edges, h, satisfied(next));
            lemma_kept_from(targets_of(s.graph.edges, h), keep, k);
            let p = list[k];
            assert(commands[k]->Start_0 == p);
            let sources = sources_of(s.graph.edges, p);
            let at = choose|at: int| 0 <= at < sources.len() && sources[at] == d;
            assert(satisfied(next)(sources[at]));
        },
        EventView::Stopped(h, status) => {
            lemma_stopped_only_stops(s, h, status, k);
        },
        EventView::Shutdown => {},
        EventView::Error(_) => {},
    }
}

/// A stopped program calls for stop commands only.
pub proof fn lemma_stopped_only_stops(
    s: ExecutorView,
    h: NodeHandle,
    status: Option<ExitStatusView>,
    k: int,
)
    requires
        0 <= k < spec_stopped(s, h, status).1.len(),
    ensures
        spec_stopped(s, h, status).1[k] is Stop,
{
}

/// A program is stopped only when none of the programs that depend on
/// it runs, in the state that the step leaves.
pub proof fn lemma_stop_needs_halted_dependents(
    s: ExecutorView,
    e: EventView,
    k: int,
    p: NodeHandle,
)
    requires
        valid_graph(s.graph),
        s.graph.nodes.len() <= usize::MAX,
        0 <= k < spec_process(s, e).1.len(),
        spec_process(s, e).1[k] is Stop,
        targets_of(s.graph.edges, spec_process(s, e).1[k]->Stop_0).contains(p),
    ensures
        !spec_process(s, e).0.running.contains(p),
{
    let (next, commands) = spec_process(s, e);
    let d = commands[k]->Stop_0;
    let nodes = s.graph.nodes;
    let edges = s.graph.edges;
    match e {
        EventView::Started(h) => {},
        EventView::Stopped(h, status) => {
            let prog = nodes[h as int];
            let critical = s.running.contains(h) && prog.critical && !prog.disabled;
            let first = if critical {
                spec_shutdown(crate::executor::after_stop(s, h, status)).1
            } else {
                Seq::<CommandView>::empty()
            };
            if k < first.len() {
                assert(commands[k] == first[k]);
                lemma_leaf_has_no_dependents(s, leaf_handles(nodes), k, p);
            } else {
                let keep = |to: NodeHandle|
                    all_hold(
                        neighbours(edges, to, petgraph::Direction::Outgoing),
                        halted(next),
                    );
                let list = unlocked_back(edges, h, halted(next));
                let at = k - first.len();
                assert(commands[k] == stops(list)[at]);
                lemma_kept_from(sources_of(edges, h), keep, at);
                let targets = targets_of(edges, d);
                let q = choose|q: int| 0 <= q < targets.len() && targets[q] == p;
                assert(halted(next)(targets[q]));
            }
        },
        EventView::Shutdown => {
            lemma_leaf_has_no_dependents(s, leaf_handles(nodes), k, p);
        },
        EventView::Error(_) => {},
    }
}

/// No program depends on a leaf.
pub proof fn lemma_leaf_has_no_dependents(
    s: ExecutorView,
    leaves: Seq<usize>,
    k: int,
    p: NodeHandle,
)
    requires
        valid_graph(s.graph),
        s.graph.nodes.len() <= usize::MAX,
        leaves == leaf_handles(s.graph.nodes),
        0 <= k < leaves.len(),
    ensures
        !targets_of(s.graph.edges, leaves[k]).contains(p),
{
    let nodes = s.graph.nodes;
    assert(leaves.contains(leaves[k]));
    lemma_nodes_where_holds(
        nodes.len() as int,
        |node: usize| !is_dependency(nodes, node as int),
        leaves[k],
    );
    lemma_sound_system(nodes);
    lemma_leaf_is_external(nodes, leaves[k] as int);
}

/// A program that runs, or is no longer pending, was reported started.
pub proof fn lemma_satisfied_was_started(s: ExecutorView, events: Seq<EventView>, d: NodeHandle)
    requires
        begun(s),
        d < s.graph.nodes.len(),
        satisfied(run_state(s, events))(d),
    ensures
        exists|j: int| 0 <= j < events.len() && #[trigger] events[j] == EventView::Started(d),
    decreases events.len(),
{
    if events.len() > 0 {
        let earlier = events.drop_last();
        let before = run_state(s, earlier);
        lemma_graph_stays(s, earlier);
        if events.last() == EventView::Started(d) {
            assert(events[events.len() - 1] == EventView::Started(d));
        } else {
            assert(satisfied(before)(d));
            lemma_satisfied_was_started(s, earlier, d);
            let j = choose|j: int|
                0 <= j < earlier.len() && #[trigger] earlier[j] == EventView::Started(d);
            assert(events[j] == EventView::Started(d));
        }
    }
}

/// In every run, when the start command of a program goes out, each of
/// its dependencies has been reported started.
pub proof fn lemma_start_follows_dependencies(
    s: ExecutorView,
    events: Seq<EventView>,
    i: int,
    k: int,
    d: NodeHandle,
)
    requires
        begun(s),
        0 <= i < events.len(),
        0 <= k < run_commands(s, events, i).len(),
        run_commands(s, events, i)[k] is Start,
        sources_of(s.graph.edges, run_commands(s, events, i)[k]->Start_0).contains(d),
    ensures
        exists|j: int| 0 <= j <= i && #[trigger] events[j] == EventView::Started(d),
{
    let before = run_state(s, events.take(i));
    let p = run_commands(s, events, i)[k]->Start_0;
    lemma_graph_stays(s, events.take(i));
    lemma_run_step(s, events, i);
    lemma_start_needs_dependencies(before, events[i], k, d);
    lemma_edges_within(s.graph.nodes);
    lemma_sources(s.graph.edges, p, d);
    let e = choose|e: int| 0 <= e < s.graph.edges.len() && s.graph.edges[e] == (d, p);
    assert(s.graph.edges[e].0 < s.graph.nodes.len());
    let taken = events.take(i + 1);
    lemma_satisfied_was_started(s, taken, d);
    let j = choose|j: int| 0 <= j < taken.len() && #[trigger] taken[j] == EventView::Started(d);
    assert(events[j] == EventView::Started(d));
}

/// Start order. In every run in which a program is reported started
/// only after its start command went out, the report for a program comes
/// after the report for each of its dependencies.
pub proof fn lemma_start_order(
    s: ExecutorView,
    events: Seq<EventView>,
    i: int,
    p: NodeHandle,
    d: NodeHandle,
)
    requires
        begun(s),
        0 <= i < events.len(),
        p < s.graph.nodes.len(),
        events[i] == EventView::Started(p),
        start_was_sent(s, events, i, p),
        sources_of(s.graph.edges, p).contains(d),
    ensures
        exists|j: int| 0 <= j < i && #[trigger] events[j] == EventView::Started(d),
{
    lemma_root_is_external(s.graph.nodes, p as int);
    assert(!is_root(s.graph.nodes, p as int));
    let (m, k) = choose|m: int, k: int|
        0 <= m < i && 0 <= k < run_commands(s, events, m).len() && #[trigger] run_commands(
            s,
            events,
            m,
        )[k] == CommandView::Start(p, s.graph.nodes[p as int]);
    lemma_start_follows_dependencies(s, events, m, k, d);
    let j = choose|j: int| 0 <= j <= m && #[trigger] events[j] == EventView::Started(d);
    assert(events[j] == EventView::Started(d));
}

/// A program that was reported started runs until it is reported
/// stopped.
pub proof fn lemma_started_runs_until_stopped(
    s: ExecutorView,
    events: Seq<EventView>,
    p: NodeHandle,
    from: int,
)
    requires
        p < s.graph.nodes.len(),
        0 <= from < events.len(),
        events[from] == EventView::Started(p),
        forall|j: int| from < j < events.len() ==> !stopped_event(#[trigger] events[j], p),
    ensures
        run_state(s, events).running.contains(p),
    decreases events.len(),
{
    let earlier = events.drop_last();
    lemma_graph_stays(s, earlier);
    if from < events.len() - 1 {
        assert(earlier[from] == events[from]);
        assert forall|j: int| from < j < earlier.len() implies !stopped_event(
            #[trigger] earlier[j],
            p,
        ) by {
            assert(earlier[j] == events[j]);
        }
        lemma_started_runs_until_stopped(s, earlier, p, from);
        assert(!stopped_event(events[events.len() - 1], p));
    }
}

/// Stop order. In every run, when the stop command of a program goes
/// out, each program that depends on it and was reported started has
/// been reported stopped since.
pub proof fn lemma_stop_follows_dependents(
    s: ExecutorView,
    events: Seq<EventView>,
    i: int,
    k: int,
    p: NodeHandle,
    from: int,
)
    requires
        begun(s),
        0 <= from <= i < events.len(),
        0 <= k < run_commands(s, events, i).len(),
        run_commands(s, events, i)[k] is Stop,
        targets_of(s.graph.edges, run_commands(s, events, i)[k]->Stop_0).contains(p),
        events[from] == EventView::Started(p),
    ensures
        exists|j: int| from < j <= i && stopped_event(#[trigger] events[j], p),
{
    let before = run_state(s, events.take(i));
    let d = run_commands(s, events, i)[k]->Stop_0;
    lemma_graph_stays(s, events.take(i));
    lemma_run_step(s, events, i);
    lemma_stop_needs_halted_dependents(before, events[i], k, p);
    lemma_edges_within(s.graph.nodes);
    lemma_targets(s.graph.edges, d, p);
    let e = choose|e: int| 0 <= e < s.graph.edges.len() && s.graph.edges[e] == (d, p);
    assert(s.graph.edges[e].1 < s.graph.nodes.len());
    let taken = events.take(i + 1);
    if forall|j: int| from < j < taken.len() ==> !stopped_event(#[trigger] taken[j], p) {
        lemma_started_runs_until_stopped(s, taken, p, from);
        assert(false);
    }
    let j = choose|j: int| from < j < taken.len() && stopped_event(#[trigger] taken[j], p);
    assert(stopped_event(events[j], p));
}

/// Whether no program is reported started twice.
pub open spec fn started_once(events: Seq<EventView>) -> bool {
    forall|i: int, j: int|
        0 <= i < j < events.len() && (#[trigger] events[i]) is Started ==> events[i]
            != #[trigger] events[j]
}

/// A start command goes out only in answer to the report that a
/// program was started, and only for a program that depends on it.
pub proof fn lemma_start_answers_started(s: ExecutorView, e: EventView, k: int)
    requires
        0 <= k < spec_process(s, e).1.len(),
        spec_process(s, e).1[k] is Start,
    ensures
        e is Started,
        e->Started_0 < s.graph.nodes.len(),
        spec_process(s, e).1[k]->Start_0 == unlocked(
            s.graph.edges,
            e->Started_0,
            satisfied(spec_process(s, e).0),
        )[k],
        targets_of(s.graph.edges, e->Started_0).contains(spec_process(s, e).1[k]->Start_0),
{
    match e {
        EventView::Started(h) => {
            let next = spec_process(s, e).0;
            let keep = |to: NodeHandle|
                all_hold(
                    neighbours(s.graph.edges, to, petgraph::Direction::Incoming),
                    satisfied(next),
                );
            lemma_kept_from(targets_of(s.graph.edges, h), keep, k);
        },
        EventView::Stopped(h, status) => {
            lemma_stopped_only_stops(s, h, status, k);
        },
        EventView::Shutdown => {},
        EventView::Error(_) => {},
    }
}

/// The nodes that a predicate keeps are listed once each.
pub proof fn lemma_nodes_where_once(n: int, keep: spec_fn(usize) -> bool)
    requires
        0 <= n <= usize::MAX,
    ensures
        nodes_where(n, keep).no_duplicates(),
    decreases n,
{
    if n > 0 {
        lemma_nodes_where_once(n - 1, keep);
        let shorter = nodes_where(n - 1, keep);
        assert forall|x: int| 0 <= x < shorter.len() implies shorter[x] != (n - 1) as usize by {
            assert(shorter.contains(shorter[x]));
            lemma_nodes_where_holds(n - 1, keep, shorter[x]);
        }
    }
}

/// At the beginning each program that depends on nothing is started
/// once.
pub proof fn lemma_roots_start_once(s: ExecutorView, k: int, m: int)
    requires
        s.graph.nodes.len() <= usize::MAX,
        0 <= k < m < spec_init(s).1.len(),
    ensures
        spec_init(s).1[k]->Start_0 != spec_init(s).1[m]->Start_0,
{
    lemma_nodes_where_once(
        s.graph.nodes.len() as int,
        |node: usize| is_root(s.graph.nodes, node as int),
    );
}

/// No event has a program started that depends on nothing: such a
/// program is started at the beginning and never again.
pub proof fn lemma_event_starts_no_root(s: ExecutorView, events: Seq<EventView>, i: int, k: int)
    requires
        begun(s),
        0 <= i < events.len(),
        0 <= k < run_commands(s, events, i).len(),
        run_commands(s, events, i)[k] is Start,
    ensures
        run_commands(s, events, i)[k]->Start_0 < s.graph.nodes.len(),
        !is_root(s.graph.nodes, run_commands(s, events, i)[k]->Start_0 as int),
{
    let before = run_state(s, events.take(i));
    let p = run_commands(s, events, i)[k]->Start_0;
    let edges = s.graph.edges;
    lemma_graph_stays(s, events.take(i));
    lemma_start_answers_started(before, events[i], k);
    let h = events[i]->Started_0;
    lemma_edges_within(s.graph.nodes);
    lemma_targets(edges, h, p);
    let e = choose|e: int| 0 <= e < edges.len() && edges[e] == (h, p);
    assert(edges[e].1 < s.graph.nodes.len());
    lemma_sources(edges, p, h);
    let sources = sources_of(edges, p);
    assert(sources.len() > 0);
    lemma_root_is_external(s.graph.nodes, p as int);
}

/// In a run in which no program is reported started twice, the start
/// command of a program goes out once at most: two start commands for
/// one program are one and the same.
pub proof fn lemma_start_goes_out_once(
    s: ExecutorView,
    events: Seq<EventView>,
    i: int,
    k: int,
    j: int,
    m: int,
)
    requires
        begun(s),
        started_once(events),
        0 <= i <= j < events.len(),
        0 <= k < run_commands(s, events, i).len(),
        0 <= m < run_commands(s, events, j).len(),
        run_commands(s, events, i)[k] is Start,
        run_commands(s, events, j)[m] is Start,
        run_commands(s, events, i)[k]->Start_0 == run_commands(s, events, j)[m]->Start_0,
    ensures
        i == j,
        k == m,
{
    let edges = s.graph.edges;
    let p = run_commands(s, events, i)[k]->Start_0;
    let first = run_state(s, events.take(i));
    let second = run_state(s, events.take(j));
    lemma_graph_stays(s, events.take(i));
    lemma_graph_stays(s, events.take(j));
    lemma_start_answers_started(first, events[i], k);
    lemma_start_answers_started(second, events[j], m);
    let h = events[i]->Started_0;
    let other = events[j]->Started_0;
    if i < j {
        assert(events[i] != events[j]);
        lemma_targets(edges, other, p);
        lemma_sources(edges, p, other);
        lemma_start_follows_dependencies(s, events, i, k, other);
        let at = choose|at: int| 0 <= at <= i && #[trigger] events[at] == EventView::Started(other);
        assert(events[at] != events[j]);
    } else {
        let list = unlocked(edges, h, satisfied(spec_process(first, events[i]).0));
        lemma_unlocked_once(s.graph, h, satisfied(spec_process(first, events[i]).0));
        assert(list[k] == list[m]);
    }
}

} // verus!
