//! Every program of a sound system gets started.
//!
//! A system without a cycle cannot get stuck: as long as start commands
//! are answered, some program that is not yet started has all its
//! dependencies started, and its own start command has gone out.

use crate::config::is_root;
use crate::executor::{satisfied, spec_process, starts, ExecutorView};
use crate::graph::{
    all_hold, kept, lemma_edges_within, lemma_root_is_external, unlocked, NodeHandle,
};
use crate::order::{
    begun, lemma_graph_stays, lemma_run_step, lemma_start_goes_out_once,
    lemma_started_runs_until_stopped, run_commands, run_state, started_once, stopped_event,
};
use crate::process::{CommandView, EventView};
use crate::topology::{
    has_cycle, is_walk, lemma_sources, lemma_targets, neighbours, reaches,
    sources_of, step_ok, targets_of,
};
use vstd::prelude::*;

verus! {

/// Among more nodes than there are numbers below `n`, all below `n`, two
/// are the same.
pub proof fn lemma_pigeonhole(walk: Seq<usize>, n: nat)
    requires
        walk.len() > n,
        forall|i: int| 0 <= i < walk.len() ==> (#[trigger] walk[i]) < n,
    ensures
        exists|i: int, j: int| 0 <= i < j < walk.len() && #[trigger] walk[i] == #[trigger] walk[j],
    decreases n,
{
    if n == 0 {
        assert(walk[0] < 0);
    } else {
        let top = (n - 1) as usize;
        if exists|a: int| 0 <= a < walk.len() && #[trigger] walk[a] == top {
            let a = choose|a: int| 0 <= a < walk.len() && #[trigger] walk[a] == top;
            if exists|b: int| 0 <= b < walk.len() && b != a && #[trigger] walk[b] == top {
                let b = choose|b: int| 0 <= b < walk.len() && b != a && #[trigger] walk[b] == top;
                if a < b {
                    assert(walk[a] == walk[b]);
                } else {
                    assert(walk[b] == walk[a]);
                }
            } else {
                let rest = walk.remove(a);
                assert forall|i: int| 0 <= i < rest.len() implies (#[trigger] rest[i]) < n - 1 by {
                    if i < a {
                        assert(rest[i] == walk[i]);
                    } else {
                        assert(rest[i] == walk[i + 1]);
                    }
                }
                lemma_pigeonhole(rest, (n - 1) as nat);
                let (i, j) = choose|i: int, j: int|
                    0 <= i < j < rest.len() && #[trigger] rest[i] == #[trigger] rest[j];
                let i2 = if i < a {
                    i
                } else {
                    i + 1
                };
                let j2 = if j < a {
                    j
                } else {
                    j + 1
                };
                assert(walk[i2] == rest[i]);
                assert(walk[j2] == rest[j]);
                assert(walk[i2] == walk[j2]);
            }
        } else {
            assert forall|i: int| 0 <= i < walk.len() implies (#[trigger] walk[i]) < n - 1 by {
                assert(walk[i] != top);
            }
            lemma_pigeonhole(walk, (n - 1) as nat);
        }
    }
}

/// A walk that meets a node twice holds a cycle.
pub proof fn lemma_repeat_is_cycle(edges: Seq<(usize, usize)>, walk: Seq<usize>, i: int, j: int)
    requires
        0 <= i < j < walk.len(),
        walk[i] == walk[j],
        forall|k: int| 0 <= k < walk.len() - 1 ==> #[trigger] step_ok(edges, walk, k),
    ensures
        has_cycle(edges),
{
    let part = walk.subrange(i, j + 1);
    assert forall|k: int| 0 <= k < part.len() - 1 implies #[trigger] step_ok(edges, part, k) by {
        assert(step_ok(edges, walk, i + k));
        assert(part[k] == walk[i + k] && part[k + 1] == walk[i + k + 1]);
    }
    assert(is_walk(edges, part) && part.first() == walk[i] && part.last() == walk[i]);
    assert(reaches(edges, walk[i], walk[i]));
}

/// Whether every node of a set has a dependency in the set.
pub open spec fn all_held_up(edges: Seq<(usize, usize)>, stuck: spec_fn(usize) -> bool) -> bool {
    forall|node: usize| #[trigger]
        stuck(node) ==> exists|d: usize| sources_of(edges, node).contains(d) && #[trigger] stuck(d)
}

/// From a node of a set whose nodes all have a dependency in the set, a
/// chain of dependencies of any length leads back through the set.
pub proof fn lemma_descend(
    edges: Seq<(usize, usize)>,
    stuck: spec_fn(usize) -> bool,
    from: usize,
    steps: nat,
) -> (walk: Seq<usize>)
    requires
        all_held_up(edges, stuck),
        stuck(from),
    ensures
        walk.len() == steps + 1,
        walk.last() == from,
        forall|k: int| 0 <= k < walk.len() ==> stuck(#[trigger] walk[k]),
        forall|k: int| 0 <= k < walk.len() - 1 ==> #[trigger] step_ok(edges, walk, k),
    decreases steps,
{
    if steps == 0 {
        seq![from]
    } else {
        let shorter = lemma_descend(edges, stuck, from, (steps - 1) as nat);
        let head = shorter[0];
        assert(stuck(head));
        let d = choose|d: usize| sources_of(edges, head).contains(d) && #[trigger] stuck(d);
        lemma_sources(edges, head, d);
        let walk = seq![d] + shorter;
        assert forall|k: int| 0 <= k < walk.len() implies stuck(#[trigger] walk[k]) by {
            if k > 0 {
                assert(walk[k] == shorter[k - 1]);
            }
        }
        assert forall|k: int| 0 <= k < walk.len() - 1 implies #[trigger] step_ok(edges, walk, k) by {
            if k == 0 {
                assert(walk[0] == d && walk[1] == head);
            } else {
                assert(step_ok(edges, shorter, k - 1));
                assert(walk[k] == shorter[k - 1] && walk[k + 1] == shorter[k]);
            }
        }
        assert(walk.last() == shorter.last());
        walk
    }
}

/// In a graph without a cycle, every set of nodes that is not empty has
/// a node none of whose dependencies is in the set.
pub proof fn lemma_some_node_is_free(
    edges: Seq<(usize, usize)>,
    n: nat,
    stuck: spec_fn(usize) -> bool,
    from: usize,
)
    requires
        !has_cycle(edges),
        stuck(from),
        forall|node: usize| #[trigger] stuck(node) ==> node < n,
    ensures
        exists|free: usize| #[trigger]
            stuck(free) && forall|d: usize|
                sources_of(edges, free).contains(d) ==> !#[trigger] stuck(d),
{
    if all_held_up(edges, stuck) {
        let walk = lemma_descend(edges, stuck, from, n);
        assert forall|i: int| 0 <= i < walk.len() implies (#[trigger] walk[i]) < n by {
            assert(stuck(walk[i]));
        }
        lemma_pigeonhole(walk, n);
        let (i, j) = choose|i: int, j: int|
            0 <= i < j < walk.len() && #[trigger] walk[i] == #[trigger] walk[j];
        lemma_repeat_is_cycle(edges, walk, i, j);
    } else {
        let free = choose|node: usize| #[trigger]
            stuck(node) && !exists|d: usize|
                sources_of(edges, node).contains(d) && #[trigger] stuck(d);
        assert forall|d: usize| sources_of(edges, free).contains(d) implies !#[trigger] stuck(
            d,
        ) by {
            if stuck(d) {
                assert(sources_of(edges, free).contains(d) && stuck(d));
            }
        }
    }
}

/// Whether the program of a handle was reported started.
pub open spec fn was_started(events: Seq<EventView>, p: NodeHandle) -> bool {
    exists|j: int| 0 <= j < events.len() && #[trigger] events[j] == EventView::Started(p)
}

/// Whether every start command of a run was answered: each program that
/// depends on nothing, and each program whose start command went out in
/// answer to an event, was reported started.
pub open spec fn starts_answered(s: ExecutorView, events: Seq<EventView>) -> bool {
    &&& forall|p: NodeHandle|
        p < s.graph.nodes.len() && #[trigger] is_root(s.graph.nodes, p as int) ==> was_started(
            events,
            p,
        )
    &&& forall|i: int, k: int|
        0 <= i < events.len() && 0 <= k < run_commands(s, events, i).len() && (
        #[trigger] run_commands(s, events, i)[k]) is Start ==> was_started(
            events,
            run_commands(s, events, i)[k]->Start_0,
        )
}

/// Whether an event can come in a run in which nothing goes wrong and
/// nobody asks for a shutdown: a program is reported started, or a
/// disabled program is reported stopped without a status.
pub open spec fn calm_event(s: ExecutorView, e: EventView) -> bool {
    match e {
        EventView::Started(h) => h < s.graph.nodes.len(),
        EventView::Stopped(h, status) => h < s.graph.nodes.len() && s.graph.nodes[h as int].disabled
            && status.is_none(),
        _ => false,
    }
}

/// Whether every report that a program was started is followed by the
/// report that it stopped.
pub open spec fn stops_follow(events: Seq<EventView>, h: NodeHandle) -> bool {
    forall|i: int|
        0 <= i < events.len() && #[trigger] events[i] == EventView::Started(h) ==> exists|j: int|
            i < j < events.len() && stopped_event(#[trigger] events[j], h)
}

/// Whether a run is calm: every event is, and every report that a
/// disabled program was started is followed by the report that it
/// stopped.
pub open spec fn calm_run(s: ExecutorView, events: Seq<EventView>) -> bool {
    &&& forall|i: int| 0 <= i < events.len() ==> calm_event(s, #[trigger] events[i])
    &&& forall|h: NodeHandle|
        h < s.graph.nodes.len() && s.graph.nodes[h as int].disabled ==> #[trigger] stops_follow(
            events,
            h,
        )
}

/// Once a program was reported started, it is no longer pending.
pub proof fn lemma_started_stays_satisfied(
    s: ExecutorView,
    events: Seq<EventView>,
    d: NodeHandle,
    at: int,
)
    requires
        d < s.graph.nodes.len(),
        0 <= at < events.len(),
        events[at] == EventView::Started(d),
    ensures
        !run_state(s, events).pending.contains(d),
    decreases events.len(),
{
    let earlier = events.drop_last();
    lemma_graph_stays(s, earlier);
    if at < events.len() - 1 {
        assert(earlier[at] == events[at]);
        lemma_started_stays_satisfied(s, earlier, d, at);
    }
}

/// A node of a list that a predicate keeps is among the nodes kept.
pub proof fn lemma_kept_holds(list: Seq<usize>, keep: spec_fn(NodeHandle) -> bool, at: int)
    requires
        0 <= at < list.len(),
        keep(list[at]),
    ensures
        kept(list, keep).contains(list[at]),
    decreases list.len(),
{
    let shorter = list.drop_last();
    if at == list.len() - 1 {
        let all = kept(list, keep);
        assert(all[all.len() - 1] == list[at]);
    } else {
        lemma_kept_holds(shorter, keep, at);
        let k = choose|k: int|
            0 <= k < kept(shorter, keep).len() && kept(shorter, keep)[k] == shorter[at];
        assert(kept(list, keep)[k] == list[at]);
    }
}

/// Among dependencies that were all reported started, the report that
/// came last: it is the report of one of them, and by then each of them
/// was reported.
pub proof fn lemma_last_report(events: Seq<EventView>, deps: Seq<usize>) -> (last: int)
    requires
        deps.len() > 0,
        forall|q: int| 0 <= q < deps.len() ==> was_started(events, #[trigger] deps[q]),
    ensures
        0 <= last < events.len(),
        exists|q: int| 0 <= q < deps.len() && events[last] == EventView::Started(#[trigger] deps[q]),
        forall|q: int|
            0 <= q < deps.len() ==> exists|j: int|
                0 <= j <= last && #[trigger] events[j] == EventView::Started(#[trigger] deps[q]),
    decreases deps.len(),
{
    let tail = deps.last();
    assert(was_started(events, deps[deps.len() - 1]));
    let mine = choose|j: int| 0 <= j < events.len() && #[trigger] events[j] == EventView::Started(
        tail,
    );
    if deps.len() == 1 {
        assert(events[mine] == EventView::Started(deps[0]));
        assert forall|q: int| 0 <= q < deps.len() implies exists|j: int|
            0 <= j <= mine && #[trigger] events[j] == EventView::Started(#[trigger] deps[q]) by {
            assert(events[mine] == EventView::Started(deps[q]));
        }
        mine
    } else {
        let shorter = deps.drop_last();
        assert forall|q: int| 0 <= q < shorter.len() implies was_started(
            events,
            #[trigger] shorter[q],
        ) by {
            assert(shorter[q] == deps[q]);
        }
        let before = lemma_last_report(events, shorter);
        let last = if mine > before {
            mine
        } else {
            before
        };
        if mine > before {
            assert(events[last] == EventView::Started(deps[deps.len() - 1]));
        } else {
            let q = choose|q: int|
                0 <= q < shorter.len() && events[before] == EventView::Started(
                    #[trigger] shorter[q],
                );
            assert(events[last] == EventView::Started(deps[q]));
        }
        assert forall|q: int| 0 <= q < deps.len() implies exists|j: int|
            0 <= j <= last && #[trigger] events[j] == EventView::Started(#[trigger] deps[q]) by {
            if q < shorter.len() {
                assert(shorter[q] == deps[q]);
                let j = choose|j: int|
                    0 <= j <= before && #[trigger] events[j] == EventView::Started(shorter[q]);
                assert(events[j] == EventView::Started(deps[q]));
            } else {
                assert(events[mine] == EventView::Started(deps[q]));
            }
        }
        last
    }
}

/// When the last of the dependencies of a program is reported started,
/// the start command of the program goes out.
pub proof fn lemma_last_dependency_starts(
    s: ExecutorView,
    events: Seq<EventView>,
    p: NodeHandle,
    last: int,
) -> (k: int)
    requires
        begun(s),
        p < s.graph.nodes.len(),
        0 <= last < events.len(),
        exists|q: int|
            0 <= q < sources_of(s.graph.edges, p).len() && events[last] == EventView::Started(
                #[trigger] sources_of(s.graph.edges, p)[q],
            ),
        forall|q: int|
            0 <= q < sources_of(s.graph.edges, p).len() ==> exists|j: int|
                0 <= j <= last && #[trigger] events[j] == EventView::Started(
                    #[trigger] sources_of(s.graph.edges, p)[q],
                ),
    ensures
        0 <= k < run_commands(s, events, last).len(),
        run_commands(s, events, last)[k] is Start,
        run_commands(s, events, last)[k]->Start_0 == p,
{
    let edges = s.graph.edges;
    let deps = sources_of(edges, p);
    let q = choose|q: int| 0 <= q < deps.len() && events[last] == EventView::Started(
        #[trigger] deps[q],
    );
    let d = deps[q];
    let before = run_state(s, events.take(last));
    let taken = events.take(last + 1);
    lemma_graph_stays(s, events.take(last));
    lemma_run_step(s, events, last);
    lemma_edges_within(s.graph.nodes);
    assert(deps.contains(d));
    lemma_sources(edges, p, d);
    let e = choose|e: int| 0 <= e < edges.len() && edges[e] == (d, p);
    assert(edges[e].0 < s.graph.nodes.len());
    lemma_targets(edges, d, p);
    let next = spec_process(before, events[last]).0;
    assert(next == run_state(s, taken));
    let keep = |to: NodeHandle|
        all_hold(neighbours(edges, to, petgraph::Direction::Incoming), satisfied(next));
    assert forall|r: int| 0 <= r < deps.len() implies satisfied(next)(#[trigger] deps[r]) by {
        let j = choose|j: int|
            0 <= j <= last && #[trigger] events[j] == EventView::Started(deps[r]);
        assert(deps.contains(deps[r]));
        lemma_sources(edges, p, deps[r]);
        let e2 = choose|e2: int| 0 <= e2 < edges.len() && edges[e2] == (deps[r], p);
        assert(edges[e2].0 < s.graph.nodes.len());
        assert(taken[j] == events[j]);
        lemma_started_stays_satisfied(s, taken, deps[r], j);
    }
    assert(keep(p));
    let targets = targets_of(edges, d);
    let at = choose|at: int| 0 <= at < targets.len() && targets[at] == p;
    lemma_kept_holds(targets, keep, at);
    let list = unlocked(edges, d, satisfied(next));
    let k = choose|k: int| 0 <= k < list.len() && list[k] == p;
    assert(run_commands(s, events, last) == starts(s.graph.nodes, list));
    assert(run_commands(s, events, last)[k] == CommandView::Start(p, s.graph.nodes[p as int]));
    k
}

/// In a run in which every start command was answered, every program
/// was reported started.
pub proof fn lemma_every_program_is_started(
    s: ExecutorView,
    events: Seq<EventView>,
    p: NodeHandle,
)
    requires
        begun(s),
        starts_answered(s, events),
        p < s.graph.nodes.len(),
    ensures
        was_started(events, p),
{
    let edges = s.graph.edges;
    let n = s.graph.nodes.len();
    let stuck = |node: usize| node < n && !was_started(events, node);
    if stuck(p) {
        lemma_some_node_is_free(edges, n, stuck, p);
        let free = choose|free: usize| #[trigger]
            stuck(free) && forall|d: usize|
                sources_of(edges, free).contains(d) ==> !#[trigger] stuck(d);
        let deps = sources_of(edges, free);
        lemma_edges_within(s.graph.nodes);
        if deps.len() == 0 {
            lemma_root_is_external(s.graph.nodes, free as int);
            assert(is_root(s.graph.nodes, free as int));
        } else {
            assert forall|q: int| 0 <= q < deps.len() implies was_started(
                events,
                #[trigger] deps[q],
            ) by {
                assert(deps.contains(deps[q]));
                lemma_sources(edges, free, deps[q]);
                let e = choose|e: int| 0 <= e < edges.len() && edges[e] == (deps[q], free);
                assert(edges[e].0 < n);
                assert(!stuck(deps[q]));
            }
            let last = lemma_last_report(events, deps);
            let k = lemma_last_dependency_starts(s, events, free, last);
            assert(run_commands(s, events, last)[k] is Start);
        }
        assert(was_started(events, free));
    }
}

/// After a calm run in which every start command was answered, nothing
/// is pending, the programs that run are exactly those that are not
/// disabled, and no shutdown has begun.
pub proof fn lemma_all_enabled_programs_run(s: ExecutorView, events: Seq<EventView>)
    requires
        begun(s),
        !s.shutting_down,
        calm_run(s, events),
        starts_answered(s, events),
    ensures
        run_state(s, events).pending == Set::<NodeHandle>::empty(),
        run_state(s, events).running == Set::new(
            |p: NodeHandle| p < s.graph.nodes.len() && !s.graph.nodes[p as int].disabled,
        ),
        !run_state(s, events).shutting_down,
{
    let end = run_state(s, events);
    let n = s.graph.nodes.len();
    lemma_calm_state(s, events);
    assert forall|p: NodeHandle| !end.pending.contains(p) by {
        if p < n {
            lemma_every_program_is_started(s, events, p);
            let j = choose|j: int|
                0 <= j < events.len() && #[trigger] events[j] == EventView::Started(p);
            lemma_started_stays_satisfied(s, events, p, j);
        }
    }
    assert(end.pending =~= Set::<NodeHandle>::empty());
    assert forall|p: NodeHandle|
        end.running.contains(p) <==> p < n && !s.graph.nodes[p as int].disabled by {
        if p < n && !s.graph.nodes[p as int].disabled {
            lemma_every_program_is_started(s, events, p);
            let j = choose|j: int|
                0 <= j < events.len() && #[trigger] events[j] == EventView::Started(p);
            assert forall|i: int| j < i < events.len() implies !stopped_event(
                #[trigger] events[i],
                p,
            ) by {
                assert(calm_event(s, events[i]));
            }
            lemma_started_runs_until_stopped(s, events, p, j);
        }
        if p < n && s.graph.nodes[p as int].disabled {
            assert(stops_follow(events, p));
            lemma_disabled_does_not_run(s, events, p);
        }
    }
    assert(end.running =~= Set::new(
        |p: NodeHandle| p < n && !s.graph.nodes[p as int].disabled,
    ));
}

/// In a calm run no shutdown begins, and only programs of the graph
/// run or are pending.
pub proof fn lemma_calm_state(s: ExecutorView, events: Seq<EventView>)
    requires
        begun(s),
        !s.shutting_down,
        forall|i: int| 0 <= i < events.len() ==> calm_event(s, #[trigger] events[i]),
    ensures
        !run_state(s, events).shutting_down,
        forall|p: NodeHandle| run_state(s, events).running.contains(p) ==> p < s.graph.nodes.len(),
        forall|p: NodeHandle| run_state(s, events).pending.contains(p) ==> p < s.graph.nodes.len(),
    decreases events.len(),
{
    if events.len() > 0 {
        let earlier = events.drop_last();
        assert forall|i: int| 0 <= i < earlier.len() implies calm_event(
            s,
            #[trigger] earlier[i],
        ) by {
            assert(earlier[i] == events[i]);
        }
        lemma_calm_state(s, earlier);
        lemma_graph_stays(s, earlier);
        assert(calm_event(s, events[events.len() - 1]));
    }
}

/// A disabled program does not run once each report of its start was
/// followed by the report of its stop.
pub proof fn lemma_disabled_does_not_run(s: ExecutorView, events: Seq<EventView>, p: NodeHandle)
    requires
        begun(s),
        p < s.graph.nodes.len(),
        stops_follow(events, p),
    ensures
        !run_state(s, events).running.contains(p),
{
    if exists|j: int| 0 <= j < events.len() && stopped_event(#[trigger] events[j], p) {
        let last = lemma_last_stop(events, p, events.len() as int);
        lemma_halted_since(s, events, p, last);
    } else {
        lemma_never_started_never_runs(s, events, p);
    }
}

/// The last report, among the first `n` events, that a program stopped.
pub proof fn lemma_last_stop(events: Seq<EventView>, p: NodeHandle, n: int) -> (last: int)
    requires
        0 <= n <= events.len(),
        exists|j: int| 0 <= j < n && stopped_event(#[trigger] events[j], p),
    ensures
        0 <= last < n,
        stopped_event(events[last], p),
        forall|j: int| last < j < n ==> !stopped_event(#[trigger] events[j], p),
    decreases n,
{
    if stopped_event(events[n - 1], p) {
        n - 1
    } else {
        let j = choose|j: int| 0 <= j < n && stopped_event(#[trigger] events[j], p);
        assert(j < n - 1);
        lemma_last_stop(events, p, n - 1)
    }
}

/// A program that was reported stopped and not reported started since
/// does not run.
pub proof fn lemma_halted_since(s: ExecutorView, events: Seq<EventView>, p: NodeHandle, at: int)
    requires
        0 <= at < events.len(),
        stopped_event(events[at], p),
        p < s.graph.nodes.len(),
        forall|j: int| at < j < events.len() ==> #[trigger] events[j] != EventView::Started(p),
    ensures
        !run_state(s, events).running.contains(p),
    decreases events.len(),
{
    let earlier = events.drop_last();
    lemma_graph_stays(s, earlier);
    if at < events.len() - 1 {
        assert(earlier[at] == events[at]);
        assert forall|j: int| at < j < earlier.len() implies #[trigger] earlier[j]
            != EventView::Started(p) by {
            assert(earlier[j] == events[j]);
        }
        lemma_halted_since(s, earlier, p, at);
        assert(events[events.len() - 1] != EventView::Started(p));
    }
}

/// A program that was never reported started does not run.
pub proof fn lemma_never_started_never_runs(
    s: ExecutorView,
    events: Seq<EventView>,
    p: NodeHandle,
)
    requires
        s.running == Set::<NodeHandle>::empty(),
        forall|j: int| 0 <= j < events.len() ==> #[trigger] events[j] != EventView::Started(p),
    ensures
        !run_state(s, events).running.contains(p),
    decreases events.len(),
{
    if events.len() > 0 {
        let earlier = events.drop_last();
        assert forall|j: int| 0 <= j < earlier.len() implies #[trigger] earlier[j]
            != EventView::Started(p) by {
            assert(earlier[j] == events[j]);
        }
        lemma_never_started_never_runs(s, earlier, p);
        assert(events[events.len() - 1] != EventView::Started(p));
    }
}

/// A state in which a program runs and is not pending is left as it is
/// by one more report that the program was started: the ensemble stays
/// as it is until a program stops or a shutdown is asked for.
pub proof fn lemma_steady(s: ExecutorView, h: NodeHandle)
    requires
        s.running.contains(h),
        !s.pending.contains(h),
    ensures
        spec_process(s, EventView::Started(h)).0 == s,
{
    assert(s.running.insert(h) =~= s.running);
    assert(s.pending.remove(h) =~= s.pending);
}

/// In a calm run no stop command goes out: whatever an event calls
/// for is a start command.
pub proof fn lemma_calm_run_sends_no_stop(s: ExecutorView, events: Seq<EventView>, i: int, k: int)
    requires
        begun(s),
        !s.shutting_down,
        forall|j: int| 0 <= j < events.len() ==> calm_event(s, #[trigger] events[j]),
        0 <= i < events.len(),
        0 <= k < run_commands(s, events, i).len(),
    ensures
        run_commands(s, events, i)[k] is Start,
{
    let earlier = events.take(i);
    assert forall|j: int| 0 <= j < earlier.len() implies calm_event(s, #[trigger] earlier[j]) by {
        assert(earlier[j] == events[j]);
    }
    lemma_calm_state(s, earlier);
    lemma_graph_stays(s, earlier);
    assert(calm_event(s, events[i]));
}

/// In a run in which every start command was answered, the start
/// command of every program that depends on something went out: the
/// result says in answer to which event, and where among its commands.
pub proof fn lemma_every_program_gets_its_start(
    s: ExecutorView,
    events: Seq<EventView>,
    p: NodeHandle,
) -> (at: (int, int))
    requires
        begun(s),
        starts_answered(s, events),
        p < s.graph.nodes.len(),
        !is_root(s.graph.nodes, p as int),
    ensures
        0 <= at.0 < events.len(),
        0 <= at.1 < run_commands(s, events, at.0).len(),
        run_commands(s, events, at.0)[at.1] is Start,
        run_commands(s, events, at.0)[at.1]->Start_0 == p,
{
    let edges = s.graph.edges;
    let deps = sources_of(edges, p);
    lemma_edges_within(s.graph.nodes);
    lemma_root_is_external(s.graph.nodes, p as int);
    assert forall|q: int| 0 <= q < deps.len() implies was_started(events, #[trigger] deps[q]) by {
        assert(deps.contains(deps[q]));
        lemma_sources(edges, p, deps[q]);
        let e = choose|e: int| 0 <= e < edges.len() && edges[e] == (deps[q], p);
        assert(edges[e].0 < s.graph.nodes.len());
        lemma_every_program_is_started(s, events, deps[q]);
    }
    let last = lemma_last_report(events, deps);
    let k = lemma_last_dependency_starts(s, events, p, last);
    (last, k)
}

/// One start for each program. In a run in which every start command
/// was answered and no program is reported started twice, the start
/// command of a program that depends on something goes out exactly
/// once: wherever it is found, it is found at the place that the result
/// names. A program that depends on nothing is started at the
/// beginning, once, and by no event.
pub proof fn lemma_one_start_each(s: ExecutorView, events: Seq<EventView>, p: NodeHandle) -> (at: (
    int,
    int,
))
    requires
        begun(s),
        starts_answered(s, events),
        started_once(events),
        p < s.graph.nodes.len(),
        !is_root(s.graph.nodes, p as int),
    ensures
        0 <= at.0 < events.len(),
        0 <= at.1 < run_commands(s, events, at.0).len(),
        run_commands(s, events, at.0)[at.1] is Start,
        run_commands(s, events, at.0)[at.1]->Start_0 == p,
        forall|i: int, k: int|
            0 <= i < events.len() && 0 <= k < run_commands(s, events, i).len() && (
            #[trigger] run_commands(s, events, i)[k]) is Start && run_commands(
                s,
                events,
                i,
            )[k]->Start_0 == p ==> i == at.0 && k == at.1,
{
    let at = lemma_every_program_gets_its_start(s, events, p);
    assert forall|i: int, k: int|
        0 <= i < events.len() && 0 <= k < run_commands(s, events, i).len() && (
        #[trigger] run_commands(s, events, i)[k]) is Start && run_commands(
            s,
            events,
            i,
        )[k]->Start_0 == p implies i == at.0 && k == at.1 by {
        if i <= at.0 {
            lemma_start_goes_out_once(s, events, i, k, at.0, at.1);
        } else {
            lemma_start_goes_out_once(s, events, at.0, at.1, i, k);
        }
    }
    at
}

} // verus!
