//! The bare structure of the dependencies, kept in a `petgraph` graph.
//!
//! The graph has one node for each program, in the order of the
//! configuration, and one edge from a dependency to each program that
//! names it. Its contents are known to the proofs by two names, the
//! edges in the order of their addition and the number of nodes; what
//! the functions of `petgraph` do to them is stated, not proved.

use crate::config::{Program, ProgramView};
use vstd::prelude::*;

verus! {

/// Identity of a program in the graph: its position in the configuration.
pub type NodeHandle = usize;

/// `petgraph::Direction`, the side of a node on which an edge lies:
/// outgoing or incoming. Its two variants are read as they are.
#[verifier::external_type_specification]
pub struct ExDirection(petgraph::Direction);

/// A directed `petgraph` graph without weights whose nodes are numbered
/// by `usize`.
#[verifier::external_body]
pub struct Topology {
    inner: petgraph::Graph<(), (), petgraph::Directed, usize>,
}

/// The edges of a topology in the order in which they were added, each
/// as the pair of its source and its target.
pub uninterp spec fn topology_edges(g: Topology) -> Seq<(usize, usize)>;

/// The number of nodes of a topology.
pub uninterp spec fn topology_nodes(g: Topology) -> nat;

/// The text that `petgraph` writes for a graph with these node labels
/// and these edges, without edge labels.
pub uninterp spec fn dot_text(labels: Seq<Seq<char>>, edges: Seq<(usize, usize)>) -> Seq<char>;

/// Targets of the edges that leave `node`, in the order of addition.
pub open spec fn targets_of(edges: Seq<(usize, usize)>, node: usize) -> Seq<usize>
    decreases edges.len(),
{
    if edges.len() == 0 {
        Seq::empty()
    } else if edges.last().0 == node {
        targets_of(edges.drop_last(), node).push(edges.last().1)
    } else {
        targets_of(edges.drop_last(), node)
    }
}

/// Sources of the edges that enter `node`, in the order of addition.
pub open spec fn sources_of(edges: Seq<(usize, usize)>, node: usize) -> Seq<usize>
    decreases edges.len(),
{
    if edges.len() == 0 {
        Seq::empty()
    } else if edges.last().1 == node {
        sources_of(edges.drop_last(), node).push(edges.last().0)
    } else {
        sources_of(edges.drop_last(), node)
    }
}

/// The neighbours of a node on one side, in the order of addition.
pub open spec fn neighbours(
    edges: Seq<(usize, usize)>,
    node: usize,
    dir: petgraph::Direction,
) -> Seq<usize> {
    match dir {
        petgraph::Direction::Outgoing => targets_of(edges, node),
        petgraph::Direction::Incoming => sources_of(edges, node),
    }
}

/// Whether a node has no edge on the given side.
pub open spec fn is_external(edges: Seq<(usize, usize)>, node: usize, dir: petgraph::Direction) -> bool {
    neighbours(edges, node, dir).len() == 0
}

/// The nodes below `n` that a predicate keeps, in rising order.
pub open spec fn nodes_where(n: int, keep: spec_fn(usize) -> bool) -> Seq<usize>
    decreases n,
{
    if n <= 0 {
        Seq::empty()
    } else if keep((n - 1) as usize) {
        nodes_where(n - 1, keep).push((n - 1) as usize)
    } else {
        nodes_where(n - 1, keep)
    }
}

/// Whether both ends of every edge are nodes below `n`.
pub open spec fn edges_within(edges: Seq<(usize, usize)>, n: nat) -> bool {
    forall|k: int| 0 <= k < edges.len() ==> (#[trigger] edges[k]).0 < n && edges[k].1 < n
}

/// Whether an edge leads from each node of a walk to the next.
pub open spec fn step_ok(edges: Seq<(usize, usize)>, walk: Seq<usize>, k: int) -> bool {
    edges.contains((walk[k], walk[k + 1]))
}

/// Whether a sequence of nodes follows the edges, over one edge at least.
pub open spec fn is_walk(edges: Seq<(usize, usize)>, walk: Seq<usize>) -> bool {
    walk.len() >= 2 && forall|k: int| 0 <= k < walk.len() - 1 ==> #[trigger] step_ok(edges, walk, k)
}

/// Whether `to` can be reached from `from` along one edge or more.
pub open spec fn reaches(edges: Seq<(usize, usize)>, from: usize, to: usize) -> bool {
    exists|walk: Seq<usize>| #[trigger]
        is_walk(edges, walk) && walk.first() == from && walk.last() == to
}

/// Whether some node can be reached from itself.
pub open spec fn has_cycle(edges: Seq<(usize, usize)>) -> bool {
    exists|node: usize| #[trigger] reaches(edges, node, node)
}

/// `petgraph::Graph::with_capacity`, asked for no capacity: the graph
/// that it returns has no node and no edge.
#[verifier::external_body]
pub(crate) fn topology_new() -> (g: Topology)
    ensures
        topology_nodes(g) == 0,
        topology_edges(g) == Seq::<(usize, usize)>::empty(),
{
    Topology { inner: petgraph::Graph::with_capacity(0, 0) }
}

/// `petgraph::Graph::add_node`: the new node gets the next index, the
/// count of the nodes before it, and the edges stay as they are.
#[verifier::external_body]
pub(crate) fn topology_add_node(g: &mut Topology) -> (index: usize)
    ensures
        index == topology_nodes(*old(g)),
        topology_nodes(*final(g)) == topology_nodes(*old(g)) + 1,
        topology_edges(*final(g)) == topology_edges(*old(g)),
{
    g.inner.add_node(()).index()
}

/// `petgraph::Graph::add_edge`, which panics unless both nodes exist:
/// the new edge comes after the edges that were there, and the nodes
/// stay as they are.
#[verifier::external_body]
pub(crate) fn topology_add_edge(g: &mut Topology, from: usize, to: usize)
    requires
        from < topology_nodes(*old(g)),
        to < topology_nodes(*old(g)),
    ensures
        topology_nodes(*final(g)) == topology_nodes(*old(g)),
        topology_edges(*final(g)) == topology_edges(*old(g)).push((from, to)),
{
    g.inner.add_edge(
        petgraph::graph::NodeIndex::new(from),
        petgraph::graph::NodeIndex::new(to),
        (),
    );
}

/// `petgraph::Graph::node_count`: the number of nodes.
#[verifier::external_body]
pub(crate) fn topology_node_count(g: &Topology) -> (n: usize)
    ensures
        n == topology_nodes(*g),
{
    g.inner.node_count()
}

/// `petgraph::Graph::neighbors`: the targets of the edges that leave
/// the node, the most recently added edge first; none for a node that
/// does not exist.
#[verifier::external_body]
pub(crate) fn topology_neighbors(g: &Topology, node: usize) -> (list: Vec<usize>)
    ensures
        list@ == targets_of(topology_edges(*g), node).reverse(),
{
    g.inner.neighbors(petgraph::graph::NodeIndex::new(node)).map(|n| n.index()).collect()
}

/// `petgraph::Graph::neighbors_directed`: the nodes at the other end of
/// the edges that leave the node (outgoing) or enter it (incoming), the
/// most recently added edge first; none for a node that does not exist.
#[verifier::external_body]
pub(crate) fn topology_neighbors_directed(
    g: &Topology,
    node: usize,
    dir: petgraph::Direction,
) -> (list: Vec<usize>)
    ensures
        list@ == neighbours(topology_edges(*g), node, dir).reverse(),
{
    g.inner
        .neighbors_directed(petgraph::graph::NodeIndex::new(node), dir)
        .map(|n| n.index())
        .collect()
}

/// `petgraph::Graph::externals`: the nodes without an edge on the given
/// side, in the order of their indices.
#[verifier::external_body]
pub(crate) fn topology_externals(g: &Topology, dir: petgraph::Direction) -> (list: Vec<usize>)
    ensures
        list@ == nodes_where(
            topology_nodes(*g) as int,
            |node: usize| is_external(topology_edges(*g), node, dir),
        ),
{
    g.inner.externals(dir).map(|n| n.index()).collect()
}

/// `petgraph::algo::is_cyclic_directed`: whether the graph contains a
/// cycle, a self-loop included.
#[verifier::external_body]
pub(crate) fn topology_is_cyclic(g: &Topology) -> (cyclic: bool)
    ensures
        cyclic == has_cycle(topology_edges(*g)),
{
    petgraph::algo::is_cyclic_directed(&g.inner)
}

/// The names of a list of programs.
pub open spec fn names_of(progs: Seq<ProgramView>) -> Seq<Seq<char>> {
    Seq::new(progs.len(), |i: int| progs[i].name)
}

/// `petgraph::dot::Dot::with_config` with `Config::EdgeNoLabel`, written
/// through `Display` for the graph that `petgraph::Graph::map` labels
/// with the programs' names.
#[verifier::external_body]
pub(crate) fn topology_dot(g: &Topology, programs: &Vec<Program>) -> (text: String)
    requires
        programs.len() == topology_nodes(*g),
    ensures
        text@ == dot_text(
            names_of(crate::config::program_views(programs@)),
            topology_edges(*g),
        ),
{
    let labelled = g.inner.map(|i, _| programs[i.index()].name.as_str(), |_, _| 0);
    format!("{}", petgraph::dot::Dot::with_config(&labelled, &[petgraph::dot::Config::EdgeNoLabel]))
}

/// An edge that leaves a node is among its targets, and only those are.
pub proof fn lemma_targets(edges: Seq<(usize, usize)>, node: usize, other: usize)
    ensures
        targets_of(edges, node).contains(other) <==> edges.contains((node, other)),
    decreases edges.len(),
{
    if edges.len() > 0 {
        let rest = edges.drop_last();
        lemma_targets(rest, node, other);
        let found = targets_of(edges, node);
        if edges.contains((node, other)) {
            let k = choose|k: int| 0 <= k < edges.len() && edges[k] == (node, other);
            if k == edges.len() - 1 {
                assert(found.last() == other);
            } else {
                assert(rest[k] == (node, other));
                let j = choose|j: int|
                    0 <= j < targets_of(rest, node).len() && targets_of(rest, node)[j] == other;
                assert(found[j] == other);
            }
        }
        if found.contains(other) {
            let j = choose|j: int| 0 <= j < found.len() && found[j] == other;
            if edges.last().0 == node && j == found.len() - 1 {
                assert(edges[edges.len() - 1] == (node, other));
            } else {
                assert(targets_of(rest, node)[j] == other);
                let k = choose|k: int| 0 <= k < rest.len() && rest[k] == (node, other);
                assert(edges[k] == (node, other));
            }
        }
    }
}

/// An edge that enters a node is among its sources, and only those are.
pub proof fn lemma_sources(edges: Seq<(usize, usize)>, node: usize, other: usize)
    ensures
        sources_of(edges, node).contains(other) <==> edges.contains((other, node)),
    decreases edges.len(),
{
    if edges.len() > 0 {
        let rest = edges.drop_last();
        lemma_sources(rest, node, other);
        let found = sources_of(edges, node);
        if edges.contains((other, node)) {
            let k = choose|k: int| 0 <= k < edges.len() && edges[k] == (other, node);
            if k == edges.len() - 1 {
                assert(found.last() == other);
            } else {
                assert(rest[k] == (other, node));
                let j = choose|j: int|
                    0 <= j < sources_of(rest, node).len() && sources_of(rest, node)[j] == other;
                assert(found[j] == other);
            }
        }
        if found.contains(other) {
            let j = choose|j: int| 0 <= j < found.len() && found[j] == other;
            if edges.last().1 == node && j == found.len() - 1 {
                assert(edges[edges.len() - 1] == (other, node));
            } else {
                assert(sources_of(rest, node)[j] == other);
                let k = choose|k: int| 0 <= k < rest.len() && rest[k] == (other, node);
                assert(edges[k] == (other, node));
            }
        }
    }
}

/// A sequence read backwards twice is the sequence.
pub proof fn lemma_reverse_twice(list: Seq<usize>)
    ensures
        list.reverse().reverse() == list,
{
    assert(list.reverse().reverse() =~= list);
}

/// Turns a list around.
pub fn reversed(list: &Vec<usize>) -> (turned: Vec<usize>)
    ensures
        turned@ == list@.reverse(),
{
    let mut turned: Vec<usize> = Vec::new();
    let mut i: usize = list.len();
    while i > 0
        invariant
            i <= list.len(),
            turned.len() == list.len() - i,
            forall|k: int| 0 <= k < turned.len() ==> turned[k] == list[list.len() - 1 - k],
        decreases i,
    {
        i -= 1;
        turned.push(list[i]);
    }
    assert(turned@ =~= list@.reverse());
    turned
}

/// One edge is a walk.
pub proof fn lemma_edge_reaches(edges: Seq<(usize, usize)>, from: usize, to: usize)
    requires
        edges.contains((from, to)),
    ensures
        reaches(edges, from, to),
{
    let walk = seq![from, to];
    assert forall|k: int| 0 <= k < walk.len() - 1 implies #[trigger] step_ok(edges, walk, k) by {
        assert(walk[k] == from && walk[k + 1] == to);
    }
    assert(is_walk(edges, walk) && walk.first() == from && walk.last() == to);
}

/// A walk goes on along one more edge.
pub proof fn lemma_reaches_step(edges: Seq<(usize, usize)>, from: usize, via: usize, to: usize)
    requires
        reaches(edges, from, via),
        edges.contains((via, to)),
    ensures
        reaches(edges, from, to),
{
    let walk = choose|walk: Seq<usize>| #[trigger]
        is_walk(edges, walk) && walk.first() == from && walk.last() == via;
    let longer = walk.push(to);
    assert forall|k: int| 0 <= k < longer.len() - 1 implies #[trigger] step_ok(edges, longer, k) by {
        if k < walk.len() - 1 {
            assert(step_ok(edges, walk, k));
            assert(longer[k] == walk[k] && longer[k + 1] == walk[k + 1]);
        } else {
            assert(longer[k] == via && longer[k + 1] == to);
        }
    }
    assert(is_walk(edges, longer) && longer.first() == from && longer.last() == to);
}

/// Whether every edge that leaves `node` leads to a marked node.
pub open spec fn closed_at(edges: Seq<(usize, usize)>, seen: Seq<bool>, node: usize) -> bool {
    forall|to: usize| #[trigger] edges.contains((node, to)) ==> to < seen.len() && seen[to as int]
}

/// Whether the marks hold all that the edges lead to from `start` and
/// from every marked node.
pub open spec fn closed_from(edges: Seq<(usize, usize)>, seen: Seq<bool>, start: usize) -> bool {
    &&& closed_at(edges, seen, start)
    &&& forall|node: usize| node < seen.len() && seen[node as int] ==> #[trigger] closed_at(edges, seen, node)
}

/// Marks that are closed from `start` hold the end of every walk that
/// begins there.
pub proof fn lemma_walk_is_marked(
    edges: Seq<(usize, usize)>,
    seen: Seq<bool>,
    start: usize,
    walk: Seq<usize>,
)
    requires
        closed_from(edges, seen, start),
        is_walk(edges, walk),
        walk.first() == start,
    ensures
        walk.last() < seen.len(),
        seen[walk.last() as int],
    decreases walk.len(),
{
    let last = walk.len() - 1;
    assert(step_ok(edges, walk, last - 1));
    if walk.len() == 2 {
        assert(edges.contains((start, walk.last())));
    } else {
        let shorter = walk.drop_last();
        assert forall|k: int| 0 <= k < shorter.len() - 1 implies #[trigger] step_ok(
            edges,
            shorter,
            k,
        ) by {
            assert(step_ok(edges, walk, k));
        }
        lemma_walk_is_marked(edges, seen, start, shorter);
        let via = shorter.last();
        assert(closed_at(edges, seen, via));
        assert(edges.contains((via, walk.last())));
    }
}

/// The number of nodes that are not marked.
pub open spec fn count_unseen(seen: Seq<bool>) -> nat
    decreases seen.len(),
{
    if seen.len() == 0 {
        0
    } else if seen.last() {
        count_unseen(seen.drop_last())
    } else {
        count_unseen(seen.drop_last()) + 1
    }
}

/// Marking a node that was not marked leaves one unmarked node fewer.
pub proof fn lemma_mark_counts(seen: Seq<bool>, node: int)
    requires
        0 <= node < seen.len(),
        !seen[node],
    ensures
        count_unseen(seen.update(node, true)) + 1 == count_unseen(seen),
    decreases seen.len(),
{
    let marked = seen.update(node, true);
    if node == seen.len() - 1 {
        assert(marked.drop_last() =~= seen.drop_last());
    } else {
        lemma_mark_counts(seen.drop_last(), node);
        assert(marked.drop_last() =~= seen.drop_last().update(node, true));
    }
}

/// What the neighbours that `petgraph` lists for a node are: the
/// targets of its edges, each of them a node.
pub proof fn lemma_listed_targets(edges: Seq<(usize, usize)>, n: nat, node: usize, list: Seq<usize>)
    requires
        edges_within(edges, n),
        list == targets_of(edges, node).reverse(),
    ensures
        forall|k: int| 0 <= k < list.len() ==> edges.contains((node, #[trigger] list[k])) && list[k] < n,
        forall|to: usize| #[trigger] edges.contains((node, to)) ==> list.contains(to),
{
    let found = targets_of(edges, node);
    assert forall|k: int| 0 <= k < list.len() implies edges.contains((node, #[trigger] list[k]))
        && list[k] < n by {
        assert(list[k] == found[found.len() - 1 - k]);
        assert(found.contains(list[k]));
        lemma_targets(edges, node, list[k]);
        let e = choose|e: int| 0 <= e < edges.len() && edges[e] == (node, list[k]);
        assert(edges[e].1 < n);
    }
    assert forall|to: usize| #[trigger] edges.contains((node, to)) implies list.contains(to) by {
        lemma_targets(edges, node, to);
        let j = choose|j: int| 0 <= j < found.len() && found[j] == to;
        assert(list[found.len() - 1 - j] == to);
    }
}

/// Marks every node that can be reached from `start` along one edge or
/// more, and no other.
pub(crate) fn reachable_from(g: &Topology, start: usize) -> (seen: Vec<bool>)
    requires
        edges_within(topology_edges(*g), topology_nodes(*g)),
    ensures
        seen.len() == topology_nodes(*g),
        forall|node: usize|
            reaches(topology_edges(*g), start, node) <==> node < seen.len() && seen[node as int],
{
    let ghost edges = topology_edges(*g);
    let n = topology_node_count(g);
    let mut seen: Vec<bool> = Vec::new();
    while seen.len() < n
        invariant
            seen.len() <= n,
            forall|k: int| 0 <= k < seen.len() ==> !seen[k],
        decreases n - seen.len(),
    {
        seen.push(false);
    }
    let first = topology_neighbors(g, start);
    proof {
        lemma_listed_targets(edges, n as nat, start, first@);
    }
    let mut j: usize = 0;
    while j < first.len()
        invariant
            j <= first.len(),
            seen.len() == n,
            edges == topology_edges(*g),
            forall|k: int| 0 <= k < first.len() ==> edges.contains((start, #[trigger] first[k])) && first[k] < n,
            forall|k: int| 0 <= k < j ==> seen[first[k] as int],
            forall|node: usize| node < n && seen[node as int] ==> reaches(edges, start, node),
        decreases first.len() - j,
    {
        let to = first[j];
        proof {
            lemma_edge_reaches(edges, start, to);
        }
        seen.set(to, true);
        j += 1;
    }
    assert(closed_at(edges, seen@, start)) by {
        assert forall|to: usize| #[trigger] edges.contains((start, to)) implies to < seen@.len()
            && seen@[to as int] by {
            let k = choose|k: int| 0 <= k < first.len() && first[k] == to;
            assert(seen[first[k] as int]);
        }
    }
    let mut changed = true;
    while changed
        invariant
            seen.len() == n,
            n == topology_nodes(*g),
            edges == topology_edges(*g),
            edges_within(edges, n as nat),
            closed_at(edges, seen@, start),
            forall|node: usize| node < n && seen[node as int] ==> reaches(edges, start, node),
            !changed ==> closed_from(edges, seen@, start),
        decreases count_unseen(seen@), (if changed { 1int } else { 0int }),
    {
        changed = false;
        let ghost before = seen@;
        let mut node: usize = 0;
        while node < n
            invariant
                node <= n,
                seen.len() == n,
                n == topology_nodes(*g),
                edges == topology_edges(*g),
                edges_within(edges, n as nat),
                before.len() == n,
                closed_at(edges, seen@, start),
                forall|other: usize| other < n && seen[other as int] ==> reaches(edges, start, other),
                !changed ==> seen@ == before,
                !changed ==> forall|other: usize| other < node && seen[other as int] ==> #[trigger] closed_at(edges, seen@, other),
                changed ==> count_unseen(seen@) < count_unseen(before),
            decreases n - node,
        {
            if seen[node] {
                let list = topology_neighbors(g, node);
                proof {
                    lemma_listed_targets(edges, n as nat, node, list@);
                }
                let mut k: usize = 0;
                while k < list.len()
                    invariant
                        k <= list.len(),
                        node < n,
                        seen.len() == n,
                        edges == topology_edges(*g),
                        before.len() == n,
                        seen[node as int],
                        closed_at(edges, seen@, start),
                        forall|i: int| 0 <= i < list.len() ==> edges.contains((node, #[trigger] list[i])) && list[i] < n,
                        forall|i: int| 0 <= i < k ==> seen[list[i] as int],
                        forall|other: usize| other < n && seen[other as int] ==> reaches(edges, start, other),
                        !changed ==> seen@ == before,
                        !changed ==> forall|other: usize| other < node && before[other as int] ==> #[trigger] closed_at(edges, before, other),
                        changed ==> count_unseen(seen@) < count_unseen(before),
                    decreases list.len() - k,
                {
                    let to = list[k];
                    if !seen[to] {
                        proof {
                            lemma_reaches_step(edges, start, node, to);
                            lemma_mark_counts(seen@, to as int);
                        }
                        seen.set(to, true);
                        changed = true;
                    }
                    k += 1;
                }
                proof {
                    if !changed {
                        assert forall|to: usize| #[trigger] edges.contains((node, to)) implies to
                            < seen@.len() && seen@[to as int] by {
                            let i = choose|i: int| 0 <= i < list.len() && list[i] == to;
                            assert(seen[list[i] as int]);
                        }
                        assert(closed_at(edges, seen@, node));
                    }
                }
            }
            node += 1;
        }
    }
    proof {
        assert forall|node: usize| reaches(edges, start, node) implies node < seen.len()
            && seen[node as int] by {
            let walk = choose|walk: Seq<usize>| #[trigger]
                is_walk(edges, walk) && walk.first() == start && walk.last() == node;
            lemma_walk_is_marked(edges, seen@, start, walk);
        }
    }
    seen
}

/// The nodes that can be reached from themselves, in rising order.
pub(crate) fn cycle_members(g: &Topology) -> (members: Vec<usize>)
    requires
        edges_within(topology_edges(*g), topology_nodes(*g)),
    ensures
        members@ == nodes_where(
            topology_nodes(*g) as int,
            |node: usize| reaches(topology_edges(*g), node, node),
        ),
{
    let ghost on_cycle = |node: usize| reaches(topology_edges(*g), node, node);
    let n = topology_node_count(g);
    let mut members: Vec<usize> = Vec::new();
    let mut node: usize = 0;
    while node < n
        invariant
            node <= n,
            n == topology_nodes(*g),
            edges_within(topology_edges(*g), topology_nodes(*g)),
            on_cycle == |node: usize| reaches(topology_edges(*g), node, node),
            members@ == nodes_where(node as int, on_cycle),
        decreases n - node,
    {
        let seen = reachable_from(g, node);
        assert(on_cycle(node) == seen[node as int]);
        if seen[node] {
            members.push(node);
        }
        node += 1;
    }
    members
}

} // verus!
