//! The dependency graph of the programs.
//!
//! A graph is built from a system and exists only if the system is
//! sound: every program has a name of its own and an executable, every
//! dependency names a program, some program depends on nothing, and no
//! program depends on itself, directly or through others. An edge leads
//! from a dependency to the program that names it, one edge however
//! often the program names it. Nodes are listed in the order of the
//! configuration, neighbours in the order in which the configuration
//! names them, and no neighbour twice.

use crate::config::{
    is_root, program_views, system_defect, texts, Program, ProgramView, System, ValidationError,
    ValidationErrorView,
};
pub use crate::topology::NodeHandle;
use crate::topology::{
    cycle_members, dot_text, edges_within, has_cycle, is_external, lemma_reverse_twice,
    lemma_sources, lemma_targets, names_of, neighbours, nodes_where, reaches, reversed,
    sources_of, targets_of, topology_add_edge, topology_add_node, topology_dot, topology_edges,
    topology_externals, topology_is_cyclic, topology_neighbors, topology_neighbors_directed,
    topology_new, topology_nodes, Topology,
};
use vstd::prelude::*;

verus! {

/// The first position at or after `from` of a program with the given
/// name; the number of programs if there is none.
pub open spec fn position_from(progs: Seq<ProgramView>, name: Seq<char>, from: int) -> int
    decreases progs.len() - from,
{
    if from >= progs.len() {
        progs.len() as int
    } else if progs[from].name == name {
        from
    } else {
        position_from(progs, name, from + 1)
    }
}

/// The position of the first program with the given name; the number
/// of programs if there is none.
pub open spec fn position(progs: Seq<ProgramView>, name: Seq<char>) -> int {
    position_from(progs, name, 0)
}

/// Whether the name at `k` of a list stands earlier in the list too.
pub open spec fn named_before(names: Seq<Seq<char>>, k: int) -> bool {
    exists|j: int| 0 <= j < k && #[trigger] names[j] == names[k]
}

/// The edges that the first `k` dependencies of the program at `i`
/// call for, in their order: one for each name, where it stands first.
pub open spec fn edges_into(progs: Seq<ProgramView>, i: int, k: int) -> Seq<(usize, usize)>
    decreases k,
{
    if k <= 0 {
        Seq::empty()
    } else if named_before(progs[i].depends, k - 1) {
        edges_into(progs, i, k - 1)
    } else {
        edges_into(progs, i, k - 1).push(
            (position(progs, progs[i].depends[k - 1]) as usize, i as usize),
        )
    }
}

/// The edges that the first `n` programs call for, in their order.
pub open spec fn edges_upto(progs: Seq<ProgramView>, n: int) -> Seq<(usize, usize)>
    decreases n,
{
    if n <= 0 {
        Seq::empty()
    } else {
        edges_upto(progs, n - 1) + edges_into(progs, n - 1, progs[n - 1].depends.len() as int)
    }
}

/// The edges of the graph of a list of programs: for each program in
/// turn, and each of its dependencies in turn, one edge from the
/// dependency to the program. A dependency that a program names again
/// gets no second edge.
pub open spec fn dependency_edges(progs: Seq<ProgramView>) -> Seq<(usize, usize)> {
    edges_upto(progs, progs.len() as int)
}

/// The first of the first `k` dependencies of the program at `i` that
/// names no program.
pub open spec fn unknown_in(progs: Seq<ProgramView>, i: int, k: int) -> Option<Seq<char>>
    decreases k,
{
    if k <= 0 {
        None
    } else {
        match unknown_in(progs, i, k - 1) {
            Some(name) => Some(name),
            None => if position(progs, progs[i].depends[k - 1]) < progs.len() {
                None
            } else {
                Some(progs[i].depends[k - 1])
            },
        }
    }
}

/// The first dependency of the first `n` programs that names no
/// program.
pub open spec fn unknown_upto(progs: Seq<ProgramView>, n: int) -> Option<Seq<char>>
    decreases n,
{
    if n <= 0 {
        None
    } else {
        match unknown_upto(progs, n - 1) {
            Some(name) => Some(name),
            None => unknown_in(progs, n - 1, progs[n - 1].depends.len() as int),
        }
    }
}

/// The names of the programs that depend on themselves, in the order
/// of the configuration.
pub open spec fn cycle_names(progs: Seq<ProgramView>) -> Seq<Seq<char>> {
    let members = nodes_where(
        progs.len() as int,
        |node: usize| reaches(dependency_edges(progs), node, node),
    );
    Seq::new(members.len(), |k: int| progs[members[k] as int].name)
}

/// What keeps a list of programs from forming a graph, if anything:
/// what is wrong with the system itself, else the first dependency that
/// names no program, else the programs that depend on themselves.
pub open spec fn graph_defect(progs: Seq<ProgramView>) -> Option<ValidationErrorView> {
    match system_defect(progs) {
        Some(e) => Some(e),
        None => match unknown_upto(progs, progs.len() as int) {
            Some(name) => Some(ValidationErrorView::UnknownDependency(name)),
            None => if has_cycle(dependency_edges(progs)) {
                Some(ValidationErrorView::Cycle(cycle_names(progs)))
            } else {
                None
            },
        },
    }
}

/// Mathematical value of a [`Graph`]: the programs and the edges.
pub ghost struct GraphView {
    pub nodes: Seq<ProgramView>,
    pub edges: Seq<(usize, usize)>,
}

/// Whether programs and edges are those of a sound system.
pub open spec fn valid_graph(v: GraphView) -> bool {
    &&& graph_defect(v.nodes).is_none()
    &&& v.edges == dependency_edges(v.nodes)
}

/// Whether some later program names the program at `i` as a dependency.
pub open spec fn is_dependency(progs: Seq<ProgramView>, i: int) -> bool {
    exists|j: int, k: int|
        0 <= j < progs.len() && 0 <= k < progs[j].depends.len() && #[trigger] progs[j].depends[k]
            == progs[i].name
}

/// Whether a predicate holds of every node of a list.
pub open spec fn all_hold(list: Seq<usize>, pred: spec_fn(NodeHandle) -> bool) -> bool {
    forall|k: int| 0 <= k < list.len() ==> pred(#[trigger] list[k])
}

/// The nodes of a list that a predicate keeps, in their order.
pub open spec fn kept(list: Seq<usize>, keep: spec_fn(NodeHandle) -> bool) -> Seq<usize>
    decreases list.len(),
{
    if list.len() == 0 {
        Seq::empty()
    } else if keep(list.last()) {
        kept(list.drop_last(), keep).push(list.last())
    } else {
        kept(list.drop_last(), keep)
    }
}

/// The other side.
pub open spec fn opposite(dir: petgraph::Direction) -> petgraph::Direction {
    match dir {
        petgraph::Direction::Outgoing => petgraph::Direction::Incoming,
        petgraph::Direction::Incoming => petgraph::Direction::Outgoing,
    }
}

/// The neighbours of `node` on one side all of whose own neighbours on
/// the other side satisfy the predicate.
pub open spec fn unlocked_towards(
    edges: Seq<(usize, usize)>,
    node: NodeHandle,
    dir: petgraph::Direction,
    pred: spec_fn(NodeHandle) -> bool,
) -> Seq<usize> {
    kept(
        neighbours(edges, node, dir),
        |next: NodeHandle| all_hold(neighbours(edges, next, opposite(dir)), pred),
    )
}

/// The programs that depend on `node` and all of whose dependencies
/// satisfy the predicate.
pub open spec fn unlocked(
    edges: Seq<(usize, usize)>,
    node: NodeHandle,
    pred: spec_fn(NodeHandle) -> bool,
) -> Seq<usize> {
    unlocked_towards(edges, node, petgraph::Direction::Outgoing, pred)
}

/// The dependencies of `node` all of whose dependents satisfy the
/// predicate.
pub open spec fn unlocked_back(
    edges: Seq<(usize, usize)>,
    node: NodeHandle,
    pred: spec_fn(NodeHandle) -> bool,
) -> Seq<usize> {
    unlocked_towards(edges, node, petgraph::Direction::Incoming, pred)
}

/// Whether a function answers as a predicate says, on every node.
pub open spec fn computes<F: Fn(NodeHandle) -> bool>(
    f: F,
    pred: spec_fn(NodeHandle) -> bool,
) -> bool {
    forall|node: NodeHandle, answer: bool| call_ensures(f, (node,), answer) ==> answer == pred(node)
}

/// Where a name is found, the program has it, and no earlier one has.
pub proof fn lemma_position(progs: Seq<ProgramView>, name: Seq<char>, from: int)
    requires
        0 <= from <= progs.len(),
    ensures
        from <= position_from(progs, name, from) <= progs.len(),
        position_from(progs, name, from) < progs.len() ==> progs[position_from(
            progs,
            name,
            from,
        )].name == name,
        forall|k: int| from <= k < position_from(progs, name, from) ==> (#[trigger] progs[k]).name != name,
    decreases progs.len() - from,
{
    if from < progs.len() && progs[from].name != name {
        lemma_position(progs, name, from + 1);
    }
}

/// Among programs with names of their own, a name is found at the
/// program that has it.
pub proof fn lemma_position_of_name(progs: Seq<ProgramView>, i: int)
    requires
        0 <= i < progs.len(),
        crate::config::unique_names(progs),
    ensures
        position(progs, progs[i].name) == i,
{
    lemma_position(progs, progs[i].name, 0);
    let found = position(progs, progs[i].name);
    if found < i {
        assert(progs[found].name != progs[i].name);
    }
}

/// An unknown dependency among the first programs stays the first
/// unknown one when more programs follow.
pub proof fn lemma_unknown_sticks(progs: Seq<ProgramView>, m: int, n: int)
    requires
        0 <= m <= n,
        unknown_upto(progs, m).is_some(),
    ensures
        unknown_upto(progs, n) == unknown_upto(progs, m),
    decreases n - m,
{
    if m < n {
        lemma_unknown_sticks(progs, m, n - 1);
    }
}

/// An unknown dependency among the first dependencies of a program
/// stays the first unknown one when more dependencies follow.
pub proof fn lemma_unknown_in_sticks(progs: Seq<ProgramView>, i: int, k: int, n: int)
    requires
        0 <= k <= n,
        unknown_in(progs, i, k).is_some(),
    ensures
        unknown_in(progs, i, n) == unknown_in(progs, i, k),
    decreases n - k,
{
    if k < n {
        lemma_unknown_in_sticks(progs, i, k, n - 1);
    }
}

/// Without an unknown dependency among the first `n` programs, each
/// dependency of each of them names a program.
pub proof fn lemma_all_known(progs: Seq<ProgramView>, n: int, i: int, k: int)
    requires
        0 <= i < n <= progs.len(),
        0 <= k < progs[i].depends.len(),
        unknown_upto(progs, n).is_none(),
    ensures
        0 <= position(progs, progs[i].depends[k]) < progs.len(),
    decreases n,
{
    lemma_position(progs, progs[i].depends[k], 0);
    if i < n - 1 {
        lemma_all_known(progs, n - 1, i, k);
    } else {
        lemma_known_in(progs, i, progs[i].depends.len() as int, k);
    }
}

/// Without an unknown dependency among the first `n` dependencies of a
/// program, each of them names a program.
pub proof fn lemma_known_in(progs: Seq<ProgramView>, i: int, n: int, k: int)
    requires
        0 <= k < n,
        unknown_in(progs, i, n).is_none(),
    ensures
        position(progs, progs[i].depends[k]) < progs.len(),
    decreases n,
{
    if k < n - 1 {
        lemma_known_in(progs, i, n - 1, k);
    }
}

/// Each edge among those of the first `k` dependencies of a program
/// leads to that program from where one of them is found, and each of
/// these dependencies has its edge.
pub proof fn lemma_edges_into(progs: Seq<ProgramView>, i: int, k: int)
    requires
        0 <= i < progs.len() <= usize::MAX,
        0 <= k <= progs[i].depends.len(),
    ensures
        edges_into(progs, i, k).len() <= k,
        forall|e: int|
            0 <= e < edges_into(progs, i, k).len() ==> (#[trigger] edges_into(progs, i, k)[e]).1
                == i && exists|j: int|
                0 <= j < k && edges_into(progs, i, k)[e].0 == #[trigger] position(
                    progs,
                    progs[i].depends[j],
                ) as usize,
        forall|j: int|
            0 <= j < k ==> edges_into(progs, i, k).contains(
                (#[trigger] position(progs, progs[i].depends[j]) as usize, i as usize),
            ),
    decreases k,
{
    if k > 0 {
        lemma_edges_into(progs, i, k - 1);
        let names = progs[i].depends;
        let shorter = edges_into(progs, i, k - 1);
        let all = edges_into(progs, i, k);
        let last = (position(progs, names[k - 1]) as usize, i as usize);
        if named_before(names, k - 1) {
            let j = choose|j: int| 0 <= j < k - 1 && #[trigger] names[j] == names[k - 1];
            assert(shorter.contains((position(progs, names[j]) as usize, i as usize)));
        } else {
            assert(all[shorter.len() as int] == last);
            assert forall|e: int| 0 <= e < all.len() implies (#[trigger] all[e]).1 == i
                && exists|j: int|
                0 <= j < k && all[e].0 == #[trigger] position(progs, names[j]) as usize by {
                if e < shorter.len() {
                    assert(all[e] == shorter[e]);
                    let j = choose|j: int|
                        0 <= j < k - 1 && shorter[e].0 == #[trigger] position(
                            progs,
                            names[j],
                        ) as usize;
                    assert(all[e].0 == position(progs, names[j]) as usize);
                } else {
                    assert(all[e].0 == position(progs, names[k - 1]) as usize);
                }
            }
            assert forall|j: int| 0 <= j < k implies all.contains(
                (#[trigger] position(progs, names[j]) as usize, i as usize),
            ) by {
                let edge = (position(progs, names[j]) as usize, i as usize);
                if j < k - 1 {
                    assert(shorter.contains(edge));
                    let e = choose|e: int| 0 <= e < shorter.len() && shorter[e] == edge;
                    assert(all[e] == edge);
                }
            }
        }
    }
}

/// Each edge of the first `n` programs enters one of them and comes
/// from where one of its dependencies is found.
pub proof fn lemma_edge_is_dependency(progs: Seq<ProgramView>, n: int, e: int)
    requires
        0 <= n <= progs.len() <= usize::MAX,
        0 <= e < edges_upto(progs, n).len(),
    ensures
        0 <= edges_upto(progs, n)[e].1 < n,
        exists|k: int|
            0 <= k < progs[edges_upto(progs, n)[e].1 as int].depends.len() && edges_upto(
                progs,
                n,
            )[e].0 == #[trigger] position(
                progs,
                progs[edges_upto(progs, n)[e].1 as int].depends[k],
            ) as usize,
    decreases n,
{
    let earlier = edges_upto(progs, n - 1);
    if e < earlier.len() {
        lemma_edge_is_dependency(progs, n - 1, e);
    } else {
        let at = e - earlier.len();
        lemma_edges_into(progs, n - 1, progs[n - 1].depends.len() as int);
        let last = edges_into(progs, n - 1, progs[n - 1].depends.len() as int);
        assert(edges_upto(progs, n)[e] == last[at]);
        let k = choose|k: int|
            0 <= k < progs[n - 1].depends.len() && last[at].0 == #[trigger] position(
                progs,
                progs[n - 1].depends[k],
            ) as usize;
        assert(last[at].0 == position(progs, progs[n - 1].depends[k]) as usize);
    }
}

/// Each dependency of each of the first `n` programs has its edge.
pub proof fn lemma_dependency_is_edge(progs: Seq<ProgramView>, n: int, i: int, k: int)
    requires
        0 <= i < n <= progs.len() <= usize::MAX,
        0 <= k < progs[i].depends.len(),
    ensures
        edges_upto(progs, n).contains((position(progs, progs[i].depends[k]) as usize, i as usize)),
    decreases n,
{
    let earlier = edges_upto(progs, n - 1);
    let last = edges_into(progs, n - 1, progs[n - 1].depends.len() as int);
    if i < n - 1 {
        lemma_dependency_is_edge(progs, n - 1, i, k);
        let e = choose|e: int|
            0 <= e < earlier.len() && earlier[e] == (
                position(progs, progs[i].depends[k]) as usize,
                i as usize,
            );
        assert(edges_upto(progs, n)[e] == earlier[e]);
    } else {
        lemma_edges_into(progs, i, progs[i].depends.len() as int);
        let edge = (position(progs, progs[i].depends[k]) as usize, i as usize);
        assert(last.contains(edge));
        let at = choose|at: int| 0 <= at < last.len() && last[at] == edge;
        assert(edges_upto(progs, n)[earlier.len() + at] == last[at]);
    }
}

/// The edges of programs whose dependencies are all known lie within
/// the programs.
pub proof fn lemma_edges_within(progs: Seq<ProgramView>)
    requires
        progs.len() <= usize::MAX,
        unknown_upto(progs, progs.len() as int).is_none(),
    ensures
        edges_within(dependency_edges(progs), progs.len()),
{
    let edges = dependency_edges(progs);
    assert forall|e: int| 0 <= e < edges.len() implies (#[trigger] edges[e]).0 < progs.len()
        && edges[e].1 < progs.len() by {
        lemma_edge_is_dependency(progs, progs.len() as int, e);
        let to = edges[e].1 as int;
        let k = choose|k: int|
            0 <= k < progs[to].depends.len() && edges[e].0 == #[trigger] position(
                progs,
                progs[to].depends[k],
            ) as usize;
        lemma_all_known(progs, progs.len() as int, to, k);
    }
}

/// In the graph of a sound system a program without dependencies is
/// exactly a node that no edge enters.
pub proof fn lemma_root_is_external(progs: Seq<ProgramView>, i: int)
    requires
        0 <= i < progs.len() <= usize::MAX,
        unknown_upto(progs, progs.len() as int).is_none(),
    ensures
        is_external(dependency_edges(progs), i as usize, petgraph::Direction::Incoming) == is_root(
            progs,
            i,
        ),
{
    let edges = dependency_edges(progs);
    let sources = sources_of(edges, i as usize);
    if sources.len() > 0 {
        assert(sources.contains(sources[0]));
        lemma_sources(edges, i as usize, sources[0]);
        let e = choose|e: int| 0 <= e < edges.len() && edges[e] == (sources[0], i as usize);
        lemma_edge_is_dependency(progs, progs.len() as int, e);
    }
    if progs[i].depends.len() > 0 {
        lemma_dependency_is_edge(progs, progs.len() as int, i, 0);
        lemma_sources(edges, i as usize, position(progs, progs[i].depends[0]) as usize);
    }
}

/// In the graph of a sound system a program that no program names as a
/// dependency is exactly a node that no edge leaves.
pub proof fn lemma_leaf_is_external(progs: Seq<ProgramView>, i: int)
    requires
        0 <= i < progs.len() <= usize::MAX,
        crate::config::unique_names(progs),
        unknown_upto(progs, progs.len() as int).is_none(),
    ensures
        is_external(dependency_edges(progs), i as usize, petgraph::Direction::Outgoing)
            == !is_dependency(progs, i),
{
    let edges = dependency_edges(progs);
    let targets = targets_of(edges, i as usize);
    if targets.len() > 0 {
        assert(targets.contains(targets[0]));
        lemma_targets(edges, i as usize, targets[0]);
        let e = choose|e: int| 0 <= e < edges.len() && edges[e] == (i as usize, targets[0]);
        lemma_edge_is_dependency(progs, progs.len() as int, e);
        let j = targets[0] as int;
        let k = choose|k: int|
            0 <= k < progs[j].depends.len() && edges[e].0 == #[trigger] position(
                progs,
                progs[j].depends[k],
            ) as usize;
        lemma_position(progs, progs[j].depends[k], 0);
        assert(progs[j].depends[k] == progs[i].name);
    }
    if is_dependency(progs, i) {
        let (j, k) = choose|j: int, k: int|
            0 <= j < progs.len() && 0 <= k < progs[j].depends.len() && #[trigger] progs[j].depends[k]
                == progs[i].name;
        lemma_position_of_name(progs, i);
        lemma_dependency_is_edge(progs, progs.len() as int, j, k);
        lemma_targets(edges, i as usize, j as usize);
    }
}

/// Predicates that agree below `n` keep the same nodes.
pub proof fn lemma_nodes_where_agree(
    n: int,
    first: spec_fn(usize) -> bool,
    second: spec_fn(usize) -> bool,
)
    requires
        n <= usize::MAX,
        forall|node: usize| node < n ==> #[trigger] first(node) == second(node),
    ensures
        nodes_where(n, first) == nodes_where(n, second),
    decreases n,
{
    if n > 0 {
        lemma_nodes_where_agree(n - 1, first, second);
    }
}

/// The nodes kept are those below `n` that the predicate holds of.
pub proof fn lemma_nodes_where_holds(n: int, keep: spec_fn(usize) -> bool, node: usize)
    requires
        0 <= n <= usize::MAX,
    ensures
        nodes_where(n, keep).contains(node) <==> node < n && keep(node),
    decreases n,
{
    if n > 0 {
        lemma_nodes_where_holds(n - 1, keep, node);
        let shorter = nodes_where(n - 1, keep);
        let all = nodes_where(n, keep);
        if keep((n - 1) as usize) {
            if shorter.contains(node) {
                let k = choose|k: int| 0 <= k < shorter.len() && shorter[k] == node;
                assert(all[k] == node);
            }
            if node == n - 1 {
                assert(all[all.len() - 1] == node);
            }
            if all.contains(node) && node != n - 1 {
                let k = choose|k: int| 0 <= k < all.len() && all[k] == node;
                assert(shorter[k] == node);
            }
        }
    }
}

/// The nodes of a list that a predicate keeps are nodes of the list
/// that the predicate holds of.
pub proof fn lemma_kept_from(list: Seq<usize>, keep: spec_fn(NodeHandle) -> bool, k: int)
    requires
        0 <= k < kept(list, keep).len(),
    ensures
        list.contains(kept(list, keep)[k]),
        keep(kept(list, keep)[k]),
    decreases list.len(),
{
    if list.len() > 0 {
        let shorter = kept(list.drop_last(), keep);
        if k < shorter.len() {
            lemma_kept_from(list.drop_last(), keep, k);
            let j = choose|j: int|
                0 <= j < list.drop_last().len() && list.drop_last()[j] == shorter[k];
            assert(list[j] == shorter[k]);
        } else {
            assert(list[list.len() - 1] == kept(list, keep)[k]);
        }
    }
}

/// Of a list without repetition, what a predicate keeps is without
/// repetition.
pub proof fn lemma_kept_once(list: Seq<usize>, keep: spec_fn(NodeHandle) -> bool)
    requires
        list.no_duplicates(),
    ensures
        kept(list, keep).no_duplicates(),
    decreases list.len(),
{
    if list.len() > 0 {
        let rest = list.drop_last();
        lemma_kept_once(rest, keep);
        let shorter = kept(rest, keep);
        if keep(list.last()) {
            assert forall|x: int| 0 <= x < shorter.len() implies shorter[x] != list.last() by {
                lemma_kept_from(rest, keep, x);
                let j = choose|j: int| 0 <= j < rest.len() && rest[j] == shorter[x];
                assert(list[j] == rest[j]);
            }
        }
    }
}

/// Among edges without repetition, no node is a target or a source
/// of a node twice.
pub proof fn lemma_neighbours_once(edges: Seq<(usize, usize)>, node: usize)
    requires
        edges.no_duplicates(),
    ensures
        targets_of(edges, node).no_duplicates(),
        sources_of(edges, node).no_duplicates(),
    decreases edges.len(),
{
    if edges.len() > 0 {
        let rest = edges.drop_last();
        let last = edges.last();
        lemma_neighbours_once(rest, node);
        if last.0 == node {
            let shorter = targets_of(rest, node);
            assert forall|x: int| 0 <= x < shorter.len() implies shorter[x] != last.1 by {
                if shorter[x] == last.1 {
                    assert(shorter.contains(last.1));
                    lemma_targets(rest, node, last.1);
                    let e = choose|e: int| 0 <= e < rest.len() && rest[e] == (node, last.1);
                    assert(edges[e] == edges[edges.len() - 1]);
                }
            }
        }
        if last.1 == node {
            let shorter = sources_of(rest, node);
            assert forall|x: int| 0 <= x < shorter.len() implies shorter[x] != last.0 by {
                if shorter[x] == last.0 {
                    assert(shorter.contains(last.0));
                    lemma_sources(rest, node, last.0);
                    let e = choose|e: int| 0 <= e < rest.len() && rest[e] == (last.0, node);
                    assert(edges[e] == edges[edges.len() - 1]);
                }
            }
        }
    }
}

/// The edges of the first `k` dependencies of a program, all of them
/// known, hold no edge twice.
pub proof fn lemma_edges_into_once(progs: Seq<ProgramView>, i: int, k: int)
    requires
        0 <= i < progs.len() <= usize::MAX,
        0 <= k <= progs[i].depends.len(),
        unknown_in(progs, i, k).is_none(),
    ensures
        edges_into(progs, i, k).no_duplicates(),
    decreases k,
{
    if k > 0 {
        lemma_edges_into_once(progs, i, k - 1);
        lemma_edges_into(progs, i, k - 1);
        let names = progs[i].depends;
        let shorter = edges_into(progs, i, k - 1);
        if !named_before(names, k - 1) {
            let found = position(progs, names[k - 1]);
            lemma_position(progs, names[k - 1], 0);
            assert forall|e: int| 0 <= e < shorter.len() implies shorter[e] != (
                found as usize,
                i as usize,
            ) by {
                let j = choose|j: int|
                    0 <= j < k - 1 && shorter[e].0 == #[trigger] position(
                        progs,
                        names[j],
                    ) as usize;
                lemma_known_in(progs, i, k - 1, j);
                lemma_position(progs, names[j], 0);
                if position(progs, names[j]) == found {
                    assert(names[j] == names[k - 1]);
                }
            }
        }
    }
}

/// The edges of the first `n` programs, whose dependencies are all
/// known, hold no edge twice.
pub proof fn lemma_edges_once(progs: Seq<ProgramView>, n: int)
    requires
        0 <= n <= progs.len() <= usize::MAX,
        unknown_upto(progs, n).is_none(),
    ensures
        edges_upto(progs, n).no_duplicates(),
    decreases n,
{
    if n > 0 {
        lemma_edges_once(progs, n - 1);
        let earlier = edges_upto(progs, n - 1);
        let count = progs[n - 1].depends.len() as int;
        let last = edges_into(progs, n - 1, count);
        lemma_edges_into_once(progs, n - 1, count);
        lemma_edges_into(progs, n - 1, count);
        let all = edges_upto(progs, n);
        assert forall|x: int, y: int| 0 <= x < y < all.len() implies all[x] != all[y] by {
            if y < earlier.len() {
                assert(all[x] == earlier[x] && all[y] == earlier[y]);
            } else if x >= earlier.len() {
                assert(all[x] == last[x - earlier.len()] && all[y] == last[y - earlier.len()]);
            } else {
                lemma_edge_is_dependency(progs, n - 1, x);
                assert(all[x] == earlier[x]);
                assert(all[y] == last[y - earlier.len()]);
            }
        }
    }
}

/// In the graph of a sound system no program comes twice out of a
/// traversal: each program that depends on a node, and each dependency
/// of a node, is listed once, whatever the predicate.
pub proof fn lemma_unlocked_once(v: GraphView, node: NodeHandle, pred: spec_fn(NodeHandle) -> bool)
    requires
        v.nodes.len() <= usize::MAX,
        valid_graph(v),
    ensures
        unlocked(v.edges, node, pred).no_duplicates(),
        unlocked_back(v.edges, node, pred).no_duplicates(),
{
    lemma_edges_once(v.nodes, v.nodes.len() as int);
    lemma_neighbours_once(v.edges, node);
    lemma_kept_once(
        targets_of(v.edges, node),
        |next: NodeHandle| all_hold(neighbours(v.edges, next, petgraph::Direction::Incoming), pred),
    );
    lemma_kept_once(
        sources_of(v.edges, node),
        |next: NodeHandle| all_hold(neighbours(v.edges, next, petgraph::Direction::Outgoing), pred),
    );
}

/// In the graph of a sound system no program is its own neighbour:
/// a traversal from a node never yields the node itself.
pub proof fn lemma_unlocked_is_another(
    v: GraphView,
    node: NodeHandle,
    pred: spec_fn(NodeHandle) -> bool,
)
    requires
        valid_graph(v),
    ensures
        !unlocked(v.edges, node, pred).contains(node),
        !unlocked_back(v.edges, node, pred).contains(node),
{
    let forth = unlocked(v.edges, node, pred);
    let back = unlocked_back(v.edges, node, pred);
    let walk = seq![node, node];
    if forth.contains(node) {
        let k = choose|k: int| 0 <= k < forth.len() && forth[k] == node;
        lemma_kept_from(
            targets_of(v.edges, node),
            |next: NodeHandle|
                all_hold(neighbours(v.edges, next, petgraph::Direction::Incoming), pred),
            k,
        );
        lemma_targets(v.edges, node, node);
    }
    if back.contains(node) {
        let k = choose|k: int| 0 <= k < back.len() && back[k] == node;
        lemma_kept_from(
            sources_of(v.edges, node),
            |next: NodeHandle|
                all_hold(neighbours(v.edges, next, petgraph::Direction::Outgoing), pred),
            k,
        );
        lemma_sources(v.edges, node, node);
    }
    if v.edges.contains((node, node)) {
        assert(crate::topology::step_ok(v.edges, walk, 0));
        assert(crate::topology::is_walk(v.edges, walk));
        assert(reaches(v.edges, node, node));
    }
}

/// Whether the program at `a` names the program at `b` as a dependency.
pub open spec fn names_dependency(progs: Seq<ProgramView>, a: int, b: int) -> bool {
    exists|k: int| 0 <= k < progs[a].depends.len() && #[trigger] progs[a].depends[k] == progs[b].name
}

/// Whether each program of a chain names the one before it as a
/// dependency, and the chain ends at the program that it began with.
pub open spec fn is_dependency_cycle(progs: Seq<ProgramView>, chain: Seq<usize>) -> bool {
    &&& chain.len() >= 2
    &&& chain.first() == chain.last()
    &&& forall|j: int| 0 <= j < chain.len() ==> (#[trigger] chain[j]) < progs.len()
    &&& forall|j: int|
        0 <= j < chain.len() - 1 ==> #[trigger] names_dependency(
            progs,
            chain[j + 1] as int,
            chain[j] as int,
        )
}

/// A program that is its own dependency, directly or through other
/// programs, keeps the system from having a graph.
pub proof fn lemma_self_dependency_is_refused(progs: Seq<ProgramView>, chain: Seq<usize>)
    requires
        progs.len() <= usize::MAX,
        is_dependency_cycle(progs, chain),
    ensures
        graph_defect(progs).is_some(),
{
    if system_defect(progs).is_none() && unknown_upto(progs, progs.len() as int).is_none() {
        let edges = dependency_edges(progs);
        crate::config::lemma_sound_system(progs);
        assert forall|j: int| 0 <= j < chain.len() - 1 implies #[trigger] crate::topology::step_ok(
            edges,
            chain,
            j,
        ) by {
            let a = chain[j + 1] as int;
            let b = chain[j] as int;
            assert(names_dependency(progs, a, b));
            let k = choose|k: int|
                0 <= k < progs[a].depends.len() && #[trigger] progs[a].depends[k] == progs[b].name;
            lemma_position_of_name(progs, b);
            lemma_dependency_is_edge(progs, progs.len() as int, a, k);
        }
        assert(crate::topology::is_walk(edges, chain));
        assert(reaches(edges, chain.first(), chain.first()));
    }
}

/// The validated ensemble: the programs and the structure of their
/// dependencies.
pub struct Graph {
    programs: Vec<Program>,
    topology: Topology,
}

impl View for Graph {
    type V = GraphView;

    closed spec fn view(&self) -> GraphView {
        GraphView { nodes: program_views(self.programs@), edges: topology_edges(self.topology) }
    }
}

pub(crate) fn find_program(programs: &Vec<Program>, name: &String) -> (found: Option<usize>)
    ensures
        match found {
            Some(i) => i == position(program_views(programs@), name@) && i < programs.len(),
            None => position(program_views(programs@), name@) == programs.len(),
        },
{
    let ghost progs = program_views(programs@);
    let mut i: usize = 0;
    while i < programs.len()
        invariant
            i <= programs.len(),
            progs == program_views(programs@),
            position(progs, name@) == position_from(progs, name@, i as int),
        decreases programs.len() - i,
    {
        if programs[i].name == *name {
            assert(progs[i as int].name == name@);
            return Some(i);
        }
        assert(progs[i as int].name != name@);
        i += 1;
    }
    None
}

fn named_earlier(names: &Vec<String>, k: usize) -> (yes: bool)
    requires
        k < names.len(),
    ensures
        yes == named_before(texts(names@), k as int),
{
    let mut j: usize = 0;
    while j < k
        invariant
            j <= k < names.len(),
            forall|x: int| 0 <= x < j ==> #[trigger] texts(names@)[x] != texts(names@)[k as int],
        decreases k - j,
    {
        if names[j] == names[k] {
            assert(texts(names@)[j as int] == texts(names@)[k as int]);
            return true;
        }
        assert(texts(names@)[j as int] != texts(names@)[k as int]);
        j += 1;
    }
    false
}

fn member_names(programs: &Vec<Program>, members: &Vec<usize>) -> (names: Vec<String>)
    requires
        forall|k: int| 0 <= k < members.len() ==> members[k] < programs.len(),
    ensures
        texts(names@) == Seq::new(
            members@.len(),
            |k: int| program_views(programs@)[members@[k] as int].name,
        ),
{
    let mut names: Vec<String> = Vec::new();
    let mut k: usize = 0;
    while k < members.len()
        invariant
            k <= members.len(),
            names.len() == k,
            forall|j: int| 0 <= j < members.len() ==> members[j] < programs.len(),
            forall|j: int| 0 <= j < k ==> names[j]@ == programs[members[j] as int].name@,
        decreases members.len() - k,
    {
        names.push(programs[members[k]].name.clone());
        k += 1;
    }
    assert(texts(names@) =~= Seq::new(
        members@.len(),
        |k: int| program_views(programs@)[members@[k] as int].name,
    ));
    names
}

fn flip(dir: petgraph::Direction) -> (other: petgraph::Direction)
    ensures
        other == opposite(dir),
{
    match dir {
        petgraph::Direction::Outgoing => petgraph::Direction::Incoming,
        petgraph::Direction::Incoming => petgraph::Direction::Outgoing,
    }
}

fn all_visited<F: Fn(NodeHandle) -> bool>(list: &Vec<usize>, visited: &F) -> (ok: bool)
    requires
        forall|node: NodeHandle| call_requires(*visited, (node,)),
    ensures
        forall|pred: spec_fn(NodeHandle) -> bool| #[trigger]
            computes(*visited, pred) ==> ok == all_hold(list@, pred),
{
    let mut k: usize = 0;
    while k < list.len()
        invariant
            k <= list.len(),
            forall|node: NodeHandle| call_requires(*visited, (node,)),
            forall|pred: spec_fn(NodeHandle) -> bool| #[trigger]
                computes(*visited, pred) ==> forall|j: int| 0 <= j < k ==> pred(#[trigger] list[j]),
        decreases list.len() - k,
    {
        let answer = visited(list[k]);
        if !answer {
            assert forall|pred: spec_fn(NodeHandle) -> bool| #[trigger]
                computes(*visited, pred) implies !all_hold(list@, pred) by {
                assert(!pred(list[k as int]));
            }
            return false;
        }
        k += 1;
    }
    true
}

impl Graph {
    /// Whether the nodes of the structure are the programs.
    pub closed spec fn counted(&self) -> bool {
        topology_nodes(self.topology) == self.programs@.len()
    }

    /// Whether the graph is that of a sound system.
    pub open spec fn wf(&self) -> bool {
        self.counted() && valid_graph(self@)
    }

    /// Builds the graph of a system, or says what keeps the system from
    /// having one.
    pub fn from_config(sys: System) -> (built: Result<Graph, ValidationError>)
        ensures
            match built {
                Ok(graph) => graph.wf() && graph@.nodes == sys@.program,
                Err(e) => graph_defect(sys@.program) == Some(e@),
            },
    {
        let ghost progs = sys@.program;
        let checked = match System::validate(sys) {
            Ok(same) => same,
            Err(e) => {
                return Err(e);
            },
        };
        let programs = checked.program;
        assert(progs == program_views(programs@));
        let mut topology = topology_new();
        let mut i: usize = 0;
        while i < programs.len()
            invariant
                i <= programs.len(),
                topology_nodes(topology) == i,
                topology_edges(topology) == Seq::<(usize, usize)>::empty(),
            decreases programs.len() - i,
        {
            topology_add_node(&mut topology);
            i += 1;
        }
        assert(topology_edges(topology) =~= edges_upto(progs, 0));
        let n = programs.len();
        i = 0;
        while i < n
            invariant
                i <= n,
                n == programs.len(),
                progs == program_views(programs@),
                topology_nodes(topology) == n,
                topology_edges(topology) == edges_upto(progs, i as int),
                unknown_upto(progs, i as int).is_none(),
                system_defect(progs).is_none(),
                progs == sys@.program,
            decreases n - i,
        {
            let depends = &programs[i].depends;
            assert(progs[i as int].depends == texts(depends@));
            let mut k: usize = 0;
            assert(topology_edges(topology) =~= edges_upto(progs, i as int) + edges_into(
                progs,
                i as int,
                0,
            ));
            while k < depends.len()
                invariant
                    k <= depends.len(),
                    i < n,
                    n == programs.len(),
                    progs == program_views(programs@),
                    progs[i as int].depends == texts(depends@),
                    topology_nodes(topology) == n,
                    topology_edges(topology) == edges_upto(progs, i as int) + edges_into(
                        progs,
                        i as int,
                        k as int,
                    ),
                    unknown_upto(progs, i as int).is_none(),
                    unknown_in(progs, i as int, k as int).is_none(),
                    system_defect(progs).is_none(),
                    progs == sys@.program,
                decreases depends.len() - k,
            {
                let dep = &depends[k];
                assert(progs[i as int].depends[k as int] == dep@);
                match find_program(&programs, dep) {
                    None => {
                        proof {
                            assert(unknown_in(progs, i as int, k + 1) == Some(dep@));
                            lemma_unknown_in_sticks(
                                progs,
                                i as int,
                                k + 1,
                                progs[i as int].depends.len() as int,
                            );
                            assert(unknown_upto(progs, i + 1) == Some(dep@));
                            lemma_unknown_sticks(progs, i + 1, n as int);
                            assert(graph_defect(progs) == Some(
                                ValidationErrorView::UnknownDependency(dep@),
                            ));
                        }
                        return Err(ValidationError::UnknownDependency(dep.clone()));
                    },
                    Some(from) => {
                        if !named_earlier(depends, k) {
                            topology_add_edge(&mut topology, from, i);
                        }
                        assert(topology_edges(topology) =~= edges_upto(progs, i as int)
                            + edges_into(progs, i as int, k + 1));
                    },
                }
                k += 1;
            }
            i += 1;
        }
        proof {
            lemma_edges_within(progs);
        }
        match Graph::validate(&topology, &programs) {
            Ok(()) => Ok(Graph { programs, topology }),
            Err(e) => {
                proof {
                    let root = choose|r: int| 0 <= r < progs.len() && is_root(progs, r);
                    lemma_root_is_external(progs, root);
                    lemma_nodes_where_holds(
                        n as int,
                        |node: usize|
                            is_external(
                                topology_edges(topology),
                                node,
                                petgraph::Direction::Incoming,
                            ),
                        root as usize,
                    );
                }
                Err(e)
            },
        }
    }

    /// Checks the structure: some node must have no edge that enters
    /// it, and no node may be reached from itself.
    fn validate(topology: &Topology, programs: &Vec<Program>) -> (checked: Result<
        (),
        ValidationError,
    >)
        requires
            topology_nodes(*topology) == programs.len(),
            edges_within(topology_edges(*topology), topology_nodes(*topology)),
        ensures
            match checked {
                Ok(_) => !has_cycle(topology_edges(*topology)) && nodes_where(
                    programs.len() as int,
                    |node: usize|
                        is_external(topology_edges(*topology), node, petgraph::Direction::Incoming),
                ).len() > 0,
                Err(e) => if nodes_where(
                    programs.len() as int,
                    |node: usize|
                        is_external(topology_edges(*topology), node, petgraph::Direction::Incoming),
                ).len() == 0 {
                    e@ == ValidationErrorView::NoRoot
                } else {
                    has_cycle(topology_edges(*topology)) && e@ == ValidationErrorView::Cycle(
                        Seq::new(
                            nodes_where(
                                programs.len() as int,
                                |node: usize| reaches(topology_edges(*topology), node, node),
                            ).len(),
                            |k: int|
                                program_views(programs@)[nodes_where(
                                    programs.len() as int,
                                    |node: usize| reaches(topology_edges(*topology), node, node),
                                )[k] as int].name,
                        ),
                    )
                },
            },
    {
        let entries = topology_externals(topology, petgraph::Direction::Incoming);
        if entries.len() == 0 {
            return Err(ValidationError::NoRoot);
        }
        if topology_is_cyclic(topology) {
            let members = cycle_members(topology);
            proof {
                assert forall|k: int| 0 <= k < members.len() implies members[k]
                    < programs.len() by {
                    assert(members@.contains(members[k]));
                    lemma_nodes_where_holds(
                        programs.len() as int,
                        |node: usize| reaches(topology_edges(*topology), node, node),
                        members[k],
                    );
                }
            }
            let names = member_names(programs, &members);
            return Err(ValidationError::Cycle(names));
        }
        Ok(())
    }

    /// The number of programs.
    pub fn len(&self) -> (n: usize)
        ensures
            n == self@.nodes.len(),
    {
        self.programs.len()
    }

    /// The program of a node.
    pub fn node(&self, h: NodeHandle) -> (prog: &Program)
        requires
            h < self@.nodes.len(),
        ensures
            prog@ == self@.nodes[h as int],
    {
        &self.programs[h]
    }

    /// Every node, in the order of the configuration.
    pub fn all(&self) -> (handles: Vec<NodeHandle>)
        ensures
            handles@ == Seq::new(self@.nodes.len(), |i: int| i as usize),
    {
        let mut handles: Vec<NodeHandle> = Vec::new();
        let mut i: usize = 0;
        while i < self.programs.len()
            invariant
                i <= self.programs.len(),
                handles.len() == i,
                forall|k: int| 0 <= k < i ==> handles[k] == k,
            decreases self.programs.len() - i,
        {
            handles.push(i);
            i += 1;
        }
        assert(handles@ =~= Seq::new(self@.nodes.len(), |i: int| i as usize));
        handles
    }

    /// The programs that depend on nothing, in the order of the
    /// configuration.
    pub fn roots(&self) -> (handles: Vec<NodeHandle>)
        requires
            self.wf(),
        ensures
            handles@ == nodes_where(
                self@.nodes.len() as int,
                |node: usize| is_root(self@.nodes, node as int),
            ),
    {
        let handles = topology_externals(&self.topology, petgraph::Direction::Incoming);
        let n = self.programs.len();
        proof {
            let progs = self@.nodes;
            assert(progs.len() == n);
            let first = |node: usize|
                is_external(self@.edges, node, petgraph::Direction::Incoming);
            let second = |node: usize| is_root(self@.nodes, node as int);
            assert forall|node: usize| node < progs.len() implies #[trigger] first(node)
                == second(node) by {
                lemma_root_is_external(progs, node as int);
            }
            lemma_nodes_where_agree(progs.len() as int, first, second);
        }
        handles
    }

    /// The programs that no program depends on, in the order of the
    /// configuration.
    pub fn leaves(&self) -> (handles: Vec<NodeHandle>)
        requires
            self.wf(),
        ensures
            handles@ == nodes_where(
                self@.nodes.len() as int,
                |node: usize| !is_dependency(self@.nodes, node as int),
            ),
    {
        let handles = topology_externals(&self.topology, petgraph::Direction::Outgoing);
        let n = self.programs.len();
        proof {
            let progs = self@.nodes;
            assert(progs.len() == n);
            crate::config::lemma_sound_system(progs);
            let first = |node: usize|
                is_external(self@.edges, node, petgraph::Direction::Outgoing);
            let second = |node: usize| !is_dependency(self@.nodes, node as int);
            assert forall|node: usize| node < progs.len() implies #[trigger] first(node)
                == second(node) by {
                lemma_leaf_is_external(progs, node as int);
            }
            lemma_nodes_where_agree(progs.len() as int, first, second);
        }
        handles
    }

    /// The programs that a program depends on, in the order in which it
    /// names them.
    pub fn dependencies(&self, h: NodeHandle) -> (handles: Vec<NodeHandle>)
        ensures
            handles@ == sources_of(self@.edges, h),
    {
        let listed = topology_neighbors_directed(
            &self.topology,
            h,
            petgraph::Direction::Incoming,
        );
        proof {
            lemma_reverse_twice(sources_of(self@.edges, h));
        }
        reversed(&listed)
    }

    /// The programs that depend on a program, in the order of the
    /// configuration.
    pub fn dependees(&self, h: NodeHandle) -> (handles: Vec<NodeHandle>)
        ensures
            handles@ == targets_of(self@.edges, h),
    {
        let listed = topology_neighbors(&self.topology, h);
        proof {
            lemma_reverse_twice(targets_of(self@.edges, h));
        }
        reversed(&listed)
    }

    fn neighbours_towards(&self, h: NodeHandle, dir: petgraph::Direction) -> (handles: Vec<
        NodeHandle,
    >)
        ensures
            handles@ == neighbours(self@.edges, h, dir),
    {
        match dir {
            petgraph::Direction::Outgoing => self.dependees(h),
            petgraph::Direction::Incoming => self.dependencies(h),
        }
    }

    fn expand_towards<F: Fn(NodeHandle) -> bool>(
        &self,
        h: NodeHandle,
        dir: petgraph::Direction,
        visited: &F,
    ) -> (handles: Vec<NodeHandle>)
        requires
            forall|node: NodeHandle| call_requires(*visited, (node,)),
        ensures
            forall|pred: spec_fn(NodeHandle) -> bool| #[trigger]
                computes(*visited, pred) ==> handles@ == unlocked_towards(
                    self@.edges,
                    h,
                    dir,
                    pred,
                ),
            forall|k: int|
                0 <= k < handles.len() ==> neighbours(self@.edges, h, dir).contains(
                    #[trigger] handles[k],
                ),
            neighbours(self@.edges, h, dir).no_duplicates() ==> handles@.no_duplicates(),
    {
        let candidates = self.neighbours_towards(h, dir);
        let back = flip(dir);
        let mut handles: Vec<NodeHandle> = Vec::new();
        let mut i: usize = 0;
        assert(candidates@.take(0) =~= Seq::<usize>::empty());
        while i < candidates.len()
            invariant
                i <= candidates.len(),
                back == opposite(dir),
                candidates@ == neighbours(self@.edges, h, dir),
                forall|k: int|
                    0 <= k < handles.len() ==> candidates@.take(i as int).contains(
                        #[trigger] handles[k],
                    ),
                candidates@.no_duplicates() ==> handles@.no_duplicates(),
                forall|node: NodeHandle| call_requires(*visited, (node,)),
                forall|pred: spec_fn(NodeHandle) -> bool| #[trigger]
                    computes(*visited, pred) ==> handles@ == kept(
                        candidates@.take(i as int),
                        |next: NodeHandle| all_hold(neighbours(self@.edges, next, back), pred),
                    ),
            decreases candidates.len() - i,
        {
            let next = candidates[i];
            let others = self.neighbours_towards(next, back);
            let ok = all_visited(&others, visited);
            let ghost before = handles@;
            if ok {
                handles.push(next);
            }
            proof {
                let longer = candidates@.take(i + 1);
                assert(longer.drop_last() =~= candidates@.take(i as int));
                assert(longer.last() == next);
                assert forall|k: int| 0 <= k < before.len() implies longer.contains(
                    #[trigger] before[k],
                ) && (candidates@.no_duplicates() ==> before[k] != next) by {
                    let j = choose|j: int|
                        0 <= j < i && candidates@.take(i as int)[j] == before[k];
                    assert(longer[j] == before[k]);
                    assert(candidates@[j] == before[k]);
                }
                if ok {
                    assert(longer[i as int] == next);
                }
                assert forall|pred: spec_fn(NodeHandle) -> bool| #[trigger]
                    computes(*visited, pred) implies handles@ == kept(
                    longer,
                    |next: NodeHandle| all_hold(neighbours(self@.edges, next, back), pred),
                ) by {
                    let keep = |next: NodeHandle|
                        all_hold(neighbours(self@.edges, next, back), pred);
                    assert(before == kept(candidates@.take(i as int), keep));
                    assert(keep(next) == ok);
                }
            }
            i += 1;
        }
        assert(candidates@.take(candidates.len() as int) =~= candidates@);
        handles
    }

    proof fn lemma_listed_once(&self, h: NodeHandle)
        requires
            self.wf(),
        ensures
            targets_of(self@.edges, h).no_duplicates(),
            sources_of(self@.edges, h).no_duplicates(),
    {
        assert(self@.nodes.len() == self.programs.len());
        lemma_edges_once(self@.nodes, self@.nodes.len() as int);
        lemma_neighbours_once(self@.edges, h);
    }

    /// The programs that depend on `h` and can go ahead: those whose
    /// dependencies the function holds all to be visited. They come in
    /// the order of the configuration. Whatever the function answers,
    /// only programs that depend on `h` come back, and none twice.
    pub fn expand<F: Fn(NodeHandle) -> bool>(&self, h: NodeHandle, visited: F) -> (handles: Vec<
        NodeHandle,
    >)
        requires
            forall|node: NodeHandle| call_requires(visited, (node,)),
        ensures
            forall|pred: spec_fn(NodeHandle) -> bool| #[trigger]
                computes(visited, pred) ==> handles@ == unlocked(self@.edges, h, pred),
            forall|k: int|
                0 <= k < handles.len() ==> targets_of(self@.edges, h).contains(
                    #[trigger] handles[k],
                ),
            self.wf() ==> handles@.no_duplicates(),
    {
        proof {
            if self.wf() {
                self.lemma_listed_once(h);
            }
        }
        self.expand_towards(h, petgraph::Direction::Outgoing, &visited)
    }

    /// The dependencies of `h` that can go ahead: those whose
    /// dependents the function holds all to be visited. They come in
    /// the order in which `h` names them. Whatever the function answers,
    /// only dependencies of `h` come back, and none twice.
    pub fn expand_back<F: Fn(NodeHandle) -> bool>(&self, h: NodeHandle, visited: F) -> (handles:
        Vec<NodeHandle>)
        requires
            forall|node: NodeHandle| call_requires(visited, (node,)),
        ensures
            forall|pred: spec_fn(NodeHandle) -> bool| #[trigger]
                computes(visited, pred) ==> handles@ == unlocked_back(self@.edges, h, pred),
            forall|k: int|
                0 <= k < handles.len() ==> sources_of(self@.edges, h).contains(
                    #[trigger] handles[k],
                ),
            self.wf() ==> handles@.no_duplicates(),
    {
        proof {
            if self.wf() {
                self.lemma_listed_once(h);
            }
        }
        self.expand_towards(h, petgraph::Direction::Incoming, &visited)
    }

    /// The graph in the notation of Graphviz, each node labelled with
    /// the name of its program.
    pub fn dot(&self) -> (text: String)
        requires
            self.wf(),
        ensures
            text@ == dot_text(names_of(self@.nodes), self@.edges),
    {
        topology_dot(&self.topology, &self.programs)
    }
}

} // verus!
