use decompose::config::{Program, ReadySignal, System, ValidationError};
use decompose::graph::{Graph, NodeHandle};
use std::collections::HashSet;

fn program(name: &str, depends: &[&str]) -> Program {
    Program {
        name: name.to_string(),
        executable: "blah".to_string(),
        args: Vec::new(),
        env: Vec::new(),
        cwd: ".".to_string(),
        ready: ReadySignal::Nothing,
        depends: depends.iter().map(|d| d.to_string()).collect(),
        critical: false,
        disabled: false,
    }
}

fn system(program: Vec<Program>) -> System {
    System { program, terminate_timeout: 1000, start_timeout: None }
}

fn make(programs: Vec<Program>) -> Graph {
    Graph::from_config(system(programs)).unwrap()
}

fn names(g: &Graph, hs: &Vec<NodeHandle>) -> Vec<String> {
    hs.iter().map(|h| g.node(*h).name.clone()).collect()
}

fn diamond() -> Vec<Program> {
    vec![
        program("a", &[]),
        program("b", &[]),
        program("c", &["a", "b"]),
        program("d", &["c"]),
    ]
}

fn labels(dot: &str) -> Vec<String> {
    let mut found = Vec::new();
    for line in dot.lines() {
        if let Some(at) = line.find("label = \"") {
            let rest = &line[at + 9..];
            let mut label = String::new();
            let mut chars = rest.chars();
            while let Some(c) = chars.next() {
                if c == '\\' {
                    if let Some(next) = chars.next() {
                        label.push(next);
                    }
                } else if c == '"' {
                    break;
                } else {
                    label.push(c);
                }
            }
            found.push(label);
        }
    }
    found
}

#[test]
fn construct_single() {
    let graph = make(vec![program("single", &[])]);
    assert_eq!(1, graph.len());

    let entry_nodes = names(&graph, &graph.roots());
    assert_eq!(entry_nodes, vec!["single"]);
}

#[test]
fn construct_ensemble() {
    let graph = make(vec![program("server", &[]), program("proxy", &["server"])]);

    let first_neigbours: Vec<NodeHandle> =
        graph.roots().iter().flat_map(|i| graph.dependees(*i)).collect();
    assert_eq!(names(&graph, &first_neigbours), vec!["proxy"]);

    let first_neigbours: Vec<NodeHandle> =
        graph.leaves().iter().flat_map(|i| graph.dependencies(*i)).collect();
    assert_eq!(names(&graph, &first_neigbours), vec!["server"]);
}

#[test]
fn cyclic_graph_fails_to_construct() {
    let g = Graph::from_config(system(vec![
        program("a", &[]),
        program("b", &["c"]),
        program("c", &["b"]),
    ]));
    assert!(g.is_err());
}

#[test]
fn expand() {
    let graph = make(diamond());
    let mut visited = HashSet::new();

    let start_nodes: Vec<NodeHandle> = graph.roots();
    assert_eq!(names(&graph, &start_nodes), vec!["a", "b"]);

    visited.insert(start_nodes[0]);
    assert_eq!(0, graph.expand(start_nodes[0], |h| visited.contains(&h)).len());

    visited.insert(start_nodes[1]);
    let expanded_nodes: Vec<NodeHandle> = graph.expand(start_nodes[1], |h| visited.contains(&h));
    assert_eq!(names(&graph, &expanded_nodes), vec!["c"]);

    visited.insert(expanded_nodes[0]);
    let expanded_nodes: Vec<NodeHandle> =
        graph.expand(expanded_nodes[0], |h| visited.contains(&h));
    assert_eq!(names(&graph, &expanded_nodes), vec!["d"]);
}

#[test]
fn expand_back() {
    let graph = make(diamond());
    let mut visited = HashSet::new();

    let end_nodes: Vec<NodeHandle> = graph.leaves();
    assert_eq!(names(&graph, &end_nodes), vec!["d"]);

    visited.insert(end_nodes[0]);
    let expanded: Vec<NodeHandle> = graph.expand_back(end_nodes[0], |h| visited.contains(&h));
    assert_eq!(names(&graph, &expanded), vec!["c"]);

    visited.insert(expanded[0]);
    let expanded: Vec<NodeHandle> = graph.expand_back(expanded[0], |h| visited.contains(&h));
    assert_eq!(names(&graph, &expanded), vec!["a", "b"]);
}

#[test]
fn all_lists_every_node_in_order() {
    let graph = make(diamond());
    assert_eq!(vec![0, 1, 2, 3], graph.all());
    assert_eq!(4, graph.len());
    assert_eq!("c", graph.node(2).name);
}

#[test]
fn an_empty_depends_list_makes_a_root() {
    let graph = make(vec![
        program("x", &["z"]),
        program("y", &[]),
        program("z", &[]),
    ]);
    assert_eq!(names(&graph, &graph.roots()), vec!["y", "z"]);
    assert_eq!(names(&graph, &graph.leaves()), vec!["x", "y"]);
}

#[test]
fn neighbours_come_in_the_order_of_the_configuration() {
    let graph = make(vec![
        program("a", &[]),
        program("b", &[]),
        program("c", &["b", "a"]),
        program("d", &["a"]),
        program("e", &["a", "c"]),
    ]);
    assert_eq!(names(&graph, &graph.dependees(0)), vec!["c", "d", "e"]);
    assert_eq!(names(&graph, &graph.dependencies(2)), vec!["b", "a"]);
    assert_eq!(names(&graph, &graph.dependencies(4)), vec!["a", "c"]);
    assert!(graph.dependencies(0).is_empty());
    assert!(graph.dependees(4).is_empty());
    assert!(graph.dependees(17).is_empty());
}

#[test]
fn a_dependency_named_twice_is_one_dependency() {
    let graph = make(vec![
        program("a", &[]),
        program("z", &[]),
        program("b", &["a", "z", "a", "a", "z"]),
    ]);
    assert_eq!(vec![2], graph.dependees(0));
    assert_eq!(vec![2], graph.dependees(1));
    assert_eq!(vec![0, 1], graph.dependencies(2));
    assert_eq!(vec![2], graph.expand(0, |_| true));
    assert_eq!(vec![0, 1], graph.expand_back(2, |_| true));
    assert_eq!(vec![0, 1], graph.roots());
    assert_eq!(vec![2], graph.leaves());
}

#[test]
fn expand_keeps_what_the_predicate_lets_through() {
    let graph = make(diamond());
    assert_eq!(vec![2], graph.expand(0, |_| true));
    assert!(graph.expand(0, |_| false).is_empty());
    assert!(graph.expand(0, |h| h == 0).is_empty());
    assert_eq!(vec![2], graph.expand(0, |h| h <= 1));
    assert_eq!(vec![0, 1], graph.expand_back(2, |h| h == 2));
    assert!(graph.expand_back(2, |_| false).is_empty());
    assert!(graph.expand(3, |_| true).is_empty());
    assert!(graph.expand_back(0, |_| true).is_empty());
}

#[test]
fn unknown_dependency_is_refused_by_name() {
    let g = Graph::from_config(system(vec![
        program("a", &[]),
        program("b", &["a", "nope", "also"]),
    ]));
    assert_eq!(Some(ValidationError::UnknownDependency("nope".to_string())), g.err());
}

#[test]
fn system_defects_come_first() {
    let g = Graph::from_config(system(vec![
        program("a", &["nope"]),
        program("a", &["nope"]),
    ]));
    assert_eq!(Some(ValidationError::DuplicateName("a".to_string())), g.err());

    let g = Graph::from_config(system(vec![program("a", &["nope"])]));
    assert_eq!(Some(ValidationError::NoRoot), g.err());
}

#[test]
fn a_program_that_depends_on_itself_is_refused() {
    let g = Graph::from_config(system(vec![program("root", &[]), program("a", &["a"])]));
    assert_eq!(Some(ValidationError::Cycle(vec!["a".to_string()])), g.err());
}

#[test]
fn a_cycle_names_its_members() {
    let g = Graph::from_config(system(vec![
        program("root", &[]),
        program("a", &["c", "root"]),
        program("b", &["a"]),
        program("c", &["b"]),
        program("after", &["c"]),
    ]));
    assert_eq!(
        Some(ValidationError::Cycle(vec!["a".to_string(), "b".to_string(), "c".to_string()])),
        g.err()
    );
}

#[test]
fn a_long_chain_is_no_cycle() {
    let mut programs = vec![program("link", &[])];
    for i in 1..40 {
        let before = programs[i - 1].name.clone();
        programs.push(program(&format!("{}x", before), &[before.as_str()]));
    }
    let graph = make(programs);
    assert_eq!(vec![0], graph.roots());
    assert_eq!(vec![39], graph.leaves());
}

#[test]
fn dot_names_every_node_once() {
    let programs = vec![
        program("server", &[]),
        program("pro\"xy", &["server"]),
        program("task one", &["server", "pro\"xy"]),
    ];
    let wanted: HashSet<String> = programs.iter().map(|p| p.name.clone()).collect();
    let graph = make(programs);
    let dot = graph.dot();

    let found = labels(&dot);
    assert_eq!(3, found.len());
    assert_eq!(wanted, found.into_iter().collect::<HashSet<String>>());
    assert!(dot.starts_with("digraph {"));
    assert!(dot.contains("0 -> 1"));
    assert!(dot.contains("0 -> 2"));
    assert!(dot.contains("1 -> 2"));
    assert!(!dot.contains("2 -> "));
}
