//! Orders and components of graphs.

use cust::graph::{components, reached_from, topo_order};
use cust::modules::{import_graph, Module};
use cust::schedule::{reported_cycle, schedule};

fn names(items: &[&str]) -> Vec<String> {
    items.iter().map(|s| s.to_string()).collect()
}

#[test]
fn nodes_come_after_what_they_need() {
    assert_eq!(topo_order(&vec![vec![1], vec![2], vec![]]), [2, 1, 0]);
    assert_eq!(topo_order(&vec![vec![], vec![], vec![]]), [0, 1, 2]);
    assert_eq!(topo_order(&vec![vec![2], vec![2], vec![], vec![0, 1]]), [2, 0, 1, 3]);
}

#[test]
fn nodes_on_cycles_come_last() {
    assert_eq!(topo_order(&vec![vec![1], vec![0], vec![]]), [2, 0, 1]);
    assert_eq!(topo_order(&vec![vec![0], vec![]]), [1, 0]);
}

#[test]
fn components_are_found() {
    assert_eq!(components(&vec![vec![1], vec![0], vec![]]), [vec![0, 1], vec![2]]);
    assert_eq!(
        components(&vec![vec![1], vec![2], vec![0, 3], vec![]]),
        [vec![0, 1, 2], vec![3]]
    );
    assert_eq!(components(&vec![vec![1], vec![]]), [vec![0], vec![1]]);
    assert_eq!(
        components(&vec![vec![3], vec![2], vec![1], vec![0]]),
        [vec![0, 3], vec![1, 2]]
    );
}

#[test]
fn reachable_nodes_are_marked() {
    let g = vec![vec![1], vec![2], vec![1], vec![0]];
    assert_eq!(reached_from(&g, 1), [false, true, true, false]);
    assert_eq!(reached_from(&g, 3), [true, true, true, true]);
}

#[test]
fn ties_go_by_name() {
    let g = vec![vec![], vec![], vec![0]];
    assert_eq!(schedule(&g, &names(&["c", "b", "a"])), [1, 0, 2]);
    assert_eq!(schedule(&g, &names(&["a", "c", "b"])), [0, 2, 1]);
}

#[test]
fn a_cycle_begins_with_its_first_name() {
    let g = vec![vec![1], vec![2], vec![0], vec![]];
    let n = names(&["m", "z", "a", "q"]);
    let order = schedule(&g, &n);
    assert_eq!(order, [3]);
    assert_eq!(reported_cycle(&g, &n, &order), [2, 0, 1]);
}

#[test]
fn a_cycle_is_found_behind_its_dependents() {
    // `a` needs `m`, and `m` and `n` need each other.
    let g = vec![vec![1], vec![2], vec![1]];
    let n = names(&["a", "m", "n"]);
    let order = schedule(&g, &n);
    assert!(order.is_empty());
    assert_eq!(reported_cycle(&g, &n, &order), [1, 2]);
}

#[test]
fn a_cycle_is_found_past_what_is_built() {
    // The first need of `a` is built; the next one leads back.
    let g = vec![vec![2, 1], vec![0], vec![]];
    let n = names(&["a", "b", "c"]);
    let order = schedule(&g, &n);
    assert_eq!(order, [2]);
    assert_eq!(reported_cycle(&g, &n, &order), [0, 1]);
}

#[test]
fn a_node_that_needs_itself_is_a_cycle() {
    let g = vec![vec![0]];
    let n = names(&["a"]);
    assert_eq!(reported_cycle(&g, &n, &schedule(&g, &n)), [0]);
}

#[test]
fn imports_are_edges() {
    let module = |name: &str, imports: &[&str]| Module {
        qualified_name: name.to_string(),
        source_path: format!("/{name}.c"),
        imports: names(imports),
        dep_imports: vec![],
    };
    let modules = [
        module("lib", &["b", "a", "nowhere", "b"]),
        module("a", &["lib"]),
        module("b", &[]),
    ];
    assert_eq!(import_graph(&modules), [vec![2, 1, 2], vec![0], vec![]]);
}
