use ikki::toposort::{Dag, Toposort};

fn graph(edges: &[(&str, &str)]) -> Dag {
    let mut dag = Dag::new();
    for (first, second) in edges {
        dag.before(first.to_string(), second.to_string());
    }
    dag
}

fn names(layers: &[&[&str]]) -> Vec<Vec<String>> {
    layers
        .iter()
        .map(|layer| layer.iter().map(|name| name.to_string()).collect())
        .collect()
}

fn sorted(mut order: Vec<Vec<String>>) -> Vec<Vec<String>> {
    for suborder in order.iter_mut() {
        suborder.sort();
    }
    order
}

fn layer_of(order: &[Vec<String>], name: &str) -> usize {
    let found: Vec<usize> = order
        .iter()
        .enumerate()
        .filter(|(_, layer)| layer.iter().any(|n| n == name))
        .map(|(k, _)| k)
        .collect();
    assert_eq!(found.len(), 1, "{} occurs in {} layers", name, found.len());
    found[0]
}

#[test]
fn normal_sort() {
    let mut dag = Dag::new();
    dag.before("a".to_string(), "b".to_string());
    dag.before("b".to_string(), "c".to_string());
    let order = dag.toposort();
    let expected = names(&[&["a"], &["b"], &["c"]]);
    assert_eq!(order, Some(expected));
}

#[test]
fn dag_with_cycle() {
    let mut dag = Dag::new();
    dag.before("a".to_string(), "b".to_string());
    dag.before("b".to_string(), "a".to_string());
    let order = dag.toposort();
    assert!(order.is_none());
}

#[test]
fn parallel_when_ambiguous() {
    let mut dag = Dag::new();
    dag.before("a".to_string(), "b".to_string());
    dag.before("c".to_string(), "b".to_string());
    dag.before("d".to_string(), "b".to_string());
    let order = dag.toposort();
    assert!(matches!(order, Some(_)));
    let order = sorted(order.unwrap());
    let expected = names(&[&["a", "c", "d"], &["b"]]);
    assert_eq!(order, expected);
}

#[test]
fn parallel_when_ambiguous_2() {
    let mut dag = Dag::new();
    dag.before("a".to_string(), "b".to_string());
    dag.before("a".to_string(), "c".to_string());
    let order = dag.toposort();
    assert!(matches!(order, Some(_)));
    let order = sorted(order.unwrap());
    let expected = names(&[&["a"], &["b", "c"]]);
    assert_eq!(order, expected);
}

#[test]
fn empty_graph_has_empty_schedule() {
    let dag = Dag::new();
    assert_eq!(dag.toposort(), Some(Vec::<Vec<String>>::new()));
}

#[test]
fn self_loop_is_a_cycle() {
    assert!(graph(&[("a", "a")]).toposort().is_none());
    assert!(graph(&[("x", "a"), ("a", "a")]).toposort().is_none());
}

#[test]
fn node_that_is_only_a_child_follows_its_last_parent() {
    let order = graph(&[("a", "b"), ("b", "c"), ("a", "c")]).toposort().unwrap();
    assert_eq!(order, names(&[&["a"], &["b"], &["c"]]));
}

#[test]
fn duplicate_edges_are_idempotent() {
    let once = graph(&[("a", "b"), ("a", "c")]).toposort().unwrap();
    let twice = graph(&[("a", "b"), ("a", "b"), ("a", "c"), ("a", "b")])
        .toposort()
        .unwrap();
    assert_eq!(sorted(once), sorted(twice.clone()));
    assert_eq!(sorted(twice), names(&[&["a"], &["b", "c"]]));
}

#[test]
fn every_edge_goes_to_a_later_layer() {
    let edges = [
        ("a", "b"),
        ("a", "c"),
        ("b", "d"),
        ("c", "d"),
        ("d", "e"),
        ("a", "e"),
        ("f", "c"),
        ("g", "h"),
    ];
    let order = graph(&edges).toposort().unwrap();
    for (first, second) in edges {
        assert!(layer_of(&order, first) < layer_of(&order, second));
    }
    assert_eq!(
        sorted(order),
        names(&[&["a", "f", "g"], &["b", "c", "h"], &["d"], &["e"]])
    );
}

#[test]
fn schedule_holds_every_node_once() {
    let edges = [("a", "b"), ("c", "b"), ("b", "d"), ("e", "f")];
    let order = graph(&edges).toposort().unwrap();
    let mut all: Vec<String> = order.into_iter().flatten().collect();
    all.sort();
    assert_eq!(all, vec!["a", "b", "c", "d", "e", "f"]);
}

#[test]
fn cycle_is_found_beside_a_wide_acyclic_part() {
    let edges = [("x", "y"), ("x", "z"), ("x", "w"), ("a", "b"), ("b", "a")];
    assert!(graph(&edges).toposort().is_none());
}

#[test]
fn cycle_is_found_behind_an_acyclic_part() {
    let edges = [("a", "b"), ("b", "c"), ("c", "d"), ("d", "b")];
    assert!(graph(&edges).toposort().is_none());
}

#[test]
fn no_layer_is_empty() {
    let order = graph(&[("a", "b"), ("b", "c"), ("x", "c")]).toposort().unwrap();
    assert_eq!(order.len(), 3);
    assert!(order.iter().all(|layer| !layer.is_empty()));
}

#[test]
fn schedule_is_the_same_for_every_insertion_order() {
    let first = graph(&[("a", "b"), ("c", "b"), ("b", "d"), ("c", "e")]);
    let second = graph(&[("c", "e"), ("b", "d"), ("c", "b"), ("a", "b")]);
    let one = sorted(first.toposort().unwrap());
    let again = sorted(first.toposort().unwrap());
    let other = sorted(second.toposort().unwrap());
    assert_eq!(one, again);
    assert_eq!(one, other);
    assert_eq!(one, names(&[&["a", "c"], &["b", "e"], &["d"]]));
}
