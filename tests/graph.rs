use learn_1::graph::{update_node, NodeGraph, UPDATE_STEP};

#[test]
fn shared_node_receives_every_update() {
    let mut g = NodeGraph::new();
    let a = g.add_node(1, vec![]).unwrap();
    let b = g.add_node(2, vec![a]).unwrap();
    let c = g.add_node(3, vec![a]).unwrap();

    update_node(&mut g, a);
    update_node(&mut g, b);
    update_node(&mut g, c);

    assert_eq!(g.value(a), 1 + 2 * 3);
    assert_eq!(g.value(b), 4);
    assert_eq!(g.value(c), 5);
}

#[test]
fn childless_node_changes_alone() {
    let mut g = NodeGraph::new();
    let a = g.add_node(10, vec![]).unwrap();
    let b = g.add_node(20, vec![]).unwrap();
    let c = g.add_node(30, vec![a, b]).unwrap();

    g.propagate(b, -7);

    assert_eq!(g.value(a), 10);
    assert_eq!(g.value(b), 13);
    assert_eq!(g.value(c), 30);
}

#[test]
fn each_walk_adds_once() {
    // d references b and c, which both reference a, and d references a too:
    // three walks lead from d to a.
    let mut g = NodeGraph::new();
    let a = g.add_node(0, vec![]).unwrap();
    let b = g.add_node(0, vec![a]).unwrap();
    let c = g.add_node(0, vec![a]).unwrap();
    let d = g.add_node(0, vec![b, c, a]).unwrap();

    g.propagate(d, 5);

    assert_eq!(g.value(a), 15);
    assert_eq!(g.value(b), 5);
    assert_eq!(g.value(c), 5);
    assert_eq!(g.value(d), 5);
}

#[test]
fn repeated_reference_counts_twice() {
    let mut g = NodeGraph::new();
    let a = g.add_node(1, vec![]).unwrap();
    let b = g.add_node(1, vec![a, a]).unwrap();

    update_node(&mut g, b);

    assert_eq!(g.value(a), 1 + 2 * UPDATE_STEP);
    assert_eq!(g.value(b), 1 + UPDATE_STEP);
}

#[test]
fn reference_to_missing_node_is_refused() {
    let mut g = NodeGraph::new();
    assert_eq!(g.add_node(1, vec![0]), None);
    assert_eq!(g.len(), 0);
    let a = g.add_node(1, vec![]).unwrap();
    assert_eq!(a, 0);
    assert_eq!(g.add_node(2, vec![a, 1]), None);
    assert_eq!(g.len(), 1);
    assert_eq!(g.add_node(2, vec![a]), Some(1));
    assert_eq!(g.len(), 2);
}

#[test]
fn overflow_is_detected_before_propagating() {
    let mut g = NodeGraph::new();
    let a = g.add_node(i32::MAX, vec![]).unwrap();
    assert!(!g.can_propagate(a, 1));
    assert!(g.can_propagate(a, 0));
    assert!(g.can_propagate(a, -1));
    assert!(!g.can_propagate(a, i32::MAX));
    assert!(g.can_propagate(a, i32::MIN));
}

#[test]
fn overflow_check_counts_every_walk() {
    let mut g = NodeGraph::new();
    let a = g.add_node(i32::MAX - 15, vec![]).unwrap();
    let b = g.add_node(0, vec![a]).unwrap();
    let c = g.add_node(0, vec![a]).unwrap();
    let d = g.add_node(0, vec![b, c, a]).unwrap();
    assert!(g.can_propagate(d, 5));
    assert!(!g.can_propagate(d, 6));
    assert!(g.can_propagate(b, 15));
    assert!(!g.can_propagate(b, 16));
    g.propagate(d, 5);
    assert_eq!(g.value(a), i32::MAX);
    assert!(!g.can_propagate(c, 1));
    assert!(g.can_propagate(c, -1));
}

#[test]
fn overflow_check_on_negative_side() {
    let mut g = NodeGraph::new();
    let a = g.add_node(i32::MIN + 3, vec![]).unwrap();
    let b = g.add_node(0, vec![a, a]).unwrap();
    assert!(g.can_propagate(b, -1));
    assert!(!g.can_propagate(b, -2));
}
