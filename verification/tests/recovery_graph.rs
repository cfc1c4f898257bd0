use codira::recovery_graph::{NoGuard, RecoveryGraph, RecoveryNode};

/// A fault edge's payload: the fault tag and the weight.
type Payload = (u32, f64);

fn graph() -> RecoveryGraph<NoGuard, Payload> {
    RecoveryGraph::new()
}

#[test]
fn graph_accepts_forward_edges() {
    let mut g = graph();
    let nominal = g.add_node(RecoveryNode::new("nominal"));
    let fallback = g.add_node(RecoveryNode::new("fallback"));
    assert!(g.add_edge(nominal, fallback, (0, 1.0)));
    assert_eq!(g.node_count(), 2);
    assert_eq!(g.edge_count(), 1);
}

#[test]
fn graph_rejects_cycles() {
    let mut g = graph();
    let a = g.add_node(RecoveryNode::new("a"));
    let b = g.add_node(RecoveryNode::new("b"));
    assert!(g.add_edge(a, b, (0, 1.0)));
    assert!(!g.add_edge(b, a, (0, 1.0)));
    assert!(!g.add_edge(a, a, (0, 1.0)));
    assert!(!g.add_edge(a, 7, (0, 1.0)));
    assert_eq!(g.edge_count(), 1);
}

#[test]
fn edges_can_be_reweighted() {
    let mut g = graph();
    let a = g.add_node(RecoveryNode::new("a"));
    let b = g.add_node(RecoveryNode::new("b"));
    g.add_edge(a, b, (0, 1.0));
    assert!(g.set_edge_payload(0, (0, 0.5)));
    assert_eq!(g.edge_payload(0).unwrap().1, 0.5);
    assert!(!g.set_edge_payload(1, (0, 0.25)));
    assert!(g.edge_payload(1).is_none());
}

#[test]
fn successors_follow_outgoing_edges() {
    let mut g = graph();
    let a = g.add_node(RecoveryNode::new("a"));
    let b = g.add_node(RecoveryNode::new("b"));
    let c = g.add_node(RecoveryNode::new("c"));
    g.add_edge(a, b, (0, 1.0));
    g.add_edge(a, c, (1, 1.0));
    g.add_edge(b, c, (2, 1.0));
    let mut succs = g.successors(a);
    succs.sort_unstable();
    assert_eq!(succs, vec![1, 2]);
    assert_eq!(g.outgoing_edges(a), vec![0, 1]);
    assert_eq!(g.successors(c), Vec::<usize>::new());
    assert_eq!(g.successors(9), Vec::<usize>::new());
}
