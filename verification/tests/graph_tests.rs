use simple_graph::SimpleGraph;

#[test]
fn add_node_then_node_returns_payload() {
    let mut g: SimpleGraph<String, i32> = SimpleGraph::new();
    let n = g.add_node(String::from("hello"));
    assert_eq!(*g.node(n), "hello");
}

#[test]
fn add_node_equal_payloads_distinct_handles() {
    let mut g: SimpleGraph<i32, i32> = SimpleGraph::new();
    let a = g.add_node(5);
    let b = g.add_node(5);
    assert_ne!(a, b);
    assert_eq!(*g.node(a), 5);
    assert_eq!(*g.node(b), 5);
}

#[test]
fn add_edge_overwrites_and_handle_is_equal() {
    let mut g: SimpleGraph<i32, i32> = SimpleGraph::new();
    let a = g.add_node(0);
    let b = g.add_node(1);
    let e1 = g.add_edge(a, b, 100);
    let e2 = g.add_edge(a, b, 200);
    assert_eq!(e1, e2);
    assert_eq!(*g.edge(e1), 200);
    let out = g.edges_from(a);
    assert_eq!(out.len(), 1);
    assert_eq!(out[0], e1);
}

#[test]
fn edges_from_ascending_destination_order() {
    let mut g: SimpleGraph<i32, i32> = SimpleGraph::new();
    let a = g.add_node(0);
    let b = g.add_node(1);
    let c = g.add_node(2);
    // Insert out of order on purpose: the listing sorts by destination index.
    let e_ac = g.add_edge(a, c, 7);
    let e_ab = g.add_edge(a, b, 3);
    let out = g.edges_from(a);
    assert_eq!(out, vec![e_ab, e_ac]);
}

#[test]
fn edges_from_no_outgoing_is_empty_not_fatal() {
    let mut g: SimpleGraph<i32, i32> = SimpleGraph::new();
    let a = g.add_node(0);
    // The matrix has never grown to this node's row.
    assert_eq!(g.edges_from(a).len(), 0);
    // A row that exists but whose cells are all empty.
    let b = g.add_node(1);
    let e = g.add_edge(a, b, 1);
    assert_eq!(g.try_remove_edge(e), Some(1));
    assert_eq!(g.edges_from(a).len(), 0);
    // Destination-only node: its own row never grew past the matrix.
    assert_eq!(g.edges_from(b).len(), 0);
}

#[test]
fn remove_node_with_incident_edge_is_refused() {
    let mut g: SimpleGraph<i32, i32> = SimpleGraph::new();
    let a = g.add_node(10);
    let b = g.add_node(20);
    let e = g.add_edge(a, b, 5);
    // Outgoing edge still occupied: the source may not be removed.
    assert_eq!(g.try_remove_node(a), None);
    // Incoming edge still occupied: the destination may not be removed.
    assert_eq!(g.try_remove_node(b), None);
    // The refusal left the graph untouched.
    assert_eq!(*g.node(a), 10);
    assert_eq!(*g.node(b), 20);
    assert_eq!(*g.edge(e), 5);
    // Once the edge is gone both removals go through.
    assert_eq!(g.remove_edge(e), 5);
    assert_eq!(g.try_remove_node(a), Some(10));
    assert_eq!(g.try_remove_node(b), Some(20));
}

#[test]
fn remove_edge_drops_it_from_edges_from() {
    let mut g: SimpleGraph<i32, i32> = SimpleGraph::new();
    let a = g.add_node(0);
    let b = g.add_node(1);
    let c = g.add_node(2);
    let e_ab = g.add_edge(a, b, 1);
    let e_ac = g.add_edge(a, c, 2);
    assert_eq!(g.remove_edge(e_ab), 1);
    let out = g.edges_from(a);
    assert!(!out.contains(&e_ab));
    assert_eq!(out, vec![e_ac]);
}

#[test]
fn remove_node_returns_payload_and_later_access_fails() {
    let mut g: SimpleGraph<String, i32> = SimpleGraph::new();
    let n = g.add_node(String::from("payload"));
    assert_eq!(g.remove_node(n), "payload");
    // The slot is tombstoned: every access through the stale handle is refused.
    assert!(g.try_node(n).is_none());
    assert_eq!(g.try_remove_node(n), None);
}

#[test]
fn removed_index_is_never_reused() {
    let mut g: SimpleGraph<i32, i32> = SimpleGraph::new();
    let a = g.add_node(1);
    assert_eq!(g.remove_node(a), 1);
    let b = g.add_node(2);
    // Adding keeps appending past the tombstone.
    assert_ne!(a, b);
    assert!(g.try_node(a).is_none());
    assert_eq!(*g.node(b), 2);
}

#[test]
fn node_mut_and_edge_mut_change_only_their_slot() {
    let mut g: SimpleGraph<i32, i32> = SimpleGraph::new();
    let a = g.add_node(1);
    let b = g.add_node(2);
    let e = g.add_edge(a, b, 3);
    *g.node_mut(a) = 11;
    *g.edge_mut(e) = 33;
    assert_eq!(*g.node(a), 11);
    assert_eq!(*g.node(b), 2);
    assert_eq!(*g.edge(e), 33);
}

#[test]
fn endpoint_projections() {
    let mut g: SimpleGraph<i32, i32> = SimpleGraph::new();
    let a = g.add_node(0);
    let b = g.add_node(1);
    let e = g.add_edge(a, b, 9);
    assert_eq!(g.edge_from(e), a);
    assert_eq!(g.edge_to(e), b);
    assert_eq!(g.edge_endpoints(e), (a, b));
}

#[test]
fn try_accessors_on_missing_slots() {
    let mut g: SimpleGraph<i32, i32> = SimpleGraph::new();
    let a = g.add_node(0);
    let b = g.add_node(1);
    let e = g.add_edge(a, b, 4);
    assert_eq!(g.try_node(a), Some(&0));
    assert_eq!(g.try_edge(e), Some(&4));
    assert_eq!(g.try_remove_edge(e), Some(4));
    // The cell is empty now: a second removal and a lookup are refused.
    assert_eq!(g.try_edge(e), None);
    assert_eq!(g.try_remove_edge(e), None);
}

#[test]
fn self_loop_edge() {
    let mut g: SimpleGraph<i32, i32> = SimpleGraph::new();
    let a = g.add_node(7);
    let e = g.add_edge(a, a, 42);
    assert_eq!(g.edge_from(e), a);
    assert_eq!(g.edge_to(e), a);
    assert_eq!(*g.edge(e), 42);
    // A self-loop counts as both an outgoing and an incoming edge.
    assert_eq!(g.try_remove_node(a), None);
    assert_eq!(g.remove_edge(e), 42);
    assert_eq!(g.remove_node(a), 7);
}

#[test]
fn three_node_scenario() {
    let mut g: SimpleGraph<(), i32> = SimpleGraph::new();
    let n0 = g.add_node(());
    let n1 = g.add_node(());
    let n2 = g.add_node(());
    let e01 = g.add_edge(n0, n1, 10);
    let e02 = g.add_edge(n0, n2, 20);
    let out = g.edges_from(n0);
    assert_eq!(out, vec![e01, e02]);
    assert_eq!(*g.edge(e01), 10);
    // Removing n0 before clearing its edges is a contract violation.
    assert_eq!(g.try_remove_node(n0), None);
    assert_eq!(g.remove_edge(e01), 10);
    // One incident edge left: still refused.
    assert_eq!(g.try_remove_node(n0), None);
    assert_eq!(g.remove_edge(e02), 20);
    assert_eq!(g.remove_node(n0), ());
    assert_eq!(g.remove_node(n1), ());
    assert_eq!(g.remove_node(n2), ());
}
