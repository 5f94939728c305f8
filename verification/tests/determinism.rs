use asms::graph::Discipline;
use asms::graph::Graph;
use asms::node::Behavior;
use asms::node::Node;
use asms::payload::Payload;
use asms::payload::Tag;

/// One fixed configuration: a disturbance-like source fans out to a
/// smoother branch and a decimating branch, a relay feeds part of the
/// output back over a bootstrap edge, and a logger records two taps.
fn build_model() -> Graph {
    let w = Tag::new(1, 1);
    let x = Tag::new(2, 2);
    let mut g = Graph::new();
    let weights: Vec<Option<Payload>> =
        (0..12).map(|k| Some(Payload::new(w, vec![k % 3]).unwrap())).collect();
    let loads: Vec<Option<Payload>> =
        (0..12).map(|k| Some(Payload::new(x, vec![k, -k]).unwrap())).collect();
    let ws = g.add_node(Node::new(Behavior::source(w, weights), 1, 1));
    let ls = g.add_node(Node::new(Behavior::source(x, loads), 1, 1));
    let mut sm = Node::new(Behavior::smooth(w, x), 1, 1);
    sm.set_multiplex(0, 2);
    let sm = g.add_node(sm);
    let add = g.add_node(Node::new(Behavior::adder(x), 1, 1));
    let fb = g.add_node(Node::new(Behavior::relay(x), 1, 1));
    let dec = g.add_node(Node::new(Behavior::accumulator(x), 4, 1));
    let log = g.add_node(Node::new(Behavior::logger(vec![x, x], 2), 1, 1));
    let mut add_out = Node::new(Behavior::relay(x), 1, 1);
    add_out.set_multiplex(0, 3);
    let tap = g.add_node(add_out);
    g.connect(ws, 0, sm, 0, Discipline::Bounded, false).unwrap();
    g.connect(ls, 0, sm, 1, Discipline::Bounded, false).unwrap();
    g.connect(sm, 0, add, 0, Discipline::Bounded, false).unwrap();
    g.connect(sm, 0, log, 1, Discipline::Unbounded, false).unwrap();
    g.connect(add, 0, tap, 0, Discipline::Bounded, false).unwrap();
    g.connect(tap, 0, fb, 0, Discipline::Bounded, false).unwrap();
    g.connect(tap, 0, dec, 0, Discipline::Bounded, false).unwrap();
    g.connect(tap, 0, log, 0, Discipline::Unbounded, false).unwrap();
    g.connect(fb, 0, add, 1, Discipline::Bounded, true).unwrap();
    let sink = g.add_node(Node::new(Behavior::logger(vec![x], 1), 1, 1));
    g.connect(dec, 0, sink, 0, Discipline::Unbounded, false).unwrap();
    g.build().unwrap();
    g
}

fn records(g: &Graph, node: usize, port: usize) -> Vec<Vec<i64>> {
    match g.node(node).behavior() {
        Behavior::Logger { records, .. } => {
            records[port].iter().map(|p| p.values().clone()).collect()
        },
        _ => panic!("not a logger"),
    }
}

fn all_edge_queues(g: &Graph) -> Vec<Vec<Vec<i64>>> {
    (0..g.n_edges())
        .map(|e| g.edge(e).queue().iter().map(|p| p.values().clone()).collect())
        .collect()
}

#[test]
fn identical_configurations_run_identically() {
    let mut g1 = build_model();
    let mut g2 = build_model();
    g1.run(12).unwrap();
    g2.run(12).unwrap();
    // byte-identical records on every logger port and identical residual
    // queue contents on every edge
    assert_eq!(records(&g1, 6, 0), records(&g2, 6, 0));
    assert_eq!(records(&g1, 6, 1), records(&g2, 6, 1));
    assert_eq!(records(&g1, 8, 0), records(&g2, 8, 0));
    assert_eq!(all_edge_queues(&g1), all_edge_queues(&g2));
}

#[test]
fn splitting_a_run_changes_nothing() {
    let mut g1 = build_model();
    let mut g2 = build_model();
    g1.run(12).unwrap();
    g2.run(5).unwrap();
    g2.run(7).unwrap();
    assert_eq!(records(&g1, 6, 0), records(&g2, 6, 0));
    assert_eq!(records(&g1, 8, 0), records(&g2, 8, 0));
    assert_eq!(all_edge_queues(&g1), all_edge_queues(&g2));
}
