use asms::errors::TransformError;
use asms::errors::ValidationError;
use asms::graph::Discipline;
use asms::graph::Graph;
use asms::node::Behavior;
use asms::node::Node;
use asms::payload::Payload;
use asms::payload::Tag;

fn frames(tag: Tag, samples: &[Option<Vec<i64>>]) -> Vec<Option<Payload>> {
    samples
        .iter()
        .map(|s| s.as_ref().map(|v| Payload::new(tag, v.clone()).unwrap()))
        .collect()
}

fn constant_frames(tag: Tag, value: Vec<i64>, ticks: usize) -> Vec<Option<Payload>> {
    (0..ticks).map(|_| Some(Payload::new(tag, value.clone()).unwrap())).collect()
}

fn logger_records(g: &Graph, node: usize, port: usize) -> Vec<Vec<i64>> {
    match g.node(node).behavior() {
        Behavior::Logger { records, .. } => {
            records[port].iter().map(|p| p.values().clone()).collect()
        },
        _ => panic!("node {node} is not a logger"),
    }
}

#[test]
fn noop_run_succeeds_and_produces_nothing() {
    let x = Tag::new(1, 1);
    let mut g = Graph::new();
    let src = g.add_node(Node::new(Behavior::source(x, constant_frames(x, vec![1], 4)), 1, 1));
    let log = g.add_node(Node::new(Behavior::logger(vec![x], 1), 1, 1));
    g.connect(src, 0, log, 0, Discipline::Unbounded, false).unwrap();
    g.build().unwrap();
    g.run(0).unwrap();
    assert_eq!(logger_records(&g, log, 0), Vec::<Vec<i64>>::new());
    for e in 0..g.n_edges() {
        assert_eq!(g.edge(e).queue().len(), 0);
    }
}

#[test]
fn downsampler_sums_four_gathers_and_emits_twice_in_eight_ticks() {
    let x = Tag::new(1, 1);
    let mut g = Graph::new();
    let src = g.add_node(Node::new(Behavior::source(x, constant_frames(x, vec![1], 8)), 1, 1));
    let acc = g.add_node(Node::new(Behavior::accumulator(x), 4, 1));
    let log = g.add_node(Node::new(Behavior::logger(vec![x], 1), 1, 1));
    g.connect(src, 0, acc, 0, Discipline::Bounded, false).unwrap();
    g.connect(acc, 0, log, 0, Discipline::Unbounded, false).unwrap();
    g.build().unwrap();
    g.run(8).unwrap();
    assert_eq!(logger_records(&g, log, 0), vec![vec![4], vec![4]]);
}

#[test]
fn merge_node_waits_for_both_inputs_then_sums() {
    let x = Tag::new(1, 2);
    let mut g = Graph::new();
    let a = g.add_node(Node::new(
        Behavior::source(x, frames(x, &[Some(vec![1, 2]), Some(vec![10, 20])])),
        1,
        1,
    ));
    let b = g.add_node(Node::new(
        Behavior::source(x, frames(x, &[None, Some(vec![5, 5])])),
        1,
        1,
    ));
    let add = g.add_node(Node::new(Behavior::adder(x), 1, 1));
    let log = g.add_node(Node::new(Behavior::logger(vec![x], 1), 1, 1));
    g.connect(a, 0, add, 0, Discipline::Bounded, false).unwrap();
    g.connect(b, 0, add, 1, Discipline::Bounded, false).unwrap();
    g.connect(add, 0, log, 0, Discipline::Unbounded, false).unwrap();
    g.build().unwrap();
    g.run(2).unwrap();
    // nothing on the first tick, the elementwise sum on the first tick
    // both inputs are present (input A latched its latest value)
    assert_eq!(logger_records(&g, log, 0), vec![vec![15, 25]]);
}

#[test]
fn bootstrap_feedback_is_delayed_exactly_one_tick() {
    let x = Tag::new(1, 1);
    let mut g = Graph::new();
    let src = g.add_node(Node::new(Behavior::source(x, constant_frames(x, vec![7], 3)), 1, 1));
    // the adder output fans out to the feedback relay and the logger
    let mut adder = Node::new(Behavior::adder(x), 1, 1);
    adder.set_multiplex(0, 2);
    let add = g.add_node(adder);
    let fb = g.add_node(Node::new(Behavior::relay(x), 1, 1));
    let log = g.add_node(Node::new(Behavior::logger(vec![x], 1), 1, 1));
    g.connect(src, 0, add, 0, Discipline::Bounded, false).unwrap();
    g.connect(add, 0, fb, 0, Discipline::Bounded, false).unwrap();
    g.connect(add, 0, log, 0, Discipline::Unbounded, false).unwrap();
    // the algebraic loop is broken by a one-tick bootstrap delay
    g.connect(fb, 0, add, 1, Discipline::Bounded, true).unwrap();
    g.build().unwrap();
    g.run(3).unwrap();
    // tick 0 consumes the seeded zero; each later tick sees the previous
    // tick's own output: the delay is exactly one tick, never zero or two
    assert_eq!(logger_records(&g, log, 0), vec![vec![7], vec![14], vec![21]]);
}

#[test]
fn smoother_scales_the_signal_by_the_weight() {
    let w = Tag::new(1, 1);
    let x = Tag::new(2, 2);
    let mut g = Graph::new();
    let ws = g.add_node(Node::new(Behavior::source(w, constant_frames(w, vec![2], 2)), 1, 1));
    let xs = g.add_node(Node::new(
        Behavior::source(x, frames(x, &[Some(vec![3, 4]), Some(vec![5, 6])])),
        1,
        1,
    ));
    let sm = g.add_node(Node::new(Behavior::smooth(w, x), 1, 1));
    let log = g.add_node(Node::new(Behavior::logger(vec![x], 1), 1, 1));
    g.connect(ws, 0, sm, 0, Discipline::Bounded, false).unwrap();
    g.connect(xs, 0, sm, 1, Discipline::Bounded, false).unwrap();
    g.connect(sm, 0, log, 0, Discipline::Unbounded, false).unwrap();
    g.build().unwrap();
    g.run(2).unwrap();
    assert_eq!(logger_records(&g, log, 0), vec![vec![6, 8], vec![10, 12]]);
}

#[test]
fn router_swaps_and_rebrands_its_inputs() {
    let a = Tag::new(1, 1);
    let b = Tag::new(2, 1);
    let c = Tag::new(3, 1);
    let d = Tag::new(4, 1);
    let mut g = Graph::new();
    let sa = g.add_node(Node::new(Behavior::source(a, constant_frames(a, vec![11], 1)), 1, 1));
    let sb = g.add_node(Node::new(Behavior::source(b, constant_frames(b, vec![22], 1)), 1, 1));
    let rt = g.add_node(Node::new(
        Behavior::router(vec![a, b], vec![c, d], vec![1, 0]),
        1,
        1,
    ));
    let log = g.add_node(Node::new(Behavior::logger(vec![c, d], 1), 1, 1));
    g.connect(sa, 0, rt, 0, Discipline::Bounded, false).unwrap();
    g.connect(sb, 0, rt, 1, Discipline::Bounded, false).unwrap();
    g.connect(rt, 0, log, 0, Discipline::Unbounded, false).unwrap();
    g.connect(rt, 1, log, 1, Discipline::Unbounded, false).unwrap();
    g.build().unwrap();
    g.run(1).unwrap();
    assert_eq!(logger_records(&g, log, 0), vec![vec![22]]);
    assert_eq!(logger_records(&g, log, 1), vec![vec![11]]);
}

#[test]
fn hold_node_reemits_between_slow_updates() {
    let x = Tag::new(1, 1);
    let mut g = Graph::new();
    let src = g.add_node(Node::new(
        Behavior::source(
            x,
            frames(x, &[Some(vec![3]), None, None, None, Some(vec![9]), None]),
        ),
        1,
        1,
    ));
    let hold = g.add_node(Node::new(Behavior::relay(x), 1, 4));
    let log = g.add_node(Node::new(Behavior::logger(vec![x], 1), 1, 1));
    g.connect(src, 0, hold, 0, Discipline::Bounded, false).unwrap();
    g.connect(hold, 0, log, 0, Discipline::Unbounded, false).unwrap();
    g.build().unwrap();
    g.run(6).unwrap();
    assert_eq!(
        logger_records(&g, log, 0),
        vec![vec![3], vec![3], vec![3], vec![3], vec![9], vec![9]]
    );
}

#[test]
fn downsampling_relay_keeps_the_last_write_of_the_window() {
    let x = Tag::new(1, 1);
    let mut g = Graph::new();
    let src = g.add_node(Node::new(
        Behavior::source(
            x,
            frames(
                x,
                &[
                    Some(vec![1]),
                    Some(vec![2]),
                    Some(vec![3]),
                    Some(vec![4]),
                    Some(vec![5]),
                    Some(vec![6]),
                    Some(vec![7]),
                    Some(vec![8]),
                ],
            ),
        ),
        1,
        1,
    ));
    let dec = g.add_node(Node::new(Behavior::relay(x), 4, 1));
    let log = g.add_node(Node::new(Behavior::logger(vec![x], 1), 1, 1));
    g.connect(src, 0, dec, 0, Discipline::Bounded, false).unwrap();
    g.connect(dec, 0, log, 0, Discipline::Unbounded, false).unwrap();
    g.build().unwrap();
    g.run(8).unwrap();
    // within each four-tick gathering window the later arrivals overwrite
    // the earlier ones
    assert_eq!(logger_records(&g, log, 0), vec![vec![4], vec![8]]);
}

#[test]
fn only_satisfied_gathers_count_toward_the_consume_rate() {
    let x = Tag::new(1, 1);
    let mut g = Graph::new();
    // the upstream delivers only every other tick, so a consume rate of 2
    // is satisfied for the first time on the third tick
    let src = g.add_node(Node::new(
        Behavior::source(
            x,
            frames(x, &[Some(vec![1]), None, Some(vec![1]), None, Some(vec![1]), None]),
        ),
        1,
        1,
    ));
    let acc = g.add_node(Node::new(Behavior::accumulator(x), 2, 1));
    let log = g.add_node(Node::new(Behavior::logger(vec![x], 1), 1, 1));
    g.connect(src, 0, acc, 0, Discipline::Bounded, false).unwrap();
    g.connect(acc, 0, log, 0, Discipline::Unbounded, false).unwrap();
    g.build().unwrap();
    g.run(6).unwrap();
    assert_eq!(logger_records(&g, log, 0), vec![vec![2]]);
}

#[test]
fn logger_decimation_stores_every_kth_sample() {
    let x = Tag::new(1, 1);
    let mut g = Graph::new();
    let src = g.add_node(Node::new(
        Behavior::source(
            x,
            frames(
                x,
                &[
                    Some(vec![0]),
                    Some(vec![1]),
                    Some(vec![2]),
                    Some(vec![3]),
                    Some(vec![4]),
                    Some(vec![5]),
                ],
            ),
        ),
        1,
        1,
    ));
    let log = g.add_node(Node::new(Behavior::logger(vec![x], 2), 1, 1));
    g.connect(src, 0, log, 0, Discipline::Unbounded, false).unwrap();
    g.build().unwrap();
    g.run(6).unwrap();
    assert_eq!(logger_records(&g, log, 0), vec![vec![0], vec![2], vec![4]]);
}

#[test]
fn duplicate_connection_is_rejected_at_connect() {
    let x = Tag::new(1, 1);
    let mut g = Graph::new();
    let s1 = g.add_node(Node::new(Behavior::source(x, constant_frames(x, vec![1], 1)), 1, 1));
    let s2 = g.add_node(Node::new(Behavior::source(x, constant_frames(x, vec![2], 1)), 1, 1));
    let rl = g.add_node(Node::new(Behavior::relay(x), 1, 1));
    g.connect(s1, 0, rl, 0, Discipline::Bounded, false).unwrap();
    let r = g.connect(s2, 0, rl, 0, Discipline::Bounded, false);
    assert_eq!(r.unwrap_err(), ValidationError::DuplicateConnection { node: rl, port: 0 });
}

#[test]
fn tag_identity_mismatch_is_rejected_at_connect() {
    let x = Tag::new(1, 1);
    let y = Tag::new(2, 1);
    let mut g = Graph::new();
    let s = g.add_node(Node::new(Behavior::source(x, constant_frames(x, vec![1], 1)), 1, 1));
    let rl = g.add_node(Node::new(Behavior::relay(y), 1, 1));
    // same length is not enough: tags are never compatible by coercion
    let r = g.connect(s, 0, rl, 0, Discipline::Bounded, false);
    assert_eq!(r.unwrap_err(), ValidationError::TagMismatch { node: rl, port: 0 });
}

#[test]
fn tag_length_mismatch_is_rejected_at_connect() {
    let x = Tag::new(1, 2);
    let y = Tag::new(1, 3);
    let mut g = Graph::new();
    let s = g.add_node(Node::new(Behavior::source(x, constant_frames(x, vec![1, 1], 1)), 1, 1));
    let rl = g.add_node(Node::new(Behavior::relay(y), 1, 1));
    let r = g.connect(s, 0, rl, 0, Discipline::Bounded, false);
    assert_eq!(r.unwrap_err(), ValidationError::LengthMismatch { expected: 3, got: 2 });
}

#[test]
fn unconnected_input_fails_validation() {
    let x = Tag::new(1, 1);
    let mut g = Graph::new();
    let s = g.add_node(Node::new(Behavior::source(x, constant_frames(x, vec![1], 1)), 1, 1));
    let add = g.add_node(Node::new(Behavior::adder(x), 1, 1));
    g.connect(s, 0, add, 0, Discipline::Bounded, false).unwrap();
    // input port 1 of the adder is never connected, and the adder output
    // feeds nothing
    let errs = g.build().unwrap_err();
    assert!(errs.contains(&ValidationError::UnconnectedInput { node: add, port: 1 }));
}

#[test]
fn multiplex_count_must_match_bound_edges() {
    let x = Tag::new(1, 1);
    let mut g = Graph::new();
    let mut src = Node::new(Behavior::source(x, constant_frames(x, vec![1], 1)), 1, 1);
    src.set_multiplex(0, 2);
    let s = g.add_node(src);
    let rl = g.add_node(Node::new(Behavior::relay(x), 1, 1));
    let log = g.add_node(Node::new(Behavior::logger(vec![x], 1), 1, 1));
    g.connect(s, 0, rl, 0, Discipline::Bounded, false).unwrap();
    g.connect(rl, 0, log, 0, Discipline::Unbounded, false).unwrap();
    let errs = g.build().unwrap_err();
    assert!(errs.contains(&ValidationError::InvalidMultiplex {
        node: s,
        port: 0,
        declared: 2,
        bound: 1
    }));
}

#[test]
fn multiplexed_output_feeds_every_bound_edge() {
    let x = Tag::new(1, 1);
    let mut g = Graph::new();
    let mut src = Node::new(Behavior::source(x, constant_frames(x, vec![5], 2)), 1, 1);
    src.set_multiplex(0, 2);
    let s = g.add_node(src);
    let l1 = g.add_node(Node::new(Behavior::logger(vec![x], 1), 1, 1));
    let l2 = g.add_node(Node::new(Behavior::logger(vec![x], 1), 1, 1));
    g.connect(s, 0, l1, 0, Discipline::Unbounded, false).unwrap();
    g.connect(s, 0, l2, 0, Discipline::Unbounded, false).unwrap();
    g.build().unwrap();
    g.run(2).unwrap();
    assert_eq!(logger_records(&g, l1, 0), vec![vec![5], vec![5]]);
    assert_eq!(logger_records(&g, l2, 0), vec![vec![5], vec![5]]);
}

#[test]
fn same_tick_cycle_fails_validation() {
    let x = Tag::new(1, 1);
    let mut g = Graph::new();
    let r1 = g.add_node(Node::new(Behavior::relay(x), 1, 1));
    let r2 = g.add_node(Node::new(Behavior::relay(x), 1, 1));
    g.connect(r1, 0, r2, 0, Discipline::Bounded, false).unwrap();
    g.connect(r2, 0, r1, 0, Discipline::Bounded, false).unwrap();
    let errs = g.build().unwrap_err();
    assert!(errs.contains(&ValidationError::Cycle));
}

#[test]
fn bootstrap_edge_breaks_a_cycle_and_is_preseeded_with_zero() {
    let x = Tag::new(1, 3);
    let mut g = Graph::new();
    let r1 = g.add_node(Node::new(Behavior::relay(x), 1, 1));
    let r2 = g.add_node(Node::new(Behavior::relay(x), 1, 1));
    g.connect(r1, 0, r2, 0, Discipline::Bounded, false).unwrap();
    g.connect(r2, 0, r1, 0, Discipline::Bounded, true).unwrap();
    g.build().unwrap();
    // the bootstrap edge starts with exactly one zero-valued payload of
    // the tag's declared length; the same-tick edge starts empty
    let mut seeded = 0;
    for e in 0..g.n_edges() {
        let edge = g.edge(e);
        if edge.bootstrap() {
            assert_eq!(edge.queue().len(), 1);
            assert_eq!(edge.queue()[0].values().as_slice(), &[0, 0, 0]);
            assert_eq!(edge.queue()[0].tag(), x);
            seeded += 1;
        } else {
            assert_eq!(edge.queue().len(), 0);
        }
    }
    assert_eq!(seeded, 1);
}

#[test]
fn transform_overflow_aborts_the_run_with_node_and_tick() {
    let x = Tag::new(1, 1);
    let mut g = Graph::new();
    let a = g.add_node(Node::new(
        Behavior::source(x, constant_frames(x, vec![i64::MAX], 3)), 1, 1,
    ));
    let b = g.add_node(Node::new(Behavior::source(x, constant_frames(x, vec![1], 3)), 1, 1));
    let add = g.add_node(Node::new(Behavior::adder(x), 1, 1));
    let log = g.add_node(Node::new(Behavior::logger(vec![x], 1), 1, 1));
    g.connect(a, 0, add, 0, Discipline::Bounded, false).unwrap();
    g.connect(b, 0, add, 1, Discipline::Bounded, false).unwrap();
    g.connect(add, 0, log, 0, Discipline::Unbounded, false).unwrap();
    g.build().unwrap();
    let f = g.run(3).unwrap_err();
    assert_eq!(f.node, add);
    assert_eq!(f.tick, 0);
    assert_eq!(f.error, TransformError::Overflow);
    // the logger's already-recorded prefix stays inspectable
    assert_eq!(logger_records(&g, log, 0), Vec::<Vec<i64>>::new());
}

#[test]
fn best_effort_edges_never_stall_and_count_no_loss_when_drained() {
    let x = Tag::new(1, 1);
    let mut g = Graph::new();
    let s = g.add_node(Node::new(Behavior::source(x, constant_frames(x, vec![3], 4)), 1, 1));
    let log = g.add_node(Node::new(Behavior::logger(vec![x], 1), 1, 1));
    g.connect(s, 0, log, 0, Discipline::BestEffort, false).unwrap();
    g.build().unwrap();
    g.run(4).unwrap();
    assert_eq!(logger_records(&g, log, 0).len(), 4);
    assert_eq!(g.edge(0).dropped(), 0);
}
