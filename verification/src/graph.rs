//! The graph and its scheduler: the closed set of nodes and edges for one
//! run.  `build` validates the graph, computes a static execution order
//! over the same-tick edges (bootstrap edges are excluded so they cannot
//! create a false cycle) and pre-seeds bootstrap edges with zero payloads;
//! `run` then drives the graph forward a fixed number of discrete ticks,
//! activating every node once per tick in that order.

use vstd::prelude::*;
use vstd::pervasive::VecAdditionalExecFns;

use crate::errors::RunFailure;
use crate::errors::TransformError;
use crate::errors::ValidationError;
use crate::node::elem_at;
use crate::node::lemma_read_static;
use crate::node::lemma_step_static;
use crate::node::opt_v;
use crate::node::opts_v;
use crate::node::opt_wf;
use crate::node::payloads_v;
use crate::node::Node;
use crate::node::NodeV;
use crate::payload::Payload;
use crate::payload::PayloadV;
use crate::payload::Tag;

verus! {

/// An edge's queue discipline.
#[derive(Clone, Copy, Debug, PartialEq, Eq, Structural)]
pub enum Discipline {
    /// Capacity one; a producer that would overwrite an undrained slot is a
    /// fault surfaced to the caller (the sequential scheduler cannot
    /// suspend it), so no data is ever lost silently.
    Bounded,
    /// Capacity one with explicit opt-in overwrite for telemetry taps: the
    /// newest payload replaces an undrained one and the loss is counted.
    BestEffort,
    /// Unlimited queue that never holds back a producer.
    Unbounded,
}

/// The mathematical value of an edge.
#[verifier::ext_equal]
pub struct EdgeV {
    pub src: usize,
    pub src_port: usize,
    pub dst: usize,
    pub dst_port: usize,
    pub discipline: Discipline,
    pub bootstrap: bool,
    pub tag: Tag,
    pub queue: Seq<PayloadV>,
    pub dropped: usize,
}

/// A directed, typed connection from one producer port to one consumer
/// port, with its in-flight payload queue.
#[derive(Debug)]
pub struct Edge {
    src: usize,
    src_port: usize,
    dst: usize,
    dst_port: usize,
    discipline: Discipline,
    bootstrap: bool,
    tag: Tag,
    queue: Vec<Payload>,
    dropped: usize,
}

impl View for Edge {
    type V = EdgeV;

    closed spec fn view(&self) -> EdgeV {
        EdgeV {
            src: self.src,
            src_port: self.src_port,
            dst: self.dst,
            dst_port: self.dst_port,
            discipline: self.discipline,
            bootstrap: self.bootstrap,
            tag: self.tag,
            queue: payloads_v(self.queue@),
            dropped: self.dropped,
        }
    }
}

impl Edge {
    pub fn src(&self) -> (r: usize)
        ensures
            r == self@.src,
    {
        self.src
    }

    pub fn dst(&self) -> (r: usize)
        ensures
            r == self@.dst,
    {
        self.dst
    }

    pub fn tag(&self) -> (r: Tag)
        ensures
            r == self@.tag,
    {
        self.tag
    }

    pub fn bootstrap(&self) -> (r: bool)
        ensures
            r == self@.bootstrap,
    {
        self.bootstrap
    }

    /// How many payloads a best-effort edge has overwritten (capacity
    /// losses, counted rather than fatal; the count saturates).
    pub fn dropped(&self) -> (r: usize)
        ensures
            r == self@.dropped,
    {
        self.dropped
    }

    /// The queued payloads, oldest first.
    pub fn queue(&self) -> (r: &Vec<Payload>)
        ensures
            payloads_v(r@) == self@.queue,
    {
        &self.queue
    }
}

/// The views of a vector of nodes, element for element.
pub open spec fn nodes_v(s: Seq<Node>) -> Seq<NodeV> {
    Seq::new(s.len(), |i: int| s[i]@)
}

/// The views of a vector of edges, element for element.
pub open spec fn edges_v(s: Seq<Edge>) -> Seq<EdgeV> {
    Seq::new(s.len(), |i: int| s[i]@)
}

/// The mathematical value of a graph.
#[verifier::ext_equal]
pub struct GraphV {
    pub nodes: Seq<NodeV>,
    pub edges: Seq<EdgeV>,
    pub order: Seq<usize>,
    pub built: bool,
}

/// An edge is consistent with the nodes it connects: indices and ports in
/// range, its tag equal to both the producer's output tag and the
/// consumer's input tag, and every queued payload well formed under it.
pub open spec fn edge_wf(e: EdgeV, nodes: Seq<NodeV>) -> bool {
    &&& e.src < nodes.len()
    &&& e.dst < nodes.len()
    &&& e.src_port < nodes[e.src as int].behavior.out_ports()
    &&& e.dst_port < nodes[e.dst as int].behavior.in_ports()
    &&& e.tag == nodes[e.src as int].behavior.out_tag(e.src_port as int)
    &&& e.tag == nodes[e.dst as int].behavior.in_tag(e.dst_port as int)
    &&& forall|k: int|
        0 <= k < e.queue.len() ==> (#[trigger] e.queue[k]).wf() && e.queue[k].tag == e.tag
}

impl GraphV {
    pub open spec fn wf(self) -> bool {
        &&& forall|i: int| 0 <= i < self.nodes.len() ==> (#[trigger] self.nodes[i]).wf()
        &&& forall|e: int| 0 <= e < self.edges.len() ==> edge_wf(#[trigger] self.edges[e], self.nodes)
        &&& (self.built ==> self.order.len() == self.nodes.len() && forall|k: int|
            0 <= k < self.order.len() ==> #[trigger] self.order[k] < self.nodes.len())
    }
}

/// Whether some edge feeds input port `p` of node `i`.
pub open spec fn input_connected(edges: Seq<EdgeV>, i: int, p: int) -> bool {
    exists|e: int|
        0 <= e < edges.len() && (#[trigger] edges[e]).dst == i && edges[e].dst_port == p
}

/// Every declared input port of every node is connected.
pub open spec fn all_inputs_connected(g: GraphV) -> bool {
    forall|i: int, p: int|
        0 <= i < g.nodes.len() && 0 <= p < (#[trigger] g.nodes[i]).behavior.in_ports()
            ==> #[trigger] input_connected(g.edges, i, p)
}

/// How many edges are bound to output port `p` of node `i`.
pub open spec fn bound_count(edges: Seq<EdgeV>, i: int, p: int) -> nat
    decreases edges.len(),
{
    if edges.len() == 0 {
        0
    } else {
        bound_count(edges.drop_last(), i, p) + if edges.last().src == i && edges.last().src_port
            == p {
            1nat
        } else {
            0nat
        }
    }
}

/// Every output port has exactly its declared multiplex count of bound
/// edges.
pub open spec fn mux_ok(g: GraphV) -> bool {
    forall|i: int, p: int|
        0 <= i < g.nodes.len() && 0 <= p < (#[trigger] g.nodes[i]).fanout.len()
            ==> #[trigger] bound_count(g.edges, i, p) == g.nodes[i].fanout[p]
}

/// A node is ready to be scheduled when every same-tick (non-bootstrap)
/// edge into it comes from an already scheduled node.
pub open spec fn kahn_ready(edges: Seq<EdgeV>, done: Seq<bool>, v: int) -> bool {
    forall|e: int|
        0 <= e < edges.len() ==> !((#[trigger] edges[e]).dst == v && !edges[e].bootstrap)
            || done[edges[e].src as int]
}

/// The first unscheduled ready node at or after index `i`, or -1.
pub open spec fn kahn_next(edges: Seq<EdgeV>, done: Seq<bool>, i: int) -> int
    decreases done.len() - i,
{
    if i < 0 || i >= done.len() {
        -1
    } else if !done[i] && kahn_ready(edges, done, i) {
        i
    } else {
        kahn_next(edges, done, i + 1)
    }
}

/// Kahn's construction: repeatedly schedule the lowest-index ready node;
/// the flag reports whether every node was scheduled (false on a
/// same-tick cycle).
pub open spec fn kahn_rec(edges: Seq<EdgeV>, done: Seq<bool>, acc: Seq<usize>, fuel: nat) -> (
    Seq<usize>,
    bool,
)
    decreases fuel,
{
    if acc.len() >= done.len() {
        (acc, true)
    } else if fuel == 0 {
        (acc, false)
    } else {
        let v = kahn_next(edges, done, 0);
        if v < 0 {
            (acc, false)
        } else {
            kahn_rec(edges, done.update(v, true), acc.push(v as usize), (fuel - 1) as nat)
        }
    }
}

/// The execution order of a graph of `n` nodes, and whether one exists.
pub open spec fn spec_kahn(n: nat, edges: Seq<EdgeV>) -> (Seq<usize>, bool) {
    kahn_rec(edges, Seq::new(n, |i: int| false), Seq::empty(), n)
}

/// The first position of a node in an execution order, or -1 when the
/// order does not schedule it.
pub open spec fn index_in(order: Seq<usize>, v: usize) -> int
    decreases order.len(),
{
    if order.len() == 0 {
        -1
    } else if order[0] == v {
        0
    } else {
        let r = index_in(order.drop_first(), v);
        if r < 0 {
            -1
        } else {
            1 + r
        }
    }
}

/// A position returned by `index_in` is in range and names its node; -1
/// means the node appears nowhere.
proof fn lemma_index_in_basics(order: Seq<usize>, v: usize)
    ensures
        -1 <= index_in(order, v) < order.len(),
        index_in(order, v) >= 0 ==> order[index_in(order, v)] == v,
        index_in(order, v) == -1 ==> forall|j: int| 0 <= j < order.len() ==> order[j] != v,
    decreases order.len(),
{
    if order.len() > 0 && order[0] != v {
        let rest = order.drop_first();
        assert(forall|j: int| 0 <= j < rest.len() ==> rest[j] == order[j + 1]);
        lemma_index_in_basics(rest, v);
        if index_in(order, v) == -1 {
            assert forall|j: int| 0 <= j < order.len() implies order[j] != v by {
                if j > 0 {
                    assert(rest[j - 1] == order[j]);
                }
            }
        }
    }
}

/// Appending a node leaves earlier positions alone and schedules a new
/// node at the end.
proof fn lemma_index_in_push(order: Seq<usize>, w: usize, v: usize)
    ensures
        index_in(order.push(w), v) == if index_in(order, v) >= 0 {
            index_in(order, v)
        } else if v == w {
            order.len() as int
        } else {
            -1
        },
    decreases order.len(),
{
    let p = order.push(w);
    if order.len() == 0 {
        assert(p.len() == 1);
        assert(p[0] == w);
        assert(p.drop_first() =~= Seq::<usize>::empty());
        assert(index_in(p.drop_first(), v) == -1);
    } else {
        assert(p[0] == order[0]);
        if order[0] != v {
            assert(p.drop_first() =~= order.drop_first().push(w));
            lemma_index_in_push(order.drop_first(), w, v);
            assert(index_in(p, v) == if index_in(p.drop_first(), v) < 0 {
                -1
            } else {
                1 + index_in(p.drop_first(), v)
            });
        }
    }
}

/// `kahn_next` returns either -1 or an unscheduled ready node.
proof fn lemma_kahn_next_candidate(edges: Seq<EdgeV>, done: Seq<bool>, i: int)
    requires
        0 <= i,
    ensures
        kahn_next(edges, done, i) >= 0 ==> {
            let v = kahn_next(edges, done, i);
            &&& i <= v < done.len()
            &&& !done[v]
            &&& kahn_ready(edges, done, v)
        },
    decreases done.len() - i,
{
    if i < done.len() && !(!done[i] && kahn_ready(edges, done, i)) {
        lemma_kahn_next_candidate(edges, done, i + 1);
    }
}

/// A duplicate-free sequence of `n` node indices below `n` schedules
/// every node.
proof fn lemma_full_permutation(order: Seq<usize>, n: nat)
    requires
        order.no_duplicates(),
        order.len() == n,
        forall|j: int| 0 <= j < order.len() ==> (#[trigger] order[j]) < n,
    ensures
        forall|v: usize| v < n ==> index_in(order, v) >= 0,
{
    broadcast use vstd::set::group_set_axioms;

    assert forall|v: usize| v < n implies index_in(order, v) >= 0 by {
        lemma_index_in_basics(order, v);
        if index_in(order, v) == -1 {
            let vals = order.map_values(|u: usize| u as int);
            order.lemma_no_duplicates_injective(|u: usize| u as int);
            vals.unique_seq_to_set();
            let small = vstd::set_lib::set_int_range(0, n as int).remove(v as int);
            assert(vals.to_set().subset_of(small)) by {
                assert forall|x: int| vals.to_set().contains(x) implies small.contains(x) by {
                    assert(vals.contains(x));
                    let j = choose|j: int| 0 <= j < vals.len() && vals[j] == x;
                    assert(order[j] < n && order[j] != v);
                }
            }
            vstd::set_lib::lemma_int_range(0, n as int);
            vstd::set_lib::lemma_len_subset(vals.to_set(), small);
            assert(small.len() == n - 1);
            assert(false);
        }
    }
}

/// The invariant of Kahn's construction: the accumulated prefix is a
/// duplicate-free enumeration of the scheduled nodes in which every
/// scheduled same-tick edge already points forward.
proof fn lemma_kahn_rec_topo(edges: Seq<EdgeV>, done: Seq<bool>, acc: Seq<usize>, fuel: nat)
    requires
        forall|e: int|
            0 <= e < edges.len() ==> (#[trigger] edges[e]).src < done.len() && edges[e].dst
                < done.len(),
        done.len() <= usize::MAX,
        forall|j: int|
            0 <= j < acc.len() ==> (#[trigger] acc[j]) < done.len() && done[acc[j] as int],
        forall|v: usize| v < done.len() && done[v as int] ==> #[trigger] index_in(acc, v) >= 0,
        acc.no_duplicates(),
        acc.len() <= done.len(),
        forall|e: int|
            0 <= e < edges.len() && !(#[trigger] edges[e]).bootstrap && done[edges[e].dst as int]
                ==> done[edges[e].src as int] && index_in(acc, edges[e].src) < index_in(
                acc,
                edges[e].dst,
            ),
    ensures
        ({
            let (racc, flag) = kahn_rec(edges, done, acc, fuel);
            flag ==> {
                &&& racc.len() == done.len()
                &&& racc.no_duplicates()
                &&& (forall|j: int| 0 <= j < racc.len() ==> (#[trigger] racc[j]) < done.len())
                &&& (forall|e: int|
                    0 <= e < edges.len() && !(#[trigger] edges[e]).bootstrap ==> index_in(
                        racc,
                        edges[e].src,
                    ) < index_in(racc, edges[e].dst))
            }
        }),
    decreases fuel,
{
    if acc.len() >= done.len() {
        assert forall|e: int|
            0 <= e < edges.len() && !(#[trigger] edges[e]).bootstrap implies index_in(
            acc,
            edges[e].src,
        ) < index_in(acc, edges[e].dst) by {
            lemma_full_permutation(acc, done.len());
            assert(index_in(acc, edges[e].dst) >= 0);
            lemma_index_in_basics(acc, edges[e].dst);
            let j = index_in(acc, edges[e].dst);
            assert(done[acc[j] as int]);
        }
    } else if fuel > 0 {
        let v = kahn_next(edges, done, 0);
        lemma_kahn_next_candidate(edges, done, 0);
        if v >= 0 {
            let vu = v as usize;
            assert(0 <= v < done.len());
            assert(vu as int == v);
            assert(!done[v] && kahn_ready(edges, done, v));
            let done2 = done.update(v, true);
            let acc2 = acc.push(vu);
            assert forall|j: int| 0 <= j < acc.len() implies acc[j] != vu by {
                assert(done[acc[j] as int]);
            }
            assert(acc2.no_duplicates());
            assert forall|u: usize|
                u < done2.len() && done2[u as int] implies #[trigger] index_in(acc2, u) >= 0 by {
                lemma_index_in_push(acc, vu, u);
                if u != vu {
                    assert(done[u as int]);
                    assert(index_in(acc, u) >= 0);
                }
            }
            assert forall|e: int|
                0 <= e < edges.len() && !(#[trigger] edges[e]).bootstrap && done2[edges[e].dst as int]
                implies done2[edges[e].src as int] && index_in(acc2, edges[e].src) < index_in(
                acc2,
                edges[e].dst,
            ) by {
                let s = edges[e].src;
                let d = edges[e].dst;
                lemma_index_in_push(acc, vu, s);
                lemma_index_in_push(acc, vu, d);
                lemma_index_in_basics(acc, s);
                lemma_index_in_basics(acc, d);
                if d == vu {
                    assert(done[s as int]);
                    assert(s != vu);
                    assert(index_in(acc, s) >= 0);
                    assert(index_in(acc, d) == -1);
                    assert(index_in(acc2, d) == acc.len() as int);
                } else {
                    assert(done[d as int]);
                    assert(done[s as int] && index_in(acc, s) < index_in(acc, d));
                }
            }
            assert forall|j: int|
                0 <= j < acc2.len() implies (#[trigger] acc2[j]) < done2.len() && done2[acc2[j] as int]
                by {
                if j < acc.len() {
                    assert(acc2[j] == acc[j]);
                    assert(done[acc[j] as int]);
                } else {
                    assert(acc2[j] == vu);
                }
            }
            lemma_kahn_rec_topo(edges, done2, acc2, (fuel - 1) as nat);
        }
    }
}

/// The execution order that `build` fixes is a topological order: it
/// schedules every node exactly once, and every same-tick (non-bootstrap)
/// edge goes from an earlier position to a later one.  Bootstrap edges
/// are excluded from the ordering dependency, so a cycle broken by a
/// one-tick delay does not prevent an order from existing.
pub proof fn lemma_kahn_topological(n: nat, edges: Seq<EdgeV>)
    requires
        n <= usize::MAX,
        spec_kahn(n, edges).1,
        forall|e: int|
            0 <= e < edges.len() ==> (#[trigger] edges[e]).src < n && edges[e].dst < n,
    ensures
        spec_kahn(n, edges).0.len() == n,
        spec_kahn(n, edges).0.no_duplicates(),
        forall|v: usize| v < n ==> index_in(spec_kahn(n, edges).0, v) >= 0,
        forall|e: int|
            0 <= e < edges.len() && !(#[trigger] edges[e]).bootstrap ==> index_in(
                spec_kahn(n, edges).0,
                edges[e].src,
            ) < index_in(spec_kahn(n, edges).0, edges[e].dst),
{
    let done0 = Seq::new(n, |i: int| false);
    lemma_kahn_rec_topo(edges, done0, Seq::empty(), n);
    lemma_full_permutation(spec_kahn(n, edges).0, n);
}

/// A graph passes validation: every input connected, every multiplex
/// count matched, and a same-tick execution order exists.
pub open spec fn validated(g: GraphV) -> bool {
    &&& all_inputs_connected(g)
    &&& mux_ok(g)
    &&& spec_kahn(g.nodes.len(), g.edges).1
}

/// The edges after bootstrap pre-seeding: every bootstrap edge starts
/// with exactly one zero-valued payload of its tag's length, every other
/// edge starts empty as it was.
pub open spec fn seeded_edges(edges: Seq<EdgeV>) -> Seq<EdgeV> {
    Seq::new(
        edges.len(),
        |e: int|
            if edges[e].bootstrap {
                EdgeV { queue: seq![PayloadV::zero(edges[e].tag)], ..edges[e] }
            } else {
                edges[e]
            },
    )
}

/// What a validation error reported by `build` asserts of the graph it
/// was reported for.
pub open spec fn error_holds(g: GraphV, err: ValidationError) -> bool {
    match err {
        ValidationError::UnconnectedInput { node, port } => {
            &&& node < g.nodes.len()
            &&& port < g.nodes[node as int].behavior.in_ports()
            &&& !input_connected(g.edges, node as int, port as int)
        },
        ValidationError::InvalidMultiplex { node, port, declared, bound } => {
            &&& node < g.nodes.len()
            &&& port < g.nodes[node as int].fanout.len()
            &&& declared == g.nodes[node as int].fanout[port as int]
            &&& bound == bound_count(g.edges, node as int, port as int)
            &&& declared != bound
        },
        ValidationError::Cycle => !spec_kahn(g.nodes.len(), g.edges).1,
        _ => false,
    }
}

/// Skipping indices that are scheduled or not ready leaves `kahn_next`
/// unchanged.
proof fn lemma_kahn_next_skip(edges: Seq<EdgeV>, done: Seq<bool>, s: int, i: int)
    requires
        0 <= s <= i <= done.len(),
        forall|j: int| s <= j < i ==> !(!done[j] && #[trigger] kahn_ready(edges, done, j)),
    ensures
        kahn_next(edges, done, s) == kahn_next(edges, done, i),
    decreases i - s,
{
    if s < i {
        lemma_kahn_next_skip(edges, done, s + 1, i);
    }
}

/// Whether some edge feeds input port `p` of node `i`, executably.
fn has_input_edge(edges: &Vec<Edge>, i: usize, p: usize) -> (r: bool)
    ensures
        r == input_connected(edges_v(edges@), i as int, p as int),
{
    let n = edges.len();
    let mut e: usize = 0;
    while e < n
        invariant
            n == edges@.len(),
            e <= n,
            forall|q: int|
                0 <= q < e ==> !((#[trigger] edges_v(edges@)[q]).dst == i
                    && edges_v(edges@)[q].dst_port == p),
        decreases n - e,
    {
        if edges[e].dst == i && edges[e].dst_port == p {
            proof {
                assert((#[trigger] edges_v(edges@)[e as int]).dst == i && edges_v(
                    edges@,
                )[e as int].dst_port == p);
            }
            return true;
        }
        proof {
            assert(edges_v(edges@)[e as int] == edges@[e as int]@);
        }
        e = e + 1;
    }
    false
}

/// How many edges are bound to output port `p` of node `i`, executably.
fn count_output_edges(edges: &Vec<Edge>, i: usize, p: usize) -> (r: usize)
    ensures
        r == bound_count(edges_v(edges@), i as int, p as int),
{
    let n = edges.len();
    let mut count: usize = 0;
    let mut e: usize = 0;
    proof {
        assert(edges_v(edges@).take(0) =~= Seq::<EdgeV>::empty());
    }
    while e < n
        invariant
            n == edges@.len(),
            e <= n,
            count <= e,
            count == bound_count(edges_v(edges@).take(e as int), i as int, p as int),
        decreases n - e,
    {
        proof {
            let ev = edges_v(edges@);
            assert(ev.take(e + 1).drop_last() =~= ev.take(e as int));
            assert(ev.take(e + 1).last() == ev[e as int]);
            assert(ev[e as int] == edges@[e as int]@);
        }
        if edges[e].src == i && edges[e].src_port == p {
            count = count + 1;
        }
        e = e + 1;
    }
    proof {
        assert(edges_v(edges@).take(n as int) =~= edges_v(edges@));
    }
    count
}

/// Whether node `v` is ready given the scheduled set, executably.
fn is_ready(edges: &Vec<Edge>, done: &Vec<bool>, v: usize) -> (r: bool)
    requires
        forall|e: int|
            0 <= e < edges@.len() ==> (#[trigger] edges_v(edges@)[e]).src < done@.len(),
    ensures
        r == kahn_ready(edges_v(edges@), done@, v as int),
{
    let n = edges.len();
    let mut e: usize = 0;
    while e < n
        invariant
            n == edges@.len(),
            e <= n,
            forall|q: int|
                0 <= q < edges@.len() ==> (#[trigger] edges_v(edges@)[q]).src < done@.len(),
            forall|q: int|
                0 <= q < e ==> !((#[trigger] edges_v(edges@)[q]).dst == v && !edges_v(
                    edges@,
                )[q].bootstrap) || done@[edges_v(edges@)[q].src as int],
        decreases n - e,
    {
        proof {
            assert(edges_v(edges@)[e as int] == edges@[e as int]@);
        }
        if edges[e].dst == v && !edges[e].bootstrap {
            if !done[edges[e].src] {
                return false;
            }
        }
        e = e + 1;
    }
    true
}

/// Computes the same-tick execution order by Kahn's construction, or
/// reports that a same-tick cycle makes none exist.
fn topo_order(n_nodes: usize, edges: &Vec<Edge>) -> (r: Result<Vec<usize>, ValidationError>)
    requires
        forall|e: int|
            0 <= e < edges@.len() ==> (#[trigger] edges_v(edges@)[e]).src < n_nodes,
    ensures
        r is Ok <==> spec_kahn(n_nodes as nat, edges_v(edges@)).1,
        r is Ok ==> r->Ok_0@ == spec_kahn(n_nodes as nat, edges_v(edges@)).0
            && r->Ok_0@.len() == n_nodes && (forall|k: int|
            0 <= k < n_nodes ==> #[trigger] r->Ok_0@[k] < n_nodes),
        r is Err ==> r == Err::<Vec<usize>, ValidationError>(ValidationError::Cycle),
{
    let ghost ev = edges_v(edges@);
    let mut done: Vec<bool> = Vec::new();
    let mut i: usize = 0;
    while i < n_nodes
        invariant
            i <= n_nodes,
            done@.len() == i,
            forall|j: int| 0 <= j < i ==> #[trigger] done@[j] == false,
        decreases n_nodes - i,
    {
        done.push(false);
        i = i + 1;
    }
    proof {
        assert(done@ =~= Seq::new(n_nodes as nat, |i: int| false));
    }
    let mut order: Vec<usize> = Vec::new();
    let mut k: usize = 0;
    while k < n_nodes
        invariant
            k <= n_nodes,
            order@.len() == k,
            done@.len() == n_nodes,
            ev == edges_v(edges@),
            forall|e: int| 0 <= e < ev.len() ==> (#[trigger] ev[e]).src < n_nodes,
            forall|q: int| 0 <= q < k ==> #[trigger] order@[q] < n_nodes,
            kahn_rec(ev, done@, order@, (n_nodes - k) as nat) == spec_kahn(
                n_nodes as nat,
                ev,
            ),
        decreases n_nodes - k,
    {
        let mut v: usize = 0;
        let mut found = false;
        while !found && v < n_nodes
            invariant
                done@.len() == n_nodes,
                ev == edges_v(edges@),
                forall|e: int| 0 <= e < ev.len() ==> (#[trigger] ev[e]).src < n_nodes,
                v <= n_nodes,
                found ==> v < n_nodes && !done@[v as int] && kahn_ready(ev, done@, v as int),
                forall|j: int|
                    0 <= j < v ==> !(!done@[j] && #[trigger] kahn_ready(ev, done@, j)),
            decreases n_nodes - v + (if found { 0int } else { 1int }),
        {
            if !done[v] && is_ready(edges, &done, v) {
                found = true;
            } else {
                v = v + 1;
            }
        }
        if !found {
            proof {
                lemma_kahn_next_skip(ev, done@, 0, n_nodes as int);
                assert(kahn_next(ev, done@, 0) == -1);
                assert(!spec_kahn(n_nodes as nat, ev).1);
            }
            return Err(ValidationError::Cycle);
        }
        proof {
            lemma_kahn_next_skip(ev, done@, 0, v as int);
            assert(kahn_next(ev, done@, 0) == v as int);
        }
        done.set(v, true);
        order.push(v);
        k = k + 1;
    }
    Ok(order)
}

/// A spec-level snapshot of a run in progress: the node and edge state,
/// and the first failure if one arose.
#[verifier::ext_equal]
pub struct TickState {
    pub nodes: Seq<NodeV>,
    pub edges: Seq<EdgeV>,
    pub failure: Option<RunFailure>,
}

/// One gather step: if edge `e` feeds node `i` and holds a payload, the
/// oldest payload moves from the edge's queue into the node's transform.
pub open spec fn gather_edge(nodes: Seq<NodeV>, edges: Seq<EdgeV>, i: int, e: int) -> (
    Seq<NodeV>,
    Seq<EdgeV>,
    bool,
) {
    let ed = edges[e];
    if ed.dst == i && ed.queue.len() > 0 {
        (
            nodes.update(
                i,
                NodeV {
                    behavior: nodes[i].behavior.read_spec(ed.dst_port as int, ed.queue[0]),
                    ..nodes[i]
                },
            ),
            edges.update(e, EdgeV { queue: ed.queue.drop_first(), ..ed }),
            true,
        )
    } else {
        (nodes, edges, false)
    }
}

/// The gather phase of node `i` folded over the first `e` edges; the flag
/// reports whether anything arrived.
pub open spec fn gather_upto(nodes: Seq<NodeV>, edges: Seq<EdgeV>, i: int, e: int) -> (
    Seq<NodeV>,
    Seq<EdgeV>,
    bool,
)
    decreases e,
{
    if e <= 0 {
        (nodes, edges, false)
    } else {
        let (ns, es, a) = gather_upto(nodes, edges, i, e - 1);
        let (ns2, es2, a2) = gather_edge(ns, es, i, e - 1);
        (ns2, es2, a || a2)
    }
}

/// A saturating loss counter.
pub open spec fn sat_inc(d: usize) -> usize {
    if d < usize::MAX {
        (d + 1) as usize
    } else {
        d
    }
}

/// One delivery onto edge `e`: an unbounded queue always takes the
/// payload; a bounded slot takes it only when drained (else the push
/// fails); a best-effort slot overwrites and counts the loss.
pub open spec fn push_edge(edges: Seq<EdgeV>, e: int, p: PayloadV) -> (Seq<EdgeV>, bool) {
    let ed = edges[e];
    match ed.discipline {
        Discipline::Unbounded => (edges.update(e, EdgeV { queue: ed.queue.push(p), ..ed }), true),
        Discipline::Bounded => if ed.queue.len() == 0 {
            (edges.update(e, EdgeV { queue: seq![p], ..ed }), true)
        } else {
            (edges, false)
        },
        Discipline::BestEffort => if ed.queue.len() == 0 {
            (edges.update(e, EdgeV { queue: seq![p], ..ed }), true)
        } else {
            (edges.update(e, EdgeV { queue: seq![p], dropped: sat_inc(ed.dropped), ..ed }), true)
        },
    }
}

/// Delivery of one payload from output port `port` of node `i` to every
/// bound edge, folded over the first `e` edges; stops at the first
/// failing push.
pub open spec fn push_port_upto(
    edges: Seq<EdgeV>,
    i: int,
    port: int,
    p: PayloadV,
    e: int,
) -> (Seq<EdgeV>, bool)
    decreases e,
{
    if e <= 0 {
        (edges, true)
    } else {
        let (es, ok) = push_port_upto(edges, i, port, p, e - 1);
        if !ok {
            (es, false)
        } else {
            let ed = es[e - 1];
            if ed.src == i && ed.src_port == port {
                push_edge(es, e - 1, p)
            } else {
                (es, true)
            }
        }
    }
}

/// Delivery of a node's emissions, folded over its first `port` output
/// ports; stops at the first failing push.
pub open spec fn push_outs_upto(
    edges: Seq<EdgeV>,
    i: int,
    outs: Seq<Option<PayloadV>>,
    port: int,
) -> (Seq<EdgeV>, bool)
    decreases port,
{
    if port <= 0 {
        (edges, true)
    } else {
        let (es, ok) = push_outs_upto(edges, i, outs, port - 1);
        if !ok {
            (es, false)
        } else {
            match outs[port - 1] {
                Option::Some(p) => push_port_upto(es, i, port - 1, p, es.len() as int),
                Option::None => (es, true),
            }
        }
    }
}

/// One full activation of node `i`: gather from every edge, decide
/// whether the gather was satisfied, step the node, and deliver its
/// emissions.
pub open spec fn spec_node_tick(nodes: Seq<NodeV>, edges: Seq<EdgeV>, i: int) -> (
    Seq<NodeV>,
    Seq<EdgeV>,
    Option<TransformError>,
) {
    let (ns, es, arrived) = gather_upto(nodes, edges, i, edges.len() as int);
    let nd = ns[i];
    let satisfied = nd.behavior.in_ports() == 0 || (arrived && nd.behavior.ready());
    if !nd.step_ok(satisfied) {
        (ns, es, Option::Some(TransformError::Overflow))
    } else {
        let nd2 = nd.step_state(satisfied);
        let emit = nd.step_emit(satisfied);
        let ns2 = ns.update(i, nd2);
        let (es2, ok) = push_outs_upto(es, i, emit, emit.len() as int);
        if ok {
            (ns2, es2, Option::None)
        } else {
            (ns2, es2, Option::Some(TransformError::WouldBlock))
        }
    }
}

/// One global tick folded over the first `k` entries of the execution
/// order; stops at the first failing node.
pub open spec fn spec_tick_upto(
    nodes: Seq<NodeV>,
    edges: Seq<EdgeV>,
    order: Seq<usize>,
    k: int,
    tick: usize,
) -> TickState
    decreases k,
{
    if k <= 0 {
        TickState { nodes, edges, failure: Option::None }
    } else {
        let st = spec_tick_upto(nodes, edges, order, k - 1, tick);
        if st.failure is Some {
            st
        } else {
            let i = order[k - 1] as int;
            let (ns, es, err) = spec_node_tick(st.nodes, st.edges, i);
            TickState {
                nodes: ns,
                edges: es,
                failure: match err {
                    Option::None => Option::None,
                    Option::Some(er) => Option::Some(
                        RunFailure { node: order[k - 1], tick, error: er },
                    ),
                },
            }
        }
    }
}

/// A whole run: `n_ticks` global ticks, each activating every node once
/// in the execution order; stops at the first fatal error, which carries
/// its tick index.
pub open spec fn spec_run(
    nodes: Seq<NodeV>,
    edges: Seq<EdgeV>,
    order: Seq<usize>,
    n_ticks: usize,
) -> TickState
    decreases n_ticks,
{
    if n_ticks == 0 {
        TickState { nodes, edges, failure: Option::None }
    } else {
        let st = spec_run(nodes, edges, order, (n_ticks - 1) as usize);
        if st.failure is Some {
            st
        } else {
            spec_tick_upto(st.nodes, st.edges, order, order.len() as int, (n_ticks - 1) as usize)
        }
    }
}

/// Once a tick has failed at some prefix of the order, the rest of the
/// order changes nothing.
proof fn lemma_tick_stuck(
    nodes: Seq<NodeV>,
    edges: Seq<EdgeV>,
    order: Seq<usize>,
    k: int,
    m: int,
    tick: usize,
)
    requires
        0 <= k <= m,
        spec_tick_upto(nodes, edges, order, k, tick).failure is Some,
    ensures
        spec_tick_upto(nodes, edges, order, m, tick) == spec_tick_upto(
            nodes,
            edges,
            order,
            k,
            tick,
        ),
    decreases m - k,
{
    if k < m {
        lemma_tick_stuck(nodes, edges, order, k + 1, m, tick);
    }
}

/// Once a run has failed at some tick, later ticks change nothing.
proof fn lemma_run_stuck(
    nodes: Seq<NodeV>,
    edges: Seq<EdgeV>,
    order: Seq<usize>,
    t: usize,
    m: usize,
)
    requires
        t <= m,
        spec_run(nodes, edges, order, t).failure is Some,
    ensures
        spec_run(nodes, edges, order, m) == spec_run(nodes, edges, order, t),
    decreases m - t,
{
    if t < m {
        lemma_run_stuck(nodes, edges, order, t, (m - 1) as usize);
    }
}

/// The closed set of nodes and edges for one run, with its execution
/// order once built.
#[derive(Debug)]
pub struct Graph {
    nodes: Vec<Node>,
    edges: Vec<Edge>,
    order: Vec<usize>,
    built: bool,
}

impl View for Graph {
    type V = GraphV;

    closed spec fn view(&self) -> GraphV {
        GraphV {
            nodes: nodes_v(self.nodes@),
            edges: edges_v(self.edges@),
            order: self.order@,
            built: self.built,
        }
    }
}

impl Graph {
    /// An empty, unbuilt graph.
    pub fn new() -> (r: Graph)
        ensures
            r@ == (GraphV {
                nodes: Seq::empty(),
                edges: Seq::empty(),
                order: Seq::empty(),
                built: false,
            }),
            r@.wf(),
    {
        let r = Graph { nodes: Vec::new(), edges: Vec::new(), order: Vec::new(), built: false };
        proof {
            assert(r@.nodes =~= Seq::<NodeV>::empty());
            assert(r@.edges =~= Seq::<EdgeV>::empty());
        }
        r
    }

    pub fn n_nodes(&self) -> (r: usize)
        ensures
            r == self@.nodes.len(),
    {
        self.nodes.len()
    }

    pub fn n_edges(&self) -> (r: usize)
        ensures
            r == self@.edges.len(),
    {
        self.edges.len()
    }

    pub fn built(&self) -> (r: bool)
        ensures
            r == self@.built,
    {
        self.built
    }

    /// Read access to one node by index.
    pub fn node(&self, i: usize) -> (r: &Node)
        requires
            i < self@.nodes.len(),
        ensures
            r@ == self@.nodes[i as int],
    {
        &self.nodes[i]
    }

    /// Read access to one edge by index.
    pub fn edge(&self, e: usize) -> (r: &Edge)
        requires
            e < self@.edges.len(),
        ensures
            r@ == self@.edges[e as int],
    {
        &self.edges[e]
    }

    /// Adds a node to an unbuilt graph and returns its index.
    pub fn add_node(&mut self, node: Node) -> (r: usize)
        requires
            old(self)@.wf(),
            !old(self)@.built,
            node@.wf(),
        ensures
            r == old(self)@.nodes.len(),
            final(self)@ == (GraphV { nodes: old(self)@.nodes.push(node@), ..old(self)@ }),
            final(self)@.wf(),
    {
        let ghost nodev = node@;
        let i = self.nodes.len();
        self.nodes.push(node);
        proof {
            assert(self@.nodes =~= old(self)@.nodes.push(nodev));
            assert(self@.edges =~= old(self)@.edges);
            assert forall|e: int|
                0 <= e < self@.edges.len() implies edge_wf(
                #[trigger] self@.edges[e],
                self@.nodes,
            ) by {
                assert(edge_wf(old(self)@.edges[e], old(self)@.nodes));
            }
        }
        i
    }

    /// Connects a producer port to a consumer port.  Fails with
    /// `DuplicateConnection` if the consumer port is already bound (inputs
    /// are single-writer; one producer port may fan out to many edges),
    /// with `TagMismatch` if the two ports declare different tags, and
    /// with `LengthMismatch` if the tags agree but their declared lengths
    /// do not.
    pub fn connect(
        &mut self,
        src: usize,
        src_port: usize,
        dst: usize,
        dst_port: usize,
        discipline: Discipline,
        bootstrap: bool,
    ) -> (r: Result<(), ValidationError>)
        requires
            old(self)@.wf(),
            !old(self)@.built,
            src < old(self)@.nodes.len(),
            dst < old(self)@.nodes.len(),
            src_port < old(self)@.nodes[src as int].behavior.out_ports(),
            dst_port < old(self)@.nodes[dst as int].behavior.in_ports(),
        ensures
            final(self)@.wf(),
            !final(self)@.built,
            r is Ok <==> (old(self)@.nodes[src as int].behavior.out_tag(src_port as int) == old(
                self,
            )@.nodes[dst as int].behavior.in_tag(dst_port as int) && (forall|e: int|
                0 <= e < old(self)@.edges.len() ==> !((#[trigger] old(self)@.edges[e]).dst
                    == dst && old(self)@.edges[e].dst_port == dst_port))),
            r is Ok ==> final(self)@ == (GraphV {
                edges: old(self)@.edges.push(
                    EdgeV {
                        src,
                        src_port,
                        dst,
                        dst_port,
                        discipline,
                        bootstrap,
                        tag: old(self)@.nodes[src as int].behavior.out_tag(src_port as int),
                        queue: Seq::empty(),
                        dropped: 0,
                    },
                ),
                ..old(self)@
            }),
            r is Err ==> final(self)@ == old(self)@,
    {
        let out_tag = self.nodes[src].out_tag(src_port);
        let in_tag = self.nodes[dst].in_tag(dst_port);
        if out_tag.id != in_tag.id {
            return Err(ValidationError::TagMismatch { node: dst, port: dst_port });
        }
        if out_tag.len != in_tag.len {
            return Err(ValidationError::LengthMismatch { expected: in_tag.len, got: out_tag.len });
        }
        let n = self.edges.len();
        let mut e: usize = 0;
        while e < n
            invariant
                self == old(self),
                self@.wf(),
                !self@.built,
                n == self@.edges.len(),
                e <= n,
                forall|q: int|
                    0 <= q < e ==> !((#[trigger] self@.edges[q]).dst == dst
                        && self@.edges[q].dst_port == dst_port),
            decreases n - e,
        {
            if self.edges[e].dst == dst && self.edges[e].dst_port == dst_port {
                proof {
                    assert(self@.edges[e as int].dst == dst && self@.edges[e as int].dst_port
                        == dst_port);
                }
                return Err(ValidationError::DuplicateConnection { node: dst, port: dst_port });
            }
            proof {
                assert(self@.edges[e as int] == self.edges@[e as int]@);
            }
            e = e + 1;
        }
        let edge = Edge {
            src,
            src_port,
            dst,
            dst_port,
            discipline,
            bootstrap,
            tag: out_tag,
            queue: Vec::new(),
            dropped: 0,
        };
        let ghost edgev = edge@;
        self.edges.push(edge);
        proof {
            assert(edgev.queue =~= Seq::<PayloadV>::empty());
            assert(self@.edges =~= old(self)@.edges.push(edgev));
            assert(self@.nodes =~= old(self)@.nodes);
            assert forall|q: int|
                0 <= q < self@.edges.len() implies edge_wf(
                #[trigger] self@.edges[q],
                self@.nodes,
            ) by {
                if q < old(self)@.edges.len() {
                    assert(edge_wf(old(self)@.edges[q], old(self)@.nodes));
                }
            }
        }
        Ok(())
    }

    /// Whether every declared input port is connected, executably.
    fn inputs_connected_exec(&self) -> (r: bool)
        requires
            self@.wf(),
        ensures
            r == all_inputs_connected(self@),
    {
        let n = self.nodes.len();
        let mut i: usize = 0;
        while i < n
            invariant
                self@.wf(),
                n == self@.nodes.len(),
                i <= n,
                forall|a: int, b: int|
                    0 <= a < i && 0 <= b < (#[trigger] self@.nodes[a]).behavior.in_ports()
                        ==> #[trigger] input_connected(self@.edges, a, b),
            decreases n - i,
        {
            let np = self.nodes[i].in_ports();
            let mut p: usize = 0;
            while p < np
                invariant
                    self@.wf(),
                    i < self@.nodes.len(),
                    np == self@.nodes[i as int].behavior.in_ports(),
                    p <= np,
                    forall|b: int|
                        0 <= b < p ==> #[trigger] input_connected(self@.edges, i as int, b),
                decreases np - p,
            {
                if !has_input_edge(&self.edges, i, p) {
                    proof {
                        assert(!input_connected(self@.edges, i as int, p as int));
                        assert(!all_inputs_connected(self@));
                    }
                    return false;
                }
                p = p + 1;
            }
            i = i + 1;
        }
        true
    }

    /// Whether every output port has exactly its declared multiplex count
    /// of bound edges, executably.
    fn mux_matches_exec(&self) -> (r: bool)
        requires
            self@.wf(),
        ensures
            r == mux_ok(self@),
    {
        let n = self.nodes.len();
        let mut i: usize = 0;
        while i < n
            invariant
                self@.wf(),
                n == self@.nodes.len(),
                i <= n,
                forall|a: int, b: int|
                    0 <= a < i && 0 <= b < (#[trigger] self@.nodes[a]).fanout.len()
                        ==> #[trigger] bound_count(self@.edges, a, b) == self@.nodes[a].fanout[b],
            decreases n - i,
        {
            let np = self.nodes[i].out_ports();
            proof {
                assert(self@.nodes[i as int].fanout.len() == np);
            }
            let mut p: usize = 0;
            while p < np
                invariant
                    self@.wf(),
                    i < self@.nodes.len(),
                    np == self@.nodes[i as int].fanout.len(),
                    p <= np,
                    forall|b: int|
                        0 <= b < p ==> #[trigger] bound_count(self@.edges, i as int, b)
                            == self@.nodes[i as int].fanout[b],
                decreases np - p,
            {
                let count = count_output_edges(&self.edges, i, p);
                if count != self.nodes[i].multiplex(p) {
                    proof {
                        assert(bound_count(self@.edges, i as int, p as int) != self@.nodes[
                            i as int
                        ].fanout[p as int]);
                        assert(!mux_ok(self@));
                    }
                    return false;
                }
                p = p + 1;
            }
            i = i + 1;
        }
        true
    }

    /// Appends one `UnconnectedInput` error for every unconnected input
    /// port.
    fn collect_unconnected(&self, errs: &mut Vec<ValidationError>)
        requires
            self@.wf(),
        ensures
            final(errs)@.len() >= old(errs)@.len(),
            forall|k: int|
                0 <= k < final(errs)@.len() ==> (0 <= k < old(errs)@.len() && final(errs)@[k]
                    == old(errs)@[k]) || error_holds(self@, #[trigger] final(errs)@[k]),
            !all_inputs_connected(self@) ==> final(errs)@.len() > old(errs)@.len(),
    {
        let n = self.nodes.len();
        let ghost base = errs@;
        let mut i: usize = 0;
        while i < n
            invariant
                self@.wf(),
                n == self@.nodes.len(),
                i <= n,
                errs@.len() >= base.len(),
                forall|k: int| 0 <= k < base.len() ==> #[trigger] errs@[k] == base[k],
                forall|k: int|
                    base.len() <= k < errs@.len() ==> error_holds(self@, #[trigger] errs@[k]),
                errs@.len() == base.len() ==> forall|a: int, b: int|
                    0 <= a < i && 0 <= b < (#[trigger] self@.nodes[a]).behavior.in_ports()
                        ==> #[trigger] input_connected(self@.edges, a, b),
            decreases n - i,
        {
            let np = self.nodes[i].in_ports();
            let mut p: usize = 0;
            while p < np
                invariant
                    self@.wf(),
                    i < self@.nodes.len(),
                    np == self@.nodes[i as int].behavior.in_ports(),
                    p <= np,
                    errs@.len() >= base.len(),
                    forall|k: int| 0 <= k < base.len() ==> #[trigger] errs@[k] == base[k],
                    forall|k: int|
                        base.len() <= k < errs@.len() ==> error_holds(self@, #[trigger] errs@[k]),
                    errs@.len() == base.len() ==> (forall|a: int, b: int|
                        0 <= a < i && 0 <= b < (#[trigger] self@.nodes[a]).behavior.in_ports()
                            ==> #[trigger] input_connected(self@.edges, a, b)) && (forall|b: int|
                        0 <= b < p ==> #[trigger] input_connected(self@.edges, i as int, b)),
                decreases np - p,
            {
                if !has_input_edge(&self.edges, i, p) {
                    errs.push(ValidationError::UnconnectedInput { node: i, port: p });
                }
                p = p + 1;
            }
            i = i + 1;
        }
    }

    /// Appends one `InvalidMultiplex` error for every output port whose
    /// bound edge count differs from its declared multiplex count.
    fn collect_mux(&self, errs: &mut Vec<ValidationError>)
        requires
            self@.wf(),
        ensures
            final(errs)@.len() >= old(errs)@.len(),
            forall|k: int|
                0 <= k < final(errs)@.len() ==> (0 <= k < old(errs)@.len() && final(errs)@[k]
                    == old(errs)@[k]) || error_holds(self@, #[trigger] final(errs)@[k]),
            !mux_ok(self@) ==> final(errs)@.len() > old(errs)@.len(),
    {
        let n = self.nodes.len();
        let ghost base = errs@;
        let mut i: usize = 0;
        while i < n
            invariant
                self@.wf(),
                n == self@.nodes.len(),
                i <= n,
                errs@.len() >= base.len(),
                forall|k: int| 0 <= k < base.len() ==> #[trigger] errs@[k] == base[k],
                forall|k: int|
                    base.len() <= k < errs@.len() ==> error_holds(self@, #[trigger] errs@[k]),
                errs@.len() == base.len() ==> forall|a: int, b: int|
                    0 <= a < i && 0 <= b < (#[trigger] self@.nodes[a]).fanout.len()
                        ==> #[trigger] bound_count(self@.edges, a, b) == self@.nodes[a].fanout[b],
            decreases n - i,
        {
            let np = self.nodes[i].out_ports();
            proof {
                assert(self@.nodes[i as int].fanout.len() == np);
            }
            let mut p: usize = 0;
            while p < np
                invariant
                    self@.wf(),
                    i < self@.nodes.len(),
                    np == self@.nodes[i as int].fanout.len(),
                    p <= np,
                    errs@.len() >= base.len(),
                    forall|k: int| 0 <= k < base.len() ==> #[trigger] errs@[k] == base[k],
                    forall|k: int|
                        base.len() <= k < errs@.len() ==> error_holds(self@, #[trigger] errs@[k]),
                    errs@.len() == base.len() ==> (forall|a: int, b: int|
                        0 <= a < i && 0 <= b < (#[trigger] self@.nodes[a]).fanout.len()
                            ==> #[trigger] bound_count(self@.edges, a, b)
                            == self@.nodes[a].fanout[b]) && (forall|b: int|
                        0 <= b < p ==> #[trigger] bound_count(self@.edges, i as int, b)
                            == self@.nodes[i as int].fanout[b]),
                decreases np - p,
            {
                let count = count_output_edges(&self.edges, i, p);
                let declared = self.nodes[i].multiplex(p);
                if count != declared {
                    errs.push(
                        ValidationError::InvalidMultiplex { node: i, port: p, declared, bound: count },
                    );
                }
                p = p + 1;
            }
            i = i + 1;
        }
    }

    /// Validates the graph and makes it runnable: every declared input
    /// port must be connected, every multiplex count matched, and the
    /// same-tick projection acyclic.  On success the execution order is
    /// fixed and every bootstrap edge is pre-seeded with a zero-valued
    /// payload of its tag's length, so downstream nodes have data on the
    /// first tick.  On failure the list of defects is returned and the
    /// graph stays unusable.
    pub fn build(&mut self) -> (r: Result<(), Vec<ValidationError>>)
        requires
            old(self)@.wf(),
            !old(self)@.built,
        ensures
            final(self)@.wf(),
            r is Ok <==> validated(old(self)@),
            r is Ok ==> final(self)@ == (GraphV {
                nodes: old(self)@.nodes,
                edges: seeded_edges(old(self)@.edges),
                order: spec_kahn(old(self)@.nodes.len(), old(self)@.edges).0,
                built: true,
            }),
            r is Err ==> final(self)@ == old(self)@ && r->Err_0@.len() > 0 && (forall|k: int|
                0 <= k < r->Err_0@.len() ==> error_holds(old(self)@, #[trigger] r->Err_0@[k])),
    {
        proof {
            assert forall|e: int|
                0 <= e < self@.edges.len() implies (#[trigger] edges_v(self.edges@)[e]).src
                < self.nodes@.len() by {
                assert(edge_wf(self@.edges[e], self@.nodes));
            }
        }
        let n = self.nodes.len();
        let ok_inputs = self.inputs_connected_exec();
        let ok_mux = self.mux_matches_exec();
        let order_res = topo_order(n, &self.edges);
        if ok_inputs && ok_mux {
            match order_res {
                Ok(order) => {
                    let ghost orig = self@;
                    let m = self.edges.len();
                    let mut e: usize = 0;
                    while e < m
                        invariant
                            orig == old(self)@,
                            orig.wf(),
                            m == self@.edges.len(),
                            m == orig.edges.len(),
                            e <= m,
                            self@.nodes == orig.nodes,
                            self@.order == orig.order,
                            self@.built == orig.built,
                            forall|q: int|
                                0 <= q < e ==> #[trigger] self@.edges[q] == seeded_edges(
                                    orig.edges,
                                )[q],
                            forall|q: int|
                                e <= q < m ==> #[trigger] self@.edges[q] == orig.edges[q],
                        decreases m - e,
                    {
                        let ghost prev = self@.edges;
                        if self.edges[e].bootstrap {
                            let tag = self.edges[e].tag;
                            let mut q: Vec<Payload> = Vec::new();
                            q.push(Payload::zero(tag));
                            let new_edge = Edge {
                                src: self.edges[e].src,
                                src_port: self.edges[e].src_port,
                                dst: self.edges[e].dst,
                                dst_port: self.edges[e].dst_port,
                                discipline: self.edges[e].discipline,
                                bootstrap: true,
                                tag,
                                queue: q,
                                dropped: self.edges[e].dropped,
                            };
                            let ghost nev = new_edge@;
                            self.edges.set(e, new_edge);
                            proof {
                                assert(nev.queue =~= seq![PayloadV::zero(tag)]);
                                assert(self@.edges =~= prev.update(e as int, nev));
                                assert(prev[e as int] == orig.edges[e as int]);
                                assert(nev =~= (EdgeV {
                                    queue: seq![PayloadV::zero(orig.edges[e as int].tag)],
                                    ..orig.edges[e as int]
                                }));
                                assert(self@.edges[e as int] == seeded_edges(orig.edges)[e as int]);
                            }
                        } else {
                            proof {
                                assert(self@.edges[e as int] == seeded_edges(orig.edges)[e as int]);
                            }
                        }
                        e = e + 1;
                    }
                    self.order = order;
                    self.built = true;
                    proof {
                        assert(self@.edges =~= seeded_edges(orig.edges));
                        assert(self@ =~= (GraphV {
                            nodes: orig.nodes,
                            edges: seeded_edges(orig.edges),
                            order: spec_kahn(orig.nodes.len(), orig.edges).0,
                            built: true,
                        }));
                        assert forall|q: int|
                            0 <= q < self@.edges.len() implies edge_wf(
                            #[trigger] self@.edges[q],
                            self@.nodes,
                        ) by {
                            assert(edge_wf(orig.edges[q], orig.nodes));
                        }
                    }
                    Ok(())
                },
                Err(_) => {
                    let mut errs: Vec<ValidationError> = Vec::new();
                    errs.push(ValidationError::Cycle);
                    Err(errs)
                },
            }
        } else {
            let mut errs: Vec<ValidationError> = Vec::new();
            if !ok_inputs {
                self.collect_unconnected(&mut errs);
            }
            if !ok_mux {
                self.collect_mux(&mut errs);
            }
            if order_res.is_err() {
                errs.push(ValidationError::Cycle);
            }
            Err(errs)
        }
    }

    /// The gather phase of one node's activation: moves the oldest payload
    /// of every edge feeding the node into its transform, and reports
    /// whether anything arrived.
    fn gather_node(&mut self, i: usize) -> (r: bool)
        requires
            old(self)@.wf(),
            i < old(self)@.nodes.len(),
        ensures
            final(self)@.wf(),
            final(self)@.nodes.len() == old(self)@.nodes.len(),
            final(self)@.edges.len() == old(self)@.edges.len(),
            ({
                let (ns, es, a) = gather_upto(
                    old(self)@.nodes,
                    old(self)@.edges,
                    i as int,
                    old(self)@.edges.len() as int,
                );
                &&& final(self)@ == (GraphV { nodes: ns, edges: es, ..old(self)@ })
                &&& r == a
            }),
    {
        let ghost orig = self@;
        let m = self.edges.len();
        let mut arrived = false;
        let mut e: usize = 0;
        while e < m
            invariant
                orig == old(self)@,
                orig.wf(),
                i < orig.nodes.len(),
                m == orig.edges.len(),
                m == self@.edges.len(),
                e <= m,
                self@.nodes.len() == orig.nodes.len(),
                self@.order == orig.order,
                self@.built == orig.built,
                self@.wf(),
                ({
                    let (ns, es, a) = gather_upto(orig.nodes, orig.edges, i as int, e as int);
                    &&& self@.nodes == ns
                    &&& self@.edges == es
                    &&& arrived == a
                }),
            decreases m - e,
        {
            let ghost prev = self@;
            proof {
                assert(self@.edges[e as int] == self.edges@[e as int]@);
                assert(edge_wf(self@.edges[e as int], self@.nodes));
            }
            if self.edges[e].dst == i && self.edges[e].queue.len() > 0 {
                let dst_port = self.edges[e].dst_port;
                let ghost edv = self@.edges[e as int];
                let ed = elem_at(&mut self.edges, e);
                let ghost qbefore = ed.queue@;
                let p = ed.queue.remove(0);
                let ghost edv2 = EdgeV { queue: edv.queue.drop_first(), ..edv };
                proof {
                    assert(payloads_v(ed.queue@) =~= edv.queue.drop_first());
                }
                proof {
                    assert(edges_v(self.edges@) =~= prev.edges.update(e as int, edv2));
                    assert(p@ == edv.queue[0]);
                    assert(p@.wf() && p@.tag == edv.tag);
                    assert(self@.nodes[i as int] == prev.nodes[i as int]);
                    lemma_read_static(prev.nodes[i as int].behavior, dst_port as int, p@);
                }
                let nd = elem_at(&mut self.nodes, i);
                nd.absorb(dst_port, p);
                proof {
                    assert(nodes_v(self.nodes@) =~= prev.nodes.update(
                        i as int,
                        NodeV {
                            behavior: prev.nodes[i as int].behavior.read_spec(
                                dst_port as int,
                                edv.queue[0],
                            ),
                            ..prev.nodes[i as int]
                        },
                    ));
                }
                arrived = true;
                proof {
                    let (ns, es, a) = gather_upto(orig.nodes, orig.edges, i as int, e as int);
                    let (ns2, es2, a2) = gather_edge(ns, es, i as int, e as int);
                    assert(self@.nodes =~= ns2);
                    assert(self@.edges =~= es2);
                    assert forall|q: int|
                        0 <= q < self@.edges.len() implies edge_wf(
                        #[trigger] self@.edges[q],
                        self@.nodes,
                    ) by {
                        assert(edge_wf(prev.edges[q], prev.nodes));
                    }
                }
            } else {
                proof {
                    let (ns, es, a) = gather_upto(orig.nodes, orig.edges, i as int, e as int);
                    let (ns2, es2, a2) = gather_edge(ns, es, i as int, e as int);
                    assert(self@.nodes =~= ns2);
                    assert(self@.edges =~= es2);
                }
            }
            e = e + 1;
        }
        arrived
    }

    /// One full activation of node `i` within a tick: gather, step, and
    /// deliver the emissions to every bound edge.
    fn tick_node(&mut self, i: usize) -> (r: Result<(), TransformError>)
        requires
            old(self)@.wf(),
            i < old(self)@.nodes.len(),
        ensures
            final(self)@.wf(),
            final(self)@.order == old(self)@.order,
            final(self)@.built == old(self)@.built,
            ({
                let (ns, es, err) = spec_node_tick(old(self)@.nodes, old(self)@.edges, i as int);
                &&& final(self)@.nodes == ns
                &&& final(self)@.edges == es
                &&& (match err {
                    Option::None => r is Ok,
                    Option::Some(te) => r == Err::<(), TransformError>(te),
                })
            }),
    {
        let arrived = self.gather_node(i);
        proof {
            assert(self@.nodes[i as int] == self.nodes@[i as int]@);
        }
        let satisfied = self.nodes[i].in_ports() == 0 || (arrived
            && self.nodes[i].behavior().is_ready());
        let ghost mid = self@;
        proof {
            let (ns, es, a) = gather_upto(
                old(self)@.nodes,
                old(self)@.edges,
                i as int,
                old(self)@.edges.len() as int,
            );
            assert(mid.nodes == ns && mid.edges == es && arrived == a);
            assert(mid.nodes.len() == old(self)@.nodes.len());
            assert(mid.edges.len() == old(self)@.edges.len());
            assert(satisfied == (ns[i as int].behavior.in_ports() == 0 || (a && ns[
                i as int
            ].behavior.ready())));
        }
        let nd = elem_at(&mut self.nodes, i);
        let step_res = nd.step(satisfied);
        match step_res {
            Err(te) => {
                proof {
                    assert(nodes_v(self.nodes@) =~= mid.nodes);
                    assert(self@ =~= mid);
                }
                Err(te)
            },
            Ok(outs) => {
                let ghost ndv = mid.nodes[i as int];
                proof {
                    lemma_step_static(ndv, satisfied);
                    assert(nodes_v(self.nodes@) =~= mid.nodes.update(
                        i as int,
                        ndv.step_state(satisfied),
                    ));
                    assert forall|q: int|
                        0 <= q < self@.edges.len() implies edge_wf(
                        #[trigger] self@.edges[q],
                        self@.nodes,
                    ) by {
                        assert(edge_wf(mid.edges[q], mid.nodes));
                    }
                }
                let ghost emitv = ndv.step_emit(satisfied);
                let ghost es0 = self@.edges;
                let m = self.edges.len();
                let nports = outs.len();
                let mut port: usize = 0;
                while port < nports
                    invariant
                        mid.wf(),
                        i < mid.nodes.len(),
                        mid.order == old(self)@.order,
                        mid.built == old(self)@.built,
                        es0 == mid.edges,
                        i < old(self)@.nodes.len(),
                        ({
                            let (ns, es, a) = gather_upto(
                                old(self)@.nodes,
                                old(self)@.edges,
                                i as int,
                                old(self)@.edges.len() as int,
                            );
                            mid.nodes == ns && mid.edges == es && arrived == a
                        }),
                        satisfied == (mid.nodes[i as int].behavior.in_ports() == 0 || (arrived
                            && mid.nodes[i as int].behavior.ready())),
                        emitv == ndv.step_emit(satisfied),
                        ndv == mid.nodes[i as int],
                        ndv.wf(),
                        ndv.step_ok(satisfied),
                        opts_v(outs@) == emitv,
                        nports == emitv.len(),
                        emitv.len() == ndv.behavior.out_ports(),
                        forall|p: int|
                            0 <= p < emitv.len() ==> opt_wf(
                                #[trigger] emitv[p],
                                ndv.behavior.out_tag(p),
                            ),
                        port <= nports,
                        m == self@.edges.len(),
                        m == es0.len(),
                        self@.nodes == mid.nodes.update(i as int, ndv.step_state(satisfied)),
                        self@.order == mid.order,
                        self@.built == mid.built,
                        self@.wf(),
                        ({
                            let (es, ok) = push_outs_upto(es0, i as int, emitv, port as int);
                            self@.edges == es && ok
                        }),
                    decreases nports - port,
                {
                    let ghost es_port = self@.edges;
                    match &outs[port] {
                        Option::None => {
                            proof {
                                assert(opt_v(outs@[port as int]) is None);
                                assert(emitv[port as int] is None);
                            }
                        },
                        Option::Some(p) => {
                            proof {
                                assert(opt_v(outs@[port as int]) == Option::Some(p@));
                                assert(emitv[port as int] == Option::Some(p@));
                                assert(p@.wf() && p@.tag == ndv.behavior.out_tag(port as int));
                            }
                            let mut e: usize = 0;
                            while e < m
                                invariant
                                    mid.wf(),
                                    i < mid.nodes.len(),
                                    mid.order == old(self)@.order,
                                    mid.built == old(self)@.built,
                                    es0 == mid.edges,
                                    i < old(self)@.nodes.len(),
                                    ({
                                        let (ns, es, a) = gather_upto(
                                            old(self)@.nodes,
                                            old(self)@.edges,
                                            i as int,
                                            old(self)@.edges.len() as int,
                                        );
                                        mid.nodes == ns && mid.edges == es && arrived == a
                                    }),
                                    satisfied == (mid.nodes[i as int].behavior.in_ports() == 0 || (arrived
                                        && mid.nodes[i as int].behavior.ready())),
                                    nports == emitv.len(),
                                    emitv == ndv.step_emit(satisfied),
                                    port < emitv.len(),
                                    es0.len() == m,
                                    emitv == ndv.step_emit(satisfied),
                                    ndv.step_ok(satisfied),
                                    ({
                                        let (es, ok) = push_outs_upto(
                                            es0,
                                            i as int,
                                            emitv,
                                            port as int,
                                        );
                                        es == es_port && ok
                                    }),
                                    emitv[port as int] == Option::Some(p@),
                                    p@.wf(),
                                    p@.tag == ndv.behavior.out_tag(port as int),
                                    ndv == mid.nodes[i as int],
                                    e <= m,
                                    m == self@.edges.len(),
                                    m == es_port.len(),
                                    self@.nodes == mid.nodes.update(
                                        i as int,
                                        ndv.step_state(satisfied),
                                    ),
                                    self@.order == mid.order,
                                    self@.built == mid.built,
                                    self@.wf(),
                                    ({
                                        let (es, ok) = push_port_upto(
                                            es_port,
                                            i as int,
                                            port as int,
                                            p@,
                                            e as int,
                                        );
                                        self@.edges == es && ok
                                    }),
                                decreases m - e,
                            {
                                let ghost prev = self@;
                                proof {
                                    assert(self@.edges[e as int] == self.edges@[e as int]@);
                                    assert(edge_wf(self@.edges[e as int], self@.nodes));
                                }
                                if self.edges[e].src == i && self.edges[e].src_port == port {
                                    let ghost edv = self@.edges[e as int];
                                    let disc = self.edges[e].discipline;
                                    let qempty = self.edges[e].queue.len() == 0;
                                    if disc == Discipline::Bounded && !qempty {
                                        proof {
                                            let (es1, ok1) = push_port_upto(
                                                es_port,
                                                i as int,
                                                port as int,
                                                p@,
                                                e as int,
                                            );
                                            let (es2, ok2) = push_port_upto(
                                                es_port,
                                                i as int,
                                                port as int,
                                                p@,
                                                e + 1,
                                            );
                                            assert(es2 == es1 && !ok2);
                                            lemma_push_port_stuck(
                                                es_port,
                                                i as int,
                                                port as int,
                                                p@,
                                                e + 1,
                                                m as int,
                                            );
                                            lemma_push_outs_stuck(
                                                es0,
                                                i as int,
                                                emitv,
                                                port + 1,
                                                emitv.len() as int,
                                            );
                                        }
                                        return Err(TransformError::WouldBlock);
                                    }
                                    let dup = p.duplicate();
                                    let ed = elem_at(&mut self.edges, e);
                                    if disc == Discipline::Unbounded {
                                        ed.queue.push(dup);
                                        proof {
                                            assert(payloads_v(ed.queue@) =~= edv.queue.push(p@));
                                        }
                                    } else if qempty {
                                        ed.queue.push(dup);
                                        proof {
                                            assert(payloads_v(ed.queue@) =~= seq![p@]);
                                        }
                                    } else {
                                        ed.queue.clear();
                                        ed.queue.push(dup);
                                        if ed.dropped < usize::MAX {
                                            ed.dropped = ed.dropped + 1;
                                        }
                                        proof {
                                            assert(payloads_v(ed.queue@) =~= seq![p@]);
                                        }
                                    }
                                }
                                proof {
                                    let (es1, ok1) = push_port_upto(
                                        es_port,
                                        i as int,
                                        port as int,
                                        p@,
                                        e as int,
                                    );
                                    let (es2, ok2) = push_port_upto(
                                        es_port,
                                        i as int,
                                        port as int,
                                        p@,
                                        e + 1,
                                    );
                                    assert(edges_v(self.edges@) =~= es2);
                                    assert forall|q: int|
                                        0 <= q < self@.edges.len() implies edge_wf(
                                        #[trigger] self@.edges[q],
                                        self@.nodes,
                                    ) by {
                                        assert(edge_wf(prev.edges[q], prev.nodes));
                                    }
                                }
                                e = e + 1;
                            }
                        },
                    }
                    proof {
                        let (esa, oka) = push_outs_upto(es0, i as int, emitv, port as int);
                        let (esb, okb) = push_outs_upto(es0, i as int, emitv, port + 1);
                        assert(self@.edges =~= esb);
                    }
                    port = port + 1;
                }
                Ok(())
            },
        }
    }

    /// One global tick: activates every node once, in the execution
    /// order.
    fn tick_once(&mut self, tick: usize) -> (r: Result<(), RunFailure>)
        requires
            old(self)@.wf(),
            old(self)@.built,
        ensures
            final(self)@.wf(),
            final(self)@.order == old(self)@.order,
            final(self)@.built == old(self)@.built,
            ({
                let st = spec_tick_upto(
                    old(self)@.nodes,
                    old(self)@.edges,
                    old(self)@.order,
                    old(self)@.order.len() as int,
                    tick,
                );
                &&& final(self)@.nodes == st.nodes
                &&& final(self)@.edges == st.edges
                &&& (match st.failure {
                    Option::None => r is Ok,
                    Option::Some(f) => r == Err::<(), RunFailure>(f),
                })
            }),
    {
        let ghost orig = self@;
        let n = self.order.len();
        let mut k: usize = 0;
        while k < n
            invariant
                orig == old(self)@,
                orig.wf(),
                orig.built,
                n == orig.order.len(),
                n == self.order@.len(),
                k <= n,
                self@.order == orig.order,
                self@.built == orig.built,
                self@.wf(),
                self@.nodes.len() == orig.nodes.len(),
                ({
                    let st = spec_tick_upto(orig.nodes, orig.edges, orig.order, k as int, tick);
                    &&& st.failure is None
                    &&& self@.nodes == st.nodes
                    &&& self@.edges == st.edges
                }),
            decreases n - k,
        {
            let i = self.order[k];
            proof {
                assert(orig.order[k as int] < orig.nodes.len());
            }
            match self.tick_node(i) {
                Ok(()) => {},
                Err(te) => {
                    proof {
                        let st1 = spec_tick_upto(
                            orig.nodes,
                            orig.edges,
                            orig.order,
                            k + 1,
                            tick,
                        );
                        assert(st1.failure == Option::Some(
                            RunFailure { node: i, tick, error: te },
                        ));
                        lemma_tick_stuck(orig.nodes, orig.edges, orig.order, k + 1, n as int, tick);
                    }
                    return Err(RunFailure { node: i, tick, error: te });
                },
            }
            k = k + 1;
        }
        Ok(())
    }

    /// Drives the graph forward `n_ticks` discrete ticks, activating every
    /// node once per tick in the fixed execution order.  Stops immediately
    /// on the first fatal transform error, reporting the failing node and
    /// the tick index; the state reached so far, including everything the
    /// loggers have recorded, stays inspectable.  The whole run is a
    /// function of the starting state alone.
    pub fn run(&mut self, n_ticks: usize) -> (r: Result<(), RunFailure>)
        requires
            old(self)@.wf(),
            old(self)@.built,
        ensures
            final(self)@.wf(),
            final(self)@.order == old(self)@.order,
            final(self)@.built == old(self)@.built,
            ({
                let st = spec_run(old(self)@.nodes, old(self)@.edges, old(self)@.order, n_ticks);
                &&& final(self)@.nodes == st.nodes
                &&& final(self)@.edges == st.edges
                &&& (match st.failure {
                    Option::None => r is Ok,
                    Option::Some(f) => r == Err::<(), RunFailure>(f),
                })
            }),
    {
        let ghost orig = self@;
        let mut t: usize = 0;
        while t < n_ticks
            invariant
                orig == old(self)@,
                orig.wf(),
                orig.built,
                t <= n_ticks,
                self@.order == orig.order,
                self@.built == orig.built,
                self@.wf(),
                ({
                    let st = spec_run(orig.nodes, orig.edges, orig.order, t);
                    &&& st.failure is None
                    &&& self@.nodes == st.nodes
                    &&& self@.edges == st.edges
                }),
            decreases n_ticks - t,
        {
            match self.tick_once(t) {
                Ok(()) => {},
                Err(f) => {
                    proof {
                        let st1 = spec_run(orig.nodes, orig.edges, orig.order, (t + 1) as usize);
                        assert(st1.failure == Option::Some(f));
                        lemma_run_stuck(orig.nodes, orig.edges, orig.order, (t + 1) as usize, n_ticks);
                    }
                    return Err(f);
                },
            }
            t = t + 1;
        }
        Ok(())
    }
}

/// A zero-tick run of any graph state succeeds and produces no payloads:
/// nodes, edges and every logger record are left exactly as they were.
/// Together with `build`'s contract, a freshly built valid graph run for
/// zero ticks is a no-op.
pub proof fn lemma_run_zero_ticks(nodes: Seq<NodeV>, edges: Seq<EdgeV>, order: Seq<usize>)
    ensures
        spec_run(nodes, edges, order, 0) == (TickState {
            nodes,
            edges,
            failure: Option::<RunFailure>::None,
        }),
{
}

/// Determinism: a whole run is a function of the starting node states,
/// edge contents and execution order alone, so running the same graph
/// configuration and input sequence twice yields identical payload
/// sequences on every edge and identical logger records.  Since `run`'s
/// contract pins its final state to `spec_run` of its starting state,
/// two executions from equal states cannot diverge.
pub proof fn lemma_run_deterministic(
    nodes1: Seq<NodeV>,
    edges1: Seq<EdgeV>,
    order1: Seq<usize>,
    nodes2: Seq<NodeV>,
    edges2: Seq<EdgeV>,
    order2: Seq<usize>,
    n_ticks: usize,
)
    requires
        nodes1 == nodes2,
        edges1 == edges2,
        order1 == order2,
    ensures
        spec_run(nodes1, edges1, order1, n_ticks) == spec_run(nodes2, edges2, order2, n_ticks),
{
}

/// Bootstrap pre-seeding delivers a deterministic zero-valued payload of
/// the correct tag length: after `build`, every bootstrap edge's queue
/// holds exactly one payload, all of whose samples are zero, before any
/// other data arrives on that edge.
pub proof fn lemma_bootstrap_seed(edges: Seq<EdgeV>, e: int)
    requires
        0 <= e < edges.len(),
        edges[e].bootstrap,
    ensures
        seeded_edges(edges)[e].queue =~= seq![PayloadV::zero(edges[e].tag)],
        seeded_edges(edges)[e].queue.len() == 1,
        seeded_edges(edges)[e].queue[0].tag == edges[e].tag,
        seeded_edges(edges)[e].queue[0].values.len() == edges[e].tag.len,
        forall|k: int|
            0 <= k < edges[e].tag.len ==> #[trigger] seeded_edges(edges)[e].queue[0].values[k]
                == 0i64,
{
}

/// A non-bootstrap edge is left untouched by pre-seeding.
pub proof fn lemma_seed_keeps_plain_edges(edges: Seq<EdgeV>, e: int)
    requires
        0 <= e < edges.len(),
        !edges[e].bootstrap,
    ensures
        seeded_edges(edges)[e] == edges[e],
{
}

/// Once a port's delivery has failed at some edge, the remaining edges
/// change nothing.
proof fn lemma_push_port_stuck(edges: Seq<EdgeV>, i: int, port: int, p: PayloadV, e: int, m: int)
    requires
        0 <= e <= m,
        !push_port_upto(edges, i, port, p, e).1,
    ensures
        push_port_upto(edges, i, port, p, m) == push_port_upto(edges, i, port, p, e),
    decreases m - e,
{
    if e < m {
        lemma_push_port_stuck(edges, i, port, p, e + 1, m);
    }
}

/// Once a node's delivery has failed at some port, the remaining ports
/// change nothing.
proof fn lemma_push_outs_stuck(
    edges: Seq<EdgeV>,
    i: int,
    outs: Seq<Option<PayloadV>>,
    port: int,
    m: int,
)
    requires
        0 <= port <= m,
        !push_outs_upto(edges, i, outs, port).1,
    ensures
        push_outs_upto(edges, i, outs, m) == push_outs_upto(edges, i, outs, port),
    decreases m - port,
{
    if port < m {
        lemma_push_outs_stuck(edges, i, outs, port + 1, m);
    }
}

} // verus!
