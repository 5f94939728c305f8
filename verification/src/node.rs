//! Nodes: scheduled units wrapping a stateful transform, with an
//! input/output rate ratio relative to the global tick.
//!
//! A node gathers payloads from its input ports every tick; a gather that
//! fills every input port counts toward the node's consume rate, and when
//! the declared number of satisfied gathers is reached the transform runs
//! exactly once against the latest accumulated inputs (later arrivals
//! overwrite earlier ones within the gathering window) and produces at most
//! one payload per output port.  A node with ratio (1,R) re-emits its held
//! outputs every tick (zero-order hold).

use vstd::prelude::*;

use crate::errors::TransformError;
use crate::payload::add_in_range;
use crate::payload::add_seq;
use crate::payload::scale_in_range;
use crate::payload::scale_seq;
use crate::payload::Payload;
use crate::payload::PayloadV;
use crate::payload::Tag;

verus! {

/// The view of an optional payload.
pub open spec fn opt_v(o: Option<Payload>) -> Option<PayloadV> {
    match o {
        Option::Some(p) => Option::Some(p@),
        Option::None => Option::None,
    }
}

/// The views of a sequence of payloads, element for element.
pub open spec fn payloads_v(s: Seq<Payload>) -> Seq<PayloadV> {
    Seq::new(s.len(), |i: int| s[i]@)
}

/// The views of a sequence of optional payloads, element for element.
pub open spec fn opts_v(s: Seq<Option<Payload>>) -> Seq<Option<PayloadV>> {
    Seq::new(s.len(), |i: int| opt_v(s[i]))
}

/// The views of per-port record lists, element for element.
pub open spec fn records_v(s: Seq<Vec<Payload>>) -> Seq<Seq<PayloadV>> {
    Seq::new(s.len(), |i: int| payloads_v(s[i]@))
}

/// An optional payload is absent or well formed with the given tag.
pub open spec fn opt_wf(o: Option<PayloadV>, tag: Tag) -> bool {
    match o {
        Option::Some(p) => p.wf() && p.tag == tag,
        Option::None => true,
    }
}

/// The mathematical value of a transform.
#[verifier::ext_equal]
pub enum BehaviorV {
    /// Emits a pre-recorded frame per activation, in order.
    Source { frames: Seq<Option<PayloadV>>, next: usize, tag: Tag },
    /// Holds and re-emits the latest input (zero-order hold / opaque
    /// pass-through stand-in).
    Relay { slot: Option<PayloadV>, tag: Tag },
    /// Scales a signal input elementwise by a one-element weight input.
    Smooth {
        weight: Option<PayloadV>,
        signal: Option<PayloadV>,
        weight_tag: Tag,
        signal_tag: Tag,
    },
    /// Merges two inputs into their elementwise sum.
    Adder { left: Option<PayloadV>, right: Option<PayloadV>, tag: Tag },
    /// Sums every payload gathered since the last emission (down-sampling
    /// reducer).
    Accumulator { window: Seq<PayloadV>, tag: Tag },
    /// Terminal consumer storing every `decimation`-th payload per port.
    Logger {
        tags: Seq<Tag>,
        records: Seq<Seq<PayloadV>>,
        decimation: usize,
        seen: Seq<usize>,
    },
    /// A many-input, many-output rebranding bus: output port `j` re-emits
    /// the latest input of port `map[j]` under its own tag (the opaque
    /// plant stand-in).
    Router {
        in_tags: Seq<Tag>,
        out_tags: Seq<Tag>,
        map: Seq<usize>,
        slots: Seq<Option<PayloadV>>,
    },
}

impl BehaviorV {
    /// How many input ports the transform declares.
    pub open spec fn in_ports(self) -> nat {
        match self {
            BehaviorV::Source { .. } => 0,
            BehaviorV::Relay { .. } => 1,
            BehaviorV::Smooth { .. } => 2,
            BehaviorV::Adder { .. } => 2,
            BehaviorV::Accumulator { .. } => 1,
            BehaviorV::Logger { tags, .. } => tags.len(),
            BehaviorV::Router { in_tags, .. } => in_tags.len(),
        }
    }

    /// How many output ports the transform declares.
    pub open spec fn out_ports(self) -> nat {
        match self {
            BehaviorV::Source { .. } => 1,
            BehaviorV::Relay { .. } => 1,
            BehaviorV::Smooth { .. } => 1,
            BehaviorV::Adder { .. } => 1,
            BehaviorV::Accumulator { .. } => 1,
            BehaviorV::Logger { .. } => 0,
            BehaviorV::Router { out_tags, .. } => out_tags.len(),
        }
    }

    /// The tag an input port expects.
    pub open spec fn in_tag(self, port: int) -> Tag {
        match self {
            BehaviorV::Source { tag, .. } => tag,
            BehaviorV::Relay { tag, .. } => tag,
            BehaviorV::Smooth { weight_tag, signal_tag, .. } => if port == 0 {
                weight_tag
            } else {
                signal_tag
            },
            BehaviorV::Adder { tag, .. } => tag,
            BehaviorV::Accumulator { tag, .. } => tag,
            BehaviorV::Logger { tags, .. } => tags[port],
            BehaviorV::Router { in_tags, .. } => in_tags[port],
        }
    }

    /// The tag an output port produces.
    pub open spec fn out_tag(self, port: int) -> Tag {
        match self {
            BehaviorV::Source { tag, .. } => tag,
            BehaviorV::Relay { tag, .. } => tag,
            BehaviorV::Smooth { signal_tag, .. } => signal_tag,
            BehaviorV::Adder { tag, .. } => tag,
            BehaviorV::Accumulator { tag, .. } => tag,
            BehaviorV::Logger { tags, .. } => tags[port],
            BehaviorV::Router { out_tags, .. } => out_tags[port],
        }
    }

    /// Structural well-formedness: held payloads match their declared tags,
    /// and the static tables are consistent.
    pub open spec fn wf(self) -> bool {
        match self {
            BehaviorV::Source { frames, next, tag } => forall|i: int|
                0 <= i < frames.len() ==> opt_wf(#[trigger] frames[i], tag),
            BehaviorV::Relay { slot, tag } => opt_wf(slot, tag),
            BehaviorV::Smooth { weight, signal, weight_tag, signal_tag } => {
                &&& weight_tag.len == 1
                &&& opt_wf(weight, weight_tag)
                &&& opt_wf(signal, signal_tag)
            },
            BehaviorV::Adder { left, right, tag } => opt_wf(left, tag) && opt_wf(right, tag),
            BehaviorV::Accumulator { window, tag } => forall|i: int|
                0 <= i < window.len() ==> (#[trigger] window[i]).wf() && window[i].tag == tag,
            BehaviorV::Logger { tags, records, decimation, seen } => {
                &&& decimation >= 1
                &&& records.len() == tags.len()
                &&& seen.len() == tags.len()
                &&& forall|p: int| 0 <= p < seen.len() ==> #[trigger] seen[p] < decimation
                &&& forall|p: int, k: int|
                    0 <= p < records.len() && 0 <= k < records[p].len() ==> opt_wf(
                        Option::Some(#[trigger] records[p][k]),
                        tags[p],
                    )
            },
            BehaviorV::Router { in_tags, out_tags, map, slots } => {
                &&& map.len() == out_tags.len()
                &&& slots.len() == in_tags.len()
                &&& forall|j: int|
                    0 <= j < map.len() ==> #[trigger] map[j] < in_tags.len() && out_tags[j].len
                        == in_tags[map[j] as int].len
                &&& forall|p: int|
                    0 <= p < slots.len() ==> opt_wf(#[trigger] slots[p], in_tags[p])
            },
        }
    }

    /// Whether the transform has everything it needs to produce output.
    pub open spec fn ready(self) -> bool {
        match self {
            BehaviorV::Source { .. } => true,
            BehaviorV::Relay { slot, .. } => slot is Some,
            BehaviorV::Smooth { weight, signal, .. } => weight is Some && signal is Some,
            BehaviorV::Adder { left, right, .. } => left is Some && right is Some,
            BehaviorV::Accumulator { window, .. } => window.len() > 0,
            BehaviorV::Logger { .. } => true,
            BehaviorV::Router { slots, .. } => forall|p: int|
                0 <= p < slots.len() ==> #[trigger] slots[p] is Some,
        }
    }

    /// The transform state after one payload arrives on one input port.
    /// Later arrivals overwrite earlier ones, except that the accumulator
    /// appends to its window and the logger appends every `decimation`-th
    /// arrival to its records.
    pub open spec fn read_spec(self, port: int, p: PayloadV) -> BehaviorV {
        match self {
            BehaviorV::Source { .. } => self,
            BehaviorV::Relay { slot, tag } => BehaviorV::Relay { slot: Option::Some(p), tag },
            BehaviorV::Smooth { weight, signal, weight_tag, signal_tag } => if port == 0 {
                BehaviorV::Smooth { weight: Option::Some(p), signal, weight_tag, signal_tag }
            } else {
                BehaviorV::Smooth { weight, signal: Option::Some(p), weight_tag, signal_tag }
            },
            BehaviorV::Adder { left, right, tag } => if port == 0 {
                BehaviorV::Adder { left: Option::Some(p), right, tag }
            } else {
                BehaviorV::Adder { left, right: Option::Some(p), tag }
            },
            BehaviorV::Accumulator { window, tag } => BehaviorV::Accumulator {
                window: window.push(p),
                tag,
            },
            BehaviorV::Logger { tags, records, decimation, seen } => BehaviorV::Logger {
                tags,
                records: if seen[port] == 0 {
                    records.update(port, records[port].push(p))
                } else {
                    records
                },
                decimation,
                seen: seen.update(
                    port,
                    (if seen[port] + 1 == decimation {
                        0
                    } else {
                        seen[port] + 1
                    }) as usize,
                ),
            },
            BehaviorV::Router { in_tags, out_tags, map, slots } => BehaviorV::Router {
                in_tags,
                out_tags,
                map,
                slots: slots.update(port, Option::Some(p)),
            },
        }
    }
}

/// The elementwise sum of a window of payloads (values only), folded in
/// arrival order.
pub open spec fn window_sum(vs: Seq<PayloadV>) -> Seq<i64>
    decreases vs.len(),
{
    if vs.len() == 0 {
        Seq::empty()
    } else if vs.len() == 1 {
        vs[0].values
    } else {
        add_seq(window_sum(vs.drop_last()), vs.last().values)
    }
}

/// Every partial sum of the window stays representable.
pub open spec fn window_sum_ok(vs: Seq<PayloadV>) -> bool
    decreases vs.len(),
{
    if vs.len() <= 1 {
        true
    } else {
        window_sum_ok(vs.drop_last()) && add_in_range(window_sum(vs.drop_last()), vs.last().values)
    }
}

impl BehaviorV {
    /// Whether the transform can run without leaving the representable
    /// range.  Transforms that do no arithmetic, and transforms that are
    /// not ready and therefore produce nothing, always can.
    pub open spec fn fire_ok(self) -> bool {
        match self {
            BehaviorV::Smooth { weight, signal, .. } => weight is Some && signal is Some
                ==> scale_in_range(signal->Some_0.values, weight->Some_0.values[0]),
            BehaviorV::Adder { left, right, .. } => left is Some && right is Some
                ==> add_in_range(left->Some_0.values, right->Some_0.values),
            BehaviorV::Accumulator { window, .. } => window_sum_ok(window),
            _ => true,
        }
    }

    /// The transform state after it runs once: a source moves to its next
    /// frame, an accumulator clears its window, everything else keeps its
    /// latest inputs.
    pub open spec fn fire_state(self) -> BehaviorV {
        match self {
            BehaviorV::Source { frames, next, tag } => BehaviorV::Source {
                frames,
                next: if next < frames.len() {
                    (next + 1) as usize
                } else {
                    next
                },
                tag,
            },
            BehaviorV::Accumulator { window, tag } => BehaviorV::Accumulator {
                window: Seq::empty(),
                tag,
            },
            _ => self,
        }
    }

    /// What the transform emits on each output port when it runs: at most
    /// one payload per port, none on ports it cannot feed yet.
    pub open spec fn fire_out(self) -> Seq<Option<PayloadV>> {
        match self {
            BehaviorV::Source { frames, next, tag } => Seq::new(
                1,
                |j: int|
                    if next < frames.len() {
                        frames[next as int]
                    } else {
                        Option::None
                    },
            ),
            BehaviorV::Relay { slot, tag } => Seq::new(1, |j: int| slot),
            BehaviorV::Smooth { weight, signal, weight_tag, signal_tag } => Seq::new(
                1,
                |j: int|
                    if weight is Some && signal is Some {
                        Option::Some(
                            PayloadV {
                                tag: signal_tag,
                                values: scale_seq(signal->Some_0.values, weight->Some_0.values[0]),
                            },
                        )
                    } else {
                        Option::None
                    },
            ),
            BehaviorV::Adder { left, right, tag } => Seq::new(
                1,
                |j: int|
                    if left is Some && right is Some {
                        Option::Some(
                            PayloadV {
                                tag,
                                values: add_seq(left->Some_0.values, right->Some_0.values),
                            },
                        )
                    } else {
                        Option::None
                    },
            ),
            BehaviorV::Accumulator { window, tag } => Seq::new(
                1,
                |j: int|
                    if window.len() > 0 {
                        Option::Some(PayloadV { tag, values: window_sum(window) })
                    } else {
                        Option::None
                    },
            ),
            BehaviorV::Logger { .. } => Seq::empty(),
            BehaviorV::Router { in_tags, out_tags, map, slots } => Seq::new(
                out_tags.len(),
                |j: int|
                    if self.ready() {
                        Option::Some(
                            PayloadV {
                                tag: out_tags[j],
                                values: slots[map[j] as int]->Some_0.values,
                            },
                        )
                    } else {
                        Option::None
                    },
            ),
        }
    }
}

/// A stateful transform, the working part of a node.
#[derive(Debug)]
pub enum Behavior {
    /// Emits a pre-recorded frame per activation, in order; `None` frames
    /// and exhausted sources emit nothing.
    Source { frames: Vec<Option<Payload>>, next: usize, tag: Tag },
    /// Holds and re-emits the latest input.
    Relay { slot: Option<Payload>, tag: Tag },
    /// Scales a signal input elementwise by a one-element weight input
    /// (port 0 is the weight, port 1 the signal).
    Smooth {
        weight: Option<Payload>,
        signal: Option<Payload>,
        weight_tag: Tag,
        signal_tag: Tag,
    },
    /// Merges two inputs into their elementwise sum; emits nothing until
    /// both ports have been fed at least once.
    Adder { left: Option<Payload>, right: Option<Payload>, tag: Tag },
    /// Sums every payload gathered since its last emission.
    Accumulator { window: Vec<Payload>, tag: Tag },
    /// Terminal consumer storing every `decimation`-th payload per port.
    Logger { tags: Vec<Tag>, records: Vec<Vec<Payload>>, decimation: usize, seen: Vec<usize> },
    /// A many-input, many-output rebranding bus standing in for an opaque
    /// plant transform: output `j` re-emits the latest input `map[j]`.
    Router {
        in_tags: Vec<Tag>,
        out_tags: Vec<Tag>,
        map: Vec<usize>,
        slots: Vec<Option<Payload>>,
    },
}

impl View for Behavior {
    type V = BehaviorV;

    closed spec fn view(&self) -> BehaviorV {
        match self {
            Behavior::Source { frames, next, tag } => BehaviorV::Source {
                frames: opts_v(frames@),
                next: *next,
                tag: *tag,
            },
            Behavior::Relay { slot, tag } => BehaviorV::Relay { slot: opt_v(*slot), tag: *tag },
            Behavior::Smooth { weight, signal, weight_tag, signal_tag } => BehaviorV::Smooth {
                weight: opt_v(*weight),
                signal: opt_v(*signal),
                weight_tag: *weight_tag,
                signal_tag: *signal_tag,
            },
            Behavior::Adder { left, right, tag } => BehaviorV::Adder {
                left: opt_v(*left),
                right: opt_v(*right),
                tag: *tag,
            },
            Behavior::Accumulator { window, tag } => BehaviorV::Accumulator {
                window: payloads_v(window@),
                tag: *tag,
            },
            Behavior::Logger { tags, records, decimation, seen } => BehaviorV::Logger {
                tags: tags@,
                records: records_v(records@),
                decimation: *decimation,
                seen: seen@,
            },
            Behavior::Router { in_tags, out_tags, map, slots } => BehaviorV::Router {
                in_tags: in_tags@,
                out_tags: out_tags@,
                map: map@,
                slots: opts_v(slots@),
            },
        }
    }
}

/// A duplicate of an optional payload with the same view.
fn dup_opt(o: &Option<Payload>) -> (r: Option<Payload>)
    ensures
        opt_v(r) == opt_v(*o),
{
    match o {
        Option::Some(p) => Option::Some(p.duplicate()),
        Option::None => Option::None,
    }
}

/// A mutable borrow of one vector element, with the final vector related to
/// the final element.
pub(crate) fn elem_at<T>(v: &mut Vec<T>, i: usize) -> (r: &mut T)
    requires
        i < old(v)@.len(),
    ensures
        *r == old(v)@[i as int],
        final(v)@ == old(v)@.update(i as int, *final(r)),
{
    &mut v[i]
}

/// Whenever every partial sum of a window stays representable, so does
/// every partial sum of each prefix.
proof fn lemma_window_sum_ok_prefix(vs: Seq<PayloadV>, k: int)
    requires
        window_sum_ok(vs),
        0 <= k <= vs.len(),
    ensures
        window_sum_ok(vs.take(k)),
    decreases vs.len() - k,
{
    if k == vs.len() {
        assert(vs.take(k) =~= vs);
    } else {
        lemma_window_sum_ok_prefix(vs, k + 1);
        let t1 = vs.take(k + 1);
        if t1.len() > 1 {
            assert(t1.drop_last() =~= vs.take(k));
        } else {
            assert(vs.take(k).len() <= 1);
        }
    }
}

/// Sums a non-empty window of same-tag payloads in arrival order, checking
/// every partial sum for overflow.
fn sum_window(window: &Vec<Payload>, tag: Tag) -> (r: Result<Payload, TransformError>)
    requires
        window@.len() > 0,
        forall|i: int|
            0 <= i < window@.len() ==> (#[trigger] window@[i]@).wf() && window@[i]@.tag == tag,
    ensures
        r is Ok <==> window_sum_ok(payloads_v(window@)),
        r is Ok ==> r->Ok_0@ == (PayloadV { tag, values: window_sum(payloads_v(window@)) }),
        r is Err ==> r == Err::<Payload, TransformError>(TransformError::Overflow),
{
    let ghost vs = payloads_v(window@);
    let n = window.len();
    let mut acc = window[0].duplicate();
    let mut k: usize = 1;
    proof {
        assert(vs.take(1).len() == 1);
        assert(vs.take(1)[0] == vs[0]);
        assert(acc@.values == window_sum(vs.take(1)));
    }
    while k < n
        invariant
            vs == payloads_v(window@),
            n == window@.len(),
            1 <= k <= n,
            forall|i: int| 0 <= i < vs.len() ==> (#[trigger] vs[i]).wf() && vs[i].tag == tag,
            acc@.values == window_sum(vs.take(k as int)),
            acc@.tag == tag,
            acc@.wf(),
            window_sum_ok(vs.take(k as int)),
        decreases n - k,
    {
        proof {
            assert(vs[k as int] == window@[k as int]@);
            assert(vs.take(k + 1).drop_last() =~= vs.take(k as int));
            assert(vs.take(k + 1).last() == vs[k as int]);
        }
        match acc.add(&window[k]) {
            Ok(next_acc) => {
                acc = next_acc;
            },
            Err(e) => {
                proof {
                    assert(!window_sum_ok(vs.take(k + 1)));
                    if window_sum_ok(vs) {
                        lemma_window_sum_ok_prefix(vs, k + 1);
                    }
                }
                return Err(e);
            },
        }
        k = k + 1;
    }
    proof {
        assert(vs.take(n as int) =~= vs);
    }
    Ok(acc)
}

/// Builds the router's outputs: when every input slot is filled, output
/// `j` re-emits slot `map[j]` under `out_tags[j]`; otherwise every output
/// stays empty.
fn route_outputs(
    in_tags: &Vec<Tag>,
    out_tags: &Vec<Tag>,
    map: &Vec<usize>,
    slots: &Vec<Option<Payload>>,
) -> (r: Vec<Option<Payload>>)
    requires
        (BehaviorV::Router {
            in_tags: in_tags@,
            out_tags: out_tags@,
            map: map@,
            slots: opts_v(slots@),
        }).wf(),
    ensures
        opts_v(r@) == (BehaviorV::Router {
            in_tags: in_tags@,
            out_tags: out_tags@,
            map: map@,
            slots: opts_v(slots@),
        }).fire_out(),
{
    let ghost bv = BehaviorV::Router {
        in_tags: in_tags@,
        out_tags: out_tags@,
        map: map@,
        slots: opts_v(slots@),
    };
    let m = out_tags.len();
    let mut ready = true;
    let mut p: usize = 0;
    while p < slots.len()
        invariant
            p <= slots@.len(),
            ready <==> (forall|q: int| 0 <= q < p ==> #[trigger] opts_v(slots@)[q] is Some),
        decreases slots@.len() - p,
    {
        if slots[p].is_none() {
            ready = false;
            proof {
                assert(opts_v(slots@)[p as int] is None);
            }
        }
        p = p + 1;
    }
    proof {
        assert(ready <==> bv.ready());
    }
    let mut outs: Vec<Option<Payload>> = Vec::new();
    let mut j: usize = 0;
    while j < m
        invariant
            bv == (BehaviorV::Router {
                in_tags: in_tags@,
                out_tags: out_tags@,
                map: map@,
                slots: opts_v(slots@),
            }),
            bv.wf(),
            m == out_tags@.len(),
            j <= m,
            ready <==> bv.ready(),
            outs@.len() == j,
            forall|q: int| 0 <= q < j ==> opt_v(#[trigger] outs@[q]) == bv.fire_out()[q],
        decreases m - j,
    {
        let ghost outs_before = outs@;
        if ready {
            let idx = map[j];
            proof {
                assert(map@[j as int] < in_tags@.len());
                assert(opts_v(slots@)[idx as int] is Some);
            }
            match &slots[idx] {
                Option::Some(q) => {
                    proof {
                        assert(opt_v(slots@[idx as int]) == Option::Some(q@));
                        assert(opt_wf(opts_v(slots@)[idx as int], in_tags@[idx as int]));
                    }
                    outs.push(Option::Some(q.retag(out_tags[j])));
                },
                Option::None => {
                    proof {
                        assert(false);
                    }
                    outs.push(Option::None);
                },
            }
        } else {
            outs.push(Option::None);
        }
        proof {
            assert(outs@.len() == j + 1);
            assert(forall|q: int| 0 <= q < j ==> outs@[q] == #[trigger] outs_before[q]);
            assert(opt_v(outs@[j as int]) == bv.fire_out()[j as int]);
        }
        j = j + 1;
    }
    proof {
        assert forall|q: int| 0 <= q < outs@.len() implies #[trigger] opts_v(outs@)[q]
            == bv.fire_out()[q] by {
            assert(opt_v(outs@[q]) == bv.fire_out()[q]);
        }
        assert(opts_v(outs@) =~= bv.fire_out());
    }
    outs
}

impl Behavior {
    /// A source emitting the given frames in order, one per activation.
    pub fn source(tag: Tag, frames: Vec<Option<Payload>>) -> (r: Behavior)
        requires
            forall|i: int| 0 <= i < frames@.len() ==> opt_wf(opt_v(#[trigger] frames@[i]), tag),
        ensures
            r@ == (BehaviorV::Source { frames: opts_v(frames@), next: 0, tag }),
            r@.wf(),
    {
        let r = Behavior::Source { frames, next: 0, tag };
        proof {
            match r@ {
                BehaviorV::Source { frames: fv, next, tag: t } => {
                    assert(forall|i: int| 0 <= i < fv.len() ==> opt_wf(#[trigger] fv[i], t));
                },
                _ => {},
            }
        }
        r
    }

    /// A pass-through hold with nothing latched yet.
    pub fn relay(tag: Tag) -> (r: Behavior)
        ensures
            r@ == (BehaviorV::Relay { slot: Option::None, tag }),
            r@.wf(),
    {
        Behavior::Relay { slot: Option::None, tag }
    }

    /// A weight-times-signal smoother; the weight input carries a single
    /// element.
    pub fn smooth(weight_tag: Tag, signal_tag: Tag) -> (r: Behavior)
        requires
            weight_tag.len == 1,
        ensures
            r@ == (BehaviorV::Smooth {
                weight: Option::None,
                signal: Option::None,
                weight_tag,
                signal_tag,
            }),
            r@.wf(),
    {
        Behavior::Smooth { weight: Option::None, signal: Option::None, weight_tag, signal_tag }
    }

    /// A two-input elementwise merge.
    pub fn adder(tag: Tag) -> (r: Behavior)
        ensures
            r@ == (BehaviorV::Adder { left: Option::None, right: Option::None, tag }),
            r@.wf(),
    {
        Behavior::Adder { left: Option::None, right: Option::None, tag }
    }

    /// A down-sampling reducer summing its gathering window.
    pub fn accumulator(tag: Tag) -> (r: Behavior)
        ensures
            r@ == (BehaviorV::Accumulator { window: Seq::empty(), tag }),
            r@.wf(),
    {
        let r = Behavior::Accumulator { window: Vec::new(), tag };
        proof {
            assert(payloads_v(Seq::<Payload>::empty()) =~= Seq::<PayloadV>::empty());
        }
        r
    }

    /// A terminal logger with one input port per tag, storing every
    /// `decimation`-th sample on each port.
    pub fn logger(tags: Vec<Tag>, decimation: usize) -> (r: Behavior)
        requires
            decimation >= 1,
        ensures
            r@ == (BehaviorV::Logger {
                tags: tags@,
                records: Seq::new(tags@.len(), |i: int| Seq::<PayloadV>::empty()),
                decimation,
                seen: Seq::new(tags@.len(), |i: int| 0usize),
            }),
            r@.wf(),
    {
        let n = tags.len();
        let mut records: Vec<Vec<Payload>> = Vec::new();
        let mut seen: Vec<usize> = Vec::new();
        let mut i: usize = 0;
        while i < n
            invariant
                i <= n,
                records@.len() == i,
                seen@.len() == i,
                forall|j: int| 0 <= j < i ==> (#[trigger] records@[j])@.len() == 0,
                forall|j: int| 0 <= j < i ==> #[trigger] seen@[j] == 0usize,
            decreases n - i,
        {
            records.push(Vec::new());
            seen.push(0);
            i = i + 1;
        }
        let r = Behavior::Logger { tags, records, decimation, seen };
        proof {
            match r@ {
                BehaviorV::Logger { tags: tv, records: rv, decimation: d, seen: sv } => {
                    assert(rv =~~= Seq::new(tv.len(), |i: int| Seq::<PayloadV>::empty()));
                    assert(sv =~= Seq::new(tv.len(), |i: int| 0usize));
                },
                _ => {},
            }
        }
        r
    }

    /// A rebranding bus: output `j` re-emits the latest input `map[j]`
    /// under `out_tags[j]`.
    pub fn router(in_tags: Vec<Tag>, out_tags: Vec<Tag>, map: Vec<usize>) -> (r: Behavior)
        requires
            map@.len() == out_tags@.len(),
            forall|j: int|
                0 <= j < map@.len() ==> #[trigger] map@[j] < in_tags@.len() && out_tags@[j].len
                    == in_tags@[map@[j] as int].len,
        ensures
            r@ == (BehaviorV::Router {
                in_tags: in_tags@,
                out_tags: out_tags@,
                map: map@,
                slots: Seq::new(in_tags@.len(), |i: int| Option::<PayloadV>::None),
            }),
            r@.wf(),
    {
        let n = in_tags.len();
        let mut slots: Vec<Option<Payload>> = Vec::new();
        let mut i: usize = 0;
        while i < n
            invariant
                i <= n,
                slots@.len() == i,
                forall|j: int| 0 <= j < i ==> #[trigger] slots@[j] is None,
            decreases n - i,
        {
            slots.push(Option::None);
            i = i + 1;
        }
        let r = Behavior::Router { in_tags, out_tags, map, slots };
        proof {
            match r@ {
                BehaviorV::Router { in_tags: iv, out_tags: ov, map: mv, slots: sv } => {
                    assert(sv =~= Seq::new(iv.len(), |i: int| Option::<PayloadV>::None));
                },
                _ => {},
            }
        }
        r
    }

    /// How many input ports the transform declares.
    pub fn in_ports(&self) -> (r: usize)
        ensures
            r == self@.in_ports(),
    {
        match self {
            Behavior::Source { .. } => 0,
            Behavior::Relay { .. } => 1,
            Behavior::Smooth { .. } => 2,
            Behavior::Adder { .. } => 2,
            Behavior::Accumulator { .. } => 1,
            Behavior::Logger { tags, .. } => tags.len(),
            Behavior::Router { in_tags, .. } => in_tags.len(),
        }
    }

    /// How many output ports the transform declares.
    pub fn out_ports(&self) -> (r: usize)
        ensures
            r == self@.out_ports(),
    {
        match self {
            Behavior::Source { .. } => 1,
            Behavior::Relay { .. } => 1,
            Behavior::Smooth { .. } => 1,
            Behavior::Adder { .. } => 1,
            Behavior::Accumulator { .. } => 1,
            Behavior::Logger { .. } => 0,
            Behavior::Router { out_tags, .. } => out_tags.len(),
        }
    }

    /// The tag an input port expects.
    pub fn in_tag(&self, port: usize) -> (r: Tag)
        requires
            port < self@.in_ports(),
        ensures
            r == self@.in_tag(port as int),
    {
        match self {
            Behavior::Source { tag, .. } => *tag,
            Behavior::Relay { tag, .. } => *tag,
            Behavior::Smooth { weight_tag, signal_tag, .. } => if port == 0 {
                *weight_tag
            } else {
                *signal_tag
            },
            Behavior::Adder { tag, .. } => *tag,
            Behavior::Accumulator { tag, .. } => *tag,
            Behavior::Logger { tags, .. } => tags[port],
            Behavior::Router { in_tags, .. } => in_tags[port],
        }
    }

    /// The tag an output port produces.
    pub fn out_tag(&self, port: usize) -> (r: Tag)
        requires
            port < self@.out_ports(),
        ensures
            r == self@.out_tag(port as int),
    {
        match self {
            Behavior::Source { tag, .. } => *tag,
            Behavior::Relay { tag, .. } => *tag,
            Behavior::Smooth { signal_tag, .. } => *signal_tag,
            Behavior::Adder { tag, .. } => *tag,
            Behavior::Accumulator { tag, .. } => *tag,
            Behavior::Logger { tags, .. } => tags[port],
            Behavior::Router { out_tags, .. } => out_tags[port],
        }
    }

    /// Whether the transform has everything it needs to produce output,
    /// executably.
    pub fn is_ready(&self) -> (r: bool)
        ensures
            r == self@.ready(),
    {
        match self {
            Behavior::Source { .. } => true,
            Behavior::Relay { slot, .. } => slot.is_some(),
            Behavior::Smooth { weight, signal, .. } => weight.is_some() && signal.is_some(),
            Behavior::Adder { left, right, .. } => left.is_some() && right.is_some(),
            Behavior::Accumulator { window, .. } => window.len() > 0,
            Behavior::Logger { .. } => true,
            Behavior::Router { slots, .. } => {
                let n = slots.len();
                let mut ready = true;
                let mut p: usize = 0;
                while p < n
                    invariant
                        n == slots@.len(),
                        p <= n,
                        ready <==> (forall|q: int|
                            0 <= q < p ==> #[trigger] opts_v(slots@)[q] is Some),
                    decreases n - p,
                {
                    if slots[p].is_none() {
                        ready = false;
                        proof {
                            assert(opts_v(slots@)[p as int] is None);
                        }
                    } else {
                        proof {
                            assert(opts_v(slots@)[p as int] == opt_v(slots@[p as int]));
                        }
                    }
                    p = p + 1;
                }
                ready
            },
        }
    }

    /// Accepts one payload on one input port.  Within a gathering window a
    /// later arrival overwrites an earlier one on the same port; the
    /// accumulator appends instead, and the logger stores every
    /// `decimation`-th arrival.
    pub fn read(&mut self, port: usize, p: Payload)
        requires
            old(self)@.wf(),
            port < old(self)@.in_ports(),
            p@.wf(),
            p@.tag == old(self)@.in_tag(port as int),
        ensures
            final(self)@ == old(self)@.read_spec(port as int, p@),
            final(self)@.wf(),
    {
        let ghost pv = p@;
        match self {
            Behavior::Source { .. } => {},
            Behavior::Relay { slot, .. } => {
                *slot = Option::Some(p);
            },
            Behavior::Smooth { weight, signal, .. } => {
                if port == 0 {
                    *weight = Option::Some(p);
                } else {
                    *signal = Option::Some(p);
                }
            },
            Behavior::Adder { left, right, .. } => {
                if port == 0 {
                    *left = Option::Some(p);
                } else {
                    *right = Option::Some(p);
                }
            },
            Behavior::Accumulator { window, .. } => {
                let ghost before = window@;
                window.push(p);
                proof {
                    assert(payloads_v(window@) =~= payloads_v(before).push(pv));
                }
            },
            Behavior::Logger { records, decimation, seen, .. } => {
                let ghost rbefore = records@;
                let ghost sbefore = seen@;
                let s = seen[port];
                if s == 0 {
                    let slot = elem_at(records, port);
                    let ghost ebefore = slot@;
                    slot.push(p);
                    proof {
                        assert(payloads_v(slot@) =~= payloads_v(ebefore).push(pv));
                        assert(records_v(records@) =~= records_v(rbefore).update(
                            port as int,
                            payloads_v(ebefore).push(pv),
                        ));
                    }
                }
                let s2: usize = if s + 1 == *decimation {
                    0
                } else {
                    s + 1
                };
                seen.set(port, s2);
                proof {
                    if s != 0 {
                        assert(records_v(records@) =~= records_v(rbefore));
                    }
                }
            },
            Behavior::Router { slots, .. } => {
                let ghost sbefore = slots@;
                slots.set(port, Option::Some(p));
                proof {
                    assert(opts_v(slots@) =~= opts_v(sbefore).update(
                        port as int,
                        Option::Some(pv),
                    ));
                }
            },
        }
    }

    /// Runs the transform once against the latest accumulated inputs,
    /// returning at most one payload per output port.  A transform whose
    /// arithmetic would leave the representable range fails with `Overflow`
    /// and changes nothing.
    pub fn fire(&mut self) -> (r: Result<Vec<Option<Payload>>, TransformError>)
        requires
            old(self)@.wf(),
        ensures
            r is Ok <==> old(self)@.fire_ok(),
            r is Ok ==> final(self)@ == old(self)@.fire_state() && opts_v(r->Ok_0@) == old(
                self,
            )@.fire_out() && final(self)@.wf(),
            r is Err ==> r == Err::<Vec<Option<Payload>>, TransformError>(TransformError::Overflow)
                && final(self)@ == old(self)@,
    {
        match self {
            Behavior::Source { frames, next, .. } => {
                let mut outs: Vec<Option<Payload>> = Vec::new();
                if *next < frames.len() {
                    let f = dup_opt(&frames[*next]);
                    outs.push(f);
                    *next = *next + 1;
                } else {
                    outs.push(Option::None);
                }
                proof {
                    assert(opts_v(outs@) =~= old(self)@.fire_out());
                }
                Ok(outs)
            },
            Behavior::Relay { slot, .. } => {
                let mut outs: Vec<Option<Payload>> = Vec::new();
                outs.push(dup_opt(slot));
                proof {
                    assert(opts_v(outs@) =~= old(self)@.fire_out());
                }
                Ok(outs)
            },
            Behavior::Smooth { weight, signal, .. } => {
                let mut outs: Vec<Option<Payload>> = Vec::new();
                match (weight, signal) {
                    (Option::Some(w), Option::Some(s)) => {
                        match s.scale(w.value_at(0)) {
                            Ok(scaled) => {
                                outs.push(Option::Some(scaled));
                            },
                            Err(e) => {
                                return Err(e);
                            },
                        }
                    },
                    _ => {
                        outs.push(Option::None);
                    },
                }
                proof {
                    assert(opts_v(outs@) =~= old(self)@.fire_out());
                }
                Ok(outs)
            },
            Behavior::Adder { left, right, .. } => {
                let mut outs: Vec<Option<Payload>> = Vec::new();
                match (left, right) {
                    (Option::Some(a), Option::Some(b)) => {
                        match a.add(b) {
                            Ok(sum) => {
                                outs.push(Option::Some(sum));
                            },
                            Err(e) => {
                                return Err(e);
                            },
                        }
                    },
                    _ => {
                        outs.push(Option::None);
                    },
                }
                proof {
                    assert(opts_v(outs@) =~= old(self)@.fire_out());
                }
                Ok(outs)
            },
            Behavior::Accumulator { window, tag } => {
                let mut outs: Vec<Option<Payload>> = Vec::new();
                if window.len() == 0 {
                    outs.push(Option::None);
                    proof {
                        assert(opts_v(outs@) =~= old(self)@.fire_out());
                        assert(payloads_v(window@) =~= Seq::<PayloadV>::empty());
                    }
                    return Ok(outs);
                }
                proof {
                    assert(old(self)@ == (BehaviorV::Accumulator {
                        window: payloads_v(window@),
                        tag: *tag,
                    }));
                    assert forall|i: int| 0 <= i < window@.len() implies (#[trigger] window@[i]@).wf()
                        && window@[i]@.tag == *tag by {
                        assert(payloads_v(window@)[i] == window@[i]@);
                    }
                }
                match sum_window(window, *tag) {
                    Ok(total) => {
                        outs.push(Option::Some(total));
                        window.clear();
                        proof {
                            assert(payloads_v(window@) =~= Seq::<PayloadV>::empty());
                            assert(opts_v(outs@) =~= old(self)@.fire_out());
                        }
                        Ok(outs)
                    },
                    Err(e) => Err(e),
                }
            },
            Behavior::Logger { .. } => {
                let outs: Vec<Option<Payload>> = Vec::new();
                proof {
                    assert(opts_v(outs@) =~= old(self)@.fire_out());
                }
                Ok(outs)
            },
            Behavior::Router { in_tags, out_tags, map, slots } => {
                let outs = route_outputs(in_tags, out_tags, map, slots);
                proof {
                    assert(opts_v(outs@) =~= old(self)@.fire_out());
                }
                Ok(outs)
            },
        }
    }
}

/// The length of a window sum matches the common payload length.
proof fn lemma_window_sum_len(vs: Seq<PayloadV>, tag: Tag)
    requires
        vs.len() > 0,
        forall|i: int| 0 <= i < vs.len() ==> (#[trigger] vs[i]).wf() && vs[i].tag == tag,
    ensures
        window_sum(vs).len() == tag.len,
    decreases vs.len(),
{
    if vs.len() > 1 {
        let rest = vs.drop_last();
        assert(forall|i: int| 0 <= i < rest.len() ==> #[trigger] rest[i] == vs[i]);
        lemma_window_sum_len(rest, tag);
    }
}

/// Reading a payload changes only a transform's held inputs: its port
/// counts and tags stay as declared.
pub proof fn lemma_read_static(b: BehaviorV, port: int, p: PayloadV)
    requires
        b.wf(),
        0 <= port < b.in_ports(),
        p.wf(),
        p.tag == b.in_tag(port),
    ensures
        b.read_spec(port, p).wf(),
        b.read_spec(port, p).in_ports() == b.in_ports(),
        b.read_spec(port, p).out_ports() == b.out_ports(),
        forall|q: int| 0 <= q < b.in_ports() ==> b.read_spec(port, p).in_tag(q) == b.in_tag(q),
        forall|q: int| 0 <= q < b.out_ports() ==> b.read_spec(port, p).out_tag(q) == b.out_tag(q),
{
    let b2 = b.read_spec(port, p);
    match b {
        BehaviorV::Logger { tags, records, decimation, seen } => {
            match b2 {
                BehaviorV::Logger { tags: t2, records: r2, decimation: d2, seen: s2 } => {
                    assert forall|q: int, k: int|
                        0 <= q < r2.len() && 0 <= k < r2[q].len() implies opt_wf(
                        Option::Some(#[trigger] r2[q][k]),
                        t2[q],
                    ) by {
                        if seen[port] == 0 && q == port && k == r2[q].len() - 1 {
                        } else {
                            assert(r2[q][k] == records[q][k]);
                            assert(opt_wf(Option::Some(records[q][k]), tags[q]));
                        }
                    }
                },
                _ => {},
            }
        },
        _ => {},
    }
}

/// Firing a transform keeps its port counts and tags as declared, and its
/// outputs are absent or well formed under the declared output tags.
proof fn lemma_fire_static(b: BehaviorV)
    requires
        b.wf(),
    ensures
        b.fire_state().wf(),
        b.fire_state().in_ports() == b.in_ports(),
        b.fire_state().out_ports() == b.out_ports(),
        forall|q: int| 0 <= q < b.in_ports() ==> b.fire_state().in_tag(q) == b.in_tag(q),
        forall|q: int| 0 <= q < b.out_ports() ==> b.fire_state().out_tag(q) == b.out_tag(q),
        b.fire_out().len() == b.out_ports(),
        forall|q: int|
            0 <= q < b.out_ports() ==> opt_wf(#[trigger] b.fire_out()[q], b.out_tag(q)),
{
    match b {
        BehaviorV::Accumulator { window, tag } => {
            if window.len() > 0 {
                lemma_window_sum_len(window, tag);
            }
        },
        _ => {},
    }
}

/// The mathematical value of a node.
#[verifier::ext_equal]
pub struct NodeV {
    pub behavior: BehaviorV,
    pub consume: usize,
    pub produce: usize,
    pub counter: usize,
    pub held: Seq<Option<PayloadV>>,
    pub fanout: Seq<usize>,
}

impl NodeV {
    pub open spec fn wf(self) -> bool {
        &&& self.behavior.wf()
        &&& self.fanout.len() == self.behavior.out_ports()
        &&& forall|p: int| 0 <= p < self.fanout.len() ==> #[trigger] self.fanout[p] >= 1
        &&& self.consume >= 1
        &&& self.produce >= 1
        &&& (self.consume == 1 || self.produce == 1)
        &&& self.counter < self.consume
        &&& self.held.len() == self.behavior.out_ports()
        &&& forall|p: int|
            0 <= p < self.held.len() ==> opt_wf(#[trigger] self.held[p], self.behavior.out_tag(p))
    }

    /// Whether a tick with this gather outcome makes the transform run: the
    /// consume-count is satisfied.
    pub open spec fn fires(self, satisfied: bool) -> bool {
        satisfied && self.counter + 1 == self.consume
    }

    /// A step stays representable unless the transform runs and overflows.
    pub open spec fn step_ok(self, satisfied: bool) -> bool {
        self.fires(satisfied) ==> self.behavior.fire_ok()
    }

    /// The node after one tick: on a firing tick the transform runs once,
    /// the counter resets and the outputs are held; on a satisfied
    /// non-firing tick only the counter advances.
    pub open spec fn step_state(self, satisfied: bool) -> NodeV {
        if self.fires(satisfied) {
            NodeV {
                behavior: self.behavior.fire_state(),
                counter: 0,
                held: self.behavior.fire_out(),
                ..self
            }
        } else if satisfied {
            NodeV { counter: (self.counter + 1) as usize, ..self }
        } else {
            self
        }
    }

    /// What the node pushes downstream this tick: a down-sampling or
    /// same-rate node (produce 1) emits only on firing ticks; an
    /// up-sampling node re-emits its held outputs every tick.
    pub open spec fn step_emit(self, satisfied: bool) -> Seq<Option<PayloadV>> {
        if self.produce == 1 {
            if self.fires(satisfied) {
                self.behavior.fire_out()
            } else {
                Seq::new(self.held.len(), |p: int| Option::<PayloadV>::None)
            }
        } else {
            self.step_state(satisfied).held
        }
    }
}

/// Stepping a node changes neither its rate ratio nor its transform's
/// port counts and tags; what it emits is absent or well formed under the
/// declared output tags.
pub proof fn lemma_step_static(n: NodeV, satisfied: bool)
    requires
        n.wf(),
        n.step_ok(satisfied),
    ensures
        n.step_state(satisfied).wf(),
        n.step_state(satisfied).consume == n.consume,
        n.step_state(satisfied).produce == n.produce,
        n.step_state(satisfied).fanout == n.fanout,
        n.step_state(satisfied).behavior.in_ports() == n.behavior.in_ports(),
        n.step_state(satisfied).behavior.out_ports() == n.behavior.out_ports(),
        forall|q: int|
            0 <= q < n.behavior.in_ports() ==> n.step_state(satisfied).behavior.in_tag(q)
                == n.behavior.in_tag(q),
        forall|q: int|
            0 <= q < n.behavior.out_ports() ==> n.step_state(satisfied).behavior.out_tag(q)
                == n.behavior.out_tag(q),
        n.step_emit(satisfied).len() == n.behavior.out_ports(),
        forall|p: int|
            0 <= p < n.behavior.out_ports() ==> opt_wf(
                #[trigger] n.step_emit(satisfied)[p],
                n.behavior.out_tag(p),
            ),
{
    lemma_fire_static(n.behavior);
}

/// The node after a run of consecutive ticks whose gathers were all
/// satisfied.
pub open spec fn steps_satisfied(n: NodeV, k: nat) -> NodeV
    decreases k,
{
    if k == 0 {
        n
    } else {
        steps_satisfied(n, (k - 1) as nat).step_state(true)
    }
}

/// How many times the transform ran during a run of consecutive satisfied
/// ticks.
pub open spec fn fires_in(n: NodeV, k: nat) -> nat
    decreases k,
{
    if k == 0 {
        0
    } else {
        fires_in(n, (k - 1) as nat) + if steps_satisfied(n, (k - 1) as nat).fires(true) {
            1nat
        } else {
            0nat
        }
    }
}

/// A node with rate ratio (R, 1) and a fresh counter, driven through R
/// consecutive satisfied gathers, runs its transform exactly once: never in
/// the first R - 1 ticks, once on the R-th.
pub proof fn lemma_emits_once_per_period(n: NodeV, k: nat)
    requires
        n.wf(),
        n.counter == 0,
        k <= n.consume,
    ensures
        fires_in(n, k) == if k == n.consume {
            1nat
        } else {
            0nat
        },
        k < n.consume ==> steps_satisfied(n, k) == (NodeV { counter: k as usize, ..n }),
    decreases k,
{
    if k > 0 {
        lemma_emits_once_per_period(n, (k - 1) as nat);
    }
}

/// Whether a transform overwrites on read: every arrival on a port simply
/// replaces the port's held value (the accumulator appends instead, and
/// the logger records).
pub open spec fn overwrites_on_read(b: BehaviorV) -> bool {
    b is Relay || b is Smooth || b is Adder || b is Router
}

/// Last write wins within a gathering window: for an overwriting
/// transform, two arrivals on one port leave exactly the state the second
/// alone would have left, so the output of the period is insensitive to
/// the earlier arrival.
pub proof fn lemma_last_write_wins(b: BehaviorV, port: int, x: PayloadV, y: PayloadV)
    requires
        b.wf(),
        overwrites_on_read(b),
        0 <= port < b.in_ports(),
    ensures
        b.read_spec(port, x).read_spec(port, y) == b.read_spec(port, y),
{
    match b {
        BehaviorV::Router { in_tags, out_tags, map, slots } => {
            assert(slots.update(port, Option::Some(x)).update(port, Option::Some(y)) =~= slots
                .update(port, Option::Some(y)));
        },
        _ => {},
    }
}

/// Arrivals on two distinct ports of an overwriting transform commute: the
/// state after a gathering window does not depend on their relative
/// ordering.
pub proof fn lemma_reads_commute(b: BehaviorV, p1: int, x: PayloadV, p2: int, y: PayloadV)
    requires
        b.wf(),
        overwrites_on_read(b),
        0 <= p1 < b.in_ports(),
        0 <= p2 < b.in_ports(),
        p1 != p2,
    ensures
        b.read_spec(p1, x).read_spec(p2, y) == b.read_spec(p2, y).read_spec(p1, x),
{
    match b {
        BehaviorV::Router { in_tags, out_tags, map, slots } => {
            assert(slots.update(p1, Option::Some(x)).update(p2, Option::Some(y)) =~= slots.update(
                p2,
                Option::Some(y),
            ).update(p1, Option::Some(x)));
        },
        _ => {},
    }
}

/// A scheduled unit: a transform plus its rate ratio
/// (consumed-per-period, produced-per-period) relative to the global tick,
/// its satisfied-gather counter, and its held outputs.
#[derive(Debug)]
pub struct Node {
    behavior: Behavior,
    consume: usize,
    produce: usize,
    counter: usize,
    held: Vec<Option<Payload>>,
    fanout: Vec<usize>,
}

impl View for Node {
    type V = NodeV;

    closed spec fn view(&self) -> NodeV {
        NodeV {
            behavior: self.behavior@,
            consume: self.consume,
            produce: self.produce,
            counter: self.counter,
            held: opts_v(self.held@),
            fanout: self.fanout@,
        }
    }
}

/// A vector of empty output slots.
fn none_outs(n: usize) -> (r: Vec<Option<Payload>>)
    ensures
        opts_v(r@) == Seq::new(n as nat, |p: int| Option::<PayloadV>::None),
{
    let mut outs: Vec<Option<Payload>> = Vec::new();
    let mut i: usize = 0;
    while i < n
        invariant
            i <= n,
            outs@.len() == i,
            forall|j: int| 0 <= j < i ==> #[trigger] outs@[j] is None,
        decreases n - i,
    {
        outs.push(Option::None);
        i = i + 1;
    }
    proof {
        assert(opts_v(outs@) =~= Seq::new(n as nat, |p: int| Option::<PayloadV>::None));
    }
    outs
}

/// A duplicate of a vector of output slots with the same views.
fn dup_outs(v: &Vec<Option<Payload>>) -> (r: Vec<Option<Payload>>)
    ensures
        opts_v(r@) == opts_v(v@),
{
    let mut outs: Vec<Option<Payload>> = Vec::new();
    let mut i: usize = 0;
    while i < v.len()
        invariant
            i <= v@.len(),
            outs@.len() == i,
            forall|j: int| 0 <= j < i ==> opt_v(#[trigger] outs@[j]) == opt_v(v@[j]),
        decreases v@.len() - i,
    {
        outs.push(dup_opt(&v[i]));
        i = i + 1;
    }
    proof {
        assert forall|q: int| 0 <= q < outs@.len() implies #[trigger] opts_v(outs@)[q] == opts_v(
            v@,
        )[q] by {
            assert(opt_v(outs@[q]) == opt_v(v@[q]));
        }
        assert(opts_v(outs@) =~= opts_v(v@));
    }
    outs
}

impl Node {
    /// A node around a transform with the given rate ratio; one side of the
    /// ratio must be 1.
    pub fn new(behavior: Behavior, consume: usize, produce: usize) -> (r: Node)
        requires
            behavior@.wf(),
            consume >= 1,
            produce >= 1,
            consume == 1 || produce == 1,
        ensures
            r@ == (NodeV {
                behavior: behavior@,
                consume,
                produce,
                counter: 0,
                held: Seq::new(behavior@.out_ports(), |p: int| Option::<PayloadV>::None),
                fanout: Seq::new(behavior@.out_ports(), |p: int| 1usize),
            }),
            r@.wf(),
    {
        let n_out = behavior.out_ports();
        let held = none_outs(n_out);
        let mut fanout: Vec<usize> = Vec::new();
        let mut i: usize = 0;
        while i < n_out
            invariant
                i <= n_out,
                fanout@.len() == i,
                forall|j: int| 0 <= j < i ==> #[trigger] fanout@[j] == 1usize,
            decreases n_out - i,
        {
            fanout.push(1);
            i = i + 1;
        }
        proof {
            assert(fanout@ =~= Seq::new(behavior@.out_ports(), |p: int| 1usize));
        }
        Node { behavior, consume, produce, counter: 0, held, fanout }
    }

    /// Declares the multiplex count of an output port: the number of edges
    /// that must be bound to it before the graph can run.
    pub fn set_multiplex(&mut self, port: usize, count: usize)
        requires
            old(self)@.wf(),
            port < old(self)@.behavior.out_ports(),
            count >= 1,
        ensures
            final(self)@ == (NodeV {
                fanout: old(self)@.fanout.update(port as int, count),
                ..old(self)@
            }),
            final(self)@.wf(),
    {
        self.fanout.set(port, count);
    }

    /// The declared multiplex count of an output port.
    pub fn multiplex(&self, port: usize) -> (r: usize)
        requires
            port < self@.fanout.len(),
        ensures
            r == self@.fanout[port as int],
    {
        self.fanout[port]
    }

    pub fn in_ports(&self) -> (r: usize)
        ensures
            r == self@.behavior.in_ports(),
    {
        self.behavior.in_ports()
    }

    pub fn out_ports(&self) -> (r: usize)
        ensures
            r == self@.behavior.out_ports(),
    {
        self.behavior.out_ports()
    }

    pub fn in_tag(&self, port: usize) -> (r: Tag)
        requires
            port < self@.behavior.in_ports(),
        ensures
            r == self@.behavior.in_tag(port as int),
    {
        self.behavior.in_tag(port)
    }

    pub fn out_tag(&self, port: usize) -> (r: Tag)
        requires
            port < self@.behavior.out_ports(),
        ensures
            r == self@.behavior.out_tag(port as int),
    {
        self.behavior.out_tag(port)
    }

    pub fn consume(&self) -> (r: usize)
        ensures
            r == self@.consume,
    {
        self.consume
    }

    pub fn produce(&self) -> (r: usize)
        ensures
            r == self@.produce,
    {
        self.produce
    }

    /// Read access to the transform, for inspecting logger records and
    /// other terminal state.
    pub fn behavior(&self) -> (r: &Behavior)
        ensures
            r@ == self@.behavior,
    {
        &self.behavior
    }

    /// Accepts one payload on one input port of the transform.
    pub fn absorb(&mut self, port: usize, p: Payload)
        requires
            old(self)@.wf(),
            port < old(self)@.behavior.in_ports(),
            p@.wf(),
            p@.tag == old(self)@.behavior.in_tag(port as int),
        ensures
            final(self)@ == (NodeV {
                behavior: old(self)@.behavior.read_spec(port as int, p@),
                ..old(self)@
            }),
            final(self)@.wf(),
    {
        proof {
            lemma_read_static(old(self)@.behavior, port as int, p@);
        }
        self.behavior.read(port, p);
    }

    /// Drives the node through one tick: counts a satisfied gather, runs
    /// the transform once when the consume-count is reached, and returns
    /// what the node emits this tick (at most one payload per output
    /// port).  An overflowing transform fails with `Overflow` and changes
    /// nothing.
    pub fn step(&mut self, satisfied: bool) -> (r: Result<Vec<Option<Payload>>, TransformError>)
        requires
            old(self)@.wf(),
        ensures
            r is Ok <==> old(self)@.step_ok(satisfied),
            r is Ok ==> final(self)@ == old(self)@.step_state(satisfied) && opts_v(r->Ok_0@)
                == old(self)@.step_emit(satisfied) && final(self)@.wf(),
            r is Err ==> r == Err::<Vec<Option<Payload>>, TransformError>(TransformError::Overflow)
                && final(self)@ == old(self)@,
    {
        let mut fired = false;
        if satisfied {
            if self.counter + 1 == self.consume {
                proof {
                    lemma_fire_static(old(self)@.behavior);
                }
                match self.behavior.fire() {
                    Ok(outs) => {
                        self.held = outs;
                        self.counter = 0;
                        fired = true;
                    },
                    Err(e) => {
                        return Err(e);
                    },
                }
            } else {
                self.counter = self.counter + 1;
            }
        }
        let emit: Vec<Option<Payload>> = if self.produce == 1 {
            if fired {
                dup_outs(&self.held)
            } else {
                none_outs(self.held.len())
            }
        } else {
            dup_outs(&self.held)
        };
        Ok(emit)
    }
}

} // verus!
