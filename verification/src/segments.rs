//! The seven-segment mirror controller aggregate: a uniform interface over
//! per-segment controllers, each consuming a command plus a feedback vector
//! and producing force vectors, with two run-wide scalar correction gains
//! applied to tag-addressed slices of each face-sheet output and all segment
//! outputs concatenated in ascending segment-id order.
//!
//! The numeric control law of a real segment is an opaque external
//! collaborator with a fixed input/output vector contract; the controller
//! here carries a simple built-in law of the same shape (proportional error
//! term plus an internal integrator state) so the aggregate's routing, gain
//! and ordering rules can be exercised and verified end to end.

use vstd::prelude::*;
use vstd::pervasive::VecAdditionalExecFns;

use crate::errors::TransformError;
use crate::payload::add_in_range;
use crate::payload::add_seq;
use crate::payload::add_vec;
use crate::payload::copy_values;
use crate::payload::sub_in_range;
use crate::payload::sub_seq;
use crate::payload::sub_vec;
use crate::payload::zero_values;

verus! {

/// The schema table mapping the two tagged sub-slices of a face-sheet output
/// vector to explicit element ranges: the center-of-pressure modal-force
/// slice (scaled by the modal-forces gain) and the rigid-body modal-force
/// slice (scaled by the fluid-damping gain).  Keeping the mapping explicit
/// makes gain application independent of the transform logic.
#[derive(Clone, Copy, Debug, PartialEq, Eq, Structural)]
pub struct SliceSchema {
    pub cp_offset: usize,
    pub cp_len: usize,
    pub rb_offset: usize,
    pub rb_len: usize,
    pub total: usize,
}

impl SliceSchema {
    /// The two slices lie inside the vector and do not overlap.
    pub open spec fn wf(self) -> bool {
        &&& self.cp_offset + self.cp_len <= self.rb_offset
        &&& self.rb_offset + self.rb_len <= self.total
    }

    /// Whether an index falls in the center-of-pressure modal-force slice.
    pub open spec fn in_cp(self, i: int) -> bool {
        self.cp_offset <= i < self.cp_offset + self.cp_len
    }

    /// Whether an index falls in the rigid-body modal-force slice.
    pub open spec fn in_rb(self, i: int) -> bool {
        self.rb_offset <= i < self.rb_offset + self.rb_len
    }
}

/// A face-sheet vector with the two schema slices scaled by their gains and
/// every element outside the slices unchanged.
pub open spec fn gains_applied(face: Seq<i64>, s: SliceSchema, mg: i64, fg: i64) -> Seq<i64> {
    Seq::new(
        face.len(),
        |i: int|
            if s.in_cp(i) {
                (face[i] * mg) as i64
            } else if s.in_rb(i) {
                (face[i] * fg) as i64
            } else {
                face[i]
            },
    )
}

/// Every scaled element of a face-sheet vector stays representable.
pub open spec fn gains_in_range(face: Seq<i64>, s: SliceSchema, mg: i64, fg: i64) -> bool {
    forall|i: int| #![trigger face[i]]
        0 <= i < face.len() ==> {
            &&& (s.in_cp(i) ==> i64::MIN <= face[i] * mg <= i64::MAX)
            &&& (s.in_rb(i) ==> i64::MIN <= face[i] * fg <= i64::MAX)
        }
}

/// The identity of one of the seven per-segment controllers.  Using the
/// closed set of identities instead of a raw number makes an out-of-range
/// segment id unrepresentable at this interface.
#[derive(Clone, Copy, Debug, PartialEq, Eq, Structural)]
pub enum AsmController {
    One,
    Two,
    Three,
    Four,
    Five,
    Six,
    Seven,
}

impl AsmController {
    /// The segment id this identity names, in 1..=7.
    pub open spec fn segment_id_spec(self) -> u8 {
        match self {
            AsmController::One => 1,
            AsmController::Two => 2,
            AsmController::Three => 3,
            AsmController::Four => 4,
            AsmController::Five => 5,
            AsmController::Six => 6,
            AsmController::Seven => 7,
        }
    }

    /// The segment id this identity names.
    pub fn segment_id(self) -> (r: u8)
        ensures
            r == self.segment_id_spec(),
            1 <= r <= 7,
    {
        match self {
            AsmController::One => 1,
            AsmController::Two => 2,
            AsmController::Three => 3,
            AsmController::Four => 4,
            AsmController::Five => 5,
            AsmController::Six => 6,
            AsmController::Seven => 7,
        }
    }

    /// The identity for a segment id, if the id is in the valid range
    /// 1..=7.
    pub fn from_segment_id(sid: u8) -> (r: Option<AsmController>)
        ensures
            r is Some <==> 1 <= sid <= 7,
            r is Some ==> r->Some_0.segment_id_spec() == sid,
    {
        match sid {
            1 => Option::Some(AsmController::One),
            2 => Option::Some(AsmController::Two),
            3 => Option::Some(AsmController::Three),
            4 => Option::Some(AsmController::Four),
            5 => Option::Some(AsmController::Five),
            6 => Option::Some(AsmController::Six),
            7 => Option::Some(AsmController::Seven),
            _ => Option::None,
        }
    }
}

/// The mathematical value of one segment controller.
#[verifier::ext_equal]
pub struct SegmentControllerV {
    pub sid: u8,
    pub n_modes: usize,
    pub command: Seq<i64>,
    pub feedback: Seq<i64>,
    pub integ: Seq<i64>,
    pub face_sheet: Seq<i64>,
    pub rigid_body: Seq<i64>,
}

impl SegmentControllerV {
    pub open spec fn wf(self) -> bool {
        &&& 1 <= self.sid <= 7
        &&& self.command.len() == self.n_modes
        &&& self.feedback.len() == self.n_modes
        &&& self.integ.len() == self.n_modes
        &&& self.face_sheet.len() == 2 * self.n_modes
        &&& self.rigid_body.len() == self.n_modes
    }
}

/// The built-in control law: the face-sheet output is the proportional error
/// (command minus feedback) followed by the integrator state, and the
/// rigid-body output echoes the feedback.
pub open spec fn law_face(cmd: Seq<i64>, fb: Seq<i64>, integ: Seq<i64>) -> Seq<i64> {
    sub_seq(cmd, fb) + integ
}

/// One mirror-segment controller: the latest command and feedback it was
/// dispatched, its internal integrator state, and its latest output pair.
#[derive(Debug)]
pub struct SegmentController {
    sid: u8,
    n_modes: usize,
    command: Vec<i64>,
    feedback: Vec<i64>,
    integ: Vec<i64>,
    face_sheet: Vec<i64>,
    rigid_body: Vec<i64>,
}

impl View for SegmentController {
    type V = SegmentControllerV;

    closed spec fn view(&self) -> SegmentControllerV {
        SegmentControllerV {
            sid: self.sid,
            n_modes: self.n_modes,
            command: self.command@,
            feedback: self.feedback@,
            integ: self.integ@,
            face_sheet: self.face_sheet@,
            rigid_body: self.rigid_body@,
        }
    }
}

impl SegmentController {
    /// The value of a freshly built controller: all state zeroed.
    pub open spec fn new_spec(sid: u8, n_modes: usize) -> SegmentControllerV {
        SegmentControllerV {
            sid,
            n_modes,
            command: Seq::new(n_modes as nat, |i: int| 0i64),
            feedback: Seq::new(n_modes as nat, |i: int| 0i64),
            integ: Seq::new(n_modes as nat, |i: int| 0i64),
            face_sheet: Seq::new(2 * (n_modes as nat), |i: int| 0i64),
            rigid_body: Seq::new(n_modes as nat, |i: int| 0i64),
        }
    }

    /// A controller for one segment id with all state zeroed.
    pub fn new(sid: u8, n_modes: usize) -> (r: SegmentController)
        requires
            1 <= sid <= 7,
            2 * n_modes <= usize::MAX,
        ensures
            r@ == SegmentController::new_spec(sid, n_modes),
            r@.wf(),
    {
        SegmentController {
            sid,
            n_modes,
            command: zero_values(n_modes),
            feedback: zero_values(n_modes),
            integ: zero_values(n_modes),
            face_sheet: zero_values(2 * n_modes),
            rigid_body: zero_values(n_modes),
        }
    }

    pub fn sid(&self) -> (r: u8)
        ensures
            r == self@.sid,
    {
        self.sid
    }

    pub fn n_modes(&self) -> (r: usize)
        ensures
            r == self@.n_modes,
    {
        self.n_modes
    }

    /// The latest face-sheet force vector.
    pub fn face_sheet(&self) -> (r: &Vec<i64>)
        ensures
            r@ == self@.face_sheet,
    {
        &self.face_sheet
    }

    /// The latest rigid-body force vector.
    pub fn rigid_body(&self) -> (r: &Vec<i64>)
        ensures
            r@ == self@.rigid_body,
    {
        &self.rigid_body
    }

    /// The internal integrator state.
    pub fn integ(&self) -> (r: &Vec<i64>)
        ensures
            r@ == self@.integ,
    {
        &self.integ
    }

    /// The latest command vector the controller was dispatched.
    pub fn command(&self) -> (r: &Vec<i64>)
        ensures
            r@ == self@.command,
    {
        &self.command
    }

    /// The latest feedback vector the controller was dispatched.
    pub fn feedback(&self) -> (r: &Vec<i64>)
        ensures
            r@ == self@.feedback,
    {
        &self.feedback
    }

    /// The same controller with the face-sheet output replaced.
    fn with_face_sheet(&self, face_sheet: Vec<i64>) -> (r: SegmentController)
        ensures
            r@ == (SegmentControllerV { face_sheet: face_sheet@, ..self@ }),
    {
        SegmentController {
            sid: self.sid,
            n_modes: self.n_modes,
            command: copy_values(&self.command),
            feedback: copy_values(&self.feedback),
            integ: copy_values(&self.integ),
            face_sheet,
            rigid_body: copy_values(&self.rigid_body),
        }
    }

    /// The same controller with the integrator state replaced.
    fn with_integ(&self, integ: Vec<i64>) -> (r: SegmentController)
        ensures
            r@ == (SegmentControllerV { integ: integ@, ..self@ }),
    {
        SegmentController {
            sid: self.sid,
            n_modes: self.n_modes,
            command: copy_values(&self.command),
            feedback: copy_values(&self.feedback),
            integ,
            face_sheet: copy_values(&self.face_sheet),
            rigid_body: copy_values(&self.rigid_body),
        }
    }

    /// Runs the control law once against a command and a feedback vector,
    /// returning the updated controller together with the face-sheet and
    /// rigid-body force vectors it produced.
    fn actuated(&self, command: &Vec<i64>, feedback: &Vec<i64>) -> (r: Result<
        (SegmentController, Vec<i64>, Vec<i64>),
        TransformError,
    >)
        requires
            self@.wf(),
            command@.len() == self@.n_modes,
            feedback@.len() == self@.n_modes,
        ensures
            r is Ok <==> sub_in_range(command@, feedback@),
            r is Ok ==> ({
                let (c, face, rigid) = r->Ok_0;
                &&& c@ == (SegmentControllerV {
                    command: command@,
                    feedback: feedback@,
                    face_sheet: law_face(command@, feedback@, self@.integ),
                    rigid_body: feedback@,
                    ..self@
                })
                &&& c@.wf()
                &&& face@ == law_face(command@, feedback@, self@.integ)
                &&& rigid@ == feedback@
            }),
            r is Err ==> r->Err_0 == TransformError::Overflow,
    {
        let cp = match sub_vec(command, feedback) {
            Ok(v) => v,
            Err(e) => {
                return Err(e);
            },
        };
        let mut face = cp;
        let mut i: usize = 0;
        while i < self.integ.len()
            invariant
                face@ =~= sub_seq(command@, feedback@) + self.integ@.take(i as int),
                i <= self.integ@.len(),
            decreases self.integ@.len() - i,
        {
            face.push(self.integ[i]);
            i = i + 1;
        }
        proof {
            assert(self.integ@.take(self.integ@.len() as int) =~= self.integ@);
            assert(face@ =~= law_face(command@, feedback@, self@.integ));
        }
        let rigid = copy_values(feedback);
        let c = SegmentController {
            sid: self.sid,
            n_modes: self.n_modes,
            command: copy_values(command),
            feedback: copy_values(feedback),
            integ: copy_values(&self.integ),
            face_sheet: copy_values(&face),
            rigid_body: copy_values(&rigid),
        };
        Ok((c, face, rigid))
    }
}

/// The mathematical value of the aggregate.
#[verifier::ext_equal]
pub struct AsmsV {
    pub controllers: Seq<SegmentControllerV>,
    pub modal_forces_gain: i64,
    pub fluid_damping_gain: i64,
    pub schema: SliceSchema,
    pub n_modes: usize,
}

impl AsmsV {
    pub open spec fn wf(self) -> bool {
        &&& self.controllers.len() <= 7
        &&& forall|i: int| #![trigger self.controllers[i]]
            0 <= i < self.controllers.len() ==> {
                &&& self.controllers[i].wf()
                &&& self.controllers[i].n_modes == self.n_modes
                &&& (i > 0 ==> self.controllers[i - 1].sid < self.controllers[i].sid)
            }
        &&& self.schema == (SliceSchema {
            cp_offset: 0,
            cp_len: self.n_modes,
            rb_offset: self.n_modes,
            rb_len: self.n_modes,
            total: (2 * self.n_modes) as usize,
        })
        &&& 2 * self.n_modes <= usize::MAX
    }
}

/// The concatenation of the segments' face-sheet vectors in storage order
/// (ascending segment id, by well-formedness).
pub open spec fn collected(cs: Seq<SegmentControllerV>) -> Seq<i64>
    decreases cs.len(),
{
    if cs.len() == 0 {
        Seq::empty()
    } else {
        collected(cs.drop_last()) + cs.last().face_sheet
    }
}

/// Whether one controller can advance without leaving the representable
/// range.
pub open spec fn advanceable(c: SegmentControllerV) -> bool {
    add_in_range(c.integ, c.feedback)
}

/// A controller after one activation step: the integrator accumulates the
/// latest feedback.
pub open spec fn advanced(c: SegmentControllerV) -> SegmentControllerV {
    SegmentControllerV { integ: add_seq(c.integ, c.feedback), ..c }
}

/// The first controller that cannot advance, or -1 when all can.
pub open spec fn first_stuck(cs: Seq<SegmentControllerV>) -> int
    decreases cs.len(),
{
    if cs.len() == 0 {
        -1
    } else if !advanceable(cs[0]) {
        0
    } else {
        let r = first_stuck(cs.drop_first());
        if r < 0 {
            -1
        } else {
            1 + r
        }
    }
}

/// The index of the controller for a segment id, or -1 when the aggregate
/// holds none for it.
pub open spec fn find_sid(cs: Seq<SegmentControllerV>, sid: u8) -> int
    decreases cs.len(),
{
    if cs.len() == 0 {
        -1
    } else if cs[0].sid == sid {
        0
    } else {
        let r = find_sid(cs.drop_first(), sid);
        if r < 0 {
            -1
        } else {
            1 + r
        }
    }
}

/// In a strictly ascending id sequence starting at 1 or above, the id at an
/// index is at least the index plus one.
proof fn lemma_ascending_floor(ids: Seq<u8>, i: int)
    requires
        0 <= i < ids.len(),
        forall|k: int| #![trigger ids[k]]
            0 <= k < ids.len() ==> 1 <= ids[k] && (k > 0 ==> ids[k - 1] < ids[k]),
    ensures
        ids[i] >= i + 1,
    decreases i,
{
    if i > 0 {
        lemma_ascending_floor(ids, i - 1);
    }
}

/// A prefix free of a segment id pins down where `find_sid` lands: at the
/// first match, or at -1 when the whole sequence is free of it.
proof fn lemma_find_sid(cs: Seq<SegmentControllerV>, sid: u8, i: int)
    requires
        0 <= i <= cs.len(),
        forall|j: int| #![trigger cs[j]] 0 <= j < i ==> cs[j].sid != sid,
    ensures
        i < cs.len() && cs[i].sid == sid ==> find_sid(cs, sid) == i,
        i == cs.len() ==> find_sid(cs, sid) == -1,
    decreases i,
{
    if cs.len() == 0 {
    } else if i == 0 {
        if cs[0].sid != sid {
        }
    } else {
        assert(cs[0].sid != sid);
        let rest = cs.drop_first();
        assert(forall|j: int| #![trigger rest[j]] 0 <= j < i - 1 ==> rest[j] == cs[j + 1]);
        lemma_find_sid(rest, sid, i - 1);
        if i < cs.len() && cs[i].sid == sid {
            assert(rest[i - 1] == cs[i]);
        }
    }
}

/// The segment-dispatch controller aggregate: up to seven per-segment
/// controllers in ascending segment-id order, plus the two run-wide gains.
#[derive(Debug)]
pub struct ASMS {
    controllers: Vec<SegmentController>,
    /// The proportional gain on the center-of-pressure modal forces.
    pub modal_forces_gain: i64,
    /// The gain on the rigid-body modal forces (fluid damping).
    pub fluid_damping_gain: i64,
    schema: SliceSchema,
    n_modes: usize,
}

/// The views of a vector of controllers, element for element.
pub open spec fn controller_views(cs: Seq<SegmentController>) -> Seq<SegmentControllerV> {
    Seq::new(cs.len(), |i: int| cs[i]@)
}

impl View for ASMS {
    type V = AsmsV;

    closed spec fn view(&self) -> AsmsV {
        AsmsV {
            controllers: controller_views(self.controllers@),
            modal_forces_gain: self.modal_forces_gain,
            fluid_damping_gain: self.fluid_damping_gain,
            schema: self.schema,
            n_modes: self.n_modes,
        }
    }
}

impl ASMS {
    /// The aggregate with one controller per segment id 1 through 7, all
    /// state zeroed, and both gains at the identity.
    pub fn new(n_modes: usize) -> (r: ASMS)
        requires
            2 * n_modes <= usize::MAX,
        ensures
            r@.wf(),
            r@.controllers.len() == 7,
            forall|i: int| #![trigger r@.controllers[i]]
                0 <= i < 7 ==> r@.controllers[i].sid == i + 1,
            r@.modal_forces_gain == 1,
            r@.fluid_damping_gain == 1,
            r@.n_modes == n_modes,
            forall|i: int| #![trigger r@.controllers[i]]
                0 <= i < 7 ==> r@.controllers[i] == SegmentController::new_spec(((i + 1) as u8),
                    n_modes,
                ),
    {
        let mut controllers: Vec<SegmentController> = Vec::new();
        let mut sid: u8 = 1;
        while sid <= 7
            invariant
                1 <= sid <= 8,
                2 * n_modes <= usize::MAX,
                controllers@.len() == sid - 1,
                forall|i: int| #![trigger controllers@[i]]
                    0 <= i < sid - 1 ==> controllers@[i]@ == SegmentController::new_spec(
                        ((i + 1) as u8),
                        n_modes,
                    ),
            decreases 8 - sid,
        {
            controllers.push(SegmentController::new(sid, n_modes));
            sid = sid + 1;
        }
        let schema = SliceSchema {
            cp_offset: 0,
            cp_len: n_modes,
            rb_offset: n_modes,
            rb_len: n_modes,
            total: 2 * n_modes,
        };
        ASMS {
            controllers,
            modal_forces_gain: 1,
            fluid_damping_gain: 1,
            schema,
            n_modes,
        }
    }

    /// An aggregate holding controllers for the given segment ids only, in
    /// the given order; the ids must be strictly ascending and each in the
    /// valid range 1..=7, so the storage order stays the ascending
    /// segment-id order that the output layout depends on.
    pub fn from_ids(ids: &Vec<u8>, n_modes: usize) -> (r: Result<ASMS, TransformError>)
        requires
            2 * n_modes <= usize::MAX,
        ensures
            r is Ok <==> (forall|k: int| #![trigger ids@[k]]
                0 <= k < ids@.len() ==> 1 <= ids@[k] <= 7 && (k > 0 ==> ids@[k - 1] < ids@[k])),
            r is Ok ==> ({
                let a = r->Ok_0@;
                &&& a.wf()
                &&& a.controllers.len() == ids@.len()
                &&& forall|k: int| #![trigger a.controllers[k]]
                    0 <= k < ids@.len() ==> a.controllers[k] == SegmentController::new_spec(
                        ids@[k],
                        n_modes,
                    )
                &&& a.modal_forces_gain == 1
                &&& a.fluid_damping_gain == 1
                &&& a.n_modes == n_modes
            }),
            r is Err ==> r->Err_0 is InvalidSegmentId,
    {
        let mut controllers: Vec<SegmentController> = Vec::new();
        let mut k: usize = 0;
        while k < ids.len()
            invariant
                k <= ids@.len(),
                2 * n_modes <= usize::MAX,
                controllers@.len() == k,
                forall|j: int| #![trigger ids@[j]]
                    0 <= j < k ==> 1 <= ids@[j] <= 7 && (j > 0 ==> ids@[j - 1] < ids@[j]),
                forall|j: int| #![trigger controllers@[j]]
                    0 <= j < k ==> controllers@[j]@ == SegmentController::new_spec(ids@[j], n_modes),
            decreases ids@.len() - k,
        {
            let sid = ids[k];
            if sid < 1 || sid > 7 {
                return Err(TransformError::InvalidSegmentId { segment_id: sid });
            }
            if k > 0 && ids[k - 1] >= sid {
                return Err(TransformError::InvalidSegmentId { segment_id: sid });
            }
            controllers.push(SegmentController::new(sid, n_modes));
            k = k + 1;
        }
        let schema = SliceSchema {
            cp_offset: 0,
            cp_len: n_modes,
            rb_offset: n_modes,
            rb_len: n_modes,
            total: 2 * n_modes,
        };
        proof {
            if ids@.len() > 7 {
                lemma_ascending_floor(ids@, 7);
            }
            let cv = controller_views(controllers@);
            assert forall|i: int| #![trigger cv[i]]
                0 <= i < cv.len() implies {
                &&& cv[i].wf()
                &&& cv[i].n_modes == n_modes
                &&& (i > 0 ==> cv[i - 1].sid < cv[i].sid)
            } by {
                assert(cv[i] == SegmentController::new_spec(ids@[i], n_modes));
                assert(1 <= ids@[i] <= 7);
                if i > 0 {
                    assert(cv[i - 1] == SegmentController::new_spec(ids@[i - 1], n_modes));
                    assert(ids@[i - 1] < ids@[i]);
                }
            }
        }
        Ok(ASMS {
            controllers,
            modal_forces_gain: 1,
            fluid_damping_gain: 1,
            schema,
            n_modes,
        })
    }

    /// Sets the proportional gain on the center-of-pressure modal forces.
    pub fn modal_forces_gain(self, modal_forces_gain: i64) -> (r: ASMS)
        ensures
            r@ == (AsmsV { modal_forces_gain, ..self@ }),
    {
        ASMS { modal_forces_gain, ..self }
    }

    /// Sets the gain on the rigid-body modal forces.
    pub fn fluid_damping_gain(self, fluid_damping_gain: i64) -> (r: ASMS)
        ensures
            r@ == (AsmsV { fluid_damping_gain, ..self@ }),
    {
        ASMS { fluid_damping_gain, ..self }
    }

    /// How many segment controllers the aggregate holds.
    pub fn n_segments(&self) -> (r: usize)
        ensures
            r == self@.controllers.len(),
    {
        self.controllers.len()
    }

    pub fn n_modes(&self) -> (r: usize)
        ensures
            r == self@.n_modes,
    {
        self.n_modes
    }

    /// The schema table locating the gain-scaled slices.
    pub fn schema(&self) -> (r: SliceSchema)
        ensures
            r == self@.schema,
    {
        self.schema
    }

    /// Read access to one controller by storage index.
    pub fn controller(&self, k: usize) -> (r: &SegmentController)
        requires
            k < self@.controllers.len(),
        ensures
            r@ == self@.controllers[k as int],
    {
        &self.controllers[k]
    }

    /// Routes a command and a feedback vector to the controller for a
    /// segment id, runs its law once, and returns the face-sheet and
    /// rigid-body force vectors it produced.  A segment id outside 1..=7, or
    /// one the aggregate holds no controller for, fails with
    /// `InvalidSegmentId` and mutates nothing; an overflow in the law fails
    /// with `Overflow` and mutates nothing.
    pub fn dispatch(&mut self, segment_id: u8, command: &Vec<i64>, feedback: &Vec<i64>) -> (r:
        Result<(Vec<i64>, Vec<i64>), TransformError>)
        requires
            old(self)@.wf(),
            command@.len() == old(self)@.n_modes,
            feedback@.len() == old(self)@.n_modes,
        ensures
            final(self)@.wf(),
            (!(1 <= segment_id <= 7) || find_sid(old(self)@.controllers, segment_id) < 0) ==> {
                &&& r == Err::<(Vec<i64>, Vec<i64>), TransformError>(
                    TransformError::InvalidSegmentId { segment_id },
                )
                &&& final(self)@ == old(self)@
            },
            (1 <= segment_id <= 7 && find_sid(old(self)@.controllers, segment_id) >= 0) ==> {
                let k = find_sid(old(self)@.controllers, segment_id);
                let c = old(self)@.controllers[k];
                &&& (r is Ok <==> sub_in_range(command@, feedback@))
                &&& r is Ok ==> ({
                    let (face, rigid) = r->Ok_0;
                    &&& face@ == law_face(command@, feedback@, c.integ)
                    &&& rigid@ == feedback@
                    &&& final(self)@ == (AsmsV {
                        controllers: old(self)@.controllers.update(
                            k,
                            SegmentControllerV {
                                command: command@,
                                feedback: feedback@,
                                face_sheet: law_face(command@, feedback@, c.integ),
                                rigid_body: feedback@,
                                ..c
                            },
                        ),
                        ..old(self)@
                    })
                })
                &&& r is Err ==> r == Err::<(Vec<i64>, Vec<i64>), TransformError>(
                    TransformError::Overflow,
                ) && final(self)@ == old(self)@
            },
    {
        if segment_id < 1 || segment_id > 7 {
            proof {
                let cs = old(self)@.controllers;
                assert forall|j: int| #![trigger cs[j]] 0 <= j < cs.len() implies cs[j].sid
                    != segment_id by {}
                lemma_find_sid(cs, segment_id, cs.len() as int);
            }
            return Err(TransformError::InvalidSegmentId { segment_id });
        }
        let n = self.controllers.len();
        let mut k: usize = 0;
        let mut found: bool = false;
        while !found && k < n
            invariant
                n == self@.controllers.len(),
                k <= n,
                self == old(self),
                found ==> k < n && self@.controllers[k as int].sid == segment_id,
                !found ==> forall|j: int| #![trigger self@.controllers[j]]
                    0 <= j < k ==> self@.controllers[j].sid != segment_id,
            decreases n - k + (if found { 0int } else { 1int }),
        {
            if self.controllers[k].sid() == segment_id {
                found = true;
            } else {
                k = k + 1;
            }
        }
        if !found {
            proof {
                lemma_find_sid(old(self)@.controllers, segment_id, n as int);
            }
            return Err(TransformError::InvalidSegmentId { segment_id });
        }
        proof {
            lemma_find_sid(old(self)@.controllers, segment_id, k as int);
            assert(find_sid(old(self)@.controllers, segment_id) == k);
        }
        let outcome = self.controllers[k].actuated(command, feedback);
        match outcome {
            Ok((c2, face, rigid)) => {
                let ghost c2v = c2@;
                self.controllers.set(k, c2);
                proof {
                    let oldv = old(self)@.controllers;
                    let newv = controller_views(self.controllers@);
                    assert(newv =~= oldv.update(k as int, c2v));
                    assert(final(self)@.controllers == oldv.update(k as int, c2v));
                    assert(c2v.sid == oldv[k as int].sid && c2v.n_modes == oldv[
                        k as int
                    ].n_modes);
                    assert forall|i: int| #![trigger newv[i]]
                        0 <= i < newv.len() implies {
                        &&& newv[i].wf()
                        &&& newv[i].n_modes == old(self)@.n_modes
                        &&& (i > 0 ==> newv[i - 1].sid < newv[i].sid)
                    } by {
                        assert(oldv[i].wf());
                        if i > 0 {
                            assert(oldv[i - 1].sid < oldv[i].sid);
                        }
                    }
                }
                Ok((face, rigid))
            },
            Err(e) => Err(e),
        }
    }

    /// Routes a command and a feedback vector to the controller named by a
    /// segment identity.  The identity cannot be out of range, so the only
    /// `InvalidSegmentId` failure left is an aggregate that holds no
    /// controller for the segment.
    pub fn dispatch_to(&mut self, id: AsmController, command: &Vec<i64>, feedback: &Vec<i64>) -> (r:
        Result<(Vec<i64>, Vec<i64>), TransformError>)
        requires
            old(self)@.wf(),
            command@.len() == old(self)@.n_modes,
            feedback@.len() == old(self)@.n_modes,
        ensures
            final(self)@.wf(),
            find_sid(old(self)@.controllers, id.segment_id_spec()) < 0 ==> {
                &&& r == Err::<(Vec<i64>, Vec<i64>), TransformError>(
                    TransformError::InvalidSegmentId { segment_id: id.segment_id_spec() },
                )
                &&& final(self)@ == old(self)@
            },
            find_sid(old(self)@.controllers, id.segment_id_spec()) >= 0 ==> {
                let k = find_sid(old(self)@.controllers, id.segment_id_spec());
                let c = old(self)@.controllers[k];
                &&& (r is Ok <==> sub_in_range(command@, feedback@))
                &&& r is Ok ==> ({
                    let (face, rigid) = r->Ok_0;
                    &&& face@ == law_face(command@, feedback@, c.integ)
                    &&& rigid@ == feedback@
                    &&& final(self)@ == (AsmsV {
                        controllers: old(self)@.controllers.update(
                            k,
                            SegmentControllerV {
                                command: command@,
                                feedback: feedback@,
                                face_sheet: law_face(command@, feedback@, c.integ),
                                rigid_body: feedback@,
                                ..c
                            },
                        ),
                        ..old(self)@
                    })
                })
                &&& r is Err ==> r == Err::<(Vec<i64>, Vec<i64>), TransformError>(
                    TransformError::Overflow,
                ) && final(self)@ == old(self)@
            },
    {
        let sid = id.segment_id();
        self.dispatch(sid, command, feedback)
    }

    /// Scales, for every segment, the center-of-pressure modal-force slice
    /// of the face-sheet output by the modal-forces gain and the rigid-body
    /// modal-force slice by the fluid-damping gain, leaving the rest of the
    /// vector untouched.  On overflow nothing is mutated.
    pub fn apply_gains(&mut self) -> (r: Result<(), TransformError>)
        requires
            old(self)@.wf(),
        ensures
            final(self)@.wf(),
            r is Ok <==> (forall|i: int| #![trigger old(self)@.controllers[i]]
                0 <= i < old(self)@.controllers.len() ==> gains_in_range(
                    old(self)@.controllers[i].face_sheet,
                    old(self)@.schema,
                    old(self)@.modal_forces_gain,
                    old(self)@.fluid_damping_gain,
                )),
            r is Ok ==> final(self)@ == (AsmsV {
                controllers: Seq::new(
                    old(self)@.controllers.len(),
                    |i: int| SegmentControllerV {
                        face_sheet: gains_applied(
                            old(self)@.controllers[i].face_sheet,
                            old(self)@.schema,
                            old(self)@.modal_forces_gain,
                            old(self)@.fluid_damping_gain,
                        ),
                        ..old(self)@.controllers[i]
                    },
                ),
                ..old(self)@
            }),
            r is Err ==> r == Err::<(), TransformError>(TransformError::Overflow) && final(self)@
                == old(self)@,
    {
        let ghost origv = self@;
        let n = self.controllers.len();
        let mut outs: Vec<Vec<i64>> = Vec::new();
        let mut i: usize = 0;
        while i < n
            invariant
                origv == old(self)@,
                self@ == origv,
                origv.wf(),
                n == origv.controllers.len(),
                i <= n,
                outs@.len() == i,
                forall|j: int| #![trigger outs@[j]]
                    0 <= j < i ==> outs@[j]@ == gains_applied(
                        origv.controllers[j].face_sheet,
                        origv.schema,
                        origv.modal_forces_gain,
                        origv.fluid_damping_gain,
                    ),
                forall|j: int| #![trigger origv.controllers[j]]
                    0 <= j < i ==> gains_in_range(
                        origv.controllers[j].face_sheet,
                        origv.schema,
                        origv.modal_forces_gain,
                        origv.fluid_damping_gain,
                    ),
            decreases n - i,
        {
            let c = &self.controllers[i];
            proof {
                assert(c@ == origv.controllers[i as int]);
                assert(origv.controllers[i as int].wf());
            }
            match scaled_face(
                c.face_sheet(),
                self.schema,
                self.modal_forces_gain,
                self.fluid_damping_gain,
            ) {
                Ok(f) => {
                    outs.push(f);
                },
                Err(e) => {
                    proof {
                        assert(!gains_in_range(
                            origv.controllers[i as int].face_sheet,
                            origv.schema,
                            origv.modal_forces_gain,
                            origv.fluid_damping_gain,
                        ));
                    }
                    return Err(e);
                },
            }
            i = i + 1;
        }
        let mut k: usize = 0;
        while k < n
            invariant
                n == self@.controllers.len(),
                n == origv.controllers.len(),
                origv.wf(),
                k <= n,
                outs@.len() == n - k,
                self@.modal_forces_gain == origv.modal_forces_gain,
                self@.fluid_damping_gain == origv.fluid_damping_gain,
                self@.schema == origv.schema,
                self@.n_modes == origv.n_modes,
                forall|j: int| #![trigger outs@[j]]
                    0 <= j < n - k ==> outs@[j]@ == gains_applied(
                        origv.controllers[j + k].face_sheet,
                        origv.schema,
                        origv.modal_forces_gain,
                        origv.fluid_damping_gain,
                    ),
                forall|j: int| #![trigger self@.controllers[j]]
                    k <= j < n ==> self@.controllers[j] == origv.controllers[j],
                forall|j: int| #![trigger self@.controllers[j]]
                    0 <= j < k ==> self@.controllers[j] == (SegmentControllerV {
                        face_sheet: gains_applied(
                            origv.controllers[j].face_sheet,
                            origv.schema,
                            origv.modal_forces_gain,
                            origv.fluid_damping_gain,
                        ),
                        ..origv.controllers[j]
                    }),
            decreases n - k,
        {
            let ghost prev = self@;
            let f = outs.remove(0);
            let c = &self.controllers[k];
            proof {
                assert(self@.controllers[k as int] == self.controllers@[k as int]@);
                assert(c@ == origv.controllers[k as int]);
            }
            let c2 = c.with_face_sheet(f);
            let ghost c2v = c2@;
            self.controllers.set(k, c2);
            proof {
                assert(self@.controllers =~= prev.controllers.update(k as int, c2v));
            }
            k = k + 1;
        }
        proof {
            let newv = self@.controllers;
            let goal = Seq::new(
                origv.controllers.len(),
                |i: int| SegmentControllerV {
                    face_sheet: gains_applied(
                        origv.controllers[i].face_sheet,
                        origv.schema,
                        origv.modal_forces_gain,
                        origv.fluid_damping_gain,
                    ),
                    ..origv.controllers[i]
                },
            );
            assert(newv =~= goal);
            assert forall|i: int| #![trigger newv[i]]
                0 <= i < newv.len() implies {
                &&& newv[i].wf()
                &&& newv[i].n_modes == origv.n_modes
                &&& (i > 0 ==> newv[i - 1].sid < newv[i].sid)
            } by {
                assert(origv.controllers[i].wf());
                if i > 0 {
                    assert(origv.controllers[i - 1].sid < origv.controllers[i].sid);
                }
            }
            assert(self@ =~= (AsmsV { controllers: goal, ..origv }));
        }
        Ok(())
    }

    /// Concatenates, in ascending segment-id order, every segment's
    /// (gain-processed) face-sheet output into the aggregate's single output
    /// vector.  The order is a binding external contract and is exactly the
    /// storage order of the controllers.
    pub fn collect_outputs(&self) -> (r: Vec<i64>)
        requires
            self@.wf(),
        ensures
            r@ == collected(self@.controllers),
    {
        let n = self.controllers.len();
        let mut out: Vec<i64> = Vec::new();
        let mut i: usize = 0;
        while i < n
            invariant
                self@.wf(),
                n == self@.controllers.len(),
                i <= n,
                out@ == collected(self@.controllers.take(i as int)),
            decreases n - i,
        {
            let face = self.controllers[i].face_sheet();
            let m = face.len();
            let mut j: usize = 0;
            while j < m
                invariant
                    i < self@.controllers.len(),
                    m == face@.len(),
                    face@ == self@.controllers[i as int].face_sheet,
                    j <= m,
                    out@ =~= collected(self@.controllers.take(i as int)) + face@.take(j as int),
                decreases m - j,
            {
                out.push(face[j]);
                j = j + 1;
            }
            proof {
                let pre = self@.controllers.take(i as int);
                let cur = self@.controllers.take(i + 1);
                assert(cur.drop_last() =~= pre);
                assert(cur.last() == self@.controllers[i as int]);
                assert(face@.take(m as int) =~= face@);
                assert(out@ =~= collected(cur));
            }
            i = i + 1;
        }
        proof {
            assert(self@.controllers.take(n as int) =~= self@.controllers);
        }
        out
    }

    /// Steps every segment controller's internal state by one activation:
    /// each integrator accumulates its latest feedback.  Fails fast with the
    /// first controller error encountered; controllers before the failing
    /// one stay advanced, the failing one and those after it stay unchanged.
    pub fn advance(&mut self) -> (r: Result<(), TransformError>)
        requires
            old(self)@.wf(),
        ensures
            final(self)@.wf(),
            r is Ok <==> first_stuck(old(self)@.controllers) == -1,
            r is Err ==> r == Err::<(), TransformError>(TransformError::Overflow),
            final(self)@ == (AsmsV {
                controllers: Seq::new(
                    old(self)@.controllers.len(),
                    |i: int|
                        if r is Ok || i < first_stuck(old(self)@.controllers) {
                            advanced(old(self)@.controllers[i])
                        } else {
                            old(self)@.controllers[i]
                        },
                ),
                ..old(self)@
            }),
    {
        let ghost origv = self@;
        let n = self.controllers.len();
        let mut i: usize = 0;
        while i < n
            invariant
                origv == old(self)@,
                n == self@.controllers.len(),
                n == origv.controllers.len(),
                i <= n,
                self@.modal_forces_gain == origv.modal_forces_gain,
                self@.fluid_damping_gain == origv.fluid_damping_gain,
                self@.schema == origv.schema,
                self@.n_modes == origv.n_modes,
                origv.wf(),
                forall|j: int| #![trigger self@.controllers[j]]
                    0 <= j < i ==> self@.controllers[j] == advanced(origv.controllers[j]),
                forall|j: int| #![trigger self@.controllers[j]]
                    i <= j < n ==> self@.controllers[j] == origv.controllers[j],
                forall|j: int| #![trigger origv.controllers[j]]
                    0 <= j < i ==> advanceable(origv.controllers[j]),
            decreases n - i,
        {
            let ghost prev = self@;
            let c = &self.controllers[i];
            proof {
                assert(self@.controllers[i as int] == self.controllers@[i as int]@);
                assert(c@ == origv.controllers[i as int]);
                assert(origv.controllers[i as int].wf());
            }
            match add_vec(c.integ(), c.feedback()) {
                Ok(v) => {
                    let c2 = c.with_integ(v);
                    let ghost c2v = c2@;
                    self.controllers.set(i, c2);
                    proof {
                        assert(self@.controllers =~= prev.controllers.update(i as int, c2v));
                        assert(c2v == advanced(origv.controllers[i as int]));
                    }
                },
                Err(e) => {
                    proof {
                        lemma_first_stuck_at(origv.controllers, i as int);
                        assert(self@.controllers =~= Seq::new(
                            origv.controllers.len(),
                            |j: int|
                                if j < i as int {
                                    advanced(origv.controllers[j])
                                } else {
                                    origv.controllers[j]
                                },
                        ));
                        lemma_advance_preserves_wf(origv, self@.controllers);
                        assert(self@ =~= (AsmsV {
                            controllers: Seq::new(
                                origv.controllers.len(),
                                |j: int|
                                    if j < i as int {
                                        advanced(origv.controllers[j])
                                    } else {
                                        origv.controllers[j]
                                    },
                            ),
                            ..origv
                        }));
                    }
                    return Err(e);
                },
            }
            i = i + 1;
        }
        proof {
            lemma_first_stuck_none(origv.controllers);
            assert(self@.controllers =~= Seq::new(
                origv.controllers.len(),
                |j: int| advanced(origv.controllers[j]),
            ));
            lemma_advance_preserves_wf(origv, self@.controllers);
            assert(self@ =~= (AsmsV {
                controllers: Seq::new(
                    origv.controllers.len(),
                    |j: int| advanced(origv.controllers[j]),
                ),
                ..origv
            }));
        }
        Ok(())
    }
}

/// When every controller before an index can advance and the one at the
/// index cannot, that index is exactly the first stuck one.
proof fn lemma_first_stuck_at(cs: Seq<SegmentControllerV>, i: int)
    requires
        0 <= i < cs.len(),
        forall|j: int| #![trigger cs[j]] 0 <= j < i ==> advanceable(cs[j]),
        !advanceable(cs[i]),
    ensures
        first_stuck(cs) == i,
    decreases i,
{
    if i == 0 {
    } else {
        let rest = cs.drop_first();
        assert(forall|j: int| #![trigger rest[j]] 0 <= j < rest.len() ==> rest[j] == cs[j + 1]);
        lemma_first_stuck_at(rest, i - 1);
    }
}

/// When every controller can advance, none is stuck.
proof fn lemma_first_stuck_none(cs: Seq<SegmentControllerV>)
    requires
        forall|j: int| #![trigger cs[j]] 0 <= j < cs.len() ==> advanceable(cs[j]),
    ensures
        first_stuck(cs) == -1,
    decreases cs.len(),
{
    if cs.len() > 0 {
        let rest = cs.drop_first();
        assert(forall|j: int| #![trigger rest[j]] 0 <= j < rest.len() ==> rest[j] == cs[j + 1]);
        lemma_first_stuck_none(rest);
    }
}

/// A mixture of advanced and unchanged controllers keeps the aggregate's
/// well-formedness: advancing changes neither a controller's id nor its
/// vector lengths.
proof fn lemma_advance_preserves_wf(a: AsmsV, cs: Seq<SegmentControllerV>)
    requires
        a.wf(),
        cs.len() == a.controllers.len(),
        forall|j: int| #![trigger cs[j]]
            0 <= j < cs.len() ==> cs[j] == advanced(a.controllers[j]) || cs[j] == a.controllers[j],
    ensures
        (AsmsV { controllers: cs, ..a }).wf(),
{
    assert forall|i: int| #![trigger cs[i]]
        0 <= i < cs.len() implies {
        &&& cs[i].wf()
        &&& cs[i].n_modes == a.n_modes
        &&& (i > 0 ==> cs[i - 1].sid < cs[i].sid)
    } by {
        assert(a.controllers[i].wf());
        if i > 0 {
            assert(a.controllers[i - 1].sid < a.controllers[i].sid);
        }
    }
}

/// Gain application commutes with zero input: applying any pair of gains to
/// an all-zero face-sheet vector is always in range and yields the all-zero
/// vector again, regardless of the gain values.
pub proof fn lemma_gains_zero(s: SliceSchema, mg: i64, fg: i64, n: nat)
    ensures
        gains_in_range(Seq::new(n, |i: int| 0i64), s, mg, fg),
        gains_applied(Seq::new(n, |i: int| 0i64), s, mg, fg) =~= Seq::new(n, |i: int| 0i64),
{
    let z = Seq::new(n, |i: int| 0i64);
    assert forall|i: int| #![trigger z[i]]
        0 <= i < z.len() implies {
        &&& (s.in_cp(i) ==> i64::MIN <= z[i] * mg <= i64::MAX)
        &&& (s.in_rb(i) ==> i64::MIN <= z[i] * fg <= i64::MAX)
    } by {
        assert(z[i] == 0i64);
        assert(0 * mg == 0) by (nonlinear_arith);
        assert(0 * fg == 0) by (nonlinear_arith);
    }
    assert forall|i: int| 0 <= i < n implies #[trigger] gains_applied(z, s, mg, fg)[i]
        == 0i64 by {
        assert(z[i] == 0i64);
        assert(0 * mg == 0) by (nonlinear_arith);
        assert(0 * fg == 0) by (nonlinear_arith);
    }
}

/// Gain application is linear: on the elementwise sum of two face-sheet
/// vectors it equals the elementwise sum of the two gain applications,
/// whenever the sum and the scaled vectors stay representable.
pub proof fn lemma_gains_linear(x: Seq<i64>, y: Seq<i64>, s: SliceSchema, mg: i64, fg: i64)
    requires
        x.len() == y.len(),
        add_in_range(x, y),
        gains_in_range(x, s, mg, fg),
        gains_in_range(y, s, mg, fg),
        gains_in_range(add_seq(x, y), s, mg, fg),
    ensures
        add_in_range(gains_applied(x, s, mg, fg), gains_applied(y, s, mg, fg)),
        gains_applied(add_seq(x, y), s, mg, fg) =~= add_seq(
            gains_applied(x, s, mg, fg),
            gains_applied(y, s, mg, fg),
        ),
{
    let gx = gains_applied(x, s, mg, fg);
    let gy = gains_applied(y, s, mg, fg);
    let gsum = gains_applied(add_seq(x, y), s, mg, fg);
    assert forall|i: int| 0 <= i < x.len() implies i64::MIN <= #[trigger] (gx[i] + gy[i])
        <= i64::MAX && gsum[i] == gx[i] + gy[i] by {
        assert(add_seq(x, y)[i] == (x[i] + y[i]) as i64);
        if s.in_cp(i) {
            assert((x[i] + y[i]) * mg == x[i] * mg + y[i] * mg) by (nonlinear_arith);
        } else if s.in_rb(i) {
            assert((x[i] + y[i]) * fg == x[i] * fg + y[i] * fg) by (nonlinear_arith);
        }
    }
    assert forall|i: int| #![trigger gx[i]]
        0 <= i < gx.len() implies i64::MIN <= gx[i] + gy[i] <= i64::MAX by {
        assert(i64::MIN <= gx[i] + gy[i] <= i64::MAX);
    }
}

/// Scales the schema slices of one face-sheet vector by the two gains,
/// checking every product for overflow.
fn scaled_face(face: &Vec<i64>, s: SliceSchema, mg: i64, fg: i64) -> (r: Result<
    Vec<i64>,
    TransformError,
>)
    requires
        s.wf(),
    ensures
        r is Ok <==> gains_in_range(face@, s, mg, fg),
        r is Ok ==> r->Ok_0@ == gains_applied(face@, s, mg, fg),
        r is Err ==> r == Err::<Vec<i64>, TransformError>(TransformError::Overflow),
{
    let n = face.len();
    let mut out: Vec<i64> = Vec::new();
    let mut i: usize = 0;
    while i < n
        invariant
            s.wf(),
            n == face@.len(),
            i <= n,
            out@ =~= gains_applied(face@, s, mg, fg).take(i as int),
            forall|j: int| #![trigger face@[j]]
                0 <= j < i ==> {
                    &&& (s.in_cp(j) ==> i64::MIN <= face@[j] * mg <= i64::MAX)
                    &&& (s.in_rb(j) ==> i64::MIN <= face@[j] * fg <= i64::MAX)
                },
        decreases n - i,
    {
        let in_cp = s.cp_offset <= i && i < s.cp_offset + s.cp_len;
        let in_rb = s.rb_offset <= i && i < s.rb_offset + s.rb_len;
        if in_cp {
            match face[i].checked_mul(mg) {
                Some(v) => {
                    out.push(v);
                },
                None => {
                    return Err(TransformError::Overflow);
                },
            }
        } else if in_rb {
            match face[i].checked_mul(fg) {
                Some(v) => {
                    out.push(v);
                },
                None => {
                    return Err(TransformError::Overflow);
                },
            }
        } else {
            out.push(face[i]);
        }
        i = i + 1;
    }
    proof {
        assert(out@ =~= gains_applied(face@, s, mg, fg));
    }
    Ok(out)
}

} // verus!
