//! Payloads and tags: the unit of data moving through the graph.
//!
//! A payload is an ordered, fixed-length vector of integer samples branded
//! with a tag; the tag fixes the expected vector length, and two payloads
//! with the same tag always have the same length.  Payloads are never
//! mutated after creation: every transform builds a new one.

use vstd::prelude::*;

use crate::errors::TransformError;
use crate::errors::ValidationError;

verus! {

/// A process-wide identifier for one kind of signal, carrying the fixed
/// vector length every payload of that kind must have.  Tags are compared by
/// identity and length both: two distinct tags are never compatible, even
/// with matching lengths.
#[derive(Clone, Copy, Debug, PartialEq, Eq, Structural)]
pub struct Tag {
    /// The unique identity of the signal kind.
    pub id: usize,
    /// The vector length every payload branded with this tag must have.
    pub len: usize,
}

impl Tag {
    pub fn new(id: usize, len: usize) -> (r: Tag)
        ensures
            r == (Tag { id, len }),
    {
        Tag { id, len }
    }
}

/// The mathematical value of a payload: its tag and its sample sequence.
#[verifier::ext_equal]
pub struct PayloadV {
    pub tag: Tag,
    pub values: Seq<i64>,
}

impl PayloadV {
    /// A payload is well formed when its sample count matches its tag's
    /// declared length.
    pub open spec fn wf(self) -> bool {
        self.values.len() == self.tag.len
    }

    /// The all-zero payload of a tag, used to pre-seed bootstrap edges.
    pub open spec fn zero(tag: Tag) -> PayloadV {
        PayloadV { tag, values: Seq::new(tag.len as nat, |i: int| 0i64) }
    }
}

/// Elementwise addition of two equal-length sample sequences stays
/// representable.
pub open spec fn add_in_range(a: Seq<i64>, b: Seq<i64>) -> bool {
    forall|i: int| #![trigger a[i]] 0 <= i < a.len() ==> i64::MIN <= a[i] + b[i] <= i64::MAX
}

/// Elementwise sum of two equal-length sample sequences.
pub open spec fn add_seq(a: Seq<i64>, b: Seq<i64>) -> Seq<i64> {
    Seq::new(a.len(), |i: int| (a[i] + b[i]) as i64)
}

/// Elementwise difference of two equal-length sample sequences stays
/// representable.
pub open spec fn sub_in_range(a: Seq<i64>, b: Seq<i64>) -> bool {
    forall|i: int| #![trigger a[i]] 0 <= i < a.len() ==> i64::MIN <= a[i] - b[i] <= i64::MAX
}

/// Elementwise difference of two equal-length sample sequences.
pub open spec fn sub_seq(a: Seq<i64>, b: Seq<i64>) -> Seq<i64> {
    Seq::new(a.len(), |i: int| (a[i] - b[i]) as i64)
}

/// Scaling a sample sequence by a gain stays representable.
pub open spec fn scale_in_range(a: Seq<i64>, k: i64) -> bool {
    forall|i: int| #![trigger a[i]] 0 <= i < a.len() ==> i64::MIN <= a[i] * k <= i64::MAX
}

/// A sample sequence scaled elementwise by a gain.
pub open spec fn scale_seq(a: Seq<i64>, k: i64) -> Seq<i64> {
    Seq::new(a.len(), |i: int| (a[i] * k) as i64)
}

/// A typed, fixed-length vector of integer samples.  Immutable once built.
#[derive(Debug)]
pub struct Payload {
    tag: Tag,
    values: Vec<i64>,
}

impl View for Payload {
    type V = PayloadV;

    closed spec fn view(&self) -> PayloadV {
        PayloadV { tag: self.tag, values: self.values@ }
    }
}

impl Payload {
    /// Builds a payload, rejecting a sample vector whose length disagrees
    /// with the tag's declared length.
    pub fn new(tag: Tag, values: Vec<i64>) -> (r: Result<Payload, ValidationError>)
        ensures
            r is Ok <==> values@.len() == tag.len,
            r is Ok ==> r->Ok_0@ == (PayloadV { tag, values: values@ }) && r->Ok_0@.wf(),
            r is Err ==> r->Err_0 == (ValidationError::LengthMismatch {
                expected: tag.len,
                got: values@.len() as usize,
            }),
    {
        if values.len() == tag.len {
            Ok(Payload { tag, values })
        } else {
            Err(ValidationError::LengthMismatch { expected: tag.len, got: values.len() })
        }
    }

    /// The all-zero payload of a tag.
    pub fn zero(tag: Tag) -> (r: Payload)
        ensures
            r@ == PayloadV::zero(tag),
            r@.wf(),
    {
        let mut values: Vec<i64> = Vec::new();
        let mut i: usize = 0;
        while i < tag.len
            invariant
                i <= tag.len,
                values@ =~= Seq::new(i as nat, |j: int| 0i64),
            decreases tag.len - i,
        {
            values.push(0i64);
            i = i + 1;
        }
        proof {
            assert(values@ =~= PayloadV::zero(tag).values);
        }
        Payload { tag, values }
    }

    pub fn tag(&self) -> (r: Tag)
        ensures
            r == self@.tag,
    {
        self.tag
    }

    pub fn len(&self) -> (r: usize)
        ensures
            r == self@.values.len(),
    {
        self.values.len()
    }

    /// Read access to the sample vector.
    pub fn values(&self) -> (r: &Vec<i64>)
        ensures
            r@ == self@.values,
    {
        &self.values
    }

    /// The sample at one index.
    pub fn value_at(&self, i: usize) -> (r: i64)
        requires
            i < self@.values.len(),
        ensures
            r == self@.values[i as int],
    {
        self.values[i]
    }

    /// Elementwise sum of two payloads of the same tag; fails with
    /// `Overflow` exactly when some elementwise sum leaves the representable
    /// range.
    pub fn add(&self, other: &Payload) -> (r: Result<Payload, TransformError>)
        requires
            self@.tag == other@.tag,
            self@.wf(),
            other@.wf(),
        ensures
            r is Ok <==> add_in_range(self@.values, other@.values),
            r is Ok ==> r->Ok_0@ == (PayloadV {
                tag: self@.tag,
                values: add_seq(self@.values, other@.values),
            }) && r->Ok_0@.wf(),
            r is Err ==> r == Err::<Payload, TransformError>(TransformError::Overflow),
    {
        let n = self.values.len();
        let mut out: Vec<i64> = Vec::new();
        let mut i: usize = 0;
        while i < n
            invariant
                n == self@.values.len(),
                n == other@.values.len(),
                i <= n,
                out@ =~= add_seq(self@.values, other@.values).take(i as int),
                forall|j: int| #![trigger self@.values[j]] 0 <= j < i ==> i64::MIN
                    <= self@.values[j] + other@.values[j] <= i64::MAX,
            decreases n - i,
        {
            match self.values[i].checked_add(other.values[i]) {
                Some(v) => {
                    out.push(v);
                },
                None => {
                    return Err(TransformError::Overflow);
                },
            }
            i = i + 1;
        }
        proof {
            assert(out@ =~= add_seq(self@.values, other@.values));
        }
        Ok(Payload { tag: self.tag, values: out })
    }

    /// The payload scaled elementwise by a gain; fails with `Overflow`
    /// exactly when some product leaves the representable range.
    pub fn scale(&self, k: i64) -> (r: Result<Payload, TransformError>)
        requires
            self@.wf(),
        ensures
            r is Ok <==> scale_in_range(self@.values, k),
            r is Ok ==> r->Ok_0@ == (PayloadV {
                tag: self@.tag,
                values: scale_seq(self@.values, k),
            }) && r->Ok_0@.wf(),
            r is Err ==> r == Err::<Payload, TransformError>(TransformError::Overflow),
    {
        let n = self.values.len();
        let mut out: Vec<i64> = Vec::new();
        let mut i: usize = 0;
        while i < n
            invariant
                n == self@.values.len(),
                i <= n,
                out@ =~= scale_seq(self@.values, k).take(i as int),
                forall|j: int| #![trigger self@.values[j]] 0 <= j < i ==> i64::MIN
                    <= self@.values[j] * k <= i64::MAX,
            decreases n - i,
        {
            match self.values[i].checked_mul(k) {
                Some(v) => {
                    out.push(v);
                },
                None => {
                    return Err(TransformError::Overflow);
                },
            }
            i = i + 1;
        }
        proof {
            assert(out@ =~= scale_seq(self@.values, k));
        }
        Ok(Payload { tag: self.tag, values: out })
    }

    /// An exact copy of the payload.
    pub fn duplicate(&self) -> (r: Payload)
        ensures
            r@ == self@,
    {
        Payload { tag: self.tag, values: copy_values(&self.values) }
    }

    /// Rebrands the sample vector under another tag of the same length.
    pub fn retag(&self, tag: Tag) -> (r: Payload)
        requires
            self@.wf(),
            tag.len == self@.tag.len,
        ensures
            r@ == (PayloadV { tag, values: self@.values }),
            r@.wf(),
    {
        Payload { tag, values: copy_values(&self.values) }
    }
}

/// The all-zero sample vector of a given length.
pub fn zero_values(n: usize) -> (r: Vec<i64>)
    ensures
        r@ == Seq::new(n as nat, |i: int| 0i64),
{
    let mut values: Vec<i64> = Vec::new();
    let mut i: usize = 0;
    while i < n
        invariant
            i <= n,
            values@ =~= Seq::new(i as nat, |j: int| 0i64),
        decreases n - i,
    {
        values.push(0i64);
        i = i + 1;
    }
    proof {
        assert(values@ =~= Seq::new(n as nat, |i: int| 0i64));
    }
    values
}

/// Elementwise checked sum of two equal-length sample vectors.
pub fn add_vec(a: &Vec<i64>, b: &Vec<i64>) -> (r: Result<Vec<i64>, TransformError>)
    requires
        a@.len() == b@.len(),
    ensures
        r is Ok <==> add_in_range(a@, b@),
        r is Ok ==> r->Ok_0@ == add_seq(a@, b@),
        r is Err ==> r == Err::<Vec<i64>, TransformError>(TransformError::Overflow),
{
    let n = a.len();
    let mut out: Vec<i64> = Vec::new();
    let mut i: usize = 0;
    while i < n
        invariant
            n == a@.len(),
            n == b@.len(),
            i <= n,
            out@ =~= add_seq(a@, b@).take(i as int),
            forall|j: int| #![trigger a@[j]] 0 <= j < i ==> i64::MIN <= a@[j] + b@[j] <= i64::MAX,
        decreases n - i,
    {
        match a[i].checked_add(b[i]) {
            Some(v) => {
                out.push(v);
            },
            None => {
                return Err(TransformError::Overflow);
            },
        }
        i = i + 1;
    }
    proof {
        assert(out@ =~= add_seq(a@, b@));
    }
    Ok(out)
}

/// Elementwise checked difference of two equal-length sample vectors.
pub fn sub_vec(a: &Vec<i64>, b: &Vec<i64>) -> (r: Result<Vec<i64>, TransformError>)
    requires
        a@.len() == b@.len(),
    ensures
        r is Ok <==> sub_in_range(a@, b@),
        r is Ok ==> r->Ok_0@ == sub_seq(a@, b@),
        r is Err ==> r == Err::<Vec<i64>, TransformError>(TransformError::Overflow),
{
    let n = a.len();
    let mut out: Vec<i64> = Vec::new();
    let mut i: usize = 0;
    while i < n
        invariant
            n == a@.len(),
            n == b@.len(),
            i <= n,
            out@ =~= sub_seq(a@, b@).take(i as int),
            forall|j: int| #![trigger a@[j]] 0 <= j < i ==> i64::MIN <= a@[j] - b@[j] <= i64::MAX,
        decreases n - i,
    {
        match a[i].checked_sub(b[i]) {
            Some(v) => {
                out.push(v);
            },
            None => {
                return Err(TransformError::Overflow);
            },
        }
        i = i + 1;
    }
    proof {
        assert(out@ =~= sub_seq(a@, b@));
    }
    Ok(out)
}

/// An element-for-element copy of a sample vector.
pub(crate) fn copy_values(v: &Vec<i64>) -> (r: Vec<i64>)
    ensures
        r@ == v@,
{
    let mut out: Vec<i64> = Vec::new();
    let mut i: usize = 0;
    while i < v.len()
        invariant
            i <= v@.len(),
            out@ =~= v@.take(i as int),
        decreases v@.len() - i,
    {
        out.push(v[i]);
        i = i + 1;
    }
    proof {
        assert(out@ =~= v@);
    }
    out
}

} // verus!
