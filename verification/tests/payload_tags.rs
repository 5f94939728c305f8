use asms::errors::TransformError;
use asms::errors::ValidationError;
use asms::payload::Payload;
use asms::payload::Tag;

#[test]
fn tag_carries_id_and_len() {
    let t = Tag::new(3, 5);
    assert_eq!(t.id, 3);
    assert_eq!(t.len, 5);
}

#[test]
fn payload_new_accepts_matching_length() {
    let t = Tag::new(1, 3);
    let p = Payload::new(t, vec![1, 2, 3]).unwrap();
    assert_eq!(p.tag(), t);
    assert_eq!(p.len(), 3);
    assert_eq!(p.values().as_slice(), &[1, 2, 3]);
}

#[test]
fn payload_new_rejects_length_mismatch() {
    let t = Tag::new(1, 3);
    let r = Payload::new(t, vec![1, 2]);
    assert_eq!(r.unwrap_err(), ValidationError::LengthMismatch { expected: 3, got: 2 });
}

#[test]
fn payload_zero_is_all_zero_of_tag_length() {
    let t = Tag::new(9, 4);
    let z = Payload::zero(t);
    assert_eq!(z.tag(), t);
    assert_eq!(z.values().as_slice(), &[0, 0, 0, 0]);
}

#[test]
fn payload_add_is_elementwise() {
    let t = Tag::new(2, 3);
    let a = Payload::new(t, vec![1, -2, 30]).unwrap();
    let b = Payload::new(t, vec![4, 5, -6]).unwrap();
    let s = a.add(&b).unwrap();
    assert_eq!(s.tag(), t);
    assert_eq!(s.values().as_slice(), &[5, 3, 24]);
}

#[test]
fn payload_add_reports_overflow() {
    let t = Tag::new(2, 2);
    let a = Payload::new(t, vec![i64::MAX, 1]).unwrap();
    let b = Payload::new(t, vec![1, 1]).unwrap();
    assert_eq!(a.add(&b).unwrap_err(), TransformError::Overflow);
}

#[test]
fn payload_scale_is_elementwise() {
    let t = Tag::new(2, 3);
    let a = Payload::new(t, vec![1, -2, 30]).unwrap();
    let s = a.scale(-3).unwrap();
    assert_eq!(s.values().as_slice(), &[-3, 6, -90]);
}

#[test]
fn payload_scale_reports_overflow() {
    let t = Tag::new(2, 1);
    let a = Payload::new(t, vec![i64::MAX]).unwrap();
    assert_eq!(a.scale(2).unwrap_err(), TransformError::Overflow);
}

#[test]
fn payload_retag_keeps_values() {
    let t = Tag::new(2, 2);
    let u = Tag::new(7, 2);
    let a = Payload::new(t, vec![8, 9]).unwrap();
    let b = a.retag(u);
    assert_eq!(b.tag(), u);
    assert_eq!(b.values().as_slice(), &[8, 9]);
}
