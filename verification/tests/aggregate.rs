use asms::errors::TransformError;
use asms::segments::AsmController;
use asms::segments::ASMS;

#[test]
fn new_has_seven_ascending_segments() {
    let a = ASMS::new(2);
    assert_eq!(a.n_segments(), 7);
    for k in 0..7 {
        assert_eq!(a.controller(k).sid(), (k + 1) as u8);
        assert_eq!(a.controller(k).n_modes(), 2);
        assert_eq!(a.controller(k).face_sheet().as_slice(), &[0, 0, 0, 0]);
        assert_eq!(a.controller(k).rigid_body().as_slice(), &[0, 0]);
    }
    assert_eq!(a.modal_forces_gain, 1);
    assert_eq!(a.fluid_damping_gain, 1);
}

#[test]
fn from_ids_builds_a_subset() {
    let a = ASMS::from_ids(&vec![2, 5, 7], 3).unwrap();
    assert_eq!(a.n_segments(), 3);
    assert_eq!(a.controller(0).sid(), 2);
    assert_eq!(a.controller(1).sid(), 5);
    assert_eq!(a.controller(2).sid(), 7);
}

#[test]
fn from_ids_rejects_out_of_range() {
    assert!(matches!(
        ASMS::from_ids(&vec![1, 8], 2),
        Err(TransformError::InvalidSegmentId { segment_id: 8 })
    ));
    assert!(matches!(
        ASMS::from_ids(&vec![0], 2),
        Err(TransformError::InvalidSegmentId { segment_id: 0 })
    ));
}

#[test]
fn from_ids_rejects_unordered_ids() {
    assert!(matches!(
        ASMS::from_ids(&vec![3, 2], 2),
        Err(TransformError::InvalidSegmentId { segment_id: 2 })
    ));
    assert!(matches!(
        ASMS::from_ids(&vec![4, 4], 2),
        Err(TransformError::InvalidSegmentId { segment_id: 4 })
    ));
}

#[test]
fn dispatch_runs_the_law_and_stores_the_outputs() {
    let mut a = ASMS::new(2);
    let command = vec![10, 20];
    let feedback = vec![1, 2];
    let (face, rigid) = a.dispatch(3, &command, &feedback).unwrap();
    // face sheet = (command - feedback) ++ integrator state (still zero)
    assert_eq!(face.as_slice(), &[9, 18, 0, 0]);
    assert_eq!(rigid.as_slice(), &[1, 2]);
    let c = a.controller(2);
    assert_eq!(c.sid(), 3);
    assert_eq!(c.command().as_slice(), &[10, 20]);
    assert_eq!(c.feedback().as_slice(), &[1, 2]);
    assert_eq!(c.face_sheet().as_slice(), &[9, 18, 0, 0]);
    assert_eq!(c.rigid_body().as_slice(), &[1, 2]);
    // every other segment untouched
    for k in [0usize, 1, 3, 4, 5, 6] {
        assert_eq!(a.controller(k).face_sheet().as_slice(), &[0, 0, 0, 0]);
    }
}

#[test]
fn dispatch_zero_segment_id_fails_without_mutation() {
    let mut a = ASMS::new(2);
    a.dispatch(4, &vec![5, 5], &vec![1, 1]).unwrap();
    let before: Vec<Vec<i64>> = (0..7).map(|k| a.controller(k).face_sheet().clone()).collect();
    let r = a.dispatch(0, &vec![9, 9], &vec![9, 9]);
    assert_eq!(r.unwrap_err(), TransformError::InvalidSegmentId { segment_id: 0 });
    for k in 0..7 {
        assert_eq!(a.controller(k).face_sheet(), &before[k]);
    }
}

#[test]
fn dispatch_segment_id_eight_fails_without_mutation() {
    let mut a = ASMS::new(2);
    let r = a.dispatch(8, &vec![9, 9], &vec![9, 9]);
    assert_eq!(r.unwrap_err(), TransformError::InvalidSegmentId { segment_id: 8 });
    for k in 0..7 {
        assert_eq!(a.controller(k).face_sheet().as_slice(), &[0, 0, 0, 0]);
        assert_eq!(a.controller(k).command().as_slice(), &[0, 0]);
    }
}

#[test]
fn dispatch_overflow_fails_without_mutation() {
    let mut a = ASMS::new(1);
    let r = a.dispatch(1, &vec![i64::MAX], &vec![-1]);
    assert_eq!(r.unwrap_err(), TransformError::Overflow);
    assert_eq!(a.controller(0).command().as_slice(), &[0]);
    assert_eq!(a.controller(0).face_sheet().as_slice(), &[0, 0]);
}

#[test]
fn apply_gains_on_all_zero_output_stays_zero() {
    // zero input commutes with gain application whatever the gains are
    let mut a = ASMS::new(3).modal_forces_gain(12345).fluid_damping_gain(-99999);
    a.apply_gains().unwrap();
    for k in 0..7 {
        assert_eq!(a.controller(k).face_sheet().as_slice(), &[0, 0, 0, 0, 0, 0]);
    }
}

#[test]
fn apply_gains_scales_the_schema_slices() {
    let mut a = ASMS::new(2).modal_forces_gain(2).fluid_damping_gain(-3);
    a.dispatch(1, &vec![10, 20], &vec![1, 2]).unwrap();
    a.advance().unwrap(); // integ = [1, 2]
    a.dispatch(1, &vec![10, 20], &vec![1, 2]).unwrap();
    // face sheet before gains: [9, 18, 1, 2]
    a.apply_gains().unwrap();
    assert_eq!(a.controller(0).face_sheet().as_slice(), &[18, 36, -3, -6]);
}

#[test]
fn apply_gains_overflow_mutates_nothing() {
    let mut a = ASMS::new(1).modal_forces_gain(2);
    a.dispatch(1, &vec![i64::MAX], &vec![0]).unwrap();
    let before = a.controller(0).face_sheet().clone();
    assert_eq!(a.apply_gains().unwrap_err(), TransformError::Overflow);
    assert_eq!(a.controller(0).face_sheet(), &before);
}

#[test]
fn collect_outputs_concatenates_in_ascending_segment_order() {
    let mut a = ASMS::from_ids(&vec![2, 6], 1).unwrap();
    a.dispatch(2, &vec![5], &vec![1]).unwrap(); // face [4, 0]
    a.dispatch(6, &vec![9], &vec![2]).unwrap(); // face [7, 0]
    let out = a.collect_outputs();
    assert_eq!(out.as_slice(), &[4, 0, 7, 0]);
}

#[test]
fn advance_accumulates_feedback_into_the_integrator() {
    let mut a = ASMS::new(2);
    a.dispatch(5, &vec![0, 0], &vec![3, -4]).unwrap();
    a.advance().unwrap();
    assert_eq!(a.controller(4).integ().as_slice(), &[3, -4]);
    a.advance().unwrap();
    assert_eq!(a.controller(4).integ().as_slice(), &[6, -8]);
    // the integrator term shows up in the next face-sheet output
    let (face, _) = a.dispatch(5, &vec![1, 1], &vec![0, 0]).unwrap();
    assert_eq!(face.as_slice(), &[1, 1, 6, -8]);
}

#[test]
fn advance_fails_fast_at_the_first_stuck_controller() {
    let mut a = ASMS::from_ids(&vec![1, 2, 3], 1).unwrap();
    a.dispatch(1, &vec![0], &vec![10]).unwrap();
    a.dispatch(2, &vec![0], &vec![i64::MAX]).unwrap();
    a.dispatch(3, &vec![0], &vec![7]).unwrap();
    a.advance().unwrap(); // integ: [10], [MAX], [7]
    let r = a.advance(); // second add overflows on segment 2
    assert_eq!(r.unwrap_err(), TransformError::Overflow);
    // fail-fast: the controller before the stuck one advanced, the stuck
    // one and the one after it did not
    assert_eq!(a.controller(0).integ().as_slice(), &[20]);
    assert_eq!(a.controller(1).integ().as_slice(), &[i64::MAX]);
    assert_eq!(a.controller(2).integ().as_slice(), &[7]);
}

#[test]
fn gain_application_is_linear_in_the_face_sheet() {
    let processed = |cmd: Vec<i64>| {
        let mut a = ASMS::from_ids(&vec![1], 2).unwrap().modal_forces_gain(3).fluid_damping_gain(
            -5,
        );
        a.dispatch(1, &cmd, &vec![0, 0]).unwrap();
        a.apply_gains().unwrap();
        a.controller(0).face_sheet().clone()
    };
    let gx = processed(vec![6, 8]);
    let gy = processed(vec![10, 2]);
    let gsum = processed(vec![16, 10]);
    let combined: Vec<i64> = gx.iter().zip(gy.iter()).map(|(a, b)| a + b).collect();
    assert_eq!(gsum, combined);
}

#[test]
fn segment_identities_roundtrip_their_ids() {
    for sid in 1u8..=7 {
        let id = AsmController::from_segment_id(sid).unwrap();
        assert_eq!(id.segment_id(), sid);
    }
    assert!(AsmController::from_segment_id(0).is_none());
    assert!(AsmController::from_segment_id(8).is_none());
}

#[test]
fn dispatch_by_identity_reaches_the_named_segment() {
    let mut a = ASMS::new(1);
    let (face, rigid) = a.dispatch_to(AsmController::Six, &vec![9], &vec![4]).unwrap();
    assert_eq!(face.as_slice(), &[5, 0]);
    assert_eq!(rigid.as_slice(), &[4]);
    assert_eq!(a.controller(5).command().as_slice(), &[9]);
    // an aggregate holding a subset reports a missing segment
    let mut b = ASMS::from_ids(&vec![1, 2], 1).unwrap();
    let r = b.dispatch_to(AsmController::Seven, &vec![1], &vec![0]);
    assert_eq!(r.unwrap_err(), TransformError::InvalidSegmentId { segment_id: 7 });
}

#[test]
fn empty_aggregate_collects_nothing_and_advances_trivially() {
    let mut a = ASMS::from_ids(&vec![], 4).unwrap();
    assert_eq!(a.n_segments(), 0);
    assert_eq!(a.collect_outputs(), Vec::<i64>::new());
    a.advance().unwrap();
    a.apply_gains().unwrap();
}

#[test]
fn gain_builders_set_the_two_run_wide_gains() {
    let a = ASMS::new(1).modal_forces_gain(4).fluid_damping_gain(-9);
    assert_eq!(a.modal_forces_gain, 4);
    assert_eq!(a.fluid_damping_gain, -9);
}
