use omtools::error::OmError;
use omtools::range::AxisRange;
use omtools::transcode::{
    check_axis_order, invert_axis_order, permute_axes, TranscodePlan, WriteAction, WritePhase,
    WriteSession,
};

#[test]
fn permutation_round_trip() {
    let dims = vec![7u64, 5, 3];
    let order = vec![2usize, 0, 1];
    let moved = permute_axes(&dims, &order).unwrap();
    assert_eq!(moved, vec![3, 7, 5]);
    let back = invert_axis_order(&order);
    assert_eq!(back, vec![1, 2, 0]);
    assert_eq!(permute_axes(&moved, &back).unwrap(), dims);
}

#[test]
fn rejects_non_permutations() {
    assert!(!check_axis_order(&vec![0, 0, 1], 3));
    assert!(!check_axis_order(&vec![0, 1], 3));
    assert!(!check_axis_order(&vec![0, 1, 3], 3));
    assert!(check_axis_order(&vec![1, 2, 0], 3));
    assert_eq!(permute_axes(&vec![1, 2, 3], &vec![0, 1]), Err(OmError::ShapeMismatch));
}

#[test]
fn plan_moves_time_first_with_frame_chunks() {
    let plan = TranscodePlan::new(&vec![4, 6, 10]).unwrap();
    assert_eq!(plan.target_dimensions, vec![10, 4, 6]);
    assert_eq!(plan.target_chunks, vec![1, 4, 6]);
    assert_eq!(
        plan.slice_ranges(3),
        vec![
            AxisRange { start: 0, end: 4 },
            AxisRange { start: 0, end: 6 },
            AxisRange { start: 3, end: 4 }
        ]
    );
}

#[test]
fn plan_needs_three_positive_axes() {
    assert!(matches!(TranscodePlan::new(&vec![4, 6]), Err(OmError::ShapeMismatch)));
    assert!(matches!(TranscodePlan::new(&vec![4, 6, 0]), Err(OmError::ShapeMismatch)));
    assert!(matches!(TranscodePlan::new(&vec![4, 6, 1, 1]), Err(OmError::ShapeMismatch)));
}

#[test]
fn frame_size_does_not_depend_on_steps() {
    let short = TranscodePlan::new(&vec![4, 6, 10]).unwrap();
    let long = TranscodePlan::new(&vec![4, 6, 10_000]).unwrap();
    let size = |p: &TranscodePlan, t: u64| -> u64 {
        p.slice_ranges(t).iter().map(|r| r.end - r.start).product()
    };
    assert_eq!(size(&short, 9), 24);
    assert_eq!(size(&long, 9_999), 24);
    assert_eq!(short.target_chunks, long.target_chunks);
}

#[test]
fn session_runs_data_then_metadata_then_trailer() {
    let mut s = WriteSession::new(3);
    let mut actions = Vec::new();
    loop {
        let a = s.next_action();
        actions.push(a);
        if a == WriteAction::Done {
            break;
        }
        s.succeeded();
    }
    assert_eq!(
        actions,
        vec![
            WriteAction::AppendSlice(0),
            WriteAction::AppendSlice(1),
            WriteAction::AppendSlice(2),
            WriteAction::WriteMetadata,
            WriteAction::WriteTrailer,
            WriteAction::Done
        ]
    );
    assert!(s.is_finalized());
}

#[test]
fn failure_leaves_output_invalid() {
    let mut s = WriteSession::new(3);
    s.succeeded();
    s.failed();
    assert_eq!(s.phase, WritePhase::Failed);
    assert_eq!(s.next_action(), WriteAction::Abort);
    s.succeeded();
    assert_eq!(s.next_action(), WriteAction::Abort);
    assert!(!s.is_finalized());
}

#[test]
fn empty_source_writes_only_metadata() {
    let mut s = WriteSession::new(0);
    assert_eq!(s.next_action(), WriteAction::WriteMetadata);
    s.succeeded();
    assert_eq!(s.next_action(), WriteAction::WriteTrailer);
    s.succeeded();
    s.failed();
    assert!(s.is_finalized());
}
