use omtools::error::OmError;
use omtools::range::AxisRange;
use omtools::view::{step_back, step_forward, ChunkingMode};

#[test]
fn chunking_mode_in_any_case() {
    assert_eq!(ChunkingMode::from_str("spatial"), Some(ChunkingMode::Spatial));
    assert_eq!(ChunkingMode::from_str("SPATIAL"), Some(ChunkingMode::Spatial));
    assert_eq!(ChunkingMode::from_str("Temporal"), Some(ChunkingMode::Temporal));
    assert_eq!(ChunkingMode::from_str("time"), None);
    assert_eq!(ChunkingMode::from_lowercase("TEMPORAL"), None);
}

#[test]
fn temporal_frame_fixes_last_axis() {
    let q = ChunkingMode::Temporal.frame_request(&vec![4, 6, 10], 3).unwrap();
    assert_eq!((q.rows, q.cols), (4, 6));
    assert_eq!(
        q.ranges,
        vec![
            AxisRange { start: 0, end: 4 },
            AxisRange { start: 0, end: 6 },
            AxisRange { start: 3, end: 4 }
        ]
    );
}

#[test]
fn spatial_frame_fixes_first_axis() {
    let q = ChunkingMode::Spatial.frame_request(&vec![10, 4, 6], 9).unwrap();
    assert_eq!((q.rows, q.cols), (4, 6));
    assert_eq!(q.ranges[0], AxisRange { start: 9, end: 10 });
    assert!(matches!(
        ChunkingMode::Spatial.frame_request(&vec![10, 4, 6], 10),
        Err(OmError::OutOfBounds)
    ));
    assert!(matches!(
        ChunkingMode::Temporal.frame_request(&vec![10, 4], 0),
        Err(OmError::ShapeMismatch)
    ));
}

#[test]
fn stepping_stays_in_range() {
    assert_eq!(step_back(0), 0);
    assert_eq!(step_back(5), 4);
    assert_eq!(step_forward(3, 5), 4);
    assert_eq!(step_forward(4, 5), 4);
    assert_eq!(step_forward(0, 0), 0);
}

#[test]
fn frames_below_time_extent_succeed_with_equal_size() {
    let short = ChunkingMode::Temporal.frame_request(&vec![4, 6, 10], 0).unwrap();
    let long = ChunkingMode::Temporal.frame_request(&vec![4, 6, 10_000], 9_999).unwrap();
    let size = |q: &omtools::view::FrameRequest| -> u64 {
        q.ranges.iter().map(|r| r.end - r.start).product()
    };
    assert_eq!(size(&short), 24);
    assert_eq!(size(&long), 24);
    assert_eq!((long.rows, long.cols), (4, 6));
    let spatial = ChunkingMode::Spatial.frame_request(&vec![10, 4, 6], 0).unwrap();
    assert_eq!(size(&spatial), 24);
}
