use omtools::error::OmError;
use omtools::range::{check_ranges, chunk_span, parse_range, read_plan, AxisRange};

fn r(start: u64, end: u64) -> AxisRange {
    AxisRange { start, end }
}

#[test]
fn parses_start_and_end() {
    assert_eq!(parse_range("0..5"), Ok(r(0, 5)));
    assert_eq!(parse_range("12..345"), Ok(r(12, 345)));
    assert_eq!(parse_range("+3..4"), Ok(r(3, 4)));
    assert_eq!(parse_range("18446744073709551615..0"), Ok(r(u64::MAX, 0)));
}

#[test]
fn malformed_tokens() {
    assert_eq!(parse_range("5"), Err(OmError::Malformed));
    assert_eq!(parse_range(""), Err(OmError::Malformed));
    assert_eq!(parse_range(".."), Err(OmError::Malformed));
    assert_eq!(parse_range("a..3"), Err(OmError::Malformed));
    assert_eq!(parse_range("1...2"), Err(OmError::Malformed));
    assert_eq!(parse_range("1..2..3"), Err(OmError::Malformed));
    assert_eq!(parse_range("-1..2"), Err(OmError::Malformed));
    assert_eq!(parse_range("18446744073709551616..1"), Err(OmError::Malformed));
}

#[test]
fn reversed_range_fails_at_validation() {
    let parsed = parse_range("7..3").unwrap();
    assert_eq!(parsed, r(7, 3));
    assert_eq!(check_ranges(&vec![10], &vec![parsed]), Err(OmError::OutOfBounds));
}

#[test]
fn shape_follows_ranges() {
    let shape = check_ranges(&vec![10, 20, 30], &vec![r(0, 10), r(5, 6), r(3, 30)]).unwrap();
    assert_eq!(shape, vec![10, 1, 27]);
}

#[test]
fn out_of_bounds_and_empty_ranges() {
    assert_eq!(check_ranges(&vec![10, 20], &vec![r(0, 11), r(0, 1)]), Err(OmError::OutOfBounds));
    assert_eq!(check_ranges(&vec![10, 20], &vec![r(0, 10), r(4, 4)]), Err(OmError::OutOfBounds));
}

#[test]
fn range_count_must_match() {
    assert_eq!(check_ranges(&vec![10, 20], &vec![r(0, 10)]), Err(OmError::ShapeMismatch));
    assert_eq!(check_ranges(&vec![], &vec![r(0, 1)]), Err(OmError::ShapeMismatch));
}

#[test]
fn chunk_spans_cover_touched_chunks() {
    assert_eq!(chunk_span(r(0, 10), 4), r(0, 3));
    assert_eq!(chunk_span(r(4, 8), 4), r(1, 2));
    assert_eq!(chunk_span(r(3, 5), 4), r(0, 2));
    assert_eq!(chunk_span(r(9, 10), 3), r(3, 4));
}

#[test]
fn unchunked_read_of_whole_variable() {
    let plan = read_plan(&vec![2, 3], &vec![], &vec![r(0, 2), r(0, 3)]).unwrap();
    assert_eq!(plan.shape, vec![2, 3]);
    assert_eq!(plan.chunk_spans, vec![r(0, 1), r(0, 1)]);
    assert_eq!(plan.shape.iter().product::<u64>(), 6);
}

#[test]
fn chunked_read_plan() {
    let plan = read_plan(&vec![10, 20], &vec![3, 5], &vec![r(2, 7), r(10, 11)]).unwrap();
    assert_eq!(plan.shape, vec![5, 1]);
    assert_eq!(plan.chunk_spans, vec![r(0, 3), r(2, 3)]);
    assert!(matches!(
        read_plan(&vec![10, 20], &vec![3, 5], &vec![r(2, 7), r(10, 21)]),
        Err(OmError::OutOfBounds)
    ));
    assert!(matches!(
        read_plan(&vec![10, 20], &vec![3, 5], &vec![r(2, 7)]),
        Err(OmError::ShapeMismatch)
    ));
}
