use contour_trace::bitmap::{check_value, BitmapMatrix};
use contour_trace::direction::{get_clockwise_index, sum_around};
use contour_trace::tracer::{get_next_delta, get_start, trace, Point};
use contour_trace::TraceError;

fn matrix(data: Vec<u8>, width: usize) -> BitmapMatrix {
    BitmapMatrix::new(data, width).expect("well-formed bitmap")
}

fn pt(x: i32, y: i32) -> Point {
    Point { x, y }
}

#[test]
fn new_rejects_zero_width() {
    assert!(BitmapMatrix::new(vec![1, 1], 0).is_none());
}

#[test]
fn new_rejects_ragged_length() {
    assert!(BitmapMatrix::new(vec![1, 1, 1, 1, 1], 2).is_none());
}

#[test]
fn new_accepts_whole_rows() {
    let m = matrix(vec![1, 0, 0, 1], 2);
    assert_eq!(m.height(), 2);
}

#[test]
fn check_value_reads_pixels() {
    let m = matrix(vec![1, 0, 0, 1], 2);
    assert!(check_value(&m, 0, 0));
    assert!(!check_value(&m, 1, 0));
    assert!(!check_value(&m, 0, 1));
    assert!(check_value(&m, 1, 1));
}

#[test]
fn check_value_out_of_bounds_is_background() {
    let m = matrix(vec![1, 1, 1, 1], 2);
    assert!(!check_value(&m, -1, 0));
    assert!(!check_value(&m, 0, -1));
    assert!(!check_value(&m, 2, 0));
    assert!(!check_value(&m, 0, 2));
    // a small x with a large y must not slip past the guard
    assert!(!check_value(&m, 0, 100));
    assert!(!check_value(&m, 100, 0));
}

#[test]
fn clockwise_index_of_each_unit_offset() {
    assert_eq!(get_clockwise_index(&0, &-1), Ok(0));
    assert_eq!(get_clockwise_index(&1, &-1), Ok(1));
    assert_eq!(get_clockwise_index(&1, &0), Ok(2));
    assert_eq!(get_clockwise_index(&1, &1), Ok(3));
    assert_eq!(get_clockwise_index(&0, &1), Ok(4));
    assert_eq!(get_clockwise_index(&-1, &1), Ok(5));
    assert_eq!(get_clockwise_index(&-1, &0), Ok(6));
    assert_eq!(get_clockwise_index(&-1, &-1), Ok(7));
}

#[test]
fn clockwise_index_rejects_invalid_offsets() {
    assert_eq!(get_clockwise_index(&0, &0), Err(TraceError::InvalidDirection));
    assert_eq!(get_clockwise_index(&2, &0), Err(TraceError::InvalidDirection));
    assert_eq!(get_clockwise_index(&-2, &1), Err(TraceError::InvalidDirection));
}

#[test]
fn sum_around_fully_surrounded_is_eight() {
    let m = matrix(vec![1; 9], 3);
    assert_eq!(sum_around(&m, 1, 1), 8);
}

#[test]
fn sum_around_isolated_is_zero() {
    let m = matrix(vec![0, 0, 0, 0, 1, 0, 0, 0, 0], 3);
    assert_eq!(sum_around(&m, 1, 1), 0);
}

#[test]
fn sum_around_corner_counts_in_bounds_neighbors() {
    let m = matrix(vec![1; 9], 3);
    assert_eq!(sum_around(&m, 0, 0), 3);
}

#[test]
fn get_start_returns_first_foreground_in_row_major_order() {
    let m = matrix(vec![0, 0, 1, 0], 2);
    assert_eq!(get_start(&m), Ok(pt(0, 1)));
}

#[test]
fn get_start_prefers_the_earliest_index() {
    let m = matrix(vec![0, 1, 0, 1, 1, 1, 0, 1, 0], 3);
    assert_eq!(get_start(&m), Ok(pt(1, 0)));
}

#[test]
fn get_start_on_blank_bitmap_fails() {
    let m = matrix(vec![0, 0, 0, 0], 2);
    assert_eq!(get_start(&m), Err(TraceError::EmptyBitmap));
}

#[test]
fn next_delta_scans_clockwise_from_the_backtrack() {
    let m = matrix(vec![0, 1, 0, 1, 1, 1, 0, 1, 0], 3);
    // at the plus's top tip, arriving as if from the west, the first
    // foreground neighbor clockwise from North is the south-east one
    assert_eq!(get_next_delta(&m, 1, 0, -1, 0), Ok(Some((1, 1))));
}

#[test]
fn next_delta_on_isolated_pixel_finds_nothing() {
    let m = matrix(vec![0, 0, 0, 0, 1, 0, 0, 0, 0], 3);
    assert_eq!(get_next_delta(&m, 1, 1, -1, 0), Ok(None));
}

#[test]
fn next_delta_rejects_invalid_backtrack() {
    let m = matrix(vec![1], 1);
    assert_eq!(get_next_delta(&m, 0, 0, 0, 0), Err(TraceError::InvalidDirection));
    assert_eq!(get_next_delta(&m, 0, 0, 2, 1), Err(TraceError::InvalidDirection));
}

#[test]
fn trace_on_blank_bitmap_fails_with_empty_bitmap() {
    let m = matrix(vec![0; 12], 4);
    assert_eq!(trace(&m), Err(TraceError::EmptyBitmap));
}

#[test]
fn trace_isolated_pixel_is_a_closed_one_point_contour() {
    let m = matrix(vec![0, 0, 0, 0, 1, 0, 0, 0, 0], 3);
    assert_eq!(trace(&m), Ok(vec![pt(1, 1)]));
}

#[test]
fn trace_single_pixel_bitmap() {
    let m = matrix(vec![1], 1);
    assert_eq!(trace(&m), Ok(vec![pt(0, 0)]));
}

#[test]
fn trace_filled_block_visits_the_boundary_clockwise() {
    let m = matrix(vec![1; 9], 3);
    assert_eq!(
        trace(&m),
        Ok(vec![
            pt(0, 0),
            pt(1, 0),
            pt(2, 0),
            pt(2, 1),
            pt(2, 2),
            pt(1, 2),
            pt(0, 2),
            pt(0, 1),
        ])
    );
}

#[test]
fn trace_domino_closes_after_two_pixels() {
    let m = matrix(vec![1, 1], 2);
    assert_eq!(trace(&m), Ok(vec![pt(0, 0), pt(1, 0)]));
}

#[test]
fn trace_plus_shape_visits_the_arm_tips_clockwise() {
    let m = matrix(vec![0, 1, 0, 1, 1, 1, 0, 1, 0], 3);
    assert_eq!(trace(&m), Ok(vec![pt(1, 0), pt(2, 1), pt(1, 2), pt(0, 1)]));
}

#[test]
fn trace_rectangle_follows_the_perimeter_clockwise() {
    let m = matrix(vec![1; 12], 4);
    assert_eq!(
        trace(&m),
        Ok(vec![
            pt(0, 0),
            pt(1, 0),
            pt(2, 0),
            pt(3, 0),
            pt(3, 1),
            pt(3, 2),
            pt(2, 2),
            pt(1, 2),
            pt(0, 2),
            pt(0, 1),
        ])
    );
}

#[test]
fn trace_long_row_exceeds_the_safety_bound() {
    // the walk along a 1-pixel-high row needs nearly twice the pixel count
    // of steps to come back, which exceeds the safety bound
    let m = matrix(vec![1, 1, 1], 3);
    assert_eq!(trace(&m), Err(TraceError::TraceDidNotClose));
}
