use contour_trace::bitmap::BitmapMatrix;
use contour_trace::smoother::{calc_bezier_control_point, ControlPoints, SmoothRatio};
use contour_trace::tracer::Point;
use contour_trace::{trace_path, TraceError};

fn ratio(num: u16, den: u16) -> SmoothRatio {
    SmoothRatio { num, den }
}

fn pt(x: i32, y: i32) -> Point {
    Point { x, y }
}

#[test]
fn zero_ratio_leaves_both_control_points_on_the_vertex() {
    let cp = calc_bezier_control_point(5, 7, 4, 6, 6, 9, ratio(0, 3));
    // chord (2, 3): squared length 13, denominator 13 * 3
    assert_eq!(cp.den, 39);
    assert_eq!(cp.x1_num, 5 * 39);
    assert_eq!(cp.y1_num, 7 * 39);
    assert_eq!(cp.x2_num, 5 * 39);
    assert_eq!(cp.y2_num, 7 * 39);
}

#[test]
fn vertical_chord_drops_the_foot_at_the_vertex_height() {
    // chord from (1, 1) to (1, 5): the foot under (2, 3) is (1, 3)
    let cp = calc_bezier_control_point(2, 3, 1, 1, 1, 5, ratio(1, 2));
    assert_eq!(cp.den, 32);
    assert_eq!(cp.x1_num, 64); // cp1 = (2, 2)
    assert_eq!(cp.y1_num, 64);
    assert_eq!(cp.x2_num, 64); // cp2 = (2, 4)
    assert_eq!(cp.y2_num, 128);
}

#[test]
fn horizontal_chord_drops_the_foot_under_the_vertex() {
    // chord from (0, 2) to (4, 2): the foot under (1, 0) is (1, 2)
    let cp = calc_bezier_control_point(1, 0, 0, 2, 4, 2, ratio(1, 4));
    assert_eq!(cp.den, 64);
    assert_eq!(cp.x1_num, 48); // cp1 = (0.75, 0)
    assert_eq!(cp.y1_num, 0);
    assert_eq!(cp.x2_num, 112); // cp2 = (1.75, 0)
    assert_eq!(cp.y2_num, 0);
}

#[test]
fn slanted_chord_uses_the_perpendicular_foot() {
    // chord from (0, 0) to (4, 2): the foot of the perpendicular from
    // (1, 3) is (2, 1); with ratio 1 the control points are the neighbors
    // mirrored around the vertex relative to the foot
    let cp = calc_bezier_control_point(1, 3, 0, 0, 4, 2, ratio(1, 1));
    assert_eq!(cp.den, 20);
    assert_eq!(cp.x1_num, -20); // cp1 = (-1, 2)
    assert_eq!(cp.y1_num, 40);
    assert_eq!(cp.x2_num, 60); // cp2 = (3, 4)
    assert_eq!(cp.y2_num, 80);
}

#[test]
fn same_side_correction_negates_the_smaller_displacement() {
    // both raw x displacements are negative (-4 and -2 over denominator 4):
    // the second has the smaller magnitude and is negated
    let cp = calc_bezier_control_point(0, 5, 1, 0, 2, 1, ratio(1, 2));
    assert_eq!(cp.den, 4);
    assert_eq!(cp.x1_num, -4);
    assert_eq!(cp.y1_num, 16);
    assert_eq!(cp.x2_num, 2);
    assert_eq!(cp.y2_num, 22);
}

#[test]
fn corrected_displacements_lie_on_opposite_sides() {
    let vertices = [
        (0, 5, 1, 0, 2, 1),
        (1, 3, 0, 0, 4, 2),
        (2, 3, 1, 1, 1, 5),
        (7, -2, -3, 8, 5, 8),
        (-4, -4, -1, -9, -6, 2),
    ];
    for &(x, y, px, py, nx, ny) in vertices.iter() {
        let cp: ControlPoints = calc_bezier_control_point(x, y, px, py, nx, ny, ratio(2, 3));
        let d1 = cp.x1_num - x as i128 * cp.den;
        let d2 = cp.x2_num - x as i128 * cp.den;
        assert!(d1 * d2 <= 0, "displacements {} and {} share a side", d1, d2);
    }
}

#[test]
fn degenerate_chord_keeps_both_control_points_on_the_vertex() {
    let cp = calc_bezier_control_point(3, 4, 1, 1, 1, 1, ratio(1, 2));
    assert_eq!(cp.den, 1);
    assert_eq!(cp.x1_num, 3);
    assert_eq!(cp.y1_num, 4);
    assert_eq!(cp.x2_num, 3);
    assert_eq!(cp.y2_num, 4);
}

#[test]
fn trace_path_pairs_every_vertex_with_control_points() {
    let m = BitmapMatrix::new(vec![0, 1, 0, 1, 1, 1, 0, 1, 0], 3).unwrap();
    let (contour, cps) = trace_path(&m, ratio(1, 2)).unwrap();
    assert_eq!(contour, vec![pt(1, 0), pt(2, 1), pt(1, 2), pt(0, 1)]);
    assert_eq!(cps.len(), contour.len());
    // the top tip (1, 0) sits over the horizontal chord from (0, 1) to
    // (2, 1); its control points are (0.5, 0) and (1.5, 0)
    assert_eq!(cps[0].den, 8);
    assert_eq!(cps[0].x1_num, 4);
    assert_eq!(cps[0].y1_num, 0);
    assert_eq!(cps[0].x2_num, 12);
    assert_eq!(cps[0].y2_num, 0);
}

#[test]
fn trace_path_single_vertex_contour_is_degenerate() {
    let m = BitmapMatrix::new(vec![0, 0, 0, 0, 1, 0, 0, 0, 0], 3).unwrap();
    let (contour, cps) = trace_path(&m, ratio(1, 2)).unwrap();
    assert_eq!(contour, vec![pt(1, 1)]);
    assert_eq!(cps.len(), 1);
    assert_eq!(cps[0].den, 1);
    assert_eq!(cps[0].x1_num, 1);
    assert_eq!(cps[0].y1_num, 1);
}

#[test]
fn trace_path_on_blank_bitmap_fails_with_empty_bitmap() {
    let m = BitmapMatrix::new(vec![0; 6], 3).unwrap();
    assert_eq!(trace_path(&m, ratio(1, 2)), Err(TraceError::EmptyBitmap));
}

#[test]
fn trace_path_propagates_the_safety_bound_error() {
    let m = BitmapMatrix::new(vec![1, 1, 1], 3).unwrap();
    assert_eq!(trace_path(&m, ratio(1, 2)), Err(TraceError::TraceDidNotClose));
}
