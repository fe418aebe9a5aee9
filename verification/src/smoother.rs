//! Bezier control points that round a polygon vertex into a curve.
//!
//! Given three consecutive polygon vertices and a smoothing ratio, the
//! smoother drops a perpendicular from the middle vertex onto the chord
//! through its neighbors, scales the two vectors from the foot of that
//! perpendicular to the neighbors by the ratio, and corrects the pair when
//! both displacements fall on the same side of the vertex along the chord's
//! x-axis. With integer vertices and a rational ratio every coordinate is an
//! exact rational, so the result is returned as integer numerators over one
//! positive denominator and the whole construction is verified exactly.

use vstd::prelude::*;

verus! {

/// A smoothing ratio in [0, 1], as the exact rational `num / den`.
#[derive(Clone, Copy, Debug, PartialEq, Eq, Structural)]
pub struct SmoothRatio {
    pub num: u16,
    pub den: u16,
}

impl SmoothRatio {
    /// The ratio is a well-formed fraction in [0, 1].
    pub open spec fn wf(self) -> bool {
        1 <= self.den && self.num <= self.den
    }
}

/// The two bezier control points of one polygon vertex, as exact rationals:
/// the incoming control point is (x1_num / den, y1_num / den), the outgoing
/// one (x2_num / den, y2_num / den), and `den` is positive.
#[derive(Clone, Copy, Debug, PartialEq, Eq, Structural)]
pub struct ControlPoints {
    pub x1_num: i128,
    pub y1_num: i128,
    pub x2_num: i128,
    pub y2_num: i128,
    pub den: i128,
}

/// The squared length of the chord from (px, py) to (nx, ny).
pub open spec fn chord_sq(px: int, py: int, nx: int, ny: int) -> int {
    (nx - px) * (nx - px) + (ny - py) * (ny - py)
}

/// The dot product of the vector from (px, py) to (x, y) with the chord
/// vector: the position of the foot of the perpendicular from (x, y) onto
/// the chord, as the fraction `chord_dot / chord_sq` of the chord.
pub open spec fn chord_dot(x: int, y: int, px: int, py: int, nx: int, ny: int) -> int {
    (x - px) * (nx - px) + (y - py) * (ny - py)
}

/// Numerator, over the denominator `chord_sq * rq`, of the x component of
/// the displacement `(prev - foot) * ratio`: `prev - foot` is the chord
/// vector scaled by `-chord_dot / chord_sq`.
pub open spec fn raw1_x(x: int, y: int, px: int, py: int, nx: int, ny: int, rp: int) -> int {
    -(chord_dot(x, y, px, py, nx, ny) * (nx - px) * rp)
}

/// Numerator of the y component of the displacement `(prev - foot) * ratio`.
pub open spec fn raw1_y(x: int, y: int, px: int, py: int, nx: int, ny: int, rp: int) -> int {
    -(chord_dot(x, y, px, py, nx, ny) * (ny - py) * rp)
}

/// Numerator of the x component of the displacement `(next - foot) * ratio`:
/// `next - foot` is the chord vector scaled by
/// `(chord_sq - chord_dot) / chord_sq`.
pub open spec fn raw2_x(x: int, y: int, px: int, py: int, nx: int, ny: int, rp: int) -> int {
    (chord_sq(px, py, nx, ny) - chord_dot(x, y, px, py, nx, ny)) * (nx - px) * rp
}

/// Numerator of the y component of the displacement `(next - foot) * ratio`.
pub open spec fn raw2_y(x: int, y: int, px: int, py: int, nx: int, ny: int, rp: int) -> int {
    (chord_sq(px, py, nx, ny) - chord_dot(x, y, px, py, nx, ny)) * (ny - py) * rp
}

/// Same-side correction: when both raw x displacements have the same sign,
/// the one with the smaller magnitude is negated. This holds when the first
/// displacement is the one to negate.
pub open spec fn flips_first(a: int, b: int) -> bool {
    (a > 0 && b > 0 && a < b) || (a < 0 && b < 0 && a > b)
}

/// Same-side correction: this holds when the second displacement is the one
/// to negate.
pub open spec fn flips_second(a: int, b: int) -> bool {
    (a > 0 && b > 0 && !(a < b)) || (a < 0 && b < 0 && !(a > b))
}

/// What `calc_bezier_control_point` returns: on a degenerate (zero-length)
/// chord both control points equal the vertex itself; otherwise each control
/// point is the vertex plus the corrected displacement, as a rational over
/// the common positive denominator `chord_sq * rq`.
pub open spec fn cp_post(
    r: ControlPoints,
    x: int,
    y: int,
    px: int,
    py: int,
    nx: int,
    ny: int,
    rp: int,
    rq: int,
) -> bool {
    if px == nx && py == ny {
        &&& r.den as int == 1
        &&& r.x1_num as int == x
        &&& r.y1_num as int == y
        &&& r.x2_num as int == x
        &&& r.y2_num as int == y
    } else {
        let a = raw1_x(x, y, px, py, nx, ny, rp);
        let b = raw2_x(x, y, px, py, nx, ny, rp);
        &&& r.den as int == chord_sq(px, py, nx, ny) * rq
        &&& r.x1_num as int == x * (r.den as int) + (if flips_first(a, b) {
            -a
        } else {
            a
        })
        &&& r.y1_num as int == y * (r.den as int) + (if flips_first(a, b) {
            -raw1_y(x, y, px, py, nx, ny, rp)
        } else {
            raw1_y(x, y, px, py, nx, ny, rp)
        })
        &&& r.x2_num as int == x * (r.den as int) + (if flips_second(a, b) {
            -b
        } else {
            b
        })
        &&& r.y2_num as int == y * (r.den as int) + (if flips_second(a, b) {
            -raw2_y(x, y, px, py, nx, ny, rp)
        } else {
            raw2_y(x, y, px, py, nx, ny, rp)
        })
    }
}

/// The product of two integers whose magnitudes are bounded is bounded by
/// the product of the bounds.
proof fn lemma_mul_bound(a: int, b: int, ca: int, cb: int)
    by (nonlinear_arith)
    requires
        -ca <= a <= ca,
        -cb <= b <= cb,
        0 <= ca,
        0 <= cb,
    ensures
        -(ca * cb) <= a * b <= ca * cb,
{
}

/// After the same-side correction the two x displacements never have the
/// same strict sign: their product is never positive.
proof fn lemma_correction_opposite(a: int, b: int)
    ensures
        (if flips_first(a, b) {
            -a
        } else {
            a
        }) * (if flips_second(a, b) {
            -b
        } else {
            b
        }) <= 0,
        (a > 0 && b > 0) || (a < 0 && b < 0) ==> (if flips_first(a, b) {
            -a
        } else {
            a
        }) * (if flips_second(a, b) {
            -b
        } else {
            b
        }) < 0,
{
    if a > 0 && b > 0 {
        if a < b {
            assert((-a) * b < 0) by (nonlinear_arith)
                requires
                    a > 0,
                    b > 0,
            ;
        } else {
            assert(a * (-b) < 0) by (nonlinear_arith)
                requires
                    a > 0,
                    b > 0,
            ;
        }
    } else if a < 0 && b < 0 {
        if a > b {
            assert((-a) * b < 0) by (nonlinear_arith)
                requires
                    a < 0,
                    b < 0,
            ;
        } else {
            assert(a * (-b) < 0) by (nonlinear_arith)
                requires
                    a < 0,
                    b < 0,
            ;
        }
    } else {
        assert(a * b <= 0) by (nonlinear_arith)
            requires
                !(a > 0 && b > 0),
                !(a < 0 && b < 0),
        ;
    }
}

/// Computes the two bezier control points for the vertex (x, y) with
/// predecessor (prev_x, prev_y) and successor (next_x, next_y):
/// the foot of the perpendicular from the vertex onto the chord through the
/// neighbors, the displacements from the foot to the neighbors scaled by the
/// ratio, the same-side correction, and the vertex plus each displacement.
/// A zero-length chord (predecessor equal to successor) has no foot; both
/// control points then equal the vertex itself.
pub fn calc_bezier_control_point(
    x: i32,
    y: i32,
    prev_x: i32,
    prev_y: i32,
    next_x: i32,
    next_y: i32,
    ratio: SmoothRatio,
) -> (r: ControlPoints)
    requires
        ratio.wf(),
    ensures
        cp_post(
            r,
            x as int,
            y as int,
            prev_x as int,
            prev_y as int,
            next_x as int,
            next_y as int,
            ratio.num as int,
            ratio.den as int,
        ),
        1 <= r.den,
        ratio.num == 0 ==> r.x1_num as int == x as int * (r.den as int) && r.y1_num as int
            == y as int * (r.den as int) && r.x2_num as int == x as int * (r.den as int)
            && r.y2_num as int == y as int * (r.den as int),
        (r.x1_num as int - x as int * (r.den as int)) * (r.x2_num as int - x as int * (
        r.den as int)) <= 0,
        ({
            let a = raw1_x(
                x as int,
                y as int,
                prev_x as int,
                prev_y as int,
                next_x as int,
                next_y as int,
                ratio.num as int,
            );
            let b = raw2_x(
                x as int,
                y as int,
                prev_x as int,
                prev_y as int,
                next_x as int,
                next_y as int,
                ratio.num as int,
            );
            (a > 0 && b > 0) || (a < 0 && b < 0) ==> (r.x1_num as int - x as int * (
            r.den as int)) * (r.x2_num as int - x as int * (r.den as int)) < 0
        }),
{
    let xi: i128 = x as i128;
    let yi: i128 = y as i128;
    let pxi: i128 = prev_x as i128;
    let pyi: i128 = prev_y as i128;
    let nxi: i128 = next_x as i128;
    let nyi: i128 = next_y as i128;
    let rp: i128 = ratio.num as i128;
    let rq: i128 = ratio.den as i128;
    let dxv: i128 = nxi - pxi;
    let dyv: i128 = nyi - pyi;
    if dxv == 0 && dyv == 0 {
        return ControlPoints { x1_num: xi, y1_num: yi, x2_num: xi, y2_num: yi, den: 1 };
    }
    proof {
        lemma_mul_bound(dxv as int, dxv as int, 0x1_0000_0000, 0x1_0000_0000);
        lemma_mul_bound(dyv as int, dyv as int, 0x1_0000_0000, 0x1_0000_0000);
        lemma_mul_bound(xi as int - pxi as int, dxv as int, 0x1_0000_0000, 0x1_0000_0000);
        lemma_mul_bound(yi as int - pyi as int, dyv as int, 0x1_0000_0000, 0x1_0000_0000);
    }
    let qx: i128 = dxv * dxv;
    let qy: i128 = dyv * dyv;
    let q: i128 = qx + qy;
    let nx_dot: i128 = (xi - pxi) * dxv;
    let ny_dot: i128 = (yi - pyi) * dyv;
    let n: i128 = nx_dot + ny_dot;
    proof {
        assert(1 <= q) by (nonlinear_arith)
            requires
                q == dxv * dxv + dyv * dyv,
                dxv != 0 || dyv != 0,
        ;
        lemma_mul_bound(q as int, rq as int, 0x2_0000_0000_0000_0000, 0x1_0000);
        assert(1 <= q * rq) by (nonlinear_arith)
            requires
                1 <= q,
                1 <= rq,
        ;
        lemma_mul_bound(n as int, dxv as int, 0x2_0000_0000_0000_0000, 0x1_0000_0000);
        lemma_mul_bound(n as int, dyv as int, 0x2_0000_0000_0000_0000, 0x1_0000_0000);
        lemma_mul_bound(
            q as int - n as int,
            dxv as int,
            0x4_0000_0000_0000_0000,
            0x1_0000_0000,
        );
        lemma_mul_bound(
            q as int - n as int,
            dyv as int,
            0x4_0000_0000_0000_0000,
            0x1_0000_0000,
        );
    }
    let den: i128 = q * rq;
    let t1: i128 = n * dxv;
    let t2: i128 = n * dyv;
    let qn: i128 = q - n;
    let t3: i128 = qn * dxv;
    let t4: i128 = qn * dyv;
    proof {
        lemma_mul_bound(t1 as int, rp as int, 0x2_0000_0000_0000_0000_0000_0000, 0x1_0000);
        lemma_mul_bound(t2 as int, rp as int, 0x2_0000_0000_0000_0000_0000_0000, 0x1_0000);
        lemma_mul_bound(t3 as int, rp as int, 0x4_0000_0000_0000_0000_0000_0000, 0x1_0000);
        lemma_mul_bound(t4 as int, rp as int, 0x4_0000_0000_0000_0000_0000_0000, 0x1_0000);
        lemma_mul_bound(xi as int, den as int, 0x8000_0000, 0x2_0000_0000_0000_0000_0000);
        lemma_mul_bound(yi as int, den as int, 0x8000_0000, 0x2_0000_0000_0000_0000_0000);
    }
    let mut d1x: i128 = -(t1 * rp);
    let mut d1y: i128 = -(t2 * rp);
    let mut d2x: i128 = t3 * rp;
    let mut d2y: i128 = t4 * rp;
    proof {
        if rp == 0 {
            assert(t1 * rp == 0 && t2 * rp == 0 && t3 * rp == 0 && t4 * rp == 0)
                by (nonlinear_arith)
                requires
                    rp == 0,
            ;
        }
        lemma_correction_opposite(d1x as int, d2x as int);
    }
    if d1x > 0 && d2x > 0 {
        if d1x < d2x {
            d1x = -d1x;
            d1y = -d1y;
        } else {
            d2x = -d2x;
            d2y = -d2y;
        }
    } else if d1x < 0 && d2x < 0 {
        if d1x > d2x {
            d1x = -d1x;
            d1y = -d1y;
        } else {
            d2x = -d2x;
            d2y = -d2y;
        }
    }
    ControlPoints {
        x1_num: xi * den + d1x,
        y1_num: yi * den + d1y,
        x2_num: xi * den + d2x,
        y2_num: yi * den + d2y,
        den,
    }
}

} // verus!
