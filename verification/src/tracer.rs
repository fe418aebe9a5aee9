//! Moore-neighbor boundary tracing in clockwise orientation: finds the first
//! foreground pixel and walks the boundary of its region until the walk
//! returns to its start, producing an ordered closed polygon.
//!
//! The walk is modelled by the spec functions `scan_from` and `walk_state`:
//! at each step the tracer scans the 8 neighbor directions clockwise,
//! starting immediately clockwise of the direction that points back to the
//! previous boundary pixel, and moves to the first foreground neighbor
//! found. The executable functions are proved to follow that model exactly.

use vstd::prelude::*;
use crate::TraceError;
use crate::bitmap::BitmapMatrix;
use crate::direction::{
    delta_index, dx_of, dy_of, get_clockwise_index, is_unit_delta, lemma_delta_index_inverse,
    lemma_opposite_delta, opposite, clockwise_delta,
};
use crate::bitmap::check_value;

verus! {

/// An integer pixel coordinate.
#[derive(Clone, Copy, Debug, PartialEq, Eq, Structural)]
pub struct Point {
    pub x: i32,
    pub y: i32,
}

/// Whether the bitmap holds any foreground pixel.
pub open spec fn has_fg(m: BitmapMatrix) -> bool {
    exists|j: int| 0 <= j < m.data@.len() && m.data@[j] != 0
}

/// Whether (x, y) is the first foreground pixel in row-major scan order:
/// it is foreground and every pixel at a smaller linear index is background.
pub open spec fn is_first_fg(m: BitmapMatrix, x: int, y: int) -> bool {
    &&& m.in_bounds(x, y)
    &&& m.data@[y * m.width as int + x] != 0
    &&& forall|j: int| 0 <= j < y * m.width as int + x ==> m.data@[j] == 0
}

/// The clockwise neighbor scan around (x, y): the direction of the first
/// foreground neighbor at scan offset `k` or later, starting the scan
/// immediately clockwise of the backtrack direction `b`, or `None` when the
/// remaining directions hold no foreground neighbor.
pub open spec fn scan_from(m: BitmapMatrix, x: int, y: int, b: int, k: int) -> Option<int>
    decreases 8 - k,
{
    if k < 0 || k >= 8 {
        None
    } else {
        let d = (b + 1 + k) % 8;
        if m.fg(x + dx_of(d), y + dy_of(d)) {
            Some(d)
        } else {
            scan_from(m, x, y, b, k + 1)
        }
    }
}

/// The state of the boundary walk after `n` steps from the start pixel
/// (sx, sy): the current position, and the clockwise position of the offset
/// that points back to the previous pixel. The walk begins as if it had
/// arrived from the west, so its first scan begins at North; a step that
/// finds no foreground neighbor leaves the walk in place.
pub open spec fn walk_state(m: BitmapMatrix, sx: int, sy: int, n: int) -> ((int, int), int)
    decreases n,
{
    if n <= 0 {
        ((sx, sy), 6)
    } else {
        let (p, b) = walk_state(m, sx, sy, n - 1);
        match scan_from(m, p.0, p.1, b, 0) {
            None => (p, b),
            Some(d) => ((p.0 + dx_of(d), p.1 + dy_of(d)), opposite(d)),
        }
    }
}

/// The position of the boundary walk after `n` steps from (sx, sy).
pub open spec fn walk_pos(m: BitmapMatrix, sx: int, sy: int, n: int) -> (int, int) {
    walk_state(m, sx, sy, n).0
}

/// What `trace` returns on success: the contour starts at the first
/// foreground pixel, follows the boundary walk step by step, and is closed:
/// the walk returns to the start right after the last vertex and not before.
pub open spec fn traced_contour(m: BitmapMatrix, c: Seq<Point>) -> bool {
    &&& 1 <= c.len() <= m.data@.len()
    &&& is_first_fg(m, c[0].x as int, c[0].y as int)
    &&& forall|i: int|
        0 <= i < c.len() ==> #[trigger] walk_pos(m, c[0].x as int, c[0].y as int, i) == (
        c[i].x as int,
        c[i].y as int,
        )
    &&& walk_pos(m, c[0].x as int, c[0].y as int, c.len() as int) == (
    c[0].x as int,
    c[0].y as int,
    )
    &&& forall|j: int|
        1 <= j < c.len() ==> #[trigger] walk_pos(m, c[0].x as int, c[0].y as int, j) != (
        c[0].x as int,
        c[0].y as int,
        )
}

/// A first foreground pixel is a witness that the bitmap is not empty.
pub proof fn lemma_first_fg_has_fg(m: BitmapMatrix, x: int, y: int)
    requires
        m.wf(),
        is_first_fg(m, x, y),
    ensures
        has_fg(m),
{
    let j = y * m.width as int + x;
    assert(0 <= j < m.data@.len()) by (nonlinear_arith)
        requires
            0 <= x < m.width,
            0 <= y < m.data@.len() as int / m.width as int,
            m.data@.len() as int % (m.width as int) == 0,
            1 <= m.width,
            j == y * m.width as int + x,
    ;
    assert(m.data@[j] != 0);
}

/// The first foreground pixel in row-major order is unique.
pub proof fn lemma_first_fg_unique(m: BitmapMatrix, x1: int, y1: int, x2: int, y2: int)
    requires
        is_first_fg(m, x1, y1),
        is_first_fg(m, x2, y2),
    ensures
        x1 == x2,
        y1 == y2,
{
    let i1 = y1 * m.width as int + x1;
    let i2 = y2 * m.width as int + x2;
    if i1 < i2 {
        assert(m.data@[i1] == 0);
    }
    if i2 < i1 {
        assert(m.data@[i2] == 0);
    }
    assert(x1 == x2 && y1 == y2) by (nonlinear_arith)
        requires
            0 <= x1 < m.width,
            0 <= x2 < m.width,
            y1 * m.width as int + x1 == y2 * m.width as int + x2,
    ;
}

/// A scan that finds nothing leaves no foreground pixel at the backtrack
/// direction either: the scan's last probe is the backtrack direction itself.
proof fn lemma_scan_none_backtrack(m: BitmapMatrix, x: int, y: int, b: int)
    requires
        0 <= b < 8,
        scan_from(m, x, y, b, 0) is None,
    ensures
        !m.fg(x + dx_of(b), y + dy_of(b)),
{
    reveal_with_fuel(scan_from, 9);
}

/// A scan that returns a direction found a foreground neighbor there.
proof fn lemma_scan_some_fg(m: BitmapMatrix, x: int, y: int, b: int, k: int, d: int)
    requires
        0 <= k <= 8,
        scan_from(m, x, y, b, k) == Some(d),
    ensures
        0 <= d < 8,
        m.fg(x + dx_of(d), y + dy_of(d)),
    decreases 8 - k,
{
    if k < 8 {
        if !m.fg(x + dx_of((b + 1 + k) % 8), y + dy_of((b + 1 + k) % 8)) {
            lemma_scan_some_fg(m, x, y, b, k + 1, d);
        }
    }
}

/// Scans pixels in row-major order and returns the coordinate of the first
/// foreground pixel. Fails with `EmptyBitmap` exactly when no foreground
/// pixel exists.
pub fn get_start(matrix: &BitmapMatrix) -> (r: Result<Point, TraceError>)
    requires
        matrix.wf(),
    ensures
        match r {
            Ok(p) => is_first_fg(*matrix, p.x as int, p.y as int),
            Err(e) => e == TraceError::EmptyBitmap && !has_fg(*matrix),
        },
{
    let n = matrix.data.len();
    let mut i: usize = 0;
    while i < n
        invariant
            matrix.wf(),
            n == matrix.data@.len(),
            i <= n,
            forall|j: int| 0 <= j < i ==> matrix.data@[j] == 0,
        decreases n - i,
    {
        if matrix.data[i] != 0 {
            let w = matrix.width;
            proof {
                assert(w <= n && i % w < w && i / w < n / w && i == (i / w) * w + i % w)
                    by (nonlinear_arith)
                    requires
                        n as int % (w as int) == 0,
                        1 <= w,
                        0 <= i < n,
                ;
            }
            let px = (i % w) as i32;
            let py = (i / w) as i32;
            return Ok(Point { x: px, y: py });
        }
        i = i + 1;
    }
    Err(TraceError::EmptyBitmap)
}

/// One step of the boundary walk: scans the 8 neighbors of (x, y) in
/// clockwise order, starting immediately clockwise of the backtrack offset
/// (d_prev_x, d_prev_y), and returns the offset of the first foreground
/// neighbor, or `None` when no neighbor is foreground. Fails with
/// `InvalidDirection` exactly when the backtrack offset is not one of the 8
/// valid unit offsets; this never happens with correct callers.
pub fn get_next_delta(matrix: &BitmapMatrix, x: i32, y: i32, d_prev_x: i32, d_prev_y: i32) -> (r:
    Result<Option<(i32, i32)>, TraceError>)
    requires
        matrix.wf(),
        i32::MIN < x < i32::MAX,
        i32::MIN < y < i32::MAX,
    ensures
        ({
            if !is_unit_delta(d_prev_x as int, d_prev_y as int) {
                r == Err::<Option<(i32, i32)>, TraceError>(TraceError::InvalidDirection)
            } else {
                let b = delta_index(d_prev_x as int, d_prev_y as int);
                match scan_from(*matrix, x as int, y as int, b, 0) {
                    None => r == Ok::<Option<(i32, i32)>, TraceError>(None),
                    Some(d) => r matches Ok(Some(dd)) && dd.0 as int == dx_of(d) && dd.1 as int
                        == dy_of(d),
                }
            }
        }),
{
    let prev_index = match get_clockwise_index(&d_prev_x, &d_prev_y) {
        Ok(i) => i,
        Err(e) => {
            return Err(e);
        },
    };
    let mut k: usize = 0;
    while k < 8
        invariant
            matrix.wf(),
            i32::MIN < x < i32::MAX,
            i32::MIN < y < i32::MAX,
            k <= 8,
            is_unit_delta(d_prev_x as int, d_prev_y as int),
            prev_index < 8,
            prev_index as int == delta_index(d_prev_x as int, d_prev_y as int),
            scan_from(*matrix, x as int, y as int, prev_index as int, k as int) == scan_from(
                *matrix,
                x as int,
                y as int,
                prev_index as int,
                0,
            ),
        decreases 8 - k,
    {
        let d = (prev_index + 1 + k) % 8;
        let (ddx, ddy) = clockwise_delta(d);
        if check_value(matrix, x + ddx, y + ddy) {
            proof {
                assert(scan_from(*matrix, x as int, y as int, prev_index as int, k as int)
                    == Some(d as int));
            }
            return Ok(Some((ddx, ddy)));
        }
        k = k + 1;
    }
    Ok(None)
}

/// Traces the boundary of the region of the first foreground pixel as an
/// ordered closed clockwise polygon. The walk ends when it returns to its
/// start; a safety bound equal to the total pixel count guards against
/// nontermination, and exceeding it fails with `TraceDidNotClose`.
pub fn trace(matrix: &BitmapMatrix) -> (r: Result<Vec<Point>, TraceError>)
    requires
        matrix.wf(),
    ensures
        (r matches Err(e) && e == TraceError::EmptyBitmap) <==> !has_fg(*matrix),
        match r {
            Ok(c) => traced_contour(*matrix, c@),
            Err(e) => match e {
                TraceError::EmptyBitmap => !has_fg(*matrix),
                TraceError::TraceDidNotClose => forall|sx: int, sy: int, j: int|
                    is_first_fg(*matrix, sx, sy) && 1 <= j <= matrix.data@.len()
                        ==> #[trigger] walk_pos(*matrix, sx, sy, j) != (sx, sy),
                TraceError::InvalidDirection => false,
            },
        },
{
    let start = match get_start(matrix) {
        Ok(p) => p,
        Err(_) => {
            return Err(TraceError::EmptyBitmap);
        },
    };
    let ghost sx: int = start.x as int;
    let ghost sy: int = start.y as int;
    proof {
        lemma_first_fg_has_fg(*matrix, sx, sy);
        assert(matrix.width <= matrix.data@.len() && matrix.height_spec()
            <= matrix.data@.len()) by (nonlinear_arith)
            requires
                matrix.data@.len() as int % (matrix.width as int) == 0,
                1 <= matrix.width,
                0 <= sy < matrix.height_spec(),
                matrix.height_spec() == matrix.data@.len() as int / matrix.width as int,
        ;
    }
    let mut contour: Vec<Point> = Vec::new();
    contour.push(start);
    let mut cur = start;
    let mut back_x: i32 = -1;
    let mut back_y: i32 = 0;
    let bound = matrix.data.len();
    let mut step: usize = 0;
    while step < bound
        invariant
            matrix.wf(),
            bound == matrix.data@.len(),
            matrix.width <= bound,
            matrix.height_spec() <= bound as int,
            step <= bound,
            is_first_fg(*matrix, sx, sy),
            has_fg(*matrix),
            sx == start.x as int,
            sy == start.y as int,
            matrix.fg(cur.x as int, cur.y as int),
            is_unit_delta(back_x as int, back_y as int),
            walk_state(*matrix, sx, sy, step as int) == (
                (cur.x as int, cur.y as int),
                delta_index(back_x as int, back_y as int),
            ),
            contour@.len() == step + 1,
            contour@[0] == start,
            forall|i: int|
                0 <= i <= step ==> #[trigger] walk_pos(*matrix, sx, sy, i) == (
                contour@[i].x as int,
                contour@[i].y as int,
                ),
            forall|j: int| 1 <= j <= step ==> #[trigger] walk_pos(*matrix, sx, sy, j) != (sx, sy),
            step >= 1 ==> matrix.fg(cur.x as int + back_x as int, cur.y as int + back_y as int),
        decreases bound - step,
    {
        let ghost b: int = delta_index(back_x as int, back_y as int);
        let step_delta = match get_next_delta(matrix, cur.x, cur.y, back_x, back_y) {
            Ok(sd) => sd,
            Err(_) => {
                // the backtrack offset is always a valid unit offset
                proof {
                    assert(false);
                }
                return Err(TraceError::InvalidDirection);
            },
        };
        match step_delta {
            None => {
                // No neighbor is foreground. Past the first step the pixel
                // the walk came from is a foreground neighbor, so this is
                // the isolated start pixel: a closed 1-point contour.
                proof {
                    if step >= 1 {
                        lemma_scan_none_backtrack(*matrix, cur.x as int, cur.y as int, b);
                        assert(false);
                    }
                }
                return Ok(contour);
            },
            Some((ddx, ddy)) => {
                let ghost d: int = scan_from(
                    *matrix,
                    cur.x as int,
                    cur.y as int,
                    b,
                    0,
                )->Some_0;
                proof {
                    lemma_scan_some_fg(*matrix, cur.x as int, cur.y as int, b, 0, d);
                    lemma_opposite_delta(d);
                    lemma_delta_index_inverse(opposite(d));
                }
                let nx = cur.x + ddx;
                let ny = cur.y + ddy;
                if nx == start.x && ny == start.y {
                    return Ok(contour);
                }
                contour.push(Point { x: nx, y: ny });
                cur = Point { x: nx, y: ny };
                back_x = -ddx;
                back_y = -ddy;
                step = step + 1;
            },
        }
    }
    proof {
        assert forall|ax: int, ay: int, j: int|
            is_first_fg(*matrix, ax, ay) && 1 <= j <= matrix.data@.len() implies #[trigger]
        walk_pos(*matrix, ax, ay, j) != (ax, ay) by {
            lemma_first_fg_unique(*matrix, ax, ay, sx, sy);
        }
    }
    Err(TraceError::TraceDidNotClose)
}

/// Every position of a walk that starts on a foreground pixel is foreground:
/// the walk only ever moves to a foreground neighbor.
proof fn lemma_walk_fg(m: BitmapMatrix, sx: int, sy: int, n: int)
    requires
        m.fg(sx, sy),
        n >= 0,
    ensures
        m.fg(walk_pos(m, sx, sy, n).0, walk_pos(m, sx, sy, n).1),
    decreases n,
{
    if n > 0 {
        lemma_walk_fg(m, sx, sy, n - 1);
        let (p, b) = walk_state(m, sx, sy, n - 1);
        match scan_from(m, p.0, p.1, b, 0) {
            None => {},
            Some(d) => {
                lemma_scan_some_fg(m, p.0, p.1, b, 0, d);
            },
        }
    }
}

/// Once a scan finds no foreground neighbor, the walk never moves again.
proof fn lemma_walk_stays(m: BitmapMatrix, sx: int, sy: int, n: int, j: int)
    requires
        0 <= n <= j,
        scan_from(
            m,
            walk_state(m, sx, sy, n).0.0,
            walk_state(m, sx, sy, n).0.1,
            walk_state(m, sx, sy, n).1,
            0,
        ) is None,
    ensures
        walk_state(m, sx, sy, j) == walk_state(m, sx, sy, n),
    decreases j - n,
{
    if j > n {
        lemma_walk_stays(m, sx, sy, n, j - 1);
    }
}

/// A traced contour is a closed 8-connected polygon of foreground pixels:
/// every vertex is foreground, and each vertex differs from the next, the
/// last wrapping around to the first, by one of the 8 unit offsets.
pub proof fn lemma_traced_contour_polygon(m: BitmapMatrix, c: Seq<Point>)
    requires
        traced_contour(m, c),
    ensures
        forall|i: int| 0 <= i < c.len() ==> m.fg(#[trigger] c[i].x as int, c[i].y as int),
        forall|i: int|
            0 <= i < c.len() - 1 ==> is_unit_delta(
                c[i + 1].x - #[trigger] c[i].x,
                c[i + 1].y - c[i].y,
            ),
        c.len() >= 2 ==> is_unit_delta(
            c[0].x - c[c.len() - 1].x,
            c[0].y - c[c.len() - 1].y,
        ),
{
    let sx = c[0].x as int;
    let sy = c[0].y as int;
    let len = c.len() as int;
    assert forall|i: int| 0 <= i < c.len() implies m.fg(
        #[trigger] c[i].x as int,
        c[i].y as int,
    ) by {
        lemma_walk_fg(m, sx, sy, i);
        assert(walk_pos(m, sx, sy, i) == (c[i].x as int, c[i].y as int));
    }
    assert forall|i: int| 0 <= i <= c.len() - 1 implies (#[trigger] walk_pos(m, sx, sy, i))
        != walk_pos(m, sx, sy, i + 1) || c.len() < 2 by {
        let (p, b) = walk_state(m, sx, sy, i);
        if walk_pos(m, sx, sy, i + 1) == walk_pos(m, sx, sy, i) && c.len() >= 2 {
            // a step that moves uses a nonzero unit offset, so this step
            // found no foreground neighbor and the walk stays put forever
            match scan_from(m, p.0, p.1, b, 0) {
                None => {},
                Some(d) => {
                    lemma_scan_some_fg(m, p.0, p.1, b, 0, d);
                    lemma_delta_index_inverse(d);
                },
            }
            lemma_walk_stays(m, sx, sy, i, len);
            // the walk's position at step len is the start, so the stuck
            // position is the start: impossible both at step 0 (the walk
            // would be closed after one step) and later (the contour does
            // not revisit its start before closing)
            if i == 0 {
                lemma_walk_stays(m, sx, sy, 0, 1);
                assert(walk_pos(m, sx, sy, 1) == (sx, sy));
            } else {
                assert(walk_pos(m, sx, sy, i) == (sx, sy));
            }
        }
    }
    assert forall|i: int| 0 <= i < c.len() - 1 implies is_unit_delta(
        c[i + 1].x - #[trigger] c[i].x,
        c[i + 1].y - c[i].y,
    ) by {
        let (p, b) = walk_state(m, sx, sy, i);
        assert(walk_pos(m, sx, sy, i + 1) != walk_pos(m, sx, sy, i));
        match scan_from(m, p.0, p.1, b, 0) {
            None => {},
            Some(d) => {
                lemma_scan_some_fg(m, p.0, p.1, b, 0, d);
                lemma_delta_index_inverse(d);
            },
        }
        assert(walk_pos(m, sx, sy, i) == (c[i].x as int, c[i].y as int));
        assert(walk_pos(m, sx, sy, i + 1) == (c[i + 1].x as int, c[i + 1].y as int));
    }
    if c.len() >= 2 {
        let i = len - 1;
        let (p, b) = walk_state(m, sx, sy, i);
        assert(walk_pos(m, sx, sy, i + 1) != walk_pos(m, sx, sy, i));
        match scan_from(m, p.0, p.1, b, 0) {
            None => {},
            Some(d) => {
                lemma_scan_some_fg(m, p.0, p.1, b, 0, d);
                lemma_delta_index_inverse(d);
            },
        }
        assert(walk_pos(m, sx, sy, i) == (c[i].x as int, c[i].y as int));
        assert(walk_pos(m, sx, sy, len) == (c[0].x as int, c[0].y as int));
    }
}

/// A walk that starts on an isolated foreground pixel, one with no
/// foreground neighbor, never leaves it: every scan finds nothing and the
/// walk stays in place, closed after its first step.
pub proof fn lemma_isolated_pixel_stays(m: BitmapMatrix, sx: int, sy: int, n: int)
    requires
        !m.fg(sx, sy - 1),
        !m.fg(sx + 1, sy - 1),
        !m.fg(sx + 1, sy),
        !m.fg(sx + 1, sy + 1),
        !m.fg(sx, sy + 1),
        !m.fg(sx - 1, sy + 1),
        !m.fg(sx - 1, sy),
        !m.fg(sx - 1, sy - 1),
        n >= 0,
    ensures
        walk_state(m, sx, sy, n) == ((sx, sy), 6int),
    decreases n,
{
    reveal_with_fuel(scan_from, 9);
    if n > 0 {
        lemma_isolated_pixel_stays(m, sx, sy, n - 1);
    }
}

/// Tracing a bitmap whose first foreground pixel is isolated yields the
/// closed 1-point contour of that pixel: any traced contour of such a
/// bitmap has exactly one vertex.
pub proof fn lemma_isolated_contour_single(m: BitmapMatrix, c: Seq<Point>)
    requires
        traced_contour(m, c),
        !m.fg(c[0].x as int, c[0].y as int - 1),
        !m.fg(c[0].x as int + 1, c[0].y as int - 1),
        !m.fg(c[0].x as int + 1, c[0].y as int),
        !m.fg(c[0].x as int + 1, c[0].y as int + 1),
        !m.fg(c[0].x as int, c[0].y as int + 1),
        !m.fg(c[0].x as int - 1, c[0].y as int + 1),
        !m.fg(c[0].x as int - 1, c[0].y as int),
        !m.fg(c[0].x as int - 1, c[0].y as int - 1),
    ensures
        c.len() == 1,
{
    if c.len() > 1 {
        lemma_isolated_pixel_stays(m, c[0].x as int, c[0].y as int, 1);
        assert(walk_pos(m, c[0].x as int, c[0].y as int, 1) == (c[0].x as int, c[0].y as int));
    }
}

} // verus!
