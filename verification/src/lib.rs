//! Traces the boundary of a connected foreground region of a binary bitmap
//! as a closed clockwise polygon, and computes exact rational bezier control
//! points that round each polygon vertex into a curve.

use vstd::prelude::*;

pub mod bitmap;
pub mod direction;
pub mod smoother;
pub mod tracer;

use crate::bitmap::BitmapMatrix;
use crate::smoother::{calc_bezier_control_point, cp_post, ControlPoints, SmoothRatio};
use crate::tracer::{has_fg, is_first_fg, trace, traced_contour, walk_pos, Point};

verus! {

/// The fatal error kinds of the tracing pipeline. Every error surfaces
/// immediately to the caller; nothing is retried and no partial output is kept.
#[derive(Clone, Copy, Debug, PartialEq, Eq, Structural)]
pub enum TraceError {
    /// No foreground pixel was found during the start-point search.
    EmptyBitmap,
    /// A delta outside the 8 valid unit offsets was looked up.
    InvalidDirection,
    /// The boundary walk exceeded its safety bound without returning to its start.
    TraceDidNotClose,
}

/// The index of the predecessor of vertex `i` on a closed polygon of `len`
/// vertices.
pub open spec fn prev_vertex(i: int, len: int) -> int {
    if i == 0 {
        len - 1
    } else {
        i - 1
    }
}

/// The index of the successor of vertex `i` on a closed polygon of `len`
/// vertices.
pub open spec fn next_vertex(i: int, len: int) -> int {
    if i == len - 1 {
        0
    } else {
        i + 1
    }
}

/// The control points of every vertex of the closed contour `c`: each entry
/// is the control-point pair of its vertex, computed from the vertex and its
/// two neighbors on the closed polygon.
pub open spec fn smoothed_contour(
    c: Seq<Point>,
    cps: Seq<ControlPoints>,
    rp: int,
    rq: int,
) -> bool {
    &&& cps.len() == c.len()
    &&& forall|i: int|
        0 <= i < c.len() ==> cp_post(
            #[trigger] cps[i],
            c[i].x as int,
            c[i].y as int,
            c[prev_vertex(i, c.len() as int)].x as int,
            c[prev_vertex(i, c.len() as int)].y as int,
            c[next_vertex(i, c.len() as int)].x as int,
            c[next_vertex(i, c.len() as int)].y as int,
            rp,
            rq,
        )
}

/// The whole pipeline: traces the boundary of the region of the first
/// foreground pixel as a closed clockwise polygon and computes the bezier
/// control-point pair of every vertex, index-aligned with the vertices.
pub fn trace_path(matrix: &BitmapMatrix, ratio: SmoothRatio) -> (r: Result<
    (Vec<Point>, Vec<ControlPoints>),
    TraceError,
>)
    requires
        matrix.wf(),
        ratio.wf(),
    ensures
        (r matches Err(e) && e == TraceError::EmptyBitmap) <==> !has_fg(*matrix),
        match r {
            Ok(pair) => traced_contour(*matrix, pair.0@) && smoothed_contour(
                pair.0@,
                pair.1@,
                ratio.num as int,
                ratio.den as int,
            ),
            Err(e) => match e {
                TraceError::EmptyBitmap => !has_fg(*matrix),
                TraceError::TraceDidNotClose => forall|sx: int, sy: int, j: int|
                    is_first_fg(*matrix, sx, sy) && 1 <= j <= matrix.data@.len()
                        ==> #[trigger] walk_pos(*matrix, sx, sy, j) != (sx, sy),
                TraceError::InvalidDirection => false,
            },
        },
{
    let contour = match trace(matrix) {
        Ok(c) => c,
        Err(e) => {
            return Err(e);
        },
    };
    let len = contour.len();
    let mut cps: Vec<ControlPoints> = Vec::new();
    let mut i: usize = 0;
    while i < len
        invariant
            ratio.wf(),
            traced_contour(*matrix, contour@),
            has_fg(*matrix),
            len == contour@.len(),
            1 <= len,
            i <= len,
            cps@.len() == i,
            forall|j: int|
                0 <= j < i ==> cp_post(
                    #[trigger] cps@[j],
                    contour@[j].x as int,
                    contour@[j].y as int,
                    contour@[prev_vertex(j, len as int)].x as int,
                    contour@[prev_vertex(j, len as int)].y as int,
                    contour@[next_vertex(j, len as int)].x as int,
                    contour@[next_vertex(j, len as int)].y as int,
                    ratio.num as int,
                    ratio.den as int,
                ),
        decreases len - i,
    {
        let p = contour[i];
        let pv = if i == 0 {
            contour[len - 1]
        } else {
            contour[i - 1]
        };
        let nv = if i + 1 == len {
            contour[0]
        } else {
            contour[i + 1]
        };
        let cp = calc_bezier_control_point(p.x, p.y, pv.x, pv.y, nv.x, nv.y, ratio);
        cps.push(cp);
        i = i + 1;
    }
    Ok((contour, cps))
}

} // verus!
