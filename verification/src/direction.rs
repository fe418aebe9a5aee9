//! The 8 neighbor offsets in clockwise order starting at North, the inverse
//! lookup from an offset to its clockwise position, and the neighbor count.

use vstd::prelude::*;
use crate::TraceError;
use crate::bitmap::BitmapMatrix;
use crate::bitmap::check_value;

verus! {

/// The x component of the clockwise direction at position `d`
/// (0 = North, 1 = North-East, ..., 7 = North-West).
pub open spec fn dx_of(d: int) -> int {
    if d == 0 { 0 }       // N
    else if d == 1 { 1 }  // NE
    else if d == 2 { 1 }  // E
    else if d == 3 { 1 }  // SE
    else if d == 4 { 0 }  // S
    else if d == 5 { -1 } // SW
    else if d == 6 { -1 } // W
    else if d == 7 { -1 } // NW
    else { 0 }
}

/// The y component of the clockwise direction at position `d`.
pub open spec fn dy_of(d: int) -> int {
    if d == 0 { -1 }      // N
    else if d == 1 { -1 } // NE
    else if d == 2 { 0 }  // E
    else if d == 3 { 1 }  // SE
    else if d == 4 { 1 }  // S
    else if d == 5 { 1 }  // SW
    else if d == 6 { 0 }  // W
    else if d == 7 { -1 } // NW
    else { 0 }
}

/// Whether (dx, dy) is one of the 8 valid unit offsets.
pub open spec fn is_unit_delta(dx: int, dy: int) -> bool {
    -1 <= dx <= 1 && -1 <= dy <= 1 && !(dx == 0 && dy == 0)
}

/// The clockwise position of the unit offset (dx, dy); meaningful only
/// when `is_unit_delta(dx, dy)` holds.
pub open spec fn delta_index(dx: int, dy: int) -> int {
    if dx == 0 && dy == -1 { 0 }
    else if dx == 1 && dy == -1 { 1 }
    else if dx == 1 && dy == 0 { 2 }
    else if dx == 1 && dy == 1 { 3 }
    else if dx == 0 && dy == 1 { 4 }
    else if dx == -1 && dy == 1 { 5 }
    else if dx == -1 && dy == 0 { 6 }
    else if dx == -1 && dy == -1 { 7 }
    else { 0 }
}

/// The position opposite to `d` in the clockwise ordering: the direction
/// whose offset is the negation of the offset of `d`.
pub open spec fn opposite(d: int) -> int {
    if d < 4 { d + 4 } else { d - 4 }
}

/// The offset of the opposite position is the negated offset.
pub proof fn lemma_opposite_delta(d: int)
    requires
        0 <= d < 8,
    ensures
        0 <= opposite(d) < 8,
        dx_of(opposite(d)) == -dx_of(d),
        dy_of(opposite(d)) == -dy_of(d),
{
}

/// Each of the 8 offsets occurs at exactly one clockwise position.
pub proof fn lemma_delta_index_inverse(d: int)
    requires
        0 <= d < 8,
    ensures
        delta_index(dx_of(d), dy_of(d)) == d,
        is_unit_delta(dx_of(d), dy_of(d)),
{
}

/// The offset at clockwise position `d` (0 = North, ..., 7 = North-West).
pub fn clockwise_delta(d: usize) -> (r: (i32, i32))
    requires
        d < 8,
    ensures
        r.0 as int == dx_of(d as int),
        r.1 as int == dy_of(d as int),
{
    match d {
        0 => (0, -1),
        1 => (1, -1),
        2 => (1, 0),
        3 => (1, 1),
        4 => (0, 1),
        5 => (-1, 1),
        6 => (-1, 0),
        _ => (-1, -1),
    }
}

/// Inverse lookup from a unit offset to its clockwise position. Fails with
/// `InvalidDirection` exactly when the input is not one of the 8 valid unit
/// offsets; this never happens with correct callers.
pub fn get_clockwise_index(dx: &i32, dy: &i32) -> (r: Result<usize, TraceError>)
    ensures
        match r {
            Ok(i) => i < 8 && dx_of(i as int) == *dx as int && dy_of(i as int) == *dy as int
                && i as int == delta_index(*dx as int, *dy as int) && is_unit_delta(
                *dx as int,
                *dy as int,
            ),
            Err(e) => e == TraceError::InvalidDirection && !is_unit_delta(
                *dx as int,
                *dy as int,
            ),
        },
{
    match (*dx, *dy) {
        (0, -1) => Ok(0),
        (1, -1) => Ok(1),
        (1, 0) => Ok(2),
        (1, 1) => Ok(3),
        (0, 1) => Ok(4),
        (-1, 1) => Ok(5),
        (-1, 0) => Ok(6),
        (-1, -1) => Ok(7),
        _ => Err(TraceError::InvalidDirection),
    }
}

/// The number of foreground pixels among the neighbors of (x, y) at the
/// first `k` clockwise positions.
pub open spec fn neighbor_count(m: BitmapMatrix, x: int, y: int, k: int) -> int
    decreases k,
{
    if k <= 0 {
        0
    } else {
        neighbor_count(m, x, y, k - 1) + if m.fg(x + dx_of(k - 1), y + dy_of(k - 1)) {
            1int
        } else {
            0int
        }
    }
}

/// Counts how many of the 8 neighbors of (x, y) are foreground.
pub fn sum_around(matrix: &BitmapMatrix, x: i32, y: i32) -> (r: u8)
    requires
        matrix.wf(),
        i32::MIN < x < i32::MAX,
        i32::MIN < y < i32::MAX,
    ensures
        r as int == neighbor_count(*matrix, x as int, y as int, 8),
        r <= 8,
{
    let mut sum: u8 = 0;
    let mut k: usize = 0;
    while k < 8
        invariant
            k <= 8,
            sum <= k,
            matrix.wf(),
            i32::MIN < x < i32::MAX,
            i32::MIN < y < i32::MAX,
            sum as int == neighbor_count(*matrix, x as int, y as int, k as int),
        decreases 8 - k,
    {
        let (ddx, ddy) = clockwise_delta(k);
        if check_value(matrix, x + ddx, y + ddy) {
            sum = sum + 1;
        }
        k = k + 1;
    }
    sum
}

/// A pixel whose 8 neighbors are all foreground has neighbor count 8.
pub proof fn lemma_neighbor_count_full(m: BitmapMatrix, x: int, y: int)
    requires
        m.fg(x, y - 1),
        m.fg(x + 1, y - 1),
        m.fg(x + 1, y),
        m.fg(x + 1, y + 1),
        m.fg(x, y + 1),
        m.fg(x - 1, y + 1),
        m.fg(x - 1, y),
        m.fg(x - 1, y - 1),
    ensures
        neighbor_count(m, x, y, 8) == 8,
{
    reveal_with_fuel(neighbor_count, 9);
}

/// An isolated pixel, one with no foreground neighbor, has neighbor count 0.
pub proof fn lemma_neighbor_count_isolated(m: BitmapMatrix, x: int, y: int)
    requires
        !m.fg(x, y - 1),
        !m.fg(x + 1, y - 1),
        !m.fg(x + 1, y),
        !m.fg(x + 1, y + 1),
        !m.fg(x, y + 1),
        !m.fg(x - 1, y + 1),
        !m.fg(x - 1, y),
        !m.fg(x - 1, y - 1),
    ensures
        neighbor_count(m, x, y, 8) == 0,
{
    reveal_with_fuel(neighbor_count, 9);
}

} // verus!
