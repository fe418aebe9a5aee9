//! An immutable, bounds-checked view over a flattened binary pixel grid.

use vstd::prelude::*;

verus! {

/// A binary raster image: pixel values in row-major order plus a positive
/// width. The height is implied by `data.len() / width`. A pixel is
/// foreground exactly when its value is nonzero. The matrix is queried,
/// never mutated, by the tracer.
pub struct BitmapMatrix {
    pub data: Vec<u8>,
    pub width: usize,
}

impl BitmapMatrix {
    /// The number of rows of the grid.
    pub open spec fn height_spec(self) -> int {
        self.data@.len() as int / self.width as int
    }

    /// Well-formedness: a positive width, a pixel count that is a whole
    /// number of rows, and few enough pixels that every linear index and
    /// every coordinate fits in an `i32`.
    pub open spec fn wf(self) -> bool {
        &&& 1 <= self.width
        &&& self.data@.len() as int % (self.width as int) == 0
        &&& self.data@.len() <= 0x7fff_ffff
    }

    /// Whether (x, y) lies inside the grid.
    pub open spec fn in_bounds(self, x: int, y: int) -> bool {
        0 <= x < self.width && 0 <= y < self.height_spec()
    }

    /// Whether the pixel at (x, y) is foreground. Every coordinate outside
    /// the grid is background.
    pub open spec fn fg(self, x: int, y: int) -> bool {
        self.in_bounds(x, y) && self.data@[y * self.width as int + x] != 0
    }

    /// Builds a matrix after checking the dimensions: the length must be a
    /// positive multiple of the width and small enough for `i32` coordinates.
    pub fn new(data: Vec<u8>, width: usize) -> (r: Option<BitmapMatrix>)
        ensures
            match r {
                Some(m) => m.data@ == data@ && m.width == width && m.wf(),
                None => !(BitmapMatrix { data, width }).wf(),
            },
    {
        if width >= 1 && data.len() % width == 0 && data.len() <= 0x7fff_ffff {
            Some(BitmapMatrix { data, width })
        } else {
            None
        }
    }

    /// The number of rows of the grid.
    pub fn height(&self) -> (h: usize)
        requires
            self.wf(),
        ensures
            h == self.height_spec(),
    {
        self.data.len() / self.width
    }
}

/// Returns whether the pixel at (x, y) is set, and `false` (not an error)
/// for any coordinate outside the grid.
pub fn check_value(matrix: &BitmapMatrix, x: i32, y: i32) -> (r: bool)
    requires
        matrix.wf(),
    ensures
        r == matrix.fg(x as int, y as int),
{
    if x < 0 || y < 0 {
        return false;
    }
    let xu = x as usize;
    let yu = y as usize;
    if xu >= matrix.width {
        return false;
    }
    let h = matrix.data.len() / matrix.width;
    if yu >= h {
        return false;
    }
    assert(yu * matrix.width + xu < matrix.data@.len()) by (nonlinear_arith)
        requires
            xu < matrix.width,
            yu < h,
            h == matrix.data@.len() as int / matrix.width as int,
            matrix.data@.len() as int % (matrix.width as int) == 0,
            1 <= matrix.width,
    ;
    matrix.data[yu * matrix.width + xu] != 0
}

} // verus!
