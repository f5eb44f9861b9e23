//! The pixel grid that every transform works on.

use vstd::prelude::*;
use crate::color::Color;

verus! {

/// A grid of colours, row after row from the top, each row from the left.
pub struct PixelBuffer {
    pub width: usize,
    pub height: usize,
    pub pixels: Vec<Color>,
}

/// Two grids have the same width and height and as many pixels.
pub open spec fn same_shape(a: PixelBuffer, b: PixelBuffer) -> bool {
    &&& a.width == b.width
    &&& a.height == b.height
    &&& a.pixels@.len() == b.pixels@.len()
}

/// The place of the pixel (`x`, `y`) among the pixels of a grid `width` wide.
pub open spec fn cell_index(width: int, x: int, y: int) -> int {
    y * width + x
}

/// A cell inside a grid has its place inside the grid's pixels.
pub proof fn lemma_cell_index_bound(width: int, height: int, x: int, y: int)
    requires
        0 <= x < width,
        0 <= y < height,
    ensures
        0 <= y * width,
        0 <= cell_index(width, x, y) < width * height,
{
    assert(0 <= y * width && 0 <= y * width + x < width * height) by (nonlinear_arith)
        requires
            0 <= x < width,
            0 <= y < height,
    ;
}

/// The cell of a place inside the grid: its column is the remainder by the
/// width, its row the quotient, and both lie inside the grid.
pub proof fn lemma_index_cell(width: int, height: int, i: int)
    requires
        0 <= i < width * height,
        0 <= width,
        0 <= height,
    ensures
        width > 0,
        0 <= i % width < width,
        0 <= i / width < height,
        cell_index(width, i % width, i / width) == i,
{
    assert(width > 0) by (nonlinear_arith)
        requires
            0 <= i < width * height,
            0 <= width,
    ;
    assert(0 <= i % width < width && 0 <= i / width < height && (i / width) * width + i % width
        == i) by (nonlinear_arith)
        requires
            0 <= i < width * height,
            width > 0,
            0 <= height,
    ;
}

impl PixelBuffer {
    /// The grid holds exactly `width * height` pixels, a number within `usize`.
    pub open spec fn wf(&self) -> bool {
        &&& self.pixels@.len() == self.width * self.height
        &&& self.width * self.height <= usize::MAX
    }

    /// The colour at column `x` of row `y`.
    pub open spec fn at(&self, x: int, y: int) -> Color {
        self.pixels@[cell_index(self.width as int, x, y)]
    }

    /// A grid over the given pixels, or nothing where their number is not
    /// `width * height`.
    pub fn from_pixels(width: usize, height: usize, pixels: Vec<Color>) -> (r: Option<PixelBuffer>)
        ensures
            (r is Some) == (pixels@.len() == width * height),
            r matches Some(grid) ==> grid.wf() && grid.width == width && grid.height == height
                && grid.pixels@ == pixels@,
    {
        let count: usize = pixels.len();
        let area: Option<usize> = width.checked_mul(height);
        match area {
            Some(n) => {
                if n == count {
                    Some(PixelBuffer { width, height, pixels })
                } else {
                    None
                }
            },
            None => {
                None
            },
        }
    }

    /// The colour at column `x` of row `y`.
    pub fn get_pixel(&self, x: usize, y: usize) -> (c: Color)
        requires
            self.wf(),
            x < self.width,
            y < self.height,
        ensures
            c == self.at(x as int, y as int),
    {
        proof {
            lemma_cell_index_bound(self.width as int, self.height as int, x as int, y as int);
        }
        self.pixels[y * self.width + x]
    }

    /// Writes `c` at column `x` of row `y` and leaves every other pixel.
    pub fn put_pixel(&mut self, x: usize, y: usize, c: Color)
        requires
            old(self).wf(),
            x < old(self).width,
            y < old(self).height,
        ensures
            final(self).wf(),
            same_shape(*final(self), *old(self)),
            final(self).pixels@ == old(self).pixels@.update(
                cell_index(old(self).width as int, x as int, y as int),
                c,
            ),
    {
        proof {
            lemma_cell_index_bound(self.width as int, self.height as int, x as int, y as int);
        }
        let k: usize = y * self.width + x;
        self.pixels.set(k, c);
    }
}

} // verus!
