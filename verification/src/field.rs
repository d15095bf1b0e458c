//! The scalar field: a 2D grid of intensity samples derived from an image,
//! consumed by point sampling at integer coordinates.

use vstd::prelude::*;

verus! {

/// Largest accepted field dimension; keeps all coordinate arithmetic far
/// inside the `i64` range.
pub const MAX_FIELD_DIM: usize = 16384;

/// A width x height grid of intensity samples, row-major, immutable once
/// produced.
pub struct ScalarField {
    pub data: Vec<u8>,
    pub width: usize,
    pub height: usize,
}

impl ScalarField {
    /// The dimensions are sane and the sample buffer covers the grid.
    pub open spec fn wf(&self) -> bool {
        &&& 2 <= self.width <= MAX_FIELD_DIM
        &&& 2 <= self.height <= MAX_FIELD_DIM
        &&& self.data@.len() == self.width * self.height
    }

    /// The sample at column `x`, row `y`.
    pub open spec fn at(&self, x: int, y: int) -> u8 {
        self.data@[y * self.width + x]
    }

    /// Every cell on the outermost ring of the grid is strictly above
    /// `threshold`: the at-or-below region whose boundary is traced cannot
    /// touch the border.
    pub open spec fn border_above(&self, threshold: u8) -> bool {
        forall|x: int, y: int|
            0 <= x < self.width && 0 <= y < self.height && (x == 0 || x == self.width - 1 || y == 0
                || y == self.height - 1) ==> #[trigger] self.at(x, y) > threshold
    }

    /// Every cell strictly above `threshold` lies at least two cells from
    /// the border: the walk, which hugs the above-threshold region from its
    /// at-or-below side, stays inside the grid.
    pub open spec fn above_cells_interior(&self, threshold: u8) -> bool {
        forall|x: int, y: int|
            0 <= x < self.width && 0 <= y < self.height && #[trigger] self.at(x, y) > threshold
                ==> 2 <= x <= self.width - 3 && 2 <= y <= self.height - 3
    }

    /// The tracer's precondition: one of two field layouts that keep every
    /// cell the walk touches inside the grid. Either the border ring is
    /// above the threshold (the traced region is the low one and cannot
    /// reach the border), or every above-threshold cell is at least two
    /// cells from the border (the traced region is the background and the
    /// walk never strays more than one cell from the figure).
    pub open spec fn traceable(&self, threshold: u8) -> bool {
        self.border_above(threshold) || self.above_cells_interior(threshold)
    }

    /// Builds a field from a row-major sample buffer, rejecting dimensions
    /// that are degenerate, too large, or inconsistent with the buffer.
    pub fn new(width: usize, height: usize, data: Vec<u8>) -> (r: Option<ScalarField>)
        ensures
            match r {
                Some(f) => {
                    &&& f.wf()
                    &&& f.width == width
                    &&& f.height == height
                    &&& f.data@ == data@
                },
                None => !(2 <= width <= MAX_FIELD_DIM && 2 <= height <= MAX_FIELD_DIM
                    && data@.len() == width * height),
            },
    {
        if 2 <= width && width <= MAX_FIELD_DIM && 2 <= height && height <= MAX_FIELD_DIM {
            proof {
                assert(width * height <= 16384 * 16384) by (nonlinear_arith)
                    requires
                        width <= 16384,
                        height <= 16384,
                ;
            }
            if data.len() == width * height {
                Some(ScalarField { data, width, height })
            } else {
                None
            }
        } else {
            None
        }
    }

    /// Samples the field at `(x, y)`.
    pub fn get(&self, x: usize, y: usize) -> (r: u8)
        requires
            self.wf(),
            x < self.width,
            y < self.height,
        ensures
            r == self.at(x as int, y as int),
    {
        proof {
            assert(y * self.width + x < self.width * self.height && y * self.width + x < 16384
                * 16384) by (nonlinear_arith)
                requires
                    x < self.width,
                    y < self.height,
                    self.width <= 16384,
                    self.height <= 16384,
            ;
        }
        self.data[y * self.width + x]
    }
}

} // verus!
