//! The exact description of one sample of a noise field.

use vstd::prelude::*;
use crate::gradient::{gradient_index, gradient_index_spec};

verus! {

/// The direction indices of the gradients at the four corners of a cell.
///
/// `g_ab` belongs to the corner that lies `a` steps along x and `b` steps
/// along y from the cell's own corner.
#[derive(Clone, Copy, Debug, PartialEq, Eq, Structural)]
pub struct Corners {
    pub g00: u8,
    pub g01: u8,
    pub g10: u8,
    pub g11: u8,
}

/// One sample of a noise field: the cell it lies in, the gradients at the
/// corners of that cell, and its place on the grid of sub-cells into which the
/// cell is divided.
///
/// The sample sits at the centre of its sub-cell, so its offset from the
/// cell's corner is `(col + 1/2) / cols` along x and `(row + 1/2) / rows`
/// along y.
#[derive(Clone, Copy, Debug, PartialEq, Eq, Structural)]
pub struct Sample {
    pub cell_x: u32,
    pub cell_y: u32,
    pub corners: Corners,
    pub col: usize,
    pub cols: usize,
    pub row: usize,
    pub rows: usize,
}

/// The direction index of the gradient at the corner `(a, b)` of cell `(x, y)`.
pub open spec fn corner_gradient(x: u32, y: u32, a: int, b: int) -> u8 {
    gradient_index_spec((x + a) as u32, (y + b) as u32)
}

/// The gradients at the four corners of cell `(x, y)`.
pub open spec fn cell_corners(x: u32, y: u32) -> Corners {
    Corners {
        g00: corner_gradient(x, y, 0, 0),
        g01: corner_gradient(x, y, 0, 1),
        g10: corner_gradient(x, y, 1, 0),
        g11: corner_gradient(x, y, 1, 1),
    }
}

/// The sample of cell `(x, y)` at place `(row, col)` of a grid of
/// `rows` by `cols` sub-cells.
pub open spec fn cell_sample(x: u32, y: u32, row: int, col: int, rows: int, cols: int) -> Sample {
    Sample {
        cell_x: x,
        cell_y: y,
        corners: cell_corners(x, y),
        col: col as usize,
        cols: cols as usize,
        row: row as usize,
        rows: rows as usize,
    }
}

/// Whether `(x, y)` names a cell all of whose corners lie in the lattice.
pub open spec fn cell_in_lattice(x: u32, y: u32) -> bool {
    x < u32::MAX && y < u32::MAX
}

impl Sample {
    /// A sample is well formed when its cell lies in the lattice, its corners
    /// are those of its cell, and its place lies on the grid.
    pub open spec fn wf(self) -> bool {
        &&& cell_in_lattice(self.cell_x, self.cell_y)
        &&& self.corners == cell_corners(self.cell_x, self.cell_y)
        &&& self.col < self.cols
        &&& self.row < self.rows
    }

    /// Twice the offset along x, counted in sub-cells.
    pub open spec fn twice_u(self) -> int {
        2 * self.col + 1
    }

    /// Twice the offset along y, counted in sub-cells.
    pub open spec fn twice_v(self) -> int {
        2 * self.row + 1
    }

    /// Builds the sample of cell `(x, y)` at place `(row, col)` of a grid of
    /// `rows` by `cols` sub-cells.
    pub fn new(x: u32, y: u32, row: usize, col: usize, rows: usize, cols: usize) -> (s: Sample)
        requires
            cell_in_lattice(x, y),
            row < rows,
            col < cols,
        ensures
            s == cell_sample(x, y, row as int, col as int, rows as int, cols as int),
            s.wf(),
    {
        Sample { cell_x: x, cell_y: y, corners: corners_of(x, y), col, cols, row, rows }
    }
}

/// Computes the gradients at the four corners of cell `(x, y)`.
pub fn corners_of(x: u32, y: u32) -> (c: Corners)
    requires
        cell_in_lattice(x, y),
    ensures
        c == cell_corners(x, y),
{
    Corners {
        g00: gradient_index(x, y),
        g01: gradient_index(x, y + 1),
        g10: gradient_index(x + 1, y),
        g11: gradient_index(x + 1, y + 1),
    }
}

/// A corner shared by two cells carries one gradient: the far corner of cell
/// `(x - 1, y - 1)` and the near corner of cell `(x, y)` are the same lattice
/// point, and so are the corners that `(x, y)` shares with its neighbours to
/// the left and below.
pub proof fn lemma_corner_agreement(x: u32, y: u32)
    requires
        1 <= x,
        1 <= y,
    ensures
        corner_gradient((x - 1) as u32, (y - 1) as u32, 1, 1) == corner_gradient(x, y, 0, 0),
        corner_gradient((x - 1) as u32, y, 1, 0) == corner_gradient(x, y, 0, 0),
        corner_gradient(x, (y - 1) as u32, 0, 1) == corner_gradient(x, y, 0, 0),
        cell_corners((x - 1) as u32, (y - 1) as u32).g11 == cell_corners(x, y).g00,
{
}

/// The offset of a well-formed sample lies strictly inside its cell: along
/// each axis it is more than zero and less than one.
pub proof fn lemma_offset_inside_cell(s: Sample)
    requires
        s.wf(),
    ensures
        0 < s.twice_u() < 2 * s.cols,
        0 < s.twice_v() < 2 * s.rows,
{
}

} // verus!
