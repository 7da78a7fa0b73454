//! The one-cell field: a whole two-dimensional grid laid out as a single cell
//! of the lattice.

use vstd::prelude::*;
use vstd::arithmetic::mul::lemma_mul_is_distributive_add_other_way;
use vstd::set_lib::lemma_set_disjoint_lens;
use ndarray::Array2;
use crate::sample::{cell_in_lattice, cell_sample, Sample};

verus! {

/// A two-dimensional grid of samples, kept in an array of ndarray.
#[verifier::external_body]
pub struct SampleGrid {
    cells: Array2<Sample>,
}

/// The number of rows and of columns of a grid.
pub uninterp spec fn grid_shape(grid: SampleGrid) -> (nat, nat);

/// The samples of a grid, each under its row and column.
pub uninterp spec fn grid_cells(grid: SampleGrid) -> Map<(int, int), Sample>;

/// The index pairs of a grid of `rows` by `cols`.
pub open spec fn index_pairs(rows: nat, cols: nat) -> Set<(int, int)> {
    Set::new(|at: (int, int)| 0 <= at.0 < rows && 0 <= at.1 < cols)
}

/// The grid of `rows` by `cols` whose rows are cut one after another from
/// `samples`.
pub open spec fn row_major(samples: Seq<Sample>, rows: nat, cols: nat) -> Map<(int, int), Sample> {
    Map::new(
        |at: (int, int)| index_pairs(rows, cols).contains(at),
        |at: (int, int)| samples[at.0 * cols + at.1],
    )
}

/// Whether an array of `rows` by `cols` can exist: the product of its axis
/// lengths, a length of zero counted as one, must not pass `isize::MAX`.
pub open spec fn shape_fits(rows: nat, cols: nat) -> bool {
    (if rows == 0 { 1 } else { rows }) * (if cols == 0 { 1 } else { cols }) <= isize::MAX
}

/// `Array2::from_shape_vec` of ndarray with a pair of axis lengths. It fails
/// where the shape cannot exist or where the vector does not hold exactly one
/// element for each index pair; otherwise element `(i, j)` of the array is
/// element `i * cols + j` of the vector.
#[verifier::external_body]
fn grid_from_shape_vec(rows: usize, cols: usize, samples: Vec<Sample>) -> (grid: Option<SampleGrid>)
    ensures
        grid is Some <==> (shape_fits(rows as nat, cols as nat) && rows * cols == samples@.len()),
        grid matches Some(g) ==> grid_shape(g) == (rows as nat, cols as nat),
        grid matches Some(g) ==> grid_cells(g) == row_major(samples@, rows as nat, cols as nat),
{
    match Array2::from_shape_vec((rows, cols), samples) {
        Ok(cells) => Some(SampleGrid { cells }),
        Err(_) => None,
    }
}

/// `ArrayBase::dim` of ndarray, on a two-dimensional array: the lengths of
/// the two axes, rows first. An array holds one element under every index pair
/// below those lengths and none elsewhere.
#[verifier::external_body]
fn grid_dim(grid: &SampleGrid) -> (d: (usize, usize))
    ensures
        (d.0 as nat, d.1 as nat) == grid_shape(*grid),
        grid_cells(*grid).dom() == index_pairs(d.0 as nat, d.1 as nat),
{
    grid.cells.dim()
}

/// Indexing an array of ndarray with a pair of indices: the element under that
/// pair. ndarray panics on an index beyond an axis, which `requires` excludes.
#[verifier::external_body]
fn grid_get(grid: &SampleGrid, i: usize, j: usize) -> (s: Sample)
    requires
        i < grid_shape(*grid).0,
        j < grid_shape(*grid).1,
    ensures
        s == grid_cells(*grid)[(i as int, j as int)],
{
    grid.cells[[i, j]]
}

/// Assignment through an index pair into an array of ndarray: the element
/// under that pair is replaced, every other element and the shape stay.
/// ndarray panics on an index beyond an axis, which `requires` excludes.
#[verifier::external_body]
fn grid_set(grid: &mut SampleGrid, i: usize, j: usize, s: Sample)
    requires
        i < grid_shape(*old(grid)).0,
        j < grid_shape(*old(grid)).1,
    ensures
        grid_shape(*final(grid)) == grid_shape(*old(grid)),
        grid_cells(*final(grid)) == grid_cells(*old(grid)).insert((i as int, j as int), s),
{
    grid.cells[[i, j]] = s;
}

/// The sample at row `i` and column `j` of a grid of `rows` by `cols` that is
/// laid out as the single cell `(x, y)`.
pub open spec fn unit_sample(x: u32, y: u32, i: int, j: int, rows: nat, cols: nat) -> Sample {
    cell_sample(x, y, i, j, rows as int, cols as int)
}

/// The field of a grid of `rows` by `cols` laid out as the single cell
/// `(x, y)`.
pub open spec fn unit_field(x: u32, y: u32, rows: nat, cols: nat) -> Map<(int, int), Sample> {
    Map::new(
        |at: (int, int)| index_pairs(rows, cols).contains(at),
        |at: (int, int)| unit_sample(x, y, at.0, at.1, rows, cols),
    )
}

/// A two-dimensional buffer that can be laid out as one cell of noise.
pub trait Perlin {
    /// The number of rows and of columns of the buffer.
    spec fn shape(&self) -> (nat, nat);

    /// The samples of the buffer, each under its row and column.
    spec fn cells(&self) -> Map<(int, int), Sample>;

    /// Lays the whole buffer out as the cell `(x, y)`: every element becomes
    /// the sample of that cell at the element's own row and column, on a grid
    /// as large as the buffer.
    fn perlin_inplace(&mut self, x: u32, y: u32)
        requires
            cell_in_lattice(x, y),
        ensures
            final(self).shape() == old(self).shape(),
            final(self).cells() == unit_field(x, y, old(self).shape().0, old(self).shape().1),
    ;
}

impl SampleGrid {
    /// Builds the grid of `rows` by `cols` whose rows are cut one after
    /// another from `samples`, or nothing where the shape cannot exist or
    /// `samples` does not hold `rows * cols` samples.
    pub fn from_vec(rows: usize, cols: usize, samples: Vec<Sample>) -> (grid: Option<SampleGrid>)
        ensures
            grid is Some <==> shape_fits(rows as nat, cols as nat) && rows * cols
                == samples@.len(),
            grid is Some ==> grid->0.shape() == (rows as nat, cols as nat),
            grid is Some ==> grid->0.cells() == row_major(samples@, rows as nat, cols as nat),
    {
        grid_from_shape_vec(rows, cols, samples)
    }

    /// The number of rows and of columns.
    pub fn dim(&self) -> (d: (usize, usize))
        ensures
            (d.0 as nat, d.1 as nat) == self.shape(),
            self.cells().dom() == index_pairs(d.0 as nat, d.1 as nat),
    {
        grid_dim(self)
    }

    /// The sample at row `i` and column `j`, or nothing where the grid has no
    /// such place.
    pub fn get(&self, i: usize, j: usize) -> (s: Option<Sample>)
        ensures
            s is Some <==> i < self.shape().0 && j < self.shape().1,
            s is Some ==> s->0 == self.cells()[(i as int, j as int)],
    {
        let (rows, cols) = grid_dim(self);
        if i < rows && j < cols {
            Some(grid_get(self, i, j))
        } else {
            None
        }
    }
}

impl Perlin for SampleGrid {
    open spec fn shape(&self) -> (nat, nat) {
        grid_shape(*self)
    }

    open spec fn cells(&self) -> Map<(int, int), Sample> {
        grid_cells(*self)
    }

    fn perlin_inplace(&mut self, x: u32, y: u32) {
        let (rows, cols) = grid_dim(self);
        let mut i: usize = 0;
        while i < rows
            invariant
                cell_in_lattice(x, y),
                i <= rows,
                grid_shape(*self) == (rows as nat, cols as nat),
                grid_shape(*self) == grid_shape(*old(self)),
                grid_cells(*self).dom() == index_pairs(rows as nat, cols as nat),
                forall|r: int, c: int|
                    0 <= r < i && 0 <= c < cols ==> #[trigger] grid_cells(*self)[(r, c)]
                        == unit_sample(x, y, r, c, rows as nat, cols as nat),
            decreases rows - i,
        {
            let mut j: usize = 0;
            while j < cols
                invariant
                    cell_in_lattice(x, y),
                    i < rows,
                    j <= cols,
                    grid_shape(*self) == (rows as nat, cols as nat),
                    grid_shape(*self) == grid_shape(*old(self)),
                    grid_cells(*self).dom() == index_pairs(rows as nat, cols as nat),
                    forall|r: int, c: int|
                        (0 <= r < i && 0 <= c < cols) || (r == i && 0 <= c < j)
                            ==> #[trigger] grid_cells(*self)[(r, c)] == unit_sample(
                            x,
                            y,
                            r,
                            c,
                            rows as nat,
                            cols as nat,
                        ),
                decreases cols - j,
            {
                grid_set(self, i, j, Sample::new(x, y, i, j, rows, cols));
                j += 1;
            }
            i += 1;
        }
        assert(grid_cells(*self) =~= unit_field(x, y, rows as nat, cols as nat));
    }
}

/// The index pairs of row `r` of a grid with `cols` columns.
spec fn row_pairs(r: int, cols: nat) -> Set<(int, int)> {
    Set::new(|at: (int, int)| at.0 == r && 0 <= at.1 < cols)
}

/// A row of a grid has as many index pairs as the grid has columns.
proof fn lemma_row_pairs_count(r: int, cols: nat)
    ensures
        row_pairs(r, cols).finite(),
        row_pairs(r, cols).len() == cols,
    decreases cols,
{
    if cols == 0 {
        assert(row_pairs(r, cols) =~= Set::empty());
    } else {
        let fewer = (cols - 1) as nat;
        lemma_row_pairs_count(r, fewer);
        assert(row_pairs(r, cols) =~= row_pairs(r, fewer).insert((r, cols - 1)));
    }
}

/// A grid of `rows` by `cols` has `rows * cols` places: a buffer holds one
/// sample for every pixel of its shape and no more.
pub proof fn lemma_index_pairs_count(rows: nat, cols: nat)
    ensures
        index_pairs(rows, cols).finite(),
        index_pairs(rows, cols).len() == rows * cols,
    decreases rows,
{
    if rows == 0 {
        assert(index_pairs(rows, cols) =~= Set::empty());
    } else {
        let fewer = (rows - 1) as nat;
        let above = index_pairs(fewer, cols);
        let last = row_pairs(fewer as int, cols);
        lemma_index_pairs_count(fewer, cols);
        lemma_row_pairs_count(fewer as int, cols);
        assert(index_pairs(rows, cols) =~= above + last);
        assert(above.disjoint(last));
        lemma_set_disjoint_lens(above, last);
        lemma_mul_is_distributive_add_other_way(cols as int, fewer as int, 1);
    }
}

/// Every sample of a one-cell field is well formed, and its place on the
/// cell's grid is its place in the buffer.
pub proof fn lemma_unit_field_samples(x: u32, y: u32, rows: nat, cols: nat, i: int, j: int)
    requires
        cell_in_lattice(x, y),
        rows <= usize::MAX,
        cols <= usize::MAX,
        0 <= i < rows,
        0 <= j < cols,
    ensures
        unit_field(x, y, rows, cols).dom().contains((i, j)),
        ({
            let s = unit_field(x, y, rows, cols)[(i, j)];
            &&& s.wf()
            &&& s.cell_x == x
            &&& s.cell_y == y
            &&& s.row == i
            &&& s.col == j
            &&& s.rows == rows
            &&& s.cols == cols
        }),
{
}

/// Two buffers of one shape laid out as the same cell hold the same samples.
pub proof fn lemma_accumulator_deterministic(
    first: Map<(int, int), Sample>,
    second: Map<(int, int), Sample>,
    x: u32,
    y: u32,
    rows: nat,
    cols: nat,
)
    requires
        first == unit_field(x, y, rows, cols),
        second == unit_field(x, y, rows, cols),
    ensures
        first == second,
{
}

} // verus!
