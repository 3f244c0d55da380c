//! The shape of a grid and the numbering of its cells.

use vstd::prelude::*;
use crate::error::GridError;
use vstd::arithmetic::div_mod::lemma_fundamental_div_mod;
use vstd::arithmetic::div_mod::lemma_fundamental_div_mod_converse;
use vstd::arithmetic::div_mod::lemma_div_pos_is_pos;
use vstd::arithmetic::div_mod::lemma_mod_bound;

verus! {

/// Width and height of a grid, counted in cells.
///
/// The cell in column `x` and row `y` has the index `x * height + y`: cells
/// are numbered column by column, and this is also the order in which a scan
/// of the grid visits them.
#[derive(Clone, Copy, Debug, PartialEq, Eq, Structural)]
pub struct Extent {
    pub width: usize,
    pub height: usize,
}

impl Extent {
    /// A grid of this shape has a cell, and its cells can be counted.
    pub open spec fn wf(self) -> bool {
        &&& 0 < self.width
        &&& 0 < self.height
        &&& self.width * self.height <= usize::MAX
    }

    /// The number of cells.
    pub open spec fn cell_count(self) -> int {
        self.width * self.height
    }

    /// Whether column `x`, row `y` lies inside the grid.
    pub open spec fn contains(self, x: int, y: int) -> bool {
        0 <= x < self.width && 0 <= y < self.height
    }

    /// The index of the cell in column `x`, row `y`.
    pub open spec fn index_of(self, x: int, y: int) -> int {
        x * self.height + y
    }

    /// The column of the cell with index `i`.
    pub open spec fn column_of(self, i: int) -> int {
        i / (self.height as int)
    }

    /// The row of the cell with index `i`.
    pub open spec fn row_of(self, i: int) -> int {
        i % (self.height as int)
    }

    /// Checks the two dimensions and makes the extent.
    pub fn new(width: usize, height: usize) -> (made: Result<Extent, GridError>)
        ensures
            made == (if width == 0 || height == 0 {
                Err::<Extent, GridError>(GridError::Empty)
            } else if width * height > usize::MAX {
                Err::<Extent, GridError>(GridError::TooLarge)
            } else {
                Ok::<Extent, GridError>(Extent { width, height })
            }),
            made is Ok ==> made->Ok_0.wf(),
    {
        if width == 0 || height == 0 {
            return Err(GridError::Empty);
        }
        match width.checked_mul(height) {
            Some(_) => Ok(Extent { width, height }),
            None => Err(GridError::TooLarge),
        }
    }

    /// The number of cells.
    pub fn len(&self) -> (count: usize)
        requires
            self.wf(),
        ensures
            count == self.cell_count(),
            count > 0,
    {
        proof {
            lemma_count_positive(*self);
        }
        self.width * self.height
    }

    /// The index of the cell in column `x`, row `y`.
    pub fn index(&self, x: usize, y: usize) -> (i: usize)
        requires
            self.wf(),
            self.contains(x as int, y as int),
        ensures
            i == self.index_of(x as int, y as int),
            i < self.cell_count(),
    {
        proof {
            lemma_index_of_position(*self, x as int, y as int);
            lemma_column_start(*self, x as int);
        }
        x * self.height + y
    }

    /// The column and the row of the cell with index `i`.
    pub fn position(&self, i: usize) -> (at: (usize, usize))
        requires
            self.wf(),
            i < self.cell_count(),
        ensures
            at.0 == self.column_of(i as int),
            at.1 == self.row_of(i as int),
            self.contains(at.0 as int, at.1 as int),
            self.index_of(at.0 as int, at.1 as int) == i,
    {
        proof {
            lemma_position_of_index(*self, i as int);
        }
        (i / self.height, i % self.height)
    }
}

/// A well-formed extent has at least one cell.
pub(crate) proof fn lemma_count_positive(e: Extent)
    requires
        e.wf(),
    ensures
        0 < e.cell_count() <= usize::MAX,
{
    assert(0 < e.width * e.height) by (nonlinear_arith)
        requires
            0 < e.width,
            0 < e.height,
    ;
}

/// Column `x` starts at index `x * height`, and the columns follow one
/// another without a gap.
pub(crate) proof fn lemma_column_start(e: Extent, x: int)
    requires
        e.wf(),
        0 <= x < e.width,
    ensures
        0 <= x * e.height,
        x * e.height + e.height <= e.cell_count(),
        (x + 1) * e.height == x * e.height + e.height,
        (x - 1) * e.height == x * e.height - e.height,
{
    let h = e.height as int;
    let w = e.width as int;
    assert(0 <= x * h && x * h + h <= w * h && (x + 1) * h == x * h + h && (x - 1) * h == x * h
        - h) by (nonlinear_arith)
        requires
            0 <= x < w,
            0 < h,
    ;
}

/// A position inside the grid has an index below the cell count, and that
/// index leads back to the position.
pub proof fn lemma_index_of_position(e: Extent, x: int, y: int)
    requires
        e.wf(),
        e.contains(x, y),
    ensures
        0 <= e.index_of(x, y) < e.cell_count(),
        e.column_of(e.index_of(x, y)) == x,
        e.row_of(e.index_of(x, y)) == y,
{
    lemma_column_start(e, x);
    lemma_fundamental_div_mod_converse(e.index_of(x, y), e.height as int, x, y);
}

/// An index below the cell count has a position inside the grid, and that
/// position leads back to the index.
pub proof fn lemma_position_of_index(e: Extent, i: int)
    requires
        e.wf(),
        0 <= i < e.cell_count(),
    ensures
        e.contains(e.column_of(i), e.row_of(i)),
        e.index_of(e.column_of(i), e.row_of(i)) == i,
{
    let h = e.height as int;
    let w = e.width as int;
    let q = i / h;
    let r = i % h;
    lemma_fundamental_div_mod(i, h);
    lemma_mod_bound(i, h);
    lemma_div_pos_is_pos(i, h);
    assert(q * h == h * q) by (nonlinear_arith);
    assert(q < w) by (nonlinear_arith)
        requires
            q * h + r == i,
            0 <= r,
            i < w * h,
            0 < h,
    ;
}

/// Indices order positions column by column, and within a column row by
/// row; in particular two positions with the same index are the same
/// position.
pub proof fn lemma_index_order(e: Extent, x1: int, y1: int, x2: int, y2: int)
    requires
        e.wf(),
        e.contains(x1, y1),
        e.contains(x2, y2),
    ensures
        e.index_of(x1, y1) < e.index_of(x2, y2) <==> (x1 < x2 || (x1 == x2 && y1 < y2)),
        e.index_of(x1, y1) == e.index_of(x2, y2) <==> (x1 == x2 && y1 == y2),
{
    let h = e.height as int;
    if x1 < x2 {
        assert(x1 * h + h <= x2 * h) by (nonlinear_arith)
            requires
                x1 + 1 <= x2,
                0 < h,
        ;
    } else if x2 < x1 {
        assert(x2 * h + h <= x1 * h) by (nonlinear_arith)
            requires
                x2 + 1 <= x1,
                0 < h,
        ;
    }
}

} // verus!
