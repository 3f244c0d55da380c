//! The grid of cells and its tick.

use vstd::prelude::*;
use crate::cell::Cell;
use crate::cell::Resource;
use crate::extent::Extent;
use crate::error::GridError;
use crate::exact::Sums;
use crate::exact::divide_sums;
use crate::exact::plus_cell;
use crate::exact::lemma_exact_mean;
use crate::layer::diffuse_with;
use crate::extent::lemma_index_of_position;
use crate::extent::lemma_position_of_index;
use crate::mean::amounts;
use crate::mean::mean_cell;
use crate::mean::within;
use crate::laws::tick_stays_within_sources;
use crate::snapshot::Entry;
use crate::snapshot::arrange;
use crate::snapshot::complete;
use crate::snapshot::faulty;
use crate::snapshot::positions_of;
use crate::snapshot::reports;
use crate::snapshot::slot;
use crate::snapshot::lemma_clean_entries_differ;
use crate::stencil::neighbourhood;
use crate::stencil::lemma_neighbourhood_within;
use crate::stencil::lemma_target_in_neighbourhood;

verus! {

/// A grid as a mathematical value: its shape and its cells in index order.
pub struct GridModel {
    pub extent: Extent,
    pub cells: Seq<Cell>,
}

impl GridModel {
    /// The shape is well-formed and there is one cell for every index.
    pub open spec fn wf(self) -> bool {
        &&& self.extent.wf()
        &&& self.cells.len() == self.extent.cell_count()
    }

    /// The grid of the given shape in which every cell equals `cell`.
    pub open spec fn uniform(extent: Extent, cell: Cell) -> GridModel {
        GridModel { extent, cells: Seq::new(extent.cell_count() as nat, |i: int| cell) }
    }

    /// The cell in column `x`, row `y`.
    pub open spec fn at(self, x: int, y: int) -> Cell {
        self.cells[self.extent.index_of(x, y)]
    }

    /// The grid with the cell in column `x`, row `y` replaced by `cell`.
    pub open spec fn with(self, x: int, y: int, cell: Cell) -> GridModel {
        GridModel { extent: self.extent, cells: self.cells.update(self.extent.index_of(x, y), cell) }
    }

    /// The indices of the cells that take part in the next value of cell
    /// `i`, in scan order.
    pub open spec fn sources(self, i: int) -> Seq<int> {
        neighbourhood(self.extent, self.extent.column_of(i), self.extent.row_of(i))
    }

    /// The value of cell `i` after one tick: for each resource the mean,
    /// rounded down, over the cell and its orthogonal neighbours as they are
    /// before the tick.
    pub open spec fn cell_after(self, i: int) -> Cell {
        mean_cell(self.cells, self.sources(i))
    }

    /// The grid after one tick.
    pub open spec fn step(self) -> GridModel {
        GridModel {
            extent: self.extent,
            cells: Seq::new(self.cells.len(), |i: int| self.cell_after(i)),
        }
    }

    /// The grid after the given number of ticks.
    pub open spec fn after(self, ticks: nat) -> GridModel
        decreases ticks,
    {
        if ticks == 0 {
            self
        } else {
            self.after((ticks - 1) as nat).step()
        }
    }

    /// Every quantity of every cell of `later` lies between the smallest
    /// and the largest quantity of the same resource among the cells of
    /// `self` that take part in it.
    pub open spec fn bounds(self, later: GridModel) -> bool {
        forall|i: int, resource: Resource|
            0 <= i < self.cells.len() ==> amounts(self.cells, self.sources(i), resource).min()
                <= #[trigger] later.cells[i].amount(resource) <= amounts(
                self.cells,
                self.sources(i),
                resource,
            ).max()
    }
}

/// A rectangular grid of cells.
#[derive(Clone, Debug, PartialEq, Eq)]
pub struct Grid {
    extent: Extent,
    cells: Vec<Cell>,
}

impl View for Grid {
    type V = GridModel;

    closed spec fn view(&self) -> GridModel {
        GridModel { extent: self.extent, cells: self.cells@ }
    }
}

/// The cells that take part in the next value of a cell exist: the list is
/// not empty, and each of its indices names a cell of the grid.
pub proof fn lemma_sources_exist(g: GridModel, i: int)
    requires
        g.wf(),
        0 <= i < g.cells.len(),
    ensures
        0 < g.sources(i).len() <= 5,
        within(g.sources(i), g.cells.len() as int),
        g.sources(i).contains(i),
{
    let e = g.extent;
    let x = e.column_of(i);
    let y = e.row_of(i);
    lemma_position_of_index(e, i);
    lemma_neighbourhood_within(e, x, y);
    lemma_target_in_neighbourhood(e, x, y);
}

impl Grid {
    /// The shape is well-formed and there is one cell for every index.
    pub open spec fn wf(&self) -> bool {
        self@.wf()
    }

    /// Makes the grid every simulation starts from: each cell holds one
    /// unit of air, no water and no fire.
    pub fn new(width: usize, height: usize) -> (made: Result<Grid, GridError>)
        ensures
            match made {
                Ok(grid) => {
                    &&& 0 < width
                    &&& 0 < height
                    &&& width * height <= usize::MAX
                    &&& grid.wf()
                    &&& grid@ == GridModel::uniform(Extent { width, height }, Cell::fresh())
                },
                Err(GridError::Empty) => width == 0 || height == 0,
                Err(GridError::TooLarge) => 0 < width && 0 < height && width * height
                    > usize::MAX,
                Err(_) => false,
            },
    {
        match Extent::new(width, height) {
            Ok(extent) => Ok(Grid::filled(extent, Cell::fresh())),
            Err(error) => Err(error),
        }
    }

    /// Makes the grid of the given shape in which every cell equals `cell`.
    pub fn filled(extent: Extent, cell: Cell) -> (grid: Grid)
        requires
            extent.wf(),
        ensures
            grid.wf(),
            grid@ == GridModel::uniform(extent, cell),
    {
        let count = extent.len();
        let mut cells: Vec<Cell> = Vec::new();
        let mut i: usize = 0;
        while i < count
            invariant
                i <= count,
                cells@.len() == i,
                forall|k: int| 0 <= k < i ==> cells@[k] == cell,
            decreases count - i,
        {
            cells.push(cell);
            i += 1;
        }
        assert(cells@ =~= GridModel::uniform(extent, cell).cells);
        Grid { extent, cells }
    }

    /// Makes the grid that a complete list of entries describes: the cell
    /// at the position of each entry is the cell of that entry.  Reports
    /// what is wrong with a list that is not complete.
    pub fn from_entries(extent: Extent, entries: &Vec<Entry>) -> (made: Result<Grid, GridError>)
        requires
            extent.wf(),
        ensures
            match made {
                Ok(grid) => {
                    &&& complete(extent, positions_of(entries@))
                    &&& grid.wf()
                    &&& grid@.extent == extent
                    &&& forall|k: int|
                        0 <= k < entries.len() ==> grid@.at(
                            entries[k].x as int,
                            entries[k].y as int,
                        ) == (#[trigger] entries[k]).cell
                },
                Err(error) => reports(extent, positions_of(entries@), error),
            },
    {
        let mut positions: Vec<(usize, usize)> = Vec::new();
        let mut k: usize = 0;
        while k < entries.len()
            invariant
                k <= entries.len(),
                positions@ == positions_of(entries@.take(k as int)),
            decreases entries.len() - k,
        {
            positions.push((entries[k].x, entries[k].y));
            proof {
                assert(positions@ =~= positions_of(entries@.take(k + 1)));
            }
            k += 1;
        }
        assert(entries@.take(entries.len() as int) =~= entries@);
        let order = match arrange(&extent, &positions) {
            Ok(order) => order,
            Err(error) => {
                return Err(error);
            },
        };
        let mut cells: Vec<Cell> = Vec::new();
        let mut i: usize = 0;
        while i < order.len()
            invariant
                i <= order.len(),
                cells.len() == i,
                positions@ == positions_of(entries@),
                forall|d: int| 0 <= d < order.len() ==> (#[trigger] order[d]) < positions.len(),
                forall|d: int| 0 <= d < i ==> (#[trigger] cells[d]) == entries[order[d] as int].cell,
            decreases order.len() - i,
        {
            assert(order[i as int] < positions.len());
            cells.push(entries[order[i]].cell);
            i += 1;
        }
        let grid = Grid { extent, cells };
        proof {
            assert forall|k: int| 0 <= k < entries.len() implies grid@.at(
                entries[k].x as int,
                entries[k].y as int,
            ) == (#[trigger] entries[k]).cell by {
                let c = slot(extent, positions@, k);
                assert(!faulty(extent, positions@, k));
                lemma_index_of_position(extent, entries[k].x as int, entries[k].y as int);
                assert(order[c] < positions.len());
                lemma_clean_entries_differ(extent, positions@, order[c] as int, k);
            }
        }
        Ok(grid)
    }

    /// The shape of the grid.
    pub fn extent(&self) -> (extent: Extent)
        ensures
            extent == self@.extent,
    {
        self.extent
    }

    /// All cells, in index order.
    pub fn cells(&self) -> (cells: &Vec<Cell>)
        ensures
            cells@ == self@.cells,
    {
        &self.cells
    }

    /// The cell in column `x`, row `y`.
    pub fn get(&self, x: usize, y: usize) -> (cell: Cell)
        requires
            self.wf(),
            self@.extent.contains(x as int, y as int),
        ensures
            cell == self@.at(x as int, y as int),
    {
        let i = self.extent.index(x, y);
        self.cells[i]
    }

    /// Replaces the cell in column `x`, row `y`.
    pub fn set(&mut self, x: usize, y: usize, cell: Cell)
        requires
            old(self).wf(),
            old(self)@.extent.contains(x as int, y as int),
        ensures
            final(self).wf(),
            final(self)@ == old(self)@.with(x as int, y as int, cell),
    {
        let i = self.extent.index(x, y);
        self.cells.set(i, cell);
    }

    /// Advances the grid by one tick: every cell becomes, for each resource,
    /// the mean over the cell itself and its orthogonal neighbours inside the
    /// grid, rounded down.  All cells of the result are computed from the
    /// cells of `self`, which stays as it is, so that no cell sees the new
    /// value of another.
    pub fn tick(&self) -> (next: Grid)
        requires
            self.wf(),
        ensures
            next.wf(),
            next@ == self@.step(),
            self@.bounds(next@),
    {
        let cells = diffuse_with(&self.extent, &self.cells, Sums::zero(), plus_cell, divide_sums);
        proof {
            assert forall|i: int| 0 <= i < cells.len() implies cells[i] == self@.cell_after(i) by {
                lemma_sources_exist(self@, i);
                lemma_exact_mean(plus_cell, divide_sums, self.cells@, self@.sources(i), cells[i]);
            }
            assert(cells@ =~= self@.step().cells);
            tick_stays_within_sources(self@);
        }
        Grid { extent: self.extent, cells }
    }
}

} // verus!
