//! What holds of every grid and every tick.

use vstd::prelude::*;
use crate::cell::Cell;
use crate::cell::Resource;
use crate::extent::Extent;
use crate::extent::lemma_index_order;
use crate::extent::lemma_position_of_index;
use crate::grid::Grid;
use crate::grid::GridModel;
use crate::grid::lemma_sources_exist;
use crate::mean::amounts;
use crate::mean::mean;
use crate::mean::lemma_mean_between;
use crate::mean::lemma_mean_of_equal;
use crate::mean::lemma_quantities_fit;
use crate::stencil::BIAS_CAP;
use crate::stencil::SCAN_LIMIT;
use crate::stencil::adjacent;
use crate::stencil::bias_of;
use crate::stencil::counter_after;
use crate::stencil::neighbourhood;

verus! {

/// The distance between two numbers.
pub open spec fn gap(a: int, b: int) -> int {
    if a <= b {
        b - a
    } else {
        a - b
    }
}

/// Two cells are adjacent exactly if they are at most one step apart,
/// counting steps along columns and rows: a cell is adjacent to itself and
/// to its four orthogonal neighbours, never to a diagonal one.  Adjacency
/// does not depend on which of the two cells is the target.
pub proof fn adjacency_is_unit_distance(x0: int, y0: int, x: int, y: int)
    ensures
        adjacent(x0, y0, x, y) <==> gap(x0, x) + gap(y0, y) <= 1,
        adjacent(x0, y0, x, y) <==> adjacent(x, y, x0, y0),
{
}

/// The boundary bias never exceeds its cap, so the counter of a scan stays
/// below the limit at which the scan would give up: on a grid of any shape,
/// for any target, no cell is left unvisited.
pub proof fn scan_never_stops_early(e: Extent, x0: int, y0: int, x: int, y: int)
    ensures
        0 <= bias_of(e, x0, y0) <= BIAS_CAP,
        counter_after(e, x0, y0, x, y) <= BIAS_CAP + 1,
        counter_after(e, x0, y0, x, y) < SCAN_LIMIT,
{
}

/// A cell of the grid takes part in the mean of a target exactly if it is
/// the target or one of its orthogonal neighbours.  The cells that take
/// part are listed by rising index, which is the order of the scan, and so
/// no cell takes part twice.
pub proof fn adjacent_cells_take_part(e: Extent, x0: int, y0: int, x: int, y: int)
    requires
        e.wf(),
        e.contains(x0, y0),
        e.contains(x, y),
    ensures
        neighbourhood(e, x0, y0).contains(e.index_of(x, y)) <==> adjacent(x0, y0, x, y),
        forall|a: int, b: int|
            0 <= a < b < neighbourhood(e, x0, y0).len() ==> neighbourhood(e, x0, y0)[a]
                < neighbourhood(e, x0, y0)[b],
        neighbourhood(e, x0, y0).no_duplicates(),
{
    let list = neighbourhood(e, x0, y0);
    let i = e.index_of(x, y);
    lemma_index_order(e, x0, y0, x, y);
    if 0 < x0 {
        lemma_index_order(e, x0 - 1, y0, x, y);
        lemma_index_order(e, x0 - 1, y0, x0, y0);
        if 0 < y0 {
            lemma_index_order(e, x0 - 1, y0, x0, y0 - 1);
        }
        if y0 + 1 < e.height {
            lemma_index_order(e, x0 - 1, y0, x0, y0 + 1);
        }
        if x0 + 1 < e.width {
            lemma_index_order(e, x0 - 1, y0, x0 + 1, y0);
        }
    }
    if 0 < y0 {
        lemma_index_order(e, x0, y0 - 1, x, y);
        lemma_index_order(e, x0, y0 - 1, x0, y0);
        if y0 + 1 < e.height {
            lemma_index_order(e, x0, y0 - 1, x0, y0 + 1);
        }
        if x0 + 1 < e.width {
            lemma_index_order(e, x0, y0 - 1, x0 + 1, y0);
        }
    }
    if y0 + 1 < e.height {
        lemma_index_order(e, x0, y0 + 1, x, y);
        lemma_index_order(e, x0, y0, x0, y0 + 1);
        if x0 + 1 < e.width {
            lemma_index_order(e, x0, y0 + 1, x0 + 1, y0);
        }
    }
    if x0 + 1 < e.width {
        lemma_index_order(e, x0 + 1, y0, x, y);
        lemma_index_order(e, x0, y0, x0 + 1, y0);
    }
    let west = crate::stencil::one_if(0 < x0, e.index_of(x0 - 1, y0));
    let north = crate::stencil::one_if(0 < y0, e.index_of(x0, y0 - 1));
    let south = crate::stencil::one_if(y0 + 1 < e.height, e.index_of(x0, y0 + 1));
    let east = crate::stencil::one_if(x0 + 1 < e.width, e.index_of(x0 + 1, y0));
    if adjacent(x0, y0, x, y) {
        let k: int = if x + 1 == x0 {
            0
        } else if y + 1 == y0 {
            west.len() as int
        } else if x == x0 && y == y0 {
            (west.len() + north.len()) as int
        } else if y == y0 + 1 {
            (west.len() + north.len() + 1) as int
        } else {
            (west.len() + north.len() + 1 + south.len()) as int
        };
        assert(list[k] == i);
    }
    assert forall|a: int, b: int| 0 <= a < b < list.len() implies list[a] < list[b] by {}
    assert forall|a: int, b: int| 0 <= a < list.len() && 0 <= b < list.len() && a != b implies list[a]
        != list[b] by {
        assert(list[a] < list[b] || list[b] < list[a]);
    }
}

/// The value of a cell before a tick takes part in its value after the
/// tick, with the weight of one cell.
pub proof fn own_cell_takes_part(g: GridModel, i: int)
    requires
        g.wf(),
        0 <= i < g.cells.len(),
    ensures
        g.sources(i).contains(i),
        g.sources(i).no_duplicates(),
{
    lemma_sources_exist(g, i);
    lemma_position_of_index(g.extent, i);
    adjacent_cells_take_part(
        g.extent,
        g.extent.column_of(i),
        g.extent.row_of(i),
        g.extent.column_of(i),
        g.extent.row_of(i),
    );
}

/// After a tick, every quantity of every cell lies between the smallest
/// and the largest quantity of the same resource among the cells that took
/// part in it.
pub proof fn tick_stays_within_sources(g: GridModel)
    requires
        g.wf(),
    ensures
        g.bounds(g.step()),
{
    assert forall|i: int, resource: Resource| 0 <= i < g.cells.len() implies amounts(
        g.cells,
        g.sources(i),
        resource,
    ).min() <= #[trigger] g.step().cells[i].amount(resource) <= amounts(
        g.cells,
        g.sources(i),
        resource,
    ).max() by {
        lemma_sources_exist(g, i);
        let values = amounts(g.cells, g.sources(i), resource);
        values.min_ensures();
        values.max_ensures();
        lemma_mean_between(values, values.min(), values.max());
        lemma_quantities_fit(g.cells, g.sources(i), resource);
        assert(g.step().cells[i] == g.cell_after(i));
        assert(g.cell_after(i).amount(resource) == mean(values));
    }
}

/// A tick is a function of the grid: whatever two ticks return for equal
/// grids is equal.
pub proof fn tick_is_repeatable(first: Grid, second: Grid, after_first: Grid, after_second: Grid)
    requires
        first@ == second@,
        after_first@ == first@.step(),
        after_second@ == second@.step(),
    ensures
        after_first@ == after_second@,
{
}

/// A tick keeps the shape of the grid and gives a well-formed grid again.
pub proof fn tick_keeps_shape(g: GridModel)
    requires
        g.wf(),
    ensures
        g.step().wf(),
        g.step().extent == g.extent,
        g.step().cells.len() == g.cells.len(),
{
}

/// A grid in which every cell holds the same quantities stays as it is,
/// for any number of ticks.
pub proof fn uniform_grid_is_fixed(extent: Extent, cell: Cell, ticks: nat)
    requires
        extent.wf(),
    ensures
        GridModel::uniform(extent, cell).after(ticks) == GridModel::uniform(extent, cell),
    decreases ticks,
{
    let g = GridModel::uniform(extent, cell);
    if ticks > 0 {
        uniform_grid_is_fixed(extent, cell, (ticks - 1) as nat);
        assert forall|i: int| 0 <= i < g.cells.len() implies g.cell_after(i) == cell by {
            lemma_sources_exist(g, i);
            lemma_mean_of_equal(
                amounts(g.cells, g.sources(i), Resource::Air),
                cell.amount(Resource::Air),
            );
            lemma_mean_of_equal(
                amounts(g.cells, g.sources(i), Resource::Water),
                cell.amount(Resource::Water),
            );
            lemma_mean_of_equal(
                amounts(g.cells, g.sources(i), Resource::Fire),
                cell.amount(Resource::Fire),
            );
        }
        assert(g.step().cells =~= g.cells);
    }
}

} // verus!
