//! Which cells contribute to the mean of a target cell.
//!
//! A scan visits every cell of the grid in index order.  For each visited
//! cell it starts a counter at the boundary bias of the target, accepts the
//! cell if it is the target or an orthogonal neighbour of it, counts an
//! accepted cell, and gives up once the counter reaches [`SCAN_LIMIT`].
//! Because the bias is capped at [`BIAS_CAP`], the counter never gets that
//! far, and the scan accepts the target and every orthogonal neighbour that
//! lies inside the grid.

use vstd::prelude::*;
use crate::extent::Extent;
use crate::extent::lemma_index_of_position;
use crate::extent::lemma_index_order;
use crate::extent::lemma_column_start;

verus! {

/// What the bias grows by for a target on the first or last column, and
/// again for a target on the first row or on row `height + 1`.
pub const EDGE_BIAS: usize = 3;

/// The largest boundary bias.
pub const BIAS_CAP: usize = 5;

/// The counter value at which a scan gives up.
pub const SCAN_LIMIT: usize = 9;

/// The four directions in which a scanned cell can touch the target.  The
/// target itself touches in all four.
#[derive(Clone, Copy, Debug, PartialEq, Eq, Structural)]
pub struct Adjacency {
    pub west: bool,
    pub east: bool,
    pub north: bool,
    pub south: bool,
}

impl Adjacency {
    /// The flags of the cell at `(x, y)` as seen from the target `(x0, y0)`:
    /// a flag is set for the target itself and for the cell exactly one step
    /// away in that direction.
    pub open spec fn between(x0: int, y0: int, x: int, y: int) -> Adjacency {
        let own = x == x0 && y == y0;
        Adjacency {
            west: own || (x + 1 == x0 && y == y0),
            east: own || (x == x0 + 1 && y == y0),
            north: own || (x == x0 && y + 1 == y0),
            south: own || (x == x0 && y == y0 + 1),
        }
    }

    /// All four flags are set: the cell is the target.
    pub open spec fn is_target(self) -> bool {
        self.west && self.east && self.north && self.south
    }

    /// At least one flag is set: the cell takes part in the mean.
    pub open spec fn contributes(self) -> bool {
        self.west || self.east || self.north || self.south
    }

    /// Computes the flags of the cell at `(x, y)` for the target `(x0, y0)`.
    pub fn of(x0: usize, y0: usize, x: usize, y: usize) -> (flags: Adjacency)
        ensures
            flags == Adjacency::between(x0 as int, y0 as int, x as int, y as int),
    {
        let mut west = false;
        let mut east = false;
        let mut north = false;
        let mut south = false;
        if y == y0 {
            if x < x0 {
                if x0 - x == 1 {
                    west = true;
                }
            } else if x > x0 {
                if x - x0 == 1 {
                    east = true;
                }
            } else {
                west = true;
                east = true;
                north = true;
                south = true;
            }
        } else if x == x0 {
            if y < y0 {
                if y0 - y == 1 {
                    north = true;
                }
            } else if y - y0 == 1 {
                south = true;
            }
        }
        Adjacency { west, east, north, south }
    }

    /// Whether all four flags are set.
    pub fn all(&self) -> (yes: bool)
        ensures
            yes == self.is_target(),
    {
        self.west && self.east && self.north && self.south
    }

    /// Whether at least one flag is set.
    pub fn any(&self) -> (yes: bool)
        ensures
            yes == self.contributes(),
    {
        self.west || self.east || self.north || self.south
    }
}

/// The cell at `(x, y)` is the target `(x0, y0)` or one of its four
/// orthogonal neighbours.
pub open spec fn adjacent(x0: int, y0: int, x: int, y: int) -> bool {
    Adjacency::between(x0, y0, x, y).contributes()
}

/// The boundary bias of the target `(x0, y0)`: [`EDGE_BIAS`] for a target on
/// the first or last column, as much again for a target on the first row or
/// on row `height + 1`, and never more than [`BIAS_CAP`].
pub open spec fn bias_of(e: Extent, x0: int, y0: int) -> int {
    let by_column: int = if x0 == 0 || x0 == e.width - 1 {
        EDGE_BIAS as int
    } else {
        0
    };
    let by_row: int = if y0 == 0 || y0 == e.height + 1 {
        EDGE_BIAS as int
    } else {
        0
    };
    if by_column + by_row > BIAS_CAP {
        BIAS_CAP as int
    } else {
        by_column + by_row
    }
}

/// The counter of a scan for the target `(x0, y0)` once it has dealt with
/// the cell at `(x, y)`.
pub open spec fn counter_after(e: Extent, x0: int, y0: int, x: int, y: int) -> int {
    bias_of(e, x0, y0) + if adjacent(x0, y0, x, y) {
        1int
    } else {
        0int
    }
}

/// A sequence of one index, or of none.
pub open spec fn one_if(present: bool, i: int) -> Seq<int> {
    if present {
        seq![i]
    } else {
        Seq::empty()
    }
}

/// The indices, in scan order, of the cells that take part in the mean of
/// the target `(x0, y0)`: the western neighbour, the northern neighbour, the
/// target, the southern neighbour and the eastern neighbour, leaving out
/// those that would lie outside the grid.
pub open spec fn neighbourhood(e: Extent, x0: int, y0: int) -> Seq<int> {
    one_if(0 < x0, e.index_of(x0 - 1, y0)) + one_if(0 < y0, e.index_of(x0, y0 - 1)) + seq![
        e.index_of(x0, y0),
    ] + one_if(y0 + 1 < e.height, e.index_of(x0, y0 + 1)) + one_if(
        x0 + 1 < e.width,
        e.index_of(x0 + 1, y0),
    )
}

/// The part of the neighbourhood with an index below `bound`: what a scan
/// has accepted when it has visited the cells before `bound`.
spec fn neighbourhood_below(e: Extent, x0: int, y0: int, bound: int) -> Seq<int> {
    one_if(0 < x0 && e.index_of(x0 - 1, y0) < bound, e.index_of(x0 - 1, y0)) + one_if(
        0 < y0 && e.index_of(x0, y0 - 1) < bound,
        e.index_of(x0, y0 - 1),
    ) + one_if(e.index_of(x0, y0) < bound, e.index_of(x0, y0)) + one_if(
        y0 + 1 < e.height && e.index_of(x0, y0 + 1) < bound,
        e.index_of(x0, y0 + 1),
    ) + one_if(x0 + 1 < e.width && e.index_of(x0 + 1, y0) < bound, e.index_of(x0 + 1, y0))
}

/// The indices of a list as mathematical integers.
pub open spec fn as_ints(list: Seq<usize>) -> Seq<int> {
    list.map_values(|i: usize| i as int)
}

/// Computes the boundary bias of the target `(x0, y0)`.
pub fn boundary_bias(e: &Extent, x0: usize, y0: usize) -> (bias: usize)
    ensures
        bias == bias_of(*e, x0 as int, y0 as int),
        bias <= BIAS_CAP,
{
    let mut bias: usize = 0;
    if x0 == 0 || (e.width > 0 && x0 == e.width - 1) {
        bias += EDGE_BIAS;
    }
    if y0 == 0 || (y0 > 0 && y0 - 1 == e.height) {
        bias += EDGE_BIAS;
    }
    if bias > BIAS_CAP {
        bias = BIAS_CAP;
    }
    bias
}

/// One step of a scan for the target `(x0, y0)`: visiting the cell at
/// `(x, y)` adds its index to what was accepted before exactly if the cell
/// is the target or an orthogonal neighbour of it.
proof fn lemma_scan_step(e: Extent, x0: int, y0: int, x: int, y: int)
    requires
        e.wf(),
        e.contains(x0, y0),
        e.contains(x, y),
    ensures
        neighbourhood_below(e, x0, y0, e.index_of(x, y) + 1) == if adjacent(x0, y0, x, y) {
            neighbourhood_below(e, x0, y0, e.index_of(x, y)).push(e.index_of(x, y))
        } else {
            neighbourhood_below(e, x0, y0, e.index_of(x, y))
        },
{
    let i = e.index_of(x, y);
    lemma_index_order(e, x0, y0, x, y);
    if 0 < x0 {
        lemma_index_order(e, x0 - 1, y0, x, y);
    }
    if 0 < y0 {
        lemma_index_order(e, x0, y0 - 1, x, y);
    }
    if y0 + 1 < e.height {
        lemma_index_order(e, x0, y0 + 1, x, y);
    }
    if x0 + 1 < e.width {
        lemma_index_order(e, x0 + 1, y0, x, y);
    }
    let before = neighbourhood_below(e, x0, y0, i);
    let after = neighbourhood_below(e, x0, y0, i + 1);
    if adjacent(x0, y0, x, y) {
        assert(after =~= before.push(i));
    } else {
        assert(after =~= before);
    }
}

/// Before the first cell a scan has accepted nothing, and after the last
/// cell it has accepted the whole neighbourhood.
proof fn lemma_scan_ends(e: Extent, x0: int, y0: int)
    requires
        e.wf(),
        e.contains(x0, y0),
    ensures
        neighbourhood_below(e, x0, y0, 0) == Seq::<int>::empty(),
        neighbourhood_below(e, x0, y0, e.cell_count()) == neighbourhood(e, x0, y0),
{
    lemma_index_of_position(e, x0, y0);
    if 0 < x0 {
        lemma_index_of_position(e, x0 - 1, y0);
    }
    if 0 < y0 {
        lemma_index_of_position(e, x0, y0 - 1);
    }
    if y0 + 1 < e.height {
        lemma_index_of_position(e, x0, y0 + 1);
    }
    if x0 + 1 < e.width {
        lemma_index_of_position(e, x0 + 1, y0);
    }
    assert(neighbourhood_below(e, x0, y0, 0) =~= Seq::<int>::empty());
    assert(neighbourhood_below(e, x0, y0, e.cell_count()) =~= neighbourhood(e, x0, y0));
}

/// The target is one of at most five cells in its neighbourhood.
pub proof fn lemma_target_in_neighbourhood(e: Extent, x0: int, y0: int)
    ensures
        0 < neighbourhood(e, x0, y0).len() <= 5,
        neighbourhood(e, x0, y0).contains(e.index_of(x0, y0)),
{
    let k = one_if(0 < x0, e.index_of(x0 - 1, y0)).len() + one_if(0 < y0, e.index_of(x0, y0 - 1)).len();
    assert(neighbourhood(e, x0, y0)[k as int] == e.index_of(x0, y0));
}

/// Every index in the neighbourhood of a cell of the grid names a cell of
/// the grid.
pub proof fn lemma_neighbourhood_within(e: Extent, x0: int, y0: int)
    requires
        e.wf(),
        e.contains(x0, y0),
    ensures
        crate::mean::within(neighbourhood(e, x0, y0), e.cell_count()),
{
    lemma_index_of_position(e, x0, y0);
    if 0 < x0 {
        lemma_index_of_position(e, x0 - 1, y0);
    }
    if 0 < y0 {
        lemma_index_of_position(e, x0, y0 - 1);
    }
    if y0 + 1 < e.height {
        lemma_index_of_position(e, x0, y0 + 1);
    }
    if x0 + 1 < e.width {
        lemma_index_of_position(e, x0 + 1, y0);
    }
}

/// Scans the grid for the target `(x0, y0)` and returns, in scan order, the
/// indices of the cells that take part in its mean: the target itself and
/// its orthogonal neighbours inside the grid.  The length of the list is the
/// number by which the sums are divided.
pub fn contributors(e: &Extent, x0: usize, y0: usize) -> (list: Vec<usize>)
    requires
        e.wf(),
        e.contains(x0 as int, y0 as int),
    ensures
        as_ints(list@) == neighbourhood(*e, x0 as int, y0 as int),
        as_ints(list@).contains(e.index_of(x0 as int, y0 as int)),
        0 < list.len() <= 5,
{
    let count = e.len();
    let mut list: Vec<usize> = Vec::new();
    let mut x: usize = 0;
    let mut y: usize = 0;
    let mut i: usize = 0;
    proof {
        lemma_scan_ends(*e, x0 as int, y0 as int);
        assert(as_ints(list@) =~= Seq::<int>::empty());
    }
    while i < count
        invariant_except_break
            e.wf(),
            e.contains(x0 as int, y0 as int),
            count == e.cell_count(),
            i <= count,
            i < count ==> e.contains(x as int, y as int) && i == e.index_of(x as int, y as int),
            as_ints(list@) == neighbourhood_below(*e, x0 as int, y0 as int, i as int),
            neighbourhood_below(*e, x0 as int, y0 as int, count as int) == neighbourhood(
                *e,
                x0 as int,
                y0 as int,
            ),
        ensures
            as_ints(list@) == neighbourhood(*e, x0 as int, y0 as int),
        decreases count - i,
    {
        let mut counter = boundary_bias(e, x0, y0);
        let flags = Adjacency::of(x0, y0, x, y);
        let ghost before = list@;
        if flags.all() {
            list.push(i);
            counter += 1;
        } else if flags.any() {
            list.push(i);
            counter += 1;
        }
        proof {
            lemma_scan_step(*e, x0 as int, y0 as int, x as int, y as int);
            if flags.contributes() {
                assert(as_ints(list@) =~= as_ints(before).push(i as int));
            }
        }
        // The counter stays below the limit, so the scan always runs to the
        // last cell; were the constants changed so that it could stop
        // early, the contract would no longer be proved.
        if counter >= SCAN_LIMIT {
            break ;
        }
        proof {
            lemma_column_start(*e, x as int);
        }
        i += 1;
        y += 1;
        if y == e.height {
            y = 0;
            x += 1;
        }
    }
    proof {
        lemma_target_in_neighbourhood(*e, x0 as int, y0 as int);
    }
    list
}

} // verus!
