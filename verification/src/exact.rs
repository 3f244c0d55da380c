//! Exact arithmetic on the quantities of cells.
//!
//! A pass over a layer asks for an addition and a division that take any
//! sum.  The ones here give the exact result wherever it fits and the
//! largest value otherwise; in a pass over a grid every result fits.

use vstd::prelude::*;
use crate::cell::Cell;
use crate::cell::Resource;
use crate::layer::adds_up;
use crate::layer::averages;
use crate::layer::picked;
use crate::mean::amounts;
use crate::mean::mean;
use crate::mean::mean_cell;
use crate::mean::total;
use crate::mean::lemma_mean_between;
use crate::mean::lemma_total_push;

verus! {

/// The sums of the quantities of several cells, one sum for each resource.
#[derive(Clone, Copy, Debug, PartialEq, Eq, Structural)]
pub struct Sums {
    pub air: u128,
    pub water: u128,
    pub fire: u128,
}

/// A sum and one more quantity, or the largest sum if that is smaller.
pub open spec fn capped_sum(sum: u128, quantity: u64) -> u128 {
    if sum + quantity <= u128::MAX {
        (sum + quantity) as u128
    } else {
        u128::MAX
    }
}

/// A sum divided by a count and rounded down, or the largest quantity if
/// that is smaller.
pub open spec fn capped_share(sum: u128, count: usize) -> u64 {
    if sum / (count as u128) <= u64::MAX {
        (sum / (count as u128)) as u64
    } else {
        u64::MAX
    }
}

impl Sums {
    /// The sum of one resource, as a number.
    pub open spec fn amount(self, resource: Resource) -> int {
        match resource {
            Resource::Air => self.air as int,
            Resource::Water => self.water as int,
            Resource::Fire => self.fire as int,
        }
    }

    /// The sums of no cells.
    pub open spec fn zero_spec() -> Sums {
        Sums { air: 0, water: 0, fire: 0 }
    }

    /// The sums of no cells.
    #[verifier::when_used_as_spec(zero_spec)]
    pub fn zero() -> (sums: Sums)
        ensures
            sums == Sums::zero_spec(),
    {
        Sums { air: 0, water: 0, fire: 0 }
    }

    /// The sums with the quantities of one more cell.
    pub open spec fn with(self, cell: Cell) -> Sums {
        Sums {
            air: capped_sum(self.air, cell.air),
            water: capped_sum(self.water, cell.water),
            fire: capped_sum(self.fire, cell.fire),
        }
    }

    /// The means of the quantities of `count` cells.
    pub open spec fn shared(self, count: usize) -> Cell {
        Cell {
            air: capped_share(self.air, count),
            water: capped_share(self.water, count),
            fire: capped_share(self.fire, count),
        }
    }
}

/// Adds a quantity to a sum.  The result is exact unless it would exceed the
/// largest sum, which it then is.
pub fn sum_with(sum: u128, quantity: u64) -> (next: u128)
    ensures
        next == capped_sum(sum, quantity),
{
    if sum <= u128::MAX - quantity as u128 {
        sum + quantity as u128
    } else {
        u128::MAX
    }
}

/// Divides a sum by a count and rounds down.  The result is exact unless it
/// would exceed the largest quantity, which it then is.
pub fn share_of(sum: u128, count: usize) -> (share: u64)
    requires
        0 < count,
    ensures
        share == capped_share(sum, count),
{
    let exact = sum / count as u128;
    if exact <= u64::MAX as u128 {
        exact as u64
    } else {
        u64::MAX
    }
}

/// Adds the quantities of a cell to the sums.
pub fn plus_cell(sums: Sums, cell: Cell) -> (next: Sums)
    ensures
        next == sums.with(cell),
{
    Sums {
        air: sum_with(sums.air, cell.air),
        water: sum_with(sums.water, cell.water),
        fire: sum_with(sums.fire, cell.fire),
    }
}

/// Divides the sums by a count.
pub fn divide_sums(sums: Sums, count: usize) -> (cell: Cell)
    requires
        0 < count,
    ensures
        cell == sums.shared(count),
{
    Cell {
        air: share_of(sums.air, count),
        water: share_of(sums.water, count),
        fire: share_of(sums.fire, count),
    }
}

/// In a chain of sums of cells, each sum of a resource is the total of the
/// quantities added so far: the cap is never reached.
proof fn lemma_cell_sums(cells: Seq<Cell>, sums: Seq<Sums>, k: int, resource: Resource)
    requires
        cells.len() <= usize::MAX,
        sums.len() == cells.len() + 1,
        sums[0] == Sums::zero(),
        forall|j: int| 0 <= j < cells.len() ==> sums[j + 1] == (#[trigger] sums[j]).with(cells[j]),
        0 <= k <= cells.len(),
    ensures
        sums[k].amount(resource) == total(
            Seq::new(k as nat, |j: int| cells[j].amount(resource)),
        ),
        sums[k].amount(resource) <= k * u64::MAX,
    decreases k,
{
    let so_far = Seq::new(k as nat, |j: int| cells[j].amount(resource));
    if k > 0 {
        lemma_cell_sums(cells, sums, k - 1, resource);
        let before = Seq::new((k - 1) as nat, |j: int| cells[j].amount(resource));
        assert(sums[k] == sums[k - 1].with(cells[k - 1]));
        assert((k - 1) * u64::MAX + u64::MAX == k * u64::MAX) by (nonlinear_arith);
        assert(k * u64::MAX <= u128::MAX) by (nonlinear_arith)
            requires
                0 <= k <= usize::MAX,
                usize::MAX <= u64::MAX,
        ;
        assert(so_far =~= before.push(cells[k - 1].amount(resource)));
        lemma_total_push(before, cells[k - 1].amount(resource));
    }
}

/// With this module's addition and division, a mean in the arithmetic of
/// the caller is the exact mean, rounded down.
pub proof fn lemma_exact_mean<A: Fn(Sums, Cell) -> Sums, D: Fn(Sums, usize) -> Cell>(
    plus: A,
    divide: D,
    cells: Seq<Cell>,
    picks: Seq<int>,
    out: Cell,
)
    requires
        0 < picks.len() <= usize::MAX,
        forall|sums: Sums, cell: Cell, next: Sums| #[trigger]
            call_ensures(plus, (sums, cell), next) ==> next == sums.with(cell),
        forall|sums: Sums, count: usize, cell: Cell| #[trigger]
            call_ensures(divide, (sums, count), cell) ==> cell == sums.shared(count),
        averages(plus, divide, Sums::zero(), picked(cells, picks), out),
    ensures
        out == mean_cell(cells, picks),
{
    let terms = picked(cells, picks);
    let sums = choose|sums: Seq<Sums>| #[trigger]
        adds_up(plus, Sums::zero(), terms, sums) && call_ensures(
            divide,
            (sums.last(), terms.len() as usize),
            out,
        );
    let n = picks.len() as int;
    assert forall|j: int| 0 <= j < terms.len() implies sums[j + 1] == (#[trigger] sums[j]).with(
        terms[j],
    ) by {
        assert(call_ensures(plus, (sums[j], terms[j]), sums[j + 1]));
    }
    assert(out == sums[n].shared(n as usize));
    lemma_exact_resource(cells, picks, terms, sums, Resource::Air);
    lemma_exact_resource(cells, picks, terms, sums, Resource::Water);
    lemma_exact_resource(cells, picks, terms, sums, Resource::Fire);
}

/// The last of a chain of sums of cells, divided by their number, is the
/// mean of the quantities of the cells.
proof fn lemma_exact_resource(
    cells: Seq<Cell>,
    picks: Seq<int>,
    terms: Seq<Cell>,
    sums: Seq<Sums>,
    resource: Resource,
)
    requires
        0 < picks.len() <= usize::MAX,
        terms == picked(cells, picks),
        sums.len() == terms.len() + 1,
        sums[0] == Sums::zero(),
        forall|j: int| 0 <= j < terms.len() ==> sums[j + 1] == (#[trigger] sums[j]).with(terms[j]),
    ensures
        sums[picks.len() as int].shared(picks.len() as usize).amount(resource) == mean(
            amounts(cells, picks, resource),
        ),
{
    let n = picks.len() as int;
    let values = amounts(cells, picks, resource);
    lemma_cell_sums(terms, sums, n, resource);
    assert(Seq::new(n as nat, |j: int| terms[j].amount(resource)) =~= values);
    assert forall|k: int| 0 <= k < values.len() implies 0 <= #[trigger] values[k] <= u64::MAX by {
        assert(values[k] == cells[picks[k]].amount(resource));
    }
    lemma_mean_between(values, 0, u64::MAX as int);
}

} // verus!
