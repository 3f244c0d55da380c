//! The mean of the quantities of several cells.

use vstd::prelude::*;
use crate::cell::Cell;
use crate::cell::Resource;

verus! {

/// The sum of a sequence of numbers.
pub open spec fn total(values: Seq<int>) -> int
    decreases values.len(),
{
    if values.len() == 0 {
        0
    } else {
        total(values.drop_last()) + values.last()
    }
}

/// The mean of a sequence of numbers, rounded down.
pub open spec fn mean(values: Seq<int>) -> int {
    total(values) / (values.len() as int)
}

/// The quantities of one resource in the cells that `picks` names, in the
/// order of `picks`.
pub open spec fn amounts(cells: Seq<Cell>, picks: Seq<int>, resource: Resource) -> Seq<int> {
    Seq::new(picks.len(), |k: int| cells[picks[k]].amount(resource))
}

/// Whether every index in `picks` names one of `count` cells.
pub open spec fn within(picks: Seq<int>, count: int) -> bool {
    forall|k: int| 0 <= k < picks.len() ==> 0 <= #[trigger] picks[k] < count
}

/// The cell that holds, for each resource, the mean over the cells that
/// `picks` names.
pub open spec fn mean_cell(cells: Seq<Cell>, picks: Seq<int>) -> Cell {
    Cell {
        air: mean(amounts(cells, picks, Resource::Air)) as u64,
        water: mean(amounts(cells, picks, Resource::Water)) as u64,
        fire: mean(amounts(cells, picks, Resource::Fire)) as u64,
    }
}

/// A sum lies between the length times a lower bound of its terms and the
/// length times an upper bound of them.
pub proof fn lemma_total_between(values: Seq<int>, low: int, high: int)
    requires
        forall|k: int| 0 <= k < values.len() ==> low <= #[trigger] values[k] <= high,
    ensures
        values.len() * low <= total(values) <= values.len() * high,
    decreases values.len(),
{
    if values.len() > 0 {
        let front = values.drop_last();
        assert forall|k: int| 0 <= k < front.len() implies low <= #[trigger] front[k] <= high by {
            assert(front[k] == values[k]);
        }
        lemma_total_between(front, low, high);
        let n = values.len() as int;
        assert((n - 1) * low + low == n * low && (n - 1) * high + high == n * high)
            by (nonlinear_arith);
    }
}

/// A mean lies between a lower bound and an upper bound of its terms.
pub proof fn lemma_mean_between(values: Seq<int>, low: int, high: int)
    requires
        values.len() > 0,
        forall|k: int| 0 <= k < values.len() ==> low <= #[trigger] values[k] <= high,
    ensures
        low <= mean(values) <= high,
{
    lemma_total_between(values, low, high);
    let n = values.len() as int;
    let sum = total(values);
    assert(low <= sum / n <= high) by (nonlinear_arith)
        requires
            0 < n,
            n * low <= sum <= n * high,
    ;
}

/// The mean of equal terms is the term.
pub proof fn lemma_mean_of_equal(values: Seq<int>, term: int)
    requires
        values.len() > 0,
        forall|k: int| 0 <= k < values.len() ==> #[trigger] values[k] == term,
    ensures
        mean(values) == term,
{
    lemma_mean_between(values, term, term);
}

/// Adding one more term to a sequence adds it to the sum.
pub proof fn lemma_total_push(values: Seq<int>, term: int)
    ensures
        total(values.push(term)) == total(values) + term,
{
    assert(values.push(term).drop_last() =~= values);
}

/// The mean of quantities is a quantity: it fits in 64 bits.
pub proof fn lemma_quantities_fit(cells: Seq<Cell>, picks: Seq<int>, resource: Resource)
    requires
        picks.len() > 0,
    ensures
        0 <= mean(amounts(cells, picks, resource)) <= u64::MAX,
{
    let values = amounts(cells, picks, resource);
    assert forall|k: int| 0 <= k < values.len() implies 0 <= #[trigger] values[k] <= u64::MAX by {
        assert(values[k] == cells[picks[k]].amount(resource));
    }
    lemma_mean_between(values, 0, u64::MAX as int);
}

} // verus!
