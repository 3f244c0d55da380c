//! Diffusion of a layer of values with the arithmetic of the caller.
//!
//! A layer holds one value for every cell of a grid, in index order.  The
//! value is of the caller's own type: one quantity, or the record of all
//! the quantities of a cell.  The caller hands over how to add a value to a
//! sum and how to divide a sum by a count.  The scan, the order in which
//! the values are added, the divisor and the separation of old and new
//! values are those of the grid's own tick.

use vstd::prelude::*;
use crate::extent::Extent;
use crate::extent::lemma_column_start;
use crate::extent::lemma_index_of_position;
use crate::mean::within;
use crate::stencil::as_ints;
use crate::stencil::contributors;
use crate::stencil::neighbourhood;

verus! {

/// The values of the cells that `picks` names, in the order of `picks`.
pub open spec fn picked<Q>(layer: Seq<Q>, picks: Seq<int>) -> Seq<Q> {
    Seq::new(picks.len(), |k: int| layer[picks[k]])
}

/// `sums` holds what adding the terms one after the other gives: it starts
/// at `zero`, and each further sum is a result of `plus` for the sum before
/// it and the next term.
pub open spec fn adds_up<S, Q, A: Fn(S, Q) -> S>(
    plus: A,
    zero: S,
    terms: Seq<Q>,
    sums: Seq<S>,
) -> bool {
    &&& sums.len() == terms.len() + 1
    &&& sums[0] == zero
    &&& forall|k: int|
        0 <= k < terms.len() ==> call_ensures(plus, (#[trigger] sums[k], terms[k]), sums[k + 1])
}

/// `out` is a mean of the terms: a result of `divide` for a sum of all the
/// terms, added in their order, and their number.
pub open spec fn averages<S, Q, A: Fn(S, Q) -> S, D: Fn(S, usize) -> Q>(
    plus: A,
    divide: D,
    zero: S,
    terms: Seq<Q>,
    out: Q,
) -> bool {
    exists|sums: Seq<S>|
        #[trigger] adds_up(plus, zero, terms, sums) && call_ensures(
            divide,
            (sums.last(), terms.len() as usize),
            out,
        )
}

/// Advances a layer by one tick.  Every new value is a mean, in the
/// arithmetic of the caller, over the old values of the cell itself and of
/// its orthogonal neighbours inside the grid, taken in scan order.
pub fn diffuse_with<S: Copy, Q: Copy, A: Fn(S, Q) -> S, D: Fn(S, usize) -> Q>(
    extent: &Extent,
    layer: &Vec<Q>,
    zero: S,
    plus: A,
    divide: D,
) -> (next: Vec<Q>)
    requires
        extent.wf(),
        layer.len() == extent.cell_count(),
        forall|sum: S, term: Q| call_requires(plus, (sum, term)),
        forall|sum: S, count: usize| 0 < count ==> call_requires(divide, (sum, count)),
    ensures
        next.len() == layer.len(),
        forall|i: int|
            0 <= i < next.len() ==> averages(
                plus,
                divide,
                zero,
                picked(layer@, neighbourhood(*extent, extent.column_of(i), extent.row_of(i))),
                #[trigger] next[i],
            ),
{
    let count = extent.len();
    let mut next: Vec<Q> = Vec::new();
    let mut x: usize = 0;
    let mut y: usize = 0;
    let mut i: usize = 0;
    while i < count
        invariant
            extent.wf(),
            count == extent.cell_count(),
            layer.len() == count,
            forall|sum: S, term: Q| call_requires(plus, (sum, term)),
            forall|sum: S, count: usize| 0 < count ==> call_requires(divide, (sum, count)),
            i <= count,
            i < count ==> extent.contains(x as int, y as int) && i == extent.index_of(
                x as int,
                y as int,
            ),
            next.len() == i,
            forall|c: int|
                0 <= c < i ==> averages(
                    plus,
                    divide,
                    zero,
                    picked(layer@, neighbourhood(*extent, extent.column_of(c), extent.row_of(c))),
                    #[trigger] next[c],
                ),
        decreases count - i,
    {
        let picks = contributors(extent, x, y);
        let ghost terms = picked(layer@, as_ints(picks@));
        proof {
            lemma_index_of_position(*extent, x as int, y as int);
            lemma_column_start(*extent, x as int);
            crate::stencil::lemma_neighbourhood_within(*extent, x as int, y as int);
        }
        let mut sum = zero;
        let ghost mut sums = seq![zero];
        let mut k: usize = 0;
        while k < picks.len()
            invariant
                k <= picks.len(),
                within(as_ints(picks@), layer.len() as int),
                terms == picked(layer@, as_ints(picks@)),
                forall|sum: S, term: Q| call_requires(plus, (sum, term)),
                sums.len() == k + 1,
                sums[0] == zero,
                sums.last() == sum,
                forall|j: int|
                    0 <= j < k ==> call_ensures(plus, (#[trigger] sums[j], terms[j]), sums[j + 1]),
            decreases picks.len() - k,
        {
            assert(0 <= as_ints(picks@)[k as int] < layer.len());
            let term = layer[picks[k]];
            let ghost before = sums;
            sum = plus(sum, term);
            proof {
                sums = sums.push(sum);
                assert forall|j: int| 0 <= j < k + 1 implies call_ensures(
                    plus,
                    (#[trigger] sums[j], terms[j]),
                    sums[j + 1],
                ) by {
                    if j < k {
                        assert(sums[j] == before[j]);
                        assert(sums[j + 1] == before[j + 1]);
                    }
                }
            }
            k += 1;
        }
        let mean = divide(sum, picks.len());
        proof {
            assert(adds_up(plus, zero, terms, sums));
        }
        next.push(mean);
        i += 1;
        y += 1;
        if y == extent.height {
            y = 0;
            x += 1;
        }
    }
    next
}

} // verus!
