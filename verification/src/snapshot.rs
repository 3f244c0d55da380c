//! Cells that arrive one by one, each with its position.
//!
//! A host that keeps every cell as a record of its own hands over a list of
//! positions, in any order.  The list describes a grid if every position
//! inside the grid is named exactly once and no other position is named.

use vstd::prelude::*;
use crate::cell::Cell;
use crate::extent::Extent;
use crate::error::GridError;
use crate::extent::lemma_index_order;

verus! {

/// One cell of a host, with the position it belongs to.
#[derive(Clone, Copy, Debug, PartialEq, Eq, Structural)]
pub struct Entry {
    pub x: usize,
    pub y: usize,
    pub cell: Cell,
}

/// The positions of a list of entries.
pub open spec fn positions_of(entries: Seq<Entry>) -> Seq<(usize, usize)> {
    entries.map_values(|entry: Entry| (entry.x, entry.y))
}

/// The index of the cell that entry `k` names.
pub open spec fn slot(e: Extent, positions: Seq<(usize, usize)>, k: int) -> int {
    e.index_of(positions[k].0 as int, positions[k].1 as int)
}

/// Entry `k` names a position outside the grid.
pub open spec fn outside(e: Extent, positions: Seq<(usize, usize)>, k: int) -> bool {
    !e.contains(positions[k].0 as int, positions[k].1 as int)
}

/// Entry `k` names a position that an earlier entry names too.
pub open spec fn repeated(positions: Seq<(usize, usize)>, k: int) -> bool {
    exists|j: int| 0 <= j < k && #[trigger] positions[j] == positions[k]
}

/// Entry `k` cannot stand: it lies outside the grid or repeats an earlier
/// entry.
pub open spec fn faulty(e: Extent, positions: Seq<(usize, usize)>, k: int) -> bool {
    outside(e, positions, k) || repeated(positions, k)
}

/// None of the first `k` entries is faulty.
pub open spec fn clean(e: Extent, positions: Seq<(usize, usize)>, k: int) -> bool {
    forall|j: int| 0 <= j < k ==> !#[trigger] faulty(e, positions, j)
}

/// One of the first `k` entries names the cell with index `i`.
pub open spec fn named(e: Extent, positions: Seq<(usize, usize)>, i: int, k: int) -> bool {
    exists|j: int| 0 <= j < k && #[trigger] slot(e, positions, j) == i
}

/// Every position inside the grid is named exactly once, and no other
/// position is named.
pub open spec fn complete(e: Extent, positions: Seq<(usize, usize)>) -> bool {
    &&& clean(e, positions, positions.len() as int)
    &&& forall|i: int|
        0 <= i < e.cell_count() ==> #[trigger] named(e, positions, i, positions.len() as int)
}

/// What is wrong with a list of positions: the first entry that is faulty,
/// or else the first cell that no entry names.
pub open spec fn reports(e: Extent, positions: Seq<(usize, usize)>, error: GridError) -> bool {
    match error {
        GridError::Outside(k) => {
            &&& k < positions.len()
            &&& clean(e, positions, k as int)
            &&& outside(e, positions, k as int)
        },
        GridError::Duplicate(k) => {
            &&& k < positions.len()
            &&& clean(e, positions, k as int)
            &&& !outside(e, positions, k as int)
            &&& repeated(positions, k as int)
        },
        GridError::Missing(i) => {
            &&& clean(e, positions, positions.len() as int)
            &&& i < e.cell_count()
            &&& !named(e, positions, i as int, positions.len() as int)
            &&& forall|earlier: int|
                0 <= earlier < i ==> #[trigger] named(
                    e,
                    positions,
                    earlier,
                    positions.len() as int,
                )
        },
        _ => false,
    }
}

/// A list of which something is reported is not complete, and nothing else
/// is reported of it.
pub proof fn lemma_report_is_unique(
    e: Extent,
    positions: Seq<(usize, usize)>,
    first: GridError,
    second: GridError,
)
    requires
        reports(e, positions, first),
    ensures
        !complete(e, positions),
        reports(e, positions, second) ==> first == second,
{
    match first {
        GridError::Outside(k) => {
            assert(faulty(e, positions, k as int));
        },
        GridError::Duplicate(k) => {
            assert(faulty(e, positions, k as int));
        },
        _ => {},
    }
    if reports(e, positions, second) {
        match second {
            GridError::Outside(k) => {
                assert(faulty(e, positions, k as int));
            },
            GridError::Duplicate(k) => {
                assert(faulty(e, positions, k as int));
            },
            _ => {},
        }
    }
}

/// In a clean list two entries that name the same cell are the same entry.
pub proof fn lemma_clean_entries_differ(
    e: Extent,
    positions: Seq<(usize, usize)>,
    j: int,
    k: int,
)
    requires
        e.wf(),
        clean(e, positions, positions.len() as int),
        0 <= j < positions.len(),
        0 <= k < positions.len(),
        slot(e, positions, j) == slot(e, positions, k),
    ensures
        j == k,
{
    assert(!faulty(e, positions, j));
    assert(!faulty(e, positions, k));
    lemma_index_order(
        e,
        positions[j].0 as int,
        positions[j].1 as int,
        positions[k].0 as int,
        positions[k].1 as int,
    );
    assert(positions[j] == positions[k]);
}

/// Finds for every cell the entry that names it.
///
/// For a complete list the result gives, in index order, the number of the
/// entry of each cell.  Otherwise it reports what is wrong with the list.
pub fn arrange(e: &Extent, positions: &Vec<(usize, usize)>) -> (found: Result<Vec<usize>, GridError>)
    requires
        e.wf(),
    ensures
        match found {
            Ok(order) => {
                &&& complete(*e, positions@)
                &&& order.len() == e.cell_count()
                &&& forall|i: int|
                    0 <= i < order.len() ==> (#[trigger] order[i]) < positions.len() && slot(
                        *e,
                        positions@,
                        order[i] as int,
                    ) == i
            },
            Err(error) => reports(*e, positions@, error),
        },
{
    let count = e.len();
    let mut owner: Vec<Option<usize>> = Vec::new();
    let mut i: usize = 0;
    while i < count
        invariant
            i <= count,
            owner.len() == i,
            forall|c: int| 0 <= c < i ==> (#[trigger] owner[c]) is None,
        decreases count - i,
    {
        owner.push(None);
        i += 1;
    }
    let mut k: usize = 0;
    while k < positions.len()
        invariant
            e.wf(),
            count == e.cell_count(),
            k <= positions.len(),
            owner.len() == count,
            clean(*e, positions@, k as int),
            forall|c: int|
                0 <= c < count ==> match #[trigger] owner[c] {
                    Some(j) => j < k && slot(*e, positions@, j as int) == c,
                    None => !named(*e, positions@, c, k as int),
                },
        decreases positions.len() - k,
    {
        let (x, y) = positions[k];
        if x >= e.width || y >= e.height {
            return Err(GridError::Outside(k));
        }
        let c = e.index(x, y);
        match owner[c] {
            Some(j) => {
                proof {
                    assert(!faulty(*e, positions@, j as int));
                    lemma_index_order(
                        *e,
                        positions@[j as int].0 as int,
                        positions@[j as int].1 as int,
                        x as int,
                        y as int,
                    );
                    assert(positions@[j as int] == positions@[k as int]);
                }
                return Err(GridError::Duplicate(k));
            },
            None => {
                proof {
                    assert(!repeated(positions@, k as int)) by {
                        if repeated(positions@, k as int) {
                            let j = choose|j: int|
                                0 <= j < k && #[trigger] positions@[j] == positions@[k as int];
                            assert(slot(*e, positions@, j) == c);
                            assert(named(*e, positions@, c as int, k as int));
                        }
                    }
                    assert(!faulty(*e, positions@, k as int));
                }
                let ghost before = owner@;
                owner.set(c, Some(k));
                proof {
                    assert forall|d: int| 0 <= d < count implies match #[trigger] owner[d] {
                        Some(j) => j < k + 1 && slot(*e, positions@, j as int) == d,
                        None => !named(*e, positions@, d, k + 1),
                    } by {
                        if d != c {
                            assert(owner[d] == before[d]);
                            if owner[d] is None {
                                assert(!named(*e, positions@, d, k as int));
                                assert(!named(*e, positions@, d, k + 1)) by {
                                    if named(*e, positions@, d, k + 1) {
                                        let j = choose|j: int|
                                            0 <= j < k + 1 && #[trigger] slot(*e, positions@, j)
                                                == d;
                                        assert(j < k);
                                    }
                                }
                            }
                        }
                    }
                }
            },
        }
        k += 1;
    }
    let mut order: Vec<usize> = Vec::new();
    let mut c: usize = 0;
    while c < count
        invariant
            count == e.cell_count(),
            c <= count,
            owner.len() == count,
            order.len() == c,
            clean(*e, positions@, positions.len() as int),
            forall|d: int|
                0 <= d < count ==> match #[trigger] owner[d] {
                    Some(j) => j < positions.len() && slot(*e, positions@, j as int) == d,
                    None => !named(*e, positions@, d, positions.len() as int),
                },
            forall|d: int|
                0 <= d < c ==> (#[trigger] order[d]) < positions.len() && slot(
                    *e,
                    positions@,
                    order[d] as int,
                ) == d,
        decreases count - c,
    {
        match owner[c] {
            Some(j) => {
                order.push(j);
            },
            None => {
                proof {
                    assert forall|earlier: int| 0 <= earlier < c implies named(
                        *e,
                        positions@,
                        earlier,
                        positions.len() as int,
                    ) by {
                        assert(slot(*e, positions@, order[earlier] as int) == earlier);
                    }
                }
                return Err(GridError::Missing(c));
            },
        }
        c += 1;
    }
    proof {
        assert forall|d: int| 0 <= d < e.cell_count() implies #[trigger] named(
            *e,
            positions@,
            d,
            positions.len() as int,
        ) by {
            assert(slot(*e, positions@, order[d] as int) == d);
        }
    }
    Ok(order)
}

} // verus!
