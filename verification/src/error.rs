//! What can be wrong with the description of a grid.

use vstd::prelude::*;

verus! {

/// Why a grid cannot be made.
#[derive(Clone, Copy, Debug, PartialEq, Eq, Structural)]
pub enum GridError {
    /// The width or the height is zero.
    Empty,
    /// The number of cells does not fit in a `usize`.
    TooLarge,
    /// The entry with this number lies outside the grid.
    Outside(usize),
    /// The entry with this number names a position that an earlier entry
    /// has named already.
    Duplicate(usize),
    /// No entry names the cell with this index.
    Missing(usize),
}

} // verus!
