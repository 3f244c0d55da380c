//! What a cell holds.

use vstd::prelude::*;

verus! {

/// One whole unit of a quantity.  Quantities are fixed-point numbers counted
/// in millionths of a unit.
pub const UNIT: u64 = 1_000_000;

/// The three resources that diffuse over the grid.
#[derive(Clone, Copy, Debug, PartialEq, Eq, Structural)]
pub enum Resource {
    Air,
    Water,
    Fire,
}

/// The quantities of air, water and fire in one cell.
#[derive(Clone, Copy, Debug, PartialEq, Eq, Structural)]
pub struct Cell {
    pub air: u64,
    pub water: u64,
    pub fire: u64,
}

impl Cell {
    /// The quantity of one resource, as a number.
    pub open spec fn amount(self, resource: Resource) -> int {
        match resource {
            Resource::Air => self.air as int,
            Resource::Water => self.water as int,
            Resource::Fire => self.fire as int,
        }
    }

    /// The cell every grid starts from: one unit of air, no water, no fire.
    pub open spec fn fresh_spec() -> Cell {
        Cell { air: UNIT, water: 0, fire: 0 }
    }

    /// The cell every grid starts from: one unit of air, no water, no fire.
    #[verifier::when_used_as_spec(fresh_spec)]
    pub fn fresh() -> (cell: Cell)
        ensures
            cell == Cell::fresh_spec(),
    {
        Cell { air: UNIT, water: 0, fire: 0 }
    }

    /// The quantity of one resource.
    pub fn get(&self, resource: Resource) -> (quantity: u64)
        ensures
            quantity == self.amount(resource),
    {
        match resource {
            Resource::Air => self.air,
            Resource::Water => self.water,
            Resource::Fire => self.fire,
        }
    }
}

} // verus!
