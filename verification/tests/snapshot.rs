use diffusion_grid::cell::Cell;
use diffusion_grid::error::GridError;
use diffusion_grid::extent::Extent;
use diffusion_grid::grid::Grid;
use diffusion_grid::snapshot::{arrange, Entry};

fn cell(air: u64, water: u64, fire: u64) -> Cell {
    Cell { air, water, fire }
}

fn entry(x: usize, y: usize, air: u64) -> Entry {
    Entry { x, y, cell: cell(air, air + 1, air + 2) }
}

#[test]
fn arrange_finds_the_entry_of_every_cell() {
    let e = Extent { width: 2, height: 3 };
    let positions = vec![(1, 2), (0, 0), (1, 0), (0, 2), (0, 1), (1, 1)];
    assert_eq!(arrange(&e, &positions), Ok(vec![1, 4, 3, 2, 5, 0]));
    let in_order = vec![(0, 0), (0, 1), (0, 2), (1, 0), (1, 1), (1, 2)];
    assert_eq!(arrange(&e, &in_order), Ok(vec![0, 1, 2, 3, 4, 5]));
}

#[test]
fn arrange_reports_the_first_entry_outside_the_grid() {
    let e = Extent { width: 2, height: 2 };
    assert_eq!(arrange(&e, &vec![(0, 0), (2, 0), (0, 5)]), Err(GridError::Outside(1)));
    assert_eq!(arrange(&e, &vec![(0, 2)]), Err(GridError::Outside(0)));
    assert_eq!(arrange(&e, &vec![(0, 0), (0, 1), (1, 0), (1, 1), (1, 2)]), Err(GridError::Outside(4)));
}

#[test]
fn arrange_reports_the_first_repeated_entry() {
    let e = Extent { width: 2, height: 2 };
    assert_eq!(arrange(&e, &vec![(0, 0), (1, 1), (0, 0), (1, 1)]), Err(GridError::Duplicate(2)));
    assert_eq!(arrange(&e, &vec![(1, 0), (1, 0)]), Err(GridError::Duplicate(1)));
    // Whichever fault comes first is the one reported.
    assert_eq!(arrange(&e, &vec![(1, 0), (1, 0), (7, 7)]), Err(GridError::Duplicate(1)));
    assert_eq!(arrange(&e, &vec![(1, 0), (7, 7), (1, 0)]), Err(GridError::Outside(1)));
}

#[test]
fn arrange_reports_the_first_cell_without_an_entry() {
    let e = Extent { width: 2, height: 2 };
    assert_eq!(arrange(&e, &vec![]), Err(GridError::Missing(0)));
    assert_eq!(arrange(&e, &vec![(0, 0), (1, 1)]), Err(GridError::Missing(1)));
    assert_eq!(arrange(&e, &vec![(0, 1), (0, 0), (1, 0)]), Err(GridError::Missing(3)));
}

#[test]
fn grid_from_entries_puts_every_cell_in_its_place() {
    let e = Extent { width: 2, height: 2 };
    let entries = vec![entry(1, 1, 40), entry(0, 0, 10), entry(1, 0, 30), entry(0, 1, 20)];
    let grid = Grid::from_entries(e, &entries).expect("a complete list");
    assert_eq!(grid.extent(), e);
    assert_eq!(grid.get(0, 0), cell(10, 11, 12));
    assert_eq!(grid.get(0, 1), cell(20, 21, 22));
    assert_eq!(grid.get(1, 0), cell(30, 31, 32));
    assert_eq!(grid.get(1, 1), cell(40, 41, 42));
    let mut same = Grid::filled(e, cell(0, 0, 0));
    for each in &entries {
        same.set(each.x, each.y, each.cell);
    }
    assert_eq!(grid, same);
}

#[test]
fn grid_from_entries_reports_what_is_wrong() {
    let e = Extent { width: 2, height: 2 };
    assert_eq!(
        Grid::from_entries(e, &vec![entry(0, 0, 1), entry(0, 2, 1)]).err(),
        Some(GridError::Outside(1))
    );
    assert_eq!(
        Grid::from_entries(e, &vec![entry(0, 1, 1), entry(1, 1, 2), entry(0, 1, 3)]).err(),
        Some(GridError::Duplicate(2))
    );
    assert_eq!(
        Grid::from_entries(e, &vec![entry(0, 0, 1), entry(0, 1, 1), entry(1, 1, 2)]).err(),
        Some(GridError::Missing(2))
    );
}
