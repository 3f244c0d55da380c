use diffusion_grid::cell::Cell;
use diffusion_grid::exact::{divide_sums, plus_cell, share_of, sum_with, Sums};
use diffusion_grid::extent::Extent;
use diffusion_grid::layer::diffuse_with;

fn cell(air: u64, water: u64, fire: u64) -> Cell {
    Cell { air, water, fire }
}

#[test]
fn sums_start_at_nothing() {
    assert_eq!(Sums::zero(), Sums { air: 0, water: 0, fire: 0 });
}

#[test]
fn sum_with_adds_exactly() {
    assert_eq!(sum_with(0, 0), 0);
    assert_eq!(sum_with(40, 2), 42);
    assert_eq!(sum_with(u64::MAX as u128, u64::MAX), 2 * (u64::MAX as u128));
    assert_eq!(sum_with(u128::MAX - 5, 5), u128::MAX);
}

#[test]
fn sum_with_stops_at_the_largest_sum() {
    assert_eq!(sum_with(u128::MAX - 5, 6), u128::MAX);
    assert_eq!(sum_with(u128::MAX, u64::MAX), u128::MAX);
}

#[test]
fn share_of_divides_and_rounds_down() {
    assert_eq!(share_of(0, 3), 0);
    assert_eq!(share_of(10, 5), 2);
    assert_eq!(share_of(14, 5), 2);
    assert_eq!(share_of(15, 5), 3);
    assert_eq!(share_of(1_000_000, 3), 333_333);
    assert_eq!(share_of(5 * (u64::MAX as u128), 5), u64::MAX);
    assert_eq!(share_of(5 * (u64::MAX as u128) - 1, 5), u64::MAX - 1);
}

#[test]
fn share_of_stops_at_the_largest_quantity() {
    assert_eq!(share_of(u128::MAX, 1), u64::MAX);
    assert_eq!(share_of(2 * (u64::MAX as u128) + 2, 2), u64::MAX);
}

#[test]
fn plus_cell_adds_each_resource() {
    let sums = plus_cell(Sums::zero(), cell(1, 2, 3));
    assert_eq!(sums, Sums { air: 1, water: 2, fire: 3 });
    let sums = plus_cell(sums, cell(10, 0, u64::MAX));
    assert_eq!(sums, Sums { air: 11, water: 2, fire: u64::MAX as u128 + 3 });
}

#[test]
fn divide_sums_divides_each_resource() {
    let sums = Sums { air: 70, water: 2, fire: 3 * (u64::MAX as u128) };
    assert_eq!(divide_sums(sums, 3), cell(23, 0, u64::MAX));
    assert_eq!(divide_sums(sums, 1), cell(70, 2, u64::MAX));
}

#[test]
fn layer_of_cells_with_exact_arithmetic() {
    let e = Extent { width: 2, height: 1 };
    let layer = vec![cell(1, 0, 9), cell(2, 1, 0)];
    let next = diffuse_with(&e, &layer, Sums::zero(), plus_cell, divide_sums);
    assert_eq!(next, vec![cell(1, 0, 4), cell(1, 0, 4)]);
}
