use diffusion_grid::extent::Extent;
use diffusion_grid::stencil::{boundary_bias, contributors, Adjacency, BIAS_CAP, EDGE_BIAS, SCAN_LIMIT};

fn flags(west: bool, east: bool, north: bool, south: bool) -> Adjacency {
    Adjacency { west, east, north, south }
}

#[test]
fn constants_of_the_scan() {
    assert_eq!(EDGE_BIAS, 3);
    assert_eq!(BIAS_CAP, 5);
    assert_eq!(SCAN_LIMIT, 9);
}

#[test]
fn index_counts_column_by_column() {
    let e = Extent { width: 47, height: 23 };
    assert_eq!(e.len(), 1081);
    assert_eq!(e.index(0, 0), 0);
    assert_eq!(e.index(0, 22), 22);
    assert_eq!(e.index(1, 0), 23);
    assert_eq!(e.index(46, 22), 1080);
    assert_eq!(e.index(10, 5), 235);
}

#[test]
fn position_undoes_index() {
    let e = Extent { width: 4, height: 3 };
    assert_eq!(e.position(0), (0, 0));
    assert_eq!(e.position(2), (0, 2));
    assert_eq!(e.position(3), (1, 0));
    assert_eq!(e.position(11), (3, 2));
    let mut seen = vec![false; e.len()];
    for x in 0..e.width {
        for y in 0..e.height {
            let i = e.index(x, y);
            assert!(!seen[i]);
            seen[i] = true;
            assert_eq!(e.position(i), (x, y));
        }
    }
    assert!(seen.iter().all(|&s| s));
}

#[test]
fn target_touches_in_all_four_directions() {
    let own = Adjacency::of(4, 7, 4, 7);
    assert_eq!(own, flags(true, true, true, true));
    assert!(own.all());
    assert!(own.any());
}

#[test]
fn orthogonal_neighbour_touches_in_one_direction() {
    assert_eq!(Adjacency::of(4, 7, 3, 7), flags(true, false, false, false));
    assert_eq!(Adjacency::of(4, 7, 5, 7), flags(false, true, false, false));
    assert_eq!(Adjacency::of(4, 7, 4, 6), flags(false, false, true, false));
    assert_eq!(Adjacency::of(4, 7, 4, 8), flags(false, false, false, true));
    for (x, y) in [(3, 7), (5, 7), (4, 6), (4, 8)] {
        let touching = Adjacency::of(4, 7, x, y);
        assert!(touching.any());
        assert!(!touching.all());
    }
}

#[test]
fn other_cells_do_not_touch() {
    let none = flags(false, false, false, false);
    for (x, y) in [(3, 6), (5, 6), (3, 8), (5, 8), (2, 7), (6, 7), (4, 5), (4, 9), (0, 0), (4, 0), (0, 7)] {
        let apart = Adjacency::of(4, 7, x, y);
        assert_eq!(apart, none);
        assert!(!apart.any());
        assert!(!apart.all());
    }
    assert_eq!(Adjacency::of(0, 0, usize::MAX, 0), none);
    assert_eq!(Adjacency::of(usize::MAX, usize::MAX, 0, usize::MAX), none);
}

#[test]
fn bias_of_inner_and_edge_targets() {
    let e = Extent { width: 47, height: 23 };
    assert_eq!(boundary_bias(&e, 10, 10), 0);
    assert_eq!(boundary_bias(&e, 0, 10), 3);
    assert_eq!(boundary_bias(&e, 46, 10), 3);
    assert_eq!(boundary_bias(&e, 10, 0), 3);
    assert_eq!(boundary_bias(&e, 45, 1), 0);
}

#[test]
fn bias_is_capped_in_the_corners_of_the_first_row() {
    let e = Extent { width: 47, height: 23 };
    assert_eq!(boundary_bias(&e, 0, 0), 5);
    assert_eq!(boundary_bias(&e, 46, 0), 5);
    let small = Extent { width: 2, height: 2 };
    assert_eq!(boundary_bias(&small, 0, 0), 5);
    assert_eq!(boundary_bias(&small, 1, 0), 5);
    assert_eq!(boundary_bias(&small, 0, 1), 3);
    assert_eq!(boundary_bias(&small, 1, 1), 3);
}

#[test]
fn bias_looks_one_row_past_the_grid_not_at_the_last_row() {
    let e = Extent { width: 47, height: 23 };
    assert_eq!(boundary_bias(&e, 10, 22), 0);
    assert_eq!(boundary_bias(&e, 0, 22), 3);
    assert_eq!(boundary_bias(&e, 10, 23), 0);
    assert_eq!(boundary_bias(&e, 10, 24), 3);
    assert_eq!(boundary_bias(&e, 0, 24), 5);
    let tall = Extent { width: 1, height: usize::MAX };
    assert_eq!(boundary_bias(&tall, 0, usize::MAX), 3);
    assert_eq!(boundary_bias(&tall, 0, 0), 5);
}

#[test]
fn counter_stays_below_the_limit() {
    for e in [Extent { width: 1, height: 1 }, Extent { width: 2, height: 2 }, Extent { width: 5, height: 3 }] {
        for x0 in 0..e.width {
            for y0 in 0..e.height {
                assert!(boundary_bias(&e, x0, y0) <= BIAS_CAP);
                assert!(boundary_bias(&e, x0, y0) + 1 < SCAN_LIMIT);
            }
        }
    }
}

#[test]
fn contributors_of_an_inner_target_come_in_scan_order() {
    let e = Extent { width: 3, height: 3 };
    assert_eq!(contributors(&e, 1, 1), vec![1, 3, 4, 5, 7]);
    let wide = Extent { width: 47, height: 23 };
    assert_eq!(contributors(&wide, 10, 5), vec![212, 234, 235, 236, 258]);
}

#[test]
fn contributors_of_corners_and_edges() {
    let e = Extent { width: 3, height: 3 };
    assert_eq!(contributors(&e, 0, 0), vec![0, 1, 3]);
    assert_eq!(contributors(&e, 0, 2), vec![1, 2, 5]);
    assert_eq!(contributors(&e, 2, 0), vec![3, 6, 7]);
    assert_eq!(contributors(&e, 2, 2), vec![5, 7, 8]);
    assert_eq!(contributors(&e, 0, 1), vec![0, 1, 2, 4]);
    assert_eq!(contributors(&e, 1, 0), vec![0, 3, 4, 6]);
    assert_eq!(contributors(&e, 1, 2), vec![2, 4, 5, 8]);
    assert_eq!(contributors(&e, 2, 1), vec![4, 6, 7, 8]);
}

#[test]
fn contributors_of_a_two_by_two_grid() {
    let e = Extent { width: 2, height: 2 };
    assert_eq!(contributors(&e, 0, 0), vec![0, 1, 2]);
    assert_eq!(contributors(&e, 0, 1), vec![0, 1, 3]);
    assert_eq!(contributors(&e, 1, 0), vec![0, 2, 3]);
    assert_eq!(contributors(&e, 1, 1), vec![1, 2, 3]);
}

#[test]
fn contributors_of_narrow_grids() {
    assert_eq!(contributors(&Extent { width: 1, height: 1 }, 0, 0), vec![0]);
    let row = Extent { width: 4, height: 1 };
    assert_eq!(contributors(&row, 0, 0), vec![0, 1]);
    assert_eq!(contributors(&row, 2, 0), vec![1, 2, 3]);
    let column = Extent { width: 1, height: 4 };
    assert_eq!(contributors(&column, 0, 3), vec![2, 3]);
    assert_eq!(contributors(&column, 0, 1), vec![0, 1, 2]);
}

#[test]
fn every_target_is_among_its_own_contributors() {
    let e = Extent { width: 6, height: 4 };
    for x0 in 0..e.width {
        for y0 in 0..e.height {
            let list = contributors(&e, x0, y0);
            let own = e.index(x0, y0);
            assert_eq!(list.iter().filter(|&&i| i == own).count(), 1);
            let mut sorted = list.clone();
            sorted.sort();
            sorted.dedup();
            assert_eq!(sorted, list);
            for &i in &list {
                let (x, y) = e.position(i);
                assert!(x.abs_diff(x0) + y.abs_diff(y0) <= 1);
            }
            let inside = [x0 > 0, y0 > 0, true, y0 + 1 < e.height, x0 + 1 < e.width];
            assert_eq!(list.len(), inside.iter().filter(|&&b| b).count());
        }
    }
}
