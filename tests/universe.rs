use game_of_life::universe::{DEFAULT_HEIGHT, DEFAULT_WIDTH};
use game_of_life::Universe;

fn empty_universe(width: u32, height: u32) -> Universe {
    let seeds = vec![false; (DEFAULT_WIDTH * DEFAULT_HEIGHT) as usize];
    let mut u = Universe::new(&seeds);
    u.set_width(width);
    u.set_height(height);
    u
}

fn alive_cells(u: &Universe) -> Vec<(u32, u32)> {
    let mut out = Vec::new();
    for row in 0..u.height() {
        for col in 0..u.width() {
            if u.get_cells().contains((row * u.width() + col) as usize) {
                out.push((row, col));
            }
        }
    }
    out
}

#[test]
fn new_uses_the_given_states() {
    let seeds: Vec<bool> = (0..DEFAULT_WIDTH * DEFAULT_HEIGHT).map(|i| i % 3 == 0).collect();
    let u = Universe::new(&seeds);
    assert_eq!(u.width(), 64);
    assert_eq!(u.height(), 64);
    assert_eq!(u.get_cells().len(), 4096);
    for (i, &s) in seeds.iter().enumerate() {
        assert_eq!(u.get_cells().contains(i), s);
    }
}

#[test]
fn neighbor_count_in_range_and_wraps() {
    let mut u = empty_universe(5, 4);
    u.set_cells(&[(0, 0), (0, 4), (3, 0), (3, 4), (1, 1)]);
    // (0, 0) sees (0, 4), (3, 0), (3, 4) across the edges and (1, 1) inside.
    assert_eq!(u.live_neighbor_count(0, 0), 4);
    assert_eq!(u.live_neighbor_count(2, 2), 1);
    assert_eq!(u.live_neighbor_count(3, 4), 3);
    for row in 0..4 {
        for col in 0..5 {
            assert!(u.live_neighbor_count(row, col) <= 8);
        }
    }
}

#[test]
fn neighbor_count_of_full_grid_is_eight() {
    let mut u = empty_universe(3, 3);
    let all: Vec<(u32, u32)> = (0..3).flat_map(|r| (0..3).map(move |c| (r, c))).collect();
    u.set_cells(&all);
    for &(r, c) in &all {
        assert_eq!(u.live_neighbor_count(r, c), 8);
    }
}

#[test]
fn tick_is_deterministic() {
    let mut a = empty_universe(6, 6);
    let mut b = empty_universe(6, 6);
    let pattern = [(0, 1), (1, 2), (2, 0), (2, 1), (2, 2), (5, 5)];
    a.set_cells(&pattern);
    b.set_cells(&pattern);
    a.tick();
    b.tick();
    assert_eq!(alive_cells(&a), alive_cells(&b));
    assert_eq!(a.get_cells(), b.get_cells());
}

#[test]
fn lone_cell_dies() {
    let mut u = empty_universe(5, 5);
    u.set_cells(&[(2, 2)]);
    u.tick();
    assert!(alive_cells(&u).is_empty());
}

#[test]
fn block_is_still_life() {
    let mut u = empty_universe(6, 6);
    let block = vec![(2, 2), (2, 3), (3, 2), (3, 3)];
    u.set_cells(&block);
    u.tick();
    assert_eq!(alive_cells(&u), block);
}

#[test]
fn blinker_oscillates_with_period_two() {
    let mut u = empty_universe(5, 5);
    let horizontal = vec![(2, 1), (2, 2), (2, 3)];
    let vertical = vec![(1, 2), (2, 2), (3, 2)];
    u.set_cells(&horizontal);
    u.tick();
    assert_eq!(alive_cells(&u), vertical);
    u.tick();
    assert_eq!(alive_cells(&u), horizontal);
}

#[test]
fn dead_cell_with_three_neighbors_comes_alive() {
    let mut u = empty_universe(6, 6);
    u.set_cells(&[(1, 1), (1, 2), (2, 1)]);
    u.tick();
    assert_eq!(alive_cells(&u), vec![(1, 1), (1, 2), (2, 1), (2, 2)]);
}

#[test]
fn overcrowded_cell_dies() {
    let mut u = empty_universe(7, 7);
    // The centre has four alive neighbours.
    u.set_cells(&[(3, 3), (2, 3), (4, 3), (3, 2), (3, 4)]);
    u.tick();
    let after = alive_cells(&u);
    assert!(!after.contains(&(3, 3)));
    assert!(after.contains(&(2, 2)));
}

#[test]
fn tick_wraps_around_edges() {
    let mut u = empty_universe(5, 5);
    // A blinker across the left and right edges of row 0.
    u.set_cells(&[(0, 4), (0, 0), (0, 1)]);
    u.tick();
    assert_eq!(alive_cells(&u), vec![(0, 0), (1, 0), (4, 0)]);
}

#[test]
fn set_width_clears_cells() {
    let seeds = vec![true; (DEFAULT_WIDTH * DEFAULT_HEIGHT) as usize];
    let mut u = Universe::new(&seeds);
    u.set_width(10);
    assert_eq!(u.width(), 10);
    assert_eq!(u.height(), 64);
    assert_eq!(u.get_cells().len(), 640);
    assert!(alive_cells(&u).is_empty());
}

#[test]
fn set_height_clears_cells() {
    let mut u = empty_universe(4, 4);
    u.set_cells(&[(0, 0), (3, 3)]);
    u.set_height(7);
    assert_eq!(u.height(), 7);
    assert_eq!(u.width(), 4);
    assert_eq!(u.get_cells().len(), 28);
    assert!(alive_cells(&u).is_empty());
}

#[test]
fn set_cells_touches_only_listed_cells() {
    let mut u = empty_universe(4, 3);
    u.set_cells(&[(0, 1)]);
    u.set_cells(&[(2, 3), (1, 0), (2, 3)]);
    assert_eq!(alive_cells(&u), vec![(0, 1), (1, 0), (2, 3)]);
    assert!(u.get_cells().contains(2 * 4 + 3));
    assert!(!u.get_cells().contains(2 * 4 + 2));
}

#[test]
fn set_cells_empty_list_changes_nothing() {
    let mut u = empty_universe(3, 3);
    u.set_cells(&[(1, 1)]);
    u.set_cells(&[]);
    assert_eq!(alive_cells(&u), vec![(1, 1)]);
}

#[test]
fn size_matches_dimensions_after_resizes() {
    let mut u = empty_universe(1, 1);
    assert_eq!(u.get_cells().len(), 1);
    u.set_width(13);
    assert_eq!(u.get_cells().len(), 13);
    u.set_height(9);
    assert_eq!(u.get_cells().len(), 117);
    u.tick();
    assert_eq!(u.get_cells().len(), 117);
}
