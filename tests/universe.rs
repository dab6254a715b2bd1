use game_of_life::universe::{Universe, DEFAULT_HEIGHT, DEFAULT_WIDTH};

fn default_size() -> usize {
    (DEFAULT_WIDTH * DEFAULT_HEIGHT) as usize
}

/// A universe of the given size with every cell dead.
fn dead_universe(width: u32, height: u32) -> Universe {
    let mut u = Universe::new(&vec![false; default_size()]);
    u.set_width(width);
    u.set_height(height);
    u
}

fn alive(u: &Universe, row: u32, col: u32) -> bool {
    u.get_cells().contains(u.get_index(row, col))
}

fn live_cells(u: &Universe) -> Vec<(u32, u32)> {
    let mut out = Vec::new();
    for row in 0..u.height() {
        for col in 0..u.width() {
            if alive(u, row, col) {
                out.push((row, col));
            }
        }
    }
    out
}

fn pattern(n: usize) -> Vec<bool> {
    (0..n).map(|i| i % 3 == 0 || i % 7 == 2).collect()
}

#[test]
fn new_takes_the_given_cells() {
    let seed = pattern(default_size());
    let u = Universe::new(&seed);
    assert_eq!(u.width(), 256);
    assert_eq!(u.height(), 128);
    assert_eq!(u.get_cells().len(), default_size());
    for (i, &b) in seed.iter().enumerate() {
        assert_eq!(u.get_cells().contains(i), b);
    }
}

#[test]
fn get_index_is_row_major() {
    let u = dead_universe(7, 5);
    assert_eq!(u.get_index(0, 0), 0);
    assert_eq!(u.get_index(0, 6), 6);
    assert_eq!(u.get_index(1, 0), 7);
    assert_eq!(u.get_index(4, 6), 34);
}

#[test]
fn corner_neighbors_wrap_on_three_by_three() {
    let mut u = dead_universe(3, 3);
    u.set_cells(&[(2, 2), (2, 0), (2, 1), (0, 2), (1, 2)]);
    assert_eq!(u.live_neighbor_count(0, 0), 5);
    u.set_cells(&[(0, 1), (1, 0), (1, 1)]);
    assert_eq!(u.live_neighbor_count(0, 0), 8);
    u.set_cells(&[(0, 0)]);
    assert_eq!(u.live_neighbor_count(0, 0), 8);
}

#[test]
fn far_edge_counts_on_a_larger_grid() {
    let mut u = dead_universe(6, 4);
    u.set_cells(&[(3, 5)]);
    assert_eq!(u.live_neighbor_count(0, 0), 1);
    assert_eq!(u.live_neighbor_count(3, 0), 1);
    assert_eq!(u.live_neighbor_count(0, 5), 1);
    assert_eq!(u.live_neighbor_count(1, 1), 0);
}

#[test]
fn single_row_grid_counts_wrapped_offsets() {
    let mut u = dead_universe(3, 1);
    u.set_cells(&[(0, 0), (0, 1), (0, 2)]);
    assert_eq!(u.live_neighbor_count(0, 0), 7);
}

#[test]
fn live_cell_with_two_or_three_neighbors_survives() {
    let mut u = dead_universe(6, 6);
    u.set_cells(&[(1, 1), (1, 2), (2, 1), (2, 2)]);
    u.tick();
    assert_eq!(live_cells(&u), vec![(1, 1), (1, 2), (2, 1), (2, 2)]);
}

#[test]
fn lonely_and_crowded_cells_die() {
    let mut u = dead_universe(7, 7);
    u.set_cells(&[(0, 0)]);
    u.set_cells(&[(3, 3), (2, 3), (4, 3), (3, 2), (3, 4)]);
    assert_eq!(u.live_neighbor_count(3, 3), 4);
    u.tick();
    assert!(!alive(&u, 0, 0));
    assert!(!alive(&u, 3, 3));
}

#[test]
fn dead_cell_with_three_neighbors_is_born() {
    let mut u = dead_universe(6, 6);
    u.set_cells(&[(1, 1), (1, 2), (2, 1)]);
    assert!(!alive(&u, 2, 2));
    u.tick();
    assert!(alive(&u, 2, 2));
    assert_eq!(live_cells(&u), vec![(1, 1), (1, 2), (2, 1), (2, 2)]);
}

#[test]
fn blinker_oscillates_with_period_two() {
    let mut u = dead_universe(5, 5);
    u.set_cells(&[(1, 0), (1, 1), (1, 2)]);
    u.tick();
    assert_eq!(live_cells(&u), vec![(0, 1), (1, 1), (2, 1)]);
    u.tick();
    assert_eq!(live_cells(&u), vec![(1, 0), (1, 1), (1, 2)]);
}

#[test]
fn empty_grid_stays_empty() {
    let mut u = dead_universe(8, 5);
    for _ in 0..10 {
        u.tick();
        assert!(live_cells(&u).is_empty());
    }
    assert_eq!(u.width(), 8);
    assert_eq!(u.height(), 5);
}

#[test]
fn set_width_clears_every_cell() {
    let mut u = Universe::new(&pattern(default_size()));
    u.set_width(10);
    assert_eq!(u.width(), 10);
    assert_eq!(u.height(), 128);
    assert_eq!(u.get_cells().len(), 10 * 128);
    assert_eq!(u.get_cells().count_ones(..), 0);
}

#[test]
fn set_height_clears_every_cell() {
    let mut u = Universe::new(&pattern(default_size()));
    u.set_height(3);
    assert_eq!(u.width(), 256);
    assert_eq!(u.height(), 3);
    assert_eq!(u.get_cells().len(), 256 * 3);
    assert_eq!(u.get_cells().count_ones(..), 0);
}

#[test]
fn toggle_twice_restores_the_grid() {
    let mut u = Universe::new(&pattern(default_size()));
    let before = u.get_cells().clone();
    u.toggle(5);
    assert_ne!(u.get_cells().contains(5), before.contains(5));
    assert_eq!(u.get_cells().count_ones(..), before.count_ones(..) + 1);
    u.toggle(5);
    assert_eq!(u.get_cells(), &before);
}

#[test]
fn toggle_cell_twice_restores_the_grid() {
    let mut u = Universe::new(&pattern(default_size()));
    let before = u.get_cells().clone();
    u.toggle_cell(2, 3);
    let idx = 2 * 256 + 3;
    assert_ne!(u.get_cells().contains(idx), before.contains(idx));
    assert!(!before.contains(idx));
    assert!(u.get_cells().contains(idx));
    u.toggle_cell(2, 3);
    assert_eq!(u.get_cells(), &before);
}

#[test]
fn set_cells_adds_without_clearing() {
    let mut u = dead_universe(4, 4);
    u.set_cells(&[(0, 3)]);
    u.set_cells(&[(1, 1), (2, 2)]);
    assert_eq!(live_cells(&u), vec![(0, 3), (1, 1), (2, 2)]);
    u.set_cells(&[(1, 1)]);
    assert_eq!(live_cells(&u), vec![(0, 3), (1, 1), (2, 2)]);
}

#[test]
fn cells_exposes_packed_blocks() {
    let mut u = dead_universe(8, 5);
    u.set_cells(&[(0, 0), (0, 3), (4, 1)]);
    let blocks = u.cells();
    assert_eq!(blocks.len(), 2);
    assert_eq!(blocks[0], 0b1001);
    assert_eq!(blocks[1], 1 << (33 - 32));
}
