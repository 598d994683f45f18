use life_grid::{GridError, Timer, Universe, DEFAULT_SIZE};

fn six_by_six(alive: &[(u32, u32)]) -> Universe {
    let mut universe = Universe::new();
    universe.set_width(6);
    universe.set_height(6);
    universe.set_alive_cells(alive);
    universe
}

fn live_set(universe: &Universe) -> Vec<(u32, u32)> {
    let mut live = Vec::new();
    for row in 0..universe.height() {
        for col in 0..universe.width() {
            let index = (row * universe.width() + col) as usize;
            if universe.get_cells().contains(index) {
                live.push((row, col));
            }
        }
    }
    live
}

fn is_all_dead(universe: &Universe) -> bool {
    live_set(universe).is_empty()
}

#[test]
fn test_tick() {
    let mut input_universe = six_by_six(&[(1, 2), (2, 3), (3, 1), (3, 2), (3, 3)]);
    input_universe.tick();
    let expected_universe = six_by_six(&[(2, 1), (2, 3), (3, 2), (3, 3), (4, 2)]);
    assert_eq!(input_universe.get_cells(), expected_universe.get_cells());
}

#[test]
fn glider_moves_one_step() {
    let mut universe = six_by_six(&[(1, 2), (2, 3), (3, 1), (3, 2), (3, 3)]);
    universe.tick();
    assert_eq!(live_set(&universe), vec![(2, 1), (2, 3), (3, 2), (3, 3), (4, 2)]);
}

#[test]
fn new_universe_is_default_size_and_dead() {
    let universe = Universe::new();
    assert_eq!(universe.width(), DEFAULT_SIZE);
    assert_eq!(universe.height(), 128);
    assert_eq!(universe.get_cells().len(), 128 * 128);
    assert!(is_all_dead(&universe));
}

#[test]
fn default_matches_new() {
    let universe = Universe::default();
    assert_eq!(universe.get_cells(), Universe::new().get_cells());
    assert_eq!(universe.width(), 128);
}

#[test]
fn cell_count_after_construction_and_resize() {
    let mut universe = Universe::with_size(7, 3).unwrap();
    assert_eq!(universe.get_cells().len(), 21);
    universe.set_width(4);
    assert_eq!(universe.get_cells().len(), 12);
    universe.set_height(10);
    assert_eq!(universe.get_cells().len(), 40);
    universe.set_height(10);
    assert_eq!(universe.get_cells().len(), 40);
    universe.tick();
    assert_eq!(universe.get_cells().len(), 40);
}

#[test]
fn with_size_rejects_overflowing_count() {
    assert_eq!(Universe::with_size(70000, 70000).err(), Some(GridError::SizeOverflow));
    assert_eq!(Universe::with_size(u32::MAX, 2).err(), Some(GridError::SizeOverflow));
    assert!(Universe::with_size(65536, 65535).is_ok());
}

#[test]
fn with_size_is_all_dead() {
    let universe = Universe::with_size(5, 9).unwrap();
    assert_eq!(universe.width(), 5);
    assert_eq!(universe.height(), 9);
    assert!(is_all_dead(&universe));
}

#[test]
fn dead_grid_stays_dead() {
    for (w, h) in [(1, 1), (1, 5), (3, 2), (8, 8)] {
        let mut universe = Universe::with_size(w, h).unwrap();
        universe.tick();
        assert!(is_all_dead(&universe));
    }
}

#[test]
fn isolated_cell_dies() {
    let mut universe = six_by_six(&[(2, 2)]);
    universe.tick();
    assert!(is_all_dead(&universe));
}

#[test]
fn corner_counts_opposite_corner_as_neighbor() {
    // (0, 0) is dead, with three live neighbours only across the edges.
    let mut universe = Universe::with_size(5, 5).unwrap();
    universe.set_alive_cells(&[(4, 4), (4, 0), (0, 4)]);
    universe.tick();
    assert!(universe.get_cells().contains(0));
}

#[test]
fn corner_survives_through_wraparound() {
    let mut universe = Universe::with_size(5, 5).unwrap();
    universe.set_alive_cells(&[(0, 0), (4, 4), (0, 1)]);
    universe.tick();
    assert!(universe.get_cells().contains(0));
}

#[test]
fn block_is_still_life() {
    let block = [(1, 1), (1, 2), (2, 1), (2, 2)];
    let mut universe = six_by_six(&block);
    universe.tick();
    assert_eq!(live_set(&universe), block.to_vec());
}

#[test]
fn blinker_oscillates() {
    let mut universe = six_by_six(&[(2, 1), (2, 2), (2, 3)]);
    universe.tick();
    assert_eq!(live_set(&universe), vec![(1, 2), (2, 2), (3, 2)]);
    universe.tick();
    assert_eq!(live_set(&universe), vec![(2, 1), (2, 2), (2, 3)]);
}

#[test]
fn overcrowded_cell_dies() {
    let mut universe = six_by_six(&[(2, 2), (1, 1), (1, 2), (1, 3), (2, 1)]);
    universe.tick();
    assert!(!universe.get_cells().contains(2 * 6 + 2));
}

#[test]
fn seeding_twice_is_seeding_once() {
    let coords = [(0, 1), (5, 5), (2, 3), (0, 1)];
    let once = six_by_six(&coords);
    let mut twice = six_by_six(&coords);
    twice.set_alive_cells(&coords);
    assert_eq!(once.get_cells(), twice.get_cells());
    assert_eq!(live_set(&once), vec![(0, 1), (2, 3), (5, 5)]);
}

#[test]
fn seeding_keeps_other_cells() {
    let mut universe = six_by_six(&[(1, 1)]);
    universe.set_alive_cells(&[(4, 4)]);
    assert_eq!(live_set(&universe), vec![(1, 1), (4, 4)]);
}

#[test]
fn seeding_wraps_coordinates() {
    let universe = six_by_six(&[(7, 8)]);
    assert_eq!(live_set(&universe), vec![(1, 2)]);
}

#[test]
fn toggle_twice_restores() {
    let mut universe = six_by_six(&[(1, 2), (3, 3)]);
    let before = live_set(&universe);
    universe.toggle_cell(3, 3);
    assert_eq!(live_set(&universe), vec![(1, 2)]);
    universe.toggle_cell(3, 3);
    assert_eq!(live_set(&universe), before);
    universe.toggle_cell(0, 0);
    universe.toggle_cell(0, 0);
    assert_eq!(live_set(&universe), before);
}

#[test]
fn toggle_wraps_coordinates() {
    let mut universe = six_by_six(&[]);
    universe.toggle_cell(6, 13);
    assert_eq!(live_set(&universe), vec![(0, 1)]);
}

#[test]
fn clear_then_tick_stays_dead() {
    let mut universe = six_by_six(&[(1, 2), (2, 3), (3, 1), (3, 2), (3, 3)]);
    universe.clear();
    assert!(is_all_dead(&universe));
    universe.tick();
    assert!(is_all_dead(&universe));
    assert_eq!(universe.get_cells().len(), 36);
}

#[test]
fn reset_takes_the_given_draws() {
    let mut universe = Universe::with_size(3, 2).unwrap();
    universe.reset(&[true, false, false, true, true, false]);
    assert_eq!(live_set(&universe), vec![(0, 0), (1, 0), (1, 1)]);
    universe.reset(&[false; 6]);
    assert!(is_all_dead(&universe));
}

#[test]
fn same_width_keeps_cells() {
    let mut universe = six_by_six(&[(1, 1)]);
    universe.set_width(6);
    universe.set_height(6);
    assert_eq!(live_set(&universe), vec![(1, 1)]);
}

#[test]
fn growing_keeps_cells_by_index() {
    let mut universe = six_by_six(&[(1, 1)]);
    universe.set_width(12);
    assert_eq!(universe.get_cells().len(), 72);
    assert!(universe.get_cells().contains(7));
    assert_eq!(live_set(&universe), vec![(0, 7)]);
}

#[test]
fn shrinking_clears_cells() {
    let mut universe = six_by_six(&[(0, 0), (1, 1)]);
    universe.set_height(2);
    assert_eq!(universe.get_cells().len(), 12);
    assert!(is_all_dead(&universe));
}

#[test]
fn tick_after_growth_uses_new_size() {
    let mut universe = Universe::with_size(3, 3).unwrap();
    universe.set_width(5);
    universe.set_height(5);
    universe.set_alive_cells(&[(2, 1), (2, 2), (2, 3)]);
    universe.tick();
    assert_eq!(live_set(&universe), vec![(1, 2), (2, 2), (3, 2)]);
    assert_eq!(universe.get_cells().len(), 25);
}

#[test]
fn packed_cells_follow_bit_order() {
    let mut universe = Universe::with_size(10, 10).unwrap();
    universe.set_alive_cells(&[(0, 0), (0, 3), (7, 0)]);
    let words = universe.cells();
    let bits = usize::BITS as usize;
    assert_eq!(words.len(), (100 + bits - 1) / bits);
    for i in 0..100usize {
        let bit = (words[i / bits] >> (i % bits)) & 1 == 1;
        assert_eq!(bit, i == 0 || i == 3 || i == 70);
    }
}

#[test]
fn timer_keeps_its_label() {
    let timer = Timer::new("Universe::tick");
    assert_eq!(timer.name(), "Universe::tick");
}

#[test]
fn lone_cell_on_small_torus_leaves_all_dead() {
    for (w, h) in [(2, 2), (2, 5), (3, 2), (4, 4)] {
        for row in 0..h {
            for col in 0..w {
                let mut universe = Universe::with_size(w, h).unwrap();
                universe.toggle_cell(row, col);
                universe.tick();
                assert!(is_all_dead(&universe));
            }
        }
    }
}

#[test]
fn grown_then_shrunk_buffers_stay_clear() {
    let mut universe = Universe::with_size(3, 3).unwrap();
    universe.set_alive_cells(&[(2, 2)]);
    universe.tick();
    universe.set_width(7);
    assert_eq!(universe.get_cells().len(), 21);
    assert!(is_all_dead(&universe));
    universe.set_width(2);
    universe.set_width(5);
    assert!(is_all_dead(&universe));
}
