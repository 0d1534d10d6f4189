use life_sim::config::Config;
use life_sim::rule::{count_neighbours, is_alive, next_cell_state};

fn cfg(w: usize, h: usize) -> Config {
    Config::new(w, h, 255, 1).unwrap()
}

#[test]
fn is_alive_outside_grid_is_false() {
    let c = cfg(3, 3);
    let grid = vec![255u8; 9];
    assert!(is_alive(&c, &grid, 0, 0));
    assert!(is_alive(&c, &grid, 2, 2));
    assert!(!is_alive(&c, &grid, -1, 0));
    assert!(!is_alive(&c, &grid, 0, -1));
    assert!(!is_alive(&c, &grid, 3, 0));
    assert!(!is_alive(&c, &grid, 0, 3));
    assert!(!is_alive(&c, &grid, isize::MIN, isize::MAX));
}

#[test]
fn is_alive_uses_threshold() {
    let c = cfg(2, 1);
    let grid = vec![254u8, 255];
    assert!(!is_alive(&c, &grid, 0, 0));
    assert!(is_alive(&c, &grid, 1, 0));
}

#[test]
fn neighbours_of_full_grid() {
    let c = cfg(3, 3);
    let grid = vec![255u8; 9];
    // corners see three, edges five, the centre eight
    assert_eq!(count_neighbours(&c, 0, &grid), 3);
    assert_eq!(count_neighbours(&c, 2, &grid), 3);
    assert_eq!(count_neighbours(&c, 6, &grid), 3);
    assert_eq!(count_neighbours(&c, 8, &grid), 3);
    assert_eq!(count_neighbours(&c, 1, &grid), 5);
    assert_eq!(count_neighbours(&c, 3, &grid), 5);
    assert_eq!(count_neighbours(&c, 4, &grid), 8);
}

#[test]
fn neighbours_do_not_wrap_around_rows() {
    let c = cfg(3, 2);
    // (2, 0) is alive; (0, 1) must not see it as a neighbour
    let grid = vec![0u8, 0, 255, 0, 0, 0];
    assert_eq!(count_neighbours(&c, 3, &grid), 0);
    assert_eq!(count_neighbours(&c, 4, &grid), 1);
    assert_eq!(count_neighbours(&c, 2, &grid), 0);
}

#[test]
fn single_cell_grid_has_no_neighbours() {
    let c = cfg(1, 1);
    assert_eq!(count_neighbours(&c, 0, &[255u8]), 0);
}

#[test]
fn live_cell_with_two_or_three_neighbours_stays_alive() {
    let c = cfg(3, 3);
    let two = vec![255u8, 0, 255, 0, 255, 0, 0, 0, 0];
    assert_eq!(next_cell_state(&c, &two, 4), 255);
    let three = vec![255u8, 0, 255, 0, 255, 0, 0, 255, 0];
    assert_eq!(next_cell_state(&c, &three, 4), 255);
}

#[test]
fn dead_cell_with_three_neighbours_is_born() {
    let c = cfg(3, 3);
    let grid = vec![255u8, 0, 255, 0, 0, 0, 0, 255, 0];
    assert_eq!(next_cell_state(&c, &grid, 4), 255);
    let decaying = vec![255u8, 0, 255, 0, 100, 0, 0, 255, 0];
    assert_eq!(next_cell_state(&c, &decaying, 4), 255);
}

#[test]
fn decaying_cell_with_two_neighbours_keeps_decaying() {
    let c = cfg(3, 3);
    let grid = vec![255u8, 0, 255, 0, 100, 0, 0, 0, 0];
    assert_eq!(next_cell_state(&c, &grid, 4), 99);
}

#[test]
fn live_cell_with_too_few_or_too_many_neighbours_decays() {
    let c = cfg(3, 3);
    let lonely = vec![0u8, 0, 0, 0, 255, 0, 0, 0, 0];
    assert_eq!(next_cell_state(&c, &lonely, 4), 254);
    let one = vec![255u8, 0, 0, 0, 255, 0, 0, 0, 0];
    assert_eq!(next_cell_state(&c, &one, 4), 254);
    let crowded = vec![255u8, 255, 255, 255, 255, 0, 0, 0, 0];
    assert_eq!(next_cell_state(&c, &crowded, 4), 254);
}

#[test]
fn decay_is_floored_at_dormant() {
    let c = Config::new(3, 3, 250, 50).unwrap();
    let grid = vec![0u8, 0, 0, 0, 30, 0, 0, 0, 0];
    assert_eq!(next_cell_state(&c, &grid, 4), 0);
    let exact = vec![0u8, 0, 0, 0, 50, 0, 0, 0, 0];
    assert_eq!(next_cell_state(&c, &exact, 4), 0);
    let above = vec![0u8, 0, 0, 0, 120, 0, 0, 0, 0];
    assert_eq!(next_cell_state(&c, &above, 4), 70);
    let dormant = vec![0u8; 9];
    assert_eq!(next_cell_state(&c, &dormant, 4), 0);
}

#[test]
fn live_cell_reaches_dormant_after_live_over_step_generations() {
    let c = Config::new(3, 3, 250, 50).unwrap();
    let mut grid = vec![0u8, 0, 0, 0, 250, 0, 0, 0, 0];
    for k in 1..=5u8 {
        let v = next_cell_state(&c, &grid, 4);
        assert_eq!(v, 250 - 50 * k);
        grid[4] = v;
    }
    assert_eq!(grid[4], 0);
}
