use dns_forwarder::game::Grid;
use dns_forwarder::patterns::{load_blinker, load_demo_scene, load_glider, load_pulsar};

#[test]
fn test_wrap_positive() {
    let grid = Grid::new(10, 10);
    assert_eq!(grid.wrap(0, 10), 0);
    assert_eq!(grid.wrap(5, 10), 5);
    assert_eq!(grid.wrap(9, 10), 9);
}

#[test]
fn test_wrap_negative() {
    let grid = Grid::new(10, 10);
    assert_eq!(grid.wrap(-1, 10), 9);
    assert_eq!(grid.wrap(-10, 10), 0);
    assert_eq!(grid.wrap(-11, 10), 9);
}

#[test]
fn test_wrap_overflow() {
    let grid = Grid::new(10, 10);
    assert_eq!(grid.wrap(10, 10), 0);
    assert_eq!(grid.wrap(11, 10), 1);
    assert_eq!(grid.wrap(20, 10), 0);
}

#[test]
fn test_blinker() {
    let mut grid = Grid::new(5, 5);
    // Vertical blinker
    grid.set(2, 1, true);
    grid.set(2, 2, true);
    grid.set(2, 3, true);

    let next = grid.next_generation();

    // Should be horizontal now
    assert!(next.get(1, 2));
    assert!(next.get(2, 2));
    assert!(next.get(3, 2));
    assert!(!next.get(2, 1));
    assert!(!next.get(2, 3));
}

#[test]
fn test_block_still_life() {
    let mut grid = Grid::new(4, 4);
    // 2x2 block
    grid.set(1, 1, true);
    grid.set(2, 1, true);
    grid.set(1, 2, true);
    grid.set(2, 2, true);

    let next = grid.next_generation();

    // Should remain unchanged
    assert!(next.get(1, 1));
    assert!(next.get(2, 1));
    assert!(next.get(1, 2));
    assert!(next.get(2, 2));
}

#[test]
fn neighbours_wrap_around_corners() {
    let mut grid = Grid::new(4, 3);
    grid.set(3, 2, true);
    grid.set(0, 2, true);
    grid.set(3, 0, true);
    assert_eq!(grid.count_alive_neighbors(0, 0), 3);
    assert_eq!(grid.count_alive_neighbors(1, 1), 1);
}

#[test]
fn toggle_and_clear() {
    let mut grid = Grid::new(3, 3);
    grid.toggle(1, 1);
    assert!(grid.get(1, 1));
    grid.toggle(1, 1);
    assert!(!grid.get(1, 1));
    grid.set(0, 0, true);
    grid.clear();
    assert!(!grid.get(0, 0));
}

fn live_cells(grid: &Grid) -> usize {
    let mut n = 0;
    for y in 0..grid.height {
        for x in 0..grid.width {
            if grid.get(x, y) {
                n += 1;
            }
        }
    }
    n
}

#[test]
fn glider_wraps_past_the_edge() {
    let mut grid = Grid::new(5, 5);
    load_glider(&mut grid, 4, 4);
    assert_eq!(live_cells(&grid), 5);
    assert!(grid.get(0, 4));
    assert!(grid.get(0, 1));
    assert!(grid.get(1, 1));
}

#[test]
fn blinker_oscillates() {
    let mut grid = Grid::new(6, 6);
    load_blinker(&mut grid, 1, 2);
    let once = grid.next_generation();
    let twice = once.next_generation();
    for y in 0..6 {
        for x in 0..6 {
            assert_eq!(twice.get(x, y), grid.get(x, y));
        }
    }
    assert!(once.get(2, 1) && once.get(2, 3));
}

#[test]
fn pulsar_and_demo_scene_place_cells() {
    let mut grid = Grid::new(20, 20);
    load_pulsar(&mut grid, 2, 2);
    assert_eq!(live_cells(&grid), 48);
    let mut big = Grid::new(100, 100);
    load_demo_scene(&mut big);
    assert!(big.get(11, 10));
    assert!(live_cells(&big) > 48);
}
