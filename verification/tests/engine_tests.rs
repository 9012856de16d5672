use life_engine::GridEngine;
use life_engine::Snapshot;

fn grid_with(rows: usize, cols: usize, live: &[(usize, usize)]) -> GridEngine {
    let mut engine = GridEngine::create(rows, cols);
    for &(r, c) in live {
        engine.toggle(r, c);
    }
    engine
}

fn live_cells(snap: &Snapshot) -> Vec<(usize, usize)> {
    let mut live = Vec::new();
    for r in 0..snap.row_count {
        for c in 0..snap.col_count {
            if snap.cells[r * snap.col_count + c] {
                live.push((r, c));
            }
        }
    }
    live
}

#[test]
fn create_is_all_dead() {
    let engine = GridEngine::create(4, 9);
    let snap = engine.snapshot();
    assert_eq!(snap.row_count, 4);
    assert_eq!(snap.col_count, 9);
    assert_eq!(snap.cells.len(), 36);
    assert!(snap.cells.iter().all(|&cell| !cell));
}

#[test]
fn dimension_invariant_holds_through_every_operation() {
    let mut engine = GridEngine::create(7, 5);
    assert_eq!(engine.snapshot().cells.len(), 7 * 5);
    engine.toggle(3, 4);
    assert_eq!(engine.snapshot().cells.len(), 7 * 5);
    engine.randomize();
    assert_eq!(engine.snapshot().cells.len(), 7 * 5);
    engine.step();
    assert_eq!(engine.snapshot().cells.len(), 7 * 5);
    engine.reset();
    assert_eq!(engine.snapshot().cells.len(), 7 * 5);
    engine.resize(2, 11);
    let snap = engine.snapshot();
    assert_eq!(snap.cells.len(), snap.row_count * snap.col_count);
    assert_eq!(snap.cells.len(), 2 * 11);
}

#[test]
fn toggle_flips_exactly_one_cell() {
    let mut engine = GridEngine::create(3, 4);
    engine.toggle(1, 2);
    let snap = engine.snapshot();
    assert_eq!(live_cells(&snap), vec![(1, 2)]);
    assert_eq!(engine.get_at_index(1, 2), Some(true));
    assert_eq!(engine.get_at_index(1, 3), Some(false));
    assert_eq!(engine.get_at_index(3, 0), None);
    assert_eq!(engine.get_at_index(0, 4), None);
}

#[test]
fn toggle_twice_restores_the_grid() {
    let mut engine = grid_with(6, 6, &[(0, 0), (2, 3), (5, 5)]);
    let before = engine.snapshot();
    engine.toggle(2, 3);
    engine.toggle(2, 3);
    let after = engine.snapshot();
    assert_eq!(before.cells, after.cells);
    engine.toggle(4, 4);
    engine.toggle(4, 4);
    assert_eq!(before.cells, engine.snapshot().cells);
}

#[test]
fn step_is_deterministic() {
    let pattern = [(0, 1), (1, 1), (1, 2), (3, 0), (4, 4), (2, 2)];
    let mut first = grid_with(5, 5, &pattern);
    let mut second = grid_with(5, 5, &pattern);
    first.step();
    second.step();
    assert_eq!(first.snapshot().cells, second.snapshot().cells);
    first.step();
    second.step();
    assert_eq!(first.snapshot().cells, second.snapshot().cells);
}

#[test]
fn block_is_a_still_life() {
    let block = [(2, 2), (2, 3), (3, 2), (3, 3)];
    let mut engine = grid_with(6, 6, &block);
    let before = engine.snapshot();
    engine.step();
    assert_eq!(engine.snapshot().cells, before.cells);
    engine.step();
    assert_eq!(engine.snapshot().cells, before.cells);
}

#[test]
fn blinker_oscillates_with_period_two() {
    let horizontal = [(2, 1), (2, 2), (2, 3)];
    let mut engine = grid_with(5, 5, &horizontal);
    let start = engine.snapshot();
    engine.step();
    let mid = engine.snapshot();
    assert_eq!(live_cells(&mid), vec![(1, 2), (2, 2), (3, 2)]);
    engine.step();
    let back = engine.snapshot();
    assert_eq!(back.cells, start.cells);
    assert_eq!(live_cells(&back), vec![(2, 1), (2, 2), (2, 3)]);
}

#[test]
fn lone_corner_cell_dies() {
    let mut engine = grid_with(4, 7, &[(0, 0)]);
    engine.step();
    assert!(engine.snapshot().cells.iter().all(|&cell| !cell));
}

#[test]
fn lone_corner_cell_dies_on_one_by_one_grid() {
    let mut engine = grid_with(1, 1, &[(0, 0)]);
    engine.step();
    assert_eq!(engine.snapshot().cells, vec![false]);
}

#[test]
fn reset_clears_cells_and_keeps_dimensions() {
    let mut engine = grid_with(6, 8, &[(1, 1), (2, 5)]);
    engine.randomize();
    engine.step();
    engine.reset();
    let snap = engine.snapshot();
    assert_eq!(snap.row_count, 6);
    assert_eq!(snap.col_count, 8);
    assert!(snap.cells.iter().all(|&cell| !cell));
}

#[test]
fn resize_clears_cells_and_sets_new_dimensions() {
    let mut engine = grid_with(6, 8, &[(0, 0), (5, 7)]);
    engine.randomize();
    engine.step();
    engine.resize(3, 10);
    let snap = engine.snapshot();
    assert_eq!(snap.row_count, 3);
    assert_eq!(snap.col_count, 10);
    assert_eq!(snap.cells.len(), 30);
    assert!(snap.cells.iter().all(|&cell| !cell));
}

#[test]
fn underpopulation_and_overpopulation() {
    // A live cell with one neighbor dies; a live cell with four dies.
    let mut engine = grid_with(5, 5, &[(2, 2), (2, 3)]);
    engine.step();
    assert!(engine.snapshot().cells.iter().all(|&cell| !cell));

    let crowded = [(2, 2), (1, 1), (1, 3), (3, 1), (3, 3)];
    let mut engine = grid_with(5, 5, &crowded);
    engine.step();
    assert_eq!(engine.get_at_index(2, 2), Some(false));
}

#[test]
fn reproduction_needs_exactly_three_neighbors() {
    // The dead cell at (2, 2) has three live neighbors and comes alive.
    let mut engine = grid_with(5, 5, &[(1, 1), (1, 3), (3, 2)]);
    engine.step();
    assert_eq!(engine.get_at_index(2, 2), Some(true));
}

#[test]
fn fill_from_bits_sets_exactly_the_given_bits() {
    let mut engine = grid_with(3, 4, &[(0, 0), (1, 1), (2, 3)]);
    let bits: Vec<bool> = (0..12).map(|i| i % 3 == 0).collect();
    engine.fill_from_bits(&bits);
    let snap = engine.snapshot();
    assert_eq!(snap.cells, bits);
    assert_eq!(snap.row_count, 3);
    assert_eq!(snap.col_count, 4);
}

#[test]
fn fill_from_bits_ignores_prior_contents() {
    // The same injected bit sequence yields the same grid, whatever the
    // grids held before: an overwrite, not a perturbation.
    let mut first = GridEngine::create(5, 5);
    let mut second = grid_with(5, 5, &[(0, 0), (2, 2), (4, 4), (1, 3)]);
    let bits: Vec<bool> = (0..25).map(|i| (i * 7) % 4 == 1).collect();
    first.fill_from_bits(&bits);
    second.fill_from_bits(&bits);
    assert_eq!(first.snapshot().cells, bits);
    assert_eq!(second.snapshot().cells, bits);
}

#[test]
fn randomize_fills_about_half_the_grid() {
    let mut engine = GridEngine::create(100, 100);
    engine.randomize();
    let first = engine.snapshot();
    let live = first.cells.iter().filter(|&&cell| cell).count();
    let fraction = live as f64 / first.cells.len() as f64;
    assert!(fraction > 0.35 && fraction < 0.65, "live fraction {fraction} far from 0.5");
    engine.randomize();
    let second = engine.snapshot();
    assert_ne!(first.cells, second.cells);
}
