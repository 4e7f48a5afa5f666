use bevy_rand::prelude::ChaCha8Rng;
use rand::SeedableRng;
use snake_match::board::{mark_for_explosion, Board, Gem};
use snake_match::gems::GemType;
use snake_match::grid::{Grid, GRID_HEIGHT, GRID_WIDTH};
use snake_match::player::GridPosition;

fn at(x: usize, y: usize) -> GridPosition {
    GridPosition { x, y }
}

/// A kind other than the first, chosen so that no two cells that touch by a side are alike.
fn noise(x: usize, y: usize) -> GemType {
    match (x + 2 * y) % 4 {
        0 => GemType::Two,
        1 => GemType::Three,
        2 => GemType::Four,
        _ => GemType::Five,
    }
}

fn noisy_board(width: usize, height: usize) -> Board {
    let mut board = Board::new(width, height).unwrap();
    for x in 0..width {
        for y in 0..height {
            board.set(&at(x, y), noise(x, y));
        }
    }
    board
}

fn fresh(board: &Board) -> (Grid<bool>, Grid<usize>) {
    (
        Grid::filled(board.width(), board.height(), false).unwrap(),
        Grid::filled(board.width(), board.height(), 0usize).unwrap(),
    )
}

fn matched_cells(board: &Board, seeds: Vec<GridPosition>) -> Vec<(usize, usize)> {
    let (mut checked, mut exploding) = fresh(board);
    let found = board.find_matches(1, &seeds, &mut checked, &mut exploding);
    let mut cells: Vec<(usize, usize)> = found.iter().map(|c| *c).collect();
    cells.sort();
    cells
}

#[test]
fn new_board_holds_first_kind_everywhere() {
    let board = Board::new(3, 2).unwrap();
    assert_eq!(board.width(), 3);
    assert_eq!(board.height(), 2);
    assert_eq!(board.cell_count(), 6);
    for x in 0..3 {
        for y in 0..2 {
            let gem = board.get(&at(x, y));
            assert_eq!(gem.gem_type, GemType::One);
            assert_eq!(gem.entity, None);
        }
    }
}

#[test]
fn new_board_refuses_a_shape_that_is_too_large() {
    assert!(Board::new(usize::MAX, 2).is_none());
    assert!(Board::new(2, usize::MAX).is_none());
    assert!(Grid::filled(usize::MAX, 2, false).is_none());
}

#[test]
fn default_board_has_the_shipped_shape() {
    let board = Board::default();
    assert_eq!(board.width(), GRID_WIDTH);
    assert_eq!(board.height(), GRID_HEIGHT);
    assert_eq!(GRID_WIDTH, 16);
    assert_eq!(GRID_HEIGHT, 10);
    assert_eq!(board.get(&at(15, 9)).gem_type, GemType::One);
}

#[test]
fn default_gem_is_first_kind_without_handle() {
    let gem = Gem::default();
    assert_eq!(gem.gem_type, GemType::One);
    assert_eq!(gem.entity, None);
}

#[test]
fn in_bounds_knows_no_wraparound() {
    let board = Board::new(4, 3).unwrap();
    assert!(board.in_bounds(0, 0));
    assert!(board.in_bounds(3, 2));
    assert!(!board.in_bounds(4, 0));
    assert!(!board.in_bounds(0, 3));
    assert!(!board.in_bounds(usize::MAX, usize::MAX));
}

#[test]
fn set_changes_the_kind_and_keeps_the_handle() {
    let mut board = Board::new(3, 3).unwrap();
    board.set_entity(&at(1, 2), Some(77));
    board.set(&at(1, 2), GemType::Four);
    let gem = board.get(&at(1, 2));
    assert_eq!(gem.gem_type, GemType::Four);
    assert_eq!(gem.entity, Some(77));
    assert_eq!(board.get(&at(2, 1)).gem_type, GemType::One);
    assert_eq!(board.get(&at(2, 1)).entity, None);
}

#[test]
fn put_replaces_kind_and_handle() {
    let mut board = Board::new(2, 2).unwrap();
    board.put(&at(0, 1), Gem { gem_type: GemType::Three, entity: Some(5) });
    assert_eq!(board.get(&at(0, 1)).gem_type, GemType::Three);
    assert_eq!(board.get(&at(0, 1)).entity, Some(5));
    assert_eq!(board.get(&at(1, 0)).gem_type, GemType::One);
}

#[test]
fn swap_exchanges_kind_and_handle() {
    let mut board = Board::new(3, 3).unwrap();
    board.put(&at(0, 0), Gem { gem_type: GemType::Two, entity: Some(1) });
    board.put(&at(2, 1), Gem { gem_type: GemType::Five, entity: Some(2) });
    board.swap(&at(0, 0), &at(2, 1));
    assert_eq!(board.get(&at(0, 0)).gem_type, GemType::Five);
    assert_eq!(board.get(&at(0, 0)).entity, Some(2));
    assert_eq!(board.get(&at(2, 1)).gem_type, GemType::Two);
    assert_eq!(board.get(&at(2, 1)).entity, Some(1));
    assert_eq!(board.get(&at(1, 1)).gem_type, GemType::One);
}

#[test]
fn duplicate_is_independent() {
    let mut board = noisy_board(4, 4);
    board.set_entity(&at(3, 3), Some(9));
    let copy = board.duplicate();
    board.set(&at(3, 3), GemType::One);
    assert_eq!(copy.get(&at(3, 3)).gem_type, noise(3, 3));
    assert_eq!(copy.get(&at(3, 3)).entity, Some(9));
    assert_eq!(copy.get(&at(0, 1)).gem_type, noise(0, 1));
}

#[test]
fn grid_set_and_get() {
    let mut grid = Grid::filled(3, 4, 0usize).unwrap();
    grid.set(2, 3, 11);
    grid.set(0, 0, 5);
    assert_eq!(grid.get(2, 3), 11);
    assert_eq!(grid.get(0, 0), 5);
    assert_eq!(grid.get(1, 2), 0);
    assert_eq!(grid.width(), 3);
    assert_eq!(grid.height(), 4);
    assert_eq!(grid.cell_count(), 12);
    let copy = grid.duplicate();
    grid.set(2, 3, 1);
    assert_eq!(copy.get(2, 3), 11);
}

#[test]
fn assign_gems_goes_column_by_column_from_the_bottom() {
    let mut board = Board::new(2, 3).unwrap();
    board.set_entity(&at(1, 0), Some(4));
    let kinds = vec![
        GemType::One,
        GemType::Two,
        GemType::Three,
        GemType::Four,
        GemType::Five,
        GemType::Two,
    ];
    board.assign_gems(&kinds);
    assert_eq!(board.get(&at(0, 0)).gem_type, GemType::One);
    assert_eq!(board.get(&at(0, 1)).gem_type, GemType::Two);
    assert_eq!(board.get(&at(0, 2)).gem_type, GemType::Three);
    assert_eq!(board.get(&at(1, 0)).gem_type, GemType::Four);
    assert_eq!(board.get(&at(1, 1)).gem_type, GemType::Five);
    assert_eq!(board.get(&at(1, 2)).gem_type, GemType::Two);
    assert_eq!(board.get(&at(1, 0)).entity, Some(4));
}

#[test]
fn randomize_gems_keeps_handles_and_follows_the_generator() {
    let mut first = Board::new(6, 5).unwrap();
    let mut second = Board::new(6, 5).unwrap();
    first.set_entity(&at(2, 2), Some(42));
    let mut rng_a = ChaCha8Rng::seed_from_u64(11);
    let mut rng_b = ChaCha8Rng::seed_from_u64(11);
    first.randomize_gems(&mut rng_a);
    second.randomize_gems(&mut rng_b);
    let mut kinds_seen = [false; 5];
    for x in 0..6 {
        for y in 0..5 {
            assert_eq!(first.get(&at(x, y)).gem_type, second.get(&at(x, y)).gem_type);
            kinds_seen[first.get(&at(x, y)).gem_type.to_index() as usize] = true;
        }
    }
    assert_eq!(first.get(&at(2, 2)).entity, Some(42));
    assert_eq!(first.get(&at(0, 0)).entity, None);
    assert!(kinds_seen.iter().filter(|seen| **seen).count() >= 2);
}

#[test]
fn row_of_three_matches_exactly_its_cells() {
    // 10 by 12, row 5 holds the first kind in columns 3, 4, 5; no other cell does
    let mut board = noisy_board(10, 12);
    for x in 3..=5 {
        board.set(&at(x, 5), GemType::One);
    }
    assert_eq!(matched_cells(&board, vec![at(4, 5)]), vec![(3, 5), (4, 5), (5, 5)]);
    assert!(board.matches_at(&at(4, 5)));
}

#[test]
fn every_seed_inside_an_isolated_run_matches_the_whole_run() {
    let mut board = noisy_board(10, 12);
    for y in 2..=6 {
        board.set(&at(7, y), GemType::One);
    }
    let run = vec![(7, 2), (7, 3), (7, 4), (7, 5), (7, 6)];
    for y in 2..=6 {
        assert_eq!(matched_cells(&board, vec![at(7, y)]), run);
    }
    // a seed beside the run matches nothing
    assert_eq!(matched_cells(&board, vec![at(6, 4)]), vec![]);
    assert_eq!(matched_cells(&board, vec![at(7, 7)]), vec![]);
}

#[test]
fn run_of_two_does_not_match() {
    let mut board = noisy_board(10, 12);
    board.set(&at(3, 5), GemType::One);
    board.set(&at(4, 5), GemType::One);
    assert_eq!(matched_cells(&board, vec![at(3, 5)]), vec![]);
    assert_eq!(matched_cells(&board, vec![at(4, 5)]), vec![]);
    assert_eq!(matched_cells(&board, vec![at(3, 5), at(4, 5)]), vec![]);
    assert!(!board.matches_at(&at(3, 5)));
    assert!(!board.matches_at(&at(4, 5)));
    // the same upwards
    let mut tall = noisy_board(10, 12);
    tall.set(&at(0, 0), GemType::One);
    tall.set(&at(0, 1), GemType::One);
    assert_eq!(matched_cells(&tall, vec![at(0, 0), at(0, 1)]), vec![]);
}

#[test]
fn two_on_either_side_of_a_gap_do_not_match() {
    let mut board = noisy_board(8, 8);
    board.set(&at(1, 1), GemType::One);
    board.set(&at(2, 1), GemType::One);
    board.set(&at(4, 1), GemType::One);
    board.set(&at(5, 1), GemType::One);
    assert_eq!(matched_cells(&board, vec![at(2, 1), at(4, 1)]), vec![]);
}

#[test]
fn pivot_in_the_middle_counts_both_sides() {
    let mut board = noisy_board(8, 8);
    board.set(&at(2, 3), GemType::One);
    board.set(&at(3, 3), GemType::One);
    board.set(&at(4, 3), GemType::One);
    // one like cell on each side of the pivot
    assert_eq!(matched_cells(&board, vec![at(3, 3)]), vec![(2, 3), (3, 3), (4, 3)]);
    // both like cells on one side
    assert_eq!(matched_cells(&board, vec![at(2, 3)]), vec![(2, 3), (3, 3), (4, 3)]);
    assert_eq!(matched_cells(&board, vec![at(4, 3)]), vec![(2, 3), (3, 3), (4, 3)]);
}

#[test]
fn both_axes_match_by_themselves() {
    let mut board = noisy_board(8, 8);
    for x in 2..=4 {
        board.set(&at(x, 2), GemType::One);
    }
    for y in 2..=5 {
        board.set(&at(2, y), GemType::One);
    }
    assert_eq!(
        matched_cells(&board, vec![at(2, 2)]),
        vec![(2, 2), (2, 3), (2, 4), (2, 5), (3, 2), (4, 2)]
    );
    // seeded on the row only the row is matched
    assert_eq!(matched_cells(&board, vec![at(4, 2)]), vec![(2, 2), (3, 2), (4, 2)]);
    // seeded on the column only the column is matched
    assert_eq!(matched_cells(&board, vec![at(2, 5)]), vec![(2, 2), (2, 3), (2, 4), (2, 5)]);
}

#[test]
fn runs_do_not_wrap_round_the_board() {
    let mut board = noisy_board(6, 6);
    board.set(&at(0, 2), GemType::One);
    board.set(&at(1, 2), GemType::One);
    board.set(&at(5, 2), GemType::One);
    assert_eq!(matched_cells(&board, vec![at(0, 2), at(5, 2), at(1, 2)]), vec![]);
    board.set(&at(2, 0), GemType::One);
    board.set(&at(2, 5), GemType::One);
    board.set(&at(2, 4), GemType::One);
    assert_eq!(matched_cells(&board, vec![at(2, 0), at(2, 5)]), vec![]);
}

#[test]
fn runs_at_the_edge_match() {
    let mut board = noisy_board(6, 6);
    for x in 3..=5 {
        board.set(&at(x, 5), GemType::One);
    }
    assert_eq!(matched_cells(&board, vec![at(5, 5)]), vec![(3, 5), (4, 5), (5, 5)]);
    let mut narrow = noisy_board(1, 3);
    for y in 0..3 {
        narrow.set(&at(0, y), GemType::One);
    }
    assert_eq!(matched_cells(&narrow, vec![at(0, 1)]), vec![(0, 0), (0, 1), (0, 2)]);
}

#[test]
fn check_slot_visits_a_pivot_once() {
    let mut board = noisy_board(6, 6);
    for x in 1..=3 {
        board.set(&at(x, 1), GemType::One);
    }
    let (mut checked, mut exploding) = fresh(&board);
    let mut positions = bevy::platform::collections::HashSet::new();
    assert!(board.check_slot(4, &at(2, 1), &mut checked, &mut exploding, &mut positions));
    assert!(checked.get(2, 1));
    assert!(!checked.get(1, 1));
    assert_eq!(positions.len(), 3);
    assert!(positions.contains(&(1, 1)) && positions.contains(&(2, 1)) && positions.contains(&(3, 1)));
    assert_eq!(exploding.get(1, 1), 4);
    assert_eq!(exploding.get(2, 1), 4);
    assert_eq!(exploding.get(3, 1), 4);
    assert_eq!(exploding.get(4, 1), 0);
    // the second visit finds nothing and changes nothing
    let mut again = bevy::platform::collections::HashSet::new();
    assert!(!board.check_slot(5, &at(2, 1), &mut checked, &mut exploding, &mut again));
    assert!(again.is_empty());
    assert_eq!(exploding.get(2, 1), 4);
    // a pivot that does not match is ticked and reports no match
    assert!(!board.check_slot(5, &at(0, 0), &mut checked, &mut exploding, &mut again));
    assert!(checked.get(0, 0));
    assert!(again.is_empty());
}

#[test]
fn a_wave_is_written_once() {
    let mut exploding = Grid::filled(3, 3, 0usize).unwrap();
    let mut positions = bevy::platform::collections::HashSet::new();
    mark_for_explosion(1, 2, 3, &mut positions, &mut exploding);
    mark_for_explosion(1, 2, 7, &mut positions, &mut exploding);
    assert_eq!(exploding.get(1, 2), 3);
    assert_eq!(positions.len(), 1);
    assert!(positions.contains(&(1, 2)));
    assert_eq!(exploding.get(0, 0), 0);
}

#[test]
fn find_matches_skips_seeds_that_were_visited() {
    let mut board = noisy_board(7, 7);
    for x in 1..=3 {
        board.set(&at(x, 1), GemType::One);
    }
    for y in 3..=5 {
        board.set(&at(5, y), GemType::One);
    }
    let (mut checked, mut exploding) = fresh(&board);
    checked.set(2, 1, true);
    let found = board.find_matches(2, &vec![at(2, 1), at(5, 4), at(5, 4)], &mut checked, &mut exploding);
    let mut cells: Vec<(usize, usize)> = found.iter().map(|c| *c).collect();
    cells.sort();
    assert_eq!(cells, vec![(5, 3), (5, 4), (5, 5)]);
    assert_eq!(exploding.get(5, 3), 2);
    assert_eq!(exploding.get(2, 1), 0);
    assert!(checked.get(5, 4));
    assert!(checked.get(2, 1));
    assert!(!checked.get(5, 3));
}
