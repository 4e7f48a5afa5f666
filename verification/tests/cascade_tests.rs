use snake_match::board::Board;
use snake_match::cascade::resolve;
use snake_match::gems::GemType;
use snake_match::player::GridPosition;

fn cell(x: usize, y: usize) -> GridPosition {
    GridPosition { x, y }
}

fn quiet_kind(x: usize, y: usize) -> GemType {
    match (x + 2 * y) % 4 {
        0 => GemType::Two,
        1 => GemType::Three,
        2 => GemType::Four,
        _ => GemType::Five,
    }
}

fn quiet_board(width: usize, height: usize) -> Board {
    let mut board = Board::new(width, height).unwrap();
    for x in 0..width {
        for y in 0..height {
            board.set(&cell(x, y), quiet_kind(x, y));
        }
    }
    board
}

fn waves_of(board: &Board, seeds: Vec<GridPosition>) -> (Vec<Vec<usize>>, usize, bool) {
    let result = resolve(board, &seeds);
    let mut waves = Vec::new();
    for x in 0..board.width() {
        let mut column = Vec::new();
        for y in 0..board.height() {
            column.push(result.waves.get(x, y));
        }
        waves.push(column);
    }
    (waves, result.passes, result.found)
}

#[test]
fn nothing_matched_takes_one_pass() {
    let board = quiet_board(6, 5);
    let (waves, passes, found) = waves_of(&board, vec![cell(2, 2)]);
    assert_eq!(passes, 1);
    assert!(!found);
    assert!(waves.iter().all(|column| column.iter().all(|wave| *wave == 0)));
}

#[test]
fn no_seeds_take_one_pass() {
    let board = Board::new(4, 4).unwrap();
    let (waves, passes, found) = waves_of(&board, vec![]);
    assert_eq!(passes, 1);
    assert!(!found);
    assert!(waves.iter().all(|column| column.iter().all(|wave| *wave == 0)));
}

#[test]
fn a_board_without_cells_takes_one_pass() {
    let board = Board::new(0, 5).unwrap();
    let result = resolve(&board, &vec![]);
    assert_eq!(result.passes, 1);
    assert!(!result.found);
}

#[test]
fn seeding_inside_a_row_of_three_tags_the_row_with_the_first_wave() {
    let mut board = quiet_board(10, 12);
    for x in 3..=5 {
        board.set(&cell(x, 5), GemType::One);
    }
    let (waves, passes, found) = waves_of(&board, vec![cell(4, 5)]);
    assert!(found);
    for x in 0..10 {
        for y in 0..12 {
            let expected = if y == 5 && (3..=5).contains(&x) { 1 } else { 0 };
            assert_eq!(waves[x][y], expected, "cell {x}/{y}");
        }
    }
    // pass 1 matches the row, pass 2 matches it again from its other cells, pass 3 finds nothing new
    assert_eq!(passes, 3);
}

#[test]
fn a_match_sets_off_the_run_that_touches_it() {
    let mut board = quiet_board(8, 8);
    for x in 0..=2 {
        board.set(&cell(x, 0), GemType::One);
    }
    // a column of three that touches the row at a corner
    board.set(&cell(3, 1), GemType::Two);
    board.set(&cell(3, 2), GemType::Two);
    board.set(&cell(3, 3), GemType::Two);
    // and a row far off that nothing touches
    board.set(&cell(5, 7), GemType::Three);
    board.set(&cell(6, 7), GemType::Three);
    board.set(&cell(7, 7), GemType::Three);
    board.set(&cell(4, 7), GemType::Five);
    let (waves, _, found) = waves_of(&board, vec![cell(0, 0)]);
    assert!(found);
    for x in 0..=2 {
        assert_eq!(waves[x][0], 1);
    }
    for y in 1..=3 {
        assert_eq!(waves[3][y], 2);
    }
    for x in 5..=7 {
        assert_eq!(waves[x][7], 0);
    }
    let tagged = waves.iter().map(|column| column.iter().filter(|wave| **wave > 0).count()).sum::<usize>();
    assert_eq!(tagged, 6);
}

#[test]
fn waves_grow_along_a_chain_of_runs() {
    let mut board = quiet_board(12, 6);
    // three rows of three, each touching the next at a corner
    for x in 0..=2 {
        board.set(&cell(x, 0), GemType::One);
    }
    board.set(&cell(3, 0), GemType::Five);
    for x in 3..=5 {
        board.set(&cell(x, 1), GemType::One);
    }
    board.set(&cell(2, 1), GemType::Five);
    board.set(&cell(6, 1), GemType::Five);
    for x in 6..=8 {
        board.set(&cell(x, 2), GemType::One);
    }
    board.set(&cell(5, 2), GemType::Five);
    board.set(&cell(9, 2), GemType::Five);
    let (waves, passes, _) = waves_of(&board, vec![cell(1, 0)]);
    for x in 0..=2 {
        assert_eq!(waves[x][0], 1);
    }
    for x in 3..=5 {
        assert_eq!(waves[x][1], 2);
    }
    for x in 6..=8 {
        assert_eq!(waves[x][2], 3);
    }
    assert!(passes <= 12 * 6);
    assert!(passes >= 4);
}

#[test]
fn resolving_twice_gives_the_same_waves() {
    let mut board = quiet_board(9, 9);
    for x in 2..=6 {
        board.set(&cell(x, 4), GemType::One);
    }
    for y in 1..=7 {
        board.set(&cell(4, y), GemType::One);
    }
    let first = waves_of(&board, vec![cell(4, 4), cell(2, 4)]);
    let second = waves_of(&board, vec![cell(4, 4), cell(2, 4)]);
    assert_eq!(first, second);
    // the order of the seeds and seeds named twice make no difference
    let third = waves_of(&board, vec![cell(2, 4), cell(4, 4), cell(2, 4)]);
    assert_eq!(first, third);
    assert!(first.2);
}

#[test]
fn passes_stay_within_the_number_of_cells() {
    // every cell of one kind: everything matches
    for (width, height) in [(1, 3), (3, 1), (3, 3), (4, 4), (7, 2), (16, 10)] {
        let board = Board::new(width, height).unwrap();
        let result = resolve(&board, &vec![cell(0, 0)]);
        assert!(result.passes >= 1);
        assert!(result.passes <= width * height, "{width} by {height}: {}", result.passes);
        assert!(result.found);
        for x in 0..width {
            for y in 0..height {
                assert!(result.waves.get(x, y) >= 1);
            }
        }
    }
    // boards too small for a run
    for (width, height) in [(1, 1), (2, 2), (1, 2)] {
        let board = Board::new(width, height).unwrap();
        let result = resolve(&board, &vec![cell(0, 0)]);
        assert_eq!(result.passes, 1);
        assert!(!result.found);
    }
}

#[test]
fn waves_on_a_board_of_one_kind() {
    let board = Board::new(5, 1).unwrap();
    let result = resolve(&board, &vec![cell(2, 0)]);
    for x in 0..5 {
        assert_eq!(result.waves.get(x, 0), 1);
    }
    // pass 1 visits the seed and matches the row, pass 2 visits the four other
    // cells of the row, pass 3 has no cell left to visit
    assert_eq!(result.passes, 3);
}

#[test]
fn resolving_leaves_the_board_alone() {
    let mut board = quiet_board(6, 6);
    for x in 1..=4 {
        board.set(&cell(x, 3), GemType::One);
    }
    board.set_entity(&cell(2, 3), Some(8));
    let copy = board.duplicate();
    let _ = resolve(&board, &vec![cell(1, 3)]);
    for x in 0..6 {
        for y in 0..6 {
            assert_eq!(board.get(&cell(x, y)).gem_type, copy.get(&cell(x, y)).gem_type);
            assert_eq!(board.get(&cell(x, y)).entity, copy.get(&cell(x, y)).entity);
        }
    }
}
