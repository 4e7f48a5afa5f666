use bevy_rand::prelude::ChaCha8Rng;
use rand::SeedableRng;
use snake_match::board::{Board, Gem};
use snake_match::gems::GemType;
use snake_match::grid::Grid;
use snake_match::player::GridPosition;
use snake_match::phase::{GamePhase, PhaseEvent};
use snake_match::refill::{column_vacancies, random_kinds, refill, refill_column, Fall, Spawn};
use snake_match::round::{
    animate_exploding_gems, explode, exploding_tiles, fill_board, has_match, on_body, Exploding,
};
use snake_match::stats::RoundStats;

fn spot(x: usize, y: usize) -> GridPosition {
    GridPosition { x, y }
}

fn calm(x: usize, y: usize) -> GemType {
    match (x + 2 * y) % 4 {
        0 => GemType::Two,
        1 => GemType::Three,
        2 => GemType::Four,
        _ => GemType::Five,
    }
}

/// A board without runs on which every cell has the handle `100 * x + y`.
fn calm_board(width: usize, height: usize) -> Board {
    let mut board = Board::new(width, height).unwrap();
    for x in 0..width {
        for y in 0..height {
            board.put(&spot(x, y), Gem { gem_type: calm(x, y), entity: Some((100 * x + y) as u64) });
        }
    }
    board
}

fn column_of(board: &Board, x: usize) -> Vec<(GemType, Option<u64>)> {
    (0..board.height()).map(|y| (board.get(&spot(x, y)).gem_type, board.get(&spot(x, y)).entity)).collect()
}

#[test]
fn tiles_fall_by_the_number_of_tiles_that_left_below_them() {
    let mut board = calm_board(3, 6);
    let mut waves = Grid::filled(3, 6, 0usize).unwrap();
    waves.set(1, 1, 1);
    waves.set(1, 2, 1);
    waves.set(1, 4, 2);
    assert_eq!(column_vacancies(&board, &waves, 1), 3);
    assert_eq!(column_vacancies(&board, &waves, 0), 0);
    let done = refill_column(&mut board, &waves, 1, &vec![GemType::One, GemType::Three, GemType::Five]);
    assert_eq!(done.removed, 3);
    assert_eq!(done.skipped, 0);
    assert_eq!(
        column_of(&board, 1),
        vec![
            (calm(1, 0), Some(100)),
            (calm(1, 3), Some(103)),
            (calm(1, 5), Some(105)),
            (GemType::One, None),
            (GemType::Three, None),
            (GemType::Five, None),
        ]
    );
    assert_eq!(
        done.falls,
        vec![
            Fall { entity: 103, from: spot(1, 3), to: spot(1, 1) },
            Fall { entity: 105, from: spot(1, 5), to: spot(1, 2) },
        ]
    );
    assert_eq!(
        done.spawns,
        vec![
            Spawn { position: spot(1, 3), gem_type: GemType::One, rank: 1 },
            Spawn { position: spot(1, 4), gem_type: GemType::Three, rank: 2 },
            Spawn { position: spot(1, 5), gem_type: GemType::Five, rank: 3 },
        ]
    );
    // the other columns are as they were
    for x in [0, 2] {
        for y in 0..6 {
            assert_eq!(board.get(&spot(x, y)).gem_type, calm(x, y));
            assert_eq!(board.get(&spot(x, y)).entity, Some((100 * x + y) as u64));
        }
    }
}

#[test]
fn a_column_without_waves_stays_as_it_is() {
    let mut board = calm_board(2, 4);
    let waves = Grid::filled(2, 4, 0usize).unwrap();
    let before = column_of(&board, 0);
    let done = refill_column(&mut board, &waves, 0, &vec![]);
    assert_eq!(done.removed, 0);
    assert_eq!(done.skipped, 0);
    assert!(done.falls.is_empty());
    assert!(done.spawns.is_empty());
    assert_eq!(column_of(&board, 0), before);
}

#[test]
fn a_column_that_leaves_whole_is_all_new() {
    let mut board = calm_board(1, 3);
    let waves = Grid::filled(1, 3, 1usize).unwrap();
    let done = refill_column(&mut board, &waves, 0, &vec![GemType::Two, GemType::Two, GemType::Four]);
    assert_eq!(done.removed, 3);
    assert_eq!(
        column_of(&board, 0),
        vec![(GemType::Two, None), (GemType::Two, None), (GemType::Four, None)]
    );
}

#[test]
fn a_tile_without_handle_is_not_taken_away() {
    let mut board = calm_board(1, 5);
    board.set_entity(&spot(0, 1), None);
    let mut waves = Grid::filled(1, 5, 0usize).unwrap();
    waves.set(0, 0, 1);
    waves.set(0, 1, 1);
    assert_eq!(column_vacancies(&board, &waves, 0), 1);
    let done = refill_column(&mut board, &waves, 0, &vec![GemType::One]);
    assert_eq!(done.removed, 1);
    assert_eq!(done.skipped, 1);
    // the tile without handle falls like the others, and nobody is told
    assert_eq!(
        done.falls,
        vec![
            Fall { entity: 2, from: spot(0, 2), to: spot(0, 1) },
            Fall { entity: 3, from: spot(0, 3), to: spot(0, 2) },
            Fall { entity: 4, from: spot(0, 4), to: spot(0, 3) },
        ]
    );
    assert_eq!(done.spawns, vec![Spawn { position: spot(0, 4), gem_type: GemType::One, rank: 1 }]);
    assert_eq!(
        column_of(&board, 0),
        vec![
            (calm(0, 1), None),
            (calm(0, 2), Some(2)),
            (calm(0, 3), Some(3)),
            (calm(0, 4), Some(4)),
            (GemType::One, None),
        ]
    );
}

#[test]
fn after_a_refill_the_tiles_that_stayed_lie_at_the_bottom_without_a_gap() {
    let mut board = calm_board(4, 7);
    let mut waves = Grid::filled(4, 7, 0usize).unwrap();
    for (x, y) in [(0, 0), (0, 3), (0, 6), (2, 2), (2, 3), (2, 4), (3, 5)] {
        waves.set(x, y, 1);
    }
    let before = board.duplicate();
    let mut rng = ChaCha8Rng::seed_from_u64(3);
    let done = refill(&mut board, &waves, &mut rng);
    assert_eq!(done.removed, 7);
    assert_eq!(done.skipped, 0);
    assert_eq!(done.columns.iter().map(|column| column.removed).collect::<Vec<_>>(), vec![3, 0, 3, 1]);
    for x in 0..4 {
        let stayed: Vec<Option<u64>> =
            (0..7).filter(|y| waves.get(x, *y) == 0).map(|y| before.get(&spot(x, y)).entity).collect();
        let now = column_of(&board, x);
        for y in 0..7 {
            if y < stayed.len() {
                assert_eq!(now[y].1, stayed[y]);
            } else {
                assert_eq!(now[y].1, None);
            }
        }
        assert_eq!(stayed.len() + done.columns[x].removed, 7);
        // the new tiles are told by rank, with the kinds that the board holds
        assert_eq!(done.columns[x].spawns.len(), done.columns[x].removed);
        for (index, spawn) in done.columns[x].spawns.iter().enumerate() {
            assert_eq!(spawn.rank, index + 1);
            assert_eq!(spawn.position, spot(x, stayed.len() + index));
            assert_eq!(spawn.gem_type, now[stayed.len() + index].0);
        }
        // the falls are told with the handle of the tile, from where it lay to where it lies
        for fall in &done.columns[x].falls {
            assert_eq!(before.get(&fall.from).entity, Some(fall.entity));
            assert_eq!(board.get(&fall.to).entity, Some(fall.entity));
            assert!(fall.to.y < fall.from.y && fall.to.x == x && fall.from.x == x);
        }
        let moved = (0..7)
            .filter(|y| waves.get(x, *y) == 0)
            .enumerate()
            .filter(|(landing, y)| landing != y)
            .count();
        assert_eq!(done.columns[x].falls.len(), moved);
    }
}

#[test]
fn random_kinds_draws_as_many_as_asked() {
    let mut rng = ChaCha8Rng::seed_from_u64(5);
    assert_eq!(random_kinds(&mut rng, 0).len(), 0);
    let kinds = random_kinds(&mut rng, 300);
    assert_eq!(kinds.len(), 300);
    for kind in [GemType::One, GemType::Two, GemType::Three, GemType::Four, GemType::Five] {
        assert!(kinds.contains(&kind));
    }
}

#[test]
fn exploding_tiles_lists_every_tile_with_wave_and_handle_once() {
    let mut board = calm_board(3, 3);
    board.set_entity(&spot(2, 2), None);
    let mut waves = Grid::filled(3, 3, 0usize).unwrap();
    waves.set(0, 1, 1);
    waves.set(1, 0, 2);
    waves.set(2, 2, 1);
    let mut tiles = exploding_tiles(&board, &waves);
    tiles.sort_by_key(|tile| (tile.position.x, tile.position.y));
    assert_eq!(
        tiles,
        vec![
            Exploding { entity: 1, position: spot(0, 1), wave: 1 },
            Exploding { entity: 100, position: spot(1, 0), wave: 2 },
        ]
    );
}

#[test]
fn explode_without_a_match_changes_nothing() {
    let mut board = calm_board(6, 6);
    let before = board.duplicate();
    let mut stats = RoundStats::default();
    stats.record_explosions(4);
    let mut rng = ChaCha8Rng::seed_from_u64(9);
    let result = explode(&mut board, &vec![spot(3, 3)], &mut rng, &mut stats);
    assert!(!result.cascade.found);
    assert_eq!(result.cascade.passes, 1);
    assert_eq!(result.phase_after(GamePhase::Playing), GamePhase::Playing);
    assert!(result.refill.is_none());
    assert!(result.exploding.is_empty());
    assert_eq!(stats.explosions.0, 4);
    assert_eq!(stats.explosions_total.0, 4);
    assert_eq!(stats.biggest_chain_reaction.0, 4);
    for x in 0..6 {
        assert_eq!(column_of(&board, x), column_of(&before, x));
    }
}

#[test]
fn explode_takes_the_matched_tiles_away_and_counts_them() {
    let mut board = calm_board(6, 6);
    for x in 1..=3 {
        board.set(&spot(x, 2), GemType::One);
    }
    let before = board.duplicate();
    let mut stats = RoundStats::default();
    stats.record_explosions(2);
    let mut rng = ChaCha8Rng::seed_from_u64(9);
    let result = explode(&mut board, &vec![spot(2, 2)], &mut rng, &mut stats);
    assert!(result.cascade.found);
    assert_eq!(result.phase_after(GamePhase::Playing), GamePhase::Exploding);
    let done = result.refill.unwrap();
    assert_eq!(done.removed, 3);
    assert_eq!(done.skipped, 0);
    assert_eq!(
        done.columns.iter().map(|column| column.removed).collect::<Vec<_>>(),
        vec![0, 1, 1, 1, 0, 0]
    );
    assert_eq!(
        done.columns[2].falls,
        vec![
            Fall { entity: 203, from: spot(2, 3), to: spot(2, 2) },
            Fall { entity: 204, from: spot(2, 4), to: spot(2, 3) },
            Fall { entity: 205, from: spot(2, 5), to: spot(2, 4) },
        ]
    );
    assert_eq!(done.columns[2].spawns.len(), 1);
    assert_eq!(done.columns[2].spawns[0].position, spot(2, 5));
    assert_eq!(done.columns[2].spawns[0].rank, 1);
    let mut gone: Vec<(u64, usize, usize, usize)> = result
        .exploding
        .iter()
        .map(|tile| (tile.entity, tile.position.x, tile.position.y, tile.wave))
        .collect();
    gone.sort();
    assert_eq!(gone, vec![(102, 1, 2, 1), (202, 2, 2, 1), (302, 3, 2, 1)]);
    assert_eq!(stats.explosions.0, 5);
    assert_eq!(stats.explosions_total.0, 5);
    assert_eq!(stats.biggest_chain_reaction.0, 3);
    for x in 1..=3 {
        let now = column_of(&board, x);
        let was = column_of(&before, x);
        assert_eq!(now[0], was[0]);
        assert_eq!(now[1], was[1]);
        assert_eq!(now[2], was[3]);
        assert_eq!(now[3], was[4]);
        assert_eq!(now[4], was[5]);
        assert_eq!(now[5].1, None);
    }
    for x in [0, 4, 5] {
        assert_eq!(column_of(&board, x), column_of(&before, x));
    }
}

#[test]
fn has_match_tells_whether_a_seed_matches() {
    let mut board = calm_board(6, 6);
    assert!(!has_match(&board, &vec![spot(0, 0), spot(5, 5), spot(2, 3)]));
    assert!(!has_match(&board, &vec![]));
    for y in 0..3 {
        board.set(&spot(4, y), GemType::One);
    }
    assert!(has_match(&board, &vec![spot(0, 0), spot(4, 1)]));
    assert!(!has_match(&board, &vec![spot(0, 0), spot(3, 1)]));
}

#[test]
fn round_start_draws_until_nothing_matches_around_the_head() {
    for seed in 0..40 {
        let mut rng = ChaCha8Rng::seed_from_u64(seed);
        let head = spot(8, 5);
        let board = fill_board(16, 10, &head, &mut rng, 1000).unwrap();
        assert_eq!(board.width(), 16);
        assert_eq!(board.height(), 10);
        let around = head.neighbours(16, 10);
        assert_eq!(around.len(), 8);
        assert!(!has_match(&board, &around));
        for position in &around {
            assert!(!board.matches_at(position));
        }
        assert!(board.get(&spot(0, 0)).entity.is_none());
    }
}

#[test]
fn round_start_on_a_board_where_the_first_draw_matches() {
    // on a board of one row a draw matches around the head whenever three like
    // kinds follow one another there: among many generators some first draws do
    let head = spot(3, 0);
    let mut retried = 0;
    for seed in 0..200 {
        let mut first = Board::new(7, 1).unwrap();
        let mut rng = ChaCha8Rng::seed_from_u64(seed);
        first.randomize_gems(&mut rng);
        let first_matches = has_match(&first, &head.neighbours(7, 1));
        let mut rng = ChaCha8Rng::seed_from_u64(seed);
        let board = fill_board(7, 1, &head, &mut rng, 1000).unwrap();
        assert!(!has_match(&board, &head.neighbours(7, 1)));
        let same = (0..7).all(|x| board.get(&spot(x, 0)).gem_type == first.get(&spot(x, 0)).gem_type);
        assert_eq!(same, !first_matches);
        if first_matches {
            retried += 1;
        }
    }
    assert!(retried > 0);
}

#[test]
fn round_start_on_a_field_too_small_for_a_run_needs_no_second_draw() {
    for (width, height) in [(0, 0), (0, 2), (1, 1), (1, 2), (2, 1), (2, 2)] {
        for seed in 0..20 {
            let mut rng = ChaCha8Rng::seed_from_u64(seed);
            let board = fill_board(width, height, &spot(0, 0), &mut rng, 0).unwrap();
            assert_eq!(board.width(), width);
            assert_eq!(board.height(), height);
            // the board is the first draw
            let mut first = Board::new(width, height).unwrap();
            let mut rng = ChaCha8Rng::seed_from_u64(seed);
            first.randomize_gems(&mut rng);
            for x in 0..width {
                for y in 0..height {
                    assert_eq!(board.get(&spot(x, y)).gem_type, first.get(&spot(x, y)).gem_type);
                }
            }
        }
    }
    // a head that no cell of the field touches cannot be matched around either
    let mut rng = ChaCha8Rng::seed_from_u64(4);
    assert!(fill_board(16, 10, &spot(40, 40), &mut rng, 0).is_some());
}

#[test]
fn round_start_gives_up_within_its_bound() {
    assert!(fill_board(usize::MAX, 2, &spot(0, 0), &mut ChaCha8Rng::seed_from_u64(1), 5).is_none());
    // with no further draw allowed the first draw is taken or nothing
    let head = spot(3, 0);
    for seed in 0..50 {
        let mut first = Board::new(7, 1).unwrap();
        let mut rng = ChaCha8Rng::seed_from_u64(seed);
        first.randomize_gems(&mut rng);
        let mut rng = ChaCha8Rng::seed_from_u64(seed);
        let board = fill_board(7, 1, &head, &mut rng, 0);
        assert_eq!(board.is_some(), !has_match(&first, &head.neighbours(7, 1)));
    }
}

#[test]
fn a_reveal_takes_the_lowest_wave_and_brings_the_others_nearer() {
    let tiles = vec![
        Exploding { entity: 1, position: spot(0, 0), wave: 1 },
        Exploding { entity: 2, position: spot(1, 0), wave: 2 },
        Exploding { entity: 3, position: spot(2, 0), wave: 1 },
        Exploding { entity: 4, position: spot(3, 0), wave: 3 },
    ];
    let body = vec![spot(5, 5), spot(1, 0)];
    let first = animate_exploding_gems(&tiles, &body);
    assert_eq!(
        first.gone,
        vec![
            Exploding { entity: 1, position: spot(0, 0), wave: 1 },
            Exploding { entity: 3, position: spot(2, 0), wave: 1 },
        ]
    );
    assert_eq!(
        first.waiting,
        vec![
            Exploding { entity: 2, position: spot(1, 0), wave: 1 },
            Exploding { entity: 4, position: spot(3, 0), wave: 2 },
        ]
    );
    assert!(!first.snake_hit);
    // the second reveal takes the tile on which the snake lies
    let second = animate_exploding_gems(&first.waiting, &body);
    assert_eq!(second.gone, vec![Exploding { entity: 2, position: spot(1, 0), wave: 1 }]);
    assert_eq!(second.waiting, vec![Exploding { entity: 4, position: spot(3, 0), wave: 1 }]);
    assert!(second.snake_hit);
    let third = animate_exploding_gems(&second.waiting, &body);
    assert_eq!(third.gone.len(), 1);
    assert!(third.waiting.is_empty());
    assert!(!third.snake_hit);
    let last = animate_exploding_gems(&third.waiting, &body);
    assert!(last.gone.is_empty() && last.waiting.is_empty() && !last.snake_hit);
    // what the reveals mean for the phase
    assert_eq!(first.event(), PhaseEvent::WaveRevealed { snake_hit: false, last: false });
    assert_eq!(second.event(), PhaseEvent::WaveRevealed { snake_hit: true, last: false });
    assert_eq!(third.event(), PhaseEvent::WaveRevealed { snake_hit: false, last: true });
    assert_eq!(GamePhase::Exploding.next(first.event()), GamePhase::Exploding);
    assert_eq!(GamePhase::Exploding.next(second.event()), GamePhase::Lost);
    assert_eq!(GamePhase::Exploding.next(third.event()), GamePhase::Waiting);
}

#[test]
fn on_body_finds_a_position() {
    let body = vec![spot(1, 1), spot(2, 1)];
    assert!(on_body(&spot(2, 1), &body));
    assert!(!on_body(&spot(1, 2), &body));
    assert!(!on_body(&spot(1, 1), &vec![]));
}
