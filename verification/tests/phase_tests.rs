use snake_match::phase::{AppSystems, GamePhase, PhaseEvent};

const PHASES: [GamePhase; 5] =
    [GamePhase::Playing, GamePhase::Exploding, GamePhase::Waiting, GamePhase::Paused, GamePhase::Lost];

fn events() -> Vec<PhaseEvent> {
    vec![
        PhaseEvent::MatchFound,
        PhaseEvent::WaveRevealed { snake_hit: false, last: false },
        PhaseEvent::WaveRevealed { snake_hit: false, last: true },
        PhaseEvent::WaveRevealed { snake_hit: true, last: false },
        PhaseEvent::WaveRevealed { snake_hit: true, last: true },
        PhaseEvent::TilesFalling,
        PhaseEvent::TilesSettled,
        PhaseEvent::PauseToggled,
        PhaseEvent::SelfCollision,
        PhaseEvent::Restart,
    ]
}

#[test]
fn a_round_starts_in_play() {
    assert_eq!(GamePhase::default(), GamePhase::Playing);
}

#[test]
fn a_match_starts_the_explosions() {
    assert_eq!(GamePhase::Playing.next(PhaseEvent::MatchFound), GamePhase::Exploding);
    for phase in [GamePhase::Exploding, GamePhase::Waiting, GamePhase::Paused, GamePhase::Lost] {
        assert_eq!(phase.next(PhaseEvent::MatchFound), phase);
    }
}

#[test]
fn revealed_waves_lead_to_waiting_or_to_the_loss() {
    let reveal = |snake_hit, last| PhaseEvent::WaveRevealed { snake_hit, last };
    assert_eq!(GamePhase::Exploding.next(reveal(false, false)), GamePhase::Exploding);
    assert_eq!(GamePhase::Exploding.next(reveal(false, true)), GamePhase::Waiting);
    assert_eq!(GamePhase::Exploding.next(reveal(true, false)), GamePhase::Lost);
    assert_eq!(GamePhase::Exploding.next(reveal(true, true)), GamePhase::Lost);
    assert_eq!(GamePhase::Playing.next(reveal(true, true)), GamePhase::Playing);
    assert_eq!(GamePhase::Waiting.next(reveal(true, true)), GamePhase::Waiting);
}

#[test]
fn steps_of_a_tick_have_their_order() {
    let steps = [
        AppSystems::Input,
        AppSystems::Move,
        AppSystems::Spawn,
        AppSystems::CheckCollision,
        AppSystems::Match,
        AppSystems::Manipulate,
    ];
    for (place, step) in steps.iter().enumerate() {
        assert_eq!(step.order() as usize, place);
    }
}

#[test]
fn falling_tiles_make_the_game_wait() {
    assert_eq!(GamePhase::Playing.next(PhaseEvent::TilesFalling), GamePhase::Waiting);
    assert_eq!(GamePhase::Waiting.next(PhaseEvent::TilesSettled), GamePhase::Playing);
    assert_eq!(GamePhase::Exploding.next(PhaseEvent::TilesSettled), GamePhase::Exploding);
    assert_eq!(GamePhase::Exploding.next(PhaseEvent::TilesFalling), GamePhase::Exploding);
    assert_eq!(GamePhase::Playing.next(PhaseEvent::TilesSettled), GamePhase::Playing);
}

#[test]
fn pause_is_entered_from_play_and_left_for_play() {
    assert_eq!(GamePhase::Playing.next(PhaseEvent::PauseToggled), GamePhase::Paused);
    assert_eq!(GamePhase::Paused.next(PhaseEvent::PauseToggled), GamePhase::Playing);
    for phase in [GamePhase::Exploding, GamePhase::Waiting, GamePhase::Lost] {
        assert_eq!(phase.next(PhaseEvent::PauseToggled), phase);
    }
    for event in events() {
        let next = GamePhase::Paused.next(event);
        assert!(next == GamePhase::Paused || next == GamePhase::Playing);
    }
}

#[test]
fn running_into_itself_loses_the_round() {
    for phase in [GamePhase::Playing, GamePhase::Exploding, GamePhase::Waiting, GamePhase::Lost] {
        assert_eq!(phase.next(PhaseEvent::SelfCollision), GamePhase::Lost);
    }
}

#[test]
fn a_lost_round_ends_with_a_restart_only() {
    for event in events() {
        let expected = if event == PhaseEvent::Restart { GamePhase::Playing } else { GamePhase::Lost };
        assert_eq!(GamePhase::Lost.next(event), expected);
    }
    for phase in PHASES {
        assert_eq!(phase.next(PhaseEvent::Restart), GamePhase::Playing);
    }
}

#[test]
fn steps_of_a_tick_run_by_phase() {
    let steps = [
        AppSystems::Input,
        AppSystems::Move,
        AppSystems::Spawn,
        AppSystems::CheckCollision,
        AppSystems::Match,
        AppSystems::Manipulate,
    ];
    for step in steps {
        assert!(GamePhase::Playing.allows(step));
        assert_eq!(GamePhase::Exploding.allows(step), step == AppSystems::Match);
        assert!(!GamePhase::Waiting.allows(step));
        assert!(!GamePhase::Paused.allows(step));
        assert!(!GamePhase::Lost.allows(step));
    }
}
