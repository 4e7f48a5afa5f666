use vstd::prelude::*;

verus! {

/// What the game is doing. Exactly one phase is active.
#[derive(PartialEq, Eq, Structural, Clone, Copy, Debug, Hash)]
pub enum GamePhase {
    /// The snake moves and matches are looked for.
    Playing,
    /// Matched tiles are taken away, wave by wave.
    Exploding,
    /// Tiles are falling into place.
    Waiting,
    /// The player has halted the game.
    Paused,
    /// The round is lost.
    Lost,
}

/// What can move the game from one phase to another.
#[derive(PartialEq, Eq, Structural, Clone, Copy, Debug)]
pub enum PhaseEvent {
    /// A resolution seeded from the snake matched at least one tile.
    MatchFound,
    /// The tiles of a wave are gone; `snake_hit` tells whether one of them lay
    /// on a cell of the snake's body, `last` whether no wave is left.
    WaveRevealed { snake_hit: bool, last: bool },
    /// Some tile has begun to fall.
    TilesFalling,
    /// No tile is falling any more.
    TilesSettled,
    /// The player asked to halt or to go on.
    PauseToggled,
    /// The snake ran into itself.
    SelfCollision,
    /// The player asked for a new round.
    Restart,
}

/// The steps of one tick, in the order in which they run.
#[derive(PartialEq, Eq, Structural, Clone, Copy, Debug, Hash)]
pub enum AppSystems {
    Input,
    Move,
    Spawn,
    CheckCollision,
    Match,
    Manipulate,
}

impl AppSystems {
    /// Place of the step in a tick, counted from zero.
    pub open spec fn place(self) -> int {
        match self {
            AppSystems::Input => 0,
            AppSystems::Move => 1,
            AppSystems::Spawn => 2,
            AppSystems::CheckCollision => 3,
            AppSystems::Match => 4,
            AppSystems::Manipulate => 5,
        }
    }

    /// Place of the step in a tick, counted from zero: a step with a lower
    /// place runs to its end before one with a higher place begins.
    pub fn order(self) -> (place: u8)
        ensures
            place == self.place(),
    {
        match self {
            AppSystems::Input => 0,
            AppSystems::Move => 1,
            AppSystems::Spawn => 2,
            AppSystems::CheckCollision => 3,
            AppSystems::Match => 4,
            AppSystems::Manipulate => 5,
        }
    }
}

impl Default for GamePhase {
    fn default() -> (phase: GamePhase)
        ensures
            phase == GamePhase::Playing,
    {
        GamePhase::Playing
    }
}

impl GamePhase {
    /// The phase that follows `self` on `event`.
    pub open spec fn after(self, event: PhaseEvent) -> GamePhase {
        match (self, event) {
            (_, PhaseEvent::Restart) => GamePhase::Playing,
            (GamePhase::Lost, _) => GamePhase::Lost,
            (GamePhase::Paused, PhaseEvent::PauseToggled) => GamePhase::Playing,
            (GamePhase::Paused, _) => GamePhase::Paused,
            (_, PhaseEvent::SelfCollision) => GamePhase::Lost,
            (GamePhase::Playing, PhaseEvent::MatchFound) => GamePhase::Exploding,
            (GamePhase::Playing, PhaseEvent::TilesFalling) => GamePhase::Waiting,
            (GamePhase::Playing, PhaseEvent::PauseToggled) => GamePhase::Paused,
            (GamePhase::Exploding, PhaseEvent::WaveRevealed { snake_hit, last }) => if snake_hit {
                GamePhase::Lost
            } else if last {
                GamePhase::Waiting
            } else {
                GamePhase::Exploding
            },
            (GamePhase::Waiting, PhaseEvent::TilesSettled) => GamePhase::Playing,
            (phase, _) => phase,
        }
    }

    /// Whether the step `step` of a tick runs in the phase `self`. A step that
    /// does not run is left out of the tick altogether.
    pub open spec fn runs(self, step: AppSystems) -> bool {
        match self {
            GamePhase::Playing => true,
            GamePhase::Exploding => step == AppSystems::Match,
            _ => false,
        }
    }

    /// The phase that follows `self` on `event`.
    pub fn next(self, event: PhaseEvent) -> (phase: GamePhase)
        ensures
            phase == self.after(event),
    {
        match event {
            PhaseEvent::Restart => GamePhase::Playing,
            PhaseEvent::SelfCollision => match self {
                GamePhase::Paused => GamePhase::Paused,
                _ => GamePhase::Lost,
            },
            PhaseEvent::PauseToggled => match self {
                GamePhase::Playing => GamePhase::Paused,
                GamePhase::Paused => GamePhase::Playing,
                phase => phase,
            },
            PhaseEvent::MatchFound => match self {
                GamePhase::Playing => GamePhase::Exploding,
                phase => phase,
            },
            PhaseEvent::TilesFalling => match self {
                GamePhase::Playing => GamePhase::Waiting,
                phase => phase,
            },
            PhaseEvent::TilesSettled => match self {
                GamePhase::Waiting => GamePhase::Playing,
                phase => phase,
            },
            PhaseEvent::WaveRevealed { snake_hit, last } => match self {
                GamePhase::Exploding => if snake_hit {
                    GamePhase::Lost
                } else if last {
                    GamePhase::Waiting
                } else {
                    GamePhase::Exploding
                },
                phase => phase,
            },
        }
    }

    /// Whether the step `step` of a tick runs in the phase `self`.
    pub fn allows(self, step: AppSystems) -> (yes: bool)
        ensures
            yes == self.runs(step),
    {
        match self {
            GamePhase::Playing => true,
            GamePhase::Exploding => match step {
                AppSystems::Match => true,
                _ => false,
            },
            _ => false,
        }
    }
}

/// A lost round stays lost until a restart.
pub proof fn lemma_lost_is_terminal(event: PhaseEvent)
    ensures
        GamePhase::Lost.after(event) == (if event == PhaseEvent::Restart {
            GamePhase::Playing
        } else {
            GamePhase::Lost
        }),
{
}

/// A halted game goes on as it was halted, or returns to play, and to no other
/// phase.
pub proof fn lemma_pause_returns_to_play(event: PhaseEvent)
    ensures
        GamePhase::Paused.after(event) == GamePhase::Paused || GamePhase::Paused.after(event)
            == GamePhase::Playing,
        GamePhase::Playing.after(PhaseEvent::PauseToggled).after(PhaseEvent::PauseToggled)
            == GamePhase::Playing,
{
}

/// The game is halted from play only.
pub proof fn lemma_pause_from_play_only(phase: GamePhase, event: PhaseEvent)
    requires
        phase.after(event) == GamePhase::Paused,
    ensures
        phase == GamePhase::Paused || (phase == GamePhase::Playing && event == PhaseEvent::PauseToggled),
{
}

} // verus!
