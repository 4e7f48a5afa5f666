use crate::board::Board;
use crate::cascade::{resolve, resolved, Cascade};
use crate::grid::Grid;
use crate::phase::{GamePhase, PhaseEvent};
use crate::player::{all_inside, cells_of, lemma_cells_of_push, neighbours_of, GridPosition};
use crate::refill::{refill, removable, settled, total_stranded, total_vacancies, Refill};
use crate::stats::RoundStats;
use crate::trusted::{cell_set_is_empty, cell_set_positions, set_cells};
use bevy_rand::prelude::ChaCha8Rng;
use vstd::prelude::*;

verus! {

/// A tile that is about to be taken away.
#[derive(PartialEq, Eq, Structural, Clone, Copy, Debug)]
pub struct Exploding {
    /// The handle of the tile.
    pub entity: u64,
    /// The cell in which the tile was matched.
    pub position: GridPosition,
    /// Number of reveals after which the tile is gone: its wave to begin with.
    pub wave: usize,
}

/// Whether any cell is matched from the seeds, each taken as a pivot.
pub open spec fn any_match(board: Board, seeds: Seq<GridPosition>) -> bool {
    exists|c: (usize, usize)| board.matches_of(cells_of(seeds)).contains(c)
}

/// Whether any cell is matched from the seeds, each taken as a pivot.
pub fn has_match(board: &Board, seeds: &Vec<GridPosition>) -> (yes: bool)
    requires
        board.wf(),
        all_inside(seeds@, board.cols(), board.rows()),
    ensures
        yes == any_match(*board, seeds@),
{
    proof {
        board.lemma_cell_count_fits();
    }
    let mut checked = Grid::filled(board.width(), board.height(), false).unwrap();
    let mut exploding = Grid::filled(board.width(), board.height(), 0usize).unwrap();
    let ghost blank = checked;
    let matches = board.find_matches(1, seeds, &mut checked, &mut exploding);
    proof {
        assert(Board::fresh_seeds(seeds@, blank) =~= cells_of(seeds@)) by {
            assert forall|c: (usize, usize)| cells_of(seeds@).contains(c) implies !blank.cell(c) by {
                let i = choose|i: int| 0 <= i < seeds@.len() && #[trigger] seeds@[i].cell() == c;
                assert(seeds@[i].x < board.cols());
            }
        }
        if !any_match(*board, seeds@) {
            assert(set_cells(matches) =~= Set::empty());
        }
    }
    !cell_set_is_empty(&matches)
}

/// No cell is matched from any cell around `head`.
pub open spec fn clear_around(board: Board, head: GridPosition) -> bool {
    forall|c: (usize, usize)|
        !board.matches_of(neighbours_of(set![head.cell()], board.cols(), board.rows())).contains(c)
}

/// Whatever kinds a board of the given shape holds, no cell of it is matched
/// from any cell around `head`: the draws cannot stand in the way of a start.
pub open spec fn never_matches_around(width: usize, height: usize, head: GridPosition) -> bool {
    forall|board: Board|
        board.wf() && board.cols() == width && board.rows() == height ==> #[trigger] clear_around(board, head)
}

/// A field with fewer than three columns and fewer than three rows has no room
/// for a run of three, so that nothing is ever matched on it.
pub proof fn lemma_small_field_never_matches(width: usize, height: usize, head: GridPosition)
    requires
        width < 3,
        height < 3,
    ensures
        never_matches_around(width, height, head),
{
    assert forall|board: Board|
        board.wf() && board.cols() == width && board.rows() == height implies #[trigger] clear_around(
        board,
        head,
    ) by {
        let pivots = neighbours_of(set![head.cell()], board.cols(), board.rows());
        assert forall|c: (usize, usize)| !board.matches_of(pivots).contains(c) by {
            if board.matches_of(pivots).contains(c) {
                let p = choose|p: (usize, usize)|
                    pivots.contains(p) && #[trigger] board.match_set(p.0 as int, p.1 as int).contains(c);
                board.lemma_small_board_matches_nothing(p.0 as int, p.1 as int);
            }
        }
    }
}

/// A board of the given shape for the start of a round, with kinds drawn from
/// `rng`: the kinds are drawn anew, up to `max_rounds` times, until no cell is
/// matched from any cell around `head`. `None` where the shape is too large or
/// no such board came within the bound. A board is owed where the shape is not
/// too large and the draws cannot stand in the way: where no board of the shape
/// matches anything around `head`, as on a field too small for a run of three.
pub fn fill_board(
    width: usize,
    height: usize,
    head: &GridPosition,
    rng: &mut ChaCha8Rng,
    max_rounds: usize,
) -> (r: Option<Board>)
    ensures
        width * height > usize::MAX ==> r.is_none(),
        width * height <= usize::MAX && never_matches_around(width, height, *head) ==> r.is_some(),
        width < 3 && height < 3 ==> r.is_some(),
        r matches Some(board) ==> {
            &&& board.wf()
            &&& board.cols() == width
            &&& board.rows() == height
            &&& clear_around(board, *head)
            &&& forall|x: int, y: int| board.has(x, y) ==> (#[trigger] board.gem_at(x, y)).entity.is_none()
        },
{
    proof {
        if width < 3 && height < 3 {
            lemma_small_field_never_matches(width, height, *head);
            assert(width * height <= usize::MAX) by (nonlinear_arith)
                requires
                    width < 3,
                    height < 3,
            ;
        }
    }
    let mut board = match Board::new(width, height) {
        Some(board) => board,
        None => {
            return None;
        },
    };
    board.randomize_gems(rng);
    let mut heads: Vec<GridPosition> = Vec::new();
    heads.push(*head);
    let around = GridPosition::surroundings(&heads, width, height);
    let surroundings = cell_set_positions(&around);
    proof {
        lemma_cells_of_push(Seq::<GridPosition>::empty(), *head);
        assert(heads@ =~= Seq::<GridPosition>::empty().push(*head));
        assert(cells_of(Seq::<GridPosition>::empty()) =~= Set::empty());
        assert(cells_of(heads@) =~= set![head.cell()]);
        assert forall|i: int| 0 <= i < surroundings@.len() implies (#[trigger] surroundings@[i]).x < width
            && surroundings@[i].y < height by {
            assert(cells_of(surroundings@).contains(surroundings@[i].cell()));
        }
    }
    proof {
        board.lemma_cell_count_fits();
    }
    let mut rounds: usize = 0;
    loop
        invariant
            rounds <= max_rounds,
            width * height <= usize::MAX,
            board.wf(),
            board.cols() == width,
            board.rows() == height,
            all_inside(surroundings@, width as int, height as int),
            cells_of(surroundings@) == neighbours_of(set![head.cell()], width as int, height as int),
            forall|x: int, y: int| board.has(x, y) ==> (#[trigger] board.gem_at(x, y)).entity.is_none(),
            width < 3 && height < 3 ==> never_matches_around(width, height, *head),
        decreases max_rounds - rounds,
    {
        if !has_match(&board, &surroundings) {
            return Some(board);
        }
        proof {
            // the board that was drawn matches around the head: the draws decide
            if never_matches_around(width, height, *head) {
                assert(clear_around(board, *head));
                let c = choose|c: (usize, usize)| board.matches_of(cells_of(surroundings@)).contains(c);
                assert(false);
            }
        }
        if rounds == max_rounds {
            return None;
        }
        rounds += 1;
        board.randomize_gems(rng);
    }
}

/// `e` stands for a tile of the board that leaves it: it names a cell whose
/// tile has a wave and a handle, and holds that handle and that wave.
pub open spec fn leaving(board: Board, waves: Grid<usize>, e: Exploding) -> bool {
    &&& board.has(e.position.x as int, e.position.y as int)
    &&& removable(board, waves, e.position.x as int, e.position.y as int)
    &&& board.gem_at(e.position.x as int, e.position.y as int).entity == Some(e.entity)
    &&& e.wave == waves.at(e.position.x as int, e.position.y as int)
}

/// `tiles` lists the tiles that leave the board, each once.
pub open spec fn lists_leaving(board: Board, waves: Grid<usize>, tiles: Seq<Exploding>) -> bool {
    &&& forall|i: int| 0 <= i < tiles.len() ==> leaving(board, waves, #[trigger] tiles[i])
    &&& forall|i: int, j: int|
        0 <= i < j < tiles.len() ==> (#[trigger] tiles[i]).position != (#[trigger] tiles[j]).position
    &&& forall|x: int, y: int|
        board.has(x, y) && #[trigger] removable(board, waves, x, y) ==> exists|i: int|
            0 <= i < tiles.len() && (#[trigger] tiles[i]).position.x == x && tiles[i].position.y == y
}

/// The tiles that leave the board, with handle, cell and wave.
pub fn exploding_tiles(board: &Board, waves: &Grid<usize>) -> (tiles: Vec<Exploding>)
    requires
        board.wf(),
        waves.wf(),
        waves.cols() == board.cols(),
        waves.rows() == board.rows(),
    ensures
        lists_leaving(*board, *waves, tiles@),
{
    let width = board.width();
    let height = board.height();
    let mut tiles: Vec<Exploding> = Vec::new();
    let mut x: usize = 0;
    while x < width
        invariant
            x <= width,
            width == board.cols(),
            height == board.rows(),
            board.wf(),
            waves.wf(),
            waves.cols() == board.cols(),
            waves.rows() == board.rows(),
            forall|i: int| 0 <= i < tiles@.len() ==> leaving(*board, *waves, #[trigger] tiles@[i]),
            forall|i: int| 0 <= i < tiles@.len() ==> (#[trigger] tiles@[i]).position.x < x,
            forall|i: int, j: int|
                0 <= i < j < tiles@.len() ==> (#[trigger] tiles@[i]).position != (#[trigger] tiles@[j]).position,
            forall|a: int, b: int|
                board.has(a, b) && a < x && #[trigger] removable(*board, *waves, a, b) ==> exists|i: int|
                    0 <= i < tiles@.len() && (#[trigger] tiles@[i]).position.x == a && tiles@[i].position.y == b,
        decreases width - x,
    {
        let mut y: usize = 0;
        while y < height
            invariant
                x < width,
                y <= height,
                width == board.cols(),
                height == board.rows(),
                board.wf(),
                waves.wf(),
                waves.cols() == board.cols(),
                waves.rows() == board.rows(),
                forall|i: int| 0 <= i < tiles@.len() ==> leaving(*board, *waves, #[trigger] tiles@[i]),
                forall|i: int|
                    0 <= i < tiles@.len() ==> (#[trigger] tiles@[i]).position.x < x || (tiles@[i].position.x
                        == x && tiles@[i].position.y < y),
                forall|i: int, j: int|
                    0 <= i < j < tiles@.len() ==> (#[trigger] tiles@[i]).position != (
                    #[trigger] tiles@[j]).position,
                forall|a: int, b: int|
                    board.has(a, b) && (a < x || (a == x && b < y)) && #[trigger] removable(
                        *board,
                        *waves,
                        a,
                        b,
                    ) ==> exists|i: int|
                        0 <= i < tiles@.len() && (#[trigger] tiles@[i]).position.x == a
                            && tiles@[i].position.y == b,
            decreases height - y,
        {
            let position = GridPosition { x, y };
            let gem = board.get(&position);
            let wave = waves.get(x, y);
            if wave > 0 {
                match gem.entity {
                    Some(entity) => {
                        let ghost earlier = tiles@;
                        tiles.push(Exploding { entity, position, wave });
                        proof {
                            assert forall|a: int, b: int|
                                board.has(a, b) && (a < x || (a == x && b < y + 1)) && #[trigger] removable(
                                    *board,
                                    *waves,
                                    a,
                                    b,
                                ) implies exists|i: int|
                                0 <= i < tiles@.len() && (#[trigger] tiles@[i]).position.x == a
                                    && tiles@[i].position.y == b by {
                                if a == x && b == y {
                                    assert(tiles@[earlier.len() as int].position.x == a);
                                } else {
                                    let i = choose|i: int|
                                        0 <= i < earlier.len() && (#[trigger] earlier[i]).position.x == a
                                            && earlier[i].position.y == b;
                                    assert(tiles@[i].position.x == a);
                                }
                            }
                        }
                    },
                    None => {},
                }
            }
            y += 1;
        }
        x += 1;
    }
    tiles
}

/// What a resolution with what follows it hands back.
pub struct Explosion {
    /// The resolution: waves, passes, and whether anything was matched.
    pub cascade: Cascade,
    /// The tiles that leave the board, as they lay before the board settled.
    pub exploding: Vec<Exploding>,
    /// What settling the board did, where anything was matched.
    pub refill: Option<Refill>,
}

/// Resolves the board from the seeds. Where nothing is matched, nothing else
/// happens. Where something is matched, the matched tiles leave, the board
/// settles with new tiles of kinds drawn from `rng`, and the tiles that left
/// are counted.
pub fn explode(board: &mut Board, seeds: &Vec<GridPosition>, rng: &mut ChaCha8Rng, stats: &mut RoundStats) -> (r:
    Explosion)
    requires
        old(board).wf(),
        all_inside(seeds@, old(board).cols(), old(board).rows()),
        old(stats).has_room(old(board).cols() * old(board).rows()),
    ensures
        final(board).wf(),
        resolved(*old(board), seeds@, r.cascade),
        r.refill.is_some() == r.cascade.found,
        !r.cascade.found ==> {
            &&& *final(board) == *old(board)
            &&& *final(stats) == *old(stats)
            &&& r.exploding@.len() == 0
        },
        r.refill matches Some(done) ==> {
            &&& lists_leaving(*old(board), r.cascade.waves, r.exploding@)
            &&& settled(*old(board), r.cascade.waves, *final(board), done.columns@)
            &&& done.removed == total_vacancies(*old(board), r.cascade.waves, old(board).cols() as nat)
            &&& done.skipped == total_stranded(*old(board), r.cascade.waves, old(board).cols() as nat)
            &&& *final(stats) == old(stats).with_explosions(done.removed)
        },
{
    let cascade = resolve(board, seeds);
    if !cascade.found {
        return Explosion { cascade, exploding: Vec::new(), refill: None };
    }
    let exploding = exploding_tiles(board, &cascade.waves);
    let done = refill(board, &cascade.waves, rng);
    stats.record_explosions(done.removed);
    Explosion { cascade, exploding, refill: Some(done) }
}

/// The tiles among the first `upto` of `exploding` that go with the next
/// reveal, in their order.
pub open spec fn due(exploding: Seq<Exploding>, upto: nat) -> Seq<Exploding>
    decreases upto,
{
    if upto == 0 {
        Seq::empty()
    } else if exploding[upto - 1].wave <= 1 {
        due(exploding, (upto - 1) as nat).push(exploding[upto - 1])
    } else {
        due(exploding, (upto - 1) as nat)
    }
}

/// The tiles among the first `upto` of `exploding` that stay after the next
/// reveal, in their order, each one reveal nearer to going.
pub open spec fn pending(exploding: Seq<Exploding>, upto: nat) -> Seq<Exploding>
    decreases upto,
{
    if upto == 0 {
        Seq::empty()
    } else if exploding[upto - 1].wave <= 1 {
        pending(exploding, (upto - 1) as nat)
    } else {
        pending(exploding, (upto - 1) as nat).push(
            Exploding { wave: (exploding[upto - 1].wave - 1) as usize, ..exploding[upto - 1] },
        )
    }
}

/// Whether a tile of `tiles` lies on a cell of `body`.
pub open spec fn hits(tiles: Seq<Exploding>, body: Seq<GridPosition>) -> bool {
    exists|i: int, j: int|
        0 <= i < tiles.len() && 0 <= j < body.len() && (#[trigger] tiles[i]).position == #[trigger] body[j]
}

/// What one reveal does.
pub struct Reveal {
    /// The tiles that are gone with this reveal.
    pub gone: Vec<Exploding>,
    /// The tiles that go with a later reveal.
    pub waiting: Vec<Exploding>,
    /// Whether a tile that went lay on a cell of the snake's body.
    pub snake_hit: bool,
}

impl Reveal {
    /// What the reveal means for the phase of the game.
    pub fn event(&self) -> (event: PhaseEvent)
        ensures
            event == (PhaseEvent::WaveRevealed { snake_hit: self.snake_hit, last: self.waiting@.len() == 0 }),
    {
        PhaseEvent::WaveRevealed { snake_hit: self.snake_hit, last: self.waiting.len() == 0 }
    }
}

impl Explosion {
    /// The phase after the resolution, where `phase` was the phase before it:
    /// a match starts the explosions, and without a match the phase stays.
    pub fn phase_after(&self, phase: GamePhase) -> (next: GamePhase)
        ensures
            next == (if self.cascade.found {
                phase.after(PhaseEvent::MatchFound)
            } else {
                phase
            }),
    {
        if self.cascade.found {
            phase.next(PhaseEvent::MatchFound)
        } else {
            phase
        }
    }
}

/// Whether `position` is among `body`.
pub fn on_body(position: &GridPosition, body: &Vec<GridPosition>) -> (yes: bool)
    ensures
        yes == exists|j: int| 0 <= j < body@.len() && #[trigger] body@[j] == *position,
{
    let mut j: usize = 0;
    while j < body.len()
        invariant
            j <= body@.len(),
            forall|k: int| 0 <= k < j ==> #[trigger] body@[k] != *position,
        decreases body@.len() - j,
    {
        if body[j] == *position {
            return true;
        }
        j += 1;
    }
    false
}

/// One reveal: the tiles of the lowest wave are gone, the others come one
/// reveal nearer to going. A tile that goes from a cell on which the snake's
/// body lies hits the snake.
pub fn animate_exploding_gems(exploding: &Vec<Exploding>, snake_body: &Vec<GridPosition>) -> (r: Reveal)
    ensures
        r.gone@ == due(exploding@, exploding@.len()),
        r.waiting@ == pending(exploding@, exploding@.len()),
        r.snake_hit == hits(r.gone@, snake_body@),
{
    let mut gone: Vec<Exploding> = Vec::new();
    let mut waiting: Vec<Exploding> = Vec::new();
    let mut snake_hit = false;
    let mut i: usize = 0;
    while i < exploding.len()
        invariant
            i <= exploding@.len(),
            gone@ == due(exploding@, i as nat),
            waiting@ == pending(exploding@, i as nat),
            snake_hit == hits(gone@, snake_body@),
        decreases exploding@.len() - i,
    {
        let tile = exploding[i];
        if tile.wave <= 1 {
            let ghost earlier = gone@;
            let on = on_body(&tile.position, snake_body);
            gone.push(tile);
            proof {
                if hits(earlier, snake_body@) {
                    let (a, b) = choose|a: int, b: int|
                        0 <= a < earlier.len() && 0 <= b < snake_body@.len() && (#[trigger] earlier[a]).position
                            == #[trigger] snake_body@[b];
                    assert(gone@[a].position == snake_body@[b]);
                }
                if on {
                    let b = choose|b: int| 0 <= b < snake_body@.len() && #[trigger] snake_body@[b] == tile.position;
                    assert(gone@[earlier.len() as int].position == snake_body@[b]);
                }
                if hits(gone@, snake_body@) && !on {
                    let (a, b) = choose|a: int, b: int|
                        0 <= a < gone@.len() && 0 <= b < snake_body@.len() && (#[trigger] gone@[a]).position
                            == #[trigger] snake_body@[b];
                    assert(a < earlier.len());
                    assert(earlier[a].position == snake_body@[b]);
                }
            }
            snake_hit = snake_hit || on;
        } else {
            waiting.push(Exploding { entity: tile.entity, position: tile.position, wave: tile.wave - 1 });
        }
        i += 1;
    }
    Reveal { gone, waiting, snake_hit }
}

} // verus!
