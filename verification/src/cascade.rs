use crate::board::Board;
use crate::grid::{
    cell_at_slot, count_true, lemma_cell_at_slot, lemma_count_at_most_len, lemma_count_clear,
    lemma_count_monotone, slot, Grid,
};
use crate::player::{adjacent, all_inside, cells_of, neighbours_of, GridPosition};
use crate::trusted::{cell_set_is_empty, cell_set_positions, set_cells};
use vstd::prelude::*;

verus! {

/// Where a resolution stands after some number of passes.
pub struct Stage {
    /// The seeds of the next pass.
    pub seeds: Set<(usize, usize)>,
    /// The cells that have been visited as pivots.
    pub checked: Set<(usize, usize)>,
    /// The cells matched in the last pass.
    pub found: Set<(usize, usize)>,
}

/// The resolution of `board` from the seeds `start` after `pass` passes. A pass
/// visits the seeds that no earlier pass has visited; its matches are the cells
/// matched from them; the seeds of the next pass are the cells that touch a
/// match.
pub open spec fn stage(board: Board, start: Set<(usize, usize)>, pass: nat) -> Stage
    decreases pass,
{
    if pass == 0 {
        Stage { seeds: start, checked: Set::empty(), found: Set::empty() }
    } else {
        let prior = stage(board, start, (pass - 1) as nat);
        let found = board.matches_of(prior.seeds.difference(prior.checked));
        Stage {
            seeds: neighbours_of(found, board.cols(), board.rows()),
            checked: prior.checked.union(prior.seeds),
            found,
        }
    }
}

/// The wave of cell `c` after `pass` passes: the first pass that matched it,
/// and 0 while none has.
pub open spec fn wave_of(board: Board, start: Set<(usize, usize)>, pass: nat, c: (usize, usize)) -> nat
    decreases pass,
{
    if pass == 0 {
        0
    } else {
        let earlier = wave_of(board, start, (pass - 1) as nat, c);
        if earlier == 0 && stage(board, start, pass).found.contains(c) {
            pass
        } else {
            earlier
        }
    }
}

/// Pass `pass` matched nothing.
pub open spec fn quiet(board: Board, start: Set<(usize, usize)>, pass: nat) -> bool {
    forall|c: (usize, usize)| !stage(board, start, pass).found.contains(c)
}

/// Pass `pass` is the one that ends the resolution: the first that matched
/// nothing.
pub open spec fn is_last_pass(board: Board, start: Set<(usize, usize)>, pass: nat) -> bool {
    &&& pass >= 1
    &&& quiet(board, start, pass)
    &&& forall|j: nat| 1 <= j < pass ==> !#[trigger] quiet(board, start, j)
}

/// What a resolution hands back.
pub struct Cascade {
    /// The wave of every cell; 0 where the cell was not matched.
    pub waves: Grid<usize>,
    /// Number of passes made, the last one included.
    pub passes: usize,
    /// Whether any cell was matched.
    pub found: bool,
}

/// `r` is the resolution of `board` from `seeds`: it ended with the first pass
/// that matched nothing, every cell has the wave of the first pass that matched
/// it, and on a board with at least one cell no more passes were made than the
/// board has cells.
pub open spec fn resolved(board: Board, seeds: Seq<GridPosition>, r: Cascade) -> bool {
    &&& r.waves.wf()
    &&& r.waves.cols() == board.cols()
    &&& r.waves.rows() == board.rows()
    &&& is_last_pass(board, cells_of(seeds), r.passes as nat)
    &&& forall|c: (usize, usize)|
        r.waves.holds(c) ==> #[trigger] r.waves.cell(c) == wave_of(board, cells_of(seeds), r.passes as nat, c)
    &&& r.found == (r.passes > 1)
    &&& board.cols() * board.rows() >= 1 ==> r.passes <= board.cols() * board.rows()
}

/// On two boards that hold the same kinds a resolution from the same seeds
/// stands the same after every pass, and gives every cell the same wave.
pub proof fn lemma_same_kinds_same_stage(a: Board, b: Board, start: Set<(usize, usize)>, pass: nat)
    requires
        a.same_kinds(&b),
    ensures
        stage(a, start, pass) == stage(b, start, pass),
        quiet(a, start, pass) == quiet(b, start, pass),
        forall|c: (usize, usize)| wave_of(a, start, pass, c) == wave_of(b, start, pass, c),
    decreases pass,
{
    if pass > 0 {
        let earlier = (pass - 1) as nat;
        lemma_same_kinds_same_stage(a, b, start, earlier);
        let prior = stage(a, start, earlier);
        a.lemma_same_kinds_matches_of(&b, prior.seeds.difference(prior.checked));
        assert forall|c: (usize, usize)| wave_of(a, start, pass, c) == wave_of(b, start, pass, c) by {
            assert(wave_of(a, start, earlier, c) == wave_of(b, start, earlier, c));
        }
    }
}

/// Resolving two boards that hold the same kinds from two lists of seeds that
/// name the same cells gives one result: the same number of passes and the
/// same wave in every cell.
pub proof fn lemma_resolution_is_determined(
    board_a: Board,
    board_b: Board,
    seeds_a: Seq<GridPosition>,
    seeds_b: Seq<GridPosition>,
    a: Cascade,
    b: Cascade,
)
    requires
        board_a.same_kinds(&board_b),
        cells_of(seeds_a) == cells_of(seeds_b),
        resolved(board_a, seeds_a, a),
        resolved(board_b, seeds_b, b),
    ensures
        a.passes == b.passes,
        a.found == b.found,
        a.waves.same_as(&b.waves),
{
    let start = cells_of(seeds_a);
    lemma_same_kinds_same_stage(board_a, board_b, start, a.passes as nat);
    lemma_same_kinds_same_stage(board_a, board_b, start, b.passes as nat);
    if a.passes < b.passes {
        assert(!quiet(board_b, start, a.passes as nat));
    }
    if b.passes < a.passes {
        assert(!quiet(board_a, start, b.passes as nat));
    }
    assert forall|x: int, y: int| a.waves.has(x, y) implies a.waves.at(x, y) == b.waves.at(x, y) by {
        a.waves.lemma_shape_fits();
        let c = (x as usize, y as usize);
        assert(a.waves.holds(c) && b.waves.holds(c));
        assert(a.waves.cell(c) == b.waves.cell(c));
    }
}

/// For every cell of the board, in the order of its storage, whether `cells`
/// holds it.
pub open spec fn marks(board: Board, cells: Set<(usize, usize)>) -> Seq<bool> {
    Seq::new(
        (board.cols() * board.rows()) as nat,
        |i: int| cells.contains(cell_at_slot(board.rows(), i)),
    )
}

/// A set that holds all of another and a cell of the board besides marks more
/// cells of the board.
proof fn lemma_marks_grow(board: Board, fewer: Set<(usize, usize)>, more: Set<(usize, usize)>, p: (usize, usize))
    requires
        fewer.subset_of(more),
        board.holds(p),
        more.contains(p),
        !fewer.contains(p),
    ensures
        count_true(marks(board, fewer)) < count_true(marks(board, more)),
{
    board.lemma_shape_fits();
    lemma_cell_at_slot(board.cols(), board.rows(), p);
    let i = slot(board.rows(), p.0 as int, p.1 as int);
    lemma_count_clear(marks(board, more), i);
    lemma_count_monotone(marks(board, fewer), marks(board, more).update(i, false));
}

/// A set that holds three different cells of the board marks three cells or
/// more.
proof fn lemma_marks_three(board: Board, cells: Set<(usize, usize)>, t: ((usize, usize), (usize, usize), (usize, usize)))
    requires
        board.holds(t.0) && cells.contains(t.0),
        board.holds(t.1) && cells.contains(t.1),
        board.holds(t.2) && cells.contains(t.2),
        t.0 != t.1 && t.1 != t.2 && t.0 != t.2,
    ensures
        count_true(marks(board, cells)) >= 3,
{
    board.lemma_shape_fits();
    lemma_cell_at_slot(board.cols(), board.rows(), t.0);
    lemma_cell_at_slot(board.cols(), board.rows(), t.1);
    lemma_cell_at_slot(board.cols(), board.rows(), t.2);
    let i = slot(board.rows(), t.0.0 as int, t.0.1 as int);
    let j = slot(board.rows(), t.1.0 as int, t.1.1 as int);
    let k = slot(board.rows(), t.2.0 as int, t.2.1 as int);
    let all = marks(board, cells);
    lemma_count_clear(all, i);
    lemma_count_clear(all.update(i, false), j);
    lemma_count_clear(all.update(i, false).update(j, false), k);
}

/// A pass that matched something visited a cell of the board that no earlier
/// pass had visited, and among the seeds of the next pass are three different
/// cells of the board.
proof fn lemma_busy_pass(board: Board, start: Set<(usize, usize)>, pass: nat) -> (r: (
    (usize, usize),
    ((usize, usize), (usize, usize), (usize, usize)),
))
    requires
        pass >= 1,
        !quiet(board, start, pass),
    ensures
        board.holds(r.0),
        stage(board, start, pass).checked.contains(r.0),
        !stage(board, start, (pass - 1) as nat).checked.contains(r.0),
        board.holds(r.1.0) && stage(board, start, pass).seeds.contains(r.1.0),
        board.holds(r.1.1) && stage(board, start, pass).seeds.contains(r.1.1),
        board.holds(r.1.2) && stage(board, start, pass).seeds.contains(r.1.2),
        r.1.0 != r.1.1 && r.1.1 != r.1.2 && r.1.0 != r.1.2,
{
    let prior = stage(board, start, (pass - 1) as nat);
    let now = stage(board, start, pass);
    let q = choose|q: (usize, usize)| now.found.contains(q);
    let p = choose|p: (usize, usize)|
        prior.seeds.difference(prior.checked).contains(p) && #[trigger] board.match_set(
            p.0 as int,
            p.1 as int,
        ).contains(q);
    board.lemma_match_inside(p.0 as int, p.1 as int, q);
    let t = board.lemma_match_has_three(p.0 as int, p.1 as int);
    board.lemma_match_inside(p.0 as int, p.1 as int, t.0);
    board.lemma_match_inside(p.0 as int, p.1 as int, t.1);
    board.lemma_match_inside(p.0 as int, p.1 as int, t.2);
    assert(now.found.contains(t.0) && now.found.contains(t.1) && now.found.contains(t.2));
    assert(adjacent(t.1, t.0));
    (p, t)
}

/// After `pass` passes that all matched something, and at least two of them,
/// more cells of the board have been visited than passes were made.
proof fn lemma_visited_outgrow_passes(board: Board, start: Set<(usize, usize)>, pass: nat)
    requires
        pass >= 2,
        forall|j: nat| 1 <= j <= pass ==> !#[trigger] quiet(board, start, j),
    ensures
        count_true(marks(board, stage(board, start, pass).checked)) >= pass + 1,
    decreases pass,
{
    let earlier = (pass - 1) as nat;
    let prior = stage(board, start, earlier);
    let now = stage(board, start, pass);
    if pass == 2 {
        assert(!quiet(board, start, 1));
        let r = lemma_busy_pass(board, start, 1);
        lemma_marks_three(board, now.checked, r.1);
    } else {
        lemma_visited_outgrow_passes(board, start, earlier);
        assert(!quiet(board, start, pass));
        let r = lemma_busy_pass(board, start, pass);
        lemma_marks_grow(board, prior.checked, now.checked, r.0);
    }
}

/// A resolution of a board with at least one cell ends within as many passes
/// as the board has cells.
pub proof fn lemma_passes_within_cells(board: Board, start: Set<(usize, usize)>, pass: nat)
    requires
        is_last_pass(board, start, pass),
        board.cols() * board.rows() >= 1,
    ensures
        pass <= board.cols() * board.rows(),
{
    let now = stage(board, start, pass);
    lemma_count_at_most_len(marks(board, now.checked));
    if pass == 2 {
        assert(!quiet(board, start, 1));
        let r = lemma_busy_pass(board, start, 1);
        lemma_marks_three(board, now.checked, r.1);
    } else if pass >= 3 {
        let earlier = (pass - 1) as nat;
        lemma_visited_outgrow_passes(board, start, earlier);
        lemma_count_monotone(marks(board, stage(board, start, earlier).checked), marks(board, now.checked));
    }
}

fn copy_positions(positions: &Vec<GridPosition>) -> (r: Vec<GridPosition>)
    ensures
        r@ == positions@,
{
    let mut r: Vec<GridPosition> = Vec::new();
    let mut i: usize = 0;
    while i < positions.len()
        invariant
            i <= positions.len(),
            r@ == positions@.take(i as int),
        decreases positions.len() - i,
    {
        r.push(positions[i]);
        assert(positions@.take(i + 1) =~= positions@.take(i as int).push(positions@[i as int]));
        i += 1;
    }
    assert(positions@.take(i as int) =~= positions@);
    r
}

/// The seeds that lie on the board and have not been visited are the seeds of
/// the stage that have not been visited.
proof fn lemma_fresh_seeds(board: Board, active: Seq<GridPosition>, checked: Grid<bool>, prior: Stage)
    requires
        checked.cols() == board.cols(),
        checked.rows() == board.rows(),
        all_inside(active, board.cols(), board.rows()),
        cells_of(active) == prior.seeds,
        forall|c: (usize, usize)| checked.holds(c) ==> #[trigger] checked.cell(c) == prior.checked.contains(c),
    ensures
        Board::fresh_seeds(active, checked) == prior.seeds.difference(prior.checked),
{
    assert forall|c: (usize, usize)| cells_of(active).contains(c) implies checked.holds(c) by {
        let i = choose|i: int| 0 <= i < active.len() && #[trigger] active[i].cell() == c;
        assert(active[i].x < board.cols());
    }
    assert(Board::fresh_seeds(active, checked) =~= prior.seeds.difference(prior.checked));
}

/// While every pass has matched something, the board has more cells than
/// passes were made.
proof fn lemma_room_for_a_pass(board: Board, start: Set<(usize, usize)>, pass: nat)
    requires
        pass >= 1,
        forall|j: nat| 1 <= j <= pass ==> !#[trigger] quiet(board, start, j),
    ensures
        pass + 1 <= board.cols() * board.rows(),
{
    let now = stage(board, start, pass);
    board.lemma_shape_fits();
    assert(board.cols() * board.rows() >= 0) by (nonlinear_arith)
        requires
            board.cols() >= 0,
            board.rows() >= 0,
    ;
    if pass == 1 {
        assert(!quiet(board, start, 1));
        let r = lemma_busy_pass(board, start, 1);
        lemma_marks_three(board, now.seeds, r.1);
        lemma_count_at_most_len(marks(board, now.seeds));
    } else {
        lemma_visited_outgrow_passes(board, start, pass);
        lemma_count_at_most_len(marks(board, now.checked));
    }
}

/// Resolves the board from the seeds: pass after pass, until a pass matches
/// nothing. The board is not changed. On a board with at least one cell the
/// number of passes is at most the number of cells.
pub fn resolve(board: &Board, seeds: &Vec<GridPosition>) -> (r: Cascade)
    requires
        board.wf(),
        all_inside(seeds@, board.cols(), board.rows()),
    ensures
        resolved(*board, seeds@, r),
        r.passes >= 1,
        board.cols() * board.rows() >= 1 ==> r.passes <= board.cols() * board.rows(),
{
    let width = board.width();
    let height = board.height();
    proof {
        board.lemma_cell_count_fits();
    }
    let mut checked = Grid::filled(width, height, false).unwrap();
    let mut exploding = Grid::filled(width, height, 0usize).unwrap();
    let mut active = copy_positions(seeds);
    let mut pass: usize = 0;
    let mut found = false;
    let mut done = false;
    let ghost start = cells_of(seeds@);
    let ghost cells = board.cols() * board.rows();
    while !done
        invariant
            board.wf(),
            width == board.cols(),
            height == board.rows(),
            cells == board.cols() * board.rows(),
            0 <= cells <= usize::MAX,
            start == cells_of(seeds@),
            checked.wf(),
            checked.cols() == board.cols(),
            checked.rows() == board.rows(),
            exploding.wf(),
            exploding.cols() == board.cols(),
            exploding.rows() == board.rows(),
            forall|c: (usize, usize)|
                checked.holds(c) ==> #[trigger] checked.cell(c) == stage(*board, start, pass as nat).checked.contains(c),
            forall|c: (usize, usize)|
                exploding.holds(c) ==> #[trigger] exploding.cell(c) == wave_of(*board, start, pass as nat, c),
            forall|j: nat| 1 <= j < pass ==> !#[trigger] quiet(*board, start, j),
            done ==> pass >= 1 && quiet(*board, start, pass as nat),
            done ==> (cells >= 1 ==> pass <= cells),
            !done ==> (pass >= 1 ==> !quiet(*board, start, pass as nat)),
            !done ==> (pass >= 1 ==> pass + 1 <= cells),
            !done ==> cells_of(active@) == stage(*board, start, pass as nat).seeds,
            !done ==> all_inside(active@, board.cols(), board.rows()),
            found == (if done {
                pass > 1
            } else {
                pass >= 1
            }),
        decreases
            (if done {
                0
            } else {
                cells + 2 - pass
            }),
    {
        let ghost prior = stage(*board, start, pass as nat);
        let ghost prior_checked = checked;
        let ghost prior_exploding = exploding;
        pass += 1;
        let ghost now = stage(*board, start, pass as nat);
        let new_positions = board.find_matches(pass, &active, &mut checked, &mut exploding);
        proof {
            lemma_fresh_seeds(*board, active@, prior_checked, prior);
            assert(set_cells(new_positions) == now.found);
            assert forall|c: (usize, usize)| checked.holds(c) implies #[trigger] checked.cell(c)
                == now.checked.contains(c) by {
                assert(prior_checked.holds(c));
                assert(checked.cell(c) == (prior_checked.cell(c) || cells_of(active@).contains(c)));
            }
            assert forall|c: (usize, usize)| exploding.holds(c) implies #[trigger] exploding.cell(c)
                == wave_of(*board, start, pass as nat, c) by {
                assert(prior_exploding.holds(c));
                assert(prior_exploding.cell(c) == wave_of(*board, start, (pass - 1) as nat, c));
            }
        }
        if cell_set_is_empty(&new_positions) {
            done = true;
        } else {
            found = true;
            let hits = cell_set_positions(&new_positions);
            let neighbours = GridPosition::surroundings(&hits, width, height);
            active = cell_set_positions(&neighbours);
            proof {
                assert(!quiet(*board, start, pass as nat)) by {
                    if quiet(*board, start, pass as nat) {
                        assert(now.found =~= Set::empty());
                    }
                }
                lemma_room_for_a_pass(*board, start, pass as nat);
                assert forall|i: int| 0 <= i < active@.len() implies (#[trigger] active@[i]).x < board.cols()
                    && active@[i].y < board.rows() by {
                    assert(cells_of(active@).contains(active@[i].cell()));
                }
            }
        }
    }
    Cascade { waves: exploding, passes: pass, found }
}

} // verus!
