use crate::actions::Orientation;
use crate::board::{line_matches, Board};
use crate::gems::GemType;
use crate::phase::GamePhase;
use crate::player::{lemma_places_inside, places, GridPosition, AROUND};
use vstd::prelude::*;

verus! {

/// `after` is `before` with what the cells `p` and `t` held exchanged, kind and
/// handle, and every other cell as it was.
pub open spec fn is_swap(before: Board, p: GridPosition, t: GridPosition, after: Board) -> bool {
    &&& after.cols() == before.cols()
    &&& after.rows() == before.rows()
    &&& after.gem_at(p.x as int, p.y as int) == before.gem_at(t.x as int, t.y as int)
    &&& after.gem_at(t.x as int, t.y as int) == before.gem_at(p.x as int, p.y as int)
    &&& forall|i: int, j: int|
        before.has(i, j) && !(i == p.x && j == p.y) && !(i == t.x && j == t.y) ==> after.gem_at(i, j)
            == before.gem_at(i, j)
}

/// The kind in cell `(x, y)` once the tiles of `p` and `t` have changed places.
pub open spec fn kind_after_swap(board: Board, p: GridPosition, t: GridPosition, x: int, y: int) -> GemType {
    if x == p.x && y == p.y {
        board.kind_at(t.x as int, t.y as int)
    } else if x == t.x && y == t.y {
        board.kind_at(p.x as int, p.y as int)
    } else {
        board.kind_at(x, y)
    }
}

/// Row `y` once the tiles of `p` and `t` have changed places.
pub open spec fn row_after_swap(board: Board, p: GridPosition, t: GridPosition, y: int) -> Seq<GemType> {
    Seq::new(board.cols() as nat, |x: int| kind_after_swap(board, p, t, x, y))
}

/// Column `x` once the tiles of `p` and `t` have changed places.
pub open spec fn column_after_swap(board: Board, p: GridPosition, t: GridPosition, x: int) -> Seq<
    GemType,
> {
    Seq::new(board.rows() as nat, |y: int| kind_after_swap(board, p, t, x, y))
}

/// Whether the pivot `at` lies in a run of three or more once the tiles of `p`
/// and `t` have changed places.
pub open spec fn matches_after_swap(board: Board, p: GridPosition, t: GridPosition, at: GridPosition) -> bool {
    board.has(at.x as int, at.y as int) && (line_matches(row_after_swap(board, p, t, at.y as int), at.x as int)
        || line_matches(column_after_swap(board, p, t, at.x as int), at.y as int))
}

/// Whether the exchange of the tiles of `p` and `t` makes a match, seeded at
/// the two cells.
pub open spec fn swap_pays(board: Board, p: GridPosition, t: GridPosition) -> bool {
    matches_after_swap(board, p, t, p) || matches_after_swap(board, p, t, t)
}

/// Whether `t` is a partner for the vacated cell `p`: it is not the cell that
/// the tail has moved to, it does not match as the board stands, and the
/// exchange with `p` makes a match.
pub open spec fn partner(board: Board, p: GridPosition, tail: GridPosition, t: GridPosition) -> bool {
    t != tail && !board.pivot_matches(t.x as int, t.y as int) && swap_pays(board, p, t)
}

/// The first partner among `around` from index `from` on.
pub open spec fn first_partner(
    board: Board,
    p: GridPosition,
    tail: GridPosition,
    around: Seq<GridPosition>,
    from: int,
) -> Option<GridPosition>
    decreases around.len() - from,
{
    if from < 0 || from >= around.len() {
        None
    } else if partner(board, p, tail, around[from]) {
        Some(around[from])
    } else {
        first_partner(board, p, tail, around, from + 1)
    }
}

/// The exchange that is made when the tail, facing `facing`, has moved to
/// `tail`: the vacated cell is the one behind the tail on the wrapping field.
/// Where that cell matches as the board stands, nothing is exchanged; else it
/// is exchanged with its first partner among the cells around it, taken in the
/// order of the places.
pub open spec fn advice(board: Board, tail: GridPosition, facing: Orientation) -> Option<
    (GridPosition, GridPosition),
> {
    let p = facing.behind(tail, board.cols() as usize, board.rows() as usize);
    if board.pivot_matches(p.x as int, p.y as int) {
        None
    } else {
        match first_partner(board, p, tail, places(p, AROUND as nat, board.cols(), board.rows()), 0) {
            Some(t) => Some((p, t)),
            None => None,
        }
    }
}

/// On a board with the tiles of `p` and `t` exchanged a pivot matches exactly
/// when it matches after the exchange, as seen from the board before.
pub proof fn lemma_swapped_matches(before: Board, p: GridPosition, t: GridPosition, after: Board, at: GridPosition)
    requires
        before.has(p.x as int, p.y as int),
        before.has(t.x as int, t.y as int),
        before.has(at.x as int, at.y as int),
        is_swap(before, p, t, after),
    ensures
        after.pivot_matches(at.x as int, at.y as int) == matches_after_swap(before, p, t, at),
{
    assert(after.row(at.y as int) =~= row_after_swap(before, p, t, at.y as int));
    assert(after.column(at.x as int) =~= column_after_swap(before, p, t, at.x as int));
}

/// Remembers the cell for which an exchange was last considered.
pub struct SwapAdvisor {
    pub last_checked: Option<GridPosition>,
}

impl SwapAdvisor {
    /// An advisor that has considered no cell yet.
    pub fn new() -> (advisor: SwapAdvisor)
        ensures
            advisor.last_checked.is_none(),
    {
        SwapAdvisor { last_checked: None }
    }

    /// Whether a move of the tail to `tail` is considered: only in play, with no
    /// tile about to be taken away, and once for every cell the tail comes to.
    pub open spec fn considers(self, phase: GamePhase, exploding: bool, tail: GridPosition) -> bool {
        phase == GamePhase::Playing && !exploding && self.last_checked != Some(tail)
    }

    /// Considers an exchange for the cell that the tail has left on its move to
    /// `new_position`, and makes it on the board where one pays. Returns the two
    /// cells that were exchanged, the vacated one first.
    pub fn tail_manipulation(
        &mut self,
        board: &mut Board,
        phase: GamePhase,
        exploding: bool,
        new_position: &GridPosition,
        orientation: &Orientation,
    ) -> (swap: Option<(GridPosition, GridPosition)>)
        requires
            old(board).wf(),
            old(board).has(new_position.x as int, new_position.y as int),
        ensures
            final(board).wf(),
            final(self).last_checked == (if old(self).considers(phase, exploding, *new_position) {
                Some(*new_position)
            } else {
                old(self).last_checked
            }),
            swap == (if old(self).considers(phase, exploding, *new_position) {
                advice(*old(board), *new_position, *orientation)
            } else {
                None
            }),
            match swap {
                Some((p, t)) => is_swap(*old(board), p, t, *final(board)),
                None => *final(board) == *old(board),
            },
    {
        let ghost before = *board;
        let ghost was = *self;
        match phase {
            GamePhase::Playing => {},
            _ => {
                return None;
            },
        }
        if exploding {
            return None;
        }
        match self.last_checked {
            Some(last) => {
                if last == *new_position {
                    return None;
                }
            },
            None => {},
        }
        self.last_checked = Some(*new_position);
        let width = board.width();
        let height = board.height();
        let position = orientation.previous_position(new_position, width, height);
        if board.matches_at(&position) {
            return None;
        }
        let neighbours = position.neighbours(width, height);
        let ghost around = places(position, AROUND as nat, width as int, height as int);
        let mut k: usize = 0;
        while k < neighbours.len()
            invariant
                k <= neighbours@.len(),
                neighbours@ == around,
                around == places(position, AROUND as nat, width as int, height as int),
                *board == before,
                before == *old(board),
                was == *old(self),
                was.considers(phase, exploding, *new_position),
                self.last_checked == Some(*new_position),
                position == orientation.behind(*new_position, width, height),
                !before.pivot_matches(position.x as int, position.y as int),
                board.wf(),
                width == board.cols(),
                height == board.rows(),
                board.has(position.x as int, position.y as int),
                first_partner(*board, position, *new_position, around, 0) == first_partner(
                    *board,
                    position,
                    *new_position,
                    around,
                    k as int,
                ),
            decreases neighbours@.len() - k,
        {
            let target = neighbours[k];
            proof {
                lemma_places_inside(position, AROUND as nat, width as int, height as int, k as int);
            }
            if !(target == *new_position) && !board.matches_at(&target) {
                let mut new_board = board.duplicate();
                new_board.swap(&position, &target);
                proof {
                    assert(is_swap(*board, position, target, new_board));
                    lemma_swapped_matches(*board, position, target, new_board, position);
                    lemma_swapped_matches(*board, position, target, new_board, target);
                }
                if new_board.matches_at(&position) || new_board.matches_at(&target) {
                    board.swap(&position, &target);
                    return Some((position, target));
                }
            }
            k += 1;
        }
        None
    }
}

} // verus!
