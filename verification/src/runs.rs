use crate::board::{run_after, run_before, lemma_span_down, lemma_span_up, segment, span_down, span_up, Board};
use crate::gems::GemType;
use vstd::prelude::*;

verus! {

/// Cells of kind `kind` from `from` up to `end`, and none at `end + 1`: the
/// count towards the end of the line is their number.
proof fn lemma_span_up_exact(line: Seq<GemType>, kind: GemType, from: int, end: int)
    requires
        0 <= from <= end + 1 <= line.len(),
        forall|j: int| from <= j <= end ==> line[j] == kind,
        end + 1 == line.len() || line[end + 1] != kind,
    ensures
        span_up(line, kind, from) == end - from + 1,
    decreases end - from + 1,
{
    if from <= end {
        lemma_span_up_exact(line, kind, from + 1, end);
    }
}

/// Cells of kind `kind` from `from` down to `end`, and none at `end - 1`: the
/// count towards the start of the line is their number.
proof fn lemma_span_down_exact(line: Seq<GemType>, kind: GemType, from: int, end: int)
    requires
        0 <= end <= from + 1 <= line.len(),
        forall|j: int| end <= j <= from ==> line[j] == kind,
        end == 0 || line[end - 1] != kind,
    ensures
        span_down(line, kind, from) == from - end + 1,
    decreases from - end + 1,
{
    if end <= from {
        lemma_span_down_exact(line, kind, from - 1, end);
    }
}

/// The run through `i` reaches exactly from `lo` to `hi` where those cells are
/// of one kind and the cells beyond both ends are not.
pub proof fn lemma_run_reach(line: Seq<GemType>, i: int, lo: int, hi: int)
    requires
        0 <= lo <= i <= hi < line.len(),
        forall|j: int| lo <= j <= hi ==> line[j] == line[i],
        lo == 0 || line[lo - 1] != line[i],
        hi + 1 == line.len() || line[hi + 1] != line[i],
    ensures
        run_before(line, i) == i - lo,
        run_after(line, i) == hi - i,
{
    lemma_span_down_exact(line, line[i], i - 1, lo);
    lemma_span_up_exact(line, line[i], i + 1, hi);
}

/// The cell at index `j` of row `fixed` (`horizontal`) or of column `fixed`.
pub open spec fn run_cell(horizontal: bool, fixed: int, j: int) -> (int, int) {
    if horizontal {
        (j, fixed)
    } else {
        (fixed, j)
    }
}

/// `q` touches the cells `lo..=hi` of row or column `fixed`, by a side or by a
/// corner, and is none of them.
pub open spec fn beside(horizontal: bool, fixed: int, lo: int, hi: int, q: (usize, usize)) -> bool {
    let along = if horizontal {
        q.0
    } else {
        q.1
    };
    let across = if horizontal {
        q.1
    } else {
        q.0
    };
    &&& lo - 1 <= along <= hi + 1
    &&& fixed - 1 <= across <= fixed + 1
    &&& !segment(horizontal, fixed, lo, hi).contains(q)
}

/// The cells `lo..=hi` of row or column `fixed` lie on the board and are of one
/// kind, and every cell of the board that touches them is of another kind.
pub open spec fn isolated_run(board: Board, horizontal: bool, fixed: int, lo: int, hi: int) -> bool {
    &&& lo <= hi
    &&& board.has(run_cell(horizontal, fixed, lo).0, run_cell(horizontal, fixed, lo).1)
    &&& board.has(run_cell(horizontal, fixed, hi).0, run_cell(horizontal, fixed, hi).1)
    &&& forall|c: (usize, usize)| #[trigger]
        segment(horizontal, fixed, lo, hi).contains(c) ==> board.kind_of(c) == board.kind_at(
            run_cell(horizontal, fixed, lo).0,
            run_cell(horizontal, fixed, lo).1,
        )
    &&& forall|q: (usize, usize)|
        board.holds(q) && beside(horizontal, fixed, lo, hi, q) ==> #[trigger] board.kind_of(q)
            != board.kind_at(run_cell(horizontal, fixed, lo).0, run_cell(horizontal, fixed, lo).1)
}

/// What a seed inside an isolated run matches: the whole run where it has three
/// cells or more, else nothing.
proof fn lemma_isolated(board: Board, horizontal: bool, fixed: int, lo: int, hi: int, seed: int)
    requires
        isolated_run(board, horizontal, fixed, lo, hi),
        lo <= seed <= hi,
    ensures
        board.match_set(run_cell(horizontal, fixed, seed).0, run_cell(horizontal, fixed, seed).1) == (if hi
            - lo >= 2 {
            segment(horizontal, fixed, lo, hi)
        } else {
            Set::empty()
        }),
{
    board.lemma_shape_fits();
    let x = run_cell(horizontal, fixed, seed).0;
    let y = run_cell(horizontal, fixed, seed).1;
    let kind = board.kind_at(run_cell(horizontal, fixed, lo).0, run_cell(horizontal, fixed, lo).1);
    let row = board.row(y);
    let column = board.column(x);
    let pivot = (x as usize, y as usize);
    assert(segment(horizontal, fixed, lo, hi).contains(pivot));
    assert(board.kind_of(pivot) == kind);
    assert(row[x] == kind && column[y] == kind);
    if horizontal {
        if lo > 0 {
            let q = ((lo - 1) as usize, y as usize);
            assert(board.holds(q) && beside(horizontal, fixed, lo, hi, q));
            assert(board.kind_of(q) != kind);
        }
        if hi + 1 < board.cols() {
            let q = ((hi + 1) as usize, y as usize);
            assert(board.holds(q) && beside(horizontal, fixed, lo, hi, q));
            assert(board.kind_of(q) != kind);
        }
        if y > 0 {
            let q = (x as usize, (y - 1) as usize);
            assert(board.holds(q) && beside(horizontal, fixed, lo, hi, q));
            assert(board.kind_of(q) != kind);
        }
        if y + 1 < board.rows() {
            let q = (x as usize, (y + 1) as usize);
            assert(board.holds(q) && beside(horizontal, fixed, lo, hi, q));
            assert(board.kind_of(q) != kind);
        }
        assert forall|j: int| lo <= j <= hi implies row[j] == row[x] by {
            let c = (j as usize, y as usize);
            let d = (x as usize, y as usize);
            assert(segment(horizontal, fixed, lo, hi).contains(c));
            assert(segment(horizontal, fixed, lo, hi).contains(d));
            assert(board.kind_of(c) == kind && board.kind_of(d) == kind);
        }
        lemma_run_reach(row, x, lo, hi);
        lemma_run_reach(column, y, y, y);
        assert(board.column_match(x, y) =~= Set::empty());
    } else {
        if lo > 0 {
            let q = (x as usize, (lo - 1) as usize);
            assert(board.holds(q) && beside(horizontal, fixed, lo, hi, q));
            assert(board.kind_of(q) != kind);
        }
        if hi + 1 < board.rows() {
            let q = (x as usize, (hi + 1) as usize);
            assert(board.holds(q) && beside(horizontal, fixed, lo, hi, q));
            assert(board.kind_of(q) != kind);
        }
        if x > 0 {
            let q = ((x - 1) as usize, y as usize);
            assert(board.holds(q) && beside(horizontal, fixed, lo, hi, q));
            assert(board.kind_of(q) != kind);
        }
        if x + 1 < board.cols() {
            let q = ((x + 1) as usize, y as usize);
            assert(board.holds(q) && beside(horizontal, fixed, lo, hi, q));
            assert(board.kind_of(q) != kind);
        }
        assert forall|j: int| lo <= j <= hi implies column[j] == column[y] by {
            let c = (x as usize, j as usize);
            let d = (x as usize, y as usize);
            assert(segment(horizontal, fixed, lo, hi).contains(c));
            assert(segment(horizontal, fixed, lo, hi).contains(d));
            assert(board.kind_of(c) == kind && board.kind_of(d) == kind);
        }
        lemma_run_reach(column, y, lo, hi);
        lemma_run_reach(row, x, x, x);
        assert(board.row_match(x, y) =~= Set::empty());
    }
    assert(board.match_set(x, y) =~= (if hi - lo >= 2 {
        segment(horizontal, fixed, lo, hi)
    } else {
        Set::empty()
    }));
}

/// An isolated run of three cells or more: seeded at any of its cells, the
/// match is all cells of the run and no other cell.
pub proof fn lemma_isolated_run_matches_whole(
    board: Board,
    horizontal: bool,
    fixed: int,
    lo: int,
    hi: int,
    seed: int,
)
    requires
        isolated_run(board, horizontal, fixed, lo, hi),
        hi - lo + 1 >= 3,
        lo <= seed <= hi,
    ensures
        board.match_set(run_cell(horizontal, fixed, seed).0, run_cell(horizontal, fixed, seed).1)
            == segment(horizontal, fixed, lo, hi),
        board.pivot_matches(run_cell(horizontal, fixed, seed).0, run_cell(horizontal, fixed, seed).1),
{
    lemma_isolated(board, horizontal, fixed, lo, hi, seed);
    let x = run_cell(horizontal, fixed, seed).0;
    let y = run_cell(horizontal, fixed, seed).1;
    let c = (x as usize, y as usize);
    board.lemma_shape_fits();
    assert(segment(horizontal, fixed, lo, hi).contains(c));
    assert(board.match_set(x, y).contains(c));
}

/// An isolated run of exactly two cells: neither of its cells matches, nor is
/// any cell matched from them.
pub proof fn lemma_pair_does_not_match(board: Board, horizontal: bool, fixed: int, lo: int, seed: int)
    requires
        isolated_run(board, horizontal, fixed, lo, lo + 1),
        lo <= seed <= lo + 1,
    ensures
        board.match_set(run_cell(horizontal, fixed, seed).0, run_cell(horizontal, fixed, seed).1)
            == Set::<(usize, usize)>::empty(),
        !board.pivot_matches(run_cell(horizontal, fixed, seed).0, run_cell(horizontal, fixed, seed).1),
{
    lemma_isolated(board, horizontal, fixed, lo, lo + 1, seed);
    let x = run_cell(horizontal, fixed, seed).0;
    let y = run_cell(horizontal, fixed, seed).1;
    if board.pivot_matches(x, y) {
        board.lemma_shape_fits();
        let row = board.row(y);
        let column = board.column(x);
        lemma_span_down(row, row[x], x - 1);
        lemma_span_up(row, row[x], x + 1);
        lemma_span_down(column, column[y], y - 1);
        lemma_span_up(column, column[y], y + 1);
        let c = (x as usize, y as usize);
        assert(board.row_match(x, y).contains(c) || board.column_match(x, y).contains(c));
        assert(board.match_set(x, y).contains(c));
    }
}

} // verus!
