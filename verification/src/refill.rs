use crate::board::{Board, Gem};
use crate::gems::GemType;
use crate::grid::Grid;
use crate::player::GridPosition;
use bevy_rand::prelude::ChaCha8Rng;
use vstd::prelude::*;

verus! {

/// Whether the tile of cell `(x, y)` leaves the board: it has a wave, and a
/// handle by which it can be taken away.
pub open spec fn removable(board: Board, waves: Grid<usize>, x: int, y: int) -> bool {
    waves.at(x, y) > 0 && board.gem_at(x, y).entity.is_some()
}

/// Whether the tile of cell `(x, y)` has a wave but no handle: it stays.
pub open spec fn stranded(board: Board, waves: Grid<usize>, x: int, y: int) -> bool {
    waves.at(x, y) > 0 && board.gem_at(x, y).entity.is_none()
}

/// Number of tiles that leave column `x` from the rows below `y`.
pub open spec fn vacancies_below(board: Board, waves: Grid<usize>, x: int, y: nat) -> nat
    decreases y,
{
    if y == 0 {
        0
    } else {
        vacancies_below(board, waves, x, (y - 1) as nat) + (if removable(board, waves, x, y - 1) {
            1nat
        } else {
            0nat
        })
    }
}

/// Number of tiles with a wave and no handle in the rows of column `x` below `y`.
pub open spec fn stranded_below(board: Board, waves: Grid<usize>, x: int, y: nat) -> nat
    decreases y,
{
    if y == 0 {
        0
    } else {
        stranded_below(board, waves, x, (y - 1) as nat) + (if stranded(board, waves, x, y - 1) {
            1nat
        } else {
            0nat
        })
    }
}

/// Number of tiles that leave column `x`.
pub open spec fn vacancies(board: Board, waves: Grid<usize>, x: int) -> nat {
    vacancies_below(board, waves, x, board.rows() as nat)
}

/// The row in which the tile of row `y` of column `x` comes to rest: it falls by
/// the number of tiles that leave below it.
pub open spec fn landing(board: Board, waves: Grid<usize>, x: int, y: int) -> int {
    y - vacancies_below(board, waves, x, y as nat)
}

/// The row of the new tile of rank `rank` in column `x`. Rank 1 lies directly
/// on the tiles that stayed.
pub open spec fn spawn_row(board: Board, waves: Grid<usize>, x: int, rank: int) -> int {
    board.rows() - vacancies(board, waves, x) + rank - 1
}

/// Column `x` of `after` is column `x` of `before` settled: every tile that
/// stays has come to rest in its landing row with its handle, and above them
/// lie new tiles without a handle, of the kinds `fresh`, by rank.
pub open spec fn column_settled(
    before: Board,
    waves: Grid<usize>,
    x: int,
    fresh: Seq<GemType>,
    after: Board,
) -> bool {
    &&& fresh.len() == vacancies(before, waves, x)
    &&& forall|y: int|
        0 <= y < before.rows() && !removable(before, waves, x, y) ==> after.gem_at(
            x,
            #[trigger] landing(before, waves, x, y),
        ) == before.gem_at(x, y)
    &&& forall|i: int|
        0 <= i < fresh.len() ==> after.gem_at(x, spawn_row(before, waves, x, i + 1)) == (Gem {
            gem_type: #[trigger] fresh[i],
            entity: None,
        })
}

/// No more tiles leave below a row than there are rows below it, and one fewer
/// below a higher row for each tile that stays in between.
pub proof fn lemma_vacancies_step(board: Board, waves: Grid<usize>, x: int, low: nat, high: nat)
    requires
        low <= high,
    ensures
        vacancies_below(board, waves, x, low) <= vacancies_below(board, waves, x, high),
        vacancies_below(board, waves, x, high) - vacancies_below(board, waves, x, low) <= high - low,
        low < high && !removable(board, waves, x, low as int) ==> vacancies_below(board, waves, x, high)
            - vacancies_below(board, waves, x, low) < high - low,
        vacancies_below(board, waves, x, low) <= low,
    decreases high,
{
    if low < high {
        lemma_vacancies_step(board, waves, x, low, (high - 1) as nat);
    } else {
        if low > 0 {
            lemma_vacancies_step(board, waves, x, (low - 1) as nat, (low - 1) as nat);
        }
    }
}

/// The tiles that stay come to rest without a gap: every row below the new
/// tiles is the landing row of a tile that stayed, and of two tiles that stay
/// the higher one lands higher.
pub proof fn lemma_settled_without_gap(board: Board, waves: Grid<usize>, x: int, row: int)
    requires
        0 <= row < board.rows() - vacancies(board, waves, x),
    ensures
        exists|y: int|
            0 <= y < board.rows() && !removable(board, waves, x, y) && #[trigger] landing(board, waves, x, y)
                == row,
        forall|a: int, b: int|
            0 <= a < b < board.rows() && !removable(board, waves, x, a) && !removable(board, waves, x, b)
                ==> #[trigger] landing(board, waves, x, a) < #[trigger] landing(board, waves, x, b),
{
    lemma_landing_covers(board, waves, x, board.rows() as nat, row);
    assert forall|a: int, b: int|
        0 <= a < b < board.rows() && !removable(board, waves, x, a) && !removable(
            board,
            waves,
            x,
            b,
        ) implies #[trigger] landing(board, waves, x, a) < #[trigger] landing(board, waves, x, b) by {
        lemma_vacancies_step(board, waves, x, a as nat, b as nat);
    }
}

/// Every row below `upto - vacancies_below(upto)` is the landing row of a tile
/// that stays in a row below `upto`.
proof fn lemma_landing_covers(board: Board, waves: Grid<usize>, x: int, upto: nat, row: int)
    requires
        0 <= row < upto - vacancies_below(board, waves, x, upto),
    ensures
        exists|y: int|
            0 <= y < upto && !removable(board, waves, x, y) && #[trigger] landing(board, waves, x, y) == row,
    decreases upto,
{
    if upto > 0 {
        let below = (upto - 1) as nat;
        if !removable(board, waves, x, upto - 1) && landing(board, waves, x, upto - 1) == row {
        } else {
            lemma_landing_covers(board, waves, x, below, row);
            let y = choose|y: int|
                0 <= y < below && !removable(board, waves, x, y) && #[trigger] landing(board, waves, x, y)
                    == row;
            assert(0 <= y < upto);
        }
    }
}

/// A tile that has fallen: its handle, the cell it lay in and the cell it lies
/// in now.
#[derive(PartialEq, Eq, Structural, Clone, Copy, Debug)]
pub struct Fall {
    pub entity: u64,
    pub from: GridPosition,
    pub to: GridPosition,
}

/// A new tile: its cell, its kind and its rank among the new tiles of its
/// column.
#[derive(PartialEq, Eq, Structural, Clone, Copy, Debug)]
pub struct Spawn {
    pub position: GridPosition,
    pub gem_type: GemType,
    pub rank: usize,
}

/// Whether the tile of cell `(x, y)` falls and can be told so: it stays on the
/// board, tiles leave below it, and it has a handle.
pub open spec fn falls_from(board: Board, waves: Grid<usize>, x: int, y: int) -> bool {
    &&& !removable(board, waves, x, y)
    &&& board.gem_at(x, y).entity.is_some()
    &&& landing(board, waves, x, y) != y
}

/// `f` tells the fall of a tile of the board: from a cell whose tile falls, to
/// its landing row in the same column, with the handle of that tile.
pub open spec fn falling(board: Board, waves: Grid<usize>, f: Fall) -> bool {
    &&& board.has(f.from.x as int, f.from.y as int)
    &&& falls_from(board, waves, f.from.x as int, f.from.y as int)
    &&& board.gem_at(f.from.x as int, f.from.y as int).entity == Some(f.entity)
    &&& f.to.x == f.from.x
    &&& f.to.y == landing(board, waves, f.from.x as int, f.from.y as int)
}

/// `falls` tells the falls of column `x` from the rows below `upto`, from the
/// bottom up, each once.
pub open spec fn column_falls(board: Board, waves: Grid<usize>, x: int, upto: int, falls: Seq<Fall>) -> bool {
    &&& forall|i: int|
        0 <= i < falls.len() ==> falling(board, waves, #[trigger] falls[i]) && falls[i].from.x == x
            && falls[i].from.y < upto
    &&& forall|i: int, j: int|
        0 <= i < j < falls.len() ==> (#[trigger] falls[i]).from.y < (#[trigger] falls[j]).from.y
    &&& forall|y: int|
        0 <= y < upto && y < board.rows() && #[trigger] falls_from(board, waves, x, y) ==> exists|i: int|
            0 <= i < falls.len() && (#[trigger] falls[i]).from.y == y
}

/// The new tile of rank `rank` of a column that `gap` tiles left, where
/// `kinds` holds the kinds of the new tiles by rank.
pub open spec fn spawn_of(x: usize, height: usize, gap: usize, kinds: Seq<GemType>, rank: int) -> Spawn {
    Spawn {
        position: GridPosition { x, y: (height - gap + rank - 1) as usize },
        gem_type: kinds[rank - 1],
        rank: rank as usize,
    }
}

/// The new tiles of column `x` of a field of `height` rows, by rank, where
/// `kinds` holds their kinds by rank.
pub open spec fn spawns_of(x: usize, height: usize, kinds: Seq<GemType>) -> Seq<Spawn> {
    Seq::new(kinds.len(), |i: int| spawn_of(x, height, kinds.len() as usize, kinds, i + 1))
}

/// What settling one column did.
pub struct ColumnRefill {
    /// Number of tiles that left the column, which is the number of new tiles.
    pub removed: usize,
    /// Number of tiles that had a wave and stayed for want of a handle.
    pub skipped: usize,
    /// The tiles that fell, from the bottom up.
    pub falls: Vec<Fall>,
    /// The new tiles, by rank.
    pub spawns: Vec<Spawn>,
}

/// `c` tells what settling column `x` of `before` with new tiles of the kinds
/// `fresh` did: how many tiles left, how many stayed for want of a handle,
/// which tiles fell, and which new tiles came.
pub open spec fn column_report(
    before: Board,
    waves: Grid<usize>,
    x: int,
    fresh: Seq<GemType>,
    c: ColumnRefill,
) -> bool {
    &&& c.removed == vacancies(before, waves, x)
    &&& c.skipped == stranded_below(before, waves, x, before.rows() as nat)
    &&& column_falls(before, waves, x, before.rows(), c.falls@)
    &&& c.spawns@ == spawns_of(x as usize, before.rows() as usize, fresh)
}

/// Counts the tiles that leave column `x`.
pub fn column_vacancies(board: &Board, waves: &Grid<usize>, x: usize) -> (n: usize)
    requires
        board.wf(),
        waves.wf(),
        waves.cols() == board.cols(),
        waves.rows() == board.rows(),
        x < board.cols(),
    ensures
        n == vacancies(*board, *waves, x as int),
        n <= board.rows(),
{
    let height = board.height();
    let mut n: usize = 0;
    let mut y: usize = 0;
    while y < height
        invariant
            y <= height,
            height == board.rows(),
            board.wf(),
            waves.wf(),
            waves.cols() == board.cols(),
            waves.rows() == board.rows(),
            x < board.cols(),
            n <= y,
            n == vacancies_below(*board, *waves, x as int, y as nat),
        decreases height - y,
    {
        let gem = board.get(&GridPosition { x, y });
        if waves.get(x, y) > 0 && gem.entity.is_some() {
            n += 1;
        }
        y += 1;
    }
    n
}

/// Settles column `x`: the tiles with a wave and a handle leave, the tiles above
/// them fall into the rows that became free, and new tiles of the kinds
/// `kinds` fill the column from the top of the fallen tiles upwards.
pub fn refill_column(board: &mut Board, waves: &Grid<usize>, x: usize, kinds: &Vec<GemType>) -> (r:
    ColumnRefill)
    requires
        old(board).wf(),
        waves.wf(),
        waves.cols() == old(board).cols(),
        waves.rows() == old(board).rows(),
        x < old(board).cols(),
        kinds@.len() == vacancies(*old(board), *waves, x as int),
    ensures
        final(board).wf(),
        final(board).cols() == old(board).cols(),
        final(board).rows() == old(board).rows(),
        column_settled(*old(board), *waves, x as int, kinds@, *final(board)),
        forall|i: int, j: int| old(board).has(i, j) && i != x ==> final(board).gem_at(i, j) == old(board).gem_at(i, j),
        column_report(*old(board), *waves, x as int, kinds@, r),
{
    let ghost before = *board;
    let height = board.height();
    let mut vacancy: usize = 0;
    let mut skipped: usize = 0;
    let mut falls: Vec<Fall> = Vec::new();
    let mut spawns: Vec<Spawn> = Vec::new();
    let mut y: usize = 0;
    while y < height
        invariant
            y <= height,
            height == before.rows(),
            before.wf(),
            board.wf(),
            board.cols() == before.cols(),
            board.rows() == before.rows(),
            waves.wf(),
            waves.cols() == before.cols(),
            waves.rows() == before.rows(),
            x < before.cols(),
            vacancy <= y,
            skipped <= y,
            vacancy == vacancies_below(before, *waves, x as int, y as nat),
            skipped == stranded_below(before, *waves, x as int, y as nat),
            forall|r: int|
                0 <= r < y && !removable(before, *waves, x as int, r) ==> {
                    &&& 0 <= #[trigger] landing(before, *waves, x as int, r) < y - vacancy
                    &&& board.gem_at(x as int, landing(before, *waves, x as int, r)) == before.gem_at(
                        x as int,
                        r,
                    )
                },
            forall|j: int| y <= j < height ==> #[trigger] board.gem_at(x as int, j) == before.gem_at(x as int, j),
            forall|i: int, j: int|
                before.has(i, j) && i != x ==> #[trigger] board.gem_at(i, j) == before.gem_at(i, j),
            column_falls(before, *waves, x as int, y as int, falls@),
        decreases height - y,
    {
        let gem = board.get(&GridPosition { x, y });
        let wave = waves.get(x, y);
        let ghost earlier = falls@;
        if wave > 0 && gem.entity.is_some() {
            vacancy += 1;
        } else {
            if wave > 0 {
                skipped += 1;
            }
            if vacancy > 0 {
                board.put(&GridPosition { x, y: y - vacancy }, gem);
                match gem.entity {
                    Some(entity) => {
                        falls.push(
                            Fall { entity, from: GridPosition { x, y }, to: GridPosition { x, y: y - vacancy } },
                        );
                    },
                    None => {},
                }
            }
        }
        proof {
            assert forall|r: int|
                0 <= r < y + 1 && r < before.rows() && #[trigger] falls_from(
                    before,
                    *waves,
                    x as int,
                    r,
                ) implies exists|i: int| 0 <= i < falls@.len() && (#[trigger] falls@[i]).from.y == r by {
                if r < y {
                    let i = choose|i: int| 0 <= i < earlier.len() && (#[trigger] earlier[i]).from.y == r;
                    assert(falls@[i].from.y == r);
                } else {
                    assert(falls@[earlier.len() as int].from.y == r);
                }
            }
        }
        y += 1;
    }
    let ghost settled = *board;
    let mut rank: usize = 0;
    while rank < vacancy
        invariant
            rank <= vacancy,
            vacancy <= height,
            height == before.rows(),
            vacancy == vacancies(before, *waves, x as int),
            kinds@.len() == vacancy,
            board.wf(),
            board.cols() == before.cols(),
            board.rows() == before.rows(),
            x < before.cols(),
            forall|j: int| 0 <= j < height - vacancy ==> board.gem_at(x as int, j) == settled.gem_at(x as int, j),
            forall|i: int|
                0 <= i < rank ==> board.gem_at(x as int, spawn_row(before, *waves, x as int, i + 1)) == (Gem {
                    gem_type: #[trigger] kinds@[i],
                    entity: None,
                }),
            forall|i: int, j: int| before.has(i, j) && i != x ==> board.gem_at(i, j) == before.gem_at(i, j),
            spawns@.len() == rank,
            forall|i: int|
                0 <= i < rank ==> #[trigger] spawns@[i] == spawn_of(x, height, vacancy, kinds@, i + 1),
        decreases vacancy - rank,
    {
        let kind = kinds[rank];
        let position = GridPosition { x, y: height - vacancy + rank };
        board.put(&position, Gem { gem_type: kind, entity: None });
        spawns.push(Spawn { position, gem_type: kind, rank: rank + 1 });
        rank += 1;
    }
    assert(spawns@ =~= spawns_of(x, height, kinds@));
    ColumnRefill { removed: vacancy, skipped, falls, spawns }
}

/// Number of tiles that leave the columns left of `x`.
pub open spec fn total_vacancies(board: Board, waves: Grid<usize>, x: nat) -> nat
    decreases x,
{
    if x == 0 {
        0
    } else {
        total_vacancies(board, waves, (x - 1) as nat) + vacancies(board, waves, x - 1)
    }
}

/// Number of tiles with a wave and no handle in the columns left of `x`.
pub open spec fn total_stranded(board: Board, waves: Grid<usize>, x: nat) -> nat
    decreases x,
{
    if x == 0 {
        0
    } else {
        total_stranded(board, waves, (x - 1) as nat) + stranded_below(
            board,
            waves,
            x - 1,
            board.rows() as nat,
        )
    }
}

/// Column `x` of `after` is column `x` of `before` settled, with new tiles of
/// some kinds, and `c` tells what settling it did.
pub open spec fn column_done(before: Board, waves: Grid<usize>, x: int, after: Board, c: ColumnRefill) -> bool {
    exists|fresh: Seq<GemType>| #[trigger]
        column_settled(before, waves, x, fresh, after) && column_report(before, waves, x, fresh, c)
}

/// `after` is `before` with every column settled, each with new tiles of some
/// kinds, and `columns` tells for every column what settling it did.
pub open spec fn settled(before: Board, waves: Grid<usize>, after: Board, columns: Seq<ColumnRefill>) -> bool {
    &&& after.cols() == before.cols()
    &&& after.rows() == before.rows()
    &&& columns.len() == before.cols()
    &&& forall|x: int| 0 <= x < before.cols() ==> column_done(before, waves, x, after, #[trigger] columns[x])
}

/// What settling the board did.
pub struct Refill {
    /// Number of tiles that left the board.
    pub removed: usize,
    /// Number of tiles that had a wave and stayed for want of a handle.
    pub skipped: usize,
    /// For every column what settling it did.
    pub columns: Vec<ColumnRefill>,
}

/// Two boards that agree on the rows of column `x` below `y` lose the same
/// tiles there.
proof fn lemma_same_column(a: Board, b: Board, waves: Grid<usize>, x: int, y: nat)
    requires
        forall|j: int| 0 <= j < y ==> a.gem_at(x, j) == b.gem_at(x, j),
    ensures
        vacancies_below(a, waves, x, y) == vacancies_below(b, waves, x, y),
        stranded_below(a, waves, x, y) == stranded_below(b, waves, x, y),
    decreases y,
{
    if y > 0 {
        lemma_same_column(a, b, waves, x, (y - 1) as nat);
    }
}

/// No more tiles are stranded below a row than there are rows below it.
proof fn lemma_stranded_bound(board: Board, waves: Grid<usize>, x: int, y: nat)
    ensures
        stranded_below(board, waves, x, y) <= y,
    decreases y,
{
    if y > 0 {
        lemma_stranded_bound(board, waves, x, (y - 1) as nat);
    }
}

/// A column that is settled stays settled on a board that agrees with the
/// settled one in that column, seen from a board that agrees with the first.
proof fn lemma_settled_carries(
    before: Board,
    seen: Board,
    waves: Grid<usize>,
    x: int,
    fresh: Seq<GemType>,
    after: Board,
    later: Board,
)
    requires
        column_settled(seen, waves, x, fresh, after),
        seen.rows() == before.rows(),
        forall|j: int| 0 <= j < before.rows() ==> seen.gem_at(x, j) == before.gem_at(x, j),
        forall|j: int| 0 <= j < before.rows() ==> later.gem_at(x, j) == after.gem_at(x, j),
    ensures
        column_settled(before, waves, x, fresh, later),
{
    before.lemma_shape_fits();
    lemma_same_column(seen, before, waves, x, before.rows() as nat);
    lemma_vacancies_step(before, waves, x, 0, before.rows() as nat);
    assert(vacancies(seen, waves, x) == vacancies(before, waves, x));
    assert forall|y: int| 0 <= y < before.rows() && !removable(before, waves, x, y) implies later.gem_at(
        x,
        #[trigger] landing(before, waves, x, y),
    ) == before.gem_at(x, y) by {
        lemma_same_column(seen, before, waves, x, y as nat);
        lemma_vacancies_step(before, waves, x, y as nat, y as nat);
        assert(seen.gem_at(x, y) == before.gem_at(x, y));
        assert(after.gem_at(x, landing(seen, waves, x, y)) == seen.gem_at(x, y));
    }
    assert forall|i: int| 0 <= i < fresh.len() implies later.gem_at(
        x,
        spawn_row(before, waves, x, i + 1),
    ) == (Gem { gem_type: #[trigger] fresh[i], entity: None }) by {
        assert(spawn_row(seen, waves, x, i + 1) == spawn_row(before, waves, x, i + 1));
        assert(0 <= spawn_row(before, waves, x, i + 1) < before.rows());
        assert(after.gem_at(x, spawn_row(seen, waves, x, i + 1)) == (Gem {
            gem_type: fresh[i],
            entity: None,
        }));
    }
}

/// The report on a column carries over to a board that agrees with the one it
/// was made for in that column.
proof fn lemma_report_carries(before: Board, seen: Board, waves: Grid<usize>, x: int, fresh: Seq<GemType>, c: ColumnRefill)
    requires
        column_report(seen, waves, x, fresh, c),
        seen.rows() == before.rows(),
        seen.cols() == before.cols(),
        forall|j: int| 0 <= j < before.rows() ==> seen.gem_at(x, j) == before.gem_at(x, j),
    ensures
        column_report(before, waves, x, fresh, c),
{
    before.lemma_shape_fits();
    lemma_same_column(seen, before, waves, x, before.rows() as nat);
    assert forall|i: int| 0 <= i < c.falls@.len() implies falling(before, waves, #[trigger] c.falls@[i]) by {
        let f = c.falls@[i];
        assert(falling(seen, waves, f));
        lemma_same_column(seen, before, waves, x, f.from.y as nat);
        assert(seen.gem_at(x, f.from.y as int) == before.gem_at(x, f.from.y as int));
    }
    assert forall|y: int|
        0 <= y < before.rows() && #[trigger] falls_from(before, waves, x, y) implies exists|i: int|
        0 <= i < c.falls@.len() && (#[trigger] c.falls@[i]).from.y == y by {
        lemma_same_column(seen, before, waves, x, y as nat);
        assert(seen.gem_at(x, y) == before.gem_at(x, y));
        assert(falls_from(seen, waves, x, y));
    }
}

/// `n` kinds drawn from `rng`, one after the other.
pub fn random_kinds(rng: &mut ChaCha8Rng, n: usize) -> (kinds: Vec<GemType>)
    ensures
        kinds@.len() == n,
{
    let mut kinds: Vec<GemType> = Vec::new();
    let mut i: usize = 0;
    while i < n
        invariant
            i <= n,
            kinds@.len() == i,
        decreases n - i,
    {
        kinds.push(GemType::random(rng));
        i += 1;
    }
    kinds
}

/// Settles every column of the board, from the left, with new tiles of kinds
/// drawn from `rng`; within a column the kinds are drawn by rank.
pub fn refill(board: &mut Board, waves: &Grid<usize>, rng: &mut ChaCha8Rng) -> (r: Refill)
    requires
        old(board).wf(),
        waves.wf(),
        waves.cols() == old(board).cols(),
        waves.rows() == old(board).rows(),
    ensures
        final(board).wf(),
        settled(*old(board), *waves, *final(board), r.columns@),
        r.removed == total_vacancies(*old(board), *waves, old(board).cols() as nat),
        r.skipped == total_stranded(*old(board), *waves, old(board).cols() as nat),
        r.removed <= old(board).cols() * old(board).rows(),
{
    let ghost before = *board;
    let width = board.width();
    let height = board.height();
    let mut removed: usize = 0;
    let mut skipped: usize = 0;
    let mut columns: Vec<ColumnRefill> = Vec::new();
    let ghost mut fresh_all: Seq<Seq<GemType>> = Seq::empty();
    let mut x: usize = 0;
    proof {
        before.lemma_cell_count_fits();
    }
    while x < width
        invariant
            x <= width,
            width == before.cols(),
            height == before.rows(),
            before.wf(),
            width * height <= usize::MAX,
            board.wf(),
            board.cols() == before.cols(),
            board.rows() == before.rows(),
            waves.wf(),
            waves.cols() == before.cols(),
            waves.rows() == before.rows(),
            removed == total_vacancies(before, *waves, x as nat),
            skipped == total_stranded(before, *waves, x as nat),
            removed <= x * height,
            skipped <= x * height,
            columns@.len() == x,
            fresh_all.len() == x,
            forall|i: int| 0 <= i < x ==> #[trigger] column_settled(before, *waves, i, fresh_all[i], *board),
            forall|i: int| 0 <= i < x ==> column_report(before, *waves, i, fresh_all[i], #[trigger] columns@[i]),
            forall|i: int, j: int| before.has(i, j) && i >= x ==> board.gem_at(i, j) == before.gem_at(i, j),
        decreases width - x,
    {
        let ghost seen = *board;
        let n = column_vacancies(board, waves, x);
        let kinds = random_kinds(rng, n);
        let done = refill_column(board, waves, x, &kinds);
        proof {
            lemma_same_column(seen, before, *waves, x as int, height as nat);
            lemma_stranded_bound(before, *waves, x as int, height as nat);
            assert((x + 1) * height == x * height + height) by (nonlinear_arith);
            assert((x + 1) * height <= width * height) by (nonlinear_arith)
                requires
                    x + 1 <= width,
                    height >= 0,
            ;
            lemma_settled_carries(before, seen, *waves, x as int, kinds@, *board, *board);
            lemma_report_carries(before, seen, *waves, x as int, kinds@, done);
            assert forall|i: int| 0 <= i < x implies #[trigger] column_settled(
                before,
                *waves,
                i,
                fresh_all[i],
                *board,
            ) by {
                lemma_settled_carries(before, before, *waves, i, fresh_all[i], seen, *board);
            }
            fresh_all = fresh_all.push(kinds@);
        }
        removed += done.removed;
        skipped += done.skipped;
        columns.push(done);
        x += 1;
    }
    proof {
        assert forall|i: int| 0 <= i < before.cols() implies column_done(
            before,
            *waves,
            i,
            *board,
            #[trigger] columns@[i],
        ) by {
            assert(column_settled(before, *waves, i, fresh_all[i], *board) && column_report(
                before,
                *waves,
                i,
                fresh_all[i],
                columns@[i],
            ));
        }
    }
    Refill { removed, skipped, columns }
}

} // verus!
