use crate::gems::GemType;
use crate::grid::{lemma_slot_in_range, slot, Grid, GRID_HEIGHT, GRID_WIDTH};
use crate::player::{adjacent, all_inside, cells_of, GridPosition};
use crate::refill::random_kinds;
use crate::trusted::{cell_set_insert, cell_set_new, set_cells};
use bevy::platform::collections::HashSet;
use bevy::platform::hash::FixedHasher;
use bevy_rand::prelude::ChaCha8Rng;
use vstd::prelude::*;

verus! {

/// What a cell holds: a tile of some kind, and the handle of the object that
/// shows it, once there is one.
#[derive(Clone, Copy, Debug)]
pub struct Gem {
    pub gem_type: GemType,
    pub entity: Option<u64>,
}

impl Default for Gem {
    fn default() -> (gem: Gem)
        ensures
            gem.gem_type == GemType::One,
            gem.entity.is_none(),
    {
        Gem { gem_type: GemType::One, entity: None }
    }
}

/// Number of cells of kind `kind` that follow one another in `line` from index
/// `from` towards the end.
pub open spec fn span_up(line: Seq<GemType>, kind: GemType, from: int) -> nat
    decreases line.len() - from,
{
    if 0 <= from < line.len() && line[from] == kind {
        1 + span_up(line, kind, from + 1)
    } else {
        0
    }
}

/// Number of cells of kind `kind` that follow one another in `line` from index
/// `from` towards the start.
pub open spec fn span_down(line: Seq<GemType>, kind: GemType, from: int) -> nat
    decreases from + 1,
{
    if 0 <= from < line.len() && line[from] == kind {
        1 + span_down(line, kind, from - 1)
    } else {
        0
    }
}

/// Cells of the pivot's kind directly before the pivot `i`.
pub open spec fn run_before(line: Seq<GemType>, i: int) -> nat {
    span_down(line, line[i], i - 1)
}

/// Cells of the pivot's kind directly after the pivot `i`.
pub open spec fn run_after(line: Seq<GemType>, i: int) -> nat {
    span_up(line, line[i], i + 1)
}

/// Length of the run through the pivot `i`: the pivot and its like neighbours on
/// both sides.
pub open spec fn run_length(line: Seq<GemType>, i: int) -> nat {
    run_before(line, i) + run_after(line, i) + 1
}

/// A run matches when it has three cells or more.
pub open spec fn line_matches(line: Seq<GemType>, i: int) -> bool {
    0 <= i < line.len() && run_length(line, i) >= 3
}

/// The count towards the end of the line stays on the line, covers cells of
/// the kind only, and stops before a cell of another kind or at the end.
pub proof fn lemma_span_up(line: Seq<GemType>, kind: GemType, from: int)
    requires
        0 <= from,
    ensures
        from + span_up(line, kind, from) <= line.len() || span_up(line, kind, from) == 0,
        forall|j: int| from <= j < from + span_up(line, kind, from) ==> 0 <= j < line.len() && line[j] == kind,
        !(0 <= from + span_up(line, kind, from) < line.len() && line[from + span_up(line, kind, from)] == kind),
    decreases line.len() - from,
{
    if 0 <= from < line.len() && line[from] == kind {
        lemma_span_up(line, kind, from + 1);
    }
}

/// The count towards the start of the line stays on the line, covers cells of
/// the kind only, and stops before a cell of another kind or at the start.
pub proof fn lemma_span_down(line: Seq<GemType>, kind: GemType, from: int)
    requires
        from < line.len(),
    ensures
        span_down(line, kind, from) <= from + 1 || span_down(line, kind, from) == 0,
        forall|j: int| from - span_down(line, kind, from) < j <= from ==> 0 <= j < line.len() && line[j] == kind,
        !(0 <= from - span_down(line, kind, from) < line.len() && line[from - span_down(line, kind, from)] == kind),
    decreases from + 1,
{
    if 0 <= from < line.len() && line[from] == kind {
        lemma_span_down(line, kind, from - 1);
    }
}

/// A run is no longer than its line.
pub proof fn lemma_run_fits_line(line: Seq<GemType>, i: int)
    requires
        0 <= i < line.len(),
    ensures
        run_length(line, i) <= line.len(),
{
    lemma_span_down(line, line[i], i - 1);
    lemma_span_up(line, line[i], i + 1);
}

/// The cells `lo..=hi` of row `fixed` (`horizontal`) or of column `fixed`.
pub open spec fn segment(horizontal: bool, fixed: int, lo: int, hi: int) -> Set<(usize, usize)> {
    Set::new(
        |c: (usize, usize)|
            if horizontal {
                c.1 == fixed && lo <= c.0 <= hi
            } else {
                c.0 == fixed && lo <= c.1 <= hi
            },
    )
}

/// `after` is `before` with every cell of `marks` that had no wave yet given
/// the wave `wave`; a cell that has a wave keeps it.
pub open spec fn tagged(
    before: Grid<usize>,
    marks: Set<(usize, usize)>,
    wave: usize,
    after: Grid<usize>,
) -> bool {
    &&& after.cols() == before.cols()
    &&& after.rows() == before.rows()
    &&& forall|c: (usize, usize)|
        before.holds(c) ==> #[trigger] after.cell(c) == (if marks.contains(c) && before.cell(c) == 0 {
            wave
        } else {
            before.cell(c)
        })
}

/// `after` is `before` with every cell of `visited` ticked as well.
pub open spec fn ticked(before: Grid<bool>, visited: Set<(usize, usize)>, after: Grid<bool>) -> bool {
    &&& after.cols() == before.cols()
    &&& after.rows() == before.rows()
    &&& forall|c: (usize, usize)|
        before.holds(c) ==> #[trigger] after.cell(c) == (before.cell(c) || visited.contains(c))
}

/// Gives cell `(x, y)` the wave `iteration` unless it has one, and records the
/// cell in `positions`.
pub fn mark_for_explosion(
    x: usize,
    y: usize,
    iteration: usize,
    positions: &mut HashSet<(usize, usize), FixedHasher>,
    exploding: &mut Grid<usize>,
)
    requires
        old(exploding).wf(),
        old(exploding).has(x as int, y as int),
    ensures
        final(exploding).wf(),
        set_cells(*final(positions)) == set_cells(*old(positions)).insert((x, y)),
        tagged(*old(exploding), set![(x, y)], iteration, *final(exploding)),
{
    if exploding.get(x, y) == 0 {
        exploding.set(x, y, iteration);
    }
    cell_set_insert(positions, x, y);
}

/// Marks the cells `lo..=hi` of row `fixed` (`horizontal`) or of column `fixed`.
fn mark_line(
    horizontal: bool,
    fixed: usize,
    lo: usize,
    hi: usize,
    iteration: usize,
    positions: &mut HashSet<(usize, usize), FixedHasher>,
    exploding: &mut Grid<usize>,
)
    requires
        old(exploding).wf(),
        lo <= hi,
        horizontal ==> old(exploding).has(hi as int, fixed as int),
        !horizontal ==> old(exploding).has(fixed as int, hi as int),
    ensures
        final(exploding).wf(),
        set_cells(*final(positions)) == set_cells(*old(positions)).union(
            segment(horizontal, fixed as int, lo as int, hi as int),
        ),
        tagged(
            *old(exploding),
            segment(horizontal, fixed as int, lo as int, hi as int),
            iteration,
            *final(exploding),
        ),
{
    let ghost first_positions = set_cells(*positions);
    let ghost first_exploding = *exploding;
    proof {
        exploding.lemma_shape_fits();
    }
    let mut j = lo;
    while j <= hi
        invariant
            lo <= j <= hi + 1,
            hi < usize::MAX,
            exploding.wf(),
            horizontal ==> first_exploding.has(hi as int, fixed as int),
            !horizontal ==> first_exploding.has(fixed as int, hi as int),
            set_cells(*positions) == first_positions.union(
                segment(horizontal, fixed as int, lo as int, j - 1),
            ),
            tagged(first_exploding, segment(horizontal, fixed as int, lo as int, j - 1), iteration, *exploding),
        decreases hi + 1 - j,
    {
        let ghost prior = *exploding;
        if horizontal {
            mark_for_explosion(j, fixed, iteration, positions, exploding);
        } else {
            mark_for_explosion(fixed, j, iteration, positions, exploding);
        }
        proof {
            let c = if horizontal {
                (j, fixed)
            } else {
                (fixed, j)
            };
            assert(segment(horizontal, fixed as int, lo as int, j as int) =~= segment(
                horizontal,
                fixed as int,
                lo as int,
                j - 1,
            ).insert(c));
            assert forall|d: (usize, usize)| first_exploding.holds(d) implies #[trigger] exploding.cell(d)
                == (if segment(horizontal, fixed as int, lo as int, j as int).contains(d)
                && first_exploding.cell(d) == 0 {
                iteration
            } else {
                first_exploding.cell(d)
            }) by {
                assert(prior.holds(d));
                assert(exploding.cell(d) == (if set![c].contains(d) && prior.cell(d) == 0 {
                    iteration
                } else {
                    prior.cell(d)
                }));
            }
        }
        j += 1;
    }
}

/// The board: one tile in every cell of a rectangular field.
pub struct Board {
    gems: Grid<Gem>,
}

impl Default for Board {
    /// A board of the shape the game is shipped with, a tile of the first kind
    /// and no handle in every cell.
    fn default() -> (board: Board)
        ensures
            board.wf(),
            board.cols() == GRID_WIDTH,
            board.rows() == GRID_HEIGHT,
            forall|x: int, y: int|
                board.has(x, y) ==> board.gem_at(x, y) == (Gem { gem_type: GemType::One, entity: None }),
    {
        Board::new(GRID_WIDTH, GRID_HEIGHT).unwrap()
    }
}

impl Board {
    /// The board holds exactly one tile for every cell.
    pub closed spec fn wf(&self) -> bool {
        self.gems.wf()
    }

    /// Number of columns.
    pub closed spec fn cols(&self) -> int {
        self.gems.cols()
    }

    /// Number of rows.
    pub closed spec fn rows(&self) -> int {
        self.gems.rows()
    }

    /// Whether `(x, y)` is a cell of the board. The board does not wrap.
    pub open spec fn has(&self, x: int, y: int) -> bool {
        0 <= x < self.cols() && 0 <= y < self.rows()
    }

    /// What cell `(x, y)` holds.
    pub closed spec fn gem_at(&self, x: int, y: int) -> Gem {
        self.gems.at(x, y)
    }

    /// The kind of tile in cell `(x, y)`.
    pub open spec fn kind_at(&self, x: int, y: int) -> GemType {
        self.gem_at(x, y).gem_type
    }

    /// Whether the pair `c` names a cell of the board.
    pub open spec fn holds(&self, c: (usize, usize)) -> bool {
        self.has(c.0 as int, c.1 as int)
    }

    /// The kind of tile in the cell that the pair `c` names.
    pub open spec fn kind_of(&self, c: (usize, usize)) -> GemType {
        self.kind_at(c.0 as int, c.1 as int)
    }

    /// The kinds of row `y`, from left to right.
    pub open spec fn row(&self, y: int) -> Seq<GemType> {
        Seq::new(self.cols() as nat, |x: int| self.kind_at(x, y))
    }

    /// The kinds of column `x`, from bottom to top.
    pub open spec fn column(&self, x: int) -> Seq<GemType> {
        Seq::new(self.rows() as nat, |y: int| self.kind_at(x, y))
    }

    /// The cells of the horizontal run through `(x, y)`, if that run matches.
    pub open spec fn row_match(&self, x: int, y: int) -> Set<(usize, usize)> {
        if line_matches(self.row(y), x) {
            segment(true, y, x - run_before(self.row(y), x), x + run_after(self.row(y), x))
        } else {
            Set::empty()
        }
    }

    /// The cells of the vertical run through `(x, y)`, if that run matches.
    pub open spec fn column_match(&self, x: int, y: int) -> Set<(usize, usize)> {
        if line_matches(self.column(x), y) {
            segment(false, x, y - run_before(self.column(x), y), y + run_after(self.column(x), y))
        } else {
            Set::empty()
        }
    }

    /// Whether the pivot `(x, y)` lies in a run of three or more, on either axis.
    pub open spec fn pivot_matches(&self, x: int, y: int) -> bool {
        self.has(x, y) && (line_matches(self.row(y), x) || line_matches(self.column(x), y))
    }

    /// All cells matched from the pivot `(x, y)`: the runs of three or more
    /// through it, each axis taken by itself.
    pub open spec fn match_set(&self, x: int, y: int) -> Set<(usize, usize)> {
        if self.has(x, y) {
            self.row_match(x, y).union(self.column_match(x, y))
        } else {
            Set::empty()
        }
    }

    /// All cells matched from any pivot of `pivots`.
    pub open spec fn matches_of(&self, pivots: Set<(usize, usize)>) -> Set<(usize, usize)> {
        Set::new(
            |q: (usize, usize)|
                exists|p: (usize, usize)|
                    pivots.contains(p) && #[trigger] self.match_set(p.0 as int, p.1 as int).contains(q),
        )
    }

    /// Two boards of one shape that hold the same in every cell.
    pub open spec fn same_as(&self, other: &Board) -> bool {
        &&& self.cols() == other.cols()
        &&& self.rows() == other.rows()
        &&& forall|x: int, y: int| self.has(x, y) ==> self.gem_at(x, y) == other.gem_at(x, y)
    }

    /// Two boards of one shape that hold the same kind in every cell.
    pub open spec fn same_kinds(&self, other: &Board) -> bool {
        &&& self.cols() == other.cols()
        &&& self.rows() == other.rows()
        &&& forall|x: int, y: int| self.has(x, y) ==> self.kind_at(x, y) == other.kind_at(x, y)
    }

    /// On two boards that hold the same kinds a pivot matches the same cells.
    pub proof fn lemma_same_kinds_match(&self, other: &Board, x: int, y: int)
        requires
            self.same_kinds(other),
        ensures
            self.match_set(x, y) == other.match_set(x, y),
            self.pivot_matches(x, y) == other.pivot_matches(x, y),
    {
        if self.has(x, y) {
            assert(self.row(y) =~= other.row(y));
            assert(self.column(x) =~= other.column(x));
        }
    }

    /// On two boards that hold the same kinds the same cells are matched from a
    /// set of pivots.
    pub proof fn lemma_same_kinds_matches_of(&self, other: &Board, pivots: Set<(usize, usize)>)
        requires
            self.same_kinds(other),
        ensures
            self.matches_of(pivots) == other.matches_of(pivots),
    {
        assert forall|q: (usize, usize)| self.matches_of(pivots).contains(q) == other.matches_of(
            pivots,
        ).contains(q) by {
            if self.matches_of(pivots).contains(q) {
                let p = choose|p: (usize, usize)|
                    pivots.contains(p) && #[trigger] self.match_set(p.0 as int, p.1 as int).contains(q);
                self.lemma_same_kinds_match(other, p.0 as int, p.1 as int);
                assert(other.match_set(p.0 as int, p.1 as int).contains(q));
            }
            if other.matches_of(pivots).contains(q) {
                let p = choose|p: (usize, usize)|
                    pivots.contains(p) && #[trigger] other.match_set(p.0 as int, p.1 as int).contains(q);
                self.lemma_same_kinds_match(other, p.0 as int, p.1 as int);
                assert(self.match_set(p.0 as int, p.1 as int).contains(q));
            }
        }
        assert(self.matches_of(pivots) =~= other.matches_of(pivots));
    }

    /// A board of the given shape with a tile of the first kind and no handle in
    /// every cell; `None` when the number of cells does not fit the machine word.
    pub fn new(width: usize, height: usize) -> (r: Option<Board>)
        ensures
            r.is_some() <==> width * height <= usize::MAX,
            r matches Some(b) ==> {
                &&& b.wf()
                &&& b.cols() == width
                &&& b.rows() == height
                &&& forall|x: int, y: int|
                    b.has(x, y) ==> b.gem_at(x, y) == (Gem { gem_type: GemType::One, entity: None })
            },
    {
        match Grid::filled(width, height, Gem { gem_type: GemType::One, entity: None }) {
            Some(gems) => Some(Board { gems }),
            None => None,
        }
    }

    /// The number of cells of a well-formed board fits the machine word.
    pub proof fn lemma_cell_count_fits(&self)
        requires
            self.wf(),
        ensures
            0 <= self.cols() * self.rows() <= usize::MAX,
    {
        self.gems.lemma_cell_count_fits();
    }

    /// Both sides of the board fit the machine word.
    pub proof fn lemma_shape_fits(&self)
        ensures
            0 <= self.cols() <= usize::MAX,
            0 <= self.rows() <= usize::MAX,
    {
        self.gems.lemma_shape_fits();
    }

    /// Number of columns.
    pub fn width(&self) -> (w: usize)
        ensures
            w == self.cols(),
    {
        self.gems.width()
    }

    /// Number of rows.
    pub fn height(&self) -> (h: usize)
        ensures
            h == self.rows(),
    {
        self.gems.height()
    }

    /// Whether `(x, y)` is a cell of the board.
    pub fn in_bounds(&self, x: usize, y: usize) -> (b: bool)
        ensures
            b == self.has(x as int, y as int),
    {
        self.gems.in_bounds(x, y)
    }

    /// What the cell at `position` holds.
    pub fn get(&self, position: &GridPosition) -> (gem: Gem)
        requires
            self.wf(),
            self.has(position.x as int, position.y as int),
        ensures
            gem == self.gem_at(position.x as int, position.y as int),
    {
        self.gems.get(position.x, position.y)
    }

    /// Puts a tile of kind `gem_type` into the cell at `position`; the cell
    /// keeps its handle.
    pub fn set(&mut self, position: &GridPosition, gem_type: GemType)
        requires
            old(self).wf(),
            old(self).has(position.x as int, position.y as int),
        ensures
            final(self).wf(),
            final(self).cols() == old(self).cols(),
            final(self).rows() == old(self).rows(),
            final(self).gem_at(position.x as int, position.y as int) == (Gem {
                gem_type,
                entity: old(self).gem_at(position.x as int, position.y as int).entity,
            }),
            forall|i: int, j: int|
                old(self).has(i, j) && !(i == position.x && j == position.y) ==> final(self).gem_at(i, j)
                    == old(self).gem_at(i, j),
    {
        let gem = self.gems.get(position.x, position.y);
        self.gems.set(position.x, position.y, Gem { gem_type, entity: gem.entity });
    }

    /// Puts `gem`, kind and handle, into the cell at `position`.
    pub fn put(&mut self, position: &GridPosition, gem: Gem)
        requires
            old(self).wf(),
            old(self).has(position.x as int, position.y as int),
        ensures
            final(self).wf(),
            final(self).cols() == old(self).cols(),
            final(self).rows() == old(self).rows(),
            final(self).gem_at(position.x as int, position.y as int) == gem,
            forall|i: int, j: int|
                old(self).has(i, j) && !(i == position.x && j == position.y) ==> final(self).gem_at(i, j)
                    == old(self).gem_at(i, j),
    {
        self.gems.set(position.x, position.y, gem);
    }

    /// Records `entity` as the handle of the cell at `position`.
    pub fn set_entity(&mut self, position: &GridPosition, entity: Option<u64>)
        requires
            old(self).wf(),
            old(self).has(position.x as int, position.y as int),
        ensures
            final(self).wf(),
            final(self).cols() == old(self).cols(),
            final(self).rows() == old(self).rows(),
            final(self).gem_at(position.x as int, position.y as int) == (Gem {
                gem_type: old(self).gem_at(position.x as int, position.y as int).gem_type,
                entity,
            }),
            forall|i: int, j: int|
                old(self).has(i, j) && !(i == position.x && j == position.y) ==> final(self).gem_at(i, j)
                    == old(self).gem_at(i, j),
    {
        let gem = self.gems.get(position.x, position.y);
        self.gems.set(position.x, position.y, Gem { gem_type: gem.gem_type, entity });
    }

    /// The line through `(x, y)` along the chosen axis.
    pub open spec fn line(&self, horizontal: bool, x: int, y: int) -> Seq<GemType> {
        if horizontal {
            self.row(y)
        } else {
            self.column(x)
        }
    }

    /// Kind of the cell at index `j` of the line through `(x, y)`.
    fn kind_on_line(&self, horizontal: bool, x: usize, y: usize, j: usize) -> (kind: GemType)
        requires
            self.wf(),
            self.has(x as int, y as int),
            0 <= j < self.line(horizontal, x as int, y as int).len(),
        ensures
            kind == self.line(horizontal, x as int, y as int)[j as int],
    {
        if horizontal {
            self.gems.get(j, y).gem_type
        } else {
            self.gems.get(x, j).gem_type
        }
    }

    /// Counts the cells of the pivot's kind that follow the pivot `(x, y)` on one
    /// axis in one direction.
    fn span(&self, x: usize, y: usize, horizontal: bool, forward: bool) -> (n: usize)
        requires
            self.wf(),
            self.has(x as int, y as int),
        ensures
            forward ==> n == run_after(
                self.line(horizontal, x as int, y as int),
                if horizontal {
                    x as int
                } else {
                    y as int
                },
            ),
            !forward ==> n == run_before(
                self.line(horizontal, x as int, y as int),
                if horizontal {
                    x as int
                } else {
                    y as int
                },
            ),
            forward ==> (if horizontal {
                x
            } else {
                y
            }) + n < self.line(horizontal, x as int, y as int).len(),
            !forward ==> n <= (if horizontal {
                x
            } else {
                y
            }),
    {
        let kind = self.gems.get(x, y).gem_type;
        let i = if horizontal {
            x
        } else {
            y
        };
        let len = if horizontal {
            self.gems.width()
        } else {
            self.gems.height()
        };
        let ghost line = self.line(horizontal, x as int, y as int);
        assert(line[i as int] == kind);
        let mut n: usize = 0;
        if forward {
            while i + n + 1 < len && self.kind_on_line(horizontal, x, y, i + n + 1) == kind
                invariant
                    self.wf(),
                    self.has(x as int, y as int),
                    line == self.line(horizontal, x as int, y as int),
                    len == line.len(),
                    i + n < len,
                    span_up(line, kind, i + 1) == n + span_up(line, kind, i + 1 + n),
                decreases len - n,
            {
                n += 1;
            }
        } else {
            while n < i && self.kind_on_line(horizontal, x, y, i - n - 1) == kind
                invariant
                    self.wf(),
                    self.has(x as int, y as int),
                    line == self.line(horizontal, x as int, y as int),
                    len == line.len(),
                    i < len,
                    n <= i,
                    span_down(line, kind, i - 1) == n + span_down(line, kind, i - 1 - n),
                decreases i - n,
            {
                n += 1;
            }
        }
        n
    }

    /// What a visit of the pivot `slot` finds: nothing where the pivot was
    /// visited before, else the cells matched from it.
    pub open spec fn found_at(&self, visited: bool, slot: GridPosition) -> Set<(usize, usize)> {
        if visited {
            Set::empty()
        } else {
            self.match_set(slot.x as int, slot.y as int)
        }
    }

    /// Visits the pivot `slot` unless `checked` has it: ticks it in `checked`,
    /// and gives every cell matched from it the wave `iteration`, unless the cell
    /// has a wave, and records the cell in `positions`. Tells whether the pivot
    /// was matched by this visit.
    pub fn check_slot(
        &self,
        iteration: usize,
        slot: &GridPosition,
        checked: &mut Grid<bool>,
        exploding: &mut Grid<usize>,
        positions: &mut HashSet<(usize, usize), FixedHasher>,
    ) -> (matched: bool)
        requires
            self.wf(),
            self.has(slot.x as int, slot.y as int),
            old(checked).wf(),
            old(checked).cols() == self.cols(),
            old(checked).rows() == self.rows(),
            old(exploding).wf(),
            old(exploding).cols() == self.cols(),
            old(exploding).rows() == self.rows(),
        ensures
            final(checked).wf(),
            final(exploding).wf(),
            ticked(*old(checked), set![slot.cell()], *final(checked)),
            matched == (!old(checked).cell(slot.cell()) && self.pivot_matches(
                slot.x as int,
                slot.y as int,
            )),
            set_cells(*final(positions)) == set_cells(*old(positions)).union(
                self.found_at(old(checked).cell(slot.cell()), *slot),
            ),
            tagged(
                *old(exploding),
                self.found_at(old(checked).cell(slot.cell()), *slot),
                iteration,
                *final(exploding),
            ),
    {
        let x = slot.x;
        let y = slot.y;
        if checked.get(x, y) {
            assert(set_cells(*positions) =~= set_cells(*positions).union(Set::empty()));
            return false;
        }
        checked.set(x, y, true);
        let left = self.span(x, y, true, false);
        let right = self.span(x, y, true, true);
        let down = self.span(x, y, false, false);
        let up = self.span(x, y, false, true);
        let ghost first_positions = set_cells(*positions);
        let ghost first_exploding = *exploding;
        proof {
            self.lemma_shape_fits();
        }
        let mut matched = false;
        if left + right >= 2 {
            matched = true;
            mark_line(true, y, x - left, x + right, iteration, positions, exploding);
        }
        let ghost middle_exploding = *exploding;
        assert(set_cells(*positions) =~= first_positions.union(self.row_match(x as int, y as int)));
        assert(tagged(first_exploding, self.row_match(x as int, y as int), iteration, *exploding));
        if down + up >= 2 {
            matched = true;
            mark_line(false, x, y - down, y + up, iteration, positions, exploding);
        }
        proof {
            assert(set_cells(*positions) =~= first_positions.union(self.match_set(x as int, y as int)));
            assert forall|c: (usize, usize)| first_exploding.holds(c) implies #[trigger] exploding.cell(c)
                == (if self.match_set(x as int, y as int).contains(c) && first_exploding.cell(c) == 0 {
                iteration
            } else {
                first_exploding.cell(c)
            }) by {
                assert(middle_exploding.holds(c));
                assert(middle_exploding.cell(c) == (if self.row_match(x as int, y as int).contains(c)
                    && first_exploding.cell(c) == 0 {
                    iteration
                } else {
                    first_exploding.cell(c)
                }));
            }
        }
        matched
    }

    /// On a board with fewer than three columns and fewer than three rows no
    /// pivot matches anything.
    pub proof fn lemma_small_board_matches_nothing(&self, x: int, y: int)
        requires
            self.cols() < 3,
            self.rows() < 3,
        ensures
            self.match_set(x, y) == Set::<(usize, usize)>::empty(),
            !self.pivot_matches(x, y),
    {
        if self.has(x, y) {
            lemma_run_fits_line(self.row(y), x);
            lemma_run_fits_line(self.column(x), y);
        }
        assert(self.match_set(x, y) =~= Set::<(usize, usize)>::empty());
    }

    /// Every matched cell is a cell of the board.
    pub proof fn lemma_match_inside(&self, x: int, y: int, q: (usize, usize))
        requires
            self.match_set(x, y).contains(q),
        ensures
            self.has(x, y),
            self.has(q.0 as int, q.1 as int),
    {
        let row = self.row(y);
        let column = self.column(x);
        lemma_span_down(row, row[x], x - 1);
        lemma_span_up(row, row[x], x + 1);
        lemma_span_down(column, column[y], y - 1);
        lemma_span_up(column, column[y], y + 1);
    }

    /// A pivot that matches anything matches three cells in a line, each next
    /// to the one before.
    pub proof fn lemma_match_has_three(&self, x: int, y: int) -> (t: (
        (usize, usize),
        (usize, usize),
        (usize, usize),
    ))
        requires
            exists|q: (usize, usize)| self.match_set(x, y).contains(q),
        ensures
            self.match_set(x, y).contains(t.0),
            self.match_set(x, y).contains(t.1),
            self.match_set(x, y).contains(t.2),
            t.0 != t.1 && t.1 != t.2 && t.0 != t.2,
            adjacent(t.0, t.1),
            adjacent(t.1, t.2),
    {
        let q = choose|q: (usize, usize)| self.match_set(x, y).contains(q);
        self.lemma_match_inside(x, y, q);
        self.lemma_shape_fits();
        let row = self.row(y);
        let column = self.column(x);
        lemma_span_down(row, row[x], x - 1);
        lemma_span_up(row, row[x], x + 1);
        lemma_span_down(column, column[y], y - 1);
        lemma_span_up(column, column[y], y + 1);
        if line_matches(row, x) {
            let lo = x - run_before(row, x);
            let t = ((lo as usize, y as usize), ((lo + 1) as usize, y as usize), ((lo + 2) as usize, y as usize));
            assert(self.row_match(x, y).contains(t.0));
            assert(self.row_match(x, y).contains(t.1));
            assert(self.row_match(x, y).contains(t.2));
            t
        } else {
            let lo = y - run_before(column, y);
            let t = ((x as usize, lo as usize), (x as usize, (lo + 1) as usize), (x as usize, (lo + 2) as usize));
            assert(self.column_match(x, y).contains(t.0));
            assert(self.column_match(x, y).contains(t.1));
            assert(self.column_match(x, y).contains(t.2));
            t
        }
    }

    /// The seeds of `active_slots` that `checked` does not have yet.
    pub open spec fn fresh_seeds(active_slots: Seq<GridPosition>, checked: Grid<bool>) -> Set<
        (usize, usize),
    > {
        Set::new(|c: (usize, usize)| cells_of(active_slots).contains(c) && !checked.cell(c))
    }

    /// Adding a pivot adds the cells matched from it.
    pub proof fn lemma_matches_of_insert(&self, pivots: Set<(usize, usize)>, p: (usize, usize))
        ensures
            self.matches_of(pivots.insert(p)) == self.matches_of(pivots).union(
                self.match_set(p.0 as int, p.1 as int),
            ),
    {
        let lhs = self.matches_of(pivots.insert(p));
        let rhs = self.matches_of(pivots).union(self.match_set(p.0 as int, p.1 as int));
        assert forall|q: (usize, usize)| lhs.contains(q) implies rhs.contains(q) by {
            let w = choose|w: (usize, usize)|
                pivots.insert(p).contains(w) && #[trigger] self.match_set(w.0 as int, w.1 as int).contains(q);
            if w != p {
                assert(pivots.contains(w));
            }
        }
        assert forall|q: (usize, usize)| rhs.contains(q) implies lhs.contains(q) by {
            if self.match_set(p.0 as int, p.1 as int).contains(q) {
                assert(pivots.insert(p).contains(p));
            } else {
                let w = choose|w: (usize, usize)|
                    pivots.contains(w) && #[trigger] self.match_set(w.0 as int, w.1 as int).contains(q);
                assert(pivots.insert(p).contains(w));
            }
        }
        assert(lhs =~= rhs);
    }

    /// One pass over the seeds `active_slots`: every seed that `checked` does not
    /// have yet is visited as a pivot. Returns the cells matched from those
    /// pivots; each of them that had no wave gets the wave `iteration`.
    pub fn find_matches(
        &self,
        iteration: usize,
        active_slots: &Vec<GridPosition>,
        checked: &mut Grid<bool>,
        exploding: &mut Grid<usize>,
    ) -> (positions: HashSet<(usize, usize), FixedHasher>)
        requires
            self.wf(),
            all_inside(active_slots@, self.cols(), self.rows()),
            old(checked).wf(),
            old(checked).cols() == self.cols(),
            old(checked).rows() == self.rows(),
            old(exploding).wf(),
            old(exploding).cols() == self.cols(),
            old(exploding).rows() == self.rows(),
        ensures
            final(checked).wf(),
            final(exploding).wf(),
            ticked(*old(checked), cells_of(active_slots@), *final(checked)),
            set_cells(positions) == self.matches_of(Self::fresh_seeds(active_slots@, *old(checked))),
            tagged(
                *old(exploding),
                self.matches_of(Self::fresh_seeds(active_slots@, *old(checked))),
                iteration,
                *final(exploding),
            ),
    {
        let mut positions = cell_set_new();
        let ghost first_checked = *checked;
        let ghost first_exploding = *exploding;
        let mut k: usize = 0;
        assert(self.matches_of(Self::fresh_seeds(active_slots@.take(0), first_checked)) =~= Set::empty());
        while k < active_slots.len()
            invariant
                k <= active_slots.len(),
                self.wf(),
                all_inside(active_slots@, self.cols(), self.rows()),
                checked.wf(),
                exploding.wf(),
                first_checked.cols() == self.cols(),
                first_checked.rows() == self.rows(),
                first_exploding.cols() == self.cols(),
                first_exploding.rows() == self.rows(),
                ticked(first_checked, cells_of(active_slots@.take(k as int)), *checked),
                set_cells(positions) == self.matches_of(
                    Self::fresh_seeds(active_slots@.take(k as int), first_checked),
                ),
                tagged(
                    first_exploding,
                    self.matches_of(Self::fresh_seeds(active_slots@.take(k as int), first_checked)),
                    iteration,
                    *exploding,
                ),
            decreases active_slots.len() - k,
        {
            let slot = active_slots[k];
            let ghost prior_checked = *checked;
            let ghost prior_exploding = *exploding;
            let ghost prefix = active_slots@.take(k as int);
            let ghost longer = active_slots@.take(k + 1);
            let ghost c = slot.cell();
            assert(active_slots@[k as int].x < self.cols());
            self.check_slot(iteration, &slot, checked, exploding, &mut positions);
            proof {
                assert(cells_of(longer) =~= cells_of(prefix).insert(c)) by {
                    assert(longer[k as int].cell() == c);
                    assert forall|d: (usize, usize)| cells_of(prefix).insert(c).contains(d) implies cells_of(
                        longer,
                    ).contains(d) by {
                        if d != c {
                            let i = choose|i: int| 0 <= i < prefix.len() && #[trigger] prefix[i].cell() == d;
                            assert(longer[i].cell() == d);
                        }
                    }
                    assert forall|d: (usize, usize)| cells_of(longer).contains(d) implies cells_of(
                        prefix,
                    ).insert(c).contains(d) by {
                        let i = choose|i: int| 0 <= i < longer.len() && #[trigger] longer[i].cell() == d;
                        if i < k {
                            assert(prefix[i].cell() == d);
                        }
                    }
                }
                let fresh = Self::fresh_seeds(prefix, first_checked);
                let fresh_longer = Self::fresh_seeds(longer, first_checked);
                let seen = prior_checked.cell(c);
                assert(first_checked.holds(c));
                assert(seen == (first_checked.cell(c) || cells_of(prefix).contains(c)));
                if seen {
                    assert(fresh_longer =~= fresh);
                } else {
                    assert(fresh_longer =~= fresh.insert(c));
                    self.lemma_matches_of_insert(fresh, c);
                }
                assert(self.matches_of(fresh_longer) =~= self.matches_of(fresh).union(
                    self.found_at(seen, slot),
                ));
                assert forall|d: (usize, usize)| first_checked.holds(d) implies #[trigger] checked.cell(d)
                    == (first_checked.cell(d) || cells_of(longer).contains(d)) by {
                    assert(prior_checked.holds(d));
                    assert(checked.cell(d) == (prior_checked.cell(d) || set![c].contains(d)));
                }
                assert forall|d: (usize, usize)| first_exploding.holds(d) implies #[trigger] exploding.cell(d)
                    == (if self.matches_of(fresh_longer).contains(d) && first_exploding.cell(d) == 0 {
                    iteration
                } else {
                    first_exploding.cell(d)
                }) by {
                    assert(prior_exploding.holds(d));
                    assert(prior_exploding.cell(d) == (if self.matches_of(fresh).contains(d)
                        && first_exploding.cell(d) == 0 {
                        iteration
                    } else {
                        first_exploding.cell(d)
                    }));
                }
            }
            k += 1;
        }
        assert(active_slots@.take(k as int) =~= active_slots@);
        positions
    }

    /// Number of cells of the board.
    pub fn cell_count(&self) -> (n: usize)
        requires
            self.wf(),
        ensures
            n == self.cols() * self.rows(),
    {
        self.gems.cell_count()
    }

    /// Gives every cell the kind that `kinds` holds for it. The kinds are taken
    /// column by column from the left, and within a column from the bottom. The
    /// cells keep their handles.
    pub fn assign_gems(&mut self, kinds: &Vec<GemType>)
        requires
            old(self).wf(),
            kinds@.len() == old(self).cols() * old(self).rows(),
        ensures
            final(self).wf(),
            final(self).cols() == old(self).cols(),
            final(self).rows() == old(self).rows(),
            forall|x: int, y: int|
                old(self).has(x, y) ==> #[trigger] final(self).gem_at(x, y) == (Gem {
                    gem_type: kinds@[slot(old(self).rows(), x, y)],
                    entity: old(self).gem_at(x, y).entity,
                }),
    {
        let ghost before = *self;
        let width = self.gems.width();
        let height = self.gems.height();
        proof {
            self.lemma_cell_count_fits();
        }
        let mut x: usize = 0;
        while x < width
            invariant
                x <= width,
                width == before.cols(),
                height == before.rows(),
                kinds@.len() == before.cols() * before.rows(),
                before.cols() * before.rows() <= usize::MAX,
                self.wf(),
                self.cols() == before.cols(),
                self.rows() == before.rows(),
                forall|i: int, j: int|
                    before.has(i, j) && i < x ==> #[trigger] self.gem_at(i, j) == (Gem {
                        gem_type: kinds@[slot(before.rows(), i, j)],
                        entity: before.gem_at(i, j).entity,
                    }),
                forall|i: int, j: int| before.has(i, j) && i >= x ==> self.gem_at(i, j) == before.gem_at(i, j),
            decreases width - x,
        {
            let mut y: usize = 0;
            while y < height
                invariant
                    x < width,
                    y <= height,
                    width == before.cols(),
                    height == before.rows(),
                    kinds@.len() == before.cols() * before.rows(),
                    before.cols() * before.rows() <= usize::MAX,
                    self.wf(),
                    self.cols() == before.cols(),
                    self.rows() == before.rows(),
                    forall|i: int, j: int|
                        before.has(i, j) && (i < x || (i == x && j < y)) ==> #[trigger] self.gem_at(i, j) == (Gem {
                            gem_type: kinds@[slot(before.rows(), i, j)],
                            entity: before.gem_at(i, j).entity,
                        }),
                    forall|i: int, j: int|
                        before.has(i, j) && (i > x || (i == x && j >= y)) ==> self.gem_at(i, j)
                            == before.gem_at(i, j),
                decreases height - y,
            {
                proof {
                    lemma_slot_in_range(width as int, height as int, x as int, y as int);
                }
                let kind = kinds[x * height + y];
                self.set(&GridPosition { x, y }, kind);
                y += 1;
            }
            x += 1;
        }
    }

    /// Gives every cell a kind drawn from `rng`, column by column from the left,
    /// and within a column from the bottom. The cells keep their handles.
    pub fn randomize_gems(&mut self, rng: &mut ChaCha8Rng)
        requires
            old(self).wf(),
        ensures
            final(self).wf(),
            final(self).cols() == old(self).cols(),
            final(self).rows() == old(self).rows(),
            forall|x: int, y: int|
                old(self).has(x, y) ==> (#[trigger] final(self).gem_at(x, y)).entity == old(self).gem_at(
                    x,
                    y,
                ).entity,
    {
        let n = self.cell_count();
        let kinds = random_kinds(rng, n);
        self.assign_gems(&kinds);
    }

    /// Whether the pivot at `position` lies in a run of three or more.
    pub fn matches_at(&self, position: &GridPosition) -> (yes: bool)
        requires
            self.wf(),
            self.has(position.x as int, position.y as int),
        ensures
            yes == self.pivot_matches(position.x as int, position.y as int),
    {
        let left = self.span(position.x, position.y, true, false);
        let right = self.span(position.x, position.y, true, true);
        let down = self.span(position.x, position.y, false, false);
        let up = self.span(position.x, position.y, false, true);
        proof {
            self.lemma_shape_fits();
        }
        left + right >= 2 || down + up >= 2
    }

    /// Exchanges what the cells `p` and `t` hold, kind and handle.
    pub fn swap(&mut self, p: &GridPosition, t: &GridPosition)
        requires
            old(self).wf(),
            old(self).has(p.x as int, p.y as int),
            old(self).has(t.x as int, t.y as int),
        ensures
            final(self).wf(),
            final(self).cols() == old(self).cols(),
            final(self).rows() == old(self).rows(),
            final(self).gem_at(p.x as int, p.y as int) == old(self).gem_at(t.x as int, t.y as int),
            final(self).gem_at(t.x as int, t.y as int) == old(self).gem_at(p.x as int, p.y as int),
            forall|i: int, j: int|
                old(self).has(i, j) && !(i == p.x && j == p.y) && !(i == t.x && j == t.y)
                    ==> final(self).gem_at(i, j) == old(self).gem_at(i, j),
    {
        let a = self.gems.get(p.x, p.y);
        let b = self.gems.get(t.x, t.y);
        self.gems.set(p.x, p.y, b);
        self.gems.set(t.x, t.y, a);
    }

    /// An independent copy of the board.
    pub fn duplicate(&self) -> (r: Board)
        requires
            self.wf(),
        ensures
            r.wf(),
            r.same_as(self),
    {
        Board { gems: self.gems.duplicate() }
    }
}

} // verus!
