use crate::grid::Grid;
use crate::player::GridPosition;
use vstd::prelude::*;

verus! {

/// How a cell is shown, by the number of body segments on it.
#[derive(PartialEq, Eq, Structural, Clone, Copy, Debug)]
pub enum CellMark {
    /// No segment lies on the cell.
    Free,
    /// One segment lies on the cell.
    Taken,
    /// Segments lie on one another.
    Collision,
}

/// For every cell the number of body segments of the snake that lie on it; the
/// head is not counted.
pub struct SnakePositions {
    counts: Grid<usize>,
}

/// The positions that the snake takes up, head and body.
pub struct ActivePositions(pub Vec<GridPosition>);

impl ActivePositions {
    /// Takes over the positions of the snake as they are now.
    pub fn update_active(&mut self, snake: &Vec<GridPosition>)
        ensures
            final(self).0@ == snake@,
    {
        self.0.clear();
        let mut i: usize = 0;
        while i < snake.len()
            invariant
                i <= snake@.len(),
                self.0@ == snake@.take(i as int),
            decreases snake@.len() - i,
        {
            self.0.push(snake[i]);
            assert(snake@.take(i + 1) =~= snake@.take(i as int).push(snake@[i as int]));
            i += 1;
        }
        assert(snake@.take(i as int) =~= snake@);
    }
}

impl SnakePositions {
    /// There is exactly one count for every cell.
    pub closed spec fn wf(&self) -> bool {
        self.counts.wf()
    }

    /// Number of columns.
    pub closed spec fn cols(&self) -> int {
        self.counts.cols()
    }

    /// Number of rows.
    pub closed spec fn rows(&self) -> int {
        self.counts.rows()
    }

    /// Whether `position` is a cell of the field.
    pub open spec fn has(&self, position: GridPosition) -> bool {
        position.x < self.cols() && position.y < self.rows()
    }

    /// Number of body segments on the cell at `position`.
    pub closed spec fn count_at(&self, position: GridPosition) -> usize {
        self.counts.at(position.x as int, position.y as int)
    }

    /// A field of the given shape with no segment on any cell; `None` when the
    /// number of cells does not fit the machine word.
    pub fn new(width: usize, height: usize) -> (r: Option<SnakePositions>)
        ensures
            r.is_some() <==> width * height <= usize::MAX,
            r matches Some(p) ==> {
                &&& p.wf()
                &&& p.cols() == width
                &&& p.rows() == height
                &&& forall|c: GridPosition| p.has(c) ==> #[trigger] p.count_at(c) == 0
            },
    {
        match Grid::filled(width, height, 0usize) {
            Some(counts) => Some(SnakePositions { counts }),
            None => None,
        }
    }

    /// A body segment has come to lie on the cell at `position`.
    pub fn on_grid_position_insert(&mut self, position: &GridPosition)
        requires
            old(self).wf(),
            old(self).has(*position),
            old(self).count_at(*position) < usize::MAX,
        ensures
            final(self).wf(),
            final(self).cols() == old(self).cols(),
            final(self).rows() == old(self).rows(),
            final(self).count_at(*position) == old(self).count_at(*position) + 1,
            forall|c: GridPosition|
                old(self).has(c) && c != *position ==> #[trigger] final(self).count_at(c) == old(self).count_at(c),
    {
        let n = self.counts.get(position.x, position.y);
        self.counts.set(position.x, position.y, n + 1);
    }

    /// A body segment has left the cell at `position`. Where none was counted
    /// there, nothing changes.
    pub fn on_grid_position_replaced(&mut self, position: &GridPosition)
        requires
            old(self).wf(),
            old(self).has(*position),
        ensures
            final(self).wf(),
            final(self).cols() == old(self).cols(),
            final(self).rows() == old(self).rows(),
            final(self).count_at(*position) == (if old(self).count_at(*position) == 0 {
                0
            } else {
                old(self).count_at(*position) - 1
            }),
            forall|c: GridPosition|
                old(self).has(c) && c != *position ==> #[trigger] final(self).count_at(c) == old(self).count_at(c),
    {
        let n = self.counts.get(position.x, position.y);
        if n > 0 {
            self.counts.set(position.x, position.y, n - 1);
        }
    }

    /// Whether the head at `head` lies on a body segment: the snake has run
    /// into itself.
    pub fn check_collisions(&self, head: &GridPosition) -> (collides: bool)
        requires
            self.wf(),
            self.has(*head),
        ensures
            collides == (self.count_at(*head) > 0),
    {
        self.counts.get(head.x, head.y) > 0
    }

    /// How the cell at `position` is shown.
    pub fn mark_taken(&self, position: &GridPosition) -> (mark: CellMark)
        requires
            self.wf(),
            self.has(*position),
        ensures
            mark == (if self.count_at(*position) == 0 {
                CellMark::Free
            } else if self.count_at(*position) == 1 {
                CellMark::Taken
            } else {
                CellMark::Collision
            }),
    {
        let n = self.counts.get(position.x, position.y);
        if n == 0 {
            CellMark::Free
        } else if n == 1 {
            CellMark::Taken
        } else {
            CellMark::Collision
        }
    }
}

} // verus!
