use vstd::prelude::*;

verus! {

/// Width of the playing field the game is shipped with.
pub const GRID_WIDTH: usize = 16;

/// Height of the playing field the game is shipped with.
pub const GRID_HEIGHT: usize = 10;

/// Index of cell `(x, y)` in column-major storage with columns of `height` cells.
pub open spec fn slot(height: int, x: int, y: int) -> int {
    x * height + y
}

/// Every cell of the field has an index in the storage.
pub proof fn lemma_slot_in_range(width: int, height: int, x: int, y: int)
    requires
        0 <= x < width,
        0 <= y < height,
    ensures
        0 <= x * height,
        0 <= slot(height, x, y) < width * height,
{
    assert(0 <= x * height && x * height + height <= width * height) by (nonlinear_arith)
        requires
            0 <= x < width,
            0 < height,
    ;
}

/// Two cells with one index are one cell.
pub proof fn lemma_slot_injective(height: int, x1: int, y1: int, x2: int, y2: int)
    requires
        0 <= y1 < height,
        0 <= y2 < height,
        slot(height, x1, y1) == slot(height, x2, y2),
    ensures
        x1 == x2,
        y1 == y2,
{
    assert(x1 == x2) by (nonlinear_arith)
        requires
            0 <= y1 < height,
            0 <= y2 < height,
            x1 * height + y1 == x2 * height + y2,
    ;
}

/// A rectangular field of `width` columns and `height` rows holding one value per cell.
/// Cell `(0, 0)` is the bottom-left corner; `y` grows upwards.
pub struct Grid<T> {
    width: usize,
    height: usize,
    cells: Vec<T>,
}

impl<T: Copy> Grid<T> {
    /// The storage holds exactly one value for every cell.
    pub closed spec fn wf(&self) -> bool {
        &&& self.cells@.len() == self.width as int * self.height as int
        &&& self.cells@.len() <= usize::MAX
    }

    /// Number of columns.
    pub closed spec fn cols(&self) -> int {
        self.width as int
    }

    /// Number of rows.
    pub closed spec fn rows(&self) -> int {
        self.height as int
    }

    /// Whether `(x, y)` names a cell of the field. The field does not wrap.
    pub open spec fn has(&self, x: int, y: int) -> bool {
        0 <= x < self.cols() && 0 <= y < self.rows()
    }

    /// The value held by cell `(x, y)`.
    pub closed spec fn at(&self, x: int, y: int) -> T {
        self.cells@[slot(self.height as int, x, y)]
    }

    /// Whether the pair `c` names a cell of the field.
    pub open spec fn holds(&self, c: (usize, usize)) -> bool {
        self.has(c.0 as int, c.1 as int)
    }

    /// The value held by the cell that the pair `c` names.
    pub open spec fn cell(&self, c: (usize, usize)) -> T {
        self.at(c.0 as int, c.1 as int)
    }

    /// Two fields of the same shape holding the same value in every cell.
    pub open spec fn same_as(&self, other: &Grid<T>) -> bool {
        &&& self.cols() == other.cols()
        &&& self.rows() == other.rows()
        &&& forall|x: int, y: int| self.has(x, y) ==> self.at(x, y) == other.at(x, y)
    }

    /// A field of the given shape with `value` in every cell, or `None` when the
    /// number of cells does not fit the machine word.
    pub fn filled(width: usize, height: usize, value: T) -> (r: Option<Grid<T>>)
        ensures
            r.is_some() <==> width * height <= usize::MAX,
            r matches Some(g) ==> {
                &&& g.wf()
                &&& g.cols() == width
                &&& g.rows() == height
                &&& forall|x: int, y: int| g.has(x, y) ==> g.at(x, y) == value
            },
    {
        match width.checked_mul(height) {
            None => None,
            Some(n) => {
                let mut cells: Vec<T> = Vec::new();
                let mut i: usize = 0;
                while i < n
                    invariant
                        i <= n,
                        cells@.len() == i,
                        forall|k: int| 0 <= k < i ==> cells@[k] == value,
                    decreases n - i,
                {
                    cells.push(value);
                    i += 1;
                }
                let g = Grid { width, height, cells };
                proof {
                    assert forall|x: int, y: int| g.has(x, y) implies g.at(x, y) == value by {
                        lemma_slot_in_range(width as int, height as int, x, y);
                    }
                }
                Some(g)
            },
        }
    }

    /// Both sides of the field fit the machine word.
    pub proof fn lemma_shape_fits(&self)
        ensures
            0 <= self.cols() <= usize::MAX,
            0 <= self.rows() <= usize::MAX,
    {
    }

    /// A well-formed field has a number of cells that fits the machine word.
    pub proof fn lemma_cell_count_fits(&self)
        requires
            self.wf(),
        ensures
            0 <= self.cols() * self.rows() <= usize::MAX,
    {
    }

    /// Number of cells of the field.
    pub fn cell_count(&self) -> (n: usize)
        requires
            self.wf(),
        ensures
            n == self.cols() * self.rows(),
    {
        self.cells.len()
    }

    /// Number of columns.
    pub fn width(&self) -> (w: usize)
        ensures
            w == self.cols(),
    {
        self.width
    }

    /// Number of rows.
    pub fn height(&self) -> (h: usize)
        ensures
            h == self.rows(),
    {
        self.height
    }

    /// Whether `(x, y)` names a cell of the field.
    pub fn in_bounds(&self, x: usize, y: usize) -> (b: bool)
        ensures
            b == self.has(x as int, y as int),
    {
        x < self.width && y < self.height
    }

    /// The value held by cell `(x, y)`.
    pub fn get(&self, x: usize, y: usize) -> (v: T)
        requires
            self.wf(),
            self.has(x as int, y as int),
        ensures
            v == self.at(x as int, y as int),
    {
        proof {
            lemma_slot_in_range(self.width as int, self.height as int, x as int, y as int);
        }
        self.cells[x * self.height + y]
    }

    /// Puts `value` into cell `(x, y)`; every other cell keeps its value.
    pub fn set(&mut self, x: usize, y: usize, value: T)
        requires
            old(self).wf(),
            old(self).has(x as int, y as int),
        ensures
            final(self).wf(),
            final(self).cols() == old(self).cols(),
            final(self).rows() == old(self).rows(),
            final(self).at(x as int, y as int) == value,
            forall|i: int, j: int|
                old(self).has(i, j) && !(i == x && j == y) ==> final(self).at(i, j) == old(self).at(
                    i,
                    j,
                ),
    {
        proof {
            lemma_slot_in_range(self.width as int, self.height as int, x as int, y as int);
        }
        let ghost before = *self;
        self.cells.set(x * self.height + y, value);
        proof {
            assert forall|i: int, j: int|
                before.has(i, j) && !(i == x && j == y) implies self.at(i, j) == before.at(
                i,
                j,
            ) by {
                lemma_slot_in_range(self.width as int, self.height as int, i, j);
                if slot(self.height as int, i, j) == slot(self.height as int, x as int, y as int) {
                    lemma_slot_injective(self.height as int, i, j, x as int, y as int);
                }
            }
        }
    }

    /// An independent copy of the field.
    pub fn duplicate(&self) -> (r: Grid<T>)
        requires
            self.wf(),
        ensures
            r.wf(),
            r.same_as(self),
    {
        let mut cells: Vec<T> = Vec::new();
        let n = self.cells.len();
        let mut i: usize = 0;
        while i < n
            invariant
                n == self.cells@.len(),
                i <= n,
                cells@.len() == i,
                forall|k: int| 0 <= k < i ==> cells@[k] == self.cells@[k],
            decreases n - i,
        {
            cells.push(self.cells[i]);
            i += 1;
        }
        let r = Grid { width: self.width, height: self.height, cells };
        proof {
            assert forall|x: int, y: int| r.has(x, y) implies r.at(x, y) == self.at(x, y) by {
                lemma_slot_in_range(self.width as int, self.height as int, x, y);
            }
        }
        r
    }
}

/// The cell whose index in the storage is `i`, where columns have `height`
/// cells.
pub open spec fn cell_at_slot(height: int, i: int) -> (usize, usize) {
    ((i / height) as usize, (i % height) as usize)
}

/// The cell at the index of a cell is that cell.
pub proof fn lemma_cell_at_slot(width: int, height: int, c: (usize, usize))
    requires
        c.0 < width,
        c.1 < height,
    ensures
        0 <= slot(height, c.0 as int, c.1 as int) < width * height,
        cell_at_slot(height, slot(height, c.0 as int, c.1 as int)) == c,
{
    lemma_slot_in_range(width, height, c.0 as int, c.1 as int);
    vstd::arithmetic::div_mod::lemma_fundamental_div_mod_converse(
        slot(height, c.0 as int, c.1 as int),
        height,
        c.0 as int,
        c.1 as int,
    );
}

/// Number of `true` entries of `s`.
pub open spec fn count_true(s: Seq<bool>) -> nat
    decreases s.len(),
{
    if s.len() == 0 {
        0
    } else {
        count_true(s.drop_last()) + (if s.last() {
            1nat
        } else {
            0nat
        })
    }
}

/// No more entries are `true` than there are entries.
pub proof fn lemma_count_at_most_len(s: Seq<bool>)
    ensures
        count_true(s) <= s.len(),
    decreases s.len(),
{
    if s.len() > 0 {
        lemma_count_at_most_len(s.drop_last());
    }
}

/// A sequence that is `true` wherever another is has at least as many `true`
/// entries.
pub proof fn lemma_count_monotone(a: Seq<bool>, b: Seq<bool>)
    requires
        a.len() == b.len(),
        forall|i: int| 0 <= i < a.len() ==> (a[i] ==> b[i]),
    ensures
        count_true(a) <= count_true(b),
    decreases a.len(),
{
    if a.len() > 0 {
        lemma_count_monotone(a.drop_last(), b.drop_last());
    }
}

/// Clearing one `true` entry takes one from the count.
pub proof fn lemma_count_clear(s: Seq<bool>, i: int)
    requires
        0 <= i < s.len(),
        s[i],
    ensures
        count_true(s) == count_true(s.update(i, false)) + 1,
    decreases s.len(),
{
    if i == s.len() - 1 {
        assert(s.update(i, false).drop_last() =~= s.drop_last());
    } else {
        lemma_count_clear(s.drop_last(), i);
        assert(s.update(i, false).drop_last() =~= s.drop_last().update(i, false));
    }
}

} // verus!
