use crate::trusted::{cell_set_insert, cell_set_new, set_cells};
use bevy::platform::collections::HashSet;
use bevy::platform::hash::FixedHasher;
use vstd::prelude::*;

verus! {

/// A cell of the playing field, by column and row.
#[derive(PartialEq, Eq, Structural, Clone, Copy, Debug, Hash)]
pub struct GridPosition {
    pub x: usize,
    pub y: usize,
}

/// The cells named by a list of positions.
pub open spec fn cells_of(positions: Seq<GridPosition>) -> Set<(usize, usize)> {
    Set::new(
        |c: (usize, usize)| exists|i: int| 0 <= i < positions.len() && #[trigger] positions[i].cell() == c,
    )
}

/// Every position of the list lies inside a field of the given shape.
pub open spec fn all_inside(positions: Seq<GridPosition>, width: int, height: int) -> bool {
    forall|i: int|
        0 <= i < positions.len() ==> (#[trigger] positions[i]).x < width && positions[i].y < height
}

/// Two different cells that touch, by a side or by a corner.
pub open spec fn adjacent(p: (usize, usize), q: (usize, usize)) -> bool {
    &&& p != q
    &&& -1 <= q.0 - p.0 <= 1
    &&& -1 <= q.1 - p.1 <= 1
}

/// The cells of a `width` by `height` field that touch some cell of `cells`.
pub open spec fn neighbours_of(cells: Set<(usize, usize)>, width: int, height: int) -> Set<
    (usize, usize),
> {
    Set::new(
        |q: (usize, usize)|
            q.0 < width && q.1 < height && exists|p: (usize, usize)|
                cells.contains(p) && #[trigger] adjacent(p, q),
    )
}

/// Number of places around a cell.
pub const AROUND: u8 = 8;

/// Step to the `k`-th place around a cell. The places are counted column by
/// column from the left, and within a column from the bottom.
pub open spec fn offset(k: int) -> (int, int) {
    if k == 0 {
        (-1, -1)
    } else if k == 1 {
        (-1, 0)
    } else if k == 2 {
        (-1, 1)
    } else if k == 3 {
        (0, -1)
    } else if k == 4 {
        (0, 1)
    } else if k == 5 {
        (1, -1)
    } else if k == 6 {
        (1, 0)
    } else {
        (1, 1)
    }
}

/// The cell at the `k`-th place around `p`, where the field has one.
pub open spec fn place(p: GridPosition, k: int, width: int, height: int) -> Option<GridPosition> {
    let x = p.x + offset(k).0;
    let y = p.y + offset(k).1;
    if 0 <= x < width && 0 <= y < height && x <= usize::MAX && y <= usize::MAX {
        Some(GridPosition { x: x as usize, y: y as usize })
    } else {
        None
    }
}

/// The cells at the first `k` places around `p`, in the order of the places.
pub open spec fn places(p: GridPosition, k: nat, width: int, height: int) -> Seq<GridPosition>
    decreases k,
{
    if k == 0 {
        Seq::empty()
    } else {
        match place(p, k - 1, width, height) {
            Some(q) => places(p, (k - 1) as nat, width, height).push(q),
            None => places(p, (k - 1) as nat, width, height),
        }
    }
}

/// Moves `v` by `step - 1`, where the result is below `limit`.
fn nudge(v: usize, step: u8, limit: usize) -> (r: Option<usize>)
    requires
        step <= 2,
    ensures
        r == (if 0 <= v + step - 1 < limit {
            Some((v + step - 1) as usize)
        } else {
            None
        }),
{
    if step == 0 {
        if v == 0 || v - 1 >= limit {
            None
        } else {
            Some(v - 1)
        }
    } else if step == 1 {
        if v < limit {
            Some(v)
        } else {
            None
        }
    } else {
        if v < usize::MAX && v + 1 < limit {
            Some(v + 1)
        } else {
            None
        }
    }
}

impl GridPosition {
    /// The position as a pair of coordinates.
    pub open spec fn cell(self) -> (usize, usize) {
        (self.x, self.y)
    }

    /// The cell at the `k`-th place around `self` in a `width` by `height`
    /// field, if the field has one there.
    pub fn neighbour(&self, k: u8, width: usize, height: usize) -> (r: Option<GridPosition>)
        requires
            k < AROUND,
        ensures
            r == place(*self, k as int, width as int, height as int),
    {
        let column: u8 = if k < 3 {
            0
        } else if k < 5 {
            1
        } else {
            2
        };
        let row: u8 = if k == 0 || k == 3 || k == 5 {
            0
        } else if k == 1 || k == 6 {
            1
        } else {
            2
        };
        match nudge(self.x, column, width) {
            None => None,
            Some(x) => match nudge(self.y, row, height) {
                None => None,
                Some(y) => Some(GridPosition { x, y }),
            },
        }
    }

    /// The cells around `self` that a `width` by `height` field has, in the
    /// order of the places.
    pub fn neighbours(&self, width: usize, height: usize) -> (r: Vec<GridPosition>)
        ensures
            r@ == places(*self, AROUND as nat, width as int, height as int),
    {
        let mut r: Vec<GridPosition> = Vec::new();
        let mut k: u8 = 0;
        while k < AROUND
            invariant
                k <= AROUND,
                r@ == places(*self, k as nat, width as int, height as int),
            decreases AROUND - k,
        {
            match self.neighbour(k, width, height) {
                Some(q) => {
                    r.push(q);
                },
                None => {},
            }
            k += 1;
        }
        r
    }

    /// The cells of a `width` by `height` field that touch some cell of
    /// `to_check`.
    pub fn surroundings(to_check: &Vec<GridPosition>, width: usize, height: usize) -> (positions:
        HashSet<(usize, usize), FixedHasher>)
        ensures
            set_cells(positions) == neighbours_of(cells_of(to_check@), width as int, height as int),
    {
        let mut positions = cell_set_new();
        let mut i: usize = 0;
        assert(neighbours_of(cells_of(to_check@.take(0)), width as int, height as int) =~= Set::empty());
        while i < to_check.len()
            invariant
                i <= to_check.len(),
                set_cells(positions) == neighbours_of(
                    cells_of(to_check@.take(i as int)),
                    width as int,
                    height as int,
                ),
            decreases to_check.len() - i,
        {
            let slot = to_check[i];
            let around = slot.neighbours(width, height);
            let ghost base = set_cells(positions);
            let mut k: usize = 0;
            while k < around.len()
                invariant
                    k <= around.len(),
                    set_cells(positions) == base.union(cells_of(around@.take(k as int))),
                decreases around.len() - k,
            {
                let q = around[k];
                cell_set_insert(&mut positions, q.x, q.y);
                proof {
                    lemma_cells_of_push(around@.take(k as int), q);
                    assert(around@.take(k + 1) =~= around@.take(k as int).push(q));
                }
                k += 1;
            }
            proof {
                assert(around@.take(k as int) =~= around@);
                lemma_places_touch(slot, width as int, height as int);
                lemma_cells_of_push(to_check@.take(i as int), slot);
                assert(to_check@.take(i + 1) =~= to_check@.take(i as int).push(slot));
                lemma_neighbours_of_insert(
                    cells_of(to_check@.take(i as int)),
                    slot.cell(),
                    width as int,
                    height as int,
                );
            }
            i += 1;
        }
        assert(to_check@.take(i as int) =~= to_check@);
        positions
    }
}

/// A list with one more position names one more cell.
pub proof fn lemma_cells_of_push(positions: Seq<GridPosition>, p: GridPosition)
    ensures
        cells_of(positions.push(p)) == cells_of(positions).insert(p.cell()),
{
    let longer = positions.push(p);
    assert forall|d: (usize, usize)| cells_of(positions).insert(p.cell()).contains(d) implies cells_of(
        longer,
    ).contains(d) by {
        if d == p.cell() {
            assert(longer[positions.len() as int].cell() == d);
        } else {
            let i = choose|i: int| 0 <= i < positions.len() && #[trigger] positions[i].cell() == d;
            assert(longer[i].cell() == d);
        }
    }
    assert forall|d: (usize, usize)| cells_of(longer).contains(d) implies cells_of(positions).insert(
        p.cell(),
    ).contains(d) by {
        let i = choose|i: int| 0 <= i < longer.len() && #[trigger] longer[i].cell() == d;
        if i < positions.len() {
            assert(positions[i].cell() == d);
        }
    }
    assert(cells_of(longer) =~= cells_of(positions).insert(p.cell()));
}

/// The places around a cell are the cells of the field that touch it.
pub proof fn lemma_places_touch(p: GridPosition, width: int, height: int)
    requires
        0 <= width <= usize::MAX,
        0 <= height <= usize::MAX,
    ensures
        cells_of(places(p, AROUND as nat, width, height)) == neighbours_of(set![p.cell()], width, height),
{
    reveal_with_fuel(places, 9);
    let all = places(p, 8, width, height);
    let target = neighbours_of(set![p.cell()], width, height);
    assert forall|d: (usize, usize)| cells_of(all).contains(d) implies target.contains(d) by {
        let i = choose|i: int| 0 <= i < all.len() && #[trigger] all[i].cell() == d;
        lemma_places_are_places(p, 8, width, height, i);
        assert(adjacent(p.cell(), d));
    }
    assert forall|d: (usize, usize)| target.contains(d) implies cells_of(all).contains(d) by {
        let w = choose|w: (usize, usize)| set![p.cell()].contains(w) && #[trigger] adjacent(w, d);
        assert(w == p.cell());
        let dx = d.0 - p.x;
        let dy = d.1 - p.y;
        let k: int = if dx == -1 {
            dy + 1
        } else if dx == 0 {
            if dy == -1 {
                3
            } else {
                4
            }
        } else {
            dy + 6
        };
        assert(offset(k) == (dx, dy));
        assert(place(p, k, width, height) == Some(GridPosition { x: d.0, y: d.1 }));
        lemma_place_is_listed(p, 8, width, height, k);
    }
    assert(cells_of(all) =~= target);
}

/// Every cell of the list of places lies on the field.
pub proof fn lemma_places_inside(p: GridPosition, k: nat, width: int, height: int, i: int)
    requires
        0 <= i < places(p, k, width, height).len(),
    ensures
        0 <= places(p, k, width, height)[i].x < width,
        0 <= places(p, k, width, height)[i].y < height,
{
    lemma_places_are_places(p, k, width, height, i);
}

/// Every entry of the list of places is the cell at one of the places.
proof fn lemma_places_are_places(p: GridPosition, k: nat, width: int, height: int, i: int)
    requires
        0 <= i < places(p, k, width, height).len(),
    ensures
        exists|j: int| 0 <= j < k && place(p, j, width, height) == Some(places(p, k, width, height)[i]),
    decreases k,
{
    if k > 0 {
        let rest = places(p, (k - 1) as nat, width, height);
        if i < rest.len() {
            lemma_places_are_places(p, (k - 1) as nat, width, height, i);
            let j = choose|j: int| 0 <= j < k - 1 && place(p, j, width, height) == Some(rest[i]);
            assert(place(p, j, width, height) == Some(places(p, k, width, height)[i]));
        } else {
            assert(place(p, k - 1, width, height) == Some(places(p, k, width, height)[i]));
        }
    }
}

/// The cell at a place is in the list of places.
proof fn lemma_place_is_listed(p: GridPosition, k: nat, width: int, height: int, j: int)
    requires
        0 <= j < k,
        place(p, j, width, height).is_some(),
    ensures
        cells_of(places(p, k, width, height)).contains(place(p, j, width, height).unwrap().cell()),
    decreases k,
{
    let all = places(p, k, width, height);
    let rest = places(p, (k - 1) as nat, width, height);
    let q = place(p, j, width, height).unwrap();
    if j == k - 1 {
        assert(all[all.len() - 1] == q);
        assert(all[all.len() - 1].cell() == q.cell());
    } else {
        lemma_place_is_listed(p, (k - 1) as nat, width, height, j);
        let i = choose|i: int| 0 <= i < rest.len() && #[trigger] rest[i].cell() == q.cell();
        assert(all[i].cell() == q.cell());
    }
}

/// Adding a cell adds the cells that touch it.
pub proof fn lemma_neighbours_of_insert(cells: Set<(usize, usize)>, p: (usize, usize), width: int, height: int)
    ensures
        neighbours_of(cells.insert(p), width, height) == neighbours_of(cells, width, height).union(
            neighbours_of(set![p], width, height),
        ),
{
    let lhs = neighbours_of(cells.insert(p), width, height);
    let rhs = neighbours_of(cells, width, height).union(neighbours_of(set![p], width, height));
    assert forall|q: (usize, usize)| lhs.contains(q) implies rhs.contains(q) by {
        let w = choose|w: (usize, usize)| cells.insert(p).contains(w) && #[trigger] adjacent(w, q);
        if w == p {
            assert(set![p].contains(w));
        } else {
            assert(cells.contains(w));
        }
    }
    assert forall|q: (usize, usize)| rhs.contains(q) implies lhs.contains(q) by {
        if neighbours_of(cells, width, height).contains(q) {
            let w = choose|w: (usize, usize)| cells.contains(w) && #[trigger] adjacent(w, q);
            assert(cells.insert(p).contains(w));
        } else {
            let w = choose|w: (usize, usize)| set![p].contains(w) && #[trigger] adjacent(w, q);
            assert(cells.insert(p).contains(w));
        }
    }
    assert(lhs =~= rhs);
}

} // verus!
