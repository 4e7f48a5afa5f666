use crate::actions::{MoveDirection, NextMove, Orientation};
use crate::player::GridPosition;
use crate::trusted::{random_below, random_coin};
use bevy_rand::prelude::ChaCha8Rng;
use vstd::prelude::*;

verus! {

/// Where segment `i` of a freshly laid snake faces: the first faces up, and each
/// next one has made the turn of the one before it.
pub open spec fn facing_at(turns: Seq<MoveDirection>, i: nat) -> Orientation
    decreases i,
{
    if i == 0 {
        Orientation::Up
    } else {
        facing_at(turns, (i - 1) as nat).turned(turns[i - 1])
    }
}

/// The cell of segment `i` of a freshly laid snake: the first lies in the middle
/// of the field, and each next one lies one step ahead of the one before it,
/// the way it faces itself.
pub open spec fn cell_at(turns: Seq<MoveDirection>, i: nat, width: usize, height: usize) -> GridPosition
    decreases i,
{
    if i == 0 {
        GridPosition { x: width / 2, y: height / 2 }
    } else {
        facing_at(turns, i).ahead(cell_at(turns, (i - 1) as nat, width, height), width, height)
    }
}

/// Lays a snake out from its tail on: one segment for every turn of `turns`,
/// each with the way it faces, its turn and its cell.
pub fn lay_out(turns: &Vec<MoveDirection>, width: usize, height: usize) -> (placements: Vec<
    (Orientation, MoveDirection, GridPosition),
>)
    requires
        width > 0,
        height > 0,
    ensures
        placements@.len() == turns@.len(),
        forall|i: int|
            0 <= i < turns@.len() ==> #[trigger] placements@[i] == (
                facing_at(turns@, i as nat),
                turns@[i],
                cell_at(turns@, i as nat, width, height),
            ),
{
    let mut placements: Vec<(Orientation, MoveDirection, GridPosition)> = Vec::new();
    let mut next_orientation = Orientation::Up;
    let mut next_grid_position = GridPosition { x: width / 2, y: height / 2 };
    let mut i: usize = 0;
    while i < turns.len()
        invariant
            i <= turns@.len(),
            width > 0,
            height > 0,
            placements@.len() == i,
            next_orientation == facing_at(turns@, i as nat),
            next_grid_position == cell_at(turns@, i as nat, width, height),
            next_grid_position.x < width,
            next_grid_position.y < height,
            forall|k: int|
                0 <= k < i ==> #[trigger] placements@[k] == (
                    facing_at(turns@, k as nat),
                    turns@[k],
                    cell_at(turns@, k as nat, width, height),
                ),
        decreases turns@.len() - i,
    {
        let direction = turns[i];
        placements.push((next_orientation, direction, next_grid_position));
        next_orientation.next(&NextMove(direction));
        next_grid_position = next_orientation.next_position(&next_grid_position, width, height);
        i += 1;
    }
    placements
}

/// The turns of a snake with at most two bends, at the segments `first` and
/// `second`.
pub open spec fn bends_at(turns: Seq<MoveDirection>, first: int, second: int) -> bool {
    forall|i: int|
        0 <= i < turns.len() ==> ((#[trigger] turns[i]) != MoveDirection::Straight <==> (i == first || i
            == second))
}

/// Turns for a snake of `length` segments: straight but for the bends at two
/// segments drawn from `rng`, neither of them the last segment; which way each
/// bend goes is drawn from `rng` too.
pub fn random_turns(length: u8, rng: &mut ChaCha8Rng) -> (turns: Vec<MoveDirection>)
    requires
        length >= 2,
    ensures
        turns@.len() == length,
        exists|first: int, second: int|
            0 <= first < length - 1 && 0 <= second < length - 1 && #[trigger] bends_at(turns@, first, second),
{
    let first = random_below(rng, length - 1);
    let second = random_below(rng, length - 1);
    let mut turns: Vec<MoveDirection> = Vec::new();
    let mut i: u8 = 0;
    while i < length
        invariant
            i <= length,
            turns@.len() == i,
            forall|k: int|
                0 <= k < i ==> ((#[trigger] turns@[k]) != MoveDirection::Straight <==> (k == first || k
                    == second)),
        decreases length - i,
    {
        let direction = if i == first || i == second {
            if random_coin(rng) {
                MoveDirection::Left
            } else {
                MoveDirection::Right
            }
        } else {
            MoveDirection::Straight
        };
        turns.push(direction);
        i += 1;
    }
    assert(bends_at(turns@, first as int, second as int));
    turns
}

/// A snake of `length` segments laid out from the middle of the field, with at
/// most two bends drawn from `rng`.
pub fn random_placement(length: u8, rng: &mut ChaCha8Rng, width: usize, height: usize) -> (placements:
    Vec<(Orientation, MoveDirection, GridPosition)>)
    requires
        length >= 2,
        width > 0,
        height > 0,
    ensures
        placements@.len() == length,
        exists|turns: Seq<MoveDirection>, first: int, second: int|
            {
                &&& turns.len() == length
                &&& 0 <= first < length - 1
                &&& 0 <= second < length - 1
                &&& #[trigger] bends_at(turns, first, second)
                &&& forall|i: int|
                    0 <= i < length ==> #[trigger] placements@[i] == (
                        facing_at(turns, i as nat),
                        turns[i],
                        cell_at(turns, i as nat, width, height),
                    )
            },
{
    let turns = random_turns(length, rng);
    lay_out(&turns, width, height)
}

} // verus!
