use crate::player::GridPosition;
use vstd::prelude::*;

verus! {

/// The way a segment of the snake faces.
#[derive(PartialEq, Eq, Structural, Clone, Copy, Debug)]
pub enum Orientation {
    Up,
    Right,
    Down,
    Left,
}

/// The turn a segment makes with its next step.
#[derive(PartialEq, Eq, Structural, Clone, Copy, Debug)]
pub enum MoveDirection {
    Left,
    Straight,
    Right,
}

/// The turn that a segment has been told to make.
#[derive(PartialEq, Eq, Structural, Clone, Copy, Debug)]
pub struct NextMove(pub MoveDirection);

/// The cell one step before `v` on a ring of `size` cells.
pub open spec fn ring_back(v: usize, size: usize) -> usize {
    if v == 0 {
        (size - 1) as usize
    } else {
        (v - 1) as usize
    }
}

/// The cell one step after `v` on a ring of `size` cells.
pub open spec fn ring_on(v: usize, size: usize) -> usize {
    if v + 1 == size {
        0
    } else {
        (v + 1) as usize
    }
}

fn step_back(v: usize, size: usize) -> (r: usize)
    requires
        v < size,
    ensures
        r == ring_back(v, size),
        r < size,
{
    if v == 0 {
        size - 1
    } else {
        v - 1
    }
}

fn step_on(v: usize, size: usize) -> (r: usize)
    requires
        v < size,
    ensures
        r == ring_on(v, size),
        r < size,
{
    if v + 1 == size {
        0
    } else {
        v + 1
    }
}

impl NextMove {
    /// The turn in quarters of a full turn, counted against the clock.
    pub open spec fn quarters(self) -> int {
        match self.0 {
            MoveDirection::Straight => 0,
            MoveDirection::Right => -1,
            MoveDirection::Left => 1,
        }
    }

    /// The turn in quarters of a full turn, counted against the clock.
    pub fn quarter_turns(&self) -> (q: i8)
        ensures
            q == self.quarters(),
    {
        match self.0 {
            MoveDirection::Straight => 0,
            MoveDirection::Right => -1,
            MoveDirection::Left => 1,
        }
    }
}

impl Orientation {
    /// The orientation after the turn `turn`.
    pub open spec fn turned(self, turn: MoveDirection) -> Orientation {
        match turn {
            MoveDirection::Straight => self,
            MoveDirection::Left => match self {
                Orientation::Up => Orientation::Left,
                Orientation::Left => Orientation::Down,
                Orientation::Down => Orientation::Right,
                Orientation::Right => Orientation::Up,
            },
            MoveDirection::Right => match self {
                Orientation::Up => Orientation::Right,
                Orientation::Right => Orientation::Down,
                Orientation::Down => Orientation::Left,
                Orientation::Left => Orientation::Up,
            },
        }
    }

    /// The step of one cell that the orientation stands for, by column and row.
    pub open spec fn step(self) -> (int, int) {
        match self {
            Orientation::Up => (0, 1),
            Orientation::Right => (1, 0),
            Orientation::Down => (0, -1),
            Orientation::Left => (-1, 0),
        }
    }

    /// The cell one step ahead of `position` on a field that wraps round on all
    /// four sides.
    pub open spec fn ahead(self, position: GridPosition, width: usize, height: usize) -> GridPosition {
        match self {
            Orientation::Up => GridPosition { x: position.x, y: ring_on(position.y, height) },
            Orientation::Right => GridPosition { x: ring_on(position.x, width), y: position.y },
            Orientation::Down => GridPosition { x: position.x, y: ring_back(position.y, height) },
            Orientation::Left => GridPosition { x: ring_back(position.x, width), y: position.y },
        }
    }

    /// The cell one step behind `position` on a field that wraps round on all
    /// four sides.
    pub open spec fn behind(self, position: GridPosition, width: usize, height: usize) -> GridPosition {
        match self {
            Orientation::Down => GridPosition { x: position.x, y: ring_on(position.y, height) },
            Orientation::Left => GridPosition { x: ring_on(position.x, width), y: position.y },
            Orientation::Up => GridPosition { x: position.x, y: ring_back(position.y, height) },
            Orientation::Right => GridPosition { x: ring_back(position.x, width), y: position.y },
        }
    }

    /// Makes the turn that `next` tells.
    pub fn next(&mut self, next: &NextMove)
        ensures
            *final(self) == old(self).turned(next.0),
    {
        match next.0 {
            MoveDirection::Straight => (),
            MoveDirection::Left => match self {
                Orientation::Up => *self = Orientation::Left,
                Orientation::Left => *self = Orientation::Down,
                Orientation::Down => *self = Orientation::Right,
                Orientation::Right => *self = Orientation::Up,
            },
            MoveDirection::Right => match self {
                Orientation::Up => *self = Orientation::Right,
                Orientation::Right => *self = Orientation::Down,
                Orientation::Down => *self = Orientation::Left,
                Orientation::Left => *self = Orientation::Up,
            },
        }
    }

    /// The step of one cell that the orientation stands for, by column and row.
    pub fn direction(&self) -> (d: (i8, i8))
        ensures
            d.0 == self.step().0,
            d.1 == self.step().1,
    {
        match self {
            Orientation::Up => (0, 1),
            Orientation::Right => (1, 0),
            Orientation::Down => (0, -1),
            Orientation::Left => (-1, 0),
        }
    }

    /// The cell one step ahead of `position`; the field wraps round.
    pub fn next_position(&self, position: &GridPosition, width: usize, height: usize) -> (next:
        GridPosition)
        requires
            position.x < width,
            position.y < height,
        ensures
            next == self.ahead(*position, width, height),
            next.x < width,
            next.y < height,
    {
        match self {
            Orientation::Up => GridPosition { x: position.x, y: step_on(position.y, height) },
            Orientation::Right => GridPosition { x: step_on(position.x, width), y: position.y },
            Orientation::Down => GridPosition { x: position.x, y: step_back(position.y, height) },
            Orientation::Left => GridPosition { x: step_back(position.x, width), y: position.y },
        }
    }

    /// The cell one step behind `position`; the field wraps round.
    pub fn previous_position(&self, position: &GridPosition, width: usize, height: usize) -> (previous:
        GridPosition)
        requires
            position.x < width,
            position.y < height,
        ensures
            previous == self.behind(*position, width, height),
            previous.x < width,
            previous.y < height,
    {
        match self {
            Orientation::Down => GridPosition { x: position.x, y: step_on(position.y, height) },
            Orientation::Left => GridPosition { x: step_on(position.x, width), y: position.y },
            Orientation::Up => GridPosition { x: position.x, y: step_back(position.y, height) },
            Orientation::Right => GridPosition { x: step_back(position.x, width), y: position.y },
        }
    }
}

/// A step ahead and a step behind undo one another.
pub proof fn lemma_step_and_back(facing: Orientation, position: GridPosition, width: usize, height: usize)
    requires
        position.x < width,
        position.y < height,
    ensures
        facing.behind(facing.ahead(position, width, height), width, height) == position,
        facing.ahead(facing.behind(position, width, height), width, height) == position,
{
}

} // verus!
