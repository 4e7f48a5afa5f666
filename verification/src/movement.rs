use crate::actions::{MoveDirection, NextMove, Orientation};
use crate::player::GridPosition;
use vstd::prelude::*;

verus! {

/// Number of frames that the walk of a segment from one cell to the next takes.
pub const ANIMATION_FRAMES: usize = 9;

/// A segment of the snake as the movement sees it.
#[derive(PartialEq, Eq, Structural, Clone, Copy, Debug)]
pub struct SnakePiece {
    /// The picture that is shown: the frame of the walk, in the row of
    /// pictures for walking straight (the first) or for turning (the second).
    pub frame: usize,
    /// The turn that the segment makes with its next step.
    pub next_move: NextMove,
    /// The way the segment faces.
    pub orientation: Orientation,
    /// The cell of the segment.
    pub position: GridPosition,
    /// Whether the pictures are shown mirrored.
    pub flip_x: bool,
    /// Whether the segment is shown.
    pub visible: bool,
    /// Whether the segment waits out its next step, to make room for a new
    /// segment.
    pub stuck: bool,
}

/// The frame that follows `frame` in the row of pictures `row`.
pub open spec fn frame_after(row: int, frame: usize) -> int {
    row * ANIMATION_FRAMES + (frame + 1) % (ANIMATION_FRAMES as int)
}

/// The row of pictures for a turn: the first for walking straight, the second
/// for turning.
pub open spec fn row_for(turn: MoveDirection) -> int {
    if turn == MoveDirection::Straight {
        0
    } else {
        1
    }
}

impl SnakePiece {
    /// The frame lies in one of the two rows of pictures, and the cell on the
    /// field.
    pub open spec fn wf(self, width: usize, height: usize) -> bool {
        &&& self.frame < 2 * ANIMATION_FRAMES
        &&& self.position.x < width
        &&& self.position.y < height
    }

    /// Whether the walk to the next cell ends with this frame.
    pub open spec fn arrives(self) -> bool {
        (self.frame + 1) % (ANIMATION_FRAMES as int) == 0
    }

    /// The segment one frame later, where the segment ahead of it has been
    /// told the turn `ahead`. In the middle of a walk only the frame goes on.
    /// At the end of a walk a segment that waits stops waiting and stays; any
    /// other makes its turn, steps on one cell, shows itself, and takes over
    /// the turn of the segment ahead.
    pub open spec fn stepped(self, ahead: MoveDirection, width: usize, height: usize) -> SnakePiece {
        if !self.arrives() {
            SnakePiece { frame: frame_after((self.frame / ANIMATION_FRAMES) as int, self.frame) as usize, ..self }
        } else if self.stuck {
            SnakePiece {
                frame: frame_after((self.frame / ANIMATION_FRAMES) as int, self.frame) as usize,
                stuck: false,
                ..self
            }
        } else {
            SnakePiece {
                frame: frame_after(row_for(ahead), self.frame) as usize,
                next_move: NextMove(ahead),
                orientation: self.orientation.turned(self.next_move.0),
                position: self.orientation.turned(self.next_move.0).ahead(self.position, width, height),
                flip_x: ahead == MoveDirection::Right,
                visible: true,
                stuck: false,
            }
        }
    }

    /// The segment with the pictures that go with its turn.
    pub open spec fn faced(self) -> SnakePiece {
        match self.next_move.0 {
            MoveDirection::Straight => SnakePiece { frame: self.frame % ANIMATION_FRAMES, ..self },
            MoveDirection::Left => SnakePiece {
                frame: (ANIMATION_FRAMES + self.frame % ANIMATION_FRAMES) as usize,
                flip_x: false,
                ..self
            },
            MoveDirection::Right => SnakePiece {
                frame: (ANIMATION_FRAMES + self.frame % ANIMATION_FRAMES) as usize,
                flip_x: true,
                ..self
            },
        }
    }

    /// Shows the pictures that go with the turn the segment has been told.
    pub fn update_player_direction(&mut self)
        ensures
            *final(self) == old(self).faced(),
            final(self).frame < 2 * ANIMATION_FRAMES,
    {
        match self.next_move.0 {
            MoveDirection::Straight => {
                self.frame = self.frame % ANIMATION_FRAMES;
            },
            MoveDirection::Left => {
                self.frame = ANIMATION_FRAMES + self.frame % ANIMATION_FRAMES;
                self.flip_x = false;
            },
            MoveDirection::Right => {
                self.frame = ANIMATION_FRAMES + self.frame % ANIMATION_FRAMES;
                self.flip_x = true;
            },
        }
    }

    /// Moves the segment on by one frame; `new_move_direction` is the turn that
    /// the segment ahead has been told. Tells whether the segment has stopped
    /// waiting.
    pub fn update_snake_piece(&mut self, new_move_direction: MoveDirection, width: usize, height: usize) -> (released:
        bool)
        requires
            old(self).wf(width, height),
        ensures
            *final(self) == old(self).stepped(new_move_direction, width, height),
            final(self).wf(width, height),
            released == (old(self).arrives() && old(self).stuck),
    {
        let mut row = self.frame / ANIMATION_FRAMES;
        if 0 == (self.frame + 1) % ANIMATION_FRAMES {
            if self.stuck {
                self.frame = row * ANIMATION_FRAMES + (self.frame + 1) % ANIMATION_FRAMES;
                self.stuck = false;
                return true;
            }
            self.visible = true;
            let turn = self.next_move;
            self.orientation.next(&turn);
            self.position = self.orientation.next_position(&self.position, width, height);
            self.next_move = NextMove(new_move_direction);
            row = match new_move_direction {
                MoveDirection::Straight => 0,
                _ => 1,
            };
            self.flip_x = match new_move_direction {
                MoveDirection::Right => true,
                _ => false,
            };
        }
        self.frame = row * ANIMATION_FRAMES + (self.frame + 1) % ANIMATION_FRAMES;
        false
    }
}

/// The turn that the segment ahead of segment `i` has been told; the head,
/// which is the last segment, goes straight on.
pub open spec fn turn_ahead(pieces: Seq<SnakePiece>, i: int) -> MoveDirection {
    if i + 1 < pieces.len() {
        pieces[i + 1].next_move.0
    } else {
        MoveDirection::Straight
    }
}

/// Every segment lies on the field and shows a frame of its pictures.
pub open spec fn all_wf(pieces: Seq<SnakePiece>, width: usize, height: usize) -> bool {
    forall|i: int| 0 <= i < pieces.len() ==> (#[trigger] pieces[i]).wf(width, height)
}

/// One tick of the movement. The segments are listed from the tail to the
/// head. Every segment whose timer has run out moves on by one frame, and
/// takes the turn that the segment ahead of it had been told before this tick.
/// Returns, for every segment, whether it has stopped waiting.
pub fn player_movement(pieces: &mut Vec<SnakePiece>, finished: &Vec<bool>, width: usize, height: usize) -> (released:
    Vec<bool>)
    requires
        all_wf(old(pieces)@, width, height),
        finished@.len() == old(pieces)@.len(),
    ensures
        final(pieces)@.len() == old(pieces)@.len(),
        released@.len() == old(pieces)@.len(),
        all_wf(final(pieces)@, width, height),
        forall|i: int|
            0 <= i < old(pieces)@.len() ==> #[trigger] final(pieces)@[i] == (if finished@[i] {
                old(pieces)@[i].stepped(turn_ahead(old(pieces)@, i), width, height)
            } else {
                old(pieces)@[i]
            }),
        forall|i: int|
            0 <= i < old(pieces)@.len() ==> #[trigger] released@[i] == (finished@[i] && old(pieces)@[i].arrives()
                && old(pieces)@[i].stuck),
{
    let ghost before = pieces@;
    let n = pieces.len();
    let mut released: Vec<bool> = Vec::new();
    let mut i: usize = 0;
    while i < n
        invariant
            i <= n,
            n == before.len(),
            pieces@.len() == n,
            finished@.len() == n,
            released@.len() == i,
            all_wf(before, width, height),
            forall|k: int| i <= k < n ==> #[trigger] pieces@[k] == before[k],
            forall|k: int|
                0 <= k < i ==> #[trigger] pieces@[k] == (if finished@[k] {
                    before[k].stepped(turn_ahead(before, k), width, height)
                } else {
                    before[k]
                }),
            forall|k: int| 0 <= k < i ==> (#[trigger] pieces@[k]).wf(width, height),
            forall|k: int|
                0 <= k < i ==> #[trigger] released@[k] == (finished@[k] && before[k].arrives() && before[k].stuck),
        decreases n - i,
    {
        let new_move_direction = if i + 1 < n {
            pieces[i + 1].next_move.0
        } else {
            MoveDirection::Straight
        };
        let mut piece = pieces[i];
        let mut free = false;
        if finished[i] {
            free = piece.update_snake_piece(new_move_direction, width, height);
            pieces.set(i, piece);
        }
        released.push(free);
        i += 1;
    }
    released
}

} // verus!
