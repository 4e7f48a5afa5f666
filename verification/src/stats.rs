use vstd::prelude::*;

verus! {

/// Tiles destroyed, as shown during play.
#[derive(PartialEq, Eq, Structural, Clone, Copy, Debug)]
pub struct Explosions(pub usize);

/// Tiles destroyed over all rounds.
#[derive(PartialEq, Eq, Structural, Clone, Copy, Debug)]
pub struct ExplosionsTotal(pub usize);

/// The most tiles that one resolution destroyed.
#[derive(PartialEq, Eq, Structural, Clone, Copy, Debug)]
pub struct BiggestChainReaction(pub usize);

/// Number of segments of the snake.
#[derive(PartialEq, Eq, Structural, Clone, Copy, Debug)]
pub struct SnakeLength(pub usize);

/// The longest the snake has been.
#[derive(PartialEq, Eq, Structural, Clone, Copy, Debug)]
pub struct MaxSnakeLength(pub usize);

/// The counters that the game shows.
#[derive(PartialEq, Eq, Structural, Clone, Copy, Debug)]
pub struct RoundStats {
    pub explosions: Explosions,
    pub explosions_total: ExplosionsTotal,
    pub biggest_chain_reaction: BiggestChainReaction,
    pub snake_length: SnakeLength,
    pub max_snake_length: MaxSnakeLength,
}

/// The larger of two counts.
pub open spec fn larger(a: usize, b: usize) -> usize {
    if a >= b {
        a
    } else {
        b
    }
}

/// Raises the record to the length where the length is above it.
pub fn update_max_length(length: &SnakeLength, max_length: &mut MaxSnakeLength)
    ensures
        final(max_length).0 == larger(old(max_length).0, length.0),
{
    if length.0 > max_length.0 {
        max_length.0 = length.0;
    }
}

impl Default for RoundStats {
    fn default() -> (stats: RoundStats)
        ensures
            stats == RoundStats::zero(),
    {
        RoundStats {
            explosions: Explosions(0),
            explosions_total: ExplosionsTotal(0),
            biggest_chain_reaction: BiggestChainReaction(0),
            snake_length: SnakeLength(0),
            max_snake_length: MaxSnakeLength(0),
        }
    }
}

impl RoundStats {
    /// All counters at zero.
    pub open spec fn zero() -> RoundStats {
        RoundStats {
            explosions: Explosions(0),
            explosions_total: ExplosionsTotal(0),
            biggest_chain_reaction: BiggestChainReaction(0),
            snake_length: SnakeLength(0),
            max_snake_length: MaxSnakeLength(0),
        }
    }

    /// The counters after a resolution destroyed `count` tiles.
    pub open spec fn with_explosions(self, count: usize) -> RoundStats {
        RoundStats {
            explosions: Explosions((self.explosions.0 + count) as usize),
            explosions_total: ExplosionsTotal((self.explosions_total.0 + count) as usize),
            biggest_chain_reaction: BiggestChainReaction(larger(self.biggest_chain_reaction.0, count)),
            snake_length: self.snake_length,
            max_snake_length: self.max_snake_length,
        }
    }

    /// Whether both counts of destroyed tiles can take `count` more.
    pub open spec fn has_room(self, count: int) -> bool {
        self.explosions.0 + count <= usize::MAX && self.explosions_total.0 + count <= usize::MAX
    }

    /// Whether both counts of destroyed tiles can take `count` more.
    pub fn can_record(&self, count: usize) -> (ok: bool)
        ensures
            ok == self.has_room(count as int),
    {
        self.explosions.0 <= usize::MAX - count && self.explosions_total.0 <= usize::MAX - count
    }

    /// Counts `count` destroyed tiles, in the round and over all rounds, and
    /// keeps the largest count of one resolution.
    pub fn record_explosions(&mut self, count: usize)
        requires
            old(self).has_room(count as int),
        ensures
            *final(self) == old(self).with_explosions(count),
    {
        self.explosions.0 = self.explosions.0 + count;
        self.explosions_total.0 = self.explosions_total.0 + count;
        if count > self.biggest_chain_reaction.0 {
            self.biggest_chain_reaction.0 = count;
        }
    }

    /// A round starts with a snake of `length` segments.
    pub fn start_round(&mut self, length: usize)
        ensures
            *final(self) == (RoundStats {
                snake_length: SnakeLength(length),
                max_snake_length: MaxSnakeLength(larger(old(self).max_snake_length.0, length)),
                ..*old(self)
            }),
    {
        self.snake_length.0 = length;
        update_max_length(&self.snake_length, &mut self.max_snake_length);
    }

    /// The snake grew by one segment.
    pub fn grow(&mut self)
        requires
            old(self).snake_length.0 < usize::MAX,
        ensures
            *final(self) == (RoundStats {
                snake_length: SnakeLength((old(self).snake_length.0 + 1) as usize),
                max_snake_length: MaxSnakeLength(
                    larger(old(self).max_snake_length.0, (old(self).snake_length.0 + 1) as usize),
                ),
                ..*old(self)
            }),
    {
        self.snake_length.0 = self.snake_length.0 + 1;
        update_max_length(&self.snake_length, &mut self.max_snake_length);
    }
}

} // verus!
