use crate::trusted::random_below;
use bevy_rand::prelude::ChaCha8Rng;
use vstd::prelude::*;

verus! {

/// Number of tile kinds.
pub const GEM_KINDS: u8 = 5;

/// The kind of tile a cell holds.
#[derive(PartialEq, Eq, Structural, Clone, Copy, Debug, Hash)]
pub enum GemType {
    One,
    Two,
    Three,
    Four,
    Five,
}

impl GemType {
    /// Position of the kind in the list of kinds, counted from zero.
    pub open spec fn index(self) -> int {
        match self {
            GemType::One => 0,
            GemType::Two => 1,
            GemType::Three => 2,
            GemType::Four => 3,
            GemType::Five => 4,
        }
    }

    /// The kind at position `index` of the list of kinds.
    pub fn from_index(index: u8) -> (kind: GemType)
        requires
            index < GEM_KINDS,
        ensures
            kind.index() == index,
    {
        if index == 0 {
            GemType::One
        } else if index == 1 {
            GemType::Two
        } else if index == 2 {
            GemType::Three
        } else if index == 3 {
            GemType::Four
        } else {
            GemType::Five
        }
    }

    /// Position of the kind in the list of kinds.
    pub fn to_index(&self) -> (index: u8)
        ensures
            index == self.index(),
            index < GEM_KINDS,
    {
        match self {
            GemType::One => 0,
            GemType::Two => 1,
            GemType::Three => 2,
            GemType::Four => 3,
            GemType::Five => 4,
        }
    }

    /// A kind drawn from `rng`; every kind can come out.
    pub fn random(rng: &mut ChaCha8Rng) -> (kind: GemType)
        ensures
            0 <= kind.index() < GEM_KINDS,
    {
        let index = random_below(rng, GEM_KINDS);
        GemType::from_index(index)
    }
}

} // verus!
