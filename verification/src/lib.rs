pub mod actions;
pub mod board;
pub mod cascade;
pub mod gems;
pub mod grid;
pub mod movement;
pub mod occupancy;
pub mod phase;
pub mod placement;
pub mod player;
pub mod refill;
pub mod round;
pub mod runs;
pub mod stats;
pub mod swap;
pub mod trusted;
