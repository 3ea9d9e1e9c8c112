pub mod board;
pub mod random;
mod rng;
pub mod tally;
