//! Pollard's kangaroo with random jumps and every point stored.
pub mod basic;
pub mod four_kangaroo;

pub use basic::Basic as PollardKangarooBasic;
pub use four_kangaroo::PollardFourKangarooSolver as PollardKangarooFour;
