//! Experiments on the discrete logarithm problem in a short interval:
//! toy prime-order groups and the classical interval algorithms
//! (baby-step giant-step, Pollard kangaroo, Gaudry-Schost).
pub mod dlog;
pub mod dlp;
pub mod group;
pub mod num;
pub mod rng;
