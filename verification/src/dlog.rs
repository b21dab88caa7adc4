//! The distinguished-point kangaroo solvers, in the `[l, h), Q` calling
//! convention.
pub mod solver;
