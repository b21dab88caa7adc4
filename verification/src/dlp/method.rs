//! The solver families.
pub mod baby_step_giant_step;
pub mod pollard_four_kangaroo;
pub mod pollard_kangaroo;
pub mod gaudry_schost_three_set;
pub mod gaudry_schost;
