//! Baby-step giant-step: a table of `m ~ sqrt(N)` baby steps `i * G`, then
//! giant steps of `m * G` from the target until one lands in the table.
pub mod basic;
pub mod interleaved;
pub mod neg_map;

pub use basic::Basic as BabyStepGiantStepBasic;
pub use interleaved::Interleaved as BabyStepGiantStepInterleaved;
pub use neg_map::NegMap as BabyStepGiantStepNegMap;
