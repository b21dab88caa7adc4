//! Gaudry-Schost: points sampled at random from tame and wild sets until a
//! tame and a wild point (or two wild points) coincide.
pub mod params;
pub mod sota_v2;

pub use sota_v2::SotaV2 as GaudrySchostSotaV2;
pub mod sota_v2_overhead;
