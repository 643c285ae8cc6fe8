//! Reproducible pseudorandom numbers: a 64-bit linear congruential engine with a
//! one-slot cache for standard-normal variates, and the index arithmetic of a
//! table-driven natural logarithm.

pub mod combinatorics;
pub mod fastlog;
pub mod laws;
pub mod rng;

pub use crate::rng::{NormalCache, Rng, RngView};
