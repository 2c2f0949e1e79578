//! Deterministic pseudo-random values from a seeded bit source: a fast
//! 64-bit mixing generator, full-width integers and characters drawn from its
//! bytes, and unbiased integers in a bounded range.
//!
//! This generator is fast and statistically sound; it is not cryptographically
//! secure.
pub mod bytes;
pub mod gen;
pub mod rand;
pub mod range;

pub use gen::{RandomGen, RandomRange};
pub use rand::{WyRand, RNG};
