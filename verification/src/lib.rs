//! Byte-lane parallel arithmetic: SIMD-style operations on eight 8-bit lanes
//! packed into a single 64-bit word, computed with ordinary scalar
//! instructions.
//!
//! [`u8x8`] holds eight unsigned 8-bit lanes and offers wrapping and
//! saturating arithmetic, comparisons, minimum/maximum, rounded mean and
//! population count, each applied to all eight lanes at once. [`mask8x8`]
//! holds eight boolean lanes, produced by comparisons and consumed by
//! `select`-style construction, with conversions to and from a compact
//! 8-bit bitmask in both bit orderings.
//!
//! Every operation is proved to act on each lane independently: no carry or
//! borrow ever leaks from one lane into its neighbour.

pub mod lanes;
mod mask;
mod vector;

pub use mask::mask8x8;
pub use vector::u8x8;
