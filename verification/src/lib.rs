//! A deterministic bit-level corruption engine.
//!
//! Input bytes are unpacked into a buffer of single bits, a list of
//! corruption methods is applied to one or more ranges of that buffer, and
//! the result is packed back into bytes. Every random choice is drawn from
//! seeded xorshift generators, so that a seed, a list of methods and a list
//! of ranges always give the same output.
//!
//! - [`bits`] converts between bytes and bit buffers.
//! - [`transform`] holds the transformations of a bit buffer, each on parts
//!   at given positions.
//! - [`prng`] declares the xorshift generator, and [`sampler`] samples part
//!   lengths, part origins and noise bits from it.
//! - [`method`] names the corruption methods, and [`config`] says what a
//!   round of each method does and runs the rounds of one method.
//! - [`plan`] builds a plan from a seed, methods and ranges, and runs it.
//! - [`error`] holds the errors.

pub mod bits;
pub mod config;
pub mod error;
pub mod method;
pub mod plan;
pub mod prng;
pub mod sampler;
pub mod transform;
