//! The errors that the library reports.

use vstd::prelude::*;

verus! {

/// A bit buffer cannot be packed into bytes because its length is not a
/// multiple of eight.
#[derive(Debug, Clone, Copy, PartialEq, Eq)]
pub struct LengthError {
    /// The number of bits in the buffer that was refused.
    pub bit_len: usize,
}

/// A corruption plan cannot be built from the configuration that was given.
#[derive(Debug, Clone, Copy, PartialEq, Eq)]
pub enum ConfigError {
    /// No corruption method was given.
    NoMethods,
    /// No range was given.
    NoRanges,
    /// The method at `index` has a name that is not one of the known methods.
    UnknownMethod { index: usize },
    /// The method at `index` has neither a fixed part length nor both bounds,
    /// or it has a fixed part length together with a bound.
    InvalidPartLength { index: usize },
    /// The range at `index` has length zero.
    EmptyRange { index: usize },
}

} // verus!
