//! The xorshift generator from which every random choice is drawn.
//!
//! The generator itself lives in the `rand_xorshift` crate. Nothing in this
//! module is proved: it declares the generator's type, gives names to the
//! values that its functions compute, and wraps each function in a contract
//! that says no more than that the function computes the value so named.
//!
//! A generator is four state words and nothing else. Its functions are
//! wrapping arithmetic on these words, with a fixed byte order where bytes
//! are read or written, so that what a function returns and the state in
//! which it leaves the generator depend on the state words alone, and
//! neither on the machine nor on the process. This is what makes a run of a
//! plan repeatable, and it is all that the names below claim.

use rand::Error;
use rand::RngCore;
use rand::SeedableRng;
use rand_xorshift::XorShiftRng;
use vstd::prelude::*;

verus! {

/// The generator type of `rand_xorshift`. Its fields are hidden.
#[verifier::external_type_specification]
#[verifier::external_body]
pub struct ExXorShiftRng(XorShiftRng);

/// The error type of `rand`, which `SeedableRng::from_rng` can return.
#[verifier::external_type_specification]
#[verifier::external_body]
pub struct ExRngError(Error);

/// The state words that a generator holds. A generator is the four words
/// `x`, `y`, `z` and `w`, and every function on it depends on these alone.
pub uninterp spec fn rng_words(rng: XorShiftRng) -> Seq<u32>;

/// The state words of the generator that `SeedableRng::seed_from_u64` makes
/// from `seed`.
pub uninterp spec fn seeded_words(seed: u64) -> Seq<u32>;

/// What `RngCore::next_u64` does to a generator with the state `words`: the
/// value that it returns, and the state in which it leaves the generator.
pub uninterp spec fn drawn(words: Seq<u32>) -> (u64, Seq<u32>);

/// What `SeedableRng::from_rng` does with a parent generator in the state
/// `words`: the state of the generator that it returns, and the state in
/// which it leaves the parent.
pub uninterp spec fn forked(words: Seq<u32>) -> (Seq<u32>, Seq<u32>);

/// Calls `XorShiftRng::seed_from_u64`, which expands the seed into sixteen
/// bytes and makes a generator from them. The contract claims only that the
/// generator's state is a function of the seed.
#[verifier::external_body]
pub(crate) fn seed_rng(seed: u64) -> (rng: XorShiftRng)
    ensures
        rng_words(rng) == seeded_words(seed),
{
    XorShiftRng::seed_from_u64(seed)
}

/// Calls `RngCore::next_u64` on the generator, which steps it twice and joins
/// the two words. The contract claims that the call does not panic, as it is
/// wrapping arithmetic on the state words, and that the value returned and
/// the state afterwards are functions of the state before.
#[verifier::external_body]
pub(crate) fn next_value(rng: &mut XorShiftRng) -> (value: u64)
    ensures
        (value, rng_words(*final(rng))) == drawn(rng_words(*old(rng))),
    no_unwind
{
    rng.next_u64()
}

/// Calls `XorShiftRng::from_rng` with the parent generator as the source of
/// the new generator's state. The function fills sixteen bytes from the
/// parent until they are not all zero, and fails where the parent fails to
/// fill them. The contract claims that the call returns and succeeds, since
/// the parent's `try_fill_bytes` never fails and its state words, which are
/// what it fills the bytes with, are never all zero; and that the states of
/// the new generator and of the parent afterwards are functions of the
/// parent's state before.
#[verifier::external_body]
pub(crate) fn fork_rng(parent: &mut XorShiftRng) -> (child: Result<XorShiftRng, Error>)
    ensures
        child is Ok,
        (rng_words(child->Ok_0), rng_words(*final(parent))) == forked(rng_words(*old(parent))),
{
    XorShiftRng::from_rng(parent)
}

} // verus!
