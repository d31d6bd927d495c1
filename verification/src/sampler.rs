//! Sampling of part lengths and part origins.

use crate::prng::drawn;
use crate::prng::next_value;
use crate::prng::rng_words;
use crate::prng::seed_rng;
use crate::prng::seeded_words;
use rand_xorshift::XorShiftRng;
use vstd::prelude::*;

verus! {

/// The part length that the drawn `value` stands for: a length between the
/// smaller and the larger of `min` and `max`, both included.
pub open spec fn len_from(min: u64, max: u64, value: u64) -> u64 {
    if min <= max {
        (min + (value as int) % (max - min + 1)) as u64
    } else {
        (max + (value as int) % (min - max + 1)) as u64
    }
}

/// The part origin that the drawn `value` stands for: the remainder of
/// `value` by `bound + 1`, where the sum saturates.
pub open spec fn origin_from(bound: u64, value: u64) -> u64 {
    if bound == u64::MAX {
        ((value as int) % (bound as int)) as u64
    } else {
        ((value as int) % (bound + 1)) as u64
    }
}

/// The noise bit that the drawn `value` stands for: its lowest bit.
pub open spec fn bit_from(value: u64) -> bool {
    value % 2 == 1
}

/// Maps a drawn value to a part length between `min` and `max`. The bounds
/// may come in either order.
pub fn part_len_of(min: u64, max: u64, value: u64) -> (len: u64)
    ensures
        len == len_from(min, max, value),
        min <= max ==> min <= len <= max,
        max <= min ==> max <= len <= min,
{
    let (low, high): (u64, u64) = if min <= max {
        (min, max)
    } else {
        (max, min)
    };
    let span: u64 = high - low;
    if span == u64::MAX {
        value
    } else {
        low + value % (span + 1)
    }
}

/// Maps a drawn value to a part origin no greater than `bound`.
pub fn part_origin_of(bound: u64, value: u64) -> (origin: u64)
    ensures
        origin == origin_from(bound, value),
        origin <= bound,
{
    let divisor: u64 = bound.saturating_add(1);
    value % divisor
}

/// Maps a drawn value to a noise bit.
pub fn noise_bit_of(value: u64) -> (bit: bool)
    ensures
        bit == bit_from(value),
{
    value % 2 == 1
}

/// What a sampler is made of: its bounds, and the state of its generator.
pub struct SamplerState {
    /// Whether every sampled length is the same.
    pub is_fixed: bool,
    /// The least length that is sampled.
    pub min: u64,
    /// The greatest length that is sampled.
    pub max: u64,
    /// The state words of the generator.
    pub words: Seq<u32>,
}

impl SamplerState {
    /// The bounds are in order, and the sampler is fixed exactly when they
    /// are equal.
    pub open spec fn wf(self) -> bool {
        self.min <= self.max && (self.is_fixed <==> self.min == self.max)
    }

    /// The sampler after one value has been drawn from its generator.
    pub open spec fn stepped(self) -> SamplerState {
        SamplerState { words: drawn(self.words).1, ..self }
    }

    /// The next part length, and the sampler after it was sampled. A fixed
    /// sampler gives its length without drawing.
    pub open spec fn sample_len(self) -> (u64, SamplerState) {
        if self.is_fixed {
            (self.min, self)
        } else {
            (len_from(self.min, self.max, drawn(self.words).0), self.stepped())
        }
    }

    /// The next part origin for `bound`, and the sampler after it was sampled.
    pub open spec fn sample_origin(self, bound: u64) -> (u64, SamplerState) {
        (origin_from(bound, drawn(self.words).0), self.stepped())
    }

    /// The next noise bit, and the sampler after it was sampled.
    pub open spec fn sample_bit(self) -> (bool, SamplerState) {
        (bit_from(drawn(self.words).0), self.stepped())
    }

    /// The next part within a region of `region` bits, as its origin in the
    /// region and its length, and the sampler after the part was sampled.
    /// The length is sampled first and cut down to the region; the origin is
    /// then sampled among those that leave the part inside the region.
    pub open spec fn sample_part(self, region: u64) -> ((u64, u64), SamplerState) {
        let (wanted, after_len) = self.sample_len();
        let len = if wanted < region {
            wanted
        } else {
            region
        };
        let (origin, after_origin) = after_len.sample_origin((region - len) as u64);
        ((origin, len), after_origin)
    }

    /// The next `count` noise bits, and the sampler after they were sampled.
    pub open spec fn sample_bits(self, count: nat) -> (Seq<bool>, SamplerState)
        decreases count,
    {
        if count == 0 {
            (Seq::empty(), self)
        } else {
            let (bits, after) = self.sample_bits((count - 1) as nat);
            let (bit, last) = after.sample_bit();
            (bits.push(bit), last)
        }
    }

    /// A part that is sampled within a region lies inside the region.
    pub proof fn lemma_part_inside(self, region: u64)
        ensures
            self.sample_part(region).0.0 + self.sample_part(region).0.1 <= region,
    {
    }

    /// Sampling a number of noise bits gives that number of bits.
    pub proof fn lemma_bits_len(self, count: nat)
        ensures
            self.sample_bits(count).0.len() == count,
        decreases count,
    {
        if count > 0 {
            self.lemma_bits_len((count - 1) as nat);
        }
    }
}

/// A sampler of part lengths and part origins, with a generator of its own.
#[derive(Debug)]
pub struct PartLengthGenerator {
    is_fixed: bool,
    prng: XorShiftRng,
    min: u64,
    max: u64,
}

impl View for PartLengthGenerator {
    type V = SamplerState;

    closed spec fn view(&self) -> SamplerState {
        SamplerState {
            is_fixed: self.is_fixed,
            min: self.min,
            max: self.max,
            words: rng_words(self.prng),
        }
    }
}

impl PartLengthGenerator {
    #[verifier::type_invariant]
    spec fn inv(self) -> bool {
        self.min <= self.max && (self.is_fixed <==> self.min == self.max)
    }

    /// Makes a sampler of lengths between `min` and `max` that draws from
    /// `prng`. Bounds that come in the wrong order are exchanged.
    pub fn new(min: u64, max: u64, prng: XorShiftRng) -> (rslt: Self)
        ensures
            rslt@.wf(),
            rslt@.is_fixed == (min == max),
            rslt@.min == (if min <= max { min } else { max }),
            rslt@.max == (if min <= max { max } else { min }),
            rslt@.words == rng_words(prng),
    {
        if min > max {
            return PartLengthGenerator { is_fixed: false, prng, min: max, max: min };
        }
        PartLengthGenerator { is_fixed: min == max, prng, min, max }
    }

    /// Samples the next part length: the fixed length, or a length between
    /// the bounds that the next drawn value selects.
    pub fn get_len(&mut self) -> (len: u64)
        ensures
            final(self)@.wf(),
            (len, final(self)@) == old(self)@.sample_len(),
            old(self)@.min <= len <= old(self)@.max,
    {
        proof {
            use_type_invariant(&*self);
        }
        if self.is_fixed {
            return self.min;
        }
        let value: u64 = next_value(&mut self.prng);
        part_len_of(self.min, self.max, value)
    }

    /// Samples the next part origin, which is at most `max`.
    pub fn get_origin(&mut self, max: u64) -> (origin: u64)
        ensures
            final(self)@.wf(),
            (origin, final(self)@) == old(self)@.sample_origin(max),
            origin <= max,
    {
        proof {
            use_type_invariant(&*self);
        }
        let value: u64 = next_value(&mut self.prng);
        part_origin_of(max, value)
    }

    /// Samples the next noise bit.
    pub fn get_bit(&mut self) -> (bit: bool)
        ensures
            final(self)@.wf(),
            (bit, final(self)@) == old(self)@.sample_bit(),
    {
        proof {
            use_type_invariant(&*self);
        }
        let value: u64 = next_value(&mut self.prng);
        noise_bit_of(value)
    }

    /// Samples the next part within a region of `region` bits, and returns
    /// its origin in the region and its length. The part lies inside the
    /// region.
    pub fn get_part(&mut self, region: u64) -> (part: (u64, u64))
        ensures
            final(self)@.wf(),
            (part, final(self)@) == old(self)@.sample_part(region),
            part.0 + part.1 <= region,
    {
        let wanted: u64 = self.get_len();
        let len: u64 = if wanted < region {
            wanted
        } else {
            region
        };
        let origin: u64 = self.get_origin(region - len);
        (origin, len)
    }

    /// Samples the next `count` noise bits.
    pub fn get_bits(&mut self, count: usize) -> (bits: Vec<bool>)
        ensures
            final(self)@.wf(),
            (bits@, final(self)@) == old(self)@.sample_bits(count as nat),
            bits@.len() == count,
    {
        proof {
            use_type_invariant(&*self);
        }
        let mut bits: Vec<bool> = Vec::new();
        let mut k: usize = 0;
        while k < count
            invariant
                k <= count,
                self@.wf(),
                bits@.len() == k,
                (bits@, self@) == old(self)@.sample_bits(k as nat),
            decreases count - k,
        {
            let bit: bool = self.get_bit();
            bits.push(bit);
            k = k + 1;
        }
        bits
    }
}

impl Default for PartLengthGenerator {
    /// A sampler fixed at length zero, with a generator seeded with zero.
    fn default() -> (rslt: Self)
        ensures
            rslt@.wf(),
            rslt@ == (SamplerState { is_fixed: true, min: 0, max: 0, words: seeded_words(0) }),
    {
        PartLengthGenerator { is_fixed: true, prng: seed_rng(0), min: 0, max: 0 }
    }
}

} // verus!
