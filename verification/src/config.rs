//! One corruption method with its number of rounds and its sampler, and
//! what a round of each method does to a bit buffer.
//!
//! A round works on the region of the buffer that a range covers: the bits
//! from the range's origin up to its end, cut off at the end of the buffer.
//! It samples a part inside that region, and the method changes that part.
//! A region without bits leaves nothing to change, but the sampler is drawn
//! from all the same, so that the draws of later rounds do not depend on
//! the buffer.

use crate::method::KorruptionMethod;
use crate::sampler::PartLengthGenerator;
use crate::sampler::SamplerState;
use crate::transform::add_noise;
use crate::transform::combined;
use crate::transform::fill_part;
use crate::transform::filled;
use crate::transform::flip_part;
use crate::transform::flipped;
use crate::transform::lemma_swapped_outside;
use crate::transform::noised;
use crate::transform::part_end;
use crate::transform::part_start;
use crate::transform::remove_part;
use crate::transform::removed;
use crate::transform::repeat_part;
use crate::transform::repeated;
use crate::transform::reverse_part;
use crate::transform::reversed;
use crate::transform::rotate_part_left;
use crate::transform::rotate_part_right;
use crate::transform::rotated_left;
use crate::transform::rotated_right;
use crate::transform::swap_parts;
use crate::transform::swapped;
use crate::transform::xor_parts;
use vstd::prelude::*;

verus! {

/// The number of bits in the region of a buffer of `n` bits that the range
/// at `origin` with `len` bits covers.
pub open spec fn region_len(n: int, origin: u64, len: u64) -> u64 {
    (part_end(n, origin as int, len as int) - part_start(n, origin as int)) as u64
}

/// The buffer and the sampler after one round of `method` on the region that
/// the range at `origin` with `len` bits covers.
///
/// Every method first samples a part inside the region. `Zeros`, `Ones`,
/// `Flip`, `Reverse` and `Shorten` change that part. `Repeat` repeats it over
/// the rest of the region behind it. `AddNoise` then samples one noise bit
/// for each bit of the part. `Swap` and `Interference` then sample a second
/// part inside the region, and work on the two parts cut down to the shorter
/// of them. `RRotate` and `LRotate` then sample a length, and rotate the part
/// by that many places, or by its own length if that is less.
pub open spec fn round(
    method: KorruptionMethod,
    bits: Seq<bool>,
    sampler: SamplerState,
    origin: u64,
    len: u64,
) -> (Seq<bool>, SamplerState) {
    let from = part_start(bits.len() as int, origin as int);
    let to = part_end(bits.len() as int, origin as int, len as int);
    let region = region_len(bits.len() as int, origin, len);
    let (part, after) = sampler.sample_part(region);
    let start = from + part.0;
    let size = part.1 as int;
    match method {
        KorruptionMethod::Zeros => (filled(bits, start, size, false), after),
        KorruptionMethod::Ones => (filled(bits, start, size, true), after),
        KorruptionMethod::Flip => (flipped(bits, start, size), after),
        KorruptionMethod::Swap => {
            let (other, last) = after.sample_part(region);
            let shorter = if size < other.1 {
                size
            } else {
                other.1 as int
            };
            (swapped(bits, start, from + other.0, shorter), last)
        },
        KorruptionMethod::Reverse => (reversed(bits, start, size), after),
        KorruptionMethod::Repeat => (repeated(bits, start, size, to - (start + size)), after),
        KorruptionMethod::Shorten => (removed(bits, start, size), after),
        KorruptionMethod::AddNoise => {
            let (noise, last) = after.sample_bits(size as nat);
            (noised(bits, start, noise), last)
        },
        KorruptionMethod::Interference => {
            let (other, last) = after.sample_part(region);
            let shorter = if size < other.1 {
                size
            } else {
                other.1 as int
            };
            (combined(bits, start, from + other.0, shorter), last)
        },
        KorruptionMethod::RRotate => {
            let (by, last) = after.sample_len();
            (rotated_right(bits, start, size, by as int), last)
        },
        KorruptionMethod::LRotate => {
            let (by, last) = after.sample_len();
            (rotated_left(bits, start, size, by as int), last)
        },
    }
}

/// The buffer and the sampler after `count` rounds of `method`, one after
/// the other, on the region that a range covers.
pub open spec fn rounds(
    method: KorruptionMethod,
    bits: Seq<bool>,
    sampler: SamplerState,
    origin: u64,
    len: u64,
    count: nat,
) -> (Seq<bool>, SamplerState)
    decreases count,
{
    if count == 0 {
        (bits, sampler)
    } else {
        let (before, state) = rounds(method, bits, sampler, origin, len, (count - 1) as nat);
        round(method, before, state, origin, len)
    }
}

/// A round of any method but `Shorten` leaves the buffer as long as it was.
pub proof fn lemma_round_keeps_length(
    method: KorruptionMethod,
    bits: Seq<bool>,
    sampler: SamplerState,
    origin: u64,
    len: u64,
)
    requires
        method != KorruptionMethod::Shorten,
        bits.len() <= u64::MAX,
    ensures
        round(method, bits, sampler, origin, len).0.len() == bits.len(),
{
    let from = part_start(bits.len() as int, origin as int);
    let region = region_len(bits.len() as int, origin, len);
    let (part, after) = sampler.sample_part(region);
    if method == KorruptionMethod::Swap {
        let (other, last) = after.sample_part(region);
        let shorter = if part.1 < other.1 {
            part.1 as int
        } else {
            other.1 as int
        };
        lemma_swapped_outside(bits, from + part.0, from + other.0, shorter);
    }
}

/// A round of `Shorten` takes the part that it samples out of the buffer:
/// the buffer gets shorter by exactly the length of that part.
pub proof fn lemma_shorten_removes_part(
    bits: Seq<bool>,
    sampler: SamplerState,
    origin: u64,
    len: u64,
)
    requires
        bits.len() <= u64::MAX,
    ensures
        round(KorruptionMethod::Shorten, bits, sampler, origin, len).0.len() == bits.len()
            - sampler.sample_part(region_len(bits.len() as int, origin, len)).0.1,
        round(KorruptionMethod::Shorten, bits, sampler, origin, len).0.len() <= bits.len(),
{
    sampler.lemma_part_inside(region_len(bits.len() as int, origin, len));
}

/// A round of any method never makes the buffer longer.
pub proof fn lemma_round_never_grows(
    method: KorruptionMethod,
    bits: Seq<bool>,
    sampler: SamplerState,
    origin: u64,
    len: u64,
)
    requires
        bits.len() <= u64::MAX,
    ensures
        round(method, bits, sampler, origin, len).0.len() <= bits.len(),
{
    if method == KorruptionMethod::Shorten {
        lemma_shorten_removes_part(bits, sampler, origin, len);
    } else {
        lemma_round_keeps_length(method, bits, sampler, origin, len);
    }
}

/// A round that samples a part without bits changes no bit, whatever the
/// method.
pub proof fn lemma_round_on_empty_part(
    method: KorruptionMethod,
    bits: Seq<bool>,
    sampler: SamplerState,
    origin: u64,
    len: u64,
)
    requires
        bits.len() <= u64::MAX,
        sampler.sample_part(region_len(bits.len() as int, origin, len)).0.1 == 0,
    ensures
        round(method, bits, sampler, origin, len).0 == bits,
{
    let region = region_len(bits.len() as int, origin, len);
    let (part, after) = sampler.sample_part(region);
    sampler.lemma_part_inside(region);
    assert(round(method, bits, sampler, origin, len).0 =~= bits);
}

/// A round on a region without bits, such as the region of a range that
/// lies beyond the end of the buffer, changes no bit, whatever the method.
pub proof fn lemma_round_on_empty_region(
    method: KorruptionMethod,
    bits: Seq<bool>,
    sampler: SamplerState,
    origin: u64,
    len: u64,
)
    requires
        bits.len() <= u64::MAX,
        region_len(bits.len() as int, origin, len) == 0,
    ensures
        round(method, bits, sampler, origin, len).0 == bits,
{
    lemma_round_on_empty_part(method, bits, sampler, origin, len);
}

/// A round of any method but `Shorten` changes no bit outside the region
/// that the range covers.
pub proof fn lemma_round_stays_in_region(
    method: KorruptionMethod,
    bits: Seq<bool>,
    sampler: SamplerState,
    origin: u64,
    len: u64,
)
    requires
        method != KorruptionMethod::Shorten,
        bits.len() <= u64::MAX,
    ensures
        round(method, bits, sampler, origin, len).0.len() == bits.len(),
        forall|i: int|
            0 <= i < bits.len() && !(part_start(bits.len() as int, origin as int) <= i < part_end(
                bits.len() as int,
                origin as int,
                len as int,
            )) ==> round(method, bits, sampler, origin, len).0[i] == bits[i],
{
    let from = part_start(bits.len() as int, origin as int);
    let region = region_len(bits.len() as int, origin, len);
    let (part, after) = sampler.sample_part(region);
    sampler.lemma_part_inside(region);
    if method == KorruptionMethod::Swap {
        let (other, last) = after.sample_part(region);
        after.lemma_part_inside(region);
        let shorter = if part.1 < other.1 {
            part.1 as int
        } else {
            other.1 as int
        };
        lemma_swapped_outside(bits, from + part.0, from + other.0, shorter);
    }
    if method == KorruptionMethod::AddNoise {
        after.lemma_bits_len(part.1 as nat);
    }
}

/// Rounds of any method but `Shorten` leave the buffer as long as it was
/// and change no bit outside the region that the range covers.
pub proof fn lemma_rounds_stay_in_region(
    method: KorruptionMethod,
    bits: Seq<bool>,
    sampler: SamplerState,
    origin: u64,
    len: u64,
    count: nat,
)
    requires
        method != KorruptionMethod::Shorten,
        bits.len() <= u64::MAX,
    ensures
        rounds(method, bits, sampler, origin, len, count).0.len() == bits.len(),
        forall|i: int|
            0 <= i < bits.len() && !(part_start(bits.len() as int, origin as int) <= i < part_end(
                bits.len() as int,
                origin as int,
                len as int,
            )) ==> rounds(method, bits, sampler, origin, len, count).0[i] == bits[i],
    decreases count,
{
    if count > 0 {
        lemma_rounds_stay_in_region(method, bits, sampler, origin, len, (count - 1) as nat);
        let (before, state) = rounds(method, bits, sampler, origin, len, (count - 1) as nat);
        lemma_round_stays_in_region(method, before, state, origin, len);
    }
}

/// Rounds of any method never make the buffer longer.
pub proof fn lemma_rounds_never_grow(
    method: KorruptionMethod,
    bits: Seq<bool>,
    sampler: SamplerState,
    origin: u64,
    len: u64,
    count: nat,
)
    requires
        bits.len() <= u64::MAX,
    ensures
        rounds(method, bits, sampler, origin, len, count).0.len() <= bits.len(),
    decreases count,
{
    if count > 0 {
        lemma_rounds_never_grow(method, bits, sampler, origin, len, (count - 1) as nat);
        let (before, state) = rounds(method, bits, sampler, origin, len, (count - 1) as nat);
        lemma_round_never_grows(method, before, state, origin, len);
    }
}

/// What a method configuration is made of.
pub struct MethodState {
    /// The method that is applied.
    pub method: KorruptionMethod,
    /// The number of rounds on each range.
    pub rounds: u64,
    /// What the sampler of the method is made of.
    pub sampler: SamplerState,
}

impl MethodState {
    /// The configuration with another state of its sampler.
    pub open spec fn with_sampler(self, sampler: SamplerState) -> MethodState {
        MethodState { sampler, ..self }
    }

    /// The buffer and the configuration after all rounds of the method on
    /// the region that a range covers.
    pub open spec fn processed(self, bits: Seq<bool>, origin: u64, len: u64) -> (
        Seq<bool>,
        MethodState,
    ) {
        let (after, sampler) = rounds(
            self.method,
            bits,
            self.sampler,
            origin,
            len,
            self.rounds as nat,
        );
        (after, self.with_sampler(sampler))
    }

    /// Processing changes nothing of a configuration but its sampler, and
    /// never makes the buffer longer.
    pub proof fn lemma_processed_keeps_method(self, bits: Seq<bool>, origin: u64, len: u64)
        requires
            bits.len() <= u64::MAX,
        ensures
            self.processed(bits, origin, len).1.method == self.method,
            self.processed(bits, origin, len).1.rounds == self.rounds,
            self.processed(bits, origin, len).0.len() <= bits.len(),
    {
        lemma_rounds_never_grow(self.method, bits, self.sampler, origin, len, self.rounds as nat);
    }

    /// Processing with any method but `Shorten` leaves the buffer as long as
    /// it was and changes no bit outside the region that the range covers.
    pub proof fn lemma_processed_stays_in_region(self, bits: Seq<bool>, origin: u64, len: u64)
        requires
            self.method != KorruptionMethod::Shorten,
            bits.len() <= u64::MAX,
        ensures
            self.processed(bits, origin, len).0.len() == bits.len(),
            forall|i: int|
                0 <= i < bits.len() && !(part_start(bits.len() as int, origin as int) <= i
                    < part_end(bits.len() as int, origin as int, len as int))
                    ==> self.processed(bits, origin, len).0[i] == bits[i],
    {
        lemma_rounds_stay_in_region(
            self.method,
            bits,
            self.sampler,
            origin,
            len,
            self.rounds as nat,
        );
    }
}

/// A corruption method, the number of rounds that it runs on each range,
/// and the sampler that chooses the part of each round.
#[derive(Debug)]
pub struct KorruptionMethodConfig {
    /// The method that is applied.
    pub method: KorruptionMethod,
    /// The number of rounds on each range.
    pub rounds: u64,
    /// The sampler that chooses the part of each round.
    pub part_gen: PartLengthGenerator,
}

impl View for KorruptionMethodConfig {
    type V = MethodState;

    open spec fn view(&self) -> MethodState {
        MethodState { method: self.method, rounds: self.rounds, sampler: self.part_gen@ }
    }
}

/// The bounds of the region of a buffer of `n` bits that a range covers.
fn clamp_region(n: usize, origin: u64, len: u64) -> (bounds: (usize, usize))
    ensures
        bounds.0 == part_start(n as int, origin as int),
        bounds.1 == part_end(n as int, origin as int, len as int),
        bounds.0 <= bounds.1 <= n,
{
    let size: u64 = n as u64;
    let end: u64 = origin.saturating_add(len);
    let from: u64 = if origin < size {
        origin
    } else {
        size
    };
    let to: u64 = if end < size {
        end
    } else {
        size
    };
    (from as usize, to as usize)
}

impl KorruptionMethodConfig {
    /// Binds a method to a number of rounds and a sampler.
    pub fn new(method: KorruptionMethod, rounds: u64, part_len: PartLengthGenerator) -> (rslt:
        Self)
        ensures
            rslt.method == method,
            rslt.rounds == rounds,
            rslt.part_gen == part_len,
    {
        KorruptionMethodConfig { method, rounds, part_gen: part_len }
    }

    /// Runs all rounds of the method, one after the other, on the region of
    /// the buffer that the range at `range_origin` with `range_len` bits
    /// covers.
    pub fn process(&mut self, bin_data: &mut Vec<bool>, range_origin: u64, range_len: u64)
        ensures
            (final(bin_data)@, final(self)@) == old(self)@.processed(
                old(bin_data)@,
                range_origin,
                range_len,
            ),
            final(bin_data)@.len() <= old(bin_data)@.len(),
            old(self).method != KorruptionMethod::Shorten ==> final(bin_data)@.len() == old(
                bin_data,
            )@.len(),
            old(self).method != KorruptionMethod::Shorten ==> forall|i: int|
                0 <= i < old(bin_data)@.len() && !(part_start(
                    old(bin_data)@.len() as int,
                    range_origin as int,
                ) <= i < part_end(
                    old(bin_data)@.len() as int,
                    range_origin as int,
                    range_len as int,
                )) ==> final(bin_data)@[i] == old(bin_data)@[i],
    {
        proof {
            assert(bin_data.len() <= usize::MAX);
            old(self)@.lemma_processed_keeps_method(old(bin_data)@, range_origin, range_len);
            if old(self).method != KorruptionMethod::Shorten {
                old(self)@.lemma_processed_stays_in_region(
                    old(bin_data)@,
                    range_origin,
                    range_len,
                );
            }
        }
        let mut done: u64 = 0;
        while done < self.rounds
            invariant
                done <= self.rounds,
                self.method == old(self).method,
                self.rounds == old(self).rounds,
                (bin_data@, self.part_gen@) == rounds(
                    old(self).method,
                    old(bin_data)@,
                    old(self).part_gen@,
                    range_origin,
                    range_len,
                    done as nat,
                ),
            decreases self.rounds - done,
        {
            self.process_once(bin_data, range_origin, range_len);
            done = done + 1;
        }
    }

    /// Runs one round of the method on the region of the buffer that the
    /// range at `range_origin` with `range_len` bits covers: samples a part
    /// inside the region, and whatever else the method needs, and changes
    /// the buffer.
    pub fn process_once(&mut self, bin_data: &mut Vec<bool>, range_origin: u64, range_len: u64)
        ensures
            final(self).method == old(self).method,
            final(self).rounds == old(self).rounds,
            (final(bin_data)@, final(self).part_gen@) == round(
                old(self).method,
                old(bin_data)@,
                old(self).part_gen@,
                range_origin,
                range_len,
            ),
            final(bin_data)@.len() <= old(bin_data)@.len(),
            old(self).method == KorruptionMethod::Shorten ==> final(bin_data)@.len() == old(
                bin_data,
            )@.len() - old(self).part_gen@.sample_part(
                region_len(old(bin_data)@.len() as int, range_origin, range_len),
            ).0.1,
            old(self).method != KorruptionMethod::Shorten ==> final(bin_data)@.len() == old(
                bin_data,
            )@.len(),
            old(self).method != KorruptionMethod::Shorten ==> forall|i: int|
                0 <= i < old(bin_data)@.len() && !(part_start(
                    old(bin_data)@.len() as int,
                    range_origin as int,
                ) <= i < part_end(
                    old(bin_data)@.len() as int,
                    range_origin as int,
                    range_len as int,
                )) ==> final(bin_data)@[i] == old(bin_data)@[i],
    {
        proof {
            assert(bin_data.len() <= usize::MAX);
            lemma_shorten_removes_part(bin_data@, self.part_gen@, range_origin, range_len);
            lemma_round_never_grows(
                self.method,
                bin_data@,
                self.part_gen@,
                range_origin,
                range_len,
            );
            if self.method != KorruptionMethod::Shorten {
                lemma_round_stays_in_region(
                    self.method,
                    bin_data@,
                    self.part_gen@,
                    range_origin,
                    range_len,
                );
            }
        }
        let (from, to) = clamp_region(bin_data.len(), range_origin, range_len);
        let region: u64 = (to - from) as u64;
        let (offset, len) = self.part_gen.get_part(region);
        let start: usize = from + offset as usize;
        let size: usize = len as usize;
        match self.method {
            KorruptionMethod::Zeros => {
                fill_part(bin_data, start, size, false);
            },
            KorruptionMethod::Ones => {
                fill_part(bin_data, start, size, true);
            },
            KorruptionMethod::Flip => {
                flip_part(bin_data, start, size);
            },
            KorruptionMethod::Swap => {
                let (other_offset, other_len) = self.part_gen.get_part(region);
                let shorter: usize = if len < other_len {
                    size
                } else {
                    other_len as usize
                };
                swap_parts(bin_data, start, from + other_offset as usize, shorter);
            },
            KorruptionMethod::Reverse => {
                reverse_part(bin_data, start, size);
            },
            KorruptionMethod::Repeat => {
                repeat_part(bin_data, start, size, to - (start + size));
            },
            KorruptionMethod::Shorten => {
                remove_part(bin_data, start, size);
            },
            KorruptionMethod::AddNoise => {
                let noise: Vec<bool> = self.part_gen.get_bits(size);
                add_noise(bin_data, start, &noise);
            },
            KorruptionMethod::Interference => {
                let (other_offset, other_len) = self.part_gen.get_part(region);
                let shorter: usize = if len < other_len {
                    size
                } else {
                    other_len as usize
                };
                xor_parts(bin_data, start, from + other_offset as usize, shorter);
            },
            KorruptionMethod::RRotate => {
                let by: u64 = self.part_gen.get_len();
                let places: usize = if by < len {
                    by as usize
                } else {
                    size
                };
                rotate_part_right(bin_data, start, size, places);
            },
            KorruptionMethod::LRotate => {
                let by: u64 = self.part_gen.get_len();
                let places: usize = if by < len {
                    by as usize
                } else {
                    size
                };
                rotate_part_left(bin_data, start, size, places);
            },
        }
    }
}

} // verus!
