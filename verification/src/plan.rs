//! The corruption plan: methods, ranges and a seed.

use crate::bits::arr_from_binary;
use crate::bits::arr_to_binary;
use crate::bits::bits_of_bytes;
use crate::bits::bytes_of_bits;
use crate::bits::lemma_byte_of_kept_bits;
use crate::config::KorruptionMethodConfig;
use crate::config::MethodState;
use crate::error::ConfigError;
use crate::error::LengthError;
use crate::method::lowercased;
use crate::method::KorruptionMethod;
use crate::prng::drawn;
use crate::prng::fork_rng;
use crate::prng::forked;
use crate::prng::next_value;
use crate::prng::rng_words;
use crate::prng::seed_rng;
use crate::prng::seeded_words;
use crate::sampler::PartLengthGenerator;
use crate::sampler::SamplerState;
use crate::transform::part_end;
use crate::transform::part_start;
use vstd::prelude::*;

verus! {

/// A span of the bit buffer that corruption may touch.
#[derive(Debug, Clone, Copy, PartialEq, Eq)]
pub struct Range {
    /// The offset of the first bit of the span.
    pub from: u64,
    /// The number of bits in the span.
    pub len: u64,
}

impl Range {
    /// A range holds at least one bit.
    pub open spec fn wf(self) -> bool {
        self.len > 0
    }

    /// Whether bit `i` of a buffer of `n` bits lies in the region that the
    /// range covers: the bits from the range's origin up to its end, cut off
    /// at the end of the buffer.
    pub open spec fn covers(self, n: int, i: int) -> bool {
        part_start(n, self.from as int) <= i < part_end(n, self.from as int, self.len as int)
    }

    /// Makes the range of `len` bits at `from`. A range without bits is
    /// refused.
    pub fn new(from: u64, len: u64) -> (rslt: Option<Range>)
        ensures
            len == 0 ==> rslt is None,
            len > 0 ==> rslt == Some(Range { from, len }),
            rslt matches Some(range) ==> range.wf(),
    {
        if len == 0 {
            None
        } else {
            Some(Range { from, len })
        }
    }
}

/// What a plan is made of.
pub struct PlanState {
    /// What the methods are made of, in the order in which they are applied.
    pub methods: Seq<MethodState>,
    /// The ranges, in the order in which the methods are applied to them.
    pub ranges: Seq<Range>,
    /// The seed of the plan.
    pub seed: u64,
}

/// A corruption plan: the methods to apply, in order, the ranges to apply
/// them to, in order, and the seed from which the methods' samplers were
/// seeded.
#[derive(Debug)]
pub struct Korruption {
    /// The methods, in the order in which they are applied.
    pub methods: Vec<KorruptionMethodConfig>,
    /// The ranges, in the order in which the methods are applied to them.
    pub ranges: Vec<Range>,
    /// The seed of the plan.
    pub seed: u64,
}

impl View for Korruption {
    type V = PlanState;

    open spec fn view(&self) -> PlanState {
        PlanState {
            methods: Seq::new(self.methods@.len(), |i: int| self.methods@[i]@),
            ranges: self.ranges@,
            seed: self.seed,
        }
    }
}

impl Korruption {
    /// Makes a plan without methods and ranges, with the seed zero.
    pub fn new() -> (rslt: Self)
        ensures
            rslt.methods@.len() == 0,
            rslt.ranges@.len() == 0,
            rslt.seed == 0,
    {
        Korruption { methods: Vec::new(), ranges: Vec::new(), seed: 0 }
    }

    /// Appends a method to the plan.
    pub fn method(&mut self, m: KorruptionMethodConfig) -> (rslt: &mut Self)
        ensures
            rslt.methods@ == old(self).methods@.push(m),
            rslt.ranges == old(self).ranges,
            rslt.seed == old(self).seed,
            *final(self) == *final(rslt),
    {
        self.methods.push(m);
        self
    }

    /// Appends methods to the plan, in their order.
    pub fn methods(&mut self, m: Vec<KorruptionMethodConfig>) -> (rslt: &mut Self)
        ensures
            rslt.methods@ == old(self).methods@ + m@,
            rslt.ranges == old(self).ranges,
            rslt.seed == old(self).seed,
            *final(self) == *final(rslt),
    {
        let mut m = m;
        self.methods.append(&mut m);
        self
    }

    /// Appends a range to the plan.
    pub fn range(&mut self, range: Range) -> (rslt: &mut Self)
        ensures
            rslt.methods == old(self).methods,
            rslt.ranges@ == old(self).ranges@.push(range),
            rslt.seed == old(self).seed,
            *final(self) == *final(rslt),
    {
        self.ranges.push(range);
        self
    }

    /// Appends ranges to the plan, in their order.
    pub fn ranges(&mut self, ranges: Vec<Range>) -> (rslt: &mut Self)
        ensures
            rslt.methods == old(self).methods,
            rslt.ranges@ == old(self).ranges@ + ranges@,
            rslt.seed == old(self).seed,
            *final(self) == *final(rslt),
    {
        let mut ranges = ranges;
        self.ranges.append(&mut ranges);
        self
    }

    /// Sets the seed of the plan.
    pub fn seed(&mut self, seed: u64) -> (rslt: &mut Self)
        ensures
            rslt.methods == old(self).methods,
            rslt.ranges == old(self).ranges,
            rslt.seed == seed,
            *final(self) == *final(rslt),
    {
        self.seed = seed;
        self
    }

    /// Applies the plan to a bit buffer: for each range in order, each
    /// method in order runs all its rounds on the region that the range
    /// covers.
    pub fn run_bits(&mut self, bin_data: &mut Vec<bool>)
        ensures
            (final(bin_data)@, final(self)@) == old(self)@.applied(old(bin_data)@),
            final(bin_data)@.len() <= old(bin_data)@.len(),
            never_shorten(old(self)@.methods) ==> final(bin_data)@.len() == old(bin_data)@.len(),
            never_shorten(old(self)@.methods) ==> forall|i: int|
                0 <= i < old(bin_data)@.len() && #[trigger] outside_ranges(
                    old(self).ranges@,
                    old(self).ranges@.len(),
                    old(bin_data)@.len() as int,
                    i,
                ) ==> final(bin_data)@[i] == old(bin_data)@[i],
    {
        proof {
            assert(bin_data.len() <= usize::MAX);
            self@.lemma_applied(bin_data@);
        }
        let ghost first = self@;
        let mut r: usize = 0;
        while r < self.ranges.len()
            invariant
                r <= self.ranges@.len(),
                self.ranges == old(self).ranges,
                self.seed == old(self).seed,
                first == old(self)@,
                (bin_data@, self@.methods) == ranges_run(
                    first.methods,
                    old(bin_data)@,
                    first.ranges,
                    r as nat,
                ),
            decreases self.ranges@.len() - r,
        {
            let range: Range = self.ranges[r];
            let ghost entry_bits = bin_data@;
            let ghost entry = self@.methods;
            let mut m: usize = 0;
            while m < self.methods.len()
                invariant
                    m <= self.methods@.len(),
                    self.methods@.len() == entry.len(),
                    self.ranges == old(self).ranges,
                    self.seed == old(self).seed,
                    (bin_data@, self@.methods) == methods_run(entry, entry_bits, range, m as nat),
                decreases self.methods@.len() - m,
            {
                let ghost before = self@.methods;
                self.methods[m].process(bin_data, range.from, range.len);
                assert(self@.methods =~= before.update(m as int, self.methods@[m as int]@));
                m = m + 1;
            }
            r = r + 1;
        }
    }

    /// Corrupts a sequence of bytes: unpacks it into bits, applies the plan,
    /// and packs the bits again. A buffer that the plan has left with a
    /// number of bits that is not a multiple of eight is refused.
    pub fn run(&mut self, input: Vec<u8>) -> (rslt: Result<Vec<u8>, LengthError>)
        ensures
            final(self)@ == old(self)@.applied(bits_of_bytes(input@)).1,
            match rslt {
                Ok(bytes) => packed(old(self)@.applied(bits_of_bytes(input@)).0) == Ok::<
                    Seq<u8>,
                    LengthError,
                >(bytes@),
                Err(error) => packed(old(self)@.applied(bits_of_bytes(input@)).0) == Err::<
                    Seq<u8>,
                    LengthError,
                >(error),
            },
            never_shorten(old(self)@.methods) ==> rslt is Ok && rslt->Ok_0@.len() == input@.len(),
            never_shorten(old(self)@.methods) ==> forall|k: int|
                0 <= k < input@.len() && #[trigger] byte_outside_ranges(
                    old(self).ranges@,
                    input@.len() as int,
                    k,
                ) ==> rslt->Ok_0@[k] == input@[k],
    {
        let ghost bytes = input@;
        let mut bin_data: Vec<bool> = arr_to_binary(input);
        self.run_bits(&mut bin_data);
        proof {
            if never_shorten(old(self)@.methods) {
                assert forall|k: int|
                    0 <= k < bytes.len() && #[trigger] byte_outside_ranges(
                        old(self).ranges@,
                        bytes.len() as int,
                        k,
                    ) implies bytes_of_bits(bin_data@)[k] == bytes[k] by {
                    assert forall|j: int| 8 * k <= j < 8 * k + 8 implies bin_data@[j]
                        == bits_of_bytes(bytes)[j] by {
                        assert(outside_ranges(
                            old(self).ranges@,
                            old(self).ranges@.len(),
                            8 * (bytes.len() as int),
                            j,
                        ));
                    }
                    lemma_byte_of_kept_bits(bytes, bin_data@, k);
                }
            }
        }
        arr_from_binary(bin_data)
    }
}

/// The buffer and the methods after the first `count` of the methods have
/// run, in order, on the region that `range` covers.
pub open spec fn methods_run(
    methods: Seq<MethodState>,
    bits: Seq<bool>,
    range: Range,
    count: nat,
) -> (Seq<bool>, Seq<MethodState>)
    decreases count,
{
    if count == 0 {
        (bits, methods)
    } else {
        let (before, states) = methods_run(methods, bits, range, (count - 1) as nat);
        let (after, state) = states[count - 1].processed(before, range.from, range.len);
        (after, states.update(count - 1, state))
    }
}

/// The buffer and the methods after all methods have run on each of the
/// first `count` of the ranges, in order.
pub open spec fn ranges_run(
    methods: Seq<MethodState>,
    bits: Seq<bool>,
    ranges: Seq<Range>,
    count: nat,
) -> (Seq<bool>, Seq<MethodState>)
    decreases count,
{
    if count == 0 {
        (bits, methods)
    } else {
        let (before, states) = ranges_run(methods, bits, ranges, (count - 1) as nat);
        methods_run(states, before, ranges[count - 1], states.len())
    }
}

/// The bytes that a bit buffer packs into, or the error for a buffer whose
/// length is not a multiple of eight.
pub open spec fn packed(bits: Seq<bool>) -> Result<Seq<u8>, LengthError> {
    if bits.len() % 8 == 0 {
        Ok(bytes_of_bits(bits))
    } else {
        Err(LengthError { bit_len: bits.len() as usize })
    }
}

/// Whether none of the methods is `Shorten`.
pub open spec fn never_shorten(methods: Seq<MethodState>) -> bool {
    forall|i: int| 0 <= i < methods.len() ==> (#[trigger] methods[i]).method
        != KorruptionMethod::Shorten
}

/// Whether two lists hold the same methods with the same numbers of rounds,
/// whatever the states of their samplers.
pub open spec fn same_methods(one: Seq<MethodState>, other: Seq<MethodState>) -> bool {
    &&& one.len() == other.len()
    &&& forall|i: int|
        0 <= i < one.len() ==> (#[trigger] one[i]).method == other[i].method && one[i].rounds
            == other[i].rounds
}

/// Whether bit `i` of a buffer of `n` bits lies in the region of none of the
/// first `count` ranges.
pub open spec fn outside_ranges(ranges: Seq<Range>, count: nat, n: int, i: int) -> bool {
    forall|r: int| 0 <= r < count ==> !(#[trigger] ranges[r]).covers(n, i)
}

/// Whether byte `k` of `n` bytes has none of its eight bits in the region of
/// any of the ranges.
pub open spec fn byte_outside_ranges(ranges: Seq<Range>, n: int, k: int) -> bool {
    forall|j: int|
        8 * k <= j < 8 * k + 8 ==> #[trigger] outside_ranges(ranges, ranges.len(), 8 * n, j)
}

/// Running methods on a range changes nothing of them but their samplers,
/// and never makes the buffer longer. Where none of the methods is
/// `Shorten`, the buffer stays as long as it was, and no bit changes
/// outside the region that the range covers.
pub proof fn lemma_methods_run(
    methods: Seq<MethodState>,
    bits: Seq<bool>,
    range: Range,
    count: nat,
)
    requires
        count <= methods.len(),
        bits.len() <= u64::MAX,
    ensures
        same_methods(methods_run(methods, bits, range, count).1, methods),
        methods_run(methods, bits, range, count).0.len() <= bits.len(),
        never_shorten(methods) ==> methods_run(methods, bits, range, count).0.len()
            == bits.len(),
        never_shorten(methods) ==> forall|i: int|
            0 <= i < bits.len() && !range.covers(bits.len() as int, i) ==> methods_run(
                methods,
                bits,
                range,
                count,
            ).0[i] == bits[i],
    decreases count,
{
    if count > 0 {
        lemma_methods_run(methods, bits, range, (count - 1) as nat);
        let (before, states) = methods_run(methods, bits, range, (count - 1) as nat);
        let state = states[count - 1];
        state.lemma_processed_keeps_method(before, range.from, range.len);
        if never_shorten(methods) {
            assert(methods[count - 1].method != KorruptionMethod::Shorten);
            state.lemma_processed_stays_in_region(before, range.from, range.len);
        }
    }
}

/// Running methods on ranges changes nothing of them but their samplers,
/// and never makes the buffer longer. Where none of the methods is
/// `Shorten`, the buffer stays as long as it was, and no bit changes
/// outside the regions that the ranges cover.
pub proof fn lemma_ranges_run(
    methods: Seq<MethodState>,
    bits: Seq<bool>,
    ranges: Seq<Range>,
    count: nat,
)
    requires
        count <= ranges.len(),
        bits.len() <= u64::MAX,
    ensures
        same_methods(ranges_run(methods, bits, ranges, count).1, methods),
        ranges_run(methods, bits, ranges, count).0.len() <= bits.len(),
        never_shorten(methods) ==> ranges_run(methods, bits, ranges, count).0.len()
            == bits.len(),
        never_shorten(methods) ==> forall|i: int|
            0 <= i < bits.len() && #[trigger] outside_ranges(ranges, count, bits.len() as int, i)
                ==> ranges_run(methods, bits, ranges, count).0[i] == bits[i],
    decreases count,
{
    if count > 0 {
        lemma_ranges_run(methods, bits, ranges, (count - 1) as nat);
        let (before, states) = ranges_run(methods, bits, ranges, (count - 1) as nat);
        lemma_methods_run(states, before, ranges[count - 1], states.len());
        if never_shorten(methods) {
            assert(never_shorten(states)) by {
                assert forall|i: int| 0 <= i < states.len() implies (#[trigger] states[i]).method
                    != KorruptionMethod::Shorten by {
                    assert(methods[i].method != KorruptionMethod::Shorten);
                }
            }
            assert forall|i: int|
                0 <= i < bits.len() && #[trigger] outside_ranges(
                    ranges,
                    count,
                    bits.len() as int,
                    i,
                ) implies ranges_run(methods, bits, ranges, count).0[i] == bits[i] by {
                assert(outside_ranges(ranges, (count - 1) as nat, bits.len() as int, i));
                assert(!ranges[count - 1].covers(bits.len() as int, i));
            }
        }
    }
}

impl PlanState {
    /// Applying a plan changes nothing of it but the samplers of its
    /// methods, and never makes the buffer longer. A plan of which no method
    /// is `Shorten` leaves the buffer as long as it was, and changes no bit
    /// outside the regions that its ranges cover.
    pub proof fn lemma_applied(self, bits: Seq<bool>)
        requires
            bits.len() <= u64::MAX,
        ensures
            self.applied(bits).1.ranges == self.ranges,
            self.applied(bits).1.seed == self.seed,
            same_methods(self.applied(bits).1.methods, self.methods),
            self.applied(bits).0.len() <= bits.len(),
            never_shorten(self.methods) ==> self.applied(bits).0.len() == bits.len(),
            never_shorten(self.methods) ==> forall|i: int|
                0 <= i < bits.len() && #[trigger] outside_ranges(
                    self.ranges,
                    self.ranges.len(),
                    bits.len() as int,
                    i,
                ) ==> self.applied(bits).0[i] == bits[i],
    {
        lemma_ranges_run(self.methods, bits, self.ranges, self.ranges.len());
    }

    /// The output of a plan depends on nothing but what the plan is made of
    /// and the input: plans that are built from the same seed, methods and
    /// ranges turn the same input into the same output, and are left in the
    /// same state.
    pub proof fn lemma_same_plan_same_output(
        self,
        other: PlanState,
        seed: u64,
        methods: Seq<MethodRequest>,
        ranges: Seq<(u64, u64)>,
        input: Seq<u8>,
    )
        requires
            self == planned(seed, methods, ranges),
            other == planned(seed, methods, ranges),
        ensures
            self.applied(bits_of_bytes(input)) == other.applied(bits_of_bytes(input)),
            packed(self.applied(bits_of_bytes(input)).0) == packed(
                other.applied(bits_of_bytes(input)).0,
            ),
    {
    }
}

impl PlanState {
    /// The buffer and the plan after the plan has been applied to `bits`.
    pub open spec fn applied(self, bits: Seq<bool>) -> (Seq<bool>, PlanState) {
        let (after, methods) = ranges_run(self.methods, bits, self.ranges, self.ranges.len());
        (after, PlanState { methods, ..self })
    }
}

/// What is asked of one method of a plan: its name, its number of rounds,
/// and its part length, which is either fixed or lies between two bounds.
#[derive(Debug)]
pub struct MethodRequest {
    /// The name of the method, in any case.
    pub name: String,
    /// The number of rounds on each range.
    pub rounds: u64,
    /// The fixed part length, if the part length is fixed.
    pub fixed_len: Option<u64>,
    /// The least part length, if the part length is not fixed.
    pub min_len: Option<u64>,
    /// The greatest part length, if the part length is not fixed.
    pub max_len: Option<u64>,
}

/// The bounds of the part length that is asked for: the fixed length on both
/// sides where that alone is given, the two bounds where they alone are
/// given, and nothing otherwise.
pub open spec fn part_bounds(fixed: Option<u64>, min: Option<u64>, max: Option<u64>) -> Option<
    (u64, u64),
> {
    match (fixed, min, max) {
        (Some(len), None, None) => Some((len, len)),
        (None, Some(low), Some(high)) => Some((low, high)),
        _ => None,
    }
}

/// Finds the bounds of the part length that is asked for.
pub fn part_bounds_of(fixed: Option<u64>, min: Option<u64>, max: Option<u64>) -> (bounds: Option<
    (u64, u64),
>)
    ensures
        bounds == part_bounds(fixed, min, max),
{
    match (fixed, min, max) {
        (Some(len), None, None) => Some((len, len)),
        (None, Some(low), Some(high)) => Some((low, high)),
        _ => None,
    }
}

impl MethodRequest {
    /// The method that is asked for, if the name is that of a method.
    pub open spec fn method(self) -> Option<KorruptionMethod> {
        KorruptionMethod::named(lowercased(self.name@))
    }

    /// The bounds of the part length that is asked for, if it is valid.
    pub open spec fn bounds(self) -> Option<(u64, u64)> {
        part_bounds(self.fixed_len, self.min_len, self.max_len)
    }

    /// What is wrong with the request, which stands at `index` in its list.
    pub open spec fn error(self, index: int) -> Option<ConfigError> {
        if self.method() is None {
            Some(ConfigError::UnknownMethod { index: index as usize })
        } else if self.bounds() is None {
            Some(ConfigError::InvalidPartLength { index: index as usize })
        } else {
            None
        }
    }
}

/// The error of the first request with an error among those from `index` on.
pub open spec fn first_method_error(methods: Seq<MethodRequest>, index: int) -> Option<ConfigError>
    decreases methods.len() - index,
{
    if index < 0 || index >= methods.len() {
        None
    } else if methods[index].error(index) is Some {
        methods[index].error(index)
    } else {
        first_method_error(methods, index + 1)
    }
}

/// The error of the first range without bits among those from `index` on.
/// A range is given as its origin and its length.
pub open spec fn first_range_error(ranges: Seq<(u64, u64)>, index: int) -> Option<ConfigError>
    decreases ranges.len() - index,
{
    if index < 0 || index >= ranges.len() {
        None
    } else if ranges[index].1 == 0 {
        Some(ConfigError::EmptyRange { index: index as usize })
    } else {
        first_range_error(ranges, index + 1)
    }
}

/// The error that refuses the configuration, if there is one: that there is
/// no method; else that there is no range; else the first error of a method;
/// else the first error of a range.
pub open spec fn plan_error(methods: Seq<MethodRequest>, ranges: Seq<(u64, u64)>) -> Option<
    ConfigError,
> {
    if methods.len() == 0 {
        Some(ConfigError::NoMethods)
    } else if ranges.len() == 0 {
        Some(ConfigError::NoRanges)
    } else if first_method_error(methods, 0) is Some {
        first_method_error(methods, 0)
    } else {
        first_range_error(ranges, 0)
    }
}

/// Whether a configuration can be built into a plan: it has a method and a
/// range, the name of every method is known and its part length is either
/// fixed or bounded on both sides, and every range has a bit.
pub open spec fn valid_configuration(
    methods: Seq<MethodRequest>,
    ranges: Seq<(u64, u64)>,
) -> bool {
    &&& methods.len() > 0
    &&& ranges.len() > 0
    &&& forall|i: int|
        0 <= i < methods.len() ==> (#[trigger] methods[i]).method() is Some
            && methods[i].bounds() is Some
    &&& forall|i: int| 0 <= i < ranges.len() ==> (#[trigger] ranges[i]).1 > 0
}

proof fn lemma_first_method_error(methods: Seq<MethodRequest>, index: int)
    requires
        0 <= index <= methods.len(),
    ensures
        first_method_error(methods, index) is None <==> forall|i: int|
            index <= i < methods.len() ==> (#[trigger] methods[i]).method() is Some
                && methods[i].bounds() is Some,
    decreases methods.len() - index,
{
    if index < methods.len() {
        lemma_first_method_error(methods, index + 1);
        if first_method_error(methods, index) is None {
            assert forall|i: int| index <= i < methods.len() implies (#[trigger] methods[i]).method()
                is Some && methods[i].bounds() is Some by {
                if i == index {
                    assert(methods[index].error(index) is None);
                }
            }
        }
    }
}

proof fn lemma_first_range_error(ranges: Seq<(u64, u64)>, index: int)
    requires
        0 <= index <= ranges.len(),
    ensures
        first_range_error(ranges, index) is None <==> forall|i: int|
            index <= i < ranges.len() ==> (#[trigger] ranges[i]).1 > 0,
    decreases ranges.len() - index,
{
    if index < ranges.len() {
        lemma_first_range_error(ranges, index + 1);
    }
}

/// A configuration has no error exactly if it is valid.
pub proof fn lemma_plan_error(methods: Seq<MethodRequest>, ranges: Seq<(u64, u64)>)
    ensures
        plan_error(methods, ranges) is None <==> valid_configuration(methods, ranges),
{
    lemma_first_method_error(methods, 0);
    lemma_first_range_error(ranges, 0);
}

/// The state of the master generator of the seed after the samplers of the
/// first `count` methods have been given their generators. For each method
/// one value is drawn from the master generator and dropped, and the
/// method's generator is then forked from it.
pub open spec fn master_words(seed: u64, count: nat) -> Seq<u32>
    decreases count,
{
    if count == 0 {
        seeded_words(seed)
    } else {
        forked(drawn(master_words(seed, (count - 1) as nat)).1).1
    }
}

/// The state in which the generator of the method at `index` starts.
pub open spec fn sampler_words(seed: u64, index: nat) -> Seq<u32> {
    forked(drawn(master_words(seed, index)).1).0
}

/// The method configuration that a valid request at `index` asks for.
pub open spec fn planned_method(seed: u64, request: MethodRequest, index: nat) -> MethodState {
    let (low, high) = request.bounds()->Some_0;
    MethodState {
        method: request.method()->Some_0,
        rounds: request.rounds,
        sampler: SamplerState {
            is_fixed: low == high,
            min: if low <= high {
                low
            } else {
                high
            },
            max: if low <= high {
                high
            } else {
                low
            },
            words: sampler_words(seed, index),
        },
    }
}

/// The plan that a valid configuration asks for.
pub open spec fn planned(
    seed: u64,
    methods: Seq<MethodRequest>,
    ranges: Seq<(u64, u64)>,
) -> PlanState {
    PlanState {
        methods: Seq::new(methods.len(), |i: int| planned_method(seed, methods[i], i as nat)),
        ranges: Seq::new(ranges.len(), |i: int| Range { from: ranges[i].0, len: ranges[i].1 }),
        seed,
    }
}

/// Builds the plan for a seed, a list of methods and a list of ranges, each
/// range given as its origin and its length.
///
/// The configuration is refused if it has no method or no range, if the
/// name of a method is unknown, if the part length of a method is not
/// either fixed or bounded on both sides, and if a range has no bits.
/// Bounds in the wrong order are exchanged. Each method gets a generator of
/// its own: for each method in turn, one value is drawn from a master
/// generator that is seeded with `seed`, and the method's generator is then
/// forked from the master generator.
pub fn build_plan(seed: u64, methods: &Vec<MethodRequest>, ranges: &Vec<(u64, u64)>) -> (rslt:
    Result<Korruption, ConfigError>)
    ensures
        match rslt {
            Ok(plan) => plan_error(methods@, ranges@) is None && plan@ == planned(
                seed,
                methods@,
                ranges@,
            ),
            Err(error) => plan_error(methods@, ranges@) == Some(error),
        },
        rslt is Ok <==> valid_configuration(methods@, ranges@),
        rslt matches Ok(plan) ==> forall|i: int|
            0 <= i < plan.ranges@.len() ==> (#[trigger] plan.ranges@[i]).wf(),
        rslt matches Ok(plan) ==> forall|i: int|
            0 <= i < plan.methods@.len() ==> (#[trigger] plan.methods@[i]).part_gen@.wf(),
{
    proof {
        lemma_plan_error(methods@, ranges@);
    }
    if methods.len() == 0 {
        return Err(ConfigError::NoMethods);
    }
    if ranges.len() == 0 {
        return Err(ConfigError::NoRanges);
    }
    let mut plan = Korruption::new();
    plan.seed(seed);
    let mut master = seed_rng(seed);
    let mut i: usize = 0;
    while i < methods.len()
        invariant
            i <= methods@.len(),
            ranges@.len() > 0,
            rng_words(master) == master_words(seed, i as nat),
            first_method_error(methods@, 0) == first_method_error(methods@, i as int),
            plan.seed == seed,
            plan.ranges@.len() == 0,
            plan.methods@.len() == i,
            forall|j: int|
                0 <= j < i ==> plan.methods@[j]@ == planned_method(seed, methods@[j], j as nat),
            forall|j: int| 0 <= j < i ==> (#[trigger] plan.methods@[j]).part_gen@.wf(),
        decreases methods@.len() - i,
    {
        let request = &methods[i];
        let method = match KorruptionMethod::from_name(request.name.as_str()) {
            Some(method) => method,
            None => {
                return Err(ConfigError::UnknownMethod { index: i });
            },
        };
        let (low, high) = match part_bounds_of(
            request.fixed_len,
            request.min_len,
            request.max_len,
        ) {
            Some(bounds) => bounds,
            None => {
                return Err(ConfigError::InvalidPartLength { index: i });
            },
        };
        next_value(&mut master);
        let child = fork_rng(&mut master).unwrap();
        let part_gen = PartLengthGenerator::new(low, high, child);
        plan.method(KorruptionMethodConfig::new(method, request.rounds, part_gen));
        i = i + 1;
    }
    let mut k: usize = 0;
    while k < ranges.len()
        invariant
            k <= ranges@.len(),
            methods@.len() > 0,
            first_method_error(methods@, 0) is None,
            first_range_error(ranges@, 0) == first_range_error(ranges@, k as int),
            plan.seed == seed,
            plan.methods@.len() == methods@.len(),
            forall|j: int|
                0 <= j < methods@.len() ==> plan.methods@[j]@ == planned_method(
                    seed,
                    methods@[j],
                    j as nat,
                ),
            forall|j: int|
                0 <= j < methods@.len() ==> (#[trigger] plan.methods@[j]).part_gen@.wf(),
            plan.ranges@.len() == k,
            forall|j: int|
                0 <= j < k ==> plan.ranges@[j] == (Range { from: ranges@[j].0, len: ranges@[j].1 }),
            forall|j: int| 0 <= j < k ==> (#[trigger] plan.ranges@[j]).wf(),
        decreases ranges@.len() - k,
    {
        match Range::new(ranges[k].0, ranges[k].1) {
            Some(range) => {
                plan.range(range);
            },
            None => {
                return Err(ConfigError::EmptyRange { index: k });
            },
        }
        k = k + 1;
    }
    assert(plan@.methods =~= planned(seed, methods@, ranges@).methods);
    assert(plan@.ranges =~= planned(seed, methods@, ranges@).ranges);
    Ok(plan)
}

} // verus!
