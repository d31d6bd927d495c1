//! The transformations of a bit buffer.
//!
//! Each function changes one part of a buffer, or two, at positions that the
//! caller gives. A part that reaches beyond the end of the buffer is cut off
//! there, and a part that starts beyond the end is empty, so that every
//! function accepts every position and none reads or writes outside the
//! buffer.

use vstd::prelude::*;

verus! {

/// Where a part asked for at `start` begins in a buffer of `n` bits.
pub open spec fn part_start(n: int, start: int) -> int {
    if start < n {
        start
    } else {
        n
    }
}

/// Where a part of `len` bits asked for at `start` ends in a buffer of `n` bits.
pub open spec fn part_end(n: int, start: int, len: int) -> int {
    if start + len < n {
        start + len
    } else {
        n
    }
}

/// The buffer with every bit of the part set to `value`.
pub open spec fn filled(bits: Seq<bool>, start: int, len: int, value: bool) -> Seq<bool> {
    Seq::new(
        bits.len(),
        |i: int|
            if start <= i < start + len {
                value
            } else {
                bits[i]
            },
    )
}

/// The buffer with every bit of the part inverted.
pub open spec fn flipped(bits: Seq<bool>, start: int, len: int) -> Seq<bool> {
    Seq::new(
        bits.len(),
        |i: int|
            if start <= i < start + len {
                !bits[i]
            } else {
                bits[i]
            },
    )
}

/// The buffer with the bits of the part in reverse order.
pub open spec fn reversed(bits: Seq<bool>, start: int, len: int) -> Seq<bool> {
    let from = part_start(bits.len() as int, start);
    let to = part_end(bits.len() as int, start, len);
    Seq::new(
        bits.len(),
        |i: int|
            if from <= i < to {
                bits[from + to - 1 - i]
            } else {
                bits[i]
            },
    )
}

/// The buffer with the pattern of the part repeated over the `span` bits
/// that follow it. The last repetition stops where the span ends.
pub open spec fn repeated(bits: Seq<bool>, start: int, len: int, span: int) -> Seq<bool> {
    let from = part_start(bits.len() as int, start);
    let to = part_end(bits.len() as int, start, len);
    Seq::new(
        bits.len(),
        |i: int|
            if from < to && to <= i < to + span {
                bits[from + (i - from) % (to - from)]
            } else {
                bits[i]
            },
    )
}

/// The buffer without the part: the bits after it move down to where it
/// began.
pub open spec fn removed(bits: Seq<bool>, start: int, len: int) -> Seq<bool> {
    let from = part_start(bits.len() as int, start);
    let to = part_end(bits.len() as int, start, len);
    bits.subrange(0, from) + bits.subrange(to, bits.len() as int)
}

/// The buffer with each bit of `noise` combined by exclusive or into the bit
/// at the same offset from `start`.
pub open spec fn noised(bits: Seq<bool>, start: int, noise: Seq<bool>) -> Seq<bool> {
    Seq::new(
        bits.len(),
        |i: int|
            if start <= i < start + noise.len() {
                bits[i] != noise[i - start]
            } else {
                bits[i]
            },
    )
}

/// The length of two parts of equal length, asked for with `len` bits at
/// `first` and at `second`, of which neither reaches beyond a buffer of `n`
/// bits.
pub open spec fn pair_len(n: int, first: int, second: int, len: int) -> int {
    let later = if first < second {
        second
    } else {
        first
    };
    if later >= n {
        0
    } else if len < n - later {
        len
    } else {
        n - later
    }
}

/// The buffer with each bit of the second part combined by exclusive or into
/// the bit at the same offset in the first part. The bits of the second part
/// are taken as they are before any bit changes.
pub open spec fn combined(bits: Seq<bool>, first: int, second: int, len: int) -> Seq<bool> {
    let count = pair_len(bits.len() as int, first, second, len);
    Seq::new(
        bits.len(),
        |i: int|
            if first <= i < first + count {
                bits[i] != bits[i - first + second]
            } else {
                bits[i]
            },
    )
}

/// The buffer with the bits at `i` and `j` exchanged.
pub open spec fn exchanged(bits: Seq<bool>, i: int, j: int) -> Seq<bool> {
    bits.update(i, bits[j]).update(j, bits[i])
}

/// The buffer after the first `count` bits of the part at `first` have been
/// exchanged, one after the other, with the bits at the same offsets in the
/// part at `second`.
pub open spec fn swapped_first(bits: Seq<bool>, first: int, second: int, count: nat) -> Seq<bool>
    decreases count,
{
    if count == 0 {
        bits
    } else {
        exchanged(
            swapped_first(bits, first, second, (count - 1) as nat),
            first + count - 1,
            second + count - 1,
        )
    }
}

/// The buffer with the two parts exchanged, bit by bit from their first bits
/// on.
pub open spec fn swapped(bits: Seq<bool>, first: int, second: int, len: int) -> Seq<bool> {
    swapped_first(bits, first, second, pair_len(bits.len() as int, first, second, len) as nat)
}

/// The number of places by which a part of `part` bits is rotated when a
/// rotation by `by` is asked for.
pub open spec fn rotation(part: int, by: int) -> int {
    if by < part {
        by
    } else {
        part
    }
}

/// The buffer with the part rotated to the right: its last bits move to its
/// front, and the others move up by as many places.
pub open spec fn rotated_right(bits: Seq<bool>, start: int, len: int, by: int) -> Seq<bool> {
    let from = part_start(bits.len() as int, start);
    let to = part_end(bits.len() as int, start, len);
    let shift = rotation(to - from, by);
    Seq::new(
        bits.len(),
        |i: int|
            if from <= i < from + shift {
                bits[i + (to - from - shift)]
            } else if from + shift <= i < to {
                bits[i - shift]
            } else {
                bits[i]
            },
    )
}

/// The buffer with the part rotated to the left: its first bits move to its
/// end, and the others move down by as many places.
pub open spec fn rotated_left(bits: Seq<bool>, start: int, len: int, by: int) -> Seq<bool> {
    let from = part_start(bits.len() as int, start);
    let to = part_end(bits.len() as int, start, len);
    let shift = rotation(to - from, by);
    Seq::new(
        bits.len(),
        |i: int|
            if from <= i < to - shift {
                bits[i + shift]
            } else if to - shift <= i < to {
                bits[i - (to - from - shift)]
            } else {
                bits[i]
            },
    )
}

/// Filling a part twice with the same value gives what filling it once gives.
pub proof fn lemma_fill_twice(bits: Seq<bool>, start: int, len: int, value: bool)
    ensures
        filled(filled(bits, start, len, value), start, len, value) == filled(
            bits,
            start,
            len,
            value,
        ),
{
    assert(filled(filled(bits, start, len, value), start, len, value) =~= filled(
        bits,
        start,
        len,
        value,
    ));
}

/// Inverting a part twice gives the buffer back.
pub proof fn lemma_flip_twice(bits: Seq<bool>, start: int, len: int)
    ensures
        flipped(flipped(bits, start, len), start, len) == bits,
{
    assert(flipped(flipped(bits, start, len), start, len) =~= bits);
}

/// Reversing a part twice gives the buffer back.
pub proof fn lemma_reverse_twice(bits: Seq<bool>, start: int, len: int)
    requires
        0 <= start,
        0 <= len,
    ensures
        reversed(reversed(bits, start, len), start, len) == bits,
{
    assert(reversed(reversed(bits, start, len), start, len) =~= bits);
}

/// Removing a part makes the buffer shorter by the length of the part, as
/// far as the part lies inside the buffer.
pub proof fn lemma_removed_len(bits: Seq<bool>, start: int, len: int)
    requires
        0 <= start,
        0 <= len,
    ensures
        removed(bits, start, len).len() == bits.len() - (part_end(
            bits.len() as int,
            start,
            len,
        ) - part_start(bits.len() as int, start)),
        start + len <= bits.len() ==> removed(bits, start, len).len() == bits.len() - len,
{
}

/// Rotating a part to the right and then to the left by as many places
/// gives the buffer back, and so does rotating it to the left and then to
/// the right: a rotation loses no bit of the part.
pub proof fn lemma_rotations_cancel(bits: Seq<bool>, start: int, len: int, by: int)
    requires
        0 <= start,
        0 <= len,
        0 <= by,
    ensures
        rotated_left(rotated_right(bits, start, len, by), start, len, by) == bits,
        rotated_right(rotated_left(bits, start, len, by), start, len, by) == bits,
{
    assert(rotated_left(rotated_right(bits, start, len, by), start, len, by) =~= bits);
    assert(rotated_right(rotated_left(bits, start, len, by), start, len, by) =~= bits);
}

/// Exchanging the first `count` bits of two parts that lie inside the buffer
/// keeps the length of the buffer and every bit outside the two parts.
proof fn lemma_swapped_first_outside(bits: Seq<bool>, first: int, second: int, count: nat)
    requires
        0 <= first,
        0 <= second,
        count > 0 ==> first + count <= bits.len() && second + count <= bits.len(),
    ensures
        swapped_first(bits, first, second, count).len() == bits.len(),
        forall|i: int|
            0 <= i < bits.len() && !(first <= i < first + count) && !(second <= i < second
                + count) ==> swapped_first(bits, first, second, count)[i] == bits[i],
    decreases count,
{
    if count > 0 {
        lemma_swapped_first_outside(bits, first, second, (count - 1) as nat);
    }
}

/// Where the first `count` bits of two parts that lie inside the buffer do
/// not overlap, exchanging them puts each bit of one part where the bit at
/// the same offset in the other part was.
proof fn lemma_swapped_first_apart(bits: Seq<bool>, first: int, second: int, count: nat)
    requires
        0 <= first,
        0 <= second,
        count > 0 ==> first + count <= bits.len() && second + count <= bits.len(),
        first + count <= second || second + count <= first,
    ensures
        swapped_first(bits, first, second, count) == Seq::new(
            bits.len(),
            |i: int|
                if first <= i < first + count {
                    bits[i - first + second]
                } else if second <= i < second + count {
                    bits[i - second + first]
                } else {
                    bits[i]
                },
        ),
    decreases count,
{
    if count > 0 {
        lemma_swapped_first_apart(bits, first, second, (count - 1) as nat);
    }
    assert(swapped_first(bits, first, second, count) =~= Seq::new(
        bits.len(),
        |i: int|
            if first <= i < first + count {
                bits[i - first + second]
            } else if second <= i < second + count {
                bits[i - second + first]
            } else {
                bits[i]
            },
    ));
}

/// Exchanging two parts keeps the length of the buffer and every bit outside
/// the two parts.
pub proof fn lemma_swapped_outside(bits: Seq<bool>, first: int, second: int, len: int)
    requires
        0 <= first,
        0 <= second,
        0 <= len,
    ensures
        swapped(bits, first, second, len).len() == bits.len(),
        forall|i: int|
            0 <= i < bits.len() && !(first <= i < first + len) && !(second <= i < second + len)
                ==> swapped(bits, first, second, len)[i] == bits[i],
{
    let count = pair_len(bits.len() as int, first, second, len);
    lemma_swapped_first_outside(bits, first, second, count as nat);
}

/// Where two parts do not overlap, exchanging them puts each bit of one part
/// where the bit at the same offset in the other part was.
pub proof fn lemma_swapped_apart(bits: Seq<bool>, first: int, second: int, len: int)
    requires
        0 <= first,
        0 <= second,
        0 <= len,
        first + len <= second || second + len <= first,
    ensures
        swapped(bits, first, second, len) == Seq::new(
            bits.len(),
            |i: int|
                if first <= i < first + pair_len(bits.len() as int, first, second, len) {
                    bits[i - first + second]
                } else if second <= i < second + pair_len(
                    bits.len() as int,
                    first,
                    second,
                    len,
                ) {
                    bits[i - second + first]
                } else {
                    bits[i]
                },
        ),
{
    let count = pair_len(bits.len() as int, first, second, len);
    lemma_swapped_first_apart(bits, first, second, count as nat);
}

/// The bounds of a part within a buffer of `n` bits.
fn clamp_part(n: usize, start: usize, len: usize) -> (bounds: (usize, usize))
    ensures
        bounds.0 == part_start(n as int, start as int),
        bounds.1 == part_end(n as int, start as int, len as int),
        bounds.0 <= bounds.1 <= n,
{
    let from: usize = if start < n {
        start
    } else {
        n
    };
    let to: usize = if len < n - from {
        from + len
    } else {
        n
    };
    (from, to)
}

/// Sets every bit of the part of `len` bits at `start` to `value`.
pub fn fill_part(bits: &mut Vec<bool>, start: usize, len: usize, value: bool)
    ensures
        final(bits)@ == filled(old(bits)@, start as int, len as int, value),
        final(bits)@.len() == old(bits)@.len(),
{
    let ghost before = bits@;
    let n: usize = bits.len();
    let (from, to) = clamp_part(n, start, len);
    let mut i: usize = from;
    while i < to
        invariant
            from <= i <= to <= n,
            bits@.len() == n,
            before.len() == n,
            forall|j: int|
                0 <= j < n ==> bits@[j] == (if from <= j < i {
                    value
                } else {
                    before[j]
                }),
        decreases to - i,
    {
        bits[i] = value;
        i = i + 1;
    }
}

/// Inverts every bit of the part of `len` bits at `start`.
pub fn flip_part(bits: &mut Vec<bool>, start: usize, len: usize)
    ensures
        final(bits)@ == flipped(old(bits)@, start as int, len as int),
        final(bits)@.len() == old(bits)@.len(),
{
    let ghost before = bits@;
    let n: usize = bits.len();
    let (from, to) = clamp_part(n, start, len);
    let mut i: usize = from;
    while i < to
        invariant
            from <= i <= to <= n,
            bits@.len() == n,
            before.len() == n,
            forall|j: int|
                0 <= j < n ==> bits@[j] == (if from <= j < i {
                    !before[j]
                } else {
                    before[j]
                }),
        decreases to - i,
    {
        let bit: bool = bits[i];
        bits[i] = !bit;
        i = i + 1;
    }
}

/// Reverses the order of the bits of the part of `len` bits at `start`.
pub fn reverse_part(bits: &mut Vec<bool>, start: usize, len: usize)
    ensures
        final(bits)@ == reversed(old(bits)@, start as int, len as int),
        final(bits)@.len() == old(bits)@.len(),
{
    let ghost before = bits@;
    let n: usize = bits.len();
    let (from, to) = clamp_part(n, start, len);
    let mut low: usize = from;
    let mut high: usize = to;
    while high - low > 1
        invariant
            from <= low <= high <= to <= n,
            low - from == to - high,
            bits@.len() == n,
            before.len() == n,
            forall|j: int|
                0 <= j < n ==> bits@[j] == (if from <= j < low || high <= j < to {
                    before[from + to - 1 - j]
                } else {
                    before[j]
                }),
        decreases high - low,
    {
        high = high - 1;
        let lower: bool = bits[low];
        let upper: bool = bits[high];
        bits[low] = upper;
        bits[high] = lower;
        low = low + 1;
    }
}

/// Repeats the pattern of the part of `len` bits at `start` over the `span`
/// bits that follow the part.
pub fn repeat_part(bits: &mut Vec<bool>, start: usize, len: usize, span: usize)
    ensures
        final(bits)@ == repeated(old(bits)@, start as int, len as int, span as int),
        final(bits)@.len() == old(bits)@.len(),
{
    let ghost before = bits@;
    let n: usize = bits.len();
    let (from, to) = clamp_part(n, start, len);
    let part: usize = to - from;
    if part == 0 {
        return ;
    }
    let stop: usize = if span < n - to {
        to + span
    } else {
        n
    };
    let mut i: usize = to;
    while i < stop
        invariant
            from < to <= i <= stop <= n,
            part == to - from,
            bits@.len() == n,
            before.len() == n,
            forall|j: int|
                0 <= j < n ==> bits@[j] == (if to <= j < i {
                    before[from + (j - from) % (part as int)]
                } else {
                    before[j]
                }),
        decreases stop - i,
    {
        let offset: usize = (i - from) % part;
        let bit: bool = bits[from + offset];
        bits[i] = bit;
        i = i + 1;
    }
}

/// Removes the part of `len` bits at `start` from the buffer.
pub fn remove_part(bits: &mut Vec<bool>, start: usize, len: usize)
    ensures
        final(bits)@ == removed(old(bits)@, start as int, len as int),
        final(bits)@.len() == old(bits)@.len() - (part_end(
            old(bits)@.len() as int,
            start as int,
            len as int,
        ) - part_start(old(bits)@.len() as int, start as int)),
{
    let ghost before = bits@;
    let n: usize = bits.len();
    let (from, to) = clamp_part(n, start, len);
    let cut: usize = to - from;
    let mut i: usize = to;
    while i < n
        invariant
            from <= to <= i <= n,
            cut == to - from,
            bits@.len() == n,
            before.len() == n,
            forall|j: int| 0 <= j < from ==> bits@[j] == before[j],
            forall|j: int| from <= j < i - cut ==> bits@[j] == before[j + cut],
            forall|j: int| i <= j < n ==> bits@[j] == before[j],
        decreases n - i,
    {
        let bit: bool = bits[i];
        bits[i - cut] = bit;
        i = i + 1;
    }
    bits.truncate(n - cut);
    assert(bits@ =~= removed(before, start as int, len as int));
}

/// Combines each bit of `noise` by exclusive or into the bit of the buffer at
/// the same offset from `start`.
pub fn add_noise(bits: &mut Vec<bool>, start: usize, noise: &Vec<bool>)
    ensures
        final(bits)@ == noised(old(bits)@, start as int, noise@),
        final(bits)@.len() == old(bits)@.len(),
{
    let ghost before = bits@;
    let n: usize = bits.len();
    let (from, to) = clamp_part(n, start, noise.len());
    let mut i: usize = from;
    while i < to
        invariant
            from <= i <= to <= n,
            from == part_start(n as int, start as int),
            to == part_end(n as int, start as int, noise@.len() as int),
            bits@.len() == n,
            before.len() == n,
            forall|j: int|
                0 <= j < n ==> bits@[j] == (if from <= j < i {
                    before[j] != noise@[j - start]
                } else {
                    before[j]
                }),
        decreases to - i,
    {
        let bit: bool = bits[i];
        let flip: bool = noise[i - start];
        bits[i] = bit != flip;
        i = i + 1;
    }
}

/// The length of two parts of equal length within a buffer of `n` bits.
fn clamp_pair(n: usize, first: usize, second: usize, len: usize) -> (count: usize)
    ensures
        count == pair_len(n as int, first as int, second as int, len as int),
        count <= len,
        count > 0 ==> first + count <= n && second + count <= n,
{
    let later: usize = if first < second {
        second
    } else {
        first
    };
    if later >= n {
        0
    } else if len < n - later {
        len
    } else {
        n - later
    }
}

/// Combines each bit of the part at `second` by exclusive or into the bit at
/// the same offset in the part at `first`. Both parts have `len` bits.
pub fn xor_parts(bits: &mut Vec<bool>, first: usize, second: usize, len: usize)
    ensures
        final(bits)@ == combined(old(bits)@, first as int, second as int, len as int),
        final(bits)@.len() == old(bits)@.len(),
{
    let ghost before = bits@;
    let n: usize = bits.len();
    let count: usize = clamp_pair(n, first, second, len);
    let mut source: Vec<bool> = Vec::with_capacity(count);
    let mut k: usize = 0;
    while k < count
        invariant
            k <= count,
            count > 0 ==> second + count <= n,
            bits@ == before,
            before.len() == n,
            source@.len() == k,
            forall|j: int| 0 <= j < k ==> source@[j] == before[second + j],
        decreases count - k,
    {
        source.push(bits[second + k]);
        k = k + 1;
    }
    k = 0;
    while k < count
        invariant
            k <= count,
            count > 0 ==> first + count <= n,
            bits@.len() == n,
            before.len() == n,
            source@.len() == count,
            forall|j: int| 0 <= j < count ==> source@[j] == before[second + j],
            forall|j: int|
                0 <= j < n ==> bits@[j] == (if first <= j < first + k {
                    before[j] != before[j - first + second]
                } else {
                    before[j]
                }),
        decreases count - k,
    {
        let bit: bool = bits[first + k];
        let other: bool = source[k];
        bits[first + k] = bit != other;
        k = k + 1;
    }
}

/// Exchanges the part at `first` with the part at `second`, bit by bit from
/// their first bits on. Both parts have `len` bits.
pub fn swap_parts(bits: &mut Vec<bool>, first: usize, second: usize, len: usize)
    ensures
        final(bits)@ == swapped(old(bits)@, first as int, second as int, len as int),
        final(bits)@.len() == old(bits)@.len(),
{
    let ghost before = bits@;
    let n: usize = bits.len();
    let count: usize = clamp_pair(n, first, second, len);
    let mut k: usize = 0;
    while k < count
        invariant
            k <= count,
            count > 0 ==> first + count <= n && second + count <= n,
            bits@.len() == n,
            bits@ == swapped_first(before, first as int, second as int, k as nat),
        decreases count - k,
    {
        let ghost prev = bits@;
        let one: bool = bits[first + k];
        let other: bool = bits[second + k];
        bits[first + k] = other;
        bits[second + k] = one;
        assert(bits@ =~= exchanged(prev, first + k, second + k));
        k = k + 1;
    }
}

/// Copies the bits of the buffer from `from` up to `to` into a new buffer.
fn copy_part(bits: &Vec<bool>, from: usize, to: usize) -> (part: Vec<bool>)
    requires
        from <= to <= bits@.len(),
    ensures
        part@ == bits@.subrange(from as int, to as int),
{
    let mut part: Vec<bool> = Vec::with_capacity(to - from);
    let mut i: usize = from;
    while i < to
        invariant
            from <= i <= to <= bits@.len(),
            part@.len() == i - from,
            forall|j: int| 0 <= j < i - from ==> part@[j] == bits@[from + j],
        decreases to - i,
    {
        part.push(bits[i]);
        i = i + 1;
    }
    assert(part@ =~= bits@.subrange(from as int, to as int));
    part
}

/// Rotates the part of `len` bits at `start` to the right by `by` places, or
/// by the length of the part if that is less.
pub fn rotate_part_right(bits: &mut Vec<bool>, start: usize, len: usize, by: usize)
    ensures
        final(bits)@ == rotated_right(old(bits)@, start as int, len as int, by as int),
        final(bits)@.len() == old(bits)@.len(),
{
    let ghost before = bits@;
    let n: usize = bits.len();
    let (from, to) = clamp_part(n, start, len);
    let part: usize = to - from;
    let shift: usize = if by < part {
        by
    } else {
        part
    };
    let source: Vec<bool> = copy_part(bits, from, to);
    let mut k: usize = 0;
    while k < part
        invariant
            k <= part,
            part == to - from,
            shift <= part,
            from <= to <= n,
            bits@.len() == n,
            before.len() == n,
            source@ == before.subrange(from as int, to as int),
            forall|j: int|
                0 <= j < n ==> bits@[j] == (if from <= j < from + k {
                    rotated_right(before, start as int, len as int, by as int)[j]
                } else {
                    before[j]
                }),
            from == part_start(n as int, start as int),
            to == part_end(n as int, start as int, len as int),
            shift == rotation(part as int, by as int),
        decreases part - k,
    {
        let bit: bool = if k < shift {
            source[k + (part - shift)]
        } else {
            source[k - shift]
        };
        bits[from + k] = bit;
        k = k + 1;
    }
}

/// Rotates the part of `len` bits at `start` to the left by `by` places, or
/// by the length of the part if that is less.
pub fn rotate_part_left(bits: &mut Vec<bool>, start: usize, len: usize, by: usize)
    ensures
        final(bits)@ == rotated_left(old(bits)@, start as int, len as int, by as int),
        final(bits)@.len() == old(bits)@.len(),
{
    let ghost before = bits@;
    let n: usize = bits.len();
    let (from, to) = clamp_part(n, start, len);
    let part: usize = to - from;
    let shift: usize = if by < part {
        by
    } else {
        part
    };
    let source: Vec<bool> = copy_part(bits, from, to);
    let mut k: usize = 0;
    while k < part
        invariant
            k <= part,
            part == to - from,
            shift <= part,
            from <= to <= n,
            bits@.len() == n,
            before.len() == n,
            source@ == before.subrange(from as int, to as int),
            forall|j: int|
                0 <= j < n ==> bits@[j] == (if from <= j < from + k {
                    rotated_left(before, start as int, len as int, by as int)[j]
                } else {
                    before[j]
                }),
            from == part_start(n as int, start as int),
            to == part_end(n as int, start as int, len as int),
            shift == rotation(part as int, by as int),
        decreases part - k,
    {
        let bit: bool = if k < part - shift {
            source[k + shift]
        } else {
            source[k - (part - shift)]
        };
        bits[from + k] = bit;
        k = k + 1;
    }
}

} // verus!
