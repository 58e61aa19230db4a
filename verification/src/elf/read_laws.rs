//! What is read from file bytes, and how values are rounded up.

use super::read;
use crate::bytes;
use vstd::arithmetic::power2::{lemma2_to64, lemma_pow2_unfold, pow2};
use vstd::prelude::*;

verus! {

/// Stored integers weigh their bytes by powers of 256, the first byte least, and a stored signed
/// integer is negative where its last byte has the top bit.
pub proof fn law_integers_weigh_their_bytes(s: Seq<u8>, at: int)
    ensures
        bytes::u16_at(s, at) == s[at] + 256 * s[at + 1],
        bytes::u32_at(s, at) == s[at] + 256 * s[at + 1] + 65536 * s[at + 2] + 16777216 * s[at + 3],
        bytes::u64_at(s, at) == bytes::u32_at(s, at) + 4294967296 * bytes::u32_at(s, at + 4),
        bytes::i64_at(s, at) == if s[at + 7] < 128 {
            bytes::u64_at(s, at) as int
        } else {
            bytes::u64_at(s, at) - 18446744073709551616
        },
{
}

/// The bytes of an integer are its digits to the base of 256, the lowest first.
pub proof fn law_bytes_are_digits(small: u16, middle: u32, large: u64)
    ensures
        bytes::u16_bytes(small).len() == 2,
        small == bytes::u16_bytes(small)[0] + 256 * bytes::u16_bytes(small)[1],
        bytes::u32_bytes(middle).len() == 4,
        middle == bytes::u32_bytes(middle)[0] + 256 * bytes::u32_bytes(middle)[1] + 65536
            * bytes::u32_bytes(middle)[2] + 16777216 * bytes::u32_bytes(middle)[3],
        bytes::u64_bytes(large).len() == 8,
        large == bytes::u32_at(bytes::u64_bytes(large), 0) + 4294967296 * bytes::u32_at(
            bytes::u64_bytes(large),
            4,
        ),
{
    broadcast use bytes::group_bytes_len;

    reveal(bytes::u16_bytes);
    assert(bytes::u32_bytes(middle).subrange(0, 4) =~= bytes::u32_bytes(middle));
    bytes::lemma_u32_spelled(bytes::u32_bytes(middle), 0, middle);
    assert(bytes::u64_bytes(large).subrange(0, 8) =~= bytes::u64_bytes(large));
    bytes::lemma_u64_spelled(bytes::u64_bytes(large), 0, large);
}

/// Overwriting puts the new bytes where they belong and keeps all others.
pub proof fn law_overwriting(s: Seq<u8>, at: int, new: Seq<u8>, i: int)
    requires
        0 <= at,
        at + new.len() <= s.len(),
        0 <= i < s.len(),
    ensures
        bytes::overwrite(s, at, new).len() == s.len(),
        at <= i < at + new.len() ==> bytes::overwrite(s, at, new)[i] == new[i - at],
        i < at || at + new.len() <= i ==> bytes::overwrite(s, at, new)[i] == s[i],
{
}

/// A part of a file can be had exactly when it ends within the file, and byte `i` of the part is
/// the byte `i` places behind its start.
pub proof fn law_slices_lie_within(data: Seq<u8>, offset: int, size: int, i: int)
    requires
        0 <= offset,
        0 <= i < size,
        data.len() <= usize::MAX,
    ensures
        read::spec_slice(data, offset, size) is Ok <==> offset + size <= data.len(),
        read::spec_slice(data, offset, size) matches Ok(part) ==> part.len() == size && part[i]
            == data[offset + i],
{
}

/// A part whose place is given in 64 bits is the part at that place.
pub proof fn law_wide_slices_lie_within(data: Seq<u8>, offset: u64, size: u64, i: int)
    requires
        0 <= i < size,
        data.len() <= usize::MAX,
    ensures
        read::spec_slice_u64(data, offset, size) is Ok <==> offset + size <= data.len(),
        read::spec_slice_u64(data, offset, size) matches Ok(part) ==> part.len() == size && part[i]
            == data[offset + i],
{
}

/// An integer can be read exactly when all its bytes lie within the file.
pub proof fn law_integers_are_read(data: Seq<u8>, offset: int)
    requires
        0 <= offset,
        data.len() <= usize::MAX,
    ensures
        read::spec_read_u16(data, offset) is Ok <==> offset + 2 <= data.len(),
        read::spec_read_u32(data, offset) is Ok <==> offset + 4 <= data.len(),
        read::spec_read_u64(data, offset) is Ok <==> offset + 8 <= data.len(),
        read::spec_read_i64(data, offset) is Ok <==> offset + 8 <= data.len(),
        read::spec_read_u16(data, offset) matches Ok(value) ==> value == bytes::u16_at(data, offset),
        read::spec_read_u32(data, offset) matches Ok(value) ==> value == bytes::u32_at(data, offset),
        read::spec_read_u64(data, offset) matches Ok(value) ==> value == bytes::u64_at(data, offset),
        read::spec_read_i64(data, offset) matches Ok(value) ==> value == bytes::i64_at(data, offset),
{
}

/// Entries of a table stand one stride apart, the first at the table's start. An entry has a place
/// exactly when that place fits in memory.
pub proof fn law_entries_are_one_stride_apart(base: usize, index: usize, stride: usize)
    requires
        index < usize::MAX,
    ensures
        ({
            let here = read::spec_checked_index(base as int, index as int, stride as int);
            let next = read::spec_checked_index(base as int, index + 1, stride as int);
            &&& read::spec_checked_index(base as int, 0, stride as int) matches Ok(first) && first
                == base
            &&& next is Ok ==> here is Ok && next->Ok_0 == here->Ok_0 + stride
            &&& here is Ok <==> base + index * stride <= usize::MAX
        }),
{
    assert((index + 1) * stride == index * stride + stride) by (nonlinear_arith);
    assert(0 <= index * stride) by (nonlinear_arith);
}

/// Powers of two are recognised.
pub proof fn lemma_power_is_recognised(k: nat)
    ensures
        pow2(k) > 0,
        read::is_power_of_two(pow2(k)),
    decreases k,
{
    lemma2_to64();
    if k > 0 {
        lemma_power_is_recognised((k - 1) as nat);
        lemma_pow2_unfold(k);
    }
}

/// What is recognised is a power of two.
pub proof fn lemma_recognised_is_power(value: nat)
    requires
        read::is_power_of_two(value),
    ensures
        exists|k: nat| pow2(k) == value,
    decreases value,
{
    lemma2_to64();
    if value == 1 {
        assert(pow2(0) == value);
    } else {
        lemma_recognised_is_power(value / 2);
        let k = choose|k: nat| pow2(k) == value / 2;
        lemma_pow2_unfold(k + 1);
        assert(pow2(k + 1) == value);
    }
}

/// Rounding up works exactly for powers of two below which the result still fits, and yields the
/// multiple of the alignment that lies less than one alignment above the value.
pub proof fn law_rounding_up(value: u64, alignment: u64)
    ensures
        read::spec_align_up(value, alignment) is Ok <==> value + alignment - 1 <= u64::MAX && (
        exists|k: nat| pow2(k) == alignment),
        read::spec_align_up(value, alignment) matches Ok(rounded) ==> {
            &&& rounded % alignment == 0
            &&& value <= rounded < value + alignment
        },
{
    if exists|k: nat| pow2(k) == alignment {
        let k = choose|k: nat| pow2(k) == alignment;
        lemma_power_is_recognised(k);
    }
    if read::is_power_of_two(alignment as nat) {
        lemma_recognised_is_power(alignment as nat);
        read::lemma_aligned(value as int, alignment as int);
        if value + alignment - 1 <= u64::MAX {
            assert(read::aligned(value as int, alignment as int) <= u64::MAX);
        }
    }
}

} // verus!
