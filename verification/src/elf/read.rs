//! Bounds-checked access to file bytes.

use super::error::{invalid, Error, Fault, Result};
use crate::bytes;
use crate::bytes::{load_u16, load_u32, load_u64, signed64};
use crate::elf::error;
use vstd::prelude::*;

verus! {

/// The `size` bytes of `data` from `offset` on, or why there are none.
pub open spec fn spec_slice(data: Seq<u8>, offset: int, size: int) -> Result<Seq<u8>> {
    if offset + size > usize::MAX {
        Err(error::fault("byte range overflow"))
    } else if offset + size > data.len() {
        Err(
            Error::Invalid(
                Fault::ByteRange { offset: offset as usize, end: (offset + size) as usize },
            ),
        )
    } else {
        Ok(data.subrange(offset, offset + size))
    }
}

/// A slice result agrees with its mathematical counterpart.
pub open spec fn slice_agrees(result: Result<&[u8]>, expected: Result<Seq<u8>>) -> bool {
    match (result, expected) {
        (Ok(found), Ok(wanted)) => found@ == wanted,
        (Err(found), Err(wanted)) => found == wanted,
        _ => false,
    }
}

/// A 64-bit value as a memory size, or why it is none.
pub open spec fn spec_usize_from_u64(value: u64, field: &'static str) -> Result<usize> {
    if value > usize::MAX {
        Err(Error::Invalid(Fault::ExceedsUsize { field, value }))
    } else {
        Ok(value as usize)
    }
}

/// The slice whose place is given by 64-bit file fields.
pub open spec fn spec_slice_u64(data: Seq<u8>, offset: u64, size: u64) -> Result<Seq<u8>> {
    match spec_usize_from_u64(offset, "file offset") {
        Err(e) => Err(e),
        Ok(start) => match spec_usize_from_u64(size, "file size") {
            Err(e) => Err(e),
            Ok(length) => spec_slice(data, start as int, length as int),
        },
    }
}

/// The 16-bit value at `offset`.
pub open spec fn spec_read_u16(data: Seq<u8>, offset: int) -> Result<u16> {
    match spec_slice(data, offset, 2) {
        Err(e) => Err(e),
        Ok(_) => Ok(bytes::u16_at(data, offset)),
    }
}

/// The 32-bit value at `offset`.
pub open spec fn spec_read_u32(data: Seq<u8>, offset: int) -> Result<u32> {
    match spec_slice(data, offset, 4) {
        Err(e) => Err(e),
        Ok(_) => Ok(bytes::u32_at(data, offset)),
    }
}

/// The 64-bit value at `offset`.
pub open spec fn spec_read_u64(data: Seq<u8>, offset: int) -> Result<u64> {
    match spec_slice(data, offset, 8) {
        Err(e) => Err(e),
        Ok(_) => Ok(bytes::u64_at(data, offset)),
    }
}

/// The signed 64-bit value at `offset`.
pub open spec fn spec_read_i64(data: Seq<u8>, offset: int) -> Result<i64> {
    match spec_slice(data, offset, 8) {
        Err(e) => Err(e),
        Ok(_) => Ok(bytes::i64_at(data, offset)),
    }
}

/// The place of entry `index` in a table of `stride`-byte entries at `base`.
pub open spec fn spec_checked_index(base: int, index: int, stride: int) -> Result<usize> {
    if index * stride > usize::MAX || base + index * stride > usize::MAX {
        Err(error::fault("table index overflow"))
    } else {
        Ok((base + index * stride) as usize)
    }
}

/// `value` is a power of two.
pub open spec fn is_power_of_two(value: nat) -> bool
    decreases value,
{
    value == 1 || (value > 0 && value % 2 == 0 && is_power_of_two(value / 2))
}

/// The smallest multiple of `alignment` that is at least `value`.
pub open spec fn aligned(value: int, alignment: int) -> int {
    if value % alignment == 0 {
        value
    } else {
        value - value % alignment + alignment
    }
}

/// `value` rounded up to a multiple of `alignment`.
pub open spec fn spec_align_up(value: u64, alignment: u64) -> Result<u64> {
    if !is_power_of_two(alignment as nat) {
        Err(Error::Invalid(Fault::Alignment { alignment }))
    } else if value + alignment - 1 > u64::MAX {
        Err(error::fault("alignment overflow"))
    } else {
        Ok(aligned(value as int, alignment as int) as u64)
    }
}

/// Rounding up yields the least multiple of the alignment that is not below the value.
pub proof fn lemma_aligned(value: int, alignment: int)
    requires
        value >= 0,
        alignment > 0,
    ensures
        aligned(value, alignment) % alignment == 0,
        value <= aligned(value, alignment) < value + alignment,
{
    vstd::arithmetic::div_mod::lemma_fundamental_div_mod(value, alignment);
    vstd::arithmetic::div_mod::lemma_mod_bound(value, alignment);
    let base = alignment * (value / alignment);
    assert(base % alignment == 0) by {
        vstd::arithmetic::div_mod::lemma_mod_multiples_basic(value / alignment, alignment);
        vstd::arithmetic::mul::lemma_mul_is_commutative(value / alignment, alignment);
    }
    assert((base + alignment) % alignment == 0) by {
        vstd::arithmetic::div_mod::lemma_mod_add_multiples_vanish(base, alignment);
    }
}

/// The `size` bytes of `data` from `offset` on.
pub fn slice(data: &[u8], offset: usize, size: usize) -> (result: Result<&[u8]>)
    ensures
        slice_agrees(result, spec_slice(data@, offset as int, size as int)),
{
    let end = match offset.checked_add(size) {
        Some(end) => end,
        None => return invalid(Fault::Text("byte range overflow")),
    };
    if end > data.len() {
        return invalid(Fault::ByteRange { offset, end });
    }
    Ok(&data[offset..end])
}

/// The slice whose place is given by 64-bit file fields.
pub fn slice_u64(data: &[u8], offset: u64, size: u64) -> (result: Result<&[u8]>)
    ensures
        slice_agrees(result, spec_slice_u64(data@, offset, size)),
{
    let start = usize_from_u64(offset, "file offset")?;
    let length = usize_from_u64(size, "file size")?;
    slice(data, start, length)
}

/// Reads a 16-bit value.
pub fn read_u16(data: &[u8], offset: usize) -> (result: Result<u16>)
    ensures
        result == spec_read_u16(data@, offset as int),
{
    let _ = slice(data, offset, 2)?;
    Ok(load_u16(data, offset))
}

/// Reads a 32-bit value.
pub fn read_u32(data: &[u8], offset: usize) -> (result: Result<u32>)
    ensures
        result == spec_read_u32(data@, offset as int),
{
    let _ = slice(data, offset, 4)?;
    Ok(load_u32(data, offset))
}

/// Reads a 64-bit value.
pub fn read_u64(data: &[u8], offset: usize) -> (result: Result<u64>)
    ensures
        result == spec_read_u64(data@, offset as int),
{
    let _ = slice(data, offset, 8)?;
    Ok(load_u64(data, offset))
}

/// Reads a signed 64-bit value.
pub fn read_i64(data: &[u8], offset: usize) -> (result: Result<i64>)
    ensures
        result == spec_read_i64(data@, offset as int),
{
    let _ = slice(data, offset, 8)?;
    Ok(signed64(load_u64(data, offset)))
}

/// Reads the 32-bit field `delta` bytes into the record at `base`.
pub(crate) fn field_u32(data: &[u8], base: usize, delta: usize) -> (result: Result<u32>)
    ensures
        result == spec_read_u32(data@, base + delta),
{
    match base.checked_add(delta) {
        Some(offset) => read_u32(data, offset),
        None => invalid(Fault::Text("byte range overflow")),
    }
}

/// Reads the 64-bit field `delta` bytes into the record at `base`.
pub(crate) fn field_u64(data: &[u8], base: usize, delta: usize) -> (result: Result<u64>)
    ensures
        result == spec_read_u64(data@, base + delta),
{
    match base.checked_add(delta) {
        Some(offset) => read_u64(data, offset),
        None => invalid(Fault::Text("byte range overflow")),
    }
}

/// Converts a 64-bit file field to a memory size. `field` names the value in the error.
pub fn usize_from_u64(value: u64, field: &'static str) -> (result: Result<usize>)
    ensures
        result == spec_usize_from_u64(value, field),
{
    if value > usize::MAX as u64 {
        return invalid(Fault::ExceedsUsize { field, value });
    }
    Ok(value as usize)
}

/// The place of entry `index` in a table of `stride`-byte entries at `base`.
pub fn checked_index(base: usize, index: usize, stride: usize) -> (result: Result<usize>)
    ensures
        result == spec_checked_index(base as int, index as int, stride as int),
{
    let relative = match index.checked_mul(stride) {
        Some(relative) => relative,
        None => return invalid(Fault::Text("table index overflow")),
    };
    match base.checked_add(relative) {
        Some(offset) => Ok(offset),
        None => invalid(Fault::Text("table index overflow")),
    }
}

/// Whether `value` is a power of two.
pub(crate) fn power_of_two(value: u64) -> (result: bool)
    ensures
        result == is_power_of_two(value as nat),
{
    if value == 0 {
        return false;
    }
    let mut rest: u64 = value;
    while rest % 2 == 0
        invariant
            rest > 0,
            is_power_of_two(rest as nat) == is_power_of_two(value as nat),
        decreases rest,
    {
        rest = rest / 2;
    }
    rest == 1
}

/// Rounds `value` up to a multiple of `alignment`.
pub fn align_up(value: u64, alignment: u64) -> (result: Result<u64>)
    ensures
        result == spec_align_up(value, alignment),
{
    if !power_of_two(alignment) {
        return invalid(Fault::Alignment { alignment });
    }
    if value > u64::MAX - (alignment - 1) {
        return invalid(Fault::Text("alignment overflow"));
    }
    let excess = value % alignment;
    proof {
        vstd::arithmetic::div_mod::lemma_mod_decreases(value as nat, alignment as nat);
    }
    if excess == 0 {
        Ok(value)
    } else {
        Ok(value - excess + alignment)
    }
}

} // verus!
