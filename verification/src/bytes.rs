//! Little-endian integers and fixed-size fields inside byte buffers.

use vstd::prelude::*;

verus! {

/// The unsigned 16-bit value stored at `at`, least significant byte first.
pub open spec fn u16_at(s: Seq<u8>, at: int) -> u16 {
    (s[at] + 0x100 * s[at + 1]) as u16
}

/// The unsigned 32-bit value stored at `at`, least significant byte first.
pub open spec fn u32_at(s: Seq<u8>, at: int) -> u32 {
    (s[at] + 0x100 * s[at + 1] + 0x1_0000 * s[at + 2] + 0x100_0000 * s[at + 3]) as u32
}

/// The unsigned 64-bit value stored at `at`, least significant byte first.
pub open spec fn u64_at(s: Seq<u8>, at: int) -> u64 {
    (u32_at(s, at) + 0x1_0000_0000 * u32_at(s, at + 4)) as u64
}

/// The two's complement reading of an unsigned 32-bit value.
pub open spec fn as_signed32(value: u32) -> i32 {
    if value < 0x8000_0000 {
        value as i32
    } else {
        (value - 0x1_0000_0000) as i32
    }
}

/// The two's complement reading of an unsigned 64-bit value.
pub open spec fn as_signed64(value: u64) -> i64 {
    if value < 0x8000_0000_0000_0000 {
        value as i64
    } else {
        (value - 0x1_0000_0000_0000_0000) as i64
    }
}

/// The signed 64-bit value stored at `at`.
pub open spec fn i64_at(s: Seq<u8>, at: int) -> i64 {
    as_signed64(u64_at(s, at))
}

/// The two bytes of a 16-bit value, least significant first.
#[verifier::opaque]
pub open spec fn u16_bytes(value: u16) -> Seq<u8> {
    seq![(value % 0x100) as u8, (value / 0x100) as u8]
}

/// The four bytes of a 32-bit value, least significant first.
#[verifier::opaque]
pub open spec fn u32_bytes(value: u32) -> Seq<u8> {
    seq![
        (value % 0x100) as u8,
        (value / 0x100 % 0x100) as u8,
        (value / 0x1_0000 % 0x100) as u8,
        (value / 0x100_0000) as u8,
    ]
}

/// The eight bytes of a 64-bit value, least significant first.
#[verifier::opaque]
pub open spec fn u64_bytes(value: u64) -> Seq<u8> {
    u32_bytes((value % 0x1_0000_0000) as u32) + u32_bytes((value / 0x1_0000_0000) as u32)
}

/// The unsigned 64-bit value with the same two's complement bits as `value`.
pub open spec fn as_unsigned64(value: i64) -> u64 {
    if value >= 0 {
        value as u64
    } else {
        (value + 0x1_0000_0000_0000_0000) as u64
    }
}

/// `s` with the bytes from `at` on replaced by `new`.
pub open spec fn overwrite(s: Seq<u8>, at: int, new: Seq<u8>) -> Seq<u8> {
    Seq::new(s.len(), |i: int| if at <= i < at + new.len() { new[i - at] } else { s[i] })
}

/// `n` zero bytes.
pub open spec fn zeros(n: nat) -> Seq<u8> {
    Seq::new(n, |i: int| 0u8)
}

/// Every byte of `s` is zero.
pub open spec fn all_zero(s: Seq<u8>) -> bool {
    forall|i: int| 0 <= i < s.len() ==> s[i] == 0
}

/// A 16-bit value takes two bytes.
pub broadcast proof fn lemma_u16_bytes_len(value: u16)
    ensures
        #[trigger] u16_bytes(value).len() == 2,
{
    reveal(u16_bytes);
}

/// A 32-bit value takes four bytes.
pub broadcast proof fn lemma_u32_bytes_len(value: u32)
    ensures
        #[trigger] u32_bytes(value).len() == 4,
{
    reveal(u32_bytes);
}

/// A 64-bit value takes eight bytes.
pub broadcast proof fn lemma_u64_bytes_len(value: u64)
    ensures
        #[trigger] u64_bytes(value).len() == 8,
{
    reveal(u32_bytes);
    reveal(u64_bytes);
}

/// The lengths of encoded integers.
pub broadcast group group_bytes_len {
    lemma_u16_bytes_len,
    lemma_u32_bytes_len,
    lemma_u64_bytes_len,
}

/// Two bytes that spell a 16-bit value read back as that value.
pub proof fn lemma_u16_spelled(s: Seq<u8>, at: int, value: u16)
    requires
        0 <= at,
        at + 2 <= s.len(),
        s.subrange(at, at + 2) == u16_bytes(value),
    ensures
        u16_at(s, at) == value,
{
    reveal(u16_bytes);
    let field = s.subrange(at, at + 2);
    assert(s[at] == field[0] && s[at + 1] == field[1]);
}

/// Four bytes that spell a 32-bit value read back as that value.
pub proof fn lemma_u32_spelled(s: Seq<u8>, at: int, value: u32)
    requires
        0 <= at,
        at + 4 <= s.len(),
        s.subrange(at, at + 4) == u32_bytes(value),
    ensures
        u32_at(s, at) == value,
{
    reveal(u32_bytes);
    let field = s.subrange(at, at + 4);
    assert(s[at] == field[0] && s[at + 1] == field[1] && s[at + 2] == field[2] && s[at + 3]
        == field[3]);
    assert(value == value % 0x100 + 0x100 * (value / 0x100 % 0x100) + 0x1_0000 * (value / 0x1_0000
        % 0x100) + 0x100_0000 * (value / 0x100_0000));
}

/// The bytes of a value that was read are the bytes it was read from.
pub proof fn lemma_u32_respelled(s: Seq<u8>, at: int)
    requires
        0 <= at,
        at + 4 <= s.len(),
    ensures
        s.subrange(at, at + 4) == u32_bytes(u32_at(s, at)),
{
    reveal(u32_bytes);
    let value = u32_at(s, at);
    let (a, b, c, d) = (s[at] as int, s[at + 1] as int, s[at + 2] as int, s[at + 3] as int);
    assert(value == a + 0x100 * b + 0x1_0000 * c + 0x100_0000 * d);
    assert(value % 0x100 == a);
    assert(value / 0x100 == b + 0x100 * c + 0x1_0000 * d);
    assert(value / 0x100 % 0x100 == b);
    assert(value / 0x1_0000 == c + 0x100 * d);
    assert(value / 0x1_0000 % 0x100 == c);
    assert(value / 0x100_0000 == d);
    assert(s.subrange(at, at + 4) =~= u32_bytes(value));
}

/// Eight bytes that spell a 64-bit value read back as that value.
pub proof fn lemma_u64_spelled(s: Seq<u8>, at: int, value: u64)
    requires
        0 <= at,
        at + 8 <= s.len(),
        s.subrange(at, at + 8) == u64_bytes(value),
    ensures
        u64_at(s, at) == value,
{
    broadcast use group_bytes_len;

    reveal(u64_bytes);
    let low = (value % 0x1_0000_0000) as u32;
    let high = (value / 0x1_0000_0000) as u32;
    let field = s.subrange(at, at + 8);
    assert(s.subrange(at, at + 4) =~= field.subrange(0, 4));
    assert(s.subrange(at + 4, at + 8) =~= field.subrange(4, 8));
    assert(field.subrange(0, 4) =~= u32_bytes(low));
    assert(field.subrange(4, 8) =~= u32_bytes(high));
    lemma_u32_spelled(s, at, low);
    lemma_u32_spelled(s, at + 4, high);
}

/// The bytes of a stored 64-bit value are those that are stored.
pub proof fn lemma_u64_respelled(s: Seq<u8>, at: int)
    requires
        0 <= at,
        at + 8 <= s.len(),
    ensures
        s.subrange(at, at + 8) == u64_bytes(u64_at(s, at)),
{
    broadcast use group_bytes_len;

    reveal(u64_bytes);
    let (low, high) = (u32_at(s, at), u32_at(s, at + 4));
    lemma_u32_respelled(s, at);
    lemma_u32_respelled(s, at + 4);
    assert(u64_at(s, at) % 0x1_0000_0000 == low);
    assert(u64_at(s, at) / 0x1_0000_0000 == high);
    assert(s.subrange(at, at + 8) =~= s.subrange(at, at + 4) + s.subrange(at + 4, at + 8));
}

/// A signed 64-bit value survives the trip through its unsigned form.
pub proof fn lemma_signed64_round_trip(value: i64)
    ensures
        as_signed64(as_unsigned64(value)) == value,
{
}

/// Loads the 16-bit value at `at`.
pub(crate) fn load_u16(data: &[u8], at: usize) -> (value: u16)
    requires
        at + 2 <= data@.len(),
    ensures
        value == u16_at(data@, at as int),
{
    data[at] as u16 + 0x100 * data[at + 1] as u16
}

/// Loads the 32-bit value at `at`.
pub(crate) fn load_u32(data: &[u8], at: usize) -> (value: u32)
    requires
        at + 4 <= data@.len(),
    ensures
        value == u32_at(data@, at as int),
{
    data[at] as u32 + 0x100 * data[at + 1] as u32 + 0x1_0000 * data[at + 2] as u32 + 0x100_0000
        * data[at + 3] as u32
}

/// Loads the 64-bit value at `at`.
pub(crate) fn load_u64(data: &[u8], at: usize) -> (value: u64)
    requires
        at + 8 <= data@.len(),
    ensures
        value == u64_at(data@, at as int),
{
    assert(data@.len() == data.len());
    load_u32(data, at) as u64 + 0x1_0000_0000 * load_u32(data, at + 4) as u64
}

/// Reads an unsigned 32-bit value as a signed one.
pub(crate) fn signed32(value: u32) -> (result: i32)
    ensures
        result == as_signed32(value),
{
    if value < 0x8000_0000 {
        value as i32
    } else {
        (value as i64 - 0x1_0000_0000) as i32
    }
}

/// Reads an unsigned 64-bit value as a signed one.
pub(crate) fn signed64(value: u64) -> (result: i64)
    ensures
        result == as_signed64(value),
{
    if value < 0x8000_0000_0000_0000 {
        value as i64
    } else {
        (value as i128 - 0x1_0000_0000_0000_0000) as i64
    }
}

/// The unsigned 64-bit value with the bits of `value`.
pub(crate) fn unsigned64(value: i64) -> (result: u64)
    ensures
        result == as_unsigned64(value),
{
    if value >= 0 {
        value as u64
    } else {
        (value as i128 + 0x1_0000_0000_0000_0000) as u64
    }
}

/// The bytes of a 16-bit value.
pub(crate) fn bytes_of_u16(value: u16) -> (bytes: [u8; 2])
    ensures
        bytes@ == u16_bytes(value),
{
    proof {
        reveal(u16_bytes);
    }
    [(value % 0x100) as u8, (value / 0x100) as u8]
}

/// The bytes of a 32-bit value.
pub(crate) fn bytes_of_u32(value: u32) -> (bytes: [u8; 4])
    ensures
        bytes@ == u32_bytes(value),
{
    proof {
        reveal(u32_bytes);
    }
    [
        (value % 0x100) as u8,
        (value / 0x100 % 0x100) as u8,
        (value / 0x1_0000 % 0x100) as u8,
        (value / 0x100_0000) as u8,
    ]
}

/// The bytes of a 64-bit value.
pub(crate) fn bytes_of_u64(value: u64) -> (bytes: [u8; 8])
    ensures
        bytes@ == u64_bytes(value),
{
    proof {
        broadcast use group_bytes_len;

        reveal(u64_bytes);
    }
    let low = bytes_of_u32((value % 0x1_0000_0000) as u32);
    let high = bytes_of_u32((value / 0x1_0000_0000) as u32);
    [low[0], low[1], low[2], low[3], high[0], high[1], high[2], high[3]]
}

/// Copies `new` over the bytes of `data` from `at` on.
pub(crate) fn store(data: &mut [u8], at: usize, new: &[u8])
    requires
        at + new@.len() <= old(data)@.len(),
    ensures
        final(data)@ == overwrite(old(data)@, at as int, new@),
{
    let ghost before = data@;
    let size: usize = data.len();
    let mut i: usize = 0;
    while i < new.len()
        invariant
            i <= new@.len(),
            at + new@.len() <= data@.len(),
            data@.len() == size,
            data@ == overwrite(before, at as int, new@.subrange(0, i as int)),
        decreases new@.len() - i,
    {
        data[at + i] = new[i];
        i += 1;
        assert(data@ =~= overwrite(before, at as int, new@.subrange(0, i as int)));
    }
    assert(new@.subrange(0, i as int) =~= new@);
}

/// Sets the bytes of `data` in `start..end` to zero.
pub(crate) fn clear(data: &mut [u8], start: usize, end: usize)
    requires
        start <= end <= old(data)@.len(),
    ensures
        final(data)@ == overwrite(old(data)@, start as int, zeros((end - start) as nat)),
{
    let ghost before = data@;
    let mut i: usize = start;
    while i < end
        invariant
            start <= i <= end <= data@.len(),
            data@ == overwrite(before, start as int, zeros((i - start) as nat)),
        decreases end - i,
    {
        data[i] = 0;
        i += 1;
        assert(data@ =~= overwrite(before, start as int, zeros((i - start) as nat)));
    }
}

/// Whether every byte of `data` is zero.
pub(crate) fn is_zero(data: &[u8]) -> (result: bool)
    ensures
        result == all_zero(data@),
{
    let mut i: usize = 0;
    while i < data.len()
        invariant
            i <= data@.len(),
            forall|j: int| 0 <= j < i ==> data@[j] == 0,
        decreases data@.len() - i,
    {
        if data[i] != 0 {
            return false;
        }
        i += 1;
    }
    true
}

/// Whether two byte slices hold the same bytes.
pub(crate) fn same_bytes(a: &[u8], b: &[u8]) -> (result: bool)
    ensures
        result == (a@ == b@),
{
    if a.len() != b.len() {
        return false;
    }
    let mut i: usize = 0;
    while i < a.len()
        invariant
            i <= a@.len(),
            a@.len() == b@.len(),
            forall|j: int| 0 <= j < i ==> a@[j] == b@[j],
        decreases a@.len() - i,
    {
        if a[i] != b[i] {
            return false;
        }
        i += 1;
    }
    assert(a@ =~= b@);
    true
}

/// Appends the bytes of `new` to `data`.
pub(crate) fn extend(data: &mut Vec<u8>, new: &[u8])
    ensures
        final(data)@ == old(data)@ + new@,
{
    let ghost before = data@;
    let mut i: usize = 0;
    while i < new.len()
        invariant
            i <= new@.len(),
            data@ == before + new@.subrange(0, i as int),
        decreases new@.len() - i,
    {
        data.push(new[i]);
        i += 1;
        assert(data@ =~= before + new@.subrange(0, i as int));
    }
    assert(new@.subrange(0, i as int) =~= new@);
}

/// The bytes of `data` as an owned vector.
pub(crate) fn copy_of(data: &[u8]) -> (copy: Vec<u8>)
    ensures
        copy@ == data@,
{
    let mut copy: Vec<u8> = Vec::with_capacity(data.len());
    extend(&mut copy, data);
    copy
}

} // verus!
