//! Restoring the method indices of version 24.1 metadata.
//!
//! In protected metadata the indices of the active methods (those that are not negative) are
//! permuted. A decoded module carries the parameters: a seed for the permutation and a table of
//! values that the first active methods take instead. A seed is accepted only when it makes the
//! indices an exact permutation, so a wrong module changes nothing.

use super::MAGIC;
use crate::bytes;
use crate::bytes::{bytes_of_u32, copy_of, load_u32, signed32, store};
use crate::fold;
use crate::text;
use crate::text::{decimal_of, lower_hex_of, upper_hex_of, zero_pad};
use vstd::prelude::*;
use vstd::string::*;

verus! {

/// Version word of the metadata, which also marks a seed in the module.
pub const RAW_VERSION_24: u32 = 24;

/// Header place of the method table's offset and size.
pub const HDR_METHODS: usize = 0x30;

/// Size of one method record.
pub const V24_1_METHOD_STRIDE: usize = 0x34;

/// Place of the index in a method record.
pub const V24_1_METHOD_INDEX_OFFSET: usize = 0x14;

/// First word in front of an exception table.
pub const V24_1_SELECTOR: u32 = 1;

/// Number of entries of an exception table.
pub const EXCEPTION_COUNT: usize = 256;

/// What is wrong with method indices.
#[derive(Debug, Clone, Copy, PartialEq, Eq)]
pub enum IndexFault {
    /// A fixed message.
    Text(&'static str),
    /// A byte range that leaves the file.
    ByteRange { offset: usize, end: usize },
    /// A method table that is not made of whole records.
    TableSize { size: usize },
    /// Fewer active methods than the exception table has entries.
    TooFewMethods { count: u32 },
}

impl IndexFault {
    /// The message as it is shown to the user.
    pub open spec fn text(self) -> Seq<char> {
        match self {
            IndexFault::Text(message) => message@,
            IndexFault::ByteRange { offset, end } => "byte range 0x"@
                + text::lower_hex(offset as nat)
                + "..0x"@
                + text::lower_hex(end as nat)
                + " is out of bounds"@,
            IndexFault::TableSize { size } => "method table size 0x"@
                + text::lower_hex(size as nat)
                + " is not divisible by v24.1 stride 0x34"@,
            IndexFault::TooFewMethods { count } => "active method count "@
                + text::decimal(count as nat)
                + " is too small for the v24.1 exception table"@,
        }
    }

    /// Renders the message.
    #[allow(clippy::inherent_to_string)]
    pub fn to_string(&self) -> (message: String)
        ensures
            message@ == self.text(),
    {
        match self {
            IndexFault::Text(message) => String::from_str(message),
            IndexFault::ByteRange { offset, end } => {
                let mut text = String::from_str("byte range 0x");
                text.append(lower_hex_of(*offset as u64).as_str());
                text.append("..0x");
                text.append(lower_hex_of(*end as u64).as_str());
                text.append(" is out of bounds");
                text
            },
            IndexFault::TableSize { size } => {
                let mut text = String::from_str("method table size 0x");
                text.append(lower_hex_of(*size as u64).as_str());
                text.append(" is not divisible by v24.1 stride 0x34");
                text
            },
            IndexFault::TooFewMethods { count } => {
                let mut text = String::from_str("active method count ");
                text.append(decimal_of(*count as u128).as_str());
                text.append(" is too small for the v24.1 exception table");
                text
            },
        }
    }
}

/// Why method indices were not restored.
#[derive(Debug, Clone, Copy, PartialEq, Eq)]
pub enum MethodIndexError {
    /// The metadata magic is missing.
    NotMetadata,
    /// Metadata of another version.
    UnsupportedVersion(u32),
    /// The method table breaks a rule.
    Malformed(IndexFault),
    /// No seed of the module fits.
    ProfileNotFound,
    /// More than one seed of the module fits.
    AmbiguousProfile,
    /// The method indices break a rule.
    Validation(IndexFault),
}

impl MethodIndexError {
    /// The message of the error.
    pub open spec fn text(self) -> Seq<char> {
        match self {
            MethodIndexError::NotMetadata => "not an IL2CPP global-metadata.dat"@,
            MethodIndexError::UnsupportedVersion(version) => "unsupported metadata version "@
                + text::decimal(version as nat),
            MethodIndexError::Malformed(fault) => "malformed v24.1 metadata: "@ + fault.text(),
            MethodIndexError::ProfileNotFound =>
                "v24.1 method-index profile was not found in module 0x0C"@,
            MethodIndexError::AmbiguousProfile =>
                "multiple v24.1 method-index profiles matched module 0x0C"@,
            MethodIndexError::Validation(fault) =>
                "v24.1 method-index restoration failed validation: "@ + fault.text(),
        }
    }

    /// Renders the error.
    #[allow(clippy::inherent_to_string)]
    pub fn to_string(&self) -> (message: String)
        ensures
            message@ == self.text(),
    {
        match self {
            MethodIndexError::NotMetadata => String::from_str("not an IL2CPP global-metadata.dat"),
            MethodIndexError::UnsupportedVersion(version) => {
                let mut message = String::from_str("unsupported metadata version ");
                message.append(decimal_of(*version as u128).as_str());
                message
            },
            MethodIndexError::Malformed(fault) => {
                let mut message = String::from_str("malformed v24.1 metadata: ");
                message.append(fault.to_string().as_str());
                message
            },
            MethodIndexError::ProfileNotFound => String::from_str(
                "v24.1 method-index profile was not found in module 0x0C",
            ),
            MethodIndexError::AmbiguousProfile => String::from_str(
                "multiple v24.1 method-index profiles matched module 0x0C",
            ),
            MethodIndexError::Validation(fault) => {
                let mut message = String::from_str(
                    "v24.1 method-index restoration failed validation: ",
                );
                message.append(fault.to_string().as_str());
                message
            },
        }
    }
}

pub type Result<T> = std::result::Result<T, MethodIndexError>;

/// What was restored.
#[derive(Debug, PartialEq, Eq)]
pub struct MethodIndexReport {
    pub version: u32,
    pub methods: usize,
    pub active_methods: usize,
    pub changed_indices: usize,
    pub exception_count: usize,
    pub seed: String,
}

/// The mathematical content of a [`MethodIndexReport`].
#[verifier::ext_equal]
pub struct ReportModel {
    pub version: u32,
    pub methods: usize,
    pub active_methods: usize,
    pub changed_indices: usize,
    pub exception_count: usize,
    pub seed: Seq<char>,
}

impl View for MethodIndexReport {
    type V = ReportModel;

    open spec fn view(&self) -> ReportModel {
        ReportModel {
            version: self.version,
            methods: self.methods,
            active_methods: self.active_methods,
            changed_indices: self.changed_indices,
            exception_count: self.exception_count,
            seed: self.seed@,
        }
    }
}

/// The error for bytes that are not there.
pub open spec fn out_of_bounds(offset: int, end: int) -> MethodIndexError {
    if end > usize::MAX {
        MethodIndexError::Malformed(IndexFault::Text("byte range overflow"))
    } else {
        MethodIndexError::Malformed(
            IndexFault::ByteRange { offset: offset as usize, end: end as usize },
        )
    }
}

/// Offset and record count of the method table, or why it cannot be used.
pub open spec fn spec_method_table(data: Seq<u8>) -> Result<(usize, usize)> {
    if data.len() < 4 {
        Err(out_of_bounds(0, 4))
    } else if bytes::u32_at(data, 0) != MAGIC {
        Err(MethodIndexError::NotMetadata)
    } else if data.len() < 8 {
        Err(out_of_bounds(4, 8))
    } else if bytes::u32_at(data, 4) != RAW_VERSION_24 {
        Err(MethodIndexError::UnsupportedVersion(bytes::u32_at(data, 4)))
    } else if data.len() < 0x34 {
        Err(out_of_bounds(0x30, 0x34))
    } else if data.len() < 0x38 {
        Err(out_of_bounds(0x34, 0x38))
    } else {
        let offset = bytes::u32_at(data, 0x30);
        let size = bytes::u32_at(data, 0x34);
        if offset + size > data.len() {
            Err(out_of_bounds(offset as int, offset + size))
        } else if size % 0x34 != 0 {
            Err(MethodIndexError::Malformed(IndexFault::TableSize { size: size as usize }))
        } else {
            Ok((offset as usize, (size / 0x34) as usize))
        }
    }
}

/// Where the index of method `m` stands in a table at `offset`.
pub open spec fn index_place(offset: int, m: int) -> int {
    offset + m * 0x34 + 0x14
}

/// The index of method `m`; a negative one is none.
pub open spec fn index_at(data: Seq<u8>, offset: int, m: int) -> Option<u32> {
    let value = bytes::u32_at(data, index_place(offset, m));
    if value < 0x8000_0000 {
        Some(value)
    } else {
        None
    }
}

/// The indices of the methods of a table.
pub open spec fn indices_at(data: Seq<u8>, offset: int, count: nat) -> Seq<Option<u32>> {
    Seq::new(count, |m: int| index_at(data, offset, m))
}

/// Offset of the method table and the indices in it.
pub open spec fn spec_method_indices(data: Seq<u8>) -> Result<(usize, Seq<Option<u32>>)> {
    match spec_method_table(data) {
        Err(e) => Err(e),
        Ok((offset, count)) => Ok((offset, indices_at(data, offset as int, count as nat))),
    }
}

/// Whether entry `i` is active.
pub open spec fn is_active(indices: Seq<Option<u32>>) -> spec_fn(int) -> bool {
    |i: int| indices[i] is Some
}

/// How many of the first `n` entries are active.
pub open spec fn active_before(indices: Seq<Option<u32>>, n: int) -> int {
    fold::matching(n as nat, is_active(indices)).len() as int
}

/// How many entries are active.
pub open spec fn active_count(indices: Seq<Option<u32>>) -> int {
    active_before(indices, indices.len() as int)
}

/// Every value lies below the number of active entries.
pub open spec fn in_range(indices: Seq<Option<u32>>) -> bool {
    forall|i: int|
        0 <= i < indices.len() && #[trigger] indices[i] is Some ==> indices[i]->0 < active_count(
            indices,
        )
}

/// No value occurs twice.
pub open spec fn distinct(indices: Seq<Option<u32>>) -> bool {
    forall|i: int, j: int|
        0 <= i < j < indices.len() && #[trigger] indices[i] is Some && #[trigger] indices[j] is Some
            ==> indices[i]->0 != indices[j]->0
}

/// The active values are exactly the numbers below their count.
pub open spec fn is_permutation(indices: Seq<Option<u32>>) -> bool {
    0 < active_count(indices) <= u32::MAX && in_range(indices) && distinct(indices)
}

/// `a - b` in 32-bit arithmetic.
pub open spec fn wrapped_difference(a: int, b: int) -> int {
    if a >= b {
        a - b
    } else {
        a - b + 0x1_0000_0000
    }
}

/// One round of the permutation of `0..count`: even values move to the front half, odd ones to
/// the back half in reverse, and all of them rotate by `key`.
pub open spec fn spec_round(value: int, count: int, key: int) -> int {
    let mirror = 2 * count - 1;
    let unfolded = if value % 2 != 0 {
        wrapped_difference(mirror, value)
    } else {
        value
    };
    let halved = unfolded / 2;
    let folded = if halved >= count {
        wrapped_difference(mirror, halved)
    } else {
        halved
    };
    if folded < key {
        folded - key + count
    } else {
        folded - key
    }
}

/// The rotation of a round.
pub open spec fn key_of(seed: u32, count: u32) -> int {
    seed % ((count / 2) as u32) + count / 4
}

/// Five rounds.
pub open spec fn five_rounds(value: int, count: int, key: int) -> int {
    spec_round(
        spec_round(
            spec_round(spec_round(spec_round(value, count, key), count, key), count, key),
            count,
            key,
        ),
        count,
        key,
    )
}

/// The place of `value` after the permutation, or why there is no permutation.
pub open spec fn spec_transform_index(value: u32, count: u32, seed: u32) -> Result<u32> {
    if count < 2 {
        Err(
            MethodIndexError::Validation(
                IndexFault::Text("method-index permutation requires at least two active methods"),
            ),
        )
    } else if count > u32::MAX / 2 {
        Err(
            MethodIndexError::Validation(
                IndexFault::Text("active method count is too large for the permutation mirror"),
            ),
        )
    } else {
        Ok(five_rounds(value as int, count as int, key_of(seed, count)) as u32)
    }
}

/// The indices after the permutation that `seed` gives.
pub open spec fn transformed(indices: Seq<Option<u32>>, seed: u32) -> Seq<Option<u32>> {
    Seq::new(
        indices.len(),
        |i: int|
            match indices[i] {
                None => None,
                Some(value) => Some(
                    five_rounds(
                        value as int,
                        active_count(indices),
                        key_of(seed, active_count(indices) as u32),
                    ) as u32,
                ),
            },
    )
}

/// `value` occurs among the entries.
pub open spec fn present(indices: Seq<Option<u32>>, value: int) -> bool {
    exists|i: int|
        0 <= i < indices.len() && #[trigger] indices[i] is Some && indices[i]->0 == value
}

/// `value` is below the number of active entries and does not occur.
pub open spec fn is_missing(indices: Seq<Option<u32>>) -> spec_fn(int) -> bool {
    |value: int| !present(indices, value)
}

/// The values that do not occur, in ascending order.
pub open spec fn missing(indices: Seq<Option<u32>>) -> Seq<int> {
    fold::matching(active_count(indices) as nat, is_missing(indices))
}

/// Entry `k` of an exception table at `at`.
pub open spec fn exception(module: Seq<u8>, at: int, k: int) -> u32 {
    bytes::u32_at(module, at + k * 4)
}

/// The table at `at` lists missing values, none of them twice, and is announced by the words in
/// front of it.
pub open spec fn table_fits(module: Seq<u8>, at: int, values: Seq<Option<u32>>) -> bool {
    &&& bytes::u32_at(module, at - 8) == V24_1_SELECTOR
    &&& bytes::u32_at(module, at - 4) == active_count(values) - 1
    &&& forall|k: int|
        0 <= k < EXCEPTION_COUNT ==> (#[trigger] exception(module, at, k)) < active_count(values)
            && !present(values, exception(module, at, k) as int)
    &&& forall|j: int, k: int|
        0 <= j < k < EXCEPTION_COUNT ==> #[trigger] exception(module, at, j)
            != #[trigger] exception(module, at, k)
}

/// The first place from `at` on, in steps of one word, where an exception table for `values`
/// stands.
pub open spec fn find_table(module: Seq<u8>, at: int, values: Seq<Option<u32>>) -> Option<int>
    decreases module.len() - at,
{
    if at + EXCEPTION_COUNT * 4 > module.len() {
        None
    } else if table_fits(module, at, values) {
        Some(at)
    } else {
        find_table(module, at + 4, values)
    }
}

/// `values` with the first active entries replaced by the exception table at `at`.
pub open spec fn patched(values: Seq<Option<u32>>, module: Seq<u8>, at: int) -> Seq<Option<u32>> {
    Seq::new(
        values.len(),
        |i: int|
            match values[i] {
                None => None,
                Some(value) => Some(
                    if active_before(values, i) < EXCEPTION_COUNT {
                        exception(module, at, active_before(values, i))
                    } else {
                        value
                    },
                ),
            },
    )
}

/// The exception table that goes with `seed`.
pub open spec fn table_of(module: Seq<u8>, indices: Seq<Option<u32>>, seed: u32) -> Option<int> {
    let values = transformed(indices, seed);
    if in_range(values) && missing(values).len() == EXCEPTION_COUNT {
        find_table(module, 8, values)
    } else {
        None
    }
}

/// The indices that `seed` restores.
pub open spec fn restored(module: Seq<u8>, indices: Seq<Option<u32>>, seed: u32) -> Seq<
    Option<u32>,
> {
    patched(transformed(indices, seed), module, table_of(module, indices, seed)->0)
}

/// `seed` stands in front of a version word of the module, at word `k`.
pub open spec fn seed_at(module: Seq<u8>, k: int, seed: u32) -> bool {
    0 <= k && k * 4 + 8 < module.len() && bytes::u32_at(module, k * 4) == seed && bytes::u32_at(
        module,
        k * 4 + 4,
    ) == RAW_VERSION_24
}

/// The module lists `seed`.
pub open spec fn lists_seed(module: Seq<u8>, seed: u32) -> bool {
    exists|k: int| seed_at(module, k, seed)
}

/// `seed` is listed and turns the indices into a permutation.
pub open spec fn seed_matches(module: Seq<u8>, indices: Seq<Option<u32>>, seed: u32) -> bool {
    &&& lists_seed(module, seed)
    &&& seed_restores(module, indices, seed)
}

/// `seed` turns the indices into a permutation.
#[verifier::opaque]
pub open spec fn seed_restores(module: Seq<u8>, indices: Seq<Option<u32>>, seed: u32) -> bool {
    table_of(module, indices, seed) is Some && is_permutation(restored(module, indices, seed))
}

/// The only seed that matches, or why there is none.
pub open spec fn spec_profile(module: Seq<u8>, indices: Seq<Option<u32>>) -> Result<u32> {
    if active_count(indices) <= EXCEPTION_COUNT {
        Err(
            MethodIndexError::Validation(
                IndexFault::TooFewMethods { count: active_count(indices) as u32 },
            ),
        )
    } else if forall|seed: u32| !seed_matches(module, indices, seed) {
        Err(MethodIndexError::ProfileNotFound)
    } else if exists|a: u32, b: u32|
        a != b && seed_matches(module, indices, a) && seed_matches(module, indices, b) {
        Err(MethodIndexError::AmbiguousProfile)
    } else {
        Ok(choose|seed: u32| seed_matches(module, indices, seed))
    }
}

/// `data` with the indices of the first `count` methods set to `values`.
pub open spec fn with_indices(
    data: Seq<u8>,
    offset: int,
    values: Seq<Option<u32>>,
    count: int,
) -> Seq<u8> {
    Seq::new(
        data.len(),
        |i: int|
            {
                let m = (i - offset) / 0x34;
                let k = (i - offset) % 0x34 - 0x14;
                if offset <= i && m < count && 0 <= k < 4 && values[m] is Some {
                    bytes::u32_bytes(values[m]->0)[k]
                } else {
                    data[i]
                }
            },
    )
}

/// Entry `m` differs between the two lists.
pub open spec fn differs(a: Seq<Option<u32>>, b: Seq<Option<u32>>) -> spec_fn(int) -> bool {
    |m: int| a[m] != b[m]
}

/// The metadata with its method indices restored, and the report on it.
pub open spec fn spec_restore(data: Seq<u8>, module: Seq<u8>) -> Result<(Seq<u8>, ReportModel)> {
    match spec_method_indices(data) {
        Err(e) => Err(e),
        Ok((offset, indices)) => if is_permutation(indices) {
            Ok(
                (
                    data,
                    ReportModel {
                        version: RAW_VERSION_24,
                        methods: indices.len() as usize,
                        active_methods: active_count(indices) as usize,
                        changed_indices: 0,
                        exception_count: 0,
                        seed: "clean"@,
                    },
                ),
            )
        } else {
            match spec_profile(module, indices) {
                Err(e) => Err(e),
                Ok(seed) => {
                    let values = restored(module, indices, seed);
                    Ok(
                        (
                            with_indices(data, offset as int, values, indices.len() as int),
                            ReportModel {
                                version: RAW_VERSION_24,
                                methods: indices.len() as usize,
                                active_methods: active_count(indices) as usize,
                                changed_indices: fold::matching(
                                    indices.len(),
                                    differs(values, indices),
                                ).len() as usize,
                                exception_count: EXCEPTION_COUNT,
                                seed: "0x"@ + text::zero_padded(
                                    text::upper_hex(seed as nat),
                                    8,
                                ),
                            },
                        ),
                    )
                },
            }
        },
    }
}

/// Fails unless the bytes are there.
fn check_bytes(data: &[u8], offset: usize, size: usize) -> (result: Result<()>)
    ensures
        offset + size <= data@.len() ==> result == Ok::<(), MethodIndexError>(()),
        offset + size > data@.len() ==> result == Err::<(), MethodIndexError>(
            out_of_bounds(offset as int, offset + size),
        ),
{
    let end = match offset.checked_add(size) {
        Some(end) => end,
        None => {
            assert(data@.len() == data.len());
            return Err(MethodIndexError::Malformed(IndexFault::Text("byte range overflow")));
        },
    };
    if end > data.len() {
        return Err(MethodIndexError::Malformed(IndexFault::ByteRange { offset, end }));
    }
    Ok(())
}

/// Finds the method table.
fn method_table(data: &[u8]) -> (result: Result<(usize, usize)>)
    ensures
        result == spec_method_table(data@),
        result matches Ok((offset, count)) ==> offset + count * 0x34 <= data@.len() && count * 0x34
            <= u32::MAX,
{
    check_bytes(data, 0, 4)?;
    if load_u32(data, 0) != MAGIC {
        return Err(MethodIndexError::NotMetadata);
    }
    check_bytes(data, 4, 4)?;
    let version = load_u32(data, 4);
    if version != RAW_VERSION_24 {
        return Err(MethodIndexError::UnsupportedVersion(version));
    }
    check_bytes(data, HDR_METHODS, 4)?;
    let offset = load_u32(data, HDR_METHODS) as usize;
    check_bytes(data, HDR_METHODS + 4, 4)?;
    let size = load_u32(data, HDR_METHODS + 4) as usize;
    check_bytes(data, offset, size)?;
    if size % V24_1_METHOD_STRIDE != 0 {
        return Err(MethodIndexError::Malformed(IndexFault::TableSize { size }));
    }
    Ok((offset, size / V24_1_METHOD_STRIDE))
}

/// Reads the method indices. Hands back the offset of the method table and, for each method, its
/// index if it is not negative.
pub fn method_indices(data: &[u8]) -> (result: Result<(usize, Vec<Option<u32>>)>)
    ensures
        match (result, spec_method_indices(data@)) {
            (Ok((offset, found)), Ok((expected, wanted))) => offset == expected && found@ == wanted,
            (Err(found), Err(wanted)) => found == wanted,
            _ => false,
        },
        result matches Ok((offset, found)) ==> offset + found@.len() * 0x34 <= data@.len()
            && found@.len() * 0x34 <= u32::MAX,
{
    let (offset, count) = method_table(data)?;
    let size: usize = data.len();
    let mut indices: Vec<Option<u32>> = Vec::with_capacity(count);
    let mut method: usize = 0;
    while method < count
        invariant
            method <= count,
            size == data@.len(),
            offset + count * 0x34 <= data@.len(),
            indices@ == indices_at(data@, offset as int, method as nat),
        decreases count - method,
    {
        let place: usize = offset + method * V24_1_METHOD_STRIDE + V24_1_METHOD_INDEX_OFFSET;
        let value = signed32(load_u32(data, place));
        indices.push(if value >= 0 { Some(value as u32) } else { None });
        method += 1;
        assert(indices@ =~= indices_at(data@, offset as int, method as nat));
    }
    Ok((offset, indices))
}

/// Counts the active entries.
fn count_active(indices: &[Option<u32>]) -> (count: usize)
    ensures
        count == active_count(indices@),
        count <= indices@.len(),
{
    let mut count: usize = 0;
    let mut i: usize = 0;
    while i < indices.len()
        invariant
            i <= indices@.len(),
            count <= i,
            count == active_before(indices@, i as int),
        decreases indices@.len() - i,
    {
        if indices[i].is_some() {
            count += 1;
        }
        i += 1;
    }
    count
}

/// Whether the active values are exactly the numbers below their count.
pub fn is_complete_permutation(indices: &[Option<u32>]) -> (result: bool)
    ensures
        result == is_permutation(indices@),
{
    let active = count_active(indices);
    if active == 0 || active as u64 > u32::MAX as u64 {
        return false;
    }
    let mut seen: Vec<bool> = vec![false; active];
    let mut i: usize = 0;
    while i < indices.len()
        invariant
            i <= indices@.len(),
            active == active_count(indices@),
            seen@.len() == active,
            forall|v: int|
                0 <= v < active ==> (#[trigger] seen@[v] <==> present(
                    indices@.subrange(0, i as int),
                    v,
                )),
            forall|k: int|
                0 <= k < i && #[trigger] indices@[k] is Some ==> indices@[k]->0 < active,
            distinct(indices@.subrange(0, i as int)),
        decreases indices@.len() - i,
    {
        let ghost before = indices@.subrange(0, i as int);
        let ghost after = indices@.subrange(0, i + 1);
        assert(after =~= before.push(indices@[i as int]));
        if let Some(value) = indices[i] {
            if value as usize >= active {
                return false;
            }
            if seen[value as usize] {
                proof {
                    let k = choose|k: int|
                        0 <= k < before.len() && #[trigger] before[k] is Some && before[k]->0
                            == value;
                    assert(indices@[k] == before[k]);
                    assert(indices@[i as int] == Some(value));
                }
                return false;
            }
            seen.set(value as usize, true);
            proof {
                assert forall|v: int| 0 <= v < active implies (#[trigger] seen@[v] <==> present(
                    after,
                    v,
                )) by {
                    lemma_present_push(before, indices@[i as int], v);
                }
                assert(!present(before, value as int));
                assert forall|j: int, k: int|
                    0 <= j < k < after.len() && #[trigger] after[j] is Some
                        && #[trigger] after[k] is Some implies after[j]->0 != after[k]->0 by {
                    assert(after[j] == before[j]);
                    if k < i {
                        assert(after[k] == before[k]);
                    }
                }
            }
        } else {
            proof {
                assert forall|v: int| 0 <= v < active implies present(after, v) == present(
                    before,
                    v,
                ) by {
                    lemma_present_push(before, indices@[i as int], v);
                }
                assert forall|j: int, k: int|
                    0 <= j < k < after.len() && #[trigger] after[j] is Some
                        && #[trigger] after[k] is Some implies after[j]->0 != after[k]->0 by {
                    assert(after[j] == before[j] && after[k] == before[k]);
                }
            }
        }
        i += 1;
    }
    assert(indices@.subrange(0, i as int) =~= indices@);
    true
}

/// What occurs in a list with one more entry.
proof fn lemma_present_push(before: Seq<Option<u32>>, entry: Option<u32>, value: int)
    ensures
        present(before.push(entry), value) == (present(before, value) || (entry is Some
            && entry->0 == value)),
{
    let after = before.push(entry);
    if present(before, value) {
        let k = choose|k: int|
            0 <= k < before.len() && #[trigger] before[k] is Some && before[k]->0 == value;
        assert(after[k] == before[k]);
    }
    if entry is Some && entry->0 == value {
        assert(after[before.len() as int] == entry);
    }
    if present(after, value) {
        let k = choose|k: int|
            0 <= k < after.len() && #[trigger] after[k] is Some && after[k]->0 == value;
        if k < before.len() {
            assert(before[k] == after[k]);
        }
    }
}

/// The rotation of a round, or why there is no permutation.
fn permutation_key(seed: u32, count: u32) -> (result: Result<u32>)
    ensures
        result is Err <==> spec_transform_index(0, count, seed) is Err,
        result matches Err(e) ==> spec_transform_index(0, count, seed) == Err::<
            u32,
            MethodIndexError,
        >(e),
        result matches Ok(key) ==> key == key_of(seed, count) && key < count && 2 <= count
            <= u32::MAX / 2,
{
    if count < 2 {
        return Err(
            MethodIndexError::Validation(
                IndexFault::Text("method-index permutation requires at least two active methods"),
            ),
        );
    }
    if count > u32::MAX / 2 {
        return Err(
            MethodIndexError::Validation(
                IndexFault::Text("active method count is too large for the permutation mirror"),
            ),
        );
    }
    let half = count / 2;
    assert(seed % half < half) by (nonlinear_arith)
        requires
            half > 0,
    ;
    Ok(seed % half + count / 4)
}

/// One round of the permutation of `0..count`.
fn permutation_round(value: u32, count: u32, key: u32) -> (result: u32)
    requires
        2 <= count <= u32::MAX / 2,
        key < count,
    ensures
        result == spec_round(value as int, count as int, key as int),
{
    let mirror: u32 = count * 2 - 1;
    let unfolded = if value % 2 != 0 {
        mirror.wrapping_sub(value)
    } else {
        value
    };
    let halved = unfolded / 2;
    let folded = if halved >= count {
        mirror.wrapping_sub(halved)
    } else {
        halved
    };
    if folded < key {
        (folded as u64 + count as u64 - key as u64) as u32
    } else {
        folded - key
    }
}

/// The place of `value` after five rounds of the permutation of `0..count`.
pub fn transform_index(value: u32, count: u32, seed: u32) -> (result: Result<u32>)
    ensures
        result == spec_transform_index(value, count, seed),
{
    let key = permutation_key(seed, count)?;
    let first = permutation_round(value, count, key);
    let second = permutation_round(first, count, key);
    let third = permutation_round(second, count, key);
    let fourth = permutation_round(third, count, key);
    Ok(permutation_round(fourth, count, key))
}

/// The same entries are active in both lists.
pub open spec fn same_activity(a: Seq<Option<u32>>, b: Seq<Option<u32>>) -> bool {
    a.len() == b.len() && forall|i: int|
        0 <= i < a.len() ==> (#[trigger] a[i] is Some <==> b[i] is Some)
}

/// Lists with the same active entries have the same counts.
proof fn lemma_same_activity(a: Seq<Option<u32>>, b: Seq<Option<u32>>, n: int)
    requires
        same_activity(a, b),
        0 <= n <= a.len(),
    ensures
        active_before(a, n) == active_before(b, n),
    decreases n,
{
    if n > 0 {
        lemma_same_activity(a, b, n - 1);
        assert(a[n - 1] is Some <==> b[n - 1] is Some);
    }
}

/// Applies the permutation that `seed` gives to every active index.
fn transformed_values(indices: &[Option<u32>], count: u32, seed: u32) -> (values: Vec<Option<u32>>)
    requires
        count == active_count(indices@),
        2 <= count <= u32::MAX / 2,
    ensures
        values@ == transformed(indices@, seed),
        same_activity(values@, indices@),
{
    let mut values: Vec<Option<u32>> = Vec::with_capacity(indices.len());
    let mut i: usize = 0;
    while i < indices.len()
        invariant
            i <= indices@.len(),
            count == active_count(indices@),
            2 <= count <= u32::MAX / 2,
            values@ == transformed(indices@, seed).subrange(0, i as int),
        decreases indices@.len() - i,
    {
        let value = match indices[i] {
            Some(value) => match transform_index(value, count, seed) {
                Ok(place) => Some(place),
                Err(_) => None,
            },
            None => None,
        };
        values.push(value);
        i += 1;
        assert(values@ =~= transformed(indices@, seed).subrange(0, i as int));
    }
    assert(values@ =~= transformed(indices@, seed));
    values
}

/// The values that do not occur, or nothing when one is out of range.
fn missing_values(values: &[Option<u32>]) -> (result: Option<Vec<u32>>)
    requires
        active_count(values@) <= u32::MAX,
    ensures
        result is Some <==> in_range(values@),
        result matches Some(list) ==> list@.len() == missing(values@).len() && forall|k: int|
            0 <= k < list@.len() ==> #[trigger] list@[k] == missing(values@)[k],
{
    let active = count_active(values);
    let mut seen: Vec<bool> = vec![false; active];
    let mut i: usize = 0;
    while i < values.len()
        invariant
            i <= values@.len(),
            active == active_count(values@),
            seen@.len() == active,
            forall|v: int|
                0 <= v < active ==> (#[trigger] seen@[v] <==> present(
                    values@.subrange(0, i as int),
                    v,
                )),
            forall|k: int| 0 <= k < i && #[trigger] values@[k] is Some ==> values@[k]->0 < active,
        decreases values@.len() - i,
    {
        let ghost before = values@.subrange(0, i as int);
        assert(values@.subrange(0, i + 1) =~= before.push(values@[i as int]));
        if let Some(value) = values[i] {
            if value as usize >= active {
                return None;
            }
            seen.set(value as usize, true);
        }
        proof {
            assert forall|v: int| 0 <= v < active implies (#[trigger] seen@[v] <==> present(
                values@.subrange(0, i + 1),
                v,
            )) by {
                lemma_present_push(before, values@[i as int], v);
            }
        }
        i += 1;
    }
    assert(values@.subrange(0, i as int) =~= values@);
    let ghost keep = is_missing(values@);
    let mut list: Vec<u32> = Vec::new();
    let mut v: usize = 0;
    while v < active
        invariant
            v <= active,
            active <= u32::MAX,
            active == active_count(values@),
            seen@.len() == active,
            forall|k: int| 0 <= k < active ==> (#[trigger] seen@[k] <==> present(values@, k)),
            keep == is_missing(values@),
            list@.len() == fold::matching(v as nat, keep).len(),
            forall|k: int|
                0 <= k < list@.len() ==> #[trigger] list@[k] == fold::matching(v as nat, keep)[k],
        decreases active - v,
    {
        if !seen[v] {
            list.push(v as u32);
        }
        v += 1;
    }
    Some(list)
}

/// Reads the exception table at `at` if it lists wanted values only, none of them twice.
fn read_exceptions(module: &[u8], at: usize, wanted: &[bool]) -> (result: Option<Vec<u32>>)
    requires
        at + 1024 <= module@.len(),
    ensures
        result is Some <==> {
            &&& forall|k: int|
                0 <= k < EXCEPTION_COUNT ==> (#[trigger] exception(module@, at as int, k))
                    < wanted@.len() && wanted@[exception(module@, at as int, k) as int]
            &&& forall|j: int, k: int|
                0 <= j < k < EXCEPTION_COUNT ==> #[trigger] exception(module@, at as int, j)
                    != #[trigger] exception(module@, at as int, k)
        },
        result matches Some(table) ==> table@.len() == EXCEPTION_COUNT && forall|k: int|
            0 <= k < EXCEPTION_COUNT ==> #[trigger] table@[k] == exception(module@, at as int, k),
{
    let size: usize = module.len();
    let mut table: Vec<u32> = Vec::with_capacity(EXCEPTION_COUNT);
    let mut seen: Vec<bool> = vec![false; wanted.len()];
    let mut index: usize = 0;
    while index < EXCEPTION_COUNT
        invariant
            index <= EXCEPTION_COUNT,
            at + 1024 <= module@.len(),
            size == module@.len(),
            seen@.len() == wanted@.len(),
            table@.len() == index,
            forall|k: int|
                0 <= k < index ==> #[trigger] table@[k] == exception(module@, at as int, k),
            forall|k: int|
                0 <= k < index ==> (#[trigger] exception(module@, at as int, k)) < wanted@.len()
                    && wanted@[exception(module@, at as int, k) as int],
            forall|j: int, k: int|
                0 <= j < k < index ==> #[trigger] exception(module@, at as int, j)
                    != #[trigger] exception(module@, at as int, k),
            forall|v: int|
                0 <= v < seen@.len() ==> (#[trigger] seen@[v] <==> exists|k: int|
                    0 <= k < index && v == #[trigger] exception(module@, at as int, k)),
        decreases EXCEPTION_COUNT - index,
    {
        let value = load_u32(module, at + index * 4);
        assert(value == exception(module@, at as int, index as int));
        if value as usize >= wanted.len() || !wanted[value as usize] || seen[value as usize] {
            return None;
        }
        let ghost before = seen@;
        seen.set(value as usize, true);
        table.push(value);
        proof {
            assert forall|v: int| 0 <= v < seen@.len() implies (#[trigger] seen@[v] <==> exists|k:
                int|
                0 <= k < index + 1 && v == #[trigger] exception(module@, at as int, k)) by {
                if before[v] {
                    let k = choose|k: int|
                        0 <= k < index && v == #[trigger] exception(module@, at as int, k);
                    assert(v == exception(module@, at as int, k));
                }
                if v == value {
                    assert(v == exception(module@, at as int, index as int));
                }
            }
        }
        index += 1;
    }
    Some(table)
}

/// Finds the exception table for values that miss the given ones.
fn find_exception_table(
    module: &[u8],
    count: u32,
    missing_list: &[u32],
    Ghost(values): Ghost<Seq<Option<u32>>>,
) -> (result: Option<Vec<u32>>)
    requires
        count > 0,
        count == active_count(values),
        missing_list@.len() == missing(values).len(),
        forall|k: int|
            0 <= k < missing_list@.len() ==> #[trigger] missing_list@[k] == missing(values)[k],
    ensures
        missing_list@.len() != EXCEPTION_COUNT ==> result is None,
        missing_list@.len() == EXCEPTION_COUNT ==> (result is Some <==> find_table(
            module@,
            8,
            values,
        ) is Some),
        result matches Some(table) ==> table@.len() == EXCEPTION_COUNT && forall|k: int|
            0 <= k < EXCEPTION_COUNT ==> #[trigger] table@[k] == exception(
                module@,
                find_table(module@, 8, values)->0,
                k,
            ),
{
    if missing_list.len() != EXCEPTION_COUNT {
        return None;
    }
    let mut wanted: Vec<bool> = vec![false; count as usize];
    let mut index: usize = 0;
    proof {
        fold::lemma_matching(active_count(values) as nat, is_missing(values));
    }
    while index < missing_list.len()
        invariant
            index <= missing_list@.len(),
            wanted@.len() == count,
            count == active_count(values),
            missing_list@.len() == missing(values).len(),
            forall|k: int|
                0 <= k < missing_list@.len() ==> #[trigger] missing_list@[k] == missing(values)[k],
            forall|k: int|
                0 <= k < missing(values).len() ==> 0 <= #[trigger] missing(values)[k] < count,
            forall|v: int|
                0 <= v < count ==> (#[trigger] wanted@[v] <==> exists|k: int|
                    0 <= k < index && v == #[trigger] missing(values)[k]),
        decreases missing_list@.len() - index,
    {
        let value = missing_list[index];
        assert(value == missing(values)[index as int]);
        let ghost before = wanted@;
        wanted.set(value as usize, true);
        proof {
            assert forall|v: int| 0 <= v < count implies (#[trigger] wanted@[v] <==> exists|k: int|
                0 <= k < index + 1 && v == #[trigger] missing(values)[k]) by {
                if before[v] {
                    let k = choose|k: int| 0 <= k < index && v == #[trigger] missing(values)[k];
                    assert(v == missing(values)[k]);
                }
            }
        }
        index += 1;
    }
    proof {
        fold::lemma_matching(active_count(values) as nat, is_missing(values));
        assert forall|v: int| 0 <= v < count implies (#[trigger] wanted@[v] <==> !present(
            values,
            v,
        )) by {
            if wanted@[v] {
                let k = choose|k: int|
                    0 <= k < missing(values).len() && v == #[trigger] missing(values)[k];
                assert((is_missing(values))(missing(values)[k]));
            }
            if !present(values, v) {
                assert((is_missing(values))(v));
                assert(missing(values).contains(v));
                let k = choose|k: int| 0 <= k < missing(values).len() && missing(values)[k] == v;
                assert(v == missing(values)[k]);
            }
        }
    }
    if module.len() < 1024 {
        return None;
    }
    let last: usize = module.len() - 1024;
    let mut at: usize = 8;
    while at <= last
        invariant
            8 <= at,
            last + 1024 == module@.len(),
            module@.len() <= usize::MAX,
            count > 0,
            count == active_count(values),
            wanted@.len() == count,
            forall|v: int| 0 <= v < count ==> (#[trigger] wanted@[v] <==> !present(values, v)),
            find_table(module@, 8, values) == find_table(module@, at as int, values),
            missing_list@.len() == EXCEPTION_COUNT,
        decreases module@.len() - at,
    {
        if load_u32(module, at - 8) == V24_1_SELECTOR && load_u32(module, at - 4) == count - 1 {
            if let Some(table) = read_exceptions(module, at, &wanted) {
                assert forall|k: int| 0 <= k < EXCEPTION_COUNT implies (#[trigger] exception(
                    module@,
                    at as int,
                    k,
                )) < active_count(values) && !present(
                    values,
                    exception(module@, at as int, k) as int,
                ) by {
                    assert(wanted@[exception(module@, at as int, k) as int]);
                }
                assert(table_fits(module@, at as int, values));
                return Some(table);
            }
            assert(!table_fits(module@, at as int, values)) by {
                if table_fits(module@, at as int, values) {
                    assert forall|k: int| 0 <= k < EXCEPTION_COUNT implies (#[trigger] exception(
                        module@,
                        at as int,
                        k,
                    )) < wanted@.len() && wanted@[exception(module@, at as int, k) as int] by {
                    }
                }
            }
        }
        at += 4;
    }
    None
}

/// Replaces the first active values by the exception table.
fn patch(
    values: &[Option<u32>],
    table: &[u32],
    Ghost(module): Ghost<Seq<u8>>,
    Ghost(at): Ghost<int>,
) -> (result: Vec<Option<u32>>)
    requires
        table@.len() == EXCEPTION_COUNT,
        forall|k: int|
            0 <= k < EXCEPTION_COUNT ==> #[trigger] table@[k] == exception(module, at, k),
    ensures
        result@ == patched(values@, module, at),
{
    let mut result: Vec<Option<u32>> = Vec::with_capacity(values.len());
    let mut rank: usize = 0;
    let mut i: usize = 0;
    while i < values.len()
        invariant
            i <= values@.len(),
            rank <= i,
            rank == active_before(values@, i as int),
            table@.len() == EXCEPTION_COUNT,
            forall|k: int|
                0 <= k < EXCEPTION_COUNT ==> #[trigger] table@[k] == exception(module, at, k),
            result@ == patched(values@, module, at).subrange(0, i as int),
        decreases values@.len() - i,
    {
        match values[i] {
            Some(value) => {
                result.push(if rank < EXCEPTION_COUNT { Some(table[rank]) } else { Some(value) });
                rank += 1;
            },
            None => {
                result.push(None);
            },
        }
        i += 1;
        assert(result@ =~= patched(values@, module, at).subrange(0, i as int));
    }
    assert(result@ =~= patched(values@, module, at));
    result
}

/// The indices that `seed` restores, if they are a permutation.
fn try_seed(module: &[u8], indices: &[Option<u32>], count: u32, seed: u32) -> (result: Option<
    Vec<Option<u32>>,
>)
    requires
        count == active_count(indices@),
        2 <= count <= u32::MAX / 2,
    ensures
        result is Some <==> seed_restores(module@, indices@, seed),
        result matches Some(values) ==> values@ == restored(module@, indices@, seed),
{
    let values = transformed_values(indices, count, seed);
    proof {
        reveal(seed_restores);
        lemma_same_activity(values@, indices@, indices@.len() as int);
    }
    let missing_list = match missing_values(&values) {
        Some(missing_list) => missing_list,
        None => return None,
    };
    let table = match find_exception_table(module, count, &missing_list, Ghost(values@)) {
        Some(table) => table,
        None => return None,
    };
    let candidate = patch(
        &values,
        &table,
        Ghost(module@),
        Ghost(table_of(module@, indices@, seed)->0),
    );
    if is_complete_permutation(&candidate) {
        Some(candidate)
    } else {
        None
    }
}

/// The list is strictly ascending.
spec fn ascending(seeds: Seq<u32>) -> bool {
    forall|i: int, j: int| 0 <= i < j < seeds.len() ==> seeds[i] < seeds[j]
}

/// Adds `seed` to an ascending list unless it is there.
fn insert_seed(seeds: &mut Vec<u32>, seed: u32)
    requires
        ascending(old(seeds)@),
    ensures
        ascending(final(seeds)@),
        forall|s: u32| #[trigger]
            final(seeds)@.contains(s) <==> old(seeds)@.contains(s) || s == seed,
{
    let ghost before = seeds@;
    let mut at: usize = 0;
    while at < seeds.len() && seeds[at] < seed
        invariant
            at <= seeds@.len(),
            seeds@ == before,
            forall|k: int| 0 <= k < at ==> seeds@[k] < seed,
        decreases seeds@.len() - at,
    {
        at += 1;
    }
    if at < seeds.len() && seeds[at] == seed {
        assert(before.contains(seed));
        return;
    }
    seeds.insert(at, seed);
    proof {
        assert forall|s: u32| #[trigger] seeds@.contains(s) <==> before.contains(s) || s
            == seed by {
            if before.contains(s) {
                let k = choose|k: int| 0 <= k < before.len() && before[k] == s;
                if k < at {
                    assert(seeds@[k] == s);
                } else {
                    assert(seeds@[k + 1] == s);
                }
            }
            if s == seed {
                assert(seeds@[at as int] == s);
            }
            if seeds@.contains(s) && s != seed {
                let k = choose|k: int| 0 <= k < seeds@.len() && seeds@[k] == s;
                if k < at {
                    assert(before[k] == s);
                } else {
                    assert(before[k - 1] == s);
                }
            }
        }
    }
}

/// `seed` restores the indices and is listed before word `word`.
spec fn matches_before(
    module: Seq<u8>,
    indices: Seq<Option<u32>>,
    word: int,
    seed: u32,
) -> bool {
    seed_restores(module, indices, seed) && exists|k: int| k < word && seed_at(module, k, seed)
}

/// The seeds that match, in ascending order.
fn profile_candidates(module: &[u8], indices: &[Option<u32>], count: u32) -> (seeds: Vec<u32>)
    requires
        count == active_count(indices@),
        2 <= count <= u32::MAX / 2,
    ensures
        ascending(seeds@),
        forall|seed: u32| #[trigger]
            seeds@.contains(seed) <==> seed_matches(module@, indices@, seed),
{
    let size: usize = module.len();
    let limit: usize = if size > 8 {
        (size - 9) / 4 + 1
    } else {
        0
    };
    let mut seeds: Vec<u32> = Vec::new();
    let mut word: usize = 0;
    while word < limit
        invariant
            size == module@.len(),
            limit == if size > 8 {
                (size - 9) / 4 + 1
            } else {
                0
            },
            word <= limit,
            count == active_count(indices@),
            2 <= count <= u32::MAX / 2,
            ascending(seeds@),
            forall|seed: u32| #[trigger]
                seeds@.contains(seed) <==> matches_before(module@, indices@, word as int, seed),
        decreases limit - word,
    {
        let ghost before = seeds@;
        let offset: usize = word * 4;
        let candidate = load_u32(module, offset);
        let listed = load_u32(module, offset + 4) == RAW_VERSION_24;
        assert(listed ==> seed_at(module@, word as int, candidate));
        if listed && try_seed(module, indices, count, candidate).is_some() {
            insert_seed(&mut seeds, candidate);
        }
        proof {
            assert forall|seed: u32| #[trigger] seeds@.contains(seed) <==> matches_before(
                module@,
                indices@,
                word + 1,
                seed,
            ) by {
                if before.contains(seed) {
                    let k = choose|k: int| k < word && seed_at(module@, k, seed);
                    assert(k < word + 1 && seed_at(module@, k, seed));
                }
                if matches_before(module@, indices@, word + 1, seed) {
                    let k = choose|k: int| k < word + 1 && seed_at(module@, k, seed);
                    if k < word {
                        assert(k < word && seed_at(module@, k, seed));
                        assert(before.contains(seed));
                    }
                }
            }
        }
        word += 1;
    }
    proof {
        assert forall|seed: u32| #[trigger] seeds@.contains(seed) <==> seed_matches(
            module@,
            indices@,
            seed,
        ) by {
            if seeds@.contains(seed) {
                let k = choose|k: int| k < word && seed_at(module@, k, seed);
                assert(seed_at(module@, k, seed));
            }
            if lists_seed(module@, seed) {
                let k = choose|k: int| seed_at(module@, k, seed);
                assert(k < word && seed_at(module@, k, seed));
            }
        }
    }
    seeds
}

/// The only seed that matches.
fn find_profile(module: &[u8], indices: &[Option<u32>], count: u32) -> (result: Result<u32>)
    requires
        count == active_count(indices@),
        count <= u32::MAX / 2,
    ensures
        result == spec_profile(module@, indices@),
        result matches Ok(seed) ==> seed_matches(module@, indices@, seed) && count
            > EXCEPTION_COUNT,
{
    if count <= EXCEPTION_COUNT as u32 {
        return Err(MethodIndexError::Validation(IndexFault::TooFewMethods { count }));
    }
    let seeds = profile_candidates(module, indices, count);
    if seeds.len() == 0 {
        assert forall|seed: u32| !seed_matches(module@, indices@, seed) by {
            assert(!seeds@.contains(seed));
        }
        return Err(MethodIndexError::ProfileNotFound);
    }
    assert(seeds@.contains(seeds@[0]));
    if seeds.len() > 1 {
        assert(seeds@.contains(seeds@[1]));
        assert(seeds@[0] != seeds@[1]);
        return Err(MethodIndexError::AmbiguousProfile);
    }
    assert forall|seed: u32| seed_matches(module@, indices@, seed) implies seed == seeds@[0] by {
        assert(seeds@.contains(seed));
    }
    Ok(seeds[0])
}

/// Setting no index changes nothing.
proof fn lemma_no_index(data: Seq<u8>, offset: int, values: Seq<Option<u32>>)
    ensures
        with_indices(data, offset, values, 0) == data,
{
    assert(with_indices(data, offset, values, 0) =~= data);
}

/// Setting the index of one more method.
proof fn lemma_one_more_index(
    data: Seq<u8>,
    offset: int,
    values: Seq<Option<u32>>,
    m: int,
)
    requires
        0 <= offset,
        0 <= m < values.len(),
        offset + values.len() * 0x34 <= data.len(),
    ensures
        values[m] is None ==> with_indices(data, offset, values, m + 1) == with_indices(
            data,
            offset,
            values,
            m,
        ),
        values[m] is Some ==> with_indices(data, offset, values, m + 1) == bytes::overwrite(
            with_indices(data, offset, values, m),
            index_place(offset, m),
            bytes::u32_bytes(values[m]->0),
        ),
        bytes::u32_at(with_indices(data, offset, values, m), index_place(offset, m))
            == bytes::u32_at(data, index_place(offset, m)),
{
    broadcast use bytes::group_bytes_len;

    let a = with_indices(data, offset, values, m);
    let b = with_indices(data, offset, values, m + 1);
    let place = index_place(offset, m);
    assert forall|i: int| offset <= i implies ((#[trigger] (i - offset)) / 0x34 == m && 0 <= (i
        - offset) % 0x34 - 0x14 < 4) == (place <= i < place + 4) by {
    }
    if values[m] is Some {
        let c = bytes::overwrite(a, place, bytes::u32_bytes(values[m]->0));
        assert(b =~= c);
    } else {
        assert(a =~= b);
    }
}

/// Putting the word that stands at a place there again changes nothing.
proof fn lemma_word_put_again(data: Seq<u8>, place: int)
    requires
        0 <= place,
        place + 4 <= data.len(),
    ensures
        bytes::overwrite(data, place, bytes::u32_bytes(bytes::u32_at(data, place))) == data,
{
    broadcast use bytes::group_bytes_len;

    let word = bytes::u32_bytes(bytes::u32_at(data, place));
    bytes::lemma_u32_respelled(data, place);
    assert forall|i: int| place <= i < place + 4 implies word[i - place] == #[trigger] data[i] by {
        assert(data.subrange(place, place + 4)[i - place] == data[i]);
    }
    assert(bytes::overwrite(data, place, word) =~= data);
}

/// Puts a word at a place. Hands back whether another one stood there.
fn put_u32(data: &mut Vec<u8>, place: usize, value: u32) -> (changed: bool)
    requires
        place + 4 <= old(data)@.len(),
    ensures
        changed == (bytes::u32_at(old(data)@, place as int) != value),
        final(data)@ == bytes::overwrite(old(data)@, place as int, bytes::u32_bytes(value)),
{
    broadcast use bytes::group_bytes_len;

    if load_u32(data, place) == value {
        proof {
            lemma_word_put_again(data@, place as int);
        }
        return false;
    }
    store(data, place, &bytes_of_u32(value));
    true
}

/// Writes the restored indices. Hands back how many changed.
fn write_indices(
    data: &[u8],
    offset: usize,
    indices: &[Option<u32>],
    values: &[Option<u32>],
    output: &mut Vec<u8>,
) -> (changed: usize)
    requires
        offset + values@.len() * 0x34 <= data@.len(),
        indices@ == indices_at(data@, offset as int, values@.len()),
        same_activity(values@, indices@),
        forall|i: int|
            0 <= i < values@.len() && #[trigger] values@[i] is Some ==> values@[i]->0 < 0x8000_0000,
        old(output)@ == data@,
    ensures
        final(output)@ == with_indices(data@, offset as int, values@, values@.len() as int),
        changed == fold::matching(values@.len(), differs(values@, indices@)).len(),
{
    let ghost keep = differs(values@, indices@);
    proof {
        lemma_no_index(data@, offset as int, values@);
    }
    let mut changed: usize = 0;
    let mut m: usize = 0;
    while m < values.len()
        invariant
            m <= values@.len(),
            offset + values@.len() * 0x34 <= data@.len(),
            data@.len() == data.len(),
            indices@ == indices_at(data@, offset as int, values@.len()),
            same_activity(values@, indices@),
            output@ == with_indices(data@, offset as int, values@, m as int),
            output@.len() == data@.len(),
            keep == differs(values@, indices@),
            changed <= m,
            changed == fold::matching(m as nat, keep).len(),
        decreases values@.len() - m,
    {
        proof {
            lemma_one_more_index(data@, offset as int, values@, m as int);
        }
        assert(values@[m as int] is Some <==> indices@[m as int] is Some);
        if let Some(value) = values[m] {
            let place: usize = offset + m * V24_1_METHOD_STRIDE + V24_1_METHOD_INDEX_OFFSET;
            assert(place == index_place(offset as int, m as int));
            if put_u32(output, place, value) {
                changed += 1;
            }
        }
        m += 1;
    }
    changed
}

/// Restored values keep the activity of the indices and, being a permutation, fit in an index.
pub proof fn lemma_restored(module: Seq<u8>, indices: Seq<Option<u32>>, seed: u32)
    requires
        seed_restores(module, indices, seed),
    ensures
        same_activity(restored(module, indices, seed), indices),
        forall|i: int|
            0 <= i < indices.len() && #[trigger] restored(module, indices, seed)[i] is Some
                ==> restored(module, indices, seed)[i]->0 < active_count(indices),
{
    reveal(seed_restores);
    lemma_same_activity(restored(module, indices, seed), indices, indices.len() as int);
}

/// Restores the method indices of version 24.1 metadata with the decoded module that came with
/// the protected library.
///
/// A seed of the module is accepted only when it and an exception table of the module turn the
/// active indices into the exact permutation of the numbers below their count, and only when no
/// other seed does. Metadata whose indices already are such a permutation comes back unchanged.
pub fn restore_method_indices_v24_1(data: &[u8], module_0c: &[u8]) -> (result: Result<
    (Vec<u8>, MethodIndexReport),
>)
    ensures
        match (result, spec_restore(data@, module_0c@)) {
            (Ok((found, report)), Ok((wanted, expected))) => found@ == wanted && report@
                == expected,
            (Err(found), Err(wanted)) => found == wanted,
            _ => false,
        },
{
    let (offset, indices) = method_indices(data)?;
    let active = count_active(&indices);
    if is_complete_permutation(&indices) {
        return Ok(
            (
                copy_of(data),
                MethodIndexReport {
                    version: RAW_VERSION_24,
                    methods: indices.len(),
                    active_methods: active,
                    changed_indices: 0,
                    exception_count: 0,
                    seed: String::from_str("clean"),
                },
            ),
        );
    }
    let count = active as u32;
    let seed = find_profile(module_0c, &indices, count)?;
    let values = match try_seed(module_0c, &indices, count, seed) {
        Some(values) => values,
        None => return Err(MethodIndexError::ProfileNotFound),
    };
    proof {
        lemma_restored(module_0c@, indices@, seed);
    }
    let mut output = copy_of(data);
    let changed_indices = write_indices(data, offset, &indices, &values, &mut output);
    let mut seed_text = String::from_str("0x");
    seed_text.append(zero_pad(upper_hex_of(seed as u64), 8).as_str());
    Ok(
        (
            output,
            MethodIndexReport {
                version: RAW_VERSION_24,
                methods: indices.len(),
                active_methods: active,
                changed_indices,
                exception_count: EXCEPTION_COUNT,
                seed: seed_text,
            },
        ),
    )
}

} // verus!
