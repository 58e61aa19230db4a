//! Reading and changing the dynamic table.

use super::error::{invalid, lift, Error, Fault, Result};
use super::tags::{DynamicValues, TagSet};
use crate::bytes;
use crate::bytes::{bytes_of_u64, load_u64, store};
use crate::elf::read;
use crate::elf::{
    slice, usize_from_u64, SectionHeader, DT_GNU_HASH, DT_HASH, DT_JMPREL, DT_PLTRELSZ, DT_RELA,
    DT_RELACOUNT, DT_RELASZ, DT_STRSZ, DT_STRTAB, DT_SYMTAB, DT_VERNEED, DT_VERSYM,
};
use crate::engine::error;
use vstd::prelude::*;

verus! {

/// Start and size of the dynamic table in an image of `length` bytes, or why it cannot be used.
pub open spec fn spec_table_range(image: Seq<u8>, dynamic: SectionHeader) -> Result<(usize, usize)> {
    if dynamic.size % 0x10 != 0 {
        Err(error::fault(".dynamic size is not entry-aligned"))
    } else {
        match read::spec_usize_from_u64(dynamic.offset, ".dynamic offset") {
            Err(e) => Err(Error::Elf(e)),
            Ok(start) => match read::spec_usize_from_u64(dynamic.size, ".dynamic size") {
                Err(e) => Err(Error::Elf(e)),
                Ok(size) => if start + size > usize::MAX {
                    Err(error::fault(".dynamic end overflow"))
                } else {
                    match read::spec_slice(image, start as int, size as int) {
                        Err(e) => Err(Error::Elf(e)),
                        Ok(_) => Ok((start, size)),
                    }
                },
            },
        }
    }
}

/// The tag of entry `k` of a table at `start`.
pub open spec fn tag_at(image: Seq<u8>, start: int, k: int) -> u64 {
    bytes::u64_at(image, start + k * 0x10)
}

/// No entry before `k` ends the table.
pub open spec fn is_reached(image: Seq<u8>, start: int, k: int) -> bool {
    forall|j: int| 0 <= j < k ==> #[trigger] tag_at(image, start, j) != 0
}

/// `tag` occurs among the first `count` entries, up to the one that ends the table.
pub open spec fn has_tag(image: Seq<u8>, start: int, count: int, tag: u64) -> bool {
    exists|k: int|
        0 <= k < count && is_reached(image, start, k) && #[trigger] tag_at(image, start, k) == tag
}

/// Whether the dynamic table has `tag`.
pub open spec fn spec_contains_tag(image: Seq<u8>, dynamic: SectionHeader, tag: u64) -> Result<bool> {
    match spec_table_range(image, dynamic) {
        Err(e) => Err(e),
        Ok((start, size)) => Ok(has_tag(image, start as int, (size / 0x10) as int, tag)),
    }
}

/// What has come of setting tags so far.
#[verifier::ext_equal]
pub struct TagState {
    pub image: Seq<u8>,
    pub failure: Option<Error>,
}

/// Sets the values of the first `count` entries of the table at `start`, as far as they are reached.
pub open spec fn set_tags(image: Seq<u8>, start: int, count: nat, values: DynamicValues) -> TagState
    decreases count,
{
    if count == 0 {
        TagState { image, failure: None }
    } else {
        let k = count - 1;
        let before = set_tags(image, start, k as nat, values);
        let tag = tag_at(image, start, k);
        if before.failure is Some || !is_reached(image, start, k) {
            before
        } else {
            match values.spec_get(tag) {
                None => before,
                Some(value) => if has_tag(image, start, k, tag) {
                    TagState {
                        failure: Some(Error::Invalid(Fault::TagTwice { tag })),
                        ..before
                    }
                } else {
                    TagState {
                        image: bytes::overwrite(
                            before.image,
                            start + k * 0x10 + 8,
                            bytes::u64_bytes(value),
                        ),
                        failure: None,
                    }
                },
            }
        }
    }
}

/// The image with the values of dynamic tags set, and the outcome.
pub open spec fn spec_patch_dynamic_tags(
    image: Seq<u8>,
    dynamic: SectionHeader,
    values: DynamicValues,
) -> (Seq<u8>, Result<()>) {
    match spec_table_range(image, dynamic) {
        Err(e) => (image, Err(e)),
        Ok((start, size)) => {
            let count = (size / 0x10) as nat;
            let state = set_tags(image, start as int, count, values);
            let missing = values.spec_missing(
                |tag: u64| has_tag(image, start as int, count as int, tag),
            );
            match state.failure {
                Some(e) => (state.image, Err(e)),
                None => if missing.spec_is_empty() {
                    (state.image, Ok(()))
                } else {
                    (state.image, Err(Error::Invalid(Fault::MissingTags { tags: missing })))
                },
            }
        },
    }
}

/// Finds the dynamic table.
fn table_range(image: &[u8], dynamic: SectionHeader) -> (result: Result<(usize, usize)>)
    ensures
        result == spec_table_range(image@, dynamic),
        result matches Ok((start, size)) ==> start + size <= image@.len() && size % 0x10 == 0,
{
    if dynamic.size % 0x10 != 0 {
        return invalid(Fault::Text(".dynamic size is not entry-aligned"));
    }
    let start = lift(usize_from_u64(dynamic.offset, ".dynamic offset"))?;
    let size = lift(usize_from_u64(dynamic.size, ".dynamic size"))?;
    if start.checked_add(size).is_none() {
        return invalid(Fault::Text(".dynamic end overflow"));
    }
    if let Err(e) = slice(image, start, size) {
        return Err(Error::Elf(e));
    }
    Ok((start, size))
}

/// Whether the dynamic table has `wanted` before its end.
pub fn dynamic_contains_tag(image: &[u8], dynamic: SectionHeader, wanted: u64) -> (result: Result<
    bool,
>)
    ensures
        result == spec_contains_tag(image@, dynamic, wanted),
{
    let (start, size) = table_range(image, dynamic)?;
    let length: usize = image.len();
    let mut k: usize = 0;
    while k < size / 0x10
        invariant
            length == image@.len(),
            start + size <= image@.len(),
            size % 0x10 == 0,
            k <= size / 0x10,
            spec_table_range(image@, dynamic) == Ok::<(usize, usize), Error>((start, size)),
            is_reached(image@, start as int, k as int),
            forall|j: int| 0 <= j < k ==> #[trigger] tag_at(image@, start as int, j) != wanted,
        decreases size / 0x10 - k,
    {
        let tag = load_u64(image, start + k * 0x10);
        assert(tag == tag_at(image@, start as int, k as int));
        if tag == wanted {
            return Ok(true);
        }
        if tag == 0 {
            assert forall|j: int|
                0 <= j < size / 0x10 && is_reached(image@, start as int, j) implies #[trigger] tag_at(
                image@,
                start as int,
                j,
            ) != wanted by {
                if j > k {
                    assert(tag_at(image@, start as int, k as int) != 0);
                }
            }
            return Ok(false);
        }
        k += 1;
    }
    Ok(false)
}

/// Setting tags keeps the size of the image and every byte but the values of entries.
pub proof fn lemma_set_tags(image: Seq<u8>, start: int, count: nat, values: DynamicValues)
    requires
        0 <= start,
        start + count * 0x10 <= image.len(),
    ensures
        set_tags(image, start, count, values).image.len() == image.len(),
        forall|i: int|
            0 <= i < image.len() && !(start <= i < start + count * 0x10 && (i - start) % 0x10 >= 8)
                ==> #[trigger] set_tags(image, start, count, values).image[i] == image[i],
    decreases count,
{
    broadcast use bytes::group_bytes_len;

    if count > 0 {
        lemma_set_tags(image, start, (count - 1) as nat, values);
    }
}

/// Once setting tags has failed or the table has ended, later entries change nothing.
proof fn lemma_tags_settled(image: Seq<u8>, start: int, k: nat, count: nat, values: DynamicValues)
    requires
        k <= count,
        set_tags(image, start, k, values).failure is Some || !is_reached(image, start, k as int),
    ensures
        set_tags(image, start, count, values) == set_tags(image, start, k, values),
    decreases count,
{
    if k < count {
        lemma_tags_settled(image, start, k, (count - 1) as nat, values);
        if !is_reached(image, start, k as int) {
            let j = choose|j: int| 0 <= j < k && tag_at(image, start, j) == 0;
            assert(tag_at(image, start, j) == 0);
            assert(!is_reached(image, start, count - 1));
        }
    }
}

/// Sets the values of dynamic tags. Every tag with a new value has to occur, and only once.
pub fn patch_dynamic_tags(output: &mut [u8], dynamic: SectionHeader, values: &DynamicValues) -> (result:
    Result<()>)
    ensures
        (final(output)@, result) == spec_patch_dynamic_tags(old(output)@, dynamic, *values),
{
    broadcast use bytes::group_bytes_len;

    let ghost image = output@;
    let (start, size) = table_range(output, dynamic)?;
    let length: usize = output.len();
    let count: usize = size / 0x10;
    let mut found = TagSet::none();
    let mut ended = false;
    let mut k: usize = 0;
    while k < count && !ended
        invariant
            image == old(output)@,
            length == image.len(),
            output@.len() == length,
            start + size <= length,
            size % 0x10 == 0,
            count == size / 0x10,
            k <= count,
            spec_table_range(image, dynamic) == Ok::<(usize, usize), Error>((start, size)),
            !ended ==> is_reached(image, start as int, k as int),
            ended ==> !is_reached(image, start as int, k as int),
            set_tags(image, start as int, k as nat, *values) == (TagState {
                image: output@,
                failure: None,
            }),
            forall|tag: u64| #[trigger]
                found.spec_has(tag) <==> values.spec_get(tag) is Some && has_tag(
                    image,
                    start as int,
                    k as int,
                    tag,
                ),
        decreases count - k,
    {
        proof {
            lemma_set_tags(image, start as int, k as nat, *values);
            let next = set_tags(image, start as int, (k + 1) as nat, *values);
            if next.failure is Some {
                lemma_tags_settled(image, start as int, (k + 1) as nat, count as nat, *values);
            }
        }
        let at: usize = start + k * 0x10;
        let tag = load_u64(output, at);
        assert(tag == tag_at(image, start as int, k as int)) by {
            assert(bytes::u32_at(output@, at as int) == bytes::u32_at(image, at as int));
            assert(bytes::u32_at(output@, at + 4) == bytes::u32_at(image, at + 4));
        }
        let ghost before = found;
        if let Some(value) = values.get(tag) {
            if found.has(tag) {
                return invalid(Fault::TagTwice { tag });
            }
            store(output, at + 8, &bytes_of_u64(value));
            found.insert(tag);
        }
        if tag == 0 {
            ended = true;
        }
        proof {
            assert forall|other: u64| #[trigger] found.spec_has(other) <==> values.spec_get(
                other,
            ) is Some && has_tag(image, start as int, k + 1, other) by {
                assert(before.spec_has(other) || !before.spec_has(other));
                if has_tag(image, start as int, k as int, other) {
                    let j = choose|j: int|
                        0 <= j < k && is_reached(image, start as int, j) && #[trigger] tag_at(
                            image,
                            start as int,
                            j,
                        ) == other;
                    assert(tag_at(image, start as int, j) == other);
                }
                if other == tag {
                    assert(tag_at(image, start as int, k as int) == other);
                }
            }
        }
        k += 1;
    }
    proof {
        if ended {
            lemma_tags_settled(image, start as int, k as nat, count as nat, *values);
        }
        assert forall|tag: u64| has_tag(image, start as int, count as int, tag) == has_tag(
            image,
            start as int,
            k as int,
            tag,
        ) by {
            if has_tag(image, start as int, count as int, tag) {
                let j = choose|j: int|
                    0 <= j < count && is_reached(image, start as int, j) && #[trigger] tag_at(
                        image,
                        start as int,
                        j,
                    ) == tag;
                if j >= k {
                    let e = choose|e: int| 0 <= e < k && tag_at(image, start as int, e) == 0;
                    assert(tag_at(image, start as int, e) != 0);
                }
                assert(0 <= j < k && tag_at(image, start as int, j) == tag);
            }
            if has_tag(image, start as int, k as int, tag) {
                let j = choose|j: int|
                    0 <= j < k && is_reached(image, start as int, j) && #[trigger] tag_at(
                        image,
                        start as int,
                        j,
                    ) == tag;
                assert(0 <= j < count && tag_at(image, start as int, j) == tag);
            }
        }
    }
    let missing = values.missing(&found);
    proof {
        lemma_missing(
            *values,
            found,
            |tag: u64| has_tag(image, start as int, count as int, tag),
        );
    }
    if !missing.is_empty() {
        return invalid(Fault::MissingTags { tags: missing });
    }
    Ok(())
}

/// The recorded tags tell which ones are missing.
proof fn lemma_missing(values: DynamicValues, found: TagSet, occurs: spec_fn(u64) -> bool)
    requires
        forall|tag: u64| #[trigger]
            found.spec_has(tag) <==> values.spec_get(tag) is Some && occurs(tag),
    ensures
        values.lacking(found) == values.spec_missing(occurs),
{
    assert(found.spec_has(DT_PLTRELSZ) == found.pltrelsz);
    assert(found.spec_has(DT_HASH) == found.hash);
    assert(found.spec_has(DT_STRTAB) == found.strtab);
    assert(found.spec_has(DT_SYMTAB) == found.symtab);
    assert(found.spec_has(DT_RELA) == found.rela);
    assert(found.spec_has(DT_RELASZ) == found.relasz);
    assert(found.spec_has(DT_STRSZ) == found.strsz);
    assert(found.spec_has(DT_JMPREL) == found.jmprel);
    assert(found.spec_has(DT_GNU_HASH) == found.gnu_hash);
    assert(found.spec_has(DT_VERSYM) == found.versym);
    assert(found.spec_has(DT_RELACOUNT) == found.relacount);
    assert(found.spec_has(DT_VERNEED) == found.verneed);
}

/// The value of entry `k` of a table at `start`.
pub open spec fn value_at(image: Seq<u8>, start: int, k: int) -> u64 {
    bytes::u64_at(image, start + k * 0x10 + 8)
}

/// What entry `k` holds after tags have been set.
pub open spec fn value_after(image: Seq<u8>, start: int, k: int, values: DynamicValues) -> u64 {
    match values.spec_get(tag_at(image, start, k)) {
        Some(value) => if is_reached(image, start, k) {
            value
        } else {
            value_at(image, start, k)
        },
        None => value_at(image, start, k),
    }
}

/// The values of entries after the first `n` of them were set.
proof fn lemma_values_set(image: Seq<u8>, start: int, n: nat, values: DynamicValues, k: int)
    requires
        0 <= start,
        start + n * 0x10 <= image.len(),
        0 <= k < n,
        set_tags(image, start, n, values).failure is None,
    ensures
        value_at(set_tags(image, start, n, values).image, start, k) == value_after(
            image,
            start,
            k,
            values,
        ),
    decreases n,
{
    broadcast use bytes::group_bytes_len;

    let last = n - 1;
    let before = set_tags(image, start, last as nat, values);
    let after = set_tags(image, start, n, values);
    lemma_set_tags(image, start, last as nat, values);
    lemma_set_tags(image, start, n, values);
    if before.failure is Some {
        lemma_tags_settled(image, start, last as nat, n, values);
    }
    let at = start + k * 0x10 + 8;
    if k < last {
        lemma_values_set(image, start, last as nat, values, k);
        assert(bytes::u32_at(after.image, at) == bytes::u32_at(before.image, at));
        assert(bytes::u32_at(after.image, at + 4) == bytes::u32_at(before.image, at + 4));
    } else {
        assert(bytes::u32_at(before.image, at) == bytes::u32_at(image, at));
        assert(bytes::u32_at(before.image, at + 4) == bytes::u32_at(image, at + 4));
        if is_reached(image, start, k) {
            if let Some(value) = values.spec_get(tag_at(image, start, k)) {
                assert(after.image.subrange(at, at + 8) =~= bytes::u64_bytes(value));
                bytes::lemma_u64_spelled(after.image, at, value);
            }
        }
    }
}

/// Tags that were set lie in a table within the image.
pub proof fn lemma_patched(image: Seq<u8>, dynamic: SectionHeader, values: DynamicValues)
    requires
        image.len() <= usize::MAX,
        spec_patch_dynamic_tags(image, dynamic, values).1 is Ok,
    ensures
        dynamic.offset + dynamic.size <= image.len(),
        dynamic.size == (dynamic.size / 0x10) * 0x10,
        ({
            let count = (dynamic.size / 0x10) as nat;
            let state = set_tags(image, dynamic.offset as int, count, values);
            &&& state.failure is None
            &&& spec_patch_dynamic_tags(image, dynamic, values).0 == state.image
        }),
{
}

/// The tag of an entry whose bytes have not changed.
proof fn lemma_tag_kept(a: Seq<u8>, b: Seq<u8>, start: int, k: int)
    requires
        forall|i: int|
            start + k * 0x10 <= i < start + k * 0x10 + 8 ==> #[trigger] a[i] == b[i],
    ensures
        tag_at(a, start, k) == tag_at(b, start, k),
{
    let at = start + k * 0x10;
    assert(bytes::u32_at(a, at) == bytes::u32_at(b, at));
    assert(bytes::u32_at(a, at + 4) == bytes::u32_at(b, at + 4));
}

/// After tags were set, every entry up to the end of the table has its tag and its new value, and
/// no other byte of the image has changed.
pub proof fn law_dynamic_tags_read_back(
    image: Seq<u8>,
    dynamic: SectionHeader,
    values: DynamicValues,
    k: int,
    i: int,
)
    requires
        image.len() <= usize::MAX,
        spec_patch_dynamic_tags(image, dynamic, values).1 is Ok,
        0 <= k < dynamic.size / 0x10,
    ensures
        ({
            let after = spec_patch_dynamic_tags(image, dynamic, values).0;
            let start = dynamic.offset as int;
            &&& after.len() == image.len()
            &&& tag_at(after, start, k) == tag_at(image, start, k)
            &&& value_at(after, start, k) == value_after(image, start, k, values)
            &&& 0 <= i < image.len() && !(start <= i < start + dynamic.size && (i - start) % 0x10
                >= 8) ==> after[i] == image[i]
        }),
{
    let start = dynamic.offset as int;
    let count = (dynamic.size / 0x10) as nat;
    let after = spec_patch_dynamic_tags(image, dynamic, values).0;
    lemma_patched(image, dynamic, values);
    lemma_set_tags(image, start, count, values);
    lemma_values_set(image, start, count, values, k);
    lemma_tag_kept(after, image, start, k);
}

} // verus!
