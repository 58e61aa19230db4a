//! What pointing an image to its rebuilt tables does to the dynamic table, and what decoded memory
//! does to the file.

use super::dynamic;
use super::error::Error;
use super::materialize;
use super::materialize::RelocationModel;
use super::sections::SectionIndices;
use super::tags::DynamicValues;
use super::writer;
use crate::bytes;
use crate::elf::append_laws;
use crate::elf::layout::LayoutModel;
use crate::elf::{LoadSegment, SectionHeader};
use vstd::prelude::*;

verus! {

/// Which value belongs to which tag.
pub proof fn law_tags_have_their_values(values: DynamicValues, tag: u64)
    ensures
        values.spec_get(2) == values.pltrelsz,
        values.spec_get(4) == values.hash,
        values.spec_get(5) == values.strtab,
        values.spec_get(6) == values.symtab,
        values.spec_get(7) == values.rela,
        values.spec_get(8) == values.relasz,
        values.spec_get(10) == values.strsz,
        values.spec_get(23) == values.jmprel,
        values.spec_get(0x6fff_fef5) == values.gnu_hash,
        values.spec_get(0x6fff_fff0) == values.versym,
        values.spec_get(0x6fff_fff9) == values.relacount,
        values.spec_get(0x6fff_fffe) == values.verneed,
        values.spec_get(tag) is Some ==> tag == 2 || tag == 4 || tag == 5 || tag == 6 || tag == 7
            || tag == 8 || tag == 10 || tag == 23 || tag == 0x6fff_fef5 || tag == 0x6fff_fff0 || tag
            == 0x6fff_fff9 || tag == 0x6fff_fffe,
{
}

/// The tag of entry `k` of a dynamic table.
pub open spec fn entry_tag(image: Seq<u8>, table: SectionHeader, k: int) -> u64 {
    bytes::u64_at(image, table.offset + k * 16)
}

/// The value of entry `k` of a dynamic table.
pub open spec fn entry_value(image: Seq<u8>, table: SectionHeader, k: int) -> u64 {
    bytes::u64_at(image, table.offset + k * 16 + 8)
}

/// Entry `k` is one of a table's entries, which the first entry with tag zero ends.
pub open spec fn is_entry(image: Seq<u8>, table: SectionHeader, k: int) -> bool {
    &&& 0 <= k < table.size / 16
    &&& forall|j: int| 0 <= j < k ==> #[trigger] entry_tag(image, table, j) != 0
}

/// One of the entries of a table has `tag`.
pub open spec fn occurs(image: Seq<u8>, table: SectionHeader, tag: u64) -> bool {
    exists|k: int| is_entry(image, table, k) && #[trigger] entry_tag(image, table, k) == tag
}

/// The table is whole and lies within the image.
pub open spec fn is_whole(image: Seq<u8>, table: SectionHeader) -> bool {
    &&& table.size % 16 == 0
    &&& table.offset + table.size <= image.len()
}

/// No tag with a new value occurs twice.
pub open spec fn is_unambiguous(
    image: Seq<u8>,
    table: SectionHeader,
    values: DynamicValues,
    n: int,
) -> bool {
    forall|i: int, j: int|
        0 <= i < j < n && is_entry(image, table, j) && #[trigger] entry_tag(image, table, i)
            == #[trigger] entry_tag(image, table, j) ==> values.spec_get(
            entry_tag(image, table, j),
        ) is None
}

/// Entries are reached in order.
proof fn lemma_reached(image: Seq<u8>, table: SectionHeader, k: int)
    requires
        0 <= k < table.size / 16,
    ensures
        dynamic::is_reached(image, table.offset as int, k) <==> is_entry(image, table, k),
        dynamic::tag_at(image, table.offset as int, k) == entry_tag(image, table, k),
{
    let start = table.offset as int;
    if dynamic::is_reached(image, start, k) {
        assert forall|j: int| 0 <= j < k implies #[trigger] entry_tag(image, table, j) != 0 by {
            assert(dynamic::tag_at(image, start, j) != 0);
        }
    }
    if is_entry(image, table, k) {
        assert forall|j: int| 0 <= j < k implies #[trigger] dynamic::tag_at(image, start, j) != 0 by {
            assert(entry_tag(image, table, j) != 0);
        }
    }
}

/// When a tag occurs among the first `n` entries.
pub proof fn lemma_has_tag(image: Seq<u8>, table: SectionHeader, n: int, tag: u64)
    requires
        0 <= n <= table.size / 16,
    ensures
        dynamic::has_tag(image, table.offset as int, n, tag) <==> exists|k: int|
            0 <= k < n && is_entry(image, table, k) && #[trigger] entry_tag(image, table, k) == tag,
{
    let start = table.offset as int;
    if dynamic::has_tag(image, start, n, tag) {
        let k = choose|k: int|
            0 <= k < n && dynamic::is_reached(image, start, k) && #[trigger] dynamic::tag_at(
                image,
                start,
                k,
            ) == tag;
        lemma_reached(image, table, k);
        assert(entry_tag(image, table, k) == tag);
    }
    if exists|k: int|
        0 <= k < n && is_entry(image, table, k) && #[trigger] entry_tag(image, table, k) == tag {
        let k = choose|k: int|
            0 <= k < n && is_entry(image, table, k) && #[trigger] entry_tag(image, table, k) == tag;
        lemma_reached(image, table, k);
        assert(dynamic::tag_at(image, start, k) == tag);
    }
}

/// A table can be searched exactly when it is whole, and a tag is found exactly when it occurs
/// before the end of the table.
pub proof fn law_tags_are_found(image: Seq<u8>, table: SectionHeader, tag: u64)
    requires
        image.len() <= usize::MAX,
    ensures
        dynamic::spec_contains_tag(image, table, tag) is Ok <==> is_whole(image, table),
        dynamic::spec_contains_tag(image, table, tag) matches Ok(found) ==> (found <==> occurs(
            image,
            table,
            tag,
        )),
{
    if is_whole(image, table) {
        let n = (table.size / 16) as int;
        lemma_has_tag(image, table, n, tag);
        if occurs(image, table, tag) {
            let k = choose|k: int|
                is_entry(image, table, k) && #[trigger] entry_tag(image, table, k) == tag;
            assert(0 <= k < n && entry_tag(image, table, k) == tag);
        }
    }
}

/// Setting the first `n` entries fails exactly when a tag with a new value occurs twice.
pub proof fn lemma_set_fails(image: Seq<u8>, table: SectionHeader, values: DynamicValues, n: nat)
    requires
        n <= table.size / 16,
    ensures
        dynamic::set_tags(image, table.offset as int, n, values).failure is None <==> is_unambiguous(
            image,
            table,
            values,
            n as int,
        ),
    decreases n,
{
    if n > 0 {
        let k = n - 1;
        lemma_set_fails(image, table, values, k as nat);
        lemma_reached(image, table, k);
        let tag = entry_tag(image, table, k);
        lemma_has_tag(image, table, k, tag);
        let before = dynamic::set_tags(image, table.offset as int, k as nat, values);
        let after = dynamic::set_tags(image, table.offset as int, n, values);
        if after.failure is Some && before.failure is None {
            let i = choose|i: int|
                0 <= i < k && is_entry(image, table, i) && #[trigger] entry_tag(image, table, i)
                    == tag;
            assert(entry_tag(image, table, i) == entry_tag(image, table, k));
            assert(!is_unambiguous(image, table, values, n as int));
        }
        if after.failure is None {
            assert(is_unambiguous(image, table, values, k));
            assert forall|i: int, j: int|
                0 <= i < j < n && is_entry(image, table, j) && #[trigger] entry_tag(image, table, i)
                    == #[trigger] entry_tag(image, table, j) implies values.spec_get(
                entry_tag(image, table, j),
            ) is None by {
                if j == k && values.spec_get(tag) is Some {
                    assert(is_entry(image, table, i)) by {
                        assert forall|x: int| 0 <= x < i implies #[trigger] entry_tag(
                            image,
                            table,
                            x,
                        ) != 0 by {
                        }
                    }
                    assert(dynamic::has_tag(image, table.offset as int, k, tag));
                }
            }
        }
    }
}

/// Setting tags works exactly when the table is whole, every tag with a new value occurs in it, and
/// none of them occurs twice.
pub proof fn law_tags_can_be_set(image: Seq<u8>, table: SectionHeader, values: DynamicValues)
    requires
        image.len() <= usize::MAX,
    ensures
        dynamic::spec_patch_dynamic_tags(image, table, values).1 is Ok <==> {
            &&& is_whole(image, table)
            &&& is_unambiguous(image, table, values, (table.size / 16) as int)
            &&& forall|tag: u64| #[trigger]
                values.spec_get(tag) is Some ==> occurs(image, table, tag)
        },
{
    let start = table.offset as int;
    let n = (table.size / 16) as int;
    if is_whole(image, table) {
        lemma_set_fails(image, table, values, n as nat);
        let found = |tag: u64| dynamic::has_tag(image, start, n, tag);
        let missing = values.spec_missing(found);
        assert forall|tag: u64| #[trigger] found(tag) == occurs(image, table, tag) by {
            lemma_has_tag(image, table, n, tag);
            if occurs(image, table, tag) {
                let k = choose|k: int|
                    is_entry(image, table, k) && #[trigger] entry_tag(image, table, k) == tag;
                assert(0 <= k < n && entry_tag(image, table, k) == tag);
            }
        }
        if missing.spec_is_empty() {
            assert forall|tag: u64| #[trigger] values.spec_get(tag) is Some implies occurs(
                image,
                table,
                tag,
            ) by {
                law_tags_have_their_values(values, tag);
                assert(found(tag) == occurs(image, table, tag));
            }
        }
        if forall|tag: u64| #[trigger] values.spec_get(tag) is Some ==> occurs(image, table, tag) {
            law_tags_have_their_values(values, 0);
            assert(values.spec_get(2) is Some ==> found(2));
            assert(values.spec_get(4) is Some ==> found(4));
            assert(values.spec_get(5) is Some ==> found(5));
            assert(values.spec_get(6) is Some ==> found(6));
            assert(values.spec_get(7) is Some ==> found(7));
            assert(values.spec_get(8) is Some ==> found(8));
            assert(values.spec_get(10) is Some ==> found(10));
            assert(values.spec_get(23) is Some ==> found(23));
            assert(values.spec_get(0x6fff_fef5) is Some ==> found(0x6fff_fef5));
            assert(values.spec_get(0x6fff_fff0) is Some ==> found(0x6fff_fff0));
            assert(values.spec_get(0x6fff_fff9) is Some ==> found(0x6fff_fff9));
            assert(values.spec_get(0x6fff_fffe) is Some ==> found(0x6fff_fffe));
        }
    }
}

/// After tags were set, an entry of the table has its new value if its tag has one and its old value
/// if not, and nothing else in the image has changed.
pub proof fn law_entries_after_setting(
    image: Seq<u8>,
    table: SectionHeader,
    values: DynamicValues,
    k: int,
    i: int,
)
    requires
        image.len() <= usize::MAX,
        dynamic::spec_patch_dynamic_tags(image, table, values).1 is Ok,
        0 <= k < table.size / 16,
    ensures
        ({
            let after = dynamic::spec_patch_dynamic_tags(image, table, values).0;
            let tag = entry_tag(image, table, k);
            &&& after.len() == image.len()
            &&& entry_tag(after, table, k) == tag
            &&& entry_value(after, table, k) == if is_entry(image, table, k) && values.spec_get(
                tag,
            ) is Some {
                values.spec_get(tag)->0
            } else {
                entry_value(image, table, k)
            }
            &&& 0 <= i < image.len() && (i < table.offset || table.offset + table.size <= i || (i
                - table.offset) % 16 < 8) ==> after[i] == image[i]
        }),
{
    dynamic::law_dynamic_tags_read_back(image, table, values, k, i);
    lemma_reached(image, table, k);
}

/// The dynamic table is pointed to the rebuilt tables: to where their sections are in memory and to
/// their sizes, and it counts the relative relocations if it did before.
pub proof fn law_dynamic_values(
    headers: Seq<SectionHeader>,
    found: SectionIndices,
    strings_size: nat,
    relocations: RelocationModel,
    counts_relative: bool,
)
    requires
        strings_size <= u64::MAX,
        relocations.rela_dyn.len() <= u64::MAX,
        relocations.rela_plt.len() <= u64::MAX,
    ensures
        ({
            let values = materialize::dynamic_values(
                headers,
                found,
                strings_size,
                relocations,
                counts_relative,
            );
            &&& values.spec_get(5) == Some(headers[found.dynstr as int].address)
            &&& values.spec_get(6) == Some(headers[found.dynsym as int].address)
            &&& values.spec_get(7) == Some(headers[found.rela_dyn as int].address)
            &&& values.spec_get(23) == Some(headers[found.rela_plt as int].address)
            &&& values.spec_get(0x6fff_fff0) == Some(headers[found.versym as int].address)
            &&& values.spec_get(0x6fff_fffe) == Some(headers[found.verneed as int].address)
            &&& values.spec_get(4) is Some <==> found.hash is Some
            &&& found.hash is Some ==> values.spec_get(4)->0
                == headers[found.hash->0 as int].address
            &&& values.spec_get(0x6fff_fef5) is Some <==> found.gnu_hash is Some
            &&& found.gnu_hash is Some ==> values.spec_get(0x6fff_fef5)->0
                == headers[found.gnu_hash->0 as int].address
            &&& values.spec_get(2) is Some && values.spec_get(2)->0 == relocations.rela_plt.len()
            &&& values.spec_get(8) is Some && values.spec_get(8)->0 == relocations.rela_dyn.len()
            &&& values.spec_get(10) is Some && values.spec_get(10)->0 == strings_size
            &&& values.spec_get(0x6fff_fff9) is Some <==> counts_relative
            &&& counts_relative ==> values.spec_get(0x6fff_fff9)->0 == relocations.relative_count
        }),
{
}

/// Linking asks first whether the table counts its relative relocations, and then sets the values.
pub proof fn law_linking(
    image: Seq<u8>,
    headers: Seq<SectionHeader>,
    table: SectionHeader,
    found: SectionIndices,
    strings_size: nat,
    relocations: RelocationModel,
)
    requires
        image.len() <= usize::MAX,
        is_whole(image, table),
    ensures
        materialize::spec_link(image, headers, table, found, strings_size, relocations)
            == dynamic::spec_patch_dynamic_tags(
            image,
            table,
            materialize::dynamic_values(
                headers,
                found,
                strings_size,
                relocations,
                occurs(image, table, 0x6fff_fff9),
            ),
        ),
{
    law_tags_are_found(image, table, 0x6fff_fff9);
}

/// How many bytes of memory from `start` to `stop` a write from `address` to `end` reaches.
pub open spec fn overlap(start: int, stop: int, address: int, end: int) -> int {
    let from = if address >= start {
        address
    } else {
        start
    };
    let to = if end <= stop {
        end
    } else {
        stop
    };
    if from < to {
        to - from
    } else {
        0
    }
}

/// How many bytes of a write the memory of the first `n` segments takes.
pub open spec fn taken(segments: Seq<LoadSegment>, address: int, end: int, n: int) -> int
    decreases n,
{
    if n <= 0 {
        0
    } else {
        let segment = segments[n - 1];
        taken(segments, address, end, n - 1) + overlap(
            segment.virtual_address as int,
            segment.virtual_address + segment.memory_size,
            address,
            end,
        )
    }
}

/// How many bytes of a write the file behind the first `n` segments takes.
pub open spec fn stored(segments: Seq<LoadSegment>, address: int, end: int, n: int) -> int
    decreases n,
{
    if n <= 0 {
        0
    } else {
        let segment = segments[n - 1];
        stored(segments, address, end, n - 1) + overlap(
            segment.virtual_address as int,
            segment.virtual_address + segment.file_size,
            address,
            end,
        )
    }
}

/// The segments are as a file has them: none is longer in the file than in memory, their memory
/// does not overflow, and they lie within the image.
pub open spec fn are_usual(segments: Seq<LoadSegment>, size: int) -> bool {
    forall|k: int|
        0 <= k < segments.len() ==> {
            let segment = #[trigger] segments[k];
            &&& segment.file_size <= segment.memory_size
            &&& segment.virtual_address + segment.memory_size <= u64::MAX
            &&& segment.offset + segment.file_size <= size
        }
}

/// Writing into the first `n` usual segments.
proof fn lemma_write(
    image: Seq<u8>,
    segments: Seq<LoadSegment>,
    address: int,
    data: Seq<u8>,
    n: nat,
)
    requires
        n <= segments.len(),
        are_usual(segments, image.len() as int),
        image.len() <= usize::MAX,
        0 <= address,
        address + data.len() <= u64::MAX,
        taken(segments, address, address + data.len(), segments.len() as int) <= u64::MAX,
    ensures
        ({
            let end = address + data.len();
            let state = writer::write_segments(image, segments, n, address, data);
            &&& state.failure is None
            &&& state.image.len() == image.len()
            &&& state.covered == taken(segments, address, end, n as int)
            &&& state.written == stored(segments, address, end, n as int)
        }),
    decreases n,
{
    if n > 0 {
        lemma_write(image, segments, address, data, (n - 1) as nat);
        lemma_taken_grows(segments, address, address + data.len(), n as int, segments.len() as int);
        let segment = segments[n - 1];
        assert(segment.file_size <= segment.memory_size);
    }
}

/// More segments take no less.
proof fn lemma_taken_grows(segments: Seq<LoadSegment>, address: int, end: int, n: int, m: int)
    requires
        n <= m,
    ensures
        taken(segments, address, end, n) <= taken(segments, address, end, m),
    decreases m - n,
{
    if n < m {
        if m > 0 {
            lemma_taken_grows(segments, address, end, n, m - 1);
        }
    }
}

/// Decoded memory is written exactly when it ends within the image's memory and the memory of the
/// segments takes as many bytes as there are, and the result counts those that the file takes.
pub proof fn law_writes_are_covered(
    image: Seq<u8>,
    layout: LayoutModel,
    load_end: u64,
    address: u64,
    data: Seq<u8>,
)
    requires
        image.len() <= usize::MAX,
        data.len() <= usize::MAX,
        are_usual(layout.program_headers, image.len() as int),
        taken(
            layout.program_headers,
            address as int,
            address + data.len(),
            layout.program_headers.len() as int,
        ) <= u64::MAX,
    ensures
        ({
            let segments = layout.program_headers;
            let end = address + data.len();
            let n = segments.len() as int;
            let result = writer::spec_write(image, layout, load_end, address, data).1;
            &&& result is Ok <==> end <= load_end && taken(segments, address as int, end, n)
                == data.len()
            &&& result matches Ok(written) ==> written == stored(segments, address as int, end, n)
        }),
{
    let segments = layout.program_headers;
    if address + data.len() <= u64::MAX {
        lemma_write(image, segments, address as int, data, segments.len());
        if taken(segments, address as int, address + data.len(), segments.len() as int)
            == data.len() {
            lemma_stored(segments, address as int, address + data.len(), segments.len() as int);
        }
    }
}

/// The file takes no more than the memory.
proof fn lemma_stored(segments: Seq<LoadSegment>, address: int, end: int, n: int)
    requires
        n <= segments.len(),
        forall|k: int|
            0 <= k < segments.len() ==> (#[trigger] segments[k]).file_size
                <= segments[k].memory_size,
    ensures
        0 <= stored(segments, address, end, n) <= taken(segments, address, end, n),
    decreases n,
{
    if n > 0 {
        lemma_stored(segments, address, end, n - 1);
        assert(segments[n - 1].file_size <= segments[n - 1].memory_size);
    }
}

/// A byte of decoded memory stands in the file as far behind the start of its segment as it is
/// behind the segment's address in memory.
pub proof fn law_written_bytes_stand_in_the_file(
    image: Seq<u8>,
    layout: LayoutModel,
    load_end: u64,
    address: u64,
    data: Seq<u8>,
    k: int,
    at: int,
)
    requires
        append_laws::all_apart(layout.program_headers),
        writer::spec_write(image, layout, load_end, address, data).1 is Ok,
        0 <= k < layout.program_headers.len(),
        layout.program_headers[k].file_size <= layout.program_headers[k].memory_size,
        0 <= at < data.len(),
        layout.program_headers[k].virtual_address <= address + at
            < layout.program_headers[k].virtual_address + layout.program_headers[k].file_size,
    ensures
        ({
            let segment = layout.program_headers[k];
            let place = segment.offset + (address + at - segment.virtual_address);
            let after = writer::spec_write(image, layout, load_end, address, data).0;
            &&& 0 <= place < image.len()
            &&& after[place] == data[at]
        }),
{
    let segment = layout.program_headers[k];
    let place = segment.offset + (address + at - segment.virtual_address);
    assert(writer::is_target(segment, address as int, address + data.len(), place));
    writer::law_write_reads_back(image, layout, load_end, address, data, k, place);
}

/// A file byte keeps its value unless it stands behind written memory of a segment.
pub proof fn law_other_bytes_keep_their_value(
    image: Seq<u8>,
    layout: LayoutModel,
    load_end: u64,
    address: u64,
    data: Seq<u8>,
    i: int,
)
    requires
        0 <= i < image.len(),
        forall|k: int|
            0 <= k < layout.program_headers.len() ==> {
                let segment = #[trigger] layout.program_headers[k];
                let memory = segment.virtual_address + (i - segment.offset);
                ||| i < segment.offset
                ||| segment.offset + segment.file_size <= i
                ||| memory < address
                ||| address + data.len() <= memory
            },
    ensures
        writer::spec_write(image, layout, load_end, address, data).0.len() == image.len(),
        writer::spec_write(image, layout, load_end, address, data).0[i] == image[i],
{
    assert forall|k: int| 0 <= k < layout.program_headers.len() implies !writer::is_target(
        #[trigger] layout.program_headers[k],
        address as int,
        address + data.len(),
        i,
    ) by {
        let segment = layout.program_headers[k];
        assert(segment.offset <= i || i < segment.offset);
    }
    writer::law_write_touches_only_its_target(image, layout, load_end, address, data, i);
}

/// What went wrong is told where nothing was written.
pub proof fn law_writes_beyond_the_image_are_refused(
    image: Seq<u8>,
    layout: LayoutModel,
    load_end: u64,
    address: u64,
    data: Seq<u8>,
)
    requires
        address + data.len() > load_end,
    ensures
        writer::spec_write(image, layout, load_end, address, data).0 == image,
        writer::spec_write(image, layout, load_end, address, data).1 matches Err(Error::Invalid(_)),
{
}

} // verus!
