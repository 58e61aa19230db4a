//! What adding a segment preserves, and what reading the result gives back.

use super::append;
use super::append::{lemma_note_index, lemma_table_described};
use super::error::Error;
use super::layout;
use super::layout::{LayoutModel, LoadSegment, PT_LOAD, PT_NOTE, PT_PHDR};
use crate::bytes;
use crate::fold;
use vstd::prelude::*;

verus! {

/// Two program headers have the same type and, when they are loadable, the same bytes.
pub open spec fn same_entry(a: Seq<u8>, p: int, b: Seq<u8>, q: int) -> bool {
    &&& bytes::u32_at(a, p) == bytes::u32_at(b, q)
    &&& bytes::u32_at(a, p) == PT_LOAD ==> a.subrange(p, p + 0x38) == b.subrange(q, q + 0x38)
}

/// The loadable segments in a table of `count` program headers at `table`.
pub open spec fn segments_of(image: Seq<u8>, table: int, count: nat) -> super::Result<
    Seq<LoadSegment>,
> {
    fold::try_fold(count, Seq::<LoadSegment>::empty(), layout::load_step(image, table))
}

/// The loadable program headers in a table of `count` at `table`, wherever their segments lie. A
/// program header that leaves the image is none.
pub open spec fn loads(image: Seq<u8>, table: int, count: nat) -> Seq<LoadSegment>
    decreases count,
{
    if count == 0 {
        Seq::empty()
    } else {
        let before = loads(image, table, (count - 1) as nat);
        let at = table + (count - 1) * 0x38;
        if at + 0x38 <= image.len() && bytes::u32_at(image, at) == PT_LOAD {
            before.push(layout::segment_at(image, at))
        } else {
            before
        }
    }
}

/// A program header that lies within the image can be read.
proof fn lemma_segment_readable(data: Seq<u8>, at: int)
    requires
        0 <= at,
        at + 0x38 <= data.len() <= usize::MAX,
    ensures
        layout::first_unreadable(data, at, layout::segment_fields()) is None,
{
    reveal_with_fuel(layout::first_unreadable, 7);
}

/// The fields of a program header are those of its bytes.
proof fn lemma_segment_of_bytes(data: Seq<u8>, at: int)
    requires
        0 <= at,
        at + 0x38 <= data.len(),
    ensures
        layout::segment_at(data, at) == layout::segment_at(data.subrange(at, at + 0x38), 0),
{
}

/// The same program header bytes give the same segment.
proof fn lemma_same_segment(a: Seq<u8>, p: int, b: Seq<u8>, q: int, index: int)
    requires
        0 <= p,
        0 <= q,
        p + 0x38 <= a.len(),
        q + 0x38 <= b.len(),
        a.len() == b.len() <= usize::MAX,
        a.subrange(p, p + 0x38) == b.subrange(q, q + 0x38),
    ensures
        layout::spec_segment(a, p, index) == layout::spec_segment(b, q, index),
        layout::first_unreadable(a, p, layout::segment_fields()) is None,
{
    lemma_segment_readable(a, p);
    lemma_segment_readable(b, q);
    lemma_segment_of_bytes(a, p);
    lemma_segment_of_bytes(b, q);
}

/// A program header that leaves the image cannot be read.
proof fn lemma_segment_unreadable(data: Seq<u8>, at: int, index: int)
    requires
        0 <= at,
        at + 0x38 > data.len(),
    ensures
        layout::spec_segment(data, at, index) is Err,
{
    reveal_with_fuel(layout::first_unreadable, 7);
}

/// Program headers copied byte for byte match.
proof fn lemma_copied_entries(a: Seq<u8>, p: int, b: Seq<u8>, q: int, count: nat)
    requires
        0 <= p,
        0 <= q,
        p + count * 0x38 <= a.len(),
        q + count * 0x38 <= b.len(),
        a.subrange(p, p + count * 0x38) == b.subrange(q, q + count * 0x38),
    ensures
        forall|i: int|
            0 <= i < count ==> #[trigger] same_entry(a, p + i * 0x38, b, q + i * 0x38),
{
    assert forall|i: int| 0 <= i < count implies #[trigger] same_entry(
        a,
        p + i * 0x38,
        b,
        q + i * 0x38,
    ) by {
        let m = i * 0x38;
        let entries = a.subrange(p, p + count * 0x38);
        assert(a.subrange(p + m, p + m + 0x38) =~= entries.subrange(m, m + 0x38));
        assert(b.subrange(q + m, q + m + 0x38) =~= entries.subrange(m, m + 0x38));
        assert(bytes::u32_at(a, p + m) == bytes::u32_at(entries.subrange(m, m + 0x38), 0));
        assert(bytes::u32_at(b, q + m) == bytes::u32_at(entries.subrange(m, m + 0x38), 0));
    }
}

/// Tables with matching program headers give the same segments.
proof fn lemma_same_segments(a: Seq<u8>, p: int, b: Seq<u8>, q: int, count: nat)
    requires
        0 <= p,
        0 <= q,
        p + count * 0x38 <= a.len(),
        q + count * 0x38 <= b.len(),
        a.len() == b.len() <= usize::MAX,
        forall|i: int|
            0 <= i < count ==> #[trigger] same_entry(a, p + i * 0x38, b, q + i * 0x38),
    ensures
        segments_of(a, p, count) == segments_of(b, q, count),
    decreases count,
{
    if count > 0 {
        let i = count - 1;
        lemma_same_segments(a, p, b, q, i as nat);
        assert(same_entry(a, p + i * 0x38, b, q + i * 0x38));
        if bytes::u32_at(a, p + i * 0x38) == PT_LOAD {
            lemma_same_segment(a, p + i * 0x38, b, q + i * 0x38, i);
        }
    }
}

/// Tables with matching program headers hold the same loadable ones.
proof fn lemma_same_loads(a: Seq<u8>, p: int, b: Seq<u8>, q: int, count: nat)
    requires
        0 <= p,
        0 <= q,
        p + count * 0x38 <= a.len(),
        q + count * 0x38 <= b.len(),
        forall|i: int|
            0 <= i < count ==> #[trigger] same_entry(a, p + i * 0x38, b, q + i * 0x38),
    ensures
        loads(a, p, count) == loads(b, q, count),
    decreases count,
{
    if count > 0 {
        let i = count - 1;
        lemma_same_loads(a, p, b, q, i as nat);
        assert(same_entry(a, p + i * 0x38, b, q + i * 0x38));
        lemma_segment_of_bytes(a, p + i * 0x38);
        lemma_segment_of_bytes(b, q + i * 0x38);
    }
}

/// Reading a table gives its loadable program headers.
proof fn lemma_segments_are_loads(image: Seq<u8>, table: int, count: nat)
    requires
        0 <= table,
    ensures
        segments_of(image, table, count) matches Ok(found) ==> found == loads(image, table, count),
    decreases count,
{
    if count > 0 {
        let at = table + (count - 1) * 0x38;
        lemma_segments_are_loads(image, table, (count - 1) as nat);
        if at + 0x38 > image.len() {
            lemma_segment_unreadable(image, at, count - 1);
        }
    }
}

/// Updating the table's own program headers changes no other program header.
proof fn lemma_described_entries(
    data: Seq<u8>,
    table: int,
    count: nat,
    relocated: Option<(u64, u64)>,
    size: u64,
)
    requires
        0 <= table,
        table + count * 0x38 <= data.len(),
    ensures
        forall|i: int|
            0 <= i < count ==> #[trigger] same_entry(
                data,
                table + i * 0x38,
                append::table_described(data, table, count, relocated, size),
                table + i * 0x38,
            ),
    decreases count,
{
    broadcast use bytes::group_bytes_len;

    if count > 0 {
        let last = count - 1;
        let before = append::table_described(data, table, last as nat, relocated, size);
        let after = append::table_described(data, table, count, relocated, size);
        lemma_described_entries(data, table, last as nat, relocated, size);
        lemma_table_described(data, table, last as nat, relocated, size);
        lemma_table_described(data, table, count, relocated, size);
        let at = table + last * 0x38;
        assert forall|i: int| 0 <= i < count implies #[trigger] same_entry(
            data,
            table + i * 0x38,
            after,
            table + i * 0x38,
        ) by {
            let p = table + i * 0x38;
            if i < last {
                assert(same_entry(data, p, before, p));
                assert(after.subrange(p, p + 0x38) =~= before.subrange(p, p + 0x38));
                assert(forall|k: int| p <= k < p + 0x38 ==> after[k] == before[k]);
            } else {
                assert(before.subrange(p, p + 0x38) =~= data.subrange(p, p + 0x38));
                assert(forall|k: int| p <= k < p + 4 ==> after[k] == before[k]);
                assert(forall|k: int| p <= k < p + 4 ==> before[k] == data[k]);
                if bytes::u32_at(before, p) != PT_PHDR {
                    assert(after == before);
                }
            }
        }
    }
}

/// The parts of a segment's program header.
proof fn lemma_header_parts(segment: LoadSegment)
    ensures
        ({
            let s = append::program_header_bytes(segment);
            &&& s.len() == 0x38
            &&& s.subrange(0, 4) == bytes::u32_bytes(PT_LOAD)
            &&& s.subrange(4, 8) == bytes::u32_bytes(segment.flags)
            &&& s.subrange(8, 0x10) == bytes::u64_bytes(segment.offset)
            &&& s.subrange(0x10, 0x18) == bytes::u64_bytes(segment.virtual_address)
            &&& s.subrange(0x20, 0x28) == bytes::u64_bytes(segment.file_size)
            &&& s.subrange(0x28, 0x30) == bytes::u64_bytes(segment.memory_size)
            &&& s.subrange(0x30, 0x38) == bytes::u64_bytes(segment.alignment)
        }),
{
    broadcast use bytes::group_bytes_len;

    let s = append::program_header_bytes(segment);
    assert(s.subrange(0, 4) =~= bytes::u32_bytes(PT_LOAD));
    assert(s.subrange(4, 8) =~= bytes::u32_bytes(segment.flags));
    assert(s.subrange(8, 0x10) =~= bytes::u64_bytes(segment.offset));
    assert(s.subrange(0x10, 0x18) =~= bytes::u64_bytes(segment.virtual_address));
    assert(s.subrange(0x20, 0x28) =~= bytes::u64_bytes(segment.file_size));
    assert(s.subrange(0x28, 0x30) =~= bytes::u64_bytes(segment.memory_size));
    assert(s.subrange(0x30, 0x38) =~= bytes::u64_bytes(segment.alignment));
}

/// Where the program header of a segment stands, that segment is read.
proof fn lemma_header_reads(image: Seq<u8>, at: int, segment: LoadSegment)
    requires
        0 <= at,
        at + 0x38 <= image.len(),
        image.subrange(at, at + 0x38) == append::program_header_bytes(segment),
    ensures
        bytes::u32_at(image, at) == PT_LOAD,
        layout::segment_at(image, at) == segment,
{
    let s = append::program_header_bytes(segment);
    lemma_header_parts(segment);
    assert(image.subrange(at, at + 4) =~= s.subrange(0, 4));
    assert(image.subrange(at + 4, at + 8) =~= s.subrange(4, 8));
    assert(image.subrange(at + 8, at + 0x10) =~= s.subrange(8, 0x10));
    assert(image.subrange(at + 0x10, at + 0x18) =~= s.subrange(0x10, 0x18));
    assert(image.subrange(at + 0x20, at + 0x28) =~= s.subrange(0x20, 0x28));
    assert(image.subrange(at + 0x28, at + 0x30) =~= s.subrange(0x28, 0x30));
    assert(image.subrange(at + 0x30, at + 0x38) =~= s.subrange(0x30, 0x38));
    bytes::lemma_u32_spelled(image, at, PT_LOAD);
    bytes::lemma_u32_spelled(image, at + 4, segment.flags);
    bytes::lemma_u64_spelled(image, at + 8, segment.offset);
    bytes::lemma_u64_spelled(image, at + 0x10, segment.virtual_address);
    bytes::lemma_u64_spelled(image, at + 0x20, segment.file_size);
    bytes::lemma_u64_spelled(image, at + 0x28, segment.memory_size);
    bytes::lemma_u64_spelled(image, at + 0x30, segment.alignment);
}

/// A table that ends in the program header of a segment gives that segment last.
proof fn lemma_last_segment(image: Seq<u8>, table: int, count: nat, segment: LoadSegment)
    requires
        0 <= table,
        table + (count + 1) * 0x38 <= image.len() <= usize::MAX,
        image.subrange(table + count * 0x38, table + (count + 1) * 0x38)
            == append::program_header_bytes(segment),
        segment.offset + segment.file_size <= image.len(),
    ensures
        segments_of(image, table, count) matches Ok(before) ==> segments_of(
            image,
            table,
            count + 1,
        ) == Ok::<Seq<LoadSegment>, Error>(before.push(segment)),
        loads(image, table, count + 1) == loads(image, table, count).push(segment),
{
    let at = table + count * 0x38;
    lemma_header_reads(image, at, segment);
    lemma_same_segment(image, at, image, at, count as int);
}

/// Overwriting a program header with that of a segment adds the segment, wherever it stands.
proof fn lemma_replaced_segment(
    a: Seq<u8>,
    b: Seq<u8>,
    table: int,
    index: int,
    count: nat,
    segment: LoadSegment,
)
    requires
        0 <= table,
        0 <= index,
        a.len() == b.len() <= usize::MAX,
        table + (index + 1) * 0x38 <= b.len(),
        b == bytes::overwrite(a, table + index * 0x38, append::program_header_bytes(segment)),
        bytes::u32_at(a, table + index * 0x38) == PT_NOTE,
        segment.offset + segment.file_size <= b.len(),
    ensures
        segments_of(a, table, count) matches Ok(before) ==> segments_of(
            b,
            table,
            count,
        ) matches Ok(after) && after.to_multiset() == if index < count {
            before.to_multiset().insert(segment)
        } else {
            before.to_multiset()
        },
        loads(b, table, count).to_multiset() == if index < count {
            loads(a, table, count).to_multiset().insert(segment)
        } else {
            loads(a, table, count).to_multiset()
        },
    decreases count,
{
    broadcast use vstd::seq_lib::group_to_multiset_ensures;

    lemma_header_parts(segment);
    if count > 0 {
        let i = count - 1;
        let at = table + i * 0x38;
        lemma_replaced_segment(a, b, table, index, i as nat, segment);
        if i == index {
            assert(b.subrange(at, at + 0x38) =~= append::program_header_bytes(segment));
            lemma_header_reads(b, at, segment);
            lemma_same_segment(b, at, b, at, i);
        } else {
            assert(at + 4 <= a.len() ==> bytes::u32_at(a, at) == bytes::u32_at(b, at));
            if at + 0x38 <= a.len() {
                assert(a.subrange(at, at + 0x38) =~= b.subrange(at, at + 0x38));
                lemma_same_segment(a, at, b, at, i);
                lemma_segment_of_bytes(a, at);
                lemma_segment_of_bytes(b, at);
            } else {
                lemma_segment_unreadable(a, at, i);
            }
        }
    }
}

/// Adding a segment, whatever comes of it, never changes the size of the image.
pub proof fn law_append_keeps_size(
    layout: LayoutModel,
    image: Seq<u8>,
    segment: LoadSegment,
    reserved: usize,
)
    ensures
        layout.spec_append_load_segment(image, segment, reserved).image.len() == image.len(),
{
    broadcast use bytes::group_bytes_len;

    let table = layout.program_header_offset as int;
    let count = layout.program_header_count as nat;
    lemma_header_parts(segment);
    let header = append::program_header_bytes(segment);
    let with_header = bytes::overwrite(image, table + count * 0x38, header);
    if table + count * 0x38 <= image.len() {
        lemma_table_described(with_header, table, count, None, ((count + 1) * 0x38) as u64);
    }
    if layout.spec_check_new_segment(segment, image.len()) is Ok && segment.file_size >= (count + 1)
        * 0x38 {
        let moved = bytes::overwrite(
            image,
            segment.offset as int,
            image.subrange(table, table + count * 0x38) + header,
        );
        lemma_table_described(
            bytes::overwrite(moved, 0x20, bytes::u64_bytes(segment.offset)),
            segment.offset as int,
            count,
            Some((segment.offset, segment.virtual_address)),
            ((count + 1) * 0x38) as u64,
        );
    }
}

/// Adding a segment changes nothing but the updated program header table and the two fields of
/// the file header that say where it is and how many entries it has.
pub proof fn law_append_touches_only_the_table(
    layout: LayoutModel,
    image: Seq<u8>,
    segment: LoadSegment,
    reserved: usize,
    i: int,
)
    requires
        0 <= i < image.len() <= usize::MAX,
        !(0x20 <= i < 0x28),
        !(0x38 <= i < 0x3a),
        layout.spec_append_load_segment(image, segment, reserved).layout matches Ok(updated) && !(
        updated.program_header_offset <= i < updated.program_header_offset
            + updated.program_header_count * 0x38),
    ensures
        layout.spec_append_load_segment(image, segment, reserved).image[i] == image[i],
{
    broadcast use bytes::group_bytes_len;

    let table = layout.program_header_offset as int;
    let count = layout.program_header_count as nat;
    let header = append::program_header_bytes(segment);
    let size = ((count + 1) * 0x38) as u64;
    lemma_header_parts(segment);
    lemma_note_index(layout, image);
    let reservation = layout.spec_additional_program_header_reservation()->Ok_0;
    if reservation == 0 {
        let with_header = bytes::overwrite(image, table + count * 0x38, header);
        lemma_table_described(with_header, table, count, None, size);
        assert(with_header[i] == image[i]);
    } else if layout.spec_reusable_note_program_header(image)->Ok_0 is None {
        let moved = bytes::overwrite(
            image,
            segment.offset as int,
            image.subrange(table, table + count * 0x38) + header,
        );
        let located = bytes::overwrite(moved, 0x20, bytes::u64_bytes(segment.offset));
        lemma_table_described(
            located,
            segment.offset as int,
            count,
            Some((segment.offset, segment.virtual_address)),
            size,
        );
        assert(moved[i] == image[i]);
        assert(located[i] == image[i]);
    }
}

/// Reading the updated table after an addition in place.
proof fn lemma_in_place_reads_back(layout: LayoutModel, image: Seq<u8>, segment: LoadSegment)
    requires
        image.len() <= usize::MAX,
        layout.program_header_count < u16::MAX,
        segment.offset + segment.file_size <= image.len(),
        layout.appended_in_place(image, segment).layout is Ok,
        0x3a <= layout.program_header_offset || layout.program_header_offset + (
        layout.program_header_count + 1) * 0x38 <= 0x38,
    ensures
        ({
            let image_after = layout.appended_in_place(image, segment).image;
            let table = layout.program_header_offset as int;
            let count = layout.program_header_count as nat;
            &&& segments_of(image, table, count) matches Ok(held) ==> segments_of(
                image_after,
                table,
                count + 1,
            ) == Ok::<Seq<LoadSegment>, Error>(held.push(segment))
            &&& loads(image_after, table, count + 1) == loads(image, table, count).push(segment)
            &&& bytes::u16_at(image_after, 0x38) == layout.program_header_count + 1
            &&& 0x3a <= layout.program_header_offset ==> bytes::u64_at(image_after, 0x20)
                == bytes::u64_at(image, 0x20)
        }),
{
    broadcast use bytes::group_bytes_len;

    let table = layout.program_header_offset as int;
    let count = layout.program_header_count as nat;
    let at = table + count * 0x38;
    let header = append::program_header_bytes(segment);
    let size = ((count + 1) * 0x38) as u64;
    lemma_header_parts(segment);
    let with_header = bytes::overwrite(image, at, header);
    let described = append::table_described(with_header, table, count, None, size);
    let done = layout.appended_in_place(image, segment).image;
    lemma_table_described(with_header, table, count, None, size);
    lemma_described_entries(with_header, table, count, None, size);
    assert(image.subrange(table, at) =~= with_header.subrange(table, at));
    assert(described.subrange(table, at) =~= done.subrange(table, at));
    lemma_copied_entries(image, table, with_header, table, count);
    lemma_copied_entries(described, table, done, table, count);
    assert forall|i: int| 0 <= i < count implies #[trigger] same_entry(
        image,
        table + i * 0x38,
        done,
        table + i * 0x38,
    ) by {
        let p = table + i * 0x38;
        assert(same_entry(image, p, with_header, p));
        assert(same_entry(with_header, p, described, p));
        assert(same_entry(described, p, done, p));
    }
    lemma_same_segments(image, table, done, table, count);
    lemma_same_loads(image, table, done, table, count);
    assert(done.subrange(at, at + 0x38) =~= header);
    lemma_last_segment(done, table, count, segment);
    assert(done.subrange(0x38, 0x3a) =~= bytes::u16_bytes((count + 1) as u16));
    bytes::lemma_u16_spelled(done, 0x38, (count + 1) as u16);
}

/// A search that finds a program header has at least one to look at.
proof fn lemma_found_in_some(layout: LayoutModel, image: Seq<u8>)
    ensures
        layout.spec_has_program_header_type(image, PT_PHDR) == Ok::<bool, Error>(true)
            ==> layout.program_header_count > 0,
{
}

/// A table written to `new_table` together with the program header of a segment.
proof fn lemma_moved_entries(
    image: Seq<u8>,
    table: int,
    count: nat,
    new_table: int,
    segment: LoadSegment,
    located: Seq<u8>,
)
    requires
        0 <= table,
        table + count * 0x38 <= image.len(),
        0x3a <= new_table,
        new_table + (count + 1) * 0x38 <= image.len(),
        located == bytes::overwrite(
            bytes::overwrite(
                image,
                new_table,
                image.subrange(table, table + count * 0x38) + append::program_header_bytes(segment),
            ),
            0x20,
            bytes::u64_bytes(segment.offset),
        ),
    ensures
        located.len() == image.len(),
        located.subrange(new_table, new_table + count * 0x38) == image.subrange(
            table,
            table + count * 0x38,
        ),
        located.subrange(new_table + count * 0x38, new_table + (count + 1) * 0x38)
            == append::program_header_bytes(segment),
        located.subrange(0x20, 0x28) == bytes::u64_bytes(segment.offset),
{
    broadcast use bytes::group_bytes_len;

    lemma_header_parts(segment);
    let entries = image.subrange(table, table + count * 0x38);
    let header = append::program_header_bytes(segment);
    assert(located.subrange(new_table, new_table + count * 0x38) =~= entries);
    assert(located.subrange(new_table + count * 0x38, new_table + (count + 1) * 0x38) =~= header);
    assert(located.subrange(0x20, 0x28) =~= bytes::u64_bytes(segment.offset));
}

/// Counting one more entry in the file header after the table's own headers were updated.
proof fn lemma_counted_entries(
    located: Seq<u8>,
    new_table: int,
    count: nat,
    relocated: Option<(u64, u64)>,
    size: u64,
    done: Seq<u8>,
)
    requires
        0x3a <= new_table,
        new_table + (count + 1) * 0x38 <= located.len(),
        count < u16::MAX,
        done == bytes::overwrite(
            append::table_described(located, new_table, count, relocated, size),
            0x38,
            bytes::u16_bytes((count + 1) as u16),
        ),
    ensures
        done.len() == located.len(),
        forall|i: int|
            0 <= i < count ==> #[trigger] same_entry(
                located,
                new_table + i * 0x38,
                done,
                new_table + i * 0x38,
            ),
        done.subrange(new_table + count * 0x38, new_table + (count + 1) * 0x38)
            == located.subrange(new_table + count * 0x38, new_table + (count + 1) * 0x38),
        done.subrange(0x20, 0x28) == located.subrange(0x20, 0x28),
        bytes::u16_at(done, 0x38) == count + 1,
{
    broadcast use bytes::group_bytes_len;

    let end = new_table + count * 0x38;
    let described = append::table_described(located, new_table, count, relocated, size);
    lemma_table_described(located, new_table, count, relocated, size);
    lemma_described_entries(located, new_table, count, relocated, size);
    assert(described.subrange(new_table, end) =~= done.subrange(new_table, end));
    lemma_copied_entries(described, new_table, done, new_table, count);
    assert forall|i: int| 0 <= i < count implies #[trigger] same_entry(
        located,
        new_table + i * 0x38,
        done,
        new_table + i * 0x38,
    ) by {
        let q = new_table + i * 0x38;
        assert(same_entry(located, q, described, q));
        assert(same_entry(described, q, done, q));
    }
    assert(done.subrange(end, end + 0x38) =~= located.subrange(end, end + 0x38));
    assert(done.subrange(0x20, 0x28) =~= located.subrange(0x20, 0x28));
    assert(done.subrange(0x38, 0x3a) =~= bytes::u16_bytes((count + 1) as u16));
    bytes::lemma_u16_spelled(done, 0x38, (count + 1) as u16);
}

/// Reading the updated table after the table has moved.
proof fn lemma_relocated_reads_back(layout: LayoutModel, image: Seq<u8>, segment: LoadSegment)
    requires
        image.len() <= usize::MAX,
        layout.program_header_count < u16::MAX,
        segment.offset + segment.file_size <= image.len(),
        layout.appended_relocated(image, segment).layout is Ok,
        0x3a <= segment.offset,
    ensures
        ({
            let image_after = layout.appended_relocated(image, segment).image;
            let table = layout.program_header_offset as int;
            let count = layout.program_header_count as nat;
            &&& segments_of(image, table, count) matches Ok(held) ==> segments_of(
                image_after,
                segment.offset as int,
                count + 1,
            ) == Ok::<Seq<LoadSegment>, Error>(held.push(segment))
            &&& loads(image_after, segment.offset as int, count + 1) == loads(
                image,
                table,
                count,
            ).push(segment)
            &&& bytes::u16_at(image_after, 0x38) == layout.program_header_count + 1
            &&& bytes::u64_at(image_after, 0x20) == segment.offset
        }),
{
    let table = layout.program_header_offset as int;
    let count = layout.program_header_count as nat;
    let new_table = segment.offset as int;
    let size = ((count + 1) * 0x38) as u64;
    let relocated = Some((segment.offset, segment.virtual_address));
    let located = bytes::overwrite(
        bytes::overwrite(
            image,
            new_table,
            image.subrange(table, table + count * 0x38) + append::program_header_bytes(segment),
        ),
        0x20,
        bytes::u64_bytes(segment.offset),
    );
    let done = layout.appended_relocated(image, segment).image;
    lemma_moved_entries(image, table, count, new_table, segment, located);
    lemma_counted_entries(located, new_table, count, relocated, size, done);
    lemma_copied_entries(image, table, located, new_table, count);
    assert forall|i: int| 0 <= i < count implies #[trigger] same_entry(
        image,
        table + i * 0x38,
        done,
        new_table + i * 0x38,
    ) by {
        let q = new_table + i * 0x38;
        assert(same_entry(image, table + i * 0x38, located, q));
        assert(same_entry(located, q, done, q));
    }
    lemma_same_segments(image, table, done, new_table, count);
    lemma_same_loads(image, table, done, new_table, count);
    lemma_last_segment(done, new_table, count, segment);
    bytes::lemma_u64_spelled(done, 0x20, segment.offset);
}

/// The loadable program headers in the table of an image after a segment was added are those of
/// the updated layout, the new one among them, as long as the table does not run into the field of
/// the file header that counts its entries. They come in the layout's own order unless the segment
/// took over the program header of a note. The file header says where the table is and how long.
/// Where the table could be read before, it can be read, and gives them.
pub proof fn law_append_reads_back(
    layout: LayoutModel,
    image: Seq<u8>,
    segment: LoadSegment,
    reserved: usize,
)
    requires
        image.len() <= usize::MAX,
        loads(image, layout.program_header_offset as int, layout.program_header_count as nat)
            == layout.program_headers,
        layout.spec_append_load_segment(image, segment, reserved).layout matches Ok(updated) && (
        updated.program_header_count == layout.program_header_count || 0x3a
            <= updated.program_header_offset || updated.program_header_offset
            + updated.program_header_count * 0x38 <= 0x38),
    ensures
        ({
            let appended = layout.spec_append_load_segment(image, segment, reserved);
            let updated = appended.layout->Ok_0;
            let table = updated.program_header_offset as int;
            let count = updated.program_header_count as nat;
            let found = loads(appended.image, table, count);
            &&& found.to_multiset() == updated.program_headers.to_multiset()
            &&& updated.program_header_count != layout.program_header_count ==> {
                &&& found == updated.program_headers
                &&& bytes::u16_at(appended.image, 0x38) == updated.program_header_count
            }
            &&& updated.program_header_offset != layout.program_header_offset ==> bytes::u64_at(
                appended.image,
                0x20,
            ) == updated.program_header_offset
            &&& segments_of(
                image,
                layout.program_header_offset as int,
                layout.program_header_count as nat,
            ) is Ok ==> segments_of(appended.image, table, count) == Ok::<Seq<LoadSegment>, Error>(
                found,
            )
        }),
{
    broadcast use vstd::seq_lib::group_to_multiset_ensures;

    let done = layout.spec_append_load_segment(image, segment, reserved);
    let updated = done.layout->Ok_0;
    lemma_segments_are_loads(
        done.image,
        updated.program_header_offset as int,
        updated.program_header_count as nat,
    );
    let reservation = layout.spec_additional_program_header_reservation()->Ok_0;
    if reservation == 0 {
        lemma_in_place_reads_back(layout, image, segment);
    } else {
        match layout.spec_reusable_note_program_header(image) {
            Err(_) => {},
            Ok(Some(index)) => {
                lemma_note_index(layout, image);
                lemma_replaced_segment(
                    image,
                    layout.spec_append_load_segment(image, segment, reserved).image,
                    layout.program_header_offset as int,
                    index as int,
                    layout.program_header_count as nat,
                    segment,
                );
            },
            Ok(None) => {
                lemma_found_in_some(layout, image);
                lemma_relocated_reads_back(layout, image, segment);
            },
        }
    }
}

/// The file header of `image` says where the layout's program header table is and how long, and
/// the loadable program headers in the table are those of the layout, in some order.
pub open spec fn describes(image: Seq<u8>, layout: LayoutModel) -> bool {
    &&& loads(
        image,
        layout.program_header_offset as int,
        layout.program_header_count as nat,
    ).to_multiset() == layout.program_headers.to_multiset()
    &&& bytes::u64_at(image, 0x20) == layout.program_header_offset
    &&& bytes::u16_at(image, 0x38) == layout.program_header_count
}

/// An image that describes its layout still does after a segment was added, as long as neither the
/// table nor the segment lies in the file header. Segments can be added one after the other.
pub proof fn law_append_keeps_image_and_layout_in_step(
    layout: LayoutModel,
    image: Seq<u8>,
    segment: LoadSegment,
    reserved: usize,
)
    requires
        image.len() <= usize::MAX,
        0x40 <= layout.program_header_offset,
        0x40 <= segment.offset,
        describes(image, layout),
        layout.spec_append_load_segment(image, segment, reserved).layout is Ok,
    ensures
        ({
            let appended = layout.spec_append_load_segment(image, segment, reserved);
            &&& describes(appended.image, appended.layout->Ok_0)
            &&& 0x40 <= appended.layout->Ok_0.program_header_offset
        }),
{
    broadcast use vstd::seq_lib::group_to_multiset_ensures;

    let reservation = layout.spec_additional_program_header_reservation()->Ok_0;
    if reservation == 0 {
        lemma_in_place_reads_back(layout, image, segment);
    } else {
        match layout.spec_reusable_note_program_header(image) {
            Err(_) => {},
            Ok(Some(index)) => {
                let done = layout.spec_append_load_segment(image, segment, reserved).image;
                lemma_note_index(layout, image);
                lemma_replaced_segment(
                    image,
                    done,
                    layout.program_header_offset as int,
                    index as int,
                    layout.program_header_count as nat,
                    segment,
                );
                assert(bytes::u64_at(done, 0x20) == bytes::u64_at(image, 0x20));
                assert(bytes::u16_at(done, 0x38) == bytes::u16_at(image, 0x38));
            },
            Ok(None) => {
                lemma_found_in_some(layout, image);
                lemma_relocated_reads_back(layout, image, segment);
            },
        }
    }
}

/// Two segments share no file bytes and no memory.
pub open spec fn apart(a: LoadSegment, b: LoadSegment) -> bool {
    &&& a.offset + a.file_size <= b.offset || b.offset + b.file_size <= a.offset
    &&& a.virtual_address + a.memory_size <= b.virtual_address || b.virtual_address + b.memory_size
        <= a.virtual_address
}

/// Every two of the segments are apart.
pub open spec fn all_apart(segments: Seq<LoadSegment>) -> bool {
    forall|i: int, j: int|
        0 <= i < j < segments.len() ==> apart(#[trigger] segments[i], #[trigger] segments[j])
}

/// A segment that passes the check is apart from the segments it was checked against.
proof fn lemma_checked_apart(segments: Seq<LoadSegment>, new: LoadSegment, n: nat)
    requires
        n <= segments.len(),
        fold::try_fold(n, (), append::overlap_step(segments, new)) is Ok,
    ensures
        forall|k: int| 0 <= k < n ==> apart(#[trigger] segments[k], new),
    decreases n,
{
    if n > 0 {
        lemma_checked_apart(segments, new, (n - 1) as nat);
    }
}

/// Adding a segment keeps segments from overlapping, in the file and in memory.
pub proof fn law_append_keeps_segments_apart(
    layout: LayoutModel,
    image: Seq<u8>,
    segment: LoadSegment,
    reserved: usize,
)
    requires
        all_apart(layout.program_headers),
        layout.spec_append_load_segment(image, segment, reserved).layout is Ok,
    ensures
        all_apart(
            layout.spec_append_load_segment(image, segment, reserved).layout->Ok_0.program_headers,
        ),
{
    lemma_checked_apart(layout.program_headers, segment, layout.program_headers.len());
}

} // verus!
