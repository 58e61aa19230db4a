//! Which segments can join an image, where their program headers go, and what of an image is told.

use super::append;
use super::append::{lemma_table_described, NoteScan};
use super::error::Error;
use super::image;
use super::image::{ImageModel, ImageSegment, Refusal};
use super::layout;
use super::layout::{LayoutModel, LoadSegment};
use super::read;
use super::read_laws;
use crate::bytes;
use crate::fold;
use vstd::arithmetic::div_mod::lemma_mod_equivalence;
use vstd::arithmetic::power2::pow2;
use vstd::prelude::*;

verus! {

/// The first of two segments ends within 64 bits and shares neither file bytes nor memory with the
/// second.
pub open spec fn leaves_room_for(existing: LoadSegment, new: LoadSegment) -> bool {
    &&& existing.offset + existing.file_size <= 18446744073709551615
    &&& existing.virtual_address + existing.memory_size <= 18446744073709551615
    &&& existing.offset + existing.file_size <= new.offset || new.offset + new.file_size
        <= existing.offset
    &&& existing.virtual_address + existing.memory_size <= new.virtual_address
        || new.virtual_address + new.memory_size <= existing.virtual_address
}

/// A segment passes the check exactly when every segment leaves room for it.
proof fn lemma_room_in_all(segments: Seq<LoadSegment>, new: LoadSegment, n: nat)
    requires
        n <= segments.len(),
    ensures
        fold::try_fold(n, (), append::overlap_step(segments, new)) is Ok <==> forall|k: int|
            0 <= k < n ==> leaves_room_for(#[trigger] segments[k], new),
    decreases n,
{
    if n > 0 {
        lemma_room_in_all(segments, new, (n - 1) as nat);
        if forall|k: int| 0 <= k < n ==> leaves_room_for(#[trigger] segments[k], new) {
            assert(leaves_room_for(segments[n - 1], new));
        }
    }
}

/// A segment can join an image exactly when program headers have 56 bytes, the segment has file
/// bytes and at least as much memory, lies at the same distance behind a multiple of its alignment
/// in the file and in memory, which is a power of two, ends within the image and within 64 bits,
/// and every segment leaves room for it.
pub proof fn law_segments_that_can_join(layout: LayoutModel, segment: LoadSegment, size: nat)
    requires
        size <= usize::MAX,
    ensures
        layout.spec_check_new_segment(segment, size) is Ok <==> {
            &&& layout.program_header_size == 56
            &&& 0 < segment.file_size <= segment.memory_size
            &&& exists|k: nat| pow2(k) == segment.alignment
            &&& (segment.offset - segment.virtual_address) % (segment.alignment as int) == 0
            &&& segment.virtual_address + segment.memory_size <= 18446744073709551615
            &&& segment.offset + segment.file_size <= size
            &&& forall|k: int|
                0 <= k < layout.program_headers.len() ==> leaves_room_for(
                    #[trigger] layout.program_headers[k],
                    segment,
                )
        },
{
    lemma_room_in_all(layout.program_headers, segment, layout.program_headers.len());
    if exists|k: nat| pow2(k) == segment.alignment {
        let k = choose|k: nat| pow2(k) == segment.alignment;
        read_laws::lemma_power_is_recognised(k);
    }
    if read::is_power_of_two(segment.alignment as nat) {
        read_laws::lemma_recognised_is_power(segment.alignment as nat);
        lemma_mod_equivalence(
            segment.offset as int,
            segment.virtual_address as int,
            segment.alignment as int,
        );
    }
}

/// Section `k` of a layout has bytes in the file below `end`.
pub open spec fn has_bytes_below(layout: LayoutModel, k: int, end: int) -> bool {
    let section = layout.section_headers[k];
    section.section_type != 8 && section.size > 0 && section.offset < end
}

/// The room that a moved table needs is known exactly when a table with one more program header of
/// 56 bytes ends within memory. No room is needed exactly when no section has bytes in the file
/// below that end, and otherwise the room is that of the longer table.
pub proof fn law_room_for_one_more_header(layout: LayoutModel)
    ensures
        ({
            let room = layout.spec_additional_program_header_reservation();
            let longer = (layout.program_header_count + 1) * 56;
            let end = layout.program_header_offset + longer;
            &&& room is Ok <==> layout.program_header_size == 56 && end <= usize::MAX
            &&& room is Ok ==> {
                &&& room->Ok_0 == 0 || room->Ok_0 == longer
                &&& room->Ok_0 == 0 <==> forall|k: int|
                    0 <= k < layout.section_headers.len() ==> !#[trigger] has_bytes_below(
                        layout,
                        k,
                        end,
                    )
            }
        }),
{
    let end = layout.program_header_offset + (layout.program_header_count + 1) * 56;
    if layout.sections_start_after(end) {
        assert forall|k: int| 0 <= k < layout.section_headers.len() implies !#[trigger] has_bytes_below(
            layout,
            k,
            end,
        ) by {
            assert(layout.occupies_file(k) ==> end <= layout.section_headers[k].offset);
        }
    } else {
        let k = choose|k: int|
            0 <= k < layout.section_headers.len() && #[trigger] layout.occupies_file(k) && !(end
                <= layout.section_headers[k].offset);
        assert(has_bytes_below(layout, k, end));
    }
}

/// Program header `i` of the table at `table` can be told to have type `kind`.
pub open spec fn has_type(data: Seq<u8>, table: int, i: int, kind: u32) -> bool {
    table + i * 56 + 4 <= data.len() && bytes::u32_at(data, table + i * 56) == kind
}

/// Looking through the first program headers of a table.
proof fn lemma_types(data: Seq<u8>, table: int, kind: u32, n: nat)
    requires
        0 <= table,
        data.len() <= usize::MAX,
    ensures
        ({
            let run = fold::try_fold(n, false, append::kind_step(data, table, kind));
            let found = exists|i: int| 0 <= i < n && #[trigger] has_type(data, table, i, kind);
            &&& run == Ok::<bool, Error>(true) <==> found
            &&& run is Ok <==> found || n == 0 || table + (n - 1) * 56 + 4 <= data.len()
        }),
    decreases n,
{
    if n > 0 {
        let m = n - 1;
        lemma_types(data, table, kind, m as nat);
        let run = fold::try_fold(n, false, append::kind_step(data, table, kind));
        let before = fold::try_fold(m as nat, false, append::kind_step(data, table, kind));
        if before == Ok::<bool, Error>(true) {
            let i = choose|i: int| 0 <= i < m && #[trigger] has_type(data, table, i, kind);
            assert(has_type(data, table, i, kind));
        } else if has_type(data, table, m, kind) {
            assert(m == 0 || table + (m - 1) * 56 + 4 <= data.len());
        } else {
            assert(forall|i: int|
                0 <= i < n && #[trigger] has_type(data, table, i, kind) ==> i < m);
        }
    }
}

/// A program header of a type is found exactly when one of the table can be told to have it. The
/// search fails exactly when none can and the last one cannot be told.
pub proof fn law_types_are_found(layout: LayoutModel, data: Seq<u8>, kind: u32)
    requires
        data.len() <= usize::MAX,
    ensures
        ({
            let search = layout.spec_has_program_header_type(data, kind);
            let table = layout.program_header_offset as int;
            let count = layout.program_header_count as int;
            let found = exists|i: int| 0 <= i < count && #[trigger] has_type(data, table, i, kind);
            &&& search == Ok::<bool, Error>(true) <==> found
            &&& search is Ok <==> found || count == 0 || table + (count - 1) * 56 + 4 <= data.len()
        }),
{
    lemma_types(
        data,
        layout.program_header_offset as int,
        kind,
        layout.program_header_count as nat,
    );
}

/// Program header `i` of a table is that of a note.
pub open spec fn is_note(data: Seq<u8>, table: int, i: int) -> bool {
    bytes::u32_at(data, table + i * 56) == 4
}

/// How many of the first `n` program headers of a table are those of notes.
pub open spec fn notes_among(data: Seq<u8>, table: int, n: nat) -> nat
    decreases n,
{
    if n == 0 {
        0
    } else {
        notes_among(data, table, (n - 1) as nat) + if is_note(data, table, n - 1) {
            1nat
        } else {
            0nat
        }
    }
}

/// Where the contents of program header `i` of a table start in the file.
pub open spec fn contents_start(data: Seq<u8>, table: int, i: int) -> int {
    bytes::u64_at(data, table + i * 56 + 8) as int
}

/// Where the contents of program header `i` of a table end in the file.
pub open spec fn contents_end(data: Seq<u8>, table: int, i: int) -> int {
    bytes::u64_at(data, table + i * 56 + 8) + bytes::u64_at(data, table + i * 56 + 0x20)
}

/// Program header `i` of a table is that of a note whose contents lie in one of the segments.
pub open spec fn is_loaded_note(
    data: Seq<u8>,
    table: int,
    segments: Seq<LoadSegment>,
    i: int,
) -> bool {
    is_note(data, table, i) && exists|k: int|
        0 <= k < segments.len() && lies_in(
            contents_start(data, table, i),
            contents_end(data, table, i),
            #[trigger] segments[k],
        )
}

/// A range of the file lies in a segment.
pub open spec fn lies_in(start: int, end: int, segment: LoadSegment) -> bool {
    &&& segment.offset <= start
    &&& end <= segment.offset + segment.file_size
    &&& segment.offset + segment.file_size <= 18446744073709551615
}

/// The best note among the first `n` program headers of a table: of those whose contents lie in a
/// segment, the last of those that start furthest into the file.
#[verifier::opaque]
spec fn is_best(
    data: Seq<u8>,
    table: int,
    segments: Seq<LoadSegment>,
    n: int,
    best: Option<(u64, usize)>,
) -> bool {
    match best {
        None => forall|i: int| 0 <= i < n ==> !#[trigger] is_loaded_note(data, table, segments, i),
        Some((start, index)) => {
            &&& index < n
            &&& is_loaded_note(data, table, segments, index as int)
            &&& start == contents_start(data, table, index as int)
            &&& forall|i: int|
                0 <= i < n && #[trigger] is_loaded_note(data, table, segments, i)
                    ==> contents_start(data, table, i) < start || contents_start(data, table, i)
                    == start && i <= index
        },
    }
}

/// The best note among one more program header.
spec fn best_with(
    data: Seq<u8>,
    table: int,
    segments: Seq<LoadSegment>,
    m: int,
    best: Option<(u64, usize)>,
) -> Option<(u64, usize)> {
    let start = bytes::u64_at(data, table + m * 56 + 8);
    if is_loaded_note(data, table, segments, m) && append::not_before(start, best) {
        Some((start, m as usize))
    } else {
        best
    }
}

/// Looking at one more program header.
proof fn lemma_note_step(
    data: Seq<u8>,
    table: int,
    segments: Seq<LoadSegment>,
    scan: NoteScan,
    m: int,
)
    requires
        0 <= table,
        0 <= m,
        table + (m + 1) * 56 <= data.len() <= usize::MAX,
        scan.notes <= m,
    ensures
        ({
            let after = (append::note_step(data, table, segments))(scan, m);
            &&& after is Ok <==> (is_note(data, table, m) ==> contents_end(data, table, m)
                <= 18446744073709551615)
            &&& after matches Ok(next) ==> {
                &&& next.notes == scan.notes + if is_note(data, table, m) {
                    1int
                } else {
                    0int
                }
                &&& next.best == best_with(data, table, segments, m, scan.best)
            }
        }),
{
    reveal_with_fuel(layout::first_unreadable, 3);
    let (start, end) = (contents_start(data, table, m), contents_end(data, table, m));
    if append::covered(segments, start, end) {
        let k = choose|k: int|
            0 <= k < segments.len() && append::covers(#[trigger] segments[k], start, end);
        assert(lies_in(start, end, segments[k]));
    }
    if is_loaded_note(data, table, segments, m) {
        let k = choose|k: int|
            0 <= k < segments.len() && lies_in(start, end, #[trigger] segments[k]);
        assert(append::covers(segments[k], start, end));
    }
}

/// The best note stays the best with one more program header.
proof fn lemma_best_with(
    data: Seq<u8>,
    table: int,
    segments: Seq<LoadSegment>,
    m: int,
    best: Option<(u64, usize)>,
)
    requires
        0 <= m < usize::MAX,
        is_best(data, table, segments, m, best),
    ensures
        is_best(data, table, segments, m + 1, best_with(data, table, segments, m, best)),
{
    reveal(is_best);
}

/// What looking through the first program headers for notes comes to.
proof fn lemma_notes(data: Seq<u8>, table: int, segments: Seq<LoadSegment>, n: nat)
    requires
        0 <= table,
        table + n * 56 <= data.len() <= usize::MAX,
    ensures
        ({
            let run = fold::try_fold(
                n,
                NoteScan { notes: 0, best: None },
                append::note_step(data, table, segments),
            );
            &&& run is Ok <==> forall|i: int|
                0 <= i < n && #[trigger] is_note(data, table, i) ==> contents_end(data, table, i)
                    <= 18446744073709551615
            &&& run matches Ok(scan) ==> {
                &&& scan.notes == notes_among(data, table, n)
                &&& scan.notes <= n
                &&& is_best(data, table, segments, n as int, scan.best)
            }
        }),
    decreases n,
{
    if n == 0 {
        reveal(is_best);
    } else {
        let m = n - 1;
        let step = append::note_step(data, table, segments);
        let init = NoteScan { notes: 0, best: None };
        lemma_notes(data, table, segments, m as nat);
        let before = fold::try_fold(m as nat, init, step);
        let run = fold::try_fold(n, init, step);
        if before is Ok {
            assert(run == step(before->Ok_0, m));
            lemma_note_step(data, table, segments, before->Ok_0, m);
            lemma_best_with(data, table, segments, m, before->Ok_0.best);
        }
    }
}

/// The program header of a note can be given up only where there are two notes and the contents of
/// one lie in a segment. Given up is, of those, the one whose contents start furthest into the file,
/// and the last of these.
pub proof fn law_note_given_up(layout: LayoutModel, data: Seq<u8>, i: int)
    requires
        layout.program_header_offset + layout.program_header_count * 56 <= data.len() <= usize::MAX,
    ensures
        ({
            let table = layout.program_header_offset as int;
            let count = layout.program_header_count as int;
            let segments = layout.program_headers;
            let choice = layout.spec_reusable_note_program_header(data);
            &&& choice is Ok <==> forall|j: int|
                0 <= j < count && #[trigger] is_note(data, table, j) ==> contents_end(
                    data,
                    table,
                    j,
                ) <= 18446744073709551615
            &&& choice matches Ok(given) ==> {
                &&& given is Some <==> notes_among(data, table, count as nat) >= 2 && exists|j: int|
                    0 <= j < count && #[trigger] is_loaded_note(data, table, segments, j)
                &&& given matches Some(index) ==> {
                    &&& index < count
                    &&& is_loaded_note(data, table, segments, index as int)
                    &&& 0 <= i < count && is_loaded_note(data, table, segments, i)
                        ==> contents_start(data, table, i) < contents_start(
                        data,
                        table,
                        index as int,
                    ) || contents_start(data, table, i) == contents_start(
                        data,
                        table,
                        index as int,
                    ) && i <= index
                }
            }
        }),
{
    reveal(is_best);
    lemma_notes(
        data,
        layout.program_header_offset as int,
        layout.program_headers,
        layout.program_header_count as nat,
    );
}

/// The fields of a loadable segment's program header stand where an ELF file has them: the type at
/// 0, the flags at 4, the file offset at 8, both addresses at 16 and 24, both sizes at 32 and 40
/// and the alignment at 48.
pub proof fn law_program_header_fields(segment: LoadSegment)
    ensures
        ({
            let header = append::program_header_bytes(segment);
            &&& header.len() == 56
            &&& bytes::u32_at(header, 0) == 1
            &&& bytes::u32_at(header, 4) == segment.flags
            &&& bytes::u64_at(header, 8) == segment.offset
            &&& bytes::u64_at(header, 16) == segment.virtual_address
            &&& bytes::u64_at(header, 24) == segment.virtual_address
            &&& bytes::u64_at(header, 32) == segment.file_size
            &&& bytes::u64_at(header, 40) == segment.memory_size
            &&& bytes::u64_at(header, 48) == segment.alignment
        }),
{
    broadcast use bytes::group_bytes_len;

    let s = append::program_header_bytes(segment);
    assert(s.subrange(0, 4) =~= bytes::u32_bytes(1));
    assert(s.subrange(4, 8) =~= bytes::u32_bytes(segment.flags));
    assert(s.subrange(8, 16) =~= bytes::u64_bytes(segment.offset));
    assert(s.subrange(16, 24) =~= bytes::u64_bytes(segment.virtual_address));
    assert(s.subrange(24, 32) =~= bytes::u64_bytes(segment.virtual_address));
    assert(s.subrange(32, 40) =~= bytes::u64_bytes(segment.file_size));
    assert(s.subrange(40, 48) =~= bytes::u64_bytes(segment.memory_size));
    assert(s.subrange(48, 56) =~= bytes::u64_bytes(segment.alignment));
    bytes::lemma_u32_spelled(s, 0, 1);
    bytes::lemma_u32_spelled(s, 4, segment.flags);
    bytes::lemma_u64_spelled(s, 8, segment.offset);
    bytes::lemma_u64_spelled(s, 16, segment.virtual_address);
    bytes::lemma_u64_spelled(s, 24, segment.virtual_address);
    bytes::lemma_u64_spelled(s, 32, segment.file_size);
    bytes::lemma_u64_spelled(s, 40, segment.memory_size);
    bytes::lemma_u64_spelled(s, 48, segment.alignment);
}

/// Program header at `p` of `after` describes a table of `size` bytes, at the given file offset and
/// address if the table has moved there, and keeps its other bytes from `before`.
pub open spec fn describes_table(
    before: Seq<u8>,
    after: Seq<u8>,
    p: int,
    moved: Option<(u64, u64)>,
    size: int,
) -> bool {
    &&& bytes::u64_at(after, p + 32) == size
    &&& bytes::u64_at(after, p + 40) == size
    &&& forall|b: int| 0 <= b < 8 || 48 <= b < 56 ==> after[p + b] == #[trigger] before[p + b]
    &&& match moved {
        Some((offset, address)) => {
            &&& bytes::u64_at(after, p + 8) == offset
            &&& bytes::u64_at(after, p + 16) == address
            &&& bytes::u64_at(after, p + 24) == address
        },
        None => forall|b: int| 8 <= b < 32 ==> after[p + b] == #[trigger] before[p + b],
    }
}

/// Bringing one program header of a table up to date.
proof fn lemma_one_described(
    data: Seq<u8>,
    p: int,
    relocated: Option<(u64, u64)>,
    size: u64,
)
    requires
        0 <= p,
        p + 56 <= data.len(),
    ensures
        describes_table(
            data,
            bytes::overwrite(
                data,
                p + append::table_fields_at(relocated),
                append::table_fields(relocated, size),
            ),
            p,
            relocated,
            size as int,
        ),
{
    broadcast use bytes::group_bytes_len;

    let at = p + append::table_fields_at(relocated);
    let fields = append::table_fields(relocated, size);
    let after = bytes::overwrite(data, at, fields);
    assert(after.subrange(p + 32, p + 40) =~= bytes::u64_bytes(size));
    assert(after.subrange(p + 40, p + 48) =~= bytes::u64_bytes(size));
    bytes::lemma_u64_spelled(after, p + 32, size);
    bytes::lemma_u64_spelled(after, p + 40, size);
    if let Some((offset, address)) = relocated {
        assert(after.subrange(p + 8, p + 16) =~= bytes::u64_bytes(offset));
        assert(after.subrange(p + 16, p + 24) =~= bytes::u64_bytes(address));
        assert(after.subrange(p + 24, p + 32) =~= bytes::u64_bytes(address));
        bytes::lemma_u64_spelled(after, p + 8, offset);
        bytes::lemma_u64_spelled(after, p + 16, address);
        bytes::lemma_u64_spelled(after, p + 24, address);
    }
}

/// Bringing a table up to date changes exactly the program headers of type 6, of which each then
/// describes the table.
pub proof fn law_tables_describe_themselves(
    data: Seq<u8>,
    table: int,
    count: nat,
    relocated: Option<(u64, u64)>,
    size: u64,
    i: int,
    b: int,
)
    requires
        0 <= table,
        table + count * 56 <= data.len(),
        0 <= i < count,
        0 <= b < 56,
    ensures
        ({
            let after = append::table_described(data, table, count, relocated, size);
            let p = table + i * 56;
            if bytes::u32_at(data, p) == 6 {
                describes_table(data, after, p, relocated, size as int)
            } else {
                after[p + b] == data[p + b]
            }
        }),
    decreases count,
{
    broadcast use bytes::group_bytes_len;

    let last = (count - 1) as nat;
    let before = append::table_described(data, table, last, relocated, size);
    let after = append::table_described(data, table, count, relocated, size);
    let p = table + i * 56;
    lemma_table_described(data, table, last, relocated, size);
    if i < last {
        law_tables_describe_themselves(data, table, last, relocated, size, i, b);
        assert forall|c: int| 0 <= c < 56 implies after[p + c] == #[trigger] before[p + c] by {
        }
        assert(forall|c: int| p <= c < p + 56 ==> after[c] == #[trigger] before[c]);
    } else {
        assert(forall|c: int| p <= c < p + 56 ==> before[c] == #[trigger] data[c]);
        lemma_one_described(before, p, relocated, size);
        if bytes::u32_at(data, p) == 6 {
            assert forall|c: int| 0 <= c < 8 || 48 <= c < 56 implies after[p + c] == #[trigger] data[p
                + c] by {
                assert(after[p + c] == before[p + c]);
            }
            if relocated is None {
                assert forall|c: int| 8 <= c < 32 implies after[p + c] == #[trigger] data[p + c] by {
                    assert(after[p + c] == before[p + c]);
                }
            }
        }
    }
}

/// A segment is added exactly when it can join, the table can have one more program header, the
/// room set aside is the room needed, and there is a place for the program header: behind the
/// table where no room is needed, else at a note that is given up, else behind a table that moves
/// to the segment's start, which takes a program header that describes the table.
pub proof fn law_segments_are_added(
    layout: LayoutModel,
    image: Seq<u8>,
    segment: LoadSegment,
    reserved: usize,
)
    requires
        image.len() <= usize::MAX,
    ensures
        ({
            let appended = layout.spec_append_load_segment(image, segment, reserved).layout;
            let table = layout.program_header_offset as int;
            let count = layout.program_header_count as int;
            let note = layout.spec_reusable_note_program_header(image);
            let own = layout.spec_has_program_header_type(image, 6);
            &&& appended is Ok <==> {
                &&& layout.spec_check_new_segment(segment, image.len()) is Ok
                &&& count < 65535
                &&& layout.spec_additional_program_header_reservation() == Ok::<usize, Error>(
                    reserved,
                )
                &&& reserved == 0 ==> table + (count + 1) * 56 <= image.len() && image.len() >= 58
                &&& reserved != 0 ==> {
                    &&& note is Ok
                    &&& note->Ok_0 is Some ==> table + (note->Ok_0->Some_0 + 1) * 56 <= image.len()
                    &&& note->Ok_0 is None ==> {
                        &&& own == Ok::<bool, Error>(true)
                        &&& (count + 1) * 56 <= segment.file_size
                        &&& table + count * 56 <= image.len()
                    }
                }
            }
            &&& appended is Ok ==> {
                let updated = appended->Ok_0;
                let over_note = reserved != 0 && note->Ok_0 is Some;
                let moves = reserved != 0 && note->Ok_0 is None;
                &&& updated.program_header_count == if over_note {
                    count
                } else {
                    count + 1
                }
                &&& updated.program_header_offset == if moves {
                    segment.offset as int
                } else {
                    table
                }
                &&& updated.program_headers == layout.program_headers.push(segment)
                &&& updated.section_headers == layout.section_headers
                &&& updated.program_header_size == layout.program_header_size
            }
        }),
{
    law_room_for_one_more_header(layout);
    append::lemma_note_index(layout, image);
}

/// An image is accepted exactly when it parses, has 64-bit words and is little-endian, and is then
/// what was parsed. A parser's message is passed on.
pub proof fn law_images_accepted(parsed: core::result::Result<ImageModel, Seq<char>>)
    ensures
        image::spec_accept(parsed) is Ok <==> parsed is Ok && parsed->Ok_0.class == 2
            && parsed->Ok_0.encoding == 1,
        image::spec_accept(parsed) is Ok ==> image::spec_accept(parsed)->Ok_0 == parsed->Ok_0,
        parsed is Err ==> image::spec_accept(parsed) == Err::<ImageModel, Refusal>(
            Refusal::Parser(parsed->Err_0),
        ),
        parsed is Ok && image::spec_accept(parsed) is Err ==> image::spec_accept(parsed)->Err_0
            == Refusal::NotElf64,
        image::is_aarch64_image(image::spec_accept(parsed)) <==> image::spec_accept(parsed) is Ok
            && parsed->Ok_0.machine == 183,
{
}

/// A prefix announces an AArch64 image exactly when it has 20 bytes, of which the first six are
/// those of a 64-bit little-endian ELF file and the last two give machine 183.
pub proof fn law_prefixes_announce_images(data: Seq<u8>)
    ensures
        image::spec_is_aarch64_prefix(data) <==> data.len() >= 20 && data.subrange(0, 6) == seq![
            0x7fu8,
            0x45,
            0x4c,
            0x46,
            2,
            1,
        ] && data[18] + 256 * data[19] == 183,
{
    if data.len() >= 20 {
        let s = data.subrange(0, 6);
        assert(s[0] == data[0] && s[1] == data[1] && s[2] == data[2] && s[3] == data[3] && s[4]
            == data[4] && s[5] == data[5]);
        if image::spec_is_aarch64_prefix(data) {
            assert(s =~= seq![0x7fu8, 0x45, 0x4c, 0x46, 2, 1]);
        }
    }
}

/// Where the file bytes of program header `i` end, if it is loadable and 64 bits can say, and as
/// far as they can otherwise.
pub open spec fn ends_at(segments: Seq<ImageSegment>, i: int, end: int) -> bool {
    &&& segments[i].segment_type == 1
    &&& end == segments[i].offset + segments[i].file_size || end == 18446744073709551615
        < segments[i].offset + segments[i].file_size
}

/// No loadable segment ends in the file behind the load end, which is the end of one of them unless
/// it is zero.
pub proof fn law_load_end(segments: Seq<ImageSegment>, i: int)
    ensures
        ({
            let end = image::spec_load_end(segments) as int;
            &&& 0 <= i < segments.len() && segments[i].segment_type == 1 ==> segments[i].offset
                + segments[i].file_size <= end || end == 18446744073709551615
            &&& end != 0 ==> exists|k: int|
                0 <= k < segments.len() && #[trigger] ends_at(segments, k, end)
        }),
{
    let f = image::segment_end(segments);
    fold::lemma_largest(segments.len(), f);
    if segments.len() > 0 {
        let k = choose|k: int|
            0 <= k < segments.len() && #[trigger] f(k) == fold::largest(segments.len(), f);
        assert(0 <= f(k) <= u64::MAX);
        if image::spec_load_end(segments) != 0 {
            assert(ends_at(segments, k, image::spec_load_end(segments) as int));
        }
        if 0 <= i < segments.len() {
            assert(f(i) <= fold::largest(segments.len(), f));
        }
    }
}

} // verus!
