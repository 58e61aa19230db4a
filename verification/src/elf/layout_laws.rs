//! What holds of every layout that was read from a file.

use super::error::Error;
use super::layout;
use super::layout::{LayoutModel, LoadSegment, SectionHeader, SHT_LOUSER};
use super::read;
use crate::bytes;
use crate::fold;
use vstd::prelude::*;

verus! {

/// One section is read for each header that was visited.
proof fn lemma_sections_counted(data: Seq<u8>, table: int, n: nat)
    ensures
        fold::try_fold(
            n,
            Seq::<SectionHeader>::empty(),
            layout::section_step(data, table),
        ) matches Ok(sections) ==> sections.len() == n,
    decreases n,
{
    if n > 0 {
        lemma_sections_counted(data, table, (n - 1) as nat);
    }
}

/// Segments that were read lie within the file.
proof fn lemma_segments_within(data: Seq<u8>, table: int, n: nat)
    ensures
        fold::try_fold(
            n,
            Seq::<LoadSegment>::empty(),
            layout::load_step(data, table),
        ) matches Ok(segments) ==> forall|i: int|
            0 <= i < segments.len() ==> (#[trigger] segments[i]).offset + segments[i].file_size
                <= data.len(),
    decreases n,
{
    if n > 0 {
        lemma_segments_within(data, table, (n - 1) as nat);
    }
}

/// Every section of a layout that was read has a name in the file's own string table.
pub proof fn law_section_names_resolve(data: Seq<u8>, require_private: bool)
    requires
        LayoutModel::spec_parse(data, require_private) is Ok,
    ensures
        ({
            let parsed = LayoutModel::spec_parse(data, require_private)->Ok_0;
            parsed.spec_section_names(data) matches Ok(names) && names.len()
                == parsed.section_headers.len()
        }),
{
    layout::lemma_one_name_each(LayoutModel::spec_parse(data, require_private)->Ok_0, data);
}

/// The private section of a layout is the only section of its type. Where one is required, there
/// is one; where none is, a layout without one has no private section.
pub proof fn law_private_section_is_unique(data: Seq<u8>, require_private: bool, i: int)
    requires
        LayoutModel::spec_parse(data, require_private) is Ok,
        0 <= i < LayoutModel::spec_parse(data, require_private)->Ok_0.section_headers.len(),
    ensures
        ({
            let parsed = LayoutModel::spec_parse(data, require_private)->Ok_0;
            &&& parsed.section_headers[i].section_type == SHT_LOUSER <==> i
                == parsed.private_section_index
            &&& parsed.spec_private_section() is Ok <==> parsed.private_section_index
                < parsed.section_headers.len()
            &&& require_private ==> parsed.spec_private_section() is Ok
            &&& parsed.spec_private_section() matches Ok(private) ==> private.section_type
                == SHT_LOUSER
        }),
{
    let parsed = LayoutModel::spec_parse(data, require_private)->Ok_0;
    let header = layout::spec_file_header(data)->Ok_0;
    lemma_sections_counted(
        data,
        header.section_header_offset as int,
        header.section_header_count as nat,
    );
    let sections = parsed.section_headers;
    let keep = layout::is_private(sections);
    fold::lemma_matching(sections.len(), keep);
    let found = fold::matching(sections.len(), keep);
    if found.len() == 1 {
        assert(keep(found[0]));
    }
    if sections[i].section_type == SHT_LOUSER {
        assert(keep(i));
        assert(found.contains(i));
    }
}

/// Every segment of a layout that was read lies within the file.
pub proof fn law_segments_lie_within_the_file(data: Seq<u8>, require_private: bool, i: int)
    requires
        LayoutModel::spec_parse(data, require_private) is Ok,
        0 <= i < LayoutModel::spec_parse(data, require_private)->Ok_0.program_headers.len(),
    ensures
        ({
            let segment = LayoutModel::spec_parse(data, require_private)->Ok_0.program_headers[i];
            segment.offset + segment.file_size <= data.len()
        }),
{
    let header = layout::spec_file_header(data)->Ok_0;
    lemma_segments_within(
        data,
        header.program_header_offset as int,
        header.program_header_count as nat,
    );
}

/// Where program header `k` stands.
pub open spec fn program_place(data: Seq<u8>, k: int) -> int {
    bytes::u64_at(data, 0x20) + k * 56
}

/// Where section header `k` stands.
pub open spec fn section_place(data: Seq<u8>, k: int) -> int {
    bytes::u64_at(data, 0x28) + k * 64
}

/// Program header `k` describes a loadable segment.
pub open spec fn is_loadable(data: Seq<u8>, k: int) -> bool {
    bytes::u32_at(data, program_place(data, k)) == 1
}

/// Program header `k` can be used: its type can be read, and if it is loadable, all of it can, and
/// its file range lies within the file.
pub open spec fn is_sound_program(data: Seq<u8>, k: int) -> bool {
    let at = program_place(data, k);
    &&& at + 4 <= data.len()
    &&& is_loadable(data, k) ==> {
        &&& at + 56 <= data.len()
        &&& bytes::u64_at(data, at + 8) + bytes::u64_at(data, at + 32) <= data.len()
    }
}

/// How many of the first `k` program headers are loadable.
pub open spec fn loadable_before(data: Seq<u8>, k: int) -> int
    decreases k,
{
    if k <= 0 {
        0
    } else {
        loadable_before(data, k - 1) + if is_loadable(data, k - 1) {
            1int
        } else {
            0
        }
    }
}

/// The program header at `at` describes `segment`.
pub open spec fn is_segment(data: Seq<u8>, at: int, segment: LoadSegment) -> bool {
    &&& segment.flags == bytes::u32_at(data, at + 4)
    &&& segment.offset == bytes::u64_at(data, at + 8)
    &&& segment.virtual_address == bytes::u64_at(data, at + 16)
    &&& segment.file_size == bytes::u64_at(data, at + 32)
    &&& segment.memory_size == bytes::u64_at(data, at + 40)
    &&& segment.alignment == bytes::u64_at(data, at + 48)
}

/// The section header at `at` describes `section`.
pub open spec fn is_section(data: Seq<u8>, at: int, section: SectionHeader) -> bool {
    &&& section.name == bytes::u32_at(data, at)
    &&& section.section_type == bytes::u32_at(data, at + 4)
    &&& section.flags == bytes::u64_at(data, at + 8)
    &&& section.address == bytes::u64_at(data, at + 16)
    &&& section.offset == bytes::u64_at(data, at + 24)
    &&& section.size == bytes::u64_at(data, at + 32)
    &&& section.link == bytes::u32_at(data, at + 40)
    &&& section.info == bytes::u32_at(data, at + 44)
    &&& section.alignment == bytes::u64_at(data, at + 48)
    &&& section.entry_size == bytes::u64_at(data, at + 56)
}

/// Section header `k` describes a private section.
pub open spec fn is_private_at(data: Seq<u8>, k: int) -> bool {
    bytes::u32_at(data, section_place(data, k) + 4) == 0x8000_0000
}

/// The bytes `from..to` of the file are a text that a zero byte ends.
pub open spec fn is_text(data: Seq<u8>, from: int, to: int) -> bool {
    &&& from <= to < data.len()
    &&& data[to] == 0
    &&& forall|i: int| from <= i < to ==> data[i] != 0
}

/// Where the names of sections start in the file.
pub open spec fn names_place(data: Seq<u8>) -> int {
    bytes::u64_at(data, section_place(data, bytes::u16_at(data, 0x3e) as int) + 24) as int
}

/// How many bytes the names of sections take.
pub open spec fn names_size(data: Seq<u8>) -> int {
    bytes::u64_at(data, section_place(data, bytes::u16_at(data, 0x3e) as int) + 32) as int
}

/// Where the name of section `k` starts in the file.
pub open spec fn name_place(data: Seq<u8>, k: int) -> int {
    names_place(data) + bytes::u32_at(data, section_place(data, k))
}

/// The name of section `k` lies in the table of names and is UTF-8.
pub open spec fn is_sound_name(data: Seq<u8>, k: int) -> bool {
    &&& bytes::u32_at(data, section_place(data, k)) < names_size(data)
    &&& forall|to: int| #[trigger]
        is_text(data, name_place(data, k), to) ==> vstd::utf8::valid_utf8(
            data.subrange(name_place(data, k), to),
        )
}

/// The names of sections stand in a string table that starts and ends with a zero byte, and the
/// first section has the empty name at its start.
pub open spec fn has_sound_names(data: Seq<u8>) -> bool {
    let table = section_place(data, bytes::u16_at(data, 0x3e) as int);
    &&& bytes::u32_at(data, table + 4) == 3
    &&& names_place(data) + names_size(data) <= data.len()
    &&& names_size(data) > 0
    &&& data[names_place(data)] == 0
    &&& data[names_place(data) + names_size(data) - 1] == 0
    &&& bytes::u32_at(data, section_place(data, 0)) == 0
    &&& forall|k: int| 0 <= k < bytes::u16_at(data, 0x3c) ==> #[trigger] is_sound_name(data, k)
}

/// The file starts as a little-endian 64-bit image for AArch64 does, with tables whose entries
/// have the usual sizes.
pub open spec fn has_sound_header(data: Seq<u8>) -> bool {
    &&& data.len() >= 64
    &&& data[0] == 0x7f && data[1] == 0x45 && data[2] == 0x4c && data[3] == 0x46
    &&& data[4] == 2
    &&& data[5] == 1
    &&& bytes::u16_at(data, 0x12) == 183
    &&& bytes::u16_at(data, 0x36) == 56
    &&& bytes::u16_at(data, 0x3a) == 64
}

/// The file has usable program headers and section headers.
pub open spec fn has_sound_tables(data: Seq<u8>) -> bool {
    &&& forall|k: int| 0 <= k < bytes::u16_at(data, 0x38) ==> #[trigger] is_sound_program(data, k)
    &&& exists|k: int| 0 <= k < bytes::u16_at(data, 0x38) && #[trigger] is_loadable(data, k)
    &&& section_place(data, bytes::u16_at(data, 0x3c) as int) <= data.len()
    &&& bytes::u16_at(data, 0x3e) < bytes::u16_at(data, 0x3c)
}

/// The file has at most one private section, and has one where it is required.
pub open spec fn has_private_as_required(data: Seq<u8>, require_private: bool) -> bool {
    &&& forall|i: int, j: int|
        0 <= i < j < bytes::u16_at(data, 0x3c) && #[trigger] is_private_at(data, i)
            ==> !#[trigger] is_private_at(data, j)
    &&& require_private ==> exists|k: int|
        0 <= k < bytes::u16_at(data, 0x3c) && #[trigger] is_private_at(data, k)
}

/// What one program header gives.
proof fn lemma_program(data: Seq<u8>, k: int, before: Seq<LoadSegment>)
    requires
        data.len() <= usize::MAX,
        0 <= k,
    ensures
        ({
            let table = bytes::u64_at(data, 0x20) as int;
            let after = (layout::load_step(data, table))(before, k);
            &&& after is Ok <==> is_sound_program(data, k)
            &&& after matches Ok(segments) ==> if is_loadable(data, k) {
                &&& segments.len() == before.len() + 1
                &&& segments == before.push(segments.last())
                &&& is_segment(data, program_place(data, k), segments.last())
            } else {
                segments == before
            }
        }),
{
    let at = program_place(data, k);
    if at + 56 <= data.len() {
        assert(layout::first_unreadable(data, at, layout::segment_fields()) is None) by {
            reveal_with_fuel(layout::first_unreadable, 7);
        }
        assert(is_segment(data, at, layout::segment_at(data, at)));
    } else {
        assert(layout::first_unreadable(data, at, layout::segment_fields()) is Some) by {
            reveal_with_fuel(layout::first_unreadable, 7);
        }
    }
}

/// Which program headers can be read, and what they give.
proof fn lemma_programs(data: Seq<u8>, n: nat)
    requires
        data.len() <= usize::MAX,
    ensures
        ({
            let read = fold::try_fold(
                n,
                Seq::<LoadSegment>::empty(),
                layout::load_step(data, bytes::u64_at(data, 0x20) as int),
            );
            &&& read is Ok <==> forall|k: int| 0 <= k < n ==> #[trigger] is_sound_program(data, k)
            &&& read matches Ok(segments) ==> {
                &&& segments.len() == loadable_before(data, n as int)
                &&& forall|k: int|
                    0 <= k < n && #[trigger] is_loadable(data, k) ==> {
                        &&& 0 <= loadable_before(data, k) < segments.len()
                        &&& is_segment(
                            data,
                            program_place(data, k),
                            segments[loadable_before(data, k)],
                        )
                    }
            }
        }),
    decreases n,
{
    if n > 0 {
        let k = n - 1;
        lemma_programs(data, k as nat);
        let step = layout::load_step(data, bytes::u64_at(data, 0x20) as int);
        let none = Seq::<LoadSegment>::empty();
        let before = fold::try_fold(k as nat, none, step);
        let read = fold::try_fold(n, none, step);
        if before is Ok {
            lemma_program(data, k, before->Ok_0);
            assert(read == step(before->Ok_0, k));
        }
        if read is Ok {
            let (a, b) = (before->Ok_0, read->Ok_0);
            assert forall|m: int| 0 <= m < n && #[trigger] is_loadable(data, m) implies {
                &&& 0 <= loadable_before(data, m) < b.len()
                &&& is_segment(data, program_place(data, m), b[loadable_before(data, m)])
            } by {
                if m < k {
                    assert(b[loadable_before(data, m)] == a[loadable_before(data, m)]);
                }
            }
        }
    }
}

/// Which section headers can be read, and what they give.
proof fn lemma_sections(data: Seq<u8>, n: nat)
    requires
        data.len() <= usize::MAX,
    ensures
        ({
            let read = fold::try_fold(
                n,
                Seq::<SectionHeader>::empty(),
                layout::section_step(data, bytes::u64_at(data, 0x28) as int),
            );
            &&& read is Ok <==> n == 0 || section_place(data, n as int) <= data.len()
            &&& read matches Ok(sections) ==> {
                &&& sections.len() == n
                &&& forall|k: int|
                    0 <= k < n ==> is_section(data, section_place(data, k), #[trigger] sections[k])
            }
        }),
    decreases n,
{
    if n > 0 {
        let k = n - 1;
        lemma_sections(data, k as nat);
        let at = section_place(data, k);
        if at + 64 <= data.len() {
            layout::lemma_section_readable(data, at);
        } else if SectionHeader::spec_parse(data, at) is Ok {
            layout::law_section_header_encodes_its_bytes(data, at);
        }
    }
}

/// Where a text ends.
proof fn lemma_text_end(data: Seq<u8>, start: int, size: int, from: int)
    requires
        0 <= start,
        0 <= from < size,
        start + size <= data.len(),
        data[start + size - 1] == 0,
    ensures
        ({
            let strings = data.subrange(start, start + size);
            let to = start + layout::nul_position(strings, from);
            &&& is_text(data, start + from, to)
            &&& layout::c_string(strings, from) == data.subrange(start + from, to)
            &&& forall|other: int| #[trigger] is_text(data, start + from, other) ==> other == to
        }),
{
    let strings = data.subrange(start, start + size);
    layout::lemma_nul_position(strings, from);
    let end = layout::nul_position(strings, from);
    if end == strings.len() {
        assert(strings[size - 1] != 0);
    }
    assert forall|i: int| start + from <= i < start + end implies data[i] != 0 by {
        assert(strings[i - start] != 0);
    }
    assert(data[start + end] == strings[end]);
    assert(layout::c_string(strings, from) =~= data.subrange(start + from, start + end));
    assert forall|other: int| #[trigger] is_text(data, start + from, other) implies other == start
        + end by {
        if other < start + end {
            assert(data[other] != 0);
        }
        if start + end < other {
            assert(data[start + end] != 0);
        }
    }
}

/// Which names can be resolved, and what they are.
proof fn lemma_names(data: Seq<u8>, sections: Seq<SectionHeader>, n: nat)
    requires
        n <= sections.len(),
        forall|k: int|
            0 <= k < sections.len() ==> is_section(
                data,
                section_place(data, k),
                #[trigger] sections[k],
            ),
        names_size(data) > 0,
        names_place(data) + names_size(data) <= data.len(),
        data[names_place(data) + names_size(data) - 1] == 0,
    ensures
        ({
            let strings = data.subrange(names_place(data), names_place(data) + names_size(data));
            let read = fold::try_fold(
                n,
                Seq::<Seq<char>>::empty(),
                layout::name_step(strings, sections),
            );
            &&& read is Ok <==> (forall|k: int| 0 <= k < n ==> #[trigger] is_sound_name(data, k))
                && (n > 0 ==> bytes::u32_at(data, section_place(data, 0)) == 0)
            &&& read matches Ok(names) ==> {
                &&& names.len() == n
                &&& forall|k: int, to: int|
                    #![trigger names[k], is_text(data, name_place(data, k), to)]
                    0 <= k < n && is_text(data, name_place(data, k), to) ==> names[k]
                        == vstd::utf8::decode_utf8(data.subrange(name_place(data, k), to))
            }
        }),
    decreases n,
{
    if n > 0 {
        let k = n - 1;
        lemma_names(data, sections, k as nat);
        let strings = data.subrange(names_place(data), names_place(data) + names_size(data));
        let step = layout::name_step(strings, sections);
        let none = Seq::<Seq<char>>::empty();
        let before = fold::try_fold(k as nat, none, step);
        let read = fold::try_fold(n, none, step);
        assert(is_section(data, section_place(data, k), sections[k]));
        let from = sections[k].name as int;
        if from < names_size(data) {
            lemma_text_end(data, names_place(data), names_size(data), from);
            let to = names_place(data) + layout::nul_position(strings, from);
            assert(is_text(data, name_place(data, k), to));
            assert(is_sound_name(data, k) == vstd::utf8::valid_utf8(
                layout::c_string(strings, from),
            ));
        } else {
            assert(!is_sound_name(data, k));
        }
        if before is Ok {
            if is_sound_name(data, k) && (k == 0 ==> from == 0) {
                assert(read is Ok);
            } else {
                assert(read is Err);
            }
        }
        if read is Ok {
            let (a, b) = (before->Ok_0, read->Ok_0);
            assert forall|m: int, to: int|
                #![trigger b[m], is_text(data, name_place(data, m), to)]
                0 <= m < n && is_text(data, name_place(data, m), to) implies b[m]
                == vstd::utf8::decode_utf8(data.subrange(name_place(data, m), to)) by {
                if m < k {
                    assert(b[m] == a[m]);
                }
            }
        }
    }
}

/// When the private section is as required.
proof fn lemma_private(data: Seq<u8>, sections: Seq<SectionHeader>, require_private: bool)
    requires
        sections.len() == bytes::u16_at(data, 0x3c),
        forall|k: int|
            0 <= k < sections.len() ==> is_section(
                data,
                section_place(data, k),
                #[trigger] sections[k],
            ),
    ensures
        layout::spec_private_index(sections, require_private) is Ok <==> has_private_as_required(
            data,
            require_private,
        ),
        layout::spec_private_index(sections, require_private) matches Ok(index) ==> {
            &&& index == usize::MAX || is_private_at(data, index as int) && index < sections.len()
            &&& (exists|k: int| 0 <= k < sections.len() && #[trigger] is_private_at(data, k)) ==> index
                < sections.len()
        },
{
    let keep = layout::is_private(sections);
    let found = fold::matching(sections.len(), keep);
    assert forall|k: int| 0 <= k < sections.len() implies #[trigger] keep(k) == is_private_at(
        data,
        k,
    ) by {
        assert(is_section(data, section_place(data, k), sections[k]));
    }
    fold::lemma_none_match(sections.len(), keep);
    if found.len() == 1 {
        fold::lemma_match_is_single(sections.len(), keep);
        let s = found[0];
        assert forall|i: int, j: int|
            0 <= i < j < sections.len() && #[trigger] is_private_at(data, i) implies !(
        #[trigger] is_private_at(data, j)) by {
            assert(keep(i) && (i != s ==> !keep(i)) && (j != s ==> !keep(j)));
        }
        assert(is_private_at(data, s));
    } else if found.len() == 0 {
        assert forall|k: int| 0 <= k < sections.len() implies !#[trigger] is_private_at(data, k) by {
            assert(!keep(k));
        }
    } else if has_private_as_required(data, require_private) {
        let s = found[0];
        fold::lemma_matching(sections.len(), keep);
        assert(keep(s));
        assert forall|k: int| 0 <= k < sections.len() && k != s implies !#[trigger] keep(k) by {
            assert(is_private_at(data, s));
            assert(is_private_at(data, k) == keep(k));
        }
        fold::lemma_single_match(sections.len(), keep, s);
    }
}

/// Where the header of a file that is accepted ends.
proof fn lemma_header(data: Seq<u8>)
    requires
        data.len() <= usize::MAX,
    ensures
        layout::spec_file_header(data) matches Ok(header) && header.program_header_size == 56
            && header.section_header_size == 64 ==> has_sound_header(data),
        has_sound_header(data) && bytes::u64_at(data, 0x20) <= usize::MAX && bytes::u64_at(
            data,
            0x28,
        ) <= usize::MAX ==> layout::spec_file_header(data) is Ok,
        layout::spec_file_header(data) matches Ok(header) ==> {
            &&& header.entrypoint == bytes::u64_at(data, 0x18)
            &&& header.program_header_offset == bytes::u64_at(data, 0x20)
            &&& header.section_header_offset == bytes::u64_at(data, 0x28)
            &&& header.program_header_size == bytes::u16_at(data, 0x36)
            &&& header.program_header_count == bytes::u16_at(data, 0x38)
            &&& header.section_header_size == bytes::u16_at(data, 0x3a)
            &&& header.section_header_count == bytes::u16_at(data, 0x3c)
            &&& header.section_name_index == bytes::u16_at(data, 0x3e)
        },
{
    reveal_with_fuel(layout::first_unreadable, 6);
}

/// What the names of a file's sections come to.
proof fn lemma_resolved(data: Seq<u8>, parsed: LayoutModel)
    requires
        data.len() <= usize::MAX,
        parsed.section_headers.len() == bytes::u16_at(data, 0x3c),
        parsed.section_name_index == bytes::u16_at(data, 0x3e),
        parsed.section_name_index < parsed.section_headers.len(),
        forall|k: int|
            0 <= k < parsed.section_headers.len() ==> is_section(
                data,
                section_place(data, k),
                #[trigger] parsed.section_headers[k],
            ),
    ensures
        parsed.spec_section_names(data) is Ok <==> has_sound_names(data),
        parsed.spec_section_names(data) matches Ok(names) ==> {
            &&& names.len() == parsed.section_headers.len()
            &&& forall|k: int, to: int|
                #![trigger names[k], is_text(data, name_place(data, k), to)]
                0 <= k < names.len() && is_text(data, name_place(data, k), to) ==> names[k]
                    == vstd::utf8::decode_utf8(data.subrange(name_place(data, k), to))
        },
{
    let index = parsed.section_name_index as int;
    let table = parsed.section_headers[index];
    assert(is_section(data, section_place(data, index), table));
    let (start, size) = (names_place(data), names_size(data));
    if start + size <= data.len() {
        assert(read::spec_slice_u64(data, table.offset, table.size) == Ok::<Seq<u8>, Error>(
            data.subrange(start, start + size),
        ));
        let strings = data.subrange(start, start + size);
        if size > 0 {
            assert(strings[0] == data[start]);
            assert(strings.last() == data[start + size - 1]);
            if strings.last() == 0 {
                lemma_names(data, parsed.section_headers, parsed.section_headers.len());
            }
        }
    } else {
        assert(read::spec_slice_u64(data, table.offset, table.size) is Err);
    }
}

/// A file is accepted exactly when its header, its tables and the names of its sections are sound
/// and its private section is as required.
pub proof fn law_sound_files_are_accepted(data: Seq<u8>, require_private: bool)
    requires
        data.len() <= usize::MAX,
    ensures
        LayoutModel::spec_parse(data, require_private) is Ok <==> {
            &&& has_sound_header(data)
            &&& has_sound_tables(data)
            &&& has_private_as_required(data, require_private)
            &&& has_sound_names(data)
        },
{
    lemma_header(data);
    let programs = bytes::u16_at(data, 0x38) as nat;
    let count = bytes::u16_at(data, 0x3c) as nat;
    lemma_programs(data, programs);
    lemma_sections(data, count);
    lemma_any_loadable(data, programs as int);
    if has_sound_tables(data) {
        let k = choose|k: int| 0 <= k < programs && #[trigger] is_loadable(data, k);
        assert(is_sound_program(data, k));
        assert(bytes::u64_at(data, 0x20) <= program_place(data, k));
        assert(bytes::u64_at(data, 0x28) <= section_place(data, count as int));
    }
    if layout::spec_file_header(data) is Ok {
        let header = layout::spec_file_header(data)->Ok_0;
        let segments = fold::try_fold(
            programs,
            Seq::<LoadSegment>::empty(),
            layout::load_step(data, bytes::u64_at(data, 0x20) as int),
        );
        let read = fold::try_fold(
            count,
            Seq::<SectionHeader>::empty(),
            layout::section_step(data, bytes::u64_at(data, 0x28) as int),
        );
        if read is Ok && segments is Ok && header.section_name_index < count {
            let sections = read->Ok_0;
            lemma_private(data, sections, require_private);
            if let Ok(private_section_index) = layout::spec_private_index(
                sections,
                require_private,
            ) {
                let parsed = LayoutModel {
                    entrypoint: header.entrypoint,
                    program_header_offset: header.program_header_offset,
                    program_header_size: 0x38,
                    program_header_count: header.program_header_count as usize,
                    program_headers: segments->Ok_0,
                    section_headers: sections,
                    section_name_index: header.section_name_index as usize,
                    private_section_index,
                };
                lemma_resolved(data, parsed);
            }
        }
    }
}

/// Counting finds a loadable program header exactly when there is one.
proof fn lemma_any_loadable(data: Seq<u8>, n: int)
    ensures
        loadable_before(data, n) >= 0,
        loadable_before(data, n) > 0 <==> exists|k: int|
            0 <= k < n && #[trigger] is_loadable(data, k),
    decreases n,
{
    if n > 0 {
        lemma_any_loadable(data, n - 1);
        if loadable_before(data, n) > 0 && !is_loadable(data, n - 1) {
            let k = choose|k: int| 0 <= k < n - 1 && #[trigger] is_loadable(data, k);
            assert(is_loadable(data, k));
        }
    }
}

/// The layout of a file is what its bytes say: the fields of the header, one section for each
/// section header, and one segment for each loadable program header, in order.
pub proof fn law_layout_is_what_the_file_says(data: Seq<u8>, require_private: bool, k: int)
    requires
        data.len() <= usize::MAX,
        LayoutModel::spec_parse(data, require_private) is Ok,
    ensures
        ({
            let parsed = LayoutModel::spec_parse(data, require_private)->Ok_0;
            &&& parsed.entrypoint == bytes::u64_at(data, 0x18)
            &&& parsed.program_header_offset == bytes::u64_at(data, 0x20)
            &&& parsed.program_header_size == 56
            &&& parsed.program_header_count == bytes::u16_at(data, 0x38)
            &&& parsed.section_headers.len() == bytes::u16_at(data, 0x3c)
            &&& parsed.section_name_index == bytes::u16_at(data, 0x3e)
            &&& parsed.program_headers.len() == loadable_before(
                data,
                bytes::u16_at(data, 0x38) as int,
            )
            &&& 0 <= k < bytes::u16_at(data, 0x3c) ==> is_section(
                data,
                section_place(data, k),
                parsed.section_headers[k],
            )
            &&& 0 <= k < bytes::u16_at(data, 0x3c) ==> (parsed.private_section_index == k
                <==> is_private_at(data, k))
            &&& 0 <= k < bytes::u16_at(data, 0x38) && is_loadable(data, k) ==> is_segment(
                data,
                program_place(data, k),
                parsed.program_headers[loadable_before(data, k)],
            )
        }),
{
    lemma_header(data);
    let programs = bytes::u16_at(data, 0x38) as nat;
    let count = bytes::u16_at(data, 0x3c) as nat;
    lemma_programs(data, programs);
    lemma_sections(data, count);
    let parsed = LayoutModel::spec_parse(data, require_private)->Ok_0;
    if 0 <= k < count {
        law_private_section_is_unique(data, require_private, k);
        assert(is_section(data, section_place(data, k), parsed.section_headers[k]));
    }
}

/// The name of a section is the text that its header points to.
pub proof fn law_names_are_what_the_file_says(
    data: Seq<u8>,
    require_private: bool,
    k: int,
    to: int,
)
    requires
        data.len() <= usize::MAX,
        LayoutModel::spec_parse(data, require_private) is Ok,
        0 <= k < bytes::u16_at(data, 0x3c),
        is_text(data, name_place(data, k), to),
    ensures
        ({
            let parsed = LayoutModel::spec_parse(data, require_private)->Ok_0;
            &&& parsed.spec_section_names(data) matches Ok(names)
            &&& names.len() == bytes::u16_at(data, 0x3c)
            &&& names[k] == vstd::utf8::decode_utf8(data.subrange(name_place(data, k), to))
        }),
{
    let parsed = LayoutModel::spec_parse(data, require_private)->Ok_0;
    lemma_header(data);
    lemma_sections(data, bytes::u16_at(data, 0x3c) as nat);
    lemma_resolved(data, parsed);
}

/// The end of an image in memory is the highest end of its segments, and so is its end in the file.
pub proof fn law_ends_are_highest(layout: LayoutModel, k: int)
    requires
        0 <= k < layout.program_headers.len(),
    ensures
        ({
            let segment = layout.program_headers[k];
            &&& layout.spec_load_end() matches Ok(end) ==> segment.virtual_address
                + segment.memory_size <= end && exists|m: int|
                0 <= m < layout.program_headers.len() && end == (
                #[trigger] layout.program_headers[m]).virtual_address
                    + layout.program_headers[m].memory_size
            &&& layout.spec_file_load_end() matches Ok(end) ==> segment.offset + segment.file_size
                <= end && exists|m: int|
                0 <= m < layout.program_headers.len() && end == (
                #[trigger] layout.program_headers[m]).offset + layout.program_headers[m].file_size
            &&& layout.spec_load_alignment() matches Ok(alignment) ==> segment.alignment
                <= alignment && read::is_power_of_two(alignment as nat) && exists|m: int|
                0 <= m < layout.program_headers.len() && alignment == (
                #[trigger] layout.program_headers[m]).alignment
            &&& segment.virtual_address + segment.memory_size > u64::MAX
                ==> layout.spec_load_end() is Err
            &&& segment.offset + segment.file_size > u64::MAX ==> layout.spec_file_load_end() is Err
        }),
{
    let n = layout.program_headers.len();
    let memory = layout.memory_end();
    let file = layout.file_end();
    let alignment = |index: int| layout.program_headers[index].alignment as int;
    fold::lemma_largest(n, memory);
    fold::lemma_largest(n, file);
    fold::lemma_largest(n, alignment);
    assert(memory(k) == layout.program_headers[k].virtual_address
        + layout.program_headers[k].memory_size);
    assert(file(k) == layout.program_headers[k].offset + layout.program_headers[k].file_size);
    assert(alignment(k) == layout.program_headers[k].alignment);
    let a = choose|m: int| 0 <= m < n && #[trigger] memory(m) == fold::largest(n, memory);
    let b = choose|m: int| 0 <= m < n && #[trigger] file(m) == fold::largest(n, file);
    let c = choose|m: int| 0 <= m < n && #[trigger] alignment(m) == fold::largest(n, alignment);
    assert(memory(a) == layout.program_headers[a].virtual_address
        + layout.program_headers[a].memory_size);
    assert(file(b) == layout.program_headers[b].offset + layout.program_headers[b].file_size);
    assert(alignment(c) == layout.program_headers[c].alignment);
}

/// Where no end overflows, both ends are known, and where the largest alignment is a power of two,
/// it is known.
pub proof fn law_ends_are_known(layout: LayoutModel, k: int)
    requires
        0 <= k < layout.program_headers.len(),
    ensures
        (forall|m: int|
            0 <= m < layout.program_headers.len() ==> (
            #[trigger] layout.program_headers[m]).virtual_address
                + layout.program_headers[m].memory_size <= u64::MAX) ==> layout.spec_load_end() is Ok,
        (forall|m: int|
            0 <= m < layout.program_headers.len() ==> (#[trigger] layout.program_headers[m]).offset
                + layout.program_headers[m].file_size <= u64::MAX)
            ==> layout.spec_file_load_end() is Ok,
        read::is_power_of_two(layout.program_headers[k].alignment as nat) && (forall|m: int|
            0 <= m < layout.program_headers.len() ==> (
            #[trigger] layout.program_headers[m]).alignment <= layout.program_headers[k].alignment)
            ==> layout.spec_load_alignment() is Ok,
{
    let n = layout.program_headers.len();
    let memory = layout.memory_end();
    let file = layout.file_end();
    let alignment = |index: int| layout.program_headers[index].alignment as int;
    fold::lemma_largest(n, memory);
    fold::lemma_largest(n, file);
    fold::lemma_largest(n, alignment);
    let a = choose|m: int| 0 <= m < n && #[trigger] memory(m) == fold::largest(n, memory);
    let b = choose|m: int| 0 <= m < n && #[trigger] file(m) == fold::largest(n, file);
    let c = choose|m: int| 0 <= m < n && #[trigger] alignment(m) == fold::largest(n, alignment);
    assert(memory(a) == layout.program_headers[a].virtual_address
        + layout.program_headers[a].memory_size);
    assert(file(b) == layout.program_headers[b].offset + layout.program_headers[b].file_size);
    assert(alignment(k) == layout.program_headers[k].alignment);
    assert(alignment(c) == layout.program_headers[c].alignment);
}

/// Where file bytes stand in memory: as far behind the address of a segment as they are behind its
/// start in the file. They stand nowhere exactly when no segment holds them all.
pub proof fn law_file_bytes_have_an_address(layout: LayoutModel, offset: u64, size: u64, k: int)
    requires
        0 <= k < layout.program_headers.len(),
        forall|m: int|
            0 <= m < layout.program_headers.len() ==> {
                let segment = #[trigger] layout.program_headers[m];
                &&& segment.offset + segment.file_size <= u64::MAX
                &&& segment.virtual_address + segment.file_size <= u64::MAX
            },
    ensures
        ({
            let found = layout.spec_file_offset_to_virtual_address(offset, size);
            let segment = layout.program_headers[k];
            &&& segment.offset <= offset && offset + size <= segment.offset + segment.file_size
                ==> found is Ok
            &&& found matches Ok(address) ==> exists|m: int|
                0 <= m < layout.program_headers.len() && {
                    let other = #[trigger] layout.program_headers[m];
                    &&& other.offset <= offset
                    &&& offset + size <= other.offset + other.file_size
                    &&& address - other.virtual_address == offset - other.offset
                }
        }),
{
    if offset + size <= u64::MAX {
        lemma_address(layout, offset, offset + size, 0, k);
    }
}

/// The search for the segment that holds file bytes.
proof fn lemma_address(layout: LayoutModel, offset: u64, end: int, from: int, k: int)
    requires
        0 <= from <= layout.program_headers.len(),
        offset <= end <= u64::MAX,
        forall|m: int|
            0 <= m < layout.program_headers.len() ==> {
                let segment = #[trigger] layout.program_headers[m];
                &&& segment.offset + segment.file_size <= u64::MAX
                &&& segment.virtual_address + segment.file_size <= u64::MAX
            },
    ensures
        ({
            let found = layout.spec_address_from(offset, end, from);
            &&& from <= k < layout.program_headers.len() && layout.program_headers[k].offset
                <= offset && end <= layout.program_headers[k].offset
                + layout.program_headers[k].file_size ==> found is Ok
            &&& found matches Ok(address) ==> exists|m: int|
                from <= m < layout.program_headers.len() && {
                    let other = #[trigger] layout.program_headers[m];
                    &&& other.offset <= offset
                    &&& end <= other.offset + other.file_size
                    &&& address - other.virtual_address == offset - other.offset
                }
        }),
    decreases layout.program_headers.len() - from,
{
    if from < layout.program_headers.len() {
        lemma_address(layout, offset, end, from + 1, k);
        let segment = layout.program_headers[from];
        assert(segment.offset + segment.file_size <= u64::MAX);
    }
}

} // verus!
