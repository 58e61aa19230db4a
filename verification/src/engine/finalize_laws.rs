//! What writing a restored image preserves.

use super::finalize;
use super::finalize::PlanModel;
use crate::bytes;
use crate::elf::layout;
use crate::elf::layout::{law_section_header_round_trip, LayoutModel};
use crate::elf::read;
use crate::elf::SectionHeader;
use crate::fold;
use vstd::prelude::*;

verus! {

/// Section `index` of a plan that moves: its header, its place and its bytes.
pub open spec fn is_moved(
    source: Seq<u8>,
    section: SectionHeader,
    header: SectionHeader,
    data_start: int,
    tail: Seq<u8>,
) -> bool {
    let at = header.offset - data_start;
    &&& header == (SectionHeader { offset: header.offset, ..section })
    &&& header.offset as int % finalize::alignment_of(section) == 0
    &&& 0 <= at
    &&& at + section.size <= tail.len()
    &&& tail.subrange(at, at + section.size) == source.subrange(
        section.offset as int,
        section.offset + section.size,
    )
}

/// The sections that were planned are where their headers say.
proof fn lemma_tail(
    source: Seq<u8>,
    sections: Seq<SectionHeader>,
    data_start: u64,
    n: nat,
)
    requires
        n <= sections.len(),
        source.len() <= usize::MAX,
        fold::try_fold(
            n,
            finalize::tail_start(data_start),
            finalize::tail_step(source, sections),
        ) is Ok,
    ensures
        ({
            let state = fold::try_fold(
                n,
                finalize::tail_start(data_start),
                finalize::tail_step(source, sections),
            )->Ok_0;
            let tail = finalize::piece_bytes(source, state.pieces);
            &&& state.headers.len() == n
            &&& state.position == data_start + tail.len()
            &&& state.position <= u64::MAX
            &&& forall|i: int|
                0 <= i < n && #[trigger] finalize::stays(sections[i]) ==> state.headers[i]
                    == sections[i]
            &&& forall|i: int|
                0 <= i < n && !#[trigger] finalize::stays(sections[i]) ==> is_moved(
                    source,
                    sections[i],
                    state.headers[i],
                    data_start as int,
                    tail,
                )
        }),
    decreases n,
{
    if n > 0 {
        let last = n - 1;
        lemma_tail(source, sections, data_start, last as nat);
        let before = fold::try_fold(
            last as nat,
            finalize::tail_start(data_start),
            finalize::tail_step(source, sections),
        )->Ok_0;
        let after = fold::try_fold(
            n,
            finalize::tail_start(data_start),
            finalize::tail_step(source, sections),
        )->Ok_0;
        let section = sections[last];
        let old_tail = finalize::piece_bytes(source, before.pieces);
        let tail = finalize::piece_bytes(source, after.pieces);
        if !finalize::stays(section) {
            let piece = after.pieces.last();
            assert(after.pieces.drop_last() =~= before.pieces);
            read::lemma_aligned(before.position, finalize::alignment_of(section));
            let padding = finalize::gap(before.position, finalize::alignment_of(section));
            let at = after.headers[last].offset - data_start;
            assert(at == old_tail.len() + padding);
            assert(tail.subrange(at, at + section.size) =~= source.subrange(
                section.offset as int,
                section.offset + section.size,
            ));
            assert(is_moved(source, section, after.headers[last], data_start as int, tail));
            assert forall|i: int|
                0 <= i < last && !#[trigger] finalize::stays(sections[i]) implies is_moved(
                source,
                sections[i],
                after.headers[i],
                data_start as int,
                tail,
            ) by {
                assert(is_moved(
                    source,
                    sections[i],
                    before.headers[i],
                    data_start as int,
                    old_tail,
                ));
                let p = before.headers[i].offset - data_start;
                assert(tail.subrange(p, p + sections[i].size) =~= old_tail.subrange(
                    p,
                    p + sections[i].size,
                ));
            }
        }
    }
}

/// A section that moves behind the image keeps its header but for its place, is aligned there, and
/// keeps its bytes. Any other section keeps its header.
pub proof fn law_retained_sections_keep_their_bytes(
    source: Seq<u8>,
    layout: LayoutModel,
    data_start: u64,
    preserve_entrypoint: bool,
    i: int,
)
    requires
        source.len() <= usize::MAX,
        finalize::spec_plan(source, layout, data_start, preserve_entrypoint) is Ok,
        0 <= i < layout.private_section_index,
    ensures
        ({
            let plan = finalize::spec_plan(source, layout, data_start, preserve_entrypoint)->Ok_0;
            let section = layout.section_headers[i];
            if finalize::stays(section) {
                plan.headers[i] == section
            } else {
                is_moved(
                    source,
                    section,
                    plan.headers[i],
                    data_start as int,
                    finalize::tail_bytes(source, plan),
                )
            }
        }),
{
    let plan = finalize::spec_plan(source, layout, data_start, preserve_entrypoint)->Ok_0;
    let retained = layout.section_headers.take(layout.private_section_index as int);
    lemma_tail(source, retained, data_start, retained.len());
    let section = retained[i];
    let pieces = finalize::piece_bytes(source, plan.pieces);
    let tail = finalize::tail_bytes(source, plan);
    if !finalize::stays(section) {
        assert(is_moved(source, section, plan.headers[i], data_start as int, pieces));
        let at = plan.headers[i].offset - data_start;
        assert(tail.subrange(at, at + section.size) =~= pieces.subrange(at, at + section.size));
    }
}

/// Encoded headers are whole records, each of which reads back.
proof fn lemma_encoded_headers(headers: Seq<SectionHeader>, i: int)
    requires
        0 <= i < headers.len(),
    ensures
        finalize::encoded_headers(headers).len() == headers.len() * 0x40,
        finalize::encoded_headers(headers).subrange(i * 0x40, i * 0x40 + 0x40)
            == headers[i].spec_encode(),
    decreases headers.len(),
{
    let last = headers.last();
    let before = headers.drop_last();
    law_section_header_round_trip(last);
    let all = finalize::encoded_headers(headers);
    if before.len() > 0 {
        lemma_encoded_headers(before, if i < before.len() {
            i
        } else {
            0
        });
    }
    assert(all == finalize::encoded_headers(before) + last.spec_encode());
    if i < before.len() {
        assert(all.subrange(i * 0x40, i * 0x40 + 0x40) =~= finalize::encoded_headers(
            before,
        ).subrange(i * 0x40, i * 0x40 + 0x40));
    } else {
        assert(all.subrange(i * 0x40, i * 0x40 + 0x40) =~= last.spec_encode());
    }
}

/// A section header depends on its own bytes alone.
proof fn lemma_header_here(data: Seq<u8>, at: int, header: SectionHeader)
    requires
        0 <= at,
        at + 0x40 <= data.len(),
        data.subrange(at, at + 0x40) == header.spec_encode(),
    ensures
        layout::section_at(data, at) == header,
{
    let record = data.subrange(at, at + 0x40);
    law_section_header_round_trip(header);
    layout::lemma_section_readable(record, 0);
    assert(layout::section_at(record, 0) == header);
    assert(layout::section_at(data, at) == layout::section_at(record, 0));
}

/// Behind the image, at the place that is reported, stand the section headers of the plan, one for
/// each section in front of the private one.
pub proof fn law_section_headers_read_back(
    source: Seq<u8>,
    layout: LayoutModel,
    data_start: u64,
    preserve_entrypoint: bool,
    i: int,
)
    requires
        source.len() <= usize::MAX,
        finalize::spec_plan(source, layout, data_start, preserve_entrypoint) is Ok,
        0 <= i < layout.private_section_index,
    ensures
        ({
            let plan = finalize::spec_plan(source, layout, data_start, preserve_entrypoint)->Ok_0;
            let at = plan.report.section_header_offset - data_start + i * 0x40;
            &&& plan.section_count == layout.private_section_index
            &&& plan.headers.len() == plan.section_count
            &&& plan.report.section_header_offset % 8 == 0
            &&& 0 <= at
            &&& at + 0x40 <= finalize::tail_bytes(source, plan).len()
            &&& layout::section_at(finalize::tail_bytes(source, plan), at) == plan.headers[i]
        }),
{
    let plan = finalize::spec_plan(source, layout, data_start, preserve_entrypoint)->Ok_0;
    let retained = layout.section_headers.take(layout.private_section_index as int);
    lemma_tail(source, retained, data_start, retained.len());
    lemma_encoded_headers(plan.headers, i);
    let pieces = finalize::piece_bytes(source, plan.pieces);
    let tail = finalize::tail_bytes(source, plan);
    read::lemma_aligned(data_start + pieces.len(), 8);
    let start = pieces.len() + plan.header_padding;
    assert(plan.report.section_header_offset == data_start + start);
    let at = start + i * 0x40;
    assert(tail.subrange(at, at + 0x40) =~= finalize::encoded_headers(plan.headers).subrange(
        i * 0x40,
        i * 0x40 + 0x40,
    ));
    lemma_header_here(tail, at, plan.headers[i]);
}

/// The updated file header says where the section headers are and how many, and has no entry point
/// unless it is kept.
pub proof fn law_file_header_reads_back(
    header: Seq<u8>,
    preserve_entrypoint: bool,
    section_header_offset: u64,
    section_count: u16,
)
    requires
        header.len() == 0x40,
    ensures
        ({
            let patched = finalize::patched_header(
                header,
                preserve_entrypoint,
                section_header_offset,
                section_count,
            );
            &&& patched.len() == 0x40
            &&& bytes::u64_at(patched, 0x28) == section_header_offset
            &&& bytes::u16_at(patched, 0x3c) == section_count
            &&& bytes::u64_at(patched, 0x18) == if preserve_entrypoint {
                bytes::u64_at(header, 0x18)
            } else {
                0
            }
        }),
{
    broadcast use bytes::group_bytes_len;

    let patched = finalize::patched_header(
        header,
        preserve_entrypoint,
        section_header_offset,
        section_count,
    );
    assert(patched.subrange(0x28, 0x30) =~= bytes::u64_bytes(section_header_offset));
    bytes::lemma_u64_spelled(patched, 0x28, section_header_offset);
    assert(patched.subrange(0x3c, 0x3e) =~= bytes::u16_bytes(section_count));
    bytes::lemma_u16_spelled(patched, 0x3c, section_count);
    if !preserve_entrypoint {
        assert(patched.subrange(0x18, 0x20) =~= bytes::u64_bytes(0));
        bytes::lemma_u64_spelled(patched, 0x18, 0);
    }
}

/// In a restored file, a section that moved stands where its header says, with its bytes.
pub proof fn law_moved_sections_stand_in_the_file(
    image: Seq<u8>,
    source: Seq<u8>,
    layout: LayoutModel,
    preserve_entrypoint: bool,
    i: int,
)
    requires
        source.len() <= usize::MAX,
        0x40 <= image.len() <= u64::MAX,
        finalize::spec_finalize(image, source, layout, preserve_entrypoint) is Ok,
        0 <= i < layout.private_section_index,
        !finalize::stays(layout.section_headers[i]),
    ensures
        ({
            let plan = finalize::spec_plan(
                source,
                layout,
                image.len() as u64,
                preserve_entrypoint,
            )->Ok_0;
            let file = finalize::spec_finalize(
                image,
                source,
                layout,
                preserve_entrypoint,
            )->Ok_0.data;
            let section = layout.section_headers[i];
            let at = plan.headers[i].offset as int;
            &&& at + section.size <= file.len()
            &&& file.subrange(at, at + section.size) == source.subrange(
                section.offset as int,
                section.offset + section.size,
            )
        }),
{
    broadcast use bytes::group_bytes_len;

    let start = image.len() as u64;
    law_retained_sections_keep_their_bytes(source, layout, start, preserve_entrypoint, i);
    let plan = finalize::spec_plan(source, layout, start, preserve_entrypoint)->Ok_0;
    let tail = finalize::tail_bytes(source, plan);
    let file = finalize::spec_finalize(image, source, layout, preserve_entrypoint)->Ok_0.data;
    let section = layout.section_headers[i];
    let at = plan.headers[i].offset as int;
    lemma_patched_length((image + tail).take(0x40), preserve_entrypoint, plan);
    assert(file.subrange(at, at + section.size) =~= tail.subrange(
        at - start,
        at - start + section.size,
    ));
}

/// Updating a file header keeps its size.
proof fn lemma_patched_length(header: Seq<u8>, preserve_entrypoint: bool, plan: PlanModel)
    requires
        header.len() == 0x40,
    ensures
        finalize::patched_header(
            header,
            preserve_entrypoint,
            plan.report.section_header_offset,
            plan.section_count,
        ).len() == 0x40,
{
    broadcast use bytes::group_bytes_len;

}

} // verus!
