//! Writing a restored image without its private section, and checking the result.

use super::error::{invalid, lift, Error, Fault, Result};
use super::materialize;
use super::materialize::ElfMaterializationReport;
use super::sections;
use super::sections::section_by_name;
use crate::bytes;
use crate::bytes::{bytes_of_u16, bytes_of_u64, copy_of, extend, store};
use crate::elf::layout;
use crate::elf::layout::LayoutModel;
use crate::elf::read;
use crate::elf::{
    slice_u64, usize_from_u64, ElfLayout, SectionHeader, SHF_ALLOC, SHT_LOUSER, SHT_NOBITS,
};
use crate::engine::error;
use crate::fold;
use vstd::prelude::*;

verus! {

/// A section whose bytes follow the image: zeros, then bytes of the source.
#[derive(Debug, Clone, Copy, PartialEq, Eq, Structural)]
pub struct Piece {
    /// Zeros in front of the section.
    pub padding: u64,
    /// Start of the section's bytes in the source.
    pub start: usize,
    /// End of the section's bytes in the source.
    pub end: usize,
}

/// The sections that follow the image, as far as they are planned.
#[verifier::ext_equal]
pub struct TailState {
    pub pieces: Seq<Piece>,
    pub headers: Seq<SectionHeader>,
    /// Where the next byte goes.
    pub position: int,
}

/// The section keeps its place: it has no file bytes, or they belong to a segment.
pub open spec fn stays(section: SectionHeader) -> bool {
    section.section_type == SHT_NOBITS || section.flags / SHF_ALLOC % 2 == 1 || section.size == 0
}

/// Zeros between `position` and the next multiple of `alignment`.
pub open spec fn gap(position: int, alignment: int) -> int {
    read::aligned(position, alignment) - position
}

/// The alignment of a section; none means one.
pub open spec fn alignment_of(section: SectionHeader) -> int {
    if section.alignment == 0 {
        1
    } else {
        section.alignment as int
    }
}

/// Plans section `index`.
pub open spec fn tail_step(source: Seq<u8>, sections: Seq<SectionHeader>) -> spec_fn(
    TailState,
    int,
) -> Result<TailState> {
    |state: TailState, index: int|
        {
            let section = sections[index];
            if stays(section) {
                Ok(TailState { headers: state.headers.push(section), ..state })
            } else {
                match read::spec_slice_u64(source, section.offset, section.size) {
                    Err(e) => Err(Error::Elf(e)),
                    Ok(_) => {
                        let padding = gap(state.position, alignment_of(section));
                        let offset = state.position + padding;
                        if offset + section.size > u64::MAX {
                            Err(error::fault("restored output size overflow"))
                        } else {
                            Ok(
                                TailState {
                                    pieces: state.pieces.push(
                                        Piece {
                                            padding: padding as u64,
                                            start: section.offset as usize,
                                            end: (section.offset + section.size) as usize,
                                        },
                                    ),
                                    headers: state.headers.push(
                                        SectionHeader { offset: offset as u64, ..section },
                                    ),
                                    position: offset + section.size,
                                },
                            )
                        }
                    },
                }
            }
        }
}

/// What cleaning an image did.
#[derive(Debug, PartialEq, Eq)]
pub struct CleaningReport {
    pub private_section_index: usize,
    pub private_offset: u64,
    pub private_size: u64,
    pub input_entrypoint: u64,
    pub output_entrypoint: u64,
    pub output_section_count: usize,
    pub retained_sections: Vec<String>,
    pub section_header_offset: u64,
}

/// The mathematical content of a [`CleaningReport`].
#[verifier::ext_equal]
pub struct CleaningModel {
    pub private_section_index: usize,
    pub private_offset: u64,
    pub private_size: u64,
    pub input_entrypoint: u64,
    pub output_entrypoint: u64,
    pub output_section_count: usize,
    pub retained_sections: Seq<Seq<char>>,
    pub section_header_offset: u64,
}

impl View for CleaningReport {
    type V = CleaningModel;

    open spec fn view(&self) -> CleaningModel {
        CleaningModel {
            private_section_index: self.private_section_index,
            private_offset: self.private_offset,
            private_size: self.private_size,
            input_entrypoint: self.input_entrypoint,
            output_entrypoint: self.output_entrypoint,
            output_section_count: self.output_section_count,
            retained_sections: layout::texts(self.retained_sections@),
            section_header_offset: self.section_header_offset,
        }
    }
}

/// How to write the rest of a restored image behind its segments: the pieces in order, padding,
/// and the section headers.
#[derive(Debug)]
pub struct CleanPlan {
    pub pieces: Vec<Piece>,
    /// Zeros in front of the section headers.
    pub header_padding: u64,
    pub headers: Vec<SectionHeader>,
    pub section_count: u16,
    pub report: CleaningReport,
}

/// The mathematical content of a [`CleanPlan`].
#[verifier::ext_equal]
pub struct PlanModel {
    pub pieces: Seq<Piece>,
    pub header_padding: u64,
    pub headers: Seq<SectionHeader>,
    pub section_count: u16,
    pub report: CleaningModel,
}

impl View for CleanPlan {
    type V = PlanModel;

    open spec fn view(&self) -> PlanModel {
        PlanModel {
            pieces: self.pieces@,
            header_padding: self.header_padding,
            headers: self.headers@,
            section_count: self.section_count,
            report: self.report@,
        }
    }
}

/// A plan agrees with its mathematical counterpart.
pub open spec fn plan_agrees(result: Result<CleanPlan>, expected: Result<PlanModel>) -> bool {
    match (result, expected) {
        (Ok(found), Ok(wanted)) => found@ == wanted,
        (Err(found), Err(wanted)) => found == wanted,
        _ => false,
    }
}

/// The tail before its first section.
pub open spec fn tail_start(data_start: u64) -> TailState {
    TailState { pieces: Seq::empty(), headers: Seq::empty(), position: data_start as int }
}

/// The plan for the sections in front of the private one.
pub open spec fn spec_plan_tail(
    source: Seq<u8>,
    layout: LayoutModel,
    private: SectionHeader,
    names: Seq<Seq<char>>,
    data_start: u64,
    preserve_entrypoint: bool,
) -> Result<PlanModel> {
    let retained = layout.section_headers.take(layout.private_section_index as int);
    match fold::try_fold(
        retained.len(),
        tail_start(data_start),
        tail_step(source, retained),
    ) {
        Err(e) => Err(e),
        Ok(state) => {
            let padding = gap(state.position, 8);
            if state.position + padding > u64::MAX {
                Err(error::fault("restored output size overflow"))
            } else if retained.len() > u16::MAX {
                Err(error::fault("output section count exceeds u16"))
            } else {
                Ok(
                    PlanModel {
                        pieces: state.pieces,
                        header_padding: padding as u64,
                        headers: state.headers,
                        section_count: retained.len() as u16,
                        report: CleaningModel {
                            private_section_index: layout.private_section_index,
                            private_offset: private.offset,
                            private_size: private.size,
                            input_entrypoint: layout.entrypoint,
                            output_entrypoint: if preserve_entrypoint {
                                layout.entrypoint
                            } else {
                                0
                            },
                            output_section_count: retained.len() as usize,
                            retained_sections: names.take(layout.private_section_index as int),
                            section_header_offset: (state.position + padding) as u64,
                        },
                    },
                )
            }
        },
    }
}

/// The plan for the rest of a restored image from `data_start` on, or why there is none.
pub open spec fn spec_plan(
    source: Seq<u8>,
    layout: LayoutModel,
    data_start: u64,
    preserve_entrypoint: bool,
) -> Result<PlanModel> {
    match layout.spec_private_section() {
        Err(e) => Err(Error::Elf(e)),
        Ok(private) => if data_start < private.offset {
            Err(error::fault("ELF data start precedes the private section"))
        } else {
            match layout.spec_section_names(source) {
                Err(e) => Err(Error::Elf(e)),
                Ok(names) => if layout.private_section_index + 1 != layout.section_headers.len() {
                    Err(error::fault("SHT_LOUSER section is not the final section"))
                } else {
                    spec_plan_tail(source, layout, private, names, data_start, preserve_entrypoint)
                },
            }
        },
    }
}

/// Plans the next section.
fn plan_section(
    source: &[u8],
    section: SectionHeader,
    position: u64,
    pieces: &mut Vec<Piece>,
    headers: &mut Vec<SectionHeader>,
    Ghost(sections): Ghost<Seq<SectionHeader>>,
    Ghost(index): Ghost<int>,
) -> (result: Result<u64>)
    requires
        sections[index] == section,
    ensures
        match (
            result,
            (tail_step(source@, sections))(
                TailState {
                    pieces: old(pieces)@,
                    headers: old(headers)@,
                    position: position as int,
                },
                index,
            ),
        ) {
            (Ok(next), Ok(state)) => state == (TailState {
                pieces: final(pieces)@,
                headers: final(headers)@,
                position: next as int,
            }),
            (Err(found), Err(wanted)) => found == wanted,
            _ => false,
        },
{
    if section.section_type == SHT_NOBITS || section.flags / SHF_ALLOC % 2 == 1 || section.size == 0 {
        headers.push(section);
        return Ok(position);
    }
    if let Err(e) = slice_u64(source, section.offset, section.size) {
        return Err(Error::Elf(e));
    }
    let alignment: u64 = if section.alignment == 0 {
        1
    } else {
        section.alignment
    };
    proof {
        vstd::arithmetic::div_mod::lemma_mod_bound(position as int, alignment as int);
    }
    let excess: u64 = position % alignment;
    let padding: u64 = if excess == 0 {
        0
    } else {
        alignment - excess
    };
    assert(padding == gap(position as int, alignment as int));
    let offset = match position.checked_add(padding) {
        Some(offset) => offset,
        None => return invalid(Fault::Text("restored output size overflow")),
    };
    let end = match offset.checked_add(section.size) {
        Some(end) => end,
        None => return invalid(Fault::Text("restored output size overflow")),
    };
    let start = section.offset as usize;
    pieces.push(Piece { padding, start, end: start + section.size as usize });
    let mut moved = section;
    moved.offset = offset;
    headers.push(moved);
    Ok(end)
}

/// Copies the first `count` names.
fn leading_names(names: &Vec<String>, count: usize) -> (copies: Vec<String>)
    requires
        count <= names@.len(),
    ensures
        layout::texts(copies@) == layout::texts(names@).take(count as int),
{
    let mut copies: Vec<String> = Vec::with_capacity(count);
    let mut i: usize = 0;
    while i < count
        invariant
            i <= count <= names@.len(),
            copies@.len() == i,
            forall|k: int| 0 <= k < i ==> (#[trigger] copies@[k])@ == names@[k]@,
        decreases count - i,
    {
        copies.push(names[i].clone());
        i += 1;
    }
    assert(layout::texts(copies@) =~= layout::texts(names@).take(count as int));
    copies
}

/// Plans the sections in front of the private one.
fn plan_tail(
    source: &[u8],
    layout: &ElfLayout,
    private: SectionHeader,
    names: &Vec<String>,
    data_start: u64,
    preserve_entrypoint: bool,
) -> (result: Result<CleanPlan>)
    requires
        layout.private_section_index < layout.section_headers@.len(),
        names@.len() == layout.section_headers@.len(),
    ensures
        plan_agrees(
            result,
            spec_plan_tail(
                source@,
                layout@,
                private,
                layout::texts(names@),
                data_start,
                preserve_entrypoint,
            ),
        ),
{
    let count: usize = layout.private_section_index;
    let ghost retained = layout@.section_headers.take(count as int);
    let ghost step = tail_step(source@, retained);
    let ghost start = tail_start(data_start);
    let mut pieces: Vec<Piece> = Vec::new();
    let mut headers: Vec<SectionHeader> = Vec::with_capacity(count);
    let mut position: u64 = data_start;
    let mut index: usize = 0;
    while index < count
        invariant
            index <= count,
            count < layout.section_headers@.len(),
            retained == layout@.section_headers.take(count as int),
            step == tail_step(source@, retained),
            start == tail_start(data_start),
            headers@.len() == index,
            fold::try_fold(index as nat, start, step) == Ok::<TailState, Error>(
                TailState { pieces: pieces@, headers: headers@, position: position as int },
            ),
            count == layout@.private_section_index,
        decreases count - index,
    {
        proof {
            if fold::try_fold((index + 1) as nat, start, step) is Err {
                fold::lemma_failure_stays((index + 1) as nat, count as nat, start, step);
            }
        }
        position = plan_section(
            source,
            layout.section_headers[index],
            position,
            &mut pieces,
            &mut headers,
            Ghost(retained),
            Ghost(index as int),
        )?;
        index += 1;
    }
    let header_padding: u64 = (8 - position % 8) % 8;
    assert(header_padding == gap(position as int, 8));
    let section_header_offset = match position.checked_add(header_padding) {
        Some(offset) => offset,
        None => return invalid(Fault::Text("restored output size overflow")),
    };
    if count > u16::MAX as usize {
        return invalid(Fault::Text("output section count exceeds u16"));
    }
    let report = CleaningReport {
        private_section_index: count,
        private_offset: private.offset,
        private_size: private.size,
        input_entrypoint: layout.entrypoint,
        output_entrypoint: if preserve_entrypoint {
            layout.entrypoint
        } else {
            0
        },
        output_section_count: count,
        retained_sections: leading_names(names, count),
        section_header_offset,
    };
    Ok(CleanPlan { pieces, header_padding, headers, section_count: count as u16, report })
}

/// Plans how to write the rest of a restored image from `data_start` on. Sections that belong to
/// no segment move behind the image, the section headers follow them, and the private section is
/// left out.
pub fn plan_clean_elf(
    source: &[u8],
    layout: &ElfLayout,
    data_start: u64,
    preserve_entrypoint: bool,
) -> (result: Result<CleanPlan>)
    ensures
        plan_agrees(result, spec_plan(source@, layout@, data_start, preserve_entrypoint)),
{
    let private = lift(layout.private_section())?;
    if data_start < private.offset {
        return invalid(Fault::Text("ELF data start precedes the private section"));
    }
    let names = match layout.section_names(source) {
        Ok(names) => names,
        Err(e) => return Err(Error::Elf(e)),
    };
    proof {
        layout::lemma_one_name_each(layout@, source@);
    }
    if layout.section_headers.len() - 1 != layout.private_section_index {
        return invalid(Fault::Text("SHT_LOUSER section is not the final section"));
    }
    plan_tail(source, layout, private, &names, data_start, preserve_entrypoint)
}

/// The encoded section headers.
pub open spec fn encoded_headers(headers: Seq<SectionHeader>) -> Seq<u8>
    decreases headers.len(),
{
    if headers.len() == 0 {
        Seq::empty()
    } else {
        encoded_headers(headers.drop_last()) + headers.last().spec_encode()
    }
}

/// Encodes section headers.
pub fn encode_headers(headers: &[SectionHeader]) -> (encoded: Vec<u8>)
    ensures
        encoded@ == encoded_headers(headers@),
{
    let mut encoded: Vec<u8> = Vec::new();
    assert(headers@.take(0) =~= Seq::<SectionHeader>::empty());
    let mut i: usize = 0;
    while i < headers.len()
        invariant
            i <= headers@.len(),
            encoded@ == encoded_headers(headers@.take(i as int)),
        decreases headers@.len() - i,
    {
        extend(&mut encoded, &headers[i].encode());
        assert(headers@.take(i + 1).drop_last() =~= headers@.take(i as int));
        i += 1;
    }
    assert(headers@.take(i as int) =~= headers@);
    encoded
}

/// A file header that knows the new section headers.
pub open spec fn patched_header(
    header: Seq<u8>,
    preserve_entrypoint: bool,
    section_header_offset: u64,
    section_count: u16,
) -> Seq<u8> {
    let entry = if preserve_entrypoint {
        header
    } else {
        bytes::overwrite(header, 0x18, bytes::u64_bytes(0))
    };
    bytes::overwrite(
        bytes::overwrite(entry, 0x28, bytes::u64_bytes(section_header_offset)),
        0x3c,
        bytes::u16_bytes(section_count),
    )
}

/// Updates the file header of a restored image.
pub fn patch_elf_header(
    header: &mut [u8],
    preserve_entrypoint: bool,
    section_header_offset: u64,
    section_count: u16,
)
    requires
        old(header)@.len() == 0x40,
    ensures
        final(header)@ == patched_header(
            old(header)@,
            preserve_entrypoint,
            section_header_offset,
            section_count,
        ),
{
    broadcast use bytes::group_bytes_len;

    if !preserve_entrypoint {
        store(header, 0x18, &bytes_of_u64(0));
    }
    store(header, 0x28, &bytes_of_u64(section_header_offset));
    store(header, 0x3c, &bytes_of_u16(section_count));
}

/// The bytes of the first pieces of a plan.
pub open spec fn piece_bytes(source: Seq<u8>, pieces: Seq<Piece>) -> Seq<u8>
    decreases pieces.len(),
{
    if pieces.len() == 0 {
        Seq::empty()
    } else {
        let last = pieces.last();
        piece_bytes(source, pieces.drop_last()) + bytes::zeros(last.padding as nat)
            + source.subrange(last.start as int, last.end as int)
    }
}

/// Everything that a plan puts behind the image.
pub open spec fn tail_bytes(source: Seq<u8>, plan: PlanModel) -> Seq<u8> {
    piece_bytes(source, plan.pieces) + bytes::zeros(plan.header_padding as nat)
        + encoded_headers(plan.headers)
}

/// A restored file and how it came about.
#[derive(Debug)]
pub struct CleanElf {
    pub data: Vec<u8>,
    pub report: CleaningReport,
}

/// The mathematical content of a [`CleanElf`].
#[verifier::ext_equal]
pub struct CleanModel {
    pub data: Seq<u8>,
    pub report: CleaningModel,
}

impl View for CleanElf {
    type V = CleanModel;

    open spec fn view(&self) -> CleanModel {
        CleanModel { data: self.data@, report: self.report@ }
    }
}

/// The restored file: the image, the sections and headers behind it, and the file header that knows
/// them.
pub open spec fn spec_finalize(
    image: Seq<u8>,
    source: Seq<u8>,
    layout: LayoutModel,
    preserve_entrypoint: bool,
) -> Result<CleanModel> {
    match spec_plan(source, layout, image.len() as u64, preserve_entrypoint) {
        Err(e) => Err(e),
        Ok(plan) => {
            let whole = image + tail_bytes(source, plan);
            if whole.len() < 0x40 {
                Err(error::fault("restored output has no ELF header"))
            } else {
                Ok(
                    CleanModel {
                        data: bytes::overwrite(
                            whole,
                            0,
                            patched_header(
                                whole.take(0x40),
                                preserve_entrypoint,
                                plan.report.section_header_offset,
                                plan.section_count,
                            ),
                        ),
                        report: plan.report,
                    },
                )
            }
        },
    }
}

/// A restored file agrees with its mathematical counterpart.
pub open spec fn clean_agrees(result: Result<CleanElf>, expected: Result<CleanModel>) -> bool {
    match (result, expected) {
        (Ok(found), Ok(wanted)) => found@ == wanted,
        (Err(found), Err(wanted)) => found == wanted,
        _ => false,
    }
}

/// Appends zeros.
pub(crate) fn pad(data: &mut Vec<u8>, count: u64)
    ensures
        final(data)@ == old(data)@ + bytes::zeros(count as nat),
{
    let ghost before = data@;
    let mut done: u64 = 0;
    assert(data@ =~= before + bytes::zeros(0));
    while done < count
        invariant
            done <= count,
            data@ == before + bytes::zeros(done as nat),
        decreases count - done,
    {
        data.push(0);
        assert(before + bytes::zeros((done + 1) as nat) =~= (before + bytes::zeros(
            done as nat,
        )).push(0));
        done += 1;
    }
}

/// Appends the pieces of a plan.
fn append_pieces(data: &mut Vec<u8>, source: &[u8], pieces: &Vec<Piece>)
    requires
        forall|i: int|
            0 <= i < pieces@.len() ==> (#[trigger] pieces@[i]).start <= pieces@[i].end
                <= source@.len(),
    ensures
        final(data)@ == old(data)@ + piece_bytes(source@, pieces@),
{
    let ghost before = data@;
    let mut i: usize = 0;
    assert(pieces@.take(0) =~= Seq::<Piece>::empty());
    assert(data@ =~= before + piece_bytes(source@, pieces@.take(0)));
    while i < pieces.len()
        invariant
            i <= pieces@.len(),
            forall|k: int|
                0 <= k < pieces@.len() ==> (#[trigger] pieces@[k]).start <= pieces@[k].end
                    <= source@.len(),
            data@ == before + piece_bytes(source@, pieces@.take(i as int)),
        decreases pieces@.len() - i,
    {
        let piece = &pieces[i];
        pad(data, piece.padding);
        extend(data, &source[piece.start..piece.end]);
        proof {
            let done = pieces@.take(i as int);
            assert(pieces@.take(i + 1).drop_last() =~= done);
            assert(data@ =~= before + piece_bytes(source@, pieces@.take(i + 1)));
        }
        i += 1;
    }
    assert(pieces@.take(i as int) =~= pieces@);
}

/// The pieces of a plan lie within the source.
proof fn lemma_pieces_within(source: Seq<u8>, sections: Seq<SectionHeader>, start: u64, n: nat)
    requires
        n <= sections.len(),
        source.len() <= usize::MAX,
    ensures
        fold::try_fold(n, tail_start(start), tail_step(source, sections)) matches Ok(state)
            ==> forall|i: int|
            0 <= i < state.pieces.len() ==> (#[trigger] state.pieces[i]).start
                <= state.pieces[i].end <= source.len(),
    decreases n,
{
    if n > 0 {
        lemma_pieces_within(source, sections, start, (n - 1) as nat);
    }
}

/// Completes a restored image: the sections that belong to no segment and the section headers go
/// behind it, and the file header points to them. The private section is left out.
pub fn finalize_clean_elf(
    image: Vec<u8>,
    source: &[u8],
    layout: &ElfLayout,
    preserve_entrypoint: bool,
) -> (result: Result<CleanElf>)
    ensures
        clean_agrees(result, spec_finalize(image@, source@, layout@, preserve_entrypoint)),
{
    broadcast use bytes::group_bytes_len;

    let plan = plan_clean_elf(source, layout, image.len() as u64, preserve_entrypoint)?;
    assert(source@.len() == source.len());
    proof {
        let retained = layout@.section_headers.take(layout@.private_section_index as int);
        lemma_pieces_within(source@, retained, image@.len() as u64, retained.len());
    }
    let ghost whole = image@ + tail_bytes(source@, plan@);
    let mut data = image;
    append_pieces(&mut data, source, &plan.pieces);
    pad(&mut data, plan.header_padding);
    let headers = encode_headers(&plan.headers);
    extend(&mut data, &headers);
    assert(data@ =~= whole);
    if data.len() < 0x40 {
        return invalid(Fault::Text("restored output has no ELF header"));
    }
    let mut header = copy_of(&data[0..0x40]);
    assert(header@ =~= whole.take(0x40));
    patch_elf_header(
        &mut header,
        preserve_entrypoint,
        plan.report.section_header_offset,
        plan.section_count,
    );
    store(&mut data, 0, &header);
    Ok(CleanElf { data, report: plan.report })
}

/// What a restored image looks like.
#[derive(Debug, Clone, Copy, PartialEq, Eq)]
pub struct ValidationReport {
    pub format: &'static str,
    pub machine: &'static str,
    pub sections: usize,
    pub segments: usize,
    pub dynamic_symbols: usize,
    pub dynamic_relocations: usize,
    pub pltgot_relocations: usize,
    pub has_louser: bool,
}

/// Table sizes that a restored image has to have.
#[derive(Debug, Clone, Copy, PartialEq, Eq, Structural)]
pub struct ExpectedCounts {
    pub symbols: usize,
    pub rela_dyn: usize,
    pub rela_plt: usize,
}

impl ExpectedCounts {
    /// The table sizes in a report on rebuilt tables.
    pub open spec fn spec_of(report: materialize::ReportModel) -> ExpectedCounts {
        ExpectedCounts {
            symbols: report.new_symbol_count,
            rela_dyn: report.rela_dyn_count,
            rela_plt: report.rela_plt_count,
        }
    }

    /// The table sizes in a report on rebuilt tables.
    pub fn of(report: &ElfMaterializationReport) -> (counts: ExpectedCounts)
        ensures
            counts == Self::spec_of(report@),
    {
        ExpectedCounts {
            symbols: report.new_symbol_count,
            rela_dyn: report.rela_dyn_count,
            rela_plt: report.rela_plt_count,
        }
    }
}

/// The image has a private section.
pub open spec fn has_private(sections: Seq<SectionHeader>) -> bool {
    exists|i: int|
        0 <= i < sections.len() && (#[trigger] sections[i]).section_type == SHT_LOUSER
}

/// The table counts of a restored image, or why they cannot be told.
pub open spec fn spec_table_counts(layout: LayoutModel, names: Seq<Seq<char>>) -> Result<
    ExpectedCounts,
> {
    match sections::spec_section_by_name(layout.section_headers, names, ".dynsym") {
        Err(e) => Err(e),
        Ok(dynsym) => match sections::spec_section_by_name(
            layout.section_headers,
            names,
            ".rela.dyn",
        ) {
            Err(e) => Err(e),
            Ok(rela_dyn) => match sections::spec_section_by_name(
                layout.section_headers,
                names,
                ".rela.plt",
            ) {
                Err(e) => Err(e),
                Ok(rela_plt) => match read::spec_usize_from_u64(
                    (dynsym.size / 0x18) as u64,
                    "restored dynamic symbol count",
                ) {
                    Err(e) => Err(Error::Elf(e)),
                    Ok(symbols) => match read::spec_usize_from_u64(
                        (rela_dyn.size / 0x18) as u64,
                        "restored dynamic relocation count",
                    ) {
                        Err(e) => Err(Error::Elf(e)),
                        Ok(dyn_count) => match read::spec_usize_from_u64(
                            (rela_plt.size / 0x18) as u64,
                            "restored PLT relocation count",
                        ) {
                            Err(e) => Err(Error::Elf(e)),
                            Ok(plt_count) => Ok(
                                ExpectedCounts {
                                    symbols,
                                    rela_dyn: dyn_count,
                                    rela_plt: plt_count,
                                },
                            ),
                        },
                    },
                },
            },
        },
    }
}

/// What the restored image in `data` looks like, or why it is refused.
pub open spec fn spec_validate_restored_binary(
    data: Seq<u8>,
    preserve_entrypoint: bool,
    expected: Option<ExpectedCounts>,
) -> Result<ValidationReport> {
    match LayoutModel::spec_parse(data, false) {
        Err(e) => Err(Error::Elf(e)),
        Ok(layout) => if has_private(layout.section_headers) {
            Err(error::fault("restored output still contains SHT_LOUSER"))
        } else if !preserve_entrypoint && layout.entrypoint != 0 {
            Err(error::fault("restored output retains the protector entrypoint"))
        } else {
            match layout.spec_section_names(data) {
                Err(e) => Err(Error::Elf(e)),
                Ok(names) => match spec_table_counts(layout, names) {
                    Err(e) => Err(e),
                    Ok(counts) => if expected is Some && expected->0 != counts {
                        Err(
                            error::fault(
                                "restored ELF table counts do not match materialization report",
                            ),
                        )
                    } else {
                        Ok(
                            ValidationReport {
                                format: "ELF64",
                                machine: "AARCH64",
                                sections: layout.section_headers.len() as usize,
                                segments: layout.program_headers.len() as usize,
                                dynamic_symbols: counts.symbols,
                                dynamic_relocations: counts.rela_dyn,
                                pltgot_relocations: counts.rela_plt,
                                has_louser: false,
                            },
                        )
                    },
                },
            }
        },
    }
}

/// Whether one of the sections is private.
fn contains_private(headers: &[SectionHeader]) -> (result: bool)
    ensures
        result == has_private(headers@),
{
    let mut i: usize = 0;
    while i < headers.len()
        invariant
            i <= headers@.len(),
            forall|k: int| 0 <= k < i ==> (#[trigger] headers@[k]).section_type != SHT_LOUSER,
        decreases headers@.len() - i,
    {
        if headers[i].section_type == SHT_LOUSER {
            return true;
        }
        i += 1;
    }
    false
}

/// Counts the entries of a restored image's dynamic tables.
fn table_counts(layout: &ElfLayout, names: &[String]) -> (result: Result<ExpectedCounts>)
    requires
        names@.len() == layout.section_headers@.len(),
    ensures
        result == spec_table_counts(layout@, layout::texts(names@)),
{
    let dynsym = section_by_name(layout, names, ".dynsym")?;
    let rela_dyn = section_by_name(layout, names, ".rela.dyn")?;
    let rela_plt = section_by_name(layout, names, ".rela.plt")?;
    let symbols = lift(usize_from_u64(dynsym.size / 0x18, "restored dynamic symbol count"))?;
    let dyn_count = lift(
        usize_from_u64(rela_dyn.size / 0x18, "restored dynamic relocation count"),
    )?;
    let plt_count = lift(usize_from_u64(rela_plt.size / 0x18, "restored PLT relocation count"))?;
    Ok(ExpectedCounts { symbols, rela_dyn: dyn_count, rela_plt: plt_count })
}

/// Checks a restored image: no private section, no entry point of the protector, and tables of the
/// sizes that were rebuilt.
pub fn validate_restored_binary(
    data: &[u8],
    preserve_entrypoint: bool,
    expected: Option<ExpectedCounts>,
) -> (result: Result<ValidationReport>)
    ensures
        result == spec_validate_restored_binary(data@, preserve_entrypoint, expected),
{
    let layout = match ElfLayout::parse(data, false) {
        Ok(layout) => layout,
        Err(e) => return Err(Error::Elf(e)),
    };
    if contains_private(&layout.section_headers) {
        return invalid(Fault::Text("restored output still contains SHT_LOUSER"));
    }
    if !preserve_entrypoint && layout.entrypoint != 0 {
        return invalid(Fault::Text("restored output retains the protector entrypoint"));
    }
    let names = match layout.section_names(data) {
        Ok(names) => names,
        Err(e) => return Err(Error::Elf(e)),
    };
    proof {
        layout::lemma_one_name_each(layout@, data@);
    }
    let counts = table_counts(&layout, &names)?;
    if let Some(wanted) = expected {
        if wanted != counts {
            return invalid(
                Fault::Text("restored ELF table counts do not match materialization report"),
            );
        }
    }
    Ok(
        ValidationReport {
            format: "ELF64",
            machine: "AARCH64",
            sections: layout.section_headers.len(),
            segments: layout.program_headers.len(),
            dynamic_symbols: counts.symbols,
            dynamic_relocations: counts.rela_dyn,
            pltgot_relocations: counts.rela_plt,
            has_louser: false,
        },
    )
}

} // verus!
