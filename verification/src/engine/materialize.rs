//! Rebuilding the dynamic-linker tables of a restored image.

use super::auxiliary::AuxiliaryElfImage;
use super::dynamic;
use super::dynamic::{dynamic_contains_tag, patch_dynamic_tags};
use super::error::{invalid, lift, Error, Fault, Result};
use super::merge;
use super::merge::{merge_symbols, MergedModel, MergedSymbols};
use super::placement;
use super::placement::{
    table_placements, write_tables, PayloadModel, PlacementReport, TablePayload, TableSlot,
    TableState,
};
use super::relocation::{KindFilter, KindRule, RelocationTable, TableModel};
use super::relocation;
use super::sections;
use super::sections::{metadata_capacity_end, SectionIndices};
use super::symbols::HiddenSymbolReport;
use super::tags::DynamicValues;
use crate::bytes;
use crate::bytes::clear;
use crate::elf::layout;
use crate::elf::layout::LayoutModel;
use crate::elf::read;
use crate::elf::{align_up, usize_from_u64, ElfLayout, LoadSegment, SectionHeader, DT_RELACOUNT, PF_R};
use crate::engine::error;
use crate::fold;
use vstd::prelude::*;

verus! {

/// The merged relocation tables.
#[derive(Debug)]
pub struct MergedRelocations {
    pub rela_dyn: Vec<u8>,
    pub rela_plt: Vec<u8>,
    /// How many relocations at the start of `rela_dyn` are relative to the load base.
    pub relative_count: usize,
}

/// The mathematical content of [`MergedRelocations`].
#[verifier::ext_equal]
pub struct RelocationModel {
    pub rela_dyn: Seq<u8>,
    pub rela_plt: Seq<u8>,
    pub relative_count: usize,
}

impl View for MergedRelocations {
    type V = RelocationModel;

    open spec fn view(&self) -> RelocationModel {
        RelocationModel {
            rela_dyn: self.rela_dyn@,
            rela_plt: self.rela_plt@,
            relative_count: self.relative_count,
        }
    }
}

/// The four relocation tables that are merged.
pub struct RelocationSources {
    pub old_dyn: TableModel,
    pub old_plt: TableModel,
    pub first: TableModel,
    pub second: TableModel,
}

impl RelocationSources {
    /// The tables of an image and of an auxiliary image.
    pub open spec fn of(
        image: Seq<u8>,
        rela_dyn: SectionHeader,
        rela_plt: SectionHeader,
        auxiliary_data: Seq<u8>,
        auxiliary: AuxiliaryElfImage,
        old_symbol_count: usize,
    ) -> RelocationSources {
        let remap = Some((old_symbol_count, auxiliary.dynsym_count));
        RelocationSources {
            old_dyn: TableModel {
                data: image,
                offset: rela_dyn.offset as usize,
                count: (rela_dyn.size / 0x18) as usize,
                remap: None,
            },
            old_plt: TableModel {
                data: image,
                offset: rela_plt.offset as usize,
                count: (rela_plt.size / 0x18) as usize,
                remap: None,
            },
            first: TableModel {
                data: auxiliary_data,
                offset: auxiliary.relocation1_offset as usize,
                count: auxiliary.relocation1_count as usize,
                remap,
            },
            second: TableModel {
                data: auxiliary_data,
                offset: auxiliary.relocation2_offset as usize,
                count: auxiliary.relocation2_count as usize,
                remap,
            },
        }
    }

    /// Every table holds only what it may hold.
    pub open spec fn spec_validate(self) -> Result<()> {
        match self.old_dyn.spec_validate(KindRule::Data, "existing .rela.dyn") {
            Err(e) => Err(e),
            Ok(_) => match self.old_plt.spec_validate(KindRule::Linkage, "existing .rela.plt") {
                Err(e) => Err(e),
                Ok(_) => match self.first.spec_validate(
                    KindRule::Data,
                    "auxiliary relocation table 1",
                ) {
                    Err(e) => Err(e),
                    Ok(_) => self.second.spec_validate(
                        KindRule::RelativeOrLinkage,
                        "auxiliary relocation table 2",
                    ),
                },
            },
        }
    }

    /// The merged tables: relative relocations first.
    pub open spec fn merged(self) -> RelocationModel {
        RelocationModel {
            rela_dyn: self.old_dyn.encoded(KindFilter::Relative, self.old_dyn.count as nat)
                + self.first.encoded(KindFilter::Relative, self.first.count as nat)
                + self.second.encoded(KindFilter::Relative, self.second.count as nat)
                + self.old_dyn.encoded(KindFilter::NotRelative, self.old_dyn.count as nat)
                + self.first.encoded(KindFilter::NotRelative, self.first.count as nat),
            rela_plt: self.old_plt.encoded(KindFilter::Any, self.old_plt.count as nat)
                + self.second.encoded(KindFilter::JumpSlot, self.second.count as nat),
            relative_count: (self.old_dyn.taken_count(KindFilter::Relative)
                + self.first.taken_count(KindFilter::Relative) + self.second.taken_count(
                KindFilter::Relative,
            )) as usize,
        }
    }

    /// The merged tables, or why there are none.
    pub open spec fn spec_merge(self) -> Result<RelocationModel> {
        match self.spec_validate() {
            Err(e) => Err(e),
            Ok(_) => if (self.old_dyn.count + self.first.count + self.second.count) * 0x18
                > usize::MAX {
                Err(error::fault("merged .rela.dyn capacity overflow"))
            } else if (self.old_plt.count + self.second.count) * 0x18 > usize::MAX {
                Err(error::fault("merged .rela.plt capacity overflow"))
            } else {
                Ok(self.merged())
            },
        }
    }
}

/// The relocations of an image merged with those of an auxiliary image, or why they cannot be.
#[verifier::opaque]
pub open spec fn spec_merge_relocations(
    image: Seq<u8>,
    rela_dyn: SectionHeader,
    rela_plt: SectionHeader,
    auxiliary_data: Seq<u8>,
    auxiliary: AuxiliaryElfImage,
    old_symbol_count: usize,
) -> Result<RelocationModel> {
    if rela_dyn.entry_size != 0x18 || rela_plt.entry_size != 0x18 || rela_dyn.size % 0x18 != 0
        || rela_plt.size % 0x18 != 0 {
        Err(error::fault("unexpected relocation entry layout"))
    } else {
        match read::spec_usize_from_u64(rela_dyn.offset, ".rela.dyn offset") {
            Err(e) => Err(Error::Elf(e)),
            Ok(_) => match read::spec_usize_from_u64(
                (rela_dyn.size / 0x18) as u64,
                ".rela.dyn count",
            ) {
                Err(e) => Err(Error::Elf(e)),
                Ok(_) => match read::spec_usize_from_u64(rela_plt.offset, ".rela.plt offset") {
                    Err(e) => Err(Error::Elf(e)),
                    Ok(_) => match read::spec_usize_from_u64(
                        (rela_plt.size / 0x18) as u64,
                        ".rela.plt count",
                    ) {
                        Err(e) => Err(Error::Elf(e)),
                        Ok(_) => RelocationSources::of(
                            image,
                            rela_dyn,
                            rela_plt,
                            auxiliary_data,
                            auxiliary,
                            old_symbol_count,
                        ).spec_merge(),
                    },
                },
            },
        }
    }
}

/// A relocation merge agrees with its mathematical counterpart.
pub open spec fn relocations_agree(
    result: Result<MergedRelocations>,
    expected: Result<RelocationModel>,
) -> bool {
    match (result, expected) {
        (Ok(found), Ok(wanted)) => found@ == wanted,
        (Err(found), Err(wanted)) => found == wanted,
        _ => false,
    }
}

/// Merges four relocation tables.
fn merge_tables(
    old_dyn: &RelocationTable<'_>,
    old_plt: &RelocationTable<'_>,
    first: &RelocationTable<'_>,
    second: &RelocationTable<'_>,
) -> (result: Result<MergedRelocations>)
    ensures
        relocations_agree(
            result,
            (RelocationSources {
                old_dyn: old_dyn@,
                old_plt: old_plt@,
                first: first@,
                second: second@,
            }).spec_merge(),
        ),
{
    old_dyn.validate(KindRule::Data, "existing .rela.dyn")?;
    old_plt.validate(KindRule::Linkage, "existing .rela.plt")?;
    first.validate(KindRule::Data, "auxiliary relocation table 1")?;
    second.validate(KindRule::RelativeOrLinkage, "auxiliary relocation table 2")?;
    let dyn_count: u128 = old_dyn.count as u128 + first.count as u128 + second.count as u128;
    if dyn_count * 0x18 > usize::MAX as u128 {
        return invalid(Fault::Text("merged .rela.dyn capacity overflow"));
    }
    let plt_count: u128 = old_plt.count as u128 + second.count as u128;
    if plt_count * 0x18 > usize::MAX as u128 {
        return invalid(Fault::Text("merged .rela.plt capacity overflow"));
    }
    proof {
        relocation::lemma_encoded_size(old_dyn@, KindFilter::Relative, old_dyn.count as nat);
        relocation::lemma_encoded_size(first@, KindFilter::Relative, first.count as nat);
        relocation::lemma_encoded_size(second@, KindFilter::Relative, second.count as nat);
    }
    let mut rela_dyn: Vec<u8> = Vec::with_capacity(dyn_count as usize * 0x18);
    let from_old = old_dyn.append_where(&mut rela_dyn, KindFilter::Relative)?;
    let from_first = first.append_where(&mut rela_dyn, KindFilter::Relative)?;
    let from_second = second.append_where(&mut rela_dyn, KindFilter::Relative)?;
    old_dyn.append_where(&mut rela_dyn, KindFilter::NotRelative)?;
    first.append_where(&mut rela_dyn, KindFilter::NotRelative)?;
    let mut rela_plt: Vec<u8> = Vec::with_capacity(plt_count as usize * 0x18);
    old_plt.append_where(&mut rela_plt, KindFilter::Any)?;
    second.append_where(&mut rela_plt, KindFilter::JumpSlot)?;
    let relative_count: usize = from_old + from_first + from_second;
    proof {
        let model = (RelocationSources {
            old_dyn: old_dyn@,
            old_plt: old_plt@,
            first: first@,
            second: second@,
        }).merged();
        assert(rela_dyn@ =~= model.rela_dyn);
        assert(rela_plt@ =~= model.rela_plt);
    }
    Ok(MergedRelocations { rela_dyn, rela_plt, relative_count })
}

/// Merges the relocations of an image with those of an auxiliary image.
pub fn merge_relocations(
    image: &[u8],
    rela_dyn: SectionHeader,
    rela_plt: SectionHeader,
    auxiliary_data: &[u8],
    auxiliary: &AuxiliaryElfImage,
    old_symbol_count: usize,
) -> (result: Result<MergedRelocations>)
    ensures
        relocations_agree(
            result,
            spec_merge_relocations(
                image@,
                rela_dyn,
                rela_plt,
                auxiliary_data@,
                *auxiliary,
                old_symbol_count,
            ),
        ),
{
    proof {
        reveal(spec_merge_relocations);
    }
    if rela_dyn.entry_size != 0x18 || rela_plt.entry_size != 0x18 || rela_dyn.size % 0x18 != 0
        || rela_plt.size % 0x18 != 0 {
        return invalid(Fault::Text("unexpected relocation entry layout"));
    }
    let dyn_offset = lift(usize_from_u64(rela_dyn.offset, ".rela.dyn offset"))?;
    let dyn_count = lift(usize_from_u64(rela_dyn.size / 0x18, ".rela.dyn count"))?;
    let plt_offset = lift(usize_from_u64(rela_plt.offset, ".rela.plt offset"))?;
    let plt_count = lift(usize_from_u64(rela_plt.size / 0x18, ".rela.plt count"))?;
    let remap = Some((old_symbol_count, auxiliary.dynsym_count));
    let old_dyn = RelocationTable {
        data: image,
        offset: dyn_offset,
        count: dyn_count,
        remap: None,
    };
    let old_plt = RelocationTable {
        data: image,
        offset: plt_offset,
        count: plt_count,
        remap: None,
    };
    let first = RelocationTable {
        data: auxiliary_data,
        offset: auxiliary.relocation1_offset as usize,
        count: auxiliary.relocation1_count as usize,
        remap,
    };
    let second = RelocationTable {
        data: auxiliary_data,
        offset: auxiliary.relocation2_offset as usize,
        count: auxiliary.relocation2_count as usize,
        remap,
    };
    merge_tables(&old_dyn, &old_plt, &first, &second)
}

/// Where the tables go.
#[derive(Debug)]
pub struct Chosen {
    /// The layout with the segment that holds the tables.
    pub layout: ElfLayout,
    pub start: u64,
    pub placements: Vec<PlacementReport>,
    pub end: u64,
    pub capacity_end: u64,
}

/// The mathematical content of [`Chosen`].
#[verifier::ext_equal]
pub struct ChosenModel {
    pub layout: LayoutModel,
    pub start: u64,
    pub placements: Seq<PlacementReport>,
    pub end: u64,
    pub capacity_end: u64,
}

impl View for Chosen {
    type V = ChosenModel;

    open spec fn view(&self) -> ChosenModel {
        ChosenModel {
            layout: self.layout@,
            start: self.start,
            placements: self.placements@,
            end: self.end,
            capacity_end: self.capacity_end,
        }
    }
}

/// An image, and the outcome of choosing where its tables go.
pub open spec fn chosen_agrees(
    image: Seq<u8>,
    result: Result<Chosen>,
    expected: (Seq<u8>, Result<ChosenModel>),
) -> bool {
    &&& image == expected.0
    &&& match (result, expected.1) {
        (Ok(found), Ok(wanted)) => found@ == wanted,
        (Err(found), Err(wanted)) => found == wanted,
        _ => false,
    }
}

/// The segment that holds tables from `start` to `end`.
pub open spec fn extension_segment(start: u64, end: u64, address: u64, alignment: u64) -> LoadSegment {
    LoadSegment {
        offset: start,
        virtual_address: address,
        file_size: (end - start) as u64,
        memory_size: (end - start) as u64,
        flags: PF_R,
        alignment,
    }
}

/// Puts the tables into a new segment behind the image.
pub open spec fn spec_extend(
    image: Seq<u8>,
    layout: LayoutModel,
    tables: Seq<PayloadModel>,
) -> (Seq<u8>, Result<ChosenModel>) {
    match layout.spec_load_alignment() {
        Err(e) => (image, Err(Error::Elf(e))),
        Ok(alignment) => match layout.spec_additional_program_header_reservation() {
            Err(e) => (image, Err(Error::Elf(e))),
            Ok(reservation) => match layout.spec_private_section() {
                Err(e) => (image, Err(Error::Elf(e))),
                Ok(private) => match read::spec_align_up(private.offset, alignment) {
                    Err(e) => (image, Err(Error::Elf(e))),
                    Ok(start) => if start + reservation > u64::MAX {
                        (image, Err(error::fault("dynamic-table extension start overflow")))
                    } else {
                        spec_extend_at(image, layout, tables, alignment, reservation, start)
                    },
                },
            },
        },
    }
}

/// Puts the tables into a new segment at `start`, behind `reservation` bytes for a moved program
/// header table.
pub open spec fn spec_extend_at(
    image: Seq<u8>,
    layout: LayoutModel,
    tables: Seq<PayloadModel>,
    alignment: u64,
    reservation: usize,
    start: u64,
) -> (Seq<u8>, Result<ChosenModel>) {
    let tables_start = (start + reservation) as u64;
    match placement::spec_table_placements(tables, tables_start) {
        Err(e) => (image, Err(e)),
        Ok(placed) => match layout.spec_load_end() {
            Err(e) => (image, Err(Error::Elf(e))),
            Ok(load_end) => match read::spec_align_up(load_end, alignment) {
                Err(e) => (image, Err(Error::Elf(e))),
                Ok(address) => {
                    let appended = layout.spec_append_load_segment(
                        image,
                        extension_segment(start, placed.end, address, alignment),
                        reservation,
                    );
                    match appended.layout {
                        Err(e) => (appended.image, Err(Error::Elf(e))),
                        Ok(updated) => (
                            appended.image,
                            Ok(
                                ChosenModel {
                                    layout: updated,
                                    start: tables_start,
                                    placements: placed.placements,
                                    end: placed.end,
                                    capacity_end: placed.end,
                                },
                            ),
                        ),
                    }
                },
            },
        },
    }
}

/// Chooses where the tables go: where the symbol table was if there is room, else into a new
/// segment.
#[verifier::opaque]
pub open spec fn spec_choose(
    image: Seq<u8>,
    layout: LayoutModel,
    indices: SectionIndices,
    tables: Seq<PayloadModel>,
) -> (Seq<u8>, Result<ChosenModel>) {
    let start = layout.section_headers[indices.dynsym as int].offset;
    match placement::spec_table_placements(tables, start) {
        Err(e) => (image, Err(e)),
        Ok(placed) => match sections::spec_metadata_capacity_end(layout, indices, start) {
            Err(e) => (image, Err(e)),
            Ok(capacity_end) => if placed.end <= capacity_end {
                (
                    image,
                    Ok(
                        ChosenModel {
                            layout,
                            start,
                            placements: placed.placements,
                            end: placed.end,
                            capacity_end,
                        },
                    ),
                )
            } else {
                spec_extend(image, layout, tables)
            },
        },
    }
}

/// A table list grows its layout only upwards.
pub proof fn lemma_placed_end(tables: Seq<PayloadModel>, start: u64, n: nat)
    ensures
        fold::try_fold(
            n,
            placement::Placed { placements: Seq::empty(), end: start },
            placement::place_step(tables),
        ) matches Ok(placed) ==> placed.end >= start && placed.placements.len() == n,
    decreases n,
{
    if n > 0 {
        lemma_placed_end(tables, start, (n - 1) as nat);
        let before = fold::try_fold(
            (n - 1) as nat,
            placement::Placed { placements: Seq::empty(), end: start },
            placement::place_step(tables),
        );
        if let Ok(placed) = before {
            read::lemma_aligned(
                placed.end as int,
                tables[n - 1].slot.spec_alignment() as int,
            );
        }
    }
}

/// Puts the tables into a new segment behind the image.
fn extend_image(output: &mut [u8], layout: &ElfLayout, tables: &[TablePayload]) -> (result: Result<
    Chosen,
>)
    ensures
        chosen_agrees(
            final(output)@,
            result,
            spec_extend(old(output)@, layout@, placement::payloads(tables@)),
        ),
        result matches Ok(chosen) ==> chosen.placements@.len() == tables@.len(),
{
    let alignment = lift(layout.load_alignment())?;
    let reservation = lift(layout.additional_program_header_reservation())?;
    let private = lift(layout.private_section())?;
    let start = lift(align_up(private.offset, alignment))?;
    let tables_start = match start.checked_add(reservation as u64) {
        Some(tables_start) => tables_start,
        None => return invalid(Fault::Text("dynamic-table extension start overflow")),
    };
    let (placements, end) = table_placements(tables, tables_start)?;
    proof {
        lemma_placed_end(placement::payloads(tables@), tables_start, tables@.len());
    }
    let load_end = lift(layout.load_end())?;
    let address = lift(align_up(load_end, alignment))?;
    let segment = LoadSegment {
        offset: start,
        virtual_address: address,
        file_size: end - start,
        memory_size: end - start,
        flags: PF_R,
        alignment,
    };
    let updated = match layout.append_load_segment(output, segment, reservation) {
        Ok(updated) => updated,
        Err(e) => return Err(Error::Elf(e)),
    };
    Ok(Chosen { layout: updated, start: tables_start, placements, end, capacity_end: end })
}

/// Chooses where the tables go.
fn choose_placement(
    output: &mut [u8],
    layout: &ElfLayout,
    indices: &SectionIndices,
    tables: &[TablePayload],
) -> (result: Result<Chosen>)
    requires
        indices.below(layout.section_headers@.len() as int),
    ensures
        chosen_agrees(
            final(output)@,
            result,
            spec_choose(old(output)@, layout@, *indices, placement::payloads(tables@)),
        ),
        result matches Ok(chosen) ==> chosen.placements@.len() == tables@.len()
            && sections::spec_metadata_capacity_end(
            layout@,
            *indices,
            layout@.section_headers[indices.dynsym as int].offset,
        ) is Ok,
{
    proof {
        reveal(spec_choose);
    }
    let start = layout.section_headers[indices.dynsym].offset;
    let (placements, end) = table_placements(tables, start)?;
    proof {
        lemma_placed_end(placement::payloads(tables@), start, tables@.len());
    }
    let capacity_end = metadata_capacity_end(layout, indices, start)?;
    if end <= capacity_end {
        return Ok(Chosen { layout: layout.clone(), start, placements, end, capacity_end });
    }
    extend_image(output, layout, tables)
}

/// The image with the bytes of `start..end` cleared, or why they cannot be.
pub open spec fn spec_clear_range(
    image: Seq<u8>,
    start: u64,
    end: u64,
    start_field: &'static str,
    end_field: &'static str,
    message: &'static str,
) -> (Seq<u8>, Result<()>) {
    match read::spec_usize_from_u64(start, start_field) {
        Err(e) => (image, Err(Error::Elf(e))),
        Ok(from) => match read::spec_usize_from_u64(end, end_field) {
            Err(e) => (image, Err(Error::Elf(e))),
            Ok(to) => if from > to || to > image.len() {
                (image, Err(error::fault(message)))
            } else {
                (
                    bytes::overwrite(image, from as int, bytes::zeros((to - from) as nat)),
                    Ok(()),
                )
            },
        },
    }
}

/// Clears the bytes of `start..end`.
fn clear_range(
    output: &mut [u8],
    start: u64,
    end: u64,
    start_field: &'static str,
    end_field: &'static str,
    message: &'static str,
) -> (result: Result<()>)
    ensures
        (final(output)@, result) == spec_clear_range(
            old(output)@,
            start,
            end,
            start_field,
            end_field,
            message,
        ),
{
    let from = lift(usize_from_u64(start, start_field))?;
    let to = lift(usize_from_u64(end, end_field))?;
    if from > to || to > output.len() {
        return invalid(Fault::Text(message));
    }
    clear(output, from, to);
    Ok(())
}

/// Clears where the tables were and, if they move, where they go.
pub open spec fn spec_clear_tables(
    image: Seq<u8>,
    old_start: u64,
    old_end: u64,
    new_start: u64,
    new_end: u64,
) -> (Seq<u8>, Result<()>) {
    let (cleared, outcome) = spec_clear_range(
        image,
        old_start,
        old_end,
        "metadata start",
        "metadata capacity end",
        "metadata capacity exceeds output mapping",
    );
    match outcome {
        Err(e) => (cleared, Err(e)),
        Ok(_) => if new_start == old_start {
            (cleared, Ok(()))
        } else {
            spec_clear_range(
                cleared,
                new_start,
                new_end,
                "dynamic-table extension start",
                "dynamic-table extension end",
                "dynamic-table extension exceeds output mapping",
            )
        },
    }
}

/// Clears where the tables were and, if they move, where they go.
fn clear_tables(output: &mut [u8], old_start: u64, old_end: u64, new_start: u64, new_end: u64) -> (result:
    Result<()>)
    ensures
        (final(output)@, result) == spec_clear_tables(
            old(output)@,
            old_start,
            old_end,
            new_start,
            new_end,
        ),
{
    clear_range(
        output,
        old_start,
        old_end,
        "metadata start",
        "metadata capacity end",
        "metadata capacity exceeds output mapping",
    )?;
    if new_start != old_start {
        return clear_range(
            output,
            new_start,
            new_end,
            "dynamic-table extension start",
            "dynamic-table extension end",
            "dynamic-table extension exceeds output mapping",
        );
    }
    Ok(())
}

/// Where one of the rebuilt tables was put.
#[derive(Debug, Clone, Copy, PartialEq, Eq, Structural)]
pub struct TablePlacement {
    pub slot: TableSlot,
    pub place: PlacementReport,
}

/// What rebuilding the dynamic-linker tables did.
#[derive(Debug, PartialEq, Eq)]
pub struct ElfMaterializationReport {
    pub hidden_symbols: HiddenSymbolReport,
    pub old_symbol_count: usize,
    pub auxiliary_symbol_count: u32,
    pub appended_symbols: usize,
    pub new_symbol_count: usize,
    pub old_dynstr_size: usize,
    pub auxiliary_dynstr_size: u32,
    pub new_dynstr_size: usize,
    pub rela_dyn_count: usize,
    pub rela_plt_count: usize,
    pub relative_prefix_count: usize,
    pub metadata_start: u64,
    pub metadata_end: u64,
    pub metadata_capacity_end: u64,
    pub metadata_slack: u64,
    pub placements: Vec<TablePlacement>,
}

/// The mathematical content of an [`ElfMaterializationReport`].
#[verifier::ext_equal]
pub struct ReportModel {
    pub hidden_symbols: HiddenSymbolReport,
    pub old_symbol_count: usize,
    pub auxiliary_symbol_count: u32,
    pub appended_symbols: usize,
    pub new_symbol_count: usize,
    pub old_dynstr_size: usize,
    pub auxiliary_dynstr_size: u32,
    pub new_dynstr_size: usize,
    pub rela_dyn_count: usize,
    pub rela_plt_count: usize,
    pub relative_prefix_count: usize,
    pub metadata_start: u64,
    pub metadata_end: u64,
    pub metadata_capacity_end: u64,
    pub metadata_slack: u64,
    pub placements: Seq<TablePlacement>,
}

impl View for ElfMaterializationReport {
    type V = ReportModel;

    open spec fn view(&self) -> ReportModel {
        ReportModel {
            hidden_symbols: self.hidden_symbols,
            old_symbol_count: self.old_symbol_count,
            auxiliary_symbol_count: self.auxiliary_symbol_count,
            appended_symbols: self.appended_symbols,
            new_symbol_count: self.new_symbol_count,
            old_dynstr_size: self.old_dynstr_size,
            auxiliary_dynstr_size: self.auxiliary_dynstr_size,
            new_dynstr_size: self.new_dynstr_size,
            rela_dyn_count: self.rela_dyn_count,
            rela_plt_count: self.rela_plt_count,
            relative_prefix_count: self.relative_prefix_count,
            metadata_start: self.metadata_start,
            metadata_end: self.metadata_end,
            metadata_capacity_end: self.metadata_capacity_end,
            metadata_slack: self.metadata_slack,
            placements: self.placements@,
        }
    }
}

/// The rebuilt tables in the order in which they are laid out.
pub open spec fn tables_of(
    merged: MergedModel,
    relocations: RelocationModel,
    gnu_hash: Option<Seq<u8>>,
    sysv_hash: Option<Seq<u8>>,
) -> Seq<PayloadModel> {
    let start = seq![
        PayloadModel { slot: TableSlot::Dynsym, data: merged.symbols },
        PayloadModel { slot: TableSlot::Versym, data: merged.versions },
        PayloadModel { slot: TableSlot::Verneed, data: merged.version_requirements },
    ];
    let with_gnu = match gnu_hash {
        Some(data) => start.push(PayloadModel { slot: TableSlot::GnuHash, data }),
        None => start,
    };
    let with_sysv = match sysv_hash {
        Some(data) => with_gnu.push(PayloadModel { slot: TableSlot::SysvHash, data }),
        None => with_gnu,
    };
    with_sysv.push(PayloadModel { slot: TableSlot::Dynstr, data: merged.strings }).push(
        PayloadModel { slot: TableSlot::RelaDyn, data: relocations.rela_dyn },
    ).push(PayloadModel { slot: TableSlot::RelaPlt, data: relocations.rela_plt })
}

/// The values of the dynamic tags for the rebuilt tables.
pub open spec fn dynamic_values(
    headers: Seq<SectionHeader>,
    indices: SectionIndices,
    strings_size: nat,
    relocations: RelocationModel,
    counts_relative: bool,
) -> DynamicValues {
    DynamicValues {
        pltrelsz: Some(relocations.rela_plt.len() as u64),
        hash: match indices.hash {
            Some(index) => Some(headers[index as int].address),
            None => None,
        },
        strtab: Some(headers[indices.dynstr as int].address),
        symtab: Some(headers[indices.dynsym as int].address),
        rela: Some(headers[indices.rela_dyn as int].address),
        relasz: Some(relocations.rela_dyn.len() as u64),
        strsz: Some(strings_size as u64),
        jmprel: Some(headers[indices.rela_plt as int].address),
        gnu_hash: match indices.gnu_hash {
            Some(index) => Some(headers[index as int].address),
            None => None,
        },
        versym: Some(headers[indices.versym as int].address),
        relacount: if counts_relative {
            Some(relocations.relative_count as u64)
        } else {
            None
        },
        verneed: Some(headers[indices.verneed as int].address),
    }
}

/// Points the dynamic table to the rebuilt tables.
pub open spec fn spec_link(
    image: Seq<u8>,
    headers: Seq<SectionHeader>,
    table: SectionHeader,
    indices: SectionIndices,
    strings_size: nat,
    relocations: RelocationModel,
) -> (Seq<u8>, Result<()>) {
    match dynamic::spec_contains_tag(image, table, DT_RELACOUNT) {
        Err(e) => (image, Err(e)),
        Ok(counts_relative) => dynamic::spec_patch_dynamic_tags(
            image,
            table,
            dynamic_values(headers, indices, strings_size, relocations, counts_relative),
        ),
    }
}

/// The report on rebuilt tables.
pub open spec fn report_of(
    merged: MergedModel,
    relocations: RelocationModel,
    tables: Seq<PayloadModel>,
    chosen: ChosenModel,
) -> ReportModel {
    ReportModel {
        hidden_symbols: merged.hidden_symbols,
        old_symbol_count: merged.old_symbol_count,
        auxiliary_symbol_count: merged.auxiliary.dynsym_count,
        appended_symbols: (merged.auxiliary.dynsym_count - 1) as usize,
        new_symbol_count: merged.names.len() as usize,
        old_dynstr_size: merged.old_dynstr_size,
        auxiliary_dynstr_size: merged.auxiliary.dynstr_size,
        new_dynstr_size: merged.strings.len() as usize,
        rela_dyn_count: (relocations.rela_dyn.len() / 0x18) as usize,
        rela_plt_count: (relocations.rela_plt.len() / 0x18) as usize,
        relative_prefix_count: relocations.relative_count,
        metadata_start: chosen.start,
        metadata_end: chosen.end,
        metadata_capacity_end: chosen.capacity_end,
        metadata_slack: if chosen.capacity_end >= chosen.end {
            (chosen.capacity_end - chosen.end) as u64
        } else {
            0
        },
        placements: Seq::new(
            tables.len(),
            |i: int| TablePlacement { slot: tables[i].slot, place: chosen.placements[i] },
        ),
    }
}

/// Rebuilt tables: the layout that knows their places, the report, and where the image's data
/// ends.
#[derive(Debug)]
pub struct Materialized {
    pub layout: ElfLayout,
    pub report: ElfMaterializationReport,
    pub data_end: u64,
}

/// The mathematical content of [`Materialized`].
#[verifier::ext_equal]
pub struct MaterializedModel {
    pub layout: LayoutModel,
    pub report: ReportModel,
    pub data_end: u64,
}

impl View for Materialized {
    type V = MaterializedModel;

    open spec fn view(&self) -> MaterializedModel {
        MaterializedModel {
            layout: self.layout@,
            report: self.report@,
            data_end: self.data_end,
        }
    }
}

/// Writes chosen tables and points the image to them.
#[verifier::opaque]
pub open spec fn spec_install(
    image: Seq<u8>,
    layout: LayoutModel,
    merged: MergedModel,
    relocations: RelocationModel,
    tables: Seq<PayloadModel>,
    chosen: ChosenModel,
) -> (Seq<u8>, Result<MaterializedModel>) {
    let indices = merged.indices;
    let old_start = layout.section_headers[indices.dynsym as int].offset;
    let old_end = sections::spec_metadata_capacity_end(layout, indices, old_start)->Ok_0;
    let (cleared, outcome) = spec_clear_tables(image, old_start, old_end, chosen.start, chosen.end);
    match outcome {
        Err(e) => (cleared, Err(e)),
        Ok(_) => {
            let written = placement::write_many(
                TableState { image: cleared, sections: layout.section_headers, failure: None },
                chosen.layout,
                indices,
                tables,
                chosen.placements,
                tables.len(),
            );
            match written.failure {
                Some(e) => (written.image, Err(e)),
                None => {
                    let (linked, outcome) = spec_link(
                        written.image,
                        written.sections,
                        layout.section_headers[indices.dynamic as int],
                        indices,
                        merged.strings.len(),
                        relocations,
                    );
                    match outcome {
                        Err(e) => (linked, Err(e)),
                        Ok(_) => (
                            linked,
                            Ok(
                                MaterializedModel {
                                    layout: LayoutModel {
                                        section_headers: written.sections,
                                        ..chosen.layout
                                    },
                                    report: report_of(merged, relocations, tables, chosen),
                                    data_end: if chosen.start == old_start {
                                        layout.spec_private_section()->Ok_0.offset
                                    } else {
                                        chosen.end
                                    },
                                },
                            ),
                        ),
                    }
                },
            }
        },
    }
}

/// Rebuilds the dynamic-linker tables of `image`, given the merged symbols and the hash tables
/// over their names.
pub open spec fn spec_materialize(
    image: Seq<u8>,
    layout: LayoutModel,
    merged: MergedModel,
    gnu_hash: Option<Seq<u8>>,
    sysv_hash: Option<Seq<u8>>,
    auxiliary_data: Seq<u8>,
) -> (Seq<u8>, Result<MaterializedModel>) {
    let headers = layout.section_headers;
    match spec_merge_relocations(
        image,
        headers[merged.indices.rela_dyn as int],
        headers[merged.indices.rela_plt as int],
        auxiliary_data,
        merged.auxiliary,
        merged.old_symbol_count,
    ) {
        Err(e) => (image, Err(e)),
        Ok(relocations) => {
            let tables = tables_of(merged, relocations, gnu_hash, sysv_hash);
            let (prepared, outcome) = spec_choose(image, layout, merged.indices, tables);
            match outcome {
                Err(e) => (prepared, Err(e)),
                Ok(chosen) => spec_install(prepared, layout, merged, relocations, tables, chosen),
            }
        },
    }
}

/// The content of an optional byte vector.
pub open spec fn optional_bytes(data: Option<Vec<u8>>) -> Option<Seq<u8>> {
    match data {
        Some(bytes) => Some(bytes@),
        None => None,
    }
}

/// The rebuilt tables and what else of the merged symbols is still needed.
struct Assembled {
    tables: Vec<TablePayload>,
    strings_size: usize,
    dyn_size: usize,
    plt_size: usize,
    relative_count: usize,
}

/// Computes the values of the dynamic tags.
fn link_values(
    headers: &[SectionHeader],
    indices: &SectionIndices,
    assembled: &Assembled,
    counts_relative: bool,
    Ghost(relocations): Ghost<RelocationModel>,
) -> (values: DynamicValues)
    requires
        indices.below(headers@.len() as int),
        assembled.dyn_size == relocations.rela_dyn.len(),
        assembled.plt_size == relocations.rela_plt.len(),
        assembled.relative_count == relocations.relative_count,
    ensures
        values == dynamic_values(
            headers@,
            *indices,
            assembled.strings_size as nat,
            relocations,
            counts_relative,
        ),
{
    DynamicValues {
        pltrelsz: Some(assembled.plt_size as u64),
        hash: match indices.hash {
            Some(index) => Some(headers[index].address),
            None => None,
        },
        strtab: Some(headers[indices.dynstr].address),
        symtab: Some(headers[indices.dynsym].address),
        rela: Some(headers[indices.rela_dyn].address),
        relasz: Some(assembled.dyn_size as u64),
        strsz: Some(assembled.strings_size as u64),
        jmprel: Some(headers[indices.rela_plt].address),
        gnu_hash: match indices.gnu_hash {
            Some(index) => Some(headers[index].address),
            None => None,
        },
        versym: Some(headers[indices.versym].address),
        relacount: if counts_relative {
            Some(assembled.relative_count as u64)
        } else {
            None
        },
        verneed: Some(headers[indices.verneed].address),
    }
}

/// Points the dynamic table to the rebuilt tables.
fn link_tables(
    output: &mut [u8],
    headers: &[SectionHeader],
    table: SectionHeader,
    indices: &SectionIndices,
    assembled: &Assembled,
    Ghost(relocations): Ghost<RelocationModel>,
) -> (result: Result<()>)
    requires
        indices.below(headers@.len() as int),
        assembled.dyn_size == relocations.rela_dyn.len(),
        assembled.plt_size == relocations.rela_plt.len(),
        assembled.relative_count == relocations.relative_count,
    ensures
        (final(output)@, result) == spec_link(
            old(output)@,
            headers@,
            table,
            *indices,
            assembled.strings_size as nat,
            relocations,
        ),
{
    let counts_relative = dynamic_contains_tag(output, table, DT_RELACOUNT)?;
    let values = link_values(headers, indices, assembled, counts_relative, Ghost(relocations));
    patch_dynamic_tags(output, table, &values)
}

/// Lists where the tables were put.
fn list_placements(tables: &[TablePayload], placements: &[PlacementReport]) -> (list: Vec<
    TablePlacement,
>)
    requires
        tables@.len() == placements@.len(),
    ensures
        list@ == Seq::new(
            tables@.len(),
            |i: int|
                TablePlacement {
                    slot: placement::payloads(tables@)[i].slot,
                    place: placements@[i],
                },
        ),
{
    let mut list: Vec<TablePlacement> = Vec::with_capacity(tables.len());
    let mut i: usize = 0;
    while i < tables.len()
        invariant
            i <= tables@.len(),
            tables@.len() == placements@.len(),
            list@.len() == i,
            forall|k: int|
                0 <= k < i ==> #[trigger] list@[k] == (TablePlacement {
                    slot: placement::payloads(tables@)[k].slot,
                    place: placements@[k],
                }),
        decreases tables@.len() - i,
    {
        list.push(TablePlacement { slot: tables[i].slot, place: placements[i] });
        i += 1;
    }
    list
}

/// The outcome of rebuilding tables agrees with its mathematical counterpart.
pub open spec fn materialized_agrees(
    image: Seq<u8>,
    result: Result<Materialized>,
    expected: (Seq<u8>, Result<MaterializedModel>),
) -> bool {
    &&& image == expected.0
    &&& match (result, expected.1) {
        (Ok(found), Ok(wanted)) => found@ == wanted,
        (Err(found), Err(wanted)) => found == wanted,
        _ => false,
    }
}

/// The symbols' facts that go into the report.
#[derive(Clone, Copy)]
struct SymbolFacts {
    indices: SectionIndices,
    auxiliary: AuxiliaryElfImage,
    hidden_symbols: HiddenSymbolReport,
    old_symbol_count: usize,
    old_dynstr_size: usize,
    new_symbol_count: usize,
}

impl SymbolFacts {
    /// The facts are those of the merged symbols.
    spec fn of(self, merged: MergedModel) -> bool {
        &&& self.indices == merged.indices
        &&& self.auxiliary == merged.auxiliary
        &&& self.hidden_symbols == merged.hidden_symbols
        &&& self.old_symbol_count == merged.old_symbol_count
        &&& self.old_dynstr_size == merged.old_dynstr_size
        &&& self.new_symbol_count == merged.names.len()
    }
}

/// Writes chosen tables and points the image to them.
fn install(
    output: &mut [u8],
    layout: &ElfLayout,
    facts: SymbolFacts,
    assembled: Assembled,
    chosen: Chosen,
    Ghost(merged): Ghost<MergedModel>,
    Ghost(relocations): Ghost<RelocationModel>,
) -> (result: Result<Materialized>)
    requires
        facts.of(merged),
        facts.auxiliary.dynsym_count > 0,
        facts.indices.below(layout.section_headers@.len() as int),
        assembled.strings_size == merged.strings.len(),
        assembled.dyn_size == relocations.rela_dyn.len(),
        assembled.plt_size == relocations.rela_plt.len(),
        assembled.relative_count == relocations.relative_count,
        placement::have_sections(
            placement::payloads(assembled.tables@),
            facts.indices,
            layout.section_headers@.len() as int,
        ),
        chosen.placements@.len() == assembled.tables@.len(),
        sections::spec_metadata_capacity_end(
            layout@,
            facts.indices,
            layout@.section_headers[facts.indices.dynsym as int].offset,
        ) is Ok,
    ensures
        materialized_agrees(
            final(output)@,
            result,
            spec_install(
                old(output)@,
                layout@,
                merged,
                relocations,
                placement::payloads(assembled.tables@),
                chosen@,
            ),
        ),
{
    proof {
        reveal(spec_install);
    }
    let indices = facts.indices;
    let old_start = layout.section_headers[indices.dynsym].offset;
    let old_end = metadata_capacity_end(layout, &indices, old_start)?;
    clear_tables(output, old_start, old_end, chosen.start, chosen.end)?;
    let headers = write_tables(
        output,
        &chosen.layout,
        &indices,
        &assembled.tables,
        &chosen.placements,
        &layout.section_headers,
    )?;
    let table = layout.section_headers[indices.dynamic];
    link_tables(output, &headers, table, &indices, &assembled, Ghost(relocations))?;
    let data_end = if chosen.start == old_start {
        lift(layout.private_section())?.offset
    } else {
        chosen.end
    };
    let report = ElfMaterializationReport {
        hidden_symbols: facts.hidden_symbols,
        old_symbol_count: facts.old_symbol_count,
        auxiliary_symbol_count: facts.auxiliary.dynsym_count,
        appended_symbols: facts.auxiliary.dynsym_count as usize - 1,
        new_symbol_count: facts.new_symbol_count,
        old_dynstr_size: facts.old_dynstr_size,
        auxiliary_dynstr_size: facts.auxiliary.dynstr_size,
        new_dynstr_size: assembled.strings_size,
        rela_dyn_count: assembled.dyn_size / 0x18,
        rela_plt_count: assembled.plt_size / 0x18,
        relative_prefix_count: assembled.relative_count,
        metadata_start: chosen.start,
        metadata_end: chosen.end,
        metadata_capacity_end: chosen.capacity_end,
        metadata_slack: if chosen.capacity_end >= chosen.end {
            chosen.capacity_end - chosen.end
        } else {
            0
        },
        placements: list_placements(&assembled.tables, &chosen.placements),
    };
    let mut restored = chosen.layout;
    restored.section_headers = headers;
    Ok(Materialized { layout: restored, report, data_end })
}

/// Puts the rebuilt tables in order.
fn assemble(
    symbols: Vec<u8>,
    versions: Vec<u8>,
    version_requirements: Vec<u8>,
    gnu_hash: Option<Vec<u8>>,
    sysv_hash: Option<Vec<u8>>,
    strings: Vec<u8>,
    relocations: MergedRelocations,
    Ghost(merged): Ghost<MergedModel>,
) -> (assembled: Assembled)
    requires
        merged.symbols == symbols@,
        merged.versions == versions@,
        merged.version_requirements == version_requirements@,
        merged.strings == strings@,
    ensures
        placement::payloads(assembled.tables@) == tables_of(
            merged,
            relocations@,
            optional_bytes(gnu_hash),
            optional_bytes(sysv_hash),
        ),
        assembled.strings_size == merged.strings.len(),
        assembled.dyn_size == relocations@.rela_dyn.len(),
        assembled.plt_size == relocations@.rela_plt.len(),
        assembled.relative_count == relocations@.relative_count,
{
    let strings_size: usize = strings.len();
    let dyn_size: usize = relocations.rela_dyn.len();
    let plt_size: usize = relocations.rela_plt.len();
    let relative_count: usize = relocations.relative_count;
    let ghost gnu = optional_bytes(gnu_hash);
    let ghost sysv = optional_bytes(sysv_hash);
    let mut tables: Vec<TablePayload> = Vec::with_capacity(8);
    tables.push(TablePayload { slot: TableSlot::Dynsym, data: symbols });
    tables.push(TablePayload { slot: TableSlot::Versym, data: versions });
    tables.push(TablePayload { slot: TableSlot::Verneed, data: version_requirements });
    if let Some(data) = gnu_hash {
        tables.push(TablePayload { slot: TableSlot::GnuHash, data });
    }
    if let Some(data) = sysv_hash {
        tables.push(TablePayload { slot: TableSlot::SysvHash, data });
    }
    tables.push(TablePayload { slot: TableSlot::Dynstr, data: strings });
    tables.push(TablePayload { slot: TableSlot::RelaDyn, data: relocations.rela_dyn });
    tables.push(TablePayload { slot: TableSlot::RelaPlt, data: relocations.rela_plt });
    assert(placement::payloads(tables@) =~= tables_of(merged, relocations@, gnu, sysv));
    Assembled { tables, strings_size, dyn_size, plt_size, relative_count }
}

/// The rebuilt tables belong to sections that the image has.
proof fn lemma_tables_have_sections(
    merged: MergedModel,
    relocations: RelocationModel,
    gnu_hash: Option<Seq<u8>>,
    sysv_hash: Option<Seq<u8>>,
    count: int,
)
    requires
        merged.indices.below(count),
        gnu_hash is Some ==> merged.indices.gnu_hash is Some,
        sysv_hash is Some ==> merged.indices.hash is Some,
    ensures
        placement::have_sections(
            tables_of(merged, relocations, gnu_hash, sysv_hash),
            merged.indices,
            count,
        ),
{
}

/// Rebuilds the dynamic-linker tables of an image from merged symbols. `merged` holds the symbols;
/// `gnu_hash` and `sysv_hash` are the hash tables over their names, as far as the image has a
/// section for them.
fn install_merged_tables(
    output: &mut [u8],
    layout: &ElfLayout,
    merged: MergedSymbols,
    gnu_hash: Option<Vec<u8>>,
    sysv_hash: Option<Vec<u8>>,
    auxiliary_data: &[u8],
) -> (result: Result<Materialized>)
    requires
        merged.indices.below(layout.section_headers@.len() as int),
        merged.auxiliary.dynsym_count > 0,
        gnu_hash is Some <==> merged.indices.gnu_hash is Some,
        sysv_hash is Some <==> merged.indices.hash is Some,
    ensures
        materialized_agrees(
            final(output)@,
            result,
            spec_materialize(
                old(output)@,
                layout@,
                merged@,
                optional_bytes(gnu_hash),
                optional_bytes(sysv_hash),
                auxiliary_data@,
            ),
        ),
{
    let ghost model = merged@;
    let facts = SymbolFacts {
        indices: merged.indices,
        auxiliary: merged.auxiliary,
        hidden_symbols: merged.hidden_symbols,
        old_symbol_count: merged.old_symbol_count,
        old_dynstr_size: merged.old_dynstr_size,
        new_symbol_count: merged.names.len(),
    };
    let relocations = merge_relocations(
        output,
        layout.section_headers[facts.indices.rela_dyn],
        layout.section_headers[facts.indices.rela_plt],
        auxiliary_data,
        &facts.auxiliary,
        facts.old_symbol_count,
    )?;
    let ghost relocation_model = relocations@;
    let assembled = assemble(
        merged.symbols,
        merged.versions,
        merged.version_requirements,
        gnu_hash,
        sysv_hash,
        merged.strings,
        relocations,
        Ghost(model),
    );
    proof {
        lemma_tables_have_sections(
            model,
            relocation_model,
            optional_bytes(gnu_hash),
            optional_bytes(sysv_hash),
            layout.section_headers@.len() as int,
        );
    }
    let chosen = choose_placement(output, layout, &facts.indices, &assembled.tables)?;
    install(
        output,
        layout,
        facts,
        assembled,
        chosen,
        Ghost(model),
        Ghost(relocation_model),
    )
}

/// A hash table, where the image has a section for it.
pub open spec fn if_present(section: Option<usize>, table: Seq<u8>) -> Option<Seq<u8>> {
    if section is Some {
        Some(table)
    } else {
        None
    }
}

/// Merges the symbols of `image` with those of an auxiliary image and rebuilds its dynamic-linker
/// tables.
pub open spec fn spec_rebuild(
    image: Seq<u8>,
    source: Seq<u8>,
    layout: LayoutModel,
    patch_data: Seq<u8>,
    auxiliary_data: Seq<u8>,
    gnu_hash: Seq<u8>,
    sysv_hash: Seq<u8>,
) -> (Seq<u8>, Result<MaterializedModel>) {
    match merge::spec_merge_symbols(image, source, layout, patch_data, auxiliary_data) {
        Err(e) => (image, Err(e)),
        Ok(merged) => spec_materialize(
            image,
            layout,
            merged,
            if_present(merged.indices.gnu_hash, gnu_hash),
            if_present(merged.indices.hash, sysv_hash),
            auxiliary_data,
        ),
    }
}

/// Rebuilds the dynamic-linker tables of a restored image: its symbols are merged with those of an
/// auxiliary image, its relocations likewise, and the tables are placed where there is room for
/// them. `gnu_hash` and `sysv_hash` are the hash tables over the names of the merged symbols; each
/// is used if the image has a section for it.
pub fn materialize_static_elf_tables(
    output: &mut [u8],
    source: &[u8],
    layout: &ElfLayout,
    symbol_patch_data: &[u8],
    auxiliary_data: &[u8],
    gnu_hash: Vec<u8>,
    sysv_hash: Vec<u8>,
) -> (result: Result<Materialized>)
    ensures
        materialized_agrees(
            final(output)@,
            result,
            spec_rebuild(
                old(output)@,
                source@,
                layout@,
                symbol_patch_data@,
                auxiliary_data@,
                gnu_hash@,
                sysv_hash@,
            ),
        ),
{
    let merged = merge_symbols(output, source, layout, symbol_patch_data, auxiliary_data)?;
    let gnu = if merged.indices.gnu_hash.is_some() {
        Some(gnu_hash)
    } else {
        None
    };
    let sysv = if merged.indices.hash.is_some() {
        Some(sysv_hash)
    } else {
        None
    };
    install_merged_tables(output, layout, merged, gnu, sysv, auxiliary_data)
}

} // verus!
