//! Where rebuilt tables go, what is cleared for them, and what is reported.

use super::finalize;
use super::finalize::ExpectedCounts;
use super::materialize;
use super::materialize::{ChosenModel, RelocationModel};
use super::merge;
use super::merge::MergedModel;
use super::placement;
use super::placement::{PayloadModel, TableSlot, TableState};
use super::restore;
use super::restore::TableInputs;
use super::section_laws::{lemma_up, up};
use super::sections;
use super::sections::SectionIndices;
use crate::elf::layout::LayoutModel;
use crate::elf::read;
use crate::elf::LoadSegment;
use crate::fold;
use vstd::prelude::*;

verus! {

/// Tables go to where the symbol table was exactly when they end within the room there, and then
/// neither the image nor its layout changes.
pub proof fn law_tables_stay_where_there_is_room(
    image: Seq<u8>,
    layout: LayoutModel,
    found: SectionIndices,
    tables: Seq<PayloadModel>,
)
    ensures
        ({
            let start = layout.section_headers[found.dynsym as int].offset;
            let placed = placement::spec_table_placements(tables, start);
            let room = sections::spec_metadata_capacity_end(layout, found, start);
            let (after, outcome) = materialize::spec_choose(image, layout, found, tables);
            &&& outcome is Ok ==> placed is Ok && room is Ok
            &&& placed is Ok && room is Ok && placed->Ok_0.end <= room->Ok_0 ==> {
                &&& outcome is Ok
                &&& after == image
                &&& outcome->Ok_0.layout == layout
                &&& outcome->Ok_0.start == start
                &&& outcome->Ok_0.placements == placed->Ok_0.placements
                &&& outcome->Ok_0.end == placed->Ok_0.end
                &&& outcome->Ok_0.capacity_end == room->Ok_0
            }
        }),
{
    reveal(materialize::spec_choose);
}

/// Tables for which there is no room go into a new readable segment behind the image. In the file
/// it starts at the next multiple of the largest alignment behind the private section's start, in
/// memory at the next multiple behind the last segment's end, and it holds what a moved program
/// header table needs and then the tables.
pub proof fn law_other_tables_get_a_segment(
    image: Seq<u8>,
    layout: LayoutModel,
    found: SectionIndices,
    tables: Seq<PayloadModel>,
)
    requires
        ({
            let start = layout.section_headers[found.dynsym as int].offset;
            let placed = placement::spec_table_placements(tables, start);
            let room = sections::spec_metadata_capacity_end(layout, found, start);
            placed is Ok && room is Ok && placed->Ok_0.end > room->Ok_0
        }),
        materialize::spec_choose(image, layout, found, tables).1 is Ok,
    ensures
        ({
            let (after, outcome) = materialize::spec_choose(image, layout, found, tables);
            let chosen = outcome->Ok_0;
            let segment = chosen.layout.program_headers.last();
            let alignment = layout.spec_load_alignment()->Ok_0 as int;
            let private = layout.section_headers[layout.private_section_index as int];
            let reserved = layout.spec_additional_program_header_reservation()->Ok_0;
            let placed = placement::spec_table_placements(tables, chosen.start);
            &&& chosen.layout.program_headers == layout.program_headers.push(segment)
            &&& segment.offset == up(private.offset as int, alignment)
            &&& segment.virtual_address == up(layout.spec_load_end()->Ok_0 as int, alignment)
            &&& segment.alignment == alignment
            &&& segment.flags == 4
            &&& segment.offset + segment.file_size == chosen.end
            &&& segment.memory_size == segment.file_size
            &&& chosen.start == segment.offset + reserved
            &&& placed is Ok
            &&& placed->Ok_0.placements == chosen.placements
            &&& placed->Ok_0.end == chosen.end
            &&& chosen.capacity_end == chosen.end
            &&& after == layout.spec_append_load_segment(image, segment, reserved).image
        }),
{
    reveal(materialize::spec_choose);
    let alignment = layout.spec_load_alignment()->Ok_0;
    let private = layout.section_headers[layout.private_section_index as int];
    lemma_up(private.offset, alignment);
    lemma_up(layout.spec_load_end()->Ok_0, alignment);
    let chosen = materialize::spec_choose(image, layout, found, tables).1->Ok_0;
    materialize::lemma_placed_end(tables, chosen.start, tables.len());
    assert(layout.program_headers.push(chosen.layout.program_headers.last())
        =~= chosen.layout.program_headers);
}

/// Clearing works exactly when what is cleared lies within the image. It makes the old place zero
/// and, where the tables move, the new one, and keeps all other bytes.
pub proof fn law_cleared_tables(
    image: Seq<u8>,
    old_start: u64,
    old_end: u64,
    new_start: u64,
    new_end: u64,
    i: int,
)
    requires
        image.len() <= usize::MAX,
        0 <= i < image.len(),
    ensures
        ({
            let (cleared, outcome) = materialize::spec_clear_tables(
                image,
                old_start,
                old_end,
                new_start,
                new_end,
            );
            let moves = new_start != old_start;
            &&& outcome is Ok <==> old_start <= old_end <= image.len() && (moves ==> new_start
                <= new_end <= image.len())
            &&& cleared.len() == image.len()
            &&& outcome is Ok ==> cleared[i] == if old_start <= i < old_end || moves && new_start
                <= i < new_end {
                0
            } else {
                image[i]
            }
        }),
{
}

/// Table `i` of a list is that of a slot.
pub open spec fn is_table(
    tables: Seq<PayloadModel>,
    i: int,
    slot: TableSlot,
    data: Seq<u8>,
) -> bool {
    0 <= i < tables.len() && tables[i].slot == slot && tables[i].data == data
}

/// Rebuilt tables come in the order symbols, versions, version requirements, hash tables, strings,
/// relocations, linkage relocations; of the hash tables, those that are there.
pub proof fn law_order_of_tables(
    merged: MergedModel,
    relocations: RelocationModel,
    gnu_hash: Option<Seq<u8>>,
    sysv_hash: Option<Seq<u8>>,
)
    ensures
        ({
            let tables = materialize::tables_of(merged, relocations, gnu_hash, sysv_hash);
            let n = tables.len() as int;
            &&& n == 6 + (if gnu_hash is Some {
                1int
            } else {
                0
            }) + (if sysv_hash is Some {
                1int
            } else {
                0
            })
            &&& is_table(tables, 0, TableSlot::Dynsym, merged.symbols)
            &&& is_table(tables, 1, TableSlot::Versym, merged.versions)
            &&& is_table(tables, 2, TableSlot::Verneed, merged.version_requirements)
            &&& gnu_hash is Some ==> is_table(tables, 3, TableSlot::GnuHash, gnu_hash->0)
            &&& sysv_hash is Some ==> is_table(tables, n - 4, TableSlot::SysvHash, sysv_hash->0)
            &&& is_table(tables, n - 3, TableSlot::Dynstr, merged.strings)
            &&& is_table(tables, n - 2, TableSlot::RelaDyn, relocations.rela_dyn)
            &&& is_table(tables, n - 1, TableSlot::RelaPlt, relocations.rela_plt)
        }),
{
}

/// A report counts the symbols before, added and after, relocations at 24 bytes each, the bytes of
/// strings, and what is left of the room, and names the place of each table.
pub proof fn law_reported_tables(
    merged: MergedModel,
    relocations: RelocationModel,
    tables: Seq<PayloadModel>,
    chosen: ChosenModel,
    i: int,
)
    requires
        merged.auxiliary.dynsym_count > 0,
        merged.names.len() <= usize::MAX,
        merged.strings.len() <= usize::MAX,
        relocations.rela_dyn.len() <= usize::MAX,
        relocations.rela_plt.len() <= usize::MAX,
    ensures
        ({
            let report = materialize::report_of(merged, relocations, tables, chosen);
            &&& report.hidden_symbols == merged.hidden_symbols
            &&& report.old_symbol_count == merged.old_symbol_count
            &&& report.auxiliary_symbol_count == merged.auxiliary.dynsym_count
            &&& report.appended_symbols + 1 == merged.auxiliary.dynsym_count
            &&& report.new_symbol_count == merged.names.len()
            &&& report.old_dynstr_size == merged.old_dynstr_size
            &&& report.auxiliary_dynstr_size == merged.auxiliary.dynstr_size
            &&& report.new_dynstr_size == merged.strings.len()
            &&& report.rela_dyn_count * 24 <= relocations.rela_dyn.len() < (report.rela_dyn_count
                + 1) * 24
            &&& report.rela_plt_count * 24 <= relocations.rela_plt.len() < (report.rela_plt_count
                + 1) * 24
            &&& report.relative_prefix_count == relocations.relative_count
            &&& report.metadata_start == chosen.start
            &&& report.metadata_end == chosen.end
            &&& report.metadata_capacity_end == chosen.capacity_end
            &&& chosen.end <= chosen.capacity_end ==> report.metadata_end + report.metadata_slack
                == chosen.capacity_end
            &&& chosen.end > chosen.capacity_end ==> report.metadata_slack == 0
            &&& report.placements.len() == tables.len()
            &&& 0 <= i < tables.len() ==> report.placements[i].slot == tables[i].slot
                && report.placements[i].place == chosen.placements[i]
        }),
{
}

/// The data of an image with rebuilt tables ends where the private section started, unless the
/// tables moved, in which case it ends with them.
pub proof fn law_data_ends(
    image: Seq<u8>,
    layout: LayoutModel,
    merged: MergedModel,
    relocations: RelocationModel,
    tables: Seq<PayloadModel>,
    chosen: ChosenModel,
)
    requires
        layout.private_section_index < layout.section_headers.len(),
        materialize::spec_install(image, layout, merged, relocations, tables, chosen).1 is Ok,
    ensures
        ({
            let done = materialize::spec_install(
                image,
                layout,
                merged,
                relocations,
                tables,
                chosen,
            ).1->Ok_0;
            let old_start = layout.section_headers[merged.indices.dynsym as int].offset;
            &&& chosen.start == old_start ==> done.data_end
                == layout.section_headers[layout.private_section_index as int].offset
            &&& chosen.start != old_start ==> done.data_end == chosen.end
            &&& done.report == materialize::report_of(merged, relocations, tables, chosen)
            &&& done.layout.program_headers == chosen.layout.program_headers
            &&& done.layout.program_header_offset == chosen.layout.program_header_offset
            &&& done.layout.program_header_count == chosen.layout.program_header_count
            &&& done.layout.entrypoint == chosen.layout.entrypoint
            &&& done.layout.section_name_index == chosen.layout.section_name_index
            &&& done.layout.private_section_index == chosen.layout.private_section_index
        }),
{
    reveal(materialize::spec_install);
}

/// Tables for which there is no room are accepted exactly when the largest alignment and the room
/// for program headers are known, the new segment's places fit, the tables can be laid out in it,
/// and the segment can be added.
pub proof fn law_new_segments_are_accepted(
    image: Seq<u8>,
    layout: LayoutModel,
    found: SectionIndices,
    tables: Seq<PayloadModel>,
)
    requires
        ({
            let start = layout.section_headers[found.dynsym as int].offset;
            let placed = placement::spec_table_placements(tables, start);
            let room = sections::spec_metadata_capacity_end(layout, found, start);
            placed is Ok && room is Ok && placed->Ok_0.end > room->Ok_0
        }),
    ensures
        ({
            let outcome = materialize::spec_choose(image, layout, found, tables).1;
            let alignment = layout.spec_load_alignment();
            let reserved = layout.spec_additional_program_header_reservation();
            let load_end = layout.spec_load_end();
            let private = layout.section_headers[layout.private_section_index as int];
            let at = up(private.offset as int, alignment->Ok_0 as int);
            let start = at + reserved->Ok_0;
            let placed = placement::spec_table_placements(tables, start as u64);
            let address = up(load_end->Ok_0 as int, alignment->Ok_0 as int);
            outcome is Ok <==> {
                &&& alignment is Ok
                &&& reserved is Ok
                &&& load_end is Ok
                &&& layout.private_section_index < layout.section_headers.len()
                &&& private.offset + alignment->Ok_0 - 1 <= u64::MAX
                &&& load_end->Ok_0 + alignment->Ok_0 - 1 <= u64::MAX
                &&& start <= u64::MAX
                &&& placed is Ok
                &&& layout.spec_append_load_segment(
                    image,
                    LoadSegment {
                        offset: at as u64,
                        virtual_address: address as u64,
                        file_size: (placed->Ok_0.end - at) as u64,
                        memory_size: (placed->Ok_0.end - at) as u64,
                        flags: 4,
                        alignment: alignment->Ok_0,
                    },
                    reserved->Ok_0,
                ).layout is Ok
            }
        }),
{
    reveal(materialize::spec_choose);
    if layout.spec_load_alignment() is Ok {
        let alignment = layout.spec_load_alignment()->Ok_0;
        let largest = |index: int| layout.program_headers[index].alignment as int;
        fold::lemma_largest(layout.program_headers.len(), largest);
        assert(read::is_power_of_two(alignment as nat));
        let private = layout.section_headers[layout.private_section_index as int];
        lemma_up(private.offset, alignment);
        if layout.spec_load_end() is Ok {
            lemma_up(layout.spec_load_end()->Ok_0, alignment);
        }
    }
}

/// Chosen tables are installed exactly when their places can be cleared, each table can be written,
/// and the dynamic table can be pointed to them. The image is then what these three make of it, one
/// after the other, and the layout has the sections of the written tables.
pub proof fn law_tables_are_installed(
    image: Seq<u8>,
    layout: LayoutModel,
    merged: MergedModel,
    relocations: RelocationModel,
    tables: Seq<PayloadModel>,
    chosen: ChosenModel,
)
    ensures
        ({
            let (after, outcome) = materialize::spec_install(
                image,
                layout,
                merged,
                relocations,
                tables,
                chosen,
            );
            let headers = layout.section_headers;
            let old_start = headers[merged.indices.dynsym as int].offset;
            let room = sections::spec_metadata_capacity_end(layout, merged.indices, old_start)->Ok_0;
            let cleared = materialize::spec_clear_tables(
                image,
                old_start,
                room,
                chosen.start,
                chosen.end,
            );
            let written = placement::write_many(
                TableState { image: cleared.0, sections: headers, failure: None },
                chosen.layout,
                merged.indices,
                tables,
                chosen.placements,
                tables.len(),
            );
            let linked = materialize::spec_link(
                written.image,
                written.sections,
                headers[merged.indices.dynamic as int],
                merged.indices,
                merged.strings.len(),
                relocations,
            );
            &&& outcome is Ok <==> cleared.1 is Ok && written.failure is None && linked.1 is Ok
            &&& outcome is Ok ==> after == linked.0
            &&& outcome is Ok ==> outcome->Ok_0.layout.section_headers == written.sections
        }),
{
    reveal(materialize::spec_install);
}

/// An image is rebuilt exactly when its symbols and its relocations can be merged, there is a place
/// for the tables, and they can be installed there. A hash table counts only where there is a
/// section for it.
pub proof fn law_images_are_rebuilt(
    image: Seq<u8>,
    source: Seq<u8>,
    layout: LayoutModel,
    patch_data: Seq<u8>,
    auxiliary_data: Seq<u8>,
    gnu_hash: Seq<u8>,
    sysv_hash: Seq<u8>,
)
    ensures
        ({
            let (after, outcome) = materialize::spec_rebuild(
                image,
                source,
                layout,
                patch_data,
                auxiliary_data,
                gnu_hash,
                sysv_hash,
            );
            let symbols = merge::spec_merge_symbols(
                image,
                source,
                layout,
                patch_data,
                auxiliary_data,
            );
            let merged = symbols->Ok_0;
            let relocations = materialize::spec_merge_relocations(
                image,
                layout.section_headers[merged.indices.rela_dyn as int],
                layout.section_headers[merged.indices.rela_plt as int],
                auxiliary_data,
                merged.auxiliary,
                merged.old_symbol_count,
            );
            let tables = materialize::tables_of(
                merged,
                relocations->Ok_0,
                if merged.indices.gnu_hash is Some {
                    Some(gnu_hash)
                } else {
                    None
                },
                if merged.indices.hash is Some {
                    Some(sysv_hash)
                } else {
                    None
                },
            );
            let (prepared, chosen) = materialize::spec_choose(
                image,
                layout,
                merged.indices,
                tables,
            );
            let installed = materialize::spec_install(
                prepared,
                layout,
                merged,
                relocations->Ok_0,
                tables,
                chosen->Ok_0,
            );
            &&& outcome is Ok <==> symbols is Ok && relocations is Ok && chosen is Ok
                && installed.1 is Ok
            &&& outcome is Ok ==> (after, outcome) == installed
        }),
{
}

/// A restoration is completed exactly when its tables, if there are any, can be rebuilt, and the
/// file that is then written is accepted with the numbers of the rebuilt tables. With tables, the
/// file is that of the rebuilt image cut off or filled up to where its data ends.
pub proof fn law_completed_restorations(
    image: Seq<u8>,
    source: Seq<u8>,
    layout: LayoutModel,
    tables: Option<TableInputs>,
    keep: bool,
)
    requires
        usize::MAX == u64::MAX,
    ensures
        ({
            let done = restore::spec_complete_restore(image, source, layout, tables, keep);
            let (rebuilt, outcome) = materialize::spec_rebuild(
                image,
                source,
                layout,
                tables->0.symbol_patch_data@,
                tables->0.auxiliary_data@,
                tables->0.gnu_hash@,
                tables->0.sysv_hash@,
            );
            let report = outcome->Ok_0.report;
            let file = if tables is Some {
                finalize::spec_finalize(
                    restore::resized(rebuilt, outcome->Ok_0.data_end as int),
                    source,
                    outcome->Ok_0.layout,
                    keep,
                )
            } else {
                finalize::spec_finalize(image, source, layout, keep)
            };
            let checked = finalize::spec_validate_restored_binary(
                file->Ok_0.data,
                keep,
                if tables is Some {
                    Some(
                        ExpectedCounts {
                            symbols: report.new_symbol_count,
                            rela_dyn: report.rela_dyn_count,
                            rela_plt: report.rela_plt_count,
                        },
                    )
                } else {
                    None
                },
            );
            &&& done is Ok <==> (tables is Some ==> outcome is Ok) && file is Ok && checked is Ok
            &&& done is Ok ==> {
                &&& done->Ok_0.data == file->Ok_0.data
                &&& done->Ok_0.cleaning == file->Ok_0.report
                &&& done->Ok_0.validation == checked->Ok_0
                &&& tables is Some ==> done->Ok_0.materialization == Some(report)
                &&& tables is None ==> done->Ok_0.materialization is None
            }
        }),
{
}

} // verus!
