//! What rebuilt dynamic-linker tables look like in the image.

use super::dynamic;
use super::materialize;
use super::materialize::{ChosenModel, RelocationModel};
use super::merge;
use super::merge::MergedModel;
use super::placement;
use super::placement::{PayloadModel, PlacementReport, TableSlot, TableState};
use super::sections;
use super::sections::SectionIndices;
use super::tags::DynamicValues;
use crate::bytes;
use crate::elf::append_laws::law_append_keeps_size;
use crate::elf::layout;
use crate::elf::layout::LayoutModel;
use crate::elf::read;
use crate::elf::{SectionHeader, DT_RELACOUNT};
use crate::fold;
use vstd::prelude::*;

verus! {

/// No two tables share a section.
pub open spec fn distinct(indices: SectionIndices) -> bool {
    forall|a: TableSlot, b: TableSlot|
        a != b && a.spec_index(indices) is Some && b.spec_index(indices) is Some ==> (
        #[trigger] a.spec_index(indices)) != (#[trigger] b.spec_index(indices))
}

/// No two tables have sections of the same name.
proof fn lemma_names_differ(a: TableSlot, b: TableSlot)
    requires
        a != b,
    ensures
        a.spec_name()@ != b.spec_name()@,
{
    reveal_strlit(".dynsym");
    reveal_strlit(".gnu.version");
    reveal_strlit(".gnu.version_r");
    reveal_strlit(".gnu.hash");
    reveal_strlit(".hash");
    reveal_strlit(".dynstr");
    reveal_strlit(".rela.dyn");
    reveal_strlit(".rela.plt");
    assert(".dynsym"@.len() == 7);
    assert(".gnu.version"@.len() == 12);
    assert(".gnu.version_r"@.len() == 14);
    assert(".gnu.hash"@.len() == 9);
    assert(".hash"@.len() == 5);
    assert(".dynstr"@.len() == 7);
    assert(".rela.dyn"@.len() == 9);
    assert(".rela.plt"@.len() == 9);
    assert(".dynsym"@[5] != ".dynstr"@[5]);
    assert(".gnu.hash"@[1] != ".rela.dyn"@[1]);
    assert(".gnu.hash"@[1] != ".rela.plt"@[1]);
    assert(".rela.dyn"@[6] != ".rela.plt"@[6]);
}

/// A section that was found has the name that was looked for.
proof fn lemma_found(names: Seq<Seq<char>>, wanted: &'static str)
    requires
        names.len() <= usize::MAX,
    ensures
        sections::spec_optional(names, wanted) matches Ok(Some(index)) ==> index < names.len()
            && names[index as int] == wanted@,
        sections::spec_first(names, wanted) matches Some(index) ==> index < names.len()
            && names[index as int] == wanted@,
{
    let keep = sections::is_named(names, wanted@);
    fold::lemma_matching(names.len(), keep);
    let found = sections::places(names, wanted@);
    if found.len() > 0 {
        assert(keep(found[0]));
    }
}

/// The sections of the tables are different ones.
proof fn lemma_distinct(names: Seq<Seq<char>>)
    requires
        names.len() <= usize::MAX,
        sections::spec_required_section_indices(names) is Ok,
    ensures
        distinct(sections::spec_required_section_indices(names)->Ok_0),
{
    let indices = sections::spec_required_section_indices(names)->Ok_0;
    lemma_found(names, ".dynsym");
    lemma_found(names, ".gnu.version");
    lemma_found(names, ".gnu.version_r");
    lemma_found(names, ".gnu.hash");
    lemma_found(names, ".hash");
    lemma_found(names, ".dynstr");
    lemma_found(names, ".rela.dyn");
    lemma_found(names, ".rela.plt");
    assert forall|a: TableSlot, b: TableSlot|
        a != b && a.spec_index(indices) is Some && b.spec_index(indices) is Some implies (
    #[trigger] a.spec_index(indices)) != (#[trigger] b.spec_index(indices)) by {
        lemma_names_differ(a, b);
        assert(names[a.spec_index(indices)->0 as int] == a.spec_name()@);
        assert(names[b.spec_index(indices)->0 as int] == b.spec_name()@);
    }
}

/// Places follow each other and are as large as their tables.
pub open spec fn in_order(tables: Seq<PayloadModel>, placements: Seq<PlacementReport>) -> bool {
    &&& placements.len() == tables.len()
    &&& forall|i: int, j: int|
        0 <= i < j < tables.len() ==> (#[trigger] placements[i]).offset + tables[i].data.len() <= (
        #[trigger] placements[j]).offset
}

/// Table `i` stands at its place, and its section header knows.
pub open spec fn stands(
    image: Seq<u8>,
    headers: Seq<SectionHeader>,
    indices: SectionIndices,
    table: PayloadModel,
    place: PlacementReport,
) -> bool {
    let end = place.offset + table.data.len();
    let header = headers[table.slot.spec_index(indices)->0 as int];
    &&& end <= image.len()
    &&& image.subrange(place.offset as int, end) == table.data
    &&& header.offset == place.offset
    &&& header.size == table.data.len()
}

/// Every table that was written fits into the image.
proof fn lemma_written_fit(
    start: TableState,
    layout: LayoutModel,
    indices: SectionIndices,
    tables: Seq<PayloadModel>,
    placements: Seq<PlacementReport>,
    n: nat,
)
    requires
        start.failure is None,
        n <= tables.len(),
        placement::have_sections(tables, indices, start.sections.len() as int),
        placement::write_many(start, layout, indices, tables, placements, n).failure is None,
    ensures
        ({
            let state = placement::write_many(start, layout, indices, tables, placements, n);
            &&& state.image.len() == start.image.len()
            &&& state.sections.len() == start.sections.len()
            &&& forall|i: int|
                0 <= i < n ==> (#[trigger] placements[i]).offset + tables[i].data.len()
                    <= start.image.len() && tables[i].data.len() <= usize::MAX
        }),
    decreases n,
{
    if n > 0 {
        let before = placement::write_many(
            start,
            layout,
            indices,
            tables,
            placements,
            (n - 1) as nat,
        );
        assert(before.failure is None);
        lemma_written_fit(start, layout, indices, tables, placements, (n - 1) as nat);
        let (table, place) = (tables[n - 1], placements[n - 1]);
        let after = placement::write_one(before, layout, indices, table, place);
        assert(placement::write_many(start, layout, indices, tables, placements, n) == after);
        assert(table.slot.spec_index(indices) is Some);
        assert(place.offset + table.data.len() <= before.image.len());
        assert forall|i: int| 0 <= i < n implies (#[trigger] placements[i]).offset
            + tables[i].data.len() <= start.image.len() && tables[i].data.len() <= usize::MAX by {
            if i == n - 1 {
                assert(placements[i] == place);
            }
        }
    }
}

/// Tables that were written stand at their places.
proof fn lemma_written(
    start: TableState,
    layout: LayoutModel,
    indices: SectionIndices,
    tables: Seq<PayloadModel>,
    placements: Seq<PlacementReport>,
    n: nat,
)
    requires
        start.failure is None,
        n <= tables.len(),
        in_order(tables, placements),
        distinct(indices),
        placement::have_sections(tables, indices, start.sections.len() as int),
        forall|i: int, j: int|
            0 <= i < j < tables.len() ==> (#[trigger] tables[i]).slot != (#[trigger] tables[j]).slot,
        placement::write_many(start, layout, indices, tables, placements, n).failure is None,
    ensures
        ({
            let state = placement::write_many(start, layout, indices, tables, placements, n);
            forall|i: int|
                0 <= i < n ==> stands(
                    state.image,
                    state.sections,
                    indices,
                    tables[i],
                    #[trigger] placements[i],
                )
        }),
    decreases n,
{
    if n > 0 {
        let last = n - 1;
        let before = placement::write_many(
            start,
            layout,
            indices,
            tables,
            placements,
            last as nat,
        );
        let after = placement::write_many(start, layout, indices, tables, placements, n);
        assert(before.failure is None);
        lemma_written(start, layout, indices, tables, placements, last as nat);
        lemma_written_fit(start, layout, indices, tables, placements, last as nat);
        lemma_written_fit(start, layout, indices, tables, placements, n);
        assert forall|i: int| 0 <= i < n implies stands(
            after.image,
            after.sections,
            indices,
            tables[i],
            #[trigger] placements[i],
        ) by {
            let at = placements[i].offset as int;
            let end = at + tables[i].data.len();
            assert(tables[i].slot.spec_index(indices) is Some);
            assert(tables[last].slot.spec_index(indices) is Some);
            if i < last {
                assert(stands(before.image, before.sections, indices, tables[i], placements[i]));
                assert(after.image.subrange(at, end) =~= before.image.subrange(at, end));
                assert(tables[i].slot != tables[last].slot);
                assert(tables[i].slot.spec_index(indices) != tables[last].slot.spec_index(indices));
            } else {
                assert(after.image.subrange(at, end) =~= tables[i].data);
            }
        }
    }
}

/// No table occurs twice among the rebuilt ones.
proof fn lemma_slots_differ(
    merged: MergedModel,
    relocations: RelocationModel,
    gnu_hash: Option<Seq<u8>>,
    sysv_hash: Option<Seq<u8>>,
)
    ensures
        ({
            let tables = materialize::tables_of(merged, relocations, gnu_hash, sysv_hash);
            forall|i: int, j: int|
                0 <= i < j < tables.len() ==> (#[trigger] tables[i]).slot != (
                #[trigger] tables[j]).slot
        }),
{
}

/// The rebuilt tables of an image.
pub open spec fn rebuilt_tables(
    image: Seq<u8>,
    source: Seq<u8>,
    layout: LayoutModel,
    patch_data: Seq<u8>,
    auxiliary_data: Seq<u8>,
    gnu_hash: Seq<u8>,
    sysv_hash: Seq<u8>,
) -> Seq<PayloadModel> {
    let merged = merge::spec_merge_symbols(
        image,
        source,
        layout,
        patch_data,
        auxiliary_data,
    )->Ok_0;
    let relocations = materialize::spec_merge_relocations(
        image,
        layout.section_headers[merged.indices.rela_dyn as int],
        layout.section_headers[merged.indices.rela_plt as int],
        auxiliary_data,
        merged.auxiliary,
        merged.old_symbol_count,
    )->Ok_0;
    materialize::tables_of(
        merged,
        relocations,
        materialize::if_present(merged.indices.gnu_hash, gnu_hash),
        materialize::if_present(merged.indices.hash, sysv_hash),
    )
}

/// The places of chosen tables are those of tables laid out one after the other.
proof fn lemma_chosen_places(
    image: Seq<u8>,
    layout: LayoutModel,
    indices: SectionIndices,
    tables: Seq<PayloadModel>,
)
    requires
        materialize::spec_choose(image, layout, indices, tables).1 is Ok,
    ensures
        are_places(tables, materialize::spec_choose(image, layout, indices, tables).1->Ok_0),
{
    reveal(materialize::spec_choose);
}

/// The places are those of tables laid out one after the other.
spec fn are_places(tables: Seq<PayloadModel>, chosen: ChosenModel) -> bool {
    placement::spec_table_placements(tables, chosen.start) matches Ok(placed)
        && placed.placements == chosen.placements
}

/// Choosing where tables go keeps the size of the image.
proof fn lemma_choose_keeps_size(
    image: Seq<u8>,
    layout: LayoutModel,
    indices: SectionIndices,
    tables: Seq<PayloadModel>,
)
    requires
        image.len() <= usize::MAX,
        materialize::spec_choose(image, layout, indices, tables).1 is Ok,
    ensures
        materialize::spec_choose(image, layout, indices, tables).0.len() == image.len(),
{
    reveal(materialize::spec_choose);
    let old_start = layout.section_headers[indices.dynsym as int].offset;
    let room = sections::spec_metadata_capacity_end(layout, indices, old_start)->Ok_0;
    if placement::spec_table_placements(tables, old_start)->Ok_0.end > room {
        let alignment = layout.spec_load_alignment()->Ok_0;
        let reservation = layout.spec_additional_program_header_reservation()->Ok_0;
        let private = layout.spec_private_section()->Ok_0;
        let start = read::spec_align_up(private.offset, alignment)->Ok_0;
        let placed = placement::spec_table_placements(tables, (start + reservation) as u64)->Ok_0;
        let address = read::spec_align_up(layout.spec_load_end()->Ok_0, alignment)->Ok_0;
        law_append_keeps_size(
            layout,
            image,
            materialize::extension_segment(start, placed.end, address, alignment),
            reservation,
        );
    }
}

/// Tables that were installed stand at their places, as long as the dynamic table lies elsewhere.
proof fn lemma_installed(
    image: Seq<u8>,
    layout: LayoutModel,
    merged: MergedModel,
    relocations: RelocationModel,
    tables: Seq<PayloadModel>,
    chosen: ChosenModel,
    i: int,
)
    requires
        image.len() <= usize::MAX,
        materialize::spec_install(image, layout, merged, relocations, tables, chosen).1 is Ok,
        are_places(tables, chosen),
        distinct(merged.indices),
        placement::have_sections(tables, merged.indices, layout.section_headers.len() as int),
        forall|a: int, b: int|
            0 <= a < b < tables.len() ==> (#[trigger] tables[a]).slot != (#[trigger] tables[b]).slot,
        0 <= i < tables.len(),
        ({
            let table = layout.section_headers[merged.indices.dynamic as int];
            let place = chosen.placements[i];
            table.offset + table.size <= place.offset || place.offset + place.size <= table.offset
        }),
    ensures
        ({
            let (after, outcome) = materialize::spec_install(
                image,
                layout,
                merged,
                relocations,
                tables,
                chosen,
            );
            &&& chosen.placements.len() == tables.len()
            &&& chosen.placements[i].size == tables[i].data.len()
            &&& stands(
                after,
                outcome->Ok_0.layout.section_headers,
                merged.indices,
                tables[i],
                chosen.placements[i],
            )
        }),
{
    broadcast use bytes::group_bytes_len;

    reveal(materialize::spec_install);
    let indices = merged.indices;
    let old_start = layout.section_headers[indices.dynsym as int].offset;
    let old_end = sections::spec_metadata_capacity_end(layout, indices, old_start)->Ok_0;
    let cleared = materialize::spec_clear_tables(
        image,
        old_start,
        old_end,
        chosen.start,
        chosen.end,
    ).0;
    let start = TableState { image: cleared, sections: layout.section_headers, failure: None };
    let written = placement::write_many(
        start,
        chosen.layout,
        indices,
        tables,
        chosen.placements,
        tables.len(),
    );
    let (after, outcome) = materialize::spec_install(
        image,
        layout,
        merged,
        relocations,
        tables,
        chosen,
    );
    assert(written.failure is None);
    assert(cleared.len() == image.len());
    lemma_written_fit(start, chosen.layout, indices, tables, chosen.placements, tables.len());
    assert forall|k: int| 0 <= k < tables.len() implies (#[trigger] tables[k]).data.len()
        <= usize::MAX by {
        let place = chosen.placements[k];
        assert(place.offset + tables[k].data.len() <= cleared.len());
    }
    placement::lemma_all_placed(tables, chosen.start);
    lemma_written(start, chosen.layout, indices, tables, chosen.placements, tables.len());
    let place = chosen.placements[i];
    assert(stands(written.image, written.sections, indices, tables[i], place));
    let table = layout.section_headers[indices.dynamic as int];
    let counts = dynamic::spec_contains_tag(written.image, table, DT_RELACOUNT)->Ok_0;
    let values = materialize::dynamic_values(
        written.sections,
        indices,
        merged.strings.len(),
        relocations,
        counts,
    );
    assert(after == dynamic::spec_patch_dynamic_tags(written.image, table, values).0);
    dynamic::lemma_patched(written.image, table, values);
    dynamic::lemma_set_tags(
        written.image,
        table.offset as int,
        (table.size / 0x10) as nat,
        values,
    );
    let end = place.offset + tables[i].data.len();
    assert(after.subrange(place.offset as int, end) =~= written.image.subrange(
        place.offset as int,
        end,
    ));
}

/// What is reported of installed tables.
proof fn lemma_install_reports(
    image: Seq<u8>,
    layout: LayoutModel,
    merged: MergedModel,
    relocations: RelocationModel,
    tables: Seq<PayloadModel>,
    chosen: ChosenModel,
)
    requires
        materialize::spec_install(image, layout, merged, relocations, tables, chosen).1 is Ok,
    ensures
        ({
            let outcome = materialize::spec_install(
                image,
                layout,
                merged,
                relocations,
                tables,
                chosen,
            ).1;
            outcome->Ok_0.report == materialize::report_of(merged, relocations, tables, chosen)
        }),
{
    reveal(materialize::spec_install);
}

/// Merged symbols are those of sections that the image has.
proof fn lemma_merged_below(
    image: Seq<u8>,
    source: Seq<u8>,
    layout: LayoutModel,
    patch_data: Seq<u8>,
    auxiliary_data: Seq<u8>,
)
    requires
        layout.section_headers.len() <= usize::MAX,
        merge::spec_merge_symbols(image, source, layout, patch_data, auxiliary_data) is Ok,
    ensures
        ({
            let merged = merge::spec_merge_symbols(
                image,
                source,
                layout,
                patch_data,
                auxiliary_data,
            )->Ok_0;
            &&& merged.indices.below(layout.section_headers.len() as int)
            &&& distinct(merged.indices)
        }),
{
    reveal(merge::spec_merge_symbols);
    layout::lemma_one_name_each(layout, source);
    let names = layout.spec_section_names(source)->Ok_0;
    lemma_distinct(names);
    lemma_found(names, ".dynsym");
    lemma_found(names, ".gnu.version");
    lemma_found(names, ".gnu.version_r");
    lemma_found(names, ".gnu.hash");
    lemma_found(names, ".hash");
    lemma_found(names, ".dynstr");
    lemma_found(names, ".rela.dyn");
    lemma_found(names, ".rela.plt");
    lemma_found(names, ".dynamic");
}

/// After the dynamic-linker tables of an image were rebuilt, every table stands at the place that
/// is reported, the section header of the table says so, and what stands there is the merged table,
/// as long as the dynamic table lies elsewhere.
pub proof fn law_rebuilt_tables_read_back(
    image: Seq<u8>,
    source: Seq<u8>,
    layout: LayoutModel,
    patch_data: Seq<u8>,
    auxiliary_data: Seq<u8>,
    gnu_hash: Seq<u8>,
    sysv_hash: Seq<u8>,
    i: int,
)
    requires
        image.len() <= usize::MAX,
        layout.section_headers.len() <= usize::MAX,
        materialize::spec_rebuild(
            image,
            source,
            layout,
            patch_data,
            auxiliary_data,
            gnu_hash,
            sysv_hash,
        ).1 is Ok,
        ({
            let rebuilt = materialize::spec_rebuild(
                image,
                source,
                layout,
                patch_data,
                auxiliary_data,
                gnu_hash,
                sysv_hash,
            ).1->Ok_0;
            let merged = merge::spec_merge_symbols(
                image,
                source,
                layout,
                patch_data,
                auxiliary_data,
            )->Ok_0;
            let table = layout.section_headers[merged.indices.dynamic as int];
            let place = rebuilt.report.placements[i].place;
            &&& 0 <= i < rebuilt.report.placements.len()
            &&& table.offset + table.size <= place.offset || place.offset + place.size
                <= table.offset
        }),
    ensures
        ({
            let (after, outcome) = materialize::spec_rebuild(
                image,
                source,
                layout,
                patch_data,
                auxiliary_data,
                gnu_hash,
                sysv_hash,
            );
            let rebuilt = outcome->Ok_0;
            let merged = merge::spec_merge_symbols(
                image,
                source,
                layout,
                patch_data,
                auxiliary_data,
            )->Ok_0;
            let tables = rebuilt_tables(
                image,
                source,
                layout,
                patch_data,
                auxiliary_data,
                gnu_hash,
                sysv_hash,
            );
            let placed = rebuilt.report.placements[i];
            &&& rebuilt.report.placements.len() == tables.len()
            &&& placed.slot == tables[i].slot
            &&& placed.place.size == tables[i].data.len()
            &&& stands(
                after,
                rebuilt.layout.section_headers,
                merged.indices,
                tables[i],
                placed.place,
            )
        }),
{
    let merged = merge::spec_merge_symbols(
        image,
        source,
        layout,
        patch_data,
        auxiliary_data,
    )->Ok_0;
    let indices = merged.indices;
    let relocations = materialize::spec_merge_relocations(
        image,
        layout.section_headers[indices.rela_dyn as int],
        layout.section_headers[indices.rela_plt as int],
        auxiliary_data,
        merged.auxiliary,
        merged.old_symbol_count,
    )->Ok_0;
    let gnu = materialize::if_present(indices.gnu_hash, gnu_hash);
    let sysv = materialize::if_present(indices.hash, sysv_hash);
    let tables = materialize::tables_of(merged, relocations, gnu, sysv);
    let (prepared, choice) = materialize::spec_choose(image, layout, indices, tables);
    let chosen = choice->Ok_0;
    lemma_choose_keeps_size(image, layout, indices, tables);
    lemma_slots_differ(merged, relocations, gnu, sysv);
    lemma_chosen_places(image, layout, indices, tables);
    lemma_merged_below(image, source, layout, patch_data, auxiliary_data);
    lemma_install_reports(prepared, layout, merged, relocations, tables, chosen);
    lemma_installed(prepared, layout, merged, relocations, tables, chosen, i);
}

/// Dynamic tags of installed tables hold the values for the tables.
proof fn lemma_installed_tags(
    image: Seq<u8>,
    layout: LayoutModel,
    merged: MergedModel,
    relocations: RelocationModel,
    tables: Seq<PayloadModel>,
    chosen: ChosenModel,
    k: int,
)
    requires
        image.len() <= usize::MAX,
        materialize::spec_install(image, layout, merged, relocations, tables, chosen).1 is Ok,
        placement::have_sections(tables, merged.indices, layout.section_headers.len() as int),
        ({
            let after = materialize::spec_install(
                image,
                layout,
                merged,
                relocations,
                tables,
                chosen,
            ).0;
            let table = layout.section_headers[merged.indices.dynamic as int];
            &&& 0 <= k < table.size / 0x10
            &&& dynamic::is_reached(after, table.offset as int, k)
        }),
    ensures
        ({
            let (after, outcome) = materialize::spec_install(
                image,
                layout,
                merged,
                relocations,
                tables,
                chosen,
            );
            let start = layout.section_headers[merged.indices.dynamic as int].offset as int;
            let values = materialize::dynamic_values(
                outcome->Ok_0.layout.section_headers,
                merged.indices,
                merged.strings.len(),
                relocations,
                true,
            );
            values.spec_get(dynamic::tag_at(after, start, k)) matches Some(value)
                ==> dynamic::value_at(after, start, k) == value
        }),
{
    reveal(materialize::spec_install);
    let indices = merged.indices;
    let old_start = layout.section_headers[indices.dynsym as int].offset;
    let old_end = sections::spec_metadata_capacity_end(layout, indices, old_start)->Ok_0;
    let cleared = materialize::spec_clear_tables(
        image,
        old_start,
        old_end,
        chosen.start,
        chosen.end,
    ).0;
    let first = TableState { image: cleared, sections: layout.section_headers, failure: None };
    let written = placement::write_many(
        first,
        chosen.layout,
        indices,
        tables,
        chosen.placements,
        tables.len(),
    );
    assert(written.failure is None);
    assert(cleared.len() == image.len());
    lemma_written_fit(first, chosen.layout, indices, tables, chosen.placements, tables.len());
    let table = layout.section_headers[indices.dynamic as int];
    let counts = dynamic::spec_contains_tag(written.image, table, DT_RELACOUNT)->Ok_0;
    let values = materialize::dynamic_values(
        written.sections,
        indices,
        merged.strings.len(),
        relocations,
        counts,
    );
    let (after, outcome) = materialize::spec_install(
        image,
        layout,
        merged,
        relocations,
        tables,
        chosen,
    );
    assert(after == dynamic::spec_patch_dynamic_tags(written.image, table, values).0);
    lemma_patched_tags(written.image, table, values, k);
    let start = table.offset as int;
    let tag = dynamic::tag_at(after, start, k);
    if tag == DT_RELACOUNT {
        assert(dynamic::tag_at(written.image, start, k) == tag);
        assert(counts);
    }
}

/// An entry that is reached after tags were set was reached before, and holds the new value.
proof fn lemma_patched_tags(
    image: Seq<u8>,
    table: SectionHeader,
    values: DynamicValues,
    k: int,
)
    requires
        image.len() <= usize::MAX,
        dynamic::spec_patch_dynamic_tags(image, table, values).1 is Ok,
        0 <= k < table.size / 0x10,
        dynamic::is_reached(
            dynamic::spec_patch_dynamic_tags(image, table, values).0,
            table.offset as int,
            k,
        ),
    ensures
        ({
            let after = dynamic::spec_patch_dynamic_tags(image, table, values).0;
            let start = table.offset as int;
            &&& dynamic::is_reached(image, start, k)
            &&& dynamic::tag_at(after, start, k) == dynamic::tag_at(image, start, k)
            &&& values.spec_get(dynamic::tag_at(image, start, k)) matches Some(value)
                ==> dynamic::value_at(after, start, k) == value
        }),
{
    let after = dynamic::spec_patch_dynamic_tags(image, table, values).0;
    let start = table.offset as int;
    assert forall|j: int| 0 <= j < k implies #[trigger] dynamic::tag_at(image, start, j) != 0 by {
        dynamic::law_dynamic_tags_read_back(image, table, values, j, 0);
        assert(dynamic::tag_at(after, start, j) != 0);
    }
    dynamic::law_dynamic_tags_read_back(image, table, values, k, 0);
}

/// After the dynamic-linker tables of an image were rebuilt, the dynamic table leads to them: every
/// entry up to the end of the dynamic table whose tag tells of a rebuilt table has the table's new
/// address, size or count.
pub proof fn law_dynamic_table_leads_to_rebuilt_tables(
    image: Seq<u8>,
    source: Seq<u8>,
    layout: LayoutModel,
    patch_data: Seq<u8>,
    auxiliary_data: Seq<u8>,
    gnu_hash: Seq<u8>,
    sysv_hash: Seq<u8>,
    k: int,
)
    requires
        image.len() <= usize::MAX,
        layout.section_headers.len() <= usize::MAX,
        materialize::spec_rebuild(
            image,
            source,
            layout,
            patch_data,
            auxiliary_data,
            gnu_hash,
            sysv_hash,
        ).1 is Ok,
        ({
            let after = materialize::spec_rebuild(
                image,
                source,
                layout,
                patch_data,
                auxiliary_data,
                gnu_hash,
                sysv_hash,
            ).0;
            let merged = merge::spec_merge_symbols(
                image,
                source,
                layout,
                patch_data,
                auxiliary_data,
            )->Ok_0;
            let table = layout.section_headers[merged.indices.dynamic as int];
            &&& 0 <= k < table.size / 0x10
            &&& dynamic::is_reached(after, table.offset as int, k)
        }),
    ensures
        ({
            let (after, outcome) = materialize::spec_rebuild(
                image,
                source,
                layout,
                patch_data,
                auxiliary_data,
                gnu_hash,
                sysv_hash,
            );
            let merged = merge::spec_merge_symbols(
                image,
                source,
                layout,
                patch_data,
                auxiliary_data,
            )->Ok_0;
            let relocations = materialize::spec_merge_relocations(
                image,
                layout.section_headers[merged.indices.rela_dyn as int],
                layout.section_headers[merged.indices.rela_plt as int],
                auxiliary_data,
                merged.auxiliary,
                merged.old_symbol_count,
            )->Ok_0;
            let start = layout.section_headers[merged.indices.dynamic as int].offset as int;
            let values = materialize::dynamic_values(
                outcome->Ok_0.layout.section_headers,
                merged.indices,
                merged.strings.len(),
                relocations,
                true,
            );
            values.spec_get(dynamic::tag_at(after, start, k)) matches Some(value)
                ==> dynamic::value_at(after, start, k) == value
        }),
{
    let merged = merge::spec_merge_symbols(
        image,
        source,
        layout,
        patch_data,
        auxiliary_data,
    )->Ok_0;
    let indices = merged.indices;
    let relocations = materialize::spec_merge_relocations(
        image,
        layout.section_headers[indices.rela_dyn as int],
        layout.section_headers[indices.rela_plt as int],
        auxiliary_data,
        merged.auxiliary,
        merged.old_symbol_count,
    )->Ok_0;
    let gnu = materialize::if_present(indices.gnu_hash, gnu_hash);
    let sysv = materialize::if_present(indices.hash, sysv_hash);
    let tables = materialize::tables_of(merged, relocations, gnu, sysv);
    let (prepared, choice) = materialize::spec_choose(image, layout, indices, tables);
    lemma_choose_keeps_size(image, layout, indices, tables);
    lemma_merged_below(image, source, layout, patch_data, auxiliary_data);
    lemma_installed_tags(prepared, layout, merged, relocations, tables, choice->Ok_0, k);
}

} // verus!
