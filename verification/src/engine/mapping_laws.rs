//! The length that is reserved for an image suffices for the tables that are put behind it.

use super::materialize;
use super::materialize::{RelocationModel, RelocationSources};
use super::merge;
use super::merge::MergedModel;
use super::placement;
use super::placement::{PayloadModel, Placed, TableSlot};
use super::rebuild_laws;
use super::sections;
use super::sections::{MergedSizes, SectionIndices};
use super::symbols;
use crate::elf::layout::LayoutModel;
use crate::elf::read;
use crate::engine::auxiliary::AuxiliaryElfImage;
use crate::engine::materialize_laws;
use crate::fold;
use vstd::prelude::*;

verus! {

/// Where the reserved tables below `n` end.
spec fn reserved_end(tables: Seq<(usize, u64)>, start: int, n: int) -> int
    decreases n,
{
    if n <= 0 {
        start
    } else {
        read::aligned(reserved_end(tables, start, n - 1), tables[n - 1].1 as int)
            + tables[n - 1].0
    }
}

/// Where the tables below `n` end.
spec fn placed_end(tables: Seq<PayloadModel>, start: int, n: int) -> int
    decreases n,
{
    if n <= 0 {
        start
    } else {
        read::aligned(
            placed_end(tables, start, n - 1),
            tables[n - 1].slot.spec_alignment() as int,
        ) + tables[n - 1].data.len()
    }
}

/// The place of a table in the order in which tables are reserved.
pub open spec fn position(slot: TableSlot) -> int {
    match slot {
        TableSlot::Dynsym => 0,
        TableSlot::Versym => 1,
        TableSlot::Verneed => 2,
        TableSlot::GnuHash => 3,
        TableSlot::SysvHash => 4,
        TableSlot::Dynstr => 5,
        TableSlot::RelaDyn => 6,
        TableSlot::RelaPlt => 7,
    }
}

/// Every table is no larger than what is reserved for it, and the tables come in the order of
/// their reservations.
pub open spec fn fits(tables: Seq<PayloadModel>, sizes: MergedSizes) -> bool {
    &&& forall|i: int|
        0 <= i < tables.len() ==> (#[trigger] tables[i]).data.len() <= sizes.in_order()[position(
            tables[i].slot,
        )].0
    &&& forall|i: int, j: int|
        0 <= i < j < tables.len() ==> position((#[trigger] tables[i]).slot) < position(
            (#[trigger] tables[j]).slot,
        )
}

/// Rounding up is monotonic and commutes with adding a multiple of the alignment.
proof fn lemma_aligned_behind(a: int, b: int, start: int, alignment: int)
    requires
        0 <= a <= start + b,
        0 <= b,
        0 <= start,
        start % 8 == 0,
        alignment == 1 || alignment == 2 || alignment == 4 || alignment == 8,
    ensures
        read::aligned(a, alignment) <= start + read::aligned(b, alignment),
{
    read::lemma_aligned(a, alignment);
    read::lemma_aligned(b, alignment);
    let (x, y) = (read::aligned(a, alignment), read::aligned(b, alignment));
    if alignment == 1 {
    } else if alignment == 2 {
        assert(x % 2 == 0 && y % 2 == 0);
    } else if alignment == 4 {
        assert(x % 4 == 0 && y % 4 == 0);
    } else {
        assert(x % 8 == 0 && y % 8 == 0);
    }
}

/// Reservations end where their sum says.
proof fn lemma_reserved(tables: Seq<(usize, u64)>, start: u64, n: nat)
    requires
        n <= tables.len(),
        forall|i: int| 0 <= i < tables.len() ==> (#[trigger] tables[i]).1 > 0,
        fold::try_fold(n, start, sections::reserve_step(tables)) is Ok,
    ensures
        fold::try_fold(n, start, sections::reserve_step(tables))->Ok_0 == reserved_end(
            tables,
            start as int,
            n as int,
        ),
    decreases n,
{
    if n > 0 {
        lemma_reserved(tables, start, (n - 1) as nat);
        let before = fold::try_fold((n - 1) as nat, start, sections::reserve_step(tables))->Ok_0;
        read::lemma_aligned(before as int, tables[n - 1].1 as int);
    }
}

/// Later reservations end later.
proof fn lemma_reserved_grows(tables: Seq<(usize, u64)>, start: int, m: int, n: int)
    requires
        0 <= start,
        0 <= m <= n <= tables.len(),
        forall|i: int| 0 <= i < tables.len() ==> (#[trigger] tables[i]).1 > 0,
    ensures
        start <= reserved_end(tables, start, m) <= reserved_end(tables, start, n),
    decreases n,
{
    if n > m {
        lemma_reserved_grows(tables, start, m, n - 1);
        read::lemma_aligned(reserved_end(tables, start, n - 1), tables[n - 1].1 as int);
    } else if n > 0 {
        lemma_reserved_grows(tables, start, m - 1, n - 1);
        read::lemma_aligned(reserved_end(tables, start, n - 1), tables[n - 1].1 as int);
    }
}

/// Tables that fit their reservations end no later than these.
proof fn lemma_placed_below(
    tables: Seq<PayloadModel>,
    sizes: MergedSizes,
    start: int,
    reservation: int,
    n: int,
)
    requires
        fits(tables, sizes),
        0 <= start,
        0 <= reservation,
        start % 8 == 0,
        0 < n <= tables.len(),
    ensures
        start + reservation <= placed_end(tables, start + reservation, n) <= start + reserved_end(
            sizes.in_order(),
            reservation,
            position(tables[n - 1].slot) + 1,
        ),
    decreases n,
{
    let reserved = sizes.in_order();
    let at = position(tables[n - 1].slot);
    let before = placed_end(tables, start + reservation, n - 1);
    if n > 1 {
        lemma_placed_below(tables, sizes, start, reservation, n - 1);
        assert(position(tables[n - 2].slot) < at);
        lemma_reserved_grows(reserved, reservation, position(tables[n - 2].slot) + 1, at);
    } else {
        lemma_reserved_grows(reserved, reservation, 0, at);
    }
    let alignment = tables[n - 1].slot.spec_alignment() as int;
    assert(reserved[at].1 == alignment);
    lemma_aligned_behind(before, reserved_end(reserved, reservation, at), start, alignment);
    read::lemma_aligned(before, alignment);
}

/// Tables that end low enough can be placed, and end where their sum says.
proof fn lemma_placeable(tables: Seq<PayloadModel>, start: u64, n: nat)
    requires
        n <= tables.len(),
        placed_end(tables, start as int, n as int) + 7 <= u64::MAX,
    ensures
        start <= placed_end(tables, start as int, n as int),
        fold::try_fold(
            n,
            Placed { placements: Seq::empty(), end: start },
            placement::place_step(tables),
        ) matches Ok(placed) && placed.end == placed_end(tables, start as int, n as int),
    decreases n,
{
    if n > 0 {
        let before = placed_end(tables, start as int, n - 1);
        let alignment = tables[n - 1].slot.spec_alignment();
        lemma_placed_grows(tables, start as int, n - 1);
        read::lemma_aligned(before, alignment as int);
        lemma_placeable(tables, start, (n - 1) as nat);
        assert(read::is_power_of_two(alignment as nat)) by {
            reveal_with_fuel(read::is_power_of_two, 4);
        }
    }
}

/// Tables end behind their start.
proof fn lemma_placed_grows(tables: Seq<PayloadModel>, start: int, n: int)
    requires
        0 <= start,
        0 <= n <= tables.len(),
    ensures
        start <= placed_end(tables, start, n),
    decreases n,
{
    if n > 0 {
        lemma_placed_grows(tables, start, n - 1);
        read::lemma_aligned(
            placed_end(tables, start, n - 1),
            tables[n - 1].slot.spec_alignment() as int,
        );
    }
}

/// What is reserved for the tables of the image whose sections are at `indices`.
pub open spec fn reserved_sizes(
    layout: LayoutModel,
    indices: SectionIndices,
    auxiliary: AuxiliaryElfImage,
) -> MergedSizes {
    sections::spec_merged_sizes(
        sections::spec_merged_counts(layout.section_headers, indices, auxiliary)->Ok_0,
        layout.section_headers[indices.versym as int],
        layout.section_headers[indices.verneed as int],
    )->Ok_0
}

/// Where the segment starts that is put behind the image.
pub open spec fn extension_start(layout: LayoutModel) -> int {
    read::aligned(
        layout.spec_private_section()->Ok_0.offset as int,
        layout.spec_load_alignment()->Ok_0 as int,
    )
}

/// The merged symbol tables are as large as what is reserved for them.
proof fn lemma_symbols_fit(
    image: Seq<u8>,
    layout: LayoutModel,
    indices: SectionIndices,
    patch_data: Seq<u8>,
    auxiliary_data: Seq<u8>,
)
    requires
        auxiliary_data.len() <= usize::MAX,
        merge::spec_merge_sections(
            image,
            layout.section_headers,
            indices,
            patch_data,
            auxiliary_data,
        ) is Ok,
        AuxiliaryElfImage::spec_parse(auxiliary_data) matches Ok(auxiliary)
            && sections::spec_mapping_length(layout, indices, auxiliary) is Ok,
    ensures
        ({
            let merged = merge::spec_merge_sections(
                image,
                layout.section_headers,
                indices,
                patch_data,
                auxiliary_data,
            )->Ok_0;
            let sizes = reserved_sizes(layout, indices, merged.auxiliary);
            &&& merged.indices == indices
            &&& merged.auxiliary == AuxiliaryElfImage::spec_parse(auxiliary_data)->Ok_0
            &&& merged.symbols.len() == sizes.dynsym
            &&& merged.versions.len() == sizes.versym
            &&& merged.version_requirements.len() == sizes.verneed
            &&& merged.strings.len() == sizes.dynstr
            &&& sizes.gnu_hash == 28 + (merged.names.len() - 1) * 4
            &&& indices.hash is Some ==> sizes.sysv_hash == (merged.names.len() * 2 + 2) * 4
        }),
{
    let headers = layout.section_headers;
    let dynsym = headers[indices.dynsym as int];
    let dynstr = headers[indices.dynstr as int];
    let versym = headers[indices.versym as int];
    let verneed = headers[indices.verneed as int];
    let (old_symbols, old_strings, hidden) = symbols::spec_restore_hidden_symbols(
        image,
        dynsym,
        dynstr,
        patch_data,
    )->Ok_0;
    symbols::law_hidden_symbols_in_place(image, dynsym, dynstr, patch_data, 0, 0);
    merge::law_merge_keeps_old_symbols(
        indices,
        old_symbols,
        old_strings,
        hidden,
        read::spec_slice_u64(image, versym.offset, versym.size)->Ok_0,
        read::spec_slice_u64(image, verneed.offset, verneed.size)->Ok_0,
        auxiliary_data,
    );
}

/// The merged relocation tables are no larger than what is reserved for them.
proof fn lemma_relocations_fit(
    image: Seq<u8>,
    layout: LayoutModel,
    indices: SectionIndices,
    auxiliary_data: Seq<u8>,
    auxiliary: AuxiliaryElfImage,
    old_symbol_count: usize,
)
    requires
        sections::spec_mapping_length(layout, indices, auxiliary) is Ok,
        materialize::spec_merge_relocations(
            image,
            layout.section_headers[indices.rela_dyn as int],
            layout.section_headers[indices.rela_plt as int],
            auxiliary_data,
            auxiliary,
            old_symbol_count,
        ) is Ok,
    ensures
        ({
            let relocations = materialize::spec_merge_relocations(
                image,
                layout.section_headers[indices.rela_dyn as int],
                layout.section_headers[indices.rela_plt as int],
                auxiliary_data,
                auxiliary,
                old_symbol_count,
            )->Ok_0;
            let sizes = reserved_sizes(layout, indices, auxiliary);
            &&& relocations.rela_dyn.len() <= sizes.rela_dyn
            &&& relocations.rela_plt.len() <= sizes.rela_plt
        }),
{
    reveal(materialize::spec_merge_relocations);
    let sources = RelocationSources::of(
        image,
        layout.section_headers[indices.rela_dyn as int],
        layout.section_headers[indices.rela_plt as int],
        auxiliary_data,
        auxiliary,
        old_symbol_count,
    );
    materialize_laws::lemma_merged_relocations_fit(sources);
}

/// Tables of the reserved sizes fit.
proof fn lemma_tables_fit(
    merged: MergedModel,
    relocations: RelocationModel,
    gnu_hash: Option<Seq<u8>>,
    sysv_hash: Option<Seq<u8>>,
    sizes: MergedSizes,
)
    requires
        merged.symbols.len() <= sizes.dynsym,
        merged.versions.len() <= sizes.versym,
        merged.version_requirements.len() <= sizes.verneed,
        gnu_hash matches Some(table) ==> table.len() <= sizes.gnu_hash,
        sysv_hash matches Some(table) ==> table.len() <= sizes.sysv_hash,
        merged.strings.len() <= sizes.dynstr,
        relocations.rela_dyn.len() <= sizes.rela_dyn,
        relocations.rela_plt.len() <= sizes.rela_plt,
    ensures
        fits(materialize::tables_of(merged, relocations, gnu_hash, sysv_hash), sizes),
        materialize::tables_of(merged, relocations, gnu_hash, sysv_hash).len() > 0,
        materialize::tables_of(merged, relocations, gnu_hash, sysv_hash).last().slot
            == TableSlot::RelaPlt,
{
}

/// An image of the reserved length has room for the rebuilt tables in the segment that is put
/// behind it, as long as the segment starts at a multiple of eight bytes and the hash tables are
/// no larger than one chain entry for each symbol asks for.
pub proof fn law_mapping_holds_the_tables(
    image: Seq<u8>,
    source: Seq<u8>,
    layout: LayoutModel,
    patch_data: Seq<u8>,
    auxiliary_data: Seq<u8>,
    gnu_hash: Seq<u8>,
    sysv_hash: Seq<u8>,
)
    requires
        auxiliary_data.len() <= usize::MAX,
        sections::spec_metadata_mapping_length(source, layout, auxiliary_data) matches Ok(length)
            && length + 7 <= u64::MAX,
        merge::spec_merge_symbols(image, source, layout, patch_data, auxiliary_data) is Ok,
        ({
            let merged = merge::spec_merge_symbols(
                image,
                source,
                layout,
                patch_data,
                auxiliary_data,
            )->Ok_0;
            &&& materialize::spec_merge_relocations(
                image,
                layout.section_headers[merged.indices.rela_dyn as int],
                layout.section_headers[merged.indices.rela_plt as int],
                auxiliary_data,
                merged.auxiliary,
                merged.old_symbol_count,
            ) is Ok
            &&& gnu_hash.len() <= 28 + (merged.names.len() - 1) * 4
            &&& sysv_hash.len() <= (merged.names.len() * 2 + 2) * 4
        }),
        extension_start(layout) % 8 == 0,
    ensures
        ({
            let length = sections::spec_metadata_mapping_length(
                source,
                layout,
                auxiliary_data,
            )->Ok_0;
            let tables = rebuild_laws::rebuilt_tables(
                image,
                source,
                layout,
                patch_data,
                auxiliary_data,
                gnu_hash,
                sysv_hash,
            );
            let reservation = layout.spec_additional_program_header_reservation()->Ok_0;
            placement::spec_table_placements(
                tables,
                (extension_start(layout) + reservation) as u64,
            ) matches Ok(placed) && placed.end <= length
        }),
{
    reveal(merge::spec_merge_symbols);
    let indices = sections::spec_required_section_indices(
        layout.spec_section_names(source)->Ok_0,
    )->Ok_0;
    let merged = merge::spec_merge_symbols(
        image,
        source,
        layout,
        patch_data,
        auxiliary_data,
    )->Ok_0;
    let sizes = reserved_sizes(layout, indices, merged.auxiliary);
    lemma_symbols_fit(image, layout, indices, patch_data, auxiliary_data);
    lemma_relocations_fit(
        image,
        layout,
        indices,
        auxiliary_data,
        merged.auxiliary,
        merged.old_symbol_count,
    );
    let relocations = materialize::spec_merge_relocations(
        image,
        layout.section_headers[indices.rela_dyn as int],
        layout.section_headers[indices.rela_plt as int],
        auxiliary_data,
        merged.auxiliary,
        merged.old_symbol_count,
    )->Ok_0;
    lemma_tables_fit(
        merged,
        relocations,
        materialize::if_present(indices.gnu_hash, gnu_hash),
        materialize::if_present(indices.hash, sysv_hash),
        sizes,
    );
    let tables = rebuild_laws::rebuilt_tables(
        image,
        source,
        layout,
        patch_data,
        auxiliary_data,
        gnu_hash,
        sysv_hash,
    );
    let reservation = layout.spec_additional_program_header_reservation()->Ok_0;
    let start = extension_start(layout);
    read::lemma_aligned(
        layout.spec_private_section()->Ok_0.offset as int,
        layout.spec_load_alignment()->Ok_0 as int,
    );
    lemma_reserved(sizes.in_order(), reservation as u64, 8);
    lemma_placed_below(tables, sizes, start, reservation as int, tables.len() as int);
    lemma_placeable(tables, (start + reservation) as u64, tables.len());
}

} // verus!
