//! Which sections are found, how much room their tables need, and where the tables go.

use super::auxiliary::AuxiliaryElfImage;
use super::placement;
use super::placement::{PayloadModel, TableSlot};
use super::sections;
use super::sections::SectionIndices;
use crate::elf::layout::LayoutModel;
use crate::elf::read;
use crate::elf::SectionHeader;
use crate::fold;
use vstd::prelude::*;

verus! {

/// Name `i` is `wanted`, and no other name is.
pub open spec fn is_only(names: Seq<Seq<char>>, wanted: Seq<char>, i: int) -> bool {
    &&& 0 <= i < names.len()
    &&& names[i] == wanted
    &&& forall|k: int| 0 <= k < names.len() && k != i ==> #[trigger] names[k] != wanted
}

/// Name `i` is `wanted`, and no name before it is.
pub open spec fn is_first(names: Seq<Seq<char>>, wanted: Seq<char>, i: int) -> bool {
    &&& 0 <= i < names.len()
    &&& names[i] == wanted
    &&& forall|k: int| 0 <= k < i ==> #[trigger] names[k] != wanted
}

/// No name is `wanted`.
pub open spec fn is_absent(names: Seq<Seq<char>>, wanted: Seq<char>) -> bool {
    forall|k: int| 0 <= k < names.len() ==> #[trigger] names[k] != wanted
}

/// The first match comes first.
proof fn lemma_first_match(n: nat, keep: spec_fn(int) -> bool)
    ensures
        fold::matching(n, keep).len() > 0 ==> {
            let s = fold::matching(n, keep)[0];
            &&& 0 <= s < n
            &&& keep(s)
            &&& forall|k: int| 0 <= k < s ==> !#[trigger] keep(k)
        },
    decreases n,
{
    if n > 0 {
        lemma_first_match((n - 1) as nat, keep);
        fold::lemma_none_match((n - 1) as nat, keep);
    }
}

/// A name that has to be there is found exactly when it is there once.
proof fn lemma_required(names: Seq<Seq<char>>, wanted: &'static str)
    requires
        names.len() <= usize::MAX,
    ensures
        sections::spec_required(names, wanted) is Ok <==> exists|i: int| #[trigger]
            is_only(names, wanted@, i),
        sections::spec_required(names, wanted) matches Ok(i) ==> is_only(names, wanted@, i as int),
        sections::spec_optional(names, wanted) is Ok <==> is_absent(names, wanted@) || exists|i: int|
            #[trigger] is_only(names, wanted@, i),
        sections::spec_optional(names, wanted) matches Ok(found) ==> match found {
            Some(i) => is_only(names, wanted@, i as int),
            None => is_absent(names, wanted@),
        },
        match sections::spec_first(names, wanted) {
            Some(i) => is_first(names, wanted@, i as int),
            None => is_absent(names, wanted@),
        },
{
    let keep = sections::is_named(names, wanted@);
    let found = sections::places(names, wanted@);
    assert forall|k: int| 0 <= k < names.len() implies #[trigger] keep(k) == (names[k] == wanted@) by {
    }
    fold::lemma_none_match(names.len(), keep);
    lemma_first_match(names.len(), keep);
    if found.len() == 0 {
        assert forall|k: int| 0 <= k < names.len() implies #[trigger] names[k] != wanted@ by {
            assert(!keep(k));
        }
    } else {
        let s = found[0];
        assert(names[s] == wanted@);
        assert forall|k: int| 0 <= k < s implies #[trigger] names[k] != wanted@ by {
            assert(!keep(k));
        }
    }
    if found.len() == 1 {
        fold::lemma_match_is_single(names.len(), keep);
        let s = found[0];
        assert forall|k: int| 0 <= k < names.len() && k != s implies #[trigger] names[k]
            != wanted@ by {
            assert(!keep(k));
        }
        assert(is_only(names, wanted@, s));
    }
    if exists|i: int| #[trigger] is_only(names, wanted@, i) {
        let i = choose|i: int| #[trigger] is_only(names, wanted@, i);
        assert(keep(i));
        assert forall|k: int| 0 <= k < names.len() && k != i implies !#[trigger] keep(k) by {
            assert(names[k] != wanted@);
        }
        fold::lemma_single_match(names.len(), keep, i);
    }
}

/// `wanted` is there exactly once.
pub open spec fn is_there(names: Seq<Seq<char>>, wanted: Seq<char>) -> bool {
    exists|i: int| #[trigger] is_only(names, wanted, i)
}

/// The dynamic sections are found exactly when each of them is there once and the old hash at most
/// once.
pub proof fn law_sections_are_found(names: Seq<Seq<char>>)
    requires
        names.len() <= usize::MAX,
    ensures
        sections::spec_required_section_indices(names) is Ok <==> {
            &&& is_there(names, ".dynsym"@)
            &&& is_there(names, ".gnu.version"@)
            &&& is_there(names, ".gnu.version_r"@)
            &&& is_there(names, ".dynstr"@)
            &&& is_there(names, ".rela.dyn"@)
            &&& is_there(names, ".rela.plt"@)
            &&& is_there(names, ".dynamic"@)
            &&& is_absent(names, ".hash"@) || is_there(names, ".hash"@)
        },
        sections::spec_required_section_indices(names) matches Ok(found) ==> {
            &&& is_only(names, ".dynsym"@, found.dynsym as int)
            &&& is_only(names, ".gnu.version"@, found.versym as int)
            &&& is_only(names, ".gnu.version_r"@, found.verneed as int)
            &&& is_only(names, ".dynstr"@, found.dynstr as int)
            &&& is_only(names, ".rela.dyn"@, found.rela_dyn as int)
            &&& is_only(names, ".rela.plt"@, found.rela_plt as int)
            &&& is_only(names, ".dynamic"@, found.dynamic as int)
            &&& match found.gnu_hash {
                Some(i) => is_first(names, ".gnu.hash"@, i as int),
                None => is_absent(names, ".gnu.hash"@),
            }
            &&& match found.hash {
                Some(i) => is_only(names, ".hash"@, i as int),
                None => is_absent(names, ".hash"@),
            }
        },
{
    lemma_required(names, ".dynsym");
    lemma_required(names, ".gnu.version");
    lemma_required(names, ".gnu.version_r");
    lemma_required(names, ".dynstr");
    lemma_required(names, ".rela.dyn");
    lemma_required(names, ".rela.plt");
    lemma_required(names, ".dynamic");
    lemma_required(names, ".gnu.hash");
    lemma_required(names, ".hash");
}

/// A section of a restored image is found exactly when it is there once, and is the one of that
/// name.
pub proof fn law_named_section(
    headers: Seq<SectionHeader>,
    names: Seq<Seq<char>>,
    wanted: &'static str,
    i: int,
)
    requires
        names.len() <= usize::MAX,
        headers.len() == names.len(),
    ensures
        ({
            let found = sections::spec_section_by_name(headers, names, wanted);
            &&& found is Ok <==> is_there(names, wanted@)
            &&& is_only(names, wanted@, i) ==> found is Ok && found->Ok_0 == headers[i]
        }),
{
    lemma_required(names, wanted);
    let keep = sections::is_named(names, wanted@);
    if is_only(names, wanted@, i) {
        assert(keep(i));
        assert forall|k: int| 0 <= k < names.len() && k != i implies !#[trigger] keep(k) by {
            assert(names[k] != wanted@);
        }
        fold::lemma_single_match(names.len(), keep, i);
    }
}

/// Section `i` keeps file bytes from `start` on that are none of the tables: it is not one of the
/// dynamic sections, has file bytes, and starts at `start` or behind.
pub open spec fn is_in_the_way(
    layout: LayoutModel,
    found: SectionIndices,
    start: u64,
    i: int,
) -> bool {
    let section = layout.section_headers[i];
    &&& i != found.dynsym && i != found.versym && i != found.verneed && i != found.dynstr
    &&& i != found.rela_dyn && i != found.rela_plt && i != found.dynamic
    &&& found.gnu_hash != Some(i as usize)
    &&& found.hash != Some(i as usize)
    &&& section.section_type != 8
    &&& section.size != 0
    &&& section.offset >= start
}

/// The room for tables ends at the first section in the way or at the private section, whichever
/// comes first, and is empty where that lies in front of the start.
pub proof fn law_room_ends_at_the_first_obstacle(
    layout: LayoutModel,
    found: SectionIndices,
    start: u64,
    i: int,
)
    requires
        layout.section_headers.len() <= usize::MAX,
        layout.private_section_index < layout.section_headers.len(),
    ensures
        ({
            let private = layout.section_headers[layout.private_section_index as int];
            let room = sections::spec_metadata_capacity_end(layout, found, start);
            &&& room is Ok
            &&& room matches Ok(end) ==> {
                &&& start <= end
                &&& private.offset >= start ==> end <= private.offset
                &&& 0 <= i < layout.section_headers.len() && is_in_the_way(layout, found, start, i)
                    ==> end <= layout.section_headers[i].offset
                &&& end == start || end == private.offset || exists|k: int|
                    0 <= k < layout.section_headers.len() && #[trigger] is_in_the_way(
                        layout,
                        found,
                        start,
                        k,
                    ) && end == layout.section_headers[k].offset
                &&& end == start ==> private.offset <= start || exists|k: int|
                    0 <= k < layout.section_headers.len() && #[trigger] is_in_the_way(
                        layout,
                        found,
                        start,
                        k,
                    ) && layout.section_headers[k].offset == start
            }
        }),
{
    let private = layout.section_headers[layout.private_section_index as int];
    let n = layout.section_headers.len();
    lemma_lowest(layout, found, start, n, private.offset, i);
}

/// The lowest section in the way.
proof fn lemma_lowest(
    layout: LayoutModel,
    found: SectionIndices,
    start: u64,
    n: nat,
    limit: u64,
    i: int,
)
    requires
        n <= layout.section_headers.len() <= usize::MAX,
    ensures
        ({
            let end = sections::lowest_block(layout.section_headers, found, start, n, limit);
            &&& end <= limit
            &&& 0 <= i < n && is_in_the_way(layout, found, start, i) ==> end
                <= layout.section_headers[i].offset
            &&& end == limit || exists|k: int|
                0 <= k < n && #[trigger] is_in_the_way(layout, found, start, k) && end
                    == layout.section_headers[k].offset
        }),
    decreases n,
{
    if n > 0 {
        lemma_lowest(layout, found, start, (n - 1) as nat, limit, i);
        let k = n - 1;
        assert(sections::blocks(layout.section_headers, found, start, k) == is_in_the_way(
            layout,
            found,
            start,
            k,
        ));
    }
}

/// The multiple of `alignment` that lies less than one alignment above `value`.
pub open spec fn up(value: int, alignment: int) -> int {
    (value + alignment - 1) / alignment * alignment
}

/// Rounding up yields the only multiple of the alignment less than one alignment above a value.
pub proof fn lemma_up_is_least(value: int, alignment: int)
    requires
        alignment > 0,
    ensures
        value <= up(value, alignment) < value + alignment,
        up(value, alignment) % alignment == 0,
        forall|r: int|
            value <= r < value + alignment && #[trigger] (r % alignment) == 0 ==> r == up(
                value,
                alignment,
            ),
{
    let q = (value + alignment - 1) / alignment;
    vstd::arithmetic::div_mod::lemma_fundamental_div_mod(value + alignment - 1, alignment);
    vstd::arithmetic::div_mod::lemma_mod_bound(value + alignment - 1, alignment);
    vstd::arithmetic::mul::lemma_mul_is_commutative(alignment, q);
    vstd::arithmetic::div_mod::lemma_mod_multiples_basic(q, alignment);
    assert forall|r: int|
        value <= r < value + alignment && #[trigger] (r % alignment) == 0 implies r == up(
        value,
        alignment,
    ) by {
        vstd::arithmetic::div_mod::lemma_fundamental_div_mod(r, alignment);
        let p = r / alignment;
        assert(r == alignment * p);
        assert(p == q) by (nonlinear_arith)
            requires
                alignment > 0,
                value <= alignment * p < value + alignment,
                value <= q * alignment < value + alignment,
        ;
        vstd::arithmetic::mul::lemma_mul_is_commutative(alignment, p);
    }
}

/// Rounding up, in one formula.
pub proof fn lemma_up(value: u64, alignment: u64)
    requires
        alignment > 0,
    ensures
        read::spec_align_up(value, alignment) matches Ok(rounded) ==> rounded == up(
            value as int,
            alignment as int,
        ),
{
    if read::spec_align_up(value, alignment) is Ok {
        let (v, a) = (value as int, alignment as int);
        let r = read::aligned(v, a);
        read::lemma_aligned(v, a);
        let q = r / a;
        vstd::arithmetic::div_mod::lemma_fundamental_div_mod(r, a);
        assert(q * a == r) by (nonlinear_arith)
            requires
                r == a * q + r % a,
                r % a == 0,
        ;
        let excess = v + a - 1 - r;
        assert((v + a - 1) == q * a + excess);
        vstd::arithmetic::div_mod::lemma_fundamental_div_mod_converse(v + a - 1, a, q, excess);
    }
}

/// The tables are named, aligned and found by their kind.
pub proof fn law_slots(found: SectionIndices)
    ensures
        TableSlot::Dynsym.spec_name()@ == ".dynsym"@,
        TableSlot::Versym.spec_name()@ == ".gnu.version"@,
        TableSlot::Verneed.spec_name()@ == ".gnu.version_r"@,
        TableSlot::GnuHash.spec_name()@ == ".gnu.hash"@,
        TableSlot::SysvHash.spec_name()@ == ".hash"@,
        TableSlot::Dynstr.spec_name()@ == ".dynstr"@,
        TableSlot::RelaDyn.spec_name()@ == ".rela.dyn"@,
        TableSlot::RelaPlt.spec_name()@ == ".rela.plt"@,
        TableSlot::Dynsym.spec_index(found) == Some(found.dynsym),
        TableSlot::Versym.spec_index(found) == Some(found.versym),
        TableSlot::Verneed.spec_index(found) == Some(found.verneed),
        TableSlot::GnuHash.spec_index(found) == found.gnu_hash,
        TableSlot::SysvHash.spec_index(found) == found.hash,
        TableSlot::Dynstr.spec_index(found) == Some(found.dynstr),
        TableSlot::RelaDyn.spec_index(found) == Some(found.rela_dyn),
        TableSlot::RelaPlt.spec_index(found) == Some(found.rela_plt),
{
}

/// The alignment that the entries of a table need.
pub open spec fn needed_alignment(slot: TableSlot) -> int {
    match slot {
        TableSlot::Dynsym | TableSlot::GnuHash | TableSlot::RelaDyn | TableSlot::RelaPlt => 8,
        TableSlot::Verneed | TableSlot::SysvHash => 4,
        TableSlot::Versym => 2,
        TableSlot::Dynstr => 1,
    }
}

/// Tables are laid out as close together as their alignments allow: the first at the start, rounded
/// up, and each other one behind the one before it, rounded up.
pub proof fn law_tables_are_packed(tables: Seq<PayloadModel>, start: u64, i: int)
    requires
        forall|k: int| 0 <= k < tables.len() ==> (#[trigger] tables[k]).data.len() <= usize::MAX,
        placement::spec_table_placements(tables, start) is Ok,
    ensures
        ({
            let placed = placement::spec_table_placements(tables, start)->Ok_0;
            &&& placed.placements.len() == tables.len()
            &&& tables.len() == 0 ==> placed.end == start
            &&& tables.len() > 0 ==> placed.placements[0].offset == up(
                start as int,
                needed_alignment(tables[0].slot),
            )
            &&& 0 <= i < tables.len() ==> placed.placements[i].size == tables[i].data.len()
            &&& 0 < i < tables.len() ==> placed.placements[i].offset == up(
                placed.placements[i - 1].offset + placed.placements[i - 1].size,
                needed_alignment(tables[i].slot),
            )
            &&& tables.len() > 0 ==> placed.end == placed.placements.last().offset
                + placed.placements.last().size
        }),
{
    lemma_packed(tables, start, tables.len(), i);
}

/// The first `n` tables.
proof fn lemma_packed(tables: Seq<PayloadModel>, start: u64, n: nat, i: int)
    requires
        n <= tables.len(),
        forall|k: int| 0 <= k < tables.len() ==> (#[trigger] tables[k]).data.len() <= usize::MAX,
        fold::try_fold(
            n,
            placement::Placed { placements: Seq::empty(), end: start },
            placement::place_step(tables),
        ) is Ok,
    ensures
        ({
            let placed = fold::try_fold(
                n,
                placement::Placed { placements: Seq::empty(), end: start },
                placement::place_step(tables),
            )->Ok_0;
            &&& placed.placements.len() == n
            &&& n == 0 ==> placed.end == start
            &&& n > 0 ==> placed.placements[0].offset == up(
                start as int,
                needed_alignment(tables[0].slot),
            )
            &&& 0 <= i < n ==> placed.placements[i].size == tables[i].data.len()
            &&& 0 < i < n ==> placed.placements[i].offset == up(
                placed.placements[i - 1].offset + placed.placements[i - 1].size,
                needed_alignment(tables[i].slot),
            )
            &&& n > 0 ==> placed.end == placed.placements.last().offset
                + placed.placements.last().size
        }),
    decreases n,
{
    if n > 0 {
        lemma_packed(tables, start, (n - 1) as nat, i);
        let before = fold::try_fold(
            (n - 1) as nat,
            placement::Placed { placements: Seq::empty(), end: start },
            placement::place_step(tables),
        )->Ok_0;
        lemma_up(before.end, tables[n - 1].slot.spec_alignment());
    }
}

/// Laying tables out can fail only where the end of one of them does not fit in 64 bits.
pub proof fn law_small_tables_fit(tables: Seq<PayloadModel>, start: u64)
    requires
        start <= 0x1000_0000_0000,
        tables.len() <= 8,
        forall|k: int| 0 <= k < tables.len() ==> (#[trigger] tables[k]).data.len() <= 0x1000_0000_0000,
    ensures
        placement::spec_table_placements(tables, start) is Ok,
{
    lemma_small_tables(tables, start, tables.len());
}

/// The first `n` of small tables.
proof fn lemma_small_tables(tables: Seq<PayloadModel>, start: u64, n: nat)
    requires
        n <= tables.len() <= 8,
        start <= 0x1000_0000_0000,
        forall|k: int| 0 <= k < tables.len() ==> (#[trigger] tables[k]).data.len() <= 0x1000_0000_0000,
    ensures
        fold::try_fold(
            n,
            placement::Placed { placements: Seq::empty(), end: start },
            placement::place_step(tables),
        ) matches Ok(placed) && placed.end <= start + n * 0x1000_0000_0008,
    decreases n,
{
    if n > 0 {
        lemma_small_tables(tables, start, (n - 1) as nat);
        let before = fold::try_fold(
            (n - 1) as nat,
            placement::Placed { placements: Seq::empty(), end: start },
            placement::place_step(tables),
        )->Ok_0;
        let alignment = tables[n - 1].slot.spec_alignment();
        reveal_with_fuel(read::is_power_of_two, 5);
        assert(read::is_power_of_two(alignment as nat));
        read::lemma_aligned(before.end as int, alignment as int);
        let offset = read::aligned(before.end as int, alignment as int);
        assert(read::spec_align_up(before.end, alignment) == Ok::<u64, crate::elf::Error>(
            offset as u64,
        ));
        let size = tables[n - 1].data.len();
        assert(size <= 0x1000_0000_0000);
        let after = (placement::place_step(tables))(before, n - 1);
        assert(after is Ok && after->Ok_0.end == offset + size);
    }
}

/// Where tables of the given sizes and alignments end that are laid out from `start` on.
pub open spec fn packed_end(start: int, sizes: Seq<int>, alignments: Seq<int>, n: int) -> int
    decreases n,
{
    if n <= 0 {
        start
    } else {
        up(packed_end(start, sizes, alignments, n - 1), alignments[n - 1]) + sizes[n - 1]
    }
}

/// The sizes of the merged tables in the order in which they are laid out.
pub open spec fn merged_table_sizes(
    layout: LayoutModel,
    found: SectionIndices,
    auxiliary: AuxiliaryElfImage,
) -> Seq<int> {
    let headers = layout.section_headers;
    let symbols = headers[found.dynsym as int].size / 24 + auxiliary.dynsym_count - 1;
    seq![
        symbols * 24,
        headers[found.versym as int].size + (auxiliary.dynsym_count - 1) * 2,
        headers[found.verneed as int].size as int,
        28 + (symbols - 1) * 4,
        if found.hash is Some {
            (symbols * 2 + 2) * 4
        } else {
            0
        },
        headers[found.dynstr as int].size + auxiliary.dynstr_size,
        (headers[found.rela_dyn as int].size / 24 + auxiliary.relocation1_count
            + auxiliary.relocation2_count) * 24,
        (headers[found.rela_plt as int].size / 24 + auxiliary.relocation2_count) * 24,
    ]
}

/// The alignments of the merged tables in the order in which they are laid out.
pub open spec fn merged_table_alignments() -> Seq<int> {
    seq![8int, 2int, 4int, 8int, 4int, 1int, 8int, 8int]
}

/// A mapping reaches from the start of the image to the end of the merged tables, which are laid out
/// from the end of the image on, rounded up to the alignment of segments, behind room for a moved
/// program header table.
pub proof fn law_mapping_holds_image_and_tables(
    layout: LayoutModel,
    found: SectionIndices,
    auxiliary: AuxiliaryElfImage,
)
    requires
        auxiliary.dynsym_count > 0,
        sections::spec_mapping_length(layout, found, auxiliary) is Ok,
    ensures
        ({
            let length = sections::spec_mapping_length(layout, found, auxiliary)->Ok_0;
            let private = layout.section_headers[layout.private_section_index as int];
            let reservation = layout.spec_additional_program_header_reservation()->Ok_0;
            &&& layout.spec_load_alignment() is Ok
            &&& layout.spec_additional_program_header_reservation() is Ok
            &&& layout.private_section_index < layout.section_headers.len()
            &&& length == up(
                private.offset as int,
                layout.spec_load_alignment()->Ok_0 as int,
            ) + packed_end(
                reservation as int,
                merged_table_sizes(layout, found, auxiliary),
                merged_table_alignments(),
                8,
            )
        }),
{
    let headers = layout.section_headers;
    let counts = sections::spec_merged_counts(headers, found, auxiliary)->Ok_0;
    let sizes = sections::spec_merged_sizes(
        counts,
        headers[found.versym as int],
        headers[found.verneed as int],
    )->Ok_0;
    let alignment = layout.spec_load_alignment()->Ok_0;
    let private = layout.spec_private_section()->Ok_0;
    lemma_up(private.offset, alignment);
    let list = sizes.in_order();
    let wanted = merged_table_sizes(layout, found, auxiliary);
    lemma_counts(layout, found, auxiliary);
    assert forall|k: int| 0 <= k < 8 implies (#[trigger] list[k]).0 == wanted[k] && list[k].1
        == merged_table_alignments()[k] by {
    }
    let reservation = layout.spec_additional_program_header_reservation()->Ok_0;
    lemma_reserved(list, wanted, reservation as u64, 8);
}

/// The sizes of the merged tables.
proof fn lemma_counts(layout: LayoutModel, found: SectionIndices, auxiliary: AuxiliaryElfImage)
    requires
        auxiliary.dynsym_count > 0,
        sections::spec_merged_counts(layout.section_headers, found, auxiliary) is Ok,
        sections::spec_merged_sizes(
            sections::spec_merged_counts(layout.section_headers, found, auxiliary)->Ok_0,
            layout.section_headers[found.versym as int],
            layout.section_headers[found.verneed as int],
        ) is Ok,
    ensures
        ({
            let headers = layout.section_headers;
            let counts = sections::spec_merged_counts(headers, found, auxiliary)->Ok_0;
            let sizes = sections::spec_merged_sizes(
                counts,
                headers[found.versym as int],
                headers[found.verneed as int],
            )->Ok_0;
            let wanted = merged_table_sizes(layout, found, auxiliary);
            &&& sizes.dynsym == wanted[0]
            &&& sizes.versym == wanted[1]
            &&& sizes.verneed == wanted[2]
            &&& sizes.gnu_hash == wanted[3]
            &&& sizes.sysv_hash == wanted[4]
            &&& sizes.dynstr == wanted[5]
            &&& sizes.rela_dyn == wanted[6]
            &&& sizes.rela_plt == wanted[7]
        }),
{
}

/// Where the first `n` tables end.
proof fn lemma_reserved(list: Seq<(usize, u64)>, sizes: Seq<int>, start: u64, n: nat)
    requires
        n <= list.len() == 8,
        forall|k: int|
            0 <= k < 8 ==> (#[trigger] list[k]).0 == sizes[k] && list[k].1
                == merged_table_alignments()[k],
        fold::try_fold(n, start, sections::reserve_step(list)) is Ok,
    ensures
        fold::try_fold(n, start, sections::reserve_step(list))->Ok_0 == packed_end(
            start as int,
            sizes,
            merged_table_alignments(),
            n as int,
        ),
    decreases n,
{
    if n > 0 {
        lemma_reserved(list, sizes, start, (n - 1) as nat);
        let before = fold::try_fold((n - 1) as nat, start, sections::reserve_step(list))->Ok_0;
        assert(list[n - 1].1 == merged_table_alignments()[n - 1]);
        lemma_up(before, list[n - 1].1);
    }
}

} // verus!
