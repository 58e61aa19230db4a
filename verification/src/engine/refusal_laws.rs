//! What a refusal tells, and how rebuilt tables are merged and written.

use super::artifact;
use super::artifact::EntryModel;
use super::artifact_laws;
use super::auxiliary;
use super::container;
use super::container::{SegmentCursor, WriterStep};
use super::container_laws;
use super::error::{Error, Fault};
use super::merge;
use super::placement;
use super::placement::{PayloadModel, PlacementReport, TableState};
use super::relocation::{KindRule, TableModel};
use super::restore;
use super::section_laws;
use super::section_laws::up;
use super::sections;
use super::sections::SectionIndices;
use super::stage1;
use super::stage1::Stage1Header;
use super::symbol_laws;
use super::symbols;
use super::symbols::{PatchState, SymbolPatch};
use super::writer;
use crate::bytes;
use crate::elf::image::ImageModel;
use crate::elf::layout::LayoutModel;
use crate::elf::read;
use crate::elf::SectionHeader;
use crate::fold;
use vstd::prelude::*;

verus! {

/// A segment without room for its header is refused as short, and one whose tables leave it for its
/// offsets, both with the segment's number.
pub proof fn law_refused_segments(segment: Seq<u8>, number: usize)
    requires
        bytes::u32_at(segment, 8) + bytes::u32_at(segment, 4) * 16 <= usize::MAX,
    ensures
        ({
            let opened = SegmentCursor::spec_open(segment, number);
            &&& segment.len() < 16 ==> opened == Err::<SegmentCursor, Error>(
                Error::Invalid(Fault::SegmentShort { segment: number }),
            )
            &&& segment.len() >= 16 && opened is Err ==> opened == Err::<SegmentCursor, Error>(
                Error::Invalid(Fault::SegmentOffsets { segment: number }),
            )
        }),
{
}

/// A writer that is not sound is refused with the number of the segment and its own.
pub proof fn law_refused_writers(segment: Seq<u8>, number: usize, n: nat)
    requires
        segment.len() <= usize::MAX,
        SegmentCursor::spec_open(segment, number) is Ok,
        n < bytes::u32_at(segment, 4),
        forall|k: int| 0 <= k < n ==> #[trigger] container_laws::is_sound_writer(segment, k),
        !container_laws::is_sound_writer(segment, n as int),
        container_laws::data_place(segment, n + 1) <= usize::MAX,
    ensures
        ({
            let start = SegmentCursor::spec_open(segment, number)->Ok_0;
            container::after_writers(segment, start, n)->0.spec_next(segment) == Err::<
                Option<WriterStep>,
                Error,
            >(Error::Invalid(Fault::WriterBounds { segment: number, writer: n as usize }))
        }),
{
    container_laws::lemma_cursor(segment, number, n);
    assert(container_laws::data_place(segment, n + 1) == container_laws::data_place(segment, n)
        + bytes::u32_at(segment, container_laws::record_place(segment, n as int) + 8));
}

/// A private section elsewhere than behind the segments is refused with both places, and one behind
/// bytes that are not zero with the range of those.
pub proof fn law_refused_private_sections(source: Seq<u8>, layout: LayoutModel)
    requires
        source.len() <= usize::MAX,
        layout.private_section_index < layout.section_headers.len(),
        layout.spec_file_load_end() is Ok,
        layout.spec_file_load_end()->Ok_0 + 15 <= u64::MAX,
    ensures
        ({
            let checked = restore::spec_check_private(source, layout);
            let private = layout.section_headers[layout.private_section_index as int];
            let end = layout.spec_file_load_end()->Ok_0;
            &&& private.offset != up(end as int, 16) ==> checked == Err::<SectionHeader, Error>(
                Error::Invalid(
                    Fault::PrivateOffset {
                        private: private.offset,
                        aligned_end: up(end as int, 16) as u64,
                        raw_end: end,
                    },
                ),
            )
            &&& private.offset == up(end as int, 16) && private.offset <= source.len()
                && checked is Err ==> checked == Err::<SectionHeader, Error>(
                Error::Invalid(Fault::LoadPadding { raw_end: end, private: private.offset }),
            )
        }),
{
    reveal_with_fuel(read::is_power_of_two, 6);
    assert(read::is_power_of_two(16));
    section_laws::lemma_up(layout.spec_file_load_end()->Ok_0, 16);
    section_laws::lemma_up_is_least(layout.spec_file_load_end()->Ok_0 as int, 16);
}

/// A section that is looked for is refused as lacking where no name is its name, and as a duplicate
/// where several are.
pub proof fn law_refused_names(
    headers: Seq<SectionHeader>,
    names: Seq<Seq<char>>,
    wanted: &'static str,
)
    requires
        names.len() <= usize::MAX,
        headers.len() == names.len(),
        !section_laws::is_there(names, wanted@),
    ensures
        ({
            let absent = section_laws::is_absent(names, wanted@);
            &&& sections::spec_required(names, wanted) == Err::<usize, Error>(
                Error::Invalid(
                    if absent {
                        Fault::LacksSection { name: wanted }
                    } else {
                        Fault::DuplicateSection { name: wanted }
                    },
                ),
            )
            &&& sections::spec_section_by_name(headers, names, wanted) == Err::<
                SectionHeader,
                Error,
            >(
                Error::Invalid(
                    if absent {
                        Fault::RestoredLacks { name: wanted }
                    } else {
                        Fault::RestoredDuplicate { name: wanted }
                    },
                ),
            )
        }),
{
    section_laws::law_named_section(headers, names, wanted, 0);
    let keep = sections::is_named(names, wanted@);
    fold::lemma_none_match(names.len(), keep);
    assert forall|k: int| 0 <= k < names.len() implies #[trigger] keep(k) == (names[k]
        == wanted@) by {
    }
    if sections::places(names, wanted@).len() == 0 {
        assert forall|k: int| 0 <= k < names.len() implies #[trigger] names[k] != wanted@ by {
            assert(!keep(k));
        }
    } else if section_laws::is_absent(names, wanted@) {
        assert forall|k: int| 0 <= k < names.len() implies !#[trigger] keep(k) by {
            assert(names[k] != wanted@);
        }
    }
}

/// The parameters of a loader are refused for the first of these that they break: the reserved word
/// is zero, the sizes agree, the range lies behind the parameters and within the room, and the size
/// is that of at least one word and of whole words.
pub proof fn law_refused_parameters(header: Stage1Header, room: int)
    requires
        0 <= room <= usize::MAX,
        header.payload_offset + header.payload_size <= usize::MAX,
    ensures
        ({
            let checked = stage1::spec_check_header(header, room);
            let end = header.payload_offset + header.payload_size;
            let in_range = 32 <= header.payload_offset && end <= room;
            &&& header.reserved != 0 ==> checked == Err::<(), Error>(
                Error::Invalid(Fault::ReservedWord { word: header.reserved }),
            )
            &&& header.reserved == 0 && header.size_copy != header.payload_size ==> checked
                == Err::<(), Error>(
                Error::Invalid(
                    Fault::SizeCopy { copy: header.size_copy, original: header.payload_size },
                ),
            )
            &&& header.reserved == 0 && header.size_copy == header.payload_size && !in_range
                ==> checked == Err::<(), Error>(
                Error::Invalid(
                    Fault::PayloadRange {
                        offset: header.payload_offset as usize,
                        end: end as usize,
                        available: room as usize,
                    },
                ),
            )
            &&& header.reserved == 0 && header.size_copy == header.payload_size && in_range && (
            header.payload_size == 0 || header.payload_size % 4 != 0) ==> checked == Err::<
                (),
                Error,
            >(Error::Invalid(Fault::PayloadSize { size: header.payload_size as usize }))
        }),
{
}

/// How many of the first `n` sections of an image are private.
pub open spec fn private_among(image: ImageModel, n: nat) -> nat
    decreases n,
{
    if n == 0 {
        0
    } else {
        private_among(image, (n - 1) as nat) + if image.sections[n - 1].section_type == 0x80000000 {
            1nat
        } else {
            0nat
        }
    }
}

/// Private sections are counted.
proof fn lemma_private_among(image: ImageModel, n: nat)
    ensures
        fold::matching(n, stage1::is_private(image)).len() == private_among(image, n) <= n,
    decreases n,
{
    if n > 0 {
        lemma_private_among(image, (n - 1) as nat);
    }
}

/// An image for another machine is refused with its machine, and one that has not exactly one private
/// section with their number.
pub proof fn law_refused_images(
    image: ImageModel,
    data: Seq<u8>,
    outer_size: usize,
    constant: u32,
)
    requires
        image.sections.len() <= usize::MAX,
    ensures
        ({
            let found = stage1::spec_inspect_image(image, data, outer_size, constant);
            let count = private_among(image, image.sections.len());
            &&& image.machine != 183 ==> found == Err::<stage1::Stage1Model, Error>(
                Error::Invalid(Fault::Machine { machine: image.machine }),
            )
            &&& image.machine == 183 && count != 1 ==> found == Err::<stage1::Stage1Model, Error>(
                Error::Invalid(Fault::PrivateCount { found: count as usize }),
            )
        }),
{
    lemma_private_among(image, image.sections.len());
}

/// A write behind the image's end is refused with its range.
pub proof fn law_refused_writes(
    image: Seq<u8>,
    layout: LayoutModel,
    load_end: u64,
    address: u64,
    data: Seq<u8>,
)
    requires
        load_end < address + data.len() <= u64::MAX,
    ensures
        writer::spec_write(image, layout, load_end, address, data) == (
            image,
            Err::<usize, Error>(
                Error::Invalid(
                    Fault::WriteBeyond { start: address, stop: (address + data.len()) as u64 },
                ),
            ),
        ),
{
}

/// A string is refused for its offset where that lies behind its table, and as unterminated
/// otherwise.
pub proof fn law_refused_strings(data: Seq<u8>, offset: usize, limit: usize)
    requires
        auxiliary::spec_read_c_string(data, offset as int, limit as int) is Err,
    ensures
        auxiliary::spec_read_c_string(data, offset as int, limit as int) == Err::<Seq<u8>, Error>(
            Error::Invalid(
                if offset < limit <= data.len() {
                    Fault::Unterminated { offset }
                } else {
                    Fault::StringOffset { offset, limit }
                },
            ),
        ),
{
}

/// An entry of a patch is refused with its target: where that is no symbol, where an entry before it
/// has it, where there is no room for the name, and where another name stands in its place.
pub proof fn law_refused_entries(
    data: Seq<u8>,
    symbol_count: int,
    state: PatchState,
    k: int,
    to: int,
    end: int,
)
    requires
        data.len() <= usize::MAX,
        SymbolPatch::spec_parse(data) is Ok,
        0 <= k < symbol_laws::word(data, 2),
        0 <= state.cursor,
    ensures
        ({
            let patch = SymbolPatch::spec_parse(data)->Ok_0;
            let applied = (patch.apply(data, symbol_count))(state, k);
            let target = symbol_laws::target_of(data, k);
            let at = bytes::u32_at(data, symbol_laws::entry_at(data, k)) as int;
            let is_symbol = 0 < target < symbol_count;
            let is_new = forall|j: int|
                0 <= j < k ==> #[trigger] symbol_laws::target_of(data, j) != target;
            let named = symbol_laws::is_string(
                data,
                state.cursor,
                to,
                8 + symbol_laws::word(data, 0),
            );
            let fits = at + (to - state.cursor) + 1 <= state.strings.len();
            &&& !is_symbol ==> applied == Err::<PatchState, Error>(
                Error::Invalid(Fault::TargetIndex { target: target as u32 }),
            )
            &&& is_symbol && !is_new ==> applied == Err::<PatchState, Error>(
                Error::Invalid(Fault::PatchedTwice { target: target as u32 }),
            )
            &&& is_symbol && is_new && named && !fits ==> applied == Err::<PatchState, Error>(
                Error::Invalid(Fault::NameExceeds { target: target as u32 }),
            )
            &&& is_symbol && is_new && named && fits && symbol_laws::is_string(
                state.strings,
                at,
                end,
                state.strings.len() as int,
            ) && end != at && state.strings.subrange(at, end) != data.subrange(state.cursor, to)
                ==> applied == Err::<PatchState, Error>(
                Error::Invalid(Fault::NameConflict { target: target as u32 }),
            )
        }),
{
    let patch = SymbolPatch::spec_parse(data)->Ok_0;
    let symbol = patch.symbol(data, k);
    let from = symbol_laws::entry_at(data, k);
    assert(symbol == data.subrange(from, from + 24));
    let at = bytes::u32_at(data, from) as int;
    assert(bytes::u32_at(symbol, 0) == at);
    symbol_laws::law_strings_end_at_a_zero(
        data,
        state.cursor,
        8 + symbol_laws::word(data, 0),
    );
    symbol_laws::law_strings_end_at_a_zero(state.strings, at, state.strings.len() as int);
    if patch.is_repeated(data, k) {
        let j = choose|j: int|
            0 <= j < k && #[trigger] patch.target(data, j) == patch.target(data, k);
        assert(symbol_laws::target_of(data, j) == symbol_laws::target_of(data, k));
    }
    if exists|j: int|
        0 <= j < k && #[trigger] symbol_laws::target_of(data, j) == symbol_laws::target_of(
            data,
            k,
        ) {
        let j = choose|j: int|
            0 <= j < k && #[trigger] symbol_laws::target_of(data, j) == symbol_laws::target_of(
                data,
                k,
            );
        assert(patch.target(data, j) == patch.target(data, k));
    }
}

/// A table of relocations is refused for the first whose type its rule does not allow, with the
/// table's name and that type.
pub proof fn law_refused_relocations(
    table: TableModel,
    rule: KindRule,
    name: &'static str,
    i: int,
)
    requires
        0 <= i < table.count,
        table.spec_relocation(i) is Ok,
        !rule.spec_allows(table.spec_relocation(i)->Ok_0.spec_kind()),
        forall|k: int|
            0 <= k < i ==> {
                let found = #[trigger] table.spec_relocation(k);
                found is Ok && rule.spec_allows(found->Ok_0.spec_kind())
            },
    ensures
        table.spec_validate(rule, name) == Err::<(), Error>(
            Error::Invalid(
                Fault::RelocationKind {
                    table: name,
                    kind: table.spec_relocation(i)->Ok_0.spec_kind(),
                },
            ),
        ),
{
    lemma_allowed(table, rule, name, i as nat);
    let step = table.validate_step(rule, name);
    assert(fold::try_fold((i + 1) as nat, (), step) == step((), i));
    fold::lemma_failure_stays((i + 1) as nat, table.count as nat, (), step);
}

/// Relocations whose types are allowed pass.
proof fn lemma_allowed(table: TableModel, rule: KindRule, name: &'static str, n: nat)
    requires
        forall|k: int|
            0 <= k < n ==> {
                let found = #[trigger] table.spec_relocation(k);
                found is Ok && rule.spec_allows(found->Ok_0.spec_kind())
            },
    ensures
        fold::try_fold(n, (), table.validate_step(rule, name)) is Ok,
    decreases n,
{
    if n > 0 {
        lemma_allowed(table, rule, name, (n - 1) as nat);
        assert(table.spec_relocation(n - 1) is Ok);
    }
}

/// An index all of whose entries can be used is refused with the modules that it has no files for.
pub proof fn law_refused_indexes(registry: Seq<EntryModel>, records: Seq<EntryModel>)
    requires
        ({
            let all = registry + records;
            forall|k: int| 0 <= k < all.len() ==> artifact_laws::is_usable(#[trigger] all[k])
        }),
    ensures
        ({
            let all = registry + records;
            let n = all.len() as int;
            let (b, d, e) = (
                artifact_laws::no_file(all, n, 0x9b),
                artifact_laws::no_file(all, n, 0x9d),
                artifact_laws::no_file(all, n, 0x9e),
            );
            b || d || e ==> artifact::spec_select(registry, records) == Err::<
                artifact::ArtifactsModel,
                Error,
            >(Error::Invalid(Fault::MissingIds { lacks_9b: b, lacks_9d: d, lacks_9e: e }))
        }),
{
    artifact_laws::lemma_files(registry, records, 0x9b);
    artifact_laws::lemma_files(registry, records, 0x9d);
    artifact_laws::lemma_files(registry, records, 0x9e);
}

/// Symbols are merged exactly when the section names can be read, the dynamic sections are found with
/// a hash among them, hidden symbols can be restored, there is one version entry of two bytes for
/// each symbol, versions and version requirements lie within the image, and the restored tables can
/// be merged. They are those restored tables merged.
pub proof fn law_sections_are_merged(
    image: Seq<u8>,
    source: Seq<u8>,
    layout: LayoutModel,
    patch_data: Seq<u8>,
    auxiliary_data: Seq<u8>,
)
    requires
        image.len() <= usize::MAX,
    ensures
        ({
            let merged = merge::spec_merge_symbols(
                image,
                source,
                layout,
                patch_data,
                auxiliary_data,
            );
            let names = layout.spec_section_names(source);
            let found = sections::spec_required_section_indices(names->Ok_0)->Ok_0;
            let headers = layout.section_headers;
            let (versym, verneed) = (headers[found.versym as int], headers[found.verneed as int]);
            let restored = symbols::spec_restore_hidden_symbols(
                image,
                headers[found.dynsym as int],
                headers[found.dynstr as int],
                patch_data,
            );
            let tables = merge::spec_merge_auxiliary(
                found,
                restored->Ok_0.0,
                restored->Ok_0.1,
                restored->Ok_0.2,
                image.subrange(versym.offset as int, versym.offset + versym.size),
                image.subrange(verneed.offset as int, verneed.offset + verneed.size),
                auxiliary_data,
            );
            &&& merged is Ok <==> {
                &&& names is Ok
                &&& sections::spec_required_section_indices(names->Ok_0) is Ok
                &&& found.hash is Some || found.gnu_hash is Some
                &&& restored is Ok
                &&& versym.size == restored->Ok_0.0.len() / 24 * 2
                &&& versym.offset + versym.size <= image.len()
                &&& verneed.offset + verneed.size <= image.len()
                &&& tables is Ok
            }
            &&& merged is Ok ==> merged == tables
        }),
{
    reveal(merge::spec_merge_symbols);
}

/// A table is written exactly when it ends within the image and its place has an address. It then
/// stands at its place, all other bytes stay, and its section's header has its address, place and
/// size, while other headers and fields stay.
pub proof fn law_tables_are_written(
    state: TableState,
    layout: LayoutModel,
    found: SectionIndices,
    table: PayloadModel,
    place: PlacementReport,
    i: int,
)
    requires
        state.failure is None,
        state.image.len() <= usize::MAX,
        table.slot.spec_index(found) is Some,
        table.slot.spec_index(found)->0 < state.sections.len(),
    ensures
        ({
            let after = placement::write_one(state, layout, found, table, place);
            let size = table.data.len() as int;
            let index = table.slot.spec_index(found)->0 as int;
            let address = layout.spec_file_offset_to_virtual_address(place.offset, size as u64);
            let (before, new) = (state.sections[index], after.sections[index]);
            &&& after.failure is None <==> place.offset + size <= state.image.len() && address is Ok
            &&& after.failure is None ==> {
                &&& after.image.len() == state.image.len()
                &&& 0 <= i < state.image.len() ==> after.image[i] == if place.offset <= i
                    < place.offset + size {
                    table.data[i - place.offset]
                } else {
                    state.image[i]
                }
                &&& after.sections.len() == state.sections.len()
                &&& 0 <= i < state.sections.len() && i != index ==> after.sections[i]
                    == state.sections[i]
                &&& new.address == address->Ok_0
                &&& new.offset == place.offset
                &&& new.size == size
                &&& new.name == before.name
                &&& new.section_type == before.section_type
                &&& new.flags == before.flags
                &&& new.link == before.link
                &&& new.info == before.info
                &&& new.alignment == before.alignment
                &&& new.entry_size == before.entry_size
            }
        }),
{
}

/// Unsigned words of which the top bit is set stand for the negative numbers, counted down from
/// zero, and back.
pub proof fn law_signed_numbers(word: u32, number: i64)
    ensures
        bytes::as_signed32(word) == if word < 2147483648 {
            word as int
        } else {
            word - 4294967296
        },
        bytes::as_unsigned64(number) == if number >= 0 {
            number as int
        } else {
            number + 18446744073709551616
        },
        bytes::as_signed64(bytes::as_unsigned64(number)) == number,
{
}

} // verus!
