//! Laying out the merged tables and writing them into an image.

use super::error::{invalid, lift, Error, Fault, Result};
use super::sections::SectionIndices;
use crate::bytes;
use crate::bytes::store;
use crate::elf::layout::LayoutModel;
use crate::elf::read;
use crate::elf::{align_up, usize_from_u64, ElfLayout, SectionHeader};
use crate::engine::error;
use crate::fold;
use vstd::prelude::*;

verus! {

/// The tables that are rebuilt.
#[derive(Debug, Clone, Copy, PartialEq, Eq, Structural)]
pub enum TableSlot {
    Dynsym,
    Versym,
    Verneed,
    GnuHash,
    SysvHash,
    Dynstr,
    RelaDyn,
    RelaPlt,
}

impl TableSlot {
    /// The name of the table's section.
    pub open spec fn spec_name(self) -> &'static str {
        match self {
            TableSlot::Dynsym => ".dynsym",
            TableSlot::Versym => ".gnu.version",
            TableSlot::Verneed => ".gnu.version_r",
            TableSlot::GnuHash => ".gnu.hash",
            TableSlot::SysvHash => ".hash",
            TableSlot::Dynstr => ".dynstr",
            TableSlot::RelaDyn => ".rela.dyn",
            TableSlot::RelaPlt => ".rela.plt",
        }
    }

    /// The name of the table's section.
    pub fn name(self) -> (name: &'static str)
        ensures
            name == self.spec_name(),
    {
        match self {
            TableSlot::Dynsym => ".dynsym",
            TableSlot::Versym => ".gnu.version",
            TableSlot::Verneed => ".gnu.version_r",
            TableSlot::GnuHash => ".gnu.hash",
            TableSlot::SysvHash => ".hash",
            TableSlot::Dynstr => ".dynstr",
            TableSlot::RelaDyn => ".rela.dyn",
            TableSlot::RelaPlt => ".rela.plt",
        }
    }

    /// The alignment of the table in the file.
    pub open spec fn spec_alignment(self) -> u64 {
        match self {
            TableSlot::Dynsym => 8,
            TableSlot::Versym => 2,
            TableSlot::Verneed => 4,
            TableSlot::GnuHash => 8,
            TableSlot::SysvHash => 4,
            TableSlot::Dynstr => 1,
            TableSlot::RelaDyn => 8,
            TableSlot::RelaPlt => 8,
        }
    }

    /// The alignment of the table in the file.
    pub fn alignment(self) -> (alignment: u64)
        ensures
            alignment == self.spec_alignment(),
    {
        match self {
            TableSlot::Dynsym => 8,
            TableSlot::Versym => 2,
            TableSlot::Verneed => 4,
            TableSlot::GnuHash => 8,
            TableSlot::SysvHash => 4,
            TableSlot::Dynstr => 1,
            TableSlot::RelaDyn => 8,
            TableSlot::RelaPlt => 8,
        }
    }

    /// Where the table's section stands in the section table, if the image has it.
    pub open spec fn spec_index(self, indices: SectionIndices) -> Option<usize> {
        match self {
            TableSlot::Dynsym => Some(indices.dynsym),
            TableSlot::Versym => Some(indices.versym),
            TableSlot::Verneed => Some(indices.verneed),
            TableSlot::GnuHash => indices.gnu_hash,
            TableSlot::SysvHash => indices.hash,
            TableSlot::Dynstr => Some(indices.dynstr),
            TableSlot::RelaDyn => Some(indices.rela_dyn),
            TableSlot::RelaPlt => Some(indices.rela_plt),
        }
    }

    /// Where the table's section stands in the section table, if the image has it.
    pub fn index(self, indices: &SectionIndices) -> (index: Option<usize>)
        ensures
            index == self.spec_index(*indices),
    {
        match self {
            TableSlot::Dynsym => Some(indices.dynsym),
            TableSlot::Versym => Some(indices.versym),
            TableSlot::Verneed => Some(indices.verneed),
            TableSlot::GnuHash => indices.gnu_hash,
            TableSlot::SysvHash => indices.hash,
            TableSlot::Dynstr => Some(indices.dynstr),
            TableSlot::RelaDyn => Some(indices.rela_dyn),
            TableSlot::RelaPlt => Some(indices.rela_plt),
        }
    }
}

/// A rebuilt table.
#[derive(Debug)]
pub struct TablePayload {
    pub slot: TableSlot,
    pub data: Vec<u8>,
}

/// The mathematical content of a [`TablePayload`].
pub struct PayloadModel {
    pub slot: TableSlot,
    pub data: Seq<u8>,
}

impl View for TablePayload {
    type V = PayloadModel;

    open spec fn view(&self) -> PayloadModel {
        PayloadModel { slot: self.slot, data: self.data@ }
    }
}

/// The contents of a list of tables.
pub open spec fn payloads(tables: Seq<TablePayload>) -> Seq<PayloadModel> {
    Seq::new(tables.len(), |i: int| tables[i]@)
}

/// Where a table is put.
#[derive(Debug, Clone, Copy, PartialEq, Eq, Structural)]
pub struct PlacementReport {
    pub offset: u64,
    pub size: usize,
}

/// Tables that have been laid out, and where the next one can start.
#[verifier::ext_equal]
pub struct Placed {
    pub placements: Seq<PlacementReport>,
    pub end: u64,
}

/// Lays out table `index` behind the ones before it.
pub open spec fn place_step(tables: Seq<PayloadModel>) -> spec_fn(Placed, int) -> Result<Placed> {
    |placed: Placed, index: int|
        {
            let size = tables[index].data.len();
            match read::spec_align_up(placed.end, tables[index].slot.spec_alignment()) {
                Err(e) => Err(Error::Elf(e)),
                Ok(offset) => if offset + size > u64::MAX {
                    Err(error::fault("rebuilt ELF metadata end overflow"))
                } else {
                    Ok(
                        Placed {
                            placements: placed.placements.push(
                                PlacementReport { offset, size: size as usize },
                            ),
                            end: (offset + size) as u64,
                        },
                    )
                },
            }
        }
}

/// The places of tables laid out one after the other from `start` on.
pub open spec fn spec_table_placements(tables: Seq<PayloadModel>, start: u64) -> Result<Placed> {
    fold::try_fold(
        tables.len(),
        Placed { placements: Seq::empty(), end: start },
        place_step(tables),
    )
}

/// Lays out tables one after the other from `start` on. Hands back their places and where they
/// end.
pub fn table_placements(tables: &[TablePayload], start: u64) -> (result: Result<
    (Vec<PlacementReport>, u64),
>)
    ensures
        match (result, spec_table_placements(payloads(tables@), start)) {
            (Ok((placements, end)), Ok(placed)) => placements@ == placed.placements && end
                == placed.end,
            (Err(found), Err(wanted)) => found == wanted,
            _ => false,
        },
{
    let ghost model = payloads(tables@);
    let ghost step = place_step(model);
    let ghost none = Placed { placements: Seq::empty(), end: start };
    let count: usize = tables.len();
    let mut placements: Vec<PlacementReport> = Vec::with_capacity(count);
    let mut cursor: u64 = start;
    let mut index: usize = 0;
    while index < count
        invariant
            index <= count,
            count == tables@.len(),
            model == payloads(tables@),
            step == place_step(model),
            none == (Placed { placements: Seq::empty(), end: start }),
            fold::try_fold(index as nat, none, step) == Ok::<Placed, Error>(
                (Placed { placements: placements@, end: cursor }),
            ),
        decreases count - index,
    {
        proof {
            if fold::try_fold((index + 1) as nat, none, step) is Err {
                fold::lemma_failure_stays((index + 1) as nat, count as nat, none, step);
            }
        }
        let table = &tables[index];
        assert(model[index as int] == table@);
        let size: usize = table.data.len();
        let offset = lift(align_up(cursor, table.slot.alignment()))?;
        cursor = match offset.checked_add(size as u64) {
            Some(end) => end,
            None => return invalid(Fault::Text("rebuilt ELF metadata end overflow")),
        };
        placements.push(PlacementReport { offset, size });
        index += 1;
    }
    Ok((placements, cursor))
}

/// The places of the first `n` tables.
proof fn lemma_placed(tables: Seq<PayloadModel>, start: u64, n: nat)
    requires
        n <= tables.len(),
        forall|i: int| 0 <= i < tables.len() ==> (#[trigger] tables[i]).data.len() <= usize::MAX,
        fold::try_fold(
            n,
            Placed { placements: Seq::empty(), end: start },
            place_step(tables),
        ) is Ok,
    ensures
        ({
            let placed = fold::try_fold(
                n,
                Placed { placements: Seq::empty(), end: start },
                place_step(tables),
            )->Ok_0;
            &&& placed.placements.len() == n
            &&& start <= placed.end
            &&& forall|i: int|
                0 <= i < n ==> {
                    let place = #[trigger] placed.placements[i];
                    &&& start <= place.offset
                    &&& place.offset + place.size <= placed.end
                    &&& place.size == tables[i].data.len()
                    &&& place.offset % tables[i].slot.spec_alignment() == 0
                }
            &&& forall|i: int, j: int|
                0 <= i < j < n ==> (#[trigger] placed.placements[i]).offset
                    + placed.placements[i].size <= (#[trigger] placed.placements[j]).offset
        }),
    decreases n,
{
    if n > 0 {
        lemma_placed(tables, start, (n - 1) as nat);
        let before = fold::try_fold(
            (n - 1) as nat,
            Placed { placements: Seq::empty(), end: start },
            place_step(tables),
        )->Ok_0;
        let table = tables[n - 1];
        read::lemma_aligned(before.end as int, table.slot.spec_alignment() as int);
    }
}

/// The places of all tables: one for each, as large as the table, and one after the other.
pub proof fn lemma_all_placed(tables: Seq<PayloadModel>, start: u64)
    requires
        forall|i: int| 0 <= i < tables.len() ==> (#[trigger] tables[i]).data.len() <= usize::MAX,
        spec_table_placements(tables, start) is Ok,
    ensures
        ({
            let placed = spec_table_placements(tables, start)->Ok_0;
            &&& placed.placements.len() == tables.len()
            &&& forall|i: int|
                0 <= i < tables.len() ==> (#[trigger] placed.placements[i]).size
                    == tables[i].data.len()
            &&& forall|i: int, j: int|
                0 <= i < j < tables.len() ==> (#[trigger] placed.placements[i]).offset
                    + placed.placements[i].size <= (#[trigger] placed.placements[j]).offset
        }),
{
    lemma_placed(tables, start, tables.len());
}

/// Tables are laid out in order, aligned, without overlap, and inside the range that is handed
/// back.
pub proof fn law_placements_do_not_overlap(tables: Seq<PayloadModel>, start: u64, i: int, j: int)
    requires
        forall|k: int| 0 <= k < tables.len() ==> (#[trigger] tables[k]).data.len() <= usize::MAX,
        spec_table_placements(tables, start) is Ok,
        0 <= i < j < tables.len(),
    ensures
        ({
            let placed = spec_table_placements(tables, start)->Ok_0;
            let (a, b) = (placed.placements[i], placed.placements[j]);
            &&& placed.placements.len() == tables.len()
            &&& start <= a.offset
            &&& a.offset + a.size <= b.offset
            &&& b.offset + b.size <= placed.end
            &&& a.size == tables[i].data.len()
            &&& b.size == tables[j].data.len()
            &&& a.offset % tables[i].slot.spec_alignment() == 0
            &&& b.offset % tables[j].slot.spec_alignment() == 0
        }),
{
    lemma_placed(tables, start, tables.len());
}

/// What has come of writing tables so far.
#[verifier::ext_equal]
pub struct TableState {
    pub image: Seq<u8>,
    pub sections: Seq<SectionHeader>,
    pub failure: Option<Error>,
}

/// Writes one table to its place and notes the place in the table's section header.
pub open spec fn write_one(
    state: TableState,
    layout: LayoutModel,
    indices: SectionIndices,
    table: PayloadModel,
    place: PlacementReport,
) -> TableState {
    let size = table.data.len();
    if state.failure is Some {
        state
    } else if place.offset > usize::MAX {
        TableState {
            failure: Some(
                Error::Elf(
                    read::spec_usize_from_u64(place.offset, "table placement offset")->Err_0,
                ),
            ),
            ..state
        }
    } else if place.offset + size > usize::MAX {
        TableState { failure: Some(error::fault("table placement end overflow")), ..state }
    } else if place.offset + size > state.image.len() {
        TableState {
            failure: Some(error::fault("table placement exceeds output mapping")),
            ..state
        }
    } else {
        let written = TableState {
            image: bytes::overwrite(state.image, place.offset as int, table.data),
            ..state
        };
        match layout.spec_file_offset_to_virtual_address(place.offset, size as u64) {
            Err(e) => TableState { failure: Some(Error::Elf(e)), ..written },
            Ok(address) => {
                let index = table.slot.spec_index(indices)->0 as int;
                TableState {
                    sections: state.sections.update(
                        index,
                        SectionHeader {
                            address,
                            offset: place.offset,
                            size: size as u64,
                            ..state.sections[index]
                        },
                    ),
                    ..written
                }
            },
        }
    }
}

/// Writes the first `n` tables.
pub open spec fn write_many(
    start: TableState,
    layout: LayoutModel,
    indices: SectionIndices,
    tables: Seq<PayloadModel>,
    placements: Seq<PlacementReport>,
    n: nat,
) -> TableState
    decreases n,
{
    if n == 0 {
        start
    } else {
        write_one(
            write_many(start, layout, indices, tables, placements, (n - 1) as nat),
            layout,
            indices,
            tables[n - 1],
            placements[n - 1],
        )
    }
}

/// Once writing has failed, later tables change nothing.
proof fn lemma_writing_settled(
    start: TableState,
    layout: LayoutModel,
    indices: SectionIndices,
    tables: Seq<PayloadModel>,
    placements: Seq<PlacementReport>,
    i: nat,
    n: nat,
)
    requires
        i <= n,
        write_many(start, layout, indices, tables, placements, i).failure is Some,
    ensures
        write_many(start, layout, indices, tables, placements, n) == write_many(
            start,
            layout,
            indices,
            tables,
            placements,
            i,
        ),
    decreases n,
{
    if i < n {
        lemma_writing_settled(start, layout, indices, tables, placements, i, (n - 1) as nat);
    }
}

/// Every table belongs to a section that the image has.
pub open spec fn have_sections(
    tables: Seq<PayloadModel>,
    indices: SectionIndices,
    count: int,
) -> bool {
    forall|i: int|
        0 <= i < tables.len() ==> ((#[trigger] tables[i]).slot.spec_index(indices) matches Some(
            index,
        ) && index < count)
}

/// Writes tables to their places. Hands back the section headers with the new places.
pub fn write_tables(
    output: &mut [u8],
    layout: &ElfLayout,
    indices: &SectionIndices,
    tables: &[TablePayload],
    placements: &[PlacementReport],
    headers: &Vec<SectionHeader>,
) -> (result: Result<Vec<SectionHeader>>)
    requires
        placements@.len() == tables@.len(),
        have_sections(payloads(tables@), *indices, headers@.len() as int),
    ensures
        ({
            let state = write_many(
                TableState { image: old(output)@, sections: headers@, failure: None },
                layout@,
                *indices,
                payloads(tables@),
                placements@,
                tables@.len(),
            );
            &&& final(output)@ == state.image
            &&& match (result, state.failure) {
                (Ok(sections), None) => sections@ == state.sections,
                (Err(found), Some(wanted)) => found == wanted,
                _ => false,
            }
        }),
        result matches Ok(sections) ==> sections@.len() == headers@.len(),
{
    let ghost start = TableState { image: output@, sections: headers@, failure: None };
    let ghost model = payloads(tables@);
    let length: usize = output.len();
    let mut sections: Vec<SectionHeader> = headers.clone();
    assert(sections@ =~= headers@);
    let count: usize = tables.len();
    let mut i: usize = 0;
    while i < count
        invariant
            i <= count,
            count == tables@.len(),
            placements@.len() == tables@.len(),
            length == output@.len(),
            model == payloads(tables@),
            sections@.len() == headers@.len(),
            have_sections(model, *indices, headers@.len() as int),
            start == (TableState { image: old(output)@, sections: headers@, failure: None }),
            write_many(start, layout@, *indices, model, placements@, i as nat) == (TableState {
                image: output@,
                sections: sections@,
                failure: None,
            }),
        decreases count - i,
    {
        proof {
            let next = write_many(start, layout@, *indices, model, placements@, (i + 1) as nat);
            if next.failure is Some {
                lemma_writing_settled(
                    start,
                    layout@,
                    *indices,
                    model,
                    placements@,
                    (i + 1) as nat,
                    count as nat,
                );
            }
        }
        let table = &tables[i];
        assert(model[i as int] == table@);
        let place = placements[i];
        let size: usize = table.data.len();
        let offset = match usize_from_u64(place.offset, "table placement offset") {
            Ok(offset) => offset,
            Err(e) => return Err(Error::Elf(e)),
        };
        let end = match offset.checked_add(size) {
            Some(end) => end,
            None => return invalid(Fault::Text("table placement end overflow")),
        };
        if end > length {
            return invalid(Fault::Text("table placement exceeds output mapping"));
        }
        store(output, offset, &table.data);
        let address = match layout.file_offset_to_virtual_address(place.offset, size as u64) {
            Ok(address) => address,
            Err(e) => return Err(Error::Elf(e)),
        };
        if let Some(index) = table.slot.index(indices) {
            let mut updated = sections[index];
            updated.address = address;
            updated.offset = place.offset;
            updated.size = size as u64;
            sections.set(index, updated);
        }
        i += 1;
    }
    Ok(sections)
}

} // verus!
