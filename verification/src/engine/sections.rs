//! Finding the dynamic sections of an image and the room for their tables.

use super::auxiliary::AuxiliaryElfImage;
use super::error::{invalid, lift, Error, Fault, Result};
use crate::elf::layout;
use crate::elf::layout::{LayoutModel, SHT_NOBITS};
use crate::elf::read;
use crate::elf::{align_up, usize_from_u64, ElfLayout, SectionHeader};
use crate::engine::error;
use crate::fold;
use crate::text::same_text;
use vstd::prelude::*;

verus! {

/// Where the dynamic sections stand in the section table.
#[derive(Debug, Clone, Copy)]
pub struct SectionIndices {
    pub dynsym: usize,
    pub versym: usize,
    pub verneed: usize,
    pub dynstr: usize,
    pub rela_dyn: usize,
    pub rela_plt: usize,
    pub dynamic: usize,
    pub gnu_hash: Option<usize>,
    pub hash: Option<usize>,
}

/// Name `index` is `wanted`.
pub open spec fn is_named(names: Seq<Seq<char>>, wanted: Seq<char>) -> spec_fn(int) -> bool {
    |index: int| names[index] == wanted
}

/// The places of `wanted` among the names.
pub open spec fn places(names: Seq<Seq<char>>, wanted: Seq<char>) -> Seq<int> {
    fold::matching(names.len(), is_named(names, wanted))
}

/// The only place of `wanted`, if it has one.
pub open spec fn spec_optional(names: Seq<Seq<char>>, wanted: &'static str) -> Result<
    Option<usize>,
> {
    let found = places(names, wanted@);
    if found.len() == 0 {
        Ok(None)
    } else if found.len() == 1 {
        Ok(Some(found[0] as usize))
    } else {
        Err(Error::Invalid(Fault::DuplicateSection { name: wanted }))
    }
}

/// The first place of `wanted`, if it has one.
pub open spec fn spec_first(names: Seq<Seq<char>>, wanted: &'static str) -> Option<usize> {
    let found = places(names, wanted@);
    if found.len() == 0 {
        None
    } else {
        Some(found[0] as usize)
    }
}

/// The only place of `wanted`.
pub open spec fn spec_required(names: Seq<Seq<char>>, wanted: &'static str) -> Result<usize> {
    match spec_optional(names, wanted) {
        Err(e) => Err(e),
        Ok(None) => Err(Error::Invalid(Fault::LacksSection { name: wanted })),
        Ok(Some(index)) => Ok(index),
    }
}

/// The places of the dynamic sections, or why they cannot be used.
pub open spec fn spec_required_section_indices(names: Seq<Seq<char>>) -> Result<SectionIndices> {
    match spec_required(names, ".dynsym") {
        Err(e) => Err(e),
        Ok(dynsym) => match spec_required(names, ".gnu.version") {
            Err(e) => Err(e),
            Ok(versym) => match spec_required(names, ".gnu.version_r") {
                Err(e) => Err(e),
                Ok(verneed) => match spec_required(names, ".dynstr") {
                    Err(e) => Err(e),
                    Ok(dynstr) => match spec_required(names, ".rela.dyn") {
                        Err(e) => Err(e),
                        Ok(rela_dyn) => match spec_required(names, ".rela.plt") {
                            Err(e) => Err(e),
                            Ok(rela_plt) => match spec_required(names, ".dynamic") {
                                Err(e) => Err(e),
                                Ok(dynamic) => match spec_optional(names, ".hash") {
                                    Err(e) => Err(e),
                                    Ok(hash) => Ok(
                                        SectionIndices {
                                            dynsym,
                                            versym,
                                            verneed,
                                            dynstr,
                                            rela_dyn,
                                            rela_plt,
                                            dynamic,
                                            gnu_hash: spec_first(names, ".gnu.hash"),
                                            hash,
                                        },
                                    ),
                                },
                            },
                        },
                    },
                },
            },
        },
    }
}

impl SectionIndices {
    /// All places are below `count`.
    pub open spec fn below(self, count: int) -> bool {
        &&& self.dynsym < count
        &&& self.versym < count
        &&& self.verneed < count
        &&& self.dynstr < count
        &&& self.rela_dyn < count
        &&& self.rela_plt < count
        &&& self.dynamic < count
        &&& self.gnu_hash matches Some(index) ==> index < count
        &&& self.hash matches Some(index) ==> index < count
    }

    /// Section `index` is one of the dynamic sections.
    pub open spec fn spec_contains(self, index: int) -> bool {
        ||| index == self.dynsym
        ||| index == self.versym
        ||| index == self.verneed
        ||| index == self.dynstr
        ||| index == self.rela_dyn
        ||| index == self.rela_plt
        ||| index == self.dynamic
        ||| self.gnu_hash matches Some(place) && index == place
        ||| self.hash matches Some(place) && index == place
    }

    /// Whether section `index` is one of the dynamic sections.
    pub fn contains(&self, index: usize) -> (result: bool)
        ensures
            result == self.spec_contains(index as int),
    {
        let hashed = match self.gnu_hash {
            Some(place) => index == place,
            None => false,
        };
        let old_hashed = match self.hash {
            Some(place) => index == place,
            None => false,
        };
        index == self.dynsym || index == self.versym || index == self.verneed || index
            == self.dynstr || index == self.rela_dyn || index == self.rela_plt || index
            == self.dynamic || hashed || old_hashed
    }
}

/// Counts the places of `wanted` and finds the first one.
fn count_named(names: &[String], wanted: &'static str) -> (result: (usize, usize))
    ensures
        result.0 == places(layout::texts(names@), wanted@).len(),
        result.0 > 0 ==> {
            &&& result.1 == places(layout::texts(names@), wanted@)[0]
            &&& result.1 < names@.len()
            &&& names@[result.1 as int]@ == wanted@
        },
{
    let ghost model = layout::texts(names@);
    let ghost keep = is_named(model, wanted@);
    let mut found: usize = 0;
    let mut first: usize = 0;
    let mut index: usize = 0;
    while index < names.len()
        invariant
            index <= names@.len(),
            model == layout::texts(names@),
            keep == is_named(model, wanted@),
            found <= index,
            found == fold::matching(index as nat, keep).len(),
            found > 0 ==> first == fold::matching(index as nat, keep)[0] && first < index
                && names@[first as int]@ == wanted@,
        decreases names@.len() - index,
    {
        if same_text(names[index].as_str(), wanted) {
            if found == 0 {
                first = index;
            }
            found += 1;
        }
        index += 1;
    }
    (found, first)
}

/// Finds the only place of `wanted`, if it has one.
fn find_optional(names: &[String], wanted: &'static str) -> (result: Result<Option<usize>>)
    ensures
        result == spec_optional(layout::texts(names@), wanted),
        result matches Ok(Some(index)) ==> index < names@.len() && names@[index as int]@
            == wanted@,
{
    let (found, first) = count_named(names, wanted);
    if found == 0 {
        Ok(None)
    } else if found == 1 {
        Ok(Some(first))
    } else {
        invalid(Fault::DuplicateSection { name: wanted })
    }
}

/// Finds the first place of `wanted`, if it has one.
fn find_first(names: &[String], wanted: &'static str) -> (result: Option<usize>)
    ensures
        result == spec_first(layout::texts(names@), wanted),
        result matches Some(index) ==> index < names@.len() && names@[index as int]@ == wanted@,
{
    let (found, first) = count_named(names, wanted);
    if found == 0 {
        None
    } else {
        Some(first)
    }
}

/// Finds the only place of `wanted`.
fn find_required(names: &[String], wanted: &'static str) -> (result: Result<usize>)
    ensures
        result == spec_required(layout::texts(names@), wanted),
        result matches Ok(index) ==> index < names@.len() && names@[index as int]@ == wanted@,
{
    match find_optional(names, wanted)? {
        Some(index) => Ok(index),
        None => invalid(Fault::LacksSection { name: wanted }),
    }
}

/// Finds the dynamic sections. The symbol hash may be a GNU or a SysV one.
pub fn required_section_indices(names: &[String]) -> (result: Result<SectionIndices>)
    ensures
        result == spec_required_section_indices(layout::texts(names@)),
        result matches Ok(indices) ==> indices.below(names@.len() as int),
{
    let dynsym = find_required(names, ".dynsym")?;
    let versym = find_required(names, ".gnu.version")?;
    let verneed = find_required(names, ".gnu.version_r")?;
    let dynstr = find_required(names, ".dynstr")?;
    let rela_dyn = find_required(names, ".rela.dyn")?;
    let rela_plt = find_required(names, ".rela.plt")?;
    let dynamic = find_required(names, ".dynamic")?;
    let hash = find_optional(names, ".hash")?;
    let gnu_hash = find_first(names, ".gnu.hash");
    Ok(
        SectionIndices {
            dynsym,
            versym,
            verneed,
            dynstr,
            rela_dyn,
            rela_plt,
            dynamic,
            gnu_hash,
            hash,
        },
    )
}

/// The section called `wanted` in a restored image.
pub open spec fn spec_section_by_name(
    sections: Seq<SectionHeader>,
    names: Seq<Seq<char>>,
    wanted: &'static str,
) -> Result<SectionHeader> {
    let found = places(names, wanted@);
    if found.len() == 0 {
        Err(Error::Invalid(Fault::RestoredLacks { name: wanted }))
    } else if found.len() == 1 {
        Ok(sections[found[0]])
    } else {
        Err(Error::Invalid(Fault::RestoredDuplicate { name: wanted }))
    }
}

/// Finds the section called `wanted` in a restored image.
pub fn section_by_name(layout: &ElfLayout, names: &[String], wanted: &'static str) -> (result:
    Result<SectionHeader>)
    requires
        names@.len() == layout.section_headers@.len(),
    ensures
        result == spec_section_by_name(
            layout@.section_headers,
            layout::texts(names@),
            wanted,
        ),
{
    proof {
        let model = layout::texts(names@);
        fold::lemma_matching(model.len(), is_named(model, wanted@));
        assert(names@.len() == names.len());
    }
    match find_optional(names, wanted) {
        Ok(Some(index)) => Ok(layout.section_headers[index]),
        Ok(None) => invalid(Fault::RestoredLacks { name: wanted }),
        Err(_) => invalid(Fault::RestoredDuplicate { name: wanted }),
    }
}

/// Section `index` keeps file bytes that the tables must not run into.
pub open spec fn blocks(
    sections: Seq<SectionHeader>,
    indices: SectionIndices,
    start: u64,
    index: int,
) -> bool {
    &&& !indices.spec_contains(index)
    &&& sections[index].section_type != SHT_NOBITS
    &&& sections[index].size != 0
    &&& sections[index].offset >= start
}

/// The lowest offset of the first `n` sections that block, or `limit` when none is lower.
pub open spec fn lowest_block(
    sections: Seq<SectionHeader>,
    indices: SectionIndices,
    start: u64,
    n: nat,
    limit: u64,
) -> u64
    decreases n,
{
    if n == 0 {
        limit
    } else {
        let before = lowest_block(sections, indices, start, (n - 1) as nat, limit);
        if blocks(sections, indices, start, n - 1) && sections[n - 1].offset < before {
            sections[n - 1].offset
        } else {
            before
        }
    }
}

/// Where the room for tables from `start` on ends: at the next section that is not one of them,
/// and before the private section.
pub open spec fn spec_metadata_capacity_end(
    layout: LayoutModel,
    indices: SectionIndices,
    start: u64,
) -> Result<u64> {
    match layout.spec_private_section() {
        Err(e) => Err(Error::Elf(e)),
        Ok(private) => {
            let end = lowest_block(
                layout.section_headers,
                indices,
                start,
                layout.section_headers.len(),
                private.offset,
            );
            if end < start {
                Ok(start)
            } else {
                Ok(end)
            }
        },
    }
}

/// Finds where the room for tables from `metadata_start` on ends. A window without room is a valid
/// result: the tables then move elsewhere.
pub fn metadata_capacity_end(layout: &ElfLayout, indices: &SectionIndices, metadata_start: u64) -> (result:
    Result<u64>)
    ensures
        result == spec_metadata_capacity_end(layout@, *indices, metadata_start),
        result matches Ok(end) ==> metadata_start <= end,
{
    let limit = lift(layout.private_section())?.offset;
    let mut end: u64 = limit;
    let mut index: usize = 0;
    while index < layout.section_headers.len()
        invariant
            index <= layout.section_headers@.len(),
            end == lowest_block(
                layout@.section_headers,
                *indices,
                metadata_start,
                index as nat,
                limit,
            ),
        decreases layout.section_headers@.len() - index,
    {
        let section = layout.section_headers[index];
        if !indices.contains(index) && section.section_type != SHT_NOBITS && section.size != 0
            && section.offset >= metadata_start && section.offset < end {
            end = section.offset;
        }
        index += 1;
    }
    if end < metadata_start {
        Ok(metadata_start)
    } else {
        Ok(end)
    }
}

/// The room ends where the description says: no blocking section starts inside it.
pub proof fn law_capacity_is_free(
    layout: LayoutModel,
    indices: SectionIndices,
    start: u64,
    index: int,
)
    requires
        spec_metadata_capacity_end(layout, indices, start) is Ok,
        0 <= index < layout.section_headers.len(),
        blocks(layout.section_headers, indices, start, index),
    ensures
        spec_metadata_capacity_end(layout, indices, start)->Ok_0
            <= layout.section_headers[index].offset,
{
    lemma_lowest_block(
        layout.section_headers,
        indices,
        start,
        layout.section_headers.len(),
        layout.spec_private_section()->Ok_0.offset,
        index,
    );
}

/// The lowest block is not above any block.
proof fn lemma_lowest_block(
    sections: Seq<SectionHeader>,
    indices: SectionIndices,
    start: u64,
    n: nat,
    limit: u64,
    index: int,
)
    requires
        0 <= index < n,
        blocks(sections, indices, start, index),
    ensures
        lowest_block(sections, indices, start, n, limit) <= sections[index].offset,
    decreases n,
{
    if index < n - 1 {
        lemma_lowest_block(sections, indices, start, (n - 1) as nat, limit, index);
    }
}

/// A number that has to fit in memory.
pub open spec fn fitting(value: int, message: &'static str) -> Result<usize> {
    if value > usize::MAX {
        Err(error::fault(message))
    } else {
        Ok(value as usize)
    }
}

/// Sizes of the merged dynamic tables.
#[derive(Debug, Clone, Copy, PartialEq, Eq, Structural)]
pub struct MergedSizes {
    pub dynsym: usize,
    pub versym: usize,
    pub verneed: usize,
    pub gnu_hash: usize,
    pub sysv_hash: usize,
    pub dynstr: usize,
    pub rela_dyn: usize,
    pub rela_plt: usize,
}

/// Entry counts of the merged dynamic tables.
#[derive(Debug, Clone, Copy, PartialEq, Eq, Structural)]
pub struct MergedCounts {
    pub appended: usize,
    pub symbols: usize,
    pub strings: usize,
    pub rela_dyn: usize,
    pub rela_plt: usize,
    pub gnu_hash: usize,
    pub sysv_hash: usize,
}

/// The dynamic tables are made of records of the expected sizes.
pub open spec fn has_entry_layout(sections: Seq<SectionHeader>, indices: SectionIndices) -> bool {
    let dynsym = sections[indices.dynsym as int];
    let versym = sections[indices.versym as int];
    let rela_dyn = sections[indices.rela_dyn as int];
    let rela_plt = sections[indices.rela_plt as int];
    &&& dynsym.entry_size == 0x18
    &&& dynsym.size % 0x18 == 0
    &&& versym.entry_size == 2
    &&& rela_dyn.entry_size == 0x18
    &&& rela_plt.entry_size == 0x18
    &&& rela_dyn.size % 0x18 == 0
    &&& rela_plt.size % 0x18 == 0
}

/// The counts of an image's tables merged with those of an auxiliary image.
pub open spec fn spec_merged_counts(
    sections: Seq<SectionHeader>,
    indices: SectionIndices,
    auxiliary: AuxiliaryElfImage,
) -> Result<MergedCounts> {
    let dynsym = sections[indices.dynsym as int];
    let dynstr = sections[indices.dynstr as int];
    let rela_dyn = sections[indices.rela_dyn as int];
    let rela_plt = sections[indices.rela_plt as int];
    let appended = auxiliary.dynsym_count - 1;
    match read::spec_usize_from_u64((dynsym.size / 0x18) as u64, "dynamic symbol count") {
        Err(e) => Err(Error::Elf(e)),
        Ok(old) => match fitting(old + appended, "merged dynamic symbol count overflow") {
            Err(e) => Err(e),
            Ok(symbols) => match read::spec_usize_from_u64(dynstr.size, ".dynstr size") {
                Err(e) => Err(Error::Elf(e)),
                Ok(old_strings) => match fitting(
                    old_strings + auxiliary.dynstr_size,
                    "merged dynamic string size overflow",
                ) {
                    Err(e) => Err(e),
                    Ok(strings) => match read::spec_usize_from_u64(
                        (rela_dyn.size / 0x18) as u64,
                        ".rela.dyn count",
                    ) {
                        Err(e) => Err(Error::Elf(e)),
                        Ok(old_dyn) => match fitting(
                            old_dyn + auxiliary.relocation1_count + auxiliary.relocation2_count,
                            "merged .rela.dyn count overflow",
                        ) {
                            Err(e) => Err(e),
                            Ok(merged_dyn) => match read::spec_usize_from_u64(
                                (rela_plt.size / 0x18) as u64,
                                ".rela.plt count",
                            ) {
                                Err(e) => Err(Error::Elf(e)),
                                Ok(old_plt) => match fitting(
                                    old_plt + auxiliary.relocation2_count,
                                    "merged .rela.plt count overflow",
                                ) {
                                    Err(e) => Err(e),
                                    Ok(merged_plt) => spec_hash_counts(
                                        appended as usize,
                                        symbols,
                                        strings,
                                        merged_dyn,
                                        merged_plt,
                                        indices.hash is Some,
                                    ),
                                },
                            },
                        },
                    },
                },
            },
        },
    }
}

/// Adds the sizes of the hash tables to the other counts.
pub open spec fn spec_hash_counts(
    appended: usize,
    symbols: usize,
    strings: usize,
    rela_dyn: usize,
    rela_plt: usize,
    has_sysv: bool,
) -> Result<MergedCounts> {
    if symbols == 0 {
        Err(error::fault("dynamic symbol table is unexpectedly empty"))
    } else {
        match fitting(28 + (symbols - 1) * 4, "GNU hash size overflow") {
            Err(e) => Err(e),
            Ok(gnu_hash) => match fitting(
                if has_sysv {
                    (symbols * 2 + 2) * 4
                } else {
                    0
                },
                "SysV hash size overflow",
            ) {
                Err(e) => Err(e),
                Ok(sysv_hash) => Ok(
                    MergedCounts {
                        appended,
                        symbols,
                        strings,
                        rela_dyn,
                        rela_plt,
                        gnu_hash,
                        sysv_hash,
                    },
                ),
            },
        }
    }
}

/// The sizes of the merged tables.
pub open spec fn spec_merged_sizes(
    counts: MergedCounts,
    versym: SectionHeader,
    verneed: SectionHeader,
) -> Result<MergedSizes> {
    match fitting(counts.symbols * 0x18, "merged .dynsym size overflow") {
        Err(e) => Err(e),
        Ok(dynsym) => match read::spec_usize_from_u64(versym.size, ".gnu.version size") {
            Err(e) => Err(Error::Elf(e)),
            Ok(old_versions) => match fitting(
                old_versions + counts.appended * 2,
                "merged .gnu.version size overflow",
            ) {
                Err(e) => Err(e),
                Ok(versions) => match read::spec_usize_from_u64(
                    verneed.size,
                    ".gnu.version_r size",
                ) {
                    Err(e) => Err(Error::Elf(e)),
                    Ok(requirements) => match fitting(
                        counts.rela_dyn * 0x18,
                        "merged .rela.dyn size overflow",
                    ) {
                        Err(e) => Err(e),
                        Ok(rela_dyn) => match fitting(
                            counts.rela_plt * 0x18,
                            "merged .rela.plt size overflow",
                        ) {
                            Err(e) => Err(e),
                            Ok(rela_plt) => Ok(
                                MergedSizes {
                                    dynsym,
                                    versym: versions,
                                    verneed: requirements,
                                    gnu_hash: counts.gnu_hash,
                                    sysv_hash: counts.sysv_hash,
                                    dynstr: counts.strings,
                                    rela_dyn,
                                    rela_plt,
                                },
                            ),
                        },
                    },
                },
            },
        },
    }
}

impl MergedSizes {
    /// Sizes and alignments of the tables in the order in which they are laid out.
    pub open spec fn in_order(self) -> Seq<(usize, u64)> {
        seq![
            (self.dynsym, 8u64),
            (self.versym, 2u64),
            (self.verneed, 4u64),
            (self.gnu_hash, 8u64),
            (self.sysv_hash, 4u64),
            (self.dynstr, 1u64),
            (self.rela_dyn, 8u64),
            (self.rela_plt, 8u64),
        ]
    }
}

/// Lays out table `index` behind the ones before it.
pub open spec fn reserve_step(tables: Seq<(usize, u64)>) -> spec_fn(u64, int) -> Result<u64> {
    |cursor: u64, index: int|
        match read::spec_align_up(cursor, tables[index].1) {
            Err(e) => Err(Error::Elf(e)),
            Ok(aligned) => if aligned + tables[index].0 > u64::MAX {
                Err(error::fault("dynamic-table reserve overflow"))
            } else {
                Ok((aligned + tables[index].0) as u64)
            },
        }
}

/// Where tables end that are laid out one after the other from `start` on.
pub open spec fn spec_reserve(tables: Seq<(usize, u64)>, start: u64) -> Result<u64> {
    fold::try_fold(tables.len(), start, reserve_step(tables))
}

/// How long a mapping has to be that holds the image and, behind it, the merged tables.
pub open spec fn spec_mapping_length(
    layout: LayoutModel,
    indices: SectionIndices,
    auxiliary: AuxiliaryElfImage,
) -> Result<usize> {
    let sections = layout.section_headers;
    match spec_merged_counts(sections, indices, auxiliary) {
        Err(e) => Err(e),
        Ok(counts) => match layout.spec_additional_program_header_reservation() {
            Err(e) => Err(Error::Elf(e)),
            Ok(reservation) => match spec_merged_sizes(
                counts,
                sections[indices.versym as int],
                sections[indices.verneed as int],
            ) {
                Err(e) => Err(e),
                Ok(sizes) => match spec_reserve(sizes.in_order(), reservation as u64) {
                    Err(e) => Err(e),
                    Ok(reserve) => match layout.spec_load_alignment() {
                        Err(e) => Err(Error::Elf(e)),
                        Ok(alignment) => match layout.spec_private_section() {
                            Err(e) => Err(Error::Elf(e)),
                            Ok(private) => match read::spec_align_up(private.offset, alignment) {
                                Err(e) => Err(Error::Elf(e)),
                                Ok(start) => if start + reserve > u64::MAX {
                                    Err(error::fault("dynamic-table mapping end overflow"))
                                } else {
                                    error::lifted(
                                        read::spec_usize_from_u64(
                                            (start + reserve) as u64,
                                            "dynamic-table mapping length",
                                        ),
                                    )
                                },
                            },
                        },
                    },
                },
            },
        },
    }
}

/// How long a mapping has to be for the image in `source` and an auxiliary image.
pub open spec fn spec_metadata_mapping_length(
    source: Seq<u8>,
    layout: LayoutModel,
    auxiliary_data: Seq<u8>,
) -> Result<usize> {
    match layout.spec_section_names(source) {
        Err(e) => Err(Error::Elf(e)),
        Ok(names) => match spec_required_section_indices(names) {
            Err(e) => Err(e),
            Ok(indices) => if !has_entry_layout(layout.section_headers, indices) {
                Err(error::fault("unexpected dynamic-table entry layout"))
            } else {
                match AuxiliaryElfImage::spec_parse(auxiliary_data) {
                    Err(e) => Err(e),
                    Ok(auxiliary) => spec_mapping_length(layout, indices, auxiliary),
                }
            },
        },
    }
}

/// A sum that has to fit in memory.
fn fit_sum(a: usize, b: usize, message: &'static str) -> (result: Result<usize>)
    ensures
        result == fitting(a + b, message),
{
    match a.checked_add(b) {
        Some(value) => Ok(value),
        None => invalid(Fault::Text(message)),
    }
}

/// A product that has to fit in memory.
fn fit_product(a: usize, b: usize, message: &'static str) -> (result: Result<usize>)
    ensures
        result == fitting(a * b, message),
{
    match a.checked_mul(b) {
        Some(value) => Ok(value),
        None => invalid(Fault::Text(message)),
    }
}

/// Adds the sizes of the hash tables to the other counts.
fn hash_counts(
    appended: usize,
    symbols: usize,
    strings: usize,
    rela_dyn: usize,
    rela_plt: usize,
    has_sysv: bool,
) -> (result: Result<MergedCounts>)
    ensures
        result == spec_hash_counts(appended, symbols, strings, rela_dyn, rela_plt, has_sysv),
{
    if symbols == 0 {
        return invalid(Fault::Text("dynamic symbol table is unexpectedly empty"));
    }
    let chains = fit_product(symbols - 1, 4, "GNU hash size overflow")?;
    let gnu_hash = fit_sum(28, chains, "GNU hash size overflow")?;
    let sysv_hash = if has_sysv {
        let pairs = fit_product(symbols, 2, "SysV hash size overflow")?;
        let words = fit_sum(pairs, 2, "SysV hash size overflow")?;
        fit_product(words, 4, "SysV hash size overflow")?
    } else {
        0
    };
    Ok(MergedCounts { appended, symbols, strings, rela_dyn, rela_plt, gnu_hash, sysv_hash })
}

/// Counts the entries of an image's tables merged with those of an auxiliary image.
fn merged_counts(
    sections: &[SectionHeader],
    indices: &SectionIndices,
    auxiliary: &AuxiliaryElfImage,
) -> (result: Result<MergedCounts>)
    requires
        indices.below(sections@.len() as int),
        auxiliary.dynsym_count > 0,
    ensures
        result == spec_merged_counts(sections@, *indices, *auxiliary),
{
    let appended: usize = auxiliary.dynsym_count as usize - 1;
    let old = lift(
        usize_from_u64(sections[indices.dynsym].size / 0x18, "dynamic symbol count"),
    )?;
    let symbols = fit_sum(old, appended, "merged dynamic symbol count overflow")?;
    let old_strings = lift(usize_from_u64(sections[indices.dynstr].size, ".dynstr size"))?;
    let strings = fit_sum(
        old_strings,
        auxiliary.dynstr_size as usize,
        "merged dynamic string size overflow",
    )?;
    let old_dyn = lift(usize_from_u64(sections[indices.rela_dyn].size / 0x18, ".rela.dyn count"))?;
    let with_first = fit_sum(
        old_dyn,
        auxiliary.relocation1_count as usize,
        "merged .rela.dyn count overflow",
    )?;
    let rela_dyn = fit_sum(
        with_first,
        auxiliary.relocation2_count as usize,
        "merged .rela.dyn count overflow",
    )?;
    let old_plt = lift(usize_from_u64(sections[indices.rela_plt].size / 0x18, ".rela.plt count"))?;
    let rela_plt = fit_sum(
        old_plt,
        auxiliary.relocation2_count as usize,
        "merged .rela.plt count overflow",
    )?;
    hash_counts(appended, symbols, strings, rela_dyn, rela_plt, indices.hash.is_some())
}

/// Computes the sizes of the merged tables.
fn merged_sizes(counts: &MergedCounts, versym: SectionHeader, verneed: SectionHeader) -> (result:
    Result<MergedSizes>)
    ensures
        result == spec_merged_sizes(*counts, versym, verneed),
{
    let dynsym = fit_product(counts.symbols, 0x18, "merged .dynsym size overflow")?;
    let old_versions = lift(usize_from_u64(versym.size, ".gnu.version size"))?;
    let new_versions = fit_product(counts.appended, 2, "merged .gnu.version size overflow")?;
    let versions = fit_sum(old_versions, new_versions, "merged .gnu.version size overflow")?;
    let requirements = lift(usize_from_u64(verneed.size, ".gnu.version_r size"))?;
    let rela_dyn = fit_product(counts.rela_dyn, 0x18, "merged .rela.dyn size overflow")?;
    let rela_plt = fit_product(counts.rela_plt, 0x18, "merged .rela.plt size overflow")?;
    Ok(
        MergedSizes {
            dynsym,
            versym: versions,
            verneed: requirements,
            gnu_hash: counts.gnu_hash,
            sysv_hash: counts.sysv_hash,
            dynstr: counts.strings,
            rela_dyn,
            rela_plt,
        },
    )
}

/// Lays out tables one after the other from `start` on. Hands back where they end.
fn reserve(tables: &[(usize, u64)], start: u64) -> (result: Result<u64>)
    ensures
        result == spec_reserve(tables@, start),
{
    let ghost step = reserve_step(tables@);
    let count: usize = tables.len();
    let mut cursor: u64 = start;
    let mut index: usize = 0;
    while index < count
        invariant
            index <= count,
            count == tables@.len(),
            step == reserve_step(tables@),
            fold::try_fold(index as nat, start, step) == Ok::<u64, Error>(cursor),
        decreases count - index,
    {
        proof {
            if fold::try_fold((index + 1) as nat, start, step) is Err {
                fold::lemma_failure_stays((index + 1) as nat, count as nat, start, step);
            }
        }
        let (size, alignment) = tables[index];
        let aligned = lift(align_up(cursor, alignment))?;
        cursor = match aligned.checked_add(size as u64) {
            Some(end) => end,
            None => return invalid(Fault::Text("dynamic-table reserve overflow")),
        };
        index += 1;
    }
    Ok(cursor)
}

/// Computes how long a mapping has to be that holds the image and, behind it, the merged tables.
fn mapping_length(layout: &ElfLayout, indices: &SectionIndices, auxiliary: &AuxiliaryElfImage) -> (result:
    Result<usize>)
    requires
        indices.below(layout.section_headers@.len() as int),
        auxiliary.dynsym_count > 0,
    ensures
        result == spec_mapping_length(layout@, *indices, *auxiliary),
{
    let counts = merged_counts(&layout.section_headers, indices, auxiliary)?;
    let reservation = lift(layout.additional_program_header_reservation())?;
    let sizes = merged_sizes(
        &counts,
        layout.section_headers[indices.versym],
        layout.section_headers[indices.verneed],
    )?;
    let tables: [(usize, u64); 8] = [
        (sizes.dynsym, 8),
        (sizes.versym, 2),
        (sizes.verneed, 4),
        (sizes.gnu_hash, 8),
        (sizes.sysv_hash, 4),
        (sizes.dynstr, 1),
        (sizes.rela_dyn, 8),
        (sizes.rela_plt, 8),
    ];
    assert(tables@ =~= sizes.in_order());
    let size = reserve(&tables, reservation as u64)?;
    let alignment = lift(layout.load_alignment())?;
    let private = lift(layout.private_section())?;
    let start = lift(align_up(private.offset, alignment))?;
    let end = match start.checked_add(size) {
        Some(end) => end,
        None => return invalid(Fault::Text("dynamic-table mapping end overflow")),
    };
    lift(usize_from_u64(end, "dynamic-table mapping length"))
}

/// Computes how long a mapping has to be for the image in `source` and an auxiliary image.
pub fn metadata_mapping_length(source: &[u8], layout: &ElfLayout, auxiliary_data: &[u8]) -> (result:
    Result<usize>)
    ensures
        result == spec_metadata_mapping_length(source@, layout@, auxiliary_data@),
{
    let names = match layout.section_names(source) {
        Ok(names) => names,
        Err(e) => return Err(Error::Elf(e)),
    };
    let indices = required_section_indices(&names)?;
    proof {
        layout::lemma_one_name_each(layout@, source@);
    }
    let dynsym = layout.section_headers[indices.dynsym];
    let versym = layout.section_headers[indices.versym];
    let rela_dyn = layout.section_headers[indices.rela_dyn];
    let rela_plt = layout.section_headers[indices.rela_plt];
    if dynsym.entry_size != 0x18 || dynsym.size % 0x18 != 0 || versym.entry_size != 2
        || rela_dyn.entry_size != 0x18 || rela_plt.entry_size != 0x18 || rela_dyn.size % 0x18 != 0
        || rela_plt.size % 0x18 != 0 {
        return invalid(Fault::Text("unexpected dynamic-table entry layout"));
    }
    let auxiliary = AuxiliaryElfImage::parse(auxiliary_data)?;
    mapping_length(layout, &indices, &auxiliary)
}

} // verus!
