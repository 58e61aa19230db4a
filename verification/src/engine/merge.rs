//! Merging the dynamic symbols of an image with those of an auxiliary image.

use super::auxiliary;
use super::auxiliary::{read_c_string, AuxiliaryElfImage};
use super::error::{invalid, Error, Fault, Result};
use super::sections;
use super::sections::{required_section_indices, SectionIndices};
use super::symbols;
use super::symbols::{dynamic_symbol_names, restore_hidden_symbols, HiddenSymbolReport};
use crate::bytes;
use crate::bytes::{bytes_of_u32, copy_of, extend, load_u16, load_u32};
use crate::elf::layout;
use crate::elf::layout::LayoutModel;
use crate::elf::read;
use crate::elf::{slice_u64, ElfLayout, SectionHeader, VER_NDX_GLOBAL};
use crate::engine::error;
use crate::fold;
use vstd::prelude::*;

verus! {

/// The merged dynamic symbols of an image and an auxiliary image.
#[derive(Debug)]
pub struct MergedSymbols {
    pub indices: SectionIndices,
    pub auxiliary: AuxiliaryElfImage,
    pub hidden_symbols: HiddenSymbolReport,
    pub old_symbol_count: usize,
    pub old_dynstr_size: usize,
    pub symbols: Vec<u8>,
    pub strings: Vec<u8>,
    pub versions: Vec<u8>,
    pub version_requirements: Vec<u8>,
    /// The name of every merged symbol, for the symbol hash tables.
    pub names: Vec<Vec<u8>>,
}

/// The mathematical content of [`MergedSymbols`].
#[verifier::ext_equal]
pub struct MergedModel {
    pub indices: SectionIndices,
    pub auxiliary: AuxiliaryElfImage,
    pub hidden_symbols: HiddenSymbolReport,
    pub old_symbol_count: usize,
    pub old_dynstr_size: usize,
    pub symbols: Seq<u8>,
    pub strings: Seq<u8>,
    pub versions: Seq<u8>,
    pub version_requirements: Seq<u8>,
    pub names: Seq<Seq<u8>>,
}

impl View for MergedSymbols {
    type V = MergedModel;

    open spec fn view(&self) -> MergedModel {
        MergedModel {
            indices: self.indices,
            auxiliary: self.auxiliary,
            hidden_symbols: self.hidden_symbols,
            old_symbol_count: self.old_symbol_count,
            old_dynstr_size: self.old_dynstr_size,
            symbols: self.symbols@,
            strings: self.strings@,
            versions: self.versions@,
            version_requirements: self.version_requirements@,
            names: symbols::byte_strings(self.names@),
        }
    }
}

/// The string table of an auxiliary image.
pub open spec fn auxiliary_strings(data: Seq<u8>, auxiliary: AuxiliaryElfImage) -> Seq<u8> {
    data.subrange(auxiliary.dynstr_offset as int, auxiliary.dynstr_end())
}

/// Symbol `index` of an auxiliary image.
pub open spec fn auxiliary_symbol(data: Seq<u8>, auxiliary: AuxiliaryElfImage, index: int) -> Seq<
    u8,
> {
    let at = auxiliary.dynsym_offset + index * 0x18;
    data.subrange(at, at + 0x18)
}

/// Symbol `index` of an auxiliary image with its name moved behind `old_size` bytes of strings.
pub open spec fn appended_symbol(
    data: Seq<u8>,
    auxiliary: AuxiliaryElfImage,
    old_size: int,
    index: int,
) -> Result<Seq<u8>> {
    let symbol = auxiliary_symbol(data, auxiliary, index);
    let strings = auxiliary_strings(data, auxiliary);
    let name = bytes::u32_at(symbol, 0);
    match auxiliary::spec_read_c_string(strings, name as int, strings.len() as int) {
        Err(e) => Err(e),
        Ok(_) => if bytes::u16_at(symbol, 6) != 0 {
            Err(error::fault("auxiliary dynamic symbol is unexpectedly defined"))
        } else if old_size + name > usize::MAX {
            Err(error::fault("merged dynamic string offset overflow"))
        } else if old_size + name > u32::MAX {
            Err(error::fault("merged dynamic string offset exceeds u32"))
        } else {
            Ok(bytes::u32_bytes((old_size + name) as u32) + symbol.skip(4))
        },
    }
}

/// Appends the symbols of an auxiliary image but for its null symbol.
pub open spec fn append_step(data: Seq<u8>, auxiliary: AuxiliaryElfImage, old_size: int) -> spec_fn(
    Seq<u8>,
    int,
) -> Result<Seq<u8>> {
    |state: Seq<u8>, index: int|
        match appended_symbol(data, auxiliary, old_size, index + 1) {
            Err(e) => Err(e),
            Ok(symbol) => Ok(state + symbol),
        }
}

/// `count` version entries for unversioned global symbols.
pub open spec fn global_versions(count: nat) -> Seq<u8>
    decreases count,
{
    if count == 0 {
        Seq::empty()
    } else {
        global_versions((count - 1) as nat) + bytes::u16_bytes(VER_NDX_GLOBAL)
    }
}

/// Merges restored tables with those of an auxiliary image.
pub open spec fn spec_merge_auxiliary(
    indices: SectionIndices,
    old_symbols: Seq<u8>,
    old_strings: Seq<u8>,
    hidden_symbols: HiddenSymbolReport,
    old_versions: Seq<u8>,
    version_requirements: Seq<u8>,
    data: Seq<u8>,
) -> Result<MergedModel> {
    match AuxiliaryElfImage::spec_parse(data) {
        Err(e) => Err(e),
        Ok(auxiliary) => match fold::try_fold(
            (auxiliary.dynsym_count - 1) as nat,
            old_symbols,
            append_step(data, auxiliary, old_strings.len() as int),
        ) {
            Err(e) => Err(e),
            Ok(symbols) => {
                let strings = old_strings + auxiliary_strings(data, auxiliary);
                match symbols::spec_dynamic_symbol_names(symbols, strings) {
                    Err(e) => Err(e),
                    Ok(names) => Ok(
                        MergedModel {
                            indices,
                            auxiliary,
                            hidden_symbols,
                            old_symbol_count: (old_symbols.len() / 0x18) as usize,
                            old_dynstr_size: old_strings.len() as usize,
                            symbols,
                            strings,
                            versions: old_versions + global_versions(
                                (auxiliary.dynsym_count - 1) as nat,
                            ),
                            version_requirements,
                            names,
                        },
                    ),
                }
            },
        },
    }
}

/// Merges the symbols of the image whose sections are at `indices`.
pub open spec fn spec_merge_sections(
    image: Seq<u8>,
    headers: Seq<SectionHeader>,
    indices: SectionIndices,
    patch_data: Seq<u8>,
    auxiliary_data: Seq<u8>,
) -> Result<MergedModel> {
    let versym = headers[indices.versym as int];
    let verneed = headers[indices.verneed as int];
    match symbols::spec_restore_hidden_symbols(
        image,
        headers[indices.dynsym as int],
        headers[indices.dynstr as int],
        patch_data,
    ) {
        Err(e) => Err(e),
        Ok((old_symbols, old_strings, hidden_symbols)) => if versym.size != old_symbols.len()
            / 0x18 * 2 {
            Err(error::fault(".gnu.version count does not match .dynsym"))
        } else {
            match read::spec_slice_u64(image, versym.offset, versym.size) {
                Err(e) => Err(Error::Elf(e)),
                Ok(old_versions) => match read::spec_slice_u64(
                    image,
                    verneed.offset,
                    verneed.size,
                ) {
                    Err(e) => Err(Error::Elf(e)),
                    Ok(version_requirements) => spec_merge_auxiliary(
                        indices,
                        old_symbols,
                        old_strings,
                        hidden_symbols,
                        old_versions,
                        version_requirements,
                        auxiliary_data,
                    ),
                },
            }
        },
    }
}

/// The merged symbols of the restored image in `image`, whose section names stand in `source`, and
/// an auxiliary image, or why there are none.
#[verifier::opaque]
pub open spec fn spec_merge_symbols(
    image: Seq<u8>,
    source: Seq<u8>,
    layout: LayoutModel,
    patch_data: Seq<u8>,
    auxiliary_data: Seq<u8>,
) -> Result<MergedModel> {
    match layout.spec_section_names(source) {
        Err(e) => Err(Error::Elf(e)),
        Ok(names) => match sections::spec_required_section_indices(names) {
            Err(e) => Err(e),
            Ok(indices) => if indices.hash is None && indices.gnu_hash is None {
                Err(error::fault("ELF lacks a .gnu.hash or .hash symbol-hash section"))
            } else {
                spec_merge_sections(
                    image,
                    layout.section_headers,
                    indices,
                    patch_data,
                    auxiliary_data,
                )
            },
        },
    }
}

/// A merge result agrees with its mathematical counterpart.
pub open spec fn merge_agrees(result: Result<MergedSymbols>, expected: Result<MergedModel>) -> bool {
    match (result, expected) {
        (Ok(found), Ok(wanted)) => found@ == wanted,
        (Err(found), Err(wanted)) => found == wanted,
        _ => false,
    }
}

/// Appends symbol `index` of an auxiliary image to the merged symbols.
fn append_symbol(
    symbols: &mut Vec<u8>,
    data: &[u8],
    auxiliary: &AuxiliaryElfImage,
    old_size: usize,
    index: usize,
) -> (result: Result<()>)
    requires
        auxiliary.is_contiguous(data@.len() as int),
        index < auxiliary.dynsym_count,
    ensures
        match (result, appended_symbol(data@, *auxiliary, old_size as int, index as int)) {
            (Ok(_), Ok(symbol)) => final(symbols)@ == old(symbols)@ + symbol,
            (Err(found), Err(wanted)) => found == wanted && final(symbols)@ == old(symbols)@,
            _ => false,
        },
{
    broadcast use bytes::group_bytes_len;

    let size: usize = data.len();
    let strings_at = auxiliary.dynstr_offset as usize;
    let strings = &data[strings_at..strings_at + auxiliary.dynstr_size as usize];
    let at: usize = auxiliary.dynsym_offset as usize + index * 0x18;
    let symbol = &data[at..at + 0x18];
    let name = load_u32(symbol, 0);
    let _ = read_c_string(strings, name as usize, strings.len())?;
    if load_u16(symbol, 6) != 0 {
        return invalid(Fault::Text("auxiliary dynamic symbol is unexpectedly defined"));
    }
    let moved = match old_size.checked_add(name as usize) {
        Some(moved) => moved,
        None => return invalid(Fault::Text("merged dynamic string offset overflow")),
    };
    if moved as u64 > u32::MAX as u64 {
        return invalid(Fault::Text("merged dynamic string offset exceeds u32"));
    }
    let ghost before = symbols@;
    extend(symbols, &bytes_of_u32(moved as u32));
    extend(symbols, &symbol[4..0x18]);
    assert(symbol@.subrange(4, 0x18) =~= symbol@.skip(4));
    assert(symbols@ =~= before + (bytes::u32_bytes(moved as u32) + symbol@.skip(4)));
    Ok(())
}

/// Appends version entries for unversioned global symbols.
fn append_versions(versions: &mut Vec<u8>, count: usize)
    ensures
        final(versions)@ == old(versions)@ + global_versions(count as nat),
{
    let ghost before = versions@;
    assert(versions@ =~= before + global_versions(0));
    let mut index: usize = 0;
    while index < count
        invariant
            index <= count,
            versions@ == before + global_versions(index as nat),
        decreases count - index,
    {
        extend(versions, &crate::bytes::bytes_of_u16(VER_NDX_GLOBAL));
        index += 1;
        assert(versions@ =~= before + global_versions(index as nat));
    }
}

/// Merges restored tables with those of an auxiliary image.
fn merge_auxiliary(
    indices: SectionIndices,
    old_symbols: Vec<u8>,
    old_strings: Vec<u8>,
    hidden_symbols: HiddenSymbolReport,
    old_versions: Vec<u8>,
    version_requirements: Vec<u8>,
    data: &[u8],
) -> (result: Result<MergedSymbols>)
    ensures
        merge_agrees(
            result,
            spec_merge_auxiliary(
                indices,
                old_symbols@,
                old_strings@,
                hidden_symbols,
                old_versions@,
                version_requirements@,
                data@,
            ),
        ),
        result matches Ok(merged) ==> merged.indices == indices && merged.auxiliary.dynsym_count > 0,
{
    let auxiliary = AuxiliaryElfImage::parse(data)?;
    let size: usize = data.len();
    let old_symbol_count: usize = old_symbols.len() / 0x18;
    let old_dynstr_size: usize = old_strings.len();
    let appended: usize = auxiliary.dynsym_count as usize - 1;
    let ghost start = old_symbols@;
    let ghost step = append_step(data@, auxiliary, old_dynstr_size as int);
    let mut symbols = old_symbols;
    let mut index: usize = 0;
    while index < appended
        invariant
            index <= appended,
            appended == auxiliary.dynsym_count - 1,
            auxiliary.is_contiguous(data@.len() as int),
            step == append_step(data@, auxiliary, old_dynstr_size as int),
            fold::try_fold(index as nat, start, step) == Ok::<Seq<u8>, Error>(symbols@),
            AuxiliaryElfImage::spec_parse(data@) == Ok::<AuxiliaryElfImage, Error>(auxiliary),
            start == old_symbols@,
            old_dynstr_size == old_strings@.len(),
        decreases appended - index,
    {
        proof {
            if fold::try_fold((index + 1) as nat, start, step) is Err {
                fold::lemma_failure_stays((index + 1) as nat, appended as nat, start, step);
            }
        }
        append_symbol(&mut symbols, data, &auxiliary, old_dynstr_size, index + 1)?;
        index += 1;
    }
    let mut strings = old_strings;
    let strings_at = auxiliary.dynstr_offset as usize;
    extend(&mut strings, &data[strings_at..strings_at + auxiliary.dynstr_size as usize]);
    let mut versions = old_versions;
    append_versions(&mut versions, appended);
    let names = dynamic_symbol_names(&symbols, &strings)?;
    Ok(
        MergedSymbols {
            indices,
            auxiliary,
            hidden_symbols,
            old_symbol_count,
            old_dynstr_size,
            symbols,
            strings,
            versions,
            version_requirements,
            names,
        },
    )
}

/// Merges the symbols of the image whose sections are at `indices`.
fn merge_sections(
    image: &[u8],
    headers: &[SectionHeader],
    indices: SectionIndices,
    patch_data: &[u8],
    auxiliary_data: &[u8],
) -> (result: Result<MergedSymbols>)
    requires
        indices.below(headers@.len() as int),
    ensures
        merge_agrees(
            result,
            spec_merge_sections(image@, headers@, indices, patch_data@, auxiliary_data@),
        ),
        result matches Ok(merged) ==> merged.indices == indices && merged.auxiliary.dynsym_count > 0,
{
    let versym = headers[indices.versym];
    let verneed = headers[indices.verneed];
    let (old_symbols, old_strings, hidden_symbols) = restore_hidden_symbols(
        image,
        headers[indices.dynsym],
        headers[indices.dynstr],
        patch_data,
    )?;
    if versym.size != (old_symbols.len() / 0x18 * 2) as u64 {
        return invalid(Fault::Text(".gnu.version count does not match .dynsym"));
    }
    let old_versions = copy_of(
        match slice_u64(image, versym.offset, versym.size) {
            Ok(versions) => versions,
            Err(e) => return Err(Error::Elf(e)),
        },
    );
    let version_requirements = copy_of(
        match slice_u64(image, verneed.offset, verneed.size) {
            Ok(requirements) => requirements,
            Err(e) => return Err(Error::Elf(e)),
        },
    );
    merge_auxiliary(
        indices,
        old_symbols,
        old_strings,
        hidden_symbols,
        old_versions,
        version_requirements,
        auxiliary_data,
    )
}

/// Merges the dynamic symbols of a restored image with those of an auxiliary image. `source` is
/// the protected image, which holds the section names. At least one section for a symbol hash has
/// to be there, a GNU or a SysV one.
pub fn merge_symbols(
    image: &[u8],
    source: &[u8],
    layout: &ElfLayout,
    symbol_patch_data: &[u8],
    auxiliary_data: &[u8],
) -> (result: Result<MergedSymbols>)
    ensures
        merge_agrees(
            result,
            spec_merge_symbols(
                image@,
                source@,
                layout@,
                symbol_patch_data@,
                auxiliary_data@,
            ),
        ),
        result matches Ok(merged) ==> merged.indices.below(layout.section_headers@.len() as int)
            && merged.auxiliary.dynsym_count > 0,
{
    proof {
        reveal(spec_merge_symbols);
    }
    let names = match layout.section_names(source) {
        Ok(names) => names,
        Err(e) => return Err(Error::Elf(e)),
    };
    let indices = required_section_indices(&names)?;
    if indices.hash.is_none() && indices.gnu_hash.is_none() {
        return invalid(Fault::Text("ELF lacks a .gnu.hash or .hash symbol-hash section"));
    }
    proof {
        layout::lemma_one_name_each(layout@, source@);
    }
    merge_sections(
        image,
        &layout.section_headers,
        indices,
        symbol_patch_data,
        auxiliary_data,
    )
}

/// The symbols after `n` have been appended.
proof fn lemma_appended(
    data: Seq<u8>,
    auxiliary: AuxiliaryElfImage,
    old_symbols: Seq<u8>,
    old_size: int,
    n: nat,
)
    requires
        auxiliary.is_contiguous(data.len() as int),
        n < auxiliary.dynsym_count,
        fold::try_fold(n, old_symbols, append_step(data, auxiliary, old_size)) is Ok,
    ensures
        ({
            let symbols = fold::try_fold(
                n,
                old_symbols,
                append_step(data, auxiliary, old_size),
            )->Ok_0;
            &&& symbols.len() == old_symbols.len() + n * 0x18
            &&& symbols.take(old_symbols.len() as int) == old_symbols
            &&& forall|i: int|
                0 <= i < n ==> {
                    let at = old_symbols.len() + i * 0x18;
                    let appended = #[trigger] appended_symbol(data, auxiliary, old_size, i + 1);
                    &&& appended is Ok
                    &&& symbols.subrange(at, at + 0x18) == appended->Ok_0
                }
        }),
    decreases n,
{
    broadcast use bytes::group_bytes_len;

    let symbols = fold::try_fold(n, old_symbols, append_step(data, auxiliary, old_size))->Ok_0;
    if n == 0 {
        assert(symbols.take(old_symbols.len() as int) =~= old_symbols);
    } else {
        let before = fold::try_fold(
            (n - 1) as nat,
            old_symbols,
            append_step(data, auxiliary, old_size),
        )->Ok_0;
        lemma_appended(data, auxiliary, old_symbols, old_size, (n - 1) as nat);
        assert(symbols.take(old_symbols.len() as int) =~= before.take(old_symbols.len() as int));
        assert forall|i: int| 0 <= i < n implies {
            let at = old_symbols.len() + i * 0x18;
            let appended = #[trigger] appended_symbol(data, auxiliary, old_size, i + 1);
            &&& appended is Ok
            &&& symbols.subrange(at, at + 0x18) == appended->Ok_0
        } by {
            let at = old_symbols.len() + i * 0x18;
            if i < n - 1 {
                assert(appended_symbol(data, auxiliary, old_size, i + 1) is Ok);
                assert(symbols.subrange(at, at + 0x18) =~= before.subrange(at, at + 0x18));
            } else {
                assert(symbols.subrange(at, at + 0x18) =~= appended_symbol(
                    data,
                    auxiliary,
                    old_size,
                    i + 1,
                )->Ok_0);
            }
        }
    }
}

/// The names of the first `n` symbols.
proof fn lemma_names(symbols: Seq<u8>, strings: Seq<u8>, n: nat)
    requires
        fold::try_fold(n, Seq::<Seq<u8>>::empty(), symbols::name_step(symbols, strings)) is Ok,
    ensures
        ({
            let names = fold::try_fold(
                n,
                Seq::<Seq<u8>>::empty(),
                symbols::name_step(symbols, strings),
            )->Ok_0;
            &&& names.len() == n
            &&& forall|k: int|
                0 <= k < n ==> auxiliary::spec_read_c_string(
                    strings,
                    bytes::u32_at(symbols, k * 0x18) as int,
                    strings.len() as int,
                ) == Ok::<Seq<u8>, Error>(#[trigger] names[k])
        }),
    decreases n,
{
    if n > 0 {
        lemma_names(symbols, strings, (n - 1) as nat);
    }
}

/// A string keeps its contents when the table moves behind other strings.
proof fn lemma_moved_string(old_strings: Seq<u8>, strings: Seq<u8>, at: int)
    requires
        0 <= at <= strings.len(),
    ensures
        layout::nul_position(old_strings + strings, old_strings.len() + at) == old_strings.len()
            + layout::nul_position(strings, at),
    decreases strings.len() - at,
{
    if at < strings.len() && strings[at] != 0 {
        lemma_moved_string(old_strings, strings, at + 1);
    }
}

/// Merging keeps the restored symbols in front, appends one symbol for each auxiliary symbol but
/// the null symbol, and gives every table one entry for each symbol.
pub proof fn law_merge_keeps_old_symbols(
    indices: SectionIndices,
    old_symbols: Seq<u8>,
    old_strings: Seq<u8>,
    hidden_symbols: HiddenSymbolReport,
    old_versions: Seq<u8>,
    version_requirements: Seq<u8>,
    data: Seq<u8>,
)
    requires
        data.len() <= usize::MAX,
        old_symbols.len() % 0x18 == 0,
        spec_merge_auxiliary(
            indices,
            old_symbols,
            old_strings,
            hidden_symbols,
            old_versions,
            version_requirements,
            data,
        ) is Ok,
    ensures
        ({
            let merged = spec_merge_auxiliary(
                indices,
                old_symbols,
                old_strings,
                hidden_symbols,
                old_versions,
                version_requirements,
                data,
            )->Ok_0;
            let appended = merged.auxiliary.dynsym_count - 1;
            &&& merged.symbols.take(old_symbols.len() as int) == old_symbols
            &&& merged.strings.take(old_strings.len() as int) == old_strings
            &&& merged.versions.take(old_versions.len() as int) == old_versions
            &&& merged.symbols.len() == old_symbols.len() + appended * 0x18
            &&& merged.versions.len() == old_versions.len() + appended * 2
            &&& merged.names.len() == old_symbols.len() / 0x18 + appended
        }),
{
    let merged = spec_merge_auxiliary(
        indices,
        old_symbols,
        old_strings,
        hidden_symbols,
        old_versions,
        version_requirements,
        data,
    )->Ok_0;
    let appended = (merged.auxiliary.dynsym_count - 1) as nat;
    lemma_appended(data, merged.auxiliary, old_symbols, old_strings.len() as int, appended);
    lemma_names(merged.symbols, merged.strings, merged.symbols.len() / 0x18);
    lemma_global_versions(appended);
    assert(merged.strings.take(old_strings.len() as int) =~= old_strings);
    assert(merged.versions.take(old_versions.len() as int) =~= old_versions);
}

/// Each version entry takes two bytes.
proof fn lemma_global_versions(count: nat)
    ensures
        global_versions(count).len() == count * 2,
    decreases count,
{
    broadcast use bytes::group_bytes_len;

    if count > 0 {
        lemma_global_versions((count - 1) as nat);
    }
}

/// An appended symbol has the name that it has in the auxiliary image.
pub proof fn law_appended_symbols_keep_their_names(
    indices: SectionIndices,
    old_symbols: Seq<u8>,
    old_strings: Seq<u8>,
    hidden_symbols: HiddenSymbolReport,
    old_versions: Seq<u8>,
    version_requirements: Seq<u8>,
    data: Seq<u8>,
    i: int,
)
    requires
        data.len() <= usize::MAX,
        old_symbols.len() % 0x18 == 0,
        spec_merge_auxiliary(
            indices,
            old_symbols,
            old_strings,
            hidden_symbols,
            old_versions,
            version_requirements,
            data,
        ) is Ok,
        1 <= i < AuxiliaryElfImage::fields(data).dynsym_count,
    ensures
        ({
            let merged = spec_merge_auxiliary(
                indices,
                old_symbols,
                old_strings,
                hidden_symbols,
                old_versions,
                version_requirements,
                data,
            )->Ok_0;
            let strings = auxiliary_strings(data, merged.auxiliary);
            let name = bytes::u32_at(auxiliary_symbol(data, merged.auxiliary, i), 0);
            auxiliary::spec_read_c_string(strings, name as int, strings.len() as int) == Ok::<
                Seq<u8>,
                Error,
            >(merged.names[old_symbols.len() / 0x18 + i - 1])
        }),
{
    broadcast use bytes::group_bytes_len;

    let merged = spec_merge_auxiliary(
        indices,
        old_symbols,
        old_strings,
        hidden_symbols,
        old_versions,
        version_requirements,
        data,
    )->Ok_0;
    let auxiliary = merged.auxiliary;
    let appended = (auxiliary.dynsym_count - 1) as nat;
    let old_size = old_strings.len() as int;
    lemma_appended(data, auxiliary, old_symbols, old_size, appended);
    lemma_names(merged.symbols, merged.strings, merged.symbols.len() / 0x18);
    let k = old_symbols.len() / 0x18 + i - 1;
    let at = old_symbols.len() + (i - 1) * 0x18;
    assert(at == k * 0x18);
    let strings = auxiliary_strings(data, auxiliary);
    let symbol = auxiliary_symbol(data, auxiliary, i);
    let name = bytes::u32_at(symbol, 0) as int;
    let moved = appended_symbol(data, auxiliary, old_size, (i - 1) + 1);
    assert(moved is Ok);
    let record = merged.symbols.subrange(at, at + 0x18);
    assert(record == moved->Ok_0);
    assert(merged.symbols.subrange(at, at + 4) =~= record.subrange(0, 4));
    assert(record.subrange(0, 4) =~= bytes::u32_bytes((old_size + name) as u32));
    bytes::lemma_u32_spelled(merged.symbols, at, (old_size + name) as u32);
    lemma_moved_string(old_strings, strings, name);
    layout::lemma_nul_position(strings, name);
    let whole = merged.strings;
    assert(whole.take(whole.len() as int) =~= whole);
    assert(strings.take(strings.len() as int) =~= strings);
    assert(layout::c_string(whole, old_size + name) =~= layout::c_string(strings, name));
    assert(merged.names[k] == layout::c_string(whole, old_size + name));
}

} // verus!
