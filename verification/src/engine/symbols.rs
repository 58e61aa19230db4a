//! Restoring the dynamic symbols that the protector hid.

use super::auxiliary;
use super::auxiliary::read_c_string;
use super::error::{invalid, lift, Error, Fault, Result};
use crate::bytes;
use crate::bytes::{copy_of, is_zero, load_u32, same_bytes, store};
use crate::elf::read;
use crate::elf::{slice_u64, usize_from_u64, SectionHeader};
use crate::engine::error;
use crate::fold;
use vstd::prelude::*;

verus! {

/// What restoring hidden symbols did.
#[derive(Debug, Clone, Copy, PartialEq, Eq, Structural)]
pub struct HiddenSymbolReport {
    pub patch_blob_size: u32,
    pub patched_symbols: u32,
    pub copied_strings: usize,
    pub secondary_record_count: u32,
    pub first_target_index: u32,
    pub last_target_index: u32,
}

/// Where the parts of a symbol patch are.
#[derive(Debug, Clone, Copy)]
pub struct SymbolPatch {
    /// Size of the primary part, which starts at 8.
    pub blob_size: u32,
    pub secondary_record_count: u32,
    pub count: u32,
    pub symbol_offset: u32,
    pub index_offset: u32,
    pub string_offset: u32,
}

/// The tables while symbols are put into them.
#[verifier::ext_equal]
pub struct PatchState {
    pub symbols: Seq<u8>,
    pub strings: Seq<u8>,
    /// Where the next symbol's name starts in the patch.
    pub cursor: int,
    /// Names that were not there before.
    pub copied: int,
}

impl SymbolPatch {
    /// End of the primary part.
    pub open spec fn end(self) -> int {
        8 + self.blob_size
    }

    /// The header of the patch in `data`.
    pub open spec fn fields(data: Seq<u8>) -> SymbolPatch {
        SymbolPatch {
            blob_size: bytes::u32_at(data, 0),
            secondary_record_count: bytes::u32_at(data, 4),
            count: bytes::u32_at(data, 8),
            symbol_offset: bytes::u32_at(data, 12),
            index_offset: bytes::u32_at(data, 16),
            string_offset: bytes::u32_at(data, 20),
        }
    }

    /// The tables of the patch lie in its primary part.
    pub open spec fn fits(self) -> bool {
        &&& self.symbol_offset + self.count * 0x18 <= self.blob_size
        &&& self.index_offset + self.count * 4 <= self.blob_size
        &&& self.string_offset < self.blob_size
    }

    /// The patch in `data`, or why it cannot be used.
    pub open spec fn spec_parse(data: Seq<u8>) -> Result<SymbolPatch> {
        let patch = Self::fields(data);
        if data.len() < 0x18 {
            Err(error::fault("0x9E symbol patch data is truncated"))
        } else if patch.end() > usize::MAX {
            Err(error::fault("0x9E patch blob end overflow"))
        } else if patch.end() > data.len() {
            Err(error::fault("0x9E primary symbol patch blob exceeds its artifact"))
        } else if !patch.fits() {
            Err(error::fault("0x9E symbol patch table has invalid offsets"))
        } else {
            Ok(patch)
        }
    }

    /// The index of the symbol that entry `index` restores.
    pub open spec fn target(self, data: Seq<u8>, index: int) -> u32 {
        bytes::u32_at(data, 8 + self.index_offset + index * 4)
    }

    /// The symbol of entry `index`.
    pub open spec fn symbol(self, data: Seq<u8>, index: int) -> Seq<u8> {
        let at = 8 + self.symbol_offset + index * 0x18;
        data.subrange(at, at + 0x18)
    }

    /// An entry before `index` restores the same symbol.
    pub open spec fn is_repeated(self, data: Seq<u8>, index: int) -> bool {
        exists|j: int|
            0 <= j < index && #[trigger] self.target(data, j) == self.target(data, index)
    }

    /// Puts the symbol of entry `index` and its name into the tables.
    pub open spec fn apply(self, data: Seq<u8>, symbol_count: int) -> spec_fn(
        PatchState,
        int,
    ) -> Result<PatchState> {
        |state: PatchState, index: int|
            {
                let target = self.target(data, index);
                let symbol = self.symbol(data, index);
                if target == 0 || target >= symbol_count {
                    Err(Error::Invalid(Fault::TargetIndex { target }))
                } else if self.is_repeated(data, index) {
                    Err(Error::Invalid(Fault::PatchedTwice { target }))
                } else {
                    match auxiliary::spec_read_c_string(data, state.cursor, self.end()) {
                        Err(e) => Err(e),
                        Ok(name) => {
                            let at = bytes::u32_at(symbol, 0);
                            if at + name.len() + 1 > state.strings.len() {
                                Err(Error::Invalid(Fault::NameExceeds { target }))
                            } else {
                                match auxiliary::spec_read_c_string(
                                    state.strings,
                                    at as int,
                                    state.strings.len() as int,
                                ) {
                                    Err(e) => Err(e),
                                    Ok(existing) => if existing.len() == 0 {
                                        Ok(
                                            PatchState {
                                                symbols: bytes::overwrite(
                                                    state.symbols,
                                                    target * 0x18,
                                                    symbol,
                                                ),
                                                strings: bytes::overwrite(
                                                    state.strings,
                                                    at as int,
                                                    name.push(0),
                                                ),
                                                cursor: state.cursor + name.len() + 1,
                                                copied: state.copied + 1,
                                            },
                                        )
                                    } else if existing != name {
                                        Err(Error::Invalid(Fault::NameConflict { target }))
                                    } else {
                                        Ok(
                                            PatchState {
                                                symbols: bytes::overwrite(
                                                    state.symbols,
                                                    target * 0x18,
                                                    symbol,
                                                ),
                                                cursor: state.cursor + name.len() + 1,
                                                ..state
                                            },
                                        )
                                    },
                                }
                            }
                        },
                    }
                }
            }
    }

    /// The tables before the first entry.
    pub open spec fn start(self, symbols: Seq<u8>, strings: Seq<u8>) -> PatchState {
        PatchState { symbols, strings, cursor: 8 + self.string_offset, copied: 0 }
    }

    /// What is left behind the names is padding.
    pub open spec fn is_padding(self, data: Seq<u8>, cursor: int) -> bool {
        self.end() - cursor <= 3 && bytes::all_zero(data.subrange(cursor, self.end()))
    }

    /// The tables with every entry applied, and the report on it.
    pub open spec fn spec_apply_all(
        self,
        data: Seq<u8>,
        symbols: Seq<u8>,
        strings: Seq<u8>,
        symbol_count: int,
    ) -> Result<(Seq<u8>, Seq<u8>, HiddenSymbolReport)> {
        match fold::try_fold(
            self.count as nat,
            self.start(symbols, strings),
            self.apply(data, symbol_count),
        ) {
            Err(e) => Err(e),
            Ok(state) => if !self.is_padding(data, state.cursor) {
                Err(
                    Error::Invalid(
                        Fault::StringPadding {
                            offset: state.cursor as usize,
                            end: self.end() as usize,
                        },
                    ),
                )
            } else if self.count == 0 {
                Err(error::fault("0x9E patch table is empty"))
            } else {
                Ok(
                    (
                        state.symbols,
                        state.strings,
                        HiddenSymbolReport {
                            patch_blob_size: self.blob_size,
                            patched_symbols: self.count,
                            copied_strings: state.copied as usize,
                            secondary_record_count: self.secondary_record_count,
                            first_target_index: fold::smallest(
                                self.count as nat,
                                |index: int| self.target(data, index) as int,
                            ) as u32,
                            last_target_index: fold::largest(
                                self.count as nat,
                                |index: int| self.target(data, index) as int,
                            ) as u32,
                        },
                    ),
                )
            },
        }
    }
}

/// The restored symbol and string tables of an image and the report on them, or why there are
/// none.
pub open spec fn spec_restore_hidden_symbols(
    image: Seq<u8>,
    dynsym: SectionHeader,
    dynstr: SectionHeader,
    patch_data: Seq<u8>,
) -> Result<(Seq<u8>, Seq<u8>, HiddenSymbolReport)> {
    if dynsym.entry_size != 0x18 || dynsym.size % 0x18 != 0 {
        Err(error::fault("unexpected .dynsym entry layout"))
    } else {
        match read::spec_usize_from_u64((dynsym.size / 0x18) as u64, "dynamic symbol count") {
            Err(e) => Err(Error::Elf(e)),
            Ok(symbol_count) => match read::spec_slice_u64(image, dynsym.offset, dynsym.size) {
                Err(e) => Err(Error::Elf(e)),
                Ok(symbols) => match read::spec_slice_u64(image, dynstr.offset, dynstr.size) {
                    Err(e) => Err(Error::Elf(e)),
                    Ok(strings) => match SymbolPatch::spec_parse(patch_data) {
                        Err(e) => Err(e),
                        Ok(patch) => patch.spec_apply_all(
                            patch_data,
                            symbols,
                            strings,
                            symbol_count as int,
                        ),
                    },
                },
            },
        }
    }
}

/// Reads the header of a symbol patch.
fn parse_patch(data: &[u8]) -> (result: Result<SymbolPatch>)
    ensures
        result == SymbolPatch::spec_parse(data@),
        result matches Ok(patch) ==> patch.fits() && patch.end() <= data@.len(),
{
    if data.len() < 0x18 {
        return invalid(Fault::Text("0x9E symbol patch data is truncated"));
    }
    let patch = SymbolPatch {
        blob_size: load_u32(data, 0),
        secondary_record_count: load_u32(data, 4),
        count: load_u32(data, 8),
        symbol_offset: load_u32(data, 12),
        index_offset: load_u32(data, 16),
        string_offset: load_u32(data, 20),
    };
    let end = match (patch.blob_size as usize).checked_add(8) {
        Some(end) => end,
        None => return invalid(Fault::Text("0x9E patch blob end overflow")),
    };
    if end > data.len() {
        return invalid(Fault::Text("0x9E primary symbol patch blob exceeds its artifact"));
    }
    let size = patch.blob_size as u64;
    if patch.symbol_offset as u64 + patch.count as u64 * 0x18 > size || patch.index_offset as u64
        + patch.count as u64 * 4 > size || patch.string_offset as u64 >= size {
        return invalid(Fault::Text("0x9E symbol patch table has invalid offsets"));
    }
    Ok(patch)
}

/// The executable counterpart of [`PatchState`].
struct Patching {
    symbols: Vec<u8>,
    strings: Vec<u8>,
    cursor: usize,
    copied: usize,
    /// Which symbols have been restored.
    patched: Vec<bool>,
}

impl Patching {
    /// The mathematical content.
    spec fn state(self) -> PatchState {
        PatchState {
            symbols: self.symbols@,
            strings: self.strings@,
            cursor: self.cursor as int,
            copied: self.copied as int,
        }
    }

    /// The record of restored symbols is right after `index` entries.
    spec fn records(self, patch: SymbolPatch, data: Seq<u8>, index: int) -> bool {
        forall|t: int|
            0 <= t < self.patched@.len() ==> (#[trigger] self.patched@[t] <==> exists|j: int|
                0 <= j < index && #[trigger] patch.target(data, j) == t)
    }
}

/// Applies entry `index` of a patch.
fn apply_entry(patch: &SymbolPatch, data: &[u8], state: &mut Patching, index: usize) -> (result:
    Result<()>)
    requires
        patch.fits(),
        patch.end() <= data@.len(),
        index < patch.count,
        old(state).symbols@.len() == old(state).patched@.len() * 0x18,
        old(state).records(*patch, data@, index as int),
        old(state).copied <= index,
        8 <= old(state).cursor <= patch.end(),
    ensures
        final(state).symbols@.len() == old(state).symbols@.len(),
        final(state).patched@.len() == old(state).patched@.len(),
        match (
            result,
            (patch.apply(data@, old(state).patched@.len() as int))(
                old(state).state(),
                index as int,
            ),
        ) {
            (Ok(_), Ok(next)) => {
                &&& final(state).state() == next
                &&& final(state).records(*patch, data@, index + 1)
                &&& final(state).copied <= index + 1
                &&& 8 <= final(state).cursor <= patch.end()
            },
            (Err(found), Err(wanted)) => found == wanted,
            _ => false,
        },
{
    let size: usize = data.len();
    let end: usize = 8 + patch.blob_size as usize;
    let target = load_u32(data, 8 + patch.index_offset as usize + index * 4);
    let at: usize = 8 + patch.symbol_offset as usize + index * 0x18;
    let symbol = &data[at..at + 0x18];
    let ghost symbol_count = state.patched@.len() as int;
    let ghost before = state.state();
    assert(symbol@ == patch.symbol(data@, index as int));
    assert(target == patch.target(data@, index as int));
    if target == 0 || target as usize >= state.patched.len() {
        return invalid(Fault::TargetIndex { target });
    }
    if state.patched[target as usize] {
        return invalid(Fault::PatchedTwice { target });
    }
    proof {
        assert(!patch.is_repeated(data@, index as int));
    }
    let name = read_c_string(data, state.cursor, end)?;
    let name_offset = load_u32(symbol, 0) as usize;
    let strings_len: usize = state.strings.len();
    if name_offset > strings_len || name.len() >= strings_len - name_offset {
        return invalid(Fault::NameExceeds { target });
    }
    let existing = read_c_string(&state.strings, name_offset, strings_len)?;
    let ghost existing_view = existing@;
    let fresh = existing.len() == 0;
    if !fresh && !same_bytes(existing, name) {
        return invalid(Fault::NameConflict { target });
    }
    if fresh {
        let mut terminated = copy_of(name);
        terminated.push(0);
        store(&mut state.strings, name_offset, &terminated);
        state.copied = state.copied + 1;
    }
    assert(state.symbols@.len() == state.symbols.len());
    store(&mut state.symbols, target as usize * 0x18, symbol);
    state.cursor = state.cursor + name.len() + 1;
    let ghost recorded = state.patched@;
    state.patched.set(target as usize, true);
    proof {
        assert forall|t: int| 0 <= t < state.patched@.len() implies (#[trigger] state.patched@[t]
            <==> exists|j: int|
            0 <= j < index + 1 && #[trigger] patch.target(data@, j) == t) by {
            if recorded[t] {
                let j = choose|j: int| 0 <= j < index && #[trigger] patch.target(data@, j) == t;
                assert(patch.target(data@, j) == t);
            }
            if t == target {
                assert(patch.target(data@, index as int) == t);
            }
        }
    }
    Ok(())
}

/// Applies every entry of a patch.
fn apply_patch(
    patch: &SymbolPatch,
    data: &[u8],
    symbols: Vec<u8>,
    strings: Vec<u8>,
    symbol_count: usize,
) -> (result: Result<(Vec<u8>, Vec<u8>, HiddenSymbolReport)>)
    requires
        patch.fits(),
        patch.end() <= data@.len(),
        symbols@.len() == symbol_count * 0x18,
    ensures
        match (result, patch.spec_apply_all(data@, symbols@, strings@, symbol_count as int)) {
            (Ok((found_symbols, found_strings, report)), Ok((symbols, strings, expected))) => {
                &&& found_symbols@ == symbols
                &&& found_strings@ == strings
                &&& report == expected
            },
            (Err(found), Err(wanted)) => found == wanted,
            _ => false,
        },
{
    let size: usize = data.len();
    let end: usize = 8 + patch.blob_size as usize;
    let count: usize = patch.count as usize;
    let ghost start = patch.start(symbols@, strings@);
    let ghost step = patch.apply(data@, symbol_count as int);
    let ghost targets = |index: int| patch.target(data@, index) as int;
    let mut state = Patching {
        symbols,
        strings,
        cursor: 8 + patch.string_offset as usize,
        copied: 0,
        patched: vec![false; symbol_count],
    };
    let mut first: u32 = 0;
    let mut last: u32 = 0;
    let mut index: usize = 0;
    while index < count
        invariant
            index <= count,
            count == patch.count,
            size == data@.len(),
            end == patch.end(),
            patch.fits(),
            patch.end() <= data@.len(),
            state.patched@.len() == symbol_count,
            state.symbols@.len() == state.patched@.len() * 0x18,
            state.records(*patch, data@, index as int),
            state.copied <= index,
            8 <= state.cursor <= patch.end(),
            start == patch.start(symbols@, strings@),
            step == patch.apply(data@, symbol_count as int),
            targets == (|index: int| patch.target(data@, index) as int),
            fold::try_fold(index as nat, start, step) == Ok::<PatchState, Error>(state.state()),
            first == fold::smallest(index as nat, targets),
            last == fold::largest(index as nat, targets),
        decreases count - index,
    {
        proof {
            if fold::try_fold((index + 1) as nat, start, step) is Err {
                fold::lemma_failure_stays((index + 1) as nat, count as nat, start, step);
            }
        }
        let target = load_u32(data, 8 + patch.index_offset as usize + index * 4);
        assert(target == targets(index as int));
        apply_entry(patch, data, &mut state, index)?;
        if index == 0 || target < first {
            first = target;
        }
        if index == 0 || target > last {
            last = target;
        }
        index += 1;
    }
    if end - state.cursor > 3 || !is_zero(&data[state.cursor..end]) {
        return invalid(Fault::StringPadding { offset: state.cursor, end });
    }
    if count == 0 {
        return invalid(Fault::Text("0x9E patch table is empty"));
    }
    let report = HiddenSymbolReport {
        patch_blob_size: patch.blob_size,
        patched_symbols: patch.count,
        copied_strings: state.copied,
        secondary_record_count: patch.secondary_record_count,
        first_target_index: first,
        last_target_index: last,
    };
    Ok((state.symbols, state.strings, report))
}

/// Puts hidden symbols and their names back into copies of the dynamic symbol and string tables.
pub fn restore_hidden_symbols(
    image: &[u8],
    dynsym: SectionHeader,
    dynstr: SectionHeader,
    patch_data: &[u8],
) -> (result: Result<(Vec<u8>, Vec<u8>, HiddenSymbolReport)>)
    ensures
        match (result, spec_restore_hidden_symbols(image@, dynsym, dynstr, patch_data@)) {
            (Ok((found_symbols, found_strings, report)), Ok((symbols, strings, expected))) => {
                &&& found_symbols@ == symbols
                &&& found_strings@ == strings
                &&& report == expected
            },
            (Err(found), Err(wanted)) => found == wanted,
            _ => false,
        },
{
    if dynsym.entry_size != 0x18 || dynsym.size % 0x18 != 0 {
        return invalid(Fault::Text("unexpected .dynsym entry layout"));
    }
    let symbol_count = lift(usize_from_u64(dynsym.size / 0x18, "dynamic symbol count"))?;
    let symbols = copy_of(
        match slice_u64(image, dynsym.offset, dynsym.size) {
            Ok(symbols) => symbols,
            Err(e) => return Err(Error::Elf(e)),
        },
    );
    let strings = copy_of(
        match slice_u64(image, dynstr.offset, dynstr.size) {
            Ok(strings) => strings,
            Err(e) => return Err(Error::Elf(e)),
        },
    );
    let patch = parse_patch(patch_data)?;
    apply_patch(&patch, patch_data, symbols, strings, symbol_count)
}

/// No entry of the patch restores symbol `t`.
pub open spec fn is_untouched(patch: SymbolPatch, data: Seq<u8>, t: int) -> bool {
    forall|j: int| 0 <= j < patch.count ==> #[trigger] patch.target(data, j) != t
}

/// The tables after the first `n` entries.
proof fn lemma_applied(
    patch: SymbolPatch,
    data: Seq<u8>,
    symbols: Seq<u8>,
    strings: Seq<u8>,
    symbol_count: int,
    n: nat,
)
    requires
        n <= patch.count,
        patch.fits(),
        patch.end() <= data.len(),
        symbols.len() == symbol_count * 0x18,
        fold::try_fold(
            n,
            patch.start(symbols, strings),
            patch.apply(data, symbol_count),
        ) is Ok,
    ensures
        ({
            let state = fold::try_fold(
                n,
                patch.start(symbols, strings),
                patch.apply(data, symbol_count),
            )->Ok_0;
            &&& state.symbols.len() == symbols.len()
            &&& state.strings.len() == strings.len()
            &&& forall|i: int|
                0 <= i < n ==> {
                    let at = (#[trigger] patch.target(data, i)) * 0x18;
                    &&& 0 < patch.target(data, i) < symbol_count
                    &&& state.symbols.subrange(at, at + 0x18) == patch.symbol(data, i)
                }
            &&& forall|t: int|
                0 <= t < symbol_count && #[trigger] is_untouched(patch, data, t)
                    ==> state.symbols.subrange(t * 0x18, t * 0x18 + 0x18) == symbols.subrange(
                    t * 0x18,
                    t * 0x18 + 0x18,
                )
        }),
    decreases n,
{
    if n > 0 {
        let last = n - 1;
        lemma_applied(patch, data, symbols, strings, symbol_count, last as nat);
        let before = fold::try_fold(
            last as nat,
            patch.start(symbols, strings),
            patch.apply(data, symbol_count),
        )->Ok_0;
        let after = fold::try_fold(
            n,
            patch.start(symbols, strings),
            patch.apply(data, symbol_count),
        )->Ok_0;
        let target = patch.target(data, last);
        assert(after.symbols == bytes::overwrite(
            before.symbols,
            target * 0x18,
            patch.symbol(data, last),
        ));
        assert forall|i: int| 0 <= i < n implies {
            let at = (#[trigger] patch.target(data, i)) * 0x18;
            &&& 0 < patch.target(data, i) < symbol_count
            &&& after.symbols.subrange(at, at + 0x18) == patch.symbol(data, i)
        } by {
            let at = patch.target(data, i) * 0x18;
            if i < last {
                assert(patch.target(data, i) != target);
                assert(after.symbols.subrange(at, at + 0x18) =~= before.symbols.subrange(
                    at,
                    at + 0x18,
                ));
            } else {
                assert(after.symbols.subrange(at, at + 0x18) =~= patch.symbol(data, i));
            }
        }
        assert forall|t: int|
            0 <= t < symbol_count && #[trigger] is_untouched(
                patch,
                data,
                t,
            ) implies after.symbols.subrange(t * 0x18, t * 0x18 + 0x18) == symbols.subrange(
            t * 0x18,
            t * 0x18 + 0x18,
        ) by {
            assert(target != t);
            assert(after.symbols.subrange(t * 0x18, t * 0x18 + 0x18) =~= before.symbols.subrange(
                t * 0x18,
                t * 0x18 + 0x18,
            ));
        }
    }
}

/// Restoring hidden symbols keeps the sizes of both tables, puts the symbol of every entry of the
/// patch at its index, and leaves every other symbol as it was.
pub proof fn law_hidden_symbols_in_place(
    image: Seq<u8>,
    dynsym: SectionHeader,
    dynstr: SectionHeader,
    patch_data: Seq<u8>,
    i: int,
    t: int,
)
    requires
        spec_restore_hidden_symbols(image, dynsym, dynstr, patch_data) is Ok,
    ensures
        ({
            let patch = SymbolPatch::fields(patch_data);
            let (symbols, strings, _) = spec_restore_hidden_symbols(
                image,
                dynsym,
                dynstr,
                patch_data,
            )->Ok_0;
            let old_symbols = read::spec_slice_u64(image, dynsym.offset, dynsym.size)->Ok_0;
            let at = patch.target(patch_data, i) * 0x18;
            &&& symbols.len() == dynsym.size
            &&& strings.len() == dynstr.size
            &&& 0 <= i < patch.count ==> symbols.subrange(at, at + 0x18) == patch.symbol(
                patch_data,
                i,
            )
            &&& 0 <= t < dynsym.size / 0x18 && is_untouched(patch, patch_data, t)
                ==> symbols.subrange(t * 0x18, t * 0x18 + 0x18) == old_symbols.subrange(
                t * 0x18,
                t * 0x18 + 0x18,
            )
        }),
{
    let patch = SymbolPatch::fields(patch_data);
    let old_symbols = read::spec_slice_u64(image, dynsym.offset, dynsym.size)->Ok_0;
    let old_strings = read::spec_slice_u64(image, dynstr.offset, dynstr.size)->Ok_0;
    lemma_applied(
        patch,
        patch_data,
        old_symbols,
        old_strings,
        (dynsym.size / 0x18) as int,
        patch.count as nat,
    );
    if 0 <= i < patch.count {
        assert(0 < patch.target(patch_data, i));
    }
}

/// The names of the symbols below `n`, looked up in the string table.
pub open spec fn name_step(symbols: Seq<u8>, strings: Seq<u8>) -> spec_fn(
    Seq<Seq<u8>>,
    int,
) -> Result<Seq<Seq<u8>>> {
    |names: Seq<Seq<u8>>, index: int|
        match auxiliary::spec_read_c_string(
            strings,
            bytes::u32_at(symbols, index * 0x18) as int,
            strings.len() as int,
        ) {
            Err(e) => Err(e),
            Ok(name) => Ok(names.push(name)),
        }
}

/// The names of all symbols of a table, or why there are none.
pub open spec fn spec_dynamic_symbol_names(symbols: Seq<u8>, strings: Seq<u8>) -> Result<
    Seq<Seq<u8>>,
> {
    if symbols.len() % 0x18 != 0 {
        Err(error::fault("dynamic symbol table is not entry-aligned"))
    } else {
        fold::try_fold(
            symbols.len() / 0x18,
            Seq::<Seq<u8>>::empty(),
            name_step(symbols, strings),
        )
    }
}

/// The contents of a list of byte strings.
pub open spec fn byte_strings(list: Seq<Vec<u8>>) -> Seq<Seq<u8>> {
    Seq::new(list.len(), |i: int| list[i]@)
}

/// Looks up the names of all symbols of a table.
pub fn dynamic_symbol_names(symbols: &[u8], strings: &[u8]) -> (result: Result<Vec<Vec<u8>>>)
    ensures
        match (result, spec_dynamic_symbol_names(symbols@, strings@)) {
            (Ok(found), Ok(wanted)) => byte_strings(found@) == wanted,
            (Err(found), Err(wanted)) => found == wanted,
            _ => false,
        },
        result matches Ok(found) ==> found@.len() == symbols@.len() / 0x18,
{
    let size: usize = symbols.len();
    if size % 0x18 != 0 {
        return invalid(Fault::Text("dynamic symbol table is not entry-aligned"));
    }
    let count: usize = size / 0x18;
    let ghost step = name_step(symbols@, strings@);
    let ghost none = Seq::<Seq<u8>>::empty();
    let mut names: Vec<Vec<u8>> = Vec::with_capacity(count);
    assert(byte_strings(names@) =~= none);
    let mut index: usize = 0;
    while index < count
        invariant
            index <= count,
            size == symbols@.len(),
            size % 0x18 == 0,
            count == size / 0x18,
            step == name_step(symbols@, strings@),
            none == Seq::<Seq<u8>>::empty(),
            names@.len() == index,
            fold::try_fold(index as nat, none, step) == Ok::<Seq<Seq<u8>>, Error>(
                byte_strings(names@),
            ),
        decreases count - index,
    {
        proof {
            if fold::try_fold((index + 1) as nat, none, step) is Err {
                fold::lemma_failure_stays((index + 1) as nat, count as nat, none, step);
            }
        }
        let offset = load_u32(symbols, index * 0x18) as usize;
        let name = copy_of(read_c_string(strings, offset, strings.len())?);
        let ghost before = names@;
        names.push(name);
        assert(byte_strings(names@) =~= byte_strings(before).push(name@));
        index += 1;
    }
    Ok(names)
}

} // verus!
