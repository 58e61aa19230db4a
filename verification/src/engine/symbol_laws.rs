//! What the parts of an auxiliary image and of a symbol patch are, and what merging makes of them.

use super::auxiliary;
use super::auxiliary::AuxiliaryElfImage;
use super::error::Error;
use super::merge;
use super::sections::SectionIndices;
use super::symbols;
use super::symbols::{HiddenSymbolReport, PatchState, SymbolPatch};
use crate::bytes;
use crate::elf::layout;
use crate::elf::read;
use crate::elf::SectionHeader;
use crate::fold;
use vstd::prelude::*;

verus! {

/// The bytes `from..to` are a string that the first zero byte behind `from` ends, below `limit`.
pub open spec fn is_string(data: Seq<u8>, from: int, to: int, limit: int) -> bool {
    &&& from <= to < limit <= data.len()
    &&& data[to] == 0
    &&& forall|i: int| from <= i < to ==> data[i] != 0
}

/// A string can be read exactly when a zero byte ends it below the limit, and it is what stands in
/// front of that byte.
pub proof fn law_strings_end_at_a_zero(data: Seq<u8>, offset: int, limit: int)
    requires
        0 <= offset,
    ensures
        ({
            let found = auxiliary::spec_read_c_string(data, offset, limit);
            &&& found is Ok <==> exists|to: int| #[trigger] is_string(data, offset, to, limit)
            &&& found matches Ok(string) ==> forall|to: int| #[trigger]
                is_string(data, offset, to, limit) ==> string == data.subrange(offset, to)
        }),
{
    if offset < limit <= data.len() {
        let table = data.take(limit);
        layout::lemma_nul_position(table, offset);
        let end = layout::nul_position(table, offset);
        assert forall|i: int| offset <= i < end implies data[i] != 0 by {
            assert(table[i] != 0);
        }
        if end < limit {
            assert(table[end] == data[end]);
            assert(is_string(data, offset, end, limit));
            assert(table.subrange(offset, end) =~= data.subrange(offset, end));
        }
        assert forall|to: int| #[trigger] is_string(data, offset, to, limit) implies to == end by {
            if to < end {
                assert(data[to] != 0);
            }
            if end < to {
                assert(data[end] != 0);
            }
        }
    }
}

/// Word `k` of a header.
pub open spec fn word(data: Seq<u8>, k: int) -> int {
    bytes::u32_at(data, k * 4) as int
}

/// `here` is the first multiple of 16 from `end` on, and what lies between is zero.
pub open spec fn is_padded(data: Seq<u8>, end: int, here: int) -> bool {
    &&& here % 16 == 0
    &&& end <= here < end + 16
    &&& forall|i: int| end <= i < here ==> data[i] == 0
}

/// The image is laid out as an auxiliary image is: the header of 64 bytes, two tables of
/// relocations with padding behind each, the symbols with an empty one in front, and the strings,
/// which end the image.
#[verifier::opaque]
pub open spec fn is_auxiliary(data: Seq<u8>) -> bool {
    &&& data.len() >= 64
    &&& word(data, 1) == 0 && word(data, 3) == 0 && word(data, 12) == 0 && word(data, 13) == 0
        && word(data, 15) == 0
    &&& word(data, 14) == 183
    &&& word(data, 7) > 0
    &&& word(data, 8) == 64
    &&& is_padded(data, 64 + word(data, 9) * 24, word(data, 10))
    &&& is_padded(data, word(data, 10) + word(data, 11) * 24, word(data, 6))
    &&& word(data, 4) == word(data, 6) + word(data, 7) * 24
    &&& word(data, 4) + word(data, 5) == data.len()
    &&& forall|i: int| word(data, 6) <= i < word(data, 6) + 24 ==> data[i] == 0
}

/// Where the last two tables of an auxiliary image are.
proof fn lemma_last_tables(data: Seq<u8>)
    requires
        is_auxiliary(data),
    ensures
        data.len() >= 64,
        word(data, 7) > 0,
        word(data, 4) == word(data, 6) + word(data, 7) * 24,
        word(data, 4) + word(data, 5) == data.len(),
{
    reveal(is_auxiliary);
}

/// A part of an image is zero when its bytes are.
proof fn lemma_zero_part(data: Seq<u8>, from: int, to: int)
    requires
        0 <= from <= to <= data.len(),
    ensures
        bytes::all_zero(data.subrange(from, to)) <==> forall|i: int|
            from <= i < to ==> data[i] == 0,
{
    let part = data.subrange(from, to);
    if bytes::all_zero(part) {
        assert forall|i: int| from <= i < to implies data[i] == 0 by {
            assert(part[i - from] == 0);
        }
    }
}

/// The first multiple of 16 from `end` on.
proof fn lemma_sixteen(end: int, here: int)
    requires
        0 <= end,
    ensures
        read::aligned(end, 16) == here <==> here % 16 == 0 && end <= here < end + 16,
{
    read::lemma_aligned(end, 16);
}

/// The tables of an auxiliary image follow its header and each other.
pub open spec fn tables_follow(image: AuxiliaryElfImage, data: Seq<u8>) -> bool {
    let end1 = 64 + image.relocation1_count * 24;
    let end2 = image.relocation2_offset + image.relocation2_count * 24;
    let dynsym = image.dynsym_offset as int;
    &&& is_padded(data, end1, image.relocation2_offset as int)
    &&& is_padded(data, end2, dynsym)
    &&& image.dynstr_offset == dynsym + image.dynsym_count * 24
    &&& image.dynstr_offset + image.dynstr_size == data.len()
    &&& forall|i: int| dynsym <= i < dynsym + 24 ==> data[i] == 0
}

/// When the tables of an auxiliary image pass their check.
proof fn lemma_tables(image: AuxiliaryElfImage, data: Seq<u8>)
    requires
        image.dynsym_count > 0,
        image.relocation1_offset == 64,
    ensures
        image.spec_check(data) is Ok <==> tables_follow(image, data),
{
    let end1 = 64 + image.relocation1_count * 24;
    let end2 = image.relocation2_offset + image.relocation2_count * 24;
    let dynsym = image.dynsym_offset as int;
    lemma_sixteen(end1, image.relocation2_offset as int);
    lemma_sixteen(end2, dynsym);
    assert(image.relocation1_end() == end1);
    assert(image.relocation2_end() == end2);
    if image.is_contiguous(data.len() as int) {
        lemma_zero_part(data, end1, image.relocation2_offset as int);
        lemma_zero_part(data, end2, dynsym);
        lemma_zero_part(data, dynsym, dynsym + 24);
    }
}

/// An auxiliary image is accepted exactly when it is laid out as one, and its tables are where its
/// header says.
pub proof fn law_auxiliary_images(data: Seq<u8>)
    requires
        data.len() <= usize::MAX,
    ensures
        AuxiliaryElfImage::spec_parse(data) is Ok <==> is_auxiliary(data),
        AuxiliaryElfImage::spec_parse(data) matches Ok(image) ==> {
            &&& image.dynstr_offset == word(data, 4)
            &&& image.dynstr_size == word(data, 5)
            &&& image.dynsym_offset == word(data, 6)
            &&& image.dynsym_count == word(data, 7)
            &&& image.relocation1_offset == word(data, 8)
            &&& image.relocation1_count == word(data, 9)
            &&& image.relocation2_offset == word(data, 10)
            &&& image.relocation2_count == word(data, 11)
        },
{
    let image = AuxiliaryElfImage::fields(data);
    let header = AuxiliaryElfImage::spec_parse_header(data);
    assert(image.dynstr_offset == word(data, 4) && image.dynstr_size == word(data, 5)
        && image.dynsym_offset == word(data, 6) && image.dynsym_count == word(data, 7)
        && image.relocation1_offset == word(data, 8) && image.relocation1_count == word(data, 9)
        && image.relocation2_offset == word(data, 10) && image.relocation2_count == word(
        data,
        11,
    ));
    let has_header = {
        &&& data.len() >= 64
        &&& word(data, 1) == 0 && word(data, 3) == 0 && word(data, 12) == 0 && word(data, 13) == 0
            && word(data, 15) == 0
        &&& word(data, 14) == 183
        &&& word(data, 7) > 0
        &&& word(data, 8) == 64
    };
    assert(header is Ok <==> has_header);
    assert(is_auxiliary(data) <==> has_header && tables_follow(image, data)) by {
        reveal(is_auxiliary);
    }
    if header is Ok {
        assert(header == Ok::<AuxiliaryElfImage, Error>(image));
        lemma_tables(image, data);
    }
}

/// Where the symbol of entry `k` of a patch stands.
pub open spec fn entry_at(data: Seq<u8>, k: int) -> int {
    8 + word(data, 3) + k * 24
}

/// Which symbol entry `k` of a patch restores.
pub open spec fn target_of(data: Seq<u8>, k: int) -> int {
    bytes::u32_at(data, 8 + word(data, 4) + k * 4) as int
}

/// A patch can be used exactly when its primary part, of which its first word gives the size, lies
/// within the data behind the first two words, and its tables lie within that part.
pub proof fn law_patch_header(data: Seq<u8>)
    requires
        data.len() <= usize::MAX,
    ensures
        SymbolPatch::spec_parse(data) is Ok <==> {
            &&& data.len() >= 24
            &&& 8 + word(data, 0) <= data.len()
            &&& word(data, 3) + word(data, 2) * 24 <= word(data, 0)
            &&& word(data, 4) + word(data, 2) * 4 <= word(data, 0)
            &&& word(data, 5) < word(data, 0)
        },
        SymbolPatch::spec_parse(data) matches Ok(patch) ==> {
            &&& patch.blob_size == word(data, 0)
            &&& patch.secondary_record_count == word(data, 1)
            &&& patch.count == word(data, 2)
            &&& patch.symbol_offset == word(data, 3)
            &&& patch.index_offset == word(data, 4)
            &&& patch.string_offset == word(data, 5)
        },
{
}

/// The name of the string that stands at `at` is empty or is the bytes `from..to` of the patch.
pub open spec fn takes_name(strings: Seq<u8>, at: int, data: Seq<u8>, from: int, to: int) -> bool {
    exists|end: int| #[trigger]
        is_string(strings, at, end, strings.len() as int) && (end == at || strings.subrange(at, end)
            == data.subrange(from, to))
}

/// Entry `k` of a patch can be applied where the next name starts at `state.cursor`: its target is
/// a symbol other than the first one that no entry before it restores, its name ends within the
/// patch, and the string table has room for the name and nothing else in its place.
pub open spec fn can_apply(data: Seq<u8>, symbol_count: int, state: PatchState, k: int) -> bool {
    let at = bytes::u32_at(data, entry_at(data, k)) as int;
    &&& 0 < target_of(data, k) < symbol_count
    &&& forall|j: int| 0 <= j < k ==> #[trigger] target_of(data, j) != target_of(data, k)
    &&& exists|to: int| #[trigger]
        is_string(data, state.cursor, to, 8 + word(data, 0)) && at + (to - state.cursor) + 1
            <= state.strings.len() && takes_name(state.strings, at, data, state.cursor, to)
}

/// What applying an entry does: the symbol goes to the place of its target, the name goes where the
/// symbol says unless it is there, and the next name starts behind this one.
pub proof fn law_entry_is_applied(
    data: Seq<u8>,
    symbol_count: int,
    state: PatchState,
    k: int,
    to: int,
    i: int,
)
    requires
        data.len() <= usize::MAX,
        SymbolPatch::spec_parse(data) is Ok,
        0 <= k < word(data, 2),
        0 <= state.cursor,
        state.symbols.len() == symbol_count * 24,
    ensures
        ({
            let patch = SymbolPatch::spec_parse(data)->Ok_0;
            let applied = (patch.apply(data, symbol_count))(state, k);
            let at = bytes::u32_at(data, entry_at(data, k)) as int;
            let place = target_of(data, k) * 24;
            let is_new = state.strings[at] == 0;
            &&& applied is Ok <==> can_apply(data, symbol_count, state, k)
            &&& is_string(data, state.cursor, to, 8 + word(data, 0)) ==> (applied matches Ok(after) ==> {
                &&& after.cursor == to + 1
                &&& after.copied == state.copied + if is_new {
                    1int
                } else {
                    0
                }
                &&& after.symbols.len() == state.symbols.len()
                &&& after.strings.len() == state.strings.len()
                &&& 0 <= i < state.symbols.len() ==> after.symbols[i] == if place <= i < place
                    + 24 {
                    data[entry_at(data, k) + (i - place)]
                } else {
                    state.symbols[i]
                }
                &&& 0 <= i < state.strings.len() ==> after.strings[i] == if is_new && at <= i
                    <= at + (to - state.cursor) {
                    data[state.cursor + (i - at)]
                } else {
                    state.strings[i]
                }
            })
        }),
{
    let patch = SymbolPatch::spec_parse(data)->Ok_0;
    let applied = (patch.apply(data, symbol_count))(state, k);
    let symbol = patch.symbol(data, k);
    let from = entry_at(data, k);
    assert(symbol == data.subrange(from, from + 24));
    let at = bytes::u32_at(data, from) as int;
    assert(bytes::u32_at(symbol, 0) == at);
    let limit = 8 + word(data, 0);
    let size = state.strings.len() as int;
    law_strings_end_at_a_zero(data, state.cursor, limit);
    law_strings_end_at_a_zero(state.strings, at, size);
    assert(patch.is_repeated(data, k) <==> !(forall|j: int|
        0 <= j < k ==> #[trigger] target_of(data, j) != target_of(data, k))) by {
        if patch.is_repeated(data, k) {
            let j = choose|j: int|
                0 <= j < k && #[trigger] patch.target(data, j) == patch.target(data, k);
            assert(target_of(data, j) == target_of(data, k));
        }
        if exists|j: int| 0 <= j < k && #[trigger] target_of(data, j) == target_of(data, k) {
            let j = choose|j: int|
                0 <= j < k && #[trigger] target_of(data, j) == target_of(data, k);
            assert(patch.target(data, j) == patch.target(data, k));
        }
    }
    if exists|e: int| #[trigger] is_string(data, state.cursor, e, limit) {
        let e = choose|e: int| #[trigger] is_string(data, state.cursor, e, limit);
        let name = data.subrange(state.cursor, e);
        assert(auxiliary::spec_read_c_string(data, state.cursor, limit) == Ok::<Seq<u8>, Error>(
            name,
        ));
        assert forall|other: int| #[trigger] is_string(data, state.cursor, other, limit) implies other
            == e by {
            if other < e {
                assert(data[other] != 0);
            }
            if e < other {
                assert(data[e] != 0);
            }
        }
        if exists|x: int| #[trigger] is_string(state.strings, at, x, size) {
            let x = choose|x: int| #[trigger] is_string(state.strings, at, x, size);
            let existing = state.strings.subrange(at, x);
            assert forall|other: int| #[trigger] is_string(
                state.strings,
                at,
                other,
                size,
            ) implies other == x by {
                if other < x {
                    assert(state.strings[other] != 0);
                }
                if x < other {
                    assert(state.strings[x] != 0);
                }
            }
            assert(existing.len() == 0 <==> state.strings[at] == 0);
            assert(takes_name(state.strings, at, data, state.cursor, e) <==> (x == at || existing
                == name));
        }
    }
}

/// The tables before the first entry is applied: both as they were, with the first name of the
/// patch next.
pub proof fn law_patching_starts_fresh(data: Seq<u8>, symbols: Seq<u8>, strings: Seq<u8>)
    requires
        data.len() <= usize::MAX,
        SymbolPatch::spec_parse(data) is Ok,
    ensures
        ({
            let state = SymbolPatch::spec_parse(data)->Ok_0.start(symbols, strings);
            &&& state.symbols == symbols
            &&& state.strings == strings
            &&& state.cursor == 8 + word(data, 5)
            &&& state.copied == 0
        }),
{
}

/// The state after the entries of a patch have been applied one after the other.
pub open spec fn patched(
    data: Seq<u8>,
    symbols: Seq<u8>,
    strings: Seq<u8>,
    symbol_count: int,
) -> super::error::Result<PatchState> {
    let patch = SymbolPatch::spec_parse(data)->Ok_0;
    fold::try_fold(
        word(data, 2) as nat,
        patch.start(symbols, strings),
        patch.apply(data, symbol_count),
    )
}

/// Hidden symbols are restored exactly when the tables of the image and the patch can be used, the
/// patch has an entry, all of its entries can be applied, and at most three zero bytes follow the
/// last name.
pub proof fn law_hidden_symbols_are_restored(
    image: Seq<u8>,
    dynsym: SectionHeader,
    dynstr: SectionHeader,
    data: Seq<u8>,
    k: int,
)
    requires
        image.len() <= usize::MAX,
        data.len() <= usize::MAX,
    ensures
        ({
            let restored = symbols::spec_restore_hidden_symbols(image, dynsym, dynstr, data);
            let count = (dynsym.size / 24) as int;
            let symbols = image.subrange(
                dynsym.offset as int,
                dynsym.offset + dynsym.size,
            );
            let strings = image.subrange(dynstr.offset as int, dynstr.offset + dynstr.size);
            let end = 8 + word(data, 0);
            let state = patched(data, symbols, strings, count);
            &&& restored is Ok <==> {
                &&& dynsym.entry_size == 24
                &&& dynsym.size % 24 == 0
                &&& dynsym.offset + dynsym.size <= image.len()
                &&& dynstr.offset + dynstr.size <= image.len()
                &&& SymbolPatch::spec_parse(data) is Ok
                &&& word(data, 2) > 0
                &&& state is Ok
                &&& end - state->Ok_0.cursor <= 3
                &&& forall|i: int| state->Ok_0.cursor <= i < end ==> data[i] == 0
            }
            &&& restored matches Ok((new_symbols, new_strings, report)) ==> {
                &&& new_symbols == state->Ok_0.symbols
                &&& new_strings == state->Ok_0.strings
                &&& report.patch_blob_size == word(data, 0)
                &&& report.secondary_record_count == word(data, 1)
                &&& report.patched_symbols == word(data, 2)
                &&& report.copied_strings == state->Ok_0.copied
                &&& 0 <= k < word(data, 2) ==> report.first_target_index <= target_of(data, k)
                    <= report.last_target_index
                &&& exists|j: int|
                    0 <= j < word(data, 2) && report.first_target_index == #[trigger] target_of(
                        data,
                        j,
                    )
                &&& exists|j: int|
                    0 <= j < word(data, 2) && report.last_target_index == #[trigger] target_of(
                        data,
                        j,
                    )
            }
        }),
{
    let restored = symbols::spec_restore_hidden_symbols(image, dynsym, dynstr, data);
    let count = (dynsym.size / 24) as int;
    let old_symbols = image.subrange(dynsym.offset as int, dynsym.offset + dynsym.size);
    let old_strings = image.subrange(dynstr.offset as int, dynstr.offset + dynstr.size);
    if SymbolPatch::spec_parse(data) is Ok {
        let patch = SymbolPatch::spec_parse(data)->Ok_0;
        let n = patch.count as nat;
        let state = patched(data, old_symbols, old_strings, count);
        let targets = |index: int| patch.target(data, index) as int;
        if state is Ok {
            lemma_cursor(data, old_symbols, old_strings, count, n);
            lemma_zero_part(data, state->Ok_0.cursor, patch.end());
        }
        if n > 0 {
            fold::lemma_largest(n, targets);
            lemma_smallest(n, targets);
            let a = choose|j: int| 0 <= j < n && #[trigger] targets(j) == fold::largest(n, targets);
            let b = choose|j: int| 0 <= j < n && #[trigger] targets(j) == fold::smallest(
                n,
                targets,
            );
            assert(target_of(data, a) == targets(a));
            assert(target_of(data, b) == targets(b));
            if 0 <= k < n {
                assert(targets(k) == target_of(data, k));
            }
        }
    }
}

/// Names end within the patch and are counted.
proof fn lemma_cursor(
    data: Seq<u8>,
    symbols: Seq<u8>,
    strings: Seq<u8>,
    symbol_count: int,
    n: nat,
)
    requires
        data.len() <= usize::MAX,
        SymbolPatch::spec_parse(data) is Ok,
        n <= word(data, 2),
        fold::try_fold(
            n,
            SymbolPatch::spec_parse(data)->Ok_0.start(symbols, strings),
            SymbolPatch::spec_parse(data)->Ok_0.apply(data, symbol_count),
        ) is Ok,
    ensures
        ({
            let patch = SymbolPatch::spec_parse(data)->Ok_0;
            let state = fold::try_fold(
                n,
                patch.start(symbols, strings),
                patch.apply(data, symbol_count),
            )->Ok_0;
            &&& 0 <= state.cursor <= 8 + word(data, 0)
            &&& 0 <= state.copied <= n
        }),
    decreases n,
{
    if n > 0 {
        lemma_cursor(data, symbols, strings, symbol_count, (n - 1) as nat);
        let patch = SymbolPatch::spec_parse(data)->Ok_0;
        let before = fold::try_fold(
            (n - 1) as nat,
            patch.start(symbols, strings),
            patch.apply(data, symbol_count),
        )->Ok_0;
        law_strings_end_at_a_zero(data, before.cursor, patch.end());
    }
}

/// `smallest` is a lower bound that is attained.
proof fn lemma_smallest(n: nat, f: spec_fn(int) -> int)
    ensures
        forall|i: int| 0 <= i < n ==> #[trigger] f(i) >= fold::smallest(n, f),
        n > 0 ==> exists|i: int| 0 <= i < n && #[trigger] f(i) == fold::smallest(n, f),
    decreases n,
{
    if n > 0 {
        lemma_smallest((n - 1) as nat, f);
        assert(f(n - 1) >= fold::smallest(n, f));
    }
}

/// Where symbol `i` of an auxiliary image stands.
pub open spec fn auxiliary_place(data: Seq<u8>, i: int) -> int {
    word(data, 6) + i * 24
}

/// The strings of an auxiliary image.
pub open spec fn strings_of(data: Seq<u8>) -> Seq<u8> {
    data.subrange(word(data, 4), word(data, 4) + word(data, 5))
}

/// Symbol `i` of an auxiliary image can be appended behind `old_size` bytes of strings: its name is
/// one of the strings, it is undefined, and the place of its name fits in 32 bits.
#[verifier::opaque]
pub open spec fn can_append(data: Seq<u8>, old_size: int, i: int) -> bool {
    let at = auxiliary_place(data, i);
    &&& exists|to: int| #[trigger]
        is_string(strings_of(data), bytes::u32_at(data, at) as int, to, word(data, 5))
    &&& data[at + 6] == 0
    &&& data[at + 7] == 0
    &&& old_size + bytes::u32_at(data, at) <= u32::MAX
}

/// Where the name of symbol `k` of a table starts among the strings.
pub open spec fn name_at(symbols: Seq<u8>, k: int) -> int {
    bytes::u32_at(symbols, k * 24) as int
}

/// Symbol `k` of a table has a name among the strings.
#[verifier::opaque]
pub open spec fn has_name(symbols: Seq<u8>, strings: Seq<u8>, k: int) -> bool {
    exists|to: int| #[trigger]
        is_string(strings, name_at(symbols, k), to, strings.len() as int)
}

/// What appending one symbol makes of it.
proof fn lemma_one_appended(data: Seq<u8>, old_size: int, i: int)
    requires
        data.len() <= usize::MAX,
        is_auxiliary(data),
        0 <= old_size <= usize::MAX,
        0 <= i < word(data, 7),
    ensures
        ({
            let auxiliary = AuxiliaryElfImage::fields(data);
            let appended = merge::appended_symbol(data, auxiliary, old_size, i);
            let at = auxiliary_place(data, i);
            &&& appended is Ok <==> can_append(data, old_size, i)
            &&& appended matches Ok(symbol) ==> {
                &&& symbol.len() == 24
                &&& bytes::u32_at(symbol, 0) == old_size + bytes::u32_at(data, at)
                &&& forall|b: int| 4 <= b < 24 ==> symbol[b] == #[trigger] data[at + b]
            }
        }),
{
    broadcast use bytes::group_bytes_len;

    reveal(can_append);
    lemma_last_tables(data);
    let auxiliary = AuxiliaryElfImage::fields(data);
    let at = auxiliary_place(data, i);
    let symbol = merge::auxiliary_symbol(data, auxiliary, i);
    assert(symbol == data.subrange(at, at + 24));
    let name = bytes::u32_at(data, at);
    assert(bytes::u32_at(symbol, 0) == name);
    assert(symbol[6] == data[at + 6] && symbol[7] == data[at + 7]);
    assert(merge::auxiliary_strings(data, auxiliary) =~= strings_of(data));
    law_strings_end_at_a_zero(strings_of(data), name as int, word(data, 5));
    let appended = merge::appended_symbol(data, auxiliary, old_size, i);
    if let Ok(moved) = appended {
        assert(moved.subrange(0, 4) =~= bytes::u32_bytes((old_size + name) as u32));
        bytes::lemma_u32_spelled(moved, 0, (old_size + name) as u32);
        assert forall|b: int| 4 <= b < 24 implies moved[b] == #[trigger] data[at + b] by {
            assert(moved[b] == symbol.skip(4)[b - 4]);
        }
    }
}

/// The symbols after `n` have been appended.
proof fn lemma_all_appended(data: Seq<u8>, old_symbols: Seq<u8>, old_size: int, n: nat)
    requires
        data.len() <= usize::MAX,
        is_auxiliary(data),
        0 <= old_size <= usize::MAX,
        n < word(data, 7),
    ensures
        ({
            let run = fold::try_fold(
                n,
                old_symbols,
                merge::append_step(data, AuxiliaryElfImage::fields(data), old_size),
            );
            &&& run is Ok <==> forall|i: int|
                1 <= i <= n ==> #[trigger] can_append(data, old_size, i)
            &&& run matches Ok(symbols) ==> {
                &&& symbols.len() == old_symbols.len() + n * 24
                &&& forall|b: int| 0 <= b < old_symbols.len() ==> symbols[b] == old_symbols[b]
                &&& forall|i: int|
                    1 <= i <= n ==> #[trigger] is_appended(
                        data,
                        old_size,
                        i,
                        symbols,
                        old_symbols.len() as int,
                    )
            }
        }),
    decreases n,
{
    reveal(is_appended);
    let step = merge::append_step(data, AuxiliaryElfImage::fields(data), old_size);
    let run = fold::try_fold(n, old_symbols, step);
    if n > 0 {
        let m = (n - 1) as nat;
        lemma_all_appended(data, old_symbols, old_size, m);
        lemma_one_appended(data, old_size, n as int);
        let before = fold::try_fold(m, old_symbols, step);
        let appended = merge::appended_symbol(
            data,
            AuxiliaryElfImage::fields(data),
            old_size,
            n as int,
        );
        if before is Ok {
            assert(run is Ok <==> appended is Ok);
        }
        if run is Ok {
            let (a, b) = (before->Ok_0, run->Ok_0);
            assert(b == a + appended->Ok_0);
            assert forall|i: int| 1 <= i <= n implies #[trigger] is_appended(
                data,
                old_size,
                i,
                b,
                old_symbols.len() as int,
            ) by {
                let p = old_symbols.len() + (i - 1) * 24;
                if i < n {
                    assert(is_appended(data, old_size, i, a, old_symbols.len() as int));
                } else {
                    let record = appended->Ok_0;
                    assert forall|x: int| 0 <= x < 24 implies b[p + x] == #[trigger] record[x] by {
                    }
                    assert(b[p] == record[0] && b[p + 1] == record[1] && b[p + 2] == record[2]
                        && b[p + 3] == record[3]);
                    assert forall|x: int| 4 <= x < 24 implies b[p + x] == #[trigger] data[
                        auxiliary_place(data, i) + x] by {
                        assert(b[p + x] == record[x]);
                    }
                }
            }
        }
    }
}

/// Symbol `i` of an auxiliary image stands among the symbols appended from `start` on, its name
/// moved behind `old_size` bytes of strings.
#[verifier::opaque]
pub open spec fn is_appended(
    data: Seq<u8>,
    old_size: int,
    i: int,
    symbols: Seq<u8>,
    start: int,
) -> bool {
    let at = start + (i - 1) * 24;
    &&& bytes::u32_at(symbols, at) == old_size + bytes::u32_at(data, auxiliary_place(data, i))
    &&& forall|b: int|
        4 <= b < 24 ==> symbols[at + b] == #[trigger] data[auxiliary_place(data, i) + b]
}

/// Entry `k` of version entries from `start` on is that of an unversioned global symbol.
pub open spec fn is_global(versions: Seq<u8>, start: int, k: int) -> bool {
    versions[start + k * 2] == 1 && versions[start + k * 2 + 1] == 0
}

/// Version entries are those of unversioned global symbols.
proof fn lemma_versions(count: nat)
    ensures
        merge::global_versions(count).len() == count * 2,
        forall|k: int|
            0 <= k < count ==> #[trigger] is_global(merge::global_versions(count), 0, k),
    decreases count,
{
    reveal(bytes::u16_bytes);
    if count > 0 {
        lemma_versions((count - 1) as nat);
        let before = merge::global_versions((count - 1) as nat);
        let after = merge::global_versions(count);
        assert forall|k: int| 0 <= k < count implies #[trigger] is_global(after, 0, k) by {
            if k < count - 1 {
                assert(is_global(before, 0, k));
            }
        }
    }
}

/// Which names can be looked up.
proof fn lemma_symbol_names(symbols: Seq<u8>, strings: Seq<u8>, n: nat)
    ensures
        ({
            let run = fold::try_fold(
                n,
                Seq::<Seq<u8>>::empty(),
                symbols::name_step(symbols, strings),
            );
            let size = strings.len() as int;
            &&& run is Ok <==> forall|k: int| 0 <= k < n ==> #[trigger] has_name(symbols, strings, k)
            &&& run matches Ok(names) ==> {
                &&& names.len() == n
                &&& forall|k: int, to: int|
                    #![trigger names[k], is_string(strings, name_at(symbols, k), to, size)]
                    0 <= k < n && is_string(strings, name_at(symbols, k), to, size) ==> names[k]
                        == strings.subrange(name_at(symbols, k), to)
            }
        }),
    decreases n,
{
    reveal(has_name);
    if n > 0 {
        let m = n - 1;
        let size = strings.len() as int;
        lemma_symbol_names(symbols, strings, m as nat);
        law_strings_end_at_a_zero(strings, name_at(symbols, m), size);
        let step = symbols::name_step(symbols, strings);
        let before = fold::try_fold(m as nat, Seq::<Seq<u8>>::empty(), step);
        let run = fold::try_fold(n, Seq::<Seq<u8>>::empty(), step);
        if before is Ok {
            assert(run is Ok <==> has_name(symbols, strings, m));
        }
        if run is Ok {
            let (a, b) = (before->Ok_0, run->Ok_0);
            assert(b == a.push(b[m]));
            assert forall|k: int, to: int|
                #![trigger b[k], is_string(strings, name_at(symbols, k), to, size)]
                0 <= k < n && is_string(strings, name_at(symbols, k), to, size) implies b[k]
                == strings.subrange(name_at(symbols, k), to) by {
                if k < m {
                    assert(b[k] == a[k]);
                }
            }
        }
    }
}

/// The names of symbols can be looked up exactly when the symbols are whole records and each has a
/// name, and the name of a symbol is the string that its first word points to.
pub proof fn law_symbols_have_names(symbols: Seq<u8>, strings: Seq<u8>, k: int, to: int)
    ensures
        ({
            let found = symbols::spec_dynamic_symbol_names(symbols, strings);
            let at = name_at(symbols, k);
            &&& found is Ok <==> symbols.len() % 24 == 0 && forall|j: int|
                0 <= j < symbols.len() / 24 ==> #[trigger] has_name(symbols, strings, j)
            &&& found matches Ok(names) ==> {
                &&& names.len() == symbols.len() / 24
                &&& 0 <= k < names.len() && is_string(strings, at, to, strings.len() as int)
                    ==> names[k] == strings.subrange(at, to)
            }
        }),
{
    lemma_symbol_names(symbols, strings, symbols.len() / 24);
}

/// An appended symbol has a name.
proof fn lemma_appended_name(
    data: Seq<u8>,
    old_symbols: Seq<u8>,
    old_strings: Seq<u8>,
    symbols: Seq<u8>,
    i: int,
)
    requires
        old_symbols.len() % 24 == 0,
        word(data, 4) + word(data, 5) == data.len(),
        can_append(data, old_strings.len() as int, i),
        is_appended(data, old_strings.len() as int, i, symbols, old_symbols.len() as int),
    ensures
        has_name(symbols, old_strings + strings_of(data), old_symbols.len() / 24 + i - 1),
{
    reveal(can_append);
    reveal(has_name);
    reveal(is_appended);
    let strings = old_strings + strings_of(data);
    let old_size = old_strings.len() as int;
    let j = old_symbols.len() / 24 + i - 1;
    assert(old_symbols.len() + (i - 1) * 24 == j * 24);
    let name = bytes::u32_at(data, auxiliary_place(data, i)) as int;
    assert(name_at(symbols, j) == old_size + name);
    let to = choose|to: int| #[trigger] is_string(strings_of(data), name, to, word(data, 5));
    assert forall|x: int| old_size + name <= x < old_size + to implies strings[x] != 0 by {
        assert(strings_of(data)[x - old_size] != 0);
    }
    assert(strings[old_size + to] == strings_of(data)[to]);
    assert(is_string(strings, old_size + name, old_size + to, strings.len() as int));
}

/// Merged symbols have names where the old ones have.
proof fn lemma_merged_names(
    data: Seq<u8>,
    old_symbols: Seq<u8>,
    old_strings: Seq<u8>,
    symbols: Seq<u8>,
)
    requires
        old_symbols.len() % 24 == 0,
        word(data, 7) > 0,
        word(data, 4) + word(data, 5) == data.len(),
        symbols.len() == old_symbols.len() + (word(data, 7) - 1) * 24,
        forall|b: int| 0 <= b < old_symbols.len() ==> symbols[b] == old_symbols[b],
        forall|i: int|
            1 <= i < word(data, 7) ==> #[trigger] can_append(data, old_strings.len() as int, i),
        forall|i: int|
            1 <= i < word(data, 7) ==> #[trigger] is_appended(
                data,
                old_strings.len() as int,
                i,
                symbols,
                old_symbols.len() as int,
            ),
    ensures
        ({
            let strings = old_strings + strings_of(data);
            (forall|j: int| 0 <= j < symbols.len() / 24 ==> #[trigger] has_name(symbols, strings, j))
                <==> forall|j: int|
                0 <= j < old_symbols.len() / 24 ==> #[trigger] has_name(old_symbols, strings, j)
        }),
{
    reveal(has_name);
    let strings = old_strings + strings_of(data);
    let old = (old_symbols.len() / 24) as int;
    let count = word(data, 7);
    assert(symbols.len() / 24 == old + count - 1);
    assert forall|j: int| 0 <= j < old implies #[trigger] has_name(symbols, strings, j) == has_name(
        old_symbols,
        strings,
        j,
    ) by {
        assert(name_at(symbols, j) == name_at(old_symbols, j));
    }
    assert forall|j: int| old <= j < symbols.len() / 24 implies #[trigger] has_name(
        symbols,
        strings,
        j,
    ) by {
        let i = j - old + 1;
        assert(can_append(data, old_strings.len() as int, i));
        assert(is_appended(data, old_strings.len() as int, i, symbols, old_symbols.len() as int));
        lemma_appended_name(data, old_symbols, old_strings, symbols, i);
    }
    if forall|j: int| 0 <= j < symbols.len() / 24 ==> #[trigger] has_name(symbols, strings, j) {
        assert forall|j: int| 0 <= j < old implies #[trigger] has_name(old_symbols, strings, j) by {
            assert(has_name(symbols, strings, j));
        }
    }
}

/// What a merge comes to.
proof fn lemma_merge_shape(
    indices: SectionIndices,
    old_symbols: Seq<u8>,
    old_strings: Seq<u8>,
    hidden_symbols: HiddenSymbolReport,
    old_versions: Seq<u8>,
    version_requirements: Seq<u8>,
    data: Seq<u8>,
    auxiliary: AuxiliaryElfImage,
)
    requires
        AuxiliaryElfImage::spec_parse(data) == Ok::<AuxiliaryElfImage, Error>(auxiliary),
    ensures
        ({
            let run = fold::try_fold(
                (auxiliary.dynsym_count - 1) as nat,
                old_symbols,
                merge::append_step(data, auxiliary, old_strings.len() as int),
            );
            merge::spec_merge_auxiliary(
                indices,
                old_symbols,
                old_strings,
                hidden_symbols,
                old_versions,
                version_requirements,
                data,
            ) is Ok <==> run is Ok && symbols::spec_dynamic_symbol_names(
                run->Ok_0,
                old_strings + merge::auxiliary_strings(data, auxiliary),
            ) is Ok
        }),
{
}

/// Symbols of an image can be merged with those of an auxiliary image: each of the auxiliary
/// image's but the first can be appended, the image's are whole records, and each has a name.
#[verifier::opaque]
pub open spec fn can_merge(old_symbols: Seq<u8>, old_strings: Seq<u8>, data: Seq<u8>) -> bool {
    &&& forall|j: int|
        1 <= j < word(data, 7) ==> #[trigger] can_append(data, old_strings.len() as int, j)
    &&& old_symbols.len() % 24 == 0
    &&& forall|j: int|
        0 <= j < old_symbols.len() / 24 ==> #[trigger] has_name(
            old_symbols,
            old_strings + strings_of(data),
            j,
        )
}

/// Merged symbols have names exactly when they can be merged.
proof fn lemma_names_after_merge(old_symbols: Seq<u8>, old_strings: Seq<u8>, data: Seq<u8>)
    requires
        data.len() <= usize::MAX,
        old_strings.len() <= usize::MAX,
        is_auxiliary(data),
    ensures
        ({
            let run = fold::try_fold(
                (word(data, 7) - 1) as nat,
                old_symbols,
                merge::append_step(
                    data,
                    AuxiliaryElfImage::fields(data),
                    old_strings.len() as int,
                ),
            );
            can_merge(old_symbols, old_strings, data) <==> run is Ok
                && symbols::spec_dynamic_symbol_names(
                run->Ok_0,
                old_strings + strings_of(data),
            ) is Ok
        }),
{
    reveal(can_merge);
    lemma_last_tables(data);
    let appended = (word(data, 7) - 1) as nat;
    let old_size = old_strings.len() as int;
    lemma_all_appended(data, old_symbols, old_size, appended);
    let run = fold::try_fold(
        appended,
        old_symbols,
        merge::append_step(data, AuxiliaryElfImage::fields(data), old_size),
    );
    if run is Ok {
        let symbols = run->Ok_0;
        law_symbols_have_names(symbols, old_strings + strings_of(data), 0, 0);
        assert(symbols.len() % 24 == old_symbols.len() % 24);
        if old_symbols.len() % 24 == 0 {
            lemma_merged_names(data, old_symbols, old_strings, symbols);
        }
    }
}

/// What an auxiliary image is read as.
proof fn lemma_auxiliary_fields(data: Seq<u8>)
    requires
        data.len() <= usize::MAX,
        is_auxiliary(data),
    ensures
        AuxiliaryElfImage::spec_parse(data) == Ok::<AuxiliaryElfImage, Error>(
            AuxiliaryElfImage::fields(data),
        ),
        AuxiliaryElfImage::fields(data).dynsym_count == word(data, 7),
        merge::auxiliary_strings(data, AuxiliaryElfImage::fields(data)) == strings_of(data),
{
    law_auxiliary_images(data);
    lemma_last_tables(data);
    assert(merge::auxiliary_strings(data, AuxiliaryElfImage::fields(data)) =~= strings_of(data));
}

/// A merge whose auxiliary image is none fails.
proof fn lemma_merge_needs_auxiliary(
    indices: SectionIndices,
    old_symbols: Seq<u8>,
    old_strings: Seq<u8>,
    hidden_symbols: HiddenSymbolReport,
    old_versions: Seq<u8>,
    version_requirements: Seq<u8>,
    data: Seq<u8>,
)
    requires
        AuxiliaryElfImage::spec_parse(data) is Err,
    ensures
        merge::spec_merge_auxiliary(
            indices,
            old_symbols,
            old_strings,
            hidden_symbols,
            old_versions,
            version_requirements,
            data,
        ) is Err,
{
}

/// Tables are merged exactly when the auxiliary image is one, each of its symbols but the first can
/// be appended, and every symbol of the image has a name.
pub proof fn law_symbols_are_merged(
    indices: SectionIndices,
    old_symbols: Seq<u8>,
    old_strings: Seq<u8>,
    hidden_symbols: HiddenSymbolReport,
    old_versions: Seq<u8>,
    version_requirements: Seq<u8>,
    data: Seq<u8>,
)
    requires
        data.len() <= usize::MAX,
        old_strings.len() <= usize::MAX,
    ensures
        merge::spec_merge_auxiliary(
            indices,
            old_symbols,
            old_strings,
            hidden_symbols,
            old_versions,
            version_requirements,
            data,
        ) is Ok <==> is_auxiliary(data) && can_merge(old_symbols, old_strings, data),
{
    law_auxiliary_images(data);
    if is_auxiliary(data) {
        lemma_auxiliary_fields(data);
        lemma_merge_shape(
            indices,
            old_symbols,
            old_strings,
            hidden_symbols,
            old_versions,
            version_requirements,
            data,
            AuxiliaryElfImage::fields(data),
        );
        lemma_names_after_merge(old_symbols, old_strings, data);
    } else {
        lemma_merge_needs_auxiliary(
            indices,
            old_symbols,
            old_strings,
            hidden_symbols,
            old_versions,
            version_requirements,
            data,
        );
    }
}

/// Merged tables hold those of the image in front, and behind them one symbol, one version entry of
/// an unversioned global symbol and all strings of the auxiliary image.
pub proof fn law_merged_tables(
    indices: SectionIndices,
    old_symbols: Seq<u8>,
    old_strings: Seq<u8>,
    hidden_symbols: HiddenSymbolReport,
    old_versions: Seq<u8>,
    version_requirements: Seq<u8>,
    data: Seq<u8>,
    i: int,
)
    requires
        data.len() <= usize::MAX,
        old_strings.len() <= usize::MAX,
        old_symbols.len() <= usize::MAX,
        merge::spec_merge_auxiliary(
            indices,
            old_symbols,
            old_strings,
            hidden_symbols,
            old_versions,
            version_requirements,
            data,
        ) is Ok,
    ensures
        ({
            let model = merge::spec_merge_auxiliary(
                indices,
                old_symbols,
                old_strings,
                hidden_symbols,
                old_versions,
                version_requirements,
                data,
            )->Ok_0;
            let old_size = old_strings.len() as int;
            &&& model.indices == indices
            &&& model.hidden_symbols == hidden_symbols
            &&& model.version_requirements == version_requirements
            &&& model.old_symbol_count == old_symbols.len() / 24
            &&& model.old_dynstr_size == old_size
            &&& model.auxiliary == AuxiliaryElfImage::spec_parse(data)->Ok_0
            &&& model.strings == old_strings + strings_of(data)
            &&& model.symbols.len() == old_symbols.len() + (word(data, 7) - 1) * 24
            &&& 0 <= i < old_symbols.len() ==> model.symbols[i] == old_symbols[i]
            &&& 1 <= i < word(data, 7) ==> is_appended(
                data,
                old_size,
                i,
                model.symbols,
                old_symbols.len() as int,
            )
            &&& model.versions.len() == old_versions.len() + (word(data, 7) - 1) * 2
            &&& 0 <= i < old_versions.len() ==> model.versions[i] == old_versions[i]
            &&& 1 <= i < word(data, 7) ==> is_global(
                model.versions,
                old_versions.len() as int,
                i - 1,
            )
            &&& model.names.len() == model.symbols.len() / 24
        }),
{
    law_auxiliary_images(data);
    lemma_last_tables(data);
    let auxiliary = AuxiliaryElfImage::fields(data);
    let appended = (word(data, 7) - 1) as nat;
    let old_size = old_strings.len() as int;
    lemma_all_appended(data, old_symbols, old_size, appended);
    lemma_versions(appended);
    assert(merge::auxiliary_strings(data, auxiliary) =~= strings_of(data));
    let symbols = fold::try_fold(
        appended,
        old_symbols,
        merge::append_step(data, auxiliary, old_size),
    )->Ok_0;
    law_symbols_have_names(symbols, old_strings + strings_of(data), 0, 0);
    if 1 <= i < word(data, 7) {
        assert(is_global(merge::global_versions(appended), 0, i - 1));
    }
}

} // verus!
