//! What merging relocations preserves.

use super::auxiliary::AuxiliaryElfImage;
use super::error::Error;
use super::materialize;
use super::materialize::{RelocationModel, RelocationSources};
use super::relocation;
use super::relocation::{KindFilter, KindRule, Rela, TableModel};
use crate::bytes;
use crate::elf::layout;
use crate::elf::{SectionHeader, R_AARCH64_RELATIVE};
use crate::fold;
use vstd::prelude::*;

verus! {

/// The type of record `k` of an encoded relocation table.
pub open spec fn kind_at(table: Seq<u8>, k: int) -> u32 {
    bytes::u32_at(table, k * 0x18 + 8)
}

/// The type of an encoded relocation.
proof fn lemma_encoded_kind(relocation: Rela)
    ensures
        relocation.spec_encode().len() == 0x18,
        bytes::u32_at(relocation.spec_encode(), 8) == relocation.spec_kind(),
{
    broadcast use bytes::group_bytes_len;

    let s = relocation.spec_encode();
    assert(s.subrange(8, 0x10) =~= bytes::u64_bytes(relocation.info));
    bytes::lemma_u64_spelled(s, 8, relocation.info);
}

/// Every record of the encoded relocations of a table is of a type that the filter takes.
proof fn lemma_encoded_kinds(model: TableModel, filter: KindFilter, n: nat)
    requires
        n <= model.count,
        model.readable(),
    ensures
        forall|k: int|
            0 <= k < model.encoded(filter, n).len() / 0x18 ==> filter.spec_takes(
                #[trigger] kind_at(model.encoded(filter, n), k),
            ),
    decreases n,
{
    if n > 0 {
        let before = model.encoded(filter, (n - 1) as nat);
        let after = model.encoded(filter, n);
        lemma_encoded_kinds(model, filter, (n - 1) as nat);
        relocation::lemma_encoded_size(model, filter, (n - 1) as nat);
        relocation::lemma_encoded_size(model, filter, n);
        if model.takes_at(filter, n - 1) {
            let relocation = model.spec_relocation(n - 1)->Ok_0;
            lemma_encoded_kind(relocation);
            assert forall|k: int| 0 <= k < after.len() / 0x18 implies filter.spec_takes(
                #[trigger] kind_at(after, k),
            ) by {
                if k * 0x18 < before.len() {
                    assert(kind_at(after, k) == kind_at(before, k));
                } else {
                    assert(kind_at(after, k) == bytes::u32_at(relocation.spec_encode(), 8));
                }
            }
        }
    }
}

/// Exactly one of two filters takes relocation `index`.
spec fn is_split(model: TableModel, a: KindFilter, b: KindFilter, index: int) -> bool {
    model.takes_at(a, index) <==> !model.takes_at(b, index)
}

/// Two filters that split the relocations of a table take all of them together.
proof fn lemma_split(model: TableModel, a: KindFilter, b: KindFilter, n: nat)
    requires
        forall|index: int|
            0 <= index < n ==> #[trigger] is_split(model, a, b, index),
    ensures
        fold::matching(n, model.taken(a)).len() + fold::matching(n, model.taken(b)).len() == n,
    decreases n,
{
    if n > 0 {
        lemma_split(model, a, b, (n - 1) as nat);
        assert(is_split(model, a, b, n - 1));
    }
}

/// A filter that takes every relocation takes all of them.
proof fn lemma_all(model: TableModel, n: nat)
    ensures
        fold::matching(n, model.taken(KindFilter::Any)).len() == n,
    decreases n,
{
    if n > 0 {
        lemma_all(model, (n - 1) as nat);
    }
}

/// The relocations of a checked table are of allowed types.
proof fn lemma_allowed(model: TableModel, rule: KindRule, table: &'static str, n: nat)
    requires
        fold::try_fold(n, (), model.validate_step(rule, table)) is Ok,
    ensures
        forall|index: int|
            0 <= index < n ==> rule.spec_allows(
                (#[trigger] model.spec_relocation(index))->Ok_0.spec_kind(),
            ),
    decreases n,
{
    if n > 0 {
        lemma_allowed(model, rule, table, (n - 1) as nat);
    }
}

/// The tables that are merged can be read.
proof fn lemma_sources_readable(sources: RelocationSources)
    requires
        sources.spec_merge() is Ok,
    ensures
        sources.old_dyn.readable(),
        sources.old_plt.readable(),
        sources.first.readable(),
        sources.second.readable(),
{
    relocation::lemma_validated(
        sources.old_dyn,
        KindRule::Data,
        "existing .rela.dyn",
        sources.old_dyn.count as nat,
    );
    relocation::lemma_validated(
        sources.old_plt,
        KindRule::Linkage,
        "existing .rela.plt",
        sources.old_plt.count as nat,
    );
    relocation::lemma_validated(
        sources.first,
        KindRule::Data,
        "auxiliary relocation table 1",
        sources.first.count as nat,
    );
    relocation::lemma_validated(
        sources.second,
        KindRule::RelativeOrLinkage,
        "auxiliary relocation table 2",
        sources.second.count as nat,
    );
}

/// Merging loses no relocation: the two merged tables have as many records as the four tables that
/// went in.
pub proof fn law_no_relocation_is_lost(sources: RelocationSources)
    requires
        sources.spec_merge() is Ok,
    ensures
        ({
            let merged = sources.spec_merge()->Ok_0;
            &&& merged.rela_dyn.len() % 0x18 == 0
            &&& merged.rela_plt.len() % 0x18 == 0
            &&& merged.rela_dyn.len() / 0x18 + merged.rela_plt.len() / 0x18
                == sources.old_dyn.count + sources.old_plt.count + sources.first.count
                + sources.second.count
        }),
{
    let (d, p, f, s) = (sources.old_dyn, sources.old_plt, sources.first, sources.second);
    lemma_sources_readable(sources);
    lemma_allowed(
        s,
        KindRule::RelativeOrLinkage,
        "auxiliary relocation table 2",
        s.count as nat,
    );
    assert forall|index: int| 0 <= index < s.count implies #[trigger] is_split(
        s,
        KindFilter::Relative,
        KindFilter::JumpSlot,
        index,
    ) by {
        assert(KindRule::RelativeOrLinkage.spec_allows(
            s.spec_relocation(index)->Ok_0.spec_kind(),
        ));
    }
    lemma_split(d, KindFilter::Relative, KindFilter::NotRelative, d.count as nat);
    lemma_split(f, KindFilter::Relative, KindFilter::NotRelative, f.count as nat);
    lemma_split(s, KindFilter::Relative, KindFilter::JumpSlot, s.count as nat);
    lemma_all(p, p.count as nat);
    relocation::lemma_encoded_size(d, KindFilter::Relative, d.count as nat);
    relocation::lemma_encoded_size(d, KindFilter::NotRelative, d.count as nat);
    relocation::lemma_encoded_size(f, KindFilter::Relative, f.count as nat);
    relocation::lemma_encoded_size(f, KindFilter::NotRelative, f.count as nat);
    relocation::lemma_encoded_size(s, KindFilter::Relative, s.count as nat);
    relocation::lemma_encoded_size(s, KindFilter::JumpSlot, s.count as nat);
    relocation::lemma_encoded_size(p, KindFilter::Any, p.count as nat);
}

/// Each merged table is no larger than the tables together that it can take records from.
pub proof fn lemma_merged_relocations_fit(sources: RelocationSources)
    ensures
        sources.merged().rela_dyn.len() <= (sources.old_dyn.count + sources.first.count
            + sources.second.count) * 0x18,
        sources.merged().rela_plt.len() <= (sources.old_plt.count + sources.second.count) * 0x18,
{
    let (d, p, f, s) = (sources.old_dyn, sources.old_plt, sources.first, sources.second);
    lemma_split(d, KindFilter::Relative, KindFilter::NotRelative, d.count as nat);
    lemma_split(f, KindFilter::Relative, KindFilter::NotRelative, f.count as nat);
    relocation::lemma_encoded_size(d, KindFilter::Relative, d.count as nat);
    relocation::lemma_encoded_size(d, KindFilter::NotRelative, d.count as nat);
    relocation::lemma_encoded_size(f, KindFilter::Relative, f.count as nat);
    relocation::lemma_encoded_size(f, KindFilter::NotRelative, f.count as nat);
    relocation::lemma_encoded_size(s, KindFilter::Relative, s.count as nat);
    relocation::lemma_encoded_size(s, KindFilter::JumpSlot, s.count as nat);
    relocation::lemma_encoded_size(p, KindFilter::Any, p.count as nat);
}

/// The record types of two tables laid end to end.
proof fn lemma_kinds_joined(a: Seq<u8>, b: Seq<u8>, k: int)
    requires
        a.len() % 0x18 == 0,
        b.len() % 0x18 == 0,
        0 <= k < (a.len() + b.len()) / 0x18,
    ensures
        kind_at(a + b, k) == if k < a.len() / 0x18 {
            kind_at(a, k)
        } else {
            kind_at(b, k - a.len() / 0x18)
        },
{
    let m = a.len() / 0x18;
    assert(a.len() == m * 0x18);
    if k >= m {
        assert(k * 0x18 - a.len() == (k - m) * 0x18);
    }
}

/// In the merged data relocations exactly the first ones are relative to the load base, as many as
/// are counted.
pub proof fn law_relative_relocations_come_first(sources: RelocationSources, k: int)
    requires
        sources.spec_merge() is Ok,
        0 <= k < sources.spec_merge()->Ok_0.rela_dyn.len() / 0x18,
    ensures
        ({
            let merged = sources.spec_merge()->Ok_0;
            kind_at(merged.rela_dyn, k) == R_AARCH64_RELATIVE <==> k < merged.relative_count
        }),
{
    let (d, f, s) = (sources.old_dyn, sources.first, sources.second);
    lemma_sources_readable(sources);
    let (rel, rest) = (KindFilter::Relative, KindFilter::NotRelative);
    relocation::lemma_encoded_size(d, rel, d.count as nat);
    relocation::lemma_encoded_size(d, rest, d.count as nat);
    relocation::lemma_encoded_size(f, rel, f.count as nat);
    relocation::lemma_encoded_size(f, rest, f.count as nat);
    relocation::lemma_encoded_size(s, rel, s.count as nat);
    lemma_encoded_kinds(d, rel, d.count as nat);
    lemma_encoded_kinds(d, rest, d.count as nat);
    lemma_encoded_kinds(f, rel, f.count as nat);
    lemma_encoded_kinds(f, rest, f.count as nat);
    lemma_encoded_kinds(s, rel, s.count as nat);
    let t1 = d.encoded(rel, d.count as nat);
    let t2 = f.encoded(rel, f.count as nat);
    let t3 = s.encoded(rel, s.count as nat);
    let t4 = d.encoded(rest, d.count as nat);
    let t5 = f.encoded(rest, f.count as nat);
    lemma_kinds_joined(t1 + t2 + t3 + t4, t5, k);
    if k < (t1 + t2 + t3 + t4).len() / 0x18 {
        lemma_kinds_joined(t1 + t2 + t3, t4, k);
        if k < (t1 + t2 + t3).len() / 0x18 {
            lemma_kinds_joined(t1 + t2, t3, k);
            if k < (t1 + t2).len() / 0x18 {
                lemma_kinds_joined(t1, t2, k);
            }
        }
    }
}

/// Where record `k` of the relocation table at `offset` starts.
pub open spec fn record_at(offset: int, k: int) -> int {
    offset + k * 0x18
}

/// The type in record `k` of the relocation table at `offset`.
pub open spec fn type_at(data: Seq<u8>, offset: int, k: int) -> u32 {
    bytes::u32_at(data, record_at(offset, k) + 8)
}

/// The symbol in record `k` of the relocation table at `offset`.
pub open spec fn symbol_at(data: Seq<u8>, offset: int, k: int) -> u32 {
    bytes::u32_at(data, record_at(offset, k) + 12)
}

/// How many of the first `n` records of the table at `offset` are relative to the load base, if
/// `relative`, else how many are not.
pub open spec fn rank(data: Seq<u8>, offset: int, relative: bool, n: nat) -> int
    decreases n,
{
    if n == 0 {
        0
    } else if (type_at(data, offset, n - 1) == 0x403) == relative {
        rank(data, offset, relative, (n - 1) as nat) + 1
    } else {
        rank(data, offset, relative, (n - 1) as nat)
    }
}

/// The number of an auxiliary symbol behind `old` symbols. The null symbol keeps its number.
pub open spec fn new_number(symbol: u32, old: usize) -> int {
    if symbol == 0 {
        0
    } else {
        (symbol + old - 1) % 0x1_0000_0000
    }
}

/// A symbol number is one of the `known` auxiliary symbols and can be renumbered.
pub open spec fn is_known(symbol: u32, old: usize, known: u32) -> bool {
    symbol < known && (symbol == 0 || (old > 0 && symbol + old - 1 <= u64::MAX))
}

/// The ranks of records rise.
proof fn lemma_rank(data: Seq<u8>, offset: int, relative: bool, k: nat, n: nat)
    requires
        k <= n,
    ensures
        0 <= rank(data, offset, relative, k) <= rank(data, offset, relative, n) <= n,
        rank(data, offset, relative, k) <= k,
    decreases n,
{
    if k < n {
        lemma_rank(data, offset, relative, k, (n - 1) as nat);
    } else if n > 0 {
        lemma_rank(data, offset, relative, (n - 1) as nat, (n - 1) as nat);
    }
}

/// Reading the fields of one relocation.
proof fn lemma_parsed(data: Seq<u8>, at: int)
    requires
        data.len() <= usize::MAX,
        0 <= at,
    ensures
        Rela::spec_parse(data, at) is Ok <==> at + 0x18 <= data.len(),
        Rela::spec_parse(data, at) matches Ok(found) ==> {
            &&& found.offset == bytes::u64_at(data, at)
            &&& found.addend == bytes::i64_at(data, at + 0x10)
            &&& found.spec_kind() == bytes::u32_at(data, at + 8)
            &&& found.spec_symbol() == bytes::u32_at(data, at + 12)
        },
{
    reveal_with_fuel(layout::first_unreadable, 4);
    let (low, high) = (bytes::u32_at(data, at + 8), bytes::u32_at(data, at + 12));
    let info = bytes::u64_at(data, at + 8);
    lemma_split_word(info, low, high);
}

/// The halves of a 64-bit number.
proof fn lemma_split_word(word: u64, low: u32, high: u32)
    requires
        word == low + 0x1_0000_0000 * high,
    ensures
        word % 0x1_0000_0000 == low,
        word / 0x1_0000_0000 == high,
{
}

/// Renumbering one relocation.
proof fn lemma_renumbered(relocation: Rela, old: usize, known: u32)
    requires
        relocation.spec_symbol() <= u32::MAX,
    ensures
        ({
            let symbol = relocation.spec_symbol() as u32;
            let result = relocation::renumbered(relocation, old, known);
            &&& result is Ok <==> is_known(symbol, old, known)
            &&& result matches Ok(found) ==> {
                &&& found.offset == relocation.offset
                &&& found.addend == relocation.addend
                &&& found.spec_kind() == relocation.spec_kind()
                &&& found.spec_symbol() == new_number(symbol, old)
            }
        }),
{
    let symbol = relocation.spec_symbol() as u32;
    if is_known(symbol, old, known) && symbol != 0 {
        let number = ((symbol + old - 1) % 0x1_0000_0000) as u32;
        let kind = relocation.spec_kind();
        let info = (number * 0x1_0000_0000 + kind) as u64;
        lemma_split_word(info, kind, number);
    }
}

/// Reading one relocation.
proof fn lemma_relocation_read(model: TableModel, k: int)
    requires
        model.data.len() <= usize::MAX,
        0 <= k < model.count,
    ensures
        ({
            let at = record_at(model.offset as int, k);
            let symbol = symbol_at(model.data, model.offset as int, k);
            &&& model.spec_relocation(k) is Ok <==> at + 0x18 <= model.data.len()
                && match model.remap {
                None => true,
                Some((old, known)) => is_known(symbol, old, known),
            }
            &&& model.spec_relocation(k) matches Ok(found) ==> {
                &&& found.offset == bytes::u64_at(model.data, at)
                &&& found.addend == bytes::i64_at(model.data, at + 0x10)
                &&& found.spec_kind() == type_at(model.data, model.offset as int, k)
                &&& found.spec_symbol() == match model.remap {
                    None => symbol as int,
                    Some((old, _)) => new_number(symbol, old),
                }
            }
        }),
{
    reveal(TableModel::spec_relocation);
    let at = record_at(model.offset as int, k);
    lemma_parsed(model.data, at);
    if let Some((old, known)) = model.remap {
        if let Ok(found) = Rela::spec_parse(model.data, at) {
            lemma_renumbered(found, old, known);
        }
    }
}

/// Checking the first `n` relocations of a table.
proof fn lemma_validated_exactly(model: TableModel, rule: KindRule, table: &'static str, n: nat)
    requires
        model.data.len() <= usize::MAX,
        n <= model.count,
    ensures
        fold::try_fold(n, (), model.validate_step(rule, table)) is Ok <==> forall|k: int|
            0 <= k < n ==> (#[trigger] model.spec_relocation(k)) is Ok && rule.spec_allows(
                type_at(model.data, model.offset as int, k),
            ),
    decreases n,
{
    if n > 0 {
        lemma_validated_exactly(model, rule, table, (n - 1) as nat);
        lemma_relocation_read(model, n - 1);
        let all = forall|k: int|
            0 <= k < n ==> (#[trigger] model.spec_relocation(k)) is Ok && rule.spec_allows(
                type_at(model.data, model.offset as int, k),
            );
        if all {
            assert(model.spec_relocation(n - 1) is Ok);
        }
    }
}

/// Record `k` of the relocation table at `offset` lies in the file and is a data relocation:
/// relative to the load base, a global offset entry or an absolute address.
pub open spec fn is_data_record(data: Seq<u8>, offset: int, k: int) -> bool {
    &&& record_at(offset, k) + 0x18 <= data.len()
    &&& type_at(data, offset, k) == 0x403 || type_at(data, offset, k) == 0x401 || type_at(
        data,
        offset,
        k,
    ) == 0x101
}

/// Record `k` of the relocation table at `offset` lies in the file and is a linkage slot.
pub open spec fn is_linkage_record(data: Seq<u8>, offset: int, k: int) -> bool {
    record_at(offset, k) + 0x18 <= data.len() && type_at(data, offset, k) == 0x402
}

/// Record `k` of the relocation table at `offset` lies in the file and is relative to the load
/// base or a linkage slot.
pub open spec fn is_mixed_record(data: Seq<u8>, offset: int, k: int) -> bool {
    record_at(offset, k) + 0x18 <= data.len() && (type_at(data, offset, k) == 0x403 || type_at(
        data,
        offset,
        k,
    ) == 0x402)
}

/// The first `n` records of the table at `offset` are data relocations.
pub open spec fn holds_data(data: Seq<u8>, offset: int, n: int) -> bool {
    forall|k: int| 0 <= k < n ==> #[trigger] is_data_record(data, offset, k)
}

/// The first `n` records of the table at `offset` are linkage slots.
pub open spec fn holds_linkage(data: Seq<u8>, offset: int, n: int) -> bool {
    forall|k: int| 0 <= k < n ==> #[trigger] is_linkage_record(data, offset, k)
}

/// The first `n` records of the table at `offset` are relative to the load base or linkage slots.
pub open spec fn holds_mixed(data: Seq<u8>, offset: int, n: int) -> bool {
    forall|k: int| 0 <= k < n ==> #[trigger] is_mixed_record(data, offset, k)
}

/// The first `n` records of the table at `offset` name auxiliary symbols that there are.
pub open spec fn names_known(data: Seq<u8>, offset: int, n: int, old: usize, known: u32) -> bool {
    forall|k: int| 0 <= k < n ==> is_known(#[trigger] symbol_at(data, offset, k), old, known)
}

/// The relocations of an image and of an auxiliary image can be merged: every record of the
/// image's data table and of the first auxiliary table is a data relocation, those of the linkage
/// table are linkage slots, those of the second auxiliary table are relative or linkage slots, the
/// auxiliary ones name symbols that there are, and the merged tables have a size.
pub open spec fn can_be_merged(
    image: Seq<u8>,
    rela_dyn: SectionHeader,
    rela_plt: SectionHeader,
    auxiliary_data: Seq<u8>,
    auxiliary: AuxiliaryElfImage,
    old: usize,
) -> bool {
    let (first, second) = (
        auxiliary.relocation1_offset as int,
        auxiliary.relocation2_offset as int,
    );
    let (n, m) = (auxiliary.relocation1_count as int, auxiliary.relocation2_count as int);
    &&& rela_dyn.entry_size == 0x18 && rela_plt.entry_size == 0x18
    &&& rela_dyn.size % 0x18 == 0 && rela_plt.size % 0x18 == 0
    &&& rela_dyn.offset <= usize::MAX && rela_plt.offset <= usize::MAX
    &&& holds_data(image, rela_dyn.offset as int, rela_dyn.size as int / 0x18)
    &&& holds_linkage(image, rela_plt.offset as int, rela_plt.size as int / 0x18)
    &&& holds_data(auxiliary_data, first, n)
    &&& names_known(auxiliary_data, first, n, old, auxiliary.dynsym_count)
    &&& holds_mixed(auxiliary_data, second, m)
    &&& names_known(auxiliary_data, second, m, old, auxiliary.dynsym_count)
    &&& (rela_dyn.size as int / 0x18 + n + m) * 0x18 <= usize::MAX
    &&& (rela_plt.size as int / 0x18 + m) * 0x18 <= usize::MAX
}

/// The four tables of [`can_be_merged`].
spec fn sources_of(
    image: Seq<u8>,
    rela_dyn: SectionHeader,
    rela_plt: SectionHeader,
    auxiliary_data: Seq<u8>,
    auxiliary: AuxiliaryElfImage,
    old: usize,
) -> RelocationSources {
    RelocationSources::of(image, rela_dyn, rela_plt, auxiliary_data, auxiliary, old)
}

/// Record `k` of a table passes the check.
spec fn passes(model: TableModel, rule: KindRule, k: int) -> bool {
    model.spec_relocation(k) is Ok && rule.spec_allows(
        type_at(model.data, model.offset as int, k),
    )
}

/// A table passes the check exactly when each of its records does.
proof fn lemma_table_passes(model: TableModel, rule: KindRule, table: &'static str)
    requires
        model.data.len() <= usize::MAX,
    ensures
        model.spec_validate(rule, table) is Ok <==> forall|k: int|
            0 <= k < model.count ==> #[trigger] passes(model, rule, k),
{
    lemma_validated_exactly(model, rule, table, model.count as nat);
    if forall|k: int| 0 <= k < model.count ==> #[trigger] passes(model, rule, k) {
        assert forall|k: int| 0 <= k < model.count implies (#[trigger] model.spec_relocation(
            k,
        )) is Ok && rule.spec_allows(type_at(model.data, model.offset as int, k)) by {
            assert(passes(model, rule, k));
        }
    }
    if model.spec_validate(rule, table) is Ok {
        assert forall|k: int| 0 <= k < model.count implies #[trigger] passes(model, rule, k) by {
            assert(model.spec_relocation(k) is Ok);
        }
    }
}

/// The data relocations of a table of the image pass the check for data, and no others do.
proof fn lemma_data_table(model: TableModel, table: &'static str)
    requires
        model.data.len() <= usize::MAX,
        model.remap is None,
    ensures
        model.spec_validate(KindRule::Data, table) is Ok <==> holds_data(
            model.data,
            model.offset as int,
            model.count as int,
        ),
{
    lemma_table_passes(model, KindRule::Data, table);
    assert forall|k: int| 0 <= k < model.count implies #[trigger] passes(model, KindRule::Data, k)
        == is_data_record(model.data, model.offset as int, k) by {
        lemma_relocation_read(model, k);
    }
    if holds_data(model.data, model.offset as int, model.count as int) {
        assert forall|k: int| 0 <= k < model.count implies #[trigger] passes(
            model,
            KindRule::Data,
            k,
        ) by {
            assert(is_data_record(model.data, model.offset as int, k));
        }
    }
    if model.spec_validate(KindRule::Data, table) is Ok {
        assert forall|k: int| 0 <= k < model.count implies #[trigger] is_data_record(
            model.data,
            model.offset as int,
            k,
        ) by {
            assert(passes(model, KindRule::Data, k));
        }
    }
}

/// The linkage slots of a table of the image pass the check for linkage, and no others do.
proof fn lemma_linkage_table(model: TableModel, table: &'static str)
    requires
        model.data.len() <= usize::MAX,
        model.remap is None,
    ensures
        model.spec_validate(KindRule::Linkage, table) is Ok <==> holds_linkage(
            model.data,
            model.offset as int,
            model.count as int,
        ),
{
    lemma_table_passes(model, KindRule::Linkage, table);
    assert forall|k: int| 0 <= k < model.count implies #[trigger] passes(
        model,
        KindRule::Linkage,
        k,
    ) == is_linkage_record(model.data, model.offset as int, k) by {
        lemma_relocation_read(model, k);
    }
    if holds_linkage(model.data, model.offset as int, model.count as int) {
        assert forall|k: int| 0 <= k < model.count implies #[trigger] passes(
            model,
            KindRule::Linkage,
            k,
        ) by {
            assert(is_linkage_record(model.data, model.offset as int, k));
        }
    }
    if model.spec_validate(KindRule::Linkage, table) is Ok {
        assert forall|k: int| 0 <= k < model.count implies #[trigger] is_linkage_record(
            model.data,
            model.offset as int,
            k,
        ) by {
            assert(passes(model, KindRule::Linkage, k));
        }
    }
}

/// The data relocations of an auxiliary table pass the check for data when they name symbols that
/// there are, and no others do.
proof fn lemma_auxiliary_data_table(
    model: TableModel,
    old: usize,
    known: u32,
    table: &'static str,
)
    requires
        model.data.len() <= usize::MAX,
        model.remap == Some((old, known)),
    ensures
        model.spec_validate(KindRule::Data, table) is Ok <==> holds_data(
            model.data,
            model.offset as int,
            model.count as int,
        ) && names_known(model.data, model.offset as int, model.count as int, old, known),
{
    let (data, offset) = (model.data, model.offset as int);
    lemma_table_passes(model, KindRule::Data, table);
    assert forall|k: int| 0 <= k < model.count implies #[trigger] passes(model, KindRule::Data, k)
        == (is_data_record(data, offset, k) && is_known(symbol_at(data, offset, k), old, known)) by {
        lemma_relocation_read(model, k);
    }
    if holds_data(data, offset, model.count as int) && names_known(
        data,
        offset,
        model.count as int,
        old,
        known,
    ) {
        assert forall|k: int| 0 <= k < model.count implies #[trigger] passes(
            model,
            KindRule::Data,
            k,
        ) by {
            assert(is_data_record(data, offset, k));
            assert(is_known(symbol_at(data, offset, k), old, known));
        }
    }
    if model.spec_validate(KindRule::Data, table) is Ok {
        assert forall|k: int| 0 <= k < model.count implies #[trigger] is_data_record(
            data,
            offset,
            k,
        ) by {
            assert(passes(model, KindRule::Data, k));
        }
        assert forall|k: int| 0 <= k < model.count implies is_known(
            #[trigger] symbol_at(data, offset, k),
            old,
            known,
        ) by {
            assert(passes(model, KindRule::Data, k));
        }
    }
}

/// The relative relocations and linkage slots of an auxiliary table pass the check for them when
/// they name symbols that there are, and no others do.
proof fn lemma_mixed_table(model: TableModel, old: usize, known: u32, table: &'static str)
    requires
        model.data.len() <= usize::MAX,
        model.remap == Some((old, known)),
    ensures
        model.spec_validate(KindRule::RelativeOrLinkage, table) is Ok <==> holds_mixed(
            model.data,
            model.offset as int,
            model.count as int,
        ) && names_known(model.data, model.offset as int, model.count as int, old, known),
{
    let rule = KindRule::RelativeOrLinkage;
    let (data, offset) = (model.data, model.offset as int);
    lemma_table_passes(model, rule, table);
    assert forall|k: int| 0 <= k < model.count implies #[trigger] passes(model, rule, k) == (
    is_mixed_record(data, offset, k) && is_known(symbol_at(data, offset, k), old, known)) by {
        lemma_relocation_read(model, k);
    }
    if holds_mixed(data, offset, model.count as int) && names_known(
        data,
        offset,
        model.count as int,
        old,
        known,
    ) {
        assert forall|k: int| 0 <= k < model.count implies #[trigger] passes(model, rule, k) by {
            assert(is_mixed_record(data, offset, k));
            assert(is_known(symbol_at(data, offset, k), old, known));
        }
    }
    if model.spec_validate(rule, table) is Ok {
        assert forall|k: int| 0 <= k < model.count implies #[trigger] is_mixed_record(
            data,
            offset,
            k,
        ) by {
            assert(passes(model, rule, k));
        }
        assert forall|k: int| 0 <= k < model.count implies is_known(
            #[trigger] symbol_at(data, offset, k),
            old,
            known,
        ) by {
            assert(passes(model, rule, k));
        }
    }
}

/// The relocations of an image and of an auxiliary image are merged exactly when they can be.
pub proof fn law_merging_accepts_exactly(
    image: Seq<u8>,
    rela_dyn: SectionHeader,
    rela_plt: SectionHeader,
    auxiliary_data: Seq<u8>,
    auxiliary: AuxiliaryElfImage,
    old: usize,
)
    requires
        image.len() <= usize::MAX,
        auxiliary_data.len() <= usize::MAX,
    ensures
        materialize::spec_merge_relocations(
            image,
            rela_dyn,
            rela_plt,
            auxiliary_data,
            auxiliary,
            old,
        ) is Ok <==> can_be_merged(image, rela_dyn, rela_plt, auxiliary_data, auxiliary, old),
{
    reveal(materialize::spec_merge_relocations);
    let sources = sources_of(image, rela_dyn, rela_plt, auxiliary_data, auxiliary, old);
    lemma_data_table(sources.old_dyn, "existing .rela.dyn");
    lemma_linkage_table(sources.old_plt, "existing .rela.plt");
    lemma_auxiliary_data_table(
        sources.first,
        old,
        auxiliary.dynsym_count,
        "auxiliary relocation table 1",
    );
    lemma_mixed_table(
        sources.second,
        old,
        auxiliary.dynsym_count,
        "auxiliary relocation table 2",
    );
    let (n, m) = (rela_dyn.size as int / 0x18, rela_plt.size as int / 0x18);
    if n <= usize::MAX && m <= usize::MAX && rela_dyn.offset <= usize::MAX && rela_plt.offset
        <= usize::MAX {
        assert(sources.old_dyn.count == n && sources.old_plt.count == m);
        assert(sources.old_dyn.offset == rela_dyn.offset);
        assert(sources.old_plt.offset == rela_plt.offset);
    }
}

/// The filter splits off the relocations that are relative, or those that are not.
proof fn lemma_filtered(model: TableModel, filter: KindFilter, relative: bool, n: nat, k: int)
    requires
        model.data.len() <= usize::MAX,
        n <= model.count,
        model.readable(),
        forall|i: int|
            0 <= i < n ==> filter.spec_takes(#[trigger] type_at(model.data, model.offset as int, i))
                == ((type_at(model.data, model.offset as int, i) == 0x403) == relative),
        0 <= k < n,
        (type_at(model.data, model.offset as int, k) == 0x403) == relative,
    ensures
        ({
            let table = model.encoded(filter, n);
            let place = rank(model.data, model.offset as int, relative, k as nat) * 0x18;
            &&& table.len() == rank(model.data, model.offset as int, relative, n) * 0x18
            &&& place + 0x18 <= table.len()
            &&& table.subrange(place as int, place + 0x18) == model.spec_relocation(
                k,
            )->Ok_0.spec_encode()
        }),
    decreases n,
{
    let last = n - 1;
    lemma_rank(model.data, model.offset as int, relative, k as nat, last as nat);
    lemma_rank(model.data, model.offset as int, relative, last as nat, n);
    lemma_relocation_read(model, last);
    assert(model.spec_relocation(last) is Ok);
    lemma_filtered_size(model, filter, relative, n);
    lemma_filtered_size(model, filter, relative, (n - 1) as nat);
    relocation::law_relocation_round_trip(model.spec_relocation(last)->Ok_0);
    let before = model.encoded(filter, (n - 1) as nat);
    let table = model.encoded(filter, n);
    let encoded = model.spec_relocation(last)->Ok_0.spec_encode();
    if k == last {
        assert(table.subrange(before.len() as int, before.len() as int + 0x18) =~= encoded);
    } else {
        lemma_filtered(model, filter, relative, (n - 1) as nat, k);
        let place = rank(model.data, model.offset as int, relative, k as nat) * 0x18;
        assert(table.subrange(place as int, place + 0x18) =~= before.subrange(
            place as int,
            place + 0x18,
        ));
    }
}

/// How many relocations the filter splits off.
proof fn lemma_filtered_size(model: TableModel, filter: KindFilter, relative: bool, n: nat)
    requires
        model.data.len() <= usize::MAX,
        n <= model.count,
        model.readable(),
        forall|i: int|
            0 <= i < n ==> filter.spec_takes(#[trigger] type_at(model.data, model.offset as int, i))
                == ((type_at(model.data, model.offset as int, i) == 0x403) == relative),
    ensures
        model.encoded(filter, n).len() == rank(model.data, model.offset as int, relative, n) * 0x18,
        fold::matching(n, model.taken(filter)).len() == rank(
            model.data,
            model.offset as int,
            relative,
            n,
        ),
    decreases n,
{
    relocation::lemma_encoded_size(model, filter, n);
    if n > 0 {
        lemma_filtered_size(model, filter, relative, (n - 1) as nat);
        lemma_relocation_read(model, n - 1);
        assert(model.spec_relocation(n - 1) is Ok);
        assert(filter.spec_takes(type_at(model.data, model.offset as int, n - 1)) == ((type_at(
            model.data,
            model.offset as int,
            n - 1,
        ) == 0x403) == relative));
    }
}

/// A table that is taken whole keeps its order.
proof fn lemma_unfiltered(model: TableModel, n: nat, k: int)
    requires
        model.data.len() <= usize::MAX,
        n <= model.count,
        model.readable(),
        0 <= k < n,
    ensures
        model.encoded(KindFilter::Any, n).len() == n * 0x18,
        model.encoded(KindFilter::Any, n).subrange(k * 0x18, k * 0x18 + 0x18)
            == model.spec_relocation(k)->Ok_0.spec_encode(),
    decreases n,
{
    relocation::lemma_encoded_size(model, KindFilter::Any, n);
    lemma_all(model, n);
    lemma_all(model, (n - 1) as nat);
    relocation::lemma_encoded_size(model, KindFilter::Any, (n - 1) as nat);
    assert(model.spec_relocation(n - 1) is Ok);
    relocation::law_relocation_round_trip(model.spec_relocation(n - 1)->Ok_0);
    let before = model.encoded(KindFilter::Any, (n - 1) as nat);
    let table = model.encoded(KindFilter::Any, n);
    if k == n - 1 {
        assert(table.subrange(before.len() as int, before.len() as int + 0x18) =~= model.spec_relocation(
            k,
        )->Ok_0.spec_encode());
    } else {
        lemma_unfiltered(model, (n - 1) as nat, k);
        assert(table.subrange(k * 0x18, k * 0x18 + 0x18) =~= before.subrange(
            k * 0x18,
            k * 0x18 + 0x18,
        ));
    }
}

/// Record `p` of `table` is the one that stands at `at` in `data`, with its symbol renumbered to
/// `symbol`.
pub open spec fn is_record(table: Seq<u8>, p: int, data: Seq<u8>, at: int, symbol: int) -> bool {
    &&& p * 0x18 + 0x18 <= table.len()
    &&& bytes::u64_at(table, p * 0x18) == bytes::u64_at(data, at)
    &&& bytes::u32_at(table, p * 0x18 + 8) == bytes::u32_at(data, at + 8)
    &&& bytes::u32_at(table, p * 0x18 + 12) == symbol
    &&& bytes::u64_at(table, p * 0x18 + 16) == bytes::u64_at(data, at + 16)
}

/// The fields of an encoded relocation.
proof fn lemma_encoded_fields(table: Seq<u8>, x: int, found: Rela)
    requires
        0 <= x,
        x + 0x18 <= table.len(),
        table.subrange(x, x + 0x18) == found.spec_encode(),
    ensures
        bytes::u64_at(table, x) == found.offset,
        bytes::u32_at(table, x + 8) == found.spec_kind(),
        bytes::u32_at(table, x + 12) == found.spec_symbol(),
        bytes::u64_at(table, x + 16) == bytes::as_unsigned64(found.addend),
{
    broadcast use bytes::group_bytes_len;

    let s = found.spec_encode();
    let addend = bytes::as_unsigned64(found.addend);
    let record = table.subrange(x, x + 0x18);
    assert(table.subrange(x, x + 8) =~= record.subrange(0, 8));
    assert(table.subrange(x + 8, x + 16) =~= record.subrange(8, 16));
    assert(table.subrange(x + 16, x + 24) =~= record.subrange(16, 24));
    assert(s.subrange(0, 8) =~= bytes::u64_bytes(found.offset));
    assert(s.subrange(8, 16) =~= bytes::u64_bytes(found.info));
    assert(s.subrange(16, 24) =~= bytes::u64_bytes(addend));
    bytes::lemma_u64_spelled(table, x, found.offset);
    bytes::lemma_u64_spelled(table, x + 8, found.info);
    bytes::lemma_u64_spelled(table, x + 16, addend);
    let (low, high) = (bytes::u32_at(table, x + 8), bytes::u32_at(table, x + 12));
    lemma_split_word(found.info, low, high);
}

/// Reading a signed number as an unsigned one again.
proof fn lemma_unsigned_again(value: u64)
    ensures
        bytes::as_unsigned64(bytes::as_signed64(value)) == value,
{
}

/// An encoded relocation is the record that it was read from.
proof fn lemma_record_fields(table: Seq<u8>, p: int, model: TableModel, k: int)
    requires
        model.data.len() <= usize::MAX,
        0 <= k < model.count,
        model.spec_relocation(k) is Ok,
        0 <= p,
        p * 0x18 + 0x18 <= table.len(),
        table.subrange(p * 0x18, p * 0x18 + 0x18) == model.spec_relocation(k)->Ok_0.spec_encode(),
    ensures
        is_record(
            table,
            p,
            model.data,
            record_at(model.offset as int, k),
            match model.remap {
                None => symbol_at(model.data, model.offset as int, k) as int,
                Some((old, _)) => new_number(symbol_at(model.data, model.offset as int, k), old),
            },
        ),
{
    lemma_relocation_read(model, k);
    let at = record_at(model.offset as int, k);
    lemma_encoded_fields(table, p * 0x18, model.spec_relocation(k)->Ok_0);
    lemma_unsigned_again(bytes::u64_at(model.data, at + 16));
}

/// What is known of tables that can be merged.
proof fn lemma_merged_sources(
    image: Seq<u8>,
    rela_dyn: SectionHeader,
    rela_plt: SectionHeader,
    auxiliary_data: Seq<u8>,
    auxiliary: AuxiliaryElfImage,
    old: usize,
)
    requires
        image.len() <= usize::MAX,
        auxiliary_data.len() <= usize::MAX,
        can_be_merged(image, rela_dyn, rela_plt, auxiliary_data, auxiliary, old),
    ensures
        ({
            let sources = sources_of(image, rela_dyn, rela_plt, auxiliary_data, auxiliary, old);
            let s = sources.second;
            &&& materialize::spec_merge_relocations(
                image,
                rela_dyn,
                rela_plt,
                auxiliary_data,
                auxiliary,
                old,
            ) == Ok::<RelocationModel, Error>(sources.merged())
            &&& sources.old_dyn.readable()
            &&& sources.old_plt.readable()
            &&& sources.first.readable()
            &&& sources.second.readable()
            &&& forall|i: int|
                0 <= i < s.count ==> KindFilter::JumpSlot.spec_takes(
                    #[trigger] type_at(s.data, s.offset as int, i),
                ) == ((type_at(s.data, s.offset as int, i) == 0x403) == false)
        }),
{
    law_merging_accepts_exactly(image, rela_dyn, rela_plt, auxiliary_data, auxiliary, old);
    reveal(materialize::spec_merge_relocations);
    let sources = sources_of(image, rela_dyn, rela_plt, auxiliary_data, auxiliary, old);
    lemma_sources_readable(sources);
    let s = sources.second;
    assert forall|i: int| 0 <= i < s.count implies KindFilter::JumpSlot.spec_takes(
        #[trigger] type_at(s.data, s.offset as int, i),
    ) == ((type_at(s.data, s.offset as int, i) == 0x403) == false) by {
        assert(is_mixed_record(s.data, s.offset as int, i));
    }
}

/// The sizes of merged relocation tables: as many relative relocations as the three tables hold
/// that can have some, and behind them the others of the image and of the first auxiliary table;
/// and as many linkage slots as the image and the second auxiliary table hold.
pub proof fn law_merged_sizes(
    image: Seq<u8>,
    rela_dyn: SectionHeader,
    rela_plt: SectionHeader,
    auxiliary_data: Seq<u8>,
    auxiliary: AuxiliaryElfImage,
    old: usize,
)
    requires
        image.len() <= usize::MAX,
        auxiliary_data.len() <= usize::MAX,
        can_be_merged(image, rela_dyn, rela_plt, auxiliary_data, auxiliary, old),
    ensures
        ({
            let merged = materialize::spec_merge_relocations(
                image,
                rela_dyn,
                rela_plt,
                auxiliary_data,
                auxiliary,
                old,
            )->Ok_0;
            let d = rela_dyn.offset as int;
            let (f, s) = (
                auxiliary.relocation1_offset as int,
                auxiliary.relocation2_offset as int,
            );
            let d_rel = rank(image, d, true, (rela_dyn.size / 0x18) as nat);
            let f_rel = rank(auxiliary_data, f, true, auxiliary.relocation1_count as nat);
            let s_rel = rank(auxiliary_data, s, true, auxiliary.relocation2_count as nat);
            let d_rest = rank(image, d, false, (rela_dyn.size / 0x18) as nat);
            let f_rest = rank(auxiliary_data, f, false, auxiliary.relocation1_count as nat);
            let s_rest = rank(auxiliary_data, s, false, auxiliary.relocation2_count as nat);
            &&& merged.relative_count == d_rel + f_rel + s_rel
            &&& merged.rela_dyn.len() == (d_rel + f_rel + s_rel + d_rest + f_rest) * 0x18
            &&& merged.rela_plt.len() == (rela_plt.size / 0x18 + s_rest) * 0x18
        }),
{
    lemma_merged_sources(image, rela_dyn, rela_plt, auxiliary_data, auxiliary, old);
    let sources = sources_of(image, rela_dyn, rela_plt, auxiliary_data, auxiliary, old);
    let (rel, rest) = (KindFilter::Relative, KindFilter::NotRelative);
    let (dm, pm, fm, sm) = (sources.old_dyn, sources.old_plt, sources.first, sources.second);
    lemma_filtered_size(dm, rel, true, dm.count as nat);
    lemma_filtered_size(dm, rest, false, dm.count as nat);
    lemma_filtered_size(fm, rel, true, fm.count as nat);
    lemma_filtered_size(fm, rest, false, fm.count as nat);
    lemma_filtered_size(sm, rel, true, sm.count as nat);
    lemma_filtered_size(sm, KindFilter::JumpSlot, false, sm.count as nat);
    lemma_rank(dm.data, dm.offset as int, true, 0, dm.count as nat);
    lemma_rank(fm.data, fm.offset as int, true, 0, fm.count as nat);
    lemma_rank(sm.data, sm.offset as int, true, 0, sm.count as nat);
    relocation::lemma_encoded_size(pm, KindFilter::Any, pm.count as nat);
    lemma_all(pm, pm.count as nat);
}

/// Every data relocation of the image stands in the merged data table as it was: a relative one at
/// its rank among the relative ones, any other at its rank among the others, behind all relative
/// relocations.
pub proof fn law_image_relocations_are_kept(
    image: Seq<u8>,
    rela_dyn: SectionHeader,
    rela_plt: SectionHeader,
    auxiliary_data: Seq<u8>,
    auxiliary: AuxiliaryElfImage,
    old: usize,
    k: int,
)
    requires
        image.len() <= usize::MAX,
        auxiliary_data.len() <= usize::MAX,
        can_be_merged(image, rela_dyn, rela_plt, auxiliary_data, auxiliary, old),
        0 <= k < rela_dyn.size / 0x18,
    ensures
        ({
            let merged = materialize::spec_merge_relocations(
                image,
                rela_dyn,
                rela_plt,
                auxiliary_data,
                auxiliary,
                old,
            )->Ok_0;
            let d = rela_dyn.offset as int;
            let (f, s) = (
                auxiliary.relocation1_offset as int,
                auxiliary.relocation2_offset as int,
            );
            let d_rel = rank(image, d, true, (rela_dyn.size / 0x18) as nat);
            let f_rel = rank(auxiliary_data, f, true, auxiliary.relocation1_count as nat);
            let s_rel = rank(auxiliary_data, s, true, auxiliary.relocation2_count as nat);
            is_record(
                merged.rela_dyn,
                if type_at(image, d, k) == 0x403 {
                    rank(image, d, true, k as nat)
                } else {
                    d_rel + f_rel + s_rel + rank(image, d, false, k as nat)
                },
                image,
                record_at(d, k),
                symbol_at(image, d, k) as int,
            )
        }),
{
    lemma_merged_sources(image, rela_dyn, rela_plt, auxiliary_data, auxiliary, old);
    let sources = sources_of(image, rela_dyn, rela_plt, auxiliary_data, auxiliary, old);
    lemma_kept_in_data(sources, 0, k);
}

/// Every relocation of the first auxiliary table stands in the merged data table, with its symbol
/// renumbered: a relative one behind those of the image, any other behind all others of the image.
pub proof fn law_first_auxiliary_relocations_are_kept(
    image: Seq<u8>,
    rela_dyn: SectionHeader,
    rela_plt: SectionHeader,
    auxiliary_data: Seq<u8>,
    auxiliary: AuxiliaryElfImage,
    old: usize,
    k: int,
)
    requires
        image.len() <= usize::MAX,
        auxiliary_data.len() <= usize::MAX,
        can_be_merged(image, rela_dyn, rela_plt, auxiliary_data, auxiliary, old),
        0 <= k < auxiliary.relocation1_count,
    ensures
        ({
            let merged = materialize::spec_merge_relocations(
                image,
                rela_dyn,
                rela_plt,
                auxiliary_data,
                auxiliary,
                old,
            )->Ok_0;
            let d = rela_dyn.offset as int;
            let (f, s) = (
                auxiliary.relocation1_offset as int,
                auxiliary.relocation2_offset as int,
            );
            let d_rel = rank(image, d, true, (rela_dyn.size / 0x18) as nat);
            let f_rel = rank(auxiliary_data, f, true, auxiliary.relocation1_count as nat);
            let s_rel = rank(auxiliary_data, s, true, auxiliary.relocation2_count as nat);
            let d_rest = rank(image, d, false, (rela_dyn.size / 0x18) as nat);
            is_record(
                merged.rela_dyn,
                if type_at(auxiliary_data, f, k) == 0x403 {
                    d_rel + rank(auxiliary_data, f, true, k as nat)
                } else {
                    d_rel + f_rel + s_rel + d_rest + rank(auxiliary_data, f, false, k as nat)
                },
                auxiliary_data,
                record_at(f, k),
                new_number(symbol_at(auxiliary_data, f, k), old),
            )
        }),
{
    lemma_merged_sources(image, rela_dyn, rela_plt, auxiliary_data, auxiliary, old);
    let sources = sources_of(image, rela_dyn, rela_plt, auxiliary_data, auxiliary, old);
    lemma_kept_in_data(sources, 1, k);
}

/// Every relocation of the second auxiliary table stands in a merged table, with its symbol
/// renumbered: a relative one behind the other relative ones of the data table, a linkage slot
/// behind those of the image.
pub proof fn law_second_auxiliary_relocations_are_kept(
    image: Seq<u8>,
    rela_dyn: SectionHeader,
    rela_plt: SectionHeader,
    auxiliary_data: Seq<u8>,
    auxiliary: AuxiliaryElfImage,
    old: usize,
    k: int,
)
    requires
        image.len() <= usize::MAX,
        auxiliary_data.len() <= usize::MAX,
        can_be_merged(image, rela_dyn, rela_plt, auxiliary_data, auxiliary, old),
        0 <= k < auxiliary.relocation2_count,
    ensures
        ({
            let merged = materialize::spec_merge_relocations(
                image,
                rela_dyn,
                rela_plt,
                auxiliary_data,
                auxiliary,
                old,
            )->Ok_0;
            let d = rela_dyn.offset as int;
            let (f, s) = (
                auxiliary.relocation1_offset as int,
                auxiliary.relocation2_offset as int,
            );
            let d_rel = rank(image, d, true, (rela_dyn.size / 0x18) as nat);
            let f_rel = rank(auxiliary_data, f, true, auxiliary.relocation1_count as nat);
            let s_rel = rank(auxiliary_data, s, true, auxiliary.relocation2_count as nat);
            let relative = type_at(auxiliary_data, s, k) == 0x403;
            is_record(
                if relative {
                    merged.rela_dyn
                } else {
                    merged.rela_plt
                },
                if relative {
                    d_rel + f_rel + rank(auxiliary_data, s, true, k as nat)
                } else {
                    rela_plt.size / 0x18 + rank(auxiliary_data, s, false, k as nat)
                },
                auxiliary_data,
                record_at(s, k),
                new_number(symbol_at(auxiliary_data, s, k), old),
            )
        }),
{
    lemma_merged_sources(image, rela_dyn, rela_plt, auxiliary_data, auxiliary, old);
    let sources = sources_of(image, rela_dyn, rela_plt, auxiliary_data, auxiliary, old);
    if type_at(auxiliary_data, auxiliary.relocation2_offset as int, k) == 0x403 {
        lemma_kept_in_data(sources, 2, k);
    } else {
        lemma_kept_in_linkage(sources, true, k);
    }
}

/// Every linkage slot of the image stands in the merged linkage table as it was, at its place.
pub proof fn law_linkage_slots_are_kept(
    image: Seq<u8>,
    rela_dyn: SectionHeader,
    rela_plt: SectionHeader,
    auxiliary_data: Seq<u8>,
    auxiliary: AuxiliaryElfImage,
    old: usize,
    k: int,
)
    requires
        image.len() <= usize::MAX,
        auxiliary_data.len() <= usize::MAX,
        can_be_merged(image, rela_dyn, rela_plt, auxiliary_data, auxiliary, old),
        0 <= k < rela_plt.size / 0x18,
    ensures
        ({
            let merged = materialize::spec_merge_relocations(
                image,
                rela_dyn,
                rela_plt,
                auxiliary_data,
                auxiliary,
                old,
            )->Ok_0;
            let p = rela_plt.offset as int;
            is_record(merged.rela_plt, k, image, record_at(p, k), symbol_at(image, p, k) as int)
        }),
{
    lemma_merged_sources(image, rela_dyn, rela_plt, auxiliary_data, auxiliary, old);
    let sources = sources_of(image, rela_dyn, rela_plt, auxiliary_data, auxiliary, old);
    lemma_kept_in_linkage(sources, false, k);
}

/// The relocations of the image, of the first and of the relative ones of the second auxiliary table
/// stand in the merged data table.
proof fn lemma_kept_in_data(sources: RelocationSources, which: int, k: int)
    requires
        sources.old_dyn.data.len() <= usize::MAX,
        sources.first.data.len() <= usize::MAX,
        sources.second.data.len() <= usize::MAX,
        sources.old_dyn.readable(),
        sources.first.readable(),
        sources.second.readable(),
        0 <= which <= 2,
        0 <= k,
        which == 0 ==> k < sources.old_dyn.count,
        which == 1 ==> k < sources.first.count,
        which == 2 ==> k < sources.second.count && type_at(
            sources.second.data,
            sources.second.offset as int,
            k,
        ) == 0x403,
    ensures
        ({
            let (d, f, s) = (sources.old_dyn, sources.first, sources.second);
            let d_rel = rank(d.data, d.offset as int, true, d.count as nat);
            let f_rel = rank(f.data, f.offset as int, true, f.count as nat);
            let s_rel = rank(s.data, s.offset as int, true, s.count as nat);
            let d_rest = rank(d.data, d.offset as int, false, d.count as nat);
            let model = if which == 0 {
                d
            } else if which == 1 {
                f
            } else {
                s
            };
            let relative = type_at(model.data, model.offset as int, k) == 0x403;
            let start = if which == 0 {
                if relative {
                    0int
                } else {
                    (d_rel + f_rel + s_rel) as int
                }
            } else if which == 1 {
                if relative {
                    d_rel as int
                } else {
                    (d_rel + f_rel + s_rel + d_rest) as int
                }
            } else {
                (d_rel + f_rel) as int
            };
            is_record(
                sources.merged().rela_dyn,
                start + rank(model.data, model.offset as int, relative, k as nat),
                model.data,
                record_at(model.offset as int, k),
                match model.remap {
                    None => symbol_at(model.data, model.offset as int, k) as int,
                    Some((old, _)) => new_number(
                        symbol_at(model.data, model.offset as int, k),
                        old,
                    ),
                },
            )
        }),
{
    let (rel, rest) = (KindFilter::Relative, KindFilter::NotRelative);
    let (d, f, s) = (sources.old_dyn, sources.first, sources.second);
    lemma_filtered_size(d, rel, true, d.count as nat);
    lemma_filtered_size(d, rest, false, d.count as nat);
    lemma_filtered_size(f, rel, true, f.count as nat);
    lemma_filtered_size(f, rest, false, f.count as nat);
    lemma_filtered_size(s, rel, true, s.count as nat);
    let t1 = d.encoded(rel, d.count as nat);
    let t2 = f.encoded(rel, f.count as nat);
    let t3 = s.encoded(rel, s.count as nat);
    let t4 = d.encoded(rest, d.count as nat);
    let t5 = f.encoded(rest, f.count as nat);
    let table = sources.merged().rela_dyn;
    assert(table == t1 + t2 + t3 + t4 + t5);
    let model = if which == 0 {
        d
    } else if which == 1 {
        f
    } else {
        s
    };
    let relative = type_at(model.data, model.offset as int, k) == 0x403;
    let filter = if relative {
        rel
    } else {
        rest
    };
    lemma_filtered(model, filter, relative, model.count as nat, k);
    let place = rank(model.data, model.offset as int, relative, k as nat);
    lemma_rank(model.data, model.offset as int, relative, k as nat, model.count as nat);
    let (before, piece, behind) = if which == 0 && relative {
        (Seq::<u8>::empty(), t1, t2 + t3 + t4 + t5)
    } else if which == 0 {
        (t1 + t2 + t3, t4, t5)
    } else if which == 1 && relative {
        (t1, t2, t3 + t4 + t5)
    } else if which == 1 {
        (t1 + t2 + t3 + t4, t5, Seq::<u8>::empty())
    } else {
        (t1 + t2, t3, t4 + t5)
    };
    assert(table =~= before + piece + behind);
    let p = before.len() / 0x18 + place;
    assert(before.len() % 0x18 == 0);
    assert(p * 0x18 == before.len() + place * 0x18);
    assert(table.subrange(p * 0x18, p * 0x18 + 0x18) =~= piece.subrange(
        place * 0x18,
        place * 0x18 + 0x18,
    ));
    assert(model.spec_relocation(k) is Ok);
    lemma_record_fields(table, p as int, model, k);
}

/// The linkage slots of the image and of the second auxiliary table stand in the merged linkage
/// table.
proof fn lemma_kept_in_linkage(sources: RelocationSources, auxiliary: bool, k: int)
    requires
        sources.old_plt.data.len() <= usize::MAX,
        sources.second.data.len() <= usize::MAX,
        sources.old_plt.readable(),
        sources.second.readable(),
        0 <= k,
        !auxiliary ==> k < sources.old_plt.count,
        auxiliary ==> k < sources.second.count && type_at(
            sources.second.data,
            sources.second.offset as int,
            k,
        ) != 0x403,
        forall|i: int|
            0 <= i < sources.second.count ==> KindFilter::JumpSlot.spec_takes(
                #[trigger] type_at(sources.second.data, sources.second.offset as int, i),
            ) == ((type_at(sources.second.data, sources.second.offset as int, i) == 0x403)
                == false),
    ensures
        ({
            let (p, s) = (sources.old_plt, sources.second);
            let model = if auxiliary {
                s
            } else {
                p
            };
            is_record(
                sources.merged().rela_plt,
                if auxiliary {
                    p.count + rank(s.data, s.offset as int, false, k as nat)
                } else {
                    k
                },
                model.data,
                record_at(model.offset as int, k),
                match model.remap {
                    None => symbol_at(model.data, model.offset as int, k) as int,
                    Some((old, _)) => new_number(
                        symbol_at(model.data, model.offset as int, k),
                        old,
                    ),
                },
            )
        }),
{
    let (p, s) = (sources.old_plt, sources.second);
    let t1 = p.encoded(KindFilter::Any, p.count as nat);
    let t2 = s.encoded(KindFilter::JumpSlot, s.count as nat);
    let table = sources.merged().rela_plt;
    relocation::lemma_encoded_size(p, KindFilter::Any, p.count as nat);
    lemma_all(p, p.count as nat);
    lemma_filtered_size(s, KindFilter::JumpSlot, false, s.count as nat);
    assert(table == t1 + t2);
    if auxiliary {
        lemma_filtered(s, KindFilter::JumpSlot, false, s.count as nat, k);
        let place = rank(s.data, s.offset as int, false, k as nat);
        lemma_rank(s.data, s.offset as int, false, k as nat, s.count as nat);
        let at = p.count + place;
        assert(at * 0x18 == t1.len() + place * 0x18);
        assert(table.subrange(at * 0x18, at * 0x18 + 0x18) =~= t2.subrange(
            place * 0x18,
            place * 0x18 + 0x18,
        ));
        assert(s.spec_relocation(k) is Ok);
        lemma_record_fields(table, at, s, k);
    } else {
        lemma_unfiltered(p, p.count as nat, k);
        assert(table.subrange(k * 0x18, k * 0x18 + 0x18) =~= t1.subrange(
            k * 0x18,
            k * 0x18 + 0x18,
        ));
        assert(p.spec_relocation(k) is Ok);
        lemma_record_fields(table, k, p, k);
    }
}

} // verus!
