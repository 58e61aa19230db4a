//! Relocation tables.

use super::error::{invalid, lift, Error, Fault, Result};
use crate::bytes;
use crate::bytes::{bytes_of_u64, extend, unsigned64};
use crate::elf::layout;
use crate::elf::read::field_u64;
use crate::elf::{
    read_i64, read_u64, R_AARCH64_ABS64, R_AARCH64_GLOB_DAT, R_AARCH64_JUMP_SLOT,
    R_AARCH64_RELATIVE,
};
use crate::engine::error;
use crate::fold;
use vstd::prelude::*;

verus! {

/// One relocation with addend.
#[derive(Debug, Clone, Copy, PartialEq, Eq, Structural)]
pub struct Rela {
    pub offset: u64,
    pub info: u64,
    pub addend: i64,
}

impl Rela {
    /// The relocation at `at`, or why it cannot be read.
    pub open spec fn spec_parse(data: Seq<u8>, at: int) -> Result<Rela> {
        match layout::first_unreadable(
            data,
            at,
            seq![(0int, 8int), (8int, 8int), (0x10int, 8int)],
        ) {
            Some(e) => Err(Error::Elf(e)),
            None => Ok(
                Rela {
                    offset: bytes::u64_at(data, at),
                    info: bytes::u64_at(data, at + 8),
                    addend: bytes::i64_at(data, at + 0x10),
                },
            ),
        }
    }

    /// Reads the relocation at `at`.
    pub fn parse(data: &[u8], at: usize) -> (result: Result<Rela>)
        ensures
            result == Self::spec_parse(data@, at as int),
    {
        proof {
            reveal_with_fuel(layout::first_unreadable, 4);
        }
        let offset = lift(read_u64(data, at))?;
        let info = lift(field_u64(data, at, 8))?;
        let addend = match at.checked_add(0x10) {
            Some(place) => lift(read_i64(data, place))?,
            None => return Err(
                Error::Elf(crate::elf::Error::Invalid(crate::elf::Fault::Text("byte range overflow"))),
            ),
        };
        Ok(Rela { offset, info, addend })
    }

    /// The relocation's type.
    pub open spec fn spec_kind(self) -> u32 {
        (self.info % 0x1_0000_0000) as u32
    }

    /// The relocation's type.
    pub fn kind(self) -> (kind: u32)
        ensures
            kind == self.spec_kind(),
    {
        (self.info % 0x1_0000_0000) as u32
    }

    /// The relocation's symbol.
    pub open spec fn spec_symbol(self) -> u64 {
        (self.info / 0x1_0000_0000) as u64
    }

    /// The relocation's symbol.
    pub fn symbol(self) -> (symbol: u64)
        ensures
            symbol == self.spec_symbol(),
    {
        self.info / 0x1_0000_0000
    }

    /// The bytes of the relocation as they stand in a table.
    pub open spec fn spec_encode(self) -> Seq<u8> {
        bytes::u64_bytes(self.offset) + bytes::u64_bytes(self.info) + bytes::u64_bytes(
            bytes::as_unsigned64(self.addend),
        )
    }

    /// Appends the bytes of the relocation to `output`.
    pub fn encode(self, output: &mut Vec<u8>)
        ensures
            final(output)@ == old(output)@ + self.spec_encode(),
    {
        broadcast use bytes::group_bytes_len;

        let ghost before = output@;
        extend(output, &bytes_of_u64(self.offset));
        extend(output, &bytes_of_u64(self.info));
        extend(output, &bytes_of_u64(unsigned64(self.addend)));
        assert(output@ =~= before + self.spec_encode());
    }
}

/// Decoding an encoded relocation gives the relocation back.
pub proof fn law_relocation_round_trip(relocation: Rela)
    ensures
        relocation.spec_encode().len() == 0x18,
        Rela::spec_parse(relocation.spec_encode(), 0) == Ok::<Rela, Error>(relocation),
{
    broadcast use bytes::group_bytes_len;

    reveal_with_fuel(layout::first_unreadable, 4);
    let s = relocation.spec_encode();
    let addend = bytes::as_unsigned64(relocation.addend);
    assert(s.subrange(0, 8) =~= bytes::u64_bytes(relocation.offset));
    assert(s.subrange(8, 0x10) =~= bytes::u64_bytes(relocation.info));
    assert(s.subrange(0x10, 0x18) =~= bytes::u64_bytes(addend));
    bytes::lemma_u64_spelled(s, 0, relocation.offset);
    bytes::lemma_u64_spelled(s, 8, relocation.info);
    bytes::lemma_u64_spelled(s, 0x10, addend);
    bytes::lemma_signed64_round_trip(relocation.addend);
}

/// Which relocations of a table are taken.
#[derive(Debug, Clone, Copy, PartialEq, Eq, Structural)]
pub enum KindFilter {
    /// Those relative to the load base.
    Relative,
    /// All but those relative to the load base.
    NotRelative,
    /// Those for procedure linkage slots.
    JumpSlot,
    /// All.
    Any,
}

impl KindFilter {
    /// Whether a relocation of type `kind` is taken.
    pub open spec fn spec_takes(self, kind: u32) -> bool {
        match self {
            KindFilter::Relative => kind == R_AARCH64_RELATIVE,
            KindFilter::NotRelative => kind != R_AARCH64_RELATIVE,
            KindFilter::JumpSlot => kind == R_AARCH64_JUMP_SLOT,
            KindFilter::Any => true,
        }
    }

    /// Whether a relocation of type `kind` is taken.
    pub fn takes(self, kind: u32) -> (result: bool)
        ensures
            result == self.spec_takes(kind),
    {
        match self {
            KindFilter::Relative => kind == R_AARCH64_RELATIVE,
            KindFilter::NotRelative => kind != R_AARCH64_RELATIVE,
            KindFilter::JumpSlot => kind == R_AARCH64_JUMP_SLOT,
            KindFilter::Any => true,
        }
    }
}

/// Which types of relocations a table may hold.
#[derive(Debug, Clone, Copy, PartialEq, Eq, Structural)]
pub enum KindRule {
    /// Relative ones, global offset entries and absolute addresses.
    Data,
    /// Procedure linkage slots.
    Linkage,
    /// Relative ones and procedure linkage slots.
    RelativeOrLinkage,
}

impl KindRule {
    /// Whether a relocation of type `kind` is allowed.
    pub open spec fn spec_allows(self, kind: u32) -> bool {
        match self {
            KindRule::Data => kind == R_AARCH64_RELATIVE || kind == R_AARCH64_GLOB_DAT || kind
                == R_AARCH64_ABS64,
            KindRule::Linkage => kind == R_AARCH64_JUMP_SLOT,
            KindRule::RelativeOrLinkage => kind == R_AARCH64_RELATIVE || kind
                == R_AARCH64_JUMP_SLOT,
        }
    }

    /// Whether a relocation of type `kind` is allowed.
    pub fn allows(self, kind: u32) -> (result: bool)
        ensures
            result == self.spec_allows(kind),
    {
        match self {
            KindRule::Data => kind == R_AARCH64_RELATIVE || kind == R_AARCH64_GLOB_DAT || kind
                == R_AARCH64_ABS64,
            KindRule::Linkage => kind == R_AARCH64_JUMP_SLOT,
            KindRule::RelativeOrLinkage => kind == R_AARCH64_RELATIVE || kind
                == R_AARCH64_JUMP_SLOT,
        }
    }
}

/// A relocation table in a file, and how its symbols are renumbered.
#[derive(Clone, Copy)]
pub struct RelocationTable<'a> {
    pub data: &'a [u8],
    pub offset: usize,
    pub count: usize,
    /// Number of symbols in front of the appended ones, and number of auxiliary symbols.
    pub remap: Option<(usize, u32)>,
}

/// The mathematical content of a [`RelocationTable`].
pub struct TableModel {
    pub data: Seq<u8>,
    pub offset: usize,
    pub count: usize,
    pub remap: Option<(usize, u32)>,
}

/// `relocation` with its symbol renumbered from an auxiliary table with `auxiliary` symbols to the
/// place behind `old` symbols. The null symbol keeps its number.
pub open spec fn renumbered(relocation: Rela, old: usize, auxiliary: u32) -> Result<Rela> {
    let symbol = relocation.spec_symbol();
    if symbol >= auxiliary {
        Err(error::fault("auxiliary relocation references an invalid symbol"))
    } else if symbol == 0 {
        Ok(relocation)
    } else if old == 0 {
        Err(error::fault("old dynamic symbol table is empty"))
    } else if symbol + (old - 1) > u64::MAX {
        Err(error::fault("remapped symbol index overflow"))
    } else {
        Ok(
            Rela {
                info: ((symbol + (old - 1)) % 0x1_0000_0000 * 0x1_0000_0000
                    + relocation.spec_kind()) as u64,
                ..relocation
            },
        )
    }
}

impl TableModel {
    /// Relocation `index` of the table, or why it cannot be had.
    #[verifier::opaque]
    pub open spec fn spec_relocation(self, index: int) -> Result<Rela> {
        if index >= self.count {
            Err(error::fault("relocation index is out of range"))
        } else if index * 0x18 > usize::MAX {
            Err(error::fault("relocation index overflow"))
        } else if self.offset + index * 0x18 > usize::MAX {
            Err(error::fault("relocation offset overflow"))
        } else {
            match Rela::spec_parse(self.data, self.offset + index * 0x18) {
                Err(e) => Err(e),
                Ok(relocation) => match self.remap {
                    None => Ok(relocation),
                    Some((old, auxiliary)) => renumbered(relocation, old, auxiliary),
                },
            }
        }
    }

    /// Checks relocation `index`.
    pub open spec fn validate_step(self, rule: KindRule, table: &'static str) -> spec_fn(
        (),
        int,
    ) -> Result<()> {
        |state: (), index: int|
            match self.spec_relocation(index) {
                Err(e) => Err(e),
                Ok(relocation) => if rule.spec_allows(relocation.spec_kind()) {
                    Ok(())
                } else {
                    Err(
                        Error::Invalid(
                            Fault::RelocationKind { table, kind: relocation.spec_kind() },
                        ),
                    )
                },
            }
    }

    /// Every relocation can be had and is of an allowed type.
    pub open spec fn spec_validate(self, rule: KindRule, table: &'static str) -> Result<()> {
        fold::try_fold(self.count as nat, (), self.validate_step(rule, table))
    }

    /// Every relocation can be had.
    pub open spec fn readable(self) -> bool {
        forall|index: int| 0 <= index < self.count ==> #[trigger] self.spec_relocation(index) is Ok
    }

    /// Relocation `index` is the first that cannot be had.
    pub open spec fn stops_at(self, index: nat, error: Error) -> bool {
        &&& index < self.count
        &&& forall|k: int| 0 <= k < index ==> #[trigger] self.spec_relocation(k) is Ok
        &&& self.spec_relocation(index as int) == Err::<Rela, Error>(error)
    }

    /// `filter` takes relocation `index`.
    pub open spec fn takes_at(self, filter: KindFilter, index: int) -> bool {
        filter.spec_takes(self.spec_relocation(index)->Ok_0.spec_kind())
    }

    /// The relocations that `filter` takes.
    pub open spec fn taken(self, filter: KindFilter) -> spec_fn(int) -> bool {
        |index: int| self.takes_at(filter, index)
    }

    /// The encoded relocations that `filter` takes, in order, of the first `n`.
    pub open spec fn encoded(self, filter: KindFilter, n: nat) -> Seq<u8>
        decreases n,
    {
        if n == 0 {
            Seq::empty()
        } else if self.takes_at(filter, n - 1) {
            self.encoded(filter, (n - 1) as nat) + self.spec_relocation(
                n - 1,
            )->Ok_0.spec_encode()
        } else {
            self.encoded(filter, (n - 1) as nat)
        }
    }

    /// How many relocations `filter` takes.
    pub open spec fn taken_count(self, filter: KindFilter) -> nat {
        fold::matching(self.count as nat, self.taken(filter)).len()
    }
}

/// A table that passes the check can be read.
pub proof fn lemma_validated(model: TableModel, rule: KindRule, table: &'static str, n: nat)
    requires
        fold::try_fold(n, (), model.validate_step(rule, table)) is Ok,
    ensures
        forall|index: int| 0 <= index < n ==> #[trigger] model.spec_relocation(index) is Ok,
    decreases n,
{
    if n > 0 {
        lemma_validated(model, rule, table, (n - 1) as nat);
    }
}

/// The encoded relocations fill whole records.
pub proof fn lemma_encoded_size(model: TableModel, filter: KindFilter, n: nat)
    ensures
        model.encoded(filter, n).len() == fold::matching(n, model.taken(filter)).len() * 0x18,
        fold::matching(n, model.taken(filter)).len() <= n,
    decreases n,
{
    broadcast use bytes::group_bytes_len;

    if n > 0 {
        lemma_encoded_size(model, filter, (n - 1) as nat);
    }
}

impl<'a> View for RelocationTable<'a> {
    type V = TableModel;

    open spec fn view(&self) -> TableModel {
        TableModel {
            data: self.data@,
            offset: self.offset,
            count: self.count,
            remap: self.remap,
        }
    }
}

impl<'a> RelocationTable<'a> {
    /// Reads relocation `index`.
    pub fn relocation(&self, index: usize) -> (result: Result<Rela>)
        ensures
            result == self@.spec_relocation(index as int),
    {
        proof {
            reveal(TableModel::spec_relocation);
        }
        if index >= self.count {
            return invalid(Fault::Text("relocation index is out of range"));
        }
        let relative = match index.checked_mul(0x18) {
            Some(relative) => relative,
            None => return invalid(Fault::Text("relocation index overflow")),
        };
        let at = match self.offset.checked_add(relative) {
            Some(at) => at,
            None => return invalid(Fault::Text("relocation offset overflow")),
        };
        let relocation = Rela::parse(self.data, at)?;
        if let Some((old, auxiliary)) = self.remap {
            let symbol = relocation.symbol();
            if symbol >= auxiliary as u64 {
                return invalid(Fault::Text("auxiliary relocation references an invalid symbol"));
            }
            if symbol == 0 {
                return Ok(relocation);
            }
            if old == 0 {
                return invalid(Fault::Text("old dynamic symbol table is empty"));
            }
            let remapped = match symbol.checked_add((old - 1) as u64) {
                Some(remapped) => remapped,
                None => return invalid(Fault::Text("remapped symbol index overflow")),
            };
            let info: u64 = remapped % 0x1_0000_0000 * 0x1_0000_0000 + relocation.kind() as u64;
            return Ok(Rela { offset: relocation.offset, info, addend: relocation.addend });
        }
        Ok(relocation)
    }

    /// Checks that every relocation can be read and is of an allowed type. `table` names the table
    /// in the error.
    pub fn validate(&self, rule: KindRule, table: &'static str) -> (result: Result<()>)
        ensures
            result == self@.spec_validate(rule, table),
            result is Ok ==> self@.readable(),
    {
        let ghost step = self@.validate_step(rule, table);
        let mut index: usize = 0;
        while index < self.count
            invariant
                index <= self.count,
                step == self@.validate_step(rule, table),
                fold::try_fold(index as nat, (), step) == Ok::<(), Error>(()),
            decreases self.count - index,
        {
            proof {
                if fold::try_fold((index + 1) as nat, (), step) is Err {
                    fold::lemma_failure_stays((index + 1) as nat, self.count as nat, (), step);
                }
            }
            let kind = self.relocation(index)?.kind();
            if !rule.allows(kind) {
                return invalid(Fault::RelocationKind { table, kind });
            }
            index += 1;
        }
        proof {
            lemma_validated(self@, rule, table, self.count as nat);
        }
        Ok(())
    }

    /// Appends the encoded relocations that `filter` takes to `output`. Hands back how many there
    /// are, or stops at the first relocation that cannot be read.
    pub fn append_where(&self, output: &mut Vec<u8>, filter: KindFilter) -> (result: Result<usize>)
        ensures
            match result {
                Ok(count) => {
                    &&& self@.readable()
                    &&& final(output)@ == old(output)@ + self@.encoded(filter, self.count as nat)
                    &&& count == self@.taken_count(filter)
                },
                Err(e) => exists|index: nat| #[trigger]
                    self@.stops_at(index, e) && final(output)@ == old(output)@ + self@.encoded(
                        filter,
                        index,
                    ),
            },
    {
        let ghost before = output@;
        let ghost taken = self@.taken(filter);
        let mut count: usize = 0;
        let mut index: usize = 0;
        assert(output@ =~= before + self@.encoded(filter, 0));
        while index < self.count
            invariant
                index <= self.count,
                forall|k: int| 0 <= k < index ==> #[trigger] self@.spec_relocation(k) is Ok,
                taken == self@.taken(filter),
                count <= index,
                count == fold::matching(index as nat, taken).len(),
                output@ == before + self@.encoded(filter, index as nat),
                before == old(output)@,
            decreases self.count - index,
        {
            let relocation = match self.relocation(index) {
                Ok(relocation) => relocation,
                Err(e) => {
                    assert(self@.stops_at(index as nat, e));
                    return Err(e);
                },
            };
            if filter.takes(relocation.kind()) {
                relocation.encode(output);
                count += 1;
            }
            assert(output@ =~= before + self@.encoded(filter, (index + 1) as nat));
            index += 1;
        }
        Ok(count)
    }
}

/// Renumbering keeps a relocation's place, type and addend, and moves every symbol but the null
/// symbol behind the old ones, as long as the new number fits in 32 bits.
pub proof fn law_renumbering(relocation: Rela, old: usize, auxiliary: u32)
    requires
        renumbered(relocation, old, auxiliary) is Ok,
        relocation.spec_symbol() + old <= 0x1_0000_0000,
    ensures
        ({
            let renumbered = renumbered(relocation, old, auxiliary)->Ok_0;
            &&& renumbered.offset == relocation.offset
            &&& renumbered.addend == relocation.addend
            &&& renumbered.spec_kind() == relocation.spec_kind()
            &&& renumbered.spec_symbol() == if relocation.spec_symbol() == 0 {
                0
            } else {
                relocation.spec_symbol() + old - 1
            }
        }),
{
}

} // verus!
