//! The auxiliary image that carries what the protector took out of the dynamic tables.

use super::error::{invalid, Error, Fault, Result};
use crate::bytes;
use crate::bytes::{is_zero, load_u32};
use crate::elf::layout;
use crate::elf::layout::find_nul;
use crate::elf::read;
use crate::engine::error;
use vstd::prelude::*;

verus! {

/// The NUL-terminated string at `offset`, looked up in the first `limit` bytes of `data`.
pub open spec fn spec_read_c_string(data: Seq<u8>, offset: int, limit: int) -> Result<Seq<u8>> {
    if offset >= limit || limit > data.len() {
        Err(
            Error::Invalid(
                Fault::StringOffset { offset: offset as usize, limit: limit as usize },
            ),
        )
    } else if layout::nul_position(data.take(limit), offset) >= limit {
        Err(Error::Invalid(Fault::Unterminated { offset: offset as usize }))
    } else {
        Ok(layout::c_string(data.take(limit), offset))
    }
}

/// A bytes result agrees with its mathematical counterpart.
pub open spec fn bytes_agree(result: Result<&[u8]>, expected: Result<Seq<u8>>) -> bool {
    match (result, expected) {
        (Ok(found), Ok(wanted)) => found@ == wanted,
        (Err(found), Err(wanted)) => found == wanted,
        _ => false,
    }
}

/// Reads the NUL-terminated string at `offset` in the first `limit` bytes of `data`.
pub fn read_c_string(data: &[u8], offset: usize, limit: usize) -> (result: Result<&[u8]>)
    ensures
        bytes_agree(result, spec_read_c_string(data@, offset as int, limit as int)),
        result matches Ok(string) ==> offset + string@.len() < limit <= data@.len(),
{
    if offset >= limit || limit > data.len() {
        return invalid(Fault::StringOffset { offset, limit });
    }
    let table = &data[0..limit];
    assert(table@ =~= data@.take(limit as int));
    let end = find_nul(table, offset);
    if end >= limit {
        return invalid(Fault::Unterminated { offset });
    }
    let string = &table[offset..end];
    assert(string@ =~= layout::c_string(data@.take(limit as int), offset as int));
    Ok(string)
}

/// Where the tables of an auxiliary image are.
#[derive(Debug, Clone, Copy, PartialEq, Eq, Structural)]
pub struct AuxiliaryElfImage {
    pub dynstr_offset: u32,
    pub dynstr_size: u32,
    pub dynsym_offset: u32,
    pub dynsym_count: u32,
    pub relocation1_offset: u32,
    pub relocation1_count: u32,
    pub relocation2_offset: u32,
    pub relocation2_count: u32,
}

impl AuxiliaryElfImage {
    /// The table fields of an auxiliary image's header.
    pub open spec fn fields(data: Seq<u8>) -> AuxiliaryElfImage {
        AuxiliaryElfImage {
            dynstr_offset: bytes::u32_at(data, 16),
            dynstr_size: bytes::u32_at(data, 20),
            dynsym_offset: bytes::u32_at(data, 24),
            dynsym_count: bytes::u32_at(data, 28),
            relocation1_offset: bytes::u32_at(data, 32),
            relocation1_count: bytes::u32_at(data, 36),
            relocation2_offset: bytes::u32_at(data, 40),
            relocation2_count: bytes::u32_at(data, 44),
        }
    }

    /// End of the first relocation table.
    pub open spec fn relocation1_end(self) -> int {
        self.relocation1_offset + self.relocation1_count * 0x18
    }

    /// End of the second relocation table.
    pub open spec fn relocation2_end(self) -> int {
        self.relocation2_offset + self.relocation2_count * 0x18
    }

    /// End of the symbol table.
    pub open spec fn dynsym_end(self) -> int {
        self.dynsym_offset + self.dynsym_count * 0x18
    }

    /// End of the string table.
    pub open spec fn dynstr_end(self) -> int {
        self.dynstr_offset + self.dynstr_size
    }

    /// The tables follow each other: two relocation tables, each padded to 16 bytes, the symbol
    /// table and the string table, which ends the image of `size` bytes.
    pub open spec fn is_contiguous(self, size: int) -> bool {
        &&& read::aligned(self.relocation1_end(), 0x10) == self.relocation2_offset
        &&& read::aligned(self.relocation2_end(), 0x10) == self.dynsym_offset
        &&& self.dynsym_end() == self.dynstr_offset
        &&& self.dynstr_end() == size
    }

    /// The table fields of the header in `data`, or why it is refused.
    pub open spec fn spec_parse_header(data: Seq<u8>) -> Result<AuxiliaryElfImage> {
        let image = Self::fields(data);
        if data.len() < 0x40 {
            Err(error::fault("decoded auxiliary ELF image is truncated"))
        } else if bytes::u32_at(data, 4) != 0 || bytes::u32_at(data, 12) != 0 || bytes::u32_at(
            data,
            48,
        ) != 0 || bytes::u32_at(data, 52) != 0 || bytes::u32_at(data, 60) != 0 {
            Err(error::fault("unexpected nonzero auxiliary ELF header field"))
        } else if bytes::u32_at(data, 56) != 0xb7 {
            Err(
                Error::Invalid(
                    Fault::AuxiliaryMachine { found_machine: bytes::u32_at(data, 56) },
                ),
            )
        } else if image.dynsym_count == 0 {
            Err(error::fault("auxiliary dynamic symbol table has no null entry"))
        } else if image.relocation1_offset != 0x40 {
            Err(error::fault("auxiliary relocation table does not follow its header"))
        } else {
            Ok(image)
        }
    }

    /// The rules for the tables of the image in `data`.
    pub open spec fn spec_check(self, data: Seq<u8>) -> Result<()> {
        if !self.is_contiguous(data.len() as int) {
            Err(
                Error::Invalid(
                    Fault::AuxiliaryLayout {
                        rela1_end: self.relocation1_end() as u64,
                        rela2: self.relocation2_offset,
                        rela2_end: self.relocation2_end() as u64,
                        dynsym: self.dynsym_offset,
                        dynsym_end: self.dynsym_end() as u64,
                        dynstr: self.dynstr_offset,
                        dynstr_end: self.dynstr_end() as u64,
                        size: data.len() as usize,
                    },
                ),
            )
        } else if !bytes::all_zero(
            data.subrange(self.relocation1_end(), self.relocation2_offset as int),
        ) {
            Err(
                Error::Invalid(
                    Fault::AuxiliaryPadding {
                        start: self.relocation1_end() as u64,
                        stop: self.relocation2_offset as u64,
                    },
                ),
            )
        } else if !bytes::all_zero(
            data.subrange(self.relocation2_end(), self.dynsym_offset as int),
        ) {
            Err(
                Error::Invalid(
                    Fault::AuxiliaryPadding {
                        start: self.relocation2_end() as u64,
                        stop: self.dynsym_offset as u64,
                    },
                ),
            )
        } else if !bytes::all_zero(
            data.subrange(self.dynsym_offset as int, self.dynsym_offset + 0x18),
        ) {
            Err(error::fault("auxiliary dynamic symbol zero entry is not empty"))
        } else {
            Ok(())
        }
    }

    /// The tables of the auxiliary image in `data`, or why it is refused.
    pub open spec fn spec_parse(data: Seq<u8>) -> Result<AuxiliaryElfImage> {
        match Self::spec_parse_header(data) {
            Err(e) => Err(e),
            Ok(image) => match image.spec_check(data) {
                Err(e) => Err(e),
                Ok(_) => Ok(image),
            },
        }
    }

    /// Reads the header of an auxiliary image.
    fn parse_header(data: &[u8]) -> (result: Result<AuxiliaryElfImage>)
        ensures
            result == Self::spec_parse_header(data@),
    {
        if data.len() < 0x40 {
            return invalid(Fault::Text("decoded auxiliary ELF image is truncated"));
        }
        if load_u32(data, 4) != 0 || load_u32(data, 12) != 0 || load_u32(data, 48) != 0 || load_u32(
            data,
            52,
        ) != 0 || load_u32(data, 60) != 0 {
            return invalid(Fault::Text("unexpected nonzero auxiliary ELF header field"));
        }
        let found_machine = load_u32(data, 56);
        if found_machine != 0xb7 {
            return invalid(Fault::AuxiliaryMachine { found_machine });
        }
        let image = AuxiliaryElfImage {
            dynstr_offset: load_u32(data, 16),
            dynstr_size: load_u32(data, 20),
            dynsym_offset: load_u32(data, 24),
            dynsym_count: load_u32(data, 28),
            relocation1_offset: load_u32(data, 32),
            relocation1_count: load_u32(data, 36),
            relocation2_offset: load_u32(data, 40),
            relocation2_count: load_u32(data, 44),
        };
        if image.dynsym_count == 0 {
            return invalid(Fault::Text("auxiliary dynamic symbol table has no null entry"));
        }
        if image.relocation1_offset != 0x40 {
            return invalid(Fault::Text("auxiliary relocation table does not follow its header"));
        }
        Ok(image)
    }

    /// Checks the tables of an auxiliary image.
    fn check(&self, data: &[u8]) -> (result: Result<()>)
        requires
            self.dynsym_count > 0,
        ensures
            result == self.spec_check(data@),
            result is Ok ==> self.is_contiguous(data@.len() as int),
    {
        let size: usize = data.len();
        let rela1_end: u64 = self.relocation1_offset as u64 + self.relocation1_count as u64 * 0x18;
        let rela2_end: u64 = self.relocation2_offset as u64 + self.relocation2_count as u64 * 0x18;
        let dynsym_end: u64 = self.dynsym_offset as u64 + self.dynsym_count as u64 * 0x18;
        let dynstr_end: u64 = self.dynstr_offset as u64 + self.dynstr_size as u64;
        let expected_rela2: u64 = (rela1_end + 15) / 16 * 16;
        let expected_dynsym: u64 = (rela2_end + 15) / 16 * 16;
        assert(expected_rela2 == read::aligned(rela1_end as int, 0x10));
        assert(expected_dynsym == read::aligned(rela2_end as int, 0x10));
        if expected_rela2 != self.relocation2_offset as u64 || expected_dynsym
            != self.dynsym_offset as u64 || dynsym_end != self.dynstr_offset as u64 || dynstr_end
            != size as u64 {
            return invalid(
                Fault::AuxiliaryLayout {
                    rela1_end,
                    rela2: self.relocation2_offset,
                    rela2_end,
                    dynsym: self.dynsym_offset,
                    dynsym_end,
                    dynstr: self.dynstr_offset,
                    dynstr_end,
                    size,
                },
            );
        }
        if !is_zero(&data[rela1_end as usize..expected_rela2 as usize]) {
            return invalid(Fault::AuxiliaryPadding { start: rela1_end, stop: expected_rela2 });
        }
        if !is_zero(&data[rela2_end as usize..expected_dynsym as usize]) {
            return invalid(Fault::AuxiliaryPadding { start: rela2_end, stop: expected_dynsym });
        }
        let dynsym = self.dynsym_offset as usize;
        if !is_zero(&data[dynsym..dynsym + 0x18]) {
            return invalid(Fault::Text("auxiliary dynamic symbol zero entry is not empty"));
        }
        Ok(())
    }

    /// Reads and checks the tables of an auxiliary image.
    pub fn parse(data: &[u8]) -> (result: Result<AuxiliaryElfImage>)
        ensures
            result == Self::spec_parse(data@),
            result matches Ok(image) ==> image.is_contiguous(data@.len() as int)
                && image.dynsym_count > 0 && image.relocation1_offset == 0x40,
    {
        let image = Self::parse_header(data)?;
        image.check(data)?;
        Ok(image)
    }
}

} // verus!
