//! The program and section tables of an AArch64 ELF64 image.

use super::error::{invalid, Error, Fault, Result, Utf8Stop};
use super::read;
use super::read::{
    checked_index, field_u32, field_u64, power_of_two, read_u16, read_u32, read_u64, slice,
    slice_u64, usize_from_u64,
};
use crate::bytes;
use crate::bytes::{bytes_of_u32, bytes_of_u64};
use crate::elf::error;
use crate::fold;
use vstd::prelude::*;

verus! {

/// Section type without file contents.
pub const SHT_NOBITS: u32 = 8;

/// Section type of a string table.
pub const SHT_STRTAB: u32 = 3;

/// Section type of the private payload.
pub const SHT_LOUSER: u32 = 0x8000_0000;

/// Section flag: occupies memory at run time.
pub const SHF_ALLOC: u64 = 2;

/// Program header type of a loadable segment.
pub const PT_LOAD: u32 = 1;

/// Program header type of a note.
pub const PT_NOTE: u32 = 4;

/// Program header type of the program header table itself.
pub const PT_PHDR: u32 = 6;

/// Segment flag: readable.
pub const PF_R: u32 = 4;

/// Size of one program header.
pub const PROGRAM_HEADER_SIZE: usize = 0x38;

/// One loadable segment.
#[derive(Debug, Clone, Copy, PartialEq, Eq, Structural)]
pub struct LoadSegment {
    pub offset: u64,
    pub virtual_address: u64,
    pub file_size: u64,
    pub memory_size: u64,
    pub flags: u32,
    pub alignment: u64,
}

/// One section header.
#[derive(Debug, Clone, Copy, PartialEq, Eq, Structural)]
pub struct SectionHeader {
    pub name: u32,
    pub section_type: u32,
    pub flags: u64,
    pub address: u64,
    pub offset: u64,
    pub size: u64,
    pub link: u32,
    pub info: u32,
    pub alignment: u64,
    pub entry_size: u64,
}

/// The section header stored at `at`.
pub open spec fn section_at(data: Seq<u8>, at: int) -> SectionHeader {
    SectionHeader {
        name: bytes::u32_at(data, at),
        section_type: bytes::u32_at(data, at + 4),
        flags: bytes::u64_at(data, at + 8),
        address: bytes::u64_at(data, at + 0x10),
        offset: bytes::u64_at(data, at + 0x18),
        size: bytes::u64_at(data, at + 0x20),
        link: bytes::u32_at(data, at + 0x28),
        info: bytes::u32_at(data, at + 0x2c),
        alignment: bytes::u64_at(data, at + 0x30),
        entry_size: bytes::u64_at(data, at + 0x38),
    }
}

/// Reading fields one after the other fails at the first one that leaves the buffer: `ends`
/// lists where each field starts and how long it is.
pub open spec fn first_unreadable(data: Seq<u8>, base: int, fields: Seq<(int, int)>) -> Option<
    Error,
>
    decreases fields.len(),
{
    if fields.len() == 0 {
        None
    } else {
        match first_unreadable(data, base, fields.drop_last()) {
            Some(e) => Some(e),
            None => match read::spec_slice(data, base + fields.last().0, fields.last().1) {
                Err(e) => Some(e),
                Ok(_) => None,
            },
        }
    }
}

impl SectionHeader {
    /// Size of one encoded section header.
    pub const SIZE: usize = 0x40;

    /// Places and sizes of the fields of a section header.
    pub open spec fn fields() -> Seq<(int, int)> {
        seq![
            (0int, 4int),
            (4int, 4int),
            (8int, 8int),
            (0x10int, 8int),
            (0x18int, 8int),
            (0x20int, 8int),
            (0x28int, 4int),
            (0x2cint, 4int),
            (0x30int, 8int),
            (0x38int, 8int),
        ]
    }

    /// The section header at `offset`, or why it cannot be read.
    pub open spec fn spec_parse(data: Seq<u8>, offset: int) -> Result<SectionHeader> {
        match first_unreadable(data, offset, Self::fields()) {
            Some(e) => Err(e),
            None => Ok(section_at(data, offset)),
        }
    }

    /// Reads the section header at `offset`.
    fn parse(data: &[u8], offset: usize) -> (result: Result<SectionHeader>)
        ensures
            result == Self::spec_parse(data@, offset as int),
    {
        proof {
            reveal_with_fuel(first_unreadable, 11);
        }
        Ok(
            SectionHeader {
                name: read_u32(data, offset)?,
                section_type: field_u32(data, offset, 4)?,
                flags: field_u64(data, offset, 8)?,
                address: field_u64(data, offset, 0x10)?,
                offset: field_u64(data, offset, 0x18)?,
                size: field_u64(data, offset, 0x20)?,
                link: field_u32(data, offset, 0x28)?,
                info: field_u32(data, offset, 0x2c)?,
                alignment: field_u64(data, offset, 0x30)?,
                entry_size: field_u64(data, offset, 0x38)?,
            },
        )
    }

    /// The bytes of the section header as they stand in a file.
    #[verifier::opaque]
    pub open spec fn spec_encode(self) -> Seq<u8> {
        bytes::u32_bytes(self.name) + bytes::u32_bytes(self.section_type) + bytes::u64_bytes(
            self.flags,
        ) + bytes::u64_bytes(self.address) + bytes::u64_bytes(self.offset) + bytes::u64_bytes(
            self.size,
        ) + bytes::u32_bytes(self.link) + bytes::u32_bytes(self.info) + bytes::u64_bytes(
            self.alignment,
        ) + bytes::u64_bytes(self.entry_size)
    }

    /// Encodes the section header.
    pub fn encode(self) -> (output: [u8; 0x40])
        ensures
            output@ == self.spec_encode(),
    {
        broadcast use bytes::group_bytes_len;

        let a = bytes_of_u32(self.name);
        let b = bytes_of_u32(self.section_type);
        let c = bytes_of_u64(self.flags);
        let d = bytes_of_u64(self.address);
        let e = bytes_of_u64(self.offset);
        let f = bytes_of_u64(self.size);
        let g = bytes_of_u32(self.link);
        let h = bytes_of_u32(self.info);
        let i = bytes_of_u64(self.alignment);
        let j = bytes_of_u64(self.entry_size);
        let output = [
            a[0], a[1], a[2], a[3],
            b[0], b[1], b[2], b[3],
            c[0], c[1], c[2], c[3], c[4], c[5], c[6], c[7],
            d[0], d[1], d[2], d[3], d[4], d[5], d[6], d[7],
            e[0], e[1], e[2], e[3], e[4], e[5], e[6], e[7],
            f[0], f[1], f[2], f[3], f[4], f[5], f[6], f[7],
            g[0], g[1], g[2], g[3],
            h[0], h[1], h[2], h[3],
            i[0], i[1], i[2], i[3], i[4], i[5], i[6], i[7],
            j[0], j[1], j[2], j[3], j[4], j[5], j[6], j[7],
        ];
        assert(output@ =~= self.spec_encode()) by {
            reveal(SectionHeader::spec_encode);
        }
        output
    }
}

/// A section header whose bytes are all there can be read.
pub proof fn lemma_section_readable(data: Seq<u8>, offset: int)
    requires
        0 <= offset,
        offset + 0x40 <= data.len() <= usize::MAX,
    ensures
        SectionHeader::spec_parse(data, offset) == Ok::<SectionHeader, Error>(
            section_at(data, offset),
        ),
{
    reveal_with_fuel(first_unreadable, 11);
}

/// The parts of ten fields laid end to end.
proof fn lemma_ten_parts(
    a: Seq<u8>,
    b: Seq<u8>,
    c: Seq<u8>,
    d: Seq<u8>,
    e: Seq<u8>,
    f: Seq<u8>,
    g: Seq<u8>,
    h: Seq<u8>,
    i: Seq<u8>,
    j: Seq<u8>,
)
    requires
        a.len() == 4,
        b.len() == 4,
        c.len() == 8,
        d.len() == 8,
        e.len() == 8,
        f.len() == 8,
        g.len() == 4,
        h.len() == 4,
        i.len() == 8,
        j.len() == 8,
    ensures
        ({
            let s = a + b + c + d + e + f + g + h + i + j;
            &&& s.len() == 0x40
            &&& s.subrange(0, 4) == a
            &&& s.subrange(4, 8) == b
            &&& s.subrange(8, 0x10) == c
            &&& s.subrange(0x10, 0x18) == d
            &&& s.subrange(0x18, 0x20) == e
            &&& s.subrange(0x20, 0x28) == f
            &&& s.subrange(0x28, 0x2c) == g
            &&& s.subrange(0x2c, 0x30) == h
            &&& s.subrange(0x30, 0x38) == i
            &&& s.subrange(0x38, 0x40) == j
        }),
{
    let s = a + b + c + d + e + f + g + h + i + j;
    assert(s.subrange(0, 4) =~= a);
    assert(s.subrange(4, 8) =~= b);
    assert(s.subrange(8, 0x10) =~= c);
    assert(s.subrange(0x10, 0x18) =~= d);
    assert(s.subrange(0x18, 0x20) =~= e);
    assert(s.subrange(0x20, 0x28) =~= f);
    assert(s.subrange(0x28, 0x2c) =~= g);
    assert(s.subrange(0x2c, 0x30) =~= h);
    assert(s.subrange(0x30, 0x38) =~= i);
    assert(s.subrange(0x38, 0x40) =~= j);
}

/// Decoding an encoded section header gives the section header back.
pub proof fn law_section_header_round_trip(header: SectionHeader)
    ensures
        header.spec_encode().len() == SectionHeader::SIZE,
        SectionHeader::spec_parse(header.spec_encode(), 0) == Ok::<SectionHeader, Error>(header),
{
    broadcast use bytes::group_bytes_len;

    reveal(SectionHeader::spec_encode);
    let s = header.spec_encode();
    lemma_ten_parts(
        bytes::u32_bytes(header.name),
        bytes::u32_bytes(header.section_type),
        bytes::u64_bytes(header.flags),
        bytes::u64_bytes(header.address),
        bytes::u64_bytes(header.offset),
        bytes::u64_bytes(header.size),
        bytes::u32_bytes(header.link),
        bytes::u32_bytes(header.info),
        bytes::u64_bytes(header.alignment),
        bytes::u64_bytes(header.entry_size),
    );
    assert(section_at(s, 0) == header) by {
        bytes::lemma_u32_spelled(s, 0, header.name);
        bytes::lemma_u32_spelled(s, 4, header.section_type);
        bytes::lemma_u64_spelled(s, 8, header.flags);
        bytes::lemma_u64_spelled(s, 0x10, header.address);
        bytes::lemma_u64_spelled(s, 0x18, header.offset);
        bytes::lemma_u64_spelled(s, 0x20, header.size);
        bytes::lemma_u32_spelled(s, 0x28, header.link);
        bytes::lemma_u32_spelled(s, 0x2c, header.info);
        bytes::lemma_u64_spelled(s, 0x30, header.alignment);
        bytes::lemma_u64_spelled(s, 0x38, header.entry_size);
    }
    lemma_section_readable(s, 0);
}

/// A section header that was read encodes to the bytes that it was read from.
pub proof fn law_section_header_encodes_its_bytes(data: Seq<u8>, offset: int)
    requires
        0 <= offset,
        SectionHeader::spec_parse(data, offset) is Ok,
    ensures
        offset + 0x40 <= data.len(),
        SectionHeader::spec_parse(data, offset)->Ok_0.spec_encode() == data.subrange(
            offset,
            offset + 0x40,
        ),
{
    broadcast use bytes::group_bytes_len;

    let header = section_at(data, offset);
    assert(offset + 0x40 <= data.len()) by {
        assert(SectionHeader::fields().last() == (0x38int, 8int));
    }
    bytes::lemma_u32_respelled(data, offset);
    bytes::lemma_u32_respelled(data, offset + 4);
    bytes::lemma_u64_respelled(data, offset + 8);
    bytes::lemma_u64_respelled(data, offset + 0x10);
    bytes::lemma_u64_respelled(data, offset + 0x18);
    bytes::lemma_u64_respelled(data, offset + 0x20);
    bytes::lemma_u32_respelled(data, offset + 0x28);
    bytes::lemma_u32_respelled(data, offset + 0x2c);
    bytes::lemma_u64_respelled(data, offset + 0x30);
    bytes::lemma_u64_respelled(data, offset + 0x38);
    assert(header.spec_encode() =~= data.subrange(offset, offset + 0x40)) by {
        reveal(SectionHeader::spec_encode);
        assert(data.subrange(offset, offset + 0x40) =~= data.subrange(offset, offset + 4)
            + data.subrange(offset + 4, offset + 8) + data.subrange(offset + 8, offset + 0x10)
            + data.subrange(offset + 0x10, offset + 0x18) + data.subrange(
            offset + 0x18,
            offset + 0x20,
        ) + data.subrange(offset + 0x20, offset + 0x28) + data.subrange(
            offset + 0x28,
            offset + 0x2c,
        ) + data.subrange(offset + 0x2c, offset + 0x30) + data.subrange(
            offset + 0x30,
            offset + 0x38,
        ) + data.subrange(offset + 0x38, offset + 0x40));
    }
}

/// The length of the longest part of the first `n` bytes that is UTF-8 and starts at the front.
pub open spec fn valid_prefix(data: Seq<u8>, n: nat) -> nat
    decreases n,
{
    if n == 0 || vstd::utf8::valid_utf8(data.take(n as int)) {
        n
    } else {
        valid_prefix(data, (n - 1) as nat)
    }
}

/// What `std::str::Utf8Error::error_len` gives for bytes that are not UTF-8: the length of the
/// invalid sequence behind the valid part, or nothing where the bytes end within a character.
pub uninterp spec fn utf8_error_len(data: Seq<u8>) -> Option<usize>;

/// Where bytes that are not UTF-8 stop being so.
pub open spec fn utf8_stop(data: Seq<u8>) -> Utf8Stop {
    Utf8Stop {
        valid_up_to: valid_prefix(data, data.len()) as usize,
        error_len: utf8_error_len(data),
    }
}

/// Validates bytes as UTF-8 with `std::str::from_utf8` and copies the text out, or what the error
/// holds. The claim: text comes back exactly when the bytes are valid UTF-8, and it is what they
/// decode to. Otherwise the error holds the largest index up to which the bytes are UTF-8, and the
/// length of the invalid sequence there; without a length, one to three bytes are left.
#[verifier::external_body]
pub(crate) fn utf8_text(data: &[u8]) -> (result: std::result::Result<String, Utf8Stop>)
    ensures
        result is Ok <==> vstd::utf8::valid_utf8(data@),
        result matches Ok(text) ==> text@ == vstd::utf8::decode_utf8(data@),
        result matches Err(stop) ==> stop.valid_up_to == valid_prefix(data@, data@.len()),
        result matches Err(stop) ==> stop.error_len == utf8_error_len(data@),
        result matches Err(stop) ==> match stop.error_len {
            Some(length) => stop.valid_up_to + length <= data@.len(),
            None => 1 <= data@.len() - stop.valid_up_to <= 3,
        },
{
    match std::str::from_utf8(data) {
        Ok(text) => Ok(text.to_owned()),
        Err(error) => Err(
            Utf8Stop { valid_up_to: error.valid_up_to(), error_len: error.error_len() },
        ),
    }
}

/// The tables of an ELF image.
#[derive(Debug, PartialEq, Eq)]
pub struct ElfLayout {
    pub entrypoint: u64,
    pub program_header_offset: usize,
    pub program_header_size: usize,
    pub program_header_count: usize,
    pub program_headers: Vec<LoadSegment>,
    pub section_headers: Vec<SectionHeader>,
    pub section_name_index: usize,
    pub private_section_index: usize,
}

impl Clone for ElfLayout {
    fn clone(&self) -> (copy: Self)
        ensures
            copy@ == self@,
    {
        let program_headers = self.program_headers.clone();
        let section_headers = self.section_headers.clone();
        assert(program_headers@ =~= self.program_headers@);
        assert(section_headers@ =~= self.section_headers@);
        ElfLayout {
            entrypoint: self.entrypoint,
            program_header_offset: self.program_header_offset,
            program_header_size: self.program_header_size,
            program_header_count: self.program_header_count,
            program_headers,
            section_headers,
            section_name_index: self.section_name_index,
            private_section_index: self.private_section_index,
        }
    }
}

/// The mathematical content of an [`ElfLayout`].
#[verifier::ext_equal]
pub struct LayoutModel {
    pub entrypoint: u64,
    pub program_header_offset: usize,
    pub program_header_size: usize,
    pub program_header_count: usize,
    pub program_headers: Seq<LoadSegment>,
    pub section_headers: Seq<SectionHeader>,
    pub section_name_index: usize,
    pub private_section_index: usize,
}

impl View for ElfLayout {
    type V = LayoutModel;

    open spec fn view(&self) -> LayoutModel {
        LayoutModel {
            entrypoint: self.entrypoint,
            program_header_offset: self.program_header_offset,
            program_header_size: self.program_header_size,
            program_header_count: self.program_header_count,
            program_headers: self.program_headers@,
            section_headers: self.section_headers@,
            section_name_index: self.section_name_index,
            private_section_index: self.private_section_index,
        }
    }
}

/// A layout result agrees with its mathematical counterpart.
pub open spec fn layout_agrees(result: Result<ElfLayout>, expected: Result<LayoutModel>) -> bool {
    match (result, expected) {
        (Ok(found), Ok(wanted)) => found@ == wanted,
        (Err(found), Err(wanted)) => found == wanted,
        _ => false,
    }
}

/// The texts of a vector of strings.
pub open spec fn texts(strings: Seq<String>) -> Seq<Seq<char>> {
    Seq::new(strings.len(), |i: int| strings[i]@)
}

/// A list of names agrees with its mathematical counterpart.
pub open spec fn names_agree(result: Result<Vec<String>>, expected: Result<Seq<Seq<char>>>) -> bool {
    match (result, expected) {
        (Ok(found), Ok(wanted)) => texts(found@) == wanted,
        (Err(found), Err(wanted)) => found == wanted,
        _ => false,
    }
}

/// The fields of the ELF file header that locate the tables.
#[derive(Clone, Copy)]
pub struct FileHeader {
    pub entrypoint: u64,
    pub program_header_offset: usize,
    pub section_header_offset: usize,
    pub program_header_size: u16,
    pub program_header_count: u16,
    pub section_header_size: u16,
    pub section_header_count: u16,
    pub section_name_index: u16,
}

/// The first bytes announce a little-endian ELF64 file.
pub open spec fn has_elf64_ident(data: Seq<u8>) -> bool {
    data[0] == 0x7f && data[1] == 0x45 && data[2] == 0x4c && data[3] == 0x46 && data[4] == 2
        && data[5] == 1
}

/// The file header of an AArch64 ELF64 image, or why there is none.
pub open spec fn spec_file_header(data: Seq<u8>) -> Result<FileHeader> {
    if data.len() < 6 {
        Err(Error::Invalid(Fault::ByteRange { offset: 0, end: 6 }))
    } else if !has_elf64_ident(data) {
        Err(error::fault("input is not a little-endian ELF64 file"))
    } else {
        match read::spec_read_u16(data, 0x12) {
            Err(e) => Err(e),
            Ok(machine) => if machine != super::AARCH64_MACHINE {
                Err(error::fault("input is not an AArch64 ELF"))
            } else {
                spec_table_fields(data)
            },
        }
    }
}

/// The table fields of the file header.
pub open spec fn spec_table_fields(data: Seq<u8>) -> Result<FileHeader> {
    match first_unreadable(data, 0, seq![(0x18int, 8int), (0x20int, 8int)]) {
        Some(e) => Err(e),
        None => match read::spec_usize_from_u64(
            bytes::u64_at(data, 0x20),
            "program header offset",
        ) {
            Err(e) => Err(e),
            Ok(program_header_offset) => match read::spec_read_u64(data, 0x28) {
                Err(e) => Err(e),
                Ok(raw_section_offset) => match read::spec_usize_from_u64(
                    raw_section_offset,
                    "section header offset",
                ) {
                    Err(e) => Err(e),
                    Ok(section_header_offset) => match first_unreadable(
                        data,
                        0,
                        seq![
                            (0x36int, 2int),
                            (0x38int, 2int),
                            (0x3aint, 2int),
                            (0x3cint, 2int),
                            (0x3eint, 2int),
                        ],
                    ) {
                        Some(e) => Err(e),
                        None => Ok(
                            FileHeader {
                                entrypoint: bytes::u64_at(data, 0x18),
                                program_header_offset,
                                section_header_offset,
                                program_header_size: bytes::u16_at(data, 0x36),
                                program_header_count: bytes::u16_at(data, 0x38),
                                section_header_size: bytes::u16_at(data, 0x3a),
                                section_header_count: bytes::u16_at(data, 0x3c),
                                section_name_index: bytes::u16_at(data, 0x3e),
                            },
                        ),
                    },
                },
            },
        },
    }
}

/// The loadable segment described by the program header at `at`.
pub open spec fn segment_at(data: Seq<u8>, at: int) -> LoadSegment {
    LoadSegment {
        offset: bytes::u64_at(data, at + 8),
        virtual_address: bytes::u64_at(data, at + 0x10),
        file_size: bytes::u64_at(data, at + 0x20),
        memory_size: bytes::u64_at(data, at + 0x28),
        flags: bytes::u32_at(data, at + 4),
        alignment: bytes::u64_at(data, at + 0x30),
    }
}

/// The fields of a program header in the order in which they are read.
pub open spec fn segment_fields() -> Seq<(int, int)> {
    seq![
        (4int, 4int),
        (8int, 8int),
        (0x10int, 8int),
        (0x20int, 8int),
        (0x28int, 8int),
        (0x30int, 8int),
    ]
}

/// The loadable segment of the program header at `at`, or why it is refused.
pub open spec fn spec_segment(data: Seq<u8>, at: int, index: int) -> Result<LoadSegment> {
    match first_unreadable(data, at, segment_fields()) {
        Some(e) => Err(e),
        None => {
            let segment = segment_at(data, at);
            if segment.offset + segment.file_size > u64::MAX {
                Err(Error::Invalid(Fault::LoadOverflow { index: index as usize }))
            } else if segment.offset + segment.file_size > data.len() {
                Err(Error::Invalid(Fault::LoadBeyondInput { index: index as usize }))
            } else {
                Ok(segment)
            }
        },
    }
}

/// Adds the segment of program header `index` when that header is loadable.
pub open spec fn load_step(data: Seq<u8>, table: int) -> spec_fn(Seq<LoadSegment>, int) -> Result<
    Seq<LoadSegment>,
> {
    |segments: Seq<LoadSegment>, index: int|
        match read::spec_checked_index(table, index, 0x38) {
            Err(e) => Err(e),
            Ok(at) => match read::spec_read_u32(data, at as int) {
                Err(e) => Err(e),
                Ok(kind) => if kind != PT_LOAD {
                    Ok(segments)
                } else {
                    match spec_segment(data, at as int, index) {
                        Err(e) => Err(e),
                        Ok(segment) => Ok(segments.push(segment)),
                    }
                },
            },
        }
}

/// Adds section header `index`.
pub open spec fn section_step(data: Seq<u8>, table: int) -> spec_fn(
    Seq<SectionHeader>,
    int,
) -> Result<Seq<SectionHeader>> {
    |sections: Seq<SectionHeader>, index: int|
        match read::spec_checked_index(table, index, 0x40) {
            Err(e) => Err(e),
            Ok(at) => match SectionHeader::spec_parse(data, at as int) {
                Err(e) => Err(e),
                Ok(section) => Ok(sections.push(section)),
            },
        }
}

/// Whether section `index` is a private payload.
pub open spec fn is_private(sections: Seq<SectionHeader>) -> spec_fn(int) -> bool {
    |index: int| sections[index].section_type == SHT_LOUSER
}

/// Where the private section stands; `usize::MAX` when there is none and none is required.
pub open spec fn spec_private_index(
    sections: Seq<SectionHeader>,
    require_private: bool,
) -> Result<usize> {
    let found = fold::matching(sections.len(), is_private(sections));
    if found.len() == 1 {
        Ok(found[0] as usize)
    } else if found.len() == 0 && !require_private {
        Ok(usize::MAX)
    } else if require_private {
        Err(Error::Invalid(Fault::NotOnePrivate { found: found.len() as usize }))
    } else {
        Err(Error::Invalid(Fault::SeveralPrivate { found: found.len() as usize }))
    }
}

/// The first position from `from` on that holds a zero byte, or the end of `s`.
pub open spec fn nul_position(s: Seq<u8>, from: int) -> int
    decreases s.len() - from,
{
    if from >= s.len() || s[from] == 0 {
        from
    } else {
        nul_position(s, from + 1)
    }
}

/// The NUL-terminated bytes of `s` from `from` on.
pub open spec fn c_string(s: Seq<u8>, from: int) -> Seq<u8> {
    s.subrange(from, nul_position(s, from))
}

/// The search for a zero byte stays inside the buffer and passes only nonzero bytes.
pub proof fn lemma_nul_position(s: Seq<u8>, from: int)
    requires
        0 <= from <= s.len(),
    ensures
        from <= nul_position(s, from) <= s.len(),
        nul_position(s, from) < s.len() ==> s[nul_position(s, from)] == 0,
        forall|i: int| from <= i < nul_position(s, from) ==> s[i] != 0,
    decreases s.len() - from,
{
    if from < s.len() && s[from] != 0 {
        lemma_nul_position(s, from + 1);
    }
}

/// Adds the name of section `index`.
pub open spec fn name_step(strings: Seq<u8>, sections: Seq<SectionHeader>) -> spec_fn(
    Seq<Seq<char>>,
    int,
) -> Result<Seq<Seq<char>>> {
    |names: Seq<Seq<char>>, index: int|
        {
            let offset = sections[index].name;
            if offset >= strings.len() {
                Err(
                    Error::Invalid(
                        Fault::NameOffset { index: index as usize, offset: offset as usize },
                    ),
                )
            } else if !vstd::utf8::valid_utf8(c_string(strings, offset as int)) {
                Err(
                    Error::Invalid(
                        Fault::NameNotUtf8 {
                            index: index as usize,
                            offset: offset as usize,
                            detail: utf8_stop(c_string(strings, offset as int)),
                        },
                    ),
                )
            } else if index == 0 && offset != 0 {
                Err(error::fault("ELF null section has a nonzero name offset"))
            } else {
                Ok(names.push(vstd::utf8::decode_utf8(c_string(strings, offset as int))))
            }
        }
}

/// Resolving names yields one name for each section that was visited.
proof fn lemma_names_counted(strings: Seq<u8>, sections: Seq<SectionHeader>, n: nat)
    ensures
        fold::try_fold(n, Seq::<Seq<char>>::empty(), name_step(strings, sections)) matches Ok(names)
            ==> names.len() == n,
    decreases n,
{
    if n > 0 {
        lemma_names_counted(strings, sections, (n - 1) as nat);
    }
}

/// Every section has one name.
pub proof fn lemma_one_name_each(layout: LayoutModel, data: Seq<u8>)
    ensures
        layout.spec_section_names(data) matches Ok(names) ==> names.len()
            == layout.section_headers.len(),
{
    if layout.spec_section_names(data) is Ok {
        let table = layout.section_headers[layout.section_name_index as int];
        let strings = read::spec_slice_u64(data, table.offset, table.size)->Ok_0;
        lemma_names_counted(strings, layout.section_headers, layout.section_headers.len());
    }
}

impl LayoutModel {
    /// Every section's name, resolved in the image's own section-name table.
    pub open spec fn spec_section_names(self, data: Seq<u8>) -> Result<Seq<Seq<char>>> {
        if self.section_name_index >= self.section_headers.len() {
            Err(error::fault("ELF section-name index is out of range"))
        } else {
            let table = self.section_headers[self.section_name_index as int];
            if table.section_type != SHT_STRTAB {
                Err(Error::Invalid(Fault::NameTableType { section_type: table.section_type }))
            } else {
                match read::spec_slice_u64(data, table.offset, table.size) {
                    Err(e) => Err(e),
                    Ok(strings) => if strings.len() == 0 || strings[0] != 0 {
                        Err(error::fault("ELF section-name table does not start with NUL"))
                    } else if strings.last() != 0 {
                        Err(error::fault("ELF section-name table is not NUL terminated"))
                    } else {
                        fold::try_fold(
                            self.section_headers.len(),
                            Seq::<Seq<char>>::empty(),
                            name_step(strings, self.section_headers),
                        )
                    },
                }
            }
        }
    }

    /// The tables of the image in `data`, or why it is refused.
    pub open spec fn spec_parse(data: Seq<u8>, require_private: bool) -> Result<LayoutModel> {
        match spec_file_header(data) {
            Err(e) => Err(e),
            Ok(header) => if header.program_header_size != 0x38 || header.section_header_size
                != 0x40 {
                Err(error::fault("unexpected ELF program/section header size"))
            } else {
                match fold::try_fold(
                    header.program_header_count as nat,
                    Seq::<LoadSegment>::empty(),
                    load_step(data, header.program_header_offset as int),
                ) {
                    Err(e) => Err(e),
                    Ok(segments) => if segments.len() == 0 {
                        Err(error::fault("input ELF contains no PT_LOAD segments"))
                    } else {
                        Self::spec_parse_sections(data, require_private, header, segments)
                    },
                }
            },
        }
    }

    /// The section part of [`LayoutModel::spec_parse`].
    pub open spec fn spec_parse_sections(
        data: Seq<u8>,
        require_private: bool,
        header: FileHeader,
        segments: Seq<LoadSegment>,
    ) -> Result<LayoutModel> {
        match fold::try_fold(
            header.section_header_count as nat,
            Seq::<SectionHeader>::empty(),
            section_step(data, header.section_header_offset as int),
        ) {
            Err(e) => Err(e),
            Ok(sections) => if header.section_name_index >= sections.len() {
                Err(error::fault("ELF section-name index is out of range"))
            } else {
                match spec_private_index(sections, require_private) {
                    Err(e) => Err(e),
                    Ok(private_section_index) => {
                        let layout = LayoutModel {
                            entrypoint: header.entrypoint,
                            program_header_offset: header.program_header_offset,
                            program_header_size: 0x38,
                            program_header_count: header.program_header_count as usize,
                            program_headers: segments,
                            section_headers: sections,
                            section_name_index: header.section_name_index as usize,
                            private_section_index,
                        };
                        match layout.spec_section_names(data) {
                            Err(e) => Err(e),
                            Ok(_) => Ok(layout),
                        }
                    },
                }
            },
        }
    }

    /// The private section.
    pub open spec fn spec_private_section(self) -> Result<SectionHeader> {
        if self.private_section_index < self.section_headers.len() {
            Ok(self.section_headers[self.private_section_index as int])
        } else {
            Err(error::fault("ELF has no private section"))
        }
    }

    /// Where segment `index` ends in memory.
    pub open spec fn memory_end(self) -> spec_fn(int) -> int {
        |index: int|
            self.program_headers[index].virtual_address + self.program_headers[index].memory_size
    }

    /// Where segment `index` ends in the file.
    pub open spec fn file_end(self) -> spec_fn(int) -> int {
        |index: int| self.program_headers[index].offset + self.program_headers[index].file_size
    }

    /// The end of the highest segment in memory.
    pub open spec fn spec_load_end(self) -> Result<u64> {
        let end = fold::largest(self.program_headers.len(), self.memory_end());
        if end > u64::MAX {
            Err(error::fault("PT_LOAD memory end overflow"))
        } else if self.program_headers.len() == 0 {
            Err(error::fault("ELF has no PT_LOAD memory range"))
        } else {
            Ok(end as u64)
        }
    }

    /// The end of the last segment in the file.
    pub open spec fn spec_file_load_end(self) -> Result<u64> {
        let end = fold::largest(self.program_headers.len(), self.file_end());
        if end > u64::MAX {
            Err(error::fault("PT_LOAD file end overflow"))
        } else if self.program_headers.len() == 0 {
            Err(error::fault("ELF has no PT_LOAD file range"))
        } else {
            Ok(end as u64)
        }
    }

    /// The largest segment alignment.
    pub open spec fn spec_load_alignment(self) -> Result<u64> {
        let alignment = fold::largest(
            self.program_headers.len(),
            |index: int| self.program_headers[index].alignment as int,
        );
        if self.program_headers.len() == 0 {
            Err(error::fault("ELF has no PT_LOAD alignment"))
        } else if !read::is_power_of_two(alignment as nat) {
            Err(Error::Invalid(Fault::LoadAlignment { alignment: alignment as u64 }))
        } else {
            Ok(alignment as u64)
        }
    }

    /// The memory address of the file range `offset..end`, looked up in the segments from `index`
    /// on.
    pub open spec fn spec_address_from(self, offset: u64, end: int, index: int) -> Result<u64>
        decreases self.program_headers.len() - index,
    {
        if index >= self.program_headers.len() {
            Err(Error::Invalid(Fault::NotInLoad { start: offset, stop: end as u64 }))
        } else {
            let segment = self.program_headers[index];
            if segment.offset + segment.file_size > u64::MAX {
                Err(error::fault("PT_LOAD file range overflow"))
            } else if segment.offset <= offset && end <= segment.offset + segment.file_size {
                if segment.virtual_address + (offset - segment.offset) > u64::MAX {
                    Err(error::fault("virtual address overflow"))
                } else {
                    Ok((segment.virtual_address + (offset - segment.offset)) as u64)
                }
            } else {
                self.spec_address_from(offset, end, index + 1)
            }
        }
    }

    /// The memory address of `size` file bytes at `offset`.
    pub open spec fn spec_file_offset_to_virtual_address(self, offset: u64, size: u64) -> Result<
        u64,
    > {
        if offset + size > u64::MAX {
            Err(error::fault("file range overflow"))
        } else {
            self.spec_address_from(offset, offset + size, 0)
        }
    }
}

/// Reads the file header of an AArch64 ELF64 image.
fn read_file_header(data: &[u8]) -> (result: Result<FileHeader>)
    ensures
        result == spec_file_header(data@),
{
    proof {
        reveal_with_fuel(first_unreadable, 6);
    }
    let ident = slice(data, 0, 6)?;
    if ident[0] != 0x7f || ident[1] != 0x45 || ident[2] != 0x4c || ident[3] != 0x46 || ident[4] != 2
        || ident[5] != 1 {
        return invalid(Fault::Text("input is not a little-endian ELF64 file"));
    }
    if read_u16(data, 0x12)? != super::AARCH64_MACHINE {
        return invalid(Fault::Text("input is not an AArch64 ELF"));
    }
    let entrypoint = read_u64(data, 0x18)?;
    let program_header_offset = usize_from_u64(read_u64(data, 0x20)?, "program header offset")?;
    let section_header_offset = usize_from_u64(read_u64(data, 0x28)?, "section header offset")?;
    let program_header_size = read_u16(data, 0x36)?;
    let program_header_count = read_u16(data, 0x38)?;
    let section_header_size = read_u16(data, 0x3a)?;
    let section_header_count = read_u16(data, 0x3c)?;
    let section_name_index = read_u16(data, 0x3e)?;
    Ok(
        FileHeader {
            entrypoint,
            program_header_offset,
            section_header_offset,
            program_header_size,
            program_header_count,
            section_header_size,
            section_header_count,
            section_name_index,
        },
    )
}

/// Reads the loadable segment of the program header at `at`.
fn read_segment(data: &[u8], at: usize, index: usize) -> (result: Result<LoadSegment>)
    ensures
        result == spec_segment(data@, at as int, index as int),
{
    proof {
        reveal_with_fuel(first_unreadable, 7);
    }
    let flags = field_u32(data, at, 4)?;
    let offset = field_u64(data, at, 8)?;
    let virtual_address = field_u64(data, at, 0x10)?;
    let file_size = field_u64(data, at, 0x20)?;
    let memory_size = field_u64(data, at, 0x28)?;
    let alignment = field_u64(data, at, 0x30)?;
    let file_end = match offset.checked_add(file_size) {
        Some(file_end) => file_end,
        None => return invalid(Fault::LoadOverflow { index }),
    };
    if file_end > data.len() as u64 {
        return invalid(Fault::LoadBeyondInput { index });
    }
    Ok(LoadSegment { offset, virtual_address, file_size, memory_size, flags, alignment })
}

/// Reads the loadable segments of a program header table.
fn read_segments(data: &[u8], table: usize, count: usize) -> (result: Result<Vec<LoadSegment>>)
    ensures
        match (
            result,
            fold::try_fold(
                count as nat,
                Seq::<LoadSegment>::empty(),
                load_step(data@, table as int),
            ),
        ) {
            (Ok(found), Ok(wanted)) => found@ == wanted,
            (Err(found), Err(wanted)) => found == wanted,
            _ => false,
        },
{
    let ghost step = load_step(data@, table as int);
    let ghost none = Seq::<LoadSegment>::empty();
    let mut segments: Vec<LoadSegment> = Vec::new();
    let mut index: usize = 0;
    while index < count
        invariant
            index <= count,
            step == load_step(data@, table as int),
            none == Seq::<LoadSegment>::empty(),
            fold::try_fold(index as nat, none, step) == Ok::<Seq<LoadSegment>, Error>(segments@),
        decreases count - index,
    {
        proof {
            if fold::try_fold((index + 1) as nat, none, step) is Err {
                fold::lemma_failure_stays((index + 1) as nat, count as nat, none, step);
            }
        }
        let at = checked_index(table, index, PROGRAM_HEADER_SIZE)?;
        if read_u32(data, at)? == PT_LOAD {
            segments.push(read_segment(data, at, index)?);
        }
        index += 1;
    }
    Ok(segments)
}

/// Reads a section header table.
fn read_sections(data: &[u8], table: usize, count: usize) -> (result: Result<Vec<SectionHeader>>)
    ensures
        match (
            result,
            fold::try_fold(
                count as nat,
                Seq::<SectionHeader>::empty(),
                section_step(data@, table as int),
            ),
        ) {
            (Ok(found), Ok(wanted)) => found@ == wanted,
            (Err(found), Err(wanted)) => found == wanted,
            _ => false,
        },
{
    let ghost step = section_step(data@, table as int);
    let ghost none = Seq::<SectionHeader>::empty();
    let mut sections: Vec<SectionHeader> = Vec::with_capacity(count);
    let mut index: usize = 0;
    while index < count
        invariant
            index <= count,
            step == section_step(data@, table as int),
            none == Seq::<SectionHeader>::empty(),
            fold::try_fold(index as nat, none, step) == Ok::<Seq<SectionHeader>, Error>(sections@),
        decreases count - index,
    {
        proof {
            if fold::try_fold((index + 1) as nat, none, step) is Err {
                fold::lemma_failure_stays((index + 1) as nat, count as nat, none, step);
            }
        }
        let at = checked_index(table, index, SectionHeader::SIZE)?;
        sections.push(SectionHeader::parse(data, at)?);
        index += 1;
    }
    Ok(sections)
}

/// Finds the private section.
fn find_private(sections: &[SectionHeader], require_private: bool) -> (result: Result<usize>)
    ensures
        result == spec_private_index(sections@, require_private),
{
    let ghost keep = is_private(sections@);
    let mut found: usize = 0;
    let mut first: usize = 0;
    let mut index: usize = 0;
    while index < sections.len()
        invariant
            index <= sections@.len(),
            keep == is_private(sections@),
            found <= index,
            found == fold::matching(index as nat, keep).len(),
            found > 0 ==> first == fold::matching(index as nat, keep)[0],
        decreases sections@.len() - index,
    {
        if sections[index].section_type == SHT_LOUSER {
            if found == 0 {
                first = index;
            }
            found += 1;
        }
        index += 1;
    }
    if found == 1 {
        Ok(first)
    } else if found == 0 && !require_private {
        Ok(usize::MAX)
    } else if require_private {
        invalid(Fault::NotOnePrivate { found })
    } else {
        invalid(Fault::SeveralPrivate { found })
    }
}

/// The position of the first zero byte of `data` from `from` on, or the length of `data`.
pub(crate) fn find_nul(data: &[u8], from: usize) -> (position: usize)
    requires
        from <= data@.len(),
    ensures
        position == nul_position(data@, from as int),
        from <= position <= data@.len(),
{
    let mut position: usize = from;
    while position < data.len() && data[position] != 0
        invariant
            from <= position <= data@.len(),
            nul_position(data@, from as int) == nul_position(data@, position as int),
        decreases data@.len() - position,
    {
        position += 1;
    }
    position
}

impl ElfLayout {
    /// Reads and checks the tables of an AArch64 ELF64 image.
    pub fn parse(data: &[u8], require_private: bool) -> (result: Result<ElfLayout>)
        ensures
            layout_agrees(result, LayoutModel::spec_parse(data@, require_private)),
    {
        let header = read_file_header(data)?;
        if header.program_header_size != 0x38 || header.section_header_size != 0x40 {
            return invalid(Fault::Text("unexpected ELF program/section header size"));
        }
        let program_headers = read_segments(
            data,
            header.program_header_offset,
            header.program_header_count as usize,
        )?;
        if program_headers.len() == 0 {
            return invalid(Fault::Text("input ELF contains no PT_LOAD segments"));
        }
        let section_headers = read_sections(
            data,
            header.section_header_offset,
            header.section_header_count as usize,
        )?;
        if header.section_name_index as usize >= section_headers.len() {
            return invalid(Fault::Text("ELF section-name index is out of range"));
        }
        let private_section_index = find_private(&section_headers, require_private)?;
        let layout = ElfLayout {
            entrypoint: header.entrypoint,
            program_header_offset: header.program_header_offset,
            program_header_size: PROGRAM_HEADER_SIZE,
            program_header_count: header.program_header_count as usize,
            program_headers,
            section_headers,
            section_name_index: header.section_name_index as usize,
            private_section_index,
        };
        let _ = layout.section_names(data)?;
        Ok(layout)
    }

    /// The private section.
    pub fn private_section(&self) -> (result: Result<SectionHeader>)
        ensures
            result == self@.spec_private_section(),
    {
        if self.private_section_index < self.section_headers.len() {
            Ok(self.section_headers[self.private_section_index])
        } else {
            invalid(Fault::Text("ELF has no private section"))
        }
    }

    /// The end of the highest segment in memory.
    pub fn load_end(&self) -> (result: Result<u64>)
        ensures
            result == self@.spec_load_end(),
    {
        let ghost model = self@;
        let mut end: u64 = 0;
        let mut index: usize = 0;
        while index < self.program_headers.len()
            invariant
                index <= self.program_headers@.len(),
                model == self@,
                end == fold::largest(index as nat, model.memory_end()),
            decreases self.program_headers@.len() - index,
        {
            let segment = self.program_headers[index];
            match segment.virtual_address.checked_add(segment.memory_size) {
                Some(segment_end) => {
                    if index == 0 || segment_end > end {
                        end = segment_end;
                    }
                },
                None => {
                    proof {
                        fold::lemma_largest(model.program_headers.len(), model.memory_end());
                        assert((model.memory_end())(index as int) > u64::MAX);
                    }
                    return invalid(Fault::Text("PT_LOAD memory end overflow"));
                },
            }
            index += 1;
        }
        if index == 0 {
            return invalid(Fault::Text("ELF has no PT_LOAD memory range"));
        }
        Ok(end)
    }

    /// The end of the last segment in the file.
    pub fn file_load_end(&self) -> (result: Result<u64>)
        ensures
            result == self@.spec_file_load_end(),
    {
        let ghost model = self@;
        let mut end: u64 = 0;
        let mut index: usize = 0;
        while index < self.program_headers.len()
            invariant
                index <= self.program_headers@.len(),
                model == self@,
                end == fold::largest(index as nat, model.file_end()),
            decreases self.program_headers@.len() - index,
        {
            let segment = self.program_headers[index];
            match segment.offset.checked_add(segment.file_size) {
                Some(segment_end) => {
                    if index == 0 || segment_end > end {
                        end = segment_end;
                    }
                },
                None => {
                    proof {
                        fold::lemma_largest(model.program_headers.len(), model.file_end());
                        assert((model.file_end())(index as int) > u64::MAX);
                    }
                    return invalid(Fault::Text("PT_LOAD file end overflow"));
                },
            }
            index += 1;
        }
        if index == 0 {
            return invalid(Fault::Text("ELF has no PT_LOAD file range"));
        }
        Ok(end)
    }

    /// The largest segment alignment.
    pub fn load_alignment(&self) -> (result: Result<u64>)
        ensures
            result == self@.spec_load_alignment(),
    {
        let ghost value = |index: int| self@.program_headers[index].alignment as int;
        let mut alignment: u64 = 0;
        let mut index: usize = 0;
        while index < self.program_headers.len()
            invariant
                index <= self.program_headers@.len(),
                value == (|index: int| self@.program_headers[index].alignment as int),
                alignment == fold::largest(index as nat, value),
            decreases self.program_headers@.len() - index,
        {
            let next = self.program_headers[index].alignment;
            if index == 0 || next > alignment {
                alignment = next;
            }
            index += 1;
        }
        if index == 0 {
            return invalid(Fault::Text("ELF has no PT_LOAD alignment"));
        }
        if !power_of_two(alignment) {
            return invalid(Fault::LoadAlignment { alignment });
        }
        Ok(alignment)
    }

    /// Resolves every section's name from the section-name table. A malformed reference into the
    /// table is an error.
    pub fn section_names(&self, data: &[u8]) -> (result: Result<Vec<String>>)
        ensures
            names_agree(result, self@.spec_section_names(data@)),
    {
        if self.section_name_index >= self.section_headers.len() {
            return invalid(Fault::Text("ELF section-name index is out of range"));
        }
        let table = self.section_headers[self.section_name_index];
        if table.section_type != SHT_STRTAB {
            return invalid(Fault::NameTableType { section_type: table.section_type });
        }
        let strings = slice_u64(data, table.offset, table.size)?;
        if strings.len() == 0 || strings[0] != 0 {
            return invalid(Fault::Text("ELF section-name table does not start with NUL"));
        }
        if strings[strings.len() - 1] != 0 {
            return invalid(Fault::Text("ELF section-name table is not NUL terminated"));
        }
        let count: usize = self.section_headers.len();
        let ghost step = name_step(strings@, self@.section_headers);
        let ghost none = Seq::<Seq<char>>::empty();
        let mut names: Vec<String> = Vec::with_capacity(count);
        assert(texts(names@) =~= none);
        let mut index: usize = 0;
        while index < count
            invariant
                index <= count,
                count == self.section_headers@.len(),
                step == name_step(strings@, self@.section_headers),
                none == Seq::<Seq<char>>::empty(),
                self@.spec_section_names(data@) == fold::try_fold(count as nat, none, step),
                fold::try_fold(index as nat, none, step) == Ok::<Seq<Seq<char>>, Error>(
                    texts(names@),
                ),
            decreases count - index,
        {
            proof {
                if fold::try_fold((index + 1) as nat, none, step) is Err {
                    fold::lemma_failure_stays((index + 1) as nat, count as nat, none, step);
                }
            }
            let section = self.section_headers[index];
            let offset = section.name as usize;
            if offset >= strings.len() {
                return invalid(Fault::NameOffset { index, offset });
            }
            let end = find_nul(strings, offset);
            let name = match utf8_text(&strings[offset..end]) {
                Ok(name) => name,
                Err(detail) => return invalid(Fault::NameNotUtf8 { index, offset, detail }),
            };
            if index == 0 && section.name != 0 {
                return invalid(Fault::Text("ELF null section has a nonzero name offset"));
            }
            let ghost before = names@;
            names.push(name);
            assert(texts(names@) =~= texts(before).push(name@));
            index += 1;
        }
        Ok(names)
    }

    /// The memory address of `size` file bytes at `offset`.
    pub fn file_offset_to_virtual_address(&self, offset: u64, size: u64) -> (result: Result<u64>)
        ensures
            result == self@.spec_file_offset_to_virtual_address(offset, size),
    {
        let end = match offset.checked_add(size) {
            Some(end) => end,
            None => return invalid(Fault::Text("file range overflow")),
        };
        let mut index: usize = 0;
        while index < self.program_headers.len()
            invariant
                index <= self.program_headers@.len(),
                offset + size == end,
                self@.spec_address_from(offset, end as int, 0) == self@.spec_address_from(
                    offset,
                    end as int,
                    index as int,
                ),
            decreases self.program_headers@.len() - index,
        {
            let segment = self.program_headers[index];
            let segment_end = match segment.offset.checked_add(segment.file_size) {
                Some(segment_end) => segment_end,
                None => return invalid(Fault::Text("PT_LOAD file range overflow")),
            };
            if segment.offset <= offset && end <= segment_end {
                return match segment.virtual_address.checked_add(offset - segment.offset) {
                    Some(address) => Ok(address),
                    None => invalid(Fault::Text("virtual address overflow")),
                };
            }
            index += 1;
        }
        invalid(Fault::NotInLoad { start: offset, stop: end })
    }
}

} // verus!
