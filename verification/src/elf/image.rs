//! What a general ELF parser reports of an image.

use super::error::{Error, Result};
use super::layout::PT_LOAD;
use super::AARCH64_MACHINE;
use crate::bytes;
use crate::fold;
use goblin::elf::{Elf, ProgramHeader, SectionHeader};
use vstd::prelude::*;

verus! {

/// A section as the parser reports it.
#[derive(Debug)]
pub struct ImageSection {
    /// The name in the section-name table, where there is one.
    pub name: Option<String>,
    pub section_type: u32,
    pub offset: u64,
    pub size: u64,
}

/// A program header as the parser reports it.
#[derive(Debug, Clone, Copy)]
pub struct ImageSegment {
    pub segment_type: u32,
    pub offset: u64,
    pub file_size: u64,
}

/// An image as the parser reports it.
#[derive(Debug)]
pub struct ElfImage {
    /// Word size of the image: 2 means 64 bits.
    pub class: u8,
    /// Byte order of the image: 1 means little-endian.
    pub encoding: u8,
    pub machine: u16,
    pub sections: Vec<ImageSection>,
    pub segments: Vec<ImageSegment>,
}

/// The mathematical content of an [`ImageSection`].
pub struct SectionModel {
    pub name: Option<Seq<char>>,
    pub section_type: u32,
    pub offset: u64,
    pub size: u64,
}

/// The mathematical content of an [`ElfImage`].
#[verifier::ext_equal]
pub struct ImageModel {
    pub class: u8,
    pub encoding: u8,
    pub machine: u16,
    pub sections: Seq<SectionModel>,
    pub segments: Seq<ImageSegment>,
}

impl View for ImageSection {
    type V = SectionModel;

    open spec fn view(&self) -> SectionModel {
        SectionModel {
            name: match self.name {
                Some(name) => Some(name@),
                None => None,
            },
            section_type: self.section_type,
            offset: self.offset,
            size: self.size,
        }
    }
}

impl View for ElfImage {
    type V = ImageModel;

    open spec fn view(&self) -> ImageModel {
        ImageModel {
            class: self.class,
            encoding: self.encoding,
            machine: self.machine,
            sections: self.sections@.map_values(|section: ImageSection| section@),
            segments: self.segments@,
        }
    }
}

/// What `goblin::elf::Elf::parse` reports of `data` on a machine whose words have `word_bits`
/// bits, or the message with which it fails.
pub uninterp spec fn parsed_elf(data: Seq<u8>, word_bits: u32) -> core::result::Result<
    ImageModel,
    Seq<char>,
>;

/// The first bytes of an ELF file agree with what was reported of its header.
pub open spec fn header_agrees(data: Seq<u8>, image: ImageModel) -> bool {
    &&& data.len() >= 0x34
    &&& data[0] == 0x7f && data[1] == 0x45 && data[2] == 0x4c && data[3] == 0x46
    &&& image.class == data[4]
    &&& image.encoding == data[5]
    &&& image.encoding == 1 ==> image.machine == bytes::u16_at(data, 18)
}

/// Parses an image with `goblin::elf::Elf::parse` and takes over the header fields, the sections
/// with their names (`Strtab::get_at` on the section-name table) and the program headers, or the
/// text that the error's `Display` gives. The claims: the outcome and the text depend on the bytes
/// and the machine's word size alone, and an image that parses starts with the ELF magic, its class
/// and byte order stand at 4 and 5, and in a little-endian image its machine stands at 18.
#[verifier::external_body]
fn parse_image(data: &[u8]) -> (result: core::result::Result<ElfImage, String>)
    ensures
        match (result, parsed_elf(data@, usize::BITS)) {
            (Ok(image), Ok(model)) => image@ == model && header_agrees(data@, model),
            (Err(found), Err(expected)) => found@ == expected,
            _ => false,
        },
{
    let elf = Elf::parse(data).map_err(|error| format!("{error}"))?;
    let section = |s: &SectionHeader| ImageSection {
        name: elf.shdr_strtab.get_at(s.sh_name).map(String::from),
        section_type: s.sh_type,
        offset: s.sh_offset,
        size: s.sh_size,
    };
    let segment = |p: &ProgramHeader| {
        ImageSegment { segment_type: p.p_type, offset: p.p_offset, file_size: p.p_filesz }
    };
    let (class, encoding) = (elf.header.e_ident[4], elf.header.e_ident[5]);
    let sections = elf.section_headers.iter().map(section).collect();
    let segments = elf.program_headers.iter().map(segment).collect();
    Ok(ElfImage { class, encoding, machine: elf.header.e_machine, sections, segments })
}

/// Why an image is not accepted: the parser failed with a message, or the image is of another kind.
pub enum Refusal {
    Parser(Seq<char>),
    NotElf64,
}

impl Refusal {
    /// `error` tells of this refusal.
    pub open spec fn is_told_by(self, error: Error) -> bool {
        match (self, error) {
            (Refusal::Parser(message), Error::Parse(found)) => found@ == message,
            (Refusal::NotElf64, Error::NotElf64) => true,
            _ => false,
        }
    }
}

/// An image result agrees with its mathematical counterpart.
pub open spec fn image_agrees(
    result: Result<ElfImage>,
    expected: core::result::Result<ImageModel, Refusal>,
) -> bool {
    match (result, expected) {
        (Ok(found), Ok(wanted)) => found@ == wanted,
        (Err(found), Err(wanted)) => wanted.is_told_by(found),
        _ => false,
    }
}

/// Of the images that parse, those with 64-bit words and little-endian byte order are accepted.
pub open spec fn spec_accept(
    parsed: core::result::Result<ImageModel, Seq<char>>,
) -> core::result::Result<ImageModel, Refusal> {
    match parsed {
        Err(message) => Err(Refusal::Parser(message)),
        Ok(image) => if image.class != 2 || image.encoding != 1 {
            Err(Refusal::NotElf64)
        } else {
            Ok(image)
        },
    }
}

/// The image in `data`, or why it is refused.
pub open spec fn spec_parse(data: Seq<u8>) -> core::result::Result<ImageModel, Refusal> {
    spec_accept(parsed_elf(data, usize::BITS))
}

/// The mathematical content of a parser's outcome.
pub open spec fn outcome_model(
    parsed: core::result::Result<ElfImage, String>,
) -> core::result::Result<ImageModel, Seq<char>> {
    match parsed {
        Ok(image) => Ok(image@),
        Err(message) => Err(message@),
    }
}

/// Accepts 64-bit little-endian images only.
pub fn accept(parsed: core::result::Result<ElfImage, String>) -> (result: Result<ElfImage>)
    ensures
        image_agrees(result, spec_accept(outcome_model(parsed))),
{
    match parsed {
        Err(message) => Err(Error::Parse(message)),
        Ok(image) => if image.class != 2 || image.encoding != 1 {
            Err(Error::NotElf64)
        } else {
            Ok(image)
        },
    }
}

/// Parses an ELF64 little-endian image.
pub fn parse(data: &[u8]) -> (result: Result<ElfImage>)
    ensures
        image_agrees(result, spec_parse(data@)),
        result matches Ok(image) ==> header_agrees(data@, image@) && image.class == 2
            && image.encoding == 1,
{
    accept(parse_image(data))
}

/// The parsed image, if there is one, is for AArch64.
pub open spec fn is_aarch64_image(parsed: core::result::Result<ImageModel, Refusal>) -> bool {
    parsed matches Ok(image) && image.machine == AARCH64_MACHINE
}

/// Whether `data` starts with a valid AArch64 ELF64 image. Such an image passes
/// [`is_aarch64_prefix`] too.
pub fn is_aarch64(data: &[u8]) -> (result: bool)
    ensures
        result == is_aarch64_image(spec_parse(data@)),
        result ==> spec_is_aarch64_prefix(data@),
{
    match parse(data) {
        Ok(image) => image.machine == AARCH64_MACHINE,
        Err(_) => false,
    }
}

/// The first bytes announce an AArch64 ELF64 little-endian file.
pub open spec fn spec_is_aarch64_prefix(data: Seq<u8>) -> bool {
    data.len() >= 20 && super::layout::has_elf64_ident(data) && bytes::u16_at(data, 18)
        == AARCH64_MACHINE
}

/// Whether a short prefix identifies an ELF64 little-endian AArch64 image. This looks at the
/// prefix only; callers that need structural guarantees use [`parse`].
#[must_use]
pub fn is_aarch64_prefix(data: &[u8]) -> (result: bool)
    ensures
        result == spec_is_aarch64_prefix(data@),
{
    data.len() >= 20 && data[0] == 0x7f && data[1] == 0x45 && data[2] == 0x4c && data[3] == 0x46
        && data[4] == 2 && data[5] == 1 && bytes::load_u16(data, 18) == AARCH64_MACHINE
}

/// Where a loadable segment ends in the file, as far as 64 bits can say; `0` for any other
/// program header.
pub open spec fn segment_end(segments: Seq<ImageSegment>) -> spec_fn(int) -> int {
    |index: int|
        if segments[index].segment_type != PT_LOAD {
            0
        } else if segments[index].offset + segments[index].file_size > u64::MAX {
            u64::MAX as int
        } else {
            segments[index].offset + segments[index].file_size
        }
}

/// The largest file end among the loadable segments, or `0` when there is none.
pub open spec fn spec_load_end(segments: Seq<ImageSegment>) -> u64 {
    fold::largest(segments.len(), segment_end(segments)) as u64
}

/// The largest file end among the loadable segments of a parsed image.
pub fn image_load_end(image: &ElfImage) -> (end: u64)
    ensures
        end == spec_load_end(image@.segments),
{
    let ghost ends = segment_end(image@.segments);
    let mut end: u64 = 0;
    let mut index: usize = 0;
    while index < image.segments.len()
        invariant
            index <= image.segments@.len(),
            ends == segment_end(image@.segments),
            end == fold::largest(index as nat, ends),
        decreases image.segments@.len() - index,
    {
        let segment = image.segments[index];
        if segment.segment_type == PT_LOAD {
            let segment_end = segment.offset.saturating_add(segment.file_size);
            if segment_end > end {
                end = segment_end;
            }
        }
        index += 1;
    }
    end
}

/// The largest file end among the loadable segments of the image in `data`.
pub fn load_file_end(data: &[u8]) -> (result: Result<u64>)
    ensures
        match (result, spec_parse(data@)) {
            (Ok(end), Ok(image)) => end == spec_load_end(image.segments),
            (Err(found), Err(expected)) => expected.is_told_by(found),
            _ => false,
        },
{
    let image = parse(data)?;
    Ok(image_load_end(&image))
}

} // verus!
