//! Errors of the extraction and restoration steps.

use super::tags::TagSet;
use crate::elf::Error as ElfError;
use crate::text;
use crate::text::{decimal_of, join, lower_hex_of, upper_hex_of, zero_pad};
use vstd::prelude::*;
use vstd::string::*;

verus! {

/// The identifiers of the modules that are lacking.
pub open spec fn missing_ids(lacks_9b: bool, lacks_9d: bool, lacks_9e: bool) -> Seq<Seq<char>> {
    let first = if lacks_9b {
        seq!["0x9B"@]
    } else {
        Seq::empty()
    };
    let second = if lacks_9d {
        first.push("0x9D"@)
    } else {
        first
    };
    if lacks_9e {
        second.push("0x9E"@)
    } else {
        second
    }
}

/// What is wrong with a protected or restored image.
#[derive(Debug, Clone, Copy, PartialEq, Eq)]
pub enum Fault {
    /// A fixed message.
    Text(&'static str),
    /// An image for another machine.
    Machine { machine: u16 },
    /// A count of private sections other than one.
    PrivateCount { found: usize },
    /// A protected image without a section that identifies it.
    ProbeSection { name: &'static str },
    /// A first-stage header whose reserved word is used.
    ReservedWord { word: u32 },
    /// A first-stage header whose two payload sizes differ.
    SizeCopy { copy: u32, original: u32 },
    /// A first-stage payload that leaves the private section.
    PayloadRange { offset: usize, end: usize, available: usize },
    /// A first-stage payload that is empty or not made of words.
    PayloadSize { size: usize },
    /// A module without a size.
    ModuleSize { id: u32 },
    /// A record whose image has no size.
    RecordSize { id: u32 },
    /// Modules that the index lacks.
    MissingIds { lacks_9b: bool, lacks_9d: bool, lacks_9e: bool },
    /// A sum that does not fit in memory.
    Overflow { field: &'static str },
    /// A decoded write behind the end of the image.
    WriteBeyond { start: u64, stop: u64 },
    /// A decoded write that no segment covers.
    WriteUncovered { start: u64, stop: u64 },
    /// A decoded segment without room for its header.
    SegmentShort { segment: usize },
    /// A decoded segment whose tables leave it.
    SegmentOffsets { segment: usize },
    /// A writer record that cannot be used.
    WriterBounds { segment: usize, writer: usize },
    /// A string offset outside its table.
    StringOffset { offset: usize, limit: usize },
    /// A string without an end.
    Unterminated { offset: usize },
    /// An auxiliary image for another machine.
    AuxiliaryMachine { found_machine: u32 },
    /// An auxiliary image whose tables do not follow each other.
    AuxiliaryLayout { rela1_end: u64, rela2: u32, rela2_end: u64, dynsym: u32, dynsym_end: u64, dynstr: u32, dynstr_end: u64, size: usize },
    /// Padding of an auxiliary image that is not zero.
    AuxiliaryPadding { start: u64, stop: u64 },
    /// A patch for a symbol that does not exist.
    TargetIndex { target: u32 },
    /// Two patches for one symbol.
    PatchedTwice { target: u32 },
    /// A symbol name that leaves the string table.
    NameExceeds { target: u32 },
    /// A symbol name where another one stands.
    NameConflict { target: u32 },
    /// Bytes behind the symbol names that are no padding.
    StringPadding { offset: usize, end: usize },
    /// A relocation of a type that its table must not hold.
    RelocationKind { table: &'static str, kind: u32 },
    /// A dynamic tag that occurs twice.
    TagTwice { tag: u64 },
    /// Dynamic tags that do not occur.
    MissingTags { tags: TagSet },
    /// An image without a required section.
    LacksSection { name: &'static str },
    /// An image with two sections of one name.
    DuplicateSection { name: &'static str },
    /// A restored image without a required section.
    RestoredLacks { name: &'static str },
    /// A restored image with two sections of one name.
    RestoredDuplicate { name: &'static str },
    /// A private section that does not follow the segments.
    PrivateOffset { private: u64, aligned_end: u64, raw_end: u64 },
    /// Bytes between the segments and the private section that are not zero.
    LoadPadding { raw_end: u64, private: u64 },
    /// A payload for an image of another size.
    TargetSize { announced: u32, load_size: u64 },
    /// A container for an image of another size.
    PrimaryOutput { announced: u32, load_size: u64 },
}

impl Fault {
    /// The message as it is shown to the user.
    pub open spec fn text(self) -> Seq<char> {
        match self {
            Fault::Text(message) => message@,
            Fault::Machine { machine } => "expected AArch64 ELF (machine 0xB7), got 0x"@
                + text::upper_hex(machine as nat),
            Fault::PrivateCount { found } => "expected exactly one SHT_LOUSER section, found "@
                + text::decimal(found as nat),
            Fault::ProbeSection { name } => "protected ELF lacks required section "@
                + name@,
            Fault::ReservedWord { word } => "Stage 1 header reserved word is nonzero: 0x"@
                + text::lower_hex(word as nat),
            Fault::SizeCopy { copy, original } => "Stage 1 payload size copy 0x"@
                + text::lower_hex(copy as nat)
                + " != size 0x"@
                + text::lower_hex(original as nat),
            Fault::PayloadRange { offset, end, available } => "Stage 1 payload range 0x"@
                + text::lower_hex(offset as nat)
                + "..0x"@
                + text::lower_hex(end as nat)
                + " exceeds private size 0x"@
                + text::lower_hex(available as nat),
            Fault::PayloadSize { size } => "Stage 1 payload size must be nonzero and word aligned: 0x"@
                + text::lower_hex(size as nat),
            Fault::ModuleSize { id } => "module 0x"@
                + text::zero_padded(text::upper_hex(id as nat), 2)
                + " lacks size"@,
            Fault::RecordSize { id } => "record 0x"@
                + text::zero_padded(text::upper_hex(id as nat), 2)
                + " lacks image size"@,
            Fault::MissingIds { lacks_9b, lacks_9d, lacks_9e } => "module index lacks required IDs: "@
                + text::joined(missing_ids(lacks_9b, lacks_9d, lacks_9e), ", "@),
            Fault::Overflow { field } => field@
                + " overflow"@,
            Fault::WriteBeyond { start, stop } => "decoded write 0x"@
                + text::lower_hex(start as nat)
                + "..0x"@
                + text::lower_hex(stop as nat)
                + " exceeds target load image"@,
            Fault::WriteUncovered { start, stop } => "decoded write 0x"@
                + text::lower_hex(start as nat)
                + "..0x"@
                + text::lower_hex(stop as nat)
                + " is not covered by PT_LOAD memory"@,
            Fault::SegmentShort { segment } => "decoded segment "@
                + text::decimal(segment as nat)
                + " is shorter than its header"@,
            Fault::SegmentOffsets { segment } => "decoded segment "@
                + text::decimal(segment as nat)
                + " has invalid writer offsets"@,
            Fault::WriterBounds { segment, writer } => "segment "@
                + text::decimal(segment as nat)
                + " writer "@
                + text::decimal(writer as nat)
                + " has invalid bounds"@,
            Fault::StringOffset { offset, limit } => "invalid string offset 0x"@
                + text::lower_hex(offset as nat)
                + "/0x"@
                + text::lower_hex(limit as nat),
            Fault::Unterminated { offset } => "unterminated string at 0x"@
                + text::lower_hex(offset as nat),
            Fault::AuxiliaryMachine { found_machine } => "unexpected auxiliary ELF machine 0x"@
                + text::lower_hex(found_machine as nat),
            Fault::AuxiliaryLayout { rela1_end, rela2, rela2_end, dynsym, dynsym_end, dynstr, dynstr_end, size } => "auxiliary ELF layout mismatch: rela1_end=0x"@
                + text::lower_hex(rela1_end as nat)
                + "/rela2=0x"@
                + text::lower_hex(rela2 as nat)
                + ", rela2_end=0x"@
                + text::lower_hex(rela2_end as nat)
                + "/dynsym=0x"@
                + text::lower_hex(dynsym as nat)
                + ", dynsym_end=0x"@
                + text::lower_hex(dynsym_end as nat)
                + "/dynstr=0x"@
                + text::lower_hex(dynstr as nat)
                + ", dynstr_end=0x"@
                + text::lower_hex(dynstr_end as nat)
                + "/size=0x"@
                + text::lower_hex(size as nat),
            Fault::AuxiliaryPadding { start, stop } => "auxiliary ELF alignment padding 0x"@
                + text::lower_hex(start as nat)
                + "..0x"@
                + text::lower_hex(stop as nat)
                + " is nonzero"@,
            Fault::TargetIndex { target } => "0x9E target symbol index "@
                + text::decimal(target as nat)
                + " is invalid"@,
            Fault::PatchedTwice { target } => "0x9E patches symbol "@
                + text::decimal(target as nat)
                + " more than once"@,
            Fault::NameExceeds { target } => "0x9E symbol "@
                + text::decimal(target as nat)
                + " name exceeds .dynstr"@,
            Fault::NameConflict { target } => "0x9E symbol "@
                + text::decimal(target as nat)
                + " conflicts with existing .dynstr data"@,
            Fault::StringPadding { offset, end } => "0x9E symbol strings have invalid padding at 0x"@
                + text::lower_hex(offset as nat)
                + "..0x"@
                + text::lower_hex(end as nat),
            Fault::RelocationKind { table, kind } => table@
                + " contains unsupported relocation type 0x"@
                + text::lower_hex(kind as nat),
            Fault::TagTwice { tag } => "dynamic tag 0x"@
                + text::lower_hex(tag as nat)
                + " occurs more than once"@,
            Fault::MissingTags { tags } => "missing dynamic tags: "@
                + text::joined(tags.texts(), ", "@),
            Fault::LacksSection { name } => "ELF lacks required section "@
                + name@,
            Fault::DuplicateSection { name } => "ELF contains duplicate section "@
                + name@,
            Fault::RestoredLacks { name } => "restored ELF lacks "@
                + name@,
            Fault::RestoredDuplicate { name } => "restored ELF contains duplicate "@
                + name@,
            Fault::PrivateOffset { private, aligned_end, raw_end } => "SHT_LOUSER offset 0x"@
                + text::lower_hex(private as nat)
                + " != aligned file-backed PT_LOAD end 0x"@
                + text::lower_hex(aligned_end as nat)
                + " (raw 0x"@
                + text::lower_hex(raw_end as nat)
                + ")"@,
            Fault::LoadPadding { raw_end, private } => "nonzero padding between PT_LOAD end 0x"@
                + text::lower_hex(raw_end as nat)
                + " and SHT_LOUSER 0x"@
                + text::lower_hex(private as nat),
            Fault::TargetSize { announced, load_size } => "0x9D target size 0x"@
                + text::lower_hex(announced as nat)
                + " != ELF load size 0x"@
                + text::lower_hex(load_size as nat),
            Fault::PrimaryOutput { announced, load_size } => "primary container output 0x"@
                + text::lower_hex(announced as nat)
                + " != ELF load size 0x"@
                + text::lower_hex(load_size as nat),
        }
    }

    /// Renders the message.
    #[allow(clippy::inherent_to_string)]
    pub fn to_string(&self) -> (message: String)
        ensures
            message@ == self.text(),
    {
        match self {
            Fault::Text(message) => String::from_str(message),
            Fault::Machine { machine } => {
                let mut text = String::from_str("expected AArch64 ELF (machine 0xB7), got 0x");
                text.append(upper_hex_of(*machine as u64).as_str());
                text
            },
            Fault::PrivateCount { found } => {
                let mut text = String::from_str("expected exactly one SHT_LOUSER section, found ");
                text.append(decimal_of(*found as u128).as_str());
                text
            },
            Fault::ProbeSection { name } => {
                let mut text = String::from_str("protected ELF lacks required section ");
                text.append(name);
                text
            },
            Fault::ReservedWord { word } => {
                let mut text = String::from_str("Stage 1 header reserved word is nonzero: 0x");
                text.append(lower_hex_of(*word as u64).as_str());
                text
            },
            Fault::SizeCopy { copy, original } => {
                let mut text = String::from_str("Stage 1 payload size copy 0x");
                text.append(lower_hex_of(*copy as u64).as_str());
                text.append(" != size 0x");
                text.append(lower_hex_of(*original as u64).as_str());
                text
            },
            Fault::PayloadRange { offset, end, available } => {
                let mut text = String::from_str("Stage 1 payload range 0x");
                text.append(lower_hex_of(*offset as u64).as_str());
                text.append("..0x");
                text.append(lower_hex_of(*end as u64).as_str());
                text.append(" exceeds private size 0x");
                text.append(lower_hex_of(*available as u64).as_str());
                text
            },
            Fault::PayloadSize { size } => {
                let mut text = String::from_str("Stage 1 payload size must be nonzero and word aligned: 0x");
                text.append(lower_hex_of(*size as u64).as_str());
                text
            },
            Fault::ModuleSize { id } => {
                let mut text = String::from_str("module 0x");
                text.append(zero_pad(upper_hex_of(*id as u64), 2).as_str());
                text.append(" lacks size");
                text
            },
            Fault::RecordSize { id } => {
                let mut text = String::from_str("record 0x");
                text.append(zero_pad(upper_hex_of(*id as u64), 2).as_str());
                text.append(" lacks image size");
                text
            },
            Fault::MissingIds { lacks_9b, lacks_9d, lacks_9e } => {
                let mut text = String::from_str("module index lacks required IDs: ");
                let ids = missing_id_texts(*lacks_9b, *lacks_9d, *lacks_9e);
                text.append(join(&ids, ", ").as_str());
                text
            },
            Fault::Overflow { field } => {
                let mut text = String::from_str(field);
                text.append(" overflow");
                text
            },
            Fault::WriteBeyond { start, stop } => {
                let mut text = String::from_str("decoded write 0x");
                text.append(lower_hex_of(*start as u64).as_str());
                text.append("..0x");
                text.append(lower_hex_of(*stop as u64).as_str());
                text.append(" exceeds target load image");
                text
            },
            Fault::WriteUncovered { start, stop } => {
                let mut text = String::from_str("decoded write 0x");
                text.append(lower_hex_of(*start as u64).as_str());
                text.append("..0x");
                text.append(lower_hex_of(*stop as u64).as_str());
                text.append(" is not covered by PT_LOAD memory");
                text
            },
            Fault::SegmentShort { segment } => {
                let mut text = String::from_str("decoded segment ");
                text.append(decimal_of(*segment as u128).as_str());
                text.append(" is shorter than its header");
                text
            },
            Fault::SegmentOffsets { segment } => {
                let mut text = String::from_str("decoded segment ");
                text.append(decimal_of(*segment as u128).as_str());
                text.append(" has invalid writer offsets");
                text
            },
            Fault::WriterBounds { segment, writer } => {
                let mut text = String::from_str("segment ");
                text.append(decimal_of(*segment as u128).as_str());
                text.append(" writer ");
                text.append(decimal_of(*writer as u128).as_str());
                text.append(" has invalid bounds");
                text
            },
            Fault::StringOffset { offset, limit } => {
                let mut text = String::from_str("invalid string offset 0x");
                text.append(lower_hex_of(*offset as u64).as_str());
                text.append("/0x");
                text.append(lower_hex_of(*limit as u64).as_str());
                text
            },
            Fault::Unterminated { offset } => {
                let mut text = String::from_str("unterminated string at 0x");
                text.append(lower_hex_of(*offset as u64).as_str());
                text
            },
            Fault::AuxiliaryMachine { found_machine } => {
                let mut text = String::from_str("unexpected auxiliary ELF machine 0x");
                text.append(lower_hex_of(*found_machine as u64).as_str());
                text
            },
            Fault::AuxiliaryLayout { rela1_end, rela2, rela2_end, dynsym, dynsym_end, dynstr, dynstr_end, size } => {
                let mut text = String::from_str("auxiliary ELF layout mismatch: rela1_end=0x");
                text.append(lower_hex_of(*rela1_end as u64).as_str());
                text.append("/rela2=0x");
                text.append(lower_hex_of(*rela2 as u64).as_str());
                text.append(", rela2_end=0x");
                text.append(lower_hex_of(*rela2_end as u64).as_str());
                text.append("/dynsym=0x");
                text.append(lower_hex_of(*dynsym as u64).as_str());
                text.append(", dynsym_end=0x");
                text.append(lower_hex_of(*dynsym_end as u64).as_str());
                text.append("/dynstr=0x");
                text.append(lower_hex_of(*dynstr as u64).as_str());
                text.append(", dynstr_end=0x");
                text.append(lower_hex_of(*dynstr_end as u64).as_str());
                text.append("/size=0x");
                text.append(lower_hex_of(*size as u64).as_str());
                text
            },
            Fault::AuxiliaryPadding { start, stop } => {
                let mut text = String::from_str("auxiliary ELF alignment padding 0x");
                text.append(lower_hex_of(*start as u64).as_str());
                text.append("..0x");
                text.append(lower_hex_of(*stop as u64).as_str());
                text.append(" is nonzero");
                text
            },
            Fault::TargetIndex { target } => {
                let mut text = String::from_str("0x9E target symbol index ");
                text.append(decimal_of(*target as u128).as_str());
                text.append(" is invalid");
                text
            },
            Fault::PatchedTwice { target } => {
                let mut text = String::from_str("0x9E patches symbol ");
                text.append(decimal_of(*target as u128).as_str());
                text.append(" more than once");
                text
            },
            Fault::NameExceeds { target } => {
                let mut text = String::from_str("0x9E symbol ");
                text.append(decimal_of(*target as u128).as_str());
                text.append(" name exceeds .dynstr");
                text
            },
            Fault::NameConflict { target } => {
                let mut text = String::from_str("0x9E symbol ");
                text.append(decimal_of(*target as u128).as_str());
                text.append(" conflicts with existing .dynstr data");
                text
            },
            Fault::StringPadding { offset, end } => {
                let mut text = String::from_str("0x9E symbol strings have invalid padding at 0x");
                text.append(lower_hex_of(*offset as u64).as_str());
                text.append("..0x");
                text.append(lower_hex_of(*end as u64).as_str());
                text
            },
            Fault::RelocationKind { table, kind } => {
                let mut text = String::from_str(table);
                text.append(" contains unsupported relocation type 0x");
                text.append(lower_hex_of(*kind as u64).as_str());
                text
            },
            Fault::TagTwice { tag } => {
                let mut text = String::from_str("dynamic tag 0x");
                text.append(lower_hex_of(*tag as u64).as_str());
                text.append(" occurs more than once");
                text
            },
            Fault::MissingTags { tags } => {
                let mut text = String::from_str("missing dynamic tags: ");
                text.append(join(&tags.rendered(), ", ").as_str());
                text
            },
            Fault::LacksSection { name } => {
                let mut text = String::from_str("ELF lacks required section ");
                text.append(name);
                text
            },
            Fault::DuplicateSection { name } => {
                let mut text = String::from_str("ELF contains duplicate section ");
                text.append(name);
                text
            },
            Fault::RestoredLacks { name } => {
                let mut text = String::from_str("restored ELF lacks ");
                text.append(name);
                text
            },
            Fault::RestoredDuplicate { name } => {
                let mut text = String::from_str("restored ELF contains duplicate ");
                text.append(name);
                text
            },
            Fault::PrivateOffset { private, aligned_end, raw_end } => {
                let mut text = String::from_str("SHT_LOUSER offset 0x");
                text.append(lower_hex_of(*private as u64).as_str());
                text.append(" != aligned file-backed PT_LOAD end 0x");
                text.append(lower_hex_of(*aligned_end as u64).as_str());
                text.append(" (raw 0x");
                text.append(lower_hex_of(*raw_end as u64).as_str());
                text.append(")");
                text
            },
            Fault::LoadPadding { raw_end, private } => {
                let mut text = String::from_str("nonzero padding between PT_LOAD end 0x");
                text.append(lower_hex_of(*raw_end as u64).as_str());
                text.append(" and SHT_LOUSER 0x");
                text.append(lower_hex_of(*private as u64).as_str());
                text
            },
            Fault::TargetSize { announced, load_size } => {
                let mut text = String::from_str("0x9D target size 0x");
                text.append(lower_hex_of(*announced as u64).as_str());
                text.append(" != ELF load size 0x");
                text.append(lower_hex_of(*load_size as u64).as_str());
                text
            },
            Fault::PrimaryOutput { announced, load_size } => {
                let mut text = String::from_str("primary container output 0x");
                text.append(lower_hex_of(*announced as u64).as_str());
                text.append(" != ELF load size 0x");
                text.append(lower_hex_of(*load_size as u64).as_str());
                text
            },
        }
    }
}

/// Renders the identifiers of the modules that are lacking.
fn missing_id_texts(lacks_9b: bool, lacks_9d: bool, lacks_9e: bool) -> (ids: Vec<String>)
    ensures
        text::contents(ids@) == missing_ids(lacks_9b, lacks_9d, lacks_9e),
{
    let mut ids: Vec<String> = Vec::new();
    if lacks_9b {
        ids.push(String::from_str("0x9B"));
    }
    if lacks_9d {
        ids.push(String::from_str("0x9D"));
    }
    if lacks_9e {
        ids.push(String::from_str("0x9E"));
    }
    assert(text::contents(ids@) =~= missing_ids(lacks_9b, lacks_9d, lacks_9e));
    ids
}

/// Why a step of the extraction or restoration failed.
#[derive(Debug)]
pub enum Error {
    /// An ELF image was refused.
    Elf(ElfError),
    /// A module index is not JSON; the parser failed with this message.
    Json(String),
    /// A rule is broken.
    Invalid(Fault),
}

pub type Result<T> = std::result::Result<T, Error>;

impl Error {
    /// The message as it is shown to the user.
    pub open spec fn text(self) -> Seq<char> {
        match self {
            Error::Elf(error) => error.text(),
            Error::Json(message) => message@,
            Error::Invalid(fault) => fault.text(),
        }
    }

    /// Renders the error.
    #[allow(clippy::inherent_to_string)]
    pub fn to_string(&self) -> (message: String)
        ensures
            message@ == self.text(),
    {
        match self {
            Error::Elf(error) => error.to_string(),
            Error::Json(message) => String::from_str(message.as_str()),
            Error::Invalid(fault) => fault.to_string(),
        }
    }
}

/// The error for a fixed message.
pub open spec fn fault(message: &'static str) -> Error {
    Error::Invalid(Fault::Text(message))
}

/// Fails with a fault.
pub(crate) fn invalid<T>(fault: Fault) -> (result: Result<T>)
    ensures
        result == Err::<T, Error>(Error::Invalid(fault)),
{
    Err(Error::Invalid(fault))
}

/// An ELF step's outcome as an outcome of this module.
pub open spec fn lifted<T>(outcome: crate::elf::Result<T>) -> Result<T> {
    match outcome {
        Ok(value) => Ok(value),
        Err(e) => Err(Error::Elf(e)),
    }
}

/// Takes over the outcome of an ELF step.
pub(crate) fn lift<T>(outcome: crate::elf::Result<T>) -> (result: Result<T>)
    ensures
        result == lifted(outcome),
{
    match outcome {
        Ok(value) => Ok(value),
        Err(e) => Err(Error::Elf(e)),
    }
}

} // verus!
