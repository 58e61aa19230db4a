//! Errors of the ELF readers and editors.

use crate::text;
use crate::text::{decimal_of, lower_hex_of};
use vstd::prelude::*;
use vstd::string::*;

verus! {

/// Where bytes stop being UTF-8: behind so many valid ones, at an invalid sequence of this length,
/// or without one where the bytes end within a character.
#[derive(Debug, Clone, Copy, PartialEq, Eq)]
pub struct Utf8Stop {
    pub valid_up_to: usize,
    pub error_len: Option<usize>,
}

impl Utf8Stop {
    /// The message as the standard library words it.
    pub open spec fn text(self) -> Seq<char> {
        match self.error_len {
            Some(length) => "invalid utf-8 sequence of "@ + text::decimal(length as nat)
                + " bytes from index "@ + text::decimal(self.valid_up_to as nat),
            None => "incomplete utf-8 byte sequence from index "@ + text::decimal(
                self.valid_up_to as nat,
            ),
        }
    }

    /// Renders the message.
    #[allow(clippy::inherent_to_string)]
    pub fn to_string(&self) -> (message: String)
        ensures
            message@ == self.text(),
    {
        let mut message = match self.error_len {
            Some(length) => {
                let mut message = String::from_str("invalid utf-8 sequence of ");
                message.append(decimal_of(length as u128).as_str());
                message.append(" bytes from index ");
                message
            },
            None => String::from_str("incomplete utf-8 byte sequence from index "),
        };
        message.append(decimal_of(self.valid_up_to as u128).as_str());
        message
    }
}

/// What is wrong with an ELF layout.
#[derive(Debug, Clone, Copy, PartialEq, Eq)]
pub enum Fault {
    /// A fixed message.
    Text(&'static str),
    /// A byte range that leaves its buffer.
    ByteRange { offset: usize, end: usize },
    /// A 64-bit field that does not fit in memory.
    ExceedsUsize { field: &'static str, value: u64 },
    /// A loadable segment whose file range overflows.
    LoadOverflow { index: usize },
    /// A loadable segment that ends after the file.
    LoadBeyondInput { index: usize },
    /// A count of private sections other than one, where one is required.
    NotOnePrivate { found: usize },
    /// More than one private section.
    SeveralPrivate { found: usize },
    /// A largest segment alignment that is not a power of two.
    LoadAlignment { alignment: u64 },
    /// A new segment's alignment that is not a power of two.
    NewLoadAlignment { alignment: u64 },
    /// A program-header reservation of the wrong size.
    Reservation { expected: usize, got: usize },
    /// A section-name table that is not a string table.
    NameTableType { section_type: u32 },
    /// A name offset outside the section-name table.
    NameOffset { index: usize, offset: usize },
    /// A section name that is not UTF-8.
    NameNotUtf8 { index: usize, offset: usize, detail: Utf8Stop },
    /// A file range that no loadable segment covers.
    NotInLoad { start: u64, stop: u64 },
    /// An alignment that is not a power of two.
    Alignment { alignment: u64 },
}

impl Fault {
    /// The message as it is shown to the user.
    pub open spec fn text(self) -> Seq<char> {
        match self {
            Fault::Text(message) => message@,
            Fault::ByteRange { offset, end } => "byte range 0x"@
                + text::lower_hex(offset as nat)
                + "..0x"@
                + text::lower_hex(end as nat)
                + " is out of bounds"@,
            Fault::ExceedsUsize { field, value } => field@
                + " 0x"@
                + text::lower_hex(value as nat)
                + " exceeds usize"@,
            Fault::LoadOverflow { index } => "PT_LOAD "@
                + text::decimal(index as nat)
                + " file range overflow"@,
            Fault::LoadBeyondInput { index } => "PT_LOAD "@
                + text::decimal(index as nat)
                + " exceeds input file"@,
            Fault::NotOnePrivate { found } => "expected one SHT_LOUSER section, found "@
                + text::decimal(found as nat),
            Fault::SeveralPrivate { found } => "expected at most one SHT_LOUSER section, found "@
                + text::decimal(found as nat),
            Fault::LoadAlignment { alignment } => "invalid PT_LOAD alignment 0x"@
                + text::lower_hex(alignment as nat),
            Fault::NewLoadAlignment { alignment } => "invalid new PT_LOAD alignment 0x"@
                + text::lower_hex(alignment as nat),
            Fault::Reservation { expected, got } => "program-header reservation mismatch: expected 0x"@
                + text::lower_hex(expected as nat)
                + ", got 0x"@
                + text::lower_hex(got as nat),
            Fault::NameTableType { section_type } => "ELF section-name table has unexpected type 0x"@
                + text::lower_hex(section_type as nat),
            Fault::NameOffset { index, offset } => "ELF section "@
                + text::decimal(index as nat)
                + " name offset 0x"@
                + text::lower_hex(offset as nat)
                + " exceeds section-name table"@,
            Fault::NameNotUtf8 { index, offset, detail } => "ELF section "@
                + text::decimal(index as nat)
                + " name at 0x"@
                + text::lower_hex(offset as nat)
                + " is not UTF-8: "@
                + detail.text(),
            Fault::NotInLoad { start, stop } => "file range 0x"@
                + text::lower_hex(start as nat)
                + "..0x"@
                + text::lower_hex(stop as nat)
                + " is not in PT_LOAD"@,
            Fault::Alignment { alignment } => "invalid alignment "@
                + text::decimal(alignment as nat),
        }
    }

    /// Renders the message.
    #[allow(clippy::inherent_to_string)]
    pub fn to_string(&self) -> (message: String)
        ensures
            message@ == self.text(),
    {
        match self {
            Fault::Text(message) => String::from_str(message),
            Fault::ByteRange { offset, end } => {
                let mut text = String::from_str("byte range 0x");
                text.append(lower_hex_of(*offset as u64).as_str());
                text.append("..0x");
                text.append(lower_hex_of(*end as u64).as_str());
                text.append(" is out of bounds");
                text
            },
            Fault::ExceedsUsize { field, value } => {
                let mut text = String::from_str(field);
                text.append(" 0x");
                text.append(lower_hex_of(*value as u64).as_str());
                text.append(" exceeds usize");
                text
            },
            Fault::LoadOverflow { index } => {
                let mut text = String::from_str("PT_LOAD ");
                text.append(decimal_of(*index as u128).as_str());
                text.append(" file range overflow");
                text
            },
            Fault::LoadBeyondInput { index } => {
                let mut text = String::from_str("PT_LOAD ");
                text.append(decimal_of(*index as u128).as_str());
                text.append(" exceeds input file");
                text
            },
            Fault::NotOnePrivate { found } => {
                let mut text = String::from_str("expected one SHT_LOUSER section, found ");
                text.append(decimal_of(*found as u128).as_str());
                text
            },
            Fault::SeveralPrivate { found } => {
                let mut text = String::from_str("expected at most one SHT_LOUSER section, found ");
                text.append(decimal_of(*found as u128).as_str());
                text
            },
            Fault::LoadAlignment { alignment } => {
                let mut text = String::from_str("invalid PT_LOAD alignment 0x");
                text.append(lower_hex_of(*alignment as u64).as_str());
                text
            },
            Fault::NewLoadAlignment { alignment } => {
                let mut text = String::from_str("invalid new PT_LOAD alignment 0x");
                text.append(lower_hex_of(*alignment as u64).as_str());
                text
            },
            Fault::Reservation { expected, got } => {
                let mut text = String::from_str("program-header reservation mismatch: expected 0x");
                text.append(lower_hex_of(*expected as u64).as_str());
                text.append(", got 0x");
                text.append(lower_hex_of(*got as u64).as_str());
                text
            },
            Fault::NameTableType { section_type } => {
                let mut text = String::from_str("ELF section-name table has unexpected type 0x");
                text.append(lower_hex_of(*section_type as u64).as_str());
                text
            },
            Fault::NameOffset { index, offset } => {
                let mut text = String::from_str("ELF section ");
                text.append(decimal_of(*index as u128).as_str());
                text.append(" name offset 0x");
                text.append(lower_hex_of(*offset as u64).as_str());
                text.append(" exceeds section-name table");
                text
            },
            Fault::NameNotUtf8 { index, offset, detail } => {
                let mut text = String::from_str("ELF section ");
                text.append(decimal_of(*index as u128).as_str());
                text.append(" name at 0x");
                text.append(lower_hex_of(*offset as u64).as_str());
                text.append(" is not UTF-8: ");
                text.append(detail.to_string().as_str());
                text
            },
            Fault::NotInLoad { start, stop } => {
                let mut text = String::from_str("file range 0x");
                text.append(lower_hex_of(*start as u64).as_str());
                text.append("..0x");
                text.append(lower_hex_of(*stop as u64).as_str());
                text.append(" is not in PT_LOAD");
                text
            },
            Fault::Alignment { alignment } => {
                let mut text = String::from_str("invalid alignment ");
                text.append(decimal_of(*alignment as u128).as_str());
                text
            },
        }
    }
}

/// Why an ELF image was refused.
#[derive(Debug)]
pub enum Error {
    /// The general ELF parser failed, with this message.
    Parse(String),
    /// The image is not ELF64 little-endian.
    NotElf64,
    /// The image is not for AArch64.
    NotAarch64,
    /// The layout breaks a rule.
    Invalid(Fault),
}

pub type Result<T> = std::result::Result<T, Error>;

impl Error {
    /// The message as it is shown to the user.
    pub open spec fn text(self) -> Seq<char> {
        match self {
            Error::Parse(message) => "ELF parse failed: "@ + message@,
            Error::NotElf64 => "input is not an ELF64 little-endian image"@,
            Error::NotAarch64 => "input is not an AArch64 image"@,
            Error::Invalid(fault) => "invalid ELF layout: "@ + fault.text(),
        }
    }

    /// Renders the error with its category in front.
    #[allow(clippy::inherent_to_string)]
    pub fn to_string(&self) -> (message: String)
        ensures
            message@ == self.text(),
    {
        match self {
            Error::Parse(message) => {
                let mut text = String::from_str("ELF parse failed: ");
                text.append(message.as_str());
                text
            },
            Error::NotElf64 => String::from_str("input is not an ELF64 little-endian image"),
            Error::NotAarch64 => String::from_str("input is not an AArch64 image"),
            Error::Invalid(fault) => {
                let mut text = String::from_str("invalid ELF layout: ");
                text.append(fault.to_string().as_str());
                text
            },
        }
    }
}

/// The error for a fixed message.
pub open spec fn fault(message: &'static str) -> Error {
    Error::Invalid(Fault::Text(message))
}

/// Fails with a fault.
pub(crate) fn invalid<T>(fault: Fault) -> (result: Result<T>)
    ensures
        result == Err::<T, Error>(Error::Invalid(fault)),
{
    Err(Error::Invalid(fault))
}

} // verus!
