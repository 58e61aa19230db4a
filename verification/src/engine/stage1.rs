//! The first extraction stage: finding and decrypting the loader in the private section.

use super::error::{invalid, lift, Error, Fault, Result};
use crate::bytes;
use crate::bytes::{bytes_of_u32, extend, load_u32};
use crate::elf::image;
use crate::elf::image::{ElfImage, ImageModel};
use crate::elf::{parse, AARCH64_MACHINE, SHT_LOUSER};
use crate::engine::error;
use crate::fold;
use crate::text::same_text;
use vstd::prelude::*;

verus! {

/// Constant of the word cipher.
pub const DEFAULT_CIPHER_CONSTANT: u32 = 0xbf20_165d;

/// Size of the outer header of the private section.
pub const DEFAULT_OUTER_SIZE: usize = 0x23c;

/// The decrypted header of the first stage.
#[derive(Debug, Clone, Copy, PartialEq, Eq, Structural)]
pub struct Stage1Header {
    pub key: u32,
    pub reserved: u32,
    pub payload_offset: u32,
    pub payload_size: u32,
    pub payload_key: u32,
    pub entry_offset: u32,
    pub protect_size: u32,
    pub size_copy: u32,
}

/// What the first stage yields.
#[derive(Debug)]
pub struct Stage1Result {
    pub section_index: usize,
    pub section_offset: usize,
    pub section_size: usize,
    pub header_offset: usize,
    pub payload_file_offset: usize,
    pub remaining_file_offset: usize,
    pub remaining_size: usize,
    pub header: Stage1Header,
    pub plaintext: Vec<u8>,
}

/// The mathematical content of a [`Stage1Result`].
#[verifier::ext_equal]
pub struct Stage1Model {
    pub section_index: usize,
    pub section_offset: usize,
    pub section_size: usize,
    pub header_offset: usize,
    pub payload_file_offset: usize,
    pub remaining_file_offset: usize,
    pub remaining_size: usize,
    pub header: Stage1Header,
    pub plaintext: Seq<u8>,
}

impl View for Stage1Result {
    type V = Stage1Model;

    open spec fn view(&self) -> Stage1Model {
        Stage1Model {
            section_index: self.section_index,
            section_offset: self.section_offset,
            section_size: self.section_size,
            header_offset: self.header_offset,
            payload_file_offset: self.payload_file_offset,
            remaining_file_offset: self.remaining_file_offset,
            remaining_size: self.remaining_size,
            header: self.header,
            plaintext: self.plaintext@,
        }
    }
}

/// A first-stage outcome agrees with its mathematical counterpart.
pub open spec fn stage1_agrees(result: Result<Stage1Result>, expected: Result<Stage1Model>) -> bool {
    match (result, expected) {
        (Ok(found), Ok(wanted)) => found@ == wanted,
        (Err(found), Err(wanted)) => found == wanted,
        _ => false,
    }
}

/// `value` in 32-bit arithmetic.
pub open spec fn wrapped(value: int) -> u32 {
    (value % 0x1_0000_0000) as u32
}

/// What is added to word `index`.
pub open spec fn addend(index: int, key: u32) -> int {
    (index + 3) * key
}

/// What word `index` is combined with.
pub open spec fn mask(index: int, constant: u32) -> u32 {
    wrapped((index + 1) * constant)
}

/// The plaintext of word `index`.
pub open spec fn decrypted_word(word: u32, index: int, key: u32, constant: u32) -> u32 {
    wrapped(word + addend(index, key)) ^ mask(index, constant)
}

/// The ciphertext of word `index`.
pub open spec fn encrypted_word(word: u32, index: int, key: u32, constant: u32) -> u32 {
    wrapped((word ^ mask(index, constant)) - addend(index, key))
}

/// Every word of `data`, changed by `change`.
pub open spec fn map_words(data: Seq<u8>, change: spec_fn(u32, int) -> u32) -> Seq<u8> {
    Seq::new(
        data.len(),
        |i: int| bytes::u32_bytes(change(bytes::u32_at(data, i / 4 * 4), i / 4))[i % 4],
    )
}

/// Decryption of a sequence of words.
#[verifier::opaque]
pub open spec fn decrypted(data: Seq<u8>, key: u32, constant: u32) -> Seq<u8> {
    map_words(data, |word: u32, index: int| decrypted_word(word, index, key, constant))
}

/// Encryption of a sequence of words.
pub open spec fn encrypted(data: Seq<u8>, key: u32, constant: u32) -> Seq<u8> {
    map_words(data, |word: u32, index: int| encrypted_word(word, index, key, constant))
}

/// The plaintext of `data`, or why there is none.
pub open spec fn spec_decrypt_words(data: Seq<u8>, key: u32, constant: u32) -> Result<Seq<u8>> {
    if data.len() % 4 != 0 {
        Err(error::fault("Stage 1 word cipher input is not 4-byte aligned"))
    } else if data.len() / 4 > 0x1_0000_0000 {
        Err(error::fault("Stage 1 word index exceeds u32"))
    } else {
        Ok(decrypted(data, key, constant))
    }
}

/// Word `index` of a header at the start of `raw`, decrypted with the header's own key.
pub open spec fn header_word(raw: Seq<u8>, index: int, constant: u32) -> u32 {
    decrypted_word(bytes::u32_at(raw, index * 4), index, bytes::u32_at(raw, 0), constant)
}

/// The header at the start of `raw`: its first word is the key to the others.
#[verifier::opaque]
pub open spec fn spec_decrypt_header(raw: Seq<u8>, constant: u32) -> Stage1Header {
    Stage1Header {
        key: bytes::u32_at(raw, 0),
        reserved: header_word(raw, 1, constant),
        payload_offset: header_word(raw, 2, constant),
        payload_size: header_word(raw, 3, constant),
        payload_key: header_word(raw, 4, constant),
        entry_offset: header_word(raw, 5, constant),
        protect_size: header_word(raw, 6, constant),
        size_copy: header_word(raw, 7, constant),
    }
}

/// Whether section `index` is a private payload.
pub open spec fn is_private(image: ImageModel) -> spec_fn(int) -> bool {
    |index: int| image.sections[index].section_type == SHT_LOUSER
}

/// The image has a section called `name`.
pub open spec fn has_section(image: ImageModel, name: Seq<char>) -> bool {
    exists|index: int|
        0 <= index < image.sections.len() && (#[trigger] image.sections[index]).name == Some(name)
}

/// The sections that identify a protected image are there.
pub open spec fn spec_check_sections(image: ImageModel) -> Result<()> {
    if !has_section(image, ".dynsym"@) {
        Err(Error::Invalid(Fault::ProbeSection { name: ".dynsym" }))
    } else if !has_section(image, ".dynstr"@) {
        Err(Error::Invalid(Fault::ProbeSection { name: ".dynstr" }))
    } else if !has_section(image, ".gnu.version"@) {
        Err(Error::Invalid(Fault::ProbeSection { name: ".gnu.version" }))
    } else if !has_section(image, ".gnu.version_r"@) {
        Err(Error::Invalid(Fault::ProbeSection { name: ".gnu.version_r" }))
    } else if !has_section(image, ".gnu.hash"@) && !has_section(image, ".hash"@) {
        Err(error::fault("protected ELF lacks a .gnu.hash or .hash symbol-hash section"))
    } else {
        Ok(())
    }
}

/// The rules for a header, given how many bytes the private section has behind its outer header.
pub open spec fn spec_check_header(header: Stage1Header, available: int) -> Result<()> {
    let payload_end = header.payload_offset + header.payload_size;
    if header.reserved != 0 {
        Err(Error::Invalid(Fault::ReservedWord { word: header.reserved }))
    } else if header.size_copy != header.payload_size {
        Err(
            Error::Invalid(
                Fault::SizeCopy { copy: header.size_copy, original: header.payload_size },
            ),
        )
    } else if payload_end > usize::MAX {
        Err(error::fault("Stage 1 payload range overflow"))
    } else if header.payload_offset < 0x20 || payload_end > available {
        Err(
            Error::Invalid(
                Fault::PayloadRange {
                    offset: header.payload_offset as usize,
                    end: payload_end as usize,
                    available: available as usize,
                },
            ),
        )
    } else if header.payload_size == 0 || header.payload_size % 4 != 0 {
        Err(Error::Invalid(Fault::PayloadSize { size: header.payload_size as usize }))
    } else if header.entry_offset >= header.payload_size {
        Err(error::fault("Stage 1 entry offset is outside the payload"))
    } else if header.protect_size > header.payload_size {
        Err(error::fault("Stage 1 mprotect length exceeds the payload"))
    } else {
        Ok(())
    }
}

/// The end of the payload, rounded up to a whole word.
pub open spec fn payload_words_end(header: Stage1Header) -> int {
    (header.payload_offset + header.payload_size + 3) / 4 * 4
}

/// What the first stage yields for the private section at `offset`, or why it fails.
pub open spec fn spec_inspect_section(
    data: Seq<u8>,
    index: int,
    offset: u64,
    size: u64,
    outer_size: usize,
    constant: u32,
) -> Result<Stage1Model> {
    if offset > usize::MAX {
        Err(error::fault("SHT_LOUSER offset exceeds usize"))
    } else if size > usize::MAX {
        Err(error::fault("SHT_LOUSER size exceeds usize"))
    } else if offset + size > usize::MAX {
        Err(error::fault("SHT_LOUSER range overflows usize"))
    } else if offset + size > data.len() {
        Err(error::fault("SHT_LOUSER range extends beyond the input file"))
    } else if outer_size + 0x1000 > size {
        Err(error::fault("Stage 1 outer header leaves no complete parameter area"))
    } else {
        let start = offset + outer_size;
        let available = size - outer_size;
        let header = spec_decrypt_header(data.skip(start), constant);
        match spec_check_header(header, available) {
            Err(e) => Err(e),
            Ok(_) => {
                let payload = data.subrange(
                    start + header.payload_offset,
                    start + header.payload_offset + header.payload_size,
                );
                let consumed = payload_words_end(header);
                if consumed > available {
                    Err(error::fault("aligned Stage 2 cursor exceeds SHT_LOUSER"))
                } else {
                    Ok(
                        Stage1Model {
                            section_index: index as usize,
                            section_offset: offset as usize,
                            section_size: size as usize,
                            header_offset: start as usize,
                            payload_file_offset: (start + header.payload_offset) as usize,
                            remaining_file_offset: (start + consumed) as usize,
                            remaining_size: (available - consumed) as usize,
                            header,
                            plaintext: decrypted(payload, header.payload_key, constant),
                        },
                    )
                }
            },
        }
    }
}

/// What the first stage yields for a parsed image, or why it fails.
pub open spec fn spec_inspect_image(
    image: ImageModel,
    data: Seq<u8>,
    outer_size: usize,
    constant: u32,
) -> Result<Stage1Model> {
    let private = fold::matching(image.sections.len(), is_private(image));
    if image.machine != AARCH64_MACHINE {
        Err(Error::Invalid(Fault::Machine { machine: image.machine }))
    } else if private.len() != 1 {
        Err(Error::Invalid(Fault::PrivateCount { found: private.len() as usize }))
    } else {
        match spec_check_sections(image) {
            Err(e) => Err(e),
            Ok(_) => spec_inspect_section(
                data,
                private[0],
                image.sections[private[0]].offset,
                image.sections[private[0]].size,
                outer_size,
                constant,
            ),
        }
    }
}

/// The words of changed data are the changed words.
pub proof fn lemma_map_words(data: Seq<u8>, change: spec_fn(u32, int) -> u32, index: int)
    requires
        0 <= index,
        index * 4 + 4 <= data.len(),
    ensures
        bytes::u32_at(map_words(data, change), index * 4) == change(
            bytes::u32_at(data, index * 4),
            index,
        ),
        map_words(data, change).subrange(index * 4, index * 4 + 4) == bytes::u32_bytes(
            change(bytes::u32_at(data, index * 4), index),
        ),
{
    broadcast use bytes::group_bytes_len;

    let mapped = map_words(data, change);
    let at = index * 4;
    let word = change(bytes::u32_at(data, at), index);
    assert forall|k: int| 0 <= k < 4 implies #[trigger] mapped.subrange(at, at + 4)[k]
        == bytes::u32_bytes(word)[k] by {
        assert((at + k) / 4 == index && (at + k) % 4 == k);
    }
    assert(mapped.subrange(at, at + 4) =~= bytes::u32_bytes(word));
    bytes::lemma_u32_spelled(mapped, at, word);
}

/// Decrypting an encrypted word gives the word back.
proof fn lemma_word_round_trip(word: u32, index: int, key: u32, constant: u32)
    ensures
        decrypted_word(encrypted_word(word, index, key, constant), index, key, constant) == word,
{
    let k = mask(index, constant);
    let a = addend(index, key);
    let x = word ^ k;
    vstd::arithmetic::div_mod::lemma_add_mod_noop(x - a, a, 0x1_0000_0000);
    assert(wrapped(encrypted_word(word, index, key, constant) + a) == x) by {
        let e = (x - a) % 0x1_0000_0000;
        assert(0 <= e < 0x1_0000_0000);
        vstd::arithmetic::div_mod::lemma_add_mod_noop_right(a, x - a, 0x1_0000_0000);
        assert((a + e) % 0x1_0000_0000 == (a + (x - a)) % 0x1_0000_0000);
    }
    assert((word ^ k) ^ k == word) by (bit_vector);
}

/// Decrypting encrypted words gives the words back.
pub proof fn law_words_round_trip(data: Seq<u8>, key: u32, constant: u32)
    requires
        data.len() % 4 == 0,
        data.len() / 4 <= 0x1_0000_0000,
    ensures
        spec_decrypt_words(encrypted(data, key, constant), key, constant) == Ok::<Seq<u8>, Error>(
            data,
        ),
{
    broadcast use bytes::group_bytes_len;

    reveal(decrypted);
    let cipher = encrypted(data, key, constant);
    let plain = decrypted(cipher, key, constant);
    let change = |word: u32, index: int| encrypted_word(word, index, key, constant);
    assert forall|i: int| 0 <= i < data.len() implies plain[i] == data[i] by {
        let index = i / 4;
        let word = bytes::u32_at(data, index * 4);
        lemma_map_words(data, change, index);
        lemma_word_round_trip(word, index, key, constant);
        bytes::lemma_u32_respelled(data, index * 4);
        assert(data.subrange(index * 4, index * 4 + 4)[i % 4] == data[i]);
    }
    assert(plain =~= data);
}

/// What the first stage yields lies within the private section: the payload comes behind the
/// outer header, what remains comes behind the payload and reaches to the section's end, and the
/// section lies within the file.
pub proof fn law_payload_lies_within_its_section(
    image: ImageModel,
    data: Seq<u8>,
    outer_size: usize,
    constant: u32,
)
    requires
        spec_inspect_image(image, data, outer_size, constant) is Ok,
    ensures
        ({
            let found = spec_inspect_image(image, data, outer_size, constant)->Ok_0;
            let section_end = found.section_offset + found.section_size;
            &&& found.header_offset == found.section_offset + outer_size
            &&& found.header_offset + 0x20 <= found.payload_file_offset
            &&& found.plaintext.len() == found.header.payload_size > 0
            &&& found.payload_file_offset + found.plaintext.len() <= found.remaining_file_offset
            &&& found.remaining_file_offset + found.remaining_size == section_end
            &&& section_end <= data.len()
            &&& found.header.entry_offset < found.plaintext.len()
        }),
{
    reveal(decrypted);
}

/// Decrypts a sequence of words.
pub fn decrypt_words(ciphertext: &[u8], key: u32, constant: u32) -> (result: Result<Vec<u8>>)
    ensures
        match (result, spec_decrypt_words(ciphertext@, key, constant)) {
            (Ok(found), Ok(wanted)) => found@ == wanted,
            (Err(found), Err(wanted)) => found == wanted,
            _ => false,
        },
{
    let length: usize = ciphertext.len();
    if length % 4 != 0 {
        return invalid(Fault::Text("Stage 1 word cipher input is not 4-byte aligned"));
    }
    if (length / 4) as u64 > 0x1_0000_0000 {
        return invalid(Fault::Text("Stage 1 word index exceeds u32"));
    }
    let ghost change = |word: u32, index: int| decrypted_word(word, index, key, constant);
    let mut plaintext: Vec<u8> = Vec::with_capacity(length);
    let mut index: usize = 0;
    while index < length / 4
        invariant
            length == ciphertext@.len(),
            length % 4 == 0,
            index <= length / 4 <= 0x1_0000_0000,
            change == (|word: u32, index: int| decrypted_word(word, index, key, constant)),
            plaintext@ == map_words(ciphertext@, change).take(index * 4),
        decreases length / 4 - index,
    {
        proof {
            lemma_map_words(ciphertext@, change, index as int);
        }
        let i = index as u128;
        assert((i + 3) * key <= 0x1_0000_0003 * 0x1_0000_0000) by (nonlinear_arith)
            requires
                i <= 0x1_0000_0000,
                key <= 0xffff_ffff,
        ;
        assert((i + 1) * constant <= 0x1_0000_0001 * 0x1_0000_0000) by (nonlinear_arith)
            requires
                i <= 0x1_0000_0000,
                constant <= 0xffff_ffff,
        ;
        let word = load_u32(ciphertext, index * 4);
        let sum = (word as u128 + (i + 3) * key as u128) % 0x1_0000_0000;
        let mask = (i + 1) * constant as u128 % 0x1_0000_0000;
        let plain: u32 = sum as u32 ^ mask as u32;
        extend(&mut plaintext, &bytes_of_u32(plain));
        index += 1;
        assert(plaintext@ =~= map_words(ciphertext@, change).take(index * 4));
    }
    assert(plaintext@ =~= decrypted(ciphertext@, key, constant)) by {
        reveal(decrypted);
    }
    Ok(plaintext)
}

/// Decrypts the header at the start of `raw`.
fn decrypt_header(raw: &[u8], constant: u32) -> (result: Result<Stage1Header>)
    requires
        raw@.len() >= 0x20,
    ensures
        result == Ok::<Stage1Header, Error>(spec_decrypt_header(raw@, constant)),
{
    let key = load_u32(raw, 0);
    let decoded = decrypt_words(&raw[0..0x20], key, constant)?;
    let ghost change = |word: u32, index: int| decrypted_word(word, index, key, constant);
    proof {
        reveal(decrypted);
        reveal(spec_decrypt_header);
        let start = raw@.subrange(0, 0x20);
        assert forall|index: int| 0 <= index < 8 implies #[trigger] header_word(
            raw@,
            index,
            constant,
        ) == bytes::u32_at(decoded@, index * 4) by {
            lemma_map_words(start, change, index);
            assert(bytes::u32_at(start, index * 4) == bytes::u32_at(raw@, index * 4));
        }
    }
    Ok(
        Stage1Header {
            key,
            reserved: load_u32(&decoded, 4),
            payload_offset: load_u32(&decoded, 8),
            payload_size: load_u32(&decoded, 12),
            payload_key: load_u32(&decoded, 16),
            entry_offset: load_u32(&decoded, 20),
            protect_size: load_u32(&decoded, 24),
            size_copy: load_u32(&decoded, 28),
        },
    )
}

/// Whether the image has a section called `name`.
fn contains_section(image: &ElfImage, name: &str) -> (result: bool)
    ensures
        result == has_section(image@, name@),
{
    let mut index: usize = 0;
    while index < image.sections.len()
        invariant
            index <= image.sections@.len(),
            forall|k: int|
                0 <= k < index ==> (#[trigger] image@.sections[k]).name != Some(name@),
        decreases image.sections@.len() - index,
    {
        assert(image@.sections[index as int] == image.sections@[index as int]@);
        if let Some(found) = &image.sections[index].name {
            if same_text(found.as_str(), name) {
                return true;
            }
        }
        index += 1;
    }
    false
}

/// Checks that the sections that identify a protected image are there.
fn check_sections(image: &ElfImage) -> (result: Result<()>)
    ensures
        result == spec_check_sections(image@),
{
    if !contains_section(image, ".dynsym") {
        return invalid(Fault::ProbeSection { name: ".dynsym" });
    }
    if !contains_section(image, ".dynstr") {
        return invalid(Fault::ProbeSection { name: ".dynstr" });
    }
    if !contains_section(image, ".gnu.version") {
        return invalid(Fault::ProbeSection { name: ".gnu.version" });
    }
    if !contains_section(image, ".gnu.version_r") {
        return invalid(Fault::ProbeSection { name: ".gnu.version_r" });
    }
    if !contains_section(image, ".gnu.hash") && !contains_section(image, ".hash") {
        return invalid(
            Fault::Text("protected ELF lacks a .gnu.hash or .hash symbol-hash section"),
        );
    }
    Ok(())
}

/// Checks a header against the rules.
fn check_header(header: Stage1Header, available: usize) -> (result: Result<()>)
    ensures
        result == spec_check_header(header, available as int),
{
    if header.reserved != 0 {
        return invalid(Fault::ReservedWord { word: header.reserved });
    }
    if header.size_copy != header.payload_size {
        return invalid(Fault::SizeCopy { copy: header.size_copy, original: header.payload_size });
    }
    let payload_offset = header.payload_offset as usize;
    let payload_size = header.payload_size as usize;
    let payload_end = match payload_offset.checked_add(payload_size) {
        Some(payload_end) => payload_end,
        None => return invalid(Fault::Text("Stage 1 payload range overflow")),
    };
    if payload_offset < 0x20 || payload_end > available {
        return invalid(Fault::PayloadRange { offset: payload_offset, end: payload_end, available });
    }
    if payload_size == 0 || payload_size % 4 != 0 {
        return invalid(Fault::PayloadSize { size: payload_size });
    }
    if header.entry_offset >= header.payload_size {
        return invalid(Fault::Text("Stage 1 entry offset is outside the payload"));
    }
    if header.protect_size > header.payload_size {
        return invalid(Fault::Text("Stage 1 mprotect length exceeds the payload"));
    }
    Ok(())
}

/// The header depends on its own words alone.
proof fn lemma_same_header(a: Seq<u8>, b: Seq<u8>, constant: u32)
    requires
        a.len() >= 0x20,
        b.len() >= 0x20,
        forall|i: int| 0 <= i < 0x20 ==> #[trigger] a[i] == b[i],
    ensures
        spec_decrypt_header(a, constant) == spec_decrypt_header(b, constant),
{
    reveal(spec_decrypt_header);
    assert forall|k: int| 0 <= k < 8 implies #[trigger] header_word(a, k, constant) == header_word(
        b,
        k,
        constant,
    ) by {
        assert(bytes::u32_at(a, k * 4) == bytes::u32_at(b, k * 4));
        assert(bytes::u32_at(a, 0) == bytes::u32_at(b, 0));
    }
}

/// The number of bytes from `end` to the next whole word.
fn slack_behind(end: usize) -> (slack: usize)
    ensures
        end + slack == (end + 3) / 4 * 4,
{
    (4 - end % 4) % 4
}

/// Decrypts the loader in the private section at `offset`.
#[verifier::spinoff_prover]
fn inspect_section(
    data: &[u8],
    index: usize,
    offset: u64,
    size: u64,
    outer_size: usize,
    cipher_constant: u32,
) -> (result: Result<Stage1Result>)
    ensures
        stage1_agrees(
            result,
            spec_inspect_section(data@, index as int, offset, size, outer_size, cipher_constant),
        ),
{
    if offset > usize::MAX as u64 {
        return invalid(Fault::Text("SHT_LOUSER offset exceeds usize"));
    }
    if size > usize::MAX as u64 {
        return invalid(Fault::Text("SHT_LOUSER size exceeds usize"));
    }
    let section_offset = offset as usize;
    let section_size = size as usize;
    let section_end = match section_offset.checked_add(section_size) {
        Some(section_end) => section_end,
        None => return invalid(Fault::Text("SHT_LOUSER range overflows usize")),
    };
    if section_end > data.len() {
        return invalid(Fault::Text("SHT_LOUSER range extends beyond the input file"));
    }
    if section_size < 0x1000 || outer_size > section_size - 0x1000 {
        return invalid(Fault::Text("Stage 1 outer header leaves no complete parameter area"));
    }
    let header_offset: usize = section_offset + outer_size;
    let available: usize = section_size - outer_size;
    let raw = &data[header_offset..header_offset + 0x1000];
    proof {
        lemma_same_header(raw@, data@.skip(header_offset as int), cipher_constant);
    }
    let header = decrypt_header(raw, cipher_constant)?;
    check_header(header, available)?;
    let payload_file_offset: usize = header_offset + header.payload_offset as usize;
    let payload_size = header.payload_size as usize;
    let payload = &data[payload_file_offset..payload_file_offset + payload_size];
    let plaintext = decrypt_words(payload, header.payload_key, cipher_constant)?;
    let payload_end: usize = header.payload_offset as usize + payload_size;
    let slack = slack_behind(payload_end);
    if slack > available - payload_end {
        return invalid(Fault::Text("aligned Stage 2 cursor exceeds SHT_LOUSER"));
    }
    let consumed: usize = payload_end + slack;
    Ok(
        Stage1Result {
            section_index: index,
            section_offset,
            section_size,
            header_offset,
            payload_file_offset,
            remaining_file_offset: header_offset + consumed,
            remaining_size: available - consumed,
            header,
            plaintext,
        },
    )
}

/// Finds and decrypts the loader of a parsed image.
pub fn inspect_image(
    image: &ElfImage,
    data: &[u8],
    outer_size: usize,
    cipher_constant: u32,
) -> (result: Result<Stage1Result>)
    ensures
        stage1_agrees(result, spec_inspect_image(image@, data@, outer_size, cipher_constant)),
{
    if image.machine != AARCH64_MACHINE {
        return invalid(Fault::Machine { machine: image.machine });
    }
    let ghost keep = is_private(image@);
    let mut found: usize = 0;
    let mut first: usize = 0;
    let mut index: usize = 0;
    while index < image.sections.len()
        invariant
            index <= image.sections@.len(),
            keep == is_private(image@),
            found <= index,
            found == fold::matching(index as nat, keep).len(),
            found > 0 ==> first == fold::matching(index as nat, keep)[0] && first < index,
        decreases image.sections@.len() - index,
    {
        if image.sections[index].section_type == SHT_LOUSER {
            if found == 0 {
                first = index;
            }
            found += 1;
        }
        index += 1;
    }
    if found != 1 {
        return invalid(Fault::PrivateCount { found });
    }
    check_sections(image)?;
    let section = &image.sections[first];
    inspect_section(data, first, section.offset, section.size, outer_size, cipher_constant)
}

/// Finds and decrypts the loader of a protected library.
pub fn inspect(data: &[u8], outer_size: usize, cipher_constant: u32) -> (result: Result<
    Stage1Result,
>)
    ensures
        match image::spec_parse(data@) {
            Err(refusal) => result matches Err(Error::Elf(e)) && refusal.is_told_by(e),
            Ok(image) => stage1_agrees(
                result,
                spec_inspect_image(image, data@, outer_size, cipher_constant),
            ),
        },
{
    let image = lift(parse(data))?;
    inspect_image(&image, data, outer_size, cipher_constant)
}

} // verus!
