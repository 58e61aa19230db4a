//! What the first extraction stage computes, in numbers.

use super::stage1;
use super::stage1::lemma_map_words;
use crate::bytes;
use crate::elf::image::ImageModel;
use crate::fold;
use vstd::prelude::*;

verus! {

/// Word `i` of the plaintext is the ciphertext word plus `i + 3` times the key, with the bits of
/// `i + 1` times the constant flipped, all in 32-bit arithmetic.
pub proof fn law_plaintext_word(data: Seq<u8>, key: u32, constant: u32, i: int)
    requires
        data.len() % 4 == 0,
        data.len() / 4 <= 0x1_0000_0000,
        0 <= i < data.len() / 4,
    ensures
        stage1::spec_decrypt_words(data, key, constant) matches Ok(plain) && plain.len()
            == data.len() && bytes::u32_at(plain, i * 4) == (((bytes::u32_at(data, i * 4) + (i + 3)
            * key) % 0x1_0000_0000) as u32) ^ (((i + 1) * constant % 0x1_0000_0000) as u32),
{
    reveal(stage1::decrypted);
    let change = |word: u32, index: int| stage1::decrypted_word(word, index, key, constant);
    lemma_map_words(data, change, i);
}

/// Words are decrypted whenever there is a whole number of them and their numbers fit in 32 bits,
/// and only then.
pub proof fn law_whole_words_are_decrypted(data: Seq<u8>, key: u32, constant: u32)
    ensures
        stage1::spec_decrypt_words(data, key, constant) is Ok <==> data.len() % 4 == 0 && data.len()
            <= 0x4_0000_0000,
{
}

/// With the key zero, what two zero words in a row decrypt to differs by the constant, in 32-bit
/// arithmetic.
pub proof fn law_masks_step_by_the_constant(data: Seq<u8>, constant: u32, i: int)
    requires
        data.len() % 4 == 0,
        data.len() / 4 <= 0x1_0000_0000,
        0 <= i < data.len() / 4 - 1,
        bytes::u32_at(data, i * 4) == 0,
        bytes::u32_at(data, i * 4 + 4) == 0,
    ensures
        stage1::spec_decrypt_words(data, 0, constant) matches Ok(plain) && bytes::u32_at(
            plain,
            i * 4 + 4,
        ) == (bytes::u32_at(plain, i * 4) + constant) % 0x1_0000_0000,
{
    law_plaintext_word(data, 0, constant, i);
    law_plaintext_word(data, 0, constant, i + 1);
    let plain = stage1::spec_decrypt_words(data, 0, constant)->Ok_0;
    let a = (i + 1) * constant;
    let b = (i + 2) * constant;
    assert(b == a + constant && a >= 0) by (nonlinear_arith)
        requires
            a == (i + 1) * constant,
            b == (i + 2) * constant,
            i >= 0,
            constant >= 0,
    ;
    let x = (a % 0x1_0000_0000) as u32;
    let y = (b % 0x1_0000_0000) as u32;
    assert(0u32 ^ x == x) by (bit_vector);
    assert(0u32 ^ y == y) by (bit_vector);
    assert((i + 3) * 0u32 == 0 && (i + 4) * 0u32 == 0);
    vstd::arithmetic::div_mod::lemma_add_mod_noop(a, constant as int, 0x1_0000_0000);
}

/// Adding to the key adds, before the bits are flipped, `i + 3` times as much to word `i`: flipping
/// the same bits again in both plaintexts shows it.
pub proof fn law_key_counts_by_position(
    data: Seq<u8>,
    key: u32,
    more: u32,
    constant: u32,
    i: int,
)
    requires
        data.len() % 4 == 0,
        data.len() / 4 <= 0x1_0000_0000,
        0 <= i < data.len() / 4,
        key + more <= u32::MAX,
    ensures
        ({
            let a = stage1::spec_decrypt_words(data, key, constant)->Ok_0;
            let b = stage1::spec_decrypt_words(data, (key + more) as u32, constant)->Ok_0;
            let mask = ((i + 1) * constant % 0x1_0000_0000) as u32;
            bytes::u32_at(b, i * 4) ^ mask == ((bytes::u32_at(a, i * 4) ^ mask) + (i + 3) * more)
                % 0x1_0000_0000
        }),
{
    law_plaintext_word(data, key, constant, i);
    law_plaintext_word(data, (key + more) as u32, constant, i);
    let mask = ((i + 1) * constant % 0x1_0000_0000) as u32;
    let word = bytes::u32_at(data, i * 4);
    let x = word + (i + 3) * key;
    let y = word + (i + 3) * (key + more);
    assert(y == x + (i + 3) * more) by (nonlinear_arith)
        requires
            x == word + (i + 3) * key,
            y == word + (i + 3) * (key + more),
    ;
    let p = (x % 0x1_0000_0000) as u32;
    let q = (y % 0x1_0000_0000) as u32;
    assert((p ^ mask) ^ mask == p) by (bit_vector);
    assert((q ^ mask) ^ mask == q) by (bit_vector);
    vstd::arithmetic::div_mod::lemma_add_mod_noop(x, (i + 3) * more, 0x1_0000_0000);
    vstd::arithmetic::div_mod::lemma_add_mod_noop(p as int, (i + 3) * more, 0x1_0000_0000);
}

/// Word `k` of the parameters at `at`, which are decrypted with their own first word as the key.
#[verifier::opaque]
pub open spec fn parameter(data: Seq<u8>, at: int, k: int, constant: u32) -> u32 {
    (((bytes::u32_at(data, at + k * 4) + (k + 3) * bytes::u32_at(data, at)) % 0x1_0000_0000) as u32)
        ^ (((k + 1) * constant % 0x1_0000_0000) as u32)
}

/// One of the sections is called `name`.
pub open spec fn is_called(image: ImageModel, name: Seq<char>) -> bool {
    exists|s: int|
        0 <= s < image.sections.len() && (#[trigger] image.sections[s]).name == Some(name)
}

/// The image is for the machine that the protector supports and has the sections that a protected
/// library has.
pub open spec fn looks_protected(image: ImageModel) -> bool {
    &&& image.machine == 183
    &&& is_called(image, ".dynsym"@)
    &&& is_called(image, ".dynstr"@)
    &&& is_called(image, ".gnu.version"@)
    &&& is_called(image, ".gnu.version_r"@)
    &&& is_called(image, ".gnu.hash"@) || is_called(image, ".hash"@)
}

/// Section `s` is the only private one.
pub open spec fn is_only_private(image: ImageModel, s: int) -> bool {
    &&& 0 <= s < image.sections.len()
    &&& image.sections[s].section_type == 0x8000_0000
    &&& forall|k: int|
        0 <= k < image.sections.len() && k != s ==> (
        #[trigger] image.sections[k]).section_type != 0x8000_0000
}

/// The parameters at `at` describe a loader within the `room` bytes from there on: word 1 is
/// zero, words 2 and 3 give its place and size, word 7 repeats the size, word 5 is its entry and
/// word 6 the size to protect.
pub open spec fn describes_loader(data: Seq<u8>, at: int, room: int, constant: u32) -> bool {
    let place = parameter(data, at, 2, constant) as int;
    let size = parameter(data, at, 3, constant) as int;
    &&& parameter(data, at, 1, constant) == 0
    &&& parameter(data, at, 7, constant) == size
    &&& 0x20 <= place
    &&& 0 < size
    &&& size % 4 == 0
    &&& place + size + (4 - place % 4) % 4 <= room
    &&& parameter(data, at, 5, constant) < size
    &&& parameter(data, at, 6, constant) <= size
}

/// The words of the decrypted header.
proof fn lemma_header_words(data: Seq<u8>, at: int, constant: u32)
    requires
        0 <= at,
        at + 0x20 <= data.len(),
    ensures
        ({
            let header = stage1::spec_decrypt_header(data.skip(at), constant);
            &&& header.key == bytes::u32_at(data, at)
            &&& header.reserved == parameter(data, at, 1, constant)
            &&& header.payload_offset == parameter(data, at, 2, constant)
            &&& header.payload_size == parameter(data, at, 3, constant)
            &&& header.payload_key == parameter(data, at, 4, constant)
            &&& header.entry_offset == parameter(data, at, 5, constant)
            &&& header.protect_size == parameter(data, at, 6, constant)
            &&& header.size_copy == parameter(data, at, 7, constant)
        }),
{
    reveal(stage1::spec_decrypt_header);
    reveal(parameter);
    let raw = data.skip(at);
    assert forall|k: int| 0 <= k < 8 implies #[trigger] stage1::header_word(raw, k, constant)
        == parameter(data, at, k, constant) by {
        assert(bytes::u32_at(raw, k * 4) == bytes::u32_at(data, at + k * 4));
        assert(bytes::u32_at(raw, 0) == bytes::u32_at(data, at));
    }
    assert(bytes::u32_at(raw, 0) == bytes::u32_at(data, at));
}

/// What the first stage makes of one section.
proof fn lemma_section(
    data: Seq<u8>,
    index: int,
    offset: u64,
    size: u64,
    outer_size: usize,
    constant: u32,
)
    requires
        data.len() <= usize::MAX,
    ensures
        ({
            let result = stage1::spec_inspect_section(
                data,
                index,
                offset,
                size,
                outer_size,
                constant,
            );
            let at = offset + outer_size;
            let place = parameter(data, at, 2, constant) as int;
            let length = parameter(data, at, 3, constant) as int;
            let end = place + length + (4 - (place + length) % 4) % 4;
            &&& result is Ok <==> offset + size <= data.len() && outer_size + 0x1000 <= size
                && describes_loader(data, at, size - outer_size, constant)
            &&& result matches Ok(found) ==> {
                &&& found.section_index == index as usize
                &&& found.section_offset == offset
                &&& found.section_size == size
                &&& found.header_offset == at
                &&& found.payload_file_offset == at + place
                &&& found.remaining_file_offset == at + end
                &&& found.remaining_size == size - outer_size - end
                &&& found.header == stage1::spec_decrypt_header(data.skip(at), constant)
                &&& found.plaintext == stage1::decrypted(
                    data.subrange(at + place, at + place + length),
                    parameter(data, at, 4, constant),
                    constant,
                )
            }
        }),
{
    let at = offset + outer_size;
    if offset + size <= data.len() && outer_size + 0x1000 <= size {
        lemma_header_words(data, at, constant);
    }
}

/// The sections that are looked for.
proof fn lemma_marks(image: ImageModel)
    ensures
        looks_protected(image) <==> image.machine == 183 && stage1::spec_check_sections(image) is Ok,
{
    assert(is_called(image, ".dynsym"@) == stage1::has_section(image, ".dynsym"@));
    assert(is_called(image, ".dynstr"@) == stage1::has_section(image, ".dynstr"@));
    assert(is_called(image, ".gnu.version"@) == stage1::has_section(image, ".gnu.version"@));
    assert(is_called(image, ".gnu.version_r"@) == stage1::has_section(image, ".gnu.version_r"@));
    assert(is_called(image, ".gnu.hash"@) == stage1::has_section(image, ".gnu.hash"@));
    assert(is_called(image, ".hash"@) == stage1::has_section(image, ".hash"@));
}

/// The first stage finds a loader exactly when the image looks protected, has one private section
/// that lies within the file, and that section holds, behind the outer header, parameters that
/// describe a loader within it.
pub proof fn law_loader_is_found(image: ImageModel, data: Seq<u8>, outer_size: usize, constant: u32)
    requires
        data.len() <= usize::MAX,
    ensures
        stage1::spec_inspect_image(image, data, outer_size, constant) is Ok <==> looks_protected(
            image,
        ) && exists|s: int| #[trigger]
            is_only_private(image, s) && ({
                let section = image.sections[s];
                &&& section.offset + section.size <= data.len()
                &&& outer_size + 0x1000 <= section.size
                &&& describes_loader(
                    data,
                    section.offset + outer_size,
                    section.size - outer_size,
                    constant,
                )
            }),
{
    let keep = stage1::is_private(image);
    let private = fold::matching(image.sections.len(), keep);
    lemma_marks(image);
    if private.len() == 1 {
        let s = private[0];
        fold::lemma_match_is_single(image.sections.len(), keep);
        assert(forall|k: int| 0 <= k < image.sections.len() && k != s ==> !#[trigger] keep(k));
        assert forall|k: int| 0 <= k < image.sections.len() && k != s implies (
        #[trigger] image.sections[k]).section_type != 0x8000_0000 by {
            assert(!keep(k));
        }
        assert(is_only_private(image, s));
        let section = image.sections[s];
        lemma_section(data, s, section.offset, section.size, outer_size, constant);
        assert forall|t: int| #[trigger] is_only_private(image, t) implies t == s by {
            assert(keep(t));
        }
    }
    if exists|s: int| #[trigger] is_only_private(image, s) {
        let s = choose|s: int| #[trigger] is_only_private(image, s);
        fold::lemma_single_match(image.sections.len(), keep, s);
    }
}

/// What the first stage yields is read off the private section: the header is the eight
/// parameters, the plaintext comes from the place and size that they give and decrypts with the
/// key in parameter 4, and what remains starts at the next whole word.
pub proof fn law_loader_is_decrypted(
    image: ImageModel,
    data: Seq<u8>,
    outer_size: usize,
    constant: u32,
    s: int,
    i: int,
)
    requires
        data.len() <= usize::MAX,
        image.sections.len() <= usize::MAX,
        stage1::spec_inspect_image(image, data, outer_size, constant) is Ok,
        is_only_private(image, s),
        0 <= i < parameter(data, image.sections[s].offset + outer_size, 3, constant) as int / 4,
    ensures
        ({
            let found = stage1::spec_inspect_image(image, data, outer_size, constant)->Ok_0;
            let section = image.sections[s];
            let at = section.offset + outer_size;
            let place = parameter(data, at, 2, constant) as int;
            let size = parameter(data, at, 3, constant) as int;
            let key = parameter(data, at, 4, constant);
            let end = place + size + (4 - (place + size) % 4) % 4;
            &&& found.section_index == s
            &&& found.section_offset == section.offset
            &&& found.section_size == section.size
            &&& found.header_offset == at
            &&& found.payload_file_offset == at + place
            &&& found.remaining_file_offset == at + end
            &&& found.remaining_size == section.size - outer_size - end
            &&& found.header.key == bytes::u32_at(data, at)
            &&& found.header.reserved == 0
            &&& found.header.payload_offset == place
            &&& found.header.payload_size == size
            &&& found.header.payload_key == key
            &&& found.header.entry_offset == parameter(data, at, 5, constant)
            &&& found.header.protect_size == parameter(data, at, 6, constant)
            &&& found.header.size_copy == size
            &&& found.plaintext.len() == size
            &&& bytes::u32_at(found.plaintext, i * 4) == (((bytes::u32_at(data, at + place + i * 4)
                + (i + 3) * key) % 0x1_0000_0000) as u32) ^ (((i + 1) * constant
                % 0x1_0000_0000) as u32)
        }),
{
    let keep = stage1::is_private(image);
    fold::lemma_single_match(image.sections.len(), keep, s);
    let section = image.sections[s];
    let at = section.offset + outer_size;
    lemma_section(data, s, section.offset, section.size, outer_size, constant);
    lemma_header_words(data, at, constant);
    let place = parameter(data, at, 2, constant) as int;
    let size = parameter(data, at, 3, constant) as int;
    let payload = data.subrange(at + place, at + place + size);
    law_plaintext_word(payload, parameter(data, at, 4, constant), constant, i);
    assert(bytes::u32_at(payload, i * 4) == bytes::u32_at(data, at + place + i * 4));
}

} // verus!
