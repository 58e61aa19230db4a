//! What rendered numbers and joined texts read back as.

use crate::text;
use vstd::prelude::*;

verus! {

/// The value of a digit.
pub open spec fn digit_value(digit: char) -> int {
    if '0' <= digit <= '9' {
        digit as int - '0' as int
    } else if 'a' <= digit <= 'f' {
        digit as int - 'a' as int + 10
    } else {
        digit as int - 'A' as int + 10
    }
}

/// The number that digits spell to a base.
pub open spec fn spelled(digits: Seq<char>, base: int) -> int
    decreases digits.len(),
{
    if digits.len() == 0 {
        0
    } else {
        spelled(digits.drop_last(), base) * base + digit_value(digits.last())
    }
}

/// A decimal digit.
pub open spec fn is_decimal(digit: char) -> bool {
    '0' <= digit <= '9'
}

/// A lower-case hexadecimal digit.
pub open spec fn is_lower_hex(digit: char) -> bool {
    '0' <= digit <= '9' || 'a' <= digit <= 'f'
}

/// An upper-case hexadecimal digit.
pub open spec fn is_upper_hex(digit: char) -> bool {
    '0' <= digit <= '9' || 'A' <= digit <= 'F'
}

/// The digits of values below sixteen.
proof fn lemma_digits(value: nat)
    requires
        value < 16,
    ensures
        is_lower_hex(text::lower_digit(value)),
        is_upper_hex(text::upper_digit(value)),
        value < 10 ==> is_decimal(text::lower_digit(value)),
        digit_value(text::lower_digit(value)) == value,
        digit_value(text::upper_digit(value)) == value,
        text::lower_digit(value) == '0' <==> value == 0,
        text::upper_digit(value) == '0' <==> value == 0,
{
}

/// A number in decimal consists of decimal digits, spells the number to the base of ten, and starts
/// with a zero only if it is a single zero.
pub proof fn law_decimal(value: nat)
    ensures
        text::decimal(value).len() > 0,
        forall|i: int| 0 <= i < text::decimal(value).len() ==> is_decimal(#[trigger] text::decimal(value)[i]),
        spelled(text::decimal(value), 10) == value,
        text::decimal(value)[0] == '0' <==> value == 0,
        value == 0 ==> text::decimal(value).len() == 1,
    decreases value,
{
    lemma_digits(value % 10);
    let shown = text::decimal(value);
    if value < 10 {
        assert(shown.drop_last() =~= Seq::<char>::empty());
        assert(spelled(shown.drop_last(), 10) == 0);
    } else {
        law_decimal(value / 10);
        assert(shown.drop_last() =~= text::decimal(value / 10));
    }
}

/// A number in lower-case hexadecimal consists of such digits, spells the number to the base of
/// sixteen, and starts with a zero only if it is a single zero.
pub proof fn law_lower_hex(value: nat)
    ensures
        text::lower_hex(value).len() > 0,
        forall|i: int|
            0 <= i < text::lower_hex(value).len() ==> is_lower_hex(
                #[trigger] text::lower_hex(value)[i],
            ),
        spelled(text::lower_hex(value), 16) == value,
        text::lower_hex(value)[0] == '0' <==> value == 0,
        value == 0 ==> text::lower_hex(value).len() == 1,
    decreases value,
{
    lemma_digits(value % 16);
    let shown = text::lower_hex(value);
    if value < 16 {
        assert(shown.drop_last() =~= Seq::<char>::empty());
        assert(spelled(shown.drop_last(), 16) == 0);
    } else {
        law_lower_hex(value / 16);
        assert(shown.drop_last() =~= text::lower_hex(value / 16));
    }
}

/// A number in upper-case hexadecimal consists of such digits, spells the number to the base of
/// sixteen, and starts with a zero only if it is a single zero.
pub proof fn law_upper_hex(value: nat)
    ensures
        text::upper_hex(value).len() > 0,
        forall|i: int|
            0 <= i < text::upper_hex(value).len() ==> is_upper_hex(
                #[trigger] text::upper_hex(value)[i],
            ),
        spelled(text::upper_hex(value), 16) == value,
        text::upper_hex(value)[0] == '0' <==> value == 0,
        value == 0 ==> text::upper_hex(value).len() == 1,
    decreases value,
{
    lemma_digits(value % 16);
    let shown = text::upper_hex(value);
    if value < 16 {
        assert(shown.drop_last() =~= Seq::<char>::empty());
        assert(spelled(shown.drop_last(), 16) == 0);
    } else {
        law_upper_hex(value / 16);
        assert(shown.drop_last() =~= text::upper_hex(value / 16));
    }
}

/// Padding makes digits at least as long as wanted, ends with them and puts zeros in front.
pub proof fn law_padding(digits: Seq<char>, width: nat, i: int)
    ensures
        ({
            let padded = text::zero_padded(digits, width);
            let front = padded.len() - digits.len();
            &&& padded.len() >= width
            &&& padded.len() == width || padded == digits
            &&& front >= 0
            &&& padded.subrange(front, padded.len() as int) == digits
            &&& 0 <= i < front ==> padded[i] == '0'
        }),
{
    let padded = text::zero_padded(digits, width);
    let front = padded.len() - digits.len();
    assert(padded.subrange(front, padded.len() as int) =~= digits);
}

/// Bytes are shown as two lower-case hexadecimal digits each, which spell the byte.
pub proof fn law_hex_digest(data: Seq<u8>, i: int)
    requires
        0 <= i < data.len(),
    ensures
        ({
            let shown = text::hex_digest_text(data);
            &&& shown.len() == 2 * data.len()
            &&& is_lower_hex(shown[2 * i])
            &&& is_lower_hex(shown[2 * i + 1])
            &&& digit_value(shown[2 * i]) * 16 + digit_value(shown[2 * i + 1]) == data[i]
        }),
    decreases data.len(),
{
    let last = data.last();
    lemma_digits((last / 16) as nat);
    lemma_digits((last % 16) as nat);
    lemma_digest_size(data.drop_last());
    if i < data.len() - 1 {
        law_hex_digest(data.drop_last(), i);
    }
}

/// A digest has two digits for each byte.
proof fn lemma_digest_size(data: Seq<u8>)
    ensures
        text::hex_digest_text(data).len() == 2 * data.len(),
    decreases data.len(),
{
    if data.len() > 0 {
        lemma_digest_size(data.drop_last());
    }
}

/// Joining one text gives that text, joining none gives nothing, and one more text follows behind a
/// separator.
pub proof fn law_joining(parts: Seq<Seq<char>>, part: Seq<char>, separator: Seq<char>)
    ensures
        text::joined(Seq::empty(), separator).len() == 0,
        text::joined(seq![part], separator) == part,
        parts.len() > 0 ==> text::joined(parts.push(part), separator) == text::joined(
            parts,
            separator,
        ) + separator + part,
{
    assert(parts.push(part).drop_last() =~= parts);
}

} // verus!
