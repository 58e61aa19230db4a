//! Rendering of numbers and messages as text.

use crate::bytes::same_bytes;
use vstd::prelude::*;
use vstd::string::*;

verus! {

/// The lower-case hexadecimal digit of a value below sixteen.
pub open spec fn lower_digit(value: nat) -> char {
    if value < 10 {
        ((48 + value) as u32) as char
    } else {
        ((87 + value) as u32) as char
    }
}

/// The upper-case hexadecimal digit of a value below sixteen.
pub open spec fn upper_digit(value: nat) -> char {
    if value < 10 {
        ((48 + value) as u32) as char
    } else {
        ((55 + value) as u32) as char
    }
}

/// `value` in decimal, without leading zeros.
pub open spec fn decimal(value: nat) -> Seq<char>
    decreases value,
{
    if value < 10 {
        seq![lower_digit(value)]
    } else {
        decimal(value / 10).push(lower_digit(value % 10))
    }
}

/// `value` in lower-case hexadecimal, without leading zeros.
pub open spec fn lower_hex(value: nat) -> Seq<char>
    decreases value,
{
    if value < 16 {
        seq![lower_digit(value)]
    } else {
        lower_hex(value / 16).push(lower_digit(value % 16))
    }
}

/// `value` in upper-case hexadecimal, without leading zeros.
pub open spec fn upper_hex(value: nat) -> Seq<char>
    decreases value,
{
    if value < 16 {
        seq![upper_digit(value)]
    } else {
        upper_hex(value / 16).push(upper_digit(value % 16))
    }
}

/// `digits` with zeros in front, up to at least `width` characters.
pub open spec fn zero_padded(digits: Seq<char>, width: nat) -> Seq<char> {
    if digits.len() < width {
        Seq::new((width - digits.len()) as nat, |i: int| '0') + digits
    } else {
        digits
    }
}

/// The digit of a value below sixteen, in either case.
fn digit_text(value: u8, upper: bool) -> (digit: &'static str)
    requires
        value < 16,
    ensures
        digit@ == seq![if upper { upper_digit(value as nat) } else { lower_digit(value as nat) }],
{
    let digit = match value {
        0 => "0",
        1 => "1",
        2 => "2",
        3 => "3",
        4 => "4",
        5 => "5",
        6 => "6",
        7 => "7",
        8 => "8",
        9 => "9",
        10 => if upper { "A" } else { "a" },
        11 => if upper { "B" } else { "b" },
        12 => if upper { "C" } else { "c" },
        13 => if upper { "D" } else { "d" },
        14 => if upper { "E" } else { "e" },
        _ => if upper { "F" } else { "f" },
    };
    proof {
        reveal_strlit("0");
        reveal_strlit("1");
        reveal_strlit("2");
        reveal_strlit("3");
        reveal_strlit("4");
        reveal_strlit("5");
        reveal_strlit("6");
        reveal_strlit("7");
        reveal_strlit("8");
        reveal_strlit("9");
        reveal_strlit("a");
        reveal_strlit("b");
        reveal_strlit("c");
        reveal_strlit("d");
        reveal_strlit("e");
        reveal_strlit("f");
        reveal_strlit("A");
        reveal_strlit("B");
        reveal_strlit("C");
        reveal_strlit("D");
        reveal_strlit("E");
        reveal_strlit("F");
    }
    assert(digit@ =~= seq![
        if upper { upper_digit(value as nat) } else { lower_digit(value as nat) },
    ]);
    digit
}

/// Renders `value` in decimal.
pub(crate) fn decimal_of(value: u128) -> (text: String)
    ensures
        text@ == decimal(value as nat),
    decreases value,
{
    if value < 10 {
        String::from_str(digit_text(value as u8, false))
    } else {
        let mut text = decimal_of(value / 10);
        text.append(digit_text((value % 10) as u8, false));
        assert(text@ =~= decimal(value as nat));
        text
    }
}

/// Renders `value` in lower-case hexadecimal.
pub(crate) fn lower_hex_of(value: u64) -> (text: String)
    ensures
        text@ == lower_hex(value as nat),
    decreases value,
{
    if value < 16 {
        String::from_str(digit_text(value as u8, false))
    } else {
        let mut text = lower_hex_of(value / 16);
        text.append(digit_text((value % 16) as u8, false));
        assert(text@ =~= lower_hex(value as nat));
        text
    }
}

/// Renders `value` in upper-case hexadecimal.
pub(crate) fn upper_hex_of(value: u64) -> (text: String)
    ensures
        text@ == upper_hex(value as nat),
    decreases value,
{
    if value < 16 {
        String::from_str(digit_text(value as u8, true))
    } else {
        let mut text = upper_hex_of(value / 16);
        text.append(digit_text((value % 16) as u8, true));
        assert(text@ =~= upper_hex(value as nat));
        text
    }
}

/// Puts zeros in front of `digits`, up to at least `width` characters.
pub(crate) fn zero_pad(digits: String, width: usize) -> (text: String)
    ensures
        text@ == zero_padded(digits@, width as nat),
{
    let length: usize = digits.as_str().unicode_len();
    let mut text = String::new();
    proof {
        reveal_strlit("0");
    }
    let mut i: usize = length;
    while i < width
        invariant
            length <= i,
            i == length || i <= width,
            text@ == Seq::new((i - length) as nat, |j: int| '0'),
            "0"@ =~= seq!['0'],
        decreases width - i,
    {
        text.append("0");
        i += 1;
        assert(text@ =~= Seq::new((i - length) as nat, |j: int| '0'));
    }
    text.append(digits.as_str());
    assert(text@ =~= zero_padded(digits@, width as nat));
    text
}

/// The two lower-case hexadecimal digits of every byte, in order.
pub open spec fn hex_digest_text(data: Seq<u8>) -> Seq<char>
    decreases data.len(),
{
    if data.len() == 0 {
        Seq::empty()
    } else {
        hex_digest_text(data.drop_last()).push(lower_digit((data.last() / 16) as nat)).push(
            lower_digit((data.last() % 16) as nat),
        )
    }
}

/// Renders bytes as lower-case hexadecimal, two digits per byte.
pub fn hex_digest(data: &[u8]) -> (text: String)
    ensures
        text@ == hex_digest_text(data@),
{
    let mut text = String::new();
    let mut i: usize = 0;
    assert(data@.subrange(0, 0) =~= Seq::<u8>::empty());
    while i < data.len()
        invariant
            i <= data@.len(),
            text@ == hex_digest_text(data@.subrange(0, i as int)),
        decreases data@.len() - i,
    {
        text.append(digit_text(data[i] / 16, false));
        text.append(digit_text(data[i] % 16, false));
        assert(data@.subrange(0, i + 1).drop_last() =~= data@.subrange(0, i as int));
        i += 1;
        assert(text@ =~= hex_digest_text(data@.subrange(0, i as int)));
    }
    assert(data@.subrange(0, i as int) =~= data@);
    text
}

/// Whether two texts are the same.
pub(crate) fn same_text(a: &str, b: &str) -> (result: bool)
    ensures
        result == (a@ == b@),
{
    let result = same_bytes(a.as_bytes(), b.as_bytes());
    proof {
        vstd::utf8::encode_utf8_decode_utf8(a@);
        vstd::utf8::encode_utf8_decode_utf8(b@);
    }
    result
}

/// `parts` in order, with `separator` between them.
pub open spec fn joined(parts: Seq<Seq<char>>, separator: Seq<char>) -> Seq<char>
    decreases parts.len(),
{
    if parts.len() == 0 {
        Seq::empty()
    } else if parts.len() == 1 {
        parts[0]
    } else {
        joined(parts.drop_last(), separator) + separator + parts.last()
    }
}

/// The contents of a list of strings.
pub open spec fn contents(strings: Seq<String>) -> Seq<Seq<char>> {
    Seq::new(strings.len(), |i: int| strings[i]@)
}

/// Puts `separator` between the strings of a list.
pub(crate) fn join(parts: &Vec<String>, separator: &str) -> (text: String)
    ensures
        text@ == joined(contents(parts@), separator@),
{
    let mut text = String::from_str("");
    proof {
        reveal_strlit("");
        assert(text@ =~= joined(contents(parts@).take(0), separator@));
    }
    let mut i: usize = 0;
    while i < parts.len()
        invariant
            i <= parts@.len(),
            text@ == joined(contents(parts@).take(i as int), separator@),
        decreases parts@.len() - i,
    {
        let ghost before = text@;
        if i > 0 {
            text.append(separator);
        }
        text.append(parts[i].as_str());
        proof {
            let all = contents(parts@);
            assert(all.take(i + 1).drop_last() =~= all.take(i as int));
            assert(all.take(i + 1).last() == parts@[i as int]@);
            if i == 0 {
                assert(before =~= Seq::<char>::empty());
                assert(text@ =~= parts@[0]@);
            }
        }
        i += 1;
    }
    assert(contents(parts@).take(i as int) =~= contents(parts@));
    text
}

} // verus!
