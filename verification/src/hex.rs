//! The hexadecimal text form of a colour: `#RGB`, `#RRGGBB` or `#RRGGBBAA`,
//! with the `#` optional and the digits in either case.

use vstd::prelude::*;
use vstd::string::*;
use crate::color::{Color, ColorError};
use crate::text::slice_len;

verus! {

/// The value of a hexadecimal digit, written in either case.
pub open spec fn hex_value(c: char) -> Option<u8> {
    if '0' <= c <= '9' {
        Some((c as u8 - '0' as u8) as u8)
    } else if 'A' <= c <= 'F' {
        Some((c as u8 - 'A' as u8 + 10) as u8)
    } else if 'a' <= c <= 'f' {
        Some((c as u8 - 'a' as u8 + 10) as u8)
    } else {
        None
    }
}

/// The upper-case hexadecimal digit of a value below 16.
pub open spec fn hex_char(v: u8) -> char
    recommends
        v < 16,
{
    if v < 10 {
        ('0' as u8 + v) as char
    } else {
        ('A' as u8 + v - 10) as char
    }
}

/// The two upper-case digits of a channel.
pub open spec fn hex_pair(v: u8) -> Seq<char> {
    seq![hex_char(v / 16), hex_char(v % 16)]
}

/// The channel that two hexadecimal digits stand for; `None` for any other text.
pub open spec fn pair_value(pair: Seq<char>) -> Option<u8> {
    if pair.len() == 2 && hex_value(pair[0]) is Some && hex_value(pair[1]) is Some {
        Some((16 * hex_value(pair[0])->0 + hex_value(pair[1])->0) as u8)
    } else {
        None
    }
}

/// A text without its leading `#`, if it has one.
pub open spec fn hex_digits(text: Seq<char>) -> Seq<char> {
    if text.len() > 0 && text[0] == '#' {
        text.drop_first()
    } else {
        text
    }
}

/// The channel at `index` in a run of 3, 6 or 8 digits. The long forms give
/// each channel two digits; in the short form its one digit stands twice.
pub open spec fn channel(digits: Seq<char>, index: int) -> Option<u8> {
    if digits.len() == 3 {
        pair_value(seq![digits[index], digits[index]])
    } else {
        pair_value(digits.subrange(2 * index, 2 * index + 2))
    }
}

/// The colour that a hexadecimal text stands for. After the optional `#`
/// there must be exactly 3, 6 or 8 characters, all of them hexadecimal
/// digits; only the 8-digit form carries an opacity, the others are opaque.
pub open spec fn hex_color(text: Seq<char>) -> Result<Color, ColorError> {
    let digits = hex_digits(text);
    if digits.len() != 3 && digits.len() != 6 && digits.len() != 8 {
        Err(ColorError::WrongSize)
    } else {
        let opacity = if digits.len() == 8 {
            channel(digits, 3)
        } else {
            Some(255u8)
        };
        match (channel(digits, 0), channel(digits, 1), channel(digits, 2), opacity) {
            (Some(red), Some(green), Some(blue), Some(opacity)) => Ok(
                Color { red, green, blue, opacity },
            ),
            _ => Err(ColorError::InvalidDigit),
        }
    }
}

/// `#RRGGBB` in upper-case digits.
pub open spec fn hex_text(c: Color) -> Seq<char> {
    seq!['#'] + hex_pair(c.red) + hex_pair(c.green) + hex_pair(c.blue)
}

/// `#RRGGBBAA` in upper-case digits.
pub open spec fn hexa_text(c: Color) -> Seq<char> {
    hex_text(c) + hex_pair(c.opacity)
}

/// A text of one byte twice over; any other text unchanged.
pub open spec fn doubled(letter: &str) -> Seq<char> {
    if letter.len() == 1 {
        letter@ + letter@
    } else {
        letter@
    }
}

fn hex_digit_value(c: char) -> (v: Option<u8>)
    ensures
        v == hex_value(c),
{
    if '0' <= c && c <= '9' {
        Some(c as u8 - 0x30u8)
    } else if 'A' <= c && c <= 'F' {
        Some(c as u8 - 0x41u8 + 10)
    } else if 'a' <= c && c <= 'f' {
        Some(c as u8 - 0x61u8 + 10)
    } else {
        None
    }
}

fn hex_digit(v: u8) -> (c: char)
    requires
        v < 16,
    ensures
        c == hex_char(v),
{
    if v < 10 {
        (0x30u8 + v) as char
    } else {
        (0x41u8 + (v - 10)) as char
    }
}

/// Appends the two upper-case digits of a channel.
pub(crate) fn push_hex_pair(text: &mut String, v: u8)
    ensures
        final(text)@ == old(text)@ + hex_pair(v),
{
    text.push(hex_digit(v / 16));
    text.push(hex_digit(v % 16));
}

/// Reads a channel from its two digits.
pub(crate) fn parse_pair(pair: &str) -> (v: Option<u8>)
    ensures
        v == pair_value(pair@),
{
    if pair.unicode_len() != 2 {
        return None;
    }
    match (hex_digit_value(pair.get_char(0)), hex_digit_value(pair.get_char(1))) {
        (Some(high), Some(low)) => Some(16 * high + low),
        _ => None,
    }
}

/// Writes a text of one byte twice; hands any other text back as it is.
pub(crate) fn double_letter(letter: &str) -> (text: String)
    ensures
        text@ == doubled(letter),
{
    if slice_len(letter) != 1 {
        return letter.to_owned();
    }
    let mut text = letter.to_owned();
    text.append(letter);
    text
}

/// Reads the channel at `index` from a run of 3, 6 or 8 digits.
fn read_channel(digits: &str, index: usize) -> (v: Option<u8>)
    requires
        digits@.len() == 3 || digits@.len() == 6 || digits@.len() == 8,
        2 * index + 2 <= digits@.len() || (digits@.len() == 3 && index < 3),
    ensures
        v == channel(digits@, index as int),
{
    if digits.unicode_len() == 3 {
        let letter = digits.substring_char(index, index + 1);
        let pair = double_letter(letter);
        proof {
            let c = digits@[index as int];
            if hex_value(c) is Some {
                vstd::utf8::is_ascii_chars_encode_utf8(letter@);
            }
        }
        parse_pair(pair.as_str())
    } else {
        parse_pair(digits.substring_char(2 * index, 2 * index + 2))
    }
}

impl Color {
    /// The colour as `#RRGGBB`, in upper-case digits.
    pub fn hex(&self) -> (text: String)
        ensures
            text@ == hex_text(*self),
    {
        let mut text = String::new();
        text.push('#');
        push_hex_pair(&mut text, self.red);
        push_hex_pair(&mut text, self.green);
        push_hex_pair(&mut text, self.blue);
        text
    }

    /// The colour as `#RRGGBBAA`, in upper-case digits.
    pub fn hexa(&self) -> (text: String)
        ensures
            text@ == hexa_text(*self),
    {
        let mut text = self.hex();
        push_hex_pair(&mut text, self.opacity);
        text
    }

    /// Reads a colour from its hexadecimal text, or says why the text is none.
    pub fn try_from_hex(hex: &str) -> (r: Result<Self, ColorError>)
        ensures
            r == hex_color(hex@),
    {
        let total = hex.unicode_len();
        let start: usize = if total > 0 && hex.get_char(0) == '#' {
            1
        } else {
            0
        };
        let digits = hex.substring_char(start, total);
        let count = total - start;
        if count != 3 && count != 6 && count != 8 {
            return Err(ColorError::WrongSize);
        }
        let opacity = if count == 8 {
            read_channel(digits, 3)
        } else {
            Some(255)
        };
        match (read_channel(digits, 0), read_channel(digits, 1), read_channel(digits, 2), opacity) {
            (Some(red), Some(green), Some(blue), Some(opacity)) => Ok(
                Color { red, green, blue, opacity },
            ),
            _ => Err(ColorError::InvalidDigit),
        }
    }

    /// Reads a colour from a hexadecimal text that stands for one.
    pub fn from_hex(hex: &str) -> (c: Self)
        requires
            hex_color(hex@) is Ok,
        ensures
            hex_color(hex@) == Ok::<Color, ColorError>(c),
    {
        match Color::try_from_hex(hex) {
            Ok(c) => c,
            Err(_) => unreached(),
        }
    }
}

/// A character with an upper-case ASCII letter turned into its lower case.
pub open spec fn fold_case(c: char) -> char {
    if 'A' <= c <= 'Z' {
        (c as u8 + 32) as char
    } else {
        c
    }
}

/// Two texts that differ at most in the case of their ASCII letters.
pub open spec fn same_but_for_case(a: Seq<char>, b: Seq<char>) -> bool {
    &&& a.len() == b.len()
    &&& forall|i: int| 0 <= i < a.len() ==> fold_case(#[trigger] a[i]) == fold_case(b[i])
}

/// Every channel value has an upper-case digit, and the digit has that value.
pub proof fn lemma_hex_char_value(v: u8)
    requires
        v < 16,
    ensures
        hex_value(hex_char(v)) == Some(v),
        hex_char(v) != '#',
{
}

/// The two digits of a channel read back as the channel.
pub proof fn lemma_pair_round_trip(v: u8)
    ensures
        pair_value(hex_pair(v)) == Some(v),
{
    lemma_hex_char_value(v / 16);
    lemma_hex_char_value(v % 16);
}

/// The eight-digit text of a colour reads back as that colour.
pub proof fn law_hexa_round_trip(c: Color)
    ensures
        hex_color(hexa_text(c)) == Ok::<Color, ColorError>(c),
{
    lemma_pair_round_trip(c.red);
    lemma_pair_round_trip(c.green);
    lemma_pair_round_trip(c.blue);
    lemma_pair_round_trip(c.opacity);
}

/// Reading the eight-digit text of a colour gives the colour back, in
/// whatever case the digits are written.
pub proof fn law_hexa_round_trip_any_case(c: Color, text: Seq<char>)
    requires
        same_but_for_case(text, hexa_text(c)),
    ensures
        hex_color(text) == Ok::<Color, ColorError>(c),
{
    law_hex_ignores_case(text, hexa_text(c));
    law_hexa_round_trip(c);
}

/// The six-digit text of a colour reads back as that colour made opaque.
pub proof fn law_hex_round_trip(c: Color)
    ensures
        hex_color(hex_text(c)) == Ok::<Color, ColorError>(Color { opacity: 255, ..c }),
{
    lemma_pair_round_trip(c.red);
    lemma_pair_round_trip(c.green);
    lemma_pair_round_trip(c.blue);
}

/// The case of the digits does not change what a text stands for.
pub proof fn law_hex_ignores_case(a: Seq<char>, b: Seq<char>)
    requires
        same_but_for_case(a, b),
    ensures
        hex_color(a) == hex_color(b),
{
    let da = hex_digits(a);
    let db = hex_digits(b);
    if da.len() == 3 || da.len() == 6 || da.len() == 8 {
        lemma_channel_ignores_case(da, db, 0);
        lemma_channel_ignores_case(da, db, 1);
        lemma_channel_ignores_case(da, db, 2);
        if da.len() == 8 {
            lemma_channel_ignores_case(da, db, 3);
        }
    }
}

/// Digits of equal value, place by place, give equal channels.
proof fn lemma_channel_ignores_case(da: Seq<char>, db: Seq<char>, index: int)
    requires
        da.len() == db.len(),
        forall|i: int| 0 <= i < da.len() ==> hex_value(#[trigger] da[i]) == hex_value(db[i]),
        0 <= index,
        2 * index + 2 <= da.len() || (da.len() == 3 && index < 3),
    ensures
        channel(da, index) == channel(db, index),
{
}

/// A text with 4, 5 or 7 characters after its optional `#` stands for no colour.
pub proof fn law_hex_wrong_size(text: Seq<char>)
    requires
        hex_digits(text).len() == 4 || hex_digits(text).len() == 5 || hex_digits(text).len() == 7,
    ensures
        hex_color(text) == Err::<Color, ColorError>(ColorError::WrongSize),
{
}

} // verus!
