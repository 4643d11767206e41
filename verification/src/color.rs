//! A fixed-width RGB color with hex-string parsing and formatting and a
//! perceptual brightness metric.

use vstd::prelude::*;
use vstd::string::*;

use crate::error::PaletteError;

verus! {

/// An RGB color: three 8-bit channels, red, green and blue.
///
/// The canonical text form is `#rrggbb`: lowercase hex, exactly seven
/// characters including the leading `#`.
#[derive(Debug, Clone, Copy, Default, PartialEq, Eq, Structural)]
pub struct Color(pub u8, pub u8, pub u8);

/// The brightness value at and above which a swatch gets black overlay
/// text; below it the text is white. The brightness metric ranges over
/// 0..=765, and this is its midpoint, rounded up.
pub const THRESHOLD: u32 = 383;

/// Whether `c` is a hexadecimal digit, either case.
pub open spec fn is_hex_digit(c: char) -> bool {
    ('0' as int <= c as int <= '9' as int) || ('a' as int <= c as int <= 'f' as int) || (
    'A' as int <= c as int <= 'F' as int)
}

/// The value of the hexadecimal digit `c` (meaningful only when
/// `is_hex_digit(c)` holds).
pub open spec fn hex_digit_value(c: char) -> int {
    if '0' as int <= c as int <= '9' as int {
        c as int - '0' as int
    } else if 'a' as int <= c as int <= 'f' as int {
        c as int - 'a' as int + 10
    } else {
        c as int - 'A' as int + 10
    }
}

/// The byte written by the two hexadecimal digits `h` and `l`.
pub open spec fn byte_of_hex(h: char, l: char) -> u8 {
    (hex_digit_value(h) * 16 + hex_digit_value(l)) as u8
}

/// The color that the text `s` denotes: `None` unless `s` is exactly
/// seven characters, starts with `#`, and the remaining six characters
/// are hexadecimal digits of either case.
pub open spec fn parse_color(s: Seq<char>) -> Option<Color> {
    if s.len() == 7 && s[0] == '#' && is_hex_digit(s[1]) && is_hex_digit(s[2]) && is_hex_digit(
        s[3],
    ) && is_hex_digit(s[4]) && is_hex_digit(s[5]) && is_hex_digit(s[6]) {
        Some(Color(byte_of_hex(s[1], s[2]), byte_of_hex(s[3], s[4]), byte_of_hex(s[5], s[6])))
    } else {
        None
    }
}

/// The lowercase hexadecimal digit for `v` (meaningful for 0..=15).
pub open spec fn hex_char(v: int) -> char {
    if v < 10 {
        ('0' as int + v) as char
    } else {
        ('a' as int + (v - 10)) as char
    }
}

/// The canonical `#rrggbb` text of `c`.
pub open spec fn format_color(c: Color) -> Seq<char> {
    seq![
        '#',
        hex_char(c.0 as int / 16),
        hex_char(c.0 as int % 16),
        hex_char(c.1 as int / 16),
        hex_char(c.1 as int % 16),
        hex_char(c.2 as int / 16),
        hex_char(c.2 as int % 16),
    ]
}

/// The brightness of `c`: the plain sum of the three channels, so it is
/// 0 for pure black, 765 for pure white, and monotonic in each channel.
pub open spec fn spec_brightness(c: Color) -> int {
    c.0 as int + c.1 as int + c.2 as int
}

/// The value of the hexadecimal digit `c`, or `None` where `c` is none.
fn hex_val(c: char) -> (r: Option<u8>)
    ensures
        r is Some <==> is_hex_digit(c),
        r matches Some(v) ==> v as int == hex_digit_value(c) && v < 16,
{
    let u = c as u32;
    if 48 <= u && u <= 57 {
        Some((u - 48) as u8)
    } else if 97 <= u && u <= 102 {
        Some((u - 97 + 10) as u8)
    } else if 65 <= u && u <= 70 {
        Some((u - 65 + 10) as u8)
    } else {
        None
    }
}

/// The one-character string holding the lowercase hexadecimal digit for `v`.
fn hex_digit_str(v: u8) -> (r: &'static str)
    requires
        v < 16,
    ensures
        r@ =~= seq![hex_char(v as int)],
{
    let digits = "0123456789abcdef";
    proof {
        reveal_strlit("0123456789abcdef");
    }
    let r = digits.substring_char(v as usize, v as usize + 1);
    assert(r@ =~= seq![hex_char(v as int)]);
    r
}

impl Color {
    /// Parses the canonical hex form: exactly seven characters, a leading
    /// `#`, then six hexadecimal digits of either case, two per channel.
    pub fn from_str(s: &str) -> (r: Result<Color, PaletteError>)
        ensures
            match parse_color(s@) {
                Some(c) => r == Ok::<Color, PaletteError>(c),
                None => r == Err::<Color, PaletteError>(PaletteError::Format),
            },
    {
        if s.unicode_len() != 7 {
            return Err(PaletteError::Format);
        }
        if s.get_char(0) != '#' {
            return Err(PaletteError::Format);
        }
        let d1 = match hex_val(s.get_char(1)) {
            Some(v) => v,
            None => { return Err(PaletteError::Format) },
        };
        let d2 = match hex_val(s.get_char(2)) {
            Some(v) => v,
            None => { return Err(PaletteError::Format) },
        };
        let d3 = match hex_val(s.get_char(3)) {
            Some(v) => v,
            None => { return Err(PaletteError::Format) },
        };
        let d4 = match hex_val(s.get_char(4)) {
            Some(v) => v,
            None => { return Err(PaletteError::Format) },
        };
        let d5 = match hex_val(s.get_char(5)) {
            Some(v) => v,
            None => { return Err(PaletteError::Format) },
        };
        let d6 = match hex_val(s.get_char(6)) {
            Some(v) => v,
            None => { return Err(PaletteError::Format) },
        };
        Ok(Color(d1 * 16 + d2, d3 * 16 + d4, d5 * 16 + d6))
    }

    /// The canonical `#rrggbb` text of this color, always lowercase.
    pub fn to_hex(&self) -> (r: String)
        ensures
            r@ == format_color(*self),
    {
        let mut out = String::new();
        out.append("#");
        out.append(hex_digit_str(self.0 / 16));
        out.append(hex_digit_str(self.0 % 16));
        out.append(hex_digit_str(self.1 / 16));
        out.append(hex_digit_str(self.1 % 16));
        out.append(hex_digit_str(self.2 / 16));
        out.append(hex_digit_str(self.2 % 16));
        proof {
            reveal_strlit("#");
        }
        assert(out@ =~= format_color(*self));
        out
    }

    /// The brightness of this color: the sum of its three channels.
    pub fn brightness(&self) -> (r: u32)
        ensures
            r == spec_brightness(*self),
    {
        self.0 as u32 + self.1 as u32 + self.2 as u32
    }
}

/// Whether `c` is a character of the canonical form: a lowercase
/// hexadecimal digit.
pub open spec fn is_lower_hex_digit(c: char) -> bool {
    ('0' as int <= c as int <= '9' as int) || ('a' as int <= c as int <= 'f' as int)
}

proof fn lemma_hex_char_inverts(d: int)
    requires
        0 <= d < 16,
    ensures
        is_lower_hex_digit(hex_char(d)),
        is_hex_digit(hex_char(d)),
        hex_digit_value(hex_char(d)) == d,
{
}

/// Round trip: parsing any valid hex string and formatting the result
/// yields the canonical lowercase form, and parsing that canonical form
/// gives back the identical channel triple.
pub proof fn lemma_color_round_trip(s: Seq<char>)
    requires
        parse_color(s) is Some,
    ensures
        ({
            let t = format_color(parse_color(s)->Some_0);
            &&& t.len() == 7
            &&& t[0] == '#'
            &&& forall|i: int| 1 <= i < 7 ==> is_lower_hex_digit(#[trigger] t[i])
            &&& parse_color(t) == parse_color(s)
        }),
{
    let c = parse_color(s)->Some_0;
    lemma_format_parse(c);
}

/// Formatting any color and parsing the text back yields the same color.
pub proof fn lemma_format_parse(c: Color)
    ensures
        ({
            let t = format_color(c);
            &&& t.len() == 7
            &&& t[0] == '#'
            &&& forall|i: int| 1 <= i < 7 ==> is_lower_hex_digit(#[trigger] t[i])
            &&& parse_color(t) == Some(c)
        }),
{
    let t = format_color(c);
    lemma_hex_char_inverts(c.0 as int / 16);
    lemma_hex_char_inverts(c.0 as int % 16);
    lemma_hex_char_inverts(c.1 as int / 16);
    lemma_hex_char_inverts(c.1 as int % 16);
    lemma_hex_char_inverts(c.2 as int / 16);
    lemma_hex_char_inverts(c.2 as int % 16);
    assert(parse_color(t) == Some(c));
}

/// The brightness metric is 0 exactly on pure black, 765 exactly on pure
/// white, stays within those bounds, and grows monotonically in each
/// channel.
pub proof fn lemma_brightness_shape(a: Color, b: Color)
    ensures
        spec_brightness(Color(0, 0, 0)) == 0,
        spec_brightness(Color(255, 255, 255)) == 765,
        0 <= spec_brightness(a) <= 765,
        a.0 <= b.0 && a.1 <= b.1 && a.2 <= b.2 ==> spec_brightness(a) <= spec_brightness(b),
        spec_brightness(a) == 0 ==> a == Color(0, 0, 0),
        spec_brightness(a) == 765 ==> a == Color(255, 255, 255),
{
}

} // verus!
