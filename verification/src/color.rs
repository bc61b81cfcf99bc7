//! Colours: parsing of hexadecimal colour strings and the output formats that
//! templates can ask for.

use vstd::prelude::*;
use crate::text::{chars_of, dec_digit, decimal, decimal_char, push_text, text_of};

verus! {

/// The four channels of a colour, as plain values.
pub struct Rgba {
    pub r: u8,
    pub g: u8,
    pub b: u8,
    pub a: u8,
}

/// A colour with red, green, blue and alpha channels.
#[derive(Clone, Copy, Debug, PartialEq, Eq, Structural)]
pub struct Color {
    r: u8,
    g: u8,
    b: u8,
    a: u8,
}

/// Why a string is not a colour.
#[derive(Clone, Copy, Debug, PartialEq, Eq, Structural)]
pub enum ColorError {
    /// The number of digits is neither 6 nor 8.
    InvalidFormat,
    /// The length is right, but some character is not a hexadecimal digit.
    ParseError,
}

impl View for Color {
    type V = Rgba;

    closed spec fn view(&self) -> Rgba {
        Rgba { r: self.r, g: self.g, b: self.b, a: self.a }
    }
}

/// The value of a hexadecimal digit, in either case; `None` for any other
/// character.
pub open spec fn hex_digit_value(c: char) -> Option<u8> {
    match c {
        '0' => Some(0u8),
        '1' => Some(1u8),
        '2' => Some(2u8),
        '3' => Some(3u8),
        '4' => Some(4u8),
        '5' => Some(5u8),
        '6' => Some(6u8),
        '7' => Some(7u8),
        '8' => Some(8u8),
        '9' => Some(9u8),
        'a' | 'A' => Some(10u8),
        'b' | 'B' => Some(11u8),
        'c' | 'C' => Some(12u8),
        'd' | 'D' => Some(13u8),
        'e' | 'E' => Some(14u8),
        'f' | 'F' => Some(15u8),
        _ => None,
    }
}

/// The lower-case hexadecimal digit for a value below 16.
pub open spec fn hex_digit(v: u8) -> char {
    match v {
        0 => '0',
        1 => '1',
        2 => '2',
        3 => '3',
        4 => '4',
        5 => '5',
        6 => '6',
        7 => '7',
        8 => '8',
        9 => '9',
        10 => 'a',
        11 => 'b',
        12 => 'c',
        13 => 'd',
        14 => 'e',
        _ => 'f',
    }
}

/// A byte as two lower-case hexadecimal digits, zero-padded.
pub open spec fn hex_pair(b: u8) -> Seq<char> {
    seq![hex_digit(b / 16), hex_digit(b % 16)]
}

/// The input without one leading `#`, if it has one.
pub open spec fn strip_hash(s: Seq<char>) -> Seq<char> {
    if s.len() > 0 && s[0] == '#' {
        s.skip(1)
    } else {
        s
    }
}

/// Every character is a hexadecimal digit.
pub open spec fn is_hex(s: Seq<char>) -> bool {
    forall|i: int| 0 <= i < s.len() ==> hex_digit_value(#[trigger] s[i]) is Some
}

/// The byte written by the two digits at `at` and `at + 1`.
pub open spec fn hex_byte(s: Seq<char>, at: int) -> u8 {
    (hex_digit_value(s[at]).unwrap() * 16 + hex_digit_value(s[at + 1]).unwrap()) as u8
}

/// What a colour string means: after one optional leading `#`, six digits
/// give red, green and blue with full alpha, eight digits give all four
/// channels. Any other length is `InvalidFormat`; a right length with a
/// character that is no hexadecimal digit is `ParseError`.
pub open spec fn parse_color(s: Seq<char>) -> Result<Rgba, ColorError> {
    let d = strip_hash(s);
    if d.len() != 6 && d.len() != 8 {
        Err(ColorError::InvalidFormat)
    } else if !is_hex(d) {
        Err(ColorError::ParseError)
    } else {
        Ok(
            Rgba {
                r: hex_byte(d, 0),
                g: hex_byte(d, 2),
                b: hex_byte(d, 4),
                a: if d.len() == 8 {
                    hex_byte(d, 6)
                } else {
                    255u8
                },
            },
        )
    }
}

/// Alpha as hundredths of full opacity, rounded to the nearest hundredth.
/// No alpha value lies exactly between two hundredths.
pub open spec fn alpha_hundredths(a: u8) -> nat {
    ((200 * a + 255) / 510) as nat
}

/// Alpha on the scale from `0.00` to `1.00`, with two decimals.
pub open spec fn alpha_text(a: u8) -> Seq<char> {
    let h = alpha_hundredths(a);
    seq![dec_digit((h / 100) as u8), '.', dec_digit((h / 10 % 10) as u8), dec_digit((h % 10) as u8)]
}

/// `#rrggbb`.
pub open spec fn hex_text(c: Rgba) -> Seq<char> {
    seq!['#'] + hex_pair(c.r) + hex_pair(c.g) + hex_pair(c.b)
}

/// `#rrggbbaa`.
pub open spec fn rofi_text(c: Rgba) -> Seq<char> {
    seq!['#'] + hex_pair(c.r) + hex_pair(c.g) + hex_pair(c.b) + hex_pair(c.a)
}

/// `0xrrggbb`.
pub open spec fn plymouth_text(c: Rgba) -> Seq<char> {
    seq!['0', 'x'] + hex_pair(c.r) + hex_pair(c.g) + hex_pair(c.b)
}

/// `rrggbbaa`, with nothing around the digits.
pub open spec fn hyprland_text(c: Rgba) -> Seq<char> {
    hex_pair(c.r) + hex_pair(c.g) + hex_pair(c.b) + hex_pair(c.a)
}

/// `rgba(r, g, b, a)` with decimal channels and alpha between `0.00` and
/// `1.00`.
pub open spec fn css_text(c: Rgba) -> Seq<char> {
    seq!['r', 'g', 'b', 'a', '('] + decimal(c.r as nat) + seq![',', ' '] + decimal(c.g as nat)
        + seq![',', ' '] + decimal(c.b as nat) + seq![',', ' '] + alpha_text(c.a) + seq![')']
}

/// The input with every hexadecimal digit in lower case.
pub open spec fn lower_hex(s: Seq<char>) -> Seq<char> {
    Seq::new(s.len(), |i: int| hex_digit(hex_digit_value(s[i]).unwrap()))
}


/// Every character is a decimal digit or one of `a` to `f`.
pub open spec fn is_lower_hex(s: Seq<char>) -> bool {
    forall|i: int|
        0 <= i < s.len() ==> hex_digit_value(#[trigger] s[i]) is Some && hex_digit(
            hex_digit_value(s[i]).unwrap(),
        ) == s[i]
}

proof fn lemma_digit_round_trip(v: u8)
    requires
        v < 16,
    ensures
        hex_digit_value(hex_digit(v)) == Some(v),
{
}

proof fn lemma_pair_of_byte(d: Seq<char>, at: int)
    requires
        0 <= at,
        at + 1 < d.len(),
        is_hex(d),
    ensures
        hex_pair(hex_byte(d, at)) == lower_hex(d).subrange(at, at + 2),
{
    let hi = hex_digit_value(d[at]).unwrap();
    let lo = hex_digit_value(d[at + 1]).unwrap();
    assert(hi < 16 && lo < 16);
    assert((hi * 16 + lo) / 16 == hi && (hi * 16 + lo) % 16 == lo);
    assert(hex_pair(hex_byte(d, at)) =~= lower_hex(d).subrange(at, at + 2));
}

proof fn lemma_byte_of_pair(b: u8)
    ensures
        is_hex(hex_pair(b)),
        hex_byte(hex_pair(b), 0) == b,
{
    lemma_digit_round_trip(b / 16);
    lemma_digit_round_trip(b % 16);
    assert((b / 16) * 16 + b % 16 == b);
}

/// Parsing six digits and writing the colour as `#rrggbb` gives back the
/// same digits in lower case behind a `#`, and full alpha; with eight
/// digits, `#rrggbbaa` and `rrggbbaa` give back all eight.
pub proof fn lemma_parse_then_format(s: Seq<char>)
    requires
        strip_hash(s).len() == 6 || strip_hash(s).len() == 8,
        is_hex(strip_hash(s)),
    ensures
        parse_color(s) is Ok,
        strip_hash(s).len() == 6 ==> hex_text(parse_color(s).unwrap()) == seq!['#'] + lower_hex(
            strip_hash(s),
        ) && parse_color(s).unwrap().a == 255,
        strip_hash(s).len() == 8 ==> rofi_text(parse_color(s).unwrap()) == seq!['#'] + lower_hex(
            strip_hash(s),
        ) && hyprland_text(parse_color(s).unwrap()) == lower_hex(strip_hash(s)),
        is_lower_hex(strip_hash(s)) ==> lower_hex(strip_hash(s)) == strip_hash(s),
{
    let d = strip_hash(s);
    let low = lower_hex(d);
    lemma_pair_of_byte(d, 0);
    lemma_pair_of_byte(d, 2);
    lemma_pair_of_byte(d, 4);
    if d.len() == 6 {
        assert(low =~= low.subrange(0, 2) + low.subrange(2, 4) + low.subrange(4, 6));
        assert(hex_text(parse_color(s).unwrap()) =~= seq!['#'] + low);
    } else {
        lemma_pair_of_byte(d, 6);
        assert(low =~= low.subrange(0, 2) + low.subrange(2, 4) + low.subrange(4, 6)
            + low.subrange(6, 8));
        assert(rofi_text(parse_color(s).unwrap()) =~= seq!['#'] + low);
        assert(hyprland_text(parse_color(s).unwrap()) =~= low);
    }
    if is_lower_hex(d) {
        assert(low =~= d);
    }
}

/// Writing a colour as `#rrggbbaa` or as `rrggbbaa` and parsing the text
/// gives the colour back, alpha included; `#rrggbb` gives it back with full
/// alpha.
pub proof fn lemma_format_then_parse(c: Rgba)
    ensures
        parse_color(rofi_text(c)) == Ok::<Rgba, ColorError>(c),
        parse_color(hyprland_text(c)) == Ok::<Rgba, ColorError>(c),
        parse_color(hex_text(c)) == Ok::<Rgba, ColorError>(Rgba { a: 255, ..c }),
{
    lemma_byte_of_pair(c.r);
    lemma_byte_of_pair(c.g);
    lemma_byte_of_pair(c.b);
    lemma_byte_of_pair(c.a);
    let eight = hyprland_text(c);
    assert(eight.len() == 8);
    assert(hex_digit_value(eight[0]) is Some);
    assert(strip_hash(eight) == eight);
    assert(is_hex(eight));
    assert(strip_hash(rofi_text(c)) =~= eight);
    assert(hex_byte(eight, 0) == c.r && hex_byte(eight, 2) == c.g && hex_byte(eight, 4) == c.b
        && hex_byte(eight, 6) == c.a);
    let six = hex_pair(c.r) + hex_pair(c.g) + hex_pair(c.b);
    assert(strip_hash(hex_text(c)) =~= six);
    assert(is_hex(six));
    assert(hex_byte(six, 0) == c.r && hex_byte(six, 2) == c.g && hex_byte(six, 4) == c.b);
}

fn digit_value(c: char) -> (r: Option<u8>)
    ensures
        r == hex_digit_value(c),
        r matches Some(v) ==> v < 16,
{
    match c {
        '0' => Some(0u8),
        '1' => Some(1u8),
        '2' => Some(2u8),
        '3' => Some(3u8),
        '4' => Some(4u8),
        '5' => Some(5u8),
        '6' => Some(6u8),
        '7' => Some(7u8),
        '8' => Some(8u8),
        '9' => Some(9u8),
        'a' | 'A' => Some(10u8),
        'b' | 'B' => Some(11u8),
        'c' | 'C' => Some(12u8),
        'd' | 'D' => Some(13u8),
        'e' | 'E' => Some(14u8),
        'f' | 'F' => Some(15u8),
        _ => None,
    }
}

fn digit_char(v: u8) -> (c: char)
    requires
        v < 16,
    ensures
        c == hex_digit(v),
{
    match v {
        0 => '0',
        1 => '1',
        2 => '2',
        3 => '3',
        4 => '4',
        5 => '5',
        6 => '6',
        7 => '7',
        8 => '8',
        9 => '9',
        10 => 'a',
        11 => 'b',
        12 => 'c',
        13 => 'd',
        14 => 'e',
        _ => 'f',
    }
}

fn push_hex_pair(out: &mut Vec<char>, b: u8)
    ensures
        final(out)@ == old(out)@ + hex_pair(b),
{
    out.push(digit_char(b / 16));
    out.push(digit_char(b % 16));
}

fn push_decimal(out: &mut Vec<char>, n: u8)
    ensures
        final(out)@ == old(out)@ + decimal(n as nat),
{
    reveal_with_fuel(decimal, 3);
    if n >= 100 {
        out.push(decimal_char(n / 100));
    }
    if n >= 10 {
        out.push(decimal_char(n / 10 % 10));
    }
    out.push(decimal_char(n % 10));
}

fn push_alpha(out: &mut Vec<char>, a: u8)
    ensures
        final(out)@ == old(out)@ + alpha_text(a),
{
    let h: u32 = (200 * (a as u32) + 255) / 510;
    out.push(decimal_char((h / 100) as u8));
    out.push('.');
    out.push(decimal_char((h / 10 % 10) as u8));
    out.push(decimal_char((h % 10) as u8));
}

impl Color {
    /// Parses `#rrggbb`, `#rrggbbaa`, or either without the `#`.
    pub fn from_hex(hex: &str) -> (r: Result<Color, ColorError>)
        ensures
            match r {
                Ok(c) => parse_color(hex@) == Ok::<Rgba, ColorError>(c@),
                Err(e) => parse_color(hex@) == Err::<Rgba, ColorError>(e),
            },
            strip_hash(hex@).len() != 6 && strip_hash(hex@).len() != 8 ==> r == Err::<
                Color,
                ColorError,
            >(ColorError::InvalidFormat),
            (strip_hash(hex@).len() == 6 || strip_hash(hex@).len() == 8) && !is_hex(
                strip_hash(hex@),
            ) ==> r == Err::<Color, ColorError>(ColorError::ParseError),
            (strip_hash(hex@).len() == 6 || strip_hash(hex@).len() == 8) && is_hex(
                strip_hash(hex@),
            ) ==> r is Ok,
    {
        let chars = chars_of(hex);
        let start: usize = if chars.len() > 0 && chars[0] == '#' {
            1
        } else {
            0
        };
        let n: usize = chars.len() - start;
        let ghost d = strip_hash(hex@);
        assert(d == chars@.skip(start as int));
        if n != 6 && n != 8 {
            return Err(ColorError::InvalidFormat);
        }
        let mut vals: Vec<u8> = Vec::new();
        let mut i: usize = 0;
        while i < n
            invariant
                i <= n,
                n == d.len(),
                n == 6 || n == 8,
                d == strip_hash(hex@),
                start + n == chars.len(),
                d == chars@.skip(start as int),
                vals.len() == i,
                forall|k: int| 0 <= k < i ==> hex_digit_value(#[trigger] d[k]) == Some(vals[k]),
                forall|k: int| 0 <= k < i ==> vals[k] < 16,
            decreases n - i,
        {
            match digit_value(chars[start + i]) {
                Some(v) => {
                    vals.push(v);
                },
                None => {
                    assert(d[i as int] == chars@[start + i]);
                    assert(hex_digit_value(d[i as int]) is None);
                    assert(!is_hex(d));
                    return Err(ColorError::ParseError);
                },
            }
            i += 1;
        }
        assert(is_hex(d));
        let r = vals[0] * 16 + vals[1];
        let g = vals[2] * 16 + vals[3];
        let b = vals[4] * 16 + vals[5];
        let a = if n == 8 {
            vals[6] * 16 + vals[7]
        } else {
            255
        };
        Ok(Color { r, g, b, a })
    }

    /// `rgba(r, g, b, a)`: the channels in decimal, alpha scaled to the range
    /// from `0.00` to `1.00`.
    pub fn css_rgba(&self) -> (s: String)
        ensures
            s@ == css_text(self@),
    {
        let mut out: Vec<char> = Vec::new();
        push_text(&mut out, "rgba(");
        push_decimal(&mut out, self.r);
        push_text(&mut out, ", ");
        push_decimal(&mut out, self.g);
        push_text(&mut out, ", ");
        push_decimal(&mut out, self.b);
        push_text(&mut out, ", ");
        push_alpha(&mut out, self.a);
        push_text(&mut out, ")");
        proof {
            reveal_strlit("rgba(");
            reveal_strlit(", ");
            reveal_strlit(")");
            assert("rgba("@ == seq!['r', 'g', 'b', 'a', '(']);
            assert(", "@ == seq![',', ' ']);
            assert(")"@ == seq![')']);
        }
        text_of(&out)
    }

    /// `#rrggbbaa`.
    pub fn rofi(&self) -> (s: String)
        ensures
            s@ == rofi_text(self@),
    {
        let mut out: Vec<char> = Vec::new();
        out.push('#');
        push_hex_pair(&mut out, self.r);
        push_hex_pair(&mut out, self.g);
        push_hex_pair(&mut out, self.b);
        push_hex_pair(&mut out, self.a);
        text_of(&out)
    }

    /// `0xrrggbb`.
    pub fn plymouth(&self) -> (s: String)
        ensures
            s@ == plymouth_text(self@),
    {
        let mut out: Vec<char> = Vec::new();
        out.push('0');
        out.push('x');
        push_hex_pair(&mut out, self.r);
        push_hex_pair(&mut out, self.g);
        push_hex_pair(&mut out, self.b);
        text_of(&out)
    }

    /// `#rrggbb`.
    pub fn hex(&self) -> (s: String)
        ensures
            s@ == hex_text(self@),
    {
        let mut out: Vec<char> = Vec::new();
        out.push('#');
        push_hex_pair(&mut out, self.r);
        push_hex_pair(&mut out, self.g);
        push_hex_pair(&mut out, self.b);
        text_of(&out)
    }

    /// `rrggbbaa`: the eight digits with nothing around them.
    pub fn hyprland(&self) -> (s: String)
        ensures
            s@ == hyprland_text(self@),
    {
        let mut out: Vec<char> = Vec::new();
        push_hex_pair(&mut out, self.r);
        push_hex_pair(&mut out, self.g);
        push_hex_pair(&mut out, self.b);
        push_hex_pair(&mut out, self.a);
        text_of(&out)
    }
}

/// The words of a colour error.
pub open spec fn error_text(e: ColorError) -> Seq<char> {
    match e {
        ColorError::InvalidFormat => "Invalid color format (expected #RRGGBB or #RRGGBBAA)"@,
        ColorError::ParseError => "Failed to parse hex value: invalid digit found in string"@,
    }
}

impl ColorError {
    /// The error in words.
    pub fn message(&self) -> (s: String)
        ensures
            s@ == error_text(*self),
    {
        match self {
            ColorError::InvalidFormat => "Invalid color format (expected #RRGGBB or #RRGGBBAA)".to_owned(),
            ColorError::ParseError => "Failed to parse hex value: invalid digit found in string".to_owned(),
        }
    }
}

} // verus!
