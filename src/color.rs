use crate::paint::Color;
use vstd::prelude::*;

verus! {

/// Why a colour string was refused.
#[derive(Clone, Copy, Debug, PartialEq, Eq, Structural)]
pub enum ColorParseError {
    /// Not six characters once blanks and leading `#` are gone.
    WrongLength,
    /// A character that is not a hexadecimal digit.
    NotHex,
}

/// What `str::trim` leaves of a string.
pub uninterp spec fn trimmed(s: Seq<char>) -> Seq<char>;

/// Relies on `str::trim`: leading and trailing whitespace removed; the result
/// depends on the characters alone.
#[verifier::external_body]
fn trim_chars(s: &str) -> (r: Vec<char>)
    ensures
        r@ == trimmed(s@),
{
    s.trim().chars().collect()
}

/// The value of a hexadecimal digit, either case.
pub open spec fn hex_value(c: char) -> Option<u8> {
    if '0' <= c <= '9' {
        Some((c as u32 - '0' as u32) as u8)
    } else if 'a' <= c <= 'f' {
        Some((c as u32 - 'a' as u32 + 10) as u8)
    } else if 'A' <= c <= 'F' {
        Some((c as u32 - 'A' as u32 + 10) as u8)
    } else {
        None
    }
}

/// The byte written by two hexadecimal digits, high digit first.
pub open spec fn hex_byte(hi: char, lo: char) -> Option<u8> {
    match (hex_value(hi), hex_value(lo)) {
        (Some(h), Some(l)) => Some((h * 16 + l) as u8),
        _ => None,
    }
}

/// The string without its leading `#` characters.
pub open spec fn strip_hashes(s: Seq<char>) -> Seq<char>
    decreases s.len(),
{
    if s.len() > 0 && s[0] == '#' {
        strip_hashes(s.drop_first())
    } else {
        s
    }
}

/// The colour written as `rrggbb`, after any leading `#`.
pub open spec fn parse_color_spec(s: Seq<char>) -> Result<Color, ColorParseError> {
    let t = strip_hashes(s);
    if t.len() != 6 {
        Err(ColorParseError::WrongLength)
    } else {
        match (hex_byte(t[0], t[1]), hex_byte(t[2], t[3]), hex_byte(t[4], t[5])) {
            (Some(r), Some(g), Some(b)) => Ok(Color { r, g, b }),
            _ => Err(ColorParseError::NotHex),
        }
    }
}

fn hex_digit(c: char) -> (r: Option<u8>)
    ensures
        r == hex_value(c),
{
    if '0' <= c && c <= '9' {
        Some((c as u32 - '0' as u32) as u8)
    } else if 'a' <= c && c <= 'f' {
        Some((c as u32 - 'a' as u32 + 10) as u8)
    } else if 'A' <= c && c <= 'F' {
        Some((c as u32 - 'A' as u32 + 10) as u8)
    } else {
        None
    }
}

/// Reads the byte written by the two hexadecimal digits at `*pos`, and moves
/// past them.
pub fn consume_iter_for_u8(chars: &Vec<char>, pos: &mut usize) -> (r: Option<u8>)
    requires
        *old(pos) + 2 <= chars.len(),
    ensures
        *final(pos) == *old(pos) + 2,
        r == hex_byte(chars[*old(pos) as int], chars[*old(pos) + 1]),
{
    let hi = hex_digit(chars[*pos]);
    let lo = hex_digit(chars[*pos + 1]);
    *pos = *pos + 2;
    match (hi, lo) {
        (Some(h), Some(l)) => Some(h * 16 + l),
        _ => None,
    }
}

/// Parses `rrggbb`, after any leading `#`, from already trimmed characters.
pub fn parse_hex_color(chars: &Vec<char>) -> (r: Result<Color, ColorParseError>)
    ensures
        r == parse_color_spec(chars@),
{
    let n = chars.len();
    let mut i: usize = 0;
    assert(chars@.subrange(0, n as int) =~= chars@);
    while i < n && chars[i] == '#'
        invariant
            n == chars.len(),
            i <= n,
            strip_hashes(chars@) == strip_hashes(chars@.subrange(i as int, n as int)),
        decreases n - i,
    {
        assert(chars@.subrange(i as int, n as int).drop_first() =~= chars@.subrange(
            i + 1,
            n as int,
        ));
        i += 1;
    }
    let ghost t = chars@.subrange(i as int, n as int);
    assert(chars@.subrange(i as int, n as int) =~= t);
    assert(strip_hashes(t) == t);
    if n - i != 6 {
        return Err(ColorParseError::WrongLength);
    }
    let mut pos = i;
    let r = consume_iter_for_u8(chars, &mut pos);
    let g = consume_iter_for_u8(chars, &mut pos);
    let b = consume_iter_for_u8(chars, &mut pos);
    assert(t[0] == chars[i as int] && t[1] == chars[i + 1] && t[2] == chars[i + 2]);
    assert(t[3] == chars[i + 3] && t[4] == chars[i + 4] && t[5] == chars[i + 5]);
    match (r, g, b) {
        (Some(r), Some(g), Some(b)) => Ok(Color { r, g, b }),
        _ => Err(ColorParseError::NotHex),
    }
}

/// Parses a colour such as `#ff0000` or `ff0000`, ignoring surrounding
/// whitespace.
pub fn parse_hex_optional_octothorpe_to_rgb(input: &str) -> (r: Result<Color, ColorParseError>)
    ensures
        r == parse_color_spec(trimmed(input@)),
{
    let chars = trim_chars(input);
    parse_hex_color(&chars)
}

} // verus!
