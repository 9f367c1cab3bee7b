//! Mapping of ASCII characters to the Unicode characters that show them
//! bold, italic, bold italic, as a subscript or as a superscript.

use vstd::prelude::*;
use crate::uni_chars::{
    BOLD_ITALIC_LOWER_A, BOLD_ITALIC_UPPER_A, BOLD_LOWER_A, BOLD_UPPER_A, BOLD_ZERO,
    ITALIC_LOWER_A, ITALIC_LOWER_H, ITALIC_UPPER_A,
};

verus! {

/// The character as far behind `to` as `c` is behind `from`.
pub open spec fn shifted(c: char, from: char, to: char) -> char {
    ((c as u32 - from as u32) + to as u32) as char
}

/// The bold form of a letter or digit: the letters and digits of the
/// mathematical bold alphabet stand in the order of the ASCII ones.
pub open spec fn bold_of(c: char) -> Option<char> {
    if 'A' <= c && c <= 'Z' {
        Some(shifted(c, 'A', BOLD_UPPER_A))
    } else if 'a' <= c && c <= 'z' {
        Some(shifted(c, 'a', BOLD_LOWER_A))
    } else if '0' <= c && c <= '9' {
        Some(shifted(c, '0', BOLD_ZERO))
    } else {
        None
    }
}

/// The italic form of a letter. The mathematical italic alphabet has a gap
/// at the small h, whose place the Planck constant takes. Digits have no
/// italic form.
pub open spec fn italic_of(c: char) -> Option<char> {
    if 'A' <= c && c <= 'Z' {
        Some(shifted(c, 'A', ITALIC_UPPER_A))
    } else if c == 'h' {
        Some(ITALIC_LOWER_H)
    } else if 'a' <= c && c <= 'z' {
        Some(shifted(c, 'a', ITALIC_LOWER_A))
    } else {
        None
    }
}

/// The bold italic form of a letter, and the bold form of a digit, which
/// has no italic one.
pub open spec fn bold_italic_of(c: char) -> Option<char> {
    if 'A' <= c && c <= 'Z' {
        Some(shifted(c, 'A', BOLD_ITALIC_UPPER_A))
    } else if 'a' <= c && c <= 'z' {
        Some(shifted(c, 'a', BOLD_ITALIC_LOWER_A))
    } else if '0' <= c && c <= '9' {
        Some(shifted(c, '0', BOLD_ZERO))
    } else {
        None
    }
}

/// The subscript form of a character, for those that Unicode has one of.
pub open spec fn subscript_of(c: char) -> Option<char> {
    match c {
        '0' => Some('\u{2080}'),
        '1' => Some('\u{2081}'),
        '2' => Some('\u{2082}'),
        '3' => Some('\u{2083}'),
        '4' => Some('\u{2084}'),
        '5' => Some('\u{2085}'),
        '6' => Some('\u{2086}'),
        '7' => Some('\u{2087}'),
        '8' => Some('\u{2088}'),
        '9' => Some('\u{2089}'),
        '+' => Some('\u{208A}'),
        '-' => Some('\u{208B}'),
        '=' => Some('\u{208C}'),
        '(' => Some('\u{208D}'),
        ')' => Some('\u{208E}'),
        'a' => Some('\u{2090}'),
        'e' => Some('\u{2091}'),
        'h' => Some('\u{2096}'),
        'i' => Some('\u{1D62}'),
        'j' => Some('\u{2C7C}'),
        'k' => Some('\u{2095}'),
        'l' => Some('\u{2097}'),
        'm' => Some('\u{2098}'),
        'n' => Some('\u{2099}'),
        'o' => Some('\u{2092}'),
        'p' => Some('\u{209A}'),
        'r' => Some('\u{1D63}'),
        's' => Some('\u{209B}'),
        't' => Some('\u{209C}'),
        'u' => Some('\u{1D64}'),
        'v' => Some('\u{1D65}'),
        'x' => Some('\u{2093}'),
        _ => None,
    }
}

/// The superscript form of a character, for those that Unicode has one of.
pub open spec fn superscript_of(c: char) -> Option<char> {
    match c {
        '0' => Some('\u{2070}'),
        '1' => Some('\u{00B9}'),
        '2' => Some('\u{00B2}'),
        '3' => Some('\u{00B3}'),
        '4' => Some('\u{2074}'),
        '5' => Some('\u{2075}'),
        '6' => Some('\u{2076}'),
        '7' => Some('\u{2077}'),
        '8' => Some('\u{2078}'),
        '9' => Some('\u{2079}'),
        '+' => Some('\u{207A}'),
        '-' => Some('\u{207B}'),
        '=' => Some('\u{207C}'),
        '(' => Some('\u{207D}'),
        ')' => Some('\u{207E}'),
        'a' => Some('\u{1D43}'),
        'b' => Some('\u{1D47}'),
        'c' => Some('\u{1D9C}'),
        'd' => Some('\u{1D48}'),
        'e' => Some('\u{1D49}'),
        'f' => Some('\u{1DA0}'),
        'g' => Some('\u{1D4D}'),
        'h' => Some('\u{02B0}'),
        'i' => Some('\u{2071}'),
        'j' => Some('\u{02B2}'),
        'k' => Some('\u{1D4F}'),
        'l' => Some('\u{02E1}'),
        'm' => Some('\u{1D50}'),
        'n' => Some('\u{207F}'),
        'o' => Some('\u{1D52}'),
        'p' => Some('\u{1D56}'),
        'r' => Some('\u{02B3}'),
        's' => Some('\u{02E2}'),
        't' => Some('\u{1D57}'),
        'u' => Some('\u{1D58}'),
        'v' => Some('\u{1D5B}'),
        'w' => Some('\u{02B7}'),
        'x' => Some('\u{02E3}'),
        'y' => Some('\u{02B8}'),
        'z' => Some('\u{1DBB}'),
        'A' => Some('\u{1D2C}'),
        'B' => Some('\u{1D2E}'),
        'D' => Some('\u{1D30}'),
        'E' => Some('\u{1D31}'),
        'G' => Some('\u{1D33}'),
        'H' => Some('\u{1D34}'),
        'I' => Some('\u{1D35}'),
        'J' => Some('\u{1D36}'),
        'K' => Some('\u{1D37}'),
        'L' => Some('\u{1D38}'),
        'M' => Some('\u{1D39}'),
        'N' => Some('\u{1D3A}'),
        'O' => Some('\u{1D3C}'),
        'P' => Some('\u{1D3E}'),
        'R' => Some('\u{1D3F}'),
        'T' => Some('\u{1D40}'),
        'U' => Some('\u{1D41}'),
        'V' => Some('\u{2C7D}'),
        'W' => Some('\u{1D42}'),
        _ => None,
    }
}

/// The character as far behind `to` as `c` is behind `from`, for a `c` in
/// one of the ASCII ranges and a `to` in the mathematical alphabets.
fn shift(c: char, from: char, to: char) -> (r: Option<char>)
    requires
        from <= c,
        c as u32 - from as u32 <= 25,
        0x1D400 <= to as u32 <= 0x1D7FF,
    ensures
        r == Some(shifted(c, from, to)),
{
    char::from_u32(c as u32 - from as u32 + to as u32)
}

/// Returns the bold form of the character, or `None` where it has none.
pub fn get_bold(c: char) -> (r: Option<char>)
    ensures
        r == bold_of(c),
{
    if 'A' <= c && c <= 'Z' {
        shift(c, 'A', BOLD_UPPER_A)
    } else if 'a' <= c && c <= 'z' {
        shift(c, 'a', BOLD_LOWER_A)
    } else if '0' <= c && c <= '9' {
        shift(c, '0', BOLD_ZERO)
    } else {
        None
    }
}

/// Returns the italic form of the character, or `None` where it has none.
pub fn get_italic(c: char) -> (r: Option<char>)
    ensures
        r == italic_of(c),
{
    if 'A' <= c && c <= 'Z' {
        shift(c, 'A', ITALIC_UPPER_A)
    } else if c == 'h' {
        Some(ITALIC_LOWER_H)
    } else if 'a' <= c && c <= 'z' {
        shift(c, 'a', ITALIC_LOWER_A)
    } else {
        None
    }
}

/// Returns the bold italic form of the character, or `None` where it has
/// none.
pub fn get_bold_italic(c: char) -> (r: Option<char>)
    ensures
        r == bold_italic_of(c),
{
    if 'A' <= c && c <= 'Z' {
        shift(c, 'A', BOLD_ITALIC_UPPER_A)
    } else if 'a' <= c && c <= 'z' {
        shift(c, 'a', BOLD_ITALIC_LOWER_A)
    } else if '0' <= c && c <= '9' {
        shift(c, '0', BOLD_ZERO)
    } else {
        None
    }
}

/// Returns the subscript form of the character, or `None` where it has
/// none.
pub fn get_subscript(c: char) -> (r: Option<char>)
    ensures
        r == subscript_of(c),
{
    let mapped = match c {
        '0' => '\u{2080}',
        '1' => '\u{2081}',
        '2' => '\u{2082}',
        '3' => '\u{2083}',
        '4' => '\u{2084}',
        '5' => '\u{2085}',
        '6' => '\u{2086}',
        '7' => '\u{2087}',
        '8' => '\u{2088}',
        '9' => '\u{2089}',
        '+' => '\u{208A}',
        '-' => '\u{208B}',
        '=' => '\u{208C}',
        '(' => '\u{208D}',
        ')' => '\u{208E}',
        'a' => '\u{2090}',
        'e' => '\u{2091}',
        'h' => '\u{2096}',
        'i' => '\u{1D62}',
        'j' => '\u{2C7C}',
        'k' => '\u{2095}',
        'l' => '\u{2097}',
        'm' => '\u{2098}',
        'n' => '\u{2099}',
        'o' => '\u{2092}',
        'p' => '\u{209A}',
        'r' => '\u{1D63}',
        's' => '\u{209B}',
        't' => '\u{209C}',
        'u' => '\u{1D64}',
        'v' => '\u{1D65}',
        'x' => '\u{2093}',
        _ => {
            return None;
        },
    };
    Some(mapped)
}

/// Returns the superscript form of the character, or `None` where it has
/// none.
pub fn get_superscript(c: char) -> (r: Option<char>)
    ensures
        r == superscript_of(c),
{
    let mapped = match c {
        '0' => '\u{2070}',
        '1' => '\u{00B9}',
        '2' => '\u{00B2}',
        '3' => '\u{00B3}',
        '4' => '\u{2074}',
        '5' => '\u{2075}',
        '6' => '\u{2076}',
        '7' => '\u{2077}',
        '8' => '\u{2078}',
        '9' => '\u{2079}',
        '+' => '\u{207A}',
        '-' => '\u{207B}',
        '=' => '\u{207C}',
        '(' => '\u{207D}',
        ')' => '\u{207E}',
        'a' => '\u{1D43}',
        'b' => '\u{1D47}',
        'c' => '\u{1D9C}',
        'd' => '\u{1D48}',
        'e' => '\u{1D49}',
        'f' => '\u{1DA0}',
        'g' => '\u{1D4D}',
        'h' => '\u{02B0}',
        'i' => '\u{2071}',
        'j' => '\u{02B2}',
        'k' => '\u{1D4F}',
        'l' => '\u{02E1}',
        'm' => '\u{1D50}',
        'n' => '\u{207F}',
        'o' => '\u{1D52}',
        'p' => '\u{1D56}',
        'r' => '\u{02B3}',
        's' => '\u{02E2}',
        't' => '\u{1D57}',
        'u' => '\u{1D58}',
        'v' => '\u{1D5B}',
        'w' => '\u{02B7}',
        'x' => '\u{02E3}',
        'y' => '\u{02B8}',
        'z' => '\u{1DBB}',
        'A' => '\u{1D2C}',
        'B' => '\u{1D2E}',
        'D' => '\u{1D30}',
        'E' => '\u{1D31}',
        'G' => '\u{1D33}',
        'H' => '\u{1D34}',
        'I' => '\u{1D35}',
        'J' => '\u{1D36}',
        'K' => '\u{1D37}',
        'L' => '\u{1D38}',
        'M' => '\u{1D39}',
        'N' => '\u{1D3A}',
        'O' => '\u{1D3C}',
        'P' => '\u{1D3E}',
        'R' => '\u{1D3F}',
        'T' => '\u{1D40}',
        'U' => '\u{1D41}',
        'V' => '\u{2C7D}',
        'W' => '\u{1D42}',
        _ => {
            return None;
        },
    };
    Some(mapped)
}

} // verus!
