//! Character classes of the grammar.

use vstd::prelude::*;

verus! {

/// Characters that may appear in an identifier-character run.
pub open spec fn idchar(c: char) -> bool {
    ('0' <= c && c <= '9') || ('a' <= c && c <= 'z') || ('A' <= c && c <= 'Z') || c == '!'
        || c == '#' || c == '$' || c == '%' || c == '&' || c == '\'' || c == '*' || c == '+'
        || c == '-' || c == '.' || c == '/' || c == ':' || c == '<' || c == '=' || c == '>'
        || c == '?' || c == '@' || c == '\\' || c == '^' || c == '_' || c == '`' || c == '|'
        || c == '~'
}

/// Whitespace characters: space, line feed, carriage return and tab.
pub open spec fn ws_char(c: char) -> bool {
    c == ' ' || c == '\n' || c == '\r' || c == '\t'
}

/// Decimal digits.
pub open spec fn dec_digit(c: char) -> bool {
    '0' <= c && c <= '9'
}

/// Hexadecimal digits, in either case.
pub open spec fn hex_digit(c: char) -> bool {
    ('0' <= c && c <= '9') || ('a' <= c && c <= 'f') || ('A' <= c && c <= 'F')
}

/// The value of a hexadecimal digit.
pub open spec fn hex_val(c: char) -> nat {
    if 'a' <= c && c <= 'f' {
        (c as nat - 'a' as nat + 10) as nat
    } else if 'A' <= c && c <= 'F' {
        (c as nat - 'A' as nat + 10) as nat
    } else {
        (c as nat - '0' as nat) as nat
    }
}

/// The lower-case hexadecimal digit of `d < 16`.
pub open spec fn hex_digit_char(d: nat) -> char {
    if d < 10 {
        ('0' as nat + d) as char
    } else {
        ('a' as nat + d - 10) as char
    }
}

/// A digit of the given radix (16 when `hex`, else 10).
pub open spec fn radix_digit(c: char, hex: bool) -> bool {
    if hex {
        hex_digit(c)
    } else {
        dec_digit(c)
    }
}

/// Whether `c` may appear in an identifier-character run.
pub fn is_idchar(c: char) -> (r: bool)
    ensures
        r == idchar(c),
{
    ('0' <= c && c <= '9') || ('a' <= c && c <= 'z') || ('A' <= c && c <= 'Z') || c == '!'
        || c == '#' || c == '$' || c == '%' || c == '&' || c == '\'' || c == '*' || c == '+'
        || c == '-' || c == '.' || c == '/' || c == ':' || c == '<' || c == '=' || c == '>'
        || c == '?' || c == '@' || c == '\\' || c == '^' || c == '_' || c == '`' || c == '|'
        || c == '~'
}

/// Whether `c` is whitespace.
pub fn is_ws(c: char) -> (r: bool)
    ensures
        r == ws_char(c),
{
    c == ' ' || c == '\n' || c == '\r' || c == '\t'
}

/// Whether `c` is a hexadecimal digit.
pub fn is_hex_digit(c: char) -> (r: bool)
    ensures
        r == hex_digit(c),
{
    ('0' <= c && c <= '9') || ('a' <= c && c <= 'f') || ('A' <= c && c <= 'F')
}

/// Whether `c` is a digit of the given radix.
pub fn is_radix_digit(c: char, hex: bool) -> (r: bool)
    ensures
        r == radix_digit(c, hex),
{
    if hex {
        is_hex_digit(c)
    } else {
        '0' <= c && c <= '9'
    }
}

/// The value of the hexadecimal digit `c`.
pub fn to_hex(c: char) -> (r: u8)
    requires
        hex_digit(c),
    ensures
        r as nat == hex_val(c),
        r < 16,
{
    if 'a' <= c && c <= 'f' {
        (c as u32 - 'a' as u32 + 10) as u8
    } else if 'A' <= c && c <= 'F' {
        (c as u32 - 'A' as u32 + 10) as u8
    } else {
        (c as u32 - '0' as u32) as u8
    }
}

} // verus!
