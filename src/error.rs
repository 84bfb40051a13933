//! Errors of the lexer, each anchored at a position of the input.

use vstd::prelude::*;
use vstd::string::StringExecFns;
use crate::chars::hex_digit_char;
use crate::text::push_char;

verus! {

/// The different classes of errors that can happen while lexing.
#[derive(Debug, Clone, Copy, PartialEq, Eq, Structural)]
pub enum LexErrorKind {
    /// A `(;` was never closed by its matching `;)`.
    DanglingBlockComment,
    /// A character that no fragment can start with.
    Unexpected(char),
    /// A control character inside a string literal.
    InvalidStringElement(char),
    /// An unknown letter after `\` in a string literal.
    InvalidStringEscape(char),
    /// A character that should have been a hexadecimal digit.
    InvalidHexDigit(char),
    /// A character that should have been a decimal digit.
    InvalidDigit(char),
    /// `wanted` was required but `found` came instead.
    Expected { wanted: char, found: char },
    /// The input ended in the middle of a fragment.
    UnexpectedEof,
    /// A `\u{...}` value does not fit in 32 bits.
    NumberTooBig,
    /// A `\u{...}` value is no Unicode scalar value.
    InvalidUnicodeValue(u32),
    /// An underscore in a `\u{...}` value that is not between two digits.
    LoneUnderscore,
}

/// An error, with its byte offset and its 0-indexed line and column.
#[derive(Debug, Clone, Copy, PartialEq, Eq)]
pub struct LexError {
    /// 0-indexed line of the error.
    pub line: usize,
    /// 0-indexed column (in characters) of the error.
    pub col: usize,
    /// Byte offset of the error in the input.
    pub pos: usize,
    /// What went wrong.
    pub kind: LexErrorKind,
}

impl LexError {
    /// What went wrong.
    pub fn kind(&self) -> (r: &LexErrorKind)
        ensures
            *r == self.kind,
    {
        &self.kind
    }

    /// The 0-indexed line of the error.
    pub fn line(&self) -> (r: usize)
        ensures
            r == self.line,
    {
        self.line
    }

    /// The 0-indexed column of the error.
    pub fn col(&self) -> (r: usize)
        ensures
            r == self.col,
    {
        self.col
    }

    /// The byte offset of the error.
    pub fn pos(&self) -> (r: usize)
        ensures
            r == self.pos,
    {
        self.pos
    }
}

/// How `char`'s `Debug` formatting writes `c`: quoted and escaped.
pub uninterp spec fn char_debug(c: char) -> Seq<char>;

/// Relies on the `Debug` formatting of `char`, which quotes and escapes the character.
#[verifier::external_body]
fn quoted(c: char) -> (r: String)
    ensures
        r@ == char_debug(c),
{
    format!("{:?}", c)
}

/// `n` in lower-case hexadecimal, without leading zeros.
pub open spec fn hex_text(n: nat) -> Seq<char>
    decreases n,
{
    if n < 16 {
        seq![hex_digit_char(n)]
    } else {
        hex_text(n / 16).push(hex_digit_char(n % 16))
    }
}

fn hex_string(n: u32) -> (r: String)
    ensures
        r@ == hex_text(n as nat),
    decreases n,
{
    let d = n % 16;
    let c = if d < 10 {
        ('0' as u8 + d as u8) as char
    } else {
        ('a' as u8 + (d - 10) as u8) as char
    };
    let mut s = if n < 16 {
        String::new()
    } else {
        hex_string(n / 16)
    };
    push_char(&mut s, c);
    s
}

/// The message for an error of kind `k`.
pub open spec fn message_of(k: LexErrorKind) -> Seq<char> {
    match k {
        LexErrorKind::DanglingBlockComment => "unterminated block comment"@,
        LexErrorKind::Unexpected(c) => "unexpected character "@ + char_debug(c),
        LexErrorKind::InvalidStringElement(c) => "invalid character in string "@ + char_debug(c),
        LexErrorKind::InvalidStringEscape(c) => "invalid string escape "@ + char_debug(c),
        LexErrorKind::InvalidHexDigit(c) => "invalid hex digit "@ + char_debug(c),
        LexErrorKind::InvalidDigit(c) => "invalid decimal digit "@ + char_debug(c),
        LexErrorKind::Expected { wanted, found } => "expected "@ + char_debug(wanted) + " but found "@
            + char_debug(found),
        LexErrorKind::UnexpectedEof => "unexpected end-of-file"@,
        LexErrorKind::NumberTooBig => "number is too big to parse"@,
        LexErrorKind::InvalidUnicodeValue(n) => "invalid unicode scalar value "@ + hex_text(n as nat),
        LexErrorKind::LoneUnderscore => "bare underscore in numeric literal"@,
    }
}

impl LexError {
    /// A one-line, human-readable description of the error.
    pub fn message(&self) -> (r: String)
        ensures
            r@ == message_of(self.kind),
    {
        match self.kind {
            LexErrorKind::DanglingBlockComment => String::from_str("unterminated block comment"),
            LexErrorKind::Unexpected(c) => String::from_str("unexpected character ").concat(
                quoted(c).as_str(),
            ),
            LexErrorKind::InvalidStringElement(c) => String::from_str(
                "invalid character in string ",
            ).concat(quoted(c).as_str()),
            LexErrorKind::InvalidStringEscape(c) => String::from_str("invalid string escape ").concat(
                quoted(c).as_str(),
            ),
            LexErrorKind::InvalidHexDigit(c) => String::from_str("invalid hex digit ").concat(
                quoted(c).as_str(),
            ),
            LexErrorKind::InvalidDigit(c) => String::from_str("invalid decimal digit ").concat(
                quoted(c).as_str(),
            ),
            LexErrorKind::Expected { wanted, found } => String::from_str("expected ").concat(
                quoted(wanted).as_str(),
            ).concat(" but found ").concat(quoted(found).as_str()),
            LexErrorKind::UnexpectedEof => String::from_str("unexpected end-of-file"),
            LexErrorKind::NumberTooBig => String::from_str("number is too big to parse"),
            LexErrorKind::InvalidUnicodeValue(n) => String::from_str(
                "invalid unicode scalar value ",
            ).concat(hex_string(n).as_str()),
            LexErrorKind::LoneUnderscore => String::from_str("bare underscore in numeric literal"),
        }
    }
}

} // verus!
