//! Small text helpers the lexer builds its owned values with.

use vstd::prelude::*;
use vstd::utf8::{encode_scalar, is_scalar};

verus! {

/// Relies on `String::push`: the character is appended at the end.
#[verifier::external_body]
pub(crate) fn push_char(s: &mut String, c: char)
    ensures
        final(s)@ == old(s)@.push(c),
{
    s.push(c)
}

/// Removes every `_` from a character sequence, keeping the order of the rest.
pub open spec fn strip_underscores(s: Seq<char>) -> Seq<char>
    decreases s.len(),
{
    if s.len() == 0 {
        s
    } else if s.last() == '_' {
        strip_underscores(s.drop_last())
    } else {
        strip_underscores(s.drop_last()).push(s.last())
    }
}

/// `d` preceded by `-` when `negative`.
pub open spec fn signed(negative: bool, d: Seq<char>) -> Seq<char> {
    if negative {
        seq!['-'] + d
    } else {
        d
    }
}

/// Appends the UTF-8 encoding of the scalar value `v`.
pub(crate) fn push_utf8(buf: &mut Vec<u8>, v: u32)
    requires
        is_scalar(v),
    ensures
        final(buf)@ == old(buf)@ + encode_scalar(v),
{
    if v <= 0x7F {
        buf.push((v & 0x7F) as u8);
    } else if v <= 0x7FF {
        buf.push(0xC0 | ((v >> 6) & 0x1F) as u8);
        buf.push(0x80 | (v & 0x3F) as u8);
    } else if v <= 0xFFFF {
        buf.push(0xE0 | ((v >> 12) & 0x0F) as u8);
        buf.push(0x80 | ((v >> 6) & 0x3F) as u8);
        buf.push(0x80 | (v & 0x3F) as u8);
    } else {
        buf.push(0xF0 | ((v >> 18) & 0x7) as u8);
        buf.push(0x80 | ((v >> 12) & 0x3F) as u8);
        buf.push(0x80 | ((v >> 6) & 0x3F) as u8);
        buf.push(0x80 | (v & 0x3F) as u8);
    }
}

} // verus!
