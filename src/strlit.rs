//! Decoding of string literals.

use vstd::prelude::*;
use vstd::utf8::{encode_scalar, is_scalar};
use crate::chars::{hex_digit, hex_val, is_hex_digit, to_hex};
use crate::error::LexErrorKind;
use crate::text::push_utf8;

verus! {

broadcast use vstd::utf8::char_is_scalar;

/// The outcome of a sub-scanner: a value and the position after it, or an
/// error kind and the position it is anchored at.
pub type Scan<T> = Result<(T, int), (LexErrorKind, int)>;

/// Characters that may not stand unescaped in a string literal.
pub open spec fn control(c: char) -> bool {
    (c as u32) < 0x20 || c as u32 == 0x7f
}

/// The rest of a `\u{...}` value after its first digit: `n` is the value so
/// far and `under` says whether the previous character was `_`.
pub open spec fn hexnum_rest(s: Seq<char>, i: int, n: u32, under: bool) -> Scan<u32>
    decreases s.len() - i,
{
    if 0 <= i < s.len() && s[i] == '_' {
        if under {
            Err((LexErrorKind::LoneUnderscore, i))
        } else {
            hexnum_rest(s, i + 1, n, true)
        }
    } else if 0 <= i < s.len() && hex_digit(s[i]) {
        if n * 16 + hex_val(s[i]) > u32::MAX {
            Err((LexErrorKind::NumberTooBig, i))
        } else {
            hexnum_rest(s, i + 1, (n * 16 + hex_val(s[i])) as u32, false)
        }
    } else if under {
        Err((LexErrorKind::LoneUnderscore, i))
    } else {
        Ok((n, i))
    }
}

/// The hexadecimal value of a `\u{...}` escape whose digits start at `i`.
pub open spec fn hexnum(s: Seq<char>, i: int) -> Scan<u32> {
    if i >= s.len() {
        Err((LexErrorKind::UnexpectedEof, s.len() as int))
    } else if !hex_digit(s[i]) {
        Err((LexErrorKind::InvalidHexDigit(s[i]), i))
    } else {
        hexnum_rest(s, i + 1, hex_val(s[i]) as u32, false)
    }
}

/// The byte that a single-letter escape `\c` stands for.
pub open spec fn simple_escape(c: char) -> Option<u8> {
    if c == '"' {
        Some(0x22u8)
    } else if c == '\'' {
        Some(0x27u8)
    } else if c == 't' {
        Some(0x09u8)
    } else if c == 'n' {
        Some(0x0au8)
    } else if c == 'r' {
        Some(0x0du8)
    } else if c == '\\' {
        Some(0x5cu8)
    } else {
        None
    }
}

/// `\u{...}` whose `u` stands at `p`.
pub open spec fn unicode_escape(s: Seq<char>, p: int) -> Scan<Seq<u8>> {
    if p + 1 >= s.len() {
        Err((LexErrorKind::UnexpectedEof, s.len() as int))
    } else if s[p + 1] != '{' {
        Err((LexErrorKind::Expected { wanted: '{', found: s[p + 1] }, p + 1))
    } else {
        match hexnum(s, p + 2) {
            Err(e) => Err(e),
            Ok((n, q)) => if !is_scalar(n) {
                Err((LexErrorKind::InvalidUnicodeValue(n), p))
            } else if q >= s.len() {
                Err((LexErrorKind::UnexpectedEof, s.len() as int))
            } else if s[q] != '}' {
                Err((LexErrorKind::Expected { wanted: '}', found: s[q] }, q))
            } else {
                Ok((encode_scalar(n), q + 1))
            },
        }
    }
}

/// The escape whose letter stands at `p` (just after a `\`).
pub open spec fn escape(s: Seq<char>, p: int) -> Scan<Seq<u8>> {
    if p >= s.len() {
        Err((LexErrorKind::UnexpectedEof, s.len() as int))
    } else if simple_escape(s[p]) is Some {
        Ok((seq![simple_escape(s[p])->0], p + 1))
    } else if s[p] == 'u' {
        unicode_escape(s, p)
    } else if hex_digit(s[p]) {
        if p + 1 >= s.len() {
            Err((LexErrorKind::UnexpectedEof, s.len() as int))
        } else if !hex_digit(s[p + 1]) {
            Err((LexErrorKind::InvalidHexDigit(s[p + 1]), p + 1))
        } else {
            Ok((seq![(hex_val(s[p]) * 16 + hex_val(s[p + 1])) as u8], p + 2))
        }
    } else {
        Err((LexErrorKind::InvalidStringEscape(s[p]), p))
    }
}

/// `bytes` in front of what `r` decoded.
pub open spec fn prepend(bytes: Seq<u8>, r: Scan<Seq<u8>>) -> Scan<Seq<u8>> {
    match r {
        Ok((b, e)) => Ok((bytes + b, e)),
        Err(e) => Err(e),
    }
}

pub(crate) proof fn lemma_escape_progress(s: Seq<char>, p: int)
    requires
        0 <= p,
    ensures
        escape(s, p) matches Ok((_, q)) ==> p < q <= s.len(),
{
    if p < s.len() && simple_escape(s[p]) is None && s[p] == 'u' && p + 1 < s.len() && s[p + 1]
        == '{' && p + 2 < s.len() && hex_digit(s[p + 2]) {
        lemma_hexnum_rest_progress(s, p + 3, hex_val(s[p + 2]) as u32, false);
    }
}

proof fn lemma_hexnum_rest_progress(s: Seq<char>, i: int, n: u32, under: bool)
    requires
        0 <= i,
    ensures
        hexnum_rest(s, i, n, under) matches Ok((_, q)) ==> i <= q,
    decreases s.len() - i,
{
    if 0 <= i < s.len() && s[i] == '_' {
        if !under {
            lemma_hexnum_rest_progress(s, i + 1, n, true);
        }
    } else if 0 <= i < s.len() && hex_digit(s[i]) {
        if n * 16 + hex_val(s[i]) <= u32::MAX {
            lemma_hexnum_rest_progress(s, i + 1, (n * 16 + hex_val(s[i])) as u32, false);
        }
    }
}

/// The body of a string literal from `p` (just after the opening quote, or
/// after an earlier element) through the closing quote.
pub open spec fn string_body(s: Seq<char>, p: int) -> Scan<Seq<u8>>
    decreases s.len() - p,
{
    if p < 0 || p >= s.len() {
        Err((LexErrorKind::UnexpectedEof, s.len() as int))
    } else if s[p] == '"' {
        Ok((Seq::empty(), p + 1))
    } else if s[p] == '\\' {
        match escape(s, p + 1) {
            Err(e) => Err(e),
            // An escape always ends after it starts (`lemma_escape_progress`);
            // the test only makes the recursion visibly well-founded.
            Ok((b, q)) => if q <= p {
                Err((LexErrorKind::UnexpectedEof, s.len() as int))
            } else {
                prepend(b, string_body(s, q))
            },
        }
    } else if control(s[p]) {
        Err((LexErrorKind::InvalidStringElement(s[p]), p))
    } else {
        prepend(encode_scalar(s[p] as u32), string_body(s, p + 1))
    }
}

proof fn lemma_prepend_assoc(a: Seq<u8>, b: Seq<u8>, r: Scan<Seq<u8>>)
    ensures
        prepend(a, prepend(b, r)) == prepend(a + b, r),
{
    if let Ok((c, _)) = r {
        assert(a + (b + c) == (a + b) + c);
    }
}

/// Reads the digits of a `\u{...}` escape starting at `i`.
fn hexnum_exec(s: &Vec<char>, i: usize) -> (r: Result<(u32, usize), (LexErrorKind, usize)>)
    requires
        i <= s@.len(),
    ensures
        match (r, hexnum(s@, i as int)) {
            (Ok((n, q)), Ok((sn, sq))) => n == sn && q == sq,
            (Err((k, at)), Err((sk, sat))) => k == sk && at == sat,
            _ => false,
        },
        r matches Ok((_, q)) ==> i < q <= s@.len(),
        r matches Err((_, at)) ==> at <= s@.len(),
{
    if i >= s.len() {
        return Err((LexErrorKind::UnexpectedEof, s.len()));
    }
    if !is_hex_digit(s[i]) {
        return Err((LexErrorKind::InvalidHexDigit(s[i]), i));
    }
    let mut n: u32 = to_hex(s[i]) as u32;
    let mut under = false;
    let mut j: usize = i + 1;
    while j < s.len() && (s[j] == '_' || is_hex_digit(s[j]))
        invariant
            i < j <= s@.len(),
            hexnum(s@, i as int) == hexnum_rest(s@, j as int, n, under),
        decreases s@.len() - j,
    {
        let c = s[j];
        if c == '_' {
            if under {
                return Err((LexErrorKind::LoneUnderscore, j));
            }
            under = true;
        } else {
            let v = to_hex(c) as u32;
            if n > (u32::MAX - v) / 16 {
                return Err((LexErrorKind::NumberTooBig, j));
            }
            n = n * 16 + v;
            under = false;
        }
        j = j + 1;
    }
    if under {
        return Err((LexErrorKind::LoneUnderscore, j));
    }
    Ok((n, j))
}

/// Reads the letter `c` of a single-letter escape.
fn simple_escape_exec(c: char) -> (r: Option<u8>)
    ensures
        r == simple_escape(c),
{
    if c == '"' {
        Some(0x22u8)
    } else if c == '\'' {
        Some(0x27u8)
    } else if c == 't' {
        Some(0x09u8)
    } else if c == 'n' {
        Some(0x0au8)
    } else if c == 'r' {
        Some(0x0du8)
    } else if c == '\\' {
        Some(0x5cu8)
    } else {
        None
    }
}

/// Decodes the escape whose letter stands at `p`, appending its bytes to `buf`.
fn escape_exec(s: &Vec<char>, p: usize, buf: &mut Vec<u8>) -> (r: Result<usize, (LexErrorKind, usize)>)
    requires
        p <= s@.len(),
    ensures
        match (r, escape(s@, p as int)) {
            (Ok(q), Ok((b, sq))) => q == sq && final(buf)@ == old(buf)@ + b,
            (Err((k, at)), Err((sk, sat))) => k == sk && at == sat,
            _ => false,
        },
        r matches Ok(q) ==> p < q <= s@.len(),
        r matches Err((_, at)) ==> at <= s@.len(),
{
    if p >= s.len() {
        return Err((LexErrorKind::UnexpectedEof, s.len()));
    }
    let c = s[p];
    if let Some(b) = simple_escape_exec(c) {
        buf.push(b);
        return Ok(p + 1);
    }
    if c == 'u' {
        if p + 1 >= s.len() {
            return Err((LexErrorKind::UnexpectedEof, s.len()));
        }
        if s[p + 1] != '{' {
            return Err((LexErrorKind::Expected { wanted: '{', found: s[p + 1] }, p + 1));
        }
        let (n, q) = match hexnum_exec(s, p + 2) {
            Ok(x) => x,
            Err(e) => {
                return Err(e);
            },
        };
        if !(n <= 0xD7FF || (0xE000 <= n && n <= 0x10FFFF)) {
            return Err((LexErrorKind::InvalidUnicodeValue(n), p));
        }
        if q >= s.len() {
            return Err((LexErrorKind::UnexpectedEof, s.len()));
        }
        if s[q] != '}' {
            return Err((LexErrorKind::Expected { wanted: '}', found: s[q] }, q));
        }
        push_utf8(buf, n);
        return Ok(q + 1);
    }
    if is_hex_digit(c) {
        if p + 1 >= s.len() {
            return Err((LexErrorKind::UnexpectedEof, s.len()));
        }
        let c2 = s[p + 1];
        if !is_hex_digit(c2) {
            return Err((LexErrorKind::InvalidHexDigit(c2), p + 1));
        }
        buf.push(to_hex(c) * 16 + to_hex(c2));
        return Ok(p + 2);
    }
    Err((LexErrorKind::InvalidStringEscape(c), p))
}

/// Decodes a string literal whose opening quote stands just before `p`:
/// the bytes it denotes and the position after its closing quote.
pub(crate) fn string_exec(s: &Vec<char>, p: usize) -> (r: Result<(Vec<u8>, usize), (LexErrorKind, usize)>)
    requires
        p <= s@.len(),
    ensures
        match (r, string_body(s@, p as int)) {
            (Ok((v, e)), Ok((b, q))) => v@ == b && e == q,
            (Err((k, at)), Err((sk, sat))) => k == sk && at == sat,
            _ => false,
        },
        r matches Ok((_, e)) ==> p < e <= s@.len(),
        r matches Err((_, at)) ==> at <= s@.len(),
{
    let mut buf: Vec<u8> = Vec::new();
    let mut i: usize = p;
    loop
        invariant
            p <= i <= s@.len(),
            string_body(s@, p as int) == prepend(buf@, string_body(s@, i as int)),
        decreases s@.len() - i,
    {
        if i >= s.len() {
            return Err((LexErrorKind::UnexpectedEof, s.len()));
        }
        let c = s[i];
        let ghost before = buf@;
        if c == '"' {
            assert(buf@ + Seq::<u8>::empty() == buf@);
            return Ok((buf, i + 1));
        } else if c == '\\' {
            match escape_exec(s, i + 1, &mut buf) {
                Ok(q) => {
                    proof {
                        let eb = escape(s@, i + 1)->Ok_0.0;
                        lemma_prepend_assoc(before, eb, string_body(s@, q as int));
                    }
                    i = q;
                },
                Err(e) => {
                    return Err(e);
                },
            }
        } else if (c as u32) < 0x20 || c as u32 == 0x7f {
            return Err((LexErrorKind::InvalidStringElement(c), i));
        } else {
            proof {
                vstd::utf8::char_is_scalar(c);
            }
            push_utf8(&mut buf, c as u32);
            proof {
                lemma_prepend_assoc(before, encode_scalar(c as u32), string_body(s@, i + 1));
            }
            i = i + 1;
        }
    }
}

/// A string body that ends at `e` decodes the same way in any window `s[a..b]`
/// that holds it: only the characters before `e` are read.
pub(crate) proof fn lemma_string_window(s: Seq<char>, a: int, b: int, p: int)
    requires
        0 <= a <= p <= b <= s.len(),
        string_body(s, p) matches Ok((_, e)) && e <= b,
    ensures
        string_body(s.subrange(a, b), p - a) == (match string_body(s, p) {
            Ok((bytes, e)) => Ok((bytes, e - a)),
            Err(x) => Err(x),
        }),
    decreases s.len() - p,
{
    let w = s.subrange(a, b);
    lemma_string_progress(s, p);
    assert(w[p - a] == s[p]);
    if s[p] == '\\' {
        lemma_escape_progress(s, p + 1);
        let q = escape(s, p + 1)->Ok_0.1;
        lemma_string_progress(s, q);
        lemma_escape_window(s, a, b, p + 1);
        lemma_string_window(s, a, b, q);
    } else if s[p] != '"' && !control(s[p]) {
        lemma_string_window(s, a, b, p + 1);
    }
}

proof fn lemma_escape_window(s: Seq<char>, a: int, b: int, p: int)
    requires
        0 <= a <= p <= b <= s.len(),
        escape(s, p) matches Ok((_, q)) && q <= b,
    ensures
        escape(s.subrange(a, b), p - a) == (match escape(s, p) {
            Ok((bytes, q)) => Ok((bytes, q - a)),
            Err(x) => Err(x),
        }),
{
    let w = s.subrange(a, b);
    lemma_escape_progress(s, p);
    assert(w[p - a] == s[p]);
    if simple_escape(s[p]) is None && s[p] == 'u' {
        assert(w[p + 1 - a] == s[p + 1]);
        lemma_hexnum_progress(s, p + 2);
        let q = hexnum(s, p + 2)->Ok_0.1;
        lemma_hexnum_window(s, a, b, p + 2);
        assert(w[q - a] == s[q]);
    } else if simple_escape(s[p]) is None && hex_digit(s[p]) {
        assert(w[p + 1 - a] == s[p + 1]);
    }
}

proof fn lemma_hexnum_progress(s: Seq<char>, i: int)
    requires
        0 <= i,
    ensures
        hexnum(s, i) matches Ok((_, q)) ==> i < q,
{
    if i < s.len() && hex_digit(s[i]) {
        lemma_hexnum_rest_progress(s, i + 1, hex_val(s[i]) as u32, false);
    }
}

proof fn lemma_hexnum_window(s: Seq<char>, a: int, b: int, i: int)
    requires
        0 <= a <= i <= b <= s.len(),
        hexnum(s, i) matches Ok((_, q)) && q < b,
    ensures
        hexnum(s.subrange(a, b), i - a) == (match hexnum(s, i) {
            Ok((n, q)) => Ok((n, q - a)),
            Err(x) => Err(x),
        }),
{
    lemma_hexnum_progress(s, i);
    assert(s.subrange(a, b)[i - a] == s[i]);
    lemma_hexnum_rest_window(s, a, b, i + 1, hex_val(s[i]) as u32, false);
}

proof fn lemma_hexnum_rest_window(s: Seq<char>, a: int, b: int, i: int, n: u32, under: bool)
    requires
        0 <= a <= i <= b <= s.len(),
        hexnum_rest(s, i, n, under) matches Ok((_, q)) && q < b,
    ensures
        hexnum_rest(s.subrange(a, b), i - a, n, under) == (match hexnum_rest(s, i, n, under) {
            Ok((m, q)) => Ok((m, q - a)),
            Err(x) => Err(x),
        }),
    decreases s.len() - i,
{
    lemma_hexnum_rest_progress(s, i, n, under);
    let w = s.subrange(a, b);
    assert(i < b);
    assert(w[i - a] == s[i]);
    if s[i] == '_' {
        if !under {
            lemma_hexnum_rest_window(s, a, b, i + 1, n, true);
        }
    } else if hex_digit(s[i]) {
        if n * 16 + hex_val(s[i]) <= u32::MAX {
            lemma_hexnum_rest_window(s, a, b, i + 1, (n * 16 + hex_val(s[i])) as u32, false);
        }
    }
}

/// A string body that is decoded ends after where it starts.
pub(crate) proof fn lemma_string_progress(s: Seq<char>, p: int)
    requires
        0 <= p,
    ensures
        string_body(s, p) matches Ok((_, e)) ==> p < e <= s.len(),
    decreases s.len() - p,
{
    if 0 <= p < s.len() && s[p] != '"' {
        if s[p] == '\\' {
            lemma_escape_progress(s, p + 1);
            if let Ok((_, q)) = escape(s, p + 1) {
                if q > p {
                    lemma_string_progress(s, q);
                }
            }
        } else if !control(s[p]) {
            lemma_string_progress(s, p + 1);
        }
    }
}

proof fn lemma_hexnum_rest_errors(s: Seq<char>, i: int, n: u32, under: bool)
    requires
        0 <= i <= s.len(),
    ensures
        hexnum_rest(s, i, n, under) matches Err((_, at)) ==> i <= at <= s.len(),
        hexnum_rest(s, i, n, under) matches Ok((_, q)) ==> i <= q <= s.len(),
    decreases s.len() - i,
{
    if i < s.len() && s[i] == '_' {
        if !under {
            lemma_hexnum_rest_errors(s, i + 1, n, true);
        }
    } else if i < s.len() && hex_digit(s[i]) {
        if n * 16 + hex_val(s[i]) <= u32::MAX {
            lemma_hexnum_rest_errors(s, i + 1, (n * 16 + hex_val(s[i])) as u32, false);
        }
    }
}

/// An error in a string body is anchored inside the input, at or after where
/// the body starts.
pub(crate) proof fn lemma_string_errors(s: Seq<char>, p: int)
    requires
        0 <= p <= s.len(),
    ensures
        string_body(s, p) matches Err((_, at)) ==> p <= at <= s.len(),
    decreases s.len() - p,
{
    if 0 <= p < s.len() && s[p] != '"' {
        if s[p] == '\\' {
            lemma_escape_progress(s, p + 1);
            if p + 4 <= s.len() && s[p + 1] == 'u' {
                lemma_hexnum_rest_errors(s, p + 4, hex_val(s[p + 3]) as u32, false);
            }
            if let Ok((_, q)) = escape(s, p + 1) {
                if q > p {
                    lemma_string_errors(s, q);
                }
            }
        } else if !control(s[p]) {
            lemma_string_errors(s, p + 1);
        }
    }
}

} // verus!
