//! Classification of an identifier-character run as an integer or a float.

use vstd::prelude::*;
use crate::chars::{hex_digit, hex_val, is_radix_digit, radix_digit, to_hex};
use crate::text::{push_char, signed, strip_underscores};
use crate::token::{opt_view, Float, FloatModel, FloatVal, Integer, Token, TokenModel};

verus! {

/// Whether `c` may stand in a digit run of the given radix.
pub open spec fn run_char(c: char, hex: bool) -> bool {
    radix_digit(c, hex) || c == '_'
}

/// End of the maximal run of digits and underscores that starts at `i`.
pub open spec fn run_end(t: Seq<char>, i: int, hex: bool) -> int
    decreases t.len() - i,
{
    if 0 <= i < t.len() && run_char(t[i], hex) {
        run_end(t, i + 1, hex)
    } else {
        i
    }
}

/// `t[i..j]` is a valid digit run: it starts and ends with a digit and every
/// underscore stands between two digits.
pub open spec fn run_ok(t: Seq<char>, i: int, j: int, hex: bool) -> bool {
    &&& 0 <= i < j <= t.len()
    &&& radix_digit(t[i], hex)
    &&& radix_digit(t[j - 1], hex)
    &&& forall|k: int| i <= k < j - 1 ==> !(#[trigger] t[k] == '_' && t[k + 1] == '_')
}

/// The digits of the maximal run at `i`, underscores removed.
pub open spec fn run_digits(t: Seq<char>, i: int, hex: bool) -> Seq<char> {
    strip_underscores(t.subrange(i, run_end(t, i, hex)))
}

/// The value of a sequence of hexadecimal digits.
pub open spec fn hex_value(d: Seq<char>) -> nat
    decreases d.len(),
{
    if d.len() == 0 {
        0
    } else {
        hex_value(d.drop_last()) * 16 + hex_val(d.last())
    }
}

/// The text `inf`.
pub open spec fn is_inf(u: Seq<char>) -> bool {
    u == seq!['i', 'n', 'f']
}

/// The text `nan`.
pub open spec fn is_nan(u: Seq<char>) -> bool {
    u == seq!['n', 'a', 'n']
}

/// Text that starts with `nan:0x`.
pub open spec fn has_nan_payload_prefix(u: Seq<char>) -> bool {
    u.len() >= 6 && u.subrange(0, 6) == seq!['n', 'a', 'n', ':', '0', 'x']
}

/// Text that starts with `0x`.
pub open spec fn has_hex_prefix(u: Seq<char>) -> bool {
    u.len() >= 2 && u[0] == '0' && u[1] == 'x'
}

/// Whether `c` introduces the exponent of a float of the given radix.
pub open spec fn exp_marker(c: char, hex: bool) -> bool {
    if hex {
        c == 'p' || c == 'P'
    } else {
        c == 'e' || c == 'E'
    }
}

/// Length of the sign at the start of `t` (0 or 1).
pub open spec fn sign_len(t: Seq<char>) -> int {
    if t.len() > 0 && (t[0] == '+' || t[0] == '-') {
        1
    } else {
        0
    }
}

/// Whether `t` starts with `-`.
pub open spec fn sign_negative(t: Seq<char>) -> bool {
    t.len() > 0 && t[0] == '-'
}

/// The payload of `nan:0x...` (`u` is the run without its sign).
pub open spec fn nan_payload(u: Seq<char>) -> Option<u64> {
    let e = run_end(u, 6, true);
    if e == u.len() && run_ok(u, 6, e, true) && hex_value(run_digits(u, 6, true)) < 0x1_0000_0000_0000_0000 {
        Some(hex_value(run_digits(u, 6, true)) as u64)
    } else {
        None
    }
}

/// The exponent part of a float, starting at the marker `m`: the signed digits,
/// or `None` when it is malformed or does not reach the end of `u`.
pub open spec fn exponent_part(u: Seq<char>, m: int) -> Option<Seq<char>> {
    let neg = u.len() - m > 1 && u[m + 1] == '-';
    let s = if u.len() - m > 1 && (u[m + 1] == '-' || u[m + 1] == '+') { m + 2 } else { m + 1 };
    let e = run_end(u, s, false);
    if run_ok(u, s, e, false) && e == u.len() {
        Some(signed(neg, run_digits(u, s, false)))
    } else {
        None
    }
}

/// The numeric reading of the unsigned text `u` that follows the integral run
/// ending at `e1`: the fraction and exponent of a float, or `None`.
pub open spec fn float_tail(u: Seq<char>, e1: int, hex: bool) -> Option<(Option<Seq<char>>, Option<Seq<char>>)> {
    let has_dot = u[e1] == '.';
    let has_frac = has_dot && u.len() - e1 > 1 && radix_digit(u[e1 + 1], hex);
    let e2 = if has_frac { run_end(u, e1 + 1, hex) } else if has_dot { e1 + 1 } else { e1 };
    let decimal = if has_frac { Some(run_digits(u, e1 + 1, hex)) } else { None };
    if has_frac && !run_ok(u, e1 + 1, e2, hex) {
        None
    } else if e2 == u.len() {
        Some((decimal, None))
    } else if exp_marker(u[e2], hex) {
        match exponent_part(u, e2) {
            Some(x) => Some((decimal, Some(x))),
            None => None,
        }
    } else {
        None
    }
}

/// What the run `t` denotes as a number, if it is one.
pub open spec fn numeric(t: Seq<char>) -> Option<TokenModel> {
    let negative = sign_negative(t);
    let u = t.subrange(sign_len(t), t.len() as int);
    if is_inf(u) {
        Some(TokenModel::Float { val: FloatModel::Inf { negative } })
    } else if is_nan(u) {
        Some(TokenModel::Float { val: FloatModel::Nan { payload: None, negative } })
    } else if has_nan_payload_prefix(u) {
        match nan_payload(u) {
            Some(p) => Some(TokenModel::Float { val: FloatModel::Nan { payload: Some(p), negative } }),
            None => None,
        }
    } else {
        let hex = has_hex_prefix(u);
        let i0: int = if hex { 2 } else { 0 };
        let e1 = run_end(u, i0, hex);
        let integral = signed(negative, run_digits(u, i0, hex));
        if !run_ok(u, i0, e1, hex) {
            None
        } else if e1 == u.len() {
            Some(TokenModel::Int { digits: integral, hex })
        } else {
            match float_tail(u, e1, hex) {
                Some((decimal, exponent)) => Some(
                    TokenModel::Float { val: FloatModel::Val { hex, integral, decimal, exponent } },
                ),
                None => None,
            }
        }
    }
}

proof fn lemma_run_end_bounds(t: Seq<char>, i: int, hex: bool)
    requires
        0 <= i <= t.len(),
    ensures
        i <= run_end(t, i, hex) <= t.len(),
        forall|k: int| i <= k < run_end(t, i, hex) ==> run_char(#[trigger] t[k], hex),
        run_end(t, i, hex) < t.len() ==> !run_char(t[run_end(t, i, hex)], hex),
    decreases t.len() - i,
{
    if i < t.len() && run_char(t[i], hex) {
        lemma_run_end_bounds(t, i + 1, hex);
    }
}

/// Scans the maximal digit run of `t` at `i`. Returns the digits (after a `-`
/// when `negative`) and the end of the run when the run is valid.
fn digit_run(t: &Vec<char>, i: usize, hex: bool, negative: bool) -> (r: Option<(String, usize)>)
    requires
        i <= t@.len(),
    ensures
        r is Some <==> run_ok(t@, i as int, run_end(t@, i as int, hex), hex),
        r matches Some((d, e)) ==> d@ == signed(negative, run_digits(t@, i as int, hex)) && e
            == run_end(t@, i as int, hex),
{
    proof {
        lemma_run_end_bounds(t@, i as int, hex);
    }
    let mut out = String::new();
    if negative {
        push_char(&mut out, '-');
    }
    let mut j: usize = i;
    let mut doubled = false;
    while j < t.len() && (is_radix_digit(t[j], hex) || t[j] == '_')
        invariant
            i <= j <= t@.len(),
            run_end(t@, j as int, hex) == run_end(t@, i as int, hex),
            out@ == signed(negative, strip_underscores(t@.subrange(i as int, j as int))),
            doubled == exists|k: int| i <= k < j - 1 && #[trigger] t@[k] == '_' && t@[k + 1] == '_',
        decreases t@.len() - j,
    {
        let c = t[j];
        if c == '_' && j > i && t[j - 1] == '_' {
            doubled = true;
        }
        if c != '_' {
            push_char(&mut out, c);
        }
        proof {
            let s = t@.subrange(i as int, j as int + 1);
            assert(s.drop_last() == t@.subrange(i as int, j as int));
            if negative && c != '_' {
                assert(seq!['-'] + strip_underscores(s) == (seq!['-'] + strip_underscores(
                    s.drop_last(),
                )).push(c));
            }
            if !doubled && !(c == '_' && j > i && t@[j - 1] == '_') {
                assert forall|k: int| i <= k < j && #[trigger] t@[k] == '_' implies t@[k + 1] != '_' by {
                    if k < j - 1 {
                        assert(!(t@[k] == '_' && t@[k + 1] == '_'));
                    }
                }
            }
        }
        j = j + 1;
    }
    if j == i || !is_radix_digit(t[i], hex) || !is_radix_digit(t[j - 1], hex) || doubled {
        proof {
            if doubled {
                let k = choose|k: int| i <= k < j - 1 && #[trigger] t@[k] == '_' && t@[k + 1] == '_';
                assert(t@[k] == '_' && t@[k + 1] == '_');
            }
        }
        None
    } else {
        assert forall|k: int| i <= k < j - 1 implies !(#[trigger] t@[k] == '_' && t@[k + 1] == '_') by {
            if t@[k] == '_' && t@[k + 1] == '_' {
                assert(exists|k: int| i <= k < j - 1 && #[trigger] t@[k] == '_' && t@[k + 1] == '_');
            }
        }
        Some((out, j))
    }
}

/// The signed digits of the exponent whose marker stands at `m`.
fn exponent_part_exec(u: &Vec<char>, m: usize) -> (r: Option<String>)
    requires
        m < u@.len(),
    ensures
        opt_view(r) == exponent_part(u@, m as int),
{
    let neg = u.len() - m > 1 && u[m + 1] == '-';
    let s = if u.len() - m > 1 && (u[m + 1] == '-' || u[m + 1] == '+') {
        m + 2
    } else {
        m + 1
    };
    match digit_run(u, s, false, neg) {
        Some((d, e)) => {
            if e == u.len() {
                Some(d)
            } else {
                None
            }
        },
        None => None,
    }
}

/// The fraction and exponent that follow the integral run ending at `e1`.
fn float_tail_exec(u: &Vec<char>, e1: usize, hex: bool) -> (r: Option<(Option<String>, Option<String>)>)
    requires
        e1 < u@.len(),
    ensures
        match (r, float_tail(u@, e1 as int, hex)) {
            (Some((d, x)), Some((sd, sx))) => opt_view(d) == sd && opt_view(x) == sx,
            (None, None) => true,
            _ => false,
        },
{
    let has_dot = u[e1] == '.';
    let has_frac = has_dot && u.len() - e1 > 1 && is_radix_digit(u[e1 + 1], hex);
    let mut decimal: Option<String> = None;
    let mut e2 = e1;
    if has_frac {
        match digit_run(u, e1 + 1, hex, false) {
            Some((d, e)) => {
                decimal = Some(d);
                e2 = e;
            },
            None => {
                return None;
            },
        }
    } else if has_dot {
        e2 = e1 + 1;
    }
    proof {
        lemma_run_end_bounds(u@, e1 as int + 1, hex);
    }
    if e2 == u.len() {
        Some((decimal, None))
    } else {
        let c = u[e2];
        let is_marker = if hex {
            c == 'p' || c == 'P'
        } else {
            c == 'e' || c == 'E'
        };
        if is_marker {
            match exponent_part_exec(u, e2) {
                Some(x) => Some((decimal, Some(x))),
                None => None,
            }
        } else {
            None
        }
    }
}

/// The payload of `nan:0x...`: `u` is the run without its sign.
fn nan_payload_exec(u: &Vec<char>) -> (r: Option<u64>)
    requires
        u@.len() >= 6,
    ensures
        r == nan_payload(u@),
{
    match digit_run(u, 6, true, false) {
        None => None,
        Some((_, e)) => {
            if e != u.len() {
                return None;
            }
            proof {
                lemma_run_end_bounds(u@, 6, true);
            }
            let mut acc: u64 = 0;
            let mut big = false;
            let mut i: usize = 6;
            while i < e
                invariant
                    6 <= i <= e == u@.len(),
                    forall|k: int| 6 <= k < e ==> run_char(#[trigger] u@[k], true),
                    big ==> hex_value(strip_underscores(u@.subrange(6, i as int)))
                        >= 0x1_0000_0000_0000_0000,
                    !big ==> acc == hex_value(strip_underscores(u@.subrange(6, i as int))),
                decreases e - i,
            {
                let c = u[i];
                proof {
                    let s = u@.subrange(6, i as int + 1);
                    assert(s.drop_last() == u@.subrange(6, i as int));
                    if c != '_' {
                        assert(strip_underscores(s) == strip_underscores(s.drop_last()).push(c));
                        assert(strip_underscores(s).drop_last() == strip_underscores(s.drop_last()));
                    }
                }
                if c != '_' && !big {
                    let v = to_hex(c) as u64;
                    if acc > (u64::MAX - v) / 16 {
                        big = true;
                    } else {
                        acc = acc * 16 + v;
                    }
                }
                i = i + 1;
            }
            if big {
                None
            } else {
                Some(acc)
            }
        },
    }
}

/// A copy of `t[k..]`.
fn tail_of(t: &Vec<char>, k: usize) -> (r: Vec<char>)
    requires
        k <= t@.len(),
    ensures
        r@ == t@.subrange(k as int, t@.len() as int),
{
    let mut r: Vec<char> = Vec::new();
    let mut i: usize = k;
    while i < t.len()
        invariant
            k <= i <= t@.len(),
            r@ == t@.subrange(k as int, i as int),
        decreases t@.len() - i,
    {
        r.push(t[i]);
        i = i + 1;
    }
    r
}

/// Reads the identifier-character run `t` (whose source text is `src`) as a
/// number: an integer or a float token, or `None` when it is no number.
pub(crate) fn number<'a>(src: &'a str, t: &Vec<char>) -> (r: Option<Token<'a>>)
    requires
        src@ == t@,
    ensures
        match r {
            Some(tok) => numeric(t@) == Some(tok.model()) && tok.span() == t@,
            None => numeric(t@) is None,
        },
{
    let negative = t.len() > 0 && t[0] == '-';
    let k: usize = if t.len() > 0 && (t[0] == '+' || t[0] == '-') {
        1
    } else {
        0
    };
    let u = tail_of(t, k);
    let n = u.len();
    let ghost uu = u@;
    assert(uu == t@.subrange(sign_len(t@), t@.len() as int));
    if n == 3 && u[0] == 'i' && u[1] == 'n' && u[2] == 'f' {
        assert(uu == seq!['i', 'n', 'f']);
        return Some(Token::Float(Float { src, val: FloatVal::Inf { negative } }));
    }
    assert(!is_inf(uu)) by {
        if is_inf(uu) {
            assert(uu.len() == 3 && uu[0] == 'i' && uu[1] == 'n' && uu[2] == 'f');
        }
    }
    if n == 3 && u[0] == 'n' && u[1] == 'a' && u[2] == 'n' {
        assert(uu == seq!['n', 'a', 'n']);
        return Some(Token::Float(Float { src, val: FloatVal::Nan { val: None, negative } }));
    }
    assert(!is_nan(uu)) by {
        if is_nan(uu) {
            assert(uu.len() == 3 && uu[0] == 'n' && uu[1] == 'a' && uu[2] == 'n');
        }
    }
    if n >= 6 && u[0] == 'n' && u[1] == 'a' && u[2] == 'n' && u[3] == ':' && u[4] == '0' && u[5]
        == 'x' {
        assert(uu.subrange(0, 6) == seq!['n', 'a', 'n', ':', '0', 'x']);
        return match nan_payload_exec(&u) {
            Some(p) => Some(Token::Float(Float { src, val: FloatVal::Nan { val: Some(p), negative } })),
            None => None,
        };
    }
    assert(!has_nan_payload_prefix(uu)) by {
        if has_nan_payload_prefix(uu) {
            let p = uu.subrange(0, 6);
            assert(p[0] == 'n' && p[1] == 'a' && p[2] == 'n' && p[3] == ':' && p[4] == '0' && p[5] == 'x');
        }
    }
    let hex = n >= 2 && u[0] == '0' && u[1] == 'x';
    let i0: usize = if hex {
        2
    } else {
        0
    };
    match digit_run(&u, i0, hex, negative) {
        None => None,
        Some((integral, e1)) => {
            if e1 == n {
                Some(Token::Integer(Integer { src, val: integral, hex }))
            } else {
                proof {
                    lemma_run_end_bounds(uu, i0 as int, hex);
                }
                match float_tail_exec(&u, e1, hex) {
                    Some((decimal, exponent)) => Some(
                        Token::Float(
                            Float { src, val: FloatVal::Val { hex, integral, decimal, exponent } },
                        ),
                    ),
                    None => None,
                }
            }
        },
    }
}

} // verus!
