//! Properties that hold of every input.

use vstd::prelude::*;
use crate::chars::{hex_digit, hex_digit_char, hex_val, idchar};
use crate::error::LexErrorKind;
use crate::lexer::{
    idrun_end, lemma_block_end, lemma_idrun_end, lemma_line_end, lemma_ws_end, lex_step, starts2,
    ws_end, Step,
};
use crate::strlit::{
    escape, lemma_string_errors, lemma_string_progress, lemma_string_window, string_body,
};
use crate::token::{FragmentModel, TokenModel};

verus! {

/// The fragments of a complete scan from `p`, each with its start and end, or
/// `None` when lexing fails on the way.
pub open spec fn scan_from(s: Seq<char>, p: int) -> Option<Seq<(FragmentModel, int, int)>>
    decreases s.len() - p,
{
    match lex_step(s, p) {
        Step::Done => Some(Seq::empty()),
        Step::Frag { frag, end } => if p < end <= s.len() {
            match scan_from(s, end) {
                Some(rest) => Some(seq![(frag, p, end)] + rest),
                None => None,
            }
        } else {
            None
        },
        Step::Fail { .. } => None,
    }
}

/// One step of a complete scan.
pub(crate) proof fn lemma_scan_step(s: Seq<char>, p: int)
    requires
        0 <= p <= s.len(),
    ensures
        lex_step(s, p) matches Step::Frag { frag, end } ==> {
            &&& p < end <= s.len()
            &&& scan_from(s, p) is Some <==> scan_from(s, end) is Some
            &&& scan_from(s, end) is Some ==> scan_from(s, p)->0 == seq![(frag, p, end)] + scan_from(
                s,
                end,
            )->0
        },
        lex_step(s, p) is Done ==> scan_from(s, p) == Some(Seq::<(FragmentModel, int, int)>::empty()),
{
    fragments_are_nonempty(s, p);
}

/// The source text of the fragments `f`, one after the other.
pub open spec fn joined(s: Seq<char>, f: Seq<(FragmentModel, int, int)>) -> Seq<char>
    decreases f.len(),
{
    if f.len() == 0 {
        Seq::empty()
    } else {
        s.subrange(f[0].1, f[0].2) + joined(s, f.drop_first())
    }
}

/// When lexing reaches the end of the input, the fragments' source texts,
/// joined in order, give back the input from where lexing started.
pub proof fn span_coverage(s: Seq<char>, p: int)
    requires
        0 <= p <= s.len(),
        scan_from(s, p) is Some,
    ensures
        joined(s, scan_from(s, p)->0) == s.subrange(p, s.len() as int),
    decreases s.len() - p,
{
    match lex_step(s, p) {
        Step::Done => {
            assert(p == s.len());
            assert(s.subrange(p, s.len() as int) == Seq::<char>::empty());
        },
        Step::Frag { frag, end } => {
            span_coverage(s, end);
            let rest = scan_from(s, end)->0;
            let f = seq![(frag, p, end)] + rest;
            assert(f.drop_first() == rest);
            assert(s.subrange(p, end) + s.subrange(end, s.len() as int) == s.subrange(p, s.len() as int));
        },
        Step::Fail { .. } => {},
    }
}

proof fn lemma_hex_digit_char(d: nat)
    requires
        d < 16,
    ensures
        hex_digit(hex_digit_char(d)),
        hex_val(hex_digit_char(d)) == d,
        hex_digit_char(d) != 'u',
{
}

/// For every byte `b`, the string literal `"\XY"`, with `XY` the two
/// hexadecimal digits of `b`, is a string token that denotes the single byte `b`.
pub proof fn hex_escape_round_trip(b: u8)
    ensures
        lex_step(seq!['"', '\\', hex_digit_char((b / 16) as nat), hex_digit_char((b % 16) as nat), '"'], 0) == (Step::Frag {
            frag: FragmentModel::Token { tok: TokenModel::Str { bytes: seq![b] } },
            end: 5,
        }),
{
    let s = seq!['"', '\\', hex_digit_char((b / 16) as nat), hex_digit_char((b % 16) as nat), '"'];
    lemma_hex_digit_char((b / 16) as nat);
    lemma_hex_digit_char((b % 16) as nat);
    assert(escape(s, 2) == Ok::<(Seq<u8>, int), (LexErrorKind, int)>((seq![b], 4)));
    assert(string_body(s, 4) == Ok::<(Seq<u8>, int), (LexErrorKind, int)>((Seq::<u8>::empty(), 5)));
    assert(seq![b] + Seq::<u8>::empty() == seq![b]);
    assert(string_body(s, 1) == Ok::<(Seq<u8>, int), (LexErrorKind, int)>((seq![b], 5)));
}

/// Every fragment that lexing yields is a non-empty part of the input after
/// the position where lexing started.
pub proof fn fragments_are_nonempty(s: Seq<char>, p: int)
    requires
        0 <= p <= s.len(),
    ensures
        lex_step(s, p) matches Step::Frag { end, .. } ==> p < end <= s.len(),
        lex_step(s, p) matches Step::Fail { at, .. } ==> p <= at <= s.len(),
        lex_step(s, p) is Done ==> p == s.len(),
{
    lemma_ws_end(s, p);
    if starts2(s, p, ';', ';') {
        lemma_line_end(s, p + 2);
    }
    lemma_block_end(s, p + 2, 1);
    lemma_idrun_end(s, p);
    if p < s.len() {
        lemma_idrun_end(s, p + 1);
        lemma_string_progress(s, p + 1);
        lemma_string_errors(s, p + 1);
    }
}

proof fn lemma_idrun_chars(s: Seq<char>, p: int)
    requires
        0 <= p <= s.len(),
    ensures
        forall|k: int| p <= k < idrun_end(s, p) ==> idchar(#[trigger] s[k]),
    decreases s.len() - p,
{
    if p < s.len() && idchar(s[p]) {
        lemma_idrun_chars(s, p + 1);
    }
}

proof fn lemma_idrun_all(t: Seq<char>, i: int)
    requires
        0 <= i <= t.len(),
        forall|k: int| 0 <= k < t.len() ==> idchar(#[trigger] t[k]),
    ensures
        idrun_end(t, i) == t.len(),
    decreases t.len() - i,
{
    if i < t.len() {
        lemma_idrun_all(t, i + 1);
    }
}

/// Lexing the source text of a token on its own yields the same token, with
/// the same kind and value, spanning the whole text.
pub proof fn relex_token(s: Seq<char>, p: int)
    requires
        0 <= p <= s.len(),
        lex_step(s, p) matches Step::Frag { frag: FragmentModel::Token { .. }, .. },
    ensures
        lex_step(s, p) matches Step::Frag { frag, end } && lex_step(s.subrange(p, end), 0) == (
        Step::Frag { frag, end: end - p }),
{
    fragments_are_nonempty(s, p);
    let end = lex_step(s, p)->end;
    let t = s.subrange(p, end);
    assert(t[0] == s[p]);
    if t.len() >= 2 {
        assert(t[1] == s[p + 1]);
    }
    assert(ws_end(t, 0) == 0);
    if s[p] == '"' {
        lemma_string_window(s, p, end, p + 1);
    } else if s[p] != '(' && s[p] != ')' {
        lemma_idrun_chars(s, p);
        assert forall|k: int| 0 <= k < t.len() implies idchar(#[trigger] t[k]) by {
            assert(t[k] == s[p + k]);
        }
        lemma_idrun_all(t, 0);
        assert(t.subrange(0, t.len() as int) == t);
    }
}

} // verus!
