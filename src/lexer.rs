//! The lexer: one fragment per call, in the order whitespace, comment, token.

use vstd::prelude::*;
use vstd::std_specs::iter::IteratorSpec;
use vstd::string::StringSliceAdditionalSpecFns;
use vstd::utf8::encode_utf8;
use crate::chars::{idchar, is_idchar, is_ws, ws_char};
use crate::error::{LexError, LexErrorKind};
use crate::number::{number, numeric};
use crate::position::{
    byte_offset, char_width, col_of, lemma_encode_boundary, lemma_encode_concat, lemma_encode_injective,
    lemma_utf8_len_encode, lemma_utf8_len_prefix, lemma_utf8_len_push, line_of, to_linecol, utf8_len,
};
use crate::strlit::{string_body, string_exec};
use crate::laws::{fragments_are_nonempty, lemma_scan_step, scan_from};
use crate::token::{Comment, FragmentModel, Source, Token, TokenModel};

verus! {

/// What one call of the lexer does at a position.
pub enum Step {
    /// The input is exhausted.
    Done,
    /// A fragment spans the input up to `end`.
    Frag { frag: FragmentModel, end: int },
    /// Lexing fails with `kind`, anchored at `at`.
    Fail { kind: LexErrorKind, at: int },
}

/// End of the maximal whitespace run at `p`.
pub open spec fn ws_end(s: Seq<char>, p: int) -> int
    decreases s.len() - p,
{
    if 0 <= p < s.len() && ws_char(s[p]) {
        ws_end(s, p + 1)
    } else {
        p
    }
}

/// End of the maximal identifier-character run at `p`.
pub open spec fn idrun_end(s: Seq<char>, p: int) -> int
    decreases s.len() - p,
{
    if 0 <= p < s.len() && idchar(s[p]) {
        idrun_end(s, p + 1)
    } else {
        p
    }
}

/// The next line feed at or after `p`, or the end of the input.
pub open spec fn line_end(s: Seq<char>, p: int) -> int
    decreases s.len() - p,
{
    if 0 <= p < s.len() && s[p] != '\n' {
        line_end(s, p + 1)
    } else {
        p
    }
}

/// The end of a block comment whose body continues at `i` with `depth`
/// comments open, or `None` when the input ends first.
pub open spec fn block_end(s: Seq<char>, i: int, depth: nat) -> Option<int>
    decreases s.len() - i,
{
    if i < 0 || i >= s.len() {
        None
    } else if s[i] == '(' && i + 1 < s.len() && s[i + 1] == ';' {
        block_end(s, i + 2, depth + 1)
    } else if s[i] == ';' && i + 1 < s.len() && s[i + 1] == ')' {
        if depth <= 1 {
            Some(i + 2)
        } else {
            block_end(s, i + 2, (depth - 1) as nat)
        }
    } else {
        block_end(s, i + 1, depth)
    }
}

/// `s` holds `a` then `b` at `p`.
pub open spec fn starts2(s: Seq<char>, p: int, a: char, b: char) -> bool {
    0 <= p && p + 1 < s.len() && s[p] == a && s[p + 1] == b
}

/// What an identifier-character run denotes.
pub open spec fn classify(t: Seq<char>) -> TokenModel {
    match numeric(t) {
        Some(m) => m,
        None => if t.len() > 1 && t[0] == '$' {
            TokenModel::Id
        } else if t.len() > 0 && 'a' <= t[0] && t[0] <= 'z' {
            TokenModel::Keyword
        } else {
            TokenModel::Reserved
        },
    }
}

/// A token fragment ending at `end`.
pub open spec fn tok(t: TokenModel, end: int) -> Step {
    Step::Frag { frag: FragmentModel::Token { tok: t }, end }
}

/// The token at `p`, which starts with no whitespace or comment.
pub open spec fn token_step(s: Seq<char>, p: int) -> Step {
    if p >= s.len() {
        Step::Done
    } else if s[p] == '(' {
        tok(TokenModel::LParen, p + 1)
    } else if s[p] == ')' {
        tok(TokenModel::RParen, p + 1)
    } else if s[p] == '"' {
        match string_body(s, p + 1) {
            Ok((b, e)) => tok(TokenModel::Str { bytes: b }, e),
            Err((k, at)) => Step::Fail { kind: k, at },
        }
    } else if !idchar(s[p]) {
        Step::Fail { kind: LexErrorKind::Unexpected(s[p]), at: p }
    } else {
        tok(classify(s.subrange(p, idrun_end(s, p))), idrun_end(s, p))
    }
}

/// What lexing `s` at position `p` yields.
pub open spec fn lex_step(s: Seq<char>, p: int) -> Step {
    if ws_end(s, p) > p {
        Step::Frag { frag: FragmentModel::Whitespace, end: ws_end(s, p) }
    } else if starts2(s, p, ';', ';') {
        Step::Frag { frag: FragmentModel::LineComment, end: line_end(s, p + 2) }
    } else if starts2(s, p, '(', ';') {
        match block_end(s, p + 2, 1) {
            Some(e) => Step::Frag { frag: FragmentModel::BlockComment, end: e },
            None => Step::Fail { kind: LexErrorKind::DanglingBlockComment, at: p },
        }
    } else {
        token_step(s, p)
    }
}

/// The error `kind` at position `at` of `s`, with its byte offset, line and column.
pub open spec fn error_at(e: LexError, s: Seq<char>, kind: LexErrorKind, at: int) -> bool {
    &&& e.kind == kind
    &&& e.pos == byte_offset(s, at)
    &&& e.line == line_of(s, at)
    &&& e.col == col_of(s, at)
}

pub(crate) proof fn lemma_ws_end(s: Seq<char>, p: int)
    requires
        0 <= p <= s.len(),
    ensures
        p <= ws_end(s, p) <= s.len(),
    decreases s.len() - p,
{
    if p < s.len() && ws_char(s[p]) {
        lemma_ws_end(s, p + 1);
    }
}

pub(crate) proof fn lemma_idrun_end(s: Seq<char>, p: int)
    requires
        0 <= p <= s.len(),
    ensures
        p <= idrun_end(s, p) <= s.len(),
    decreases s.len() - p,
{
    if p < s.len() && idchar(s[p]) {
        lemma_idrun_end(s, p + 1);
    }
}

pub(crate) proof fn lemma_line_end(s: Seq<char>, p: int)
    requires
        0 <= p <= s.len(),
    ensures
        p <= line_end(s, p) <= s.len(),
    decreases s.len() - p,
{
    if p < s.len() && s[p] != '\n' {
        lemma_line_end(s, p + 1);
    }
}

pub(crate) proof fn lemma_block_end(s: Seq<char>, i: int, depth: nat)
    requires
        0 <= i,
    ensures
        block_end(s, i, depth) matches Some(e) ==> i < e <= s.len(),
    decreases s.len() - i,
{
    if 0 <= i < s.len() {
        if s[i] == '(' && i + 1 < s.len() && s[i + 1] == ';' {
            lemma_block_end(s, i + 2, depth + 1);
        } else if s[i] == ';' && i + 1 < s.len() && s[i + 1] == ')' {
            if depth > 1 {
                lemma_block_end(s, i + 2, (depth - 1) as nat);
            }
        } else {
            lemma_block_end(s, i + 1, depth);
        }
    }
}

/// A lexer over one input text, yielding its fragments in order.
pub struct Lexer<'a> {
    input: &'a str,
    chars: Vec<char>,
    /// The byte offset of each character position, the end included.
    offsets: Vec<usize>,
    pos: usize,
}

impl<'a> Lexer<'a> {
    /// The characters of the input.
    pub closed spec fn text(&self) -> Seq<char> {
        self.chars@
    }

    /// The position (in characters) of the next fragment.
    pub closed spec fn cursor(&self) -> int {
        self.pos as int
    }

    /// The cursor lies within the input, and the byte offset of every
    /// character position is known.
    pub closed spec fn wf(&self) -> bool {
        &&& self.chars@ == self.input@
        &&& self.pos <= self.chars@.len()
        &&& utf8_len(self.chars@) <= usize::MAX
        &&& self.offsets@.len() == self.chars@.len() + 1
        &&& forall|i: int|
            0 <= i <= self.chars@.len() ==> #[trigger] self.offsets@[i] == utf8_len(
                self.chars@.subrange(0, i),
            )
    }

    /// Creates a lexer over `input`.
    pub fn new(input: &'a str) -> (r: Lexer<'a>)
        ensures
            r.wf(),
            r.text() == input@,
            r.cursor() == 0,
    {
        let mut chars: Vec<char> = Vec::new();
        let mut it = input.chars();
        loop
            invariant
                chars@ + it.remaining() == input@,
                it.decrease() is Some,
            ensures
                chars@ == input@,
            decreases it.decrease()->0,
        {
            match it.next() {
                Some(c) => chars.push(c),
                None => {
                    assert(chars@ + Seq::<char>::empty() == chars@);
                    break;
                },
            }
        }
        // The input's length in bytes bounds every byte offset below.
        let bytes = input.as_bytes().len();
        proof {
            lemma_utf8_len_encode(input@);
            assert(bytes == utf8_len(chars@));
        }
        let mut offsets: Vec<usize> = Vec::new();
        offsets.push(0);
        let mut i: usize = 0;
        let mut b: usize = 0;
        assert(chars@.subrange(0, 0) == Seq::<char>::empty());
        while i < chars.len()
            invariant
                i <= chars@.len(),
                utf8_len(chars@) <= usize::MAX,
                b == utf8_len(chars@.subrange(0, i as int)),
                offsets@.len() == i + 1,
                forall|k: int| 0 <= k <= i ==> #[trigger] offsets@[k] == utf8_len(chars@.subrange(0, k)),
            decreases chars@.len() - i,
        {
            let c = chars[i];
            proof {
                assert(chars@.subrange(0, i + 1) == chars@.subrange(0, i as int).push(c));
                lemma_utf8_len_push(chars@.subrange(0, i as int), c);
                lemma_utf8_len_prefix(chars@, i + 1, chars@.len() as int);
                assert(chars@.subrange(0, chars@.len() as int) == chars@);
            }
            b = b + char_width(c);
            offsets.push(b);
            i = i + 1;
        }
        Lexer { input, chars, offsets, pos: 0 }
    }

    /// The input text.
    pub fn input(&self) -> (r: &'a str)
        requires
            self.wf(),
        ensures
            r@ == self.text(),
    {
        self.input
    }

    /// The input text from `from` to `to`.
    fn slice(&self, from: usize, to: usize) -> (r: &'a str)
        requires
            self.wf(),
            from <= to <= self.chars@.len(),
        ensures
            r@ == self.chars@.subrange(from as int, to as int),
    {
        let b0 = self.offsets[from];
        let b1 = self.offsets[to];
        let ghost s = self.chars@;
        let ghost a = s.subrange(0, from as int);
        let ghost m = s.subrange(from as int, to as int);
        let ghost c = s.subrange(to as int, s.len() as int);
        proof {
            assert(s == a + (m + c));
            assert(s.subrange(0, to as int) == a + m);
            lemma_encode_concat(a, m + c);
            lemma_encode_concat(m, c);
            lemma_encode_concat(a, m);
            lemma_encode_boundary(a, m + c);
            lemma_encode_boundary(m, c);
            lemma_utf8_len_encode(a);
            lemma_utf8_len_encode(a + m);
        }
        let (_, rest) = self.input.split_at(b0);
        proof {
            assert(rest.spec_bytes() == encode_utf8(m + c));
            lemma_encode_injective(rest@, m + c);
        }
        let (mid, _) = rest.split_at(b1 - b0);
        proof {
            assert(mid.spec_bytes() == encode_utf8(m));
            lemma_encode_injective(mid@, m);
        }
        mid
    }

    /// The error `kind` at position `at`.
    fn error(&self, at: usize, kind: LexErrorKind) -> (r: LexError)
        requires
            self.wf(),
            at <= self.chars@.len(),
        ensures
            error_at(r, self.chars@, kind, at as int),
    {
        let (line, col) = to_linecol(&self.chars, at);
        LexError { line, col, pos: self.offsets[at], kind }
    }

    /// Consumes a maximal run of whitespace.
    fn ws(&mut self) -> (r: Option<&'a str>)
        requires
            old(self).wf(),
        ensures
            final(self).wf(),
            final(self).chars == old(self).chars,
            final(self).input == old(self).input,
            final(self).pos == ws_end(old(self).chars@, old(self).pos as int),
            r is Some <==> final(self).pos > old(self).pos,
            r matches Some(w) ==> w@ == old(self).chars@.subrange(old(self).pos as int, final(self).pos as int),
    {
        let start = self.pos;
        while self.pos < self.chars.len() && is_ws(self.chars[self.pos])
            invariant
                self.wf(),
                self.chars == old(self).chars,
                self.input == old(self).input,
                start <= self.pos,
                ws_end(self.chars@, start as int) == ws_end(self.chars@, self.pos as int),
            decreases self.chars@.len() - self.pos,
        {
            self.pos = self.pos + 1;
        }
        if self.pos > start {
            Some(self.slice(start, self.pos))
        } else {
            None
        }
    }

    /// Consumes a line or block comment.
    fn comment(&mut self) -> (r: Result<Option<Comment<'a>>, LexError>)
        requires
            old(self).wf(),
        ensures
            final(self).wf(),
            final(self).chars == old(self).chars,
            final(self).input == old(self).input,
            ({
                let s = old(self).chars@;
                let p = old(self).pos as int;
                if starts2(s, p, ';', ';') {
                    r matches Ok(Some(Comment::Line(c))) && final(self).pos == line_end(s, p + 2)
                        && c@ == s.subrange(p, final(self).pos as int)
                } else if starts2(s, p, '(', ';') {
                    match block_end(s, p + 2, 1) {
                        Some(e) => r matches Ok(Some(Comment::Block(c))) && final(self).pos == e
                            && c@ == s.subrange(p, e),
                        None => r matches Err(err) && error_at(err, s, LexErrorKind::DanglingBlockComment, p),
                    }
                } else {
                    r matches Ok(None) && final(self).pos == old(self).pos
                }
            }),
    {
        let start = self.pos;
        let n = self.chars.len();
        if n - start >= 2 && self.chars[start] == ';' && self.chars[start + 1] == ';' {
            self.pos = start + 2;
            proof {
                lemma_line_end(self.chars@, start + 2);
            }
            while self.pos < n && self.chars[self.pos] != '\n'
                invariant
                    self.wf(),
                    n == self.chars@.len(),
                    self.chars == old(self).chars,
                    self.input == old(self).input,
                    start + 2 <= self.pos,
                    line_end(self.chars@, start + 2) == line_end(self.chars@, self.pos as int),
                decreases n - self.pos,
            {
                self.pos = self.pos + 1;
            }
            return Ok(Some(Comment::Line(self.slice(start, self.pos))));
        }
        if n - start >= 2 && self.chars[start] == '(' && self.chars[start + 1] == ';' {
            let mut i: usize = start + 2;
            let mut depth: usize = 1;
            while i < n
                invariant
                    self.wf(),
                    self.chars == old(self).chars,
                    self.input == old(self).input,
                    self.pos == start == old(self).pos,
                    self.chars[start as int] == '(' && self.chars[start + 1] == ';',
                    n == self.chars@.len(),
                    start + 2 <= i <= n,
                    1 <= depth <= i,
                    block_end(self.chars@, start + 2, 1) == block_end(self.chars@, i as int, depth as nat),
                decreases n - i,
            {
                let c = self.chars[i];
                if c == '(' && n - i >= 2 && self.chars[i + 1] == ';' {
                    depth = depth + 1;
                    i = i + 2;
                } else if c == ';' && n - i >= 2 && self.chars[i + 1] == ')' {
                    if depth <= 1 {
                        assert(block_end(self.chars@, i as int, depth as nat) == Some(i as int + 2));
                        self.pos = i + 2;
                        return Ok(Some(Comment::Block(self.slice(start, i + 2))));
                    }
                    depth = depth - 1;
                    i = i + 2;
                } else {
                    i = i + 1;
                }
            }
            return Err(self.error(start, LexErrorKind::DanglingBlockComment));
        }
        Ok(None)
    }

    /// Consumes a token.
    fn token(&mut self) -> (r: Result<Option<Token<'a>>, LexError>)
        requires
            old(self).wf(),
        ensures
            final(self).wf(),
            final(self).chars == old(self).chars,
            final(self).input == old(self).input,
            ({
                let s = old(self).chars@;
                let p = old(self).pos as int;
                match token_step(s, p) {
                    Step::Done => r matches Ok(None) && final(self).pos == p,
                    Step::Frag { frag, end } => r matches Ok(Some(t)) && frag == (FragmentModel::Token { tok: t.model() })
                        && t.span() == s.subrange(p, end) && final(self).pos == end,
                    Step::Fail { kind, at } => r matches Err(err) && error_at(err, s, kind, at),
                }
            }),
    {
        let start = self.pos;
        let n = self.chars.len();
        if start >= n {
            return Ok(None);
        }
        let c = self.chars[start];
        if c == '(' {
            self.pos = start + 1;
            return Ok(Some(Token::LParen(self.slice(start, start + 1))));
        }
        if c == ')' {
            self.pos = start + 1;
            return Ok(Some(Token::RParen(self.slice(start, start + 1))));
        }
        if c == '"' {
            return match string_exec(&self.chars, start + 1) {
                Ok((val, end)) => {
                    self.pos = end;
                    Ok(Some(Token::String { val, src: self.slice(start, end) }))
                },
                Err((kind, at)) => Err(self.error(at, kind)),
            };
        }
        if !is_idchar(c) {
            return Err(self.error(start, LexErrorKind::Unexpected(c)));
        }
        let mut run: Vec<char> = Vec::new();
        let mut i: usize = start;
        while i < n && is_idchar(self.chars[i])
            invariant
                self.wf(),
                self.chars == old(self).chars,
                self.input == old(self).input,
                self.pos == start,
                n == self.chars@.len(),
                start <= i <= n,
                run@ == self.chars@.subrange(start as int, i as int),
                idrun_end(self.chars@, start as int) == idrun_end(self.chars@, i as int),
            decreases n - i,
        {
            run.push(self.chars[i]);
            i = i + 1;
        }
        self.pos = i;
        let src = self.slice(start, i);
        if let Some(num) = number(src, &run) {
            return Ok(Some(num));
        }
        if c == '$' && i - start > 1 {
            Ok(Some(Token::Id(src)))
        } else if 'a' <= c && c <= 'z' {
            Ok(Some(Token::Keyword(src)))
        } else {
            Ok(Some(Token::Reserved(src)))
        }
    }

    /// Lexes the next fragment: `Ok(None)` at the end of the input, or the
    /// error that stops lexing.
    pub fn parse(&mut self) -> (r: Result<Option<Source<'a>>, LexError>)
        requires
            old(self).wf(),
        ensures
            final(self).wf(),
            final(self).text() == old(self).text(),
            match lex_step(old(self).text(), old(self).cursor()) {
                Step::Done => r matches Ok(None) && final(self).cursor() == old(self).cursor(),
                Step::Frag { frag, end } => r matches Ok(Some(f)) && f.model() == frag && f.span()
                    == old(self).text().subrange(old(self).cursor(), end) && final(self).cursor() == end,
                Step::Fail { kind, at } => r matches Err(e) && error_at(e, old(self).text(), kind, at),
            },
    {
        proof {
            lemma_ws_end(self.chars@, self.pos as int);
        }
        if let Some(ws) = self.ws() {
            return Ok(Some(Source::Whitespace(ws)));
        }
        match self.comment() {
            Ok(Some(c)) => {
                return Ok(Some(Source::Comment(c)));
            },
            Ok(None) => {},
            Err(e) => {
                return Err(e);
            },
        }
        match self.token() {
            Ok(Some(t)) => Ok(Some(Source::Token(t))),
            Ok(None) => Ok(None),
            Err(e) => Err(e),
        }
    }

    /// Lexes the next fragment, in the shape of an iterator's `next`: `None`
    /// at the end of the input.
    pub fn next(&mut self) -> (r: Option<Result<Source<'a>, LexError>>)
        requires
            old(self).wf(),
        ensures
            final(self).wf(),
            final(self).text() == old(self).text(),
            match lex_step(old(self).text(), old(self).cursor()) {
                Step::Done => r is None && final(self).cursor() == old(self).cursor(),
                Step::Frag { frag, end } => r matches Some(Ok(f)) && f.model() == frag && f.span()
                    == old(self).text().subrange(old(self).cursor(), end) && final(self).cursor() == end,
                Step::Fail { kind, at } => r matches Some(Err(e)) && error_at(e, old(self).text(), kind, at),
            },
    {
        match self.parse() {
            Ok(Some(f)) => Some(Ok(f)),
            Ok(None) => None,
            Err(e) => Some(Err(e)),
        }
    }

    /// Lexes the rest of the input: all its fragments, in order, or the
    /// first error.
    pub fn fragments(&mut self) -> (r: Result<Vec<Source<'a>>, LexError>)
        requires
            old(self).wf(),
        ensures
            final(self).wf(),
            final(self).text() == old(self).text(),
            r is Ok <==> scan_from(old(self).text(), old(self).cursor()) is Some,
            r matches Ok(v) ==> {
                let f = scan_from(old(self).text(), old(self).cursor())->0;
                &&& spans_of(v@) == old(self).text().subrange(
                    old(self).cursor(),
                    old(self).text().len() as int,
                )
                &&& v@.len() == f.len()
                &&& forall|i: int|
                    0 <= i < f.len() ==> (#[trigger] v@[i]).model() == f[i].0 && v@[i].span()
                        == old(self).text().subrange(f[i].1, f[i].2)
            },
    {
        let ghost s = self.chars@;
        let ghost p0 = self.pos as int;
        let ghost mut done: Seq<(FragmentModel, int, int)> = Seq::empty();
        let mut v: Vec<Source<'a>> = Vec::new();
        assert(s.subrange(p0, p0) == Seq::<char>::empty());
        loop
            invariant
                self.wf(),
                self.chars@ == s,
                s == old(self).chars@,
                p0 == old(self).pos,
                p0 <= self.pos <= s.len(),
                spans_of(v@) == s.subrange(p0, self.pos as int),
                done.len() == v@.len(),
                forall|i: int|
                    0 <= i < done.len() ==> (#[trigger] v@[i]).model() == done[i].0 && v@[i].span()
                        == s.subrange(done[i].1, done[i].2),
                scan_from(s, p0) is Some <==> scan_from(s, self.pos as int) is Some,
                scan_from(s, self.pos as int) is Some ==> scan_from(s, p0)->0 == done + scan_from(
                    s,
                    self.pos as int,
                )->0,
            decreases s.len() - self.pos,
        {
            let ghost p = self.pos as int;
            proof {
                fragments_are_nonempty(s, p);
            }
            match self.parse() {
                Ok(Some(f)) => {
                    proof {
                        let end = self.pos as int;
                        lemma_scan_step(s, p);
                        assert(lex_step(s, p) is Frag);
                        let x = (f.model(), p, end);
                        assert(v@.push(f).drop_last() == v@);
                        assert(s.subrange(p0, p) + s.subrange(p, end) =~= s.subrange(p0, end));
                        if scan_from(s, end) is Some {
                            let g = scan_from(s, end)->0;
                            assert(done + (seq![x] + g) == done.push(x) + g);
                        }
                        done = done.push(x);
                    }
                    v.push(f);
                },
                Ok(None) => {
                    proof {
                        assert(done + Seq::<(FragmentModel, int, int)>::empty() == done);
                    }
                    return Ok(v);
                },
                Err(e) => {
                    return Err(e);
                },
            }
        }
    }
}

/// The source texts of `v`, one after the other.
pub open spec fn spans_of<'a>(v: Seq<Source<'a>>) -> Seq<char>
    decreases v.len(),
{
    if v.len() == 0 {
        Seq::empty()
    } else {
        spans_of(v.drop_last()) + v.last().span()
    }
}

} // verus!
