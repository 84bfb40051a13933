//! The fragments a lexer produces, and their models.

use vstd::prelude::*;

verus! {

/// What a float literal denotes, with its digit parts still as text.
pub enum FloatModel {
    Nan { payload: Option<u64>, negative: bool },
    Inf { negative: bool },
    Val {
        hex: bool,
        integral: Seq<char>,
        decimal: Option<Seq<char>>,
        exponent: Option<Seq<char>>,
    },
}

/// What a token denotes, apart from its source text.
pub enum TokenModel {
    LParen,
    RParen,
    Str { bytes: Seq<u8> },
    Id,
    Keyword,
    Reserved,
    Int { digits: Seq<char>, hex: bool },
    Float { val: FloatModel },
}

/// What a fragment denotes, apart from its source text.
pub enum FragmentModel {
    Whitespace,
    LineComment,
    BlockComment,
    Token { tok: TokenModel },
}

/// The views of an optional string.
pub open spec fn opt_view(o: Option<String>) -> Option<Seq<char>> {
    match o {
        Some(s) => Some(s@),
        None => None,
    }
}

/// Possible parsed float values.
#[derive(Debug, PartialEq)]
pub enum FloatVal {
    /// A `nan`, with its payload bits if given.
    Nan { val: Option<u64>, negative: bool },
    /// An infinity.
    Inf { negative: bool },
    /// A finite value, split into its digit parts.
    Val {
        /// Whether `integral` and `decimal` are hexadecimal (and the exponent a power of 2).
        hex: bool,
        /// The digits before the `.`, with the sign.
        integral: String,
        /// The digits after the `.`.
        decimal: Option<String>,
        /// The exponent digits, with the sign.
        exponent: Option<String>,
    },
}

impl FloatVal {
    pub open spec fn view(&self) -> FloatModel {
        match self {
            FloatVal::Nan { val, negative } => FloatModel::Nan { payload: *val, negative: *negative },
            FloatVal::Inf { negative } => FloatModel::Inf { negative: *negative },
            FloatVal::Val { hex, integral, decimal, exponent } => FloatModel::Val {
                hex: *hex,
                integral: integral@,
                decimal: opt_view(*decimal),
                exponent: opt_view(*exponent),
            },
        }
    }
}

/// An integer literal: its source text and its digits with the sign, underscores removed.
#[derive(Debug, PartialEq)]
pub struct Integer<'a> {
    /// The source text.
    pub src: &'a str,
    /// The digits, after a `-` when negative, without underscores.
    pub val: String,
    /// Whether the digits are hexadecimal.
    pub hex: bool,
}

/// A float literal: its source text and its parts.
#[derive(Debug, PartialEq)]
pub struct Float<'a> {
    /// The source text.
    pub src: &'a str,
    /// What the literal denotes.
    pub val: FloatVal,
}

impl<'a> Integer<'a> {
    /// The source text of this integer.
    pub fn src(&self) -> (r: &'a str)
        ensures
            r@ == self.src@,
    {
        self.src
    }

    /// The digits (with sign) and the radix they are written in.
    pub fn val(&self) -> (r: (&str, u32))
        ensures
            r.0@ == self.val@,
            r.1 == (if self.hex { 16u32 } else { 10u32 }),
    {
        (self.val.as_str(), if self.hex { 16 } else { 10 })
    }
}

impl<'a> Float<'a> {
    /// The source text of this float.
    pub fn src(&self) -> (r: &'a str)
        ensures
            r@ == self.src@,
    {
        self.src
    }

    /// The parts of this float.
    pub fn val(&self) -> (r: &FloatVal)
        ensures
            r == &self.val,
    {
        &self.val
    }
}

/// The kinds of tokens.
#[derive(Debug, PartialEq)]
pub enum Token<'a> {
    /// `(`
    LParen(&'a str),
    /// `)`
    RParen(&'a str),
    /// A string literal: the bytes it denotes and its source text, quotes included.
    String { val: Vec<u8>, src: &'a str },
    /// An identifier such as `$foo`.
    Id(&'a str),
    /// A run that starts with a lower-case ASCII letter.
    Keyword(&'a str),
    /// Any other identifier-character run.
    Reserved(&'a str),
    /// An integer literal.
    Integer(Integer<'a>),
    /// A float literal.
    Float(Float<'a>),
}

/// Line and block comments, with their delimiters.
#[derive(Debug, PartialEq)]
pub enum Comment<'a> {
    /// From `;;` up to the end of the line.
    Line(&'a str),
    /// From `(;` to the matching `;)`.
    Block(&'a str),
}

/// One fragment of the input.
#[derive(Debug, PartialEq)]
pub enum Source<'a> {
    /// A line or block comment.
    Comment(Comment<'a>),
    /// A maximal run of spaces, line feeds, carriage returns and tabs.
    Whitespace(&'a str),
    /// A token.
    Token(Token<'a>),
}

impl<'a> Token<'a> {
    pub open spec fn model(&self) -> TokenModel {
        match self {
            Token::LParen(_) => TokenModel::LParen,
            Token::RParen(_) => TokenModel::RParen,
            Token::String { val, .. } => TokenModel::Str { bytes: val@ },
            Token::Id(_) => TokenModel::Id,
            Token::Keyword(_) => TokenModel::Keyword,
            Token::Reserved(_) => TokenModel::Reserved,
            Token::Integer(i) => TokenModel::Int { digits: i.val@, hex: i.hex },
            Token::Float(f) => TokenModel::Float { val: f.val.view() },
        }
    }

    pub open spec fn span(&self) -> Seq<char> {
        match self {
            Token::LParen(s) => s@,
            Token::RParen(s) => s@,
            Token::String { src, .. } => src@,
            Token::Id(s) => s@,
            Token::Keyword(s) => s@,
            Token::Reserved(s) => s@,
            Token::Integer(i) => i.src@,
            Token::Float(f) => f.src@,
        }
    }

    /// The source text of this token.
    pub fn src(&self) -> (r: &'a str)
        ensures
            r@ == self.span(),
    {
        match self {
            Token::LParen(s) => s,
            Token::RParen(s) => s,
            Token::String { src, .. } => src,
            Token::Id(s) => s,
            Token::Keyword(s) => s,
            Token::Reserved(s) => s,
            Token::Integer(i) => i.src(),
            Token::Float(f) => f.src(),
        }
    }
}

impl<'a> Comment<'a> {
    pub open spec fn span(&self) -> Seq<char> {
        match self {
            Comment::Line(s) => s@,
            Comment::Block(s) => s@,
        }
    }

    /// The source text of this comment.
    pub fn src(&self) -> (r: &'a str)
        ensures
            r@ == self.span(),
    {
        match self {
            Comment::Line(s) => s,
            Comment::Block(s) => s,
        }
    }
}

impl<'a> Source<'a> {
    pub open spec fn model(&self) -> FragmentModel {
        match self {
            Source::Comment(Comment::Line(_)) => FragmentModel::LineComment,
            Source::Comment(Comment::Block(_)) => FragmentModel::BlockComment,
            Source::Whitespace(_) => FragmentModel::Whitespace,
            Source::Token(t) => FragmentModel::Token { tok: t.model() },
        }
    }

    pub open spec fn span(&self) -> Seq<char> {
        match self {
            Source::Comment(c) => c.span(),
            Source::Whitespace(s) => s@,
            Source::Token(t) => t.span(),
        }
    }

    /// The source text of this fragment.
    pub fn src(&self) -> (r: &'a str)
        ensures
            r@ == self.span(),
    {
        match self {
            Source::Comment(c) => c.src(),
            Source::Whitespace(s) => s,
            Source::Token(t) => t.src(),
        }
    }
}

} // verus!
