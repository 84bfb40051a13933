//! A loss-less lexer for the s-expression text format of a stack-machine
//! module: every character of the input belongs to exactly one fragment
//! (whitespace, comment or token), and the fragments' source texts, joined
//! in order, give back the input.
//!
//! `Lexer::parse` yields one fragment per call. What it yields is specified by
//! `lexer::lex_step`, over the input's characters; the grammar's parts are
//! specified beside their scanners (`number`, `strlit`), and `laws` proves
//! properties that hold of every input.

pub mod chars;
pub mod error;
pub mod laws;
pub mod lexer;
pub mod number;
pub mod position;
pub mod strlit;
pub mod text;
pub mod token;

pub use chars::{is_idchar, to_hex};
pub use error::{LexError, LexErrorKind};
pub use lexer::Lexer;
pub use token::{Comment, Float, FloatVal, Integer, Source, Token};
