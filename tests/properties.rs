use wast_lexer::{Comment, FloatVal, LexErrorKind, Lexer, Source, Token};

fn all_fragments(input: &str) -> Vec<Source<'_>> {
    let mut lexer = Lexer::new(input);
    let mut out = Vec::new();
    while let Some(f) = lexer.parse().expect("lexing failed") {
        out.push(f);
    }
    out
}

fn first_token(input: &str) -> Token<'_> {
    match Lexer::new(input).parse().expect("lexing failed") {
        Some(Source::Token(t)) => t,
        other => panic!("no token: {:?}", other),
    }
}

#[test]
fn spans_cover_the_input() {
    let input = "(module ;; a line\n  (func $f (param i32) (; nested (; block ;) ;)\n    i32.const -0x1_0 \"h\\u{e9}\\6c\" f64.const nan:0x7f))";
    let text: String = all_fragments(input).iter().map(|f| f.src()).collect();
    assert_eq!(text, input);
}

#[test]
fn relexing_a_token_gives_the_same_token() {
    let input = "( ) $x kw ^r 1_0 -0x1f 1.5e-3 +inf nan:0x10 \"a\\n\\u{41}\"";
    for f in all_fragments(input) {
        if let Source::Token(t) = f {
            assert_eq!(first_token(t.src()), t);
        }
    }
}

#[test]
fn underscore_rule() {
    match first_token("1_000") {
        Token::Integer(i) => assert_eq!(i.val(), ("1000", 10)),
        other => panic!("not integer {:?}", other),
    }
    assert_eq!(first_token("1__0"), Token::Reserved("1__0"));
    assert_eq!(first_token("_1"), Token::Reserved("_1"));
    assert_eq!(first_token("1_"), Token::Reserved("1_"));
    assert_eq!(first_token("0x_1"), Token::Reserved("0x_1"));
    assert_eq!(first_token("1._5"), Token::Reserved("1._5"));
}

#[test]
fn integer_radix() {
    match first_token("-0xfF") {
        Token::Integer(i) => assert_eq!(i.val(), ("-fF", 16)),
        other => panic!("not integer {:?}", other),
    }
}

#[test]
fn nested_comments() {
    let f = all_fragments("(; (;;) ;)");
    assert_eq!(f, vec![Source::Comment(Comment::Block("(; (;;) ;)"))]);
    let e = Lexer::new("(; ").parse().unwrap_err();
    assert_eq!(*e.kind(), LexErrorKind::DanglingBlockComment);
    assert_eq!((e.pos(), e.line(), e.col()), (0, 0, 0));
}

#[test]
fn upper_case_hex_escape() {
    match first_token("\"\\FF\\0a\"") {
        Token::String { val, .. } => assert_eq!(val, vec![0xff, 0x0a]),
        other => panic!("not string {:?}", other),
    }
}

#[test]
fn non_ascii_string_contents() {
    match first_token("\"é\\u{1F600}\"") {
        Token::String { val, .. } => assert_eq!(val, vec![0xc3, 0xa9, 0xf0, 0x9f, 0x98, 0x80]),
        other => panic!("not string {:?}", other),
    }
}

#[test]
fn float_shape() {
    match first_token("1.2e3") {
        Token::Float(f) => assert_eq!(
            *f.val(),
            FloatVal::Val {
                hex: false,
                integral: "1".into(),
                decimal: Some("2".into()),
                exponent: Some("3".into()),
            }
        ),
        other => panic!("not float {:?}", other),
    }
    match first_token("-0x1.p+2") {
        Token::Float(f) => assert_eq!(
            *f.val(),
            FloatVal::Val {
                hex: true,
                integral: "-1".into(),
                decimal: None,
                exponent: Some("2".into()),
            }
        ),
        other => panic!("not float {:?}", other),
    }
}

#[test]
fn oversized_nan_payload_is_no_number() {
    assert_eq!(
        first_token("nan:0x1_0000_0000_0000_0000"),
        Token::Keyword("nan:0x1_0000_0000_0000_0000")
    );
    match first_token("-nan:0xffff_ffff_ffff_ffff") {
        Token::Float(f) => assert_eq!(
            *f.val(),
            FloatVal::Nan {
                val: Some(u64::MAX),
                negative: true
            }
        ),
        other => panic!("not float {:?}", other),
    }
}

#[test]
fn malformed_numbers_fall_through() {
    assert_eq!(first_token("1e"), Token::Reserved("1e"));
    assert_eq!(first_token("1.2x"), Token::Reserved("1.2x"));
    assert_eq!(first_token("0x1e5"), Token::Integer(wast_lexer::Integer {
        src: "0x1e5",
        val: "1e5".into(),
        hex: true
    }));
    assert_eq!(first_token("infinity"), Token::Keyword("infinity"));
}

#[test]
fn error_anchoring() {
    let e = Lexer::new("\"\\u{ffffffff}\"").parse().unwrap_err();
    assert_eq!(*e.kind(), LexErrorKind::InvalidUnicodeValue(0xffffffff));
    assert_eq!(e.pos(), 2);
    let e = Lexer::new("\"").parse().unwrap_err();
    assert_eq!(*e.kind(), LexErrorKind::UnexpectedEof);
    assert_eq!(e.pos(), 1);
}

#[test]
fn error_line_and_column() {
    let mut lexer = Lexer::new("(a\n  \"\\q\")");
    let mut e = None;
    for _ in 0..4 {
        match lexer.parse() {
            Ok(_) => {}
            Err(err) => {
                e = Some(err);
                break;
            }
        }
    }
    let e = e.expect("no error");
    assert_eq!(*e.kind(), LexErrorKind::InvalidStringEscape('q'));
    assert_eq!((e.pos(), e.line(), e.col()), (7, 1, 4));
}

#[test]
fn byte_offset_counts_utf8_bytes() {
    let e = Lexer::new("\"é\\q\"").parse().unwrap_err();
    assert_eq!(*e.kind(), LexErrorKind::InvalidStringEscape('q'));
    assert_eq!((e.pos(), e.line(), e.col()), (4, 0, 3));
}

#[test]
fn doubled_underscore_in_unicode_escape() {
    assert_eq!(
        *Lexer::new("\"\\u{1__2}\"").parse().unwrap_err().kind(),
        LexErrorKind::LoneUnderscore
    );
}

#[test]
fn unexpected_character() {
    let e = Lexer::new("  {").parse();
    assert_eq!(e.unwrap(), Some(Source::Whitespace("  ")));
    let mut lexer = Lexer::new("x {");
    lexer.parse().unwrap();
    lexer.parse().unwrap();
    let e = lexer.parse().unwrap_err();
    assert_eq!(*e.kind(), LexErrorKind::Unexpected('{'));
    assert_eq!((e.pos(), e.col()), (2, 2));
}

#[test]
fn whitespace_boundary() {
    let f = all_fragments("  x");
    assert_eq!(f, vec![Source::Whitespace("  "), Source::Token(Token::Keyword("x"))]);
}

#[test]
fn end_of_input() {
    let mut lexer = Lexer::new("");
    assert_eq!(lexer.parse().unwrap(), None);
    let lexer = Lexer::new("abc");
    assert_eq!(lexer.input(), "abc");
}

#[test]
fn error_messages() {
    let msg = |input: &str| Lexer::new(input).parse().unwrap_err().message();
    assert_eq!(msg("{"), "unexpected character '{'");
    assert_eq!(msg("(; "), "unterminated block comment");
    assert_eq!(msg("\"\\u{1\""), "expected '}' but found '\"'");
    assert_eq!(msg("\"\\u{ffffffff}\""), "invalid unicode scalar value ffffffff");
    assert_eq!(msg("\"\\u{d800}\""), "invalid unicode scalar value d800");
    assert_eq!(msg("\"\\u{110000}\""), "invalid unicode scalar value 110000");
    assert_eq!(msg("\"\\u{1_}\""), "bare underscore in numeric literal");
    assert_eq!(msg("\"\\u{fffffffff}\""), "number is too big to parse");
    assert_eq!(msg("\"\\"), "unexpected end-of-file");
    assert_eq!(msg("\"\\z\""), "invalid string escape 'z'");
    assert_eq!(msg("\"\\0g\""), "invalid hex digit 'g'");
    assert_eq!(msg("\"\u{1}\""), "invalid character in string '\\u{1}'");
}

#[test]
fn fragments_collects_everything() {
    let input = "(a \"b\") ;; c";
    let f = Lexer::new(input).fragments().unwrap();
    assert_eq!(
        f,
        vec![
            Source::Token(Token::LParen("(")),
            Source::Token(Token::Keyword("a")),
            Source::Whitespace(" "),
            Source::Token(Token::String {
                val: b"b".to_vec(),
                src: "\"b\""
            }),
            Source::Token(Token::RParen(")")),
            Source::Whitespace(" "),
            Source::Comment(Comment::Line(";; c")),
        ]
    );
    let e = Lexer::new("a \"").fragments().unwrap_err();
    assert_eq!(*e.kind(), LexErrorKind::UnexpectedEof);
    assert_eq!(e.pos(), 3);
}

#[test]
fn next_ends_with_none() {
    let mut lexer = Lexer::new("x");
    assert_eq!(lexer.next().unwrap().unwrap(), Source::Token(Token::Keyword("x")));
    assert!(lexer.next().is_none());
    let mut lexer = Lexer::new("{");
    assert_eq!(
        *lexer.next().unwrap().unwrap_err().kind(),
        LexErrorKind::Unexpected('{')
    );
}
