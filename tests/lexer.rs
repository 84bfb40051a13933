use wast_lexer::{Comment, FloatVal, LexErrorKind, Lexer, Source, Token};

fn get_whitespace(input: &str) -> &str {
    match Lexer::new(input).parse().expect("no first token") {
        Some(Source::Whitespace(s)) => s,
        other => panic!("unexpected {:?}", other),
    }
}

fn get_line_comment(input: &str) -> &str {
    match Lexer::new(input).parse().expect("no first token") {
        Some(Source::Comment(Comment::Line(s))) => s,
        other => panic!("unexpected {:?}", other),
    }
}

fn get_block_comment(input: &str) -> &str {
    match Lexer::new(input).parse().expect("no first token") {
        Some(Source::Comment(Comment::Block(s))) => s,
        other => panic!("unexpected {:?}", other),
    }
}

fn get_token(input: &str) -> Token<'_> {
    match Lexer::new(input).parse().expect("no first token") {
        Some(Source::Token(t)) => t,
        other => panic!("unexpected {:?}", other),
    }
}

fn get_string(input: &str) -> Vec<u8> {
    match get_token(input) {
        Token::String { val, src } => {
            assert_eq!(input, src);
            val
        }
        other => panic!("not string {:?}", other),
    }
}

fn get_id(input: &str) -> &str {
    match get_token(input) {
        Token::Id(s) => s,
        other => panic!("not id {:?}", other),
    }
}

fn get_keyword(input: &str) -> &str {
    match get_token(input) {
        Token::Keyword(s) => s,
        other => panic!("not id {:?}", other),
    }
}

fn get_reserved(input: &str) -> &str {
    match get_token(input) {
        Token::Reserved(s) => s,
        other => panic!("not reserved {:?}", other),
    }
}

fn get_integer(input: &str) -> String {
    match get_token(input) {
        Token::Integer(i) => {
            assert_eq!(input, i.src());
            i.val
        }
        other => panic!("not integer {:?}", other),
    }
}

fn get_float(input: &str) -> FloatVal {
    match get_token(input) {
        Token::Float(i) => {
            assert_eq!(input, i.src());
            i.val
        }
        other => panic!("not reserved {:?}", other),
    }
}

fn error_kind(input: &str) -> LexErrorKind {
    *Lexer::new(input).parse().unwrap_err().kind()
}

#[test]
fn ws_smoke() {
    assert_eq!(get_whitespace(" "), " ");
    assert_eq!(get_whitespace("  "), "  ");
    assert_eq!(get_whitespace("  \n "), "  \n ");
    assert_eq!(get_whitespace("  x"), "  ");
    assert_eq!(get_whitespace("  ;"), "  ");
}

#[test]
fn line_comment_smoke() {
    assert_eq!(get_line_comment(";;"), ";;");
    assert_eq!(get_line_comment(";; xyz"), ";; xyz");
    assert_eq!(get_line_comment(";; xyz\nabc"), ";; xyz");
    assert_eq!(get_line_comment(";;\nabc"), ";;");
    assert_eq!(get_line_comment(";;   \nabc"), ";;   ");
}

#[test]
fn block_comment_smoke() {
    assert_eq!(get_block_comment("(;;)"), "(;;)");
    assert_eq!(get_block_comment("(; ;)"), "(; ;)");
    assert_eq!(get_block_comment("(; (;;) ;)"), "(; (;;) ;)");
    assert_eq!(error_kind("(; "), LexErrorKind::DanglingBlockComment);
    assert_eq!(error_kind("(; (;;)"), LexErrorKind::DanglingBlockComment);
    assert_eq!(error_kind("(; ;"), LexErrorKind::DanglingBlockComment);
}

#[test]
fn lparen() {
    assert_eq!(get_token("(("), Token::LParen("("));
}

#[test]
fn rparen() {
    assert_eq!(get_token(")("), Token::RParen(")"));
}

#[test]
fn strings() {
    assert_eq!(&*get_string("\"\""), b"");
    assert_eq!(&*get_string("\"a\""), b"a");
    assert_eq!(&*get_string("\"a b c d\""), b"a b c d");
    assert_eq!(&*get_string("\"\\\"\""), b"\"");
    assert_eq!(&*get_string("\"\\'\""), b"'");
    assert_eq!(&*get_string("\"\\n\""), b"\n");
    assert_eq!(&*get_string("\"\\t\""), b"\t");
    assert_eq!(&*get_string("\"\\r\""), b"\r");
    assert_eq!(&*get_string("\"\\\\\""), b"\\");
    assert_eq!(&*get_string("\"\\01\""), &[1]);
    assert_eq!(&*get_string("\"\\u{1}\""), &[1]);
    assert_eq!(
        &*get_string("\"\\u{0f3}\""),
        '\u{0f3}'.encode_utf8(&mut [0; 4]).as_bytes()
    );
    assert_eq!(
        &*get_string("\"\\u{0_f_3}\""),
        '\u{0f3}'.encode_utf8(&mut [0; 4]).as_bytes()
    );

    for i in 0..=255i32 {
        let s = format!("\"\\{:02x}\"", i);
        assert_eq!(&*get_string(&s), &[i as u8]);
    }

    assert_eq!(error_kind("\""), LexErrorKind::UnexpectedEof);
    assert_eq!(error_kind("\"\\x\""), LexErrorKind::InvalidStringEscape('x'));
    assert_eq!(error_kind("\"\\0\""), LexErrorKind::InvalidHexDigit('"'));
    assert_eq!(error_kind("\"\\0"), LexErrorKind::UnexpectedEof);
    assert_eq!(error_kind("\"\\"), LexErrorKind::UnexpectedEof);
    assert_eq!(error_kind("\"\u{7f}\""), LexErrorKind::InvalidStringElement('\u{7f}'));
    assert_eq!(error_kind("\"\u{0}\""), LexErrorKind::InvalidStringElement('\u{0}'));
    assert_eq!(error_kind("\"\u{1f}\""), LexErrorKind::InvalidStringElement('\u{1f}'));
    assert_eq!(error_kind("\"\\u{x}\""), LexErrorKind::InvalidHexDigit('x'));
    assert_eq!(error_kind("\"\\u{1_}\""), LexErrorKind::LoneUnderscore);
    assert_eq!(
        error_kind("\"\\u{fffffffffffffffff}\""),
        LexErrorKind::NumberTooBig
    );
    assert_eq!(
        error_kind("\"\\u{ffffffff}\""),
        LexErrorKind::InvalidUnicodeValue(0xffffffff)
    );
    assert_eq!(
        error_kind("\"\\u\""),
        LexErrorKind::Expected {
            wanted: '{',
            found: '"'
        }
    );
    assert_eq!(error_kind("\"\\u{\""), LexErrorKind::InvalidHexDigit('"'));
    assert_eq!(
        error_kind("\"\\u{1\""),
        LexErrorKind::Expected {
            wanted: '}',
            found: '"'
        }
    );
    assert_eq!(error_kind("\"\\u{1"), LexErrorKind::UnexpectedEof);
}

#[test]
fn id() {
    assert_eq!(get_id("$x"), "$x");
    assert_eq!(get_id("$xyz"), "$xyz");
    assert_eq!(get_id("$x_z"), "$x_z");
    assert_eq!(get_id("$0^"), "$0^");
    assert_eq!(get_id("$0^;;"), "$0^");
    assert_eq!(get_id("$0^ ;;"), "$0^");
}

#[test]
fn keyword() {
    assert_eq!(get_keyword("x"), "x");
    assert_eq!(get_keyword("xyz"), "xyz");
    assert_eq!(get_keyword("x_z"), "x_z");
    assert_eq!(get_keyword("x_z "), "x_z");
    assert_eq!(get_keyword("x_z "), "x_z");
}

#[test]
fn reserved() {
    assert_eq!(get_reserved("$ "), "$");
    assert_eq!(get_reserved("^_x "), "^_x");
}

#[test]
fn integer() {
    assert_eq!(get_integer("1"), "1");
    assert_eq!(get_integer("0"), "0");
    assert_eq!(get_integer("-1"), "-1");
    assert_eq!(get_integer("+1"), "1");
    assert_eq!(get_integer("+1_000"), "1000");
    // Adjacent underscores break the digit run: the text is no number.
    assert_eq!(get_reserved("+1_0______0_0"), "+1_0______0_0");
    assert_eq!(get_integer("+0x10"), "10");
    assert_eq!(get_integer("-0x10"), "-10");
    assert_eq!(get_integer("0x10"), "10");
}

#[test]
fn float() {
    assert_eq!(
        get_float("nan"),
        FloatVal::Nan {
            val: None,
            negative: false
        },
    );
    assert_eq!(
        get_float("-nan"),
        FloatVal::Nan {
            val: None,
            negative: true,
        },
    );
    assert_eq!(
        get_float("+nan"),
        FloatVal::Nan {
            val: None,
            negative: false,
        },
    );
    assert_eq!(
        get_float("+nan:0x1"),
        FloatVal::Nan {
            val: Some(1),
            negative: false,
        },
    );
    assert_eq!(
        get_float("nan:0x7f_ffff"),
        FloatVal::Nan {
            val: Some(0x7fffff),
            negative: false,
        },
    );
    assert_eq!(get_float("inf"), FloatVal::Inf { negative: false });
    assert_eq!(get_float("-inf"), FloatVal::Inf { negative: true });
    assert_eq!(get_float("+inf"), FloatVal::Inf { negative: false });

    assert_eq!(
        get_float("1.2"),
        FloatVal::Val {
            integral: "1".into(),
            decimal: Some("2".into()),
            exponent: None,
            hex: false,
        },
    );
    assert_eq!(
        get_float("1.2e3"),
        FloatVal::Val {
            integral: "1".into(),
            decimal: Some("2".into()),
            exponent: Some("3".into()),
            hex: false,
        },
    );
    assert_eq!(
        get_float("-1_2.1_1E+0_1"),
        FloatVal::Val {
            integral: "-12".into(),
            decimal: Some("11".into()),
            exponent: Some("01".into()),
            hex: false,
        },
    );
    assert_eq!(
        get_float("+1_2.1_1E-0_1"),
        FloatVal::Val {
            integral: "12".into(),
            decimal: Some("11".into()),
            exponent: Some("-01".into()),
            hex: false,
        },
    );
    assert_eq!(
        get_float("0x1_2.3_4p5_6"),
        FloatVal::Val {
            integral: "12".into(),
            decimal: Some("34".into()),
            exponent: Some("56".into()),
            hex: true,
        },
    );
    assert_eq!(
        get_float("+0x1_2.3_4P-5_6"),
        FloatVal::Val {
            integral: "12".into(),
            decimal: Some("34".into()),
            exponent: Some("-56".into()),
            hex: true,
        },
    );
    assert_eq!(
        get_float("1."),
        FloatVal::Val {
            integral: "1".into(),
            decimal: None,
            exponent: None,
            hex: false,
        },
    );
    assert_eq!(
        get_float("0x1p-24"),
        FloatVal::Val {
            integral: "1".into(),
            decimal: None,
            exponent: Some("-24".into()),
            hex: true,
        },
    );
}
