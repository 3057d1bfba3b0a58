//! The lexer.

use prepoly::lexer::lex;
use prepoly::offsets::{utf16_width_of, width_of, Chars};
use prepoly::span::Span;
use prepoly::token::{keyword_or_ident, symbol_at, StrPart, TokenKind};

fn kinds(src: &str) -> Vec<TokenKind> {
    lex(src).expect("lex").into_iter().map(|t| t.kind).collect()
}

fn ident(s: &str) -> TokenKind {
    TokenKind::Ident(s.to_string())
}

fn error(src: &str) -> (String, Span) {
    let e = lex(src).expect_err("lexing fails");
    (e.message, e.span)
}

fn failing(message: &str, lo: usize, hi: usize) -> (String, Span) {
    (message.to_string(), Span::new(lo, hi))
}

#[test]
fn newlines_collapse_and_leading_ones_are_dropped() {
    assert_eq!(
        kinds("\n\n a \n\n // c\n b\n"),
        vec![ident("a"), TokenKind::Newline, ident("b"), TokenKind::Newline, TokenKind::Eof]
    );
}

#[test]
fn tokens_have_their_spans() {
    let toks = lex("fun f2() -> x!=y").unwrap();
    let spans: Vec<(usize, usize)> = toks.iter().map(|t| (t.span.lo, t.span.hi)).collect();
    assert_eq!(
        spans,
        vec![(0, 3), (4, 6), (6, 7), (7, 8), (9, 11), (12, 13), (13, 15), (15, 16), (16, 16)]
    );
    assert_eq!(toks[0].kind, TokenKind::Fun);
    assert_eq!(toks[4].kind, TokenKind::Arrow);
    assert_eq!(toks[6].kind, TokenKind::NotEq);
}

#[test]
fn integers_in_all_radixes() {
    assert_eq!(
        kinds("0 1_000 0xFF 0b1_01 0o17 9223372036854775807"),
        vec![
            TokenKind::Int(0),
            TokenKind::Int(1000),
            TokenKind::Int(255),
            TokenKind::Int(5),
            TokenKind::Int(15),
            TokenKind::Int(i64::MAX),
            TokenKind::Eof
        ]
    );
}

#[test]
fn floats_keep_their_digits() {
    assert_eq!(
        kinds("1.5 2e10 3_0.2_5E-3"),
        vec![
            TokenKind::Float("1.5".to_string()),
            TokenKind::Float("2e10".to_string()),
            TokenKind::Float("30.25E-3".to_string()),
            TokenKind::Eof
        ]
    );
}

/// The digits of a float literal are the number.
#[test]
fn float_digits_parse_to_the_number() {
    let TokenKind::Float(s) = &kinds("3_0.2_5E-3")[0] else {
        panic!("a float");
    };
    assert_eq!(s.parse::<f64>(), Ok(0.03025));
}

#[test]
fn a_dot_without_a_digit_is_a_member() {
    assert_eq!(
        kinds("42.foo"),
        vec![TokenKind::Int(42), TokenKind::Dot, ident("foo"), TokenKind::Eof]
    );
    assert_eq!(kinds("4e"), vec![TokenKind::Int(4), ident("e"), TokenKind::Eof]);
}

#[test]
fn strings_with_escapes_and_interpolation() {
    assert_eq!(
        kinds(r#""a\n\"\{{x + "}"}z""#),
        vec![
            TokenKind::Str(vec![
                StrPart::Lit("a\n\"{".to_string()),
                StrPart::Interp("x + \"}\"".to_string()),
                StrPart::Lit("z".to_string()),
            ]),
            TokenKind::Eof
        ]
    );
    assert_eq!(
        kinds("\"\""),
        vec![TokenKind::Str(vec![StrPart::Lit(String::new())]), TokenKind::Eof]
    );
}

#[test]
fn strings_hold_any_characters() {
    let toks = lex("\"a\u{e9}\u{1f600}\" b").unwrap();
    assert_eq!(
        toks[0].kind,
        TokenKind::Str(vec![StrPart::Lit("a\u{e9}\u{1f600}".to_string())])
    );
    assert_eq!(toks[0].span, Span::new(0, 9));
    assert_eq!(toks[1].span, Span::new(10, 11));
}

#[test]
fn comments_nest_and_hide_newlines() {
    assert_eq!(
        kinds("a /* x /* y */\n z */ b"),
        vec![ident("a"), ident("b"), TokenKind::Eof]
    );
}

#[test]
fn every_lexing_error() {
    assert_eq!(error("a /* b"), failing("unterminated block comment", 2, 6));
    assert_eq!(error("0x_"), failing("missing digits after radix prefix", 0, 3));
    assert_eq!(error("0xFFFFFFFFFFFFFFFF"), failing("integer literal out of range", 0, 18));
    assert_eq!(error("9223372036854775808"), failing("integer literal out of range", 0, 19));
    assert_eq!(error("\"ab"), failing("unterminated string literal", 0, 3));
    assert_eq!(error("\"a\\"), failing("unterminated escape", 0, 3));
    assert_eq!(error("\"a\\q\""), failing("unknown escape sequence", 3, 4));
    assert_eq!(error("\"{a"), failing("unterminated interpolation", 0, 3));
    assert_eq!(error("\"{\"a"), failing("unterminated nested string", 2, 4));
    assert_eq!(error("a $"), failing("unexpected character", 2, 3));
}

#[test]
fn keywords_and_symbols() {
    assert_eq!(keyword_or_ident("while".to_string()), TokenKind::While);
    assert_eq!(keyword_or_ident("Self".to_string()), TokenKind::SelfUpper);
    assert_eq!(keyword_or_ident("whiles".to_string()), ident("whiles"));
    assert_eq!(symbol_at('<', Some('<')), Some((TokenKind::Shl, 2)));
    assert_eq!(symbol_at('<', Some('-')), Some((TokenKind::Lt, 1)));
    assert_eq!(symbol_at('$', None), None);
}

#[test]
fn offsets_are_those_of_utf8() {
    let text = "a\u{e9}\u{20ac}\u{1f600}b";
    let chars = Chars::of(text);
    let mut off = 0;
    for (i, c) in text.chars().enumerate() {
        assert_eq!(chars.off(i), off);
        assert_eq!(width_of(c), c.len_utf8());
        assert_eq!(utf16_width_of(c), c.len_utf16() as u32);
        off += c.len_utf8();
    }
    assert_eq!(chars.off(text.chars().count()), text.len());
}

/// Every token begins after the one before it ended.
#[test]
fn tokens_follow_each_other() {
    let toks = lex("let x = [1, 2.5, \"a{b}c\"] // end\nfun f() {}\n").unwrap();
    for pair in toks.windows(2) {
        assert!(pair[0].span.hi <= pair[1].span.lo);
    }
}
