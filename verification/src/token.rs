//! Tokens.

use vstd::prelude::*;
use crate::span::Span;
use crate::text::str_eq;

verus! {

/// A part of a string literal: text, or the source of an interpolated expression.
#[derive(Debug, PartialEq)]
pub enum StrPart {
    Lit(String),
    Interp(String),
}

/// The model of [`StrPart`].
#[verifier::ext_equal]
pub ghost enum StrPartV {
    Lit(Seq<char>),
    Interp(Seq<char>),
}

impl View for StrPart {
    type V = StrPartV;

    open spec fn view(&self) -> StrPartV {
        match self {
            StrPart::Lit(s) => StrPartV::Lit(s@),
            StrPart::Interp(s) => StrPartV::Interp(s@),
        }
    }
}

/// The models of string parts.
pub open spec fn parts_view(v: Seq<StrPart>) -> Seq<StrPartV> {
    Seq::new(v.len(), |i: int| v[i]@)
}

/// The kind of a token. A float literal is kept by its digits.
#[derive(Debug, PartialEq)]
pub enum TokenKind {
    Int(i64),
    Float(String),
    Str(Vec<StrPart>),
    Ident(String),
    Newline,
    Eof,
    Type,
    Fun,
    Let,
    Const,
    If,
    Else,
    Match,
    For,
    While,
    In,
    Return,
    Break,
    Continue,
    Import,
    True,
    False,
    Null,
    SelfLower,
    SelfUpper,
    FatArrow,
    EqEq,
    NotEq,
    LtEq,
    GtEq,
    AmpAmp,
    PipePipe,
    Shl,
    Shr,
    PlusEq,
    MinusEq,
    StarEq,
    SlashEq,
    PercentEq,
    Arrow,
    Plus,
    Minus,
    Star,
    Slash,
    Percent,
    Eq,
    Lt,
    Gt,
    Bang,
    Amp,
    Pipe,
    Caret,
    Tilde,
    Question,
    Dot,
    Comma,
    Colon,
    LParen,
    RParen,
    LBracket,
    RBracket,
    LBrace,
    RBrace,
}

/// The model of [`TokenKind`].
#[verifier::ext_equal]
pub ghost enum TokenKindV {
    Int(i64),
    Float(Seq<char>),
    Str(Seq<StrPartV>),
    Ident(Seq<char>),
    Newline,
    Eof,
    Type,
    Fun,
    Let,
    Const,
    If,
    Else,
    Match,
    For,
    While,
    In,
    Return,
    Break,
    Continue,
    Import,
    True,
    False,
    Null,
    SelfLower,
    SelfUpper,
    FatArrow,
    EqEq,
    NotEq,
    LtEq,
    GtEq,
    AmpAmp,
    PipePipe,
    Shl,
    Shr,
    PlusEq,
    MinusEq,
    StarEq,
    SlashEq,
    PercentEq,
    Arrow,
    Plus,
    Minus,
    Star,
    Slash,
    Percent,
    Eq,
    Lt,
    Gt,
    Bang,
    Amp,
    Pipe,
    Caret,
    Tilde,
    Question,
    Dot,
    Comma,
    Colon,
    LParen,
    RParen,
    LBracket,
    RBracket,
    LBrace,
    RBrace,
}

impl View for TokenKind {
    type V = TokenKindV;

    open spec fn view(&self) -> TokenKindV {
        match self {
            TokenKind::Int(n) => TokenKindV::Int(*n),
            TokenKind::Float(s) => TokenKindV::Float(s@),
            TokenKind::Str(parts) => TokenKindV::Str(parts_view(parts@)),
            TokenKind::Ident(s) => TokenKindV::Ident(s@),
            TokenKind::Newline => TokenKindV::Newline,
            TokenKind::Eof => TokenKindV::Eof,
            TokenKind::Type => TokenKindV::Type,
            TokenKind::Fun => TokenKindV::Fun,
            TokenKind::Let => TokenKindV::Let,
            TokenKind::Const => TokenKindV::Const,
            TokenKind::If => TokenKindV::If,
            TokenKind::Else => TokenKindV::Else,
            TokenKind::Match => TokenKindV::Match,
            TokenKind::For => TokenKindV::For,
            TokenKind::While => TokenKindV::While,
            TokenKind::In => TokenKindV::In,
            TokenKind::Return => TokenKindV::Return,
            TokenKind::Break => TokenKindV::Break,
            TokenKind::Continue => TokenKindV::Continue,
            TokenKind::Import => TokenKindV::Import,
            TokenKind::True => TokenKindV::True,
            TokenKind::False => TokenKindV::False,
            TokenKind::Null => TokenKindV::Null,
            TokenKind::SelfLower => TokenKindV::SelfLower,
            TokenKind::SelfUpper => TokenKindV::SelfUpper,
            TokenKind::FatArrow => TokenKindV::FatArrow,
            TokenKind::EqEq => TokenKindV::EqEq,
            TokenKind::NotEq => TokenKindV::NotEq,
            TokenKind::LtEq => TokenKindV::LtEq,
            TokenKind::GtEq => TokenKindV::GtEq,
            TokenKind::AmpAmp => TokenKindV::AmpAmp,
            TokenKind::PipePipe => TokenKindV::PipePipe,
            TokenKind::Shl => TokenKindV::Shl,
            TokenKind::Shr => TokenKindV::Shr,
            TokenKind::PlusEq => TokenKindV::PlusEq,
            TokenKind::MinusEq => TokenKindV::MinusEq,
            TokenKind::StarEq => TokenKindV::StarEq,
            TokenKind::SlashEq => TokenKindV::SlashEq,
            TokenKind::PercentEq => TokenKindV::PercentEq,
            TokenKind::Arrow => TokenKindV::Arrow,
            TokenKind::Plus => TokenKindV::Plus,
            TokenKind::Minus => TokenKindV::Minus,
            TokenKind::Star => TokenKindV::Star,
            TokenKind::Slash => TokenKindV::Slash,
            TokenKind::Percent => TokenKindV::Percent,
            TokenKind::Eq => TokenKindV::Eq,
            TokenKind::Lt => TokenKindV::Lt,
            TokenKind::Gt => TokenKindV::Gt,
            TokenKind::Bang => TokenKindV::Bang,
            TokenKind::Amp => TokenKindV::Amp,
            TokenKind::Pipe => TokenKindV::Pipe,
            TokenKind::Caret => TokenKindV::Caret,
            TokenKind::Tilde => TokenKindV::Tilde,
            TokenKind::Question => TokenKindV::Question,
            TokenKind::Dot => TokenKindV::Dot,
            TokenKind::Comma => TokenKindV::Comma,
            TokenKind::Colon => TokenKindV::Colon,
            TokenKind::LParen => TokenKindV::LParen,
            TokenKind::RParen => TokenKindV::RParen,
            TokenKind::LBracket => TokenKindV::LBracket,
            TokenKind::RBracket => TokenKindV::RBracket,
            TokenKind::LBrace => TokenKindV::LBrace,
            TokenKind::RBrace => TokenKindV::RBrace,
        }
    }
}

/// A token with its source span.
#[derive(Debug, PartialEq)]
pub struct Token {
    pub kind: TokenKind,
    pub span: Span,
}

/// The model of [`Token`].
#[verifier::ext_equal]
pub ghost struct TokenV {
    pub kind: TokenKindV,
    pub span: Span,
}

impl View for Token {
    type V = TokenV;

    open spec fn view(&self) -> TokenV {
        TokenV { kind: self.kind@, span: self.span }
    }
}

/// The models of tokens.
pub open spec fn tokens_view(v: Seq<Token>) -> Seq<TokenV> {
    Seq::new(v.len(), |i: int| v[i]@)
}

impl Token {
    pub fn new(kind: TokenKind, span: Span) -> (r: Token)
        ensures
            r@ == (TokenV { kind: kind@, span }),
    {
        Token { kind, span }
    }
}

/// The token of a word: its keyword, or an identifier.
pub open spec fn word_kind(s: Seq<char>) -> TokenKindV {
    if s == "type"@ {
        TokenKindV::Type
    } else if s == "fun"@ {
        TokenKindV::Fun
    } else if s == "let"@ {
        TokenKindV::Let
    } else if s == "const"@ {
        TokenKindV::Const
    } else if s == "if"@ {
        TokenKindV::If
    } else if s == "else"@ {
        TokenKindV::Else
    } else if s == "match"@ {
        TokenKindV::Match
    } else if s == "for"@ {
        TokenKindV::For
    } else if s == "while"@ {
        TokenKindV::While
    } else if s == "in"@ {
        TokenKindV::In
    } else if s == "return"@ {
        TokenKindV::Return
    } else if s == "break"@ {
        TokenKindV::Break
    } else if s == "continue"@ {
        TokenKindV::Continue
    } else if s == "import"@ {
        TokenKindV::Import
    } else if s == "true"@ {
        TokenKindV::True
    } else if s == "false"@ {
        TokenKindV::False
    } else if s == "null"@ {
        TokenKindV::Null
    } else if s == "self"@ {
        TokenKindV::SelfLower
    } else if s == "Self"@ {
        TokenKindV::SelfUpper
    } else {
        TokenKindV::Ident(s)
    }
}

/// The token of a word: its keyword, or an identifier.
pub fn keyword_or_ident(s: String) -> (r: TokenKind)
    ensures
        r@ == word_kind(s@),
{
    let w = s.as_str();
    if str_eq(w, "type") {
        TokenKind::Type
    } else if str_eq(w, "fun") {
        TokenKind::Fun
    } else if str_eq(w, "let") {
        TokenKind::Let
    } else if str_eq(w, "const") {
        TokenKind::Const
    } else if str_eq(w, "if") {
        TokenKind::If
    } else if str_eq(w, "else") {
        TokenKind::Else
    } else if str_eq(w, "match") {
        TokenKind::Match
    } else if str_eq(w, "for") {
        TokenKind::For
    } else if str_eq(w, "while") {
        TokenKind::While
    } else if str_eq(w, "in") {
        TokenKind::In
    } else if str_eq(w, "return") {
        TokenKind::Return
    } else if str_eq(w, "break") {
        TokenKind::Break
    } else if str_eq(w, "continue") {
        TokenKind::Continue
    } else if str_eq(w, "import") {
        TokenKind::Import
    } else if str_eq(w, "true") {
        TokenKind::True
    } else if str_eq(w, "false") {
        TokenKind::False
    } else if str_eq(w, "null") {
        TokenKind::Null
    } else if str_eq(w, "self") {
        TokenKind::SelfLower
    } else if str_eq(w, "Self") {
        TokenKind::SelfUpper
    } else {
        TokenKind::Ident(s)
    }
}

/// The operator or punctuation token at `c` followed by `two`, and how many
/// characters it takes: two-character operators first.
pub open spec fn symbol_kind(c: char, two: Option<char>) -> Option<(TokenKindV, int)> {
    if c == '=' && two == Some('>') {
        Some((TokenKindV::FatArrow, 2))
    } else if c == '=' && two == Some('=') {
        Some((TokenKindV::EqEq, 2))
    } else if c == '!' && two == Some('=') {
        Some((TokenKindV::NotEq, 2))
    } else if c == '<' && two == Some('=') {
        Some((TokenKindV::LtEq, 2))
    } else if c == '>' && two == Some('=') {
        Some((TokenKindV::GtEq, 2))
    } else if c == '&' && two == Some('&') {
        Some((TokenKindV::AmpAmp, 2))
    } else if c == '|' && two == Some('|') {
        Some((TokenKindV::PipePipe, 2))
    } else if c == '<' && two == Some('<') {
        Some((TokenKindV::Shl, 2))
    } else if c == '>' && two == Some('>') {
        Some((TokenKindV::Shr, 2))
    } else if c == '+' && two == Some('=') {
        Some((TokenKindV::PlusEq, 2))
    } else if c == '-' && two == Some('=') {
        Some((TokenKindV::MinusEq, 2))
    } else if c == '*' && two == Some('=') {
        Some((TokenKindV::StarEq, 2))
    } else if c == '/' && two == Some('=') {
        Some((TokenKindV::SlashEq, 2))
    } else if c == '%' && two == Some('=') {
        Some((TokenKindV::PercentEq, 2))
    } else if c == '-' && two == Some('>') {
        Some((TokenKindV::Arrow, 2))
    } else if c == '+' {
        Some((TokenKindV::Plus, 1))
    } else if c == '-' {
        Some((TokenKindV::Minus, 1))
    } else if c == '*' {
        Some((TokenKindV::Star, 1))
    } else if c == '/' {
        Some((TokenKindV::Slash, 1))
    } else if c == '%' {
        Some((TokenKindV::Percent, 1))
    } else if c == '=' {
        Some((TokenKindV::Eq, 1))
    } else if c == '<' {
        Some((TokenKindV::Lt, 1))
    } else if c == '>' {
        Some((TokenKindV::Gt, 1))
    } else if c == '!' {
        Some((TokenKindV::Bang, 1))
    } else if c == '&' {
        Some((TokenKindV::Amp, 1))
    } else if c == '|' {
        Some((TokenKindV::Pipe, 1))
    } else if c == '^' {
        Some((TokenKindV::Caret, 1))
    } else if c == '~' {
        Some((TokenKindV::Tilde, 1))
    } else if c == '?' {
        Some((TokenKindV::Question, 1))
    } else if c == '.' {
        Some((TokenKindV::Dot, 1))
    } else if c == ',' {
        Some((TokenKindV::Comma, 1))
    } else if c == ':' {
        Some((TokenKindV::Colon, 1))
    } else if c == '(' {
        Some((TokenKindV::LParen, 1))
    } else if c == ')' {
        Some((TokenKindV::RParen, 1))
    } else if c == '[' {
        Some((TokenKindV::LBracket, 1))
    } else if c == ']' {
        Some((TokenKindV::RBracket, 1))
    } else if c == '{' {
        Some((TokenKindV::LBrace, 1))
    } else if c == '}' {
        Some((TokenKindV::RBrace, 1))
    } else {
        None
    }
}

/// The operator or punctuation token at `c` followed by `two`, and how many
/// characters it takes.
#[verifier::rlimit(50)]
pub fn symbol_at(c: char, two: Option<char>) -> (r: Option<(TokenKind, usize)>)
    ensures
        (match r {
            Some(p) => Some((p.0@, p.1 as int)),
            None => None,
        }) == symbol_kind(c, two),
{
    if c == '=' && next_is(two, '>') {
        Some((TokenKind::FatArrow, 2))
    } else if c == '=' && next_is(two, '=') {
        Some((TokenKind::EqEq, 2))
    } else if c == '!' && next_is(two, '=') {
        Some((TokenKind::NotEq, 2))
    } else if c == '<' && next_is(two, '=') {
        Some((TokenKind::LtEq, 2))
    } else if c == '>' && next_is(two, '=') {
        Some((TokenKind::GtEq, 2))
    } else if c == '&' && next_is(two, '&') {
        Some((TokenKind::AmpAmp, 2))
    } else if c == '|' && next_is(two, '|') {
        Some((TokenKind::PipePipe, 2))
    } else if c == '<' && next_is(two, '<') {
        Some((TokenKind::Shl, 2))
    } else if c == '>' && next_is(two, '>') {
        Some((TokenKind::Shr, 2))
    } else if c == '+' && next_is(two, '=') {
        Some((TokenKind::PlusEq, 2))
    } else if c == '-' && next_is(two, '=') {
        Some((TokenKind::MinusEq, 2))
    } else if c == '*' && next_is(two, '=') {
        Some((TokenKind::StarEq, 2))
    } else if c == '/' && next_is(two, '=') {
        Some((TokenKind::SlashEq, 2))
    } else if c == '%' && next_is(two, '=') {
        Some((TokenKind::PercentEq, 2))
    } else if c == '-' && next_is(two, '>') {
        Some((TokenKind::Arrow, 2))
    } else if c == '+' {
        Some((TokenKind::Plus, 1))
    } else if c == '-' {
        Some((TokenKind::Minus, 1))
    } else if c == '*' {
        Some((TokenKind::Star, 1))
    } else if c == '/' {
        Some((TokenKind::Slash, 1))
    } else if c == '%' {
        Some((TokenKind::Percent, 1))
    } else if c == '=' {
        Some((TokenKind::Eq, 1))
    } else if c == '<' {
        Some((TokenKind::Lt, 1))
    } else if c == '>' {
        Some((TokenKind::Gt, 1))
    } else if c == '!' {
        Some((TokenKind::Bang, 1))
    } else if c == '&' {
        Some((TokenKind::Amp, 1))
    } else if c == '|' {
        Some((TokenKind::Pipe, 1))
    } else if c == '^' {
        Some((TokenKind::Caret, 1))
    } else if c == '~' {
        Some((TokenKind::Tilde, 1))
    } else if c == '?' {
        Some((TokenKind::Question, 1))
    } else if c == '.' {
        Some((TokenKind::Dot, 1))
    } else if c == ',' {
        Some((TokenKind::Comma, 1))
    } else if c == ':' {
        Some((TokenKind::Colon, 1))
    } else if c == '(' {
        Some((TokenKind::LParen, 1))
    } else if c == ')' {
        Some((TokenKind::RParen, 1))
    } else if c == '[' {
        Some((TokenKind::LBracket, 1))
    } else if c == ']' {
        Some((TokenKind::RBracket, 1))
    } else if c == '{' {
        Some((TokenKind::LBrace, 1))
    } else if c == '}' {
        Some((TokenKind::RBrace, 1))
    } else {
        None
    }
}

fn next_is(o: Option<char>, c: char) -> (r: bool)
    ensures
        r == (o == Some(c)),
{
    match o {
        Some(x) => x == c,
        None => false,
    }
}

} // verus!
