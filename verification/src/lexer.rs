//! The Prepoly lexer.
//!
//! Converts source text into a token stream. Newlines become explicit
//! `Newline` tokens (a run of blank lines collapses to one); the parser
//! decides whether each one terminates a statement.

use vstd::prelude::*;
use crate::offsets::{byte_off, byte_off_grows, Chars};
use crate::span::Span;
use crate::text::string_of;
use crate::token::{keyword_or_ident, parts_view, symbol_at, symbol_kind, tokens_view, word_kind, StrPart, StrPartV, Token, TokenKind, TokenKindV, TokenV};

verus! {

/// A lexing error with the offending source span.
#[derive(Debug, PartialEq)]
pub struct LexError {
    pub message: String,
    pub span: Span,
}

/// The model of [`LexError`].
#[verifier::ext_equal]
pub ghost struct LexErrorV {
    pub message: Seq<char>,
    pub span: Span,
}

impl View for LexError {
    type V = LexErrorV;

    open spec fn view(&self) -> LexErrorV {
        LexErrorV { message: self.message@, span: self.span }
    }
}

// ---- character classes ----

pub open spec fn is_digit(c: char) -> bool {
    '0' <= c <= '9'
}

pub open spec fn is_letter(c: char) -> bool {
    'a' <= c <= 'z' || 'A' <= c <= 'Z'
}

/// Whether an identifier can begin with `c`.
pub open spec fn starts_ident(c: char) -> bool {
    c == '_' || is_letter(c)
}

/// Whether an identifier can go on with `c`.
pub open spec fn continues_ident(c: char) -> bool {
    c == '_' || is_letter(c) || is_digit(c)
}

/// The value of a digit, in any base up to 16.
pub open spec fn digit_value(c: char) -> Option<nat> {
    if '0' <= c <= '9' {
        Some((c as int - 48) as nat)
    } else if 'a' <= c <= 'f' {
        Some((c as int - 87) as nat)
    } else if 'A' <= c <= 'F' {
        Some((c as int - 55) as nat)
    } else {
        None
    }
}

/// Whether `c` is a digit of the given base.
pub open spec fn radix_digit(c: char, radix: nat) -> bool {
    digit_value(c) matches Some(v) && v < radix
}

// ---- scanning ----

/// The first position from `i` on whose character does not satisfy `p`, or the end.
pub open spec fn scan(cs: Seq<char>, i: int, p: spec_fn(char) -> bool) -> int
    decreases cs.len() - i,
{
    if 0 <= i < cs.len() && p(cs[i]) {
        scan(cs, i + 1, p)
    } else {
        i
    }
}

/// What `scan` finds lies within the text, and everything before it satisfies `p`.
pub proof fn scan_bounds(cs: Seq<char>, i: int, p: spec_fn(char) -> bool)
    requires
        0 <= i <= cs.len(),
    ensures
        i <= scan(cs, i, p) <= cs.len(),
        i < cs.len() && p(cs[i]) ==> i < scan(cs, i, p),
        forall|j: int| i <= j < scan(cs, i, p) ==> p(cs[j]),
    decreases cs.len() - i,
{
    if i < cs.len() && p(cs[i]) {
        scan_bounds(cs, i + 1, p);
    }
}

proof fn scan_stops(cs: Seq<char>, i: int, j: int, p: spec_fn(char) -> bool)
    requires
        0 <= i <= j <= cs.len(),
        forall|k: int| i <= k < j ==> p(cs[k]),
        j < cs.len() ==> !p(cs[j]),
    ensures
        scan(cs, i, p) == j,
    decreases j - i,
{
    if i < j {
        scan_stops(cs, i + 1, j, p);
    }
}

/// The character at `i`, if there is one.
pub open spec fn at(cs: Seq<char>, i: int) -> Option<char> {
    if 0 <= i < cs.len() {
        Some(cs[i])
    } else {
        None
    }
}

pub open spec fn span_of(cs: Seq<char>, lo: int, hi: int) -> Span {
    Span { lo: byte_off(cs, lo) as usize, hi: byte_off(cs, hi) as usize }
}

/// The error reported at `lo` when reading has come to `pos`: at least one byte wide.
pub open spec fn error_at(cs: Seq<char>, lo: int, pos: int, message: Seq<char>) -> LexErrorV {
    let l = byte_off(cs, lo);
    let p = byte_off(cs, pos);
    LexErrorV {
        message,
        span: Span {
            lo: l as usize,
            hi: (if p >= l + 1 {
                p
            } else {
                l + 1
            }) as usize,
        },
    }
}

// ---- trivia ----

/// The end of a block comment that is `depth` levels deep at `i`.
pub open spec fn comment_end(cs: Seq<char>, i: int, depth: nat) -> Option<int>
    decreases cs.len() - i,
{
    if depth == 0 {
        Some(i)
    } else if !(0 <= i < cs.len()) {
        None
    } else if cs[i] == '/' && at(cs, i + 1) == Some('*') {
        comment_end(cs, i + 2, depth + 1)
    } else if cs[i] == '*' && at(cs, i + 1) == Some('/') {
        comment_end(cs, i + 2, (depth - 1) as nat)
    } else {
        comment_end(cs, i + 1, depth)
    }
}

/// A block comment ends within the text.
pub proof fn comment_end_bounds(cs: Seq<char>, i: int, depth: nat)
    requires
        0 <= i <= cs.len(),
    ensures
        comment_end(cs, i, depth) matches Some(j) ==> i <= j <= cs.len(),
    decreases cs.len() - i,
{
    if depth > 0 && i < cs.len() {
        if cs[i] == '/' && at(cs, i + 1) == Some('*') {
            comment_end_bounds(cs, i + 2, depth + 1);
        } else if cs[i] == '*' && at(cs, i + 1) == Some('/') {
            comment_end_bounds(cs, i + 2, (depth - 1) as nat);
        } else {
            comment_end_bounds(cs, i + 1, depth);
        }
    }
}

/// The tokens after a line break at `i`: a `Newline` is added unless it would lead or
/// follow another one.
pub open spec fn newline_added(toks: Seq<TokenV>, cs: Seq<char>, i: int) -> Seq<TokenV> {
    if toks.len() == 0 || toks.last().kind is Newline {
        toks
    } else {
        toks.push(TokenV { kind: TokenKindV::Newline, span: span_of(cs, i, i + 1) })
    }
}

/// Where the next token begins, and the tokens with the line breaks before it.
pub open spec fn trivia(cs: Seq<char>, i: int, toks: Seq<TokenV>) -> Result<
    (int, Seq<TokenV>),
    LexErrorV,
>
    decreases cs.len() - i,
{
    if !(0 <= i < cs.len()) {
        Ok((i, toks))
    } else if cs[i] == ' ' || cs[i] == '\t' || cs[i] == '\r' {
        trivia(cs, i + 1, toks)
    } else if cs[i] == '\n' {
        trivia(cs, i + 1, newline_added(toks, cs, i))
    } else if cs[i] == '/' && at(cs, i + 1) == Some('/') {
        let j = scan(cs, i, not_newline());
        proof {
            scan_bounds(cs, i, not_newline());
        }
        trivia(cs, j, toks)
    } else if cs[i] == '/' && at(cs, i + 1) == Some('*') {
        proof {
            comment_end_bounds(cs, i + 2, 1);
        }
        match comment_end(cs, i + 2, 1) {
            Some(j) => trivia(cs, j, toks),
            None => Err(
                LexErrorV {
                    message: "unterminated block comment"@,
                    span: span_of(cs, i, cs.len() as int),
                },
            ),
        }
    } else {
        Ok((i, toks))
    }
}

/// Skipping trivia moves forward within the text.
pub proof fn trivia_bounds(cs: Seq<char>, i: int, toks: Seq<TokenV>)
    requires
        0 <= i <= cs.len(),
    ensures
        trivia(cs, i, toks) matches Ok(r) ==> i <= r.0 <= cs.len(),
    decreases cs.len() - i,
{
    if i < cs.len() {
        if cs[i] == ' ' || cs[i] == '\t' || cs[i] == '\r' {
            trivia_bounds(cs, i + 1, toks);
        } else if cs[i] == '\n' {
            trivia_bounds(cs, i + 1, newline_added(toks, cs, i));
        } else if cs[i] == '/' && at(cs, i + 1) == Some('/') {
            scan_bounds(cs, i, not_newline());
            trivia_bounds(cs, scan(cs, i, not_newline()), toks);
        } else if cs[i] == '/' && at(cs, i + 1) == Some('*') {
            comment_end_bounds(cs, i + 2, 1);
            if let Some(j) = comment_end(cs, i + 2, 1) {
                trivia_bounds(cs, j, toks);
            }
        }
    }
}

// ---- numbers ----

/// `cs[lo..hi]` without the `_` separators.
pub open spec fn stripped(cs: Seq<char>, lo: int, hi: int) -> Seq<char>
    decreases hi - lo,
{
    if hi <= lo {
        Seq::empty()
    } else if cs[hi - 1] == '_' {
        stripped(cs, lo, hi - 1)
    } else {
        stripped(cs, lo, hi - 1).push(cs[hi - 1])
    }
}

/// The number that digits write in a base.
pub open spec fn number_value(ds: Seq<char>, radix: nat) -> nat
    decreases ds.len(),
{
    if ds.len() == 0 {
        0
    } else {
        number_value(ds.drop_last(), radix) * radix + digit_value(ds.last())->0
    }
}

/// The base a radix prefix letter announces.
pub open spec fn radix_of(c: char) -> Option<nat> {
    if c == 'x' || c == 'X' {
        Some(16)
    } else if c == 'b' || c == 'B' {
        Some(2)
    } else if c == 'o' || c == 'O' {
        Some(8)
    } else {
        None
    }
}

pub open spec fn not_newline() -> spec_fn(char) -> bool {
    |c: char| c != '\n'
}

pub open spec fn ident_char() -> spec_fn(char) -> bool {
    |c: char| continues_ident(c)
}

pub open spec fn digit_or_sep() -> spec_fn(char) -> bool {
    |c: char| is_digit(c) || c == '_'
}

pub open spec fn radix_or_sep(radix: nat) -> spec_fn(char) -> bool {
    |c: char| c == '_' || radix_digit(c, radix)
}

pub open spec fn digit_only() -> spec_fn(char) -> bool {
    |c: char| is_digit(c)
}

/// The end of the integer part that begins at `i`.
pub open spec fn int_end(cs: Seq<char>, i: int) -> int {
    scan(cs, i, digit_or_sep())
}

/// Whether a fraction follows at `a`: a `.` with a digit behind it (so `42.foo` stays
/// an integer followed by field access).
pub open spec fn fraction_at(cs: Seq<char>, a: int) -> bool {
    at(cs, a) == Some('.') && (at(cs, a + 1) matches Some(c) && is_digit(c))
}

/// The end of an optional fraction at `a`.
pub open spec fn fraction_end(cs: Seq<char>, a: int) -> int {
    if fraction_at(cs, a) {
        scan(cs, a + 1, digit_or_sep())
    } else {
        a
    }
}

/// Where the digits of an exponent at `b` begin, if one stands there.
pub open spec fn exponent_digits(cs: Seq<char>, b: int) -> Option<int> {
    if at(cs, b) == Some('e') || at(cs, b) == Some('E') {
        let look = if at(cs, b + 1) == Some('+') || at(cs, b + 1) == Some('-') {
            b + 2
        } else {
            b + 1
        };
        if at(cs, look) matches Some(c) && is_digit(c) {
            Some(look)
        } else {
            None
        }
    } else {
        None
    }
}

/// The number literal at `i` and its end.
pub open spec fn number(cs: Seq<char>, i: int) -> Result<(TokenKindV, int), LexErrorV> {
    let radix = match at(cs, i + 1) {
        Some(c) if cs[i] == '0' => radix_of(c),
        _ => None,
    };
    match radix {
        Some(radix) => {
            let j = scan(cs, i + 2, radix_or_sep(radix));
            let ds = stripped(cs, i + 2, j);
            if ds.len() == 0 {
                Err(error_at(cs, i, j, "missing digits after radix prefix"@))
            } else if number_value(ds, radix) > i64::MAX {
                Err(error_at(cs, i, j, "integer literal out of range"@))
            } else {
                Ok((TokenKindV::Int(number_value(ds, radix) as i64), j))
            }
        },
        None => {
            let a = int_end(cs, i);
            let b = fraction_end(cs, a);
            let float = fraction_at(cs, a) || exponent_digits(cs, b) is Some;
            let e = match exponent_digits(cs, b) {
                Some(d) => scan(cs, d, digit_only()),
                None => b,
            };
            let ds = stripped(cs, i, e);
            if float {
                Ok((TokenKindV::Float(ds), e))
            } else if number_value(ds, 10) > i64::MAX {
                Err(error_at(cs, i, e, "integer literal out of range"@))
            } else {
                Ok((TokenKindV::Int(number_value(ds, 10) as i64), e))
            }
        },
    }
}

proof fn number_bounds(cs: Seq<char>, i: int)
    requires
        0 <= i < cs.len(),
        is_digit(cs[i]),
    ensures
        number(cs, i) matches Ok(r) ==> i < r.1 <= cs.len(),
        i < int_end(cs, i) <= fraction_end(cs, int_end(cs, i)) <= cs.len(),
{
    scan_bounds(cs, i, digit_or_sep());
    let a = int_end(cs, i);
    if fraction_at(cs, a) {
        scan_bounds(cs, a + 1, digit_or_sep());
    }
    let b = fraction_end(cs, a);
    if let Some(d) = exponent_digits(cs, b) {
        scan_bounds(cs, d, digit_only());
    }
    if let Some(c) = at(cs, i + 1) {
        if let Some(r) = radix_of(c) {
            scan_bounds(cs, i + 2, radix_or_sep(r));
        }
    }
}

// ---- strings ----

/// What an escape letter stands for.
pub open spec fn escape(c: char) -> Option<char> {
    if c == 'n' {
        Some('\n')
    } else if c == 't' {
        Some('\t')
    } else if c == 'r' {
        Some('\r')
    } else if c == '0' {
        Some('\0')
    } else if c == '\\' || c == '"' || c == '{' || c == '}' {
        Some(c)
    } else {
        None
    }
}

/// The position behind a string literal nested in an interpolation that began at
/// `start`, read from `i` on.
pub open spec fn nested_end(cs: Seq<char>, start: int, i: int) -> Result<int, LexErrorV>
    decreases cs.len() + 1 - i,
{
    if !(0 <= i < cs.len()) {
        Err(error_at(cs, start, i, "unterminated nested string"@))
    } else if cs[i] == '\\' {
        nested_end(cs, start, i + 2)
    } else if cs[i] == '"' {
        Ok(i + 1)
    } else {
        nested_end(cs, start, i + 1)
    }
}

/// A nested string literal ends within the text.
pub proof fn nested_bounds(cs: Seq<char>, start: int, i: int)
    requires
        0 <= i,
    ensures
        nested_end(cs, start, i) matches Ok(j) ==> i < j <= cs.len(),
    decreases cs.len() + 1 - i,
{
    if i < cs.len() {
        if cs[i] == '\\' {
            nested_bounds(cs, start, i + 2);
        } else if cs[i] != '"' {
            nested_bounds(cs, start, i + 1);
        }
    }
}

/// The position of the brace that closes an interpolation, read from `i` on with
/// `depth` braces open. Braces in nested string literals do not count.
pub open spec fn interpolation_end(cs: Seq<char>, str_start: int, i: int, depth: nat) -> Result<
    int,
    LexErrorV,
>
    decreases cs.len() - i,
{
    if !(0 <= i < cs.len()) {
        Err(error_at(cs, str_start, i, "unterminated interpolation"@))
    } else if cs[i] == '{' {
        interpolation_end(cs, str_start, i + 1, depth + 1)
    } else if cs[i] == '}' {
        if depth <= 1 {
            Ok(i)
        } else {
            interpolation_end(cs, str_start, i + 1, (depth - 1) as nat)
        }
    } else if cs[i] == '"' {
        proof {
            nested_bounds(cs, i, i + 1);
        }
        match nested_end(cs, i, i + 1) {
            Ok(j) => interpolation_end(cs, str_start, j, depth),
            Err(e) => Err(e),
        }
    } else {
        interpolation_end(cs, str_start, i + 1, depth)
    }
}

/// An interpolation ends at a closing brace within the text.
pub proof fn interpolation_bounds(cs: Seq<char>, str_start: int, i: int, depth: nat)
    requires
        0 <= i <= cs.len(),
    ensures
        interpolation_end(cs, str_start, i, depth) matches Ok(j) ==> i <= j < cs.len() && cs[j]
            == '}',
    decreases cs.len() - i,
{
    if i < cs.len() {
        if cs[i] == '{' {
            interpolation_bounds(cs, str_start, i + 1, depth + 1);
        } else if cs[i] == '}' {
            if depth > 1 {
                interpolation_bounds(cs, str_start, i + 1, (depth - 1) as nat);
            }
        } else if cs[i] == '"' {
            nested_bounds(cs, i, i + 1);
            if let Ok(j) = nested_end(cs, i, i + 1) {
                interpolation_bounds(cs, str_start, j, depth);
            }
        } else {
            interpolation_bounds(cs, str_start, i + 1, depth);
        }
    }
}

/// Parts with the pending text added, if there is any.
pub open spec fn flushed(parts: Seq<StrPartV>, cur: Seq<char>) -> Seq<StrPartV> {
    if cur.len() > 0 {
        parts.push(StrPartV::Lit(cur))
    } else {
        parts
    }
}

/// The rest of a string literal that began at `start`, read from `i` on: its parts and
/// its end. `cur` is the text since the last part.
pub open spec fn string_rest(
    cs: Seq<char>,
    start: int,
    i: int,
    parts: Seq<StrPartV>,
    cur: Seq<char>,
) -> Result<(Seq<StrPartV>, int), LexErrorV>
    decreases cs.len() - i,
{
    if !(0 <= i < cs.len()) {
        Err(error_at(cs, start, i, "unterminated string literal"@))
    } else if cs[i] == '"' {
        Ok(
            (
                if cur.len() > 0 || parts.len() == 0 {
                    parts.push(StrPartV::Lit(cur))
                } else {
                    parts
                },
                i + 1,
            ),
        )
    } else if cs[i] == '\\' {
        match at(cs, i + 1) {
            None => Err(error_at(cs, start, i + 1, "unterminated escape"@)),
            Some(c) => match escape(c) {
                None => Err(error_at(cs, i + 1, i + 1, "unknown escape sequence"@)),
                Some(r) => string_rest(cs, start, i + 2, parts, cur.push(r)),
            },
        }
    } else if cs[i] == '{' {
        proof {
            interpolation_bounds(cs, start, i + 1, 1);
        }
        match interpolation_end(cs, start, i + 1, 1) {
            Err(e) => Err(e),
            Ok(j) => string_rest(
                cs,
                start,
                j + 1,
                flushed(parts, cur).push(StrPartV::Interp(cs.subrange(i + 1, j))),
                Seq::empty(),
            ),
        }
    } else {
        string_rest(cs, start, i + 1, parts, cur.push(cs[i]))
    }
}

proof fn string_bounds(cs: Seq<char>, start: int, i: int, parts: Seq<StrPartV>, cur: Seq<char>)
    requires
        0 <= i <= cs.len(),
    ensures
        string_rest(cs, start, i, parts, cur) matches Ok(r) ==> i < r.1 <= cs.len(),
    decreases cs.len() - i,
{
    if i < cs.len() {
        if cs[i] == '"' {
        } else if cs[i] == '\\' {
            if let Some(c) = at(cs, i + 1) {
                if let Some(r) = escape(c) {
                    string_bounds(cs, start, i + 2, parts, cur.push(r));
                }
            }
        } else if cs[i] == '{' {
            interpolation_bounds(cs, start, i + 1, 1);
            if let Ok(j) = interpolation_end(cs, start, i + 1, 1) {
                string_bounds(
                    cs,
                    start,
                    j + 1,
                    flushed(parts, cur).push(StrPartV::Interp(cs.subrange(i + 1, j))),
                    Seq::empty(),
                );
            }
        } else {
            string_bounds(cs, start, i + 1, parts, cur.push(cs[i]));
        }
    }
}

// ---- tokens ----

/// The token at `i` and its end.
pub open spec fn token_at(cs: Seq<char>, i: int) -> Result<(TokenKindV, int), LexErrorV> {
    let c = cs[i];
    if is_digit(c) {
        number(cs, i)
    } else if c == '"' {
        match string_rest(cs, i, i + 1, Seq::empty(), Seq::empty()) {
            Ok(r) => Ok((TokenKindV::Str(r.0), r.1)),
            Err(e) => Err(e),
        }
    } else if starts_ident(c) {
        let j = scan(cs, i, ident_char());
        Ok((word_kind(cs.subrange(i, j)), j))
    } else {
        match symbol_kind(c, at(cs, i + 1)) {
            Some(r) => Ok((r.0, i + r.1)),
            None => Err(error_at(cs, i, i, "unexpected character"@)),
        }
    }
}

/// A token takes at least one character and ends within the text.
pub proof fn token_at_bounds(cs: Seq<char>, i: int)
    requires
        0 <= i < cs.len(),
    ensures
        token_at(cs, i) matches Ok(r) ==> i < r.1 <= cs.len(),
{
    let c = cs[i];
    if is_digit(c) {
        number_bounds(cs, i);
    } else if c == '"' {
        string_bounds(cs, i, i + 1, Seq::empty(), Seq::empty());
    } else if starts_ident(c) {
        scan_bounds(cs, i, ident_char());
    }
}

/// All tokens from `i` on, after `toks`.
pub open spec fn tokens_from(cs: Seq<char>, i: int, toks: Seq<TokenV>) -> Result<
    Seq<TokenV>,
    LexErrorV,
>
    decreases cs.len() - i,
{
    if !(0 <= i <= cs.len()) {
        Ok(toks)
    } else {
        proof {
            trivia_bounds(cs, i, toks);
        }
        match trivia(cs, i, toks) {
            Err(e) => Err(e),
            Ok((j, ts)) => if j >= cs.len() {
                let end = cs.len() as int;
                Ok(ts.push(TokenV { kind: TokenKindV::Eof, span: span_of(cs, end, end) }))
            } else {
                proof {
                    token_at_bounds(cs, j);
                }
                match token_at(cs, j) {
                    Err(e) => Err(e),
                    Ok((kind, k)) => tokens_from(
                        cs,
                        k,
                        ts.push(TokenV { kind, span: span_of(cs, j, k) }),
                    ),
                }
            },
        }
    }
}

/// The tokens of a text, terminated by `Eof`, or the first error in it.
pub open spec fn lexed(cs: Seq<char>) -> Result<Seq<TokenV>, LexErrorV> {
    tokens_from(cs, 0, Seq::empty())
}

// ---- laws ----

/// The shape of a token list that ends at `hi`: no leading `Newline`, no two adjacent
/// ones, spans in order and up to `hi`.
pub open spec fn well_spaced(toks: Seq<TokenV>, hi: nat) -> bool {
    &&& toks.len() > 0 ==> !(toks[0].kind is Newline)
    &&& forall|i: int|
        #![trigger toks[i]]
        0 <= i < toks.len() ==> {
            &&& toks[i].span.lo < toks[i].span.hi <= hi
            &&& i + 1 < toks.len() ==> {
                &&& toks[i].span.hi <= toks[i + 1].span.lo
                &&& !(toks[i].kind is Newline && toks[i + 1].kind is Newline)
            }
            &&& !(toks[i].kind is Eof)
        }
}

proof fn well_spaced_push(toks: Seq<TokenV>, cs: Seq<char>, lo: int, hi: int, kind: TokenKindV)
    requires
        0 <= lo < hi <= cs.len(),
        byte_off(cs, cs.len() as int) <= usize::MAX,
        well_spaced(toks, byte_off(cs, lo)),
        !(kind is Eof),
        kind is Newline ==> toks.len() > 0 && !(toks.last().kind is Newline),
    ensures
        well_spaced(toks.push(TokenV { kind, span: span_of(cs, lo, hi) }), byte_off(cs, hi)),
{
    byte_off_grows(cs, lo, hi);
    if hi < cs.len() {
        byte_off_grows(cs, hi, cs.len() as int);
    }
    let t = toks.push(TokenV { kind, span: span_of(cs, lo, hi) });
    assert forall|i: int|
        #![trigger t[i]]
        0 <= i < t.len() implies {
        &&& t[i].span.lo < t[i].span.hi <= byte_off(cs, hi)
        &&& i + 1 < t.len() ==> {
            &&& t[i].span.hi <= t[i + 1].span.lo
            &&& !(t[i].kind is Newline && t[i + 1].kind is Newline)
        }
        &&& !(t[i].kind is Eof)
    } by {
        if i < toks.len() {
            assert(t[i] == toks[i]);
            if i + 1 < toks.len() {
                assert(t[i + 1] == toks[i + 1]);
            }
        }
    }
    if toks.len() > 0 {
        assert(t[0] == toks[0]);
    }
}

proof fn well_spaced_later(toks: Seq<TokenV>, a: nat, b: nat)
    requires
        well_spaced(toks, a),
        a <= b,
    ensures
        well_spaced(toks, b),
{
}

proof fn trivia_well_spaced(cs: Seq<char>, i: int, toks: Seq<TokenV>)
    requires
        0 <= i <= cs.len(),
        byte_off(cs, cs.len() as int) <= usize::MAX,
        well_spaced(toks, byte_off(cs, i)),
    ensures
        trivia(cs, i, toks) matches Ok(r) ==> well_spaced(r.1, byte_off(cs, r.0)),
    decreases cs.len() - i,
{
    if i < cs.len() {
        byte_off_grows(cs, i, i + 1);
        if cs[i] == ' ' || cs[i] == '\t' || cs[i] == '\r' {
            well_spaced_later(toks, byte_off(cs, i), byte_off(cs, i + 1));
            trivia_well_spaced(cs, i + 1, toks);
        } else if cs[i] == '\n' {
            if toks.len() == 0 || toks.last().kind is Newline {
                well_spaced_later(toks, byte_off(cs, i), byte_off(cs, i + 1));
            } else {
                well_spaced_push(toks, cs, i, i + 1, TokenKindV::Newline);
            }
            trivia_well_spaced(cs, i + 1, newline_added(toks, cs, i));
        } else if cs[i] == '/' && at(cs, i + 1) == Some('/') {
            scan_bounds(cs, i, not_newline());
            let j = scan(cs, i, not_newline());
            byte_off_grows(cs, i, j);
            well_spaced_later(toks, byte_off(cs, i), byte_off(cs, j));
            trivia_well_spaced(cs, j, toks);
        } else if cs[i] == '/' && at(cs, i + 1) == Some('*') {
            comment_end_bounds(cs, i + 2, 1);
            if let Some(j) = comment_end(cs, i + 2, 1) {
                byte_off_grows(cs, i, j);
                well_spaced_later(toks, byte_off(cs, i), byte_off(cs, j));
                trivia_well_spaced(cs, j, toks);
            }
        }
    }
}

proof fn tokens_well_spaced(cs: Seq<char>, i: int, toks: Seq<TokenV>)
    requires
        0 <= i <= cs.len(),
        byte_off(cs, cs.len() as int) <= usize::MAX,
        well_spaced(toks, byte_off(cs, i)),
    ensures
        tokens_from(cs, i, toks) matches Ok(r) ==> {
            &&& r.len() > 0
            &&& well_spaced(r.drop_last(), byte_off(cs, cs.len() as int))
            &&& r.last() == (TokenV {
                kind: TokenKindV::Eof,
                span: span_of(cs, cs.len() as int, cs.len() as int),
            })
        },
    decreases cs.len() - i,
{
    trivia_bounds(cs, i, toks);
    trivia_well_spaced(cs, i, toks);
    if let Ok((j, ts)) = trivia(cs, i, toks) {
        if j >= cs.len() {
            let end = cs.len() as int;
            let e = TokenV { kind: TokenKindV::Eof, span: span_of(cs, end, end) };
            assert(ts.push(e).drop_last() =~= ts);
        } else {
            token_at_bounds(cs, j);
            if let Ok((kind, k)) = token_at(cs, j) {
                assert(!(kind is Newline) && !(kind is Eof)) by {
                    reveal_strlit("type");
                }
                well_spaced_push(ts, cs, j, k, kind);
                tokens_well_spaced(cs, k, ts.push(TokenV { kind, span: span_of(cs, j, k) }));
            }
        }
    }
}

/// The tokens of a text end in one `Eof` at its end; before it there is no leading and
/// no doubled `Newline` (the parser never sees an empty statement), and every span is
/// non-empty, in source order, and within the text.
pub proof fn tokens_are_well_spaced(cs: Seq<char>)
    requires
        byte_off(cs, cs.len() as int) <= usize::MAX,
    ensures
        lexed(cs) matches Ok(toks) ==> {
            let end = byte_off(cs, cs.len() as int) as usize;
            &&& toks.len() > 0
            &&& toks.last() == (TokenV { kind: TokenKindV::Eof, span: Span { lo: end, hi: end } })
            &&& well_spaced(toks.drop_last(), end as nat)
        },
{
    tokens_well_spaced(cs, 0, Seq::empty());
}

/// Whether a token stands for some characters of the text.
pub open spec fn stands_on(t: TokenV, cs: Seq<char>) -> bool {
    exists|lo: int, hi: int| 0 <= lo <= hi <= cs.len() && t.span == #[trigger] span_of(cs, lo, hi)
}

/// Whether every token stands for some characters of the text.
pub open spec fn all_stand_on(toks: Seq<TokenV>, cs: Seq<char>) -> bool {
    forall|i: int| 0 <= i < toks.len() ==> stands_on(#[trigger] toks[i], cs)
}

proof fn stand_on_push(toks: Seq<TokenV>, cs: Seq<char>, lo: int, hi: int, kind: TokenKindV)
    requires
        0 <= lo <= hi <= cs.len(),
        all_stand_on(toks, cs),
    ensures
        all_stand_on(toks.push(TokenV { kind, span: span_of(cs, lo, hi) }), cs),
{
    let t = toks.push(TokenV { kind, span: span_of(cs, lo, hi) });
    assert forall|i: int| 0 <= i < t.len() implies stands_on(#[trigger] t[i], cs) by {
        if i < toks.len() {
            assert(t[i] == toks[i]);
        }
    }
}

proof fn trivia_stands_on(cs: Seq<char>, i: int, toks: Seq<TokenV>)
    requires
        0 <= i <= cs.len(),
        all_stand_on(toks, cs),
    ensures
        trivia(cs, i, toks) matches Ok(r) ==> all_stand_on(r.1, cs),
    decreases cs.len() - i,
{
    if i < cs.len() {
        if cs[i] == ' ' || cs[i] == '\t' || cs[i] == '\r' {
            trivia_stands_on(cs, i + 1, toks);
        } else if cs[i] == '\n' {
            stand_on_push(toks, cs, i, i + 1, TokenKindV::Newline);
            trivia_stands_on(cs, i + 1, newline_added(toks, cs, i));
        } else if cs[i] == '/' && at(cs, i + 1) == Some('/') {
            scan_bounds(cs, i, not_newline());
            trivia_stands_on(cs, scan(cs, i, not_newline()), toks);
        } else if cs[i] == '/' && at(cs, i + 1) == Some('*') {
            comment_end_bounds(cs, i + 2, 1);
            if let Some(j) = comment_end(cs, i + 2, 1) {
                trivia_stands_on(cs, j, toks);
            }
        }
    }
}

proof fn tokens_stand_on(cs: Seq<char>, i: int, toks: Seq<TokenV>)
    requires
        0 <= i <= cs.len(),
        all_stand_on(toks, cs),
    ensures
        tokens_from(cs, i, toks) matches Ok(r) ==> all_stand_on(r, cs),
    decreases cs.len() - i,
{
    trivia_bounds(cs, i, toks);
    trivia_stands_on(cs, i, toks);
    if let Ok((j, ts)) = trivia(cs, i, toks) {
        if j >= cs.len() {
            let end = cs.len() as int;
            stand_on_push(ts, cs, end, end, TokenKindV::Eof);
        } else {
            token_at_bounds(cs, j);
            if let Ok((kind, k)) = token_at(cs, j) {
                stand_on_push(ts, cs, j, k, kind);
                tokens_stand_on(cs, k, ts.push(TokenV { kind, span: span_of(cs, j, k) }));
            }
        }
    }
}

/// Every token of a text stands for whole characters of it.
pub proof fn tokens_stand_on_characters(cs: Seq<char>)
    ensures
        lexed(cs) matches Ok(toks) ==> all_stand_on(toks, cs),
{
    tokens_stand_on(cs, 0, Seq::empty());
}

// ---- running ----

fn is_ident_start(c: char) -> (r: bool)
    ensures
        r == starts_ident(c),
{
    c == '_' || ('a' <= c && c <= 'z') || ('A' <= c && c <= 'Z')
}

fn is_ident_continue(c: char) -> (r: bool)
    ensures
        r == continues_ident(c),
{
    is_ident_start(c) || is_ascii_digit(c)
}

fn is_ascii_digit(c: char) -> (r: bool)
    ensures
        r == is_digit(c),
{
    '0' <= c && c <= '9'
}

/// The value of a digit, or 16.
fn value_of_digit(c: char) -> (r: u32)
    ensures
        r <= 16,
        digit_value(c) == (if r < 16 {
            Some(r as nat)
        } else {
            None::<nat>
        }),
{
    if '0' <= c && c <= '9' {
        c as u32 - 48
    } else if 'a' <= c && c <= 'f' {
        c as u32 - 87
    } else if 'A' <= c && c <= 'F' {
        c as u32 - 55
    } else {
        16
    }
}

fn is_radix_digit(c: char, radix: u32) -> (r: bool)
    requires
        radix <= 16,
    ensures
        r == radix_digit(c, radix as nat),
{
    value_of_digit(c) < radix
}

/// The model of a lexing result.
pub open spec fn lex_result(r: Result<Vec<Token>, LexError>) -> Result<Seq<TokenV>, LexErrorV> {
    match r {
        Ok(ts) => Ok(tokens_view(ts@)),
        Err(e) => Err(e@),
    }
}

struct Lexer<'a> {
    src: &'a Chars,
    pos: usize,
    tokens: Vec<Token>,
}

/// Tokenize `src` into a token vector terminated by `Eof`.
///
/// Leading newlines and newlines adjacent to other newlines are collapsed so
/// the parser never sees empty statements. Comments are discarded but a
/// newline that ends a `//` comment still separates statements.
pub fn lex(src: &str) -> (r: Result<Vec<Token>, LexError>)
    requires
        byte_off(src@, src@.len() as int) < usize::MAX,
    ensures
        lex_result(r) == lexed(src@),
{
    let chars = Chars::of(src);
    let mut lx = Lexer { src: &chars, pos: 0, tokens: Vec::new() };
    assert(tokens_view(lx.tokens@) =~= Seq::empty());
    match lx.run() {
        Ok(_) => Ok(lx.tokens),
        Err(e) => Err(e),
    }
}

impl<'a> Lexer<'a> {
    spec fn cs(&self) -> Seq<char> {
        self.src.cs@
    }

    spec fn toks(&self) -> Seq<TokenV> {
        tokens_view(self.tokens@)
    }

    spec fn wf(&self) -> bool {
        &&& self.src.wf()
        &&& self.pos <= self.cs().len()
        &&& byte_off(self.cs(), self.cs().len() as int) < usize::MAX
    }

    fn push(&mut self, kind: TokenKind, lo: usize)
        requires
            old(self).wf(),
            lo <= old(self).pos,
        ensures
            final(self).wf(),
            final(self).src == old(self).src,
            final(self).pos == old(self).pos,
            final(self).toks() == old(self).toks().push(
                TokenV { kind: kind@, span: span_of(old(self).cs(), lo as int, old(self).pos as int) },
            ),
    {
        let ghost before = self.toks();
        let t = Token::new(kind, Span::new(self.src.off(lo), self.src.off(self.pos)));
        self.tokens.push(t);
        assert(self.toks() =~= before.push(t@));
    }

    fn cur(&self) -> (r: Option<char>)
        requires
            self.wf(),
        ensures
            r == at(self.cs(), self.pos as int),
    {
        self.peek(0)
    }

    fn peek(&self, n: usize) -> (r: Option<char>)
        requires
            self.wf(),
            n <= 2,
        ensures
            r == at(self.cs(), self.pos + n),
    {
        if n < self.src.cs.len() - self.pos {
            Some(self.src.cs[self.pos + n])
        } else {
            None
        }
    }

    /// The error reported at `lo` when reading has come to `pos` (at most one past the
    /// end).
    fn err(&self, lo: usize, pos: usize, msg: &str) -> (r: LexError)
        requires
            self.wf(),
            lo <= self.cs().len(),
            pos <= self.cs().len() + 1,
        ensures
            r@ == error_at(self.cs(), lo as int, pos as int, msg@),
    {
        let n = self.src.cs.len();
        proof {
            if lo < n {
                byte_off_grows(self.cs(), lo as int, n as int);
            }
            if pos < n {
                byte_off_grows(self.cs(), pos as int, n as int);
            }
        }
        let l = self.src.off(lo);
        let p = if pos <= n {
            self.src.off(pos)
        } else {
            self.src.off(n) + 1
        };
        let hi = if p >= l + 1 {
            p
        } else {
            l + 1
        };
        LexError { message: msg.to_owned(), span: Span::new(l, hi) }
    }

    fn run(&mut self) -> (r: Result<(), LexError>)
        requires
            old(self).wf(),
        ensures
            (match r {
                Ok(_) => Ok(final(self).toks()),
                Err(e) => Err(e@),
            }) == tokens_from(old(self).cs(), old(self).pos as int, old(self).toks()),
    {
        let ghost cs = self.cs();
        let ghost goal = tokens_from(cs, self.pos as int, self.toks());
        loop
            invariant_except_break
                goal == tokens_from(cs, self.pos as int, self.toks()),
            invariant
                self.wf(),
                cs == self.cs(),
                goal == tokens_from(old(self).cs(), old(self).pos as int, old(self).toks()),
            ensures
                goal == Ok::<Seq<TokenV>, LexErrorV>(
                    self.toks().push(
                        TokenV {
                            kind: TokenKindV::Eof,
                            span: span_of(cs, cs.len() as int, cs.len() as int),
                        },
                    ),
                ),
            decreases cs.len() - self.pos,
        {
            let ghost start = self.pos;
            proof {
                trivia_bounds(cs, self.pos as int, self.toks());
            }
            self.skip_trivia()?;
            if self.pos >= self.src.cs.len() {
                break;
            }
            proof {
                token_at_bounds(cs, self.pos as int);
            }
            let c = self.src.cs[self.pos];
            if is_ascii_digit(c) {
                self.lex_number()?;
            } else if c == '"' {
                self.lex_string()?;
            } else if is_ident_start(c) {
                self.lex_ident();
            } else {
                self.lex_symbol()?;
            }
        }
        self.pos = self.src.cs.len();
        let end = self.pos;
        self.push(TokenKind::Eof, end);
        Ok(())
    }

    /// Skip spaces, tabs, carriage returns, and comments. Newlines emit a
    /// single `Newline` token (collapsing runs and suppressing a leading one).
    fn skip_trivia(&mut self) -> (r: Result<(), LexError>)
        requires
            old(self).wf(),
        ensures
            final(self).wf(),
            final(self).src == old(self).src,
            (match r {
                Ok(_) => Ok((final(self).pos as int, final(self).toks())),
                Err(e) => Err(e@),
            }) == trivia(old(self).cs(), old(self).pos as int, old(self).toks()),
    {
        let ghost cs = self.cs();
        let ghost goal = trivia(cs, self.pos as int, self.toks());
        loop
            invariant
                self.wf(),
                self.src == old(self).src,
                cs == self.cs(),
                goal == trivia(cs, self.pos as int, self.toks()),
                goal == trivia(old(self).cs(), old(self).pos as int, old(self).toks()),
            decreases cs.len() - self.pos,
        {
            if self.pos >= self.src.cs.len() {
                return Ok(());
            }
            let c = self.src.cs[self.pos];
            let two = self.peek(1);
            if c == ' ' || c == '\t' || c == '\r' {
                self.pos = self.pos + 1;
            } else if c == '\n' {
                self.pos = self.pos + 1;
                self.push_newline();
            } else if c == '/' && two.is_some() && two.unwrap() == '/' {
                let ghost start = self.pos as int;
                while self.pos < self.src.cs.len() && self.src.cs[self.pos] != '\n'
                    invariant
                        self.wf(),
                        self.src == old(self).src,
                        cs == self.cs(),
                        start <= self.pos,
                        goal == trivia(cs, start, self.toks()),
                        forall|j: int| start <= j < self.pos ==> not_newline()(cs[j]),
                    decreases cs.len() - self.pos,
                {
                    self.pos = self.pos + 1;
                }
                proof {
                    scan_stops(cs, start, self.pos as int, not_newline());
                }
            } else if c == '/' && two.is_some() && two.unwrap() == '*' {
                proof {
                    comment_end_bounds(cs, self.pos + 2, 1);
                }
                self.skip_block_comment()?;
            } else {
                return Ok(());
            }
        }
    }

    /// Skip a `/* ... */` block comment. Block comments nest.
    fn skip_block_comment(&mut self) -> (r: Result<(), LexError>)
        requires
            old(self).wf(),
            old(self).pos + 2 <= old(self).cs().len(),
        ensures
            final(self).wf(),
            final(self).src == old(self).src,
            final(self).tokens == old(self).tokens,
            match r {
                Ok(_) => comment_end(old(self).cs(), old(self).pos + 2, 1) == Some(
                    final(self).pos as int,
                ),
                Err(e) => comment_end(old(self).cs(), old(self).pos + 2, 1) is None && e@ == (
                LexErrorV {
                    message: "unterminated block comment"@,
                    span: span_of(
                        old(self).cs(),
                        old(self).pos as int,
                        old(self).cs().len() as int,
                    ),
                }),
            },
    {
        let ghost cs = self.cs();
        let start = self.pos;
        let ghost goal = comment_end(cs, start + 2, 1);
        self.pos = self.pos + 2;
        let mut depth: usize = 1;
        while self.pos < self.src.cs.len() && depth > 0
            invariant
                self.wf(),
                self.src == old(self).src,
                self.tokens == old(self).tokens,
                cs == self.cs(),
                depth <= self.pos,
                goal == comment_end(cs, self.pos as int, depth as nat),
            decreases cs.len() - self.pos,
        {
            let c = self.src.cs[self.pos];
            let two = self.peek(1);
            if c == '/' && two.is_some() && two.unwrap() == '*' {
                depth = depth + 1;
                self.pos = self.pos + 2;
            } else if c == '*' && two.is_some() && two.unwrap() == '/' {
                depth = depth - 1;
                self.pos = self.pos + 2;
            } else {
                // A newline inside a block comment does not separate statements.
                self.pos = self.pos + 1;
            }
        }
        if depth != 0 {
            return Err(
                LexError {
                    message: "unterminated block comment".to_owned(),
                    span: Span::new(self.src.off(start), self.src.off(self.pos)),
                },
            );
        }
        Ok(())
    }

    /// Emit a Newline token for the line break just passed, unless the previous token
    /// was already a Newline or this is the very first token.
    fn push_newline(&mut self)
        requires
            old(self).wf(),
            old(self).pos > 0,
        ensures
            final(self).wf(),
            final(self).src == old(self).src,
            final(self).pos == old(self).pos,
            final(self).toks() == newline_added(
                old(self).toks(),
                old(self).cs(),
                old(self).pos - 1,
            ),
    {
        let n = self.tokens.len();
        if n == 0 {
            return ;
        }
        assert(self.toks()[n - 1] == self.tokens[n - 1]@);
        if !matches!(self.tokens[n - 1].kind, TokenKind::Newline) {
            let lo = self.pos - 1;
            self.push(TokenKind::Newline, lo);
        }
    }

    fn lex_ident(&mut self)
        requires
            old(self).wf(),
            old(self).pos < old(self).cs().len(),
            starts_ident(old(self).cs()[old(self).pos as int]),
        ensures
            final(self).wf(),
            final(self).src == old(self).src,
            ({
                let cs = old(self).cs();
                let i = old(self).pos as int;
                let j = scan(cs, i, ident_char());
                &&& final(self).pos == j
                &&& final(self).toks() == old(self).toks().push(
                    TokenV { kind: word_kind(cs.subrange(i, j)), span: span_of(cs, i, j) },
                )
            }),
    {
        let ghost cs = self.cs();
        let start = self.pos;
        while self.pos < self.src.cs.len() && is_ident_continue(self.src.cs[self.pos])
            invariant
                self.wf(),
                self.src == old(self).src,
                self.tokens == old(self).tokens,
                cs == self.cs(),
                start <= self.pos,
                forall|j: int| start <= j < self.pos ==> ident_char()(cs[j]),
            decreases cs.len() - self.pos,
        {
            self.pos = self.pos + 1;
        }
        proof {
            scan_stops(cs, start as int, self.pos as int, ident_char());
        }
        let kind = keyword_or_ident(string_of(self.src.cs.as_slice(), start, self.pos));
        self.push(kind, start);
    }

    /// Move over digits (and, unless `plain`, `_` separators).
    fn skip_digits(&mut self, plain: bool)
        requires
            old(self).wf(),
        ensures
            final(self).wf(),
            final(self).src == old(self).src,
            final(self).tokens == old(self).tokens,
            final(self).pos == scan(
                old(self).cs(),
                old(self).pos as int,
                if plain {
                    digit_only()
                } else {
                    digit_or_sep()
                },
            ),
    {
        let ghost cs = self.cs();
        let ghost start = self.pos as int;
        let ghost p = if plain {
            digit_only()
        } else {
            digit_or_sep()
        };
        while self.pos < self.src.cs.len() && (is_ascii_digit(self.src.cs[self.pos]) || (!plain
            && self.src.cs[self.pos] == '_'))
            invariant
                self.wf(),
                self.src == old(self).src,
                self.tokens == old(self).tokens,
                cs == self.cs(),
                start <= self.pos,
                p == (if plain {
                    digit_only()
                } else {
                    digit_or_sep()
                }),
                forall|j: int| start <= j < self.pos ==> p(cs[j]),
            decreases cs.len() - self.pos,
        {
            self.pos = self.pos + 1;
        }
        proof {
            scan_stops(cs, start, self.pos as int, p);
        }
    }

    /// The characters from `lo` to the current position without separators.
    fn strip(&self, lo: usize) -> (r: String)
        requires
            self.wf(),
            lo <= self.pos,
        ensures
            r@ == stripped(self.cs(), lo as int, self.pos as int),
    {
        let mut out = String::new();
        for i in lo..self.pos
            invariant
                self.wf(),
                lo <= self.pos,
                out@ == stripped(self.cs(), lo as int, i as int),
        {
            if self.src.cs[i] != '_' {
                out.push(self.src.cs[i]);
            }
        }
        out
    }

    /// The number that the digits from `lo` to the current position write in base
    /// `radix`, if it fits.
    fn value(&self, lo: usize, radix: u32) -> (r: Option<i64>)
        requires
            self.wf(),
            lo <= self.pos,
            2 <= radix <= 16,
            forall|j: int| lo <= j < self.pos ==> radix_or_sep(radix as nat)(self.cs()[j]),
        ensures
            ({
                let v = number_value(stripped(self.cs(), lo as int, self.pos as int), radix as nat);
                r == (if v > i64::MAX {
                    None::<i64>
                } else {
                    Some(v as i64)
                })
            }),
    {
        let ghost cs = self.cs();
        let mut v: u64 = 0;
        let mut fits = true;
        for i in lo..self.pos
            invariant
                self.wf(),
                cs == self.cs(),
                lo <= self.pos,
                2 <= radix <= 16,
                forall|j: int| lo <= j < self.pos ==> radix_or_sep(radix as nat)(cs[j]),
                fits ==> v == number_value(stripped(cs, lo as int, i as int), radix as nat) && v
                    <= i64::MAX,
                !fits ==> number_value(stripped(cs, lo as int, i as int), radix as nat) > i64::MAX,
        {
            let c = self.src.cs[i];
            proof {
                assert(radix_or_sep(radix as nat)(cs[i as int]));
                let before = stripped(cs, lo as int, i as int);
                if c != '_' {
                    assert(before.push(c).drop_last() =~= before);
                    let w = number_value(before, radix as nat);
                    assert(w * radix >= w) by (nonlinear_arith)
                        requires
                            radix >= 2,
                    ;
                    if fits {
                        assert(w * radix <= i64::MAX * 16) by (nonlinear_arith)
                            requires
                                w <= i64::MAX,
                                radix <= 16,
                        ;
                    }
                }
            }
            if c != '_' && fits {
                let wide: u128 = (v as u128) * (radix as u128) + (value_of_digit(c) as u128);
                if wide > 0x7fff_ffff_ffff_ffff {
                    fits = false;
                } else {
                    v = wide as u64;
                }
            }
        }
        if fits {
            Some(v as i64)
        } else {
            None
        }
    }

    #[verifier::rlimit(50)]
    fn lex_number(&mut self) -> (r: Result<(), LexError>)
        requires
            old(self).wf(),
            old(self).pos < old(self).cs().len(),
            is_digit(old(self).cs()[old(self).pos as int]),
        ensures
            final(self).wf(),
            final(self).src == old(self).src,
            match number(old(self).cs(), old(self).pos as int) {
                Ok(n) => r is Ok && final(self).pos == n.1 && final(self).toks() == old(
                    self,
                ).toks().push(
                    TokenV {
                        kind: n.0,
                        span: span_of(old(self).cs(), old(self).pos as int, n.1),
                    },
                ),
                Err(e) => r matches Err(x) && x@ == e,
            },
    {
        let ghost cs = self.cs();
        let start = self.pos;
        proof {
            number_bounds(cs, start as int);
        }
        // Radix prefixes: 0x, 0b, 0o.
        let radix: u32 = if self.src.cs[self.pos] == '0' {
            match self.peek(1) {
                Some(c) => if c == 'x' || c == 'X' {
                    16
                } else if c == 'b' || c == 'B' {
                    2
                } else if c == 'o' || c == 'O' {
                    8
                } else {
                    0
                },
                None => 0,
            }
        } else {
            0
        };
        if radix != 0 {
            self.pos = self.pos + 2;
            let digits = self.pos;
            let ghost p = radix_or_sep(radix as nat);
            while self.pos < self.src.cs.len() && (self.src.cs[self.pos] == '_' || is_radix_digit(
                self.src.cs[self.pos],
                radix,
            ))
                invariant
                    self.wf(),
                    self.src == old(self).src,
                    self.tokens == old(self).tokens,
                    cs == self.cs(),
                    digits <= self.pos,
                    radix <= 16,
                    p == radix_or_sep(radix as nat),
                    forall|j: int| digits <= j < self.pos ==> p(cs[j]),
                decreases cs.len() - self.pos,
            {
                self.pos = self.pos + 1;
            }
            proof {
                scan_stops(cs, digits as int, self.pos as int, p);
            }
            if self.strip(digits).as_str().is_empty() {
                return Err(self.err(start, self.pos, "missing digits after radix prefix"));
            }
            return match self.value(digits, radix) {
                None => Err(self.err(start, self.pos, "integer literal out of range")),
                Some(v) => {
                    self.push(TokenKind::Int(v), start);
                    Ok(())
                },
            };
        }
        // Decimal integer part.
        self.skip_digits(false);
        let ghost a = self.pos as int;
        let mut is_float = false;
        // Fractional part.
        let dot = match self.cur() {
            Some(c) => c == '.',
            None => false,
        };
        let digit_next = match self.peek(1) {
            Some(c) => is_ascii_digit(c),
            None => false,
        };
        if dot && digit_next {
            is_float = true;
            self.pos = self.pos + 1;
            self.skip_digits(false);
        }
        let ghost b = self.pos as int;
        assert(b == fraction_end(cs, a));
        // Exponent part.
        let exp = match self.cur() {
            Some(c) => c == 'e' || c == 'E',
            None => false,
        };
        if exp {
            let sign = match self.peek(1) {
                Some(c) => c == '+' || c == '-',
                None => false,
            };
            let look: usize = if sign {
                2
            } else {
                1
            };
            let digit = match self.peek(look) {
                Some(c) => is_ascii_digit(c),
                None => false,
            };
            if digit {
                is_float = true;
                self.pos = self.pos + look;
                assert(exponent_digits(cs, b) == Some(self.pos as int));
                self.skip_digits(true);
            } else {
                assert(exponent_digits(cs, b) is None);
            }
        } else {
            assert(exponent_digits(cs, b) is None);
        }
        if is_float {
            let text = self.strip(start);
            self.push(TokenKind::Float(text), start);
            return Ok(());
        }
        proof {
            scan_bounds(cs, start as int, digit_or_sep());
            assert forall|j: int| start <= j < self.pos implies radix_or_sep(10)(cs[j]) by {
                assert(digit_or_sep()(cs[j]));
            }
        }
        match self.value(start, 10) {
            None => Err(self.err(start, self.pos, "integer literal out of range")),
            Some(v) => {
                self.push(TokenKind::Int(v), start);
                Ok(())
            },
        }
    }

    /// Lex a string literal with `{expr}` interpolation and escapes.
    #[verifier::rlimit(50)]
    fn lex_string(&mut self) -> (r: Result<(), LexError>)
        requires
            old(self).wf(),
            old(self).pos < old(self).cs().len(),
        ensures
            final(self).wf(),
            final(self).src == old(self).src,
            match string_rest(
                old(self).cs(),
                old(self).pos as int,
                old(self).pos + 1,
                Seq::empty(),
                Seq::empty(),
            ) {
                Ok(s) => r is Ok && final(self).pos == s.1 && final(self).toks() == old(
                    self,
                ).toks().push(
                    TokenV {
                        kind: TokenKindV::Str(s.0),
                        span: span_of(old(self).cs(), old(self).pos as int, s.1),
                    },
                ),
                Err(e) => r matches Err(x) && x@ == e,
            },
    {
        let ghost cs = self.cs();
        let start = self.pos;
        self.pos = self.pos + 1;
        let mut parts: Vec<StrPart> = Vec::new();
        let mut text = String::new();
        // Whether `text` holds any character.
        let mut pending = false;
        assert(parts_view(parts@) =~= Seq::empty());
        let ghost goal = string_rest(cs, start as int, self.pos as int, parts_view(parts@), text@);
        loop
            invariant_except_break
                goal == string_rest(
                    cs,
                    start as int,
                    self.pos as int,
                    parts_view(parts@),
                    text@,
                ),
            invariant
                self.wf(),
                self.src == old(self).src,
                self.tokens == old(self).tokens,
                cs == self.cs(),
                start < self.pos,
                pending == (text@.len() > 0),
                goal == string_rest(
                    old(self).cs(),
                    old(self).pos as int,
                    old(self).pos + 1,
                    Seq::empty(),
                    Seq::empty(),
                ),
            ensures
                goal == Ok::<(Seq<StrPartV>, int), LexErrorV>(
                    (
                        if text@.len() > 0 || parts@.len() == 0 {
                            parts_view(parts@).push(StrPartV::Lit(text@))
                        } else {
                            parts_view(parts@)
                        },
                        self.pos as int,
                    ),
                ),
            decreases cs.len() - self.pos,
        {
            if self.pos >= self.src.cs.len() {
                return Err(self.err(start, self.pos, "unterminated string literal"));
            }
            let c = self.src.cs[self.pos];
            if c == '"' {
                self.pos = self.pos + 1;
                break;
            } else if c == '\\' {
                self.pos = self.pos + 1;
                let e = match self.cur() {
                    Some(e) => e,
                    None => {
                        return Err(self.err(start, self.pos, "unterminated escape"));
                    },
                };
                match escaped(e) {
                    Some(r) => {
                        text.push(r);
                        pending = true;
                        self.pos = self.pos + 1;
                    },
                    None => {
                        return Err(self.err(self.pos, self.pos, "unknown escape sequence"));
                    },
                }
            } else if c == '{' {
                proof {
                    interpolation_bounds(cs, start as int, self.pos + 1, 1);
                }
                let ghost p0 = parts_view(parts@);
                let ghost t0 = text@;
                let ghost open_at = self.pos as int;
                if pending {
                    let lit = StrPart::Lit(text);
                    parts.push(lit);
                    assert(parts_view(parts@) =~= p0.push(lit@));
                    text = String::new();
                    pending = false;
                } else {
                    assert(text@ =~= Seq::empty());
                }
                let ghost p1 = parts_view(parts@);
                assert(p1 == flushed(p0, t0));
                let expr = self.read_interpolation(start)?;
                let part = StrPart::Interp(expr);
                parts.push(part);
                assert(parts_view(parts@) =~= p1.push(part@));
            } else {
                text.push(c);
                pending = true;
                self.pos = self.pos + 1;
            }
        }
        if pending || parts.len() == 0 {
            let ghost p0 = parts_view(parts@);
            let lit = StrPart::Lit(text);
            parts.push(lit);
            assert(parts_view(parts@) =~= p0.push(lit@));
        }
        self.push(TokenKind::Str(parts), start);
        Ok(())
    }

    /// Read the raw source of an interpolated `{expr}`, balancing braces and
    /// skipping over nested string literals so their braces are not counted.
    fn read_interpolation(&mut self, str_start: usize) -> (r: Result<String, LexError>)
        requires
            old(self).wf(),
            old(self).pos < old(self).cs().len(),
            str_start <= old(self).cs().len(),
        ensures
            final(self).wf(),
            final(self).src == old(self).src,
            final(self).tokens == old(self).tokens,
            match interpolation_end(old(self).cs(), str_start as int, old(self).pos + 1, 1) {
                Ok(j) => r matches Ok(s) && s@ == old(self).cs().subrange(old(self).pos + 1, j)
                    && final(self).pos == j + 1,
                Err(e) => r matches Err(x) && x@ == e,
            },
    {
        let ghost cs = self.cs();
        self.pos = self.pos + 1;
        let expr_start = self.pos;
        let mut depth: usize = 1;
        let ghost goal = interpolation_end(cs, str_start as int, self.pos as int, 1);
        while self.pos < self.src.cs.len()
            invariant
                self.wf(),
                self.src == old(self).src,
                self.tokens == old(self).tokens,
                cs == self.cs(),
                cs == old(self).cs(),
                str_start <= cs.len(),
                expr_start == old(self).pos + 1,
                expr_start <= self.pos,
                1 <= depth <= self.pos,
                goal == interpolation_end(cs, str_start as int, self.pos as int, depth as nat),
                goal == interpolation_end(cs, str_start as int, old(self).pos + 1, 1),
            decreases cs.len() - self.pos,
        {
            let c = self.src.cs[self.pos];
            if c == '{' {
                depth = depth + 1;
                self.pos = self.pos + 1;
            } else if c == '}' {
                depth = depth - 1;
                if depth == 0 {
                    let raw = string_of(self.src.cs.as_slice(), expr_start, self.pos);
                    self.pos = self.pos + 1;
                    return Ok(raw);
                }
                self.pos = self.pos + 1;
            } else if c == '"' {
                proof {
                    nested_bounds(cs, self.pos as int, self.pos + 1);
                }
                self.skip_nested_string()?;
            } else {
                self.pos = self.pos + 1;
            }
        }
        Err(self.err(str_start, self.pos, "unterminated interpolation"))
    }

    /// Skip a nested string literal while inside an interpolation, honoring
    /// escapes so a `\"` does not end it prematurely.
    fn skip_nested_string(&mut self) -> (r: Result<(), LexError>)
        requires
            old(self).wf(),
            old(self).pos < old(self).cs().len(),
        ensures
            final(self).wf(),
            final(self).src == old(self).src,
            final(self).tokens == old(self).tokens,
            match nested_end(old(self).cs(), old(self).pos as int, old(self).pos + 1) {
                Ok(j) => r is Ok && final(self).pos == j,
                Err(e) => r matches Err(x) && x@ == e,
            },
    {
        let ghost cs = self.cs();
        let n = self.src.cs.len();
        let start = self.pos;
        proof {
            byte_off_grows(cs, 0, n as int);
        }
        // One past the end when a `\` is the last character.
        let mut i: usize = start + 1;
        while i < n
            invariant
                self.wf(),
                *self == *old(self),
                cs == self.cs(),
                n == cs.len(),
                n < usize::MAX,
                start == old(self).pos,
                start < i <= n + 1,
                nested_end(cs, start as int, i as int) == nested_end(
                    cs,
                    start as int,
                    start + 1,
                ),
            decreases n + 1 - i,
        {
            let c = self.src.cs[i];
            if c == '\\' {
                i = i + 2;
            } else if c == '"' {
                self.pos = i + 1;
                return Ok(());
            } else {
                i = i + 1;
            }
        }
        Err(self.err(start, i, "unterminated nested string"))
    }

    fn lex_symbol(&mut self) -> (r: Result<(), LexError>)
        requires
            old(self).wf(),
            old(self).pos < old(self).cs().len(),
        ensures
            final(self).wf(),
            final(self).src == old(self).src,
            match symbol_kind(
                old(self).cs()[old(self).pos as int],
                at(old(self).cs(), old(self).pos + 1),
            ) {
                Some(s) => r is Ok && final(self).pos == old(self).pos + s.1 && final(self).toks()
                    == old(self).toks().push(
                    TokenV {
                        kind: s.0,
                        span: span_of(
                            old(self).cs(),
                            old(self).pos as int,
                            old(self).pos + s.1,
                        ),
                    },
                ),
                None => r matches Err(x) && x@ == error_at(
                    old(self).cs(),
                    old(self).pos as int,
                    old(self).pos as int,
                    "unexpected character"@,
                ),
            },
    {
        let start = self.pos;
        let c = self.src.cs[self.pos];
        let two = self.peek(1);
        match symbol_at(c, two) {
            Some((kind, len)) => {
                self.pos = self.pos + len;
                self.push(kind, start);
                Ok(())
            },
            None => Err(self.err(start, start, "unexpected character")),
        }
    }
}

fn escaped(c: char) -> (r: Option<char>)
    ensures
        r == escape(c),
{
    if c == 'n' {
        Some('\n')
    } else if c == 't' {
        Some('\t')
    } else if c == 'r' {
        Some('\r')
    } else if c == '0' {
        Some('\0')
    } else if c == '\\' || c == '"' || c == '{' || c == '}' {
        Some(c)
    } else {
        None
    }
}

} // verus!
