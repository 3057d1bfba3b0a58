//! What tokens stand for: every token stands on its spelling in the text, and the text of
//! a literal gives its value.

use vstd::prelude::*;
use crate::lexer::{at, continues_ident, digit_value, escape, exponent_digits, flushed, fraction_at, fraction_end, ident_char, int_end, interpolation_end, is_digit, lexed, newline_added, not_newline, number, number_value, radix_of, radix_or_sep, scan, scan_bounds, span_of, starts_ident, string_rest, stripped, token_at, token_at_bounds, tokens_from, trivia, trivia_bounds, comment_end, comment_end_bounds, digit_only, digit_or_sep};
use crate::token::{symbol_kind, word_kind, StrPartV, TokenKindV, TokenV};

verus! {

// ---- spellings ----

/// The spelling of a keyword.
pub open spec fn keyword_text(k: TokenKindV) -> Option<Seq<char>> {
    match k {
        TokenKindV::Type => Some("type"@),
        TokenKindV::Fun => Some("fun"@),
        TokenKindV::Let => Some("let"@),
        TokenKindV::Const => Some("const"@),
        TokenKindV::If => Some("if"@),
        TokenKindV::Else => Some("else"@),
        TokenKindV::Match => Some("match"@),
        TokenKindV::For => Some("for"@),
        TokenKindV::While => Some("while"@),
        TokenKindV::In => Some("in"@),
        TokenKindV::Return => Some("return"@),
        TokenKindV::Break => Some("break"@),
        TokenKindV::Continue => Some("continue"@),
        TokenKindV::Import => Some("import"@),
        TokenKindV::True => Some("true"@),
        TokenKindV::False => Some("false"@),
        TokenKindV::Null => Some("null"@),
        TokenKindV::SelfLower => Some("self"@),
        TokenKindV::SelfUpper => Some("Self"@),
        _ => None,
    }
}

/// The spelling of an operator or punctuation mark.
pub open spec fn symbol_text(k: TokenKindV) -> Option<Seq<char>> {
    match k {
        TokenKindV::FatArrow => Some("=>"@),
        TokenKindV::EqEq => Some("=="@),
        TokenKindV::NotEq => Some("!="@),
        TokenKindV::LtEq => Some("<="@),
        TokenKindV::GtEq => Some(">="@),
        TokenKindV::AmpAmp => Some("&&"@),
        TokenKindV::PipePipe => Some("||"@),
        TokenKindV::Shl => Some("<<"@),
        TokenKindV::Shr => Some(">>"@),
        TokenKindV::PlusEq => Some("+="@),
        TokenKindV::MinusEq => Some("-="@),
        TokenKindV::StarEq => Some("*="@),
        TokenKindV::SlashEq => Some("/="@),
        TokenKindV::PercentEq => Some("%="@),
        TokenKindV::Arrow => Some("->"@),
        TokenKindV::Plus => Some("+"@),
        TokenKindV::Minus => Some("-"@),
        TokenKindV::Star => Some("*"@),
        TokenKindV::Slash => Some("/"@),
        TokenKindV::Percent => Some("%"@),
        TokenKindV::Eq => Some("="@),
        TokenKindV::Lt => Some("<"@),
        TokenKindV::Gt => Some(">"@),
        TokenKindV::Bang => Some("!"@),
        TokenKindV::Amp => Some("&"@),
        TokenKindV::Pipe => Some("|"@),
        TokenKindV::Caret => Some("^"@),
        TokenKindV::Tilde => Some("~"@),
        TokenKindV::Question => Some("?"@),
        TokenKindV::Dot => Some("."@),
        TokenKindV::Comma => Some(","@),
        TokenKindV::Colon => Some(":"@),
        TokenKindV::LParen => Some("("@),
        TokenKindV::RParen => Some(")"@),
        TokenKindV::LBracket => Some("["@),
        TokenKindV::RBracket => Some("]"@),
        TokenKindV::LBrace => Some("{"@),
        TokenKindV::RBrace => Some("}"@),
        _ => None,
    }
}

/// The one spelling of a token that has one.
pub open spec fn spelling(k: TokenKindV) -> Option<Seq<char>> {
    match k {
        TokenKindV::Ident(s) => Some(s),
        TokenKindV::Newline => Some("\n"@),
        TokenKindV::Eof => Some(""@),
        _ => match keyword_text(k) {
            Some(w) => Some(w),
            None => symbol_text(k),
        },
    }
}

/// Whether a token's spelling is not up to the writer.
pub open spec fn is_reserved(k: TokenKindV) -> bool {
    keyword_text(k) is Some || symbol_text(k) is Some
}

/// A text without the `_` that separate digits.
pub open spec fn joined_digits(s: Seq<char>) -> Seq<char>
    decreases s.len(),
{
    if s.len() == 0 {
        s
    } else if s.last() == '_' {
        joined_digits(s.drop_last())
    } else {
        joined_digits(s.drop_last()).push(s.last())
    }
}

/// What a digit is worth.
pub open spec fn worth(c: char) -> int {
    if 'a' <= c <= 'f' {
        10 + (c as int - 'a' as int)
    } else if 'A' <= c <= 'F' {
        10 + (c as int - 'A' as int)
    } else {
        c as int - '0' as int
    }
}

/// What digits are worth together, the first one the most.
pub open spec fn total(ds: Seq<char>, radix: nat) -> int
    decreases ds.len(),
{
    if ds.len() == 0 {
        0
    } else {
        worth(ds[0]) * vstd::arithmetic::power::pow(radix as int, (ds.len() - 1) as nat) + total(
            ds.drop_first(),
            radix,
        )
    }
}

/// Whether the text of an integer literal is worth `n`: decimal, or behind `0x`, `0b` or
/// `0o` in the base that the letter announces.
pub open spec fn writes_number(s: Seq<char>, n: int) -> bool {
    if s.len() >= 2 && s[0] == '0' && (s[1] == 'x' || s[1] == 'X') {
        n == total(joined_digits(s.skip(2)), 16)
    } else if s.len() >= 2 && s[0] == '0' && (s[1] == 'b' || s[1] == 'B') {
        n == total(joined_digits(s.skip(2)), 2)
    } else if s.len() >= 2 && s[0] == '0' && (s[1] == 'o' || s[1] == 'O') {
        n == total(joined_digits(s.skip(2)), 8)
    } else {
        n == total(joined_digits(s), 10)
    }
}

/// Whether a token of the given kind may stand on the characters from `lo` to `hi`: they
/// are its spelling, and no other token is spelled so; it takes as much as it can; and a
/// number is what its digits are worth.
pub open spec fn fits(k: TokenKindV, cs: Seq<char>, lo: int, hi: int) -> bool {
    let s = cs.subrange(lo, hi);
    &&& spelling(k) matches Some(w) ==> s == w
    &&& forall|r: TokenKindV| #[trigger] is_reserved(r) && spelling(r) == Some(s) ==> k == r
    &&& (k is Ident || keyword_text(k) is Some) ==> s.len() > 0 && !is_digit(s[0]) && (forall|i: int|
        0 <= i < s.len() ==> continues_ident(#[trigger] s[i])) && (hi < cs.len()
        ==> !continues_ident(cs[hi]))
    &&& symbol_text(k) is Some && hi < cs.len() ==> !(exists|r: TokenKindV| #[trigger]
        symbol_text(r) == Some(cs.subrange(lo, hi + 1)))
    &&& k matches TokenKindV::Int(n) ==> s.len() > 0 && is_digit(s[0]) && writes_number(s, n as int)
    &&& k matches TokenKindV::Float(d) ==> s.len() > 0 && is_digit(s[0]) && d == joined_digits(s)
        && (d.contains('.') || d.contains('e') || d.contains('E'))
    &&& k is Str ==> s.len() >= 2 && s[0] == '"' && s.last() == '"'
}

/// Whether a token stands on characters that fit it.
pub open spec fn stands_fitting(t: TokenV, cs: Seq<char>) -> bool {
    exists|lo: int, hi: int|
        0 <= lo <= hi <= cs.len() && t.span == #[trigger] span_of(cs, lo, hi) && fits(
            t.kind,
            cs,
            lo,
            hi,
        )
}

/// Every token of a text stands on its own spelling, is the only token spelled so, and has
/// the value that its digits write.
pub proof fn tokens_stand_on_their_spelling(cs: Seq<char>, i: int)
    requires
        lexed(cs) matches Ok(toks) && 0 <= i < toks.len(),
    ensures
        lexed(cs) matches Ok(toks) && stands_fitting(toks[i], cs),
{
    tokens_fit(cs, 0, Seq::empty());
}

/// Spellings tell tokens apart.
pub proof fn spellings_tell_tokens_apart(a: TokenKindV, b: TokenKindV)
    requires
        is_reserved(a),
        is_reserved(b),
        spelling(a) == spelling(b),
    ensures
        a == b,
{
    reveal_texts();
    let s = spelling(a)->0;
    let t = spelling(b)->0;
    assert(s.len() == t.len());
    assert(s.len() > 0 ==> s[0] == t[0]);
    assert(s.len() > 1 ==> s[1] == t[1]);
    assert(s.len() > 2 ==> s[2] == t[2]);
    assert(s.len() > 3 ==> s[3] == t[3]);
}

/// Two tokens of one text that are spelled the same are the same token.
pub proof fn same_text_same_token(cs: Seq<char>, a: TokenKindV, b: TokenKindV, i: int, j: int, k: int, l: int)
    requires
        fits(a, cs, i, j),
        fits(b, cs, k, l),
        cs.subrange(i, j) == cs.subrange(k, l),
        is_reserved(a),
    ensures
        a == b,
{
    assert(spelling(a) == Some(cs.subrange(i, j)));
}

proof fn reveal_texts()
    ensures
        "type"@.len() == 4 && "type"@[0] == 't' && "type"@[1] == 'y' && "type"@[2] == 'p' && "type"@[3] == 'e',
        "fun"@.len() == 3 && "fun"@[0] == 'f' && "fun"@[1] == 'u' && "fun"@[2] == 'n',
        "let"@.len() == 3 && "let"@[0] == 'l' && "let"@[1] == 'e' && "let"@[2] == 't',
        "const"@.len() == 5 && "const"@[0] == 'c' && "const"@[1] == 'o' && "const"@[2] == 'n' && "const"@[3] == 's' && "const"@[4] == 't',
        "if"@.len() == 2 && "if"@[0] == 'i' && "if"@[1] == 'f',
        "else"@.len() == 4 && "else"@[0] == 'e' && "else"@[1] == 'l' && "else"@[2] == 's' && "else"@[3] == 'e',
        "match"@.len() == 5 && "match"@[0] == 'm' && "match"@[1] == 'a' && "match"@[2] == 't' && "match"@[3] == 'c' && "match"@[4] == 'h',
        "for"@.len() == 3 && "for"@[0] == 'f' && "for"@[1] == 'o' && "for"@[2] == 'r',
        "while"@.len() == 5 && "while"@[0] == 'w' && "while"@[1] == 'h' && "while"@[2] == 'i' && "while"@[3] == 'l' && "while"@[4] == 'e',
        "in"@.len() == 2 && "in"@[0] == 'i' && "in"@[1] == 'n',
        "return"@.len() == 6 && "return"@[0] == 'r' && "return"@[1] == 'e' && "return"@[2] == 't' && "return"@[3] == 'u' && "return"@[4] == 'r' && "return"@[5] == 'n',
        "break"@.len() == 5 && "break"@[0] == 'b' && "break"@[1] == 'r' && "break"@[2] == 'e' && "break"@[3] == 'a' && "break"@[4] == 'k',
        "continue"@.len() == 8 && "continue"@[0] == 'c' && "continue"@[1] == 'o' && "continue"@[2] == 'n' && "continue"@[3] == 't' && "continue"@[4] == 'i' && "continue"@[5] == 'n' && "continue"@[6] == 'u' && "continue"@[7] == 'e',
        "import"@.len() == 6 && "import"@[0] == 'i' && "import"@[1] == 'm' && "import"@[2] == 'p' && "import"@[3] == 'o' && "import"@[4] == 'r' && "import"@[5] == 't',
        "true"@.len() == 4 && "true"@[0] == 't' && "true"@[1] == 'r' && "true"@[2] == 'u' && "true"@[3] == 'e',
        "false"@.len() == 5 && "false"@[0] == 'f' && "false"@[1] == 'a' && "false"@[2] == 'l' && "false"@[3] == 's' && "false"@[4] == 'e',
        "null"@.len() == 4 && "null"@[0] == 'n' && "null"@[1] == 'u' && "null"@[2] == 'l' && "null"@[3] == 'l',
        "self"@.len() == 4 && "self"@[0] == 's' && "self"@[1] == 'e' && "self"@[2] == 'l' && "self"@[3] == 'f',
        "Self"@.len() == 4 && "Self"@[0] == 'S' && "Self"@[1] == 'e' && "Self"@[2] == 'l' && "Self"@[3] == 'f',
        "=>"@.len() == 2 && "=>"@[0] == '=' && "=>"@[1] == '>',
        "=="@.len() == 2 && "=="@[0] == '=' && "=="@[1] == '=',
        "!="@.len() == 2 && "!="@[0] == '!' && "!="@[1] == '=',
        "<="@.len() == 2 && "<="@[0] == '<' && "<="@[1] == '=',
        ">="@.len() == 2 && ">="@[0] == '>' && ">="@[1] == '=',
        "&&"@.len() == 2 && "&&"@[0] == '&' && "&&"@[1] == '&',
        "||"@.len() == 2 && "||"@[0] == '|' && "||"@[1] == '|',
        "<<"@.len() == 2 && "<<"@[0] == '<' && "<<"@[1] == '<',
        ">>"@.len() == 2 && ">>"@[0] == '>' && ">>"@[1] == '>',
        "+="@.len() == 2 && "+="@[0] == '+' && "+="@[1] == '=',
        "-="@.len() == 2 && "-="@[0] == '-' && "-="@[1] == '=',
        "*="@.len() == 2 && "*="@[0] == '*' && "*="@[1] == '=',
        "/="@.len() == 2 && "/="@[0] == '/' && "/="@[1] == '=',
        "%="@.len() == 2 && "%="@[0] == '%' && "%="@[1] == '=',
        "->"@.len() == 2 && "->"@[0] == '-' && "->"@[1] == '>',
        "+"@.len() == 1 && "+"@[0] == '+',
        "-"@.len() == 1 && "-"@[0] == '-',
        "*"@.len() == 1 && "*"@[0] == '*',
        "/"@.len() == 1 && "/"@[0] == '/',
        "%"@.len() == 1 && "%"@[0] == '%',
        "="@.len() == 1 && "="@[0] == '=',
        "<"@.len() == 1 && "<"@[0] == '<',
        ">"@.len() == 1 && ">"@[0] == '>',
        "!"@.len() == 1 && "!"@[0] == '!',
        "&"@.len() == 1 && "&"@[0] == '&',
        "|"@.len() == 1 && "|"@[0] == '|',
        "^"@.len() == 1 && "^"@[0] == '^',
        "~"@.len() == 1 && "~"@[0] == '~',
        "?"@.len() == 1 && "?"@[0] == '?',
        "."@.len() == 1 && "."@[0] == '.',
        ","@.len() == 1 && ","@[0] == ',',
        ":"@.len() == 1 && ":"@[0] == ':',
        "("@.len() == 1 && "("@[0] == '(',
        ")"@.len() == 1 && ")"@[0] == ')',
        "["@.len() == 1 && "["@[0] == '[',
        "]"@.len() == 1 && "]"@[0] == ']',
        "{"@.len() == 1 && "{"@[0] == '{',
        "}"@.len() == 1 && "}"@[0] == '}',
{
    reveal_strlit("type");
    reveal_strlit("fun");
    reveal_strlit("let");
    reveal_strlit("const");
    reveal_strlit("if");
    reveal_strlit("else");
    reveal_strlit("match");
    reveal_strlit("for");
    reveal_strlit("while");
    reveal_strlit("in");
    reveal_strlit("return");
    reveal_strlit("break");
    reveal_strlit("continue");
    reveal_strlit("import");
    reveal_strlit("true");
    reveal_strlit("false");
    reveal_strlit("null");
    reveal_strlit("self");
    reveal_strlit("Self");
    reveal_strlit("=>");
    reveal_strlit("==");
    reveal_strlit("!=");
    reveal_strlit("<=");
    reveal_strlit(">=");
    reveal_strlit("&&");
    reveal_strlit("||");
    reveal_strlit("<<");
    reveal_strlit(">>");
    reveal_strlit("+=");
    reveal_strlit("-=");
    reveal_strlit("*=");
    reveal_strlit("/=");
    reveal_strlit("%=");
    reveal_strlit("->");
    reveal_strlit("+");
    reveal_strlit("-");
    reveal_strlit("*");
    reveal_strlit("/");
    reveal_strlit("%");
    reveal_strlit("=");
    reveal_strlit("<");
    reveal_strlit(">");
    reveal_strlit("!");
    reveal_strlit("&");
    reveal_strlit("|");
    reveal_strlit("^");
    reveal_strlit("~");
    reveal_strlit("?");
    reveal_strlit(".");
    reveal_strlit(",");
    reveal_strlit(":");
    reveal_strlit("(");
    reveal_strlit(")");
    reveal_strlit("[");
    reveal_strlit("]");
    reveal_strlit("{");
    reveal_strlit("}");
}

proof fn symbols_fit(cs: Seq<char>, i: int)
    requires
        0 <= i < cs.len(),
        symbol_kind(cs[i], at(cs, i + 1)) is Some,
        !starts_ident(cs[i]),
        !is_digit(cs[i]),
    ensures
        ({
            let (k, n) = symbol_kind(cs[i], at(cs, i + 1))->0;
            i + n <= cs.len() && fits(k, cs, i, i + n)
        }),
{
    reveal_texts();
    let (k, n) = symbol_kind(cs[i], at(cs, i + 1))->0;
    assert(n == 1 || n == 2);
    assert(n == 2 ==> i + 1 < cs.len());
    let s = cs.subrange(i, i + n);
    assert(s.len() == n);
    assert(s[0] == cs[i]);
    assert(n == 2 ==> s[1] == cs[i + 1]);
    assert(symbol_text(k) is Some);
    let w = symbol_text(k)->0;
    assert(w.len() == n && w[0] == s[0] && (n == 2 ==> w[1] == s[1]));
    assert(s =~= w);
    assert forall|r: TokenKindV| #[trigger] is_reserved(r) && spelling(r) == Some(s) implies k
        == r by {
        spellings_tell_tokens_apart(k, r);
    }
    if i + n < cs.len() {
        let longer = cs.subrange(i, i + n + 1);
        assert forall|r: TokenKindV| #[trigger] symbol_text(r) != Some(longer) by {
            assert(longer.len() == n + 1);
            assert(longer[0] == cs[i]);
            assert(longer[1] == cs[i + 1]);
            if symbol_text(r) == Some(longer) {
                assert(n == 1);
                assert(at(cs, i + 1) == Some(cs[i + 1]));
            }
        }
    }
}

proof fn words_fit(cs: Seq<char>, i: int)
    requires
        0 <= i < cs.len(),
        starts_ident(cs[i]),
    ensures
        ({
            let j = scan(cs, i, ident_char());
            i <= j <= cs.len() && fits(word_kind(cs.subrange(i, j)), cs, i, j)
        }),
{
    reveal_texts();
    let p = ident_char();
    scan_bounds(cs, i, p);
    scan_ends(cs, i, p);
    let j = scan(cs, i, p);
    let s = cs.subrange(i, j);
    let k = word_kind(s);
    assert(s[0] == cs[i]);
    assert(p(cs[i]));
    assert(spelling(k) == Some(s));
    assert forall|r: TokenKindV| #[trigger] is_reserved(r) && spelling(r) == Some(s) implies k
        == r by {
        if symbol_text(r) is Some {
            assert(symbol_text(r)->0[0] == s[0]);
        } else {
            word_is_keyword(r);
        }
    }
    assert forall|m: int| 0 <= m < s.len() implies continues_ident(#[trigger] s[m]) by {
        assert(p(cs[i + m]));
    }
}

proof fn word_is_keyword(r: TokenKindV)
    requires
        keyword_text(r) is Some,
    ensures
        word_kind(keyword_text(r)->0) == r,
{
    reveal_texts();
    assert("fun"@ != "type"@) by {
        assert("fun"@.len() != "type"@.len());
    }
    assert("let"@ != "type"@) by {
        assert("let"@.len() != "type"@.len());
    }
    assert("let"@ != "fun"@) by {
        assert("let"@[0] != "fun"@[0]);
    }
    assert("const"@ != "type"@) by {
        assert("const"@.len() != "type"@.len());
    }
    assert("const"@ != "fun"@) by {
        assert("const"@.len() != "fun"@.len());
    }
    assert("const"@ != "let"@) by {
        assert("const"@.len() != "let"@.len());
    }
    assert("if"@ != "type"@) by {
        assert("if"@.len() != "type"@.len());
    }
    assert("if"@ != "fun"@) by {
        assert("if"@.len() != "fun"@.len());
    }
    assert("if"@ != "let"@) by {
        assert("if"@.len() != "let"@.len());
    }
    assert("if"@ != "const"@) by {
        assert("if"@.len() != "const"@.len());
    }
    assert("else"@ != "type"@) by {
        assert("else"@[0] != "type"@[0]);
    }
    assert("else"@ != "fun"@) by {
        assert("else"@.len() != "fun"@.len());
    }
    assert("else"@ != "let"@) by {
        assert("else"@.len() != "let"@.len());
    }
    assert("else"@ != "const"@) by {
        assert("else"@.len() != "const"@.len());
    }
    assert("else"@ != "if"@) by {
        assert("else"@.len() != "if"@.len());
    }
    assert("match"@ != "type"@) by {
        assert("match"@.len() != "type"@.len());
    }
    assert("match"@ != "fun"@) by {
        assert("match"@.len() != "fun"@.len());
    }
    assert("match"@ != "let"@) by {
        assert("match"@.len() != "let"@.len());
    }
    assert("match"@ != "const"@) by {
        assert("match"@[0] != "const"@[0]);
    }
    assert("match"@ != "if"@) by {
        assert("match"@.len() != "if"@.len());
    }
    assert("match"@ != "else"@) by {
        assert("match"@.len() != "else"@.len());
    }
    assert("for"@ != "type"@) by {
        assert("for"@.len() != "type"@.len());
    }
    assert("for"@ != "fun"@) by {
        assert("for"@[1] != "fun"@[1]);
    }
    assert("for"@ != "let"@) by {
        assert("for"@[0] != "let"@[0]);
    }
    assert("for"@ != "const"@) by {
        assert("for"@.len() != "const"@.len());
    }
    assert("for"@ != "if"@) by {
        assert("for"@.len() != "if"@.len());
    }
    assert("for"@ != "else"@) by {
        assert("for"@.len() != "else"@.len());
    }
    assert("for"@ != "match"@) by {
        assert("for"@.len() != "match"@.len());
    }
    assert("while"@ != "type"@) by {
        assert("while"@.len() != "type"@.len());
    }
    assert("while"@ != "fun"@) by {
        assert("while"@.len() != "fun"@.len());
    }
    assert("while"@ != "let"@) by {
        assert("while"@.len() != "let"@.len());
    }
    assert("while"@ != "const"@) by {
        assert("while"@[0] != "const"@[0]);
    }
    assert("while"@ != "if"@) by {
        assert("while"@.len() != "if"@.len());
    }
    assert("while"@ != "else"@) by {
        assert("while"@.len() != "else"@.len());
    }
    assert("while"@ != "match"@) by {
        assert("while"@[0] != "match"@[0]);
    }
    assert("while"@ != "for"@) by {
        assert("while"@.len() != "for"@.len());
    }
    assert("in"@ != "type"@) by {
        assert("in"@.len() != "type"@.len());
    }
    assert("in"@ != "fun"@) by {
        assert("in"@.len() != "fun"@.len());
    }
    assert("in"@ != "let"@) by {
        assert("in"@.len() != "let"@.len());
    }
    assert("in"@ != "const"@) by {
        assert("in"@.len() != "const"@.len());
    }
    assert("in"@ != "if"@) by {
        assert("in"@[1] != "if"@[1]);
    }
    assert("in"@ != "else"@) by {
        assert("in"@.len() != "else"@.len());
    }
    assert("in"@ != "match"@) by {
        assert("in"@.len() != "match"@.len());
    }
    assert("in"@ != "for"@) by {
        assert("in"@.len() != "for"@.len());
    }
    assert("in"@ != "while"@) by {
        assert("in"@.len() != "while"@.len());
    }
    assert("return"@ != "type"@) by {
        assert("return"@.len() != "type"@.len());
    }
    assert("return"@ != "fun"@) by {
        assert("return"@.len() != "fun"@.len());
    }
    assert("return"@ != "let"@) by {
        assert("return"@.len() != "let"@.len());
    }
    assert("return"@ != "const"@) by {
        assert("return"@.len() != "const"@.len());
    }
    assert("return"@ != "if"@) by {
        assert("return"@.len() != "if"@.len());
    }
    assert("return"@ != "else"@) by {
        assert("return"@.len() != "else"@.len());
    }
    assert("return"@ != "match"@) by {
        assert("return"@.len() != "match"@.len());
    }
    assert("return"@ != "for"@) by {
        assert("return"@.len() != "for"@.len());
    }
    assert("return"@ != "while"@) by {
        assert("return"@.len() != "while"@.len());
    }
    assert("return"@ != "in"@) by {
        assert("return"@.len() != "in"@.len());
    }
    assert("break"@ != "type"@) by {
        assert("break"@.len() != "type"@.len());
    }
    assert("break"@ != "fun"@) by {
        assert("break"@.len() != "fun"@.len());
    }
    assert("break"@ != "let"@) by {
        assert("break"@.len() != "let"@.len());
    }
    assert("break"@ != "const"@) by {
        assert("break"@[0] != "const"@[0]);
    }
    assert("break"@ != "if"@) by {
        assert("break"@.len() != "if"@.len());
    }
    assert("break"@ != "else"@) by {
        assert("break"@.len() != "else"@.len());
    }
    assert("break"@ != "match"@) by {
        assert("break"@[0] != "match"@[0]);
    }
    assert("break"@ != "for"@) by {
        assert("break"@.len() != "for"@.len());
    }
    assert("break"@ != "while"@) by {
        assert("break"@[0] != "while"@[0]);
    }
    assert("break"@ != "in"@) by {
        assert("break"@.len() != "in"@.len());
    }
    assert("break"@ != "return"@) by {
        assert("break"@.len() != "return"@.len());
    }
    assert("continue"@ != "type"@) by {
        assert("continue"@.len() != "type"@.len());
    }
    assert("continue"@ != "fun"@) by {
        assert("continue"@.len() != "fun"@.len());
    }
    assert("continue"@ != "let"@) by {
        assert("continue"@.len() != "let"@.len());
    }
    assert("continue"@ != "const"@) by {
        assert("continue"@.len() != "const"@.len());
    }
    assert("continue"@ != "if"@) by {
        assert("continue"@.len() != "if"@.len());
    }
    assert("continue"@ != "else"@) by {
        assert("continue"@.len() != "else"@.len());
    }
    assert("continue"@ != "match"@) by {
        assert("continue"@.len() != "match"@.len());
    }
    assert("continue"@ != "for"@) by {
        assert("continue"@.len() != "for"@.len());
    }
    assert("continue"@ != "while"@) by {
        assert("continue"@.len() != "while"@.len());
    }
    assert("continue"@ != "in"@) by {
        assert("continue"@.len() != "in"@.len());
    }
    assert("continue"@ != "return"@) by {
        assert("continue"@.len() != "return"@.len());
    }
    assert("continue"@ != "break"@) by {
        assert("continue"@.len() != "break"@.len());
    }
    assert("import"@ != "type"@) by {
        assert("import"@.len() != "type"@.len());
    }
    assert("import"@ != "fun"@) by {
        assert("import"@.len() != "fun"@.len());
    }
    assert("import"@ != "let"@) by {
        assert("import"@.len() != "let"@.len());
    }
    assert("import"@ != "const"@) by {
        assert("import"@.len() != "const"@.len());
    }
    assert("import"@ != "if"@) by {
        assert("import"@.len() != "if"@.len());
    }
    assert("import"@ != "else"@) by {
        assert("import"@.len() != "else"@.len());
    }
    assert("import"@ != "match"@) by {
        assert("import"@.len() != "match"@.len());
    }
    assert("import"@ != "for"@) by {
        assert("import"@.len() != "for"@.len());
    }
    assert("import"@ != "while"@) by {
        assert("import"@.len() != "while"@.len());
    }
    assert("import"@ != "in"@) by {
        assert("import"@.len() != "in"@.len());
    }
    assert("import"@ != "return"@) by {
        assert("import"@[0] != "return"@[0]);
    }
    assert("import"@ != "break"@) by {
        assert("import"@.len() != "break"@.len());
    }
    assert("import"@ != "continue"@) by {
        assert("import"@.len() != "continue"@.len());
    }
    assert("true"@ != "type"@) by {
        assert("true"@[1] != "type"@[1]);
    }
    assert("true"@ != "fun"@) by {
        assert("true"@.len() != "fun"@.len());
    }
    assert("true"@ != "let"@) by {
        assert("true"@.len() != "let"@.len());
    }
    assert("true"@ != "const"@) by {
        assert("true"@.len() != "const"@.len());
    }
    assert("true"@ != "if"@) by {
        assert("true"@.len() != "if"@.len());
    }
    assert("true"@ != "else"@) by {
        assert("true"@[0] != "else"@[0]);
    }
    assert("true"@ != "match"@) by {
        assert("true"@.len() != "match"@.len());
    }
    assert("true"@ != "for"@) by {
        assert("true"@.len() != "for"@.len());
    }
    assert("true"@ != "while"@) by {
        assert("true"@.len() != "while"@.len());
    }
    assert("true"@ != "in"@) by {
        assert("true"@.len() != "in"@.len());
    }
    assert("true"@ != "return"@) by {
        assert("true"@.len() != "return"@.len());
    }
    assert("true"@ != "break"@) by {
        assert("true"@.len() != "break"@.len());
    }
    assert("true"@ != "continue"@) by {
        assert("true"@.len() != "continue"@.len());
    }
    assert("true"@ != "import"@) by {
        assert("true"@.len() != "import"@.len());
    }
    assert("false"@ != "type"@) by {
        assert("false"@.len() != "type"@.len());
    }
    assert("false"@ != "fun"@) by {
        assert("false"@.len() != "fun"@.len());
    }
    assert("false"@ != "let"@) by {
        assert("false"@.len() != "let"@.len());
    }
    assert("false"@ != "const"@) by {
        assert("false"@[0] != "const"@[0]);
    }
    assert("false"@ != "if"@) by {
        assert("false"@.len() != "if"@.len());
    }
    assert("false"@ != "else"@) by {
        assert("false"@.len() != "else"@.len());
    }
    assert("false"@ != "match"@) by {
        assert("false"@[0] != "match"@[0]);
    }
    assert("false"@ != "for"@) by {
        assert("false"@.len() != "for"@.len());
    }
    assert("false"@ != "while"@) by {
        assert("false"@[0] != "while"@[0]);
    }
    assert("false"@ != "in"@) by {
        assert("false"@.len() != "in"@.len());
    }
    assert("false"@ != "return"@) by {
        assert("false"@.len() != "return"@.len());
    }
    assert("false"@ != "break"@) by {
        assert("false"@[0] != "break"@[0]);
    }
    assert("false"@ != "continue"@) by {
        assert("false"@.len() != "continue"@.len());
    }
    assert("false"@ != "import"@) by {
        assert("false"@.len() != "import"@.len());
    }
    assert("false"@ != "true"@) by {
        assert("false"@.len() != "true"@.len());
    }
    assert("null"@ != "type"@) by {
        assert("null"@[0] != "type"@[0]);
    }
    assert("null"@ != "fun"@) by {
        assert("null"@.len() != "fun"@.len());
    }
    assert("null"@ != "let"@) by {
        assert("null"@.len() != "let"@.len());
    }
    assert("null"@ != "const"@) by {
        assert("null"@.len() != "const"@.len());
    }
    assert("null"@ != "if"@) by {
        assert("null"@.len() != "if"@.len());
    }
    assert("null"@ != "else"@) by {
        assert("null"@[0] != "else"@[0]);
    }
    assert("null"@ != "match"@) by {
        assert("null"@.len() != "match"@.len());
    }
    assert("null"@ != "for"@) by {
        assert("null"@.len() != "for"@.len());
    }
    assert("null"@ != "while"@) by {
        assert("null"@.len() != "while"@.len());
    }
    assert("null"@ != "in"@) by {
        assert("null"@.len() != "in"@.len());
    }
    assert("null"@ != "return"@) by {
        assert("null"@.len() != "return"@.len());
    }
    assert("null"@ != "break"@) by {
        assert("null"@.len() != "break"@.len());
    }
    assert("null"@ != "continue"@) by {
        assert("null"@.len() != "continue"@.len());
    }
    assert("null"@ != "import"@) by {
        assert("null"@.len() != "import"@.len());
    }
    assert("null"@ != "true"@) by {
        assert("null"@[0] != "true"@[0]);
    }
    assert("null"@ != "false"@) by {
        assert("null"@.len() != "false"@.len());
    }
    assert("self"@ != "type"@) by {
        assert("self"@[0] != "type"@[0]);
    }
    assert("self"@ != "fun"@) by {
        assert("self"@.len() != "fun"@.len());
    }
    assert("self"@ != "let"@) by {
        assert("self"@.len() != "let"@.len());
    }
    assert("self"@ != "const"@) by {
        assert("self"@.len() != "const"@.len());
    }
    assert("self"@ != "if"@) by {
        assert("self"@.len() != "if"@.len());
    }
    assert("self"@ != "else"@) by {
        assert("self"@[0] != "else"@[0]);
    }
    assert("self"@ != "match"@) by {
        assert("self"@.len() != "match"@.len());
    }
    assert("self"@ != "for"@) by {
        assert("self"@.len() != "for"@.len());
    }
    assert("self"@ != "while"@) by {
        assert("self"@.len() != "while"@.len());
    }
    assert("self"@ != "in"@) by {
        assert("self"@.len() != "in"@.len());
    }
    assert("self"@ != "return"@) by {
        assert("self"@.len() != "return"@.len());
    }
    assert("self"@ != "break"@) by {
        assert("self"@.len() != "break"@.len());
    }
    assert("self"@ != "continue"@) by {
        assert("self"@.len() != "continue"@.len());
    }
    assert("self"@ != "import"@) by {
        assert("self"@.len() != "import"@.len());
    }
    assert("self"@ != "true"@) by {
        assert("self"@[0] != "true"@[0]);
    }
    assert("self"@ != "false"@) by {
        assert("self"@.len() != "false"@.len());
    }
    assert("self"@ != "null"@) by {
        assert("self"@[0] != "null"@[0]);
    }
    assert("Self"@ != "type"@) by {
        assert("Self"@[0] != "type"@[0]);
    }
    assert("Self"@ != "fun"@) by {
        assert("Self"@.len() != "fun"@.len());
    }
    assert("Self"@ != "let"@) by {
        assert("Self"@.len() != "let"@.len());
    }
    assert("Self"@ != "const"@) by {
        assert("Self"@.len() != "const"@.len());
    }
    assert("Self"@ != "if"@) by {
        assert("Self"@.len() != "if"@.len());
    }
    assert("Self"@ != "else"@) by {
        assert("Self"@[0] != "else"@[0]);
    }
    assert("Self"@ != "match"@) by {
        assert("Self"@.len() != "match"@.len());
    }
    assert("Self"@ != "for"@) by {
        assert("Self"@.len() != "for"@.len());
    }
    assert("Self"@ != "while"@) by {
        assert("Self"@.len() != "while"@.len());
    }
    assert("Self"@ != "in"@) by {
        assert("Self"@.len() != "in"@.len());
    }
    assert("Self"@ != "return"@) by {
        assert("Self"@.len() != "return"@.len());
    }
    assert("Self"@ != "break"@) by {
        assert("Self"@.len() != "break"@.len());
    }
    assert("Self"@ != "continue"@) by {
        assert("Self"@.len() != "continue"@.len());
    }
    assert("Self"@ != "import"@) by {
        assert("Self"@.len() != "import"@.len());
    }
    assert("Self"@ != "true"@) by {
        assert("Self"@[0] != "true"@[0]);
    }
    assert("Self"@ != "false"@) by {
        assert("Self"@.len() != "false"@.len());
    }
    assert("Self"@ != "null"@) by {
        assert("Self"@[0] != "null"@[0]);
    }
    assert("Self"@ != "self"@) by {
        assert("Self"@[0] != "self"@[0]);
    }
}

/// Where scanning stops, the text ends or goes on with something else.
proof fn scan_ends(cs: Seq<char>, i: int, p: spec_fn(char) -> bool)
    requires
        0 <= i <= cs.len(),
    ensures
        scan(cs, i, p) < cs.len() ==> !p(cs[scan(cs, i, p)]),
    decreases cs.len() - i,
{
    if i < cs.len() && p(cs[i]) {
        scan_ends(cs, i + 1, p);
    }
}

// ---- numbers ----

proof fn stripped_is_joined(cs: Seq<char>, lo: int, hi: int)
    requires
        0 <= lo <= hi <= cs.len(),
    ensures
        stripped(cs, lo, hi) == joined_digits(cs.subrange(lo, hi)),
    decreases hi - lo,
{
    if lo < hi {
        stripped_is_joined(cs, lo, hi - 1);
        assert(cs.subrange(lo, hi).drop_last() =~= cs.subrange(lo, hi - 1));
        assert(cs.subrange(lo, hi).last() == cs[hi - 1]);
    } else {
        assert(cs.subrange(lo, hi) =~= Seq::empty());
    }
}

proof fn total_grows(ds: Seq<char>, c: char, radix: nat)
    ensures
        total(ds.push(c), radix) == total(ds, radix) * radix + worth(c),
    decreases ds.len(),
{
    let all = ds.push(c);
    let r = radix as int;
    vstd::arithmetic::power::lemma_pow0(r);
    if ds.len() == 0 {
        assert(all.drop_first() =~= Seq::empty());
        assert(total(all.drop_first(), radix) == 0);
        assert(total(ds, radix) == 0);
        assert(worth(c) * 1 == worth(c));
        assert(0 * r == 0) by (nonlinear_arith);
    } else {
        let rest = ds.drop_first();
        total_grows(rest, c, radix);
        assert(all.drop_first() =~= rest.push(c));
        let n = (ds.len() - 1) as nat;
        vstd::arithmetic::power::lemma_pow_adds(r, n, 1);
        vstd::arithmetic::power::lemma_pow1(r);
        let p = vstd::arithmetic::power::pow(r, n);
        let w = worth(ds[0]);
        let t = total(rest, radix);
        assert(vstd::arithmetic::power::pow(r, n + 1) == p * r);
        assert(w * (p * r) + (t * r + worth(c)) == (w * p + t) * r + worth(c)) by (nonlinear_arith);
        assert(all[0] == ds[0]);
    }
}

proof fn value_is_total(ds: Seq<char>, radix: nat)
    requires
        forall|i: int| 0 <= i < ds.len() ==> digit_value(#[trigger] ds[i]) is Some,
    ensures
        number_value(ds, radix) == total(ds, radix),
    decreases ds.len(),
{
    if ds.len() > 0 {
        let front = ds.drop_last();
        assert forall|i: int| 0 <= i < front.len() implies digit_value(#[trigger] front[i]) is Some by {
            assert(front[i] == ds[i]);
        }
        value_is_total(front, radix);
        total_grows(front, ds.last(), radix);
        assert(front.push(ds.last()) =~= ds);
        assert(digit_value(ds[ds.len() - 1]) is Some);
        assert(worth(ds.last()) == digit_value(ds.last())->0);
    }
}

/// What is left of digits and separators is digits.
proof fn joined_are_digits(s: Seq<char>, radix: nat)
    requires
        radix <= 16,
        forall|i: int| 0 <= i < s.len() ==> radix_or_sep(radix)(#[trigger] s[i]),
    ensures
        forall|i: int|
            0 <= i < joined_digits(s).len() ==> digit_value(#[trigger] joined_digits(s)[i]) is Some,
    decreases s.len(),
{
    if s.len() > 0 {
        let front = s.drop_last();
        assert forall|i: int| 0 <= i < front.len() implies radix_or_sep(radix)(
            #[trigger] front[i],
        ) by {
            assert(front[i] == s[i]);
        }
        joined_are_digits(front, radix);
        assert(radix_or_sep(radix)(s[s.len() - 1]));
    }
}

proof fn joined_keeps(s: Seq<char>, i: int)
    requires
        0 <= i < s.len(),
        s[i] != '_',
    ensures
        joined_digits(s).contains(s[i]),
    decreases s.len(),
{
    let front = s.drop_last();
    if i < s.len() - 1 {
        joined_keeps(front, i);
        let r = joined_digits(front);
        let k = choose|k: int| 0 <= k < r.len() && r[k] == s[i];
        assert(joined_digits(s)[k] == s[i]);
    } else {
        assert(joined_digits(s)[joined_digits(front).len() as int] == s[i]);
    }
}

#[verifier::rlimit(50)]
proof fn numbers_fit(cs: Seq<char>, i: int)
    requires
        0 <= i < cs.len(),
        is_digit(cs[i]),
    ensures
        number(cs, i) matches Ok(r) ==> i < r.1 <= cs.len() && fits(r.0, cs, i, r.1),
{
    reveal_texts();
    reveal_strlit("\n");
    reveal_strlit("");
    scan_bounds(cs, i, digit_or_sep());
    let a = int_end(cs, i);
    if fraction_at(cs, a) {
        scan_bounds(cs, a + 1, digit_or_sep());
    }
    let b = fraction_end(cs, a);
    if let Some(d) = exponent_digits(cs, b) {
        scan_bounds(cs, d, digit_only());
    }
    if let Ok((k, j)) = number(cs, i) {
        let radix = match at(cs, i + 1) {
            Some(c) if cs[i] == '0' => radix_of(c),
            _ => None,
        };
        if let Some(r) = radix {
            scan_bounds(cs, i + 2, radix_or_sep(r));
        }
        let s = cs.subrange(i, j);
        assert(s[0] == cs[i]);
        assert forall|r: TokenKindV| #[trigger] is_reserved(r) && spelling(r) == Some(s) implies k
            == r by {
            assert(spelling(r)->0[0] == s[0]);
        }
        match radix {
            Some(r) => {
                let ds = cs.subrange(i + 2, j);
                stripped_is_joined(cs, i + 2, j);
                assert(s.skip(2) =~= ds);
                assert(s[1] == cs[i + 1]);
                assert forall|m: int| 0 <= m < ds.len() implies radix_or_sep(r)(#[trigger] ds[m]) by {
                    assert(radix_or_sep(r)(cs[i + 2 + m]));
                }
                joined_are_digits(ds, r);
                value_is_total(joined_digits(ds), r);
            },
            None => {
                stripped_is_joined(cs, i, j);
                if k is Int {
                    assert forall|m: int| 0 <= m < s.len() implies radix_or_sep(10)(
                        #[trigger] s[m],
                    ) by {
                        assert(digit_or_sep()(cs[i + m]));
                    }
                    joined_are_digits(s, 10);
                    value_is_total(joined_digits(s), 10);
                    if s.len() >= 2 && s[0] == '0' {
                        assert(s[1] == cs[i + 1]);
                        assert(at(cs, i + 1) == Some(s[1]));
                    }
                } else {
                    if fraction_at(cs, a) {
                        assert(s[a - i] == '.');
                        joined_keeps(s, a - i);
                    } else {
                        assert(s[b - i] == 'e' || s[b - i] == 'E');
                        joined_keeps(s, b - i);
                    }
                }
            },
        }
    }
}

proof fn strings_end(cs: Seq<char>, start: int, i: int, parts: Seq<StrPartV>, cur: Seq<char>)
    requires
        0 <= i <= cs.len(),
    ensures
        string_rest(cs, start, i, parts, cur) matches Ok(r) ==> i < r.1 <= cs.len() && cs[r.1 - 1]
            == '"',
    decreases cs.len() - i,
{
    if i < cs.len() {
        if cs[i] == '"' {
        } else if cs[i] == '\\' {
            if let Some(c) = at(cs, i + 1) {
                if let Some(r) = escape(c) {
                    strings_end(cs, start, i + 2, parts, cur.push(r));
                }
            }
        } else if cs[i] == '{' {
            crate::lexer::interpolation_bounds(cs, start, i + 1, 1);
            if let Ok(j) = interpolation_end(cs, start, i + 1, 1) {
                strings_end(
                    cs,
                    start,
                    j + 1,
                    flushed(parts, cur).push(StrPartV::Interp(cs.subrange(i + 1, j))),
                    Seq::empty(),
                );
            }
        } else {
            strings_end(cs, start, i + 1, parts, cur.push(cs[i]));
        }
    }
}

proof fn token_fits(cs: Seq<char>, i: int)
    requires
        0 <= i < cs.len(),
    ensures
        token_at(cs, i) matches Ok(r) ==> i < r.1 <= cs.len() && fits(r.0, cs, i, r.1),
{
    token_at_bounds(cs, i);
    if is_digit(cs[i]) {
        numbers_fit(cs, i);
    } else if cs[i] == '"' {
        strings_end(cs, i, i + 1, Seq::empty(), Seq::empty());
        if let Ok((k, j)) = token_at(cs, i) {
            reveal_texts();
            let s = cs.subrange(i, j);
            assert(s[0] == cs[i]);
            assert(s.last() == cs[j - 1]);
            assert forall|r: TokenKindV| #[trigger] is_reserved(r) && spelling(r) == Some(
                s,
            ) implies k == r by {
                assert(spelling(r)->0[0] == s[0]);
            }
        }
    } else if starts_ident(cs[i]) {
        words_fit(cs, i);
    } else if symbol_kind(cs[i], at(cs, i + 1)) is Some {
        symbols_fit(cs, i);
    }
}

// ---- all tokens ----

spec fn all_fit(toks: Seq<TokenV>, cs: Seq<char>) -> bool {
    forall|i: int| 0 <= i < toks.len() ==> stands_fitting(#[trigger] toks[i], cs)
}

proof fn fit_push(toks: Seq<TokenV>, cs: Seq<char>, lo: int, hi: int, kind: TokenKindV)
    requires
        0 <= lo <= hi <= cs.len(),
        all_fit(toks, cs),
        fits(kind, cs, lo, hi),
    ensures
        all_fit(toks.push(TokenV { kind, span: span_of(cs, lo, hi) }), cs),
{
    let t = toks.push(TokenV { kind, span: span_of(cs, lo, hi) });
    assert forall|i: int| 0 <= i < t.len() implies stands_fitting(#[trigger] t[i], cs) by {
        if i < toks.len() {
            assert(t[i] == toks[i]);
        }
    }
}

proof fn marks_fit(cs: Seq<char>, i: int)
    requires
        0 <= i <= cs.len(),
    ensures
        i < cs.len() && cs[i] == '\n' ==> fits(TokenKindV::Newline, cs, i, i + 1),
        fits(TokenKindV::Eof, cs, i, i),
{
    reveal_texts();
    reveal_strlit("\n");
    reveal_strlit("");
    let none = cs.subrange(i, i);
    assert(none =~= ""@);
    assert forall|r: TokenKindV| #[trigger] is_reserved(r) && spelling(r) == Some(none) implies r
        == TokenKindV::Eof by {
        assert(spelling(r)->0.len() > 0);
    }
    if i < cs.len() && cs[i] == '\n' {
        let s = cs.subrange(i, i + 1);
        assert(s[0] == '\n');
        assert(s =~= "\n"@);
        assert forall|r: TokenKindV| #[trigger] is_reserved(r) && spelling(r) == Some(s) implies r
            == TokenKindV::Newline by {
            assert(spelling(r)->0[0] == s[0]);
        }
    }
}

proof fn trivia_fits(cs: Seq<char>, i: int, toks: Seq<TokenV>)
    requires
        0 <= i <= cs.len(),
        all_fit(toks, cs),
    ensures
        trivia(cs, i, toks) matches Ok(r) ==> all_fit(r.1, cs),
    decreases cs.len() - i,
{
    if i < cs.len() {
        if cs[i] == ' ' || cs[i] == '\t' || cs[i] == '\r' {
            trivia_fits(cs, i + 1, toks);
        } else if cs[i] == '\n' {
            marks_fit(cs, i);
            fit_push(toks, cs, i, i + 1, TokenKindV::Newline);
            trivia_fits(cs, i + 1, newline_added(toks, cs, i));
        } else if cs[i] == '/' && at(cs, i + 1) == Some('/') {
            scan_bounds(cs, i, not_newline());
            trivia_fits(cs, scan(cs, i, not_newline()), toks);
        } else if cs[i] == '/' && at(cs, i + 1) == Some('*') {
            comment_end_bounds(cs, i + 2, 1);
            if let Some(j) = comment_end(cs, i + 2, 1) {
                trivia_fits(cs, j, toks);
            }
        }
    }
}

proof fn tokens_fit(cs: Seq<char>, i: int, toks: Seq<TokenV>)
    requires
        0 <= i <= cs.len(),
        all_fit(toks, cs),
    ensures
        tokens_from(cs, i, toks) matches Ok(r) ==> all_fit(r, cs),
    decreases cs.len() - i,
{
    trivia_bounds(cs, i, toks);
    trivia_fits(cs, i, toks);
    if let Ok((j, ts)) = trivia(cs, i, toks) {
        if j >= cs.len() {
            let end = cs.len() as int;
            marks_fit(cs, end);
            fit_push(ts, cs, end, end, TokenKindV::Eof);
        } else {
            token_at_bounds(cs, j);
            token_fits(cs, j);
            if let Ok((kind, k)) = token_at(cs, j) {
                fit_push(ts, cs, j, k, kind);
                tokens_fit(cs, k, ts.push(TokenV { kind, span: span_of(cs, j, k) }));
            }
        }
    }
}

} // verus!
