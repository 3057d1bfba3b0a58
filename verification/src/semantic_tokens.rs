//! Semantic-token highlighting.
//!
//! Highlighting is built from the token stream so it survives a parse error: every
//! token is classified from its kind, and identifiers are refined with the previous and
//! next significant token plus the type and function names that a parse of the document
//! declares. Line comments, which the lexer discards, are recovered by a direct scan.

use vstd::prelude::*;
use crate::ast::{members_view, top_levels_view, Member, MemberV, Module, ModuleV, TopLevel, TopLevelV, TypeBody, TypeBodyV};
use crate::document::{begins_at, begins_at_unique, find_index, index_at, indexes, line_starts, position_in, position_of, width16};
use crate::lexer::{all_stand_on, at, lex, lexed, not_newline, scan, scan_bounds, span_of, stands_on, tokens_stand_on_characters};
use crate::names::NameSet;
use crate::offsets::{byte_off, byte_off_grows, utf16_len, Chars};
use crate::span::Span;
use crate::text::str_eq;
use crate::token::{tokens_view, Token, TokenKind, TokenKindV, TokenV};

verus! {

pub const T_NAMESPACE: u32 = 0;

pub const T_TYPE: u32 = 1;

pub const T_ENUM: u32 = 2;

pub const T_FUNCTION: u32 = 3;

pub const T_METHOD: u32 = 4;

pub const T_PROPERTY: u32 = 5;

pub const T_VARIABLE: u32 = 6;

pub const T_KEYWORD: u32 = 8;

pub const T_STRING: u32 = 9;

pub const T_NUMBER: u32 = 10;

pub const T_OPERATOR: u32 = 11;

pub const T_COMMENT: u32 = 13;

/// The bit of a declaration site.
pub const M_DECLARATION: u32 = 1;

/// The bit of a name the language provides.
pub const M_DEFAULT_LIBRARY: u32 = 2;

// ---- declared names ----

/// Type and function names declared in the document, used to colour their references.
pub struct DeclaredNames {
    pub types: NameSet,
    pub sum_types: NameSet,
    pub functions: NameSet,
}

/// The model of [`DeclaredNames`].
#[verifier::ext_equal]
pub ghost struct DeclaredV {
    pub types: Set<Seq<char>>,
    pub sum_types: Set<Seq<char>>,
    pub functions: Set<Seq<char>>,
}

impl View for DeclaredNames {
    type V = DeclaredV;

    open spec fn view(&self) -> DeclaredV {
        DeclaredV {
            types: self.types@,
            sum_types: self.sum_types@,
            functions: self.functions@,
        }
    }
}

/// No names.
pub open spec fn nothing_declared() -> DeclaredV {
    DeclaredV { types: Set::empty(), sum_types: Set::empty(), functions: Set::empty() }
}

/// `fs` with the names of the methods among `ms`.
pub open spec fn with_methods(fs: Set<Seq<char>>, ms: Seq<MemberV>) -> Set<Seq<char>>
    decreases ms.len(),
{
    if ms.len() == 0 {
        fs
    } else {
        let before = with_methods(fs, ms.drop_last());
        match ms.last() {
            MemberV::Method(m) => before.insert(m.name),
            MemberV::Field(_) => before,
        }
    }
}

/// The names that top-level items declare. A record's methods count as functions.
pub open spec fn declared(items: Seq<TopLevelV>) -> DeclaredV
    decreases items.len(),
{
    if items.len() == 0 {
        nothing_declared()
    } else {
        let d = declared(items.drop_last());
        match items.last() {
            TopLevelV::Fun(f) => DeclaredV { functions: d.functions.insert(f.name), ..d },
            TopLevelV::Type(t) => DeclaredV {
                types: d.types.insert(t.name),
                sum_types: if t.body is Sum {
                    d.sum_types.insert(t.name)
                } else {
                    d.sum_types
                },
                functions: match t.body {
                    TypeBodyV::Record(ms) => with_methods(d.functions, ms),
                    _ => d.functions,
                },
            },
            TopLevelV::Stmt(_) => d,
        }
    }
}

/// The names a document declares; none when it does not parse.
pub open spec fn declared_in(module: Option<ModuleV>) -> DeclaredV {
    match module {
        Some(m) => declared(m.items),
        None => nothing_declared(),
    }
}

/// The model of an optional parsed document.
pub open spec fn opt_module(m: Option<&Module>) -> Option<ModuleV> {
    match m {
        Some(m) => Some(m@),
        None => None,
    }
}

fn add_methods(ms: &Vec<Member>, out: &mut NameSet)
    ensures
        final(out)@ == with_methods(old(out)@, members_view(ms@)),
{
    let ghost all = members_view(ms@);
    let ghost start = out@;
    for i in 0..ms.len()
        invariant
            all == members_view(ms@),
            out@ == with_methods(start, all.take(i as int)),
    {
        proof {
            assert(all.take(i + 1).drop_last() =~= all.take(i as int));
            assert(all.take(i + 1).last() == ms[i as int]@);
        }
        match &ms[i] {
            Member::Method(m) => {
                out.insert(m.name.as_str());
            },
            Member::Field(_) => {},
        }
    }
    assert(all.take(ms.len() as int) =~= all);
}

impl DeclaredNames {
    /// The names the parsed document declares.
    pub fn collect(module: Option<&Module>) -> (r: DeclaredNames)
        ensures
            r@ == declared_in(opt_module(module)),
    {
        let mut d = DeclaredNames {
            types: NameSet::new(),
            sum_types: NameSet::new(),
            functions: NameSet::new(),
        };
        let m = match module {
            Some(m) => m,
            None => {
                return d;
            },
        };
        let ghost all = top_levels_view(m.items@);
        for i in 0..m.items.len()
            invariant
                all == top_levels_view(m.items@),
                d@ == declared(all.take(i as int)),
        {
            proof {
                assert(all.take(i + 1).drop_last() =~= all.take(i as int));
                assert(all.take(i + 1).last() == m.items[i as int]@);
            }
            match &m.items[i] {
                TopLevel::Fun(f) => {
                    d.functions.insert(f.name.as_str());
                },
                TopLevel::Type(t) => {
                    d.types.insert(t.name.as_str());
                    match &t.body {
                        TypeBody::Sum(_) => {
                            d.sum_types.insert(t.name.as_str());
                        },
                        TypeBody::Record(ms) => {
                            add_methods(ms, &mut d.functions);
                        },
                        TypeBody::Alias(_) => {},
                    }
                },
                TopLevel::Stmt(_) => {},
            }
        }
        assert(all.take(m.items.len() as int) =~= all);
        d
    }
}

// ---- classification ----

/// Built-in scalar and runtime type names that always highlight as types.
pub open spec fn builtin_type(name: Seq<char>) -> bool {
    name == "bool"@ || name == "int8"@ || name == "int16"@ || name == "int32"@ || name == "int64"@
        || name == "uint8"@ || name == "uint16"@ || name == "uint32"@ || name == "uint64"@ || name
        == "float32"@ || name == "float64"@ || name == "string"@ || name == "void"@ || name
        == "never"@ || name == "Self"@ || name == "Result"@
}

/// Prelude functions referenced by bare name, so that they highlight as functions even
/// outside call position.
pub open spec fn prelude_function(name: Seq<char>) -> bool {
    name == "print"@ || name == "println"@ || name == "input"@ || name == "len"@ || name
        == "assert"@ || name == "panic"@ || name == "range"@
}

/// The class of an identifier. Declaration sites (after `fun` or `type`) win first; then
/// member access; then call position, but for the names of built-in types, which are always
/// types; then the known names, those that the document declares as types before the
/// built-in ones; then a type annotation position; otherwise a plain variable. Only a name
/// that the document does not declare as a type is the default library's.
pub open spec fn ident_class(
    name: Seq<char>,
    prev: Option<TokenKindV>,
    next: Option<TokenKindV>,
    d: DeclaredV,
) -> (u32, u32) {
    let called = next == Some(TokenKindV::LParen);
    if prev == Some(TokenKindV::Fun) {
        (T_FUNCTION, M_DECLARATION)
    } else if prev == Some(TokenKindV::Type) {
        (
            if d.sum_types.contains(name) {
                T_ENUM
            } else {
                T_TYPE
            },
            M_DECLARATION,
        )
    } else if prev == Some(TokenKindV::Dot) {
        (
            if called {
                T_METHOD
            } else {
                T_PROPERTY
            },
            0,
        )
    } else if prev == Some(TokenKindV::Import) {
        (T_NAMESPACE, 0)
    } else if called && !builtin_type(name) {
        (
            T_FUNCTION,
            if prelude_function(name) && !d.sum_types.contains(name) && !d.types.contains(name) {
                M_DEFAULT_LIBRARY
            } else {
                0
            },
        )
    } else if d.sum_types.contains(name) {
        (T_ENUM, 0)
    } else if d.types.contains(name) {
        (T_TYPE, 0)
    } else if builtin_type(name) {
        (T_TYPE, M_DEFAULT_LIBRARY)
    } else if prelude_function(name) {
        (T_FUNCTION, M_DEFAULT_LIBRARY)
    } else if d.functions.contains(name) {
        (T_FUNCTION, 0)
    } else if prev == Some(TokenKindV::Colon) || prev == Some(TokenKindV::Arrow) {
        (T_TYPE, 0)
    } else {
        (T_VARIABLE, 0)
    }
}

/// The class of a token as a type and modifiers, or `None` for what stays unhighlighted
/// (brackets, commas, dots).
pub open spec fn class_of_token(
    kind: TokenKindV,
    prev: Option<TokenKindV>,
    next: Option<TokenKindV>,
    d: DeclaredV,
) -> Option<(u32, u32)> {
    match kind {
        TokenKindV::Type | TokenKindV::Fun | TokenKindV::Let | TokenKindV::Const | TokenKindV::If
        | TokenKindV::Else | TokenKindV::Match | TokenKindV::For | TokenKindV::While
        | TokenKindV::In | TokenKindV::Return | TokenKindV::Break | TokenKindV::Continue
        | TokenKindV::Import | TokenKindV::True | TokenKindV::False | TokenKindV::Null
        | TokenKindV::SelfLower | TokenKindV::SelfUpper => Some((T_KEYWORD, 0)),
        TokenKindV::Int(_) | TokenKindV::Float(_) => Some((T_NUMBER, 0)),
        TokenKindV::Str(_) => Some((T_STRING, 0)),
        TokenKindV::Plus | TokenKindV::Minus | TokenKindV::Star | TokenKindV::Slash
        | TokenKindV::Percent | TokenKindV::EqEq | TokenKindV::NotEq | TokenKindV::Lt
        | TokenKindV::Gt | TokenKindV::LtEq | TokenKindV::GtEq | TokenKindV::AmpAmp
        | TokenKindV::PipePipe | TokenKindV::Bang | TokenKindV::Amp | TokenKindV::Pipe
        | TokenKindV::Caret | TokenKindV::Tilde | TokenKindV::Shl | TokenKindV::Shr
        | TokenKindV::Eq | TokenKindV::PlusEq | TokenKindV::MinusEq | TokenKindV::StarEq
        | TokenKindV::SlashEq | TokenKindV::PercentEq | TokenKindV::Arrow | TokenKindV::FatArrow
        | TokenKindV::Question => Some((T_OPERATOR, 0)),
        TokenKindV::Ident(name) => Some(ident_class(name, prev, next, d)),
        _ => None,
    }
}

/// The model of an optional token kind.
pub open spec fn opt_kind(k: Option<&TokenKind>) -> Option<TokenKindV> {
    match k {
        Some(k) => Some(k@),
        None => None,
    }
}

fn is_builtin_type(name: &str) -> (r: bool)
    ensures
        r == builtin_type(name@),
{
    str_eq(name, "bool") || str_eq(name, "int8") || str_eq(name, "int16") || str_eq(name, "int32")
        || str_eq(name, "int64") || str_eq(name, "uint8") || str_eq(name, "uint16") || str_eq(
        name,
        "uint32",
    ) || str_eq(name, "uint64") || str_eq(name, "float32") || str_eq(name, "float64") || str_eq(
        name,
        "string",
    ) || str_eq(name, "void") || str_eq(name, "never") || str_eq(name, "Self") || str_eq(
        name,
        "Result",
    )
}

fn is_prelude_function(name: &str) -> (r: bool)
    ensures
        r == prelude_function(name@),
{
    str_eq(name, "print") || str_eq(name, "println") || str_eq(name, "input") || str_eq(name, "len")
        || str_eq(name, "assert") || str_eq(name, "panic") || str_eq(name, "range")
}

fn classify_ident(
    name: &str,
    prev: Option<&TokenKind>,
    next: Option<&TokenKind>,
    names: &DeclaredNames,
) -> (r: (u32, u32))
    ensures
        r == ident_class(name@, opt_kind(prev), opt_kind(next), names@),
{
    let called = match next {
        Some(TokenKind::LParen) => true,
        _ => false,
    };
    match prev {
        Some(TokenKind::Fun) => {
            return (T_FUNCTION, M_DECLARATION);
        },
        Some(TokenKind::Type) => {
            let ty: u32 = if names.sum_types.contains(name) {
                T_ENUM
            } else {
                T_TYPE
            };
            return (ty, M_DECLARATION);
        },
        Some(TokenKind::Dot) => {
            let ty: u32 = if called {
                T_METHOD
            } else {
                T_PROPERTY
            };
            return (ty, 0);
        },
        Some(TokenKind::Import) => {
            return (T_NAMESPACE, 0);
        },
        _ => {},
    }
    let builtin = is_builtin_type(name);
    if called && !builtin {
        let library: u32 = if is_prelude_function(name) && !names.sum_types.contains(name)
            && !names.types.contains(name) {
            M_DEFAULT_LIBRARY
        } else {
            0
        };
        return (T_FUNCTION, library);
    }
    if names.sum_types.contains(name) {
        return (T_ENUM, 0);
    }
    if names.types.contains(name) {
        return (T_TYPE, 0);
    }
    if builtin {
        return (T_TYPE, M_DEFAULT_LIBRARY);
    }
    if is_prelude_function(name) {
        return (T_FUNCTION, M_DEFAULT_LIBRARY);
    }
    if names.functions.contains(name) {
        return (T_FUNCTION, 0);
    }
    match prev {
        Some(TokenKind::Colon) => (T_TYPE, 0),
        Some(TokenKind::Arrow) => (T_TYPE, 0),
        _ => (T_VARIABLE, 0),
    }
}

/// Classify a single token into a type and modifiers, or `None` to leave it
/// unhighlighted.
pub fn classify(
    kind: &TokenKind,
    prev: Option<&TokenKind>,
    next: Option<&TokenKind>,
    names: &DeclaredNames,
) -> (r: Option<(u32, u32)>)
    ensures
        r == class_of_token(kind@, opt_kind(prev), opt_kind(next), names@),
{
    match kind {
        TokenKind::Type | TokenKind::Fun | TokenKind::Let | TokenKind::Const | TokenKind::If
        | TokenKind::Else | TokenKind::Match | TokenKind::For | TokenKind::While | TokenKind::In
        | TokenKind::Return | TokenKind::Break | TokenKind::Continue | TokenKind::Import
        | TokenKind::True | TokenKind::False | TokenKind::Null | TokenKind::SelfLower
        | TokenKind::SelfUpper => Some((T_KEYWORD, 0)),
        TokenKind::Int(_) | TokenKind::Float(_) => Some((T_NUMBER, 0)),
        TokenKind::Str(_) => Some((T_STRING, 0)),
        TokenKind::Plus | TokenKind::Minus | TokenKind::Star | TokenKind::Slash
        | TokenKind::Percent | TokenKind::EqEq | TokenKind::NotEq | TokenKind::Lt | TokenKind::Gt
        | TokenKind::LtEq | TokenKind::GtEq | TokenKind::AmpAmp | TokenKind::PipePipe
        | TokenKind::Bang | TokenKind::Amp | TokenKind::Pipe | TokenKind::Caret | TokenKind::Tilde
        | TokenKind::Shl | TokenKind::Shr | TokenKind::Eq | TokenKind::PlusEq | TokenKind::MinusEq
        | TokenKind::StarEq | TokenKind::SlashEq | TokenKind::PercentEq | TokenKind::Arrow
        | TokenKind::FatArrow | TokenKind::Question => Some((T_OPERATOR, 0)),
        TokenKind::Ident(name) => Some(classify_ident(name.as_str(), prev, next, names)),
        _ => None,
    }
}

// ---- placed tokens ----

/// An absolute (not yet delta-encoded) semantic token.
#[derive(Clone, Copy, Debug, PartialEq, Eq, Structural)]
pub struct Abs {
    pub line: u32,
    pub start: u32,
    pub len: u32,
    pub ty: u32,
    pub modifiers: u32,
}

/// The model of [`Abs`].
pub ghost struct AbsV {
    pub line: nat,
    pub start: nat,
    pub len: nat,
    pub ty: u32,
    pub modifiers: u32,
}

impl View for Abs {
    type V = AbsV;

    open spec fn view(&self) -> AbsV {
        AbsV {
            line: self.line as nat,
            start: self.start as nat,
            len: self.len as nat,
            ty: self.ty,
            modifiers: self.modifiers,
        }
    }
}

pub open spec fn abs_view(v: Seq<Abs>) -> Seq<AbsV> {
    Seq::new(v.len(), |i: int| v[i]@)
}

pub open spec fn min(a: int, b: int) -> int {
    if a <= b {
        a
    } else {
        b
    }
}

/// The characters `a..b` as one token per line, none of them holding a line feed (the
/// protocol forbids a token crossing a line).
pub open spec fn span_tokens(cs: Seq<char>, a: int, b: int, ty: u32, modifiers: u32) -> Seq<AbsV>
    decreases b - a,
{
    if !(0 <= a < b <= cs.len()) {
        Seq::empty()
    } else {
        proof {
            scan_bounds(cs, a, not_newline());
        }
        let stop = scan(cs, a, not_newline());
        let end = min(stop, b);
        let rest = span_tokens(cs, min(stop + 1, b), b, ty, modifiers);
        if end > a {
            seq![
                AbsV {
                    line: position_of(cs, a).0,
                    start: position_of(cs, a).1,
                    len: utf16_len(cs, a, end),
                    ty,
                    modifiers,
                },
            ] + rest
        } else {
            rest
        }
    }
}

#[verifier::rlimit(50)]
fn push_span(
    out: &mut Vec<Abs>,
    chars: &Chars,
    starts: &Vec<usize>,
    a: usize,
    b: usize,
    ty: u32,
    modifiers: u32,
)
    requires
        chars.wf(),
        indexes(starts@, chars.cs@),
        a <= b <= chars.cs.len(),
        byte_off(chars.cs@, chars.cs@.len() as int) <= u32::MAX,
    ensures
        abs_view(final(out)@) == abs_view(old(out)@) + span_tokens(
            chars.cs@,
            a as int,
            b as int,
            ty,
            modifiers,
        ),
{
    let ghost cs = chars.cs@;
    let ghost want = abs_view(out@) + span_tokens(cs, a as int, b as int, ty, modifiers);
    let mut i: usize = a;
    while i < b
        invariant
            chars.wf(),
            cs == chars.cs@,
            indexes(starts@, cs),
            a <= i <= b <= cs.len(),
            byte_off(cs, cs.len() as int) <= u32::MAX,
            abs_view(out@) + span_tokens(cs, i as int, b as int, ty, modifiers) == want,
        decreases b - i,
    {
        let mut j: usize = i;
        proof {
            scan_bounds(cs, i as int, not_newline());
        }
        let ghost stop = scan(cs, i as int, not_newline());
        while j < b && chars.cs[j] != '\n'
            invariant
                cs == chars.cs@,
                i <= j <= b <= cs.len(),
                stop == scan(cs, j as int, not_newline()),
                j <= stop <= cs.len(),
            decreases b - j,
        {
            proof {
                scan_bounds(cs, j as int, not_newline());
                scan_bounds(cs, j + 1, not_newline());
            }
            j = j + 1;
        }
        assert(j == min(stop, b as int));
        let ghost before = abs_view(out@);
        let ghost rest = span_tokens(cs, min(stop + 1, b as int), b as int, ty, modifiers);
        if j > i {
            let p = position_in(starts, chars, i);
            let len = width16(chars, i, j);
            let t = Abs { line: p.line, start: p.character, len, ty, modifiers };
            out.push(t);
            proof {
                assert(abs_view(out@) =~= before.push(t@));
                assert(abs_view(out@) + rest =~= before + (seq![t@] + rest));
            }
        }
        i = if j < b {
            j + 1
        } else {
            b
        };
        assert(i == min(stop + 1, b as int));
    }
    assert(abs_view(out@) =~= want);
}

// ---- tokens of the document ----

/// Whether a token counts for what stands before or behind another.
pub open spec fn significant(t: TokenV) -> bool {
    !(t.kind is Newline) && !(t.kind is Eof)
}

/// The kind of the last significant token before `i`.
pub open spec fn prev_kind(toks: Seq<TokenV>, i: int) -> Option<TokenKindV>
    decreases i,
{
    if i <= 0 {
        None
    } else if significant(toks[i - 1]) {
        Some(toks[i - 1].kind)
    } else {
        prev_kind(toks, i - 1)
    }
}

/// The kind of the first significant token from `i` on.
pub open spec fn next_kind(toks: Seq<TokenV>, i: int) -> Option<TokenKindV>
    decreases toks.len() - i,
{
    if i >= toks.len() {
        None
    } else if significant(toks[i]) {
        Some(toks[i].kind)
    } else {
        next_kind(toks, i + 1)
    }
}

/// What the `i`-th token is highlighted as.
pub open spec fn token_class(toks: Seq<TokenV>, i: int, d: DeclaredV) -> Option<(u32, u32)> {
    if significant(toks[i]) {
        class_of_token(toks[i].kind, prev_kind(toks, i), next_kind(toks, i + 1), d)
    } else {
        None
    }
}

/// The highlighted pieces of the first `n` tokens.
pub open spec fn token_pieces(cs: Seq<char>, toks: Seq<TokenV>, n: int, d: DeclaredV) -> Seq<AbsV>
    decreases n,
{
    if n <= 0 {
        Seq::empty()
    } else {
        let before = token_pieces(cs, toks, n - 1, d);
        match token_class(toks, n - 1, d) {
            Some((ty, m)) => before + span_tokens(
                cs,
                index_at(cs, toks[n - 1].span.lo as int),
                index_at(cs, toks[n - 1].span.hi as int),
                ty,
                m,
            ),
            None => before,
        }
    }
}

fn is_significant(t: &Token) -> (r: bool)
    ensures
        r == significant(t@),
{
    match &t.kind {
        TokenKind::Newline => false,
        TokenKind::Eof => false,
        _ => true,
    }
}

/// Where the characters of a span begin and end.
fn span_indices(chars: &Chars, span: Span) -> (r: (usize, usize))
    requires
        chars.wf(),
        byte_off(chars.cs@, chars.cs@.len() as int) <= usize::MAX,
        exists|lo: int, hi: int|
            0 <= lo <= hi <= chars.cs@.len() && span == #[trigger] span_of(chars.cs@, lo, hi),
    ensures
        r.0 == index_at(chars.cs@, span.lo as int),
        r.1 == index_at(chars.cs@, span.hi as int),
        r.0 <= r.1 <= chars.cs@.len(),
{
    let ghost cs = chars.cs@;
    proof {
        let (lo, hi) = choose|lo: int, hi: int|
            0 <= lo <= hi <= cs.len() && span == #[trigger] span_of(cs, lo, hi);
        let n = cs.len() as int;
        if lo < hi {
            byte_off_grows(cs, lo, hi);
        }
        if hi < n {
            byte_off_grows(cs, hi, n);
        }
        assert(begins_at(cs, span.lo as int, lo));
        assert(begins_at(cs, span.hi as int, hi));
    }
    let a = find_index(chars, span.lo);
    let b = find_index(chars, span.hi);
    proof {
        let n = cs.len() as int;
        if b < n {
            byte_off_grows(cs, b as int, n);
        }
        begins_at_unique(cs, span.hi as int, b as int, index_at(cs, span.hi as int));
        if b < a {
            byte_off_grows(cs, b as int, a as int);
        }
        if a < n {
            byte_off_grows(cs, a as int, n);
        }
        begins_at_unique(cs, span.lo as int, a as int, index_at(cs, span.lo as int));
    }
    (a, b)
}

// ---- comments ----

/// The line comments from `i` on, each from its `//` to the end of its line. A `//`
/// inside a string literal is not one.
pub open spec fn comments_from(cs: Seq<char>, i: int, in_string: bool) -> Seq<(int, int)>
    decreases cs.len() + 1 - i,
{
    if !(0 <= i < cs.len()) {
        Seq::empty()
    } else if in_string {
        if cs[i] == '\\' {
            comments_from(cs, i + 2, true)
        } else {
            comments_from(cs, i + 1, cs[i] != '"')
        }
    } else if cs[i] == '"' {
        comments_from(cs, i + 1, true)
    } else if cs[i] == '/' && at(cs, i + 1) == Some('/') {
        proof {
            scan_bounds(cs, i, not_newline());
        }
        let j = scan(cs, i, not_newline());
        seq![(i, j)] + comments_from(cs, j, false)
    } else {
        comments_from(cs, i + 1, false)
    }
}

/// The highlighted pieces of comments.
pub open spec fn comment_pieces(cs: Seq<char>, spans: Seq<(int, int)>) -> Seq<AbsV>
    decreases spans.len(),
{
    if spans.len() == 0 {
        Seq::empty()
    } else {
        comment_pieces(cs, spans.drop_last()) + span_tokens(
            cs,
            spans.last().0,
            spans.last().1,
            T_COMMENT,
            0,
        )
    }
}

/// The model of a list of index pairs.
pub open spec fn pairs(v: Seq<(usize, usize)>) -> Seq<(int, int)> {
    Seq::new(v.len(), |i: int| (v[i].0 as int, v[i].1 as int))
}

/// The line comments of a text, as index pairs.
#[verifier::rlimit(50)]
fn comment_spans(chars: &Chars) -> (r: Vec<(usize, usize)>)
    requires
        chars.wf(),
    ensures
        pairs(r@) == comments_from(chars.cs@, 0, false),
        forall|i: int| 0 <= i < r.len() ==> (#[trigger] r[i]).0 <= r[i].1 <= chars.cs.len(),
{
    let ghost cs = chars.cs@;
    let ghost want = comments_from(cs, 0, false);
    let n: usize = chars.cs.len();
    let mut spans: Vec<(usize, usize)> = Vec::new();
    let mut i: usize = 0;
    let mut in_string: bool = false;
    assert(pairs(spans@) + want =~= want);
    while i < n
        invariant
            cs == chars.cs@,
            n == cs.len(),
            i <= n,
            pairs(spans@) + comments_from(cs, i as int, in_string) == want,
            forall|k: int| 0 <= k < spans.len() ==> (#[trigger] spans[k]).0 <= spans[k].1 <= n,
        decreases n - i,
    {
        let c = chars.cs[i];
        if in_string {
            if c == '\\' {
                if n - i <= 2 {
                    assert(comments_from(cs, i + 2, true) =~= comments_from(cs, n as int, true));
                    i = n;
                } else {
                    i = i + 2;
                }
            } else {
                if c == '"' {
                    in_string = false;
                }
                i = i + 1;
            }
        } else if c == '"' {
            in_string = true;
            i = i + 1;
        } else if c == '/' && n - i > 1 && chars.cs[i + 1] == '/' {
            let mut j: usize = i;
            let ghost stop = scan(cs, i as int, not_newline());
            proof {
                scan_bounds(cs, i as int, not_newline());
            }
            while j < n && chars.cs[j] != '\n'
                invariant
                    cs == chars.cs@,
                    n == cs.len(),
                    i <= j <= n,
                    stop == scan(cs, j as int, not_newline()),
                    j <= stop <= n,
                decreases n - j,
            {
                proof {
                    scan_bounds(cs, j as int, not_newline());
                    scan_bounds(cs, j + 1, not_newline());
                }
                j = j + 1;
            }
            let ghost before = pairs(spans@);
            spans.push((i, j));
            proof {
                assert(j == stop);
                assert(pairs(spans@) =~= before.push((i as int, j as int)));
                assert(pairs(spans@) + comments_from(cs, j as int, false) =~= before + (seq![
                    (i as int, j as int),
                ] + comments_from(cs, j as int, false)));
            }
            i = j;
        } else {
            i = i + 1;
        }
    }
    assert(comments_from(cs, n as int, in_string) =~= Seq::empty());
    assert(pairs(spans@) =~= want);
    spans
}

// ---- order ----

/// Whether `a` stands before `b`.
pub open spec fn before(a: AbsV, b: AbsV) -> bool {
    a.line < b.line || (a.line == b.line && a.start < b.start)
}

/// Whether pieces are in order of place.
pub open spec fn in_place_order(s: Seq<AbsV>) -> bool {
    forall|i: int, j: int| 0 <= i < j < s.len() ==> !before(#[trigger] s[j], #[trigger] s[i])
}

/// How many of the first `n` pieces stay in front of `x`: all but those at the end that
/// it stands before.
pub open spec fn slot(s: Seq<AbsV>, n: int, x: AbsV) -> int
    decreases n,
{
    if n <= 0 {
        0
    } else if before(x, s[n - 1]) {
        slot(s, n - 1, x)
    } else {
        n
    }
}

/// Pieces sorted by place, those at one place in the order given.
pub open spec fn sorted(s: Seq<AbsV>) -> Seq<AbsV>
    decreases s.len(),
{
    if s.len() == 0 {
        s
    } else {
        let r = sorted(s.drop_last());
        r.insert(slot(r, r.len() as int, s.last()), s.last())
    }
}

proof fn slot_facts(s: Seq<AbsV>, n: int, x: AbsV)
    requires
        0 <= n <= s.len(),
    ensures
        0 <= slot(s, n, x) <= n,
        slot(s, n, x) > 0 ==> !before(x, s[slot(s, n, x) - 1]),
        forall|i: int| slot(s, n, x) <= i < n ==> before(x, #[trigger] s[i]),
    decreases n,
{
    if n > 0 && before(x, s[n - 1]) {
        slot_facts(s, n - 1, x);
    }
}

/// Sorting puts the pieces in order of place and keeps every one of them.
pub proof fn sorting_orders(s: Seq<AbsV>)
    ensures
        in_place_order(sorted(s)),
        sorted(s).len() == s.len(),
        sorted(s).to_multiset() == s.to_multiset(),
    decreases s.len(),
{
    broadcast use vstd::seq_lib::group_to_multiset_ensures;

    if s.len() > 0 {
        sorting_orders(s.drop_last());
        let r = sorted(s.drop_last());
        let x = s.last();
        let p = slot(r, r.len() as int, x);
        slot_facts(r, r.len() as int, x);
        let t = r.insert(p, x);
        assert forall|i: int, j: int| 0 <= i < j < t.len() implies !before(
            #[trigger] t[j],
            #[trigger] t[i],
        ) by {
            let a = if i < p {
                i
            } else {
                i - 1
            };
            let b = if j < p {
                j
            } else {
                j - 1
            };
            if i == p {
                assert(t[j] == r[b]);
                assert(before(x, r[b]));
            } else if j == p {
                assert(t[i] == r[a]);
                if a < p - 1 {
                    assert(!before(r[p - 1], r[a]));
                }
            } else {
                assert(t[i] == r[a] && t[j] == r[b]);
            }
        }
        assert(s =~= s.drop_last().push(x));
        assert(t.to_multiset() =~= r.to_multiset().insert(x));
    }
}

fn stands_before(a: &Abs, b: &Abs) -> (r: bool)
    ensures
        r == before(a@, b@),
{
    a.line < b.line || (a.line == b.line && a.start < b.start)
}

fn sort(v: &Vec<Abs>) -> (r: Vec<Abs>)
    ensures
        abs_view(r@) == sorted(abs_view(v@)),
{
    let ghost all = abs_view(v@);
    let mut out: Vec<Abs> = Vec::new();
    assert(abs_view(out@) =~= sorted(all.take(0)));
    for i in 0..v.len()
        invariant
            all == abs_view(v@),
            abs_view(out@) == sorted(all.take(i as int)),
    {
        let x = v[i];
        let mut p: usize = out.len();
        let ghost r = abs_view(out@);
        while p > 0 && stands_before(&x, &out[p - 1])
            invariant
                r == abs_view(out@),
                p <= out.len(),
                slot(r, r.len() as int, x@) == slot(r, p as int, x@),
            decreases p,
        {
            p = p - 1;
        }
        out.insert(p, x);
        proof {
            assert(all.take(i + 1).drop_last() =~= all.take(i as int));
            assert(all.take(i + 1).last() == x@);
            assert(abs_view(out@) =~= r.insert(p as int, x@));
        }
    }
    assert(all.take(v.len() as int) =~= all);
    out
}

// ---- encoding ----

/// A token as the protocol sends it: placed relative to the one before it.
#[derive(Clone, Copy, Debug, PartialEq, Eq, Structural)]
pub struct SemanticToken {
    pub delta_line: u32,
    pub delta_start: u32,
    pub length: u32,
    pub token_type: u32,
    pub token_modifiers_bitset: u32,
}

/// The model of [`SemanticToken`].
pub ghost struct SemanticTokenV {
    pub delta_line: int,
    pub delta_start: int,
    pub length: nat,
    pub token_type: u32,
    pub token_modifiers_bitset: u32,
}

impl View for SemanticToken {
    type V = SemanticTokenV;

    open spec fn view(&self) -> SemanticTokenV {
        SemanticTokenV {
            delta_line: self.delta_line as int,
            delta_start: self.delta_start as int,
            length: self.length as nat,
            token_type: self.token_type,
            token_modifiers_bitset: self.token_modifiers_bitset,
        }
    }
}

pub open spec fn encoded_view(v: Seq<SemanticToken>) -> Seq<SemanticTokenV> {
    Seq::new(v.len(), |i: int| v[i]@)
}

/// `a` placed relative to a token that begins at the given line and column.
pub open spec fn relative(a: AbsV, line: int, start: int) -> SemanticTokenV {
    SemanticTokenV {
        delta_line: a.line - line,
        delta_start: if a.line == line {
            a.start - start
        } else {
            a.start as int
        },
        length: a.len,
        token_type: a.ty,
        token_modifiers_bitset: a.modifiers,
    }
}

/// Where the token before the `i`-th begins; the first is relative to the beginning.
pub open spec fn place_before(s: Seq<AbsV>, i: int) -> (int, int) {
    if i <= 0 {
        (0, 0)
    } else {
        (s[i - 1].line as int, s[i - 1].start as int)
    }
}

/// Each piece placed relative to the one before it.
pub open spec fn encoded(s: Seq<AbsV>) -> Seq<SemanticTokenV> {
    Seq::new(s.len(), |i: int| relative(s[i], place_before(s, i).0, place_before(s, i).1))
}

/// The pieces that relative tokens stand for.
pub open spec fn decoded(s: Seq<SemanticTokenV>) -> Seq<AbsV>
    decreases s.len(),
{
    if s.len() == 0 {
        Seq::empty()
    } else {
        let r = decoded(s.drop_last());
        let p = place_before(r, r.len() as int);
        let t = s.last();
        r.push(
            AbsV {
                line: (p.0 + t.delta_line) as nat,
                start: (if t.delta_line == 0 {
                    p.1 + t.delta_start
                } else {
                    t.delta_start
                }) as nat,
                len: t.length,
                ty: t.token_type,
                modifiers: t.token_modifiers_bitset,
            },
        )
    }
}

/// Reading relative tokens back gives the pieces they were made from.
pub proof fn decoding_undoes_encoding(s: Seq<AbsV>)
    ensures
        decoded(encoded(s)) == s,
    decreases s.len(),
{
    if s.len() > 0 {
        let t = s.drop_last();
        decoding_undoes_encoding(t);
        assert(encoded(s).drop_last() =~= encoded(t)) by {
            assert forall|i: int| 0 <= i < t.len() implies encoded(s)[i] == encoded(t)[i] by {
                assert(place_before(s, i) == place_before(t, i));
            }
        }
        assert(place_before(s, t.len() as int) == place_before(t, t.len() as int));
        assert(decoded(encoded(s)) =~= t.push(s.last()));
        assert(s =~= t.push(s.last()));
    } else {
        assert(encoded(s) =~= Seq::empty());
        assert(decoded(encoded(s)) =~= s);
    }
}

/// Delta-encode pieces that are in order of place.
pub fn encode(abs: &Vec<Abs>) -> (r: Vec<SemanticToken>)
    requires
        in_place_order(abs_view(abs@)),
    ensures
        encoded_view(r@) == encoded(abs_view(abs@)),
{
    let ghost all = abs_view(abs@);
    let mut out: Vec<SemanticToken> = Vec::new();
    let mut prev_line: u32 = 0;
    let mut prev_start: u32 = 0;
    for i in 0..abs.len()
        invariant
            all == abs_view(abs@),
            in_place_order(all),
            out.len() == i,
            (prev_line as int, prev_start as int) == place_before(all, i as int),
            forall|j: int|
                0 <= j < i ==> (#[trigger] out[j])@ == relative(
                    all[j],
                    place_before(all, j).0,
                    place_before(all, j).1,
                ),
    {
        let a = abs[i];
        proof {
            assert(all[i as int] == a@);
            if i > 0 {
                assert(!before(all[i as int], all[i - 1]));
            }
        }
        let delta_line: u32 = a.line - prev_line;
        let delta_start: u32 = if delta_line == 0 {
            a.start - prev_start
        } else {
            a.start
        };
        out.push(
            SemanticToken {
                delta_line,
                delta_start,
                length: a.len,
                token_type: a.ty,
                token_modifiers_bitset: a.modifiers,
            },
        );
        prev_line = a.line;
        prev_start = a.start;
    }
    assert(encoded_view(out@) =~= encoded(all));
    out
}

/// The highlighted pieces of a document, in order of place; none when it has a lexical
/// error.
pub open spec fn highlighted(cs: Seq<char>, module: Option<ModuleV>) -> Seq<AbsV> {
    match lexed(cs) {
        Ok(toks) => sorted(
            token_pieces(cs, toks, toks.len() as int, declared_in(module)) + comment_pieces(
                cs,
                comments_from(cs, 0, false),
            ),
        ),
        Err(_) => Seq::empty(),
    }
}

/// Compute the document's semantic tokens, delta-encoded as the protocol requires (in
/// order of place; each token relative to the previous). `module` is the parsed
/// document, when it parses.
#[verifier::rlimit(50)]
pub fn tokens(text: &str, module: Option<&Module>) -> (r: Vec<SemanticToken>)
    requires
        byte_off(text@, text@.len() as int) < u32::MAX,
    ensures
        encoded_view(r@) == encoded(highlighted(text@, opt_module(module))),
{
    let ghost cs = text@;
    let toks = match lex(text) {
        Ok(toks) => toks,
        Err(_) => {
            let none: Vec<SemanticToken> = Vec::new();
            assert(encoded_view(none@) =~= encoded(highlighted(cs, opt_module(module))));
            return none;
        },
    };
    let ghost tv = tokens_view(toks@);
    let names = DeclaredNames::collect(module);
    let starts = line_starts(text);
    let chars = Chars::of(text);
    let mut out: Vec<Abs> = Vec::new();
    let mut prev: Option<usize> = None;
    proof {
        tokens_stand_on_characters(cs);
        assert(abs_view(out@) =~= Seq::empty());
    }
    for i in 0..toks.len()
        invariant
            chars.wf(),
            chars.cs@ == cs,
            indexes(starts@, cs),
            byte_off(cs, cs.len() as int) < u32::MAX,
            tv == tokens_view(toks@),
            all_stand_on(tv, cs),
            match prev {
                Some(p) => p < toks.len() && prev_kind(tv, i as int) == Some(tv[p as int].kind),
                None => prev_kind(tv, i as int) is None,
            },
            abs_view(out@) == token_pieces(cs, tv, i as int, names@),
    {
        assert(tv[i as int] == toks[i as int]@);
        if is_significant(&toks[i]) {
            let mut j: usize = i + 1;
            while j < toks.len() && !is_significant(&toks[j])
                invariant
                    tv == tokens_view(toks@),
                    i < j <= toks.len(),
                    next_kind(tv, i + 1) == next_kind(tv, j as int),
                decreases toks.len() - j,
            {
                assert(tv[j as int] == toks[j as int]@);
                j = j + 1;
            }
            let next: Option<&TokenKind> = if j < toks.len() {
                assert(tv[j as int] == toks[j as int]@);
                Some(&toks[j].kind)
            } else {
                None
            };
            let last: Option<&TokenKind> = match prev {
                Some(p) => {
                    assert(tv[p as int] == toks[p as int]@);
                    Some(&toks[p].kind)
                },
                None => None,
            };
            if let Some((ty, modifiers)) = classify(&toks[i].kind, last, next, &names) {
                assert(stands_on(tv[i as int], cs));
                let (a, b) = span_indices(&chars, toks[i].span);
                push_span(&mut out, &chars, &starts, a, b, ty, modifiers);
            }
            prev = Some(i);
        }
    }
    let comments = comment_spans(&chars);
    let ghost cv = pairs(comments@);
    let ghost done = abs_view(out@);
    assert(done + comment_pieces(cs, cv.take(0)) =~= done);
    for i in 0..comments.len()
        invariant
            chars.wf(),
            chars.cs@ == cs,
            indexes(starts@, cs),
            byte_off(cs, cs.len() as int) < u32::MAX,
            cv == pairs(comments@),
            forall|k: int|
                0 <= k < comments.len() ==> (#[trigger] comments[k]).0 <= comments[k].1
                    <= chars.cs.len(),
            abs_view(out@) == done + comment_pieces(cs, cv.take(i as int)),
    {
        proof {
            assert(cv.take(i + 1).drop_last() =~= cv.take(i as int));
            assert(cv.take(i + 1).last() == cv[i as int]);
        }
        let (a, b) = comments[i];
        push_span(&mut out, &chars, &starts, a, b, T_COMMENT, 0);
        assert(abs_view(out@) =~= done + comment_pieces(cs, cv.take(i + 1)));
    }
    assert(cv.take(comments.len() as int) =~= cv);
    let placed = sort(&out);
    proof {
        sorting_orders(abs_view(out@));
    }
    encode(&placed)
}

} // verus!
