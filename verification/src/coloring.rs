//! What the editor shows where: how tokens are colored, where a declaration is found, and which
//! modules a directory serves.

use vstd::prelude::*;
use crate::ast::{ExprV, MemberV, TopLevelV, TypeBodyV};
use crate::definition::{file_at, receiver_span, target_of};
use crate::document::index_at;
use crate::lexer::{at, not_newline, scan, scan_bounds};
use crate::modules::{last_dot, module_of_entry, modules_of_entries, stem_and_extension};
use crate::semantic_tokens::{builtin_type, class_of_token, comments_from, declared, ident_class, next_kind, prelude_function, prev_kind, significant, span_tokens, token_class, token_pieces, with_methods, AbsV, DeclaredV, M_DECLARATION, M_DEFAULT_LIBRARY, T_ENUM, T_FUNCTION, T_KEYWORD, T_METHOD, T_NAMESPACE, T_NUMBER, T_OPERATOR, T_PROPERTY, T_STRING, T_TYPE, T_VARIABLE};
use crate::span::Span;
use crate::spelling::{keyword_text, symbol_text};
use crate::token::{TokenKindV, TokenV};

verus! {

// ---- colors ----

/// Whether a mark only separates or encloses: it is one character, a bracket, a brace, a comma,
/// a dot or a colon.
pub open spec fn is_separator(s: Seq<char>) -> bool {
    s.len() == 1 && (s[0] == '(' || s[0] == ')' || s[0] == '[' || s[0] == ']' || s[0] == '{' || s[0]
        == '}' || s[0] == ',' || s[0] == '.' || s[0] == ':')
}

proof fn marks_revealed()
    ensures
        "=>"@.len() == 2 && "=="@.len() == 2 && "!="@.len() == 2 && "<="@.len() == 2,
        ">="@.len() == 2 && "&&"@.len() == 2 && "||"@.len() == 2 && "<<"@.len() == 2,
        ">>"@.len() == 2 && "+="@.len() == 2 && "-="@.len() == 2 && "*="@.len() == 2,
        "/="@.len() == 2 && "%="@.len() == 2 && "->"@.len() == 2,
        "+"@[0] == '+' && "-"@[0] == '-' && "*"@[0] == '*' && "/"@[0] == '/' && "%"@[0] == '%',
        "="@[0] == '=' && "<"@[0] == '<' && ">"@[0] == '>' && "!"@[0] == '!' && "&"@[0] == '&',
        "|"@[0] == '|' && "^"@[0] == '^' && "~"@[0] == '~' && "?"@[0] == '?',
        "."@ == seq!['.'] && ","@ == seq![','] && ":"@ == seq![':'],
        "("@ == seq!['('] && ")"@ == seq![')'] && "["@ == seq!['['],
        "]"@ == seq![']'] && "{"@ == seq!['{'] && "}"@ == seq!['}'],
{
    reveal_strlit("=>");
    reveal_strlit("==");
    reveal_strlit("!=");
    reveal_strlit("<=");
    reveal_strlit(">=");
    reveal_strlit("&&");
    reveal_strlit("||");
    reveal_strlit("<<");
    reveal_strlit(">>");
    reveal_strlit("+=");
    reveal_strlit("-=");
    reveal_strlit("*=");
    reveal_strlit("/=");
    reveal_strlit("%=");
    reveal_strlit("->");
    reveal_strlit("+");
    reveal_strlit("-");
    reveal_strlit("*");
    reveal_strlit("/");
    reveal_strlit("%");
    reveal_strlit("=");
    reveal_strlit("<");
    reveal_strlit(">");
    reveal_strlit("!");
    reveal_strlit("&");
    reveal_strlit("|");
    reveal_strlit("^");
    reveal_strlit("~");
    reveal_strlit("?");
    reveal_strlit(".");
    reveal_strlit(",");
    reveal_strlit(":");
    reveal_strlit("(");
    reveal_strlit(")");
    reveal_strlit("[");
    reveal_strlit("]");
    reveal_strlit("{");
    reveal_strlit("}");
    assert("."@ =~= seq!['.']);
    assert(","@ =~= seq![',']);
    assert(":"@ =~= seq![':']);
    assert("("@ =~= seq!['(']);
    assert(")"@ =~= seq![')']);
    assert("["@ =~= seq!['[']);
    assert("]"@ =~= seq![']']);
    assert("{"@ =~= seq!['{']);
    assert("}"@ =~= seq!['}']);
}

/// A token is colored by what it is spelled as: a keyword as one, a mark as an operator unless
/// it only separates, and a number and a string as such. Nothing else but a name is colored.
pub proof fn colors_go_by_spelling(
    k: TokenKindV,
    prev: Option<TokenKindV>,
    next: Option<TokenKindV>,
    d: DeclaredV,
)
    ensures
        keyword_text(k) is Some ==> class_of_token(k, prev, next, d) == Some((T_KEYWORD, 0u32)),
        symbol_text(k) matches Some(s) ==> class_of_token(k, prev, next, d) == (if is_separator(
            s,
        ) {
            None
        } else {
            Some((T_OPERATOR, 0u32))
        }),
        k is Int || k is Float ==> class_of_token(k, prev, next, d) == Some((T_NUMBER, 0u32)),
        k is Str ==> class_of_token(k, prev, next, d) == Some((T_STRING, 0u32)),
        k is Ident ==> class_of_token(k, prev, next, d) is Some,
        k is Newline || k is Eof ==> class_of_token(k, prev, next, d) is None,
{
    marks_revealed();
}

/// A name is colored by where it stands: behind `fun` and `type` as what is declared, behind a
/// dot as a member, and elsewhere as what the document declares it to be.
pub proof fn names_are_colored_by_place(
    name: Seq<char>,
    prev: Option<TokenKindV>,
    next: Option<TokenKindV>,
    d: DeclaredV,
)
    ensures
        ({
            let (ty, modifiers) = ident_class(name, prev, next, d);
            let called = next == Some(TokenKindV::LParen);
            let elsewhere = prev != Some(TokenKindV::Fun) && prev != Some(TokenKindV::Type) && prev
                != Some(TokenKindV::Dot) && prev != Some(TokenKindV::Import);
            &&& (modifiers == M_DECLARATION) == (prev == Some(TokenKindV::Fun) || prev == Some(
                TokenKindV::Type,
            ))
            &&& prev == Some(TokenKindV::Fun) ==> ty == T_FUNCTION
            &&& prev == Some(TokenKindV::Type) ==> ty == (if d.sum_types.contains(name) {
                T_ENUM
            } else {
                T_TYPE
            })
            &&& (ty == T_METHOD) == (prev == Some(TokenKindV::Dot) && called)
            &&& (ty == T_PROPERTY) == (prev == Some(TokenKindV::Dot) && !called)
            &&& (ty == T_NAMESPACE) == (prev == Some(TokenKindV::Import))
            &&& elsewhere && d.sum_types.contains(name) ==> ty == T_ENUM || (ty == T_FUNCTION
                && called)
            &&& elsewhere && d.types.contains(name) && !called ==> ty == T_ENUM || ty == T_TYPE
            &&& elsewhere && d.functions.contains(name) ==> ty != T_VARIABLE
            &&& elsewhere && called ==> ty != T_VARIABLE
            &&& elsewhere && called && !builtin_type(name) ==> ty == T_FUNCTION
            &&& elsewhere && builtin_type(name) ==> ty == T_TYPE || d.sum_types.contains(name)
            &&& modifiers == M_DEFAULT_LIBRARY ==> (builtin_type(name) || prelude_function(name))
                && !d.types.contains(name)
            &&& elsewhere && !called && !d.types.contains(name) && !d.sum_types.contains(name)
                && !d.functions.contains(name) && !builtin_type(name) && !prelude_function(name)
                ==> ty == (if prev == Some(TokenKindV::Colon) || prev == Some(TokenKindV::Arrow) {
                T_TYPE
            } else {
                T_VARIABLE
            })
        }),
{
}

/// Whether one of some members is a method of the name.
pub open spec fn has_method(ms: Seq<MemberV>, n: Seq<char>) -> bool {
    exists|i: int| 0 <= i < ms.len() && (#[trigger] ms[i] matches MemberV::Method(m) && m.name == n)
}

proof fn methods_counted(fs: Set<Seq<char>>, ms: Seq<MemberV>, n: Seq<char>)
    ensures
        with_methods(fs, ms).contains(n) == (fs.contains(n) || has_method(ms, n)),
    decreases ms.len(),
{
    if ms.len() > 0 {
        let front = ms.drop_last();
        methods_counted(fs, front, n);
        assert(ms[ms.len() - 1] == ms.last());
        if has_method(front, n) {
            let i = choose|i: int|
                0 <= i < front.len() && (#[trigger] front[i] matches MemberV::Method(m) && m.name
                    == n);
            assert(ms[i] == front[i]);
        }
        if has_method(ms, n) {
            let i = choose|i: int|
                0 <= i < ms.len() && (#[trigger] ms[i] matches MemberV::Method(m) && m.name == n);
            if i < front.len() {
                assert(front[i] == ms[i]);
            }
        }
    }
}

/// Whether a declaration declares a type of the name.
pub open spec fn declares_type(x: TopLevelV, n: Seq<char>) -> bool {
    x matches TopLevelV::Type(t) && t.name == n
}

/// Whether a declaration declares a sum of the name.
pub open spec fn declares_sum(x: TopLevelV, n: Seq<char>) -> bool {
    x matches TopLevelV::Type(t) && t.name == n && t.body is Sum
}

/// Whether a declaration declares a function of the name, or a record with a method of the
/// name.
pub open spec fn declares_function(x: TopLevelV, n: Seq<char>) -> bool {
    match x {
        TopLevelV::Fun(f) => f.name == n,
        TopLevelV::Type(t) => t.body matches TypeBodyV::Record(ms) && has_method(ms, n),
        TopLevelV::Stmt(_) => false,
    }
}

/// The names that a document declares are exactly those of its declarations.
pub proof fn declared_names_are_known(items: Seq<TopLevelV>, n: Seq<char>)
    ensures
        declared(items).types.contains(n) <==> exists|i: int|
            0 <= i < items.len() && declares_type(#[trigger] items[i], n),
        declared(items).sum_types.contains(n) <==> exists|i: int|
            0 <= i < items.len() && declares_sum(#[trigger] items[i], n),
        declared(items).functions.contains(n) <==> exists|i: int|
            0 <= i < items.len() && declares_function(#[trigger] items[i], n),
    decreases items.len(),
{
    if items.len() > 0 {
        let front = items.drop_last();
        declared_names_are_known(front, n);
        assert(items[items.len() - 1] == items.last());
        if let TopLevelV::Type(t) = items.last() {
            if let TypeBodyV::Record(ms) = t.body {
                methods_counted(declared(front).functions, ms, n);
            }
        }
        assert forall|i: int| 0 <= i < front.len() implies items[i] == #[trigger] front[i] by {}
        if exists|i: int| 0 <= i < front.len() && declares_type(#[trigger] front[i], n) {
            let i = choose|i: int| 0 <= i < front.len() && declares_type(#[trigger] front[i], n);
            assert(declares_type(items[i], n));
        }
        if exists|i: int| 0 <= i < items.len() && declares_type(#[trigger] items[i], n) {
            let i = choose|i: int| 0 <= i < items.len() && declares_type(#[trigger] items[i], n);
            if i < front.len() {
                assert(declares_type(front[i], n));
            }
        }
        if exists|i: int| 0 <= i < front.len() && declares_sum(#[trigger] front[i], n) {
            let i = choose|i: int| 0 <= i < front.len() && declares_sum(#[trigger] front[i], n);
            assert(declares_sum(items[i], n));
        }
        if exists|i: int| 0 <= i < items.len() && declares_sum(#[trigger] items[i], n) {
            let i = choose|i: int| 0 <= i < items.len() && declares_sum(#[trigger] items[i], n);
            if i < front.len() {
                assert(declares_sum(front[i], n));
            }
        }
        if exists|i: int| 0 <= i < front.len() && declares_function(#[trigger] front[i], n) {
            let i = choose|i: int| 0 <= i < front.len() && declares_function(#[trigger] front[i], n);
            assert(declares_function(items[i], n));
        }
        if exists|i: int| 0 <= i < items.len() && declares_function(#[trigger] items[i], n) {
            let i = choose|i: int| 0 <= i < items.len() && declares_function(#[trigger] items[i], n);
            if i < front.len() {
                assert(declares_function(front[i], n));
            }
        }
    }
}

/// What stands before a token is the nearest token there that is no line break, and what
/// stands behind it likewise.
pub proof fn neighbors_are_near(toks: Seq<TokenV>, i: int)
    requires
        0 <= i <= toks.len(),
    ensures
        match prev_kind(toks, i) {
            Some(k) => exists|j: int|
                0 <= j < i && significant(#[trigger] toks[j]) && toks[j].kind == k && forall|x: int|
                    j < x < i ==> !significant(#[trigger] toks[x]),
            None => forall|x: int| 0 <= x < i ==> !significant(#[trigger] toks[x]),
        },
        match next_kind(toks, i) {
            Some(k) => exists|j: int|
                i <= j < toks.len() && significant(#[trigger] toks[j]) && toks[j].kind == k
                    && forall|x: int| i <= x < j ==> !significant(#[trigger] toks[x]),
            None => forall|x: int| i <= x < toks.len() ==> !significant(#[trigger] toks[x]),
        },
{
    before_is_near(toks, i);
    behind_is_near(toks, i);
}

proof fn before_is_near(toks: Seq<TokenV>, i: int)
    requires
        0 <= i <= toks.len(),
    ensures
        match prev_kind(toks, i) {
            Some(k) => exists|j: int|
                0 <= j < i && significant(#[trigger] toks[j]) && toks[j].kind == k && forall|x: int|
                    j < x < i ==> !significant(#[trigger] toks[x]),
            None => forall|x: int| 0 <= x < i ==> !significant(#[trigger] toks[x]),
        },
    decreases i,
{
    if i > 0 && !significant(toks[i - 1]) {
        before_is_near(toks, i - 1);
        if let Some(k) = prev_kind(toks, i) {
            let j = choose|j: int|
                0 <= j < i - 1 && significant(#[trigger] toks[j]) && toks[j].kind == k && forall|
                    x: int,
                |
                    j < x < i - 1 ==> !significant(#[trigger] toks[x]);
            assert(significant(toks[j]));
        }
    } else if i > 0 {
        assert(significant(toks[i - 1]));
    }
}

proof fn behind_is_near(toks: Seq<TokenV>, i: int)
    requires
        0 <= i <= toks.len(),
    ensures
        match next_kind(toks, i) {
            Some(k) => exists|j: int|
                i <= j < toks.len() && significant(#[trigger] toks[j]) && toks[j].kind == k
                    && forall|x: int| i <= x < j ==> !significant(#[trigger] toks[x]),
            None => forall|x: int| i <= x < toks.len() ==> !significant(#[trigger] toks[x]),
        },
    decreases toks.len() - i,
{
    if i < toks.len() && !significant(toks[i]) {
        behind_is_near(toks, i + 1);
        if let Some(k) = next_kind(toks, i) {
            let j = choose|j: int|
                i + 1 <= j < toks.len() && significant(#[trigger] toks[j]) && toks[j].kind == k
                    && forall|x: int| i + 1 <= x < j ==> !significant(#[trigger] toks[x]);
            assert(significant(toks[j]));
        }
    } else if i < toks.len() {
        assert(significant(toks[i]));
    }
}

/// Every token that has a color is colored where it stands.
pub proof fn colored_tokens_are_shown(
    cs: Seq<char>,
    toks: Seq<TokenV>,
    n: int,
    d: DeclaredV,
    i: int,
    z: AbsV,
)
    requires
        0 <= i < n <= toks.len(),
        token_class(toks, i, d) matches Some((ty, m)) && span_tokens(
            cs,
            index_at(cs, toks[i].span.lo as int),
            index_at(cs, toks[i].span.hi as int),
            ty,
            m,
        ).contains(z),
    ensures
        token_pieces(cs, toks, n, d).contains(z),
    decreases n,
{
    let before = token_pieces(cs, toks, n - 1, d);
    let all = token_pieces(cs, toks, n, d);
    if i < n - 1 {
        colored_tokens_are_shown(cs, toks, n - 1, d, i, z);
        let k = choose|k: int| 0 <= k < before.len() && before[k] == z;
        assert(all[k] == z);
    } else {
        if let Some((ty, m)) = token_class(toks, i, d) {
            let here = span_tokens(
                cs,
                index_at(cs, toks[i].span.lo as int),
                index_at(cs, toks[i].span.hi as int),
                ty,
                m,
            );
            let k = choose|k: int| 0 <= k < here.len() && here[k] == z;
            assert(all[before.len() + k] == z);
        }
    }
}

proof fn line_stops(cs: Seq<char>, i: int)
    requires
        0 <= i <= cs.len(),
    ensures
        i <= scan(cs, i, not_newline()) <= cs.len(),
        forall|k: int| i <= k < scan(cs, i, not_newline()) ==> #[trigger] cs[k] != '\n',
        scan(cs, i, not_newline()) < cs.len() ==> cs[scan(cs, i, not_newline())] == '\n',
    decreases cs.len() - i,
{
    scan_bounds(cs, i, not_newline());
    if i < cs.len() && cs[i] != '\n' {
        assert(not_newline()(cs[i]));
        line_stops(cs, i + 1);
    } else if i < cs.len() {
        assert(!not_newline()(cs[i]));
    }
}

/// Whether a stretch of a text is a line comment: it begins with `//` and ends with its line.
pub open spec fn is_line_comment(cs: Seq<char>, a: int, b: int) -> bool {
    &&& 0 <= a && a + 2 <= b <= cs.len()
    &&& cs[a] == '/' && cs[a + 1] == '/'
    &&& forall|k: int| a <= k < b ==> #[trigger] cs[k] != '\n'
    &&& b < cs.len() ==> cs[b] == '\n'
}

/// What is shown as a comment is one, up to the end of its line.
pub proof fn shown_comments_are_comments(cs: Seq<char>, i: int, in_string: bool, k: int)
    requires
        0 <= i,
        0 <= k < comments_from(cs, i, in_string).len(),
    ensures
        ({
            let c = comments_from(cs, i, in_string)[k];
            i <= c.0 && is_line_comment(cs, c.0, c.1)
        }),
    decreases cs.len() + 1 - i,
{
    if i < cs.len() {
        if in_string {
            if cs[i] == '\\' {
                shown_comments_are_comments(cs, i + 2, true, k);
            } else {
                shown_comments_are_comments(cs, i + 1, cs[i] != '"', k);
            }
        } else if cs[i] == '"' {
            shown_comments_are_comments(cs, i + 1, true, k);
        } else if cs[i] == '/' && at(cs, i + 1) == Some('/') {
            let j = scan(cs, i, not_newline());
            line_stops(cs, i);
            scan_bounds(cs, i, not_newline());
            assert(j >= i + 2) by {
                assert(not_newline()(cs[i]) && not_newline()(cs[i + 1]));
                scan_bounds(cs, i + 1, not_newline());
                assert(scan(cs, i, not_newline()) == scan(cs, i + 1, not_newline()));
            }
            if k > 0 {
                assert(comments_from(cs, i, false)[k] == comments_from(cs, j, false)[k - 1]);
                shown_comments_are_comments(cs, j, false, k - 1);
            }
        } else {
            shown_comments_are_comments(cs, i + 1, false, k);
        }
    }
}

/// In a text without strings, everything behind `//` on its line is shown as a comment.
pub proof fn comments_are_shown(cs: Seq<char>, i: int, p: int)
    requires
        0 <= i <= p,
        p + 1 < cs.len(),
        cs[p] == '/' && cs[p + 1] == '/',
        forall|k: int| i <= k < cs.len() ==> #[trigger] cs[k] != '"',
    ensures
        exists|k: int|
            0 <= k < comments_from(cs, i, false).len() && (#[trigger] comments_from(
                cs,
                i,
                false,
            )[k]).0 <= p < comments_from(cs, i, false)[k].1,
    decreases cs.len() - i,
{
    let all = comments_from(cs, i, false);
    assert(cs[i] != '"');
    if cs[i] == '/' && at(cs, i + 1) == Some('/') {
        let j = scan(cs, i, not_newline());
        line_stops(cs, i);
        scan_bounds(cs, i, not_newline());
        assert(not_newline()(cs[i]));
        let rest = comments_from(cs, j, false);
        if p < j {
            assert(all[0] == (i, j));
        } else {
            comments_are_shown(cs, j, p);
            let k = choose|k: int| 0 <= k < rest.len() && (#[trigger] rest[k]).0 <= p < rest[k].1;
            assert(all[k + 1] == rest[k]);
        }
    } else {
        assert(i < p) by {
            if i == p {
                assert(at(cs, i + 1) == Some('/'));
            }
        }
        comments_are_shown(cs, i + 1, p);
    }
}

// ---- declarations ----

/// A place lies in the last file that begins at or before it.
pub proof fn files_hold_their_places(bases: Seq<usize>, n: int, off: int)
    requires
        0 <= n <= bases.len(),
    ensures
        match file_at(bases, n, off) {
            Some(i) => 0 <= i < n && bases[i] <= off && forall|j: int|
                i < j < n ==> #[trigger] bases[j] > off,
            None => forall|j: int| 0 <= j < n ==> #[trigger] bases[j] > off,
        },
    decreases n,
{
    if n > 0 {
        files_hold_their_places(bases, n - 1, off);
    }
}

/// What a span stands for is as long as the span, and begins as far behind the beginning of
/// its file; there is nothing only in a file that cannot be opened or before every file.
pub proof fn targets_are_in_their_file(bases: Seq<usize>, openable: Seq<bool>, span: Span)
    requires
        bases.len() == openable.len(),
        bases.len() <= usize::MAX,
        span.lo <= span.hi,
    ensures
        match target_of(bases, openable, span) {
            Some(t) => t.file < bases.len() && openable[t.file as int] && bases[t.file as int] + t.lo
                == span.lo && bases[t.file as int] + t.hi == span.hi && forall|j: int|
                t.file < j < bases.len() ==> #[trigger] bases[j] > span.lo,
            None => (forall|j: int| 0 <= j < bases.len() ==> #[trigger] bases[j] > span.lo) || (exists|
                i: int,
            |
                0 <= i < bases.len() && #[trigger] bases[i] <= span.lo && !openable[i]),
        },
{
    files_hold_their_places(bases, bases.len() as int, span.lo as int);
}

/// The receiver of a field access is that of the last one with its span.
pub proof fn receivers_are_found(xs: Seq<ExprV>, n: int, span: Span)
    requires
        0 <= n <= xs.len(),
    ensures
        match receiver_span(xs, n, span) {
            Some(r) => exists|i: int|
                0 <= i < n && (#[trigger] xs[i] matches ExprV::Field(recv, _, s) && s == span
                    && recv.span() == r) && forall|j: int|
                    i < j < n ==> !(#[trigger] xs[j] matches ExprV::Field(_, _, s) && s == span),
            None => forall|j: int|
                0 <= j < n ==> !(#[trigger] xs[j] matches ExprV::Field(_, _, s) && s == span),
        },
    decreases n,
{
    if n > 0 {
        receivers_are_found(xs, n - 1, span);
        let hit = xs[n - 1] matches ExprV::Field(_, _, s) && s == span;
        if hit {
            assert(xs[n - 1] is Field);
        } else if let Some(r) = receiver_span(xs, n - 1, span) {
            let i = choose|i: int|
                0 <= i < n - 1 && (#[trigger] xs[i] matches ExprV::Field(recv, _, s) && s == span
                    && recv.span() == r) && forall|j: int|
                    i < j < n - 1 ==> !(#[trigger] xs[j] matches ExprV::Field(_, _, s) && s
                        == span);
            assert(xs[i] is Field);
        }
    }
}

// ---- modules of a directory ----

proof fn dot_found(name: Seq<char>, d: int)
    requires
        0 <= d < name.len(),
        name[d] == '.',
        forall|i: int| d < i < name.len() ==> #[trigger] name[i] != '.',
    ensures
        last_dot(name) == d,
    decreases name.len(),
{
    if d < name.len() - 1 {
        assert(name[name.len() - 1] != '.');
        let front = name.drop_last();
        assert forall|i: int| d < i < front.len() implies #[trigger] front[i] != '.' by {
            assert(front[i] == name[i]);
        }
        dot_found(front, d);
    }
}

proof fn no_dot(name: Seq<char>)
    ensures
        last_dot(name) < name.len(),
        last_dot(name) >= 0 ==> name[last_dot(name)] == '.',
        forall|i: int| last_dot(name) < i < name.len() ==> #[trigger] name[i] != '.',
        last_dot(name) >= -1,
    decreases name.len(),
{
    if name.len() > 0 && name.last() != '.' {
        let front = name.drop_last();
        no_dot(front);
        assert forall|i: int| last_dot(name) < i < name.len() implies #[trigger] name[i] != '.' by {
            if i < front.len() {
                assert(front[i] == name[i]);
            }
        }
    }
}

/// The name of a file is its stem, a dot and its extension, in which there is no dot; it has
/// none where its only dots come first or there is none.
pub proof fn file_names_come_apart(name: Seq<char>)
    ensures
        match stem_and_extension(name) {
            Some((stem, ext)) => name == stem + seq!['.'] + ext && stem.len() > 0 && !ext.contains(
                '.',
            ),
            None => forall|i: int| 0 < i < name.len() ==> #[trigger] name[i] != '.',
        },
{
    no_dot(name);
    let d = last_dot(name);
    if d > 0 {
        assert(name =~= name.take(d) + seq!['.'] + name.skip(d + 1));
        let ext = name.skip(d + 1);
        if ext.contains('.') {
            let i = choose|i: int| 0 <= i < ext.len() && ext[i] == '.';
            assert(name[d + 1 + i] == '.');
        }
    }
}

/// A stem and an extension without a dot come apart again.
pub proof fn file_names_are_put_together(stem: Seq<char>, ext: Seq<char>)
    requires
        stem.len() > 0,
        !ext.contains('.'),
    ensures
        stem_and_extension(stem + seq!['.'] + ext) == Some((stem, ext)),
{
    let name = stem + seq!['.'] + ext;
    let d = stem.len() as int;
    assert forall|i: int| d < i < name.len() implies #[trigger] name[i] != '.' by {
        assert(name[i] == ext[i - d - 1]);
        assert(ext.contains(ext[i - d - 1]));
    }
    dot_found(name, d);
    assert(name.take(d) =~= stem);
    assert(name.skip(d + 1) =~= ext);
}

/// A directory serves itself, a source file its stem unless that is left out, and a library
/// what stands between the platform's prefix and extension.
pub proof fn entries_serve_modules(
    m: Seq<char>,
    exclude: Option<Seq<char>>,
    prefix: Seq<char>,
    ext: Seq<char>,
)
    requires
        m.len() > 0,
        !ext.contains('.'),
        ext != "pp"@,
    ensures
        module_of_entry(m, true, exclude, prefix, ext) == Some(m),
        module_of_entry(m + seq!['.'] + "pp"@, false, exclude, prefix, ext) == (if exclude == Some(
            m,
        ) {
            None
        } else {
            Some(m)
        }),
        module_of_entry(prefix + m + seq!['.'] + ext, false, exclude, prefix, ext) == Some(m),
{
    reveal_strlit("pp");
    assert(!"pp"@.contains('.'));
    file_names_are_put_together(m, "pp"@);
    file_names_are_put_together(prefix + m, ext);
    assert((prefix + m).take(prefix.len() as int) =~= prefix);
    assert((prefix + m).skip(prefix.len() as int) =~= m);
}

/// The module that an entry serves.
pub open spec fn served_by(x: (Seq<char>, bool), exclude: Option<Seq<char>>, prefix: Seq<char>, extension: Seq<char>) -> Option<Seq<char>> {
    module_of_entry(x.0, x.1, exclude, prefix, extension)
}

/// The modules of a directory are exactly those that its entries serve.
pub proof fn directories_serve_their_entries(ss: Seq<(Seq<char>, bool)>, exclude: Option<Seq<char>>, prefix: Seq<char>, extension: Seq<char>, z: Seq<char>)
    ensures
        modules_of_entries(ss, exclude, prefix, extension).contains(z) <==> exists|i: int|
            0 <= i < ss.len() && #[trigger] served_by(ss[i], exclude, prefix, extension) == Some(z),
    decreases ss.len(),
{
    let all = modules_of_entries(ss, exclude, prefix, extension);
    if ss.len() > 0 {
        let front = ss.drop_last();
        let rest = modules_of_entries(front, exclude, prefix, extension);
        directories_serve_their_entries(front, exclude, prefix, extension, z);
        assert(ss[ss.len() - 1] == ss.last());
        if rest.contains(z) {
            let k = choose|k: int| 0 <= k < rest.len() && rest[k] == z;
            assert(all[k] == z);
            let i = choose|i: int| 0 <= i < front.len() && #[trigger] served_by(front[i], exclude, prefix, extension) == Some(z);
            assert(served_by(ss[i], exclude, prefix, extension) == Some(z));
        } else if all.contains(z) {
            let k = choose|k: int| 0 <= k < all.len() && all[k] == z;
            if k < rest.len() {
                assert(rest[k] == z);
            }
            assert(served_by(ss[ss.len() - 1], exclude, prefix, extension) == Some(z));
        }
        if exists|i: int| 0 <= i < ss.len() && #[trigger] served_by(ss[i], exclude, prefix, extension) == Some(z) {
            let i = choose|i: int| 0 <= i < ss.len() && #[trigger] served_by(ss[i], exclude, prefix, extension) == Some(z);
            if i < front.len() {
                assert(served_by(front[i], exclude, prefix, extension) == Some(z));
            } else {
                assert(all[all.len() - 1] == z);
            }
        }
    }
}

} // verus!
