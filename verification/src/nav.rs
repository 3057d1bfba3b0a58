//! Shared lookups of the position-driven features: the identifier under the cursor, the
//! tightest typed expression at an offset, and the types of bindings, parameters and
//! returns recovered from what the checker recorded.

use vstd::prelude::*;
use std::collections::HashMap;
use crate::analysis::FullAnalysis;
use crate::ast::{args_view, expr_view, members_view, params_view, stmts_view, top_levels_view, variants_view, Arg, ArgV, Block, BlockV, Expr, ExprV, Member, MemberV, Module, Param, ParamV, Pattern, PatternV, Stmt, StmtV, TopLevel, TopLevelV, TypeBody, TypeBodyV, Variant, VariantV};
use crate::hir::FunInfo;
use crate::lexer::{lex, lexed, LexErrorV};
use crate::offsets::byte_off;
use crate::span::{span_contains, Span};
use crate::text::str_eq;
use crate::token::{tokens_view, TokenKind, TokenKindV, TokenV};
use crate::traverse::{expr_refs, push_stmt_exprs, push_stmts_exprs, stmt_exprs, stmt_refs, stmts_exprs};
use crate::typed::{TypedExpr, TypedExprKind, TypedExprKindV, TypedExprV};
use crate::table::lookup;
use crate::types::{bindings, clone_type, opt_type, same_type, types_view, Substitution, Type, TypeV};
use crate::tree::{all_tree_stmts, tree_stmts};

verus! {

/// Whether `off` lies in `span`, both ends included.
pub fn contains(span: Span, off: usize) -> (r: bool)
    ensures
        r == span_contains(span, off as int),
{
    span.lo <= off && off <= span.hi
}

/// Whether `inner` lies in `outer`.
pub open spec fn span_within(outer: Span, inner: Span) -> bool {
    outer.lo <= inner.lo && inner.hi <= outer.hi
}

fn within(outer: Span, inner: Span) -> (r: bool)
    ensures
        r == span_within(outer, inner),
{
    inner.lo >= outer.lo && inner.hi <= outer.hi
}

// ---- identifiers ----

/// The first identifier among the tokens from `i` on that holds offset `off`.
pub open spec fn ident_from(toks: Seq<TokenV>, i: int, off: int) -> Option<(Seq<char>, Span)>
    decreases toks.len() - i,
{
    if !(0 <= i < toks.len()) {
        None
    } else {
        match toks[i].kind {
            TokenKindV::Ident(name) if span_contains(toks[i].span, off) => Some(
                (name, toks[i].span),
            ),
            _ => ident_from(toks, i + 1, off),
        }
    }
}

/// The identifier at an offset of a text; none in a text with a lexical error.
pub open spec fn ident_in(cs: Seq<char>, off: int) -> Option<(Seq<char>, Span)> {
    match lexed(cs) {
        Ok(toks) => ident_from(toks, 0, off),
        Err(_) => None,
    }
}

/// The model of an optional name with its span.
pub open spec fn opt_ident(o: Option<(String, Span)>) -> Option<(Seq<char>, Span)> {
    match o {
        Some(p) => Some((p.0@, p.1)),
        None => None,
    }
}

/// The identifier token containing offset `off`, with its span. Used to know what
/// symbol the cursor is on.
pub fn ident_at(text: &str, off: usize) -> (r: Option<(String, Span)>)
    requires
        byte_off(text@, text@.len() as int) < usize::MAX,
    ensures
        opt_ident(r) == ident_in(text@, off as int),
{
    let toks = match lex(text) {
        Ok(toks) => toks,
        Err(_) => {
            return None;
        },
    };
    let ghost tv = tokens_view(toks@);
    let mut i: usize = 0;
    while i < toks.len()
        invariant
            tv == tokens_view(toks@),
            lexed(text@) == Ok::<Seq<TokenV>, LexErrorV>(tv),
            i <= toks.len(),
            ident_from(tv, 0, off as int) == ident_from(tv, i as int, off as int),
        decreases toks.len() - i,
    {
        assert(tv[i as int] == toks[i as int]@);
        if let TokenKind::Ident(name) = &toks[i].kind {
            if contains(toks[i].span, off) {
                return Some((name.clone(), toks[i].span));
            }
        }
        i = i + 1;
    }
    None
}

// ---- typed expressions ----

/// The width of a span that is not reversed.
pub open spec fn width(s: Span) -> int {
    s.hi - s.lo
}

/// Among the first `n` recorded expressions, the first of the narrowest that hold `off`
/// (only calls, with `calls`).
pub open spec fn tightest(es: Seq<TypedExprV>, n: int, off: int, calls: bool) -> Option<int>
    decreases n,
{
    if n <= 0 {
        None
    } else {
        let best = tightest(es, n - 1, off, calls);
        let e = es[n - 1];
        if span_contains(e.span, off) && (!calls || e.kind is Call) && (match best {
            Some(b) => width(e.span) < width(es[b].span),
            None => true,
        }) {
            Some(n - 1)
        } else {
            best
        }
    }
}

/// The expression an optional position stands for.
pub open spec fn picked(es: Seq<TypedExprV>, at: Option<int>) -> Option<TypedExprV> {
    match at {
        Some(i) => Some(es[i]),
        None => None,
    }
}

/// The model of an optional borrowed typed expression.
pub open spec fn opt_typed(o: Option<&TypedExpr>) -> Option<TypedExprV> {
    match o {
        Some(e) => Some(e@),
        None => None,
    }
}

fn find_tightest<'a>(es: &'a Vec<TypedExpr>, off: usize, calls: bool) -> (r: Option<&'a TypedExpr>)
    ensures
        opt_typed(r) == picked(
            Seq::new(es@.len(), |i: int| es@[i]@),
            tightest(Seq::new(es@.len(), |i: int| es@[i]@), es@.len() as int, off as int, calls),
        ),
{
    let ghost ev = Seq::new(es@.len(), |i: int| es@[i]@);
    let mut best: Option<usize> = None;
    for i in 0..es.len()
        invariant
            ev == Seq::new(es@.len(), |i: int| es@[i]@),
            match best {
                Some(b) => b < i && span_contains(es[b as int].span, off as int) && tightest(
                    ev,
                    i as int,
                    off as int,
                    calls,
                ) == Some(b as int),
                None => tightest(ev, i as int, off as int, calls) is None,
            },
    {
        let e = &es[i];
        assert(ev[i as int] == e@);
        let is_call = match &e.kind {
            TypedExprKind::Call => true,
            _ => false,
        };
        if contains(e.span, off) && (!calls || is_call) {
            let closer = match best {
                Some(b) => e.span.hi - e.span.lo < es[b].span.hi - es[b].span.lo,
                None => true,
            };
            if closer {
                best = Some(i);
            }
        }
    }
    match best {
        Some(b) => Some(&es[b]),
        None => None,
    }
}

/// The smallest typed expression at a global offset.
pub open spec fn smallest_at(es: Seq<TypedExprV>, off: int) -> Option<TypedExprV> {
    picked(es, tightest(es, es.len() as int, off, false))
}

/// The innermost call expression at a global offset.
pub open spec fn smallest_call_at(es: Seq<TypedExprV>, off: int) -> Option<TypedExprV> {
    picked(es, tightest(es, es.len() as int, off, true))
}

/// The smallest typed expression whose global span contains `global_off`.
pub fn smallest_typed_at(full: &FullAnalysis, global_off: usize) -> (r: Option<&TypedExpr>)
    ensures
        opt_typed(r) == smallest_at(full.typed@, global_off as int),
{
    find_tightest(&full.typed.expressions, global_off, false)
}

/// The innermost call expression covering `global`: its span locates the call's
/// arguments and its type is what the call returns.
pub fn enclosing_call(full: &FullAnalysis, global: usize) -> (r: Option<&TypedExpr>)
    ensures
        opt_typed(r) == smallest_call_at(full.typed@, global as int),
{
    find_tightest(&full.typed.expressions, global, true)
}

/// Nothing narrower than the tightest expression holds the offset, and there is one
/// whenever some expression does.
pub proof fn tightest_is_narrowest(es: Seq<TypedExprV>, n: int, off: int, calls: bool, i: int)
    requires
        0 <= i < n <= es.len(),
        span_contains(es[i].span, off),
        !calls || es[i].kind is Call,
    ensures
        tightest(es, n, off, calls) matches Some(b) && 0 <= b < n && span_contains(
            es[b].span,
            off,
        ) && width(es[b].span) <= width(es[i].span),
    decreases n,
{
    tightest_facts(es, n - 1, off, calls);
    if i < n - 1 {
        tightest_is_narrowest(es, n - 1, off, calls, i);
    }
}

proof fn tightest_facts(es: Seq<TypedExprV>, n: int, off: int, calls: bool)
    requires
        0 <= n <= es.len(),
    ensures
        tightest(es, n, off, calls) matches Some(b) ==> 0 <= b < n && span_contains(
            es[b].span,
            off,
        ),
    decreases n,
{
    if n > 0 {
        tightest_facts(es, n - 1, off, calls);
    }
}

/// The first recorded expression from `i` on with span `span` (only calls, with
/// `calls`).
pub open spec fn with_span(es: Seq<TypedExprV>, i: int, span: Span, calls: bool) -> Option<
    TypedExprV,
>
    decreases es.len() - i,
{
    if !(0 <= i < es.len()) {
        None
    } else if es[i].span == span && (!calls || es[i].kind is Call) {
        Some(es[i])
    } else {
        with_span(es, i + 1, span, calls)
    }
}

/// The first recorded expression with the given span.
pub fn typed_at_span(full: &FullAnalysis, span: Span, calls: bool) -> (r: Option<&TypedExpr>)
    ensures
        opt_typed(r) == with_span(full.typed@, 0, span, calls),
{
    let es = &full.typed.expressions;
    let ghost ev = full.typed@;
    let mut i: usize = 0;
    while i < es.len()
        invariant
            ev == full.typed@,
            *es == full.typed.expressions,
            i <= es.len(),
            with_span(ev, 0, span, calls) == with_span(ev, i as int, span, calls),
        decreases es.len() - i,
    {
        assert(ev[i as int] == es[i as int]@);
        let is_call = match &es[i].kind {
            TypedExprKind::Call => true,
            _ => false,
        };
        if es[i].span == span && (!calls || is_call) {
            return Some(&es[i]);
        }
        i = i + 1;
    }
    None
}

/// Whether a recorded expression is a use of `name` inside `body`.
pub open spec fn uses_name(e: TypedExprV, name: Seq<char>, body: Span) -> bool {
    e.kind == TypedExprKindV::Ident(name) && span_within(body, e.span)
}

fn is_use(e: &TypedExpr, name: &str, body: Span) -> (r: bool)
    ensures
        r == uses_name(e@, name@, body),
{
    match &e.kind {
        TypedExprKind::Ident(n) => str_eq(n.as_str(), name) && within(body, e.span),
        _ => false,
    }
}

// ---- the function around an offset ----

/// The parameters and body of the method among `ms` that holds `off`: by its whole
/// declaration, or by its body.
pub open spec fn method_around(ms: Seq<MemberV>, off: int, whole: bool) -> Option<
    (Seq<ParamV>, BlockV),
>
    decreases ms.len(),
{
    if ms.len() == 0 {
        None
    } else {
        match method_around(ms.drop_last(), off, whole) {
            Some(r) => Some(r),
            None => match ms.last() {
                MemberV::Method(m) => match m.body {
                    Some(b) if span_contains(
                        if whole {
                            m.span
                        } else {
                            b.span
                        },
                        off,
                    ) => Some((m.params, b)),
                    _ => None,
                },
                MemberV::Field(_) => None,
            },
        }
    }
}

/// The parameters and body of the method of a variant that holds `off`.
pub open spec fn variant_around(vs: Seq<VariantV>, off: int, whole: bool) -> Option<
    (Seq<ParamV>, BlockV),
>
    decreases vs.len(),
{
    if vs.len() == 0 {
        None
    } else {
        match variant_around(vs.drop_last(), off, whole) {
            Some(r) => Some(r),
            None => method_around(vs.last().members, off, whole),
        }
    }
}

/// The parameters and body of the function or method that holds `off`.
pub open spec fn around(items: Seq<TopLevelV>, off: int, whole: bool) -> Option<
    (Seq<ParamV>, BlockV),
>
    decreases items.len(),
{
    if items.len() == 0 {
        None
    } else {
        match around(items.drop_last(), off, whole) {
            Some(r) => Some(r),
            None => match items.last() {
                TopLevelV::Fun(f) => if span_contains(
                    if whole {
                        f.span
                    } else {
                        f.body.span
                    },
                    off,
                ) {
                    Some((f.params, f.body))
                } else {
                    None
                },
                TopLevelV::Type(t) => match t.body {
                    TypeBodyV::Record(ms) => method_around(ms, off, whole),
                    TypeBodyV::Sum(vs) => variant_around(vs, off, whole),
                    TypeBodyV::Alias(_) => None,
                },
                TopLevelV::Stmt(_) => None,
            },
        }
    }
}

/// The model of optional parameters with a body.
pub open spec fn opt_around(o: Option<(&Vec<Param>, &Block)>) -> Option<(Seq<ParamV>, BlockV)> {
    match o {
        Some(p) => Some((params_view(p.0@), p.1@)),
        None => None,
    }
}

fn find_method<'a>(ms: &'a Vec<Member>, off: usize, whole: bool) -> (r: Option<
    (&'a Vec<Param>, &'a Block),
>)
    ensures
        opt_around(r) == method_around(members_view(ms@), off as int, whole),
{
    let ghost all = members_view(ms@);
    let mut found: Option<(&'a Vec<Param>, &'a Block)> = None;
    for i in 0..ms.len()
        invariant
            all == members_view(ms@),
            opt_around(found) == method_around(all.take(i as int), off as int, whole),
    {
        proof {
            assert(all.take(i + 1).drop_last() =~= all.take(i as int));
            assert(all.take(i + 1).last() == ms[i as int]@);
        }
        if found.is_none() {
            if let Member::Method(m) = &ms[i] {
                if let Some(b) = &m.body {
                    let span = if whole {
                        m.span
                    } else {
                        b.span
                    };
                    if contains(span, off) {
                        found = Some((&m.params, b));
                    }
                }
            }
        }
    }
    assert(all.take(ms.len() as int) =~= all);
    found
}

fn find_in_variants<'a>(vs: &'a Vec<Variant>, off: usize, whole: bool) -> (r: Option<
    (&'a Vec<Param>, &'a Block),
>)
    ensures
        opt_around(r) == variant_around(variants_view(vs@), off as int, whole),
{
    let ghost all = variants_view(vs@);
    let mut found: Option<(&'a Vec<Param>, &'a Block)> = None;
    for i in 0..vs.len()
        invariant
            all == variants_view(vs@),
            opt_around(found) == variant_around(all.take(i as int), off as int, whole),
    {
        proof {
            assert(all.take(i + 1).drop_last() =~= all.take(i as int));
            assert(all.take(i + 1).last() == vs[i as int]@);
            assert(vs[i as int]@.members == members_view(vs[i as int].members@));
        }
        if found.is_none() {
            found = find_method(&vs[i].members, off, whole);
        }
    }
    assert(all.take(vs.len() as int) =~= all);
    found
}

/// The parameters and body of the function or method at an offset, by its whole
/// declaration or by its body.
pub fn find_around<'a>(main_ast: &'a Module, off: usize, whole: bool) -> (r: Option<
    (&'a Vec<Param>, &'a Block),
>)
    ensures
        opt_around(r) == around(main_ast@.items, off as int, whole),
{
    let ghost all = top_levels_view(main_ast.items@);
    let mut found: Option<(&'a Vec<Param>, &'a Block)> = None;
    for i in 0..main_ast.items.len()
        invariant
            all == top_levels_view(main_ast.items@),
            opt_around(found) == around(all.take(i as int), off as int, whole),
    {
        proof {
            assert(all.take(i + 1).drop_last() =~= all.take(i as int));
            assert(all.take(i + 1).last() == main_ast.items[i as int]@);
        }
        if found.is_none() {
            match &main_ast.items[i] {
                TopLevel::Fun(f) => {
                    let span = if whole {
                        f.span
                    } else {
                        f.body.span
                    };
                    if contains(span, off) {
                        found = Some((&f.params, &f.body));
                    }
                },
                TopLevel::Type(t) => {
                    match &t.body {
                        TypeBody::Record(ms) => {
                            found = find_method(ms, off, whole);
                        },
                        TypeBody::Sum(vs) => {
                            found = find_in_variants(vs, off, whole);
                        },
                        TypeBody::Alias(_) => {},
                    }
                },
                TopLevel::Stmt(_) => {},
            }
        }
    }
    assert(all.take(main_ast.items.len() as int) =~= all);
    found
}

/// The parameters and body of the function or method whose declaration (its signature
/// and body) contains `global_off`, so that a cursor on a parameter resolves to that
/// function.
pub fn enclosing(main_ast: &Module, global_off: usize) -> (r: Option<(&Vec<Param>, &Block)>)
    ensures
        opt_around(r) == around(main_ast@.items, global_off as int, true),
{
    find_around(main_ast, global_off, true)
}

// ---- bound values ----

/// The span of the value that a statement binds to `name` at `off`, if it does.
pub open spec fn own_let(s: StmtV, off: int, name: Seq<char>) -> Option<Span> {
    match s {
        StmtV::Let { pat: PatternV::Binding(n, b), value: Some(v), .. } => if n == name
            && span_contains(b, off) {
            Some(v.span())
        } else {
            None
        },
        _ => None,
    }
}

/// The same for the first of some statements that does.
pub open spec fn let_at(ss: Seq<StmtV>, off: int, name: Seq<char>) -> Option<Span>
    decreases ss.len(),
{
    if ss.len() == 0 {
        None
    } else {
        match let_at(ss.drop_last(), off, name) {
            Some(s) => Some(s),
            None => own_let(ss.last(), off, name),
        }
    }
}

fn find_let(ss: &Vec<Stmt>, off: usize, name: &str) -> (r: Option<Span>)
    ensures
        r == let_at(tree_stmts(stmts_view(ss@), true), off as int, name@),
{
    let cs = all_tree_stmts(ss, true);
    let ghost all = stmt_refs(cs@);
    let mut found: Option<Span> = None;
    for i in 0..cs.len()
        invariant
            all == stmt_refs(cs@),
            found == let_at(all.take(i as int), off as int, name@),
    {
        proof {
            assert(all.take(i + 1).drop_last() =~= all.take(i as int));
            assert(all.take(i + 1).last() == cs[i as int]@);
        }
        if found.is_none() {
            if let Stmt::Let { pat, value, .. } = cs[i] {
                if let (Pattern::Binding(n, b), Some(v)) = (pat, value) {
                    if str_eq(n.as_str(), name) && contains(*b, off) {
                        found = Some(v.span());
                    }
                }
            }
        }
    }
    assert(all.take(cs.len() as int) =~= all);
    found
}

// ---- local variables ----

/// Among the first `n` recorded expressions, the use of `name` in `body` that is nearest
/// to `off`: the earliest one at or after it, or else the last one before it. Of uses
/// that begin at one place, the first recorded is taken at or after the offset and the
/// last recorded before it.
pub open spec fn nearest_use(
    es: Seq<TypedExprV>,
    n: int,
    off: int,
    name: Seq<char>,
    body: Span,
) -> Option<int>
    decreases n,
{
    if n <= 0 {
        None
    } else {
        let best = nearest_use(es, n - 1, off, name, body);
        if !uses_name(es[n - 1], name, body) {
            best
        } else {
            match best {
                None => Some(n - 1),
                Some(b) => {
                    let old_lo = es[b].span.lo;
                    let new_lo = es[n - 1].span.lo;
                    let better = if old_lo >= off {
                        off <= new_lo < old_lo
                    } else {
                        new_lo >= off || new_lo >= old_lo
                    };
                    if better {
                        Some(n - 1)
                    } else {
                        best
                    }
                },
            }
        }
    }
}

/// The type of the local variable `name` whose declaration or use is at `off`: the type
/// of the value a `let` at `off` binds to it, or else that of its nearest use in the
/// same function.
pub open spec fn local_type(
    items: Seq<TopLevelV>,
    es: Seq<TypedExprV>,
    off: int,
    name: Seq<char>,
) -> Option<TypeV> {
    match around(items, off, true) {
        None => None,
        Some((_, body)) => {
            let bound = match let_at(tree_stmts(body.stmts, true), off, name) {
                Some(s) => with_span(es, 0, s, false),
                None => None,
            };
            match bound {
                Some(e) => Some(e.ty),
                None => match nearest_use(es, es.len() as int, off, name, body.span) {
                    Some(i) => Some(es[i].ty),
                    None => None,
                },
            }
        },
    }
}

/// The inferred type of the local variable `name` whose declaration or use is at
/// `global_off`. The checker records uses but not binding sites, so a binding's type is
/// recovered from the bound value, or from a use of the variable in the same function;
/// the nearest use at or after the cursor is preferred, so that a pattern binding picks
/// the use in its own match arm.
pub fn local_var_type(full: &FullAnalysis, global_off: usize, name: &str) -> (r: Option<Type>)
    ensures
        opt_type(r) == local_type(
            full.main_ast@.items,
            full.typed@,
            global_off as int,
            name@,
        ),
{
    let (_, body) = match enclosing(&full.main_ast, global_off) {
        Some(p) => p,
        None => {
            return None;
        },
    };
    assert(body@.stmts == stmts_view(body.stmts@));
    if let Some(span) = find_let(&body.stmts, global_off, name) {
        if let Some(e) = typed_at_span(full, span, false) {
            return Some(clone_type(&e.ty));
        }
    }
    let es = &full.typed.expressions;
    let ghost ev = full.typed@;
    let mut best: Option<usize> = None;
    for i in 0..es.len()
        invariant
            ev == full.typed@,
            *es == full.typed.expressions,
            match best {
                Some(b) => b < i && nearest_use(ev, i as int, global_off as int, name@, body@.span)
                    == Some(b as int),
                None => nearest_use(ev, i as int, global_off as int, name@, body@.span) is None,
            },
    {
        assert(ev[i as int] == es[i as int]@);
        if is_use(&es[i], name, body.span) {
            let better = match best {
                None => true,
                Some(b) => {
                    assert(ev[b as int] == es[b as int]@);
                    let old_lo: usize = es[b].span.lo;
                    let new_lo: usize = es[i].span.lo;
                    if old_lo >= global_off {
                        global_off <= new_lo && new_lo < old_lo
                    } else {
                        new_lo >= global_off || new_lo >= old_lo
                    }
                },
            };
            if better {
                best = Some(i);
            }
        }
    }
    match best {
        Some(b) => {
            assert(ev[b as int] == es[b as int]@);
            Some(clone_type(&es[b].ty))
        },
        None => None,
    }
}

// ---- expressions of the document ----

/// Every expression in the method bodies among `ms`.
pub open spec fn member_exprs(ms: Seq<MemberV>) -> Seq<ExprV>
    decreases ms.len(),
{
    if ms.len() == 0 {
        Seq::empty()
    } else {
        member_exprs(ms.drop_last()) + (match ms.last() {
            MemberV::Method(m) => match m.body {
                Some(b) => stmts_exprs(b.stmts),
                None => Seq::empty(),
            },
            MemberV::Field(_) => Seq::empty(),
        })
    }
}

/// Every expression in the method bodies of variants.
pub open spec fn variant_exprs(vs: Seq<VariantV>) -> Seq<ExprV>
    decreases vs.len(),
{
    if vs.len() == 0 {
        Seq::empty()
    } else {
        variant_exprs(vs.drop_last()) + member_exprs(vs.last().members)
    }
}

/// Every expression in the document, in pre-order; the bounds of ranges are left out.
pub open spec fn module_exprs(items: Seq<TopLevelV>) -> Seq<ExprV>
    decreases items.len(),
{
    if items.len() == 0 {
        Seq::empty()
    } else {
        module_exprs(items.drop_last()) + (match items.last() {
            TopLevelV::Fun(f) => stmts_exprs(f.body.stmts),
            TopLevelV::Type(t) => match t.body {
                TypeBodyV::Record(ms) => member_exprs(ms),
                TypeBodyV::Sum(vs) => variant_exprs(vs),
                TypeBodyV::Alias(_) => Seq::empty(),
            },
            TopLevelV::Stmt(s) => stmt_exprs(s),
        })
    }
}

fn walk_members<'a>(ms: &'a Vec<Member>, out: &mut Vec<&'a Expr>)
    ensures
        expr_refs(final(out)@) == expr_refs(old(out)@) + member_exprs(members_view(ms@)),
{
    let ghost all = members_view(ms@);
    let ghost start = expr_refs(out@);
    assert(start =~= start + member_exprs(all.take(0)));
    for i in 0..ms.len()
        invariant
            all == members_view(ms@),
            expr_refs(out@) == start + member_exprs(all.take(i as int)),
    {
        proof {
            assert(all.take(i + 1).drop_last() =~= all.take(i as int));
            assert(all.take(i + 1).last() == ms[i as int]@);
        }
        if let Member::Method(m) = &ms[i] {
            if let Some(b) = &m.body {
                assert(b@.stmts == stmts_view(b.stmts@));
                push_stmts_exprs(&b.stmts, out);
            }
        }
        assert(expr_refs(out@) =~= start + member_exprs(all.take(i + 1)));
    }
    assert(all.take(ms.len() as int) =~= all);
}

fn walk_variants<'a>(vs: &'a Vec<Variant>, out: &mut Vec<&'a Expr>)
    ensures
        expr_refs(final(out)@) == expr_refs(old(out)@) + variant_exprs(variants_view(vs@)),
{
    let ghost all = variants_view(vs@);
    let ghost start = expr_refs(out@);
    assert(start =~= start + variant_exprs(all.take(0)));
    for i in 0..vs.len()
        invariant
            all == variants_view(vs@),
            expr_refs(out@) == start + variant_exprs(all.take(i as int)),
    {
        proof {
            assert(all.take(i + 1).drop_last() =~= all.take(i as int));
            assert(all.take(i + 1).last() == vs[i as int]@);
        }
        walk_members(&vs[i].members, out);
        assert(expr_refs(out@) =~= start + variant_exprs(all.take(i + 1)));
    }
    assert(all.take(vs.len() as int) =~= all);
}

/// Every expression in the module (pre-order), for span-based lookups.
pub fn walk_exprs(main_ast: &Module) -> (r: Vec<&Expr>)
    ensures
        expr_refs(r@) == module_exprs(main_ast@.items),
{
    let ghost all = top_levels_view(main_ast.items@);
    let mut out: Vec<&Expr> = Vec::new();
    assert(expr_refs(out@) =~= module_exprs(all.take(0)));
    for i in 0..main_ast.items.len()
        invariant
            all == top_levels_view(main_ast.items@),
            expr_refs(out@) == module_exprs(all.take(i as int)),
    {
        proof {
            assert(all.take(i + 1).drop_last() =~= all.take(i as int));
            assert(all.take(i + 1).last() == main_ast.items[i as int]@);
        }
        match &main_ast.items[i] {
            TopLevel::Fun(f) => {
                assert(f.body@.stmts == stmts_view(f.body.stmts@));
                push_stmts_exprs(&f.body.stmts, &mut out);
            },
            TopLevel::Type(t) => match &t.body {
                TypeBody::Record(ms) => walk_members(ms, &mut out),
                TypeBody::Sum(vs) => walk_variants(vs, &mut out),
                TypeBody::Alias(_) => {},
            },
            TopLevel::Stmt(s) => push_stmt_exprs(s, &mut out),
        }
        assert(expr_refs(out@) =~= module_exprs(all.take(i + 1)));
    }
    assert(all.take(main_ast.items.len() as int) =~= all);
    out
}

// ---- returns ----

/// Whether `e` is a call of the free function `name`.
pub open spec fn calls_name(e: ExprV, name: Seq<char>) -> bool {
    match e {
        ExprV::Call(c, _, _) => match *c {
            ExprV::Ident(n, _) => n == name,
            _ => false,
        },
        _ => false,
    }
}

fn is_call_of(e: &Expr, name: &str) -> (r: bool)
    ensures
        r == calls_name(e@, name@),
{
    proof {
        reveal_with_fuel(expr_view, 2);
    }
    match e {
        Expr::Call(c, _, _) => match &**c {
            Expr::Ident(n, _) => str_eq(n.as_str(), name),
            _ => false,
        },
        _ => false,
    }
}

/// The types that the recorded calls of `name` among the first `n` expressions return.
pub open spec fn call_types(
    xs: Seq<ExprV>,
    n: int,
    es: Seq<TypedExprV>,
    name: Seq<char>,
) -> Seq<TypeV>
    decreases n,
{
    if n <= 0 {
        Seq::empty()
    } else {
        let ts = call_types(xs, n - 1, es, name);
        if calls_name(xs[n - 1], name) {
            match with_span(es, 0, xs[n - 1].span(), true) {
                Some(e) => ts.push(e.ty),
                None => ts,
            }
        } else {
            ts
        }
    }
}

/// Whether all types in a list are the first one.
pub open spec fn all_same(ts: Seq<TypeV>) -> bool {
    forall|i: int| 0 <= i < ts.len() ==> #[trigger] ts[i] == ts[0]
}

proof fn all_same_push(ts: Seq<TypeV>, t: TypeV)
    ensures
        ts.len() > 0 ==> all_same(ts.push(t)) == (all_same(ts) && t == ts[0]),
        ts.len() == 0 ==> all_same(ts.push(t)),
{
    let now = ts.push(t);
    if ts.len() > 0 {
        if all_same(ts) && t == ts[0] {
            assert forall|i: int| 0 <= i < now.len() implies #[trigger] now[i] == now[0] by {
                if i < ts.len() {
                    assert(now[i] == ts[i]);
                }
            }
        }
        if all_same(now) {
            assert forall|i: int| 0 <= i < ts.len() implies #[trigger] ts[i] == ts[0] by {
                assert(now[i] == ts[i]);
            }
            assert(now[ts.len() as int] == t);
        }
    }
}

/// The one type in a list, when there is one and they all agree.
pub open spec fn agreed(ts: Seq<TypeV>) -> Option<TypeV> {
    if ts.len() > 0 && all_same(ts) {
        Some(ts[0])
    } else {
        None
    }
}

/// The first type in a list.
pub open spec fn first_of(ts: Seq<TypeV>) -> Option<TypeV> {
    if ts.len() > 0 {
        Some(ts[0])
    } else {
        None
    }
}

/// The type that all recorded calls of the free function `name` return.
pub open spec fn returned_type(
    items: Seq<TopLevelV>,
    es: Seq<TypedExprV>,
    name: Seq<char>,
) -> Option<TypeV> {
    let xs = module_exprs(items);
    agreed(call_types(xs, xs.len() as int, es, name))
}

/// The inferred return type of free function `name`, recovered from its call sites: the
/// type all of them agree on, or `None` when there are no calls or they disagree (a
/// genuinely polymorphic return that has no single type).
pub fn inferred_return(full: &FullAnalysis, name: &str) -> (r: Option<Type>)
    ensures
        opt_type(r) == returned_type(full.main_ast@.items, full.typed@, name@),
{
    let xs = walk_exprs(&full.main_ast);
    let ghost xv = expr_refs(xs@);
    let ghost ev = full.typed@;
    let mut ret: Option<Type> = None;
    let mut same: bool = true;
    for i in 0..xs.len()
        invariant
            xv == expr_refs(xs@),
            ev == full.typed@,
            same == all_same(call_types(xv, i as int, ev, name@)),
            opt_type(ret) == first_of(call_types(xv, i as int, ev, name@)),
    {
        let ghost before = call_types(xv, i as int, ev, name@);
        assert(xv[i as int] == xs[i as int]@);
        if is_call_of(xs[i], name) {
            if let Some(e) = typed_at_span(full, xs[i].span(), true) {
                proof {
                    assert(call_types(xv, i + 1, ev, name@) == before.push(e@.ty));
                    all_same_push(before, e@.ty);
                }
                match &ret {
                    None => {
                        ret = Some(clone_type(&e.ty));
                    },
                    Some(t) => {
                        same = same && same_type(t, &e.ty);
                    },
                }
            }
        }
    }
    if !same {
        return None;
    }
    ret
}

/// The type of the first recorded use of `name` in `body`, from the `i`-th expression on.
pub open spec fn first_use(es: Seq<TypedExprV>, i: int, name: Seq<char>, body: Span) -> Option<
    TypeV,
>
    decreases es.len() - i,
{
    if !(0 <= i < es.len()) {
        None
    } else if uses_name(es[i], name, body) {
        Some(es[i].ty)
    } else {
        first_use(es, i + 1, name, body)
    }
}

/// The generic type of parameter `name` (function body `body_span`), from the first
/// recorded use of the parameter in the body. The body is checked generically before any
/// call-site monomorphization, so the first recording carries the inference variables of
/// the function's general type.
pub fn generic_param_type(full: &FullAnalysis, body_span: Span, name: &str) -> (r: Option<Type>)
    ensures
        opt_type(r) == first_use(full.typed@, 0, name@, body_span),
{
    let es = &full.typed.expressions;
    let ghost ev = full.typed@;
    let mut i: usize = 0;
    while i < es.len()
        invariant
            ev == full.typed@,
            *es == full.typed.expressions,
            i <= es.len(),
            first_use(ev, 0, name@, body_span) == first_use(ev, i as int, name@, body_span),
        decreases es.len() - i,
    {
        assert(ev[i as int] == es[i as int]@);
        if is_use(&es[i], name, body_span) {
            return Some(clone_type(&es[i].ty));
        }
        i = i + 1;
    }
    None
}

/// The span of the first value that one of some statements returns.
pub open spec fn first_returned(ss: Seq<StmtV>) -> Option<Span>
    decreases ss.len(),
{
    if ss.len() == 0 {
        None
    } else {
        match (first_returned(ss.drop_last()), ss.last()) {
            (Some(s), _) => Some(s),
            (None, StmtV::Return(Some(e), _)) => Some(e.span()),
            _ => None,
        }
    }
}

fn find_returned(ss: &Vec<Stmt>) -> (r: Option<Span>)
    ensures
        r == first_returned(tree_stmts(stmts_view(ss@), false)),
{
    let cs = all_tree_stmts(ss, false);
    let ghost all = stmt_refs(cs@);
    let mut found: Option<Span> = None;
    for i in 0..cs.len()
        invariant
            all == stmt_refs(cs@),
            found == first_returned(all.take(i as int)),
    {
        proof {
            assert(all.take(i + 1).drop_last() =~= all.take(i as int));
            assert(all.take(i + 1).last() == cs[i as int]@);
        }
        if found.is_none() {
            if let Stmt::Return(Some(e), _) = cs[i] {
                found = Some(e.span());
            }
        }
    }
    assert(all.take(cs.len() as int) =~= all);
    found
}

/// The type recorded for the first value a body returns.
pub open spec fn first_return(body: BlockV, es: Seq<TypedExprV>) -> Option<TypeV> {
    match first_returned(tree_stmts(body.stmts, false)) {
        Some(s) => match with_span(es, 0, s, false) {
            Some(e) => Some(e.ty),
            None => None,
        },
        None => None,
    }
}

/// The generic return type of `f`, from the first recorded `return` expression in its
/// body. Used to show a return that depends on a parameter as a variable.
pub fn generic_return_type(full: &FullAnalysis, f: &FunInfo) -> (r: Option<Type>)
    ensures
        opt_type(r) == first_return(f@.decl.body, full.typed@),
{
    assert(f@.decl.body.stmts == stmts_view(f.decl.body.stmts@));
    match find_returned(&f.decl.body.stmts) {
        Some(span) => match typed_at_span(full, span, false) {
            Some(e) => Some(clone_type(&e.ty)),
            None => None,
        },
        None => None,
    }
}

// ---- call arguments ----

/// The type recorded for a span; an unknown where nothing was recorded.
pub open spec fn arg_type_of(es: Seq<TypedExprV>, span: Span) -> TypeV {
    match with_span(es, 0, span, false) {
        Some(e) => e.ty,
        None => TypeV::Unknown(u32::MAX),
    }
}

/// The types of call arguments.
pub open spec fn arg_types(es: Seq<TypedExprV>, args: Seq<ArgV>) -> Seq<TypeV> {
    Seq::new(args.len(), |i: int| arg_type_of(es, args[i].expr.span()))
}

/// The types a call passes; a call through a receiver passes it first.
pub open spec fn passed_types(es: Seq<TypedExprV>, callee: ExprV, args: Seq<ArgV>) -> Seq<TypeV> {
    (match callee {
        ExprV::Field(recv, _, _) => seq![arg_type_of(es, recv.span())],
        _ => Seq::empty(),
    }) + arg_types(es, args)
}

/// The types `e` passes, if it is a call with span `span`.
pub open spec fn call_passes(e: ExprV, es: Seq<TypedExprV>, span: Span) -> Option<Seq<TypeV>> {
    match e {
        ExprV::Call(callee, args, s) => if s == span {
            Some(passed_types(es, *callee, args))
        } else {
            None
        },
        _ => None,
    }
}

/// The types passed by the first call, from the `i`-th expression on, with span `span`.
pub open spec fn call_args_from(xs: Seq<ExprV>, i: int, es: Seq<TypedExprV>, span: Span) -> Option<
    Seq<TypeV>,
>
    decreases xs.len() - i,
{
    if !(0 <= i < xs.len()) {
        None
    } else {
        match call_passes(xs[i], es, span) {
            Some(ts) => Some(ts),
            None => call_args_from(xs, i + 1, es, span),
        }
    }
}

/// The types passed by the call with the given span.
pub open spec fn call_args(items: Seq<TopLevelV>, es: Seq<TypedExprV>, span: Span) -> Option<
    Seq<TypeV>,
> {
    call_args_from(module_exprs(items), 0, es, span)
}

/// The model of an optional list of types.
pub open spec fn opt_type_list(o: Option<Vec<Type>>) -> Option<Seq<TypeV>> {
    match o {
        Some(v) => Some(types_view(v@)),
        None => None,
    }
}

fn arg_type(full: &FullAnalysis, span: Span) -> (r: Type)
    ensures
        r@ == arg_type_of(full.typed@, span),
{
    match typed_at_span(full, span, false) {
        Some(e) => clone_type(&e.ty),
        None => Type::Unknown(u32::MAX),
    }
}

fn passed(full: &FullAnalysis, callee: &Expr, args: &Vec<Arg>) -> (r: Vec<Type>)
    ensures
        types_view(r@) == passed_types(full.typed@, callee@, args_view(args@)),
{
    let mut types: Vec<Type> = Vec::new();
    if let Expr::Field(recv, _, _) = callee {
        types.push(arg_type(full, recv.span()));
    }
    let ghost head = types@;
    for i in 0..args.len()
        invariant
            types@.len() == head.len() + i,
            forall|j: int| 0 <= j < head.len() ==> types@[j] == head[j],
            forall|j: int|
                0 <= j < i ==> (#[trigger] types@[head.len() + j])@ == arg_type_of(
                    full.typed@,
                    args[j]@.expr.span(),
                ),
    {
        types.push(arg_type(full, args[i].expr.span()));
    }
    proof {
        let want = passed_types(full.typed@, callee@, args_view(args@));
        assert(types_view(types@).len() == want.len());
        assert forall|k: int| 0 <= k < want.len() implies types_view(types@)[k] == want[k] by {
            if k >= head.len() {
                let j = k - head.len();
                assert(types@[head.len() + j]@ == arg_type_of(
                    full.typed@,
                    args[j]@.expr.span(),
                ));
                assert(args_view(args@)[j] == args[j]@);
            } else {
                assert(types@[k] == head[k]);
            }
        }
        assert(types_view(types@) =~= want);
    }
    types
}

fn passed_by(full: &FullAnalysis, e: &Expr, span: Span) -> (r: Option<Vec<Type>>)
    ensures
        opt_type_list(r) == call_passes(e@, full.typed@, span),
{
    if let Expr::Call(callee, args, s) = e {
        if *s == span {
            return Some(passed(full, callee, args));
        }
    }
    None
}

/// The concrete argument types of the call expression whose whole span is `call_span`,
/// for binding a function's generic variables to that call.
pub fn call_args_at_span(full: &FullAnalysis, call_span: Span) -> (r: Option<Vec<Type>>)
    ensures
        opt_type_list(r) == call_args(full.main_ast@.items, full.typed@, call_span),
{
    let xs = walk_exprs(&full.main_ast);
    let ghost xv = expr_refs(xs@);
    let mut i: usize = 0;
    while i < xs.len()
        invariant
            xv == expr_refs(xs@),
            xv == module_exprs(full.main_ast@.items),
            i <= xs.len(),
            call_args_from(xv, 0, full.typed@, call_span) == call_args_from(
                xv,
                i as int,
                full.typed@,
                call_span,
            ),
        decreases xs.len() - i,
    {
        assert(xv[i as int] == xs[i as int]@);
        if let Some(types) = passed_by(full, xs[i], call_span) {
            return Some(types);
        }
        i = i + 1;
    }
    None
}

// ---- bindings of variables ----

/// The type behind nullability, constness, mutability and references.
pub open spec fn bare(t: TypeV) -> TypeV
    decreases t,
{
    match t {
        TypeV::Nullable(i) => bare(*i),
        TypeV::ConstOf(i) => bare(*i),
        TypeV::Mut(i) => bare(*i),
        TypeV::Ref(i) => bare(*i),
        _ => t,
    }
}

/// The type behind the transparent wrappers.
pub fn peel_transparent(ty: &Type) -> (r: &Type)
    ensures
        r@ == bare(ty@),
        r == ty || decreases_to!(*ty => *r),
    decreases *ty,
{
    match ty {
        Type::Nullable(i) => peel_transparent(i),
        Type::ConstOf(i) => peel_transparent(i),
        Type::Mut(i) => peel_transparent(i),
        Type::Ref(i) => peel_transparent(i),
        _ => ty,
    }
}

pub proof fn bare_shrinks(t: TypeV)
    ensures
        bare(t) == t || decreases_to!(t => bare(t)),
        !(bare(t) is Nullable) && !(bare(t) is ConstOf) && !(bare(t) is Mut) && !(bare(t) is Ref),
    decreases t,
{
    match t {
        TypeV::Nullable(i) => bare_shrinks(*i),
        TypeV::ConstOf(i) => bare_shrinks(*i),
        TypeV::Mut(i) => bare_shrinks(*i),
        TypeV::Ref(i) => bare_shrinks(*i),
        _ => {},
    }
}

/// `m` with the variables of `generic` bound to the parts of `concrete` that stand in
/// their places; a variable that is bound already stays bound as it is.
pub open spec fn bound(generic: TypeV, concrete: TypeV, m: Map<u32, TypeV>) -> Map<u32, TypeV>
    decreases generic,
{
    let g = bare(generic);
    let c = bare(concrete);
    proof {
        bare_shrinks(generic);
    }
    match (g, c) {
        (TypeV::Unknown(id), _) => if m.contains_key(id) {
            m
        } else {
            m.insert(id, c)
        },
        (TypeV::Array(a, _), TypeV::Array(b, _)) => bound(*a, *b, m),
        (TypeV::Array(a, _), TypeV::Slice(b)) => bound(*a, *b, m),
        (TypeV::Slice(a), TypeV::Array(b, _)) => bound(*a, *b, m),
        (TypeV::Slice(a), TypeV::Slice(b)) => bound(*a, *b, m),
        (TypeV::Tuple(gs), TypeV::Tuple(cs)) => bound_all(gs, cs, m),
        (TypeV::Fun(gs, gr), TypeV::Fun(cs, cr)) => bound(*gr, *cr, bound_all(gs, cs, m)),
        (TypeV::Record(gn), TypeV::Record(cn)) => bound_entries(gn.subst, cn.subst, m),
        (TypeV::Sum(gn), TypeV::Sum(cn)) => bound_entries(gn.subst, cn.subst, m),
        _ => m,
    }
}

/// The same for the types at equal places of two lists.
pub open spec fn bound_all(gs: Seq<TypeV>, cs: Seq<TypeV>, m: Map<u32, TypeV>) -> Map<u32, TypeV>
    decreases gs,
{
    if gs.len() == 0 {
        m
    } else {
        let before = bound_all(gs.drop_last(), cs, m);
        if gs.len() <= cs.len() {
            bound(gs.last(), cs[gs.len() - 1], before)
        } else {
            before
        }
    }
}

/// The same for the entries of two substitutions with the same key.
pub open spec fn bound_entries(
    gs: Seq<(Seq<char>, TypeV)>,
    cs: Seq<(Seq<char>, TypeV)>,
    m: Map<u32, TypeV>,
) -> Map<u32, TypeV>
    decreases gs,
{
    if gs.len() == 0 {
        m
    } else {
        let before = bound_entries(gs.drop_last(), cs, m);
        match lookup(cs, gs.last().0) {
            Some(c) => bound(gs.last().1, c, before),
            None => before,
        }
    }
}

/// Bind the inference variables of a `generic` type to the corresponding parts of a
/// `concrete` type. Transparent wrappers on either side are peeled first.
pub fn collect_bindings(generic: &Type, concrete: &Type, out: &mut HashMap<u32, Type>)
    ensures
        bindings(final(out)@) == bound(generic@, concrete@, bindings(old(out)@)),
    decreases *generic,
{
    broadcast use vstd::std_specs::hash::group_hash_axioms;

    let g = peel_transparent(generic);
    let c = peel_transparent(concrete);
    match (g, c) {
        (Type::Unknown(id), _) => {
            let ghost before = bindings(out@);
            if !out.contains_key(id) {
                let t = clone_type(c);
                let ghost tv = t@;
                out.insert(*id, t);
                assert(bindings(out@) =~= before.insert(*id, tv));
            }
        },
        (Type::Array(a, _), Type::Array(b, _)) => collect_bindings(a, b, out),
        (Type::Array(a, _), Type::Slice(b)) => collect_bindings(a, b, out),
        (Type::Slice(a), Type::Array(b, _)) => collect_bindings(a, b, out),
        (Type::Slice(a), Type::Slice(b)) => collect_bindings(a, b, out),
        (Type::Tuple(gs), Type::Tuple(cs)) => collect_all(gs, cs, out),
        (Type::Fun(gs, gr), Type::Fun(cs, cr)) => {
            collect_all(gs, cs, out);
            collect_bindings(gr, cr, out);
        },
        (Type::Record(gn), Type::Record(cn)) => {
            collect_entries(&gn.substitution, &cn.substitution, out);
        },
        (Type::Sum(gn), Type::Sum(cn)) => {
            collect_entries(&gn.substitution, &cn.substitution, out);
        },
        _ => {},
    }
}

fn collect_all(gs: &Vec<Type>, cs: &Vec<Type>, out: &mut HashMap<u32, Type>)
    ensures
        bindings(final(out)@) == bound_all(
            types_view(gs@),
            types_view(cs@),
            bindings(old(out)@),
        ),
    decreases *gs,
{
    let ghost gv = types_view(gs@);
    let ghost cv = types_view(cs@);
    let ghost m = bindings(out@);
    for i in 0..gs.len()
        invariant
            gv == types_view(gs@),
            cv == types_view(cs@),
            bindings(out@) == bound_all(gv.take(i as int), cv, m),
    {
        proof {
            assert(gv.take(i + 1).drop_last() =~= gv.take(i as int));
            assert(gv.take(i + 1).last() == gs[i as int]@);
        }
        if i < cs.len() {
            collect_bindings(&gs[i], &cs[i], out);
        }
    }
    assert(gv.take(gs.len() as int) =~= gv);
}

fn collect_entries(gs: &Substitution, cs: &Substitution, out: &mut HashMap<u32, Type>)
    ensures
        bindings(final(out)@) == bound_entries(gs@, cs@, bindings(old(out)@)),
    decreases *gs,
{
    let ghost m = bindings(out@);
    let n: usize = gs.len();
    for i in 0..n
        invariant
            n == gs@.len(),
            bindings(out@) == bound_entries(gs@.take(i as int), cs@, m),
    {
        proof {
            assert(gs@.take(i + 1).drop_last() =~= gs@.take(i as int));
            assert(gs@.take(i + 1).last() == gs@[i as int]);
        }
        if let Some(c) = cs.get(gs.key_at(i)) {
            collect_bindings(gs.type_at(i), c, out);
        }
    }
    assert(gs@.take(n as int) =~= gs@);
}

/// Binding variables keeps what is bound already.
pub proof fn bindings_are_kept(generic: TypeV, concrete: TypeV, m: Map<u32, TypeV>, id: u32)
    requires
        m.contains_key(id),
    ensures
        bound(generic, concrete, m).contains_key(id),
        bound(generic, concrete, m)[id] == m[id],
    decreases generic,
{
    bare_shrinks(generic);
    match (bare(generic), bare(concrete)) {
        (TypeV::Array(a, _), TypeV::Array(b, _)) => bindings_are_kept(*a, *b, m, id),
        (TypeV::Array(a, _), TypeV::Slice(b)) => bindings_are_kept(*a, *b, m, id),
        (TypeV::Slice(a), TypeV::Array(b, _)) => bindings_are_kept(*a, *b, m, id),
        (TypeV::Slice(a), TypeV::Slice(b)) => bindings_are_kept(*a, *b, m, id),
        (TypeV::Tuple(gs), TypeV::Tuple(cs)) => all_bindings_are_kept(gs, cs, m, id),
        (TypeV::Fun(gs, gr), TypeV::Fun(cs, cr)) => {
            all_bindings_are_kept(gs, cs, m, id);
            bindings_are_kept(*gr, *cr, bound_all(gs, cs, m), id);
        },
        (TypeV::Record(gn), TypeV::Record(cn)) => entry_bindings_are_kept(
            gn.subst,
            cn.subst,
            m,
            id,
        ),
        (TypeV::Sum(gn), TypeV::Sum(cn)) => entry_bindings_are_kept(gn.subst, cn.subst, m, id),
        _ => {},
    }
}

proof fn all_bindings_are_kept(gs: Seq<TypeV>, cs: Seq<TypeV>, m: Map<u32, TypeV>, id: u32)
    requires
        m.contains_key(id),
    ensures
        bound_all(gs, cs, m).contains_key(id),
        bound_all(gs, cs, m)[id] == m[id],
    decreases gs,
{
    if gs.len() > 0 {
        all_bindings_are_kept(gs.drop_last(), cs, m, id);
        if gs.len() <= cs.len() {
            bindings_are_kept(
                gs.last(),
                cs[gs.len() - 1],
                bound_all(gs.drop_last(), cs, m),
                id,
            );
        }
    }
}

proof fn entry_bindings_are_kept(
    gs: Seq<(Seq<char>, TypeV)>,
    cs: Seq<(Seq<char>, TypeV)>,
    m: Map<u32, TypeV>,
    id: u32,
)
    requires
        m.contains_key(id),
    ensures
        bound_entries(gs, cs, m).contains_key(id),
        bound_entries(gs, cs, m)[id] == m[id],
    decreases gs,
{
    if gs.len() > 0 {
        let before = bound_entries(gs.drop_last(), cs, m);
        entry_bindings_are_kept(gs.drop_last(), cs, m, id);
        if let Some(c) = lookup(cs, gs.last().0) {
            bindings_are_kept(gs.last().1, c, before, id);
        }
    }
}

} // verus!
