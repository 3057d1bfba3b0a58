//! Compile-time expansion of `for f in fields(x)` loops.
//!
//! `fields(x)` is a compile-time construct, legal only as a `for` iterable:
//! the loop is unrolled during checking and lowering, once per field of `x`'s
//! record type, in declaration order. In each unrolled copy the loop variable
//! decays to the field's NAME as a string constant everywhere except the
//! indexing form `v[f]`, which becomes the field projection `v.<name>`.
//!
//! Every span in a copy is shifted by a per-iteration delta so span-keyed
//! sidecars stay distinct across copies; a shifted span is mapped back to its
//! source position with [`unshift_span`] when it surfaces in a diagnostic.

use vstd::prelude::*;
use crate::ast::{Arg, ArgV, Block, BlockV, Expr, ExprV, FieldPat, FieldPatV, MatchArm, MatchArmV, Param, ParamV, Pattern, PatternV, Stmt, StmtV, StrSeg, StrSegV, TypeExpr, TypeExprV, args_view, expr_view, exprs_view, field_pats_view, match_arms_view, named_exprs_view, named_type_exprs_view, params_view, patterns_view, stmts_view, str_seg_view, str_segs_view, type_expr_view, type_exprs_view};
use crate::span::Span;
use crate::text::str_eq;

verus! {

/// The per-iteration span-shift unit. Real source offsets stay below this, so
/// `offset % SPAN_SHIFT_UNIT` recovers the source position no matter how many
/// nested expansions shifted it.
pub const SPAN_SHIFT_UNIT: usize = 0x100_0000;

/// The parts of a fields-loop: loop variable, `fields(..)` argument and body.
pub open spec fn fields_loop(s: StmtV) -> Option<(Seq<char>, ExprV, BlockV)> {
    match s {
        StmtV::For { var, iter, body, .. } => {
            let call = match iter {
                ExprV::ErrorProp(inner, _) => *inner,
                _ => iter,
            };
            match call {
                ExprV::Call(callee, args, _) => match *callee {
                    ExprV::Ident(name, _) if name == "fields"@ && args.len() == 1 => Some(
                        (var, args[0].expr, body),
                    ),
                    _ => None,
                },
                _ => None,
            }
        },
        _ => None,
    }
}

/// The `(loop var, fields(..) argument, body)` of a fields-loop statement, if
/// `stmt` is one. Recognizes `for v in fields(x)` and `for v in fields(x)!` (the
/// `!` marks the arm-killing bail-out once `fields` can fail per instance).
pub fn fields_loop_target(stmt: &Stmt) -> (r: Option<(&str, &Expr, &Block)>)
    ensures
        (match r {
            Some(p) => Some((p.0@, p.1@, p.2@)),
            None => None,
        }) == fields_loop(stmt@),
{
    proof {
        reveal_with_fuel(expr_view, 3);
    }
    match stmt {
        Stmt::For { var, iter, body, .. } => {
            let call: &Expr = match iter {
                Expr::ErrorProp(inner, _) => &**inner,
                _ => iter,
            };
            match call {
                Expr::Call(callee, args, _) => {
                    let named = match &**callee {
                        Expr::Ident(name, _) => str_eq(name.as_str(), "fields"),
                        _ => false,
                    };
                    assert(args_view(args@).len() == args.len());
                    assert(call@ matches ExprV::Call(c, a, _) && *c == callee@ && a == args_view(
                        args@,
                    ));
                    if named && args.len() == 1 {
                        assert(args_view(args@)[0] == args[0]@);
                        assert(args[0]@.expr == args[0].expr@);
                        Some((var.as_str(), &args[0].expr, body))
                    } else {
                        None
                    }
                },
                _ => None,
            }
        },
        _ => None,
    }
}

/// Whether an annotation is `infer!`.
pub open spec fn is_keyed(t: TypeExprV) -> bool {
    t matches TypeExprV::Fallible(inner, _) && *inner matches TypeExprV::Named(n, _) && n
        == "infer"@
}

/// Whether a return annotation is the keyed form `-> infer!`: the method's
/// result type is fixed per CALL SITE by the caller's expectation, and its
/// body is elaborated (and lowered) once per requested key. Only the fallible
/// form is keyed -- viability folds need the error channel.
pub fn keyed_return(ret: Option<&TypeExpr>) -> (r: bool)
    ensures
        r == (ret is Some && is_keyed(ret->0@)),
{
    proof {
        reveal_with_fuel(type_expr_view, 2);
    }
    match ret {
        Some(TypeExpr::Fallible(inner, _)) => match &**inner {
            TypeExpr::Named(n, _) => str_eq(n.as_str(), "infer"),
            _ => false,
        },
        _ => false,
    }
}

/// `span` moved to the right by `delta`.
pub open spec fn shifted(span: Span, delta: int) -> Span {
    Span { lo: (span.lo + delta) as usize, hi: (span.hi + delta) as usize }
}

/// Whether `span` lies at or below `top`.
pub open spec fn below(span: Span, top: int) -> bool {
    span.lo <= top && span.hi <= top
}

/// Map a possibly-shifted span offset back to its source position.
pub fn unshift_span(span: Span) -> (r: Span)
    ensures
        r == (Span { lo: span.lo % SPAN_SHIFT_UNIT, hi: span.hi % SPAN_SHIFT_UNIT }),
{
    Span::new(span.lo % SPAN_SHIFT_UNIT, span.hi % SPAN_SHIFT_UNIT)
}

/// Unshifting undoes any number of unit shifts of a real source span.
pub proof fn unshift_undoes_shift(span: Span, units: nat)
    requires
        span.lo < SPAN_SHIFT_UNIT,
        span.hi < SPAN_SHIFT_UNIT,
        span.lo + units * SPAN_SHIFT_UNIT <= usize::MAX,
        span.hi + units * SPAN_SHIFT_UNIT <= usize::MAX,
    ensures
        shifted(span, units * SPAN_SHIFT_UNIT).lo % SPAN_SHIFT_UNIT == span.lo,
        shifted(span, units * SPAN_SHIFT_UNIT).hi % SPAN_SHIFT_UNIT == span.hi,
{
    let u = SPAN_SHIFT_UNIT as int;
    let d = units * u;
    assert(d == units as int * u);
    vstd::arithmetic::div_mod::lemma_mod_multiples_vanish(units as int, span.lo as int, u);
    vstd::arithmetic::div_mod::lemma_mod_multiples_vanish(units as int, span.hi as int, u);
    vstd::arithmetic::div_mod::lemma_small_mod(span.lo as nat, u as nat);
    vstd::arithmetic::div_mod::lemma_small_mod(span.hi as nat, u as nat);
    assert(u * (units as int) == d) by (nonlinear_arith)
        requires
            d == units as int * u,
    ;
}

/// Copies of different iterations never share a span: shifting real source spans
/// by different unit counts keeps them apart.
pub proof fn shifts_are_disjoint(a: Span, b: Span, i: nat, j: nat)
    requires
        a.lo < SPAN_SHIFT_UNIT,
        b.lo < SPAN_SHIFT_UNIT,
        i != j,
        a.lo + i * SPAN_SHIFT_UNIT <= usize::MAX,
        b.lo + j * SPAN_SHIFT_UNIT <= usize::MAX,
    ensures
        shifted(a, i * SPAN_SHIFT_UNIT).lo != shifted(b, j * SPAN_SHIFT_UNIT).lo,
{
    let u = SPAN_SHIFT_UNIT as int;
    if i < j {
        assert(i * u + u <= j * u) by (nonlinear_arith)
            requires
                i < j,
                u > 0,
        ;
    } else {
        assert(j * u + u <= i * u) by (nonlinear_arith)
            requires
                j < i,
                u > 0,
        ;
    }
}

// ---- what one copy looks like ----

/// One unrolled copy: the loop variable, the field it stands for, and how far the
/// spans move.
pub ghost struct Copy1 {
    pub var: Seq<char>,
    pub field: Seq<char>,
    pub delta: int,
}

/// The copy of a model `TypeExprV`.
pub open spec fn copied_type_expr(n: TypeExprV, c: Copy1) -> TypeExprV
    decreases n,
{
    match n {
        TypeExprV::Named(a, b) => TypeExprV::Named(a, shifted(b, c.delta)),
        TypeExprV::Array(a, b, d) => TypeExprV::Array(Box::new(copied_type_expr(*a, c)), b, shifted(d, c.delta)),
        TypeExprV::Fun(a, b, d) => TypeExprV::Fun(copied_type_exprs(a, c), Box::new(copied_type_expr(*b, c)), shifted(d, c.delta)),
        TypeExprV::Nullable(a, b) => TypeExprV::Nullable(Box::new(copied_type_expr(*a, c)), shifted(b, c.delta)),
        TypeExprV::Fallible(a, b) => TypeExprV::Fallible(Box::new(copied_type_expr(*a, c)), shifted(b, c.delta)),
        TypeExprV::Tuple(a, b) => TypeExprV::Tuple(copied_type_exprs(a, c), shifted(b, c.delta)),
        TypeExprV::Anonymous(a, b) => TypeExprV::Anonymous(copied_named_type_exprs(a, c), shifted(b, c.delta)),
        TypeExprV::Mut(a, b) => TypeExprV::Mut(Box::new(copied_type_expr(*a, c)), shifted(b, c.delta)),
        TypeExprV::Ref(a, b) => TypeExprV::Ref(Box::new(copied_type_expr(*a, c)), shifted(b, c.delta)),
        TypeExprV::TypeOf(a, b) => TypeExprV::TypeOf(Box::new(copied_expr(*a, c)), shifted(b, c.delta)),
        TypeExprV::TypeSlot(a) => TypeExprV::TypeSlot(shifted(a, c.delta)),
        TypeExprV::SelfField(a, b) => TypeExprV::SelfField(a, shifted(b, c.delta)),
        TypeExprV::Refine(a, b, d) => TypeExprV::Refine(Box::new(copied_type_expr(*a, c)), copied_named_type_exprs(b, c), shifted(d, c.delta)),
    }
}

/// The copy of a model `FieldPatV`.
pub open spec fn copied_field_pat(n: FieldPatV, c: Copy1) -> FieldPatV
    decreases n,
{
    FieldPatV {
        name: n.name,
        pat: match n.pat { Some(x) => Some(copied_pattern(x, c)), None => None },
        span: shifted(n.span, c.delta),
    }
}

/// The copy of a model `PatternV`.
pub open spec fn copied_pattern(n: PatternV, c: Copy1) -> PatternV
    decreases n,
{
    match n {
        PatternV::Wildcard(a) => PatternV::Wildcard(shifted(a, c.delta)),
        PatternV::Binding(a, b) => PatternV::Binding(a, shifted(b, c.delta)),
        PatternV::Literal(a, b) => PatternV::Literal(Box::new(copied_expr(*a, c)), shifted(b, c.delta)),
        PatternV::Record(a, b, d) => PatternV::Record(a, copied_field_pats(b, c), shifted(d, c.delta)),
        PatternV::Array(a, b) => PatternV::Array(copied_patterns(a, c), shifted(b, c.delta)),
    }
}

/// The copy of a model `StrSegV`.
pub open spec fn copied_str_seg(n: StrSegV, c: Copy1) -> StrSegV
    decreases n,
{
    match n {
        StrSegV::Lit(a) => StrSegV::Lit(a),
        StrSegV::Expr(a) => StrSegV::Expr(Box::new(copied_expr(*a, c))),
    }
}

/// The copy of a model `ArgV`.
pub open spec fn copied_arg(n: ArgV, c: Copy1) -> ArgV
    decreases n,
{
    ArgV {
        expr: copied_expr(n.expr, c),
    }
}

/// The copy of a model `MatchArmV`.
pub open spec fn copied_match_arm(n: MatchArmV, c: Copy1) -> MatchArmV
    decreases n,
{
    MatchArmV {
        pattern: copied_pattern(n.pattern, c),
        body: copied_expr(n.body, c),
        span: shifted(n.span, c.delta),
    }
}

/// The copy of a model `BlockV`.
pub open spec fn copied_block(n: BlockV, c: Copy1) -> BlockV
    decreases n,
{
    BlockV {
        stmts: copied_stmts(n.stmts, c),
        span: shifted(n.span, c.delta),
    }
}

/// The copy of a model `ExprV`.
pub open spec fn copied_expr(n: ExprV, c: Copy1) -> ExprV
    decreases n,
{
    match n {
        // The loop variable decays to the field name as a string constant...
        ExprV::Ident(name, s) if name == c.var => ExprV::Str(
            seq![StrSegV::Lit(c.field)],
            shifted(s, c.delta),
        ),
        // ...except as an index, where it projects the field.
        ExprV::Index(base, idx, s) if *idx is Ident && idx->Ident_0 == c.var => ExprV::Field(
            Box::new(copied_expr(*base, c)),
            c.field,
            shifted(s, c.delta),
        ),
        ExprV::Int(a, b) => ExprV::Int(a, shifted(b, c.delta)),
        ExprV::Float(a, b) => ExprV::Float(a, shifted(b, c.delta)),
        ExprV::Bool(a, b) => ExprV::Bool(a, shifted(b, c.delta)),
        ExprV::Null(a) => ExprV::Null(shifted(a, c.delta)),
        ExprV::Ident(a, b) => ExprV::Ident(a, shifted(b, c.delta)),
        ExprV::SelfExpr(a) => ExprV::SelfExpr(shifted(a, c.delta)),
        ExprV::Str(a, b) => ExprV::Str(copied_str_segs(a, c), shifted(b, c.delta)),
        ExprV::Unary(a, b, d) => ExprV::Unary(a, Box::new(copied_expr(*b, c)), shifted(d, c.delta)),
        ExprV::Binary(a, b, d, e) => ExprV::Binary(a, Box::new(copied_expr(*b, c)), Box::new(copied_expr(*d, c)), shifted(e, c.delta)),
        ExprV::Call(a, b, d) => ExprV::Call(Box::new(copied_expr(*a, c)), copied_args(b, c), shifted(d, c.delta)),
        ExprV::Field(a, b, d) => ExprV::Field(Box::new(copied_expr(*a, c)), b, shifted(d, c.delta)),
        ExprV::Index(a, b, d) => ExprV::Index(Box::new(copied_expr(*a, c)), Box::new(copied_expr(*b, c)), shifted(d, c.delta)),
        ExprV::ErrorProp(a, b) => ExprV::ErrorProp(Box::new(copied_expr(*a, c)), shifted(b, c.delta)),
        ExprV::Closure(a, b, d) => ExprV::Closure(copied_params(a, c), Box::new(copied_expr(*b, c)), shifted(d, c.delta)),
        ExprV::Array(a, b) => ExprV::Array(copied_exprs(a, c), shifted(b, c.delta)),
        ExprV::Range(a, b, d) => ExprV::Range(Box::new(copied_expr(*a, c)), Box::new(copied_expr(*b, c)), shifted(d, c.delta)),
        ExprV::TypeLit(a, b, d) => ExprV::TypeLit(a, copied_named_exprs(b, c), shifted(d, c.delta)),
        ExprV::VariantLit(a, b, d, e) => ExprV::VariantLit(a, b, copied_named_exprs(d, c), shifted(e, c.delta)),
        ExprV::If(a, b, d, e) => ExprV::If(Box::new(copied_expr(*a, c)), copied_block(b, c), match d { Some(x) => Some(Box::new(copied_expr(*x, c))), None => None }, shifted(e, c.delta)),
        ExprV::IfLet(a, b, d, e, f) => ExprV::IfLet(copied_pattern(a, c), Box::new(copied_expr(*b, c)), copied_block(d, c), match e { Some(x) => Some(Box::new(copied_expr(*x, c))), None => None }, shifted(f, c.delta)),
        ExprV::Match(a, b, d) => ExprV::Match(Box::new(copied_expr(*a, c)), copied_match_arms(b, c), shifted(d, c.delta)),
        ExprV::Block(a, b) => ExprV::Block(copied_block(a, c), shifted(b, c.delta)),
    }
}

/// The copy of a model `StmtV`.
pub open spec fn copied_stmt(n: StmtV, c: Copy1) -> StmtV
    decreases n,
{
    match n {
        StmtV::Let { pat, ty, value, is_const, span } => StmtV::Let {
            pat: copied_pattern(pat, c),
            ty: match ty { Some(x) => Some(copied_type_expr(x, c)), None => None },
            value: match value { Some(x) => Some(copied_expr(x, c)), None => None },
            is_const: is_const,
            span: shifted(span, c.delta),
        },
        StmtV::Assign { target, op, value, span } => StmtV::Assign {
            target: copied_expr(target, c),
            op: op,
            value: copied_expr(value, c),
            span: shifted(span, c.delta),
        },
        StmtV::Expr(a) => StmtV::Expr(copied_expr(a, c)),
        StmtV::While { cond, body, span } => StmtV::While {
            cond: copied_expr(cond, c),
            body: copied_block(body, c),
            span: shifted(span, c.delta),
        },
        StmtV::For { var, iter, body, span } => StmtV::For {
            var: var,
            iter: copied_expr(iter, c),
            body: copied_block(body, c),
            span: shifted(span, c.delta),
        },
        StmtV::Return(a, b) => StmtV::Return(match a { Some(x) => Some(copied_expr(x, c)), None => None }, shifted(b, c.delta)),
        StmtV::Break(a) => StmtV::Break(shifted(a, c.delta)),
        StmtV::Continue(a) => StmtV::Continue(shifted(a, c.delta)),
    }
}

/// The copy of a model `ParamV`.
pub open spec fn copied_param(n: ParamV, c: Copy1) -> ParamV
    decreases n,
{
    ParamV {
        name: n.name,
        ty: match n.ty { Some(x) => Some(copied_type_expr(x, c)), None => None },
        span: shifted(n.span, c.delta),
    }
}

pub open spec fn copied_params(ns: Seq<ParamV>, c: Copy1) -> Seq<ParamV>
    decreases ns,
{
    Seq::new(ns.len(), |i: int| if 0 <= i < ns.len() { copied_param(ns[i], c) } else { arbitrary() })
}

pub open spec fn copied_type_exprs(ns: Seq<TypeExprV>, c: Copy1) -> Seq<TypeExprV>
    decreases ns,
{
    Seq::new(ns.len(), |i: int| if 0 <= i < ns.len() { copied_type_expr(ns[i], c) } else { arbitrary() })
}

pub open spec fn copied_field_pats(ns: Seq<FieldPatV>, c: Copy1) -> Seq<FieldPatV>
    decreases ns,
{
    Seq::new(ns.len(), |i: int| if 0 <= i < ns.len() { copied_field_pat(ns[i], c) } else { arbitrary() })
}

pub open spec fn copied_patterns(ns: Seq<PatternV>, c: Copy1) -> Seq<PatternV>
    decreases ns,
{
    Seq::new(ns.len(), |i: int| if 0 <= i < ns.len() { copied_pattern(ns[i], c) } else { arbitrary() })
}

pub open spec fn copied_stmts(ns: Seq<StmtV>, c: Copy1) -> Seq<StmtV>
    decreases ns,
{
    Seq::new(ns.len(), |i: int| if 0 <= i < ns.len() { copied_stmt(ns[i], c) } else { arbitrary() })
}

pub open spec fn copied_str_segs(ns: Seq<StrSegV>, c: Copy1) -> Seq<StrSegV>
    decreases ns,
{
    Seq::new(ns.len(), |i: int| if 0 <= i < ns.len() { copied_str_seg(ns[i], c) } else { arbitrary() })
}

pub open spec fn copied_args(ns: Seq<ArgV>, c: Copy1) -> Seq<ArgV>
    decreases ns,
{
    Seq::new(ns.len(), |i: int| if 0 <= i < ns.len() { copied_arg(ns[i], c) } else { arbitrary() })
}

pub open spec fn copied_exprs(ns: Seq<ExprV>, c: Copy1) -> Seq<ExprV>
    decreases ns,
{
    Seq::new(ns.len(), |i: int| if 0 <= i < ns.len() { copied_expr(ns[i], c) } else { arbitrary() })
}

pub open spec fn copied_match_arms(ns: Seq<MatchArmV>, c: Copy1) -> Seq<MatchArmV>
    decreases ns,
{
    Seq::new(ns.len(), |i: int| if 0 <= i < ns.len() { copied_match_arm(ns[i], c) } else { arbitrary() })
}

pub open spec fn copied_named_type_exprs(ns: Seq<(Seq<char>, TypeExprV)>, c: Copy1) -> Seq<(Seq<char>, TypeExprV)>
    decreases ns,
{
    Seq::new(
        ns.len(),
        |i: int| if 0 <= i < ns.len() { (ns[i].0, copied_type_expr(ns[i].1, c)) } else { arbitrary() },
    )
}

pub open spec fn copied_named_exprs(ns: Seq<(Seq<char>, ExprV)>, c: Copy1) -> Seq<(Seq<char>, ExprV)>
    decreases ns,
{
    Seq::new(
        ns.len(),
        |i: int| if 0 <= i < ns.len() { (ns[i].0, copied_expr(ns[i].1, c)) } else { arbitrary() },
    )
}

// ---- spans that can be shifted ----

/// Whether every span a copy shifts lies at or below `top`.
pub open spec fn type_expr_fits(n: TypeExprV, top: int) -> bool
    decreases n,
{
    match n {
        TypeExprV::Named(_, b) => below(b, top),
        TypeExprV::Array(a, _, d) => type_expr_fits(*a, top) && below(d, top),
        TypeExprV::Fun(a, b, d) => type_exprs_fit(a, top) && type_expr_fits(*b, top) && below(d, top),
        TypeExprV::Nullable(a, b) => type_expr_fits(*a, top) && below(b, top),
        TypeExprV::Fallible(a, b) => type_expr_fits(*a, top) && below(b, top),
        TypeExprV::Tuple(a, b) => type_exprs_fit(a, top) && below(b, top),
        TypeExprV::Anonymous(a, b) => named_type_exprs_fit(a, top) && below(b, top),
        TypeExprV::Mut(a, b) => type_expr_fits(*a, top) && below(b, top),
        TypeExprV::Ref(a, b) => type_expr_fits(*a, top) && below(b, top),
        TypeExprV::TypeOf(a, b) => expr_fits(*a, top) && below(b, top),
        TypeExprV::TypeSlot(a) => below(a, top),
        TypeExprV::SelfField(_, b) => below(b, top),
        TypeExprV::Refine(a, b, d) => type_expr_fits(*a, top) && named_type_exprs_fit(b, top) && below(d, top),
    }
}

/// Whether every span a copy shifts lies at or below `top`.
pub open spec fn field_pat_fits(n: FieldPatV, top: int) -> bool
    decreases n,
{
    &&& (n.pat matches Some(x) ==> pattern_fits(x, top))
    &&& below(n.span, top)
}

/// Whether every span a copy shifts lies at or below `top`.
pub open spec fn pattern_fits(n: PatternV, top: int) -> bool
    decreases n,
{
    match n {
        PatternV::Wildcard(a) => below(a, top),
        PatternV::Binding(_, b) => below(b, top),
        PatternV::Literal(a, b) => expr_fits(*a, top) && below(b, top),
        PatternV::Record(_, b, d) => field_pats_fit(b, top) && below(d, top),
        PatternV::Array(a, b) => patterns_fit(a, top) && below(b, top),
    }
}

/// Whether every span a copy shifts lies at or below `top`.
pub open spec fn str_seg_fits(n: StrSegV, top: int) -> bool
    decreases n,
{
    match n {
        StrSegV::Lit(_) => true,
        StrSegV::Expr(a) => expr_fits(*a, top),
    }
}

/// Whether every span a copy shifts lies at or below `top`.
pub open spec fn arg_fits(n: ArgV, top: int) -> bool
    decreases n,
{
    &&& expr_fits(n.expr, top)
}

/// Whether every span a copy shifts lies at or below `top`.
pub open spec fn match_arm_fits(n: MatchArmV, top: int) -> bool
    decreases n,
{
    &&& pattern_fits(n.pattern, top)
    &&& expr_fits(n.body, top)
    &&& below(n.span, top)
}

/// Whether every span a copy shifts lies at or below `top`.
pub open spec fn block_fits(n: BlockV, top: int) -> bool
    decreases n,
{
    &&& stmts_fit(n.stmts, top)
    &&& below(n.span, top)
}

/// Whether every span a copy shifts lies at or below `top`.
pub open spec fn expr_fits(n: ExprV, top: int) -> bool
    decreases n,
{
    match n {
        ExprV::Int(_, b) => below(b, top),
        ExprV::Float(_, b) => below(b, top),
        ExprV::Bool(_, b) => below(b, top),
        ExprV::Null(a) => below(a, top),
        ExprV::Ident(_, b) => below(b, top),
        ExprV::SelfExpr(a) => below(a, top),
        ExprV::Str(a, b) => str_segs_fit(a, top) && below(b, top),
        ExprV::Unary(_, b, d) => expr_fits(*b, top) && below(d, top),
        ExprV::Binary(_, b, d, e) => expr_fits(*b, top) && expr_fits(*d, top) && below(e, top),
        ExprV::Call(a, b, d) => expr_fits(*a, top) && args_fit(b, top) && below(d, top),
        ExprV::Field(a, _, d) => expr_fits(*a, top) && below(d, top),
        ExprV::Index(a, b, d) => expr_fits(*a, top) && expr_fits(*b, top) && below(d, top),
        ExprV::ErrorProp(a, b) => expr_fits(*a, top) && below(b, top),
        ExprV::Closure(a, b, d) => params_fit(a, top) && expr_fits(*b, top) && below(d, top),
        ExprV::Array(a, b) => exprs_fit(a, top) && below(b, top),
        ExprV::Range(a, b, d) => expr_fits(*a, top) && expr_fits(*b, top) && below(d, top),
        ExprV::TypeLit(_, b, d) => named_exprs_fit(b, top) && below(d, top),
        ExprV::VariantLit(_, _, d, e) => named_exprs_fit(d, top) && below(e, top),
        ExprV::If(a, b, d, e) => expr_fits(*a, top) && block_fits(b, top) && (d matches Some(x) ==> expr_fits(*x, top)) && below(e, top),
        ExprV::IfLet(a, b, d, e, f) => pattern_fits(a, top) && expr_fits(*b, top) && block_fits(d, top) && (e matches Some(x) ==> expr_fits(*x, top)) && below(f, top),
        ExprV::Match(a, b, d) => expr_fits(*a, top) && match_arms_fit(b, top) && below(d, top),
        ExprV::Block(a, b) => block_fits(a, top) && below(b, top),
    }
}

/// Whether every span a copy shifts lies at or below `top`.
pub open spec fn stmt_fits(n: StmtV, top: int) -> bool
    decreases n,
{
    match n {
        StmtV::Let { pat, ty, value, span, .. } => pattern_fits(pat, top) && (ty matches Some(x) ==> type_expr_fits(x, top)) && (value matches Some(x) ==> expr_fits(x, top)) && below(span, top),
        StmtV::Assign { target, value, span, .. } => expr_fits(target, top) && expr_fits(value, top) && below(span, top),
        StmtV::Expr(a) => expr_fits(a, top),
        StmtV::While { cond, body, span } => expr_fits(cond, top) && block_fits(body, top) && below(span, top),
        StmtV::For { iter, body, span, .. } => expr_fits(iter, top) && block_fits(body, top) && below(span, top),
        StmtV::Return(a, b) => (a matches Some(x) ==> expr_fits(x, top)) && below(b, top),
        StmtV::Break(a) => below(a, top),
        StmtV::Continue(a) => below(a, top),
    }
}

/// Whether every span a copy shifts lies at or below `top`.
pub open spec fn param_fits(n: ParamV, top: int) -> bool
    decreases n,
{
    &&& n.ty matches Some(x) ==> type_expr_fits(x, top)
    &&& below(n.span, top)
}

pub open spec fn params_fit(ns: Seq<ParamV>, top: int) -> bool
    decreases ns,
{
    forall|i: int| 0 <= i < ns.len() ==> param_fits(#[trigger] ns[i], top)
}

pub open spec fn type_exprs_fit(ns: Seq<TypeExprV>, top: int) -> bool
    decreases ns,
{
    forall|i: int| 0 <= i < ns.len() ==> type_expr_fits(#[trigger] ns[i], top)
}

pub open spec fn field_pats_fit(ns: Seq<FieldPatV>, top: int) -> bool
    decreases ns,
{
    forall|i: int| 0 <= i < ns.len() ==> field_pat_fits(#[trigger] ns[i], top)
}

pub open spec fn patterns_fit(ns: Seq<PatternV>, top: int) -> bool
    decreases ns,
{
    forall|i: int| 0 <= i < ns.len() ==> pattern_fits(#[trigger] ns[i], top)
}

pub open spec fn stmts_fit(ns: Seq<StmtV>, top: int) -> bool
    decreases ns,
{
    forall|i: int| 0 <= i < ns.len() ==> stmt_fits(#[trigger] ns[i], top)
}

pub open spec fn str_segs_fit(ns: Seq<StrSegV>, top: int) -> bool
    decreases ns,
{
    forall|i: int| 0 <= i < ns.len() ==> str_seg_fits(#[trigger] ns[i], top)
}

pub open spec fn args_fit(ns: Seq<ArgV>, top: int) -> bool
    decreases ns,
{
    forall|i: int| 0 <= i < ns.len() ==> arg_fits(#[trigger] ns[i], top)
}

pub open spec fn exprs_fit(ns: Seq<ExprV>, top: int) -> bool
    decreases ns,
{
    forall|i: int| 0 <= i < ns.len() ==> expr_fits(#[trigger] ns[i], top)
}

pub open spec fn match_arms_fit(ns: Seq<MatchArmV>, top: int) -> bool
    decreases ns,
{
    forall|i: int| 0 <= i < ns.len() ==> match_arm_fits(#[trigger] ns[i], top)
}

pub open spec fn named_type_exprs_fit(ns: Seq<(Seq<char>, TypeExprV)>, top: int) -> bool
    decreases ns,
{
    forall|i: int| 0 <= i < ns.len() ==> type_expr_fits((#[trigger] ns[i]).1, top)
}

pub open spec fn named_exprs_fit(ns: Seq<(Seq<char>, ExprV)>, top: int) -> bool
    decreases ns,
{
    forall|i: int| 0 <= i < ns.len() ==> expr_fits((#[trigger] ns[i]).1, top)
}

// ---- making a copy ----

/// One unrolled copy of a fields-loop body: the loop variable `var` decays to
/// the string constant `field` except in `v[var]`, which becomes `v.<field>`;
/// every span is shifted by `iteration + 1` shift units.
pub fn expand_fields_body(body: &Block, var: &str, field: &str, iteration: usize) -> (r: Block)
    requires
        (iteration + 1) * SPAN_SHIFT_UNIT <= usize::MAX,
        block_fits(body@, usize::MAX - (iteration + 1) * SPAN_SHIFT_UNIT),
    ensures
        r@ == copied_block(
            body@,
            (Copy1 { var: var@, field: field@, delta: (iteration + 1) * SPAN_SHIFT_UNIT }),
        ),
{
    assert((iteration + 1) * SPAN_SHIFT_UNIT >= iteration + 1) by (nonlinear_arith);
    let cx = Expander { var, field, delta: (iteration + 1) * SPAN_SHIFT_UNIT };
    cx.block(body)
}

struct Expander<'a> {
    var: &'a str,
    field: &'a str,
    delta: usize,
}

impl<'a> Expander<'a> {
    spec fn copy(&self) -> Copy1 {
        Copy1 { var: self.var@, field: self.field@, delta: self.delta as int }
    }

    spec fn top(&self) -> int {
        usize::MAX - self.delta
    }

    fn span(&self, s: Span) -> (r: Span)
        requires
            below(s, self.top()),
        ensures
            r == shifted(s, self.delta as int),
    {
        Span::new(s.lo + self.delta, s.hi + self.delta)
    }

    fn type_expr(&self, n: &TypeExpr) -> (r: TypeExpr)
        requires
            type_expr_fits(n@, self.top()),
        ensures
            r@ == copied_type_expr(n@, self.copy()),
        decreases *n,
    {
        match n {
            TypeExpr::Named(a, b) => TypeExpr::Named(a.clone(), self.span(*b)),
            TypeExpr::Array(a, b, d) => TypeExpr::Array(Box::new(self.type_expr(a)), *b, self.span(*d)),
            TypeExpr::Fun(a, b, d) => TypeExpr::Fun(self.type_exprs(a), Box::new(self.type_expr(b)), self.span(*d)),
            TypeExpr::Nullable(a, b) => TypeExpr::Nullable(Box::new(self.type_expr(a)), self.span(*b)),
            TypeExpr::Fallible(a, b) => TypeExpr::Fallible(Box::new(self.type_expr(a)), self.span(*b)),
            TypeExpr::Tuple(a, b) => TypeExpr::Tuple(self.type_exprs(a), self.span(*b)),
            TypeExpr::Anonymous(a, b) => TypeExpr::Anonymous(self.named_type_exprs(a), self.span(*b)),
            TypeExpr::Mut(a, b) => TypeExpr::Mut(Box::new(self.type_expr(a)), self.span(*b)),
            TypeExpr::Ref(a, b) => TypeExpr::Ref(Box::new(self.type_expr(a)), self.span(*b)),
            TypeExpr::TypeOf(a, b) => TypeExpr::TypeOf(Box::new(self.expr(a)), self.span(*b)),
            TypeExpr::TypeSlot(a) => TypeExpr::TypeSlot(self.span(*a)),
            TypeExpr::SelfField(a, b) => TypeExpr::SelfField(a.clone(), self.span(*b)),
            TypeExpr::Refine(a, b, d) => TypeExpr::Refine(Box::new(self.type_expr(a)), self.named_type_exprs(b), self.span(*d)),
        }
    }

    fn field_pat(&self, n: &FieldPat) -> (r: FieldPat)
        requires
            field_pat_fits(n@, self.top()),
        ensures
            r@ == copied_field_pat(n@, self.copy()),
        decreases *n,
    {
        FieldPat {
            name: n.name.clone(),
            pat: match &n.pat { Some(x) => Some(self.pattern(x)), None => None },
            span: self.span(n.span),
        }
    }

    #[verifier::rlimit(50)]
    fn pattern(&self, n: &Pattern) -> (r: Pattern)
        requires
            pattern_fits(n@, self.top()),
        ensures
            r@ == copied_pattern(n@, self.copy()),
        decreases *n,
    {
        match n {
            Pattern::Wildcard(a) => Pattern::Wildcard(self.span(*a)),
            Pattern::Binding(a, b) => Pattern::Binding(a.clone(), self.span(*b)),
            Pattern::Literal(a, b) => Pattern::Literal(Box::new(self.expr(a)), self.span(*b)),
            Pattern::Record(a, b, d) => Pattern::Record(a.clone(), self.field_pats(b), self.span(*d)),
            Pattern::Array(a, b) => Pattern::Array(self.patterns(a), self.span(*b)),
        }
    }

    fn str_seg(&self, n: &StrSeg) -> (r: StrSeg)
        requires
            str_seg_fits(n@, self.top()),
        ensures
            r@ == copied_str_seg(n@, self.copy()),
        decreases *n,
    {
        match n {
            StrSeg::Lit(a) => StrSeg::Lit(a.clone()),
            StrSeg::Expr(a) => StrSeg::Expr(Box::new(self.expr(a))),
        }
    }

    fn arg(&self, n: &Arg) -> (r: Arg)
        requires
            arg_fits(n@, self.top()),
        ensures
            r@ == copied_arg(n@, self.copy()),
        decreases *n,
    {
        Arg {
            expr: self.expr(&n.expr),
        }
    }

    fn match_arm(&self, n: &MatchArm) -> (r: MatchArm)
        requires
            match_arm_fits(n@, self.top()),
        ensures
            r@ == copied_match_arm(n@, self.copy()),
        decreases *n,
    {
        MatchArm {
            pattern: self.pattern(&n.pattern),
            body: self.expr(&n.body),
            span: self.span(n.span),
        }
    }

    fn block(&self, n: &Block) -> (r: Block)
        requires
            block_fits(n@, self.top()),
        ensures
            r@ == copied_block(n@, self.copy()),
        decreases *n,
    {
        Block {
            stmts: self.stmts(&n.stmts),
            span: self.span(n.span),
        }
    }

    #[verifier::rlimit(50)]
    fn expr(&self, n: &Expr) -> (r: Expr)
        requires
            expr_fits(n@, self.top()),
        ensures
            r@ == copied_expr(n@, self.copy()),
        decreases *n,
    {
        match n {
            Expr::Ident(name, s) if str_eq(name.as_str(), self.var) => {
                let segs = vec![StrSeg::Lit(self.field.to_owned())];
                proof {
                    reveal_with_fuel(str_seg_view, 2);
                    assert(str_segs_view(segs@) =~= seq![StrSegV::Lit(self.field@)]);
                }
                return Expr::Str(segs, self.span(*s));
            },
            Expr::Index(base, idx, s) => {
                let projects = match &**idx {
                    Expr::Ident(name, _) => str_eq(name.as_str(), self.var),
                    _ => false,
                };
                proof {
                    reveal_with_fuel(expr_view, 2);
                }
                if projects {
                    return Expr::Field(
                        Box::new(self.expr(base)),
                        self.field.to_owned(),
                        self.span(*s),
                    );
                }
                return Expr::Index(
                    Box::new(self.expr(base)),
                    Box::new(self.expr(idx)),
                    self.span(*s),
                );
            },
            _ => {},
        }
        match n {
            Expr::Int(a, b) => Expr::Int(*a, self.span(*b)),
            Expr::Float(a, b) => Expr::Float(a.clone(), self.span(*b)),
            Expr::Bool(a, b) => Expr::Bool(*a, self.span(*b)),
            Expr::Null(a) => Expr::Null(self.span(*a)),
            Expr::Ident(a, b) => Expr::Ident(a.clone(), self.span(*b)),
            Expr::SelfExpr(a) => Expr::SelfExpr(self.span(*a)),
            Expr::Str(a, b) => Expr::Str(self.str_segs(a), self.span(*b)),
            Expr::Unary(a, b, d) => Expr::Unary(*a, Box::new(self.expr(b)), self.span(*d)),
            Expr::Binary(a, b, d, e) => Expr::Binary(*a, Box::new(self.expr(b)), Box::new(self.expr(d)), self.span(*e)),
            Expr::Call(a, b, d) => Expr::Call(Box::new(self.expr(a)), self.args(b), self.span(*d)),
            Expr::Field(a, b, d) => Expr::Field(Box::new(self.expr(a)), b.clone(), self.span(*d)),
            Expr::Index(a, b, d) => Expr::Index(Box::new(self.expr(a)), Box::new(self.expr(b)), self.span(*d)),
            Expr::ErrorProp(a, b) => Expr::ErrorProp(Box::new(self.expr(a)), self.span(*b)),
            Expr::Closure(a, b, d) => Expr::Closure(self.params(a), Box::new(self.expr(b)), self.span(*d)),
            Expr::Array(a, b) => Expr::Array(self.exprs(a), self.span(*b)),
            Expr::Range(a, b, d) => Expr::Range(Box::new(self.expr(a)), Box::new(self.expr(b)), self.span(*d)),
            Expr::TypeLit(a, b, d) => Expr::TypeLit(a.clone(), self.named_exprs(b), self.span(*d)),
            Expr::VariantLit(a, b, d, e) => Expr::VariantLit(a.clone(), b.clone(), self.named_exprs(d), self.span(*e)),
            Expr::If(a, b, d, e) => Expr::If(Box::new(self.expr(a)), self.block(b), match d { Some(x) => Some(Box::new(self.expr(x))), None => None }, self.span(*e)),
            Expr::IfLet(a, b, d, e, f) => Expr::IfLet(self.pattern(a), Box::new(self.expr(b)), self.block(d), match e { Some(x) => Some(Box::new(self.expr(x))), None => None }, self.span(*f)),
            Expr::Match(a, b, d) => Expr::Match(Box::new(self.expr(a)), self.match_arms(b), self.span(*d)),
            Expr::Block(a, b) => Expr::Block(self.block(a), self.span(*b)),
        }
    }

    #[verifier::rlimit(50)]
    fn stmt(&self, n: &Stmt) -> (r: Stmt)
        requires
            stmt_fits(n@, self.top()),
        ensures
            r@ == copied_stmt(n@, self.copy()),
        decreases *n,
    {
        match n {
            Stmt::Let { pat, ty, value, is_const, span } => Stmt::Let {
                pat: self.pattern(pat),
                ty: match ty { Some(x) => Some(self.type_expr(x)), None => None },
                value: match value { Some(x) => Some(self.expr(x)), None => None },
                is_const: *is_const,
                span: self.span(*span),
            },
            Stmt::Assign { target, op, value, span } => Stmt::Assign {
                target: self.expr(target),
                op: *op,
                value: self.expr(value),
                span: self.span(*span),
            },
            Stmt::Expr(a) => Stmt::Expr(self.expr(a)),
            Stmt::While { cond, body, span } => Stmt::While {
                cond: self.expr(cond),
                body: self.block(body),
                span: self.span(*span),
            },
            Stmt::For { var, iter, body, span } => Stmt::For {
                var: var.clone(),
                iter: self.expr(iter),
                body: self.block(body),
                span: self.span(*span),
            },
            Stmt::Return(a, b) => Stmt::Return(match a { Some(x) => Some(self.expr(x)), None => None }, self.span(*b)),
            Stmt::Break(a) => Stmt::Break(self.span(*a)),
            Stmt::Continue(a) => Stmt::Continue(self.span(*a)),
        }
    }

    fn param(&self, n: &Param) -> (r: Param)
        requires
            param_fits(n@, self.top()),
        ensures
            r@ == copied_param(n@, self.copy()),
        decreases *n,
    {
        Param {
            name: n.name.clone(),
            ty: match &n.ty {
                Some(x) => Some(self.type_expr(x)),
                None => None,
            },
            span: self.span(n.span),
        }
    }

    fn params(&self, ns: &Vec<Param>) -> (r: Vec<Param>)
        requires
            params_fit(params_view(ns@), self.top()),
        ensures
            params_view(r@) == copied_params(params_view(ns@), self.copy()),
        decreases *ns,
    {
        let mut out: Vec<Param> = Vec::new();
        for i in 0..ns.len()
            invariant
                params_fit(params_view(ns@), self.top()),
                out.len() == i,
                forall|j: int|
                    0 <= j < i ==> (#[trigger] out[j])@ == copied_param(ns[j]@, self.copy()),
        {
            assert(params_view(ns@)[i as int] == ns[i as int]@);
            out.push(self.param(&ns[i]));
        }
        assert(params_view(out@) =~= copied_params(params_view(ns@), self.copy()));
        out
    }

    fn type_exprs(&self, ns: &Vec<TypeExpr>) -> (r: Vec<TypeExpr>)
        requires
            type_exprs_fit(type_exprs_view(ns@), self.top()),
        ensures
            type_exprs_view(r@) == copied_type_exprs(type_exprs_view(ns@), self.copy()),
        decreases *ns,
    {
        let mut out: Vec<TypeExpr> = Vec::new();
        for i in 0..ns.len()
            invariant
                type_exprs_fit(type_exprs_view(ns@), self.top()),
                out.len() == i,
                forall|j: int|
                    0 <= j < i ==> (#[trigger] out[j])@ == copied_type_expr(ns[j]@, self.copy()),
        {
            assert(type_exprs_view(ns@)[i as int] == ns[i as int]@);
            out.push(self.type_expr(&ns[i]));
        }
        assert(type_exprs_view(out@) =~= copied_type_exprs(type_exprs_view(ns@), self.copy()));
        out
    }

    fn field_pats(&self, ns: &Vec<FieldPat>) -> (r: Vec<FieldPat>)
        requires
            field_pats_fit(field_pats_view(ns@), self.top()),
        ensures
            field_pats_view(r@) == copied_field_pats(field_pats_view(ns@), self.copy()),
        decreases *ns,
    {
        let mut out: Vec<FieldPat> = Vec::new();
        for i in 0..ns.len()
            invariant
                field_pats_fit(field_pats_view(ns@), self.top()),
                out.len() == i,
                forall|j: int|
                    0 <= j < i ==> (#[trigger] out[j])@ == copied_field_pat(ns[j]@, self.copy()),
        {
            assert(field_pats_view(ns@)[i as int] == ns[i as int]@);
            out.push(self.field_pat(&ns[i]));
        }
        assert(field_pats_view(out@) =~= copied_field_pats(field_pats_view(ns@), self.copy()));
        out
    }

    fn patterns(&self, ns: &Vec<Pattern>) -> (r: Vec<Pattern>)
        requires
            patterns_fit(patterns_view(ns@), self.top()),
        ensures
            patterns_view(r@) == copied_patterns(patterns_view(ns@), self.copy()),
        decreases *ns,
    {
        let mut out: Vec<Pattern> = Vec::new();
        for i in 0..ns.len()
            invariant
                patterns_fit(patterns_view(ns@), self.top()),
                out.len() == i,
                forall|j: int|
                    0 <= j < i ==> (#[trigger] out[j])@ == copied_pattern(ns[j]@, self.copy()),
        {
            assert(patterns_view(ns@)[i as int] == ns[i as int]@);
            out.push(self.pattern(&ns[i]));
        }
        assert(patterns_view(out@) =~= copied_patterns(patterns_view(ns@), self.copy()));
        out
    }

    fn stmts(&self, ns: &Vec<Stmt>) -> (r: Vec<Stmt>)
        requires
            stmts_fit(stmts_view(ns@), self.top()),
        ensures
            stmts_view(r@) == copied_stmts(stmts_view(ns@), self.copy()),
        decreases *ns,
    {
        let mut out: Vec<Stmt> = Vec::new();
        for i in 0..ns.len()
            invariant
                stmts_fit(stmts_view(ns@), self.top()),
                out.len() == i,
                forall|j: int|
                    0 <= j < i ==> (#[trigger] out[j])@ == copied_stmt(ns[j]@, self.copy()),
        {
            assert(stmts_view(ns@)[i as int] == ns[i as int]@);
            out.push(self.stmt(&ns[i]));
        }
        assert(stmts_view(out@) =~= copied_stmts(stmts_view(ns@), self.copy()));
        out
    }

    fn str_segs(&self, ns: &Vec<StrSeg>) -> (r: Vec<StrSeg>)
        requires
            str_segs_fit(str_segs_view(ns@), self.top()),
        ensures
            str_segs_view(r@) == copied_str_segs(str_segs_view(ns@), self.copy()),
        decreases *ns,
    {
        let mut out: Vec<StrSeg> = Vec::new();
        for i in 0..ns.len()
            invariant
                str_segs_fit(str_segs_view(ns@), self.top()),
                out.len() == i,
                forall|j: int|
                    0 <= j < i ==> (#[trigger] out[j])@ == copied_str_seg(ns[j]@, self.copy()),
        {
            assert(str_segs_view(ns@)[i as int] == ns[i as int]@);
            out.push(self.str_seg(&ns[i]));
        }
        assert(str_segs_view(out@) =~= copied_str_segs(str_segs_view(ns@), self.copy()));
        out
    }

    fn args(&self, ns: &Vec<Arg>) -> (r: Vec<Arg>)
        requires
            args_fit(args_view(ns@), self.top()),
        ensures
            args_view(r@) == copied_args(args_view(ns@), self.copy()),
        decreases *ns,
    {
        let mut out: Vec<Arg> = Vec::new();
        for i in 0..ns.len()
            invariant
                args_fit(args_view(ns@), self.top()),
                out.len() == i,
                forall|j: int|
                    0 <= j < i ==> (#[trigger] out[j])@ == copied_arg(ns[j]@, self.copy()),
        {
            assert(args_view(ns@)[i as int] == ns[i as int]@);
            out.push(self.arg(&ns[i]));
        }
        assert(args_view(out@) =~= copied_args(args_view(ns@), self.copy()));
        out
    }

    fn exprs(&self, ns: &Vec<Expr>) -> (r: Vec<Expr>)
        requires
            exprs_fit(exprs_view(ns@), self.top()),
        ensures
            exprs_view(r@) == copied_exprs(exprs_view(ns@), self.copy()),
        decreases *ns,
    {
        let mut out: Vec<Expr> = Vec::new();
        for i in 0..ns.len()
            invariant
                exprs_fit(exprs_view(ns@), self.top()),
                out.len() == i,
                forall|j: int|
                    0 <= j < i ==> (#[trigger] out[j])@ == copied_expr(ns[j]@, self.copy()),
        {
            assert(exprs_view(ns@)[i as int] == ns[i as int]@);
            out.push(self.expr(&ns[i]));
        }
        assert(exprs_view(out@) =~= copied_exprs(exprs_view(ns@), self.copy()));
        out
    }

    fn match_arms(&self, ns: &Vec<MatchArm>) -> (r: Vec<MatchArm>)
        requires
            match_arms_fit(match_arms_view(ns@), self.top()),
        ensures
            match_arms_view(r@) == copied_match_arms(match_arms_view(ns@), self.copy()),
        decreases *ns,
    {
        let mut out: Vec<MatchArm> = Vec::new();
        for i in 0..ns.len()
            invariant
                match_arms_fit(match_arms_view(ns@), self.top()),
                out.len() == i,
                forall|j: int|
                    0 <= j < i ==> (#[trigger] out[j])@ == copied_match_arm(ns[j]@, self.copy()),
        {
            assert(match_arms_view(ns@)[i as int] == ns[i as int]@);
            out.push(self.match_arm(&ns[i]));
        }
        assert(match_arms_view(out@) =~= copied_match_arms(match_arms_view(ns@), self.copy()));
        out
    }

    fn named_type_exprs(&self, ns: &Vec<(String, TypeExpr)>) -> (r: Vec<(String, TypeExpr)>)
        requires
            named_type_exprs_fit(named_type_exprs_view(ns@), self.top()),
        ensures
            named_type_exprs_view(r@) == copied_named_type_exprs(named_type_exprs_view(ns@), self.copy()),
        decreases *ns,
    {
        let mut out: Vec<(String, TypeExpr)> = Vec::new();
        for i in 0..ns.len()
            invariant
                named_type_exprs_fit(named_type_exprs_view(ns@), self.top()),
                out.len() == i,
                forall|j: int|
                    0 <= j < i ==> (#[trigger] out[j]).0@ == ns[j].0@ && out[j].1@ == copied_type_expr(
                        ns[j].1@,
                        self.copy(),
                    ),
        {
            assert(named_type_exprs_view(ns@)[i as int].1 == ns[i as int].1@);
            out.push((ns[i].0.clone(), self.type_expr(&ns[i].1)));
        }
        assert(named_type_exprs_view(out@) =~= copied_named_type_exprs(named_type_exprs_view(ns@), self.copy()));
        out
    }

    fn named_exprs(&self, ns: &Vec<(String, Expr)>) -> (r: Vec<(String, Expr)>)
        requires
            named_exprs_fit(named_exprs_view(ns@), self.top()),
        ensures
            named_exprs_view(r@) == copied_named_exprs(named_exprs_view(ns@), self.copy()),
        decreases *ns,
    {
        let mut out: Vec<(String, Expr)> = Vec::new();
        for i in 0..ns.len()
            invariant
                named_exprs_fit(named_exprs_view(ns@), self.top()),
                out.len() == i,
                forall|j: int|
                    0 <= j < i ==> (#[trigger] out[j]).0@ == ns[j].0@ && out[j].1@ == copied_expr(
                        ns[j].1@,
                        self.copy(),
                    ),
        {
            assert(named_exprs_view(ns@)[i as int].1 == ns[i as int].1@);
            out.push((ns[i].0.clone(), self.expr(&ns[i].1)));
        }
        assert(named_exprs_view(out@) =~= copied_named_exprs(named_exprs_view(ns@), self.copy()));
        out
    }

}

} // verus!
