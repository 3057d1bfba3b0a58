//! The names that code binds, wherever they are bound.

use vstd::prelude::*;
use crate::ast::{args_view, exprs_view, field_pats_view, match_arms_view, named_exprs_view, params_view, patterns_view, stmts_view, str_segs_view, Arg, ArgV, Expr, ExprV, FieldPat, FieldPatV, MatchArm, MatchArmV, Param, ParamV, Pattern, PatternV, Stmt, StmtV, StrSeg, StrSegV};
use crate::span::Span;

verus! {

/// The models of named spans.
pub open spec fn named_spans(v: Seq<(String, Span)>) -> Seq<(Seq<char>, Span)> {
    Seq::new(v.len(), |i: int| (v[i].0@, v[i].1))
}

/// Every binding in a statement: `let`, `if let` and `match` patterns, loop variables and,
/// with `closures`, what closures bind, their parameters too. A loop variable has no span of
/// its own; it is attributed to the loop header.
pub open spec fn bound_in_stmt(s: StmtV, closures: bool) -> Seq<(Seq<char>, Span)>
    decreases s,
{
    match s {
        StmtV::Let { pat, value, .. } => bound_in_pattern(pat) + (match value {
            Some(e) => bound_in_expr(e, closures),
            None => Seq::empty(),
        }),
        StmtV::Assign { target, value, .. } => bound_in_expr(target, closures) + bound_in_expr(
            value,
            closures,
        ),
        StmtV::Expr(e) => bound_in_expr(e, closures),
        StmtV::While { cond, body, .. } => bound_in_expr(cond, closures) + bound_in_stmts(
            body.stmts,
            closures,
        ),
        StmtV::For { var, iter, body, span } => seq![(var, Span { lo: span.lo, hi: span.lo })]
            + bound_in_expr(iter, closures) + bound_in_stmts(body.stmts, closures),
        StmtV::Return(value, _) => match value {
            Some(e) => bound_in_expr(e, closures),
            None => Seq::empty(),
        },
        _ => Seq::empty(),
    }
}

/// The bindings a pattern introduces.
pub open spec fn bound_in_pattern(p: PatternV) -> Seq<(Seq<char>, Span)>
    decreases p,
{
    match p {
        PatternV::Binding(name, span) => seq![(name, span)],
        PatternV::Record(_, fields, _) => bound_in_field_pats(fields),
        PatternV::Array(ps, _) => bound_in_patterns(ps),
        _ => Seq::empty(),
    }
}

/// The bindings inside an expression.
pub open spec fn bound_in_expr(e: ExprV, closures: bool) -> Seq<(Seq<char>, Span)>
    decreases e,
{
    match e {
        ExprV::Closure(ps, body, _) => if closures {
            bound_in_params(ps) + bound_in_expr(*body, closures)
        } else {
            Seq::empty()
        },
        ExprV::Block(b, _) => bound_in_stmts(b.stmts, closures),
        ExprV::Unary(_, a, _) => bound_in_expr(*a, closures),
        ExprV::ErrorProp(a, _) => bound_in_expr(*a, closures),
        ExprV::Binary(_, a, b, _) => bound_in_expr(*a, closures) + bound_in_expr(*b, closures),
        ExprV::Index(a, b, _) => bound_in_expr(*a, closures) + bound_in_expr(*b, closures),
        ExprV::Range(a, b, _) => bound_in_expr(*a, closures) + bound_in_expr(*b, closures),
        ExprV::Call(c, args, _) => bound_in_expr(*c, closures) + bound_in_args(args, closures),
        ExprV::Field(a, _, _) => bound_in_expr(*a, closures),
        ExprV::Array(es, _) => bound_in_list(es, closures),
        ExprV::Str(segs, _) => bound_in_segs(segs, closures),
        ExprV::If(c, t, els, _) => bound_in_expr(*c, closures) + bound_in_stmts(t.stmts, closures) + (match els {
            Some(x) => bound_in_expr(*x, closures),
            None => Seq::empty(),
        }),
        ExprV::IfLet(p, c, t, els, _) => bound_in_pattern(p) + bound_in_expr(*c, closures) + bound_in_stmts(
            t.stmts, closures) + (match els {
            Some(x) => bound_in_expr(*x, closures),
            None => Seq::empty(),
        }),
        ExprV::Match(c, arms, _) => bound_in_expr(*c, closures) + bound_in_arms(arms, closures),
        ExprV::TypeLit(_, fs, _) => bound_in_named(fs, closures),
        ExprV::VariantLit(_, _, fs, _) => bound_in_named(fs, closures),
        _ => Seq::empty(),
    }
}

/// The bindings statements introduce.
pub open spec fn bound_in_stmts(ss: Seq<StmtV>, closures: bool) -> Seq<(Seq<char>, Span)>
    decreases ss,
{
    if ss.len() == 0 {
        Seq::empty()
    } else {
        bound_in_stmts(ss.drop_last(), closures) + bound_in_stmt(ss.last(), closures)
    }
}

/// The bindings call arguments introduce.
pub open spec fn bound_in_args(ss: Seq<ArgV>, closures: bool) -> Seq<(Seq<char>, Span)>
    decreases ss,
{
    if ss.len() == 0 {
        Seq::empty()
    } else {
        bound_in_args(ss.drop_last(), closures) + bound_in_expr(ss.last().expr, closures)
    }
}

/// The bindings expressions introduce.
pub open spec fn bound_in_list(ss: Seq<ExprV>, closures: bool) -> Seq<(Seq<char>, Span)>
    decreases ss,
{
    if ss.len() == 0 {
        Seq::empty()
    } else {
        bound_in_list(ss.drop_last(), closures) + bound_in_expr(ss.last(), closures)
    }
}

/// The bindings match arms introduce.
pub open spec fn bound_in_arms(ss: Seq<MatchArmV>, closures: bool) -> Seq<(Seq<char>, Span)>
    decreases ss,
{
    if ss.len() == 0 {
        Seq::empty()
    } else {
        bound_in_arms(ss.drop_last(), closures) + (bound_in_pattern(ss.last().pattern) + bound_in_expr(ss.last().body, closures))
    }
}

/// The bindings named entries introduce.
pub open spec fn bound_in_named(ss: Seq<(Seq<char>, ExprV)>, closures: bool) -> Seq<(Seq<char>, Span)>
    decreases ss,
{
    if ss.len() == 0 {
        Seq::empty()
    } else {
        bound_in_named(ss.drop_last(), closures) + bound_in_expr(ss.last().1, closures)
    }
}

/// The bindings the expressions of a string literal introduce.
pub open spec fn bound_in_segs(ss: Seq<StrSegV>, closures: bool) -> Seq<(Seq<char>, Span)>
    decreases ss,
{
    if ss.len() == 0 {
        Seq::empty()
    } else {
        bound_in_segs(ss.drop_last(), closures) + (match ss.last() {
            StrSegV::Expr(e) => bound_in_expr(*e, closures),
            StrSegV::Lit(_) => Seq::empty(),
        })
    }
}

/// The bindings patterns introduce.
pub open spec fn bound_in_patterns(ss: Seq<PatternV>) -> Seq<(Seq<char>, Span)>
    decreases ss,
{
    if ss.len() == 0 {
        Seq::empty()
    } else {
        bound_in_patterns(ss.drop_last()) + bound_in_pattern(ss.last())
    }
}

/// The bindings the fields of a record pattern introduce.
pub open spec fn bound_in_field_pats(ss: Seq<FieldPatV>) -> Seq<(Seq<char>, Span)>
    decreases ss,
{
    if ss.len() == 0 {
        Seq::empty()
    } else {
        bound_in_field_pats(ss.drop_last()) + (match ss.last().pat {
            Some(p) => bound_in_pattern(p),
            None => seq![(ss.last().name, ss.last().span)],
        })
    }
}

/// The bindings parameters introduce.
pub open spec fn bound_in_params(ss: Seq<ParamV>) -> Seq<(Seq<char>, Span)>
    decreases ss,
{
    if ss.len() == 0 {
        Seq::empty()
    } else {
        bound_in_params(ss.drop_last()) + seq![(ss.last().name, ss.last().span)]
    }
}

fn push_stmt_bindings(s: &Stmt, closures: bool, out: &mut Vec<(String, Span)>)
    ensures
        named_spans(final(out)@) == named_spans(old(out)@) + bound_in_stmt(s@, closures),
    decreases *s,
{
    let ghost start = named_spans(out@);
    match s {
        Stmt::Let { pat, value, .. } => {
            push_pattern_bindings(pat, out);
            if let Some(e) = value {
                push_expr_bindings(e, closures, out);
            }
        },
        Stmt::Assign { target, value, .. } => {
            push_expr_bindings(target, closures, out);
            push_expr_bindings(value, closures, out);
        },
        Stmt::Expr(e) => push_expr_bindings(e, closures, out),
        Stmt::While { cond, body, .. } => {
            push_expr_bindings(cond, closures, out);
            assert(body@.stmts == stmts_view(body.stmts@));
            push_stmts_bindings(&body.stmts, closures, out);
        },
        Stmt::For { var, iter, body, span } => {
            assert(body@.stmts == stmts_view(body.stmts@));
            out.push((var.clone(), Span::new(span.lo, span.lo)));
            assert(named_spans(out@) =~= start.push((var@, Span { lo: span.lo, hi: span.lo })));
            push_expr_bindings(iter, closures, out);
            push_stmts_bindings(&body.stmts, closures, out);
        },
        Stmt::Return(value, _) => {
            if let Some(e) = value {
                push_expr_bindings(e, closures, out);
            }
        },
        _ => {},
    }
    assert(named_spans(out@) =~= start + bound_in_stmt(s@, closures));
}

fn push_pattern_bindings(p: &Pattern, out: &mut Vec<(String, Span)>)
    ensures
        named_spans(final(out)@) == named_spans(old(out)@) + bound_in_pattern(p@),
    decreases *p,
{
    let ghost start = named_spans(out@);
    match p {
        Pattern::Binding(name, span) => {
            out.push((name.clone(), *span));
        },
        Pattern::Record(_, fields, _) => push_field_pats_bindings(fields, out),
        Pattern::Array(ps, _) => push_patterns_bindings(ps, out),
        _ => {},
    }
    assert(named_spans(out@) =~= start + bound_in_pattern(p@));
}

#[verifier::rlimit(100)]
#[verifier::spinoff_prover]
fn push_expr_bindings(e: &Expr, closures: bool, out: &mut Vec<(String, Span)>)
    ensures
        named_spans(final(out)@) == named_spans(old(out)@) + bound_in_expr(e@, closures),
    decreases *e,
{
    let ghost start = named_spans(out@);
    match e {
        Expr::Closure(ps, body, _) => {
            if closures {
                push_params_bindings(ps, out);
                push_expr_bindings(body, closures, out);
            }
        },
        Expr::Block(b, _) => {
            assert(b@.stmts == stmts_view(b.stmts@));
            push_stmts_bindings(&b.stmts, closures, out);
        },
        Expr::Unary(_, a, _) => push_expr_bindings(a, closures, out),
        Expr::ErrorProp(a, _) => push_expr_bindings(a, closures, out),
        Expr::Binary(_, a, b, _) => {
            push_expr_bindings(a, closures, out);
            push_expr_bindings(b, closures, out);
        },
        Expr::Index(a, b, _) => {
            push_expr_bindings(a, closures, out);
            push_expr_bindings(b, closures, out);
        },
        Expr::Range(a, b, _) => {
            push_expr_bindings(a, closures, out);
            push_expr_bindings(b, closures, out);
        },
        Expr::Call(c, args, _) => {
            push_expr_bindings(c, closures, out);
            push_args_bindings(args, closures, out);
        },
        Expr::Field(a, _, _) => push_expr_bindings(a, closures, out),
        Expr::Array(es, _) => push_list_bindings(es, closures, out),
        Expr::Str(segs, _) => push_segs_bindings(segs, closures, out),
        Expr::If(c, t, els, _) => {
            push_expr_bindings(c, closures, out);
            assert(t@.stmts == stmts_view(t.stmts@));
            push_stmts_bindings(&t.stmts, closures, out);
            if let Some(x) = els {
                push_expr_bindings(x, closures, out);
            }
        },
        Expr::IfLet(p, c, t, els, _) => {
            push_pattern_bindings(p, out);
            push_expr_bindings(c, closures, out);
            assert(t@.stmts == stmts_view(t.stmts@));
            push_stmts_bindings(&t.stmts, closures, out);
            if let Some(x) = els {
                push_expr_bindings(x, closures, out);
            }
        },
        Expr::Match(c, arms, _) => {
            push_expr_bindings(c, closures, out);
            push_arms_bindings(arms, closures, out);
        },
        Expr::TypeLit(_, fs, _) => push_named_bindings(fs, closures, out),
        Expr::VariantLit(_, _, fs, _) => push_named_bindings(fs, closures, out),
        _ => {},
    }
    assert(named_spans(out@) =~= start + bound_in_expr(e@, closures));
}

/// Append the bindings of statements.
pub fn push_stmts_bindings(v: &Vec<Stmt>, closures: bool, out: &mut Vec<(String, Span)>)
    ensures
        named_spans(final(out)@) == named_spans(old(out)@) + bound_in_stmts(stmts_view(v@), closures),
    decreases *v,
{
    let ghost start = named_spans(out@);
    let ghost all = stmts_view(v@);
    assert(start =~= start + bound_in_stmts(all.take(0), closures));
    for i in 0..v.len()
        invariant
            all == stmts_view(v@),
            named_spans(out@) == start + bound_in_stmts(all.take(i as int), closures),
    {
        proof {
            assert(all.take(i + 1).drop_last() =~= all.take(i as int));
            assert(all.take(i + 1).last() == v[i as int]@);
        }
        push_stmt_bindings(&v[i], closures, out);
        assert(named_spans(out@) =~= start + bound_in_stmts(all.take(i + 1), closures));
    }
    assert(all.take(v.len() as int) =~= all);
}

fn push_args_bindings(v: &Vec<Arg>, closures: bool, out: &mut Vec<(String, Span)>)
    ensures
        named_spans(final(out)@) == named_spans(old(out)@) + bound_in_args(args_view(v@), closures),
    decreases *v,
{
    let ghost start = named_spans(out@);
    let ghost all = args_view(v@);
    assert(start =~= start + bound_in_args(all.take(0), closures));
    for i in 0..v.len()
        invariant
            all == args_view(v@),
            named_spans(out@) == start + bound_in_args(all.take(i as int), closures),
    {
        proof {
            assert(all.take(i + 1).drop_last() =~= all.take(i as int));
            assert(all.take(i + 1).last() == v[i as int]@);
        }
        push_expr_bindings(&v[i].expr, closures, out);
        assert(named_spans(out@) =~= start + bound_in_args(all.take(i + 1), closures));
    }
    assert(all.take(v.len() as int) =~= all);
}

fn push_list_bindings(v: &Vec<Expr>, closures: bool, out: &mut Vec<(String, Span)>)
    ensures
        named_spans(final(out)@) == named_spans(old(out)@) + bound_in_list(exprs_view(v@), closures),
    decreases *v,
{
    let ghost start = named_spans(out@);
    let ghost all = exprs_view(v@);
    assert(start =~= start + bound_in_list(all.take(0), closures));
    for i in 0..v.len()
        invariant
            all == exprs_view(v@),
            named_spans(out@) == start + bound_in_list(all.take(i as int), closures),
    {
        proof {
            assert(all.take(i + 1).drop_last() =~= all.take(i as int));
            assert(all.take(i + 1).last() == v[i as int]@);
        }
        push_expr_bindings(&v[i], closures, out);
        assert(named_spans(out@) =~= start + bound_in_list(all.take(i + 1), closures));
    }
    assert(all.take(v.len() as int) =~= all);
}

#[verifier::rlimit(60)]
fn push_arms_bindings(v: &Vec<MatchArm>, closures: bool, out: &mut Vec<(String, Span)>)
    ensures
        named_spans(final(out)@) == named_spans(old(out)@) + bound_in_arms(match_arms_view(v@), closures),
    decreases *v,
{
    let ghost start = named_spans(out@);
    let ghost all = match_arms_view(v@);
    assert(start =~= start + bound_in_arms(all.take(0), closures));
    for i in 0..v.len()
        invariant
            all == match_arms_view(v@),
            named_spans(out@) == start + bound_in_arms(all.take(i as int), closures),
    {
        proof {
            assert(all.take(i + 1).drop_last() =~= all.take(i as int));
            assert(all.take(i + 1).last() == v[i as int]@);
        }
        push_pattern_bindings(&v[i].pattern, out);
        push_expr_bindings(&v[i].body, closures, out);
        assert(named_spans(out@) =~= start + bound_in_arms(all.take(i + 1), closures));
    }
    assert(all.take(v.len() as int) =~= all);
}

fn push_named_bindings(v: &Vec<(String, Expr)>, closures: bool, out: &mut Vec<(String, Span)>)
    ensures
        named_spans(final(out)@) == named_spans(old(out)@) + bound_in_named(named_exprs_view(v@), closures),
    decreases *v,
{
    let ghost start = named_spans(out@);
    let ghost all = named_exprs_view(v@);
    assert(start =~= start + bound_in_named(all.take(0), closures));
    for i in 0..v.len()
        invariant
            all == named_exprs_view(v@),
            named_spans(out@) == start + bound_in_named(all.take(i as int), closures),
    {
        proof {
            assert(all.take(i + 1).drop_last() =~= all.take(i as int));
            assert(all.take(i + 1).last() == named_exprs_view(v@)[i as int]);
        }
        push_expr_bindings(&v[i].1, closures, out);
        assert(named_spans(out@) =~= start + bound_in_named(all.take(i + 1), closures));
    }
    assert(all.take(v.len() as int) =~= all);
}

fn push_segs_bindings(v: &Vec<StrSeg>, closures: bool, out: &mut Vec<(String, Span)>)
    ensures
        named_spans(final(out)@) == named_spans(old(out)@) + bound_in_segs(str_segs_view(v@), closures),
    decreases *v,
{
    let ghost start = named_spans(out@);
    let ghost all = str_segs_view(v@);
    assert(start =~= start + bound_in_segs(all.take(0), closures));
    for i in 0..v.len()
        invariant
            all == str_segs_view(v@),
            named_spans(out@) == start + bound_in_segs(all.take(i as int), closures),
    {
        proof {
            assert(all.take(i + 1).drop_last() =~= all.take(i as int));
            assert(all.take(i + 1).last() == v[i as int]@);
        }
        match &v[i] {
            StrSeg::Expr(e) => push_expr_bindings(e, closures, out),
            StrSeg::Lit(_) => {},
        }
        assert(named_spans(out@) =~= start + bound_in_segs(all.take(i + 1), closures));
    }
    assert(all.take(v.len() as int) =~= all);
}

fn push_patterns_bindings(v: &Vec<Pattern>, out: &mut Vec<(String, Span)>)
    ensures
        named_spans(final(out)@) == named_spans(old(out)@) + bound_in_patterns(patterns_view(v@)),
    decreases *v,
{
    let ghost start = named_spans(out@);
    let ghost all = patterns_view(v@);
    assert(start =~= start + bound_in_patterns(all.take(0)));
    for i in 0..v.len()
        invariant
            all == patterns_view(v@),
            named_spans(out@) == start + bound_in_patterns(all.take(i as int)),
    {
        proof {
            assert(all.take(i + 1).drop_last() =~= all.take(i as int));
            assert(all.take(i + 1).last() == v[i as int]@);
        }
        push_pattern_bindings(&v[i], out);
        assert(named_spans(out@) =~= start + bound_in_patterns(all.take(i + 1)));
    }
    assert(all.take(v.len() as int) =~= all);
}

#[verifier::rlimit(60)]
fn push_field_pats_bindings(v: &Vec<FieldPat>, out: &mut Vec<(String, Span)>)
    ensures
        named_spans(final(out)@) == named_spans(old(out)@) + bound_in_field_pats(field_pats_view(v@)),
    decreases *v,
{
    let ghost start = named_spans(out@);
    let ghost all = field_pats_view(v@);
    assert(start =~= start + bound_in_field_pats(all.take(0)));
    for i in 0..v.len()
        invariant
            all == field_pats_view(v@),
            named_spans(out@) == start + bound_in_field_pats(all.take(i as int)),
    {
        proof {
            assert(all.take(i + 1).drop_last() =~= all.take(i as int));
            assert(all.take(i + 1).last() == v[i as int]@);
        }
        match &v[i].pat {
            Some(p) => push_pattern_bindings(p, out),
            None => {
                let ghost before = named_spans(out@);
                out.push((v[i].name.clone(), v[i].span));
                assert(named_spans(out@) =~= before.push((v[i as int].name@, v[i as int].span)));
            },
        }
        assert(named_spans(out@) =~= start + bound_in_field_pats(all.take(i + 1)));
    }
    assert(all.take(v.len() as int) =~= all);
}

/// Append parameters.
#[verifier::rlimit(60)]
pub fn push_params_bindings(v: &Vec<Param>, out: &mut Vec<(String, Span)>)
    ensures
        named_spans(final(out)@) == named_spans(old(out)@) + bound_in_params(params_view(v@)),
    decreases *v,
{
    let ghost start = named_spans(out@);
    let ghost all = params_view(v@);
    assert(start =~= start + bound_in_params(all.take(0)));
    for i in 0..v.len()
        invariant
            all == params_view(v@),
            named_spans(out@) == start + bound_in_params(all.take(i as int)),
    {
        proof {
            assert(all.take(i + 1).drop_last() =~= all.take(i as int));
            assert(all.take(i + 1).last() == v[i as int]@);
        }
        let ghost before = named_spans(out@);
        out.push((v[i].name.clone(), v[i].span));
        assert(named_spans(out@) =~= before.push((v[i as int].name@, v[i as int].span)));
        assert(named_spans(out@) =~= start + bound_in_params(all.take(i + 1)));
    }
    assert(all.take(v.len() as int) =~= all);
}

} // verus!
