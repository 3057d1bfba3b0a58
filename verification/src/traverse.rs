//! Flat views of syntax trees: all expressions in pre-order, and all statements
//! reached through control flow.

use vstd::prelude::*;
use crate::ast::{Arg, ArgV, Block, Expr, ExprV, MatchArm, MatchArmV, Stmt, StmtV, StrSeg, StrSegV, args_view, expr_view, exprs_view, match_arms_view, named_exprs_view, stmts_view, str_segs_view};

verus! {

/// The models of borrowed expressions.
pub open spec fn expr_refs(v: Seq<&Expr>) -> Seq<ExprV> {
    Seq::new(v.len(), |i: int| v[i]@)
}

/// The models of borrowed statements.
pub open spec fn stmt_refs(v: Seq<&Stmt>) -> Seq<StmtV> {
    Seq::new(v.len(), |i: int| v[i]@)
}

// ---- expressions ----

/// `e` and every expression in it, in pre-order.
pub open spec fn exprs(e: ExprV) -> Seq<ExprV>
    decreases e,
{
    seq![e] + (match e {
        ExprV::Unary(_, a, _) => exprs(*a),
        ExprV::Field(a, _, _) => exprs(*a),
        ExprV::ErrorProp(a, _) => exprs(*a),
        ExprV::Closure(_, a, _) => exprs(*a),
        ExprV::Binary(_, a, b, _) => exprs(*a) + exprs(*b),
        ExprV::Index(a, b, _) => exprs(*a) + exprs(*b),
        ExprV::Range(a, b, _) => exprs(*a) + exprs(*b),
        ExprV::Call(c, args, _) => exprs(*c) + arg_exprs(args),
        ExprV::Array(es, _) => list_exprs(es),
        ExprV::TypeLit(_, fs, _) => named_exprs(fs),
        ExprV::VariantLit(_, _, fs, _) => named_exprs(fs),
        ExprV::Str(segs, _) => seg_exprs(segs),
        ExprV::If(c, t, els, _) => exprs(*c) + stmts_exprs(t.stmts) + (match els {
            Some(x) => exprs(*x),
            None => Seq::empty(),
        }),
        ExprV::IfLet(_, c, t, els, _) => exprs(*c) + stmts_exprs(t.stmts) + (match els {
            Some(x) => exprs(*x),
            None => Seq::empty(),
        }),
        ExprV::Match(c, arms, _) => exprs(*c) + arm_exprs(arms),
        ExprV::Block(b, _) => stmts_exprs(b.stmts),
        _ => Seq::empty(),
    })
}

/// Every expression in a statement, in pre-order.
pub open spec fn stmt_exprs(s: StmtV) -> Seq<ExprV>
    decreases s,
{
    match s {
        StmtV::Let { value, .. } => match value {
            Some(e) => exprs(e),
            None => Seq::empty(),
        },
        StmtV::Assign { target, value, .. } => exprs(target) + exprs(value),
        StmtV::Expr(e) => exprs(e),
        StmtV::While { cond, body, .. } => exprs(cond) + stmts_exprs(body.stmts),
        StmtV::For { iter, body, .. } => exprs(iter) + stmts_exprs(body.stmts),
        StmtV::Return(value, _) => match value {
            Some(e) => exprs(e),
            None => Seq::empty(),
        },
        _ => Seq::empty(),
    }
}


/// Every expression in a list of statements.
pub open spec fn stmts_exprs(ss: Seq<StmtV>) -> Seq<ExprV>
    decreases ss,
{
    if ss.len() == 0 {
        Seq::empty()
    } else {
        stmts_exprs(ss.drop_last()) + stmt_exprs(ss.last())
    }
}

/// Every expression in call arguments.
pub open spec fn arg_exprs(ss: Seq<ArgV>) -> Seq<ExprV>
    decreases ss,
{
    if ss.len() == 0 {
        Seq::empty()
    } else {
        arg_exprs(ss.drop_last()) + exprs(ss.last().expr)
    }
}

/// Every expression in a list.
pub open spec fn list_exprs(ss: Seq<ExprV>) -> Seq<ExprV>
    decreases ss,
{
    if ss.len() == 0 {
        Seq::empty()
    } else {
        list_exprs(ss.drop_last()) + exprs(ss.last())
    }
}

/// Every expression in match arms.
pub open spec fn arm_exprs(ss: Seq<MatchArmV>) -> Seq<ExprV>
    decreases ss,
{
    if ss.len() == 0 {
        Seq::empty()
    } else {
        arm_exprs(ss.drop_last()) + exprs(ss.last().body)
    }
}

/// Every expression in named entries.
pub open spec fn named_exprs(ss: Seq<(Seq<char>, ExprV)>) -> Seq<ExprV>
    decreases ss,
{
    if ss.len() == 0 {
        Seq::empty()
    } else {
        named_exprs(ss.drop_last()) + exprs(ss.last().1)
    }
}

/// Every expression interpolated into a string literal.
pub open spec fn seg_exprs(ss: Seq<StrSegV>) -> Seq<ExprV>
    decreases ss,
{
    if ss.len() == 0 {
        Seq::empty()
    } else {
        seg_exprs(ss.drop_last()) + (match ss.last() {
            StrSegV::Expr(e) => exprs(*e),
            StrSegV::Lit(_) => Seq::empty(),
        })
    }
}

/// Append `e` and every expression in it.
#[verifier::rlimit(50)]
pub fn push_exprs<'a>(e: &'a Expr, out: &mut Vec<&'a Expr>)
    ensures
        expr_refs(final(out)@) == expr_refs(old(out)@) + exprs(e@),
    decreases *e,
{
    let ghost start = expr_refs(out@);
    out.push(e);
    assert(expr_refs(out@) =~= start.push(e@));
    match e {
        Expr::Unary(_, a, _) => push_exprs(a, out),
        Expr::Field(a, _, _) => push_exprs(a, out),
        Expr::ErrorProp(a, _) => push_exprs(a, out),
        Expr::Closure(_, a, _) => push_exprs(a, out),
        Expr::Binary(_, a, b, _) => {
            push_exprs(a, out);
            push_exprs(b, out);
        },
        Expr::Index(a, b, _) => {
            push_exprs(a, out);
            push_exprs(b, out);
        },
        Expr::Range(a, b, _) => {
            push_exprs(a, out);
            push_exprs(b, out);
        },
        Expr::Call(c, args, _) => {
            push_exprs(c, out);
            push_arg_exprs(args, out);
        },
        Expr::Array(es, _) => push_list_exprs(es, out),
        Expr::TypeLit(_, fs, _) => push_named_exprs(fs, out),
        Expr::VariantLit(_, _, fs, _) => push_named_exprs(fs, out),
        Expr::Str(segs, _) => push_seg_exprs(segs, out),
        Expr::If(c, t, els, _) => {
            push_exprs(c, out);
            assert(t@.stmts == stmts_view(t.stmts@));
            push_stmts_exprs(&t.stmts, out);
            if let Some(x) = els {
                push_exprs(x, out);
            }
        },
        Expr::IfLet(_, c, t, els, _) => {
            push_exprs(c, out);
            assert(t@.stmts == stmts_view(t.stmts@));
            push_stmts_exprs(&t.stmts, out);
            if let Some(x) = els {
                push_exprs(x, out);
            }
        },
        Expr::Match(c, arms, _) => {
            push_exprs(c, out);
            push_arm_exprs(arms, out);
        },
        Expr::Block(b, _) => {
            assert(b@.stmts == stmts_view(b.stmts@));
            push_stmts_exprs(&b.stmts, out);
        },
        _ => {},
    }
    assert(expr_refs(out@) =~= start + exprs(e@));
}

/// Append every expression in a statement.
#[verifier::rlimit(50)]
pub fn push_stmt_exprs<'a>(s: &'a Stmt, out: &mut Vec<&'a Expr>)
    ensures
        expr_refs(final(out)@) == expr_refs(old(out)@) + stmt_exprs(s@),
    decreases *s,
{
    let ghost start = expr_refs(out@);
    match s {
        Stmt::Let { value, .. } => {
            if let Some(e) = value {
                push_exprs(e, out);
            }
        },
        Stmt::Assign { target, value, .. } => {
            push_exprs(target, out);
            push_exprs(value, out);
        },
        Stmt::Expr(e) => push_exprs(e, out),
        Stmt::While { cond, body, .. } => {
            push_exprs(cond, out);
            assert(body@.stmts == stmts_view(body.stmts@));
            push_stmts_exprs(&body.stmts, out);
        },
        Stmt::For { iter, body, .. } => {
            push_exprs(iter, out);
            assert(body@.stmts == stmts_view(body.stmts@));
            push_stmts_exprs(&body.stmts, out);
        },
        Stmt::Return(value, _) => {
            if let Some(e) = value {
                push_exprs(e, out);
            }
        },
        _ => {},
    }
    assert(expr_refs(out@) =~= start + stmt_exprs(s@));
}

/// Append every expression in a list.
pub fn push_stmts_exprs<'a>(v: &'a Vec<Stmt>, out: &mut Vec<&'a Expr>)
    ensures
        expr_refs(final(out)@) == expr_refs(old(out)@) + stmts_exprs(stmts_view(v@)),
    decreases *v,
{
    let ghost start = expr_refs(out@);
    let ghost all = stmts_view(v@);
    assert(start =~= start + stmts_exprs(all.take(0)));
    for i in 0..v.len()
        invariant
            all == stmts_view(v@),
            expr_refs(out@) == start + stmts_exprs(all.take(i as int)),
    {
        proof {
            assert(all.take(i + 1).drop_last() =~= all.take(i as int));
            assert(all.take(i + 1).last() == all[i as int]);
        }
        push_stmt_exprs(&v[i], out);
        assert(expr_refs(out@) =~= start + stmts_exprs(all.take(i + 1)));
    }
    assert(all.take(v.len() as int) =~= all);
}

/// Append every expression in a list.
pub fn push_arg_exprs<'a>(v: &'a Vec<Arg>, out: &mut Vec<&'a Expr>)
    ensures
        expr_refs(final(out)@) == expr_refs(old(out)@) + arg_exprs(args_view(v@)),
    decreases *v,
{
    let ghost start = expr_refs(out@);
    let ghost all = args_view(v@);
    assert(start =~= start + arg_exprs(all.take(0)));
    for i in 0..v.len()
        invariant
            all == args_view(v@),
            expr_refs(out@) == start + arg_exprs(all.take(i as int)),
    {
        proof {
            assert(all.take(i + 1).drop_last() =~= all.take(i as int));
            assert(all.take(i + 1).last() == all[i as int]);
        }
        push_exprs(&v[i].expr, out);
        assert(expr_refs(out@) =~= start + arg_exprs(all.take(i + 1)));
    }
    assert(all.take(v.len() as int) =~= all);
}

/// Append every expression in a list.
pub fn push_list_exprs<'a>(v: &'a Vec<Expr>, out: &mut Vec<&'a Expr>)
    ensures
        expr_refs(final(out)@) == expr_refs(old(out)@) + list_exprs(exprs_view(v@)),
    decreases *v,
{
    let ghost start = expr_refs(out@);
    let ghost all = exprs_view(v@);
    assert(start =~= start + list_exprs(all.take(0)));
    for i in 0..v.len()
        invariant
            all == exprs_view(v@),
            expr_refs(out@) == start + list_exprs(all.take(i as int)),
    {
        proof {
            assert(all.take(i + 1).drop_last() =~= all.take(i as int));
            assert(all.take(i + 1).last() == all[i as int]);
        }
        push_exprs(&v[i], out);
        assert(expr_refs(out@) =~= start + list_exprs(all.take(i + 1)));
    }
    assert(all.take(v.len() as int) =~= all);
}

/// Append every expression in a list.
pub fn push_arm_exprs<'a>(v: &'a Vec<MatchArm>, out: &mut Vec<&'a Expr>)
    ensures
        expr_refs(final(out)@) == expr_refs(old(out)@) + arm_exprs(match_arms_view(v@)),
    decreases *v,
{
    let ghost start = expr_refs(out@);
    let ghost all = match_arms_view(v@);
    assert(start =~= start + arm_exprs(all.take(0)));
    for i in 0..v.len()
        invariant
            all == match_arms_view(v@),
            expr_refs(out@) == start + arm_exprs(all.take(i as int)),
    {
        proof {
            assert(all.take(i + 1).drop_last() =~= all.take(i as int));
            assert(all.take(i + 1).last() == all[i as int]);
        }
        push_exprs(&v[i].body, out);
        assert(expr_refs(out@) =~= start + arm_exprs(all.take(i + 1)));
    }
    assert(all.take(v.len() as int) =~= all);
}

/// Append every expression in a list.
pub fn push_named_exprs<'a>(v: &'a Vec<(String, Expr)>, out: &mut Vec<&'a Expr>)
    ensures
        expr_refs(final(out)@) == expr_refs(old(out)@) + named_exprs(named_exprs_view(v@)),
    decreases *v,
{
    let ghost start = expr_refs(out@);
    let ghost all = named_exprs_view(v@);
    assert(start =~= start + named_exprs(all.take(0)));
    for i in 0..v.len()
        invariant
            all == named_exprs_view(v@),
            expr_refs(out@) == start + named_exprs(all.take(i as int)),
    {
        proof {
            assert(all.take(i + 1).drop_last() =~= all.take(i as int));
            assert(all.take(i + 1).last() == all[i as int]);
        }
        push_exprs(&v[i].1, out);
        assert(expr_refs(out@) =~= start + named_exprs(all.take(i + 1)));
    }
    assert(all.take(v.len() as int) =~= all);
}

/// Append every expression interpolated into a string literal.
pub fn push_seg_exprs<'a>(v: &'a Vec<StrSeg>, out: &mut Vec<&'a Expr>)
    ensures
        expr_refs(final(out)@) == expr_refs(old(out)@) + seg_exprs(str_segs_view(v@)),
    decreases *v,
{
    let ghost start = expr_refs(out@);
    let ghost all = str_segs_view(v@);
    assert(start =~= start + seg_exprs(all.take(0)));
    for i in 0..v.len()
        invariant
            all == str_segs_view(v@),
            expr_refs(out@) == start + seg_exprs(all.take(i as int)),
    {
        proof {
            assert(all.take(i + 1).drop_last() =~= all.take(i as int));
            assert(all.take(i + 1).last() == v[i as int]@);
        }
        match &v[i] {
            StrSeg::Expr(e) => push_exprs(e, out),
            StrSeg::Lit(_) => {},
        }
        assert(expr_refs(out@) =~= start + seg_exprs(all.take(i + 1)));
    }
    assert(all.take(v.len() as int) =~= all);
}

/// `e` and every expression in it.
pub fn all_exprs<'a>(e: &'a Expr) -> (r: Vec<&'a Expr>)
    ensures
        expr_refs(r@) == exprs(e@),
{
    let mut out: Vec<&'a Expr> = Vec::new();
    push_exprs(e, &mut out);
    assert(expr_refs(out@) =~= exprs(e@));
    out
}

/// Every expression in a list of statements.
pub fn all_stmts_exprs<'a>(v: &'a Vec<Stmt>) -> (r: Vec<&'a Expr>)
    ensures
        expr_refs(r@) == stmts_exprs(stmts_view(v@)),
{
    let mut out: Vec<&'a Expr> = Vec::new();
    push_stmts_exprs(v, &mut out);
    assert(expr_refs(out@) =~= stmts_exprs(stmts_view(v@)));
    out
}

// ---- statements ----

/// The statements and every statement nested in them through control flow: loop
/// bodies, `if`/`if let` branches, `match` arms with block bodies, and block
/// expressions. Closures are not entered: their bodies run in a scope of their own.
pub open spec fn control_stmts(ss: Seq<StmtV>) -> Seq<StmtV>
    decreases ss,
{
    if ss.len() == 0 {
        Seq::empty()
    } else {
        control_stmts(ss.drop_last()) + control_stmt(ss.last())
    }
}

/// A statement and every statement nested in it through control flow.
pub open spec fn control_stmt(s: StmtV) -> Seq<StmtV>
    decreases s,
{
    seq![s] + (match s {
        StmtV::While { body, .. } => control_stmts(body.stmts),
        StmtV::For { body, .. } => control_stmts(body.stmts),
        StmtV::Expr(e) => control_expr(e),
        StmtV::Let { value, .. } => match value {
            Some(e) => control_expr(e),
            None => Seq::empty(),
        },
        StmtV::Return(value, _) => match value {
            Some(e) => control_expr(e),
            None => Seq::empty(),
        },
        _ => Seq::empty(),
    })
}

/// The statements that an expression in statement position nests.
pub open spec fn control_expr(e: ExprV) -> Seq<StmtV>
    decreases e,
{
    match e {
        ExprV::If(_, t, els, _) => control_stmts(t.stmts) + (match els {
            Some(x) => control_expr(*x),
            None => Seq::empty(),
        }),
        ExprV::IfLet(_, _, t, els, _) => control_stmts(t.stmts) + (match els {
            Some(x) => control_expr(*x),
            None => Seq::empty(),
        }),
        ExprV::Block(b, _) => control_stmts(b.stmts),
        ExprV::Match(_, arms, _) => control_arms(arms),
        _ => Seq::empty(),
    }
}

pub open spec fn control_arms(arms: Seq<MatchArmV>) -> Seq<StmtV>
    decreases arms,
{
    if arms.len() == 0 {
        Seq::empty()
    } else {
        control_arms(arms.drop_last()) + (match arms.last().body {
            ExprV::Block(b, _) => control_stmts(b.stmts),
            _ => Seq::empty(),
        })
    }
}

fn push_control_stmts<'a>(v: &'a Vec<Stmt>, out: &mut Vec<&'a Stmt>)
    ensures
        stmt_refs(final(out)@) == stmt_refs(old(out)@) + control_stmts(stmts_view(v@)),
    decreases *v,
{
    let ghost start = stmt_refs(out@);
    let ghost all = stmts_view(v@);
    assert(start =~= start + control_stmts(all.take(0)));
    for i in 0..v.len()
        invariant
            all == stmts_view(v@),
            stmt_refs(out@) == start + control_stmts(all.take(i as int)),
    {
        proof {
            assert(all.take(i + 1).drop_last() =~= all.take(i as int));
            assert(all.take(i + 1).last() == v[i as int]@);
        }
        push_control_stmt(&v[i], out);
        assert(stmt_refs(out@) =~= start + control_stmts(all.take(i + 1)));
    }
    assert(all.take(v.len() as int) =~= all);
}

fn push_control_stmt<'a>(s: &'a Stmt, out: &mut Vec<&'a Stmt>)
    ensures
        stmt_refs(final(out)@) == stmt_refs(old(out)@) + control_stmt(s@),
    decreases *s,
{
    let ghost start = stmt_refs(out@);
    out.push(s);
    assert(stmt_refs(out@) =~= start.push(s@));
    match s {
        Stmt::While { body, .. } => {
            assert(body@.stmts == stmts_view(body.stmts@));
            push_control_stmts(&body.stmts, out);
        },
        Stmt::For { body, .. } => {
            assert(body@.stmts == stmts_view(body.stmts@));
            push_control_stmts(&body.stmts, out);
        },
        Stmt::Expr(e) => push_control_expr(e, out),
        Stmt::Let { value, .. } => {
            if let Some(e) = value {
                push_control_expr(e, out);
            }
        },
        Stmt::Return(value, _) => {
            if let Some(e) = value {
                push_control_expr(e, out);
            }
        },
        _ => {},
    }
    assert(stmt_refs(out@) =~= start + control_stmt(s@));
}

fn push_control_expr<'a>(e: &'a Expr, out: &mut Vec<&'a Stmt>)
    ensures
        stmt_refs(final(out)@) == stmt_refs(old(out)@) + control_expr(e@),
    decreases *e,
{
    let ghost start = stmt_refs(out@);
    match e {
        Expr::If(_, t, els, _) => {
            assert(t@.stmts == stmts_view(t.stmts@));
            push_control_stmts(&t.stmts, out);
            if let Some(x) = els {
                push_control_expr(x, out);
            }
        },
        Expr::IfLet(_, _, t, els, _) => {
            assert(t@.stmts == stmts_view(t.stmts@));
            push_control_stmts(&t.stmts, out);
            if let Some(x) = els {
                push_control_expr(x, out);
            }
        },
        Expr::Block(b, _) => {
            assert(b@.stmts == stmts_view(b.stmts@));
            push_control_stmts(&b.stmts, out);
        },
        Expr::Match(_, arms, _) => push_control_arms(arms, out),
        _ => {},
    }
    assert(stmt_refs(out@) =~= start + control_expr(e@));
}

fn push_control_arms<'a>(v: &'a Vec<MatchArm>, out: &mut Vec<&'a Stmt>)
    ensures
        stmt_refs(final(out)@) == stmt_refs(old(out)@) + control_arms(match_arms_view(v@)),
    decreases *v,
{
    let ghost start = stmt_refs(out@);
    let ghost all = match_arms_view(v@);
    assert(start =~= start + control_arms(all.take(0)));
    for i in 0..v.len()
        invariant
            all == match_arms_view(v@),
            stmt_refs(out@) == start + control_arms(all.take(i as int)),
    {
        proof {
            assert(all.take(i + 1).drop_last() =~= all.take(i as int));
            assert(all.take(i + 1).last() == v[i as int]@);
            reveal_with_fuel(expr_view, 2);
        }
        if let Expr::Block(b, _) = &v[i].body {
            assert(b@.stmts == stmts_view(b.stmts@));
            push_control_stmts(&b.stmts, out);
        }
        assert(stmt_refs(out@) =~= start + control_arms(all.take(i + 1)));
    }
    assert(all.take(v.len() as int) =~= all);
}

/// The statements and every statement nested in them through control flow.
pub fn all_control_stmts<'a>(v: &'a Vec<Stmt>) -> (r: Vec<&'a Stmt>)
    ensures
        stmt_refs(r@) == control_stmts(stmts_view(v@)),
{
    let mut out: Vec<&'a Stmt> = Vec::new();
    push_control_stmts(v, &mut out);
    assert(stmt_refs(out@) =~= control_stmts(stmts_view(v@)));
    out
}

} // verus!
