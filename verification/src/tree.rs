//! The statements of a scope, wherever they stand.

use vstd::prelude::*;
use crate::ast::{args_view, exprs_view, match_arms_view, named_exprs_view, stmts_view, str_segs_view, Arg, ArgV, Expr, ExprV, MatchArm, MatchArmV, Stmt, StmtV, StrSeg, StrSegV};
use crate::traverse::stmt_refs;

verus! {

/// A statement and every statement in it: in nested blocks wherever they stand and, with
/// `closures`, in closure bodies.
pub open spec fn tree_stmt(s: StmtV, closures: bool) -> Seq<StmtV>
    decreases s,
{
    seq![s] + (match s {
        StmtV::Let { value, .. } => match value {
            Some(e) => tree_expr(e, closures),
            None => Seq::empty(),
        },
        StmtV::Assign { target, value, .. } => tree_expr(target, closures) + tree_expr(
            value,
            closures,
        ),
        StmtV::Expr(e) => tree_expr(e, closures),
        StmtV::While { cond, body, .. } => tree_expr(cond, closures) + tree_stmts(
            body.stmts,
            closures,
        ),
        StmtV::For { iter, body, .. } => tree_expr(iter, closures) + tree_stmts(
            body.stmts,
            closures,
        ),
        StmtV::Return(value, _) => match value {
            Some(e) => tree_expr(e, closures),
            None => Seq::empty(),
        },
        _ => Seq::empty(),
    })
}

/// Every statement in an expression.
pub open spec fn tree_expr(e: ExprV, closures: bool) -> Seq<StmtV>
    decreases e,
{
    match e {
        ExprV::Closure(_, body, _) => if closures {
            tree_expr(*body, closures)
        } else {
            Seq::empty()
        },
        ExprV::Block(b, _) => tree_stmts(b.stmts, closures),
        ExprV::Unary(_, a, _) => tree_expr(*a, closures),
        ExprV::ErrorProp(a, _) => tree_expr(*a, closures),
        ExprV::Field(a, _, _) => tree_expr(*a, closures),
        ExprV::Binary(_, a, b, _) => tree_expr(*a, closures) + tree_expr(*b, closures),
        ExprV::Index(a, b, _) => tree_expr(*a, closures) + tree_expr(*b, closures),
        ExprV::Range(a, b, _) => tree_expr(*a, closures) + tree_expr(*b, closures),
        ExprV::Call(c, args, _) => tree_expr(*c, closures) + tree_args(args, closures),
        ExprV::Array(es, _) => tree_list(es, closures),
        ExprV::Str(segs, _) => tree_segs(segs, closures),
        ExprV::If(c, t, els, _) => tree_expr(*c, closures) + tree_stmts(t.stmts, closures) + (
        match els {
            Some(x) => tree_expr(*x, closures),
            None => Seq::empty(),
        }),
        ExprV::IfLet(_, c, t, els, _) => tree_expr(*c, closures) + tree_stmts(t.stmts, closures) + (
        match els {
            Some(x) => tree_expr(*x, closures),
            None => Seq::empty(),
        }),
        ExprV::Match(c, arms, _) => tree_expr(*c, closures) + tree_arms(arms, closures),
        ExprV::TypeLit(_, fs, _) => tree_named(fs, closures),
        ExprV::VariantLit(_, _, fs, _) => tree_named(fs, closures),
        _ => Seq::empty(),
    }
}

/// Every statement in a list of statements.
pub open spec fn tree_stmts(ss: Seq<StmtV>, closures: bool) -> Seq<StmtV>
    decreases ss,
{
    if ss.len() == 0 {
        Seq::empty()
    } else {
        tree_stmts(ss.drop_last(), closures) + tree_stmt(ss.last(), closures)
    }
}

/// Every statement in call arguments.
pub open spec fn tree_args(ss: Seq<ArgV>, closures: bool) -> Seq<StmtV>
    decreases ss,
{
    if ss.len() == 0 {
        Seq::empty()
    } else {
        tree_args(ss.drop_last(), closures) + tree_expr(ss.last().expr, closures)
    }
}

/// Every statement in a list of expressions.
pub open spec fn tree_list(ss: Seq<ExprV>, closures: bool) -> Seq<StmtV>
    decreases ss,
{
    if ss.len() == 0 {
        Seq::empty()
    } else {
        tree_list(ss.drop_last(), closures) + tree_expr(ss.last(), closures)
    }
}

/// Every statement in named entries.
pub open spec fn tree_named(ss: Seq<(Seq<char>, ExprV)>, closures: bool) -> Seq<StmtV>
    decreases ss,
{
    if ss.len() == 0 {
        Seq::empty()
    } else {
        tree_named(ss.drop_last(), closures) + tree_expr(ss.last().1, closures)
    }
}

/// Every statement in match arms.
pub open spec fn tree_arms(ss: Seq<MatchArmV>, closures: bool) -> Seq<StmtV>
    decreases ss,
{
    if ss.len() == 0 {
        Seq::empty()
    } else {
        tree_arms(ss.drop_last(), closures) + tree_expr(ss.last().body, closures)
    }
}

/// Every statement in a string literal.
pub open spec fn tree_segs(ss: Seq<StrSegV>, closures: bool) -> Seq<StmtV>
    decreases ss,
{
    if ss.len() == 0 {
        Seq::empty()
    } else {
        tree_segs(ss.drop_last(), closures) + (match ss.last() {
            StrSegV::Expr(e) => tree_expr(*e, closures),
            StrSegV::Lit(_) => Seq::empty(),
        })
    }
}

fn push_tree_stmt<'a>(s: &'a Stmt, closures: bool, out: &mut Vec<&'a Stmt>)
    ensures
        stmt_refs(final(out)@) == stmt_refs(old(out)@) + tree_stmt(s@, closures),
    decreases *s,
{
    let ghost start = stmt_refs(out@);
    out.push(s);
    assert(stmt_refs(out@) =~= start.push(s@));
    match s {
        Stmt::Let { value, .. } => {
            if let Some(e) = value {
                push_tree_expr(e, closures, out);
            }
        },
        Stmt::Assign { target, value, .. } => {
            push_tree_expr(target, closures, out);
            push_tree_expr(value, closures, out);
        },
        Stmt::Expr(e) => push_tree_expr(e, closures, out),
        Stmt::While { cond, body, .. } => {
            push_tree_expr(cond, closures, out);
            assert(body@.stmts == stmts_view(body.stmts@));
            push_tree_stmts(&body.stmts, closures, out);
        },
        Stmt::For { iter, body, .. } => {
            push_tree_expr(iter, closures, out);
            assert(body@.stmts == stmts_view(body.stmts@));
            push_tree_stmts(&body.stmts, closures, out);
        },
        Stmt::Return(value, _) => {
            if let Some(e) = value {
                push_tree_expr(e, closures, out);
            }
        },
        _ => {},
    }
    assert(stmt_refs(out@) =~= start + tree_stmt(s@, closures));
}

#[verifier::rlimit(100)]
#[verifier::spinoff_prover]
fn push_tree_expr<'a>(e: &'a Expr, closures: bool, out: &mut Vec<&'a Stmt>)
    ensures
        stmt_refs(final(out)@) == stmt_refs(old(out)@) + tree_expr(e@, closures),
    decreases *e,
{
    let ghost start = stmt_refs(out@);
    match e {
        Expr::Closure(_, body, _) => {
            if closures {
                push_tree_expr(body, closures, out);
            }
        },
        Expr::Block(b, _) => {
            assert(b@.stmts == stmts_view(b.stmts@));
            push_tree_stmts(&b.stmts, closures, out);
        },
        Expr::Unary(_, a, _) => push_tree_expr(a, closures, out),
        Expr::ErrorProp(a, _) => push_tree_expr(a, closures, out),
        Expr::Field(a, _, _) => push_tree_expr(a, closures, out),
        Expr::Binary(_, a, b, _) => {
            push_tree_expr(a, closures, out);
            push_tree_expr(b, closures, out);
        },
        Expr::Index(a, b, _) => {
            push_tree_expr(a, closures, out);
            push_tree_expr(b, closures, out);
        },
        Expr::Range(a, b, _) => {
            push_tree_expr(a, closures, out);
            push_tree_expr(b, closures, out);
        },
        Expr::Call(c, args, _) => {
            push_tree_expr(c, closures, out);
            push_tree_args(args, closures, out);
        },
        Expr::Array(es, _) => push_tree_list(es, closures, out),
        Expr::Str(segs, _) => push_tree_segs(segs, closures, out),
        Expr::If(c, t, els, _) => {
            push_tree_expr(c, closures, out);
            assert(t@.stmts == stmts_view(t.stmts@));
            push_tree_stmts(&t.stmts, closures, out);
            if let Some(x) = els {
                push_tree_expr(x, closures, out);
            }
        },
        Expr::IfLet(_, c, t, els, _) => {
            push_tree_expr(c, closures, out);
            assert(t@.stmts == stmts_view(t.stmts@));
            push_tree_stmts(&t.stmts, closures, out);
            if let Some(x) = els {
                push_tree_expr(x, closures, out);
            }
        },
        Expr::Match(c, arms, _) => {
            push_tree_expr(c, closures, out);
            push_tree_arms(arms, closures, out);
        },
        Expr::TypeLit(_, fs, _) => push_tree_named(fs, closures, out),
        Expr::VariantLit(_, _, fs, _) => push_tree_named(fs, closures, out),
        _ => {},
    }
    assert(stmt_refs(out@) =~= start + tree_expr(e@, closures));
}

fn push_tree_stmts<'a>(v: &'a Vec<Stmt>, closures: bool, out: &mut Vec<&'a Stmt>)
    ensures
        stmt_refs(final(out)@) == stmt_refs(old(out)@) + tree_stmts(stmts_view(v@), closures),
    decreases *v,
{
    let ghost start = stmt_refs(out@);
    let ghost all = stmts_view(v@);
    assert(start =~= start + tree_stmts(all.take(0), closures));
    for i in 0..v.len()
        invariant
            all == stmts_view(v@),
            stmt_refs(out@) == start + tree_stmts(all.take(i as int), closures),
    {
        proof {
            assert(all.take(i + 1).drop_last() =~= all.take(i as int));
            assert(all.take(i + 1).last() == v[i as int]@);
        }
        push_tree_stmt(&v[i], closures, out);
        assert(stmt_refs(out@) =~= start + tree_stmts(all.take(i + 1), closures));
    }
    assert(all.take(v.len() as int) =~= all);
}

fn push_tree_args<'a>(v: &'a Vec<Arg>, closures: bool, out: &mut Vec<&'a Stmt>)
    ensures
        stmt_refs(final(out)@) == stmt_refs(old(out)@) + tree_args(args_view(v@), closures),
    decreases *v,
{
    let ghost start = stmt_refs(out@);
    let ghost all = args_view(v@);
    assert(start =~= start + tree_args(all.take(0), closures));
    for i in 0..v.len()
        invariant
            all == args_view(v@),
            stmt_refs(out@) == start + tree_args(all.take(i as int), closures),
    {
        proof {
            assert(all.take(i + 1).drop_last() =~= all.take(i as int));
            assert(all.take(i + 1).last() == v[i as int]@);
        }
        push_tree_expr(&v[i].expr, closures, out);
        assert(stmt_refs(out@) =~= start + tree_args(all.take(i + 1), closures));
    }
    assert(all.take(v.len() as int) =~= all);
}

fn push_tree_list<'a>(v: &'a Vec<Expr>, closures: bool, out: &mut Vec<&'a Stmt>)
    ensures
        stmt_refs(final(out)@) == stmt_refs(old(out)@) + tree_list(exprs_view(v@), closures),
    decreases *v,
{
    let ghost start = stmt_refs(out@);
    let ghost all = exprs_view(v@);
    assert(start =~= start + tree_list(all.take(0), closures));
    for i in 0..v.len()
        invariant
            all == exprs_view(v@),
            stmt_refs(out@) == start + tree_list(all.take(i as int), closures),
    {
        proof {
            assert(all.take(i + 1).drop_last() =~= all.take(i as int));
            assert(all.take(i + 1).last() == v[i as int]@);
        }
        push_tree_expr(&v[i], closures, out);
        assert(stmt_refs(out@) =~= start + tree_list(all.take(i + 1), closures));
    }
    assert(all.take(v.len() as int) =~= all);
}

fn push_tree_named<'a>(v: &'a Vec<(String, Expr)>, closures: bool, out: &mut Vec<&'a Stmt>)
    ensures
        stmt_refs(final(out)@) == stmt_refs(old(out)@) + tree_named(named_exprs_view(v@), closures),
    decreases *v,
{
    let ghost start = stmt_refs(out@);
    let ghost all = named_exprs_view(v@);
    assert(start =~= start + tree_named(all.take(0), closures));
    for i in 0..v.len()
        invariant
            all == named_exprs_view(v@),
            stmt_refs(out@) == start + tree_named(all.take(i as int), closures),
    {
        proof {
            assert(all.take(i + 1).drop_last() =~= all.take(i as int));
            assert(all.take(i + 1).last() == named_exprs_view(v@)[i as int]);
        }
        push_tree_expr(&v[i].1, closures, out);
        assert(stmt_refs(out@) =~= start + tree_named(all.take(i + 1), closures));
    }
    assert(all.take(v.len() as int) =~= all);
}

fn push_tree_arms<'a>(v: &'a Vec<MatchArm>, closures: bool, out: &mut Vec<&'a Stmt>)
    ensures
        stmt_refs(final(out)@) == stmt_refs(old(out)@) + tree_arms(match_arms_view(v@), closures),
    decreases *v,
{
    let ghost start = stmt_refs(out@);
    let ghost all = match_arms_view(v@);
    assert(start =~= start + tree_arms(all.take(0), closures));
    for i in 0..v.len()
        invariant
            all == match_arms_view(v@),
            stmt_refs(out@) == start + tree_arms(all.take(i as int), closures),
    {
        proof {
            assert(all.take(i + 1).drop_last() =~= all.take(i as int));
            assert(all.take(i + 1).last() == v[i as int]@);
        }
        push_tree_expr(&v[i].body, closures, out);
        assert(stmt_refs(out@) =~= start + tree_arms(all.take(i + 1), closures));
    }
    assert(all.take(v.len() as int) =~= all);
}

fn push_tree_segs<'a>(v: &'a Vec<StrSeg>, closures: bool, out: &mut Vec<&'a Stmt>)
    ensures
        stmt_refs(final(out)@) == stmt_refs(old(out)@) + tree_segs(str_segs_view(v@), closures),
    decreases *v,
{
    let ghost start = stmt_refs(out@);
    let ghost all = str_segs_view(v@);
    assert(start =~= start + tree_segs(all.take(0), closures));
    for i in 0..v.len()
        invariant
            all == str_segs_view(v@),
            stmt_refs(out@) == start + tree_segs(all.take(i as int), closures),
    {
        proof {
            assert(all.take(i + 1).drop_last() =~= all.take(i as int));
            assert(all.take(i + 1).last() == v[i as int]@);
        }
        match &v[i] {
            StrSeg::Expr(e) => push_tree_expr(e, closures, out),
            StrSeg::Lit(_) => {},
        }
        assert(stmt_refs(out@) =~= start + tree_segs(all.take(i + 1), closures));
    }
    assert(all.take(v.len() as int) =~= all);
}

/// Every statement of a scope.
pub fn all_tree_stmts<'a>(v: &'a Vec<Stmt>, closures: bool) -> (r: Vec<&'a Stmt>)
    ensures
        stmt_refs(r@) == tree_stmts(stmts_view(v@), closures),
{
    let mut out: Vec<&'a Stmt> = Vec::new();
    push_tree_stmts(v, closures, &mut out);
    assert(stmt_refs(out@) =~= tree_stmts(stmts_view(v@), closures));
    out
}

} // verus!
