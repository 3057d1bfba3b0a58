//! Spawn shapes that cannot be made free of races, found before any rewriting.

use vstd::prelude::*;
use crate::ast::{args_view, exprs_view, match_arms_view, named_exprs_view, params_view, stmts_view, str_segs_view, Arg, ArgV, Block, Expr, ExprV, MatchArm, MatchArmV, Param, ParamV, Stmt, StmtV, StrSeg, StrSegV};
use crate::closure::{binds, own_names, closures_view, collect_param_names, param_names};
use crate::names::{in_order, NameSet};
use crate::ownership::{names_within, nested, nested_block_stmts, nested_size, stmt_lists, stmt_size};
use crate::span::Span;
use crate::spawn::{as_block, binding, bound_in_scope_size, captured, captures, closure_bindings_of, closure_block, closures_bound, collect_local_bindings, is_spawn_ident, local_names, names_spawn, site_closure, site_closure_size, site_shape, size, spawn_arg, spawn_closure, spawned_var_names, spawned_vars, stmt_binding, SpawnArg, SpawnArgV};
use crate::text::{cat3, texts};
use crate::traverse::{all_exprs, all_stmts_exprs, control_stmts, expr_refs, exprs, stmts_exprs};

verus! {

// ---- spans of spawns ----

/// The span of `e`, if `e` is a `spawn` call.
pub open spec fn own_span(e: ExprV) -> Seq<Span> {
    match e {
        ExprV::Call(callee, _, span) => if names_spawn(*callee) {
            seq![span]
        } else {
            Seq::empty()
        },
        _ => Seq::empty(),
    }
}

/// The spans of those of some expressions that are `spawn` calls.
pub open spec fn spawn_spans(es: Seq<ExprV>) -> Seq<Span>
    decreases es.len(),
{
    if es.len() == 0 {
        Seq::empty()
    } else {
        spawn_spans(es.drop_last()) + own_span(es.last())
    }
}

fn push_own_span(e: &Expr, out: &mut Vec<Span>)
    ensures
        final(out)@ == old(out)@ + own_span(e@),
{
    let ghost start = out@;
    if let Expr::Call(callee, _, span) = e {
        if is_spawn_ident(callee) {
            out.push(*span);
        }
    }
    assert(out@ =~= start + own_span(e@));
}

fn push_spawn_spans(es: &Vec<&Expr>, out: &mut Vec<Span>)
    ensures
        final(out)@ == old(out)@ + spawn_spans(expr_refs(es@)),
{
    let ghost start = out@;
    let ghost all = expr_refs(es@);
    assert(start =~= start + spawn_spans(all.take(0)));
    for i in 0..es.len()
        invariant
            all == expr_refs(es@),
            out@ == start + spawn_spans(all.take(i as int)),
    {
        proof {
            assert(all.take(i + 1).drop_last() =~= all.take(i as int));
            assert(all.take(i + 1).last() == es[i as int]@);
        }
        push_own_span(es[i], out);
        assert(out@ =~= start + spawn_spans(all.take(i + 1)));
    }
    assert(all.take(es.len() as int) =~= all);
}

/// Spans of every `spawn` in `stmts`, at any depth, closures included. Code outside
/// functions is never analyzed for ownership, so a spawn there has to be rejected.
pub fn all_spawn_spans(stmts: &Vec<Stmt>) -> (r: Vec<Span>)
    ensures
        r@ == spawn_spans(stmts_exprs(stmts_view(stmts@))),
{
    let es = all_stmts_exprs(stmts);
    let mut out: Vec<Span> = Vec::new();
    push_spawn_spans(&es, &mut out);
    assert(out@ =~= spawn_spans(stmts_exprs(stmts_view(stmts@))));
    out
}

// ---- errors ----

/// A `spawn` that cannot be analyzed.
#[derive(Debug, PartialEq)]
pub struct SpawnError {
    pub message: String,
    pub span: Span,
}

/// The models of spawn errors.
pub open spec fn spawn_errors_view(v: Seq<SpawnError>) -> Seq<(Seq<char>, Span)> {
    Seq::new(v.len(), |i: int| (v[i].message@, v[i].span))
}

/// Append an error.
pub fn report_spawn(message: String, span: Span, out: &mut Vec<SpawnError>)
    ensures
        spawn_errors_view(final(out)@) == spawn_errors_view(old(out)@).push((message@, span)),
{
    let ghost start = spawn_errors_view(out@);
    out.push(SpawnError { message, span });
    assert(spawn_errors_view(out@) =~= start.push((message@, span)));
}

/// The message for a spawn in a closure that is not itself spawned.
pub const PLAIN_CLOSURE_SPAWN: &'static str = "`spawn` inside a closure that is not itself spawned is not analyzable; spawn from the enclosing body or a named function";

/// What stands before and after the name in the message for a task that touches a
/// written global.
pub const GLOBAL_BEFORE: &'static str = "spawned task accesses module global `";
pub const GLOBAL_AFTER: &'static str = "`, which is written elsewhere; share it through a local value captured by the task";

/// One error with the same message at each of `ps`.
pub open spec fn errors_at(msg: Seq<char>, ps: Seq<Span>) -> Seq<(Seq<char>, Span)> {
    Seq::new(ps.len(), |i: int| (msg, ps[i]))
}

/// The spans of the `spawn` calls that stand in closures in `e`.
pub open spec fn closed_spans(e: ExprV) -> Seq<Span>
    decreases e,
{
    match e {
        ExprV::Closure(_, body, _) => spawn_spans(exprs(*body)),
        ExprV::Block(b, _) => stmts_closed_spans(b.stmts),
        ExprV::Unary(_, a, _) => closed_spans(*a),
        ExprV::Field(a, _, _) => closed_spans(*a),
        ExprV::ErrorProp(a, _) => closed_spans(*a),
        ExprV::Binary(_, a, b, _) => closed_spans(*a) + closed_spans(*b),
        ExprV::Index(a, b, _) => closed_spans(*a) + closed_spans(*b),
        ExprV::Range(a, b, _) => closed_spans(*a) + closed_spans(*b),
        ExprV::Call(c, args, _) => closed_spans(*c) + args_closed_spans(args),
        ExprV::Array(es, _) => list_closed_spans(es),
        ExprV::TypeLit(_, fs, _) => named_closed_spans(fs),
        ExprV::VariantLit(_, _, fs, _) => named_closed_spans(fs),
        ExprV::Str(segs, _) => segs_closed_spans(segs),
        ExprV::If(c, t, els, _) => closed_spans(*c) + stmts_closed_spans(t.stmts) + (match els {
            Some(x) => closed_spans(*x),
            None => Seq::empty(),
        }),
        ExprV::IfLet(_, c, t, els, _) => closed_spans(*c) + stmts_closed_spans(t.stmts) + (
        match els {
            Some(x) => closed_spans(*x),
            None => Seq::empty(),
        }),
        ExprV::Match(c, arms, _) => closed_spans(*c) + arms_closed_spans(arms),
        _ => Seq::empty(),
    }
}

/// The same in a statement.
pub open spec fn stmt_closed_spans(s: StmtV) -> Seq<Span>
    decreases s,
{
    match s {
        StmtV::Let { value, .. } => match value {
            Some(e) => closed_spans(e),
            None => Seq::empty(),
        },
        StmtV::Assign { target, value, .. } => closed_spans(target) + closed_spans(value),
        StmtV::Expr(e) => closed_spans(e),
        StmtV::While { cond, body, .. } => closed_spans(cond) + stmts_closed_spans(body.stmts),
        StmtV::For { iter, body, .. } => closed_spans(iter) + stmts_closed_spans(body.stmts),
        StmtV::Return(value, _) => match value {
            Some(e) => closed_spans(e),
            None => Seq::empty(),
        },
        _ => Seq::empty(),
    }
}

/// The same in statements.
pub open spec fn stmts_closed_spans(ss: Seq<StmtV>) -> Seq<Span>
    decreases ss,
{
    if ss.len() == 0 {
        Seq::empty()
    } else {
        stmts_closed_spans(ss.drop_last()) + stmt_closed_spans(ss.last())
    }
}

/// The same in call arguments.
pub open spec fn args_closed_spans(ss: Seq<ArgV>) -> Seq<Span>
    decreases ss,
{
    if ss.len() == 0 {
        Seq::empty()
    } else {
        args_closed_spans(ss.drop_last()) + closed_spans(ss.last().expr)
    }
}

/// The same in a list.
pub open spec fn list_closed_spans(ss: Seq<ExprV>) -> Seq<Span>
    decreases ss,
{
    if ss.len() == 0 {
        Seq::empty()
    } else {
        list_closed_spans(ss.drop_last()) + closed_spans(ss.last())
    }
}

/// The same in named entries.
pub open spec fn named_closed_spans(ss: Seq<(Seq<char>, ExprV)>) -> Seq<Span>
    decreases ss,
{
    if ss.len() == 0 {
        Seq::empty()
    } else {
        named_closed_spans(ss.drop_last()) + closed_spans(ss.last().1)
    }
}

/// The same in match arms.
pub open spec fn arms_closed_spans(ss: Seq<MatchArmV>) -> Seq<Span>
    decreases ss,
{
    if ss.len() == 0 {
        Seq::empty()
    } else {
        arms_closed_spans(ss.drop_last()) + closed_spans(ss.last().body)
    }
}

/// The same in a string literal.
pub open spec fn segs_closed_spans(ss: Seq<StrSegV>) -> Seq<Span>
    decreases ss,
{
    if ss.len() == 0 {
        Seq::empty()
    } else {
        segs_closed_spans(ss.drop_last()) + (match ss.last() {
            StrSegV::Expr(e) => closed_spans(*e),
            StrSegV::Lit(_) => Seq::empty(),
        })
    }
}

/// The spans of the `spawn` calls in the closures that an expression in statement position
/// holds outside of the statement lists it nests.
pub open spec fn plain_spans(e: ExprV) -> Seq<Span>
    decreases e,
{
    match e {
        ExprV::Block(_, _) => Seq::empty(),
        ExprV::If(c, _, els, _) => closed_spans(*c) + (match els {
            Some(x) => plain_spans(*x),
            None => Seq::empty(),
        }),
        ExprV::IfLet(_, c, _, els, _) => closed_spans(*c) + (match els {
            Some(x) => plain_spans(*x),
            None => Seq::empty(),
        }),
        ExprV::Match(c, arms, _) => closed_spans(*c) + plain_arms_spans(arms),
        _ => closed_spans(e),
    }
}

/// The same in match arms; an arm that is a block nests a list.
pub open spec fn plain_arms_spans(ss: Seq<MatchArmV>) -> Seq<Span>
    decreases ss.len(),
{
    if ss.len() == 0 {
        Seq::empty()
    } else {
        plain_arms_spans(ss.drop_last()) + (if ss.last().body is Block {
            Seq::empty()
        } else {
            closed_spans(ss.last().body)
        })
    }
}

/// The spans of the spawns in the plain closures of a statement, the lists it nests apart.
pub open spec fn stmt_plain_spans(s: StmtV) -> Seq<Span> {
    match s {
        StmtV::Let { value, .. } => match value {
            Some(e) => plain_spans(e),
            None => Seq::empty(),
        },
        StmtV::Assign { target, value, .. } => closed_spans(target) + closed_spans(value),
        StmtV::Expr(e) => plain_spans(e),
        StmtV::While { cond, .. } => closed_spans(cond),
        StmtV::For { iter, .. } => closed_spans(iter),
        StmtV::Return(value, _) => match value {
            Some(e) => plain_spans(e),
            None => Seq::empty(),
        },
        _ => Seq::empty(),
    }
}

#[verifier::rlimit(100)]
#[verifier::spinoff_prover]
fn push_closed_spans(e: &Expr, out: &mut Vec<Span>)
    ensures
        final(out)@ == old(out)@ + closed_spans(e@),
    decreases *e,
{
    let ghost start = out@;
    match e {
        Expr::Closure(_, body, _) => {
            let es = all_exprs(body);
            push_spawn_spans(&es, out);
        },
        Expr::Block(b, _) => {
            assert(b@.stmts == stmts_view(b.stmts@));
            push_stmts_closed_spans(&b.stmts, out);
        },
        Expr::Unary(_, a, _) => push_closed_spans(a, out),
        Expr::Field(a, _, _) => push_closed_spans(a, out),
        Expr::ErrorProp(a, _) => push_closed_spans(a, out),
        Expr::Binary(_, a, b, _) => {
            push_closed_spans(a, out);
            push_closed_spans(b, out);
        },
        Expr::Index(a, b, _) => {
            push_closed_spans(a, out);
            push_closed_spans(b, out);
        },
        Expr::Range(a, b, _) => {
            push_closed_spans(a, out);
            push_closed_spans(b, out);
        },
        Expr::Call(c, args, _) => {
            push_closed_spans(c, out);
            push_args_closed_spans(args, out);
        },
        Expr::Array(es, _) => push_list_closed_spans(es, out),
        Expr::TypeLit(_, fs, _) => push_named_closed_spans(fs, out),
        Expr::VariantLit(_, _, fs, _) => push_named_closed_spans(fs, out),
        Expr::Str(segs, _) => push_segs_closed_spans(segs, out),
        Expr::If(c, t, els, _) => {
            push_closed_spans(c, out);
            assert(t@.stmts == stmts_view(t.stmts@));
            push_stmts_closed_spans(&t.stmts, out);
            if let Some(x) = els {
                push_closed_spans(x, out);
            }
        },
        Expr::IfLet(_, c, t, els, _) => {
            push_closed_spans(c, out);
            assert(t@.stmts == stmts_view(t.stmts@));
            push_stmts_closed_spans(&t.stmts, out);
            if let Some(x) = els {
                push_closed_spans(x, out);
            }
        },
        Expr::Match(c, arms, _) => {
            push_closed_spans(c, out);
            push_arms_closed_spans(arms, out);
        },
        _ => {},
    }
    assert(out@ =~= start + closed_spans(e@));
}

fn push_stmt_closed_spans(s: &Stmt, out: &mut Vec<Span>)
    ensures
        final(out)@ == old(out)@ + stmt_closed_spans(s@),
    decreases *s,
{
    let ghost start = out@;
    match s {
        Stmt::Let { value, .. } => {
            if let Some(e) = value {
                push_closed_spans(e, out);
            }
        },
        Stmt::Assign { target, value, .. } => {
            push_closed_spans(target, out);
            push_closed_spans(value, out);
        },
        Stmt::Expr(e) => push_closed_spans(e, out),
        Stmt::While { cond, body, .. } => {
            push_closed_spans(cond, out);
            assert(body@.stmts == stmts_view(body.stmts@));
            push_stmts_closed_spans(&body.stmts, out);
        },
        Stmt::For { iter, body, .. } => {
            push_closed_spans(iter, out);
            assert(body@.stmts == stmts_view(body.stmts@));
            push_stmts_closed_spans(&body.stmts, out);
        },
        Stmt::Return(value, _) => {
            if let Some(e) = value {
                push_closed_spans(e, out);
            }
        },
        _ => {},
    }
    assert(out@ =~= start + stmt_closed_spans(s@));
}

fn push_stmts_closed_spans(v: &Vec<Stmt>, out: &mut Vec<Span>)
    ensures
        final(out)@ == old(out)@ + stmts_closed_spans(stmts_view(v@)),
    decreases *v,
{
    let ghost start = out@;
    let ghost all = stmts_view(v@);
    assert(start =~= start + stmts_closed_spans(all.take(0)));
    for i in 0..v.len()
        invariant
            all == stmts_view(v@),
            out@ == start + stmts_closed_spans(all.take(i as int)),
    {
        proof {
            assert(all.take(i + 1).drop_last() =~= all.take(i as int));
            assert(all.take(i + 1).last() == v[i as int]@);
        }
        push_stmt_closed_spans(&v[i], out);
        assert(out@ =~= start + stmts_closed_spans(all.take(i + 1)));
    }
    assert(all.take(v.len() as int) =~= all);
}

fn push_args_closed_spans(v: &Vec<Arg>, out: &mut Vec<Span>)
    ensures
        final(out)@ == old(out)@ + args_closed_spans(args_view(v@)),
    decreases *v,
{
    let ghost start = out@;
    let ghost all = args_view(v@);
    assert(start =~= start + args_closed_spans(all.take(0)));
    for i in 0..v.len()
        invariant
            all == args_view(v@),
            out@ == start + args_closed_spans(all.take(i as int)),
    {
        proof {
            assert(all.take(i + 1).drop_last() =~= all.take(i as int));
            assert(all.take(i + 1).last() == v[i as int]@);
        }
        push_closed_spans(&v[i].expr, out);
        assert(out@ =~= start + args_closed_spans(all.take(i + 1)));
    }
    assert(all.take(v.len() as int) =~= all);
}

fn push_list_closed_spans(v: &Vec<Expr>, out: &mut Vec<Span>)
    ensures
        final(out)@ == old(out)@ + list_closed_spans(exprs_view(v@)),
    decreases *v,
{
    let ghost start = out@;
    let ghost all = exprs_view(v@);
    assert(start =~= start + list_closed_spans(all.take(0)));
    for i in 0..v.len()
        invariant
            all == exprs_view(v@),
            out@ == start + list_closed_spans(all.take(i as int)),
    {
        proof {
            assert(all.take(i + 1).drop_last() =~= all.take(i as int));
            assert(all.take(i + 1).last() == v[i as int]@);
        }
        push_closed_spans(&v[i], out);
        assert(out@ =~= start + list_closed_spans(all.take(i + 1)));
    }
    assert(all.take(v.len() as int) =~= all);
}

fn push_named_closed_spans(v: &Vec<(String, Expr)>, out: &mut Vec<Span>)
    ensures
        final(out)@ == old(out)@ + named_closed_spans(named_exprs_view(v@)),
    decreases *v,
{
    let ghost start = out@;
    let ghost all = named_exprs_view(v@);
    assert(start =~= start + named_closed_spans(all.take(0)));
    for i in 0..v.len()
        invariant
            all == named_exprs_view(v@),
            out@ == start + named_closed_spans(all.take(i as int)),
    {
        proof {
            assert(all.take(i + 1).drop_last() =~= all.take(i as int));
            assert(all.take(i + 1).last() == named_exprs_view(v@)[i as int]);
        }
        push_closed_spans(&v[i].1, out);
        assert(out@ =~= start + named_closed_spans(all.take(i + 1)));
    }
    assert(all.take(v.len() as int) =~= all);
}

fn push_arms_closed_spans(v: &Vec<MatchArm>, out: &mut Vec<Span>)
    ensures
        final(out)@ == old(out)@ + arms_closed_spans(match_arms_view(v@)),
    decreases *v,
{
    let ghost start = out@;
    let ghost all = match_arms_view(v@);
    assert(start =~= start + arms_closed_spans(all.take(0)));
    for i in 0..v.len()
        invariant
            all == match_arms_view(v@),
            out@ == start + arms_closed_spans(all.take(i as int)),
    {
        proof {
            assert(all.take(i + 1).drop_last() =~= all.take(i as int));
            assert(all.take(i + 1).last() == v[i as int]@);
        }
        push_closed_spans(&v[i].body, out);
        assert(out@ =~= start + arms_closed_spans(all.take(i + 1)));
    }
    assert(all.take(v.len() as int) =~= all);
}

fn push_segs_closed_spans(v: &Vec<StrSeg>, out: &mut Vec<Span>)
    ensures
        final(out)@ == old(out)@ + segs_closed_spans(str_segs_view(v@)),
    decreases *v,
{
    let ghost start = out@;
    let ghost all = str_segs_view(v@);
    assert(start =~= start + segs_closed_spans(all.take(0)));
    for i in 0..v.len()
        invariant
            all == str_segs_view(v@),
            out@ == start + segs_closed_spans(all.take(i as int)),
    {
        proof {
            assert(all.take(i + 1).drop_last() =~= all.take(i as int));
            assert(all.take(i + 1).last() == v[i as int]@);
        }
        match &v[i] {
            StrSeg::Expr(e) => push_closed_spans(e, out),
            StrSeg::Lit(_) => {},
        }
        assert(out@ =~= start + segs_closed_spans(all.take(i + 1)));
    }
    assert(all.take(v.len() as int) =~= all);
}

fn push_plain_arms_spans(v: &Vec<MatchArm>, out: &mut Vec<Span>)
    ensures
        final(out)@ == old(out)@ + plain_arms_spans(match_arms_view(v@)),
{
    let ghost start = out@;
    let ghost all = match_arms_view(v@);
    assert(start =~= start + plain_arms_spans(all.take(0)));
    for i in 0..v.len()
        invariant
            all == match_arms_view(v@),
            out@ == start + plain_arms_spans(all.take(i as int)),
    {
        proof {
            assert(all.take(i + 1).drop_last() =~= all.take(i as int));
            assert(all.take(i + 1).last() == v[i as int]@);
        }
        let body = &v[i].body;
        let block = matches!(body, Expr::Block(..));
        assert(block == (body@ is Block));
        if !block {
            push_closed_spans(body, out);
        }
        assert(out@ =~= start + plain_arms_spans(all.take(i + 1)));
    }
    assert(all.take(v.len() as int) =~= all);
}

fn push_plain_spans(e: &Expr, out: &mut Vec<Span>)
    ensures
        final(out)@ == old(out)@ + plain_spans(e@),
    decreases *e,
{
    let ghost start = out@;
    match e {
        Expr::Block(_, _) => {},
        Expr::If(c, _, els, _) => {
            push_closed_spans(c, out);
            if let Some(x) = els {
                push_plain_spans(x, out);
            }
        },
        Expr::IfLet(_, c, _, els, _) => {
            push_closed_spans(c, out);
            if let Some(x) = els {
                push_plain_spans(x, out);
            }
        },
        Expr::Match(c, arms, _) => {
            push_closed_spans(c, out);
            push_plain_arms_spans(arms, out);
        },
        _ => push_closed_spans(e, out),
    }
    assert(out@ =~= start + plain_spans(e@));
}

fn stmt_plain(s: &Stmt) -> (r: Vec<Span>)
    ensures
        r@ == stmt_plain_spans(s@),
{
    let mut out: Vec<Span> = Vec::new();
    match s {
        Stmt::Let { value, .. } => {
            if let Some(e) = value {
                push_plain_spans(e, &mut out);
            }
        },
        Stmt::Assign { target, value, .. } => {
            push_closed_spans(target, &mut out);
            push_closed_spans(value, &mut out);
        },
        Stmt::Expr(e) => push_plain_spans(e, &mut out),
        Stmt::While { cond, .. } => push_closed_spans(cond, &mut out),
        Stmt::For { iter, .. } => push_closed_spans(iter, &mut out),
        Stmt::Return(value, _) => {
            if let Some(e) = value {
                push_plain_spans(e, &mut out);
            }
        },
        _ => {},
    }
    assert(out@ =~= stmt_plain_spans(s@));
    out
}

/// The span of a statement.
pub open spec fn span_of_stmt(s: StmtV) -> Span {
    match s {
        StmtV::Let { span, .. } => span,
        StmtV::Assign { span, .. } => span,
        StmtV::Expr(e) => e.span(),
        StmtV::While { span, .. } => span,
        StmtV::For { span, .. } => span,
        StmtV::Return(_, span) => span,
        StmtV::Break(span) => span,
        StmtV::Continue(span) => span,
    }
}

/// The span of a statement.
pub fn whole_span(s: &Stmt) -> (r: Span)
    ensures
        r == span_of_stmt(s@),
{
    match s {
        Stmt::Let { span, .. } => *span,
        Stmt::Assign { span, .. } => *span,
        Stmt::Expr(e) => e.span(),
        Stmt::While { span, .. } => *span,
        Stmt::For { span, .. } => *span,
        Stmt::Return(_, span) => *span,
        Stmt::Break(span) => *span,
        Stmt::Continue(span) => *span,
    }
}

/// The written globals a task touches: names it captures that no enclosing scope
/// binds.
pub open spec fn touched_globals(
    ss: Seq<StmtV>,
    bound: Set<Seq<char>>,
    written: Set<Seq<char>>,
) -> Seq<Seq<char>> {
    in_order(captures(ss, binds(Seq::empty(), ss)).difference(bound).intersect(written))
}

/// One error for each written global a task touches.
pub open spec fn global_errors(ns: Seq<Seq<char>>, span: Span) -> Seq<(Seq<char>, Span)> {
    Seq::new(ns.len(), |i: int| (GLOBAL_BEFORE@ + ns[i] + GLOBAL_AFTER@, span))
}

/// Whether a statement binds a closure literal to a variable the scope spawns.
pub open spec fn binds_spawned(s: StmtV, spawned: Set<Seq<char>>) -> bool {
    match binding(s) {
        Some((name, value)) => value is Closure && spawned.contains(name),
        None => false,
    }
}

fn is_spawned_binding(s: &Stmt, spawned: &NameSet) -> (r: bool)
    ensures
        r == binds_spawned(s@, spawned@),
{
    match stmt_binding(s) {
        Some((name, value)) => matches!(value, Expr::Closure(..)) && spawned.contains(name),
        None => false,
    }
}

pub open spec fn larger(a: nat, b: nat) -> nat {
    if a < b {
        b
    } else {
        a
    }
}

/// The errors of a task body, reported at `span`: the written globals it touches,
/// then those of the body as a scope of its own.
pub open spec fn body_errors(
    ss: Seq<StmtV>,
    span: Span,
    bound: Set<Seq<char>>,
    written: Set<Seq<char>>,
) -> Seq<(Seq<char>, Span)>
    decreases size(ss), 1int, 0nat, 0int, 0int, 0int,
{
    global_errors(touched_globals(ss, bound, written), span) + scope_errors(
        ss,
        ss,
        bound.union(local_names(ss)),
        written,
    )
}

/// The errors of a statement list of the scope `all`: those of its statements, then
/// those of the closures bound to the variables it spawns.
pub open spec fn scope_errors(
    ss: Seq<StmtV>,
    all: Seq<StmtV>,
    bound: Set<Seq<char>>,
    written: Set<Seq<char>>,
) -> Seq<(Seq<char>, Span)>
    decreases larger(size(ss), size(all)), 0int, size(ss), 3int, 0int, 0int,
{
    stmts_errors(ss, ss.len() as int, all, bound, written) + vars_errors(
        in_order(spawned_vars(ss)),
        in_order(spawned_vars(ss)).len() as int,
        ss,
        all,
        bound,
        written,
    )
}

/// The errors of the first `k` statements.
pub open spec fn stmts_errors(
    ss: Seq<StmtV>,
    k: int,
    all: Seq<StmtV>,
    bound: Set<Seq<char>>,
    written: Set<Seq<char>>,
) -> Seq<(Seq<char>, Span)>
    decreases larger(size(ss), size(all)), 0int, size(ss), 1int, k, 0int,
{
    if k <= 0 || k > ss.len() {
        Seq::empty()
    } else {
        let s = ss[k - 1];
        stmts_errors(ss, k - 1, all, bound, written) + (match site_shape(s) {
            Some(SpawnArgV::Literal) => {
                proof {
                    site_closure_size(s);
                    stmt_size(ss, k - 1);
                }
                body_errors(
                    as_block(site_closure(s)->Some_0.1).stmts,
                    span_of_stmt(s),
                    bound,
                    written,
                )
            },
            Some(_) => Seq::empty(),
            None => if binds_spawned(s, spawned_vars(ss)) {
                Seq::empty()
            } else {
                lists_errors(ss, k - 1, nested(s).len() as int, all, bound, written) + errors_at(
                    PLAIN_CLOSURE_SPAWN@,
                    stmt_plain_spans(s),
                )
            },
        })
    }
}

/// The errors of the first `j` lists nested in statement `k`.
pub open spec fn lists_errors(
    ss: Seq<StmtV>,
    k: int,
    j: int,
    all: Seq<StmtV>,
    bound: Set<Seq<char>>,
    written: Set<Seq<char>>,
) -> Seq<(Seq<char>, Span)>
    decreases larger(size(ss), size(all)), 0int, size(ss), 1int, k, j,
{
    if k < 0 || k >= ss.len() || j <= 0 || j > nested(ss[k]).len() {
        Seq::empty()
    } else {
        proof {
            nested_size(ss[k], j - 1);
            stmt_size(ss, k);
        }
        lists_errors(ss, k, j - 1, all, bound, written) + scope_errors(
            nested(ss[k])[j - 1],
            all,
            bound,
            written,
        )
    }
}

/// The errors of the closures bound in `all` to the first `k` of the names that `ss`
/// spawns.
pub open spec fn vars_errors(
    ns: Seq<Seq<char>>,
    k: int,
    ss: Seq<StmtV>,
    all: Seq<StmtV>,
    bound: Set<Seq<char>>,
    written: Set<Seq<char>>,
) -> Seq<(Seq<char>, Span)>
    decreases larger(size(ss), size(all)), 0int, size(ss), 2int, k, 0int,
{
    if k <= 0 || k > ns.len() {
        Seq::empty()
    } else {
        vars_errors(ns, k - 1, ss, all, bound, written) + bindings_errors(
            ns[k - 1],
            closures_bound(control_stmts(all), ns[k - 1]).len() as int,
            all,
            bound,
            written,
        )
    }
}

/// The errors of the first `k` closures bound to `name` in `all`.
pub open spec fn bindings_errors(
    name: Seq<char>,
    k: int,
    all: Seq<StmtV>,
    bound: Set<Seq<char>>,
    written: Set<Seq<char>>,
) -> Seq<(Seq<char>, Span)>
    decreases size(all), 0int, 0nat, 0int, k, 0int,
{
    let cs = closures_bound(control_stmts(all), name);
    if k <= 0 || k > cs.len() {
        Seq::empty()
    } else {
        proof {
            bound_in_scope_size(all, name, k - 1);
        }
        let c = cs[k - 1];
        bindings_errors(name, k - 1, all, bound, written) + body_errors(
            c.1.stmts,
            c.1.span,
            bound.union(param_names(c.0)),
            written,
        )
    }
}

/// The errors of a function body: spawns that no analysis reaches, and tasks that
/// touch a global written elsewhere.
pub open spec fn spawn_errors_of(
    ss: Seq<StmtV>,
    params: Set<Seq<char>>,
    written: Set<Seq<char>>,
) -> Seq<(Seq<char>, Span)> {
    scope_errors(ss, ss, params.union(local_names(ss)), written)
}

fn report_globals(names: &Vec<String>, span: Span, out: &mut Vec<SpawnError>)
    ensures
        spawn_errors_view(final(out)@) == spawn_errors_view(old(out)@) + global_errors(
            texts(names@),
            span,
        ),
{
    let ghost start = spawn_errors_view(out@);
    let ghost ns = texts(names@);
    let ghost want = global_errors(ns, span);
    assert(start =~= start + want.take(0));
    for i in 0..names.len()
        invariant
            ns == texts(names@),
            want == global_errors(ns, span),
            spawn_errors_view(out@) == start + want.take(i as int),
    {
        assert(ns[i as int] == names[i as int]@);
        let message = cat3(GLOBAL_BEFORE, names[i].as_str(), GLOBAL_AFTER);
        report_spawn(message, span, out);
        assert(want.take(i + 1) =~= want.take(i as int).push(want[i as int]));
        assert(spawn_errors_view(out@) =~= start + want.take(i + 1));
    }
    assert(want.take(names.len() as int) =~= want);
}

fn report_plain(s: &Stmt, out: &mut Vec<SpawnError>)
    ensures
        spawn_errors_view(final(out)@) == spawn_errors_view(old(out)@) + errors_at(
            PLAIN_CLOSURE_SPAWN@,
            stmt_plain_spans(s@),
        ),
{
    let found = stmt_plain(s);
    let ghost start = spawn_errors_view(out@);
    let ghost want = errors_at(PLAIN_CLOSURE_SPAWN@, found@);
    assert(start =~= start + want.take(0));
    for i in 0..found.len()
        invariant
            want == errors_at(PLAIN_CLOSURE_SPAWN@, found@),
            spawn_errors_view(out@) == start + want.take(i as int),
    {
        report_spawn(PLAIN_CLOSURE_SPAWN.to_owned(), found[i], out);
        assert(want.take(i + 1) =~= want.take(i as int).push(want[i as int]));
        assert(spawn_errors_view(out@) =~= start + want.take(i + 1));
    }
    assert(want.take(found.len() as int) =~= want);
}

/// Check one spawned closure body: no written globals, then the body as a scope.
fn pre_check_spawn_body(
    body: &Block,
    span: Span,
    bound: &NameSet,
    written: &NameSet,
    out: &mut Vec<SpawnError>,
)
    ensures
        spawn_errors_view(final(out)@) == spawn_errors_view(old(out)@) + body_errors(
            body@.stmts,
            span,
            bound@,
            written@,
        ),
    decreases size(body@.stmts), 1int, 0nat,
{
    let ghost start = spawn_errors_view(out@);
    let none: Vec<Param> = Vec::new();
    let cbound = own_names(&none, body);
    assert(params_view(none@) =~= Seq::<ParamV>::empty());
    let caps = captured(body, &cbound);
    let free = crate::closure::names_without(&caps, bound);
    let touched = names_within(&free, written);
    report_globals(touched.items(), span, out);
    let mut inner = bound.copy();
    collect_local_bindings(&body.stmts, &mut inner);
    assert(body@.stmts == stmts_view(body.stmts@));
    pre_scan_scope(&body.stmts, &body.stmts, &inner, written, out);
    assert(spawn_errors_view(out@) =~= start + body_errors(body@.stmts, span, bound@, written@));
}

#[verifier::rlimit(50)]
fn pre_scan_scope(
    stmts: &Vec<Stmt>,
    all: &Vec<Stmt>,
    bound: &NameSet,
    written: &NameSet,
    out: &mut Vec<SpawnError>,
)
    ensures
        spawn_errors_view(final(out)@) == spawn_errors_view(old(out)@) + scope_errors(
            stmts_view(stmts@),
            stmts_view(all@),
            bound@,
            written@,
        ),
    decreases larger(size(stmts_view(stmts@)), size(stmts_view(all@))), 0int, size(
        stmts_view(stmts@),
    ),
{
    let ghost start = spawn_errors_view(out@);
    let ghost ss = stmts_view(stmts@);
    let ghost av = stmts_view(all@);
    let spawned = spawned_var_names(stmts);
    assert(start =~= start + stmts_errors(ss, 0, av, bound@, written@));
    for i in 0..stmts.len()
        invariant
            ss == stmts_view(stmts@),
            av == stmts_view(all@),
            spawned@ == spawned_vars(ss),
            spawn_errors_view(out@) == start + stmts_errors(ss, i as int, av, bound@, written@),
    {
        let ghost s = stmts[i as int]@;
        let ghost here = spawn_errors_view(out@);
        assert(ss[i as int] == s);
        match spawn_arg(&stmts[i]) {
            Some(SpawnArg::Literal) => {
                match spawn_closure(&stmts[i]) {
                    Some((_, body)) => {
                        let block = closure_block(body);
                        proof {
                            site_closure_size(s);
                            stmt_size(ss, i as int);
                        }
                        pre_check_spawn_body(&block, whole_span(&stmts[i]), bound, written, out);
                    },
                    None => {
                        assert(false);
                    },
                }
            },
            Some(_) => {
                assert(here =~= here + Seq::<(Seq<char>, Span)>::empty());
            },
            None => {
                if is_spawned_binding(&stmts[i], &spawned) {
                    assert(here =~= here + Seq::<(Seq<char>, Span)>::empty());
                } else {
                    let lists = nested_block_stmts(&stmts[i]);
                    assert(here =~= here + lists_errors(ss, i as int, 0, av, bound@, written@));
                    for j in 0..lists.len()
                        invariant
                            i < stmts.len(),
                            ss == stmts_view(stmts@),
                            av == stmts_view(all@),
                            s == stmts[i as int]@,
                            ss[i as int] == s,
                            stmt_lists(lists@) == nested(s),
                            spawn_errors_view(out@) == here + lists_errors(
                                ss,
                                i as int,
                                j as int,
                                av,
                                bound@,
                                written@,
                            ),
                    {
                        proof {
                            nested_size(s, j as int);
                            stmt_size(ss, i as int);
                            assert(nested(s)[j as int] == stmts_view(lists[j as int]@));
                        }
                        pre_scan_scope(lists[j], all, bound, written, out);
                        assert(spawn_errors_view(out@) =~= here + lists_errors(
                            ss,
                            i as int,
                            j + 1,
                            av,
                            bound@,
                            written@,
                        ));
                    }
                    report_plain(&stmts[i], out);
                }
            },
        }
        assert(spawn_errors_view(out@) =~= start + stmts_errors(ss, i + 1, av, bound@, written@));
    }
    let ghost mid = spawn_errors_view(out@);
    let names = spawned.items();
    let ghost ns = texts(names@);
    assert(mid =~= mid + vars_errors(ns, 0, ss, av, bound@, written@));
    for k in 0..names.len()
        invariant
            ss == stmts_view(stmts@),
            av == stmts_view(all@),
            ns == texts(names@),
            spawn_errors_view(out@) == mid + vars_errors(ns, k as int, ss, av, bound@, written@),
    {
        let ghost here = spawn_errors_view(out@);
        let mut cs: Vec<(Vec<Param>, Block)> = Vec::new();
        closure_bindings_of(all, names[k].as_str(), &mut cs);
        let ghost cv = closures_bound(control_stmts(av), ns[k as int]);
        assert(closures_view(cs@) =~= cv);
        assert(here =~= here + bindings_errors(ns[k as int], 0, av, bound@, written@));
        for j in 0..cs.len()
            invariant
                k < ns.len(),
                av == stmts_view(all@),
                cv == closures_bound(control_stmts(av), ns[k as int]),
                closures_view(cs@) == cv,
                spawn_errors_view(out@) == here + bindings_errors(
                    ns[k as int],
                    j as int,
                    av,
                    bound@,
                    written@,
                ),
        {
            proof {
                bound_in_scope_size(av, ns[k as int], j as int);
                assert(cv[j as int] == (params_view(cs[j as int].0@), cs[j as int].1@));
            }
            let mut cbound = bound.copy();
            collect_param_names(&cs[j].0, &mut cbound);
            pre_check_spawn_body(&cs[j].1, cs[j].1.span, &cbound, written, out);
            assert(spawn_errors_view(out@) =~= here + bindings_errors(
                ns[k as int],
                j + 1,
                av,
                bound@,
                written@,
            ));
        }
        assert(spawn_errors_view(out@) =~= mid + vars_errors(ns, k + 1, ss, av, bound@, written@));
    }
    assert(spawn_errors_view(out@) =~= start + scope_errors(ss, av, bound@, written@));
}

/// Reject spawn shapes that cannot be made free of races: a `spawn` inside a closure
/// that is not itself spawned, and a task that touches a global written somewhere.
pub fn pre_spawn_errors(
    stmts: &Vec<Stmt>,
    params: &NameSet,
    mutated_globals: &NameSet,
) -> (r: Vec<SpawnError>)
    ensures
        spawn_errors_view(r@) == spawn_errors_of(stmts_view(stmts@), params@, mutated_globals@),
{
    let mut errors: Vec<SpawnError> = Vec::new();
    let mut bound = params.copy();
    collect_local_bindings(stmts, &mut bound);
    pre_scan_scope(stmts, stmts, &bound, mutated_globals, &mut errors);
    assert(spawn_errors_view(errors@) =~= spawn_errors_of(
        stmts_view(stmts@),
        params@,
        mutated_globals@,
    ));
    errors
}

} // verus!

