//! How code is made up of parts, and that walking over it comes to every part once and in
//! order.

use vstd::prelude::*;
use crate::ast::{ArgV, ExprV, MatchArmV, PatternV, StmtV, StrSegV};
use crate::bindings::{bound_in_args, bound_in_arms, bound_in_expr, bound_in_list, bound_in_named, bound_in_params, bound_in_pattern, bound_in_segs, bound_in_stmt, bound_in_stmts};
use crate::precheck::{args_closed_spans, arms_closed_spans, closed_spans, list_closed_spans, named_closed_spans, segs_closed_spans, spawn_spans, stmt_closed_spans, stmts_closed_spans};
use crate::scan::{arg_events, arm_events, events, list_events, named_events, seg_events, stmt_events, stmts_events, EventV};
use crate::span::Span;
use crate::traverse::{arg_exprs, arm_exprs, exprs, list_exprs, named_exprs, seg_exprs, stmt_exprs, stmts_exprs};
use crate::tree::{tree_args, tree_arms, tree_expr, tree_list, tree_named, tree_segs, tree_stmt, tree_stmts};

verus! {

// ---- parts ----

/// A piece of code.
pub ghost enum Piece {
    Expr(ExprV),
    Stmt(StmtV),
    Arm(MatchArmV),
}

/// Statements as pieces.
pub open spec fn stmt_pieces(ss: Seq<StmtV>) -> Seq<Piece> {
    Seq::new(ss.len(), |i: int| Piece::Stmt(ss[i]))
}

/// An expression that may be missing, as pieces.
pub open spec fn opt_piece(e: Option<ExprV>) -> Seq<Piece> {
    match e {
        Some(x) => seq![Piece::Expr(x)],
        None => Seq::empty(),
    }
}

/// What is interpolated into a string literal, as pieces.
pub open spec fn seg_pieces(segs: Seq<StrSegV>) -> Seq<Piece>
    decreases segs.len(),
{
    if segs.len() == 0 {
        Seq::empty()
    } else {
        seg_pieces(segs.drop_last()) + (match segs.last() {
            StrSegV::Expr(e) => seq![Piece::Expr(*e)],
            StrSegV::Lit(_) => Seq::empty(),
        })
    }
}

/// The parts that a piece of code is directly made of, in the order they are written.
pub open spec fn parts(p: Piece) -> Seq<Piece> {
    match p {
        Piece::Expr(e) => match e {
            ExprV::Unary(_, a, _) => seq![Piece::Expr(*a)],
            ExprV::Field(a, _, _) => seq![Piece::Expr(*a)],
            ExprV::ErrorProp(a, _) => seq![Piece::Expr(*a)],
            ExprV::Closure(_, a, _) => seq![Piece::Expr(*a)],
            ExprV::Binary(_, a, b, _) => seq![Piece::Expr(*a), Piece::Expr(*b)],
            ExprV::Index(a, b, _) => seq![Piece::Expr(*a), Piece::Expr(*b)],
            ExprV::Range(a, b, _) => seq![Piece::Expr(*a), Piece::Expr(*b)],
            ExprV::Call(c, args, _) => seq![Piece::Expr(*c)] + Seq::new(
                args.len(),
                |i: int| Piece::Expr(args[i].expr),
            ),
            ExprV::Array(es, _) => Seq::new(es.len(), |i: int| Piece::Expr(es[i])),
            ExprV::TypeLit(_, fs, _) => Seq::new(fs.len(), |i: int| Piece::Expr(fs[i].1)),
            ExprV::VariantLit(_, _, fs, _) => Seq::new(fs.len(), |i: int| Piece::Expr(fs[i].1)),
            ExprV::Str(segs, _) => seg_pieces(segs),
            ExprV::If(c, t, els, _) => seq![Piece::Expr(*c)] + stmt_pieces(t.stmts) + (match els {
                Some(x) => seq![Piece::Expr(*x)],
                None => Seq::empty(),
            }),
            ExprV::IfLet(_, c, t, els, _) => seq![Piece::Expr(*c)] + stmt_pieces(t.stmts) + (
            match els {
                Some(x) => seq![Piece::Expr(*x)],
                None => Seq::empty(),
            }),
            ExprV::Match(c, arms, _) => seq![Piece::Expr(*c)] + Seq::new(
                arms.len(),
                |i: int| Piece::Arm(arms[i]),
            ),
            ExprV::Block(b, _) => stmt_pieces(b.stmts),
            _ => Seq::empty(),
        },
        Piece::Stmt(s) => match s {
            StmtV::Let { value, .. } => opt_piece(value),
            StmtV::Assign { target, value, .. } => seq![Piece::Expr(target), Piece::Expr(value)],
            StmtV::Expr(e) => seq![Piece::Expr(e)],
            StmtV::While { cond, body, .. } => seq![Piece::Expr(cond)] + stmt_pieces(body.stmts),
            StmtV::For { iter, body, .. } => seq![Piece::Expr(iter)] + stmt_pieces(body.stmts),
            StmtV::Return(value, _) => opt_piece(value),
            _ => Seq::empty(),
        },
        Piece::Arm(a) => seq![Piece::Expr(a.body)],
    }
}

/// What a walk finds in pieces, one after the other.
pub open spec fn found_in<T>(ps: Seq<Piece>, f: spec_fn(Piece) -> Seq<T>) -> Seq<T>
    decreases ps.len(),
{
    if ps.len() == 0 {
        Seq::empty()
    } else {
        found_in(ps.drop_last(), f) + f(ps.last())
    }
}

proof fn found_both<T>(a: Seq<Piece>, b: Seq<Piece>, f: spec_fn(Piece) -> Seq<T>)
    ensures
        found_in(a + b, f) == found_in(a, f) + found_in(b, f),
    decreases b.len(),
{
    if b.len() == 0 {
        assert(a + b =~= a);
        assert(found_in(a, f) + found_in(b, f) =~= found_in(a, f));
    } else {
        found_both(a, b.drop_last(), f);
        assert((a + b).drop_last() =~= a + b.drop_last());
        assert((a + b).last() == b.last());
        assert(found_in(a, f) + (found_in(b.drop_last(), f) + f(b.last())) =~= (found_in(a, f)
            + found_in(b.drop_last(), f)) + f(b.last()));
    }
}

proof fn found_one<T>(p: Piece, f: spec_fn(Piece) -> Seq<T>)
    ensures
        found_in(seq![p], f) == f(p),
{
    assert(seq![p].drop_last() =~= Seq::<Piece>::empty());
    assert(found_in(Seq::<Piece>::empty(), f) + f(p) =~= f(p));
}

proof fn found_two<T>(p: Piece, q: Piece, f: spec_fn(Piece) -> Seq<T>)
    ensures
        found_in(seq![p, q], f) == f(p) + f(q),
{
    found_one(p, f);
    assert(seq![p, q].drop_last() =~= seq![p]);
}

// ---- expressions ----

/// The expressions found in a piece of code.
pub open spec fn exprs_of(p: Piece) -> Seq<ExprV> {
    match p {
        Piece::Expr(e) => exprs(e),
        Piece::Stmt(s) => stmt_exprs(s),
        Piece::Arm(a) => exprs(a.body),
    }
}

pub open spec fn exprs_walk() -> spec_fn(Piece) -> Seq<ExprV> {
    |p: Piece| exprs_of(p)
}

proof fn exprs_stmts(ss: Seq<StmtV>)
    ensures
        stmts_exprs(ss) == found_in(stmt_pieces(ss), exprs_walk()),
    decreases ss.len(),
{
    let ps: Seq<Piece> = stmt_pieces(ss);
    if ss.len() > 0 {
        let front = ss.drop_last();
        exprs_stmts(front);
        assert(ps.drop_last() =~= stmt_pieces(front));
    }
}

proof fn exprs_args(ss: Seq<ArgV>)
    ensures
        arg_exprs(ss) == found_in(Seq::new(ss.len(), |i: int| Piece::Expr(ss[i].expr)), exprs_walk()),
    decreases ss.len(),
{
    let ps: Seq<Piece> = Seq::new(ss.len(), |i: int| Piece::Expr(ss[i].expr));
    if ss.len() > 0 {
        let front = ss.drop_last();
        exprs_args(front);
        assert(ps.drop_last() =~= Seq::new(front.len(), |i: int| Piece::Expr(front[i].expr)));
    }
}

proof fn exprs_list(ss: Seq<ExprV>)
    ensures
        list_exprs(ss) == found_in(Seq::new(ss.len(), |i: int| Piece::Expr(ss[i])), exprs_walk()),
    decreases ss.len(),
{
    let ps: Seq<Piece> = Seq::new(ss.len(), |i: int| Piece::Expr(ss[i]));
    if ss.len() > 0 {
        let front = ss.drop_last();
        exprs_list(front);
        assert(ps.drop_last() =~= Seq::new(front.len(), |i: int| Piece::Expr(front[i])));
    }
}

proof fn exprs_named(ss: Seq<(Seq<char>, ExprV)>)
    ensures
        named_exprs(ss) == found_in(Seq::new(ss.len(), |i: int| Piece::Expr(ss[i].1)), exprs_walk()),
    decreases ss.len(),
{
    let ps: Seq<Piece> = Seq::new(ss.len(), |i: int| Piece::Expr(ss[i].1));
    if ss.len() > 0 {
        let front = ss.drop_last();
        exprs_named(front);
        assert(ps.drop_last() =~= Seq::new(front.len(), |i: int| Piece::Expr(front[i].1)));
    }
}

proof fn exprs_arms(ss: Seq<MatchArmV>)
    ensures
        arm_exprs(ss) == found_in(Seq::new(ss.len(), |i: int| Piece::Arm(ss[i])), exprs_walk()),
    decreases ss.len(),
{
    let ps: Seq<Piece> = Seq::new(ss.len(), |i: int| Piece::Arm(ss[i]));
    if ss.len() > 0 {
        let front = ss.drop_last();
        exprs_arms(front);
        assert(ps.drop_last() =~= Seq::new(front.len(), |i: int| Piece::Arm(front[i])));
    }
}

proof fn exprs_segs(ss: Seq<StrSegV>)
    ensures
        seg_exprs(ss) == found_in(seg_pieces(ss), exprs_walk()),
    decreases ss.len(),
{
    let ps: Seq<Piece> = seg_pieces(ss);
    if ss.len() > 0 {
        let front = ss.drop_last();
        exprs_segs(front);
        let last = match ss.last() {
            StrSegV::Expr(e) => seq![Piece::Expr(*e)],
            StrSegV::Lit(_) => Seq::empty(),
        };
        found_both(seg_pieces(front), last, exprs_walk());
        if let StrSegV::Expr(e) = ss.last() {
            found_one(Piece::Expr(*e), exprs_walk());
        }
    }
}

/// A walk over expressions comes to an expression itself, then to what is in each of its
/// parts, in order.
pub proof fn expressions_go_by_parts(p: Piece)
    ensures
        exprs_of(p) == (match p {
            Piece::Expr(e) => seq![e],
            _ => Seq::empty(),
        }) + found_in(parts(p), exprs_walk()),
{
    let f = exprs_walk();
    match p {
        Piece::Expr(e) => match e {
            ExprV::Unary(_, a, _) => found_one(Piece::Expr(*a), f),
            ExprV::Field(a, _, _) => found_one(Piece::Expr(*a), f),
            ExprV::ErrorProp(a, _) => found_one(Piece::Expr(*a), f),
            ExprV::Closure(_, a, _) => found_one(Piece::Expr(*a), f),
            ExprV::Binary(_, a, b, _) => found_two(Piece::Expr(*a), Piece::Expr(*b), f),
            ExprV::Index(a, b, _) => found_two(Piece::Expr(*a), Piece::Expr(*b), f),
            ExprV::Range(a, b, _) => found_two(Piece::Expr(*a), Piece::Expr(*b), f),
            ExprV::Call(c, args, _) => {
                let ps: Seq<Piece> = Seq::new(args.len(), |i: int| Piece::Expr(args[i].expr));
                found_both(seq![Piece::Expr(*c)], ps, f);
                found_one(Piece::Expr(*c), f);
                exprs_args(args);
            },
            ExprV::Array(es, _) => exprs_list(es),
            ExprV::TypeLit(_, fs, _) => exprs_named(fs),
            ExprV::VariantLit(_, _, fs, _) => exprs_named(fs),
            ExprV::Str(segs, _) => exprs_segs(segs),
            ExprV::If(c, t, els, _) => {
                exprs_branches(*c, t.stmts, els);
            },
            ExprV::IfLet(_, c, t, els, _) => {
                exprs_branches(*c, t.stmts, els);
            },
            ExprV::Match(c, arms, _) => {
                let ps: Seq<Piece> = Seq::new(arms.len(), |i: int| Piece::Arm(arms[i]));
                found_both(seq![Piece::Expr(*c)], ps, f);
                found_one(Piece::Expr(*c), f);
                exprs_arms(arms);
            },
            ExprV::Block(b, _) => exprs_stmts(b.stmts),
            _ => {
                assert(parts(p) =~= Seq::empty());
            },
        },
        Piece::Stmt(s) => match s {
            StmtV::Let { value, .. } => {
                if let Some(v) = value {
                    found_one(Piece::Expr(v), f);
                }
            },
            StmtV::Assign { target, value, .. } => found_two(
                Piece::Expr(target),
                Piece::Expr(value),
                f,
            ),
            StmtV::Expr(e) => found_one(Piece::Expr(e), f),
            StmtV::While { cond, body, .. } => {
                found_both(seq![Piece::Expr(cond)], stmt_pieces(body.stmts), f);
                found_one(Piece::Expr(cond), f);
                exprs_stmts(body.stmts);
            },
            StmtV::For { iter, body, .. } => {
                found_both(seq![Piece::Expr(iter)], stmt_pieces(body.stmts), f);
                found_one(Piece::Expr(iter), f);
                exprs_stmts(body.stmts);
            },
            StmtV::Return(value, _) => {
                if let Some(v) = value {
                    found_one(Piece::Expr(v), f);
                }
            },
            _ => {},
        },
        Piece::Arm(a) => found_one(Piece::Expr(a.body), f),
    }
    assert(exprs_of(p) =~= (match p {
            Piece::Expr(e) => seq![e],
            _ => Seq::empty(),
        }) + found_in(parts(p), exprs_walk()));
}

proof fn exprs_branches(c: ExprV, t: Seq<StmtV>, els: Option<Box<ExprV>>)
    ensures
        found_in(
            seq![Piece::Expr(c)] + stmt_pieces(t) + (match els {
                Some(x) => seq![Piece::Expr(*x)],
                None => Seq::empty(),
            }),
            exprs_walk(),
        ) == exprs(c) + stmts_exprs(t) + (match els {
            Some(x) => exprs(*x),
            None => Seq::empty(),
        }),
{
    let f = exprs_walk();
    let last: Seq<Piece> = match els {
        Some(x) => seq![Piece::Expr(*x)],
        None => Seq::empty(),
    };
    found_both(seq![Piece::Expr(c)] + stmt_pieces(t), last, f);
    found_both(seq![Piece::Expr(c)], stmt_pieces(t), f);
    found_one(Piece::Expr(c), f);
    exprs_stmts(t);
    if let Some(x) = els {
        found_one(Piece::Expr(*x), f);
    }
}

// ---- statements ----

/// The statements found in a piece of code.
pub open spec fn tree_of(p: Piece) -> Seq<StmtV> {
    match p {
        Piece::Expr(e) => tree_expr(e, true),
        Piece::Stmt(s) => tree_stmt(s, true),
        Piece::Arm(a) => tree_expr(a.body, true),
    }
}

pub open spec fn tree_walk() -> spec_fn(Piece) -> Seq<StmtV> {
    |p: Piece| tree_of(p)
}

proof fn tree_stmts_list(ss: Seq<StmtV>)
    ensures
        tree_stmts(ss, true) == found_in(stmt_pieces(ss), tree_walk()),
    decreases ss.len(),
{
    let ps: Seq<Piece> = stmt_pieces(ss);
    if ss.len() > 0 {
        let front = ss.drop_last();
        tree_stmts_list(front);
        assert(ps.drop_last() =~= stmt_pieces(front));
    }
}

proof fn tree_args_found(ss: Seq<ArgV>)
    ensures
        tree_args(ss, true) == found_in(Seq::new(ss.len(), |i: int| Piece::Expr(ss[i].expr)), tree_walk()),
    decreases ss.len(),
{
    let ps: Seq<Piece> = Seq::new(ss.len(), |i: int| Piece::Expr(ss[i].expr));
    if ss.len() > 0 {
        let front = ss.drop_last();
        tree_args_found(front);
        assert(ps.drop_last() =~= Seq::new(front.len(), |i: int| Piece::Expr(front[i].expr)));
    }
}

proof fn tree_list_found(ss: Seq<ExprV>)
    ensures
        tree_list(ss, true) == found_in(Seq::new(ss.len(), |i: int| Piece::Expr(ss[i])), tree_walk()),
    decreases ss.len(),
{
    let ps: Seq<Piece> = Seq::new(ss.len(), |i: int| Piece::Expr(ss[i]));
    if ss.len() > 0 {
        let front = ss.drop_last();
        tree_list_found(front);
        assert(ps.drop_last() =~= Seq::new(front.len(), |i: int| Piece::Expr(front[i])));
    }
}

proof fn tree_named_found(ss: Seq<(Seq<char>, ExprV)>)
    ensures
        tree_named(ss, true) == found_in(Seq::new(ss.len(), |i: int| Piece::Expr(ss[i].1)), tree_walk()),
    decreases ss.len(),
{
    let ps: Seq<Piece> = Seq::new(ss.len(), |i: int| Piece::Expr(ss[i].1));
    if ss.len() > 0 {
        let front = ss.drop_last();
        tree_named_found(front);
        assert(ps.drop_last() =~= Seq::new(front.len(), |i: int| Piece::Expr(front[i].1)));
    }
}

proof fn tree_arms_found(ss: Seq<MatchArmV>)
    ensures
        tree_arms(ss, true) == found_in(Seq::new(ss.len(), |i: int| Piece::Arm(ss[i])), tree_walk()),
    decreases ss.len(),
{
    let ps: Seq<Piece> = Seq::new(ss.len(), |i: int| Piece::Arm(ss[i]));
    if ss.len() > 0 {
        let front = ss.drop_last();
        tree_arms_found(front);
        assert(ps.drop_last() =~= Seq::new(front.len(), |i: int| Piece::Arm(front[i])));
    }
}

proof fn tree_segs_found(ss: Seq<StrSegV>)
    ensures
        tree_segs(ss, true) == found_in(seg_pieces(ss), tree_walk()),
    decreases ss.len(),
{
    let ps: Seq<Piece> = seg_pieces(ss);
    if ss.len() > 0 {
        let front = ss.drop_last();
        tree_segs_found(front);
        let last = match ss.last() {
            StrSegV::Expr(e) => seq![Piece::Expr(*e)],
            StrSegV::Lit(_) => Seq::empty(),
        };
        found_both(seg_pieces(front), last, tree_walk());
        if let StrSegV::Expr(e) = ss.last() {
            found_one(Piece::Expr(*e), tree_walk());
        }
    }
}

/// A walk over statements comes to a statement itself, then to what is in each of its
/// parts, in order.
pub proof fn statements_go_by_parts(p: Piece)
    ensures
        tree_of(p) == (match p {
            Piece::Stmt(s) => seq![s],
            _ => Seq::empty(),
        }) + found_in(parts(p), tree_walk()),
{
    let f = tree_walk();
    match p {
        Piece::Expr(e) => match e {
            ExprV::Unary(_, a, _) => found_one(Piece::Expr(*a), f),
            ExprV::Field(a, _, _) => found_one(Piece::Expr(*a), f),
            ExprV::ErrorProp(a, _) => found_one(Piece::Expr(*a), f),
            ExprV::Closure(_, a, _) => found_one(Piece::Expr(*a), f),
            ExprV::Binary(_, a, b, _) => found_two(Piece::Expr(*a), Piece::Expr(*b), f),
            ExprV::Index(a, b, _) => found_two(Piece::Expr(*a), Piece::Expr(*b), f),
            ExprV::Range(a, b, _) => found_two(Piece::Expr(*a), Piece::Expr(*b), f),
            ExprV::Call(c, args, _) => {
                let ps: Seq<Piece> = Seq::new(args.len(), |i: int| Piece::Expr(args[i].expr));
                found_both(seq![Piece::Expr(*c)], ps, f);
                found_one(Piece::Expr(*c), f);
                tree_args_found(args);
            },
            ExprV::Array(es, _) => tree_list_found(es),
            ExprV::TypeLit(_, fs, _) => tree_named_found(fs),
            ExprV::VariantLit(_, _, fs, _) => tree_named_found(fs),
            ExprV::Str(segs, _) => tree_segs_found(segs),
            ExprV::If(c, t, els, _) => {
                tree_branches(*c, t.stmts, els);
            },
            ExprV::IfLet(_, c, t, els, _) => {
                tree_branches(*c, t.stmts, els);
            },
            ExprV::Match(c, arms, _) => {
                let ps: Seq<Piece> = Seq::new(arms.len(), |i: int| Piece::Arm(arms[i]));
                found_both(seq![Piece::Expr(*c)], ps, f);
                found_one(Piece::Expr(*c), f);
                tree_arms_found(arms);
            },
            ExprV::Block(b, _) => tree_stmts_list(b.stmts),
            _ => {
                assert(parts(p) =~= Seq::empty());
            },
        },
        Piece::Stmt(s) => match s {
            StmtV::Let { value, .. } => {
                if let Some(v) = value {
                    found_one(Piece::Expr(v), f);
                }
            },
            StmtV::Assign { target, value, .. } => found_two(
                Piece::Expr(target),
                Piece::Expr(value),
                f,
            ),
            StmtV::Expr(e) => found_one(Piece::Expr(e), f),
            StmtV::While { cond, body, .. } => {
                found_both(seq![Piece::Expr(cond)], stmt_pieces(body.stmts), f);
                found_one(Piece::Expr(cond), f);
                tree_stmts_list(body.stmts);
            },
            StmtV::For { iter, body, .. } => {
                found_both(seq![Piece::Expr(iter)], stmt_pieces(body.stmts), f);
                found_one(Piece::Expr(iter), f);
                tree_stmts_list(body.stmts);
            },
            StmtV::Return(value, _) => {
                if let Some(v) = value {
                    found_one(Piece::Expr(v), f);
                }
            },
            _ => {},
        },
        Piece::Arm(a) => found_one(Piece::Expr(a.body), f),
    }
    assert(tree_of(p) =~= (match p {
            Piece::Stmt(s) => seq![s],
            _ => Seq::empty(),
        }) + found_in(parts(p), tree_walk()));
}

proof fn tree_branches(c: ExprV, t: Seq<StmtV>, els: Option<Box<ExprV>>)
    ensures
        found_in(
            seq![Piece::Expr(c)] + stmt_pieces(t) + (match els {
                Some(x) => seq![Piece::Expr(*x)],
                None => Seq::empty(),
            }),
            tree_walk(),
        ) == tree_expr(c, true) + tree_stmts(t, true) + (match els {
            Some(x) => tree_expr(*x, true),
            None => Seq::empty(),
        }),
{
    let f = tree_walk();
    let last: Seq<Piece> = match els {
        Some(x) => seq![Piece::Expr(*x)],
        None => Seq::empty(),
    };
    found_both(seq![Piece::Expr(c)] + stmt_pieces(t), last, f);
    found_both(seq![Piece::Expr(c)], stmt_pieces(t), f);
    found_one(Piece::Expr(c), f);
    tree_stmts_list(t);
    if let Some(x) = els {
        found_one(Piece::Expr(*x), f);
    }
}

// ---- statements, closures apart ----

/// The statements found in a piece of code, closures apart.
pub open spec fn open_tree_of(p: Piece) -> Seq<StmtV> {
    match p {
        Piece::Expr(e) => tree_expr(e, false),
        Piece::Stmt(s) => tree_stmt(s, false),
        Piece::Arm(a) => tree_expr(a.body, false),
    }
}

pub open spec fn open_tree_walk() -> spec_fn(Piece) -> Seq<StmtV> {
    |p: Piece| open_tree_of(p)
}

proof fn open_tree_stmts(ss: Seq<StmtV>)
    ensures
        tree_stmts(ss, false) == found_in(stmt_pieces(ss), open_tree_walk()),
    decreases ss.len(),
{
    let ps: Seq<Piece> = stmt_pieces(ss);
    if ss.len() > 0 {
        let front = ss.drop_last();
        open_tree_stmts(front);
        assert(ps.drop_last() =~= stmt_pieces(front));
    }
}

proof fn open_tree_args(ss: Seq<ArgV>)
    ensures
        tree_args(ss, false) == found_in(Seq::new(ss.len(), |i: int| Piece::Expr(ss[i].expr)), open_tree_walk()),
    decreases ss.len(),
{
    let ps: Seq<Piece> = Seq::new(ss.len(), |i: int| Piece::Expr(ss[i].expr));
    if ss.len() > 0 {
        let front = ss.drop_last();
        open_tree_args(front);
        assert(ps.drop_last() =~= Seq::new(front.len(), |i: int| Piece::Expr(front[i].expr)));
    }
}

proof fn open_tree_list(ss: Seq<ExprV>)
    ensures
        tree_list(ss, false) == found_in(Seq::new(ss.len(), |i: int| Piece::Expr(ss[i])), open_tree_walk()),
    decreases ss.len(),
{
    let ps: Seq<Piece> = Seq::new(ss.len(), |i: int| Piece::Expr(ss[i]));
    if ss.len() > 0 {
        let front = ss.drop_last();
        open_tree_list(front);
        assert(ps.drop_last() =~= Seq::new(front.len(), |i: int| Piece::Expr(front[i])));
    }
}

proof fn open_tree_named(ss: Seq<(Seq<char>, ExprV)>)
    ensures
        tree_named(ss, false) == found_in(Seq::new(ss.len(), |i: int| Piece::Expr(ss[i].1)), open_tree_walk()),
    decreases ss.len(),
{
    let ps: Seq<Piece> = Seq::new(ss.len(), |i: int| Piece::Expr(ss[i].1));
    if ss.len() > 0 {
        let front = ss.drop_last();
        open_tree_named(front);
        assert(ps.drop_last() =~= Seq::new(front.len(), |i: int| Piece::Expr(front[i].1)));
    }
}

proof fn open_tree_arms(ss: Seq<MatchArmV>)
    ensures
        tree_arms(ss, false) == found_in(Seq::new(ss.len(), |i: int| Piece::Arm(ss[i])), open_tree_walk()),
    decreases ss.len(),
{
    let ps: Seq<Piece> = Seq::new(ss.len(), |i: int| Piece::Arm(ss[i]));
    if ss.len() > 0 {
        let front = ss.drop_last();
        open_tree_arms(front);
        assert(ps.drop_last() =~= Seq::new(front.len(), |i: int| Piece::Arm(front[i])));
    }
}

proof fn open_tree_segs(ss: Seq<StrSegV>)
    ensures
        tree_segs(ss, false) == found_in(seg_pieces(ss), open_tree_walk()),
    decreases ss.len(),
{
    let ps: Seq<Piece> = seg_pieces(ss);
    if ss.len() > 0 {
        let front = ss.drop_last();
        open_tree_segs(front);
        let last = match ss.last() {
            StrSegV::Expr(e) => seq![Piece::Expr(*e)],
            StrSegV::Lit(_) => Seq::empty(),
        };
        found_both(seg_pieces(front), last, open_tree_walk());
        if let StrSegV::Expr(e) = ss.last() {
            found_one(Piece::Expr(*e), open_tree_walk());
        }
    }
}

/// A walk over the statements of a scope does the same, but passes over closures.
pub proof fn scopes_go_by_parts(p: Piece)
    ensures
        open_tree_of(p) == (match p {
            Piece::Stmt(s) => seq![s],
            _ => Seq::empty(),
        }) + (if p matches Piece::Expr(e) && e is Closure {
            Seq::empty()
        } else {
            found_in(parts(p), open_tree_walk())
        }),
{
    let f = open_tree_walk();
    match p {
        Piece::Expr(e) => match e {
            ExprV::Unary(_, a, _) => found_one(Piece::Expr(*a), f),
            ExprV::Field(a, _, _) => found_one(Piece::Expr(*a), f),
            ExprV::ErrorProp(a, _) => found_one(Piece::Expr(*a), f),
            ExprV::Closure(_, a, _) => found_one(Piece::Expr(*a), f),
            ExprV::Binary(_, a, b, _) => found_two(Piece::Expr(*a), Piece::Expr(*b), f),
            ExprV::Index(a, b, _) => found_two(Piece::Expr(*a), Piece::Expr(*b), f),
            ExprV::Range(a, b, _) => found_two(Piece::Expr(*a), Piece::Expr(*b), f),
            ExprV::Call(c, args, _) => {
                let ps: Seq<Piece> = Seq::new(args.len(), |i: int| Piece::Expr(args[i].expr));
                found_both(seq![Piece::Expr(*c)], ps, f);
                found_one(Piece::Expr(*c), f);
                open_tree_args(args);
            },
            ExprV::Array(es, _) => open_tree_list(es),
            ExprV::TypeLit(_, fs, _) => open_tree_named(fs),
            ExprV::VariantLit(_, _, fs, _) => open_tree_named(fs),
            ExprV::Str(segs, _) => open_tree_segs(segs),
            ExprV::If(c, t, els, _) => {
                open_tree_branches(*c, t.stmts, els);
            },
            ExprV::IfLet(_, c, t, els, _) => {
                open_tree_branches(*c, t.stmts, els);
            },
            ExprV::Match(c, arms, _) => {
                let ps: Seq<Piece> = Seq::new(arms.len(), |i: int| Piece::Arm(arms[i]));
                found_both(seq![Piece::Expr(*c)], ps, f);
                found_one(Piece::Expr(*c), f);
                open_tree_arms(arms);
            },
            ExprV::Block(b, _) => open_tree_stmts(b.stmts),
            _ => {
                assert(parts(p) =~= Seq::empty());
            },
        },
        Piece::Stmt(s) => match s {
            StmtV::Let { value, .. } => {
                if let Some(v) = value {
                    found_one(Piece::Expr(v), f);
                }
            },
            StmtV::Assign { target, value, .. } => found_two(
                Piece::Expr(target),
                Piece::Expr(value),
                f,
            ),
            StmtV::Expr(e) => found_one(Piece::Expr(e), f),
            StmtV::While { cond, body, .. } => {
                found_both(seq![Piece::Expr(cond)], stmt_pieces(body.stmts), f);
                found_one(Piece::Expr(cond), f);
                open_tree_stmts(body.stmts);
            },
            StmtV::For { iter, body, .. } => {
                found_both(seq![Piece::Expr(iter)], stmt_pieces(body.stmts), f);
                found_one(Piece::Expr(iter), f);
                open_tree_stmts(body.stmts);
            },
            StmtV::Return(value, _) => {
                if let Some(v) = value {
                    found_one(Piece::Expr(v), f);
                }
            },
            _ => {},
        },
        Piece::Arm(a) => found_one(Piece::Expr(a.body), f),
    }
    assert(open_tree_of(p) =~= (match p {
            Piece::Stmt(s) => seq![s],
            _ => Seq::empty(),
        }) + (if p matches Piece::Expr(e) && e is Closure {
            Seq::empty()
        } else {
            found_in(parts(p), open_tree_walk())
        }));
}

proof fn open_tree_branches(c: ExprV, t: Seq<StmtV>, els: Option<Box<ExprV>>)
    ensures
        found_in(
            seq![Piece::Expr(c)] + stmt_pieces(t) + (match els {
                Some(x) => seq![Piece::Expr(*x)],
                None => Seq::empty(),
            }),
            open_tree_walk(),
        ) == tree_expr(c, false) + tree_stmts(t, false) + (match els {
            Some(x) => tree_expr(*x, false),
            None => Seq::empty(),
        }),
{
    let f = open_tree_walk();
    let last: Seq<Piece> = match els {
        Some(x) => seq![Piece::Expr(*x)],
        None => Seq::empty(),
    };
    found_both(seq![Piece::Expr(c)] + stmt_pieces(t), last, f);
    found_both(seq![Piece::Expr(c)], stmt_pieces(t), f);
    found_one(Piece::Expr(c), f);
    open_tree_stmts(t);
    if let Some(x) = els {
        found_one(Piece::Expr(*x), f);
    }
}

// ---- events ----

/// The events found in a piece of code.
pub open spec fn events_of(p: Piece) -> Seq<EventV> {
    match p {
        Piece::Expr(e) => events(e),
        Piece::Stmt(s) => stmt_events(s),
        Piece::Arm(a) => events(a.body),
    }
}

pub open spec fn events_walk() -> spec_fn(Piece) -> Seq<EventV> {
    |p: Piece| events_of(p)
}

proof fn events_stmts(ss: Seq<StmtV>)
    ensures
        stmts_events(ss) == found_in(stmt_pieces(ss), events_walk()),
    decreases ss.len(),
{
    let ps: Seq<Piece> = stmt_pieces(ss);
    if ss.len() > 0 {
        let front = ss.drop_last();
        events_stmts(front);
        assert(ps.drop_last() =~= stmt_pieces(front));
    }
}

proof fn events_args(ss: Seq<ArgV>)
    ensures
        arg_events(ss) == found_in(Seq::new(ss.len(), |i: int| Piece::Expr(ss[i].expr)), events_walk()),
    decreases ss.len(),
{
    let ps: Seq<Piece> = Seq::new(ss.len(), |i: int| Piece::Expr(ss[i].expr));
    if ss.len() > 0 {
        let front = ss.drop_last();
        events_args(front);
        assert(ps.drop_last() =~= Seq::new(front.len(), |i: int| Piece::Expr(front[i].expr)));
    }
}

proof fn events_list(ss: Seq<ExprV>)
    ensures
        list_events(ss) == found_in(Seq::new(ss.len(), |i: int| Piece::Expr(ss[i])), events_walk()),
    decreases ss.len(),
{
    let ps: Seq<Piece> = Seq::new(ss.len(), |i: int| Piece::Expr(ss[i]));
    if ss.len() > 0 {
        let front = ss.drop_last();
        events_list(front);
        assert(ps.drop_last() =~= Seq::new(front.len(), |i: int| Piece::Expr(front[i])));
    }
}

proof fn events_named(ss: Seq<(Seq<char>, ExprV)>)
    ensures
        named_events(ss) == found_in(Seq::new(ss.len(), |i: int| Piece::Expr(ss[i].1)), events_walk()),
    decreases ss.len(),
{
    let ps: Seq<Piece> = Seq::new(ss.len(), |i: int| Piece::Expr(ss[i].1));
    if ss.len() > 0 {
        let front = ss.drop_last();
        events_named(front);
        assert(ps.drop_last() =~= Seq::new(front.len(), |i: int| Piece::Expr(front[i].1)));
    }
}

proof fn events_arms(ss: Seq<MatchArmV>)
    ensures
        arm_events(ss) == found_in(Seq::new(ss.len(), |i: int| Piece::Arm(ss[i])), events_walk()),
    decreases ss.len(),
{
    let ps: Seq<Piece> = Seq::new(ss.len(), |i: int| Piece::Arm(ss[i]));
    if ss.len() > 0 {
        let front = ss.drop_last();
        events_arms(front);
        assert(ps.drop_last() =~= Seq::new(front.len(), |i: int| Piece::Arm(front[i])));
    }
}

proof fn events_segs(ss: Seq<StrSegV>)
    ensures
        seg_events(ss) == found_in(seg_pieces(ss), events_walk()),
    decreases ss.len(),
{
    let ps: Seq<Piece> = seg_pieces(ss);
    if ss.len() > 0 {
        let front = ss.drop_last();
        events_segs(front);
        let last = match ss.last() {
            StrSegV::Expr(e) => seq![Piece::Expr(*e)],
            StrSegV::Lit(_) => Seq::empty(),
        };
        found_both(seg_pieces(front), last, events_walk());
        if let StrSegV::Expr(e) = ss.last() {
            found_one(Piece::Expr(*e), events_walk());
        }
    }
}

/// What running a piece of code does: an expression is evaluated, with its parts; a store
/// is a store, and binds its target if that is a name, once its parts are evaluated; and a
/// `let` of a name binds it then.
pub proof fn events_go_by_parts(p: Piece)
    ensures
        events_of(p) == (match p {
            Piece::Expr(e) => seq![EventV::Node(e)],
            Piece::Stmt(StmtV::Assign { target, .. }) => seq![EventV::Store(target)],
            _ => Seq::empty(),
        }) + found_in(parts(p), events_walk()) + (match p {
            Piece::Stmt(StmtV::Assign { target: ExprV::Ident(n, _), value, .. }) => seq![
                EventV::Bind(n, value),
            ],
            Piece::Stmt(StmtV::Let { pat: PatternV::Binding(n, _), value: Some(v), .. }) => seq![
                EventV::Bind(n, v),
            ],
            _ => Seq::empty(),
        }),
{
    let f = events_walk();
    match p {
        Piece::Expr(e) => match e {
            ExprV::Unary(_, a, _) => found_one(Piece::Expr(*a), f),
            ExprV::Field(a, _, _) => found_one(Piece::Expr(*a), f),
            ExprV::ErrorProp(a, _) => found_one(Piece::Expr(*a), f),
            ExprV::Closure(_, a, _) => found_one(Piece::Expr(*a), f),
            ExprV::Binary(_, a, b, _) => found_two(Piece::Expr(*a), Piece::Expr(*b), f),
            ExprV::Index(a, b, _) => found_two(Piece::Expr(*a), Piece::Expr(*b), f),
            ExprV::Range(a, b, _) => found_two(Piece::Expr(*a), Piece::Expr(*b), f),
            ExprV::Call(c, args, _) => {
                let ps: Seq<Piece> = Seq::new(args.len(), |i: int| Piece::Expr(args[i].expr));
                found_both(seq![Piece::Expr(*c)], ps, f);
                found_one(Piece::Expr(*c), f);
                events_args(args);
            },
            ExprV::Array(es, _) => events_list(es),
            ExprV::TypeLit(_, fs, _) => events_named(fs),
            ExprV::VariantLit(_, _, fs, _) => events_named(fs),
            ExprV::Str(segs, _) => events_segs(segs),
            ExprV::If(c, t, els, _) => {
                events_branches(*c, t.stmts, els);
            },
            ExprV::IfLet(_, c, t, els, _) => {
                events_branches(*c, t.stmts, els);
            },
            ExprV::Match(c, arms, _) => {
                let ps: Seq<Piece> = Seq::new(arms.len(), |i: int| Piece::Arm(arms[i]));
                found_both(seq![Piece::Expr(*c)], ps, f);
                found_one(Piece::Expr(*c), f);
                events_arms(arms);
            },
            ExprV::Block(b, _) => events_stmts(b.stmts),
            _ => {
                assert(parts(p) =~= Seq::empty());
            },
        },
        Piece::Stmt(s) => match s {
            StmtV::Let { value, .. } => {
                if let Some(v) = value {
                    found_one(Piece::Expr(v), f);
                }
            },
            StmtV::Assign { target, value, .. } => found_two(
                Piece::Expr(target),
                Piece::Expr(value),
                f,
            ),
            StmtV::Expr(e) => found_one(Piece::Expr(e), f),
            StmtV::While { cond, body, .. } => {
                found_both(seq![Piece::Expr(cond)], stmt_pieces(body.stmts), f);
                found_one(Piece::Expr(cond), f);
                events_stmts(body.stmts);
            },
            StmtV::For { iter, body, .. } => {
                found_both(seq![Piece::Expr(iter)], stmt_pieces(body.stmts), f);
                found_one(Piece::Expr(iter), f);
                events_stmts(body.stmts);
            },
            StmtV::Return(value, _) => {
                if let Some(v) = value {
                    found_one(Piece::Expr(v), f);
                }
            },
            _ => {},
        },
        Piece::Arm(a) => found_one(Piece::Expr(a.body), f),
    }
    assert(events_of(p) =~= (match p {
            Piece::Expr(e) => seq![EventV::Node(e)],
            Piece::Stmt(StmtV::Assign { target, .. }) => seq![EventV::Store(target)],
            _ => Seq::empty(),
        }) + found_in(parts(p), events_walk()) + (match p {
            Piece::Stmt(StmtV::Assign { target: ExprV::Ident(n, _), value, .. }) => seq![
                EventV::Bind(n, value),
            ],
            Piece::Stmt(StmtV::Let { pat: PatternV::Binding(n, _), value: Some(v), .. }) => seq![
                EventV::Bind(n, v),
            ],
            _ => Seq::empty(),
        }));
}

proof fn events_branches(c: ExprV, t: Seq<StmtV>, els: Option<Box<ExprV>>)
    ensures
        found_in(
            seq![Piece::Expr(c)] + stmt_pieces(t) + (match els {
                Some(x) => seq![Piece::Expr(*x)],
                None => Seq::empty(),
            }),
            events_walk(),
        ) == events(c) + stmts_events(t) + (match els {
            Some(x) => events(*x),
            None => Seq::empty(),
        }),
{
    let f = events_walk();
    let last: Seq<Piece> = match els {
        Some(x) => seq![Piece::Expr(*x)],
        None => Seq::empty(),
    };
    found_both(seq![Piece::Expr(c)] + stmt_pieces(t), last, f);
    found_both(seq![Piece::Expr(c)], stmt_pieces(t), f);
    found_one(Piece::Expr(c), f);
    events_stmts(t);
    if let Some(x) = els {
        found_one(Piece::Expr(*x), f);
    }
}

// ---- spawns ----

/// The spawns found in a piece of code in closures.
pub open spec fn closed_of(p: Piece) -> Seq<Span> {
    match p {
        Piece::Expr(e) => closed_spans(e),
        Piece::Stmt(s) => stmt_closed_spans(s),
        Piece::Arm(a) => closed_spans(a.body),
    }
}

pub open spec fn closed_walk() -> spec_fn(Piece) -> Seq<Span> {
    |p: Piece| closed_of(p)
}

proof fn closed_stmts(ss: Seq<StmtV>)
    ensures
        stmts_closed_spans(ss) == found_in(stmt_pieces(ss), closed_walk()),
    decreases ss.len(),
{
    let ps: Seq<Piece> = stmt_pieces(ss);
    if ss.len() > 0 {
        let front = ss.drop_last();
        closed_stmts(front);
        assert(ps.drop_last() =~= stmt_pieces(front));
    }
}

proof fn closed_args(ss: Seq<ArgV>)
    ensures
        args_closed_spans(ss) == found_in(Seq::new(ss.len(), |i: int| Piece::Expr(ss[i].expr)), closed_walk()),
    decreases ss.len(),
{
    let ps: Seq<Piece> = Seq::new(ss.len(), |i: int| Piece::Expr(ss[i].expr));
    if ss.len() > 0 {
        let front = ss.drop_last();
        closed_args(front);
        assert(ps.drop_last() =~= Seq::new(front.len(), |i: int| Piece::Expr(front[i].expr)));
    }
}

proof fn closed_list(ss: Seq<ExprV>)
    ensures
        list_closed_spans(ss) == found_in(Seq::new(ss.len(), |i: int| Piece::Expr(ss[i])), closed_walk()),
    decreases ss.len(),
{
    let ps: Seq<Piece> = Seq::new(ss.len(), |i: int| Piece::Expr(ss[i]));
    if ss.len() > 0 {
        let front = ss.drop_last();
        closed_list(front);
        assert(ps.drop_last() =~= Seq::new(front.len(), |i: int| Piece::Expr(front[i])));
    }
}

proof fn closed_named(ss: Seq<(Seq<char>, ExprV)>)
    ensures
        named_closed_spans(ss) == found_in(Seq::new(ss.len(), |i: int| Piece::Expr(ss[i].1)), closed_walk()),
    decreases ss.len(),
{
    let ps: Seq<Piece> = Seq::new(ss.len(), |i: int| Piece::Expr(ss[i].1));
    if ss.len() > 0 {
        let front = ss.drop_last();
        closed_named(front);
        assert(ps.drop_last() =~= Seq::new(front.len(), |i: int| Piece::Expr(front[i].1)));
    }
}

proof fn closed_arms(ss: Seq<MatchArmV>)
    ensures
        arms_closed_spans(ss) == found_in(Seq::new(ss.len(), |i: int| Piece::Arm(ss[i])), closed_walk()),
    decreases ss.len(),
{
    let ps: Seq<Piece> = Seq::new(ss.len(), |i: int| Piece::Arm(ss[i]));
    if ss.len() > 0 {
        let front = ss.drop_last();
        closed_arms(front);
        assert(ps.drop_last() =~= Seq::new(front.len(), |i: int| Piece::Arm(front[i])));
    }
}

proof fn closed_segs(ss: Seq<StrSegV>)
    ensures
        segs_closed_spans(ss) == found_in(seg_pieces(ss), closed_walk()),
    decreases ss.len(),
{
    let ps: Seq<Piece> = seg_pieces(ss);
    if ss.len() > 0 {
        let front = ss.drop_last();
        closed_segs(front);
        let last = match ss.last() {
            StrSegV::Expr(e) => seq![Piece::Expr(*e)],
            StrSegV::Lit(_) => Seq::empty(),
        };
        found_both(seg_pieces(front), last, closed_walk());
        if let StrSegV::Expr(e) = ss.last() {
            found_one(Piece::Expr(*e), closed_walk());
        }
    }
}

/// The spawns in closures of a piece of code: those anywhere in a closure, or those of its
/// parts.
pub proof fn spawns_in_closures_go_by_parts(p: Piece)
    ensures
        closed_of(p) == (match p {
            Piece::Expr(ExprV::Closure(_, body, _)) => spawn_spans(exprs(*body)),
            _ => found_in(parts(p), closed_walk()),
        }),
{
    let f = closed_walk();
    match p {
        Piece::Expr(e) => match e {
            ExprV::Unary(_, a, _) => found_one(Piece::Expr(*a), f),
            ExprV::Field(a, _, _) => found_one(Piece::Expr(*a), f),
            ExprV::ErrorProp(a, _) => found_one(Piece::Expr(*a), f),
            ExprV::Closure(_, a, _) => found_one(Piece::Expr(*a), f),
            ExprV::Binary(_, a, b, _) => found_two(Piece::Expr(*a), Piece::Expr(*b), f),
            ExprV::Index(a, b, _) => found_two(Piece::Expr(*a), Piece::Expr(*b), f),
            ExprV::Range(a, b, _) => found_two(Piece::Expr(*a), Piece::Expr(*b), f),
            ExprV::Call(c, args, _) => {
                let ps: Seq<Piece> = Seq::new(args.len(), |i: int| Piece::Expr(args[i].expr));
                found_both(seq![Piece::Expr(*c)], ps, f);
                found_one(Piece::Expr(*c), f);
                closed_args(args);
            },
            ExprV::Array(es, _) => closed_list(es),
            ExprV::TypeLit(_, fs, _) => closed_named(fs),
            ExprV::VariantLit(_, _, fs, _) => closed_named(fs),
            ExprV::Str(segs, _) => closed_segs(segs),
            ExprV::If(c, t, els, _) => {
                closed_branches(*c, t.stmts, els);
            },
            ExprV::IfLet(_, c, t, els, _) => {
                closed_branches(*c, t.stmts, els);
            },
            ExprV::Match(c, arms, _) => {
                let ps: Seq<Piece> = Seq::new(arms.len(), |i: int| Piece::Arm(arms[i]));
                found_both(seq![Piece::Expr(*c)], ps, f);
                found_one(Piece::Expr(*c), f);
                closed_arms(arms);
            },
            ExprV::Block(b, _) => closed_stmts(b.stmts),
            _ => {
                assert(parts(p) =~= Seq::empty());
            },
        },
        Piece::Stmt(s) => match s {
            StmtV::Let { value, .. } => {
                if let Some(v) = value {
                    found_one(Piece::Expr(v), f);
                }
            },
            StmtV::Assign { target, value, .. } => found_two(
                Piece::Expr(target),
                Piece::Expr(value),
                f,
            ),
            StmtV::Expr(e) => found_one(Piece::Expr(e), f),
            StmtV::While { cond, body, .. } => {
                found_both(seq![Piece::Expr(cond)], stmt_pieces(body.stmts), f);
                found_one(Piece::Expr(cond), f);
                closed_stmts(body.stmts);
            },
            StmtV::For { iter, body, .. } => {
                found_both(seq![Piece::Expr(iter)], stmt_pieces(body.stmts), f);
                found_one(Piece::Expr(iter), f);
                closed_stmts(body.stmts);
            },
            StmtV::Return(value, _) => {
                if let Some(v) = value {
                    found_one(Piece::Expr(v), f);
                }
            },
            _ => {},
        },
        Piece::Arm(a) => found_one(Piece::Expr(a.body), f),
    }
    assert(closed_of(p) =~= (match p {
            Piece::Expr(ExprV::Closure(_, body, _)) => spawn_spans(exprs(*body)),
            _ => found_in(parts(p), closed_walk()),
        }));
}

proof fn closed_branches(c: ExprV, t: Seq<StmtV>, els: Option<Box<ExprV>>)
    ensures
        found_in(
            seq![Piece::Expr(c)] + stmt_pieces(t) + (match els {
                Some(x) => seq![Piece::Expr(*x)],
                None => Seq::empty(),
            }),
            closed_walk(),
        ) == closed_spans(c) + stmts_closed_spans(t) + (match els {
            Some(x) => closed_spans(*x),
            None => Seq::empty(),
        }),
{
    let f = closed_walk();
    let last: Seq<Piece> = match els {
        Some(x) => seq![Piece::Expr(*x)],
        None => Seq::empty(),
    };
    found_both(seq![Piece::Expr(c)] + stmt_pieces(t), last, f);
    found_both(seq![Piece::Expr(c)], stmt_pieces(t), f);
    found_one(Piece::Expr(c), f);
    closed_stmts(t);
    if let Some(x) = els {
        found_one(Piece::Expr(*x), f);
    }
}

// ---- bindings ----

/// The bindings found in a piece of code.
pub open spec fn bound_of(p: Piece) -> Seq<(Seq<char>, Span)> {
    match p {
        Piece::Expr(e) => bound_in_expr(e, true),
        Piece::Stmt(s) => bound_in_stmt(s, true),
        Piece::Arm(a) => bound_in_pattern(a.pattern) + bound_in_expr(a.body, true),
    }
}

pub open spec fn bound_walk() -> spec_fn(Piece) -> Seq<(Seq<char>, Span)> {
    |p: Piece| bound_of(p)
}

proof fn bound_stmts(ss: Seq<StmtV>)
    ensures
        bound_in_stmts(ss, true) == found_in(stmt_pieces(ss), bound_walk()),
    decreases ss.len(),
{
    let ps: Seq<Piece> = stmt_pieces(ss);
    if ss.len() > 0 {
        let front = ss.drop_last();
        bound_stmts(front);
        assert(ps.drop_last() =~= stmt_pieces(front));
    }
}

proof fn bound_args(ss: Seq<ArgV>)
    ensures
        bound_in_args(ss, true) == found_in(Seq::new(ss.len(), |i: int| Piece::Expr(ss[i].expr)), bound_walk()),
    decreases ss.len(),
{
    let ps: Seq<Piece> = Seq::new(ss.len(), |i: int| Piece::Expr(ss[i].expr));
    if ss.len() > 0 {
        let front = ss.drop_last();
        bound_args(front);
        assert(ps.drop_last() =~= Seq::new(front.len(), |i: int| Piece::Expr(front[i].expr)));
    }
}

proof fn bound_list(ss: Seq<ExprV>)
    ensures
        bound_in_list(ss, true) == found_in(Seq::new(ss.len(), |i: int| Piece::Expr(ss[i])), bound_walk()),
    decreases ss.len(),
{
    let ps: Seq<Piece> = Seq::new(ss.len(), |i: int| Piece::Expr(ss[i]));
    if ss.len() > 0 {
        let front = ss.drop_last();
        bound_list(front);
        assert(ps.drop_last() =~= Seq::new(front.len(), |i: int| Piece::Expr(front[i])));
    }
}

proof fn bound_named(ss: Seq<(Seq<char>, ExprV)>)
    ensures
        bound_in_named(ss, true) == found_in(Seq::new(ss.len(), |i: int| Piece::Expr(ss[i].1)), bound_walk()),
    decreases ss.len(),
{
    let ps: Seq<Piece> = Seq::new(ss.len(), |i: int| Piece::Expr(ss[i].1));
    if ss.len() > 0 {
        let front = ss.drop_last();
        bound_named(front);
        assert(ps.drop_last() =~= Seq::new(front.len(), |i: int| Piece::Expr(front[i].1)));
    }
}

proof fn bound_arms(ss: Seq<MatchArmV>)
    ensures
        bound_in_arms(ss, true) == found_in(Seq::new(ss.len(), |i: int| Piece::Arm(ss[i])), bound_walk()),
    decreases ss.len(),
{
    let ps: Seq<Piece> = Seq::new(ss.len(), |i: int| Piece::Arm(ss[i]));
    if ss.len() > 0 {
        let front = ss.drop_last();
        bound_arms(front);
        assert(ps.drop_last() =~= Seq::new(front.len(), |i: int| Piece::Arm(front[i])));
    }
}

proof fn bound_segs(ss: Seq<StrSegV>)
    ensures
        bound_in_segs(ss, true) == found_in(seg_pieces(ss), bound_walk()),
    decreases ss.len(),
{
    let ps: Seq<Piece> = seg_pieces(ss);
    if ss.len() > 0 {
        let front = ss.drop_last();
        bound_segs(front);
        let last = match ss.last() {
            StrSegV::Expr(e) => seq![Piece::Expr(*e)],
            StrSegV::Lit(_) => Seq::empty(),
        };
        found_both(seg_pieces(front), last, bound_walk());
        if let StrSegV::Expr(e) = ss.last() {
            found_one(Piece::Expr(*e), bound_walk());
        }
    }
}

/// The names that a piece of code binds: by a pattern, as a loop variable or as parameters
/// of a closure, then those of its parts, in order.
pub proof fn bindings_go_by_parts(p: Piece)
    ensures
        bound_of(p) == (match p {
            Piece::Stmt(StmtV::Let { pat, .. }) => bound_in_pattern(pat),
            Piece::Stmt(StmtV::For { var, span, .. }) => seq![
                (var, Span { lo: span.lo, hi: span.lo }),
            ],
            Piece::Expr(ExprV::IfLet(pat, _, _, _, _)) => bound_in_pattern(pat),
            Piece::Expr(ExprV::Closure(ps, _, _)) => bound_in_params(ps),
            Piece::Arm(a) => bound_in_pattern(a.pattern),
            _ => Seq::empty(),
        }) + found_in(parts(p), bound_walk()),
{
    let f = bound_walk();
    match p {
        Piece::Expr(e) => match e {
            ExprV::Unary(_, a, _) => found_one(Piece::Expr(*a), f),
            ExprV::Field(a, _, _) => found_one(Piece::Expr(*a), f),
            ExprV::ErrorProp(a, _) => found_one(Piece::Expr(*a), f),
            ExprV::Closure(_, a, _) => found_one(Piece::Expr(*a), f),
            ExprV::Binary(_, a, b, _) => found_two(Piece::Expr(*a), Piece::Expr(*b), f),
            ExprV::Index(a, b, _) => found_two(Piece::Expr(*a), Piece::Expr(*b), f),
            ExprV::Range(a, b, _) => found_two(Piece::Expr(*a), Piece::Expr(*b), f),
            ExprV::Call(c, args, _) => {
                let ps: Seq<Piece> = Seq::new(args.len(), |i: int| Piece::Expr(args[i].expr));
                found_both(seq![Piece::Expr(*c)], ps, f);
                found_one(Piece::Expr(*c), f);
                bound_args(args);
            },
            ExprV::Array(es, _) => bound_list(es),
            ExprV::TypeLit(_, fs, _) => bound_named(fs),
            ExprV::VariantLit(_, _, fs, _) => bound_named(fs),
            ExprV::Str(segs, _) => bound_segs(segs),
            ExprV::If(c, t, els, _) => {
                bound_branches(*c, t.stmts, els);
            },
            ExprV::IfLet(_, c, t, els, _) => {
                bound_branches(*c, t.stmts, els);
            },
            ExprV::Match(c, arms, _) => {
                let ps: Seq<Piece> = Seq::new(arms.len(), |i: int| Piece::Arm(arms[i]));
                found_both(seq![Piece::Expr(*c)], ps, f);
                found_one(Piece::Expr(*c), f);
                bound_arms(arms);
            },
            ExprV::Block(b, _) => bound_stmts(b.stmts),
            _ => {
                assert(parts(p) =~= Seq::empty());
            },
        },
        Piece::Stmt(s) => match s {
            StmtV::Let { value, .. } => {
                if let Some(v) = value {
                    found_one(Piece::Expr(v), f);
                }
            },
            StmtV::Assign { target, value, .. } => found_two(
                Piece::Expr(target),
                Piece::Expr(value),
                f,
            ),
            StmtV::Expr(e) => found_one(Piece::Expr(e), f),
            StmtV::While { cond, body, .. } => {
                found_both(seq![Piece::Expr(cond)], stmt_pieces(body.stmts), f);
                found_one(Piece::Expr(cond), f);
                bound_stmts(body.stmts);
            },
            StmtV::For { iter, body, .. } => {
                found_both(seq![Piece::Expr(iter)], stmt_pieces(body.stmts), f);
                found_one(Piece::Expr(iter), f);
                bound_stmts(body.stmts);
            },
            StmtV::Return(value, _) => {
                if let Some(v) = value {
                    found_one(Piece::Expr(v), f);
                }
            },
            _ => {},
        },
        Piece::Arm(a) => found_one(Piece::Expr(a.body), f),
    }
    assert(bound_of(p) =~= (match p {
            Piece::Stmt(StmtV::Let { pat, .. }) => bound_in_pattern(pat),
            Piece::Stmt(StmtV::For { var, span, .. }) => seq![
                (var, Span { lo: span.lo, hi: span.lo }),
            ],
            Piece::Expr(ExprV::IfLet(pat, _, _, _, _)) => bound_in_pattern(pat),
            Piece::Expr(ExprV::Closure(ps, _, _)) => bound_in_params(ps),
            Piece::Arm(a) => bound_in_pattern(a.pattern),
            _ => Seq::empty(),
        }) + found_in(parts(p), bound_walk()));
}

proof fn bound_branches(c: ExprV, t: Seq<StmtV>, els: Option<Box<ExprV>>)
    ensures
        found_in(
            seq![Piece::Expr(c)] + stmt_pieces(t) + (match els {
                Some(x) => seq![Piece::Expr(*x)],
                None => Seq::empty(),
            }),
            bound_walk(),
        ) == bound_in_expr(c, true) + bound_in_stmts(t, true) + (match els {
            Some(x) => bound_in_expr(*x, true),
            None => Seq::empty(),
        }),
{
    let f = bound_walk();
    let last: Seq<Piece> = match els {
        Some(x) => seq![Piece::Expr(*x)],
        None => Seq::empty(),
    };
    found_both(seq![Piece::Expr(c)] + stmt_pieces(t), last, f);
    found_both(seq![Piece::Expr(c)], stmt_pieces(t), f);
    found_one(Piece::Expr(c), f);
    bound_stmts(t);
    if let Some(x) = els {
        found_one(Piece::Expr(*x), f);
    }
}

// ---- everything inside ----

/// Whether a chain of pieces leads from part to part.
pub open spec fn leads(path: Seq<Piece>) -> bool {
    &&& path.len() > 0
    &&& forall|i: int|
        0 <= i < path.len() - 1 ==> parts(#[trigger] path[i]).contains(path[i + 1])
}

/// Whether `q` is `p` or is inside it, however deep.
pub open spec fn inside(q: Piece, p: Piece) -> bool {
    exists|path: Seq<Piece>| #[trigger] leads(path) && path[0] == p && path.last() == q
}

/// Whether a piece is inside some statements.
pub open spec fn stands_in(q: Piece, ss: Seq<StmtV>) -> bool {
    exists|i: int| 0 <= i < ss.len() && inside(q, Piece::Stmt(#[trigger] ss[i]))
}

proof fn found_contains<T>(ps: Seq<Piece>, f: spec_fn(Piece) -> Seq<T>, i: int, z: T)
    requires
        0 <= i < ps.len(),
        f(ps[i]).contains(z),
    ensures
        found_in(ps, f).contains(z),
    decreases ps.len(),
{
    let front = ps.drop_last();
    let a = found_in(front, f);
    let b = f(ps.last());
    if i < front.len() {
        found_contains(front, f, i, z);
        let k = choose|k: int| 0 <= k < a.len() && a[k] == z;
        assert((a + b)[k] == z);
    } else {
        let k = choose|k: int| 0 <= k < b.len() && b[k] == z;
        assert((a + b)[a.len() + k] == z);
    }
}

proof fn part_contains<T>(pre: Seq<T>, ps: Seq<Piece>, post: Seq<T>, f: spec_fn(Piece) -> Seq<T>, q: Piece, z: T)
    requires
        ps.contains(q),
        f(q).contains(z),
    ensures
        (pre + found_in(ps, f) + post).contains(z),
{
    let i = choose|i: int| 0 <= i < ps.len() && ps[i] == q;
    found_contains(ps, f, i, z);
    let m = found_in(ps, f);
    let k = choose|k: int| 0 <= k < m.len() && m[k] == z;
    assert((pre + m + post)[pre.len() + k] == z);
}

proof fn exprs_path(path: Seq<Piece>, z: ExprV)
    requires
        leads(path),
        exprs_of(path.last()).contains(z),
    ensures
        exprs_of(path[0]).contains(z),
    decreases path.len(),
{
    if path.len() > 1 {
        let rest = path.drop_first();
        assert(rest.last() == path.last());
        assert forall|i: int| 0 <= i < rest.len() - 1 implies parts(#[trigger] rest[i]).contains(
            rest[i + 1],
        ) by {
            assert(rest[i] == path[i + 1] && rest[i + 1] == path[i + 2]);
            assert(parts(path[i + 1]).contains(path[i + 2]));
        }
        exprs_path(rest, z);
        assert(parts(path[0]).contains(path[1]));
        exprs_part(path[0], path[1], z);
    }
}

proof fn exprs_part(p: Piece, q: Piece, z: ExprV)
    requires
        parts(p).contains(q),
        exprs_of(q).contains(z),
    ensures
        exprs_of(p).contains(z),
{
    expressions_go_by_parts(p);
    let pre = match p {
        Piece::Expr(e) => seq![e],
        _ => Seq::empty(),
    };
    part_contains(pre, parts(p), Seq::<ExprV>::empty(), exprs_walk(), q, z);
    assert(pre + found_in(parts(p), exprs_walk()) + Seq::<ExprV>::empty() =~= pre + found_in(parts(p), exprs_walk()));
}

proof fn tree_path(path: Seq<Piece>, z: StmtV)
    requires
        leads(path),
        tree_of(path.last()).contains(z),
    ensures
        tree_of(path[0]).contains(z),
    decreases path.len(),
{
    if path.len() > 1 {
        let rest = path.drop_first();
        assert(rest.last() == path.last());
        assert forall|i: int| 0 <= i < rest.len() - 1 implies parts(#[trigger] rest[i]).contains(
            rest[i + 1],
        ) by {
            assert(rest[i] == path[i + 1] && rest[i + 1] == path[i + 2]);
            assert(parts(path[i + 1]).contains(path[i + 2]));
        }
        tree_path(rest, z);
        assert(parts(path[0]).contains(path[1]));
        tree_part(path[0], path[1], z);
    }
}

proof fn tree_part(p: Piece, q: Piece, z: StmtV)
    requires
        parts(p).contains(q),
        tree_of(q).contains(z),
    ensures
        tree_of(p).contains(z),
{
    statements_go_by_parts(p);
    let pre = match p {
        Piece::Stmt(s) => seq![s],
        _ => Seq::empty(),
    };
    part_contains(pre, parts(p), Seq::<StmtV>::empty(), tree_walk(), q, z);
    assert(pre + found_in(parts(p), tree_walk()) + Seq::<StmtV>::empty() =~= pre + found_in(parts(p), tree_walk()));
}

proof fn events_path(path: Seq<Piece>, z: EventV)
    requires
        leads(path),
        events_of(path.last()).contains(z),
    ensures
        events_of(path[0]).contains(z),
    decreases path.len(),
{
    if path.len() > 1 {
        let rest = path.drop_first();
        assert(rest.last() == path.last());
        assert forall|i: int| 0 <= i < rest.len() - 1 implies parts(#[trigger] rest[i]).contains(
            rest[i + 1],
        ) by {
            assert(rest[i] == path[i + 1] && rest[i + 1] == path[i + 2]);
            assert(parts(path[i + 1]).contains(path[i + 2]));
        }
        events_path(rest, z);
        assert(parts(path[0]).contains(path[1]));
        events_part(path[0], path[1], z);
    }
}

proof fn events_part(p: Piece, q: Piece, z: EventV)
    requires
        parts(p).contains(q),
        events_of(q).contains(z),
    ensures
        events_of(p).contains(z),
{
    events_go_by_parts(p);
    let pre = match p {
        Piece::Expr(e) => seq![EventV::Node(e)],
        Piece::Stmt(StmtV::Assign { target, .. }) => seq![EventV::Store(target)],
        _ => Seq::empty(),
    };
    let post = match p {
        Piece::Stmt(StmtV::Assign { target: ExprV::Ident(n, _), value, .. }) => seq![
            EventV::Bind(n, value),
        ],
        Piece::Stmt(StmtV::Let { pat: PatternV::Binding(n, _), value: Some(v), .. }) => seq![
            EventV::Bind(n, v),
        ],
        _ => Seq::empty(),
    };
    part_contains(pre, parts(p), post, events_walk(), q, z);
}

proof fn bound_path(path: Seq<Piece>, z: (Seq<char>, Span))
    requires
        leads(path),
        bound_of(path.last()).contains(z),
    ensures
        bound_of(path[0]).contains(z),
    decreases path.len(),
{
    if path.len() > 1 {
        let rest = path.drop_first();
        assert(rest.last() == path.last());
        assert forall|i: int| 0 <= i < rest.len() - 1 implies parts(#[trigger] rest[i]).contains(
            rest[i + 1],
        ) by {
            assert(rest[i] == path[i + 1] && rest[i + 1] == path[i + 2]);
            assert(parts(path[i + 1]).contains(path[i + 2]));
        }
        bound_path(rest, z);
        assert(parts(path[0]).contains(path[1]));
        bound_part(path[0], path[1], z);
    }
}

proof fn bound_part(p: Piece, q: Piece, z: (Seq<char>, Span))
    requires
        parts(p).contains(q),
        bound_of(q).contains(z),
    ensures
        bound_of(p).contains(z),
{
    bindings_go_by_parts(p);
    let pre = match p {
        Piece::Stmt(StmtV::Let { pat, .. }) => bound_in_pattern(pat),
        Piece::Stmt(StmtV::For { var, span, .. }) => seq![(var, Span { lo: span.lo, hi: span.lo })],
        Piece::Expr(ExprV::IfLet(pat, _, _, _, _)) => bound_in_pattern(pat),
        Piece::Expr(ExprV::Closure(ps, _, _)) => bound_in_params(ps),
        Piece::Arm(a) => bound_in_pattern(a.pattern),
        _ => Seq::empty(),
    };
    part_contains(pre, parts(p), Seq::<(Seq<char>, Span)>::empty(), bound_walk(), q, z);
    assert(pre + found_in(parts(p), bound_walk()) + Seq::<(Seq<char>, Span)>::empty() =~= pre + found_in(parts(p), bound_walk()));
}

proof fn in_list<T>(ss: Seq<StmtV>, f: spec_fn(Piece) -> Seq<T>, i: int, z: T)
    requires
        0 <= i < ss.len(),
        f(Piece::Stmt(ss[i])).contains(z),
    ensures
        found_in(stmt_pieces(ss), f).contains(z),
{
    found_contains(stmt_pieces(ss), f, i, z);
}

/// A walk over the expressions of statements comes to every expression that stands in them.
pub proof fn every_expression_is_visited(ss: Seq<StmtV>, e: ExprV)
    requires
        stands_in(Piece::Expr(e), ss),
    ensures
        stmts_exprs(ss).contains(e),
{
    let i = choose|i: int|
        0 <= i < ss.len() && inside(Piece::Expr(e), Piece::Stmt(#[trigger] ss[i]));
    let path = choose|path: Seq<Piece>| #[trigger]
        leads(path) && path[0] == Piece::Stmt(ss[i]) && path.last() == Piece::Expr(e);
    expressions_go_by_parts(Piece::Expr(e));
    assert(exprs_of(Piece::Expr(e))[0] == e);
    exprs_path(path, e);
    exprs_stmts(ss);
    in_list(ss, exprs_walk(), i, e);
}

/// A walk over statements comes to every statement that stands in them.
pub proof fn every_statement_is_visited(ss: Seq<StmtV>, s: StmtV)
    requires
        stands_in(Piece::Stmt(s), ss),
    ensures
        tree_stmts(ss, true).contains(s),
{
    let i = choose|i: int|
        0 <= i < ss.len() && inside(Piece::Stmt(s), Piece::Stmt(#[trigger] ss[i]));
    let path = choose|path: Seq<Piece>| #[trigger]
        leads(path) && path[0] == Piece::Stmt(ss[i]) && path.last() == Piece::Stmt(s);
    statements_go_by_parts(Piece::Stmt(s));
    assert(tree_of(Piece::Stmt(s))[0] == s);
    tree_path(path, s);
    tree_stmts_of(ss);
    in_list(ss, tree_walk(), i, s);
}

proof fn tree_stmts_of(ss: Seq<StmtV>)
    ensures
        tree_stmts(ss, true) == found_in(stmt_pieces(ss), tree_walk()),
{
    tree_stmts_list(ss);
}

/// What any piece that stands in statements does by itself happens when they run.
pub proof fn every_event_happens(ss: Seq<StmtV>, p: Piece, ev: EventV)
    requires
        stands_in(p, ss),
        events_of(p).contains(ev),
    ensures
        stmts_events(ss).contains(ev),
{
    let i = choose|i: int| 0 <= i < ss.len() && inside(p, Piece::Stmt(#[trigger] ss[i]));
    let path = choose|path: Seq<Piece>| #[trigger]
        leads(path) && path[0] == Piece::Stmt(ss[i]) && path.last() == p;
    events_path(path, ev);
    events_stmts(ss);
    in_list(ss, events_walk(), i, ev);
}

/// What any piece that stands in statements binds is among their bindings.
pub proof fn every_binding_is_found(ss: Seq<StmtV>, p: Piece, b: (Seq<char>, Span))
    requires
        stands_in(p, ss),
        bound_of(p).contains(b),
    ensures
        bound_in_stmts(ss, true).contains(b),
{
    let i = choose|i: int| 0 <= i < ss.len() && inside(p, Piece::Stmt(#[trigger] ss[i]));
    let path = choose|path: Seq<Piece>| #[trigger]
        leads(path) && path[0] == Piece::Stmt(ss[i]) && path.last() == p;
    bound_path(path, b);
    bound_stmts(ss);
    in_list(ss, bound_walk(), i, b);
}

} // verus!
