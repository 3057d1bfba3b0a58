//! Which captures may change: what is assigned to, called on or handed on anywhere in a
//! function is never frozen, and what is only read is.

use vstd::prelude::*;
use crate::ast::{ArgV, ExprV, MatchArmV, ParamV, PatternV, StmtV, StrSegV};
use crate::closure::{ident_names, idents};
use crate::mutation::root_of;
use crate::ownership::{alias_closed, aliases_of, decisions_are_sorted, decisions_nested, decisions_upto, live_in, local_captures, nested, nested_size, ownership_of, site_by_site, site_decisions, spawn_decisions, stmt_size, FnScope, Ownership};
use crate::scan::{aliases_after, arg_events, arm_events, event_mutates, events, list_events, mentions, mutated, named_events, readonly_callee, rooted_in, seg_events, stmt_events, stmts_events, EventV};
use crate::spawn::{as_block, local_names, site_closure, site_closure_size, size};
use crate::traverse::{arg_exprs, arm_exprs, exprs, list_exprs, named_exprs, seg_exprs, stmt_exprs, stmts_exprs};
use crate::tree::{tree_args, tree_arms, tree_expr, tree_list, tree_named, tree_segs, tree_stmt, tree_stmts};

verus! {

// ---- events, assignments and expressions ----

/// The places that the assignments among statements store to.
pub open spec fn targets(ss: Seq<StmtV>) -> Seq<ExprV>
    decreases ss.len(),
{
    if ss.len() == 0 {
        Seq::empty()
    } else {
        match ss.last() {
            StmtV::Assign { target, .. } => targets(ss.drop_last()).push(target),
            _ => targets(ss.drop_last()),
        }
    }
}

/// The places that are stored to.
pub open spec fn stores(evs: Seq<EventV>) -> Seq<ExprV>
    decreases evs.len(),
{
    if evs.len() == 0 {
        Seq::empty()
    } else {
        match evs.last() {
            EventV::Store(target) => stores(evs.drop_last()).push(target),
            _ => stores(evs.drop_last()),
        }
    }
}

/// The expressions that are evaluated.
pub open spec fn evaluated(evs: Seq<EventV>) -> Seq<ExprV>
    decreases evs.len(),
{
    if evs.len() == 0 {
        Seq::empty()
    } else {
        match evs.last() {
            EventV::Node(e) => evaluated(evs.drop_last()).push(e),
            _ => evaluated(evs.drop_last()),
        }
    }
}

proof fn targets_both(a: Seq<StmtV>, b: Seq<StmtV>)
    ensures
        targets(a + b) == targets(a) + targets(b),
    decreases b.len(),
{
    if b.len() == 0 {
        assert(a + b =~= a);
        assert(targets(a) + targets(b) =~= targets(a));
    } else {
        targets_both(a, b.drop_last());
        assert((a + b).drop_last() =~= a + b.drop_last());
        assert((a + b).last() == b.last());
        assert(targets(a + b) =~= targets(a) + targets(b));
    }
}

proof fn targets_one(a: StmtV)
    ensures
        targets(seq![a]).len() <= 1,
        targets(seq![a]) == (match a {
            StmtV::Assign { target, .. } => seq![target],
            _ => Seq::empty(),
        }),
{
    assert(seq![a].drop_last() =~= Seq::<StmtV>::empty());
    assert(targets(Seq::<StmtV>::empty()) =~= Seq::empty());
}

proof fn stores_both(a: Seq<EventV>, b: Seq<EventV>)
    ensures
        stores(a + b) == stores(a) + stores(b),
    decreases b.len(),
{
    if b.len() == 0 {
        assert(a + b =~= a);
        assert(stores(a) + stores(b) =~= stores(a));
    } else {
        stores_both(a, b.drop_last());
        assert((a + b).drop_last() =~= a + b.drop_last());
        assert((a + b).last() == b.last());
        assert(stores(a + b) =~= stores(a) + stores(b));
    }
}

proof fn stores_one(a: EventV)
    ensures
        stores(seq![a]).len() <= 1,
        stores(seq![a]) == (match a {
            EventV::Store(t) => seq![t],
            _ => Seq::empty(),
        }),
{
    assert(seq![a].drop_last() =~= Seq::<EventV>::empty());
    assert(stores(Seq::<EventV>::empty()) =~= Seq::empty());
}

proof fn evaluated_both(a: Seq<EventV>, b: Seq<EventV>)
    ensures
        evaluated(a + b) == evaluated(a) + evaluated(b),
    decreases b.len(),
{
    if b.len() == 0 {
        assert(a + b =~= a);
        assert(evaluated(a) + evaluated(b) =~= evaluated(a));
    } else {
        evaluated_both(a, b.drop_last());
        assert((a + b).drop_last() =~= a + b.drop_last());
        assert((a + b).last() == b.last());
        assert(evaluated(a + b) =~= evaluated(a) + evaluated(b));
    }
}

proof fn evaluated_one(a: EventV)
    ensures
        evaluated(seq![a]).len() <= 1,
        evaluated(seq![a]) == (match a {
            EventV::Node(e) => seq![e],
            _ => Seq::empty(),
        }),
{
    assert(seq![a].drop_last() =~= Seq::<EventV>::empty());
    assert(evaluated(Seq::<EventV>::empty()) =~= Seq::empty());
}

proof fn both(a: Seq<EventV>, b: Seq<EventV>, s: Seq<StmtV>, t: Seq<StmtV>)
    ensures
        stores(a + b) == stores(a) + stores(b),
        evaluated(a + b) == evaluated(a) + evaluated(b),
        targets(s + t) == targets(s) + targets(t),
{
    stores_both(a, b);
    evaluated_both(a, b);
    targets_both(s, t);
}

proof fn nothing()
    ensures
        stores(Seq::<EventV>::empty()) == Seq::<ExprV>::empty(),
        evaluated(Seq::<EventV>::empty()) == Seq::<ExprV>::empty(),
        targets(Seq::<StmtV>::empty()) == Seq::<ExprV>::empty(),
{
}

/// An expression that is evaluated itself, with what is below it.
proof fn above(e: ExprV, ev: Seq<EventV>, tr: Seq<StmtV>, ex: Seq<ExprV>)
    requires
        stores(ev) == targets(tr),
        evaluated(ev) == ex,
    ensures
        stores(seq![EventV::Node(e)] + ev) == targets(tr),
        evaluated(seq![EventV::Node(e)] + ev) == seq![e] + ex,
{
    both(seq![EventV::Node(e)], ev, Seq::empty(), tr);
    stores_one(EventV::Node(e));
    evaluated_one(EventV::Node(e));
    assert(Seq::<ExprV>::empty() + stores(ev) =~= stores(ev));
}

proof fn stmts_agree(ss: Seq<StmtV>)
    ensures
        stores(stmts_events(ss)) == targets(tree_stmts(ss, true)),
        evaluated(stmts_events(ss)) == stmts_exprs(ss),
    decreases ss,
{
    if ss.len() > 0 {
        let l = ss.last();
        let front = ss.drop_last();
        stmts_agree(front);
        stmt_agrees(l);
        let ev: Seq<EventV> = stmt_events(l);
        let tr: Seq<StmtV> = tree_stmt(l, true);
        let ex: Seq<ExprV> = stmt_exprs(l);
        assert(stores(ev) == targets(tr) && evaluated(ev) == ex);
        both(stmts_events(front), ev, tree_stmts(front, true), tr);
        assert(stmts_events(ss) == stmts_events(front) + ev);
        assert(tree_stmts(ss, true) == tree_stmts(front, true) + tr);
        assert(stmts_exprs(ss) == stmts_exprs(front) + ex);
    } else {
        assert(stores(Seq::<EventV>::empty()) =~= targets(Seq::<StmtV>::empty()));
        assert(evaluated(Seq::<EventV>::empty()) =~= Seq::<ExprV>::empty());
    }
}

proof fn args_agree(ss: Seq<ArgV>)
    ensures
        stores(arg_events(ss)) == targets(tree_args(ss, true)),
        evaluated(arg_events(ss)) == arg_exprs(ss),
    decreases ss,
{
    if ss.len() > 0 {
        let l = ss.last();
        let front = ss.drop_last();
        args_agree(front);
        expr_agrees(l.expr);
        let ev: Seq<EventV> = events(l.expr);
        let tr: Seq<StmtV> = tree_expr(l.expr, true);
        let ex: Seq<ExprV> = exprs(l.expr);
        assert(stores(ev) == targets(tr) && evaluated(ev) == ex);
        both(arg_events(front), ev, tree_args(front, true), tr);
        assert(arg_events(ss) == arg_events(front) + ev);
        assert(tree_args(ss, true) == tree_args(front, true) + tr);
        assert(arg_exprs(ss) == arg_exprs(front) + ex);
    } else {
        assert(stores(Seq::<EventV>::empty()) =~= targets(Seq::<StmtV>::empty()));
        assert(evaluated(Seq::<EventV>::empty()) =~= Seq::<ExprV>::empty());
    }
}

proof fn list_agrees(ss: Seq<ExprV>)
    ensures
        stores(list_events(ss)) == targets(tree_list(ss, true)),
        evaluated(list_events(ss)) == list_exprs(ss),
    decreases ss,
{
    if ss.len() > 0 {
        let l = ss.last();
        let front = ss.drop_last();
        list_agrees(front);
        expr_agrees(l);
        let ev: Seq<EventV> = events(l);
        let tr: Seq<StmtV> = tree_expr(l, true);
        let ex: Seq<ExprV> = exprs(l);
        assert(stores(ev) == targets(tr) && evaluated(ev) == ex);
        both(list_events(front), ev, tree_list(front, true), tr);
        assert(list_events(ss) == list_events(front) + ev);
        assert(tree_list(ss, true) == tree_list(front, true) + tr);
        assert(list_exprs(ss) == list_exprs(front) + ex);
    } else {
        assert(stores(Seq::<EventV>::empty()) =~= targets(Seq::<StmtV>::empty()));
        assert(evaluated(Seq::<EventV>::empty()) =~= Seq::<ExprV>::empty());
    }
}

proof fn named_agree(ss: Seq<(Seq<char>, ExprV)>)
    ensures
        stores(named_events(ss)) == targets(tree_named(ss, true)),
        evaluated(named_events(ss)) == named_exprs(ss),
    decreases ss,
{
    if ss.len() > 0 {
        let l = ss.last();
        let front = ss.drop_last();
        named_agree(front);
        expr_agrees(l.1);
        let ev: Seq<EventV> = events(l.1);
        let tr: Seq<StmtV> = tree_expr(l.1, true);
        let ex: Seq<ExprV> = exprs(l.1);
        assert(stores(ev) == targets(tr) && evaluated(ev) == ex);
        both(named_events(front), ev, tree_named(front, true), tr);
        assert(named_events(ss) == named_events(front) + ev);
        assert(tree_named(ss, true) == tree_named(front, true) + tr);
        assert(named_exprs(ss) == named_exprs(front) + ex);
    } else {
        assert(stores(Seq::<EventV>::empty()) =~= targets(Seq::<StmtV>::empty()));
        assert(evaluated(Seq::<EventV>::empty()) =~= Seq::<ExprV>::empty());
    }
}

proof fn arms_agree(ss: Seq<MatchArmV>)
    ensures
        stores(arm_events(ss)) == targets(tree_arms(ss, true)),
        evaluated(arm_events(ss)) == arm_exprs(ss),
    decreases ss,
{
    if ss.len() > 0 {
        let l = ss.last();
        let front = ss.drop_last();
        arms_agree(front);
        expr_agrees(l.body);
        let ev: Seq<EventV> = events(l.body);
        let tr: Seq<StmtV> = tree_expr(l.body, true);
        let ex: Seq<ExprV> = exprs(l.body);
        assert(stores(ev) == targets(tr) && evaluated(ev) == ex);
        both(arm_events(front), ev, tree_arms(front, true), tr);
        assert(arm_events(ss) == arm_events(front) + ev);
        assert(tree_arms(ss, true) == tree_arms(front, true) + tr);
        assert(arm_exprs(ss) == arm_exprs(front) + ex);
    } else {
        assert(stores(Seq::<EventV>::empty()) =~= targets(Seq::<StmtV>::empty()));
        assert(evaluated(Seq::<EventV>::empty()) =~= Seq::<ExprV>::empty());
    }
}

proof fn segs_agree(ss: Seq<StrSegV>)
    ensures
        stores(seg_events(ss)) == targets(tree_segs(ss, true)),
        evaluated(seg_events(ss)) == seg_exprs(ss),
    decreases ss,
{
    if ss.len() > 0 {
        let l = ss.last();
        let front = ss.drop_last();
        segs_agree(front);
        nothing();
        if let StrSegV::Expr(e) = l {
            expr_agrees(*e);
        }
        let ev: Seq<EventV> = match l {
            StrSegV::Expr(e) => events(*e),
            StrSegV::Lit(_) => Seq::empty(),
        };
        let tr: Seq<StmtV> = match l {
            StrSegV::Expr(e) => tree_expr(*e, true),
            StrSegV::Lit(_) => Seq::empty(),
        };
        let ex: Seq<ExprV> = match l {
            StrSegV::Expr(e) => exprs(*e),
            StrSegV::Lit(_) => Seq::empty(),
        };
        assert(stores(ev) == targets(tr) && evaluated(ev) == ex);
        both(seg_events(front), ev, tree_segs(front, true), tr);
        assert(seg_events(ss) == seg_events(front) + ev);
        assert(tree_segs(ss, true) == tree_segs(front, true) + tr);
        assert(seg_exprs(ss) == seg_exprs(front) + ex);
    } else {
        assert(stores(Seq::<EventV>::empty()) =~= targets(Seq::<StmtV>::empty()));
        assert(evaluated(Seq::<EventV>::empty()) =~= Seq::<ExprV>::empty());
    }
}

/// Running code stores exactly where it has assignments, and evaluates exactly its
/// expressions, in order.
#[verifier::rlimit(60)]
proof fn expr_agrees(e: ExprV)
    ensures
        stores(events(e)) == targets(tree_expr(e, true)),
        evaluated(events(e)) == exprs(e),
    decreases e,
{
    nothing();
    let none = Seq::<EventV>::empty();
    match e {
        ExprV::Unary(_, a, _) => {
            expr_agrees(*a);
            above(e, events(*a), tree_expr(*a, true), exprs(*a));
        },
        ExprV::Field(a, _, _) => {
            expr_agrees(*a);
            above(e, events(*a), tree_expr(*a, true), exprs(*a));
        },
        ExprV::ErrorProp(a, _) => {
            expr_agrees(*a);
            above(e, events(*a), tree_expr(*a, true), exprs(*a));
        },
        ExprV::Closure(_, a, _) => {
            expr_agrees(*a);
            above(e, events(*a), tree_expr(*a, true), exprs(*a));
        },
        ExprV::Binary(_, a, b, _) => {
            expr_agrees(*a);
            expr_agrees(*b);
            both(events(*a), events(*b), tree_expr(*a, true), tree_expr(*b, true));
            above(
                e,
                events(*a) + events(*b),
                tree_expr(*a, true) + tree_expr(*b, true),
                exprs(*a) + exprs(*b),
            );
        },
        ExprV::Index(a, b, _) => {
            expr_agrees(*a);
            expr_agrees(*b);
            both(events(*a), events(*b), tree_expr(*a, true), tree_expr(*b, true));
            above(
                e,
                events(*a) + events(*b),
                tree_expr(*a, true) + tree_expr(*b, true),
                exprs(*a) + exprs(*b),
            );
        },
        ExprV::Range(a, b, _) => {
            expr_agrees(*a);
            expr_agrees(*b);
            both(events(*a), events(*b), tree_expr(*a, true), tree_expr(*b, true));
            above(
                e,
                events(*a) + events(*b),
                tree_expr(*a, true) + tree_expr(*b, true),
                exprs(*a) + exprs(*b),
            );
        },
        ExprV::Call(c, args, _) => {
            expr_agrees(*c);
            args_agree(args);
            both(events(*c), arg_events(args), tree_expr(*c, true), tree_args(args, true));
            above(
                e,
                events(*c) + arg_events(args),
                tree_expr(*c, true) + tree_args(args, true),
                exprs(*c) + arg_exprs(args),
            );
        },
        ExprV::Array(es, _) => {
            list_agrees(es);
            above(e, list_events(es), tree_list(es, true), list_exprs(es));
        },
        ExprV::TypeLit(_, fs, _) => {
            named_agree(fs);
            above(e, named_events(fs), tree_named(fs, true), named_exprs(fs));
        },
        ExprV::VariantLit(_, _, fs, _) => {
            named_agree(fs);
            above(e, named_events(fs), tree_named(fs, true), named_exprs(fs));
        },
        ExprV::Str(segs, _) => {
            segs_agree(segs);
            above(e, seg_events(segs), tree_segs(segs, true), seg_exprs(segs));
        },
        ExprV::If(c, t, els, _) => {
            expr_agrees(*c);
            stmts_agree(t.stmts);
            let ev: Seq<EventV> = match els {
                Some(x) => events(*x),
                None => Seq::empty(),
            };
            let tr: Seq<StmtV> = match els {
                Some(x) => tree_expr(*x, true),
                None => Seq::empty(),
            };
            let ex: Seq<ExprV> = match els {
                Some(x) => exprs(*x),
                None => Seq::empty(),
            };
            if let Some(x) = els {
                expr_agrees(*x);
            }
            both(events(*c), stmts_events(t.stmts), tree_expr(*c, true), tree_stmts(t.stmts, true));
            both(
                events(*c) + stmts_events(t.stmts),
                ev,
                tree_expr(*c, true) + tree_stmts(t.stmts, true),
                tr,
            );
            above(
                e,
                events(*c) + stmts_events(t.stmts) + ev,
                tree_expr(*c, true) + tree_stmts(t.stmts, true) + tr,
                exprs(*c) + stmts_exprs(t.stmts) + ex,
            );
        },
        ExprV::IfLet(_, c, t, els, _) => {
            expr_agrees(*c);
            stmts_agree(t.stmts);
            let ev: Seq<EventV> = match els {
                Some(x) => events(*x),
                None => Seq::empty(),
            };
            let tr: Seq<StmtV> = match els {
                Some(x) => tree_expr(*x, true),
                None => Seq::empty(),
            };
            let ex: Seq<ExprV> = match els {
                Some(x) => exprs(*x),
                None => Seq::empty(),
            };
            if let Some(x) = els {
                expr_agrees(*x);
            }
            both(events(*c), stmts_events(t.stmts), tree_expr(*c, true), tree_stmts(t.stmts, true));
            both(
                events(*c) + stmts_events(t.stmts),
                ev,
                tree_expr(*c, true) + tree_stmts(t.stmts, true),
                tr,
            );
            above(
                e,
                events(*c) + stmts_events(t.stmts) + ev,
                tree_expr(*c, true) + tree_stmts(t.stmts, true) + tr,
                exprs(*c) + stmts_exprs(t.stmts) + ex,
            );
        },
        ExprV::Match(c, arms, _) => {
            expr_agrees(*c);
            arms_agree(arms);
            both(events(*c), arm_events(arms), tree_expr(*c, true), tree_arms(arms, true));
            above(
                e,
                events(*c) + arm_events(arms),
                tree_expr(*c, true) + tree_arms(arms, true),
                exprs(*c) + arm_exprs(arms),
            );
        },
        ExprV::Block(b, _) => {
            stmts_agree(b.stmts);
            above(e, stmts_events(b.stmts), tree_stmts(b.stmts, true), stmts_exprs(b.stmts));
        },
        _ => {
            above(e, none, Seq::empty(), Seq::empty());
        },
    }
}

/// A statement that stands before what is below it.
proof fn under(s: StmtV, tr: Seq<StmtV>)
    ensures
        targets(seq![s] + tr) == (match s {
            StmtV::Assign { target, .. } => seq![target],
            _ => Seq::empty(),
        }) + targets(tr),
{
    targets_both(seq![s], tr);
    targets_one(s);
}

#[verifier::rlimit(60)]
proof fn stmt_agrees(s: StmtV)
    ensures
        stores(stmt_events(s)) == targets(tree_stmt(s, true)),
        evaluated(stmt_events(s)) == stmt_exprs(s),
    decreases s,
{
    nothing();
    let none = Seq::<ExprV>::empty();
    match s {
        StmtV::Let { pat, value, .. } => {
            match value {
                Some(e) => {
                    expr_agrees(e);
                    under(s, tree_expr(e, true));
                    let last: Seq<EventV> = match pat {
                        PatternV::Binding(name, _) => seq![EventV::Bind(name, e)],
                        _ => Seq::empty(),
                    };
                    both(events(e), last, Seq::empty(), Seq::empty());
                    if let PatternV::Binding(name, _) = pat {
                        stores_one(EventV::Bind(name, e));
                        evaluated_one(EventV::Bind(name, e));
                    }
                    assert(stores(last) =~= none && evaluated(last) =~= none);
                    assert(stores(events(e)) + none =~= none + stores(events(e)));
                    assert(evaluated(events(e)) + none =~= evaluated(events(e)));
                },
                None => {
                    under(s, Seq::empty());
                    assert(none + none =~= none);
                },
            }
        },
        StmtV::Assign { target, value, .. } => {
            expr_agrees(target);
            expr_agrees(value);
            let first = seq![EventV::Store(target)];
            let last: Seq<EventV> = match target {
                ExprV::Ident(name, _) => seq![EventV::Bind(name, value)],
                _ => Seq::empty(),
            };
            stores_one(EventV::Store(target));
            evaluated_one(EventV::Store(target));
            if let ExprV::Ident(name, _) = target {
                stores_one(EventV::Bind(name, value));
                evaluated_one(EventV::Bind(name, value));
            }
            both(first, events(target), Seq::empty(), Seq::empty());
            both(
                first + events(target),
                events(value),
                tree_expr(target, true),
                tree_expr(value, true),
            );
            both(first + events(target) + events(value), last, Seq::empty(), Seq::empty());
            under(s, tree_expr(target, true) + tree_expr(value, true));
            assert(stores(last) =~= none && evaluated(last) =~= none);
            assert(stores(stmt_events(s)) =~= targets(tree_stmt(s, true)));
            assert(evaluated(stmt_events(s)) =~= stmt_exprs(s));
        },
        StmtV::Expr(e) => {
            expr_agrees(e);
            under(s, tree_expr(e, true));
            assert(none + targets(tree_expr(e, true)) =~= targets(tree_expr(e, true)));
        },
        StmtV::While { cond, body, .. } => {
            expr_agrees(cond);
            stmts_agree(body.stmts);
            both(events(cond), stmts_events(body.stmts), tree_expr(cond, true), tree_stmts(body.stmts, true));
            under(s, tree_expr(cond, true) + tree_stmts(body.stmts, true));
            assert(stores(stmt_events(s)) =~= targets(tree_stmt(s, true)));
        },
        StmtV::For { iter, body, .. } => {
            expr_agrees(iter);
            stmts_agree(body.stmts);
            both(events(iter), stmts_events(body.stmts), tree_expr(iter, true), tree_stmts(body.stmts, true));
            under(s, tree_expr(iter, true) + tree_stmts(body.stmts, true));
            assert(stores(stmt_events(s)) =~= targets(tree_stmt(s, true)));
        },
        StmtV::Return(value, _) => {
            match value {
                Some(e) => {
                    expr_agrees(e);
                    under(s, tree_expr(e, true));
                    assert(none + targets(tree_expr(e, true)) =~= targets(tree_expr(e, true)));
                },
                None => {
                    under(s, Seq::empty());
                    assert(none + none =~= none);
                },
            }
        },
        _ => {
            under(s, Seq::empty());
            assert(none + none =~= none);
        },
    }
}

/// Running statements stores exactly to the targets of the assignments that stand in them,
/// and evaluates exactly the expressions that do, in order.
pub proof fn events_are_assignments_and_expressions(ss: Seq<StmtV>)
    ensures
        stores(stmts_events(ss)) == targets(tree_stmts(ss, true)),
        evaluated(stmts_events(ss)) == stmts_exprs(ss),
{
    stmts_agree(ss);
}

proof fn target_of(ss: Seq<StmtV>, s: StmtV, target: ExprV)
    requires
        ss.contains(s),
        s matches StmtV::Assign { target: t, .. } && t == target,
    ensures
        targets(ss).contains(target),
    decreases ss.len(),
{
    let i = choose|i: int| 0 <= i < ss.len() && ss[i] == s;
    let front = ss.drop_last();
    if i < front.len() {
        assert(front[i] == s);
        target_of(front, s, target);
        let k = choose|k: int| 0 <= k < targets(front).len() && targets(front)[k] == target;
        assert(targets(ss)[k] == target);
    } else {
        assert(targets(ss)[targets(ss).len() - 1] == target);
    }
}

proof fn target_from(ss: Seq<StmtV>, target: ExprV)
    requires
        targets(ss).contains(target),
    ensures
        exists|i: int|
            0 <= i < ss.len() && (#[trigger] ss[i] matches StmtV::Assign { target: t, .. } && t
                == target),
    decreases ss.len(),
{
    let front = ss.drop_last();
    if targets(front).contains(target) {
        target_from(front, target);
        let i = choose|i: int|
            0 <= i < front.len() && (#[trigger] front[i] matches StmtV::Assign { target: t, .. }
                && t == target);
        assert(ss[i] == front[i]);
    } else {
        let k = choose|k: int| 0 <= k < targets(ss).len() && targets(ss)[k] == target;
        assert(k == targets(front).len()) by {
            if k < targets(front).len() {
                assert(targets(front)[k] == target);
            }
        }
        assert(ss[ss.len() - 1] == ss.last());
    }
}

proof fn stores_event(evs: Seq<EventV>, x: ExprV)
    ensures
        stores(evs).contains(x) == evs.contains(EventV::Store(x)),
    decreases evs.len(),
{
    if evs.len() > 0 {
        let front = evs.drop_last();
        stores_event(front, x);
        if stores(front).contains(x) {
            let k = choose|k: int| 0 <= k < stores(front).len() && stores(front)[k] == x;
            assert(stores(evs)[k] == x);
            let i = choose|i: int| 0 <= i < front.len() && front[i] == EventV::Store(x);
            assert(evs[i] == EventV::Store(x));
        }
        if evs.last() == EventV::Store(x) {
            assert(stores(evs)[stores(evs).len() - 1] == x);
            assert(evs[evs.len() - 1] == EventV::Store(x));
        }
        if stores(evs).contains(x) && !stores(front).contains(x) {
            let k = choose|k: int| 0 <= k < stores(evs).len() && stores(evs)[k] == x;
            if k < stores(front).len() {
                assert(stores(front)[k] == x);
            }
        }
        if evs.contains(EventV::Store(x)) && evs.last() != EventV::Store(x) {
            let i = choose|i: int| 0 <= i < evs.len() && evs[i] == EventV::Store(x);
            assert(front[i] == EventV::Store(x));
        }
    }
}

proof fn evaluated_event(evs: Seq<EventV>, x: ExprV)
    ensures
        evaluated(evs).contains(x) == evs.contains(EventV::Node(x)),
    decreases evs.len(),
{
    if evs.len() > 0 {
        let front = evs.drop_last();
        evaluated_event(front, x);
        if evaluated(front).contains(x) {
            let k = choose|k: int| 0 <= k < evaluated(front).len() && evaluated(front)[k] == x;
            assert(evaluated(evs)[k] == x);
            let i = choose|i: int| 0 <= i < front.len() && front[i] == EventV::Node(x);
            assert(evs[i] == EventV::Node(x));
        }
        if evs.last() == EventV::Node(x) {
            assert(evaluated(evs)[evaluated(evs).len() - 1] == x);
            assert(evs[evs.len() - 1] == EventV::Node(x));
        }
        if evaluated(evs).contains(x) && !evaluated(front).contains(x) {
            let k = choose|k: int| 0 <= k < evaluated(evs).len() && evaluated(evs)[k] == x;
            if k < evaluated(front).len() {
                assert(evaluated(front)[k] == x);
            }
        }
        if evs.contains(EventV::Node(x)) && evs.last() != EventV::Node(x) {
            let i = choose|i: int| 0 <= i < evs.len() && evs[i] == EventV::Node(x);
            assert(front[i] == EventV::Node(x));
        }
    }
}

// ---- aliases ----

proof fn aliases_grow(evs: Seq<EventV>, i: int, a: Set<Seq<char>>, b: Set<Seq<char>>)
    requires
        0 <= i <= evs.len(),
        a.subset_of(b),
    ensures
        a.subset_of(aliases_after(evs.take(i), a)),
        aliases_after(evs.take(i), a).subset_of(aliases_after(evs, b)),
    decreases evs.len(),
{
    if evs.len() > 0 {
        let front = evs.drop_last();
        if i == evs.len() {
            assert(evs.take(i) =~= evs);
            aliases_grow(front, front.len() as int, a, b);
            assert(front.take(front.len() as int) =~= front);
            let x = aliases_after(front, a);
            let y = aliases_after(front, b);
            if let EventV::Bind(n, value) = evs.last() {
                if mentions(value, x) {
                    let m = choose|m: Seq<char>| #[trigger]
                        x.contains(m) && ident_names(exprs(value)).contains(m);
                    assert(y.contains(m));
                }
            }
        } else {
            aliases_grow(front, i, a, b);
            assert(front.take(i) =~= evs.take(i));
        }
    } else {
        assert(evs.take(i) =~= evs);
    }
}

proof fn mutates_more(ev: EventV, a: Set<Seq<char>>, b: Set<Seq<char>>)
    requires
        a.subset_of(b),
        event_mutates(ev, a),
    ensures
        event_mutates(ev, b),
{
    if let EventV::Node(e) = ev {
        if let ExprV::Call(callee, args, _) = e {
            if !readonly_callee(*callee) && crate::scan::some_arg_rooted(args, a) {
                let i = choose|i: int|
                    0 <= i < args.len() && rooted_in((#[trigger] args[i]).expr, a);
                assert(rooted_in(args[i].expr, b));
            }
        }
    }
}

proof fn event_changes(ss: Seq<StmtV>, var: Seq<char>, ev: EventV)
    requires
        stmts_events(ss).contains(ev),
        event_mutates(ev, Set::<Seq<char>>::empty().insert(var)),
    ensures
        mutated(ss, var),
{
    let evs = stmts_events(ss);
    let one = Set::<Seq<char>>::empty().insert(var);
    let i = choose|i: int| 0 <= i < evs.len() && evs[i] == ev;
    aliases_grow(evs, i, one, one);
    mutates_more(ev, one, aliases_after(evs.take(i), one));
    assert(event_mutates(evs[i], aliases_after(evs.take(i), one)));
}

// ---- laws ----

/// A variable is changed by an assignment to it, or to a place in it, wherever in the
/// function that stands.
pub proof fn assignments_change(ss: Seq<StmtV>, s: StmtV, var: Seq<char>)
    requires
        tree_stmts(ss, true).contains(s),
        s matches StmtV::Assign { target, .. } && root_of(target) == Some(var),
    ensures
        mutated(ss, var),
{
    let target = s->Assign_target;
    stmts_agree(ss);
    target_of(tree_stmts(ss, true), s, target);
    stores_event(stmts_events(ss), target);
    event_changes(ss, var, EventV::Store(target));
}

/// A variable is changed by a method called on a place in it, and by handing such a place
/// to a function other than `print` and `println`, wherever that stands.
pub proof fn calls_change(ss: Seq<StmtV>, e: ExprV, var: Seq<char>)
    requires
        stmts_exprs(ss).contains(e),
        e matches ExprV::Call(callee, args, _) && {
            ||| *callee matches ExprV::Field(base, _, _) && root_of(*base) == Some(var)
            ||| !(*callee matches ExprV::Ident(n, _) && (n == "print"@ || n == "println"@)) && (
            exists|i: int| 0 <= i < args.len() && root_of((#[trigger] args[i]).expr) == Some(var))
        },
    ensures
        mutated(ss, var),
{
    stmts_agree(ss);
    evaluated_event(stmts_events(ss), e);
    let one = Set::<Seq<char>>::empty().insert(var);
    if let ExprV::Call(callee, args, _) = e {
        if exists|i: int| 0 <= i < args.len() && root_of((#[trigger] args[i]).expr) == Some(var) {
            let i = choose|i: int|
                0 <= i < args.len() && root_of((#[trigger] args[i]).expr) == Some(var);
            assert(rooted_in(args[i].expr, one));
        }
    }
    assert(event_mutates(EventV::Node(e), one));
    event_changes(ss, var, EventV::Node(e));
}

/// A variable is changed when a name is bound to a value that mentions it, and what that
/// name refers to is changed afterwards.
pub proof fn changes_through_aliases(
    a: Seq<StmtV>,
    b: Seq<StmtV>,
    var: Seq<char>,
    name: Seq<char>,
    value: ExprV,
)
    requires
        stmts_events(a).contains(EventV::Bind(name, value)),
        ident_names(exprs(value)).contains(var),
        mutated(b, name),
    ensures
        mutated(a + b, var),
{
    let ea = stmts_events(a);
    let eb = stmts_events(b);
    let all = ea + eb;
    events_split(a, b);
    let one = Set::<Seq<char>>::empty().insert(var);
    let other = Set::<Seq<char>>::empty().insert(name);
    let i = choose|i: int| 0 <= i < ea.len() && ea[i] == EventV::Bind(name, value);
    aliases_grow(ea, i, one, one);
    let before = aliases_after(ea.take(i), one);
    assert(before.contains(var));
    assert(mentions(value, before));
    assert(ea.take(i + 1).drop_last() =~= ea.take(i));
    assert(ea.take(i + 1).last() == ea[i]);
    assert(aliases_after(ea.take(i + 1), one).contains(name));
    aliases_grow(ea, i + 1, one, one);
    let known = aliases_after(ea, one);
    assert(known.contains(name));
    let j = choose|j: int|
        0 <= j < eb.len() && event_mutates(#[trigger] eb[j], aliases_after(eb.take(j), other));
    let k = ea.len() + j;
    assert(all[k] == eb[j]);
    assert(all.take(k) =~= ea + eb.take(j));
    aliases_join(ea, eb.take(j), one);
    aliases_grow(eb.take(j), j, other, known);
    assert(eb.take(j).take(j) =~= eb.take(j));
    mutates_more(eb[j], aliases_after(eb.take(j), other), aliases_after(all.take(k), one));
    assert(event_mutates(all[k], aliases_after(all.take(k), one)));
}

proof fn aliases_join(a: Seq<EventV>, b: Seq<EventV>, s: Set<Seq<char>>)
    ensures
        aliases_after(a + b, s) == aliases_after(b, aliases_after(a, s)),
    decreases b.len(),
{
    if b.len() == 0 {
        assert(a + b =~= a);
    } else {
        aliases_join(a, b.drop_last(), s);
        assert((a + b).drop_last() =~= a + b.drop_last());
        assert((a + b).last() == b.last());
    }
}

proof fn events_split(a: Seq<StmtV>, b: Seq<StmtV>)
    ensures
        stmts_events(a + b) == stmts_events(a) + stmts_events(b),
    decreases b.len(),
{
    if b.len() == 0 {
        assert(a + b =~= a);
        assert(stmts_events(a) + stmts_events(b) =~= stmts_events(a));
    } else {
        events_split(a, b.drop_last());
        assert((a + b).drop_last() =~= a + b.drop_last());
        assert((a + b).last() == b.last());
        assert(stmts_events(a + b) =~= stmts_events(a) + stmts_events(b));
    }
}

/// Where nothing is assigned and nothing but `print` and `println` is called, nothing
/// changes.
pub proof fn reading_does_not_change(ss: Seq<StmtV>, var: Seq<char>)
    requires
        forall|i: int|
            0 <= i < tree_stmts(ss, true).len() ==> !(#[trigger] tree_stmts(ss, true)[i] is Assign),
        forall|i: int|
            0 <= i < stmts_exprs(ss).len() ==> (#[trigger] stmts_exprs(ss)[i] matches ExprV::Call(
                callee,
                _,
                _,
            ) ==> (*callee matches ExprV::Ident(n, _) && (n == "print"@ || n == "println"@))),
    ensures
        !mutated(ss, var),
{
    stmts_agree(ss);
    let evs = stmts_events(ss);
    let one = Set::<Seq<char>>::empty().insert(var);
    assert forall|i: int| 0 <= i < evs.len() implies !event_mutates(
        #[trigger] evs[i],
        aliases_after(evs.take(i), one),
    ) by {
        match evs[i] {
            EventV::Node(e) => {
                assert(evs.contains(EventV::Node(e)));
                evaluated_event(evs, e);
                let k = choose|k: int| 0 <= k < stmts_exprs(ss).len() && stmts_exprs(ss)[k] == e;
                assert(stmts_exprs(ss)[k] == e);
            },
            EventV::Store(t) => {
                assert(evs.contains(EventV::Store(t)));
                stores_event(evs, t);
                target_from(tree_stmts(ss, true), t);
            },
            _ => {},
        }
    }
}

/// A decision in a function: on some capture, live after its spawn or not.
spec fn decides(d: (Seq<char>, Ownership), cx: FnScope) -> bool {
    exists|live: bool| #[trigger] ownership_of(d.0, live, cx.body, cx.params) == d.1
}

spec fn all_decide(ds: Seq<(Seq<char>, Ownership)>, cx: FnScope) -> bool {
    forall|i: int| 0 <= i < ds.len() ==> decides(#[trigger] ds[i], cx)
}

proof fn decide_both(a: Seq<(Seq<char>, Ownership)>, b: Seq<(Seq<char>, Ownership)>, cx: FnScope)
    requires
        all_decide(a, cx),
        all_decide(b, cx),
    ensures
        all_decide(a + b, cx),
{
    assert forall|i: int| 0 <= i < (a + b).len() implies decides(#[trigger] (a + b)[i], cx) by {
        if i < a.len() {
            assert((a + b)[i] == a[i]);
        } else {
            assert((a + b)[i] == b[i - a.len()]);
        }
    }
}

proof fn upto_decide(ss: Seq<StmtV>, k: int, cx: FnScope)
    ensures
        all_decide(decisions_upto(ss, k, cx), cx),
    decreases size(ss), k, 0int,
{
    if 0 < k <= ss.len() {
        let s = ss[k - 1];
        upto_decide(ss, k - 1, cx);
        nested_decide(ss, k - 1, nested(s).len() as int, cx);
        let a = decisions_upto(ss, k - 1, cx);
        let b = decisions_nested(ss, k - 1, nested(s).len() as int, cx);
        decide_both(a, b, cx);
        match site_closure(s) {
            Some((ps, body)) => {
                site_closure_size(s);
                stmt_size(ss, k - 1);
                let inner = as_block(body).stmts;
                upto_decide(inner, inner.len() as int, cx);
                let c = decisions_upto(inner, inner.len() as int, cx);
                let d = site_decisions(ps, body, ss.skip(k), cx);
                assert forall|i: int| 0 <= i < d.len() implies decides(#[trigger] d[i], cx) by {
                    let caps = local_captures(ps, as_block(body), cx.locals);
                    assert(ownership_of(
                        caps[i],
                        live_in(caps[i], ss.skip(k), cx.body),
                        cx.body,
                        cx.params,
                    ) == d[i].1);
                }
                decide_both(c, d, cx);
                decide_both(a + b, c + d, cx);
            },
            None => {
                decide_both(a + b, Seq::empty(), cx);
            },
        }
    }
}

proof fn nested_decide(ss: Seq<StmtV>, k: int, j: int, cx: FnScope)
    ensures
        all_decide(decisions_nested(ss, k, j, cx), cx),
    decreases size(ss), k, j,
{
    if 0 <= k < ss.len() && 0 < j <= nested(ss[k]).len() {
        nested_size(ss[k], j - 1);
        stmt_size(ss, k);
        let list = nested(ss[k])[j - 1];
        nested_decide(ss, k, j - 1, cx);
        upto_decide(list, list.len() as int, cx);
        decide_both(
            decisions_nested(ss, k, j - 1, cx),
            decisions_upto(list, list.len() as int, cx),
            cx,
        );
    }
}

/// What may change is never reported as frozen: not by the analysis of a whole function,
/// and where it is live after its spawn, it is guarded by a lock.
pub proof fn changing_captures_are_locked(
    ss: Seq<StmtV>,
    params: Set<Seq<char>>,
    var: Seq<char>,
    i: int,
)
    requires
        mutated(ss, var),
    ensures
        ownership_of(var, true, ss, params) == Ownership::Cown,
        0 <= i < spawn_decisions(ss, params).len() && spawn_decisions(ss, params)[i].0 == var
            ==> spawn_decisions(ss, params)[i].1 != Ownership::Freeze,
{
    let cx = FnScope { locals: params.union(local_names(ss)), params, body: ss };
    let ds = spawn_decisions(ss, params);
    let sites = site_by_site(ss, params);
    upto_decide(ss, ss.len() as int, cx);
    if 0 <= i < ds.len() && ds[i].0 == var {
        decisions_are_sorted(ss, params);
        let d = ds[i];
        assert(ds.contains(d));
        ds.to_multiset_ensures();
        sites.to_multiset_ensures();
        assert(ds.to_multiset().count(d) > 0);
        assert(sites.contains(d));
        let k = choose|k: int| 0 <= k < sites.len() && sites[k] == d;
        assert(decides(sites[k], cx));
    }
}

/// A capture that some assignment anywhere in the function stores to is guarded by a lock
/// when it is live after its spawn, and never frozen.
pub proof fn assigned_captures_are_locked(
    ss: Seq<StmtV>,
    params: Set<Seq<char>>,
    s: StmtV,
    var: Seq<char>,
    i: int,
)
    requires
        tree_stmts(ss, true).contains(s),
        s matches StmtV::Assign { target, .. } && root_of(target) == Some(var),
    ensures
        ownership_of(var, true, ss, params) == Ownership::Cown,
        0 <= i < spawn_decisions(ss, params).len() && spawn_decisions(ss, params)[i].0 == var
            ==> spawn_decisions(ss, params)[i].1 != Ownership::Freeze,
{
    assignments_change(ss, s, var);
    changing_captures_are_locked(ss, params, var, i);
}

/// At a spawn, a capture that is live after it and that some assignment anywhere in the
/// function stores to is guarded by a lock.
pub proof fn live_assigned_captures_are_locked(
    ps: Seq<ParamV>,
    body: ExprV,
    rest: Seq<StmtV>,
    cx: FnScope,
    i: int,
    s: StmtV,
    var: Seq<char>,
)
    requires
        0 <= i < site_decisions(ps, body, rest, cx).len(),
        site_decisions(ps, body, rest, cx)[i].0 == var,
        live_in(var, rest, cx.body),
        tree_stmts(cx.body, true).contains(s),
        s matches StmtV::Assign { target, .. } && root_of(target) == Some(var),
    ensures
        site_decisions(ps, body, rest, cx)[i].1 == Ownership::Cown,
{
    assignments_change(cx.body, s, var);
}

proof fn kept_upto(ss: Seq<StmtV>, i: int, k: int, cx: FnScope, d: (Seq<char>, Ownership))
    requires
        0 <= i <= k <= ss.len(),
        decisions_upto(ss, i, cx).contains(d),
    ensures
        decisions_upto(ss, k, cx).contains(d),
    decreases k - i,
{
    if i < k {
        kept_upto(ss, i, k - 1, cx, d);
        let before = decisions_upto(ss, k - 1, cx);
        let x = choose|x: int| 0 <= x < before.len() && before[x] == d;
        assert(decisions_upto(ss, k, cx)[x] == d);
    }
}

proof fn among<T>(a: Seq<T>, b: Seq<T>, c: Seq<T>, z: T)
    requires
        a.contains(z) || b.contains(z) || c.contains(z),
    ensures
        (a + b + c).contains(z),
{
    let s = a + b + c;
    if a.contains(z) {
        let i = choose|i: int| 0 <= i < a.len() && a[i] == z;
        assert(s[i] == z);
    } else if b.contains(z) {
        let i = choose|i: int| 0 <= i < b.len() && b[i] == z;
        assert(s[a.len() + i] == z);
    } else {
        let i = choose|i: int| 0 <= i < c.len() && c[i] == z;
        assert(s[a.len() + b.len() + i] == z);
    }
}

proof fn nested_kept(
    ss: Seq<StmtV>,
    k: int,
    i: int,
    j: int,
    cx: FnScope,
    d: (Seq<char>, Ownership),
)
    requires
        0 <= k < ss.len(),
        0 <= i < j <= nested(ss[k]).len(),
        decisions_upto(nested(ss[k])[i], nested(ss[k])[i].len() as int, cx).contains(d),
    ensures
        decisions_nested(ss, k, j, cx).contains(d),
    decreases j - i,
{
    nested_size(ss[k], j - 1);
    stmt_size(ss, k);
    let list = nested(ss[k])[j - 1];
    if i < j - 1 {
        nested_kept(ss, k, i, j - 1, cx, d);
    }
    among(
        decisions_nested(ss, k, j - 1, cx),
        decisions_upto(list, list.len() as int, cx),
        Seq::empty(),
        d,
    );
    assert(decisions_nested(ss, k, j - 1, cx) + decisions_upto(list, list.len() as int, cx)
        + Seq::<(Seq<char>, Ownership)>::empty() =~= decisions_nested(ss, k, j - 1, cx)
        + decisions_upto(list, list.len() as int, cx));
}

/// Every spawn is decided: what is decided at a statement that spawns a closure, in the closure,
/// and in each list that a statement nests, is among the decisions of the list of the statement.
pub proof fn every_spawn_is_decided(
    ss: Seq<StmtV>,
    k: int,
    j: int,
    cx: FnScope,
    d: (Seq<char>, Ownership),
)
    requires
        0 <= k < ss.len(),
        ({
            ||| site_closure(ss[k]) matches Some((ps, body)) && site_decisions(
                ps,
                body,
                ss.skip(k + 1),
                cx,
            ).contains(d)
            ||| site_closure(ss[k]) matches Some((ps, body)) && decisions_upto(
                as_block(body).stmts,
                as_block(body).stmts.len() as int,
                cx,
            ).contains(d)
            ||| 0 <= j < nested(ss[k]).len() && decisions_upto(
                nested(ss[k])[j],
                nested(ss[k])[j].len() as int,
                cx,
            ).contains(d)
        }),
    ensures
        decisions_upto(ss, ss.len() as int, cx).contains(d),
{
    let s = ss[k];
    let n = nested(s).len() as int;
    let a = decisions_upto(ss, k, cx);
    let b = decisions_nested(ss, k, n, cx);
    if 0 <= j < n && decisions_upto(nested(s)[j], nested(s)[j].len() as int, cx).contains(d) {
        nested_kept(ss, k, j, n, cx, d);
    }
    match site_closure(s) {
        Some((ps, body)) => {
            site_closure_size(s);
            stmt_size(ss, k);
            let inner = as_block(body).stmts;
            let c = decisions_upto(inner, inner.len() as int, cx);
            let e = site_decisions(ps, body, ss.skip(k + 1), cx);
            if c.contains(d) || e.contains(d) {
                among(Seq::empty(), c, e, d);
                assert(Seq::<(Seq<char>, Ownership)>::empty() + c + e =~= c + e);
            }
            among(a, b, c + e, d);
            assert(decisions_upto(ss, k + 1, cx) =~= a + b + (c + e));
        },
        None => {
            among(a, b, Seq::empty(), d);
            assert(decisions_upto(ss, k + 1, cx) =~= a + b + Seq::<(Seq<char>, Ownership)>::empty());
        },
    }
    kept_upto(ss, k + 1, ss.len() as int, cx, d);
}

/// A local that is only read is frozen when it is live after its spawn.
pub proof fn read_captures_are_frozen(ss: Seq<StmtV>, params: Set<Seq<char>>, var: Seq<char>)
    requires
        !params.contains(var),
        !mutated(ss, var),
    ensures
        ownership_of(var, true, ss, params) == Ownership::Freeze,
{
}

/// What is mentioned after a spawn is live after it.
pub proof fn mentioned_captures_are_live(rest: Seq<StmtV>, body: Seq<StmtV>, var: Seq<char>)
    requires
        idents(rest).contains(var),
    ensures
        live_in(var, rest, body),
{
    assert(aliases_of(body, var).contains(var));
}

/// What is bound, anywhere in the function, to a value that mentions a capture keeps it live.
pub proof fn bound_captures_are_live(
    rest: Seq<StmtV>,
    body: Seq<StmtV>,
    var: Seq<char>,
    s: StmtV,
    name: Seq<char>,
    value: ExprV,
)
    requires
        tree_stmts(body, true).contains(s),
        s matches StmtV::Let { pat: PatternV::Binding(n, _), value: Some(v), .. } && n == name && v
            == value,
        ident_names(exprs(value)).contains(var),
        idents(rest).contains(name),
    ensures
        live_in(var, rest, body),
{
    let cs = tree_stmts(body, true);
    let j = choose|j: int| 0 <= j < cs.len() && cs[j] == s;
    assert forall|t: Set<Seq<char>>| #[trigger]
        alias_closed(cs, t) && t.contains(var) implies t.contains(name) by {
        assert(crate::spawn::binding(cs[j]) == Some((name, value)));
        assert(mentions(value, t));
    }
    assert(aliases_of(body, var).contains(name));
}

} // verus!
