//! Automatic lock acquisition: every `spawn` of a function is rewritten so that what
//! its task shares with the spawner is promoted before the task starts and accessed
//! under a lock on both sides.

use vstd::prelude::*;
use std::collections::HashSet;
use crate::ast::{args_view, clone_args, clone_expr, clone_params, clone_pattern, clone_stmt, clone_type_expr, match_arms_view, params_view, stmts_view, Arg, ArgV, Block, BlockV, Expr, ExprV, MatchArm, MatchArmV, Param, ParamV, Pattern, PatternV, Stmt, StmtV};
use crate::closure::{binds, own_names, closures_view};
use crate::guards::{guard_map, guard_stmts, guarded, guarded_arm, guarded_arms, guarded_children, guarded_stmt, guarded_stmts, guards_of, locked, wrap_with, GuardRel};
use crate::names::{among, among_all, among_grows, in_order, in_order_of_list, lists, NameSet};
use crate::ownership::{names_within, stmts_block};
use crate::positions::{recorded, Positions};
use crate::precheck::{binds_spawned, report_spawn, spawn_errors_view, SpawnError};
use crate::scan::{mutated, mutates};
use crate::span::Span;
use crate::spawn::{as_block, binding, captured, captures, closure_bindings_of, closure_block, closures_bound, collect_local_bindings, each_scope_site, literals_spawned, local_names, names_spawn, site_shape, sites, spawn_arg, spawned_var_names, spawned_vars, stmt_binding, vars_spawned, whole_value, SpawnArg, SpawnArgV};
use crate::summaries::{any_hands_over, some_hands_over, SpawnSummaries};
use crate::text::{cat3, texts};
use crate::traverse::{all_stmts_exprs, control_arms, control_expr, control_stmt, control_stmts, expr_refs, stmts_exprs};

verus! {

// ---- nesting depth ----

pub open spec fn most(a: nat, b: nat) -> nat {
    if a < b {
        b
    } else {
        a
    }
}

/// How deep task bodies can be nested in a statement list.
pub open spec fn depth(ss: Seq<StmtV>) -> nat
    decreases ss,
{
    if ss.len() == 0 {
        0
    } else {
        most(depth(ss.drop_last()), stmt_depth(ss.last()))
    }
}

pub open spec fn stmt_depth(s: StmtV) -> nat
    decreases s,
{
    match s {
        StmtV::While { body, .. } => depth(body.stmts),
        StmtV::For { body, .. } => depth(body.stmts),
        StmtV::Expr(e) => most(expr_depth(e), call_depth(e)),
        StmtV::Let { value, .. } => match value {
            Some(e) => most(most(expr_depth(e), call_depth(e)), closure_depth(e)),
            None => 0,
        },
        StmtV::Assign { value, .. } => closure_depth(value),
        StmtV::Return(value, _) => match value {
            Some(e) => expr_depth(e),
            None => 0,
        },
        _ => 0,
    }
}

/// The depth of a closure literal with a block body.
pub open spec fn closure_depth(e: ExprV) -> nat
    decreases e,
{
    match e {
        ExprV::Closure(_, body, _) => match *body {
            ExprV::Block(b, _) => 1 + depth(b.stmts),
            _ => 0,
        },
        _ => 0,
    }
}

/// The depth of a `spawn` of a closure literal.
pub open spec fn call_depth(e: ExprV) -> nat
    decreases e,
{
    match e {
        ExprV::Call(callee, args, _) => if names_spawn(*callee) && args.len() > 0 {
            closure_depth(args[0].expr)
        } else {
            0
        },
        _ => 0,
    }
}

/// The depth of the statement lists nested in an expression.
pub open spec fn expr_depth(e: ExprV) -> nat
    decreases e,
{
    match e {
        ExprV::If(_, t, els, _) => most(
            depth(t.stmts),
            match els {
                Some(x) => expr_depth(*x),
                None => 0,
            },
        ),
        ExprV::IfLet(_, _, t, els, _) => most(
            depth(t.stmts),
            match els {
                Some(x) => expr_depth(*x),
                None => 0,
            },
        ),
        ExprV::Block(b, _) => depth(b.stmts),
        ExprV::Match(_, arms, _) => arms_depth(arms),
        _ => 0,
    }
}

pub open spec fn arms_depth(arms: Seq<MatchArmV>) -> nat
    decreases arms,
{
    if arms.len() == 0 {
        0
    } else {
        most(
            arms_depth(arms.drop_last()),
            match arms.last().body {
                ExprV::Block(b, _) => depth(b.stmts),
                _ => 0,
            },
        )
    }
}

/// No statement is deeper than its list.
pub proof fn depth_of_stmt(ss: Seq<StmtV>, i: int)
    requires
        0 <= i < ss.len(),
    ensures
        stmt_depth(ss[i]) <= depth(ss),
    decreases ss.len(),
{
    if i < ss.len() - 1 {
        depth_of_stmt(ss.drop_last(), i);
        assert(ss.drop_last()[i] == ss[i]);
    }
}

/// No arm is deeper than the arms.
pub proof fn depth_of_arm(arms: Seq<MatchArmV>, i: int)
    requires
        0 <= i < arms.len(),
    ensures
        arms[i].body matches ExprV::Block(b, _) ==> depth(b.stmts) <= arms_depth(arms),
    decreases arms.len(),
{
    if i < arms.len() - 1 {
        depth_of_arm(arms.drop_last(), i);
        assert(arms.drop_last()[i] == arms[i]);
    }
}

// ---- guarding does not deepen ----

proof fn lock_names()
    ensures
        "with"@ != "spawn"@,
        "_with_all"@ != "spawn"@,
{
    reveal_strlit("with");
    reveal_strlit("_with_all");
    reveal_strlit("spawn");
    assert("with"@.len() == 4);
    assert("_with_all"@.len() == 9);
    assert("spawn"@.len() == 5);
}

/// What a lock acquisition wraps is no task of the scope around it.
proof fn locked_is_flat(e: ExprV, roots: Seq<Seq<char>>)
    ensures
        expr_depth(locked(e, roots)) == 0,
        call_depth(locked(e, roots)) == 0,
        closure_depth(locked(e, roots)) == 0,
        locked(e, roots) is Call,
{
    lock_names();
}

pub proof fn guarded_depth(ss: Seq<StmtV>, g: GuardRel)
    ensures
        depth(guarded_stmts(ss, g)) <= depth(ss),
    decreases ss, 0int,
{
    if ss.len() > 0 {
        guarded_depth(ss.drop_last(), g);
        guarded_stmt_depth(ss.last(), g);
        let r = guarded_stmts(ss, g);
        assert(r.drop_last() =~= guarded_stmts(ss.drop_last(), g));
        assert(r.last() == guarded_stmt(ss.last(), g));
    }
}

pub proof fn guarded_stmt_depth(s: StmtV, g: GuardRel)
    ensures
        stmt_depth(guarded_stmt(s, g)) <= stmt_depth(s),
    decreases s, 0int,
{
    match s {
        StmtV::While { body, .. } => guarded_depth(body.stmts, g),
        StmtV::For { body, .. } => guarded_depth(body.stmts, g),
        StmtV::Expr(e) => guarded_expr_depth(e, g),
        StmtV::Let { value, .. } => {
            if let Some(e) = value {
                guarded_expr_depth(e, g);
            }
        },
        StmtV::Assign { target, op, value, span } => {
            if crate::guards::place_roots(target, g) == Set::<Seq<char>>::empty() {
                guarded_expr_depth(value, g);
            } else {
                let st = StmtV::Assign { target, op, value: guarded(value, g), span };
                locked_is_flat(
                    ExprV::Block(BlockV { stmts: seq![st], span }, span),
                    in_order(crate::guards::place_roots(target, g)),
                );
            }
        },
        StmtV::Return(value, _) => {
            if let Some(e) = value {
                guarded_expr_depth(e, g);
            }
        },
        _ => {},
    }
}

pub proof fn guarded_expr_depth(e: ExprV, g: GuardRel)
    ensures
        expr_depth(guarded(e, g)) <= expr_depth(e),
        call_depth(guarded(e, g)) <= call_depth(e),
        closure_depth(guarded(e, g)) <= closure_depth(e),
    decreases e, 1int,
{
    let c = guarded_children(e, g);
    guarded_children_depth(e, g);
    if crate::guards::direct_roots(c, g) != Set::<Seq<char>>::empty() {
        locked_is_flat(c, in_order(crate::guards::direct_roots(c, g)));
    }
}

/// Guarding an identifier leaves it, and nothing else becomes one.
proof fn guarded_ident(e: ExprV, g: GuardRel)
    ensures
        guarded(e, g) is Ident ==> guarded(e, g) == e,
{
    let c = guarded_children(e, g);
    if crate::guards::direct_roots(c, g) != Set::<Seq<char>>::empty() {
        locked_is_flat(c, in_order(crate::guards::direct_roots(c, g)));
    }
}

proof fn guarded_children_depth(e: ExprV, g: GuardRel)
    ensures
        expr_depth(guarded_children(e, g)) <= expr_depth(e),
        call_depth(guarded_children(e, g)) <= call_depth(e),
        closure_depth(guarded_children(e, g)) <= closure_depth(e),
    decreases e, 0int,
{
    match e {
        ExprV::If(c, t, els, _) => {
            guarded_depth(t.stmts, g);
            if let Some(x) = els {
                guarded_expr_depth(*x, g);
            }
        },
        ExprV::IfLet(_, c, t, els, _) => {
            guarded_depth(t.stmts, g);
            if let Some(x) = els {
                guarded_expr_depth(*x, g);
            }
        },
        ExprV::Block(b, _) => guarded_depth(b.stmts, g),
        ExprV::Match(_, arms, _) => guarded_arms_depth(arms, g),
        ExprV::Call(callee, args, _) => {
            guarded_ident(*callee, g);
        },
        _ => {},
    }
}

proof fn guarded_arms_depth(arms: Seq<MatchArmV>, g: GuardRel)
    ensures
        arms_depth(guarded_arms(arms, g)) <= arms_depth(arms),
    decreases arms, 0int,
{
    if arms.len() > 0 {
        guarded_arms_depth(arms.drop_last(), g);
        let body = arms.last().body;
        guarded_expr_depth(body, g);
        let r = guarded_arms(arms, g);
        assert(r.drop_last() =~= guarded_arms(arms.drop_last(), g));
        assert(r.last() == guarded_arm(arms.last(), g));
        let gb = guarded(body, g);
        if gb is Block {
            let c = guarded_children(body, g);
            if crate::guards::direct_roots(c, g) != Set::<Seq<char>>::empty() {
                locked_is_flat(c, in_order(crate::guards::direct_roots(c, g)));
            }
            assert(gb == c);
            assert(body is Block);
            assert(expr_depth(gb) == depth(gb->Block_0.stmts));
            assert(expr_depth(body) == depth(body->Block_0.stmts));
        }
    }
}

// ---- classification ----

/// What is known while a scope is rewritten.
pub ghost struct ScopeV {
    /// Names in scope.
    pub locals: Set<Seq<char>>,
    /// Parameters of the function.
    pub fn_params: Set<Seq<char>>,
    /// The function body as written.
    pub fn_body: Seq<StmtV>,
    /// The scope as written.
    pub scope: Seq<StmtV>,
    /// Parameters that tasks of other functions capture.
    pub summaries: Positions,
}

/// Whether a capture has to be guarded by a lock: it is a parameter, whose other
/// users are not visible, or it may be mutated somewhere in the function.
pub open spec fn needs_lock(v: Seq<char>, cx: ScopeV) -> bool {
    cx.fn_params.contains(v) || mutated(cx.fn_body, v)
}

/// The captures of a task that are locals.
pub open spec fn task_locals(c: (Seq<ParamV>, BlockV), cx: ScopeV) -> Set<Seq<char>> {
    captures(c.1.stmts, binds(c.0, c.1.stmts)).intersect(cx.locals)
}

/// The captures of some tasks that are locals.
pub open spec fn tasks_locals(cs: Seq<(Seq<ParamV>, BlockV)>, cx: ScopeV) -> Set<Seq<char>>
    decreases cs.len(),
{
    if cs.len() == 0 {
        Set::empty()
    } else {
        tasks_locals(cs.drop_last(), cx).union(task_locals(cs.last(), cx))
    }
}

/// The names of `s` that need a lock.
pub open spec fn locked_of(s: Set<Seq<char>>, cx: ScopeV) -> Set<Seq<char>> {
    Set::new(|v: Seq<char>| s.contains(v) && needs_lock(v, cx))
}

/// The names of `s` that can be frozen.
pub open spec fn frozen_of(s: Set<Seq<char>>, cx: ScopeV) -> Set<Seq<char>> {
    Set::new(|v: Seq<char>| s.contains(v) && !needs_lock(v, cx))
}

/// The locals that the scope passes into a call position which a task captures.
pub open spec fn handed_locals(cx: ScopeV) -> Set<Seq<char>> {
    Set::new(|n: Seq<char>|
        cx.locals.contains(n) && some_hands_over(
            stmts_exprs(cx.scope),
            n,
            cx.summaries,
        ))
}

/// Every name of the scope that has to be guarded by a lock.
pub open spec fn scope_cowns(cx: ScopeV) -> Set<Seq<char>> {
    locked_of(tasks_locals(sites(cx.scope), cx), cx).union(handed_locals(cx))
}

// ---- rewriting ----

/// A statement `builtin(var)`.
pub open spec fn promotion(builtin: Seq<char>, var: Seq<char>, span: Span) -> StmtV {
    StmtV::Expr(
        ExprV::Call(
            Box::new(ExprV::Ident(builtin, span)),
            seq![ArgV { expr: ExprV::Ident(var, span) }],
            span,
        ),
    )
}

/// One promotion for each of `ns`.
pub open spec fn promotions(builtin: Seq<char>, ns: Seq<Seq<char>>, span: Span) -> Seq<StmtV> {
    Seq::new(ns.len(), |i: int| promotion(builtin, ns[i], span))
}

/// Promotions of the names of `s`: to a lock where one is needed, else to a frozen
/// value.
pub open spec fn promote_all(s: Set<Seq<char>>, span: Span, cx: ScopeV) -> Seq<StmtV> {
    promotions("_cown"@, in_order(locked_of(s, cx)), span) + promotions(
        "_freeze"@,
        in_order(frozen_of(s, cx)),
        span,
    )
}

/// A task body under the locks of its captures.
pub open spec fn locked_body(body: ExprV, s: Set<Seq<char>>, cx: ScopeV) -> ExprV {
    if locked_of(s, cx) == Set::<Seq<char>>::empty() {
        body
    } else {
        locked(body, in_order(locked_of(s, cx)))
    }
}

/// Statements with the errors found on the way.
pub ghost struct Rewritten {
    pub stmts: Seq<StmtV>,
    pub errors: Seq<(Seq<char>, Span)>,
}

/// An expression with the errors found on the way.
pub ghost struct RewrittenExpr {
    pub expr: ExprV,
    pub errors: Seq<(Seq<char>, Span)>,
}

/// The promotion of a local, right after its binding, that some call hands to a
/// task.
pub open spec fn promotion_after(s: StmtV, cx: ScopeV) -> Seq<StmtV> {
    match s {
        StmtV::Let { pat, value, span, .. } => match pat {
            PatternV::Binding(name, _) => if handed_locals(cx).contains(name) {
                seq![
                    promotion(
                        "_cown"@,
                        name,
                        match value {
                            Some(e) => e.span(),
                            None => span,
                        },
                    ),
                ]
            } else {
                Seq::empty()
            },
            _ => Seq::empty(),
        },
        _ => Seq::empty(),
    }
}

/// What stands around the name in the message for a spawned variable that is bound
/// to no closure.
pub const UNBOUND_BEFORE: &'static str = "`spawn` requires a closure literal or a local bound to one; `";
pub const UNBOUND_AFTER: &'static str = "` is not bound to a closure literal in this function";

/// The message for a spawn of anything else.
pub const OPAQUE_SPAWN: &'static str = "`spawn` requires a closure literal or a local bound to one; this argument cannot be analyzed for ownership";

/// `e`, a spawn of a literal, with another closure body.
pub open spec fn with_body(e: ExprV, body: ExprV) -> ExprV {
    match e {
        ExprV::Call(callee, args, span) => match args[0].expr {
            ExprV::Closure(ps, _, cspan) => ExprV::Call(
                callee,
                args.update(0, ArgV { expr: ExprV::Closure(ps, Box::new(body), cspan) }),
                span,
            ),
            _ => e,
        },
        _ => e,
    }
}

/// A statement with another value of its own.
pub open spec fn with_value(s: StmtV, e: ExprV) -> StmtV {
    match s {
        StmtV::Expr(_) => StmtV::Expr(e),
        StmtV::Let { pat, ty, value, is_const, span } => StmtV::Let {
            pat,
            ty,
            value: Some(e),
            is_const,
            span,
        },
        StmtV::Assign { target, op, value, span } => StmtV::Assign { target, op, value: e, span },
        StmtV::Return(_, span) => StmtV::Return(Some(e), span),
        _ => s,
    }
}

/// One execution scope rewritten: a function body, or the body of a task. First its
/// own accesses are guarded, then its spawn sites are rewritten.
pub open spec fn scope_rewritten(
    ss: Seq<StmtV>,
    in_scope: Set<Seq<char>>,
    fn_params: Set<Seq<char>>,
    fn_body: Seq<StmtV>,
    summaries: Positions,
) -> Rewritten
    decreases depth(ss), 1int, ss, 0int,
{
    let cx = ScopeV {
        locals: in_scope.union(local_names(ss)),
        fn_params,
        fn_body,
        scope: ss,
        summaries,
    };
    let g = guards_of(ss, scope_cowns(cx));
    proof {
        guarded_depth(ss, g);
    }
    if scope_cowns(cx) == Set::<Seq<char>>::empty() {
        rewritten(ss, cx)
    } else {
        rewritten(guarded_stmts(ss, g), cx)
    }
}

/// The spawn sites of a statement list rewritten.
pub open spec fn rewritten(ss: Seq<StmtV>, cx: ScopeV) -> Rewritten
    decreases depth(ss), 0int, ss, 0int,
{
    if ss.len() == 0 {
        Rewritten { stmts: Seq::empty(), errors: Seq::empty() }
    } else {
        let a = rewritten(ss.drop_last(), cx);
        let b = stmt_rewritten(ss.last(), cx);
        Rewritten { stmts: a.stmts + b.stmts, errors: a.errors + b.errors }
    }
}

/// A closure body rewritten as a task: its own scope first, then the locks of its
/// captures around it.
pub open spec fn task_rewritten(c: ExprV, cx: ScopeV) -> RewrittenExpr
    decreases closure_depth(c), 0int, c, 0int,
{
    match c {
        ExprV::Closure(ps, body, _) => {
            let s = task_locals((ps, as_block(*body)), cx);
            match *body {
                ExprV::Block(b, bspan) => {
                    let inner = scope_rewritten(
                        b.stmts,
                        cx.locals,
                        cx.fn_params,
                        cx.fn_body,
                        cx.summaries,
                    );
                    RewrittenExpr {
                        expr: locked_body(
                            ExprV::Block(BlockV { stmts: inner.stmts, span: b.span }, bspan),
                            s,
                            cx,
                        ),
                        errors: inner.errors,
                    }
                },
                _ => RewrittenExpr { expr: locked_body(*body, s, cx), errors: Seq::empty() },
            }
        },
        _ => RewrittenExpr { expr: c, errors: Seq::empty() },
    }
}

/// A statement rewritten: a spawn gets its promotions before it; a closure bound to a
/// spawned variable is rewritten as a task; otherwise the nested lists are.
pub open spec fn stmt_rewritten(s: StmtV, cx: ScopeV) -> Rewritten
    decreases stmt_depth(s), 0int, s, 1int,
{
    match site_shape(s) {
        Some(SpawnArgV::Literal) => {
            let e = whole_value(s)->Some_0;
            let c = e->Call_1[0].expr;
            let t = task_rewritten(c, cx);
            let locals = task_locals((c->Closure_0, as_block(*c->Closure_1)), cx);
            Rewritten {
                stmts: promote_all(locals, e.span(), cx).push(with_value(s, with_body(e, t.expr))),
                errors: t.errors,
            }
        },
        Some(SpawnArgV::Var(name, span)) => {
            let cs = closures_bound(control_stmts(cx.scope), name);
            if cs.len() == 0 {
                Rewritten {
                    stmts: seq![s],
                    errors: seq![(UNBOUND_BEFORE@ + name + UNBOUND_AFTER@, span)],
                }
            } else {
                Rewritten {
                    stmts: promote_all(
                        tasks_locals(cs, cx),
                        (whole_value(s)->Some_0).span(),
                        cx,
                    ).push(s),
                    errors: Seq::empty(),
                }
            }
        },
        Some(SpawnArgV::Opaque(span)) => Rewritten {
            stmts: seq![s],
            errors: seq![(OPAQUE_SPAWN@, span)],
        },
        None => if binds_spawned(s, spawned_vars(cx.scope)) {
            let c = binding(s)->Some_0.1;
            let t = task_rewritten(c, cx);
            Rewritten {
                stmts: seq![with_value(s, ExprV::Closure(c->Closure_0, Box::new(t.expr), c->Closure_2))]
                    + promotion_after(s, cx),
                errors: t.errors,
            }
        } else {
            let n = nested_rewritten(s, cx);
            Rewritten { stmts: n.stmts + promotion_after(s, cx), errors: n.errors }
        },
    }
}

/// A statement with the lists nested in it rewritten.
pub open spec fn nested_rewritten(s: StmtV, cx: ScopeV) -> Rewritten
    decreases stmt_depth(s), 0int, s, 0int,
{
    match s {
        StmtV::While { cond, body, span } => {
            let b = rewritten(body.stmts, cx);
            Rewritten {
                stmts: seq![
                    StmtV::While { cond, body: BlockV { stmts: b.stmts, span: body.span }, span },
                ],
                errors: b.errors,
            }
        },
        StmtV::For { var, iter, body, span } => {
            let b = rewritten(body.stmts, cx);
            Rewritten {
                stmts: seq![
                    StmtV::For {
                        var,
                        iter,
                        body: BlockV { stmts: b.stmts, span: body.span },
                        span,
                    },
                ],
                errors: b.errors,
            }
        },
        StmtV::Expr(e) => {
            let r = expr_rewritten(e, cx);
            Rewritten { stmts: seq![StmtV::Expr(r.expr)], errors: r.errors }
        },
        StmtV::Let { value, .. } => match value {
            Some(e) => {
                let r = expr_rewritten(e, cx);
                Rewritten { stmts: seq![with_value(s, r.expr)], errors: r.errors }
            },
            None => Rewritten { stmts: seq![s], errors: Seq::empty() },
        },
        StmtV::Return(value, _) => match value {
            Some(e) => {
                let r = expr_rewritten(e, cx);
                Rewritten { stmts: seq![with_value(s, r.expr)], errors: r.errors }
            },
            None => Rewritten { stmts: seq![s], errors: Seq::empty() },
        },
        _ => Rewritten { stmts: seq![s], errors: Seq::empty() },
    }
}

/// An expression with the statement lists nested in it rewritten.
pub open spec fn expr_rewritten(e: ExprV, cx: ScopeV) -> RewrittenExpr
    decreases expr_depth(e), 0int, e, 0int,
{
    match e {
        ExprV::If(c, t, els, span) => {
            let b = rewritten(t.stmts, cx);
            match els {
                Some(x) => {
                    let r = expr_rewritten(*x, cx);
                    RewrittenExpr {
                        expr: ExprV::If(
                            c,
                            BlockV { stmts: b.stmts, span: t.span },
                            Some(Box::new(r.expr)),
                            span,
                        ),
                        errors: b.errors + r.errors,
                    }
                },
                None => RewrittenExpr {
                    expr: ExprV::If(c, BlockV { stmts: b.stmts, span: t.span }, None, span),
                    errors: b.errors,
                },
            }
        },
        ExprV::IfLet(p, c, t, els, span) => {
            let b = rewritten(t.stmts, cx);
            match els {
                Some(x) => {
                    let r = expr_rewritten(*x, cx);
                    RewrittenExpr {
                        expr: ExprV::IfLet(
                            p,
                            c,
                            BlockV { stmts: b.stmts, span: t.span },
                            Some(Box::new(r.expr)),
                            span,
                        ),
                        errors: b.errors + r.errors,
                    }
                },
                None => RewrittenExpr {
                    expr: ExprV::IfLet(p, c, BlockV { stmts: b.stmts, span: t.span }, None, span),
                    errors: b.errors,
                },
            }
        },
        ExprV::Block(b, span) => {
            let r = rewritten(b.stmts, cx);
            RewrittenExpr {
                expr: ExprV::Block(BlockV { stmts: r.stmts, span: b.span }, span),
                errors: r.errors,
            }
        },
        ExprV::Match(c, arms, span) => {
            let r = arms_rewritten(arms, cx);
            RewrittenExpr { expr: ExprV::Match(c, r.0, span), errors: r.1 }
        },
        _ => RewrittenExpr { expr: e, errors: Seq::empty() },
    }
}

/// Match arms with their blocks rewritten.
pub open spec fn arms_rewritten(arms: Seq<MatchArmV>, cx: ScopeV) -> (
    Seq<MatchArmV>,
    Seq<(Seq<char>, Span)>,
)
    decreases arms_depth(arms), 0int, arms, 0int,
{
    if arms.len() == 0 {
        (Seq::empty(), Seq::empty())
    } else {
        let a = arms_rewritten(arms.drop_last(), cx);
        let arm = arms.last();
        match arm.body {
            ExprV::Block(b, bspan) => {
                let r = rewritten(b.stmts, cx);
                (
                    a.0.push(
                        MatchArmV {
                            pattern: arm.pattern,
                            body: ExprV::Block(BlockV { stmts: r.stmts, span: b.span }, bspan),
                            span: arm.span,
                        },
                    ),
                    a.1 + r.errors,
                )
            },
            _ => (a.0.push(arm), a.1),
        }
    }
}

// ---- the context of a scope ----

/// What a scope's rewriting needs, shared by the whole walk.
struct ScopeCtx<'a> {
    locals: NameSet,
    fn_params: &'a NameSet,
    fn_body: &'a Block,
    scope: &'a Vec<Stmt>,
    summaries: &'a SpawnSummaries,
    spawned: NameSet,
    handed: NameSet,
}

impl<'a> ScopeCtx<'a> {
    spec fn model(self) -> ScopeV {
        ScopeV {
            locals: self.locals@,
            fn_params: self.fn_params@,
            fn_body: self.fn_body@.stmts,
            scope: stmts_view(self.scope@),
            summaries: recorded(self.summaries@),
        }
    }

    spec fn wf(self) -> bool {
        self.spawned@ == spawned_vars(stmts_view(self.scope@)) && self.handed@ == handed_locals(
            self.model(),
        )
    }
}

fn capture_needs_lock(v: &str, fn_params: &NameSet, fn_body: &Block) -> (r: bool)
    ensures
        r == (fn_params@.contains(v@) || mutated(fn_body@.stmts, v@)),
{
    fn_params.contains(v) || mutates(fn_body, v)
}

/// The names of `s` that need a lock, and the others.
fn classify(s: &NameSet, fn_params: &NameSet, fn_body: &Block, Ghost(cx): Ghost<ScopeV>) -> (r: (
    NameSet,
    NameSet,
))
    requires
        cx.fn_params == fn_params@,
        cx.fn_body == fn_body@.stmts,
    ensures
        r.0@ == locked_of(s@, cx),
        r.1@ == frozen_of(s@, cx),
{
    let mut cowns = NameSet::new();
    let mut freezes = NameSet::new();
    let items = s.items();
    let ghost all = texts(items@);
    proof {
        among_all(all, s@);
        assert(cowns@ =~= locked_of(among(all, 0), cx));
        assert(freezes@ =~= frozen_of(among(all, 0), cx));
    }
    for i in 0..items.len()
        invariant
            all == texts(items@),
            cx.fn_params == fn_params@,
            cx.fn_body == fn_body@.stmts,
            cowns@ == locked_of(among(all, i as int), cx),
            freezes@ == frozen_of(among(all, i as int), cx),
    {
        assert(all[i as int] == items[i as int]@);
        proof {
            among_grows(all, i as int);
        }
        let needs = capture_needs_lock(items[i].as_str(), fn_params, fn_body);
        assert(needs == needs_lock(all[i as int], cx));
        if needs {
            cowns.insert(items[i].as_str());
        } else {
            freezes.insert(items[i].as_str());
        }
        assert(cowns@ =~= locked_of(among(all, i + 1), cx));
        assert(freezes@ =~= frozen_of(among(all, i + 1), cx));
    }
    (cowns, freezes)
}

fn closure_locals(ps: &Vec<Param>, block: &Block, locals: &NameSet, Ghost(cx): Ghost<ScopeV>) -> (r:
    NameSet)
    requires
        cx.locals == locals@,
    ensures
        r@ == task_locals((params_view(ps@), block@), cx),
{
    let bound = own_names(ps, block);
    let caps = captured(block, &bound);
    names_within(&caps, locals)
}

fn closures_locals(cs: &Vec<(Vec<Param>, Block)>, locals: &NameSet, Ghost(cx): Ghost<ScopeV>) -> (r:
    NameSet)
    requires
        cx.locals == locals@,
    ensures
        r@ == tasks_locals(closures_view(cs@), cx),
{
    let mut out = NameSet::new();
    let ghost all = closures_view(cs@);
    for i in 0..cs.len()
        invariant
            all == closures_view(cs@),
            cx.locals == locals@,
            out@ == tasks_locals(all.take(i as int), cx),
    {
        proof {
            assert(all.take(i + 1).drop_last() =~= all.take(i as int));
            assert(all.take(i + 1).last() == (params_view(cs[i as int].0@), cs[i as int].1@));
        }
        let found = closure_locals(&cs[i].0, &cs[i].1, locals, Ghost(cx));
        out.extend(&found);
    }
    assert(all.take(cs.len() as int) =~= all);
    out
}

/// The locals that the scope passes into a call position which a task captures.
fn collect_summary_cowns(
    stmts: &Vec<Stmt>,
    locals: &NameSet,
    summaries: &SpawnSummaries,
    Ghost(cx): Ghost<ScopeV>,
) -> (r: NameSet)
    requires
        cx.locals == locals@,
        cx.scope == stmts_view(stmts@),
        cx.summaries == recorded(summaries@),
    ensures
        r@ == handed_locals(cx),
{
    let mut out = NameSet::new();
    let es = all_stmts_exprs(stmts);
    let items = locals.items();
    let ghost all = texts(items@);
    let ghost ev = stmts_exprs(cx.scope);
    for i in 0..items.len()
        invariant
            all == texts(items@),
            lists(all, locals@),
            cx.summaries == recorded(summaries@),
            expr_refs(es@) == ev,
            forall|n: Seq<char>|
                out@.contains(n) <==> some_hands_over(ev, n, cx.summaries) && exists|j: int|
                    0 <= j < i && #[trigger] all[j] == n,
    {
        assert(all[i as int] == items[i as int]@);
        if any_hands_over(&es, items[i].as_str(), summaries) {
            out.insert(items[i].as_str());
        }
    }
    proof {
        assert forall|n: Seq<char>| locals@.contains(n) <==> exists|j: int|
            0 <= j < all.len() && #[trigger] all[j] == n by {
            if locals@.contains(n) {
                assert(all.contains(n));
            }
            if exists|j: int| 0 <= j < all.len() && #[trigger] all[j] == n {
                assert(all.contains(n));
            }
        }
        assert(out@ =~= handed_locals(cx));
    }
    out
}

// ---- building statements ----

fn promote_stmt(builtin: &str, var: &str, span: Span) -> (r: Stmt)
    ensures
        r@ == promotion(builtin@, var@, span),
{
    let arg = Arg { expr: Expr::Ident(var.to_owned(), span) };
    let ghost av = arg@;
    let args = vec![arg];
    assert(args_view(args@) =~= seq![av]);
    let callee = Expr::Ident(builtin.to_owned(), span);
    assert(callee@ == ExprV::Ident(builtin@, span));
    let e = Expr::Call(Box::new(callee), args, span);
    assert(e@ == promotion(builtin@, var@, span)->Expr_0);
    Stmt::Expr(e)
}

/// Append a statement.
fn push_stmt(s: Stmt, out: &mut Vec<Stmt>)
    ensures
        stmts_view(final(out)@) == stmts_view(old(out)@).push(s@),
{
    let ghost start = stmts_view(out@);
    out.push(s);
    assert(stmts_view(out@) =~= start.push(s@));
}

fn push_promotions(builtin: &str, names: &Vec<String>, span: Span, out: &mut Vec<Stmt>)
    ensures
        stmts_view(final(out)@) == stmts_view(old(out)@) + promotions(builtin@, texts(names@), span),
{
    let ghost start = stmts_view(out@);
    let ghost want = promotions(builtin@, texts(names@), span);
    assert(start =~= start + want.take(0));
    for i in 0..names.len()
        invariant
            want == promotions(builtin@, texts(names@), span),
            stmts_view(out@) == start + want.take(i as int),
    {
        push_stmt(promote_stmt(builtin, names[i].as_str(), span), out);
        proof {
            assert(want[i as int] == promotion(builtin@, names[i as int]@, span));
            assert(want.take(i + 1) =~= want.take(i as int).push(want[i as int]));
            assert(stmts_view(out@) =~= start + want.take(i + 1));
        }
    }
    assert(want.take(names.len() as int) =~= want);
}

fn insert_promotions(s: &NameSet, span: Span, ctx: &ScopeCtx, out: &mut Vec<Stmt>)
    requires
        ctx.wf(),
    ensures
        stmts_view(final(out)@) == stmts_view(old(out)@) + promote_all(s@, span, ctx.model()),
{
    let ghost start = stmts_view(out@);
    let (cowns, freezes) = classify(s, ctx.fn_params, ctx.fn_body, Ghost(ctx.model()));
    push_promotions("_cown", cowns.items(), span, out);
    push_promotions("_freeze", freezes.items(), span, out);
    assert(stmts_view(out@) =~= start + promote_all(s@, span, ctx.model()));
}

fn lock_body(body: Expr, s: &NameSet, ctx: &ScopeCtx) -> (r: Expr)
    requires
        ctx.wf(),
    ensures
        r@ == locked_body(body@, s@, ctx.model()),
{
    let (cowns, _) = classify(s, ctx.fn_params, ctx.fn_body, Ghost(ctx.model()));
    if cowns.is_empty() {
        body
    } else {
        wrap_with(body, cowns.items())
    }
}

fn replace_value(s: &Stmt, e: Expr) -> (r: Stmt)
    ensures
        r@ == with_value(s@, e@),
{
    match s {
        Stmt::Expr(_) => Stmt::Expr(e),
        Stmt::Let { pat, ty, is_const, span, .. } => Stmt::Let {
            pat: clone_pattern(pat),
            ty: match ty {
                Some(t) => Some(clone_type_expr(t)),
                None => None,
            },
            value: Some(e),
            is_const: *is_const,
            span: *span,
        },
        Stmt::Assign { target, op, span, .. } => Stmt::Assign {
            target: clone_expr(target),
            op: *op,
            value: e,
            span: *span,
        },
        Stmt::Return(_, span) => Stmt::Return(Some(e), *span),
        _ => clone_stmt(s),
    }
}

fn replace_body(callee: &Expr, args: &Vec<Arg>, span: Span, ps: &Vec<Param>, cspan: Span, body: Expr) -> (r:
    Expr)
    requires
        args.len() > 0,
    ensures
        r@ == ExprV::Call(
            Box::new(callee@),
            args_view(args@).update(
                0,
                ArgV { expr: ExprV::Closure(params_view(ps@), Box::new(body@), cspan) },
            ),
            span,
        ),
{
    let mut out = clone_args(args);
    let ghost before = args_view(args@);
    assert(args_view(out@).len() == out.len());
    let closure = Expr::Closure(clone_params(ps), Box::new(body), cspan);
    let arg = Arg { expr: closure };
    let ghost av = arg@;
    out.set(0, arg);
    assert(args_view(out@) =~= before.update(0, av));
    Expr::Call(Box::new(clone_expr(callee)), out, span)
}

fn push_promotion_after(s: &Stmt, ctx: &ScopeCtx, out: &mut Vec<Stmt>)
    requires
        ctx.wf(),
    ensures
        stmts_view(final(out)@) == stmts_view(old(out)@) + promotion_after(s@, ctx.model()),
{
    let ghost start = stmts_view(out@);
    if let Stmt::Let { pat, value, span, .. } = s {
        if let Pattern::Binding(name, _) = pat {
            if ctx.handed.contains(name.as_str()) {
                let at = match value {
                    Some(e) => e.span(),
                    None => *span,
                };
                push_stmt(promote_stmt("_cown", name.as_str(), at), out);
            }
        }
    }
    assert(stmts_view(out@) =~= start + promotion_after(s@, ctx.model()));
}

// ---- the walk ----

/// Rewrite one execution scope: a function body, or the body of a task.
fn process_scope(
    stmts: &Vec<Stmt>,
    in_scope: &NameSet,
    fn_params: &NameSet,
    fn_body: &Block,
    summaries: &SpawnSummaries,
    errors: &mut Vec<SpawnError>,
) -> (r: Vec<Stmt>)
    ensures
        stmts_view(r@) == scope_rewritten(
            stmts_view(stmts@),
            in_scope@,
            fn_params@,
            fn_body@.stmts,
            recorded(summaries@),
        ).stmts,
        spawn_errors_view(final(errors)@) == spawn_errors_view(old(errors)@) + scope_rewritten(
            stmts_view(stmts@),
            in_scope@,
            fn_params@,
            fn_body@.stmts,
            recorded(summaries@),
        ).errors,
    decreases depth(stmts_view(stmts@)), 1int, *stmts, 0int,
{
    let ghost ss = stmts_view(stmts@);
    let mut locals = in_scope.copy();
    collect_local_bindings(stmts, &mut locals);
    let ghost cx = ScopeV {
        locals: locals@,
        fn_params: fn_params@,
        fn_body: fn_body@.stmts,
        scope: ss,
        summaries: recorded(summaries@),
    };
    let spawned = spawned_var_names(stmts);
    let tasks = each_scope_site(stmts);
    let caps = closures_locals(&tasks, &locals, Ghost(cx));
    let (mut cowns, _) = classify(&caps, fn_params, fn_body, Ghost(cx));
    let handed = collect_summary_cowns(stmts, &locals, summaries, Ghost(cx));
    cowns.extend(&handed);
    assert(cowns@ =~= scope_cowns(cx));
    let ctx = ScopeCtx { locals, fn_params, fn_body, scope: stmts, summaries, spawned, handed };
    assert(ctx.model() == cx);
    if cowns.is_empty() {
        transform_stmts(stmts, &ctx, errors)
    } else {
        let guards = guard_map(stmts, &cowns);
        let guarded_list = guard_stmts(stmts, &guards);
        proof {
            guarded_depth(ss, guards@);
        }
        transform_stmts(&guarded_list, &ctx, errors)
    }
}

/// One statement more.
proof fn rewritten_grows(ss: Seq<StmtV>, i: int, cx: ScopeV)
    requires
        0 <= i < ss.len(),
    ensures
        rewritten(ss.take(i + 1), cx).stmts == rewritten(ss.take(i), cx).stmts + stmt_rewritten(
            ss[i],
            cx,
        ).stmts,
        rewritten(ss.take(i + 1), cx).errors == rewritten(ss.take(i), cx).errors + stmt_rewritten(
            ss[i],
            cx,
        ).errors,
{
    assert(ss.take(i + 1).drop_last() =~= ss.take(i));
    assert(ss.take(i + 1).last() == ss[i]);
}

#[verifier::rlimit(40)]
fn transform_stmts(stmts: &Vec<Stmt>, ctx: &ScopeCtx, errors: &mut Vec<SpawnError>) -> (r: Vec<Stmt>)
    requires
        ctx.wf(),
    ensures
        stmts_view(r@) == rewritten(stmts_view(stmts@), ctx.model()).stmts,
        spawn_errors_view(final(errors)@) == spawn_errors_view(old(errors)@) + rewritten(
            stmts_view(stmts@),
            ctx.model(),
        ).errors,
    decreases depth(stmts_view(stmts@)), 0int, *stmts, 0int,
{
    let ghost start = spawn_errors_view(errors@);
    let ghost all = stmts_view(stmts@);
    let ghost cx = ctx.model();
    let mut out: Vec<Stmt> = Vec::new();
    assert(stmts_view(out@) =~= rewritten(all.take(0), cx).stmts);
    assert(start =~= start + rewritten(all.take(0), cx).errors);
    for i in 0..stmts.len()
        invariant
            ctx.wf(),
            cx == ctx.model(),
            all == stmts_view(stmts@),
            stmts_view(out@) == rewritten(all.take(i as int), cx).stmts,
            spawn_errors_view(errors@) == start + rewritten(all.take(i as int), cx).errors,
    {
        let ghost e0 = rewritten(all.take(i as int), cx).errors;
        let ghost e1 = stmt_rewritten(stmts[i as int]@, cx).errors;
        proof {
            rewritten_grows(all, i as int, cx);
            depth_of_stmt(all, i as int);
            assert(all[i as int] == stmts[i as int]@);
        }
        transform_stmt(&stmts[i], ctx, &mut out, errors);
        assert(start + e0 + e1 =~= start + (e0 + e1));
    }
    assert(all.take(stmts.len() as int) =~= all);
    out
}

/// Rewrite a closure body as a task.
fn transform_task(
    ps: &Vec<Param>,
    body: &Expr,
    ctx: &ScopeCtx,
    errors: &mut Vec<SpawnError>,
    Ghost(span): Ghost<Span>,
) -> (r: Expr)
    requires
        ctx.wf(),
    ensures
        r@ == task_rewritten(
            ExprV::Closure(params_view(ps@), Box::new(body@), span),
            ctx.model(),
        ).expr,
        spawn_errors_view(final(errors)@) == spawn_errors_view(old(errors)@) + task_rewritten(
            ExprV::Closure(params_view(ps@), Box::new(body@), span),
            ctx.model(),
        ).errors,
    decreases
            closure_depth(ExprV::Closure(params_view(ps@), Box::new(body@), span)),
            0int,
            *body,
            0int,
{
    let ghost start = spawn_errors_view(errors@);
    let ghost c = ExprV::Closure(params_view(ps@), Box::new(body@), span);
    let block = closure_block(body);
    let caps = closure_locals(ps, &block, &ctx.locals, Ghost(ctx.model()));
    match body {
        Expr::Block(b, bspan) => {
            proof {
                assert(b@.stmts == stmts_view(b.stmts@));
                assert(closure_depth(c) == 1 + depth(b@.stmts));
            }
            let inner = process_scope(
                &b.stmts,
                &ctx.locals,
                ctx.fn_params,
                ctx.fn_body,
                ctx.summaries,
                errors,
            );
            let nb = Block { stmts: inner, span: b.span };
            assert(nb@.stmts == stmts_view(nb.stmts@));
            let e = Expr::Block(nb, *bspan);
            assert(e@ == ExprV::Block(nb@, *bspan));
            lock_body(e, &caps, ctx)
        },
        _ => {
            assert(start =~= start + task_rewritten(c, ctx.model()).errors);
            lock_body(clone_expr(body), &caps, ctx)
        },
    }
}

/// Rewrite a spawn of a closure literal.
fn transform_literal(
    s: &Stmt,
    e: &Expr,
    ctx: &ScopeCtx,
    out: &mut Vec<Stmt>,
    errors: &mut Vec<SpawnError>,
)
    requires
        ctx.wf(),
        whole_value(s@) == Some(e@),
        site_shape(s@) == Some(SpawnArgV::Literal),
        decreases_to!(*s => *e),
    ensures
        stmts_view(final(out)@) == stmts_view(old(out)@) + stmt_rewritten(s@, ctx.model()).stmts,
        spawn_errors_view(final(errors)@) == spawn_errors_view(old(errors)@) + stmt_rewritten(
            s@,
            ctx.model(),
        ).errors,
    decreases stmt_depth(s@), 0int, *e, 0int,
{
    let ghost start = stmts_view(out@);
    let ghost cx = ctx.model();
    if let Expr::Call(callee, args, span) = e {
        proof {
            assert(args_view(args@).len() == args.len());
            assert(args_view(args@)[0] == args[0]@);
            assert(args[0]@.expr == args[0].expr@);
        }
        if let Expr::Closure(ps, body, cspan) = &args[0].expr {
            proof {
                assert(e@->Call_1[0].expr == ExprV::Closure(params_view(ps@), Box::new(body@), *cspan));
                assert(call_depth(e@) == closure_depth(e@->Call_1[0].expr));
            }
            let block = closure_block(body);
            let caps = closure_locals(ps, &block, &ctx.locals, Ghost(cx));
            insert_promotions(&caps, e.span(), ctx, out);
            let t = transform_task(ps, body, ctx, errors, Ghost(*cspan));
            let call = replace_body(callee, args, *span, ps, *cspan, t);
            assert(call@ == with_body(e@, t@));
            push_stmt(replace_value(s, call), out);
            assert(stmts_view(out@) =~= start + stmt_rewritten(s@, cx).stmts);
        }
    }
}

/// Rewrite a spawn of a variable.
fn transform_var(
    s: &Stmt,
    name: &str,
    span: Span,
    at: Span,
    ctx: &ScopeCtx,
    out: &mut Vec<Stmt>,
    errors: &mut Vec<SpawnError>,
)
    requires
        ctx.wf(),
        site_shape(s@) == Some(SpawnArgV::Var(name@, span)),
        at == (whole_value(s@)->Some_0).span(),
    ensures
        stmts_view(final(out)@) == stmts_view(old(out)@) + stmt_rewritten(s@, ctx.model()).stmts,
        spawn_errors_view(final(errors)@) == spawn_errors_view(old(errors)@) + stmt_rewritten(
            s@,
            ctx.model(),
        ).errors,
{
    let ghost start = stmts_view(out@);
    let ghost before = spawn_errors_view(errors@);
    let ghost cx = ctx.model();
    let mut cs: Vec<(Vec<Param>, Block)> = Vec::new();
    closure_bindings_of(ctx.scope, name, &mut cs);
    assert(closures_view(cs@) =~= closures_bound(control_stmts(cx.scope), name@));
    if cs.len() == 0 {
        report_spawn(cat3(UNBOUND_BEFORE, name, UNBOUND_AFTER), span, errors);
        push_stmt(clone_stmt(s), out);
    } else {
        let caps = closures_locals(&cs, &ctx.locals, Ghost(cx));
        insert_promotions(&caps, at, ctx, out);
        push_stmt(clone_stmt(s), out);
    }
    assert(stmts_view(out@) =~= start + stmt_rewritten(s@, cx).stmts);
    assert(spawn_errors_view(errors@) =~= before + stmt_rewritten(s@, cx).errors);
}

fn transform_stmt(s: &Stmt, ctx: &ScopeCtx, out: &mut Vec<Stmt>, errors: &mut Vec<SpawnError>)
    requires
        ctx.wf(),
    ensures
        stmts_view(final(out)@) == stmts_view(old(out)@) + stmt_rewritten(s@, ctx.model()).stmts,
        spawn_errors_view(final(errors)@) == spawn_errors_view(old(errors)@) + stmt_rewritten(
            s@,
            ctx.model(),
        ).errors,
    decreases stmt_depth(s@), 0int, *s, 1int,
{
    let ghost start = stmts_view(out@);
    let ghost before = spawn_errors_view(errors@);
    let ghost cx = ctx.model();
    match spawn_arg(s) {
        Some(SpawnArg::Literal) => {
            match s {
                Stmt::Expr(e) => transform_literal(s, e, ctx, out, errors),
                Stmt::Let { value, .. } => {
                    if let Some(e) = value {
                        transform_literal(s, e, ctx, out, errors);
                    }
                },
                _ => {},
            }
        },
        Some(SpawnArg::Var(name, span)) => {
            let at = match crate::spawn::whole_expr(s) {
                Some(e) => e.span(),
                None => span,
            };
            transform_var(s, name, span, at, ctx, out, errors);
        },
        Some(SpawnArg::Opaque(span)) => {
            report_spawn(OPAQUE_SPAWN.to_owned(), span, errors);
            push_stmt(clone_stmt(s), out);
            assert(stmts_view(out@) =~= start + stmt_rewritten(s@, cx).stmts);
            assert(spawn_errors_view(errors@) =~= before + stmt_rewritten(s@, cx).errors);
        },
        None => {
            let bound = match stmt_binding(s) {
                Some((name, value)) => matches!(value, Expr::Closure(..)) && ctx.spawned.contains(
                    name,
                ),
                None => false,
            };
            assert(bound == binds_spawned(s@, spawned_vars(cx.scope)));
            if bound {
                match s {
                    Stmt::Let { value, .. } => {
                        if let Some(Expr::Closure(ps, body, cspan)) = value {
                            let t = transform_task(ps, body, ctx, errors, Ghost(*cspan));
                            let c = Expr::Closure(clone_params(ps), Box::new(t), *cspan);
                            push_stmt(replace_value(s, c), out);
                        }
                    },
                    Stmt::Assign { value, .. } => {
                        if let Expr::Closure(ps, body, cspan) = value {
                            let t = transform_task(ps, body, ctx, errors, Ghost(*cspan));
                            let c = Expr::Closure(clone_params(ps), Box::new(t), *cspan);
                            push_stmt(replace_value(s, c), out);
                        }
                    },
                    _ => {},
                }
            } else {
                let n = transform_nested(s, ctx, errors);
                push_stmt(n, out);
            }
            push_promotion_after(s, ctx, out);
            assert(stmts_view(out@) =~= start + stmt_rewritten(s@, cx).stmts);
        },
    }
}

fn transform_block(b: &Block, ctx: &ScopeCtx, errors: &mut Vec<SpawnError>) -> (r: Block)
    requires
        ctx.wf(),
    ensures
        r@ == (BlockV { stmts: rewritten(b@.stmts, ctx.model()).stmts, span: b@.span }),
        spawn_errors_view(final(errors)@) == spawn_errors_view(old(errors)@) + rewritten(
            b@.stmts,
            ctx.model(),
        ).errors,
    decreases depth(b@.stmts), 0int, *b, 0int,
{
    assert(b@.stmts == stmts_view(b.stmts@));
    let r = Block { stmts: transform_stmts(&b.stmts, ctx, errors), span: b.span };
    assert(r@.stmts == stmts_view(r.stmts@));
    r
}

fn transform_nested(s: &Stmt, ctx: &ScopeCtx, errors: &mut Vec<SpawnError>) -> (r: Stmt)
    requires
        ctx.wf(),
    ensures
        nested_rewritten(s@, ctx.model()).stmts == seq![r@],
        spawn_errors_view(final(errors)@) == spawn_errors_view(old(errors)@) + nested_rewritten(
            s@,
            ctx.model(),
        ).errors,
    decreases stmt_depth(s@), 0int, *s, 0int,
{
    let ghost before = spawn_errors_view(errors@);
    assert(before =~= before + Seq::<(Seq<char>, Span)>::empty());
    match s {
        Stmt::While { cond, body, span } => Stmt::While {
            cond: clone_expr(cond),
            body: transform_block(body, ctx, errors),
            span: *span,
        },
        Stmt::For { var, iter, body, span } => Stmt::For {
            var: var.clone(),
            iter: clone_expr(iter),
            body: transform_block(body, ctx, errors),
            span: *span,
        },
        Stmt::Expr(e) => Stmt::Expr(transform_expr(e, ctx, errors)),
        Stmt::Let { value, .. } => {
            if let Some(e) = value {
                let r = transform_expr(e, ctx, errors);
                replace_value(s, r)
            } else {
                clone_stmt(s)
            }
        },
        Stmt::Return(value, _) => {
            if let Some(e) = value {
                let r = transform_expr(e, ctx, errors);
                replace_value(s, r)
            } else {
                clone_stmt(s)
            }
        },
        _ => clone_stmt(s),
    }
}

fn transform_expr(e: &Expr, ctx: &ScopeCtx, errors: &mut Vec<SpawnError>) -> (r: Expr)
    requires
        ctx.wf(),
    ensures
        r@ == expr_rewritten(e@, ctx.model()).expr,
        spawn_errors_view(final(errors)@) == spawn_errors_view(old(errors)@) + expr_rewritten(
            e@,
            ctx.model(),
        ).errors,
    decreases expr_depth(e@), 0int, *e, 0int,
{
    let ghost before = spawn_errors_view(errors@);
    assert(before =~= before + Seq::<(Seq<char>, Span)>::empty());
    match e {
        Expr::If(c, t, els, span) => {
            let b = transform_block(t, ctx, errors);
            let x = match els {
                Some(x) => Some(Box::new(transform_expr(x, ctx, errors))),
                None => None,
            };
            assert(spawn_errors_view(errors@) =~= before + expr_rewritten(e@, ctx.model()).errors);
            Expr::If(Box::new(clone_expr(c)), b, x, *span)
        },
        Expr::IfLet(p, c, t, els, span) => {
            let b = transform_block(t, ctx, errors);
            let x = match els {
                Some(x) => Some(Box::new(transform_expr(x, ctx, errors))),
                None => None,
            };
            assert(spawn_errors_view(errors@) =~= before + expr_rewritten(e@, ctx.model()).errors);
            Expr::IfLet(clone_pattern(p), Box::new(clone_expr(c)), b, x, *span)
        },
        Expr::Block(b, span) => Expr::Block(transform_block(b, ctx, errors), *span),
        Expr::Match(c, arms, span) => {
            let r = transform_arms(arms, ctx, errors);
            Expr::Match(Box::new(clone_expr(c)), r, *span)
        },
        _ => clone_expr(e),
    }
}

fn transform_arms(arms: &Vec<MatchArm>, ctx: &ScopeCtx, errors: &mut Vec<SpawnError>) -> (r: Vec<
    MatchArm,
>)
    requires
        ctx.wf(),
    ensures
        match_arms_view(r@) == arms_rewritten(match_arms_view(arms@), ctx.model()).0,
        spawn_errors_view(final(errors)@) == spawn_errors_view(old(errors)@) + arms_rewritten(
            match_arms_view(arms@),
            ctx.model(),
        ).1,
    decreases arms_depth(match_arms_view(arms@)), 0int, *arms, 0int,
{
    let ghost start = spawn_errors_view(errors@);
    let ghost all = match_arms_view(arms@);
    let ghost cx = ctx.model();
    let mut out: Vec<MatchArm> = Vec::new();
    assert(match_arms_view(out@) =~= arms_rewritten(all.take(0), cx).0);
    assert(start =~= start + arms_rewritten(all.take(0), cx).1);
    for i in 0..arms.len()
        invariant
            ctx.wf(),
            cx == ctx.model(),
            all == match_arms_view(arms@),
            match_arms_view(out@) == arms_rewritten(all.take(i as int), cx).0,
            spawn_errors_view(errors@) == start + arms_rewritten(all.take(i as int), cx).1,
    {
        proof {
            assert(all.take(i + 1).drop_last() =~= all.take(i as int));
            assert(all.take(i + 1).last() == arms[i as int]@);
            assert(all[i as int] == arms[i as int]@);
            assert(arms[i as int]@.body == arms[i as int].body@);
            depth_of_arm(all, i as int);
        }
        let ghost before = match_arms_view(out@);
        let body = match &arms[i].body {
            Expr::Block(b, bspan) => Expr::Block(transform_block(b, ctx, errors), *bspan),
            _ => clone_expr(&arms[i].body),
        };
        let arm = MatchArm { pattern: clone_pattern(&arms[i].pattern), body, span: arms[i].span };
        let ghost av = arm@;
        assert(av.body == body@);
        out.push(arm);
        assert(match_arms_view(out@) =~= before.push(av));
        assert(spawn_errors_view(errors@) =~= start + arms_rewritten(all.take(i + 1), cx).1);
    }
    assert(all.take(arms.len() as int) =~= all);
    out
}

// ---- sequential code ----

/// Whether none of the statements starts a task.
pub open spec fn starts_no_task(cs: Seq<StmtV>) -> bool {
    forall|i: int| 0 <= i < cs.len() ==> site_shape(#[trigger] cs[i]) is None
}

/// The context of a function body.
pub open spec fn body_scope(ss: Seq<StmtV>, params: Set<Seq<char>>, summaries: Positions) -> ScopeV {
    ScopeV {
        locals: params.union(local_names(ss)),
        fn_params: params,
        fn_body: ss,
        scope: ss,
        summaries,
    }
}

proof fn no_task_parts(a: Seq<StmtV>, b: Seq<StmtV>)
    requires
        starts_no_task(a + b),
    ensures
        starts_no_task(a),
        starts_no_task(b),
{
    assert forall|i: int| 0 <= i < a.len() implies site_shape(#[trigger] a[i]) is None by {
        assert((a + b)[i] == a[i]);
    }
    assert forall|i: int| 0 <= i < b.len() implies site_shape(#[trigger] b[i]) is None by {
        assert((a + b)[a.len() + i] == b[i]);
    }
}

proof fn no_task_sites(cs: Seq<StmtV>)
    requires
        starts_no_task(cs),
    ensures
        vars_spawned(cs) == Set::<Seq<char>>::empty(),
        literals_spawned(cs).len() == 0,
    decreases cs.len(),
{
    if cs.len() > 0 {
        let rest = cs.drop_last();
        assert forall|i: int| 0 <= i < rest.len() implies site_shape(#[trigger] rest[i]) is None by {
            assert(rest[i] == cs[i]);
        }
        no_task_sites(rest);
        assert(site_shape(cs[cs.len() - 1]) is None);
    }
}

proof fn quiet_stmts(ss: Seq<StmtV>, cx: ScopeV)
    requires
        starts_no_task(control_stmts(ss)),
        spawned_vars(cx.scope) == Set::<Seq<char>>::empty(),
        handed_locals(cx) == Set::<Seq<char>>::empty(),
    ensures
        rewritten(ss, cx).stmts == ss,
        rewritten(ss, cx).errors.len() == 0,
    decreases ss,
{
    if ss.len() > 0 {
        no_task_parts(control_stmts(ss.drop_last()), control_stmt(ss.last()));
        quiet_stmts(ss.drop_last(), cx);
        quiet_stmt(ss.last(), cx);
        assert(ss.drop_last() + seq![ss.last()] =~= ss);
    }
}

proof fn quiet_stmt(s: StmtV, cx: ScopeV)
    requires
        starts_no_task(control_stmt(s)),
        spawned_vars(cx.scope) == Set::<Seq<char>>::empty(),
        handed_locals(cx) == Set::<Seq<char>>::empty(),
    ensures
        stmt_rewritten(s, cx).stmts =~= seq![s],
        stmt_rewritten(s, cx).errors.len() == 0,
    decreases s,
{
    let all = control_stmt(s);
    let below = all.skip(1);
    assert(all =~= seq![s] + below);
    no_task_parts(seq![s], below);
    assert(site_shape(seq![s][0]) is None);
    match s {
        StmtV::While { body, .. } => {
            assert(below =~= control_stmts(body.stmts));
            quiet_stmts(body.stmts, cx);
        },
        StmtV::For { body, .. } => {
            assert(below =~= control_stmts(body.stmts));
            quiet_stmts(body.stmts, cx);
        },
        StmtV::Expr(e) => {
            assert(below =~= control_expr(e));
            quiet_expr(e, cx);
        },
        StmtV::Let { value, .. } => match value {
            Some(e) => {
                assert(below =~= control_expr(e));
                quiet_expr(e, cx);
            },
            None => {},
        },
        StmtV::Return(value, _) => match value {
            Some(e) => {
                assert(below =~= control_expr(e));
                quiet_expr(e, cx);
            },
            None => {},
        },
        _ => {},
    }
    assert(promotion_after(s, cx).len() == 0);
}

proof fn quiet_expr(e: ExprV, cx: ScopeV)
    requires
        starts_no_task(control_expr(e)),
        spawned_vars(cx.scope) == Set::<Seq<char>>::empty(),
        handed_locals(cx) == Set::<Seq<char>>::empty(),
    ensures
        expr_rewritten(e, cx).expr == e,
        expr_rewritten(e, cx).errors.len() == 0,
    decreases e,
{
    match e {
        ExprV::If(_, t, els, _) => {
            match els {
                Some(x) => {
                    no_task_parts(control_stmts(t.stmts), control_expr(*x));
                    quiet_expr(*x, cx);
                },
                None => {
                    no_task_parts(control_stmts(t.stmts), Seq::empty());
                },
            }
            quiet_stmts(t.stmts, cx);
        },
        ExprV::IfLet(_, _, t, els, _) => {
            match els {
                Some(x) => {
                    no_task_parts(control_stmts(t.stmts), control_expr(*x));
                    quiet_expr(*x, cx);
                },
                None => {
                    no_task_parts(control_stmts(t.stmts), Seq::empty());
                },
            }
            quiet_stmts(t.stmts, cx);
        },
        ExprV::Block(b, _) => quiet_stmts(b.stmts, cx),
        ExprV::Match(_, arms, _) => quiet_arms(arms, cx),
        _ => {},
    }
}

proof fn quiet_arms(arms: Seq<MatchArmV>, cx: ScopeV)
    requires
        starts_no_task(control_arms(arms)),
        spawned_vars(cx.scope) == Set::<Seq<char>>::empty(),
        handed_locals(cx) == Set::<Seq<char>>::empty(),
    ensures
        arms_rewritten(arms, cx).0 == arms,
        arms_rewritten(arms, cx).1.len() == 0,
    decreases arms,
{
    if arms.len() > 0 {
        let before = control_arms(arms.drop_last());
        match arms.last().body {
            ExprV::Block(b, _) => {
                no_task_parts(before, control_stmts(b.stmts));
                quiet_stmts(b.stmts, cx);
            },
            _ => {
                no_task_parts(before, Seq::empty());
            },
        }
        quiet_arms(arms.drop_last(), cx);
        assert(arms.drop_last().push(arms.last()) =~= arms);
    }
}

/// A function that starts no task, and hands no local to a function that gives it to
/// one, is left as it is, without an error.
pub proof fn sequential_code_is_untouched(
    ss: Seq<StmtV>,
    params: Set<Seq<char>>,
    summaries: Positions,
)
    requires
        starts_no_task(control_stmts(ss)),
        handed_locals(body_scope(ss, params, summaries)) == Set::<Seq<char>>::empty(),
    ensures
        scope_rewritten(ss, params, params, ss, summaries).stmts == ss,
        scope_rewritten(ss, params, params, ss, summaries).errors.len() == 0,
{
    let cx = body_scope(ss, params, summaries);
    no_task_sites(control_stmts(ss));
    let none = Seq::<Seq<char>>::empty();
    in_order_of_list(none, Set::empty());
    assert(sites(ss).len() == 0);
    assert(tasks_locals(sites(ss), cx) =~= Set::<Seq<char>>::empty());
    assert(scope_cowns(cx) =~= Set::<Seq<char>>::empty());
    quiet_stmts(ss, cx);
}

/// Insert automatic lock acquisition for every `spawn` in a function body: task
/// bodies acquire the locks of their captures, captures are promoted before the
/// spawn, and every access of the function to a shared object runs under its lock.
/// The result lists the spawns whose argument cannot be analyzed.
pub fn auto_acquire(stmts: &mut Vec<Stmt>, params: &NameSet, summaries: &SpawnSummaries) -> (r: Vec<
    SpawnError,
>)
    ensures
        stmts_view(final(stmts)@) == scope_rewritten(
            stmts_view(old(stmts)@),
            params@,
            params@,
            stmts_view(old(stmts)@),
            recorded(summaries@),
        ).stmts,
        spawn_errors_view(r@) == scope_rewritten(
            stmts_view(old(stmts)@),
            params@,
            params@,
            stmts_view(old(stmts)@),
            recorded(summaries@),
        ).errors,
{
    let mut errors: Vec<SpawnError> = Vec::new();
    let pristine = stmts_block(stmts);
    let out = process_scope(stmts, params, params, &pristine, summaries, &mut errors);
    assert(spawn_errors_view(errors@) =~= scope_rewritten(
        stmts_view(stmts@),
        params@,
        params@,
        stmts_view(stmts@),
        recorded(summaries@),
    ).errors);
    *stmts = out;
    errors
}

} // verus!
