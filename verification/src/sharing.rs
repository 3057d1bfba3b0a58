//! What the rewriting of spawns promises: nothing is shared with a task that was not
//! promoted before the task starts, what may change is under a lock, and a task that
//! cannot be seen through is refused.

use vstd::prelude::*;
use crate::acquire::{frozen_of, locked_of, needs_lock, promote_all, promotion, promotions, rewritten, stmt_rewritten, task_locals, task_rewritten, tasks_locals, Rewritten, ScopeV, OPAQUE_SPAWN, UNBOUND_AFTER, UNBOUND_BEFORE};
use crate::ast::{BlockV, ExprV, ParamV, StmtV};
use crate::guards::locked;
use crate::names::{finite_sets_are_listed, in_order};
use crate::span::Span;
use crate::spawn::{as_block, closures_bound, site_shape, whole_value, SpawnArgV};
use crate::traverse::control_stmts;

verus! {

/// The statement that promotes a capture: to a lock if it may change, else to a frozen
/// value.
pub open spec fn promoted(v: Seq<char>, span: Span, cx: ScopeV) -> StmtV {
    promotion(
        if needs_lock(v, cx) {
            "_cown"@
        } else {
            "_freeze"@
        },
        v,
        span,
    )
}

/// The locals that the task of a spawn statement captures, where the task can be seen
/// through.
pub open spec fn spawned_locals(s: StmtV, cx: ScopeV) -> Set<Seq<char>> {
    match site_shape(s) {
        Some(SpawnArgV::Literal) => {
            let c = (whole_value(s)->Some_0)->Call_1[0].expr;
            task_locals((c->Closure_0, as_block(*c->Closure_1)), cx)
        },
        Some(SpawnArgV::Var(name, _)) => tasks_locals(
            closures_bound(control_stmts(cx.scope), name),
            cx,
        ),
        _ => Set::empty(),
    }
}

proof fn tasks_locals_are_locals(cs: Seq<(Seq<ParamV>, BlockV)>, cx: ScopeV)
    ensures
        tasks_locals(cs, cx).subset_of(cx.locals),
    decreases cs.len(),
{
    if cs.len() > 0 {
        tasks_locals_are_locals(cs.drop_last(), cx);
    }
}

pub proof fn subset_is_finite(s: Set<Seq<char>>, sub: Set<Seq<char>>)
    requires
        s.finite(),
        sub.subset_of(s),
    ensures
        sub.finite(),
{
    vstd::set_lib::lemma_set_subset_finite(s, sub);
}

proof fn promotions_cover(s: Set<Seq<char>>, span: Span, cx: ScopeV, v: Seq<char>)
    requires
        s.finite(),
        s.contains(v),
    ensures
        promote_all(s, span, cx).contains(promoted(v, span, cx)),
{
    let a = promotions("_cown"@, in_order(locked_of(s, cx)), span);
    let b = promotions("_freeze"@, in_order(frozen_of(s, cx)), span);
    let all = promote_all(s, span, cx);
    if needs_lock(v, cx) {
        subset_is_finite(s, locked_of(s, cx));
        finite_sets_are_listed(locked_of(s, cx));
        let l = in_order(locked_of(s, cx));
        assert(l.contains(v));
        let i = choose|i: int| 0 <= i < l.len() && l[i] == v;
        assert(all[i] == a[i]);
        assert(all[i] == promoted(v, span, cx));
    } else {
        subset_is_finite(s, frozen_of(s, cx));
        finite_sets_are_listed(frozen_of(s, cx));
        let l = in_order(frozen_of(s, cx));
        assert(l.contains(v));
        let i = choose|i: int| 0 <= i < l.len() && l[i] == v;
        assert(all[a.len() + i] == b[i]);
        assert(all[a.len() + i] == promoted(v, span, cx));
    }
}

/// Whether a spawn statement starts a task that can be seen through.
pub open spec fn is_seen(s: StmtV, cx: ScopeV) -> bool {
    match site_shape(s) {
        Some(SpawnArgV::Literal) => true,
        Some(SpawnArgV::Var(name, _)) => closures_bound(control_stmts(cx.scope), name).len() > 0,
        _ => false,
    }
}

/// Everything that a task captures is promoted before the task starts: the statement
/// with the spawn comes last.
pub proof fn captures_are_promoted(s: StmtV, cx: ScopeV, v: Seq<char>)
    requires
        cx.locals.finite(),
        is_seen(s, cx),
        spawned_locals(s, cx).contains(v),
    ensures
        ({
            let out = stmt_rewritten(s, cx).stmts;
            let span = (whole_value(s)->Some_0).span();
            out.len() > 0 && out.drop_last().contains(promoted(v, span, cx))
        }),
{
    let locals = spawned_locals(s, cx);
    let span = (whole_value(s)->Some_0).span();
    match site_shape(s) {
        Some(SpawnArgV::Var(name, _)) => {
            tasks_locals_are_locals(closures_bound(control_stmts(cx.scope), name), cx);
        },
        _ => {},
    }
    subset_is_finite(cx.locals, locals);
    promotions_cover(locals, span, cx, v);
    let out = stmt_rewritten(s, cx).stmts;
    assert(out.drop_last() =~= promote_all(locals, span, cx));
}

/// A capture that may change is not frozen.
pub proof fn changing_captures_are_not_frozen(s: StmtV, cx: ScopeV, v: Seq<char>)
    requires
        cx.locals.finite(),
        is_seen(s, cx),
        needs_lock(v, cx),
    ensures
        !stmt_rewritten(s, cx).stmts.drop_last().contains(
            promotion("_freeze"@, v, (whole_value(s)->Some_0).span()),
        ),
{
    reveal_strlit("_cown");
    reveal_strlit("_freeze");
    let locals = spawned_locals(s, cx);
    let span = (whole_value(s)->Some_0).span();
    match site_shape(s) {
        Some(SpawnArgV::Var(name, _)) => {
            tasks_locals_are_locals(closures_bound(control_stmts(cx.scope), name), cx);
        },
        _ => {},
    }
    subset_is_finite(cx.locals, locals);
    subset_is_finite(locals, frozen_of(locals, cx));
    finite_sets_are_listed(frozen_of(locals, cx));
    let out = stmt_rewritten(s, cx).stmts.drop_last();
    assert(out =~= promote_all(locals, span, cx));
    let a = promotions("_cown"@, in_order(locked_of(locals, cx)), span);
    let l = in_order(frozen_of(locals, cx));
    let want = promotion("_freeze"@, v, span);
    assert forall|i: int| 0 <= i < out.len() implies out[i] != want by {
        assert("_cown"@.len() != "_freeze"@.len());
        if i < a.len() {
            assert(out[i] == a[i]);
            assert(callee_of(out[i]) == "_cown"@);
            assert(callee_of(want) == "_freeze"@);
        } else {
            assert(out[i] == promotion("_freeze"@, l[i - a.len()], span));
            assert(l.contains(l[i - a.len()]));
            assert(argument_of(out[i]) == l[i - a.len()]);
            assert(argument_of(want) == v);
        }
    }
}

spec fn callee_of(s: StmtV) -> Seq<char> {
    (*(s->Expr_0->Call_0))->Ident_0
}

spec fn argument_of(s: StmtV) -> Seq<char> {
    s->Expr_0->Call_1[0].expr->Ident_0
}

/// A task runs under the locks of everything that it captures and that may change.
pub proof fn tasks_run_under_their_locks(c: ExprV, cx: ScopeV, v: Seq<char>)
    requires
        cx.locals.finite(),
        c is Closure,
        task_locals((c->Closure_0, as_block(*c->Closure_1)), cx).contains(v),
        needs_lock(v, cx),
    ensures
        exists|body: ExprV, roots: Seq<Seq<char>>|
            roots.contains(v) && task_rewritten(c, cx).expr == #[trigger] locked(body, roots),
{
    let s = task_locals((c->Closure_0, as_block(*c->Closure_1)), cx);
    let held = locked_of(s, cx);
    subset_is_finite(cx.locals, held);
    finite_sets_are_listed(held);
    let roots = in_order(held);
    assert(held.contains(v));
    assert(held != Set::<Seq<char>>::empty());
    assert(roots.contains(v));
    match *c->Closure_1 {
        ExprV::Block(b, bspan) => {
            let inner = crate::acquire::scope_rewritten(
                b.stmts,
                cx.locals,
                cx.fn_params,
                cx.fn_body,
                cx.summaries,
            );
            let body = ExprV::Block(BlockV { stmts: inner.stmts, span: b.span }, bspan);
            assert(task_rewritten(c, cx).expr == locked(body, roots));
        },
        _ => {
            assert(task_rewritten(c, cx).expr == locked(*c->Closure_1, roots));
        },
    }
}

/// Statements are rewritten in place: what a list becomes is what its parts become, in
/// order.
pub proof fn rewriting_is_in_place(a: Seq<StmtV>, b: Seq<StmtV>, cx: ScopeV)
    ensures
        rewritten(a + b, cx) == (Rewritten {
            stmts: rewritten(a, cx).stmts + rewritten(b, cx).stmts,
            errors: rewritten(a, cx).errors + rewritten(b, cx).errors,
        }),
    decreases b.len(),
{
    let all = rewritten(a + b, cx);
    if b.len() == 0 {
        assert(a + b =~= a);
        assert(all.stmts =~= rewritten(a, cx).stmts + rewritten(b, cx).stmts);
        assert(all.errors =~= rewritten(a, cx).errors + rewritten(b, cx).errors);
    } else {
        rewriting_is_in_place(a, b.drop_last(), cx);
        assert((a + b).drop_last() =~= a + b.drop_last());
        assert((a + b).last() == b.last());
        assert(all.stmts =~= rewritten(a, cx).stmts + rewritten(b, cx).stmts);
        assert(all.errors =~= rewritten(a, cx).errors + rewritten(b, cx).errors);
    }
}

/// The error of a spawn whose task cannot be seen through.
pub open spec fn refusal(s: StmtV) -> (Seq<char>, Span) {
    match site_shape(s) {
        Some(SpawnArgV::Var(name, span)) => (UNBOUND_BEFORE@ + name + UNBOUND_AFTER@, span),
        Some(SpawnArgV::Opaque(span)) => (OPAQUE_SPAWN@, span),
        _ => arbitrary(),
    }
}

/// A spawn whose task cannot be seen through is refused.
pub proof fn unseen_tasks_are_refused(ss: Seq<StmtV>, i: int, cx: ScopeV)
    requires
        0 <= i < ss.len(),
        site_shape(ss[i]) is Some,
        !is_seen(ss[i], cx),
    ensures
        rewritten(ss, cx).errors.contains(refusal(ss[i])),
{
    let before = ss.take(i);
    let here = seq![ss[i]];
    let after = ss.skip(i + 1);
    rewriting_is_in_place(before, here, cx);
    rewriting_is_in_place(before + here, after, cx);
    assert(ss =~= before + here + after);
    assert(here.drop_last() =~= Seq::<StmtV>::empty());
    assert(rewritten(Seq::empty(), cx).errors =~= Seq::<(Seq<char>, Span)>::empty());
    let all = rewritten(ss, cx).errors;
    let k = rewritten(before, cx).errors.len() as int;
    assert(stmt_rewritten(ss[i], cx).errors =~= seq![refusal(ss[i])]);
    assert(all[k] == refusal(ss[i]));
}

} // verus!
