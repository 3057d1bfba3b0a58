//! Automatic ownership analysis for `spawn` captures.
//!
//! A `spawn` runs its closure on a thread of its own, so each captured value is
//! shared between the spawner and that thread. A capture mutated anywhere in the
//! function has to be guarded by a lock; one that nobody mutates can be frozen; one
//! that is not used after the spawn can be handed over.

use vstd::prelude::*;
use std::collections::HashSet;
use crate::ast::{match_arms_view, stmts_view, Block, BlockV, Expr, ExprV, MatchArm, MatchArmV, ParamV, Stmt, StmtV};
use crate::closure::{binds, own_names, collect_idents, idents};
use crate::names::{in_order, lists, NameSet};
use crate::scan::{expr_mentions_any, mentions, mutated, mutates};
use crate::spawn::{as_block, binding, captured, captures, closure_block, collect_local_bindings, local_names, site_closure, site_closure_size, sites, size, spawn_closure, stmt_binding};
use crate::text::{str_lt, text_lt, text_lt_irreflexive, text_lt_total, text_lt_transitive, texts};
use crate::traverse::{expr_refs, exprs, arm_exprs, push_stmt_exprs, stmt_exprs, stmt_refs, stmts_exprs};
use crate::tree::{all_tree_stmts, tree_stmts};

verus! {

broadcast use vstd::std_specs::hash::group_hash_axioms;

/// How a captured value is shared with the spawned thread.
#[derive(Clone, Copy, Debug, PartialEq, Eq, Structural)]
pub enum Ownership {
    /// A local that is not live after the spawn: hand exclusive ownership to the thread.
    Move,
    /// Live after the spawn and mutated by no one: freeze.
    Freeze,
    /// Mutated somewhere in the function, or a parameter, whose other users are not
    /// visible: guard with a lock.
    Cown,
}

/// The ownership of a capture `var` in a function with body `fn_scope` and
/// parameters `params`.
pub open spec fn ownership_of(
    var: Seq<char>,
    live_after: bool,
    fn_scope: Seq<StmtV>,
    params: Set<Seq<char>>,
) -> Ownership {
    if params.contains(var) {
        Ownership::Cown
    } else if !live_after {
        Ownership::Move
    } else if mutated(fn_scope, var) {
        Ownership::Cown
    } else {
        Ownership::Freeze
    }
}

/// Decide ownership for `var` captured by a spawn in a function whose whole body is
/// `fn_scope` and whose parameters are `params`, given whether the variable is
/// still used after the spawn. A parameter is always guarded by a lock: its callers are
/// not visible and may mutate it concurrently.
pub fn decide(var: &str, live_after: bool, fn_scope: &Block, params: &NameSet) -> (r: Ownership)
    ensures
        r == ownership_of(var@, live_after, fn_scope@.stmts, params@),
{
    if params.contains(var) {
        return Ownership::Cown;
    }
    if !live_after {
        return Ownership::Move;
    }
    if mutates(fn_scope, var) {
        Ownership::Cown
    } else {
        Ownership::Freeze
    }
}

/// A capture that may be mutated, or whose other users are not visible, is never
/// frozen.
pub proof fn never_freezes_mutated(
    var: Seq<char>,
    live_after: bool,
    fn_scope: Seq<StmtV>,
    params: Set<Seq<char>>,
)
    requires
        mutated(fn_scope, var) || params.contains(var),
    ensures
        ownership_of(var, live_after, fn_scope, params) != Ownership::Freeze,
{
}

/// Taking a local to be live can only strengthen its protection: what is moved when dead
/// is frozen or locked when live.
pub proof fn liveness_only_upgrades(
    var: Seq<char>,
    fn_scope: Seq<StmtV>,
    params: Set<Seq<char>>,
)
    requires
        !params.contains(var),
    ensures
        ownership_of(var, false, fn_scope, params) == Ownership::Move,
        ownership_of(var, true, fn_scope, params) != Ownership::Move,
{
}

/// A parameter is guarded by a lock, whatever comes after the spawn.
pub proof fn parameters_are_always_guarded(
    var: Seq<char>,
    live_after: bool,
    fn_scope: Seq<StmtV>,
    params: Set<Seq<char>>,
)
    requires
        params.contains(var),
    ensures
        ownership_of(var, live_after, fn_scope, params) == Ownership::Cown,
{
}

// ---- aliases ----

/// Whether `t` holds every name bound to a value that mentions a name of `t`.
pub open spec fn alias_closed(cs: Seq<StmtV>, t: Set<Seq<char>>) -> bool {
    forall|j: int|
        0 <= j < cs.len() ==> match binding(#[trigger] cs[j]) {
            Some((name, value)) => mentions(value, t) ==> t.contains(name),
            None => true,
        }
}

/// The names through which the object that `var` names may be reached: the least
/// set that holds `var` and every name bound, anywhere in the body, to a value that
/// mentions one of them.
pub open spec fn aliases_of(ss: Seq<StmtV>, var: Seq<char>) -> Set<Seq<char>> {
    Set::new(|n: Seq<char>|
        forall|t: Set<Seq<char>>| #[trigger]
            alias_closed(tree_stmts(ss, true), t) && t.contains(var) ==> t.contains(n))
}

/// How many statements bind a name that is not in `t`.
spec fn unheld(cs: Seq<StmtV>, t: Set<Seq<char>>) -> nat
    decreases cs.len(),
{
    if cs.len() == 0 {
        0
    } else {
        unheld(cs.drop_last(), t) + match binding(cs.last()) {
            Some((name, _)) => if t.contains(name) {
                0nat
            } else {
                1nat
            },
            None => 0nat,
        }
    }
}

proof fn unheld_shrinks(cs: Seq<StmtV>, t: Set<Seq<char>>, u: Set<Seq<char>>, j: int)
    requires
        t.subset_of(u),
    ensures
        unheld(cs, u) <= unheld(cs, t),
        0 <= j < cs.len() ==> (binding(cs[j]) matches Some((name, _)) ==> u.contains(name)
            && !t.contains(name) ==> unheld(cs, u) < unheld(cs, t)),
    decreases cs.len(),
{
    if cs.len() > 0 {
        unheld_shrinks(cs.drop_last(), t, u, j);
        if 0 <= j < cs.len() - 1 {
            assert(cs.drop_last()[j] == cs[j]);
        }
    }
}

/// The names through which the object that `var` names may be reached.
pub fn alias_closure(fn_scope: &Block, var: &str) -> (r: NameSet)
    ensures
        r@ == aliases_of(fn_scope@.stmts, var@),
{
    let cs = all_tree_stmts(&fn_scope.stmts, true);
    let ghost all = stmt_refs(cs@);
    let mut handles = NameSet::one(var);
    let mut changed: bool = true;
    while changed
        invariant
            all == stmt_refs(cs@),
            all == tree_stmts(fn_scope@.stmts, true),
            handles@.contains(var@),
            forall|t: Set<Seq<char>>| #[trigger]
                alias_closed(all, t) && t.contains(var@) ==> handles@.subset_of(t),
            !changed ==> alias_closed(all, handles@),
        decreases unheld(all, handles@), (if changed { 1int } else { 0 }),
    {
        changed = false;
        let ghost start = handles@;
        for i in 0..cs.len()
            invariant
                all == stmt_refs(cs@),
                handles@.contains(var@),
                start.subset_of(handles@),
                forall|t: Set<Seq<char>>| #[trigger]
                    alias_closed(all, t) && t.contains(var@) ==> handles@.subset_of(t),
                changed ==> unheld(all, handles@) < unheld(all, start),
                !changed ==> handles@ == start && forall|j: int|
                    0 <= j < i ==> match binding(#[trigger] all[j]) {
                        Some((name, value)) => mentions(value, start) ==> start.contains(name),
                        None => true,
                    },
        {
            assert(all[i as int] == cs[i as int]@);
            if let Some((name, value)) = stmt_binding(cs[i]) {
                if expr_mentions_any(value, &handles) {
                    let ghost before = handles@;
                    let fresh = handles.insert(name);
                    proof {
                        assert forall|t: Set<Seq<char>>| #[trigger]
                            alias_closed(all, t) && t.contains(var@) implies handles@.subset_of(
                            t,
                        ) by {
                            assert(before.subset_of(t));
                            assert(mentions(value@, t));
                            assert(binding(all[i as int]) == Some((name@, value@)));
                        }
                        unheld_shrinks(all, before, handles@, i as int);
                        unheld_shrinks(all, start, before, i as int);
                    }
                    if fresh {
                        changed = true;
                    } else {
                        assert(handles@ =~= before);
                    }
                }
            }
        }
    }
    assert(handles@ =~= aliases_of(fn_scope@.stmts, var@));
    handles
}

// ---- nested statement lists ----

/// The statement lists directly nested in a statement through control flow.
pub open spec fn nested(s: StmtV) -> Seq<Seq<StmtV>> {
    match s {
        StmtV::While { body, .. } => seq![body.stmts],
        StmtV::For { body, .. } => seq![body.stmts],
        StmtV::Expr(e) => nested_in(e),
        StmtV::Let { value, .. } => match value {
            Some(e) => nested_in(e),
            None => Seq::empty(),
        },
        StmtV::Return(value, _) => match value {
            Some(e) => nested_in(e),
            None => Seq::empty(),
        },
        _ => Seq::empty(),
    }
}

/// The statement lists directly nested in an expression through control flow.
pub open spec fn nested_in(e: ExprV) -> Seq<Seq<StmtV>>
    decreases e,
{
    match e {
        ExprV::If(_, t, els, _) => seq![t.stmts] + (match els {
            Some(x) => nested_in(*x),
            None => Seq::empty(),
        }),
        ExprV::IfLet(_, _, t, els, _) => seq![t.stmts] + (match els {
            Some(x) => nested_in(*x),
            None => Seq::empty(),
        }),
        ExprV::Block(b, _) => seq![b.stmts],
        ExprV::Match(_, arms, _) => nested_in_arms(arms),
        _ => Seq::empty(),
    }
}

/// The blocks of match arms.
pub open spec fn nested_in_arms(arms: Seq<MatchArmV>) -> Seq<Seq<StmtV>>
    decreases arms.len(),
{
    if arms.len() == 0 {
        Seq::empty()
    } else {
        let rest = nested_in_arms(arms.drop_last());
        match arms.last().body {
            ExprV::Block(b, _) => rest.push(b.stmts),
            _ => rest,
        }
    }
}

/// The models of borrowed statement lists.
pub open spec fn stmt_lists(v: Seq<&Vec<Stmt>>) -> Seq<Seq<StmtV>> {
    Seq::new(v.len(), |i: int| stmts_view(v[i]@))
}

fn push_list<'a>(b: &'a Block, out: &mut Vec<&'a Vec<Stmt>>)
    ensures
        stmt_lists(final(out)@) == stmt_lists(old(out)@).push(b@.stmts),
{
    let ghost start = stmt_lists(out@);
    out.push(&b.stmts);
    assert(stmt_lists(out@) =~= start.push(b@.stmts));
}

fn push_arm_lists<'a>(arms: &'a Vec<MatchArm>, out: &mut Vec<&'a Vec<Stmt>>)
    ensures
        stmt_lists(final(out)@) == stmt_lists(old(out)@) + nested_in_arms(match_arms_view(arms@)),
{
    let ghost start = stmt_lists(out@);
    let ghost all = match_arms_view(arms@);
    assert(start =~= start + nested_in_arms(all.take(0)));
    for i in 0..arms.len()
        invariant
            all == match_arms_view(arms@),
            stmt_lists(out@) == start + nested_in_arms(all.take(i as int)),
    {
        proof {
            assert(all.take(i + 1).drop_last() =~= all.take(i as int));
            assert(all.take(i + 1).last() == arms[i as int]@);
            assert(arms[i as int]@.body == arms[i as int].body@);
        }
        if let Expr::Block(b, _) = &arms[i].body {
            push_list(b, out);
        }
        assert(stmt_lists(out@) =~= start + nested_in_arms(all.take(i + 1)));
    }
    assert(all.take(arms.len() as int) =~= all);
}

fn push_expr_lists<'a>(e: &'a Expr, out: &mut Vec<&'a Vec<Stmt>>)
    ensures
        stmt_lists(final(out)@) == stmt_lists(old(out)@) + nested_in(e@),
    decreases *e,
{
    let ghost start = stmt_lists(out@);
    match e {
        Expr::If(_, t, els, _) => {
            push_list(t, out);
            if let Some(x) = els {
                push_expr_lists(x, out);
            }
        },
        Expr::IfLet(_, _, t, els, _) => {
            push_list(t, out);
            if let Some(x) = els {
                push_expr_lists(x, out);
            }
        },
        Expr::Block(b, _) => push_list(b, out),
        Expr::Match(_, arms, _) => push_arm_lists(arms, out),
        _ => {},
    }
    assert(stmt_lists(out@) =~= start + nested_in(e@));
}

/// The statement lists directly nested in `stmt` through control flow: loop bodies,
/// branches, `match` arms with block bodies, and block expressions.
pub fn nested_block_stmts<'a>(stmt: &'a Stmt) -> (r: Vec<&'a Vec<Stmt>>)
    ensures
        stmt_lists(r@) == nested(stmt@),
{
    let mut out: Vec<&'a Vec<Stmt>> = Vec::new();
    match stmt {
        Stmt::While { body, .. } => push_list(body, &mut out),
        Stmt::For { body, .. } => push_list(body, &mut out),
        Stmt::Expr(e) => push_expr_lists(e, &mut out),
        Stmt::Let { value, .. } => {
            if let Some(e) = value {
                push_expr_lists(e, &mut out);
            }
        },
        Stmt::Return(value, _) => {
            if let Some(e) = value {
                push_expr_lists(e, &mut out);
            }
        },
        _ => {},
    }
    assert(stmt_lists(out@) =~= nested(stmt@));
    out
}

pub proof fn nested_arms_size(arms: Seq<MatchArmV>, j: int)
    requires
        0 <= j < nested_in_arms(arms).len(),
    ensures
        size(nested_in_arms(arms)[j]) <= arm_exprs(arms).len(),
    decreases arms.len(),
{
    let rest = nested_in_arms(arms.drop_last());
    if j < rest.len() {
        nested_arms_size(arms.drop_last(), j);
    } else if let ExprV::Block(b, _) = arms.last().body {
        assert(exprs(arms.last().body).len() == 1 + size(b.stmts));
    }
}

pub proof fn nested_in_size(e: ExprV, j: int)
    requires
        0 <= j < nested_in(e).len(),
    ensures
        size(nested_in(e)[j]) < exprs(e).len(),
    decreases e,
{
    match e {
        ExprV::If(_, t, els, _) => {
            if let Some(x) = els {
                if j > 0 {
                    nested_in_size(*x, j - 1);
                }
            }
        },
        ExprV::IfLet(_, _, t, els, _) => {
            if let Some(x) = els {
                if j > 0 {
                    nested_in_size(*x, j - 1);
                }
            }
        },
        ExprV::Match(_, arms, _) => nested_arms_size(arms, j),
        _ => {},
    }
}

pub proof fn exprs_not_empty(e: ExprV)
    ensures
        exprs(e).len() >= 1,
{
}

/// A nested statement list is smaller than the statement.
pub proof fn nested_size(s: StmtV, j: int)
    requires
        0 <= j < nested(s).len(),
    ensures
        size(nested(s)[j]) < stmt_exprs(s).len(),
{
    match s {
        StmtV::While { cond, .. } => exprs_not_empty(cond),
        StmtV::For { iter, .. } => exprs_not_empty(iter),
        StmtV::Expr(e) => nested_in_size(e, j),
        StmtV::Let { value, .. } => {
            if let Some(e) = value {
                nested_in_size(e, j);
            }
        },
        StmtV::Return(value, _) => {
            if let Some(e) = value {
                nested_in_size(e, j);
            }
        },
        _ => {},
    }
}

/// A statement holds no more expressions than the list it stands in.
pub proof fn stmt_size(ss: Seq<StmtV>, k: int)
    requires
        0 <= k < ss.len(),
    ensures
        stmt_exprs(ss[k]).len() <= size(ss),
    decreases ss.len(),
{
    if k < ss.len() - 1 {
        stmt_size(ss.drop_last(), k);
        assert(ss.drop_last()[k] == ss[k]);
    }
}

// ---- decisions ----

/// One captured variable's ownership at a `spawn` site.
#[derive(Debug, PartialEq)]
pub struct CaptureDecision {
    pub var: String,
    pub ownership: Ownership,
}

/// The models of capture decisions.
pub open spec fn decisions_view(v: Seq<CaptureDecision>) -> Seq<(Seq<char>, Ownership)> {
    Seq::new(v.len(), |i: int| (v[i].var@, v[i].ownership))
}

/// What decides ownership in a function: the names in scope, the parameters, and
/// the whole body.
pub ghost struct FnScope {
    pub locals: Set<Seq<char>>,
    pub params: Set<Seq<char>>,
    pub body: Seq<StmtV>,
}

/// Whether the object `var` names may still be reached in `rest`.
pub open spec fn live_in(var: Seq<char>, rest: Seq<StmtV>, body: Seq<StmtV>) -> bool {
    exists|h: Seq<char>| #[trigger] aliases_of(body, var).contains(h) && idents(rest).contains(h)
}

/// The captures of a spawned closure that are locals, in order.
pub open spec fn local_captures(ps: Seq<ParamV>, b: BlockV, locals: Set<Seq<char>>) -> Seq<
    Seq<char>,
> {
    in_order(captures(b.stmts, binds(ps, b.stmts)).intersect(locals))
}

/// The decisions at a site that spawns the closure `(ps, body)` and is followed by
/// `rest`.
pub open spec fn site_decisions(
    ps: Seq<ParamV>,
    body: ExprV,
    rest: Seq<StmtV>,
    cx: FnScope,
) -> Seq<(Seq<char>, Ownership)> {
    let caps = local_captures(ps, as_block(body), cx.locals);
    Seq::new(
        caps.len(),
        |i: int| (caps[i], ownership_of(caps[i], live_in(caps[i], rest, cx.body), cx.body, cx.params)),
    )
}

/// The decisions at the spawn sites of the first `k` statements: of the lists nested
/// in a statement, then of the closure it spawns, then its own.
pub open spec fn decisions_upto(ss: Seq<StmtV>, k: int, cx: FnScope) -> Seq<(Seq<char>, Ownership)>
    decreases size(ss), k, 0int,
{
    if k <= 0 || k > ss.len() {
        Seq::empty()
    } else {
        let s = ss[k - 1];
        decisions_upto(ss, k - 1, cx) + decisions_nested(ss, k - 1, nested(s).len() as int, cx) + (
        match site_closure(s) {
            Some((ps, body)) => {
                proof {
                    site_closure_size(s);
                    stmt_size(ss, k - 1);
                }
                decisions_upto(as_block(body).stmts, as_block(body).stmts.len() as int, cx)
                    + site_decisions(ps, body, ss.skip(k), cx)
            },
            None => Seq::empty(),
        })
    }
}

/// The decisions in the first `j` lists nested in statement `k`.
pub open spec fn decisions_nested(ss: Seq<StmtV>, k: int, j: int, cx: FnScope) -> Seq<
    (Seq<char>, Ownership),
>
    decreases size(ss), k, j,
{
    if k < 0 || k >= ss.len() || j <= 0 || j > nested(ss[k]).len() {
        Seq::empty()
    } else {
        proof {
            nested_size(ss[k], j - 1);
            stmt_size(ss, k);
        }
        let list = nested(ss[k])[j - 1];
        decisions_nested(ss, k, j - 1, cx) + decisions_upto(list, list.len() as int, cx)
    }
}

/// The decisions at the spawn sites of a function body, site by site.
pub open spec fn site_by_site(ss: Seq<StmtV>, params: Set<Seq<char>>) -> Seq<
    (Seq<char>, Ownership),
> {
    decisions_upto(
        ss,
        ss.len() as int,
        FnScope { locals: params.union(local_names(ss)), params, body: ss },
    )
}

/// `ds` with `d` behind the last decision whose name does not come after its own.
pub open spec fn filed(ds: Seq<(Seq<char>, Ownership)>, d: (Seq<char>, Ownership)) -> Seq<
    (Seq<char>, Ownership),
>
    decreases ds.len(),
{
    if ds.len() > 0 && text_lt(d.0, ds.last().0) {
        filed(ds.drop_last(), d).push(ds.last())
    } else {
        ds.push(d)
    }
}

/// Decisions in the order of their names; those on one name stay in order.
pub open spec fn by_name(ds: Seq<(Seq<char>, Ownership)>) -> Seq<(Seq<char>, Ownership)>
    decreases ds.len(),
{
    if ds.len() == 0 {
        Seq::empty()
    } else {
        filed(by_name(ds.drop_last()), ds.last())
    }
}

/// The decisions at the spawn sites of a function body, sorted by variable name.
pub open spec fn spawn_decisions(ss: Seq<StmtV>, params: Set<Seq<char>>) -> Seq<
    (Seq<char>, Ownership),
> {
    by_name(site_by_site(ss, params))
}

/// Whether no name comes before an earlier one.
pub open spec fn in_name_order(ds: Seq<(Seq<char>, Ownership)>) -> bool {
    forall|i: int, j: int|
        0 <= i < j < ds.len() ==> !text_lt((#[trigger] ds[j]).0, (#[trigger] ds[i]).0)
}

proof fn filing_keeps_order(ds: Seq<(Seq<char>, Ownership)>, d: (Seq<char>, Ownership))
    requires
        in_name_order(ds),
    ensures
        in_name_order(filed(ds, d)),
        filed(ds, d).to_multiset() == ds.to_multiset().insert(d),
        forall|i: int|
            0 <= i < filed(ds, d).len() ==> (#[trigger] filed(ds, d)[i]) == d || ds.contains(
                filed(ds, d)[i],
            ),
    decreases ds.len(),
{
    broadcast use vstd::seq_lib::group_to_multiset_ensures;

    let r = filed(ds, d);
    if ds.len() > 0 && text_lt(d.0, ds.last().0) {
        let front = ds.drop_last();
        let f = filed(front, d);
        filing_keeps_order(front, d);
        assert(r == f.push(ds.last()));
        assert(ds =~= front.push(ds.last()));
        assert(r.to_multiset() =~= ds.to_multiset().insert(d));
        assert forall|i: int| 0 <= i < r.len() implies (#[trigger] r[i]) == d || ds.contains(
            r[i],
        ) by {
            if i < f.len() {
                assert(r[i] == f[i]);
                if f[i] != d {
                    let k = choose|k: int| 0 <= k < front.len() && front[k] == f[i];
                    assert(ds[k] == r[i]);
                }
            } else {
                assert(ds[ds.len() - 1] == r[i]);
            }
        }
        assert forall|i: int, j: int| 0 <= i < j < r.len() implies !text_lt(
            (#[trigger] r[j]).0,
            (#[trigger] r[i]).0,
        ) by {
            if j < f.len() {
                assert(r[j] == f[j] && r[i] == f[i]);
            } else {
                assert(r[j] == ds.last());
                assert(r[i] == f[i]);
                if f[i] == d {
                    text_lt_asymmetric(d.0, ds.last().0);
                } else {
                    let k = choose|k: int| 0 <= k < front.len() && front[k] == f[i];
                    assert(ds[k] == f[i]);
                    assert(ds[ds.len() - 1] == ds.last());
                }
            }
        }
    } else {
        assert forall|i: int| 0 <= i < r.len() implies (#[trigger] r[i]) == d || ds.contains(
            r[i],
        ) by {
            if i < ds.len() {
                assert(ds[i] == r[i]);
            }
        }
        assert forall|i: int, j: int| 0 <= i < j < r.len() implies !text_lt(
            (#[trigger] r[j]).0,
            (#[trigger] r[i]).0,
        ) by {
            assert(r[i] == ds[i]);
            if j < ds.len() {
                assert(r[j] == ds[j]);
            } else {
                let last = ds.last();
                assert(r[j] == d);
                assert(ds[ds.len() - 1] == last);
                if text_lt(d.0, ds[i].0) {
                    text_lt_total(d.0, last.0);
                    if text_lt(last.0, d.0) {
                        text_lt_transitive(last.0, d.0, ds[i].0);
                    } else {
                        assert(last.0 == d.0);
                    }
                    if i == ds.len() - 1 {
                        assert(false);
                    } else {
                        assert(!text_lt(ds[ds.len() - 1].0, ds[i].0));
                    }
                }
            }
        }
    }
}

proof fn text_lt_asymmetric(a: Seq<char>, b: Seq<char>)
    requires
        text_lt(a, b),
    ensures
        !text_lt(b, a),
{
    if text_lt(b, a) {
        text_lt_transitive(a, b, a);
        text_lt_irreflexive(a);
    }
}

/// Decisions are reported in the order of their names, each as often as it was made.
pub proof fn decisions_are_sorted(ss: Seq<StmtV>, params: Set<Seq<char>>)
    ensures
        in_name_order(spawn_decisions(ss, params)),
        spawn_decisions(ss, params).to_multiset() == site_by_site(ss, params).to_multiset(),
{
    naming_sorts(site_by_site(ss, params));
}

proof fn naming_sorts(ds: Seq<(Seq<char>, Ownership)>)
    ensures
        in_name_order(by_name(ds)),
        by_name(ds).to_multiset() == ds.to_multiset(),
    decreases ds.len(),
{
    broadcast use vstd::seq_lib::group_to_multiset_ensures;

    if ds.len() > 0 {
        naming_sorts(ds.drop_last());
        filing_keeps_order(by_name(ds.drop_last()), ds.last());
        assert(ds =~= ds.drop_last().push(ds.last()));
    } else {
        assert(by_name(ds) =~= ds);
    }
}

fn file(v: &mut Vec<CaptureDecision>, d: CaptureDecision)
    ensures
        decisions_view(final(v)@) == filed(decisions_view(old(v)@), (d.var@, d.ownership)),
{
    let ghost all = decisions_view(v@);
    let ghost dv = (d.var@, d.ownership);
    let mut p: usize = v.len();
    proof {
        assert(all.take(p as int) =~= all);
        assert(filed(all, dv) + all.skip(p as int) =~= filed(all, dv));
    }
    while p > 0 && str_lt(d.var.as_str(), v[p - 1].var.as_str())
        invariant
            p <= v.len(),
            all == decisions_view(v@),
            dv == (d.var@, d.ownership),
            filed(all, dv) == filed(all.take(p as int), dv) + all.skip(p as int),
        decreases p,
    {
        proof {
            let t = all.take(p as int);
            assert(t.drop_last() =~= all.take(p - 1));
            assert(t.last() == all[p - 1]);
            assert(all[p - 1] == (v[p - 1].var@, v[p - 1].ownership));
            assert(filed(t, dv) == filed(t.drop_last(), dv).push(t.last()));
            assert(filed(t.drop_last(), dv).push(t.last()) + all.skip(p as int) =~= filed(
                all.take(p - 1),
                dv,
            ) + all.skip(p - 1));
        }
        p = p - 1;
    }
    proof {
        let t = all.take(p as int);
        if p > 0 {
            assert(t.last() == all[p - 1]);
            assert(all[p - 1] == (v[p - 1].var@, v[p - 1].ownership));
        }
        assert(filed(t, dv) == t.push(dv));
    }
    v.insert(p, d);
    assert(decisions_view(v@) =~= all.take(p as int).push(dv) + all.skip(p as int));
}

fn sort_by_name(ds: Vec<CaptureDecision>) -> (r: Vec<CaptureDecision>)
    ensures
        decisions_view(r@) == by_name(decisions_view(ds@)),
{
    let ghost all = decisions_view(ds@);
    let mut out: Vec<CaptureDecision> = Vec::new();
    assert(decisions_view(out@) =~= by_name(all.take(0)));
    for i in 0..ds.len()
        invariant
            all == decisions_view(ds@),
            decisions_view(out@) == by_name(all.take(i as int)),
    {
        proof {
            assert(all.take(i + 1).drop_last() =~= all.take(i as int));
            assert(all.take(i + 1).last() == all[i as int]);
        }
        file(&mut out, CaptureDecision { var: ds[i].var.clone(), ownership: ds[i].ownership });
    }
    assert(all.take(ds.len() as int) =~= all);
    out
}

/// The names of `a` that are also in `b`.
pub fn names_within(a: &NameSet, b: &NameSet) -> (r: NameSet)
    ensures
        r@ == a@.intersect(b@),
{
    let mut out = NameSet::new();
    let items = a.items();
    let ghost all = texts(items@);
    for i in 0..items.len()
        invariant
            all == texts(items@),
            lists(all, a@),
            forall|n: Seq<char>|
                out@.contains(n) <==> b@.contains(n) && exists|j: int|
                    0 <= j < i && #[trigger] all[j] == n,
    {
        let ghost before = out@;
        assert(all[i as int] == items[i as int]@);
        if b.contains(items[i].as_str()) {
            out.insert(items[i].as_str());
        }
    }
    proof {
        assert forall|n: Seq<char>| out@.contains(n) <==> a@.intersect(b@).contains(n) by {
            if a@.contains(n) {
                assert(all.contains(n));
                let j = choose|j: int| 0 <= j < all.len() && all[j] == n;
                assert(all[j] == n);
            }
            if out@.contains(n) {
                assert(all.contains(n));
            }
        }
        assert(out@ =~= a@.intersect(b@));
    }
    out
}

/// The identifiers referenced in the statements from position `k` on.
fn idents_from(v: &Vec<Stmt>, k: usize) -> (r: NameSet)
    requires
        k <= v.len(),
    ensures
        r@ == idents(stmts_view(v@).skip(k as int)),
{
    let mut es: Vec<&Expr> = Vec::new();
    let ghost all = stmts_view(v@);
    let ghost tail = all.skip(k as int);
    assert(expr_refs(es@) =~= stmts_exprs(tail.take(0)));
    for j in k..v.len()
        invariant
            k <= v.len(),
            all == stmts_view(v@),
            tail == all.skip(k as int),
            expr_refs(es@) == stmts_exprs(tail.take(j - k)),
    {
        proof {
            assert(tail.take(j + 1 - k).drop_last() =~= tail.take(j - k));
            assert(tail.take(j + 1 - k).last() == v[j as int]@);
        }
        push_stmt_exprs(&v[j], &mut es);
    }
    assert(tail.take(v.len() - k) =~= tail);
    let mut out = NameSet::new();
    collect_idents(&es, &mut out);
    assert(out@ =~= idents(tail));
    out
}

fn is_live(var: &str, refs: &NameSet, fn_scope: &Block, Ghost(rest): Ghost<Seq<StmtV>>) -> (r: bool)
    requires
        refs@ == idents(rest),
    ensures
        r == live_in(var@, rest, fn_scope@.stmts),
{
    let handles = alias_closure(fn_scope, var);
    let common = names_within(&handles, refs);
    let r = !common.is_empty();
    proof {
        if r {
            let h = choose|h: Seq<char>| common@.contains(h);
            assert(common@ != Set::<Seq<char>>::empty());
            if forall|h: Seq<char>| !common@.contains(h) {
                assert(common@ =~= Set::<Seq<char>>::empty());
            }
            assert(aliases_of(fn_scope@.stmts, var@).contains(h));
        } else if live_in(var@, rest, fn_scope@.stmts) {
            let h = choose|h: Seq<char>| #[trigger]
                aliases_of(fn_scope@.stmts, var@).contains(h) && idents(rest).contains(h);
            assert(common@.contains(h));
        }
    }
    r
}

fn push_site_decisions(
    v: &Vec<Stmt>,
    i: usize,
    locals: &NameSet,
    params: &NameSet,
    fn_scope: &Block,
    out: &mut Vec<CaptureDecision>,
)
    requires
        i < v.len(),
    ensures
        decisions_view(final(out)@) == decisions_view(old(out)@) + (match site_closure(v[i as int]@) {
            Some((ps, body)) => site_decisions(
                ps,
                body,
                stmts_view(v@).skip(i + 1),
                FnScope { locals: locals@, params: params@, body: fn_scope@.stmts },
            ),
            None => Seq::empty(),
        }),
{
    let ghost start = decisions_view(out@);
    let ghost rest = stmts_view(v@).skip(i + 1);
    let ghost cx = FnScope { locals: locals@, params: params@, body: fn_scope@.stmts };
    match spawn_closure(&v[i]) {
        Some((ps, body)) => {
            let block = closure_block(body);
            let bound = own_names(ps, &block);
            let caps = captured(&block, &bound);
            let caps = names_within(&caps, locals);
            let names = caps.items();
            let refs = idents_from(v, i + 1);
            let ghost ns = texts(names@);
            let ghost want = site_decisions(crate::ast::params_view(ps@), body@, rest, cx);
            assert(start =~= start + want.take(0));
            for k in 0..names.len()
                invariant
                    ns == texts(names@),
                    refs@ == idents(rest),
                    cx == (FnScope { locals: locals@, params: params@, body: fn_scope@.stmts }),
                    ns == local_captures(crate::ast::params_view(ps@), as_block(body@), cx.locals),
                    want == site_decisions(crate::ast::params_view(ps@), body@, rest, cx),
                    decisions_view(out@) == start + want.take(k as int),
            {
                let live = is_live(names[k].as_str(), &refs, fn_scope, Ghost(rest));
                let ownership = decide(names[k].as_str(), live, fn_scope, params);
                let ghost before = decisions_view(out@);
                out.push(CaptureDecision { var: names[k].clone(), ownership });
                proof {
                    assert(ns[k as int] == names[k as int]@);
                    assert(decisions_view(out@) =~= before.push((names[k as int]@, ownership)));
                    assert(want[k as int] == (ns[k as int], ownership));
                    assert(want.take(k + 1) =~= want.take(k as int).push(want[k as int]));
                    assert(decisions_view(out@) =~= start + want.take(k + 1));
                }
            }
            assert(want.take(names.len() as int) =~= want);
        },
        None => {
            assert(start =~= start + Seq::<(Seq<char>, Ownership)>::empty());
        },
    }
}

#[verifier::rlimit(60)]
#[verifier::spinoff_prover]
fn analyze_block(
    v: &Vec<Stmt>,
    locals: &NameSet,
    params: &NameSet,
    fn_scope: &Block,
    out: &mut Vec<CaptureDecision>,
)
    ensures
        decisions_view(final(out)@) == decisions_view(old(out)@) + decisions_upto(
            stmts_view(v@),
            v.len() as int,
            FnScope { locals: locals@, params: params@, body: fn_scope@.stmts },
        ),
    decreases size(stmts_view(v@)),
{
    let ghost start = decisions_view(out@);
    let ghost ss = stmts_view(v@);
    let ghost cx = FnScope { locals: locals@, params: params@, body: fn_scope@.stmts };
    assert(start =~= start + decisions_upto(ss, 0, cx));
    for i in 0..v.len()
        invariant
            ss == stmts_view(v@),
            cx == (FnScope { locals: locals@, params: params@, body: fn_scope@.stmts }),
            decisions_view(out@) == start + decisions_upto(ss, i as int, cx),
    {
        let ghost s = v[i as int]@;
        assert(ss[i as int] == s);
        let lists = nested_block_stmts(&v[i]);
        let ghost here = decisions_view(out@);
        assert(here =~= here + decisions_nested(ss, i as int, 0, cx));
        for j in 0..lists.len()
            invariant
                i < v.len(),
                ss == stmts_view(v@),
                s == v[i as int]@,
                ss[i as int] == s,
                cx == (FnScope { locals: locals@, params: params@, body: fn_scope@.stmts }),
                stmt_lists(lists@) == nested(s),
                decisions_view(out@) == here + decisions_nested(ss, i as int, j as int, cx),
        {
            proof {
                nested_size(s, j as int);
                stmt_size(ss, i as int);
                assert(nested(s)[j as int] == stmts_view(lists[j as int]@));
            }
            analyze_block(lists[j], locals, params, fn_scope, out);
            assert(decisions_view(out@) =~= here + decisions_nested(ss, i as int, j + 1, cx));
        }
        let ghost mid = decisions_view(out@);
        match spawn_closure(&v[i]) {
            Some((_, body)) => {
                let block = closure_block(body);
                proof {
                    site_closure_size(s);
                    stmt_size(ss, i as int);
                    assert(block@.stmts == stmts_view(block.stmts@));
                }
                analyze_block(&block.stmts, locals, params, fn_scope, out);
            },
            None => {
                assert(mid =~= mid + Seq::<(Seq<char>, Ownership)>::empty());
            },
        }
        push_site_decisions(v, i, locals, params, fn_scope, out);
        assert(decisions_view(out@) =~= start + decisions_upto(ss, i + 1, cx));
    }
}

/// As [`analyze_spawns`], over a bare statement list.
pub fn analyze_spawns_stmts(stmts: &Vec<Stmt>, params: &NameSet) -> (r: Vec<CaptureDecision>)
    ensures
        decisions_view(r@) == spawn_decisions(stmts_view(stmts@), params@),
{
    let mut locals = params.copy();
    collect_local_bindings(stmts, &mut locals);
    let fn_scope = stmts_block(stmts);
    let mut out: Vec<CaptureDecision> = Vec::new();
    analyze_block(stmts, &locals, params, &fn_scope, &mut out);
    assert(decisions_view(out@) =~= site_by_site(stmts_view(stmts@), params@));
    sort_by_name(out)
}

/// A whole statement list viewed as one block.
pub fn stmts_block(stmts: &Vec<Stmt>) -> (r: Block)
    ensures
        r@.stmts == stmts_view(stmts@),
{
    Block { stmts: crate::ast::clone_stmts(stmts), span: crate::span::Span::new(0, 0) }
}

/// Decide ownership for every `spawn` capture reachable in a function body. A
/// capture counts as live after its spawn when a later statement of the same list
/// references it or an alias of it. The decisions are sorted by variable name.
pub fn analyze_spawns(body: &Block, params: &NameSet) -> (r: Vec<CaptureDecision>)
    ensures
        decisions_view(r@) == spawn_decisions(body@.stmts, params@),
{
    analyze_spawns_stmts(&body.stmts, params)
}

} // verus!
