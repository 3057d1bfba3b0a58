//! What belongs to tasks: every spawn is seen, what a task captures is what it mentions and does
//! not bind, and what it may not touch is reported.

use vstd::prelude::*;
use crate::anatomy::{every_expression_is_visited, stands_in, Piece};
use crate::ast::{BlockV, ExprV, FieldPatV, MatchArmV, ParamV, PatternV, StmtV};
use crate::closure::{binds, closures_among, closures_in, field_pats_names, idents, names_ident, param_names, pat_names, pats_names};
use crate::names::{finite_sets_are_listed, in_order};
use crate::ownership::{nested, nested_in, nested_in_arms, stmt_size, nested_size};
use crate::precheck::{body_errors, global_errors, lists_errors, scope_errors, span_of_stmt, stmts_errors, touched_globals, vars_errors, GLOBAL_AFTER, GLOBAL_BEFORE};
use crate::span::Span;
use crate::spawn::{as_block, captures, closure_bindings, closures_bound, closures_of, literals_spawned, local_names, site_closure, site_closure_size, site_shape, site_size, sites, spawned_vars, stmt_binds, stmts_bind, vars_spawned, SpawnArgV};
use crate::summaries::{task_captures, task_captures_upto};
use crate::traverse::{control_arms, control_expr, control_stmt, control_stmts, stmts_exprs};
use crate::tree::tree_stmts;

verus! {

// ---- bound names ----

/// The patterns that a pattern is directly made of.
pub open spec fn sub_patterns(p: PatternV) -> Seq<PatternV> {
    match p {
        PatternV::Array(ps, _) => ps,
        PatternV::Record(_, fps, _) => given_patterns(fps),
        _ => Seq::empty(),
    }
}

/// The patterns that are given for fields.
pub open spec fn given_patterns(fps: Seq<FieldPatV>) -> Seq<PatternV>
    decreases fps.len(),
{
    if fps.len() == 0 {
        Seq::empty()
    } else {
        match fps.last().pat {
            Some(p) => given_patterns(fps.drop_last()).push(p),
            None => given_patterns(fps.drop_last()),
        }
    }
}

/// Whether a pattern binds a name itself: it is the name, or names a field without a pattern.
pub open spec fn binds_itself(p: PatternV, n: Seq<char>) -> bool {
    match p {
        PatternV::Binding(m, _) => m == n,
        PatternV::Record(_, fps, _) => exists|i: int|
            0 <= i < fps.len() && (#[trigger] fps[i]).pat is None && fps[i].name == n,
        _ => false,
    }
}

proof fn patterns_bind(ps: Seq<PatternV>, n: Seq<char>)
    ensures
        pats_names(ps).contains(n) <==> exists|i: int|
            0 <= i < ps.len() && pat_names(#[trigger] ps[i]).contains(n),
    decreases ps.len(),
{
    if ps.len() > 0 {
        let front = ps.drop_last();
        patterns_bind(front, n);
        assert(ps[ps.len() - 1] == ps.last());
        if exists|i: int| 0 <= i < front.len() && pat_names(#[trigger] front[i]).contains(n) {
            let i = choose|i: int| 0 <= i < front.len() && pat_names(#[trigger] front[i]).contains(n);
            assert(ps[i] == front[i]);
        }
        if exists|i: int| 0 <= i < ps.len() && pat_names(#[trigger] ps[i]).contains(n) {
            let i = choose|i: int| 0 <= i < ps.len() && pat_names(#[trigger] ps[i]).contains(n);
            if i < front.len() {
                assert(front[i] == ps[i]);
            }
        }
    }
}

proof fn fields_bind(fps: Seq<FieldPatV>, n: Seq<char>)
    ensures
        field_pats_names(fps).contains(n) <==> (exists|i: int|
            0 <= i < fps.len() && (#[trigger] fps[i]).pat is None && fps[i].name == n)
            || pats_names(given_patterns(fps)).contains(n),
    decreases fps.len(),
{
    if fps.len() > 0 {
        let front = fps.drop_last();
        fields_bind(front, n);
        assert(fps[fps.len() - 1] == fps.last());
        if let Some(p) = fps.last().pat {
            assert(given_patterns(fps).drop_last() =~= given_patterns(front));
        }
        if exists|i: int| 0 <= i < front.len() && (#[trigger] front[i]).pat is None && front[i].name == n {
            let i = choose|i: int|
                0 <= i < front.len() && (#[trigger] front[i]).pat is None && front[i].name == n;
            assert(fps[i] == front[i]);
        }
        if exists|i: int| 0 <= i < fps.len() && (#[trigger] fps[i]).pat is None && fps[i].name == n {
            let i = choose|i: int|
                0 <= i < fps.len() && (#[trigger] fps[i]).pat is None && fps[i].name == n;
            if i < front.len() {
                assert(front[i] == fps[i]);
            }
        }
    }
}

/// A pattern binds exactly what it binds itself and what its parts bind.
pub proof fn patterns_bind_by_parts(p: PatternV, n: Seq<char>)
    ensures
        pat_names(p).contains(n) <==> binds_itself(p, n) || exists|i: int|
            0 <= i < sub_patterns(p).len() && pat_names(#[trigger] sub_patterns(p)[i]).contains(n),
{
    patterns_bind(sub_patterns(p), n);
    if let PatternV::Record(_, fps, _) = p {
        fields_bind(fps, n);
    }
}

/// The names of parameters are those that some parameter has.
pub proof fn parameters_are_named(ps: Seq<ParamV>, n: Seq<char>)
    ensures
        param_names(ps).contains(n) <==> exists|i: int|
            0 <= i < ps.len() && (#[trigger] ps[i]).name == n,
    decreases ps.len(),
{
    if ps.len() > 0 {
        let front = ps.drop_last();
        parameters_are_named(front, n);
        assert(ps[ps.len() - 1] == ps.last());
        if exists|i: int| 0 <= i < front.len() && (#[trigger] front[i]).name == n {
            let i = choose|i: int| 0 <= i < front.len() && (#[trigger] front[i]).name == n;
            assert(ps[i] == front[i]);
        }
        if exists|i: int| 0 <= i < ps.len() && (#[trigger] ps[i]).name == n {
            let i = choose|i: int| 0 <= i < ps.len() && (#[trigger] ps[i]).name == n;
            if i < front.len() {
                assert(front[i] == ps[i]);
            }
        }
    }
}

/// Whether a statement binds a name: a `let` by its pattern, a `for` by its variable.
pub open spec fn binds_name(s: StmtV, n: Seq<char>) -> bool {
    match s {
        StmtV::Let { pat, .. } => pat_names(pat).contains(n),
        StmtV::For { var, .. } => var == n,
        _ => false,
    }
}

proof fn statements_bind(cs: Seq<StmtV>, n: Seq<char>)
    ensures
        stmts_bind(cs).contains(n) <==> exists|i: int|
            0 <= i < cs.len() && binds_name(#[trigger] cs[i], n),
    decreases cs.len(),
{
    if cs.len() > 0 {
        let front = cs.drop_last();
        statements_bind(front, n);
        assert(cs[cs.len() - 1] == cs.last());
        assert(stmt_binds(cs.last()).contains(n) == binds_name(cs.last(), n));
        if exists|i: int| 0 <= i < front.len() && binds_name(#[trigger] front[i], n) {
            let i = choose|i: int| 0 <= i < front.len() && binds_name(#[trigger] front[i], n);
            assert(cs[i] == front[i]);
        }
        if exists|i: int| 0 <= i < cs.len() && binds_name(#[trigger] cs[i], n) {
            let i = choose|i: int| 0 <= i < cs.len() && binds_name(#[trigger] cs[i], n);
            if i < front.len() {
                assert(front[i] == cs[i]);
            }
        }
    }
}

/// The locals of a scope are exactly the names that some `let` or `for` in it binds, at any
/// depth outside of closures.
pub proof fn locals_are_bound(ss: Seq<StmtV>, n: Seq<char>)
    ensures
        local_names(ss).contains(n) <==> exists|i: int|
            0 <= i < tree_stmts(ss, false).len() && binds_name(
                #[trigger] tree_stmts(ss, false)[i],
                n,
            ),
{
    statements_bind(tree_stmts(ss, false), n);
}

/// Every identifier that stands anywhere in statements is among the names they mention.
pub proof fn mentions_are_seen(ss: Seq<StmtV>, n: Seq<char>, span: Span)
    requires
        stands_in(Piece::Expr(ExprV::Ident(n, span)), ss),
    ensures
        idents(ss).contains(n),
{
    let e = ExprV::Ident(n, span);
    every_expression_is_visited(ss, e);
    let es = stmts_exprs(ss);
    let i = choose|i: int| 0 <= i < es.len() && es[i] == e;
    assert(names_ident(es[i], n));
}

/// An expression, where it is a closure.
pub open spec fn closure_of(x: ExprV) -> Option<(Seq<ParamV>, BlockV)> {
    match x {
        ExprV::Closure(ps, body, span) => match *body {
            ExprV::Block(b, _) => Some((ps, b)),
            other => Some((ps, BlockV { stmts: seq![StmtV::Expr(other)], span })),
        },
        _ => None,
    }
}

/// The closures among expressions are exactly those that are closures, each with its body as a block.
pub proof fn closures_are_listed(ss: Seq<ExprV>, z: (Seq<ParamV>, BlockV))
    ensures
        closures_among(ss).contains(z) <==> exists|i: int|
            0 <= i < ss.len() && #[trigger] closure_of(ss[i]) == Some(z),
    decreases ss.len(),
{
    let all = closures_among(ss);
    if ss.len() > 0 {
        let front = ss.drop_last();
        let rest = closures_among(front);
        closures_are_listed(front, z);
        assert(ss[ss.len() - 1] == ss.last());
        if rest.contains(z) {
            let k = choose|k: int| 0 <= k < rest.len() && rest[k] == z;
            assert(all[k] == z);
            let i = choose|i: int| 0 <= i < front.len() && #[trigger] closure_of(front[i]) == Some(z);
            assert(closure_of(ss[i]) == Some(z));
        } else if all.contains(z) {
            let k = choose|k: int| 0 <= k < all.len() && all[k] == z;
            if k < rest.len() {
                assert(rest[k] == z);
            }
            assert(closure_of(ss[ss.len() - 1]) == Some(z));
        }
        if exists|i: int| 0 <= i < ss.len() && #[trigger] closure_of(ss[i]) == Some(z) {
            let i = choose|i: int| 0 <= i < ss.len() && #[trigger] closure_of(ss[i]) == Some(z);
            if i < front.len() {
                assert(closure_of(front[i]) == Some(z));
            } else {
                assert(all[all.len() - 1] == z);
            }
        }
    }
}

/// Whether one of some closures binds a name, as a parameter or a local.
pub open spec fn some_closure_binds(cs: Seq<(Seq<ParamV>, BlockV)>, n: Seq<char>) -> bool {
    exists|i: int|
        0 <= i < cs.len() && (param_names((#[trigger] cs[i]).0).contains(n) || local_names(
            cs[i].1.stmts,
        ).contains(n))
}

proof fn closures_bind(cs: Seq<(Seq<ParamV>, BlockV)>, n: Seq<char>)
    ensures
        closure_bindings(cs).contains(n) == some_closure_binds(cs, n),
    decreases cs.len(),
{
    if cs.len() > 0 {
        let front = cs.drop_last();
        closures_bind(front, n);
        assert(cs[cs.len() - 1] == cs.last());
        if some_closure_binds(front, n) {
            let i = choose|i: int|
                0 <= i < front.len() && (param_names((#[trigger] front[i]).0).contains(n)
                    || local_names(front[i].1.stmts).contains(n));
            assert(cs[i] == front[i]);
        }
        if some_closure_binds(cs, n) {
            let i = choose|i: int|
                0 <= i < cs.len() && (param_names((#[trigger] cs[i]).0).contains(n) || local_names(
                    cs[i].1.stmts,
                ).contains(n));
            if i < front.len() {
                assert(front[i] == cs[i]);
            }
        }
    }
}

/// A task captures a name that stands anywhere in it and that neither it nor a closure in it
/// binds, and nothing that one of them binds.
pub proof fn tasks_capture_what_they_mention(
    ss: Seq<StmtV>,
    bound: Set<Seq<char>>,
    n: Seq<char>,
    span: Span,
)
    requires
        stands_in(Piece::Expr(ExprV::Ident(n, span)), ss),
    ensures
        captures(ss, bound).contains(n) <==> !bound.contains(n) && !some_closure_binds(
            closures_in(ss),
            n,
        ),
{
    mentions_are_seen(ss, n, span);
    closures_bind(closures_in(ss), n);
}

// ---- statements of a scope ----

/// The statements of lists and of what they nest, one list after the other.
pub open spec fn lists_flat(ls: Seq<Seq<StmtV>>) -> Seq<StmtV>
    decreases ls.len(),
{
    if ls.len() == 0 {
        Seq::empty()
    } else {
        lists_flat(ls.drop_last()) + control_stmts(ls.last())
    }
}

proof fn flat_both(a: Seq<Seq<StmtV>>, b: Seq<Seq<StmtV>>)
    ensures
        lists_flat(a + b) == lists_flat(a) + lists_flat(b),
    decreases b.len(),
{
    if b.len() == 0 {
        assert(a + b =~= a);
        assert(lists_flat(a) + lists_flat(b) =~= lists_flat(a));
    } else {
        flat_both(a, b.drop_last());
        assert((a + b).drop_last() =~= a + b.drop_last());
        assert((a + b).last() == b.last());
        assert(lists_flat(a + b) =~= lists_flat(a) + lists_flat(b));
    }
}

proof fn flat_one(l: Seq<StmtV>)
    ensures
        lists_flat(seq![l]) == control_stmts(l),
{
    assert(seq![l].drop_last() =~= Seq::<Seq<StmtV>>::empty());
    assert(lists_flat(Seq::<Seq<StmtV>>::empty()) =~= Seq::<StmtV>::empty());
    assert(Seq::<StmtV>::empty() + control_stmts(l) =~= control_stmts(l));
}

proof fn expr_flat(e: ExprV)
    ensures
        control_expr(e) == lists_flat(nested_in(e)),
    decreases e,
{
    match e {
        ExprV::If(_, t, els, _) => {
            flat_one(t.stmts);
            let more: Seq<Seq<StmtV>> = match els {
                Some(x) => nested_in(*x),
                None => Seq::empty(),
            };
            if let Some(x) = els {
                expr_flat(*x);
            }
            flat_both(seq![t.stmts], more);
        },
        ExprV::IfLet(_, _, t, els, _) => {
            flat_one(t.stmts);
            let more: Seq<Seq<StmtV>> = match els {
                Some(x) => nested_in(*x),
                None => Seq::empty(),
            };
            if let Some(x) = els {
                expr_flat(*x);
            }
            flat_both(seq![t.stmts], more);
        },
        ExprV::Block(b, _) => flat_one(b.stmts),
        ExprV::Match(_, arms, _) => arms_flat(arms),
        _ => {},
    }
}

proof fn arms_flat(arms: Seq<MatchArmV>)
    ensures
        control_arms(arms) == lists_flat(nested_in_arms(arms)),
    decreases arms.len(),
{
    if arms.len() > 0 {
        arms_flat(arms.drop_last());
        match arms.last().body {
            ExprV::Block(b, _) => {
                assert(nested_in_arms(arms).drop_last() =~= nested_in_arms(arms.drop_last()));
            },
            _ => {
                assert(control_arms(arms) =~= control_arms(arms.drop_last()));
            },
        }
    }
}

/// The statements of a scope are, for each statement in turn, itself and then those of the
/// lists that it nests.
pub proof fn scopes_are_statements_with_nested_lists(s: StmtV)
    ensures
        control_stmt(s) == seq![s] + lists_flat(nested(s)),
{
    match s {
        StmtV::While { body, .. } => flat_one(body.stmts),
        StmtV::For { body, .. } => flat_one(body.stmts),
        StmtV::Expr(e) => expr_flat(e),
        StmtV::Let { value, .. } => {
            if let Some(e) = value {
                expr_flat(e);
            }
        },
        StmtV::Return(value, _) => {
            if let Some(e) = value {
                expr_flat(e);
            }
        },
        _ => {},
    }
}

/// The body of a loop, of a branch and of a block stands in the scope of the statement.
pub proof fn bodies_are_nested(s: StmtV)
    ensures
        s matches StmtV::While { body, .. } ==> nested(s).contains(body.stmts),
        s matches StmtV::For { body, .. } ==> nested(s).contains(body.stmts),
        s matches StmtV::Expr(ExprV::Block(b, _)) ==> nested(s).contains(b.stmts),
        s matches StmtV::Expr(ExprV::If(_, t, els, _)) ==> nested(s).contains(t.stmts) && (
        els matches Some(x) ==> forall|l: Seq<StmtV>| #[trigger]
            nested(StmtV::Expr(*x)).contains(l) ==> nested(s).contains(l)),
        s matches StmtV::Expr(ExprV::IfLet(_, _, t, els, _)) ==> nested(s).contains(t.stmts) && (
        els matches Some(x) ==> forall|l: Seq<StmtV>| #[trigger]
            nested(StmtV::Expr(*x)).contains(l) ==> nested(s).contains(l)),
        s matches StmtV::Expr(ExprV::Match(_, arms, _)) ==> forall|i: int|
            0 <= i < arms.len() && (#[trigger] arms[i]).body is Block ==> nested(s).contains(
                arms[i].body->Block_0.stmts,
            ),
        s matches StmtV::Let { value: Some(e), .. } ==> nested(s) == nested(StmtV::Expr(e)),
        s matches StmtV::Return(Some(e), _) ==> nested(s) == nested(StmtV::Expr(e)),
{
    let ls = nested(s);
    match s {
        StmtV::While { body, .. } => {
            assert(ls[0] == body.stmts);
        },
        StmtV::For { body, .. } => {
            assert(ls[0] == body.stmts);
        },
        StmtV::Expr(e) => match e {
            ExprV::Block(b, _) => {
                assert(ls[0] == b.stmts);
            },
            ExprV::If(_, t, els, _) => branch_nested(t.stmts, els, ls),
            ExprV::IfLet(_, _, t, els, _) => branch_nested(t.stmts, els, ls),
            ExprV::Match(_, arms, _) => {
                assert forall|i: int| 0 <= i < arms.len() && (#[trigger] arms[i]).body is Block implies nested(
                    s,
                ).contains(arms[i].body->Block_0.stmts) by {
                    arm_nested(arms, i);
                }
            },
            _ => {},
        },
        _ => {},
    }
}

proof fn branch_nested(t: Seq<StmtV>, els: Option<Box<ExprV>>, ls: Seq<Seq<StmtV>>)
    requires
        ls == seq![t] + (match els {
            Some(x) => nested_in(*x),
            None => Seq::empty(),
        }),
    ensures
        ls.contains(t),
        els matches Some(x) ==> forall|l: Seq<StmtV>| #[trigger]
            nested(StmtV::Expr(*x)).contains(l) ==> ls.contains(l),
{
    assert(ls[0] == t);
    if let Some(x) = els {
        let more = nested_in(*x);
        assert forall|l: Seq<StmtV>| #[trigger] nested(StmtV::Expr(*x)).contains(l) implies ls.contains(
            l,
        ) by {
            let i = choose|i: int| 0 <= i < more.len() && more[i] == l;
            assert(ls[1 + i] == l);
        }
    }
}

proof fn arm_nested(arms: Seq<MatchArmV>, i: int)
    requires
        0 <= i < arms.len(),
        arms[i].body is Block,
    ensures
        nested_in_arms(arms).contains(arms[i].body->Block_0.stmts),
    decreases arms.len(),
{
    let all = nested_in_arms(arms);
    let l = arms[i].body->Block_0.stmts;
    if i < arms.len() - 1 {
        let front = arms.drop_last();
        assert(front[i] == arms[i]);
        arm_nested(front, i);
        let rest = nested_in_arms(front);
        let k = choose|k: int| 0 <= k < rest.len() && rest[k] == l;
        assert(all[k] == l);
    } else {
        assert(all[all.len() - 1] == l);
    }
}

// ---- tasks ----

/// The closure that a statement spawns.
pub open spec fn literal_task(x: StmtV) -> Option<(Seq<ParamV>, BlockV)> {
    let value = match x {
        StmtV::Expr(e) => Some(e),
        StmtV::Let { value, .. } => value,
        _ => None,
    };
    match value {
        Some(ExprV::Call(callee, args, _)) => match (*callee, args.len() > 0) {
            (ExprV::Ident(n, _), true) => if n == "spawn"@ {
                match args[0].expr {
                    ExprV::Closure(ps, body, _) => Some((ps, as_block(*body))),
                    _ => None,
                }
            } else {
                None
            },
            _ => None,
        },
        _ => None,
    }
}

/// The tasks that are spawned as literals are exactly the closures given to `spawn` by a statement that is the call or binds its value.
pub proof fn literal_tasks_are_seen(ss: Seq<StmtV>, z: (Seq<ParamV>, BlockV))
    ensures
        literals_spawned(ss).contains(z) <==> exists|i: int|
            0 <= i < ss.len() && #[trigger] literal_task(ss[i]) == Some(z),
    decreases ss.len(),
{
    let all = literals_spawned(ss);
    if ss.len() > 0 {
        let front = ss.drop_last();
        let rest = literals_spawned(front);
        literal_tasks_are_seen(front, z);
        assert(ss[ss.len() - 1] == ss.last());
        if rest.contains(z) {
            let k = choose|k: int| 0 <= k < rest.len() && rest[k] == z;
            assert(all[k] == z);
            let i = choose|i: int| 0 <= i < front.len() && #[trigger] literal_task(front[i]) == Some(z);
            assert(literal_task(ss[i]) == Some(z));
        } else if all.contains(z) {
            let k = choose|k: int| 0 <= k < all.len() && all[k] == z;
            if k < rest.len() {
                assert(rest[k] == z);
            }
            assert(literal_task(ss[ss.len() - 1]) == Some(z));
        }
        if exists|i: int| 0 <= i < ss.len() && #[trigger] literal_task(ss[i]) == Some(z) {
            let i = choose|i: int| 0 <= i < ss.len() && #[trigger] literal_task(ss[i]) == Some(z);
            if i < front.len() {
                assert(literal_task(front[i]) == Some(z));
            } else {
                assert(all[all.len() - 1] == z);
            }
        }
    }
}

/// The closure that a statement binds to a name.
pub open spec fn task_named(x: StmtV, name: Seq<char>) -> Option<(Seq<ParamV>, BlockV)> {
    let value = match x {
        StmtV::Let { pat: PatternV::Binding(n, _), value: Some(v), .. } => if n == name {
            Some(v)
        } else {
            None
        },
        StmtV::Assign { target: ExprV::Ident(n, _), value, .. } => if n == name {
            Some(value)
        } else {
            None
        },
        _ => None,
    };
    match value {
        Some(ExprV::Closure(ps, body, _)) => Some((ps, as_block(*body))),
        _ => None,
    }
}

/// The closures behind a name are exactly those that a `let` or an assignment binds to it.
pub proof fn named_tasks_are_seen(ss: Seq<StmtV>, name: Seq<char>, z: (Seq<ParamV>, BlockV))
    ensures
        closures_bound(ss, name).contains(z) <==> exists|i: int|
            0 <= i < ss.len() && #[trigger] task_named(ss[i], name) == Some(z),
    decreases ss.len(),
{
    let all = closures_bound(ss, name);
    if ss.len() > 0 {
        let front = ss.drop_last();
        let rest = closures_bound(front, name);
        named_tasks_are_seen(front, name, z);
        assert(ss[ss.len() - 1] == ss.last());
        if rest.contains(z) {
            let k = choose|k: int| 0 <= k < rest.len() && rest[k] == z;
            assert(all[k] == z);
            let i = choose|i: int| 0 <= i < front.len() && #[trigger] task_named(front[i], name) == Some(z);
            assert(task_named(ss[i], name) == Some(z));
        } else if all.contains(z) {
            let k = choose|k: int| 0 <= k < all.len() && all[k] == z;
            if k < rest.len() {
                assert(rest[k] == z);
            }
            assert(task_named(ss[ss.len() - 1], name) == Some(z));
        }
        if exists|i: int| 0 <= i < ss.len() && #[trigger] task_named(ss[i], name) == Some(z) {
            let i = choose|i: int| 0 <= i < ss.len() && #[trigger] task_named(ss[i], name) == Some(z);
            if i < front.len() {
                assert(task_named(front[i], name) == Some(z));
            } else {
                assert(all[all.len() - 1] == z);
            }
        }
    }
}

/// Whether a statement spawns what a variable holds.
pub open spec fn spawns_variable(s: StmtV, name: Seq<char>) -> bool {
    site_shape(s) matches Some(SpawnArgV::Var(n, _)) && n == name
}

proof fn variables_spawned(cs: Seq<StmtV>, name: Seq<char>)
    ensures
        vars_spawned(cs).contains(name) <==> exists|i: int|
            0 <= i < cs.len() && spawns_variable(#[trigger] cs[i], name),
        vars_spawned(cs).finite(),
    decreases cs.len(),
{
    if cs.len() > 0 {
        let front = cs.drop_last();
        variables_spawned(front, name);
        assert(cs[cs.len() - 1] == cs.last());
        if exists|i: int| 0 <= i < front.len() && spawns_variable(#[trigger] front[i], name) {
            let i = choose|i: int| 0 <= i < front.len() && spawns_variable(#[trigger] front[i], name);
            assert(cs[i] == front[i]);
        }
        if exists|i: int| 0 <= i < cs.len() && spawns_variable(#[trigger] cs[i], name) {
            let i = choose|i: int| 0 <= i < cs.len() && spawns_variable(#[trigger] cs[i], name);
            if i < front.len() {
                assert(front[i] == cs[i]);
            }
        }
    }
}

proof fn closures_of_name(cs: Seq<StmtV>, names: Seq<Seq<char>>, k: int, c: (Seq<ParamV>, BlockV))
    requires
        0 <= k < names.len(),
        closures_bound(cs, names[k]).contains(c),
    ensures
        closures_of(cs, names).contains(c),
    decreases names.len(),
{
    let front = names.drop_last();
    if k < front.len() {
        assert(front[k] == names[k]);
        closures_of_name(cs, front, k, c);
    }
    held(closures_of(cs, front), closures_bound(cs, names.last()), c);
}

proof fn held<T>(a: Seq<T>, b: Seq<T>, z: T)
    requires
        a.contains(z) || b.contains(z),
    ensures
        (a + b).contains(z),
{
    if a.contains(z) {
        let i = choose|i: int| 0 <= i < a.len() && a[i] == z;
        assert((a + b)[i] == z);
    } else {
        let i = choose|i: int| 0 <= i < b.len() && b[i] == z;
        assert((a + b)[a.len() + i] == z);
    }
}

/// A closure that a statement of a scope spawns, or binds to a name that some statement of the
/// scope spawns, runs as a task of the scope.
pub proof fn spawned_closures_are_tasks(
    ss: Seq<StmtV>,
    s: StmtV,
    by: StmtV,
    name: Seq<char>,
    c: (Seq<ParamV>, BlockV),
)
    requires
        control_stmts(ss).contains(s),
        control_stmts(ss).contains(by),
        literal_task(s) == Some(c) || (task_named(s, name) == Some(c) && spawns_variable(by, name)),
    ensures
        sites(ss).contains(c),
{
    let cs = control_stmts(ss);
    let i = choose|i: int| 0 <= i < cs.len() && cs[i] == s;
    let j = choose|j: int| 0 <= j < cs.len() && cs[j] == by;
    let vars = spawned_vars(ss);
    let names = in_order(vars);
    if literal_task(s) == Some(c) {
        assert(literal_task(cs[i]) == Some(c));
        literal_tasks_are_seen(cs, c);
    } else {
        assert(task_named(cs[i], name) == Some(c));
        named_tasks_are_seen(cs, name, c);
        assert(spawns_variable(cs[j], name));
        variables_spawned(cs, name);
        finite_sets_are_listed(vars);
        assert(names.contains(name));
        let k = choose|k: int| 0 <= k < names.len() && names[k] == name;
        closures_of_name(cs, names, k, c);
    }
    held(closures_of(cs, names), literals_spawned(cs), c);
}

proof fn captures_upto(ss: Seq<StmtV>, i: int, k: int)
    requires
        0 <= i < k <= sites(ss).len(),
    ensures
        ({
            let c = sites(ss)[i];
            &&& captures(c.1.stmts, binds(c.0, c.1.stmts)).subset_of(task_captures_upto(ss, k))
            &&& task_captures(c.1.stmts).subset_of(task_captures_upto(ss, k))
        }),
    decreases k,
{
    site_size(ss, k - 1);
    if i < k - 1 {
        captures_upto(ss, i, k - 1);
    }
}

/// What any task of a scope captures, and what the tasks that it spawns in turn capture, is
/// captured in the scope.
pub proof fn captures_of_tasks_are_captured(ss: Seq<StmtV>, c: (Seq<ParamV>, BlockV), n: Seq<char>)
    requires
        sites(ss).contains(c),
        captures(c.1.stmts, binds(c.0, c.1.stmts)).contains(n) || task_captures(
            c.1.stmts,
        ).contains(n),
    ensures
        task_captures(ss).contains(n),
{
    let all = sites(ss);
    let i = choose|i: int| 0 <= i < all.len() && all[i] == c;
    captures_upto(ss, i, all.len() as int);
}

// ---- errors ----

proof fn stmts_upto(
    ss: Seq<StmtV>,
    i: int,
    k: int,
    all: Seq<StmtV>,
    bound: Set<Seq<char>>,
    written: Set<Seq<char>>,
    z: (Seq<char>, Span),
)
    requires
        0 <= i <= k <= ss.len(),
        stmts_errors(ss, i, all, bound, written).contains(z),
    ensures
        stmts_errors(ss, k, all, bound, written).contains(z),
    decreases k - i,
{
    if i < k {
        stmts_upto(ss, i, k - 1, all, bound, written, z);
        let before = stmts_errors(ss, k - 1, all, bound, written);
        let s = ss[k - 1];
        let x = choose|x: int| 0 <= x < before.len() && before[x] == z;
        assert(stmts_errors(ss, k, all, bound, written)[x] == z);
    }
}

/// A task that is spawned as a literal and mentions a global which is written elsewhere, and
/// which nothing around it binds, is reported at its statement.
pub proof fn written_globals_are_reported(
    ss: Seq<StmtV>,
    k: int,
    all: Seq<StmtV>,
    bound: Set<Seq<char>>,
    written: Set<Seq<char>>,
    n: Seq<char>,
)
    requires
        0 <= k < ss.len(),
        site_shape(ss[k]) == Some(SpawnArgV::Literal),
        written.finite(),
        written.contains(n),
        !bound.contains(n),
        ({
            let body = as_block(site_closure(ss[k])->Some_0.1).stmts;
            captures(body, binds(Seq::empty(), body)).contains(n)
        }),
    ensures
        scope_errors(ss, all, bound, written).contains(
            ("spawned task accesses module global `"@ + n
                + "`, which is written elsewhere; share it through a local value captured by the task"@,
            span_of_stmt(ss[k])),
        ),
{
    let s = ss[k];
    let body = as_block(site_closure(s)->Some_0.1).stmts;
    let touched = captures(body, binds(Seq::empty(), body)).difference(bound).intersect(written);
    vstd::set_lib::lemma_set_subset_finite(written, touched);
    finite_sets_are_listed(touched);
    let ns = touched_globals(body, bound, written);
    assert(touched.contains(n));
    assert(ns.contains(n));
    let x = choose|x: int| 0 <= x < ns.len() && ns[x] == n;
    let z = (GLOBAL_BEFORE@ + n + GLOBAL_AFTER@, span_of_stmt(s));
    site_closure_size(s);
    stmt_size(ss, k);
    let globals = global_errors(ns, span_of_stmt(s));
    assert(globals[x] == z);
    let inner = body_errors(body, span_of_stmt(s), bound, written);
    assert(inner[x] == z);
    held(stmts_errors(ss, k, all, bound, written), inner, z);
    assert(stmts_errors(ss, k + 1, all, bound, written).contains(z));
    stmts_upto(ss, k + 1, ss.len() as int, all, bound, written, z);
    let names = in_order(spawned_vars(ss));
    held(
        stmts_errors(ss, ss.len() as int, all, bound, written),
        vars_errors(names, names.len() as int, ss, all, bound, written),
        z,
    );
}

/// What is reported in a list that a statement nests is reported in the list of the statement,
/// unless the statement spawns or binds a task.
pub proof fn errors_in_nested_lists_are_reported(
    ss: Seq<StmtV>,
    k: int,
    j: int,
    all: Seq<StmtV>,
    bound: Set<Seq<char>>,
    written: Set<Seq<char>>,
    z: (Seq<char>, Span),
)
    requires
        0 <= k < ss.len(),
        0 <= j < nested(ss[k]).len(),
        site_shape(ss[k]) is None,
        !crate::precheck::binds_spawned(ss[k], spawned_vars(ss)),
        scope_errors(nested(ss[k])[j], all, bound, written).contains(z),
    ensures
        scope_errors(ss, all, bound, written).contains(z),
{
    let n = nested(ss[k]).len() as int;
    lists_upto(ss, k, j, n, all, bound, written, z);
    let inner = lists_errors(ss, k, n, all, bound, written);
    let plain = crate::precheck::errors_at(
        crate::precheck::PLAIN_CLOSURE_SPAWN@,
        crate::precheck::stmt_plain_spans(ss[k]),
    );
    held(inner, plain, z);
    held(stmts_errors(ss, k, all, bound, written), inner + plain, z);
    assert(stmts_errors(ss, k + 1, all, bound, written).contains(z));
    stmts_upto(ss, k + 1, ss.len() as int, all, bound, written, z);
    let names = in_order(spawned_vars(ss));
    held(
        stmts_errors(ss, ss.len() as int, all, bound, written),
        vars_errors(names, names.len() as int, ss, all, bound, written),
        z,
    );
}

proof fn lists_upto(
    ss: Seq<StmtV>,
    k: int,
    i: int,
    j: int,
    all: Seq<StmtV>,
    bound: Set<Seq<char>>,
    written: Set<Seq<char>>,
    z: (Seq<char>, Span),
)
    requires
        0 <= k < ss.len(),
        0 <= i < j <= nested(ss[k]).len(),
        scope_errors(nested(ss[k])[i], all, bound, written).contains(z),
    ensures
        lists_errors(ss, k, j, all, bound, written).contains(z),
    decreases j - i,
{
    nested_size(ss[k], j - 1);
    stmt_size(ss, k);
    if i < j - 1 {
        lists_upto(ss, k, i, j - 1, all, bound, written, z);
    }
    held(
        lists_errors(ss, k, j - 1, all, bound, written),
        scope_errors(nested(ss[k])[j - 1], all, bound, written),
        z,
    );
}

} // verus!
