//! Spawn sites: what a `spawn` runs, what it captures, and how large the bodies are
//! compared with the scope they stand in.

use vstd::prelude::*;
use crate::ast::{args_view, clone_params, params_view, stmts_view, ArgV, Block, BlockV, Expr, ExprV, MatchArmV, Param, ParamV, Pattern, PatternV, Stmt, StmtV};
use crate::closure::{binds, block_of_body, body_block, closures_in, closures_view, collect_param_names, collect_pat_names, each_nested_closure, idents, idents_block, names_without, param_names, pat_names};
use crate::names::{in_order, NameSet};
use crate::span::Span;
use crate::text::{str_eq, texts};
use crate::traverse::{all_control_stmts, arg_exprs, arm_exprs, control_arms, control_expr, control_stmt, control_stmts, exprs, stmt_exprs, stmt_refs, stmts_exprs};
use crate::tree::{all_tree_stmts, tree_stmts};

verus! {

// ---- locals ----

/// The names a statement itself binds.
pub open spec fn stmt_binds(s: StmtV) -> Set<Seq<char>> {
    match s {
        StmtV::Let { pat, .. } => pat_names(pat),
        StmtV::For { var, .. } => Set::<Seq<char>>::empty().insert(var),
        _ => Set::empty(),
    }
}

/// The names that statements themselves bind.
pub open spec fn stmts_bind(cs: Seq<StmtV>) -> Set<Seq<char>>
    decreases cs.len(),
{
    if cs.len() == 0 {
        Set::empty()
    } else {
        stmts_bind(cs.drop_last()).union(stmt_binds(cs.last()))
    }
}

/// The names bound by `let` or `for` anywhere in a scope, closures apart.
pub open spec fn local_names(ss: Seq<StmtV>) -> Set<Seq<char>> {
    stmts_bind(tree_stmts(ss, false))
}

/// Add the names bound by `let` or `for` anywhere in a scope.
pub fn collect_local_bindings(stmts: &Vec<Stmt>, out: &mut NameSet)
    ensures
        final(out)@ == old(out)@.union(local_names(stmts_view(stmts@))),
{
    let cs = all_tree_stmts(stmts, false);
    let ghost start = out@;
    let ghost all = stmt_refs(cs@);
    assert(out@ =~= start.union(stmts_bind(all.take(0))));
    for i in 0..cs.len()
        invariant
            all == stmt_refs(cs@),
            out@ == start.union(stmts_bind(all.take(i as int))),
    {
        proof {
            assert(all.take(i + 1).drop_last() =~= all.take(i as int));
            assert(all.take(i + 1).last() == cs[i as int]@);
        }
        match cs[i] {
            Stmt::Let { pat, .. } => collect_pat_names(pat, out),
            Stmt::For { var, .. } => {
                out.insert(var.as_str());
            },
            _ => {},
        }
        assert(out@ =~= start.union(stmts_bind(all.take(i + 1))));
    }
    assert(all.take(cs.len() as int) =~= all);
}

/// The names that closures bind as parameters or locals.
pub open spec fn closure_bindings(cs: Seq<(Seq<ParamV>, BlockV)>) -> Set<Seq<char>>
    decreases cs.len(),
{
    if cs.len() == 0 {
        Set::empty()
    } else {
        closure_bindings(cs.drop_last()).union(param_names(cs.last().0)).union(
            local_names(cs.last().1.stmts),
        )
    }
}

/// The names referenced in a closure body that neither it (by `bound`) nor a
/// closure nested in it binds.
pub open spec fn captures(ss: Seq<StmtV>, bound: Set<Seq<char>>) -> Set<Seq<char>> {
    idents(ss).difference(bound).difference(closure_bindings(closures_in(ss)))
}

/// The names captured by a closure body that binds the names of `bound`.
pub fn captured(body: &Block, bound: &NameSet) -> (r: NameSet)
    ensures
        r@ == captures(body@.stmts, bound@),
{
    let mut refs = NameSet::new();
    idents_block(body, &mut refs);
    let cs = each_nested_closure(body);
    let mut nested = NameSet::new();
    let ghost all = closures_view(cs@);
    assert(nested@ =~= closure_bindings(all.take(0)));
    for i in 0..cs.len()
        invariant
            all == closures_view(cs@),
            nested@ == closure_bindings(all.take(i as int)),
    {
        proof {
            assert(all.take(i + 1).drop_last() =~= all.take(i as int));
            assert(all.take(i + 1).last() == (params_view(cs[i as int].0@), cs[i as int].1@));
            assert(cs[i as int].1@.stmts == stmts_view(cs[i as int].1.stmts@));
        }
        collect_param_names(&cs[i].0, &mut nested);
        collect_local_bindings(&cs[i].1.stmts, &mut nested);
    }
    assert(all.take(cs.len() as int) =~= all);
    let unbound = names_without(&refs, bound);
    let r = names_without(&unbound, &nested);
    assert(refs@ =~= idents(body@.stmts));
    assert(r@ =~= captures(body@.stmts, bound@));
    r
}

// ---- spawn statements ----

/// The expression a statement evaluates as its whole: an expression statement, or
/// the initializer of a `let`.
pub open spec fn whole_value(s: StmtV) -> Option<ExprV> {
    match s {
        StmtV::Expr(e) => Some(e),
        StmtV::Let { value, .. } => value,
        _ => None,
    }
}

pub open spec fn opt_expr(o: Option<&Expr>) -> Option<ExprV> {
    match o {
        Some(e) => Some(e@),
        None => None,
    }
}

/// The expression a statement evaluates as its whole.
pub fn whole_expr(s: &Stmt) -> (r: Option<&Expr>)
    ensures
        opt_expr(r) == whole_value(s@),
{
    match s {
        Stmt::Expr(e) => Some(e),
        Stmt::Let { value, .. } => match value {
            Some(e) => Some(e),
            None => None,
        },
        _ => None,
    }
}

/// Whether `e` is the identifier `spawn`.
pub open spec fn names_spawn(e: ExprV) -> bool {
    match e {
        ExprV::Ident(n, _) => n == "spawn"@,
        _ => false,
    }
}

/// Whether `e` is the identifier `spawn`.
pub fn is_spawn_ident(e: &Expr) -> (r: bool)
    ensures
        r == names_spawn(e@),
{
    match e {
        Expr::Ident(n, _) => str_eq(n.as_str(), "spawn"),
        _ => false,
    }
}

/// The argument shape of a `spawn` statement.
pub enum SpawnArg<'a> {
    /// `spawn(() -> ..)`: the closure literal itself.
    Literal,
    /// `spawn(name)`: a variable that has to resolve to a closure literal bound in
    /// the same scope.
    Var(&'a str, Span),
    /// Anything else.
    Opaque(Span),
}

/// The model of [`SpawnArg`].
pub ghost enum SpawnArgV {
    Literal,
    Var(Seq<char>, Span),
    Opaque(Span),
}

/// The shape of the argument of `e`, if `e` is a `spawn` call.
pub open spec fn arg_shape(e: ExprV) -> Option<SpawnArgV> {
    match e {
        ExprV::Call(callee, args, span) => if names_spawn(*callee) {
            if args.len() == 0 {
                Some(SpawnArgV::Opaque(span))
            } else {
                match args[0].expr {
                    ExprV::Closure(..) => Some(SpawnArgV::Literal),
                    ExprV::Ident(name, ispan) => Some(SpawnArgV::Var(name, ispan)),
                    _ => Some(SpawnArgV::Opaque(args[0].expr.span())),
                }
            }
        } else {
            None
        },
        _ => None,
    }
}

/// The shape of the argument of a `spawn` statement.
pub open spec fn site_shape(s: StmtV) -> Option<SpawnArgV> {
    match whole_value(s) {
        Some(e) => arg_shape(e),
        None => None,
    }
}

pub open spec fn opt_spawn_arg(o: Option<SpawnArg>) -> Option<SpawnArgV> {
    match o {
        Some(SpawnArg::Literal) => Some(SpawnArgV::Literal),
        Some(SpawnArg::Var(n, s)) => Some(SpawnArgV::Var(n@, s)),
        Some(SpawnArg::Opaque(s)) => Some(SpawnArgV::Opaque(s)),
        None => None,
    }
}

fn expr_spawn_arg(e: &Expr) -> (r: Option<SpawnArg<'_>>)
    ensures
        opt_spawn_arg(r) == arg_shape(e@),
{
    match e {
        Expr::Call(callee, args, span) => {
            assert(args_view(args@).len() == args.len());
            if !is_spawn_ident(callee) {
                return None;
            }
            if args.len() == 0 {
                return Some(SpawnArg::Opaque(*span));
            }
            proof {
                assert(args_view(args@)[0] == args[0]@);
                assert(args[0]@.expr == args[0].expr@);
            }
            match &args[0].expr {
                Expr::Closure(..) => Some(SpawnArg::Literal),
                Expr::Ident(name, ispan) => Some(SpawnArg::Var(name.as_str(), *ispan)),
                _ => Some(SpawnArg::Opaque(args[0].expr.span())),
            }
        },
        _ => None,
    }
}

/// If `stmt` is a `spawn` call statement, the shape of its argument.
pub fn spawn_arg(stmt: &Stmt) -> (r: Option<SpawnArg<'_>>)
    ensures
        opt_spawn_arg(r) == site_shape(stmt@),
{
    match whole_expr(stmt) {
        Some(e) => expr_spawn_arg(e),
        None => None,
    }
}

/// The closure that `e` spawns, if `e` is a `spawn` call of a literal.
pub open spec fn expr_closure(e: ExprV) -> Option<(Seq<ParamV>, ExprV)> {
    match e {
        ExprV::Call(callee, args, _) => if names_spawn(*callee) && args.len() > 0 {
            match args[0].expr {
                ExprV::Closure(ps, body, _) => Some((ps, *body)),
                _ => None,
            }
        } else {
            None
        },
        _ => None,
    }
}

/// The closure that a statement spawns, if it is a `spawn` of a literal.
pub open spec fn site_closure(s: StmtV) -> Option<(Seq<ParamV>, ExprV)> {
    match whole_value(s) {
        Some(e) => expr_closure(e),
        None => None,
    }
}

pub open spec fn opt_closure(o: Option<(&Vec<Param>, &Expr)>) -> Option<(Seq<ParamV>, ExprV)> {
    match o {
        Some((ps, body)) => Some((params_view(ps@), body@)),
        None => None,
    }
}

fn expr_spawn_closure(e: &Expr) -> (r: Option<(&Vec<Param>, &Expr)>)
    ensures
        opt_closure(r) == expr_closure(e@),
{
    match e {
        Expr::Call(callee, args, _) => {
            assert(args_view(args@).len() == args.len());
            if !is_spawn_ident(callee) || args.len() == 0 {
                return None;
            }
            proof {
                assert(args_view(args@)[0] == args[0]@);
                assert(args[0]@.expr == args[0].expr@);
            }
            match &args[0].expr {
                Expr::Closure(ps, body, _) => Some((ps, &**body)),
                _ => None,
            }
        },
        _ => None,
    }
}

/// The closure literal that a `spawn` statement runs.
pub fn spawn_closure(stmt: &Stmt) -> (r: Option<(&Vec<Param>, &Expr)>)
    ensures
        opt_closure(r) == site_closure(stmt@),
{
    match whole_expr(stmt) {
        Some(e) => expr_spawn_closure(e),
        None => None,
    }
}

/// A closure body as a block with the span of the body.
pub open spec fn as_block(body: ExprV) -> BlockV {
    body_block(body, body.span())
}

/// A closure body as a block.
pub fn closure_block(body: &Expr) -> (r: Block)
    ensures
        r@ == as_block(body@),
{
    block_of_body(body, body.span())
}

// ---- closures bound to names ----

/// The name a statement binds, by `let` or by plain assignment, and the value.
pub open spec fn binding(s: StmtV) -> Option<(Seq<char>, ExprV)> {
    match s {
        StmtV::Let { pat, value, .. } => match (pat, value) {
            (PatternV::Binding(name, _), Some(v)) => Some((name, v)),
            _ => None,
        },
        StmtV::Assign { target, value, .. } => match target {
            ExprV::Ident(name, _) => Some((name, value)),
            _ => None,
        },
        _ => None,
    }
}

pub open spec fn opt_binding(o: Option<(&str, &Expr)>) -> Option<(Seq<char>, ExprV)> {
    match o {
        Some((n, e)) => Some((n@, e@)),
        None => None,
    }
}

/// The name a statement binds, and the value.
pub fn stmt_binding(s: &Stmt) -> (r: Option<(&str, &Expr)>)
    ensures
        opt_binding(r) == binding(s@),
{
    match s {
        Stmt::Let { pat, value, .. } => match pat {
            Pattern::Binding(name, _) => match value {
                Some(v) => Some((name.as_str(), v)),
                None => None,
            },
            _ => None,
        },
        Stmt::Assign { target, value, .. } => match target {
            Expr::Ident(name, _) => Some((name.as_str(), value)),
            _ => None,
        },
        _ => None,
    }
}

/// The closure a statement binds to `name`.
pub open spec fn bound_closure(s: StmtV, name: Seq<char>) -> Option<(Seq<ParamV>, BlockV)> {
    match binding(s) {
        Some((n, v)) => match v {
            ExprV::Closure(ps, body, _) => if n == name {
                Some((ps, as_block(*body)))
            } else {
                None
            },
            _ => None,
        },
        None => None,
    }
}

/// The closures that statements bind to `name`.
pub open spec fn closures_bound(cs: Seq<StmtV>, name: Seq<char>) -> Seq<(Seq<ParamV>, BlockV)>
    decreases cs.len(),
{
    if cs.len() == 0 {
        Seq::empty()
    } else {
        let rest = closures_bound(cs.drop_last(), name);
        match bound_closure(cs.last(), name) {
            Some(c) => rest.push(c),
            None => rest,
        }
    }
}

fn push_bound_closure(s: &Stmt, name: &str, out: &mut Vec<(Vec<Param>, Block)>)
    ensures
        closures_view(final(out)@) == (match bound_closure(s@, name@) {
            Some(c) => closures_view(old(out)@).push(c),
            None => closures_view(old(out)@),
        }),
{
    let ghost start = closures_view(out@);
    if let Some((n, v)) = stmt_binding(s) {
        if let Expr::Closure(ps, body, _) = v {
            if str_eq(n, name) {
                out.push((clone_params(ps), closure_block(body)));
                assert(closures_view(out@) =~= start.push((params_view(ps@), as_block(body@))));
            }
        }
    }
}

/// Append the closure literals bound to `name` in a scope.
pub fn closure_bindings_of(stmts: &Vec<Stmt>, name: &str, out: &mut Vec<(Vec<Param>, Block)>)
    ensures
        closures_view(final(out)@) == closures_view(old(out)@) + closures_bound(
            control_stmts(stmts_view(stmts@)),
            name@,
        ),
{
    let cs = all_control_stmts(stmts);
    let ghost start = closures_view(out@);
    let ghost all = stmt_refs(cs@);
    assert(start =~= start + closures_bound(all.take(0), name@));
    for i in 0..cs.len()
        invariant
            all == stmt_refs(cs@),
            closures_view(out@) == start + closures_bound(all.take(i as int), name@),
    {
        proof {
            assert(all.take(i + 1).drop_last() =~= all.take(i as int));
            assert(all.take(i + 1).last() == cs[i as int]@);
        }
        push_bound_closure(cs[i], name, out);
        assert(closures_view(out@) =~= start + closures_bound(all.take(i + 1), name@));
    }
    assert(all.take(cs.len() as int) =~= all);
}

/// The names of the variables that statements spawn.
pub open spec fn vars_spawned(cs: Seq<StmtV>) -> Set<Seq<char>>
    decreases cs.len(),
{
    if cs.len() == 0 {
        Set::empty()
    } else {
        let rest = vars_spawned(cs.drop_last());
        match site_shape(cs.last()) {
            Some(SpawnArgV::Var(name, _)) => rest.insert(name),
            _ => rest,
        }
    }
}

/// The names of the variables spawned anywhere in a scope.
pub open spec fn spawned_vars(ss: Seq<StmtV>) -> Set<Seq<char>> {
    vars_spawned(control_stmts(ss))
}

/// The names of the variables spawned anywhere in a scope.
pub fn spawned_var_names(stmts: &Vec<Stmt>) -> (r: NameSet)
    ensures
        r@ == spawned_vars(stmts_view(stmts@)),
{
    let cs = all_control_stmts(stmts);
    let mut out = NameSet::new();
    let ghost all = stmt_refs(cs@);
    for i in 0..cs.len()
        invariant
            all == stmt_refs(cs@),
            out@ == vars_spawned(all.take(i as int)),
    {
        proof {
            assert(all.take(i + 1).drop_last() =~= all.take(i as int));
            assert(all.take(i + 1).last() == cs[i as int]@);
        }
        match spawn_arg(cs[i]) {
            Some(SpawnArg::Var(name, _)) => {
                out.insert(name);
            },
            _ => {},
        }
    }
    assert(all.take(cs.len() as int) =~= all);
    out
}

/// The closures that statements spawn as literals.
pub open spec fn literals_spawned(cs: Seq<StmtV>) -> Seq<(Seq<ParamV>, BlockV)>
    decreases cs.len(),
{
    if cs.len() == 0 {
        Seq::empty()
    } else {
        let rest = literals_spawned(cs.drop_last());
        match site_closure(cs.last()) {
            Some((ps, body)) => rest.push((ps, as_block(body))),
            None => rest,
        }
    }
}

fn push_spawned_literal(s: &Stmt, out: &mut Vec<(Vec<Param>, Block)>)
    ensures
        closures_view(final(out)@) == (match site_closure(s@) {
            Some((ps, body)) => closures_view(old(out)@).push((ps, as_block(body))),
            None => closures_view(old(out)@),
        }),
{
    let ghost start = closures_view(out@);
    match spawn_closure(s) {
        Some((ps, body)) => {
            out.push((clone_params(ps), closure_block(body)));
            assert(closures_view(out@) =~= start.push((params_view(ps@), as_block(body@))));
        },
        None => {},
    }
}

/// The closures bound to each of `names` by `cs`.
pub open spec fn closures_of(cs: Seq<StmtV>, names: Seq<Seq<char>>) -> Seq<(Seq<ParamV>, BlockV)>
    decreases names.len(),
{
    if names.len() == 0 {
        Seq::empty()
    } else {
        closures_of(cs, names.drop_last()) + closures_bound(cs, names.last())
    }
}

/// The closures that run as tasks of a scope: those bound to a variable it spawns,
/// then those it spawns as literals.
pub open spec fn sites(ss: Seq<StmtV>) -> Seq<(Seq<ParamV>, BlockV)> {
    closures_of(control_stmts(ss), in_order(spawned_vars(ss))) + literals_spawned(control_stmts(ss))
}

/// The closures that run as tasks of a scope.
pub fn each_scope_site(stmts: &Vec<Stmt>) -> (r: Vec<(Vec<Param>, Block)>)
    ensures
        closures_view(r@) == sites(stmts_view(stmts@)),
{
    let mut out: Vec<(Vec<Param>, Block)> = Vec::new();
    let vars = spawned_var_names(stmts);
    let names = vars.items();
    let ghost ns = texts(names@);
    let ghost cv = control_stmts(stmts_view(stmts@));
    assert(closures_view(out@) =~= closures_of(cv, ns.take(0)));
    for i in 0..names.len()
        invariant
            ns == texts(names@),
            cv == control_stmts(stmts_view(stmts@)),
            closures_view(out@) == closures_of(cv, ns.take(i as int)),
    {
        proof {
            assert(ns.take(i + 1).drop_last() =~= ns.take(i as int));
            assert(ns.take(i + 1).last() == names[i as int]@);
        }
        closure_bindings_of(stmts, names[i].as_str(), &mut out);
    }
    assert(ns.take(names.len() as int) =~= ns);
    let cs = all_control_stmts(stmts);
    let ghost start = closures_view(out@);
    let ghost all = stmt_refs(cs@);
    assert(start =~= start + literals_spawned(all.take(0)));
    for i in 0..cs.len()
        invariant
            all == stmt_refs(cs@),
            closures_view(out@) == start + literals_spawned(all.take(i as int)),
    {
        proof {
            assert(all.take(i + 1).drop_last() =~= all.take(i as int));
            assert(all.take(i + 1).last() == cs[i as int]@);
        }
        push_spawned_literal(cs[i], &mut out);
        assert(closures_view(out@) =~= start + literals_spawned(all.take(i + 1)));
    }
    assert(all.take(cs.len() as int) =~= all);
    out
}

// ---- sizes ----

/// How many expressions a scope holds.
pub open spec fn size(ss: Seq<StmtV>) -> nat {
    stmts_exprs(ss).len()
}

/// No statement reached through control flow holds more expressions than the scope.
pub proof fn control_stmts_size(ss: Seq<StmtV>, j: int)
    requires
        0 <= j < control_stmts(ss).len(),
    ensures
        stmt_exprs(control_stmts(ss)[j]).len() <= size(ss),
    decreases ss,
{
    if ss.len() > 0 {
        let a = control_stmts(ss.drop_last());
        if j < a.len() {
            control_stmts_size(ss.drop_last(), j);
        } else {
            control_stmt_size(ss.last(), j - a.len());
        }
    }
}

pub proof fn control_stmt_size(s: StmtV, j: int)
    requires
        0 <= j < control_stmt(s).len(),
    ensures
        stmt_exprs(control_stmt(s)[j]).len() <= stmt_exprs(s).len(),
    decreases s,
{
    if j > 0 {
        match s {
            StmtV::While { body, .. } => control_stmts_size(body.stmts, j - 1),
            StmtV::For { body, .. } => control_stmts_size(body.stmts, j - 1),
            StmtV::Expr(e) => control_expr_size(e, j - 1),
            StmtV::Let { value, .. } => {
                if let Some(e) = value {
                    control_expr_size(e, j - 1);
                }
            },
            StmtV::Return(value, _) => {
                if let Some(e) = value {
                    control_expr_size(e, j - 1);
                }
            },
            _ => {},
        }
    }
}

pub proof fn control_expr_size(e: ExprV, j: int)
    requires
        0 <= j < control_expr(e).len(),
    ensures
        stmt_exprs(control_expr(e)[j]).len() < exprs(e).len(),
    decreases e,
{
    match e {
        ExprV::If(_, t, els, _) => {
            let n = control_stmts(t.stmts).len();
            if j < n {
                control_stmts_size(t.stmts, j);
            } else if let Some(x) = els {
                control_expr_size(*x, j - n);
            }
        },
        ExprV::IfLet(_, _, t, els, _) => {
            let n = control_stmts(t.stmts).len();
            if j < n {
                control_stmts_size(t.stmts, j);
            } else if let Some(x) = els {
                control_expr_size(*x, j - n);
            }
        },
        ExprV::Block(b, _) => control_stmts_size(b.stmts, j),
        ExprV::Match(_, arms, _) => control_arms_size(arms, j),
        _ => {},
    }
}

pub proof fn control_arms_size(arms: Seq<MatchArmV>, j: int)
    requires
        0 <= j < control_arms(arms).len(),
    ensures
        stmt_exprs(control_arms(arms)[j]).len() <= arm_exprs(arms).len(),
    decreases arms,
{
    if arms.len() > 0 {
        let a = control_arms(arms.drop_last());
        if j < a.len() {
            control_arms_size(arms.drop_last(), j);
        } else if let ExprV::Block(b, _) = arms.last().body {
            control_stmts_size(b.stmts, j - a.len());
            assert(control_arms(arms)[j] == control_stmts(b.stmts)[j - a.len()]);
            assert(exprs(arms.last().body).len() == 1 + size(b.stmts));
        }
    }
}

/// An argument holds no more expressions than the arguments.
pub proof fn arg_size(args: Seq<ArgV>, i: int)
    requires
        0 <= i < args.len(),
    ensures
        exprs(args[i].expr).len() <= arg_exprs(args).len(),
    decreases args.len(),
{
    if i < args.len() - 1 {
        arg_size(args.drop_last(), i);
        assert(args.drop_last()[i] == args[i]);
    }
}

/// The body of a closure holds fewer expressions than the closure.
pub proof fn body_size(ps: Seq<ParamV>, body: ExprV, span: Span)
    ensures
        size(as_block(body).stmts) < exprs(ExprV::Closure(ps, Box::new(body), span)).len(),
{
    let b = as_block(body);
    assert(exprs(ExprV::Closure(ps, Box::new(body), span)).len() == 1 + exprs(
        body,
    ).len());
    match body {
        ExprV::Block(inner, _) => {
            assert(exprs(body).len() == 1 + stmts_exprs(inner.stmts).len());
        },
        _ => {
            assert(b.stmts.drop_last() =~= Seq::<StmtV>::empty());
            assert(b.stmts.last() == StmtV::Expr(body));
            assert(stmts_exprs(Seq::<StmtV>::empty()).len() == 0);
            assert(stmt_exprs(StmtV::Expr(body)) == exprs(body));
        },
    }
}

/// The body a statement spawns as a literal is smaller than the statement.
pub proof fn site_closure_size(s: StmtV)
    requires
        site_closure(s) is Some,
    ensures
        size(as_block(site_closure(s)->Some_0.1).stmts) < stmt_exprs(s).len(),
{
    let e = whole_value(s)->Some_0;
    match e {
        ExprV::Call(callee, args, _) => {
            arg_size(args, 0);
            if let ExprV::Closure(ps, body, span) = args[0].expr {
                body_size(ps, *body, span);
            }
        },
        _ => {},
    }
    assert(stmt_exprs(s) == exprs(e));
}

/// The body of a closure that a statement binds is smaller than the statement.
pub proof fn bound_closure_size(s: StmtV, name: Seq<char>)
    requires
        bound_closure(s, name) is Some,
    ensures
        size(bound_closure(s, name)->Some_0.1.stmts) < stmt_exprs(s).len(),
{
    let v = binding(s)->Some_0.1;
    if let ExprV::Closure(ps, body, span) = v {
        body_size(ps, *body, span);
        assert(v == ExprV::Closure(ps, Box::new(*body), span));
    }
}

proof fn closures_bound_size(ss: Seq<StmtV>, n: int, name: Seq<char>, k: int)
    requires
        0 <= n <= control_stmts(ss).len(),
        0 <= k < closures_bound(control_stmts(ss).take(n), name).len(),
    ensures
        size(closures_bound(control_stmts(ss).take(n), name)[k].1.stmts) < size(ss),
    decreases n,
{
    let cs = control_stmts(ss);
    if n > 0 {
        assert(cs.take(n).drop_last() =~= cs.take(n - 1));
        assert(cs.take(n).last() == cs[n - 1]);
        if k < closures_bound(cs.take(n - 1), name).len() {
            closures_bound_size(ss, n - 1, name, k);
        } else {
            bound_closure_size(cs[n - 1], name);
            control_stmts_size(ss, n - 1);
        }
    }
}

/// The body of a closure bound in a scope is smaller than the scope.
pub proof fn bound_in_scope_size(ss: Seq<StmtV>, name: Seq<char>, k: int)
    requires
        0 <= k < closures_bound(control_stmts(ss), name).len(),
    ensures
        size(closures_bound(control_stmts(ss), name)[k].1.stmts) < size(ss),
{
    let cs = control_stmts(ss);
    assert(cs.take(cs.len() as int) =~= cs);
    closures_bound_size(ss, cs.len() as int, name, k);
}

proof fn closures_of_size(ss: Seq<StmtV>, names: Seq<Seq<char>>, k: int)
    requires
        0 <= k < closures_of(control_stmts(ss), names).len(),
    ensures
        size(closures_of(control_stmts(ss), names)[k].1.stmts) < size(ss),
    decreases names.len(),
{
    if names.len() > 0 {
        let a = closures_of(control_stmts(ss), names.drop_last());
        if k < a.len() {
            closures_of_size(ss, names.drop_last(), k);
        } else {
            bound_in_scope_size(ss, names.last(), k - a.len());
        }
    }
}

proof fn literals_size(ss: Seq<StmtV>, n: int, k: int)
    requires
        0 <= n <= control_stmts(ss).len(),
        0 <= k < literals_spawned(control_stmts(ss).take(n)).len(),
    ensures
        size(literals_spawned(control_stmts(ss).take(n))[k].1.stmts) < size(ss),
    decreases n,
{
    let cs = control_stmts(ss);
    if n > 0 {
        assert(cs.take(n).drop_last() =~= cs.take(n - 1));
        assert(cs.take(n).last() == cs[n - 1]);
        if k < literals_spawned(cs.take(n - 1)).len() {
            literals_size(ss, n - 1, k);
        } else {
            site_closure_size(cs[n - 1]);
            control_stmts_size(ss, n - 1);
        }
    }
}

/// The body of a task is smaller than the scope that spawns it.
pub proof fn site_size(ss: Seq<StmtV>, k: int)
    requires
        0 <= k < sites(ss).len(),
    ensures
        size(sites(ss)[k].1.stmts) < size(ss),
{
    let cs = control_stmts(ss);
    let a = closures_of(cs, in_order(spawned_vars(ss)));
    if k < a.len() {
        closures_of_size(ss, in_order(spawned_vars(ss)), k);
    } else {
        assert(cs.take(cs.len() as int) =~= cs);
        literals_size(ss, cs.len() as int, k - a.len());
    }
}

} // verus!
