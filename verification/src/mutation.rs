//! Parameter-mutation analysis over a collected program.
//!
//! A parameter (or a method's `self`) is *mutated* when the body writes through
//! the reference it names: by a field or element assignment (`p.f = ..`,
//! `p[i] = ..`), by a built-in growable-array mutator (`p.push(..)`), or by
//! forwarding the parameter into a callee position already known to mutate it.
//! An unannotated parameter that is not mutated is a shared borrow; a mutated one
//! is a private deep copy; a mutated `self` is a mutable reference.

use vstd::prelude::*;
use std::collections::HashSet;
use crate::ast::{args_view, expr_view, exprs_view, match_arms_view, named_exprs_view, stmts_view, str_segs_view, Arg, ArgV, Block, Expr, ExprV, MatchArm, MatchArmV, Stmt, StmtV, StrSeg, StrSegV, TypeExpr, TypeExprV, type_expr_view};
use crate::hir::{function_in, named_fun_infos_view, named_method_infos_view, named_type_infos_view, pairs_view, variant_infos_view, FunInfo, FunInfoV, MethodInfo, MethodInfoV, ParamInfo, ParamInfoV, Program, ProgramV, TypeInfoV, TypeKind, TypeKindV, VariantInfo, VariantInfoV};
use crate::table::find_key;
use crate::positions::{is_recorded, no_empty_entry, nonempty, open_positions, open_positions_shrinks, record, recorded, Positions};
use crate::text::{str_eq, texts};
use crate::traverse::{all_stmts_exprs, expr_refs, stmts_exprs};
use crate::types::{type_view, Type, TypeV};

verus! {

broadcast use vstd::std_specs::hash::group_hash_axioms;

// ---- places ----

/// The name that `self` is rooted at.
pub const SELF_NAME: &'static str = "self";

/// The base identifier a place expression is rooted at (`a.b[c]` is rooted at `a`).
pub open spec fn root_of(e: ExprV) -> Option<Seq<char>>
    decreases e,
{
    match e {
        ExprV::Ident(name, _) => Some(name),
        ExprV::SelfExpr(_) => Some(SELF_NAME@),
        ExprV::Field(base, _, _) => root_of(*base),
        ExprV::Index(base, _, _) => root_of(*base),
        _ => None,
    }
}

/// The text an optional name holds.
pub open spec fn opt_str(o: Option<&str>) -> Option<Seq<char>> {
    match o {
        Some(s) => Some(s@),
        None => None,
    }
}

/// The base identifier a place expression is rooted at.
pub fn root_ident(expr: &Expr) -> (r: Option<&str>)
    ensures
        opt_str(r) == root_of(expr@),
    decreases *expr,
{
    match expr {
        Expr::Ident(name, _) => Some(name.as_str()),
        Expr::SelfExpr(_) => Some(SELF_NAME),
        Expr::Field(base, _, _) => root_ident(base),
        Expr::Index(base, _, _) => root_ident(base),
        _ => None,
    }
}

/// Whether `expr` is a place rooted at `root`.
pub fn rooted_at(expr: &Expr, root: &str) -> (r: bool)
    ensures
        r == (root_of(expr@) == Some(root@)),
{
    match root_ident(expr) {
        Some(n) => str_eq(n, root),
        None => false,
    }
}

/// The built-in growable-array mutators.
pub open spec fn mutator_name(method: Seq<char>) -> bool {
    method == "push"@ || method == "insert"@ || method == "remove"@ || method == "pop"@
}

/// Whether `method` is a built-in that mutates its receiver in place.
pub fn is_builtin_mutating_method(method: &str) -> (r: bool)
    ensures
        r == mutator_name(method@),
{
    str_eq(method, "push") || str_eq(method, "insert") || str_eq(method, "remove") || str_eq(
        method,
        "pop",
    )
}

/// Whether `callee` names a built-in mutator of a place rooted at `root`.
pub open spec fn mutator_callee(callee: ExprV, root: Seq<char>) -> bool {
    match callee {
        ExprV::Field(recv, m, _) => mutator_name(m) && root_of(*recv) == Some(root),
        _ => false,
    }
}

fn is_mutator_callee(callee: &Expr, root: &str) -> (r: bool)
    ensures
        r == mutator_callee(callee@, root@),
{
    match callee {
        Expr::Field(recv, m, _) => is_builtin_mutating_method(m.as_str()) && rooted_at(recv, root),
        _ => false,
    }
}

// ---- writes through a name ----

/// Whether a statement list writes through `name`: a field or element store, a built-in
/// mutator, or a write through the variable of a `for` over a place rooted at it. With
/// `bare`, the name is that of a loop variable: a bare reassignment counts too, since it
/// writes the element back, and a nested `for` that rebinds the name shadows it.
pub open spec fn stmts_touch(ss: Seq<StmtV>, name: Seq<char>, bare: bool) -> bool
    decreases ss,
{
    if ss.len() == 0 {
        false
    } else {
        stmts_touch(ss.drop_last(), name, bare) || stmt_touches(ss.last(), name, bare)
    }
}

/// Whether a store to `target` writes through `name`.
pub open spec fn target_touches(target: ExprV, name: Seq<char>, bare: bool) -> bool {
    (bare || target is Field || target is Index) && root_of(target) == Some(name)
}

pub open spec fn stmt_touches(s: StmtV, name: Seq<char>, bare: bool) -> bool
    decreases s,
{
    match s {
        StmtV::Assign { target, value, .. } => target_touches(target, name, bare) || expr_touches(
            target,
            name,
            bare,
        ) || expr_touches(value, name, bare),
        StmtV::For { var, iter, body, .. } => {
            ||| expr_touches(iter, name, bare)
            ||| root_of(iter) == Some(name) && stmts_touch(body.stmts, var, true)
            ||| (!bare || var != name) && stmts_touch(body.stmts, name, bare)
        },
        StmtV::While { cond, body, .. } => expr_touches(cond, name, bare) || stmts_touch(
            body.stmts,
            name,
            bare,
        ),
        StmtV::Expr(e) => expr_touches(e, name, bare),
        StmtV::Return(value, _) => match value {
            Some(e) => expr_touches(e, name, bare),
            None => false,
        },
        StmtV::Let { value, .. } => match value {
            Some(e) => expr_touches(e, name, bare),
            None => false,
        },
        _ => false,
    }
}

/// Whether an expression writes through `name`, anywhere inside.
pub open spec fn expr_touches(e: ExprV, name: Seq<char>, bare: bool) -> bool
    decreases e,
{
    match e {
        ExprV::Unary(_, a, _) => expr_touches(*a, name, bare),
        ExprV::Field(a, _, _) => expr_touches(*a, name, bare),
        ExprV::ErrorProp(a, _) => expr_touches(*a, name, bare),
        ExprV::Closure(_, a, _) => expr_touches(*a, name, bare),
        ExprV::Binary(_, a, b, _) => expr_touches(*a, name, bare) || expr_touches(*b, name, bare),
        ExprV::Index(a, b, _) => expr_touches(*a, name, bare) || expr_touches(*b, name, bare),
        ExprV::Range(a, b, _) => expr_touches(*a, name, bare) || expr_touches(*b, name, bare),
        ExprV::Call(c, args, _) => mutator_callee(*c, name) || expr_touches(*c, name, bare)
            || args_touch(args, name, bare),
        ExprV::Array(es, _) => exprs_touch(es, name, bare),
        ExprV::TypeLit(_, fs, _) => named_touch(fs, name, bare),
        ExprV::VariantLit(_, _, fs, _) => named_touch(fs, name, bare),
        ExprV::Str(segs, _) => segs_touch(segs, name, bare),
        ExprV::If(c, t, els, _) => expr_touches(*c, name, bare) || stmts_touch(t.stmts, name, bare)
            || (match els {
            Some(x) => expr_touches(*x, name, bare),
            None => false,
        }),
        ExprV::IfLet(_, c, t, els, _) => expr_touches(*c, name, bare) || stmts_touch(
            t.stmts,
            name,
            bare,
        ) || (match els {
            Some(x) => expr_touches(*x, name, bare),
            None => false,
        }),
        ExprV::Match(c, arms, _) => expr_touches(*c, name, bare) || arms_touch(arms, name, bare),
        ExprV::Block(b, _) => stmts_touch(b.stmts, name, bare),
        _ => false,
    }
}

pub open spec fn arms_touch(ss: Seq<MatchArmV>, name: Seq<char>, bare: bool) -> bool
    decreases ss,
{
    ss.len() > 0 && (arms_touch(ss.drop_last(), name, bare) || expr_touches(
        ss.last().body,
        name,
        bare,
    ))
}

pub open spec fn args_touch(ss: Seq<ArgV>, name: Seq<char>, bare: bool) -> bool
    decreases ss,
{
    ss.len() > 0 && (args_touch(ss.drop_last(), name, bare) || expr_touches(
        ss.last().expr,
        name,
        bare,
    ))
}

pub open spec fn exprs_touch(ss: Seq<ExprV>, name: Seq<char>, bare: bool) -> bool
    decreases ss,
{
    ss.len() > 0 && (exprs_touch(ss.drop_last(), name, bare) || expr_touches(
        ss.last(),
        name,
        bare,
    ))
}

pub open spec fn named_touch(ss: Seq<(Seq<char>, ExprV)>, name: Seq<char>, bare: bool) -> bool
    decreases ss,
{
    ss.len() > 0 && (named_touch(ss.drop_last(), name, bare) || expr_touches(
        ss.last().1,
        name,
        bare,
    ))
}

pub open spec fn segs_touch(ss: Seq<StrSegV>, name: Seq<char>, bare: bool) -> bool
    decreases ss,
{
    ss.len() > 0 && (segs_touch(ss.drop_last(), name, bare) || (match ss.last() {
        StrSegV::Expr(e) => expr_touches(*e, name, bare),
        StrSegV::Lit(_) => false,
    }))
}

fn touches_stmts(v: &Vec<Stmt>, name: &str, bare: bool) -> (r: bool)
    ensures
        r == stmts_touch(stmts_view(v@), name@, bare),
    decreases *v,
{
    let ghost all = stmts_view(v@);
    let mut found: bool = false;
    for i in 0..v.len()
        invariant
            all == stmts_view(v@),
            found == stmts_touch(all.take(i as int), name@, bare),
    {
        proof {
            assert(all.take(i + 1).drop_last() =~= all.take(i as int));
            assert(all.take(i + 1).last() == v[i as int]@);
        }
        if touches_stmt(&v[i], name, bare) {
            found = true;
        }
    }
    assert(all.take(v.len() as int) =~= all);
    found
}

fn touches_target(target: &Expr, name: &str, bare: bool) -> (r: bool)
    ensures
        r == target_touches(target@, name@, bare),
{
    match target {
        Expr::Field(..) => rooted_at(target, name),
        Expr::Index(..) => rooted_at(target, name),
        _ => bare && rooted_at(target, name),
    }
}

#[verifier::rlimit(50)]
fn touches_stmt(s: &Stmt, name: &str, bare: bool) -> (r: bool)
    ensures
        r == stmt_touches(s@, name@, bare),
    decreases *s,
{
    match s {
        Stmt::Assign { target, value, .. } => touches_target(target, name, bare) || touches_expr(
            target,
            name,
            bare,
        ) || touches_expr(value, name, bare),
        Stmt::For { var, iter, body, .. } => {
            assert(body@.stmts == stmts_view(body.stmts@));
            touches_expr(iter, name, bare) || (rooted_at(iter, name) && touches_stmts(
                &body.stmts,
                var.as_str(),
                true,
            )) || ((!bare || !str_eq(var.as_str(), name)) && touches_stmts(&body.stmts, name, bare))
        },
        Stmt::While { cond, body, .. } => {
            assert(body@.stmts == stmts_view(body.stmts@));
            touches_expr(cond, name, bare) || touches_stmts(&body.stmts, name, bare)
        },
        Stmt::Expr(e) => touches_expr(e, name, bare),
        Stmt::Return(value, _) => match value {
            Some(e) => touches_expr(e, name, bare),
            None => false,
        },
        Stmt::Let { value, .. } => match value {
            Some(e) => touches_expr(e, name, bare),
            None => false,
        },
        _ => false,
    }
}

#[verifier::rlimit(100)]
#[verifier::spinoff_prover]
fn touches_expr(expr: &Expr, name: &str, bare: bool) -> (r: bool)
    ensures
        r == expr_touches(expr@, name@, bare),
    decreases *expr,
{
    match expr {
        Expr::Unary(_, a, _) => touches_expr(a, name, bare),
        Expr::Field(a, _, _) => touches_expr(a, name, bare),
        Expr::ErrorProp(a, _) => touches_expr(a, name, bare),
        Expr::Closure(_, a, _) => touches_expr(a, name, bare),
        Expr::Binary(_, a, b, _) => touches_expr(a, name, bare) || touches_expr(b, name, bare),
        Expr::Index(a, b, _) => touches_expr(a, name, bare) || touches_expr(b, name, bare),
        Expr::Range(a, b, _) => touches_expr(a, name, bare) || touches_expr(b, name, bare),
        Expr::Call(c, args, _) => is_mutator_callee(c, name) || touches_expr(c, name, bare)
            || touches_args(args, name, bare),
        Expr::Array(es, _) => touches_exprs(es, name, bare),
        Expr::TypeLit(_, fs, _) => touches_named(fs, name, bare),
        Expr::VariantLit(_, _, fs, _) => touches_named(fs, name, bare),
        Expr::Str(segs, _) => touches_segs(segs, name, bare),
        Expr::If(c, t, els, _) => {
            assert(t@.stmts == stmts_view(t.stmts@));
            touches_expr(c, name, bare) || touches_stmts(&t.stmts, name, bare) || match els {
                Some(x) => touches_expr(x, name, bare),
                None => false,
            }
        },
        Expr::IfLet(_, c, t, els, _) => {
            assert(t@.stmts == stmts_view(t.stmts@));
            touches_expr(c, name, bare) || touches_stmts(&t.stmts, name, bare) || match els {
                Some(x) => touches_expr(x, name, bare),
                None => false,
            }
        },
        Expr::Match(c, arms, _) => touches_expr(c, name, bare) || touches_arms(arms, name, bare),
        Expr::Block(b, _) => {
            assert(b@.stmts == stmts_view(b.stmts@));
            touches_stmts(&b.stmts, name, bare)
        },
        _ => false,
    }
}

fn touches_arms(v: &Vec<MatchArm>, name: &str, bare: bool) -> (r: bool)
    ensures
        r == arms_touch(match_arms_view(v@), name@, bare),
    decreases *v,
{
    let ghost all = match_arms_view(v@);
    let mut found: bool = false;
    for i in 0..v.len()
        invariant
            all == match_arms_view(v@),
            found == arms_touch(all.take(i as int), name@, bare),
    {
        proof {
            assert(all.take(i + 1).drop_last() =~= all.take(i as int));
            assert(all.take(i + 1).last().body == v[i as int].body@);
        }
        if touches_expr(&v[i].body, name, bare) {
            found = true;
        }
    }
    assert(all.take(v.len() as int) =~= all);
    found
}

fn touches_args(v: &Vec<Arg>, name: &str, bare: bool) -> (r: bool)
    ensures
        r == args_touch(args_view(v@), name@, bare),
    decreases *v,
{
    let ghost all = args_view(v@);
    let mut found: bool = false;
    for i in 0..v.len()
        invariant
            all == args_view(v@),
            found == args_touch(all.take(i as int), name@, bare),
    {
        proof {
            assert(all.take(i + 1).drop_last() =~= all.take(i as int));
            assert(all.take(i + 1).last().expr == v[i as int].expr@);
        }
        if touches_expr(&v[i].expr, name, bare) {
            found = true;
        }
    }
    assert(all.take(v.len() as int) =~= all);
    found
}

fn touches_exprs(v: &Vec<Expr>, name: &str, bare: bool) -> (r: bool)
    ensures
        r == exprs_touch(exprs_view(v@), name@, bare),
    decreases *v,
{
    let ghost all = exprs_view(v@);
    let mut found: bool = false;
    for i in 0..v.len()
        invariant
            all == exprs_view(v@),
            found == exprs_touch(all.take(i as int), name@, bare),
    {
        proof {
            assert(all.take(i + 1).drop_last() =~= all.take(i as int));
            assert(all.take(i + 1).last() == v[i as int]@);
        }
        if touches_expr(&v[i], name, bare) {
            found = true;
        }
    }
    assert(all.take(v.len() as int) =~= all);
    found
}

fn touches_named(v: &Vec<(String, Expr)>, name: &str, bare: bool) -> (r: bool)
    ensures
        r == named_touch(named_exprs_view(v@), name@, bare),
    decreases *v,
{
    let ghost all = named_exprs_view(v@);
    let mut found: bool = false;
    for i in 0..v.len()
        invariant
            all == named_exprs_view(v@),
            found == named_touch(all.take(i as int), name@, bare),
    {
        proof {
            assert(all.take(i + 1).drop_last() =~= all.take(i as int));
            assert(all.take(i + 1).last().1 == v[i as int].1@);
        }
        if touches_expr(&v[i].1, name, bare) {
            found = true;
        }
    }
    assert(all.take(v.len() as int) =~= all);
    found
}

fn touches_segs(v: &Vec<StrSeg>, name: &str, bare: bool) -> (r: bool)
    ensures
        r == segs_touch(str_segs_view(v@), name@, bare),
    decreases *v,
{
    let ghost all = str_segs_view(v@);
    let mut found: bool = false;
    for i in 0..v.len()
        invariant
            all == str_segs_view(v@),
            found == segs_touch(all.take(i as int), name@, bare),
    {
        proof {
            assert(all.take(i + 1).drop_last() =~= all.take(i as int));
            assert(all.take(i + 1).last() == v[i as int]@);
        }
        match &v[i] {
            StrSeg::Expr(e) => {
                if touches_expr(e, name, bare) {
                    found = true;
                }
            },
            StrSeg::Lit(_) => {},
        }
    }
    assert(all.take(v.len() as int) =~= all);
    found
}

/// Whether `block` writes through the binding `name` of a loop: a reassignment, a field
/// or element store, or a built-in mutator.
pub fn writes_binding(block: &Block, name: &str) -> (r: bool)
    ensures
        r == stmts_touch(block@.stmts, name@, true),
{
    touches_stmts(&block.stmts, name, true)
}

/// Whether `expr` writes through the binding `name` of a loop.
pub fn expr_writes_binding(expr: &Expr, name: &str) -> (r: bool)
    ensures
        r == expr_touches(expr@, name@, true),
{
    touches_expr(expr, name, true)
}

// ---- mutation of a root ----

/// Whether a statement list mutates the value behind `root` through the reference it
/// names. A bare `root = ..` only rebinds the local and does not count.
pub open spec fn stmts_mutate(ss: Seq<StmtV>, root: Seq<char>) -> bool {
    stmts_touch(ss, root, false)
}

/// Whether `block` mutates the value behind `root` through the reference it names.
pub fn mutates_root(block: &Block, root: &str) -> (r: bool)
    ensures
        r == stmts_mutate(block@.stmts, root@),
{
    touches_stmts(&block.stmts, root, false)
}

/// Whether a statement mutates the value behind `root`.
pub fn stmt_mutates_root(s: &Stmt, root: &str) -> (r: bool)
    ensures
        r == stmt_touches(s@, root@, false),
{
    touches_stmt(s, root, false)
}

/// Whether an expression mutates the value behind `root`.
pub fn expr_mutates_root(expr: &Expr, root: &str) -> (r: bool)
    ensures
        r == expr_touches(expr@, root@, false),
{
    touches_expr(expr, root, false)
}

// ---- parameters ----

/// `ref(mut(T))`.
pub open spec fn mut_ref(p: ParamInfoV) -> bool {
    match p.resolved_ty {
        Some(TypeV::Ref(inner)) => *inner is Mut,
        _ => false,
    }
}

/// Whether a parameter is a mutable reference (`ref(mut(T))`).
pub fn param_is_mut_ref(p: &ParamInfo) -> (r: bool)
    ensures
        r == mut_ref(p@),
{
    match &p.resolved_ty {
        Some(Type::Ref(inner)) => {
            proof {
                reveal_with_fuel(type_view, 2);
            }
            matches!(**inner, Type::Mut(_))
        },
        _ => false,
    }
}

/// `ref(T)` where `T` is not `mut`.
pub open spec fn immutable_ref(p: ParamInfoV) -> bool {
    match p.resolved_ty {
        Some(TypeV::Ref(inner)) => !(*inner is Mut),
        _ => false,
    }
}

/// Whether a parameter is an immutable reference (`ref(T)`, not `ref(mut(T))`).
pub fn param_is_immutable_ref(p: &ParamInfo) -> (r: bool)
    ensures
        r == immutable_ref(p@),
{
    match &p.resolved_ty {
        Some(Type::Ref(inner)) => {
            proof {
                reveal_with_fuel(type_view, 2);
            }
            !matches!(**inner, Type::Mut(_))
        },
        _ => false,
    }
}

/// The type under any number of `mut` wrappers.
pub open spec fn under_mut(t: TypeV) -> TypeV
    decreases t,
{
    match t {
        TypeV::Mut(inner) => under_mut(*inner),
        _ => t,
    }
}

fn is_array_under_mut(t: &Type) -> (r: bool)
    ensures
        r == (under_mut(t@) is Slice || under_mut(t@) is Array),
    decreases *t,
{
    match t {
        Type::Mut(inner) => is_array_under_mut(inner),
        Type::Slice(_) => true,
        Type::Array(..) => true,
        _ => false,
    }
}

/// A non-reference array or slice, possibly under `mut`.
pub open spec fn copied(p: ParamInfoV) -> bool {
    match p.resolved_ty {
        Some(t) => under_mut(t) is Slice || under_mut(t) is Array,
        None => false,
    }
}

/// Whether a parameter is passed by deep copy: a non-reference array or slice.
pub fn param_is_copied(p: &ParamInfo) -> (r: bool)
    ensures
        r == copied(p@),
{
    match &p.resolved_ty {
        Some(t) => is_array_under_mut(t),
        None => false,
    }
}

/// Whether a parameter's passing mode is inferred from what the body does with it:
/// it carries no annotation at all.
pub fn param_infers_pass_mode(p: &ParamInfo) -> (r: bool)
    ensures
        r == (p@.ty is None),
{
    p.ty.is_none()
}

/// Whether a parameter is annotated `infer`: a read-only deep copy.
pub fn param_is_infer(p: &ParamInfo) -> (r: bool)
    ensures
        r == (match p@.ty {
            Some(TypeExprV::Named(n, _)) => n == "infer"@,
            _ => false,
        }),
{
    match &p.ty {
        Some(TypeExpr::Named(n, _)) => str_eq(n.as_str(), "infer"),
        _ => false,
    }
}

/// Whether a `self` parameter writes through to the caller's receiver: it is
/// unannotated, or annotated `ref(mut(..))`.
pub open spec fn self_through(p: ParamInfoV) -> bool {
    match p.ty {
        None => true,
        Some(TypeExprV::Ref(inner, _)) => *inner is Mut,
        Some(_) => false,
    }
}

/// Whether a `self` parameter writes through to the caller's receiver.
pub fn self_writes_through(self_param: &ParamInfo) -> (r: bool)
    ensures
        r == self_through(self_param@),
{
    match &self_param.ty {
        None => true,
        Some(TypeExpr::Ref(inner, _)) => {
            proof {
                reveal_with_fuel(type_expr_view, 2);
            }
            matches!(**inner, TypeExpr::Mut(..))
        },
        Some(_) => false,
    }
}

// ---- methods that write through `self` ----

/// Whether a method mutates its caller's receiver: its first parameter writes
/// through, and its body mutates `self`.
pub open spec fn method_through(m: MethodInfoV) -> bool {
    m.signature.params.len() > 0 && self_through(m.signature.params[0]) && (match m.decl.body {
        Some(b) => stmts_mutate(b.stmts, SELF_NAME@),
        None => false,
    })
}

fn method_writes_through(m: &MethodInfo) -> (r: bool)
    ensures
        r == method_through(m@),
{
    if m.signature.params.len() > 0 && self_writes_through(&m.signature.params[0]) {
        match &m.decl.body {
            Some(b) => mutates_root(b, SELF_NAME),
            None => false,
        }
    } else {
        false
    }
}

/// The names of a type and of each of `ms` that writes through `self`.
pub open spec fn through_pairs(owner: Seq<char>, ms: Seq<(Seq<char>, MethodInfoV)>) -> Seq<
    (Seq<char>, Seq<char>),
>
    decreases ms.len(),
{
    if ms.len() == 0 {
        Seq::empty()
    } else {
        let rest = through_pairs(owner, ms.drop_last());
        if method_through(ms.last().1) {
            rest.push((owner, ms.last().0))
        } else {
            rest
        }
    }
}

/// [`through_pairs`] over the methods of every variant.
pub open spec fn variant_through_pairs(owner: Seq<char>, vs: Seq<VariantInfoV>) -> Seq<
    (Seq<char>, Seq<char>),
>
    decreases vs.len(),
{
    if vs.len() == 0 {
        Seq::empty()
    } else {
        variant_through_pairs(owner, vs.drop_last()) + through_pairs(owner, vs.last().methods)
    }
}

/// The `(type, method)` names of the methods that write through `self`.
pub open spec fn self_writers(ts: Seq<(Seq<char>, TypeInfoV)>) -> Seq<(Seq<char>, Seq<char>)>
    decreases ts.len(),
{
    if ts.len() == 0 {
        Seq::empty()
    } else {
        let t = ts.last().1;
        self_writers(ts.drop_last()) + (match t.kind {
            TypeKindV::Record { methods, .. } => through_pairs(t.name, methods),
            TypeKindV::Sum { variants } => variant_through_pairs(t.name, variants),
        })
    }
}

fn push_through_pairs(owner: &str, ms: &Vec<(String, MethodInfo)>, out: &mut Vec<(String, String)>)
    ensures
        pairs_view(final(out)@) == pairs_view(old(out)@) + through_pairs(
            owner@,
            named_method_infos_view(ms@),
        ),
{
    let ghost start = pairs_view(out@);
    let ghost all = named_method_infos_view(ms@);
    assert(start =~= start + through_pairs(owner@, all.take(0)));
    for i in 0..ms.len()
        invariant
            all == named_method_infos_view(ms@),
            pairs_view(out@) == start + through_pairs(owner@, all.take(i as int)),
    {
        proof {
            assert(all.take(i + 1).drop_last() =~= all.take(i as int));
            assert(all.take(i + 1).last() == (ms[i as int].0@, ms[i as int].1@));
        }
        let ghost before = out@;
        if method_writes_through(&ms[i].1) {
            out.push((owner.to_string(), ms[i].0.clone()));
            assert(pairs_view(out@) =~= pairs_view(before).push((owner@, ms[i as int].0@)));
        }
        assert(pairs_view(out@) =~= start + through_pairs(owner@, all.take(i + 1)));
    }
    assert(all.take(ms.len() as int) =~= all);
}

fn push_variant_pairs(owner: &str, vs: &Vec<VariantInfo>, out: &mut Vec<(String, String)>)
    ensures
        pairs_view(final(out)@) == pairs_view(old(out)@) + variant_through_pairs(
            owner@,
            variant_infos_view(vs@),
        ),
{
    let ghost start = pairs_view(out@);
    let ghost all = variant_infos_view(vs@);
    assert(start =~= start + variant_through_pairs(owner@, all.take(0)));
    for i in 0..vs.len()
        invariant
            all == variant_infos_view(vs@),
            pairs_view(out@) == start + variant_through_pairs(owner@, all.take(i as int)),
    {
        proof {
            assert(all.take(i + 1).drop_last() =~= all.take(i as int));
            assert(all.take(i + 1).last() == vs[i as int]@);
        }
        push_through_pairs(owner, &vs[i].methods, out);
        assert(pairs_view(out@) =~= start + variant_through_pairs(owner@, all.take(i + 1)));
    }
    assert(all.take(vs.len() as int) =~= all);
}

/// The `(type, method)` names of the methods whose body mutates a write-through
/// `self`.
pub fn self_write_through_methods(program: &Program) -> (r: Vec<(String, String)>)
    ensures
        pairs_view(r@) == self_writers(program@.types),
{
    let mut out: Vec<(String, String)> = Vec::new();
    let ghost all = named_type_infos_view(program.types@);
    assert(pairs_view(out@) =~= self_writers(all.take(0)));
    for i in 0..program.types.len()
        invariant
            all == named_type_infos_view(program.types@),
            pairs_view(out@) == self_writers(all.take(i as int)),
    {
        proof {
            assert(all.take(i + 1).drop_last() =~= all.take(i as int));
            assert(all.take(i + 1).last() == (program.types[i as int].0@, program.types[i as int].1@));
        }
        let info = &program.types[i].1;
        match &info.kind {
            TypeKind::Record { methods, .. } => push_through_pairs(
                info.name.as_str(),
                methods,
                &mut out,
            ),
            TypeKind::Sum { variants } => push_variant_pairs(
                info.name.as_str(),
                variants,
                &mut out,
            ),
        }
        assert(pairs_view(out@) =~= self_writers(all.take(i + 1)));
    }
    assert(all.take(program.types.len() as int) =~= all);
    out
}

// ---- write-through positions ----

/// Whether a place rooted at `root` stands in one of the positions of `symbol`
/// that are in `w`.
pub open spec fn forwarded_arg(
    args: Seq<ArgV>,
    symbol: Seq<char>,
    root: Seq<char>,
    w: Positions,
) -> bool {
    exists|i: usize|
        i < args.len() && w.contains((symbol, i)) && root_of((#[trigger] args[i as int]).expr)
            == Some(root)
}

/// Whether `e` calls a free function with a place rooted at `root` in one of the
/// positions of `w`.
pub open spec fn forwarding_call(
    p: ProgramV,
    module: Seq<Seq<char>>,
    e: ExprV,
    root: Seq<char>,
    w: Positions,
) -> bool {
    match e {
        ExprV::Call(callee, args, _) => match *callee {
            ExprV::Ident(fname, _) => match function_in(p, module, fname) {
                Some(g) => forwarded_arg(args, g.symbol, root, w),
                None => false,
            },
            _ => false,
        },
        _ => false,
    }
}

/// Whether the body of `f` passes a place rooted at `root` into a position of `w`.
pub open spec fn forwards(p: ProgramV, f: FunInfoV, root: Seq<char>, w: Positions) -> bool {
    exists|k: int|
        0 <= k < stmts_exprs(f.decl.body.stmts).len() && forwarding_call(
            p,
            f.module,
            #[trigger] stmts_exprs(f.decl.body.stmts)[k],
            root,
            w,
        )
}

/// Whether parameter `i` of `f` writes through, given the positions `w`: it is
/// `ref(mut(T))`, or it is not a copy and the body forwards it into one of `w`.
pub open spec fn through_given(p: ProgramV, f: FunInfoV, i: int, w: Positions) -> bool {
    mut_ref(f.signature.params[i]) || (!copied(f.signature.params[i]) && forwards(
        p,
        f,
        f.signature.params[i].name,
        w,
    ))
}

/// Whether `w` holds every position that writes through given `w` itself.
pub open spec fn closed_under_calls(p: ProgramV, w: Positions) -> bool {
    forall|k: int, i: usize|
        #![trigger p.functions[k].1.signature.params[i as int]]
        0 <= k < p.functions.len() && i < p.functions[k].1.signature.params.len()
            && through_given(p, p.functions[k].1, i as int, w) ==> w.contains(
            (p.functions[k].1.symbol, i),
        )
}

/// Whether `w` is contained in every closed set of positions.
pub open spec fn below_all_closed(p: ProgramV, w: Positions) -> bool {
    forall|t: Positions| #[trigger] closed_under_calls(p, t) ==> w.subset_of(t)
}

/// Whether `w` is the least set of positions closed under calls: the positions
/// whose argument a callee can change for its caller.
pub open spec fn write_through(p: ProgramV, w: Positions) -> bool {
    closed_under_calls(p, w) && below_all_closed(p, w)
}

/// There is only one least closed set.
pub proof fn write_through_unique(p: ProgramV, a: Positions, b: Positions)
    requires
        write_through(p, a),
        write_through(p, b),
    ensures
        a == b,
{
    assert(a.subset_of(b));
    assert(b.subset_of(a));
    assert(a =~= b);
}

/// Forwarding into more positions is possible whenever forwarding into fewer is.
pub proof fn forwards_grows(p: ProgramV, f: FunInfoV, root: Seq<char>, w: Positions, t: Positions)
    requires
        w.subset_of(t),
        forwards(p, f, root, w),
    ensures
        forwards(p, f, root, t),
{
    let es = stmts_exprs(f.decl.body.stmts);
    let k = choose|k: int|
        0 <= k < es.len() && forwarding_call(p, f.module, #[trigger] es[k], root, w);
    assert(forwarding_call(p, f.module, es[k], root, t));
}

// ---- the fixpoint ----

/// The functions' symbols and parameter counts.
spec fn slots(fs: Seq<(Seq<char>, FunInfoV)>) -> Seq<(Seq<char>, nat)> {
    Seq::new(fs.len(), |k: int| (fs[k].1.symbol, fs[k].1.signature.params.len()))
}

fn is_forwarded_arg(
    args: &Vec<Arg>,
    symbol: &str,
    root: &str,
    table: &Vec<(String, HashSet<usize>)>,
) -> (r: bool)
    ensures
        r == forwarded_arg(args_view(args@), symbol@, root@, recorded(table@)),
{
    let ghost es = args_view(args@);
    for i in 0..args.len()
        invariant
            es == args_view(args@),
            forall|j: usize|
                j < i && recorded(table@).contains((symbol@, j)) ==> root_of(
                    (#[trigger] es[j as int]).expr,
                ) != Some(root@),
    {
        assert(es[i as int] == args[i as int]@);
        assert(args[i as int]@.expr == args[i as int].expr@);
        if is_recorded(table, symbol, i) && rooted_at(&args[i].expr, root) {
            return true;
        }
    }
    false
}

fn is_forwarding_call(
    program: &Program,
    module: &Vec<String>,
    expr: &Expr,
    root: &str,
    table: &Vec<(String, HashSet<usize>)>,
) -> (r: bool)
    ensures
        r == forwarding_call(program@, texts(module@), expr@, root@, recorded(table@)),
{
    match expr {
        Expr::Call(callee, args, _) => {
            proof {
                reveal_with_fuel(expr_view, 2);
            }
            match &**callee {
                Expr::Ident(fname, _) => {
                    match program.resolve_fn_symbol(module.as_slice(), fname.as_str()) {
                        Some(symbol) => is_forwarded_arg(args, symbol.as_str(), root, table),
                        None => false,
                    }
                },
                _ => false,
            }
        },
        _ => false,
    }
}

/// Whether the body of `f` passes a place rooted at parameter `root` into a
/// position that the table records.
fn forwards_param_to_mutating(
    program: &Program,
    f: &FunInfo,
    root: &str,
    table: &Vec<(String, HashSet<usize>)>,
) -> (r: bool)
    ensures
        r == forwards(program@, f@, root@, recorded(table@)),
{
    let es = all_stmts_exprs(&f.decl.body.stmts);
    let ghost all = stmts_exprs(f@.decl.body.stmts);
    assert(expr_refs(es@) == all);
    for k in 0..es.len()
        invariant
            expr_refs(es@) == all,
            all == stmts_exprs(f@.decl.body.stmts),
            forall|j: int|
                0 <= j < k ==> !forwarding_call(
                    program@,
                    f@.module,
                    #[trigger] all[j],
                    root@,
                    recorded(table@),
                ),
    {
        assert(all[k as int] == es[k as int]@);
        if is_forwarding_call(program, &f.module, es[k], root, table) {
            assert(forwarding_call(program@, f@.module, all[k as int], root@, recorded(table@)));
            return true;
        }
    }
    assert(es.len() == all.len());
    false
}

/// The parameter positions each function writes through to its caller: those
/// annotated `ref(mut(T))`, and those the body forwards into another write-through
/// position. The least fixpoint over the call graph.
#[verifier::rlimit(50)]
pub fn write_through_function_params(program: &Program) -> (r: Vec<(String, HashSet<usize>)>)
    ensures
        write_through(program@, recorded(r@)),
        no_empty_entry(r@),
{
    let mut table: Vec<(String, HashSet<usize>)> = Vec::new();
    let mut changed: bool = true;
    let ghost fs = named_fun_infos_view(program.functions@);
    proof {
        assert(recorded(table@) =~= Set::<(Seq<char>, usize)>::empty());
    }
    while changed
        invariant
            fs == named_fun_infos_view(program.functions@),
            program@.functions == fs,
            no_empty_entry(table@),
            below_all_closed(program@, recorded(table@)),
            !changed ==> closed_under_calls(program@, recorded(table@)),
        decreases open_positions(slots(fs), recorded(table@)), (if changed { 1int } else { 0 }),
    {
        changed = false;
        let ghost start = recorded(table@);
        for k in 0..program.functions.len()
            invariant
                fs == named_fun_infos_view(program.functions@),
                program@.functions == fs,
                no_empty_entry(table@),
                below_all_closed(program@, recorded(table@)),
                start.subset_of(recorded(table@)),
                changed ==> open_positions(slots(fs), recorded(table@)) < open_positions(slots(fs), start),
                !changed ==> recorded(table@) == start && forall|m: int, i: usize|
                    #![trigger fs[m].1.signature.params[i as int]]
                    0 <= m < k && i < fs[m].1.signature.params.len() && through_given(
                        program@,
                        fs[m].1,
                        i as int,
                        start,
                    ) ==> start.contains((fs[m].1.symbol, i)),
        {
            let f = &program.functions[k].1;
            assert(fs[k as int].1 == f@);
            for i in 0..f.signature.params.len()
                invariant
                    k < fs.len(),
                    fs[k as int].1 == f@,
                    fs == named_fun_infos_view(program.functions@),
                    program@.functions == fs,
                    no_empty_entry(table@),
                    below_all_closed(program@, recorded(table@)),
                    start.subset_of(recorded(table@)),
                    changed ==> open_positions(slots(fs), recorded(table@)) < open_positions(slots(fs), start),
                    !changed ==> recorded(table@) == start && (forall|m: int, j: usize|
                        #![trigger fs[m].1.signature.params[j as int]]
                        0 <= m < k && j < fs[m].1.signature.params.len() && through_given(
                            program@,
                            fs[m].1,
                            j as int,
                            start,
                        ) ==> start.contains((fs[m].1.symbol, j))) && (forall|j: usize|
                        #![trigger fs[k as int].1.signature.params[j as int]]
                        j < i && through_given(program@, fs[k as int].1, j as int, start)
                            ==> start.contains((fs[k as int].1.symbol, j))),
            {
                let param = &f.signature.params[i];
                assert(f@.signature.params[i as int] == param@);
                if !is_recorded(&table, f.symbol.as_str(), i) {
                    let through = param_is_mut_ref(param) || (!param_is_copied(param)
                        && forwards_param_to_mutating(program, f, param.name.as_str(), &table));
                    assert(through == through_given(program@, f@, i as int, recorded(table@)));
                    if through {
                        let ghost before = recorded(table@);
                        record(&mut table, f.symbol.as_str(), i);
                        changed = true;
                        proof {
                            open_positions_shrinks(slots(fs), before, recorded(table@), k as int, i);
                            open_positions_shrinks(slots(fs), start, before, k as int, i);
                            assert forall|t: Positions| #[trigger]
                                closed_under_calls(program@, t) implies recorded(table@).subset_of(
                                t,
                            ) by {
                                assert(before.subset_of(t));
                                if !mut_ref(param@) {
                                    forwards_grows(program@, f@, param@.name, before, t);
                                }
                                assert(through_given(program@, f@, i as int, t));
                                assert(program@.functions[k as int].1.signature.params[i as int]
                                    == param@);
                                assert(t.contains((f@.symbol, i)));
                            }
                        }
                    }
                }
            }
        }
    }
    table
}

/// Precomputed write-through facts for every callable in a program.
#[derive(Debug)]
pub struct MutationInfo {
    /// Function storage symbols, each with the indices of the parameters that
    /// write through to the caller.
    functions: Vec<(String, HashSet<usize>)>,
    /// `(type, method)` names of the methods that mutate a write-through `self`.
    self_write_through_methods: Vec<(String, String)>,
}

impl MutationInfo {
    #[verifier::type_invariant]
    spec fn wf(self) -> bool {
        no_empty_entry(self.functions@)
    }

    /// The write-through positions.
    pub closed spec fn positions(self) -> Positions {
        recorded(self.functions@)
    }

    /// The methods that write through `self`.
    pub closed spec fn methods(self) -> Seq<(Seq<char>, Seq<char>)> {
        pairs_view(self.self_write_through_methods@)
    }

    /// Analyze every free function and method in `program`.
    pub fn analyze(program: &Program) -> (r: Self)
        ensures
            write_through(program@, r.positions()),
            r.methods() == self_writers(program@.types),
    {
        MutationInfo {
            functions: write_through_function_params(program),
            self_write_through_methods: self_write_through_methods(program),
        }
    }

    /// The indices of free function `symbol`'s write-through parameters, if any.
    pub fn write_through_params(&self, symbol: &str) -> (r: Option<&HashSet<usize>>)
        ensures
            r is Some <==> exists|i: usize| self.positions().contains((symbol@, i)),
            r matches Some(s) ==> forall|i: usize|
                s@.contains(i) <==> self.positions().contains((symbol@, i)),
    {
        proof {
            use_type_invariant(self);
        }
        let k = find_key(&self.functions, symbol);
        if k < self.functions.len() {
            proof {
                assert(nonempty(self.functions@[k as int].1@));
                let x = choose|x: usize| self.functions@[k as int].1@.contains(x);
                assert(self.positions().contains((symbol@, x)));
            }
            Some(&self.functions[k].1)
        } else {
            None
        }
    }

    /// Whether method `owner::method` mutates the caller's receiver through a
    /// write-through `self`.
    pub fn method_writes_through_self(&self, owner: &str, method: &str) -> (r: bool)
        ensures
            r == self.methods().contains((owner@, method@)),
    {
        let v = &self.self_write_through_methods;
        let ghost all = pairs_view(v@);
        for i in 0..v.len()
            invariant
                v@ == self.self_write_through_methods@,
                all == pairs_view(v@),
                forall|j: int| 0 <= j < i ==> all[j] != (owner@, method@),
        {
            assert(all[i as int] == (v[i as int].0@, v[i as int].1@));
            if str_eq(v[i].0.as_str(), owner) && str_eq(v[i].1.as_str(), method) {
                return true;
            }
        }
        false
    }
}

} // verus!
