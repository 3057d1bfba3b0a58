//! Free-variable analysis of closures: which names a closure body mentions that it
//! does not bind itself, so that the locals a nested closure captures are known.

use vstd::prelude::*;
use crate::ast::{clone_block, clone_expr, clone_params, field_pats_view, params_view, patterns_view, stmts_view, Block, BlockV, Expr, ExprV, FieldPatV, Param, ParamV, Pattern, PatternV, Stmt, StmtV};
use crate::bindings::{bound_in_stmts, named_spans, push_stmts_bindings};
use crate::names::{in_order, NameSet};
use crate::span::Span;
use crate::text::{clone_strings, texts};
use crate::traverse::{all_stmts_exprs, expr_refs, stmts_exprs};

verus! {

// ---- bound names ----

/// The names a pattern binds.
pub open spec fn pat_names(p: PatternV) -> Set<Seq<char>>
    decreases p,
{
    match p {
        PatternV::Binding(n, _) => Set::<Seq<char>>::empty().insert(n),
        PatternV::Array(ps, _) => pats_names(ps),
        PatternV::Record(_, fps, _) => field_pats_names(fps),
        _ => Set::empty(),
    }
}

pub open spec fn pats_names(ps: Seq<PatternV>) -> Set<Seq<char>>
    decreases ps,
{
    if ps.len() == 0 {
        Set::empty()
    } else {
        pats_names(ps.drop_last()).union(pat_names(ps.last()))
    }
}

pub open spec fn field_pats_names(fps: Seq<FieldPatV>) -> Set<Seq<char>>
    decreases fps,
{
    if fps.len() == 0 {
        Set::empty()
    } else {
        field_pats_names(fps.drop_last()).union(match fps.last().pat {
            Some(sub) => pat_names(sub),
            None => Set::<Seq<char>>::empty().insert(fps.last().name),
        })
    }
}

/// Add the names a pattern binds.
pub fn collect_pat_names(p: &Pattern, out: &mut NameSet)
    ensures
        final(out)@ == old(out)@.union(pat_names(p@)),
    decreases *p,
{
    let ghost start = out@;
    match p {
        Pattern::Binding(n, _) => {
            out.insert(n.as_str());
        },
        Pattern::Array(ps, _) => {
            let ghost all = patterns_view(ps@);
            assert(out@ =~= start.union(pats_names(all.take(0))));
            for i in 0..ps.len()
                invariant
                    all == patterns_view(ps@),
                    out@ == start.union(pats_names(all.take(i as int))),
                    decreases_to!(*p => ps@),
            {
                proof {
                    assert(all.take(i + 1).drop_last() =~= all.take(i as int));
                    assert(all.take(i + 1).last() == ps[i as int]@);
                }
                collect_pat_names(&ps[i], out);
                assert(out@ =~= start.union(pats_names(all.take(i + 1))));
            }
            assert(all.take(ps.len() as int) =~= all);
        },
        Pattern::Record(_, fps, _) => {
            let ghost all = field_pats_view(fps@);
            assert(out@ =~= start.union(field_pats_names(all.take(0))));
            for i in 0..fps.len()
                invariant
                    all == field_pats_view(fps@),
                    out@ == start.union(field_pats_names(all.take(i as int))),
                    decreases_to!(*p => fps@),
            {
                proof {
                    assert(all.take(i + 1).drop_last() =~= all.take(i as int));
                    assert(all.take(i + 1).last() == fps[i as int]@);
                }
                match &fps[i].pat {
                    Some(sub) => collect_pat_names(sub, out),
                    None => {
                        out.insert(fps[i].name.as_str());
                    },
                }
                assert(out@ =~= start.union(field_pats_names(all.take(i + 1))));
            }
            assert(all.take(fps.len() as int) =~= all);
        },
        _ => {},
    }
    assert(out@ =~= start.union(pat_names(p@)));
}

/// The names that `let`s and `for`s bind at the top level of a statement list: in it and
/// in the loops directly in it.
pub open spec fn bound_in(ss: Seq<StmtV>) -> Set<Seq<char>>
    decreases ss,
{
    if ss.len() == 0 {
        Set::empty()
    } else {
        bound_in(ss.drop_last()).union(bound_by(ss.last()))
    }
}

pub open spec fn bound_by(s: StmtV) -> Set<Seq<char>>
    decreases s,
{
    match s {
        StmtV::Let { pat, .. } => pat_names(pat),
        StmtV::While { body, .. } => bound_in(body.stmts),
        StmtV::For { var, body, .. } => bound_in(body.stmts).insert(var),
        _ => Set::empty(),
    }
}

fn collect_bound_stmts(v: &Vec<Stmt>, out: &mut NameSet)
    ensures
        final(out)@ == old(out)@.union(bound_in(stmts_view(v@))),
    decreases *v,
{
    let ghost start = out@;
    let ghost all = stmts_view(v@);
    assert(out@ =~= start.union(bound_in(all.take(0))));
    for i in 0..v.len()
        invariant
            all == stmts_view(v@),
            out@ == start.union(bound_in(all.take(i as int))),
    {
        proof {
            assert(all.take(i + 1).drop_last() =~= all.take(i as int));
            assert(all.take(i + 1).last() == v[i as int]@);
        }
        collect_bound_stmt(&v[i], out);
        assert(out@ =~= start.union(bound_in(all.take(i + 1))));
    }
    assert(all.take(v.len() as int) =~= all);
}

fn collect_bound_stmt(s: &Stmt, out: &mut NameSet)
    ensures
        final(out)@ == old(out)@.union(bound_by(s@)),
    decreases *s,
{
    let ghost start = out@;
    match s {
        Stmt::Let { pat, .. } => collect_pat_names(pat, out),
        Stmt::While { body, .. } => {
            assert(body@.stmts == stmts_view(body.stmts@));
            collect_bound_stmts(&body.stmts, out);
        },
        Stmt::For { var, body, .. } => {
            assert(body@.stmts == stmts_view(body.stmts@));
            out.insert(var.as_str());
            collect_bound_stmts(&body.stmts, out);
        },
        _ => {},
    }
    assert(out@ =~= start.union(bound_by(s@)));
}

/// The names of parameters.
pub open spec fn param_names(ps: Seq<ParamV>) -> Set<Seq<char>>
    decreases ps.len(),
{
    if ps.len() == 0 {
        Set::empty()
    } else {
        param_names(ps.drop_last()).insert(ps.last().name)
    }
}

/// Add the names of parameters.
pub fn collect_param_names(ps: &Vec<Param>, out: &mut NameSet)
    ensures
        final(out)@ == old(out)@.union(param_names(params_view(ps@))),
{
    let ghost start = out@;
    let ghost all = params_view(ps@);
    assert(out@ =~= start.union(param_names(all.take(0))));
    for i in 0..ps.len()
        invariant
            all == params_view(ps@),
            out@ == start.union(param_names(all.take(i as int))),
    {
        proof {
            assert(all.take(i + 1).drop_last() =~= all.take(i as int));
            assert(all.take(i + 1).last() == ps[i as int]@);
        }
        out.insert(ps[i].name.as_str());
        assert(out@ =~= start.union(param_names(all.take(i + 1))));
    }
    assert(all.take(ps.len() as int) =~= all);
}

/// The names that a function or closure binds itself: its parameters and its top-level
/// locals.
pub open spec fn binds(ps: Seq<ParamV>, ss: Seq<StmtV>) -> Set<Seq<char>> {
    param_names(ps).union(bound_in(ss))
}

/// The parameters and the top-level locals of a function or closure. A name that is bound
/// only in a nested block is left out: elsewhere in the body it may be another variable.
pub fn own_names(params: &Vec<Param>, body: &Block) -> (r: NameSet)
    ensures
        r@ == binds(params_view(params@), body@.stmts),
{
    let mut s = NameSet::new();
    collect_param_names(params, &mut s);
    collect_bound_stmts(&body.stmts, &mut s);
    assert(s@ =~= binds(params_view(params@), body@.stmts));
    s
}

/// The names among bindings.
pub open spec fn names_of(bs: Seq<(Seq<char>, Span)>) -> Set<Seq<char>> {
    Set::new(|n: Seq<char>| exists|i: int| 0 <= i < bs.len() && (#[trigger] bs[i]).0 == n)
}

/// The names bound anywhere in a function body, nested blocks too: its parameters and its
/// locals. What a closure in it binds belongs to the closure.
pub open spec fn bound_anywhere(ps: Seq<ParamV>, ss: Seq<StmtV>) -> Set<Seq<char>> {
    param_names(ps).union(names_of(bound_in_stmts(ss, false)))
}

/// Names bound, as parameters or locals, anywhere in a function body.
pub fn bound_names(params: &Vec<Param>, body: &Block) -> (r: NameSet)
    ensures
        r@ == bound_anywhere(params_view(params@), body@.stmts),
{
    let mut s = NameSet::new();
    collect_param_names(params, &mut s);
    let ghost start = s@;
    let mut bs: Vec<(String, Span)> = Vec::new();
    assert(named_spans(bs@) =~= Seq::empty());
    assert(body@.stmts == stmts_view(body.stmts@));
    push_stmts_bindings(&body.stmts, false, &mut bs);
    let ghost all = named_spans(bs@);
    assert(all =~= bound_in_stmts(body@.stmts, false));
    assert(s@ =~= start.union(names_of(all.take(0))));
    for i in 0..bs.len()
        invariant
            all == named_spans(bs@),
            s@ == start.union(names_of(all.take(i as int))),
    {
        let ghost before = s@;
        s.insert(bs[i].0.as_str());
        proof {
            let t = all.take(i + 1);
            let u = all.take(i as int);
            assert(all[i as int].0 == bs[i as int].0@);
            assert forall|n: Seq<char>| names_of(t).contains(n) <==> names_of(u).contains(n) || n
                == all[i as int].0 by {
                if names_of(u).contains(n) {
                    let j = choose|j: int| 0 <= j < u.len() && (#[trigger] u[j]).0 == n;
                    assert(t[j].0 == n);
                }
                assert(t[i as int].0 == all[i as int].0);
                if names_of(t).contains(n) && n != all[i as int].0 {
                    let j = choose|j: int| 0 <= j < t.len() && (#[trigger] t[j]).0 == n;
                    assert(u[j].0 == n);
                }
            }
            assert(s@ =~= start.union(names_of(t)));
        }
    }
    assert(all.take(bs.len() as int) =~= all);
    assert(s@ =~= bound_anywhere(params_view(params@), body@.stmts));
    s
}

// ---- referenced names ----

/// Whether `e` is the identifier `n`.
pub open spec fn names_ident(e: ExprV, n: Seq<char>) -> bool {
    match e {
        ExprV::Ident(m, _) => m == n,
        _ => false,
    }
}

/// The identifiers among some expressions.
pub open spec fn ident_names(es: Seq<ExprV>) -> Set<Seq<char>> {
    Set::new(|n: Seq<char>| exists|i: int| 0 <= i < es.len() && names_ident(#[trigger] es[i], n))
}

/// The identifiers referenced anywhere in a statement list.
pub open spec fn idents(ss: Seq<StmtV>) -> Set<Seq<char>> {
    ident_names(stmts_exprs(ss))
}

/// Add the identifiers among some expressions.
pub fn collect_idents(es: &Vec<&Expr>, out: &mut NameSet)
    ensures
        final(out)@ == old(out)@.union(ident_names(expr_refs(es@))),
{
    let ghost start = out@;
    let ghost all = expr_refs(es@);
    assert(out@ =~= start.union(ident_names(all.take(0))));
    for i in 0..es.len()
        invariant
            all == expr_refs(es@),
            out@ == start.union(ident_names(all.take(i as int))),
    {
        let ghost before = out@;
        let ghost t = all.take(i + 1);
        let ghost s = all.take(i as int);
        assert(all[i as int] == es[i as int]@);
        if let Expr::Ident(n, _) = es[i] {
            out.insert(n.as_str());
        }
        proof {
            assert forall|n: Seq<char>| ident_names(t).contains(n) <==> ident_names(s).contains(n)
                || names_ident(all[i as int], n) by {
                if ident_names(s).contains(n) {
                    let j = choose|j: int| 0 <= j < s.len() && names_ident(#[trigger] s[j], n);
                    assert(names_ident(t[j], n));
                }
                if names_ident(all[i as int], n) {
                    assert(names_ident(t[i as int], n));
                }
                if ident_names(t).contains(n) && !names_ident(all[i as int], n) {
                    let j = choose|j: int| 0 <= j < t.len() && names_ident(#[trigger] t[j], n);
                    assert(names_ident(s[j], n));
                }
            }
            assert(out@ =~= start.union(ident_names(t)));
        }
    }
    assert(all.take(es.len() as int) =~= all);
}

/// Add the identifiers referenced across a statement list.
pub fn idents_stmts(stmts: &Vec<Stmt>, out: &mut NameSet)
    ensures
        final(out)@ == old(out)@.union(idents(stmts_view(stmts@))),
{
    let es = all_stmts_exprs(stmts);
    collect_idents(&es, out);
}

/// Add the identifiers referenced in a block.
pub fn idents_block(b: &Block, out: &mut NameSet)
    ensures
        final(out)@ == old(out)@.union(idents(b@.stmts)),
{
    idents_stmts(&b.stmts, out);
}

// ---- closures ----

/// A closure body as a block: the block itself, or the expression as its only
/// statement.
pub open spec fn body_block(body: ExprV, span: Span) -> BlockV {
    match body {
        ExprV::Block(b, _) => b,
        _ => BlockV { stmts: seq![StmtV::Expr(body)], span },
    }
}

/// A closure body as a block; `span` is that of a block that has to be made.
pub fn block_of_body(body: &Expr, span: Span) -> (r: Block)
    ensures
        r@ == body_block(body@, span),
{
    match body {
        Expr::Block(b, _) => clone_block(b),
        _ => {
            let b = Block { stmts: vec![Stmt::Expr(clone_expr(body))], span };
            assert(b@.stmts =~= seq![StmtV::Expr(body@)]);
            b
        },
    }
}

/// The closures among some expressions, as parameters and body block.
pub open spec fn closures_among(es: Seq<ExprV>) -> Seq<(Seq<ParamV>, BlockV)>
    decreases es.len(),
{
    if es.len() == 0 {
        Seq::empty()
    } else {
        let rest = closures_among(es.drop_last());
        match es.last() {
            ExprV::Closure(ps, body, span) => rest.push((ps, body_block(*body, span))),
            _ => rest,
        }
    }
}

/// Every closure nested anywhere in a statement list.
pub open spec fn closures_in(ss: Seq<StmtV>) -> Seq<(Seq<ParamV>, BlockV)> {
    closures_among(stmts_exprs(ss))
}

/// The models of closures given by parameters and body.
pub open spec fn closures_view(v: Seq<(Vec<Param>, Block)>) -> Seq<(Seq<ParamV>, BlockV)> {
    Seq::new(v.len(), |i: int| (params_view(v[i].0@), v[i].1@))
}

/// Every closure, by its parameters and block body, nested anywhere in `body`.
pub fn each_nested_closure(body: &Block) -> (r: Vec<(Vec<Param>, Block)>)
    ensures
        closures_view(r@) == closures_in(body@.stmts),
{
    let es = all_stmts_exprs(&body.stmts);
    let mut out: Vec<(Vec<Param>, Block)> = Vec::new();
    let ghost all = expr_refs(es@);
    assert(closures_view(out@) =~= closures_among(all.take(0)));
    for i in 0..es.len()
        invariant
            all == expr_refs(es@),
            closures_view(out@) == closures_among(all.take(i as int)),
    {
        proof {
            assert(all.take(i + 1).drop_last() =~= all.take(i as int));
            assert(all.take(i + 1).last() == es[i as int]@);
        }
        let ghost before = closures_view(out@);
        if let Expr::Closure(ps, cbody, span) = es[i] {
            let ghost entry = (params_view(ps@), body_block(cbody@, *span));
            out.push((clone_params(ps), block_of_body(cbody, *span)));
            assert(closures_view(out@) =~= before.push(entry));
        }
    }
    assert(all.take(es.len() as int) =~= all);
    out
}

/// The names a closure body mentions but does not bind.
pub open spec fn free_names(ps: Seq<ParamV>, ss: Seq<StmtV>) -> Set<Seq<char>> {
    idents(ss).difference(bound_anywhere(ps, ss))
}

/// The names of `refs` that are not in `bound`.
pub fn names_without(refs: &NameSet, bound: &NameSet) -> (r: NameSet)
    ensures
        r@ == refs@.difference(bound@),
{
    let mut out = NameSet::new();
    let items = refs.items();
    let ghost all = texts(items@);
    for i in 0..items.len()
        invariant
            all == texts(items@),
            forall|n: Seq<char>| out@.contains(n) <==> all.take(i as int).contains(n) && !bound@.contains(n),
    {
        let ghost before = out@;
        if !bound.contains(items[i].as_str()) {
            out.insert(items[i].as_str());
        }
        proof {
            let t = all.take(i + 1);
            let s = all.take(i as int);
            assert(t =~= s.push(all[i as int]));
            assert forall|n: Seq<char>| t.contains(n) <==> s.contains(n) || n == all[i as int] by {
                if s.contains(n) {
                    let j = choose|j: int| 0 <= j < s.len() && s[j] == n;
                    assert(t[j] == n);
                }
                assert(t[i as int] == all[i as int]);
                if t.contains(n) && n != all[i as int] {
                    let j = choose|j: int| 0 <= j < t.len() && t[j] == n;
                    assert(s[j] == n);
                }
            }
        }
    }
    proof {
        assert(all.take(items.len() as int) =~= all);
        assert(out@ =~= refs@.difference(bound@));
    }
    out
}

fn free_set(params: &Vec<Param>, body: &Block) -> (r: NameSet)
    ensures
        r@ == free_names(params_view(params@), body@.stmts),
{
    let bound = bound_names(params, body);
    let mut refs = NameSet::new();
    idents_block(body, &mut refs);
    assert(refs@ =~= idents(body@.stmts));
    names_without(&refs, &bound)
}

/// Free variables of a single closure body relative to its own parameters and
/// locals, in order.
pub fn free_vars_of(params: &Vec<Param>, body: &Block) -> (r: Vec<String>)
    ensures
        texts(r@) == in_order(free_names(params_view(params@), body@.stmts)),
{
    let free = free_set(params, body);
    clone_strings(free.items())
}

/// The names free in any of some closures.
pub open spec fn free_in_any(cs: Seq<(Seq<ParamV>, BlockV)>) -> Set<Seq<char>>
    decreases cs.len(),
{
    if cs.len() == 0 {
        Set::empty()
    } else {
        free_in_any(cs.drop_last()).union(free_names(cs.last().0, cs.last().1.stmts))
    }
}

/// The names referenced free in any closure inside `body`.
pub fn closure_free_vars(body: &Block) -> (r: NameSet)
    ensures
        r@ == free_in_any(closures_in(body@.stmts)),
{
    let cs = each_nested_closure(body);
    let mut out = NameSet::new();
    let ghost all = closures_view(cs@);
    assert(out@ =~= free_in_any(all.take(0)));
    for i in 0..cs.len()
        invariant
            all == closures_view(cs@),
            out@ == free_in_any(all.take(i as int)),
    {
        proof {
            assert(all.take(i + 1).drop_last() =~= all.take(i as int));
            assert(all.take(i + 1).last() == (params_view(cs[i as int].0@), cs[i as int].1@));
        }
        let free = free_set(&cs[i].0, &cs[i].1);
        out.extend(&free);
    }
    assert(all.take(cs.len() as int) =~= all);
    out
}

/// A closure's free variables are never its own parameters or locals.
pub proof fn free_names_are_not_bound(ps: Seq<ParamV>, ss: Seq<StmtV>, n: Seq<char>)
    ensures
        free_names(ps, ss).contains(n) ==> !param_names(ps).contains(n) && !names_of(
            bound_in_stmts(ss, false),
        ).contains(n),
{
}

} // verus!
