//! Hover markdown for a function: its generic signature, then, when it is called with
//! concrete types, a separated section binding each `unknown_N` to the concrete type it
//! takes at the call site, e.g.
//!
//! ```text
//! fun f(a: unknown_0, b: unknown_1) -> unknown_0
//! ---
//! unknown_0 = int32, unknown_1 = string
//! ```

use vstd::prelude::*;
use std::collections::{HashMap, HashSet};
use crate::analysis::FullAnalysis;
use crate::ast::{BlockV, TopLevelV};
use crate::hir::{param_infos_view, FunInfo, FunInfoV, ParamInfo, ParamInfoV};
use crate::mutation::{mutates_root, stmts_mutate};
use crate::nav::{bound, collect_bindings, first_return, first_use, generic_param_type, generic_return_type, inferred_return, returned_type};
use crate::render::{modes, no_names, opt_types, render_signature_into, render_type, rendered, rendered_signature, unknown_name, NamerV, UnknownNamer};
use crate::span::Span;
use crate::text::{cat2, cat3, dec_string, join, join_strings, str_eq, texts};
use crate::typed::TypedExprV;
use crate::types::{bindings, clone_type, free_vars, is_fully_known, opt_type, types_view, vars, vars_all, vars_subst, Substitution, Type, TypeV};

verus! {

/// Base for synthetic variable ids given to unannotated parameters that have no body use
/// (so no recorded inference variable), high enough not to collide with real ids.
pub const SYNTH_BASE: u32 = 0xFFFF_0000;

/// Text as a Prepoly code block.
pub open spec fn code_block(code: Seq<char>) -> Seq<char> {
    "```prepoly\n"@ + code + "\n```"@
}

/// Wrap text in a Prepoly code block.
pub fn fenced(code: &str) -> (r: String)
    ensures
        r@ == code_block(code@),
{
    cat3("```prepoly\n", code, "\n```")
}

// ---- shared variables ----

/// Whether no variable of `ty` is in `set`.
fn avoids(ty: &Type, set: &HashSet<u32>) -> (r: bool)
    ensures
        r == vars(ty@).disjoint(set@),
    decreases *ty,
{
    broadcast use vstd::std_specs::hash::group_hash_axioms;

    match ty {
        Type::Unknown(id) => {
            let r = !set.contains(id);
            assert(vars(ty@).contains(*id));
            r
        },
        Type::Array(t, _) => avoids(t, set),
        Type::Slice(t) => avoids(t, set),
        Type::Nullable(t) => avoids(t, set),
        Type::ConstOf(t) => avoids(t, set),
        Type::Mut(t) => avoids(t, set),
        Type::Ref(t) => avoids(t, set),
        Type::Fun(ps, r) => {
            let a = all_avoid(ps, set);
            let b = avoids(r, set);
            proof {
                disjoint_union(vars_all(types_view(ps@)), vars(r@), set@);
            }
            a && b
        },
        Type::Tuple(ts) => all_avoid(ts, set),
        Type::Record(n) => entries_avoid(&n.substitution, set),
        Type::Sum(n) => entries_avoid(&n.substitution, set),
        _ => true,
    }
}

proof fn disjoint_union(a: Set<u32>, b: Set<u32>, s: Set<u32>)
    ensures
        a.union(b).disjoint(s) == (a.disjoint(s) && b.disjoint(s)),
{
    if a.union(b).disjoint(s) {
        assert forall|x: u32| a.contains(x) || b.contains(x) implies !s.contains(x) by {
            assert(a.union(b).contains(x));
        }
    }
}

fn all_avoid(ts: &Vec<Type>, set: &HashSet<u32>) -> (r: bool)
    ensures
        r == vars_all(types_view(ts@)).disjoint(set@),
    decreases *ts,
{
    let ghost all = types_view(ts@);
    let mut r = true;
    for i in 0..ts.len()
        invariant
            all == types_view(ts@),
            r == vars_all(all.take(i as int)).disjoint(set@),
    {
        let k = avoids(&ts[i], set);
        proof {
            assert(all.take(i + 1).drop_last() =~= all.take(i as int));
            assert(all.take(i + 1).last() == ts[i as int]@);
            disjoint_union(vars_all(all.take(i as int)), vars(ts[i as int]@), set@);
        }
        r = r && k;
    }
    assert(all.take(ts.len() as int) =~= all);
    r
}

fn entries_avoid(s: &Substitution, set: &HashSet<u32>) -> (r: bool)
    ensures
        r == vars_subst(s@).disjoint(set@),
    decreases *s,
{
    let n: usize = s.len();
    let mut r = true;
    for i in 0..n
        invariant
            n == s@.len(),
            r == vars_subst(s@.take(i as int)).disjoint(set@),
    {
        let k = avoids(s.type_at(i), set);
        proof {
            assert(s@.take(i + 1).drop_last() =~= s@.take(i as int));
            assert(s@.take(i + 1).last() == s@[i as int]);
            disjoint_union(vars_subst(s@.take(i as int)), vars(s@[i as int].1), set@);
        }
        r = r && k;
    }
    assert(s@.take(n as int) =~= s@);
    r
}

// ---- parameters ----

/// The generic type of an unannotated parameter: that of its first recorded use in the
/// body, or a synthetic variable.
pub open spec fn generic_of(p: ParamInfoV, i: int, body: Span, es: Seq<TypedExprV>) -> TypeV {
    match first_use(es, 0, p.name, body) {
        Some(t) => t,
        None => TypeV::Unknown((SYNTH_BASE + i) as u32),
    }
}

/// What is shown for an unannotated parameter, and what is bound against the argument of
/// a call; a bare receiver has neither.
pub open spec fn param_slot(p: ParamInfoV, i: int, body: Span, es: Seq<TypedExprV>) -> (
    Option<TypeV>,
    Option<TypeV>,
) {
    match p.resolved_ty {
        Some(t) => (None, Some(t)),
        None => if p.name == "self"@ {
            (None, None)
        } else {
            (Some(generic_of(p, i, body, es)), Some(generic_of(p, i, body, es)))
        },
    }
}

/// The slots of all parameters.
pub open spec fn param_slots(ps: Seq<ParamInfoV>, body: Span, es: Seq<TypedExprV>) -> Seq<
    (Option<TypeV>, Option<TypeV>),
> {
    Seq::new(ps.len(), |i: int| param_slot(ps[i], i, body, es))
}

/// The first parts of the slots: what overrides a signature's own types.
pub open spec fn shown(s: Seq<(Option<TypeV>, Option<TypeV>)>) -> Seq<Option<TypeV>> {
    Seq::new(s.len(), |i: int| s[i].0)
}

/// The second parts of the slots: the types of the parameters.
pub open spec fn taken(s: Seq<(Option<TypeV>, Option<TypeV>)>) -> Seq<Option<TypeV>> {
    Seq::new(s.len(), |i: int| s[i].1)
}

/// Whether `t` has a variable in common with one of the types.
pub open spec fn depends_on(t: TypeV, ts: Seq<Option<TypeV>>) -> bool {
    exists|i: int| shares(t, #[trigger] ts[i], i, ts.len() as int)
}

/// Whether `t` has a variable in common with `o`, the `i`-th of `n` types.
pub open spec fn shares(t: TypeV, o: Option<TypeV>, i: int, n: int) -> bool {
    0 <= i < n && (o matches Some(p) && !vars(t).disjoint(vars(p)))
}

fn depends(t: &Type, ts: &Vec<Option<Type>>) -> (r: bool)
    ensures
        r == depends_on(t@, opt_types(ts@)),
{
    let ghost tv = opt_types(ts@);
    for i in 0..ts.len()
        invariant
            tv == opt_types(ts@),
            forall|j: int| 0 <= j < i ==> !shares(t@, #[trigger] tv[j], j, tv.len() as int),
    {
        assert(tv[i as int] == opt_type(ts[i as int]));
        if let Some(p) = &ts[i] {
            let fv = free_vars(p);
            if !avoids(t, &fv) {
                assert(shares(t@, tv[i as int], i as int, tv.len() as int));
                return true;
            }
        }
    }
    assert(!depends_on(t@, tv)) by {
        if depends_on(t@, tv) {
            let i = choose|i: int| shares(t@, #[trigger] tv[i], i, tv.len() as int);
            assert(!shares(t@, tv[i], i, tv.len() as int));
        }
    }
    false
}

/// The return type shown for a function without a return annotation: the recorded one
/// where it depends on a parameter, else the one its calls agree on.
pub open spec fn shown_return(
    f: FunInfoV,
    items: Seq<TopLevelV>,
    es: Seq<TypedExprV>,
    params: Seq<Option<TypeV>>,
) -> Option<TypeV> {
    match f.signature.ret_ty {
        Some(_) => None,
        None => match first_return(f.decl.body, es) {
            Some(g) if depends_on(g, params) => Some(g),
            _ => returned_type(items, es, f.signature.name),
        },
    }
}

fn find_return(full: &FullAnalysis, f: &FunInfo, params: &Vec<Option<Type>>) -> (r: Option<Type>)
    ensures
        opt_type(r) == shown_return(f@, full.main_ast@.items, full.typed@, opt_types(params@)),
{
    if f.signature.ret_ty.is_some() {
        return None;
    }
    if let Some(g) = generic_return_type(full, f) {
        if depends(&g, params) {
            return Some(g);
        }
    }
    inferred_return(full, f.signature.name.as_str())
}

/// Which parameters a body mutates.
pub open spec fn mutations(ps: Seq<ParamInfoV>, body: BlockV) -> Seq<Option<bool>> {
    Seq::new(ps.len(), |i: int| Some(stmts_mutate(body.stmts, ps[i].name)))
}

/// The parameters a body mutates: such a parameter is a private `mut` copy, any other a
/// `ref` borrow.
pub fn mutated_params(
    params: &Vec<ParamInfo>,
    body: &crate::ast::Block,
) -> (r: Vec<bool>)
    ensures
        modes(Some(&r)) == mutations(param_infos_view(params@), body@),
{
    let mut out: Vec<bool> = Vec::new();
    for i in 0..params.len()
        invariant
            out.len() == i,
            forall|j: int|
                0 <= j < i ==> out[j] == stmts_mutate(body@.stmts, (#[trigger] params[j])@.name),
    {
        out.push(mutates_root(body, params[i].name.as_str()));
    }
    proof {
        let want = mutations(param_infos_view(params@), body@);
        assert forall|j: int| 0 <= j < out.len() implies modes(Some(&out))[j] == want[j] by {
            assert(param_infos_view(params@)[j] == params[j]@);
        }
        assert(modes(Some(&out)) =~= want);
    }
    out
}

// ---- bindings of a call ----

/// The variables of the first `n` parameters bound to the types a call passes.
pub open spec fn call_bindings(params: Seq<Option<TypeV>>, n: int, args: Seq<TypeV>) -> Map<
    u32,
    TypeV,
>
    decreases n,
{
    if n <= 0 {
        Map::empty()
    } else {
        let before = call_bindings(params, n - 1, args);
        match params[n - 1] {
            Some(g) if n <= args.len() => bound(g, args[n - 1], before),
            _ => before,
        }
    }
}

/// `unknown_N = T` for each of the first `n` numbers whose variable a call binds to a
/// type without variables. A binding to a type that still has some comes from a
/// recursive (or otherwise generic) call and would just restate the signature.
pub open spec fn binding_lines(numbered: Seq<Option<u32>>, n: int, m: Map<u32, TypeV>) -> Seq<
    Seq<char>,
>
    decreases n,
{
    if n <= 0 {
        Seq::empty()
    } else {
        let before = binding_lines(numbered, n - 1, m);
        match numbered[n - 1] {
            Some(id) => if m.contains_key(id) && vars(m[id]) == Set::<u32>::empty() {
                before.push(unknown_name(n - 1) + " = "@ + rendered(m[id], no_names()).0)
            } else {
                before
            },
            None => before,
        }
    }
}

fn bind_call(params: &Vec<Option<Type>>, args: &Vec<Type>) -> (r: HashMap<u32, Type>)
    ensures
        bindings(r@) == call_bindings(
            opt_types(params@),
            params@.len() as int,
            types_view(args@),
        ),
{
    broadcast use vstd::std_specs::hash::group_hash_axioms;

    let ghost pv = opt_types(params@);
    let ghost av = types_view(args@);
    let mut out: HashMap<u32, Type> = HashMap::new();
    assert(bindings(out@) =~= Map::empty());
    for i in 0..params.len()
        invariant
            pv == opt_types(params@),
            av == types_view(args@),
            bindings(out@) == call_bindings(pv, i as int, av),
    {
        assert(pv[i as int] == opt_type(params[i as int]));
        if i < args.len() {
            if let Some(g) = &params[i] {
                assert(av[i as int] == args[i as int]@);
                collect_bindings(g, &args[i], &mut out);
            }
        }
    }
    out
}

fn lines_of(namer: &UnknownNamer, map: &HashMap<u32, Type>) -> (r: Vec<String>)
    ensures
        texts(r@) == binding_lines(
            namer@.numbered,
            namer@.numbered.len() as int,
            bindings(map@),
        ),
{
    broadcast use vstd::std_specs::hash::group_hash_axioms;

    let ghost nv = namer@.numbered;
    let ghost m = bindings(map@);
    let mut out: Vec<String> = Vec::new();
    assert(texts(out@) =~= Seq::empty());
    for i in 0..namer.numbered.len()
        invariant
            nv == namer@.numbered,
            m == bindings(map@),
            texts(out@) == binding_lines(nv, i as int, m),
    {
        let ghost done = texts(out@);
        if let Some(id) = namer.numbered[i] {
            if let Some(t) = map.get(&id) {
                if is_fully_known(t) {
                    let mut cn = UnknownNamer::default();
                    let mut line = cat2("unknown_", dec_string(i as u64).as_str());
                    line.push_str(" = ");
                    line.push_str(render_type(t, &mut cn).as_str());
                    out.push(line);
                    assert(texts(out@) =~= done.push(line@));
                }
            }
        }
    }
    out
}

// ---- markdown ----

/// The generic signature of a function as hover shows it, and the namer after it.
pub open spec fn generic_signature(f: FunInfoV, items: Seq<TopLevelV>, es: Seq<TypedExprV>) -> (
    Seq<char>,
    NamerV,
) {
    let slots = param_slots(f.signature.params, f.decl.body.span, es);
    rendered_signature(
        f.signature,
        shown(slots),
        shown_return(f, items, es, taken(slots)),
        mutations(f.signature.params, f.decl.body),
        no_names(),
    )
}

/// The bindings section of a call that passes `args`.
pub open spec fn call_lines(
    f: FunInfoV,
    items: Seq<TopLevelV>,
    es: Seq<TypedExprV>,
    args: Option<Seq<TypeV>>,
) -> Seq<Seq<char>> {
    let params = taken(param_slots(f.signature.params, f.decl.body.span, es));
    let numbered = generic_signature(f, items, es).1.numbered;
    match args {
        Some(a) => binding_lines(
            numbered,
            numbered.len() as int,
            call_bindings(params, params.len() as int, a),
        ),
        None => Seq::empty(),
    }
}

/// The hover markdown of a function.
pub open spec fn function_text(
    f: FunInfoV,
    items: Seq<TopLevelV>,
    es: Seq<TypedExprV>,
    args: Option<Seq<TypeV>>,
) -> Seq<char> {
    let sig = code_block(generic_signature(f, items, es).0);
    let lines = call_lines(f, items, es, args);
    if lines.len() == 0 {
        sig
    } else {
        sig + "\n\n---\n\n"@ + code_block(join(lines, ", "@))
    }
}

fn slots_of(full: &FullAnalysis, f: &FunInfo) -> (r: (Vec<Option<Type>>, Vec<Option<Type>>))
    requires
        f.signature.params@.len() <= 0x10000,
    ensures
        opt_types(r.0@) == shown(
            param_slots(f@.signature.params, f@.decl.body.span, full.typed@),
        ),
        opt_types(r.1@) == taken(
            param_slots(f@.signature.params, f@.decl.body.span, full.typed@),
        ),
{
    let body = f.decl.body.span;
    let ps = &f.signature.params;
    let ghost slots = param_slots(f@.signature.params, body, full.typed@);
    let mut overrides: Vec<Option<Type>> = Vec::new();
    let mut types: Vec<Option<Type>> = Vec::new();
    for i in 0..ps.len()
        invariant
            *ps == f.signature.params,
            ps@.len() <= 0x10000,
            body == f.decl.body.span,
            slots == param_slots(f@.signature.params, body, full.typed@),
            overrides.len() == i,
            types.len() == i,
            forall|j: int| 0 <= j < i ==> opt_type(#[trigger] overrides[j]) == slots[j].0,
            forall|j: int| 0 <= j < i ==> opt_type(#[trigger] types[j]) == slots[j].1,
    {
        let p = &ps[i];
        assert(f@.signature.params[i as int] == p@);
        match &p.resolved_ty {
            Some(t) => {
                overrides.push(None);
                types.push(Some(clone_type(t)));
            },
            None => {
                if str_eq(p.name.as_str(), "self") {
                    overrides.push(None);
                    types.push(None);
                } else {
                    let g = match generic_param_type(full, body, p.name.as_str()) {
                        Some(t) => t,
                        None => Type::Unknown(SYNTH_BASE + i as u32),
                    };
                    overrides.push(Some(clone_type(&g)));
                    types.push(Some(g));
                }
            },
        }
    }
    assert(opt_types(overrides@) =~= shown(slots));
    assert(opt_types(types@) =~= taken(slots));
    (overrides, types)
}

/// The hover markdown for free function `f`. When `call_args` is given (the cursor is on
/// a call), a bindings section maps each `unknown_N` to the type that call instantiates
/// it with; otherwise only the generic signature is shown.
pub fn function_markdown(
    full: &FullAnalysis,
    f: &FunInfo,
    call_args: Option<&Vec<Type>>,
) -> (r: String)
    requires
        f.signature.params@.len() <= 0x10000,
    ensures
        r@ == function_text(
            f@,
            full.main_ast@.items,
            full.typed@,
            match call_args {
                Some(a) => Some(types_view(a@)),
                None => None,
            },
        ),
{
    let (overrides, types) = slots_of(full, f);
    let ret = find_return(full, f, &types);
    let mutated = mutated_params(&f.signature.params, &f.decl.body);
    let mut namer = UnknownNamer::default();
    let sig = render_signature_into(
        &f.signature,
        &overrides,
        ret.as_ref(),
        Some(&mutated),
        &mut namer,
    );
    let mut value = fenced(sig.as_str());
    if let Some(args) = call_args {
        let map = bind_call(&types, args);
        let lines = lines_of(&namer, &map);
        if lines.len() > 0 {
            assert(texts(lines@).len() > 0);
            value.push_str("\n\n---\n\n");
            value.push_str(fenced(join_strings(lines.as_slice(), ", ").as_str()).as_str());
        } else {
            assert(texts(lines@).len() == 0);
        }
    }
    value
}

} // verus!
