//! Hover: the type of the expression under the cursor, the signature of a function or
//! method, or the definition of a type.
//!
//! Function signatures render unannotated parameters and returns as numbered `unknown_N`,
//! which is the contract for displaying a function type that inference has left partly
//! open.

use vstd::prelude::*;
use std::collections::HashMap;
use crate::analysis::{FullAnalysis, TypeScheme};
use crate::ast::{Block, BlockV, TopLevelV};
use crate::definition::{main_module, main_path};
use crate::document::{begins_at, begins_at_unique, find_index, index_at, index_of, Document, Position};
use crate::hir::{clone_callable_signature, clone_param_info, function_in, named_fun_infos_view, named_method_infos_view, param_infos_view, prim_view, resolved_key, type_in, type_with_id, CallableSignature, CallableSignatureV, ParamInfo, ParamInfoV, Program, ProgramV, TypeKind, TypeKindV};
use crate::lexer::{all_stand_on, lexed, span_of, stands_on, tokens_stand_on_characters};
use crate::nav::{bare, call_args, call_args_at_span, enclosing_call, ident_at, ident_from, ident_in, local_type, local_var_type, opt_typed, peel_transparent, smallest_at, smallest_call_at, smallest_typed_at};
use crate::offsets::{byte_off, byte_off_grows, Chars};
use crate::render::{no_names, opt_types, render_signature_into, render_type, render_type_def, render_type_def_with, rendered, rendered_def, rendered_signature, UnknownNamer};
use crate::signature::{code_block, fenced, function_markdown, function_text, mutated_params, mutations};
use crate::span::Span;
use crate::table::{find_key, first_pos, first_pos_contains, first_pos_facts, first_pos_unique, keys_of, lookup, names};
use crate::text::{cat3, str_eq};
use crate::token::TokenV;
use crate::typed::{TypedExpr, TypedExprKind, TypedExprKindV, TypedExprV};
use crate::types::{bindings, class_of, clone_type, opt_type, opt_type_ref, substitute_vars, substituted, types_view, Substitution, Type, TypeV};

verus! {

/// What a hover shows, and the part of the document it is about.
#[derive(Debug, PartialEq)]
pub struct Hover {
    pub value: String,
    pub span: Option<Span>,
}

/// The model of [`Hover`].
#[verifier::ext_equal]
pub ghost struct HoverV {
    pub value: Seq<char>,
    pub span: Option<Span>,
}

impl View for Hover {
    type V = HoverV;

    open spec fn view(&self) -> HoverV {
        HoverV { value: self.value@, span: self.span }
    }
}

/// The model of an optional hover.
pub open spec fn opt_hover(o: Option<Hover>) -> Option<HoverV> {
    match o {
        Some(h) => Some(h@),
        None => None,
    }
}

// ---- markup ----

/// A code block, with the declaration's doc comment below it behind a separator.
pub open spec fn documented(code: Seq<char>, doc: Option<Seq<char>>) -> Seq<char> {
    match doc {
        Some(d) => code_block(code) + "\n\n---\n\n"@ + d,
        None => code_block(code),
    }
}

/// The text of an optional borrowed string.
pub open spec fn opt_string(o: Option<&String>) -> Option<Seq<char>> {
    match o {
        Some(s) => Some(s@),
        None => None,
    }
}

fn markup_with_doc(code: &str, doc: Option<&String>, span: Option<Span>) -> (r: Hover)
    ensures
        r@ == (HoverV { value: documented(code@, opt_string(doc)), span }),
{
    let mut value = fenced(code);
    if let Some(d) = doc {
        value.push_str("\n\n---\n\n");
        value.push_str(d.as_str());
    }
    Hover { value, span }
}

/// A global span as a span of the document that begins at `base`, when it lies in it.
pub open spec fn local_span(base: int, span: Span) -> Option<Span> {
    if span.lo < base {
        None
    } else {
        Some(
            Span {
                lo: (span.lo - base) as usize,
                hi: (if span.hi >= base {
                    span.hi - base
                } else {
                    0
                }) as usize,
            },
        )
    }
}

fn local_range(full: &FullAnalysis, span: Span) -> (r: Option<Span>)
    ensures
        r == local_span(full.main_base as int, span),
{
    let base = full.main_base;
    if span.lo < base {
        return None;
    }
    let hi: usize = if span.hi >= base {
        span.hi - base
    } else {
        0
    };
    Some(Span::new(span.lo - base, hi))
}

// ---- values ----

/// `name: type`.
pub open spec fn typed_name(name: Seq<char>, ty: TypeV) -> Seq<char> {
    name + ": "@ + rendered(ty, no_names()).0
}

/// The hover of a value named `name`: a record shows its public members with the types
/// of this instance, any other value the compact `name: type` form.
pub open spec fn value_text(p: ProgramV, name: Seq<char>, ty: TypeV) -> Seq<char> {
    let info = match bare(ty) {
        TypeV::Record(n) => match type_with_id(p.types, n.id) {
            Some(i) => Some((i, n.subst)),
            None => None,
        },
        _ => None,
    };
    match info {
        Some((i, subst)) => documented(rendered_def(i, Some(subst)), i.doc),
        None => code_block(typed_name(name, ty)),
    }
}

fn typed_name_string(name: &str, ty: &Type) -> (r: String)
    ensures
        r@ == typed_name(name@, ty@),
{
    let mut namer = UnknownNamer::default();
    cat3(name, ": ", render_type(ty, &mut namer).as_str())
}

fn value_hover(full: &FullAnalysis, name: &str, ty: &Type, span: Option<Span>) -> (r: Hover)
    ensures
        r@ == (HoverV { value: value_text(full.program@, name@, ty@), span }),
{
    if let Type::Record(n) = peel_transparent(ty) {
        if let Some(info) = full.program.type_by_id(n.id) {
            let def = render_type_def_with(info, &n.substitution);
            return markup_with_doc(def.as_str(), info.doc.as_ref(), span);
        }
    }
    markup_with_doc(typed_name_string(name, ty).as_str(), None, span)
}

// ---- receivers ----

/// Among the first `n` recorded expressions, the first of those ending at `hi` that
/// begin earliest.
pub open spec fn widest_ending(es: Seq<TypedExprV>, n: int, hi: int) -> Option<int>
    decreases n,
{
    if n <= 0 {
        None
    } else {
        let best = widest_ending(es, n - 1, hi);
        if es[n - 1].span.hi == hi && (match best {
            Some(b) => es[n - 1].span.lo < es[b].span.lo,
            None => true,
        }) {
            Some(n - 1)
        } else {
            best
        }
    }
}

/// The type of the receiver expression ending at `hi`: the widest one, so `foo.bar.m`
/// uses `foo.bar`.
pub open spec fn receiver_type(es: Seq<TypedExprV>, hi: int) -> Option<TypeV> {
    match widest_ending(es, es.len() as int, hi) {
        Some(i) => Some(es[i].ty),
        None => None,
    }
}

/// The inferred type of the receiver expression ending at global offset `hi` (just before
/// the `.`).
pub fn receiver_type_at(full: &FullAnalysis, hi: usize) -> (r: Option<&Type>)
    ensures
        opt_type_ref(r) == receiver_type(full.typed@, hi as int),
{
    let es = &full.typed.expressions;
    let ghost ev = full.typed@;
    let mut best: Option<usize> = None;
    for i in 0..es.len()
        invariant
            ev == full.typed@,
            *es == full.typed.expressions,
            match best {
                Some(b) => b < i && widest_ending(ev, i as int, hi as int) == Some(b as int),
                None => widest_ending(ev, i as int, hi as int) is None,
            },
    {
        assert(ev[i as int] == es[i as int]@);
        if es[i].span.hi == hi {
            let wider = match best {
                Some(b) => {
                    assert(ev[b as int] == es[b as int]@);
                    es[i].span.lo < es[b].span.lo
                },
                None => true,
            };
            if wider {
                best = Some(i);
            }
        }
    }
    match best {
        Some(b) => {
            assert(ev[b as int] == es[b as int]@);
            Some(&es[b].ty)
        },
        None => None,
    }
}

// ---- methods ----

/// A method: its signature, its body if it has one, and its doc comment.
pub ghost struct FoundMethodV {
    pub signature: CallableSignatureV,
    pub body: Option<BlockV>,
    pub doc: Option<Seq<char>>,
}

/// A method found for a receiver.
pub struct FoundMethod<'a> {
    pub signature: &'a CallableSignature,
    pub body: Option<&'a Block>,
    pub doc: Option<&'a String>,
}

/// The model of an optional block.
pub open spec fn opt_block(o: Option<&Block>) -> Option<BlockV> {
    match o {
        Some(b) => Some(b@),
        None => None,
    }
}

/// The model of an optional found method.
pub open spec fn opt_found(o: Option<FoundMethod>) -> Option<FoundMethodV> {
    match o {
        Some(m) => Some(
            FoundMethodV { signature: m.signature@, body: opt_block(m.body), doc: opt_string(m.doc) },
        ),
        None => None,
    }
}

/// Method `name` of the record type with an id.
pub open spec fn record_method_of(p: ProgramV, id: i32, name: Seq<char>) -> Option<FoundMethodV> {
    match type_with_id(p.types, id) {
        Some(info) => match info.kind {
            TypeKindV::Record { methods, .. } => match lookup(methods, name) {
                Some(m) => Some(
                    FoundMethodV { signature: m.signature, body: m.decl.body, doc: m.decl.doc },
                ),
                None => None,
            },
            _ => None,
        },
        None => None,
    }
}

/// Method `name` implemented on a primitive or array class.
pub open spec fn primitive_method_of(p: ProgramV, t: TypeV, name: Seq<char>) -> Option<FoundMethodV> {
    match class_of(t) {
        Some(class) => match lookup(p.primitive_methods, (class, name)) {
            Some(symbol) => match lookup(p.functions, symbol) {
                Some(f) => Some(
                    FoundMethodV { signature: f.signature, body: Some(f.decl.body), doc: f.decl.doc },
                ),
                None => None,
            },
            None => None,
        },
        None => None,
    }
}

/// Method `name` on a receiver of type `t`, seen through reference, mutability, const and
/// nullable wrappers.
pub open spec fn method_on(p: ProgramV, t: TypeV, name: Seq<char>) -> Option<FoundMethodV> {
    match bare(t) {
        TypeV::Record(n) => record_method_of(p, n.id, name),
        TypeV::Sum(n) => record_method_of(p, n.id, name),
        _ => primitive_method_of(p, bare(t), name),
    }
}

fn find_record_method<'a>(full: &'a FullAnalysis, id: i32, name: &str) -> (r: Option<
    FoundMethod<'a>,
>)
    ensures
        opt_found(r) == record_method_of(full.program@, id, name@),
{
    let info = match full.program.type_by_id(id) {
        Some(i) => i,
        None => {
            return None;
        },
    };
    match &info.kind {
        TypeKind::Record { methods, .. } => {
            let i = find_key(methods, name);
            assert(names(methods@) =~= keys_of(named_method_infos_view(methods@)));
            if i < methods.len() {
                let m = &methods[i].1;
                assert(named_method_infos_view(methods@)[i as int].1 == m@);
                let body = m.decl.body.as_ref();
                let doc = m.decl.doc.as_ref();
                assert(opt_block(body) == m@.decl.body);
                assert(opt_string(doc) == m@.decl.doc);
                Some(FoundMethod { signature: &m.signature, body, doc })
            } else {
                None
            }
        },
        TypeKind::Sum { .. } => None,
    }
}

/// The symbol of the method a class implements.
fn primitive_symbol<'a>(program: &'a Program, class: &str, name: &str) -> (r: Option<&'a String>)
    ensures
        opt_string(r) == lookup(program@.primitive_methods, (class@, name@)),
{
    let ms = &program.primitive_methods;
    let ghost mv = prim_view(ms@);
    for i in 0..ms.len()
        invariant
            *ms == program.primitive_methods,
            mv == prim_view(ms@),
            forall|j: int| 0 <= j < i ==> keys_of(mv)[j] != (class@, name@),
    {
        assert(keys_of(mv)[i as int] == (ms[i as int].0.0@, ms[i as int].0.1@));
        if str_eq(ms[i].0.0.as_str(), class) && str_eq(ms[i].0.1.as_str(), name) {
            proof {
                first_pos_unique(keys_of(mv), (class@, name@), i as int);
            }
            return Some(&ms[i].1);
        }
    }
    proof {
        first_pos_unique(keys_of(mv), (class@, name@), ms@.len() as int);
    }
    None
}

fn find_primitive_method<'a>(full: &'a FullAnalysis, t: &Type, name: &str) -> (r: Option<
    FoundMethod<'a>,
>)
    ensures
        opt_found(r) == primitive_method_of(full.program@, t@, name@),
{
    let class = match t.primitive_class() {
        Some(c) => c,
        None => {
            return None;
        },
    };
    let symbol = match primitive_symbol(&full.program, class, name) {
        Some(s) => s,
        None => {
            return None;
        },
    };
    let fs = &full.program.functions;
    let i = find_key(fs, symbol.as_str());
    assert(names(fs@) =~= keys_of(named_fun_infos_view(fs@)));
    if i < fs.len() {
        let f = &fs[i].1;
        assert(named_fun_infos_view(fs@)[i as int].1 == f@);
        let doc = f.decl.doc.as_ref();
        assert(opt_string(doc) == f@.decl.doc);
        Some(FoundMethod { signature: &f.signature, body: Some(&f.decl.body), doc })
    } else {
        None
    }
}

/// The method `name` on a receiver of type `recv_ty`: declared on its record type, or
/// implemented on its primitive or array class.
pub fn find_method<'a>(full: &'a FullAnalysis, recv_ty: &Type, name: &str) -> (r: Option<
    FoundMethod<'a>,
>)
    ensures
        opt_found(r) == method_on(full.program@, recv_ty@, name@),
{
    let t = peel_transparent(recv_ty);
    match t {
        Type::Record(n) => find_record_method(full, n.id, name),
        Type::Sum(n) => find_record_method(full, n.id, name),
        _ => find_primitive_method(full, t, name),
    }
}

// ---- schemes ----

/// The model of [`TypeScheme`]: what resolving a signature reads of it.
pub ghost struct SchemeV {
    pub params: Seq<u32>,
    pub fields: Seq<(Seq<char>, TypeV)>,
    pub returns: Seq<(Seq<char>, TypeV)>,
}

impl View for TypeScheme {
    type V = SchemeV;

    open spec fn view(&self) -> SchemeV {
        SchemeV {
            params: self.params@,
            fields: Seq::new(self.fields@.len(), |i: int| (self.fields@[i].0@, self.fields@[i].1@)),
            returns: Seq::new(
                self.methods@.len(),
                |i: int| (self.methods@[i].0@, self.methods@[i].1.ret@),
            ),
        }
    }
}

/// The models of named schemes.
pub open spec fn schemes_view(v: Seq<(String, TypeScheme)>) -> Seq<(Seq<char>, SchemeV)> {
    Seq::new(v.len(), |i: int| (v[i].0@, v[i].1@))
}

/// `m` with each parameter of a scheme that stands in `scheme_ty` bound to what stands in
/// its place in `actual`; a parameter that is bound already stays bound as it is.
pub open spec fn matched(
    scheme_ty: TypeV,
    actual: TypeV,
    params: Seq<u32>,
    m: Map<u32, TypeV>,
) -> Map<u32, TypeV>
    decreases scheme_ty,
{
    match (scheme_ty, actual) {
        (TypeV::Unknown(id), a) => if params.contains(id) && !m.contains_key(id) {
            m.insert(id, a)
        } else {
            m
        },
        (TypeV::Slice(s), TypeV::Slice(a)) => matched(*s, *a, params, m),
        (TypeV::Slice(s), TypeV::Array(a, _)) => matched(*s, *a, params, m),
        (TypeV::Array(s, _), TypeV::Slice(a)) => matched(*s, *a, params, m),
        (TypeV::Array(s, _), TypeV::Array(a, _)) => matched(*s, *a, params, m),
        (TypeV::Nullable(s), TypeV::Nullable(a)) => matched(*s, *a, params, m),
        (TypeV::Ref(s), TypeV::Ref(a)) => matched(*s, *a, params, m),
        (TypeV::Mut(s), TypeV::Mut(a)) => matched(*s, *a, params, m),
        (TypeV::ConstOf(s), TypeV::ConstOf(a)) => matched(*s, *a, params, m),
        (TypeV::Tuple(ss), TypeV::Tuple(xs)) => matched_all(ss, xs, params, m),
        (TypeV::Fun(ss, s), TypeV::Fun(xs, a)) => matched(
            *s,
            *a,
            params,
            matched_all(ss, xs, params, m),
        ),
        (TypeV::Record(s), TypeV::Record(a)) => matched_entries(s.subst, a.subst, params, m),
        (TypeV::Sum(s), TypeV::Sum(a)) => matched_entries(s.subst, a.subst, params, m),
        _ => m,
    }
}

/// The same for the types at equal places of two lists.
pub open spec fn matched_all(
    ss: Seq<TypeV>,
    actual: Seq<TypeV>,
    params: Seq<u32>,
    m: Map<u32, TypeV>,
) -> Map<u32, TypeV>
    decreases ss,
{
    if ss.len() == 0 {
        m
    } else {
        let before = matched_all(ss.drop_last(), actual, params, m);
        if ss.len() <= actual.len() {
            matched(ss.last(), actual[ss.len() - 1], params, before)
        } else {
            before
        }
    }
}

/// The same for the entries of two substitutions with the same key.
pub open spec fn matched_entries(
    s: Seq<(Seq<char>, TypeV)>,
    actual: Seq<(Seq<char>, TypeV)>,
    params: Seq<u32>,
    m: Map<u32, TypeV>,
) -> Map<u32, TypeV>
    decreases s,
{
    if s.len() == 0 {
        m
    } else {
        let before = matched_entries(s.drop_last(), actual, params, m);
        match lookup(actual, s.last().0) {
            Some(a) => matched(s.last().1, a, params, before),
            None => before,
        }
    }
}

fn contains_id(v: &Vec<u32>, id: u32) -> (r: bool)
    ensures
        r == v@.contains(id),
{
    for i in 0..v.len()
        invariant
            forall|j: int| 0 <= j < i ==> v[j] != id,
    {
        if v[i] == id {
            return true;
        }
    }
    false
}

fn match_scheme_param(
    scheme_ty: &Type,
    actual: &Type,
    params: &Vec<u32>,
    map: &mut HashMap<u32, Type>,
)
    ensures
        bindings(final(map)@) == matched(
            scheme_ty@,
            actual@,
            params@,
            bindings(old(map)@),
        ),
    decreases *scheme_ty,
{
    broadcast use vstd::std_specs::hash::group_hash_axioms;

    match (scheme_ty, actual) {
        (Type::Unknown(id), a) => {
            let ghost before = bindings(map@);
            if contains_id(params, *id) && !map.contains_key(id) {
                let t = clone_type(a);
                let ghost tv = t@;
                map.insert(*id, t);
                assert(bindings(map@) =~= before.insert(*id, tv));
            }
        },
        (Type::Slice(s), Type::Slice(a)) => match_scheme_param(s, a, params, map),
        (Type::Slice(s), Type::Array(a, _)) => match_scheme_param(s, a, params, map),
        (Type::Array(s, _), Type::Slice(a)) => match_scheme_param(s, a, params, map),
        (Type::Array(s, _), Type::Array(a, _)) => match_scheme_param(s, a, params, map),
        (Type::Nullable(s), Type::Nullable(a)) => match_scheme_param(s, a, params, map),
        (Type::Ref(s), Type::Ref(a)) => match_scheme_param(s, a, params, map),
        (Type::Mut(s), Type::Mut(a)) => match_scheme_param(s, a, params, map),
        (Type::ConstOf(s), Type::ConstOf(a)) => match_scheme_param(s, a, params, map),
        (Type::Tuple(ss), Type::Tuple(xs)) => match_all(ss, xs, params, map),
        (Type::Fun(ss, s), Type::Fun(xs, a)) => {
            match_all(ss, xs, params, map);
            match_scheme_param(s, a, params, map);
        },
        (Type::Record(s), Type::Record(a)) => match_entries(
            &s.substitution,
            &a.substitution,
            params,
            map,
        ),
        (Type::Sum(s), Type::Sum(a)) => match_entries(
            &s.substitution,
            &a.substitution,
            params,
            map,
        ),
        _ => {},
    }
}

fn match_all(
    ss: &Vec<Type>,
    actual: &Vec<Type>,
    params: &Vec<u32>,
    map: &mut HashMap<u32, Type>,
)
    ensures
        bindings(final(map)@) == matched_all(
            types_view(ss@),
            types_view(actual@),
            params@,
            bindings(old(map)@),
        ),
    decreases *ss,
{
    let ghost sv = types_view(ss@);
    let ghost av = types_view(actual@);
    let ghost m = bindings(map@);
    for i in 0..ss.len()
        invariant
            sv == types_view(ss@),
            av == types_view(actual@),
            bindings(map@) == matched_all(sv.take(i as int), av, params@, m),
    {
        proof {
            assert(sv.take(i + 1).drop_last() =~= sv.take(i as int));
            assert(sv.take(i + 1).last() == ss[i as int]@);
        }
        if i < actual.len() {
            assert(av[i as int] == actual[i as int]@);
            match_scheme_param(&ss[i], &actual[i], params, map);
        }
    }
    assert(sv.take(ss.len() as int) =~= sv);
}

fn match_entries(
    s: &Substitution,
    actual: &Substitution,
    params: &Vec<u32>,
    map: &mut HashMap<u32, Type>,
)
    ensures
        bindings(final(map)@) == matched_entries(s@, actual@, params@, bindings(old(map)@)),
    decreases *s,
{
    let ghost m = bindings(map@);
    let n: usize = s.len();
    for i in 0..n
        invariant
            n == s@.len(),
            bindings(map@) == matched_entries(s@.take(i as int), actual@, params@, m),
    {
        proof {
            assert(s@.take(i + 1).drop_last() =~= s@.take(i as int));
            assert(s@.take(i + 1).last() == s@[i as int]);
        }
        if let Some(a) = actual.get(s.key_at(i)) {
            match_scheme_param(s.type_at(i), a, params, map);
        }
    }
    assert(s@.take(n as int) =~= s@);
}

/// Each parameter of a scheme bound to the type an instance has in its place.
pub open spec fn instance_map(
    scheme: SchemeV,
    subst: Seq<(Seq<char>, TypeV)>,
) -> Map<u32, TypeV> {
    matched_entries(scheme.fields, subst, scheme.params, Map::empty())
}

fn instance_param_map(scheme: &TypeScheme, subst: &Substitution) -> (r: HashMap<u32, Type>)
    ensures
        bindings(r@) == instance_map(scheme@, subst@),
{
    broadcast use vstd::std_specs::hash::group_hash_axioms;

    let ghost fv = scheme@.fields;
    let mut map: HashMap<u32, Type> = HashMap::new();
    assert(bindings(map@) =~= Map::empty());
    for i in 0..scheme.fields.len()
        invariant
            fv == scheme@.fields,
            bindings(map@) == matched_entries(
                fv.take(i as int),
                subst@,
                scheme.params@,
                Map::empty(),
            ),
    {
        proof {
            assert(fv.take(i + 1).drop_last() =~= fv.take(i as int));
            assert(fv.take(i + 1).last() == fv[i as int]);
        }
        if let Some(a) = subst.get(scheme.fields[i].0.as_str()) {
            match_scheme_param(&scheme.fields[i].1, a, &scheme.params, &mut map);
        }
    }
    assert(fv.take(scheme.fields.len() as int) =~= fv);
    map
}

// ---- signatures of instances ----

/// A parameter with the variables in `m` replaced in its resolved type.
pub open spec fn substituted_param(p: ParamInfoV, m: Map<u32, TypeV>) -> ParamInfoV {
    ParamInfoV {
        resolved_ty: match p.resolved_ty {
            Some(t) => Some(substituted(t, m)),
            None => None,
        },
        ..p
    }
}

/// A signature with the variables in `m` replaced, returning `ret`.
pub open spec fn substituted_signature(
    sig: CallableSignatureV,
    ret: TypeV,
    m: Map<u32, TypeV>,
) -> CallableSignatureV {
    CallableSignatureV {
        params: Seq::new(sig.params.len(), |i: int| substituted_param(sig.params[i], m)),
        ret_ty: Some(substituted(ret, m)),
        ..sig
    }
}

/// The signature of method `name` as an instance with substitution `subst` has it,
/// through the scheme of its type; unchanged when the scheme does not know the method.
pub open spec fn resolved_signature(
    scheme: Option<SchemeV>,
    subst: Seq<(Seq<char>, TypeV)>,
    name: Seq<char>,
    sig: CallableSignatureV,
) -> CallableSignatureV {
    match scheme {
        Some(s) => match lookup(s.returns, name) {
            Some(ret) => substituted_signature(sig, ret, instance_map(s, subst)),
            None => sig,
        },
        None => sig,
    }
}

/// The scheme of the type named `name`.
pub fn scheme_named<'a>(schemes: &'a Vec<(String, TypeScheme)>, name: &str) -> (r: Option<
    &'a TypeScheme,
>)
    ensures
        (match r {
            Some(s) => Some(s@),
            None => None,
        }) == lookup(schemes_view(schemes@), name@),
{
    let i = find_key(schemes, name);
    assert(names(schemes@) =~= keys_of(schemes_view(schemes@)));
    if i < schemes.len() {
        Some(&schemes[i].1)
    } else {
        None
    }
}

/// Resolve `sig` against an instance with substitution `subst`, using the type's scheme:
/// the scheme's parameters are the variables the stored signature names, so matching the
/// scheme's field types to the instance's fields fixes them. The return is taken from the
/// scheme (the stored signature has none for an unannotated method).
pub fn resolve_signature(
    scheme: Option<&TypeScheme>,
    subst: &Substitution,
    name: &str,
    sig: &CallableSignature,
) -> (r: CallableSignature)
    ensures
        r@ == resolved_signature(
            match scheme {
                Some(s) => Some(s@),
                None => None,
            },
            subst@,
            name@,
            sig@,
        ),
{
    let scheme = match scheme {
        Some(s) => s,
        None => {
            return clone_callable_signature(sig);
        },
    };
    let at = find_key(&scheme.methods, name);
    assert(names(scheme.methods@) =~= keys_of(scheme@.returns));
    if at >= scheme.methods.len() {
        return clone_callable_signature(sig);
    }
    let map = instance_param_map(scheme, subst);
    let ghost m = bindings(map@);
    let mut params: Vec<ParamInfo> = Vec::new();
    for i in 0..sig.params.len()
        invariant
            m == bindings(map@),
            params.len() == i,
            forall|j: int|
                0 <= j < i ==> (#[trigger] params[j])@ == substituted_param(sig.params[j]@, m),
    {
        let mut p = clone_param_info(&sig.params[i]);
        let ghost was = p@;
        p.resolved_ty = match &p.resolved_ty {
            Some(t) => Some(substitute_vars(t, &map)),
            None => None,
        };
        assert(p@ =~= substituted_param(was, m));
        params.push(p);
    }
    let ret = substitute_vars(&scheme.methods[at].1.ret, &map);
    let mut out = clone_callable_signature(sig);
    out.params = params;
    out.ret_ty = Some(ret);
    proof {
        let want = resolved_signature(Some(scheme@), subst@, name@, sig@);
        assert(out@.params =~= want.params);
        assert(out@ =~= want);
    }
    out
}

/// The scheme and substitution of a receiver that is a record.
pub open spec fn receiver_scheme(
    p: ProgramV,
    schemes: Seq<(Seq<char>, SchemeV)>,
    t: TypeV,
) -> (Option<SchemeV>, Seq<(Seq<char>, TypeV)>) {
    match bare(t) {
        TypeV::Record(n) => match type_with_id(p.types, n.id) {
            Some(info) => (lookup(schemes, info.name), n.subst),
            None => (None, Seq::empty()),
        },
        _ => (None, Seq::empty()),
    }
}

/// The signature of method `name` on a receiver of type `t`, resolved through the scheme
/// of its type.
pub open spec fn scheme_signature(
    p: ProgramV,
    schemes: Seq<(Seq<char>, SchemeV)>,
    t: TypeV,
    name: Seq<char>,
    sig: CallableSignatureV,
) -> CallableSignatureV {
    let (scheme, subst) = receiver_scheme(p, schemes, t);
    resolved_signature(scheme, subst, name, sig)
}

fn scheme_resolved_signature(
    full: &FullAnalysis,
    recv_ty: &Type,
    name: &str,
    sig: &CallableSignature,
) -> (r: CallableSignature)
    ensures
        r@ == scheme_signature(
            full.program@,
            schemes_view(full.schemes@),
            recv_ty@,
            name@,
            sig@,
        ),
{
    if let Type::Record(n) = peel_transparent(recv_ty) {
        if let Some(info) = full.program.type_by_id(n.id) {
            let scheme = scheme_named(&full.schemes, info.name.as_str());
            return resolve_signature(scheme, &n.substitution, name, sig);
        }
    }
    clone_callable_signature(sig)
}

/// Whether a slot's type is still open.
pub open spec fn unresolved(t: Option<TypeV>) -> bool {
    match t {
        Some(t) => t is Unknown,
        None => true,
    }
}

/// Whether a signature is that of an instance method.
pub open spec fn is_instance(sig: CallableSignatureV) -> bool {
    sig.params.len() > 0 && sig.params[0].name == "self"@
}

/// A parameter resolved to the type a call passes in its place.
pub open spec fn specialized_param(p: ParamInfoV, i: int, args: Seq<TypeV>) -> ParamInfoV {
    if p.name != "self"@ && unresolved(p.resolved_ty) && i < args.len() {
        ParamInfoV { resolved_ty: Some(args[i]), ..p }
    } else {
        p
    }
}

/// A signature with each open parameter resolved to the type a call passes in its place
/// (only for an instance method, where the receiver is the first argument), and an open
/// return to what the call returns.
pub open spec fn specialized(
    sig: CallableSignatureV,
    args: Option<Seq<TypeV>>,
    ret: Option<TypeV>,
) -> CallableSignatureV {
    CallableSignatureV {
        params: match args {
            Some(a) => if is_instance(sig) {
                Seq::new(sig.params.len(), |i: int| specialized_param(sig.params[i], i, a))
            } else {
                sig.params
            },
            None => sig.params,
        },
        ret_ty: if ret is Some && unresolved(sig.ret_ty) {
            ret
        } else {
            sig.ret_ty
        },
        ..sig
    }
}

fn is_open(t: &Option<Type>) -> (r: bool)
    ensures
        r == unresolved(opt_type(*t)),
{
    match t {
        Some(t) => t.is_unknown(),
        None => true,
    }
}

fn specialize_params(params: &Vec<ParamInfo>, args: &Vec<Type>) -> (r: Vec<ParamInfo>)
    ensures
        param_infos_view(r@) == Seq::new(
            params@.len(),
            |i: int| specialized_param(params@[i]@, i, types_view(args@)),
        ),
{
    let ghost av = types_view(args@);
    let mut out: Vec<ParamInfo> = Vec::new();
    for i in 0..params.len()
        invariant
            av == types_view(args@),
            out.len() == i,
            forall|j: int|
                0 <= j < i ==> (#[trigger] out[j])@ == specialized_param(params[j]@, j, av),
    {
        let mut p = clone_param_info(&params[i]);
        let ghost was = p@;
        if !str_eq(p.name.as_str(), "self") && is_open(&p.resolved_ty) && i < args.len() {
            p.resolved_ty = Some(clone_type(&args[i]));
        }
        assert(p@ =~= specialized_param(was, i as int, av));
        out.push(p);
    }
    assert(param_infos_view(out@) =~= Seq::new(
        params@.len(),
        |i: int| specialized_param(params@[i]@, i, av),
    ));
    out
}

/// A copy of `sig` with each unannotated (still unknown) parameter resolved to the
/// corresponding call argument's type and the return to the call's inferred result.
fn specialize_method_signature(
    sig: &CallableSignature,
    call_args: Option<&Vec<Type>>,
    ret: Option<&Type>,
) -> (r: CallableSignature)
    ensures
        r@ == specialized(
            sig@,
            match call_args {
                Some(a) => Some(types_view(a@)),
                None => None,
            },
            opt_type_ref(ret),
        ),
{
    let mut out = clone_callable_signature(sig);
    let ghost was = out@;
    let instance = sig.params.len() > 0 && str_eq(sig.params[0].name.as_str(), "self");
    if let Some(args) = call_args {
        if instance {
            out.params = specialize_params(&sig.params, args);
        }
    }
    if let Some(t) = ret {
        if is_open(&sig.ret_ty) {
            out.ret_ty = Some(clone_type(t));
        }
    }
    proof {
        let want = specialized(
            sig@,
            match call_args {
                Some(a) => Some(types_view(a@)),
                None => None,
            },
            opt_type_ref(ret),
        );
        assert(out@.params =~= want.params);
        assert(out@ =~= want);
    }
    out
}

// ---- method hover ----

/// Whether the character before the one at byte offset `lo` is a `.`.
pub open spec fn after_dot(cs: Seq<char>, lo: int) -> bool {
    let k = index_at(cs, lo);
    k > 0 && cs[k - 1] == '.'
}

/// The facts a hover reads.
pub ghost struct HoverFacts {
    pub program: ProgramV,
    pub typed: Seq<TypedExprV>,
    pub items: Seq<TopLevelV>,
    pub schemes: Seq<(Seq<char>, SchemeV)>,
    pub base: int,
}

impl FullAnalysis {
    /// The facts a hover reads.
    pub open spec fn hover_facts(&self) -> HoverFacts {
        HoverFacts {
            program: self.program@,
            typed: self.typed@,
            items: self.main_ast@.items,
            schemes: schemes_view(self.schemes@),
            base: self.main_base as int,
        }
    }
}

/// The signature shown for method `name` on a receiver of type `t`, in the call at a
/// global offset.
pub open spec fn method_signature_shown(
    x: HoverFacts,
    t: TypeV,
    name: Seq<char>,
    m: FoundMethodV,
    global: int,
) -> Seq<char> {
    let call = smallest_call_at(x.typed, global);
    let args = match call {
        Some(e) => call_args(x.items, x.typed, e.span),
        None => None,
    };
    let ret = match call {
        Some(e) => Some(e.ty),
        None => None,
    };
    let sig = specialized(scheme_signature(x.program, x.schemes, t, name, m.signature), args, ret);
    rendered_signature(
        sig,
        Seq::empty(),
        sig.ret_ty,
        match m.body {
            Some(b) => mutations(sig.params, b),
            None => Seq::empty(),
        },
        no_names(),
    ).0
}

/// The hover of a method name behind a `.` whose receiver's type has that method.
pub open spec fn method_hover_of(x: HoverFacts, cs: Seq<char>, local: int) -> Option<HoverV> {
    match ident_in(cs, local) {
        Some((name, span)) => if after_dot(cs, span.lo as int) {
            match receiver_type(x.typed, x.base + span.lo - 1) {
                Some(t) => match method_on(x.program, t, name) {
                    Some(m) => Some(
                        HoverV {
                            value: documented(
                                method_signature_shown(x, t, name, m, x.base + local),
                                m.doc,
                            ),
                            span: Some(span),
                        },
                    ),
                    None => None,
                },
                None => None,
            }
        } else {
            None
        },
        None => None,
    }
}

fn render_method(
    full: &FullAnalysis,
    recv_ty: &Type,
    name: &str,
    m: &FoundMethod,
    global: usize,
) -> (r: String)
    ensures
        r@ == method_signature_shown(
            full.hover_facts(),
            recv_ty@,
            name@,
            opt_found(Some(*m))->0,
            global as int,
        ),
{
    let by_scheme = scheme_resolved_signature(full, recv_ty, name, m.signature);
    let call = enclosing_call(full, global);
    let args: Option<Vec<Type>> = match call {
        Some(e) => call_args_at_span(full, e.span),
        None => None,
    };
    let ret: Option<&Type> = match call {
        Some(e) => Some(&e.ty),
        None => None,
    };
    let sig = specialize_method_signature(&by_scheme, args.as_ref(), ret);
    let none: Vec<Option<Type>> = Vec::new();
    let mut namer = UnknownNamer::default();
    let r = match m.body {
        Some(b) => {
            let mutated = mutated_params(&sig.params, b);
            render_signature_into(&sig, &none, sig.ret_ty.as_ref(), Some(&mutated), &mut namer)
        },
        None => render_signature_into(&sig, &none, sig.ret_ty.as_ref(), None, &mut namer),
    };
    assert(opt_types(none@) =~= Seq::empty());
    r
}

proof fn ident_stands(toks: Seq<TokenV>, i: int, off: int, cs: Seq<char>)
    requires
        all_stand_on(toks, cs),
        0 <= i,
    ensures
        ident_from(toks, i, off) matches Some(p) ==> exists|lo: int, hi: int|
            0 <= lo <= hi <= cs.len() && p.1 == #[trigger] span_of(cs, lo, hi),
    decreases toks.len() - i,
{
    if i < toks.len() {
        assert(stands_on(toks[i], cs));
        ident_stands(toks, i + 1, off, cs);
    }
}

/// Whether the character before the identifier at `span` is a `.`.
fn is_after_dot(text: &str, span: Span, Ghost(off): Ghost<int>) -> (r: bool)
    requires
        byte_off(text@, text@.len() as int) <= usize::MAX,
        ident_in(text@, off) matches Some(p) && p.1 == span,
    ensures
        r == after_dot(text@, span.lo as int),
        r ==> span.lo > 0,
{
    let chars = Chars::of(text);
    let ghost cs = text@;
    proof {
        tokens_stand_on_characters(cs);
        ident_stands(lexed(cs)->Ok_0, 0, off, cs);
        let (lo, hi) = choose|lo: int, hi: int|
            0 <= lo <= hi <= cs.len() && span == #[trigger] span_of(cs, lo, hi);
        if lo < cs.len() {
            byte_off_grows(cs, lo, cs.len() as int);
        }
        assert(begins_at(cs, span.lo as int, lo));
    }
    let k = find_index(&chars, span.lo);
    proof {
        if k < cs.len() {
            byte_off_grows(cs, k as int, cs.len() as int);
        }
        begins_at_unique(cs, span.lo as int, k as int, index_at(cs, span.lo as int));
        if k > 0 {
            byte_off_grows(cs, 0, k as int);
        }
    }
    k > 0 && chars.cs[k - 1] == '.'
}

/// Hover for the method name in `recv.method(...)`: the method's signature, resolved
/// against the receiver's instance and specialized to the call the cursor sits in.
fn method_hover(doc: &Document, full: &FullAnalysis, local: usize) -> (r: Option<Hover>)
    requires
        byte_off(doc.text@, doc.text@.len() as int) < usize::MAX,
        full.main_base + byte_off(doc.text@, doc.text@.len() as int) <= usize::MAX,
        local <= byte_off(doc.text@, doc.text@.len() as int),
    ensures
        opt_hover(r) == method_hover_of(full.hover_facts(), doc.text@, local as int),
{
    let text = doc.text.as_str();
    let (name, span) = match ident_at(text, local) {
        Some(p) => p,
        None => {
            return None;
        },
    };
    if !is_after_dot(text, span, Ghost(local as int)) {
        return None;
    }
    proof {
        ident_holds(lexed(text@)->Ok_0, 0, local as int);
    }
    let recv_ty = match receiver_type_at(full, full.main_base + (span.lo - 1)) {
        Some(t) => t,
        None => {
            return None;
        },
    };
    let m = match find_method(full, recv_ty, name.as_str()) {
        Some(m) => m,
        None => {
            return None;
        },
    };
    let shown = render_method(full, recv_ty, name.as_str(), &m, local + full.main_base);
    Some(markup_with_doc(shown.as_str(), m.doc, Some(span)))
}

proof fn ident_holds(toks: Seq<TokenV>, i: int, off: int)
    requires
        0 <= i,
    ensures
        ident_from(toks, i, off) matches Some(p) ==> p.1.lo <= off <= p.1.hi,
    decreases toks.len() - i,
{
    if i < toks.len() {
        ident_holds(toks, i + 1, off);
    }
}

// ---- hover ----

/// The hover of the tightest expression when it is a name or a field access.
pub open spec fn expr_hover(x: HoverFacts, e: TypedExprV) -> Option<HoverV> {
    let span = local_span(x.base, e.span);
    match e.kind {
        TypedExprKindV::Ident(name) => Some(
            match function_in(x.program, main_path(), name) {
                Some(f) => HoverV { value: function_text(f, x.items, x.typed, None), span },
                None => HoverV { value: value_text(x.program, name, e.ty), span },
            },
        ),
        TypedExprKindV::Field(name) => Some(
            HoverV { value: code_block(typed_name(name, e.ty)), span },
        ),
        _ => None,
    }
}

/// The hover of an identifier: a local variable, a function (with the bindings of the
/// call it sits in), or a type.
pub open spec fn name_hover(
    x: HoverFacts,
    global: int,
    e: Option<TypedExprV>,
    name: Seq<char>,
    span: Span,
) -> Option<HoverV> {
    match local_type(x.items, x.typed, global, name) {
        Some(t) => Some(HoverV { value: value_text(x.program, name, t), span: Some(span) }),
        None => match function_in(x.program, main_path(), name) {
            Some(f) => {
                let args = match e {
                    Some(e) => if e.kind is Call {
                        call_args(x.items, x.typed, e.span)
                    } else {
                        None
                    },
                    None => None,
                };
                Some(
                    HoverV {
                        value: function_text(f, x.items, x.typed, args),
                        span: Some(span),
                    },
                )
            },
            None => match type_in(x.program, main_path(), name) {
                Some(t) => Some(
                    HoverV { value: documented(rendered_def(t, None), t.doc), span: Some(span) },
                ),
                None => None,
            },
        },
    }
}

/// The hover at offset `local` of the document `cs`: a method, then a name or field
/// expression, then an identifier, then any other expression.
pub open spec fn hover_of(x: HoverFacts, cs: Seq<char>, local: int) -> Option<HoverV> {
    let e = smallest_at(x.typed, x.base + local);
    match method_hover_of(x, cs, local) {
        Some(h) => Some(h),
        None => {
            let by_expr = match e {
                Some(e) => expr_hover(x, e),
                None => None,
            };
            let by_name = match ident_in(cs, local) {
                Some((name, span)) => name_hover(x, x.base + local, e, name, span),
                None => None,
            };
            match by_expr {
                Some(h) => Some(h),
                None => match by_name {
                    Some(h) => Some(h),
                    None => match e {
                        Some(e) => Some(
                            HoverV {
                                value: code_block(rendered(e.ty, no_names()).0),
                                span: local_span(x.base, e.span),
                            },
                        ),
                        None => None,
                    },
                },
            }
        },
    }
}

/// Whether no function of a program has more parameters than there are synthetic
/// variables for.
pub open spec fn few_params(p: ProgramV) -> bool {
    forall|i: int|
        0 <= i < p.functions.len() ==> (#[trigger] p.functions[i]).1.signature.params.len()
            <= 0x10000
}

proof fn found_has_few(p: ProgramV, name: Seq<char>)
    requires
        few_params(p),
    ensures
        function_in(p, main_path(), name) matches Some(f) ==> f.signature.params.len() <= 0x10000,
{
    let ks = keys_of(p.functions);
    if let Some(k) = resolved_key(ks, p.import_origins, main_path(), name) {
        first_pos_facts(ks, k);
        first_pos_contains(ks, k);
        assert(ks.contains(k));
        assert(p.functions[first_pos(ks, k)].1.signature.params.len() <= 0x10000);
    }
}

fn function_hover(
    full: &FullAnalysis,
    name: &str,
    call_args: Option<&Vec<Type>>,
    span: Option<Span>,
) -> (r: Option<Hover>)
    requires
        few_params(full.program@),
    ensures
        opt_hover(r) == (match function_in(full.program@, main_path(), name@) {
            Some(f) => Some(
                HoverV {
                    value: function_text(
                        f,
                        full.main_ast@.items,
                        full.typed@,
                        match call_args {
                            Some(a) => Some(types_view(a@)),
                            None => None,
                        },
                    ),
                    span,
                },
            ),
            None => None,
        }),
{
    let module = main_module();
    match full.program.resolve_function(module.as_slice(), name) {
        Some(f) => {
            proof {
                found_has_few(full.program@, name@);
                assert(f@.signature.params.len() == f.signature.params@.len());
            }
            Some(Hover { value: function_markdown(full, f, call_args), span })
        },
        None => None,
    }
}

fn hover_expr(full: &FullAnalysis, e: &TypedExpr) -> (r: Option<Hover>)
    requires
        few_params(full.program@),
    ensures
        opt_hover(r) == expr_hover(full.hover_facts(), e@),
{
    let span = local_range(full, e.span);
    match &e.kind {
        TypedExprKind::Ident(name) => match function_hover(full, name.as_str(), None, span) {
            Some(h) => Some(h),
            None => Some(value_hover(full, name.as_str(), &e.ty, span)),
        },
        TypedExprKind::Field(name) => Some(
            markup_with_doc(typed_name_string(name.as_str(), &e.ty).as_str(), None, span),
        ),
        _ => None,
    }
}

fn hover_name(
    full: &FullAnalysis,
    global: usize,
    e: Option<&TypedExpr>,
    name: &str,
    span: Span,
) -> (r: Option<Hover>)
    requires
        few_params(full.program@),
    ensures
        opt_hover(r) == name_hover(
            full.hover_facts(),
            global as int,
            opt_typed(e),
            name@,
            span,
        ),
{
    if let Some(ty) = local_var_type(full, global, name) {
        return Some(value_hover(full, name, &ty, Some(span)));
    }
    let args: Option<Vec<Type>> = match e {
        Some(x) => match &x.kind {
            TypedExprKind::Call => call_args_at_span(full, x.span),
            _ => None,
        },
        None => None,
    };
    if let Some(h) = function_hover(full, name, args.as_ref(), Some(span)) {
        return Some(h);
    }
    let module = main_module();
    match full.program.resolve_type(module.as_slice(), name) {
        Some(t) => Some(
            markup_with_doc(render_type_def(t).as_str(), t.doc.as_ref(), Some(span)),
        ),
        None => None,
    }
}

/// Build the hover for `pos` in `doc`, using the full analysis. The span is that of the
/// document's own offsets.
pub fn hover(doc: &Document, full: &FullAnalysis, pos: Position) -> (r: Option<Hover>)
    requires
        doc.wf(),
        byte_off(doc.text@, doc.text@.len() as int) < usize::MAX,
        full.main_base + byte_off(doc.text@, doc.text@.len() as int) <= usize::MAX,
        few_params(full.program@),
    ensures
        opt_hover(r) == hover_of(
            full.hover_facts(),
            doc.text@,
            byte_off(
                doc.text@,
                index_of(doc.text@, pos.line as int, pos.character as int),
            ) as int,
        ),
{
    let local = doc.offset_at(pos);
    proof {
        crate::document::index_within(doc.text@, pos.line as int, pos.character as int);
    }
    if let Some(h) = method_hover(doc, full, local) {
        return Some(h);
    }
    let global: usize = local + full.main_base;
    let e = smallest_typed_at(full, global);
    if let Some(x) = e {
        if let Some(h) = hover_expr(full, x) {
            return Some(h);
        }
    }
    if let Some((name, span)) = ident_at(doc.text.as_str(), local) {
        if let Some(h) = hover_name(full, global, e, name.as_str(), span) {
            return Some(h);
        }
    }
    match e {
        Some(x) => {
            let mut namer = UnknownNamer::default();
            let code = render_type(&x.ty, &mut namer);
            Some(markup_with_doc(code.as_str(), None, local_range(full, x.span)))
        },
        None => None,
    }
}

} // verus!
