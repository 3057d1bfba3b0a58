//! Type and signature rendering for the editor.
//!
//! [`Type::display`] prints every inference variable as a bare `?`, which is
//! ambiguous when several appear. Here they are numbered `unknown_N` by order of first
//! appearance: a function whose parameters carry no annotation has each unannotated
//! slot shown as a distinct `unknown_N`, in the order the parameters (then the return)
//! occur.

use vstd::prelude::*;
use crate::hir::{field_infos_view, named_method_infos_view, param_infos_view, variant_infos_view, CallableSignature, CallableSignatureV, FieldInfo, FieldInfoV, MethodInfo, MethodInfoV, ParamInfo, ParamInfoV, TypeInfo, TypeInfoV, TypeKind, TypeKindV, VariantInfo, VariantInfoV};
use crate::monomorph::digits_determine;
use crate::names::{in_order, NameSet};
use crate::table::{find_key, first_pos, first_pos_facts, first_pos_unique, keys_of, lookup, names};
use crate::text::{cat2, cat3, cat5, dec, dec_string, has_prefix, join, join_strings, starts_with, str_eq, texts};
use crate::types::{float_name, int_name, opt_type, opt_type_ref, types_view, NominalType, NominalV, Substitution, Type, TypeV};

verus! {

// ---- names of unknowns ----

/// Assigns stable `unknown_N` names to inference variables, numbered by order of first
/// appearance. Share one namer across everything that should agree on numbering.
pub struct UnknownNamer {
    /// What each number was given to: an inference variable, or a slot without one.
    pub numbered: Vec<Option<u32>>,
    /// Variables that have a name of their own.
    pub fixed: Vec<(u32, String)>,
}

/// The model of [`UnknownNamer`].
#[verifier::ext_equal]
pub ghost struct NamerV {
    pub numbered: Seq<Option<u32>>,
    pub fixed: Seq<(u32, Seq<char>)>,
}

impl View for UnknownNamer {
    type V = NamerV;

    open spec fn view(&self) -> NamerV {
        NamerV {
            numbered: self.numbered@,
            fixed: Seq::new(self.fixed@.len(), |i: int| (self.fixed@[i].0, self.fixed@[i].1@)),
        }
    }
}

/// A namer that has named nothing.
pub open spec fn no_names() -> NamerV {
    NamerV { numbered: Seq::empty(), fixed: Seq::empty() }
}

/// The name that goes with a number.
pub open spec fn unknown_name(n: int) -> Seq<char> {
    "unknown_"@ + dec(n as nat)
}

/// The number of variable `id`: the one it has, or the next one.
pub open spec fn number_of(numbered: Seq<Option<u32>>, id: u32) -> int {
    first_pos(numbered, Some(id))
}

/// The numbers after variable `id` has been seen.
pub open spec fn noted(numbered: Seq<Option<u32>>, id: u32) -> Seq<Option<u32>> {
    if number_of(numbered, id) < numbered.len() {
        numbered
    } else {
        numbered.push(Some(id))
    }
}

/// The name of variable `id`, and the namer after it.
pub open spec fn named(id: u32, st: NamerV) -> (Seq<char>, NamerV) {
    match lookup(st.fixed, id) {
        Some(name) => (name, st),
        None => (
            unknown_name(number_of(st.numbered, id)),
            NamerV { numbered: noted(st.numbered, id), ..st },
        ),
    }
}

/// A name with no variable behind it, and the namer after it.
pub open spec fn fresh_name(st: NamerV) -> (Seq<char>, NamerV) {
    (
        unknown_name(st.numbered.len() as int),
        NamerV { numbered: st.numbered.push(None), ..st },
    )
}

impl Default for UnknownNamer {
    fn default() -> (r: UnknownNamer)
        ensures
            r@ == no_names(),
    {
        let r = UnknownNamer { numbered: Vec::new(), fixed: Vec::new() };
        assert(r@ =~= no_names());
        r
    }
}

impl UnknownNamer {
    /// Give variable `id` the name `name`, which takes no number.
    pub fn fix(&mut self, id: u32, name: String)
        ensures
            final(self)@ == (NamerV { fixed: old(self)@.fixed.push((id, name@)), ..old(self)@ }),
    {
        let ghost before = self@;
        let ghost n = name@;
        self.fixed.push((id, name));
        assert(self@.fixed =~= before.fixed.push((id, n)));
    }

    /// The name for inference variable `id`, allocating a fresh number the first time
    /// the id is seen.
    pub fn named(&mut self, id: u32) -> (r: String)
        ensures
            (r@, final(self)@) == named(id, old(self)@),
    {
        let ghost st = self@;
        let mut f: usize = 0;
        while f < self.fixed.len()
            invariant
                self@ == st,
                f <= self.fixed.len(),
                forall|j: int| 0 <= j < f ==> keys_of(st.fixed)[j] != id,
            decreases self.fixed.len() - f,
        {
            assert(keys_of(st.fixed)[f as int] == self.fixed@[f as int].0);
            if self.fixed[f].0 == id {
                proof {
                    first_pos_unique(keys_of(st.fixed), id, f as int);
                }
                return self.fixed[f].1.clone();
            }
            f = f + 1;
        }
        proof {
            first_pos_unique(keys_of(st.fixed), id, f as int);
        }
        let mut n: usize = 0;
        while n < self.numbered.len()
            invariant
                self@ == st,
                lookup(st.fixed, id) is None,
                n <= self.numbered.len(),
                forall|j: int| 0 <= j < n ==> st.numbered[j] != Some(id),
            decreases self.numbered.len() - n,
        {
            let same = match self.numbered[n] {
                Some(other) => other == id,
                None => false,
            };
            if same {
                proof {
                    first_pos_unique(st.numbered, Some(id), n as int);
                }
                return cat2("unknown_", dec_string(n as u64).as_str());
            }
            n = n + 1;
        }
        proof {
            first_pos_unique(st.numbered, Some(id), n as int);
        }
        self.numbered.push(Some(id));
        assert(self@ =~= named(id, st).1);
        cat2("unknown_", dec_string(n as u64).as_str())
    }

    /// A fresh `unknown_N` with no backing inference variable, for an unannotated
    /// parameter or return type.
    pub fn fresh(&mut self) -> (r: String)
        ensures
            (r@, final(self)@) == fresh_name(old(self)@),
    {
        let ghost st = self@;
        let n: usize = self.numbered.len();
        self.numbered.push(None);
        assert(self@ =~= fresh_name(st).1);
        cat2("unknown_", dec_string(n as u64).as_str())
    }
}

// ---- types ----

/// A type with its variables named, and the namer after it.
pub open spec fn rendered(t: TypeV, st: NamerV) -> (Seq<char>, NamerV)
    decreases t,
{
    match t {
        TypeV::Bool => ("bool"@, st),
        TypeV::Int(k) => (int_name(k), st),
        TypeV::Float(k) => (float_name(k), st),
        TypeV::Str => ("string"@, st),
        TypeV::Void => ("void"@, st),
        TypeV::Never => ("never"@, st),
        TypeV::Record(n) => rendered_nominal(n, st),
        TypeV::Sum(n) => rendered_nominal(n, st),
        TypeV::Array(e, n) => {
            let r = rendered(*e, st);
            (r.0 + "["@ + dec(n as nat) + "]"@, r.1)
        },
        TypeV::Slice(e) => {
            let r = rendered(*e, st);
            (r.0 + "[]"@, r.1)
        },
        TypeV::Tuple(ts) => {
            let r = rendered_all(ts, st);
            ("["@ + join(r.0, ", "@) + "]"@, r.1)
        },
        TypeV::Fun(ps, ret) => {
            let r = rendered_all(ps, st);
            let q = rendered(*ret, r.1);
            ("("@ + join(r.0, ", "@) + ") -> "@ + q.0, q.1)
        },
        TypeV::Nullable(e) => {
            let r = rendered(*e, st);
            (r.0 + "?"@, r.1)
        },
        TypeV::ConstOf(e) => {
            let r = rendered(*e, st);
            ("const "@ + r.0, r.1)
        },
        TypeV::Mut(e) => {
            let r = rendered(*e, st);
            ("mut("@ + r.0 + ")"@, r.1)
        },
        TypeV::Ref(e) => {
            let r = rendered(*e, st);
            ("ref("@ + r.0 + ")"@, r.1)
        },
        TypeV::Unknown(id) => named(id, st),
        TypeV::SelfType => ("Self"@, st),
    }
}

/// Each type in turn, and the namer after them.
pub open spec fn rendered_all(ts: Seq<TypeV>, st: NamerV) -> (Seq<Seq<char>>, NamerV)
    decreases ts,
{
    if ts.len() == 0 {
        (Seq::empty(), st)
    } else {
        let r = rendered_all(ts.drop_last(), st);
        let q = rendered(ts.last(), r.1);
        (r.0.push(q.0), q.1)
    }
}

/// Each entry of a substitution as `key=type`, and the namer after them.
pub open spec fn rendered_entries(s: Seq<(Seq<char>, TypeV)>, st: NamerV) -> (
    Seq<Seq<char>>,
    NamerV,
)
    decreases s,
{
    if s.len() == 0 {
        (Seq::empty(), st)
    } else {
        let r = rendered_entries(s.drop_last(), st);
        let q = rendered(s.last().1, r.1);
        (r.0.push(s.last().0 + "="@ + q.0), q.1)
    }
}

/// A nominal reference: a `Result` by its payloads, anything else by name and
/// substitution.
pub open spec fn rendered_nominal(n: NominalV, st: NamerV) -> (Seq<char>, NamerV)
    decreases n,
{
    let ok = first_pos(keys_of(n.subst), "Ok.value"@);
    let err = first_pos(keys_of(n.subst), "Err.error"@);
    if n.name == "Result"@ && 0 <= ok < n.subst.len() && 0 <= err < n.subst.len() {
        let r = rendered(n.subst[ok].1, st);
        let q = rendered(n.subst[err].1, r.1);
        ("Result<"@ + r.0 + ", "@ + q.0 + ">"@, q.1)
    } else if n.subst.len() == 0 {
        (n.name, st)
    } else {
        let r = rendered_entries(n.subst, st);
        (n.name + "<"@ + join(r.0, ", "@) + ">"@, r.1)
    }
}

/// Render a resolved type, mapping inference variables to `unknown_N`.
pub fn render_type(ty: &Type, namer: &mut UnknownNamer) -> (r: String)
    ensures
        (r@, final(namer)@) == rendered(ty@, old(namer)@),
    decreases *ty,
{
    match ty {
        Type::Bool => "bool".to_owned(),
        Type::Int(k) => k.name().to_owned(),
        Type::Float(k) => k.name().to_owned(),
        Type::Str => "string".to_owned(),
        Type::Void => "void".to_owned(),
        Type::Never => "never".to_owned(),
        Type::Record(n) => render_nominal(n, namer),
        Type::Sum(n) => render_nominal(n, namer),
        Type::Array(e, n) => {
            let mut out = render_type(e, namer);
            out.push_str("[");
            out.push_str(dec_string(*n as u64).as_str());
            out.push_str("]");
            out
        },
        Type::Slice(e) => {
            let mut out = render_type(e, namer);
            out.push_str("[]");
            out
        },
        Type::Tuple(ts) => {
            let parts = render_types(ts, namer);
            cat3("[", join_strings(parts.as_slice(), ", ").as_str(), "]")
        },
        Type::Fun(ps, ret) => {
            let parts = render_types(ps, namer);
            let mut out = cat3("(", join_strings(parts.as_slice(), ", ").as_str(), ") -> ");
            out.push_str(render_type(ret, namer).as_str());
            out
        },
        Type::Nullable(e) => {
            let mut out = render_type(e, namer);
            out.push_str("?");
            out
        },
        Type::ConstOf(e) => cat2("const ", render_type(e, namer).as_str()),
        Type::Mut(e) => cat3("mut(", render_type(e, namer).as_str(), ")"),
        Type::Ref(e) => cat3("ref(", render_type(e, namer).as_str(), ")"),
        Type::Unknown(id) => namer.named(*id),
        Type::SelfType => "Self".to_owned(),
    }
}

fn render_types(ts: &Vec<Type>, namer: &mut UnknownNamer) -> (r: Vec<String>)
    ensures
        (texts(r@), final(namer)@) == rendered_all(types_view(ts@), old(namer)@),
    decreases *ts,
{
    let ghost all = types_view(ts@);
    let ghost st = namer@;
    let mut out: Vec<String> = Vec::new();
    assert(texts(out@) =~= Seq::empty());
    for i in 0..ts.len()
        invariant
            all == types_view(ts@),
            (texts(out@), namer@) == rendered_all(all.take(i as int), st),
    {
        let ghost done = texts(out@);
        proof {
            assert(all.take(i + 1).drop_last() =~= all.take(i as int));
            assert(all.take(i + 1).last() == ts[i as int]@);
        }
        out.push(render_type(&ts[i], namer));
        assert(texts(out@) =~= done.push(out@.last()@));
    }
    assert(all.take(ts.len() as int) =~= all);
    out
}

fn render_entries(s: &Substitution, namer: &mut UnknownNamer) -> (r: Vec<String>)
    ensures
        (texts(r@), final(namer)@) == rendered_entries(s@, old(namer)@),
    decreases *s,
{
    let ghost all = s@;
    let ghost st = namer@;
    let mut out: Vec<String> = Vec::new();
    assert(texts(out@) =~= Seq::empty());
    let n: usize = s.len();
    for i in 0..n
        invariant
            n == s@.len(),
            all == s@,
            (texts(out@), namer@) == rendered_entries(all.take(i as int), st),
    {
        let ghost done = texts(out@);
        proof {
            assert(all.take(i + 1).drop_last() =~= all.take(i as int));
            assert(all.take(i + 1).last() == all[i as int]);
        }
        out.push(cat3(s.key_at(i), "=", render_type(s.type_at(i), namer).as_str()));
        assert(texts(out@) =~= done.push(out@.last()@));
    }
    assert(all.take(s@.len() as int) =~= all);
    out
}

/// Render a nominal type reference, recursing into a `Result` payload (or any
/// substitution) so inference variables there are also numbered.
fn render_nominal(n: &NominalType, namer: &mut UnknownNamer) -> (r: String)
    ensures
        (r@, final(namer)@) == rendered_nominal(n@, old(namer)@),
    decreases *n,
{
    proof {
        first_pos_facts(keys_of(n@.subst), "Ok.value"@);
        first_pos_facts(keys_of(n@.subst), "Err.error"@);
    }
    if let Some((ok, err)) = n.result_payloads() {
        let a = render_type(ok, namer);
        let b = render_type(err, namer);
        return cat5("Result<", a.as_str(), ", ", b.as_str(), ">");
    }
    if n.substitution.is_empty() {
        return n.name.clone();
    }
    let parts = render_entries(&n.substitution, namer);
    let mut out = cat3(n.name.as_str(), "<", join_strings(parts.as_slice(), ", ").as_str());
    out.push_str(">");
    out
}

// ---- signatures ----

/// The type of a slot: the known one, or a fresh unknown.
pub open spec fn rendered_slot(ty: Option<TypeV>, st: NamerV) -> (Seq<char>, NamerV) {
    match ty {
        Some(t) => rendered(t, st),
        None => fresh_name(st),
    }
}

/// The first of two types that is there.
pub open spec fn either(a: Option<TypeV>, b: Option<TypeV>) -> Option<TypeV> {
    match a {
        Some(t) => Some(t),
        None => b,
    }
}

/// A parameter as a signature shows it. The receiver is shown bare, without taking a
/// number. With `mutated` given, an unannotated parameter is shown with the mode it is
/// passed in: a private `mut` copy when the body mutates it, else a `ref` borrow.
pub open spec fn rendered_param(
    p: ParamInfoV,
    inferred: Option<TypeV>,
    mutated: Option<bool>,
    st: NamerV,
) -> (Seq<char>, NamerV) {
    if p.name == "self"@ && p.resolved_ty is None {
        (
            match mutated {
                Some(true) => "self: ref(mut(Self))"@,
                Some(false) => "self: ref(Self)"@,
                None => "self"@,
            },
            st,
        )
    } else {
        let r = rendered_slot(either(p.resolved_ty, inferred), st);
        (
            p.name + ": "@ + (match (p.ty, mutated) {
                (None, Some(m)) => (if m {
                    "mut("@
                } else {
                    "ref("@
                }) + r.0 + ")"@,
                _ => r.0,
            }),
            r.1,
        )
    }
}

/// The `i`-th entry of a list that may be too short.
pub open spec fn at_or_none<T>(s: Seq<Option<T>>, i: int) -> Option<T> {
    if 0 <= i < s.len() {
        s[i]
    } else {
        None
    }
}

/// The first `n` parameters of a signature.
pub open spec fn rendered_params(
    ps: Seq<ParamInfoV>,
    n: int,
    inferred: Seq<Option<TypeV>>,
    mutated: Seq<Option<bool>>,
    st: NamerV,
) -> (Seq<Seq<char>>, NamerV)
    decreases n,
{
    if n <= 0 {
        (Seq::empty(), st)
    } else {
        let r = rendered_params(ps, n - 1, inferred, mutated, st);
        let q = rendered_param(
            ps[n - 1],
            at_or_none(inferred, n - 1),
            at_or_none(mutated, n - 1),
            r.1,
        );
        (r.0.push(q.0), q.1)
    }
}

/// A signature as `fun name(p: T, ...) -> R`, and the namer after it.
pub open spec fn rendered_signature(
    sig: CallableSignatureV,
    inferred: Seq<Option<TypeV>>,
    inferred_ret: Option<TypeV>,
    mutated: Seq<Option<bool>>,
    st: NamerV,
) -> (Seq<char>, NamerV) {
    let ps = rendered_params(sig.params, sig.params.len() as int, inferred, mutated, st);
    let r = rendered_slot(either(sig.ret_ty, inferred_ret), ps.1);
    ("fun "@ + sig.name + "("@ + join(ps.0, ", "@) + ") -> "@ + r.0, r.1)
}

/// The models of inferred types.
pub open spec fn opt_types(v: Seq<Option<Type>>) -> Seq<Option<TypeV>> {
    Seq::new(v.len(), |i: int| opt_type(v[i]))
}

/// The mode of each parameter, when the modes are known.
pub open spec fn modes(m: Option<&Vec<bool>>) -> Seq<Option<bool>> {
    match m {
        Some(v) => Seq::new(v@.len(), |i: int| Some(v@[i])),
        None => Seq::empty(),
    }
}

fn render_slot(ty: Option<&Type>, namer: &mut UnknownNamer) -> (r: String)
    ensures
        (r@, final(namer)@) == rendered_slot(opt_type_ref(ty), old(namer)@),
{
    match ty {
        Some(t) => render_type(t, namer),
        None => namer.fresh(),
    }
}

fn render_param(
    p: &ParamInfo,
    inferred: Option<&Type>,
    mutated: Option<bool>,
    namer: &mut UnknownNamer,
) -> (r: String)
    ensures
        (r@, final(namer)@) == rendered_param(p@, opt_type_ref(inferred), mutated, old(namer)@),
{
    if str_eq(p.name.as_str(), "self") && p.resolved_ty.is_none() {
        return match mutated {
            Some(true) => "self: ref(mut(Self))".to_owned(),
            Some(false) => "self: ref(Self)".to_owned(),
            None => "self".to_owned(),
        };
    }
    let known: Option<&Type> = match &p.resolved_ty {
        Some(t) => Some(t),
        None => inferred,
    };
    let ty = render_slot(known, namer);
    let shown = match (&p.ty, mutated) {
        (None, Some(m)) => if m {
            cat3("mut(", ty.as_str(), ")")
        } else {
            cat3("ref(", ty.as_str(), ")")
        },
        _ => ty,
    };
    cat3(p.name.as_str(), ": ", shown.as_str())
}

/// Render a signature with the numbering of `namer`, filling unannotated slots from
/// inference: `inferred_params[i]` (by position) and `inferred_ret` supply the types
/// recovered for them. With `mutated` given, the passing mode of each unannotated
/// parameter is shown.
pub fn render_signature_into(
    sig: &CallableSignature,
    inferred_params: &Vec<Option<Type>>,
    inferred_ret: Option<&Type>,
    mutated: Option<&Vec<bool>>,
    namer: &mut UnknownNamer,
) -> (r: String)
    ensures
        (r@, final(namer)@) == rendered_signature(
            sig@,
            opt_types(inferred_params@),
            opt_type_ref(inferred_ret),
            modes(mutated),
            old(namer)@,
        ),
{
    let ghost st = namer@;
    let ghost ps = sig@.params;
    let ghost inf = opt_types(inferred_params@);
    let ghost ms = modes(mutated);
    let mut parts: Vec<String> = Vec::new();
    assert(texts(parts@) =~= Seq::empty());
    for i in 0..sig.params.len()
        invariant
            ps == param_infos_view(sig.params@),
            inf == opt_types(inferred_params@),
            ms == modes(mutated),
            (texts(parts@), namer@) == rendered_params(ps, i as int, inf, ms, st),
    {
        let ghost done = texts(parts@);
        let inferred: Option<&Type> = if i < inferred_params.len() {
            inferred_params[i].as_ref()
        } else {
            None
        };
        let mode: Option<bool> = match mutated {
            Some(v) => if i < v.len() {
                Some(v[i])
            } else {
                None
            },
            None => None,
        };
        assert(opt_type_ref(inferred) == at_or_none(inf, i as int));
        parts.push(render_param(&sig.params[i], inferred, mode, namer));
        assert(texts(parts@) =~= done.push(parts@.last()@));
    }
    let known: Option<&Type> = match &sig.ret_ty {
        Some(t) => Some(t),
        None => inferred_ret,
    };
    let ret = render_slot(known, namer);
    let mut out = cat5(
        "fun ",
        sig.name.as_str(),
        "(",
        join_strings(parts.as_slice(), ", ").as_str(),
        ") -> ",
    );
    out.push_str(ret.as_str());
    out
}

/// Render a signature, filling unannotated slots from inference when available; a slot
/// with neither an annotation nor an inferred type is a fresh `unknown_N`.
pub fn render_signature_full(
    sig: &CallableSignature,
    inferred_params: &Vec<Option<Type>>,
    inferred_ret: Option<&Type>,
) -> (r: String)
    ensures
        r@ == rendered_signature(
            sig@,
            opt_types(inferred_params@),
            opt_type_ref(inferred_ret),
            Seq::empty(),
            no_names(),
        ).0,
{
    let mut namer = UnknownNamer::default();
    render_signature_into(sig, inferred_params, inferred_ret, None, &mut namer)
}

/// A signature shown from its annotations alone.
pub open spec fn declared_signature(sig: CallableSignatureV) -> Seq<char> {
    rendered_signature(sig, Seq::empty(), None, Seq::empty(), no_names()).0
}

/// Render a function or method signature as `fun name(p: T, ...) -> R`. A parameter or
/// return type with no annotation is rendered as a fresh `unknown_N`.
pub fn render_signature(sig: &CallableSignature) -> (r: String)
    ensures
        r@ == declared_signature(sig@),
{
    let none: Vec<Option<Type>> = Vec::new();
    assert(opt_types(none@) =~= Seq::empty());
    render_signature_full(sig, &none, None)
}

// ---- type definitions ----

/// Whether a member is shown: a leading underscore marks an implementation detail.
pub open spec fn is_public(name: Seq<char>) -> bool {
    !has_prefix(name, "_"@)
}

/// Whether a member is part of its type's public face.
pub fn is_public_member(name: &str) -> (r: bool)
    ensures
        r == is_public(name@),
{
    !starts_with(name, "_")
}

/// A field with the type `ty`, if any.
pub open spec fn rendered_field(name: Seq<char>, ty: Option<TypeV>, st: NamerV) -> (
    Seq<char>,
    NamerV,
) {
    match ty {
        Some(t) => {
            let r = rendered(t, st);
            (name + ": "@ + r.0, r.1)
        },
        None => (name, st),
    }
}

fn render_field(name: &str, ty: Option<&Type>, namer: &mut UnknownNamer) -> (r: String)
    ensures
        (r@, final(namer)@) == rendered_field(name@, opt_type_ref(ty), old(namer)@),
{
    match ty {
        Some(t) => cat3(name, ": ", render_type(t, namer).as_str()),
        None => name.to_owned(),
    }
}

/// Each field of a variant.
pub open spec fn rendered_fields(fs: Seq<FieldInfoV>, st: NamerV) -> (Seq<Seq<char>>, NamerV)
    decreases fs.len(),
{
    if fs.len() == 0 {
        (Seq::empty(), st)
    } else {
        let r = rendered_fields(fs.drop_last(), st);
        let q = rendered_field(fs.last().name, fs.last().resolved_ty, r.1);
        (r.0.push(q.0), q.1)
    }
}

fn render_fields(fs: &Vec<FieldInfo>, namer: &mut UnknownNamer) -> (r: Vec<String>)
    ensures
        (texts(r@), final(namer)@) == rendered_fields(field_infos_view(fs@), old(namer)@),
{
    let ghost all = field_infos_view(fs@);
    let ghost st = namer@;
    let mut out: Vec<String> = Vec::new();
    assert(texts(out@) =~= Seq::empty());
    for i in 0..fs.len()
        invariant
            all == field_infos_view(fs@),
            (texts(out@), namer@) == rendered_fields(all.take(i as int), st),
    {
        let ghost done = texts(out@);
        proof {
            assert(all.take(i + 1).drop_last() =~= all.take(i as int));
            assert(all.take(i + 1).last() == fs[i as int]@);
        }
        out.push(render_field(fs[i].name.as_str(), fs[i].resolved_ty.as_ref(), namer));
        assert(texts(out@) =~= done.push(out@.last()@));
    }
    assert(all.take(fs.len() as int) =~= all);
    out
}

/// A variant with its fields.
pub open spec fn rendered_variant(v: VariantInfoV, st: NamerV) -> (Seq<char>, NamerV) {
    if v.fields.len() == 0 {
        (v.name, st)
    } else {
        let r = rendered_fields(v.fields, st);
        (v.name + " { "@ + join(r.0, ", "@) + " }"@, r.1)
    }
}

fn render_variant(v: &VariantInfo, namer: &mut UnknownNamer) -> (r: String)
    ensures
        (r@, final(namer)@) == rendered_variant(v@, old(namer)@),
{
    if v.fields.len() == 0 {
        return v.name.clone();
    }
    let parts = render_fields(&v.fields, namer);
    let mut out = cat3(v.name.as_str(), " { ", join_strings(parts.as_slice(), ", ").as_str());
    out.push_str(" }");
    out
}

/// The variants of a sum, one line each.
pub open spec fn rendered_variants(vs: Seq<VariantInfoV>, st: NamerV) -> (Seq<Seq<char>>, NamerV)
    decreases vs.len(),
{
    if vs.len() == 0 {
        (Seq::empty(), st)
    } else {
        let r = rendered_variants(vs.drop_last(), st);
        let q = rendered_variant(vs.last(), r.1);
        (r.0.push("    "@ + q.0), q.1)
    }
}

fn render_variants(vs: &Vec<VariantInfo>, namer: &mut UnknownNamer) -> (r: Vec<String>)
    ensures
        (texts(r@), final(namer)@) == rendered_variants(variant_infos_view(vs@), old(namer)@),
{
    let ghost all = variant_infos_view(vs@);
    let ghost st = namer@;
    let mut out: Vec<String> = Vec::new();
    assert(texts(out@) =~= Seq::empty());
    for i in 0..vs.len()
        invariant
            all == variant_infos_view(vs@),
            (texts(out@), namer@) == rendered_variants(all.take(i as int), st),
    {
        let ghost done = texts(out@);
        proof {
            assert(all.take(i + 1).drop_last() =~= all.take(i as int));
            assert(all.take(i + 1).last() == vs[i as int]@);
        }
        out.push(cat2("    ", render_variant(&vs[i], namer).as_str()));
        assert(texts(out@) =~= done.push(out@.last()@));
    }
    assert(all.take(vs.len() as int) =~= all);
    out
}

/// The type of a field of an instance: the one the instance fixes, or the declared one.
pub open spec fn instance_type(f: FieldInfoV, subst: Seq<(Seq<char>, TypeV)>) -> Option<TypeV> {
    either(lookup(subst, f.name), f.resolved_ty)
}

/// The field lines of a record body: all fields, or only the public ones with the
/// types of an instance.
pub open spec fn field_lines(
    fs: Seq<FieldInfoV>,
    instance: Option<Seq<(Seq<char>, TypeV)>>,
    st: NamerV,
) -> (Seq<char>, NamerV)
    decreases fs.len(),
{
    if fs.len() == 0 {
        (Seq::empty(), st)
    } else {
        let r = field_lines(fs.drop_last(), instance, st);
        let f = fs.last();
        match instance {
            Some(_) if !is_public(f.name) => r,
            _ => {
                let ty = match instance {
                    Some(s) => instance_type(f, s),
                    None => f.resolved_ty,
                };
                let q = rendered_field(f.name, ty, r.1);
                (r.0 + "    "@ + q.0 + "\n"@, q.1)
            },
        }
    }
}

/// The signature lines of the methods with the given names.
pub open spec fn method_lines(
    names: Seq<Seq<char>>,
    ms: Seq<(Seq<char>, MethodInfoV)>,
    public_only: bool,
) -> Seq<char>
    decreases names.len(),
{
    if names.len() == 0 {
        Seq::empty()
    } else {
        let before = method_lines(names.drop_last(), ms, public_only);
        match lookup(ms, names.last()) {
            Some(m) if !public_only || is_public(names.last()) => before + "    "@
                + declared_signature(m.signature) + "\n"@,
            _ => before,
        }
    }
}

/// The names of a record's methods, in order.
pub open spec fn method_names(ms: Seq<(Seq<char>, MethodInfoV)>) -> Seq<Seq<char>> {
    in_order(keys_of(ms).to_set())
}

/// The definition of a type: a record's fields and methods (in name order) or a sum's
/// variants, each on its own line.
pub open spec fn rendered_def(
    info: TypeInfoV,
    instance: Option<Seq<(Seq<char>, TypeV)>>,
) -> Seq<char> {
    match info.kind {
        TypeKindV::Record { fields, methods } => "type "@ + info.name + " = {\n"@ + (field_lines(
            fields,
            instance,
            no_names(),
        ).0 + method_lines(method_names(methods), methods, instance is Some)) + "}"@,
        TypeKindV::Sum { variants } => "type "@ + info.name + " =\n"@ + join(
            rendered_variants(variants, no_names()).0,
            "\n"@,
        ),
    }
}

fn push_field_lines(
    fs: &Vec<FieldInfo>,
    instance: Option<&Substitution>,
    namer: &mut UnknownNamer,
) -> (r: String)
    ensures
        (r@, final(namer)@) == field_lines(
            field_infos_view(fs@),
            match instance {
                Some(s) => Some(s@),
                None => None,
            },
            old(namer)@,
        ),
{
    let ghost all = field_infos_view(fs@);
    let ghost st = namer@;
    let ghost inst = match instance {
        Some(s) => Some(s@),
        None => None,
    };
    let mut out = String::new();
    for i in 0..fs.len()
        invariant
            all == field_infos_view(fs@),
            inst == (match instance {
                Some(s) => Some(s@),
                None => None,
            }),
            (out@, namer@) == field_lines(all.take(i as int), inst, st),
    {
        proof {
            assert(all.take(i + 1).drop_last() =~= all.take(i as int));
            assert(all.take(i + 1).last() == fs[i as int]@);
        }
        let shown = match instance {
            Some(_) => is_public_member(fs[i].name.as_str()),
            None => true,
        };
        if shown {
            let ty: Option<&Type> = match instance {
                Some(s) => match s.get(fs[i].name.as_str()) {
                    Some(t) => Some(t),
                    None => fs[i].resolved_ty.as_ref(),
                },
                None => fs[i].resolved_ty.as_ref(),
            };
            let line = render_field(fs[i].name.as_str(), ty, namer);
            out.push_str("    ");
            out.push_str(line.as_str());
            out.push_str("\n");
        }
    }
    assert(all.take(fs.len() as int) =~= all);
    out
}

fn push_method_lines(ms: &Vec<(String, MethodInfo)>, public_only: bool) -> (r: String)
    ensures
        r@ == method_lines(
            method_names(named_method_infos_view(ms@)),
            named_method_infos_view(ms@),
            public_only,
        ),
{
    let ghost mv = named_method_infos_view(ms@);
    let mut set = NameSet::new();
    for i in 0..ms.len()
        invariant
            mv == named_method_infos_view(ms@),
            set@ == keys_of(mv).take(i as int).to_set(),
    {
        let ghost ks = keys_of(mv);
        let ghost before = set@;
        set.insert(ms[i].0.as_str());
        proof {
            let now = ks.take(i + 1);
            assert(ks[i as int] == ms[i as int].0@);
            assert(now =~= ks.take(i as int).push(ks[i as int]));
            assert(set@ =~= now.to_set()) by {
                assert forall|x: Seq<char>| set@.contains(x) == now.to_set().contains(x) by {
                    if now.contains(x) {
                        let j = choose|j: int| 0 <= j < now.len() && now[j] == x;
                        if j < i {
                            assert(ks.take(i as int)[j] == x);
                        }
                    }
                    if before.contains(x) {
                        let j = choose|j: int|
                            0 <= j < ks.take(i as int).len() && ks.take(i as int)[j] == x;
                        assert(now[j] == x);
                    }
                    assert(now[i as int] == ks[i as int]);
                }
            }
        }
    }
    proof {
        assert(keys_of(mv).take(ms.len() as int) =~= keys_of(mv));
    }
    let sorted = set.items();
    let ghost all = texts(sorted@);
    let mut out = String::new();
    for i in 0..sorted.len()
        invariant
            mv == named_method_infos_view(ms@),
            all == texts(sorted@),
            out@ == method_lines(all.take(i as int), mv, public_only),
    {
        proof {
            assert(all.take(i + 1).drop_last() =~= all.take(i as int));
            assert(all.take(i + 1).last() == sorted[i as int]@);
            assert(names(ms@) =~= keys_of(mv));
        }
        let at = find_key(ms, sorted[i].as_str());
        if at < ms.len() && (!public_only || is_public_member(sorted[i].as_str())) {
            out.push_str("    ");
            out.push_str(render_signature(&ms[at].1.signature).as_str());
            out.push_str("\n");
        }
    }
    assert(all.take(sorted.len() as int) =~= all);
    out
}

fn render_def(info: &TypeInfo, instance: Option<&Substitution>) -> (r: String)
    ensures
        r@ == rendered_def(
            info@,
            match instance {
                Some(s) => Some(s@),
                None => None,
            },
        ),
{
    let mut namer = UnknownNamer::default();
    match &info.kind {
        TypeKind::Record { fields, methods } => {
            let mut body = push_field_lines(fields, instance, &mut namer);
            body.push_str(push_method_lines(methods, instance.is_some()).as_str());
            cat5("type ", info.name.as_str(), " = {\n", body.as_str(), "}")
        },
        TypeKind::Sum { variants } => {
            let parts = render_variants(variants, &mut namer);
            let mut out = cat3("type ", info.name.as_str(), " =\n");
            out.push_str(join_strings(parts.as_slice(), "\n").as_str());
            out
        },
    }
}

/// Render a type definition for hover over a type name: a record's fields or a sum
/// type's variants, each on its own line.
pub fn render_type_def(info: &TypeInfo) -> (r: String)
    ensures
        r@ == rendered_def(info@, None),
{
    render_def(info, None)
}

/// Render a type definition as one instance has it: the public members only, with the
/// field types that `substitution` fixes.
pub fn render_type_def_with(info: &TypeInfo, substitution: &Substitution) -> (r: String)
    ensures
        r@ == rendered_def(info@, Some(substitution@)),
{
    render_def(info, Some(substitution))
}

// ---- laws ----

/// The variables of a type in the order in which it shows them.
pub open spec fn appearing(t: TypeV) -> Seq<u32>
    decreases t,
{
    match t {
        TypeV::Record(n) => appearing_nominal(n),
        TypeV::Sum(n) => appearing_nominal(n),
        TypeV::Array(e, _) => appearing(*e),
        TypeV::Slice(e) => appearing(*e),
        TypeV::Tuple(ts) => appearing_all(ts),
        TypeV::Fun(ps, r) => appearing_all(ps) + appearing(*r),
        TypeV::Nullable(e) => appearing(*e),
        TypeV::ConstOf(e) => appearing(*e),
        TypeV::Mut(e) => appearing(*e),
        TypeV::Ref(e) => appearing(*e),
        TypeV::Unknown(id) => seq![id],
        _ => Seq::empty(),
    }
}

/// The variables of several types.
pub open spec fn appearing_all(ts: Seq<TypeV>) -> Seq<u32>
    decreases ts,
{
    if ts.len() == 0 {
        Seq::empty()
    } else {
        appearing_all(ts.drop_last()) + appearing(ts.last())
    }
}

/// The variables of a substitution.
pub open spec fn appearing_entries(s: Seq<(Seq<char>, TypeV)>) -> Seq<u32>
    decreases s,
{
    if s.len() == 0 {
        Seq::empty()
    } else {
        appearing_entries(s.drop_last()) + appearing(s.last().1)
    }
}

/// The variables of a nominal reference.
pub open spec fn appearing_nominal(n: NominalV) -> Seq<u32>
    decreases n,
{
    let ok = first_pos(keys_of(n.subst), "Ok.value"@);
    let err = first_pos(keys_of(n.subst), "Err.error"@);
    if n.name == "Result"@ && 0 <= ok < n.subst.len() && 0 <= err < n.subst.len() {
        appearing(n.subst[ok].1) + appearing(n.subst[err].1)
    } else {
        appearing_entries(n.subst)
    }
}

/// The numbers after several variables have been seen one after the other.
pub open spec fn noted_all(numbered: Seq<Option<u32>>, ids: Seq<u32>) -> Seq<Option<u32>>
    decreases ids.len(),
{
    if ids.len() == 0 {
        numbered
    } else {
        noted(noted_all(numbered, ids.drop_last()), ids.last())
    }
}

proof fn noted_all_add(numbered: Seq<Option<u32>>, a: Seq<u32>, b: Seq<u32>)
    ensures
        noted_all(numbered, a + b) == noted_all(noted_all(numbered, a), b),
    decreases b.len(),
{
    if b.len() == 0 {
        assert(a + b =~= a);
    } else {
        assert((a + b).drop_last() =~= a + b.drop_last());
        noted_all_add(numbered, a, b.drop_last());
    }
}

/// Rendering a type numbers its variables by first appearance: each variable takes
/// the next number the first time it is shown, and a concrete type takes none.
pub proof fn numbered_by_appearance(t: TypeV, st: NamerV)
    requires
        st.fixed.len() == 0,
    ensures
        rendered(t, st).1 == (NamerV { numbered: noted_all(st.numbered, appearing(t)), ..st }),
    decreases t,
{
    match t {
        TypeV::Record(n) => numbered_nominal(n, st),
        TypeV::Sum(n) => numbered_nominal(n, st),
        TypeV::Array(e, _) => numbered_by_appearance(*e, st),
        TypeV::Slice(e) => numbered_by_appearance(*e, st),
        TypeV::Tuple(ts) => numbered_all(ts, st),
        TypeV::Fun(ps, r) => {
            numbered_all(ps, st);
            numbered_by_appearance(*r, rendered_all(ps, st).1);
            noted_all_add(st.numbered, appearing_all(ps), appearing(*r));
        },
        TypeV::Nullable(e) => numbered_by_appearance(*e, st),
        TypeV::ConstOf(e) => numbered_by_appearance(*e, st),
        TypeV::Mut(e) => numbered_by_appearance(*e, st),
        TypeV::Ref(e) => numbered_by_appearance(*e, st),
        TypeV::Unknown(id) => {
            assert(seq![id].drop_last() =~= Seq::<u32>::empty());
            assert(noted_all(st.numbered, Seq::<u32>::empty()) == st.numbered);
        },
        _ => {},
    }
}

proof fn numbered_all(ts: Seq<TypeV>, st: NamerV)
    requires
        st.fixed.len() == 0,
    ensures
        rendered_all(ts, st).1 == (NamerV {
            numbered: noted_all(st.numbered, appearing_all(ts)),
            ..st
        }),
    decreases ts,
{
    if ts.len() > 0 {
        numbered_all(ts.drop_last(), st);
        numbered_by_appearance(ts.last(), rendered_all(ts.drop_last(), st).1);
        noted_all_add(st.numbered, appearing_all(ts.drop_last()), appearing(ts.last()));
    }
}

proof fn numbered_entries(s: Seq<(Seq<char>, TypeV)>, st: NamerV)
    requires
        st.fixed.len() == 0,
    ensures
        rendered_entries(s, st).1 == (NamerV {
            numbered: noted_all(st.numbered, appearing_entries(s)),
            ..st
        }),
    decreases s,
{
    if s.len() > 0 {
        numbered_entries(s.drop_last(), st);
        numbered_by_appearance(s.last().1, rendered_entries(s.drop_last(), st).1);
        noted_all_add(st.numbered, appearing_entries(s.drop_last()), appearing(s.last().1));
    }
}

proof fn numbered_nominal(n: NominalV, st: NamerV)
    requires
        st.fixed.len() == 0,
    ensures
        rendered_nominal(n, st).1 == (NamerV {
            numbered: noted_all(st.numbered, appearing_nominal(n)),
            ..st
        }),
    decreases n,
{
    let ok = first_pos(keys_of(n.subst), "Ok.value"@);
    let err = first_pos(keys_of(n.subst), "Err.error"@);
    if n.name == "Result"@ && 0 <= ok < n.subst.len() && 0 <= err < n.subst.len() {
        numbered_by_appearance(n.subst[ok].1, st);
        numbered_by_appearance(n.subst[err].1, rendered(n.subst[ok].1, st).1);
        noted_all_add(
            st.numbered,
            appearing(n.subst[ok].1),
            appearing(n.subst[err].1),
        );
    } else {
        numbered_entries(n.subst, st);
    }
}

/// Two variables that have numbers have different names, and a variable keeps its name
/// whatever is numbered after it.
pub proof fn names_tell_apart(numbered: Seq<Option<u32>>, later: Seq<Option<u32>>, a: u32, b: u32)
    requires
        numbered.contains(Some(a)),
        numbered.contains(Some(b)),
    ensures
        unknown_name(number_of(numbered, a)) == unknown_name(number_of(numbered, b)) ==> a == b,
        number_of(numbered + later, a) == number_of(numbered, a),
{
    first_pos_facts(numbered, Some(a));
    first_pos_facts(numbered, Some(b));
    let m = number_of(numbered, a);
    let n = number_of(numbered, b);
    if unknown_name(m) == unknown_name(n) {
        let head = "unknown_"@;
        assert(unknown_name(m).skip(head.len() as int) =~= dec(m as nat));
        assert(unknown_name(n).skip(head.len() as int) =~= dec(n as nat));
        digits_determine(m as nat, n as nat, 10);
        assert(m < numbered.len()) by {
            let i = choose|i: int| 0 <= i < numbered.len() && numbered[i] == Some(a);
            assert(m <= i);
        }
    }
    let i = choose|i: int| 0 <= i < numbered.len() && numbered[i] == Some(a);
    assert(m <= i);
    assert forall|j: int| 0 <= j < m implies (numbered + later)[j] != Some(a) by {
        assert((numbered + later)[j] == numbered[j]);
    }
    first_pos_unique(numbered + later, Some(a), m);
}

} // verus!
