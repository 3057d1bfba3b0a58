//! Resolution of the annotations in signatures and variants, and the constraints
//! that interfaces put on the types that implement them.

use vstd::prelude::*;
use crate::ast::{TypeExpr, TypeExprV};
use crate::hir::{all_origins_view, field_infos_view, named_fun_infos_view, named_method_infos_view, named_type_infos_view, param_infos_view, resolve_position, resolved_pos, variant_infos_view, CallableSignature, CallableSignatureV, FieldInfo, FieldInfoV, FunInfo, FunInfoV, MethodInfo, MethodInfoV, ParamInfoV, Program, ProgramV, TypeInfo, TypeInfoV, TypeKind, TypeKindV, VariantInfo, VariantInfoV};
use crate::lower::{errors_view, LowerError, LowerErrorV};
use crate::table::{find_key, first_pos, first_pos_facts, first_pos_unique, keys_of, lookup, names};
use crate::text::{clone_strings, str_eq, texts};
use crate::typedecl::{alias_decls_view, decls_resolved, nominals_view, resolve_type_decls, AliasDecl, AliasDeclV};
use crate::types::{answers, clone_type, freshen_infer, freshened, infer_count, opt_type, resolve, resolved, NominalInfo, NominalKind, Type, TypeV};

verus! {

// ---- numbering through a list ----

/// Each element mapped by `f`, which also takes and gives a counter.
pub open spec fn threaded<A, B>(
    s: Seq<A>,
    f: spec_fn(A, nat) -> (B, nat),
    next: nat,
) -> (Seq<B>, nat)
    decreases s.len(),
{
    if s.len() == 0 {
        (Seq::empty(), next)
    } else {
        let (bs, n) = threaded(s.drop_last(), f, next);
        let (b, n2) = f(s.last(), n);
        (bs.push(b), n2)
    }
}

/// Whether `f` never lowers the counter.
pub open spec fn grows<A, B>(f: spec_fn(A, nat) -> (B, nat)) -> bool {
    forall|a: A, n: nat| (#[trigger] f(a, n)).1 >= n
}

proof fn threaded_facts<A, B>(s: Seq<A>, f: spec_fn(A, nat) -> (B, nat), next: nat, k: int)
    requires
        0 <= k <= s.len(),
        grows(f),
    ensures
        threaded(s, f, next).0.len() == s.len(),
        next <= threaded(s.take(k), f, next).1,
        threaded(s.take(k), f, next).1 <= threaded(s, f, next).1,
    decreases s.len(),
{
    if s.len() > 0 {
        let rest = s.drop_last();
        if k == s.len() {
            assert(s.take(k) =~= s);
            assert(rest.take(k - 1) =~= rest);
            threaded_facts(rest, f, next, k - 1);
        } else {
            assert(rest.take(k) =~= s.take(k));
            threaded_facts(rest, f, next, k);
        }
    } else {
        assert(s.take(k) =~= s);
    }
}

proof fn threaded_step<A, B>(s: Seq<A>, f: spec_fn(A, nat) -> (B, nat), next: nat, i: int)
    requires
        0 <= i < s.len(),
        grows(f),
    ensures
        ({
            let (bs, n) = threaded(s.take(i), f, next);
            let (b, n2) = f(s[i], n);
            &&& threaded(s.take(i + 1), f, next) == (bs.push(b), n2)
            &&& bs.len() == i
            &&& n2 <= threaded(s, f, next).1
            &&& next <= n
        }),
{
    assert(s.take(i + 1).drop_last() =~= s.take(i));
    threaded_facts(s.take(i), f, next, i);
    threaded_facts(s, f, next, i + 1);
    threaded_facts(s, f, next, i);
}

// ---- annotations ----

/// What type names denote in a module.
pub open spec fn scope_of(
    nominals: Seq<(Seq<char>, NominalInfo)>,
    origins: Seq<(Seq<Seq<char>>, Seq<(Seq<char>, Seq<Seq<char>>)>)>,
    module: Seq<Seq<char>>,
) -> spec_fn(Seq<char>) -> Option<NominalInfo> {
    |name: Seq<char>|
        match resolved_pos(keys_of(nominals), origins, module, name) {
            Some(p) => Some(nominals[p].1),
            None => None,
        }
}

/// The type of a written annotation, its placeholders freshened; none if it does not
/// resolve.
pub open spec fn annotation(
    te: TypeExprV,
    info: spec_fn(Seq<char>) -> Option<NominalInfo>,
    next: nat,
) -> (Option<TypeV>, nat) {
    match resolved(te, info) {
        Ok(t) => (Some(freshened(t, next)), next + infer_count(t)),
        Err(_) => (None, next),
    }
}

/// A fresh variable.
pub open spec fn fresh_var(next: nat) -> (Option<TypeV>, nat) {
    (Some(TypeV::Unknown(next as u32)), next + 1)
}

/// A field with its annotation resolved; an unannotated field gets a variable.
pub open spec fn field_annotated(
    f: FieldInfoV,
    info: spec_fn(Seq<char>) -> Option<NominalInfo>,
    next: nat,
) -> (FieldInfoV, nat) {
    let (t, n) = match f.ty {
        Some(te) => annotation(te, info, next),
        None => fresh_var(next),
    };
    (FieldInfoV { resolved_ty: t, ..f }, n)
}

pub open spec fn field_step(info: spec_fn(Seq<char>) -> Option<NominalInfo>) -> spec_fn(
    FieldInfoV,
    nat,
) -> (FieldInfoV, nat) {
    |f: FieldInfoV, n: nat| field_annotated(f, info, n)
}

/// A parameter with its annotation resolved; an unannotated one other than `self`
/// gets a variable where `assign` says so.
pub open spec fn param_annotated(
    p: ParamInfoV,
    info: spec_fn(Seq<char>) -> Option<NominalInfo>,
    assign: bool,
    next: nat,
) -> (ParamInfoV, nat) {
    let (t, n) = match p.ty {
        Some(te) => annotation(te, info, next),
        None => if assign && p.name != "self"@ {
            fresh_var(next)
        } else {
            (None, next)
        },
    };
    (ParamInfoV { resolved_ty: t, ..p }, n)
}

pub open spec fn param_step(
    info: spec_fn(Seq<char>) -> Option<NominalInfo>,
    assign: bool,
) -> spec_fn(ParamInfoV, nat) -> (ParamInfoV, nat) {
    |p: ParamInfoV, n: nat| param_annotated(p, info, assign, n)
}

/// A signature with its annotations resolved.
pub open spec fn signature_annotated(
    s: CallableSignatureV,
    info: spec_fn(Seq<char>) -> Option<NominalInfo>,
    assign_params: bool,
    assign_ret: bool,
    next: nat,
) -> (CallableSignatureV, nat) {
    let (ps, n) = threaded(s.params, param_step(info, assign_params), next);
    let (r, n2) = match s.ret {
        Some(te) => annotation(te, info, n),
        None => if assign_ret {
            fresh_var(n)
        } else {
            (None, n)
        },
    };
    (CallableSignatureV { params: ps, ret_ty: r, ..s }, n2)
}

/// A method with its annotations resolved: a method without body (an interface
/// requirement) also gets a variable for an unannotated result.
pub open spec fn method_annotated(
    m: (Seq<char>, MethodInfoV),
    info: spec_fn(Seq<char>) -> Option<NominalInfo>,
    next: nat,
) -> ((Seq<char>, MethodInfoV), nat) {
    let (s, n) = signature_annotated(m.1.signature, info, true, m.1.decl.body is None, next);
    ((m.0, MethodInfoV { signature: s, ..m.1 }), n)
}

pub open spec fn method_step(info: spec_fn(Seq<char>) -> Option<NominalInfo>) -> spec_fn(
    (Seq<char>, MethodInfoV),
    nat,
) -> ((Seq<char>, MethodInfoV), nat) {
    |m: (Seq<char>, MethodInfoV), n: nat| method_annotated(m, info, n)
}

/// A variant with its fields and methods annotated.
pub open spec fn variant_annotated(
    v: VariantInfoV,
    info: spec_fn(Seq<char>) -> Option<NominalInfo>,
    next: nat,
) -> (VariantInfoV, nat) {
    let (fs, n) = threaded(v.fields, field_step(info), next);
    let (ms, n2) = threaded(v.methods, method_step(info), n);
    (VariantInfoV { fields: fs, methods: ms, ..v }, n2)
}

pub open spec fn variant_step(info: spec_fn(Seq<char>) -> Option<NominalInfo>) -> spec_fn(
    VariantInfoV,
    nat,
) -> (VariantInfoV, nat) {
    |v: VariantInfoV, n: nat| variant_annotated(v, info, n)
}

/// A type with its methods annotated, and the fields of its variants (the fields of a
/// record are resolved with its slots).
pub open spec fn type_annotated(
    t: TypeInfoV,
    info: spec_fn(Seq<char>) -> Option<NominalInfo>,
    next: nat,
) -> (TypeInfoV, nat) {
    match t.kind {
        TypeKindV::Record { fields, methods } => {
            let (ms, n) = threaded(methods, method_step(info), next);
            (TypeInfoV { kind: TypeKindV::Record { fields, methods: ms }, ..t }, n)
        },
        TypeKindV::Sum { variants } => {
            let (vs, n) = threaded(variants, variant_step(info), next);
            (TypeInfoV { kind: TypeKindV::Sum { variants: vs }, ..t }, n)
        },
    }
}

pub open spec fn type_step(
    nominals: Seq<(Seq<char>, NominalInfo)>,
    origins: Seq<(Seq<Seq<char>>, Seq<(Seq<char>, Seq<Seq<char>>)>)>,
) -> spec_fn((Seq<char>, TypeInfoV), nat) -> ((Seq<char>, TypeInfoV), nat) {
    |e: (Seq<char>, TypeInfoV), n: nat|
        {
            let (t, n2) = type_annotated(e.1, scope_of(nominals, origins, e.1.module), n);
            ((e.0, t), n2)
        }
}

pub open spec fn function_step(
    nominals: Seq<(Seq<char>, NominalInfo)>,
    origins: Seq<(Seq<Seq<char>>, Seq<(Seq<char>, Seq<Seq<char>>)>)>,
) -> spec_fn((Seq<char>, FunInfoV), nat) -> ((Seq<char>, FunInfoV), nat) {
    |e: (Seq<char>, FunInfoV), n: nat|
        {
            let (s, n2) = signature_annotated(
                e.1.signature,
                scope_of(nominals, origins, e.1.module),
                false,
                false,
                n,
            );
            ((e.0, FunInfoV { signature: s, ..e.1 }), n2)
        }
}

proof fn signature_grows(
    s: CallableSignatureV,
    info: spec_fn(Seq<char>) -> Option<NominalInfo>,
    a: bool,
    b: bool,
    next: nat,
)
    ensures
        signature_annotated(s, info, a, b, next).1 >= next,
        threaded(s.params, param_step(info, a), next).1 >= next,
        threaded(s.params, param_step(info, a), next).1 <= signature_annotated(
            s,
            info,
            a,
            b,
            next,
        ).1,
{
    assert(grows(param_step(info, a)));
    threaded_facts(s.params, param_step(info, a), next, 0);
}

proof fn method_step_grows(info: spec_fn(Seq<char>) -> Option<NominalInfo>)
    ensures
        grows(method_step(info)),
{
    assert forall|m: (Seq<char>, MethodInfoV), n: nat| (#[trigger] method_step(info)(m, n)).1
        >= n by {
        signature_grows(m.1.signature, info, true, m.1.decl.body is None, n);
    }
}

proof fn variant_step_grows(info: spec_fn(Seq<char>) -> Option<NominalInfo>)
    ensures
        grows(variant_step(info)),
{
    assert forall|v: VariantInfoV, n: nat| (#[trigger] variant_step(info)(v, n)).1 >= n by {
        assert(grows(field_step(info)));
        method_step_grows(info);
        threaded_facts(v.fields, field_step(info), n, 0);
        threaded_facts(v.methods, method_step(info), threaded(v.fields, field_step(info), n).1, 0);
    }
}

proof fn type_step_grows(
    nominals: Seq<(Seq<char>, NominalInfo)>,
    origins: Seq<(Seq<Seq<char>>, Seq<(Seq<char>, Seq<Seq<char>>)>)>,
)
    ensures
        grows(type_step(nominals, origins)),
        grows(function_step(nominals, origins)),
{
    assert forall|e: (Seq<char>, TypeInfoV), n: nat| (#[trigger] type_step(nominals, origins)(
        e,
        n,
    )).1 >= n by {
        let info = scope_of(nominals, origins, e.1.module);
        method_step_grows(info);
        variant_step_grows(info);
        match e.1.kind {
            TypeKindV::Record { methods, .. } => {
                threaded_facts(methods, method_step(info), n, 0);
            },
            TypeKindV::Sum { variants } => {
                threaded_facts(variants, variant_step(info), n, 0);
            },
        }
    }
    assert forall|e: (Seq<char>, FunInfoV), n: nat| (#[trigger] function_step(nominals, origins)(
        e,
        n,
    )).1 >= n by {
        signature_grows(
            e.1.signature,
            scope_of(nominals, origins, e.1.module),
            false,
            false,
            n,
        );
    }
}

/// What type names denote in a module.
struct Scope<'a> {
    nominals: &'a Vec<(String, NominalInfo)>,
    origins: &'a Vec<(Vec<String>, Vec<(String, Vec<String>)>)>,
    module: &'a Vec<String>,
}

impl<'a> Scope<'a> {
    spec fn info(&self) -> spec_fn(Seq<char>) -> Option<NominalInfo> {
        scope_of(
            nominals_view(self.nominals@),
            all_origins_view(self.origins@),
            texts(self.module@),
        )
    }

    fn nominal(&self, name: &str) -> (r: Option<NominalInfo>)
        ensures
            r == (self.info())(name@),
    {
        assert(names(self.nominals@) =~= keys_of(nominals_view(self.nominals@)));
        match resolve_position(self.nominals, self.origins, self.module.as_slice(), name) {
            Some(i) => Some(self.nominals[i].1),
            None => None,
        }
    }

    fn annotation(&self, te: &TypeExpr, next: &mut u32) -> (r: Option<Type>)
        requires
            annotation(te@, self.info(), *old(next) as nat).1 <= u32::MAX,
        ensures
            (opt_type(r), *final(next) as nat) == annotation(
                te@,
                self.info(),
                *old(next) as nat,
            ),
    {
        let nominal = |name: &str| -> (r: Option<NominalInfo>)
            ensures
                r == (self.info())(name@),
            { self.nominal(name) };
        let t = resolve(te, nominal);
        assert(answers(nominal, self.info()));
        match t {
            Ok(t) => Some(freshen_infer(t, next)),
            Err(_) => None,
        }
    }
}

fn fresh_unknown(next_unknown: &mut u32) -> (r: Type)
    requires
        *old(next_unknown) < u32::MAX,
    ensures
        (Some(r@), *final(next_unknown) as nat) == fresh_var(*old(next_unknown) as nat),
{
    let id = *next_unknown;
    *next_unknown = id + 1;
    Type::Unknown(id)
}

fn resolve_field_annotation(field: &mut FieldInfo, scope: &Scope, next_unknown: &mut u32)
    requires
        field_annotated(old(field)@, scope.info(), *old(next_unknown) as nat).1 <= u32::MAX,
    ensures
        (final(field)@, *final(next_unknown) as nat) == field_annotated(
            old(field)@,
            scope.info(),
            *old(next_unknown) as nat,
        ),
{
    let t = match &field.ty {
        Some(te) => scope.annotation(te, next_unknown),
        None => Some(fresh_unknown(next_unknown)),
    };
    field.resolved_ty = t;
}

#[verifier::rlimit(50)]
fn resolve_signature_annotations(
    signature: &mut CallableSignature,
    scope: &Scope,
    next_unknown: &mut u32,
    assign_param_unknowns: bool,
    assign_ret_unknown: bool,
)
    requires
        signature_annotated(
            old(signature)@,
            scope.info(),
            assign_param_unknowns,
            assign_ret_unknown,
            *old(next_unknown) as nat,
        ).1 <= u32::MAX,
    ensures
        (final(signature)@, *final(next_unknown) as nat) == signature_annotated(
            old(signature)@,
            scope.info(),
            assign_param_unknowns,
            assign_ret_unknown,
            *old(next_unknown) as nat,
        ),
{
    let ghost start = *next_unknown as nat;
    let ghost info = scope.info();
    let ghost step = param_step(info, assign_param_unknowns);
    let ghost all = param_infos_view(signature.params@);
    proof {
        signature_grows(
            signature@,
            info,
            assign_param_unknowns,
            assign_ret_unknown,
            start,
        );
        assert(grows(step));
    }
    let n = signature.params.len();
    for i in 0..n
        invariant
            n == signature.params.len() == all.len(),
            info == scope.info(),
            step == param_step(info, assign_param_unknowns),
            grows(step),
            threaded(all, step, start).1 <= u32::MAX,
            *next_unknown == threaded(all.take(i as int), step, start).1,
            forall|j: int| i <= j < n ==> (#[trigger] signature.params[j])@ == all[j],
            forall|j: int|
                0 <= j < i ==> (#[trigger] signature.params[j])@ == threaded(
                    all.take(i as int),
                    step,
                    start,
                ).0[j],
            signature.name@ == old(signature)@.name,
            signature.ret == old(signature).ret,
            signature.span == old(signature)@.span,
    {
        proof {
            threaded_step(all, step, start, i as int);
            assert(signature.params[i as int]@ == all[i as int]);
        }
        let p = &signature.params[i];
        let t = match &p.ty {
            Some(te) => scope.annotation(te, next_unknown),
            None => if assign_param_unknowns && !str_eq(p.name.as_str(), "self") {
                Some(fresh_unknown(next_unknown))
            } else {
                None
            },
        };
        signature.params[i].resolved_ty = t;
    }
    proof {
        assert(all.take(n as int) =~= all);
        threaded_facts(all, step, start, n as int);
        assert(param_infos_view(signature.params@) =~= threaded(all, step, start).0);
    }
    let r = match &signature.ret {
        Some(te) => scope.annotation(te, next_unknown),
        None => if assign_ret_unknown {
            Some(fresh_unknown(next_unknown))
        } else {
            None
        },
    };
    signature.ret_ty = r;
}

fn annotate_fields(fields: &mut Vec<FieldInfo>, scope: &Scope, next_unknown: &mut u32)
    requires
        threaded(
            field_infos_view(old(fields)@),
            field_step(scope.info()),
            *old(next_unknown) as nat,
        ).1 <= u32::MAX,
    ensures
        (field_infos_view(final(fields)@), *final(next_unknown) as nat) == threaded(
            field_infos_view(old(fields)@),
            field_step(scope.info()),
            *old(next_unknown) as nat,
        ),
{
    let ghost start = *next_unknown as nat;
    let ghost step = field_step(scope.info());
    let ghost all = field_infos_view(fields@);
    assert(grows(step));
    let n = fields.len();
    for i in 0..n
        invariant
            n == fields.len() == all.len(),
            step == field_step(scope.info()),
            grows(step),
            threaded(all, step, start).1 <= u32::MAX,
            *next_unknown == threaded(all.take(i as int), step, start).1,
            forall|j: int| i <= j < n ==> (#[trigger] fields[j])@ == all[j],
            forall|j: int|
                0 <= j < i ==> (#[trigger] fields[j])@ == threaded(
                    all.take(i as int),
                    step,
                    start,
                ).0[j],
    {
        proof {
            threaded_step(all, step, start, i as int);
            assert(fields[i as int]@ == all[i as int]);
        }
        resolve_field_annotation(&mut fields[i], scope, next_unknown);
    }
    proof {
        assert(all.take(n as int) =~= all);
        threaded_facts(all, step, start, n as int);
        assert(field_infos_view(fields@) =~= threaded(all, step, start).0);
    }
}

fn annotate_methods(methods: &mut Vec<(String, MethodInfo)>, scope: &Scope, next_unknown: &mut u32)
    requires
        threaded(
            named_method_infos_view(old(methods)@),
            method_step(scope.info()),
            *old(next_unknown) as nat,
        ).1 <= u32::MAX,
    ensures
        (named_method_infos_view(final(methods)@), *final(next_unknown) as nat) == threaded(
            named_method_infos_view(old(methods)@),
            method_step(scope.info()),
            *old(next_unknown) as nat,
        ),
{
    let ghost start = *next_unknown as nat;
    let ghost step = method_step(scope.info());
    let ghost all = named_method_infos_view(methods@);
    proof {
        method_step_grows(scope.info());
    }
    let n = methods.len();
    for i in 0..n
        invariant
            n == methods.len() == all.len(),
            step == method_step(scope.info()),
            grows(step),
            threaded(all, step, start).1 <= u32::MAX,
            *next_unknown == threaded(all.take(i as int), step, start).1,
            forall|j: int|
                i <= j < n ==> ((#[trigger] methods[j]).0@, methods[j].1@) == all[j],
            forall|j: int|
                0 <= j < i ==> ((#[trigger] methods[j]).0@, methods[j].1@) == threaded(
                    all.take(i as int),
                    step,
                    start,
                ).0[j],
    {
        proof {
            threaded_step(all, step, start, i as int);
            assert((methods[i as int].0@, methods[i as int].1@) == all[i as int]);
        }
        let assign_ret = methods[i].1.decl.body.is_none();
        resolve_signature_annotations(
            &mut methods[i].1.signature,
            scope,
            next_unknown,
            true,
            assign_ret,
        );
    }
    proof {
        assert(all.take(n as int) =~= all);
        threaded_facts(all, step, start, n as int);
        assert(named_method_infos_view(methods@) =~= threaded(all, step, start).0);
    }
}

fn annotate_variants(variants: &mut Vec<VariantInfo>, scope: &Scope, next_unknown: &mut u32)
    requires
        threaded(
            variant_infos_view(old(variants)@),
            variant_step(scope.info()),
            *old(next_unknown) as nat,
        ).1 <= u32::MAX,
    ensures
        (variant_infos_view(final(variants)@), *final(next_unknown) as nat) == threaded(
            variant_infos_view(old(variants)@),
            variant_step(scope.info()),
            *old(next_unknown) as nat,
        ),
{
    let ghost start = *next_unknown as nat;
    let ghost info = scope.info();
    let ghost step = variant_step(info);
    let ghost all = variant_infos_view(variants@);
    proof {
        variant_step_grows(info);
    }
    let n = variants.len();
    for i in 0..n
        invariant
            n == variants.len() == all.len(),
            info == scope.info(),
            step == variant_step(info),
            grows(step),
            threaded(all, step, start).1 <= u32::MAX,
            *next_unknown == threaded(all.take(i as int), step, start).1,
            forall|j: int| i <= j < n ==> (#[trigger] variants[j])@ == all[j],
            forall|j: int|
                0 <= j < i ==> (#[trigger] variants[j])@ == threaded(
                    all.take(i as int),
                    step,
                    start,
                ).0[j],
    {
        proof {
            threaded_step(all, step, start, i as int);
            assert(variants[i as int]@ == all[i as int]);
            let here = *next_unknown as nat;
            let mid = threaded(all[i as int].fields, field_step(info), here).1;
            method_step_grows(info);
            threaded_facts(all[i as int].methods, method_step(info), mid, 0);
        }
        annotate_fields(&mut variants[i].fields, scope, next_unknown);
        annotate_methods(&mut variants[i].methods, scope, next_unknown);
    }
    proof {
        assert(all.take(n as int) =~= all);
        threaded_facts(all, step, start, n as int);
        assert(variant_infos_view(variants@) =~= threaded(all, step, start).0);
    }
}

fn annotate_types(
    types: &mut Vec<(String, TypeInfo)>,
    nominals: &Vec<(String, NominalInfo)>,
    origins: &Vec<(Vec<String>, Vec<(String, Vec<String>)>)>,
    next_unknown: &mut u32,
)
    requires
        threaded(
            named_type_infos_view(old(types)@),
            type_step(nominals_view(nominals@), all_origins_view(origins@)),
            *old(next_unknown) as nat,
        ).1 <= u32::MAX,
    ensures
        (named_type_infos_view(final(types)@), *final(next_unknown) as nat) == threaded(
            named_type_infos_view(old(types)@),
            type_step(nominals_view(nominals@), all_origins_view(origins@)),
            *old(next_unknown) as nat,
        ),
{
    let ghost start = *next_unknown as nat;
    let ghost ns = nominals_view(nominals@);
    let ghost os = all_origins_view(origins@);
    let ghost step = type_step(ns, os);
    let ghost all = named_type_infos_view(types@);
    proof {
        type_step_grows(ns, os);
    }
    let n = types.len();
    for i in 0..n
        invariant
            n == types.len() == all.len(),
            ns == nominals_view(nominals@),
            os == all_origins_view(origins@),
            step == type_step(ns, os),
            grows(step),
            threaded(all, step, start).1 <= u32::MAX,
            *next_unknown == threaded(all.take(i as int), step, start).1,
            forall|j: int| i <= j < n ==> ((#[trigger] types[j]).0@, types[j].1@) == all[j],
            forall|j: int|
                0 <= j < i ==> ((#[trigger] types[j]).0@, types[j].1@) == threaded(
                    all.take(i as int),
                    step,
                    start,
                ).0[j],
    {
        proof {
            threaded_step(all, step, start, i as int);
            assert((types[i as int].0@, types[i as int].1@) == all[i as int]);
        }
        let module = clone_strings(&types[i].1.module);
        let scope = Scope { nominals, origins, module: &module };
        match &mut types[i].1.kind {
            TypeKind::Record { methods, .. } => annotate_methods(methods, &scope, next_unknown),
            TypeKind::Sum { variants } => annotate_variants(variants, &scope, next_unknown),
        }
    }
    proof {
        assert(all.take(n as int) =~= all);
        threaded_facts(all, step, start, n as int);
        assert(named_type_infos_view(types@) =~= threaded(all, step, start).0);
    }
}

fn annotate_functions(
    functions: &mut Vec<(String, FunInfo)>,
    nominals: &Vec<(String, NominalInfo)>,
    origins: &Vec<(Vec<String>, Vec<(String, Vec<String>)>)>,
    next_unknown: &mut u32,
)
    requires
        threaded(
            named_fun_infos_view(old(functions)@),
            function_step(nominals_view(nominals@), all_origins_view(origins@)),
            *old(next_unknown) as nat,
        ).1 <= u32::MAX,
    ensures
        (named_fun_infos_view(final(functions)@), *final(next_unknown) as nat) == threaded(
            named_fun_infos_view(old(functions)@),
            function_step(nominals_view(nominals@), all_origins_view(origins@)),
            *old(next_unknown) as nat,
        ),
{
    let ghost start = *next_unknown as nat;
    let ghost ns = nominals_view(nominals@);
    let ghost os = all_origins_view(origins@);
    let ghost step = function_step(ns, os);
    let ghost all = named_fun_infos_view(functions@);
    proof {
        type_step_grows(ns, os);
    }
    let n = functions.len();
    for i in 0..n
        invariant
            n == functions.len() == all.len(),
            ns == nominals_view(nominals@),
            os == all_origins_view(origins@),
            step == function_step(ns, os),
            grows(step),
            threaded(all, step, start).1 <= u32::MAX,
            *next_unknown == threaded(all.take(i as int), step, start).1,
            forall|j: int|
                i <= j < n ==> ((#[trigger] functions[j]).0@, functions[j].1@) == all[j],
            forall|j: int|
                0 <= j < i ==> ((#[trigger] functions[j]).0@, functions[j].1@) == threaded(
                    all.take(i as int),
                    step,
                    start,
                ).0[j],
    {
        proof {
            threaded_step(all, step, start, i as int);
            assert((functions[i as int].0@, functions[i as int].1@) == all[i as int]);
        }
        let module = clone_strings(&functions[i].1.module);
        let scope = Scope { nominals, origins, module: &module };
        resolve_signature_annotations(
            &mut functions[i].1.signature,
            &scope,
            next_unknown,
            false,
            false,
        );
    }
    proof {
        assert(all.take(n as int) =~= all);
        threaded_facts(all, step, start, n as int);
        assert(named_fun_infos_view(functions@) =~= threaded(all, step, start).0);
    }
}

// ---- interface constraints ----

/// Whether a resolved type is known.
pub open spec fn concrete(t: Option<TypeV>) -> bool {
    t matches Some(t) && !(t is Unknown)
}

/// The names and types of the fields whose type is known.
pub open spec fn concrete_fields(fs: Seq<FieldInfoV>) -> Seq<(Seq<char>, TypeV)>
    decreases fs.len(),
{
    if fs.len() == 0 {
        Seq::empty()
    } else {
        let rest = concrete_fields(fs.drop_last());
        if concrete(fs.last().resolved_ty) {
            rest.push((fs.last().name, fs.last().resolved_ty->0))
        } else {
            rest
        }
    }
}

/// What the records among the named interfaces fix of their fields, in order.
pub open spec fn field_constraints(
    types: Seq<(Seq<char>, TypeInfoV)>,
    interfaces: Seq<Seq<char>>,
) -> Seq<(Seq<char>, TypeV)>
    decreases interfaces.len(),
{
    if interfaces.len() == 0 {
        Seq::empty()
    } else {
        let rest = field_constraints(types, interfaces.drop_last());
        match lookup(types, interfaces.last()) {
            Some(t) => match t.kind {
                TypeKindV::Record { fields, .. } => rest + concrete_fields(fields),
                TypeKindV::Sum { .. } => rest,
            },
            None => rest,
        }
    }
}

/// The names of fields.
pub open spec fn field_names(fs: Seq<FieldInfoV>) -> Seq<Seq<char>> {
    Seq::new(fs.len(), |i: int| fs[i].name)
}

/// The fields after the constraint that `name` has type `ty`: an open field of that
/// name takes the type.
pub open spec fn field_constrained(
    fs: Seq<FieldInfoV>,
    name: Seq<char>,
    ty: TypeV,
) -> Seq<FieldInfoV> {
    let p = first_pos(field_names(fs), name);
    if 0 <= p < fs.len() && (fs[p].resolved_ty matches Some(t) && t is Unknown) {
        fs.update(p, FieldInfoV { resolved_ty: Some(ty), ..fs[p] })
    } else {
        fs
    }
}

/// The fields after all constraints, in order.
pub open spec fn fields_constrained(
    fs: Seq<FieldInfoV>,
    cs: Seq<(Seq<char>, TypeV)>,
) -> Seq<FieldInfoV>
    decreases cs.len(),
{
    if cs.len() == 0 {
        fs
    } else {
        field_constrained(fields_constrained(fs, cs.drop_last()), cs.last().0, cs.last().1)
    }
}

/// The variants with the constraints applied to each.
pub open spec fn variants_constrained(
    vs: Seq<VariantInfoV>,
    cs: Seq<(Seq<char>, TypeV)>,
) -> Seq<VariantInfoV> {
    Seq::new(vs.len(), |i: int| VariantInfoV { fields: fields_constrained(vs[i].fields, cs), ..vs[i] })
}

/// A type with the field constraints of its interfaces applied; a sum takes them into
/// every variant.
pub open spec fn type_constrained(
    t: TypeInfoV,
    types: Seq<(Seq<char>, TypeInfoV)>,
) -> TypeInfoV {
    let cs = field_constraints(types, t.interfaces);
    match t.kind {
        TypeKindV::Record { fields, methods } => TypeInfoV {
            kind: TypeKindV::Record { fields: fields_constrained(fields, cs), methods },
            ..t
        },
        TypeKindV::Sum { variants } => TypeInfoV {
            kind: TypeKindV::Sum { variants: variants_constrained(variants, cs) },
            ..t
        },
    }
}

/// All types with the field constraints of their interfaces applied.
pub open spec fn types_constrained(types: Seq<(Seq<char>, TypeInfoV)>) -> Seq<
    (Seq<char>, TypeInfoV),
> {
    Seq::new(types.len(), |i: int| (types[i].0, type_constrained(types[i].1, types)))
}

/// What an interface method fixes: parameter types by position, and the result type.
#[verifier::ext_equal]
pub ghost struct MethodConstraintV {
    pub name: Seq<char>,
    pub params: Seq<(int, TypeV)>,
    pub ret: Option<TypeV>,
}

/// The positions and types of the parameters whose type is known.
pub open spec fn concrete_params(ps: Seq<ParamInfoV>) -> Seq<(int, TypeV)>
    decreases ps.len(),
{
    if ps.len() == 0 {
        Seq::empty()
    } else {
        let rest = concrete_params(ps.drop_last());
        if concrete(ps.last().resolved_ty) {
            rest.push((ps.len() - 1, ps.last().resolved_ty->0))
        } else {
            rest
        }
    }
}

/// What a signature fixes.
pub open spec fn constraint_of(s: CallableSignatureV) -> MethodConstraintV {
    MethodConstraintV {
        name: s.name,
        params: concrete_params(s.params),
        ret: if concrete(s.ret_ty) {
            s.ret_ty
        } else {
            None
        },
    }
}

/// What each method fixes.
pub open spec fn constraints_of(ms: Seq<(Seq<char>, MethodInfoV)>) -> Seq<MethodConstraintV> {
    Seq::new(ms.len(), |i: int| constraint_of(ms[i].1.signature))
}

/// What the records among the named interfaces fix of their methods, in order.
pub open spec fn method_constraints(
    types: Seq<(Seq<char>, TypeInfoV)>,
    interfaces: Seq<Seq<char>>,
) -> Seq<MethodConstraintV>
    decreases interfaces.len(),
{
    if interfaces.len() == 0 {
        Seq::empty()
    } else {
        let rest = method_constraints(types, interfaces.drop_last());
        match lookup(types, interfaces.last()) {
            Some(t) => match t.kind {
                TypeKindV::Record { methods, .. } => rest + constraints_of(methods),
                TypeKindV::Sum { .. } => rest,
            },
            None => rest,
        }
    }
}

/// Whether a type is still open.
pub open spec fn is_open(t: Option<TypeV>) -> bool {
    t matches Some(t) ==> t is Unknown
}

/// The parameters after the positional constraints, in order.
pub open spec fn params_constrained(
    ps: Seq<ParamInfoV>,
    cs: Seq<(int, TypeV)>,
) -> Seq<ParamInfoV>
    decreases cs.len(),
{
    if cs.len() == 0 {
        ps
    } else {
        let done = params_constrained(ps, cs.drop_last());
        let (i, t) = cs.last();
        if 0 <= i < done.len() && is_open(done[i].resolved_ty) {
            done.update(i, ParamInfoV { resolved_ty: Some(t), ..done[i] })
        } else {
            done
        }
    }
}

/// A signature after a constraint: its open parameters and open result take the types.
pub open spec fn signature_constrained(
    s: CallableSignatureV,
    c: MethodConstraintV,
) -> CallableSignatureV {
    CallableSignatureV {
        params: params_constrained(s.params, c.params),
        ret_ty: if c.ret is Some && is_open(s.ret_ty) {
            c.ret
        } else {
            s.ret_ty
        },
        ..s
    }
}

/// The methods after one constraint.
pub open spec fn method_constrained(
    ms: Seq<(Seq<char>, MethodInfoV)>,
    c: MethodConstraintV,
) -> Seq<(Seq<char>, MethodInfoV)> {
    let p = first_pos(keys_of(ms), c.name);
    if 0 <= p < ms.len() {
        ms.update(
            p,
            (
                ms[p].0,
                MethodInfoV { signature: signature_constrained(ms[p].1.signature, c), ..ms[p].1 },
            ),
        )
    } else {
        ms
    }
}

/// The methods after all constraints, in order.
pub open spec fn methods_constrained(
    ms: Seq<(Seq<char>, MethodInfoV)>,
    cs: Seq<MethodConstraintV>,
) -> Seq<(Seq<char>, MethodInfoV)>
    decreases cs.len(),
{
    if cs.len() == 0 {
        ms
    } else {
        method_constrained(methods_constrained(ms, cs.drop_last()), cs.last())
    }
}

/// The variants with the method constraints applied to each.
pub open spec fn variants_method_constrained(
    vs: Seq<VariantInfoV>,
    cs: Seq<MethodConstraintV>,
) -> Seq<VariantInfoV> {
    Seq::new(
        vs.len(),
        |i: int| VariantInfoV { methods: methods_constrained(vs[i].methods, cs), ..vs[i] },
    )
}

/// A type with the method constraints of its interfaces applied.
pub open spec fn type_method_constrained(
    t: TypeInfoV,
    types: Seq<(Seq<char>, TypeInfoV)>,
) -> TypeInfoV {
    let cs = method_constraints(types, t.interfaces);
    match t.kind {
        TypeKindV::Record { fields, methods } => TypeInfoV {
            kind: TypeKindV::Record { fields, methods: methods_constrained(methods, cs) },
            ..t
        },
        TypeKindV::Sum { variants } => TypeInfoV {
            kind: TypeKindV::Sum { variants: variants_method_constrained(variants, cs) },
            ..t
        },
    }
}

/// All types with the method constraints of their interfaces applied.
pub open spec fn types_method_constrained(types: Seq<(Seq<char>, TypeInfoV)>) -> Seq<
    (Seq<char>, TypeInfoV),
> {
    Seq::new(types.len(), |i: int| (types[i].0, type_method_constrained(types[i].1, types)))
}

/// The models of named types.
spec fn pairs(v: Seq<(String, Type)>) -> Seq<(Seq<char>, TypeV)> {
    Seq::new(v.len(), |i: int| (v[i].0@, v[i].1@))
}

fn is_concrete(t: &Option<Type>) -> (r: bool)
    ensures
        r == concrete(opt_type(*t)),
{
    match t {
        Some(t) => !t.is_unknown(),
        None => false,
    }
}

fn collect_field_constraints(types: &Vec<(String, TypeInfo)>, interfaces: &Vec<String>) -> (r: Vec<
    (String, Type),
>)
    ensures
        pairs(r@) == field_constraints(named_type_infos_view(types@), texts(interfaces@)),
{
    let ghost ts = named_type_infos_view(types@);
    let ghost all = texts(interfaces@);
    let mut out: Vec<(String, Type)> = Vec::new();
    assert(pairs(out@) =~= Seq::empty());
    for i in 0..interfaces.len()
        invariant
            ts == named_type_infos_view(types@),
            all == texts(interfaces@),
            pairs(out@) == field_constraints(ts, all.take(i as int)),
    {
        proof {
            assert(all.take(i + 1).drop_last() =~= all.take(i as int));
            assert(all.take(i + 1).last() == interfaces[i as int]@);
            assert(names(types@) =~= keys_of(ts));
        }
        let p = find_key(types, interfaces[i].as_str());
        if p < types.len() {
            assert(ts[p as int].1 == types[p as int].1@);
            if let TypeKind::Record { fields, .. } = &types[p].1.kind {
                let ghost before = pairs(out@);
                let ghost fs = field_infos_view(fields@);
                assert(before =~= before + concrete_fields(fs.take(0)));
                for k in 0..fields.len()
                    invariant
                        fs == field_infos_view(fields@),
                        pairs(out@) == before + concrete_fields(fs.take(k as int)),
                {
                    proof {
                        assert(fs.take(k + 1).drop_last() =~= fs.take(k as int));
                        assert(fs.take(k + 1).last() == fields[k as int]@);
                    }
                    let f = &fields[k];
                    let ghost now = pairs(out@);
                    if is_concrete(&f.resolved_ty) {
                        if let Some(t) = &f.resolved_ty {
                            let c = clone_type(t);
                            out.push((f.name.clone(), c));
                            assert(pairs(out@) =~= now.push((f.name@, c@)));
                            assert(pairs(out@) =~= before + concrete_fields(fs.take(k + 1)));
                        }
                    }
                }
                assert(fs.take(fields.len() as int) =~= fs);
            }
        }
    }
    assert(all.take(interfaces.len() as int) =~= all);
    out
}

fn apply_field_constraints(fields: &mut Vec<FieldInfo>, constraints: &Vec<(String, Type)>)
    ensures
        field_infos_view(final(fields)@) == fields_constrained(
            field_infos_view(old(fields)@),
            pairs(constraints@),
        ),
{
    let ghost start = field_infos_view(fields@);
    let ghost all = pairs(constraints@);
    for i in 0..constraints.len()
        invariant
            all == pairs(constraints@),
            field_infos_view(fields@) == fields_constrained(start, all.take(i as int)),
    {
        proof {
            assert(all.take(i + 1).drop_last() =~= all.take(i as int));
        }
        let name = constraints[i].0.as_str();
        let ghost ns = field_names(field_infos_view(fields@));
        let mut p: usize = 0;
        while p < fields.len() && !str_eq(fields[p].name.as_str(), name)
            invariant
                p <= fields.len(),
                ns == field_names(field_infos_view(fields@)),
                forall|j: int| 0 <= j < p ==> ns[j] != name@,
            decreases fields.len() - p,
        {
            assert(ns[p as int] == fields[p as int].name@);
            p = p + 1;
        }
        proof {
            if p < fields.len() {
                assert(ns[p as int] == fields[p as int].name@);
            }
            first_pos_unique(ns, name@, p as int);
        }
        if p < fields.len() {
            let is_unknown = match &fields[p].resolved_ty {
                Some(t) => t.is_unknown(),
                None => false,
            };
            if is_unknown {
                let ghost before = field_infos_view(fields@);
                let t = clone_type(&constraints[i].1);
                fields[p].resolved_ty = Some(t);
                assert(field_infos_view(fields@) =~= before.update(
                    p as int,
                    FieldInfoV { resolved_ty: Some(t@), ..before[p as int] },
                ));
            }
        }
    }
    assert(all.take(constraints.len() as int) =~= all);
}

fn constrain_variants(variants: &mut Vec<VariantInfo>, constraints: &Vec<(String, Type)>)
    ensures
        variant_infos_view(final(variants)@) == variants_constrained(
            variant_infos_view(old(variants)@),
            pairs(constraints@),
        ),
{
    let ghost before = variant_infos_view(variants@);
    let ghost want = variants_constrained(before, pairs(constraints@));
    let n = variants.len();
    for i in 0..n
        invariant
            n == variants.len() == before.len(),
            want == variants_constrained(before, pairs(constraints@)),
            forall|j: int| i <= j < n ==> (#[trigger] variants[j])@ == before[j],
            forall|j: int| 0 <= j < i ==> (#[trigger] variants[j])@ == want[j],
    {
        assert(variants[i as int]@ == before[i as int]);
        apply_field_constraints(&mut variants[i].fields, constraints);
    }
    assert(variant_infos_view(variants@) =~= want);
}

fn propagate_interface_field_constraints(types: &mut Vec<(String, TypeInfo)>)
    ensures
        named_type_infos_view(final(types)@) == types_constrained(
            named_type_infos_view(old(types)@),
        ),
{
    let ghost before = named_type_infos_view(types@);
    let ghost want = types_constrained(before);
    let n = types.len();
    let mut constraints: Vec<Vec<(String, Type)>> = Vec::new();
    for i in 0..n
        invariant
            n == types.len() == before.len(),
            before == named_type_infos_view(types@),
            constraints.len() == i,
            forall|j: int|
                0 <= j < i ==> pairs((#[trigger] constraints[j])@) == field_constraints(
                    before,
                    before[j].1.interfaces,
                ),
    {
        let c = collect_field_constraints(types, &types[i].1.interfaces);
        constraints.push(c);
    }
    for i in 0..n
        invariant
            n == types.len() == before.len() == constraints.len(),
            want == types_constrained(before),
            forall|j: int|
                0 <= j < n ==> pairs((#[trigger] constraints[j])@) == field_constraints(
                    before,
                    before[j].1.interfaces,
                ),
            forall|j: int| i <= j < n ==> ((#[trigger] types[j]).0@, types[j].1@) == before[j],
            forall|j: int| 0 <= j < i ==> ((#[trigger] types[j]).0@, types[j].1@) == want[j],
    {
        assert((types[i as int].0@, types[i as int].1@) == before[i as int]);
        match &mut types[i].1.kind {
            TypeKind::Record { fields, .. } => apply_field_constraints(fields, &constraints[i]),
            TypeKind::Sum { variants } => constrain_variants(variants, &constraints[i]),
        }
    }
    assert(named_type_infos_view(types@) =~= want);
}

struct MethodConstraint {
    name: String,
    params: Vec<(usize, Type)>,
    ret: Option<Type>,
}

spec fn positions(v: Seq<(usize, Type)>) -> Seq<(int, TypeV)> {
    Seq::new(v.len(), |i: int| (v[i].0 as int, v[i].1@))
}

impl View for MethodConstraint {
    type V = MethodConstraintV;

    closed spec fn view(&self) -> MethodConstraintV {
        MethodConstraintV {
            name: self.name@,
            params: positions(self.params@),
            ret: opt_type(self.ret),
        }
    }
}

spec fn constraints_view(v: Seq<MethodConstraint>) -> Seq<MethodConstraintV> {
    Seq::new(v.len(), |i: int| v[i]@)
}

fn method_constraint(signature: &CallableSignature) -> (r: MethodConstraint)
    ensures
        r@ == constraint_of(signature@),
{
    let ghost all = param_infos_view(signature.params@);
    let mut params: Vec<(usize, Type)> = Vec::new();
    assert(positions(params@) =~= Seq::empty());
    for i in 0..signature.params.len()
        invariant
            all == param_infos_view(signature.params@),
            positions(params@) == concrete_params(all.take(i as int)),
    {
        proof {
            assert(all.take(i + 1).drop_last() =~= all.take(i as int));
            assert(all.take(i + 1).last() == signature.params[i as int]@);
        }
        let p = &signature.params[i];
        if is_concrete(&p.resolved_ty) {
            if let Some(t) = &p.resolved_ty {
                let ghost before = positions(params@);
                let c = clone_type(t);
                params.push((i, c));
                assert(positions(params@) =~= before.push((i as int, c@)));
            }
        }
    }
    assert(all.take(signature.params.len() as int) =~= all);
    let ret = if is_concrete(&signature.ret_ty) {
        crate::types::clone_opt_type(&signature.ret_ty)
    } else {
        None
    };
    MethodConstraint { name: signature.name.clone(), params, ret }
}

fn collect_method_constraints(types: &Vec<(String, TypeInfo)>, interfaces: &Vec<String>) -> (r: Vec<
    MethodConstraint,
>)
    ensures
        constraints_view(r@) == method_constraints(
            named_type_infos_view(types@),
            texts(interfaces@),
        ),
{
    let ghost ts = named_type_infos_view(types@);
    let ghost all = texts(interfaces@);
    let mut out: Vec<MethodConstraint> = Vec::new();
    assert(constraints_view(out@) =~= Seq::empty());
    for i in 0..interfaces.len()
        invariant
            ts == named_type_infos_view(types@),
            all == texts(interfaces@),
            constraints_view(out@) == method_constraints(ts, all.take(i as int)),
    {
        proof {
            assert(all.take(i + 1).drop_last() =~= all.take(i as int));
            assert(all.take(i + 1).last() == interfaces[i as int]@);
            assert(names(types@) =~= keys_of(ts));
        }
        let p = find_key(types, interfaces[i].as_str());
        if p < types.len() {
            assert(ts[p as int].1 == types[p as int].1@);
            if let TypeKind::Record { methods, .. } = &types[p].1.kind {
                let ghost before = constraints_view(out@);
                let ghost cs = constraints_of(named_method_infos_view(methods@));
                for k in 0..methods.len()
                    invariant
                        cs == constraints_of(named_method_infos_view(methods@)),
                        constraints_view(out@) == before + cs.take(k as int),
                {
                    let c = method_constraint(&methods[k].1.signature);
                    let ghost now = constraints_view(out@);
                    out.push(c);
                    assert(constraints_view(out@) =~= now.push(c@));
                    assert(constraints_view(out@) =~= before + cs.take(k + 1));
                }
                assert(cs.take(methods.len() as int) =~= cs);
            }
        }
    }
    assert(all.take(interfaces.len() as int) =~= all);
    out
}

fn still_open(t: &Option<Type>) -> (r: bool)
    ensures
        r == is_open(opt_type(*t)),
{
    match t {
        Some(t) => t.is_unknown(),
        None => true,
    }
}

fn constrain_signature(signature: &mut CallableSignature, constraint: &MethodConstraint)
    ensures
        final(signature)@ == signature_constrained(old(signature)@, constraint@),
{
    let ghost start = param_infos_view(signature.params@);
    let ghost all = positions(constraint.params@);
    for i in 0..constraint.params.len()
        invariant
            all == positions(constraint.params@),
            param_infos_view(signature.params@) == params_constrained(start, all.take(i as int)),
            signature.name == old(signature).name,
            signature.ret == old(signature).ret,
            signature.ret_ty == old(signature).ret_ty,
            signature.span == old(signature).span,
    {
        proof {
            assert(all.take(i + 1).drop_last() =~= all.take(i as int));
        }
        let idx = constraint.params[i].0;
        if idx < signature.params.len() && still_open(&signature.params[idx].resolved_ty) {
            let ghost before = param_infos_view(signature.params@);
            let t = clone_type(&constraint.params[i].1);
            signature.params[idx].resolved_ty = Some(t);
            assert(param_infos_view(signature.params@) =~= before.update(
                idx as int,
                ParamInfoV { resolved_ty: Some(t@), ..before[idx as int] },
            ));
        }
    }
    assert(all.take(constraint.params.len() as int) =~= all);
    if let Some(ret) = &constraint.ret {
        if still_open(&signature.ret_ty) {
            signature.ret_ty = Some(clone_type(ret));
        }
    }
}

fn apply_method_constraints(
    methods: &mut Vec<(String, MethodInfo)>,
    constraints: &Vec<MethodConstraint>,
)
    ensures
        named_method_infos_view(final(methods)@) == methods_constrained(
            named_method_infos_view(old(methods)@),
            constraints_view(constraints@),
        ),
{
    let ghost start = named_method_infos_view(methods@);
    let ghost all = constraints_view(constraints@);
    for i in 0..constraints.len()
        invariant
            all == constraints_view(constraints@),
            named_method_infos_view(methods@) == methods_constrained(start, all.take(i as int)),
    {
        proof {
            assert(all.take(i + 1).drop_last() =~= all.take(i as int));
        }
        let ghost before = named_method_infos_view(methods@);
        let p = find_key(methods, constraints[i].name.as_str());
        assert(names(methods@) =~= keys_of(before));
        if p < methods.len() {
            constrain_signature(&mut methods[p].1.signature, &constraints[i]);
            assert(named_method_infos_view(methods@) =~= method_constrained(
                before,
                constraints[i as int]@,
            ));
        }
    }
    assert(all.take(constraints.len() as int) =~= all);
}

fn constrain_variant_methods(variants: &mut Vec<VariantInfo>, constraints: &Vec<MethodConstraint>)
    ensures
        variant_infos_view(final(variants)@) == variants_method_constrained(
            variant_infos_view(old(variants)@),
            constraints_view(constraints@),
        ),
{
    let ghost before = variant_infos_view(variants@);
    let ghost want = variants_method_constrained(before, constraints_view(constraints@));
    let n = variants.len();
    for i in 0..n
        invariant
            n == variants.len() == before.len(),
            want == variants_method_constrained(before, constraints_view(constraints@)),
            forall|j: int| i <= j < n ==> (#[trigger] variants[j])@ == before[j],
            forall|j: int| 0 <= j < i ==> (#[trigger] variants[j])@ == want[j],
    {
        assert(variants[i as int]@ == before[i as int]);
        apply_method_constraints(&mut variants[i].methods, constraints);
    }
    assert(variant_infos_view(variants@) =~= want);
}

fn propagate_interface_method_constraints(types: &mut Vec<(String, TypeInfo)>)
    ensures
        named_type_infos_view(final(types)@) == types_method_constrained(
            named_type_infos_view(old(types)@),
        ),
{
    let ghost before = named_type_infos_view(types@);
    let ghost want = types_method_constrained(before);
    let n = types.len();
    let mut constraints: Vec<Vec<MethodConstraint>> = Vec::new();
    for i in 0..n
        invariant
            n == types.len() == before.len(),
            before == named_type_infos_view(types@),
            constraints.len() == i,
            forall|j: int|
                0 <= j < i ==> constraints_view((#[trigger] constraints[j])@)
                    == method_constraints(before, before[j].1.interfaces),
    {
        let c = collect_method_constraints(types, &types[i].1.interfaces);
        constraints.push(c);
    }
    for i in 0..n
        invariant
            n == types.len() == before.len() == constraints.len(),
            want == types_method_constrained(before),
            forall|j: int|
                0 <= j < n ==> constraints_view((#[trigger] constraints[j])@)
                    == method_constraints(before, before[j].1.interfaces),
            forall|j: int| i <= j < n ==> ((#[trigger] types[j]).0@, types[j].1@) == before[j],
            forall|j: int| 0 <= j < i ==> ((#[trigger] types[j]).0@, types[j].1@) == want[j],
    {
        assert((types[i as int].0@, types[i as int].1@) == before[i as int]);
        match &mut types[i].1.kind {
            TypeKind::Record { methods, .. } => apply_method_constraints(
                methods,
                &constraints[i],
            ),
            TypeKind::Sum { variants } => constrain_variant_methods(variants, &constraints[i]),
        }
    }
    assert(named_type_infos_view(types@) =~= want);
}

/// A constraint never overwrites a known type: fields that are resolved stay as they
/// are, and no field is added, dropped or renamed.
pub proof fn constraints_keep_known(fs: Seq<FieldInfoV>, cs: Seq<(Seq<char>, TypeV)>, i: int)
    requires
        0 <= i < fs.len(),
    ensures
        fields_constrained(fs, cs).len() == fs.len(),
        fields_constrained(fs, cs)[i].name == fs[i].name,
        concrete(fs[i].resolved_ty) ==> fields_constrained(fs, cs)[i] == fs[i],
    decreases cs.len(),
{
    if cs.len() > 0 {
        constraints_keep_known(fs, cs.drop_last(), i);
        let done = fields_constrained(fs, cs.drop_last());
        first_pos_facts(field_names(done), cs.last().0);
    }
}

// ---- whole programs ----

/// What each type symbol of a program denotes.
pub open spec fn nominals_of(types: Seq<(Seq<char>, TypeInfoV)>) -> Seq<
    (Seq<char>, NominalInfo),
> {
    Seq::new(
        types.len(),
        |i: int|
            (
                types[i].0,
                NominalInfo {
                    id: types[i].1.id,
                    kind: if types[i].1.kind is Record {
                        NominalKind::Record
                    } else {
                        NominalKind::Sum
                    },
                },
            ),
    )
}

/// A program with all annotations resolved and the constraints of interfaces applied,
/// the next free variable, and the errors in its type declarations.
pub open spec fn program_annotated(p: ProgramV, aliases: Seq<AliasDeclV>) -> (
    ProgramV,
    nat,
    Seq<LowerErrorV>,
) {
    let nominals = nominals_of(p.types);
    let d = decls_resolved(p, nominals, aliases, 0);
    let (ts, n1) = threaded(d.types, type_step(nominals, p.import_origins), d.next);
    let (fs, n2) = threaded(p.functions, function_step(nominals, p.import_origins), n1);
    (
        ProgramV {
            types: types_method_constrained(types_constrained(ts)),
            functions: fs,
            type_aliases: d.aliases,
            ..p
        },
        n2,
        d.errors,
    )
}

fn nominal_table(types: &Vec<(String, TypeInfo)>) -> (r: Vec<(String, NominalInfo)>)
    ensures
        nominals_view(r@) == nominals_of(named_type_infos_view(types@)),
{
    let ghost want = nominals_of(named_type_infos_view(types@));
    let mut out: Vec<(String, NominalInfo)> = Vec::new();
    for i in 0..types.len()
        invariant
            want == nominals_of(named_type_infos_view(types@)),
            out.len() == i,
            forall|j: int| 0 <= j < i ==> ((#[trigger] out[j]).0@, out[j].1) == want[j],
    {
        let info = match &types[i].1.kind {
            TypeKind::Record { .. } => NominalInfo::record(types[i].1.id),
            TypeKind::Sum { .. } => NominalInfo::sum(types[i].1.id),
        };
        out.push((types[i].0.clone(), info));
    }
    assert(nominals_view(out@) =~= want);
    out
}

/// Resolve every annotation of the program: the declarations of records first, then
/// the signatures of methods and functions and the fields of variants, then what
/// interfaces fix.
pub fn resolve_program_annotations(
    program: &mut Program,
    alias_decls: &Vec<AliasDecl>,
    errors: &mut Vec<LowerError>,
)
    requires
        program_annotated(old(program)@, alias_decls_view(alias_decls@)).1 <= u32::MAX,
    ensures
        final(program)@ == program_annotated(old(program)@, alias_decls_view(alias_decls@)).0,
        errors_view(final(errors)@) == errors_view(old(errors)@) + program_annotated(
            old(program)@,
            alias_decls_view(alias_decls@),
        ).2,
{
    let ghost p = program@;
    let ghost als = alias_decls_view(alias_decls@);
    let nominals = nominal_table(&program.types);
    let ghost noms = nominals_of(p.types);
    let ghost d = decls_resolved(p, noms, als, 0);
    let ghost ts = threaded(d.types, type_step(noms, p.import_origins), d.next);
    proof {
        type_step_grows(noms, p.import_origins);
        threaded_facts(d.types, type_step(noms, p.import_origins), d.next, 0);
        threaded_facts(p.functions, function_step(noms, p.import_origins), ts.1, 0);
    }
    let mut next_unknown: u32 = 0;
    resolve_type_decls(program, alias_decls, &nominals, &mut next_unknown, errors);
    annotate_types(
        &mut program.types,
        &nominals,
        &program.import_origins,
        &mut next_unknown,
    );
    annotate_functions(
        &mut program.functions,
        &nominals,
        &program.import_origins,
        &mut next_unknown,
    );
    propagate_interface_field_constraints(&mut program.types);
    propagate_interface_method_constraints(&mut program.types);
}

} // verus!
