//! Lowering: collect AST modules into the HIR `Program`, assigning runtime
//! type ids (Result is fixed at id 0) and variant tags, and gathering each
//! module's top-level statements for initialization.

use vstd::prelude::*;
use crate::annotate::{function_step, nominals_of, program_annotated, resolve_program_annotations, threaded, type_step, types_constrained};
use crate::ast::{clone_block, clone_stmt, imports_view, stmts_view, top_levels_view, import_names_view, Import, ImportNameV, ImportV, Stmt, StmtV, TopLevel, TopLevelV, clone_opt_string, clone_params, clone_type_expr, members_view, params_view, type_expr_view, FunDecl, FunDeclV, Method, MethodV, Param, ParamV, variants_view, Member, MemberV, TypeBody, TypeBodyV, TypeDecl, TypeDeclV, TypeExpr, TypeExprV, Variant, VariantV};
use crate::hir::{all_origins_view, all_renames_view, module_inits_view, module_names_view, named_type_aliases_view, origins_view, pairs_view, qualified, qualify, LoadedModule, LoadedModuleV, ModuleInit, ModuleInitV, Program, ProgramV, field_infos_view, function_signature, method_signature, named_fun_infos_view, named_type_infos_view, prim_view, FunInfo, FunInfoV, named_method_infos_view, slots_view, type_ids, type_with_id, variant_infos_view, CallableSignature, FieldInfo, FieldInfoV, MethodInfo, MethodInfoV, TypeInfo, TypeInfoV, TypeKind, TypeKindV, VariantInfo, VariantInfoV};
use crate::span::Span;
use crate::table::{distinct_keys, find_key, find_path, first_pos, first_pos_facts, first_pos_unique, has_key, keys_of, lookup, names, paths, put, put_new};
use crate::text::{cat3, cat5, cat7, clone_strings, str_eq, strings_eq, texts};
use crate::typedecl::{alias_decls_view, decls_resolved, AliasDecl, AliasDeclV};
use crate::types::{class_of_name, prim_method_symbol, NominalInfo, Type, RESULT_TYPE_ID};

verus! {

/// A collection error (such as a duplicate name).
#[derive(Debug, PartialEq)]
pub struct LowerError {
    pub message: String,
    pub span: Span,
}

/// The model of [`LowerError`].
#[verifier::ext_equal]
pub ghost struct LowerErrorV {
    pub message: Seq<char>,
    pub span: Span,
}

impl View for LowerError {
    type V = LowerErrorV;

    open spec fn view(&self) -> LowerErrorV {
        LowerErrorV { message: self.message@, span: self.span }
    }
}

/// The models of errors.
pub open spec fn errors_view(es: Seq<LowerError>) -> Seq<LowerErrorV> {
    Seq::new(es.len(), |i: int| es[i]@)
}

/// Append an error.
pub fn report(errors: &mut Vec<LowerError>, message: String, span: Span)
    ensures
        errors_view(final(errors)@) == errors_view(old(errors)@).push(
            LowerErrorV { message: message@, span },
        ),
{
    let ghost before = errors_view(errors@);
    let e = LowerError { message, span };
    errors.push(e);
    assert(errors_view(errors@) =~= before.push(e@));
}

// ---- members ----

/// What the members of a record or variant body declare.
#[verifier::ext_equal]
pub ghost struct MembersV {
    pub fields: Seq<FieldInfoV>,
    pub methods: Seq<(Seq<char>, MethodInfoV)>,
    pub slots: Seq<Seq<char>>,
    pub errors: Seq<LowerErrorV>,
}

/// Whether a field (or slot) of this name is among the members.
pub open spec fn declares_field(ms: Seq<MemberV>, name: Seq<char>) -> bool {
    exists|i: int| 0 <= i < ms.len() && (#[trigger] ms[i] matches MemberV::Field(f) && f.name == name)
}

/// Whether a method of this name is among the members.
pub open spec fn declares_method(ms: Seq<MemberV>, name: Seq<char>) -> bool {
    exists|i: int|
        0 <= i < ms.len() && (#[trigger] ms[i] matches MemberV::Method(m) && m.name == name)
}

/// The members sorted into value fields, methods and type slots; a repeated name
/// is an error and its member is dropped. A `slot: type` field is a type
/// parameter, not a value field.
pub open spec fn members_of(ms: Seq<MemberV>, owner: Seq<char>) -> MembersV
    decreases ms.len(),
{
    if ms.len() == 0 {
        MembersV {
            fields: Seq::empty(),
            methods: Seq::empty(),
            slots: Seq::empty(),
            errors: Seq::empty(),
        }
    } else {
        let rest = ms.drop_last();
        let s = members_of(rest, owner);
        match ms.last() {
            MemberV::Field(f) => {
                if declares_field(rest, f.name) {
                    MembersV {
                        errors: s.errors.push(
                            LowerErrorV {
                                message: "duplicate field `"@ + owner + "."@ + f.name + "`"@,
                                span: f.span,
                            },
                        ),
                        ..s
                    }
                } else if f.ty matches Some(t) && t is TypeSlot {
                    MembersV { slots: s.slots.push(f.name), ..s }
                } else {
                    MembersV {
                        fields: s.fields.push(
                            FieldInfoV { name: f.name, ty: f.ty, resolved_ty: None },
                        ),
                        ..s
                    }
                }
            },
            MemberV::Method(m) => {
                if declares_method(rest, m.name) {
                    MembersV {
                        errors: s.errors.push(
                            LowerErrorV {
                                message: "duplicate method `"@ + owner + "."@ + m.name + "`"@,
                                span: m.span,
                            },
                        ),
                        ..s
                    }
                } else {
                    MembersV {
                        methods: s.methods.push(
                            (m.name, MethodInfoV { signature: method_signature(m), decl: m }),
                        ),
                        ..s
                    }
                }
            },
        }
    }
}

/// Whether one of the first `n` members is a field of this name.
fn field_seen(ms: &Vec<Member>, n: usize, name: &str) -> (r: bool)
    requires
        n <= ms.len(),
    ensures
        r == declares_field(members_view(ms@).take(n as int), name@),
{
    let ghost all = members_view(ms@).take(n as int);
    for i in 0..n
        invariant
            n <= ms.len(),
            all == members_view(ms@).take(n as int),
            forall|j: int| 0 <= j < i ==> !(#[trigger] all[j] matches MemberV::Field(f) && f.name == name@),
    {
        assert(all[i as int] == ms[i as int]@);
        match &ms[i] {
            Member::Field(f) => {
                if str_eq(f.name.as_str(), name) {
                    assert(all[i as int] matches MemberV::Field(f) && f.name == name@);
                    return true;
                }
            },
            Member::Method(_) => {},
        }
    }
    false
}

/// Whether one of the first `n` members is a method of this name.
fn method_seen(ms: &Vec<Member>, n: usize, name: &str) -> (r: bool)
    requires
        n <= ms.len(),
    ensures
        r == declares_method(members_view(ms@).take(n as int), name@),
{
    let ghost all = members_view(ms@).take(n as int);
    for i in 0..n
        invariant
            n <= ms.len(),
            all == members_view(ms@).take(n as int),
            forall|j: int|
                0 <= j < i ==> !(#[trigger] all[j] matches MemberV::Method(m) && m.name == name@),
    {
        assert(all[i as int] == ms[i as int]@);
        match &ms[i] {
            Member::Method(m) => {
                if str_eq(m.name.as_str(), name) {
                    assert(all[i as int] matches MemberV::Method(m) && m.name == name@);
                    return true;
                }
            },
            Member::Field(_) => {},
        }
    }
    false
}

#[verifier::rlimit(50)]
fn split_members(members: &Vec<Member>, owner: &str, errors: &mut Vec<LowerError>) -> (r: (
    Vec<FieldInfo>,
    Vec<(String, MethodInfo)>,
    Vec<String>,
))
    ensures
        ({
            let s = members_of(members_view(members@), owner@);
            &&& field_infos_view(r.0@) == s.fields
            &&& named_method_infos_view(r.1@) == s.methods
            &&& texts(r.2@) == s.slots
            &&& errors_view(final(errors)@) == errors_view(old(errors)@) + s.errors
        }),
{
    let mut fields: Vec<FieldInfo> = Vec::new();
    let mut methods: Vec<(String, MethodInfo)> = Vec::new();
    let mut slots: Vec<String> = Vec::new();
    let ghost all = members_view(members@);
    let ghost before = errors_view(errors@);
    proof {
        let s = members_of(all.take(0), owner@);
        assert(field_infos_view(fields@) =~= s.fields);
        assert(named_method_infos_view(methods@) =~= s.methods);
        assert(texts(slots@) =~= s.slots);
        assert(errors_view(errors@) =~= before + s.errors);
    }
    for i in 0..members.len()
        invariant
            all == members_view(members@),
            ({
                let s = members_of(all.take(i as int), owner@);
                &&& field_infos_view(fields@) == s.fields
                &&& named_method_infos_view(methods@) == s.methods
                &&& texts(slots@) == s.slots
                &&& errors_view(errors@) == before + s.errors
            }),
    {
        let ghost s0 = members_of(all.take(i as int), owner@);
        let ghost s1 = members_of(all.take(i + 1), owner@);
        proof {
            assert(all.take(i + 1).drop_last() =~= all.take(i as int));
            assert(all.take(i + 1).last() == members[i as int]@);
        }
        match &members[i] {
            Member::Field(f) => {
                if field_seen(members, i, f.name.as_str()) {
                    report(
                        errors,
                        cat5("duplicate field `", owner, ".", f.name.as_str(), "`"),
                        f.span,
                    );
                    assert(errors_view(errors@) =~= before + s1.errors);
                } else if matches!(f.ty, Some(TypeExpr::TypeSlot(_))) {
                    slots.push(f.name.clone());
                    assert(texts(slots@) =~= s1.slots);
                } else {
                    let info = FieldInfo {
                        name: f.name.clone(),
                        ty: match &f.ty {
                            Some(t) => Some(clone_type_expr(t)),
                            None => None,
                        },
                        resolved_ty: None,
                    };
                    fields.push(info);
                    assert(field_infos_view(fields@) =~= s0.fields.push(info@));
                }
            },
            Member::Method(m) => {
                if method_seen(members, i, m.name.as_str()) {
                    report(
                        errors,
                        cat5("duplicate method `", owner, ".", m.name.as_str(), "`"),
                        m.span,
                    );
                    assert(errors_view(errors@) =~= before + s1.errors);
                } else {
                    let info = MethodInfo {
                        signature: CallableSignature::from_method(m),
                        decl: m.clone(),
                    };
                    methods.push((m.name.clone(), info));
                    assert(named_method_infos_view(methods@) =~= s0.methods.push(
                        (m.name@, info@),
                    ));
                }
            },
        }
    }
    assert(all.take(members.len() as int) =~= all);
    (fields, methods, slots)
}

/// Field, slot and method names are unique within one body.
pub proof fn member_names_distinct(ms: Seq<MemberV>, owner: Seq<char>)
    ensures
        ({
            let s = members_of(ms, owner);
            &&& forall|i: int, j: int|
                0 <= i < j < s.fields.len() ==> (#[trigger] s.fields[i]).name != (
                #[trigger] s.fields[j]).name
            &&& forall|i: int, j: int|
                0 <= i < j < s.methods.len() ==> (#[trigger] s.methods[i]).0 != (
                #[trigger] s.methods[j]).0
            &&& forall|i: int| 0 <= i < s.fields.len() ==> declares_field(ms, (#[trigger] s.fields[i]).name)
            &&& forall|i: int| 0 <= i < s.methods.len() ==> declares_method(ms, (#[trigger] s.methods[i]).0)
        }),
    decreases ms.len(),
{
    if ms.len() > 0 {
        let rest = ms.drop_last();
        member_names_distinct(rest, owner);
        let s = members_of(ms, owner);
        let s0 = members_of(rest, owner);
        assert forall|name: Seq<char>| declares_field(rest, name) implies declares_field(
            ms,
            name,
        ) by {
            let i = choose|i: int|
                0 <= i < rest.len() && (#[trigger] rest[i] matches MemberV::Field(f) && f.name
                    == name);
            assert(ms[i] == rest[i]);
        }
        assert forall|name: Seq<char>| declares_method(rest, name) implies declares_method(
            ms,
            name,
        ) by {
            let i = choose|i: int|
                0 <= i < rest.len() && (#[trigger] rest[i] matches MemberV::Method(m) && m.name
                    == name);
            assert(ms[i] == rest[i]);
        }
        let last = ms[ms.len() - 1];
        assert(last == ms.last());
        assert forall|i: int| 0 <= i < s.fields.len() implies declares_field(
            ms,
            (#[trigger] s.fields[i]).name,
        ) by {
            if i < s0.fields.len() {
                assert(s.fields[i] == s0.fields[i]);
            }
        }
        assert forall|i: int| 0 <= i < s.methods.len() implies declares_method(
            ms,
            (#[trigger] s.methods[i]).0,
        ) by {
            if i < s0.methods.len() {
                assert(s.methods[i] == s0.methods[i]);
            }
        }
    }
}

// ---- type declarations ----

/// The variants of a sum body with what they declare, and the errors in them.
pub open spec fn variants_of(vs: Seq<VariantV>, owner_type: Seq<char>) -> (
    Seq<VariantInfoV>,
    Seq<LowerErrorV>,
)
    decreases vs.len(),
{
    if vs.len() == 0 {
        (Seq::empty(), Seq::empty())
    } else {
        let rest = vs.drop_last();
        let (done, errors) = variants_of(rest, owner_type);
        let v = vs.last();
        let owner = owner_type + "."@ + v.name;
        let m = members_of(v.members, owner);
        let duplicate = if exists|i: int| 0 <= i < rest.len() && (#[trigger] rest[i]).name == v.name {
            seq![
                LowerErrorV {
                    message: "duplicate variant `"@ + owner_type + "."@ + v.name + "`"@,
                    span: v.span,
                },
            ]
        } else {
            Seq::empty()
        };
        let slotted = if m.slots.len() > 0 {
            seq![
                LowerErrorV {
                    message: "a sum variant `"@ + owner + "` cannot declare a `type` slot"@,
                    span: v.span,
                },
            ]
        } else {
            Seq::empty()
        };
        (
            done.push(
                VariantInfoV {
                    name: v.name,
                    tag: rest.len() as usize as i32,
                    fields: m.fields,
                    methods: m.methods,
                },
            ),
            errors + duplicate + m.errors + slotted,
        )
    }
}

/// The slots of a record, their variables not yet assigned.
pub open spec fn open_slots(names: Seq<Seq<char>>) -> Seq<(Seq<char>, u32)> {
    Seq::new(names.len(), |i: int| (names[i], 0u32))
}

/// The members, slots and errors of a record or sum body.
pub open spec fn kind_of(b: TypeBodyV, name: Seq<char>) -> (
    TypeKindV,
    Seq<(Seq<char>, u32)>,
    Seq<LowerErrorV>,
) {
    match b {
        TypeBodyV::Record(ms) => {
            let m = members_of(ms, name);
            (
                TypeKindV::Record { fields: m.fields, methods: m.methods },
                open_slots(m.slots),
                m.errors,
            )
        },
        TypeBodyV::Sum(vs) => {
            let (variants, errors) = variants_of(vs, name);
            (TypeKindV::Sum { variants }, Seq::empty(), errors)
        },
        TypeBodyV::Alias(_) => (
            TypeKindV::Sum { variants: Seq::empty() },
            Seq::empty(),
            Seq::empty(),
        ),
    }
}

/// The type entry of a declaration.
pub open spec fn type_info_of(
    td: TypeDeclV,
    id: i32,
    module: Seq<Seq<char>>,
    symbol: Seq<char>,
) -> TypeInfoV {
    TypeInfoV {
        name: td.name,
        id,
        interfaces: td.interfaces,
        kind: kind_of(td.body, td.name).0,
        module,
        span: td.span,
        symbol,
        slots: kind_of(td.body, td.name).1,
        doc: td.doc,
    }
}

fn sum_variants(variants: &Vec<Variant>, owner_type: &str, errors: &mut Vec<LowerError>) -> (r: Vec<
    VariantInfo,
>)
    ensures
        variant_infos_view(r@) == variants_of(variants_view(variants@), owner_type@).0,
        errors_view(final(errors)@) == errors_view(old(errors)@) + variants_of(
            variants_view(variants@),
            owner_type@,
        ).1,
{
    let mut out: Vec<VariantInfo> = Vec::new();
    let ghost all = variants_view(variants@);
    let ghost before = errors_view(errors@);
    proof {
        assert(variant_infos_view(out@) =~= variants_of(all.take(0), owner_type@).0);
        assert(errors_view(errors@) =~= before + variants_of(all.take(0), owner_type@).1);
    }
    for i in 0..variants.len()
        invariant
            all == variants_view(variants@),
            variant_infos_view(out@) == variants_of(all.take(i as int), owner_type@).0,
            errors_view(errors@) == before + variants_of(all.take(i as int), owner_type@).1,
    {
        let v = &variants[i];
        let ghost rest = all.take(i as int);
        let ghost e0 = errors_view(errors@);
        proof {
            assert(all.take(i + 1).drop_last() =~= rest);
            assert(all.take(i + 1).last() == v@);
        }
        let mut repeated = false;
        for k in 0..i
            invariant
                i < variants.len(),
                all == variants_view(variants@),
                rest == all.take(i as int),
                v == variants[i as int],
                repeated == exists|j: int| 0 <= j < k && (#[trigger] rest[j]).name == v@.name,
        {
            assert(rest[k as int] == variants[k as int]@);
            if variants[k].name == v.name {
                repeated = true;
            }
        }
        if repeated {
            report(
                errors,
                cat5("duplicate variant `", owner_type, ".", v.name.as_str(), "`"),
                v.span,
            );
        }
        let ghost e1 = errors_view(errors@);
        let owner = cat3(owner_type, ".", v.name.as_str());
        let (fields, methods, slots) = split_members(&v.members, owner.as_str(), errors);
        let ghost e2 = errors_view(errors@);
        if slots.len() > 0 {
            report(
                errors,
                cat3("a sum variant `", owner.as_str(), "` cannot declare a `type` slot"),
                v.span,
            );
        }
        let info = VariantInfo { name: v.name.clone(), tag: i as i32, fields, methods };
        let ghost done = variant_infos_view(out@);
        out.push(info);
        proof {
            assert(variant_infos_view(out@) =~= done.push(info@));
            assert(texts(slots@).len() == slots.len());
            assert(errors_view(errors@) =~= before + variants_of(all.take(i + 1), owner_type@).1);
        }
    }
    assert(all.take(variants.len() as int) =~= all);
    out
}

/// The type entry of a record or sum declaration (an alias declares none).
fn type_info(
    td: &TypeDecl,
    id: i32,
    module: &Vec<String>,
    symbol: String,
    errors: &mut Vec<LowerError>,
) -> (r: TypeInfo)
    requires
        !(td@.body is Alias),
    ensures
        r@ == type_info_of(td@, id, texts(module@), symbol@),
        errors_view(final(errors)@) == errors_view(old(errors)@) + kind_of(td@.body, td@.name).2,
{
    let mut slots: Vec<(String, u32)> = Vec::new();
    let kind = match &td.body {
        TypeBody::Record(members) => {
            let (fields, methods, slot_names) = split_members(members, td.name.as_str(), errors);
            for i in 0..slot_names.len()
                invariant
                    slots_view(slots@) == open_slots(texts(slot_names@).take(i as int)),
            {
                let ghost before = slots_view(slots@);
                slots.push((slot_names[i].clone(), 0));
                let ghost s = slot_names[i as int]@;
                assert(slots_view(slots@) =~= before.push((s, 0u32)));
                assert(open_slots(texts(slot_names@).take(i + 1)) =~= before.push((s, 0u32)));
            }
            assert(texts(slot_names@).take(slot_names.len() as int) =~= texts(slot_names@));
            TypeKind::Record { fields, methods }
        },
        TypeBody::Sum(variants) => {
            assert(slots_view(slots@) =~= Seq::empty());
            TypeKind::Sum { variants: sum_variants(variants, td.name.as_str(), errors) }
        },
        TypeBody::Alias(_) => TypeKind::Sum { variants: Vec::new() },
    };
    TypeInfo {
        name: td.name.clone(),
        id,
        interfaces: clone_strings(&td.interfaces),
        kind,
        module: clone_strings(module),
        span: td.span,
        symbol,
        slots,
        doc: clone_opt_string(&td.doc),
    }
}

// ---- the built-in Result ----

/// A payload variant of the built-in `Result`.
pub open spec fn payload_variant(name: Seq<char>, tag: i32, field: Seq<char>) -> VariantInfoV {
    VariantInfoV {
        name,
        tag,
        fields: seq![FieldInfoV { name: field, ty: None, resolved_ty: None }],
        methods: Seq::empty(),
    }
}

/// The built-in `Result = Ok { value } | Err { error }`.
pub open spec fn result_info() -> TypeInfoV {
    TypeInfoV {
        name: "Result"@,
        id: RESULT_TYPE_ID,
        interfaces: Seq::empty(),
        kind: TypeKindV::Sum {
            variants: seq![
                payload_variant("Ok"@, 0, "value"@),
                payload_variant("Err"@, 1, "error"@),
            ],
        },
        module: Seq::empty(),
        span: Span { lo: 0, hi: 0 },
        symbol: "Result"@,
        slots: Seq::empty(),
        doc: None,
    }
}

fn result_variant(name: &str, tag: i32, field: &str) -> (r: VariantInfo)
    ensures
        r@ == payload_variant(name@, tag, field@),
{
    let f = FieldInfo { name: field.to_owned(), ty: None, resolved_ty: None };
    let fields = vec![f];
    let methods: Vec<(String, MethodInfo)> = Vec::new();
    assert(field_infos_view(fields@) =~= seq![f@]);
    assert(named_method_infos_view(methods@) =~= Seq::empty());
    VariantInfo { name: name.to_owned(), tag, fields, methods }
}

/// Built-in `Result = Ok { value } | Err { error }`.
fn result_type() -> (r: TypeInfo)
    ensures
        r@ == result_info(),
{
    let ok = result_variant("Ok", 0, "value");
    let err = result_variant("Err", 1, "error");
    let variants = vec![ok, err];
    let interfaces: Vec<String> = Vec::new();
    let module: Vec<String> = Vec::new();
    let slots: Vec<(String, u32)> = Vec::new();
    proof {
        assert(variant_infos_view(variants@) =~= seq![ok@, err@]);
        assert(texts(interfaces@) =~= Seq::empty());
        assert(texts(module@) =~= Seq::empty());
        assert(slots_view(slots@) =~= Seq::empty());
    }
    TypeInfo {
        name: "Result".to_owned(),
        id: RESULT_TYPE_ID,
        interfaces,
        kind: TypeKind::Sum { variants },
        module,
        span: Span::new(0, 0),
        symbol: "Result".to_owned(),
        slots,
        doc: None,
    }
}

// ---- method implementations ----

/// A method table with an implementation put in, and the error if the name is
/// taken: an existing method of the same name with a body is a duplicate; a
/// body-less signature (an interface requirement the type restated) is filled in.
pub open spec fn method_added(
    methods: Seq<(Seq<char>, MethodInfoV)>,
    owner_type: Seq<char>,
    m: MethodV,
) -> (Seq<(Seq<char>, MethodInfoV)>, Seq<LowerErrorV>) {
    if lookup(methods, m.name) matches Some(old_one) && old_one.decl.body is Some {
        (
            methods,
            seq![
                LowerErrorV {
                    message: "duplicate method `"@ + owner_type + "."@ + m.name + "`"@,
                    span: m.span,
                },
            ],
        )
    } else {
        (
            put(methods, m.name, MethodInfoV { signature: method_signature(m), decl: m }),
            Seq::empty(),
        )
    }
}

/// The variants of a sum with the implementation put into each.
pub open spec fn variants_extended(
    vs: Seq<VariantInfoV>,
    owner_type: Seq<char>,
    m: MethodV,
) -> Seq<VariantInfoV> {
    Seq::new(
        vs.len(),
        |i: int| VariantInfoV { methods: method_added(vs[i].methods, owner_type, m).0, ..vs[i] },
    )
}

/// The duplicates found while putting the implementation into each variant.
pub open spec fn variants_clashes(
    vs: Seq<VariantInfoV>,
    owner_type: Seq<char>,
    m: MethodV,
) -> Seq<LowerErrorV>
    decreases vs.len(),
{
    if vs.len() == 0 {
        Seq::empty()
    } else {
        variants_clashes(vs.drop_last(), owner_type, m) + method_added(
            vs.last().methods,
            owner_type,
            m,
        ).1
    }
}

/// A type with an implementation put into its method table(s), and the errors. A
/// record type takes the method directly; a sum type takes it into every variant.
pub open spec fn type_extended(t: TypeInfoV, m: MethodV) -> (TypeInfoV, Seq<LowerErrorV>) {
    match t.kind {
        TypeKindV::Record { fields, methods } => {
            let (added, errors) = method_added(methods, t.name, m);
            (TypeInfoV { kind: TypeKindV::Record { fields, methods: added }, ..t }, errors)
        },
        TypeKindV::Sum { variants } => (
            TypeInfoV {
                kind: TypeKindV::Sum { variants: variants_extended(variants, t.name, m) },
                ..t
            },
            variants_clashes(variants, t.name, m),
        ),
    }
}

fn add_method(
    methods: &mut Vec<(String, MethodInfo)>,
    owner_type: &str,
    method: &Method,
    errors: &mut Vec<LowerError>,
)
    ensures
        named_method_infos_view(final(methods)@) == method_added(
            named_method_infos_view(old(methods)@),
            owner_type@,
            method@,
        ).0,
        errors_view(final(errors)@) == errors_view(old(errors)@) + method_added(
            named_method_infos_view(old(methods)@),
            owner_type@,
            method@,
        ).1,
{
    let ghost before = named_method_infos_view(methods@);
    let ghost e0 = errors_view(errors@);
    let i = find_key(methods, method.name.as_str());
    assert(names(methods@) =~= keys_of(before));
    let taken = if i < methods.len() {
        assert(before[i as int].1 == methods[i as int].1@);
        methods[i].1.decl.body.is_some()
    } else {
        false
    };
    if taken {
        report(
            errors,
            cat5("duplicate method `", owner_type, ".", method.name.as_str(), "`"),
            method.span,
        );
        assert(errors_view(errors@) =~= e0 + method_added(before, owner_type@, method@).1);
        return ;
    }
    let info = MethodInfo {
        signature: CallableSignature::from_method(method),
        decl: method.clone(),
    };
    if i < methods.len() {
        methods.set(i, (method.name.clone(), info));
    } else {
        methods.push((method.name.clone(), info));
    }
    assert(named_method_infos_view(methods@) =~= method_added(before, owner_type@, method@).0);
    assert(errors_view(errors@) =~= e0 + method_added(before, owner_type@, method@).1);
}

/// Insert `method` into `info`'s method table(s).
fn inject_nominal_method(info: &mut TypeInfo, method: &Method, errors: &mut Vec<LowerError>)
    ensures
        final(info)@ == type_extended(old(info)@, method@).0,
        errors_view(final(errors)@) == errors_view(old(errors)@) + type_extended(
            old(info)@,
            method@,
        ).1,
{
    let owner = info.name.clone();
    match &mut info.kind {
        TypeKind::Record { fields, methods } => {
            add_method(methods, owner.as_str(), method, errors);
        },
        TypeKind::Sum { variants } => {
            add_to_variants(variants, owner.as_str(), method, errors);
        },
    }
}

fn add_to_variants(
    variants: &mut Vec<VariantInfo>,
    owner_type: &str,
    method: &Method,
    errors: &mut Vec<LowerError>,
)
    ensures
        variant_infos_view(final(variants)@) == variants_extended(
            variant_infos_view(old(variants)@),
            owner_type@,
            method@,
        ),
        errors_view(final(errors)@) == errors_view(old(errors)@) + variants_clashes(
            variant_infos_view(old(variants)@),
            owner_type@,
            method@,
        ),
{
    let ghost before = variant_infos_view(variants@);
    let ghost e0 = errors_view(errors@);
    assert(errors_view(errors@) =~= e0 + variants_clashes(before.take(0), owner_type@, method@));
    let n = variants.len();
    for i in 0..n
        invariant
            n == variants.len() == before.len(),
            forall|j: int| i <= j < n ==> (#[trigger] variants[j])@ == before[j],
            forall|j: int|
                0 <= j < i ==> (#[trigger] variants[j])@ == variants_extended(
                    before,
                    owner_type@,
                    method@,
                )[j],
            errors_view(errors@) == e0 + variants_clashes(
                before.take(i as int),
                owner_type@,
                method@,
            ),
    {
        proof {
            assert(before.take(i + 1).drop_last() =~= before.take(i as int));
            assert(variants[i as int]@ == before[i as int]);
        }
        let ghost was = variants@;
        add_method(&mut variants[i].methods, owner_type, method, errors);
        proof {
            assert(errors_view(errors@) =~= e0 + variants_clashes(
                before.take(i + 1),
                owner_type@,
                method@,
            ));
        }
    }
    proof {
        assert(before.take(n as int) =~= before);
        assert(variant_infos_view(variants@) =~= variants_extended(before, owner_type@, method@));
    }
}

/// The tables that method implementations extend.
#[verifier::ext_equal]
pub ghost struct TablesV {
    pub types: Seq<(Seq<char>, TypeInfoV)>,
    pub functions: Seq<(Seq<char>, FunInfoV)>,
    pub primitive_methods: Seq<((Seq<char>, Seq<char>), Seq<char>)>,
    pub errors: Seq<LowerErrorV>,
}

impl TablesV {
    /// The same tables with one more error.
    pub open spec fn failed(self, message: Seq<char>, span: Span) -> TablesV {
        TablesV { errors: self.errors.push(LowerErrorV { message, span }), ..self }
    }
}

/// The type word of a method receiver and whether it is an array `T[]`, or why it
/// cannot be one.
pub open spec fn receiver_word(recv: TypeExprV) -> Result<(Seq<char>, bool), Seq<char>> {
    match recv {
        TypeExprV::Named(n, _) => Ok((n, false)),
        TypeExprV::Array(inner, None, _) => match *inner {
            TypeExprV::Named(n, _) => Ok((n, true)),
            _ => Err("method receiver array element must be a type name"@),
        },
        _ => Err("unsupported method receiver type"@),
    }
}

/// The parameters with a leading unannotated `self` annotated by the receiver type.
pub open spec fn self_annotated(params: Seq<ParamV>, recv: TypeExprV) -> Seq<ParamV> {
    if params.len() > 0 && params[0].name == "self"@ && params[0].ty is None {
        params.update(0, ParamV { ty: Some(recv), ..params[0] })
    } else {
        params
    }
}

/// Names and defining modules of the types of a table.
pub open spec fn type_homes(types: Seq<(Seq<char>, TypeInfoV)>) -> Seq<
    (Seq<char>, Seq<Seq<char>>),
> {
    Seq::new(types.len(), |i: int| (types[i].1.name, types[i].1.module))
}

/// The storage symbol of a primitive method.
pub open spec fn prim_symbol(class: Seq<char>, method: Seq<char>) -> Seq<char> {
    method + "@prim."@ + class
}

/// The tables after the implementation `f`, written in `module`, is attached to
/// its receiver type. A nominal type takes it into its own method table, and must
/// be declared in the same module; a primitive or array class takes it as a
/// function under a class-qualified symbol, and only from the standard library.
pub open spec fn implemented(s: TablesV, f: FunDeclV, module: Seq<Seq<char>>) -> TablesV {
    match f.recv {
        None => s,
        Some(recv) => match receiver_word(recv) {
            Err(message) => s.failed(message, f.span),
            Ok((word, array)) => match class_of_name(word, array) {
                Some(class) => {
                    if !(module.len() > 0 && module[0] == "std"@) {
                        s.failed(
                            "methods on the primitive type `"@ + word
                                + "` can only be defined in the standard library"@,
                            f.span,
                        )
                    } else if has_key(s.primitive_methods, (class, f.name)) {
                        s.failed("duplicate method `"@ + f.name + "` on `"@ + word + "`"@, f.span)
                    } else {
                        let decl = FunDeclV { params: self_annotated(f.params, recv), ..f };
                        let symbol = prim_symbol(class, f.name);
                        TablesV {
                            functions: put(
                                s.functions,
                                symbol,
                                FunInfoV {
                                    signature: function_signature(decl),
                                    decl,
                                    module,
                                    symbol,
                                },
                            ),
                            primitive_methods: s.primitive_methods.push(((class, f.name), symbol)),
                            ..s
                        }
                    }
                },
                None => {
                    let p = first_pos(type_homes(s.types), (word, module));
                    if 0 <= p < s.types.len() {
                        let m = MethodV {
                            name: f.name,
                            params: f.params,
                            ret: f.ret,
                            body: Some(f.body),
                            span: f.span,
                            doc: f.doc,
                        };
                        let (t, errors) = type_extended(s.types[p].1, m);
                        TablesV {
                            types: s.types.update(p, (s.types[p].0, t)),
                            errors: s.errors + errors,
                            ..s
                        }
                    } else if exists|i: int|
                        0 <= i < s.types.len() && (#[trigger] s.types[i]).1.name == word {
                        s.failed(
                            "method `"@ + f.name + "` on `"@ + word
                                + "` must be defined in the module that declares `"@ + word + "`"@,
                            f.span,
                        )
                    } else {
                        s.failed(
                            "unknown type `"@ + word + "` for method `"@ + f.name + "`"@,
                            f.span,
                        )
                    }
                },
            },
        },
    }
}

/// The tables after all implementations are attached, in order.
pub open spec fn all_implemented(
    s: TablesV,
    impls: Seq<(FunDeclV, Seq<Seq<char>>)>,
) -> TablesV
    decreases impls.len(),
{
    if impls.len() == 0 {
        s
    } else {
        implemented(all_implemented(s, impls.drop_last()), impls.last().0, impls.last().1)
    }
}

/// The models of method implementations.
pub open spec fn impls_view(v: Seq<(FunDecl, Vec<String>)>) -> Seq<(FunDeclV, Seq<Seq<char>>)> {
    Seq::new(v.len(), |i: int| (v[i].0@, texts(v[i].1@)))
}

/// The tables lowering fills, while it runs.
struct Tables {
    types: Vec<(String, TypeInfo)>,
    functions: Vec<(String, FunInfo)>,
    primitive_methods: Vec<((String, String), String)>,
    errors: Vec<LowerError>,
}

impl View for Tables {
    type V = TablesV;

    closed spec fn view(&self) -> TablesV {
        TablesV {
            types: named_type_infos_view(self.types@),
            functions: named_fun_infos_view(self.functions@),
            primitive_methods: prim_view(self.primitive_methods@),
            errors: errors_view(self.errors@),
        }
    }
}

impl Tables {
    fn fail(&mut self, message: String, span: Span)
        ensures
            final(self)@ == old(self)@.failed(message@, span),
    {
        report(&mut self.errors, message, span);
    }

    fn has_primitive(&self, class: &str, name: &str) -> (r: bool)
        ensures
            r == has_key(self@.primitive_methods, (class@, name@)),
    {
        let ghost ks = keys_of(self@.primitive_methods);
        for i in 0..self.primitive_methods.len()
            invariant
                ks == keys_of(self@.primitive_methods),
                ks.len() == self.primitive_methods.len(),
                forall|j: int| 0 <= j < i ==> ks[j] != (class@, name@),
        {
            let k = &self.primitive_methods[i].0;
            assert(ks[i as int] == (k.0@, k.1@));
            if str_eq(k.0.as_str(), class) && str_eq(k.1.as_str(), name) {
                proof {
                    first_pos_unique(ks, (class@, name@), i as int);
                }
                return true;
            }
        }
        proof {
            first_pos_unique(ks, (class@, name@), ks.len() as int);
        }
        false
    }

    /// Where the type of this name declared in `module` stands.
    fn home_of(&self, word: &str, module: &Vec<String>) -> (r: usize)
        ensures
            r == first_pos(type_homes(self@.types), (word@, texts(module@))),
            r <= self.types.len(),
    {
        let ghost hs = type_homes(self@.types);
        for i in 0..self.types.len()
            invariant
                hs == type_homes(self@.types),
                hs.len() == self.types.len(),
                forall|j: int| 0 <= j < i ==> hs[j] != (word@, texts(module@)),
        {
            let info = &self.types[i].1;
            assert(hs[i as int] == (info.name@, texts(info.module@)));
            if str_eq(info.name.as_str(), word) && strings_eq(
                info.module.as_slice(),
                module.as_slice(),
            ) {
                proof {
                    first_pos_unique(hs, (word@, texts(module@)), i as int);
                }
                return i;
            }
        }
        proof {
            first_pos_unique(hs, (word@, texts(module@)), hs.len() as int);
        }
        self.types.len()
    }

    fn has_type_called(&self, word: &str) -> (r: bool)
        ensures
            r == exists|i: int|
                0 <= i < self@.types.len() && (#[trigger] self@.types[i]).1.name == word@,
    {
        for i in 0..self.types.len()
            invariant
                forall|j: int| 0 <= j < i ==> (#[trigger] self@.types[j]).1.name != word@,
        {
            if str_eq(self.types[i].1.name.as_str(), word) {
                assert(self@.types[i as int].1.name == word@);
                return true;
            }
        }
        false
    }

    /// Store a function under `symbol`.
    fn put_function(&mut self, symbol: String, info: FunInfo)
        ensures
            final(self)@ == (TablesV {
                functions: put(old(self)@.functions, symbol@, info@),
                ..old(self)@
            }),
    {
        let ghost before = self@.functions;
        let i = find_key(&self.functions, symbol.as_str());
        assert(names(self.functions@) =~= keys_of(before));
        let ghost k = symbol@;
        let ghost v = info@;
        if i < self.functions.len() {
            self.functions.set(i, (symbol, info));
        } else {
            self.functions.push((symbol, info));
        }
        assert(named_fun_infos_view(self.functions@) =~= put(before, k, v));
    }

    /// Attach a method implementation to its primitive class.
    #[verifier::rlimit(50)]
    fn implement_primitive(
        &mut self,
        f: &FunDecl,
        recv: &TypeExpr,
        class: &str,
        module: &Vec<String>,
    )
        ensures
            ({
                let s = old(self)@;
                let decl = FunDeclV { params: self_annotated(f@.params, recv@), ..f@ };
                let symbol = prim_symbol(class@, f@.name);
                final(self)@ == (TablesV {
                    functions: put(
                        s.functions,
                        symbol,
                        FunInfoV {
                            signature: function_signature(decl),
                            decl,
                            module: texts(module@),
                            symbol,
                        },
                    ),
                    primitive_methods: s.primitive_methods.push(((class@, f@.name), symbol)),
                    ..s
                })
            }),
    {
        let mut params = clone_params(&f.params);
        let ghost declared = params_view(f.params@);
        let annotate = if params.len() > 0 {
            assert(params_view(params@)[0] == params[0]@);
            str_eq(params[0].name.as_str(), "self") && params[0].ty.is_none()
        } else {
            false
        };
        if annotate {
            let first = Param {
                name: params[0].name.clone(),
                ty: Some(clone_type_expr(recv)),
                span: params[0].span,
            };
            let ghost p0 = params_view(params@);
            params.set(0, first);
            assert(params_view(params@) =~= p0.update(0, first@));
        }
        assert(params_view(params@) == self_annotated(declared, recv@));
        let symbol = prim_method_symbol(class, f.name.as_str());
        let decl = FunDecl {
            name: f.name.clone(),
            recv: match &f.recv {
                Some(t) => Some(clone_type_expr(t)),
                None => None,
            },
            params,
            ret: match &f.ret {
                Some(t) => Some(clone_type_expr(t)),
                None => None,
            },
            body: clone_block(&f.body),
            span: f.span,
            doc: clone_opt_string(&f.doc),
        };
        assert(decl@ == (FunDeclV { params: self_annotated(f@.params, recv@), ..f@ }));
        let info = FunInfo {
            signature: CallableSignature::from_function(&decl),
            decl,
            module: clone_strings(module),
            symbol: symbol.clone(),
        };
        self.put_function(symbol.clone(), info);
        let ghost before = prim_view(self.primitive_methods@);
        self.primitive_methods.push(((class.to_owned(), f.name.clone()), symbol));
        assert(prim_view(self.primitive_methods@) =~= before.push(
            ((class@, f.name@), symbol@),
        ));
    }

    /// Attach one `fun T.m(...)` method implementation to its receiver type.
    #[verifier::rlimit(50)]
    fn implement(&mut self, f: &FunDecl, module: &Vec<String>)
        ensures
            final(self)@ == implemented(old(self)@, f@, texts(module@)),
    {
        proof {
            reveal_with_fuel(type_expr_view, 2);
        }
        let recv = match &f.recv {
            Some(t) => t,
            None => {
                return ;
            },
        };
        // Classify the receiver: an array `T[]`, a primitive scalar word, or a
        // nominal user type named in this module.
        let (word, array): (&str, bool) = match recv {
            TypeExpr::Named(n, _) => (n.as_str(), false),
            TypeExpr::Array(inner, None, _) => match &**inner {
                TypeExpr::Named(n, _) => (n.as_str(), true),
                _ => {
                    self.fail(
                        "method receiver array element must be a type name".to_owned(),
                        f.span,
                    );
                    return ;
                },
            },
            _ => {
                self.fail("unsupported method receiver type".to_owned(), f.span);
                return ;
            },
        };
        assert(receiver_word(recv@) == Ok::<(Seq<char>, bool), Seq<char>>((word@, array)));
        if let Some(class) = Type::primitive_class_of_name(word, array) {
            // Methods on primitive types are reserved to the standard library.
            let in_std = module.len() > 0 && str_eq(module[0].as_str(), "std");
            assert(module.len() > 0 ==> texts(module@)[0] == module[0]@);
            if !in_std {
                self.fail(
                    cat3(
                        "methods on the primitive type `",
                        word,
                        "` can only be defined in the standard library",
                    ),
                    f.span,
                );
                return ;
            }
            if self.has_primitive(class, f.name.as_str()) {
                self.fail(
                    cat5("duplicate method `", f.name.as_str(), "` on `", word, "`"),
                    f.span,
                );
                return ;
            }
            self.implement_primitive(f, recv, class, module);
            return ;
        }
        // Nominal receiver: find the type of this name declared in this module.
        let i = self.home_of(word, module);
        if i < self.types.len() {
            let method = Method {
                name: f.name.clone(),
                params: clone_params(&f.params),
                ret: match &f.ret {
                    Some(t) => Some(clone_type_expr(t)),
                    None => None,
                },
                body: Some(clone_block(&f.body)),
                span: f.span,
                doc: clone_opt_string(&f.doc),
            };
            let ghost before = self@;
            inject_nominal_method(&mut self.types[i].1, &method, &mut self.errors);
            assert(self@.types =~= implemented(before, f@, texts(module@)).types);
        } else if self.has_type_called(word) {
            self.fail(
                cat7(
                    "method `",
                    f.name.as_str(),
                    "` on `",
                    word,
                    "` must be defined in the module that declares `",
                    word,
                    "`",
                ),
                f.span,
            );
        } else {
            self.fail(
                cat5("unknown type `", word, "` for method `", f.name.as_str(), "`"),
                f.span,
            );
        }
    }
}

/// Attach each `fun T.m(...)` method implementation to its receiver type.
///
/// A method on a nominal user type is injected into that type's method table, so
/// it is indistinguishable downstream from a method that was written inside the
/// type body. A method on a primitive or array receiver is the standard library's
/// privilege only: its body is stored as an ordinary function under a
/// receiver-qualified symbol and recorded for dispatch.
fn inject_method_impls(tables: &mut Tables, impls: &Vec<(FunDecl, Vec<String>)>)
    ensures
        final(tables)@ == all_implemented(old(tables)@, impls_view(impls@)),
{
    let ghost start = tables@;
    let ghost all = impls_view(impls@);
    for i in 0..impls.len()
        invariant
            all == impls_view(impls@),
            tables@ == all_implemented(start, all.take(i as int)),
    {
        assert(all.take(i + 1).drop_last() =~= all.take(i as int));
        tables.implement(&impls[i].0, &impls[i].1);
    }
    assert(all.take(impls.len() as int) =~= all);
}

// ---- collecting modules ----

/// Whether a module declares a free function of this name.
pub open spec fn declares_function(m: LoadedModuleV, name: Seq<char>) -> bool {
    exists|i: int|
        0 <= i < m.ast.items.len() && (#[trigger] m.ast.items[i] matches TopLevelV::Fun(f) && f.recv is None
            && f.name == name)
}

/// Whether a module declares a type of this name.
pub open spec fn declares_type(m: LoadedModuleV, name: Seq<char>) -> bool {
    exists|i: int|
        0 <= i < m.ast.items.len() && (#[trigger] m.ast.items[i] matches TopLevelV::Type(t) && t.name
            == name)
}

/// Whether modules of two different paths declare a free function of this name.
pub open spec fn function_shared(ms: Seq<LoadedModuleV>, name: Seq<char>) -> bool {
    exists|i: int, j: int|
        0 <= i < ms.len() && 0 <= j < ms.len() && (#[trigger] ms[i]).path != (#[trigger] ms[j]).path
            && declares_function(ms[i], name) && declares_function(ms[j], name)
}

/// Whether modules of two different paths declare a type of this name.
pub open spec fn type_shared(ms: Seq<LoadedModuleV>, name: Seq<char>) -> bool {
    exists|i: int, j: int|
        0 <= i < ms.len() && 0 <= j < ms.len() && (#[trigger] ms[i]).path != (#[trigger] ms[j]).path
            && declares_type(ms[i], name) && declares_type(ms[j], name)
}

/// The unique storage symbol of a top-level name: its bare form when only one module
/// defines that name, or the qualified form when several do.
pub open spec fn symbol_for(shared: bool, name: Seq<char>, path: Seq<Seq<char>>) -> Seq<char> {
    if shared {
        qualified(name, path)
    } else {
        name
    }
}

/// What has been collected so far.
#[verifier::ext_equal]
pub ghost struct CollectedV {
    pub types: Seq<(Seq<char>, TypeInfoV)>,
    pub functions: Seq<(Seq<char>, FunInfoV)>,
    pub inits: Seq<ModuleInitV>,
    pub module_imports: Seq<(Seq<Seq<char>>, Seq<Seq<char>>)>,
    pub import_origins: Seq<(Seq<Seq<char>>, Seq<(Seq<char>, Seq<Seq<char>>)>)>,
    pub import_renames: Seq<(Seq<Seq<char>>, Seq<(Seq<char>, Seq<char>)>)>,
    pub module_aliases: Seq<(Seq<Seq<char>>, Seq<(Seq<char>, Seq<Seq<char>>)>)>,
    pub impls: Seq<(FunDeclV, Seq<Seq<char>>)>,
    pub aliases: Seq<AliasDeclV>,
    pub errors: Seq<LowerErrorV>,
    pub next_id: int,
}

/// The list stored for a path, or the empty list.
pub open spec fn entry_of<V>(table: Seq<(Seq<Seq<char>>, Seq<V>)>, path: Seq<Seq<char>>) -> Seq<V> {
    match lookup(table, path) {
        Some(v) => v,
        None => Seq::empty(),
    }
}

/// The local names imports bring into scope, in order.
pub open spec fn imported_names(imports: Seq<ImportV>) -> Seq<Seq<char>>
    decreases imports.len(),
{
    if imports.len() == 0 {
        Seq::empty()
    } else {
        imported_names(imports.drop_last()) + local_names(imports.last().names)
    }
}

/// The local names of an import.
pub open spec fn local_names(ns: Seq<ImportNameV>) -> Seq<Seq<char>> {
    Seq::new(ns.len(), |i: int| ns[i].local)
}

/// Origins with the names of one import added; the first origin of a name stays.
pub open spec fn names_originate(
    origins: Seq<(Seq<char>, Seq<Seq<char>>)>,
    names: Seq<ImportNameV>,
    path: Seq<Seq<char>>,
) -> Seq<(Seq<char>, Seq<Seq<char>>)>
    decreases names.len(),
{
    if names.len() == 0 {
        origins
    } else {
        put_new(names_originate(origins, names.drop_last(), path), names.last().local, path)
    }
}

/// Origins with the names of all imports added.
pub open spec fn imports_originate(
    origins: Seq<(Seq<char>, Seq<Seq<char>>)>,
    imports: Seq<ImportV>,
) -> Seq<(Seq<char>, Seq<Seq<char>>)>
    decreases imports.len(),
{
    if imports.len() == 0 {
        origins
    } else {
        names_originate(
            imports_originate(origins, imports.drop_last()),
            imports.last().names,
            imports.last().path,
        )
    }
}

/// Renames with the names of one import that are bound under another name added.
pub open spec fn names_renamed(
    renames: Seq<(Seq<char>, Seq<char>)>,
    names: Seq<ImportNameV>,
) -> Seq<(Seq<char>, Seq<char>)>
    decreases names.len(),
{
    if names.len() == 0 {
        renames
    } else {
        let rest = names_renamed(renames, names.drop_last());
        let n = names.last();
        if n.local != n.remote {
            put_new(rest, n.local, n.remote)
        } else {
            rest
        }
    }
}

/// Renames with the names of all imports added.
pub open spec fn imports_renamed(
    renames: Seq<(Seq<char>, Seq<char>)>,
    imports: Seq<ImportV>,
) -> Seq<(Seq<char>, Seq<char>)>
    decreases imports.len(),
{
    if imports.len() == 0 {
        renames
    } else {
        names_renamed(imports_renamed(renames, imports.drop_last()), imports.last().names)
    }
}

/// Module aliases with those of all imports added; the first meaning stays.
pub open spec fn imports_aliased(
    aliases: Seq<(Seq<char>, Seq<Seq<char>>)>,
    imports: Seq<ImportV>,
) -> Seq<(Seq<char>, Seq<Seq<char>>)>
    decreases imports.len(),
{
    if imports.len() == 0 {
        aliases
    } else {
        let rest = imports_aliased(aliases, imports.drop_last());
        match imports.last().alias {
            Some(a) => put_new(rest, a, imports.last().path),
            None => rest,
        }
    }
}

/// Whether an alias of this symbol is declared already.
pub open spec fn alias_taken(aliases: Seq<AliasDeclV>, symbol: Seq<char>) -> bool {
    exists|i: int| 0 <= i < aliases.len() && (#[trigger] aliases[i]).symbol == symbol
}

impl CollectedV {
    pub open spec fn failed(self, message: Seq<char>, span: Span) -> CollectedV {
        CollectedV { errors: self.errors.push(LowerErrorV { message, span }), ..self }
    }
}

/// What one top-level item adds: a type, a function, a deferred method implementation
/// or alias, or an error. A name defined twice in one module is a duplicate; `Result`
/// is built in and cannot be redefined. (Statements are gathered per module.)
pub open spec fn item_collected(
    c: CollectedV,
    all: Seq<LoadedModuleV>,
    path: Seq<Seq<char>>,
    item: TopLevelV,
) -> CollectedV {
    match item {
        TopLevelV::Type(td) => {
            let symbol = symbol_for(type_shared(all, td.name), td.name, path);
            if td.name == "Result"@ {
                c.failed("`Result` is built in and cannot be redefined"@, td.span)
            } else if has_key(c.types, symbol) || alias_taken(c.aliases, symbol) {
                c.failed("duplicate type `"@ + td.name + "`"@, td.span)
            } else if td.body is Alias {
                CollectedV {
                    aliases: c.aliases.push(AliasDeclV { symbol, module: path, decl: td }),
                    ..c
                }
            } else {
                CollectedV {
                    types: c.types.push((symbol, type_info_of(td, c.next_id as i32, path, symbol))),
                    errors: c.errors + kind_of(td.body, td.name).2,
                    next_id: c.next_id + 1,
                    ..c
                }
            }
        },
        TopLevelV::Fun(f) => if f.recv is Some {
            CollectedV { impls: c.impls.push((f, path)), ..c }
        } else {
            let symbol = symbol_for(function_shared(all, f.name), f.name, path);
            if has_key(c.functions, symbol) {
                c.failed("duplicate function `"@ + f.name + "`"@, f.span)
            } else {
                CollectedV {
                    functions: c.functions.push(
                        (
                            symbol,
                            FunInfoV {
                                signature: function_signature(f),
                                decl: f,
                                module: path,
                                symbol,
                            },
                        ),
                    ),
                    ..c
                }
            }
        },
        TopLevelV::Stmt(_) => c,
    }
}

/// What the items of a module add, in order.
pub open spec fn items_collected(
    c: CollectedV,
    all: Seq<LoadedModuleV>,
    path: Seq<Seq<char>>,
    items: Seq<TopLevelV>,
) -> CollectedV
    decreases items.len(),
{
    if items.len() == 0 {
        c
    } else {
        item_collected(
            items_collected(c, all, path, items.drop_last()),
            all,
            path,
            items.last(),
        )
    }
}

/// The statements among top-level items.
pub open spec fn top_stmts(items: Seq<TopLevelV>) -> Seq<StmtV>
    decreases items.len(),
{
    if items.len() == 0 {
        Seq::empty()
    } else {
        let rest = top_stmts(items.drop_last());
        match items.last() {
            TopLevelV::Stmt(s) => rest.push(s),
            _ => rest,
        }
    }
}

/// What the imports of a module add.
pub open spec fn imports_collected(c: CollectedV, m: LoadedModuleV) -> CollectedV {
    let imports = m.ast.imports;
    CollectedV {
        module_imports: put(
            c.module_imports,
            m.path,
            entry_of(c.module_imports, m.path) + imported_names(imports),
        ),
        import_origins: put(
            c.import_origins,
            m.path,
            imports_originate(entry_of(c.import_origins, m.path), imports),
        ),
        import_renames: put(
            c.import_renames,
            m.path,
            imports_renamed(entry_of(c.import_renames, m.path), imports),
        ),
        module_aliases: put(
            c.module_aliases,
            m.path,
            imports_aliased(entry_of(c.module_aliases, m.path), imports),
        ),
        ..c
    }
}

/// What one module adds.
pub open spec fn module_collected(
    c: CollectedV,
    all: Seq<LoadedModuleV>,
    m: LoadedModuleV,
) -> CollectedV {
    let c1 = items_collected(imports_collected(c, m), all, m.path, m.ast.items);
    CollectedV {
        inits: c1.inits.push(ModuleInitV { path: m.path, stmts: top_stmts(m.ast.items) }),
        ..c1
    }
}

/// Nothing but the built-in `Result`.
pub open spec fn nothing_collected() -> CollectedV {
    CollectedV {
        types: seq![("Result"@, result_info())],
        functions: Seq::empty(),
        inits: Seq::empty(),
        module_imports: Seq::empty(),
        import_origins: Seq::empty(),
        import_renames: Seq::empty(),
        module_aliases: Seq::empty(),
        impls: Seq::empty(),
        aliases: Seq::empty(),
        errors: Seq::empty(),
        next_id: 1,
    }
}

/// What the first modules add, in order.
pub open spec fn modules_collected(all: Seq<LoadedModuleV>, ms: Seq<LoadedModuleV>) -> CollectedV
    decreases ms.len(),
{
    if ms.len() == 0 {
        nothing_collected()
    } else {
        module_collected(modules_collected(all, ms.drop_last()), all, ms.last())
    }
}

/// The bare symbols of types, by what their module-qualified names would be.
pub open spec fn type_symbol_aliases(types: Seq<(Seq<char>, TypeInfoV)>) -> Seq<
    (Seq<char>, Seq<char>),
>
    decreases types.len(),
{
    if types.len() == 0 {
        Seq::empty()
    } else {
        let rest = type_symbol_aliases(types.drop_last());
        let (symbol, t) = types.last();
        let q = qualified(t.name, t.module);
        if symbol == t.name && t.module.len() > 0 && q != symbol {
            put(rest, q, symbol)
        } else {
            rest
        }
    }
}

/// The table extended by the bare symbols of functions.
pub open spec fn function_symbol_aliases(
    table: Seq<(Seq<char>, Seq<char>)>,
    functions: Seq<(Seq<char>, FunInfoV)>,
) -> Seq<(Seq<char>, Seq<char>)>
    decreases functions.len(),
{
    if functions.len() == 0 {
        table
    } else {
        let rest = function_symbol_aliases(table, functions.drop_last());
        let (symbol, f) = functions.last();
        let q = qualified(f.signature.name, f.module);
        if symbol == f.signature.name && f.module.len() > 0 && q != symbol {
            put(rest, q, symbol)
        } else {
            rest
        }
    }
}

/// The program before its annotations are resolved, with the errors so far.
pub open spec fn assembled(c: CollectedV) -> (ProgramV, Seq<LowerErrorV>) {
    let t = all_implemented(
        TablesV {
            types: c.types,
            functions: c.functions,
            primitive_methods: Seq::empty(),
            errors: c.errors,
        },
        c.impls,
    );
    (
        ProgramV {
            types: t.types,
            functions: t.functions,
            inits: c.inits,
            module_imports: c.module_imports,
            import_origins: c.import_origins,
            import_renames: c.import_renames,
            module_aliases: c.module_aliases,
            symbol_aliases: function_symbol_aliases(type_symbol_aliases(t.types), t.functions),
            primitive_methods: t.primitive_methods,
            type_aliases: Seq::empty(),
        },
        t.errors,
    )
}

/// The program that modules lower to, the number of inference variables it takes, and
/// the errors.
pub open spec fn lowered(ms: Seq<LoadedModuleV>) -> (ProgramV, nat, Seq<LowerErrorV>) {
    let c = modules_collected(ms, ms);
    let (p, errors) = assembled(c);
    let (q, n, more) = program_annotated(p, c.aliases);
    (q, n, errors + more)
}

// ---- the ids stay within bounds ----

proof fn items_ids(
    c: CollectedV,
    all: Seq<LoadedModuleV>,
    path: Seq<Seq<char>>,
    items: Seq<TopLevelV>,
    n: int,
)
    requires
        0 <= n <= items.len(),
    ensures
        c.next_id <= items_collected(c, all, path, items.take(n)).next_id,
        items_collected(c, all, path, items.take(n)).next_id <= items_collected(
            c,
            all,
            path,
            items,
        ).next_id,
    decreases items.len(),
{
    if items.len() > 0 {
        let rest = items.drop_last();
        if n == items.len() {
            assert(items.take(n) =~= items);
            assert(rest.take(n - 1) =~= rest);
            items_ids(c, all, path, rest, n - 1);
        } else {
            assert(rest.take(n) =~= items.take(n));
            items_ids(c, all, path, rest, n);
        }
    } else {
        assert(items.take(n) =~= items);
    }
}

proof fn modules_ids(all: Seq<LoadedModuleV>, ms: Seq<LoadedModuleV>, n: int)
    requires
        0 <= n <= ms.len(),
    ensures
        1 <= modules_collected(all, ms.take(n)).next_id,
        modules_collected(all, ms.take(n)).next_id <= modules_collected(all, ms).next_id,
    decreases ms.len(),
{
    if ms.len() > 0 {
        let rest = ms.drop_last();
        let c = imports_collected(modules_collected(all, rest), ms.last());
        let items = ms.last().ast.items;
        items_ids(c, all, ms.last().path, items, items.len() as int);
        assert(items.take(items.len() as int) =~= items);
        if n == ms.len() {
            assert(ms.take(n) =~= ms);
            assert(rest.take(n - 1) =~= rest);
            modules_ids(all, rest, n - 1);
        } else {
            assert(rest.take(n) =~= ms.take(n));
            modules_ids(all, rest, n);
        }
    } else {
        assert(ms.take(n) =~= ms);
    }
}

// ---- names shared between modules ----

// ---- types are told apart ----

/// Whether the types of a table are told apart: by their keys, and by their ids, each
/// of which is the type's place in the table.
pub open spec fn told_apart(ts: Seq<(Seq<char>, TypeInfoV)>) -> bool {
    &&& distinct_keys(ts)
    &&& forall|i: int| 0 <= i < ts.len() ==> (#[trigger] ts[i]).1.id == i
}

/// Whether two tables agree on keys and ids.
pub open spec fn same_places(a: Seq<(Seq<char>, TypeInfoV)>, b: Seq<(Seq<char>, TypeInfoV)>) -> bool {
    &&& a.len() == b.len()
    &&& forall|i: int|
        0 <= i < a.len() ==> (#[trigger] a[i]).0 == b[i].0 && a[i].1.id == b[i].1.id
}

proof fn same_places_told_apart(a: Seq<(Seq<char>, TypeInfoV)>, b: Seq<(Seq<char>, TypeInfoV)>)
    requires
        told_apart(a),
        same_places(a, b),
    ensures
        told_apart(b),
{
    assert forall|i: int, j: int| 0 <= i < j < b.len() implies (#[trigger] b[i]).0 != (
    #[trigger] b[j]).0 by {
        assert(a[i].0 != a[j].0);
    }
    assert forall|i: int| 0 <= i < b.len() implies (#[trigger] b[i]).1.id == i by {
        assert(a[i].1.id == i);
    }
}

/// Whether a collection has numbered its types, `Result` first.
spec fn numbered(c: CollectedV) -> bool {
    &&& told_apart(c.types)
    &&& c.next_id == c.types.len()
    &&& c.types.len() > 0
    &&& c.types[0].0 == "Result"@
}

proof fn items_numbered(
    c: CollectedV,
    all: Seq<LoadedModuleV>,
    path: Seq<Seq<char>>,
    items: Seq<TopLevelV>,
)
    requires
        numbered(c),
        items_collected(c, all, path, items).next_id <= i32::MAX,
    ensures
        numbered(items_collected(c, all, path, items)),
    decreases items.len(),
{
    if items.len() > 0 {
        let rest = items.drop_last();
        let c1 = items_collected(c, all, path, rest);
        let c2 = items_collected(c, all, path, items);
        items_numbered(c, all, path, rest);
        if c2.types != c1.types {
            let td = items.last()->Type_0;
            let symbol = symbol_for(type_shared(all, td.name), td.name, path);
            first_pos_facts(keys_of(c1.types), symbol);
            assert forall|i: int| 0 <= i < c1.types.len() implies (#[trigger] c1.types[i]).0
                != symbol by {
                assert(keys_of(c1.types)[i] == c1.types[i].0);
            }
            assert(c1.next_id as i32 == c1.types.len());
        }
    }
}

proof fn modules_numbered(all: Seq<LoadedModuleV>, ms: Seq<LoadedModuleV>)
    requires
        modules_collected(all, ms).next_id <= i32::MAX,
    ensures
        numbered(modules_collected(all, ms)),
    decreases ms.len(),
{
    if ms.len() > 0 {
        modules_ids(all, ms, ms.len() - 1);
        assert(ms.take(ms.len() - 1) =~= ms.drop_last());
        modules_numbered(all, ms.drop_last());
        let c = imports_collected(modules_collected(all, ms.drop_last()), ms.last());
        assert(numbered(c));
        items_numbered(c, all, ms.last().path, ms.last().ast.items);
    }
}

proof fn implemented_in_place(s: TablesV, impls: Seq<(FunDeclV, Seq<Seq<char>>)>)
    ensures
        same_places(s.types, all_implemented(s, impls).types),
    decreases impls.len(),
{
    if impls.len() > 0 {
        implemented_in_place(s, impls.drop_last());
    }
}

proof fn annotated_in_place(
    ts: Seq<(Seq<char>, TypeInfoV)>,
    nominals: Seq<(Seq<char>, NominalInfo)>,
    origins: Seq<(Seq<Seq<char>>, Seq<(Seq<char>, Seq<Seq<char>>)>)>,
    next: nat,
)
    ensures
        same_places(ts, threaded(ts, type_step(nominals, origins), next).0),
    decreases ts.len(),
{
    if ts.len() > 0 {
        let f = type_step(nominals, origins);
        let rest = ts.drop_last();
        annotated_in_place(rest, nominals, origins, next);
        let (bs, n) = threaded(rest, f, next);
        let (b, _) = f(ts.last(), n);
        assert(b.0 == ts.last().0 && b.1.id == ts.last().1.id);
        let all = threaded(ts, f, next).0;
        assert(all == bs.push(b));
        assert forall|i: int| 0 <= i < ts.len() implies (#[trigger] ts[i]).0 == all[i].0
            && ts[i].1.id == all[i].1.id by {
            if i < rest.len() {
                assert(rest[i] == ts[i]);
                assert(all[i] == bs[i]);
            }
        }
    }
}

/// The types of a lowered program have distinct keys and distinct ids, so that an id
/// finds its type again, and `Result` is the first.
pub proof fn types_are_told_apart(ms: Seq<LoadedModuleV>, i: int)
    requires
        modules_collected(ms, ms).next_id <= i32::MAX,
        0 <= i < lowered(ms).0.types.len(),
    ensures
        told_apart(lowered(ms).0.types),
        lowered(ms).0.types[0].0 == "Result"@,
        type_with_id(lowered(ms).0.types, lowered(ms).0.types[i].1.id) == Some(
            lowered(ms).0.types[i].1,
        ),
{
    let c = modules_collected(ms, ms);
    modules_numbered(ms, ms);
    let s = TablesV {
        types: c.types,
        functions: c.functions,
        primitive_methods: Seq::empty(),
        errors: c.errors,
    };
    implemented_in_place(s, c.impls);
    let p = assembled(c).0;
    same_places_told_apart(c.types, p.types);
    let nominals = nominals_of(p.types);
    let d = decls_resolved(p, nominals, c.aliases, 0);
    assert(same_places(p.types, d.types));
    same_places_told_apart(p.types, d.types);
    annotated_in_place(d.types, nominals, p.import_origins, d.next);
    let ts = threaded(d.types, type_step(nominals, p.import_origins), d.next).0;
    same_places_told_apart(d.types, ts);
    let fields = types_constrained(ts);
    assert(same_places(ts, fields));
    same_places_told_apart(ts, fields);
    let all = lowered(ms).0.types;
    assert(same_places(fields, all));
    same_places_told_apart(fields, all);
    assert(all[0].0 == c.types[0].0);
    let ids = type_ids(all);
    assert forall|j: int| 0 <= j < i implies ids[j] != all[i].1.id by {
        assert(all[j].1.id == j);
        assert(all[i].1.id == i);
    }
    assert(ids[i] == all[i].1.id);
    first_pos_unique(ids, all[i].1.id, i);
}

proof fn put_keeps_distinct<K, V>(s: Seq<(K, V)>, k: K, v: V)
    requires
        distinct_keys(s),
    ensures
        distinct_keys(put(s, k, v)),
{
    first_pos_facts(keys_of(s), k);
    assert forall|i: int| 0 <= i < s.len() && first_pos(keys_of(s), k) >= s.len() implies (
    #[trigger] s[i]).0 != k by {
        assert(keys_of(s)[i] == s[i].0);
    }
    let p = first_pos(keys_of(s), k);
    if p < s.len() {
        assert(keys_of(s)[p] == s[p].0);
        let t = put(s, k, v);
        assert forall|i: int, j: int| 0 <= i < j < t.len() implies (#[trigger] t[i]).0 != (
        #[trigger] t[j]).0 by {
            assert(t[i].0 == s[i].0 && t[j].0 == s[j].0);
        }
    }
}

proof fn items_functions(
    c: CollectedV,
    all: Seq<LoadedModuleV>,
    path: Seq<Seq<char>>,
    items: Seq<TopLevelV>,
)
    requires
        distinct_keys(c.functions),
    ensures
        distinct_keys(items_collected(c, all, path, items).functions),
    decreases items.len(),
{
    if items.len() > 0 {
        let rest = items.drop_last();
        let c1 = items_collected(c, all, path, rest);
        let c2 = items_collected(c, all, path, items);
        items_functions(c, all, path, rest);
        if c2.functions != c1.functions {
            let f = items.last()->Fun_0;
            let symbol = symbol_for(function_shared(all, f.name), f.name, path);
            first_pos_facts(keys_of(c1.functions), symbol);
            assert forall|i: int| 0 <= i < c1.functions.len() implies (#[trigger] c1.functions[i]).0
                != symbol by {
                assert(keys_of(c1.functions)[i] == c1.functions[i].0);
            }
        }
    }
}

proof fn modules_functions(all: Seq<LoadedModuleV>, ms: Seq<LoadedModuleV>)
    ensures
        distinct_keys(modules_collected(all, ms).functions),
    decreases ms.len(),
{
    if ms.len() > 0 {
        modules_functions(all, ms.drop_last());
        let c = imports_collected(modules_collected(all, ms.drop_last()), ms.last());
        items_functions(c, all, ms.last().path, ms.last().ast.items);
    }
}

proof fn implemented_functions(s: TablesV, impls: Seq<(FunDeclV, Seq<Seq<char>>)>)
    requires
        distinct_keys(s.functions),
    ensures
        distinct_keys(all_implemented(s, impls).functions),
    decreases impls.len(),
{
    if impls.len() > 0 {
        implemented_functions(s, impls.drop_last());
        let t = all_implemented(s, impls.drop_last());
        let u = all_implemented(s, impls);
        let (f, module) = impls.last();
        if u.functions != t.functions {
            let recv = f.recv->0;
            let word = receiver_word(recv)->Ok_0;
            let class = class_of_name(word.0, word.1)->0;
            let decl = FunDeclV { params: self_annotated(f.params, recv), ..f };
            let symbol = prim_symbol(class, f.name);
            put_keeps_distinct(
                t.functions,
                symbol,
                FunInfoV { signature: function_signature(decl), decl, module, symbol },
            );
        }
    }
}

proof fn annotated_functions(
    fs: Seq<(Seq<char>, FunInfoV)>,
    nominals: Seq<(Seq<char>, NominalInfo)>,
    origins: Seq<(Seq<Seq<char>>, Seq<(Seq<char>, Seq<Seq<char>>)>)>,
    next: nat,
)
    ensures
        keys_of(threaded(fs, function_step(nominals, origins), next).0) == keys_of(fs),
    decreases fs.len(),
{
    let f = function_step(nominals, origins);
    let all = threaded(fs, f, next).0;
    if fs.len() > 0 {
        let rest = fs.drop_last();
        annotated_functions(rest, nominals, origins, next);
        let (bs, n) = threaded(rest, f, next);
        let (b, _) = f(fs.last(), n);
        assert(b.0 == fs.last().0);
        assert(all == bs.push(b));
        assert(keys_of(all) =~= keys_of(bs).push(b.0));
        assert(keys_of(fs) =~= keys_of(rest).push(fs.last().0));
    } else {
        assert(keys_of(all) =~= keys_of(fs));
    }
}

/// Functions of the same name in several modules coexist: no two functions of a
/// lowered program have the same key.
pub proof fn functions_are_told_apart(ms: Seq<LoadedModuleV>)
    ensures
        distinct_keys(lowered(ms).0.functions),
{
    let c = modules_collected(ms, ms);
    modules_functions(ms, ms);
    let s = TablesV {
        types: c.types,
        functions: c.functions,
        primitive_methods: Seq::empty(),
        errors: c.errors,
    };
    implemented_functions(s, c.impls);
    let p = assembled(c).0;
    let nominals = nominals_of(p.types);
    let d = decls_resolved(p, nominals, c.aliases, 0);
    let n1 = threaded(d.types, type_step(nominals, p.import_origins), d.next).1;
    annotated_functions(p.functions, nominals, p.import_origins, n1);
    let all = lowered(ms).0.functions;
    assert(keys_of(all) == keys_of(p.functions));
    assert(keys_of(all).len() == all.len());
    assert(keys_of(p.functions).len() == p.functions.len());
    assert forall|i: int, j: int| 0 <= i < j < all.len() implies (#[trigger] all[i]).0 != (
    #[trigger] all[j]).0 by {
        assert(keys_of(all)[i] == all[i].0 && keys_of(all)[j] == all[j].0);
        assert(keys_of(p.functions)[i] == p.functions[i].0);
        assert(keys_of(p.functions)[j] == p.functions[j].0);
        assert(p.functions[i].0 != p.functions[j].0);
    }
}

/// The models of modules.
pub open spec fn modules_view(ms: Seq<LoadedModule>) -> Seq<LoadedModuleV> {
    Seq::new(ms.len(), |i: int| ms[i]@)
}

fn has_function(m: &LoadedModule, name: &str) -> (r: bool)
    ensures
        r == declares_function(m@, name@),
{
    let ghost items = m@.ast.items;
    for i in 0..m.ast.items.len()
        invariant
            items == m@.ast.items,
            items == top_levels_view(m.ast.items@),
            forall|j: int|
                0 <= j < i ==> !(#[trigger] items[j] matches TopLevelV::Fun(f) && f.recv is None && f.name
                    == name@),
    {
        assert(items[i as int] == m.ast.items[i as int]@);
        if let TopLevel::Fun(f) = &m.ast.items[i] {
            if f.recv.is_none() && str_eq(f.name.as_str(), name) {
                assert(items[i as int] matches TopLevelV::Fun(f) && f.recv is None && f.name
                    == name@);
                return true;
            }
        }
    }
    false
}

fn has_type(m: &LoadedModule, name: &str) -> (r: bool)
    ensures
        r == declares_type(m@, name@),
{
    let ghost items = m@.ast.items;
    for i in 0..m.ast.items.len()
        invariant
            items == m@.ast.items,
            items == top_levels_view(m.ast.items@),
            forall|j: int|
                0 <= j < i ==> !(#[trigger] items[j] matches TopLevelV::Type(t) && t.name == name@),
    {
        assert(items[i as int] == m.ast.items[i as int]@);
        if let TopLevel::Type(t) = &m.ast.items[i] {
            if str_eq(t.name.as_str(), name) {
                assert(items[i as int] matches TopLevelV::Type(t) && t.name == name@);
                return true;
            }
        }
    }
    false
}

/// Whether modules of two different paths declare a free function of this name.
fn is_function_shared(modules: &[LoadedModule], name: &str) -> (r: bool)
    ensures
        r == function_shared(modules_view(modules@), name@),
{
    let ghost ms = modules_view(modules@);
    let mut first: usize = modules.len();
    for i in 0..modules.len()
        invariant
            ms == modules_view(modules@),
            first <= modules.len(),
            first < modules.len() ==> first < i && declares_function(ms[first as int], name@),
            first == modules.len() ==> forall|j: int|
                0 <= j < i ==> !declares_function(#[trigger] ms[j], name@),
            first < modules.len() ==> forall|j: int|
                0 <= j < i && declares_function(#[trigger] ms[j], name@) ==> ms[j].path
                    == ms[first as int].path,
    {
        assert(ms[i as int] == modules[i as int]@);
        if has_function(&modules[i], name) {
            if first == modules.len() {
                first = i;
            } else if !strings_eq(
                modules[i].path.as_slice(),
                modules[first].path.as_slice(),
            ) {
                assert(ms[i as int].path != ms[first as int].path);
                return true;
            }
        }
    }
    false
}

/// Whether modules of two different paths declare a type of this name.
fn is_type_shared(modules: &[LoadedModule], name: &str) -> (r: bool)
    ensures
        r == type_shared(modules_view(modules@), name@),
{
    let ghost ms = modules_view(modules@);
    let mut first: usize = modules.len();
    for i in 0..modules.len()
        invariant
            ms == modules_view(modules@),
            first <= modules.len(),
            first < modules.len() ==> first < i && declares_type(ms[first as int], name@),
            first == modules.len() ==> forall|j: int|
                0 <= j < i ==> !declares_type(#[trigger] ms[j], name@),
            first < modules.len() ==> forall|j: int|
                0 <= j < i && declares_type(#[trigger] ms[j], name@) ==> ms[j].path
                    == ms[first as int].path,
    {
        assert(ms[i as int] == modules[i as int]@);
        if has_type(&modules[i], name) {
            if first == modules.len() {
                first = i;
            } else if !strings_eq(
                modules[i].path.as_slice(),
                modules[first].path.as_slice(),
            ) {
                assert(ms[i as int].path != ms[first as int].path);
                return true;
            }
        }
    }
    false
}

/// The unique storage/codegen symbol for a top-level name: its bare form when
/// only one module defines that name, or the qualified `Name@a/b` form when
/// several do.
fn qualified_symbol(shared: bool, name: &str, module: &[String]) -> (r: String)
    ensures
        r@ == symbol_for(shared, name@, texts(module@)),
{
    if shared {
        qualify(name, module)
    } else {
        name.to_owned()
    }
}

// ---- running ----

/// Everything lowering collects, while it runs.
struct Collector {
    tables: Tables,
    inits: Vec<ModuleInit>,
    module_imports: Vec<(Vec<String>, Vec<String>)>,
    import_origins: Vec<(Vec<String>, Vec<(String, Vec<String>)>)>,
    import_renames: Vec<(Vec<String>, Vec<(String, String)>)>,
    module_aliases: Vec<(Vec<String>, Vec<(String, Vec<String>)>)>,
    impls: Vec<(FunDecl, Vec<String>)>,
    aliases: Vec<AliasDecl>,
    next_id: i32,
}

impl View for Collector {
    type V = CollectedV;

    closed spec fn view(&self) -> CollectedV {
        CollectedV {
            types: self.tables@.types,
            functions: self.tables@.functions,
            inits: module_inits_view(self.inits@),
            module_imports: module_names_view(self.module_imports@),
            import_origins: all_origins_view(self.import_origins@),
            import_renames: all_renames_view(self.import_renames@),
            module_aliases: all_origins_view(self.module_aliases@),
            impls: impls_view(self.impls@),
            aliases: alias_decls_view(self.aliases@),
            errors: self.tables@.errors,
            next_id: self.next_id as int,
        }
    }
}

/// The position of the list stored for a path, an empty list being added if there is
/// none.
fn entry_at<T>(table: &mut Vec<(Vec<String>, Vec<T>)>, path: &Vec<String>) -> (r: usize)
    ensures
        r < final(table).len(),
        r == first_pos(paths(old(table)@), texts(path@)),
        r < old(table).len() ==> final(table)@ == old(table)@ && texts(old(table)@[r as int].0@)
            == texts(path@),
        r >= old(table).len() ==> final(table).len() == old(table).len() + 1
            && final(table)@.drop_last() == old(table)@ && texts(final(table)@.last().0@) == texts(
            path@,
        ) && final(table)@.last().1@ == Seq::<T>::empty(),
{
    let i = find_path(table, path.as_slice());
    proof {
        crate::table::first_pos_facts(paths(table@), texts(path@));
    }
    if i == table.len() {
        let ghost before = table@;
        table.push((clone_strings(path), Vec::new()));
        assert(table@.drop_last() =~= before);
    }
    i
}

fn add_origin(origins: &mut Vec<(String, Vec<String>)>, name: &str, path: &Vec<String>)
    ensures
        origins_view(final(origins)@) == put_new(
            origins_view(old(origins)@),
            name@,
            texts(path@),
        ),
{
    let ghost before = origins_view(origins@);
    let i = find_key(origins, name);
    assert(names(origins@) =~= keys_of(before));
    if i == origins.len() {
        origins.push((name.to_owned(), clone_strings(path)));
        assert(origins_view(origins@) =~= before.push((name@, texts(path@))));
    }
}

fn add_rename(renames: &mut Vec<(String, String)>, local: &str, remote: &str)
    ensures
        pairs_view(final(renames)@) == put_new(pairs_view(old(renames)@), local@, remote@),
{
    let ghost before = pairs_view(renames@);
    let i = find_key(renames, local);
    assert(names(renames@) =~= keys_of(before));
    if i == renames.len() {
        renames.push((local.to_owned(), remote.to_owned()));
        assert(pairs_view(renames@) =~= before.push((local@, remote@)));
    }
}

fn add_import_names(out: &mut Vec<String>, imports: &Vec<Import>)
    ensures
        texts(final(out)@) == texts(old(out)@) + imported_names(imports_view(imports@)),
{
    let ghost start = texts(out@);
    let ghost all = imports_view(imports@);
    assert(start =~= start + imported_names(all.take(0)));
    for i in 0..imports.len()
        invariant
            all == imports_view(imports@),
            texts(out@) == start + imported_names(all.take(i as int)),
    {
        let ghost here = texts(out@);
        proof {
            assert(all.take(i + 1).drop_last() =~= all.take(i as int));
            assert(all.take(i + 1).last() == imports[i as int]@);
        }
        let ns = &imports[i].names;
        let ghost ls = local_names(import_names_view(ns@));
        for k in 0..ns.len()
            invariant
                ls == local_names(import_names_view(ns@)),
                ls.len() == ns.len(),
                texts(out@) == here + ls.take(k as int),
        {
            let ghost now = texts(out@);
            out.push(ns[k].local.clone());
            assert(ls[k as int] == ns[k as int].local@);
            assert(texts(out@) =~= now.push(ls[k as int]));
            assert(ls.take(k + 1) =~= ls.take(k as int).push(ls[k as int]));
        }
        assert(ls.take(ns.len() as int) =~= ls);
        assert(texts(out@) =~= start + imported_names(all.take(i + 1)));
    }
    assert(all.take(imports.len() as int) =~= all);
}

fn add_import_origins(out: &mut Vec<(String, Vec<String>)>, imports: &Vec<Import>)
    ensures
        origins_view(final(out)@) == imports_originate(
            origins_view(old(out)@),
            imports_view(imports@),
        ),
{
    let ghost start = origins_view(out@);
    let ghost all = imports_view(imports@);
    for i in 0..imports.len()
        invariant
            all == imports_view(imports@),
            origins_view(out@) == imports_originate(start, all.take(i as int)),
    {
        let ghost here = origins_view(out@);
        proof {
            assert(all.take(i + 1).drop_last() =~= all.take(i as int));
            assert(all.take(i + 1).last() == imports[i as int]@);
        }
        let ns = &imports[i].names;
        let ghost ins = import_names_view(ns@);
        let ghost path = texts(imports[i as int].path@);
        for k in 0..ns.len()
            invariant
                i < imports.len(),
                ns == imports[i as int].names,
                ins == import_names_view(ns@),
                path == texts(imports[i as int].path@),
                origins_view(out@) == names_originate(here, ins.take(k as int), path),
        {
            proof {
                assert(ins.take(k + 1).drop_last() =~= ins.take(k as int));
                assert(ins.take(k + 1).last() == ns[k as int]@);
            }
            add_origin(out, ns[k].local.as_str(), &imports[i].path);
        }
        assert(ins.take(ns.len() as int) =~= ins);
    }
    assert(all.take(imports.len() as int) =~= all);
}

fn add_import_renames(out: &mut Vec<(String, String)>, imports: &Vec<Import>)
    ensures
        pairs_view(final(out)@) == imports_renamed(pairs_view(old(out)@), imports_view(imports@)),
{
    let ghost start = pairs_view(out@);
    let ghost all = imports_view(imports@);
    for i in 0..imports.len()
        invariant
            all == imports_view(imports@),
            pairs_view(out@) == imports_renamed(start, all.take(i as int)),
    {
        let ghost here = pairs_view(out@);
        proof {
            assert(all.take(i + 1).drop_last() =~= all.take(i as int));
            assert(all.take(i + 1).last() == imports[i as int]@);
        }
        let ns = &imports[i].names;
        let ghost ins = import_names_view(ns@);
        for k in 0..ns.len()
            invariant
                ins == import_names_view(ns@),
                pairs_view(out@) == names_renamed(here, ins.take(k as int)),
        {
            proof {
                assert(ins.take(k + 1).drop_last() =~= ins.take(k as int));
                assert(ins.take(k + 1).last() == ns[k as int]@);
            }
            if ns[k].local != ns[k].remote {
                add_rename(out, ns[k].local.as_str(), ns[k].remote.as_str());
            }
        }
        assert(ins.take(ns.len() as int) =~= ins);
    }
    assert(all.take(imports.len() as int) =~= all);
}

fn add_import_aliases(out: &mut Vec<(String, Vec<String>)>, imports: &Vec<Import>)
    ensures
        origins_view(final(out)@) == imports_aliased(
            origins_view(old(out)@),
            imports_view(imports@),
        ),
{
    let ghost start = origins_view(out@);
    let ghost all = imports_view(imports@);
    for i in 0..imports.len()
        invariant
            all == imports_view(imports@),
            origins_view(out@) == imports_aliased(start, all.take(i as int)),
    {
        proof {
            assert(all.take(i + 1).drop_last() =~= all.take(i as int));
            assert(all.take(i + 1).last() == imports[i as int]@);
        }
        if let Some(a) = &imports[i].alias {
            add_origin(out, a.as_str(), &imports[i].path);
        }
    }
    assert(all.take(imports.len() as int) =~= all);
}

impl Collector {
    fn fail(&mut self, message: String, span: Span)
        ensures
            final(self).tables@.primitive_methods == old(self).tables@.primitive_methods,
            final(self)@ == old(self)@.failed(message@, span),
    {
        self.tables.fail(message, span);
    }

    #[verifier::rlimit(50)]
    fn collect_imports(&mut self, m: &LoadedModule)
        ensures
            final(self).tables@.primitive_methods == old(self).tables@.primitive_methods,
            final(self)@ == imports_collected(old(self)@, m@),
    {
        let ghost before = self@;
        let ghost path = texts(m.path@);
        let imports = &m.ast.imports;
        proof {
            assert(paths(self.module_imports@) =~= keys_of(before.module_imports));
            assert(paths(self.import_origins@) =~= keys_of(before.import_origins));
            assert(paths(self.import_renames@) =~= keys_of(before.import_renames));
            assert(paths(self.module_aliases@) =~= keys_of(before.module_aliases));
        }
        let a = entry_at(&mut self.module_imports, &m.path);
        let ghost a0 = self.module_imports@;
        proof {
            if a >= before.module_imports.len() {
                assert(a0 =~= a0.drop_last().push(a0.last()));
                assert(texts(a0.last().1@) =~= Seq::empty());
            }
        }
        add_import_names(&mut self.module_imports[a].1, imports);
        proof {
            let want = put(
                before.module_imports,
                path,
                entry_of(before.module_imports, path) + imported_names(m@.ast.imports),
            );
            assert(module_names_view(self.module_imports@) =~= want);
        }
        let b = entry_at(&mut self.import_origins, &m.path);
        let ghost b0 = self.import_origins@;
        proof {
            if b >= before.import_origins.len() {
                assert(b0 =~= b0.drop_last().push(b0.last()));
                assert(origins_view(b0.last().1@) =~= Seq::empty());
            }
        }
        add_import_origins(&mut self.import_origins[b].1, imports);
        proof {
            let want = put(
                before.import_origins,
                path,
                imports_originate(entry_of(before.import_origins, path), m@.ast.imports),
            );
            assert(all_origins_view(self.import_origins@) =~= want);
        }
        let c = entry_at(&mut self.import_renames, &m.path);
        let ghost c0 = self.import_renames@;
        proof {
            if c >= before.import_renames.len() {
                assert(c0 =~= c0.drop_last().push(c0.last()));
                assert(pairs_view(c0.last().1@) =~= Seq::empty());
            }
        }
        add_import_renames(&mut self.import_renames[c].1, imports);
        proof {
            let want = put(
                before.import_renames,
                path,
                imports_renamed(entry_of(before.import_renames, path), m@.ast.imports),
            );
            assert(all_renames_view(self.import_renames@) =~= want);
        }
        let d = entry_at(&mut self.module_aliases, &m.path);
        let ghost d0 = self.module_aliases@;
        proof {
            if d >= before.module_aliases.len() {
                assert(d0 =~= d0.drop_last().push(d0.last()));
                assert(origins_view(d0.last().1@) =~= Seq::empty());
            }
        }
        add_import_aliases(&mut self.module_aliases[d].1, imports);
        proof {
            let want = put(
                before.module_aliases,
                path,
                imports_aliased(entry_of(before.module_aliases, path), m@.ast.imports),
            );
            assert(all_origins_view(self.module_aliases@) =~= want);
        }
    }

    fn has_alias(&self, symbol: &str) -> (r: bool)
        ensures
            r == alias_taken(self@.aliases, symbol@),
    {
        for i in 0..self.aliases.len()
            invariant
                forall|j: int| 0 <= j < i ==> (#[trigger] self@.aliases[j]).symbol != symbol@,
        {
            if str_eq(self.aliases[i].symbol.as_str(), symbol) {
                assert(self@.aliases[i as int].symbol == symbol@);
                return true;
            }
        }
        false
    }

    fn collect_type(&mut self, td: &TypeDecl, modules: &[LoadedModule], path: &Vec<String>)
        requires
            item_collected(
                old(self)@,
                modules_view(modules@),
                texts(path@),
                TopLevelV::Type(td@),
            ).next_id <= i32::MAX,
        ensures
            final(self).tables@.primitive_methods == old(self).tables@.primitive_methods,
            final(self)@ == item_collected(
                old(self)@,
                modules_view(modules@),
                texts(path@),
                TopLevelV::Type(td@),
            ),
    {
        let shared = is_type_shared(modules, td.name.as_str());
        let symbol = qualified_symbol(shared, td.name.as_str(), path.as_slice());
        // `Result` is built in (fallible returns construct it); a user definition
        // would silently vanish behind the builtin.
        if str_eq(td.name.as_str(), "Result") {
            self.fail("`Result` is built in and cannot be redefined".to_owned(), td.span);
            return ;
        }
        let k = find_key(&self.tables.types, symbol.as_str());
        assert(names(self.tables.types@) =~= keys_of(self@.types));
        if k < self.tables.types.len() || self.has_alias(symbol.as_str()) {
            self.fail(cat3("duplicate type `", td.name.as_str(), "`"), td.span);
            return ;
        }
        let ghost before = self@;
        if matches!(td.body, TypeBody::Alias(_)) {
            let a = AliasDecl { symbol, module: clone_strings(path), decl: td.clone() };
            self.aliases.push(a);
            assert(alias_decls_view(self.aliases@) =~= before.aliases.push(a@));
            return ;
        }
        let info = type_info(td, self.next_id, path, symbol.clone(), &mut self.tables.errors);
        self.next_id = self.next_id + 1;
        self.tables.types.push((symbol, info));
        assert(self@.types =~= before.types.push((symbol@, info@)));
    }

    fn collect_function(&mut self, f: &FunDecl, modules: &[LoadedModule], path: &Vec<String>)
        ensures
            final(self).tables@.primitive_methods == old(self).tables@.primitive_methods,
            final(self)@ == item_collected(
                old(self)@,
                modules_view(modules@),
                texts(path@),
                TopLevelV::Fun(f@),
            ),
    {
        let ghost before = self@;
        if f.recv.is_some() {
            // A method implementation: deferred until all types are known.
            let g = f.clone();
            self.impls.push((g, clone_strings(path)));
            assert(impls_view(self.impls@) =~= before.impls.push((f@, texts(path@))));
            return ;
        }
        let shared = is_function_shared(modules, f.name.as_str());
        let symbol = qualified_symbol(shared, f.name.as_str(), path.as_slice());
        let k = find_key(&self.tables.functions, symbol.as_str());
        assert(names(self.tables.functions@) =~= keys_of(self@.functions));
        if k < self.tables.functions.len() {
            self.fail(cat3("duplicate function `", f.name.as_str(), "`"), f.span);
            return ;
        }
        let info = FunInfo {
            signature: CallableSignature::from_function(f),
            decl: f.clone(),
            module: clone_strings(path),
            symbol: symbol.clone(),
        };
        self.tables.functions.push((symbol, info));
        assert(self@.functions =~= before.functions.push((symbol@, info@)));
    }

    fn collect_module(&mut self, m: &LoadedModule, modules: &[LoadedModule])
        requires
            module_collected(old(self)@, modules_view(modules@), m@).next_id <= i32::MAX,
        ensures
            final(self).tables@.primitive_methods == old(self).tables@.primitive_methods,
            final(self)@ == module_collected(old(self)@, modules_view(modules@), m@),
    {
        let ghost start = imports_collected(self@, m@);
        self.collect_imports(m);
        let ghost all = modules_view(modules@);
        let ghost items = top_levels_view(m.ast.items@);
        let ghost path = texts(m.path@);
        let mut stmts: Vec<Stmt> = Vec::new();
        assert(stmts_view(stmts@) =~= Seq::empty());
        for i in 0..m.ast.items.len()
            invariant
                all == modules_view(modules@),
                items == top_levels_view(m.ast.items@),
                path == texts(m.path@),
                items_collected(start, all, path, items).next_id <= i32::MAX,
                self@ == items_collected(start, all, path, items.take(i as int)),
                self.tables@.primitive_methods == old(self).tables@.primitive_methods,
                stmts_view(stmts@) == top_stmts(items.take(i as int)),
        {
            proof {
                assert(items.take(i + 1).drop_last() =~= items.take(i as int));
                assert(items.take(i + 1).last() == m.ast.items[i as int]@);
                items_ids(start, all, path, items, i + 1);
            }
            match &m.ast.items[i] {
                TopLevel::Type(td) => self.collect_type(td, modules, &m.path),
                TopLevel::Fun(f) => self.collect_function(f, modules, &m.path),
                TopLevel::Stmt(s) => {
                    let ghost before = stmts_view(stmts@);
                    let c = clone_stmt(s);
                    stmts.push(c);
                    assert(stmts_view(stmts@) =~= before.push(c@));
                },
            }
        }
        assert(items.take(m.ast.items.len() as int) =~= items);
        let init = ModuleInit { path: clone_strings(&m.path), stmts };
        let ghost before = module_inits_view(self.inits@);
        self.inits.push(init);
        assert(module_inits_view(self.inits@) =~= before.push(init@));
    }
}

fn put_pair(table: &mut Vec<(String, String)>, k: String, v: String)
    ensures
        pairs_view(final(table)@) == put(pairs_view(old(table)@), k@, v@),
{
    let ghost before = pairs_view(table@);
    let i = find_key(table, k.as_str());
    assert(names(table@) =~= keys_of(before));
    let ghost kk = k@;
    let ghost vv = v@;
    if i < table.len() {
        table.set(i, (k, v));
    } else {
        table.push((k, v));
    }
    assert(pairs_view(table@) =~= put(before, kk, vv));
}

/// For items stored under their bare name (unique program-wide), the bare symbol by
/// the module-qualified name.
fn bare_symbols(types: &Vec<(String, TypeInfo)>, functions: &Vec<(String, FunInfo)>) -> (r: Vec<
    (String, String),
>)
    ensures
        pairs_view(r@) == function_symbol_aliases(
            type_symbol_aliases(named_type_infos_view(types@)),
            named_fun_infos_view(functions@),
        ),
{
    let ghost ts = named_type_infos_view(types@);
    let ghost fs = named_fun_infos_view(functions@);
    let mut out: Vec<(String, String)> = Vec::new();
    assert(pairs_view(out@) =~= Seq::empty());
    for i in 0..types.len()
        invariant
            ts == named_type_infos_view(types@),
            pairs_view(out@) == type_symbol_aliases(ts.take(i as int)),
    {
        proof {
            assert(ts.take(i + 1).drop_last() =~= ts.take(i as int));
            assert(ts.take(i + 1).last() == (types[i as int].0@, types[i as int].1@));
        }
        let info = &types[i].1;
        assert(texts(info.module@).len() == info.module.len());
        if types[i].0 == info.name && info.module.len() > 0 {
            let q = qualify(info.name.as_str(), info.module.as_slice());
            if q != types[i].0 {
                put_pair(&mut out, q, types[i].0.clone());
            }
        }
    }
    assert(ts.take(types.len() as int) =~= ts);
    let ghost start = pairs_view(out@);
    for i in 0..functions.len()
        invariant
            fs == named_fun_infos_view(functions@),
            pairs_view(out@) == function_symbol_aliases(start, fs.take(i as int)),
    {
        proof {
            assert(fs.take(i + 1).drop_last() =~= fs.take(i as int));
            assert(fs.take(i + 1).last() == (functions[i as int].0@, functions[i as int].1@));
        }
        let info = &functions[i].1;
        assert(texts(info.module@).len() == info.module.len());
        if functions[i].0 == info.signature.name && info.module.len() > 0 {
            let q = qualify(info.signature.name.as_str(), info.module.as_slice());
            if q != functions[i].0 {
                put_pair(&mut out, q, functions[i].0.clone());
            }
        }
    }
    assert(fs.take(functions.len() as int) =~= fs);
    out
}

/// Collect all modules into a `Program`. Errors list duplicate declarations, method
/// implementations without a home, and type declarations that do not resolve.
pub fn lower(modules: &[LoadedModule]) -> (r: (Program, Vec<LowerError>))
    requires
        modules_collected(modules_view(modules@), modules_view(modules@)).next_id <= i32::MAX,
        lowered(modules_view(modules@)).1 <= u32::MAX,
    ensures
        r.0@ == lowered(modules_view(modules@)).0,
        errors_view(r.1@) == lowered(modules_view(modules@)).2,
{
    let ghost all = modules_view(modules@);
    let result = result_type();
    let types = vec![("Result".to_owned(), result)];
    assert(named_type_infos_view(types@) =~= seq![("Result"@, result_info())]);
    let mut c = Collector {
        tables: Tables {
            types,
            functions: Vec::new(),
            primitive_methods: Vec::new(),
            errors: Vec::new(),
        },
        inits: Vec::new(),
        module_imports: Vec::new(),
        import_origins: Vec::new(),
        import_renames: Vec::new(),
        module_aliases: Vec::new(),
        impls: Vec::new(),
        aliases: Vec::new(),
        next_id: 1,
    };
    assert(prim_view(c.tables.primitive_methods@) =~= Seq::empty());
    assert(c@ =~= nothing_collected());
    let n = modules.len();
    for i in 0..n
        invariant
            n == modules.len(),
            all == modules_view(modules@),
            modules_collected(all, all).next_id <= i32::MAX,
            c@ == modules_collected(all, all.take(i as int)),
            c.tables@.primitive_methods == Seq::<((Seq<char>, Seq<char>), Seq<char>)>::empty(),
    {
        proof {
            assert(all.take(i + 1).drop_last() =~= all.take(i as int));
            assert(all.take(i + 1).last() == modules[i as int]@);
            modules_ids(all, all, i + 1);
        }
        c.collect_module(&modules[i], modules);
    }
    assert(all.take(n as int) =~= all);
    let mut c = c;
    inject_method_impls(&mut c.tables, &c.impls);
    let symbol_aliases = bare_symbols(&c.tables.types, &c.tables.functions);
    let mut errors = c.tables.errors;
    let mut program = Program {
        types: c.tables.types,
        functions: c.tables.functions,
        inits: c.inits,
        module_imports: c.module_imports,
        import_origins: c.import_origins,
        import_renames: c.import_renames,
        module_aliases: c.module_aliases,
        symbol_aliases,
        primitive_methods: c.tables.primitive_methods,
        type_aliases: Vec::new(),
    };
    assert(named_type_aliases_view(program.type_aliases@) =~= Seq::empty());
    resolve_program_annotations(&mut program, &c.aliases, &mut errors);
    (program, errors)
}

} // verus!
