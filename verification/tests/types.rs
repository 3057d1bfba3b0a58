//! Types: resolution, display, instances and their names, and the types shown to a reader.

use std::collections::{HashMap, HashSet};

use prepoly::ast::TypeExpr;
use prepoly::monomorph::{mangle_fn, mangle_fn_instance, mangle_method_instance, type_mangle};
use prepoly::hir::{CallableSignature, ParamInfo};
use prepoly::render::{
    is_public_member, render_signature, render_signature_full, render_type, UnknownNamer,
};
use prepoly::span::Span;
use prepoly::typed::{Constness, Ownership, TypedExprKind, TypedProgram};
use prepoly::types::{
    free_vars, freshen_infer, index_element, int_literal_kind, is_fully_known, peel_modes,
    prim_method_symbol, primitive_kind_conflict, resolve, same_type, structural_record,
    substitute_vars, FloatKind, IntKind, NominalInfo, NominalType, Substitution, Type, INFER_VAR,
};

#[test]
fn resolves_sum_nominal_kind() {
    let ty = resolve(&TypeExpr::Named("Shape".into(), Span::new(0, 5)), |name: &str| {
        (name == "Shape").then_some(NominalInfo::sum(42))
    });
    assert_eq!(ty, Ok(Type::Sum(NominalType::new(42, "Shape"))));
}

#[test]
fn resolves_record_nominal_kind() {
    let ty = resolve(&TypeExpr::Named("Point".into(), Span::new(0, 5)), |name: &str| {
        (name == "Point").then_some(NominalInfo::record(7))
    });
    assert_eq!(ty, Ok(Type::Record(NominalType::new(7, "Point"))));
}

#[test]
fn nominal_substitution_participates_in_identity_and_display() {
    let mut subst = Substitution::empty();
    subst.insert("Ok.value", Type::Int(IntKind::I32));
    subst.insert("Err.error", Type::Str);

    let result = NominalType::with_substitution(0, "Result", subst.clone());
    assert_eq!(result.to_string(), "Result<int32, string>");
    assert!(result.same_nominal(&NominalType::with_substitution(0, "Result", subst)));
    assert!(!result.same_nominal(&NominalType::new(0, "Result")));

    let wrapper = NominalType::with_substitution(1, "Wrapper", {
        let mut subst = Substitution::empty();
        subst.insert("item", Type::Str);
        subst
    });
    assert_eq!(wrapper.to_string(), "Wrapper<item=string>");
}

#[test]
fn result_constructor_uses_substituted_sum_type() {
    let ty = Type::result(Type::Int(IntKind::I32), Type::Str);

    let Type::Sum(result) = &ty else {
        panic!("Result must lower to a nominal sum type");
    };
    assert!(result.is_result_type());
    assert_eq!(ty.display(), "Result<int32, string>");
    assert_eq!(ty.result_payloads(), Some((&Type::Int(IntKind::I32), &Type::Str)));
}

#[test]
fn null_type_is_nullable_never() {
    let ty = Type::null();

    assert!(ty.is_null());
    assert_eq!(ty.display(), "never?");
}

/// A literal value is born in the local region; the ownership of any other expression is
/// settled later.
#[test]
fn literals_are_local_others_unknown() {
    let mut prog = TypedProgram::default();
    let span = Span::new(0, 0);
    prog.push_kind(TypedExprKind::Int, span, Type::Unknown(0), Constness::Const);
    prog.push_kind(
        TypedExprKind::Ident("x".into()),
        span,
        Type::Unknown(1),
        Constness::Mutable,
    );
    assert_eq!(prog.expressions[0].ownership, Ownership::Local);
    assert_eq!(prog.expressions[1].ownership, Ownership::Unknown);
}

#[test]
fn instances_differ_by_argument_type() {
    let for_int = mangle_fn_instance("id", &vec![Type::Int(IntKind::I32)]);
    let for_str = mangle_fn_instance("id", &vec![Type::Str]);
    assert_ne!(for_int, for_str);
    assert!(for_int.starts_with(&mangle_fn("id")));
    assert!(for_str.starts_with(&mangle_fn("id")));
}

#[test]
fn zero_arg_instance_is_the_base_symbol() {
    assert_eq!(mangle_fn_instance("main", &vec![]), mangle_fn("main"));
}

#[test]
fn same_named_nominal_types_mangle_distinctly_by_id() {
    let a = type_mangle(&Type::Record(NominalType::new(5, "Shape")));
    let b = type_mangle(&Type::Record(NominalType::new(6, "Shape")));
    assert_ne!(a, b);
}

/// What a generic type is applied to stands in its code, and codes do not run together.
#[test]
fn distinct_types_mangle_distinctly() {
    let i = || Type::Int(IntKind::I32);
    assert_eq!(type_mangle(&Type::Record(NominalType::new(5, "Shape"))), "r5");
    assert_ne!(
        type_mangle(&Type::result(i(), Type::Str)),
        type_mangle(&Type::result(Type::Str, i()))
    );
    let fun = |ps: Vec<Type>, r: Type| Type::Fun(ps, Box::new(r));
    let a = fun(vec![fun(vec![i()], Type::Str), Type::Bool], Type::Void);
    let b = fun(vec![fun(vec![i(), Type::Str], Type::Bool)], Type::Void);
    assert_ne!(type_mangle(&a), type_mangle(&b));
    assert_eq!(type_mangle(&fun(vec![i(), Type::Str], Type::Bool)), "fn2_i32_str_b");
    assert_ne!(
        mangle_fn_instance("f", &vec![fun(vec![i()], Type::Str), Type::Bool]),
        mangle_fn_instance("f", &vec![fun(vec![i(), Type::Str], Type::Bool)])
    );
    assert_eq!(
        type_mangle(&structural_record(vec![("x".to_string(), i())])),
        "r-2147483648g1_1_x_i32"
    );
}

#[test]
fn method_instances_differ_by_argument_type() {
    let i = mangle_method_instance("Vec2", "scale", &vec![Type::Float(FloatKind::F64)]);
    let s = mangle_method_instance("Vec2", "scale", &vec![Type::Str]);
    assert_ne!(i, s);
}

/// Distinct inference variables number by order of appearance and repeat
/// consistently; a concrete type in between does not consume a number.
#[test]
fn unknowns_numbered_by_appearance() {
    let mut namer = UnknownNamer::default();
    let ty = Type::Fun(
        vec![Type::Unknown(7), Type::Int(IntKind::I32), Type::Unknown(3)],
        Box::new(Type::Unknown(7)),
    );
    assert_eq!(
        render_type(&ty, &mut namer),
        "(unknown_0, int32, unknown_1) -> unknown_0"
    );
}

// ---- more on types ----

fn named(n: &str) -> TypeExpr {
    TypeExpr::Named(n.to_string(), Span::new(0, 0))
}

fn at() -> Span {
    Span::new(0, 0)
}

fn nothing(_: &str) -> Option<NominalInfo> {
    None
}

fn i32t() -> Type {
    Type::Int(IntKind::I32)
}

#[test]
fn annotations_resolve_to_types() {
    let t = TypeExpr::Array(Box::new(TypeExpr::Nullable(Box::new(named("string")), at())), None, at());
    assert_eq!(
        resolve(&t, nothing),
        Ok(Type::Slice(Box::new(Type::Nullable(Box::new(Type::Str)))))
    );
    let t = TypeExpr::Array(Box::new(named("uint8")), Some(4), at());
    assert_eq!(resolve(&t, nothing), Ok(Type::Array(Box::new(Type::Int(IntKind::U8)), 4)));
    let t = TypeExpr::Fun(vec![named("int32")], Box::new(named("bool")), at());
    assert_eq!(resolve(&t, nothing), Ok(Type::Fun(vec![i32t()], Box::new(Type::Bool))));
    assert_eq!(resolve(&named("infer"), nothing), Ok(Type::Unknown(INFER_VAR)));
    assert_eq!(resolve(&named("Nope"), nothing), Err("unknown type `Nope`".to_string()));
    assert_eq!(
        resolve(&TypeExpr::TypeSlot(at()), nothing),
        Err("unsupported type".to_string())
    );
}

/// `T!` is a `Result` whose error is open.
#[test]
fn fallible_annotations_leave_the_error_open() {
    let t = resolve(&TypeExpr::Fallible(Box::new(named("int32")), at()), nothing).unwrap();
    assert_eq!(t.result_payloads(), Some((&i32t(), &Type::Unknown(INFER_VAR))));
    let mut next = 7;
    let fresh = freshen_infer(t, &mut next);
    assert_eq!(fresh.result_payloads(), Some((&i32t(), &Type::Unknown(7))));
    assert_eq!(next, 8);
}

#[test]
fn every_placeholder_gets_its_own_variable() {
    let mut next = 3;
    let t = Type::Tuple(vec![Type::Unknown(INFER_VAR), i32t(), Type::Unknown(INFER_VAR)]);
    assert_eq!(
        freshen_infer(t, &mut next),
        Type::Tuple(vec![Type::Unknown(3), i32t(), Type::Unknown(4)])
    );
    assert_eq!(next, 5);
}

#[test]
fn variables_are_found_and_replaced() {
    let t = Type::Fun(
        vec![Type::Unknown(1), Type::Slice(Box::new(Type::Unknown(2)))],
        Box::new(Type::Str),
    );
    assert_eq!(free_vars(&t), HashSet::from([1, 2]));
    assert!(!is_fully_known(&t));
    let map = HashMap::from([(1, i32t()), (9, Type::Bool)]);
    let s = substitute_vars(&t, &map);
    assert_eq!(
        s,
        Type::Fun(
            vec![i32t(), Type::Slice(Box::new(Type::Unknown(2)))],
            Box::new(Type::Str),
        )
    );
    let all = HashMap::from([(2, Type::Bool)]);
    assert!(is_fully_known(&substitute_vars(&s, &all)));
    assert!(same_type(&s, &s.clone()));
    assert!(!same_type(&s, &t));
}

#[test]
fn kinds_have_names_widths_and_tags() {
    for k in [
        IntKind::I8,
        IntKind::I16,
        IntKind::I32,
        IntKind::I64,
        IntKind::U8,
        IntKind::U16,
        IntKind::U32,
        IntKind::U64,
    ] {
        assert_eq!(IntKind::from_name(k.name()), Some(k));
        assert_eq!(IntKind::of(k.is_signed(), k.bits()), k);
    }
    assert_eq!(IntKind::from_name("int"), None);
    assert_eq!(FloatKind::F32.name(), "float32");
    assert_eq!(FloatKind::F64.bits(), 64);
    assert_ne!(FloatKind::F32.tag(), FloatKind::F64.tag());
    assert_eq!(int_literal_kind(i32::MAX as i64), IntKind::I32);
    assert_eq!(int_literal_kind(i32::MAX as i64 + 1), IntKind::I64);
    assert_eq!(int_literal_kind(i32::MIN as i64 - 1), IntKind::I64);
}

#[test]
fn classes_and_truth_of_types() {
    assert_eq!(i32t().primitive_class(), Some("int32"));
    assert_eq!(Type::Slice(Box::new(i32t())).primitive_class(), Some("array"));
    assert_eq!(Type::Void.primitive_class(), None);
    assert_eq!(Type::primitive_class_of_name("string", false), Some("string"));
    assert_eq!(Type::primitive_class_of_name("T", true), Some("array"));
    assert_eq!(Type::primitive_class_of_name("T", false), None);
    assert_eq!(prim_method_symbol("string", "trim"), "trim@prim.string");
    assert_eq!(Type::Bool.static_truthiness(), None);
    assert_eq!(Type::null().static_truthiness(), Some(false));
    assert_eq!(i32t().static_truthiness(), Some(true));
    assert!(primitive_kind_conflict(&i32t(), &Type::Str));
    assert!(!primitive_kind_conflict(&i32t(), &Type::Int(IntKind::U8)));
    assert!(!primitive_kind_conflict(&i32t(), &Type::Unknown(0)));
    assert!(Type::Unknown(3).is_unknown() && !i32t().is_unknown());
}

#[test]
fn elements_keep_the_modes_of_their_array() {
    let arr = Type::Slice(Box::new(i32t()));
    assert_eq!(index_element(&arr), Some(i32t()));
    let by_ref = Type::Ref(Box::new(Type::Mut(Box::new(arr))));
    assert_eq!(
        index_element(&by_ref),
        Some(Type::Ref(Box::new(Type::Mut(Box::new(i32t())))))
    );
    assert_eq!(index_element(&Type::Str), None);
    assert_eq!(peel_modes(&by_ref), &Type::Slice(Box::new(i32t())));
}

#[test]
fn types_are_displayed() {
    let cases = [
        (Type::Array(Box::new(i32t()), 3), "int32[3]"),
        (Type::Slice(Box::new(Type::Str)), "string[]"),
        (Type::Tuple(vec![i32t(), Type::Bool]), "[int32, bool]"),
        (Type::Fun(vec![i32t(), Type::Str], Box::new(Type::Void)), "(int32, string) -> void"),
        (Type::Nullable(Box::new(i32t())), "int32?"),
        (Type::Ref(Box::new(Type::Mut(Box::new(i32t())))), "ref(mut(int32))"),
        (Type::SelfType, "Self"),
    ];
    for (t, text) in cases {
        assert_eq!(t.display(), text);
    }
}

/// The order in which a structural record's fields are written does not matter.
#[test]
fn structural_records_have_no_field_order() {
    let a = structural_record(vec![("x".to_string(), i32t()), ("a".to_string(), Type::Str)]);
    let b = structural_record(vec![("a".to_string(), Type::Str), ("x".to_string(), i32t())]);
    assert_eq!(a, b);
    let Type::Record(n) = &a else {
        panic!("a record");
    };
    assert_eq!(n.substitution.iter(), vec![("a", &Type::Str), ("x", &i32t())]);
}

#[test]
fn substitutions_are_kept_in_key_order() {
    let mut s = Substitution::empty();
    assert!(s.is_empty());
    s.insert("m", i32t());
    s.insert("a", Type::Str);
    s.insert("m", Type::Bool);
    assert_eq!(s.len(), 2);
    assert_eq!((s.key_at(0), s.type_at(0)), ("a", &Type::Str));
    assert_eq!(s.get("m"), Some(&Type::Bool));
    assert_eq!(s.get("z"), None);
}

// ---- signatures ----

fn param(name: &str, ty: Option<Type>) -> ParamInfo {
    ParamInfo {
        name: name.to_string(),
        ty: ty.as_ref().map(|t| named(&t.display())),
        resolved_ty: ty,
        span: at(),
    }
}

fn signature(params: Vec<ParamInfo>, ret: Option<Type>) -> CallableSignature {
    CallableSignature {
        name: "f".to_string(),
        params,
        ret: ret.as_ref().map(|t| named(&t.display())),
        ret_ty: ret,
        span: at(),
    }
}

#[test]
fn signatures_are_rendered() {
    let annotated = signature(vec![param("x", Some(i32t()))], Some(Type::Str));
    assert_eq!(render_signature(&annotated), "fun f(x: int32) -> string");
    let bare = signature(vec![param("x", None), param("y", None)], None);
    assert_eq!(render_signature(&bare), "fun f(x: unknown_0, y: unknown_1) -> unknown_2");
    assert_eq!(
        render_signature_full(&bare, &vec![Some(Type::Unknown(4)), None], Some(&Type::Unknown(4))),
        "fun f(x: unknown_0, y: unknown_1) -> unknown_0"
    );
    assert!(is_public_member("get") && !is_public_member("_get"));
}

/// A name once given to a variable stays, and two variables never share one.
#[test]
fn names_of_variables_stay_apart() {
    let mut namer = UnknownNamer::default();
    namer.fix(9, "T".to_string());
    let a = namer.named(4);
    let b = namer.fresh();
    let c = namer.named(8);
    assert_eq!((a.as_str(), b.as_str(), c.as_str()), ("unknown_0", "unknown_1", "unknown_2"));
    assert_eq!(namer.named(4), a);
    assert_eq!(namer.named(9), "T");
}
