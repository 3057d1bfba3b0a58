//! Layouts, machine arithmetic, and what the code generator emits.

use prepoly::arith::{codegen_is_int_cmp, int_code, int_predicate, Compare, Step};
use prepoly::ast::{
    BinOp, Block, FieldDecl, FunDecl, Member, Module, TopLevel, TypeBody, TypeDecl, TypeExpr,
    UnaryOp, Variant,
};
use prepoly::copies::{copy_routine, deep_copy, CopyRoutine, Move};
use prepoly::display::{to_string, TextStep};
use prepoly::hir::{LoadedModule, Program, TypeKind};
use prepoly::layout::{
    align_up, closure_layout, elem_of, int_bits_of, int_runtime_tag, int_signed, is_managed_heap,
    is_traced, record_layout, sum_total_size, sum_variant_fields, tuple_layout, ty_is_signed,
    type_size_align, unwrap_copy_wrappers, variant_layout,
};
use prepoly::lower::lower;
use prepoly::monomorph::{
    mangle_closure, mangle_fn, mangle_fn_instance, mangle_global, mangle_init, mangle_method,
    sanitize, type_mangle,
};
use prepoly::objects::{
    begin_program, bounds_check, call_indirect, conv_from_args, emit_print, execute, field_stores, int_arg_i64, local_homes,
    make_array, make_cell, make_closure, make_record, make_tuple, make_variant, nullable_unwrap, param_index,
    pattern_matches, remove_check, sext_to_i64, tuple_field, CellPlan, FromArg, Home, IndirectCall, Matching,
    ObjectPlan, RunStep, VariantPlan, Widening, Zero, CODE_AT, DROP_AT, NOT_FINALIZED,
};
use prepoly::plan::{
    always_inline, bin_op, closure_drop_name, closure_drop_plan, coerce, convert,
    deferred_dispatch, drop_plan, float_builtin, float_predicate, format_plan,
    helper_name, immutable_heap_globals, load_field, pattern_tag, plugin_call, plugin_result,
    plugin_slot, store_field, trace_plan, truthy, un_op, BinPlan, Conv, FloatCompare, Format, Load,
    Piece, RawResult, Shape, Slot, Truth, UnPlan,
};
use prepoly::routines::{closure_destructor, destructor, tracer, Action};
use prepoly::span::Span;
use prepoly::types::{FloatKind, IntKind, NominalType, Substitution, Type};

fn at() -> Span {
    Span::new(0, 0)
}

fn named(n: &str) -> TypeExpr {
    TypeExpr::Named(n.to_string(), at())
}

fn optional(t: TypeExpr) -> TypeExpr {
    TypeExpr::Nullable(Box::new(t), at())
}

fn members(fields: &[(&str, TypeExpr)]) -> Vec<Member> {
    fields
        .iter()
        .map(|(n, t)| {
            Member::Field(FieldDecl { name: n.to_string(), ty: Some(t.clone()), span: at() })
        })
        .collect()
}

fn decl(name: &str, body: TypeBody) -> TopLevel {
    TopLevel::Type(TypeDecl {
        name: name.to_string(),
        interfaces: vec![],
        body,
        span: at(),
        doc: None,
    })
}

fn record(name: &str, fields: &[(&str, TypeExpr)]) -> TopLevel {
    decl(name, TypeBody::Record(members(fields)))
}

fn variant(name: &str, fields: &[(&str, TypeExpr)]) -> Variant {
    Variant { name: name.to_string(), members: members(fields), span: at() }
}

fn function(name: &str) -> TopLevel {
    TopLevel::Fun(FunDecl {
        name: name.to_string(),
        recv: None,
        params: vec![],
        ret: None,
        body: Block { stmts: vec![], span: at() },
        span: at(),
        doc: None,
    })
}

fn program() -> Program {
    let items = vec![
        record(
            "Mixed",
            &[
                ("flag", named("bool")),
                ("big", named("int64")),
                ("small", named("int32")),
                ("text", named("string")),
            ],
        ),
        record("Point", &[("x", named("int32")), ("y", named("int32"))]),
        record("Node", &[("value", named("int32")), ("next", optional(named("Node")))]),
        decl(
            "Shape",
            TypeBody::Sum(vec![
                variant("Circle", &[("radius", named("float64"))]),
                variant("Rect", &[("w", named("int32")), ("label", named("string"))]),
                variant("Tag", &[("label", named("string"))]),
                variant("Empty", &[]),
            ]),
        ),
        function("consume"),
    ];
    let modules = vec![LoadedModule {
        path: vec!["main".to_string()],
        ast: Module { imports: vec![], items },
    }];
    let (program, errors) = lower(&modules);
    assert!(errors.is_empty(), "{errors:?}");
    program
}

fn nominal(p: &Program, name: &str) -> NominalType {
    p.types.iter().find(|(k, _)| k == name).expect("type").1.nominal_ref()
}

fn ty(p: &Program, name: &str) -> Type {
    p.types.iter().find(|(k, _)| k == name).expect("type").1.type_ref()
}

/// A record type as a constructed value has it: with the types of its fields.
fn constructed(p: &Program, name: &str) -> Type {
    let info = &p.types.iter().find(|(k, _)| k == name).expect("type").1;
    let TypeKind::Record { fields, .. } = &info.kind else {
        panic!("a record");
    };
    let mut s = Substitution::empty();
    for f in fields {
        s.insert(&f.name, f.resolved_ty.clone().expect("a type"));
    }
    Type::Record(NominalType::with_substitution(info.id, name, s))
}

fn strings(v: &[&str]) -> Vec<String> {
    v.iter().map(|s| s.to_string()).collect()
}

fn i32t() -> Type {
    Type::Int(IntKind::I32)
}

fn f64t() -> Type {
    Type::Float(FloatKind::F64)
}

fn nullable(t: Type) -> Type {
    Type::Nullable(Box::new(t))
}

fn slice(t: Type) -> Type {
    Type::Slice(Box::new(t))
}

// ---- layouts ----

#[test]
fn sizes_and_alignment() {
    assert_eq!(type_size_align(&Type::Bool), (1, 1));
    assert_eq!(type_size_align(&Type::Int(IntKind::U16)), (2, 2));
    assert_eq!(type_size_align(&i32t()), (4, 4));
    assert_eq!(type_size_align(&Type::Float(FloatKind::F32)), (4, 4));
    assert_eq!(type_size_align(&f64t()), (8, 8));
    assert_eq!(type_size_align(&Type::Str), (8, 8));
    assert_eq!(align_up(17, 8), 24);
    assert_eq!(align_up(16, 8), 16);
    assert_eq!(int_bits_of(IntKind::U32), 32);
    assert!(int_signed(IntKind::I8) && !int_signed(IntKind::U8));
    assert!(ty_is_signed(&i32t()) && !ty_is_signed(&Type::Bool));
    let tags: Vec<i64> = [
        IntKind::I8,
        IntKind::I16,
        IntKind::I32,
        IntKind::I64,
        IntKind::U8,
        IntKind::U16,
        IntKind::U32,
        IntKind::U64,
    ]
    .into_iter()
    .map(int_runtime_tag)
    .collect();
    let mut distinct = tags.clone();
    distinct.sort();
    distinct.dedup();
    assert_eq!(distinct.len(), 8, "{tags:?}");
}

#[test]
fn records_are_laid_out_in_order_with_padding() {
    let p = program();
    let (fields, size) = record_layout(&p, &nominal(&p, "Mixed")).expect("a layout");
    let offsets: Vec<(&str, u64)> = fields.iter().map(|f| (f.0.as_str(), f.2)).collect();
    assert_eq!(offsets, vec![("flag", 16), ("big", 24), ("small", 32), ("text", 40)]);
    assert_eq!(size, 48);
}

#[test]
fn variants_share_the_object_of_their_sum() {
    let p = program();
    let shape = nominal(&p, "Shape");
    let (tag, fields) = variant_layout(&p, &shape, "Rect").expect("a layout");
    assert_eq!(tag, 1);
    let offsets: Vec<(&str, u64)> = fields.iter().map(|f| (f.0.as_str(), f.2)).collect();
    assert_eq!(offsets, vec![("w", 24), ("label", 32)]);
    assert_eq!(sum_total_size(&p, &shape), 40);
    assert_eq!(variant_layout(&p, &shape, "Oval"), None);
    let all = sum_variant_fields(&p, &shape);
    let tags: Vec<(i32, &str)> = all.iter().map(|v| (v.0, v.1.as_str())).collect();
    assert_eq!(tags, vec![(0, "Circle"), (1, "Rect"), (2, "Tag"), (3, "Empty")]);
    for (_, _, fields) in &all {
        for (_, t, offset) in fields {
            assert!(offset + type_size_align(t).0 <= 40);
        }
    }
}

#[test]
fn tuples_and_closures_are_laid_out() {
    let ts = vec![Type::Bool, i32t(), Type::Str, Type::Bool];
    assert_eq!(tuple_layout(&ts), (vec![16, 20, 24, 32], 40));
    assert_eq!(closure_layout(&ts), (vec![32, 36, 40, 48], 56));
    assert_eq!(tuple_layout(&vec![]), (vec![], 16));
}

#[test]
fn managed_and_traced_types() {
    let p = program();
    for t in [Type::Str, ty(&p, "Mixed"), ty(&p, "Shape"), slice(i32t())] {
        assert!(is_managed_heap(&t) && is_traced(&t), "{t:?}");
    }
    for t in [Type::Bool, i32t(), f64t(), Type::Void] {
        assert!(!is_traced(&t), "{t:?}");
    }
    assert!(is_traced(&nullable(i32t())));
    assert_eq!(elem_of(&slice(i32t())), i32t());
    assert_eq!(
        unwrap_copy_wrappers(&Type::Mut(Box::new(Type::ConstOf(Box::new(i32t()))))),
        &i32t()
    );
}

// ---- arithmetic ----

#[derive(Clone, Copy)]
struct Word {
    width: u32,
    bits: u64,
}

fn mask(width: u32) -> u64 {
    if width == 64 {
        u64::MAX
    } else {
        (1 << width) - 1
    }
}

fn word(width: u32, n: i128) -> Word {
    Word { width, bits: (n as u64) & mask(width) }
}

fn signed(w: Word) -> i128 {
    if w.bits >> (w.width - 1) == 1 {
        w.bits as i128 - (1i128 << w.width)
    } else {
        w.bits as i128
    }
}

fn compared(c: Compare, a: Word, b: Word) -> bool {
    match c {
        Compare::Eq => a.bits == b.bits,
        Compare::Ne => a.bits != b.bits,
        Compare::SignedLt => signed(a) < signed(b),
        Compare::SignedGt => signed(a) > signed(b),
        Compare::SignedLe => signed(a) <= signed(b),
        Compare::SignedGe => signed(a) >= signed(b),
        Compare::UnsignedLt => a.bits < b.bits,
        Compare::UnsignedGt => a.bits > b.bits,
        Compare::UnsignedLe => a.bits <= b.bits,
        Compare::UnsignedGe => a.bits >= b.bits,
    }
}

/// A machine that refuses what is undefined.
fn run(steps: &[Step], x: Word, y: Word) -> Word {
    let mut r = vec![x, y];
    for s in steps {
        let w = match *s {
            Step::Const(width, bits) => Word { width, bits },
            Step::Add(a, b) => word(r[a].width, r[a].bits as i128 + r[b].bits as i128),
            Step::Sub(a, b) => word(r[a].width, r[a].bits as i128 - r[b].bits as i128),
            Step::Mul(a, b) => word(
                r[a].width,
                r[a].bits.wrapping_mul(r[b].bits) as i128,
            ),
            Step::SignedDiv(a, b) => {
                assert!(r[b].bits != 0, "division by zero");
                let min = -(1i128 << (r[a].width - 1));
                assert!(!(signed(r[a]) == min && signed(r[b]) == -1), "overflow");
                word(r[a].width, signed(r[a]) / signed(r[b]))
            }
            Step::SignedRem(a, b) => {
                assert!(r[b].bits != 0, "division by zero");
                let min = -(1i128 << (r[a].width - 1));
                assert!(!(signed(r[a]) == min && signed(r[b]) == -1), "overflow");
                word(r[a].width, signed(r[a]) % signed(r[b]))
            }
            Step::UnsignedDiv(a, b) => word(r[a].width, (r[a].bits / r[b].bits) as i128),
            Step::UnsignedRem(a, b) => word(r[a].width, (r[a].bits % r[b].bits) as i128),
            Step::And(a, b) => word(r[a].width, (r[a].bits & r[b].bits) as i128),
            Step::Or(a, b) => word(r[a].width, (r[a].bits | r[b].bits) as i128),
            Step::Xor(a, b) => word(r[a].width, (r[a].bits ^ r[b].bits) as i128),
            Step::Shl(a, b) => {
                assert!(r[b].bits < r[a].width as u64, "shift too far");
                word(r[a].width, (r[a].bits << r[b].bits) as i128)
            }
            Step::SignedShr(a, b) => {
                assert!(r[b].bits < r[a].width as u64, "shift too far");
                word(r[a].width, signed(r[a]) >> r[b].bits)
            }
            Step::UnsignedShr(a, b) => {
                assert!(r[b].bits < r[a].width as u64, "shift too far");
                word(r[a].width, (r[a].bits >> r[b].bits) as i128)
            }
            Step::Comparison(c, a, b) => word(1, compared(c, r[a], r[b]) as i128),
            Step::Select(c, a, b) => {
                if r[c].bits == 1 {
                    r[a]
                } else {
                    r[b]
                }
            }
            Step::SignExtend(a, width) => word(width, signed(r[a])),
            Step::ZeroExtend(a, width) => word(width, r[a].bits as i128),
            Step::Truncate(a, width) => word(width, r[a].bits as i128),
        };
        r.push(w);
    }
    *r.last().unwrap()
}

fn compute(op: BinOp, k: IntKind, width: u32, x: i128, y: i128) -> i128 {
    let code = int_code(op, k).expect("code");
    let w = run(&code.steps, word(width, x), word(width, y));
    if int_signed(k) && w.width > 1 {
        signed(w)
    } else {
        w.bits as i128
    }
}

#[test]
fn integer_code_computes_wrapping_arithmetic() {
    for x in [i32::MIN, -7, -1, 0, 1, 5, 31, i32::MAX] {
        for y in [i32::MIN, -2, -1, 0, 1, 3, 31, 32, i32::MAX] {
            let run = |op| compute(op, IntKind::I32, 32, x as i128, y as i128);
            assert_eq!(run(BinOp::Add), x.wrapping_add(y) as i128);
            assert_eq!(run(BinOp::Sub), x.wrapping_sub(y) as i128);
            assert_eq!(run(BinOp::Mul), x.wrapping_mul(y) as i128);
            assert_eq!(run(BinOp::BitAnd), (x & y) as i128);
            assert_eq!(run(BinOp::BitXor), (x ^ y) as i128);
            assert_eq!(run(BinOp::Lt), (x < y) as i128);
            assert_eq!(run(BinOp::Ge), (x >= y) as i128);
            if y != 0 {
                assert_eq!(run(BinOp::Div), x.wrapping_div(y) as i128, "{x} / {y}");
                assert_eq!(run(BinOp::Rem), x.wrapping_rem(y) as i128, "{x} % {y}");
            }
        }
    }
}

#[test]
fn unsigned_code_computes_unsigned_arithmetic() {
    for x in [0u8, 1, 7, 128, 255] {
        for y in [1u8, 2, 9, 200] {
            let run = |op| compute(op, IntKind::U8, 8, x as i128, y as i128);
            assert_eq!(run(BinOp::Add), x.wrapping_add(y) as i128);
            assert_eq!(run(BinOp::Sub), x.wrapping_sub(y) as i128);
            assert_eq!(run(BinOp::Div), (x / y) as i128);
            assert_eq!(run(BinOp::Rem), (x % y) as i128);
            assert_eq!(run(BinOp::Gt), (x > y) as i128);
        }
    }
}

/// Shifts never reach the machine with an amount that it leaves undefined.
#[test]
fn shifts_are_defined_for_every_amount() {
    for k in [IntKind::I8, IntKind::U8] {
        for x in [-128i128, -1, 0, 1, 100] {
            for y in [-1i128, 0, 1, 7, 8, 9, 127] {
                compute(BinOp::Shl, k, 8, x, y);
                compute(BinOp::Shr, k, 8, x, y);
            }
        }
    }
    assert_eq!(compute(BinOp::Shl, IntKind::I8, 8, 3, 2), 12);
    assert_eq!(compute(BinOp::Shr, IntKind::I8, 8, -8, 1), -4);
    assert_eq!(compute(BinOp::Shr, IntKind::U8, 8, 248, 1), 124);
}

#[test]
fn divisions_trap_on_zero() {
    assert!(int_code(BinOp::Div, IntKind::I64).unwrap().trap_on_zero);
    assert!(int_code(BinOp::Rem, IntKind::U8).unwrap().trap_on_zero);
    assert!(!int_code(BinOp::Add, IntKind::I64).unwrap().trap_on_zero);
    assert_eq!(int_code(BinOp::And, IntKind::I64), None);
    assert_eq!(int_code(BinOp::Or, IntKind::I64), None);
}

#[test]
fn comparisons_follow_signedness() {
    assert!(codegen_is_int_cmp(BinOp::Le) && !codegen_is_int_cmp(BinOp::Add));
    assert_eq!(int_predicate(BinOp::Lt, true), Compare::SignedLt);
    assert_eq!(int_predicate(BinOp::Lt, false), Compare::UnsignedLt);
    assert_eq!(int_predicate(BinOp::Ne, true), Compare::Ne);
    assert_eq!(float_predicate(BinOp::Ne), FloatCompare::NeOrNan);
    assert_eq!(float_predicate(BinOp::Ge), FloatCompare::Ge);
}

// ---- operators and conversions ----

#[test]
fn operators_by_operand_type() {
    let p = program();
    assert_eq!(bin_op(BinOp::Add, &Type::Str), BinPlan::StrConcat);
    assert_eq!(bin_op(BinOp::Ne, &Type::Str), BinPlan::StrEq(true));
    assert_eq!(bin_op(BinOp::Sub, &Type::Str), BinPlan::Unit);
    assert_eq!(bin_op(BinOp::Mul, &f64t()), BinPlan::FloatArith(BinOp::Mul));
    assert_eq!(bin_op(BinOp::Lt, &f64t()), BinPlan::FloatCompare(FloatCompare::Lt));
    assert_eq!(bin_op(BinOp::Rem, &f64t()), BinPlan::Unit);
    assert_eq!(bin_op(BinOp::Eq, &Type::Bool), BinPlan::Bool(Compare::Eq));
    assert_eq!(bin_op(BinOp::Eq, &ty(&p, "Mixed")), BinPlan::Pointers(false));
    assert_eq!(bin_op(BinOp::Ne, &nullable(i32t())), BinPlan::Pointers(true));
    assert!(matches!(bin_op(BinOp::Add, &i32t()), BinPlan::Int(_)));
    assert_eq!(un_op(UnaryOp::Neg, &f64t()), UnPlan::FloatNeg);
    assert_eq!(un_op(UnaryOp::Neg, &i32t()), UnPlan::IntNeg);
    assert_eq!(un_op(UnaryOp::Not, &nullable(i32t())), UnPlan::IsNull);
    assert_eq!(un_op(UnaryOp::Not, &Type::Bool), UnPlan::Not);
    assert_eq!(truthy(&Type::Bool), Truth::Itself);
    assert_eq!(truthy(&nullable(i32t())), Truth::NotNull);
    assert_eq!(truthy(&i32t()), Truth::Always);
}

#[test]
fn coercions_step_by_step() {
    let i8t = Type::Int(IntKind::I8);
    let u8t = Type::Int(IntKind::U8);
    assert_eq!(coerce(&i8t, &i32t()), vec![Conv::SignExtend(32)]);
    assert_eq!(coerce(&u8t, &i32t()), vec![Conv::ZeroExtend(32)]);
    assert_eq!(coerce(&i32t(), &u8t), vec![Conv::Truncate(8)]);
    assert_eq!(coerce(&i8t, &u8t), vec![]);
    assert_eq!(coerce(&i32t(), &f64t()), vec![Conv::SignedToFloat(FloatKind::F64)]);
    assert_eq!(coerce(&u8t, &f64t()), vec![Conv::UnsignedToFloat(FloatKind::F64)]);
    assert_eq!(coerce(&Type::Float(FloatKind::F32), &f64t()), vec![Conv::FloatExtend]);
    assert_eq!(
        coerce(&i8t, &nullable(i32t())),
        vec![Conv::SignExtend(32), Conv::Wrap(i32t())]
    );
    assert_eq!(coerce(&nullable(i32t()), &i32t()), vec![Conv::Unwrap(i32t())]);
    assert_eq!(coerce(&nullable(i32t()), &nullable(i32t())), vec![]);
    for t in [Type::Bool, i32t(), f64t(), Type::Str] {
        assert_eq!(coerce(&t, &t), vec![]);
    }
}

#[test]
fn runtime_conversions() {
    let c = convert(&i32t(), "parse").unwrap();
    assert_eq!((c.symbol, c.parse, c.narrow), ("pp_conv_int_parse", true, false));
    assert_eq!(c.tag, int_runtime_tag(IntKind::I32));
    let c = convert(&Type::Float(FloatKind::F32), "from").unwrap();
    assert_eq!((c.symbol, c.tag, c.parse, c.narrow), ("pp_conv_float_from", 16, false, true));
    let c = convert(&f64t(), "parse").unwrap();
    assert_eq!((c.symbol, c.tag, c.narrow), ("pp_conv_float_parse", 17, false));
    assert_eq!(convert(&Type::Str, "parse"), None);
    assert_eq!(
        conv_from_args(&Type::Int(IntKind::I8)),
        (FromArg::Int, vec![Conv::SignExtend(64)])
    );
    assert_eq!(
        conv_from_args(&Type::Float(FloatKind::F32)),
        (FromArg::Float, vec![Conv::FloatExtend])
    );
    assert_eq!(conv_from_args(&Type::Str), (FromArg::Neither, vec![]));
    assert_eq!(float_builtin("_float_pow"), Some("llvm.pow.f64"));
    assert_eq!(float_builtin("_float_sin"), None);
}

#[test]
fn plugin_slots_and_results() {
    assert_eq!(plugin_slot(&Type::Bool), Slot::ZeroExtended);
    assert_eq!(plugin_slot(&i32t()), Slot::SignExtended);
    assert_eq!(plugin_slot(&f64t()), Slot::Bits);
    assert_eq!(plugin_slot(&Type::Str), Slot::Address);
    assert_eq!(plugin_result(&Type::Void), Shape::Unit);
    assert_eq!(plugin_result(&Type::Bool), Shape::NotZero);
    assert_eq!(plugin_result(&i32t()), Shape::Raw);
}

// ---- objects ----

/// What a record is made from is read where it was stored.
#[test]
fn records_read_back_what_they_are_made_from() {
    let p = program();
    let mixed = constructed(&p, "Mixed");
    let given = strings(&["text", "big", "unknown"]);
    let plan = make_record(&p, &mixed, &given).expect("a plan");
    assert_eq!(plan, ObjectPlan { size: 48, stores: vec![(1, 24), (0, 40)], registered: true });
    for (k, offset) in &plan.stores {
        assert_eq!(store_field(&p, &mixed, &given[*k]), Some(*offset));
        let load = load_field(&p, &mixed, &given[*k]).load;
        assert!(matches!(load, Load::At(_, o) if o == *offset), "{load:?}");
    }
    assert_eq!(load_field(&p, &mixed, "unknown").load, Load::Null);
    assert_eq!(make_record(&p, &i32t(), &given), None);
    let (fields, _) = record_layout(&p, &nominal(&p, "Mixed")).unwrap();
    assert_eq!(field_stores(&fields, &strings(&["small"])), vec![(0, 32)]);
}

#[test]
fn variants_match_and_read_back() {
    let p = program();
    let shape = ty(&p, "Shape");
    let given = strings(&["label", "w"]);
    let plan = make_variant(&p, &shape, "Rect", &given).expect("a plan");
    assert_eq!(plan, VariantPlan { size: 40, tag: 1, stores: vec![(1, 24), (0, 32)] });
    assert_eq!(pattern_matches(&p, &shape, "Rect"), Matching::Tag(1));
    assert_eq!(pattern_tag(&p, &nominal(&p, "Shape"), "Tag"), Some(2));
    assert_eq!(pattern_matches(&p, &shape, "Oval"), Matching::Never);
    assert_eq!(pattern_matches(&p, &ty(&p, "Mixed"), "Mixed"), Matching::Always);
    assert_eq!(load_field(&p, &shape, "Rect.label").load, Load::At(Type::Str, 32));
    assert_eq!(load_field(&p, &shape, "Rect.w").load, Load::At(i32t(), 24));
    let shared = load_field(&p, &shape, "label");
    assert_eq!(shared.load, Load::ByTag(Type::Str, 32));
    assert_eq!(shared.cases, vec![(1, 32), (2, 24)]);
    assert_eq!(load_field(&p, &shape, "area").load, Load::Unit);
    assert_eq!(make_variant(&p, &shape, "Oval", &given), None);
    assert_eq!(make_variant(&p, &i32t(), "Rect", &given), None);
}

#[test]
fn tuples_cells_and_closures() {
    let ts = vec![Type::Bool, Type::Str];
    let t = make_tuple(&ts);
    assert_eq!((t.size, t.offsets, t.registered), (32, vec![16, 24], true));
    assert!(!make_tuple(&vec![i32t()]).registered);
    assert_eq!(tuple_field(&ts, 1), Some(24));
    assert_eq!(tuple_field(&ts, 2), None);
    assert_eq!(
        make_cell(&i32t(), false),
        CellPlan { size: 24, retain: false, registered: false }
    );
    assert_eq!(make_cell(&Type::Str, false), CellPlan { size: 24, retain: true, registered: true });
    assert_eq!(make_cell(&Type::Str, true), CellPlan { size: 24, retain: false, registered: true });
    assert_eq!(nullable_unwrap(&i32t()), Zero::Int);
    assert_eq!(nullable_unwrap(&f64t()), Zero::Float);
    assert_eq!(nullable_unwrap(&Type::Str), Zero::Null);
    let fun = Type::Fun(vec![], Box::new(Type::Void));
    let c = make_closure(&fun, &ts).expect("a plan");
    assert_eq!((c.size, c.captures), (48, vec![32, 40]));
    assert_eq!((CODE_AT, DROP_AT), (16, 24));
    assert_eq!(make_closure(&i32t(), &ts), None);
}

#[test]
fn index_checks() {
    assert_eq!(int_arg_i64(1), Widening::Zeros);
    assert_eq!(sext_to_i64(32), Widening::Sign);
    assert_eq!(sext_to_i64(64), Widening::Keep);
    let read = bounds_check(32);
    assert_eq!((read.widening, read.message), (Widening::Zeros, "array index out of bounds"));
    let remove = remove_check(32);
    assert_eq!(
        (remove.widening, remove.message),
        (Widening::Sign, "array remove index out of bounds")
    );
    // Widened either way, a negative index is no index of an array.
    assert!((-1i32) as u32 as u64 >= 5);
    assert!((-1i32) as i64 as u64 >= 5);
}

#[test]
fn locals_live_where_they_are_captured() {
    let types = vec![i32t(), Type::Str, Type::Void, Type::Bool];
    assert_eq!(
        local_homes(&types, &vec![3, 1], true),
        vec![
            Home::Stack { nulled: false },
            Home::Capture(40),
            Home::Nowhere,
            Home::Capture(32)
        ]
    );
    assert_eq!(
        local_homes(&types, &vec![], false),
        vec![
            Home::Stack { nulled: false },
            Home::Stack { nulled: true },
            Home::Nowhere,
            Home::Stack { nulled: false }
        ]
    );
    assert_eq!(param_index(2, true), 3);
    assert_eq!(param_index(2, false), 2);
}

#[test]
fn programs_run_in_order() {
    let inits = strings(&["init.a", "init.b"]);
    assert_eq!(
        execute(true, &inits, &strings(&["g"])),
        Ok(vec![
            RunStep::Call("init.a".to_string()),
            RunStep::Call("init.b".to_string()),
            RunStep::Freeze,
            RunStep::Call("main".to_string()),
            RunStep::Join,
            RunStep::Collect,
        ])
    );
    let calm = execute(true, &inits, &vec![]).unwrap();
    assert!(!calm.contains(&RunStep::Freeze));
    assert_eq!(execute(false, &inits, &vec![]), Err(NOT_FINALIZED.to_string()));
    assert_eq!(emit_print(true), "pp_println_str");
    assert_eq!(emit_print(false), "pp_print_str");
}

// ---- tracing, dropping, copying ----

#[test]
fn destructors_release_what_collection_follows() {
    let p = program();
    let node = constructed(&p, "Node");
    let traced = trace_plan(&p, &node).expect("a node refers to others");
    assert_eq!(traced.fixed.len(), 1);
    assert!(matches!(traced.fixed[0], (Type::Nullable(_), 24)), "{traced:?}");
    let dropped = drop_plan(&p, &node);
    assert_eq!(dropped.children, traced);
    assert!(!dropped.buffer);
    let shape = trace_plan(&p, &ty(&p, "Shape")).unwrap();
    let held: Vec<(i32, usize)> = shape.variants.iter().map(|v| (v.0, v.1.len())).collect();
    assert!(held.contains(&(1, 1)) && held.contains(&(2, 1)), "{held:?}");
    assert_eq!(trace_plan(&p, &constructed(&p, "Point")), None);
    assert_eq!(trace_plan(&p, &slice(i32t())), None);
    assert_eq!(trace_plan(&p, &slice(Type::Str)).unwrap().elem, Some(Type::Str));
    assert!(drop_plan(&p, &slice(i32t())).buffer);
}

/// A tuple's elements are followed by collection but not released with it.
#[test]
fn tuples_are_followed_but_not_released() {
    let p = program();
    let t = Type::Tuple(vec![Type::Str, i32t()]);
    assert_eq!(trace_plan(&p, &t).unwrap().fixed, vec![(Type::Str, 16)]);
    assert_eq!(drop_plan(&p, &t).children.fixed, vec![]);
}

#[test]
fn closures_release_their_captures() {
    let ts = vec![i32t(), Type::Str];
    assert_eq!(closure_drop_plan(&ts), vec![(Type::Str, 40)]);
    assert_eq!(closure_drop_name(&ts), closure_drop_name(&vec![i32t(), Type::Str]));
    assert_ne!(closure_drop_name(&ts), closure_drop_name(&vec![Type::Str, i32t()]));
}

/// What a copy moves to where, and whether the value goes through a copy function.
fn moves(ms: &[Move]) -> Vec<(u64, u64, bool)> {
    ms.iter().map(|m| (m.from, m.to, m.by.is_some())).collect()
}

#[test]
fn copies_by_type() {
    let p = program();
    let CopyRoutine::Fresh(size, ms) = copy_routine(&p, &ty(&p, "Mixed")) else {
        panic!("a record");
    };
    assert_eq!(size, 48);
    assert_eq!(
        moves(&ms),
        vec![(16, 16, false), (24, 24, false), (32, 32, false), (40, 40, true)]
    );
    assert_eq!(ms[3].by, Some(Type::Str));
    let CopyRoutine::ByTag(size, variants) = copy_routine(&p, &ty(&p, "Shape")) else {
        panic!("a sum");
    };
    assert_eq!(size, sum_total_size(&p, &nominal(&p, "Shape")));
    assert_eq!(variants.iter().map(|v| v.0).collect::<Vec<i32>>(), vec![0, 1, 2, 3]);
    assert_eq!(moves(&variants[2].1), vec![(24, 24, true)]);
    assert_eq!(moves(&variants[3].1), vec![]);
    assert_eq!(
        copy_routine(&p, &nullable(i32t())),
        CopyRoutine::Cell(24, Move { from: 16, ty: i32t(), by: None, to: 16 })
    );
    assert_eq!(copy_routine(&p, &slice(i32t())), CopyRoutine::Elements(4, None));
    assert_eq!(copy_routine(&p, &slice(Type::Str)), CopyRoutine::Elements(8, Some(Type::Str)));
    assert_eq!(copy_routine(&p, &Type::Str), CopyRoutine::Share);
    let absent = Type::Record(NominalType::with_substitution(999, "Absent", Substitution::empty()));
    assert_eq!(copy_routine(&p, &absent), CopyRoutine::Unit);
    assert_eq!(deep_copy(&i32t()), None);
    assert_eq!(deep_copy(&Type::Mut(Box::new(Type::Str))), Some(Type::Str));
}

/// Each element of a copied tuple stands where the original's stood.
#[test]
fn tuples_are_copied_in_place() {
    let p = program();
    let t = Type::Tuple(vec![Type::Bool, Type::Str, i32t()]);
    let CopyRoutine::Fresh(size, ms) = copy_routine(&p, &t) else {
        panic!("a tuple");
    };
    assert_eq!(size, 40);
    assert_eq!(moves(&ms), vec![(16, 16, false), (24, 24, true), (32, 32, false)]);
}

/// The last reference to an object releases what it holds, then frees it.
#[test]
fn destructors_act_in_order() {
    let p = program();
    assert_eq!(
        destructor(&p, &slice(Type::Str)),
        vec![
            Action::LeaveIfNull,
            Action::Decrement,
            Action::ReachElements(Type::Str),
            Action::FreeBuffer,
            Action::Free,
        ]
    );
    assert_eq!(
        destructor(&p, &slice(i32t())),
        vec![Action::LeaveIfNull, Action::Decrement, Action::FreeBuffer, Action::Free]
    );
    assert_eq!(
        destructor(&p, &nullable(Type::Str)),
        vec![
            Action::LeaveIfNull,
            Action::Decrement,
            Action::Reach(Type::Str, 16),
            Action::Free,
        ]
    );
    let shape = destructor(&p, &ty(&p, "Shape"));
    assert_eq!(shape.len(), 4);
    let Action::ReachByTag(variants) = &shape[2] else {
        panic!("by tag");
    };
    assert!(variants.contains(&(2, vec![(Type::Str, 24)])), "{variants:?}");
    assert!(variants.iter().all(|v| v.0 != 3), "{variants:?}");
    assert_eq!(
        closure_destructor(&vec![i32t(), Type::Str]),
        vec![
            Action::LeaveIfNull,
            Action::Decrement,
            Action::Reach(Type::Str, 40),
            Action::Free,
        ]
    );
}

/// Tracing follows references and changes nothing.
#[test]
fn tracers_only_follow() {
    let p = program();
    assert_eq!(tracer(&p, &slice(i32t())), None);
    assert_eq!(
        tracer(&p, &slice(Type::Str)),
        Some(vec![Action::LeaveIfNull, Action::ReachElements(Type::Str)])
    );
    assert_eq!(
        tracer(&p, &Type::Tuple(vec![Type::Str, i32t()])),
        Some(vec![Action::LeaveIfNull, Action::Reach(Type::Str, 16)])
    );
}

// ---- rendering ----

#[test]
fn values_are_rendered_by_type() {
    let p = program();
    assert_eq!(to_string(&Type::Str), vec![TextStep::Own]);
    assert_eq!(to_string(&Type::Bool), vec![TextStep::Bool]);
    assert_eq!(to_string(&i32t()), vec![TextStep::Int(true)]);
    assert_eq!(to_string(&Type::Int(IntKind::U8)), vec![TextStep::Int(false)]);
    assert_eq!(to_string(&f64t()), vec![TextStep::Float]);
    assert_eq!(to_string(&nullable(Type::Str)), vec![TextStep::Inner(Type::Str, true)]);
    assert_eq!(to_string(&nullable(i32t())), vec![TextStep::Inner(i32t(), false)]);
    let text = |s: &str| TextStep::Text(s.to_string());
    assert_eq!(to_string(&slice(i32t())), vec![text("["), TextStep::Each(i32t()), text("]")]);
    assert_eq!(
        to_string(&Type::Tuple(vec![i32t(), Type::Str])),
        vec![
            text("["),
            TextStep::At(i32t(), 16),
            text(", "),
            TextStep::At(Type::Str, 24),
            text("]"),
        ]
    );
    assert_eq!(to_string(&Type::Tuple(vec![])), vec![text("["), text("]")]);
    let mixed = ty(&p, "Mixed");
    assert_eq!(to_string(&mixed), vec![TextStep::Formatted(helper_name("tostr_", &mixed))]);
    assert_eq!(to_string(&Type::Void), vec![text("<opaque>")]);
    let Format::Record(pieces) = format_plan(&p, &ty(&p, "Node")) else {
        panic!("a record");
    };
    let text: String = pieces
        .iter()
        .map(|x| match x {
            Piece::Text(s) => s.clone(),
            Piece::Value(_, offset, _) => format!("<{offset}>"),
        })
        .collect();
    assert_eq!(text, "Node {\n    value: <16>,\n    next: <24>,\n}");
    let Format::Sum(name, variants) = format_plan(&p, &ty(&p, "Shape")) else {
        panic!("a sum");
    };
    assert_eq!(name, "Shape");
    assert_eq!(variants.len(), 4);
    assert_eq!(variants[3].1, vec![Piece::Text("Shape.Empty".to_string())]);
    assert_eq!(format_plan(&p, &i32t()), Format::Constant("int32".to_string()));
}

// ---- symbols and whole-program decisions ----

#[test]
fn symbols_are_sanitized_apart() {
    assert_eq!(sanitize("abc_1"), sanitize("abc_1"));
    assert_ne!(sanitize("a.b"), sanitize("a_b"));
    assert_ne!(mangle_fn("a@b"), mangle_fn("a_b"));
    assert_ne!(mangle_method("A", "b"), mangle_fn("b"));
    assert_ne!(mangle_init(1), mangle_init(2));
    assert_ne!(mangle_closure(1), mangle_closure(11));
    assert_ne!(mangle_global("a"), mangle_global("b"));
    assert_ne!(helper_name("drop_", &i32t()), helper_name("trace_", &i32t()));
    assert_ne!(
        mangle_fn_instance("f", &vec![i32t(), Type::Str]),
        mangle_fn_instance("f", &vec![Type::Str, i32t()])
    );
    // Reference and mutability modes do not make another instance.
    assert_eq!(type_mangle(&Type::Ref(Box::new(i32t()))), type_mangle(&i32t()));
}

#[test]
fn only_globals_that_initializers_alone_write_are_frozen() {
    let globals = vec![
        ("a".to_string(), Type::Str),
        ("b".to_string(), Type::Str),
        ("n".to_string(), i32t()),
    ];
    let fns = vec![
        ("init".to_string(), strings(&["a", "b", "n"])),
        ("f".to_string(), strings(&["b"])),
    ];
    assert_eq!(
        immutable_heap_globals(&globals, &fns, &strings(&["init"])),
        strings(&["a"])
    );
}

#[test]
fn small_functions_are_inlined_and_calls_are_resolved() {
    assert!(!always_inline(0));
    assert!(always_inline(4));
    assert!(!always_inline(5));
    let p = program();
    assert_eq!(deferred_dispatch(&p, "consume"), "consume");
    assert_eq!(deferred_dispatch(&p, "other"), "other");
}

#[test]
fn plugins_are_called_with_words() {
    let args = vec![Type::Bool, i32t(), f64t(), Type::Str];
    let call = plugin_call("pp_plugin_call_int", &args, &Type::Bool);
    assert_eq!(
        call.slots,
        vec![Slot::ZeroExtended, Slot::SignExtended, Slot::Bits, Slot::Address]
    );
    assert_eq!((call.raw, call.shape), (RawResult::Int, Shape::NotZero));
    let call = plugin_call("pp_plugin_call_float", &vec![], &f64t());
    assert_eq!((call.raw, call.shape), (RawResult::Float, Shape::Raw));
    let call = plugin_call("pp_plugin_call_obj", &vec![], &Type::Void);
    assert_eq!((call.raw, call.shape), (RawResult::Object, Shape::Unit));
}

#[test]
fn programs_declare_what_they_hold() {
    let functions = vec![("main".to_string(), false), ("main$0".to_string(), true)];
    let d = begin_program(&functions, &strings(&["main.count"]));
    assert_eq!(d.functions.len(), 2);
    assert_eq!(d.functions[0], (mangle_fn("main"), false));
    assert_eq!(d.functions[1], (mangle_fn("main$0"), true));
    assert_ne!(d.functions[0].0, d.functions[1].0);
    assert_eq!(d.globals, vec![mangle_global("main.count")]);
}

#[test]
fn only_functions_are_called() {
    let returning = |t: Type| Type::Fun(vec![i32t()], Box::new(t));
    assert_eq!(call_indirect(&returning(i32t())), IndirectCall::Result);
    assert_eq!(call_indirect(&returning(Type::Void)), IndirectCall::ThenUnit);
    assert_eq!(call_indirect(&i32t()), IndirectCall::Unit);
}

#[test]
fn arrays_hold_their_elements_side_by_side() {
    let a = make_array(&i32t(), 3);
    assert_eq!((a.elem_size, a.len), (4, 3));
    assert_eq!(a.offsets, vec![0, 4, 8]);
    assert_eq!(make_array(&Type::Str, 2).offsets, vec![0, 8]);
    assert!(make_array(&Type::Str, 0).offsets.is_empty());
}
