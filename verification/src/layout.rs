//! Byte layouts of heap objects: a header, then fields in order at naturally aligned
//! offsets.

use vstd::prelude::*;
use crate::hir::{field_infos_view, type_with_id, variant_infos_view, variant_named, FieldInfo, FieldInfoV, Program, ProgramV, TypeKind, TypeKindV, VariantInfo, VariantInfoV};
use crate::table::{keys_of, lookup};
use crate::text::cat3;
use crate::types::{clone_opt_type, clone_type, opt_type, types_view, FloatKind, IntKind, NominalType, NominalV, Type, TypeV};

verus! {

/// The size of an object header.
pub const HEADER: u64 = 16;

/// Where the payload of a sum starts: after the header, the tag, and padding.
pub const PAYLOAD: u64 = 24;

/// Where the captures of a closure start: after the header and two code pointers.
pub const CAPTURES: u64 = 32;

// ---- scalar facts ----

/// The size and alignment of a value in a layout. Heap references are pointers.
pub open spec fn size_align(t: TypeV) -> (nat, nat) {
    match t {
        TypeV::Bool => (1, 1),
        TypeV::Int(IntKind::I8) => (1, 1),
        TypeV::Int(IntKind::U8) => (1, 1),
        TypeV::Int(IntKind::I16) => (2, 2),
        TypeV::Int(IntKind::U16) => (2, 2),
        TypeV::Int(IntKind::I32) => (4, 4),
        TypeV::Int(IntKind::U32) => (4, 4),
        TypeV::Float(FloatKind::F32) => (4, 4),
        _ => (8, 8),
    }
}

/// The size and alignment, in bytes, of a value in a layout.
pub fn type_size_align(ty: &Type) -> (r: (u64, u64))
    ensures
        r.0 == size_align(ty@).0,
        r.1 == size_align(ty@).1,
        r.0 == r.1,
        r.0 == 1 || r.0 == 2 || r.0 == 4 || r.0 == 8,
{
    match ty {
        Type::Bool => (1, 1),
        Type::Int(k) => match k {
            IntKind::I8 | IntKind::U8 => (1, 1),
            IntKind::I16 | IntKind::U16 => (2, 2),
            IntKind::I32 | IntKind::U32 => (4, 4),
            IntKind::I64 | IntKind::U64 => (8, 8),
        },
        Type::Float(k) => match k {
            FloatKind::F32 => (4, 4),
            FloatKind::F64 => (8, 8),
        },
        _ => (8, 8),
    }
}

/// The least multiple of `align` that is at least `offset`.
pub open spec fn aligned(offset: nat, align: nat) -> nat
    recommends
        align > 0,
{
    ((offset + align - 1) as nat / align) * align
}

/// What alignment does to an offset.
pub proof fn aligned_facts(offset: nat, align: nat)
    requires
        align > 0,
    ensures
        aligned(offset, align) >= offset,
        aligned(offset, align) < offset + align,
        aligned(offset, align) % align == 0,
        offset % align == 0 ==> aligned(offset, align) == offset,
{
    let q = ((offset + align - 1) as nat) / align;
    let r = ((offset + align - 1) as nat) % align;
    assert(offset + align - 1 == q * align + r && r < align) by (nonlinear_arith)
        requires
            align > 0,
            q == ((offset + align - 1) as nat) / align,
            r == ((offset + align - 1) as nat) % align,
    ;
    assert((q * align) % align == 0) by (nonlinear_arith)
        requires
            align > 0,
    ;
    if offset % align == 0 {
        let k = offset / align;
        assert(offset == k * align) by (nonlinear_arith)
            requires
                align > 0,
                offset % align == 0,
                k == offset / align,
        ;
        assert(q == k) by (nonlinear_arith)
            requires
                offset == k * align,
                offset + align - 1 == q * align + r,
                0 <= r < align,
                align > 0,
        ;
    }
}

/// The least multiple of `align` that is at least `offset`.
pub fn align_up(offset: u64, align: u64) -> (r: u64)
    requires
        align > 0,
        offset + align <= u64::MAX,
    ensures
        r == aligned(offset as nat, align as nat),
{
    proof {
        aligned_facts(offset as nat, align as nat);
    }
    ((offset + (align - 1)) / align) * align
}

/// Whether an integer type is signed.
pub open spec fn signed_kind(k: IntKind) -> bool {
    k == IntKind::I8 || k == IntKind::I16 || k == IntKind::I32 || k == IntKind::I64
}

/// Whether an integer type is signed.
pub fn int_signed(k: IntKind) -> (r: bool)
    ensures
        r == signed_kind(k),
{
    matches!(k, IntKind::I8 | IntKind::I16 | IntKind::I32 | IntKind::I64)
}

/// Whether a type is a signed integer type.
pub open spec fn signed_type(t: TypeV) -> bool {
    match t {
        TypeV::Int(k) => signed_kind(k),
        _ => false,
    }
}

/// Whether a type is a signed integer type.
pub fn ty_is_signed(ty: &Type) -> (r: bool)
    ensures
        r == signed_type(ty@),
{
    match ty {
        Type::Int(k) => int_signed(*k),
        _ => false,
    }
}

/// The bit width of an integer type.
pub open spec fn bits(k: IntKind) -> nat {
    8 * size_align(TypeV::Int(k)).0
}

/// The bit width of an integer type.
pub fn int_bits_of(k: IntKind) -> (r: u32)
    ensures
        r == bits(k),
{
    match k {
        IntKind::I8 | IntKind::U8 => 8,
        IntKind::I16 | IntKind::U16 => 16,
        IntKind::I32 | IntKind::U32 => 32,
        IntKind::I64 | IntKind::U64 => 64,
    }
}

/// The runtime tag of an integer type.
pub open spec fn runtime_tag(k: IntKind) -> int {
    match k {
        IntKind::I8 => 8,
        IntKind::I16 => 9,
        IntKind::I32 => 10,
        IntKind::I64 => 11,
        IntKind::U8 => 12,
        IntKind::U16 => 13,
        IntKind::U32 => 14,
        IntKind::U64 => 15,
    }
}

/// The runtime tag of an integer type, passed to the conversion functions.
pub fn int_runtime_tag(k: IntKind) -> (r: i64)
    ensures
        r == runtime_tag(k),
{
    match k {
        IntKind::I8 => 8,
        IntKind::I16 => 9,
        IntKind::I32 => 10,
        IntKind::I64 => 11,
        IntKind::U8 => 12,
        IntKind::U16 => 13,
        IntKind::U32 => 14,
        IntKind::U64 => 15,
    }
}

// ---- managed values ----

/// Whether a value of the type is a reference-counted heap object.
pub open spec fn managed(t: TypeV) -> bool {
    t is Str || t is Record || t is Sum || t is Slice || t is Array || t is Fun || t is Tuple
}

/// Whether a value of the type is a reference-counted heap object.
pub fn is_managed_heap(ty: &Type) -> (r: bool)
    ensures
        r == managed(ty@),
{
    matches!(
        ty,
        Type::Str | Type::Record(..) | Type::Sum(..) | Type::Slice(..) | Type::Array(..)
            | Type::Fun(..) | Type::Tuple(..)
    )
}

/// Whether a value of the type is a heap reference: a managed object, or the cell of
/// a nullable.
pub open spec fn traced(t: TypeV) -> bool {
    managed(t) || t is Nullable
}

/// Whether a value of the type is a heap reference that collection follows and a
/// destructor releases.
pub fn is_traced(ty: &Type) -> (r: bool)
    ensures
        r == traced(ty@),
{
    is_managed_heap(ty) || matches!(ty, Type::Nullable(_))
}

/// Whether a global of the type is stored as a single heap pointer.
pub open spec fn heap_pointer(t: TypeV) -> bool {
    t is Str || t is Record || t is Sum || t is Slice || t is Nullable
}

/// Whether a global of the type is stored as a single heap pointer.
pub fn is_heap_pointer_type(ty: &Type) -> (r: bool)
    ensures
        r == heap_pointer(ty@),
{
    matches!(
        ty,
        Type::Str | Type::Record(..) | Type::Sum(..) | Type::Slice(..) | Type::Nullable(..)
    )
}

/// The type under the wrappers that do not change a value's shape.
pub open spec fn unwrapped(t: TypeV) -> TypeV
    decreases t,
{
    match t {
        TypeV::Mut(inner) => unwrapped(*inner),
        TypeV::Ref(inner) => unwrapped(*inner),
        TypeV::ConstOf(inner) => unwrapped(*inner),
        _ => t,
    }
}

/// The type under the wrappers that do not change a value's shape. A nullable stays:
/// at run time it is a cell around the value.
pub fn unwrap_copy_wrappers(ty: &Type) -> (r: &Type)
    ensures
        r@ == unwrapped(ty@),
    decreases *ty,
{
    match ty {
        Type::Mut(inner) => unwrap_copy_wrappers(inner),
        Type::Ref(inner) => unwrap_copy_wrappers(inner),
        Type::ConstOf(inner) => unwrap_copy_wrappers(inner),
        _ => ty,
    }
}

/// The element type of an array or slice, else `void`.
pub open spec fn element(t: TypeV) -> TypeV {
    match t {
        TypeV::Slice(e) => *e,
        TypeV::Array(e, _) => *e,
        _ => TypeV::Void,
    }
}

/// The element type of an array or slice, else `void`.
pub fn elem_of(ty: &Type) -> (r: Type)
    ensures
        r@ == element(ty@),
{
    match ty {
        Type::Slice(e) => clone_type(e),
        Type::Array(e, _) => clone_type(e),
        _ => Type::Void,
    }
}

// ---- placing fields ----

/// Where the fields of the given types end when placed in order from `start`.
pub open spec fn end_of(ts: Seq<TypeV>, start: nat) -> nat
    decreases ts.len(),
{
    if ts.len() == 0 {
        start
    } else {
        aligned(end_of(ts.drop_last(), start), size_align(ts.last()).1) + size_align(ts.last()).0
    }
}

/// The offset of field `i` when fields of the given types are placed in order from
/// `start`.
pub open spec fn offset_of(ts: Seq<TypeV>, start: nat, i: int) -> nat {
    aligned(end_of(ts.take(i), start), size_align(ts[i]).1)
}

/// The offsets of all fields.
pub open spec fn offsets_of(ts: Seq<TypeV>, start: nat) -> Seq<nat> {
    Seq::new(ts.len(), |i: int| offset_of(ts, start, i))
}

/// Every field is naturally aligned, starts at `start` or later, and ends where the
/// fields placed so far end.
pub proof fn fields_are_aligned(ts: Seq<TypeV>, start: nat, i: int)
    requires
        0 <= i < ts.len(),
    ensures
        offset_of(ts, start, i) % size_align(ts[i]).1 == 0,
        start <= offset_of(ts, start, i),
        offset_of(ts, start, i) + size_align(ts[i]).0 == end_of(ts.take(i + 1), start),
{
    aligned_facts(end_of(ts.take(i), start), size_align(ts[i]).1);
    assert(ts.take(i + 1).drop_last() =~= ts.take(i));
    assert(ts.take(i + 1).last() == ts[i]);
    end_grows(ts, start, 0, i);
    assert(ts.take(0) =~= Seq::<TypeV>::empty());
}

proof fn end_grows(ts: Seq<TypeV>, start: nat, i: int, j: int)
    requires
        0 <= i <= j <= ts.len(),
    ensures
        end_of(ts.take(i), start) <= end_of(ts.take(j), start),
    decreases j - i,
{
    if i < j {
        end_grows(ts, start, i, j - 1);
        assert(ts.take(j).drop_last() =~= ts.take(j - 1));
        aligned_facts(end_of(ts.take(j - 1), start), size_align(ts.take(j).last()).1);
    }
}

/// No two fields overlap, and all lie before the end.
pub proof fn fields_are_disjoint(ts: Seq<TypeV>, start: nat, i: int, j: int)
    requires
        0 <= i < j < ts.len(),
    ensures
        offset_of(ts, start, i) + size_align(ts[i]).0 <= offset_of(ts, start, j),
        offset_of(ts, start, j) + size_align(ts[j]).0 <= end_of(ts, start),
{
    fields_are_aligned(ts, start, i);
    fields_are_aligned(ts, start, j);
    end_grows(ts, start, i + 1, j);
    aligned_facts(end_of(ts.take(j), start), size_align(ts[j]).1);
    end_grows(ts, start, j + 1, ts.len() as int);
    assert(ts.take(ts.len() as int) =~= ts);
}

/// How many fields a layout may have, so that no offset overflows.
pub open spec fn few(n: nat) -> bool {
    n <= 0x0400_0000_0000_0000
}

proof fn end_bound(ts: Seq<TypeV>, start: nat)
    ensures
        end_of(ts, start) <= start + 15 * ts.len(),
    decreases ts.len(),
{
    if ts.len() > 0 {
        end_bound(ts.drop_last(), start);
        aligned_facts(end_of(ts.drop_last(), start), size_align(ts.last()).1);
    }
}

/// The types of some named fields.
pub open spec fn field_types(fs: Seq<(Seq<char>, TypeV)>) -> Seq<TypeV> {
    Seq::new(fs.len(), |i: int| fs[i].1)
}

/// Named fields with their offsets.
pub open spec fn placed(fs: Seq<(Seq<char>, TypeV)>, start: nat) -> Seq<(Seq<char>, TypeV, nat)> {
    Seq::new(fs.len(), |i: int| (fs[i].0, fs[i].1, offset_of(field_types(fs), start, i)))
}

/// The models of named fields.
pub open spec fn pairs(v: Seq<(String, Type)>) -> Seq<(Seq<char>, TypeV)> {
    Seq::new(v.len(), |i: int| (v[i].0@, v[i].1@))
}

/// The models of placed fields.
pub open spec fn placed_view(v: Seq<(String, Type, u64)>) -> Seq<(Seq<char>, TypeV, nat)> {
    Seq::new(v.len(), |i: int| (v[i].0@, v[i].1@, v[i].2 as nat))
}

/// Offsets as numbers.
pub open spec fn nats(v: Seq<u64>) -> Seq<nat> {
    Seq::new(v.len(), |i: int| v[i] as nat)
}

/// Place named fields in order from `start`; the result tells where they end.
pub fn place(fs: Vec<(String, Type)>, start: u64) -> (r: (Vec<(String, Type, u64)>, u64))
    requires
        few(fs.len() as nat),
        start <= 64,
    ensures
        placed_view(r.0@) == placed(pairs(fs@), start as nat),
        r.1 == end_of(field_types(pairs(fs@)), start as nat),
{
    let ghost ps = pairs(fs@);
    let ghost ts = field_types(ps);
    let mut offset: u64 = start;
    let mut out: Vec<(String, Type, u64)> = Vec::new();
    let n = fs.len();
    assert(placed_view(out@) =~= placed(ps, start as nat).take(0));
    assert(ts.take(0) =~= Seq::<TypeV>::empty());
    for i in 0..n
        invariant
            n == fs.len(),
            few(n as nat),
            start <= 64,
            ps == pairs(fs@),
            ts == field_types(ps),
            offset == end_of(ts.take(i as int), start as nat),
            placed_view(out@) == placed(ps, start as nat).take(i as int),
    {
        proof {
            end_bound(ts.take(i as int), start as nat);
            assert(ts.take(i + 1).drop_last() =~= ts.take(i as int));
            assert(ts.take(i + 1).last() == fs[i as int].1@);
            assert(ts[i as int] == fs[i as int].1@);
        }
        let (size, align) = type_size_align(&fs[i].1);
        proof {
            aligned_facts(offset as nat, align as nat);
        }
        offset = align_up(offset, align);
        let ghost before = placed_view(out@);
        let name = fs[i].0.clone();
        let ty = clone_type(&fs[i].1);
        out.push((name, ty, offset));
        proof {
            assert(placed_view(out@) =~= before.push((fs[i as int].0@, fs[i as int].1@, offset as nat)));
            assert(placed(ps, start as nat)[i as int] == (ps[i as int].0, ps[i as int].1, offset as nat));
            assert(placed(ps, start as nat).take(i + 1) =~= placed(ps, start as nat).take(
                i as int,
            ).push(placed(ps, start as nat)[i as int]));
        }
        offset = offset + size;
    }
    proof {
        assert(ts.take(n as int) =~= ts);
        assert(placed(ps, start as nat).take(n as int) =~= placed(ps, start as nat));
    }
    (out, offset)
}

/// Place values of the given types in order from `start`; the result tells where
/// they end.
pub fn place_types(ts: &Vec<Type>, start: u64) -> (r: (Vec<u64>, u64))
    requires
        few(ts.len() as nat),
        start <= 64,
    ensures
        nats(r.0@) == offsets_of(types_view(ts@), start as nat),
        r.1 == end_of(types_view(ts@), start as nat),
{
    let ghost tv = types_view(ts@);
    let mut offset: u64 = start;
    let mut out: Vec<u64> = Vec::new();
    let ghost want = offsets_of(tv, start as nat);
    assert(nats(out@) =~= want.take(0));
    assert(tv.take(0) =~= Seq::<TypeV>::empty());
    for i in 0..ts.len()
        invariant
            few(ts.len() as nat),
            start <= 64,
            tv == types_view(ts@),
            want == offsets_of(tv, start as nat),
            offset == end_of(tv.take(i as int), start as nat),
            nats(out@) == want.take(i as int),
    {
        proof {
            end_bound(tv.take(i as int), start as nat);
            assert(tv.take(i + 1).drop_last() =~= tv.take(i as int));
            assert(tv[i as int] == ts[i as int]@);
            assert(tv.take(i + 1).last() == ts[i as int]@);
        }
        let (size, align) = type_size_align(&ts[i]);
        proof {
            aligned_facts(offset as nat, align as nat);
        }
        offset = align_up(offset, align);
        let ghost before = nats(out@);
        out.push(offset);
        proof {
            assert(nats(out@) =~= before.push(offset as nat));
            assert(want[i as int] == offset);
            assert(want.take(i + 1) =~= want.take(i as int).push(want[i as int]));
        }
        offset = offset + size;
    }
    proof {
        assert(tv.take(ts.len() as int) =~= tv);
        assert(want.take(ts.len() as int) =~= want);
        assert(tv.len() == ts.len());
    }
    (out, offset)
}

/// The size of an object whose fields end at `end`.
pub open spec fn object_size(end: nat) -> nat {
    aligned(end, 8)
}

// ---- tuples and closures ----

/// The offsets of a tuple's elements and the size of the object.
pub fn tuple_layout(elem_types: &Vec<Type>) -> (r: (Vec<u64>, u64))
    requires
        few(elem_types.len() as nat),
    ensures
        nats(r.0@) == offsets_of(types_view(elem_types@), HEADER as nat),
        r.1 == object_size(end_of(types_view(elem_types@), HEADER as nat)),
{
    let (offsets, end) = place_types(elem_types, HEADER);
    proof {
        end_bound(types_view(elem_types@), HEADER as nat);
        assert(types_view(elem_types@).len() == elem_types.len());
    }
    (offsets, align_up(end, 8))
}

/// The offsets of a closure's captures and the size of its environment: a function
/// pointer and a destructor pointer stand before the captures.
pub fn closure_layout(capture_types: &Vec<Type>) -> (r: (Vec<u64>, u64))
    requires
        few(capture_types.len() as nat),
    ensures
        nats(r.0@) == offsets_of(types_view(capture_types@), CAPTURES as nat),
        r.1 == object_size(end_of(types_view(capture_types@), CAPTURES as nat)),
{
    let (offsets, end) = place_types(capture_types, CAPTURES);
    proof {
        end_bound(types_view(capture_types@), CAPTURES as nat);
        assert(types_view(capture_types@).len() == capture_types.len());
    }
    (offsets, align_up(end, 8))
}

// ---- records ----

/// The declared fields of a record type, if the id names one.
pub open spec fn declared_fields(p: ProgramV, id: i32) -> Option<Seq<FieldInfoV>> {
    match type_with_id(p.types, id) {
        Some(info) => match info.kind {
            TypeKindV::Record { fields, .. } => Some(fields),
            _ => None,
        },
        None => None,
    }
}

/// The fields that have a resolved type.
pub open spec fn typed_fields(fs: Seq<FieldInfoV>) -> Seq<(Seq<char>, TypeV)>
    decreases fs.len(),
{
    if fs.len() == 0 {
        Seq::empty()
    } else {
        let rest = typed_fields(fs.drop_last());
        match fs.last().resolved_ty {
            Some(t) => rest.push((fs.last().name, t)),
            None => rest,
        }
    }
}

/// The names of declared fields.
pub open spec fn field_names(fs: Seq<FieldInfoV>) -> Seq<Seq<char>> {
    Seq::new(fs.len(), |i: int| fs[i].name)
}

/// Each name with its type in a substitution, if it has one for all of them.
pub open spec fn all_substituted(ns: Seq<Seq<char>>, s: Seq<(Seq<char>, TypeV)>) -> Option<
    Seq<(Seq<char>, TypeV)>,
>
    decreases ns.len(),
{
    if ns.len() == 0 {
        Some(Seq::empty())
    } else {
        match (all_substituted(ns.drop_last(), s), lookup(s, ns.last())) {
            (Some(rest), Some(t)) => Some(rest.push((ns.last(), t))),
            _ => None,
        }
    }
}

/// The fields of a record with their types. A constructed value has them from its
/// substitution, in declaration order (or in key order when there is no
/// declaration); a bare reference has the declared ones.
pub open spec fn record_pairs(p: ProgramV, n: NominalV) -> Option<Seq<(Seq<char>, TypeV)>> {
    if n.subst.len() == 0 {
        match declared_fields(p, n.id) {
            Some(fs) => Some(typed_fields(fs)),
            None => None,
        }
    } else {
        match type_with_id(p.types, n.id) {
            Some(info) => match info.kind {
                TypeKindV::Record { fields, .. } => all_substituted(field_names(fields), n.subst),
                _ => None,
            },
            None => all_substituted(keys_of(n.subst), n.subst),
        }
    }
}

/// The fields of a record with types and offsets, if it has a layout.
pub open spec fn record_places(p: ProgramV, n: NominalV) -> Option<Seq<(Seq<char>, TypeV, nat)>> {
    match record_pairs(p, n) {
        Some(fs) => Some(placed(fs, HEADER as nat)),
        None => None,
    }
}

/// The size of a record object, if it has a layout.
pub open spec fn record_size(p: ProgramV, n: NominalV) -> Option<nat> {
    match record_pairs(p, n) {
        Some(fs) => Some(object_size(end_of(field_types(fs), HEADER as nat))),
        None => None,
    }
}

fn collect_typed_fields(fs: &Vec<FieldInfo>) -> (r: Vec<(String, Type)>)
    ensures
        pairs(r@) == typed_fields(field_infos_view(fs@)),
{
    let mut out: Vec<(String, Type)> = Vec::new();
    let ghost all = field_infos_view(fs@);
    assert(pairs(out@) =~= typed_fields(all.take(0)));
    for i in 0..fs.len()
        invariant
            all == field_infos_view(fs@),
            pairs(out@) == typed_fields(all.take(i as int)),
    {
        proof {
            assert(all.take(i + 1).drop_last() =~= all.take(i as int));
            assert(all.take(i + 1).last() == fs[i as int]@);
        }
        let ghost before = pairs(out@);
        if let Some(t) = &fs[i].resolved_ty {
            out.push((fs[i].name.clone(), clone_type(t)));
            assert(pairs(out@) =~= before.push((fs[i as int].name@, t@)));
        }
    }
    assert(all.take(fs.len() as int) =~= all);
    out
}

fn substituted_fields(fs: &Vec<FieldInfo>, n: &NominalType) -> (r: Option<Vec<(String, Type)>>)
    ensures
        match r {
            Some(v) => all_substituted(field_names(field_infos_view(fs@)), n@.subst) == Some(
                pairs(v@),
            ),
            None => all_substituted(field_names(field_infos_view(fs@)), n@.subst) is None,
        },
{
    let mut out: Vec<(String, Type)> = Vec::new();
    let mut missing: bool = false;
    let ghost all = field_names(field_infos_view(fs@));
    let ghost s = n@.subst;
    assert(pairs(out@) =~= Seq::<(Seq<char>, TypeV)>::empty());
    for i in 0..fs.len()
        invariant
            all == field_names(field_infos_view(fs@)),
            s == n@.subst,
            missing ==> all_substituted(all.take(i as int), s) is None,
            !missing ==> all_substituted(all.take(i as int), s) == Some(pairs(out@)),
    {
        proof {
            assert(all.take(i + 1).drop_last() =~= all.take(i as int));
            assert(all[i as int] == fs[i as int].name@);
            assert(all.take(i + 1).last() == fs[i as int].name@);
        }
        let ghost before = pairs(out@);
        match n.substitution.get(fs[i].name.as_str()) {
            Some(t) => {
                let ghost tv = t@;
                out.push((fs[i].name.clone(), clone_type(t)));
                assert(pairs(out@) =~= before.push((fs[i as int].name@, tv)));
            },
            None => {
                missing = true;
            },
        }
    }
    assert(all.take(fs.len() as int) =~= all);
    if missing {
        None
    } else {
        Some(out)
    }
}

proof fn own_keys_substituted(s: Seq<(Seq<char>, TypeV)>, i: int)
    requires
        crate::table::sorted_keys(s),
        0 <= i <= s.len(),
    ensures
        all_substituted(keys_of(s).take(i), s) == Some(s.take(i)),
    decreases i,
{
    let ks = keys_of(s);
    if i > 0 {
        own_keys_substituted(s, i - 1);
        assert(ks.take(i).drop_last() =~= ks.take(i - 1));
        assert(ks.take(i).last() == s[i - 1].0);
        crate::table::sorted_distinct(s);
        crate::table::first_pos_unique(ks, s[i - 1].0, i - 1);
        assert(s.take(i) =~= s.take(i - 1).push(s[i - 1]));
        assert(s[i - 1] == (s[i - 1].0, s[i - 1].1));
    } else {
        assert(ks.take(0) =~= Seq::<Seq<char>>::empty());
        assert(s.take(0) =~= Seq::<(Seq<char>, TypeV)>::empty());
    }
}

fn own_fields(n: &NominalType) -> (r: Vec<(String, Type)>)
    ensures
        all_substituted(keys_of(n@.subst), n@.subst) == Some(pairs(r@)),
{
    let entries = n.substitution.iter();
    let mut out: Vec<(String, Type)> = Vec::new();
    let ghost s = n@.subst;
    assert(pairs(out@) =~= s.take(0));
    for i in 0..entries.len()
        invariant
            s == n@.subst,
            entries.len() == s.len(),
            forall|j: int|
                0 <= j < entries.len() ==> (#[trigger] entries[j]).0@ == s[j].0 && entries[j].1@
                    == s[j].1,
            pairs(out@) == s.take(i as int),
    {
        let ghost before = pairs(out@);
        let (name, t) = entries[i];
        out.push((name.to_owned(), clone_type(t)));
        assert(pairs(out@) =~= before.push(s[i as int]));
        assert(s.take(i + 1) =~= s.take(i as int).push(s[i as int]));
    }
    proof {
        own_keys_substituted(s, s.len() as int);
        assert(keys_of(s).take(s.len() as int) =~= keys_of(s));
        assert(s.take(s.len() as int) =~= s);
    }
    out
}

/// The fields of a record with their types.
pub fn record_field_pairs(program: &Program, n: &NominalType) -> (r: Option<Vec<(String, Type)>>)
    ensures
        match r {
            Some(v) => record_pairs(program@, n@) == Some(pairs(v@)),
            None => record_pairs(program@, n@) is None,
        },
{
    if n.substitution.is_empty() {
        match program.type_by_id(n.id) {
            Some(info) => match &info.kind {
                TypeKind::Record { fields, .. } => Some(collect_typed_fields(fields)),
                _ => None,
            },
            None => None,
        }
    } else {
        match program.type_by_id(n.id) {
            Some(info) => match &info.kind {
                TypeKind::Record { fields, .. } => substituted_fields(fields, n),
                _ => None,
            },
            None => Some(own_fields(n)),
        }
    }
}

/// Whether a record has few enough fields to be laid out.
pub open spec fn record_fits(p: ProgramV, n: NominalV) -> bool {
    record_pairs(p, n) matches Some(fs) ==> few(fs.len())
}

/// A record's field names, types and byte offsets, or `None` where it has no layout.
pub fn record_fields(program: &Program, n: &NominalType) -> (r: Option<Vec<(String, Type, u64)>>)
    requires
        record_fits(program@, n@),
    ensures
        match r {
            Some(v) => record_places(program@, n@) == Some(placed_view(v@)),
            None => record_places(program@, n@) is None,
        },
{
    match record_field_pairs(program, n) {
        Some(fs) => {
            assert(pairs(fs@).len() == fs.len());
            let (out, _) = place(fs, HEADER);
            Some(out)
        },
        None => None,
    }
}

/// A record's placed fields and the size of the object.
pub fn record_layout(program: &Program, n: &NominalType) -> (r: Option<(Vec<(String, Type, u64)>, u64)>)
    requires
        record_fits(program@, n@),
    ensures
        match r {
            Some((v, size)) => record_places(program@, n@) == Some(placed_view(v@)) && record_size(
                program@,
                n@,
            ) == Some(size as nat),
            None => record_places(program@, n@) is None,
        },
{
    match record_field_pairs(program, n) {
        Some(fs) => {
            let ghost ps = pairs(fs@);
            assert(pairs(fs@).len() == fs.len());
            let (out, end) = place(fs, HEADER);
            proof {
                end_bound(field_types(ps), HEADER as nat);
            }
            Some((out, align_up(end, 8)))
        },
        None => None,
    }
}

// ---- sums ----

/// The variants of a sum type, if the id names one.
pub open spec fn declared_variants(p: ProgramV, id: i32) -> Option<Seq<VariantInfoV>> {
    match type_with_id(p.types, id) {
        Some(info) => match info.kind {
            TypeKindV::Sum { variants } => Some(variants),
            _ => None,
        },
        None => None,
    }
}

/// The variants of a sum type.
pub fn variants_of<'a>(program: &'a Program, id: i32) -> (r: Option<&'a Vec<VariantInfo>>)
    ensures
        match r {
            Some(v) => declared_variants(program@, id) == Some(variant_infos_view(v@)),
            None => declared_variants(program@, id) is None,
        },
{
    match program.type_by_id(id) {
        Some(info) => match &info.kind {
            TypeKind::Sum { variants } => Some(variants),
            _ => None,
        },
        None => None,
    }
}

/// The type of a variant's field: the substitution's entry `Variant.field`, else the
/// declared type.
pub open spec fn payload_type(n: NominalV, variant: Seq<char>, f: FieldInfoV) -> Option<TypeV> {
    match lookup(n.subst, variant + "."@ + f.name) {
        Some(t) => Some(t),
        None => f.resolved_ty,
    }
}

/// The type of a variant's field.
pub fn variant_field_type(n: &NominalType, variant: &str, fld: &FieldInfo) -> (r: Option<Type>)
    ensures
        opt_type(r) == payload_type(n@, variant@, fld@),
{
    let key = cat3(variant, ".", fld.name.as_str());
    match n.substitution.get(key.as_str()) {
        Some(t) => Some(clone_type(t)),
        None => clone_opt_type(&fld.resolved_ty),
    }
}

/// The typed fields of a variant, if every one has a type.
pub open spec fn payload_pairs(n: NominalV, variant: Seq<char>, fs: Seq<FieldInfoV>) -> Option<
    Seq<(Seq<char>, TypeV)>,
>
    decreases fs.len(),
{
    if fs.len() == 0 {
        Some(Seq::empty())
    } else {
        match (payload_pairs(n, variant, fs.drop_last()), payload_type(n, variant, fs.last())) {
            (Some(rest), Some(t)) => Some(rest.push((fs.last().name, t))),
            _ => None,
        }
    }
}

fn collect_payload(n: &NominalType, v: &VariantInfo) -> (r: Option<Vec<(String, Type)>>)
    ensures
        match r {
            Some(fs) => payload_pairs(n@, v@.name, v@.fields) == Some(pairs(fs@)) && fs.len()
                == v@.fields.len(),
            None => payload_pairs(n@, v@.name, v@.fields) is None,
        },
{
    let mut out: Vec<(String, Type)> = Vec::new();
    let mut missing: bool = false;
    let fs = &v.fields;
    let ghost all = field_infos_view(fs@);
    let ghost nv = n@;
    let ghost name = v.name@;
    assert(pairs(out@) =~= Seq::<(Seq<char>, TypeV)>::empty());
    for i in 0..fs.len()
        invariant
            all == field_infos_view(fs@),
            nv == n@,
            name == v.name@,
            missing ==> payload_pairs(nv, name, all.take(i as int)) is None,
            !missing ==> payload_pairs(nv, name, all.take(i as int)) == Some(pairs(out@))
                && out.len() == i,
    {
        proof {
            assert(all.take(i + 1).drop_last() =~= all.take(i as int));
            assert(all.take(i + 1).last() == fs[i as int]@);
        }
        let ghost before = pairs(out@);
        match variant_field_type(n, v.name.as_str(), &fs[i]) {
            Some(t) => {
                let ghost tv = t@;
                out.push((fs[i].name.clone(), t));
                assert(pairs(out@) =~= before.push((fs[i as int].name@, tv)));
            },
            None => {
                missing = true;
            },
        }
    }
    assert(all.take(fs.len() as int) =~= all);
    if missing {
        None
    } else {
        Some(out)
    }
}

/// The tag and placed fields of a variant, if every field has a type.
pub open spec fn places_of_variant(n: NominalV, v: VariantInfoV) -> Option<
    (i32, Seq<(Seq<char>, TypeV, nat)>),
> {
    match payload_pairs(n, v.name, v.fields) {
        Some(fs) => Some((v.tag, placed(fs, PAYLOAD as nat))),
        None => None,
    }
}

/// The tag and placed fields of the variant of that name.
pub open spec fn variant_places(p: ProgramV, n: NominalV, variant: Seq<char>) -> Option<
    (i32, Seq<(Seq<char>, TypeV, nat)>),
> {
    match declared_variants(p, n.id) {
        Some(vs) => match variant_named(vs, variant) {
            Some(v) => places_of_variant(n, v),
            None => None,
        },
        None => None,
    }
}

/// Whether every variant of a sum has few enough fields to be laid out.
pub open spec fn sum_fits(p: ProgramV, n: NominalV) -> bool {
    declared_variants(p, n.id) matches Some(vs) ==> all_few(vs)
}

/// Whether every variant has few enough fields to be laid out.
pub open spec fn all_few(vs: Seq<VariantInfoV>) -> bool {
    forall|i: int| 0 <= i < vs.len() ==> few((#[trigger] vs[i]).fields.len())
}

/// Lay out one variant's fields after the tag.
pub fn variant_layout(program: &Program, n: &NominalType, variant: &str) -> (r: Option<
    (i32, Vec<(String, Type, u64)>),
>)
    requires
        sum_fits(program@, n@),
    ensures
        match r {
            Some((tag, fs)) => variant_places(program@, n@, variant@) == Some(
                (tag, placed_view(fs@)),
            ),
            None => variant_places(program@, n@, variant@) is None,
        },
{
    match program.type_by_id(n.id) {
        Some(info) => match &info.kind {
            TypeKind::Sum { variants } => {
                let ghost vs = variant_infos_view(variants@);
                match info.variant(variant) {
                    Some(v) => {
                        proof {
                            assert(variant_named(vs, variant@) == Some(v@));
                            let k = crate::table::first_pos(crate::hir::variant_names(vs), variant@);
                            assert(vs[k] == v@);
                            assert(few(vs[k].fields.len()));
                        }
                        match collect_payload(n, v) {
                            Some(fs) => {
                                let (out, _) = place(fs, PAYLOAD);
                                Some((v.tag, out))
                            },
                            None => None,
                        }
                    },
                    None => None,
                }
            },
            _ => None,
        },
        None => None,
    }
}

/// The laid-out variants of a sum: tag, name and placed fields.
pub open spec fn sum_places_upto(p: ProgramV, n: NominalV, vs: Seq<VariantInfoV>) -> Seq<
    (i32, Seq<char>, Seq<(Seq<char>, TypeV, nat)>),
>
    decreases vs.len(),
{
    if vs.len() == 0 {
        Seq::empty()
    } else {
        let rest = sum_places_upto(p, n, vs.drop_last());
        match variant_places(p, n, vs.last().name) {
            Some((tag, fs)) => rest.push((tag, vs.last().name, fs)),
            None => rest,
        }
    }
}

/// The laid-out variants of a sum.
pub open spec fn sum_places(p: ProgramV, n: NominalV) -> Seq<
    (i32, Seq<char>, Seq<(Seq<char>, TypeV, nat)>),
> {
    match declared_variants(p, n.id) {
        Some(vs) => sum_places_upto(p, n, vs),
        None => Seq::empty(),
    }
}

/// The models of laid-out variants.
pub open spec fn sum_view(v: Seq<(i32, String, Vec<(String, Type, u64)>)>) -> Seq<
    (i32, Seq<char>, Seq<(Seq<char>, TypeV, nat)>),
> {
    Seq::new(v.len(), |i: int| (v[i].0, v[i].1@, placed_view(v[i].2@)))
}

/// The tag, name and placed fields of each variant of a sum.
pub fn sum_variant_fields(program: &Program, n: &NominalType) -> (r: Vec<
    (i32, String, Vec<(String, Type, u64)>),
>)
    requires
        sum_fits(program@, n@),
    ensures
        sum_view(r@) == sum_places(program@, n@),
{
    let mut out: Vec<(i32, String, Vec<(String, Type, u64)>)> = Vec::new();
    match variants_of(program, n.id) {
        Some(vs) => {
            let ghost all = variant_infos_view(vs@);
            let ghost pv = program@;
            let ghost nv = n@;
            assert(sum_view(out@) =~= sum_places_upto(pv, nv, all.take(0)));
            for i in 0..vs.len()
                invariant
                    pv == program@,
                    nv == n@,
                    sum_fits(pv, nv),
                    all == variant_infos_view(vs@),
                    sum_view(out@) == sum_places_upto(pv, nv, all.take(i as int)),
            {
                proof {
                    assert(all.take(i + 1).drop_last() =~= all.take(i as int));
                    assert(all.take(i + 1).last() == vs[i as int]@);
                }
                let ghost before = sum_view(out@);
                match variant_layout(program, n, vs[i].name.as_str()) {
                    Some((tag, fs)) => {
                        let ghost fv = placed_view(fs@);
                        out.push((tag, vs[i].name.clone(), fs));
                        assert(sum_view(out@) =~= before.push((tag, vs[i as int].name@, fv)));
                    },
                    None => {},
                }
            }
            assert(all.take(vs.len() as int) =~= all);
        },
        None => {
            assert(sum_view(out@) =~= sum_places(program@, n@));
        },
    }
    out
}

/// The types of a variant's fields, `void` where there is none.
pub open spec fn payload_types(n: NominalV, v: VariantInfoV) -> Seq<TypeV> {
    Seq::new(
        v.fields.len(),
        |i: int|
            match payload_type(n, v.name, v.fields[i]) {
                Some(t) => t,
                None => TypeV::Void,
            },
    )
}

/// The end of the largest payload.
pub open spec fn largest_end(n: NominalV, vs: Seq<VariantInfoV>) -> nat
    decreases vs.len(),
{
    if vs.len() == 0 {
        PAYLOAD as nat
    } else {
        let rest = largest_end(n, vs.drop_last());
        let here = end_of(payload_types(n, vs.last()), PAYLOAD as nat);
        if rest < here {
            here
        } else {
            rest
        }
    }
}

/// The size of a sum object: the tag prefix and the largest payload.
pub open spec fn sum_size(p: ProgramV, n: NominalV) -> nat {
    match declared_variants(p, n.id) {
        Some(vs) => object_size(largest_end(n, vs)),
        None => PAYLOAD as nat,
    }
}

fn payload_end(n: &NominalType, v: &VariantInfo) -> (r: u64)
    requires
        few(v@.fields.len()),
    ensures
        r == end_of(payload_types(n@, v@), PAYLOAD as nat),
        r <= PAYLOAD + 15 * 0x0400_0000_0000_0000,
{
    let ghost ts = payload_types(n@, v@);
    let mut offset: u64 = PAYLOAD;
    assert(ts.take(0) =~= Seq::<TypeV>::empty());
    assert(v@.fields.len() == v.fields.len());
    for i in 0..v.fields.len()
        invariant
            few(v@.fields.len()),
            v@.fields.len() == v.fields.len(),
            ts == payload_types(n@, v@),
            offset == end_of(ts.take(i as int), PAYLOAD as nat),
    {
        let ty = match variant_field_type(n, v.name.as_str(), &v.fields[i]) {
            Some(t) => t,
            None => Type::Void,
        };
        proof {
            end_bound(ts.take(i as int), PAYLOAD as nat);
            assert(v@.fields[i as int] == v.fields[i as int]@);
            assert(ts[i as int] == ty@);
            assert(ts.take(i + 1).drop_last() =~= ts.take(i as int));
            assert(ts.take(i + 1).last() == ty@);
        }
        let (size, align) = type_size_align(&ty);
        proof {
            aligned_facts(offset as nat, align as nat);
        }
        offset = align_up(offset, align) + size;
    }
    proof {
        assert(ts.take(v.fields.len() as int) =~= ts);
        end_bound(ts, PAYLOAD as nat);
    }
    offset
}

/// The size of a sum object.
pub fn sum_total_size(program: &Program, n: &NominalType) -> (r: u64)
    requires
        sum_fits(program@, n@),
    ensures
        r == sum_size(program@, n@),
{
    match variants_of(program, n.id) {
        Some(vs) => {
            let ghost all = variant_infos_view(vs@);
            let mut max: u64 = PAYLOAD;
            assert(n@.id == n.id);
            assert(declared_variants(program@, n@.id) == Some(all));
            for i in 0..vs.len()
                invariant
                    all == variant_infos_view(vs@),
                    all_few(all),
                    max == largest_end(n@, all.take(i as int)),
                    max <= PAYLOAD + 15 * 0x0400_0000_0000_0000,
            {
                proof {
                    assert(all.take(i + 1).drop_last() =~= all.take(i as int));
                    assert(all.take(i + 1).last() == vs[i as int]@);
                    assert(few(all[i as int].fields.len()));
                }
                let end = payload_end(n, &vs[i]);
                if max < end {
                    max = end;
                }
            }
            assert(all.take(vs.len() as int) =~= all);
            align_up(max, 8)
        },
        None => PAYLOAD,
    }
}

} // verus!
