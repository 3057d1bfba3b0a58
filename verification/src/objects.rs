//! How emitted code makes objects and takes them apart: what is allocated and which
//! value goes where, which variant a value is of, where locals live, how an index is
//! checked, and in which order a compiled program runs.

use vstd::prelude::*;
use crate::hir::{variant_named, variant_names, FieldInfoV, Program, ProgramV, VariantInfoV};
use crate::layout::{aligned_facts, align_up, closure_layout, declared_variants, end_of, fields_are_aligned, fields_are_disjoint, few, field_types, is_traced, largest_end, nats, object_size, offset_of, offsets_of, payload_pairs, payload_type, payload_types, placed, placed_view, record_layout, record_places, record_size, size_align, sum_places_upto, sum_size, sum_total_size, traced, tuple_layout, type_size_align, variant_layout, variant_places, CAPTURES, HEADER, PAYLOAD};
use crate::monomorph::{fn_symbol, fn_symbol_injective, global_symbol, mangle_fn, mangle_global};
use crate::plan::{coerce, coercion, convs_view, field_entries, first_dot_facts, fits, is_leaf, place_named, sum_field, sum_load, trace_plan, traced_children, Conv, Load};
use crate::table::{first_pos, first_pos_facts, first_pos_unique};
use crate::text::{str_eq, texts};
use crate::types::{types_view, FloatKind, IntKind, NominalV, Type, TypeV};

verus! {

// ---- filling an object ----

/// Which of the named values goes to which offset, in the order of the layout. A
/// field without a value is left as it was allocated.
pub open spec fn stores_of(ps: Seq<(Seq<char>, TypeV, nat)>, given: Seq<Seq<char>>) -> Seq<
    (int, nat),
>
    decreases ps.len(),
{
    if ps.len() == 0 {
        Seq::empty()
    } else {
        let rest = stores_of(ps.drop_last(), given);
        let k = first_pos(given, ps.last().0);
        if k < given.len() {
            rest.push((k, ps.last().2))
        } else {
            rest
        }
    }
}

pub open spec fn stores_view(v: Seq<(usize, u64)>) -> Seq<(int, nat)> {
    Seq::new(v.len(), |i: int| (v[i].0 as int, v[i].1 as nat))
}

fn position_of(given: &Vec<String>, name: &str) -> (r: usize)
    ensures
        r == first_pos(texts(given@), name@),
{
    let ghost all = texts(given@);
    for i in 0..given.len()
        invariant
            all == texts(given@),
            forall|j: int| 0 <= j < i ==> all[j] != name@,
    {
        assert(all[i as int] == given[i as int]@);
        if str_eq(given[i].as_str(), name) {
            proof {
                first_pos_unique(all, name@, i as int);
            }
            return i;
        }
    }
    proof {
        first_pos_unique(all, name@, all.len() as int);
    }
    given.len()
}

/// Which of the named values goes to which offset.
pub fn field_stores(places: &Vec<(String, Type, u64)>, given: &Vec<String>) -> (r: Vec<(usize, u64)>)
    ensures
        stores_view(r@) == stores_of(placed_view(places@), texts(given@)),
{
    let mut out: Vec<(usize, u64)> = Vec::new();
    let ghost all = placed_view(places@);
    let ghost gv = texts(given@);
    assert(stores_view(out@) =~= stores_of(all.take(0), gv));
    for i in 0..places.len()
        invariant
            all == placed_view(places@),
            gv == texts(given@),
            stores_view(out@) == stores_of(all.take(i as int), gv),
    {
        proof {
            assert(all.take(i + 1).drop_last() =~= all.take(i as int));
            assert(all.take(i + 1).last() == (
                places[i as int].0@,
                places[i as int].1@,
                places[i as int].2 as nat,
            ));
        }
        let ghost before = stores_view(out@);
        let k = position_of(given, places[i].0.as_str());
        if k < given.len() {
            out.push((k, places[i].2));
            assert(stores_view(out@) =~= before.push((k as int, places[i as int].2 as nat)));
        }
    }
    assert(all.take(places.len() as int) =~= all);
    out
}

/// A value given for a field is stored where a read of the field finds it.
pub proof fn reads_what_was_stored(
    ps: Seq<(Seq<char>, TypeV, nat)>,
    given: Seq<Seq<char>>,
    name: Seq<char>,
)
    requires
        given.contains(name),
        place_named(ps, name) is Some,
    ensures
        stores_of(ps, given).contains((first_pos(given, name), (place_named(ps, name)->0).1)),
    decreases ps.len(),
{
    first_pos_facts(given, name);
    let want = (first_pos(given, name), (place_named(ps, name)->0).1);
    let all = stores_of(ps, given);
    let rest = stores_of(ps.drop_last(), given);
    if place_named(ps.drop_last(), name) is Some {
        reads_what_was_stored(ps.drop_last(), given, name);
        let i = choose|i: int| 0 <= i < rest.len() && rest[i] == want;
        assert(all[i] == want);
    } else {
        assert(all[all.len() - 1] == want);
    }
}

/// Every store is for a field of the layout.
pub proof fn stores_are_for_fields(ps: Seq<(Seq<char>, TypeV, nat)>, given: Seq<Seq<char>>, i: int)
    requires
        0 <= i < stores_of(ps, given).len(),
    ensures
        exists|j: int|
            0 <= j < ps.len() && (#[trigger] ps[j]).2 == stores_of(ps, given)[i].1 && given[
                stores_of(ps, given)[i].0
            ] == ps[j].0,
    decreases ps.len(),
{
    let rest = stores_of(ps.drop_last(), given);
    first_pos_facts(given, ps.last().0);
    if i < rest.len() {
        stores_are_for_fields(ps.drop_last(), given, i);
        let j = choose|j: int|
            0 <= j < ps.drop_last().len() && (#[trigger] ps.drop_last()[j]).2 == rest[i].1
                && given[rest[i].0] == ps.drop_last()[j].0;
        assert(ps[j] == ps.drop_last()[j]);
    } else {
        assert(ps[ps.len() - 1] == ps.last());
    }
}

proof fn stores_in_order(fs: Seq<(Seq<char>, TypeV)>, start: nat, given: Seq<Seq<char>>, k: int)
    requires
        0 <= k <= fs.len(),
    ensures
        ({
            let s = stores_of(placed(fs, start).take(k), given);
            &&& forall|i: int|
                0 <= i < s.len() ==> (#[trigger] s[i]).1 < end_of(field_types(fs).take(k), start)
            &&& forall|i: int, j: int| 0 <= i < j < s.len() ==> (#[trigger] s[i]).1 < (#[trigger] s[j]).1
        }),
    decreases k,
{
    let ps = placed(fs, start);
    let ts = field_types(fs);
    if k > 0 {
        stores_in_order(fs, start, given, k - 1);
        assert(ps.take(k).drop_last() =~= ps.take(k - 1));
        assert(ps.take(k).last() == ps[k - 1]);
        assert(ts.take(k).drop_last() =~= ts.take(k - 1));
        assert(ts.take(k).last() == ts[k - 1]);
        let end = end_of(ts.take(k - 1), start);
        aligned_facts(end, size_align(ts[k - 1]).1);
        assert(ps[k - 1].2 == crate::layout::aligned(end, size_align(ts[k - 1]).1));
        assert(end <= ps[k - 1].2 < end_of(ts.take(k), start));
        let rest = stores_of(ps.take(k - 1), given);
        let s = stores_of(ps.take(k), given);
        assert forall|i: int| 0 <= i < s.len() implies (#[trigger] s[i]).1 < end_of(
            ts.take(k),
            start,
        ) by {
            if i < rest.len() {
                assert(s[i] == rest[i]);
            }
        }
        assert forall|i: int, j: int| 0 <= i < j < s.len() implies (#[trigger] s[i]).1 < (
        #[trigger] s[j]).1 by {
            assert(s[i] == rest[i]);
            if j < rest.len() {
                assert(s[j] == rest[j]);
            }
        }
    }
}

/// An object is filled from its start to its end, and no place is written twice.
pub proof fn stores_go_up(
    fs: Seq<(Seq<char>, TypeV)>,
    start: nat,
    given: Seq<Seq<char>>,
    i: int,
    j: int,
)
    requires
        0 <= i < j < stores_of(placed(fs, start), given).len(),
    ensures
        stores_of(placed(fs, start), given)[i].1 < stores_of(placed(fs, start), given)[j].1,
{
    stores_in_order(fs, start, given, fs.len() as int);
    assert(placed(fs, start).take(fs.len() as int) =~= placed(fs, start));
}

/// A fresh object: what to allocate, which given value to store where, and whether
/// the cycle collector has to know it.
#[derive(Debug, PartialEq)]
pub struct ObjectPlan {
    pub size: u64,
    pub stores: Vec<(usize, u64)>,
    pub registered: bool,
}

/// How a record is made from values for the named fields; `None` for a type without
/// a record layout.
pub fn make_record(program: &Program, record_ty: &Type, given: &Vec<String>) -> (r: Option<ObjectPlan>)
    requires
        fits(program@, record_ty@),
    ensures
        match record_ty@ {
            TypeV::Record(n) => match record_places(program@, n) {
                Some(ps) => r matches Some(o) && record_size(program@, n) == Some(o.size as nat)
                    && stores_view(o.stores@) == stores_of(ps, texts(given@)) && o.registered
                    == !is_leaf(traced_children(program@, record_ty@)),
                None => r is None,
            },
            _ => r is None,
        },
{
    match record_ty {
        Type::Record(n) => match record_layout(program, n) {
            Some((places, size)) => {
                let stores = field_stores(&places, given);
                let registered = trace_plan(program, record_ty).is_some();
                Some(ObjectPlan { size, stores, registered })
            },
            None => None,
        },
        _ => None,
    }
}

/// How a tuple is made: the element offsets are in order.
#[derive(Debug, PartialEq)]
pub struct TuplePlan {
    pub size: u64,
    pub offsets: Vec<u64>,
    pub registered: bool,
}

/// Whether some value among these is a heap reference.
pub open spec fn any_traced(ts: Seq<TypeV>) -> bool {
    exists|i: int| 0 <= i < ts.len() && traced(#[trigger] ts[i])
}

/// How a tuple of values of the types is made.
pub fn make_tuple(elem_types: &Vec<Type>) -> (r: TuplePlan)
    requires
        few(elem_types.len() as nat),
    ensures
        nats(r.offsets@) == offsets_of(types_view(elem_types@), HEADER as nat),
        r.size == object_size(end_of(types_view(elem_types@), HEADER as nat)),
        r.registered == any_traced(types_view(elem_types@)),
{
    let (offsets, size) = tuple_layout(elem_types);
    let ghost all = types_view(elem_types@);
    for i in 0..elem_types.len()
        invariant
            all == types_view(elem_types@),
            nats(offsets@) == offsets_of(all, HEADER as nat),
            size == object_size(end_of(all, HEADER as nat)),
            forall|j: int| 0 <= j < i ==> !traced(#[trigger] all[j]),
    {
        assert(all[i as int] == elem_types[i as int]@);
        if is_traced(&elem_types[i]) {
            return TuplePlan { size, offsets, registered: true };
        }
    }
    assert(all.len() == elem_types.len());
    TuplePlan { size, offsets, registered: false }
}

/// Where an element of a tuple is read: where it was stored.
pub fn tuple_field(elem_types: &Vec<Type>, index: usize) -> (r: Option<u64>)
    requires
        few(elem_types.len() as nat),
    ensures
        r == (if index < elem_types.len() {
            Some(offset_of(types_view(elem_types@), HEADER as nat, index as int) as u64)
        } else {
            None
        }),
{
    let (offsets, _) = tuple_layout(elem_types);
    let ghost want = offsets_of(types_view(elem_types@), HEADER as nat);
    assert(nats(offsets@).len() == offsets.len());
    assert(want.len() == elem_types.len());
    if index < offsets.len() {
        assert(nats(offsets@)[index as int] == want[index as int]);
        Some(offsets[index])
    } else {
        None
    }
}

// ---- variants ----

/// A fresh value of a sum: its tag goes behind the header.
#[derive(Debug, PartialEq)]
pub struct VariantPlan {
    pub size: u64,
    pub tag: i32,
    pub stores: Vec<(usize, u64)>,
}

/// How a variant of a sum is made from values for the named fields; `None` where the
/// type has no such variant with a layout.
pub fn make_variant(program: &Program, sum_ty: &Type, variant: &str, given: &Vec<String>) -> (r:
    Option<VariantPlan>)
    requires
        fits(program@, sum_ty@),
    ensures
        match sum_ty@ {
            TypeV::Sum(n) => match variant_places(program@, n, variant@) {
                Some((tag, ps)) => r matches Some(v) && v.tag == tag && v.size == sum_size(
                    program@,
                    n,
                ) && stores_view(v.stores@) == stores_of(ps, texts(given@)),
                None => r is None,
            },
            _ => r is None,
        },
{
    match sum_ty {
        Type::Sum(n) => match variant_layout(program, n, variant) {
            Some((tag, places)) => {
                let stores = field_stores(&places, given);
                let size = sum_total_size(program, n);
                Some(VariantPlan { size, tag, stores })
            },
            None => None,
        },
        _ => None,
    }
}

/// Whether a value is of a variant.
#[derive(Clone, Copy, Debug, PartialEq, Eq, Structural)]
pub enum Matching {
    Always,
    Never,
    /// When it has this tag.
    Tag(i32),
}

/// When a value of a type is of a variant. A value that is not of a sum has but one
/// shape.
pub open spec fn matching(p: ProgramV, t: TypeV, variant: Seq<char>) -> Matching {
    match t {
        TypeV::Sum(n) => match variant_places(p, n, variant) {
            Some((tag, _)) => Matching::Tag(tag),
            None => Matching::Never,
        },
        _ => Matching::Always,
    }
}

/// When a value of a type is of a variant.
pub fn pattern_matches(program: &Program, subj_ty: &Type, variant: &str) -> (r: Matching)
    requires
        fits(program@, subj_ty@),
    ensures
        r == matching(program@, subj_ty@, variant@),
{
    match subj_ty {
        Type::Sum(n) => match crate::plan::pattern_tag(program, n, variant) {
            Some(tag) => Matching::Tag(tag),
            None => Matching::Never,
        },
        _ => Matching::Always,
    }
}

/// Whether a value with a tag is of what a pattern asks for.
pub open spec fn is_matched(m: Matching, tag: i32) -> bool {
    match m {
        Matching::Always => true,
        Matching::Never => false,
        Matching::Tag(t) => t == tag,
    }
}

/// A value made as a variant is matched by the variant's pattern, and by the pattern
/// of another variant only if the two share their tag.
pub proof fn made_variants_match(p: ProgramV, n: NominalV, made: Seq<char>, asked: Seq<char>)
    requires
        variant_places(p, n, made) is Some,
    ensures
        is_matched(matching(p, TypeV::Sum(n), made), (variant_places(p, n, made)->0).0),
        is_matched(matching(p, TypeV::Sum(n), asked), (variant_places(p, n, made)->0).0) <==> (
        variant_places(p, n, asked) is Some && (variant_places(p, n, asked)->0).0 == (variant_places(
            p,
            n,
            made,
        )->0).0),
{
}

proof fn entries_of_variant(
    p: ProgramV,
    n: NominalV,
    vs: Seq<VariantInfoV>,
    variant: Seq<char>,
    field: Seq<char>,
)
    requires
        variant_places(p, n, variant) matches Some((_, ps)) && place_named(ps, field) is Some,
    ensures
        ({
            let (tag, ps) = variant_places(p, n, variant)->0;
            let es = field_entries(sum_places_upto(p, n, vs), Some(variant), field);
            &&& variant_names(vs).contains(variant) ==> es.len() > 0
            &&& forall|i: int|
                0 <= i < es.len() ==> #[trigger] es[i] == (
                    tag,
                    (place_named(ps, field)->0).0,
                    (place_named(ps, field)->0).1,
                )
        }),
    decreases vs.len(),
{
    if vs.len() > 0 {
        let before = vs.drop_last();
        entries_of_variant(p, n, before, variant, field);
        let all = sum_places_upto(p, n, vs);
        let rest = sum_places_upto(p, n, before);
        let last = vs.last().name;
        match variant_places(p, n, last) {
            Some((tag, fs)) => {
                assert(all.drop_last() =~= rest);
                assert(all.last() == (tag, last, fs));
            },
            None => {
                assert(last != variant);
            },
        }
        if variant_names(vs).contains(variant) && last != variant {
            let k = choose|k: int| 0 <= k < vs.len() && variant_names(vs)[k] == variant;
            assert(k < vs.len() - 1);
            assert(variant_names(before)[k] == variant);
        }
        let es = field_entries(all, Some(variant), field);
        let es0 = field_entries(rest, Some(variant), field);
        if last == variant {
            assert(es.len() == es0.len() + 1);
        } else {
            assert(es == es0);
        }
    }
}

/// A field of a made variant, asked for as `V.f`, is read where it was stored.
pub proof fn variants_read_back(
    p: ProgramV,
    n: NominalV,
    variant: Seq<char>,
    given: Seq<Seq<char>>,
    field: Seq<char>,
)
    requires
        !variant.contains('.'),
        given.contains(field),
        variant_places(p, n, variant) matches Some((_, ps)) && place_named(ps, field) is Some,
    ensures
        ({
            let ps = (variant_places(p, n, variant)->0).1;
            let (t, o) = place_named(ps, field)->0;
            &&& sum_load(sum_field(p, n, variant + "."@ + field)) == Load::At(t, o as u64)
            &&& stores_of(ps, given).contains((first_pos(given, field), o))
        }),
{
    reveal_strlit(".");
    let whole = variant + "."@ + field;
    assert forall|i: int| 0 <= i < variant.len() implies whole[i] != '.' by {
        assert(variant.contains(variant[i]));
    }
    first_dot_facts(whole, variant.len() as int);
    assert(whole.take(variant.len() as int) =~= variant);
    assert(whole.skip(variant.len() as int + 1) =~= field);
    let vs = declared_variants(p, n.id)->0;
    first_pos_facts(variant_names(vs), variant);
    let k = first_pos(variant_names(vs), variant);
    assert(variant_names(vs)[k] == variant);
    entries_of_variant(p, n, vs, variant, field);
    reads_what_was_stored((variant_places(p, n, variant)->0).1, given, field);
}

proof fn payload_types_of_pairs(n: NominalV, name: Seq<char>, fs: Seq<FieldInfoV>)
    requires
        payload_pairs(n, name, fs) is Some,
    ensures
        payload_pairs(n, name, fs)->0.len() == fs.len(),
        forall|i: int|
            0 <= i < fs.len() ==> payload_type(n, name, #[trigger] fs[i]) == Some(
                payload_pairs(n, name, fs)->0[i].1,
            ),
    decreases fs.len(),
{
    if fs.len() > 0 {
        payload_types_of_pairs(n, name, fs.drop_last());
        assert forall|i: int| 0 <= i < fs.len() implies payload_type(n, name, #[trigger] fs[i])
            == Some(payload_pairs(n, name, fs)->0[i].1) by {
            if i < fs.len() - 1 {
                assert(fs.drop_last()[i] == fs[i]);
            }
        }
    }
}

proof fn largest_end_covers(n: NominalV, vs: Seq<VariantInfoV>, k: int)
    requires
        0 <= k < vs.len(),
    ensures
        end_of(payload_types(n, vs[k]), PAYLOAD as nat) <= largest_end(n, vs),
    decreases vs.len(),
{
    if k < vs.len() - 1 {
        largest_end_covers(n, vs.drop_last(), k);
    }
}

/// Every field of every variant lies inside the object of the sum, behind the tag.
pub proof fn variants_fit_their_object(p: ProgramV, n: NominalV, variant: Seq<char>, i: int)
    requires
        variant_places(p, n, variant) matches Some((_, ps)) && 0 <= i < ps.len(),
    ensures
        ({
            let f = (variant_places(p, n, variant)->0).1[i];
            PAYLOAD <= f.2 && f.2 + size_align(f.1).0 <= sum_size(p, n)
        }),
{
    let vs = declared_variants(p, n.id)->0;
    let v = variant_named(vs, variant)->0;
    let k = first_pos(variant_names(vs), variant);
    first_pos_facts(variant_names(vs), variant);
    let fs = payload_pairs(n, v.name, v.fields)->0;
    let ts = field_types(fs);
    payload_types_of_pairs(n, v.name, v.fields);
    assert(ts =~= payload_types(n, v));
    largest_end_covers(n, vs, k);
    fields_are_aligned(ts, PAYLOAD as nat, i);
    if i + 1 < ts.len() {
        fields_are_disjoint(ts, PAYLOAD as nat, i, ts.len() - 1);
    } else {
        assert(ts.take(i + 1) =~= ts);
    }
    aligned_facts(largest_end(n, vs), 8);
}

// ---- cells, closures ----

/// A fresh cell around the value of a nullable.
#[derive(Clone, Copy, Debug, PartialEq, Eq, Structural)]
pub struct CellPlan {
    pub size: u64,
    /// Whether the cell takes a reference of its own.
    pub retain: bool,
    pub registered: bool,
}

/// How a value of a type is put into a cell; `owning` if the cell takes over the
/// reference of a value that nothing else holds. The value goes behind the header.
pub fn make_cell(inner: &Type, owning: bool) -> (r: CellPlan)
    ensures
        r.size == object_size(HEADER as nat + size_align(inner@).0),
        r.retain == (!owning && traced(inner@)),
        forall|p: ProgramV|
            r.registered == !is_leaf(#[trigger] traced_children(p, TypeV::Nullable(Box::new(inner@)))),
{
    let (size, _) = type_size_align(inner);
    proof {
        aligned_facts((HEADER + size) as nat, 8);
    }
    let cell = align_up(HEADER + size, 8);
    let held = is_traced(inner);
    CellPlan { size: cell, retain: held && !owning, registered: held }
}

/// What reading a null cell gives.
#[derive(Clone, Copy, Debug, PartialEq, Eq, Structural)]
pub enum Zero {
    Int,
    Float,
    Null,
}

/// What a read of a type gives for a null cell: zero, or a null reference.
pub fn nullable_unwrap(to: &Type) -> (r: Zero)
    ensures
        r == (match to@ {
            TypeV::Bool => Zero::Int,
            TypeV::Int(_) => Zero::Int,
            TypeV::Float(_) => Zero::Float,
            _ => Zero::Null,
        }),
{
    match to {
        Type::Bool => Zero::Int,
        Type::Int(_) => Zero::Int,
        Type::Float(_) => Zero::Float,
        _ => Zero::Null,
    }
}

/// Where a closure holds its code.
pub const CODE_AT: u64 = 16;

/// Where a closure holds its destructor.
pub const DROP_AT: u64 = 24;

/// A fresh closure: the captures are stored at these offsets, in order.
#[derive(Debug, PartialEq)]
pub struct ClosurePlan {
    pub size: u64,
    pub captures: Vec<u64>,
}

/// How a closure with captures of the types is made; `None` if the type is not that
/// of a function.
pub fn make_closure(fun_ty: &Type, capture_types: &Vec<Type>) -> (r: Option<ClosurePlan>)
    requires
        few(capture_types.len() as nat),
    ensures
        match fun_ty@ {
            TypeV::Fun(..) => r matches Some(c) && nats(c.captures@) == offsets_of(
                types_view(capture_types@),
                CAPTURES as nat,
            ) && c.size == object_size(end_of(types_view(capture_types@), CAPTURES as nat)),
            _ => r is None,
        },
{
    match fun_ty {
        Type::Fun(..) => {
            let (captures, size) = closure_layout(capture_types);
            Some(ClosurePlan { size, captures })
        },
        _ => None,
    }
}

/// The captures stand behind the two code pointers.
pub proof fn captures_leave_the_code(ts: Seq<TypeV>, i: int)
    requires
        0 <= i < ts.len(),
    ensures
        CODE_AT + 8 <= DROP_AT,
        DROP_AT + 8 <= offset_of(ts, CAPTURES as nat, i),
{
    fields_are_aligned(ts, CAPTURES as nat, i);
}

/// What a conversion `T.from(x)` hands to the runtime besides the target's tag.
#[derive(Clone, Copy, Debug, PartialEq, Eq, Structural)]
pub enum FromArg {
    /// The value as a 64-bit integer.
    Int,
    /// The value as a 64-bit float.
    Float,
    /// Nothing but zeros.
    Neither,
}

/// What `T.from(x)` hands to the runtime for an `x` of a type, and the steps that
/// turn `x` into it.
pub fn conv_from_args(arg_ty: &Type) -> (r: (FromArg, Vec<Conv<Type>>))
    ensures
        match arg_ty@ {
            TypeV::Int(_) => r.0 == FromArg::Int && convs_view(r.1@) == coercion(
                arg_ty@,
                TypeV::Int(IntKind::I64),
            ),
            TypeV::Float(_) => r.0 == FromArg::Float && convs_view(r.1@) == coercion(
                arg_ty@,
                TypeV::Float(FloatKind::F64),
            ),
            _ => r.0 == FromArg::Neither && r.1@.len() == 0,
        },
{
    match arg_ty {
        Type::Int(_) => (FromArg::Int, coerce(arg_ty, &Type::Int(IntKind::I64))),
        Type::Float(_) => (FromArg::Float, coerce(arg_ty, &Type::Float(FloatKind::F64))),
        _ => (FromArg::Neither, Vec::new()),
    }
}

// ---- indexes ----

/// How an integer becomes a 64-bit argument.
#[derive(Clone, Copy, Debug, PartialEq, Eq, Structural)]
pub enum Widening {
    Keep,
    Zeros,
    Sign,
}

/// How an integer of a width becomes a 64-bit argument with leading zeros.
pub fn int_arg_i64(bits: u32) -> (r: Widening)
    ensures
        r == (if bits >= 64 {
            Widening::Keep
        } else {
            Widening::Zeros
        }),
{
    if bits >= 64 {
        Widening::Keep
    } else {
        Widening::Zeros
    }
}

/// How a signed integer of a width becomes a 64-bit argument.
pub fn sext_to_i64(bits: u32) -> (r: Widening)
    ensures
        r == (if bits >= 64 {
            Widening::Keep
        } else {
            Widening::Sign
        }),
{
    if bits >= 64 {
        Widening::Keep
    } else {
        Widening::Sign
    }
}

/// The check before an element is reached: the index is widened, compared unsigned
/// with the length, and refused with the message unless it is less.
#[derive(Clone, Copy, Debug, PartialEq)]
pub struct IndexCheck {
    pub widening: Widening,
    pub message: &'static str,
}

/// The check before an element is read or written.
pub fn bounds_check(bits: u32) -> (r: IndexCheck)
    ensures
        r.widening == (if bits >= 64 {
            Widening::Keep
        } else {
            Widening::Zeros
        }),
        r.message@ == "array index out of bounds"@,
{
    IndexCheck { widening: int_arg_i64(bits), message: "array index out of bounds" }
}

/// The check before an element is removed.
pub fn remove_check(bits: u32) -> (r: IndexCheck)
    ensures
        r.widening == (if bits >= 64 {
            Widening::Keep
        } else {
            Widening::Sign
        }),
        r.message@ == "array remove index out of bounds"@,
{
    IndexCheck { widening: sext_to_i64(bits), message: "array remove index out of bounds" }
}

/// Half the number of values of a width.
pub open spec fn half_range(bits: u32) -> int {
    if bits == 8 {
        0x80
    } else if bits == 16 {
        0x8000
    } else if bits == 32 {
        0x8000_0000
    } else {
        0x8000_0000_0000_0000
    }
}

/// The unsigned 64-bit number that a signed index of a width becomes.
pub open spec fn widened(w: Widening, bits: u32, i: int) -> int {
    if i >= 0 {
        i
    } else if w == Widening::Zeros {
        i + 2 * half_range(bits)
    } else {
        i + 2 * half_range(64)
    }
}

/// A signed index passes the check exactly when it is an index of the array, as long
/// as the array's length is within the index's range.
pub proof fn checked_indexes_are_in_bounds(bits: u32, w: Widening, i: int, len: int)
    requires
        bits == 8 || bits == 16 || bits == 32 || bits == 64,
        w == Widening::Keep ==> bits == 64,
        -half_range(bits) <= i < half_range(bits),
        0 <= len <= half_range(bits),
    ensures
        widened(w, bits, i) < len <==> 0 <= i < len,
{
}

/// Widened by its sign, an index passes exactly when it is an index of the array,
/// whatever the index's width.
pub proof fn signed_indexes_are_in_bounds(bits: u32, i: int, len: int)
    requires
        -half_range(bits) <= i < half_range(bits),
        0 <= len <= half_range(64),
    ensures
        widened(Widening::Sign, bits, i) < len <==> 0 <= i < len,
{
}

// ---- locals ----

/// Where a local lives.
#[derive(Clone, Copy, Debug, PartialEq, Eq, Structural)]
pub enum Home {
    /// It has no value.
    Nowhere,
    /// In the closure's environment, at this offset.
    Capture(u64),
    /// On the stack; a reference starts as null, so that it can be released on
    /// every path.
    Stack { nulled: bool },
}

/// The offset of a captured local: that of the last capture of it.
pub open spec fn capture_offset(captures: Seq<usize>, offsets: Seq<nat>, local: int) -> Option<nat>
    decreases captures.len(),
{
    if captures.len() == 0 || offsets.len() != captures.len() {
        None
    } else if captures.last() == local {
        Some(offsets.last())
    } else {
        capture_offset(captures.drop_last(), offsets.drop_last(), local)
    }
}

/// Whether a value is held as an address.
pub open spec fn is_address(t: TypeV) -> bool {
    !(t is Bool || t is Int || t is Float)
}

/// Where a local of a type lives.
pub open spec fn home_of(t: TypeV, captured: Option<nat>) -> Home {
    if t is Void {
        Home::Nowhere
    } else {
        match captured {
            Some(o) => Home::Capture(o as u64),
            None => Home::Stack { nulled: is_address(t) },
        }
    }
}

/// The types of the captured locals.
pub open spec fn captured_types(ts: Seq<TypeV>, captures: Seq<usize>) -> Seq<TypeV> {
    Seq::new(captures.len(), |i: int| ts[captures[i] as int])
}

/// Where the locals of a function live.
pub open spec fn homes(ts: Seq<TypeV>, captures: Seq<usize>, is_closure: bool) -> Seq<Home> {
    let offsets = offsets_of(captured_types(ts, captures), CAPTURES as nat);
    Seq::new(
        ts.len(),
        |i: int|
            home_of(
                ts[i],
                if is_closure {
                    capture_offset(captures, offsets, i)
                } else {
                    None
                },
            ),
    )
}

fn find_capture(captures: &Vec<usize>, offsets: &Vec<u64>, local: usize) -> (r: Option<u64>)
    requires
        captures.len() == offsets.len(),
    ensures
        match r {
            Some(o) => capture_offset(captures@, nats(offsets@), local as int) == Some(o as nat),
            None => capture_offset(captures@, nats(offsets@), local as int) is None,
        },
{
    let ghost cs = captures@;
    let ghost os = nats(offsets@);
    let mut k: usize = captures.len();
    assert(cs.take(k as int) =~= cs);
    assert(os.take(k as int) =~= os);
    while k > 0
        invariant
            k <= captures.len(),
            captures.len() == offsets.len(),
            cs == captures@,
            os == nats(offsets@),
            os.len() == cs.len(),
            capture_offset(cs, os, local as int) == capture_offset(
                cs.take(k as int),
                os.take(k as int),
                local as int,
            ),
        decreases k,
    {
        proof {
            assert(cs.take(k as int).drop_last() =~= cs.take(k - 1));
            assert(os.take(k as int).drop_last() =~= os.take(k - 1));
            assert(cs.take(k as int).last() == captures[k - 1]);
            assert(os.take(k as int).last() == offsets[k - 1] as nat);
        }
        if captures[k - 1] == local {
            return Some(offsets[k - 1]);
        }
        k -= 1;
    }
    None
}

fn holds_address(ty: &Type) -> (r: bool)
    ensures
        r == is_address(ty@),
{
    !matches!(ty, Type::Bool | Type::Int(_) | Type::Float(_))
}

/// Where the locals of a function live: a closure's captures in its environment, the
/// others on the stack.
pub fn local_homes(local_types: &Vec<Type>, captures: &Vec<usize>, is_closure: bool) -> (r: Vec<
    Home,
>)
    requires
        few(captures.len() as nat),
        is_closure ==> forall|i: int|
            0 <= i < captures.len() ==> (#[trigger] captures[i]) < local_types.len(),
    ensures
        r@ == homes(types_view(local_types@), captures@, is_closure),
{
    let ghost ts = types_view(local_types@);
    let mut ctys: Vec<Type> = Vec::new();
    let mut offsets: Vec<u64> = Vec::new();
    if is_closure {
        for i in 0..captures.len()
            invariant
                ts == types_view(local_types@),
                forall|j: int|
                    0 <= j < captures.len() ==> (#[trigger] captures[j]) < local_types.len(),
                types_view(ctys@) == captured_types(ts, captures@).take(i as int),
        {
            let ghost before = types_view(ctys@);
            let c = crate::types::clone_type(&local_types[captures[i]]);
            let ghost cv = c@;
            ctys.push(c);
            proof {
                assert(ts[captures[i as int] as int] == local_types[captures[i as int] as int]@);
                assert(types_view(ctys@) =~= before.push(cv));
                assert(captured_types(ts, captures@).take(i + 1) =~= captured_types(
                    ts,
                    captures@,
                ).take(i as int).push(cv));
            }
        }
        proof {
            assert(captured_types(ts, captures@).take(captures.len() as int) =~= captured_types(
                ts,
                captures@,
            ));
            assert(types_view(ctys@).len() == ctys.len());
        }
        let (os, _) = closure_layout(&ctys);
        offsets = os;
        assert(nats(offsets@).len() == offsets.len());
    }
    let ghost want = homes(ts, captures@, is_closure);
    let mut out: Vec<Home> = Vec::new();
    for i in 0..local_types.len()
        invariant
            ts == types_view(local_types@),
            want == homes(ts, captures@, is_closure),
            is_closure ==> captures.len() == offsets.len() && nats(offsets@) == offsets_of(
                captured_types(ts, captures@),
                CAPTURES as nat,
            ),
            out@ == want.take(i as int),
    {
        let ty = &local_types[i];
        assert(ts[i as int] == ty@);
        let home = if matches!(ty, Type::Void) {
            Home::Nowhere
        } else {
            let captured = if is_closure {
                find_capture(captures, &offsets, i)
            } else {
                None
            };
            match captured {
                Some(o) => Home::Capture(o),
                None => Home::Stack { nulled: holds_address(ty) },
            }
        };
        assert(home == want[i as int]);
        out.push(home);
        assert(want.take(i + 1) =~= want.take(i as int).push(want[i as int]));
    }
    assert(want.take(local_types.len() as int) =~= want);
    out
}

/// Which machine parameter a parameter is: a closure's follow its environment.
pub fn param_index(i: u32, is_closure: bool) -> (r: u32)
    requires
        i < u32::MAX,
    ensures
        r == i + (if is_closure {
            1int
        } else {
            0
        }),
{
    if is_closure {
        i + 1
    } else {
        i
    }
}

// ---- running ----

/// A step of running a compiled program.
#[derive(Debug, PartialEq)]
pub enum RunStep {
    /// Call the function of this symbol, if there is one.
    Call(String),
    /// Freeze the globals that never change again.
    Freeze,
    /// Wait for the tasks that were started.
    Join,
    /// Free what only refers to itself.
    Collect,
}

/// The model of a [`RunStep`].
pub enum RunStepV {
    Call(Seq<char>),
    Freeze,
    Join,
    Collect,
}

impl View for RunStep {
    type V = RunStepV;

    open spec fn view(&self) -> RunStepV {
        match self {
            RunStep::Call(s) => RunStepV::Call(s@),
            RunStep::Freeze => RunStepV::Freeze,
            RunStep::Join => RunStepV::Join,
            RunStep::Collect => RunStepV::Collect,
        }
    }
}

pub open spec fn steps_view(v: Seq<RunStep>) -> Seq<RunStepV> {
    Seq::new(v.len(), |i: int| v[i]@)
}

/// Calls of the initializers in order.
pub open spec fn init_calls(inits: Seq<Seq<char>>) -> Seq<RunStepV> {
    Seq::new(inits.len(), |i: int| RunStepV::Call(inits[i]))
}

/// How a program runs: the initializers in order, then the freeze if a global is to
/// be frozen, then `main`, then the wait for its tasks, then a collection.
pub open spec fn run_steps(inits: Seq<Seq<char>>, frozen: bool) -> Seq<RunStepV> {
    let start = init_calls(inits);
    let ready = if frozen {
        start.push(RunStepV::Freeze)
    } else {
        start
    };
    ready.push(RunStepV::Call("main"@)).push(RunStepV::Join).push(RunStepV::Collect)
}

fn push_step(s: RunStep, out: &mut Vec<RunStep>)
    ensures
        steps_view(final(out)@) == steps_view(old(out)@).push(s@),
{
    let ghost start = steps_view(out@);
    let ghost sv = s@;
    out.push(s);
    assert(steps_view(out@) =~= start.push(sv));
}

/// The error of running a program that has no engine yet.
pub const NOT_FINALIZED: &'static str = "execute called before finalize";

/// How a program runs; an error before it is finalized.
pub fn execute(finalized: bool, inits: &Vec<String>, frozen: &Vec<String>) -> (r: Result<
    Vec<RunStep>,
    String,
>)
    ensures
        match r {
            Ok(steps) => finalized && steps_view(steps@) == run_steps(
                texts(inits@),
                frozen@.len() > 0,
            ),
            Err(e) => !finalized && e@ == NOT_FINALIZED@,
        },
{
    if !finalized {
        return Err(NOT_FINALIZED.to_owned());
    }
    let mut out: Vec<RunStep> = Vec::new();
    let ghost calls = init_calls(texts(inits@));
    for i in 0..inits.len()
        invariant
            calls == init_calls(texts(inits@)),
            steps_view(out@) == calls.take(i as int),
    {
        push_step(RunStep::Call(inits[i].clone()), &mut out);
        assert(calls.take(i + 1) =~= calls.take(i as int).push(calls[i as int]));
    }
    assert(calls.take(inits.len() as int) =~= calls);
    if frozen.len() > 0 {
        push_step(RunStep::Freeze, &mut out);
    }
    push_step(RunStep::Call("main".to_owned()), &mut out);
    push_step(RunStep::Join, &mut out);
    push_step(RunStep::Collect, &mut out);
    Ok(out)
}

/// Globals are frozen once, after every initializer has run and before `main`.
pub proof fn frozen_before_main(inits: Seq<Seq<char>>)
    ensures
        ({
            let steps = run_steps(inits, true);
            let k = inits.len() as int;
            &&& forall|i: int| 0 <= i < k ==> (#[trigger] steps[i]) == RunStepV::Call(inits[i])
            &&& steps[k] == RunStepV::Freeze
            &&& steps[k + 1] == RunStepV::Call("main"@)
            &&& forall|i: int| 0 <= i < steps.len() && i != k ==> (#[trigger] steps[i])
                != RunStepV::Freeze
        }),
{
}

// ---- declarations ----

/// What a compiled program declares before any body is emitted: the symbol of each
/// function with whether it takes an environment, and the symbol of each global.
#[derive(Debug, PartialEq)]
pub struct Declarations {
    pub functions: Vec<(String, bool)>,
    pub globals: Vec<String>,
}

/// The models of functions: symbol, and whether it is a closure.
pub open spec fn flagged_view(v: Seq<(String, bool)>) -> Seq<(Seq<char>, bool)> {
    Seq::new(v.len(), |i: int| (v[i].0@, v[i].1))
}

/// The declarations of functions.
pub open spec fn declared_functions(fs: Seq<(Seq<char>, bool)>) -> Seq<(Seq<char>, bool)> {
    Seq::new(fs.len(), |i: int| (fn_symbol(fs[i].0), fs[i].1))
}

/// The declarations of globals.
pub open spec fn declared_globals(names: Seq<Seq<char>>) -> Seq<Seq<char>> {
    Seq::new(names.len(), |i: int| global_symbol(names[i]))
}

/// What a program of these functions, each with whether it is a closure, and of these
/// globals declares.
pub fn begin_program(functions: &Vec<(String, bool)>, globals: &Vec<String>) -> (r: Declarations)
    ensures
        flagged_view(r.functions@) == declared_functions(flagged_view(functions@)),
        texts(r.globals@) == declared_globals(texts(globals@)),
{
    let mut fs: Vec<(String, bool)> = Vec::new();
    let ghost all = flagged_view(functions@);
    let ghost want = declared_functions(all);
    assert(flagged_view(fs@) =~= want.take(0));
    for i in 0..functions.len()
        invariant
            all == flagged_view(functions@),
            want == declared_functions(all),
            flagged_view(fs@) == want.take(i as int),
    {
        let ghost before = flagged_view(fs@);
        let symbol = mangle_fn(functions[i].0.as_str());
        let ghost sv = symbol@;
        fs.push((symbol, functions[i].1));
        proof {
            assert(all[i as int] == (functions[i as int].0@, functions[i as int].1));
            assert(flagged_view(fs@) =~= before.push((sv, functions[i as int].1)));
            assert(want.take(i + 1) =~= want.take(i as int).push(want[i as int]));
        }
    }
    assert(want.take(functions.len() as int) =~= want);
    let mut gs: Vec<String> = Vec::new();
    let ghost names = texts(globals@);
    let ghost symbols = declared_globals(names);
    assert(texts(gs@) =~= symbols.take(0));
    for i in 0..globals.len()
        invariant
            names == texts(globals@),
            symbols == declared_globals(names),
            texts(gs@) == symbols.take(i as int),
    {
        let ghost before = texts(gs@);
        let symbol = mangle_global(globals[i].as_str());
        let ghost sv = symbol@;
        gs.push(symbol);
        proof {
            assert(names[i as int] == globals[i as int]@);
            assert(texts(gs@) =~= before.push(sv));
            assert(symbols.take(i + 1) =~= symbols.take(i as int).push(symbols[i as int]));
        }
    }
    assert(symbols.take(globals.len() as int) =~= symbols);
    Declarations { functions: fs, globals: gs }
}

/// Functions with different symbols are declared under different names.
pub proof fn declarations_are_told_apart(fs: Seq<(Seq<char>, bool)>, i: int, j: int)
    requires
        0 <= i < fs.len(),
        0 <= j < fs.len(),
        fs[i].0 != fs[j].0,
    ensures
        declared_functions(fs)[i].0 != declared_functions(fs)[j].0,
{
    if declared_functions(fs)[i].0 == declared_functions(fs)[j].0 {
        fn_symbol_injective(fs[i].0, fs[j].0);
    }
}

/// What a call through a closure gives.
#[derive(Clone, Copy, Debug, PartialEq, Eq, Structural)]
pub enum IndirectCall {
    /// No call, but the unit value: the callee is no function.
    Unit,
    /// The call's result. The closure itself goes before the arguments.
    Result,
    /// The unit value after the call, which gives nothing.
    ThenUnit,
}

fn is_void(ty: &Type) -> (r: bool)
    ensures
        r == (ty@ is Void),
{
    matches!(ty, Type::Void)
}

/// What a call of a value of a type gives.
pub fn call_indirect(callee_ty: &Type) -> (r: IndirectCall)
    ensures
        r == (match callee_ty@ {
            TypeV::Fun(_, ret) => if *ret is Void {
                IndirectCall::ThenUnit
            } else {
                IndirectCall::Result
            },
            _ => IndirectCall::Unit,
        }),
{
    match callee_ty {
        Type::Fun(_, ret) => {
            if is_void(ret) {
                IndirectCall::ThenUnit
            } else {
                IndirectCall::Result
            }
        },
        _ => IndirectCall::Unit,
    }
}

/// The error of a region that a reference has escaped from.
pub const REGION_LEAK: &'static str = "region not closed: a reference escaped a `with` scope";

/// The error of a function that could not be compiled for a type at run time.
pub const UNRESOLVED: &'static str = "deferred dispatch resolution failed";

// ---- arrays ----

/// A fresh array: the size of an element, how many there are, and where each is stored
/// in the buffer.
#[derive(Debug, PartialEq)]
pub struct ArrayPlan {
    pub elem_size: u64,
    pub len: u64,
    pub offsets: Vec<u64>,
}

/// Where an element stands in its buffer.
pub open spec fn element_at(t: TypeV, i: int) -> int {
    i * size_align(t).0
}

/// How an array of `len` values of a type is made.
pub fn make_array(elem_ty: &Type, len: usize) -> (r: ArrayPlan)
    requires
        element_at(elem_ty@, len as int) <= u64::MAX,
    ensures
        r.elem_size == size_align(elem_ty@).0,
        r.len == len,
        r.offsets@.len() == len,
        forall|i: int| 0 <= i < len ==> #[trigger] r.offsets@[i] == element_at(elem_ty@, i),
{
    let (size, _) = type_size_align(elem_ty);
    let mut offsets: Vec<u64> = Vec::new();
    let mut at: u64 = 0;
    for i in 0..len
        invariant
            size == size_align(elem_ty@).0,
            element_at(elem_ty@, len as int) <= u64::MAX,
            at == element_at(elem_ty@, i as int),
            offsets@.len() == i,
            forall|k: int| 0 <= k < i ==> #[trigger] offsets@[k] == element_at(elem_ty@, k),
    {
        offsets.push(at);
        proof {
            let s = size as int;
            assert((i + 1) * s == i * s + s) by (nonlinear_arith);
            assert((i + 1) * s <= len * s) by (nonlinear_arith)
                requires
                    i + 1 <= len,
                    0 <= s,
            ;
        }
        at = at + size;
    }
    ArrayPlan { elem_size: size, len: len as u64, offsets }
}

/// Elements lie inside the buffer, one after the other.
pub proof fn elements_are_disjoint(t: TypeV, len: int, i: int, j: int)
    requires
        0 <= i < j < len,
    ensures
        0 <= element_at(t, i),
        element_at(t, i) + size_align(t).0 <= element_at(t, j),
        element_at(t, j) + size_align(t).0 <= element_at(t, len),
{
    let s = size_align(t).0 as int;
    assert(0 <= i * s) by (nonlinear_arith)
        requires
            0 <= i,
            0 <= s,
    ;
    assert(i * s + s <= j * s) by (nonlinear_arith)
        requires
            i + 1 <= j,
            0 <= s,
    ;
    assert(j * s + s <= len * s) by (nonlinear_arith)
        requires
            j + 1 <= len,
            0 <= s,
    ;
}

// ---- printing ----

/// The runtime function that prints a text.
pub fn emit_print(newline: bool) -> (r: &'static str)
    ensures
        r@ == (if newline {
            "pp_println_str"@
        } else {
            "pp_print_str"@
        }),
{
    if newline {
        "pp_println_str"
    } else {
        "pp_print_str"
    }
}

} // verus!
