//! What the code generator emits, decided without a back end: which children a
//! tracer visits and a destructor releases, how a value is copied, rendered,
//! converted and loaded, and which operations an operator becomes.

use vstd::prelude::*;
use crate::arith::{codegen_is_int_cmp, comparison, int_code, int_predicate, meaning, of_kind, predicate, result, Compare, IntCode, Word};
use crate::ast::{BinOp, UnaryOp};
use crate::hir::{field_infos_view, named_fun_infos_view, FieldInfoV, FunInfoV, Program, ProgramV, TypeKind};
use crate::layout::{bits, declared_fields, element, few, heap_pointer, int_bits_of, int_runtime_tag, int_signed, is_heap_pointer_type, is_traced, offsets_of, pairs, place, place_types, placed, placed_view, record_fields, record_fits, record_places, runtime_tag, signed_kind, sum_fits, sum_places, sum_variant_fields, sum_view, traced, variant_layout, variant_places, HEADER};
use crate::monomorph::{fn_symbol, mangle_fn};
use crate::table::lookup;
use crate::text::{cat2, cat3, chars_of, contains_string, join, join_strings, str_eq, string_of, texts};
use crate::types::{clone_type, display, display_all, types_view, FloatKind, NominalType, NominalV, Type, TypeV, STRUCTURAL_RECORD_NAME};

verus! {

// ---- helper functions per type ----

/// The symbol of a helper function of a kind for a type.
pub open spec fn helper_symbol(kind: Seq<char>, t: TypeV) -> Seq<char> {
    fn_symbol(kind + display(t))
}

/// The symbol of a helper function for a type; `kind` is `trace_`, `drop_`,
/// `dcopy_` or `tostr_`.
pub fn helper_name(kind: &str, ty: &Type) -> (r: String)
    ensures
        r@ == helper_symbol(kind@, ty@),
{
    let shown = ty.display();
    let name = cat2(kind, shown.as_str());
    mangle_fn(name.as_str())
}

// ---- heap children ----

/// The placed fields that are heap references.
pub open spec fn heap_places(ps: Seq<(Seq<char>, TypeV, nat)>) -> Seq<(TypeV, nat)>
    decreases ps.len(),
{
    if ps.len() == 0 {
        Seq::empty()
    } else {
        let rest = heap_places(ps.drop_last());
        if traced(ps.last().1) {
            rest.push((ps.last().1, ps.last().2))
        } else {
            rest
        }
    }
}

/// The values at offsets that are heap references.
pub open spec fn heap_offsets(ts: Seq<TypeV>, os: Seq<nat>) -> Seq<(TypeV, nat)>
    decreases ts.len(),
{
    if ts.len() == 0 || os.len() != ts.len() {
        Seq::empty()
    } else {
        let rest = heap_offsets(ts.drop_last(), os.drop_last());
        if traced(ts.last()) {
            rest.push((ts.last(), os.last()))
        } else {
            rest
        }
    }
}

/// The models of heap children.
pub open spec fn children_view(v: Seq<(Type, u64)>) -> Seq<(TypeV, nat)> {
    Seq::new(v.len(), |i: int| (v[i].0@, v[i].1 as nat))
}

fn collect_heap(v: &Vec<(String, Type, u64)>) -> (r: Vec<(Type, u64)>)
    ensures
        children_view(r@) == heap_places(placed_view(v@)),
{
    let mut out: Vec<(Type, u64)> = Vec::new();
    let ghost all = placed_view(v@);
    assert(children_view(out@) =~= heap_places(all.take(0)));
    for i in 0..v.len()
        invariant
            all == placed_view(v@),
            children_view(out@) == heap_places(all.take(i as int)),
    {
        proof {
            assert(all.take(i + 1).drop_last() =~= all.take(i as int));
            assert(all.take(i + 1).last() == (v[i as int].0@, v[i as int].1@, v[i as int].2 as nat));
        }
        let ghost before = children_view(out@);
        if is_traced(&v[i].1) {
            let ty = clone_type(&v[i].1);
            out.push((ty, v[i].2));
            assert(children_view(out@) =~= before.push((v[i as int].1@, v[i as int].2 as nat)));
        }
    }
    assert(all.take(v.len() as int) =~= all);
    out
}

fn collect_heap_at(ts: &Vec<Type>, os: &Vec<u64>) -> (r: Vec<(Type, u64)>)
    requires
        os.len() == ts.len(),
    ensures
        children_view(r@) == heap_offsets(types_view(ts@), crate::layout::nats(os@)),
{
    let mut out: Vec<(Type, u64)> = Vec::new();
    let ghost tv = types_view(ts@);
    let ghost ov = crate::layout::nats(os@);
    assert(children_view(out@) =~= heap_offsets(tv.take(0), ov.take(0)));
    for i in 0..ts.len()
        invariant
            os.len() == ts.len(),
            tv == types_view(ts@),
            ov == crate::layout::nats(os@),
            children_view(out@) == heap_offsets(tv.take(i as int), ov.take(i as int)),
    {
        proof {
            assert(tv.take(i + 1).drop_last() =~= tv.take(i as int));
            assert(ov.take(i + 1).drop_last() =~= ov.take(i as int));
            assert(tv.take(i + 1).last() == ts[i as int]@);
            assert(ov.take(i + 1).last() == os[i as int]);
        }
        let ghost before = children_view(out@);
        if is_traced(&ts[i]) {
            out.push((clone_type(&ts[i]), os[i]));
            assert(children_view(out@) =~= before.push((ts[i as int]@, os[i as int] as nat)));
        }
    }
    assert(tv.take(ts.len() as int) =~= tv);
    assert(ov.take(ts.len() as int) =~= ov);
    out
}

/// The declared fields that a constructed record's substitution has a type for.
pub open spec fn constructed(fs: Seq<FieldInfoV>, s: Seq<(Seq<char>, TypeV)>) -> Seq<
    (Seq<char>, TypeV),
>
    decreases fs.len(),
{
    if fs.len() == 0 {
        Seq::empty()
    } else {
        let rest = constructed(fs.drop_last(), s);
        match lookup(s, fs.last().name) {
            Some(t) => rest.push((fs.last().name, t)),
            None => rest,
        }
    }
}

/// The heap references in the fields of a constructed record.
pub open spec fn record_children(p: ProgramV, n: NominalV) -> Seq<(TypeV, nat)> {
    match declared_fields(p, n.id) {
        Some(fs) => heap_places(placed(constructed(fs, n.subst), HEADER as nat)),
        None => Seq::empty(),
    }
}

/// Whether a record type has few enough declared fields to be laid out.
pub open spec fn declared_few(p: ProgramV, n: NominalV) -> bool {
    declared_fields(p, n.id) matches Some(fs) ==> few(fs.len())
}

fn record_heap_children(program: &Program, n: &NominalType) -> (r: Vec<(Type, u64)>)
    requires
        declared_few(program@, n@),
    ensures
        children_view(r@) == record_children(program@, n@),
{
    let mut found: Vec<(String, Type)> = Vec::new();
    match program.type_by_id(n.id) {
        Some(info) => match &info.kind {
            TypeKind::Record { fields, .. } => {
                let ghost all = field_infos_view(fields@);
                let ghost s = n@.subst;
                assert(declared_fields(program@, n@.id) == Some(all));
                assert(pairs(found@) =~= constructed(all.take(0), s));
                for i in 0..fields.len()
                    invariant
                        all == field_infos_view(fields@),
                        s == n@.subst,
                        found.len() <= i,
                        pairs(found@) == constructed(all.take(i as int), s),
                {
                    proof {
                        assert(all.take(i + 1).drop_last() =~= all.take(i as int));
                        assert(all.take(i + 1).last() == fields[i as int]@);
                    }
                    let ghost before = pairs(found@);
                    match n.substitution.get(fields[i].name.as_str()) {
                        Some(t) => {
                            let ghost tv = t@;
                            found.push((fields[i].name.clone(), clone_type(t)));
                            assert(pairs(found@) =~= before.push((fields[i as int].name@, tv)));
                        },
                        None => {},
                    }
                }
                assert(all.take(fields.len() as int) =~= all);
                let (ps, _) = place(found, HEADER);
                collect_heap(&ps)
            },
            _ => {
                let none: Vec<(Type, u64)> = Vec::new();
                assert(children_view(none@) =~= Seq::<(TypeV, nat)>::empty());
                none
            },
        },
        None => {
            let none: Vec<(Type, u64)> = Vec::new();
            assert(children_view(none@) =~= Seq::<(TypeV, nat)>::empty());
            none
        },
    }
}

/// The variants that hold heap references: tag and children.
pub open spec fn heap_variants(vs: Seq<(i32, Seq<char>, Seq<(Seq<char>, TypeV, nat)>)>) -> Seq<
    (i32, Seq<(TypeV, nat)>),
>
    decreases vs.len(),
{
    if vs.len() == 0 {
        Seq::empty()
    } else {
        let rest = heap_variants(vs.drop_last());
        let here = heap_places(vs.last().2);
        if here.len() == 0 {
            rest
        } else {
            rest.push((vs.last().0, here))
        }
    }
}

/// The models of variants with their heap children.
pub open spec fn variants_view(v: Seq<(i32, Vec<(Type, u64)>)>) -> Seq<(i32, Seq<(TypeV, nat)>)> {
    Seq::new(v.len(), |i: int| (v[i].0, children_view(v[i].1@)))
}

fn sum_heap_variants(program: &Program, n: &NominalType) -> (r: Vec<(i32, Vec<(Type, u64)>)>)
    requires
        sum_fits(program@, n@),
    ensures
        variants_view(r@) == heap_variants(sum_places(program@, n@)),
{
    let vs = sum_variant_fields(program, n);
    let mut out: Vec<(i32, Vec<(Type, u64)>)> = Vec::new();
    let ghost all = sum_view(vs@);
    assert(variants_view(out@) =~= heap_variants(all.take(0)));
    for i in 0..vs.len()
        invariant
            all == sum_view(vs@),
            variants_view(out@) == heap_variants(all.take(i as int)),
    {
        proof {
            assert(all.take(i + 1).drop_last() =~= all.take(i as int));
            assert(all.take(i + 1).last() == (vs[i as int].0, vs[i as int].1@, placed_view(vs[i as int].2@)));
        }
        let ghost before = variants_view(out@);
        let heap = collect_heap(&vs[i].2);
        let ghost hv = children_view(heap@);
        assert(hv.len() == heap.len());
        if heap.len() > 0 {
            out.push((vs[i].0, heap));
            assert(variants_view(out@) =~= before.push((vs[i as int].0, hv)));
        }
    }
    assert(all.take(vs.len() as int) =~= all);
    out
}

/// The heap references an object of a type holds.
#[derive(Debug, PartialEq)]
pub struct HeapPlan {
    /// References at fixed offsets.
    pub fixed: Vec<(Type, u64)>,
    /// The type of the elements, where each is a reference.
    pub elem: Option<Type>,
    /// By tag, the references in the payload.
    pub variants: Vec<(i32, Vec<(Type, u64)>)>,
}

/// The model of [`HeapPlan`].
#[verifier::ext_equal]
pub ghost struct HeapV {
    pub fixed: Seq<(TypeV, nat)>,
    pub elem: Option<TypeV>,
    pub variants: Seq<(i32, Seq<(TypeV, nat)>)>,
}

impl View for HeapPlan {
    type V = HeapV;

    open spec fn view(&self) -> HeapV {
        HeapV {
            fixed: children_view(self.fixed@),
            elem: crate::types::opt_type(self.elem),
            variants: variants_view(self.variants@),
        }
    }
}

/// Whether objects of a type can be laid out.
pub open spec fn fits(p: ProgramV, t: TypeV) -> bool {
    match t {
        TypeV::Record(n) => declared_few(p, n) && record_fits(p, n),
        TypeV::Sum(n) => sum_fits(p, n),
        TypeV::Tuple(ts) => few(ts.len()),
        _ => true,
    }
}

pub open spec fn no_children() -> HeapV {
    HeapV { fixed: Seq::empty(), elem: None, variants: Seq::empty() }
}

/// The heap references that the collector follows from an object of a type.
pub open spec fn traced_children(p: ProgramV, t: TypeV) -> HeapV {
    match t {
        TypeV::Record(n) => HeapV { fixed: record_children(p, n), ..no_children() },
        TypeV::Nullable(inner) => if traced(*inner) {
            HeapV { fixed: seq![(*inner, HEADER as nat)], ..no_children() }
        } else {
            no_children()
        },
        TypeV::Slice(e) => if traced(*e) {
            HeapV { elem: Some(*e), ..no_children() }
        } else {
            no_children()
        },
        TypeV::Array(e, _) => if traced(*e) {
            HeapV { elem: Some(*e), ..no_children() }
        } else {
            no_children()
        },
        TypeV::Tuple(ts) => HeapV {
            fixed: heap_offsets(ts, offsets_of(ts, HEADER as nat)),
            ..no_children()
        },
        TypeV::Sum(n) => HeapV { variants: heap_variants(sum_places(p, n)), ..no_children() },
        _ => no_children(),
    }
}

/// Whether there is anything to follow.
pub open spec fn is_leaf(h: HeapV) -> bool {
    h.fixed.len() == 0 && h.elem is None && h.variants.len() == 0
}

fn plan_of(fixed: Vec<(Type, u64)>, elem: Option<Type>, variants: Vec<(i32, Vec<(Type, u64)>)>) -> (r:
    HeapPlan)
    ensures
        r@ == (HeapV {
            fixed: children_view(fixed@),
            elem: crate::types::opt_type(elem),
            variants: variants_view(variants@),
        }),
{
    HeapPlan { fixed, elem, variants }
}

fn no_fixed() -> (r: Vec<(Type, u64)>)
    ensures
        children_view(r@) == Seq::<(TypeV, nat)>::empty(),
{
    let r: Vec<(Type, u64)> = Vec::new();
    assert(children_view(r@) =~= Seq::<(TypeV, nat)>::empty());
    r
}

fn no_variants() -> (r: Vec<(i32, Vec<(Type, u64)>)>)
    ensures
        variants_view(r@) == Seq::<(i32, Seq<(TypeV, nat)>)>::empty(),
{
    let r: Vec<(i32, Vec<(Type, u64)>)> = Vec::new();
    assert(variants_view(r@) =~= Seq::<(i32, Seq<(TypeV, nat)>)>::empty());
    r
}

fn one_fixed(ty: &Type) -> (r: Vec<(Type, u64)>)
    ensures
        children_view(r@) == seq![(ty@, HEADER as nat)],
{
    let r: Vec<(Type, u64)> = vec![(clone_type(ty), HEADER)];
    assert(children_view(r@) =~= seq![(ty@, HEADER as nat)]);
    r
}

fn heap_plan(program: &Program, ty: &Type) -> (r: HeapPlan)
    requires
        fits(program@, ty@),
    ensures
        r@ == traced_children(program@, ty@),
{
    match ty {
        Type::Record(n) => {
            let fixed = record_heap_children(program, n);
            plan_of(fixed, None, no_variants())
        },
        Type::Nullable(inner) => if is_traced(inner) {
            plan_of(one_fixed(inner), None, no_variants())
        } else {
            plan_of(no_fixed(), None, no_variants())
        },
        Type::Slice(e) => if is_traced(e) {
            plan_of(no_fixed(), Some(clone_type(e)), no_variants())
        } else {
            plan_of(no_fixed(), None, no_variants())
        },
        Type::Array(e, _) => if is_traced(e) {
            plan_of(no_fixed(), Some(clone_type(e)), no_variants())
        } else {
            plan_of(no_fixed(), None, no_variants())
        },
        Type::Tuple(ts) => {
            assert(types_view(ts@).len() == ts.len());
            let (os, _) = place_types(ts, HEADER);
            assert(crate::layout::nats(os@).len() == os.len());
            let fixed = collect_heap_at(ts, &os);
            plan_of(fixed, None, no_variants())
        },
        Type::Sum(n) => {
            let variants = sum_heap_variants(program, n);
            plan_of(no_fixed(), None, variants)
        },
        _ => plan_of(no_fixed(), None, no_variants()),
    }
}

/// What the trace function of a type visits; `None` for a type without heap
/// references, which gets no trace function.
pub fn trace_plan(program: &Program, ty: &Type) -> (r: Option<HeapPlan>)
    requires
        fits(program@, ty@),
    ensures
        match r {
            Some(h) => h@ == traced_children(program@, ty@) && !is_leaf(h@),
            None => is_leaf(traced_children(program@, ty@)),
        },
{
    let h = heap_plan(program, ty);
    if h.fixed.len() == 0 && h.elem.is_none() && h.variants.len() == 0 {
        None
    } else {
        assert(children_view(h.fixed@).len() == h.fixed.len());
        assert(variants_view(h.variants@).len() == h.variants.len());
        Some(h)
    }
}

/// What the destructor of a type does once the last reference is gone: release these
/// references, free the element buffer if there is one, then free the object.
#[derive(Debug, PartialEq)]
pub struct DropPlan {
    pub children: HeapPlan,
    /// Whether the object owns an element buffer.
    pub buffer: bool,
}

/// The heap references that the destructor of a type releases. A tuple's elements
/// are not among them.
pub open spec fn released_children(p: ProgramV, t: TypeV) -> HeapV {
    if t is Tuple {
        no_children()
    } else {
        traced_children(p, t)
    }
}

/// What the destructor of a type does.
pub fn drop_plan(program: &Program, ty: &Type) -> (r: DropPlan)
    requires
        fits(program@, ty@),
    ensures
        r.children@ == released_children(program@, ty@),
        r.buffer == (ty@ is Slice || ty@ is Array),
{
    let children = match ty {
        Type::Tuple(_) => plan_of(no_fixed(), None, no_variants()),
        _ => heap_plan(program, ty),
    };
    DropPlan { children, buffer: matches!(ty, Type::Slice(_) | Type::Array(..)) }
}

/// Tuples apart, a destructor releases exactly the references that collection
/// follows.
pub proof fn releases_what_is_traced(p: ProgramV, t: TypeV)
    requires
        !(t is Tuple),
    ensures
        released_children(p, t) == traced_children(p, t),
{
}

/// Everything a plan lists is a heap reference.
pub proof fn heap_places_are_traced(ps: Seq<(Seq<char>, TypeV, nat)>, i: int)
    requires
        0 <= i < heap_places(ps).len(),
    ensures
        traced(heap_places(ps)[i].0),
        exists|j: int|
            0 <= j < ps.len() && (#[trigger] ps[j]).1 == heap_places(ps)[i].0 && ps[j].2
                == heap_places(ps)[i].1,
    decreases ps.len(),
{
    let rest = heap_places(ps.drop_last());
    if i < rest.len() {
        heap_places_are_traced(ps.drop_last(), i);
        let j = choose|j: int|
            0 <= j < ps.drop_last().len() && (#[trigger] ps.drop_last()[j]).1 == rest[i].0
                && ps.drop_last()[j].2 == rest[i].1;
        assert(ps[j] == ps.drop_last()[j]);
    } else {
        assert(ps[ps.len() - 1] == ps.last());
    }
}

/// Every heap reference among placed fields is listed.
pub proof fn heap_places_are_complete(ps: Seq<(Seq<char>, TypeV, nat)>, j: int)
    requires
        0 <= j < ps.len(),
        traced(ps[j].1),
    ensures
        heap_places(ps).contains((ps[j].1, ps[j].2)),
    decreases ps.len(),
{
    let all = heap_places(ps);
    if j < ps.len() - 1 {
        heap_places_are_complete(ps.drop_last(), j);
        let rest = heap_places(ps.drop_last());
        let i = choose|i: int| 0 <= i < rest.len() && rest[i] == (ps[j].1, ps[j].2);
        assert(all[i] == (ps[j].1, ps[j].2));
    } else {
        assert(all[all.len() - 1] == (ps[j].1, ps[j].2));
    }
}

/// The captures a closure's destructor releases.
pub fn closure_drop_plan(capture_types: &Vec<Type>) -> (r: Vec<(Type, u64)>)
    requires
        few(capture_types.len() as nat),
    ensures
        children_view(r@) == heap_offsets(
            types_view(capture_types@),
            offsets_of(types_view(capture_types@), crate::layout::CAPTURES as nat),
        ),
{
    let (os, _) = crate::layout::closure_layout(capture_types);
    assert(crate::layout::nats(os@).len() == os.len());
    assert(types_view(capture_types@).len() == capture_types.len());
    collect_heap_at(capture_types, &os)
}

/// The symbol of a closure destructor: closures with captures of the same types
/// share it.
pub fn closure_drop_name(capture_types: &Vec<Type>) -> (r: String)
    ensures
        r@ == fn_symbol("clodrop_"@ + join(display_all(types_view(capture_types@)), ","@)),
{
    let mut shown: Vec<String> = Vec::new();
    let ghost want = display_all(types_view(capture_types@));
    assert(texts(shown@) =~= want.take(0));
    for i in 0..capture_types.len()
        invariant
            want == display_all(types_view(capture_types@)),
            texts(shown@) == want.take(i as int),
    {
        let ghost before = texts(shown@);
        let t = capture_types[i].display();
        let ghost tv = t@;
        shown.push(t);
        proof {
            assert(types_view(capture_types@)[i as int] == capture_types[i as int]@);
            assert(texts(shown@) =~= before.push(tv));
            assert(want.take(i + 1) =~= want.take(i as int).push(want[i as int]));
        }
    }
    assert(want.take(capture_types.len() as int) =~= want);
    let joined = join_strings(shown.as_slice(), ",");
    let name = cat2("clodrop_", joined.as_str());
    mangle_fn(name.as_str())
}

// ---- rendering ----

fn is_str(ty: &Type) -> (r: bool)
    ensures
        r == (ty@ is Str),
{
    matches!(ty, Type::Str)
}

/// A piece of a rendering: constant text, or the value of a type at an offset,
/// indented, and in quotes unless null if the flag is set.
#[derive(Debug, PartialEq)]
pub enum Piece {
    Text(String),
    Value(Type, u64, bool),
}

/// The model of [`Piece`].
#[verifier::ext_equal]
pub ghost enum PieceV {
    Text(Seq<char>),
    Value(TypeV, nat, bool),
}

pub open spec fn piece_view(p: Piece) -> PieceV {
    match p {
        Piece::Text(s) => PieceV::Text(s@),
        Piece::Value(t, o, q) => PieceV::Value(t@, o as nat, q),
    }
}

pub open spec fn pieces_view(v: Seq<Piece>) -> Seq<PieceV> {
    Seq::new(v.len(), |i: int| piece_view(v[i]))
}

/// Whether a type is a nullable string.
pub open spec fn optional_str(t: TypeV) -> bool {
    match t {
        TypeV::Nullable(inner) => *inner is Str,
        _ => false,
    }
}

/// The pieces of one field: its label, its value, and a comma. A string stands in
/// quotes.
pub open spec fn field_pieces(f: (Seq<char>, TypeV, nat)) -> Seq<PieceV> {
    if f.1 is Str {
        seq![
            PieceV::Text("    "@ + f.0 + ": \""@),
            PieceV::Value(f.1, f.2, false),
            PieceV::Text("\",\n"@),
        ]
    } else {
        seq![
            PieceV::Text("    "@ + f.0 + ": "@),
            PieceV::Value(f.1, f.2, optional_str(f.1)),
            PieceV::Text(",\n"@),
        ]
    }
}

/// The pieces of fields.
pub open spec fn fields_pieces(fs: Seq<(Seq<char>, TypeV, nat)>) -> Seq<PieceV>
    decreases fs.len(),
{
    if fs.len() == 0 {
        Seq::empty()
    } else {
        fields_pieces(fs.drop_last()) + field_pieces(fs.last())
    }
}

/// `header { .. }` with one line for each field.
pub open spec fn named_pieces(header: Seq<char>, fs: Seq<(Seq<char>, TypeV, nat)>) -> Seq<PieceV> {
    if fs.len() == 0 {
        seq![PieceV::Text(header + " {}"@)]
    } else {
        seq![PieceV::Text(header + " {\n"@)] + fields_pieces(fs) + seq![PieceV::Text("}"@)]
    }
}

fn push_piece(p: Piece, out: &mut Vec<Piece>)
    ensures
        pieces_view(final(out)@) == pieces_view(old(out)@).push(piece_view(p)),
{
    let ghost start = pieces_view(out@);
    out.push(p);
    assert(pieces_view(out@) =~= start.push(piece_view(p)));
}

fn is_optional_str(ty: &Type) -> (r: bool)
    ensures
        r == optional_str(ty@),
{
    match ty {
        Type::Nullable(inner) => is_str(inner),
        _ => false,
    }
}

fn push_field(name: &str, ty: &Type, offset: u64, out: &mut Vec<Piece>)
    ensures
        pieces_view(final(out)@) == pieces_view(old(out)@) + field_pieces(
            (name@, ty@, offset as nat),
        ),
{
    let ghost start = pieces_view(out@);
    if is_str(ty) {
        push_piece(Piece::Text(cat3("    ", name, ": \"")), out);
        push_piece(Piece::Value(clone_type(ty), offset, false), out);
        push_piece(Piece::Text("\",\n".to_owned()), out);
    } else {
        push_piece(Piece::Text(cat3("    ", name, ": ")), out);
        push_piece(Piece::Value(clone_type(ty), offset, is_optional_str(ty)), out);
        push_piece(Piece::Text(",\n".to_owned()), out);
    }
    assert(pieces_view(out@) =~= start + field_pieces((name@, ty@, offset as nat)));
}

/// The pieces of `header { .. }` with one line for each field.
pub fn render_named_fields(header: &str, fields: &Vec<(String, Type, u64)>) -> (r: Vec<Piece>)
    ensures
        pieces_view(r@) == named_pieces(header@, placed_view(fields@)),
{
    let mut out: Vec<Piece> = Vec::new();
    let ghost all = placed_view(fields@);
    assert(pieces_view(out@) =~= Seq::<PieceV>::empty());
    if fields.len() == 0 {
        push_piece(Piece::Text(cat2(header, " {}")), &mut out);
        assert(pieces_view(out@) =~= named_pieces(header@, all));
        return out;
    }
    push_piece(Piece::Text(cat2(header, " {\n")), &mut out);
    let ghost start = seq![PieceV::Text(header@ + " {\n"@)];
    assert(pieces_view(out@) =~= start + fields_pieces(all.take(0)));
    for i in 0..fields.len()
        invariant
            all == placed_view(fields@),
            pieces_view(out@) == start + fields_pieces(all.take(i as int)),
    {
        proof {
            assert(all.take(i + 1).drop_last() =~= all.take(i as int));
            assert(all.take(i + 1).last() == (
                fields[i as int].0@,
                fields[i as int].1@,
                fields[i as int].2 as nat,
            ));
        }
        push_field(fields[i].0.as_str(), &fields[i].1, fields[i].2, &mut out);
        assert(pieces_view(out@) =~= start + fields_pieces(all.take(i + 1)));
    }
    assert(all.take(fields.len() as int) =~= all);
    push_piece(Piece::Text("}".to_owned()), &mut out);
    assert(pieces_view(out@) =~= named_pieces(header@, all));
    out
}

/// What the format function of a type makes.
#[derive(Debug, PartialEq)]
pub enum Format {
    /// The pieces of a record.
    Record(Vec<Piece>),
    /// By tag, the pieces of a variant; any other tag gives the type's name.
    Sum(String, Vec<(i32, Vec<Piece>)>),
    /// Constant text.
    Constant(String),
}

/// The model of [`Format`].
#[verifier::ext_equal]
pub ghost enum FormatV {
    Record(Seq<PieceV>),
    Sum(Seq<char>, Seq<(i32, Seq<PieceV>)>),
    Constant(Seq<char>),
}

pub open spec fn cases_view(v: Seq<(i32, Vec<Piece>)>) -> Seq<(i32, Seq<PieceV>)> {
    Seq::new(v.len(), |i: int| (v[i].0, pieces_view(v[i].1@)))
}

pub open spec fn format_view(f: Format) -> FormatV {
    match f {
        Format::Record(ps) => FormatV::Record(pieces_view(ps@)),
        Format::Sum(n, cs) => FormatV::Sum(n@, cases_view(cs@)),
        Format::Constant(s) => FormatV::Constant(s@),
    }
}

/// The name a record is rendered under: a structural one is anonymous.
pub open spec fn record_header(n: NominalV) -> Seq<char> {
    if n.name == STRUCTURAL_RECORD_NAME@ {
        "anonymous"@
    } else {
        n.name
    }
}

/// The pieces of one variant: bare `T.V` without fields.
pub open spec fn variant_pieces(name: Seq<char>, v: (i32, Seq<char>, Seq<(Seq<char>, TypeV, nat)>)) -> (
    i32,
    Seq<PieceV>,
) {
    let header = name + "."@ + v.1;
    (
        v.0,
        if v.2.len() == 0 {
            seq![PieceV::Text(header)]
        } else {
            named_pieces(header, v.2)
        },
    )
}

/// The pieces of variants, by tag.
pub open spec fn variants_pieces(
    name: Seq<char>,
    vs: Seq<(i32, Seq<char>, Seq<(Seq<char>, TypeV, nat)>)>,
) -> Seq<(i32, Seq<PieceV>)> {
    Seq::new(vs.len(), |i: int| variant_pieces(name, vs[i]))
}

/// What the format function of a type makes.
pub open spec fn formatted(p: ProgramV, t: TypeV) -> FormatV {
    match t {
        TypeV::Record(n) => FormatV::Record(
            named_pieces(
                record_header(n),
                match record_places(p, n) {
                    Some(fs) => fs,
                    None => Seq::empty(),
                },
            ),
        ),
        TypeV::Sum(n) => FormatV::Sum(n.name, variants_pieces(n.name, sum_places(p, n))),
        _ => FormatV::Constant(display(t)),
    }
}

fn render_variant(name: &str, variant: &str, fields: &Vec<(String, Type, u64)>) -> (r: Vec<Piece>)
    ensures
        pieces_view(r@) == variant_pieces(name@, (0, variant@, placed_view(fields@))).1,
{
    let header = cat3(name, ".", variant);
    assert(placed_view(fields@).len() == fields.len());
    if fields.len() == 0 {
        let mut out: Vec<Piece> = Vec::new();
        let ghost hv = header@;
        push_piece(Piece::Text(header), &mut out);
        assert(pieces_view(out@) =~= seq![PieceV::Text(hv)]);
        out
    } else {
        render_named_fields(header.as_str(), fields)
    }
}

/// The pieces of the variants of a sum, by tag.
pub fn render_sum(name: &str, variants: &Vec<(i32, String, Vec<(String, Type, u64)>)>) -> (r: Vec<
    (i32, Vec<Piece>),
>)
    ensures
        cases_view(r@) == variants_pieces(name@, sum_view(variants@)),
{
    let mut out: Vec<(i32, Vec<Piece>)> = Vec::new();
    let ghost want = variants_pieces(name@, sum_view(variants@));
    assert(cases_view(out@) =~= want.take(0));
    for i in 0..variants.len()
        invariant
            want == variants_pieces(name@, sum_view(variants@)),
            cases_view(out@) == want.take(i as int),
    {
        let ghost before = cases_view(out@);
        let ps = render_variant(name, variants[i].1.as_str(), &variants[i].2);
        let ghost pv = pieces_view(ps@);
        out.push((variants[i].0, ps));
        proof {
            assert(cases_view(out@) =~= before.push((variants[i as int].0, pv)));
            assert(want[i as int] == (variants[i as int].0, pv));
            assert(want.take(i + 1) =~= want.take(i as int).push(want[i as int]));
        }
    }
    assert(want.take(variants.len() as int) =~= want);
    out
}

/// What the format function of a type makes.
pub fn format_plan(program: &Program, ty: &Type) -> (r: Format)
    requires
        fits(program@, ty@),
    ensures
        format_view(r) == formatted(program@, ty@),
{
    match ty {
        Type::Record(n) => {
            let fields = match record_fields(program, n) {
                Some(fs) => fs,
                None => {
                    let none: Vec<(String, Type, u64)> = Vec::new();
                    assert(placed_view(none@) =~= Seq::<(Seq<char>, TypeV, nat)>::empty());
                    none
                },
            };
            if str_eq(n.name.as_str(), STRUCTURAL_RECORD_NAME) {
                Format::Record(render_named_fields("anonymous", &fields))
            } else {
                Format::Record(render_named_fields(n.name.as_str(), &fields))
            }
        },
        Type::Sum(n) => {
            let vs = sum_variant_fields(program, n);
            Format::Sum(n.name.clone(), render_sum(n.name.as_str(), &vs))
        },
        _ => Format::Constant(ty.display()),
    }
}

// ---- field access ----

/// How a field is read.
#[derive(Clone, Copy, Debug, PartialEq)]
pub enum Load<T> {
    /// There is no such field: the read gives null.
    Null,
    /// There is nothing to read.
    Unit,
    /// A value of this type at this offset.
    At(T, u64),
    /// A value of this type at an offset that depends on the tag; this is the offset
    /// for any other tag.
    ByTag(T, u64),
}

pub open spec fn load_view(l: Load<Type>) -> Load<TypeV> {
    match l {
        Load::Null => Load::Null,
        Load::Unit => Load::Unit,
        Load::At(t, o) => Load::At(t@, o),
        Load::ByTag(t, o) => Load::ByTag(t@, o),
    }
}

/// The position of the first `.`, or the length.
pub open spec fn first_dot(s: Seq<char>) -> int
    decreases s.len(),
{
    if s.len() == 0 || s[0] == '.' {
        0
    } else {
        1 + first_dot(s.drop_first())
    }
}

/// The first `.` is where no earlier character is one.
pub proof fn first_dot_facts(s: Seq<char>, p: int)
    requires
        0 <= p <= s.len(),
        forall|i: int| 0 <= i < p ==> s[i] != '.',
        p < s.len() ==> s[p] == '.',
    ensures
        first_dot(s) == p,
    decreases s.len(),
{
    if p > 0 {
        let t = s.drop_first();
        assert forall|i: int| 0 <= i < p - 1 implies t[i] != '.' by {
            assert(t[i] == s[i + 1]);
        }
        first_dot_facts(t, p - 1);
    }
}

/// The variant that a field name `V.f` asks for.
pub open spec fn wanted_variant(field: Seq<char>) -> Option<Seq<char>> {
    if first_dot(field) < field.len() {
        Some(field.take(first_dot(field)))
    } else {
        None
    }
}

/// The field that a field name `V.f` or `f` asks for.
pub open spec fn wanted_field(field: Seq<char>) -> Seq<char> {
    if first_dot(field) < field.len() {
        field.skip(first_dot(field) + 1)
    } else {
        field
    }
}

fn split_field(field: &str) -> (r: (Option<String>, String))
    ensures
        crate::ast::opt_text(r.0) == wanted_variant(field@),
        r.1@ == wanted_field(field@),
{
    let cs = chars_of(field);
    let mut i: usize = 0;
    while i < cs.len() && cs[i] != '.'
        invariant
            i <= cs.len(),
            cs@ == field@,
            forall|j: int| 0 <= j < i ==> field@[j] != '.',
        decreases cs.len() - i,
    {
        i += 1;
    }
    proof {
        first_dot_facts(field@, i as int);
    }
    if i < cs.len() {
        let v = string_of(cs.as_slice(), 0, i);
        let f = string_of(cs.as_slice(), i + 1, cs.len());
        assert(v@ =~= field@.take(i as int));
        assert(f@ =~= field@.skip(i + 1));
        (Some(v), f)
    } else {
        (None, field.to_owned())
    }
}

/// The first placed field of a name.
pub open spec fn place_named(ps: Seq<(Seq<char>, TypeV, nat)>, name: Seq<char>) -> Option<
    (TypeV, nat),
>
    decreases ps.len(),
{
    if ps.len() == 0 {
        None
    } else {
        match place_named(ps.drop_last(), name) {
            Some(x) => Some(x),
            None => if ps.last().0 == name {
                Some((ps.last().1, ps.last().2))
            } else {
                None
            },
        }
    }
}

pub open spec fn opt_place(o: Option<(Type, u64)>) -> Option<(TypeV, nat)> {
    match o {
        Some((t, n)) => Some((t@, n as nat)),
        None => None,
    }
}

/// The first placed field of a name.
pub fn find_place(ps: &Vec<(String, Type, u64)>, name: &str) -> (r: Option<(Type, u64)>)
    ensures
        opt_place(r) == place_named(placed_view(ps@), name@),
{
    let ghost all = placed_view(ps@);
    for i in 0..ps.len()
        invariant
            all == placed_view(ps@),
            place_named(all.take(i as int), name@) is None,
    {
        proof {
            assert(all.take(i + 1).drop_last() =~= all.take(i as int));
            assert(all.take(i + 1).last() == (ps[i as int].0@, ps[i as int].1@, ps[i as int].2 as nat));
        }
        if str_eq(ps[i].0.as_str(), name) {
            proof {
                place_named_first(all, i + 1, name@);
                assert(all.take(all.len() as int) =~= all);
            }
            return Some((clone_type(&ps[i].1), ps[i].2));
        }
    }
    assert(all.take(ps.len() as int) =~= all);
    None
}

proof fn place_named_first(ps: Seq<(Seq<char>, TypeV, nat)>, i: int, name: Seq<char>)
    requires
        0 <= i <= ps.len(),
        place_named(ps.take(i), name) is Some,
    ensures
        place_named(ps, name) == place_named(ps.take(i), name),
    decreases ps.len() - i,
{
    if i < ps.len() {
        assert(ps.take(i + 1).drop_last() =~= ps.take(i));
        place_named_first(ps, i + 1, name);
    } else {
        assert(ps.take(i) =~= ps);
    }
}

/// Tag, type and offset of a field in each variant that has it, the wanted variant
/// alone if one is named.
pub open spec fn field_entries(
    vs: Seq<(i32, Seq<char>, Seq<(Seq<char>, TypeV, nat)>)>,
    variant: Option<Seq<char>>,
    field: Seq<char>,
) -> Seq<(i32, TypeV, nat)>
    decreases vs.len(),
{
    if vs.len() == 0 {
        Seq::empty()
    } else {
        let rest = field_entries(vs.drop_last(), variant, field);
        if variant is Some && variant != Some(vs.last().1) {
            rest
        } else {
            match place_named(vs.last().2, field) {
                Some((t, o)) => rest.push((vs.last().0, t, o)),
                None => rest,
            }
        }
    }
}

pub open spec fn entries_view(v: Seq<(i32, Type, u64)>) -> Seq<(i32, TypeV, nat)> {
    Seq::new(v.len(), |i: int| (v[i].0, v[i].1@, v[i].2 as nat))
}

/// Whether all entries have the offset of the first.
pub open spec fn same_offset(es: Seq<(i32, TypeV, nat)>) -> bool {
    forall|i: int| 0 <= i < es.len() ==> (#[trigger] es[i]).2 == es[0].2
}

/// How a field of a sum is read.
pub open spec fn sum_load(es: Seq<(i32, TypeV, nat)>) -> Load<TypeV> {
    if es.len() == 0 {
        Load::Unit
    } else if same_offset(es) {
        Load::At(es[0].1, es[0].2 as u64)
    } else {
        Load::ByTag(es[0].1, es[0].2 as u64)
    }
}

/// A field read, with the offset for each tag where it depends on it.
#[derive(Debug, PartialEq)]
pub struct LoadPlan {
    pub load: Load<Type>,
    pub cases: Vec<(i32, u64)>,
}

/// Tags and offsets of entries.
pub open spec fn entry_cases(es: Seq<(i32, TypeV, nat)>) -> Seq<(i32, u64)> {
    Seq::new(es.len(), |i: int| (es[i].0, es[i].2 as u64))
}

/// What reading a field of a sum comes to.
pub open spec fn sum_field(p: ProgramV, n: NominalV, field: Seq<char>) -> Seq<(i32, TypeV, nat)> {
    field_entries(sum_places(p, n), wanted_variant(field), wanted_field(field))
}

fn is_wanted(want: &Option<String>, name: &str) -> (r: bool)
    ensures
        r == (crate::ast::opt_text(*want) is None || crate::ast::opt_text(*want) == Some(name@)),
{
    match want {
        Some(w) => str_eq(w.as_str(), name),
        None => true,
    }
}

/// How a field of a sum is read: `V.f` in that variant; `f` in whichever variant has
/// it, by tag where the offsets differ.
pub fn load_sum_field(program: &Program, n: &NominalType, field: &str) -> (r: LoadPlan)
    requires
        sum_fits(program@, n@),
    ensures
        load_view(r.load) == sum_load(sum_field(program@, n@, field@)),
        r.load is ByTag ==> r.cases@ == entry_cases(sum_field(program@, n@, field@)),
        !(r.load is ByTag) ==> r.cases@.len() == 0,
{
    let (want, fname) = split_field(field);
    let vs = sum_variant_fields(program, n);
    let ghost all = sum_view(vs@);
    let ghost wv = crate::ast::opt_text(want);
    let mut entries: Vec<(i32, Type, u64)> = Vec::new();
    assert(entries_view(entries@) =~= field_entries(all.take(0), wv, fname@));
    for i in 0..vs.len()
        invariant
            all == sum_view(vs@),
            wv == crate::ast::opt_text(want),
            entries_view(entries@) == field_entries(all.take(i as int), wv, fname@),
    {
        proof {
            assert(all.take(i + 1).drop_last() =~= all.take(i as int));
            assert(all.take(i + 1).last() == (vs[i as int].0, vs[i as int].1@, placed_view(vs[i as int].2@)));
        }
        let ghost before = entries_view(entries@);
        if is_wanted(&want, vs[i].1.as_str()) {
            match find_place(&vs[i].2, fname.as_str()) {
                Some((t, o)) => {
                    let ghost tv = t@;
                    entries.push((vs[i].0, t, o));
                    assert(entries_view(entries@) =~= before.push((vs[i as int].0, tv, o as nat)));
                },
                None => {},
            }
        }
    }
    assert(all.take(vs.len() as int) =~= all);
    let ghost es = entries_view(entries@);
    assert(es == sum_field(program@, n@, field@));
    if entries.len() == 0 {
        return LoadPlan { load: Load::Unit, cases: Vec::new() };
    }
    let off0 = entries[0].2;
    let ty = clone_type(&entries[0].1);
    assert(es[0] == (entries[0].0, entries[0].1@, entries[0].2 as nat));
    let mut same: bool = true;
    let mut cases: Vec<(i32, u64)> = Vec::new();
    assert(cases@ =~= entry_cases(es).take(0));
    for i in 0..entries.len()
        invariant
            es == entries_view(entries@),
            es[0].2 == off0,
            same <==> forall|j: int| 0 <= j < i ==> (#[trigger] es[j]).2 == off0,
            cases@ == entry_cases(es).take(i as int),
    {
        assert(es[i as int] == (entries[i as int].0, entries[i as int].1@, entries[i as int].2 as nat));
        if entries[i].2 != off0 {
            same = false;
        }
        cases.push((entries[i].0, entries[i].2));
        assert(cases@ =~= entry_cases(es).take(i + 1));
    }
    assert(entry_cases(es).take(entries.len() as int) =~= entry_cases(es));
    if same {
        LoadPlan { load: Load::At(ty, off0), cases: Vec::new() }
    } else {
        LoadPlan { load: Load::ByTag(ty, off0), cases }
    }
}

/// How a field of a value of a type is read.
pub open spec fn field_load(p: ProgramV, t: TypeV, field: Seq<char>) -> Load<TypeV> {
    match t {
        TypeV::Record(n) => match record_places(p, n) {
            Some(ps) => match place_named(ps, field) {
                Some((ty, o)) => Load::At(ty, o as u64),
                None => Load::Null,
            },
            None => Load::Null,
        },
        TypeV::Sum(n) => sum_load(sum_field(p, n, field)),
        _ => Load::Null,
    }
}

/// How a field of a value of a type is read. A field that a record's layout does not
/// have reads as null.
pub fn load_field(program: &Program, base_ty: &Type, field: &str) -> (r: LoadPlan)
    requires
        fits(program@, base_ty@),
    ensures
        load_view(r.load) == field_load(program@, base_ty@, field@),
        r.load is ByTag ==> base_ty@ is Sum && r.cases@ == entry_cases(
            sum_field(program@, base_ty@->Sum_0, field@),
        ),
        !(r.load is ByTag) ==> r.cases@.len() == 0,
{
    match base_ty {
        Type::Record(n) => match record_fields(program, n) {
            Some(ps) => match find_place(&ps, field) {
                Some((t, o)) => LoadPlan { load: Load::At(t, o), cases: Vec::new() },
                None => LoadPlan { load: Load::Null, cases: Vec::new() },
            },
            None => LoadPlan { load: Load::Null, cases: Vec::new() },
        },
        Type::Sum(n) => load_sum_field(program, n, field),
        _ => LoadPlan { load: Load::Null, cases: Vec::new() },
    }
}

/// Where a field of a record is stored, if its layout has it.
pub fn store_field(program: &Program, base_ty: &Type, field: &str) -> (r: Option<u64>)
    requires
        fits(program@, base_ty@),
    ensures
        r == (match base_ty@ {
            TypeV::Record(n) => match record_places(program@, n) {
                Some(ps) => match place_named(ps, field@) {
                    Some((_, o)) => Some(o as u64),
                    None => None,
                },
                None => None,
            },
            _ => None,
        }),
{
    match base_ty {
        Type::Record(n) => match record_fields(program, n) {
            Some(ps) => match find_place(&ps, field) {
                Some((_, o)) => Some(o),
                None => None,
            },
            None => None,
        },
        _ => None,
    }
}

/// The tag that a value of a sum type has to have to match a variant; `None` where
/// it never matches.
pub fn pattern_tag(program: &Program, n: &NominalType, variant: &str) -> (r: Option<i32>)
    requires
        sum_fits(program@, n@),
    ensures
        r == (match variant_places(program@, n@, variant@) {
            Some((tag, _)) => Some(tag),
            None => None,
        }),
{
    match variant_layout(program, n, variant) {
        Some((tag, _)) => Some(tag),
        None => None,
    }
}

// ---- conversions ----

/// One step of a coercion.
#[derive(Clone, Copy, Debug, PartialEq)]
pub enum Conv<T> {
    /// Extend an integer to this many bits, copying the sign.
    SignExtend(u32),
    /// Extend an integer to this many bits with zeros.
    ZeroExtend(u32),
    /// Cut an integer to this many bits.
    Truncate(u32),
    FloatExtend,
    FloatTruncate,
    SignedToFloat(FloatKind),
    UnsignedToFloat(FloatKind),
    /// Put a value of this type into a fresh cell.
    Wrap(T),
    /// Take a value of this type out of its cell.
    Unwrap(T),
}

pub open spec fn conv_view(c: Conv<Type>) -> Conv<TypeV> {
    match c {
        Conv::SignExtend(b) => Conv::SignExtend(b),
        Conv::ZeroExtend(b) => Conv::ZeroExtend(b),
        Conv::Truncate(b) => Conv::Truncate(b),
        Conv::FloatExtend => Conv::FloatExtend,
        Conv::FloatTruncate => Conv::FloatTruncate,
        Conv::SignedToFloat(k) => Conv::SignedToFloat(k),
        Conv::UnsignedToFloat(k) => Conv::UnsignedToFloat(k),
        Conv::Wrap(t) => Conv::Wrap(t@),
        Conv::Unwrap(t) => Conv::Unwrap(t@),
    }
}

pub open spec fn convs_view(v: Seq<Conv<Type>>) -> Seq<Conv<TypeV>> {
    Seq::new(v.len(), |i: int| conv_view(v[i]))
}

/// The steps that turn a value of one type into one of another. Numbers change
/// width or kind; a value becomes nullable in a cell, after it was turned into what
/// the cell holds; a nullable becomes a value by being taken out.
pub open spec fn coercion(from: TypeV, to: TypeV) -> Seq<Conv<TypeV>>
    decreases to,
{
    match (from, to) {
        (TypeV::Int(fk), TypeV::Int(tk)) => if bits(fk) == bits(tk) {
            Seq::empty()
        } else if bits(tk) < bits(fk) {
            seq![Conv::Truncate(bits(tk) as u32)]
        } else if signed_kind(fk) {
            seq![Conv::SignExtend(bits(tk) as u32)]
        } else {
            seq![Conv::ZeroExtend(bits(tk) as u32)]
        },
        (TypeV::Float(FloatKind::F32), TypeV::Float(FloatKind::F64)) => seq![Conv::FloatExtend],
        (TypeV::Float(FloatKind::F64), TypeV::Float(FloatKind::F32)) => seq![Conv::FloatTruncate],
        (TypeV::Int(k), TypeV::Float(fk)) => if signed_kind(k) {
            seq![Conv::SignedToFloat(fk)]
        } else {
            seq![Conv::UnsignedToFloat(fk)]
        },
        (TypeV::Nullable(_), TypeV::Nullable(_)) => Seq::empty(),
        (_, TypeV::Nullable(inner)) => coercion(from, *inner).push(Conv::Wrap(*inner)),
        (TypeV::Nullable(_), _) => seq![Conv::Unwrap(to)],
        _ => Seq::empty(),
    }
}

fn push_conv(c: Conv<Type>, out: &mut Vec<Conv<Type>>)
    ensures
        convs_view(final(out)@) == convs_view(old(out)@).push(conv_view(c)),
{
    let ghost start = convs_view(out@);
    out.push(c);
    assert(convs_view(out@) =~= start.push(conv_view(c)));
}

/// The steps that turn a value of one type into one of another.
pub fn coerce(from: &Type, to: &Type) -> (r: Vec<Conv<Type>>)
    ensures
        convs_view(r@) == coercion(from@, to@),
    decreases *to,
{
    let mut out: Vec<Conv<Type>> = Vec::new();
    assert(convs_view(out@) =~= Seq::<Conv<TypeV>>::empty());
    match (from, to) {
        (Type::Int(fk), Type::Int(tk)) => {
            let (fb, tb) = (int_bits_of(*fk), int_bits_of(*tk));
            if fb != tb {
                if tb < fb {
                    push_conv(Conv::Truncate(tb), &mut out);
                } else if int_signed(*fk) {
                    push_conv(Conv::SignExtend(tb), &mut out);
                } else {
                    push_conv(Conv::ZeroExtend(tb), &mut out);
                }
            }
        },
        (Type::Float(a), Type::Float(b)) => match (a, b) {
            (FloatKind::F32, FloatKind::F64) => push_conv(Conv::FloatExtend, &mut out),
            (FloatKind::F64, FloatKind::F32) => push_conv(Conv::FloatTruncate, &mut out),
            _ => {},
        },
        (Type::Int(k), Type::Float(fk)) => {
            if int_signed(*k) {
                push_conv(Conv::SignedToFloat(*fk), &mut out);
            } else {
                push_conv(Conv::UnsignedToFloat(*fk), &mut out);
            }
        },
        (Type::Nullable(_), Type::Nullable(_)) => {},
        (_, Type::Nullable(inner)) => {
            out = coerce(from, inner);
            push_conv(Conv::Wrap(clone_type(inner)), &mut out);
        },
        (Type::Nullable(_), _) => push_conv(Conv::Unwrap(clone_type(to)), &mut out),
        _ => {},
    }
    assert(convs_view(out@) =~= coercion(from@, to@));
    out
}

/// A value never changes when it already has the type.
pub proof fn coercion_to_itself(t: TypeV)
    requires
        !(t is Nullable),
    ensures
        coercion(t, t).len() == 0,
{
}

/// A runtime conversion: the function to call, the tag of the target type, whether
/// the argument is text to parse, and whether the result has to be cut to `float32`.
#[derive(Clone, Copy, Debug, PartialEq)]
pub struct Conversion {
    pub symbol: &'static str,
    pub tag: i64,
    pub parse: bool,
    pub narrow: bool,
}

/// The runtime conversion of `T.parse(text)` or `T.from(value)`; `None` for other
/// targets.
pub fn convert(target: &Type, method: &str) -> (r: Option<Conversion>)
    ensures
        match target@ {
            TypeV::Int(k) => r matches Some(c) && c.tag == runtime_tag(k) && c.parse == (method@
                == "parse"@) && !c.narrow && c.symbol@ == (if c.parse {
                "pp_conv_int_parse"@
            } else {
                "pp_conv_int_from"@
            }),
            TypeV::Float(k) => r matches Some(c) && c.tag == (if k == FloatKind::F32 {
                16int
            } else {
                17
            }) && c.parse == (method@ == "parse"@) && c.narrow == (k == FloatKind::F32 && !c.parse)
                && c.symbol@ == (if c.parse {
                "pp_conv_float_parse"@
            } else {
                "pp_conv_float_from"@
            }),
            _ => r is None,
        },
{
    let parse = str_eq(method, "parse");
    match target {
        Type::Int(k) => {
            let tag = int_runtime_tag(*k);
            let symbol: &'static str = if parse {
                "pp_conv_int_parse"
            } else {
                "pp_conv_int_from"
            };
            Some(Conversion { symbol, tag, parse, narrow: false })
        },
        Type::Float(k) => {
            let narrow = matches!(k, FloatKind::F32);
            let tag: i64 = if narrow {
                16
            } else {
                17
            };
            let symbol: &'static str = if parse {
                "pp_conv_float_parse"
            } else {
                "pp_conv_float_from"
            };
            Some(Conversion { symbol, tag, parse, narrow: narrow && !parse })
        },
        _ => None,
    }
}

/// How a condition of a type is tested.
#[derive(Clone, Copy, Debug, PartialEq, Eq, Structural)]
pub enum Truth {
    /// It is the truth value.
    Itself,
    /// It holds when not null.
    NotNull,
    /// It always holds.
    Always,
}

/// How a condition of a type is tested.
pub open spec fn truth_test(t: TypeV) -> Truth {
    match t {
        TypeV::Bool => Truth::Itself,
        TypeV::Nullable(_) => Truth::NotNull,
        _ => Truth::Always,
    }
}

/// How a condition of a type is tested.
pub fn truthy(ty: &Type) -> (r: Truth)
    ensures
        r == truth_test(ty@),
{
    match ty {
        Type::Bool => Truth::Itself,
        Type::Nullable(_) => Truth::NotNull,
        _ => Truth::Always,
    }
}

// ---- operators ----

/// How two floats are compared. All but the last are false when an operand is not a
/// number.
#[derive(Clone, Copy, Debug, PartialEq, Eq, Structural)]
pub enum FloatCompare {
    Eq,
    Lt,
    Gt,
    Le,
    Ge,
    /// Unequal, or not a number.
    NeOrNan,
}

/// What a float comparison operator compares.
pub open spec fn float_comparison(op: BinOp) -> FloatCompare {
    match op {
        BinOp::Eq => FloatCompare::Eq,
        BinOp::Ne => FloatCompare::NeOrNan,
        BinOp::Lt => FloatCompare::Lt,
        BinOp::Gt => FloatCompare::Gt,
        BinOp::Le => FloatCompare::Le,
        _ => FloatCompare::Ge,
    }
}

/// The comparison a float comparison operator makes.
pub fn float_predicate(op: BinOp) -> (r: FloatCompare)
    requires
        comparison(op),
    ensures
        r == float_comparison(op),
{
    match op {
        BinOp::Eq => FloatCompare::Eq,
        BinOp::Ne => FloatCompare::NeOrNan,
        BinOp::Lt => FloatCompare::Lt,
        BinOp::Gt => FloatCompare::Gt,
        BinOp::Le => FloatCompare::Le,
        _ => FloatCompare::Ge,
    }
}

/// What a binary operator becomes.
#[derive(Debug, PartialEq)]
pub enum BinPlan {
    /// Integer code.
    Int(IntCode),
    FloatCompare(FloatCompare),
    /// Float addition, subtraction, multiplication or division.
    FloatArith(BinOp),
    /// Comparison of truth values.
    Bool(Compare),
    /// Concatenation of texts.
    StrConcat,
    /// Equality of texts; negated if set.
    StrEq(bool),
    /// Comparison of pointers; negated if set.
    Pointers(bool),
    /// Nothing.
    Unit,
}

/// What a binary operator becomes for operands of a type.
pub open spec fn bin_plan_of(op: BinOp, t: TypeV, r: BinPlan) -> bool {
    match t {
        TypeV::Int(k) => if op == BinOp::And || op == BinOp::Or {
            r is Unit
        } else {
            r matches BinPlan::Int(c) && c.trap_on_zero == (op == BinOp::Div || op == BinOp::Rem)
                && forall|x: Word, y: Word|
                of_kind(x, k) && of_kind(y, k) && (c.trap_on_zero ==> y.bits != 0) ==> result(
                    c.steps@,
                    x,
                    y,
                ) == meaning(op, k, x, y)
        },
        TypeV::Float(_) => if comparison(op) {
            r == BinPlan::FloatCompare(float_comparison(op))
        } else if op == BinOp::Add || op == BinOp::Sub || op == BinOp::Mul || op == BinOp::Div {
            r == BinPlan::FloatArith(op)
        } else {
            r is Unit
        },
        TypeV::Bool => r == BinPlan::Bool(predicate(op, false)),
        TypeV::Str => match op {
            BinOp::Add => r is StrConcat,
            BinOp::Eq => r == BinPlan::StrEq(false),
            BinOp::Ne => r == BinPlan::StrEq(true),
            _ => r is Unit,
        },
        _ => if traced(t) && op == BinOp::Eq {
            r == BinPlan::Pointers(false)
        } else if traced(t) && op == BinOp::Ne {
            r == BinPlan::Pointers(true)
        } else {
            r is Unit
        },
    }
}

/// What a binary operator becomes for operands of a type. Truth values are only
/// compared.
pub fn bin_op(op: BinOp, operand_ty: &Type) -> (r: BinPlan)
    requires
        operand_ty@ is Bool ==> comparison(op),
    ensures
        bin_plan_of(op, operand_ty@, r),
{
    match operand_ty {
        Type::Int(k) => match int_code(op, *k) {
            Some(c) => BinPlan::Int(c),
            None => BinPlan::Unit,
        },
        Type::Float(_) => {
            if codegen_is_int_cmp(op) {
                BinPlan::FloatCompare(float_predicate(op))
            } else {
                match op {
                    BinOp::Add | BinOp::Sub | BinOp::Mul | BinOp::Div => BinPlan::FloatArith(op),
                    _ => BinPlan::Unit,
                }
            }
        },
        Type::Bool => BinPlan::Bool(int_predicate(op, false)),
        Type::Str => match op {
            BinOp::Add => BinPlan::StrConcat,
            BinOp::Eq => BinPlan::StrEq(false),
            BinOp::Ne => BinPlan::StrEq(true),
            _ => BinPlan::Unit,
        },
        _ => {
            if is_traced(operand_ty) {
                match op {
                    BinOp::Eq => BinPlan::Pointers(false),
                    BinOp::Ne => BinPlan::Pointers(true),
                    _ => BinPlan::Unit,
                }
            } else {
                BinPlan::Unit
            }
        },
    }
}

/// What a prefix operator becomes.
#[derive(Clone, Copy, Debug, PartialEq, Eq, Structural)]
pub enum UnPlan {
    FloatNeg,
    IntNeg,
    IsNull,
    Not,
}

/// What a prefix operator becomes for an operand of a type: `!x` of a nullable tests
/// for null.
pub open spec fn un_plan(op: UnaryOp, t: TypeV) -> UnPlan {
    match op {
        UnaryOp::Neg => if t is Float {
            UnPlan::FloatNeg
        } else {
            UnPlan::IntNeg
        },
        _ => if t is Nullable {
            UnPlan::IsNull
        } else {
            UnPlan::Not
        },
    }
}

/// What a prefix operator becomes for an operand of a type.
pub fn un_op(op: UnaryOp, operand_ty: &Type) -> (r: UnPlan)
    ensures
        r == un_plan(op, operand_ty@),
{
    match op {
        UnaryOp::Neg => if matches!(operand_ty, Type::Float(_)) {
            UnPlan::FloatNeg
        } else {
            UnPlan::IntNeg
        },
        _ => if matches!(operand_ty, Type::Nullable(_)) {
            UnPlan::IsNull
        } else {
            UnPlan::Not
        },
    }
}

/// The machine function of a float built-in.
pub open spec fn float_function(name: Seq<char>) -> Option<Seq<char>> {
    if name == "_float_sqrt"@ {
        Some("llvm.sqrt.f64"@)
    } else if name == "_float_floor"@ {
        Some("llvm.floor.f64"@)
    } else if name == "_float_ceil"@ {
        Some("llvm.ceil.f64"@)
    } else if name == "_float_pow"@ {
        Some("llvm.pow.f64"@)
    } else {
        None
    }
}

/// The machine function of a float built-in.
pub fn float_builtin(name: &str) -> (r: Option<&'static str>)
    ensures
        crate::mutation::opt_str(r) == float_function(name@),
{
    if str_eq(name, "_float_sqrt") {
        Some("llvm.sqrt.f64")
    } else if str_eq(name, "_float_floor") {
        Some("llvm.floor.f64")
    } else if str_eq(name, "_float_ceil") {
        Some("llvm.ceil.f64")
    } else if str_eq(name, "_float_pow") {
        Some("llvm.pow.f64")
    } else {
        None
    }
}

// ---- plugin calls ----

/// How an argument is put into its eight-byte slot.
#[derive(Clone, Copy, Debug, PartialEq, Eq, Structural)]
pub enum Slot {
    ZeroExtended,
    SignExtended,
    /// The bits of a float.
    Bits,
    /// The address of a heap object.
    Address,
}

/// How an argument of a type is put into its slot.
pub open spec fn slot_of(t: TypeV) -> Slot {
    match t {
        TypeV::Bool => Slot::ZeroExtended,
        TypeV::Int(_) => Slot::SignExtended,
        TypeV::Float(_) => Slot::Bits,
        _ => Slot::Address,
    }
}

/// How an argument of a type is put into its slot.
pub fn plugin_slot(ty: &Type) -> (r: Slot)
    ensures
        r == slot_of(ty@),
{
    match ty {
        Type::Bool => Slot::ZeroExtended,
        Type::Int(_) => Slot::SignExtended,
        Type::Float(_) => Slot::Bits,
        _ => Slot::Address,
    }
}

/// How a plugin's raw result is shaped.
#[derive(Clone, Copy, Debug, PartialEq, Eq, Structural)]
pub enum Shape {
    Unit,
    /// Whether it is not zero.
    NotZero,
    Raw,
}

/// How the raw result of a plugin is shaped to a type.
pub fn plugin_result(ret: &Type) -> (r: Shape)
    ensures
        r == (match ret@ {
            TypeV::Void => Shape::Unit,
            TypeV::Bool => Shape::NotZero,
            _ => Shape::Raw,
        }),
{
    match ret {
        Type::Void => Shape::Unit,
        Type::Bool => Shape::NotZero,
        _ => Shape::Raw,
    }
}

/// What a runtime entry for plugin calls returns.
#[derive(Clone, Copy, Debug, PartialEq, Eq, Structural)]
pub enum RawResult {
    /// A 64-bit integer.
    Int,
    /// A 64-bit float.
    Float,
    /// An object.
    Object,
}

/// What the runtime entry of a name returns.
pub open spec fn raw_result(rt_name: Seq<char>) -> RawResult {
    if rt_name == "pp_plugin_call_int"@ {
        RawResult::Int
    } else if rt_name == "pp_plugin_call_float"@ {
        RawResult::Float
    } else {
        RawResult::Object
    }
}

/// A call of a plugin: the arguments go to consecutive eight-byte slots.
#[derive(Debug, PartialEq)]
pub struct PluginCall {
    pub slots: Vec<Slot>,
    pub raw: RawResult,
    pub shape: Shape,
}

/// How a plugin is called through the runtime entry of a name, with arguments of the
/// types.
pub fn plugin_call(rt_name: &str, args: &Vec<Type>, ret: &Type) -> (r: PluginCall)
    ensures
        r.slots@ == Seq::new(args.len() as nat, |i: int| slot_of(args[i]@)),
        r.raw == raw_result(rt_name@),
        r.shape == (match ret@ {
            TypeV::Void => Shape::Unit,
            TypeV::Bool => Shape::NotZero,
            _ => Shape::Raw,
        }),
{
    let mut slots: Vec<Slot> = Vec::new();
    let ghost want = Seq::new(args.len() as nat, |i: int| slot_of(args[i]@));
    for i in 0..args.len()
        invariant
            want == Seq::new(args.len() as nat, |i: int| slot_of(args[i]@)),
            slots@ == want.take(i as int),
    {
        slots.push(plugin_slot(&args[i]));
        assert(want.take(i + 1) =~= want.take(i as int).push(want[i as int]));
    }
    assert(want.take(args.len() as int) =~= want);
    let raw = if str_eq(rt_name, "pp_plugin_call_int") {
        RawResult::Int
    } else if str_eq(rt_name, "pp_plugin_call_float") {
        RawResult::Float
    } else {
        RawResult::Object
    };
    PluginCall { slots, raw, shape: plugin_result(ret) }
}

// ---- program-wide decisions ----

/// The names that functions other than initializers write, where each function is
/// given by its symbol and the globals it writes.
pub open spec fn written_outside(fns: Seq<(Seq<char>, Seq<Seq<char>>)>, inits: Seq<Seq<char>>, n: Seq<
    char,
>) -> bool {
    exists|i: int|
        0 <= i < fns.len() && !inits.contains((#[trigger] fns[i]).0) && fns[i].1.contains(n)
}

pub open spec fn writers_view(v: Seq<(String, Vec<String>)>) -> Seq<(Seq<char>, Seq<Seq<char>>)> {
    Seq::new(v.len(), |i: int| (v[i].0@, texts(v[i].1@)))
}

/// The globals that are stored as heap pointers and that no function but an
/// initializer writes.
pub open spec fn frozen_globals(
    globals: Seq<(Seq<char>, TypeV)>,
    fns: Seq<(Seq<char>, Seq<Seq<char>>)>,
    inits: Seq<Seq<char>>,
) -> Seq<Seq<char>>
    decreases globals.len(),
{
    if globals.len() == 0 {
        Seq::empty()
    } else {
        let rest = frozen_globals(globals.drop_last(), fns, inits);
        if heap_pointer(globals.last().1) && !written_outside(fns, inits, globals.last().0) {
            rest.push(globals.last().0)
        } else {
            rest
        }
    }
}

fn is_written_outside(fns: &Vec<(String, Vec<String>)>, inits: &Vec<String>, n: &str) -> (r: bool)
    ensures
        r == written_outside(writers_view(fns@), texts(inits@), n@),
{
    let ghost all = writers_view(fns@);
    for i in 0..fns.len()
        invariant
            all == writers_view(fns@),
            forall|j: int|
                0 <= j < i ==> texts(inits@).contains((#[trigger] all[j]).0) || !all[j].1.contains(
                    n@,
                ),
    {
        assert(all[i as int] == (fns[i as int].0@, texts(fns[i as int].1@)));
        if !contains_string(inits.as_slice(), fns[i].0.as_str()) && contains_string(
            fns[i].1.as_slice(),
            n,
        ) {
            return true;
        }
    }
    false
}

/// The globals to freeze once the modules are initialized: heap pointers that only
/// initializers write.
pub fn immutable_heap_globals(
    globals: &Vec<(String, Type)>,
    fns: &Vec<(String, Vec<String>)>,
    inits: &Vec<String>,
) -> (r: Vec<String>)
    ensures
        texts(r@) == frozen_globals(pairs(globals@), writers_view(fns@), texts(inits@)),
{
    let mut out: Vec<String> = Vec::new();
    let ghost all = pairs(globals@);
    let ghost fv = writers_view(fns@);
    let ghost iv = texts(inits@);
    assert(texts(out@) =~= frozen_globals(all.take(0), fv, iv));
    for i in 0..globals.len()
        invariant
            all == pairs(globals@),
            fv == writers_view(fns@),
            iv == texts(inits@),
            texts(out@) == frozen_globals(all.take(i as int), fv, iv),
    {
        proof {
            assert(all.take(i + 1).drop_last() =~= all.take(i as int));
            assert(all.take(i + 1).last() == (globals[i as int].0@, globals[i as int].1@));
        }
        let ghost before = texts(out@);
        if is_heap_pointer_type(&globals[i].1) && !is_written_outside(
            fns,
            inits,
            globals[i].0.as_str(),
        ) {
            out.push(globals[i].0.clone());
            assert(texts(out@) =~= before.push(globals[i as int].0@));
        }
    }
    assert(all.take(globals.len() as int) =~= all);
    out
}

/// The symbol of the first function with a source name, or the name itself.
pub open spec fn consumer_symbol(fs: Seq<(Seq<char>, FunInfoV)>, name: Seq<char>) -> Seq<char>
    decreases fs.len(),
{
    if fs.len() == 0 {
        name
    } else if fs[0].1.signature.name == name {
        fs[0].1.symbol
    } else {
        consumer_symbol(fs.drop_first(), name)
    }
}

/// The storage symbol that a deferred call of `consumer` resolves.
pub fn deferred_dispatch(program: &Program, consumer: &str) -> (r: String)
    ensures
        r@ == consumer_symbol(program@.functions, consumer@),
{
    let ghost all = named_fun_infos_view(program.functions@);
    assert(all.skip(0) =~= all);
    for i in 0..program.functions.len()
        invariant
            all == named_fun_infos_view(program.functions@),
            consumer_symbol(all, consumer@) == consumer_symbol(all.skip(i as int), consumer@),
    {
        let f = &program.functions[i].1;
        proof {
            assert(all[i as int] == (program.functions[i as int].0@, f@));
            assert(all.skip(i as int)[0] == all[i as int]);
            assert(all.skip(i as int).drop_first() =~= all.skip(i + 1));
        }
        if str_eq(f.signature.name.as_str(), consumer) {
            return f.symbol.clone();
        }
    }
    assert(all.skip(program.functions.len() as int).len() == 0);
    consumer.to_owned()
}

/// How many basic blocks a function may have to be inlined at every call.
pub const SMALL_BLOCKS: u32 = 4;

/// Whether a function with that many basic blocks is inlined at every call; a mere
/// declaration has none.
pub fn always_inline(blocks: u32) -> (r: bool)
    ensures
        r == (0 < blocks <= SMALL_BLOCKS),
{
    blocks > 0 && blocks <= SMALL_BLOCKS
}

} // verus!
