//! How emitted code copies a value: what the copy function of a type makes, and which
//! value of the original goes where.

use vstd::prelude::*;
use crate::hir::{Program, ProgramV};
use crate::layout::{end_of, field_types, is_traced, nats, object_size, offset_of, offsets_of, placed, placed_view, record_layout, record_places, record_size, size_align, sum_places, sum_size, sum_total_size, sum_variant_fields, sum_view, traced, tuple_layout, type_size_align, unwrap_copy_wrappers, unwrapped, HEADER};
use crate::objects::make_cell;
use crate::plan::{fits, place_named};
use crate::table::{first_pos, first_pos_facts, first_pos_unique};
use crate::text::str_eq;
use crate::types::{clone_type, opt_type, types_view, Type, TypeV};

verus! {

// ---- one value ----

/// The type whose copy function copies a value of the given type, or `None` where the
/// value itself is the copy.
pub open spec fn copied_by(t: TypeV) -> Option<TypeV> {
    if traced(unwrapped(t)) {
        Some(unwrapped(t))
    } else {
        None
    }
}

/// The type whose copy function copies a value, or `None` where the value itself is
/// the copy.
pub fn deep_copy(ty: &Type) -> (r: Option<Type>)
    ensures
        opt_type(r) == copied_by(ty@),
{
    let inner = unwrap_copy_wrappers(ty);
    if is_traced(inner) {
        Some(clone_type(inner))
    } else {
        None
    }
}

/// The copy of a value; `copy` is what the copy function of a type gives.
pub open spec fn copied(by: Option<TypeV>, x: int, copy: spec_fn(TypeV, int) -> int) -> int {
    match by {
        Some(t) => copy(t, x),
        None => x,
    }
}

// ---- moves ----

/// A value loaded at one offset of the original, copied by the copy function of a type
/// if there is one, and stored at an offset of the copy.
#[derive(Debug, PartialEq)]
pub struct Move {
    pub from: u64,
    pub ty: Type,
    pub by: Option<Type>,
    pub to: u64,
}

/// The model of [`Move`].
#[verifier::ext_equal]
pub ghost struct MoveV {
    pub from: nat,
    pub ty: TypeV,
    pub by: Option<TypeV>,
    pub to: nat,
}

impl View for Move {
    type V = MoveV;

    open spec fn view(&self) -> MoveV {
        MoveV { from: self.from as nat, ty: self.ty@, by: opt_type(self.by), to: self.to as nat }
    }
}

pub open spec fn moves_view(v: Seq<Move>) -> Seq<MoveV> {
    Seq::new(v.len(), |i: int| v[i]@)
}

/// The names of placed fields.
pub open spec fn place_names(ps: Seq<(Seq<char>, TypeV, nat)>) -> Seq<Seq<char>> {
    Seq::new(ps.len(), |i: int| ps[i].0)
}

/// The moves of placed fields: each place takes the copy of the field of its name.
pub open spec fn field_moves(ps: Seq<(Seq<char>, TypeV, nat)>) -> Seq<MoveV> {
    Seq::new(
        ps.len(),
        |i: int|
            {
                let k = first_pos(place_names(ps), ps[i].0);
                MoveV { from: ps[k].2, ty: ps[k].1, by: copied_by(ps[k].1), to: ps[i].2 }
            },
    )
}

/// The moves of the elements of a tuple.
pub open spec fn tuple_moves(ts: Seq<TypeV>) -> Seq<MoveV> {
    Seq::new(
        ts.len(),
        |i: int|
            {
                let o = offsets_of(ts, HEADER as nat)[i];
                MoveV { from: o, ty: ts[i], by: copied_by(ts[i]), to: o }
            },
    )
}

fn position_in(places: &Vec<(String, Type, u64)>, i: usize) -> (r: usize)
    requires
        i < places.len(),
    ensures
        r < places.len(),
        r == first_pos(place_names(placed_view(places@)), places[i as int].0@),
{
    let ghost names = place_names(placed_view(places@));
    for j in 0..i
        invariant
            i < places.len(),
            names == place_names(placed_view(places@)),
            forall|k: int| 0 <= k < j ==> names[k] != places[i as int].0@,
    {
        assert(names[j as int] == places[j as int].0@);
        if str_eq(places[j].0.as_str(), places[i].0.as_str()) {
            proof {
                first_pos_unique(names, places[i as int].0@, j as int);
            }
            return j;
        }
    }
    proof {
        assert(names[i as int] == places[i as int].0@);
        first_pos_unique(names, places[i as int].0@, i as int);
    }
    i
}

fn moves_of_fields(places: &Vec<(String, Type, u64)>) -> (r: Vec<Move>)
    ensures
        moves_view(r@) == field_moves(placed_view(places@)),
{
    let mut out: Vec<Move> = Vec::new();
    let ghost ps = placed_view(places@);
    let ghost want = field_moves(ps);
    assert(moves_view(out@) =~= want.take(0));
    for i in 0..places.len()
        invariant
            ps == placed_view(places@),
            want == field_moves(ps),
            moves_view(out@) == want.take(i as int),
    {
        let k = position_in(places, i);
        let by = deep_copy(&places[k].1);
        let ghost before = moves_view(out@);
        let m = Move { from: places[k].2, ty: clone_type(&places[k].1), by, to: places[i].2 };
        let ghost mv = m@;
        out.push(m);
        proof {
            assert(ps[k as int] == (
                places[k as int].0@,
                places[k as int].1@,
                places[k as int].2 as nat,
            ));
            assert(mv == want[i as int]);
            assert(moves_view(out@) =~= before.push(mv));
            assert(want.take(i + 1) =~= want.take(i as int).push(want[i as int]));
        }
    }
    assert(want.take(places.len() as int) =~= want);
    out
}

fn moves_of_tuple(ts: &Vec<Type>, offsets: &Vec<u64>) -> (r: Vec<Move>)
    requires
        nats(offsets@) == offsets_of(types_view(ts@), HEADER as nat),
    ensures
        moves_view(r@) == tuple_moves(types_view(ts@)),
{
    let mut out: Vec<Move> = Vec::new();
    let ghost tv = types_view(ts@);
    let ghost want = tuple_moves(tv);
    assert(nats(offsets@).len() == offsets.len());
    assert(moves_view(out@) =~= want.take(0));
    for i in 0..ts.len()
        invariant
            tv == types_view(ts@),
            want == tuple_moves(tv),
            offsets.len() == ts.len(),
            nats(offsets@) == offsets_of(tv, HEADER as nat),
            moves_view(out@) == want.take(i as int),
    {
        let by = deep_copy(&ts[i]);
        let ghost before = moves_view(out@);
        let m = Move { from: offsets[i], ty: clone_type(&ts[i]), by, to: offsets[i] };
        let ghost mv = m@;
        out.push(m);
        proof {
            assert(tv[i as int] == ts[i as int]@);
            assert(nats(offsets@)[i as int] == offsets[i as int] as nat);
            assert(mv == want[i as int]);
            assert(moves_view(out@) =~= before.push(mv));
            assert(want.take(i + 1) =~= want.take(i as int).push(want[i as int]));
        }
    }
    assert(want.take(ts.len() as int) =~= want);
    out
}

// ---- copy functions ----

/// What the copy function of a type does with a value.
#[derive(Debug, PartialEq)]
pub enum CopyRoutine {
    /// It fills a fresh object of this size.
    Fresh(u64, Vec<Move>),
    /// By the tag, it fills a fresh object of this size with the same tag. A value with
    /// any other tag is shared and its count raised.
    ByTag(u64, Vec<(i32, Vec<Move>)>),
    /// Null stays null; else it fills a fresh cell of this size, which owns the copy.
    Cell(u64, Move),
    /// It makes an array with a buffer of its own. Elements of this size are copied one
    /// by one by the copy function of a type, or their bytes as they are.
    Elements(u64, Option<Type>),
    /// The value is shared and its count raised.
    Share,
    /// There is nothing to copy: it gives the unit value.
    Unit,
}

/// The model of [`CopyRoutine`].
#[verifier::ext_equal]
pub ghost enum CopyRoutineV {
    Fresh(nat, Seq<MoveV>),
    ByTag(nat, Seq<(i32, Seq<MoveV>)>),
    Cell(nat, MoveV),
    Elements(nat, Option<TypeV>),
    Share,
    Unit,
}

pub open spec fn tagged_view(v: Seq<(i32, Vec<Move>)>) -> Seq<(i32, Seq<MoveV>)> {
    Seq::new(v.len(), |i: int| (v[i].0, moves_view(v[i].1@)))
}

impl View for CopyRoutine {
    type V = CopyRoutineV;

    open spec fn view(&self) -> CopyRoutineV {
        match *self {
            CopyRoutine::Fresh(n, ms) => CopyRoutineV::Fresh(n as nat, moves_view(ms@)),
            CopyRoutine::ByTag(n, vs) => CopyRoutineV::ByTag(n as nat, tagged_view(vs@)),
            CopyRoutine::Cell(n, m) => CopyRoutineV::Cell(n as nat, m@),
            CopyRoutine::Elements(n, by) => CopyRoutineV::Elements(n as nat, opt_type(by)),
            CopyRoutine::Share => CopyRoutineV::Share,
            CopyRoutine::Unit => CopyRoutineV::Unit,
        }
    }
}

/// The moves of each variant of a sum.
pub open spec fn variant_moves(vs: Seq<(i32, Seq<char>, Seq<(Seq<char>, TypeV, nat)>)>) -> Seq<
    (i32, Seq<MoveV>),
> {
    Seq::new(vs.len(), |i: int| (vs[i].0, field_moves(vs[i].2)))
}

/// How the elements of a type are copied: by the type's own copy function if they are
/// heap references.
pub open spec fn element_copy(t: TypeV) -> Option<TypeV> {
    if traced(t) {
        Some(t)
    } else {
        None
    }
}

/// What the copy function of a type does; a record without a layout
/// has no objects.
pub open spec fn copying(p: ProgramV, t: TypeV) -> CopyRoutineV {
    match t {
        TypeV::Record(n) => match record_places(p, n) {
            Some(ps) => CopyRoutineV::Fresh(record_size(p, n)->0, field_moves(ps)),
            None => CopyRoutineV::Unit,
        },
        TypeV::Tuple(ts) => CopyRoutineV::Fresh(
            object_size(end_of(ts, HEADER as nat)),
            tuple_moves(ts),
        ),
        TypeV::Sum(n) => CopyRoutineV::ByTag(sum_size(p, n), variant_moves(sum_places(p, n))),
        TypeV::Nullable(inner) => CopyRoutineV::Cell(
            object_size(HEADER as nat + size_align(*inner).0),
            MoveV {
                from: HEADER as nat,
                ty: *inner,
                by: copied_by(*inner),
                to: HEADER as nat,
            },
        ),
        TypeV::Slice(e) => CopyRoutineV::Elements(size_align(*e).0, element_copy(*e)),
        TypeV::Array(e, _) => CopyRoutineV::Elements(size_align(*e).0, element_copy(*e)),
        _ => CopyRoutineV::Share,
    }
}

fn moves_of_variants(vs: &Vec<(i32, String, Vec<(String, Type, u64)>)>) -> (r: Vec<
    (i32, Vec<Move>),
>)
    ensures
        tagged_view(r@) == variant_moves(sum_view(vs@)),
{
    let mut out: Vec<(i32, Vec<Move>)> = Vec::new();
    let ghost all = sum_view(vs@);
    let ghost want = variant_moves(all);
    assert(tagged_view(out@) =~= want.take(0));
    for i in 0..vs.len()
        invariant
            all == sum_view(vs@),
            want == variant_moves(all),
            tagged_view(out@) == want.take(i as int),
    {
        let ms = moves_of_fields(&vs[i].2);
        let ghost before = tagged_view(out@);
        let ghost mv = moves_view(ms@);
        out.push((vs[i].0, ms));
        proof {
            assert(all[i as int] == (
                vs[i as int].0,
                vs[i as int].1@,
                placed_view(vs[i as int].2@),
            ));
            assert(tagged_view(out@) =~= before.push((vs[i as int].0, mv)));
            assert(want.take(i + 1) =~= want.take(i as int).push(want[i as int]));
        }
    }
    assert(want.take(vs.len() as int) =~= want);
    out
}

fn element_routine(e: &Type) -> (r: CopyRoutine)
    ensures
        r@ == CopyRoutineV::Elements(size_align(e@).0, element_copy(e@)),
{
    let (size, _) = type_size_align(e);
    let by = if is_traced(e) {
        Some(clone_type(e))
    } else {
        None
    };
    CopyRoutine::Elements(size, by)
}

/// What the copy function of a type does.
pub fn copy_routine(program: &Program, ty: &Type) -> (r: CopyRoutine)
    requires
        fits(program@, ty@),
    ensures
        r@ == copying(program@, ty@),
{
    match ty {
        Type::Record(n) => match record_layout(program, n) {
            Some((places, size)) => CopyRoutine::Fresh(size, moves_of_fields(&places)),
            None => CopyRoutine::Unit,
        },
        Type::Tuple(ts) => {
            assert(types_view(ts@).len() == ts.len());
            let (offsets, size) = tuple_layout(ts);
            CopyRoutine::Fresh(size, moves_of_tuple(ts, &offsets))
        },
        Type::Sum(n) => {
            let vs = sum_variant_fields(program, n);
            CopyRoutine::ByTag(sum_total_size(program, n), moves_of_variants(&vs))
        },
        Type::Nullable(inner) => {
            let cell = make_cell(inner, true);
            let by = deep_copy(inner);
            CopyRoutine::Cell(
                cell.size,
                Move { from: HEADER, ty: clone_type(inner), by, to: HEADER },
            )
        },
        Type::Slice(e) => element_routine(e),
        Type::Array(e, _) => element_routine(e),
        _ => CopyRoutine::Share,
    }
}

// ---- what a copy holds ----

/// What moves put into a fresh object, from what the original holds at each offset.
pub open spec fn moved(
    ms: Seq<MoveV>,
    at: spec_fn(nat) -> int,
    copy: spec_fn(TypeV, int) -> int,
) -> Map<nat, int>
    decreases ms.len(),
{
    if ms.len() == 0 {
        Map::empty()
    } else {
        let m = ms.last();
        moved(ms.drop_last(), at, copy).insert(m.to, copied(m.by, at(m.from), copy))
    }
}

proof fn moved_keeps(
    ms: Seq<MoveV>,
    at: spec_fn(nat) -> int,
    copy: spec_fn(TypeV, int) -> int,
    i: int,
)
    requires
        0 <= i < ms.len(),
        forall|j: int| i < j < ms.len() ==> (#[trigger] ms[j]).to != ms[i].to,
    ensures
        moved(ms, at, copy).contains_key(ms[i].to),
        moved(ms, at, copy)[ms[i].to] == copied(ms[i].by, at(ms[i].from), copy),
    decreases ms.len(),
{
    if i < ms.len() - 1 {
        let rest = ms.drop_last();
        assert forall|j: int| i < j < rest.len() implies (#[trigger] rest[j]).to != rest[i].to by {
            assert(rest[j] == ms[j]);
        }
        moved_keeps(rest, at, copy, i);
        assert(ms[ms.len() - 1].to != ms[i].to);
    }
}

proof fn places_rise(fs: Seq<(Seq<char>, TypeV)>, start: nat, i: int, j: int)
    requires
        0 <= i < j < fs.len(),
    ensures
        placed(fs, start)[i].2 < placed(fs, start)[j].2,
{
    crate::layout::fields_are_disjoint(field_types(fs), start, i, j);
    crate::layout::fields_are_aligned(field_types(fs), start, i);
}

proof fn named_is_first(ps: Seq<(Seq<char>, TypeV, nat)>, name: Seq<char>)
    requires
        place_named(ps, name) is Some,
    ensures
        ({
            let k = first_pos(place_names(ps), name);
            0 <= k < ps.len() && ps[k].0 == name && place_named(ps, name) == Some(
                (ps[k].1, ps[k].2),
            )
        }),
    decreases ps.len(),
{
    let names = place_names(ps);
    let rest = ps.drop_last();
    if place_named(rest, name) is Some {
        named_is_first(rest, name);
        let k = first_pos(place_names(rest), name);
        first_pos_facts(place_names(rest), name);
        assert forall|j: int| 0 <= j < k implies names[j] != name by {
            assert(place_names(rest)[j] == names[j]);
        }
        assert(names[k] == name);
        first_pos_unique(names, name, k);
    } else {
        absent_is_absent(rest, name);
        assert forall|j: int| 0 <= j < ps.len() - 1 implies names[j] != name by {
            assert(rest[j].0 == names[j]);
        }
        first_pos_unique(names, name, ps.len() - 1);
    }
}

proof fn absent_is_absent(ps: Seq<(Seq<char>, TypeV, nat)>, name: Seq<char>)
    requires
        place_named(ps, name) is None,
    ensures
        forall|j: int| 0 <= j < ps.len() ==> (#[trigger] ps[j]).0 != name,
    decreases ps.len(),
{
    if ps.len() > 0 {
        absent_is_absent(ps.drop_last(), name);
        assert forall|j: int| 0 <= j < ps.len() implies (#[trigger] ps[j]).0 != name by {
            if j < ps.len() - 1 {
                assert(ps.drop_last()[j] == ps[j]);
            }
        }
    }
}

/// Every field of a copied record, and of a copied variant, reads as the copy of the
/// original's field.
pub proof fn copied_fields_read_back(
    fs: Seq<(Seq<char>, TypeV)>,
    start: nat,
    name: Seq<char>,
    at: spec_fn(nat) -> int,
    copy: spec_fn(TypeV, int) -> int,
)
    requires
        place_named(placed(fs, start), name) is Some,
    ensures
        ({
            let (t, o) = place_named(placed(fs, start), name)->0;
            let m = moved(field_moves(placed(fs, start)), at, copy);
            m.contains_key(o) && m[o] == copied(copied_by(t), at(o), copy)
        }),
{
    let ps = placed(fs, start);
    let ms = field_moves(ps);
    named_is_first(ps, name);
    let k = first_pos(place_names(ps), name);
    assert(ms[k].to == ps[k].2);
    assert forall|j: int| k < j < ms.len() implies (#[trigger] ms[j]).to != ms[k].to by {
        places_rise(fs, start, k, j);
    }
    moved_keeps(ms, at, copy, k);
}

/// Every element of a copied tuple reads as the copy of the original's element.
pub proof fn copied_elements_read_back(
    ts: Seq<TypeV>,
    i: int,
    at: spec_fn(nat) -> int,
    copy: spec_fn(TypeV, int) -> int,
)
    requires
        0 <= i < ts.len(),
    ensures
        ({
            let o = offset_of(ts, HEADER as nat, i);
            let m = moved(tuple_moves(ts), at, copy);
            m.contains_key(o) && m[o] == copied(copied_by(ts[i]), at(o), copy)
        }),
{
    let ms = tuple_moves(ts);
    assert forall|j: int| i < j < ms.len() implies (#[trigger] ms[j]).to != ms[i].to by {
        crate::layout::fields_are_disjoint(ts, HEADER as nat, i, j);
        crate::layout::fields_are_aligned(ts, HEADER as nat, i);
    }
    moved_keeps(ms, at, copy, i);
}

/// A copy shares no storage with the original but what cannot change: a heap value whose
/// copy is the value itself is a string or a closure.
pub proof fn shared_values_cannot_change(p: ProgramV, t: TypeV)
    requires
        traced(t),
        copying(p, t) is Share,
    ensures
        t is Str || t is Fun,
{
}

} // verus!
