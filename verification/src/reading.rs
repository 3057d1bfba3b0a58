//! What a back end does with objects: every reference in one is followed, every field is read
//! where it lies and is shown, and globals are frozen exactly where nothing changes them.

use vstd::prelude::*;
use crate::hir::{FieldInfoV, FunInfoV, ProgramV};
use crate::layout::{heap_pointer, offset_of, offsets_of, placed, sum_places, traced, HEADER};
use crate::plan::{constructed, consumer_symbol, entry_cases, field_entries, field_pieces, fields_pieces, float_function, frozen_globals, heap_offsets, heap_places, heap_places_are_complete, heap_variants, named_pieces, place_named, raw_result, same_offset, slot_of, sum_load, traced_children, variant_pieces, written_outside, Load, PieceV, RawResult, Slot};
use crate::shapes::holds_object;
use crate::table::lookup;
use crate::types::{NominalV, TypeV};

verus! {

// ---- fields ----

/// A field is found by its name: it is the first placed field that has it, and where none is
/// found none has it.
pub proof fn fields_are_found(ps: Seq<(Seq<char>, TypeV, nat)>, name: Seq<char>)
    ensures
        match place_named(ps, name) {
            Some((t, o)) => exists|i: int|
                0 <= i < ps.len() && (#[trigger] ps[i]) == (name, t, o) && forall|j: int|
                    0 <= j < i ==> (#[trigger] ps[j]).0 != name,
            None => forall|j: int| 0 <= j < ps.len() ==> (#[trigger] ps[j]).0 != name,
        },
    decreases ps.len(),
{
    if ps.len() > 0 {
        let front = ps.drop_last();
        fields_are_found(front, name);
        match place_named(front, name) {
            Some((t, o)) => {
                let i = choose|i: int|
                    0 <= i < front.len() && (#[trigger] front[i]) == (name, t, o) && forall|j: int|
                        0 <= j < i ==> (#[trigger] front[j]).0 != name;
                assert(ps[i] == front[i]);
                assert forall|j: int| 0 <= j < i implies (#[trigger] ps[j]).0 != name by {
                    assert(front[j] == ps[j]);
                }
            },
            None => {
                assert forall|j: int| 0 <= j < ps.len() - 1 implies (#[trigger] ps[j]).0 != name by {
                    assert(front[j] == ps[j]);
                }
                assert(ps[ps.len() - 1] == ps.last());
            },
        }
    }
}

/// Where a read of a field looks in an object with the tag.
pub open spec fn offset_read(load: Load<TypeV>, cases: Seq<(i32, u64)>, tag: i32) -> Option<u64>
    decreases cases.len(),
{
    match load {
        Load::At(_, o) => Some(o),
        Load::ByTag(_, o) => if cases.len() == 0 {
            Some(o)
        } else if cases[0].0 == tag {
            Some(cases[0].1)
        } else {
            offset_read(load, cases.drop_first(), tag)
        },
        _ => None,
    }
}

proof fn read_by_tag(load: Load<TypeV>, cases: Seq<(i32, u64)>, i: int)
    requires
        load is ByTag,
        0 <= i < cases.len(),
        forall|j: int| 0 <= j < i ==> (#[trigger] cases[j]).0 != cases[i].0,
    ensures
        offset_read(load, cases, cases[i].0) == Some(cases[i].1),
    decreases cases.len(),
{
    if i > 0 {
        let rest = cases.drop_first();
        assert(cases[0].0 != cases[i].0);
        assert forall|j: int| 0 <= j < i - 1 implies (#[trigger] rest[j]).0 != rest[i - 1].0 by {
            assert(rest[j] == cases[j + 1]);
        }
        read_by_tag(load, rest, i - 1);
    }
}

proof fn entries_from(
    vs: Seq<(i32, Seq<char>, Seq<(Seq<char>, TypeV, nat)>)>,
    variant: Option<Seq<char>>,
    field: Seq<char>,
    k: int,
)
    requires
        0 <= k < field_entries(vs, variant, field).len(),
    ensures
        exists|i: int|
            0 <= i < vs.len() && (#[trigger] vs[i]).0 == field_entries(vs, variant, field)[k].0 && (
            variant is None || variant == Some(vs[i].1)) && place_named(vs[i].2, field) == Some(
                (
                    field_entries(vs, variant, field)[k].1,
                    field_entries(vs, variant, field)[k].2,
                ),
            ),
    decreases vs.len(),
{
    let front = vs.drop_last();
    let rest = field_entries(front, variant, field);
    let all = field_entries(vs, variant, field);
    if k < rest.len() {
        entries_from(front, variant, field, k);
        assert(all[k] == rest[k]);
        let i = choose|i: int|
            0 <= i < front.len() && (#[trigger] front[i]).0 == rest[k].0 && (variant is None
                || variant == Some(front[i].1)) && place_named(front[i].2, field) == Some(
                (rest[k].1, rest[k].2),
            );
        assert(vs[i] == front[i]);
    } else {
        assert(vs[vs.len() - 1] == vs.last());
    }
}

proof fn entries_hold(
    vs: Seq<(i32, Seq<char>, Seq<(Seq<char>, TypeV, nat)>)>,
    variant: Option<Seq<char>>,
    field: Seq<char>,
    i: int,
)
    requires
        0 <= i < vs.len(),
        variant is None || variant == Some(vs[i].1),
        place_named(vs[i].2, field) is Some,
    ensures
        field_entries(vs, variant, field).contains(
            (
                vs[i].0,
                (place_named(vs[i].2, field)->0).0,
                (place_named(vs[i].2, field)->0).1,
            ),
        ),
    decreases vs.len(),
{
    let front = vs.drop_last();
    let rest = field_entries(front, variant, field);
    let all = field_entries(vs, variant, field);
    let e = (vs[i].0, (place_named(vs[i].2, field)->0).0, (place_named(vs[i].2, field)->0).1);
    if i < front.len() {
        assert(front[i] == vs[i]);
        entries_hold(front, variant, field, i);
        let k = choose|k: int| 0 <= k < rest.len() && rest[k] == e;
        assert(all[k] == e);
    } else {
        assert(all[all.len() - 1] == e);
    }
}

/// A field of a sum is read where it lies in the variant that the object is of, whichever of
/// the variants asked for that is.
pub proof fn fields_are_read_by_tag(
    vs: Seq<(i32, Seq<char>, Seq<(Seq<char>, TypeV, nat)>)>,
    variant: Option<Seq<char>>,
    field: Seq<char>,
    i: int,
)
    requires
        0 <= i < vs.len(),
        variant is None || variant == Some(vs[i].1),
        place_named(vs[i].2, field) is Some,
        forall|j: int| 0 <= j < vs.len() && j != i ==> (#[trigger] vs[j]).0 != vs[i].0,
    ensures
        offset_read(
            sum_load(field_entries(vs, variant, field)),
            entry_cases(field_entries(vs, variant, field)),
            vs[i].0,
        ) == Some((place_named(vs[i].2, field)->0).1 as u64),
{
    let es = field_entries(vs, variant, field);
    let cs = entry_cases(es);
    let e = (vs[i].0, (place_named(vs[i].2, field)->0).0, (place_named(vs[i].2, field)->0).1);
    entries_hold(vs, variant, field, i);
    let k = choose|k: int| 0 <= k < es.len() && es[k] == e;
    assert(es[k].2 == e.2);
    if !same_offset(es) {
        let x = first_with(es, e.0, k);
        entries_from(vs, variant, field, x);
        let y = choose|y: int|
            0 <= y < vs.len() && (#[trigger] vs[y]).0 == es[x].0 && (variant is None || variant
                == Some(vs[y].1)) && place_named(vs[y].2, field) == Some((es[x].1, es[x].2));
        assert(y == i);
        assert(cs[x] == (e.0, e.2 as u64));
        assert forall|j: int| 0 <= j < x implies (#[trigger] cs[j]).0 != cs[x].0 by {
            assert(es[j].0 != e.0);
        }
        read_by_tag(sum_load(es), cs, x);
    }
}

proof fn first_with(es: Seq<(i32, TypeV, nat)>, tag: i32, k: int) -> (x: int)
    requires
        0 <= k < es.len(),
        es[k].0 == tag,
    ensures
        0 <= x <= k,
        es[x].0 == tag,
        forall|j: int| 0 <= j < x ==> (#[trigger] es[j]).0 != tag,
    decreases k,
{
    if exists|j: int| 0 <= j < k && (#[trigger] es[j]).0 == tag {
        let j = choose|j: int| 0 <= j < k && (#[trigger] es[j]).0 == tag;
        first_with(es, tag, j)
    } else {
        k
    }
}

/// A field of a sum that no variant asked for has cannot be read, and one that some such
/// variant has can.
pub proof fn missing_fields_are_not_read(
    vs: Seq<(i32, Seq<char>, Seq<(Seq<char>, TypeV, nat)>)>,
    variant: Option<Seq<char>>,
    field: Seq<char>,
)
    ensures
        sum_load(field_entries(vs, variant, field)) == Load::<TypeV>::Unit <==> (forall|i: int|
            0 <= i < vs.len() && (variant is None || variant == Some((#[trigger] vs[i]).1))
                ==> place_named(vs[i].2, field) is None),
{
    let es = field_entries(vs, variant, field);
    if es.len() > 0 {
        entries_from(vs, variant, field, 0);
    } else {
        assert forall|i: int|
            0 <= i < vs.len() && (variant is None || variant == Some((#[trigger] vs[i]).1)) implies place_named(
            vs[i].2,
            field,
        ) is None by {
            if place_named(vs[i].2, field) is Some {
                entries_hold(vs, variant, field, i);
            }
        }
    }
}

// ---- references ----

proof fn offsets_listed(ts: Seq<TypeV>, os: Seq<nat>, z: (TypeV, nat))
    requires
        ts.len() == os.len(),
    ensures
        heap_offsets(ts, os).contains(z) <==> exists|i: int|
            0 <= i < ts.len() && traced(#[trigger] ts[i]) && z == (ts[i], os[i]),
    decreases ts.len(),
{
    let all = heap_offsets(ts, os);
    if ts.len() > 0 {
        let ft = ts.drop_last();
        let fo = os.drop_last();
        let rest = heap_offsets(ft, fo);
        offsets_listed(ft, fo, z);
        if rest.contains(z) {
            let k = choose|k: int| 0 <= k < rest.len() && rest[k] == z;
            assert(all[k] == z);
            let i = choose|i: int| 0 <= i < ft.len() && traced(#[trigger] ft[i]) && z == (ft[i], fo[i]);
            assert(ts[i] == ft[i] && os[i] == fo[i]);
        } else if all.contains(z) {
            let k = choose|k: int| 0 <= k < all.len() && all[k] == z;
            if k < rest.len() {
                assert(rest[k] == z);
            }
            assert(ts[ts.len() - 1] == ts.last());
        }
        if exists|i: int| 0 <= i < ts.len() && traced(#[trigger] ts[i]) && z == (ts[i], os[i]) {
            let i = choose|i: int| 0 <= i < ts.len() && traced(#[trigger] ts[i]) && z == (ts[i], os[i]);
            if i < ft.len() {
                assert(ft[i] == ts[i] && fo[i] == os[i]);
            } else {
                assert(all[all.len() - 1] == z);
            }
        }
    }
}

proof fn variants_listed(vs: Seq<(i32, Seq<char>, Seq<(Seq<char>, TypeV, nat)>)>, i: int)
    requires
        0 <= i < vs.len(),
        heap_places(vs[i].2).len() > 0,
    ensures
        heap_variants(vs).contains((vs[i].0, heap_places(vs[i].2))),
    decreases vs.len(),
{
    let all = heap_variants(vs);
    let rest = heap_variants(vs.drop_last());
    let z = (vs[i].0, heap_places(vs[i].2));
    if i < vs.len() - 1 {
        assert(vs.drop_last()[i] == vs[i]);
        variants_listed(vs.drop_last(), i);
        let k = choose|k: int| 0 <= k < rest.len() && rest[k] == z;
        assert(all[k] == z);
    } else {
        assert(all[all.len() - 1] == z);
    }
}

/// Every element of a tuple that is held on the heap is followed at its offset, and nothing
/// else of it is.
pub proof fn tuples_are_followed(p: ProgramV, ts: Seq<TypeV>, z: (TypeV, nat))
    ensures
        traced_children(p, TypeV::Tuple(ts)).fixed.contains(z) <==> exists|i: int|
            0 <= i < ts.len() && holds_object(#[trigger] ts[i]) && z == (
                ts[i],
                offset_of(ts, HEADER as nat, i),
            ),
{
    let os = offsets_of(ts, HEADER as nat);
    offsets_listed(ts, os, z);
    if exists|i: int|
        0 <= i < ts.len() && holds_object(#[trigger] ts[i]) && z == (
            ts[i],
            offset_of(ts, HEADER as nat, i),
        ) {
        let i = choose|i: int|
            0 <= i < ts.len() && holds_object(#[trigger] ts[i]) && z == (
                ts[i],
                offset_of(ts, HEADER as nat, i),
            );
        crate::shapes::objects_are_traced(ts[i]);
        assert(os[i] == offset_of(ts, HEADER as nat, i));
        assert(traced(ts[i]) && z == (ts[i], os[i]));
    }
    if exists|i: int| 0 <= i < ts.len() && traced(#[trigger] ts[i]) && z == (ts[i], os[i]) {
        let i = choose|i: int| 0 <= i < ts.len() && traced(#[trigger] ts[i]) && z == (ts[i], os[i]);
        crate::shapes::objects_are_traced(ts[i]);
        assert(holds_object(ts[i]));
    }
}

/// Every field of a variant that is held on the heap is followed, at its offset, in an object
/// with the variant's tag.
pub proof fn variants_are_followed(p: ProgramV, n: NominalV, i: int, j: int)
    requires
        0 <= i < sum_places(p, n).len(),
        0 <= j < sum_places(p, n)[i].2.len(),
        holds_object(sum_places(p, n)[i].2[j].1),
    ensures
        exists|k: int|
            0 <= k < traced_children(p, TypeV::Sum(n)).variants.len() && (#[trigger] traced_children(
                p,
                TypeV::Sum(n),
            ).variants[k]).0 == sum_places(p, n)[i].0 && traced_children(
                p,
                TypeV::Sum(n),
            ).variants[k].1.contains(
                (sum_places(p, n)[i].2[j].1, sum_places(p, n)[i].2[j].2),
            ),
{
    let vs = sum_places(p, n);
    crate::shapes::objects_are_traced(vs[i].2[j].1);
    heap_places_are_complete(vs[i].2, j);
    variants_listed(vs, i);
    let all = traced_children(p, TypeV::Sum(n)).variants;
    let z = (vs[i].0, heap_places(vs[i].2));
    let k = choose|k: int| 0 <= k < all.len() && all[k] == z;
    assert(all[k].0 == vs[i].0);
}

/// What a nullable or an array holds is followed exactly where it is held on the heap.
pub proof fn contents_are_followed(p: ProgramV, t: TypeV, n: usize)
    ensures
        traced_children(p, TypeV::Nullable(Box::new(t))).fixed == (if holds_object(t) {
            seq![(t, HEADER as nat)]
        } else {
            Seq::empty()
        }),
        (traced_children(p, TypeV::Slice(Box::new(t))).elem == Some(t)) == holds_object(t),
        (traced_children(p, TypeV::Slice(Box::new(t))).elem is None) == !holds_object(t),
        traced_children(p, TypeV::Array(Box::new(t), n)) == traced_children(
            p,
            TypeV::Slice(Box::new(t)),
        ),
{
    crate::shapes::objects_are_traced(t);
}

proof fn constructed_holds(fs: Seq<FieldInfoV>, s: Seq<(Seq<char>, TypeV)>)
    requires
        forall|i: int| 0 <= i < fs.len() ==> lookup(s, (#[trigger] fs[i]).name) is Some,
    ensures
        constructed(fs, s).len() == fs.len(),
        forall|i: int|
            0 <= i < fs.len() ==> (#[trigger] constructed(fs, s)[i]) == (
                fs[i].name,
                lookup(s, fs[i].name)->0,
            ),
    decreases fs.len(),
{
    if fs.len() > 0 {
        let front = fs.drop_last();
        assert forall|i: int| 0 <= i < front.len() implies lookup(s, (#[trigger] front[i]).name) is Some by {
            assert(front[i] == fs[i]);
        }
        constructed_holds(front, s);
        assert(fs[fs.len() - 1] == fs.last());
        let all = constructed(fs, s);
        let rest = constructed(front, s);
        assert forall|i: int| 0 <= i < fs.len() implies (#[trigger] all[i]) == (
            fs[i].name,
            lookup(s, fs[i].name)->0,
        ) by {
            if i < front.len() {
                assert(all[i] == rest[i]);
                assert(front[i] == fs[i]);
            }
        }
    }
}

/// Every field of a constructed record that is held on the heap is followed, at the offset
/// that the field is laid out at.
pub proof fn records_are_followed(p: ProgramV, n: NominalV, fs: Seq<FieldInfoV>, i: int)
    requires
        crate::layout::declared_fields(p, n.id) == Some(fs),
        forall|j: int| 0 <= j < fs.len() ==> lookup(n.subst, (#[trigger] fs[j]).name) is Some,
        0 <= i < fs.len(),
        holds_object(lookup(n.subst, fs[i].name)->0),
    ensures
        traced_children(p, TypeV::Record(n)).fixed.contains(
            (
                lookup(n.subst, fs[i].name)->0,
                offset_of(
                    Seq::new(fs.len(), |j: int| lookup(n.subst, fs[j].name)->0),
                    HEADER as nat,
                    i,
                ),
            ),
        ),
{
    let pairs = constructed(fs, n.subst);
    constructed_holds(fs, n.subst);
    let ts = Seq::new(fs.len(), |j: int| lookup(n.subst, fs[j].name)->0);
    assert(crate::layout::field_types(pairs) =~= ts);
    let ps = placed(pairs, HEADER as nat);
    assert(pairs[i] == (fs[i].name, ts[i]));
    assert(ps[i].1 == ts[i]);
    assert(ps[i].2 == offset_of(ts, HEADER as nat, i));
    crate::shapes::objects_are_traced(ts[i]);
    heap_places_are_complete(ps, i);
}

// ---- showing ----

/// The text that pieces make, where the values show as given.
pub open spec fn shown(ps: Seq<PieceV>, show: spec_fn(TypeV, nat, bool) -> Seq<char>) -> Seq<char>
    decreases ps.len(),
{
    if ps.len() == 0 {
        Seq::empty()
    } else {
        shown(ps.drop_last(), show) + (match ps.last() {
            PieceV::Text(s) => s,
            PieceV::Value(t, o, q) => show(t, o, q),
        })
    }
}

/// The lines of fields: indented, each with its name, its value and a comma; a string stands
/// in quotes.
pub open spec fn field_lines(
    fs: Seq<(Seq<char>, TypeV, nat)>,
    show: spec_fn(TypeV, nat, bool) -> Seq<char>,
) -> Seq<char>
    decreases fs.len(),
{
    if fs.len() == 0 {
        Seq::empty()
    } else {
        let (name, t, o) = fs.last();
        let quote = if t is Str {
            seq!['"']
        } else {
            Seq::empty()
        };
        let may_be_text = t matches TypeV::Nullable(e) && *e is Str;
        field_lines(fs.drop_last(), show) + (seq![' ', ' ', ' ', ' '] + name + seq![':', ' ']
            + quote + show(t, o, may_be_text) + quote + seq![',', '\n'])
    }
}

proof fn shown_both(a: Seq<PieceV>, b: Seq<PieceV>, show: spec_fn(TypeV, nat, bool) -> Seq<char>)
    ensures
        shown(a + b, show) == shown(a, show) + shown(b, show),
    decreases b.len(),
{
    if b.len() == 0 {
        assert(a + b =~= a);
        assert(shown(a, show) + shown(b, show) =~= shown(a, show));
    } else {
        shown_both(a, b.drop_last(), show);
        assert((a + b).drop_last() =~= a + b.drop_last());
        assert((a + b).last() == b.last());
        assert(shown(a + b, show) =~= shown(a, show) + shown(b, show));
    }
}

proof fn shown_one(a: PieceV, show: spec_fn(TypeV, nat, bool) -> Seq<char>)
    ensures
        shown(seq![a], show) == (match a {
            PieceV::Text(s) => s,
            PieceV::Value(t, o, q) => show(t, o, q),
        }),
{
    let text = match a {
        PieceV::Text(s) => s,
        PieceV::Value(t, o, q) => show(t, o, q),
    };
    assert(seq![a].drop_last() =~= Seq::<PieceV>::empty());
    assert(shown(Seq::<PieceV>::empty(), show) =~= Seq::<char>::empty());
    assert(Seq::<char>::empty() + text =~= text);
}

proof fn literals()
    ensures
        "    "@ == seq![' ', ' ', ' ', ' '],
        ": \""@ == seq![':', ' ', '"'],
        "\",\n"@ == seq!['"', ',', '\n'],
        ": "@ == seq![':', ' '],
        ",\n"@ == seq![',', '\n'],
        " {}"@ == seq![' ', '{', '}'],
        " {\n"@ == seq![' ', '{', '\n'],
        "}"@ == seq!['}'],
        "."@ == seq!['.'],
{
    reveal_strlit("    ");
    reveal_strlit(": \"");
    reveal_strlit("\",\n");
    reveal_strlit(": ");
    reveal_strlit(",\n");
    reveal_strlit(" {}");
    reveal_strlit(" {\n");
    reveal_strlit("}");
    reveal_strlit(".");
    assert("    "@ =~= seq![' ', ' ', ' ', ' ']);
    assert(": \""@ =~= seq![':', ' ', '"']);
    assert("\",\n"@ =~= seq!['"', ',', '\n']);
    assert(": "@ =~= seq![':', ' ']);
    assert(",\n"@ =~= seq![',', '\n']);
    assert(" {}"@ =~= seq![' ', '{', '}']);
    assert(" {\n"@ =~= seq![' ', '{', '\n']);
    assert("}"@ =~= seq!['}']);
    assert("."@ =~= seq!['.']);
}

proof fn lines_are_shown(
    fs: Seq<(Seq<char>, TypeV, nat)>,
    show: spec_fn(TypeV, nat, bool) -> Seq<char>,
)
    ensures
        shown(fields_pieces(fs), show) == field_lines(fs, show),
    decreases fs.len(),
{
    if fs.len() > 0 {
        let front = fs.drop_last();
        let f = fs.last();
        lines_are_shown(front, show);
        shown_both(fields_pieces(front), field_pieces(f), show);
        literals();
        let ps = field_pieces(f);
        assert(ps =~= seq![ps[0]] + seq![ps[1]] + seq![ps[2]]);
        shown_both(seq![ps[0]] + seq![ps[1]], seq![ps[2]], show);
        shown_both(seq![ps[0]], seq![ps[1]], show);
        shown_one(ps[0], show);
        shown_one(ps[1], show);
        shown_one(ps[2], show);
        let quote: Seq<char> = if f.1 is Str {
            seq!['"']
        } else {
            Seq::empty()
        };
        let may: bool = f.1 matches TypeV::Nullable(e) && *e is Str;
        assert(shown(ps, show) =~= seq![' ', ' ', ' ', ' '] + f.0 + seq![':', ' '] + quote + show(
            f.1,
            f.2,
            may,
        ) + quote + seq![',', '\n']);
    }
}

/// An object shows as its name and, in braces, a line for each of its fields, in order.
pub proof fn objects_show_their_fields(
    header: Seq<char>,
    fs: Seq<(Seq<char>, TypeV, nat)>,
    show: spec_fn(TypeV, nat, bool) -> Seq<char>,
)
    ensures
        shown(named_pieces(header, fs), show) == (if fs.len() == 0 {
            header + seq![' ', '{', '}']
        } else {
            header + seq![' ', '{', '\n'] + field_lines(fs, show) + seq!['}']
        }),
{
    literals();
    if fs.len() == 0 {
        shown_one(PieceV::Text(header + " {}"@), show);
    } else {
        let a = PieceV::Text(header + " {\n"@);
        let b = PieceV::Text("}"@);
        shown_both(seq![a] + fields_pieces(fs), seq![b], show);
        shown_both(seq![a], fields_pieces(fs), show);
        shown_one(a, show);
        shown_one(b, show);
        lines_are_shown(fs, show);
    }
}

/// A variant shows under the name of its type and its own, with its fields if it has any.
pub proof fn variants_show_their_names(
    name: Seq<char>,
    v: (i32, Seq<char>, Seq<(Seq<char>, TypeV, nat)>),
    show: spec_fn(TypeV, nat, bool) -> Seq<char>,
)
    ensures
        variant_pieces(name, v).0 == v.0,
        shown(variant_pieces(name, v).1, show) == (if v.2.len() == 0 {
            name + seq!['.'] + v.1
        } else {
            name + seq!['.'] + v.1 + seq![' ', '{', '\n'] + field_lines(v.2, show) + seq!['}']
        }),
{
    literals();
    if v.2.len() == 0 {
        shown_one(PieceV::Text(name + "."@ + v.1), show);
    } else {
        objects_show_their_fields(name + "."@ + v.1, v.2, show);
    }
}

// ---- program-wide decisions ----

/// A global is frozen exactly where it is held by a pointer and nothing but an initializer
/// writes it.
pub proof fn unwritten_globals_are_frozen(
    globals: Seq<(Seq<char>, TypeV)>,
    fns: Seq<(Seq<char>, Seq<Seq<char>>)>,
    inits: Seq<Seq<char>>,
    name: Seq<char>,
)
    ensures
        frozen_globals(globals, fns, inits).contains(name) <==> ((exists|i: int|
            0 <= i < globals.len() && (#[trigger] globals[i]).0 == name && heap_pointer(
                globals[i].1,
            )) && (forall|k: int|
            0 <= k < fns.len() && (#[trigger] fns[k]).1.contains(name) ==> inits.contains(
                fns[k].0,
            ))),
    decreases globals.len(),
{
    let all = frozen_globals(globals, fns, inits);
    if globals.len() > 0 {
        let front = globals.drop_last();
        let rest = frozen_globals(front, fns, inits);
        unwritten_globals_are_frozen(front, fns, inits, name);
        assert(globals[globals.len() - 1] == globals.last());
        if rest.contains(name) {
            let k = choose|k: int| 0 <= k < rest.len() && rest[k] == name;
            assert(all[k] == name);
            let i = choose|i: int|
                0 <= i < front.len() && (#[trigger] front[i]).0 == name && heap_pointer(front[i].1);
            assert(globals[i] == front[i]);
        } else if all.contains(name) {
            let k = choose|k: int| 0 <= k < all.len() && all[k] == name;
            if k < rest.len() {
                assert(rest[k] == name);
            }
            assert(!written_outside(fns, inits, name));
        }
        if (exists|i: int|
            0 <= i < globals.len() && (#[trigger] globals[i]).0 == name && heap_pointer(
                globals[i].1,
            )) && (forall|k: int|
            0 <= k < fns.len() && (#[trigger] fns[k]).1.contains(name) ==> inits.contains(
                fns[k].0,
            )) {
            let i = choose|i: int|
                0 <= i < globals.len() && (#[trigger] globals[i]).0 == name && heap_pointer(
                    globals[i].1,
                );
            assert(!written_outside(fns, inits, name));
            if i < front.len() {
                assert(front[i] == globals[i]);
            } else {
                assert(all[all.len() - 1] == name);
            }
        }
    }
}

/// A deferred call is made to the first function that has the name in the source; where none
/// has, to the name.
pub proof fn deferred_calls_find_their_function(fs: Seq<(Seq<char>, FunInfoV)>, name: Seq<char>)
    ensures
        forall|i: int|
            0 <= i < fs.len() && (#[trigger] fs[i]).1.signature.name == name && (forall|j: int|
                0 <= j < i ==> (#[trigger] fs[j]).1.signature.name != name) ==> consumer_symbol(
                fs,
                name,
            ) == fs[i].1.symbol,
        (forall|j: int| 0 <= j < fs.len() ==> (#[trigger] fs[j]).1.signature.name != name)
            ==> consumer_symbol(fs, name) == name,
    decreases fs.len(),
{
    if fs.len() > 0 {
        let rest = fs.drop_first();
        deferred_calls_find_their_function(rest, name);
        if fs[0].1.signature.name != name {
            assert forall|i: int|
                0 <= i < fs.len() && (#[trigger] fs[i]).1.signature.name == name && (forall|j: int|
                    0 <= j < i ==> (#[trigger] fs[j]).1.signature.name != name) implies consumer_symbol(
                fs,
                name,
            ) == fs[i].1.symbol by {
                assert(rest[i - 1] == fs[i]);
                assert forall|j: int| 0 <= j < i - 1 implies (#[trigger] rest[j]).1.signature.name
                    != name by {
                    assert(rest[j] == fs[j + 1]);
                }
            }
            if forall|j: int| 0 <= j < fs.len() ==> (#[trigger] fs[j]).1.signature.name != name {
                assert forall|j: int| 0 <= j < rest.len() implies (#[trigger] rest[j]).1.signature.name
                    != name by {
                    assert(rest[j] == fs[j + 1]);
                }
            }
        }
    }
}

/// The machine function of a float built-in has the name of the built-in: `_float_f` is
/// `llvm.f.f64`.
pub proof fn float_functions_keep_their_names(name: Seq<char>)
    ensures
        float_function(name) matches Some(f) ==> name == "_float_"@ + name.skip(7) && f
            == "llvm."@ + name.skip(7) + ".f64"@,
        float_function("_float_sqrt"@) is Some,
        float_function("_float_floor"@) is Some,
        float_function("_float_ceil"@) is Some,
        float_function("_float_pow"@) is Some,
{
    reveal_strlit("_float_sqrt");
    reveal_strlit("_float_floor");
    reveal_strlit("_float_ceil");
    reveal_strlit("_float_pow");
    reveal_strlit("llvm.sqrt.f64");
    reveal_strlit("llvm.floor.f64");
    reveal_strlit("llvm.ceil.f64");
    reveal_strlit("llvm.pow.f64");
    reveal_strlit("_float_");
    reveal_strlit("llvm.");
    reveal_strlit(".f64");
    assert("_float_sqrt"@ =~= "_float_"@ + "_float_sqrt"@.skip(7));
    assert("_float_floor"@ =~= "_float_"@ + "_float_floor"@.skip(7));
    assert("_float_ceil"@ =~= "_float_"@ + "_float_ceil"@.skip(7));
    assert("_float_pow"@ =~= "_float_"@ + "_float_pow"@.skip(7));
    assert("llvm.sqrt.f64"@ =~= "llvm."@ + "_float_sqrt"@.skip(7) + ".f64"@);
    assert("llvm.floor.f64"@ =~= "llvm."@ + "_float_floor"@.skip(7) + ".f64"@);
    assert("llvm.ceil.f64"@ =~= "llvm."@ + "_float_ceil"@.skip(7) + ".f64"@);
    assert("llvm.pow.f64"@ =~= "llvm."@ + "_float_pow"@.skip(7) + ".f64"@);
}

/// What a value of a type is put into a slot as: an object by its address, a float by its
/// bits, a truth value without a sign and a number with one.
pub proof fn slots_go_by_kind(t: TypeV)
    ensures
        holds_object(t) ==> slot_of(t) == Slot::Address,
        slot_of(t) == Slot::Bits <==> t is Float,
        slot_of(t) == Slot::SignExtended <==> t is Int,
        slot_of(t) == Slot::ZeroExtended <==> t is Bool,
        raw_result("pp_plugin_call_int"@) == RawResult::Int,
        raw_result("pp_plugin_call_float"@) == RawResult::Float,
{
    reveal_strlit("pp_plugin_call_int");
    reveal_strlit("pp_plugin_call_float");
    assert("pp_plugin_call_int"@.len() == 18 && "pp_plugin_call_float"@.len() == 20);
}

} // verus!
