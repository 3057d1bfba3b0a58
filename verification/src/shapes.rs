//! What types are made of: what is written denotes what is meant, variables are found and
//! replaced wherever they stand, and values fit the room they are given.

use vstd::prelude::*;
use crate::ast::TypeExprV;
use crate::hir::{FieldInfoV, ProgramV, VariantInfoV};
use crate::layout::{all_substituted, bits, declared_variants, end_of, heap_pointer, largest_end, managed, payload_pairs, payload_types, runtime_tag, signed_kind, size_align, sum_size, traced, PAYLOAD};
use crate::span::Span;
use crate::table::{keys_of, lookup};
use crate::types::{class_of, class_of_name, display, float_bits, float_name, freshened, freshened_all, freshened_subst, infer_count, infer_count_all, infer_count_subst, int_bits, int_name, int_name_round_trip, int_of_name, int_signed, nominal_payloads, resolved, resolved_all, result_payloads_of_result, substituted, substituted_all, substituted_entries, vars, vars_all, vars_subst, FloatKind, IntKind, NominalInfo, NominalKind, NominalV, TypeV, INFER_VAR};

verus! {

// ---- annotations ----

/// The words that denote a type by themselves.
pub open spec fn is_type_word(name: Seq<char>) -> bool {
    ||| int_of_name(name) is Some
    ||| name == "bool"@
    ||| name == "float32"@
    ||| name == "float64"@
    ||| name == "string"@
    ||| name == "void"@
    ||| name == "Self"@
    ||| name == "infer"@
}

/// How a type is written, where it can be.
pub open spec fn written(t: TypeV, span: Span) -> TypeExprV
    decreases t,
{
    match t {
        TypeV::Bool => TypeExprV::Named("bool"@, span),
        TypeV::Int(k) => TypeExprV::Named(int_name(k), span),
        TypeV::Float(k) => TypeExprV::Named(float_name(k), span),
        TypeV::Str => TypeExprV::Named("string"@, span),
        TypeV::Void => TypeExprV::Named("void"@, span),
        TypeV::SelfType => TypeExprV::Named("Self"@, span),
        TypeV::Unknown(_) => TypeExprV::Named("infer"@, span),
        TypeV::Record(n) => TypeExprV::Named(n.name, span),
        TypeV::Sum(n) => TypeExprV::Named(n.name, span),
        TypeV::Array(e, n) => TypeExprV::Array(Box::new(written(*e, span)), Some(n), span),
        TypeV::Slice(e) => TypeExprV::Array(Box::new(written(*e, span)), None, span),
        TypeV::Nullable(e) => TypeExprV::Nullable(Box::new(written(*e, span)), span),
        TypeV::Mut(e) => TypeExprV::Mut(Box::new(written(*e, span)), span),
        TypeV::Ref(e) => TypeExprV::Ref(Box::new(written(*e, span)), span),
        TypeV::Tuple(ts) => TypeExprV::Tuple(written_all(ts, span), span),
        TypeV::Fun(ps, r) => TypeExprV::Fun(
            written_all(ps, span),
            Box::new(written(*r, span)),
            span,
        ),
        _ => TypeExprV::Named("infer"@, span),
    }
}

/// How types are written.
pub open spec fn written_all(ts: Seq<TypeV>, span: Span) -> Seq<TypeExprV>
    decreases ts,
{
    if ts.len() == 0 {
        Seq::empty()
    } else {
        written_all(ts.drop_last(), span).push(written(ts.last(), span))
    }
}

/// Whether a type can be written: it holds no variable but the one that `infer` stands for,
/// and its named types are in scope and bare.
pub open spec fn writable(t: TypeV, info: spec_fn(Seq<char>) -> Option<NominalInfo>) -> bool
    decreases t,
{
    match t {
        TypeV::Unknown(v) => v == INFER_VAR,
        TypeV::Record(n) => n.subst == Seq::<(Seq<char>, TypeV)>::empty() && !is_type_word(n.name)
            && info(n.name) == Some(NominalInfo { id: n.id, kind: NominalKind::Record }),
        TypeV::Sum(n) => n.subst == Seq::<(Seq<char>, TypeV)>::empty() && !is_type_word(n.name)
            && info(n.name) == Some(NominalInfo { id: n.id, kind: NominalKind::Sum }),
        TypeV::Array(e, _) => writable(*e, info),
        TypeV::Slice(e) => writable(*e, info),
        TypeV::Nullable(e) => writable(*e, info),
        TypeV::Mut(e) => writable(*e, info),
        TypeV::Ref(e) => writable(*e, info),
        TypeV::Tuple(ts) => writable_all(ts, info),
        TypeV::Fun(ps, r) => writable_all(ps, info) && writable(*r, info),
        TypeV::ConstOf(_) => false,
        TypeV::Never => false,
        _ => true,
    }
}

/// Whether all of some types can be written.
pub open spec fn writable_all(ts: Seq<TypeV>, info: spec_fn(Seq<char>) -> Option<NominalInfo>) -> bool
    decreases ts,
{
    ts.len() == 0 || (writable_all(ts.drop_last(), info) && writable(ts.last(), info))
}

proof fn words_differ()
    ensures
        "bool"@.len() == 4 && "bool"@[0] == 'b',
        "float32"@.len() == 7 && "float32"@[5] == '3' && "float32"@[0] == 'f',
        "float64"@.len() == 7 && "float64"@[5] == '6' && "float64"@[0] == 'f',
        "string"@.len() == 6 && "string"@[0] == 's',
        "void"@.len() == 4 && "void"@[0] == 'v',
        "Self"@.len() == 4 && "Self"@[0] == 'S',
        "infer"@.len() == 5 && "infer"@[0] == 'i' && "infer"@[2] == 'f',
        "int8"@.len() == 4 && "int8"@[0] == 'i' && "int8"@[2] == 't',
        "int16"@.len() == 5 && "int16"@[0] == 'i' && "int16"@[2] == 't',
        "int32"@.len() == 5 && "int32"@[0] == 'i' && "int32"@[2] == 't',
        "int64"@.len() == 5 && "int64"@[0] == 'i' && "int64"@[2] == 't',
        "uint8"@.len() == 5 && "uint8"@[0] == 'u',
        "uint16"@.len() == 6 && "uint16"@[0] == 'u',
        "uint32"@.len() == 6 && "uint32"@[0] == 'u',
        "uint64"@.len() == 6 && "uint64"@[0] == 'u',
{
    reveal_strlit("bool");
    reveal_strlit("float32");
    reveal_strlit("float64");
    reveal_strlit("string");
    reveal_strlit("void");
    reveal_strlit("Self");
    reveal_strlit("infer");
    reveal_strlit("int8");
    reveal_strlit("int16");
    reveal_strlit("int32");
    reveal_strlit("int64");
    reveal_strlit("uint8");
    reveal_strlit("uint16");
    reveal_strlit("uint32");
    reveal_strlit("uint64");
}

/// What is written for a type denotes that type.
pub proof fn annotations_denote_what_is_written(
    t: TypeV,
    span: Span,
    info: spec_fn(Seq<char>) -> Option<NominalInfo>,
)
    requires
        writable(t, info),
    ensures
        resolved(written(t, span), info) == Ok::<TypeV, Seq<char>>(t),
    decreases t,
{
    words_differ();
    match t {
        TypeV::Int(k) => int_name_round_trip(k, int_name(k)),
        TypeV::Array(e, _) => annotations_denote_what_is_written(*e, span, info),
        TypeV::Slice(e) => annotations_denote_what_is_written(*e, span, info),
        TypeV::Nullable(e) => annotations_denote_what_is_written(*e, span, info),
        TypeV::Mut(e) => annotations_denote_what_is_written(*e, span, info),
        TypeV::Ref(e) => annotations_denote_what_is_written(*e, span, info),
        TypeV::Tuple(ts) => lists_denote(ts, span, info),
        TypeV::Fun(ps, r) => {
            lists_denote(ps, span, info);
            annotations_denote_what_is_written(*r, span, info);
        },
        _ => {},
    }
}

proof fn lists_denote(ts: Seq<TypeV>, span: Span, info: spec_fn(Seq<char>) -> Option<NominalInfo>)
    requires
        writable_all(ts, info),
    ensures
        resolved_all(written_all(ts, span), info) == Ok::<Seq<TypeV>, Seq<char>>(ts),
    decreases ts,
{
    if ts.len() > 0 {
        lists_denote(ts.drop_last(), span, info);
        annotations_denote_what_is_written(ts.last(), span, info);
        let w = written_all(ts, span);
        assert(w.drop_last() =~= written_all(ts.drop_last(), span));
        assert(ts.drop_last().push(ts.last()) =~= ts);
    } else {
        assert(ts =~= Seq::<TypeV>::empty());
    }
}

/// `T!` is a `Result` of `T` whose error is open.
pub proof fn fallible_types_are_results(
    e: TypeExprV,
    span: Span,
    info: spec_fn(Seq<char>) -> Option<NominalInfo>,
)
    ensures
        resolved(e, info) matches Ok(t) ==> (resolved(
            TypeExprV::Fallible(Box::new(e), span),
            info,
        ) matches Ok(TypeV::Sum(n)) && n.name == "Result"@ && nominal_payloads(n) == Some(
            (t, TypeV::Unknown(INFER_VAR)),
        )),
        resolved(e, info) is Err ==> resolved(TypeExprV::Fallible(Box::new(e), span), info)
            == resolved(e, info),
{
    if let Ok(t) = resolved(e, info) {
        result_payloads_of_result(t, TypeV::Unknown(INFER_VAR));
    }
}

/// A type word that is not in scope is refused, by its name.
pub proof fn unknown_words_are_refused(
    name: Seq<char>,
    span: Span,
    info: spec_fn(Seq<char>) -> Option<NominalInfo>,
)
    ensures
        resolved(TypeExprV::Named(name, span), info) is Err <==> !is_type_word(name) && info(
            name,
        ) is None,
        resolved(TypeExprV::Named(name, span), info) matches Err(m) ==> (exists|i: int|
            0 <= i <= m.len() - name.len() && #[trigger] m.subrange(i, i + name.len()) =~= name),
{
    if let Err(m) = resolved(TypeExprV::Named(name, span), info) {
        let i = "unknown type `"@.len() as int;
        assert(m.subrange(i, i + name.len()) =~= name);
    }
}

/// The class that a primitive method is declared for by its word is the class that a value
/// of the type which the word denotes is dispatched to.
pub proof fn classes_go_by_words(
    name: Seq<char>,
    span: Span,
    info: spec_fn(Seq<char>) -> Option<NominalInfo>,
)
    requires
        class_of_name(name, false) is Some,
    ensures
        resolved(TypeExprV::Named(name, span), info) matches Ok(t) && class_of(t) == class_of_name(
            name,
            false,
        ) && display(t) == name,
{
    words_differ();
    if let Some(k) = int_of_name(name) {
        int_name_round_trip(k, int_name(k));
    }
}

/// Arrays and slices of anything are of one class, which is no class of a scalar; and two
/// scalars are of one class only where they are of one type.
pub proof fn classes_tell_scalars_apart(a: TypeV, b: TypeV)
    requires
        class_of(a) is Some,
        class_of(a) == class_of(b),
    ensures
        a == b || ((a is Array || a is Slice) && (b is Array || b is Slice)),
{
    words_differ();
    reveal_strlit("array");
    assert("array"@.len() == 5 && "array"@[0] == 'a');
    if let TypeV::Int(k) = a {
        int_name_round_trip(k, int_name(k));
        if let TypeV::Int(j) = b {
            int_name_round_trip(j, int_name(j));
        }
    }
    if let TypeV::Int(j) = b {
        int_name_round_trip(j, int_name(j));
    }
}

// ---- parts of types ----

/// The types that a type is directly made of, in order.
pub open spec fn type_parts(t: TypeV) -> Seq<TypeV> {
    match t {
        TypeV::Array(e, _) => seq![*e],
        TypeV::Slice(e) => seq![*e],
        TypeV::Nullable(e) => seq![*e],
        TypeV::ConstOf(e) => seq![*e],
        TypeV::Mut(e) => seq![*e],
        TypeV::Ref(e) => seq![*e],
        TypeV::Tuple(ts) => ts,
        TypeV::Fun(ps, r) => ps.push(*r),
        TypeV::Record(n) => Seq::new(n.subst.len(), |i: int| n.subst[i].1),
        TypeV::Sum(n) => Seq::new(n.subst.len(), |i: int| n.subst[i].1),
        _ => Seq::empty(),
    }
}

/// Whether two types are alike but for the types they are made of.
pub open spec fn same_head(a: TypeV, b: TypeV) -> bool {
    &&& type_parts(a).len() == type_parts(b).len()
    &&& match a {
        TypeV::Array(_, n) => b matches TypeV::Array(_, m) && n == m,
        TypeV::Slice(_) => b is Slice,
        TypeV::Nullable(_) => b is Nullable,
        TypeV::ConstOf(_) => b is ConstOf,
        TypeV::Mut(_) => b is Mut,
        TypeV::Ref(_) => b is Ref,
        TypeV::Tuple(_) => b is Tuple,
        TypeV::Fun(_, _) => b is Fun,
        TypeV::Record(n) => b matches TypeV::Record(m) && n.id == m.id && n.name == m.name
            && keys_of(n.subst) == keys_of(m.subst),
        TypeV::Sum(n) => b matches TypeV::Sum(m) && n.id == m.id && n.name == m.name && keys_of(
            n.subst,
        ) == keys_of(m.subst),
        _ => a == b,
    }
}

proof fn vars_in(ts: Seq<TypeV>, v: u32)
    ensures
        vars_all(ts).contains(v) == exists|i: int| 0 <= i < ts.len() && vars(#[trigger] ts[i]).contains(v),
    decreases ts.len(),
{
    if ts.len() > 0 {
        let front = ts.drop_last();
        vars_in(front, v);
        if exists|i: int| 0 <= i < ts.len() && vars(#[trigger] ts[i]).contains(v) {
            let i = choose|i: int| 0 <= i < ts.len() && vars(#[trigger] ts[i]).contains(v);
            if i < front.len() {
                assert(front[i] == ts[i]);
            }
        }
        if exists|i: int| 0 <= i < front.len() && vars(#[trigger] front[i]).contains(v) {
            let i = choose|i: int| 0 <= i < front.len() && vars(#[trigger] front[i]).contains(v);
            assert(ts[i] == front[i]);
        }
        assert(ts[ts.len() - 1] == ts.last());
    }
}

proof fn entry_vars(s: Seq<(Seq<char>, TypeV)>)
    ensures
        vars_subst(s) == vars_all(Seq::new(s.len(), |i: int| s[i].1)),
    decreases s.len(),
{
    let ts = Seq::new(s.len(), |i: int| s[i].1);
    if s.len() > 0 {
        let front = s.drop_last();
        entry_vars(front);
        assert(ts.drop_last() =~= Seq::new(front.len(), |i: int| front[i].1));
    }
}

/// The variables of a type are itself, where it is one, and those of its parts.
pub proof fn variables_go_by_parts(t: TypeV, v: u32)
    ensures
        vars(t).contains(v) == (t == TypeV::Unknown(v) || exists|i: int|
            0 <= i < type_parts(t).len() && vars(#[trigger] type_parts(t)[i]).contains(v)),
{
    let ps = type_parts(t);
    vars_in(ps, v);
    match t {
        TypeV::Fun(args, r) => {
            assert(ps.drop_last() =~= args);
            assert(vars_all(ps) == vars_all(args).union(vars(*r)));
        },
        TypeV::Record(n) => entry_vars(n.subst),
        TypeV::Sum(n) => entry_vars(n.subst),
        TypeV::Tuple(_) => {},
        _ => {
            if ps.len() == 1 {
                assert(ps[0] == ps.last());
                assert(ps.drop_last() =~= Seq::<TypeV>::empty());
            }
        },
    }
}

proof fn replacing_types(ts: Seq<TypeV>, m: Map<u32, TypeV>)
    ensures
        substituted_all(ts, m).len() == ts.len(),
        forall|i: int|
            0 <= i < ts.len() ==> #[trigger] substituted_all(ts, m)[i] == substituted(ts[i], m),
{
}

proof fn replacing_entries(s: Seq<(Seq<char>, TypeV)>, m: Map<u32, TypeV>)
    ensures
        substituted_entries(s, m).len() == s.len(),
        keys_of(substituted_entries(s, m)) == keys_of(s),
        forall|i: int|
            0 <= i < s.len() ==> (#[trigger] substituted_entries(s, m)[i]).1 == substituted(
                s[i].1,
                m,
            ),
{
    assert(keys_of(substituted_entries(s, m)) =~= keys_of(s));
}

/// Replacing variables replaces a variable by its type and otherwise keeps what a type is,
/// replacing in its parts.
pub proof fn replacing_goes_by_parts(t: TypeV, m: Map<u32, TypeV>)
    ensures
        t matches TypeV::Unknown(v) ==> substituted(t, m) == (if m.contains_key(v) {
            m[v]
        } else {
            t
        }),
        !(t is Unknown) ==> same_head(t, substituted(t, m)) && (forall|i: int|
            0 <= i < type_parts(t).len() ==> #[trigger] type_parts(substituted(t, m))[i]
                == substituted(type_parts(t)[i], m)),
{
    match t {
        TypeV::Record(n) => {
            replacing_entries(n.subst, m);
            let r = NominalV { id: n.id, name: n.name, subst: substituted_entries(n.subst, m) };
            assert(substituted(t, m) == TypeV::Record(r));
        },
        TypeV::Sum(n) => {
            replacing_entries(n.subst, m);
            let r = NominalV { id: n.id, name: n.name, subst: substituted_entries(n.subst, m) };
            assert(substituted(t, m) == TypeV::Sum(r));
        },
        TypeV::Tuple(ts) => {
            replacing_types(ts, m);
        },
        TypeV::Fun(ps, r) => {
            replacing_types(ps, m);
            let all = type_parts(substituted(t, m));
            assert(all == substituted_all(ps, m).push(substituted(*r, m)));
            assert forall|i: int| 0 <= i < type_parts(t).len() implies #[trigger] all[i]
                == substituted(type_parts(t)[i], m) by {
                if i < ps.len() {
                    assert(all[i] == substituted_all(ps, m)[i]);
                }
            }
        },
        _ => {},
    }
}

/// Once its variables are replaced by types without variables among them, none is left.
pub proof fn replaced_variables_are_gone(t: TypeV, m: Map<u32, TypeV>, v: u32)
    requires
        m.contains_key(v),
        forall|w: u32| #[trigger] m.contains_key(w) ==> !vars(m[w]).contains(v),
    ensures
        !vars(substituted(t, m)).contains(v),
    decreases t,
{
    let s = substituted(t, m);
    variables_go_by_parts(s, v);
    replacing_goes_by_parts(t, m);
    if !(t is Unknown) {
        assert forall|i: int| 0 <= i < type_parts(s).len() implies !vars(
            #[trigger] type_parts(s)[i],
        ).contains(v) by {
            part_is_smaller(t, i);
            replaced_variables_are_gone(type_parts(t)[i], m, v);
        }
    }
}

proof fn part_is_smaller(t: TypeV, i: int)
    requires
        0 <= i < type_parts(t).len(),
    ensures
        decreases_to!(t => type_parts(t)[i]),
{
    match t {
        TypeV::Fun(ps, r) => {
            if i < ps.len() {
                assert(decreases_to!(ps => ps[i]));
            }
        },
        TypeV::Tuple(ts) => {
            assert(decreases_to!(ts => ts[i]));
        },
        TypeV::Record(n) => {
            assert(decreases_to!(n.subst => n.subst[i]));
            assert(decreases_to!(n => n.subst));
        },
        TypeV::Sum(n) => {
            assert(decreases_to!(n.subst => n.subst[i]));
            assert(decreases_to!(n => n.subst));
        },
        _ => {},
    }
}

/// What variables the new ones of a numbering stood for.
pub open spec fn numbers_back(lo: nat, hi: nat) -> Map<u32, TypeV> {
    Map::new(|v: u32| lo <= v < hi, |v: u32| TypeV::Unknown(INFER_VAR))
}

/// Numbering the placeholders of a type changes nothing else: with a placeholder for each new
/// variable it is the type again.
pub proof fn numbering_can_be_undone(t: TypeV, next: nat, lo: nat, hi: nat)
    requires
        lo <= next,
        next + infer_count(t) <= hi <= INFER_VAR,
        forall|v: u32| #[trigger] vars(t).contains(v) ==> !(lo <= v < hi),
    ensures
        substituted(freshened(t, next), numbers_back(lo, hi)) == t,
    decreases t, 0nat,
{
    let m = numbers_back(lo, hi);
    assert forall|i: int, v: u32|
        0 <= i < type_parts(t).len() && #[trigger] vars(type_parts(t)[i]).contains(v) implies vars(
        t,
    ).contains(v) by {
        variables_go_by_parts(t, v);
    }
    match t {
        TypeV::Unknown(v) => {
            assert(vars(t).contains(v));
        },
        TypeV::Array(e, _) => {
            assert(type_parts(t)[0] == *e);
            numbering_can_be_undone(*e, next, lo, hi);
        },
        TypeV::Slice(e) => {
            assert(type_parts(t)[0] == *e);
            numbering_can_be_undone(*e, next, lo, hi);
        },
        TypeV::Nullable(e) => {
            assert(type_parts(t)[0] == *e);
            numbering_can_be_undone(*e, next, lo, hi);
        },
        TypeV::ConstOf(e) => {
            assert(type_parts(t)[0] == *e);
            numbering_can_be_undone(*e, next, lo, hi);
        },
        TypeV::Mut(e) => {
            assert(type_parts(t)[0] == *e);
            numbering_can_be_undone(*e, next, lo, hi);
        },
        TypeV::Ref(e) => {
            assert(type_parts(t)[0] == *e);
            numbering_can_be_undone(*e, next, lo, hi);
        },
        TypeV::Tuple(ts) => {
            assert forall|i: int, v: u32|
                0 <= i < ts.len() && #[trigger] vars(ts[i]).contains(v) implies !(lo <= v < hi) by {
                assert(vars(type_parts(t)[i]).contains(v));
            }
            list_undone(ts, next, lo, hi);
        },
        TypeV::Fun(ps, r) => {
            assert(type_parts(t)[ps.len() as int] == *r);
            assert forall|i: int, v: u32|
                0 <= i < ps.len() && #[trigger] vars(ps[i]).contains(v) implies !(lo <= v < hi) by {
                assert(vars(type_parts(t)[i]).contains(v));
            }
            list_undone(ps, next, lo, hi);
            numbering_can_be_undone(*r, next + infer_count_all(ps), lo, hi);
        },
        TypeV::Record(n) => {
            assert forall|i: int, v: u32|
                0 <= i < n.subst.len() && #[trigger] vars(n.subst[i].1).contains(v) implies !(lo
                <= v < hi) by {
                assert(vars(type_parts(t)[i]).contains(v));
            }
            assert(decreases_to!(n => n.subst));
            entries_undone(n.subst, next, lo, hi);
        },
        TypeV::Sum(n) => {
            assert forall|i: int, v: u32|
                0 <= i < n.subst.len() && #[trigger] vars(n.subst[i].1).contains(v) implies !(lo
                <= v < hi) by {
                assert(vars(type_parts(t)[i]).contains(v));
            }
            assert(decreases_to!(n => n.subst));
            entries_undone(n.subst, next, lo, hi);
        },
        _ => {},
    }
}

proof fn list_undone(ts: Seq<TypeV>, next: nat, lo: nat, hi: nat)
    requires
        lo <= next,
        next + infer_count_all(ts) <= hi <= INFER_VAR,
        forall|i: int, v: u32|
            0 <= i < ts.len() && #[trigger] vars(ts[i]).contains(v) ==> !(lo <= v < hi),
    ensures
        substituted_all(freshened_all(ts, next), numbers_back(lo, hi)) == ts,
        freshened_all(ts, next).len() == ts.len(),
    decreases ts, ts.len(),
{
    let m = numbers_back(lo, hi);
    if ts.len() > 0 {
        let front = ts.drop_last();
        assert forall|i: int, v: u32|
            0 <= i < front.len() && #[trigger] vars(front[i]).contains(v) implies !(lo <= v < hi) by {
            assert(vars(ts[i]).contains(v));
        }
        list_undone(front, next, lo, hi);
        assert(ts[ts.len() - 1] == ts.last());
        numbering_can_be_undone(ts.last(), next + infer_count_all(front), lo, hi);
        let f = freshened_all(front, next);
        let g = freshened_all(ts, next);
        assert forall|i: int| 0 <= i < ts.len() implies #[trigger] substituted_all(g, m)[i] == ts[i] by {
            if i < front.len() {
                assert(g[i] == f[i]);
                assert(substituted_all(f, m)[i] == front[i]);
            }
        }
    }
    assert(substituted_all(freshened_all(ts, next), m) =~= ts);
}

proof fn entries_undone(s: Seq<(Seq<char>, TypeV)>, next: nat, lo: nat, hi: nat)
    requires
        lo <= next,
        next + infer_count_subst(s) <= hi <= INFER_VAR,
        forall|i: int, v: u32|
            0 <= i < s.len() && #[trigger] vars(s[i].1).contains(v) ==> !(lo <= v < hi),
    ensures
        substituted_entries(freshened_subst(s, next), numbers_back(lo, hi)) == s,
        freshened_subst(s, next).len() == s.len(),
    decreases s, s.len(),
{
    let m = numbers_back(lo, hi);
    if s.len() > 0 {
        let front = s.drop_last();
        assert forall|i: int, v: u32|
            0 <= i < front.len() && #[trigger] vars(front[i].1).contains(v) implies !(lo <= v
            < hi) by {
            assert(vars(s[i].1).contains(v));
        }
        entries_undone(front, next, lo, hi);
        assert(s[s.len() - 1] == s.last());
        numbering_can_be_undone(s.last().1, next + infer_count_subst(front), lo, hi);
        let f = freshened_subst(front, next);
        let g = freshened_subst(s, next);
        assert forall|i: int| 0 <= i < s.len() implies #[trigger] substituted_entries(g, m)[i]
            == s[i] by {
            if i < front.len() {
                assert(g[i] == f[i]);
                assert(substituted_entries(f, m)[i] == front[i]);
            }
        }
    }
    assert(substituted_entries(freshened_subst(s, next), m) =~= s);
}

// ---- room ----

/// A number has the bytes for its bits, is read with the sign it has, and is told apart from
/// every other kind by its tag.
pub proof fn numbers_fit_their_room(k: IntKind, j: IntKind)
    ensures
        8 * size_align(TypeV::Int(k)).0 == int_bits(k),
        bits(k) == int_bits(k),
        signed_kind(k) == int_signed(k),
        runtime_tag(k) == runtime_tag(j) ==> k == j,
        int_signed(k) == int_signed(j) && int_bits(k) < int_bits(j) ==> runtime_tag(k)
            < runtime_tag(j),
        int_signed(k) && !int_signed(j) ==> runtime_tag(k) < runtime_tag(j),
        8 * size_align(TypeV::Float(FloatKind::F32)).0 == float_bits(FloatKind::F32),
        8 * size_align(TypeV::Float(FloatKind::F64)).0 == float_bits(FloatKind::F64),
        size_align(TypeV::Bool).0 == 1,
{
}

/// Whether a value of a type is held on the heap: it is no scalar, nothing or unknown, and
/// no wrapper around a type.
pub open spec fn holds_object(t: TypeV) -> bool {
    !(t is Bool || t is Int || t is Float || t is Void || t is Never || t is Unknown || t is SelfType
        || t is ConstOf || t is Mut || t is Ref)
}

/// A value that is held on the heap is traced, and has the room of a pointer. A nullable is
/// a cell of its own and no counted object; any other is one.
pub proof fn objects_are_traced(t: TypeV)
    ensures
        traced(t) == holds_object(t),
        managed(t) == (holds_object(t) && !(t is Nullable)),
        holds_object(t) ==> size_align(t) == (8nat, 8nat),
        heap_pointer(t) ==> traced(t),
        traced(t) && !heap_pointer(t) ==> t is Array || t is Tuple || t is Fun,
{
}

proof fn largest_bounds(n: NominalV, vs: Seq<VariantInfoV>, i: int)
    requires
        0 <= i < vs.len(),
    ensures
        end_of(payload_types(n, vs[i]), PAYLOAD as nat) <= largest_end(n, vs),
    decreases vs.len(),
{
    if i < vs.len() - 1 {
        assert(vs.drop_last()[i] == vs[i]);
        largest_bounds(n, vs.drop_last(), i);
    }
}

proof fn largest_reached(n: NominalV, vs: Seq<VariantInfoV>)
    ensures
        largest_end(n, vs) == PAYLOAD || exists|i: int|
            0 <= i < vs.len() && end_of(payload_types(n, #[trigger] vs[i]), PAYLOAD as nat)
                == largest_end(n, vs),
    decreases vs.len(),
{
    if vs.len() > 0 {
        let front = vs.drop_last();
        largest_reached(n, front);
        if exists|i: int|
            0 <= i < front.len() && end_of(payload_types(n, #[trigger] front[i]), PAYLOAD as nat)
                == largest_end(n, front) {
            let i = choose|i: int|
                0 <= i < front.len() && end_of(payload_types(n, #[trigger] front[i]), PAYLOAD as nat)
                    == largest_end(n, front);
            assert(vs[i] == front[i]);
        }
        assert(vs[vs.len() - 1] == vs.last());
    }
}

/// An object of a sum has room for each of its variants, and no more than the largest of
/// them and its alignment ask for.
pub proof fn variants_have_room(p: ProgramV, n: NominalV, i: int)
    requires
        declared_variants(p, n.id) matches Some(vs) && 0 <= i < vs.len(),
    ensures
        declared_variants(p, n.id) matches Some(vs) && end_of(
            payload_types(n, vs[i]),
            PAYLOAD as nat,
        ) <= sum_size(p, n) && sum_size(p, n) % 8 == 0 && (sum_size(p, n) < PAYLOAD + 8 || exists|
            j: int,
        |
            0 <= j < vs.len() && sum_size(p, n) < end_of(
                payload_types(n, #[trigger] vs[j]),
                PAYLOAD as nat,
            ) + 8),
{
    if let Some(vs) = declared_variants(p, n.id) {
        largest_bounds(n, vs, i);
        largest_reached(n, vs);
        crate::layout::aligned_facts(largest_end(n, vs), 8);
        if largest_end(n, vs) != PAYLOAD {
            let j = choose|j: int|
                0 <= j < vs.len() && end_of(payload_types(n, #[trigger] vs[j]), PAYLOAD as nat)
                    == largest_end(n, vs);
            assert(sum_size(p, n) < end_of(payload_types(n, vs[j]), PAYLOAD as nat) + 8);
        }
    }
}

/// A variant is laid out with all of its fields, in order, each under its name and with the
/// type that the reference gives it, or else the declaration.
pub proof fn payloads_are_complete(n: NominalV, v: Seq<char>, fs: Seq<FieldInfoV>)
    ensures
        match payload_pairs(n, v, fs) {
            Some(ps) => ps.len() == fs.len() && forall|i: int|
                0 <= i < fs.len() ==> (#[trigger] ps[i]).0 == fs[i].name && (match lookup(
                    n.subst,
                    v + "."@ + fs[i].name,
                ) {
                    Some(t) => ps[i].1 == t,
                    None => fs[i].resolved_ty == Some(ps[i].1),
                }),
            None => exists|i: int|
                0 <= i < fs.len() && (#[trigger] fs[i]).resolved_ty is None && lookup(
                    n.subst,
                    v + "."@ + fs[i].name,
                ) is None,
        },
    decreases fs.len(),
{
    if fs.len() > 0 {
        let front = fs.drop_last();
        payloads_are_complete(n, v, front);
        assert(fs[fs.len() - 1] == fs.last());
        match payload_pairs(n, v, front) {
            Some(ps) => {
                if let Some(all) = payload_pairs(n, v, fs) {
                    assert forall|i: int| 0 <= i < fs.len() implies (#[trigger] all[i]).0
                        == fs[i].name && (match lookup(n.subst, v + "."@ + fs[i].name) {
                        Some(t) => all[i].1 == t,
                        None => fs[i].resolved_ty == Some(all[i].1),
                    }) by {
                        if i < front.len() {
                            assert(all[i] == ps[i]);
                            assert(front[i] == fs[i]);
                        }
                    }
                }
            },
            None => {
                let i = choose|i: int|
                    0 <= i < front.len() && (#[trigger] front[i]).resolved_ty is None && lookup(
                        n.subst,
                        v + "."@ + front[i].name,
                    ) is None;
                assert(fs[i] == front[i]);
            },
        }
    }
}

/// A constructed record is laid out with all of its fields, in order, with the types it was
/// constructed with.
pub proof fn records_are_complete(ns: Seq<Seq<char>>, s: Seq<(Seq<char>, TypeV)>)
    ensures
        match all_substituted(ns, s) {
            Some(ps) => ps.len() == ns.len() && forall|i: int|
                0 <= i < ns.len() ==> (#[trigger] ps[i]).0 == ns[i] && lookup(s, ns[i]) == Some(
                    ps[i].1,
                ),
            None => exists|i: int| 0 <= i < ns.len() && lookup(s, #[trigger] ns[i]) is None,
        },
    decreases ns.len(),
{
    if ns.len() > 0 {
        let front = ns.drop_last();
        records_are_complete(front, s);
        assert(ns[ns.len() - 1] == ns.last());
        match all_substituted(front, s) {
            Some(ps) => {
                if let Some(all) = all_substituted(ns, s) {
                    assert forall|i: int| 0 <= i < ns.len() implies (#[trigger] all[i]).0 == ns[i]
                        && lookup(s, ns[i]) == Some(all[i].1) by {
                        if i < front.len() {
                            assert(all[i] == ps[i]);
                            assert(front[i] == ns[i]);
                        }
                    }
                }
            },
            None => {
                let i = choose|i: int| 0 <= i < front.len() && lookup(s, #[trigger] front[i]) is None;
                assert(ns[i] == front[i]);
            },
        }
    }
}

} // verus!
