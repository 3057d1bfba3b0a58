//! Circular type declarations: resolving the fields of a program without an error puts
//! every field behind the fields that its type refers to, so a field that leads back to
//! itself is always refused.

use vstd::prelude::*;
use crate::ast::TypeExprV;
use crate::hir::{resolved_key, ProgramV};
use crate::table::{first_pos, first_pos_facts, keys_of, lookup, put};
use crate::typedecl::{aliases_resolved, declared_fields, declared_type, declared_types, decls_resolved, field_meta_names, field_type, fields_resolved, instance_fields, metas_of, open_fields, open_fields_shrink, pins_of, refined_type, self_type, slot_types, types_resolved, AliasDeclV, DeclsV, FieldMetaV, MetaV, PinsV, ProgressV};
use crate::types::{freshened, NominalInfo, TypeV};

verus! {

// ---- references ----

/// Whether a type expression holds `Self.field`.
pub open spec fn mentions(te: TypeExprV, field: Seq<char>) -> bool
    decreases te, 1int,
{
    match te {
        TypeExprV::Array(inner, _, _) => mentions(*inner, field),
        TypeExprV::Nullable(inner, _) => mentions(*inner, field),
        TypeExprV::Fallible(inner, _) => mentions(*inner, field),
        TypeExprV::Mut(inner, _) => mentions(*inner, field),
        TypeExprV::Ref(inner, _) => mentions(*inner, field),
        TypeExprV::Tuple(elems, _) => any_mentions(elems, field),
        TypeExprV::Fun(params, ret, _) => any_mentions(params, field) || mentions(*ret, field),
        TypeExprV::Anonymous(fields, _) => named_mention(fields, field),
        TypeExprV::SelfField(f, _) => f == field,
        TypeExprV::Refine(_, entries, _) => named_mention(entries, field),
        _ => false,
    }
}

pub open spec fn any_mentions(tes: Seq<TypeExprV>, field: Seq<char>) -> bool
    decreases tes, 0int,
{
    tes.len() > 0 && (any_mentions(tes.drop_last(), field) || mentions(tes.last(), field))
}

pub open spec fn named_mention(fs: Seq<(Seq<char>, TypeExprV)>, field: Seq<char>) -> bool
    decreases fs, 0int,
{
    fs.len() > 0 && (named_mention(fs.drop_last(), field) || mentions(fs.last().1, field))
}

/// Whether `Self.name` refers to a field, and not to a slot, of a type.
pub open spec fn is_field(m: MetaV, name: Seq<char>) -> bool {
    lookup(m.slots, name) is None && m.field(name) is Some
}

/// The declared type of a field, given as (type symbol, field name).
pub open spec fn declared(cx: DeclsV, key: (Seq<char>, Seq<char>)) -> Option<TypeExprV> {
    match lookup(cx.meta, key.0) {
        Some(m) => match m.field(key.1) {
            Some(f) => f.ty,
            None => None,
        },
        None => None,
    }
}

/// Whether the declared type of a field refers to a field of the same type.
pub open spec fn refers(cx: DeclsV, key: (Seq<char>, Seq<char>), to: (Seq<char>, Seq<char>)) -> bool {
    &&& key.0 == to.0
    &&& declared(cx, key) matches Some(te) && mentions(te, to.1)
    &&& lookup(cx.meta, key.0) matches Some(m) && is_field(m, to.1)
}

// ---- the order of resolution ----

type Memo = Seq<((Seq<char>, Seq<char>), TypeV)>;

/// Whether a field has been resolved.
pub open spec fn holds(memo: Seq<((Seq<char>, Seq<char>), TypeV)>, key: (Seq<char>, Seq<char>)) -> bool {
    exists|i: int| 0 <= i < memo.len() && (#[trigger] memo[i]).0 == key
}

/// Whether every field stands behind the fields that its type refers to.
pub open spec fn ordered(cx: DeclsV, memo: Seq<((Seq<char>, Seq<char>), TypeV)>) -> bool {
    forall|i: int, to: (Seq<char>, Seq<char>)|
        0 <= i < memo.len() && #[trigger] refers(cx, memo[i].0, to) ==> holds(memo.take(i), to)
}

proof fn holds_is_lookup(memo: Memo, key: (Seq<char>, Seq<char>))
    ensures
        holds(memo, key) == (lookup(memo, key) is Some),
{
    let ks = keys_of(memo);
    first_pos_facts(ks, key);
    let p = first_pos(ks, key);
    if p < memo.len() {
        assert(ks[p] == key);
        assert(memo[p].0 == key);
    }
    if holds(memo, key) {
        let i = choose|i: int| 0 <= i < memo.len() && (#[trigger] memo[i]).0 == key;
        assert(ks[i] == key);
    }
}

/// What a step of resolution keeps.
spec fn extends(cx: DeclsV, gray: Set<(Seq<char>, Seq<char>)>, a: ProgressV, b: ProgressV) -> bool {
    &&& a.errors.len() <= b.errors.len()
    &&& a.memo.len() <= b.memo.len()
    &&& forall|i: int| 0 <= i < a.memo.len() ==> #[trigger] b.memo[i] == a.memo[i]
    &&& forall|k: (Seq<char>, Seq<char>)|
        #[trigger] gray.contains(k) && declared(cx, k) is Some && !holds(a.memo, k) ==> !holds(
            b.memo,
            k,
        )
    &&& b.errors.len() == 0 && ordered(cx, a.memo) ==> ordered(cx, b.memo)
}

proof fn extends_trans(
    cx: DeclsV,
    gray: Set<(Seq<char>, Seq<char>)>,
    a: ProgressV,
    b: ProgressV,
    c: ProgressV,
)
    requires
        extends(cx, gray, a, b),
        extends(cx, gray, b, c),
    ensures
        extends(cx, gray, a, c),
{
    assert forall|i: int| 0 <= i < a.memo.len() implies #[trigger] c.memo[i] == a.memo[i] by {
        assert(b.memo[i] == a.memo[i]);
    }
}

proof fn holds_stays(
    cx: DeclsV,
    gray: Set<(Seq<char>, Seq<char>)>,
    a: ProgressV,
    b: ProgressV,
    key: (Seq<char>, Seq<char>),
)
    requires
        extends(cx, gray, a, b),
        holds(a.memo, key),
    ensures
        holds(b.memo, key),
{
    let i = choose|i: int| 0 <= i < a.memo.len() && (#[trigger] a.memo[i]).0 == key;
    assert(b.memo[i] == a.memo[i]);
    assert(b.memo[i].0 == key);
}

proof fn same_memo_extends(
    cx: DeclsV,
    gray: Set<(Seq<char>, Seq<char>)>,
    a: ProgressV,
    b: ProgressV,
)
    requires
        a.memo == b.memo,
        a.errors.len() <= b.errors.len(),
    ensures
        extends(cx, gray, a, b),
{
}

/// Whether, without an error, the fields that a type expression refers to are resolved.
spec fn covers(cx: DeclsV, owner: Option<Seq<char>>, te: TypeExprV, st: ProgressV) -> bool {
    forall|g: Seq<char>| #[trigger]
        mentions(te, g) && st.errors.len() == 0 && own_field(cx, owner, g) ==> holds(
            st.memo,
            (owner->0, g),
        )
}

spec fn own_field(cx: DeclsV, owner: Option<Seq<char>>, g: Seq<char>) -> bool {
    owner matches Some(sym) && (lookup(cx.meta, sym) matches Some(m) && is_field(m, g))
}

spec fn covers_all(cx: DeclsV, owner: Option<Seq<char>>, tes: Seq<TypeExprV>, st: ProgressV) -> bool {
    forall|g: Seq<char>| #[trigger]
        any_mentions(tes, g) && st.errors.len() == 0 && own_field(cx, owner, g) ==> holds(
            st.memo,
            (owner->0, g),
        )
}

spec fn covers_named(
    cx: DeclsV,
    owner: Option<Seq<char>>,
    fs: Seq<(Seq<char>, TypeExprV)>,
    st: ProgressV,
) -> bool {
    forall|g: Seq<char>| #[trigger]
        named_mention(fs, g) && st.errors.len() == 0 && own_field(cx, owner, g) ==> holds(
            st.memo,
            (owner->0, g),
        )
}

proof fn put_last(cx: DeclsV, st: ProgressV, key: (Seq<char>, Seq<char>), t: TypeV)
    requires
        !holds(st.memo, key),
        st.errors.len() == 0 ==> forall|to: (Seq<char>, Seq<char>)| #[trigger]
            refers(cx, key, to) ==> holds(st.memo, to),
    ensures
        ({
            let m = put(st.memo, key, t);
            &&& m == st.memo.push((key, t))
            &&& holds(m, key)
            &&& st.errors.len() == 0 && ordered(cx, st.memo) ==> ordered(cx, m)
        }),
{
    holds_is_lookup(st.memo, key);
    first_pos_facts(keys_of(st.memo), key);
    let m = put(st.memo, key, t);
    assert(m =~= st.memo.push((key, t)));
    assert(m[m.len() - 1].0 == key);
    if st.errors.len() == 0 && ordered(cx, st.memo) {
        assert forall|i: int, to: (Seq<char>, Seq<char>)|
            0 <= i < m.len() && #[trigger] refers(cx, m[i].0, to) implies holds(m.take(i), to) by {
            if i < st.memo.len() {
                assert(m.take(i) =~= st.memo.take(i));
                assert(m[i] == st.memo[i]);
            } else {
                assert(m.take(i) =~= st.memo);
            }
        }
    }
}

proof fn field_step(
    cx: DeclsV,
    gray: Set<(Seq<char>, Seq<char>)>,
    st: ProgressV,
    sym: Seq<char>,
    field: Seq<char>,
)
    ensures
        extends(cx, gray, st, field_type(cx, gray, st, sym, field).1),
        ({
            let b = field_type(cx, gray, st, sym, field).1;
            b.errors.len() == 0 && (lookup(cx.meta, sym) matches Some(m) && m.field(field) is Some)
                ==> holds(b.memo, (sym, field))
        }),
    decreases open_fields(cx, gray).len(), 0int, cx, 0int,
{
    let key = (sym, field);
    holds_is_lookup(st.memo, key);
    let b = field_type(cx, gray, st, sym, field).1;
    if lookup(st.memo, key) is None && lookup(cx.meta, sym) is Some {
        let m = lookup(cx.meta, sym)->0;
        if m.field(field) is Some {
            let f = m.field(field)->0;
            match f.ty {
                None => {
                    put_last(cx, st, key, TypeV::Unknown(f.var));
                    assert forall|k: (Seq<char>, Seq<char>)| #[trigger]
                        gray.contains(k) && declared(cx, k) is Some && !holds(
                        st.memo,
                        k,
                    ) implies !holds(b.memo, k) by {
                        pushed_only(st.memo, key, TypeV::Unknown(f.var), k);
                    }
                },
                Some(te) => if !gray.contains(key) {
                    open_fields_shrink(cx, gray, sym, field);
                    let inner = gray.insert(key);
                    type_step(cx, inner, st, Some(sym), m.module, te);
                    let (t, st1) = declared_type(cx, inner, st, Some(sym), m.module, te);
                    assert(inner.contains(key));
                    assert(!holds(st1.memo, key));
                    assert forall|to: (Seq<char>, Seq<char>)| #[trigger]
                        refers(cx, key, to) && st1.errors.len() == 0 implies holds(st1.memo, to) by {
                        assert(mentions(te, to.1));
                        assert(own_field(cx, Some(sym), to.1));
                        assert(to == (sym, to.1));
                    }
                    let fresh = freshened(t, st1.next);
                    put_last(cx, st1, key, fresh);
                    assert(b.memo == put(st1.memo, key, fresh));
                    assert forall|k: (Seq<char>, Seq<char>)| #[trigger]
                        gray.contains(k) && declared(cx, k) is Some && !holds(
                        st.memo,
                        k,
                    ) implies !holds(b.memo, k) by {
                        assert(inner.contains(k));
                        assert(!holds(st1.memo, k));
                        pushed_only(st1.memo, key, fresh, k);
                    }
                },
            }
        }
    }
}

proof fn pushed_only(memo: Memo, key: (Seq<char>, Seq<char>), t: TypeV, k: (Seq<char>, Seq<char>))
    requires
        !holds(memo, k),
        k != key,
    ensures
        !holds(memo.push((key, t)), k),
{
    let m = memo.push((key, t));
    if holds(m, k) {
        let i = choose|i: int| 0 <= i < m.len() && (#[trigger] m[i]).0 == k;
        assert(memo[i].0 == k);
    }
}

proof fn type_step(
    cx: DeclsV,
    gray: Set<(Seq<char>, Seq<char>)>,
    st: ProgressV,
    owner: Option<Seq<char>>,
    module: Seq<Seq<char>>,
    te: TypeExprV,
)
    ensures
        extends(cx, gray, st, declared_type(cx, gray, st, owner, module, te).1),
        covers(cx, owner, te, declared_type(cx, gray, st, owner, module, te).1),
    decreases open_fields(cx, gray).len(), 3int, te, 1int,
{
    let b = declared_type(cx, gray, st, owner, module, te).1;
    match te {
        TypeExprV::Array(inner, _, _) => {
            type_step(cx, gray, st, owner, module, *inner);
            assert(b == declared_type(cx, gray, st, owner, module, *inner).1);
            assert(forall|g: Seq<char>| #[trigger] mentions(te, g) ==> mentions(*inner, g));
        },
        TypeExprV::Nullable(inner, _) => {
            type_step(cx, gray, st, owner, module, *inner);
            assert(b == declared_type(cx, gray, st, owner, module, *inner).1);
            assert(forall|g: Seq<char>| #[trigger] mentions(te, g) ==> mentions(*inner, g));
        },
        TypeExprV::Fallible(inner, _) => {
            type_step(cx, gray, st, owner, module, *inner);
            assert(b == declared_type(cx, gray, st, owner, module, *inner).1);
            assert(forall|g: Seq<char>| #[trigger] mentions(te, g) ==> mentions(*inner, g));
        },
        TypeExprV::Mut(inner, _) => {
            type_step(cx, gray, st, owner, module, *inner);
            assert(b == declared_type(cx, gray, st, owner, module, *inner).1);
            assert(forall|g: Seq<char>| #[trigger] mentions(te, g) ==> mentions(*inner, g));
        },
        TypeExprV::Ref(inner, _) => {
            type_step(cx, gray, st, owner, module, *inner);
            assert(b == declared_type(cx, gray, st, owner, module, *inner).1);
            assert(forall|g: Seq<char>| #[trigger] mentions(te, g) ==> mentions(*inner, g));
        },
        TypeExprV::Tuple(elems, _) => {
            types_step(cx, gray, st, owner, module, elems);
            assert(b == declared_types(cx, gray, st, owner, module, elems).1);
            assert(forall|g: Seq<char>| #[trigger] mentions(te, g) ==> any_mentions(elems, g));
        },
        TypeExprV::Fun(params, ret, _) => {
            types_step(cx, gray, st, owner, module, params);
            let st1 = declared_types(cx, gray, st, owner, module, params).1;
            type_step(cx, gray, st1, owner, module, *ret);
            extends_trans(cx, gray, st, st1, b);
            assert forall|g: Seq<char>| #[trigger]
                mentions(te, g) && b.errors.len() == 0 && own_field(cx, owner, g) implies holds(
                b.memo,
                (owner->0, g),
            ) by {
                if any_mentions(params, g) {
                    holds_stays(cx, gray, st1, b, (owner->0, g));
                } else {
                    assert(mentions(*ret, g));
                }
            }
        },
        TypeExprV::Anonymous(fields, _) => {
            fields_step(cx, gray, st, owner, module, fields);
            assert(b == declared_fields(cx, gray, st, owner, module, fields).1);
            assert(forall|g: Seq<char>| #[trigger] mentions(te, g) ==> named_mention(fields, g));
        },
        TypeExprV::SelfField(field, span) => {
            if let Some(sym) = owner {
                field_step(cx, gray, st, sym, field);
            }
            assert(b == self_type(cx, gray, st, owner, field, span).1);
            assert(extends(cx, gray, st, b));
            assert(covers(cx, owner, te, b));
        },
        TypeExprV::Refine(_, _, _) => {
            refine_step(cx, gray, st, owner, module, te);
            assert(b == refined_type(cx, gray, st, owner, module, te).1);
        },
        _ => {
            assert(extends(cx, gray, st, b));
            assert(covers(cx, owner, te, b));
        },
    }
}

proof fn types_step(
    cx: DeclsV,
    gray: Set<(Seq<char>, Seq<char>)>,
    st: ProgressV,
    owner: Option<Seq<char>>,
    module: Seq<Seq<char>>,
    tes: Seq<TypeExprV>,
)
    ensures
        extends(cx, gray, st, declared_types(cx, gray, st, owner, module, tes).1),
        covers_all(cx, owner, tes, declared_types(cx, gray, st, owner, module, tes).1),
    decreases open_fields(cx, gray).len(), 3int, tes, 0int,
{
    if tes.len() > 0 {
        let rest = tes.drop_last();
        types_step(cx, gray, st, owner, module, rest);
        let st1 = declared_types(cx, gray, st, owner, module, rest).1;
        type_step(cx, gray, st1, owner, module, tes.last());
        let b = declared_types(cx, gray, st, owner, module, tes).1;
        extends_trans(cx, gray, st, st1, b);
        assert forall|g: Seq<char>| #[trigger]
            any_mentions(tes, g) && b.errors.len() == 0 && own_field(cx, owner, g) implies holds(
            b.memo,
            (owner->0, g),
        ) by {
            if any_mentions(rest, g) {
                holds_stays(cx, gray, st1, b, (owner->0, g));
            } else {
                assert(mentions(tes.last(), g));
            }
        }
    }
}

proof fn fields_step(
    cx: DeclsV,
    gray: Set<(Seq<char>, Seq<char>)>,
    st: ProgressV,
    owner: Option<Seq<char>>,
    module: Seq<Seq<char>>,
    fs: Seq<(Seq<char>, TypeExprV)>,
)
    ensures
        extends(cx, gray, st, declared_fields(cx, gray, st, owner, module, fs).1),
        covers_named(cx, owner, fs, declared_fields(cx, gray, st, owner, module, fs).1),
    decreases open_fields(cx, gray).len(), 3int, fs, 0int,
{
    if fs.len() > 0 {
        let rest = fs.drop_last();
        fields_step(cx, gray, st, owner, module, rest);
        let st1 = declared_fields(cx, gray, st, owner, module, rest).1;
        type_step(cx, gray, st1, owner, module, fs.last().1);
        let b = declared_fields(cx, gray, st, owner, module, fs).1;
        extends_trans(cx, gray, st, st1, b);
        assert forall|g: Seq<char>| #[trigger]
            named_mention(fs, g) && b.errors.len() == 0 && own_field(cx, owner, g) implies holds(
            b.memo,
            (owner->0, g),
        ) by {
            if named_mention(rest, g) {
                holds_stays(cx, gray, st1, b, (owner->0, g));
            } else {
                assert(mentions(fs.last().1, g));
            }
        }
    }
}

proof fn pins_step(
    cx: DeclsV,
    gray: Set<(Seq<char>, Seq<char>)>,
    st: ProgressV,
    owner: Option<Seq<char>>,
    module: Seq<Seq<char>>,
    bsym: Seq<char>,
    m: MetaV,
    entries: Seq<(Seq<char>, TypeExprV)>,
)
    ensures
        extends(cx, gray, st, pins_of(cx, gray, st, owner, module, bsym, m, entries).1),
        covers_named(cx, owner, entries, pins_of(cx, gray, st, owner, module, bsym, m, entries).1),
    decreases open_fields(cx, gray).len(), 3int, entries, 0int,
{
    if entries.len() > 0 {
        let rest = entries.drop_last();
        pins_step(cx, gray, st, owner, module, bsym, m, rest);
        let st1 = pins_of(cx, gray, st, owner, module, bsym, m, rest).1;
        let (name, te) = entries.last();
        type_step(cx, gray, st1, owner, module, te);
        let st2 = declared_type(cx, gray, st1, owner, module, te).1;
        field_step(cx, gray, st2, bsym, name);
        let st3 = field_type(cx, gray, st2, bsym, name).1;
        let b = pins_of(cx, gray, st, owner, module, bsym, m, entries).1;
        if lookup(m.slots, name) is None && m.field(name) is Some {
            same_memo_extends(cx, gray, st3, b);
            extends_trans(cx, gray, st2, st3, b);
        } else {
            same_memo_extends(cx, gray, st2, b);
        }
        extends_trans(cx, gray, st1, st2, b);
        extends_trans(cx, gray, st, st1, b);
        assert forall|g: Seq<char>| #[trigger]
            named_mention(entries, g) && b.errors.len() == 0 && own_field(
            cx,
            owner,
            g,
        ) implies holds(b.memo, (owner->0, g)) by {
            if named_mention(rest, g) {
                holds_stays(cx, gray, st1, b, (owner->0, g));
            } else {
                assert(mentions(te, g));
                holds_stays(cx, gray, st2, b, (owner->0, g));
            }
        }
    }
}

proof fn instance_step(
    cx: DeclsV,
    gray: Set<(Seq<char>, Seq<char>)>,
    st: ProgressV,
    bsym: Seq<char>,
    pins: PinsV,
    slots: Map<u32, TypeV>,
    fields: Seq<FieldMetaV>,
)
    ensures
        extends(cx, gray, st, instance_fields(cx, gray, st, bsym, pins, slots, fields).1),
    decreases open_fields(cx, gray).len(), 2int, cx, fields.len() as int,
{
    if fields.len() > 0 {
        let rest = fields.drop_last();
        instance_step(cx, gray, st, bsym, pins, slots, rest);
        let st1 = instance_fields(cx, gray, st, bsym, pins, slots, rest).1;
        let name = fields.last().name;
        field_step(cx, gray, st1, bsym, name);
        let b = instance_fields(cx, gray, st, bsym, pins, slots, fields).1;
        if lookup(pins.fields, name) is None {
            extends_trans(cx, gray, st, st1, b);
        }
    }
}

proof fn refine_step(
    cx: DeclsV,
    gray: Set<(Seq<char>, Seq<char>)>,
    st: ProgressV,
    owner: Option<Seq<char>>,
    module: Seq<Seq<char>>,
    te: TypeExprV,
)
    requires
        te is Refine,
    ensures
        extends(cx, gray, st, refined_type(cx, gray, st, owner, module, te).1),
        covers(cx, owner, te, refined_type(cx, gray, st, owner, module, te).1),
    decreases open_fields(cx, gray).len(), 3int, te, 0int,
{
    let b = refined_type(cx, gray, st, owner, module, te).1;
    match te {
        TypeExprV::Refine(base, entries, span) => match *base {
            TypeExprV::Named(bname, _) => match resolved_key(
                keys_of(cx.meta),
                cx.origins,
                module,
                bname,
            ) {
                None => {},
                Some(bsym) => {
                    first_pos_facts(keys_of(cx.meta), bsym);
                    assert(keys_of(cx.meta).contains(bsym));
                    let m = lookup(cx.meta, bsym)->0;
                    if m.is_record {
                        pins_step(cx, gray, st, owner, module, bsym, m, entries);
                        let (pins, st1) = pins_of(cx, gray, st, owner, module, bsym, m, entries);
                        let slots = slot_types(m, pins.slots);
                        instance_step(cx, gray, st1, bsym, pins, slots, m.fields);
                        extends_trans(cx, gray, st, st1, b);
                        assert forall|g: Seq<char>| #[trigger]
                            mentions(te, g) && b.errors.len() == 0 && own_field(
                            cx,
                            owner,
                            g,
                        ) implies holds(b.memo, (owner->0, g)) by {
                            assert(named_mention(entries, g));
                            holds_stays(cx, gray, st1, b, (owner->0, g));
                        }
                    }
                },
            },
            _ => {},
        },
        _ => {},
    }
}

// ---- whole programs ----

proof fn fields_resolved_step(
    cx: DeclsV,
    st: ProgressV,
    sym: Seq<char>,
    fields: Seq<FieldMetaV>,
)
    ensures
        extends(cx, Set::empty(), st, fields_resolved(cx, st, sym, fields).1),
        ({
            let b = fields_resolved(cx, st, sym, fields).1;
            b.errors.len() == 0 ==> forall|j: int|
                0 <= j < fields.len() && is_known(cx, sym, (#[trigger] fields[j]).name) ==> holds(
                    b.memo,
                    (sym, fields[j].name),
                )
        }),
    decreases fields.len(),
{
    if fields.len() > 0 {
        let rest = fields.drop_last();
        fields_resolved_step(cx, st, sym, rest);
        let st1 = fields_resolved(cx, st, sym, rest).1;
        let b = fields_resolved(cx, st, sym, fields).1;
        field_step(cx, Set::empty(), st1, sym, fields.last().name);
        extends_trans(cx, Set::empty(), st, st1, b);
        if b.errors.len() == 0 {
            assert forall|j: int|
                0 <= j < fields.len() && is_known(
                    cx,
                    sym,
                    (#[trigger] fields[j]).name,
                ) implies holds(b.memo, (sym, fields[j].name)) by {
                if j < fields.len() - 1 {
                    assert(rest[j] == fields[j]);
                    holds_stays(cx, Set::empty(), st1, b, (sym, fields[j].name));
                }
            }
        }
    }
}

/// Whether a type has a field of a name.
pub open spec fn is_known(cx: DeclsV, sym: Seq<char>, field: Seq<char>) -> bool {
    lookup(cx.meta, sym) matches Some(m) && m.field(field) is Some
}

proof fn types_resolved_step(cx: DeclsV, st: ProgressV, metas: Seq<(Seq<char>, MetaV)>)
    ensures
        extends(cx, Set::empty(), st, types_resolved(cx, st, metas).1),
        ({
            let b = types_resolved(cx, st, metas).1;
            b.errors.len() == 0 ==> forall|i: int, j: int|
                #![trigger metas[i].1.fields[j]]
                0 <= i < metas.len() && 0 <= j < metas[i].1.fields.len() && is_known(
                    cx,
                    metas[i].0,
                    metas[i].1.fields[j].name,
                ) ==> holds(b.memo, (metas[i].0, metas[i].1.fields[j].name))
        }),
    decreases metas.len(),
{
    if metas.len() > 0 {
        let rest = metas.drop_last();
        types_resolved_step(cx, st, rest);
        let st1 = types_resolved(cx, st, rest).1;
        let b = types_resolved(cx, st, metas).1;
        fields_resolved_step(cx, st1, metas.last().0, metas.last().1.fields);
        extends_trans(cx, Set::empty(), st, st1, b);
        if b.errors.len() == 0 {
            assert forall|i: int, j: int|
                #![trigger metas[i].1.fields[j]]
                0 <= i < metas.len() && 0 <= j < metas[i].1.fields.len() && is_known(
                    cx,
                    metas[i].0,
                    metas[i].1.fields[j].name,
                ) implies holds(b.memo, (metas[i].0, metas[i].1.fields[j].name)) by {
                if i < metas.len() - 1 {
                    assert(rest[i].1.fields[j] == metas[i].1.fields[j]);
                    holds_stays(
                        cx,
                        Set::empty(),
                        st1,
                        b,
                        (metas[i].0, metas[i].1.fields[j].name),
                    );
                }
            }
        }
    }
}

proof fn aliases_step(
    cx: DeclsV,
    st: ProgressV,
    table: Seq<(Seq<char>, crate::hir::TypeAliasV)>,
    aliases: Seq<AliasDeclV>,
)
    ensures
        extends(cx, Set::empty(), st, aliases_resolved(cx, st, table, aliases).1),
    decreases aliases.len(),
{
    if aliases.len() > 0 {
        let rest = aliases.drop_last();
        aliases_step(cx, st, table, rest);
        let st1 = aliases_resolved(cx, st, table, rest).1;
        let a = aliases.last();
        let b = aliases_resolved(cx, st, table, aliases).1;
        match a.decl.body {
            crate::ast::TypeBodyV::Alias(te) => {
                type_step(cx, Set::empty(), st1, None, a.module, te);
                extends_trans(cx, Set::empty(), st, st1, b);
            },
            _ => {},
        }
    }
}

/// What the declarations of a program are resolved against.
pub open spec fn decls_of(p: ProgramV, nominals: Seq<(Seq<char>, NominalInfo)>, next: nat) -> DeclsV {
    DeclsV { meta: metas_of(p.types, next).0, nominals, origins: p.import_origins }
}

/// Whether each field of a path refers to the next one.
pub open spec fn leads(cx: DeclsV, path: Seq<(Seq<char>, Seq<char>)>) -> bool {
    forall|i: int| 0 <= i < path.len() - 1 ==> refers(cx, #[trigger] path[i], path[i + 1])
}

proof fn paths_go_back(cx: DeclsV, memo: Memo, path: Seq<(Seq<char>, Seq<char>)>, k: int)
    requires
        ordered(cx, memo),
        leads(cx, path),
        path.len() > 0,
        holds(memo, path[0]),
        0 <= k < path.len(),
    ensures
        holds(memo, path[k]),
        first_pos(keys_of(memo), path[k]) <= first_pos(keys_of(memo), path[0]) - k,
    decreases k,
{
    let ks = keys_of(memo);
    if k > 0 {
        paths_go_back(cx, memo, path, k - 1);
        let from = path[k - 1];
        let to = path[k];
        assert(refers(cx, path[k - 1], path[k - 1 + 1]));
        holds_is_lookup(memo, from);
        first_pos_facts(ks, from);
        let i = first_pos(ks, from);
        assert(memo[i].0 == from);
        assert(holds(memo.take(i), to));
        let j = choose|j: int| 0 <= j < memo.take(i).len() && (#[trigger] memo.take(i)[j]).0 == to;
        assert(memo[j].0 == to);
        assert(ks[j] == to);
        first_pos_facts(ks, to);
    }
}

/// A field whose type leads back to itself, over any number of fields, is refused: a
/// program with one has an error.
pub proof fn circular_types_are_refused(
    p: ProgramV,
    nominals: Seq<(Seq<char>, NominalInfo)>,
    aliases: Seq<AliasDeclV>,
    next: nat,
    path: Seq<(Seq<char>, Seq<char>)>,
)
    requires
        path.len() > 1,
        path[0] == path.last(),
        leads(decls_of(p, nominals, next), path),
    ensures
        decls_resolved(p, nominals, aliases, next).errors.len() > 0,
{
    let (metas, next1) = metas_of(p.types, next);
    let cx = decls_of(p, nominals, next);
    let st = ProgressV { memo: Seq::empty(), next: next1, errors: Seq::empty() };
    let st1 = types_resolved(cx, st, metas).1;
    types_resolved_step(cx, st, metas);
    aliases_step(cx, st1, p.type_aliases, aliases);
    if decls_resolved(p, nominals, aliases, next).errors.len() == 0 {
        assert(ordered(cx, st.memo));
        assert(ordered(cx, st1.memo));
        let (sym, field) = path[0];
        assert(refers(cx, path[0], path[1]));
        first_pos_facts(keys_of(metas), sym);
        let i = first_pos(keys_of(metas), sym);
        let m = metas[i].1;
        assert(metas[i].0 == sym);
        first_pos_facts(field_meta_names(m.fields), field);
        let j = first_pos(field_meta_names(m.fields), field);
        assert(m.fields[j].name == field);
        assert(metas[i].1.fields[j].name == field);
        assert(is_known(cx, sym, field));
        assert(holds(st1.memo, path[0]));
        paths_go_back(cx, st1.memo, path, path.len() - 1);
        assert(false);
    }
}

} // verus!
