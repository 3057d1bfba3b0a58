//! Resolution of record type declarations that use type SLOTS, `Self.field`
//! references, and `Base { .. }` refinements.
//!
//! A record may declare type parameters as `slot: type` fields. Each slot is
//! given an inference variable; another field expresses its type over the slots
//! with `Self.slot` (`entries: _Entry { key: Self.key }?[]`). A refinement -- an
//! inline `Base { field: T }` or the right-hand side of a `type Alias = Base
//! { .. }` -- fills those variables, yielding a concrete instance.
//!
//! Inter-field type dependencies are resolved like Hindley-Milner inference:
//! every field and slot is assigned a variable, and `Self.field` resolves to
//! that field's variable. Following the references while a field is still being
//! resolved is exactly an occurs-check -- a field whose type refers back to
//! itself is a circular unification and is rejected rather than expanded forever.

use vstd::prelude::*;
use std::collections::HashMap;
use crate::ast::{clone_type_expr, named_type_exprs_view, type_exprs_view, TypeBody, TypeBodyV, TypeDecl, TypeDeclV, TypeExpr, TypeExprV};
use crate::hir::{all_origins_view, field_infos_view, named_type_aliases_view, named_type_infos_view, resolve_position, resolved_key, resolved_pos, slots_view, FieldInfo, FieldInfoV, Program, ProgramV, TypeAlias, TypeAliasV, TypeInfo, TypeInfoV, TypeKind, TypeKindV};
use crate::lower::{errors_view, report, LowerError, LowerErrorV};
use crate::span::Span;
use crate::table::{find_key, first_pos, first_pos_facts, first_pos_unique, keys_of, lookup, names, put, put_sorted};
use crate::text::{cat3, cat5, clone_strings, str_eq, texts};
use crate::types::{answers, bindings, clone_type, display, freshen_infer, freshened, infer_count, is_fully_known, named_types_view, resolve, resolved, result_view, same_type, structural_record, structural_view, substitute_vars, substituted, types_view, vars, NominalInfo, NominalType, NominalV, Substitution, Type, TypeV, INFER_VAR};

verus! {

// ---- models ----

/// Static metadata about one type: its slots and its fields, each with the
/// inference variable that stands for it.
#[verifier::ext_equal]
pub ghost struct MetaV {
    pub id: i32,
    pub name: Seq<char>,
    pub module: Seq<Seq<char>>,
    pub is_record: bool,
    pub slots: Seq<(Seq<char>, u32)>,
    pub fields: Seq<FieldMetaV>,
}

/// A field's name, declared type and inference variable.
#[verifier::ext_equal]
pub ghost struct FieldMetaV {
    pub name: Seq<char>,
    pub ty: Option<TypeExprV>,
    pub var: u32,
}

/// What resolution reads: the metadata of all types, what each type symbol
/// denotes, and where imported names come from.
pub ghost struct DeclsV {
    pub meta: Seq<(Seq<char>, MetaV)>,
    pub nominals: Seq<(Seq<char>, NominalInfo)>,
    pub origins: Seq<(Seq<Seq<char>>, Seq<(Seq<char>, Seq<Seq<char>>)>)>,
}

/// What resolution changes: the types of the fields resolved so far, the next
/// fresh variable, and the errors found.
#[verifier::ext_equal]
pub ghost struct ProgressV {
    pub memo: Seq<((Seq<char>, Seq<char>), TypeV)>,
    pub next: nat,
    pub errors: Seq<LowerErrorV>,
}

impl ProgressV {
    pub open spec fn failed(self, message: Seq<char>, span: Span) -> ProgressV {
        ProgressV { errors: self.errors.push(LowerErrorV { message, span }), ..self }
    }

    /// A fresh variable.
    pub open spec fn fresh(self) -> (TypeV, ProgressV) {
        (TypeV::Unknown(self.next as u32), ProgressV { next: self.next + 1, ..self })
    }
}

/// The names of fields.
pub open spec fn field_meta_names(fs: Seq<FieldMetaV>) -> Seq<Seq<char>> {
    Seq::new(fs.len(), |i: int| fs[i].name)
}

impl MetaV {
    /// The field of this name.
    pub open spec fn field(self, name: Seq<char>) -> Option<FieldMetaV> {
        let p = first_pos(field_meta_names(self.fields), name);
        if 0 <= p < self.fields.len() {
            Some(self.fields[p])
        } else {
            None
        }
    }
}

impl DeclsV {
    /// What a type name denotes in `module`.
    pub open spec fn nominal(self, module: Seq<Seq<char>>, name: Seq<char>) -> Option<NominalInfo> {
        match resolved_pos(keys_of(self.nominals), self.origins, module, name) {
            Some(p) => Some(self.nominals[p].1),
            None => None,
        }
    }

    /// What each type name denotes in `module`.
    pub open spec fn nominals_in(self, module: Seq<Seq<char>>) -> spec_fn(Seq<char>) -> Option<
        NominalInfo,
    > {
        |name: Seq<char>| self.nominal(module, name)
    }
}

/// The fields of the first types of a table, as (type symbol, field name).
pub open spec fn field_keys(meta: Seq<(Seq<char>, MetaV)>) -> Seq<(Seq<char>, Seq<char>)>
    decreases meta.len(),
{
    if meta.len() == 0 {
        Seq::empty()
    } else {
        field_keys(meta.drop_last()) + keys_in(meta.last().0, meta.last().1)
    }
}

/// The fields of one type.
pub open spec fn keys_in(sym: Seq<char>, m: MetaV) -> Seq<(Seq<char>, Seq<char>)> {
    Seq::new(m.fields.len(), |i: int| (sym, m.fields[i].name))
}

/// The fields not yet being resolved: what bounds the depth of resolution.
pub open spec fn open_fields(cx: DeclsV, gray: Set<(Seq<char>, Seq<char>)>) -> Set<
    (Seq<char>, Seq<char>),
> {
    field_keys(cx.meta).to_set().difference(gray)
}

proof fn field_key_present(meta: Seq<(Seq<char>, MetaV)>, p: int, q: int)
    requires
        0 <= p < meta.len(),
        0 <= q < meta[p].1.fields.len(),
    ensures
        field_keys(meta).contains((meta[p].0, meta[p].1.fields[q].name)),
    decreases meta.len(),
{
    let key = (meta[p].0, meta[p].1.fields[q].name);
    let rest = meta.drop_last();
    let a = field_keys(rest);
    let b = keys_in(meta.last().0, meta.last().1);
    if p < meta.len() - 1 {
        field_key_present(rest, p, q);
        let i = choose|i: int| 0 <= i < a.len() && a[i] == key;
        assert((a + b)[i] == key);
    } else {
        assert(b[q] == key);
        assert((a + b)[a.len() + q] == key);
    }
}

/// Starting on a field leaves fewer fields to start on.
pub proof fn open_fields_shrink(
    cx: DeclsV,
    gray: Set<(Seq<char>, Seq<char>)>,
    sym: Seq<char>,
    field: Seq<char>,
)
    requires
        lookup(cx.meta, sym) matches Some(m) && m.field(field) is Some,
        !gray.contains((sym, field)),
    ensures
        open_fields(cx, gray.insert((sym, field))).len() < open_fields(cx, gray).len(),
{
    let key = (sym, field);
    let p = first_pos(keys_of(cx.meta), sym);
    first_pos_facts(keys_of(cx.meta), sym);
    let m = cx.meta[p].1;
    let q = first_pos(field_meta_names(m.fields), field);
    first_pos_facts(field_meta_names(m.fields), field);
    assert(cx.meta[p].0 == sym);
    assert(m.fields[q].name == field);
    field_key_present(cx.meta, p, q);
    let all = field_keys(cx.meta).to_set();
    vstd::seq_lib::seq_to_set_is_finite(field_keys(cx.meta));
    assert(all.contains(key));
    assert(open_fields(cx, gray.insert(key)) =~= open_fields(cx, gray).remove(key));
}

// ---- what a declaration denotes ----

/// The type of the field `field` of the type `sym`. A field met again while it is
/// being resolved is a circular type.
pub open spec fn field_type(
    cx: DeclsV,
    gray: Set<(Seq<char>, Seq<char>)>,
    st: ProgressV,
    sym: Seq<char>,
    field: Seq<char>,
) -> (TypeV, ProgressV)
    decreases open_fields(cx, gray).len(), 0int, cx, 0int,
{
    let key = (sym, field);
    match lookup(st.memo, key) {
        Some(t) => (t, st),
        None => match lookup(cx.meta, sym) {
            None => st.fresh(),
            Some(m) => match m.field(field) {
                None => st.fresh(),
                Some(f) => match f.ty {
                    // An unannotated field is a free type parameter: its variable
                    // stands for it.
                    None => (
                        TypeV::Unknown(f.var),
                        ProgressV { memo: put(st.memo, key, TypeV::Unknown(f.var)), ..st },
                    ),
                    Some(te) => if gray.contains(key) {
                        (
                            TypeV::Unknown(f.var),
                            st.failed(
                                "field `"@ + field + "` of `"@ + m.name
                                    + "` has a circular type (it refers to itself)"@,
                                te.span(),
                            ),
                        )
                    } else {
                        proof {
                            open_fields_shrink(cx, gray, sym, field);
                        }
                        let (t, st1) = declared_type(
                            cx,
                            gray.insert(key),
                            st,
                            Some(sym),
                            m.module,
                            te,
                        );
                        let fresh = freshened(t, st1.next);
                        (
                            fresh,
                            ProgressV {
                                memo: put(st1.memo, key, fresh),
                                next: st1.next + infer_count(t),
                                ..st1
                            },
                        )
                    },
                },
            },
        },
    }
}

/// The type a type expression denotes in `owner`'s declaration (or, for an alias
/// right-hand side, without owner) in `module`.
pub open spec fn declared_type(
    cx: DeclsV,
    gray: Set<(Seq<char>, Seq<char>)>,
    st: ProgressV,
    owner: Option<Seq<char>>,
    module: Seq<Seq<char>>,
    te: TypeExprV,
) -> (TypeV, ProgressV)
    decreases open_fields(cx, gray).len(), 3int, te, 1int,
{
    match te {
        TypeExprV::Array(inner, n, _) => {
            let (t, st1) = declared_type(cx, gray, st, owner, module, *inner);
            (
                match n {
                    Some(n) => TypeV::Array(Box::new(t), n),
                    None => TypeV::Slice(Box::new(t)),
                },
                st1,
            )
        },
        TypeExprV::Nullable(inner, _) => {
            let (t, st1) = declared_type(cx, gray, st, owner, module, *inner);
            (TypeV::Nullable(Box::new(t)), st1)
        },
        TypeExprV::Fallible(inner, _) => {
            let (t, st1) = declared_type(cx, gray, st, owner, module, *inner);
            (result_view(t, TypeV::Unknown(INFER_VAR)), st1)
        },
        TypeExprV::Mut(inner, _) => {
            let (t, st1) = declared_type(cx, gray, st, owner, module, *inner);
            (TypeV::Mut(Box::new(t)), st1)
        },
        TypeExprV::Ref(inner, _) => {
            let (t, st1) = declared_type(cx, gray, st, owner, module, *inner);
            (TypeV::Ref(Box::new(t)), st1)
        },
        TypeExprV::Tuple(elems, _) => {
            let (ts, st1) = declared_types(cx, gray, st, owner, module, elems);
            (TypeV::Tuple(ts), st1)
        },
        TypeExprV::Fun(params, ret, _) => {
            let (ps, st1) = declared_types(cx, gray, st, owner, module, params);
            let (r, st2) = declared_type(cx, gray, st1, owner, module, *ret);
            (TypeV::Fun(ps, Box::new(r)), st2)
        },
        TypeExprV::Anonymous(fields, _) => {
            let (fs, st1) = declared_fields(cx, gray, st, owner, module, fields);
            (structural_view(fs), st1)
        },
        TypeExprV::SelfField(field, span) => self_type(cx, gray, st, owner, field, span),
        TypeExprV::Refine(base, entries, span) => refined_type(cx, gray, st, owner, module, te),
        // A nested `type` slot has no meaning.
        TypeExprV::TypeSlot(span) => st.failed(
            "`type` may only be a field's whole declared type"@,
            span,
        ).fresh(),
        // Names go through the plain resolver; a `typeof` needs the checker.
        _ => (
            match resolved(te, cx.nominals_in(module)) {
                Ok(t) => t,
                Err(_) => TypeV::Unknown(INFER_VAR),
            },
            st,
        ),
    }
}

/// The types a list of type expressions denotes, resolved left to right.
pub open spec fn declared_types(
    cx: DeclsV,
    gray: Set<(Seq<char>, Seq<char>)>,
    st: ProgressV,
    owner: Option<Seq<char>>,
    module: Seq<Seq<char>>,
    tes: Seq<TypeExprV>,
) -> (Seq<TypeV>, ProgressV)
    decreases open_fields(cx, gray).len(), 3int, tes, 0int,
{
    if tes.len() == 0 {
        (Seq::empty(), st)
    } else {
        let (ts, st1) = declared_types(cx, gray, st, owner, module, tes.drop_last());
        let (t, st2) = declared_type(cx, gray, st1, owner, module, tes.last());
        (ts.push(t), st2)
    }
}

/// The types a list of named type expressions denotes, resolved left to right.
pub open spec fn declared_fields(
    cx: DeclsV,
    gray: Set<(Seq<char>, Seq<char>)>,
    st: ProgressV,
    owner: Option<Seq<char>>,
    module: Seq<Seq<char>>,
    fs: Seq<(Seq<char>, TypeExprV)>,
) -> (Seq<(Seq<char>, TypeV)>, ProgressV)
    decreases open_fields(cx, gray).len(), 3int, fs, 0int,
{
    if fs.len() == 0 {
        (Seq::empty(), st)
    } else {
        let (ts, st1) = declared_fields(cx, gray, st, owner, module, fs.drop_last());
        let (t, st2) = declared_type(cx, gray, st1, owner, module, fs.last().1);
        (ts.push((fs.last().0, t)), st2)
    }
}

/// `Self.field` inside `owner`'s declaration: the referenced slot's variable, or
/// the referenced field's type.
pub open spec fn self_type(
    cx: DeclsV,
    gray: Set<(Seq<char>, Seq<char>)>,
    st: ProgressV,
    owner: Option<Seq<char>>,
    field: Seq<char>,
    span: Span,
) -> (TypeV, ProgressV)
    decreases open_fields(cx, gray).len(), 1int, cx, 0int,
{
    match owner {
        None => st.failed(
            "`Self."@ + field + "` is only valid inside a type declaration"@,
            span,
        ).fresh(),
        Some(sym) => match lookup(cx.meta, sym) {
            None => st.fresh(),
            Some(m) => match lookup(m.slots, field) {
                Some(v) => (TypeV::Unknown(v), st),
                None => if m.field(field) is Some {
                    field_type(cx, gray, st, sym, field)
                } else {
                    st.failed(
                        "`Self."@ + field + "` names no field or slot of `"@ + m.name + "`"@,
                        span,
                    ).fresh()
                },
            },
        },
    }
}

/// The pins of a refinement: the type each named slot and field is fixed to.
#[verifier::ext_equal]
pub ghost struct PinsV {
    pub slots: Map<u32, TypeV>,
    pub fields: Seq<(Seq<char>, TypeV)>,
}

/// The pins of the entries of a refinement of `bsym`. A slot takes any type; a
/// field whose declared type is already concrete takes only that type.
pub open spec fn pins_of(
    cx: DeclsV,
    gray: Set<(Seq<char>, Seq<char>)>,
    st: ProgressV,
    owner: Option<Seq<char>>,
    module: Seq<Seq<char>>,
    bsym: Seq<char>,
    m: MetaV,
    entries: Seq<(Seq<char>, TypeExprV)>,
) -> (PinsV, ProgressV)
    decreases open_fields(cx, gray).len(), 3int, entries, 0int,
{
    if entries.len() == 0 {
        (PinsV { slots: Map::empty(), fields: Seq::empty() }, st)
    } else {
        let (pins, st1) = pins_of(cx, gray, st, owner, module, bsym, m, entries.drop_last());
        let (name, te) = entries.last();
        let (t, st2) = declared_type(cx, gray, st1, owner, module, te);
        match lookup(m.slots, name) {
            Some(v) => (PinsV { slots: pins.slots.insert(v, t), ..pins }, st2),
            None => if m.field(name) is Some {
                let (declared, st3) = field_type(cx, gray, st2, bsym, name);
                let clash = vars(declared) == Set::<u32>::empty() && vars(t) == Set::<
                    u32,
                >::empty() && declared != t;
                (
                    PinsV { fields: put(pins.fields, name, t), ..pins },
                    if clash {
                        st3.failed(
                            "refining field `"@ + name + "` of `"@ + m.name + "`: its type is `"@
                                + display(declared) + "`, not `"@ + display(t) + "`"@,
                            te.span(),
                        )
                    } else {
                        st3
                    },
                )
            } else {
                (
                    pins,
                    st2.failed(
                        "`"@ + m.name + "` has no field or slot `"@ + name + "` to refine"@,
                        te.span(),
                    ),
                )
            },
        }
    }
}

/// What each slot variable of a refined type becomes: its pin, or an open
/// placeholder when the refinement omits it.
pub open spec fn slot_types(m: MetaV, pins: Map<u32, TypeV>) -> Map<u32, TypeV> {
    Map::new(
        |v: u32| exists|i: int| 0 <= i < m.slots.len() && (#[trigger] m.slots[i]).1 == v,
        |v: u32| if pins.contains_key(v) {
            pins[v]
        } else {
            TypeV::Unknown(INFER_VAR)
        },
    )
}

/// The substitution of an instance: every field, pinned or with the slots filled.
pub open spec fn instance_fields(
    cx: DeclsV,
    gray: Set<(Seq<char>, Seq<char>)>,
    st: ProgressV,
    bsym: Seq<char>,
    pins: PinsV,
    slots: Map<u32, TypeV>,
    fields: Seq<FieldMetaV>,
) -> (Seq<(Seq<char>, TypeV)>, ProgressV)
    decreases open_fields(cx, gray).len(), 2int, cx, fields.len() as int,
{
    if fields.len() == 0 {
        (Seq::empty(), st)
    } else {
        let (s, st1) = instance_fields(cx, gray, st, bsym, pins, slots, fields.drop_last());
        let name = fields.last().name;
        match lookup(pins.fields, name) {
            Some(t) => (put_sorted(s, name, t), st1),
            None => {
                let (declared, st2) = field_type(cx, gray, st1, bsym, name);
                (put_sorted(s, name, substituted(declared, slots)), st2)
            },
        }
    }
}

/// `Base { field: T, .. }`: a concrete instance of `Base` whose substitution covers
/// every real field. An omitted slot is left open.
pub open spec fn refined_type(
    cx: DeclsV,
    gray: Set<(Seq<char>, Seq<char>)>,
    st: ProgressV,
    owner: Option<Seq<char>>,
    module: Seq<Seq<char>>,
    te: TypeExprV,
) -> (TypeV, ProgressV)
    decreases open_fields(cx, gray).len(), 3int, te, 0int,
{
    match te {
        TypeExprV::Refine(base, entries, span) => match *base {
            TypeExprV::Named(bname, _) => match resolved_key(
                keys_of(cx.meta),
                cx.origins,
                module,
                bname,
            ) {
                None => st.failed("unknown type `"@ + bname + "` in refinement"@, span).fresh(),
                Some(bsym) => match lookup(cx.meta, bsym) {
                    None => st.fresh(),
                    Some(m) => if !m.is_record {
                        st.failed(
                            "`"@ + bname + "` is not a record type and cannot be refined"@,
                            span,
                        ).fresh()
                    } else {
                        let (pins, st1) = pins_of(
                            cx,
                            gray,
                            st,
                            owner,
                            module,
                            bsym,
                            m,
                            entries,
                        );
                        let (subst, st2) = instance_fields(
                            cx,
                            gray,
                            st1,
                            bsym,
                            pins,
                            slot_types(m, pins.slots),
                            m.fields,
                        );
                        (TypeV::Record(NominalV { id: m.id, name: m.name, subst }), st2)
                    },
                },
            },
            _ => st.failed("a refinement base must be a named record type"@, span).fresh(),
        },
        _ => st.fresh(),
    }
}

// ---- the variable counter only grows ----

proof fn field_type_grows(
    cx: DeclsV,
    gray: Set<(Seq<char>, Seq<char>)>,
    st: ProgressV,
    sym: Seq<char>,
    field: Seq<char>,
)
    ensures
        st.next <= field_type(cx, gray, st, sym, field).1.next,
    decreases open_fields(cx, gray).len(), 0int, cx, 0int,
{
    let key = (sym, field);
    if lookup(st.memo, key) is None && lookup(cx.meta, sym) is Some {
        let m = lookup(cx.meta, sym)->0;
        if m.field(field) is Some {
            let f = m.field(field)->0;
            if f.ty is Some && !gray.contains(key) {
                open_fields_shrink(cx, gray, sym, field);
                declared_type_grows(cx, gray.insert(key), st, Some(sym), m.module, f.ty->0);
            }
        }
    }
}

proof fn declared_type_grows(
    cx: DeclsV,
    gray: Set<(Seq<char>, Seq<char>)>,
    st: ProgressV,
    owner: Option<Seq<char>>,
    module: Seq<Seq<char>>,
    te: TypeExprV,
)
    ensures
        st.next <= declared_type(cx, gray, st, owner, module, te).1.next,
    decreases open_fields(cx, gray).len(), 3int, te, 1int,
{
    match te {
        TypeExprV::Array(inner, _, _) => declared_type_grows(cx, gray, st, owner, module, *inner),
        TypeExprV::Nullable(inner, _) => declared_type_grows(cx, gray, st, owner, module, *inner),
        TypeExprV::Fallible(inner, _) => declared_type_grows(cx, gray, st, owner, module, *inner),
        TypeExprV::Mut(inner, _) => declared_type_grows(cx, gray, st, owner, module, *inner),
        TypeExprV::Ref(inner, _) => declared_type_grows(cx, gray, st, owner, module, *inner),
        TypeExprV::Tuple(elems, _) => declared_types_grow(
            cx,
            gray,
            st,
            owner,
            module,
            elems,
            elems.len() as int,
        ),
        TypeExprV::Fun(params, ret, _) => {
            declared_types_grow(cx, gray, st, owner, module, params, params.len() as int);
            let st1 = declared_types(cx, gray, st, owner, module, params).1;
            declared_type_grows(cx, gray, st1, owner, module, *ret);
        },
        TypeExprV::Anonymous(fields, _) => declared_fields_grow(
            cx,
            gray,
            st,
            owner,
            module,
            fields,
            fields.len() as int,
        ),
        TypeExprV::SelfField(field, span) => self_type_grows(cx, gray, st, owner, field, span),
        TypeExprV::Refine(_, _, _) => refined_type_grows(cx, gray, st, owner, module, te),
        _ => {},
    }
}

proof fn declared_types_grow(
    cx: DeclsV,
    gray: Set<(Seq<char>, Seq<char>)>,
    st: ProgressV,
    owner: Option<Seq<char>>,
    module: Seq<Seq<char>>,
    tes: Seq<TypeExprV>,
    n: int,
)
    requires
        0 <= n <= tes.len(),
    ensures
        st.next <= declared_types(cx, gray, st, owner, module, tes.take(n)).1.next,
        declared_types(cx, gray, st, owner, module, tes.take(n)).1.next <= declared_types(
            cx,
            gray,
            st,
            owner,
            module,
            tes,
        ).1.next,
    decreases open_fields(cx, gray).len(), 3int, tes, 0int,
{
    if n == tes.len() {
        assert(tes.take(n) =~= tes);
        if n > 0 {
            let rest = tes.drop_last();
            assert(rest.take(n - 1) =~= rest);
            declared_types_grow(cx, gray, st, owner, module, rest, n - 1);
            let st1 = declared_types(cx, gray, st, owner, module, rest).1;
            declared_type_grows(cx, gray, st1, owner, module, tes.last());
        }
    } else {
        let rest = tes.drop_last();
        assert(rest.take(n) =~= tes.take(n));
        declared_types_grow(cx, gray, st, owner, module, rest, n);
        let st1 = declared_types(cx, gray, st, owner, module, rest).1;
        declared_type_grows(cx, gray, st1, owner, module, tes.last());
    }
}

proof fn declared_fields_grow(
    cx: DeclsV,
    gray: Set<(Seq<char>, Seq<char>)>,
    st: ProgressV,
    owner: Option<Seq<char>>,
    module: Seq<Seq<char>>,
    fs: Seq<(Seq<char>, TypeExprV)>,
    n: int,
)
    requires
        0 <= n <= fs.len(),
    ensures
        st.next <= declared_fields(cx, gray, st, owner, module, fs.take(n)).1.next,
        declared_fields(cx, gray, st, owner, module, fs.take(n)).1.next <= declared_fields(
            cx,
            gray,
            st,
            owner,
            module,
            fs,
        ).1.next,
    decreases open_fields(cx, gray).len(), 3int, fs, 0int,
{
    if n == fs.len() {
        assert(fs.take(n) =~= fs);
        if n > 0 {
            let rest = fs.drop_last();
            assert(rest.take(n - 1) =~= rest);
            declared_fields_grow(cx, gray, st, owner, module, rest, n - 1);
            let st1 = declared_fields(cx, gray, st, owner, module, rest).1;
            declared_type_grows(cx, gray, st1, owner, module, fs.last().1);
        }
    } else {
        let rest = fs.drop_last();
        assert(rest.take(n) =~= fs.take(n));
        declared_fields_grow(cx, gray, st, owner, module, rest, n);
        let st1 = declared_fields(cx, gray, st, owner, module, rest).1;
        declared_type_grows(cx, gray, st1, owner, module, fs.last().1);
    }
}

proof fn self_type_grows(
    cx: DeclsV,
    gray: Set<(Seq<char>, Seq<char>)>,
    st: ProgressV,
    owner: Option<Seq<char>>,
    field: Seq<char>,
    span: Span,
)
    ensures
        st.next <= self_type(cx, gray, st, owner, field, span).1.next,
    decreases open_fields(cx, gray).len(), 1int, cx, 0int,
{
    if owner is Some {
        field_type_grows(cx, gray, st, owner->0, field);
    }
}

proof fn pin_grows(
    cx: DeclsV,
    gray: Set<(Seq<char>, Seq<char>)>,
    st: ProgressV,
    owner: Option<Seq<char>>,
    module: Seq<Seq<char>>,
    bsym: Seq<char>,
    m: MetaV,
    entries: Seq<(Seq<char>, TypeExprV)>,
)
    requires
        entries.len() > 0,
    ensures
        pins_of(cx, gray, st, owner, module, bsym, m, entries.drop_last()).1.next <= pins_of(
            cx,
            gray,
            st,
            owner,
            module,
            bsym,
            m,
            entries,
        ).1.next,
    decreases open_fields(cx, gray).len(), 3int, entries, 0int,
{
    let st1 = pins_of(cx, gray, st, owner, module, bsym, m, entries.drop_last()).1;
    let (name, te) = entries.last();
    declared_type_grows(cx, gray, st1, owner, module, te);
    let st2 = declared_type(cx, gray, st1, owner, module, te).1;
    field_type_grows(cx, gray, st2, bsym, name);
}

proof fn pins_grow(
    cx: DeclsV,
    gray: Set<(Seq<char>, Seq<char>)>,
    st: ProgressV,
    owner: Option<Seq<char>>,
    module: Seq<Seq<char>>,
    bsym: Seq<char>,
    m: MetaV,
    entries: Seq<(Seq<char>, TypeExprV)>,
    n: int,
)
    requires
        0 <= n <= entries.len(),
    ensures
        st.next <= pins_of(cx, gray, st, owner, module, bsym, m, entries.take(n)).1.next,
        pins_of(cx, gray, st, owner, module, bsym, m, entries.take(n)).1.next <= pins_of(
            cx,
            gray,
            st,
            owner,
            module,
            bsym,
            m,
            entries,
        ).1.next,
    decreases open_fields(cx, gray).len(), 3int, entries, 1int,
{
    if n == entries.len() {
        assert(entries.take(n) =~= entries);
        if n > 0 {
            let rest = entries.drop_last();
            assert(rest.take(n - 1) =~= rest);
            pins_grow(cx, gray, st, owner, module, bsym, m, rest, n - 1);
            pin_grows(cx, gray, st, owner, module, bsym, m, entries);
        }
    } else {
        let rest = entries.drop_last();
        assert(rest.take(n) =~= entries.take(n));
        pins_grow(cx, gray, st, owner, module, bsym, m, rest, n);
        pin_grows(cx, gray, st, owner, module, bsym, m, entries);
    }
}

proof fn instance_fields_grow(
    cx: DeclsV,
    gray: Set<(Seq<char>, Seq<char>)>,
    st: ProgressV,
    bsym: Seq<char>,
    pins: PinsV,
    slots: Map<u32, TypeV>,
    fields: Seq<FieldMetaV>,
    n: int,
)
    requires
        0 <= n <= fields.len(),
    ensures
        st.next <= instance_fields(cx, gray, st, bsym, pins, slots, fields.take(n)).1.next,
        instance_fields(cx, gray, st, bsym, pins, slots, fields.take(n)).1.next
            <= instance_fields(cx, gray, st, bsym, pins, slots, fields).1.next,
    decreases open_fields(cx, gray).len(), 2int, cx, fields.len() as int,
{
    if fields.len() > 0 {
        let rest = fields.drop_last();
        let st1 = instance_fields(cx, gray, st, bsym, pins, slots, rest).1;
        field_type_grows(cx, gray, st1, bsym, fields.last().name);
        if n == fields.len() {
            assert(fields.take(n) =~= fields);
            assert(rest.take(n - 1) =~= rest);
            instance_fields_grow(cx, gray, st, bsym, pins, slots, rest, n - 1);
        } else {
            assert(rest.take(n) =~= fields.take(n));
            instance_fields_grow(cx, gray, st, bsym, pins, slots, rest, n);
        }
    } else {
        assert(fields.take(n) =~= fields);
    }
}

proof fn refined_type_grows(
    cx: DeclsV,
    gray: Set<(Seq<char>, Seq<char>)>,
    st: ProgressV,
    owner: Option<Seq<char>>,
    module: Seq<Seq<char>>,
    te: TypeExprV,
)
    ensures
        st.next <= refined_type(cx, gray, st, owner, module, te).1.next,
    decreases open_fields(cx, gray).len(), 3int, te, 0int,
{
    if let TypeExprV::Refine(base, entries, span) = te {
        if let TypeExprV::Named(bname, _) = *base {
            let key = resolved_key(keys_of(cx.meta), cx.origins, module, bname);
            if key is Some && lookup(cx.meta, key->0) is Some {
                let bsym = key->0;
                let m = lookup(cx.meta, bsym)->0;
                let n = entries.len() as int;
                pins_grow(cx, gray, st, owner, module, bsym, m, entries, n);
                assert(entries.take(n) =~= entries);
                let (pins, st1) = pins_of(cx, gray, st, owner, module, bsym, m, entries);
                let k = m.fields.len() as int;
                instance_fields_grow(
                    cx,
                    gray,
                    st1,
                    bsym,
                    pins,
                    slot_types(m, pins.slots),
                    m.fields,
                    k,
                );
                assert(m.fields.take(k) =~= m.fields);
            }
        }
    }
}

// ---- resolving ----

/// A field's name, declared type and inference variable.
struct FieldMeta {
    name: String,
    ty: Option<TypeExpr>,
    var: u32,
}

impl View for FieldMeta {
    type V = FieldMetaV;

    closed spec fn view(&self) -> FieldMetaV {
        FieldMetaV {
            name: self.name@,
            ty: match self.ty {
                Some(t) => Some(t@),
                None => None,
            },
            var: self.var,
        }
    }
}

/// Static metadata about one type, gathered before resolution so a refinement
/// can read its base's fields/slots.
struct TypeMeta {
    id: i32,
    name: String,
    module: Vec<String>,
    is_record: bool,
    slots: Vec<(String, u32)>,
    fields: Vec<FieldMeta>,
}

spec fn field_metas_view(fs: Seq<FieldMeta>) -> Seq<FieldMetaV> {
    Seq::new(fs.len(), |i: int| fs[i]@)
}

impl View for TypeMeta {
    type V = MetaV;

    closed spec fn view(&self) -> MetaV {
        MetaV {
            id: self.id,
            name: self.name@,
            module: texts(self.module@),
            is_record: self.is_record,
            slots: slots_view(self.slots@),
            fields: field_metas_view(self.fields@),
        }
    }
}

spec fn metas_view(ms: Seq<(String, TypeMeta)>) -> Seq<(Seq<char>, MetaV)> {
    Seq::new(ms.len(), |i: int| (ms[i].0@, ms[i].1@))
}

/// What each type symbol of a table denotes.
pub open spec fn nominals_view(v: Seq<(String, NominalInfo)>) -> Seq<(Seq<char>, NominalInfo)> {
    Seq::new(v.len(), |i: int| (v[i].0@, v[i].1))
}

impl TypeMeta {
    fn slot_var(&self, name: &str) -> (r: Option<u32>)
        ensures
            r == lookup(self@.slots, name@),
    {
        let i = find_key(&self.slots, name);
        assert(names(self.slots@) =~= keys_of(slots_view(self.slots@)));
        if i < self.slots.len() {
            Some(self.slots[i].1)
        } else {
            None
        }
    }

    fn field(&self, name: &str) -> (r: Option<&FieldMeta>)
        ensures
            (match r {
                Some(f) => Some(f@),
                None => None,
            }) == self@.field(name@),
    {
        let ghost ns = field_meta_names(self@.fields);
        for i in 0..self.fields.len()
            invariant
                ns == field_meta_names(self@.fields),
                ns.len() == self.fields.len(),
                forall|j: int| 0 <= j < i ==> ns[j] != name@,
        {
            assert(ns[i as int] == self.fields[i as int].name@);
            if str_eq(self.fields[i].name.as_str(), name) {
                proof {
                    first_pos_unique(ns, name@, i as int);
                }
                return Some(&self.fields[i]);
            }
        }
        proof {
            first_pos_unique(ns, name@, ns.len() as int);
        }
        None
    }
}

struct Resolver<'a> {
    meta: &'a Vec<(String, TypeMeta)>,
    nominal_by_symbol: &'a Vec<(String, NominalInfo)>,
    import_origins: &'a Vec<(Vec<String>, Vec<(String, Vec<String>)>)>,
    next_unknown: u32,
    /// Memoized resolved field types, keyed by (owner symbol, field name).
    resolved: Vec<((String, String), Type)>,
    /// Fields currently being resolved: revisiting one is a circular type.
    gray: Vec<(String, String)>,
    errors: Vec<LowerError>,
}

spec fn memo_view(v: Seq<((String, String), Type)>) -> Seq<((Seq<char>, Seq<char>), TypeV)> {
    Seq::new(v.len(), |i: int| ((v[i].0.0@, v[i].0.1@), v[i].1@))
}

spec fn gray_view(v: Seq<(String, String)>) -> Seq<(Seq<char>, Seq<char>)> {
    Seq::new(v.len(), |i: int| (v[i].0@, v[i].1@))
}

spec fn owner_text(o: Option<&str>) -> Option<Seq<char>> {
    match o {
        Some(s) => Some(s@),
        None => None,
    }
}

impl<'a> Resolver<'a> {
    spec fn cx(&self) -> DeclsV {
        DeclsV {
            meta: metas_view(self.meta@),
            nominals: nominals_view(self.nominal_by_symbol@),
            origins: all_origins_view(self.import_origins@),
        }
    }

    spec fn st(&self) -> ProgressV {
        ProgressV {
            memo: memo_view(self.resolved@),
            next: self.next_unknown as nat,
            errors: errors_view(self.errors@),
        }
    }

    spec fn grays(&self) -> Set<(Seq<char>, Seq<char>)> {
        gray_view(self.gray@).to_set()
    }

    /// Whether `other` reads the same declarations and is resolving the same fields.
    spec fn same_scope(&self, other: &Resolver<'a>) -> bool {
        self.meta == other.meta && self.nominal_by_symbol == other.nominal_by_symbol
            && self.import_origins == other.import_origins && self.gray@ == other.gray@
    }

    fn fresh(&mut self) -> (r: Type)
        requires
            old(self).st().next + 1 <= u32::MAX,
        ensures
            final(self).same_scope(old(self)),
            (r@, final(self).st()) == old(self).st().fresh(),
    {
        let v = self.next_unknown;
        self.next_unknown = v + 1;
        Type::Unknown(v)
    }

    fn fail(&mut self, message: String, span: Span)
        ensures
            final(self).same_scope(old(self)),
            final(self).st() == old(self).st().failed(message@, span),
    {
        report(&mut self.errors, message, span);
    }

    fn meta_of(&self, sym: &str) -> (r: Option<&'a TypeMeta>)
        ensures
            (match r {
                Some(m) => Some(m@),
                None => None,
            }) == lookup(self.cx().meta, sym@),
    {
        let meta = self.meta;
        let i = find_key(meta, sym);
        assert(names(meta@) =~= keys_of(metas_view(meta@)));
        if i < meta.len() {
            Some(&meta[i].1)
        } else {
            None
        }
    }

    /// The unique symbol a type NAME resolves to from `module` (its own/unique,
    /// this module's qualified, or an imported definition).
    fn symbol_of(&self, module: &[String], name: &str) -> (r: Option<&'a str>)
        ensures
            owner_text(r) == resolved_key(
                keys_of(self.cx().meta),
                self.cx().origins,
                texts(module@),
                name@,
            ),
    {
        let meta = self.meta;
        assert(names(meta@) =~= keys_of(metas_view(meta@)));
        let p = resolve_position(meta, self.import_origins, module, name);
        proof {
            let key = resolved_key(
                keys_of(self.cx().meta),
                self.cx().origins,
                texts(module@),
                name@,
            );
            if key is Some {
                first_pos_facts(keys_of(self.cx().meta), key->0);
            }
        }
        match p {
            Some(i) => {
                assert(keys_of(self.cx().meta)[i as int] == meta[i as int].0@);
                Some(meta[i].0.as_str())
            },
            None => None,
        }
    }

    fn nominal_lookup(&self, module: &[String], name: &str) -> (r: Option<NominalInfo>)
        ensures
            r == self.cx().nominal(texts(module@), name@),
    {
        assert(names(self.nominal_by_symbol@) =~= keys_of(self.cx().nominals));
        match resolve_position(self.nominal_by_symbol, self.import_origins, module, name) {
            Some(i) => Some(self.nominal_by_symbol[i].1),
            None => None,
        }
    }

    /// The memoized type of a field.
    fn known(&self, sym: &str, field: &str) -> (r: Option<Type>)
        ensures
            (match r {
                Some(t) => Some(t@),
                None => None,
            }) == lookup(self.st().memo, (sym@, field@)),
    {
        let i = self.known_at(sym, field);
        if i < self.resolved.len() {
            Some(clone_type(&self.resolved[i].1))
        } else {
            None
        }
    }

    fn known_at(&self, sym: &str, field: &str) -> (r: usize)
        ensures
            r == first_pos(keys_of(self.st().memo), (sym@, field@)),
            r <= self.resolved.len(),
    {
        let ghost ks = keys_of(self.st().memo);
        for i in 0..self.resolved.len()
            invariant
                ks == keys_of(self.st().memo),
                ks.len() == self.resolved.len(),
                forall|j: int| 0 <= j < i ==> ks[j] != (sym@, field@),
        {
            let k = &self.resolved[i].0;
            assert(ks[i as int] == (k.0@, k.1@));
            if str_eq(k.0.as_str(), sym) && str_eq(k.1.as_str(), field) {
                proof {
                    first_pos_unique(ks, (sym@, field@), i as int);
                }
                return i;
            }
        }
        proof {
            first_pos_unique(ks, (sym@, field@), ks.len() as int);
        }
        self.resolved.len()
    }

    fn remember(&mut self, sym: &str, field: &str, ty: Type)
        ensures
            final(self).same_scope(old(self)),
            final(self).st() == (ProgressV {
                memo: put(old(self).st().memo, (sym@, field@), ty@),
                ..old(self).st()
            }),
    {
        let ghost before = self.st().memo;
        let i = self.known_at(sym, field);
        let entry = ((sym.to_owned(), field.to_owned()), ty);
        if i < self.resolved.len() {
            self.resolved.set(i, entry);
        } else {
            self.resolved.push(entry);
        }
        assert(memo_view(self.resolved@) =~= put(before, (sym@, field@), ty@));
    }

    fn resolving(&self, sym: &str, field: &str) -> (r: bool)
        ensures
            r == self.grays().contains((sym@, field@)),
    {
        let ghost gs = gray_view(self.gray@);
        for i in 0..self.gray.len()
            invariant
                gs == gray_view(self.gray@),
                forall|j: int| 0 <= j < i ==> gs[j] != (sym@, field@),
        {
            if str_eq(self.gray[i].0.as_str(), sym) && str_eq(self.gray[i].1.as_str(), field) {
                assert(gs[i as int] == (sym@, field@));
                return true;
            }
        }
        false
    }

    /// Resolve one record field's type, memoized. A field referenced while it is
    /// still resolving forms a cycle (occurs-check failure) and is reported.
    #[verifier::rlimit(50)]
    fn resolve_field(&mut self, sym: &str, field: &str) -> (r: Type)
        requires
            field_type(old(self).cx(), old(self).grays(), old(self).st(), sym@, field@).1.next
                <= u32::MAX,
        ensures
            final(self).same_scope(old(self)),
            (r@, final(self).st()) == field_type(
                old(self).cx(),
                old(self).grays(),
                old(self).st(),
                sym@,
                field@,
            ),
        decreases open_fields(old(self).cx(), old(self).grays()).len(), 0int, old(self).cx(), 0int,
    {
        let ghost cx = self.cx();
        let ghost gray = self.grays();
        let ghost st = self.st();
        if let Some(t) = self.known(sym, field) {
            return t;
        }
        let m = match self.meta_of(sym) {
            Some(m) => m,
            None => {
                return self.fresh();
            },
        };
        let f = match m.field(field) {
            Some(f) => f,
            None => {
                return self.fresh();
            },
        };
        let te = match &f.ty {
            Some(te) => te,
            None => {
                self.remember(sym, field, Type::Unknown(f.var));
                return Type::Unknown(f.var);
            },
        };
        if self.resolving(sym, field) {
            self.fail(
                cat5(
                    "field `",
                    field,
                    "` of `",
                    m.name.as_str(),
                    "` has a circular type (it refers to itself)",
                ),
                te.span(),
            );
            return Type::Unknown(f.var);
        }
        let ghost before = self.gray@;
        self.gray.push((sym.to_owned(), field.to_owned()));
        proof {
            assert(gray_view(self.gray@) =~= gray_view(before).push((sym@, field@)));
            assert forall|k: (Seq<char>, Seq<char>)|
                self.grays().contains(k) == gray.insert((sym@, field@)).contains(k) by {
                let g = gray_view(before);
                let h = gray_view(self.gray@);
                if gray.contains(k) {
                    let i = choose|i: int| 0 <= i < g.len() && g[i] == k;
                    assert(h[i] == k);
                }
                if k == (sym@, field@) {
                    assert(h[g.len() as int] == k);
                }
                if self.grays().contains(k) {
                    let i = choose|i: int| 0 <= i < h.len() && h[i] == k;
                    if i < g.len() {
                        assert(g[i] == k);
                    }
                }
            }
            assert(self.grays() =~= gray.insert((sym@, field@)));
            open_fields_shrink(cx, gray, sym@, field@);
        }
        let t = self.resolve_texpr(Some(sym), &m.module, te);
        self.gray.pop();
        assert(self.gray@ =~= before);
        let fresh = freshen_infer(t, &mut self.next_unknown);
        self.remember(sym, field, clone_type(&fresh));
        fresh
    }

    /// Resolve a type expression appearing in `owner`'s declaration (or, for an
    /// alias right-hand side, `owner` is `None`) in `module`, handling
    /// `Self.field`, `Base { .. }` refinements, and ordinary types.
    #[verifier::rlimit(50)]
    fn resolve_texpr(&mut self, owner: Option<&str>, module: &Vec<String>, te: &TypeExpr) -> (r:
        Type)
        requires
            declared_type(
                old(self).cx(),
                old(self).grays(),
                old(self).st(),
                owner_text(owner),
                texts(module@),
                te@,
            ).1.next <= u32::MAX,
        ensures
            final(self).same_scope(old(self)),
            (r@, final(self).st()) == declared_type(
                old(self).cx(),
                old(self).grays(),
                old(self).st(),
                owner_text(owner),
                texts(module@),
                te@,
            ),
        decreases open_fields(old(self).cx(), old(self).grays()).len(), 3int, *te, 1int,
    {
        match te {
            TypeExpr::Array(inner, n, _) => {
                let t = self.resolve_texpr(owner, module, inner);
                match n {
                    Some(n) => Type::Array(Box::new(t), *n),
                    None => Type::Slice(Box::new(t)),
                }
            },
            TypeExpr::Nullable(inner, _) => Type::Nullable(
                Box::new(self.resolve_texpr(owner, module, inner)),
            ),
            TypeExpr::Fallible(inner, _) => {
                let t = self.resolve_texpr(owner, module, inner);
                Type::result(t, Type::Unknown(INFER_VAR))
            },
            TypeExpr::Mut(inner, _) => Type::Mut(
                Box::new(self.resolve_texpr(owner, module, inner)),
            ),
            TypeExpr::Ref(inner, _) => Type::Ref(
                Box::new(self.resolve_texpr(owner, module, inner)),
            ),
            TypeExpr::Tuple(elems, _) => Type::Tuple(self.resolve_texprs(owner, module, elems)),
            TypeExpr::Fun(params, ret, _) => {
                proof {
                    let st1 = declared_types(
                        self.cx(),
                        self.grays(),
                        self.st(),
                        owner_text(owner),
                        texts(module@),
                        type_exprs_view(params@),
                    ).1;
                    declared_type_grows(
                        self.cx(),
                        self.grays(),
                        st1,
                        owner_text(owner),
                        texts(module@),
                        ret@,
                    );
                }
                let ps = self.resolve_texprs(owner, module, params);
                let t = self.resolve_texpr(owner, module, ret);
                Type::Fun(ps, Box::new(t))
            },
            TypeExpr::Anonymous(fields, _) => {
                let fs = self.resolve_named_texprs(owner, module, fields);
                structural_record(fs)
            },
            TypeExpr::SelfField(field, span) => self.self_field(owner, field.as_str(), *span),
            TypeExpr::Refine(base, entries, span) => self.resolve_refine(
                owner,
                module,
                base,
                entries,
                *span,
                Ghost(te@),
            ),
            TypeExpr::TypeSlot(span) => {
                self.fail("`type` may only be a field's whole declared type".to_owned(), *span);
                self.fresh()
            },
            _ => {
                let this: &Resolver<'a> = self;
                let nominal = |name: &str| -> (r: Option<NominalInfo>)
                    ensures
                        r == this.cx().nominal(texts(module@), name@),
                    { this.nominal_lookup(module.as_slice(), name) };
                let ghost info = this.cx().nominals_in(texts(module@));
                let t = resolve(te, nominal);
                proof {
                    assert(answers(nominal, info));
                }
                match t {
                    Ok(t) => t,
                    Err(_) => Type::Unknown(INFER_VAR),
                }
            },
        }
    }

    fn resolve_texprs(
        &mut self,
        owner: Option<&str>,
        module: &Vec<String>,
        tes: &Vec<TypeExpr>,
    ) -> (r: Vec<Type>)
        requires
            declared_types(
                old(self).cx(),
                old(self).grays(),
                old(self).st(),
                owner_text(owner),
                texts(module@),
                type_exprs_view(tes@),
            ).1.next <= u32::MAX,
        ensures
            final(self).same_scope(old(self)),
            (types_view(r@), final(self).st()) == declared_types(
                old(self).cx(),
                old(self).grays(),
                old(self).st(),
                owner_text(owner),
                texts(module@),
                type_exprs_view(tes@),
            ),
        decreases open_fields(old(self).cx(), old(self).grays()).len(), 3int, *tes, 0int,
    {
        let ghost cx = self.cx();
        let ghost gray = self.grays();
        let ghost st = self.st();
        let ghost o = owner_text(owner);
        let ghost m = texts(module@);
        let ghost all = type_exprs_view(tes@);
        let mut out: Vec<Type> = Vec::new();
        assert(types_view(out@) =~= Seq::empty());
        for i in 0..tes.len()
            invariant
                cx == self.cx(),
                gray == self.grays(),
                self.same_scope(old(self)),
                o == owner_text(owner),
                m == texts(module@),
                all == type_exprs_view(tes@),
                cx == old(self).cx(),
                gray == old(self).grays(),
                declared_types(cx, gray, st, o, m, all).1.next <= u32::MAX,
                (types_view(out@), self.st()) == declared_types(
                    cx,
                    gray,
                    st,
                    o,
                    m,
                    all.take(i as int),
                ),
        {
            proof {
                assert(all.take(i + 1).drop_last() =~= all.take(i as int));
                assert(all.take(i + 1).last() == tes[i as int]@);
                declared_types_grow(cx, gray, st, o, m, all, i + 1);
            }
            let ghost before = types_view(out@);
            let t = self.resolve_texpr(owner, module, &tes[i]);
            out.push(t);
            assert(types_view(out@) =~= before.push(t@));
        }
        assert(all.take(tes.len() as int) =~= all);
        out
    }

    fn resolve_named_texprs(
        &mut self,
        owner: Option<&str>,
        module: &Vec<String>,
        fs: &Vec<(String, TypeExpr)>,
    ) -> (r: Vec<(String, Type)>)
        requires
            declared_fields(
                old(self).cx(),
                old(self).grays(),
                old(self).st(),
                owner_text(owner),
                texts(module@),
                named_type_exprs_view(fs@),
            ).1.next <= u32::MAX,
        ensures
            final(self).same_scope(old(self)),
            (named_types_view(r@), final(self).st()) == declared_fields(
                old(self).cx(),
                old(self).grays(),
                old(self).st(),
                owner_text(owner),
                texts(module@),
                named_type_exprs_view(fs@),
            ),
        decreases open_fields(old(self).cx(), old(self).grays()).len(), 3int, *fs, 0int,
    {
        let ghost cx = self.cx();
        let ghost gray = self.grays();
        let ghost st = self.st();
        let ghost o = owner_text(owner);
        let ghost m = texts(module@);
        let ghost all = named_type_exprs_view(fs@);
        let mut out: Vec<(String, Type)> = Vec::new();
        assert(named_types_view(out@) =~= Seq::empty());
        for i in 0..fs.len()
            invariant
                cx == self.cx(),
                gray == self.grays(),
                self.same_scope(old(self)),
                o == owner_text(owner),
                m == texts(module@),
                all == named_type_exprs_view(fs@),
                cx == old(self).cx(),
                gray == old(self).grays(),
                declared_fields(cx, gray, st, o, m, all).1.next <= u32::MAX,
                (named_types_view(out@), self.st()) == declared_fields(
                    cx,
                    gray,
                    st,
                    o,
                    m,
                    all.take(i as int),
                ),
        {
            proof {
                assert(all.take(i + 1).drop_last() =~= all.take(i as int));
                assert(all.take(i + 1).last() == (fs[i as int].0@, fs[i as int].1@));
                declared_fields_grow(cx, gray, st, o, m, all, i + 1);
            }
            let ghost before = named_types_view(out@);
            let t = self.resolve_texpr(owner, module, &fs[i].1);
            out.push((fs[i].0.clone(), t));
            assert(named_types_view(out@) =~= before.push((fs[i as int].0@, t@)));
        }
        assert(all.take(fs.len() as int) =~= all);
        out
    }

    /// `Self.field` inside `owner`'s declaration: the referenced slot's variable,
    /// or the referenced field's resolved type (with cycle detection).
    fn self_field(&mut self, owner: Option<&str>, field: &str, span: Span) -> (r: Type)
        requires
            self_type(
                old(self).cx(),
                old(self).grays(),
                old(self).st(),
                owner_text(owner),
                field@,
                span,
            ).1.next <= u32::MAX,
        ensures
            final(self).same_scope(old(self)),
            (r@, final(self).st()) == self_type(
                old(self).cx(),
                old(self).grays(),
                old(self).st(),
                owner_text(owner),
                field@,
                span,
            ),
        decreases open_fields(old(self).cx(), old(self).grays()).len(), 1int, old(self).cx(), 0int,
    {
        let sym = match owner {
            Some(s) => s,
            None => {
                self.fail(
                    cat3("`Self.", field, "` is only valid inside a type declaration"),
                    span,
                );
                return self.fresh();
            },
        };
        let m = match self.meta_of(sym) {
            Some(m) => m,
            None => {
                return self.fresh();
            },
        };
        if let Some(v) = m.slot_var(field) {
            return Type::Unknown(v);
        }
        if m.field(field).is_some() {
            return self.resolve_field(sym, field);
        }
        self.fail(
            cat5("`Self.", field, "` names no field or slot of `", m.name.as_str(), "`"),
            span,
        );
        self.fresh()
    }

    /// Resolve `Base { field: T, .. }`: pin the named slots/fields of `Base` and
    /// build a fully concrete instance whose substitution covers every real
    /// field. An omitted slot is left open (`infer`).
    #[verifier::rlimit(50)]
    fn resolve_refine(
        &mut self,
        owner: Option<&str>,
        module: &Vec<String>,
        base: &TypeExpr,
        entries: &Vec<(String, TypeExpr)>,
        span: Span,
        whole: Ghost<TypeExprV>,
    ) -> (r: Type)
        requires
            whole@ == TypeExprV::Refine(Box::new(base@), named_type_exprs_view(entries@), span),
            refined_type(
                old(self).cx(),
                old(self).grays(),
                old(self).st(),
                owner_text(owner),
                texts(module@),
                whole@,
            ).1.next <= u32::MAX,
        ensures
            final(self).same_scope(old(self)),
            (r@, final(self).st()) == refined_type(
                old(self).cx(),
                old(self).grays(),
                old(self).st(),
                owner_text(owner),
                texts(module@),
                whole@,
            ),
        decreases open_fields(old(self).cx(), old(self).grays()).len(), 3int, *entries, 1int,
    {
        let bname = match base {
            TypeExpr::Named(n, _) => n,
            _ => {
                self.fail("a refinement base must be a named record type".to_owned(), span);
                return self.fresh();
            },
        };
        let bsym = match self.symbol_of(module.as_slice(), bname.as_str()) {
            Some(s) => s,
            None => {
                self.fail(cat3("unknown type `", bname.as_str(), "` in refinement"), span);
                return self.fresh();
            },
        };
        let m = match self.meta_of(bsym) {
            Some(m) => m,
            None => {
                return self.fresh();
            },
        };
        if !m.is_record {
            self.fail(
                cat3("`", bname.as_str(), "` is not a record type and cannot be refined"),
                span,
            );
            return self.fresh();
        }
        let ghost st = self.st();
        let ghost all = named_type_exprs_view(entries@);
        let ghost (pins, st1) = pins_of(
            self.cx(),
            self.grays(),
            st,
            owner_text(owner),
            texts(module@),
            bsym@,
            m@,
            all,
        );
        proof {
            let k = m@.fields.len() as int;
            instance_fields_grow(
                self.cx(),
                self.grays(),
                st1,
                bsym@,
                pins,
                slot_types(m@, pins.slots),
                m@.fields,
                k,
            );
            assert(m@.fields.take(k) =~= m@.fields);
        }
        let (slot_pins, field_pins) = self.refine_pins(owner, module, bsym, m, entries);
        let slot_map = fill_slots(m, &slot_pins);
        let subst = self.instance(bsym, m, &field_pins, &slot_map, Ghost(pins));
        Type::Record(NominalType::with_substitution(m.id, m.name.as_str(), subst))
    }

    /// The slot variables and fields that a refinement's entries pin.
    #[verifier::rlimit(50)]
    fn refine_pins(
        &mut self,
        owner: Option<&str>,
        module: &Vec<String>,
        bsym: &str,
        m: &TypeMeta,
        entries: &Vec<(String, TypeExpr)>,
    ) -> (r: (HashMap<u32, Type>, Vec<(String, Type)>))
        requires
            pins_of(
                old(self).cx(),
                old(self).grays(),
                old(self).st(),
                owner_text(owner),
                texts(module@),
                bsym@,
                m@,
                named_type_exprs_view(entries@),
            ).1.next <= u32::MAX,
        ensures
            final(self).same_scope(old(self)),
            (
                PinsV { slots: bindings(r.0@), fields: named_types_view(r.1@) },
                final(self).st(),
            ) == pins_of(
                old(self).cx(),
                old(self).grays(),
                old(self).st(),
                owner_text(owner),
                texts(module@),
                bsym@,
                m@,
                named_type_exprs_view(entries@),
            ),
        decreases open_fields(old(self).cx(), old(self).grays()).len(), 3int, *entries, 0int,
    {
        broadcast use vstd::std_specs::hash::group_hash_axioms;

        let ghost cx = self.cx();
        let ghost gray = self.grays();
        let ghost st = self.st();
        let ghost o = owner_text(owner);
        let ghost md = texts(module@);
        let ghost all = named_type_exprs_view(entries@);
        let mut slot_pins: HashMap<u32, Type> = HashMap::new();
        let mut field_pins: Vec<(String, Type)> = Vec::new();
        proof {
            assert(bindings(slot_pins@) =~= Map::empty());
            assert(named_types_view(field_pins@) =~= Seq::empty());
        }
        for i in 0..entries.len()
            invariant
                cx == self.cx(),
                gray == self.grays(),
                self.same_scope(old(self)),
                o == owner_text(owner),
                md == texts(module@),
                all == named_type_exprs_view(entries@),
                cx == old(self).cx(),
                gray == old(self).grays(),
                pins_of(cx, gray, st, o, md, bsym@, m@, all).1.next <= u32::MAX,
                (
                    PinsV { slots: bindings(slot_pins@), fields: named_types_view(field_pins@) },
                    self.st(),
                ) == pins_of(cx, gray, st, o, md, bsym@, m@, all.take(i as int)),
        {
            let name = &entries[i].0;
            let fte = &entries[i].1;
            let ghost before = PinsV {
                slots: bindings(slot_pins@),
                fields: named_types_view(field_pins@),
            };
            proof {
                assert(all.take(i + 1).drop_last() =~= all.take(i as int));
                assert(all.take(i + 1).last() == (name@, fte@));
                pins_grow(cx, gray, st, o, md, bsym@, m@, all, i + 1);
                let st2 = declared_type(cx, gray, self.st(), o, md, fte@).1;
                field_type_grows(cx, gray, st2, bsym@, name@);
            }
            let t = self.resolve_texpr(owner, module, fte);
            if let Some(v) = m.slot_var(name.as_str()) {
                slot_pins.insert(v, t);
                assert(bindings(slot_pins@) =~= before.slots.insert(v, t@));
            } else if m.field(name.as_str()).is_some() {
                // Refining a real field: a field whose declared type is already
                // concrete may only be pinned to the same type.
                let declared = self.resolve_field(bsym, name.as_str());
                if is_fully_known(&declared) && is_fully_known(&t) && !same_type(&declared, &t) {
                    let head = cat5("refining field `", name.as_str(), "` of `", m.name.as_str(), "`: its type is `");
                    let message = cat5(
                        head.as_str(),
                        declared.display().as_str(),
                        "`, not `",
                        t.display().as_str(),
                        "`",
                    );
                    self.fail(message, fte.span());
                }
                put_type(&mut field_pins, name.as_str(), t);
            } else {
                self.fail(
                    cat5(
                        "`",
                        m.name.as_str(),
                        "` has no field or slot `",
                        name.as_str(),
                        "` to refine",
                    ),
                    fte.span(),
                );
            }
        }
        assert(all.take(entries.len() as int) =~= all);
        (slot_pins, field_pins)
    }

    /// The substitution of an instance with the given pins.
    #[verifier::rlimit(50)]
    fn instance(
        &mut self,
        bsym: &str,
        m: &TypeMeta,
        field_pins: &Vec<(String, Type)>,
        slot_map: &HashMap<u32, Type>,
        pins: Ghost<PinsV>,
    ) -> (r: Substitution)
        requires
            pins@.fields == named_types_view(field_pins@),
            instance_fields(
                old(self).cx(),
                old(self).grays(),
                old(self).st(),
                bsym@,
                pins@,
                bindings(slot_map@),
                m@.fields,
            ).1.next <= u32::MAX,
        ensures
            final(self).same_scope(old(self)),
            (r@, final(self).st()) == instance_fields(
                old(self).cx(),
                old(self).grays(),
                old(self).st(),
                bsym@,
                pins@,
                bindings(slot_map@),
                m@.fields,
            ),
        decreases open_fields(old(self).cx(), old(self).grays()).len(), 2int, old(self).cx(), 0int,
    {
        let ghost cx = self.cx();
        let ghost gray = self.grays();
        let ghost st = self.st();
        let ghost slots = bindings(slot_map@);
        let ghost all = m@.fields;
        let mut subst = Substitution::empty();
        for i in 0..m.fields.len()
            invariant
                cx == self.cx(),
                gray == self.grays(),
                self.same_scope(old(self)),
                cx == old(self).cx(),
                gray == old(self).grays(),
                slots == bindings(slot_map@),
                all == m@.fields,
                pins@.fields == named_types_view(field_pins@),
                instance_fields(cx, gray, st, bsym@, pins@, slots, all).1.next <= u32::MAX,
                (subst@, self.st()) == instance_fields(
                    cx,
                    gray,
                    st,
                    bsym@,
                    pins@,
                    slots,
                    all.take(i as int),
                ),
        {
            let name = m.fields[i].name.as_str();
            proof {
                assert(all.take(i + 1).drop_last() =~= all.take(i as int));
                assert(all.take(i + 1).last() == m.fields[i as int]@);
                instance_fields_grow(cx, gray, st, bsym@, pins@, slots, all, i + 1);
            }
            let p = find_key(field_pins, name);
            assert(names(field_pins@) =~= keys_of(named_types_view(field_pins@)));
            if p < field_pins.len() {
                subst.insert(name, clone_type(&field_pins[p].1));
            } else {
                let declared = self.resolve_field(bsym, name);
                subst.insert(name, substitute_vars(&declared, slot_map));
            }
        }
        assert(all.take(m.fields.len() as int) =~= all);
        subst
    }
}

/// Set the type of `name`.
fn put_type(v: &mut Vec<(String, Type)>, name: &str, ty: Type)
    ensures
        named_types_view(final(v)@) == put(named_types_view(old(v)@), name@, ty@),
{
    let ghost before = named_types_view(v@);
    let i = find_key(v, name);
    assert(names(v@) =~= keys_of(before));
    let entry = (name.to_owned(), ty);
    if i < v.len() {
        v.set(i, entry);
    } else {
        v.push(entry);
    }
    assert(named_types_view(v@) =~= put(before, name@, ty@));
}

/// Every declared slot variable with its pin, or with `infer` when omitted (an
/// open slot the use site fills).
fn fill_slots(m: &TypeMeta, pins: &HashMap<u32, Type>) -> (r: HashMap<u32, Type>)
    ensures
        bindings(r@) == slot_types(m@, bindings(pins@)),
{
    broadcast use vstd::std_specs::hash::group_hash_axioms;

    let mut out: HashMap<u32, Type> = HashMap::new();
    for i in 0..m.slots.len()
        invariant
            forall|v: u32| #[trigger]
                out@.contains_key(v) <==> exists|j: int| 0 <= j < i && (#[trigger] m.slots[j]).1 == v,
            forall|v: u32| #[trigger]
                out@.contains_key(v) ==> out@[v]@ == (if pins@.contains_key(v) {
                    pins@[v]@
                } else {
                    TypeV::Unknown(INFER_VAR)
                }),
    {
        let v = m.slots[i].1;
        let t = match pins.get(&v) {
            Some(t) => clone_type(t),
            None => Type::Unknown(INFER_VAR),
        };
        let ghost before = out@;
        out.insert(v, t);
        proof {
            assert forall|w: u32| #[trigger]
                out@.contains_key(w) <==> exists|j: int|
                    0 <= j < i + 1 && (#[trigger] m.slots[j]).1 == w by {
                if out@.contains_key(w) {
                    if w == v {
                        assert(m.slots[i as int].1 == w);
                    } else {
                        assert(before.contains_key(w));
                        let j = choose|j: int| 0 <= j < i && (#[trigger] m.slots[j]).1 == w;
                        assert(m.slots[j].1 == w);
                    }
                }
            }
        }
    }
    proof {
        let want = slot_types(m@, bindings(pins@));
        assert forall|v: u32| bindings(out@).contains_key(v) == want.contains_key(v) by {
            if out@.contains_key(v) {
                let j = choose|j: int| 0 <= j < m.slots.len() && (#[trigger] m.slots[j]).1 == v;
                assert(m@.slots[j].1 == v);
            }
            if want.contains_key(v) {
                let j = choose|j: int| 0 <= j < m@.slots.len() && (#[trigger] m@.slots[j]).1 == v;
                assert(m.slots[j].1 == v);
            }
        }
        assert(bindings(out@) =~= want);
    }
    out
}

// ---- whole declarations ----

/// A deferred `type X = <type expr>` declaration, with its symbol and module.
pub struct AliasDecl {
    pub symbol: String,
    pub module: Vec<String>,
    pub decl: TypeDecl,
}

/// The model of [`AliasDecl`].
#[verifier::ext_equal]
pub ghost struct AliasDeclV {
    pub symbol: Seq<char>,
    pub module: Seq<Seq<char>>,
    pub decl: TypeDeclV,
}

impl View for AliasDecl {
    type V = AliasDeclV;

    open spec fn view(&self) -> AliasDeclV {
        AliasDeclV { symbol: self.symbol@, module: texts(self.module@), decl: self.decl@ }
    }
}

/// The models of alias declarations.
pub open spec fn alias_decls_view(v: Seq<AliasDecl>) -> Seq<AliasDeclV> {
    Seq::new(v.len(), |i: int| v[i]@)
}

/// Slots with their variables, numbered from `next` on.
pub open spec fn slots_numbered(slots: Seq<(Seq<char>, u32)>, next: nat) -> Seq<
    (Seq<char>, u32),
> {
    Seq::new(slots.len(), |i: int| (slots[i].0, (next + i) as u32))
}

/// Fields with their variables, numbered from `next` on.
pub open spec fn fields_numbered(fields: Seq<FieldInfoV>, next: nat) -> Seq<FieldMetaV> {
    Seq::new(
        fields.len(),
        |i: int| FieldMetaV { name: fields[i].name, ty: fields[i].ty, var: (next + i) as u32 },
    )
}

/// The metadata of a type whose variables are numbered from `next` on: the slots of
/// a record first, then its fields.
pub open spec fn meta_of_type(t: TypeInfoV, next: nat) -> MetaV {
    match t.kind {
        TypeKindV::Record { fields, .. } => MetaV {
            id: t.id,
            name: t.name,
            module: t.module,
            is_record: true,
            slots: slots_numbered(t.slots, next),
            fields: fields_numbered(fields, next + t.slots.len()),
        },
        TypeKindV::Sum { .. } => MetaV {
            id: t.id,
            name: t.name,
            module: t.module,
            is_record: false,
            slots: Seq::empty(),
            fields: Seq::empty(),
        },
    }
}

/// How many variables a type declaration takes.
pub open spec fn vars_taken(t: TypeInfoV) -> nat {
    match t.kind {
        TypeKindV::Record { fields, .. } => t.slots.len() + fields.len(),
        TypeKindV::Sum { .. } => 0,
    }
}

/// The metadata of all types, and the next free variable.
pub open spec fn metas_of(types: Seq<(Seq<char>, TypeInfoV)>, next: nat) -> (
    Seq<(Seq<char>, MetaV)>,
    nat,
)
    decreases types.len(),
{
    if types.len() == 0 {
        (Seq::empty(), next)
    } else {
        let (ms, n) = metas_of(types.drop_last(), next);
        let t = types.last();
        (ms.push((t.0, meta_of_type(t.1, n))), n + vars_taken(t.1))
    }
}

/// The types of the given fields of `sym`, resolved in order.
pub open spec fn fields_resolved(
    cx: DeclsV,
    st: ProgressV,
    sym: Seq<char>,
    fields: Seq<FieldMetaV>,
) -> (Seq<TypeV>, ProgressV)
    decreases fields.len(),
{
    if fields.len() == 0 {
        (Seq::empty(), st)
    } else {
        let (ts, st1) = fields_resolved(cx, st, sym, fields.drop_last());
        let (t, st2) = field_type(cx, Set::empty(), st1, sym, fields.last().name);
        (ts.push(t), st2)
    }
}

/// The field types of each type, resolved in order.
pub open spec fn types_resolved(
    cx: DeclsV,
    st: ProgressV,
    metas: Seq<(Seq<char>, MetaV)>,
) -> (Seq<Seq<TypeV>>, ProgressV)
    decreases metas.len(),
{
    if metas.len() == 0 {
        (Seq::empty(), st)
    } else {
        let (rs, st1) = types_resolved(cx, st, metas.drop_last());
        let (ts, st2) = fields_resolved(cx, st1, metas.last().0, metas.last().1.fields);
        (rs.push(ts), st2)
    }
}

/// The aliases, resolved in order, added to `table`.
pub open spec fn aliases_resolved(
    cx: DeclsV,
    st: ProgressV,
    table: Seq<(Seq<char>, TypeAliasV)>,
    aliases: Seq<AliasDeclV>,
) -> (Seq<(Seq<char>, TypeAliasV)>, ProgressV)
    decreases aliases.len(),
{
    if aliases.len() == 0 {
        (table, st)
    } else {
        let (rs, st1) = aliases_resolved(cx, st, table, aliases.drop_last());
        let a = aliases.last();
        match a.decl.body {
            TypeBodyV::Alias(te) => {
                let (ty, st2) = declared_type(cx, Set::empty(), st1, None, a.module, te);
                (
                    put(rs, a.symbol, TypeAliasV { module: a.module, ty, span: a.decl.span }),
                    st2,
                )
            },
            _ => (rs, st1),
        }
    }
}

/// Fields with their resolved types.
pub open spec fn fields_typed(fields: Seq<FieldInfoV>, ts: Seq<TypeV>) -> Seq<FieldInfoV> {
    Seq::new(fields.len(), |i: int| FieldInfoV { resolved_ty: Some(ts[i]), ..fields[i] })
}

/// A type with its slot variables and resolved field types.
pub open spec fn type_filled(t: TypeInfoV, m: MetaV, ts: Seq<TypeV>) -> TypeInfoV {
    match t.kind {
        TypeKindV::Record { fields, methods } => TypeInfoV {
            kind: TypeKindV::Record { fields: fields_typed(fields, ts), methods },
            slots: m.slots,
            ..t
        },
        TypeKindV::Sum { .. } => t,
    }
}

/// What resolving the type declarations of a program gives.
#[verifier::ext_equal]
pub ghost struct DeclResultV {
    pub types: Seq<(Seq<char>, TypeInfoV)>,
    pub aliases: Seq<(Seq<char>, TypeAliasV)>,
    pub next: nat,
    pub errors: Seq<LowerErrorV>,
}

/// The declarations of `p` resolved: every record's field types and slot variables,
/// and the aliases. Sum types stay as they are.
pub open spec fn decls_resolved(
    p: ProgramV,
    nominals: Seq<(Seq<char>, NominalInfo)>,
    aliases: Seq<AliasDeclV>,
    next: nat,
) -> DeclResultV {
    let (metas, next1) = metas_of(p.types, next);
    let cx = DeclsV { meta: metas, nominals, origins: p.import_origins };
    let st = ProgressV { memo: Seq::empty(), next: next1, errors: Seq::empty() };
    let (ts, st1) = types_resolved(cx, st, metas);
    let (als, st2) = aliases_resolved(cx, st1, p.type_aliases, aliases);
    DeclResultV {
        types: Seq::new(
            p.types.len(),
            |i: int| (p.types[i].0, type_filled(p.types[i].1, metas[i].1, ts[i])),
        ),
        aliases: als,
        next: st2.next,
        errors: st2.errors,
    }
}

proof fn metas_len(types: Seq<(Seq<char>, TypeInfoV)>, next: nat)
    ensures
        metas_of(types, next).0.len() == types.len(),
        metas_of(types, next).1 >= next,
    decreases types.len(),
{
    if types.len() > 0 {
        metas_len(types.drop_last(), next);
    }
}

proof fn metas_prefix(types: Seq<(Seq<char>, TypeInfoV)>, next: nat, n: int)
    requires
        0 <= n <= types.len(),
    ensures
        metas_of(types.take(n), next).1 <= metas_of(types, next).1,
    decreases types.len(),
{
    if n == types.len() {
        assert(types.take(n) =~= types);
    } else {
        assert(types.drop_last().take(n) =~= types.take(n));
        metas_prefix(types.drop_last(), next, n);
    }
}

/// Resolving one field for each declared field gives one type each, and the variable
/// counter only grows.
proof fn fields_resolved_facts(
    cx: DeclsV,
    st: ProgressV,
    sym: Seq<char>,
    fields: Seq<FieldMetaV>,
    n: int,
)
    requires
        0 <= n <= fields.len(),
    ensures
        fields_resolved(cx, st, sym, fields).0.len() == fields.len(),
        st.next <= fields_resolved(cx, st, sym, fields.take(n)).1.next,
        fields_resolved(cx, st, sym, fields.take(n)).1.next <= fields_resolved(
            cx,
            st,
            sym,
            fields,
        ).1.next,
    decreases fields.len(),
{
    if fields.len() > 0 {
        let rest = fields.drop_last();
        let st1 = fields_resolved(cx, st, sym, rest).1;
        field_type_grows(cx, Set::empty(), st1, sym, fields.last().name);
        if n == fields.len() {
            assert(fields.take(n) =~= fields);
            assert(rest.take(n - 1) =~= rest);
            fields_resolved_facts(cx, st, sym, rest, n - 1);
        } else {
            assert(rest.take(n) =~= fields.take(n));
            fields_resolved_facts(cx, st, sym, rest, n);
        }
    } else {
        assert(fields.take(n) =~= fields);
    }
}

proof fn types_resolved_facts(
    cx: DeclsV,
    st: ProgressV,
    metas: Seq<(Seq<char>, MetaV)>,
    n: int,
)
    requires
        0 <= n <= metas.len(),
    ensures
        types_resolved(cx, st, metas).0.len() == metas.len(),
        st.next <= types_resolved(cx, st, metas.take(n)).1.next,
        types_resolved(cx, st, metas.take(n)).1.next <= types_resolved(cx, st, metas).1.next,
    decreases metas.len(),
{
    if metas.len() > 0 {
        let rest = metas.drop_last();
        let st1 = types_resolved(cx, st, rest).1;
        let fs = metas.last().1.fields;
        fields_resolved_facts(cx, st1, metas.last().0, fs, fs.len() as int);
        assert(fs.take(fs.len() as int) =~= fs);
        if n == metas.len() {
            assert(metas.take(n) =~= metas);
            assert(rest.take(n - 1) =~= rest);
            types_resolved_facts(cx, st, rest, n - 1);
        } else {
            assert(rest.take(n) =~= metas.take(n));
            types_resolved_facts(cx, st, rest, n);
        }
    } else {
        assert(metas.take(n) =~= metas);
    }
}

proof fn aliases_resolved_grow(
    cx: DeclsV,
    st: ProgressV,
    table: Seq<(Seq<char>, TypeAliasV)>,
    aliases: Seq<AliasDeclV>,
    n: int,
)
    requires
        0 <= n <= aliases.len(),
    ensures
        st.next <= aliases_resolved(cx, st, table, aliases.take(n)).1.next,
        aliases_resolved(cx, st, table, aliases.take(n)).1.next <= aliases_resolved(
            cx,
            st,
            table,
            aliases,
        ).1.next,
    decreases aliases.len(),
{
    if aliases.len() > 0 {
        let rest = aliases.drop_last();
        let st1 = aliases_resolved(cx, st, table, rest).1;
        let a = aliases.last();
        if let TypeBodyV::Alias(te) = a.decl.body {
            declared_type_grows(cx, Set::empty(), st1, None, a.module, te);
        }
        if n == aliases.len() {
            assert(aliases.take(n) =~= aliases);
            assert(rest.take(n - 1) =~= rest);
            aliases_resolved_grow(cx, st, table, rest, n - 1);
        } else {
            assert(rest.take(n) =~= aliases.take(n));
            aliases_resolved_grow(cx, st, table, rest, n);
        }
    } else {
        assert(aliases.take(n) =~= aliases);
    }
}

/// Resolving declarations takes variables from the counter upwards.
pub proof fn decls_resolved_next(
    p: ProgramV,
    nominals: Seq<(Seq<char>, NominalInfo)>,
    aliases: Seq<AliasDeclV>,
    next: nat,
)
    ensures
        next <= decls_resolved(p, nominals, aliases, next).next,
        decls_resolved(p, nominals, aliases, next).types.len() == p.types.len(),
{
    let (metas, next1) = metas_of(p.types, next);
    metas_len(p.types, next);
    let cx = DeclsV { meta: metas, nominals, origins: p.import_origins };
    let st = ProgressV { memo: Seq::empty(), next: next1, errors: Seq::empty() };
    types_resolved_facts(cx, st, metas, 0);
    let st1 = types_resolved(cx, st, metas).1;
    aliases_resolved_grow(cx, st1, p.type_aliases, aliases, 0);
}

#[verifier::rlimit(50)]
fn type_meta(info: &TypeInfo, next: &mut u32) -> (r: TypeMeta)
    requires
        *old(next) + vars_taken(info@) <= u32::MAX,
    ensures
        r@ == meta_of_type(info@, *old(next) as nat),
        *final(next) == *old(next) + vars_taken(info@),
{
    let mut slots: Vec<(String, u32)> = Vec::new();
    let mut metas: Vec<FieldMeta> = Vec::new();
    let ghost start = *next;
    let is_record = match &info.kind {
        TypeKind::Record { fields, .. } => {
            assert(info@.slots.len() == info.slots.len());
            for i in 0..info.slots.len()
                invariant
                    start + info.slots.len() <= u32::MAX,
                    slots.len() == i,
                    *next == start + i,
                    forall|j: int|
                        0 <= j < i ==> (#[trigger] slots[j]).0@ == info.slots[j].0@ && slots[j].1
                            == start + j,
            {
                let v = *next;
                slots.push((info.slots[i].0.clone(), v));
                *next = v + 1;
            }
            let ghost mid = *next;
            let ghost fs = field_infos_view(fields@);
            for i in 0..fields.len()
                invariant
                    mid + fields.len() <= u32::MAX,
                    metas.len() == i,
                    *next == mid + i,
                    fs == field_infos_view(fields@),
                    forall|j: int|
                        0 <= j < i ==> (#[trigger] metas[j])@ == (FieldMetaV {
                            name: fs[j].name,
                            ty: fs[j].ty,
                            var: (mid + j) as u32,
                        }),
            {
                let v = *next;
                let f = FieldMeta {
                    name: fields[i].name.clone(),
                    ty: match &fields[i].ty {
                        Some(t) => Some(clone_type_expr(t)),
                        None => None,
                    },
                    var: v,
                };
                assert(fs[i as int] == fields[i as int]@);
                metas.push(f);
                *next = v + 1;
            }
            proof {
                assert(slots_view(slots@) =~= slots_numbered(info@.slots, start as nat));
                assert(field_metas_view(metas@) =~= fields_numbered(
                    fs,
                    start as nat + info@.slots.len(),
                ));
            }
            true
        },
        TypeKind::Sum { .. } => {
            proof {
                assert(slots_view(slots@) =~= Seq::empty());
                assert(field_metas_view(metas@) =~= Seq::empty());
            }
            false
        },
    };
    TypeMeta {
        id: info.id,
        name: info.name.clone(),
        module: clone_strings(&info.module),
        is_record,
        slots,
        fields: metas,
    }
}

fn type_metas(types: &Vec<(String, TypeInfo)>, next: &mut u32) -> (r: Vec<(String, TypeMeta)>)
    requires
        metas_of(named_type_infos_view(types@), *old(next) as nat).1 <= u32::MAX,
    ensures
        metas_view(r@) == metas_of(named_type_infos_view(types@), *old(next) as nat).0,
        *final(next) == metas_of(named_type_infos_view(types@), *old(next) as nat).1,
{
    let mut out: Vec<(String, TypeMeta)> = Vec::new();
    let ghost all = named_type_infos_view(types@);
    let ghost start = *next as nat;
    assert(metas_view(out@) =~= Seq::empty());
    for i in 0..types.len()
        invariant
            all == named_type_infos_view(types@),
            metas_of(all, start).1 <= u32::MAX,
            metas_view(out@) == metas_of(all.take(i as int), start).0,
            *next == metas_of(all.take(i as int), start).1,
    {
        proof {
            assert(all.take(i + 1).drop_last() =~= all.take(i as int));
            assert(all.take(i + 1).last() == (types[i as int].0@, types[i as int].1@));
            metas_prefix(all, start, i + 1);
        }
        let ghost before = metas_view(out@);
        let m = type_meta(&types[i].1, next);
        out.push((types[i].0.clone(), m));
        assert(metas_view(out@) =~= before.push((types[i as int].0@, m@)));
    }
    assert(all.take(types.len() as int) =~= all);
    out
}

spec fn type_lists_view(v: Seq<Vec<Type>>) -> Seq<Seq<TypeV>> {
    Seq::new(v.len(), |i: int| types_view(v[i]@))
}

impl<'a> Resolver<'a> {
    fn resolve_fields(&mut self, sym: &str, m: &TypeMeta) -> (r: Vec<Type>)
        requires
            old(self).gray@.len() == 0,
            fields_resolved(old(self).cx(), old(self).st(), sym@, m@.fields).1.next <= u32::MAX,
        ensures
            final(self).same_scope(old(self)),
            (types_view(r@), final(self).st()) == fields_resolved(
                old(self).cx(),
                old(self).st(),
                sym@,
                m@.fields,
            ),
    {
        let ghost cx = self.cx();
        let ghost st = self.st();
        let ghost all = m@.fields;
        let mut out: Vec<Type> = Vec::new();
        assert(types_view(out@) =~= Seq::empty());
        for i in 0..m.fields.len()
            invariant
                cx == self.cx(),
                self.same_scope(old(self)),
                self.gray@.len() == 0,
                all == m@.fields,
                fields_resolved(cx, st, sym@, all).1.next <= u32::MAX,
                (types_view(out@), self.st()) == fields_resolved(
                    cx,
                    st,
                    sym@,
                    all.take(i as int),
                ),
        {
            proof {
                assert(all.take(i + 1).drop_last() =~= all.take(i as int));
                assert(all.take(i + 1).last() == m.fields[i as int]@);
                fields_resolved_facts(cx, st, sym@, all, i + 1);
                assert(self.grays() =~= Set::empty());
            }
            let ghost before = types_view(out@);
            let t = self.resolve_field(sym, m.fields[i].name.as_str());
            out.push(t);
            assert(types_view(out@) =~= before.push(t@));
        }
        assert(all.take(m.fields.len() as int) =~= all);
        out
    }

    fn resolve_types(&mut self) -> (r: Vec<Vec<Type>>)
        requires
            old(self).gray@.len() == 0,
            types_resolved(old(self).cx(), old(self).st(), old(self).cx().meta).1.next <= u32::MAX,
        ensures
            final(self).same_scope(old(self)),
            (type_lists_view(r@), final(self).st()) == types_resolved(
                old(self).cx(),
                old(self).st(),
                old(self).cx().meta,
            ),
    {
        let ghost cx = self.cx();
        let ghost st = self.st();
        let ghost all = cx.meta;
        let meta = self.meta;
        let mut out: Vec<Vec<Type>> = Vec::new();
        assert(type_lists_view(out@) =~= Seq::empty());
        for i in 0..meta.len()
            invariant
                cx == self.cx(),
                self.same_scope(old(self)),
                self.gray@.len() == 0,
                all == cx.meta,
                all == metas_view(meta@),
                types_resolved(cx, st, all).1.next <= u32::MAX,
                (type_lists_view(out@), self.st()) == types_resolved(cx, st, all.take(i as int)),
        {
            proof {
                assert(all.take(i + 1).drop_last() =~= all.take(i as int));
                assert(all.take(i + 1).last() == (meta[i as int].0@, meta[i as int].1@));
                types_resolved_facts(cx, st, all, i + 1);
            }
            let ghost before = type_lists_view(out@);
            let ts = self.resolve_fields(meta[i].0.as_str(), &meta[i].1);
            out.push(ts);
            assert(type_lists_view(out@) =~= before.push(types_view(ts@)));
        }
        assert(all.take(meta.len() as int) =~= all);
        out
    }

    fn resolve_aliases(
        &mut self,
        aliases: &Vec<AliasDecl>,
        table: &mut Vec<(String, TypeAlias)>,
    )
        requires
            old(self).gray@.len() == 0,
            aliases_resolved(
                old(self).cx(),
                old(self).st(),
                named_type_aliases_view(old(table)@),
                alias_decls_view(aliases@),
            ).1.next <= u32::MAX,
        ensures
            final(self).same_scope(old(self)),
            (named_type_aliases_view(final(table)@), final(self).st()) == aliases_resolved(
                old(self).cx(),
                old(self).st(),
                named_type_aliases_view(old(table)@),
                alias_decls_view(aliases@),
            ),
    {
        let ghost cx = self.cx();
        let ghost st = self.st();
        let ghost start = named_type_aliases_view(table@);
        let ghost all = alias_decls_view(aliases@);
        for i in 0..aliases.len()
            invariant
                cx == self.cx(),
                self.same_scope(old(self)),
                self.gray@.len() == 0,
                all == alias_decls_view(aliases@),
                aliases_resolved(cx, st, start, all).1.next <= u32::MAX,
                (named_type_aliases_view(table@), self.st()) == aliases_resolved(
                    cx,
                    st,
                    start,
                    all.take(i as int),
                ),
        {
            let a = &aliases[i];
            proof {
                assert(all.take(i + 1).drop_last() =~= all.take(i as int));
                assert(all.take(i + 1).last() == a@);
                aliases_resolved_grow(cx, st, start, all, i + 1);
                assert(self.grays() =~= Set::empty());
            }
            if let TypeBody::Alias(te) = &a.decl.body {
                let ghost before = named_type_aliases_view(table@);
                let ty = self.resolve_texpr(None, &a.module, te);
                let alias = TypeAlias {
                    module: clone_strings(&a.module),
                    ty,
                    span: a.decl.span,
                };
                let p = find_key(table, a.symbol.as_str());
                assert(names(table@) =~= keys_of(before));
                let entry = (a.symbol.clone(), alias);
                if p < table.len() {
                    table.set(p, entry);
                } else {
                    table.push(entry);
                }
                assert(named_type_aliases_view(table@) =~= put(before, a.symbol@, alias@));
            }
        }
        assert(all.take(aliases.len() as int) =~= all);
    }
}

/// Set the resolved types of fields.
fn fill_fields(fields: &mut Vec<FieldInfo>, ts: &Vec<Type>)
    requires
        ts.len() == old(fields).len(),
    ensures
        field_infos_view(final(fields)@) == fields_typed(
            field_infos_view(old(fields)@),
            types_view(ts@),
        ),
{
    let ghost before = field_infos_view(fields@);
    let n = fields.len();
    for i in 0..n
        invariant
            n == fields.len() == ts.len() == before.len(),
            forall|j: int| i <= j < n ==> (#[trigger] fields[j])@ == before[j],
            forall|j: int|
                0 <= j < i ==> (#[trigger] fields[j])@ == (FieldInfoV {
                    resolved_ty: Some(ts[j]@),
                    ..before[j]
                }),
    {
        assert(fields[i as int]@ == before[i as int]);
        let t = clone_type(&ts[i]);
        fields[i].resolved_ty = Some(t);
    }
    assert(field_infos_view(fields@) =~= fields_typed(before, types_view(ts@)));
}

/// Write the slot variables and resolved field types back into a type.
fn fill_type(info: &mut TypeInfo, m: &TypeMeta, ts: &Vec<Type>)
    requires
        old(info)@.kind matches TypeKindV::Record { fields, .. } ==> fields.len() == ts.len(),
    ensures
        final(info)@ == type_filled(old(info)@, m@, types_view(ts@)),
{
    let record = !info.is_sum();
    if record {
        let mut slots: Vec<(String, u32)> = Vec::new();
        for i in 0..m.slots.len()
            invariant
                slots.len() == i,
                forall|j: int|
                    0 <= j < i ==> (#[trigger] slots[j]).0@ == m.slots[j].0@ && slots[j].1
                        == m.slots[j].1,
        {
            slots.push((m.slots[i].0.clone(), m.slots[i].1));
        }
        assert(slots_view(slots@) =~= slots_view(m.slots@));
        info.slots = slots;
        match &mut info.kind {
            TypeKind::Record { fields, .. } => fill_fields(fields, ts),
            TypeKind::Sum { .. } => {},
        }
    }
}

proof fn metas_entry(types: Seq<(Seq<char>, TypeInfoV)>, next: nat, i: int)
    requires
        0 <= i < types.len(),
    ensures
        metas_of(types, next).0.len() == types.len(),
        exists|n: nat| metas_of(types, next).0[i] == (types[i].0, #[trigger] meta_of_type(types[i].1, n)),
    decreases types.len(),
{
    metas_len(types.drop_last(), next);
    let (ms, n) = metas_of(types.drop_last(), next);
    if i == types.len() - 1 {
        assert(metas_of(types, next).0[i] == (types[i].0, meta_of_type(types[i].1, n)));
    } else {
        metas_entry(types.drop_last(), next, i);
        assert(types.drop_last()[i] == types[i]);
        assert(metas_of(types, next).0[i] == ms[i]);
    }
}

proof fn types_resolved_entry(
    cx: DeclsV,
    st: ProgressV,
    metas: Seq<(Seq<char>, MetaV)>,
    i: int,
)
    requires
        0 <= i < metas.len(),
    ensures
        types_resolved(cx, st, metas).0.len() == metas.len(),
        types_resolved(cx, st, metas).0[i].len() == metas[i].1.fields.len(),
    decreases metas.len(),
{
    types_resolved_facts(cx, st, metas, 0);
    let rest = metas.drop_last();
    types_resolved_facts(cx, st, rest, 0);
    let (rs, st1) = types_resolved(cx, st, rest);
    let fs = metas.last().1.fields;
    fields_resolved_facts(cx, st1, metas.last().0, fs, 0);
    if i < metas.len() - 1 {
        types_resolved_entry(cx, st, rest, i);
        assert(types_resolved(cx, st, metas).0[i] == rs[i]);
    }
}

/// Resolve every record type's field annotations (honoring slots, `Self.field`,
/// and refinements), fill each record's slot variables, and resolve the
/// `type Alias = ..` declarations into `type_aliases`. Sum types keep the plain
/// per-field resolution -- they carry no slots.
#[verifier::rlimit(50)]
pub fn resolve_type_decls(
    program: &mut Program,
    aliases: &Vec<AliasDecl>,
    nominal_by_symbol: &Vec<(String, NominalInfo)>,
    next_unknown: &mut u32,
    errors: &mut Vec<LowerError>,
)
    requires
        decls_resolved(
            old(program)@,
            nominals_view(nominal_by_symbol@),
            alias_decls_view(aliases@),
            *old(next_unknown) as nat,
        ).next <= u32::MAX,
    ensures
        ({
            let r = decls_resolved(
                old(program)@,
                nominals_view(nominal_by_symbol@),
                alias_decls_view(aliases@),
                *old(next_unknown) as nat,
            );
            &&& final(program)@ == (ProgramV {
                types: r.types,
                type_aliases: r.aliases,
                ..old(program)@
            })
            &&& *final(next_unknown) == r.next
            &&& errors_view(final(errors)@) == errors_view(old(errors)@) + r.errors
        }),
{
    let ghost p = program@;
    let ghost start = *next_unknown as nat;
    let ghost noms = nominals_view(nominal_by_symbol@);
    let ghost als = alias_decls_view(aliases@);
    let ghost (gm, next1) = metas_of(p.types, start);
    let ghost cx = DeclsV { meta: gm, nominals: noms, origins: p.import_origins };
    let ghost st = ProgressV { memo: Seq::empty(), next: next1, errors: Seq::empty() };
    let ghost (gts, st1) = types_resolved(cx, st, gm);
    proof {
        metas_len(p.types, start);
        types_resolved_facts(cx, st, gm, 0);
        aliases_resolved_grow(cx, st1, p.type_aliases, als, 0);
    }
    let meta = type_metas(&program.types, next_unknown);
    let mut table: Vec<(String, TypeAlias)> = Vec::new();
    std::mem::swap(&mut table, &mut program.type_aliases);
    let mut resolver = Resolver {
        meta: &meta,
        nominal_by_symbol,
        import_origins: &program.import_origins,
        next_unknown: *next_unknown,
        resolved: Vec::new(),
        gray: Vec::new(),
        errors: Vec::new(),
    };
    proof {
        assert(memo_view(resolver.resolved@) =~= Seq::empty());
        assert(errors_view(resolver.errors@) =~= Seq::empty());
        assert(resolver.cx() == cx);
        assert(resolver.st() == st);
    }
    let field_types = resolver.resolve_types();
    resolver.resolve_aliases(aliases, &mut table);
    let ghost st2 = resolver.st();
    *next_unknown = resolver.next_unknown;
    let mut found = resolver.errors;
    program.type_aliases = table;
    let ghost e0 = errors_view(errors@);
    let ghost ef = errors_view(found@);
    errors.append(&mut found);
    assert(errors_view(errors@) =~= e0 + ef);
    let n = program.types.len();
    let ghost r = decls_resolved(p, noms, als, start);
    for i in 0..n
        invariant
            n == program.types.len() == p.types.len() == meta.len() == field_types.len(),
            gm == metas_view(meta@),
            gts == type_lists_view(field_types@),
            gm == metas_of(p.types, start).0,
            gts == types_resolved(cx, st, gm).0,
            forall|j: int|
                0 <= j < n ==> (#[trigger] r.types[j]) == (
                    p.types[j].0,
                    type_filled(p.types[j].1, gm[j].1, gts[j]),
                ),
            program@.functions == p.functions,
            program@ == (ProgramV {
                types: named_type_infos_view(program.types@),
                type_aliases: r.aliases,
                ..p
            }),
            forall|j: int|
                i <= j < n ==> (#[trigger] program.types[j]).0@ == p.types[j].0
                    && program.types[j].1@ == p.types[j].1,
            forall|j: int|
                0 <= j < i ==> (#[trigger] program.types[j]).0@ == r.types[j].0
                    && program.types[j].1@ == r.types[j].1,
    {
        proof {
            metas_entry(p.types, start, i as int);
            types_resolved_entry(cx, st, gm, i as int);
            assert(program.types[i as int].1@ == p.types[i as int].1);
            assert(gts[i as int] == types_view(field_types[i as int]@));
            assert(gm[i as int].1 == meta[i as int].1@);
            assert(r.types[i as int] == (
                p.types[i as int].0,
                type_filled(p.types[i as int].1, gm[i as int].1, gts[i as int]),
            ));
        }
        fill_type(&mut program.types[i].1, &meta[i].1, &field_types[i]);
    }
    assert(program@.types =~= r.types);
}

} // verus!
