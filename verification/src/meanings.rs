//! What declarations mean: a field, a parameter and a result have the type that is written for
//! them, and interfaces fix what was left open.

use vstd::prelude::*;
use crate::annotate::{annotation, concrete_fields, field_constraints, field_names, fields_constrained, function_step, is_open, nominals_of, param_step, params_constrained, program_annotated, scope_of, signature_annotated, threaded};
use crate::hir::{CallableSignatureV, FieldInfoV, ParamInfoV, ProgramV, TypeInfoV, TypeKindV};
use crate::shapes::{annotations_denote_what_is_written, writable, writable_all, written, written_all};
use crate::span::Span;
use crate::table::{first_pos, first_pos_facts, first_pos_unique, lookup, put_lookup, put_sorted_lookup, put_sorted_sorted, sorted_keys};
use crate::typedecl::{declared_type, declared_types, field_type, instance_fields, meta_of_type, open_fields_shrink, AliasDeclV, DeclsV, FieldMetaV, MetaV, PinsV, ProgressV};
use crate::types::{freshened, freshened_all, freshened_subst, infer_count, infer_count_all, infer_count_subst, substituted, vars, vars_all, vars_subst, NominalInfo, TypeV, INFER_VAR};

verus! {

// ---- types without placeholders ----

proof fn plain_stays(t: TypeV, n: nat)
    requires
        !vars(t).contains(INFER_VAR),
    ensures
        infer_count(t) == 0,
        freshened(t, n) == t,
    decreases t,
{
    match t {
        TypeV::Unknown(v) => {
            assert(vars(t).contains(v));
        },
        TypeV::Array(e, _) => plain_stays(*e, n),
        TypeV::Slice(e) => plain_stays(*e, n),
        TypeV::Nullable(e) => plain_stays(*e, n),
        TypeV::ConstOf(e) => plain_stays(*e, n),
        TypeV::Mut(e) => plain_stays(*e, n),
        TypeV::Ref(e) => plain_stays(*e, n),
        TypeV::Fun(ps, r) => {
            plain_list_stays(ps, n);
            plain_stays(*r, n);
        },
        TypeV::Tuple(ts) => plain_list_stays(ts, n),
        TypeV::Record(m) => plain_entries_stay(m.subst, n),
        TypeV::Sum(m) => plain_entries_stay(m.subst, n),
        _ => {},
    }
}

proof fn plain_list_stays(ts: Seq<TypeV>, n: nat)
    requires
        !vars_all(ts).contains(INFER_VAR),
    ensures
        infer_count_all(ts) == 0,
        freshened_all(ts, n) == ts,
    decreases ts,
{
    if ts.len() > 0 {
        plain_list_stays(ts.drop_last(), n);
        plain_stays(ts.last(), n);
        assert(ts.drop_last().push(ts.last()) =~= ts);
    } else {
        assert(ts =~= Seq::<TypeV>::empty());
    }
}

proof fn plain_entries_stay(s: Seq<(Seq<char>, TypeV)>, n: nat)
    requires
        !vars_subst(s).contains(INFER_VAR),
    ensures
        infer_count_subst(s) == 0,
        freshened_subst(s, n) == s,
    decreases s,
{
    if s.len() > 0 {
        plain_entries_stay(s.drop_last(), n);
        plain_stays(s.last().1, n);
        assert(s.drop_last().push(s.last()) =~= s);
    } else {
        assert(s =~= Seq::<(Seq<char>, TypeV)>::empty());
    }
}

// ---- declarations ----

/// In a declaration, what is written for a type denotes that type.
pub proof fn declarations_denote_what_is_written(
    cx: DeclsV,
    gray: Set<(Seq<char>, Seq<char>)>,
    st: ProgressV,
    owner: Option<Seq<char>>,
    module: Seq<Seq<char>>,
    t: TypeV,
    span: Span,
)
    requires
        writable(t, cx.nominals_in(module)),
    ensures
        declared_type(cx, gray, st, owner, module, written(t, span)) == (t, st),
    decreases t,
{
    match t {
        TypeV::Array(e, _) => declarations_denote_what_is_written(
            cx,
            gray,
            st,
            owner,
            module,
            *e,
            span,
        ),
        TypeV::Slice(e) => declarations_denote_what_is_written(
            cx,
            gray,
            st,
            owner,
            module,
            *e,
            span,
        ),
        TypeV::Nullable(e) => declarations_denote_what_is_written(
            cx,
            gray,
            st,
            owner,
            module,
            *e,
            span,
        ),
        TypeV::Mut(e) => declarations_denote_what_is_written(
            cx,
            gray,
            st,
            owner,
            module,
            *e,
            span,
        ),
        TypeV::Ref(e) => declarations_denote_what_is_written(
            cx,
            gray,
            st,
            owner,
            module,
            *e,
            span,
        ),
        TypeV::Tuple(ts) => lists_denote(cx, gray, st, owner, module, ts, span),
        TypeV::Fun(ps, r) => {
            lists_denote(cx, gray, st, owner, module, ps, span);
            declarations_denote_what_is_written(cx, gray, st, owner, module, *r, span);
        },
        _ => annotations_denote_what_is_written(t, span, cx.nominals_in(module)),
    }
}

proof fn lists_denote(
    cx: DeclsV,
    gray: Set<(Seq<char>, Seq<char>)>,
    st: ProgressV,
    owner: Option<Seq<char>>,
    module: Seq<Seq<char>>,
    ts: Seq<TypeV>,
    span: Span,
)
    requires
        writable_all(ts, cx.nominals_in(module)),
    ensures
        declared_types(cx, gray, st, owner, module, written_all(ts, span)) == (ts, st),
    decreases ts,
{
    if ts.len() > 0 {
        lists_denote(cx, gray, st, owner, module, ts.drop_last(), span);
        declarations_denote_what_is_written(cx, gray, st, owner, module, ts.last(), span);
        let w = written_all(ts, span);
        assert(w.drop_last() =~= written_all(ts.drop_last(), span));
        assert(ts.drop_last().push(ts.last()) =~= ts);
    } else {
        assert(ts =~= Seq::<TypeV>::empty());
    }
}

/// A field of a record has the type that is written for it; where none is, it has the variable
/// that it was given. Either way it has the same type from then on.
pub proof fn fields_have_their_written_type(
    cx: DeclsV,
    gray: Set<(Seq<char>, Seq<char>)>,
    st: ProgressV,
    sym: Seq<char>,
    m: MetaV,
    f: FieldMetaV,
    t: TypeV,
    span: Span,
)
    requires
        lookup(cx.meta, sym) == Some(m),
        m.field(f.name) == Some(f),
        lookup(st.memo, (sym, f.name)) is None,
        f.ty is Some ==> f.ty == Some(written(t, span)) && writable(t, cx.nominals_in(m.module))
            && !vars(t).contains(INFER_VAR) && !gray.contains((sym, f.name)),
        f.ty is None ==> t == TypeV::Unknown(f.var),
    ensures
        ({
            let (ty, after) = field_type(cx, gray, st, sym, f.name);
            &&& ty == t
            &&& after.errors == st.errors
            &&& after.next == st.next
            &&& lookup(after.memo, (sym, f.name)) == Some(t)
        }),
{
    let key = (sym, f.name);
    put_lookup(st.memo, key, t, key);
    if f.ty is Some {
        open_fields_shrink(cx, gray, sym, f.name);
        declarations_denote_what_is_written(
            cx,
            gray.insert(key),
            st,
            Some(sym),
            m.module,
            t,
            span,
        );
        plain_stays(t, st.next);
    }
}

/// The slots and fields of a record are given variables of their own, from the next one on.
pub proof fn members_have_their_own_variables(t: TypeInfoV, next: nat)
    requires
        t.kind matches TypeKindV::Record { fields, .. } && next + t.slots.len() + fields.len()
            <= u32::MAX,
    ensures
        ({
            let m = meta_of_type(t, next);
            &&& m.is_record && m.id == t.id && m.name == t.name && m.module == t.module
            &&& m.slots.len() == t.slots.len()
            &&& t.kind matches TypeKindV::Record { fields, .. } && m.fields.len() == fields.len()
                && (forall|i: int|
                0 <= i < fields.len() ==> (#[trigger] m.fields[i]).name == fields[i].name
                    && m.fields[i].ty == fields[i].ty && m.fields[i].var >= next)
            &&& forall|i: int|
                0 <= i < t.slots.len() ==> (#[trigger] m.slots[i]).0 == t.slots[i].0 && m.slots[i].1
                    >= next
            &&& forall|i: int, j: int|
                0 <= i < j < m.slots.len() ==> (#[trigger] m.slots[i]).1 != (#[trigger] m.slots[j]).1
            &&& forall|i: int, j: int|
                0 <= i < j < m.fields.len() ==> (#[trigger] m.fields[i]).var != (
                #[trigger] m.fields[j]).var
            &&& forall|i: int, j: int|
                0 <= i < m.slots.len() && 0 <= j < m.fields.len() ==> (#[trigger] m.slots[i]).1 != (
                #[trigger] m.fields[j]).var
        }),
{
}

proof fn instance_sorted(
    cx: DeclsV,
    gray: Set<(Seq<char>, Seq<char>)>,
    st: ProgressV,
    bsym: Seq<char>,
    pins: PinsV,
    slots: Map<u32, TypeV>,
    fields: Seq<FieldMetaV>,
)
    ensures
        sorted_keys(instance_fields(cx, gray, st, bsym, pins, slots, fields).0),
    decreases fields.len(),
{
    if fields.len() > 0 {
        instance_sorted(cx, gray, st, bsym, pins, slots, fields.drop_last());
        let (s, st1) = instance_fields(cx, gray, st, bsym, pins, slots, fields.drop_last());
        let name = fields.last().name;
        match lookup(pins.fields, name) {
            Some(t) => put_sorted_sorted(s, name, t),
            None => {
                let declared = field_type(cx, gray, st1, bsym, name).0;
                put_sorted_sorted(s, name, substituted(declared, slots));
            },
        }
    }
}

/// An instance of a record has every field of the record, and a field that the instance fixes
/// with the type it is fixed to.
pub proof fn instances_have_every_field(
    cx: DeclsV,
    gray: Set<(Seq<char>, Seq<char>)>,
    st: ProgressV,
    bsym: Seq<char>,
    pins: PinsV,
    slots: Map<u32, TypeV>,
    fields: Seq<FieldMetaV>,
    i: int,
)
    requires
        0 <= i < fields.len(),
    ensures
        ({
            let s = instance_fields(cx, gray, st, bsym, pins, slots, fields).0;
            &&& lookup(s, fields[i].name) is Some
            &&& lookup(pins.fields, fields[i].name) matches Some(t) ==> lookup(s, fields[i].name)
                == Some(t)
        }),
    decreases fields.len(),
{
    let front = fields.drop_last();
    let (s, st1) = instance_fields(cx, gray, st, bsym, pins, slots, front);
    let name = fields.last().name;
    instance_sorted(cx, gray, st, bsym, pins, slots, front);
    if i < front.len() {
        instances_have_every_field(cx, gray, st, bsym, pins, slots, front, i);
        assert(front[i] == fields[i]);
    }
    match lookup(pins.fields, name) {
        Some(t) => put_sorted_lookup(s, name, t, fields[i].name),
        None => {
            let declared = field_type(cx, gray, st1, bsym, name).0;
            put_sorted_lookup(s, name, substituted(declared, slots), fields[i].name);
        },
    }
}

// ---- signatures ----

/// What is written for a parameter, a field or a result is its type, and takes no variable.
pub proof fn annotations_are_resolved(
    t: TypeV,
    span: Span,
    info: spec_fn(Seq<char>) -> Option<NominalInfo>,
    next: nat,
)
    requires
        writable(t, info),
        !vars(t).contains(INFER_VAR),
    ensures
        annotation(written(t, span), info, next) == (Some(t), next),
{
    annotations_denote_what_is_written(t, span, info);
    plain_stays(t, next);
}

proof fn threaded_at<A, B>(s: Seq<A>, f: spec_fn(A, nat) -> (B, nat), next: nat, i: int)
    requires
        0 <= i < s.len(),
    ensures
        threaded(s, f, next).0.len() == s.len(),
        threaded(s, f, next).0[i] == f(s[i], threaded(s.take(i), f, next).1).0,
    decreases s.len(),
{
    let front = s.drop_last();
    threaded_len(front, f, next);
    if i < front.len() {
        threaded_at(front, f, next, i);
        assert(front.take(i) =~= s.take(i));
    } else {
        assert(s.take(i) =~= front);
    }
}

proof fn threaded_len<A, B>(s: Seq<A>, f: spec_fn(A, nat) -> (B, nat), next: nat)
    ensures
        threaded(s, f, next).0.len() == s.len(),
    decreases s.len(),
{
    if s.len() > 0 {
        threaded_len(s.drop_last(), f, next);
    }
}

/// A signature keeps its parameters, in order, and each has the type that is written for it;
/// one for which none is written is open, or has none where none is to be given. The result
/// likewise.
pub proof fn signatures_have_their_written_types(
    s: CallableSignatureV,
    info: spec_fn(Seq<char>) -> Option<NominalInfo>,
    assign_params: bool,
    assign_ret: bool,
    next: nat,
    i: int,
    t: TypeV,
    span: Span,
)
    requires
        0 <= i < s.params.len(),
        writable(t, info),
        !vars(t).contains(INFER_VAR),
    ensures
        ({
            let r = signature_annotated(s, info, assign_params, assign_ret, next).0;
            &&& r.name == s.name && r.params.len() == s.params.len()
            &&& r.params[i].name == s.params[i].name && r.params[i].ty == s.params[i].ty
            &&& s.params[i].ty == Some(written(t, span)) ==> r.params[i].resolved_ty == Some(t)
            &&& s.params[i].ty is None ==> (if assign_params && s.params[i].name != "self"@ {
                r.params[i].resolved_ty matches Some(v) && v is Unknown
            } else {
                r.params[i].resolved_ty is None
            })
            &&& s.ret == Some(written(t, span)) ==> r.ret_ty == Some(t)
            &&& s.ret is None ==> (if assign_ret {
                r.ret_ty matches Some(v) && v is Unknown
            } else {
                r.ret_ty is None
            })
        }),
{
    let step = param_step(info, assign_params);
    threaded_at(s.params, step, next, i);
    let n = threaded(s.params.take(i), step, next).1;
    annotations_are_resolved(t, span, info, n);
    annotations_are_resolved(t, span, info, threaded(s.params, step, next).1);
}

/// Every function of a program has, for each parameter and for its result, the type that is
/// written for it in its module.
pub proof fn functions_have_their_written_types(
    p: ProgramV,
    aliases: Seq<AliasDeclV>,
    k: int,
    i: int,
    t: TypeV,
    span: Span,
)
    requires
        0 <= k < p.functions.len(),
        0 <= i < p.functions[k].1.signature.params.len(),
        writable(t, scope_of(nominals_of(p.types), p.import_origins, p.functions[k].1.module)),
        !vars(t).contains(INFER_VAR),
    ensures
        ({
            let f = p.functions[k].1;
            let q = program_annotated(p, aliases).0;
            let g = q.functions[k].1;
            &&& q.functions.len() == p.functions.len() && q.functions[k].0 == p.functions[k].0
            &&& g.decl == f.decl && g.module == f.module && g.symbol == f.symbol
            &&& g.signature.name == f.signature.name
            &&& f.signature.params[i].ty == Some(written(t, span))
                ==> g.signature.params[i].resolved_ty == Some(t)
            &&& f.signature.params[i].ty is None ==> g.signature.params[i].resolved_ty is None
            &&& f.signature.ret == Some(written(t, span)) ==> g.signature.ret_ty == Some(t)
            &&& f.signature.ret is None ==> g.signature.ret_ty is None
        }),
{
    let nominals = nominals_of(p.types);
    let d = crate::typedecl::decls_resolved(p, nominals, aliases, 0);
    let n1 = threaded(
        d.types,
        crate::annotate::type_step(nominals, p.import_origins),
        d.next,
    ).1;
    let step = function_step(nominals, p.import_origins);
    threaded_at(p.functions, step, n1, k);
    let n = threaded(p.functions.take(k), step, n1).1;
    signatures_have_their_written_types(
        p.functions[k].1.signature,
        scope_of(nominals, p.import_origins, p.functions[k].1.module),
        false,
        false,
        n,
        i,
        t,
        span,
    );
}

// ---- interfaces ----

/// Whether a field was left open.
pub open spec fn left_open(f: FieldInfoV) -> bool {
    f.resolved_ty matches Some(t) && t is Unknown
}

/// A field that was left open takes the type of the first that fixes one for its name; where
/// nothing does, it stays open.
pub proof fn open_fields_take_the_first_type(
    fs: Seq<FieldInfoV>,
    cs: Seq<(Seq<char>, TypeV)>,
    i: int,
)
    requires
        0 <= i < fs.len(),
        left_open(fs[i]),
        forall|j: int| 0 <= j < fs.len() && j != i ==> (#[trigger] fs[j]).name != fs[i].name,
        forall|k: int| 0 <= k < cs.len() ==> !((#[trigger] cs[k]).1 is Unknown),
    ensures
        fields_constrained(fs, cs).len() == fs.len(),
        fields_constrained(fs, cs)[i].name == fs[i].name,
        (forall|k: int| 0 <= k < cs.len() ==> (#[trigger] cs[k]).0 != fs[i].name)
            ==> fields_constrained(fs, cs)[i] == fs[i],
        forall|k: int|
            0 <= k < cs.len() && (#[trigger] cs[k]).0 == fs[i].name && (forall|j: int|
                0 <= j < k ==> (#[trigger] cs[j]).0 != fs[i].name) ==> fields_constrained(
                fs,
                cs,
            )[i].resolved_ty == Some(cs[k].1),
    decreases cs.len(),
{
    if cs.len() > 0 {
        let front = cs.drop_last();
        let last = cs.last();
        assert forall|k: int| 0 <= k < front.len() implies !((#[trigger] front[k]).1 is Unknown) by {
            assert(front[k] == cs[k]);
        }
        open_fields_take_the_first_type(fs, front, i);
        let done = fields_constrained(fs, front);
        assert forall|j: int| 0 <= j < fs.len() implies (#[trigger] done[j]).name == fs[j].name by {
            crate::annotate::constraints_keep_known(fs, front, j);
        }
        let ns = field_names(done);
        first_pos_facts(ns, last.0);
        let p = first_pos(ns, last.0);
        if last.0 == fs[i].name {
            assert(ns[i] == fs[i].name);
            assert forall|j: int| 0 <= j < i implies ns[j] != last.0 by {
                assert(fs[j].name != fs[i].name);
            }
            first_pos_unique(ns, last.0, i);
        } else if p < done.len() {
            assert(ns[p] == last.0);
            assert(p != i);
        }
        assert(cs[cs.len() - 1] == last);
        let all = fields_constrained(fs, cs);
        if forall|k: int| 0 <= k < cs.len() ==> (#[trigger] cs[k]).0 != fs[i].name {
            assert forall|k: int| 0 <= k < front.len() implies (#[trigger] front[k]).0
                != fs[i].name by {
                assert(front[k] == cs[k]);
            }
        }
        assert forall|k: int|
            0 <= k < cs.len() && (#[trigger] cs[k]).0 == fs[i].name && (forall|j: int|
                0 <= j < k ==> (#[trigger] cs[j]).0 != fs[i].name) implies all[i].resolved_ty
            == Some(cs[k].1) by {
            if k < front.len() {
                assert(front[k] == cs[k]);
                assert forall|j: int| 0 <= j < k implies (#[trigger] front[j]).0 != fs[i].name by {
                    assert(front[j] == cs[j]);
                }
                assert(done[i].resolved_ty == Some(cs[k].1));
                assert(!(cs[k].1 is Unknown));
            } else {
                assert forall|j: int| 0 <= j < front.len() implies (#[trigger] front[j]).0
                    != fs[i].name by {
                    assert(front[j] == cs[j]);
                }
                assert(done[i] == fs[i]);
            }
        }
    }
}

proof fn known_fields(fs: Seq<FieldInfoV>, z: (Seq<char>, TypeV))
    ensures
        concrete_fields(fs).contains(z) <==> exists|i: int|
            0 <= i < fs.len() && (#[trigger] fs[i]).name == z.0 && fs[i].resolved_ty == Some(z.1)
                && !(z.1 is Unknown),
    decreases fs.len(),
{
    let all = concrete_fields(fs);
    if fs.len() > 0 {
        let front = fs.drop_last();
        let rest = concrete_fields(front);
        known_fields(front, z);
        assert(fs[fs.len() - 1] == fs.last());
        if rest.contains(z) {
            let k = choose|k: int| 0 <= k < rest.len() && rest[k] == z;
            assert(all[k] == z);
            let i = choose|i: int|
                0 <= i < front.len() && (#[trigger] front[i]).name == z.0 && front[i].resolved_ty
                    == Some(z.1) && !(z.1 is Unknown);
            assert(fs[i] == front[i]);
        } else if all.contains(z) {
            let k = choose|k: int| 0 <= k < all.len() && all[k] == z;
            if k < rest.len() {
                assert(rest[k] == z);
            }
        }
        if exists|i: int|
            0 <= i < fs.len() && (#[trigger] fs[i]).name == z.0 && fs[i].resolved_ty == Some(z.1)
                && !(z.1 is Unknown) {
            let i = choose|i: int|
                0 <= i < fs.len() && (#[trigger] fs[i]).name == z.0 && fs[i].resolved_ty == Some(
                    z.1,
                ) && !(z.1 is Unknown);
            if i < front.len() {
                assert(front[i] == fs[i]);
            } else {
                assert(all[all.len() - 1] == z);
            }
        }
    }
}

/// Whether the record of an interface's symbol has a field of a known type.
pub open spec fn fixes_field(
    types: Seq<(Seq<char>, TypeInfoV)>,
    interface: Seq<char>,
    z: (Seq<char>, TypeV),
) -> bool {
    lookup(types, interface) matches Some(t) && (t.kind matches TypeKindV::Record { fields, .. }
        && exists|i: int|
        0 <= i < fields.len() && (#[trigger] fields[i]).name == z.0 && fields[i].resolved_ty
            == Some(z.1) && !(z.1 is Unknown))
}

/// What interfaces fix of the fields is exactly what the records among them say.
pub proof fn interfaces_fix_their_fields(
    types: Seq<(Seq<char>, TypeInfoV)>,
    interfaces: Seq<Seq<char>>,
    z: (Seq<char>, TypeV),
)
    ensures
        field_constraints(types, interfaces).contains(z) <==> exists|i: int|
            0 <= i < interfaces.len() && fixes_field(types, #[trigger] interfaces[i], z),
    decreases interfaces.len(),
{
    let all = field_constraints(types, interfaces);
    if interfaces.len() > 0 {
        let front = interfaces.drop_last();
        let rest = field_constraints(types, front);
        interfaces_fix_their_fields(types, front, z);
        assert(interfaces[interfaces.len() - 1] == interfaces.last());
        let here: Seq<(Seq<char>, TypeV)> = match lookup(types, interfaces.last()) {
            Some(t) => match t.kind {
                TypeKindV::Record { fields, .. } => concrete_fields(fields),
                TypeKindV::Sum { .. } => Seq::empty(),
            },
            None => Seq::empty(),
        };
        assert(all =~= rest + here);
        assert(here.contains(z) == fixes_field(types, interfaces.last(), z)) by {
            if let Some(t) = lookup(types, interfaces.last()) {
                if let TypeKindV::Record { fields, .. } = t.kind {
                    known_fields(fields, z);
                }
            }
        }
        if rest.contains(z) {
            let k = choose|k: int| 0 <= k < rest.len() && rest[k] == z;
            assert(all[k] == z);
            let i = choose|i: int|
                0 <= i < front.len() && fixes_field(types, #[trigger] front[i], z);
            assert(interfaces[i] == front[i]);
        }
        if here.contains(z) {
            let k = choose|k: int| 0 <= k < here.len() && here[k] == z;
            assert(all[rest.len() + k] == z);
        }
        if all.contains(z) {
            let k = choose|k: int| 0 <= k < all.len() && all[k] == z;
            if k < rest.len() {
                assert(rest[k] == z);
            } else {
                assert(here[k - rest.len()] == z);
            }
        }
        if exists|i: int| 0 <= i < interfaces.len() && fixes_field(types, #[trigger] interfaces[i], z) {
            let i = choose|i: int|
                0 <= i < interfaces.len() && fixes_field(types, #[trigger] interfaces[i], z);
            if i < front.len() {
                assert(front[i] == interfaces[i]);
            }
        }
    }
}

/// A parameter that was left open takes the type of the first that fixes one for its place;
/// one with a known type keeps it.
pub proof fn open_parameters_take_the_first_type(
    ps: Seq<ParamInfoV>,
    cs: Seq<(int, TypeV)>,
    i: int,
)
    requires
        0 <= i < ps.len(),
        forall|k: int| 0 <= k < cs.len() ==> !((#[trigger] cs[k]).1 is Unknown),
    ensures
        params_constrained(ps, cs).len() == ps.len(),
        params_constrained(ps, cs)[i].name == ps[i].name,
        !is_open(ps[i].resolved_ty) || (forall|k: int| 0 <= k < cs.len() ==> (#[trigger] cs[k]).0 != i)
            ==> params_constrained(ps, cs)[i] == ps[i],
        is_open(ps[i].resolved_ty) ==> forall|k: int|
            0 <= k < cs.len() && (#[trigger] cs[k]).0 == i && (forall|j: int|
                0 <= j < k ==> (#[trigger] cs[j]).0 != i) ==> params_constrained(
                ps,
                cs,
            )[i].resolved_ty == Some(cs[k].1),
    decreases cs.len(),
{
    if cs.len() > 0 {
        let front = cs.drop_last();
        let last = cs.last();
        assert forall|k: int| 0 <= k < front.len() implies !((#[trigger] front[k]).1 is Unknown) by {
            assert(front[k] == cs[k]);
        }
        open_parameters_take_the_first_type(ps, front, i);
        let done = params_constrained(ps, front);
        let all = params_constrained(ps, cs);
        assert(cs[cs.len() - 1] == last);
        if forall|k: int| 0 <= k < cs.len() ==> (#[trigger] cs[k]).0 != i {
            assert forall|k: int| 0 <= k < front.len() implies (#[trigger] front[k]).0 != i by {
                assert(front[k] == cs[k]);
            }
        }
        if is_open(ps[i].resolved_ty) {
            assert forall|k: int|
                0 <= k < cs.len() && (#[trigger] cs[k]).0 == i && (forall|j: int|
                    0 <= j < k ==> (#[trigger] cs[j]).0 != i) implies all[i].resolved_ty == Some(
                cs[k].1,
            ) by {
                if k < front.len() {
                    assert(front[k] == cs[k]);
                    assert forall|j: int| 0 <= j < k implies (#[trigger] front[j]).0 != i by {
                        assert(front[j] == cs[j]);
                    }
                    assert(done[i].resolved_ty == Some(cs[k].1));
                    assert(!(cs[k].1 is Unknown));
                } else {
                    assert forall|j: int| 0 <= j < front.len() implies (#[trigger] front[j]).0
                        != i by {
                        assert(front[j] == cs[j]);
                    }
                    assert(done[i] == ps[i]);
                }
            }
        }
    }
}

} // verus!
