//! What is shown and where values live: a known type shows as it is written, a signature names
//! its parameters in order, every declaration is an item, and every local has its home.

use vstd::prelude::*;
use crate::ast::{StmtV, TopLevelV};
use crate::hir::{FieldInfoV, ParamInfoV};
use crate::items::{decl_items, init_span, stmt_span, text_of, ItemKind, ItemV};
use crate::layout::{offset_of, offsets_of, CAPTURES};
use crate::objects::{capture_offset, captured_types, homes, Home};
use crate::precheck::span_of_stmt;
use crate::render::{field_lines, instance_type, rendered, rendered_all, rendered_entries, rendered_field, rendered_nominal, rendered_param, rendered_params, NamerV};
use crate::text::has_prefix;
use crate::types::{display, display_all, display_entries, display_nominal, NominalV, TypeV};

verus! {

// ---- types ----

/// Whether a type is known: it holds no variable and no record without a name.
pub open spec fn is_known(t: TypeV) -> bool
    decreases t,
{
    match t {
        TypeV::Unknown(_) => false,
        TypeV::Array(e, _) => is_known(*e),
        TypeV::Slice(e) => is_known(*e),
        TypeV::Nullable(e) => is_known(*e),
        TypeV::ConstOf(e) => is_known(*e),
        TypeV::Mut(e) => is_known(*e),
        TypeV::Ref(e) => is_known(*e),
        TypeV::Tuple(ts) => all_known(ts),
        TypeV::Fun(ps, r) => all_known(ps) && is_known(*r),
        TypeV::Record(n) => nominal_known(n),
        TypeV::Sum(n) => nominal_known(n),
        _ => true,
    }
}

/// Whether all of some types are known.
pub open spec fn all_known(ts: Seq<TypeV>) -> bool
    decreases ts,
{
    ts.len() == 0 || (all_known(ts.drop_last()) && is_known(ts.last()))
}

/// Whether all that a substitution gives is known.
pub open spec fn entries_known(s: Seq<(Seq<char>, TypeV)>) -> bool
    decreases s,
{
    s.len() == 0 || (entries_known(s.drop_last()) && is_known(s.last().1))
}

/// Whether a named type has a name and is known.
pub open spec fn nominal_known(n: NominalV) -> bool
    decreases n,
{
    n.name != "<structural>"@ && entries_known(n.subst)
}

proof fn entry_known(s: Seq<(Seq<char>, TypeV)>, i: int)
    requires
        entries_known(s),
        0 <= i < s.len(),
    ensures
        is_known(s[i].1),
    decreases s.len(),
{
    if i < s.len() - 1 {
        assert(s.drop_last()[i] == s[i]);
        entry_known(s.drop_last(), i);
    }
}

/// A known type is rendered as it is displayed, and takes no name for a variable.
pub proof fn known_types_render_as_displayed(t: TypeV, st: NamerV)
    requires
        is_known(t),
    ensures
        rendered(t, st) == (display(t), st),
    decreases t,
{
    match t {
        TypeV::Array(e, _) => known_types_render_as_displayed(*e, st),
        TypeV::Slice(e) => known_types_render_as_displayed(*e, st),
        TypeV::Nullable(e) => known_types_render_as_displayed(*e, st),
        TypeV::ConstOf(e) => known_types_render_as_displayed(*e, st),
        TypeV::Mut(e) => known_types_render_as_displayed(*e, st),
        TypeV::Ref(e) => known_types_render_as_displayed(*e, st),
        TypeV::Tuple(ts) => known_lists_render(ts, st),
        TypeV::Fun(ps, r) => {
            known_lists_render(ps, st);
            known_types_render_as_displayed(*r, st);
        },
        TypeV::Record(n) => known_nominals_render(n, st),
        TypeV::Sum(n) => known_nominals_render(n, st),
        _ => {},
    }
}

proof fn known_lists_render(ts: Seq<TypeV>, st: NamerV)
    requires
        all_known(ts),
    ensures
        rendered_all(ts, st) == (display_all(ts), st),
    decreases ts,
{
    if ts.len() > 0 {
        known_lists_render(ts.drop_last(), st);
        known_types_render_as_displayed(ts.last(), st);
        assert(display_all(ts.drop_last()).push(display(ts.last())) =~= display_all(ts));
    } else {
        assert(display_all(ts) =~= Seq::<Seq<char>>::empty());
    }
}

proof fn known_entries_render(s: Seq<(Seq<char>, TypeV)>, st: NamerV)
    requires
        entries_known(s),
    ensures
        rendered_entries(s, st) == (display_entries(s, "="@), st),
    decreases s,
{
    if s.len() > 0 {
        known_entries_render(s.drop_last(), st);
        known_types_render_as_displayed(s.last().1, st);
        assert(display_entries(s.drop_last(), "="@).push(s.last().0 + "="@ + display(s.last().1))
            =~= display_entries(s, "="@));
    } else {
        assert(display_entries(s, "="@) =~= Seq::<Seq<char>>::empty());
    }
}

proof fn known_nominals_render(n: NominalV, st: NamerV)
    requires
        nominal_known(n),
    ensures
        rendered_nominal(n, st) == (display_nominal(n), st),
    decreases n,
{
    let ok = crate::table::first_pos(crate::table::keys_of(n.subst), "Ok.value"@);
    let err = crate::table::first_pos(crate::table::keys_of(n.subst), "Err.error"@);
    if n.name == "Result"@ && 0 <= ok < n.subst.len() && 0 <= err < n.subst.len() {
        entry_known(n.subst, ok);
        entry_known(n.subst, err);
        assert(decreases_to!(n => n.subst));
        assert(decreases_to!(n.subst => n.subst[ok]));
        assert(decreases_to!(n.subst => n.subst[err]));
        known_types_render_as_displayed(n.subst[ok].1, st);
        known_types_render_as_displayed(n.subst[err].1, st);
    } else if n.subst.len() > 0 {
        assert(decreases_to!(n => n.subst));
        known_entries_render(n.subst, st);
    }
}

// ---- signatures ----

/// A signature shows every parameter, in order, each under its name.
pub proof fn signatures_name_their_parameters(
    ps: Seq<ParamInfoV>,
    n: int,
    inferred: Seq<Option<TypeV>>,
    mutated: Seq<Option<bool>>,
    st: NamerV,
    i: int,
)
    requires
        0 <= i < n <= ps.len(),
    ensures
        rendered_params(ps, n, inferred, mutated, st).0.len() == n,
        has_prefix(rendered_params(ps, n, inferred, mutated, st).0[i], ps[i].name),
    decreases n,
{
    params_counted(ps, n - 1, inferred, mutated, st);
    let r = rendered_params(ps, n - 1, inferred, mutated, st);
    if i < n - 1 {
        signatures_name_their_parameters(ps, n - 1, inferred, mutated, st, i);
        assert(rendered_params(ps, n, inferred, mutated, st).0[i] == r.0[i]);
    } else {
        let p = ps[n - 1];
        let q = rendered_param(
            p,
            crate::render::at_or_none(inferred, n - 1),
            crate::render::at_or_none(mutated, n - 1),
            r.1,
        ).0;
        reveal_strlit("self");
        reveal_strlit("self: ref(mut(Self))");
        reveal_strlit("self: ref(Self)");
        if p.name == "self"@ && p.resolved_ty is None {
            assert("self: ref(mut(Self))"@.take(4) =~= "self"@);
            assert("self: ref(Self)"@.take(4) =~= "self"@);
            assert("self"@.take(4) =~= "self"@);
        } else {
            assert(q.take(p.name.len() as int) =~= p.name);
        }
    }
}

proof fn params_counted(
    ps: Seq<ParamInfoV>,
    n: int,
    inferred: Seq<Option<TypeV>>,
    mutated: Seq<Option<bool>>,
    st: NamerV,
)
    requires
        0 <= n <= ps.len(),
    ensures
        rendered_params(ps, n, inferred, mutated, st).0.len() == n,
    decreases n,
{
    if n > 0 {
        params_counted(ps, n - 1, inferred, mutated, st);
    }
}

/// Whether a field is shown: every field of a declaration, and the public ones of an instance.
pub open spec fn is_shown(f: FieldInfoV, instance: Option<Seq<(Seq<char>, TypeV)>>) -> bool {
    instance is None || !crate::offered::hidden(f.name)
}

/// The line of a field, with the type that an instance fixes for it or else the declared one.
pub open spec fn line_of(
    f: FieldInfoV,
    instance: Option<Seq<(Seq<char>, TypeV)>>,
    s: NamerV,
) -> Seq<char> {
    "    "@ + rendered_field(
        f.name,
        match instance {
            Some(m) => instance_type(f, m),
            None => f.resolved_ty,
        },
        s,
    ).0 + "\n"@
}

/// A record shows a line for each field that is shown; a field that is not shown adds nothing.
pub proof fn records_show_their_fields(
    fs: Seq<FieldInfoV>,
    instance: Option<Seq<(Seq<char>, TypeV)>>,
    st: NamerV,
    i: int,
)
    requires
        0 <= i < fs.len(),
    ensures
        is_shown(fs[i], instance) ==> exists|a: Seq<char>, s: NamerV, b: Seq<char>|
            field_lines(fs, instance, st).0 == #[trigger] (a + line_of(fs[i], instance, s) + b),
        !is_shown(fs.last(), instance) ==> field_lines(fs, instance, st) == field_lines(
            fs.drop_last(),
            instance,
            st,
        ),
    decreases fs.len(),
{
    crate::offered::hidden_is_not_public(fs.last().name);
    let front = fs.drop_last();
    let r = field_lines(front, instance, st);
    let all = field_lines(fs, instance, st).0;
    let f = fs.last();
    let ty = match instance {
        Some(m) => instance_type(f, m),
        None => f.resolved_ty,
    };
    let q = rendered_field(f.name, ty, r.1).0;
    if i < front.len() {
        records_show_their_fields(front, instance, st, i);
        assert(front[i] == fs[i]);
        if is_shown(fs[i], instance) {
            let (a, s, b) = choose|a: Seq<char>, s: NamerV, b: Seq<char>|
                r.0 == #[trigger] (a + line_of(fs[i], instance, s) + b);
            let line = line_of(fs[i], instance, s);
            if is_shown(f, instance) {
                let more = b + ("    "@ + q + "\n"@);
                assert(all =~= a + line + more);
            } else {
                assert(all == a + line + b);
            }
        }
    } else if is_shown(f, instance) {
        assert(all =~= r.0 + line_of(f, instance, r.1) + Seq::<char>::empty());
    }
}

// ---- items of a document ----

/// Both views of a statement agree on where it stands.
pub proof fn statements_have_one_span(s: StmtV)
    ensures
        stmt_span(s) == span_of_stmt(s),
{
}

/// The item that a declaration is.
pub open spec fn item_of(x: TopLevelV, cs: Seq<char>, base: int) -> Option<ItemV> {
    match x {
        TopLevelV::Fun(f) => Some(
            ItemV {
                kind: ItemKind::Fun,
                name: f.name,
                source: text_of(cs, base, f.span),
                span: f.span,
                diags: Seq::empty(),
            },
        ),
        TopLevelV::Type(t) => Some(
            ItemV {
                kind: ItemKind::Type,
                name: t.name,
                source: text_of(cs, base, t.span),
                span: t.span,
                diags: Seq::empty(),
            },
        ),
        TopLevelV::Stmt(_) => None,
    }
}

/// The items of a document are, but for its statements, exactly its functions and types, each with its text.
pub proof fn declarations_are_items(ss: Seq<TopLevelV>, cs: Seq<char>, base: int, z: ItemV)
    ensures
        decl_items(ss, cs, base).contains(z) <==> exists|i: int|
            0 <= i < ss.len() && #[trigger] item_of(ss[i], cs, base) == Some(z),
    decreases ss.len(),
{
    let all = decl_items(ss, cs, base);
    if ss.len() > 0 {
        let front = ss.drop_last();
        let rest = decl_items(front, cs, base);
        declarations_are_items(front, cs, base, z);
        assert(ss[ss.len() - 1] == ss.last());
        if rest.contains(z) {
            let k = choose|k: int| 0 <= k < rest.len() && rest[k] == z;
            assert(all[k] == z);
            let i = choose|i: int| 0 <= i < front.len() && #[trigger] item_of(front[i], cs, base) == Some(z);
            assert(item_of(ss[i], cs, base) == Some(z));
        } else if all.contains(z) {
            let k = choose|k: int| 0 <= k < all.len() && all[k] == z;
            if k < rest.len() {
                assert(rest[k] == z);
            }
            assert(item_of(ss[ss.len() - 1], cs, base) == Some(z));
        }
        if exists|i: int| 0 <= i < ss.len() && #[trigger] item_of(ss[i], cs, base) == Some(z) {
            let i = choose|i: int| 0 <= i < ss.len() && #[trigger] item_of(ss[i], cs, base) == Some(z);
            if i < front.len() {
                assert(item_of(front[i], cs, base) == Some(z));
            } else {
                assert(all[all.len() - 1] == z);
            }
        }
    }
}

/// The statements of a document are one item, from the beginning of the first to the end of the
/// last; there is none where there is no statement.
pub proof fn statements_are_one_item(tops: Seq<TopLevelV>)
    ensures
        match init_span(tops) {
            Some(sp) => exists|i: int, j: int|
                #![trigger tops[i], tops[j]]
                0 <= i <= j < tops.len() && (tops[i] matches TopLevelV::Stmt(s) && stmt_span(s).lo
                    == sp.lo) && (tops[j] matches TopLevelV::Stmt(s) && stmt_span(s).hi == sp.hi)
                    && (forall|k: int| 0 <= k < i || j < k < tops.len() ==> !(#[trigger] tops[k] is Stmt)),
            None => forall|k: int| 0 <= k < tops.len() ==> !(#[trigger] tops[k] is Stmt),
        },
    decreases tops.len(),
{
    if tops.len() > 0 {
        let front = tops.drop_last();
        let n = front.len() as int;
        statements_are_one_item(front);
        assert(tops[n] == tops.last());
        assert forall|k: int| 0 <= k < n implies tops[k] == #[trigger] front[k] by {}
        match init_span(front) {
            Some(sp) => {
                let (i, j) = choose|i: int, j: int|
                    #![trigger front[i], front[j]]
                    0 <= i <= j < front.len() && (front[i] matches TopLevelV::Stmt(s) && stmt_span(
                        s,
                    ).lo == sp.lo) && (front[j] matches TopLevelV::Stmt(s) && stmt_span(s).hi
                        == sp.hi) && (forall|k: int|
                        0 <= k < i || j < k < front.len() ==> !(#[trigger] front[k] is Stmt));
                assert(tops[i] == front[i] && tops[j] == front[j]);
                let last: int = if tops[n] is Stmt {
                    n
                } else {
                    j
                };
                assert forall|k: int| 0 <= k < i || last < k < tops.len() implies !(
                #[trigger] tops[k] is Stmt) by {
                    if k < n {
                        assert(front[k] == tops[k]);
                    }
                }
                assert(tops[last] is Stmt);
                assert(tops[i] is Stmt);
            },
            None => {
                assert forall|k: int| 0 <= k < n implies !(#[trigger] tops[k] is Stmt) by {
                    assert(front[k] == tops[k]);
                }
            },
        }
    }
}

// ---- homes of locals ----

proof fn captured_at(captures: Seq<usize>, offsets: Seq<nat>, i: int)
    requires
        captures.len() == offsets.len(),
        0 <= i < captures.len(),
        forall|j: int| i < j < captures.len() ==> #[trigger] captures[j] != captures[i],
    ensures
        capture_offset(captures, offsets, captures[i] as int) == Some(offsets[i]),
    decreases captures.len(),
{
    if i < captures.len() - 1 {
        assert(captures[captures.len() - 1] != captures[i]);
        let cs = captures.drop_last();
        assert forall|j: int| i < j < cs.len() implies #[trigger] cs[j] != cs[i] by {
            assert(captures[j] != captures[i]);
        }
        captured_at(cs, offsets.drop_last(), i);
    }
}

proof fn not_captured(captures: Seq<usize>, offsets: Seq<nat>, local: int)
    requires
        forall|j: int| 0 <= j < captures.len() ==> #[trigger] captures[j] != local,
    ensures
        capture_offset(captures, offsets, local) is None,
    decreases captures.len(),
{
    if captures.len() > 0 && offsets.len() == captures.len() {
        assert(captures[captures.len() - 1] != local);
        let cs = captures.drop_last();
        assert forall|j: int| 0 <= j < cs.len() implies #[trigger] cs[j] != local by {
            assert(captures[j] != local);
        }
        not_captured(cs, offsets.drop_last(), local);
    }
}

/// What a closure captures lives in its environment, at the offset of the capture; every other
/// local that has a value lives on the stack, where all but scalars start as null.
pub proof fn locals_have_their_homes(
    ts: Seq<TypeV>,
    captures: Seq<usize>,
    is_closure: bool,
    l: int,
)
    requires
        0 <= l < ts.len(),
        forall|i: int, j: int|
            0 <= i < j < captures.len() ==> #[trigger] captures[i] != #[trigger] captures[j],
    ensures
        homes(ts, captures, is_closure).len() == ts.len(),
        ts[l] is Void <==> homes(ts, captures, is_closure)[l] == Home::Nowhere,
        forall|i: int|
            0 <= i < captures.len() && is_closure && #[trigger] captures[i] == l && !(
            ts[l] is Void) ==> homes(ts, captures, is_closure)[l] == Home::Capture(
                offset_of(captured_types(ts, captures), CAPTURES as nat, i) as u64,
            ),
        (!is_closure || forall|i: int| 0 <= i < captures.len() ==> #[trigger] captures[i] != l) && !(
        ts[l] is Void) ==> homes(ts, captures, is_closure)[l] == (Home::Stack {
            nulled: !(ts[l] is Bool || ts[l] is Int || ts[l] is Float),
        }),
{
    let offsets = offsets_of(captured_types(ts, captures), CAPTURES as nat);
    assert forall|i: int|
        0 <= i < captures.len() && is_closure && #[trigger] captures[i] == l && !(ts[l] is Void) implies homes(
        ts,
        captures,
        is_closure,
    )[l] == Home::Capture(offset_of(captured_types(ts, captures), CAPTURES as nat, i) as u64) by {
        captured_at(captures, offsets, i);
    }
    if forall|i: int| 0 <= i < captures.len() ==> #[trigger] captures[i] != l {
        not_captured(captures, offsets, l);
    }
}

} // verus!
