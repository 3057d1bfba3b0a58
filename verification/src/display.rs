//! How emitted code renders a value as text: the steps by which it builds the text of a
//! value of a type.

use vstd::prelude::*;
use crate::layout::{few, int_signed, nats, offsets_of, signed_kind, tuple_layout, HEADER};
use crate::plan::{helper_name, helper_symbol};
use crate::text::join;
use crate::types::{clone_type, types_view, Type, TypeV};

verus! {

/// The text of a value that cannot be rendered.
pub const OPAQUE_TEXT: &'static str = "<opaque>";

/// The text of a value that is not there.
pub const NULL_TEXT: &'static str = "null";

pub const OPENING: &'static str = "[";

pub const SEPARATOR: &'static str = ", ";

pub const CLOSING: &'static str = "]";

// ---- steps ----

/// One step of a rendering. Its text is appended to the text so far.
#[derive(Debug, PartialEq)]
pub enum TextStep {
    /// The value, which is a text.
    Own,
    /// The text of the value, a truth value widened by zeros.
    Bool,
    /// The text of the value, an integer widened by its sign or by zeros.
    Int(bool),
    /// The text of the value, a float widened to double precision.
    Float,
    /// What the format function of this symbol gives.
    Formatted(String),
    /// Constant text.
    Text(String),
    /// `null`, or the text of the value of this type in the cell. The flag tells whether
    /// that text belongs to the cell, so that a reference to it is taken.
    Inner(Type, bool),
    /// The elements of this type in order, with a separator before each but the first.
    Each(Type),
    /// The value of this type at this offset.
    At(Type, u64),
}

/// The model of [`TextStep`].
#[verifier::ext_equal]
pub ghost enum TextStepV {
    Own,
    Bool,
    Int(bool),
    Float,
    Formatted(Seq<char>),
    Text(Seq<char>),
    Inner(TypeV, bool),
    Each(TypeV),
    At(TypeV, nat),
}

impl View for TextStep {
    type V = TextStepV;

    open spec fn view(&self) -> TextStepV {
        match *self {
            TextStep::Own => TextStepV::Own,
            TextStep::Bool => TextStepV::Bool,
            TextStep::Int(s) => TextStepV::Int(s),
            TextStep::Float => TextStepV::Float,
            TextStep::Formatted(f) => TextStepV::Formatted(f@),
            TextStep::Text(s) => TextStepV::Text(s@),
            TextStep::Inner(t, f) => TextStepV::Inner(t@, f),
            TextStep::Each(t) => TextStepV::Each(t@),
            TextStep::At(t, o) => TextStepV::At(t@, o as nat),
        }
    }
}

pub open spec fn text_steps_view(v: Seq<TextStep>) -> Seq<TextStepV> {
    Seq::new(v.len(), |i: int| v[i]@)
}

// ---- what steps do ----

/// A value as a rendering finds it. The values it holds are known by number.
pub ghost struct ShownV {
    /// Its text, if it is a text.
    pub own: Seq<char>,
    /// Its text as a truth value.
    pub as_bool: Seq<char>,
    /// Its text as an integer, by signedness.
    pub as_int: spec_fn(bool) -> Seq<char>,
    /// Its text as a float.
    pub as_float: Seq<char>,
    /// Its text by the format function of a symbol.
    pub formatted: spec_fn(Seq<char>) -> Seq<char>,
    /// Whether there is no value.
    pub null: bool,
    /// The value in its cell.
    pub inner: int,
    /// The value at each offset.
    pub at: spec_fn(nat) -> int,
    /// The values in its buffer.
    pub elems: Seq<int>,
}

/// The text that going through the first `n` elements appends; `render` gives the text of
/// a value of a type.
pub open spec fn each_text(t: TypeV, v: ShownV, n: nat, render: spec_fn(TypeV, int) -> Seq<char>) -> Seq<
    char,
>
    decreases n,
{
    if n == 0 {
        Seq::empty()
    } else {
        each_text(t, v, (n - 1) as nat, render) + (if n > 1 {
            SEPARATOR@
        } else {
            Seq::empty()
        }) + render(t, v.elems[n - 1])
    }
}

/// The text that a step appends.
pub open spec fn step_text(s: TextStepV, v: ShownV, render: spec_fn(TypeV, int) -> Seq<char>) -> Seq<char> {
    match s {
        TextStepV::Own => v.own,
        TextStepV::Bool => v.as_bool,
        TextStepV::Int(signed) => (v.as_int)(signed),
        TextStepV::Float => v.as_float,
        TextStepV::Formatted(f) => (v.formatted)(f),
        TextStepV::Text(text) => text,
        TextStepV::Inner(t, _) => if v.null {
            NULL_TEXT@
        } else {
            render(t, v.inner)
        },
        TextStepV::Each(t) => each_text(t, v, v.elems.len(), render),
        TextStepV::At(t, o) => render(t, (v.at)(o)),
    }
}

/// The text that steps build.
pub open spec fn built(steps: Seq<TextStepV>, v: ShownV, render: spec_fn(TypeV, int) -> Seq<char>) -> Seq<
    char,
>
    decreases steps.len(),
{
    if steps.len() == 0 {
        Seq::empty()
    } else {
        built(steps.drop_last(), v, render) + step_text(steps.last(), v, render)
    }
}

// ---- what is wanted ----

/// Texts between brackets.
pub open spec fn listed(parts: Seq<Seq<char>>) -> Seq<char> {
    OPENING@ + join(parts, SEPARATOR@) + CLOSING@
}

/// The texts of the elements of a type.
pub open spec fn element_texts(t: TypeV, v: ShownV, render: spec_fn(TypeV, int) -> Seq<char>) -> Seq<
    Seq<char>,
> {
    Seq::new(v.elems.len(), |i: int| render(t, v.elems[i]))
}

/// The texts of the elements of a tuple.
pub open spec fn tuple_texts(ts: Seq<TypeV>, v: ShownV, render: spec_fn(TypeV, int) -> Seq<char>) -> Seq<
    Seq<char>,
> {
    Seq::new(ts.len(), |i: int| render(ts[i], (v.at)(offsets_of(ts, HEADER as nat)[i])))
}

/// The text of a value of a type; `render` gives the texts of the values it holds.
pub open spec fn shown(t: TypeV, v: ShownV, render: spec_fn(TypeV, int) -> Seq<char>) -> Seq<char> {
    match t {
        TypeV::Str => v.own,
        TypeV::Bool => v.as_bool,
        TypeV::Int(k) => (v.as_int)(signed_kind(k)),
        TypeV::Float(_) => v.as_float,
        TypeV::Nullable(inner) => if v.null {
            NULL_TEXT@
        } else {
            render(*inner, v.inner)
        },
        TypeV::Slice(e) => listed(element_texts(*e, v, render)),
        TypeV::Array(e, _) => listed(element_texts(*e, v, render)),
        TypeV::Tuple(ts) => listed(tuple_texts(ts, v, render)),
        TypeV::Record(_) => (v.formatted)(helper_symbol("tostr_"@, t)),
        TypeV::Sum(_) => (v.formatted)(helper_symbol("tostr_"@, t)),
        _ => OPAQUE_TEXT@,
    }
}

/// Whether a rendering hands out a text that something else owns and takes a reference
/// to it.
pub open spec fn takes_reference(steps: Seq<TextStepV>) -> bool {
    exists|i: int| 0 <= i < steps.len() && #[trigger] is_retained(steps[i])
}

pub open spec fn is_retained(s: TextStepV) -> bool {
    s matches TextStepV::Inner(_, f) && f
}

// ---- the steps of a type ----

fn push_step(s: TextStep, out: &mut Vec<TextStep>)
    ensures
        text_steps_view(final(out)@) == text_steps_view(old(out)@).push(s@),
{
    let ghost before = text_steps_view(out@);
    let ghost sv = s@;
    out.push(s);
    assert(text_steps_view(out@) =~= before.push(sv));
}

proof fn built_push(
    steps: Seq<TextStepV>,
    s: TextStepV,
    v: ShownV,
    render: spec_fn(TypeV, int) -> Seq<char>,
)
    ensures
        built(steps.push(s), v, render) == built(steps, v, render) + step_text(s, v, render),
{
    assert(steps.push(s).drop_last() =~= steps);
}

proof fn each_is_join(t: TypeV, v: ShownV, n: nat, render: spec_fn(TypeV, int) -> Seq<char>)
    requires
        n <= v.elems.len(),
    ensures
        each_text(t, v, n, render) == join(
            element_texts(t, v, render).take(n as int),
            SEPARATOR@,
        ),
    decreases n,
{
    let parts = element_texts(t, v, render);
    if n > 0 {
        each_is_join(t, v, (n - 1) as nat, render);
        assert(parts.take(n as int).drop_last() =~= parts.take(n - 1));
        if n == 1 {
            assert(each_text(t, v, 0, render) =~= Seq::<char>::empty());
            assert(each_text(t, v, n, render) =~= render(t, v.elems[0]));
        } else {
            assert(parts.take(n as int).last() == render(t, v.elems[n - 1]));
        }
    }
}

/// The steps of a tuple before the closing bracket, over its first `n` elements.
spec fn tuple_steps(ts: Seq<TypeV>, n: nat) -> Seq<TextStepV>
    decreases n,
{
    if n == 0 {
        seq![TextStepV::Text(OPENING@)]
    } else {
        let before = tuple_steps(ts, (n - 1) as nat);
        let spaced = if n > 1 {
            before.push(TextStepV::Text(SEPARATOR@))
        } else {
            before
        };
        spaced.push(TextStepV::At(ts[n - 1], offsets_of(ts, HEADER as nat)[n - 1]))
    }
}

proof fn tuple_builds(ts: Seq<TypeV>, n: nat, v: ShownV, render: spec_fn(TypeV, int) -> Seq<char>)
    requires
        n <= ts.len(),
    ensures
        built(tuple_steps(ts, n), v, render) == OPENING@ + join(
            tuple_texts(ts, v, render).take(n as int),
            SEPARATOR@,
        ),
        !takes_reference(tuple_steps(ts, n)),
    decreases n,
{
    let parts = tuple_texts(ts, v, render);
    let steps = tuple_steps(ts, n);
    if n == 0 {
        built_push(Seq::empty(), TextStepV::Text(OPENING@), v, render);
        assert(Seq::<TextStepV>::empty().push(TextStepV::Text(OPENING@)) =~= steps);
        assert(built(Seq::empty(), v, render) =~= Seq::<char>::empty());
        assert(parts.take(0) =~= Seq::<Seq<char>>::empty());
        assert(built(steps, v, render) =~= OPENING@ + join(parts.take(0), SEPARATOR@));
    } else {
        let m = (n - 1) as nat;
        tuple_builds(ts, m, v, render);
        let before = tuple_steps(ts, m);
        let at = TextStepV::At(ts[n - 1], offsets_of(ts, HEADER as nat)[n - 1]);
        let spaced = if n > 1 {
            before.push(TextStepV::Text(SEPARATOR@))
        } else {
            before
        };
        built_push(before, TextStepV::Text(SEPARATOR@), v, render);
        built_push(spaced, at, v, render);
        assert(parts.take(n as int).drop_last() =~= parts.take(n - 1));
        assert(parts.take(n as int).last() == step_text(at, v, render));
        if n == 1 {
            assert(parts.take(0) =~= Seq::<Seq<char>>::empty());
            assert(built(steps, v, render) =~= OPENING@ + parts[0]);
        } else {
            assert(built(steps, v, render) =~= OPENING@ + (join(parts.take(n - 1), SEPARATOR@)
                + SEPARATOR@ + parts[n - 1]));
        }
        assert forall|i: int| 0 <= i < steps.len() implies !#[trigger] is_retained(steps[i]) by {
            if i < before.len() {
                assert(steps[i] == before[i]);
            }
        }
    }
}

fn push_tuple(ts: &Vec<Type>, out: &mut Vec<TextStep>)
    requires
        few(ts.len() as nat),
        old(out)@.len() == 0,
    ensures
        text_steps_view(final(out)@) == tuple_steps(types_view(ts@), ts.len() as nat).push(
            TextStepV::Text(CLOSING@),
        ),
{
    let (offsets, _size) = tuple_layout(ts);
    let ghost tv = types_view(ts@);
    assert(nats(offsets@).len() == offsets.len());
    assert(text_steps_view(out@) =~= Seq::<TextStepV>::empty());
    push_step(TextStep::Text(OPENING.to_owned()), out);
    assert(text_steps_view(out@) =~= tuple_steps(tv, 0));
    for i in 0..ts.len()
        invariant
            tv == types_view(ts@),
            offsets.len() == ts.len(),
            nats(offsets@) == offsets_of(tv, HEADER as nat),
            text_steps_view(out@) == tuple_steps(tv, i as nat),
    {
        if i > 0 {
            push_step(TextStep::Text(SEPARATOR.to_owned()), out);
        }
        assert(nats(offsets@)[i as int] == offsets[i as int] as nat);
        push_step(TextStep::At(clone_type(&ts[i]), offsets[i]), out);
    }
    push_step(TextStep::Text(CLOSING.to_owned()), out);
}

fn push_elements(e: &Type, out: &mut Vec<TextStep>)
    requires
        old(out)@.len() == 0,
    ensures
        text_steps_view(final(out)@) == element_steps(e@),
{
    push_step(TextStep::Text(OPENING.to_owned()), out);
    push_step(TextStep::Each(clone_type(e)), out);
    push_step(TextStep::Text(CLOSING.to_owned()), out);
    assert(text_steps_view(out@) =~= element_steps(e@));
}

spec fn element_steps(t: TypeV) -> Seq<TextStepV> {
    seq![TextStepV::Text(OPENING@), TextStepV::Each(t), TextStepV::Text(CLOSING@)]
}

proof fn elements_build(t: TypeV, v: ShownV, render: spec_fn(TypeV, int) -> Seq<char>)
    ensures
        built(element_steps(t), v, render) == listed(element_texts(t, v, render)),
        !takes_reference(element_steps(t)),
{
    let a = seq![TextStepV::Text(OPENING@)];
    let b = a.push(TextStepV::Each(t));
    let parts = element_texts(t, v, render);
    one_builds(TextStepV::Text(OPENING@), v, render);
    built_push(a, TextStepV::Each(t), v, render);
    built_push(b, TextStepV::Text(CLOSING@), v, render);
    assert(element_steps(t) =~= b.push(TextStepV::Text(CLOSING@)));
    each_is_join(t, v, v.elems.len(), render);
    assert(parts.take(v.elems.len() as int) =~= parts);
}

proof fn one_builds(s: TextStepV, v: ShownV, render: spec_fn(TypeV, int) -> Seq<char>)
    ensures
        built(seq![s], v, render) == step_text(s, v, render),
{
    assert(seq![s].drop_last() =~= Seq::<TextStepV>::empty());
    assert(built(Seq::empty(), v, render) =~= Seq::<char>::empty());
    assert(built(seq![s], v, render) =~= step_text(s, v, render));
}

spec fn only_step(t: TypeV) -> TextStepV {
    match t {
        TypeV::Str => TextStepV::Own,
        TypeV::Bool => TextStepV::Bool,
        TypeV::Int(k) => TextStepV::Int(signed_kind(k)),
        TypeV::Float(_) => TextStepV::Float,
        TypeV::Nullable(inner) => TextStepV::Inner(*inner, *inner is Str),
        TypeV::Record(_) => TextStepV::Formatted(helper_symbol("tostr_"@, t)),
        TypeV::Sum(_) => TextStepV::Formatted(helper_symbol("tostr_"@, t)),
        _ => TextStepV::Text(OPAQUE_TEXT@),
    }
}

/// The types whose texts are put together from the texts of elements.
spec fn is_listed(t: TypeV) -> bool {
    t is Slice || t is Array || t is Tuple
}

fn only(ty: &Type) -> (r: TextStep)
    requires
        !is_listed(ty@),
    ensures
        r@ == only_step(ty@),
{
    match ty {
        Type::Str => TextStep::Own,
        Type::Bool => TextStep::Bool,
        Type::Int(k) => TextStep::Int(int_signed(*k)),
        Type::Float(_) => TextStep::Float,
        Type::Nullable(inner) => {
            let text = matches!(**inner, Type::Str);
            TextStep::Inner(clone_type(inner), text)
        },
        Type::Record(_) => TextStep::Formatted(helper_name("tostr_", ty)),
        Type::Sum(_) => TextStep::Formatted(helper_name("tostr_", ty)),
        _ => TextStep::Text(OPAQUE_TEXT.to_owned()),
    }
}

/// Whether a tuple type has few enough elements to be laid out.
pub open spec fn tuple_fits(t: TypeV) -> bool {
    t matches TypeV::Tuple(ts) ==> few(ts.len())
}

/// The steps that render a value of a type: they build its text. A reference to a text is
/// taken exactly where the text is that of a nullable string.
pub fn to_string(ty: &Type) -> (r: Vec<TextStep>)
    requires
        tuple_fits(ty@),
    ensures
        forall|v: ShownV, render: spec_fn(TypeV, int) -> Seq<char>|
            #[trigger] built(text_steps_view(r@), v, render) == shown(ty@, v, render),
        takes_reference(text_steps_view(r@)) == (ty@ matches TypeV::Nullable(inner)
            && *inner is Str),
{
    let mut out: Vec<TextStep> = Vec::new();
    let ghost t = ty@;
    match ty {
        Type::Slice(e) => {
            push_elements(e, &mut out);
            proof {
                assert forall|v: ShownV, render: spec_fn(TypeV, int) -> Seq<char>| #[trigger]
                    built(text_steps_view(out@), v, render) == shown(t, v, render) by {
                    elements_build(e@, v, render);
                }
            }
        },
        Type::Array(e, _) => {
            push_elements(e, &mut out);
            proof {
                assert forall|v: ShownV, render: spec_fn(TypeV, int) -> Seq<char>| #[trigger]
                    built(text_steps_view(out@), v, render) == shown(t, v, render) by {
                    elements_build(e@, v, render);
                }
            }
        },
        Type::Tuple(ts) => {
            push_tuple(ts, &mut out);
            proof {
                let tv = types_view(ts@);
                let steps = tuple_steps(tv, tv.len());
                assert forall|v: ShownV, render: spec_fn(TypeV, int) -> Seq<char>| #[trigger]
                    built(text_steps_view(out@), v, render) == shown(t, v, render) by {
                    tuple_builds(tv, tv.len(), v, render);
                    built_push(steps, TextStepV::Text(CLOSING@), v, render);
                    assert(tuple_texts(tv, v, render).take(tv.len() as int) =~= tuple_texts(
                        tv,
                        v,
                        render,
                    ));
                }
                tuple_builds(tv, tv.len(), arbitrary(), arbitrary());
                assert forall|i: int| 0 <= i < text_steps_view(out@).len() implies !(
                #[trigger] is_retained(text_steps_view(out@)[i])) by {
                    if i < steps.len() {
                        assert(!is_retained(steps[i]));
                    }
                }
            }
        },
        _ => {
            push_step(only(ty), &mut out);
            proof {
                let s = only_step(t);
                assert(text_steps_view(out@) =~= seq![s]);
                assert forall|v: ShownV, render: spec_fn(TypeV, int) -> Seq<char>| #[trigger]
                    built(text_steps_view(out@), v, render) == shown(t, v, render) by {
                    one_builds(s, v, render);
                }
                assert(is_retained(text_steps_view(out@)[0]) == is_retained(s));
            }
        },
    }
    out
}

} // verus!
