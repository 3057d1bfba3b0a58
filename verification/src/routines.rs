//! The routines that emitted code runs on objects: destructors and trace functions, as
//! the actions they take in order.

use vstd::prelude::*;
use crate::hir::{Program, ProgramV};
use crate::layout::{few, offsets_of, CAPTURES};
use crate::plan::{children_view, closure_drop_plan, drop_plan, fits, heap_offsets, is_leaf, released_children, releases_what_is_traced, trace_plan, traced_children, variants_view, HeapPlan, HeapV};
use crate::types::{clone_type, opt_type, types_view, Type, TypeV};

verus! {

// ---- actions ----

/// One action of a routine on an object. To reach a reference is to release it, in a
/// destructor, or to visit it, in a trace function.
#[derive(Debug, PartialEq)]
pub enum Action {
    /// Leave if there is no object.
    LeaveIfNull,
    /// Count one reference less, and leave if others are left.
    Decrement,
    /// Reach the reference of a type at an offset.
    Reach(Type, u64),
    /// Reach each element of a type, in order.
    ReachElements(Type),
    /// Reach the references in the payload, by tag.
    ReachByTag(Vec<(i32, Vec<(Type, u64)>)>),
    /// Free the buffer of elements.
    FreeBuffer,
    /// Free the object.
    Free,
}

/// The model of [`Action`].
#[verifier::ext_equal]
pub ghost enum ActionV {
    LeaveIfNull,
    Decrement,
    Reach(TypeV, nat),
    ReachElements(TypeV),
    ReachByTag(Seq<(i32, Seq<(TypeV, nat)>)>),
    FreeBuffer,
    Free,
}

impl View for Action {
    type V = ActionV;

    open spec fn view(&self) -> ActionV {
        match *self {
            Action::LeaveIfNull => ActionV::LeaveIfNull,
            Action::Decrement => ActionV::Decrement,
            Action::Reach(t, o) => ActionV::Reach(t@, o as nat),
            Action::ReachElements(t) => ActionV::ReachElements(t@),
            Action::ReachByTag(vs) => ActionV::ReachByTag(variants_view(vs@)),
            Action::FreeBuffer => ActionV::FreeBuffer,
            Action::Free => ActionV::Free,
        }
    }
}

pub open spec fn actions_view(v: Seq<Action>) -> Seq<ActionV> {
    Seq::new(v.len(), |i: int| v[i]@)
}

// ---- what actions do ----

/// An object as a routine finds it.
pub ghost struct ObjectV {
    pub null: bool,
    /// How many references there are to it.
    pub count: int,
    pub tag: i32,
    /// The reference at each offset.
    pub at: spec_fn(nat) -> int,
    /// The references in its buffer.
    pub elems: Seq<int>,
}

/// Something that a routine does.
#[verifier::ext_equal]
pub ghost enum Event {
    Decrement,
    Reach(TypeV, int),
    FreeBuffer,
    Free,
}

/// The references at places reached in order.
pub open spec fn reached(places: Seq<(TypeV, nat)>, o: ObjectV) -> Seq<Event> {
    Seq::new(places.len(), |i: int| Event::Reach(places[i].0, (o.at)(places[i].1)))
}

/// The elements reached in order.
pub open spec fn reached_elements(t: TypeV, o: ObjectV) -> Seq<Event> {
    Seq::new(o.elems.len(), |i: int| Event::Reach(t, o.elems[i]))
}

/// The references of the payload that has the object's tag, reached in order.
pub open spec fn reached_by_tag(vs: Seq<(i32, Seq<(TypeV, nat)>)>, o: ObjectV) -> Seq<Event>
    decreases vs.len(),
{
    if vs.len() == 0 {
        Seq::empty()
    } else if vs[0].0 == o.tag {
        reached(vs[0].1, o)
    } else {
        reached_by_tag(vs.drop_first(), o)
    }
}

/// What actions do to an object, one after the other until one leaves.
pub open spec fn run(actions: Seq<ActionV>, o: ObjectV) -> Seq<Event>
    decreases actions.len(),
{
    if actions.len() == 0 {
        Seq::empty()
    } else {
        let rest = actions.drop_first();
        match actions[0] {
            ActionV::LeaveIfNull => if o.null {
                Seq::empty()
            } else {
                run(rest, o)
            },
            ActionV::Decrement => if o.count - 1 > 0 {
                seq![Event::Decrement]
            } else {
                seq![Event::Decrement] + run(rest, o)
            },
            ActionV::Reach(t, offset) => seq![Event::Reach(t, (o.at)(offset))] + run(rest, o),
            ActionV::ReachElements(t) => reached_elements(t, o) + run(rest, o),
            ActionV::ReachByTag(vs) => reached_by_tag(vs, o) + run(rest, o),
            ActionV::FreeBuffer => seq![Event::FreeBuffer] + run(rest, o),
            ActionV::Free => seq![Event::Free] + run(rest, o),
        }
    }
}

// ---- what is wanted ----

/// What is reached of an object's references.
pub open spec fn reached_all(h: HeapV, o: ObjectV) -> Seq<Event> {
    reached(h.fixed, o) + (match h.elem {
        Some(t) => reached_elements(t, o),
        None => Seq::empty(),
    }) + reached_by_tag(h.variants, o)
}

/// What tracing an object does.
pub open spec fn tracing(h: HeapV, o: ObjectV) -> Seq<Event> {
    if o.null {
        Seq::empty()
    } else {
        reached_all(h, o)
    }
}

/// What giving up a reference to an object does: the last one releases what the object
/// holds, then frees its buffer, if it has one, and the object.
pub open spec fn destruction(h: HeapV, buffer: bool, o: ObjectV) -> Seq<Event> {
    if o.null {
        Seq::empty()
    } else if o.count - 1 > 0 {
        seq![Event::Decrement]
    } else {
        seq![Event::Decrement] + reached(h.fixed, o) + (match h.elem {
            Some(t) => reached_elements(t, o),
            None => Seq::empty(),
        }) + (if buffer {
            seq![Event::FreeBuffer]
        } else {
            Seq::empty()
        }) + reached_by_tag(h.variants, o) + seq![Event::Free]
    }
}

// ---- lists of actions ----

spec fn reach_actions(places: Seq<(TypeV, nat)>) -> Seq<ActionV> {
    Seq::new(places.len(), |i: int| ActionV::Reach(places[i].0, places[i].1))
}

proof fn run_reaches(places: Seq<(TypeV, nat)>, rest: Seq<ActionV>, o: ObjectV)
    ensures
        run(reach_actions(places) + rest, o) == reached(places, o) + run(rest, o),
    decreases places.len(),
{
    let all = reach_actions(places) + rest;
    if places.len() == 0 {
        assert(all =~= rest);
        assert(reached(places, o) + run(rest, o) =~= run(rest, o));
    } else {
        let tail = places.drop_first();
        run_reaches(tail, rest, o);
        assert(all.drop_first() =~= reach_actions(tail) + rest);
        assert(reached(places, o) =~= seq![Event::Reach(places[0].0, (o.at)(places[0].1))]
            + reached(tail, o));
        assert(reached(places, o) + run(rest, o) =~= seq![
            Event::Reach(places[0].0, (o.at)(places[0].1)),
        ] + (reached(tail, o) + run(rest, o)));
    }
}

proof fn run_step(a: ActionV, rest: Seq<ActionV>, o: ObjectV)
    ensures
        run(seq![a] + rest, o) == (match a {
            ActionV::LeaveIfNull => if o.null {
                Seq::empty()
            } else {
                run(rest, o)
            },
            ActionV::Decrement => if o.count - 1 > 0 {
                seq![Event::Decrement]
            } else {
                seq![Event::Decrement] + run(rest, o)
            },
            ActionV::Reach(t, offset) => seq![Event::Reach(t, (o.at)(offset))] + run(rest, o),
            ActionV::ReachElements(t) => reached_elements(t, o) + run(rest, o),
            ActionV::ReachByTag(vs) => reached_by_tag(vs, o) + run(rest, o),
            ActionV::FreeBuffer => seq![Event::FreeBuffer] + run(rest, o),
            ActionV::Free => seq![Event::Free] + run(rest, o),
        }),
{
    assert((seq![a] + rest).drop_first() =~= rest);
}

fn push_action(a: Action, out: &mut Vec<Action>)
    ensures
        actions_view(final(out)@) == actions_view(old(out)@).push(a@),
{
    let ghost before = actions_view(out@);
    let ghost av = a@;
    out.push(a);
    assert(actions_view(out@) =~= before.push(av));
}

fn push_reaches(places: Vec<(Type, u64)>, out: &mut Vec<Action>)
    ensures
        actions_view(final(out)@) == actions_view(old(out)@) + reach_actions(children_view(places@)),
{
    let ghost start = actions_view(out@);
    let ghost all = reach_actions(children_view(places@));
    assert(start =~= start + all.take(0));
    for i in 0..places.len()
        invariant
            all == reach_actions(children_view(places@)),
            actions_view(out@) == start + all.take(i as int),
    {
        let ghost before = actions_view(out@);
        push_action(Action::Reach(clone_type(&places[i].0), places[i].1), out);
        proof {
            assert(children_view(places@)[i as int] == (places[i as int].0@, places[i as int].1 as nat));
            assert(all.take(i + 1) =~= all.take(i as int).push(all[i as int]));
            assert(actions_view(out@) =~= start + all.take(i + 1));
        }
    }
    assert(all.take(places.len() as int) =~= all);
}

spec fn opt_elements(elem: Option<TypeV>) -> Seq<ActionV> {
    match elem {
        Some(t) => seq![ActionV::ReachElements(t)],
        None => Seq::empty(),
    }
}

spec fn opt_buffer(buffer: bool) -> Seq<ActionV> {
    if buffer {
        seq![ActionV::FreeBuffer]
    } else {
        Seq::empty()
    }
}

spec fn opt_tags(vs: Seq<(i32, Seq<(TypeV, nat)>)>) -> Seq<ActionV> {
    if vs.len() > 0 {
        seq![ActionV::ReachByTag(vs)]
    } else {
        Seq::empty()
    }
}

fn push_elements(elem: Option<Type>, out: &mut Vec<Action>)
    ensures
        actions_view(final(out)@) == actions_view(old(out)@) + opt_elements(
            opt_type(elem),
        ),
{
    let ghost start = actions_view(out@);
    let ghost want = opt_elements(opt_type(elem));
    match elem {
        Some(t) => push_action(Action::ReachElements(t), out),
        None => {},
    }
    assert(actions_view(out@) =~= start + want);
}

fn push_tags(vs: Vec<(i32, Vec<(Type, u64)>)>, out: &mut Vec<Action>)
    ensures
        actions_view(final(out)@) == actions_view(old(out)@) + opt_tags(variants_view(vs@)),
{
    let ghost start = actions_view(out@);
    let ghost want = opt_tags(variants_view(vs@));
    assert(variants_view(vs@).len() == vs.len());
    if vs.len() > 0 {
        push_action(Action::ReachByTag(vs), out);
    }
    assert(actions_view(out@) =~= start + want);
}

// ---- destructors ----

spec fn drop_actions(h: HeapV, buffer: bool) -> Seq<ActionV> {
    seq![ActionV::LeaveIfNull] + (seq![ActionV::Decrement] + (reach_actions(h.fixed) + (
    opt_elements(h.elem) + (opt_buffer(buffer) + (opt_tags(h.variants) + (seq![ActionV::Free]
        + Seq::<ActionV>::empty()))))))
}

proof fn run_drop(h: HeapV, buffer: bool, o: ObjectV)
    ensures
        run(drop_actions(h, buffer), o) == destruction(h, buffer, o),
{
    let none = Seq::<ActionV>::empty();
    let a7 = seq![ActionV::Free] + none;
    let a6 = opt_tags(h.variants) + a7;
    let a5 = opt_buffer(buffer) + a6;
    let a4 = opt_elements(h.elem) + a5;
    let a3 = reach_actions(h.fixed) + a4;
    let a2 = seq![ActionV::Decrement] + a3;
    run_step(ActionV::LeaveIfNull, a2, o);
    run_step(ActionV::Decrement, a3, o);
    run_reaches(h.fixed, a4, o);
    match h.elem {
        Some(t) => run_step(ActionV::ReachElements(t), a5, o),
        None => assert(a4 =~= a5),
    }
    if buffer {
        run_step(ActionV::FreeBuffer, a6, o);
    } else {
        assert(a5 =~= a6);
    }
    if h.variants.len() > 0 {
        run_step(ActionV::ReachByTag(h.variants), a7, o);
    } else {
        assert(a6 =~= a7);
    }
    run_step(ActionV::Free, none, o);
    assert(run(none, o) =~= Seq::<Event>::empty());
    assert(run(drop_actions(h, buffer), o) =~= destruction(h, buffer, o));
}

/// The destructor of a type: what it does to an object is its destruction.
pub fn destructor(program: &Program, ty: &Type) -> (r: Vec<Action>)
    requires
        fits(program@, ty@),
    ensures
        forall|o: ObjectV|
            #[trigger] run(actions_view(r@), o) == destruction(
                released_children(program@, ty@),
                ty@ is Slice || ty@ is Array,
                o,
            ),
{
    let plan = drop_plan(program, ty);
    let ghost h = released_children(program@, ty@);
    let ghost buffer = plan.buffer;
    let HeapPlan { fixed, elem, variants } = plan.children;
    let ghost fv = children_view(fixed@);
    let ghost ev = opt_type(elem);
    let ghost vv = variants_view(variants@);
    assert(h == (HeapV { fixed: fv, elem: ev, variants: vv }));
    let mut out: Vec<Action> = Vec::new();
    push_action(Action::LeaveIfNull, &mut out);
    push_action(Action::Decrement, &mut out);
    push_reaches(fixed, &mut out);
    push_elements(elem, &mut out);
    let ghost before = actions_view(out@);
    if plan.buffer {
        push_action(Action::FreeBuffer, &mut out);
    }
    assert(actions_view(out@) =~= before + opt_buffer(buffer));
    push_tags(variants, &mut out);
    push_action(Action::Free, &mut out);
    proof {
        assert(actions_view(out@) =~= drop_actions(h, buffer));
        assert forall|o: ObjectV| #[trigger] run(actions_view(out@), o) == destruction(
            h,
            buffer,
            o,
        ) by {
            run_drop(h, buffer, o);
        }
    }
    out
}

/// The references among a closure's captures.
pub open spec fn captured_children(ts: Seq<TypeV>) -> HeapV {
    HeapV {
        fixed: heap_offsets(ts, offsets_of(ts, CAPTURES as nat)),
        elem: None,
        variants: Seq::empty(),
    }
}

/// The destructor of a closure with captures of the types.
pub fn closure_destructor(capture_types: &Vec<Type>) -> (r: Vec<Action>)
    requires
        few(capture_types.len() as nat),
    ensures
        forall|o: ObjectV|
            #[trigger] run(actions_view(r@), o) == destruction(
                captured_children(types_view(capture_types@)),
                false,
                o,
            ),
{
    let fixed = closure_drop_plan(capture_types);
    let ghost h = captured_children(types_view(capture_types@));
    let mut out: Vec<Action> = Vec::new();
    push_action(Action::LeaveIfNull, &mut out);
    push_action(Action::Decrement, &mut out);
    push_reaches(fixed, &mut out);
    push_action(Action::Free, &mut out);
    proof {
        assert(actions_view(out@) =~= drop_actions(h, false));
        assert forall|o: ObjectV| #[trigger] run(actions_view(out@), o) == destruction(
            h,
            false,
            o,
        ) by {
            run_drop(h, false, o);
        }
    }
    out
}

// ---- trace functions ----

spec fn trace_actions(h: HeapV) -> Seq<ActionV> {
    seq![ActionV::LeaveIfNull] + (reach_actions(h.fixed) + (opt_elements(h.elem) + (opt_tags(
        h.variants,
    ) + Seq::<ActionV>::empty())))
}

proof fn run_trace(h: HeapV, o: ObjectV)
    ensures
        run(trace_actions(h), o) == tracing(h, o),
{
    let none = Seq::<ActionV>::empty();
    let a4 = opt_tags(h.variants) + none;
    let a3 = opt_elements(h.elem) + a4;
    let a2 = reach_actions(h.fixed) + a3;
    run_step(ActionV::LeaveIfNull, a2, o);
    run_reaches(h.fixed, a3, o);
    match h.elem {
        Some(t) => run_step(ActionV::ReachElements(t), a4, o),
        None => assert(a3 =~= a4),
    }
    if h.variants.len() > 0 {
        run_step(ActionV::ReachByTag(h.variants), none, o);
    } else {
        assert(a4 =~= none);
    }
    assert(run(none, o) =~= Seq::<Event>::empty());
    assert(run(trace_actions(h), o) =~= tracing(h, o));
}

/// The trace function of a type: what it does to an object is its tracing. `None` for a
/// type whose objects hold no references.
pub fn tracer(program: &Program, ty: &Type) -> (r: Option<Vec<Action>>)
    requires
        fits(program@, ty@),
    ensures
        match r {
            Some(actions) => !is_leaf(traced_children(program@, ty@)) && forall|o: ObjectV|
                #[trigger] run(actions_view(actions@), o) == tracing(
                    traced_children(program@, ty@),
                    o,
                ),
            None => is_leaf(traced_children(program@, ty@)),
        },
{
    let plan = match trace_plan(program, ty) {
        Some(p) => p,
        None => {
            return None;
        },
    };
    let ghost h = traced_children(program@, ty@);
    let HeapPlan { fixed, elem, variants } = plan;
    let ghost fv = children_view(fixed@);
    let ghost ev = opt_type(elem);
    let ghost vv = variants_view(variants@);
    assert(h == (HeapV { fixed: fv, elem: ev, variants: vv }));
    let mut out: Vec<Action> = Vec::new();
    push_action(Action::LeaveIfNull, &mut out);
    push_reaches(fixed, &mut out);
    push_elements(elem, &mut out);
    push_tags(variants, &mut out);
    proof {
        assert(actions_view(out@) =~= trace_actions(h));
        assert forall|o: ObjectV| #[trigger] run(actions_view(out@), o) == tracing(h, o) by {
            run_trace(h, o);
        }
    }
    Some(out)
}

// ---- laws ----

/// An object to which there are other references is neither freed nor touched.
pub proof fn shared_objects_are_kept(h: HeapV, buffer: bool, o: ObjectV)
    requires
        !o.null,
        o.count > 1,
    ensures
        destruction(h, buffer, o) == seq![Event::Decrement],
{
}

/// The last reference frees the object, once, after everything else.
pub proof fn last_reference_frees(h: HeapV, buffer: bool, o: ObjectV)
    requires
        !o.null,
        o.count <= 1,
    ensures
        ({
            let events = destruction(h, buffer, o);
            &&& events.last() == Event::Free
            &&& forall|i: int| 0 <= i < events.len() - 1 ==> #[trigger] events[i] != Event::Free
        }),
{
    reached_has_no_free(h.variants, o);
    let events = destruction(h, buffer, o);
    assert forall|i: int| 0 <= i < events.len() - 1 implies #[trigger] events[i] != Event::Free by {}
}

proof fn reached_has_no_free(vs: Seq<(i32, Seq<(TypeV, nat)>)>, o: ObjectV)
    ensures
        forall|i: int|
            0 <= i < reached_by_tag(vs, o).len() ==> (#[trigger] reached_by_tag(vs, o)[i]) is Reach,
    decreases vs.len(),
{
    if vs.len() > 0 && vs[0].0 != o.tag {
        reached_has_no_free(vs.drop_first(), o);
    }
}

/// Tuples apart, the last reference to an object releases every reference that the
/// collector would have followed from it.
pub proof fn nothing_is_leaked(p: ProgramV, t: TypeV, buffer: bool, o: ObjectV, e: Event)
    requires
        !(t is Tuple),
        !o.null,
        o.count <= 1,
        tracing(traced_children(p, t), o).contains(e),
    ensures
        destruction(released_children(p, t), buffer, o).contains(e),
{
    releases_what_is_traced(p, t);
    let h = traced_children(p, t);
    let a = reached(h.fixed, o);
    let b = match h.elem {
        Some(et) => reached_elements(et, o),
        None => Seq::empty(),
    };
    let f = if buffer {
        seq![Event::FreeBuffer]
    } else {
        Seq::empty()
    };
    let c = reached_by_tag(h.variants, o);
    let all = destruction(h, buffer, o);
    let traced = tracing(h, o);
    let i = choose|i: int| 0 <= i < traced.len() && traced[i] == e;
    assert(traced == a + b + c);
    assert(all == seq![Event::Decrement] + a + b + f + c + seq![Event::Free]);
    if i < a.len() + b.len() {
        assert(all[i + 1] == traced[i]);
    } else {
        assert(all[i + 1 + f.len()] == traced[i]);
    }
}

} // verus!
