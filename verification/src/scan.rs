//! Mutation of a captured variable, followed through aliases.

use vstd::prelude::*;
use crate::ast::{args_view, exprs_view, match_arms_view, named_exprs_view, stmts_view, str_segs_view, Arg, ArgV, Block, Expr, ExprV, MatchArm, MatchArmV, Pattern, PatternV, Stmt, StmtV, StrSeg, StrSegV};
use crate::closure::{collect_idents, ident_names};
use crate::mutation::{root_ident, root_of};
use crate::names::{lists, NameSet};
use crate::text::{str_eq, texts};
use crate::traverse::{all_exprs, exprs};

verus! {

// ---- what a body does ----

/// One step of a body that matters to an alias: an expression that is evaluated, a
/// place that is stored to, or a name that is bound to a value.
#[derive(Clone, Copy, Debug)]
pub enum Event<'a> {
    Node(&'a Expr),
    Store(&'a Expr),
    Bind(&'a str, &'a Expr),
}

/// The model of [`Event`].
#[verifier::ext_equal]
pub ghost enum EventV {
    Node(ExprV),
    Store(ExprV),
    Bind(Seq<char>, ExprV),
}

pub open spec fn event_view(e: Event) -> EventV {
    match e {
        Event::Node(x) => EventV::Node(x@),
        Event::Store(x) => EventV::Store(x@),
        Event::Bind(n, x) => EventV::Bind(n@, x@),
    }
}

pub open spec fn events_view(v: Seq<Event>) -> Seq<EventV> {
    Seq::new(v.len(), |i: int| event_view(v[i]))
}

fn push_event<'a>(e: Event<'a>, out: &mut Vec<Event<'a>>)
    ensures
        events_view(final(out)@) == events_view(old(out)@).push(event_view(e)),
{
    let ghost start = events_view(out@);
    out.push(e);
    assert(events_view(out@) =~= start.push(event_view(e)));
}

/// What evaluating `e` may do, in order.
pub open spec fn events(e: ExprV) -> Seq<EventV>
    decreases e,
{
    seq![EventV::Node(e)] + (match e {
        ExprV::Unary(_, a, _) => events(*a),
        ExprV::Field(a, _, _) => events(*a),
        ExprV::ErrorProp(a, _) => events(*a),
        ExprV::Closure(_, a, _) => events(*a),
        ExprV::Binary(_, a, b, _) => events(*a) + events(*b),
        ExprV::Index(a, b, _) => events(*a) + events(*b),
        ExprV::Range(a, b, _) => events(*a) + events(*b),
        ExprV::Call(c, args, _) => events(*c) + arg_events(args),
        ExprV::Array(es, _) => list_events(es),
        ExprV::TypeLit(_, fs, _) => named_events(fs),
        ExprV::VariantLit(_, _, fs, _) => named_events(fs),
        ExprV::Str(segs, _) => seg_events(segs),
        ExprV::If(c, t, els, _) => events(*c) + stmts_events(t.stmts) + (match els {
            Some(x) => events(*x),
            None => Seq::empty(),
        }),
        ExprV::IfLet(_, c, t, els, _) => events(*c) + stmts_events(t.stmts) + (match els {
            Some(x) => events(*x),
            None => Seq::empty(),
        }),
        ExprV::Match(c, arms, _) => events(*c) + arm_events(arms),
        ExprV::Block(b, _) => stmts_events(b.stmts),
        _ => Seq::empty(),
    })
}

/// What running a statement may do, in order.
pub open spec fn stmt_events(s: StmtV) -> Seq<EventV>
    decreases s,
{
    match s {
        StmtV::Let { pat, value, .. } => match value {
            Some(e) => events(e) + (match pat {
                PatternV::Binding(name, _) => seq![EventV::Bind(name, e)],
                _ => Seq::empty(),
            }),
            None => Seq::empty(),
        },
        StmtV::Assign { target, value, .. } => seq![EventV::Store(target)] + events(target)
            + events(value) + (match target {
            ExprV::Ident(name, _) => seq![EventV::Bind(name, value)],
            _ => Seq::empty(),
        }),
        StmtV::Expr(e) => events(e),
        StmtV::While { cond, body, .. } => events(cond) + stmts_events(body.stmts),
        StmtV::For { iter, body, .. } => events(iter) + stmts_events(body.stmts),
        StmtV::Return(value, _) => match value {
            Some(e) => events(e),
            None => Seq::empty(),
        },
        _ => Seq::empty(),
    }
}


/// What happens in a list of statements.
pub open spec fn stmts_events(ss: Seq<StmtV>) -> Seq<EventV>
    decreases ss,
{
    if ss.len() == 0 {
        Seq::empty()
    } else {
        stmts_events(ss.drop_last()) + stmt_events(ss.last())
    }
}

/// What happens in call arguments.
pub open spec fn arg_events(ss: Seq<ArgV>) -> Seq<EventV>
    decreases ss,
{
    if ss.len() == 0 {
        Seq::empty()
    } else {
        arg_events(ss.drop_last()) + events(ss.last().expr)
    }
}

/// What happens in a list.
pub open spec fn list_events(ss: Seq<ExprV>) -> Seq<EventV>
    decreases ss,
{
    if ss.len() == 0 {
        Seq::empty()
    } else {
        list_events(ss.drop_last()) + events(ss.last())
    }
}

/// What happens in match arms.
pub open spec fn arm_events(ss: Seq<MatchArmV>) -> Seq<EventV>
    decreases ss,
{
    if ss.len() == 0 {
        Seq::empty()
    } else {
        arm_events(ss.drop_last()) + events(ss.last().body)
    }
}

/// What happens in named entries.
pub open spec fn named_events(ss: Seq<(Seq<char>, ExprV)>) -> Seq<EventV>
    decreases ss,
{
    if ss.len() == 0 {
        Seq::empty()
    } else {
        named_events(ss.drop_last()) + events(ss.last().1)
    }
}

/// What happens interpolated into a string literal.
pub open spec fn seg_events(ss: Seq<StrSegV>) -> Seq<EventV>
    decreases ss,
{
    if ss.len() == 0 {
        Seq::empty()
    } else {
        seg_events(ss.drop_last()) + (match ss.last() {
            StrSegV::Expr(e) => events(*e),
            StrSegV::Lit(_) => Seq::empty(),
        })
    }
}

/// Append what evaluating `e` may do.
fn push_events<'a>(e: &'a Expr, out: &mut Vec<Event<'a>>)
    ensures
        events_view(final(out)@) == events_view(old(out)@) + events(e@),
    decreases *e,
{
    let ghost start = events_view(out@);
    out.push(Event::Node(e));
    assert(events_view(out@) =~= start.push(EventV::Node(e@)));
    match e {
        Expr::Unary(_, a, _) => push_events(a, out),
        Expr::Field(a, _, _) => push_events(a, out),
        Expr::ErrorProp(a, _) => push_events(a, out),
        Expr::Closure(_, a, _) => push_events(a, out),
        Expr::Binary(_, a, b, _) => {
            push_events(a, out);
            push_events(b, out);
        },
        Expr::Index(a, b, _) => {
            push_events(a, out);
            push_events(b, out);
        },
        Expr::Range(a, b, _) => {
                            push_events(a, out);
                push_events(b, out);
        },
        Expr::Call(c, args, _) => {
            push_events(c, out);
            push_arg_events(args, out);
        },
        Expr::Array(es, _) => push_list_events(es, out),
        Expr::TypeLit(_, fs, _) => push_named_events(fs, out),
        Expr::VariantLit(_, _, fs, _) => push_named_events(fs, out),
        Expr::Str(segs, _) => {
                            push_seg_events(segs, out);
        },
        Expr::If(c, t, els, _) => {
            push_events(c, out);
            assert(t@.stmts == stmts_view(t.stmts@));
            push_stmts_events(&t.stmts, out);
            if let Some(x) = els {
                push_events(x, out);
            }
        },
        Expr::IfLet(_, c, t, els, _) => {
            push_events(c, out);
            assert(t@.stmts == stmts_view(t.stmts@));
            push_stmts_events(&t.stmts, out);
            if let Some(x) = els {
                push_events(x, out);
            }
        },
        Expr::Match(c, arms, _) => {
            push_events(c, out);
            push_arm_events(arms, out);
        },
        Expr::Block(b, _) => {
            assert(b@.stmts == stmts_view(b.stmts@));
            push_stmts_events(&b.stmts, out);
        },
        _ => {},
    }
    assert(events_view(out@) =~= start + events(e@));
}

/// Append what happens in a statement.
fn push_stmt_events<'a>(s: &'a Stmt, out: &mut Vec<Event<'a>>)
    ensures
        events_view(final(out)@) == events_view(old(out)@) + stmt_events(s@),
    decreases *s,
{
    let ghost start = events_view(out@);
    match s {
        Stmt::Let { pat, value, .. } => {
            if let Some(e) = value {
                push_events(e, out);
                if let Pattern::Binding(name, _) = pat {
                    push_event(Event::Bind(name.as_str(), e), out);
                }
            }
        },
        Stmt::Assign { target, value, .. } => {
            push_event(Event::Store(target), out);
            push_events(target, out);
            push_events(value, out);
            if let Expr::Ident(name, _) = target {
                push_event(Event::Bind(name.as_str(), value), out);
            }
        },
        Stmt::Expr(e) => push_events(e, out),
        Stmt::While { cond, body, .. } => {
            push_events(cond, out);
            assert(body@.stmts == stmts_view(body.stmts@));
            push_stmts_events(&body.stmts, out);
        },
        Stmt::For { iter, body, .. } => {
            push_events(iter, out);
            assert(body@.stmts == stmts_view(body.stmts@));
            push_stmts_events(&body.stmts, out);
        },
        Stmt::Return(value, _) => {
            if let Some(e) = value {
                push_events(e, out);
            }
        },
        _ => {},
    }
    assert(events_view(out@) =~= start + stmt_events(s@));
}

/// Append what happens in a list.
fn push_stmts_events<'a>(v: &'a Vec<Stmt>, out: &mut Vec<Event<'a>>)
    ensures
        events_view(final(out)@) == events_view(old(out)@) + stmts_events(stmts_view(v@)),
    decreases *v,
{
    let ghost start = events_view(out@);
    let ghost all = stmts_view(v@);
    assert(start =~= start + stmts_events(all.take(0)));
    for i in 0..v.len()
        invariant
            all == stmts_view(v@),
            events_view(out@) == start + stmts_events(all.take(i as int)),
    {
        proof {
            assert(all.take(i + 1).drop_last() =~= all.take(i as int));
            assert(all.take(i + 1).last() == all[i as int]);
        }
        push_stmt_events(&v[i], out);
        assert(events_view(out@) =~= start + stmts_events(all.take(i + 1)));
    }
    assert(all.take(v.len() as int) =~= all);
}

/// Append what happens in a list.
fn push_arg_events<'a>(v: &'a Vec<Arg>, out: &mut Vec<Event<'a>>)
    ensures
        events_view(final(out)@) == events_view(old(out)@) + arg_events(args_view(v@)),
    decreases *v,
{
    let ghost start = events_view(out@);
    let ghost all = args_view(v@);
    assert(start =~= start + arg_events(all.take(0)));
    for i in 0..v.len()
        invariant
            all == args_view(v@),
            events_view(out@) == start + arg_events(all.take(i as int)),
    {
        proof {
            assert(all.take(i + 1).drop_last() =~= all.take(i as int));
            assert(all.take(i + 1).last() == all[i as int]);
        }
        push_events(&v[i].expr, out);
        assert(events_view(out@) =~= start + arg_events(all.take(i + 1)));
    }
    assert(all.take(v.len() as int) =~= all);
}

/// Append what happens in a list.
fn push_list_events<'a>(v: &'a Vec<Expr>, out: &mut Vec<Event<'a>>)
    ensures
        events_view(final(out)@) == events_view(old(out)@) + list_events(exprs_view(v@)),
    decreases *v,
{
    let ghost start = events_view(out@);
    let ghost all = exprs_view(v@);
    assert(start =~= start + list_events(all.take(0)));
    for i in 0..v.len()
        invariant
            all == exprs_view(v@),
            events_view(out@) == start + list_events(all.take(i as int)),
    {
        proof {
            assert(all.take(i + 1).drop_last() =~= all.take(i as int));
            assert(all.take(i + 1).last() == all[i as int]);
        }
        push_events(&v[i], out);
        assert(events_view(out@) =~= start + list_events(all.take(i + 1)));
    }
    assert(all.take(v.len() as int) =~= all);
}

/// Append what happens in a list.
fn push_arm_events<'a>(v: &'a Vec<MatchArm>, out: &mut Vec<Event<'a>>)
    ensures
        events_view(final(out)@) == events_view(old(out)@) + arm_events(match_arms_view(v@)),
    decreases *v,
{
    let ghost start = events_view(out@);
    let ghost all = match_arms_view(v@);
    assert(start =~= start + arm_events(all.take(0)));
    for i in 0..v.len()
        invariant
            all == match_arms_view(v@),
            events_view(out@) == start + arm_events(all.take(i as int)),
    {
        proof {
            assert(all.take(i + 1).drop_last() =~= all.take(i as int));
            assert(all.take(i + 1).last() == all[i as int]);
        }
        push_events(&v[i].body, out);
        assert(events_view(out@) =~= start + arm_events(all.take(i + 1)));
    }
    assert(all.take(v.len() as int) =~= all);
}

/// Append what happens in a list.
fn push_named_events<'a>(v: &'a Vec<(String, Expr)>, out: &mut Vec<Event<'a>>)
    ensures
        events_view(final(out)@) == events_view(old(out)@) + named_events(named_exprs_view(v@)),
    decreases *v,
{
    let ghost start = events_view(out@);
    let ghost all = named_exprs_view(v@);
    assert(start =~= start + named_events(all.take(0)));
    for i in 0..v.len()
        invariant
            all == named_exprs_view(v@),
            events_view(out@) == start + named_events(all.take(i as int)),
    {
        proof {
            assert(all.take(i + 1).drop_last() =~= all.take(i as int));
            assert(all.take(i + 1).last() == all[i as int]);
        }
        push_events(&v[i].1, out);
        assert(events_view(out@) =~= start + named_events(all.take(i + 1)));
    }
    assert(all.take(v.len() as int) =~= all);
}

/// Append what happens in a string literal.
fn push_seg_events<'a>(v: &'a Vec<StrSeg>, out: &mut Vec<Event<'a>>)
    ensures
        events_view(final(out)@) == events_view(old(out)@) + seg_events(str_segs_view(v@)),
    decreases *v,
{
    let ghost start = events_view(out@);
    let ghost all = str_segs_view(v@);
    assert(start =~= start + seg_events(all.take(0)));
    for i in 0..v.len()
        invariant
            all == str_segs_view(v@),
            events_view(out@) == start + seg_events(all.take(i as int)),
    {
        proof {
            assert(all.take(i + 1).drop_last() =~= all.take(i as int));
            assert(all.take(i + 1).last() == v[i as int]@);
        }
        match &v[i] {
            StrSeg::Expr(e) => push_events(e, out),
            StrSeg::Lit(_) => {},
        }
        assert(events_view(out@) =~= start + seg_events(all.take(i + 1)));
    }
    assert(all.take(v.len() as int) =~= all);
}

// ---- aliases ----

/// Whether `e` references a name of `names` anywhere inside.
pub open spec fn mentions(e: ExprV, names: Set<Seq<char>>) -> bool {
    exists|n: Seq<char>| #[trigger]
        names.contains(n) && ident_names(exprs(e)).contains(n)
}

/// Whether `e` references a name of `names` anywhere inside.
pub fn expr_mentions_any(e: &Expr, names: &NameSet) -> (r: bool)
    ensures
        r == mentions(e@, names@),
{
    let es = all_exprs(e);
    let mut refs = NameSet::new();
    collect_idents(&es, &mut refs);
    let items = refs.items();
    assert(refs@ =~= ident_names(exprs(e@)));
    for i in 0..items.len()
        invariant
            lists(texts(items@), refs@),
            refs@ == ident_names(exprs(e@)),
            forall|j: int| 0 <= j < i ==> !names@.contains(#[trigger] texts(items@)[j]),
    {
        assert(texts(items@)[i as int] == items[i as int]@);
        if names.contains(items[i].as_str()) {
            assert(texts(items@).contains(items[i as int]@));
            assert(refs@.contains(items[i as int]@));
            return true;
        }
    }
    proof {
        assert forall|n: Seq<char>| #[trigger] names@.contains(n) implies !ident_names(
            exprs(e@),
        ).contains(n) by {
            if refs@.contains(n) {
                assert(texts(items@).contains(n));
            }
        }
    }
    false
}

/// Whether `e` is a place rooted at a name of `names`.
pub open spec fn rooted_in(e: ExprV, names: Set<Seq<char>>) -> bool {
    match root_of(e) {
        Some(r) => names.contains(r),
        None => false,
    }
}

/// Whether `e` is a place rooted at a name of `names`.
pub fn is_rooted_in(e: &Expr, names: &NameSet) -> (r: bool)
    ensures
        r == rooted_in(e@, names@),
{
    match root_ident(e) {
        Some(n) => names.contains(n),
        None => false,
    }
}

/// The built-ins that only read their arguments.
pub open spec fn readonly_callee(callee: ExprV) -> bool {
    match callee {
        ExprV::Ident(n, _) => n == "println"@ || n == "print"@,
        _ => false,
    }
}

/// Whether a call through `callee` is to a built-in known to only read its
/// arguments.
pub fn call_is_readonly(callee: &Expr) -> (r: bool)
    ensures
        r == readonly_callee(callee@),
{
    match callee {
        Expr::Ident(n, _) => str_eq(n.as_str(), "println") || str_eq(n.as_str(), "print"),
        _ => false,
    }
}

/// Whether some argument is a place rooted at a name of `names`.
pub open spec fn some_arg_rooted(args: Seq<ArgV>, names: Set<Seq<char>>) -> bool {
    exists|i: int| 0 <= i < args.len() && rooted_in((#[trigger] args[i]).expr, names)
}

fn is_some_arg_rooted(args: &Vec<Arg>, names: &NameSet) -> (r: bool)
    ensures
        r == some_arg_rooted(args_view(args@), names@),
{
    let ghost all = args_view(args@);
    for i in 0..args.len()
        invariant
            all == args_view(args@),
            forall|j: int| 0 <= j < i ==> !rooted_in((#[trigger] all[j]).expr, names@),
    {
        assert(all[i as int] == args[i as int]@);
        assert(args[i as int]@.expr == args[i as int].expr@);
        if is_rooted_in(&args[i].expr, names) {
            return true;
        }
    }
    false
}

/// Whether a call may mutate an alias: it is a method call on a place rooted at
/// one, or passes such a place to something not known to only read it.
pub open spec fn call_mutates(e: ExprV, aliases: Set<Seq<char>>) -> bool {
    match e {
        ExprV::Call(callee, args, _) => (match *callee {
            ExprV::Field(base, _, _) => rooted_in(*base, aliases),
            _ => false,
        }) || (!readonly_callee(*callee) && some_arg_rooted(args, aliases)),
        _ => false,
    }
}

fn is_mutating_call(e: &Expr, aliases: &NameSet) -> (r: bool)
    ensures
        r == call_mutates(e@, aliases@),
{
    match e {
        Expr::Call(callee, args, _) => {
            let by_method = callee_rooted_in(callee, aliases);
            let readonly = call_is_readonly(callee);
            by_method || (!readonly && is_some_arg_rooted(args, aliases))
        },
        _ => false,
    }
}

fn callee_rooted_in(callee: &Expr, names: &NameSet) -> (r: bool)
    ensures
        r == (match callee@ {
            ExprV::Field(base, _, _) => rooted_in(*base, names@),
            _ => false,
        }),
{
    match callee {
        Expr::Field(base, _, _) => is_rooted_in(base, names),
        _ => false,
    }
}

/// Whether an event mutates one of `aliases`.
pub open spec fn event_mutates(ev: EventV, aliases: Set<Seq<char>>) -> bool {
    match ev {
        EventV::Node(e) => call_mutates(e, aliases),
        EventV::Store(target) => rooted_in(target, aliases),
        EventV::Bind(..) => false,
    }
}

/// The aliases known after some events: a name bound to a value that mentions an
/// alias is an alias from then on.
pub open spec fn aliases_after(evs: Seq<EventV>, aliases: Set<Seq<char>>) -> Set<Seq<char>>
    decreases evs.len(),
{
    if evs.len() == 0 {
        aliases
    } else {
        let before = aliases_after(evs.drop_last(), aliases);
        match evs.last() {
            EventV::Bind(name, value) => if mentions(value, before) {
                before.insert(name)
            } else {
                before
            },
            _ => before,
        }
    }
}

/// Whether some event mutates one of the aliases known when it happens.
pub open spec fn some_event_mutates(evs: Seq<EventV>, aliases: Set<Seq<char>>) -> bool {
    exists|i: int|
        0 <= i < evs.len() && event_mutates(
            #[trigger] evs[i],
            aliases_after(evs.take(i), aliases),
        )
}

/// Whether a statement list may mutate `var`, directly or through an alias.
pub open spec fn mutated(ss: Seq<StmtV>, var: Seq<char>) -> bool {
    some_event_mutates(stmts_events(ss), Set::<Seq<char>>::empty().insert(var))
}

/// Whether `body` mutates `var`: assigns to it or to a place in it, calls a method
/// on it, or passes it to a function that is not known to only read it. Aliases are
/// followed: a name bound to a value that mentions a known alias counts as one too.
pub fn mutates(body: &Block, var: &str) -> (r: bool)
    ensures
        r == mutated(body@.stmts, var@),
{
    let mut evs: Vec<Event> = Vec::new();
    push_stmts_events(&body.stmts, &mut evs);
    let ghost all = stmts_events(body@.stmts);
    assert(events_view(evs@) =~= all);
    let mut aliases = NameSet::one(var);
    let ghost start = aliases@;
    for i in 0..evs.len()
        invariant
            events_view(evs@) == all,
            all == stmts_events(body@.stmts),
            start == Set::<Seq<char>>::empty().insert(var@),
            aliases@ == aliases_after(all.take(i as int), start),
            forall|j: int|
                0 <= j < i ==> !event_mutates(
                    #[trigger] all[j],
                    aliases_after(all.take(j), start),
                ),
    {
        assert(all[i as int] == event_view(evs[i as int]));
        proof {
            assert(all.take(i + 1).drop_last() =~= all.take(i as int));
            assert(all.take(i + 1).last() == all[i as int]);
        }
        match evs[i] {
            Event::Node(e) => {
                if is_mutating_call(e, &aliases) {
                    return true;
                }
            },
            Event::Store(target) => {
                if is_rooted_in(target, &aliases) {
                    return true;
                }
            },
            Event::Bind(name, value) => {
                if expr_mentions_any(value, &aliases) {
                    aliases.insert(name);
                }
            },
        }
    }
    assert(evs.len() == all.len());
    false
}

} // verus!
