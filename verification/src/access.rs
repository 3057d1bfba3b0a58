//! What guarding promises: every access to a shared object that the walk comes to runs
//! under the object's locks.

use vstd::prelude::*;
use crate::ast::{ArgV, BlockV, ExprV, MatchArmV, StmtV, StrSegV};
use crate::closure::ident_names;
use crate::guards::{arg_roots, args_roots, direct_roots, guard_closed, guarded, guarded_arg, guarded_args, guarded_arm, guarded_arms, guarded_children, guarded_list, guarded_named, guarded_place, guarded_seg, guarded_segs, guarded_stmt, guarded_stmts, guards_of, inherits, locked, non_forwarding, place_roots, roots_of, under_locks, GuardRel};
use crate::mutation::root_of;
use crate::names::{finite_sets_are_listed, in_order};
use crate::sharing::subset_is_finite;
use crate::spawn::binding;
use crate::traverse::{arg_exprs, arm_exprs, exprs, list_exprs, named_exprs, seg_exprs, stmt_exprs, stmts_exprs};
use crate::tree::tree_stmts;

verus! {

// ---- handles ----

/// Every shared object is guarded by its own lock.
pub proof fn shared_objects_guard_themselves(
    ss: Seq<StmtV>,
    cowns: Set<Seq<char>>,
    c: Seq<char>,
)
    requires
        cowns.contains(c),
    ensures
        guards_of(ss, cowns).contains((c, c)),
{
}

/// A name bound to a value that mentions a handle of a lock is a handle of that lock too.
pub proof fn handles_are_inherited(
    ss: Seq<StmtV>,
    cowns: Set<Seq<char>>,
    j: int,
    mentioned: Seq<char>,
    root: Seq<char>,
)
    requires
        0 <= j < tree_stmts(ss, true).len(),
        binding(tree_stmts(ss, true)[j]) matches Some((_, value)) && ident_names(
            exprs(value),
        ).contains(mentioned),
        guards_of(ss, cowns).contains((mentioned, root)),
    ensures
        guards_of(ss, cowns).contains(((binding(tree_stmts(ss, true)[j])->0).0, root)),
{
    let cs = tree_stmts(ss, true);
    let (name, value) = binding(cs[j])->0;
    assert forall|t: GuardRel| #[trigger] guard_closed(cs, cowns, t) implies t.contains(
        (name, root),
    ) by {
        assert(t.contains((mentioned, root)));
        assert(inherits(name, value, t));
    }
}

/// The locks of a relation.
spec fn locks_of(g: GuardRel) -> Set<Seq<char>> {
    g.map(|p: (Seq<char>, Seq<char>)| p.1)
}

proof fn roots_are_locks(g: GuardRel, handle: Seq<char>)
    ensures
        roots_of(g, handle).subset_of(locks_of(g)),
{
    assert forall|r: Seq<char>| roots_of(g, handle).contains(r) implies locks_of(g).contains(r) by {
        assert(g.contains((handle, r)));
        assert((|p: (Seq<char>, Seq<char>)| p.1)((handle, r)) == r);
    }
}

proof fn place_roots_are_locks(e: ExprV, g: GuardRel)
    ensures
        place_roots(e, g).subset_of(locks_of(g)),
{
    match root_of(e) {
        Some(r) => roots_are_locks(g, r),
        None => {},
    }
}

proof fn args_roots_are_locks(args: Seq<ArgV>, g: GuardRel)
    ensures
        args_roots(args, g).subset_of(locks_of(g)),
    decreases args.len(),
{
    if args.len() > 0 {
        args_roots_are_locks(args.drop_last(), g);
        place_roots_are_locks(args.last().expr, g);
    }
}

proof fn direct_roots_are_locks(e: ExprV, g: GuardRel)
    requires
        g.finite(),
    ensures
        direct_roots(e, g).finite(),
{
    match e {
        ExprV::Call(callee, args, _) => {
            args_roots_are_locks(args, g);
            match *callee {
                ExprV::Field(base, _, _) => place_roots_are_locks(*base, g),
                _ => {},
            }
        },
        ExprV::Field(base, _, _) => place_roots_are_locks(*base, g),
        ExprV::Index(base, _, _) => place_roots_are_locks(*base, g),
        _ => {},
    }
    g.lemma_map_finite(|p: (Seq<char>, Seq<char>)| p.1);
    subset_is_finite(locks_of(g), direct_roots(e, g));
}

// ---- accesses ----

/// An expression or a statement that the walk comes to.
pub ghost enum Point {
    Expr(ExprV),
    Stmt(StmtV),
}

/// Whether an expression is a place that is reached from `name`.
pub open spec fn place_of(e: ExprV, name: Seq<char>) -> bool {
    root_of(e) == Some(name)
}

/// Whether an expression reaches into what `name` refers to, by itself: it reads a field
/// or an element of it, calls a method on a place in it, or hands such a place to a
/// function. The built-ins that take and give up locks are not such functions.
pub open spec fn accesses(e: ExprV, name: Seq<char>) -> bool {
    match e {
        ExprV::Field(base, _, _) => is_name(*base, name),
        ExprV::Index(base, _, _) => is_name(*base, name),
        ExprV::Call(callee, args, _) => {
            ||| *callee matches ExprV::Field(base, _, _) && place_of(*base, name)
            ||| !non_forwarding(*callee) && exists|i: int|
                0 <= i < args.len() && place_of((#[trigger] args[i]).expr, name)
        },
        _ => false,
    }
}

/// Whether an expression is a name.
pub open spec fn is_name(e: ExprV, name: Seq<char>) -> bool {
    e matches ExprV::Ident(n, _) && n == name
}

/// The same at a point; a store accesses what the stored place is reached from.
pub open spec fn point_accesses(p: Point, name: Seq<char>) -> bool {
    match p {
        Point::Expr(e) => accesses(e, name),
        Point::Stmt(s) => s matches StmtV::Assign { target, .. } && place_of(target, name),
    }
}

/// What of a point runs under its locks: the expression with its children guarded, or the
/// store.
pub open spec fn point_body(p: Point, g: GuardRel) -> ExprV {
    match p {
        Point::Expr(e) => guarded_children(e, g),
        Point::Stmt(StmtV::Assign { target, op, value, span }) => ExprV::Block(
            BlockV {
                stmts: seq![
                    StmtV::Assign {
                        target: guarded_place(target, g),
                        op,
                        value: guarded(value, g),
                        span,
                    },
                ],
                span,
            },
            span,
        ),
        _ => arbitrary(),
    }
}

// ---- the walk ----

/// Whether the walk over `e` comes to `p`. It enters everything but the bodies of closures
/// and what is handed to the built-ins that take and give up locks.
pub open spec fn visits(e: ExprV, g: GuardRel, p: Point) -> bool
    decreases e, 1int,
{
    p == Point::Expr(e) || visits_inside(e, g, p)
}

/// The same on the way to a place that something reaches through.
pub open spec fn visits_place(e: ExprV, g: GuardRel, p: Point) -> bool
    decreases e, 2int,
{
    match e {
        ExprV::Field(a, _, _) => visits_place(*a, g, p),
        ExprV::Index(a, b, _) => visits_place(*a, g, p) || visits(*b, g, p),
        _ => visits(e, g, p),
    }
}

/// The same below `e`.
pub open spec fn visits_inside(e: ExprV, g: GuardRel, p: Point) -> bool
    decreases e, 0int,
{
    match e {
        ExprV::Call(callee, args, _) => {
            ||| (match *callee {
                ExprV::Field(base, _, _) => visits_place(*base, g, p),
                _ => visits(*callee, g, p),
            })
            ||| !non_forwarding(*callee) && visits_args(args, g, p)
        },
        ExprV::Field(a, _, _) => visits(*a, g, p),
        ExprV::Unary(_, a, _) => visits(*a, g, p),
        ExprV::ErrorProp(a, _) => visits(*a, g, p),
        ExprV::Index(a, b, _) => visits(*a, g, p) || visits(*b, g, p),
        ExprV::Range(a, b, _) => visits(*a, g, p) || visits(*b, g, p),
        ExprV::Binary(_, a, b, _) => visits(*a, g, p) || visits(*b, g, p),
        ExprV::Array(es, _) => visits_list(es, g, p),
        ExprV::TypeLit(_, fs, _) => visits_named(fs, g, p),
        ExprV::VariantLit(_, _, fs, _) => visits_named(fs, g, p),
        ExprV::Str(segs, _) => visits_segs(segs, g, p),
        ExprV::Block(b, _) => visits_stmts(b.stmts, g, p),
        ExprV::If(c, t, els, _) => visits(*c, g, p) || visits_stmts(t.stmts, g, p) || (match els {
            Some(x) => visits(*x, g, p),
            None => false,
        }),
        ExprV::IfLet(_, c, t, els, _) => visits(*c, g, p) || visits_stmts(t.stmts, g, p) || (
        match els {
            Some(x) => visits(*x, g, p),
            None => false,
        }),
        ExprV::Match(c, arms, _) => visits(*c, g, p) || visits_arms(arms, g, p),
        _ => false,
    }
}

/// The same for a statement.
pub open spec fn visits_stmt(s: StmtV, g: GuardRel, p: Point) -> bool
    decreases s, 0int,
{
    p == Point::Stmt(s) || (match s {
        StmtV::Let { value, .. } => match value {
            Some(e) => visits(e, g, p),
            None => false,
        },
        StmtV::Assign { target, value, .. } => visits(value, g, p) || (if place_roots(target, g)
            == Set::<Seq<char>>::empty() {
            visits(target, g, p)
        } else {
            visits_place(target, g, p)
        }),
        StmtV::Expr(e) => visits(e, g, p),
        StmtV::While { cond, body, .. } => visits(cond, g, p) || visits_stmts(body.stmts, g, p),
        StmtV::For { iter, body, .. } => visits(iter, g, p) || visits_stmts(body.stmts, g, p),
        StmtV::Return(value, _) => match value {
            Some(e) => visits(e, g, p),
            None => false,
        },
        _ => false,
    })
}

/// The same for call arguments.
pub open spec fn visits_args(ss: Seq<ArgV>, g: GuardRel, p: Point) -> bool
    decreases ss, 0int,
{
    ss.len() > 0 && (visits_args(ss.drop_last(), g, p) || (if arg_roots(ss.last().expr, g) == Set::<Seq<char>>::empty() {
            visits(ss.last().expr, g, p)
        } else {
            visits_place(ss.last().expr, g, p)
        }))
}

/// The same for a list.
pub open spec fn visits_list(ss: Seq<ExprV>, g: GuardRel, p: Point) -> bool
    decreases ss, 0int,
{
    ss.len() > 0 && (visits_list(ss.drop_last(), g, p) || visits(ss.last(), g, p))
}

/// The same for named entries.
pub open spec fn visits_named(ss: Seq<(Seq<char>, ExprV)>, g: GuardRel, p: Point) -> bool
    decreases ss, 0int,
{
    ss.len() > 0 && (visits_named(ss.drop_last(), g, p) || visits(ss.last().1, g, p))
}

/// The same for string segments.
pub open spec fn visits_segs(ss: Seq<StrSegV>, g: GuardRel, p: Point) -> bool
    decreases ss, 0int,
{
    ss.len() > 0 && (visits_segs(ss.drop_last(), g, p) || (match ss.last() {
            StrSegV::Expr(e) => visits(*e, g, p),
            StrSegV::Lit(_) => false,
        }))
}

/// The same for match arms.
pub open spec fn visits_arms(ss: Seq<MatchArmV>, g: GuardRel, p: Point) -> bool
    decreases ss, 0int,
{
    ss.len() > 0 && (visits_arms(ss.drop_last(), g, p) || visits(ss.last().body, g, p))
}

/// The same for a list of statements.
pub open spec fn visits_stmts(ss: Seq<StmtV>, g: GuardRel, p: Point) -> bool
    decreases ss, 0int,
{
    ss.len() > 0 && (visits_stmts(ss.drop_last(), g, p) || visits_stmt(ss.last(), g, p))
}

// ---- the law ----

/// Every access to a guarded handle that the walk comes to, and every store to a place of
/// one, stands in the guarded statements under a lock acquisition that takes each of the
/// handle's locks.
pub proof fn accesses_run_under_their_locks(
    ss: Seq<StmtV>,
    g: GuardRel,
    p: Point,
    handle: Seq<char>,
    r: Seq<char>,
)
    requires
        g.finite(),
        g.contains((handle, r)),
        visits_stmts(ss, g, p),
        point_accesses(p, handle),
    ensures
        exists|roots: Seq<Seq<char>>|
            roots.contains(r) && stmts_exprs(guarded_stmts(ss, g)).contains(
                #[trigger] locked(point_body(p, g), roots),
            ),
{
    let roots = access_is_locked(p, g, handle, r);
    stmts_land(ss, g, p);
    assert(stmts_exprs(guarded_stmts(ss, g)).contains(locked(point_body(p, g), roots)));
}

/// What guarding makes of a point.
spec fn image(p: Point, g: GuardRel) -> ExprV {
    match p {
        Point::Expr(e) => guarded(e, g),
        Point::Stmt(s) => guarded_stmt(s, g)->Expr_0,
    }
}

spec fn lands(p: Point, g: GuardRel) -> bool {
    p matches Point::Stmt(s) ==> guarded_stmt(s, g) is Expr
}

proof fn access_is_locked(p: Point, g: GuardRel, handle: Seq<char>, r: Seq<char>) -> (roots: Seq<
    Seq<char>,
>)
    requires
        g.finite(),
        g.contains((handle, r)),
        point_accesses(p, handle),
    ensures
        roots.contains(r),
        lands(p, g),
        image(p, g) == locked(point_body(p, g), roots),
{
    assert(roots_of(g, handle).contains(r));
    match p {
        Point::Expr(e) => {
            let inner = guarded_children(e, g);
            let found = direct_roots(inner, g);
            direct_roots_are_locks(inner, g);
            finite_sets_are_listed(found);
            let roots = in_order(found);
            match e {
                ExprV::Field(base, _, _) => {
                    name_is_left(*base, g, handle);
                },
                ExprV::Index(base, _, _) => {
                    name_is_left(*base, g, handle);
                },
                ExprV::Call(callee, args, _) => {
                    callee_is_left(*callee, g);
                    let receiver = match *callee {
                        ExprV::Field(base, _, _) => place_of(*base, handle),
                        _ => false,
                    };
                    if receiver {
                        place_is_left(*(*callee)->Field_0, g);
                    } else {
                        let i = choose|i: int|
                            0 <= i < args.len() && place_of((#[trigger] args[i]).expr, handle);
                        handles_stay_arguments(args, g, i, handle, r);
                    }
                },
                _ => {},
            }
            assert(found.contains(r));
            assert(found != Set::<Seq<char>>::empty());
            assert(roots.contains(r));
            roots
        },
        Point::Stmt(s) => {
            match s {
                StmtV::Assign { target, op, value, span } => {
                    place_roots_are_locks(target, g);
                    g.lemma_map_finite(|q: (Seq<char>, Seq<char>)| q.1);
                    subset_is_finite(locks_of(g), place_roots(target, g));
                    finite_sets_are_listed(place_roots(target, g));
                    let roots = in_order(place_roots(target, g));
                    assert(place_roots(target, g).contains(r));
                    assert(roots.contains(r));
                    assert(place_roots(target, g) != Set::<Seq<char>>::empty());
                    assert(guarded_stmt(s, g) == StmtV::Expr(locked(point_body(p, g), roots)));
                    roots
                },
                _ => Seq::empty(),
            }
        },
    }
}

proof fn handles_stay_arguments(args: Seq<ArgV>, g: GuardRel, i: int, handle: Seq<char>, r: Seq<char>)
    requires
        0 <= i < args.len(),
        place_of(args[i].expr, handle),
        g.contains((handle, r)),
    ensures
        args_roots(guarded_args(args, g), g).contains(r),
    decreases args.len(),
{
    let all = guarded_args(args, g);
    let rest = guarded_args(args.drop_last(), g);
    assert(all.drop_last() =~= rest);
    assert(all.last() == guarded_arg(args.last(), g));
    if i == args.len() - 1 {
        let a = args.last();
        assert(roots_of(g, handle).contains(r));
        assert(arg_roots(a.expr, g).contains(r));
        assert(arg_roots(a.expr, g) != Set::<Seq<char>>::empty());
        place_is_left(a.expr, g);
        assert(arg_roots(guarded_arg(a, g).expr, g).contains(r));
    } else {
        handles_stay_arguments(args.drop_last(), g, i, handle, r);
    }
}

proof fn name_is_left(e: ExprV, g: GuardRel, handle: Seq<char>)
    requires
        is_name(e, handle),
    ensures
        guarded(e, g) == e,
        root_of(e) == Some(handle),
{
    assert(guarded_children(e, g) == e);
    assert(direct_roots(e, g) =~= Set::<Seq<char>>::empty());
}

/// Guarding leaves a place the same kind of place with the same root.
proof fn place_is_left(e: ExprV, g: GuardRel)
    requires
        root_of(e) is Some,
    ensures
        root_of(guarded_place(e, g)) == root_of(e),
        is_place(guarded_place(e, g)),
    decreases e,
{
    let r = guarded_place(e, g);
    match e {
        ExprV::Field(a, n, span) => {
            place_is_left(*a, g);
            assert(r == ExprV::Field(Box::new(guarded_place(*a, g)), n, span));
            assert(root_of(r) == root_of(guarded_place(*a, g)));
            assert(root_of(e) == root_of(*a));
        },
        ExprV::Index(a, b, span) => {
            place_is_left(*a, g);
            assert(r == ExprV::Index(
                Box::new(guarded_place(*a, g)),
                Box::new(guarded(*b, g)),
                span,
            ));
            assert(root_of(r) == root_of(guarded_place(*a, g)));
            assert(root_of(e) == root_of(*a));
        },
        _ => {
            assert(guarded_children(e, g) == e);
            assert(direct_roots(e, g) =~= Set::<Seq<char>>::empty());
            assert(guarded(e, g) == under_locks(e, g));
            assert(e is Ident || e is SelfExpr);
            assert(r == guarded(e, g));
        },
    }
}

/// Whether an expression has the form of a place.
spec fn is_place(e: ExprV) -> bool {
    e is Ident || e is SelfExpr || e is Field || e is Index
}

/// Guarding a callee does not change whether it is a built-in.
proof fn callee_is_left(e: ExprV, g: GuardRel)
    ensures
        non_forwarding(guarded(e, g)) == non_forwarding(e),
{
    let c = guarded_children(e, g);
    if e is Ident {
        name_is_left(e, g, e->Ident_0);
    } else {
        assert(!(c is Ident));
    }
}

proof fn either_part(a: Seq<ExprV>, b: Seq<ExprV>, z: ExprV)
    ensures
        (a + b).contains(z) == (a.contains(z) || b.contains(z)),
{
    let s = a + b;
    if a.contains(z) {
        let i = choose|i: int| 0 <= i < a.len() && a[i] == z;
        assert(s[i] == z);
    }
    if b.contains(z) {
        let i = choose|i: int| 0 <= i < b.len() && b[i] == z;
        assert(s[a.len() + i] == z);
    }
    if s.contains(z) {
        let i = choose|i: int| 0 <= i < s.len() && s[i] == z;
        if i < a.len() {
            assert(a[i] == z);
        } else {
            assert(b[i - a.len()] == z);
        }
    }
}

/// What is in an expression is in a lock acquisition around it.
proof fn inside_lock(body: ExprV, roots: Seq<Seq<char>>, z: ExprV)
    requires
        exprs(body).contains(z),
    ensures
        exprs(locked(body, roots)).contains(z),
{
    let l = locked(body, roots);
    match l {
        ExprV::Call(c, args, span) => {
            let k: int = if roots.len() == 1 {
                1
            } else {
                0
            };
            let closure = args[k].expr;
            assert(closure matches ExprV::Closure(_, b, _) && *b == body);
            either_part(seq![closure], exprs(body), z);
            assert(exprs(closure).contains(z));
            in_args(args, k, z);
            either_part(exprs(*c), arg_exprs(args), z);
            either_part(seq![l], exprs(*c) + arg_exprs(args), z);
        },
        _ => {},
    }
}

proof fn in_args(args: Seq<ArgV>, k: int, z: ExprV)
    requires
        0 <= k < args.len(),
        exprs(args[k].expr).contains(z),
    ensures
        arg_exprs(args).contains(z),
    decreases args.len(),
{
    either_part(arg_exprs(args.drop_last()), exprs(args.last().expr), z);
    if k < args.len() - 1 {
        in_args(args.drop_last(), k, z);
    }
}

proof fn expr_lands(e: ExprV, g: GuardRel, p: Point)
    requires
        visits(e, g, p),
        lands(p, g),
    ensures
        exprs(guarded(e, g)).contains(image(p, g)),
    decreases e, 1int,
{
    let c = guarded_children(e, g);
    if p == Point::Expr(e) {
        assert(exprs(guarded(e, g))[0] == image(p, g));
    } else {
        inside_lands(e, g, p);
        if direct_roots(c, g) != Set::<Seq<char>>::empty() {
            inside_lock(c, in_order(direct_roots(c, g)), image(p, g));
        }
    }
}

proof fn place_lands(e: ExprV, g: GuardRel, p: Point)
    requires
        visits_place(e, g, p),
        lands(p, g),
    ensures
        exprs(guarded_place(e, g)).contains(image(p, g)),
    decreases e, 2int,
{
    let z = image(p, g);
    let c = guarded_place(e, g);
    match e {
        ExprV::Field(a, _, _) => {
            place_lands(*a, g, p);
            either_part(seq![c], exprs(guarded_place(*a, g)), z);
        },
        ExprV::Index(a, b, _) => {
            if visits_place(*a, g, p) {
                place_lands(*a, g, p);
            } else {
                expr_lands(*b, g, p);
            }
            either_part(exprs(guarded_place(*a, g)), exprs(guarded(*b, g)), z);
            either_part(seq![c], exprs(guarded_place(*a, g)) + exprs(guarded(*b, g)), z);
        },
        _ => expr_lands(e, g, p),
    }
}

#[verifier::rlimit(60)]
proof fn inside_lands(e: ExprV, g: GuardRel, p: Point)
    requires
        visits_inside(e, g, p),
        lands(p, g),
    ensures
        exprs(guarded_children(e, g)).contains(image(p, g)),
    decreases e, 0int,
{
    let z = image(p, g);
    let c = guarded_children(e, g);
    match e {
        ExprV::Call(callee, args, _) => {
            callee_is_left(*callee, g);
            let nc = *c->Call_0;
            let na = c->Call_1;
            let in_callee = match *callee {
                ExprV::Field(base, _, _) => visits_place(*base, g, p),
                _ => visits(*callee, g, p),
            };
            if in_callee {
                match *callee {
                    ExprV::Field(base, _, _) => {
                        place_lands(*base, g, p);
                        either_part(seq![nc], exprs(guarded_place(*base, g)), z);
                    },
                    _ => expr_lands(*callee, g, p),
                }
            } else {
                args_land(args, g, p);
            }
            either_part(exprs(nc), arg_exprs(na), z);
            either_part(seq![c], exprs(nc) + arg_exprs(na), z);
        },
        ExprV::Field(a, _, _) => {
            expr_lands(*a, g, p);
            either_part(seq![c], exprs(guarded(*a, g)), z);
        },
        ExprV::Unary(_, a, _) => {
            expr_lands(*a, g, p);
            either_part(seq![c], exprs(guarded(*a, g)), z);
        },
        ExprV::ErrorProp(a, _) => {
            expr_lands(*a, g, p);
            either_part(seq![c], exprs(guarded(*a, g)), z);
        },
        ExprV::Index(a, b, _) => {
            if visits(*a, g, p) {
                expr_lands(*a, g, p);
            } else {
                expr_lands(*b, g, p);
            }
            either_part(exprs(guarded(*a, g)), exprs(guarded(*b, g)), z);
            either_part(seq![c], exprs(guarded(*a, g)) + exprs(guarded(*b, g)), z);
        },
        ExprV::Range(a, b, _) => {
            if visits(*a, g, p) {
                expr_lands(*a, g, p);
            } else {
                expr_lands(*b, g, p);
            }
            either_part(exprs(guarded(*a, g)), exprs(guarded(*b, g)), z);
            either_part(seq![c], exprs(guarded(*a, g)) + exprs(guarded(*b, g)), z);
        },
        ExprV::Binary(_, a, b, _) => {
            if visits(*a, g, p) {
                expr_lands(*a, g, p);
            } else {
                expr_lands(*b, g, p);
            }
            either_part(exprs(guarded(*a, g)), exprs(guarded(*b, g)), z);
            either_part(seq![c], exprs(guarded(*a, g)) + exprs(guarded(*b, g)), z);
        },
        ExprV::Array(es, _) => {
            list_land(es, g, p);
            either_part(seq![c], list_exprs(guarded_list(es, g)), z);
        },
        ExprV::TypeLit(_, fs, _) => {
            named_land(fs, g, p);
            either_part(seq![c], named_exprs(guarded_named(fs, g)), z);
        },
        ExprV::VariantLit(_, _, fs, _) => {
            named_land(fs, g, p);
            either_part(seq![c], named_exprs(guarded_named(fs, g)), z);
        },
        ExprV::Str(segs, _) => {
            segs_land(segs, g, p);
            either_part(seq![c], seg_exprs(guarded_segs(segs, g)), z);
        },
        ExprV::Block(b, _) => {
            stmts_land(b.stmts, g, p);
            either_part(seq![c], stmts_exprs(guarded_stmts(b.stmts, g)), z);
        },
        ExprV::If(a, t, els, _) => {
            if visits(*a, g, p) {
                expr_lands(*a, g, p);
            } else if visits_stmts(t.stmts, g, p) {
                stmts_land(t.stmts, g, p);
            } else if let Some(x) = els {
                expr_lands(*x, g, p);
            }
            branch_parts(*a, t, els, g, z);
            assert(exprs(c) == seq![c] + branch_exprs(*a, t, els, g));
            either_part(seq![c], branch_exprs(*a, t, els, g), z);
        },
        ExprV::IfLet(_, a, t, els, _) => {
            if visits(*a, g, p) {
                expr_lands(*a, g, p);
            } else if visits_stmts(t.stmts, g, p) {
                stmts_land(t.stmts, g, p);
            } else if let Some(x) = els {
                expr_lands(*x, g, p);
            }
            branch_parts(*a, t, els, g, z);
            assert(exprs(c) == seq![c] + branch_exprs(*a, t, els, g));
            either_part(seq![c], branch_exprs(*a, t, els, g), z);
        },
        ExprV::Match(a, arms, _) => {
            if visits(*a, g, p) {
                expr_lands(*a, g, p);
            } else {
                arms_land(arms, g, p);
            }
            let x = exprs(guarded(*a, g));
            let y = arm_exprs(guarded_arms(arms, g));
            either_part(x, y, z);
            either_part(seq![c], x + y, z);
        },
        _ => {},
    }
}

/// The expressions in the guarded parts of a conditional.
spec fn branch_exprs(a: ExprV, t: BlockV, els: Option<Box<ExprV>>, g: GuardRel) -> Seq<ExprV> {
    exprs(guarded(a, g)) + stmts_exprs(guarded_stmts(t.stmts, g)) + (match els {
        Some(x) => exprs(guarded(*x, g)),
        None => Seq::empty(),
    })
}

proof fn branch_parts(a: ExprV, t: BlockV, els: Option<Box<ExprV>>, g: GuardRel, z: ExprV)
    requires
        exprs(guarded(a, g)).contains(z) || stmts_exprs(guarded_stmts(t.stmts, g)).contains(z) || (
        els matches Some(x) && exprs(guarded(*x, g)).contains(z)),
    ensures
        branch_exprs(a, t, els, g).contains(z),
{
    let x = exprs(guarded(a, g));
    let y = stmts_exprs(guarded_stmts(t.stmts, g));
    let w = match els {
        Some(x) => exprs(guarded(*x, g)),
        None => Seq::empty(),
    };
    either_part(x, y, z);
    either_part(x + y, w, z);
}

proof fn stmt_lands(s: StmtV, g: GuardRel, p: Point)
    requires
        visits_stmt(s, g, p),
        lands(p, g),
    ensures
        stmt_exprs(guarded_stmt(s, g)).contains(image(p, g)),
    decreases s, 0int,
{
    let z = image(p, g);
    let c = guarded_stmt(s, g);
    if p == Point::Stmt(s) {
        assert(stmt_exprs(c) == exprs(z));
        assert(exprs(z)[0] == z);
    } else {
        match s {
            StmtV::Let { value, .. } => {
                if let Some(e) = value {
                    expr_lands(e, g, p);
                }
            },
            StmtV::Assign { target, op, value, span } => {
                let plain = place_roots(target, g) == Set::<Seq<char>>::empty();
                let nt = if plain {
                    guarded(target, g)
                } else {
                    guarded_place(target, g)
                };
                if visits(value, g, p) {
                    expr_lands(value, g, p);
                } else if plain {
                    expr_lands(target, g, p);
                } else {
                    place_lands(target, g, p);
                }
                either_part(exprs(nt), exprs(guarded(value, g)), z);
                if !plain {
                    let store = StmtV::Assign { target: nt, op, value: guarded(value, g), span };
                    let one = seq![store];
                    let body = ExprV::Block(BlockV { stmts: one, span }, span);
                    assert(one.last() == store);
                    assert(one.drop_last() =~= Seq::<StmtV>::empty());
                    either_part(stmts_exprs(one.drop_last()), stmt_exprs(store), z);
                    either_part(seq![body], stmts_exprs(one), z);
                    inside_lock(body, in_order(place_roots(target, g)), z);
                }
            },
            StmtV::Expr(e) => expr_lands(e, g, p),
            StmtV::While { cond, body, .. } => {
                if visits(cond, g, p) {
                    expr_lands(cond, g, p);
                } else {
                    stmts_land(body.stmts, g, p);
                }
                either_part(exprs(guarded(cond, g)), stmts_exprs(guarded_stmts(body.stmts, g)), z);
            },
            StmtV::For { iter, body, .. } => {
                if visits(iter, g, p) {
                    expr_lands(iter, g, p);
                } else {
                    stmts_land(body.stmts, g, p);
                }
                either_part(exprs(guarded(iter, g)), stmts_exprs(guarded_stmts(body.stmts, g)), z);
            },
            StmtV::Return(value, _) => {
                if let Some(e) = value {
                    expr_lands(e, g, p);
                }
            },
            _ => {},
        }
    }
}

proof fn args_land(ss: Seq<ArgV>, g: GuardRel, p: Point)
    requires
        visits_args(ss, g, p),
        lands(p, g),
    ensures
        arg_exprs(guarded_args(ss, g)).contains(image(p, g)),
    decreases ss, 0int,
{
    if ss.len() > 0 {
        let all = guarded_args(ss, g);
        let l = ss.last();
        assert(all.drop_last() =~= guarded_args(ss.drop_last(), g));
        assert(all.last() == guarded_arg(l, g));
        if visits_args(ss.drop_last(), g, p) {
            args_land(ss.drop_last(), g, p);
        } else {
            if arg_roots(l.expr, g) == Set::<Seq<char>>::empty() {
                expr_lands(l.expr, g, p);
            } else {
                place_lands(l.expr, g, p);
            }
        }
        let last = exprs(guarded_arg(l, g).expr);
        assert(arg_exprs(all) == arg_exprs(all.drop_last()) + last);
        either_part(arg_exprs(all.drop_last()), last, image(p, g));
    }
}

proof fn list_land(ss: Seq<ExprV>, g: GuardRel, p: Point)
    requires
        visits_list(ss, g, p),
        lands(p, g),
    ensures
        list_exprs(guarded_list(ss, g)).contains(image(p, g)),
    decreases ss, 0int,
{
    if ss.len() > 0 {
        let all = guarded_list(ss, g);
        let l = ss.last();
        assert(all.drop_last() =~= guarded_list(ss.drop_last(), g));
        assert(all.last() == guarded(l, g));
        if visits_list(ss.drop_last(), g, p) {
            list_land(ss.drop_last(), g, p);
        } else {
            expr_lands(l, g, p);
        }
        let last = exprs(guarded(l, g));
        assert(list_exprs(all) == list_exprs(all.drop_last()) + last);
        either_part(list_exprs(all.drop_last()), last, image(p, g));
    }
}

proof fn named_land(ss: Seq<(Seq<char>, ExprV)>, g: GuardRel, p: Point)
    requires
        visits_named(ss, g, p),
        lands(p, g),
    ensures
        named_exprs(guarded_named(ss, g)).contains(image(p, g)),
    decreases ss, 0int,
{
    if ss.len() > 0 {
        let all = guarded_named(ss, g);
        let l = ss.last();
        assert(all.drop_last() =~= guarded_named(ss.drop_last(), g));
        assert(all.last() == (l.0, guarded(l.1, g)));
        if visits_named(ss.drop_last(), g, p) {
            named_land(ss.drop_last(), g, p);
        } else {
            expr_lands(l.1, g, p);
        }
        let last = exprs(guarded(l.1, g));
        assert(named_exprs(all) == named_exprs(all.drop_last()) + last);
        either_part(named_exprs(all.drop_last()), last, image(p, g));
    }
}

proof fn segs_land(ss: Seq<StrSegV>, g: GuardRel, p: Point)
    requires
        visits_segs(ss, g, p),
        lands(p, g),
    ensures
        seg_exprs(guarded_segs(ss, g)).contains(image(p, g)),
    decreases ss, 0int,
{
    if ss.len() > 0 {
        let all = guarded_segs(ss, g);
        let l = ss.last();
        assert(all.drop_last() =~= guarded_segs(ss.drop_last(), g));
        assert(all.last() == guarded_seg(l, g));
        if visits_segs(ss.drop_last(), g, p) {
            segs_land(ss.drop_last(), g, p);
        } else {
            if let StrSegV::Expr(e) = l {
                expr_lands(*e, g, p);
            }
        }
        let last = match guarded_seg(l, g) {
            StrSegV::Expr(e) => exprs(*e),
            StrSegV::Lit(_) => Seq::empty(),
        };
        assert(seg_exprs(all) == seg_exprs(all.drop_last()) + last);
        either_part(seg_exprs(all.drop_last()), last, image(p, g));
    }
}

proof fn arms_land(ss: Seq<MatchArmV>, g: GuardRel, p: Point)
    requires
        visits_arms(ss, g, p),
        lands(p, g),
    ensures
        arm_exprs(guarded_arms(ss, g)).contains(image(p, g)),
    decreases ss, 0int,
{
    if ss.len() > 0 {
        let all = guarded_arms(ss, g);
        let l = ss.last();
        assert(all.drop_last() =~= guarded_arms(ss.drop_last(), g));
        assert(all.last() == guarded_arm(l, g));
        if visits_arms(ss.drop_last(), g, p) {
            arms_land(ss.drop_last(), g, p);
        } else {
            expr_lands(l.body, g, p);
        }
        let last = exprs(guarded(l.body, g));
        assert(arm_exprs(all) == arm_exprs(all.drop_last()) + last);
        either_part(arm_exprs(all.drop_last()), last, image(p, g));
    }
}

proof fn stmts_land(ss: Seq<StmtV>, g: GuardRel, p: Point)
    requires
        visits_stmts(ss, g, p),
        lands(p, g),
    ensures
        stmts_exprs(guarded_stmts(ss, g)).contains(image(p, g)),
    decreases ss, 0int,
{
    if ss.len() > 0 {
        let all = guarded_stmts(ss, g);
        let l = ss.last();
        assert(all.drop_last() =~= guarded_stmts(ss.drop_last(), g));
        assert(all.last() == guarded_stmt(l, g));
        if visits_stmts(ss.drop_last(), g, p) {
            stmts_land(ss.drop_last(), g, p);
        } else {
            stmt_lands(l, g, p);
        }
        let last = stmt_exprs(guarded_stmt(l, g));
        assert(stmts_exprs(all) == stmts_exprs(all.drop_last()) + last);
        either_part(stmts_exprs(all.drop_last()), last, image(p, g));
    }
}

} // verus!
