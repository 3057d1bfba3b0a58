//! Guarding accesses to shared objects: every statement that dereferences an object
//! a task shares is wrapped so that it runs under the object's lock.

use vstd::prelude::*;
use crate::ast::{args_view, clone_expr, clone_pattern, clone_stmt, exprs_view, match_arms_view, named_exprs_view, params_view, stmts_view, str_segs_view, clone_type_expr, Arg, ArgV, AssignOp, Block, BlockV, Expr, ExprV, MatchArm, MatchArmV, Param, ParamV, Stmt, StmtV, StrSeg, StrSegV};
use crate::closure::{collect_idents, ident_names};
use crate::mutation::{root_ident, root_of};
use crate::names::{in_order, lists, NameSet};
use crate::span::Span;
use crate::spawn::{binding, stmt_binding};
use crate::table::{find_key, first_pos, first_pos_facts, first_pos_unique, names};
use crate::text::{str_eq, texts};
use crate::traverse::{all_exprs, exprs, stmt_refs};
use crate::tree::{all_tree_stmts, tree_stmts};

verus! {

// ---- handles and their locks ----

/// Which locks guard a dereference through which names: pairs of a handle and a
/// root.
pub type GuardRel = Set<(Seq<char>, Seq<char>)>;

/// Whether `t` lets every name of `cowns` guard itself, and every name bound to a
/// value that mentions a handle inherit the handle's roots.
pub open spec fn guard_closed(cs: Seq<StmtV>, cowns: Set<Seq<char>>, t: GuardRel) -> bool {
    &&& forall|c: Seq<char>| #[trigger] cowns.contains(c) ==> t.contains((c, c))
    &&& forall|j: int|
        0 <= j < cs.len() ==> match binding(#[trigger] cs[j]) {
            Some((name, value)) => inherits(name, value, t),
            None => true,
        }
}

/// Whether `name` has the roots of every handle that `value` mentions.
pub open spec fn inherits(name: Seq<char>, value: ExprV, t: GuardRel) -> bool {
    forall|m: Seq<char>, r: Seq<char>|
        ident_names(exprs(value)).contains(m) && #[trigger] t.contains((m, r))
            ==> t.contains((name, r))
}

/// The locks that guard each handle of a scope: the least relation that is closed.
pub open spec fn guards_of(ss: Seq<StmtV>, cowns: Set<Seq<char>>) -> GuardRel {
    Set::new(|p: (Seq<char>, Seq<char>)|
        forall|t: GuardRel| #[trigger] guard_closed(tree_stmts(ss, true), cowns, t) ==> t.contains(p))
}

/// The roots of a handle.
pub open spec fn roots_of(g: GuardRel, handle: Seq<char>) -> Set<Seq<char>> {
    Set::new(|r: Seq<char>| g.contains((handle, r)))
}

/// The locks that guard each handle of a scope.
pub struct Guards {
    entries: Vec<(String, NameSet)>,
}

/// The pairs that a table of handles holds.
pub closed spec fn table_pairs(v: Seq<(String, NameSet)>) -> GuardRel {
    Set::new(|p: (Seq<char>, Seq<char>)| {
        let k = first_pos(names(v), p.0);
        k < v.len() && v[k].1@.contains(p.1)
    })
}

impl View for Guards {
    type V = GuardRel;

    closed spec fn view(&self) -> GuardRel {
        table_pairs(self.entries@)
    }
}

impl Guards {
    /// No locks at all.
    pub fn new() -> (r: Guards)
        ensures
            r@ == Set::<(Seq<char>, Seq<char>)>::empty(),
    {
        let r = Guards { entries: Vec::new() };
        assert(r@ =~= Set::<(Seq<char>, Seq<char>)>::empty());
        r
    }

    /// The roots of a handle.
    pub fn roots(&self, handle: &str) -> (r: NameSet)
        ensures
            r@ == roots_of(self@, handle@),
    {
        let k = find_key(&self.entries, handle);
        if k < self.entries.len() {
            let r = self.entries[k].1.copy();
            assert(r@ =~= roots_of(self@, handle@));
            r
        } else {
            let r = NameSet::new();
            assert(r@ =~= roots_of(self@, handle@));
            r
        }
    }

    /// Let `root` guard `handle`; the result tells whether it did not before.
    pub fn add_root(&mut self, handle: &str, root: &str) -> (r: bool)
        ensures
            final(self)@ == old(self)@.insert((handle@, root@)),
            r == !old(self)@.contains((handle@, root@)),
    {
        let k = find_key(&self.entries, handle);
        let ghost before = self.entries@;
        proof {
            first_pos_facts(names(before), handle@);
        }
        if k < self.entries.len() {
            let fresh = self.entries[k].1.insert(root);
            proof {
                assert(names(self.entries@) =~= names(before));
                assert forall|q: (Seq<char>, Seq<char>)| table_pairs(self.entries@).contains(q)
                    == table_pairs(before).insert((handle@, root@)).contains(q) by {
                    first_pos_facts(names(before), q.0);
                }
                assert(table_pairs(self.entries@) =~= table_pairs(before).insert((handle@, root@)));
            }
            fresh
        } else {
            self.entries.push((handle.to_owned(), NameSet::one(root)));
            proof {
                assert(names(self.entries@) =~= names(before).push(handle@));
                assert forall|q: (Seq<char>, Seq<char>)| table_pairs(self.entries@).contains(q)
                    == table_pairs(before).insert((handle@, root@)).contains(q) by {
                    first_pos_facts(names(before), q.0);
                    first_pos_facts(names(self.entries@), q.0);
                    let a = first_pos(names(before), q.0);
                    if a < before.len() {
                        first_pos_unique(names(self.entries@), q.0, a);
                    } else if q.0 == handle@ {
                        first_pos_unique(names(self.entries@), q.0, before.len() as int);
                    } else {
                        assert(first_pos(names(self.entries@), q.0) == self.entries@.len());
                    }
                }
                assert(table_pairs(self.entries@) =~= table_pairs(before).insert((handle@, root@)));
            }
            true
        }
    }
}

// ---- termination of the fixpoint ----

spec fn open_roots(name: Seq<char>, rs: Seq<Seq<char>>, g: GuardRel) -> nat
    decreases rs.len(),
{
    if rs.len() == 0 {
        0
    } else {
        open_roots(name, rs.drop_last(), g) + if g.contains((name, rs.last())) {
            0nat
        } else {
            1nat
        }
    }
}

spec fn open_pairs(cs: Seq<StmtV>, rs: Seq<Seq<char>>, g: GuardRel) -> nat
    decreases cs.len(),
{
    if cs.len() == 0 {
        0
    } else {
        open_pairs(cs.drop_last(), rs, g) + match binding(cs.last()) {
            Some((name, _)) => open_roots(name, rs, g),
            None => 0nat,
        }
    }
}

proof fn open_roots_shrinks(
    name: Seq<char>,
    rs: Seq<Seq<char>>,
    g: GuardRel,
    t: GuardRel,
    r: Seq<char>,
)
    requires
        g.subset_of(t),
    ensures
        open_roots(name, rs, t) <= open_roots(name, rs, g),
        rs.contains(r) && t.contains((name, r)) && !g.contains((name, r)) ==> open_roots(name, rs, t)
            < open_roots(name, rs, g),
    decreases rs.len(),
{
    if rs.len() > 0 {
        open_roots_shrinks(name, rs.drop_last(), g, t, r);
        if rs.contains(r) && r != rs.last() {
            let i = choose|i: int| 0 <= i < rs.len() && rs[i] == r;
            assert(rs.drop_last()[i] == r);
        }
    }
}

proof fn open_pairs_shrinks(
    cs: Seq<StmtV>,
    rs: Seq<Seq<char>>,
    g: GuardRel,
    t: GuardRel,
    j: int,
    r: Seq<char>,
)
    requires
        g.subset_of(t),
    ensures
        open_pairs(cs, rs, t) <= open_pairs(cs, rs, g),
        0 <= j < cs.len() && rs.contains(r) ==> (binding(cs[j]) matches Some((name, _)) ==> (
        t.contains((name, r)) && !g.contains((name, r)) ==> open_pairs(cs, rs, t) < open_pairs(
            cs,
            rs,
            g,
        ))),
    decreases cs.len(),
{
    if cs.len() > 0 {
        open_pairs_shrinks(cs.drop_last(), rs, g, t, j, r);
        if let Some((name, _)) = binding(cs.last()) {
            open_roots_shrinks(name, rs, g, t, r);
        }
        if 0 <= j < cs.len() - 1 {
            assert(cs.drop_last()[j] == cs[j]);
        }
    }
}

/// The roots that the handles mentioned in a value have.
pub open spec fn mentioned_roots(value: ExprV, g: GuardRel) -> Set<Seq<char>> {
    Set::new(|r: Seq<char>|
        exists|m: Seq<char>|
            ident_names(exprs(value)).contains(m) && #[trigger] g.contains((m, r)))
}

fn roots_mentioned(value: &Expr, g: &Guards) -> (r: NameSet)
    ensures
        r@ == mentioned_roots(value@, g@),
{
    let es = all_exprs(value);
    let mut refs = NameSet::new();
    collect_idents(&es, &mut refs);
    let ghost ids = ident_names(exprs(value@));
    assert(refs@ =~= ids);
    let items = refs.items();
    let ghost all = texts(items@);
    let mut out = NameSet::new();
    for i in 0..items.len()
        invariant
            all == texts(items@),
            lists(all, ids),
            forall|r: Seq<char>|
                out@.contains(r) <==> exists|j: int| 0 <= j < i && g@.contains((#[trigger] all[j], r)),
    {
        let ghost before = out@;
        let found = g.roots(items[i].as_str());
        assert(all[i as int] == items[i as int]@);
        out.extend(&found);
        assert forall|r: Seq<char>| out@.contains(r) <==> exists|j: int|
            0 <= j < i + 1 && g@.contains((#[trigger] all[j], r)) by {
            if g@.contains((all[i as int], r)) {
                assert(found@.contains(r));
            }
        }
    }
    proof {
        assert forall|r: Seq<char>| out@.contains(r) <==> mentioned_roots(value@, g@).contains(r) by {
            if mentioned_roots(value@, g@).contains(r) {
                let m = choose|m: Seq<char>| ids.contains(m) && #[trigger] g@.contains((m, r));
                assert(all.contains(m));
                let j = choose|j: int| 0 <= j < all.len() && all[j] == m;
                assert(g@.contains((all[j], r)));
            }
            if out@.contains(r) {
                let j = choose|j: int| 0 <= j < all.len() && g@.contains((#[trigger] all[j], r));
                assert(all.contains(all[j]));
                assert(ids.contains(all[j]));
            }
        }
        assert(out@ =~= mentioned_roots(value@, g@));
    }
    out
}

/// The locks that guard each handle of a scope whose shared names are `cowns`.
#[verifier::rlimit(50)]
pub fn guard_map(stmts: &Vec<Stmt>, cowns: &NameSet) -> (r: Guards)
    ensures
        r@ == guards_of(stmts_view(stmts@), cowns@),
{
    let cs = all_tree_stmts(stmts, true);
    let ghost all = stmt_refs(cs@);
    let mut guards = Guards::new();
    let items = cowns.items();
    let ghost rs = texts(items@);
    for i in 0..items.len()
        invariant
            rs == texts(items@),
            lists(rs, cowns@),
            forall|p: (Seq<char>, Seq<char>)|
                guards@.contains(p) ==> p.0 == p.1 && cowns@.contains(p.0),
            forall|j: int| 0 <= j < i ==> guards@.contains((#[trigger] rs[j], rs[j])),
    {
        assert(rs[i as int] == items[i as int]@);
        assert(rs.contains(rs[i as int]));
        guards.add_root(items[i].as_str(), items[i].as_str());
    }
    proof {
        assert forall|c: Seq<char>| #[trigger] cowns@.contains(c) implies guards@.contains((c, c)) by {
            assert(rs.contains(c));
            let j = choose|j: int| 0 <= j < rs.len() && rs[j] == c;
            assert(guards@.contains((rs[j], rs[j])));
        }
        assert forall|t: GuardRel| #[trigger] guard_closed(all, cowns@, t) implies guards@.subset_of(
            t,
        ) by {
            assert forall|p: (Seq<char>, Seq<char>)| guards@.contains(p) implies t.contains(p) by {
                assert(cowns@.contains(p.0));
                assert(p == (p.0, p.0));
            }
        }
    }
    let mut changed: bool = true;
    while changed
        invariant
            all == stmt_refs(cs@),
            all == tree_stmts(stmts_view(stmts@), true),
            lists(rs, cowns@),
            forall|c: Seq<char>| #[trigger] cowns@.contains(c) ==> guards@.contains((c, c)),
            forall|p: (Seq<char>, Seq<char>)| guards@.contains(p) ==> cowns@.contains(p.1),
            forall|t: GuardRel| #[trigger]
                guard_closed(all, cowns@, t) ==> guards@.subset_of(t),
            !changed ==> guard_closed(all, cowns@, guards@),
        decreases open_pairs(all, rs, guards@), (if changed { 1int } else { 0 }),
    {
        changed = false;
        let ghost start = guards@;
        for i in 0..cs.len()
            invariant
                all == stmt_refs(cs@),
                lists(rs, cowns@),
                start.subset_of(guards@),
                forall|c: Seq<char>| #[trigger] cowns@.contains(c) ==> guards@.contains((c, c)),
                forall|p: (Seq<char>, Seq<char>)| guards@.contains(p) ==> cowns@.contains(p.1),
                forall|t: GuardRel| #[trigger]
                    guard_closed(all, cowns@, t) ==> guards@.subset_of(t),
                changed ==> open_pairs(all, rs, guards@) < open_pairs(all, rs, start),
                !changed ==> guards@ == start && forall|j: int|
                    0 <= j < i ==> match binding(#[trigger] all[j]) {
                        Some((name, value)) => inherits(name, value, start),
                        None => true,
                    },
        {
            assert(all[i as int] == cs[i as int]@);
            if let Some((name, value)) = stmt_binding(cs[i]) {
                let ghost g0 = guards@;
                let roots = roots_mentioned(value, &guards);
                let items = roots.items();
                let ghost ms = texts(items@);
                proof {
                    open_pairs_shrinks(all, rs, start, g0, i as int, Seq::empty());
                    assert(binding(all[i as int]) == Some((name@, value@)));
                }
                for k in 0..items.len()
                    invariant
                        i < cs.len(),
                        all == stmt_refs(cs@),
                        lists(rs, cowns@),
                        ms == texts(items@),
                        lists(ms, mentioned_roots(value@, g0)),
                        binding(all[i as int]) == Some((name@, value@)),
                        start.subset_of(g0),
                        g0.subset_of(guards@),
                        open_pairs(all, rs, g0) <= open_pairs(all, rs, start),
                        open_pairs(all, rs, guards@) <= open_pairs(all, rs, g0),
                        forall|c: Seq<char>| #[trigger]
                            cowns@.contains(c) ==> guards@.contains((c, c)),
                        forall|p: (Seq<char>, Seq<char>)|
                            guards@.contains(p) ==> cowns@.contains(p.1),
                        forall|p: (Seq<char>, Seq<char>)| g0.contains(p) ==> cowns@.contains(p.1),
                        forall|t: GuardRel| #[trigger]
                            guard_closed(all, cowns@, t) ==> g0.subset_of(t) && guards@.subset_of(t),
                        changed ==> open_pairs(all, rs, guards@) < open_pairs(all, rs, start),
                        !changed ==> guards@ == g0 && g0 == start,
                        forall|j: int| 0 <= j < k ==> guards@.contains((name@, #[trigger] ms[j])),
                        !changed ==> forall|j: int|
                            0 <= j < i ==> match binding(#[trigger] all[j]) {
                                Some((name, value)) => inherits(name, value, start),
                                None => true,
                            },
                {
                    let ghost before = guards@;
                    let ghost r = ms[k as int];
                    assert(r == items[k as int]@);
                    proof {
                        assert(ms.contains(r));
                        assert(mentioned_roots(value@, g0).contains(r));
                        let m = choose|m: Seq<char>|
                            ident_names(exprs(value@)).contains(m)
                                && #[trigger] g0.contains((m, r));
                        assert(cowns@.contains((m, r).1));
                        assert(rs.contains(r));
                        assert forall|t: GuardRel| #[trigger]
                            guard_closed(all, cowns@, t) implies t.contains((name@, r)) by {
                            assert(t.contains((m, r)));
                            assert(inherits(name@, value@, t));
                        }
                    }
                    let fresh = guards.add_root(name, items[k].as_str());
                    proof {
                        open_pairs_shrinks(all, rs, before, guards@, i as int, r);
                        assert forall|t: GuardRel| #[trigger]
                            guard_closed(all, cowns@, t) implies guards@.subset_of(t) by {
                            assert(before.subset_of(t));
                            assert(t.contains((name@, r)));
                        }
                    }
                    if fresh {
                        changed = true;
                    } else {
                        assert(guards@ =~= before);
                    }
                }
                proof {
                    if !changed {
                        assert forall|m: Seq<char>, r: Seq<char>|
                            ident_names(exprs(value@)).contains(m)
                                && #[trigger] start.contains((m, r)) implies start.contains(
                            (name@, r),
                        ) by {
                            assert(mentioned_roots(value@, g0).contains(r));
                            assert(ms.contains(r));
                            let j = choose|j: int| 0 <= j < ms.len() && ms[j] == r;
                            assert(guards@.contains((name@, ms[j])));
                        }
                        assert(inherits(name@, value@, start));
                    }
                }
            }
        }
    }
    proof {
        assert(guard_closed(all, cowns@, guards@));
        assert(guards@ =~= guards_of(stmts_view(stmts@), cowns@));
    }
    guards
}

// ---- lock acquisition ----

/// A lock acquisition around `body`: for one root `with(c, (c) -> body)`, else
/// `_with_all(() -> body, c0, c1, ..)`.
pub open spec fn locked(body: ExprV, roots: Seq<Seq<char>>) -> ExprV {
    let span = body.span();
    if roots.len() == 1 {
        ExprV::Call(
            Box::new(ExprV::Ident("with"@, span)),
            seq![
                ArgV { expr: ExprV::Ident(roots[0], span) },
                ArgV {
                    expr: ExprV::Closure(
                        seq![ParamV { name: roots[0], ty: None, span }],
                        Box::new(body),
                        span,
                    ),
                },
            ],
            span,
        )
    } else {
        ExprV::Call(
            Box::new(ExprV::Ident("_with_all"@, span)),
            seq![ArgV { expr: ExprV::Closure(Seq::empty(), Box::new(body), span) }] + root_args(
                roots,
                span,
            ),
            span,
        )
    }
}

/// The roots as call arguments.
pub open spec fn root_args(roots: Seq<Seq<char>>, span: Span) -> Seq<ArgV> {
    Seq::new(roots.len(), |i: int| ArgV { expr: ExprV::Ident(roots[i], span) })
}

/// Build the lock acquisition around `body` for `roots`.
pub fn wrap_with(body: Expr, roots: &Vec<String>) -> (r: Expr)
    ensures
        r@ == locked(body@, texts(roots@)),
{
    let span = body.span();
    let ghost bv = body@;
    let ghost rv = texts(roots@);
    if roots.len() == 1 {
        let param = Param { name: roots[0].clone(), ty: None, span };
        let params = vec![param];
        assert(params_view(params@) =~= seq![ParamV { name: rv[0], ty: None, span }]);
        let closure = Expr::Closure(params, Box::new(body), span);
        let first = Arg { expr: Expr::Ident(roots[0].clone(), span) };
        let second = Arg { expr: closure };
        let args = vec![first, second];
        proof {
            assert(args_view(args@) =~= seq![first@, second@]);
            assert(second@.expr == closure@);
            assert(first@.expr == ExprV::Ident(rv[0], span));
        }
        let callee = Expr::Ident("with".to_owned(), span);
        assert(callee@ == ExprV::Ident("with"@, span));
        let r = Expr::Call(Box::new(callee), args, span);
        assert(r@ == locked(bv, rv));
        return r;
    }
    let none: Vec<Param> = Vec::new();
    assert(params_view(none@) =~= Seq::<ParamV>::empty());
    let closure = Expr::Closure(none, Box::new(body), span);
    let first = Arg { expr: closure };
    let ghost fv = first@;
    let mut args: Vec<Arg> = vec![first];
    assert(args_view(args@) =~= seq![fv] + root_args(rv, span).take(0));
    for i in 0..roots.len()
        invariant
            rv == texts(roots@),
            args_view(args@) == seq![fv] + root_args(rv, span).take(i as int),
    {
        let ghost before = args_view(args@);
        let arg = Arg { expr: Expr::Ident(roots[i].clone(), span) };
        let ghost nv = arg@;
        args.push(arg);
        proof {
            assert(args_view(args@) =~= before.push(nv));
            assert(nv == root_args(rv, span)[i as int]);
            assert(args_view(args@) =~= seq![fv] + root_args(rv, span).take(i + 1));
        }
    }
    assert(root_args(rv, span).take(roots.len() as int) =~= root_args(rv, span));
    let callee = Expr::Ident("_with_all".to_owned(), span);
    assert(callee@ == ExprV::Ident("_with_all"@, span));
    let r = Expr::Call(Box::new(callee), args, span);
    assert(r@ == locked(bv, rv));
    r
}

// ---- direct accesses ----

/// The concurrency built-ins, whose arguments are not dereferences.
pub open spec fn non_forwarding(callee: ExprV) -> bool {
    match callee {
        ExprV::Ident(n, _) => n == "with"@ || n == "_with_all"@ || n == "spawn"@ || n == "sync"@
            || n == "_cown"@ || n == "_freeze"@,
        _ => false,
    }
}

fn callee_is_non_forwarding(callee: &Expr) -> (r: bool)
    ensures
        r == non_forwarding(callee@),
{
    match callee {
        Expr::Ident(n, _) => {
            let n = n.as_str();
            str_eq(n, "with") || str_eq(n, "_with_all") || str_eq(n, "spawn") || str_eq(n, "sync")
                || str_eq(n, "_cown") || str_eq(n, "_freeze")
        },
        _ => false,
    }
}

/// The lock roots of a place.
pub open spec fn place_roots(e: ExprV, g: GuardRel) -> Set<Seq<char>> {
    match root_of(e) {
        Some(r) => roots_of(g, r),
        None => Set::empty(),
    }
}

fn place_guard_roots(e: &Expr, g: &Guards) -> (r: NameSet)
    ensures
        r@ == place_roots(e@, g@),
{
    match root_ident(e) {
        Some(n) => g.roots(n),
        None => NameSet::new(),
    }
}

/// The lock roots of a call argument: those of the place it is, if it is one.
pub open spec fn arg_roots(e: ExprV, g: GuardRel) -> Set<Seq<char>> {
    if e is Ident || e is SelfExpr || e is Field || e is Index {
        place_roots(e, g)
    } else {
        Set::empty()
    }
}

fn direct_arg_guard_roots(e: &Expr, g: &Guards) -> (r: NameSet)
    ensures
        r@ == arg_roots(e@, g@),
{
    match e {
        Expr::Ident(..) => place_guard_roots(e, g),
        Expr::SelfExpr(_) => place_guard_roots(e, g),
        Expr::Field(..) => place_guard_roots(e, g),
        Expr::Index(..) => place_guard_roots(e, g),
        _ => NameSet::new(),
    }
}

/// The lock roots of call arguments.
pub open spec fn args_roots(args: Seq<ArgV>, g: GuardRel) -> Set<Seq<char>>
    decreases args.len(),
{
    if args.len() == 0 {
        Set::empty()
    } else {
        args_roots(args.drop_last(), g).union(arg_roots(args.last().expr, g))
    }
}

fn args_guard_roots(v: &Vec<Arg>, g: &Guards) -> (r: NameSet)
    ensures
        r@ == args_roots(args_view(v@), g@),
{
    let mut out = NameSet::new();
    let ghost all = args_view(v@);
    for i in 0..v.len()
        invariant
            all == args_view(v@),
            out@ == args_roots(all.take(i as int), g@),
    {
        proof {
            assert(all.take(i + 1).drop_last() =~= all.take(i as int));
            assert(all.take(i + 1).last() == v[i as int]@);
            assert(v[i as int]@.expr == v[i as int].expr@);
        }
        let found = direct_arg_guard_roots(&v[i].expr, g);
        out.extend(&found);
    }
    assert(all.take(v.len() as int) =~= all);
    out
}

/// The lock roots that an expression directly dereferences: a method call those of
/// its receiver and arguments, a call those of its arguments, a field or element
/// read those of its base.
pub open spec fn direct_roots(e: ExprV, g: GuardRel) -> Set<Seq<char>> {
    match e {
        ExprV::Call(callee, args, _) => if non_forwarding(*callee) {
            Set::empty()
        } else {
            callee_roots(*callee, g).union(args_roots(args, g))
        },
        ExprV::Field(base, _, _) => place_roots(*base, g),
        ExprV::Index(base, _, _) => place_roots(*base, g),
        _ => Set::empty(),
    }
}

/// The lock roots of the receiver of a method call.
pub open spec fn callee_roots(callee: ExprV, g: GuardRel) -> Set<Seq<char>> {
    match callee {
        ExprV::Field(base, _, _) => place_roots(*base, g),
        _ => Set::empty(),
    }
}

fn callee_guard_roots(callee: &Expr, g: &Guards) -> (r: NameSet)
    ensures
        r@ == callee_roots(callee@, g@),
{
    match callee {
        Expr::Field(base, _, _) => place_guard_roots(base, g),
        _ => NameSet::new(),
    }
}

fn direct_guard_roots(e: &Expr, g: &Guards) -> (r: NameSet)
    ensures
        r@ == direct_roots(e@, g@),
{
    match e {
        Expr::Call(callee, args, _) => {
            if callee_is_non_forwarding(callee) {
                return NameSet::new();
            }
            let mut roots = callee_guard_roots(callee, g);
            let more = args_guard_roots(args, g);
            roots.extend(&more);
            roots
        },
        Expr::Field(base, _, _) => place_guard_roots(base, g),
        Expr::Index(base, _, _) => place_guard_roots(base, g),
        _ => NameSet::new(),
    }
}

// ---- rewriting ----

/// `e` under the locks it directly dereferences.
pub open spec fn under_locks(e: ExprV, g: GuardRel) -> ExprV {
    if direct_roots(e, g) == Set::<Seq<char>>::empty() {
        e
    } else {
        locked(e, in_order(direct_roots(e, g)))
    }
}

fn lock_direct(e: Expr, g: &Guards) -> (r: Expr)
    ensures
        r@ == under_locks(e@, g@),
{
    let roots = direct_guard_roots(&e, g);
    if roots.is_empty() {
        e
    } else {
        wrap_with(e, roots.items())
    }
}

/// `e` with every access to a guarded handle under its locks, inner accesses first.
pub open spec fn guarded(e: ExprV, g: GuardRel) -> ExprV
    decreases e, 1int,
{
    under_locks(guarded_children(e, g), g)
}

/// A place with the accesses inside it guarded, while the place itself is left to what
/// reaches through it.
pub open spec fn guarded_place(e: ExprV, g: GuardRel) -> ExprV
    decreases e, 2int,
{
    match e {
        ExprV::Field(a, n, span) => ExprV::Field(Box::new(guarded_place(*a, g)), n, span),
        ExprV::Index(a, b, span) => ExprV::Index(
            Box::new(guarded_place(*a, g)),
            Box::new(guarded(*b, g)),
            span,
        ),
        _ => guarded(e, g),
    }
}

/// A callee with the accesses inside it guarded; the receiver of a method is left to the
/// call.
pub open spec fn guarded_callee(e: ExprV, g: GuardRel) -> ExprV
    decreases e, 2int,
{
    match e {
        ExprV::Field(base, n, span) => ExprV::Field(Box::new(guarded_place(*base, g)), n, span),
        _ => guarded(e, g),
    }
}

/// `e` with the accesses inside its children guarded. The receiver of a method call
/// and arguments that are places of guarded handles are left to the call itself; what is
/// computed on the way to them is guarded.
pub open spec fn guarded_children(e: ExprV, g: GuardRel) -> ExprV
    decreases e, 0int,
{
    match e {
        ExprV::Call(callee, args, span) => {
            let c = guarded_callee(*callee, g);
            if non_forwarding(c) {
                ExprV::Call(Box::new(c), args, span)
            } else {
                ExprV::Call(Box::new(c), guarded_args(args, g), span)
            }
        },
        ExprV::Field(a, n, span) => ExprV::Field(Box::new(guarded(*a, g)), n, span),
        ExprV::Unary(op, a, span) => ExprV::Unary(op, Box::new(guarded(*a, g)), span),
        ExprV::ErrorProp(a, span) => ExprV::ErrorProp(Box::new(guarded(*a, g)), span),
        ExprV::Index(a, b, span) => ExprV::Index(
            Box::new(guarded(*a, g)),
            Box::new(guarded(*b, g)),
            span,
        ),
        ExprV::Range(a, b, span) => ExprV::Range(
            Box::new(guarded(*a, g)),
            Box::new(guarded(*b, g)),
            span,
        ),
        ExprV::Binary(op, a, b, span) => ExprV::Binary(
            op,
            Box::new(guarded(*a, g)),
            Box::new(guarded(*b, g)),
            span,
        ),
        ExprV::Array(es, span) => ExprV::Array(guarded_list(es, g), span),
        ExprV::TypeLit(n, fs, span) => ExprV::TypeLit(n, guarded_named(fs, g), span),
        ExprV::VariantLit(t, v, fs, span) => ExprV::VariantLit(t, v, guarded_named(fs, g), span),
        ExprV::Str(segs, span) => ExprV::Str(guarded_segs(segs, g), span),
        ExprV::Block(b, span) => ExprV::Block(
            BlockV { stmts: guarded_stmts(b.stmts, g), span: b.span },
            span,
        ),
        ExprV::If(c, t, els, span) => ExprV::If(
            Box::new(guarded(*c, g)),
            BlockV { stmts: guarded_stmts(t.stmts, g), span: t.span },
            match els {
                Some(x) => Some(Box::new(guarded(*x, g))),
                None => None,
            },
            span,
        ),
        ExprV::IfLet(p, c, t, els, span) => ExprV::IfLet(
            p,
            Box::new(guarded(*c, g)),
            BlockV { stmts: guarded_stmts(t.stmts, g), span: t.span },
            match els {
                Some(x) => Some(Box::new(guarded(*x, g))),
                None => None,
            },
            span,
        ),
        ExprV::Match(c, arms, span) => ExprV::Match(
            Box::new(guarded(*c, g)),
            guarded_arms(arms, g),
            span,
        ),
        _ => e,
    }
}

pub open spec fn guarded_arg(a: ArgV, g: GuardRel) -> ArgV
    decreases a, 0int,
{
    if arg_roots(a.expr, g) == Set::<Seq<char>>::empty() {
        ArgV { expr: guarded(a.expr, g) }
    } else {
        ArgV { expr: guarded_place(a.expr, g) }
    }
}

pub open spec fn guarded_seg(s: StrSegV, g: GuardRel) -> StrSegV
    decreases s, 0int,
{
    match s {
        StrSegV::Expr(e) => StrSegV::Expr(Box::new(guarded(*e, g))),
        StrSegV::Lit(t) => StrSegV::Lit(t),
    }
}

pub open spec fn guarded_arm(a: MatchArmV, g: GuardRel) -> MatchArmV
    decreases a, 0int,
{
    MatchArmV { pattern: a.pattern, body: guarded(a.body, g), span: a.span }
}

/// A store `target op= value` to a place with the given lock roots, under its locks.
pub open spec fn locked_store(
    target: ExprV,
    op: AssignOp,
    value: ExprV,
    span: Span,
    roots: Seq<Seq<char>>,
) -> StmtV {
    StmtV::Expr(
        locked(
            ExprV::Block(
                BlockV { stmts: seq![StmtV::Assign { target, op, value, span }], span },
                span,
            ),
            roots,
        ),
    )
}

/// A statement with every access to a guarded handle under its locks. A store to a
/// place of a guarded handle is locked as a whole.
pub open spec fn guarded_stmt(s: StmtV, g: GuardRel) -> StmtV
    decreases s, 0int,
{
    match s {
        StmtV::Let { pat, ty, value, is_const, span } => StmtV::Let {
            pat,
            ty,
            value: match value {
                Some(e) => Some(guarded(e, g)),
                None => None,
            },
            is_const,
            span,
        },
        StmtV::Assign { target, op, value, span } => if place_roots(target, g) == Set::<
            Seq<char>,
        >::empty() {
            StmtV::Assign { target: guarded(target, g), op, value: guarded(value, g), span }
        } else {
            locked_store(
                guarded_place(target, g),
                op,
                guarded(value, g),
                span,
                in_order(place_roots(target, g)),
            )
        },
        StmtV::Expr(e) => StmtV::Expr(guarded(e, g)),
        StmtV::While { cond, body, span } => StmtV::While {
            cond: guarded(cond, g),
            body: BlockV { stmts: guarded_stmts(body.stmts, g), span: body.span },
            span,
        },
        StmtV::For { var, iter, body, span } => StmtV::For {
            var,
            iter: guarded(iter, g),
            body: BlockV { stmts: guarded_stmts(body.stmts, g), span: body.span },
            span,
        },
        StmtV::Return(value, span) => StmtV::Return(
            match value {
                Some(e) => Some(guarded(e, g)),
                None => None,
            },
            span,
        ),
        _ => s,
    }
}

pub open spec fn guarded_args(ss: Seq<ArgV>, g: GuardRel) -> Seq<ArgV>
    decreases ss, 0int,
{
    if ss.len() == 0 {
        Seq::empty()
    } else {
        guarded_args(ss.drop_last(), g).push(guarded_arg(ss.last(), g))
    }
}

pub open spec fn guarded_list(ss: Seq<ExprV>, g: GuardRel) -> Seq<ExprV>
    decreases ss, 0int,
{
    if ss.len() == 0 {
        Seq::empty()
    } else {
        guarded_list(ss.drop_last(), g).push(guarded(ss.last(), g))
    }
}

pub open spec fn guarded_named(ss: Seq<(Seq<char>, ExprV)>, g: GuardRel) -> Seq<(Seq<char>, ExprV)>
    decreases ss, 0int,
{
    if ss.len() == 0 {
        Seq::empty()
    } else {
        guarded_named(ss.drop_last(), g).push((ss.last().0, guarded(ss.last().1, g)))
    }
}

pub open spec fn guarded_segs(ss: Seq<StrSegV>, g: GuardRel) -> Seq<StrSegV>
    decreases ss, 0int,
{
    if ss.len() == 0 {
        Seq::empty()
    } else {
        guarded_segs(ss.drop_last(), g).push(guarded_seg(ss.last(), g))
    }
}

pub open spec fn guarded_arms(ss: Seq<MatchArmV>, g: GuardRel) -> Seq<MatchArmV>
    decreases ss, 0int,
{
    if ss.len() == 0 {
        Seq::empty()
    } else {
        guarded_arms(ss.drop_last(), g).push(guarded_arm(ss.last(), g))
    }
}

pub open spec fn guarded_stmts(ss: Seq<StmtV>, g: GuardRel) -> Seq<StmtV>
    decreases ss, 0int,
{
    if ss.len() == 0 {
        Seq::empty()
    } else {
        guarded_stmts(ss.drop_last(), g).push(guarded_stmt(ss.last(), g))
    }
}

/// `expr` with every access to a guarded handle under its locks.
#[verifier::rlimit(50)]
pub fn guard_expr_accesses(expr: &Expr, g: &Guards) -> (r: Expr)
    ensures
        r@ == guarded(expr@, g@),
    decreases *expr, 1int,
{
    let c = guard_children(expr, g);
    lock_direct(c, g)
}

fn guard_place(e: &Expr, g: &Guards) -> (r: Expr)
    ensures
        r@ == guarded_place(e@, g@),
    decreases *e, 2int,
{
    match e {
        Expr::Field(a, n, span) => Expr::Field(Box::new(guard_place(a, g)), n.clone(), *span),
        Expr::Index(a, b, span) => Expr::Index(
            Box::new(guard_place(a, g)),
            Box::new(guard_expr_accesses(b, g)),
            *span,
        ),
        _ => guard_expr_accesses(e, g),
    }
}

fn guard_callee(e: &Expr, g: &Guards) -> (r: Expr)
    ensures
        r@ == guarded_callee(e@, g@),
    decreases *e, 2int,
{
    match e {
        Expr::Field(base, n, span) => Expr::Field(Box::new(guard_place(base, g)), n.clone(), *span),
        _ => guard_expr_accesses(e, g),
    }
}

fn guard_block(b: &Block, g: &Guards) -> (r: Block)
    ensures
        r@ == (BlockV { stmts: guarded_stmts(b@.stmts, g@), span: b@.span }),
    decreases *b, 0int,
{
    assert(b@.stmts == stmts_view(b.stmts@));
    let r = Block { stmts: guard_stmts(&b.stmts, g), span: b.span };
    assert(r@.stmts == stmts_view(r.stmts@));
    r
}

fn guard_opt(e: &Option<Box<Expr>>, g: &Guards) -> (r: Option<Box<Expr>>)
    ensures
        match *e {
            Some(x) => r is Some && r->Some_0@ == guarded(x@, g@),
            None => r is None,
        },
    decreases *e, 0int,
{
    match e {
        Some(x) => Some(Box::new(guard_expr_accesses(x, g))),
        None => None,
    }
}

#[verifier::rlimit(50)]
#[verifier::spinoff_prover]
fn guard_children(expr: &Expr, g: &Guards) -> (r: Expr)
    ensures
        r@ == guarded_children(expr@, g@),
    decreases *expr, 0int,
{
    match expr {
        Expr::Call(callee, args, span) => {
            let c = guard_callee(callee, g);
            if callee_is_non_forwarding(&c) {
                Expr::Call(Box::new(c), crate::ast::clone_args(args), *span)
            } else {
                Expr::Call(Box::new(c), guard_args(args, g), *span)
            }
        },
        Expr::Field(a, n, span) => Expr::Field(
            Box::new(guard_expr_accesses(a, g)),
            n.clone(),
            *span,
        ),
        Expr::Unary(op, a, span) => Expr::Unary(*op, Box::new(guard_expr_accesses(a, g)), *span),
        Expr::ErrorProp(a, span) => Expr::ErrorProp(Box::new(guard_expr_accesses(a, g)), *span),
        Expr::Index(a, b, span) => Expr::Index(
            Box::new(guard_expr_accesses(a, g)),
            Box::new(guard_expr_accesses(b, g)),
            *span,
        ),
        Expr::Range(a, b, span) => Expr::Range(
            Box::new(guard_expr_accesses(a, g)),
            Box::new(guard_expr_accesses(b, g)),
            *span,
        ),
        Expr::Binary(op, a, b, span) => Expr::Binary(
            *op,
            Box::new(guard_expr_accesses(a, g)),
            Box::new(guard_expr_accesses(b, g)),
            *span,
        ),
        Expr::Array(es, span) => Expr::Array(guard_list(es, g), *span),
        Expr::TypeLit(n, fs, span) => Expr::TypeLit(n.clone(), guard_named(fs, g), *span),
        Expr::VariantLit(t, v, fs, span) => Expr::VariantLit(
            t.clone(),
            v.clone(),
            guard_named(fs, g),
            *span,
        ),
        Expr::Str(segs, span) => Expr::Str(guard_segs(segs, g), *span),
        Expr::Block(b, span) => Expr::Block(guard_block(b, g), *span),
        Expr::If(c, t, els, span) => Expr::If(
            Box::new(guard_expr_accesses(c, g)),
            guard_block(t, g),
            guard_opt(els, g),
            *span,
        ),
        Expr::IfLet(p, c, t, els, span) => Expr::IfLet(
            clone_pattern(p),
            Box::new(guard_expr_accesses(c, g)),
            guard_block(t, g),
            guard_opt(els, g),
            *span,
        ),
        Expr::Match(c, arms, span) => Expr::Match(
            Box::new(guard_expr_accesses(c, g)),
            guard_arms(arms, g),
            *span,
        ),
        _ => clone_expr(expr),
    }
}

fn guard_arg(a: &Arg, g: &Guards) -> (r: Arg)
    ensures
        r@ == guarded_arg(a@, g@),
    decreases *a, 0int,
{
    assert(a@.expr == a.expr@);
    let roots = direct_arg_guard_roots(&a.expr, g);
    if roots.is_empty() {
        let r = Arg { expr: guard_expr_accesses(&a.expr, g) };
        assert(r@.expr == r.expr@);
        r
    } else {
        let r = Arg { expr: guard_place(&a.expr, g) };
        assert(r@.expr == r.expr@);
        r
    }
}

fn guard_seg(s: &StrSeg, g: &Guards) -> (r: StrSeg)
    ensures
        r@ == guarded_seg(s@, g@),
    decreases *s, 0int,
{
    match s {
        StrSeg::Expr(e) => StrSeg::Expr(Box::new(guard_expr_accesses(e, g))),
        StrSeg::Lit(t) => StrSeg::Lit(t.clone()),
    }
}

fn guard_arm(a: &MatchArm, g: &Guards) -> (r: MatchArm)
    ensures
        r@ == guarded_arm(a@, g@),
    decreases *a, 0int,
{
    MatchArm {
        pattern: clone_pattern(&a.pattern),
        body: guard_expr_accesses(&a.body, g),
        span: a.span,
    }
}

fn guard_assign(target: Expr, op: AssignOp, value: Expr, span: Span, roots: &NameSet) -> (r: Stmt)
    ensures
        r@ == locked_store(target@, op, value@, span, in_order(roots@)),
{
    let store = Stmt::Assign { target, op, value, span };
    let ghost sv = store@;
    let block = Block { stmts: vec![store], span };
    assert(block@.stmts =~= seq![sv]);
    let body = Expr::Block(block, span);
    assert(body@ == ExprV::Block(BlockV { stmts: seq![sv], span }, span));
    Stmt::Expr(wrap_with(body, roots.items()))
}

/// A statement with every access to a guarded handle under its locks.
#[verifier::rlimit(50)]
pub fn guard_stmt_accesses(s: &Stmt, g: &Guards) -> (r: Stmt)
    ensures
        r@ == guarded_stmt(s@, g@),
    decreases *s, 0int,
{
    match s {
        Stmt::Let { pat, ty, value, is_const, span } => Stmt::Let {
            pat: clone_pattern(pat),
            ty: match ty {
                Some(t) => Some(clone_type_expr(t)),
                None => None,
            },
            value: match value {
                Some(e) => Some(guard_expr_accesses(e, g)),
                None => None,
            },
            is_const: *is_const,
            span: *span,
        },
        Stmt::Assign { target, op, value, span } => {
            let roots = place_guard_roots(target, g);
            if roots.is_empty() {
                Stmt::Assign {
                    target: guard_expr_accesses(target, g),
                    op: *op,
                    value: guard_expr_accesses(value, g),
                    span: *span,
                }
            } else {
                let v = guard_expr_accesses(value, g);
                guard_assign(guard_place(target, g), *op, v, *span, &roots)
            }
        },
        Stmt::Expr(e) => Stmt::Expr(guard_expr_accesses(e, g)),
        Stmt::While { cond, body, span } => Stmt::While {
            cond: guard_expr_accesses(cond, g),
            body: guard_block(body, g),
            span: *span,
        },
        Stmt::For { var, iter, body, span } => Stmt::For {
            var: var.clone(),
            iter: guard_expr_accesses(iter, g),
            body: guard_block(body, g),
            span: *span,
        },
        Stmt::Return(value, span) => Stmt::Return(
            match value {
                Some(e) => Some(guard_expr_accesses(e, g)),
                None => None,
            },
            *span,
        ),
        _ => clone_stmt(s),
    }
}

fn guard_args(v: &Vec<Arg>, g: &Guards) -> (r: Vec<Arg>)
    ensures
        args_view(r@) == guarded_args(args_view(v@), g@),
    decreases *v, 0int,
{
    let mut out: Vec<Arg> = Vec::new();
    let ghost all = args_view(v@);
    assert(args_view(out@) =~= guarded_args(all.take(0), g@));
    for i in 0..v.len()
        invariant
            all == args_view(v@),
            args_view(out@) == guarded_args(all.take(i as int), g@),
    {
        proof {
            assert(all.take(i + 1).drop_last() =~= all.take(i as int));
            assert(all.take(i + 1).last() == v[i as int]@);
        }
        let ghost before = args_view(out@);
        let x = guard_arg(&v[i], g);
        let ghost xv = x@;
        out.push(x);
        assert(args_view(out@) =~= before.push(xv));
    }
    assert(all.take(v.len() as int) =~= all);
    out
}

fn guard_list(v: &Vec<Expr>, g: &Guards) -> (r: Vec<Expr>)
    ensures
        exprs_view(r@) == guarded_list(exprs_view(v@), g@),
    decreases *v, 0int,
{
    let mut out: Vec<Expr> = Vec::new();
    let ghost all = exprs_view(v@);
    assert(exprs_view(out@) =~= guarded_list(all.take(0), g@));
    for i in 0..v.len()
        invariant
            all == exprs_view(v@),
            exprs_view(out@) == guarded_list(all.take(i as int), g@),
    {
        proof {
            assert(all.take(i + 1).drop_last() =~= all.take(i as int));
            assert(all.take(i + 1).last() == v[i as int]@);
        }
        let ghost before = exprs_view(out@);
        let x = guard_expr_accesses(&v[i], g);
        let ghost xv = x@;
        out.push(x);
        assert(exprs_view(out@) =~= before.push(xv));
    }
    assert(all.take(v.len() as int) =~= all);
    out
}

fn guard_named(v: &Vec<(String, Expr)>, g: &Guards) -> (r: Vec<(String, Expr)>)
    ensures
        named_exprs_view(r@) == guarded_named(named_exprs_view(v@), g@),
    decreases *v, 0int,
{
    let mut out: Vec<(String, Expr)> = Vec::new();
    let ghost all = named_exprs_view(v@);
    assert(named_exprs_view(out@) =~= guarded_named(all.take(0), g@));
    for i in 0..v.len()
        invariant
            all == named_exprs_view(v@),
            named_exprs_view(out@) == guarded_named(all.take(i as int), g@),
    {
        proof {
            assert(all.take(i + 1).drop_last() =~= all.take(i as int));
            assert(all.take(i + 1).last() == (v[i as int].0@, v[i as int].1@));
        }
        let ghost before = named_exprs_view(out@);
        let x = (v[i].0.clone(), guard_expr_accesses(&v[i].1, g));
        let ghost xv = (x.0@, x.1@);
        out.push(x);
        assert(named_exprs_view(out@) =~= before.push(xv));
    }
    assert(all.take(v.len() as int) =~= all);
    out
}

fn guard_segs(v: &Vec<StrSeg>, g: &Guards) -> (r: Vec<StrSeg>)
    ensures
        str_segs_view(r@) == guarded_segs(str_segs_view(v@), g@),
    decreases *v, 0int,
{
    let mut out: Vec<StrSeg> = Vec::new();
    let ghost all = str_segs_view(v@);
    assert(str_segs_view(out@) =~= guarded_segs(all.take(0), g@));
    for i in 0..v.len()
        invariant
            all == str_segs_view(v@),
            str_segs_view(out@) == guarded_segs(all.take(i as int), g@),
    {
        proof {
            assert(all.take(i + 1).drop_last() =~= all.take(i as int));
            assert(all.take(i + 1).last() == v[i as int]@);
        }
        let ghost before = str_segs_view(out@);
        let x = guard_seg(&v[i], g);
        let ghost xv = x@;
        out.push(x);
        assert(str_segs_view(out@) =~= before.push(xv));
    }
    assert(all.take(v.len() as int) =~= all);
    out
}

fn guard_arms(v: &Vec<MatchArm>, g: &Guards) -> (r: Vec<MatchArm>)
    ensures
        match_arms_view(r@) == guarded_arms(match_arms_view(v@), g@),
    decreases *v, 0int,
{
    let mut out: Vec<MatchArm> = Vec::new();
    let ghost all = match_arms_view(v@);
    assert(match_arms_view(out@) =~= guarded_arms(all.take(0), g@));
    for i in 0..v.len()
        invariant
            all == match_arms_view(v@),
            match_arms_view(out@) == guarded_arms(all.take(i as int), g@),
    {
        proof {
            assert(all.take(i + 1).drop_last() =~= all.take(i as int));
            assert(all.take(i + 1).last() == v[i as int]@);
        }
        let ghost before = match_arms_view(out@);
        let x = guard_arm(&v[i], g);
        let ghost xv = x@;
        out.push(x);
        assert(match_arms_view(out@) =~= before.push(xv));
    }
    assert(all.take(v.len() as int) =~= all);
    out
}

pub fn guard_stmts(v: &Vec<Stmt>, g: &Guards) -> (r: Vec<Stmt>)
    ensures
        stmts_view(r@) == guarded_stmts(stmts_view(v@), g@),
    decreases *v, 0int,
{
    let mut out: Vec<Stmt> = Vec::new();
    let ghost all = stmts_view(v@);
    assert(stmts_view(out@) =~= guarded_stmts(all.take(0), g@));
    for i in 0..v.len()
        invariant
            all == stmts_view(v@),
            stmts_view(out@) == guarded_stmts(all.take(i as int), g@),
    {
        proof {
            assert(all.take(i + 1).drop_last() =~= all.take(i as int));
            assert(all.take(i + 1).last() == v[i as int]@);
        }
        let ghost before = stmts_view(out@);
        let x = guard_stmt_accesses(&v[i], g);
        let ghost xv = x@;
        out.push(x);
        assert(stmts_view(out@) =~= before.push(xv));
    }
    assert(all.take(v.len() as int) =~= all);
    out
}

} // verus!
