//! Which parameters of each function end up captured by a task: a caller that
//! passes a local there has to guard it as if it spawned the task itself.

use vstd::prelude::*;
use std::collections::HashSet;
use crate::ast::{args_view, expr_view, stmts_view, Arg, ArgV, Block, Expr, ExprV, Stmt, StmtV};
use crate::closure::{binds, own_names, closures_view};
use crate::mutation::{root_of, rooted_at};
use crate::names::NameSet;
use crate::positions::{is_recorded, no_empty_entry, open_positions, open_positions_shrinks, record, recorded, Positions};
use crate::spawn::{captured, captures, each_scope_site, site_size, sites, size};
use crate::table::{first_pos, first_pos_unique};
use crate::text::{str_eq, texts};
use crate::traverse::{all_stmts_exprs, expr_refs, stmts_exprs};

verus! {

broadcast use vstd::std_specs::hash::group_hash_axioms;

/// For each function or method name, the parameter indices (`self` counts as the
/// first of a method) whose argument a task reachable inside captures. Functions of
/// the same name share one entry.
pub type SpawnSummaries = Vec<(String, HashSet<usize>)>;

// ---- tasks of tasks ----

/// The names captured by the tasks of the first `k` sites of a scope and by the
/// tasks spawned inside them.
pub open spec fn task_captures_upto(ss: Seq<StmtV>, k: int) -> Set<Seq<char>>
    decreases size(ss), k,
{
    if k <= 0 || k > sites(ss).len() {
        Set::empty()
    } else {
        proof {
            site_size(ss, k - 1);
        }
        let site = sites(ss)[k - 1];
        task_captures_upto(ss, k - 1).union(captures(site.1.stmts, binds(site.0, site.1.stmts))).union(
            task_captures_upto(site.1.stmts, sites(site.1.stmts).len() as int),
        )
    }
}

/// The names captured by any task reachable in a scope.
pub open spec fn task_captures(ss: Seq<StmtV>) -> Set<Seq<char>> {
    task_captures_upto(ss, sites(ss).len() as int)
}

/// Add the names captured by any task reachable in a scope.
pub fn each_scope_spawn_body(stmts: &Vec<Stmt>, out: &mut NameSet)
    ensures
        final(out)@ == old(out)@.union(task_captures(stmts_view(stmts@))),
    decreases size(stmts_view(stmts@)),
{
    let ghost start = out@;
    let ghost ss = stmts_view(stmts@);
    let found = each_scope_site(stmts);
    assert(out@ =~= start.union(task_captures_upto(ss, 0)));
    for k in 0..found.len()
        invariant
            ss == stmts_view(stmts@),
            closures_view(found@) == sites(ss),
            out@ == start.union(task_captures_upto(ss, k as int)),
    {
        proof {
            site_size(ss, k as int);
            assert(sites(ss)[k as int] == (crate::ast::params_view(found[k as int].0@), found[k as int].1@));
            assert(found[k as int].1@.stmts == stmts_view(found[k as int].1.stmts@));
        }
        let bound = own_names(&found[k].0, &found[k].1);
        let caps = captured(&found[k].1, &bound);
        out.extend(&caps);
        each_scope_spawn_body(&found[k].1.stmts, out);
        assert(out@ =~= start.union(task_captures_upto(ss, k + 1)));
    }
}

// ---- calls ----

/// The name, receiver and arguments of a call: `g(a)` calls `g`; `r.m(a)` calls `m`
/// with receiver `r`.
pub open spec fn call_parts(e: ExprV) -> Option<(Seq<char>, Option<ExprV>, Seq<ArgV>)> {
    match e {
        ExprV::Call(callee, args, _) => match *callee {
            ExprV::Ident(name, _) => Some((name, None, args)),
            ExprV::Field(base, method, _) => Some((method, Some(*base), args)),
            _ => None,
        },
        _ => None,
    }
}

/// The value at position `j` of a call, the receiver counting as the first.
pub open spec fn value_at(recv: Option<ExprV>, args: Seq<ArgV>, j: int) -> Option<ExprV> {
    match recv {
        Some(r) => if j == 0 {
            Some(r)
        } else if 0 < j <= args.len() {
            Some(args[j - 1].expr)
        } else {
            None
        },
        None => if 0 <= j < args.len() {
            Some(args[j].expr)
        } else {
            None
        },
    }
}

/// Whether position `j` of a call is in `w` and holds a place rooted at `n`.
pub open spec fn handed_at(
    name: Seq<char>,
    recv: Option<ExprV>,
    args: Seq<ArgV>,
    n: Seq<char>,
    w: Positions,
    j: usize,
) -> bool {
    w.contains((name, j)) && match value_at(recv, args, j as int) {
        Some(v) => root_of(v) == Some(n),
        None => false,
    }
}

/// Whether `e` passes a place rooted at `n` into a position of `w`.
pub open spec fn hands_over(e: ExprV, n: Seq<char>, w: Positions) -> bool {
    match call_parts(e) {
        Some((name, recv, args)) => some_handed(name, recv, args, n, w),
        None => false,
    }
}

/// Whether some position of a call is in `w` and holds a place rooted at `n`.
pub open spec fn some_handed(
    name: Seq<char>,
    recv: Option<ExprV>,
    args: Seq<ArgV>,
    n: Seq<char>,
    w: Positions,
) -> bool {
    exists|j: usize| #[trigger] handed_at(name, recv, args, n, w, j)
}

fn args_hand_over(
    name: &str,
    recv: Option<&Expr>,
    args: &Vec<Arg>,
    n: &str,
    table: &SpawnSummaries,
) -> (r: bool)
    ensures
        r == some_handed(
            name@,
            crate::spawn::opt_expr(recv),
            args_view(args@),
            n@,
            recorded(table@),
        ),
{
    let ghost w = recorded(table@);
    let ghost rv = crate::spawn::opt_expr(recv);
    let ghost av = args_view(args@);
    match recv {
        Some(e) => {
            if is_recorded(table, name, 0) && rooted_at(e, n) {
                assert(handed_at(name@, rv, av, n@, w, 0));
                return true;
            }
            assert(!handed_at(name@, rv, av, n@, w, 0));
        },
        None => {},
    }
    for i in 0..args.len()
        invariant
            w == recorded(table@),
            rv == crate::spawn::opt_expr(recv),
            av == args_view(args@),
            rv is Some ==> !handed_at(name@, rv, av, n@, w, 0),
            forall|j: usize|
                (if rv is Some { 1 <= j <= i } else { j < i }) ==> !(#[trigger] handed_at(
                    name@,
                    rv,
                    av,
                    n@,
                    w,
                    j,
                )),
    {
        assert(av[i as int] == args[i as int]@);
        assert(args[i as int]@.expr == args[i as int].expr@);
        if rooted_at(&args[i].expr, n) {
            let j: usize = if recv.is_some() {
                i + 1
            } else {
                i
            };
            if is_recorded(table, name, j) {
                assert(handed_at(name@, rv, av, n@, w, j));
                return true;
            }
        }
    }
    assert forall|j: usize| !(#[trigger] handed_at(name@, rv, av, n@, w, j)) by {
        assert(av.len() == args.len());
    }
    false
}

/// Whether `e` passes a place rooted at `n` into a position the table records.
pub fn call_hands_over(e: &Expr, n: &str, table: &SpawnSummaries) -> (r: bool)
    ensures
        r == hands_over(e@, n@, recorded(table@)),
{
    match e {
        Expr::Call(callee, args, _) => {
            proof {
                reveal_with_fuel(expr_view, 2);
            }
            match &**callee {
                Expr::Ident(name, _) => args_hand_over(name.as_str(), None, args, n, table),
                Expr::Field(base, method, _) => args_hand_over(
                    method.as_str(),
                    Some(&**base),
                    args,
                    n,
                    table,
                ),
                _ => false,
            }
        },
        _ => false,
    }
}

/// Whether some expression passes a place rooted at `n` into a position of `w`.
pub open spec fn some_hands_over(es: Seq<ExprV>, n: Seq<char>, w: Positions) -> bool {
    exists|k: int| 0 <= k < es.len() && hands_over(#[trigger] es[k], n, w)
}

/// Whether some expression passes a place rooted at `n` into a position the table
/// records.
pub fn any_hands_over(es: &Vec<&Expr>, n: &str, table: &SpawnSummaries) -> (r: bool)
    ensures
        r == some_hands_over(expr_refs(es@), n@, recorded(table@)),
{
    let ghost all = expr_refs(es@);
    for k in 0..es.len()
        invariant
            all == expr_refs(es@),
            forall|j: int| 0 <= j < k ==> !hands_over(#[trigger] all[j], n@, recorded(table@)),
    {
        assert(all[k as int] == es[k as int]@);
        if call_hands_over(es[k], n, table) {
            return true;
        }
    }
    false
}

// ---- summaries ----

/// A function as the summaries see it.
pub ghost struct FnV {
    pub name: Seq<char>,
    pub params: Seq<Seq<char>>,
    pub body: Seq<StmtV>,
}

pub open spec fn fns_view(v: Seq<(String, Vec<String>, &Block)>) -> Seq<FnV> {
    Seq::new(
        v.len(),
        |i: int| FnV { name: v[i].0@, params: texts(v[i].1@), body: v[i].2@.stmts },
    )
}

/// Whether a task captures parameter `i` of `f`, given the positions `w`: a task
/// reachable in the body captures it, or the body passes a place rooted at it into a
/// position of `w`. Of two parameters with one name the first counts.
pub open spec fn captured_given(f: FnV, i: int, w: Positions) -> bool {
    first_pos(f.params, f.params[i]) == i && (task_captures(f.body).contains(f.params[i])
        || some_hands_over(stmts_exprs(f.body), f.params[i], w))
}

/// Whether `w` holds every position captured given `w` itself.
pub open spec fn capture_closed(fns: Seq<FnV>, w: Positions) -> bool {
    forall|k: int, i: usize|
        #![trigger fns[k].params[i as int]]
        0 <= k < fns.len() && i < fns[k].params.len() && captured_given(fns[k], i as int, w)
            ==> w.contains((fns[k].name, i))
}

/// Whether `w` is contained in every closed set of positions.
pub open spec fn below_all_captures(fns: Seq<FnV>, w: Positions) -> bool {
    forall|t: Positions| #[trigger] capture_closed(fns, t) ==> w.subset_of(t)
}

/// Whether `w` is the least closed set of positions.
pub open spec fn summary_of(fns: Seq<FnV>, w: Positions) -> bool {
    capture_closed(fns, w) && below_all_captures(fns, w)
}

/// There is only one summary of given functions.
pub proof fn summary_unique(fns: Seq<FnV>, a: Positions, b: Positions)
    requires
        summary_of(fns, a),
        summary_of(fns, b),
    ensures
        a == b,
{
    assert(a.subset_of(b));
    assert(b.subset_of(a));
    assert(a =~= b);
}

proof fn hands_over_grows(es: Seq<ExprV>, n: Seq<char>, w: Positions, t: Positions)
    requires
        w.subset_of(t),
        some_hands_over(es, n, w),
    ensures
        some_hands_over(es, n, t),
{
    let k = choose|k: int| 0 <= k < es.len() && hands_over(#[trigger] es[k], n, w);
    let p = call_parts(es[k])->Some_0;
    let j = choose|j: usize| #[trigger] handed_at(p.0, p.1, p.2, n, w, j);
    assert(handed_at(p.0, p.1, p.2, n, t, j));
    assert(hands_over(es[k], n, t));
}

spec fn fn_slots(fns: Seq<FnV>) -> Seq<(Seq<char>, nat)> {
    Seq::new(fns.len(), |k: int| (fns[k].name, fns[k].params.len()))
}

fn is_first(params: &Vec<String>, i: usize) -> (r: bool)
    requires
        i < params.len(),
    ensures
        r == (first_pos(texts(params@), texts(params@)[i as int]) == i),
{
    let ghost all = texts(params@);
    let mut j: usize = 0;
    while j < i && !str_eq(params[j].as_str(), params[i].as_str())
        invariant
            j <= i < params.len(),
            all == texts(params@),
            forall|m: int| 0 <= m < j ==> all[m] != all[i as int],
        decreases i - j,
    {
        assert(all[j as int] == params[j as int]@);
        assert(all[i as int] == params[i as int]@);
        j += 1;
    }
    proof {
        assert(all[j as int] == params[j as int]@);
        assert(all[i as int] == params[i as int]@);
        first_pos_unique(all, all[i as int], j as int);
    }
    j == i
}

/// Which parameters of each function, given by name, parameter names and body, a
/// task captures: directly, or through a call into such a parameter. The least
/// fixpoint over the call graph.
#[verifier::rlimit(50)]
pub fn spawn_capture_summaries(fns: &Vec<(String, Vec<String>, &Block)>) -> (r: SpawnSummaries)
    ensures
        summary_of(fns_view(fns@), recorded(r@)),
        no_empty_entry(r@),
{
    let ghost fv = fns_view(fns@);
    let mut direct: Vec<NameSet> = Vec::new();
    for k in 0..fns.len()
        invariant
            fv == fns_view(fns@),
            direct.len() == k,
            forall|m: int| 0 <= m < k ==> (#[trigger] direct[m])@ == task_captures(fv[m].body),
    {
        let mut caps = NameSet::new();
        proof {
            assert(fv[k as int].body == stmts_view(fns[k as int].2.stmts@));
        }
        each_scope_spawn_body(&fns[k].2.stmts, &mut caps);
        assert(caps@ =~= task_captures(fv[k as int].body));
        direct.push(caps);
    }
    let mut table: SpawnSummaries = Vec::new();
    let mut changed: bool = true;
    assert(recorded(table@) =~= Set::<(Seq<char>, usize)>::empty());
    while changed
        invariant
            fv == fns_view(fns@),
            direct.len() == fns.len(),
            forall|m: int| 0 <= m < fv.len() ==> (#[trigger] direct[m])@ == task_captures(fv[m].body),
            no_empty_entry(table@),
            below_all_captures(fv, recorded(table@)),
            !changed ==> capture_closed(fv, recorded(table@)),
        decreases open_positions(fn_slots(fv), recorded(table@)), (if changed { 1int } else { 0 }),
    {
        changed = false;
        let ghost start = recorded(table@);
        for k in 0..fns.len()
            invariant
                fv == fns_view(fns@),
                direct.len() == fns.len(),
                forall|m: int|
                    0 <= m < fv.len() ==> (#[trigger] direct[m])@ == task_captures(fv[m].body),
                no_empty_entry(table@),
                below_all_captures(fv, recorded(table@)),
                start.subset_of(recorded(table@)),
                changed ==> open_positions(fn_slots(fv), recorded(table@)) < open_positions(
                    fn_slots(fv),
                    start,
                ),
                !changed ==> recorded(table@) == start && forall|m: int, i: usize|
                    #![trigger fv[m].params[i as int]]
                    0 <= m < k && i < fv[m].params.len() && captured_given(fv[m], i as int, start)
                        ==> start.contains((fv[m].name, i)),
        {
            let es = all_stmts_exprs(&fns[k].2.stmts);
            let params = &fns[k].1;
            let ghost f = fv[k as int];
            proof {
                assert(f.body == stmts_view(fns[k as int].2.stmts@));
                assert(expr_refs(es@) == stmts_exprs(f.body));
            }
            for i in 0..params.len()
                invariant
                    k < fns.len(),
                    fv == fns_view(fns@),
                    f == fv[k as int],
                    f.params == texts(params@),
                    f.name == fns[k as int].0@,
                    expr_refs(es@) == stmts_exprs(f.body),
                    direct.len() == fns.len(),
                    direct[k as int]@ == task_captures(f.body),
                    no_empty_entry(table@),
                    below_all_captures(fv, recorded(table@)),
                    start.subset_of(recorded(table@)),
                    changed ==> open_positions(fn_slots(fv), recorded(table@)) < open_positions(
                        fn_slots(fv),
                        start,
                    ),
                    !changed ==> recorded(table@) == start && (forall|m: int, j: usize|
                        #![trigger fv[m].params[j as int]]
                        0 <= m < k && j < fv[m].params.len() && captured_given(
                            fv[m],
                            j as int,
                            start,
                        ) ==> start.contains((fv[m].name, j))) && (forall|j: usize|
                        #![trigger f.params[j as int]]
                        j < i && captured_given(f, j as int, start) ==> start.contains((f.name, j))),
            {
                let name = fns[k].0.as_str();
                assert(f.params[i as int] == params[i as int]@);
                if !is_recorded(&table, name, i) {
                    let hit = is_first(params, i) && (direct[k].contains(params[i].as_str())
                        || any_hands_over(&es, params[i].as_str(), &table));
                    assert(hit == captured_given(f, i as int, recorded(table@)));
                    if hit {
                        let ghost before = recorded(table@);
                        record(&mut table, name, i);
                        changed = true;
                        proof {
                            open_positions_shrinks(
                                fn_slots(fv),
                                before,
                                recorded(table@),
                                k as int,
                                i,
                            );
                            open_positions_shrinks(fn_slots(fv), start, before, k as int, i);
                            assert forall|t: Positions| #[trigger]
                                capture_closed(fv, t) implies recorded(table@).subset_of(t) by {
                                assert(before.subset_of(t));
                                if !task_captures(f.body).contains(f.params[i as int]) {
                                    hands_over_grows(
                                        stmts_exprs(f.body),
                                        f.params[i as int],
                                        before,
                                        t,
                                    );
                                }
                                assert(captured_given(fv[k as int], i as int, t));
                                assert(t.contains((f.name, i)));
                            }
                        }
                    }
                }
            }
        }
    }
    table
}

} // verus!
