//! Tables of parameter positions, and how many positions such a table leaves out.

use vstd::prelude::*;
use std::collections::HashSet;
use crate::table::{find_key, first_pos, first_pos_facts, first_pos_unique, names};

verus! {

broadcast use vstd::std_specs::hash::group_hash_axioms;

/// Parameter positions, each by the storage symbol of its function and its index.
pub type Positions = Set<(Seq<char>, usize)>;

/// The positions a table records.
pub open spec fn recorded(v: Seq<(String, HashSet<usize>)>) -> Positions {
    Set::new(|q: (Seq<char>, usize)| {
        let k = first_pos(names(v), q.0);
        k < v.len() && v[k].1@.contains(q.1)
    })
}

/// Every entry of the table records some position.
pub open spec fn no_empty_entry(v: Seq<(String, HashSet<usize>)>) -> bool {
    forall|k: int| 0 <= k < v.len() ==> nonempty((#[trigger] v[k]).1@)
}

/// Whether a set of indices has a member.
pub open spec fn nonempty(s: Set<usize>) -> bool {
    exists|i: usize| s.contains(i)
}

/// Whether the table records position `i` of `symbol`.
pub fn is_recorded(v: &Vec<(String, HashSet<usize>)>, symbol: &str, i: usize) -> (r: bool)
    ensures
        r == recorded(v@).contains((symbol@, i)),
{
    let k = find_key(v, symbol);
    k < v.len() && v[k].1.contains(&i)
}

/// Record position `i` of `symbol`.
pub fn record(v: &mut Vec<(String, HashSet<usize>)>, symbol: &str, i: usize)
    requires
        no_empty_entry(old(v)@),
    ensures
        recorded(final(v)@) == recorded(old(v)@).insert((symbol@, i)),
        no_empty_entry(final(v)@),
{
    let k = find_key(v, symbol);
    let ghost before = v@;
    proof {
        first_pos_facts(names(before), symbol@);
    }
    if k < v.len() {
        v[k].1.insert(i);
        proof {
            assert(names(v@) =~= names(before));
            assert(v@[k as int].1@ == before[k as int].1@.insert(i));
            assert forall|q: (Seq<char>, usize)| recorded(v@).contains(q) == recorded(
                before,
            ).insert((symbol@, i)).contains(q) by {
                first_pos_facts(names(before), q.0);
            }
            assert(recorded(v@) =~= recorded(before).insert((symbol@, i)));
            assert forall|j: int| 0 <= j < v@.len() implies nonempty((#[trigger] v@[j]).1@) by {
                if j != k {
                    assert(v@[j] == before[j]);
                } else {
                    assert(v@[j].1@.contains(i));
                }
            }
        }
    } else {
        let mut s: HashSet<usize> = HashSet::new();
        s.insert(i);
        v.push((symbol.to_string(), s));
        proof {
            assert(v@[k as int].1@ =~= Set::<usize>::empty().insert(i));
            assert(names(v@) =~= names(before).push(symbol@));
            assert forall|q: (Seq<char>, usize)| recorded(v@).contains(q) == recorded(
                before,
            ).insert((symbol@, i)).contains(q) by {
                first_pos_facts(names(before), q.0);
                first_pos_facts(names(v@), q.0);
                let a = first_pos(names(before), q.0);
                if a < before.len() {
                    first_pos_unique(names(v@), q.0, a);
                } else if q.0 == symbol@ {
                    first_pos_unique(names(v@), q.0, before.len() as int);
                } else {
                    assert(first_pos(names(v@), q.0) == v@.len());
                }
            }
            assert(recorded(v@) =~= recorded(before).insert((symbol@, i)));
            assert forall|j: int| 0 <= j < v@.len() implies nonempty((#[trigger] v@[j]).1@) by {
                if j < before.len() {
                    assert(v@[j] == before[j]);
                } else {
                    assert(v@[j].1@.contains(i));
                }
            }
        }
    }
}

// ---- termination ----

/// How many of the first `n` positions of `symbol` are not in `w`.
pub open spec fn open_params(symbol: Seq<char>, n: nat, w: Positions) -> nat
    decreases n,
{
    if n == 0 {
        0
    } else {
        open_params(symbol, (n - 1) as nat, w) + if w.contains((symbol, (n - 1) as usize)) {
            0nat
        } else {
            1nat
        }
    }
}

/// How many positions of functions, given by symbol and parameter count, are not in
/// `w`.
pub open spec fn open_positions(fs: Seq<(Seq<char>, nat)>, w: Positions) -> nat
    decreases fs.len(),
{
    if fs.len() == 0 {
        0
    } else {
        open_positions(fs.drop_last(), w) + open_params(
            fs.last().0,
            fs.last().1,
            w,
        )
    }
}

/// A larger set leaves fewer positions out.
pub proof fn open_params_shrinks(symbol: Seq<char>, n: nat, w: Positions, t: Positions)
    requires
        w.subset_of(t),
    ensures
        open_params(symbol, n, t) <= open_params(symbol, n, w),
        forall|i: usize|
            i < n && t.contains((symbol, i)) && !w.contains((symbol, i)) ==> open_params(
                symbol,
                n,
                t,
            ) < open_params(symbol, n, w),
    decreases n,
{
    if n > 0 {
        open_params_shrinks(symbol, (n - 1) as nat, w, t);
    }
}

/// A larger set leaves fewer positions out.
pub proof fn open_positions_shrinks(
    fs: Seq<(Seq<char>, nat)>,
    w: Positions,
    t: Positions,
    k: int,
    i: usize,
)
    requires
        w.subset_of(t),
    ensures
        open_positions(fs, t) <= open_positions(fs, w),
        0 <= k < fs.len() && i < fs[k].1 && t.contains((fs[k].0, i)) && !w.contains((fs[k].0, i)) ==> open_positions(fs, t) < open_positions(fs, w),
    decreases fs.len(),
{
    if fs.len() > 0 {
        open_positions_shrinks(fs.drop_last(), w, t, k, i);
        open_params_shrinks(fs.last().0, fs.last().1, w, t);
        if k < fs.len() - 1 && 0 <= k {
            assert(fs.drop_last()[k] == fs[k]);
        }
    }
}

} // verus!
