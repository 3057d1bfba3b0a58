//! Tables keyed by name: association lists with their lookup and update rules.

use vstd::prelude::*;
use crate::text::{str_eq, strings_eq, texts, str_lt, text_lt, text_lt_irreflexive, text_lt_total, text_lt_transitive};

verus! {

/// The keys of an association list of strings.
pub open spec fn names<T>(v: Seq<(String, T)>) -> Seq<Seq<char>> {
    Seq::new(v.len(), |i: int| v[i].0@)
}

/// The keys of an association list.
pub open spec fn keys_of<K, V>(s: Seq<(K, V)>) -> Seq<K> {
    Seq::new(s.len(), |i: int| s[i].0)
}

/// The position of the first occurrence of `k` in `ks`, or `ks.len()`.
pub open spec fn first_pos<K>(ks: Seq<K>, k: K) -> int
    decreases ks.len(),
{
    if ks.len() == 0 || ks[0] == k {
        0
    } else {
        1 + first_pos(ks.drop_first(), k)
    }
}

/// The value of the first entry for `k`.
pub open spec fn lookup<K, V>(s: Seq<(K, V)>, k: K) -> Option<V> {
    let p = first_pos(keys_of(s), k);
    if 0 <= p < s.len() {
        Some(s[p].1)
    } else {
        None
    }
}

/// Whether some entry has the key `k`.
pub open spec fn has_key<K, V>(s: Seq<(K, V)>, k: K) -> bool {
    lookup(s, k) is Some
}

/// `s` with the entry for `k` set to `v`: replaced in place, or appended.
pub open spec fn put<K, V>(s: Seq<(K, V)>, k: K, v: V) -> Seq<(K, V)> {
    let p = first_pos(keys_of(s), k);
    if 0 <= p < s.len() {
        s.update(p, (k, v))
    } else {
        s.push((k, v))
    }
}

/// `s` with `(k, v)` appended unless `k` has an entry already.
pub open spec fn put_new<K, V>(s: Seq<(K, V)>, k: K, v: V) -> Seq<(K, V)> {
    if has_key(s, k) {
        s
    } else {
        s.push((k, v))
    }
}

/// No key occurs twice.
pub open spec fn distinct_keys<K, V>(s: Seq<(K, V)>) -> bool {
    forall|i: int, j: int| 0 <= i < j < s.len() ==> (#[trigger] s[i]).0 != (#[trigger] s[j]).0
}

/// The keys stand in strictly increasing code-point order.
pub open spec fn sorted_keys<V>(s: Seq<(Seq<char>, V)>) -> bool {
    forall|i: int, j: int|
        0 <= i < j < s.len() ==> text_lt((#[trigger] s[i]).0, (#[trigger] s[j]).0)
}

/// The position of the first key that does not precede `k`, or `ks.len()`.
pub open spec fn lower_pos(ks: Seq<Seq<char>>, k: Seq<char>) -> int
    decreases ks.len(),
{
    if ks.len() == 0 || !text_lt(ks[0], k) {
        0
    } else {
        1 + lower_pos(ks.drop_first(), k)
    }
}

/// `s` with the entry for `k` set to `v`, keeping key order.
pub open spec fn put_sorted<V>(s: Seq<(Seq<char>, V)>, k: Seq<char>, v: V) -> Seq<(Seq<char>, V)> {
    let p = lower_pos(keys_of(s), k);
    if 0 <= p < s.len() && s[p].0 == k {
        s.update(p, (k, v))
    } else {
        s.take(p).push((k, v)) + s.skip(p)
    }
}

/// What `first_pos` finds.
pub proof fn first_pos_facts<K>(ks: Seq<K>, k: K)
    ensures
        0 <= first_pos(ks, k) <= ks.len(),
        first_pos(ks, k) < ks.len() ==> ks[first_pos(ks, k)] == k,
        forall|j: int| 0 <= j < first_pos(ks, k) ==> ks[j] != k,
    decreases ks.len(),
{
    if ks.len() > 0 && ks[0] != k {
        let rest = ks.drop_first();
        first_pos_facts(rest, k);
        assert forall|j: int| 0 <= j < first_pos(ks, k) implies ks[j] != k by {
            if j > 0 {
                assert(ks[j] == rest[j - 1]);
            }
        }
    }
}

/// A position with the properties of `first_pos` is `first_pos`.
pub proof fn first_pos_unique<K>(ks: Seq<K>, k: K, p: int)
    requires
        0 <= p <= ks.len(),
        p < ks.len() ==> ks[p] == k,
        forall|j: int| 0 <= j < p ==> ks[j] != k,
    ensures
        first_pos(ks, k) == p,
{
    first_pos_facts(ks, k);
    let q = first_pos(ks, k);
    if q < p {
        assert(ks[q] != k);
    }
}

/// Whether `k` occurs is whether `first_pos` finds it.
pub proof fn first_pos_contains<K>(ks: Seq<K>, k: K)
    ensures
        ks.contains(k) == (first_pos(ks, k) < ks.len()),
{
    first_pos_facts(ks, k);
    if ks.contains(k) {
        let i = choose|i: int| 0 <= i < ks.len() && ks[i] == k;
        if first_pos(ks, k) >= ks.len() {
            assert(ks[i] != k);
        }
    }
}

/// What `lower_pos` finds.
pub proof fn lower_pos_facts(ks: Seq<Seq<char>>, k: Seq<char>)
    ensures
        0 <= lower_pos(ks, k) <= ks.len(),
        lower_pos(ks, k) < ks.len() ==> !text_lt(ks[lower_pos(ks, k)], k),
        forall|j: int| 0 <= j < lower_pos(ks, k) ==> text_lt(ks[j], k),
    decreases ks.len(),
{
    if ks.len() > 0 && text_lt(ks[0], k) {
        let rest = ks.drop_first();
        lower_pos_facts(rest, k);
        assert forall|j: int| 0 <= j < lower_pos(ks, k) implies text_lt(ks[j], k) by {
            if j > 0 {
                assert(ks[j] == rest[j - 1]);
            }
        }
    }
}

/// A position with the properties of `lower_pos` is `lower_pos`.
pub proof fn lower_pos_unique(ks: Seq<Seq<char>>, k: Seq<char>, p: int)
    requires
        0 <= p <= ks.len(),
        p < ks.len() ==> !text_lt(ks[p], k),
        forall|j: int| 0 <= j < p ==> text_lt(ks[j], k),
    ensures
        lower_pos(ks, k) == p,
{
    lower_pos_facts(ks, k);
    let q = lower_pos(ks, k);
    if q < p {
        assert(text_lt(ks[q], k));
    }
    if p < q {
        assert(text_lt(ks[p], k));
    }
}

/// Strictly increasing keys are distinct.
pub proof fn sorted_distinct<V>(s: Seq<(Seq<char>, V)>)
    requires
        sorted_keys(s),
    ensures
        distinct_keys(s),
{
    assert forall|i: int, j: int| 0 <= i < j < s.len() implies (#[trigger] s[i]).0 != (
    #[trigger] s[j]).0 by {
        text_lt_irreflexive(s[i].0);
    }
}

/// A sorted insertion keeps the order of the keys.
pub proof fn put_sorted_sorted<V>(s: Seq<(Seq<char>, V)>, k: Seq<char>, v: V)
    requires
        sorted_keys(s),
    ensures
        sorted_keys(put_sorted(s, k, v)),
{
    let ks = keys_of(s);
    let p = lower_pos(ks, k);
    lower_pos_facts(ks, k);
    let t = put_sorted(s, k, v);
    if p < s.len() && s[p].0 == k {
        assert forall|i: int, j: int| 0 <= i < j < t.len() implies text_lt(
            (#[trigger] t[i]).0,
            (#[trigger] t[j]).0,
        ) by {
            assert(t[i].0 == s[i].0 && t[j].0 == s[j].0);
        }
    } else {
        assert forall|i: int, j: int| 0 <= i < j < t.len() implies text_lt(
            (#[trigger] t[i]).0,
            (#[trigger] t[j]).0,
        ) by {
            if j < p {
                assert(t[i] == s[i] && t[j] == s[j]);
            } else if j == p {
                assert(t[i] == s[i]);
                assert(text_lt(ks[i], k));
            } else {
                assert(t[j] == s[j - 1]);
                if i < p {
                    assert(t[i] == s[i]);
                } else if i == p {
                    assert(!text_lt(ks[p], k));
                    text_lt_total(ks[p], k);
                    if j - 1 > p {
                        text_lt_transitive(k, s[p].0, s[j - 1].0);
                    }
                } else {
                    assert(t[i] == s[i - 1]);
                }
            }
        }
    }
}

/// After a sorted insertion into a sorted list, `k` has the value `v` and every
/// other key the value it had.
pub proof fn put_sorted_lookup<V>(s: Seq<(Seq<char>, V)>, k: Seq<char>, v: V, k2: Seq<char>)
    requires
        sorted_keys(s),
    ensures
        lookup(put_sorted(s, k, v), k2) == (if k2 == k {
            Some(v)
        } else {
            lookup(s, k2)
        }),
{
    let ks = keys_of(s);
    let p = lower_pos(ks, k);
    lower_pos_facts(ks, k);
    let t = put_sorted(s, k, v);
    let kt = keys_of(t);
    if k2 == k {
        assert(kt[p] == k);
        assert forall|j: int| 0 <= j < p implies kt[j] != k by {
            assert(kt[j] == ks[j]);
            text_lt_irreflexive(k);
        }
        first_pos_unique(kt, k, p);
    } else {
        first_pos_facts(ks, k2);
        let q = first_pos(ks, k2);
        if p < s.len() && s[p].0 == k {
            assert(kt =~= ks);
        } else {
            let q2 = if q < p { q } else { q + 1 };
            assert forall|j: int| 0 <= j < q2 implies kt[j] != k2 by {
                if j < p {
                    assert(kt[j] == ks[j]);
                } else if j > p {
                    assert(kt[j] == ks[j - 1]);
                }
            }
            if q < p {
                assert(kt[q2] == ks[q]);
            } else if q < ks.len() {
                assert(kt[q2] == ks[q]);
            }
            first_pos_unique(kt, k2, q2);
        }
    }
}

/// Setting a key gives it the value and leaves every other key as it was.
pub proof fn put_lookup<K, V>(s: Seq<(K, V)>, k: K, v: V, k2: K)
    ensures
        lookup(put(s, k, v), k2) == (if k2 == k {
            Some(v)
        } else {
            lookup(s, k2)
        }),
{
    let ks = keys_of(s);
    let t = put(s, k, v);
    let kt = keys_of(t);
    first_pos_facts(ks, k);
    first_pos_facts(ks, k2);
    let p = first_pos(ks, k);
    let q = first_pos(ks, k2);
    if p < s.len() {
        assert(kt =~= ks);
    } else {
        assert forall|j: int| 0 <= j < ks.len() implies kt[j] == ks[j] by {}
        if k2 == k {
            first_pos_unique(kt, k2, p);
        } else if q < ks.len() {
            first_pos_unique(kt, k2, q);
        } else {
            first_pos_unique(kt, k2, kt.len() as int);
        }
    }
}

/// The position of the first entry for `k`, or `v.len()`.
pub fn find_key<T>(v: &Vec<(String, T)>, k: &str) -> (r: usize)
    ensures
        r == first_pos(names(v@), k@),
        r <= v.len(),
{
    let mut i: usize = 0;
    while i < v.len()
        invariant
            i <= v.len(),
            forall|j: int| 0 <= j < i ==> names(v@)[j] != k@,
        decreases v.len() - i,
    {
        if str_eq(v[i].0.as_str(), k) {
            proof {
                first_pos_unique(names(v@), k@, i as int);
            }
            return i;
        }
        i = i + 1;
    }
    proof {
        first_pos_unique(names(v@), k@, i as int);
    }
    i
}

/// The position of the first key that does not precede `k`, or `v.len()`.
pub fn find_lower<T>(v: &Vec<(String, T)>, k: &str) -> (r: usize)
    ensures
        r == lower_pos(names(v@), k@),
        r <= v.len(),
{
    let mut i: usize = 0;
    while i < v.len()
        invariant
            i <= v.len(),
            forall|j: int| 0 <= j < i ==> text_lt(names(v@)[j], k@),
        decreases v.len() - i,
    {
        if !str_lt(v[i].0.as_str(), k) {
            proof {
                lower_pos_unique(names(v@), k@, i as int);
            }
            return i;
        }
        i = i + 1;
    }
    proof {
        lower_pos_unique(names(v@), k@, i as int);
    }
    i
}

/// The keys of a list keyed by module path.
pub open spec fn paths<T>(v: Seq<(Vec<String>, T)>) -> Seq<Seq<Seq<char>>> {
    Seq::new(v.len(), |i: int| texts(v[i].0@))
}

/// The position of the first entry for the path `p`, or `v.len()`.
pub fn find_path<T>(v: &Vec<(Vec<String>, T)>, p: &[String]) -> (r: usize)
    ensures
        r == first_pos(paths(v@), texts(p@)),
        r <= v.len(),
{
    let mut i: usize = 0;
    while i < v.len()
        invariant
            i <= v.len(),
            forall|j: int| 0 <= j < i ==> paths(v@)[j] != texts(p@),
        decreases v.len() - i,
    {
        if strings_eq(v[i].0.as_slice(), p) {
            proof {
                first_pos_unique(paths(v@), texts(p@), i as int);
            }
            return i;
        }
        i = i + 1;
    }
    proof {
        first_pos_unique(paths(v@), texts(p@), i as int);
    }
    i
}

} // verus!
