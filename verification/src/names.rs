//! Sets of names, kept in order so that whatever is made from one is the same
//! every time.

use vstd::prelude::*;
use crate::table::{lower_pos, lower_pos_facts};
use crate::text::{str_eq, str_lt, text_lt, text_lt_irreflexive, text_lt_total, text_lt_transitive, texts};

verus! {

/// The names stand in strictly increasing code-point order.
pub open spec fn increasing(s: Seq<Seq<char>>) -> bool {
    forall|i: int, j: int| 0 <= i < j < s.len() ==> text_lt(#[trigger] s[i], #[trigger] s[j])
}

/// Whether `l` lists the names of `s` in increasing order.
pub open spec fn lists(l: Seq<Seq<char>>, s: Set<Seq<char>>) -> bool {
    increasing(l) && forall|n: Seq<char>| s.contains(n) <==> l.contains(n)
}

/// The names of a set in increasing order.
pub open spec fn in_order(s: Set<Seq<char>>) -> Seq<Seq<char>> {
    choose|l: Seq<Seq<char>>| lists(l, s)
}

/// A set has at most one increasing list.
pub proof fn lists_unique(a: Seq<Seq<char>>, b: Seq<Seq<char>>, s: Set<Seq<char>>)
    requires
        lists(a, s),
        lists(b, s),
    ensures
        a == b,
    decreases a.len(),
{
    if a.len() == 0 {
        if b.len() > 0 {
            assert(b.contains(b[0]));
            assert(a.contains(b[0]));
        }
        assert(a =~= b);
    } else {
        let x = a.last();
        assert(a.contains(x));
        assert(b.contains(x));
        assert(b.len() > 0);
        let y = b.last();
        assert(b.contains(y));
        assert(a.contains(y));
        if x != y {
            let i = choose|i: int| 0 <= i < a.len() && a[i] == y;
            assert(text_lt(a[i], a[a.len() - 1]));
            let j = choose|j: int| 0 <= j < b.len() && b[j] == x;
            assert(text_lt(b[j], b[b.len() - 1]));
            text_lt_transitive(x, y, x);
            text_lt_irreflexive(x);
        }
        let a2 = a.drop_last();
        let b2 = b.drop_last();
        let s2 = s.remove(x);
        assert forall|n: Seq<char>| s2.contains(n) <==> a2.contains(n) by {
            drop_last_contains(a, n);
        }
        assert forall|n: Seq<char>| s2.contains(n) <==> b2.contains(n) by {
            drop_last_contains(b, n);
        }
        assert(increasing(a2)) by {
            assert forall|i: int, j: int| 0 <= i < j < a2.len() implies text_lt(
                #[trigger] a2[i],
                #[trigger] a2[j],
            ) by {
                assert(a2[i] == a[i] && a2[j] == a[j]);
            }
        }
        assert(increasing(b2)) by {
            assert forall|i: int, j: int| 0 <= i < j < b2.len() implies text_lt(
                #[trigger] b2[i],
                #[trigger] b2[j],
            ) by {
                assert(b2[i] == b[i] && b2[j] == b[j]);
            }
        }
        lists_unique(a2, b2, s2);
        assert(a =~= a2.push(x));
        assert(b =~= b2.push(y));
    }
}

/// Without its last name an increasing list holds the same names but that one.
proof fn drop_last_contains(a: Seq<Seq<char>>, n: Seq<char>)
    requires
        increasing(a),
        a.len() > 0,
    ensures
        a.drop_last().contains(n) <==> a.contains(n) && n != a.last(),
{
    let d = a.drop_last();
    if d.contains(n) {
        let i = choose|i: int| 0 <= i < d.len() && d[i] == n;
        assert(a[i] == n);
        assert(text_lt(a[i], a[a.len() - 1]));
        text_lt_irreflexive(n);
    }
    if a.contains(n) && n != a.last() {
        let i = choose|i: int| 0 <= i < a.len() && a[i] == n;
        assert(d[i] == n);
    }
}

/// An increasing list is the list in order of the names it holds.
pub proof fn in_order_of_list(l: Seq<Seq<char>>, s: Set<Seq<char>>)
    requires
        lists(l, s),
    ensures
        in_order(s) == l,
{
    lists_unique(in_order(s), l, s);
}

/// Every finite set of names has its list.
pub proof fn finite_sets_are_listed(s: Set<Seq<char>>)
    requires
        s.finite(),
    ensures
        lists(in_order(s), s),
    decreases s.len(),
{
    if s.len() == 0 {
        assert(s =~= Set::<Seq<char>>::empty());
        assert(lists(Seq::empty(), s));
    } else {
        let x = s.choose();
        let rest = s.remove(x);
        finite_sets_are_listed(rest);
        let l = in_order(rest);
        let p = lower_pos(l, x);
        lower_pos_facts(l, x);
        let m = l.insert(p, x);
        assert(!l.contains(x));
        if p < l.len() {
            assert(l.contains(l[p]));
            text_lt_total(l[p], x);
        }
        assert forall|j: int| p <= j < l.len() implies text_lt(x, #[trigger] l[j]) by {
            if j > p {
                text_lt_transitive(x, l[p], l[j]);
            }
        }
        assert forall|a: int, b: int| 0 <= a < b < m.len() implies text_lt(
            #[trigger] m[a],
            #[trigger] m[b],
        ) by {
            let a0 = if a < p { a } else { a - 1 };
            let b0 = if b < p { b } else { b - 1 };
            if a != p {
                assert(m[a] == l[a0]);
            }
            if b != p {
                assert(m[b] == l[b0]);
            }
        }
        assert forall|n: Seq<char>| s.contains(n) <==> m.contains(n) by {
            if n == x {
                assert(m[p] == x);
            } else if s.contains(n) {
                assert(rest.contains(n));
                let j = choose|j: int| 0 <= j < l.len() && l[j] == n;
                let j2 = if j < p { j } else { j + 1 };
                assert(m[j2] == n);
            } else if m.contains(n) {
                let j = choose|j: int| 0 <= j < m.len() && m[j] == n;
                let j2 = if j < p { j } else { j - 1 };
                assert(l[j2] == n);
                assert(rest.contains(n));
            }
        }
        assert(lists(m, s));
    }
}

/// The first `i` names of a list.
pub open spec fn among(l: Seq<Seq<char>>, i: int) -> Set<Seq<char>> {
    Set::new(|n: Seq<char>| exists|j: int| 0 <= j < i && #[trigger] l[j] == n)
}

/// How the first names of a list grow into the set it lists.
pub proof fn among_grows(l: Seq<Seq<char>>, i: int)
    requires
        0 <= i < l.len(),
    ensures
        among(l, i + 1) == among(l, i).insert(l[i]),
{
    assert forall|n: Seq<char>| among(l, i + 1).contains(n) <==> among(l, i).insert(l[i]).contains(
        n,
    ) by {
        if n == l[i] {
            assert(l[i] == n);
        }
    }
    assert(among(l, i + 1) =~= among(l, i).insert(l[i]));
}

/// All names of a list are the set it lists.
pub proof fn among_all(l: Seq<Seq<char>>, s: Set<Seq<char>>)
    requires
        lists(l, s),
    ensures
        among(l, l.len() as int) == s,
        among(l, 0) == Set::<Seq<char>>::empty(),
{
    assert forall|n: Seq<char>| among(l, l.len() as int).contains(n) <==> s.contains(n) by {
        if s.contains(n) {
            assert(l.contains(n));
            let j = choose|j: int| 0 <= j < l.len() && l[j] == n;
            assert(l[j] == n);
        }
        if among(l, l.len() as int).contains(n) {
            assert(l.contains(n));
        }
    }
    assert(among(l, l.len() as int) =~= s);
    assert(among(l, 0) =~= Set::<Seq<char>>::empty());
}

/// A set of names.
#[derive(Debug)]
pub struct NameSet {
    items: Vec<String>,
}

impl View for NameSet {
    type V = Set<Seq<char>>;

    closed spec fn view(&self) -> Set<Seq<char>> {
        Set::new(|n: Seq<char>| texts(self.items@).contains(n))
    }
}

impl NameSet {
    #[verifier::type_invariant]
    spec fn wf(self) -> bool {
        increasing(texts(self.items@))
    }

    /// The empty set.
    pub fn new() -> (r: NameSet)
        ensures
            r@ == Set::<Seq<char>>::empty(),
    {
        let r = NameSet { items: Vec::new() };
        assert(r@ =~= Set::<Seq<char>>::empty());
        r
    }

    /// The set of one name.
    pub fn one(name: &str) -> (r: NameSet)
        ensures
            r@ == Set::<Seq<char>>::empty().insert(name@),
    {
        let mut r = NameSet::new();
        r.insert(name);
        r
    }

    /// The names, in order.
    pub fn items(&self) -> (r: &Vec<String>)
        ensures
            lists(texts(r@), self@),
            texts(r@) == in_order(self@),
    {
        proof {
            use_type_invariant(self);
            assert(lists(texts(self.items@), self@));
            in_order_of_list(texts(self.items@), self@);
        }
        &self.items
    }

    /// Whether the set is empty.
    pub fn is_empty(&self) -> (r: bool)
        ensures
            r == (self@ == Set::<Seq<char>>::empty()),
    {
        let r = self.items.len() == 0;
        proof {
            if r {
                assert(self@ =~= Set::<Seq<char>>::empty());
            } else {
                assert(texts(self.items@).contains(texts(self.items@)[0]));
                assert(self@.contains(texts(self.items@)[0]));
            }
        }
        r
    }

    /// Whether `name` is in the set.
    pub fn contains(&self, name: &str) -> (r: bool)
        ensures
            r == self@.contains(name@),
    {
        for i in 0..self.items.len()
            invariant
                forall|j: int| 0 <= j < i ==> self.items@[j]@ != name@,
        {
            assert(texts(self.items@)[i as int] == self.items@[i as int]@);
            if str_eq(self.items[i].as_str(), name) {
                assert(texts(self.items@).contains(name@));
                return true;
            }
        }
        false
    }

    /// Add `name`; the result tells whether it was not there before.
    #[verifier::rlimit(50)]
    pub fn insert(&mut self, name: &str) -> (r: bool)
        ensures
            final(self)@ == old(self)@.insert(name@),
            r == !old(self)@.contains(name@),
    {
        proof {
            use_type_invariant(&*self);
        }
        let ghost before = texts(self.items@);
        let ghost was = self@;
        let mut i: usize = 0;
        while i < self.items.len() && str_lt(self.items[i].as_str(), name)
            invariant
                i <= self.items.len(),
                before == texts(self.items@),
                forall|j: int| 0 <= j < i ==> text_lt(#[trigger] before[j], name@),
            decreases self.items.len() - i,
        {
            i += 1;
        }
        if i < self.items.len() && str_eq(self.items[i].as_str(), name) {
            proof {
                assert(before[i as int] == name@);
                assert(self@ =~= was.insert(name@));
            }
            return false;
        }
        let mut items: Vec<String> = Vec::new();
        std::mem::swap(&mut items, &mut self.items);
        items.insert(i, name.to_owned());
        let ghost after = texts(items@);
        proof {
            assert(after =~= before.insert(i as int, name@));
            if i < before.len() {
                text_lt_total(before[i as int], name@);
            }
            assert forall|j: int| i <= j < before.len() implies text_lt(
                name@,
                #[trigger] before[j],
            ) by {
                if j > i {
                    text_lt_transitive(name@, before[i as int], before[j]);
                }
            }
            assert forall|a: int, b: int| 0 <= a < b < after.len() implies text_lt(
                #[trigger] after[a],
                #[trigger] after[b],
            ) by {
                let a0 = if a < i { a } else { a - 1 };
                let b0 = if b < i { b } else { b - 1 };
                if a != i {
                    assert(after[a] == before[a0]);
                }
                if b != i {
                    assert(after[b] == before[b0]);
                }
            }
            assert forall|n: Seq<char>| after.contains(n) <==> before.contains(n) || n == name@ by {
                if before.contains(n) {
                    let j = choose|j: int| 0 <= j < before.len() && before[j] == n;
                    let j2 = if j < i { j } else { j + 1 };
                    assert(after[j2] == n);
                }
                assert(after[i as int] == name@);
                if after.contains(n) && n != name@ {
                    let j = choose|j: int| 0 <= j < after.len() && after[j] == n;
                    let j2 = if j < i { j } else { j - 1 };
                    assert(before[j2] == n);
                }
            }
            assert(!before.contains(name@)) by {
                if before.contains(name@) {
                    let j = choose|j: int| 0 <= j < before.len() && before[j] == name@;
                    text_lt_irreflexive(name@);
                }
            }
        }
        *self = NameSet { items };
        assert(self@ =~= was.insert(name@));
        true
    }

    /// Add every name of `other`.
    pub fn extend(&mut self, other: &NameSet)
        ensures
            final(self)@ == old(self)@.union(other@),
    {
        let names = other.items();
        let ghost start = self@;
        let ghost all = texts(names@);
        assert(self@ =~= start.union(Set::new(|n: Seq<char>| all.take(0).contains(n))));
        for i in 0..names.len()
            invariant
                all == texts(names@),
                self@ == start.union(Set::new(|n: Seq<char>| all.take(i as int).contains(n))),
        {
            let ghost before = self@;
            self.insert(names[i].as_str());
            proof {
                assert(all.take(i + 1) =~= all.take(i as int).push(all[i as int]));
                assert forall|n: Seq<char>| all.take(i + 1).contains(n) <==> all.take(
                    i as int,
                ).contains(n) || n == all[i as int] by {
                    let t = all.take(i + 1);
                    if all.take(i as int).contains(n) {
                        let j = choose|j: int|
                            0 <= j < all.take(i as int).len() && all.take(i as int)[j] == n;
                        assert(t[j] == n);
                    }
                    assert(t[i as int] == all[i as int]);
                    if t.contains(n) && n != all[i as int] {
                        let j = choose|j: int| 0 <= j < t.len() && t[j] == n;
                        assert(all.take(i as int)[j] == n);
                    }
                }
                assert(self@ =~= start.union(
                    Set::new(|n: Seq<char>| all.take(i + 1).contains(n)),
                ));
            }
        }
        proof {
            assert(all.take(names.len() as int) =~= all);
            assert(self@ =~= start.union(other@));
        }
    }

    /// A set of the same names.
    pub fn copy(&self) -> (r: NameSet)
        ensures
            r@ == self@,
    {
        let mut r = NameSet::new();
        r.extend(self);
        assert(r@ =~= self@);
        r
    }

    /// The number of names.
    pub fn len(&self) -> (r: usize)
        ensures
            r == in_order(self@).len(),
    {
        self.items().len()
    }
}

impl Default for NameSet {
    fn default() -> (r: NameSet)
        ensures
            r@ == Set::<Seq<char>>::empty(),
    {
        NameSet::new()
    }
}

} // verus!
