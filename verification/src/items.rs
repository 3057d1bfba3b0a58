//! The items of a document and what an edit does to them.
//!
//! A document is split into its functions and types and one bucket of module statements.
//! Between two versions, an item whose text changed must be checked again, and so must
//! every item that uses it, directly or through others. The items checked again are
//! checked together with the definitions they depend on; all others keep what was found
//! before.

use vstd::prelude::*;
use crate::ast::{top_levels_view, Module, Stmt, StmtV, TopLevel, TopLevelV};
use crate::document::{begins_at, begins_at_unique, find_index, index_at};
use crate::lexer::continues_ident;
use crate::names::{lists, NameSet};
use crate::offsets::{byte_off, byte_off_grows, Chars};
use crate::span::Span;
use crate::text::{str_eq, string_of, texts};

verus! {

/// A diagnostic: a message and a span.
pub type Diag = (String, Span);

/// The models of diagnostics.
pub open spec fn diags_view(v: Seq<(String, Span)>) -> Seq<(Seq<char>, Span)> {
    Seq::new(v.len(), |i: int| (v[i].0@, v[i].1))
}

/// What an item is.
#[derive(Clone, Copy, Debug, PartialEq, Eq, Structural)]
pub enum ItemKind {
    Fun,
    Type,
    /// The module's statements.
    Init,
}

/// One item of a document, with what was found in it.
pub struct Item {
    pub kind: ItemKind,
    /// The declared name; empty for the module's statements.
    pub name: String,
    /// The item's text.
    pub source: String,
    pub span: Span,
    pub diags: Vec<(String, Span)>,
}

/// The model of [`Item`].
#[verifier::ext_equal]
pub ghost struct ItemV {
    pub kind: ItemKind,
    pub name: Seq<char>,
    pub source: Seq<char>,
    pub span: Span,
    pub diags: Seq<(Seq<char>, Span)>,
}

impl View for Item {
    type V = ItemV;

    open spec fn view(&self) -> ItemV {
        ItemV {
            kind: self.kind,
            name: self.name@,
            source: self.source@,
            span: self.span,
            diags: diags_view(self.diags@),
        }
    }
}

/// The models of items.
pub open spec fn items_view(v: Seq<Item>) -> Seq<ItemV> {
    Seq::new(v.len(), |i: int| v[i]@)
}

// ---- words ----

/// Whether `cs[a..b]` is a maximal run of identifier characters.
pub open spec fn is_word(cs: Seq<char>, a: int, b: int) -> bool {
    &&& 0 <= a < b <= cs.len()
    &&& forall|i: int| a <= i < b ==> continues_ident(#[trigger] cs[i])
    &&& a > 0 ==> !continues_ident(cs[a - 1])
    &&& b < cs.len() ==> !continues_ident(cs[b])
}

/// Whether `w` is one of the words of a text.
pub open spec fn has_word(cs: Seq<char>, w: Seq<char>) -> bool {
    exists|a: int, b: int| #[trigger] is_word(cs, a, b) && cs.subrange(a, b) == w
}

/// The words of a text: every name it can mention is among them.
pub open spec fn words(cs: Seq<char>) -> Set<Seq<char>> {
    Set::new(|w: Seq<char>| has_word(cs, w))
}

/// Whether `w` is a word of a text that ends at or before `n`.
pub open spec fn has_word_to(cs: Seq<char>, n: int, w: Seq<char>) -> bool {
    exists|a: int, b: int| #[trigger] is_word(cs, a, b) && b <= n && cs.subrange(a, b) == w
}

/// Whether a character can stand in a name.
pub(crate) fn is_ident_char(c: char) -> (r: bool)
    ensures
        r == continues_ident(c),
{
    c == '_' || ('a' <= c && c <= 'z') || ('A' <= c && c <= 'Z') || ('0' <= c && c <= '9')
}

/// The words of a text.
#[verifier::rlimit(50)]
pub fn words_of(text: &str) -> (r: NameSet)
    ensures
        r@ == words(text@),
{
    let chars = Chars::of(text);
    let ghost cs = text@;
    let n: usize = chars.cs.len();
    let mut out = NameSet::new();
    let mut i: usize = 0;
    assert(out@ =~= Set::new(|w: Seq<char>| has_word_to(cs, 0, w)));
    while i < n
        invariant
            chars.wf(),
            cs == chars.cs@,
            n == cs.len(),
            i <= n,
            0 < i < n ==> !continues_ident(cs[i - 1]),
            out@ == Set::new(|w: Seq<char>| has_word_to(cs, i as int, w)),
        decreases n - i,
    {
        let ghost before = out@;
        if is_ident_char(chars.cs[i]) {
            let mut j: usize = i + 1;
            while j < n && is_ident_char(chars.cs[j])
                invariant
                    cs == chars.cs@,
                    n == cs.len(),
                    i < j <= n,
                    forall|k: int| i <= k < j ==> continues_ident(#[trigger] cs[k]),
                decreases n - j,
            {
                j = j + 1;
            }
            let w = string_of(chars.cs.as_slice(), i, j);
            out.insert(w.as_str());
            // The character behind the word, if any, is no identifier character.
            let next: usize = if j < n {
                j + 1
            } else {
                j
            };
            proof {
                assert(is_word(cs, i as int, j as int));
                assert forall|v: Seq<char>| out@.contains(v) == has_word_to(cs, next as int, v) by {
                    if has_word_to(cs, next as int, v) {
                        let (a, b) = choose|a: int, b: int|
                            #[trigger] is_word(cs, a, b) && b <= next && cs.subrange(a, b) == v;
                        if b > i {
                            word_between(cs, a, b, i as int, j as int, next as int);
                        } else {
                            assert(has_word_to(cs, i as int, v));
                        }
                    }
                    if before.contains(v) {
                        let (a, b) = choose|a: int, b: int|
                            #[trigger] is_word(cs, a, b) && b <= i && cs.subrange(a, b) == v;
                        assert(is_word(cs, a, b) && b <= next);
                    }
                }
                assert(out@ =~= Set::new(|w: Seq<char>| has_word_to(cs, next as int, w)));
            }
            i = next;
        } else {
            proof {
                assert forall|v: Seq<char>| out@.contains(v) == has_word_to(cs, i + 1, v) by {
                    if has_word_to(cs, i + 1, v) {
                        let (a, b) = choose|a: int, b: int|
                            #[trigger] is_word(cs, a, b) && b <= i + 1 && cs.subrange(a, b) == v;
                        if b == i + 1 {
                            assert(continues_ident(cs[i as int]));
                        }
                        assert(has_word_to(cs, i as int, v));
                    }
                    if before.contains(v) {
                        let (a, b) = choose|a: int, b: int|
                            #[trigger] is_word(cs, a, b) && b <= i && cs.subrange(a, b) == v;
                        assert(is_word(cs, a, b) && b <= i + 1);
                    }
                }
                assert(out@ =~= Set::new(|w: Seq<char>| has_word_to(cs, i + 1, w)));
            }
            i = i + 1;
        }
    }
    proof {
        assert forall|v: Seq<char>| out@.contains(v) == words(cs).contains(v) by {
            if has_word(cs, v) {
                let (a, b) = choose|a: int, b: int|
                    #[trigger] is_word(cs, a, b) && cs.subrange(a, b) == v;
                assert(is_word(cs, a, b) && b <= n);
            }
        }
        assert(out@ =~= words(cs));
    }
    out
}

/// A word that ends in `(i, next]` where `cs[i..j]` is a word and `next` is at most one
/// past it is that word.
proof fn word_between(cs: Seq<char>, a: int, b: int, i: int, j: int, next: int)
    requires
        is_word(cs, a, b),
        is_word(cs, i, j),
        i < b <= next,
        next <= j + 1,
        next == j + 1 ==> j < cs.len(),
    ensures
        a == i,
        b == j,
{
    if b == j + 1 {
        assert(!continues_ident(cs[j]));
        assert(continues_ident(cs[b - 1]));
    }
    if b < j {
        assert(continues_ident(cs[b]));
    }
    if a < i {
        assert(continues_ident(cs[i - 1]));
    }
    if i < a {
        assert(continues_ident(cs[a - 1]));
    }
}

// ---- splitting ----

/// Whether a character of `cs`, or its end, begins at a byte offset.
pub open spec fn starts_char(cs: Seq<char>, off: int) -> bool {
    exists|k: int| begins_at(cs, off, k)
}

/// Whether a global span lies between characters of the document `cs`, which begins at
/// `base`.
pub open spec fn span_fits(cs: Seq<char>, base: int, span: Span) -> bool {
    &&& base <= span.lo <= span.hi
    &&& starts_char(cs, span.lo - base)
    &&& starts_char(cs, span.hi - base)
}

/// The text of a global span.
pub open spec fn text_of(cs: Seq<char>, base: int, span: Span) -> Seq<char> {
    cs.subrange(index_at(cs, span.lo - base), index_at(cs, span.hi - base))
}

/// The span of a statement; a bare expression statement has that of its expression.
pub open spec fn stmt_span(s: StmtV) -> Span {
    match s {
        StmtV::Let { span, .. } => span,
        StmtV::Assign { span, .. } => span,
        StmtV::Expr(e) => e.span(),
        StmtV::While { span, .. } => span,
        StmtV::For { span, .. } => span,
        StmtV::Return(_, span) => span,
        StmtV::Break(span) => span,
        StmtV::Continue(span) => span,
    }
}

fn span_of_stmt(s: &Stmt) -> (r: Span)
    ensures
        r == stmt_span(s@),
{
    match s {
        Stmt::Let { span, .. } => *span,
        Stmt::Assign { span, .. } => *span,
        Stmt::Expr(e) => e.span(),
        Stmt::While { span, .. } => *span,
        Stmt::For { span, .. } => *span,
        Stmt::Return(_, span) => *span,
        Stmt::Break(span) => *span,
        Stmt::Continue(span) => *span,
    }
}

/// An item that nothing was found in yet.
pub open spec fn fresh_item(
    kind: ItemKind,
    name: Seq<char>,
    span: Span,
    cs: Seq<char>,
    base: int,
) -> ItemV {
    ItemV { kind, name, source: text_of(cs, base, span), span, diags: Seq::empty() }
}

/// The functions and types among top-level items, in order.
pub open spec fn decl_items(tops: Seq<TopLevelV>, cs: Seq<char>, base: int) -> Seq<ItemV>
    decreases tops.len(),
{
    if tops.len() == 0 {
        Seq::empty()
    } else {
        let r = decl_items(tops.drop_last(), cs, base);
        match tops.last() {
            TopLevelV::Fun(f) => r.push(fresh_item(ItemKind::Fun, f.name, f.span, cs, base)),
            TopLevelV::Type(t) => r.push(fresh_item(ItemKind::Type, t.name, t.span, cs, base)),
            TopLevelV::Stmt(_) => r,
        }
    }
}

/// The span from the first statement among top-level items to the last.
pub open spec fn init_span(tops: Seq<TopLevelV>) -> Option<Span>
    decreases tops.len(),
{
    if tops.len() == 0 {
        None
    } else {
        let r = init_span(tops.drop_last());
        match tops.last() {
            TopLevelV::Stmt(s) => Some(
                match r {
                    Some(p) => Span { lo: p.lo, hi: stmt_span(s).hi },
                    None => stmt_span(s),
                },
            ),
            _ => r,
        }
    }
}

/// The items of a document: its functions and types in source order, then one item for
/// its statements if it has any.
pub open spec fn items_of(tops: Seq<TopLevelV>, cs: Seq<char>, base: int) -> Seq<ItemV> {
    let ds = decl_items(tops, cs, base);
    match init_span(tops) {
        Some(s) => ds.push(fresh_item(ItemKind::Init, Seq::empty(), s, cs, base)),
        None => ds,
    }
}

/// Whether the spans of all items of a document lie between its characters.
pub open spec fn spans_fit(tops: Seq<TopLevelV>, cs: Seq<char>, base: int) -> bool {
    &&& forall|i: int|
        0 <= i < tops.len() ==> match #[trigger] tops[i] {
            TopLevelV::Fun(f) => span_fits(cs, base, f.span),
            TopLevelV::Type(t) => span_fits(cs, base, t.span),
            TopLevelV::Stmt(_) => true,
        }
    &&& init_span(tops) matches Some(s) ==> span_fits(cs, base, s)
}

fn make_item(kind: ItemKind, name: &str, span: Span, chars: &Chars, base: usize) -> (r: Item)
    requires
        chars.wf(),
        byte_off(chars.cs@, chars.cs@.len() as int) <= usize::MAX,
        span_fits(chars.cs@, base as int, span),
    ensures
        r@ == fresh_item(kind, name@, span, chars.cs@, base as int),
{
    let ghost cs = chars.cs@;
    let a = find_index(chars, span.lo - base);
    let b = find_index(chars, span.hi - base);
    proof {
        let n = cs.len() as int;
        if a < n {
            byte_off_grows(cs, a as int, n);
        }
        if b < n {
            byte_off_grows(cs, b as int, n);
        }
        begins_at_unique(cs, span.lo - base, a as int, index_at(cs, span.lo - base));
        begins_at_unique(cs, span.hi - base, b as int, index_at(cs, span.hi - base));
        if b < a {
            byte_off_grows(cs, b as int, a as int);
        }
    }
    let source = string_of(chars.cs.as_slice(), a, b);
    let diags: Vec<(String, Span)> = Vec::new();
    let r = Item { kind, name: name.to_owned(), source, span, diags };
    assert(r@.diags =~= Seq::empty());
    r
}

/// Split a document that begins at `base` into its items.
pub fn split(main: &Module, text: &str, base: usize) -> (r: Vec<Item>)
    requires
        spans_fit(main@.items, text@, base as int),
    ensures
        items_view(r@) == items_of(main@.items, text@, base as int),
{
    let chars = Chars::of(text);
    let ghost cs = text@;
    let ghost all = top_levels_view(main.items@);
    let mut out: Vec<Item> = Vec::new();
    let mut init: Option<Span> = None;
    assert(items_view(out@) =~= decl_items(all.take(0), cs, base as int));
    for i in 0..main.items.len()
        invariant
            chars.wf(),
            chars.cs@ == cs,
            byte_off(cs, cs.len() as int) <= usize::MAX,
            all == top_levels_view(main.items@),
            spans_fit(all, cs, base as int),
            items_view(out@) == decl_items(all.take(i as int), cs, base as int),
            init == init_span(all.take(i as int)),
    {
        let ghost done = items_view(out@);
        proof {
            assert(all.take(i + 1).drop_last() =~= all.take(i as int));
            assert(all.take(i + 1).last() == all[i as int]);
            assert(all[i as int] == main.items[i as int]@);
        }
        match &main.items[i] {
            TopLevel::Fun(f) => {
                out.push(make_item(ItemKind::Fun, f.name.as_str(), f.span, &chars, base));
                assert(items_view(out@) =~= done.push(out@.last()@));
            },
            TopLevel::Type(t) => {
                out.push(make_item(ItemKind::Type, t.name.as_str(), t.span, &chars, base));
                assert(items_view(out@) =~= done.push(out@.last()@));
            },
            TopLevel::Stmt(s) => {
                let sp = span_of_stmt(s);
                init = Some(
                    match init {
                        Some(p) => Span::new(p.lo, sp.hi),
                        None => sp,
                    },
                );
            },
        }
    }
    assert(all.take(main.items.len() as int) =~= all);
    if let Some(s) = init {
        let ghost done = items_view(out@);
        let name = String::new();
        assert(name@ =~= Seq::empty());
        out.push(make_item(ItemKind::Init, name.as_str(), s, &chars, base));
        assert(items_view(out@) =~= done.push(out@.last()@));
    }
    out
}

// ---- comparing versions ----

/// What tells two items apart: not where they stand nor what was found in them.
pub open spec fn same_item(a: ItemV, b: ItemV) -> bool {
    a.kind == b.kind && a.name == b.name && a.source == b.source
}

/// The first of the items from `j` on that is the same as `it`.
pub open spec fn counterpart(items: Seq<ItemV>, j: int, it: ItemV) -> Option<int>
    decreases items.len() - j,
{
    if !(0 <= j < items.len()) {
        None
    } else if same_item(items[j], it) {
        Some(j)
    } else {
        counterpart(items, j + 1, it)
    }
}

/// A counterpart is the same item, and there is one whenever some item is the same.
pub proof fn counterpart_facts(items: Seq<ItemV>, j: int, it: ItemV)
    requires
        0 <= j,
    ensures
        counterpart(items, j, it) matches Some(k) ==> j <= k < items.len() && same_item(
            items[k],
            it,
        ),
        counterpart(items, j, it) is None ==> forall|k: int|
            j <= k < items.len() ==> !same_item(#[trigger] items[k], it),
    decreases items.len() - j,
{
    if j < items.len() && !same_item(items[j], it) {
        counterpart_facts(items, j + 1, it);
    }
}

/// Whether an item of the new version is not in the old one.
pub open spec fn is_changed(prev: Seq<ItemV>, it: ItemV) -> bool {
    counterpart(prev, 0, it) is None
}

/// Whether item `a` mentions the name of item `b`.
pub open spec fn uses(a: ItemV, b: ItemV) -> bool {
    words(a.source).contains(b.name)
}

/// The names that the first `n` items of the old version declare otherwise than the new
/// one.
pub open spec fn stale(prev: Seq<ItemV>, n: int, new: Seq<ItemV>) -> Set<Seq<char>>
    decreases n,
{
    if n <= 0 {
        Set::empty()
    } else if is_changed(new, prev[n - 1]) {
        stale(prev, n - 1, new).insert(prev[n - 1].name)
    } else {
        stale(prev, n - 1, new)
    }
}

/// Whether an item mentions a name that the old version declares otherwise.
pub open spec fn uses_stale(prev: Seq<ItemV>, new: Seq<ItemV>, it: ItemV) -> bool {
    !words(it.source).disjoint(stale(prev, prev.len() as int, new))
}

proof fn stale_has(prev: Seq<ItemV>, n: int, new: Seq<ItemV>, k: int)
    requires
        0 <= k < n <= prev.len(),
        is_changed(new, prev[k]),
    ensures
        stale(prev, n, new).contains(prev[k].name),
    decreases n,
{
    if k < n - 1 {
        stale_has(prev, n - 1, new, k);
    }
}

proof fn stale_is(prev: Seq<ItemV>, n: int, new: Seq<ItemV>, name: Seq<char>) -> (k: int)
    requires
        n <= prev.len(),
        stale(prev, n, new).contains(name),
    ensures
        0 <= k < n,
        is_changed(new, prev[k]),
        prev[k].name == name,
    decreases n,
{
    if is_changed(new, prev[n - 1]) && prev[n - 1].name == name {
        n - 1
    } else {
        stale_is(prev, n - 1, new, name)
    }
}

/// Whether an item must be checked again by itself.
pub open spec fn is_seed(prev: Seq<ItemV>, new: Seq<ItemV>, it: ItemV) -> bool {
    is_changed(prev, it) || uses_stale(prev, new, it)
}

// ---- closures ----

/// Whether the marks `s` hold all of `seed` and lead nowhere else: whatever a marked item
/// has an edge to is marked.
pub open spec fn covers(s: Seq<bool>, seed: Seq<bool>, edges: Seq<Seq<bool>>) -> bool {
    &&& s.len() == seed.len()
    &&& forall|i: int| 0 <= i < seed.len() && #[trigger] seed[i] ==> s[i]
    &&& forall|i: int, j: int|
        0 <= i < s.len() && 0 <= j < s.len() && s[i] && #[trigger] edges[i][j] ==> s[j]
}

/// Whether everything `s` marks is marked in `t`.
pub open spec fn within(s: Seq<bool>, t: Seq<bool>) -> bool {
    forall|i: int| 0 <= i < s.len() && #[trigger] s[i] ==> t[i]
}

/// Whether `s` is the least marking that covers `seed`.
pub open spec fn least_cover(s: Seq<bool>, seed: Seq<bool>, edges: Seq<Seq<bool>>) -> bool {
    covers(s, seed, edges) && forall|t: Seq<bool>| #[trigger] covers(t, seed, edges) ==> within(s, t)
}

/// There is only one least cover.
pub proof fn least_cover_unique(
    a: Seq<bool>,
    b: Seq<bool>,
    seed: Seq<bool>,
    edges: Seq<Seq<bool>>,
)
    requires
        least_cover(a, seed, edges),
        least_cover(b, seed, edges),
    ensures
        a == b,
{
    assert(within(a, b));
    assert(within(b, a));
    assert forall|i: int| 0 <= i < a.len() implies a[i] == b[i] by {
        if a[i] {
            assert(b[i]);
        }
        if b[i] {
            assert(a[i]);
        }
    }
    assert(a =~= b);
}

/// How many marks are missing.
pub open spec fn unmarked(s: Seq<bool>) -> nat
    decreases s.len(),
{
    if s.len() == 0 {
        0
    } else {
        unmarked(s.drop_last()) + (if s.last() {
            0nat
        } else {
            1nat
        })
    }
}

proof fn marking_shrinks(s: Seq<bool>, i: int)
    requires
        0 <= i < s.len(),
        !s[i],
    ensures
        unmarked(s.update(i, true)) < unmarked(s),
    decreases s.len(),
{
    let t = s.update(i, true);
    if i == s.len() - 1 {
        assert(t.drop_last() =~= s.drop_last());
    } else {
        assert(t.drop_last() =~= s.drop_last().update(i, true));
        marking_shrinks(s.drop_last(), i);
    }
}

/// The model of a table of edges.
pub open spec fn edge_view(v: Seq<Vec<bool>>) -> Seq<Seq<bool>> {
    Seq::new(v.len(), |i: int| v[i]@)
}

/// One place where a cover is still missing a mark.
fn missing_mark(s: &Vec<bool>, edges: &Vec<Vec<bool>>) -> (r: Option<usize>)
    requires
        edges.len() == s.len(),
        forall|i: int| 0 <= i < edges.len() ==> (#[trigger] edges[i]).len() == s.len(),
    ensures
        match r {
            Some(j) => j < s.len() && !s[j as int] && exists|i: int|
                0 <= i < s.len() && s[i] && #[trigger] edge_view(edges@)[i][j as int],
            None => forall|i: int, j: int|
                0 <= i < s.len() && 0 <= j < s.len() && s[i] && #[trigger] edge_view(
                    edges@,
                )[i][j] ==> s[j],
        },
{
    let ghost ev = edge_view(edges@);
    let n: usize = s.len();
    for i in 0..n
        invariant
            n == s.len(),
            n == edges.len(),
            ev == edge_view(edges@),
            forall|a: int| 0 <= a < edges.len() ==> (#[trigger] edges[a]).len() == n,
            forall|a: int, b: int|
                0 <= a < i && 0 <= b < n && s[a] && #[trigger] ev[a][b] ==> s[b],
    {
        if s[i] {
            for j in 0..n
                invariant
                    n == s.len(),
                    n == edges.len(),
                    i < n,
                    s[i as int],
                    ev == edge_view(edges@),
                    forall|a: int| 0 <= a < edges.len() ==> (#[trigger] edges[a]).len() == n,
                    forall|b: int| 0 <= b < j && #[trigger] ev[i as int][b] ==> s[b],
            {
                assert(ev[i as int] == edges[i as int]@);
                assert(edges[i as int].len() == n);
                if edges[i][j] && !s[j] {
                    assert(ev[i as int][j as int]);
                    return Some(j);
                }
            }
        }
    }
    None
}

/// The least marking that holds `seed` and whatever it leads to.
pub fn closure(seed: Vec<bool>, edges: &Vec<Vec<bool>>) -> (r: Vec<bool>)
    requires
        edges.len() == seed.len(),
        forall|i: int| 0 <= i < edges.len() ==> (#[trigger] edges[i]).len() == seed.len(),
    ensures
        least_cover(r@, seed@, edge_view(edges@)),
{
    let ghost start = seed@;
    let ghost ev = edge_view(edges@);
    let mut s = seed;
    let mut done: bool = false;
    while !done
        invariant
            ev == edge_view(edges@),
            s.len() == start.len(),
            edges.len() == s.len(),
            forall|i: int| 0 <= i < edges.len() ==> (#[trigger] edges[i]).len() == s.len(),
            forall|i: int| 0 <= i < start.len() && #[trigger] start[i] ==> s[i],
            forall|t: Seq<bool>| #[trigger] covers(t, start, ev) ==> within(s@, t),
            done ==> covers(s@, start, ev),
        decreases unmarked(s@), (!done) as int,
    {
        match missing_mark(&s, edges) {
            Some(j) => {
                let ghost before = s@;
                proof {
                    marking_shrinks(before, j as int);
                }
                s.set(j, true);
                proof {
                    assert forall|t: Seq<bool>| #[trigger] covers(t, start, ev) implies within(
                        s@,
                        t,
                    ) by {
                        assert(within(before, t));
                        let i = choose|i: int|
                            0 <= i < before.len() && before[i] && #[trigger] ev[i][j as int];
                        assert(t[i]);
                        assert(ev[i][j as int]);
                        assert(t[j as int]);
                        assert forall|k: int| 0 <= k < s@.len() && #[trigger] s@[k] implies t[k] by {
                            if k != j {
                                assert(before[k]);
                            }
                        }
                    }
                }
            },
            None => {
                done = true;
            },
        }
    }
    s
}

// ---- diffs ----

/// What an edit asks for: which items to check again, which to keep with them, and where
/// the others were before.
pub struct Diff {
    /// Whether everything is checked from scratch.
    pub full: bool,
    /// The items to check again.
    pub affected: Vec<bool>,
    /// Those and the definitions they depend on.
    pub reduced: Vec<bool>,
    /// For each item, its counterpart in the old version.
    pub matches: Vec<Option<usize>>,
}

/// The marks of the items to check again by themselves.
pub open spec fn seeds(prev: Seq<ItemV>, new: Seq<ItemV>) -> Seq<bool> {
    Seq::new(new.len(), |i: int| is_seed(prev, new, new[i]))
}

/// An edge from each item to those that use it.
pub open spec fn users(items: Seq<ItemV>) -> Seq<Seq<bool>> {
    Seq::new(items.len(), |i: int| Seq::new(items.len(), |j: int| uses(items[j], items[i])))
}

/// An edge from each item to those it uses.
pub open spec fn used(items: Seq<ItemV>) -> Seq<Seq<bool>> {
    Seq::new(items.len(), |i: int| Seq::new(items.len(), |j: int| uses(items[i], items[j])))
}

impl Diff {
    /// Whether this is what the edit from `prev` to `new` asks for.
    pub open spec fn of(self, prev: Seq<ItemV>, new: Seq<ItemV>) -> bool {
        &&& self.matches@.len() == new.len()
        &&& forall|i: int|
            0 <= i < new.len() ==> match #[trigger] self.matches@[i] {
                Some(k) => counterpart(prev, 0, new[i]) == Some(k as int),
                None => counterpart(prev, 0, new[i]) is None,
            }
        &&& least_cover(self.affected@, seeds(prev, new), users(new))
        &&& least_cover(self.reduced@, self.affected@, used(new))
    }
}

fn is_same(a: &Item, b: &Item) -> (r: bool)
    ensures
        r == same_item(a@, b@),
{
    a.kind == b.kind && str_eq(a.name.as_str(), b.name.as_str()) && str_eq(
        a.source.as_str(),
        b.source.as_str(),
    )
}

fn find_counterpart(items: &Vec<Item>, it: &Item) -> (r: Option<usize>)
    ensures
        match r {
            Some(k) => k < items.len() && counterpart(items_view(items@), 0, it@) == Some(k as int),
            None => counterpart(items_view(items@), 0, it@) is None,
        },
{
    let ghost iv = items_view(items@);
    let mut j: usize = 0;
    while j < items.len()
        invariant
            iv == items_view(items@),
            j <= items.len(),
            counterpart(iv, 0, it@) == counterpart(iv, j as int, it@),
        decreases items.len() - j,
    {
        assert(iv[j as int] == items[j as int]@);
        if is_same(&items[j], it) {
            return Some(j);
        }
        j = j + 1;
    }
    None
}

/// The words of every item.
fn all_words(items: &Vec<Item>) -> (r: Vec<NameSet>)
    ensures
        r.len() == items.len(),
        forall|i: int| 0 <= i < r.len() ==> (#[trigger] r[i])@ == words(items[i]@.source),
{
    let mut out: Vec<NameSet> = Vec::new();
    for i in 0..items.len()
        invariant
            out.len() == i,
            forall|j: int| 0 <= j < i ==> (#[trigger] out[j])@ == words(items[j]@.source),
    {
        out.push(words_of(items[i].source.as_str()));
    }
    out
}

/// The names that the old version declares otherwise.
fn stale_names(prev: &Vec<Item>, new: &Vec<Item>) -> (r: NameSet)
    ensures
        r@ == stale(items_view(prev@), prev@.len() as int, items_view(new@)),
{
    let ghost pv = items_view(prev@);
    let ghost nv = items_view(new@);
    let mut out = NameSet::new();
    for j in 0..prev.len()
        invariant
            pv == items_view(prev@),
            nv == items_view(new@),
            out@ == stale(pv, j as int, nv),
    {
        assert(pv[j as int] == prev[j as int]@);
        if find_counterpart(new, &prev[j]).is_none() {
            out.insert(prev[j].name.as_str());
        }
    }
    out
}

fn mentions_any(words: &NameSet, names: &NameSet) -> (r: bool)
    ensures
        r == !words@.disjoint(names@),
{
    let list = names.items();
    let ghost all = texts(list@);
    for i in 0..list.len()
        invariant
            all == texts(list@),
            lists(all, names@),
            forall|k: int| 0 <= k < i ==> !words@.contains(#[trigger] all[k]),
    {
        assert(all[i as int] == list[i as int]@);
        if words.contains(list[i].as_str()) {
            assert(names@.contains(all[i as int])) by {
                assert(all.contains(all[i as int]));
            }
            return true;
        }
    }
    assert(words@.disjoint(names@)) by {
        assert forall|n: Seq<char>| names@.contains(n) implies !words@.contains(n) by {
            assert(all.contains(n));
            let k = choose|k: int| 0 <= k < all.len() && all[k] == n;
            assert(!words@.contains(all[k]));
        }
    }
    false
}

/// The edges between items: from each to those that use it, or to those it uses.
fn edges_of(items: &Vec<Item>, ws: &Vec<NameSet>, to_users: bool) -> (r: Vec<Vec<bool>>)
    requires
        ws.len() == items.len(),
        forall|i: int| 0 <= i < ws.len() ==> (#[trigger] ws[i])@ == words(items[i]@.source),
    ensures
        r.len() == items.len(),
        forall|i: int| 0 <= i < r.len() ==> (#[trigger] r[i]).len() == items.len(),
        edge_view(r@) == (if to_users {
            users(items_view(items@))
        } else {
            used(items_view(items@))
        }),
{
    let ghost iv = items_view(items@);
    let n: usize = items.len();
    let mut out: Vec<Vec<bool>> = Vec::new();
    for i in 0..n
        invariant
            n == items.len(),
            n == ws.len(),
            iv == items_view(items@),
            forall|k: int| 0 <= k < ws.len() ==> (#[trigger] ws[k])@ == words(items[k]@.source),
            out.len() == i,
            forall|a: int| 0 <= a < i ==> (#[trigger] out[a]).len() == n,
            forall|a: int, b: int|
                0 <= a < i && 0 <= b < n ==> #[trigger] out[a][b] == (if to_users {
                    uses(iv[b], iv[a])
                } else {
                    uses(iv[a], iv[b])
                }),
    {
        let mut row: Vec<bool> = Vec::new();
        for j in 0..n
            invariant
                n == items.len(),
                n == ws.len(),
                i < n,
                iv == items_view(items@),
                forall|k: int| 0 <= k < ws.len() ==> (#[trigger] ws[k])@ == words(items[k]@.source),
                row.len() == j,
                forall|b: int|
                    0 <= b < j ==> #[trigger] row[b] == (if to_users {
                        uses(iv[b], iv[i as int])
                    } else {
                        uses(iv[i as int], iv[b])
                    }),
        {
            assert(iv[i as int] == items[i as int]@ && iv[j as int] == items[j as int]@);
            let e = if to_users {
                ws[j].contains(items[i].name.as_str())
            } else {
                ws[i].contains(items[j].name.as_str())
            };
            row.push(e);
        }
        out.push(row);
    }
    proof {
        let want = if to_users {
            users(iv)
        } else {
            used(iv)
        };
        assert forall|a: int| 0 <= a < n implies edge_view(out@)[a] =~= want[a] by {
            assert(out[a].len() == n);
            assert forall|b: int| 0 <= b < n implies edge_view(out@)[a][b] == want[a][b] by {
                assert(out[a][b] == edge_view(out@)[a][b]);
            }
        }
        assert(edge_view(out@) =~= want);
    }
    out
}

/// Whether an item stands twice.
pub open spec fn repeats(items: Seq<ItemV>) -> bool {
    exists|i: int, j: int|
        0 <= i < j < items.len() && same_item(#[trigger] items[i], #[trigger] items[j])
}

fn has_repeat(items: &Vec<Item>) -> (r: bool)
    ensures
        r == repeats(items_view(items@)),
{
    let ghost iv = items_view(items@);
    for j in 0..items.len()
        invariant
            iv == items_view(items@),
            forall|a: int, b: int|
                0 <= a < b < j ==> !same_item(#[trigger] iv[a], #[trigger] iv[b]),
    {
        for i in 0..j
            invariant
                iv == items_view(items@),
                j < items.len(),
                forall|a: int, b: int|
                    0 <= a < b < j ==> !same_item(#[trigger] iv[a], #[trigger] iv[b]),
                forall|a: int| 0 <= a < i ==> !same_item(#[trigger] iv[a], iv[j as int]),
        {
            assert(iv[i as int] == items[i as int]@ && iv[j as int] == items[j as int]@);
            if is_same(&items[i], &items[j]) {
                return true;
            }
        }
    }
    false
}

/// Compare the items of a new version with the old ones. Everything is checked from
/// scratch when there is nothing old, or when an item stands twice, so that what was
/// found in it may be about the other.
pub fn diff(prev: &Vec<Item>, new: &Vec<Item>) -> (r: Diff)
    ensures
        r.of(items_view(prev@), items_view(new@)),
        r.full == (prev@.len() == 0 || repeats(items_view(prev@)) || repeats(items_view(new@))),
{
    let ghost pv = items_view(prev@);
    let ghost nv = items_view(new@);
    let ws = all_words(new);
    let gone = stale_names(prev, new);
    let mut seed: Vec<bool> = Vec::new();
    let mut matches: Vec<Option<usize>> = Vec::new();
    for i in 0..new.len()
        invariant
            pv == items_view(prev@),
            nv == items_view(new@),
            ws.len() == new.len(),
            forall|k: int| 0 <= k < ws.len() ==> (#[trigger] ws[k])@ == words(new[k]@.source),
            gone@ == stale(pv, pv.len() as int, nv),
            seed.len() == i,
            matches.len() == i,
            forall|k: int| 0 <= k < i ==> #[trigger] seed[k] == is_seed(pv, nv, nv[k]),
            forall|k: int|
                0 <= k < i ==> match #[trigger] matches@[k] {
                    Some(m) => counterpart(pv, 0, nv[k]) == Some(m as int),
                    None => counterpart(pv, 0, nv[k]) is None,
                },
    {
        assert(nv[i as int] == new[i as int]@);
        let m = find_counterpart(prev, &new[i]);
        let s = m.is_none() || mentions_any(&ws[i], &gone);
        seed.push(s);
        matches.push(m);
    }
    assert(seed@ =~= seeds(pv, nv));
    let to_users = edges_of(new, &ws, true);
    let affected = closure(seed, &to_users);
    let to_used = edges_of(new, &ws, false);
    let reduced = closure(affected.clone(), &to_used);
    let full = prev.len() == 0 || has_repeat(prev) || has_repeat(new);
    Diff { full, affected, reduced, matches }
}

// ---- what an item sees ----

/// Whether `b` is within `n` steps of use from `a`.
pub open spec fn sees(items: Seq<ItemV>, a: int, b: int, n: nat) -> bool
    decreases n,
{
    if n == 0 {
        a == b
    } else {
        sees(items, a, b, (n - 1) as nat) || exists|c: int|
            0 <= c < items.len() && sees(items, a, c, (n - 1) as nat) && uses(
                #[trigger] items[c],
                items[b],
            )
    }
}

/// What an item that need not be checked again sees is not changed by the edit: each
/// definition it sees, however far, is the same as one that its counterpart saw in the
/// old version.
pub proof fn unaffected_sees_the_same(
    prev: Seq<ItemV>,
    new: Seq<ItemV>,
    affected: Seq<bool>,
    i: int,
    j: int,
    b: int,
    n: nat,
) -> (k: int)
    requires
        least_cover(affected, seeds(prev, new), users(new)),
        0 <= i < new.len(),
        !affected[i],
        0 <= j < prev.len(),
        same_item(prev[j], new[i]),
        0 <= b < new.len(),
        sees(new, i, b, n),
    ensures
        0 <= k < prev.len(),
        same_item(prev[k], new[b]),
        sees(prev, j, k, n),
        !affected[b],
    decreases n,
{
    if n == 0 {
        j
    } else if sees(new, i, b, (n - 1) as nat) {
        unaffected_sees_the_same(prev, new, affected, i, j, b, (n - 1) as nat)
    } else {
        let c = choose|c: int|
            0 <= c < new.len() && sees(new, i, c, (n - 1) as nat) && uses(
                #[trigger] new[c],
                new[b],
            );
        let m = unaffected_sees_the_same(prev, new, affected, i, j, c, (n - 1) as nat);
        if affected[b] {
            assert(users(new)[b][c]);
        }
        assert(!affected[b]);
        assert(!seeds(prev, new)[b]);
        counterpart_facts(prev, 0, new[b]);
        let k = counterpart(prev, 0, new[b])->0;
        assert(uses(prev[m], prev[k]));
        k
    }
}

/// And the other way: each definition that the counterpart saw in the old version is
/// still there and still seen.
pub proof fn unaffected_still_sees(
    prev: Seq<ItemV>,
    new: Seq<ItemV>,
    affected: Seq<bool>,
    i: int,
    j: int,
    k: int,
    n: nat,
) -> (b: int)
    requires
        least_cover(affected, seeds(prev, new), users(new)),
        0 <= i < new.len(),
        !affected[i],
        0 <= j < prev.len(),
        same_item(prev[j], new[i]),
        0 <= k < prev.len(),
        sees(prev, j, k, n),
    ensures
        0 <= b < new.len(),
        same_item(prev[k], new[b]),
        sees(new, i, b, n),
        !affected[b],
    decreases n,
{
    if n == 0 {
        i
    } else if sees(prev, j, k, (n - 1) as nat) {
        unaffected_still_sees(prev, new, affected, i, j, k, (n - 1) as nat)
    } else {
        let m = choose|m: int|
            0 <= m < prev.len() && sees(prev, j, m, (n - 1) as nat) && uses(
                #[trigger] prev[m],
                prev[k],
            );
        let c = unaffected_still_sees(prev, new, affected, i, j, m, (n - 1) as nat);
        assert(!seeds(prev, new)[c]);
        if is_changed(new, prev[k]) {
            stale_has(prev, prev.len() as int, new, k);
            assert(words(new[c].source).contains(prev[k].name));
            assert(uses_stale(prev, new, new[c]));
        }
        counterpart_facts(new, 0, prev[k]);
        let b = counterpart(new, 0, prev[k])->0;
        assert(uses(new[c], new[b]));
        if affected[b] {
            assert(users(new)[b][c]);
        }
        b
    }
}

/// The reduced document holds everything that an item to be checked again sees.
pub proof fn reduced_holds_what_is_seen(
    new: Seq<ItemV>,
    affected: Seq<bool>,
    reduced: Seq<bool>,
    i: int,
    b: int,
    n: nat,
)
    requires
        affected.len() == new.len(),
        least_cover(reduced, affected, used(new)),
        0 <= i < new.len(),
        affected[i],
        0 <= b < new.len(),
        sees(new, i, b, n),
    ensures
        reduced[b],
    decreases n,
{
    if n > 0 {
        if sees(new, i, b, (n - 1) as nat) {
            reduced_holds_what_is_seen(new, affected, reduced, i, b, (n - 1) as nat);
        } else {
            let c = choose|c: int|
                0 <= c < new.len() && sees(new, i, c, (n - 1) as nat) && uses(
                    #[trigger] new[c],
                    new[b],
                );
            reduced_holds_what_is_seen(new, affected, reduced, i, c, (n - 1) as nat);
            assert(used(new)[c][b]);
        }
    }
}

/// An edit that changes no item asks for no check.
pub proof fn nothing_changed_nothing_affected(items: Seq<ItemV>, moved: Seq<ItemV>, d: Seq<bool>)
    requires
        items.len() == moved.len(),
        forall|i: int| 0 <= i < items.len() ==> same_item(#[trigger] items[i], moved[i]),
        least_cover(d, seeds(items, moved), users(moved)),
    ensures
        forall|i: int| 0 <= i < d.len() ==> !#[trigger] d[i],
{
    let none = Seq::new(moved.len(), |i: int| false);
    assert forall|i: int| 0 <= i < moved.len() implies !#[trigger] seeds(items, moved)[i] by {
        counterpart_facts(items, 0, moved[i]);
        assert(same_item(items[i], moved[i]));
        if uses_stale(items, moved, moved[i]) {
            let gone = stale(items, items.len() as int, moved);
            let name = choose|name: Seq<char>|
                words(moved[i].source).contains(name) && gone.contains(name);
            let j = stale_is(items, items.len() as int, moved, name);
            counterpart_facts(moved, 0, items[j]);
            assert(same_item(moved[j], items[j]));
        }
    }
    assert(covers(none, seeds(items, moved), users(moved)));
    assert(within(d, none));
}

} // verus!
