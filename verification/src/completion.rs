//! Completion.
//!
//! Three contexts are handled. Inside an `import` statement the cursor is offered module
//! path segments (`import math.|`) and, within the brace list, the public names a module
//! exports (`import math.{ |`); the context is recovered textually from the current line,
//! so it works while the line does not yet parse. After a `.` (`a.|`) the cursor is
//! offered the members reachable on the receiver, or, when the receiver is a type name
//! (`Shape.|`), that type's variants and methods. Everywhere else the cursor is offered
//! the types and functions visible from the document.
//!
//! [`request`] decides what is being completed; the other functions turn the answers of
//! an analysis, a parse or a directory listing into the items offered.

use vstd::prelude::*;
use crate::analysis::{FullAnalysis, TypeScheme};
use crate::ast::{clone_opt_string, opt_text, top_levels_view, Module, TopLevel, TopLevelV, TypeBody, TypeBodyV};
use crate::definition::{main_module, main_path};
use crate::document::{find_index, index_of, line_begin, Document, Position};
use crate::hir::{field_infos_view, named_fun_infos_view, named_method_infos_view, named_type_infos_view, prim_view, slots_view, type_in, type_with_id, variant_infos_view, FieldInfo, FieldInfoV, FunInfo, FunInfoV, MethodInfo, MethodInfoV, Program, ProgramV, TypeInfo, TypeInfoV, TypeKind, TypeKindV, VariantInfo, VariantInfoV};
use crate::hover::{opt_string, receiver_type, receiver_type_at, resolve_signature, resolved_signature, scheme_named, schemes_view, SchemeV};
use crate::items::is_ident_char;
use crate::lexer::{continues_ident, is_digit, scan, scan_bounds};
use crate::nav::{bare, peel_transparent};
use crate::offsets::{byte_off, Chars};
use crate::render::{declared_signature, instance_type, is_public, is_public_member, render_signature, render_type, rendered, NamerV, UnknownNamer};
use crate::table::{find_key, find_path, first_pos, first_pos_contains, first_pos_unique, keys_of, lookup, names, paths};
use crate::text::{cat2, cat3, chars_of, contains_string, has_prefix, join, starts_with, str_eq, string_of, strings_eq, texts};
use crate::typed::TypedExprV;
use crate::types::{class_of, opt_type_ref, Substitution, Type, TypeV};

verus! {

// ---- items ----

/// What a completion item stands for.
#[derive(Clone, Copy, Debug, PartialEq, Eq, Structural)]
pub enum CompletionItemKind {
    Module,
    Function,
    Method,
    Field,
    Struct,
    Enum,
    EnumMember,
}

/// One offered completion.
#[derive(Debug, PartialEq)]
pub struct CompletionItem {
    pub label: String,
    pub kind: CompletionItemKind,
    pub detail: Option<String>,
    pub documentation: Option<String>,
}

/// The model of [`CompletionItem`].
#[verifier::ext_equal]
pub ghost struct ItemV {
    pub label: Seq<char>,
    pub kind: CompletionItemKind,
    pub detail: Option<Seq<char>>,
    pub documentation: Option<Seq<char>>,
}

impl View for CompletionItem {
    type V = ItemV;

    open spec fn view(&self) -> ItemV {
        ItemV {
            label: self.label@,
            kind: self.kind,
            detail: opt_text(self.detail),
            documentation: opt_text(self.documentation),
        }
    }
}

/// The models of items.
pub open spec fn items_view(v: Seq<CompletionItem>) -> Seq<ItemV> {
    Seq::new(v.len(), |i: int| v[i]@)
}

/// An item without documentation.
pub open spec fn plain(label: Seq<char>, kind: CompletionItemKind, detail: Option<Seq<char>>) -> ItemV {
    ItemV { label, kind, detail, documentation: None }
}

fn item(label: String, kind: CompletionItemKind, detail: Option<String>) -> (r: CompletionItem)
    ensures
        r@ == plain(label@, kind, opt_text(detail)),
{
    CompletionItem { label, kind, detail, documentation: None }
}

fn doc_item(
    label: &str,
    kind: CompletionItemKind,
    detail: Option<String>,
    doc: Option<&String>,
) -> (r: CompletionItem)
    ensures
        r@ == (ItemV {
            label: label@,
            kind,
            detail: opt_text(detail),
            documentation: opt_string(doc),
        }),
{
    let documentation = match doc {
        Some(d) => Some(d.clone()),
        None => None,
    };
    CompletionItem { label: label.to_owned(), kind, detail, documentation }
}

fn push_item(out: &mut Vec<CompletionItem>, it: CompletionItem)
    ensures
        items_view(final(out)@) == items_view(old(out)@).push(it@),
{
    let ghost before = items_view(out@);
    let ghost v = it@;
    out.push(it);
    assert(items_view(out@) =~= before.push(v));
}

/// The labels of items.
pub open spec fn labels(s: Seq<ItemV>) -> Seq<Seq<char>> {
    Seq::new(s.len(), |i: int| s[i].label)
}

/// The items whose label begins with `prefix`.
pub open spec fn with_prefix(s: Seq<ItemV>, prefix: Seq<char>) -> Seq<ItemV>
    decreases s.len(),
{
    if s.len() == 0 {
        s
    } else {
        let r = with_prefix(s.drop_last(), prefix);
        if has_prefix(s.last().label, prefix) {
            r.push(s.last())
        } else {
            r
        }
    }
}

/// The items without those whose label occurred before.
pub open spec fn deduped(s: Seq<ItemV>) -> Seq<ItemV>
    decreases s.len(),
{
    if s.len() == 0 {
        s
    } else {
        let r = deduped(s.drop_last());
        if labels(s.drop_last()).contains(s.last().label) {
            r
        } else {
            r.push(s.last())
        }
    }
}

/// Every label that occurs is still offered, and no other.
pub proof fn deduped_keeps(s: Seq<ItemV>, l: Seq<char>)
    ensures
        labels(deduped(s)).contains(l) == labels(s).contains(l),
    decreases s.len(),
{
    if s.len() > 0 {
        let t = s.drop_last();
        deduped_keeps(t, l);
        let ls = labels(s);
        let lt = labels(t);
        let lr = labels(deduped(t));
        let ld = labels(deduped(s));
        assert(ls =~= lt.push(s.last().label));
        if lt.contains(l) {
            let i = choose|i: int| 0 <= i < lt.len() && lt[i] == l;
            assert(ls[i] == l);
            let k = choose|k: int| 0 <= k < lr.len() && lr[k] == l;
            assert(ld[k] == l);
        }
        if !lt.contains(s.last().label) {
            assert(ld =~= lr.push(s.last().label));
            if l == s.last().label {
                assert(ld[lr.len() as int] == l);
                assert(ls[lt.len() as int] == l);
            }
        } else {
            assert(ld =~= lr);
        }
        if ls.contains(l) && !lt.contains(l) {
            let i = choose|i: int| 0 <= i < ls.len() && ls[i] == l;
            assert(i == lt.len()) by {
                if i < lt.len() {
                    assert(lt[i] == l);
                }
            }
        }
        if ld.contains(l) && !lr.contains(l) {
            let i = choose|i: int| 0 <= i < ld.len() && ld[i] == l;
            assert(i == lr.len()) by {
                if i < lr.len() {
                    assert(lr[i] == l);
                }
            }
        }
    }
}

/// No label is offered twice.
pub proof fn deduped_labels(s: Seq<ItemV>)
    ensures
        forall|i: int, j: int|
            0 <= i < j < deduped(s).len() ==> (#[trigger] deduped(s)[i]).label != (
            #[trigger] deduped(s)[j]).label,
    decreases s.len(),
{
    let d = deduped(s);
    if s.len() > 0 {
        let t = s.drop_last();
        deduped_labels(t);
        let r = deduped(t);
        if !labels(t).contains(s.last().label) {
            deduped_keeps(t, s.last().label);
            assert forall|i: int, j: int| 0 <= i < j < d.len() implies (#[trigger] d[i]).label != (
            #[trigger] d[j]).label by {
                assert(d[i] == r[i]);
                if j == r.len() {
                    assert(labels(r)[i] == d[i].label);
                } else {
                    assert(d[j] == r[j]);
                }
            }
        }
    }
}

fn copy_item(it: &CompletionItem) -> (r: CompletionItem)
    ensures
        r@ == it@,
{
    CompletionItem {
        label: it.label.clone(),
        kind: it.kind,
        detail: clone_opt_string(&it.detail),
        documentation: clone_opt_string(&it.documentation),
    }
}

/// Keep the items whose label begins with `prefix`.
pub fn filter_prefix(items: Vec<CompletionItem>, prefix: &str) -> (r: Vec<CompletionItem>)
    ensures
        items_view(r@) == with_prefix(items_view(items@), prefix@),
{
    let ghost all = items_view(items@);
    let mut out: Vec<CompletionItem> = Vec::new();
    assert(items_view(out@) =~= with_prefix(all.take(0), prefix@));
    for i in 0..items.len()
        invariant
            all == items_view(items@),
            items_view(out@) == with_prefix(all.take(i as int), prefix@),
    {
        proof {
            assert(all.take(i + 1).drop_last() =~= all.take(i as int));
            assert(all.take(i + 1).last() == items[i as int]@);
        }
        if starts_with(items[i].label.as_str(), prefix) {
            push_item(&mut out, copy_item(&items[i]));
        }
    }
    assert(all.take(items.len() as int) =~= all);
    out
}

/// Keep the first item of each label.
pub fn dedup_by_label(items: Vec<CompletionItem>) -> (r: Vec<CompletionItem>)
    ensures
        items_view(r@) == deduped(items_view(items@)),
{
    let ghost all = items_view(items@);
    let mut out: Vec<CompletionItem> = Vec::new();
    let mut seen: Vec<String> = Vec::new();
    assert(items_view(out@) =~= deduped(all.take(0)));
    assert(texts(seen@) =~= labels(all.take(0)));
    for i in 0..items.len()
        invariant
            all == items_view(items@),
            items_view(out@) == deduped(all.take(i as int)),
            texts(seen@) == labels(all.take(i as int)),
    {
        let ghost was = texts(seen@);
        let it = &items[i];
        proof {
            assert(all.take(i + 1).drop_last() =~= all.take(i as int));
            assert(all.take(i + 1).last() == it@);
        }
        if !contains_string(seen.as_slice(), it.label.as_str()) {
            push_item(&mut out, copy_item(it));
        }
        seen.push(it.label.clone());
        proof {
            assert(texts(seen@) =~= was.push(it@.label));
            assert(labels(all.take(i + 1)) =~= was.push(it@.label));
        }
    }
    assert(all.take(items.len() as int) =~= all);
    out
}

// ---- text ----

/// Whether a character is white space (the Unicode property `White_Space`).
pub open spec fn is_white(c: char) -> bool {
    ('\u{9}' <= c && c <= '\u{d}') || c == ' ' || c == '\u{85}' || c == '\u{a0}' || c == '\u{1680}'
        || ('\u{2000}' <= c && c <= '\u{200a}') || c == '\u{2028}' || c == '\u{2029}' || c
        == '\u{202f}' || c == '\u{205f}' || c == '\u{3000}'
}

/// Whether a character is white space.
pub fn is_whitespace(c: char) -> (r: bool)
    ensures
        r == is_white(c),
{
    ('\u{9}' <= c && c <= '\u{d}') || c == ' ' || c == '\u{85}' || c == '\u{a0}' || c == '\u{1680}'
        || ('\u{2000}' <= c && c <= '\u{200a}') || c == '\u{2028}' || c == '\u{2029}' || c
        == '\u{202f}' || c == '\u{205f}' || c == '\u{3000}'
}

/// White space.
pub open spec fn white() -> spec_fn(char) -> bool {
    |c: char| is_white(c)
}

/// A text without the white space it begins with.
pub open spec fn trimmed_start(s: Seq<char>) -> Seq<char> {
    s.skip(scan(s, 0, white()))
}

/// A text without the white space it ends with.
pub open spec fn trimmed_end(s: Seq<char>) -> Seq<char>
    decreases s.len(),
{
    if s.len() > 0 && is_white(s.last()) {
        trimmed_end(s.drop_last())
    } else {
        s
    }
}

/// A text without the white space around it.
pub open spec fn trimmed(s: Seq<char>) -> Seq<char> {
    trimmed_end(trimmed_start(s))
}

/// A text without the dots it ends with.
pub open spec fn without_dots(s: Seq<char>) -> Seq<char>
    decreases s.len(),
{
    if s.len() > 0 && s.last() == '.' {
        without_dots(s.drop_last())
    } else {
        s
    }
}

/// The pieces of a text between the occurrences of `sep`.
pub open spec fn split(s: Seq<char>, sep: char) -> Seq<Seq<char>>
    decreases s.len(),
{
    if s.len() == 0 {
        seq![Seq::empty()]
    } else {
        let r = split(s.drop_last(), sep);
        if s.last() == sep {
            r.push(Seq::empty())
        } else {
            r.drop_last().push(r.last().push(s.last()))
        }
    }
}

/// Joining the pieces with the separator gives the text back, and no piece holds it.
pub proof fn split_join(s: Seq<char>, sep: char)
    ensures
        split(s, sep).len() > 0,
        join(split(s, sep), seq![sep]) == s,
        forall|i: int| 0 <= i < split(s, sep).len() ==> !(#[trigger] split(s, sep)[i]).contains(sep),
    decreases s.len(),
{
    let p = split(s, sep);
    if s.len() > 0 {
        let t = s.drop_last();
        split_join(t, sep);
        let r = split(t, sep);
        assert(s =~= t.push(s.last()));
        if s.last() == sep {
            assert(p.drop_last() =~= r);
            assert(join(p, seq![sep]) =~= s);
        } else {
            let q = r.last().push(s.last());
            assert(p.drop_last() =~= r.drop_last());
            assert(p.last() == q);
            assert(!q.contains(sep)) by {
                if q.contains(sep) {
                    let i = choose|i: int| 0 <= i < q.len() && q[i] == sep;
                    if i < r.last().len() {
                        assert(r.last()[i] == sep);
                        assert(r.last().contains(sep));
                    }
                }
            }
            if r.len() == 1 {
                assert(join(p, seq![sep]) =~= s);
            } else {
                assert(join(p, seq![sep]) =~= s);
            }
        }
    } else {
        assert(join(p, seq![sep]) =~= s);
    }
}

fn trim_start(s: &Vec<char>) -> (r: Vec<char>)
    ensures
        r@ == trimmed_start(s@),
{
    let mut i: usize = 0;
    proof {
        scan_bounds(s@, 0, white());
    }
    let ghost stop = scan(s@, 0, white());
    while i < s.len() && is_whitespace(s[i])
        invariant
            i <= s.len(),
            stop == scan(s@, i as int, white()),
            i <= stop <= s@.len(),
        decreases s.len() - i,
    {
        proof {
            scan_bounds(s@, i as int, white());
            scan_bounds(s@, i + 1, white());
        }
        i = i + 1;
    }
    part(s, i, s.len())
}

/// The characters `s[lo..hi]`.
fn part(s: &Vec<char>, lo: usize, hi: usize) -> (r: Vec<char>)
    requires
        lo <= hi <= s.len(),
    ensures
        r@ == s@.subrange(lo as int, hi as int),
        hi == s.len() ==> r@ == s@.skip(lo as int),
        lo == 0 ==> r@ == s@.take(hi as int),
{
    let mut out: Vec<char> = Vec::new();
    let mut i: usize = lo;
    while i < hi
        invariant
            lo <= i <= hi <= s.len(),
            out@ == s@.subrange(lo as int, i as int),
        decreases hi - i,
    {
        out.push(s[i]);
        i = i + 1;
        assert(s@.subrange(lo as int, i as int) =~= s@.subrange(lo as int, i - 1).push(s@[i - 1]));
    }
    proof {
        if hi == s.len() {
            assert(out@ =~= s@.skip(lo as int));
        }
        if lo == 0 {
            assert(out@ =~= s@.take(hi as int));
        }
    }
    out
}

fn trim(s: &Vec<char>) -> (r: Vec<char>)
    ensures
        r@ == trimmed(s@),
{
    let mut t = trim_start(s);
    while t.len() > 0 && is_whitespace(t[t.len() - 1])
        invariant
            trimmed_end(t@) == trimmed(s@),
        decreases t.len(),
    {
        t.pop();
    }
    t
}

fn trim_dots(s: Vec<char>) -> (r: Vec<char>)
    ensures
        r@ == without_dots(s@),
{
    let ghost want = without_dots(s@);
    let mut t = s;
    while t.len() > 0 && t[t.len() - 1] == '.'
        invariant
            without_dots(t@) == want,
        decreases t.len(),
    {
        t.pop();
    }
    t
}

/// The models of character lists.
pub open spec fn pieces(v: Seq<Vec<char>>) -> Seq<Seq<char>> {
    Seq::new(v.len(), |i: int| v[i]@)
}

fn split_chars(s: &Vec<char>, sep: char) -> (r: Vec<Vec<char>>)
    ensures
        pieces(r@) == split(s@, sep),
        r.len() > 0,
{
    let mut out: Vec<Vec<char>> = Vec::new();
    let mut cur: Vec<char> = Vec::new();
    assert(pieces(out@).push(cur@) =~= split(s@.take(0), sep));
    for i in 0..s.len()
        invariant
            pieces(out@).push(cur@) == split(s@.take(i as int), sep),
    {
        proof {
            assert(s@.take(i + 1).drop_last() =~= s@.take(i as int));
            assert(s@.take(i + 1).last() == s@[i as int]);
        }
        let ghost before = pieces(out@);
        let ghost last = cur@;
        if s[i] == sep {
            out.push(cur);
            cur = Vec::new();
            assert(pieces(out@) =~= before.push(last));
        } else {
            cur.push(s[i]);
            assert(before.push(last).drop_last() =~= before);
        }
        assert(pieces(out@).push(cur@) =~= split(s@.take(i + 1), sep));
    }
    assert(s@.take(s.len() as int) =~= s@);
    let ghost before = pieces(out@);
    let ghost last = cur@;
    out.push(cur);
    assert(pieces(out@) =~= before.push(last));
    out
}

// ---- import contexts ----

/// Pieces without the empty ones that lead; the last piece stays.
pub open spec fn without_leading(ps: Seq<Seq<char>>) -> Seq<Seq<char>>
    decreases ps.len(),
{
    if ps.len() > 1 && ps[0].len() == 0 {
        without_leading(ps.drop_first())
    } else {
        ps
    }
}

/// Pieces with at most one empty one at the end.
pub open spec fn with_one_trailing(ps: Seq<Seq<char>>) -> Seq<Seq<char>>
    decreases ps.len(),
{
    if ps.len() > 1 && ps.last().len() == 0 && ps[ps.len() - 2].len() == 0 {
        with_one_trailing(ps.drop_last())
    } else {
        ps
    }
}

/// The pieces of a dotted path, each without the white space around it.
pub open spec fn path_pieces(s: Seq<char>) -> Seq<Seq<char>> {
    Seq::new(split(s, '.').len(), |i: int| trimmed(split(s, '.')[i]))
}

/// The segments of a dotted path: its pieces without the empty ones that lead or trail,
/// but for one trailing empty segment, which means that a fresh segment is being completed.
pub open spec fn path_segments(s: Seq<char>) -> Seq<Seq<char>> {
    if s.len() == 0 {
        Seq::empty()
    } else {
        with_one_trailing(without_leading(path_pieces(s)))
    }
}

proof fn leading_is_skip(ps: Seq<Seq<char>>, k: int)
    requires
        0 <= k < ps.len(),
        forall|j: int| 0 <= j < k ==> (#[trigger] ps[j]).len() == 0,
        k + 1 < ps.len() ==> ps[k].len() > 0,
    ensures
        without_leading(ps) == ps.skip(k),
    decreases k,
{
    if k > 0 {
        let rest = ps.drop_first();
        assert forall|j: int| 0 <= j < k - 1 implies (#[trigger] rest[j]).len() == 0 by {
            assert(rest[j] == ps[j + 1]);
        }
        leading_is_skip(rest, k - 1);
        assert(rest.skip(k - 1) =~= ps.skip(k));
    } else {
        assert(ps.skip(0) =~= ps);
    }
}

proof fn trailing_is_take(ps: Seq<Seq<char>>, n: int)
    requires
        1 <= n <= ps.len(),
        forall|j: int| n - 1 <= j < ps.len() && n < ps.len() ==> (#[trigger] ps[j]).len() == 0,
        n == 1 || ps[n - 1].len() > 0 || ps[n - 2].len() > 0,
    ensures
        with_one_trailing(ps) == ps.take(n),
    decreases ps.len(),
{
    if n < ps.len() {
        let rest = ps.drop_last();
        assert forall|j: int| n - 1 <= j < rest.len() && n < rest.len() implies (
        #[trigger] rest[j]).len() == 0 by {
            assert(rest[j] == ps[j]);
        }
        assert(rest[n - 1] == ps[n - 1]);
        trailing_is_take(rest, n);
        assert(rest.take(n) =~= ps.take(n));
        assert(ps.last().len() == 0);
        assert(ps[ps.len() - 2].len() == 0);
    } else {
        assert(ps.take(n) =~= ps);
    }
}

fn split_path(s: &Vec<char>) -> (r: Vec<String>)
    ensures
        texts(r@) == path_segments(s@),
{
    let mut out: Vec<String> = Vec::new();
    if s.len() == 0 {
        assert(texts(out@) =~= path_segments(s@));
        return out;
    }
    let ps = split_chars(s, '.');
    let ghost want = split(s@, '.');
    let mut all: Vec<Vec<char>> = Vec::new();
    for i in 0..ps.len()
        invariant
            want == pieces(ps@),
            all.len() == i,
            forall|j: int| 0 <= j < i ==> (#[trigger] all[j])@ == trimmed(want[j]),
    {
        assert(want[i as int] == ps[i as int]@);
        all.push(trim(&ps[i]));
    }
    let ghost av = path_pieces(s@);
    assert(av.len() == all.len());
    proof {
        split_not_empty(s@, '.');
    }
    let mut lo: usize = 0;
    while lo + 1 < all.len() && all[lo].len() == 0
        invariant
            lo < all.len(),
            av.len() == all.len(),
            forall|j: int| 0 <= j < all.len() ==> (#[trigger] all[j])@ == av[j],
            forall|j: int| 0 <= j < lo ==> (#[trigger] av[j]).len() == 0,
        decreases all.len() - lo,
    {
        assert(all[lo as int]@ == av[lo as int]);
        lo = lo + 1;
    }
    proof {
        assert(all[lo as int]@ == av[lo as int]);
        leading_is_skip(av, lo as int);
    }
    let ghost rest = av.skip(lo as int);
    let mut hi: usize = all.len();
    while hi > lo + 1 && all[hi - 1].len() == 0 && all[hi - 2].len() == 0
        invariant
            lo < hi <= all.len(),
            av.len() == all.len(),
            forall|j: int| 0 <= j < all.len() ==> (#[trigger] all[j])@ == av[j],
            forall|j: int| hi - 1 <= j < av.len() && hi < av.len() ==> (#[trigger] av[j]).len() == 0,
        decreases hi,
    {
        assert(all[hi - 1]@ == av[hi - 1]);
        assert(all[hi - 2]@ == av[hi - 2]);
        hi = hi - 1;
    }
    proof {
        assert forall|j: int| hi - lo - 1 <= j < rest.len() && hi - lo < rest.len() implies (
        #[trigger] rest[j]).len() == 0 by {
            assert(rest[j] == av[j + lo]);
        }
        if hi > lo + 1 {
            assert(all[hi - 1]@ == av[hi - 1]);
            assert(all[hi - 2]@ == av[hi - 2]);
            assert(rest[hi - lo - 1] == av[hi - 1]);
            assert(rest[hi - lo - 2] == av[hi - 2]);
        }
        trailing_is_take(rest, hi - lo);
    }
    let ghost segs = rest.take(hi - lo);
    for i in lo..hi
        invariant
            lo <= hi <= all.len(),
            av.len() == all.len(),
            rest == av.skip(lo as int),
            segs == rest.take(hi - lo),
            forall|j: int| 0 <= j < all.len() ==> (#[trigger] all[j])@ == av[j],
            out.len() == i - lo,
            forall|j: int| 0 <= j < i - lo ==> (#[trigger] out[j])@ == segs[j],
    {
        let t = &all[i];
        assert(t@ == av[i as int]);
        assert(segs[i - lo] == av[i as int]);
        assert(t@.subrange(0, t@.len() as int) =~= t@);
        out.push(string_of(t.as_slice(), 0, t.len()));
    }
    assert(texts(out@) =~= path_segments(s@));
    out
}

/// No segment but the last is empty at either end of a path.
pub proof fn paths_begin_with_a_name(s: Seq<char>)
    ensures
        path_segments(s).len() > 1 ==> path_segments(s)[0].len() > 0,
{
    if s.len() > 0 {
        leading_is_not_empty(path_pieces(s));
        trailing_keeps_first(without_leading(path_pieces(s)));
    }
}

proof fn leading_is_not_empty(ps: Seq<Seq<char>>)
    ensures
        without_leading(ps).len() > 1 ==> without_leading(ps)[0].len() > 0,
    decreases ps.len(),
{
    if ps.len() > 1 && ps[0].len() == 0 {
        leading_is_not_empty(ps.drop_first());
    }
}

proof fn trailing_keeps_first(ps: Seq<Seq<char>>)
    ensures
        with_one_trailing(ps).len() <= ps.len(),
        with_one_trailing(ps).len() > 0 ==> with_one_trailing(ps)[0] == ps[0],
    decreases ps.len(),
{
    if ps.len() > 1 && ps.last().len() == 0 && ps[ps.len() - 2].len() == 0 {
        trailing_keeps_first(ps.drop_last());
    }
}

proof fn split_not_empty(s: Seq<char>, sep: char)
    ensures
        split(s, sep).len() > 0,
    decreases s.len(),
{
}

/// What the text of a line asks to complete, if it is an import.
pub ghost enum ImportContextV {
    Path { parents: Seq<Seq<char>>, prefix: Seq<char> },
    Names { module: Seq<Seq<char>>, prefix: Seq<char> },
}

/// What an import statement's cursor is completing.
#[derive(Debug, PartialEq)]
pub enum ImportContext {
    /// A module path segment, e.g. `import math.|` has the parents `math`.
    Path { parents: Vec<String>, prefix: String },
    /// A name in the brace list, e.g. `import math.{ a, |` has the module `math`.
    Names { module: Vec<String>, prefix: String },
}

impl View for ImportContext {
    type V = ImportContextV;

    open spec fn view(&self) -> ImportContextV {
        match *self {
            ImportContext::Path { parents, prefix } => ImportContextV::Path {
                parents: texts(parents@),
                prefix: prefix@,
            },
            ImportContext::Names { module, prefix } => ImportContextV::Names {
                module: texts(module@),
                prefix: prefix@,
            },
        }
    }
}

/// What is being completed in the import text `spec` (behind the keyword): within braces
/// a name after the last comma, else the last segment of a dotted path.
pub open spec fn import_target(spec: Seq<char>) -> ImportContextV {
    let b = first_pos(spec, '{');
    if b < spec.len() {
        ImportContextV::Names {
            module: path_segments(without_dots(trimmed(spec.take(b)))),
            prefix: trimmed(split(spec.skip(b + 1), ',').last()),
        }
    } else {
        let segs = path_segments(spec);
        if segs.len() == 0 {
            ImportContextV::Path { parents: segs, prefix: Seq::empty() }
        } else {
            ImportContextV::Path { parents: segs.drop_last(), prefix: segs.last() }
        }
    }
}

/// What a line up to the cursor completes; `None` when it is not an import. White space
/// must follow the keyword, so `important` is not one.
pub open spec fn import_context_of(line: Seq<char>) -> Option<ImportContextV> {
    let t = trimmed_start(line);
    if has_prefix(t, "import"@) && t.len() > "import"@.len() && is_white(t["import"@.len() as int]) {
        Some(import_target(trimmed_start(t.skip("import"@.len() as int))))
    } else {
        None
    }
}

/// The model of an optional import context.
pub open spec fn opt_context(o: Option<ImportContext>) -> Option<ImportContextV> {
    match o {
        Some(c) => Some(c@),
        None => None,
    }
}

fn find_char(s: &Vec<char>, c: char) -> (r: usize)
    ensures
        r == first_pos(s@, c),
        r <= s.len(),
{
    let mut i: usize = 0;
    while i < s.len() && s[i] != c
        invariant
            i <= s.len(),
            forall|j: int| 0 <= j < i ==> s@[j] != c,
        decreases s.len() - i,
    {
        i = i + 1;
    }
    proof {
        first_pos_unique(s@, c, i as int);
    }
    i
}

fn import_target_at(spec: &Vec<char>) -> (r: ImportContext)
    ensures
        r@ == import_target(spec@),
{
    let b = find_char(spec, '{');
    if b < spec.len() {
        let before = part(spec, 0, b);
        let after = part(spec, b + 1, spec.len());
        let module = split_path(&trim_dots(trim(&before)));
        let ps = split_chars(&after, ',');
        let last = ps.len() - 1;
        assert(pieces(ps@).last() == ps[last as int]@);
        let p = trim(&ps[last]);
        assert(p@.subrange(0, p@.len() as int) =~= p@);
        return ImportContext::Names { module, prefix: string_of(p.as_slice(), 0, p.len()) };
    }
    let mut segments = split_path(spec);
    let ghost segs = texts(segments@);
    if segments.len() == 0 {
        let prefix = String::new();
        assert(prefix@ =~= Seq::empty());
        return ImportContext::Path { parents: segments, prefix };
    }
    let prefix = segments.pop().unwrap();
    proof {
        assert(prefix@ == segs.last());
        assert(texts(segments@) =~= segs.drop_last());
    }
    ImportContext::Path { parents: segments, prefix }
}

/// Recognise an import statement from the line text up to the cursor and decide what is
/// being completed.
pub fn import_context(line_prefix: &Vec<char>) -> (r: Option<ImportContext>)
    ensures
        opt_context(r) == import_context_of(line_prefix@),
{
    let t = trim_start(line_prefix);
    assert(t@.subrange(0, t@.len() as int) =~= t@);
    let text = string_of(t.as_slice(), 0, t.len());
    proof {
        reveal_strlit("import");
    }
    if !starts_with(text.as_str(), "import") || t.len() <= 6 || !is_whitespace(t[6]) {
        return None;
    }
    let spec = trim_start(&part(&t, 6, t.len()));
    Some(import_target_at(&spec))
}

// ---- import items ----

/// The segments of nested module keys (written with `/`) that come next behind `parents`.
pub open spec fn next_segments(keys: Seq<Seq<char>>, parents: Seq<Seq<char>>) -> Seq<Seq<char>>
    decreases keys.len(),
{
    if keys.len() == 0 {
        Seq::empty()
    } else {
        let r = next_segments(keys.drop_last(), parents);
        let segs = split(keys.last(), '/');
        if segs.len() > parents.len() && segs.take(parents.len() as int) == parents {
            r.push(segs[parents.len() as int])
        } else {
            r
        }
    }
}

/// What modules can be imported: the prelude modules, the keys of the nested standard
/// modules, the declared packages, and what the directories that serve the path hold.
pub struct ImportRoots {
    pub prelude: Vec<String>,
    pub nested: Vec<String>,
    pub packages: Vec<String>,
    pub served: Vec<String>,
}

/// The names offered under `parents`. At the root: the prelude modules, the `std`
/// namespace, the declared packages, and the modules that are served. Under `std`: the
/// prelude modules and the nested standard modules. Anywhere else: what is served.
pub open spec fn path_names(
    parents: Seq<Seq<char>>,
    prelude: Seq<Seq<char>>,
    nested: Seq<Seq<char>>,
    packages: Seq<Seq<char>>,
    served: Seq<Seq<char>>,
) -> Seq<Seq<char>> {
    if parents.len() == 0 {
        prelude + seq!["std"@] + packages + served
    } else if parents[0] == "std"@ {
        (if parents.len() == 1 {
            prelude
        } else {
            Seq::empty()
        }) + next_segments(nested, parents.skip(1))
    } else {
        served
    }
}

/// Names as module items.
pub open spec fn module_items(names: Seq<Seq<char>>) -> Seq<ItemV> {
    Seq::new(names.len(), |i: int| plain(names[i], CompletionItemKind::Module, None))
}

fn nested_std_segments(keys: &Vec<String>, parents: &Vec<String>) -> (r: Vec<String>)
    requires
        parents@.len() > 0,
    ensures
        texts(r@) == next_segments(texts(keys@), texts(parents@).skip(1)),
{
    let ghost kv = texts(keys@);
    let ghost pv = texts(parents@).skip(1);
    let n: usize = parents.len() - 1;
    let mut out: Vec<String> = Vec::new();
    assert(texts(out@) =~= next_segments(kv.take(0), pv));
    for i in 0..keys.len()
        invariant
            kv == texts(keys@),
            pv == texts(parents@).skip(1),
            n == parents@.len() - 1,
            pv.len() == n,
            texts(out@) == next_segments(kv.take(i as int), pv),
    {
        proof {
            assert(kv.take(i + 1).drop_last() =~= kv.take(i as int));
            assert(kv.take(i + 1).last() == keys[i as int]@);
        }
        let cs = chars_of(keys[i].as_str());
        let segs = split_chars(&cs, '/');
        let ghost sv = pieces(segs@);
        let ghost done = texts(out@);
        let mut same = segs.len() > n;
        let mut j: usize = 0;
        while same && j < n
            invariant
                sv == pieces(segs@),
                pv == texts(parents@).skip(1),
                n == parents@.len() - 1,
                pv.len() == n,
                j <= n,
                same ==> segs@.len() > n,
                same ==> forall|k: int| 0 <= k < j ==> sv[k] == pv[k],
                !same ==> !(sv.len() > n && sv.take(n as int) == pv),
            decreases n - j, same as int,
        {
            proof {
                assert(sv[j as int] == segs[j as int]@);
                assert(pv[j as int] == parents[j + 1]@);
                let s = segs[j as int]@;
                assert(s.subrange(0, s.len() as int) =~= s);
            }
            let piece = string_of(segs[j].as_slice(), 0, segs[j].len());
            if str_eq(piece.as_str(), parents[j + 1].as_str()) {
                j = j + 1;
            } else {
                same = false;
                assert(sv.take(n as int)[j as int] != pv[j as int]);
            }
        }
        if same {
            proof {
                assert(sv.take(n as int) =~= pv);
                let s = segs[n as int]@;
                assert(sv[n as int] == s);
                assert(s.subrange(0, s.len() as int) =~= s);
            }
            out.push(string_of(segs[n].as_slice(), 0, segs[n].len()));
            assert(texts(out@) =~= done.push(out@.last()@));
        }
    }
    assert(kv.take(keys.len() as int) =~= kv);
    out
}

fn push_modules(names: &Vec<String>, out: &mut Vec<CompletionItem>)
    ensures
        items_view(final(out)@) == items_view(old(out)@) + module_items(texts(names@)),
{
    let ghost start = items_view(out@);
    let ghost all = texts(names@);
    assert(start =~= start + module_items(all.take(0)));
    for i in 0..names.len()
        invariant
            all == texts(names@),
            items_view(out@) == start + module_items(all.take(i as int)),
    {
        push_item(out, item(names[i].clone(), CompletionItemKind::Module, None));
        assert(items_view(out@) =~= start + module_items(all.take(i + 1)));
    }
    assert(all.take(names.len() as int) =~= all);
}

/// Module path segment candidates under `parents` that begin with `prefix`.
pub fn import_path_items(parents: &Vec<String>, prefix: &str, roots: &ImportRoots) -> (r: Vec<
    CompletionItem,
>)
    ensures
        items_view(r@) == deduped(
            with_prefix(
                module_items(
                    path_names(
                        texts(parents@),
                        texts(roots.prelude@),
                        texts(roots.nested@),
                        texts(roots.packages@),
                        texts(roots.served@),
                    ),
                ),
                prefix@,
            ),
        ),
{
    let ghost want = path_names(
        texts(parents@),
        texts(roots.prelude@),
        texts(roots.nested@),
        texts(roots.packages@),
        texts(roots.served@),
    );
    let mut items: Vec<CompletionItem> = Vec::new();
    if parents.len() == 0 {
        push_modules(&roots.prelude, &mut items);
        push_item(&mut items, item("std".to_owned(), CompletionItemKind::Module, None));
        push_modules(&roots.packages, &mut items);
        push_modules(&roots.served, &mut items);
    } else if str_eq(parents[0].as_str(), "std") {
        if parents.len() == 1 {
            push_modules(&roots.prelude, &mut items);
        }
        let nested = nested_std_segments(&roots.nested, parents);
        push_modules(&nested, &mut items);
    } else {
        push_modules(&roots.served, &mut items);
    }
    assert(items_view(items@) =~= module_items(want));
    dedup_by_label(filter_prefix(items, prefix))
}

/// The directories a module path that begins with `first` is served from: a declared
/// package's directory alone, else the document's directory and each include path.
pub open spec fn roots_for(
    packages: Seq<(Seq<char>, Seq<char>)>,
    doc_dir: Seq<char>,
    includes: Seq<Seq<char>>,
    first: Seq<char>,
) -> Seq<Seq<char>> {
    match lookup(packages, first) {
        Some(dir) => seq![dir],
        None => seq![doc_dir] + includes,
    }
}

/// The directories a non-`std` module path is served from.
pub fn module_roots(
    packages: &Vec<(String, String)>,
    doc_dir: &str,
    includes: &Vec<String>,
    first_segment: &str,
) -> (r: Vec<String>)
    ensures
        texts(r@) == roots_for(
            crate::hir::pairs_view(packages@),
            doc_dir@,
            texts(includes@),
            first_segment@,
        ),
{
    let mut out: Vec<String> = Vec::new();
    let i = find_key(packages, first_segment);
    assert(names(packages@) =~= keys_of(crate::hir::pairs_view(packages@)));
    if i < packages.len() {
        out.push(packages[i].1.clone());
        assert(texts(out@) =~= seq![packages[i as int].1@]);
        return out;
    }
    out.push(doc_dir.to_owned());
    let ghost iv = texts(includes@);
    assert(texts(out@) =~= seq![doc_dir@] + iv.take(0));
    for k in 0..includes.len()
        invariant
            iv == texts(includes@),
            texts(out@) == seq![doc_dir@] + iv.take(k as int),
    {
        let ghost before = texts(out@);
        out.push(includes[k].clone());
        proof {
            assert(texts(out@) =~= before.push(includes[k as int]@));
            assert(texts(out@) =~= seq![doc_dir@] + iv.take(k + 1));
        }
    }
    assert(iv.take(includes.len() as int) =~= iv);
    out
}

/// The kind of the item a type declaration is offered as.
pub open spec fn decl_kind(body: TypeBodyV) -> CompletionItemKind {
    match body {
        TypeBodyV::Sum(_) => CompletionItemKind::Enum,
        _ => CompletionItemKind::Struct,
    }
}

fn type_decl_kind(body: &TypeBody) -> (r: CompletionItemKind)
    ensures
        r == decl_kind(body@),
{
    match body {
        TypeBody::Record(_) => CompletionItemKind::Struct,
        TypeBody::Sum(_) => CompletionItemKind::Enum,
        TypeBody::Alias(_) => CompletionItemKind::Struct,
    }
}

/// The functions and types a parsed module declares (only the public ones, with
/// `public_only`).
pub open spec fn declared_items(items: Seq<TopLevelV>, public_only: bool) -> Seq<ItemV>
    decreases items.len(),
{
    if items.len() == 0 {
        Seq::empty()
    } else {
        let r = declared_items(items.drop_last(), public_only);
        match items.last() {
            TopLevelV::Fun(f) => if !public_only || is_public(f.name) {
                r.push(plain(f.name, CompletionItemKind::Function, None))
            } else {
                r
            },
            TopLevelV::Type(t) => if !public_only || is_public(t.name) {
                r.push(plain(t.name, decl_kind(t.body), None))
            } else {
                r
            },
            TopLevelV::Stmt(_) => r,
        }
    }
}

/// The top-level names of a parsed module: the public ones of a module that is imported,
/// or all of the document's own.
pub fn module_symbols(module: &Module, public_only: bool) -> (r: Vec<CompletionItem>)
    ensures
        items_view(r@) == declared_items(module@.items, public_only),
{
    let ghost all = top_levels_view(module.items@);
    let mut out: Vec<CompletionItem> = Vec::new();
    assert(items_view(out@) =~= declared_items(all.take(0), public_only));
    for i in 0..module.items.len()
        invariant
            all == top_levels_view(module.items@),
            items_view(out@) == declared_items(all.take(i as int), public_only),
    {
        proof {
            assert(all.take(i + 1).drop_last() =~= all.take(i as int));
            assert(all.take(i + 1).last() == module.items[i as int]@);
        }
        match &module.items[i] {
            TopLevel::Fun(f) => {
                if !public_only || is_public_member(f.name.as_str()) {
                    push_item(
                        &mut out,
                        item(f.name.clone(), CompletionItemKind::Function, None),
                    );
                }
            },
            TopLevel::Type(t) => {
                if !public_only || is_public_member(t.name.as_str()) {
                    push_item(&mut out, item(t.name.clone(), type_decl_kind(&t.body), None));
                }
            },
            TopLevel::Stmt(_) => {},
        }
    }
    assert(all.take(module.items.len() as int) =~= all);
    out
}

// ---- program items ----

/// A function of the analyzed program as an item.
pub open spec fn function_item(f: FunInfoV) -> ItemV {
    ItemV {
        label: f.signature.name,
        kind: CompletionItemKind::Function,
        detail: Some(declared_signature(f.signature)),
        documentation: f.decl.doc,
    }
}

/// A type of the analyzed program as an item.
pub open spec fn type_item(t: TypeInfoV) -> ItemV {
    ItemV {
        label: t.name,
        kind: match t.kind {
            TypeKindV::Record { .. } => CompletionItemKind::Struct,
            TypeKindV::Sum { .. } => CompletionItemKind::Enum,
        },
        detail: Some("type "@ + t.name),
        documentation: t.doc,
    }
}

fn item_of_function(f: &FunInfo) -> (r: CompletionItem)
    ensures
        r@ == function_item(f@),
{
    let doc = f.decl.doc.as_ref();
    assert(opt_string(doc) == f@.decl.doc);
    doc_item(
        f.signature.name.as_str(),
        CompletionItemKind::Function,
        Some(render_signature(&f.signature)),
        doc,
    )
}

fn item_of_type(t: &TypeInfo) -> (r: CompletionItem)
    ensures
        r@ == type_item(t@),
{
    let kind = match &t.kind {
        TypeKind::Record { .. } => CompletionItemKind::Struct,
        TypeKind::Sum { .. } => CompletionItemKind::Enum,
    };
    let doc = t.doc.as_ref();
    assert(opt_string(doc) == t@.doc);
    doc_item(t.name.as_str(), kind, Some(cat2("type ", t.name.as_str())), doc)
}

/// Whether a module's definitions are visible in the document: built-ins, its own, the
/// prelude's, and any imported name.
pub open spec fn visible(
    module: Seq<Seq<char>>,
    name: Seq<char>,
    prelude: Seq<Seq<Seq<char>>>,
    imported: Seq<Seq<char>>,
) -> bool {
    module.len() == 0 || module == main_path() || prelude.contains(module) || imported.contains(
        name,
    )
}

/// The names the document imports.
pub open spec fn imported_names(p: ProgramV) -> Seq<Seq<char>> {
    match lookup(p.module_imports, main_path()) {
        Some(ns) => ns,
        None => Seq::empty(),
    }
}

/// The models of module paths.
pub open spec fn paths_of(v: Seq<Vec<String>>) -> Seq<Seq<Seq<char>>> {
    Seq::new(v.len(), |i: int| texts(v[i]@))
}

/// The visible functions.
pub open spec fn visible_functions(
    fs: Seq<(Seq<char>, FunInfoV)>,
    prelude: Seq<Seq<Seq<char>>>,
    imported: Seq<Seq<char>>,
) -> Seq<ItemV>
    decreases fs.len(),
{
    if fs.len() == 0 {
        Seq::empty()
    } else {
        let r = visible_functions(fs.drop_last(), prelude, imported);
        let f = fs.last().1;
        if visible(f.module, f.signature.name, prelude, imported) {
            r.push(function_item(f))
        } else {
            r
        }
    }
}

/// The visible types.
pub open spec fn visible_types(
    ts: Seq<(Seq<char>, TypeInfoV)>,
    prelude: Seq<Seq<Seq<char>>>,
    imported: Seq<Seq<char>>,
) -> Seq<ItemV>
    decreases ts.len(),
{
    if ts.len() == 0 {
        Seq::empty()
    } else {
        let r = visible_types(ts.drop_last(), prelude, imported);
        let t = ts.last().1;
        if visible(t.module, t.name, prelude, imported) {
            r.push(type_item(t))
        } else {
            r
        }
    }
}

/// The functions and types an analyzed program makes visible in the document.
pub open spec fn program_items(p: ProgramV, prelude: Seq<Seq<Seq<char>>>) -> Seq<ItemV> {
    visible_functions(p.functions, prelude, imported_names(p)) + visible_types(
        p.types,
        prelude,
        imported_names(p),
    )
}

fn contains_path(v: &Vec<Vec<String>>, p: &Vec<String>) -> (r: bool)
    ensures
        r == paths_of(v@).contains(texts(p@)),
{
    let ghost vv = paths_of(v@);
    for i in 0..v.len()
        invariant
            vv == paths_of(v@),
            forall|j: int| 0 <= j < i ==> vv[j] != texts(p@),
    {
        assert(vv[i as int] == texts(v[i as int]@));
        if strings_eq(v[i].as_slice(), p.as_slice()) {
            return true;
        }
    }
    false
}

fn is_visible(
    module: &Vec<String>,
    name: &str,
    prelude: &Vec<Vec<String>>,
    imported: &[String],
) -> (r: bool)
    ensures
        r == visible(texts(module@), name@, paths_of(prelude@), texts(imported@)),
{
    let main = main_module();
    module.len() == 0 || strings_eq(module.as_slice(), main.as_slice()) || contains_path(
        prelude,
        module,
    ) || contains_string(imported, name)
}

/// Visible symbols taken from the analyzed program: every function and type whose
/// defining module is reachable from the document.
pub fn program_symbols(full: &FullAnalysis) -> (r: Vec<CompletionItem>)
    ensures
        items_view(r@) == program_items(full.program@, paths_of(full.prelude_modules@)),
{
    let p = &full.program;
    let ghost prelude = paths_of(full.prelude_modules@);
    let main = main_module();
    let at = find_path(&p.module_imports, main.as_slice());
    assert(paths(p.module_imports@) =~= keys_of(p@.module_imports));
    let none: Vec<String> = Vec::new();
    let imported: &[String] = if at < p.module_imports.len() {
        p.module_imports[at].1.as_slice()
    } else {
        none.as_slice()
    };
    assert(texts(imported@) =~= imported_names(p@));
    let ghost names = imported_names(p@);
    let ghost fv = named_fun_infos_view(p.functions@);
    let ghost tv = named_type_infos_view(p.types@);
    let mut out: Vec<CompletionItem> = Vec::new();
    assert(items_view(out@) =~= visible_functions(fv.take(0), prelude, names));
    for i in 0..p.functions.len()
        invariant
            prelude == paths_of(full.prelude_modules@),
            names == texts(imported@),
            fv == named_fun_infos_view(p.functions@),
            items_view(out@) == visible_functions(fv.take(i as int), prelude, names),
    {
        proof {
            assert(fv.take(i + 1).drop_last() =~= fv.take(i as int));
            assert(fv.take(i + 1).last() == fv[i as int]);
            assert(fv[i as int].1 == p.functions[i as int].1@);
        }
        let f = &p.functions[i].1;
        if is_visible(&f.module, f.signature.name.as_str(), &full.prelude_modules, imported) {
            push_item(&mut out, item_of_function(f));
        }
    }
    assert(fv.take(p.functions.len() as int) =~= fv);
    let ghost done = items_view(out@);
    assert(done =~= done + visible_types(tv.take(0), prelude, names));
    for i in 0..p.types.len()
        invariant
            prelude == paths_of(full.prelude_modules@),
            names == texts(imported@),
            tv == named_type_infos_view(p.types@),
            items_view(out@) == done + visible_types(tv.take(i as int), prelude, names),
    {
        proof {
            assert(tv.take(i + 1).drop_last() =~= tv.take(i as int));
            assert(tv.take(i + 1).last() == tv[i as int]);
            assert(tv[i as int].1 == p.types[i as int].1@);
        }
        let t = &p.types[i].1;
        if is_visible(&t.module, t.name.as_str(), &full.prelude_modules, imported) {
            push_item(&mut out, item_of_type(t));
        }
        assert(items_view(out@) =~= done + visible_types(tv.take(i + 1), prelude, names));
    }
    assert(tv.take(p.types.len() as int) =~= tv);
    out
}

/// The public functions a module exports. A class-qualified name (`string.split`) is a
/// primitive method, not an importable bare name.
pub open spec fn exported_functions(fs: Seq<(Seq<char>, FunInfoV)>, target: Seq<Seq<char>>) -> Seq<
    ItemV,
>
    decreases fs.len(),
{
    if fs.len() == 0 {
        Seq::empty()
    } else {
        let r = exported_functions(fs.drop_last(), target);
        let f = fs.last().1;
        if f.module == target && is_public(f.signature.name) && !f.signature.name.contains('.') {
            r.push(function_item(f))
        } else {
            r
        }
    }
}

/// The public types a module exports.
pub open spec fn exported_types(ts: Seq<(Seq<char>, TypeInfoV)>, target: Seq<Seq<char>>) -> Seq<
    ItemV,
>
    decreases ts.len(),
{
    if ts.len() == 0 {
        Seq::empty()
    } else {
        let r = exported_types(ts.drop_last(), target);
        let t = ts.last().1;
        if t.module == target && is_public(t.name) {
            r.push(type_item(t))
        } else {
            r
        }
    }
}

fn has_dot(s: &str) -> (r: bool)
    ensures
        r == s@.contains('.'),
{
    let cs = chars_of(s);
    let i = find_char(&cs, '.');
    proof {
        first_pos_contains(cs@, '.');
    }
    i < cs.len()
}

/// Enumerate the public exports of the module `target` of an analyzed program, with
/// their signatures and docs.
pub fn module_exports(full: &FullAnalysis, target: &Vec<String>) -> (r: Vec<CompletionItem>)
    ensures
        items_view(r@) == exported_functions(full.program@.functions, texts(target@))
            + exported_types(full.program@.types, texts(target@)),
{
    let p = &full.program;
    let ghost t_path = texts(target@);
    let ghost fv = named_fun_infos_view(p.functions@);
    let ghost tv = named_type_infos_view(p.types@);
    let mut out: Vec<CompletionItem> = Vec::new();
    assert(items_view(out@) =~= exported_functions(fv.take(0), t_path));
    for i in 0..p.functions.len()
        invariant
            t_path == texts(target@),
            fv == named_fun_infos_view(p.functions@),
            items_view(out@) == exported_functions(fv.take(i as int), t_path),
    {
        proof {
            assert(fv.take(i + 1).drop_last() =~= fv.take(i as int));
            assert(fv.take(i + 1).last() == fv[i as int]);
            assert(fv[i as int].1 == p.functions[i as int].1@);
        }
        let f = &p.functions[i].1;
        let name = f.signature.name.as_str();
        if strings_eq(f.module.as_slice(), target.as_slice()) && is_public_member(name) && !has_dot(
            name,
        ) {
            push_item(&mut out, item_of_function(f));
        }
    }
    assert(fv.take(p.functions.len() as int) =~= fv);
    let ghost done = items_view(out@);
    assert(done =~= done + exported_types(tv.take(0), t_path));
    for i in 0..p.types.len()
        invariant
            t_path == texts(target@),
            tv == named_type_infos_view(p.types@),
            items_view(out@) == done + exported_types(tv.take(i as int), t_path),
    {
        proof {
            assert(tv.take(i + 1).drop_last() =~= tv.take(i as int));
            assert(tv.take(i + 1).last() == tv[i as int]);
            assert(tv[i as int].1 == p.types[i as int].1@);
        }
        let t = &p.types[i].1;
        if strings_eq(t.module.as_slice(), target.as_slice()) && is_public_member(
            t.name.as_str(),
        ) {
            push_item(&mut out, item_of_type(t));
        }
        assert(items_view(out@) =~= done + exported_types(tv.take(i + 1), t_path));
    }
    assert(tv.take(p.types.len() as int) =~= tv);
    out
}

/// Built-in type names, which are always in scope.
pub open spec fn builtin_types() -> Seq<Seq<char>> {
    seq![
        "bool"@,
        "int8"@,
        "int16"@,
        "int32"@,
        "int64"@,
        "uint8"@,
        "uint16"@,
        "uint32"@,
        "uint64"@,
        "float32"@,
        "float64"@,
        "string"@,
        "void"@,
        "Result"@,
    ]
}

/// Built-in functions that are no part of the prelude.
pub open spec fn builtin_functions() -> Seq<Seq<char>> {
    seq!["len"@, "error"@, "ok"@]
}

/// Names as items of one kind.
pub open spec fn named_items(names: Seq<Seq<char>>, kind: CompletionItemKind) -> Seq<ItemV> {
    Seq::new(names.len(), |i: int| plain(names[i], kind, None))
}

/// The types and functions offered outside of any other context: the given ones, then
/// the built-in types and functions, each label once.
pub fn symbol_items(found: Vec<CompletionItem>) -> (r: Vec<CompletionItem>)
    ensures
        items_view(r@) == deduped(
            items_view(found@) + named_items(builtin_types(), CompletionItemKind::Struct)
                + named_items(builtin_functions(), CompletionItemKind::Function),
        ),
{
    let ghost start = items_view(found@);
    let mut items = found;
    let st = CompletionItemKind::Struct;
    push_item(&mut items, item("bool".to_owned(), st, None));
    push_item(&mut items, item("int8".to_owned(), st, None));
    push_item(&mut items, item("int16".to_owned(), st, None));
    push_item(&mut items, item("int32".to_owned(), st, None));
    push_item(&mut items, item("int64".to_owned(), st, None));
    push_item(&mut items, item("uint8".to_owned(), st, None));
    push_item(&mut items, item("uint16".to_owned(), st, None));
    push_item(&mut items, item("uint32".to_owned(), st, None));
    push_item(&mut items, item("uint64".to_owned(), st, None));
    push_item(&mut items, item("float32".to_owned(), st, None));
    push_item(&mut items, item("float64".to_owned(), st, None));
    push_item(&mut items, item("string".to_owned(), st, None));
    push_item(&mut items, item("void".to_owned(), st, None));
    push_item(&mut items, item("Result".to_owned(), st, None));
    let ghost mid = start + named_items(builtin_types(), CompletionItemKind::Struct);
    assert(items_view(items@) =~= mid);
    let fu = CompletionItemKind::Function;
    push_item(&mut items, item("len".to_owned(), fu, None));
    push_item(&mut items, item("error".to_owned(), fu, None));
    push_item(&mut items, item("ok".to_owned(), fu, None));
    assert(items_view(items@) =~= mid + named_items(
        builtin_functions(),
        CompletionItemKind::Function,
    ));
    dedup_by_label(items)
}

// ---- members ----

/// Where the identifier characters that end at `k` begin.
pub open spec fn word_begin(cs: Seq<char>, k: int) -> int
    decreases k,
{
    if k > 0 && continues_ident(cs[k - 1]) {
        word_begin(cs, k - 1)
    } else {
        k
    }
}

/// Whether a character can end a receiver expression.
pub open spec fn ends_receiver(c: char) -> bool {
    continues_ident(c) || c == ')' || c == ']'
}

/// Where the `.` of the member access that the cursor at `k` completes stands: directly
/// before the word under the cursor, and behind the end of an expression (not a float
/// like `3.`).
pub open spec fn member_dot(cs: Seq<char>, k: int) -> Option<int> {
    let w = word_begin(cs, k);
    if w >= 2 && cs[w - 1] == '.' && ends_receiver(cs[w - 2]) && !is_digit(
        cs[word_begin(cs, w - 1)],
    ) {
        Some(w - 1)
    } else {
        None
    }
}

fn find_word(cs: &Vec<char>, k: usize) -> (r: usize)
    requires
        k <= cs.len(),
    ensures
        r == word_begin(cs@, k as int),
        r <= k,
{
    let mut w: usize = k;
    while w > 0 && is_ident_char(cs[w - 1])
        invariant
            w <= k <= cs.len(),
            word_begin(cs@, w as int) == word_begin(cs@, k as int),
        decreases w,
    {
        w = w - 1;
    }
    w
}

fn find_member_dot(cs: &Vec<char>, k: usize) -> (r: Option<usize>)
    requires
        k <= cs.len(),
    ensures
        match r {
            Some(d) => d < k && member_dot(cs@, k as int) == Some(d as int) && word_begin(
                cs@,
                k as int,
            ) == d + 1,
            None => member_dot(cs@, k as int) is None,
        },
{
    let w = find_word(cs, k);
    if w >= 2 && cs[w - 1] == '.' {
        let c = cs[w - 2];
        if is_ident_char(c) || c == ')' || c == ']' {
            let first = cs[find_word(cs, w - 1)];
            if !('0' <= first && first <= '9') {
                return Some(w - 1);
            }
        }
    }
    None
}

/// What a completion asks for.
pub ghost enum RequestV {
    Import(ImportContextV),
    /// A member behind the `.` at index `dot`: the text to analyze, and what is typed of
    /// the member's name.
    Member { text: Seq<char>, dot: int, partial: Seq<char> },
    Symbols,
}

/// What a completion asks for.
#[derive(Debug, PartialEq)]
pub enum Request {
    /// A part of an import statement.
    Import(ImportContext),
    /// A member behind the `.` at byte offset `dot`: the text to analyze, and what is
    /// typed of the member's name.
    Member { text: String, dot: usize, partial: String },
    /// A type or function.
    Symbols,
}

/// Identifier spliced in after a dangling `.` so the source parses and the receiver's
/// type can be recovered. Unlikely to collide with a real name.
pub const PROBE: &'static str = "__prepoly_completion_probe__";

/// What the cursor at index `k` of the document asks for. `recv.` does not parse, so a
/// probe is spliced in; `recv.partial` already parses as a field access.
pub open spec fn request_of(cs: Seq<char>, k: int) -> RequestV {
    match import_context_of(cs.subrange(line_begin(cs, k), k)) {
        Some(c) => RequestV::Import(c),
        None => match member_dot(cs, k) {
            Some(d) => RequestV::Member {
                text: if d + 1 == k {
                    cs.take(k) + PROBE@ + cs.skip(k)
                } else {
                    cs
                },
                dot: d,
                partial: cs.subrange(d + 1, k),
            },
            None => RequestV::Symbols,
        },
    }
}

impl Request {
    /// Whether this is the given request on the text `cs`.
    pub open spec fn is(self, r: RequestV, cs: Seq<char>) -> bool {
        match (self, r) {
            (Request::Import(c), RequestV::Import(v)) => c@ == v,
            (
                Request::Member { text, dot, partial },
                RequestV::Member { text: t, dot: d, partial: p },
            ) => text@ == t && dot == byte_off(cs, d) && partial@ == p,
            (Request::Symbols, RequestV::Symbols) => true,
            _ => false,
        }
    }
}

fn find_line(cs: &Vec<char>, k: usize) -> (r: usize)
    requires
        k <= cs.len(),
    ensures
        r == line_begin(cs@, k as int),
        r <= k,
{
    let mut b: usize = k;
    while b > 0 && cs[b - 1] != '\n'
        invariant
            b <= k <= cs.len(),
            line_begin(cs@, b as int) == line_begin(cs@, k as int),
        decreases b,
    {
        b = b - 1;
    }
    b
}

/// Decide what is being completed at `pos`.
pub fn request(doc: &Document, pos: Position) -> (r: Request)
    requires
        doc.wf(),
    ensures
        r.is(
            request_of(doc.text@, index_of(doc.text@, pos.line as int, pos.character as int)),
            doc.text@,
        ),
{
    let off = doc.offset_at(pos);
    let chars = Chars::of(doc.text.as_str());
    let ghost cs = doc.text@;
    let ghost want = index_of(cs, pos.line as int, pos.character as int);
    proof {
        crate::document::index_within(cs, pos.line as int, pos.character as int);
        assert(crate::document::begins_at(cs, off as int, want));
    }
    let k = find_index(&chars, off);
    proof {
        crate::document::begins_at_unique(cs, off as int, k as int, want);
    }
    let b = find_line(&chars.cs, k);
    let line = part(&chars.cs, b, k);
    if let Some(c) = import_context(&line) {
        return Request::Import(c);
    }
    match find_member_dot(&chars.cs, k) {
        Some(d) => {
            let partial = string_of(chars.cs.as_slice(), d + 1, k);
            let text = if d + 1 == k {
                let head = string_of(chars.cs.as_slice(), 0, k);
                let tail = string_of(chars.cs.as_slice(), k, chars.cs.len());
                proof {
                    assert(cs.subrange(0, k as int) =~= cs.take(k as int));
                    assert(cs.subrange(k as int, cs.len() as int) =~= cs.skip(k as int));
                }
                cat3(head.as_str(), PROBE, tail.as_str())
            } else {
                doc.text.clone()
            };
            Request::Member { text, dot: chars.off(d), partial }
        },
        None => Request::Symbols,
    }
}

// ---- member items ----

/// Built-in methods of a receiver's kind.
pub open spec fn builtin_members(t: TypeV) -> Seq<ItemV> {
    named_items(
        match t {
            TypeV::Slice(_) => seq!["push"@, "pop"@, "insert"@, "remove"@, "len"@],
            TypeV::Array(_, _) => seq!["len"@],
            TypeV::Str => seq!["len"@],
            _ => Seq::empty(),
        },
        CompletionItemKind::Method,
    )
}

/// A namer under which the slots of a type are called `Self.<slot>`.
pub open spec fn slot_names(slots: Seq<(Seq<char>, u32)>) -> NamerV {
    NamerV {
        numbered: Seq::empty(),
        fixed: Seq::new(slots.len(), |i: int| (slots[i].1, "Self."@ + slots[i].0)),
    }
}

/// The fields of an instance as items, with the types the instance fixes, and the namer
/// after them.
pub open spec fn field_items(
    fs: Seq<FieldInfoV>,
    subst: Seq<(Seq<char>, TypeV)>,
    private: bool,
    st: NamerV,
) -> (Seq<ItemV>, NamerV)
    decreases fs.len(),
{
    if fs.len() == 0 {
        (Seq::empty(), st)
    } else {
        let r = field_items(fs.drop_last(), subst, private, st);
        let f = fs.last();
        if !private && !is_public(f.name) {
            r
        } else {
            match instance_type(f, subst) {
                Some(t) => {
                    let q = rendered(t, r.1);
                    (
                        r.0.push(
                            plain(
                                f.name,
                                CompletionItemKind::Field,
                                Some(f.name + ": "@ + q.0),
                            ),
                        ),
                        q.1,
                    )
                },
                None => (r.0.push(plain(f.name, CompletionItemKind::Field, None)), r.1),
            }
        }
    }
}

/// The methods of a record as items, each signature resolved through the type's scheme.
pub open spec fn method_items(
    ms: Seq<(Seq<char>, MethodInfoV)>,
    scheme: Option<SchemeV>,
    subst: Seq<(Seq<char>, TypeV)>,
    private: bool,
) -> Seq<ItemV>
    decreases ms.len(),
{
    if ms.len() == 0 {
        Seq::empty()
    } else {
        let r = method_items(ms.drop_last(), scheme, subst, private);
        let (name, m) = ms.last();
        if !private && !is_public(name) {
            r
        } else {
            r.push(
                ItemV {
                    label: name,
                    kind: CompletionItemKind::Method,
                    detail: Some(
                        declared_signature(resolved_signature(scheme, subst, name, m.signature)),
                    ),
                    documentation: m.decl.doc,
                },
            )
        }
    }
}

/// The methods implemented on a primitive or array class.
pub open spec fn class_items(
    ms: Seq<((Seq<char>, Seq<char>), Seq<char>)>,
    fs: Seq<(Seq<char>, FunInfoV)>,
    class: Seq<char>,
    private: bool,
) -> Seq<ItemV>
    decreases ms.len(),
{
    if ms.len() == 0 {
        Seq::empty()
    } else {
        let r = class_items(ms.drop_last(), fs, class, private);
        let ((c, name), symbol) = ms.last();
        if c == class && (private || is_public(name)) {
            let f = lookup(fs, symbol);
            r.push(
                ItemV {
                    label: name,
                    kind: CompletionItemKind::Method,
                    detail: match f {
                        Some(f) => Some(declared_signature(f.signature)),
                        None => None,
                    },
                    documentation: match f {
                        Some(f) => f.decl.doc,
                        None => None,
                    },
                },
            )
        } else {
            r
        }
    }
}

/// The fields and methods of a record instance.
pub open spec fn record_items(
    p: ProgramV,
    schemes: Seq<(Seq<char>, SchemeV)>,
    t: TypeV,
    private: bool,
) -> Seq<ItemV> {
    match t {
        TypeV::Record(n) => match type_with_id(p.types, n.id) {
            Some(info) => match info.kind {
                TypeKindV::Record { fields, methods } => field_items(
                    fields,
                    n.subst,
                    private,
                    slot_names(info.slots),
                ).0 + method_items(methods, lookup(schemes, info.name), n.subst, private),
                _ => Seq::empty(),
            },
            None => Seq::empty(),
        },
        _ => Seq::empty(),
    }
}

/// The members reachable on a value of type `t`: built-in methods for its kind, a record's
/// fields and methods, and the methods implemented on its class.
pub open spec fn value_items(
    p: ProgramV,
    schemes: Seq<(Seq<char>, SchemeV)>,
    t: TypeV,
    private: bool,
) -> Seq<ItemV> {
    let b = bare(t);
    deduped(
        builtin_members(b) + record_items(p, schemes, b, private) + (match class_of(b) {
            Some(class) => class_items(p.primitive_methods, p.functions, class, private),
            None => Seq::empty(),
        }),
    )
}

fn push_named(out: &mut Vec<CompletionItem>, name: &str)
    ensures
        items_view(final(out)@) == items_view(old(out)@).push(
            plain(name@, CompletionItemKind::Method, None),
        ),
{
    push_item(out, item(name.to_owned(), CompletionItemKind::Method, None));
}

fn builtin_member_items(t: &Type) -> (r: Vec<CompletionItem>)
    ensures
        items_view(r@) == builtin_members(t@),
{
    let mut out: Vec<CompletionItem> = Vec::new();
    match t {
        Type::Slice(_) => {
            push_named(&mut out, "push");
            push_named(&mut out, "pop");
            push_named(&mut out, "insert");
            push_named(&mut out, "remove");
            push_named(&mut out, "len");
        },
        Type::Array(_, _) => push_named(&mut out, "len"),
        Type::Str => push_named(&mut out, "len"),
        _ => {},
    }
    assert(items_view(out@) =~= builtin_members(t@));
    out
}

fn slot_namer(slots: &Vec<(String, u32)>) -> (r: UnknownNamer)
    ensures
        r@ == slot_names(slots_view(slots@)),
{
    let ghost sv = slots_view(slots@);
    let mut namer = UnknownNamer::default();
    assert(namer@ =~= slot_names(sv.take(0)));
    for i in 0..slots.len()
        invariant
            sv == slots_view(slots@),
            namer@ == slot_names(sv.take(i as int)),
    {
        let ghost before = namer@;
        let name = cat2("Self.", slots[i].0.as_str());
        namer.fix(slots[i].1, name);
        assert(namer@.fixed =~= slot_names(sv.take(i + 1)).fixed);
        assert(namer@ =~= slot_names(sv.take(i + 1)));
    }
    assert(sv.take(slots.len() as int) =~= sv);
    namer
}

fn push_fields(
    fs: &Vec<FieldInfo>,
    subst: &Substitution,
    private: bool,
    namer: &mut UnknownNamer,
    out: &mut Vec<CompletionItem>,
)
    ensures
        items_view(final(out)@) == items_view(old(out)@) + field_items(
            field_infos_view(fs@),
            subst@,
            private,
            old(namer)@,
        ).0,
{
    let ghost all = field_infos_view(fs@);
    let ghost start = items_view(out@);
    let ghost st = namer@;
    assert(start =~= start + field_items(all.take(0), subst@, private, st).0);
    for i in 0..fs.len()
        invariant
            all == field_infos_view(fs@),
            items_view(out@) == start + field_items(all.take(i as int), subst@, private, st).0,
            namer@ == field_items(all.take(i as int), subst@, private, st).1,
    {
        proof {
            assert(all.take(i + 1).drop_last() =~= all.take(i as int));
            assert(all.take(i + 1).last() == fs[i as int]@);
        }
        let f = &fs[i];
        if private || is_public_member(f.name.as_str()) {
            let ty: Option<&Type> = match subst.get(f.name.as_str()) {
                Some(t) => Some(t),
                None => f.resolved_ty.as_ref(),
            };
            assert(opt_type_ref(ty) == instance_type(f@, subst@));
            let detail = match ty {
                Some(t) => Some(cat3(f.name.as_str(), ": ", render_type(t, namer).as_str())),
                None => None,
            };
            push_item(out, item(f.name.clone(), CompletionItemKind::Field, detail));
        }
        assert(items_view(out@) =~= start + field_items(all.take(i + 1), subst@, private, st).0);
    }
    assert(all.take(fs.len() as int) =~= all);
}

fn push_methods(
    ms: &Vec<(String, MethodInfo)>,
    scheme: Option<&TypeScheme>,
    subst: &Substitution,
    private: bool,
    out: &mut Vec<CompletionItem>,
)
    ensures
        items_view(final(out)@) == items_view(old(out)@) + method_items(
            named_method_infos_view(ms@),
            match scheme {
                Some(s) => Some(s@),
                None => None,
            },
            subst@,
            private,
        ),
{
    let ghost all = named_method_infos_view(ms@);
    let ghost start = items_view(out@);
    let ghost sv = match scheme {
        Some(s) => Some(s@),
        None => None,
    };
    assert(start =~= start + method_items(all.take(0), sv, subst@, private));
    for i in 0..ms.len()
        invariant
            all == named_method_infos_view(ms@),
            sv == (match scheme {
                Some(s) => Some(s@),
                None => None,
            }),
            items_view(out@) == start + method_items(all.take(i as int), sv, subst@, private),
    {
        proof {
            assert(all.take(i + 1).drop_last() =~= all.take(i as int));
            assert(all.take(i + 1).last() == all[i as int]);
            assert(all[i as int] == (ms[i as int].0@, ms[i as int].1@));
        }
        let name = ms[i].0.as_str();
        let m = &ms[i].1;
        if private || is_public_member(name) {
            let sig = resolve_signature(scheme, subst, name, &m.signature);
            let doc = m.decl.doc.as_ref();
            assert(opt_string(doc) == m@.decl.doc);
            push_item(
                out,
                doc_item(name, CompletionItemKind::Method, Some(render_signature(&sig)), doc),
            );
        }
        assert(items_view(out@) =~= start + method_items(all.take(i + 1), sv, subst@, private));
    }
    assert(all.take(ms.len() as int) =~= all);
}

fn push_class(p: &Program, class: &str, private: bool, out: &mut Vec<CompletionItem>)
    ensures
        items_view(final(out)@) == items_view(old(out)@) + class_items(
            p@.primitive_methods,
            p@.functions,
            class@,
            private,
        ),
{
    let ms = &p.primitive_methods;
    let ghost all = prim_view(ms@);
    let ghost fv = p@.functions;
    let ghost start = items_view(out@);
    assert(start =~= start + class_items(all.take(0), fv, class@, private));
    for i in 0..ms.len()
        invariant
            *ms == p.primitive_methods,
            all == prim_view(ms@),
            fv == p@.functions,
            items_view(out@) == start + class_items(all.take(i as int), fv, class@, private),
    {
        proof {
            assert(all.take(i + 1).drop_last() =~= all.take(i as int));
            assert(all.take(i + 1).last() == all[i as int]);
        }
        if str_eq(ms[i].0.0.as_str(), class) && (private || is_public_member(ms[i].0.1.as_str())) {
            let at = find_key(&p.functions, ms[i].1.as_str());
            assert(names(p.functions@) =~= keys_of(fv));
            let it = if at < p.functions.len() {
                let f = &p.functions[at].1;
                let doc = f.decl.doc.as_ref();
                assert(fv[at as int].1 == f@);
                assert(opt_string(doc) == f@.decl.doc);
                doc_item(
                    ms[i].0.1.as_str(),
                    CompletionItemKind::Method,
                    Some(render_signature(&f.signature)),
                    doc,
                )
            } else {
                doc_item(ms[i].0.1.as_str(), CompletionItemKind::Method, None, None)
            };
            push_item(out, it);
        }
        assert(items_view(out@) =~= start + class_items(all.take(i + 1), fv, class@, private));
    }
    assert(all.take(ms.len() as int) =~= all);
}

fn push_record(full: &FullAnalysis, t: &Type, private: bool, out: &mut Vec<CompletionItem>)
    ensures
        items_view(final(out)@) == items_view(old(out)@) + record_items(
            full.program@,
            schemes_view(full.schemes@),
            t@,
            private,
        ),
{
    let ghost start = items_view(out@);
    if let Type::Record(n) = t {
        if let Some(info) = full.program.type_by_id(n.id) {
            if let TypeKind::Record { fields, methods } = &info.kind {
                let mut namer = slot_namer(&info.slots);
                push_fields(fields, &n.substitution, private, &mut namer, out);
                let scheme = scheme_named(&full.schemes, info.name.as_str());
                push_methods(methods, scheme, &n.substitution, private, out);
            }
        }
    }
    assert(items_view(out@) =~= start + record_items(
        full.program@,
        schemes_view(full.schemes@),
        t@,
        private,
    ));
}

/// Members reachable on a value of `ty`. Members with a leading underscore are omitted
/// unless `include_private`.
pub fn value_member_items(full: &FullAnalysis, ty: &Type, include_private: bool) -> (r: Vec<
    CompletionItem,
>)
    ensures
        items_view(r@) == value_items(
            full.program@,
            schemes_view(full.schemes@),
            ty@,
            include_private,
        ),
{
    let t = peel_transparent(ty);
    let mut items = builtin_member_items(t);
    push_record(full, t, include_private, &mut items);
    let ghost mid = items_view(items@);
    match t.primitive_class() {
        Some(class) => push_class(&full.program, class, include_private, &mut items),
        None => {
            assert(mid + Seq::<ItemV>::empty() =~= mid);
        },
    }
    dedup_by_label(items)
}

/// The variants of a sum as items.
pub open spec fn variant_items(vs: Seq<VariantInfoV>, private: bool) -> Seq<ItemV>
    decreases vs.len(),
{
    if vs.len() == 0 {
        Seq::empty()
    } else {
        let r = variant_items(vs.drop_last(), private);
        if private || is_public(vs.last().name) {
            r.push(plain(vs.last().name, CompletionItemKind::EnumMember, None))
        } else {
            r
        }
    }
}

/// What a type name as a receiver offers: the variants of a sum, or the methods of a
/// record over the declaration's own slots.
pub open spec fn type_name_items(
    info: TypeInfoV,
    schemes: Seq<(Seq<char>, SchemeV)>,
    private: bool,
) -> Seq<ItemV> {
    match info.kind {
        TypeKindV::Sum { variants } => variant_items(variants, private),
        TypeKindV::Record { methods, .. } => method_items(
            methods,
            lookup(schemes, info.name),
            Seq::empty(),
            private,
        ),
    }
}

/// The name before the `.` at index `dot`, when it is a lone identifier and no part of a
/// longer chain.
pub open spec fn lone_name(cs: Seq<char>, dot: int) -> Option<Seq<char>> {
    let w = word_begin(cs, dot);
    if w == dot || (w > 0 && (cs[w - 1] == '.' || ends_receiver(cs[w - 1]))) {
        None
    } else {
        Some(cs.subrange(w, dot))
    }
}

/// The type a lone name before the `.` denotes.
pub open spec fn receiver_type_name(p: ProgramV, cs: Seq<char>, dot: int) -> Option<TypeInfoV> {
    match lone_name(cs, dot) {
        Some(name) => type_in(p, main_path(), name),
        None => None,
    }
}

fn find_lone_name(cs: &Vec<char>, dot: usize) -> (r: Option<String>)
    requires
        dot <= cs.len(),
    ensures
        opt_text(r) == lone_name(cs@, dot as int),
{
    let w = find_word(cs, dot);
    if w == dot {
        return None;
    }
    if w > 0 {
        let c = cs[w - 1];
        if is_ident_char(c) || c == '.' || c == ')' || c == ']' {
            return None;
        }
    }
    Some(string_of(cs.as_slice(), w, dot))
}

fn push_variants(vs: &Vec<VariantInfo>, private: bool) -> (r: Vec<CompletionItem>)
    ensures
        items_view(r@) == variant_items(variant_infos_view(vs@), private),
{
    let ghost all = variant_infos_view(vs@);
    let mut out: Vec<CompletionItem> = Vec::new();
    assert(items_view(out@) =~= variant_items(all.take(0), private));
    for i in 0..vs.len()
        invariant
            all == variant_infos_view(vs@),
            items_view(out@) == variant_items(all.take(i as int), private),
    {
        proof {
            assert(all.take(i + 1).drop_last() =~= all.take(i as int));
            assert(all.take(i + 1).last() == vs[i as int]@);
        }
        if private || is_public_member(vs[i].name.as_str()) {
            push_item(&mut out, item(vs[i].name.clone(), CompletionItemKind::EnumMember, None));
        }
    }
    assert(all.take(vs.len() as int) =~= all);
    out
}

fn items_of_type_name(full: &FullAnalysis, info: &TypeInfo, private: bool) -> (r: Vec<
    CompletionItem,
>)
    ensures
        items_view(r@) == type_name_items(info@, schemes_view(full.schemes@), private),
{
    match &info.kind {
        TypeKind::Sum { variants } => push_variants(variants, private),
        TypeKind::Record { methods, .. } => {
            let none = Substitution::empty();
            let mut out: Vec<CompletionItem> = Vec::new();
            let scheme = scheme_named(&full.schemes, info.name.as_str());
            push_methods(methods, scheme, &none, private, &mut out);
            assert(items_view(out@) =~= type_name_items(
                info@,
                schemes_view(full.schemes@),
                private,
            ));
            out
        },
    }
}

/// The members offered behind the `.` at index `dot` of the document `cs`, which begins at
/// `base`: those of the type a lone name before it denotes, or those of the receiver's
/// type. Members with a leading underscore are offered when one is typed.
pub open spec fn members_of(
    p: ProgramV,
    typed: Seq<TypedExprV>,
    schemes: Seq<(Seq<char>, SchemeV)>,
    base: int,
    cs: Seq<char>,
    dot: int,
    partial: Seq<char>,
) -> Seq<ItemV> {
    let private = has_prefix(partial, "_"@);
    with_prefix(
        match receiver_type_name(p, cs, dot) {
            Some(info) => type_name_items(info, schemes, private),
            None => match receiver_type(typed, base + byte_off(cs, dot)) {
                Some(t) => value_items(p, schemes, t, private),
                None => Seq::empty(),
            },
        },
        partial,
    )
}

/// The members offered behind the `.` at byte offset `dot` of the document.
pub fn member_items(full: &FullAnalysis, text: &str, dot: usize, partial: &str) -> (r: Vec<
    CompletionItem,
>)
    requires
        exists|k: int| crate::document::begins_at(text@, dot as int, k),
        full.main_base + dot <= usize::MAX,
    ensures
        forall|k: int|
            crate::document::begins_at(text@, dot as int, k) ==> items_view(r@)
                == #[trigger] members_of(
                full.program@,
                full.typed@,
                schemes_view(full.schemes@),
                full.main_base as int,
                text@,
                k,
                partial@,
            ),
{
    let chars = Chars::of(text);
    let k = find_index(&chars, dot);
    proof {
        assert forall|j: int| crate::document::begins_at(text@, dot as int, j) implies j == k by {
            crate::document::begins_at_unique(text@, dot as int, j, k as int);
        }
    }
    let private = starts_with(partial, "_");
    let mut info: Option<&TypeInfo> = None;
    if let Some(name) = find_lone_name(&chars.cs, k) {
        let main = main_module();
        info = full.program.resolve_type(main.as_slice(), name.as_str());
    }
    let items = match info {
        Some(t) => items_of_type_name(full, t, private),
        None => match receiver_type_at(full, full.main_base + dot) {
            Some(ty) => value_member_items(full, ty, private),
            None => {
                let none: Vec<CompletionItem> = Vec::new();
                assert(items_view(none@) =~= Seq::empty());
                none
            },
        },
    };
    filter_prefix(items, partial)
}

} // verus!
