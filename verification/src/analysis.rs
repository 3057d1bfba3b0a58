//! Per-document analysis: incremental diagnostics and the whole-document facts that
//! hover, go-to-definition and completion read.

use vstd::prelude::*;
use crate::ast::{clone_imports, clone_module, clone_top_level, import_names_view, imports_view, top_levels_view, Import, ImportName, ImportV, Module, ModuleV, TopLevel, TopLevelV};
use crate::hir::Program;
use crate::items::{counterpart, counterpart_facts, covers, diags_view, diff, is_seed, items_of, items_view, least_cover, reduced_holds_what_is_seen, repeats, same_item, seeds, sees, spans_fit, split, unaffected_sees_the_same, unaffected_still_sees, used, users, uses, Diff, Item, ItemKind, ItemV};
use crate::span::{span_contains, Span};
use crate::text::{str_eq, strings_eq};
use crate::typed::TypedProgram;
use crate::types::Type;

verus! {

// ---- sources ----

/// A source file of an analysis. Files lie one after the other in one space of byte
/// offsets; `base` is where this one begins. A file embedded in the compiler has no
/// path.
#[derive(Clone, Debug, PartialEq)]
pub struct SourceFile {
    pub base: usize,
    pub path: Option<String>,
    pub src: String,
}

/// The source files of an analysis, in order of their bases.
#[derive(Clone, Debug, PartialEq)]
pub struct SourceMap {
    pub files: Vec<SourceFile>,
}

// ---- type schemes ----

/// The inferred type of one method of a generic record, over the record's parameters.
#[derive(Clone, Debug, PartialEq)]
pub struct MethodScheme {
    pub params: Vec<Type>,
    pub ret: Type,
}

/// The inferred generic shape of a record type: its parameters, and its fields and
/// methods over them.
#[derive(Clone, Debug, PartialEq)]
pub struct TypeScheme {
    pub params: Vec<u32>,
    pub fields: Vec<(String, Type)>,
    pub methods: Vec<(String, MethodScheme)>,
}

/// A full analysis of one document version, used by hover, go-to-definition and
/// completion. Carries the sources so that a definition in another file can be located.
pub struct FullAnalysis {
    pub program: Program,
    pub typed: TypedProgram,
    pub sources: SourceMap,
    /// Where the document begins among the sources.
    pub main_base: usize,
    pub main_ast: Module,
    pub schemes: Vec<(String, TypeScheme)>,
    /// The modules whose names are visible everywhere.
    pub prelude_modules: Vec<Vec<String>>,
}

// ---- reduced documents ----

/// Whether the items marked in `keep` hold the document's statements.
pub open spec fn keeps_init(items: Seq<ItemV>, keep: Seq<bool>) -> bool {
    items.len() > 0 && items.last().kind == ItemKind::Init && keep[items.len() - 1]
}

/// Which top-level items are statements.
pub open spec fn stmt_marks(tops: Seq<TopLevelV>) -> Seq<bool> {
    Seq::new(tops.len(), |i: int| tops[i] is Stmt)
}

/// How many of the first `n` top-level items are functions or types, given which are
/// statements.
pub open spec fn decls(stmts: Seq<bool>, n: int) -> nat
    decreases n,
{
    if n <= 0 {
        0
    } else {
        decls(stmts, n - 1) + (if stmts[n - 1] {
            0nat
        } else {
            1nat
        })
    }
}

/// Whether the `i`-th top-level item is kept: a marked function or type, or a statement
/// if they are marked.
pub open spec fn stays(stmts: Seq<bool>, i: int, keep: Seq<bool>, init: bool) -> bool {
    if stmts[i] {
        init
    } else {
        keep[decls(stmts, i) as int]
    }
}

/// Those of the first `n` top-level items that are kept.
pub open spec fn kept(tops: Seq<TopLevelV>, n: int, keep: Seq<bool>, init: bool) -> Seq<TopLevelV>
    decreases n,
{
    if n <= 0 {
        Seq::empty()
    } else if stays(stmt_marks(tops), n - 1, keep, init) {
        kept(tops, n - 1, keep, init).push(tops[n - 1])
    } else {
        kept(tops, n - 1, keep, init)
    }
}

proof fn decls_prefix(a: Seq<bool>, b: Seq<bool>, n: int)
    requires
        n <= a.len() <= b.len(),
        forall|i: int| 0 <= i < a.len() ==> a[i] == b[i],
    ensures
        decls(a, n) == decls(b, n),
    decreases n,
{
    if n > 0 {
        decls_prefix(a, b, n - 1);
    }
}

proof fn decls_split(tops: Seq<TopLevelV>, cs: Seq<char>, base: int)
    ensures
        crate::items::decl_items(tops, cs, base).len() == decls(
            stmt_marks(tops),
            tops.len() as int,
        ),
    decreases tops.len(),
{
    if tops.len() > 0 {
        decls_split(tops.drop_last(), cs, base);
        decls_prefix(stmt_marks(tops.drop_last()), stmt_marks(tops), tops.len() - 1);
    }
}

proof fn decls_grow(stmts: Seq<bool>, i: int, n: int)
    requires
        0 <= i < n,
    ensures
        decls(stmts, i) <= decls(stmts, n),
        !stmts[i] ==> decls(stmts, i) < decls(stmts, n),
    decreases n - i,
{
    if i < n - 1 {
        decls_grow(stmts, i, n - 1);
    }
}

fn marks_of(tops: &Vec<TopLevel>) -> (r: Vec<bool>)
    ensures
        r@ == stmt_marks(top_levels_view(tops@)),
{
    let mut out: Vec<bool> = Vec::new();
    for i in 0..tops.len()
        invariant
            out@.len() == i,
            forall|j: int| 0 <= j < i ==> #[trigger] out@[j] == (tops@[j]@ is Stmt),
    {
        let m = match &tops[i] {
            TopLevel::Stmt(_) => true,
            _ => false,
        };
        out.push(m);
    }
    assert(out@ =~= stmt_marks(top_levels_view(tops@)));
    out
}

/// Rebuild the document module keeping only the items marked in `keep`. Item indices
/// follow [`split`]: functions and types in source order, then the statements.
fn reduce_main(main: &Module, items: &Vec<Item>, keep: &Vec<bool>) -> (r: Module)
    requires
        decls(stmt_marks(main@.items), main@.items.len() as int) <= items@.len(),
        keep@.len() == items@.len(),
    ensures
        r@ == (ModuleV {
            imports: main@.imports,
            items: kept(
                main@.items,
                main@.items.len() as int,
                keep@,
                keeps_init(items_view(items@), keep@),
            ),
        }),
{
    let n: usize = items.len();
    let init = n > 0 && items[n - 1].kind == ItemKind::Init && keep[n - 1];
    assert(init == keeps_init(items_view(items@), keep@));
    Module {
        imports: clone_imports(&main.imports),
        items: keep_items(&main.items, keep, init),
    }
}

/// The positions of the top-level items that are kept.
pub open spec fn kept_at(stmts: Seq<bool>, n: int, keep: Seq<bool>, init: bool) -> Seq<int>
    decreases n,
{
    if n <= 0 {
        Seq::empty()
    } else if stays(stmts, n - 1, keep, init) {
        kept_at(stmts, n - 1, keep, init).push(n - 1)
    } else {
        kept_at(stmts, n - 1, keep, init)
    }
}

proof fn kept_at_items(tops: Seq<TopLevelV>, n: int, keep: Seq<bool>, init: bool)
    requires
        0 <= n <= tops.len(),
    ensures
        kept_at(stmt_marks(tops), n, keep, init).len() == kept(tops, n, keep, init).len(),
        forall|j: int|
            #![trigger kept_at(stmt_marks(tops), n, keep, init)[j]]
            0 <= j < kept_at(stmt_marks(tops), n, keep, init).len() ==> 0 <= kept_at(
                stmt_marks(tops),
                n,
                keep,
                init,
            )[j] < n && kept(tops, n, keep, init)[j] == tops[kept_at(
                stmt_marks(tops),
                n,
                keep,
                init,
            )[j]],
    decreases n,
{
    if n > 0 {
        kept_at_items(tops, n - 1, keep, init);
    }
}

/// The model of positions.
pub open spec fn positions(v: Seq<usize>) -> Seq<int> {
    Seq::new(v.len(), |i: int| v[i] as int)
}

fn kept_positions(stmts: &Vec<bool>, keep: &Vec<bool>, init: bool) -> (r: Vec<usize>)
    requires
        decls(stmts@, stmts@.len() as int) <= keep@.len(),
    ensures
        positions(r@) == kept_at(stmts@, stmts@.len() as int, keep@, init),
{
    let n: usize = stmts.len();
    let most: usize = keep.len();
    let mut out: Vec<usize> = Vec::new();
    let mut idx: usize = 0;
    assert(positions(out@) =~= Seq::empty());
    for i in 0..n
        invariant
            n == stmts@.len(),
            most == keep@.len(),
            decls(stmts@, n as int) <= keep@.len(),
            idx == decls(stmts@, i as int),
            positions(out@) == kept_at(stmts@, i as int, keep@, init),
    {
        let ghost done = positions(out@);
        proof {
            decls_grow(stmts@, i as int, n as int);
        }
        let mut stay: bool = init;
        if !stmts[i] {
            stay = keep[idx];
            idx = idx + 1;
        }
        if stay {
            out.push(i);
            assert(positions(out@) =~= done.push(i as int));
        }
    }
    out
}

fn keep_items(tops: &Vec<TopLevel>, keep: &Vec<bool>, init: bool) -> (r: Vec<TopLevel>)
    requires
        decls(stmt_marks(top_levels_view(tops@)), tops@.len() as int) <= keep@.len(),
    ensures
        top_levels_view(r@) == kept(
            top_levels_view(tops@),
            tops@.len() as int,
            keep@,
            init,
        ),
{
    let ghost all = top_levels_view(tops@);
    let marks = marks_of(tops);
    let at = kept_positions(&marks, keep, init);
    let ghost av = positions(at@);
    proof {
        kept_at_items(all, tops@.len() as int, keep@, init);
        assert forall|j: int| 0 <= j < at@.len() implies at@[j] < tops@.len() by {
            assert(av[j] == at@[j]);
        }
    }
    let mut out: Vec<TopLevel> = Vec::new();
    for k in 0..at.len()
        invariant
            forall|j: int| 0 <= j < at@.len() ==> at@[j] < tops@.len(),
            out@.len() == k,
            forall|j: int| 0 <= j < k ==> (#[trigger] out@[j])@ == tops@[at@[j] as int]@,
    {
        out.push(clone_top_level(&tops[at[k]]));
    }
    proof {
        let want = kept(all, tops@.len() as int, keep@, init);
        assert forall|j: int| 0 <= j < out@.len() implies top_levels_view(out@)[j] == want[j] by {
            assert(av[j] == at@[j]);
            assert(all[at@[j] as int] == tops@[at@[j] as int]@);
        }
        assert(top_levels_view(out@) =~= want);
    }
    out
}

// ---- diagnostics ----

/// The first item from `i` on in whose span an offset falls.
pub open spec fn item_at(items: Seq<ItemV>, i: int, lo: int) -> Option<int>
    decreases items.len() - i,
{
    if !(0 <= i < items.len()) {
        None
    } else if span_contains(items[i].span, lo) {
        Some(i)
    } else {
        item_at(items, i + 1, lo)
    }
}

/// The diagnostics that fall in item `which`, or in none.
pub open spec fn bucket(
    diags: Seq<(Seq<char>, Span)>,
    items: Seq<ItemV>,
    which: Option<int>,
) -> Seq<(Seq<char>, Span)>
    decreases diags.len(),
{
    if diags.len() == 0 {
        Seq::empty()
    } else {
        let r = bucket(diags.drop_last(), items, which);
        if item_at(items, 0, diags.last().1.lo as int) == which {
            r.push(diags.last())
        } else {
            r
        }
    }
}

fn find_item(items: &Vec<Item>, lo: usize) -> (r: Option<usize>)
    ensures
        item_at(items_view(items@), 0, lo as int) == (match r {
            Some(i) => Some(i as int),
            None => None,
        }),
        r matches Some(i) ==> i < items.len(),
{
    let ghost iv = items_view(items@);
    let mut i: usize = 0;
    while i < items.len()
        invariant
            iv == items_view(items@),
            i <= items.len(),
            item_at(iv, 0, lo as int) == item_at(iv, i as int, lo as int),
        decreases items.len() - i,
    {
        assert(iv[i as int] == items[i as int]@);
        if items[i].span.lo <= lo && lo <= items[i].span.hi {
            return Some(i);
        }
        i = i + 1;
    }
    None
}

/// The diagnostics among `diags` that fall in item `which`, or in none.
fn attribute(diags: &Vec<(String, Span)>, items: &Vec<Item>, which: Option<usize>) -> (r: Vec<
    (String, Span),
>)
    ensures
        diags_view(r@) == bucket(
            diags_view(diags@),
            items_view(items@),
            match which {
                Some(i) => Some(i as int),
                None => None,
            },
        ),
{
    let ghost all = diags_view(diags@);
    let ghost iv = items_view(items@);
    let ghost w = match which {
        Some(i) => Some(i as int),
        None => None,
    };
    let mut out: Vec<(String, Span)> = Vec::new();
    assert(diags_view(out@) =~= bucket(all.take(0), iv, w));
    for k in 0..diags.len()
        invariant
            all == diags_view(diags@),
            iv == items_view(items@),
            w == (match which {
                Some(i) => Some(i as int),
                None => None,
            }),
            diags_view(out@) == bucket(all.take(k as int), iv, w),
    {
        let ghost done = diags_view(out@);
        proof {
            assert(all.take(k + 1).drop_last() =~= all.take(k as int));
            assert(all.take(k + 1).last() == all[k as int]);
        }
        let here = match (find_item(items, diags[k].1.lo), which) {
            (Some(a), Some(b)) => a == b,
            (None, None) => true,
            _ => false,
        };
        if here {
            out.push((diags[k].0.clone(), diags[k].1));
            assert(diags_view(out@) =~= done.push(all[k as int]));
        }
    }
    assert(all.take(diags.len() as int) =~= all);
    out
}

/// An offset moved along with something that moved from `from` to `to`, kept within the
/// range of offsets.
pub open spec fn moved(at: int, from: int, to: int) -> usize {
    let m = at + to - from;
    if m < 0 {
        0
    } else if m > usize::MAX {
        usize::MAX
    } else {
        m as usize
    }
}

/// Diagnostics moved along with their item.
pub open spec fn shifted(diags: Seq<(Seq<char>, Span)>, from: int, to: int) -> Seq<
    (Seq<char>, Span),
> {
    Seq::new(
        diags.len(),
        |i: int|
            (
                diags[i].0,
                Span {
                    lo: moved(diags[i].1.lo as int, from, to),
                    hi: moved(diags[i].1.hi as int, from, to),
                },
            ),
    )
}

fn move_offset(at: usize, from: usize, to: usize) -> (r: usize)
    ensures
        r == moved(at as int, from as int, to as int),
{
    if to >= from {
        let d: usize = to - from;
        if at > usize::MAX - d {
            usize::MAX
        } else {
            at + d
        }
    } else {
        let d: usize = from - to;
        if at < d {
            0
        } else {
            at - d
        }
    }
}

fn shift(diags: &Vec<(String, Span)>, from: usize, to: usize) -> (r: Vec<(String, Span)>)
    ensures
        diags_view(r@) == shifted(diags_view(diags@), from as int, to as int),
{
    let mut out: Vec<(String, Span)> = Vec::new();
    for i in 0..diags.len()
        invariant
            out.len() == i,
            forall|j: int|
                0 <= j < i ==> (#[trigger] out[j]).0@ == diags[j].0@ && out[j].1 == (Span {
                    lo: moved(diags[j].1.lo as int, from as int, to as int),
                    hi: moved(diags[j].1.hi as int, from as int, to as int),
                }),
    {
        let s = diags[i].1;
        out.push(
            (
                diags[i].0.clone(),
                Span::new(move_offset(s.lo, from, to), move_offset(s.hi, from, to)),
            ),
        );
    }
    assert(diags_view(out@) =~= shifted(diags_view(diags@), from as int, to as int));
    out
}

/// A global diagnostic as one of the document at `[base, base + len]`; `None` when it
/// begins outside of it.
pub open spec fn local_diag(d: (Seq<char>, Span), base: int, len: int) -> Option<
    (Seq<char>, Span),
> {
    if d.1.lo < base || d.1.lo > base + len {
        None
    } else {
        let lo = d.1.lo - base;
        let end = if d.1.hi < base {
            0
        } else if d.1.hi - base < len {
            d.1.hi - base
        } else {
            len
        };
        Some(
            (
                d.0,
                Span {
                    lo: lo as usize,
                    hi: (if end < lo {
                        lo
                    } else {
                        end
                    }) as usize,
                },
            ),
        )
    }
}

/// The diagnostics that begin in the document, in its own offsets.
pub open spec fn localized(diags: Seq<(Seq<char>, Span)>, base: int, len: int) -> Seq<
    (Seq<char>, Span),
>
    decreases diags.len(),
{
    if diags.len() == 0 {
        Seq::empty()
    } else {
        let r = localized(diags.drop_last(), base, len);
        match local_diag(diags.last(), base, len) {
            Some(d) => r.push(d),
            None => r,
        }
    }
}

/// Every diagnostic shown lies in the document.
pub proof fn localized_in_document(diags: Seq<(Seq<char>, Span)>, base: int, len: int)
    requires
        0 <= base,
        0 <= len <= usize::MAX,
    ensures
        forall|i: int|
            0 <= i < localized(diags, base, len).len() ==> {
                let s = (#[trigger] localized(diags, base, len)[i]).1;
                s.lo <= s.hi <= len
            },
    decreases diags.len(),
{
    if diags.len() > 0 {
        let r = localized(diags.drop_last(), base, len);
        let l = localized(diags, base, len);
        localized_in_document(diags.drop_last(), base, len);
        assert forall|i: int| 0 <= i < l.len() implies ({
            let s = (#[trigger] l[i]).1;
            s.lo <= s.hi <= len
        }) by {
            if i < r.len() {
                assert(l[i] == r[i]);
            }
        }
    }
}

fn localize(diags: &Vec<(String, Span)>, base: usize, len: usize) -> (r: Vec<(String, Span)>)
    ensures
        diags_view(r@) == localized(diags_view(diags@), base as int, len as int),
{
    let ghost all = diags_view(diags@);
    let mut out: Vec<(String, Span)> = Vec::new();
    assert(diags_view(out@) =~= localized(all.take(0), base as int, len as int));
    for i in 0..diags.len()
        invariant
            all == diags_view(diags@),
            diags_view(out@) == localized(all.take(i as int), base as int, len as int),
    {
        let ghost done = diags_view(out@);
        proof {
            assert(all.take(i + 1).drop_last() =~= all.take(i as int));
            assert(all.take(i + 1).last() == all[i as int]);
        }
        let s = diags[i].1;
        if s.lo >= base && s.lo - base <= len {
            let lo: usize = s.lo - base;
            let end: usize = if s.hi < base {
                0
            } else if s.hi - base < len {
                s.hi - base
            } else {
                len
            };
            let hi: usize = if end < lo {
                lo
            } else {
                end
            };
            out.push((diags[i].0.clone(), Span::new(lo, hi)));
            assert(diags_view(out@) =~= done.push(
                (all[i as int].0, Span { lo, hi }),
            ));
        }
    }
    assert(all.take(diags.len() as int) =~= all);
    out
}

// ---- the analyzer ----

/// The items of the last version that parsed, and its imports.
pub struct ItemCache {
    pub items: Vec<Item>,
    pub imports: Vec<Import>,
}

impl Default for ItemCache {
    fn default() -> (r: ItemCache)
        ensures
            r.items@.len() == 0,
            r.imports@.len() == 0,
    {
        ItemCache { items: Vec::new(), imports: Vec::new() }
    }
}

/// The persistent analysis state for one open document: incremental diagnostics
/// bookkeeping carried between versions.
pub struct DocAnalyzer {
    pub path: String,
    pub cache: ItemCache,
}

/// What a new version of a document asks to be checked.
pub struct Plan {
    pub items: Vec<Item>,
    pub diff: Diff,
    /// Whether the whole document is checked.
    pub full: bool,
    pub imports: Vec<Import>,
    /// The document reduced to what is checked.
    pub main: Module,
}

impl Plan {
    /// Whether this is the plan for a version after one with the items `prev`.
    pub open spec fn follows(self, prev: Seq<ItemV>) -> bool {
        &&& self.diff.of(prev, items_view(self.items@))
        &&& prev.len() == 0 ==> self.full
    }
}

fn same_name(a: &ImportName, b: &ImportName) -> (r: bool)
    ensures
        r == (a@ == b@),
{
    let r = str_eq(a.local.as_str(), b.local.as_str()) && str_eq(
        a.remote.as_str(),
        b.remote.as_str(),
    );
    r
}

fn same_import(a: &Import, b: &Import) -> (r: bool)
    ensures
        r == (a@ == b@),
{
    let ghost av = import_names_view(a.names@);
    let ghost bv = import_names_view(b.names@);
    let alias = match (&a.alias, &b.alias) {
        (Some(x), Some(y)) => str_eq(x.as_str(), y.as_str()),
        (None, None) => true,
        _ => false,
    };
    if !strings_eq(a.path.as_slice(), b.path.as_slice()) || a.names.len() != b.names.len()
        || !alias {
        assert(av.len() == a.names@.len() && bv.len() == b.names@.len());
        return false;
    }
    for i in 0..a.names.len()
        invariant
            av == import_names_view(a.names@),
            bv == import_names_view(b.names@),
            a@.names == av,
            b@.names == bv,
            a.names.len() == b.names.len(),
            forall|j: int| 0 <= j < i ==> #[trigger] av[j] == bv[j],
    {
        assert(av[i as int] == a.names[i as int]@ && bv[i as int] == b.names[i as int]@);
        if !same_name(&a.names[i], &b.names[i]) {
            return false;
        }
    }
    assert(av =~= bv);
    true
}

fn same_imports(a: &Vec<Import>, b: &Vec<Import>) -> (r: bool)
    ensures
        r == (imports_view(a@) == imports_view(b@)),
{
    let ghost av = imports_view(a@);
    let ghost bv = imports_view(b@);
    if a.len() != b.len() {
        assert(av.len() != bv.len());
        return false;
    }
    for i in 0..a.len()
        invariant
            av == imports_view(a@),
            bv == imports_view(b@),
            a.len() == b.len(),
            forall|j: int| 0 <= j < i ==> #[trigger] av[j] == bv[j],
    {
        assert(av[i as int] == a[i as int]@ && bv[i as int] == b[i as int]@);
        if !same_import(&a[i], &b[i]) {
            return false;
        }
    }
    assert(av =~= bv);
    true
}

/// What was found in the items of a new version: what the run found in those that were
/// checked, and what was found before, moved along, in the others.
pub open spec fn found(
    plan: Plan,
    prev: Seq<ItemV>,
    run: Seq<(Seq<char>, Span)>,
    i: int,
) -> Seq<(Seq<char>, Span)> {
    let items = items_view(plan.items@);
    if plan.full || plan.diff.affected@[i] {
        bucket(run, items, Some(i))
    } else {
        let m = counterpart(prev, 0, items[i])->0;
        shifted(prev[m].diags, prev[m].span.lo as int, items[i].span.lo as int)
    }
}

/// The items of a new version with what was found in them.
pub open spec fn updated(plan: Plan, prev: Seq<ItemV>, run: Seq<(Seq<char>, Span)>) -> Seq<ItemV> {
    let items = items_view(plan.items@);
    Seq::new(items.len(), |i: int| ItemV { diags: found(plan, prev, run, i), ..items[i] })
}

/// What was found in items, one after the other.
pub open spec fn all_found(items: Seq<ItemV>) -> Seq<(Seq<char>, Span)>
    decreases items.len(),
{
    if items.len() == 0 {
        Seq::empty()
    } else {
        all_found(items.drop_last()) + items.last().diags
    }
}

/// The diagnostics of a new version: those of its items, what the run found outside of
/// them and the errors of loading its imports, as far as they begin in the document.
pub open spec fn reported(
    plan: Plan,
    prev: Seq<ItemV>,
    run: Seq<(Seq<char>, Span)>,
    load_errors: Seq<(Seq<char>, Span)>,
    base: int,
    len: int,
) -> Seq<(Seq<char>, Span)> {
    localized(
        all_found(updated(plan, prev, run)) + bucket(run, items_view(plan.items@), None)
            + load_errors,
        base,
        len,
    )
}

/// An item that is not checked again is in the old version.
pub proof fn unaffected_is_known(plan: Plan, prev: Seq<ItemV>, i: int)
    requires
        plan.follows(prev),
        0 <= i < plan.items@.len(),
        !plan.full,
        !plan.diff.affected@[i],
    ensures
        counterpart(prev, 0, items_view(plan.items@)[i]) is Some,
        plan.diff.matches@[i] is Some,
{
    let new = items_view(plan.items@);
    assert(covers(plan.diff.affected@, seeds(prev, new), users(new)));
    assert(!seeds(prev, new)[i]);
    assert(!is_seed(prev, new, new[i]));
    let m = plan.diff.matches@[i];
    assert(match plan.diff.matches@[i] {
        Some(k) => counterpart(prev, 0, new[i]) == Some(k as int),
        None => counterpart(prev, 0, new[i]) is None,
    });
}

fn push_all(out: &mut Vec<(String, Span)>, more: &Vec<(String, Span)>)
    ensures
        diags_view(final(out)@) == diags_view(old(out)@) + diags_view(more@),
{
    let ghost start = diags_view(out@);
    let ghost all = diags_view(more@);
    assert(start =~= start + all.take(0));
    for i in 0..more.len()
        invariant
            all == diags_view(more@),
            diags_view(out@) == start + all.take(i as int),
    {
        let ghost done = diags_view(out@);
        out.push((more[i].0.clone(), more[i].1));
        proof {
            assert(diags_view(out@) =~= done.push(all[i as int]));
            assert(diags_view(out@) =~= start + all.take(i + 1));
        }
    }
    assert(all.take(more.len() as int) =~= all);
}

impl DocAnalyzer {
    pub fn new(path: String) -> (r: DocAnalyzer)
        ensures
            r.path@ == path@,
            r.cache.items@.len() == 0,
            r.cache.imports@.len() == 0,
    {
        DocAnalyzer { path, cache: ItemCache::default() }
    }

    /// Plan the check of a new version of the document, parsed as `main`, whose text
    /// begins at `base`: the whole document when nothing is known of an earlier version,
    /// its imports changed or an item stands twice, else the items whose source changed
    /// or that use such an item, with the definitions they depend on.
    pub fn plan(&self, main: &Module, text: &str, base: usize) -> (r: Plan)
        requires
            spans_fit(main@.items, text@, base as int),
        ensures
            items_view(r.items@) == items_of(main@.items, text@, base as int),
            r.follows(items_view(self.cache.items@)),
            r.full == (self.cache.items@.len() == 0 || repeats(items_view(self.cache.items@))
                || repeats(items_view(r.items@)) || imports_view(self.cache.imports@)
                != main@.imports),
            imports_view(r.imports@) == main@.imports,
            r.main@ == (if r.full {
                main@
            } else {
                ModuleV {
                    imports: main@.imports,
                    items: kept(
                        main@.items,
                        main@.items.len() as int,
                        r.diff.reduced@,
                        keeps_init(items_view(r.items@), r.diff.reduced@),
                    ),
                }
            }),
    {
        let items = split(main, text, base);
        let d = diff(&self.cache.items, &items);
        let full = d.full || !same_imports(&self.cache.imports, &main.imports);
        proof {
            decls_split(main@.items, text@, base as int);
        }
        let reduced = if full {
            clone_module(main)
        } else {
            reduce_main(main, &items, &d.reduced)
        };
        Plan { items, diff: d, full, imports: clone_imports(&main.imports), main: reduced }
    }

    /// The document does not parse: report just that, and drop the cache so that the next
    /// good parse is checked from scratch.
    pub fn parse_failed(&mut self, message: String, span: Span) -> (r: Vec<(String, Span)>)
        ensures
            diags_view(r@) == seq![(message@, span)],
            final(self).path@ == old(self).path@,
            final(self).cache.items@.len() == 0,
    {
        let ghost m = message@;
        self.cache = ItemCache::default();
        let mut out: Vec<(String, Span)> = Vec::new();
        out.push((message, span));
        assert(diags_view(out@) =~= seq![(m, span)]);
        out
    }

    /// The document's diagnostics, from what checking the planned part found (in global
    /// spans) and the errors of loading its imports. Items that were not checked keep
    /// their previous diagnostics, moved to their new positions. The diagnostics returned
    /// are those that begin in the document (`len` bytes from `base` on), in its own
    /// offsets.
    #[verifier::rlimit(50)]
    pub fn diagnostics(
        &mut self,
        plan: Plan,
        run: &Vec<(String, Span)>,
        load_errors: &Vec<(String, Span)>,
        base: usize,
        len: usize,
    ) -> (r: Vec<(String, Span)>)
        requires
            plan.follows(items_view(old(self).cache.items@)),
        ensures
            final(self).path@ == old(self).path@,
            items_view(final(self).cache.items@) == updated(
                plan,
                items_view(old(self).cache.items@),
                diags_view(run@),
            ),
            imports_view(final(self).cache.imports@) == imports_view(plan.imports@),
            diags_view(r@) == reported(
                plan,
                items_view(old(self).cache.items@),
                diags_view(run@),
                diags_view(load_errors@),
                base as int,
                len as int,
            ),
    {
        let ghost prev = items_view(self.cache.items@);
        let ghost iv = items_view(plan.items@);
        let ghost rv = diags_view(run@);
        let n: usize = plan.items.len();
        let mut items: Vec<Item> = Vec::new();
        let mut out: Vec<(String, Span)> = Vec::new();
        let ghost want = updated(plan, prev, rv);
        assert(diags_view(out@) =~= all_found(want.take(0)));
        for i in 0..n
            invariant
                n == plan.items.len(),
                plan.follows(prev),
                prev == items_view(self.cache.items@),
                iv == items_view(plan.items@),
                rv == diags_view(run@),
                want == updated(plan, prev, rv),
                items.len() == i,
                forall|j: int| 0 <= j < i ==> (#[trigger] items[j])@ == want[j],
                diags_view(out@) == all_found(want.take(i as int)),
        {
            let it = &plan.items[i];
            assert(iv[i as int] == it@);
            assert(plan.diff.affected@.len() == n) by {
                assert(covers(
                    plan.diff.affected@,
                    seeds(prev, iv),
                    users(iv),
                ));
            }
            let ds = if plan.full || plan.diff.affected[i] {
                attribute(run, &plan.items, Some(i))
            } else {
                proof {
                    unaffected_is_known(plan, prev, i as int);
                    counterpart_facts(prev, 0, iv[i as int]);
                }
                let m = plan.diff.matches[i].unwrap();
                let was = &self.cache.items[m];
                assert(prev[m as int] == was@);
                shift(&was.diags, was.span.lo, it.span.lo)
            };
            push_all(&mut out, &ds);
            let new_item = Item {
                kind: it.kind,
                name: it.name.clone(),
                source: it.source.clone(),
                span: it.span,
                diags: ds,
            };
            proof {
                assert(new_item@ =~= want[i as int]);
                assert(want.take(i + 1).drop_last() =~= want.take(i as int));
                assert(want.take(i + 1).last() == want[i as int]);
            }
            items.push(new_item);
        }
        proof {
            assert(want.take(n as int) =~= want);
            assert(items_view(items@) =~= want);
        }
        let rest = attribute(run, &plan.items, None);
        push_all(&mut out, &rest);
        push_all(&mut out, load_errors);
        let imports = plan.imports;
        self.cache = ItemCache { items, imports };
        localize(&out, base, len)
    }
}

/// The diagnostics of lowering, of the imports and of type checking, in that order.
pub fn pipeline_diags(
    lower_errors: &Vec<crate::lower::LowerError>,
    import_errors: &Vec<(String, Span)>,
    check_errors: &Vec<(String, Span)>,
) -> (r: Vec<(String, Span)>)
    ensures
        diags_view(r@) == Seq::new(
            lower_errors@.len(),
            |i: int| (lower_errors@[i].message@, lower_errors@[i].span),
        ) + diags_view(import_errors@) + diags_view(check_errors@),
{
    let mut out: Vec<(String, Span)> = Vec::new();
    for i in 0..lower_errors.len()
        invariant
            out.len() == i,
            forall|j: int|
                0 <= j < i ==> (#[trigger] out[j]).0@ == lower_errors[j].message@ && out[j].1
                    == lower_errors[j].span,
    {
        out.push((lower_errors[i].message.clone(), lower_errors[i].span));
    }
    assert(diags_view(out@) =~= Seq::new(
        lower_errors@.len(),
        |i: int| (lower_errors@[i].message@, lower_errors@[i].span),
    ));
    push_all(&mut out, import_errors);
    push_all(&mut out, check_errors);
    out
}

// ---- laws ----

/// After an edit that only moves items, every item keeps what was found in it, moved
/// along, and the run is not asked.
pub proof fn moving_keeps_diagnostics(
    plan: Plan,
    prev: Seq<ItemV>,
    run: Seq<(Seq<char>, Span)>,
    i: int,
)
    requires
        plan.follows(prev),
        !plan.full,
        prev.len() == plan.items@.len(),
        forall|j: int|
            0 <= j < plan.items@.len() ==> same_item(
                #[trigger] prev[j],
                items_view(plan.items@)[j],
            ),
        0 <= i < plan.items@.len(),
    ensures
        ({
            let m = counterpart(prev, 0, items_view(plan.items@)[i])->0;
            found(plan, prev, run, i) == shifted(
                prev[m].diags,
                prev[m].span.lo as int,
                items_view(plan.items@)[i].span.lo as int,
            )
        }),
{
    let new = items_view(plan.items@);
    crate::items::nothing_changed_nothing_affected(prev, new, plan.diff.affected@);
    assert(covers(plan.diff.affected@, seeds(prev, new), users(new)));
    assert(!plan.diff.affected@[i]);
}

/// What tells an item apart: its kind, its name and its source.
pub open spec fn identity(it: ItemV) -> (ItemKind, Seq<char>, Seq<char>) {
    (it.kind, it.name, it.source)
}

/// Whether item `i` sees a definition, however far.
pub open spec fn is_visible(items: Seq<ItemV>, i: int, x: (ItemKind, Seq<char>, Seq<char>)) -> bool {
    exists|b: int, n: nat|
        0 <= b < items.len() && #[trigger] sees(items, i, b, n) && identity(items[b]) == x
}

/// The definitions that item `i` sees.
pub open spec fn visible(items: Seq<ItemV>, i: int) -> Set<(ItemKind, Seq<char>, Seq<char>)> {
    Set::new(|x: (ItemKind, Seq<char>, Seq<char>)| is_visible(items, i, x))
}

/// Whether `b` is within `n` steps of use from `a` in a document reduced to the items
/// marked in `keep`.
pub open spec fn sees_in(items: Seq<ItemV>, keep: Seq<bool>, a: int, b: int, n: nat) -> bool
    decreases n,
{
    keep[b] && if n == 0 {
        a == b
    } else {
        sees_in(items, keep, a, b, (n - 1) as nat) || exists|c: int|
            0 <= c < items.len() && sees_in(items, keep, a, c, (n - 1) as nat) && uses(
                #[trigger] items[c],
                items[b],
            )
    }
}

/// Whether item `i` sees a definition in a reduced document.
pub open spec fn is_visible_in(
    items: Seq<ItemV>,
    keep: Seq<bool>,
    i: int,
    x: (ItemKind, Seq<char>, Seq<char>),
) -> bool {
    exists|b: int, n: nat|
        0 <= b < items.len() && #[trigger] sees_in(items, keep, i, b, n) && identity(items[b]) == x
}

/// The definitions that item `i` sees in a reduced document.
pub open spec fn visible_in(items: Seq<ItemV>, keep: Seq<bool>, i: int) -> Set<
    (ItemKind, Seq<char>, Seq<char>),
> {
    Set::new(|x: (ItemKind, Seq<char>, Seq<char>)| is_visible_in(items, keep, i, x))
}

/// Messages with offsets from the start of their item, as diagnostics of an item that
/// starts at `at`.
pub open spec fn set_at(rel: Seq<(Seq<char>, int, int)>, at: int) -> Seq<(Seq<char>, Span)> {
    Seq::new(
        rel.len(),
        |k: int|
            (rel[k].0, Span { lo: (at + rel[k].1) as usize, hi: (at + rel[k].2) as usize }),
    )
}

/// Whether such diagnostics have offsets.
pub open spec fn settable(rel: Seq<(Seq<char>, int, int)>, at: int) -> bool {
    forall|k: int|
        0 <= k < rel.len() ==> 0 <= (#[trigger] rel[k]).1 && 0 <= rel[k].2 && at + rel[k].1
            <= usize::MAX && at + rel[k].2 <= usize::MAX
}

/// Whether every item holds what `check` finds in it; `check` is any check that tells
/// what is wrong with a definition from the definition and the ones it sees.
pub open spec fn is_checked(
    items: Seq<ItemV>,
    check: spec_fn(
        (ItemKind, Seq<char>, Seq<char>),
        Set<(ItemKind, Seq<char>, Seq<char>)>,
    ) -> Seq<(Seq<char>, int, int)>,
) -> bool {
    forall|i: int|
        0 <= i < items.len() ==> (#[trigger] items[i]).diags == set_at(
            check(identity(items[i]), visible(items, i)),
            items[i].span.lo as int,
        )
}

/// Whether what `check` finds in the items has offsets.
pub open spec fn is_settable(
    items: Seq<ItemV>,
    check: spec_fn(
        (ItemKind, Seq<char>, Seq<char>),
        Set<(ItemKind, Seq<char>, Seq<char>)>,
    ) -> Seq<(Seq<char>, int, int)>,
) -> bool {
    forall|i: int|
        0 <= i < items.len() ==> settable(
            check(identity(#[trigger] items[i]), visible(items, i)),
            items[i].span.lo as int,
        )
}

proof fn reduced_sees(items: Seq<ItemV>, affected: Seq<bool>, keep: Seq<bool>, a: int, b: int, n: nat)
    requires
        affected.len() == items.len(),
        least_cover(keep, affected, used(items)),
        0 <= a < items.len(),
        affected[a],
        0 <= b < items.len(),
    ensures
        sees(items, a, b, n) == sees_in(items, keep, a, b, n),
    decreases n,
{
    if sees(items, a, b, n) {
        reduced_holds_what_is_seen(items, affected, keep, a, b, n);
    }
    if n > 0 {
        reduced_sees(items, affected, keep, a, b, (n - 1) as nat);
        if sees(items, a, b, n) && !sees(items, a, b, (n - 1) as nat) {
            let c = choose|c: int|
                0 <= c < items.len() && sees(items, a, c, (n - 1) as nat) && uses(
                    #[trigger] items[c],
                    items[b],
                );
            reduced_sees(items, affected, keep, a, c, (n - 1) as nat);
            assert(uses(items[c], items[b]));
        }
        if sees_in(items, keep, a, b, n) && !sees_in(items, keep, a, b, (n - 1) as nat) {
            let c = choose|c: int|
                0 <= c < items.len() && sees_in(items, keep, a, c, (n - 1) as nat) && uses(
                    #[trigger] items[c],
                    items[b],
                );
            reduced_sees(items, affected, keep, a, c, (n - 1) as nat);
            assert(uses(items[c], items[b]));
        }
    }
}

/// An item that is checked again sees in the reduced document what it sees in the whole
/// one.
pub proof fn reduced_shows_the_same(
    items: Seq<ItemV>,
    affected: Seq<bool>,
    keep: Seq<bool>,
    i: int,
)
    requires
        affected.len() == items.len(),
        least_cover(keep, affected, used(items)),
        0 <= i < items.len(),
        affected[i],
    ensures
        visible_in(items, keep, i) == visible(items, i),
{
    assert forall|x: (ItemKind, Seq<char>, Seq<char>)|
        is_visible_in(items, keep, i, x) == is_visible(items, i, x) by {
        if is_visible(items, i, x) {
            let (b, n) = choose|b: int, n: nat|
                0 <= b < items.len() && #[trigger] sees(items, i, b, n) && identity(items[b]) == x;
            reduced_sees(items, affected, keep, i, b, n);
            assert(sees_in(items, keep, i, b, n));
        }
        if is_visible_in(items, keep, i, x) {
            let (b, n) = choose|b: int, n: nat|
                0 <= b < items.len() && #[trigger] sees_in(items, keep, i, b, n) && identity(
                    items[b],
                ) == x;
            reduced_sees(items, affected, keep, i, b, n);
            assert(sees(items, i, b, n));
        }
    }
    assert(visible_in(items, keep, i) =~= visible(items, i));
}

/// An item that is not checked again sees what its counterpart saw in the old version.
pub proof fn unaffected_shows_the_same(
    prev: Seq<ItemV>,
    new: Seq<ItemV>,
    affected: Seq<bool>,
    i: int,
    j: int,
)
    requires
        least_cover(affected, seeds(prev, new), users(new)),
        0 <= i < new.len(),
        !affected[i],
        0 <= j < prev.len(),
        same_item(prev[j], new[i]),
    ensures
        visible(prev, j) == visible(new, i),
{
    assert forall|x: (ItemKind, Seq<char>, Seq<char>)|
        is_visible(prev, j, x) == is_visible(new, i, x) by {
        if is_visible(new, i, x) {
            let (b, n) = choose|b: int, n: nat|
                0 <= b < new.len() && #[trigger] sees(new, i, b, n) && identity(new[b]) == x;
            let k = unaffected_sees_the_same(prev, new, affected, i, j, b, n);
            assert(sees(prev, j, k, n));
        }
        if is_visible(prev, j, x) {
            let (k, n) = choose|k: int, n: nat|
                0 <= k < prev.len() && #[trigger] sees(prev, j, k, n) && identity(prev[k]) == x;
            let b = unaffected_still_sees(prev, new, affected, i, j, k, n);
            assert(sees(new, i, b, n));
        }
    }
    assert(visible(prev, j) =~= visible(new, i));
}

proof fn sees_by_source(a: Seq<ItemV>, b: Seq<ItemV>, i: int, j: int, n: nat)
    requires
        a.len() == b.len(),
        forall|k: int| 0 <= k < a.len() ==> identity(#[trigger] a[k]) == identity(b[k]),
        0 <= i < a.len(),
        0 <= j < a.len(),
        sees(a, i, j, n),
    ensures
        sees(b, i, j, n),
    decreases n,
{
    if n > 0 {
        if sees(a, i, j, (n - 1) as nat) {
            sees_by_source(a, b, i, j, (n - 1) as nat);
        } else {
            let c = choose|c: int|
                0 <= c < a.len() && sees(a, i, c, (n - 1) as nat) && uses(#[trigger] a[c], a[j]);
            sees_by_source(a, b, i, c, (n - 1) as nat);
            assert(identity(a[c]) == identity(b[c]) && identity(a[j]) == identity(b[j]));
            assert(uses(b[c], b[j]));
        }
    }
}

proof fn visible_by_source(a: Seq<ItemV>, b: Seq<ItemV>, i: int)
    requires
        a.len() == b.len(),
        forall|k: int| 0 <= k < a.len() ==> identity(#[trigger] a[k]) == identity(b[k]),
        0 <= i < a.len(),
    ensures
        visible(a, i) == visible(b, i),
{
    assert forall|x: (ItemKind, Seq<char>, Seq<char>)|
        is_visible(a, i, x) == is_visible(b, i, x) by {
        if is_visible(a, i, x) {
            let (j, n) = choose|j: int, n: nat|
                0 <= j < a.len() && #[trigger] sees(a, i, j, n) && identity(a[j]) == x;
            sees_by_source(a, b, i, j, n);
            assert(identity(b[j]) == x);
        }
        if is_visible(b, i, x) {
            let (j, n) = choose|j: int, n: nat|
                0 <= j < b.len() && #[trigger] sees(b, i, j, n) && identity(b[j]) == x;
            assert forall|k: int| 0 <= k < b.len() implies identity(#[trigger] b[k]) == identity(
                a[k],
            ) by {
                assert(identity(a[k]) == identity(b[k]));
            }
            sees_by_source(b, a, i, j, n);
            assert(identity(a[j]) == x);
        }
    }
    assert(visible(a, i) =~= visible(b, i));
}

/// Whether a run holds what `check` finds in the items that a plan asks to be checked,
/// given the whole document or the reduced one as planned.
pub open spec fn answers(
    plan: Plan,
    run: Seq<(Seq<char>, Span)>,
    check: spec_fn(
        (ItemKind, Seq<char>, Seq<char>),
        Set<(ItemKind, Seq<char>, Seq<char>)>,
    ) -> Seq<(Seq<char>, int, int)>,
) -> bool {
    forall|i: int|
        0 <= i < plan.items@.len() && (plan.full || plan.diff.affected@[i]) ==> #[trigger] bucket(
            run,
            items_view(plan.items@),
            Some(i),
        ) == set_at(
            check(
                identity(items_view(plan.items@)[i]),
                if plan.full {
                    visible(items_view(plan.items@), i)
                } else {
                    visible_in(items_view(plan.items@), plan.diff.reduced@, i)
                },
            ),
            items_view(plan.items@)[i].span.lo as int,
        )
}

/// One step of incremental checking. Let the old version hold what `check` finds in its
/// items, and let the run hold what `check` finds in the items to be checked, given the
/// whole document or the reduced one as planned. Then the new version holds what `check`
/// finds in all its items, given the whole document.
pub proof fn step_matches_full(
    plan: Plan,
    prev: Seq<ItemV>,
    run: Seq<(Seq<char>, Span)>,
    check: spec_fn(
        (ItemKind, Seq<char>, Seq<char>),
        Set<(ItemKind, Seq<char>, Seq<char>)>,
    ) -> Seq<(Seq<char>, int, int)>,
)
    requires
        plan.follows(prev),
        !plan.full ==> is_checked(prev, check) && is_settable(prev, check),
        is_settable(items_view(plan.items@), check),
        answers(plan, run, check),
    ensures
        is_checked(updated(plan, prev, run), check),
        is_settable(updated(plan, prev, run), check),
{
    let new = items_view(plan.items@);
    let now = updated(plan, prev, run);
    let affected = plan.diff.affected@;
    assert(covers(affected, seeds(prev, new), users(new)));
    assert forall|i: int| 0 <= i < now.len() implies (#[trigger] now[i]).diags == set_at(
        check(identity(now[i]), visible(now, i)),
        now[i].span.lo as int,
    ) by {
        assert forall|k: int| 0 <= k < new.len() implies identity(#[trigger] new[k]) == identity(
            now[k],
        ) by {}
        visible_by_source(new, now, i);
        let rel = check(identity(new[i]), visible(new, i));
        let at = new[i].span.lo as int;
        if plan.full || affected[i] {
            assert(now[i].diags == bucket(run, new, Some(i)));
            if !plan.full {
                reduced_shows_the_same(new, affected, plan.diff.reduced@, i);
            }
        } else {
            unaffected_is_known(plan, prev, i);
            counterpart_facts(prev, 0, new[i]);
            let m = counterpart(prev, 0, new[i])->0;
            unaffected_shows_the_same(prev, new, affected, i, m);
            assert(identity(prev[m]) == identity(new[i]));
            assert(prev[m].diags == set_at(rel, prev[m].span.lo as int));
            assert(settable(rel, prev[m].span.lo as int));
            assert(settable(rel, at));
            let was = prev[m].span.lo as int;
            let there = shifted(set_at(rel, was), was, at);
            assert forall|k: int| 0 <= k < rel.len() implies there[k] == set_at(rel, at)[k] by {
                assert(0 <= rel[k].1 && 0 <= rel[k].2);
            }
            assert(there =~= set_at(rel, at));
        }
    }
    assert forall|i: int| 0 <= i < now.len() implies settable(
        check(identity(#[trigger] now[i]), visible(now, i)),
        now[i].span.lo as int,
    ) by {
        assert forall|k: int| 0 <= k < new.len() implies identity(#[trigger] new[k]) == identity(
            now[k],
        ) by {}
        visible_by_source(new, now, i);
        assert(settable(check(identity(new[i]), visible(new, i)), new[i].span.lo as int));
    }
}

/// A version of a document, as the analyzer meets it.
pub ghost enum Version {
    /// It does not parse.
    Failed,
    /// It parses, with what the run found and the errors of loading its imports. Its text
    /// lies at `base`, `len` bytes long.
    Parsed {
        plan: Plan,
        run: Seq<(Seq<char>, Span)>,
        load_errors: Seq<(Seq<char>, Span)>,
        base: int,
        len: int,
    },
}

/// What the analyzer knows after some versions: the items of the last one, if it parsed,
/// and its imports.
pub open spec fn known(vs: Seq<Version>) -> (Seq<ItemV>, Seq<ImportV>)
    decreases vs.len(),
{
    if vs.len() == 0 {
        (Seq::empty(), Seq::empty())
    } else {
        match vs.last() {
            Version::Failed => (Seq::empty(), Seq::empty()),
            Version::Parsed { plan, run, .. } => (
                updated(plan, known(vs.drop_last()).0, run),
                imports_view(plan.imports@),
            ),
        }
    }
}

/// Whether a plan is the one made for a version when `k` is known.
pub open spec fn planned(plan: Plan, k: (Seq<ItemV>, Seq<ImportV>)) -> bool {
    &&& plan.follows(k.0)
    &&& plan.full == (k.0.len() == 0 || repeats(k.0) || repeats(items_view(plan.items@)) || k.1
        != imports_view(plan.imports@))
}

/// A check with the imports of a document fixed.
pub open spec fn under_imports(
    check: spec_fn(
        Seq<ImportV>,
        (ItemKind, Seq<char>, Seq<char>),
        Set<(ItemKind, Seq<char>, Seq<char>)>,
    ) -> Seq<(Seq<char>, int, int)>,
    imports: Seq<ImportV>,
) -> spec_fn(
        (ItemKind, Seq<char>, Seq<char>),
        Set<(ItemKind, Seq<char>, Seq<char>)>,
    ) -> Seq<(Seq<char>, int, int)> {
    |x: (ItemKind, Seq<char>, Seq<char>), seen: Set<(ItemKind, Seq<char>, Seq<char>)>|
        check(imports, x, seen)
}

/// Whether each of some versions was planned from what was known before it and checked by
/// `check`: any check that tells what is wrong with a definition from the document's
/// imports, the definition and the ones it sees.
pub open spec fn well_run(
    vs: Seq<Version>,
    check: spec_fn(
        Seq<ImportV>,
        (ItemKind, Seq<char>, Seq<char>),
        Set<(ItemKind, Seq<char>, Seq<char>)>,
    ) -> Seq<(Seq<char>, int, int)>,
) -> bool
    decreases vs.len(),
{
    vs.len() == 0 || (well_run(vs.drop_last(), check) && match vs.last() {
        Version::Failed => true,
        Version::Parsed { plan, run, .. } => {
            let c = under_imports(check, imports_view(plan.imports@));
            &&& planned(plan, known(vs.drop_last()))
            &&& is_settable(items_view(plan.items@), c)
            &&& answers(plan, run, c)
        },
    })
}

/// After any versions of a document, every item holds what a check from scratch finds.
pub proof fn history_is_checked(
    vs: Seq<Version>,
    check: spec_fn(
        Seq<ImportV>,
        (ItemKind, Seq<char>, Seq<char>),
        Set<(ItemKind, Seq<char>, Seq<char>)>,
    ) -> Seq<(Seq<char>, int, int)>,
)
    requires
        well_run(vs, check),
    ensures
        is_checked(known(vs).0, under_imports(check, known(vs).1)),
        is_settable(known(vs).0, under_imports(check, known(vs).1)),
    decreases vs.len(),
{
    if vs.len() > 0 {
        history_is_checked(vs.drop_last(), check);
        if let Version::Parsed { plan, run, .. } = vs.last() {
            step_matches_full(
                plan,
                known(vs.drop_last()).0,
                run,
                under_imports(check, imports_view(plan.imports@)),
            );
        }
    }
}

/// Incremental diagnostics are those of a check from scratch. Take any versions of a
/// document, the last of which parses, and the same last version met by a new analyzer.
/// If the two runs report the same outside of the document's items and in loading its
/// imports, then the diagnostics returned for it are the same, one for one.
pub proof fn incremental_matches_full(
    vs: Seq<Version>,
    fresh: Version,
    check: spec_fn(
        Seq<ImportV>,
        (ItemKind, Seq<char>, Seq<char>),
        Set<(ItemKind, Seq<char>, Seq<char>)>,
    ) -> Seq<(Seq<char>, int, int)>,
)
    requires
        vs.len() > 0,
        well_run(vs, check),
        well_run(seq![fresh], check),
        (vs.last(), fresh) matches (
            Version::Parsed { plan: p, run: s, load_errors: e, base: b, len: l },
            Version::Parsed { plan: q, run: t, load_errors: f, base: c, len: m },
        ) && items_view(p.items@) == items_view(q.items@) && imports_view(p.imports@)
            == imports_view(q.imports@) && bucket(s, items_view(p.items@), None) == bucket(
            t,
            items_view(q.items@),
            None,
        ) && e == f && b == c && l == m,
    ensures
        (vs.last(), fresh) matches (
            Version::Parsed { plan: p, run: s, load_errors: e, base: b, len: l },
            Version::Parsed { plan: q, run: t, load_errors: f, base: c, len: m },
        ) && reported(p, known(vs.drop_last()).0, s, e, b, l) == reported(
            q,
            Seq::empty(),
            t,
            f,
            c,
            m,
        ),
{
    let alone = seq![fresh];
    assert(alone.drop_last() =~= Seq::<Version>::empty());
    assert(alone.last() == fresh);
    history_is_checked(vs, check);
    history_is_checked(alone, check);
    let a = known(vs).0;
    let b = known(alone).0;
    let imports = known(vs).1;
    assert(known(alone).1 == imports);
    let c = under_imports(check, imports);
    assert(a.len() == b.len());
    assert forall|i: int| 0 <= i < a.len() implies #[trigger] a[i] == b[i] by {
        assert forall|k: int| 0 <= k < a.len() implies identity(#[trigger] a[k]) == identity(
            b[k],
        ) by {}
        visible_by_source(a, b, i);
        assert(a[i].diags == set_at(c(identity(a[i]), visible(a, i)), a[i].span.lo as int));
        assert(b[i].diags == set_at(c(identity(b[i]), visible(b, i)), b[i].span.lo as int));
    }
    assert(a =~= b);
}

} // verus!
