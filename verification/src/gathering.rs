//! What lowering gathers: every statement, function, member and import of the modules is
//! in the program once and in order, or reported.

use vstd::prelude::*;
use crate::annotate::{function_step, nominals_of, program_annotated, threaded, type_step};
use crate::ast::{MemberV, TopLevelV};
use crate::hir::{function_signature, FunInfoV, LoadedModuleV};
use crate::lower::{all_implemented, assembled, function_shared, implemented, imports_collected, item_collected, items_collected, lowered, members_of, module_collected, modules_collected, prim_symbol, symbol_for, top_stmts, CollectedV, LowerErrorV, TablesV};
use crate::span::Span;
use crate::table::{first_pos, first_pos_facts, has_key, keys_of, lookup, put, put_lookup};
use crate::typedecl::decls_resolved;

verus! {

// ---- statements ----

/// How many of some top-level items are statements.
pub open spec fn statements_in(items: Seq<TopLevelV>) -> nat
    decreases items.len(),
{
    if items.len() == 0 {
        0
    } else {
        statements_in(items.drop_first()) + (if items[0] is Stmt {
            1nat
        } else {
            0
        })
    }
}

/// The initializer of a module holds every top-level statement of it once and in source
/// order: as many statements as stand at the top level, and each of them behind those that
/// stand before it.
pub proof fn initializers_hold_every_statement(ms: Seq<LoadedModuleV>, k: int, i: int)
    requires
        0 <= k < ms.len(),
        0 <= i < ms[k].ast.items.len(),
    ensures
        lowered(ms).0.inits.len() == ms.len(),
        lowered(ms).0.inits[k].path == ms[k].path,
        lowered(ms).0.inits[k].stmts.len() == statements_in(ms[k].ast.items),
        ms[k].ast.items[i] matches TopLevelV::Stmt(s) ==> {
            let before = statements_in(ms[k].ast.items.take(i)) as int;
            &&& 0 <= before < lowered(ms).0.inits[k].stmts.len()
            &&& lowered(ms).0.inits[k].stmts[before] == s
        },
{
    inits_gathered(ms, ms);
    stmts_in_order(ms[k].ast.items, i);
    let c = modules_collected(ms, ms);
    assert(lowered(ms).0.inits == c.inits);
}

proof fn inits_gathered(all: Seq<LoadedModuleV>, ms: Seq<LoadedModuleV>)
    ensures
        modules_collected(all, ms).inits.len() == ms.len(),
        forall|k: int|
            0 <= k < ms.len() ==> (#[trigger] modules_collected(all, ms).inits[k]).path
                == ms[k].path && modules_collected(all, ms).inits[k].stmts == top_stmts(
                ms[k].ast.items,
            ),
    decreases ms.len(),
{
    if ms.len() > 0 {
        let rest = ms.drop_last();
        inits_gathered(all, rest);
        let c = imports_collected(modules_collected(all, rest), ms.last());
        items_leave_inits(c, all, ms.last().path, ms.last().ast.items);
        assert(c.inits == modules_collected(all, rest).inits);
    }
}

proof fn items_leave_inits(
    c: CollectedV,
    all: Seq<LoadedModuleV>,
    path: Seq<Seq<char>>,
    items: Seq<TopLevelV>,
)
    ensures
        items_collected(c, all, path, items).inits == c.inits,
    decreases items.len(),
{
    if items.len() > 0 {
        items_leave_inits(c, all, path, items.drop_last());
    }
}

proof fn statements_split(items: Seq<TopLevelV>)
    requires
        items.len() > 0,
    ensures
        statements_in(items) == statements_in(items.drop_last()) + (if items.last() is Stmt {
            1nat
        } else {
            0
        }),
    decreases items.len(),
{
    if items.len() > 1 {
        let rest = items.drop_first();
        statements_split(rest);
        assert(rest.drop_last() =~= items.drop_last().drop_first());
        assert(rest.last() == items.last());
        assert(items.drop_last()[0] == items[0]);
    } else {
        assert(items.drop_first() =~= Seq::empty());
        assert(items.drop_last() =~= Seq::empty());
    }
}

proof fn stmts_in_order(items: Seq<TopLevelV>, i: int)
    requires
        0 <= i < items.len(),
    ensures
        top_stmts(items).len() == statements_in(items),
        items[i] matches TopLevelV::Stmt(s) ==> statements_in(items.take(i)) < top_stmts(items).len()
            && top_stmts(items)[statements_in(items.take(i)) as int] == s,
    decreases items.len(),
{
    let rest = items.drop_last();
    statements_split(items);
    stmts_counted(rest);
    if i < rest.len() {
        stmts_in_order(rest, i);
        assert(rest.take(i) =~= items.take(i));
        assert(rest[i] == items[i]);
    } else {
        assert(items.take(i) =~= rest);
    }
}

proof fn stmts_counted(items: Seq<TopLevelV>)
    ensures
        top_stmts(items).len() == statements_in(items),
    decreases items.len(),
{
    if items.len() > 0 {
        statements_split(items);
        stmts_counted(items.drop_last());
    }
}

// ---- functions ----

/// The symbol that a top-level item claims as a function, if it is one without a receiver.
pub open spec fn claimed(all: Seq<LoadedModuleV>, m: LoadedModuleV, i: int) -> Option<Seq<char>> {
    match m.ast.items[i] {
        TopLevelV::Fun(f) => if f.recv is None {
            Some(symbol_for(function_shared(all, f.name), f.name, m.path))
        } else {
            None
        },
        _ => None,
    }
}

/// Whether a function before item `i` of module `k` claims the same symbol.
pub open spec fn claimed_before(ms: Seq<LoadedModuleV>, k: int, i: int) -> bool {
    exists|l: int, j: int|
        0 <= l <= k && 0 <= j < ms[l].ast.items.len() && (l < k || j < i) && #[trigger] claimed(
            ms,
            ms[l],
            j,
        ) == claimed(ms, ms[k], i)
}

/// Whether no method of a primitive type is stored under a symbol.
pub open spec fn not_primitive(symbol: Seq<char>) -> bool {
    forall|class: Seq<char>, method: Seq<char>| symbol != #[trigger] prim_symbol(class, method)
}

/// The error that a function is declared twice.
pub open spec fn twice(name: Seq<char>, span: Span) -> LowerErrorV {
    LowerErrorV { message: "duplicate function `"@ + name + "`"@, span }
}

/// Every function is in the program as it was declared, in its module, if it is the first
/// of its symbol; a later one is reported.
pub proof fn functions_are_kept_or_reported(ms: Seq<LoadedModuleV>, k: int, i: int)
    requires
        0 <= k < ms.len(),
        0 <= i < ms[k].ast.items.len(),
        claimed(ms, ms[k], i) is Some,
        not_primitive(claimed(ms, ms[k], i)->0),
    ensures
        ms[k].ast.items[i] matches TopLevelV::Fun(f) && if claimed_before(ms, k, i) {
            lowered(ms).2.contains(twice(f.name, f.span))
        } else {
            lookup(lowered(ms).0.functions, claimed(ms, ms[k], i)->0) matches Some(g) && g.decl == f
                && g.module == ms[k].path && g.signature.name == f.name
        },
{
    let symbol = claimed(ms, ms[k], i)->0;
    functions_gathered(ms, ms, k, i);
    lowering_keeps(ms, symbol);
}

/// What is done to the collected functions and errors.
proof fn lowering_keeps(ms: Seq<LoadedModuleV>, symbol: Seq<char>)
    requires
        not_primitive(symbol),
    ensures
        ({
            let c = modules_collected(ms, ms);
            let all = lowered(ms).0.functions;
            &&& forall|e: LowerErrorV| #[trigger] c.errors.contains(e) ==> lowered(ms).2.contains(e)
            &&& lookup(c.functions, symbol) matches Some(g) ==> (lookup(all, symbol) matches Some(h)
                && h.decl == g.decl && h.module == g.module && h.signature.name
                == g.signature.name)
        }),
{
    let c = modules_collected(ms, ms);
    let s = TablesV {
        types: c.types,
        functions: c.functions,
        primitive_methods: Seq::empty(),
        errors: c.errors,
    };
    implementing_keeps(s, c.impls, symbol);
    let t = all_implemented(s, c.impls);
    let (p, errors) = assembled(c);
    assert(p.functions == t.functions && errors == t.errors);
    let more = program_annotated(p, c.aliases).2;
    assert(lowered(ms).2 == errors + more);
    assert forall|e: LowerErrorV| #[trigger] c.errors.contains(e) implies lowered(ms).2.contains(
        e,
    ) by {
        assert(s.errors.contains(e));
        let n = choose|n: int| 0 <= n < errors.len() && errors[n] == e;
        assert((errors + more)[n] == e);
    }
    annotated_lookup(p, c.aliases, symbol);
}

proof fn annotated_lookup(
    p: crate::hir::ProgramV,
    aliases: Seq<crate::typedecl::AliasDeclV>,
    symbol: Seq<char>,
)
    ensures
        ({
            let all = program_annotated(p, aliases).0.functions;
            lookup(p.functions, symbol) matches Some(g) ==> (lookup(all, symbol) matches Some(h)
                && h.decl == g.decl && h.module == g.module && h.signature.name
                == g.signature.name)
        }),
{
    let nominals = nominals_of(p.types);
    let d = decls_resolved(p, nominals, aliases, 0);
    let n1 = threaded(d.types, type_step(nominals, p.import_origins), d.next).1;
    annotating_keeps(p.functions, nominals, p.import_origins, n1);
    let fs = p.functions;
    let all = program_annotated(p, aliases).0.functions;
    assert(all == threaded(fs, function_step(nominals, p.import_origins), n1).0);
    first_pos_facts(keys_of(fs), symbol);
    let q = first_pos(keys_of(fs), symbol);
    if q < fs.len() {
        assert(all[q].1.decl == fs[q].1.decl);
    }
}

proof fn annotating_keeps(
    fs: Seq<(Seq<char>, FunInfoV)>,
    nominals: Seq<(Seq<char>, crate::types::NominalInfo)>,
    origins: Seq<(Seq<Seq<char>>, Seq<(Seq<char>, Seq<Seq<char>>)>)>,
    next: nat,
)
    ensures
        ({
            let all = threaded(fs, function_step(nominals, origins), next).0;
            &&& all.len() == fs.len()
            &&& keys_of(all) == keys_of(fs)
            &&& forall|i: int|
                0 <= i < fs.len() ==> (#[trigger] all[i]).1.decl == fs[i].1.decl && all[i].1.module
                    == fs[i].1.module && all[i].1.signature.name == fs[i].1.signature.name
        }),
    decreases fs.len(),
{
    let f = function_step(nominals, origins);
    let all = threaded(fs, f, next).0;
    if fs.len() > 0 {
        let rest = fs.drop_last();
        annotating_keeps(rest, nominals, origins, next);
        let (bs, n) = threaded(rest, f, next);
        let (b, _) = f(fs.last(), n);
        assert(all == bs.push(b));
        assert(keys_of(all) =~= keys_of(bs).push(b.0));
        assert(keys_of(fs) =~= keys_of(rest).push(fs.last().0));
        assert forall|i: int| 0 <= i < fs.len() implies (#[trigger] all[i]).1.decl == fs[i].1.decl
            && all[i].1.module == fs[i].1.module && all[i].1.signature.name
            == fs[i].1.signature.name by {
            if i < rest.len() {
                assert(all[i] == bs[i]);
                assert(rest[i] == fs[i]);
            }
        }
    } else {
        assert(keys_of(all) =~= keys_of(fs));
    }
}

proof fn implementing_keeps(
    s: TablesV,
    impls: Seq<(crate::ast::FunDeclV, Seq<Seq<char>>)>,
    symbol: Seq<char>,
)
    requires
        not_primitive(symbol),
    ensures
        lookup(all_implemented(s, impls).functions, symbol) == lookup(s.functions, symbol),
        forall|e: LowerErrorV| #[trigger] s.errors.contains(e) ==> all_implemented(
            s,
            impls,
        ).errors.contains(e),
    decreases impls.len(),
{
    if impls.len() > 0 {
        implementing_keeps(s, impls.drop_last(), symbol);
        let t = all_implemented(s, impls.drop_last());
        let (f, module) = impls.last();
        implementing_one_keeps(t, f, module, symbol);
    }
}

proof fn implementing_one_keeps(
    t: TablesV,
    f: crate::ast::FunDeclV,
    module: Seq<Seq<char>>,
    symbol: Seq<char>,
)
    requires
        not_primitive(symbol),
    ensures
        lookup(implemented(t, f, module).functions, symbol) == lookup(t.functions, symbol),
        forall|e: LowerErrorV| #[trigger] t.errors.contains(e) ==> implemented(
            t,
            f,
            module,
        ).errors.contains(e),
{
    let u = implemented(t, f, module);
    if u.functions != t.functions {
        let recv = f.recv->0;
        let word = crate::lower::receiver_word(recv)->Ok_0;
        let class = crate::types::class_of_name(word.0, word.1)->0;
        let decl = crate::ast::FunDeclV {
            params: crate::lower::self_annotated(f.params, recv),
            ..f
        };
        let sym = prim_symbol(class, f.name);
        assert(symbol != sym);
        put_lookup(
            t.functions,
            sym,
            FunInfoV { signature: function_signature(decl), decl, module, symbol: sym },
            symbol,
        );
    }
    assert forall|e: LowerErrorV| #[trigger] t.errors.contains(e) implies u.errors.contains(e) by {
        let n = choose|n: int| 0 <= n < t.errors.len() && t.errors[n] == e;
        assert(u.errors[n] == e);
    }
}

/// Whether a symbol is claimed by one of the first items of a module.
spec fn claimed_in(all: Seq<LoadedModuleV>, m: LoadedModuleV, n: int, symbol: Seq<char>) -> bool {
    exists|j: int| 0 <= j < n && #[trigger] claimed(all, m, j) == Some(symbol)
}

proof fn added_key<V>(s: Seq<(Seq<char>, V)>, k: Seq<char>, v: V, k2: Seq<char>)
    requires
        !has_key(s, k),
    ensures
        lookup(s.push((k, v)), k2) == (if k2 == k {
            Some(v)
        } else {
            lookup(s, k2)
        }),
{
    first_pos_facts(keys_of(s), k);
    assert(put(s, k, v) == s.push((k, v)));
    put_lookup(s, k, v, k2);
}

/// What the first `n` items of a module do to the functions.
proof fn items_claim(
    c: CollectedV,
    all: Seq<LoadedModuleV>,
    m: LoadedModuleV,
    n: int,
    symbol: Seq<char>,
)
    requires
        0 <= n <= m.ast.items.len(),
    ensures
        ({
            let d = items_collected(c, all, m.path, m.ast.items.take(n));
            &&& has_key(d.functions, symbol) == (has_key(c.functions, symbol) || claimed_in(
                all,
                m,
                n,
                symbol,
            ))
            &&& has_key(c.functions, symbol) ==> lookup(d.functions, symbol) == lookup(
                c.functions,
                symbol,
            )
            &&& forall|e: LowerErrorV| #[trigger] c.errors.contains(e) ==> d.errors.contains(e)
        }),
    decreases n,
{
    let items = m.ast.items;
    let d = items_collected(c, all, m.path, items.take(n));
    if n > 0 {
        let rest = items.take(n - 1);
        assert(items.take(n).drop_last() =~= rest);
        assert(items.take(n).last() == items[n - 1]);
        items_claim(c, all, m, n - 1, symbol);
        let b = items_collected(c, all, m.path, rest);
        item_claims(b, all, m, n - 1, symbol);
        if claimed_in(all, m, n - 1, symbol) {
            let j = choose|j: int| 0 <= j < n - 1 && #[trigger] claimed(all, m, j) == Some(symbol);
            assert(claimed(all, m, j) == Some(symbol));
        }
        if claimed(all, m, n - 1) == Some(symbol) {
            assert(claimed_in(all, m, n, symbol));
        }
        if claimed_in(all, m, n, symbol) && !claimed_in(all, m, n - 1, symbol) {
            let j = choose|j: int| 0 <= j < n && #[trigger] claimed(all, m, j) == Some(symbol);
            assert(j == n - 1);
        }
    } else {
        assert(items.take(0) =~= Seq::empty());
    }
}

proof fn item_claims(
    b: CollectedV,
    all: Seq<LoadedModuleV>,
    m: LoadedModuleV,
    i: int,
    symbol: Seq<char>,
)
    requires
        0 <= i < m.ast.items.len(),
    ensures
        ({
            let d = item_collected(b, all, m.path, m.ast.items[i]);
            &&& has_key(d.functions, symbol) == (has_key(b.functions, symbol) || claimed(all, m, i)
                == Some(symbol))
            &&& has_key(b.functions, symbol) ==> lookup(d.functions, symbol) == lookup(
                b.functions,
                symbol,
            )
            &&& forall|e: LowerErrorV| #[trigger] b.errors.contains(e) ==> d.errors.contains(e)
            &&& claimed(all, m, i) == Some(symbol) ==> (m.ast.items[i] matches TopLevelV::Fun(f)
                && if has_key(b.functions, symbol) {
                d.errors.contains(twice(f.name, f.span))
            } else {
                lookup(d.functions, symbol) matches Some(g) && g.decl == f && g.module == m.path
                    && g.signature.name == f.name
            })
        }),
{
    let d = item_collected(b, all, m.path, m.ast.items[i]);
    match m.ast.items[i] {
        TopLevelV::Fun(f) => {
            if f.recv is None {
                let mine = symbol_for(function_shared(all, f.name), f.name, m.path);
                if !has_key(b.functions, mine) {
                    let info = FunInfoV {
                        signature: function_signature(f),
                        decl: f,
                        module: m.path,
                        symbol: mine,
                    };
                    added_key(b.functions, mine, info, symbol);
                } else {
                    assert(d.errors.last() == twice(f.name, f.span));
                    assert(d.errors[d.errors.len() - 1] == twice(f.name, f.span));
                }
            }
        },
        _ => {},
    }
    assert forall|e: LowerErrorV| #[trigger] b.errors.contains(e) implies d.errors.contains(e) by {
        let n = choose|n: int| 0 <= n < b.errors.len() && b.errors[n] == e;
        assert(d.errors[n] == e);
    }
}

proof fn functions_gathered(all: Seq<LoadedModuleV>, ms: Seq<LoadedModuleV>, k: int, i: int)
    requires
        0 <= k < ms.len(),
        ms.len() <= all.len(),
        forall|j: int| 0 <= j < ms.len() ==> #[trigger] ms[j] == all[j],
        0 <= i < ms[k].ast.items.len(),
        claimed(all, ms[k], i) is Some,
    ensures
        ({
            let c = modules_collected(all, ms);
            let symbol = claimed(all, ms[k], i)->0;
            let f = ms[k].ast.items[i]->Fun_0;
            if claimed_before(all, k, i) {
                c.errors.contains(twice(f.name, f.span))
            } else {
                lookup(c.functions, symbol) matches Some(g) && g.decl == f && g.module
                    == ms[k].path && g.signature.name == f.name
            }
        }),
    decreases ms.len(),
{
    let rest = ms.drop_last();
    let m = ms.last();
    let b = imports_collected(modules_collected(all, rest), m);
    let symbol = claimed(all, ms[k], i)->0;
    let f = ms[k].ast.items[i]->Fun_0;
    let n = m.ast.items.len() as int;
    let c = modules_collected(all, ms);
    assert(m.ast.items.take(n) =~= m.ast.items);
    assert forall|j: int| 0 <= j < rest.len() implies #[trigger] rest[j] == all[j] by {
        assert(ms[j] == all[j]);
    }
    assert(ms[ms.len() - 1] == all[ms.len() - 1]);
    let c1 = items_collected(b, all, m.path, m.ast.items);
    assert(c == module_collected(modules_collected(all, rest), all, m));
    assert(c.functions == c1.functions && c.errors == c1.errors);
    assert(b.functions == modules_collected(all, rest).functions);
    assert(b.errors == modules_collected(all, rest).errors);
    if k < rest.len() {
        assert(rest[k] == ms[k]);
        functions_gathered(all, rest, k, i);
        items_claim(b, all, m, n, symbol);
    } else {
        assert(ms[k] == m);
        let items = m.ast.items;
        keys_are_claimed(all, rest, symbol);
        items_claim(b, all, m, i, symbol);
        let d = items_collected(b, all, m.path, items.take(i));
        item_claims(d, all, m, i, symbol);
        assert(items.take(i + 1).drop_last() =~= items.take(i));
        assert(items.take(i + 1).last() == items[i]);
        let e = items_collected(b, all, m.path, items.take(i + 1));
        rest_claims(b, all, m, i + 1, symbol);
        assert(has_key(d.functions, symbol) == claimed_before(all, k, i)) by {
            if has_key(d.functions, symbol) {
                if claimed_in(all, m, i, symbol) {
                    let j = choose|j: int|
                        0 <= j < i && #[trigger] claimed(all, m, j) == Some(symbol);
                    assert(claimed(all, all[k], j) == claimed(all, all[k], i));
                } else {
                    let (l, j) = choose|l: int, j: int|
                        0 <= l < rest.len() && 0 <= j < rest[l].ast.items.len()
                            && #[trigger] claimed(all, rest[l], j) == Some(symbol);
                    assert(rest[l] == all[l]);
                    assert(claimed(all, all[l], j) == claimed(all, all[k], i));
                }
            }
            if claimed_before(all, k, i) {
                let (l, j) = choose|l: int, j: int|
                    0 <= l <= k && 0 <= j < all[l].ast.items.len() && (l < k || j < i)
                        && #[trigger] claimed(all, all[l], j) == claimed(all, all[k], i);
                if l < k {
                    assert(rest[l] == all[l]);
                    assert(claimed(all, rest[l], j) == Some(symbol));
                } else {
                    assert(claimed(all, m, j) == Some(symbol));
                }
            }
        }
    }
}

/// What comes after an item leaves the functions that are there.
proof fn rest_claims(
    b: CollectedV,
    all: Seq<LoadedModuleV>,
    m: LoadedModuleV,
    i: int,
    symbol: Seq<char>,
)
    requires
        0 <= i <= m.ast.items.len(),
    ensures
        ({
            let e = items_collected(b, all, m.path, m.ast.items.take(i));
            let d = items_collected(b, all, m.path, m.ast.items);
            &&& has_key(e.functions, symbol) ==> lookup(d.functions, symbol) == lookup(
                e.functions,
                symbol,
            )
            &&& forall|x: LowerErrorV| #[trigger] e.errors.contains(x) ==> d.errors.contains(x)
        }),
    decreases m.ast.items.len() - i,
{
    let items = m.ast.items;
    if i < items.len() {
        let e = items_collected(b, all, m.path, items.take(i));
        item_claims(e, all, m, i, symbol);
        assert(items.take(i + 1).drop_last() =~= items.take(i));
        assert(items.take(i + 1).last() == items[i]);
        rest_claims(b, all, m, i + 1, symbol);
    } else {
        assert(items.take(i) =~= items);
    }
}

/// The functions that are there were claimed.
proof fn keys_are_claimed(all: Seq<LoadedModuleV>, ms: Seq<LoadedModuleV>, symbol: Seq<char>)
    ensures
        has_key(modules_collected(all, ms).functions, symbol) == (exists|l: int, j: int|
            0 <= l < ms.len() && 0 <= j < ms[l].ast.items.len() && #[trigger] claimed(
                all,
                ms[l],
                j,
            ) == Some(symbol)),
    decreases ms.len(),
{
    if ms.len() > 0 {
        let rest = ms.drop_last();
        let m = ms.last();
        let b = imports_collected(modules_collected(all, rest), m);
        let n = m.ast.items.len() as int;
        assert(m.ast.items.take(n) =~= m.ast.items);
        keys_are_claimed(all, rest, symbol);
        items_claim(b, all, m, n, symbol);
        if has_key(b.functions, symbol) {
            let (l, j) = choose|l: int, j: int|
                0 <= l < rest.len() && 0 <= j < rest[l].ast.items.len() && #[trigger] claimed(
                    all,
                    rest[l],
                    j,
                ) == Some(symbol);
            assert(claimed(all, ms[l], j) == Some(symbol));
        }
        if claimed_in(all, m, n, symbol) {
            let j = choose|j: int| 0 <= j < n && #[trigger] claimed(all, m, j) == Some(symbol);
            assert(claimed(all, ms[ms.len() - 1], j) == Some(symbol));
        }
        if exists|l: int, j: int|
            0 <= l < ms.len() && 0 <= j < ms[l].ast.items.len() && #[trigger] claimed(
                all,
                ms[l],
                j,
            ) == Some(symbol) {
            let (l, j) = choose|l: int, j: int|
                0 <= l < ms.len() && 0 <= j < ms[l].ast.items.len() && #[trigger] claimed(
                    all,
                    ms[l],
                    j,
                ) == Some(symbol);
            if l < rest.len() {
                assert(claimed(all, rest[l], j) == Some(symbol));
            } else {
                assert(claimed(all, m, j) == Some(symbol));
            }
        }
    } else {
        let none = modules_collected(all, ms).functions;
        first_pos_facts(keys_of(none), symbol);
    }
}

// ---- members ----

/// Whether an earlier member of the same sort has the name of member `i`.
pub open spec fn repeated(ms: Seq<MemberV>, i: int) -> bool {
    exists|j: int|
        0 <= j < i && (match (#[trigger] ms[j], ms[i]) {
            (MemberV::Field(a), MemberV::Field(b)) => a.name == b.name,
            (MemberV::Method(a), MemberV::Method(b)) => a.name == b.name,
            _ => false,
        })
}

/// Every field, slot and method of a type is there as it was declared, if it is the first
/// of its name; a later one is reported and left out.
pub proof fn members_are_kept_or_reported(ms: Seq<MemberV>, owner: Seq<char>, i: int)
    requires
        0 <= i < ms.len(),
    ensures
        match ms[i] {
            MemberV::Field(f) => if repeated(ms, i) {
                members_of(ms, owner).errors.contains(
                    LowerErrorV {
                        message: "duplicate field `"@ + owner + "."@ + f.name + "`"@,
                        span: f.span,
                    },
                )
            } else if f.ty matches Some(t) && t is TypeSlot {
                members_of(ms, owner).slots.contains(f.name)
            } else {
                exists|j: int|
                    0 <= j < members_of(ms, owner).fields.len() && (#[trigger] members_of(
                        ms,
                        owner,
                    ).fields[j]).name == f.name && members_of(ms, owner).fields[j].ty == f.ty
            },
            MemberV::Method(m) => if repeated(ms, i) {
                members_of(ms, owner).errors.contains(
                    LowerErrorV {
                        message: "duplicate method `"@ + owner + "."@ + m.name + "`"@,
                        span: m.span,
                    },
                )
            } else {
                exists|j: int|
                    0 <= j < members_of(ms, owner).methods.len() && (#[trigger] members_of(
                        ms,
                        owner,
                    ).methods[j]).0 == m.name && members_of(ms, owner).methods[j].1.decl == m
            },
        },
    decreases ms.len(),
{
    let rest = ms.drop_last();
    let s = members_of(ms, owner);
    let r = members_of(rest, owner);
    if i < rest.len() {
        members_are_kept_or_reported(rest, owner, i);
        assert(rest[i] == ms[i]);
        assert(repeated(rest, i) == repeated(ms, i)) by {
            if repeated(ms, i) {
                let j = choose|j: int|
                    0 <= j < i && (match (#[trigger] ms[j], ms[i]) {
                        (MemberV::Field(a), MemberV::Field(b)) => a.name == b.name,
                        (MemberV::Method(a), MemberV::Method(b)) => a.name == b.name,
                        _ => false,
                    });
                assert(rest[j] == ms[j]);
            }
            if repeated(rest, i) {
                let j = choose|j: int|
                    0 <= j < i && (match (#[trigger] rest[j], rest[i]) {
                        (MemberV::Field(a), MemberV::Field(b)) => a.name == b.name,
                        (MemberV::Method(a), MemberV::Method(b)) => a.name == b.name,
                        _ => false,
                    });
                assert(rest[j] == ms[j]);
            }
        }
        assert forall|e: LowerErrorV| #[trigger] r.errors.contains(e) implies s.errors.contains(
            e,
        ) by {
            let n = choose|n: int| 0 <= n < r.errors.len() && r.errors[n] == e;
            assert(s.errors[n] == e);
        }
        assert forall|x: Seq<char>| #[trigger] r.slots.contains(x) implies s.slots.contains(x) by {
            let n = choose|n: int| 0 <= n < r.slots.len() && r.slots[n] == x;
            assert(s.slots[n] == x);
        }
        assert forall|j: int| 0 <= j < r.fields.len() implies #[trigger] s.fields[j]
            == r.fields[j] by {}
        assert forall|j: int| 0 <= j < r.methods.len() implies #[trigger] s.methods[j]
            == r.methods[j] by {}
        match ms[i] {
            MemberV::Field(f) => {
                if !repeated(ms, i) && !(f.ty matches Some(t) && t is TypeSlot) {
                    let j = choose|j: int|
                        0 <= j < r.fields.len() && (#[trigger] r.fields[j]).name == f.name
                            && r.fields[j].ty == f.ty;
                    assert(s.fields[j] == r.fields[j]);
                }
            },
            MemberV::Method(m) => {
                if !repeated(ms, i) {
                    let j = choose|j: int|
                        0 <= j < r.methods.len() && (#[trigger] r.methods[j]).0 == m.name
                            && r.methods[j].1.decl == m;
                    assert(s.methods[j] == r.methods[j]);
                }
            },
        }
    } else {
        match ms[i] {
            MemberV::Field(f) => {
                assert(crate::lower::declares_field(rest, f.name) == repeated(ms, i)) by {
                    if repeated(ms, i) {
                        let j = choose|j: int|
                            0 <= j < i && (match (#[trigger] ms[j], ms[i]) {
                                (MemberV::Field(a), MemberV::Field(b)) => a.name == b.name,
                                (MemberV::Method(a), MemberV::Method(b)) => a.name == b.name,
                                _ => false,
                            });
                        assert(rest[j] == ms[j]);
                    }
                    if crate::lower::declares_field(rest, f.name) {
                        let j = choose|j: int|
                            0 <= j < rest.len() && (#[trigger] rest[j] matches MemberV::Field(g)
                                && g.name == f.name);
                        assert(rest[j] == ms[j]);
                    }
                }
                if repeated(ms, i) {
                    assert(s.errors[s.errors.len() - 1] == s.errors.last());
                } else if f.ty matches Some(t) && t is TypeSlot {
                    assert(s.slots[s.slots.len() - 1] == f.name);
                } else {
                    assert(s.fields[s.fields.len() - 1].name == f.name);
                }
            },
            MemberV::Method(m) => {
                assert(crate::lower::declares_method(rest, m.name) == repeated(ms, i)) by {
                    if repeated(ms, i) {
                        let j = choose|j: int|
                            0 <= j < i && (match (#[trigger] ms[j], ms[i]) {
                                (MemberV::Field(a), MemberV::Field(b)) => a.name == b.name,
                                (MemberV::Method(a), MemberV::Method(b)) => a.name == b.name,
                                _ => false,
                            });
                        assert(rest[j] == ms[j]);
                    }
                    if crate::lower::declares_method(rest, m.name) {
                        let j = choose|j: int|
                            0 <= j < rest.len() && (#[trigger] rest[j] matches MemberV::Method(g)
                                && g.name == m.name);
                        assert(rest[j] == ms[j]);
                    }
                }
                if repeated(ms, i) {
                    assert(s.errors[s.errors.len() - 1] == s.errors.last());
                } else {
                    assert(s.methods[s.methods.len() - 1].0 == m.name);
                }
            },
        }
    }
}

} // verus!
