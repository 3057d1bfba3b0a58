//! Where the names of a module come from, and where its methods go.

use vstd::prelude::*;
use crate::ast::{FunDeclV, ImportNameV, ImportV, MethodV, TopLevelV, VariantV};
use crate::hir::{method_signature, qualified, resolved_pos, type_ids, type_with_id, variant_named, variant_names, LoadedModuleV, MethodInfoV, TypeInfoV, TypeKindV, VariantInfoV};
use crate::layout::payload_type;
use crate::lower::{assembled, entry_of, implemented, imported_names, imports_aliased, imports_collected, imports_originate, imports_renamed, items_collected, local_names, lowered, members_of, method_added, modules_collected, names_originate, names_renamed, prim_symbol, receiver_word, result_info, type_homes, variants_of, CollectedV, LowerErrorV, TablesV};
use crate::table::{first_pos, first_pos_facts, first_pos_unique, has_key, keys_of, lookup, put, put_lookup, put_new};
use crate::types::{class_of_name, result_payloads_of_result, result_view, TypeV};

verus! {

// ---- imports ----

proof fn new_lookup<K, V>(s: Seq<(K, V)>, k: K, v: V, k2: K)
    ensures
        lookup(put_new(s, k, v), k2) == (match lookup(s, k2) {
            Some(old_one) => Some(old_one),
            None => if k2 == k {
                Some(v)
            } else {
                None
            },
        }),
{
    put_lookup(s, k, v, k2);
    first_pos_facts(keys_of(s), k);
    if !has_key(s, k) {
        assert(put_new(s, k, v) == put(s, k, v));
    }
}

/// Whether an import brings in a name.
pub open spec fn brings(imp: ImportV, n: Seq<char>) -> bool {
    exists|j: int| 0 <= j < imp.names.len() && (#[trigger] imp.names[j]).local == n
}

proof fn names_from(
    origins: Seq<(Seq<char>, Seq<Seq<char>>)>,
    names: Seq<ImportNameV>,
    path: Seq<Seq<char>>,
    n: Seq<char>,
)
    ensures
        lookup(names_originate(origins, names, path), n) == (match lookup(origins, n) {
            Some(o) => Some(o),
            None => if exists|j: int| 0 <= j < names.len() && (#[trigger] names[j]).local == n {
                Some(path)
            } else {
                None
            },
        }),
    decreases names.len(),
{
    if names.len() > 0 {
        let front = names.drop_last();
        names_from(origins, front, path, n);
        new_lookup(names_originate(origins, front, path), names.last().local, path, n);
        assert(names[names.len() - 1] == names.last());
        if exists|j: int| 0 <= j < front.len() && (#[trigger] front[j]).local == n {
            let j = choose|j: int| 0 <= j < front.len() && (#[trigger] front[j]).local == n;
            assert(names[j] == front[j]);
        }
        if exists|j: int| 0 <= j < names.len() && (#[trigger] names[j]).local == n {
            let j = choose|j: int| 0 <= j < names.len() && (#[trigger] names[j]).local == n;
            if j < front.len() {
                assert(front[j] == names[j]);
            }
        }
    }
}

/// A name comes from the module of the first import that brings it in, unless it had an
/// origin before.
pub proof fn first_imports_win(
    origins: Seq<(Seq<char>, Seq<Seq<char>>)>,
    imports: Seq<ImportV>,
    n: Seq<char>,
)
    ensures
        lookup(origins, n) is Some ==> lookup(imports_originate(origins, imports), n) == lookup(
            origins,
            n,
        ),
        lookup(origins, n) is None ==> (match lookup(imports_originate(origins, imports), n) {
            Some(o) => exists|i: int|
                0 <= i < imports.len() && brings(#[trigger] imports[i], n) && imports[i].path == o
                    && forall|j: int| 0 <= j < i ==> !brings(#[trigger] imports[j], n),
            None => forall|j: int| 0 <= j < imports.len() ==> !brings(#[trigger] imports[j], n),
        }),
    decreases imports.len(),
{
    if imports.len() > 0 {
        let front = imports.drop_last();
        let last = imports.last();
        first_imports_win(origins, front, n);
        names_from(imports_originate(origins, front), last.names, last.path, n);
        assert(imports[imports.len() - 1] == last);
        assert forall|j: int| 0 <= j < front.len() implies imports[j] == #[trigger] front[j] by {}
        if lookup(origins, n) is None {
            match lookup(imports_originate(origins, front), n) {
                Some(o) => {
                    let i = choose|i: int|
                        0 <= i < front.len() && brings(#[trigger] front[i], n) && front[i].path == o
                            && forall|j: int| 0 <= j < i ==> !brings(#[trigger] front[j], n);
                    assert(brings(imports[i], n));
                    assert forall|j: int| 0 <= j < i implies !brings(#[trigger] imports[j], n) by {
                        assert(!brings(front[j], n));
                    }
                },
                None => {
                    assert forall|j: int| 0 <= j < front.len() implies !brings(
                        #[trigger] imports[j],
                        n,
                    ) by {
                        assert(!brings(front[j], n));
                    }
                },
            }
        }
    }
}

/// The names that imports bring into scope are exactly those that some import brings in.
pub proof fn imported_names_are_in_scope(imports: Seq<ImportV>, n: Seq<char>)
    ensures
        imported_names(imports).contains(n) <==> exists|i: int|
            0 <= i < imports.len() && brings(#[trigger] imports[i], n),
    decreases imports.len(),
{
    if imports.len() > 0 {
        let front = imports.drop_last();
        let last = imports.last();
        imported_names_are_in_scope(front, n);
        let a = imported_names(front);
        let b = local_names(last.names);
        let all = a + b;
        assert(imports[imports.len() - 1] == last);
        assert(b.contains(n) == brings(last, n)) by {
            if b.contains(n) {
                let j = choose|j: int| 0 <= j < b.len() && b[j] == n;
                assert(last.names[j].local == n);
            }
            if brings(last, n) {
                let j = choose|j: int| 0 <= j < last.names.len() && (#[trigger] last.names[j]).local == n;
                assert(b[j] == n);
            }
        }
        if a.contains(n) {
            let k = choose|k: int| 0 <= k < a.len() && a[k] == n;
            assert(all[k] == n);
            let i = choose|i: int| 0 <= i < front.len() && brings(#[trigger] front[i], n);
            assert(imports[i] == front[i]);
        }
        if b.contains(n) {
            let k = choose|k: int| 0 <= k < b.len() && b[k] == n;
            assert(all[a.len() + k] == n);
        }
        if all.contains(n) {
            let k = choose|k: int| 0 <= k < all.len() && all[k] == n;
            if k < a.len() {
                assert(a[k] == n);
            } else {
                assert(b[k - a.len()] == n);
            }
        }
        if exists|i: int| 0 <= i < imports.len() && brings(#[trigger] imports[i], n) {
            let i = choose|i: int| 0 <= i < imports.len() && brings(#[trigger] imports[i], n);
            if i < front.len() {
                assert(front[i] == imports[i]);
            }
        }
    }
}

/// What an import binds a name to, where that is another name.
pub open spec fn renames(x: ImportNameV, n: Seq<char>) -> bool {
    x.local == n && x.remote != n
}

/// A name stands for the first other name that an import binds it to, unless it stood for one
/// before.
pub proof fn first_renames_win(
    before: Seq<(Seq<char>, Seq<char>)>,
    names: Seq<ImportNameV>,
    n: Seq<char>,
)
    ensures
        lookup(before, n) is Some ==> lookup(names_renamed(before, names), n) == lookup(before, n),
        lookup(before, n) is None ==> (match lookup(names_renamed(before, names), n) {
            Some(r) => exists|i: int|
                0 <= i < names.len() && renames(#[trigger] names[i], n) && names[i].remote == r
                    && forall|j: int| 0 <= j < i ==> !renames(#[trigger] names[j], n),
            None => forall|j: int| 0 <= j < names.len() ==> !renames(#[trigger] names[j], n),
        }),
    decreases names.len(),
{
    if names.len() > 0 {
        let front = names.drop_last();
        let last = names.last();
        first_renames_win(before, front, n);
        new_lookup(names_renamed(before, front), last.local, last.remote, n);
        assert(names[names.len() - 1] == last);
        if lookup(before, n) is None {
            match lookup(names_renamed(before, front), n) {
                Some(r) => {
                    let i = choose|i: int|
                        0 <= i < front.len() && renames(#[trigger] front[i], n) && front[i].remote
                            == r && forall|j: int| 0 <= j < i ==> !renames(#[trigger] front[j], n);
                    assert(renames(names[i], n));
                    assert forall|j: int| 0 <= j < i implies !renames(#[trigger] names[j], n) by {
                        assert(!renames(front[j], n));
                    }
                },
                None => {
                    assert forall|j: int| 0 <= j < front.len() implies !renames(
                        #[trigger] names[j],
                        n,
                    ) by {
                        assert(!renames(front[j], n));
                    }
                },
            }
        }
    }
}

/// A later import does not change what a name stands for.
pub proof fn later_imports_do_not_rename(
    before: Seq<(Seq<char>, Seq<char>)>,
    a: Seq<ImportV>,
    b: Seq<ImportV>,
    n: Seq<char>,
)
    ensures
        imports_renamed(before, a + b) == imports_renamed(imports_renamed(before, a), b),
        lookup(imports_renamed(before, a), n) is Some ==> lookup(
            imports_renamed(before, a + b),
            n,
        ) == lookup(imports_renamed(before, a), n),
    decreases b.len(),
{
    if b.len() == 0 {
        assert(a + b =~= a);
    } else {
        later_imports_do_not_rename(before, a, b.drop_last(), n);
        assert((a + b).drop_last() =~= a + b.drop_last());
        assert((a + b).last() == b.last());
        first_renames_win(imports_renamed(before, a + b.drop_last()), b.last().names, n);
    }
}

/// The alias of a module stands for the module of the first import that gives it, unless it
/// stood for one before.
pub proof fn first_aliases_win(
    before: Seq<(Seq<char>, Seq<Seq<char>>)>,
    imports: Seq<ImportV>,
    n: Seq<char>,
)
    ensures
        lookup(before, n) is Some ==> lookup(imports_aliased(before, imports), n) == lookup(
            before,
            n,
        ),
        lookup(before, n) is None ==> (match lookup(imports_aliased(before, imports), n) {
            Some(o) => exists|i: int|
                0 <= i < imports.len() && (#[trigger] imports[i]).alias == Some(n)
                    && imports[i].path == o && forall|j: int|
                    0 <= j < i ==> (#[trigger] imports[j]).alias != Some(n),
            None => forall|j: int|
                0 <= j < imports.len() ==> (#[trigger] imports[j]).alias != Some(n),
        }),
    decreases imports.len(),
{
    if imports.len() > 0 {
        let front = imports.drop_last();
        let last = imports.last();
        first_aliases_win(before, front, n);
        assert(imports[imports.len() - 1] == last);
        if let Some(a) = last.alias {
            new_lookup(imports_aliased(before, front), a, last.path, n);
        }
        if lookup(before, n) is None {
            match lookup(imports_aliased(before, front), n) {
                Some(o) => {
                    let i = choose|i: int|
                        0 <= i < front.len() && (#[trigger] front[i]).alias == Some(n)
                            && front[i].path == o && forall|j: int|
                            0 <= j < i ==> (#[trigger] front[j]).alias != Some(n);
                    assert(imports[i].alias == Some(n));
                    assert forall|j: int| 0 <= j < i implies (#[trigger] imports[j]).alias != Some(
                        n,
                    ) by {
                        assert(front[j].alias != Some(n));
                    }
                },
                None => {
                    assert forall|j: int| 0 <= j < front.len() implies (
                    #[trigger] imports[j]).alias != Some(n) by {
                        assert(front[j].alias != Some(n));
                    }
                },
            }
        }
    }
}

proof fn items_leave_imports(
    c: CollectedV,
    all: Seq<LoadedModuleV>,
    path: Seq<Seq<char>>,
    items: Seq<TopLevelV>,
)
    ensures
        ({
            let d = items_collected(c, all, path, items);
            &&& d.module_imports == c.module_imports
            &&& d.import_origins == c.import_origins
            &&& d.import_renames == c.import_renames
            &&& d.module_aliases == c.module_aliases
        }),
    decreases items.len(),
{
    if items.len() > 0 {
        items_leave_imports(c, all, path, items.drop_last());
    }
}

/// Whether no module before the `k`-th has its path.
spec fn path_is_new(ms: Seq<LoadedModuleV>, path: Seq<Seq<char>>) -> bool {
    forall|j: int| 0 <= j < ms.len() ==> (#[trigger] ms[j]).path != path
}

proof fn imports_gathered(all: Seq<LoadedModuleV>, ms: Seq<LoadedModuleV>, path: Seq<Seq<char>>)
    ensures
        ({
            let c = modules_collected(all, ms);
            path_is_new(ms, path) ==> lookup(c.module_imports, path) is None && lookup(
                c.import_origins,
                path,
            ) is None && lookup(c.import_renames, path) is None && lookup(
                c.module_aliases,
                path,
            ) is None
        }),
        forall|k: int|
            0 <= k < ms.len() && (#[trigger] ms[k]).path == path && (forall|j: int|
                0 <= j < ms.len() && j != k ==> (#[trigger] ms[j]).path != path) ==> {
                let c = modules_collected(all, ms);
                let imports = ms[k].ast.imports;
                &&& lookup(c.module_imports, path) == Some(imported_names(imports))
                &&& lookup(c.import_origins, path) == Some(
                    imports_originate(Seq::empty(), imports),
                )
                &&& lookup(c.import_renames, path) == Some(imports_renamed(Seq::empty(), imports))
                &&& lookup(c.module_aliases, path) == Some(imports_aliased(Seq::empty(), imports))
            },
    decreases ms.len(),
{
    if ms.len() > 0 {
        let front = ms.drop_last();
        let m = ms.last();
        imports_gathered(all, front, path);
        let c = modules_collected(all, front);
        let d = imports_collected(c, m);
        items_leave_imports(d, all, m.path, m.ast.items);
        let imports = m.ast.imports;
        put_lookup(
            c.module_imports,
            m.path,
            entry_of(c.module_imports, m.path) + imported_names(imports),
            path,
        );
        put_lookup(
            c.import_origins,
            m.path,
            imports_originate(entry_of(c.import_origins, m.path), imports),
            path,
        );
        put_lookup(
            c.import_renames,
            m.path,
            imports_renamed(entry_of(c.import_renames, m.path), imports),
            path,
        );
        put_lookup(
            c.module_aliases,
            m.path,
            imports_aliased(entry_of(c.module_aliases, m.path), imports),
            path,
        );
        assert(ms[ms.len() - 1] == m);
        if path_is_new(ms, path) {
            assert forall|j: int| 0 <= j < front.len() implies (#[trigger] front[j]).path != path by {
                assert(ms[j] == front[j]);
            }
        }
        assert forall|k: int|
            0 <= k < ms.len() && (#[trigger] ms[k]).path == path && (forall|j: int|
                0 <= j < ms.len() && j != k ==> (#[trigger] ms[j]).path != path) implies {
            let c = modules_collected(all, ms);
            let imports = ms[k].ast.imports;
            &&& lookup(c.module_imports, path) == Some(imported_names(imports))
            &&& lookup(c.import_origins, path) == Some(imports_originate(Seq::empty(), imports))
            &&& lookup(c.import_renames, path) == Some(imports_renamed(Seq::empty(), imports))
            &&& lookup(c.module_aliases, path) == Some(imports_aliased(Seq::empty(), imports))
        } by {
            if k < front.len() {
                assert(front[k] == ms[k]);
                assert(ms[ms.len() - 1].path != path);
                assert forall|j: int| 0 <= j < front.len() && j != k implies (
                #[trigger] front[j]).path != path by {
                    assert(ms[j] == front[j]);
                }
            } else {
                assert forall|j: int| 0 <= j < front.len() implies (#[trigger] front[j]).path
                    != path by {
                    assert(ms[j] == front[j]);
                }
                assert(path_is_new(front, path));
                assert(Seq::<Seq<char>>::empty() + imported_names(imports) =~= imported_names(
                    imports,
                ));
            }
        }
    }
}

/// A program knows, for each module, the names that its imports bring in and where they come
/// from.
pub proof fn modules_keep_their_imports(ms: Seq<LoadedModuleV>, k: int, n: Seq<char>)
    requires
        0 <= k < ms.len(),
        forall|j: int| 0 <= j < ms.len() && j != k ==> (#[trigger] ms[j]).path != ms[k].path,
    ensures
        lookup(lowered(ms).0.module_imports, ms[k].path) matches Some(names) && (names.contains(n)
            <==> exists|i: int|
            0 <= i < ms[k].ast.imports.len() && brings(#[trigger] ms[k].ast.imports[i], n)),
        lookup(lowered(ms).0.import_origins, ms[k].path) matches Some(origins) && (match lookup(
            origins,
            n,
        ) {
            Some(o) => exists|i: int|
                0 <= i < ms[k].ast.imports.len() && brings(#[trigger] ms[k].ast.imports[i], n)
                    && ms[k].ast.imports[i].path == o && forall|j: int|
                    0 <= j < i ==> !brings(#[trigger] ms[k].ast.imports[j], n),
            None => forall|j: int|
                0 <= j < ms[k].ast.imports.len() ==> !brings(#[trigger] ms[k].ast.imports[j], n),
        }),
        lookup(lowered(ms).0.module_aliases, ms[k].path) matches Some(aliases) && (match lookup(
            aliases,
            n,
        ) {
            Some(o) => exists|i: int|
                0 <= i < ms[k].ast.imports.len() && (#[trigger] ms[k].ast.imports[i]).alias == Some(
                    n,
                ) && ms[k].ast.imports[i].path == o,
            None => forall|j: int|
                0 <= j < ms[k].ast.imports.len() ==> (#[trigger] ms[k].ast.imports[j]).alias
                    != Some(n),
        }),
        lookup(lowered(ms).0.import_renames, ms[k].path) == Some(
            imports_renamed(Seq::empty(), ms[k].ast.imports),
        ),
{
    let c = modules_collected(ms, ms);
    imports_gathered(ms, ms, ms[k].path);
    let p = assembled(c).0;
    let q = lowered(ms).0;
    assert(q.module_imports == c.module_imports);
    assert(q.import_origins == c.import_origins);
    assert(q.import_renames == c.import_renames);
    assert(q.module_aliases == c.module_aliases);
    let none = Seq::<(Seq<char>, Seq<Seq<char>>)>::empty();
    assert(lookup(none, n) is None);
    first_imports_win(none, ms[k].ast.imports, n);
    first_aliases_win(none, ms[k].ast.imports, n);
    imported_names_are_in_scope(ms[k].ast.imports, n);
}

// ---- variants ----

/// The variants of a sum are those that were declared, in order, each under its name, with its
/// position as its tag and its own members; one whose name was declared before is reported.
pub proof fn variants_are_kept(vs: Seq<VariantV>, owner: Seq<char>, i: int)
    requires
        0 <= i < vs.len() <= i32::MAX,
    ensures
        variants_of(vs, owner).0.len() == vs.len(),
        variants_of(vs, owner).0[i].name == vs[i].name,
        variants_of(vs, owner).0[i].tag == i,
        variants_of(vs, owner).0[i].fields == members_of(
            vs[i].members,
            owner + "."@ + vs[i].name,
        ).fields,
        variants_of(vs, owner).0[i].methods == members_of(
            vs[i].members,
            owner + "."@ + vs[i].name,
        ).methods,
        (exists|j: int| 0 <= j < i && (#[trigger] vs[j]).name == vs[i].name) ==> variants_of(
            vs,
            owner,
        ).1.contains(
            LowerErrorV {
                message: "duplicate variant `"@ + owner + "."@ + vs[i].name + "`"@,
                span: vs[i].span,
            },
        ),
    decreases vs.len(),
{
    let front = vs.drop_last();
    let all = variants_of(vs, owner);
    let (done, errors) = variants_of(front, owner);
    variants_counted(front, owner);
    if i < front.len() {
        variants_are_kept(front, owner, i);
        assert(front[i] == vs[i]);
        assert(all.0[i] == done[i]);
        if exists|j: int| 0 <= j < i && (#[trigger] vs[j]).name == vs[i].name {
            let j = choose|j: int| 0 <= j < i && (#[trigger] vs[j]).name == vs[i].name;
            assert(front[j].name == front[i].name);
            let e = LowerErrorV {
                message: "duplicate variant `"@ + owner + "."@ + vs[i].name + "`"@,
                span: vs[i].span,
            };
            let k = choose|k: int| 0 <= k < errors.len() && errors[k] == e;
            assert(all.1[k] == e);
        }
    } else {
        if exists|j: int| 0 <= j < i && (#[trigger] vs[j]).name == vs[i].name {
            let j = choose|j: int| 0 <= j < i && (#[trigger] vs[j]).name == vs[i].name;
            assert(front[j].name == vs.last().name);
            let e = LowerErrorV {
                message: "duplicate variant `"@ + owner + "."@ + vs[i].name + "`"@,
                span: vs[i].span,
            };
            assert(all.1[errors.len() as int] == e);
        }
    }
}

proof fn variants_counted(vs: Seq<VariantV>, owner: Seq<char>)
    ensures
        variants_of(vs, owner).0.len() == vs.len(),
    decreases vs.len(),
{
    if vs.len() > 0 {
        variants_counted(vs.drop_last(), owner);
    }
}

/// The payload of `Result` is what its type says: `value` of `Ok` and `error` of `Err`.
pub proof fn results_carry_their_payloads(ok: TypeV, err: TypeV)
    ensures
        result_info().kind matches TypeKindV::Sum { variants } && variants.len() == 2 && ({
            let n = result_view(ok, err)->Sum_0;
            &&& n.id == result_info().id && n.name == result_info().name
            &&& variants[0].name == "Ok"@ && variants[0].tag == 0 && variants[0].fields.len() == 1
            &&& variants[1].name == "Err"@ && variants[1].tag == 1 && variants[1].fields.len() == 1
            &&& payload_type(n, variants[0].name, variants[0].fields[0]) == Some(ok)
            &&& payload_type(n, variants[1].name, variants[1].fields[0]) == Some(err)
        }),
{
    result_payloads_of_result(ok, err);
    reveal_strlit("Ok");
    reveal_strlit("Err");
    reveal_strlit(".");
    reveal_strlit("value");
    reveal_strlit("error");
    reveal_strlit("Ok.value");
    reveal_strlit("Err.error");
    assert("Ok"@ + "."@ + "value"@ =~= "Ok.value"@);
    assert("Err"@ + "."@ + "error"@ =~= "Err.error"@);
}

// ---- methods ----

/// Whether a method table has the method that a function was written as.
pub open spec fn has_written(methods: Seq<(Seq<char>, MethodInfoV)>, f: FunDeclV) -> bool {
    lookup(methods, f.name) matches Some(m) && m.decl.body == Some(f.body) && m.decl.params
        == f.params && m.decl.ret == f.ret && m.decl.span == f.span && m.signature.name == f.name
        && m.signature.ret == f.ret && m.signature.params.len() == f.params.len()
}

/// Whether a method table has a method of the name with a body.
pub open spec fn has_body(methods: Seq<(Seq<char>, MethodInfoV)>, name: Seq<char>) -> bool {
    lookup(methods, name) matches Some(m) && m.decl.body is Some
}

/// A method that is written for a record of its own module is in the record's table, and no
/// other method or type changes; where the record has it already, that one stays and the
/// method is reported.
pub proof fn methods_reach_their_record(
    s: TablesV,
    f: FunDeclV,
    module: Seq<Seq<char>>,
    word: Seq<char>,
    i: int,
    other: Seq<char>,
)
    requires
        f.recv matches Some(r) && receiver_word(r) == Ok::<(Seq<char>, bool), Seq<char>>(
            (word, false),
        ),
        class_of_name(word, false) is None,
        0 <= i < s.types.len(),
        s.types[i].1.name == word && s.types[i].1.module == module,
        forall|j: int|
            0 <= j < i ==> !((#[trigger] s.types[j]).1.name == word && s.types[j].1.module
                == module),
        s.types[i].1.kind is Record,
        other != f.name,
    ensures
        ({
            let t = implemented(s, f, module);
            &&& t.functions == s.functions && t.primitive_methods == s.primitive_methods
            &&& t.types.len() == s.types.len()
            &&& forall|j: int| 0 <= j < s.types.len() && j != i ==> #[trigger] t.types[j] == s.types[j]
            &&& s.types[i].1.kind matches TypeKindV::Record { fields, methods } && (
            t.types[i].1.kind matches TypeKindV::Record { fields: gs, methods: ns } && gs == fields
                && lookup(ns, other) == lookup(methods, other) && if has_body(methods, f.name) {
                ns == methods && t.errors.contains(
                    LowerErrorV {
                        message: "duplicate method `"@ + word + "."@ + f.name + "`"@,
                        span: f.span,
                    },
                )
            } else {
                has_written(ns, f) && t.errors == s.errors
            })
        }),
{
    let homes = type_homes(s.types);
    assert(homes[i] == (word, module));
    assert forall|j: int| 0 <= j < i implies homes[j] != (word, module) by {
        assert(homes[j] == (s.types[j].1.name, s.types[j].1.module));
    }
    first_pos_unique(homes, (word, module), i);
    let m = MethodV {
        name: f.name,
        params: f.params,
        ret: f.ret,
        body: Some(f.body),
        span: f.span,
        doc: f.doc,
    };
    if let TypeKindV::Record { fields, methods } = s.types[i].1.kind {
        let info = MethodInfoV { signature: method_signature(m), decl: m };
        put_lookup(methods, f.name, info, other);
        put_lookup(methods, f.name, info, f.name);
        let t = implemented(s, f, module);
        let (added, errors) = method_added(methods, word, m);
        if has_body(methods, f.name) {
            assert(t.errors == s.errors + errors);
            assert(t.errors[s.errors.len() as int] == errors[0]);
        } else {
            assert(t.errors =~= s.errors);
        }
    }
}

/// A method that is written for a sum of its own module is in the table of each variant that
/// did not have it with a body.
pub proof fn methods_reach_every_variant(
    s: TablesV,
    f: FunDeclV,
    module: Seq<Seq<char>>,
    word: Seq<char>,
    i: int,
    v: int,
)
    requires
        f.recv matches Some(r) && receiver_word(r) == Ok::<(Seq<char>, bool), Seq<char>>(
            (word, false),
        ),
        class_of_name(word, false) is None,
        0 <= i < s.types.len(),
        s.types[i].1.name == word && s.types[i].1.module == module,
        forall|j: int|
            0 <= j < i ==> !((#[trigger] s.types[j]).1.name == word && s.types[j].1.module
                == module),
        s.types[i].1.kind matches TypeKindV::Sum { variants } && 0 <= v < variants.len()
            && !has_body(variants[v].methods, f.name),
    ensures
        ({
            let t = implemented(s, f, module);
            s.types[i].1.kind matches TypeKindV::Sum { variants } && (
            t.types[i].1.kind matches TypeKindV::Sum { variants: ws } && ws.len() == variants.len()
                && ws[v].name == variants[v].name && ws[v].tag == variants[v].tag && ws[v].fields
                == variants[v].fields && has_written(ws[v].methods, f))
        }),
{
    let homes = type_homes(s.types);
    assert(homes[i] == (word, module));
    assert forall|j: int| 0 <= j < i implies homes[j] != (word, module) by {
        assert(homes[j] == (s.types[j].1.name, s.types[j].1.module));
    }
    first_pos_unique(homes, (word, module), i);
    let m = MethodV {
        name: f.name,
        params: f.params,
        ret: f.ret,
        body: Some(f.body),
        span: f.span,
        doc: f.doc,
    };
    if let TypeKindV::Sum { variants } = s.types[i].1.kind {
        let info = MethodInfoV { signature: method_signature(m), decl: m };
        put_lookup(variants[v].methods, f.name, info, f.name);
        assert(method_added(variants[v].methods, word, m).0 == put(
            variants[v].methods,
            f.name,
            info,
        ));
    }
}

/// A method of a primitive is taken from the standard library alone, under a symbol of its
/// own; from elsewhere it is reported and nothing changes.
pub proof fn primitive_methods_are_of_the_library(
    s: TablesV,
    f: FunDeclV,
    module: Seq<Seq<char>>,
    word: Seq<char>,
    array: bool,
)
    requires
        f.recv matches Some(r) && receiver_word(r) == Ok::<(Seq<char>, bool), Seq<char>>(
            (word, array),
        ),
        class_of_name(word, array) is Some,
    ensures
        ({
            let t = implemented(s, f, module);
            let class = class_of_name(word, array)->0;
            &&& t.types == s.types
            &&& if module.len() > 0 && module[0] == "std"@ {
                if lookup(s.primitive_methods, (class, f.name)) is Some {
                    t.functions == s.functions && t.errors.len() == s.errors.len() + 1
                } else {
                    t.errors == s.errors && lookup(t.primitive_methods, (class, f.name)) == Some(
                        prim_symbol(class, f.name),
                    ) && (lookup(t.functions, prim_symbol(class, f.name)) matches Some(g)
                        && g.decl.body == f.body && g.signature.name == f.name && g.module
                        == module)
                }
            } else {
                t.functions == s.functions && t.primitive_methods == s.primitive_methods
                    && t.errors.len() == s.errors.len() + 1
            }
        }),
{
    let class = class_of_name(word, array)->0;
    let symbol = prim_symbol(class, f.name);
    let t = implemented(s, f, module);
    if module.len() > 0 && module[0] == "std"@ && lookup(s.primitive_methods, (class, f.name)) is None {
        put_lookup(s.functions, symbol, lookup(t.functions, symbol)->0, symbol);
        first_pos_facts(keys_of(s.functions), symbol);
        let p = first_pos(keys_of(s.functions), symbol);
        put_lookup(
            s.functions,
            symbol,
            if p < s.functions.len() {
                t.functions[p].1
            } else {
                t.functions[s.functions.len() as int].1
            },
            symbol,
        );
        put_lookup(s.primitive_methods, (class, f.name), symbol, (class, f.name));
        first_pos_facts(keys_of(s.primitive_methods), (class, f.name));
        assert(t.primitive_methods == put(s.primitive_methods, (class, f.name), symbol));
    }
}

// ---- lookups ----

/// A name that is neither bare nor the module's own is the one of the module it was imported
/// from, where that has it; and nothing otherwise.
pub proof fn imported_names_are_found(
    keys: Seq<Seq<char>>,
    origins: Seq<(Seq<Seq<char>>, Seq<(Seq<char>, Seq<Seq<char>>)>)>,
    module: Seq<Seq<char>>,
    name: Seq<char>,
    names: Seq<(Seq<char>, Seq<Seq<char>>)>,
    from: Seq<Seq<char>>,
)
    requires
        !keys.contains(name),
        !keys.contains(qualified(name, module)),
        lookup(origins, module) == Some(names),
        lookup(names, name) == Some(from),
    ensures
        keys.contains(qualified(name, from)) ==> (resolved_pos(keys, origins, module, name) matches Some(
            i,
        ) && 0 <= i < keys.len() && keys[i] == qualified(name, from)),
        !keys.contains(qualified(name, from)) ==> resolved_pos(keys, origins, module, name) is None,
{
    let q = qualified(name, from);
    first_pos_facts(keys, q);
    if keys.contains(q) {
        let i = choose|i: int| 0 <= i < keys.len() && keys[i] == q;
        assert(first_pos(keys, q) <= i) by {
            if first_pos(keys, q) > i {
                assert(keys[i] != q);
            }
        }
    }
}

/// A type is found by its id, and a variant by its name: the first that has it.
pub proof fn types_and_variants_are_found(
    ts: Seq<(Seq<char>, TypeInfoV)>,
    id: i32,
    vs: Seq<VariantInfoV>,
    name: Seq<char>,
)
    ensures
        match type_with_id(ts, id) {
            Some(t) => exists|i: int|
                0 <= i < ts.len() && (#[trigger] ts[i]).1 == t && t.id == id && forall|j: int|
                    0 <= j < i ==> (#[trigger] ts[j]).1.id != id,
            None => forall|j: int| 0 <= j < ts.len() ==> (#[trigger] ts[j]).1.id != id,
        },
        match variant_named(vs, name) {
            Some(v) => exists|i: int|
                0 <= i < vs.len() && (#[trigger] vs[i]) == v && v.name == name && forall|j: int|
                    0 <= j < i ==> (#[trigger] vs[j]).name != name,
            None => forall|j: int| 0 <= j < vs.len() ==> (#[trigger] vs[j]).name != name,
        },
{
    let ids = type_ids(ts);
    first_pos_facts(ids, id);
    let p = first_pos(ids, id);
    assert forall|j: int| 0 <= j < ts.len() && j < p implies (#[trigger] ts[j]).1.id != id by {
        assert(ids[j] == ts[j].1.id);
    }
    if p < ts.len() {
        assert(ids[p] == ts[p].1.id);
    }
    let ns = variant_names(vs);
    first_pos_facts(ns, name);
    let q = first_pos(ns, name);
    assert forall|j: int| 0 <= j < vs.len() && j < q implies (#[trigger] vs[j]).name != name by {
        assert(ns[j] == vs[j].name);
    }
    if q < vs.len() {
        assert(ns[q] == vs[q].name);
    }
}

} // verus!
