//! Which modules a directory serves, and which names a module offers to an import.

use vstd::prelude::*;
use crate::ast::{Module, ModuleV};
use crate::completion::{declared_items, filter_prefix, items_view, module_symbols, with_prefix, CompletionItem, ItemV};
use crate::text::{cat2, cat3, chars_of, clone_strings, has_prefix, join, join_strings, starts_with, str_eq, string_of, texts};

verus! {

// ---- file names ----

/// The position of the last `.`, or -1.
pub open spec fn last_dot(name: Seq<char>) -> int
    decreases name.len(),
{
    if name.len() == 0 {
        -1
    } else if name.last() == '.' {
        name.len() - 1
    } else {
        last_dot(name.drop_last())
    }
}

/// A file name taken apart into stem and extension. A name whose only `.` comes first
/// has no extension.
pub open spec fn stem_and_extension(name: Seq<char>) -> Option<(Seq<char>, Seq<char>)> {
    let d = last_dot(name);
    if d > 0 {
        Some((name.take(d), name.skip(d + 1)))
    } else {
        None
    }
}

pub open spec fn opt_texts(o: Option<(String, String)>) -> Option<(Seq<char>, Seq<char>)> {
    match o {
        Some((a, b)) => Some((a@, b@)),
        None => None,
    }
}

fn split_extension(name: &str) -> (r: Option<(String, String)>)
    ensures
        opt_texts(r) == stem_and_extension(name@),
{
    let cs = chars_of(name);
    let ghost all = name@;
    let mut i: usize = cs.len();
    assert(all.take(i as int) =~= all);
    while i > 0
        invariant
            i <= cs.len(),
            cs@ == all,
            all == name@,
            last_dot(all) == last_dot(all.take(i as int)),
        decreases i,
    {
        assert(all.take(i as int).last() == all[i - 1]);
        assert(all.take(i as int).drop_last() =~= all.take(i - 1));
        if cs[i - 1] == '.' {
            if i == 1 {
                return None;
            }
            let stem = string_of(cs.as_slice(), 0, i - 1);
            let ext = string_of(cs.as_slice(), i, cs.len());
            assert(stem@ =~= all.take(i - 1));
            assert(ext@ =~= all.skip(i as int));
            return Some((stem, ext));
        }
        i -= 1;
    }
    None
}

// ---- modules of a directory ----

/// How native libraries are named on the platform: `prefix` + name + `.` + `extension`.
pub struct LibraryNames {
    pub prefix: String,
    pub extension: String,
}

/// The module name of a native library's stem: without the platform's prefix, unless
/// nothing else is left.
pub open spec fn library_module(stem: Seq<char>, prefix: Seq<char>) -> Seq<char> {
    if has_prefix(stem, prefix) && stem.len() > prefix.len() {
        stem.skip(prefix.len() as int)
    } else {
        stem
    }
}

/// The module that a directory entry serves: a directory by its name, a `.pp` file by
/// its stem unless that is excluded, a native library by its name.
pub open spec fn module_of_entry(
    name: Seq<char>,
    is_dir: bool,
    exclude: Option<Seq<char>>,
    prefix: Seq<char>,
    extension: Seq<char>,
) -> Option<Seq<char>> {
    if is_dir {
        Some(name)
    } else {
        match stem_and_extension(name) {
            Some((stem, ext)) => if ext == "pp"@ && exclude != Some(stem) {
                Some(stem)
            } else if ext == extension {
                Some(library_module(stem, prefix))
            } else {
                None
            },
            None => None,
        }
    }
}

/// The models of directory entries: name, and whether it is a directory.
pub open spec fn entries_view(v: Seq<(String, bool)>) -> Seq<(Seq<char>, bool)> {
    Seq::new(v.len(), |i: int| (v[i].0@, v[i].1))
}

/// The modules that directory entries serve, in order.
pub open spec fn modules_of_entries(
    entries: Seq<(Seq<char>, bool)>,
    exclude: Option<Seq<char>>,
    prefix: Seq<char>,
    extension: Seq<char>,
) -> Seq<Seq<char>>
    decreases entries.len(),
{
    if entries.len() == 0 {
        Seq::empty()
    } else {
        let rest = modules_of_entries(entries.drop_last(), exclude, prefix, extension);
        match module_of_entry(entries.last().0, entries.last().1, exclude, prefix, extension) {
            Some(m) => rest.push(m),
            None => rest,
        }
    }
}

fn is_excluded(exclude: Option<&str>, stem: &str) -> (r: bool)
    ensures
        r == (crate::metadata::opt_view(exclude) == Some(stem@)),
{
    match exclude {
        Some(e) => str_eq(e, stem),
        None => false,
    }
}

fn entry_module(name: &str, is_dir: bool, exclude: Option<&str>, libs: &LibraryNames) -> (r: Option<
    String,
>)
    ensures
        crate::ast::opt_text(r) == module_of_entry(
            name@,
            is_dir,
            crate::metadata::opt_view(exclude),
            libs.prefix@,
            libs.extension@,
        ),
{
    if is_dir {
        return Some(name.to_owned());
    }
    match split_extension(name) {
        Some((stem, ext)) => {
            if str_eq(ext.as_str(), "pp") && !is_excluded(exclude, stem.as_str()) {
                Some(stem)
            } else if str_eq(ext.as_str(), libs.extension.as_str()) {
                let cs = chars_of(stem.as_str());
                let ps = chars_of(libs.prefix.as_str());
                if starts_with(stem.as_str(), libs.prefix.as_str()) && cs.len() > ps.len() {
                    let bare = string_of(cs.as_slice(), ps.len(), cs.len());
                    assert(bare@ =~= stem@.skip(ps.len() as int));
                    Some(bare)
                } else {
                    Some(stem)
                }
            } else {
                None
            }
        },
        None => None,
    }
}

/// The modules that the entries of a directory serve, each given by its name and whether
/// it is a directory; `exclude` is the stem of a file that must not import itself.
pub fn dir_module_names(entries: &Vec<(String, bool)>, exclude: Option<&str>, libs: &LibraryNames) -> (r:
    Vec<String>)
    ensures
        texts(r@) == modules_of_entries(
            entries_view(entries@),
            crate::metadata::opt_view(exclude),
            libs.prefix@,
            libs.extension@,
        ),
{
    let ghost all = entries_view(entries@);
    let ghost ex = crate::metadata::opt_view(exclude);
    let mut out: Vec<String> = Vec::new();
    assert(texts(out@) =~= modules_of_entries(all.take(0), ex, libs.prefix@, libs.extension@));
    for i in 0..entries.len()
        invariant
            all == entries_view(entries@),
            ex == crate::metadata::opt_view(exclude),
            texts(out@) == modules_of_entries(
                all.take(i as int),
                ex,
                libs.prefix@,
                libs.extension@,
            ),
    {
        proof {
            assert(all.take(i + 1).drop_last() =~= all.take(i as int));
            assert(all.take(i + 1).last() == (entries[i as int].0@, entries[i as int].1));
        }
        let ghost before = texts(out@);
        if let Some(m) = entry_module(entries[i].0.as_str(), entries[i].1, exclude, libs) {
            let ghost mv = m@;
            out.push(m);
            assert(texts(out@) =~= before.push(mv));
        }
    }
    assert(all.take(entries.len() as int) =~= all);
    out
}

/// A document is not offered as a module of its own directory, unless a directory or a
/// library has its name.
pub proof fn excluded_is_not_offered(
    name: Seq<char>,
    stem: Seq<char>,
    prefix: Seq<char>,
    extension: Seq<char>,
)
    requires
        stem_and_extension(name) == Some((stem, "pp"@)),
        extension != "pp"@,
    ensures
        module_of_entry(name, false, Some(stem), prefix, extension) is None,
{
}

// ---- names of a module ----

/// The source whose analysis tells what a module exports: one that imports it.
pub fn export_probe(module: &Vec<String>) -> (r: Option<String>)
    ensures
        match r {
            Some(s) => module@.len() > 0 && s@ == "import "@ + join(texts(module@), "."@) + "\n"@,
            None => module@.len() == 0,
        },
{
    if module.len() == 0 {
        return None;
    }
    let path = join_strings(module.as_slice(), ".");
    Some(cat3("import ", path.as_str(), "\n"))
}

/// The path that the functions and types of an imported module are kept under: a module
/// of the prelude is one of `std`.
pub fn export_target(path: &Vec<String>, prelude: bool) -> (r: Vec<String>)
    ensures
        texts(r@) == (if prelude {
            seq!["std"@] + texts(path@)
        } else {
            texts(path@)
        }),
{
    if !prelude {
        return clone_strings(path);
    }
    let mut out: Vec<String> = vec!["std".to_owned()];
    let ghost all = texts(path@);
    assert(texts(out@) =~= seq!["std"@] + all.take(0));
    for i in 0..path.len()
        invariant
            all == texts(path@),
            texts(out@) == seq!["std"@] + all.take(i as int),
    {
        let ghost before = texts(out@);
        out.push(path[i].clone());
        proof {
            assert(texts(out@) =~= before.push(all[i as int]));
            assert(all.take(i + 1) =~= all.take(i as int).push(all[i as int]));
            assert(texts(out@) =~= seq!["std"@] + all.take(i + 1));
        }
    }
    assert(all.take(path.len() as int) =~= all);
    out
}

/// The names offered for the brace list of an import: what the analysis says the module
/// exports, or else the public names of its parsed source.
pub open spec fn offered_names(exports: Seq<ItemV>, parsed: Option<ModuleV>, prefix: Seq<char>) -> Seq<
    ItemV,
> {
    if exports.len() > 0 {
        with_prefix(exports, prefix)
    } else {
        match parsed {
            Some(m) => with_prefix(declared_items(m.items, true), prefix),
            None => Seq::empty(),
        }
    }
}

pub open spec fn opt_module(o: Option<&Module>) -> Option<ModuleV> {
    match o {
        Some(m) => Some(m@),
        None => None,
    }
}

/// The names offered for the brace list of an import.
pub fn import_name_items(exports: Vec<CompletionItem>, parsed: Option<&Module>, prefix: &str) -> (r:
    Vec<CompletionItem>)
    ensures
        items_view(r@) == offered_names(items_view(exports@), opt_module(parsed), prefix@),
{
    assert(items_view(exports@).len() == exports.len());
    if exports.len() > 0 {
        return filter_prefix(exports, prefix);
    }
    match parsed {
        Some(m) => filter_prefix(module_symbols(m, true), prefix),
        None => {
            let none: Vec<CompletionItem> = Vec::new();
            assert(items_view(none@) =~= Seq::<ItemV>::empty());
            none
        },
    }
}

/// The message for a syntax error.
pub fn syntax_error(message: &str) -> (r: String)
    ensures
        r@ == "syntax error: "@ + message@,
{
    cat2("syntax error: ", message)
}

} // verus!
