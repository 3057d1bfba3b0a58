//! What the editor finds and offers: the first, nearest or tightest of what stands at a place,
//! and everything that is visible and nothing else.

use vstd::prelude::*;
use crate::anatomy::{every_expression_is_visited, stands_in, Piece};
use crate::ast::{BlockV, ExprV, MemberV, ParamV, PatternV, StmtV, TopLevelV, TypeBodyV, VariantV};
use crate::completion::{builtin_types, declared_items, exported_functions, exported_types, function_item, import_context_of, import_target, is_white, next_segments, path_pieces, plain, split, split_join, trimmed, trimmed_end, trimmed_start, type_item, variant_items, visible_functions, visible_types, white, with_one_trailing, with_prefix, without_leading, word_begin, CompletionItemKind, ImportContextV, ItemV};
use crate::definition::main_path;
use crate::hir::{FunInfoV, TypeInfoV, VariantInfoV};
use crate::hover::widest_ending;
use crate::lexer::{continues_ident, scan, scan_bounds};
use crate::nav::{all_same, around, call_types, calls_name, first_returned, first_use, ident_from, let_at, member_exprs, method_around, module_exprs, nearest_use, returned_type, uses_name, variant_around, variant_exprs, with_span};
use crate::offered::{hidden, hidden_is_not_public};
use crate::shapes::is_type_word;
use crate::span::Span;
use crate::table::first_pos;
use crate::text::{has_prefix, join};
use crate::token::{TokenKindV, TokenV};
use crate::traverse::{stmt_exprs, stmts_exprs};
use crate::typed::{TypedExprKindV, TypedExprV};
use crate::types::TypeV;

verus! {

// ---- what is offered ----

/// An item, where its label goes on from what was typed.
pub open spec fn selected(x: ItemV, prefix: Seq<char>) -> Option<ItemV> {
    if exists|more: Seq<char>| x.label == #[trigger] (prefix + more) {
        Some(x)
    } else {
        None
    }
}

/// The items that go with what was typed are exactly those whose label goes on from it.
pub proof fn prefixes_select(ss: Seq<ItemV>, prefix: Seq<char>, z: ItemV)
    ensures
        with_prefix(ss, prefix).contains(z) <==> exists|i: int|
            0 <= i < ss.len() && #[trigger] selected(ss[i], prefix) == Some(z),
    decreases ss.len(),
{
    let all = with_prefix(ss, prefix);
    if ss.len() > 0 {
        let front = ss.drop_last();
        let rest = with_prefix(front, prefix);
        prefixes_select(front, prefix, z);
        let label = ss.last().label;
        if has_prefix(label, prefix) {
            assert(label =~= prefix + label.skip(prefix.len() as int));
        }
        if exists|more: Seq<char>| label == #[trigger] (prefix + more) {
            let more = choose|more: Seq<char>| label == #[trigger] (prefix + more);
            assert(label.take(prefix.len() as int) =~= prefix);
        }
        assert(ss[ss.len() - 1] == ss.last());
        if rest.contains(z) {
            let k = choose|k: int| 0 <= k < rest.len() && rest[k] == z;
            assert(all[k] == z);
            let i = choose|i: int| 0 <= i < front.len() && #[trigger] selected(front[i], prefix) == Some(z);
            assert(selected(ss[i], prefix) == Some(z));
        } else if all.contains(z) {
            let k = choose|k: int| 0 <= k < all.len() && all[k] == z;
            if k < rest.len() {
                assert(rest[k] == z);
            }
            assert(selected(ss[ss.len() - 1], prefix) == Some(z));
        }
        if exists|i: int| 0 <= i < ss.len() && #[trigger] selected(ss[i], prefix) == Some(z) {
            let i = choose|i: int| 0 <= i < ss.len() && #[trigger] selected(ss[i], prefix) == Some(z);
            if i < front.len() {
                assert(selected(front[i], prefix) == Some(z));
            } else {
                assert(all[all.len() - 1] == z);
            }
        }
    }
}

/// What a declaration is offered as.
pub open spec fn offered_as(x: TopLevelV, public_only: bool) -> Option<ItemV> {
    match x {
        TopLevelV::Fun(f) => if public_only && hidden(f.name) {
            None
        } else {
            Some(plain(f.name, CompletionItemKind::Function, None))
        },
        TopLevelV::Type(t) => if public_only && hidden(t.name) {
            None
        } else if t.body is Sum {
            Some(plain(t.name, CompletionItemKind::Enum, None))
        } else {
            Some(plain(t.name, CompletionItemKind::Struct, None))
        },
        TopLevelV::Stmt(_) => None,
    }
}

/// A module offers exactly the functions and types that it declares, without the hidden ones where those are not asked for.
pub proof fn declarations_are_offered(ss: Seq<TopLevelV>, public_only: bool, z: ItemV)
    ensures
        declared_items(ss, public_only).contains(z) <==> exists|i: int|
            0 <= i < ss.len() && #[trigger] offered_as(ss[i], public_only) == Some(z),
    decreases ss.len(),
{
    let all = declared_items(ss, public_only);
    if ss.len() > 0 {
        let front = ss.drop_last();
        let rest = declared_items(front, public_only);
        declarations_are_offered(front, public_only, z);
        match ss.last() {
            TopLevelV::Fun(f) => hidden_is_not_public(f.name),
            TopLevelV::Type(t) => hidden_is_not_public(t.name),
            _ => {},
        }
        assert(ss[ss.len() - 1] == ss.last());
        if rest.contains(z) {
            let k = choose|k: int| 0 <= k < rest.len() && rest[k] == z;
            assert(all[k] == z);
            let i = choose|i: int| 0 <= i < front.len() && #[trigger] offered_as(front[i], public_only) == Some(z);
            assert(offered_as(ss[i], public_only) == Some(z));
        } else if all.contains(z) {
            let k = choose|k: int| 0 <= k < all.len() && all[k] == z;
            if k < rest.len() {
                assert(rest[k] == z);
            }
            assert(offered_as(ss[ss.len() - 1], public_only) == Some(z));
        }
        if exists|i: int| 0 <= i < ss.len() && #[trigger] offered_as(ss[i], public_only) == Some(z) {
            let i = choose|i: int| 0 <= i < ss.len() && #[trigger] offered_as(ss[i], public_only) == Some(z);
            if i < front.len() {
                assert(offered_as(front[i], public_only) == Some(z));
            } else {
                assert(all[all.len() - 1] == z);
            }
        }
    }
}

/// A function, where it can be seen.
pub open spec fn seen_function(x: (Seq<char>, FunInfoV), prelude: Seq<Seq<Seq<char>>>, imported: Seq<Seq<char>>) -> Option<ItemV> {
    if x.1.module.len() == 0 || x.1.module == main_path() || prelude.contains(x.1.module) || imported.contains(x.1.signature.name) {
        Some(function_item(x.1))
    } else {
        None
    }
}

/// The functions that are offered are exactly those without a module, of the document, of the prelude, or under an imported name.
pub proof fn visible_functions_are_offered(ss: Seq<(Seq<char>, FunInfoV)>, prelude: Seq<Seq<Seq<char>>>, imported: Seq<Seq<char>>, z: ItemV)
    ensures
        visible_functions(ss, prelude, imported).contains(z) <==> exists|i: int|
            0 <= i < ss.len() && #[trigger] seen_function(ss[i], prelude, imported) == Some(z),
    decreases ss.len(),
{
    let all = visible_functions(ss, prelude, imported);
    if ss.len() > 0 {
        let front = ss.drop_last();
        let rest = visible_functions(front, prelude, imported);
        visible_functions_are_offered(front, prelude, imported, z);
        assert(ss[ss.len() - 1] == ss.last());
        if rest.contains(z) {
            let k = choose|k: int| 0 <= k < rest.len() && rest[k] == z;
            assert(all[k] == z);
            let i = choose|i: int| 0 <= i < front.len() && #[trigger] seen_function(front[i], prelude, imported) == Some(z);
            assert(seen_function(ss[i], prelude, imported) == Some(z));
        } else if all.contains(z) {
            let k = choose|k: int| 0 <= k < all.len() && all[k] == z;
            if k < rest.len() {
                assert(rest[k] == z);
            }
            assert(seen_function(ss[ss.len() - 1], prelude, imported) == Some(z));
        }
        if exists|i: int| 0 <= i < ss.len() && #[trigger] seen_function(ss[i], prelude, imported) == Some(z) {
            let i = choose|i: int| 0 <= i < ss.len() && #[trigger] seen_function(ss[i], prelude, imported) == Some(z);
            if i < front.len() {
                assert(seen_function(front[i], prelude, imported) == Some(z));
            } else {
                assert(all[all.len() - 1] == z);
            }
        }
    }
}

/// A type, where it can be seen.
pub open spec fn seen_type(x: (Seq<char>, TypeInfoV), prelude: Seq<Seq<Seq<char>>>, imported: Seq<Seq<char>>) -> Option<ItemV> {
    if x.1.module.len() == 0 || x.1.module == main_path() || prelude.contains(x.1.module) || imported.contains(x.1.name) {
        Some(type_item(x.1))
    } else {
        None
    }
}

/// The types that are offered are exactly those without a module, of the document, of the prelude, or under an imported name.
pub proof fn visible_types_are_offered(ss: Seq<(Seq<char>, TypeInfoV)>, prelude: Seq<Seq<Seq<char>>>, imported: Seq<Seq<char>>, z: ItemV)
    ensures
        visible_types(ss, prelude, imported).contains(z) <==> exists|i: int|
            0 <= i < ss.len() && #[trigger] seen_type(ss[i], prelude, imported) == Some(z),
    decreases ss.len(),
{
    let all = visible_types(ss, prelude, imported);
    if ss.len() > 0 {
        let front = ss.drop_last();
        let rest = visible_types(front, prelude, imported);
        visible_types_are_offered(front, prelude, imported, z);
        assert(ss[ss.len() - 1] == ss.last());
        if rest.contains(z) {
            let k = choose|k: int| 0 <= k < rest.len() && rest[k] == z;
            assert(all[k] == z);
            let i = choose|i: int| 0 <= i < front.len() && #[trigger] seen_type(front[i], prelude, imported) == Some(z);
            assert(seen_type(ss[i], prelude, imported) == Some(z));
        } else if all.contains(z) {
            let k = choose|k: int| 0 <= k < all.len() && all[k] == z;
            if k < rest.len() {
                assert(rest[k] == z);
            }
            assert(seen_type(ss[ss.len() - 1], prelude, imported) == Some(z));
        }
        if exists|i: int| 0 <= i < ss.len() && #[trigger] seen_type(ss[i], prelude, imported) == Some(z) {
            let i = choose|i: int| 0 <= i < ss.len() && #[trigger] seen_type(ss[i], prelude, imported) == Some(z);
            if i < front.len() {
                assert(seen_type(front[i], prelude, imported) == Some(z));
            } else {
                assert(all[all.len() - 1] == z);
            }
        }
    }
}

/// A function, where a module exports it.
pub open spec fn exported_function(x: (Seq<char>, FunInfoV), target: Seq<Seq<char>>) -> Option<ItemV> {
    if x.1.module == target && !hidden(x.1.signature.name) && !x.1.signature.name.contains('.') {
        Some(function_item(x.1))
    } else {
        None
    }
}

/// A module exports exactly its own functions that are neither hidden nor methods of a primitive.
pub proof fn modules_export_their_functions(ss: Seq<(Seq<char>, FunInfoV)>, target: Seq<Seq<char>>, z: ItemV)
    ensures
        exported_functions(ss, target).contains(z) <==> exists|i: int|
            0 <= i < ss.len() && #[trigger] exported_function(ss[i], target) == Some(z),
    decreases ss.len(),
{
    let all = exported_functions(ss, target);
    if ss.len() > 0 {
        let front = ss.drop_last();
        let rest = exported_functions(front, target);
        modules_export_their_functions(front, target, z);
        hidden_is_not_public(ss.last().1.signature.name);
        assert(ss[ss.len() - 1] == ss.last());
        if rest.contains(z) {
            let k = choose|k: int| 0 <= k < rest.len() && rest[k] == z;
            assert(all[k] == z);
            let i = choose|i: int| 0 <= i < front.len() && #[trigger] exported_function(front[i], target) == Some(z);
            assert(exported_function(ss[i], target) == Some(z));
        } else if all.contains(z) {
            let k = choose|k: int| 0 <= k < all.len() && all[k] == z;
            if k < rest.len() {
                assert(rest[k] == z);
            }
            assert(exported_function(ss[ss.len() - 1], target) == Some(z));
        }
        if exists|i: int| 0 <= i < ss.len() && #[trigger] exported_function(ss[i], target) == Some(z) {
            let i = choose|i: int| 0 <= i < ss.len() && #[trigger] exported_function(ss[i], target) == Some(z);
            if i < front.len() {
                assert(exported_function(front[i], target) == Some(z));
            } else {
                assert(all[all.len() - 1] == z);
            }
        }
    }
}

/// A type, where a module exports it.
pub open spec fn exported_type(x: (Seq<char>, TypeInfoV), target: Seq<Seq<char>>) -> Option<ItemV> {
    if x.1.module == target && !hidden(x.1.name) {
        Some(type_item(x.1))
    } else {
        None
    }
}

/// A module exports exactly its own types that are not hidden.
pub proof fn modules_export_their_types(ss: Seq<(Seq<char>, TypeInfoV)>, target: Seq<Seq<char>>, z: ItemV)
    ensures
        exported_types(ss, target).contains(z) <==> exists|i: int|
            0 <= i < ss.len() && #[trigger] exported_type(ss[i], target) == Some(z),
    decreases ss.len(),
{
    let all = exported_types(ss, target);
    if ss.len() > 0 {
        let front = ss.drop_last();
        let rest = exported_types(front, target);
        modules_export_their_types(front, target, z);
        hidden_is_not_public(ss.last().1.name);
        assert(ss[ss.len() - 1] == ss.last());
        if rest.contains(z) {
            let k = choose|k: int| 0 <= k < rest.len() && rest[k] == z;
            assert(all[k] == z);
            let i = choose|i: int| 0 <= i < front.len() && #[trigger] exported_type(front[i], target) == Some(z);
            assert(exported_type(ss[i], target) == Some(z));
        } else if all.contains(z) {
            let k = choose|k: int| 0 <= k < all.len() && all[k] == z;
            if k < rest.len() {
                assert(rest[k] == z);
            }
            assert(exported_type(ss[ss.len() - 1], target) == Some(z));
        }
        if exists|i: int| 0 <= i < ss.len() && #[trigger] exported_type(ss[i], target) == Some(z) {
            let i = choose|i: int| 0 <= i < ss.len() && #[trigger] exported_type(ss[i], target) == Some(z);
            if i < front.len() {
                assert(exported_type(front[i], target) == Some(z));
            } else {
                assert(all[all.len() - 1] == z);
            }
        }
    }
}

/// A variant, where it is offered.
pub open spec fn offered_variant(x: VariantInfoV, private: bool) -> Option<ItemV> {
    if hidden(x.name) && !private {
        None
    } else {
        Some(plain(x.name, CompletionItemKind::EnumMember, None))
    }
}

/// A sum offers exactly its variants, without the hidden ones where those are not asked for.
pub proof fn variants_are_offered(ss: Seq<VariantInfoV>, private: bool, z: ItemV)
    ensures
        variant_items(ss, private).contains(z) <==> exists|i: int|
            0 <= i < ss.len() && #[trigger] offered_variant(ss[i], private) == Some(z),
    decreases ss.len(),
{
    let all = variant_items(ss, private);
    if ss.len() > 0 {
        let front = ss.drop_last();
        let rest = variant_items(front, private);
        variants_are_offered(front, private, z);
        hidden_is_not_public(ss.last().name);
        assert(ss[ss.len() - 1] == ss.last());
        if rest.contains(z) {
            let k = choose|k: int| 0 <= k < rest.len() && rest[k] == z;
            assert(all[k] == z);
            let i = choose|i: int| 0 <= i < front.len() && #[trigger] offered_variant(front[i], private) == Some(z);
            assert(offered_variant(ss[i], private) == Some(z));
        } else if all.contains(z) {
            let k = choose|k: int| 0 <= k < all.len() && all[k] == z;
            if k < rest.len() {
                assert(rest[k] == z);
            }
            assert(offered_variant(ss[ss.len() - 1], private) == Some(z));
        }
        if exists|i: int| 0 <= i < ss.len() && #[trigger] offered_variant(ss[i], private) == Some(z) {
            let i = choose|i: int| 0 <= i < ss.len() && #[trigger] offered_variant(ss[i], private) == Some(z);
            if i < front.len() {
                assert(offered_variant(front[i], private) == Some(z));
            } else {
                assert(all[all.len() - 1] == z);
            }
        }
    }
}

/// The segment that follows a path in a key.
pub open spec fn going_on(x: Seq<char>, parents: Seq<Seq<char>>) -> Option<Seq<char>> {
    let segs = split(x, '/');
    if segs.len() > parents.len() && (forall|j: int|
        0 <= j < parents.len() ==> #[trigger] segs[j] == parents[j]) {
        Some(segs[parents.len() as int])
    } else {
        None
    }
}

/// What comes next behind a path is exactly what follows it in one of the keys.
pub proof fn next_segments_go_on(ss: Seq<Seq<char>>, parents: Seq<Seq<char>>, z: Seq<char>)
    ensures
        next_segments(ss, parents).contains(z) <==> exists|i: int|
            0 <= i < ss.len() && #[trigger] going_on(ss[i], parents) == Some(z),
    decreases ss.len(),
{
    let all = next_segments(ss, parents);
    if ss.len() > 0 {
        let front = ss.drop_last();
        let rest = next_segments(front, parents);
        next_segments_go_on(front, parents, z);
        let segs = split(ss.last(), '/');
        if segs.len() > parents.len() {
            let head = segs.take(parents.len() as int);
            if head == parents {
                assert forall|j: int| 0 <= j < parents.len() implies #[trigger] segs[j]
                    == parents[j] by {
                    assert(head[j] == segs[j]);
                }
            }
            if forall|j: int| 0 <= j < parents.len() ==> #[trigger] segs[j] == parents[j] {
                assert(head =~= parents);
            }
        }
        assert(ss[ss.len() - 1] == ss.last());
        if rest.contains(z) {
            let k = choose|k: int| 0 <= k < rest.len() && rest[k] == z;
            assert(all[k] == z);
            let i = choose|i: int| 0 <= i < front.len() && #[trigger] going_on(front[i], parents) == Some(z);
            assert(going_on(ss[i], parents) == Some(z));
        } else if all.contains(z) {
            let k = choose|k: int| 0 <= k < all.len() && all[k] == z;
            if k < rest.len() {
                assert(rest[k] == z);
            }
            assert(going_on(ss[ss.len() - 1], parents) == Some(z));
        }
        if exists|i: int| 0 <= i < ss.len() && #[trigger] going_on(ss[i], parents) == Some(z) {
            let i = choose|i: int| 0 <= i < ss.len() && #[trigger] going_on(ss[i], parents) == Some(z);
            if i < front.len() {
                assert(going_on(front[i], parents) == Some(z));
            } else {
                assert(all[all.len() - 1] == z);
            }
        }
    }
}

/// What an item stands for is what it is called after: a function by its name in the source,
/// a type by its own.
pub proof fn items_are_named_after_declarations(f: FunInfoV, t: TypeInfoV)
    ensures
        function_item(f).label == f.signature.name,
        function_item(f).kind == CompletionItemKind::Function,
        function_item(f).documentation == f.decl.doc,
        type_item(t).label == t.name,
        type_item(t).kind == CompletionItemKind::Enum <==> t.kind is Sum,
        type_item(t).kind == CompletionItemKind::Struct <==> t.kind is Record,
        type_item(t).documentation == t.doc,
{
}

/// Every type that is offered as built in is `Result` or denotes a type by itself.
pub proof fn builtin_types_are_types(i: int)
    requires
        0 <= i < builtin_types().len(),
    ensures
        builtin_types()[i] == "Result"@ || is_type_word(builtin_types()[i]),
{
}

// ---- text around the cursor ----

proof fn end_trimmed(s: Seq<char>)
    ensures
        trimmed_end(s).len() <= s.len(),
        trimmed_end(s) == s.take(trimmed_end(s).len() as int),
        trimmed_end(s).len() > 0 ==> !is_white(trimmed_end(s).last()),
        forall|i: int| trimmed_end(s).len() <= i < s.len() ==> is_white(#[trigger] s[i]),
    decreases s.len(),
{
    if s.len() > 0 && is_white(s.last()) {
        let front = s.drop_last();
        end_trimmed(front);
        let n = trimmed_end(front).len() as int;
        assert(front.take(n) =~= s.take(n));
        assert forall|i: int| n <= i < s.len() implies is_white(#[trigger] s[i]) by {
            if i < front.len() {
                assert(front[i] == s[i]);
            }
        }
    } else {
        assert(s.take(s.len() as int) =~= s);
    }
}

proof fn scan_ends(cs: Seq<char>, i: int, p: spec_fn(char) -> bool)
    requires
        0 <= i <= cs.len(),
    ensures
        scan(cs, i, p) < cs.len() ==> !p(cs[scan(cs, i, p)]),
    decreases cs.len() - i,
{
    if i < cs.len() && p(cs[i]) {
        scan_ends(cs, i + 1, p);
    }
}

/// Trimming takes off all the white space around a text and nothing else.
pub proof fn trimming_takes_white_space(s: Seq<char>)
    ensures
        trimmed(s).len() > 0 ==> !is_white(trimmed(s)[0]) && !is_white(trimmed(s).last()),
        exists|a: int, b: int|
            0 <= a <= b <= s.len() && trimmed(s) == #[trigger] s.subrange(a, b) && (forall|i: int|
                0 <= i < a || b <= i < s.len() ==> is_white(#[trigger] s[i])),
{
    let a = scan(s, 0, white());
    scan_bounds(s, 0, white());
    scan_ends(s, 0, white());
    let t = trimmed_start(s);
    end_trimmed(t);
    let b = a + trimmed_end(t).len();
    assert(trimmed(s) =~= s.subrange(a, b));
    if trimmed(s).len() > 0 {
        assert(trimmed(s)[0] == s[a]);
        assert(white()(s[a]) == is_white(s[a]));
    }
    assert forall|i: int| 0 <= i < a || b <= i < s.len() implies is_white(#[trigger] s[i]) by {
        if i < a {
            assert(white()(s[i]));
        } else {
            assert(t[i - a] == s[i]);
        }
    }
}

/// The word before the cursor is all of the characters there that a name can hold.
pub proof fn words_are_whole(cs: Seq<char>, k: int)
    requires
        0 <= k <= cs.len(),
    ensures
        0 <= word_begin(cs, k) <= k,
        forall|i: int| word_begin(cs, k) <= i < k ==> continues_ident(#[trigger] cs[i]),
        word_begin(cs, k) > 0 ==> !continues_ident(cs[word_begin(cs, k) - 1]),
    decreases k,
{
    if k > 0 && continues_ident(cs[k - 1]) {
        words_are_whole(cs, k - 1);
    }
}

/// Whether a text can be a segment of a path: it holds no white space, dot or brace.
pub open spec fn is_segment(s: Seq<char>) -> bool {
    forall|i: int| 0 <= i < s.len() ==> !is_white(#[trigger] s[i]) && s[i] != '.' && s[i] != '{'
}

proof fn segments_stay(s: Seq<char>)
    requires
        is_segment(s),
    ensures
        trimmed(s) == s,
{
    assert(s.len() > 0 ==> !white()(s[0]));
    assert(scan(s, 0, white()) == 0);
    assert(s.skip(0) =~= s);
    assert(s.len() > 0 ==> !is_white(s.last()));
}

proof fn splitting_undoes_joining(ps: Seq<Seq<char>>, sep: char)
    requires
        ps.len() > 0,
        forall|i: int| 0 <= i < ps.len() ==> !(#[trigger] ps[i]).contains(sep),
    ensures
        split(join(ps, seq![sep]), sep) == ps,
    decreases ps.len(),
{
    let last = ps.last();
    assert(ps[ps.len() - 1] == last);
    if ps.len() == 1 {
        split_plain(Seq::empty(), last, sep);
        assert(Seq::<char>::empty() + last =~= last);
        let one = split(Seq::<char>::empty(), sep);
        assert(one.len() == 1 && one.last() =~= Seq::<char>::empty());
        assert(one.drop_last().push(one.last() + last) =~= ps);
    } else {
        let front = ps.drop_last();
        assert forall|i: int| 0 <= i < front.len() implies !(#[trigger] front[i]).contains(sep) by {
            assert(front[i] == ps[i]);
        }
        splitting_undoes_joining(front, sep);
        let s = join(front, seq![sep]);
        let t = s + seq![sep];
        assert(t.drop_last() =~= s);
        assert(split(t, sep) == front.push(Seq::empty()));
        split_plain(t, last, sep);
        let r = split(t, sep);
        assert(r.drop_last() =~= front);
        assert(r.last() + last =~= last);
        assert(r.drop_last().push(r.last() + last) =~= ps);
    }
}

proof fn split_plain(t: Seq<char>, s: Seq<char>, sep: char)
    requires
        !s.contains(sep),
    ensures
        split(t, sep).len() > 0,
        split(t + s, sep) == split(t, sep).drop_last().push(split(t, sep).last() + s),
    decreases s.len(),
{
    split_join(t, sep);
    let r = split(t, sep);
    if s.len() == 0 {
        assert(t + s =~= t);
        assert(r.last() + s =~= r.last());
        assert(r.drop_last().push(r.last()) =~= r);
    } else {
        let u = s.drop_last();
        assert(!u.contains(sep)) by {
            if u.contains(sep) {
                let i = choose|i: int| 0 <= i < u.len() && u[i] == sep;
                assert(s[i] == sep);
            }
        }
        split_plain(t, u, sep);
        assert((t + s).drop_last() =~= t + u);
        assert((t + s).last() == s.last());
        assert(s.last() != sep) by {
            assert(s[s.len() - 1] == s.last());
        }
        let q = split(t + u, sep);
        assert(q.drop_last() =~= r.drop_last());
        assert(q.last().push(s.last()) =~= r.last() + s);
        assert(split(t + s, sep) =~= r.drop_last().push(r.last() + s));
    }
}

proof fn joined_has(ps: Seq<Seq<char>>, sep: char, c: char)
    requires
        c != sep,
        forall|i: int| 0 <= i < ps.len() ==> !(#[trigger] ps[i]).contains(c),
    ensures
        !join(ps, seq![sep]).contains(c),
    decreases ps.len(),
{
    if ps.len() == 1 {
        assert(!ps[0].contains(c));
    } else if ps.len() > 1 {
        let front = ps.drop_last();
        assert forall|i: int| 0 <= i < front.len() implies !(#[trigger] front[i]).contains(c) by {
            assert(front[i] == ps[i]);
        }
        joined_has(front, sep, c);
        let a = join(front, seq![sep]);
        let b = ps.last();
        assert(!ps[ps.len() - 1].contains(c));
        let s = a + seq![sep] + b;
        if s.contains(c) {
            let i = choose|i: int| 0 <= i < s.len() && s[i] == c;
            if i < a.len() {
                assert(a[i] == c);
            } else if i > a.len() {
                assert(b[i - a.len() - 1] == c);
            }
        }
    }
}

/// Behind `import` a path that is being typed is completed at its last segment, under the
/// segments before it.
pub proof fn paths_are_completed(segs: Seq<Seq<char>>)
    requires
        segs.len() > 0,
        forall|i: int|
            0 <= i < segs.len() ==> is_segment(#[trigger] segs[i]) && (i < segs.len() - 1
                ==> segs[i].len() > 0),
    ensures
        import_context_of("import "@ + join(segs, seq!['.'])) == Some(
            ImportContextV::Path { parents: segs.drop_last(), prefix: segs.last() },
        ),
{
    let text = join(segs, seq!['.']);
    let line = "import "@ + text;
    reveal_strlit("import ");
    reveal_strlit("import");
    assert("import "@.len() == 7 && "import "@[6] == ' ' && "import "@[0] == 'i');
    assert("import"@.len() == 6);
    assert(line[0] == 'i');
    assert(!white()(line[0]));
    assert(scan(line, 0, white()) == 0);
    assert(line.skip(0) =~= line);
    assert(line.take(6) =~= "import"@);
    assert(line[6] == ' ');
    let rest = line.skip(6);
    assert(rest =~= seq![' '] + text);
    assert forall|i: int| 0 <= i < segs.len() implies !(#[trigger] segs[i]).contains('.')
        && !segs[i].contains('{') by {
        assert(is_segment(segs[i]));
    }
    splitting_undoes_joining(segs, '.');
    joined_has(segs, '.', '{');
    assert(text.len() > 0 ==> !is_white(text[0])) by {
        if text.len() > 0 {
            joined_begins(segs);
        }
    }
    assert(white()(rest[0]));
    assert(rest.len() > 1 ==> rest[1] == text[0]);
    assert(rest.len() > 1 ==> !white()(rest[1]));
    assert(scan(rest, 1, white()) == 1);
    assert(scan(rest, 0, white()) == 1);
    assert(trimmed_start(rest) =~= text);
    crate::table::first_pos_facts(text, '{');
    let b = first_pos(text, '{');
    assert(b >= text.len()) by {
        if b < text.len() {
            assert(text[b] == '{');
            assert(text.contains('{'));
        }
    }
    let pieces = path_pieces(text);
    assert forall|i: int| 0 <= i < segs.len() implies pieces[i] == #[trigger] segs[i] by {
        segments_stay(segs[i]);
    }
    assert(pieces =~= segs);
    if text.len() == 0 {
        if segs.len() > 1 {
            joined_long(segs);
        }
        assert(segs.len() == 1);
        assert(segs.last() =~= Seq::<char>::empty());
        assert(segs.drop_last() =~= Seq::<Seq<char>>::empty());
    } else {
        assert(without_leading(segs) == segs) by {
            assert(is_segment(segs[0]));
        }
        assert(with_one_trailing(segs) == segs) by {
            if segs.len() > 1 {
                assert(is_segment(segs[segs.len() - 2]));
            }
        }
    }
}

/// In the braces of an import, what is being typed is completed behind the last comma, for the
/// module that stands before the braces.
pub proof fn names_are_completed(segs: Seq<Seq<char>>, names: Seq<Seq<char>>)
    requires
        segs.len() > 0,
        names.len() > 0,
        forall|i: int| 0 <= i < segs.len() ==> is_segment(#[trigger] segs[i]) && segs[i].len() > 0,
        forall|i: int| 0 <= i < names.len() ==> !(#[trigger] names[i]).contains(','),
    ensures
        import_target(
            join(segs, seq!['.']) + seq!['.', '{'] + join(names, seq![',']),
        ) == (ImportContextV::Names { module: segs, prefix: trimmed(names.last()) }),
{
    let path = join(segs, seq!['.']);
    let text = path + seq!['.', '{'] + join(names, seq![',']);
    let b = path.len() as int + 1;
    assert forall|i: int| 0 <= i < segs.len() implies !(#[trigger] segs[i]).contains('.')
        && !segs[i].contains('{') by {
        assert(is_segment(segs[i]));
    }
    joined_has(segs, '.', '{');
    assert(text[b] == '{');
    assert forall|i: int| 0 <= i < b implies text[i] != '{' by {
        if i < path.len() {
            assert(text[i] == path[i]);
            assert(path.contains(path[i]));
        } else {
            assert(text[i] == '.');
        }
    }
    crate::table::first_pos_unique(text, '{', b);
    assert(text.skip(b + 1) =~= join(names, seq![',']));
    splitting_undoes_joining(names, ',');
    let head = text.take(b);
    assert(head =~= path + seq!['.']);
    joined_is_segments(segs);
    assert(head[0] == path[0] && !is_white(head[0]));
    assert(!white()(head[0]));
    assert(scan(head, 0, white()) == 0);
    assert(head.skip(0) =~= head);
    assert(head.last() == '.');
    assert(!is_white('.'));
    assert(trimmed(head) == head);
    assert(head.drop_last() =~= path);
    assert(crate::completion::without_dots(path) == path);
    assert(crate::completion::without_dots(head) == path);
    splitting_undoes_joining(segs, '.');
    let pieces = path_pieces(path);
    assert forall|i: int| 0 <= i < segs.len() implies pieces[i] == #[trigger] segs[i] by {
        segments_stay(segs[i]);
    }
    assert(pieces =~= segs);
    assert(segs[0].len() > 0);
    assert(without_leading(segs) == segs);
    assert(segs[segs.len() - 1] == segs.last());
    assert(with_one_trailing(segs) == segs);
}

proof fn joined_is_segments(ps: Seq<Seq<char>>)
    requires
        ps.len() > 0,
        forall|i: int| 0 <= i < ps.len() ==> is_segment(#[trigger] ps[i]) && ps[i].len() > 0,
    ensures
        join(ps, seq!['.']).len() > 0,
        !is_white(join(ps, seq!['.'])[0]),
        join(ps, seq!['.']).last() != '.',
{
    let s = join(ps, seq!['.']);
    assert(is_segment(ps[0]) && ps[0].len() > 0);
    assert(is_segment(ps[ps.len() - 1]) && ps[ps.len() - 1].len() > 0);
    let l = ps.last();
    if ps.len() > 1 {
        joined_long(ps);
        assert(s.last() == l.last());
    }
    assert(l.last() == l[l.len() - 1]);
    joined_begins(ps);
}

/// A dot behind the end of an expression, with nothing but a name that is being typed behind
/// it, asks for a member; a dot behind a number does not.
pub proof fn members_are_asked_for(cs: Seq<char>, d: int, k: int)
    requires
        0 < d < k <= cs.len(),
        cs[d] == '.',
        forall|i: int| d < i < k ==> continues_ident(#[trigger] cs[i]),
    ensures
        crate::completion::member_dot(cs, k) == (if (continues_ident(cs[d - 1]) || cs[d - 1] == ')'
            || cs[d - 1] == ']') && !crate::lexer::is_digit(cs[word_begin(cs, d)]) {
            Some(d)
        } else {
            None
        }),
{
    word_found(cs, d + 1, k);
}

proof fn word_found(cs: Seq<char>, w: int, k: int)
    requires
        0 < w <= k <= cs.len(),
        !continues_ident(cs[w - 1]),
        forall|i: int| w <= i < k ==> continues_ident(#[trigger] cs[i]),
    ensures
        word_begin(cs, k) == w,
    decreases k,
{
    if w < k {
        assert(continues_ident(cs[k - 1]));
        word_found(cs, w, k - 1);
    }
}

proof fn joined_long(ps: Seq<Seq<char>>)
    requires
        ps.len() > 1,
    ensures
        join(ps, seq!['.']).len() > 0,
{
}

proof fn joined_begins(ps: Seq<Seq<char>>)
    requires
        ps.len() > 0,
        ps.len() > 1 ==> ps[0].len() > 0,
        is_segment(ps[0]),
        join(ps, seq!['.']).len() > 0,
    ensures
        !is_white(join(ps, seq!['.'])[0]),
    decreases ps.len(),
{
    let s = join(ps, seq!['.']);
    if ps.len() > 1 {
        let front = ps.drop_last();
        let t = join(front, seq!['.']);
        assert(front[0] == ps[0]);
        if front.len() == 1 {
            assert(t == ps[0]);
        } else {
            joined_long(front);
        }
        joined_begins(front);
        assert(s[0] == t[0]);
    }
}

// ---- what is found ----

/// The name of an identifier, where a place lies in it.
pub open spec fn name_at(x: TokenV, off: int) -> Option<(Seq<char>, Span)> {
    match x.kind {
        TokenKindV::Ident(name) => if x.span.lo <= off <= x.span.hi {
            Some((name, x.span))
        } else {
            None
        },
        _ => None,
    }
}

proof fn names_are_found_at_their_place_from(ss: Seq<TokenV>, n: int, off: int)
    requires
        0 <= n <= ss.len(),
    ensures
        match ident_from(ss, n, off) {
            Some(r) => exists|i: int|
                n <= i < ss.len() && #[trigger] name_at(ss[i], off) == Some(r) && forall|j: int|
                    n <= j < i ==> #[trigger] name_at(ss[j], off) is None,
            None => forall|j: int| n <= j < ss.len() ==> #[trigger] name_at(ss[j], off) is None,
        },
    decreases ss.len() - n,
{
    if n < ss.len() {
        names_are_found_at_their_place_from(ss, n + 1, off);
        match name_at(ss[n], off) {
            Some(r) => {
                assert(ident_from(ss, n, off) == Some(r));
            },
            None => {
                assert(ident_from(ss, n, off) == ident_from(ss, n + 1, off));
                if let Some(r) = ident_from(ss, n, off) {
                    let i = choose|i: int|
                        n + 1 <= i < ss.len() && #[trigger] name_at(ss[i], off) == Some(r) && forall|
                            j: int,
                        |
                            n + 1 <= j < i ==> #[trigger] name_at(ss[j], off) is None;
                    assert(name_at(ss[i], off) == Some(r));
                }
            },
        }
    }
}

/// The name at a place is that of the first identifier that reaches from before it to behind it.
pub proof fn names_are_found_at_their_place(ss: Seq<TokenV>, off: int)
    ensures
        match ident_from(ss, 0, off) {
            Some(r) => exists|i: int|
                0 <= i < ss.len() && #[trigger] name_at(ss[i], off) == Some(r) && forall|j: int|
                    0 <= j < i ==> #[trigger] name_at(ss[j], off) is None,
            None => forall|j: int| 0 <= j < ss.len() ==> #[trigger] name_at(ss[j], off) is None,
        },
{
    names_are_found_at_their_place_from(ss, 0, off);
}

/// An expression, where it was recorded for a span (as a call, where one is asked for).
pub open spec fn recorded_as(x: TypedExprV, span: Span, calls: bool) -> Option<TypedExprV> {
    if x.span.lo == span.lo && x.span.hi == span.hi && (calls ==> x.kind is Call) {
        Some(x)
    } else {
        None
    }
}

proof fn recorded_spans_are_found_from(ss: Seq<TypedExprV>, n: int, span: Span, calls: bool)
    requires
        0 <= n <= ss.len(),
    ensures
        match with_span(ss, n, span, calls) {
            Some(r) => exists|i: int|
                n <= i < ss.len() && #[trigger] recorded_as(ss[i], span, calls) == Some(r) && forall|j: int|
                    n <= j < i ==> #[trigger] recorded_as(ss[j], span, calls) is None,
            None => forall|j: int| n <= j < ss.len() ==> #[trigger] recorded_as(ss[j], span, calls) is None,
        },
    decreases ss.len() - n,
{
    if n < ss.len() {
        recorded_spans_are_found_from(ss, n + 1, span, calls);
        match recorded_as(ss[n], span, calls) {
            Some(r) => {
                assert(with_span(ss, n, span, calls) == Some(r));
            },
            None => {
                assert(with_span(ss, n, span, calls) == with_span(ss, n + 1, span, calls));
                if let Some(r) = with_span(ss, n, span, calls) {
                    let i = choose|i: int|
                        n + 1 <= i < ss.len() && #[trigger] recorded_as(ss[i], span, calls) == Some(r) && forall|
                            j: int,
                        |
                            n + 1 <= j < i ==> #[trigger] recorded_as(ss[j], span, calls) is None;
                    assert(recorded_as(ss[i], span, calls) == Some(r));
                }
            },
        }
    }
}

/// What is recorded for a span is the first expression that has it.
pub proof fn recorded_spans_are_found(ss: Seq<TypedExprV>, span: Span, calls: bool)
    ensures
        match with_span(ss, 0, span, calls) {
            Some(r) => exists|i: int|
                0 <= i < ss.len() && #[trigger] recorded_as(ss[i], span, calls) == Some(r) && forall|j: int|
                    0 <= j < i ==> #[trigger] recorded_as(ss[j], span, calls) is None,
            None => forall|j: int| 0 <= j < ss.len() ==> #[trigger] recorded_as(ss[j], span, calls) is None,
        },
{
    recorded_spans_are_found_from(ss, 0, span, calls);
}

/// The type of an expression, where it uses a name in a body.
pub open spec fn used_as(x: TypedExprV, name: Seq<char>, body: Span) -> Option<TypeV> {
    if x.kind == TypedExprKindV::Ident(name) && body.lo <= x.span.lo && x.span.hi <= body.hi {
        Some(x.ty)
    } else {
        None
    }
}

proof fn first_uses_are_found_from(ss: Seq<TypedExprV>, n: int, name: Seq<char>, body: Span)
    requires
        0 <= n <= ss.len(),
    ensures
        match first_use(ss, n, name, body) {
            Some(r) => exists|i: int|
                n <= i < ss.len() && #[trigger] used_as(ss[i], name, body) == Some(r) && forall|j: int|
                    n <= j < i ==> #[trigger] used_as(ss[j], name, body) is None,
            None => forall|j: int| n <= j < ss.len() ==> #[trigger] used_as(ss[j], name, body) is None,
        },
    decreases ss.len() - n,
{
    if n < ss.len() {
        first_uses_are_found_from(ss, n + 1, name, body);
        match used_as(ss[n], name, body) {
            Some(r) => {
                assert(first_use(ss, n, name, body) == Some(r));
            },
            None => {
                assert(first_use(ss, n, name, body) == first_use(ss, n + 1, name, body));
                if let Some(r) = first_use(ss, n, name, body) {
                    let i = choose|i: int|
                        n + 1 <= i < ss.len() && #[trigger] used_as(ss[i], name, body) == Some(r) && forall|
                            j: int,
                        |
                            n + 1 <= j < i ==> #[trigger] used_as(ss[j], name, body) is None;
                    assert(used_as(ss[i], name, body) == Some(r));
                }
            },
        }
    }
}

/// The type of a parameter is that of its first use in the body.
pub proof fn first_uses_are_found(ss: Seq<TypedExprV>, name: Seq<char>, body: Span)
    ensures
        match first_use(ss, 0, name, body) {
            Some(r) => exists|i: int|
                0 <= i < ss.len() && #[trigger] used_as(ss[i], name, body) == Some(r) && forall|j: int|
                    0 <= j < i ==> #[trigger] used_as(ss[j], name, body) is None,
            None => forall|j: int| 0 <= j < ss.len() ==> #[trigger] used_as(ss[j], name, body) is None,
        },
{
    first_uses_are_found_from(ss, 0, name, body);
}

/// The span of the value that a statement binds to a name at a place.
pub open spec fn bound_at(x: StmtV, off: int, name: Seq<char>) -> Option<Span> {
    match x {
        StmtV::Let { pat: PatternV::Binding(n, b), value: Some(v), .. } => if n == name && b.lo
            <= off <= b.hi {
            Some(v.span())
        } else {
            None
        },
        _ => None,
    }
}

/// The value that is bound to a name at a place is that of the first `let` that binds the name there.
pub proof fn bound_values_are_found(ss: Seq<StmtV>, off: int, name: Seq<char>)
    ensures
        match let_at(ss, off, name) {
            Some(r) => exists|i: int|
                0 <= i < ss.len() && #[trigger] bound_at(ss[i], off, name) == Some(r) && forall|j: int|
                    0 <= j < i ==> #[trigger] bound_at(ss[j], off, name) is None,
            None => forall|j: int| 0 <= j < ss.len() ==> #[trigger] bound_at(ss[j], off, name) is None,
        },
    decreases ss.len(),
{
    if ss.len() > 0 {
        let front = ss.drop_last();
        bound_values_are_found(front, off, name);
        assert(ss[ss.len() - 1] == ss.last());
        match let_at(front, off, name) {
            Some(r) => {
                let i = choose|i: int|
                    0 <= i < front.len() && #[trigger] bound_at(front[i], off, name) == Some(r) && forall|
                        j: int,
                    |
                        0 <= j < i ==> #[trigger] bound_at(front[j], off, name) is None;
                assert(bound_at(ss[i], off, name) == Some(r));
                assert forall|j: int| 0 <= j < i implies #[trigger] bound_at(ss[j], off, name) is None by {
                    assert(bound_at(front[j], off, name) is None);
                }
            },
            None => {
                assert forall|j: int| 0 <= j < front.len() implies #[trigger] bound_at(ss[j], off, name) is None by {
                    assert(bound_at(front[j], off, name) is None);
                }
                assert(let_at(ss, off, name) == bound_at(ss[ss.len() - 1], off, name));
            },
        }
    }
}

/// The span of the value that a statement returns.
pub open spec fn returned_by(x: StmtV) -> Option<Span> {
    match x {
        StmtV::Return(Some(e), _) => Some(e.span()),
        _ => None,
    }
}

/// The value that statements return first is that of the first `return` with a value among them.
pub proof fn first_returns_are_found(ss: Seq<StmtV>)
    ensures
        match first_returned(ss) {
            Some(r) => exists|i: int|
                0 <= i < ss.len() && #[trigger] returned_by(ss[i]) == Some(r) && forall|j: int|
                    0 <= j < i ==> #[trigger] returned_by(ss[j]) is None,
            None => forall|j: int| 0 <= j < ss.len() ==> #[trigger] returned_by(ss[j]) is None,
        },
    decreases ss.len(),
{
    if ss.len() > 0 {
        let front = ss.drop_last();
        first_returns_are_found(front);
        assert(ss[ss.len() - 1] == ss.last());
        match first_returned(front) {
            Some(r) => {
                let i = choose|i: int|
                    0 <= i < front.len() && #[trigger] returned_by(front[i]) == Some(r) && forall|
                        j: int,
                    |
                        0 <= j < i ==> #[trigger] returned_by(front[j]) is None;
                assert(returned_by(ss[i]) == Some(r));
                assert forall|j: int| 0 <= j < i implies #[trigger] returned_by(ss[j]) is None by {
                    assert(returned_by(front[j]) is None);
                }
            },
            None => {
                assert forall|j: int| 0 <= j < front.len() implies #[trigger] returned_by(ss[j]) is None by {
                    assert(returned_by(front[j]) is None);
                }
                assert(first_returned(ss) == returned_by(ss[ss.len() - 1]));
            },
        }
    }
}

/// The parameters and the body of a member, where a place lies in it.
pub open spec fn method_at(x: MemberV, off: int, whole: bool) -> Option<(Seq<ParamV>, BlockV)> {
    match x {
        MemberV::Method(m) => match m.body {
            Some(b) => if whole && m.span.lo <= off <= m.span.hi || !whole && b.span.lo <= off
                <= b.span.hi {
                Some((m.params, b))
            } else {
                None
            },
            None => None,
        },
        MemberV::Field(_) => None,
    }
}

/// The method around a place is the first with a body that reaches from before it to behind it, by its declaration or its body.
pub proof fn methods_are_found_around(ss: Seq<MemberV>, off: int, whole: bool)
    ensures
        match method_around(ss, off, whole) {
            Some(r) => exists|i: int|
                0 <= i < ss.len() && #[trigger] method_at(ss[i], off, whole) == Some(r) && forall|j: int|
                    0 <= j < i ==> #[trigger] method_at(ss[j], off, whole) is None,
            None => forall|j: int| 0 <= j < ss.len() ==> #[trigger] method_at(ss[j], off, whole) is None,
        },
    decreases ss.len(),
{
    if ss.len() > 0 {
        let front = ss.drop_last();
        methods_are_found_around(front, off, whole);
        assert(ss[ss.len() - 1] == ss.last());
        match method_around(front, off, whole) {
            Some(r) => {
                let i = choose|i: int|
                    0 <= i < front.len() && #[trigger] method_at(front[i], off, whole) == Some(r) && forall|
                        j: int,
                    |
                        0 <= j < i ==> #[trigger] method_at(front[j], off, whole) is None;
                assert(method_at(ss[i], off, whole) == Some(r));
                assert forall|j: int| 0 <= j < i implies #[trigger] method_at(ss[j], off, whole) is None by {
                    assert(method_at(front[j], off, whole) is None);
                }
            },
            None => {
                assert forall|j: int| 0 <= j < front.len() implies #[trigger] method_at(ss[j], off, whole) is None by {
                    assert(method_at(front[j], off, whole) is None);
                }
                assert(method_around(ss, off, whole) == method_at(ss[ss.len() - 1], off, whole));
            },
        }
    }
}

/// What is found in a variant.
pub open spec fn variant_method_at(x: VariantV, off: int, whole: bool) -> Option<(Seq<ParamV>, BlockV)> {
    method_around(x.members, off, whole)
}

/// The method of a variant around a place is found in the first variant that has one there.
pub proof fn variant_methods_are_found_around(ss: Seq<VariantV>, off: int, whole: bool)
    ensures
        match variant_around(ss, off, whole) {
            Some(r) => exists|i: int|
                0 <= i < ss.len() && #[trigger] variant_method_at(ss[i], off, whole) == Some(r) && forall|j: int|
                    0 <= j < i ==> #[trigger] variant_method_at(ss[j], off, whole) is None,
            None => forall|j: int| 0 <= j < ss.len() ==> #[trigger] variant_method_at(ss[j], off, whole) is None,
        },
    decreases ss.len(),
{
    if ss.len() > 0 {
        let front = ss.drop_last();
        variant_methods_are_found_around(front, off, whole);
        assert(ss[ss.len() - 1] == ss.last());
        match variant_around(front, off, whole) {
            Some(r) => {
                let i = choose|i: int|
                    0 <= i < front.len() && #[trigger] variant_method_at(front[i], off, whole) == Some(r) && forall|
                        j: int,
                    |
                        0 <= j < i ==> #[trigger] variant_method_at(front[j], off, whole) is None;
                assert(variant_method_at(ss[i], off, whole) == Some(r));
                assert forall|j: int| 0 <= j < i implies #[trigger] variant_method_at(ss[j], off, whole) is None by {
                    assert(variant_method_at(front[j], off, whole) is None);
                }
            },
            None => {
                assert forall|j: int| 0 <= j < front.len() implies #[trigger] variant_method_at(ss[j], off, whole) is None by {
                    assert(variant_method_at(front[j], off, whole) is None);
                }
                assert(variant_around(ss, off, whole) == variant_method_at(ss[ss.len() - 1], off, whole));
            },
        }
    }
}

/// The parameters and the body of a function, or of a method of a type, where a place lies in it.
pub open spec fn function_at(x: TopLevelV, off: int, whole: bool) -> Option<(Seq<ParamV>, BlockV)> {
    match x {
        TopLevelV::Fun(f) => if whole && f.span.lo <= off <= f.span.hi || !whole && f.body.span.lo
            <= off <= f.body.span.hi {
            Some((f.params, f.body))
        } else {
            None
        },
        TopLevelV::Type(t) => match t.body {
            TypeBodyV::Record(ms) => method_around(ms, off, whole),
            TypeBodyV::Sum(vs) => variant_around(vs, off, whole),
            TypeBodyV::Alias(_) => None,
        },
        TopLevelV::Stmt(_) => None,
    }
}

/// The function around a place is the first function or method that reaches from before it to behind it.
pub proof fn functions_are_found_around(ss: Seq<TopLevelV>, off: int, whole: bool)
    ensures
        match around(ss, off, whole) {
            Some(r) => exists|i: int|
                0 <= i < ss.len() && #[trigger] function_at(ss[i], off, whole) == Some(r) && forall|j: int|
                    0 <= j < i ==> #[trigger] function_at(ss[j], off, whole) is None,
            None => forall|j: int| 0 <= j < ss.len() ==> #[trigger] function_at(ss[j], off, whole) is None,
        },
    decreases ss.len(),
{
    if ss.len() > 0 {
        let front = ss.drop_last();
        functions_are_found_around(front, off, whole);
        assert(ss[ss.len() - 1] == ss.last());
        match around(front, off, whole) {
            Some(r) => {
                let i = choose|i: int|
                    0 <= i < front.len() && #[trigger] function_at(front[i], off, whole) == Some(r) && forall|
                        j: int,
                    |
                        0 <= j < i ==> #[trigger] function_at(front[j], off, whole) is None;
                assert(function_at(ss[i], off, whole) == Some(r));
                assert forall|j: int| 0 <= j < i implies #[trigger] function_at(ss[j], off, whole) is None by {
                    assert(function_at(front[j], off, whole) is None);
                }
            },
            None => {
                assert forall|j: int| 0 <= j < front.len() implies #[trigger] function_at(ss[j], off, whole) is None by {
                    assert(function_at(front[j], off, whole) is None);
                }
                assert(around(ss, off, whole) == function_at(ss[ss.len() - 1], off, whole));
            },
        }
    }
}

/// The nearest use of a variable is a use of it; it begins at the place or behind it where any
/// does, and then none lies between; otherwise none lies behind it.
pub proof fn nearest_uses_are_near(
    es: Seq<TypedExprV>,
    n: int,
    off: int,
    name: Seq<char>,
    body: Span,
)
    requires
        0 <= n <= es.len(),
    ensures
        match nearest_use(es, n, off, name, body) {
            Some(b) => 0 <= b < n && used_as(es[b], name, body) == Some(es[b].ty) && forall|j: int|
                0 <= j < n && #[trigger] used_as(es[j], name, body) is Some ==> {
                    if es[b].span.lo >= off {
                        es[j].span.lo < off || es[b].span.lo <= es[j].span.lo
                    } else {
                        es[j].span.lo < off && es[j].span.lo <= es[b].span.lo
                    }
                },
            None => forall|j: int| 0 <= j < n ==> #[trigger] used_as(es[j], name, body) is None,
        },
    decreases n,
{
    if n > 0 {
        nearest_uses_are_near(es, n - 1, off, name, body);
        assert(uses_name(es[n - 1], name, body) == (used_as(es[n - 1], name, body) is Some));
    }
}

/// The receiver that ends at a place is the recorded expression there that begins first.
pub proof fn receivers_are_whole(es: Seq<TypedExprV>, n: int, hi: int)
    requires
        0 <= n <= es.len(),
    ensures
        match widest_ending(es, n, hi) {
            Some(b) => 0 <= b < n && es[b].span.hi == hi && forall|j: int|
                0 <= j < n && (#[trigger] es[j]).span.hi == hi ==> es[b].span.lo <= es[j].span.lo,
            None => forall|j: int| 0 <= j < n ==> (#[trigger] es[j]).span.hi != hi,
        },
    decreases n,
{
    if n > 0 {
        receivers_are_whole(es, n - 1, hi);
    }
}

/// Whether an expression stands in one of some members.
pub open spec fn in_members(e: ExprV, ms: Seq<MemberV>) -> bool {
    exists|i: int|
        0 <= i < ms.len() && (#[trigger] ms[i] matches MemberV::Method(m) && (m.body matches Some(b)
            && stands_in(Piece::Expr(e), b.stmts)))
}

/// Whether an expression stands in a declaration: in a function, in a method of a type or of
/// one of its variants, or in a statement.
pub open spec fn in_declaration(e: ExprV, x: TopLevelV) -> bool {
    match x {
        TopLevelV::Fun(f) => stands_in(Piece::Expr(e), f.body.stmts),
        TopLevelV::Type(t) => match t.body {
            TypeBodyV::Record(ms) => in_members(e, ms),
            TypeBodyV::Sum(vs) => exists|j: int|
                0 <= j < vs.len() && in_members(e, (#[trigger] vs[j]).members),
            TypeBodyV::Alias(_) => false,
        },
        TopLevelV::Stmt(s) => stands_in(Piece::Expr(e), seq![s]),
    }
}

proof fn held<T>(a: Seq<T>, b: Seq<T>, z: T)
    requires
        a.contains(z) || b.contains(z),
    ensures
        (a + b).contains(z),
{
    if a.contains(z) {
        let i = choose|i: int| 0 <= i < a.len() && a[i] == z;
        assert((a + b)[i] == z);
    } else {
        let i = choose|i: int| 0 <= i < b.len() && b[i] == z;
        assert((a + b)[a.len() + i] == z);
    }
}

proof fn members_visited(ms: Seq<MemberV>, e: ExprV)
    requires
        in_members(e, ms),
    ensures
        member_exprs(ms).contains(e),
    decreases ms.len(),
{
    let i = choose|i: int|
        0 <= i < ms.len() && (#[trigger] ms[i] matches MemberV::Method(m) && (m.body matches Some(b)
            && stands_in(Piece::Expr(e), b.stmts)));
    let front = ms.drop_last();
    let last: Seq<ExprV> = match ms.last() {
        MemberV::Method(m) => match m.body {
            Some(b) => stmts_exprs(b.stmts),
            None => Seq::empty(),
        },
        MemberV::Field(_) => Seq::empty(),
    };
    if i < front.len() {
        assert(front[i] == ms[i]);
        members_visited(front, e);
    } else {
        if let MemberV::Method(m) = ms[i] {
            if let Some(b) = m.body {
                every_expression_is_visited(b.stmts, e);
            }
        }
    }
    held(member_exprs(front), last, e);
}

proof fn variants_visited(vs: Seq<VariantV>, e: ExprV, j: int)
    requires
        0 <= j < vs.len(),
        in_members(e, vs[j].members),
    ensures
        variant_exprs(vs).contains(e),
    decreases vs.len(),
{
    let front = vs.drop_last();
    if j < front.len() {
        assert(front[j] == vs[j]);
        variants_visited(front, e, j);
    } else {
        members_visited(vs[j].members, e);
    }
    held(variant_exprs(front), member_exprs(vs.last().members), e);
}

/// A walk over a document comes to every expression that stands in one of its declarations,
/// at any depth.
pub proof fn documents_are_walked(items: Seq<TopLevelV>, k: int, e: ExprV)
    requires
        0 <= k < items.len(),
        in_declaration(e, items[k]),
    ensures
        module_exprs(items).contains(e),
    decreases items.len(),
{
    let front = items.drop_last();
    let last: Seq<ExprV> = match items.last() {
        TopLevelV::Fun(f) => stmts_exprs(f.body.stmts),
        TopLevelV::Type(t) => match t.body {
            TypeBodyV::Record(ms) => member_exprs(ms),
            TypeBodyV::Sum(vs) => variant_exprs(vs),
            TypeBodyV::Alias(_) => Seq::empty(),
        },
        TopLevelV::Stmt(s) => stmt_exprs(s),
    };
    if k < front.len() {
        assert(front[k] == items[k]);
        documents_are_walked(front, k, e);
    } else {
        match items[k] {
            TopLevelV::Fun(f) => every_expression_is_visited(f.body.stmts, e),
            TopLevelV::Type(t) => match t.body {
                TypeBodyV::Record(ms) => members_visited(ms, e),
                TypeBodyV::Sum(vs) => {
                    let j = choose|j: int|
                        0 <= j < vs.len() && in_members(e, (#[trigger] vs[j]).members);
                    variants_visited(vs, e, j);
                },
                TypeBodyV::Alias(_) => {},
            },
            TopLevelV::Stmt(s) => {
                every_expression_is_visited(seq![s], e);
                assert(seq![s].drop_last() =~= Seq::<StmtV>::empty());
                assert(stmts_exprs(Seq::<StmtV>::empty()) =~= Seq::<ExprV>::empty());
                assert(stmts_exprs(seq![s]) =~= stmt_exprs(s));
            },
        }
    }
    held(module_exprs(front), last, e);
}

proof fn call_types_hold(xs: Seq<ExprV>, n: int, es: Seq<TypedExprV>, name: Seq<char>, t: TypeV)
    requires
        0 <= n <= xs.len(),
    ensures
        call_types(xs, n, es, name).contains(t) <==> exists|i: int|
            0 <= i < n && calls_name(#[trigger] xs[i], name) && (with_span(
                es,
                0,
                xs[i].span(),
                true,
            ) matches Some(e) && e.ty == t),
    decreases n,
{
    let all = call_types(xs, n, es, name);
    if n > 0 {
        call_types_hold(xs, n - 1, es, name, t);
        let rest = call_types(xs, n - 1, es, name);
        if rest.contains(t) {
            let k = choose|k: int| 0 <= k < rest.len() && rest[k] == t;
            assert(all[k] == t);
        } else if all.contains(t) {
            let k = choose|k: int| 0 <= k < all.len() && all[k] == t;
            if k < rest.len() {
                assert(rest[k] == t);
            }
            assert(calls_name(xs[n - 1], name));
        }
        if calls_name(xs[n - 1], name) && (with_span(es, 0, xs[n - 1].span(), true) matches Some(e)
            && e.ty == t) {
            assert(all[all.len() - 1] == t);
        }
    }
}

/// The type that a function returns, by its calls, is one that every recorded call has; and
/// where all have it and there is one, it is found.
pub proof fn returns_are_agreed_on(
    items: Seq<TopLevelV>,
    es: Seq<TypedExprV>,
    name: Seq<char>,
    t: TypeV,
)
    ensures
        returned_type(items, es, name) == Some(t) <==> {
            let xs = module_exprs(items);
            &&& exists|i: int|
                0 <= i < xs.len() && calls_name(#[trigger] xs[i], name) && with_span(
                    es,
                    0,
                    xs[i].span(),
                    true,
                ) is Some
            &&& forall|i: int|
                0 <= i < xs.len() && calls_name(#[trigger] xs[i], name) ==> (with_span(
                    es,
                    0,
                    xs[i].span(),
                    true,
                ) matches Some(e) ==> e.ty == t)
        },
{
    let xs = module_exprs(items);
    let n = xs.len() as int;
    let ts = call_types(xs, n, es, name);
    if returned_type(items, es, name) == Some(t) {
        assert(ts[0] == t);
        assert(ts.contains(t));
        call_types_hold(xs, n, es, name, t);
        assert forall|i: int| 0 <= i < xs.len() && calls_name(#[trigger] xs[i], name) implies (
        with_span(es, 0, xs[i].span(), true) matches Some(e) ==> e.ty == t) by {
            if let Some(e) = with_span(es, 0, xs[i].span(), true) {
                call_types_hold(xs, n, es, name, e.ty);
                let k = choose|k: int| 0 <= k < ts.len() && ts[k] == e.ty;
                assert(ts[k] == ts[0]);
            }
        }
    }
    if (exists|i: int|
        0 <= i < xs.len() && calls_name(#[trigger] xs[i], name) && with_span(
            es,
            0,
            xs[i].span(),
            true,
        ) is Some) && (forall|i: int|
        0 <= i < xs.len() && calls_name(#[trigger] xs[i], name) ==> (with_span(
            es,
            0,
            xs[i].span(),
            true,
        ) matches Some(e) ==> e.ty == t)) {
        let i = choose|i: int|
            0 <= i < xs.len() && calls_name(#[trigger] xs[i], name) && with_span(
                es,
                0,
                xs[i].span(),
                true,
            ) is Some;
        call_types_hold(xs, n, es, name, t);
        assert(ts.contains(t));
        assert forall|k: int| 0 <= k < ts.len() implies #[trigger] ts[k] == t by {
            assert(ts.contains(ts[k]));
            call_types_hold(xs, n, es, name, ts[k]);
        }
        assert(all_same(ts));
    }
}

} // verus!
