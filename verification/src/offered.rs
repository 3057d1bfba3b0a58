//! What completion offers: every member that can be named at the cursor, under its own
//! name, and nothing that is hidden there.

use vstd::prelude::*;
use crate::completion::{builtin_members, class_items, deduped, deduped_keeps, field_items, labels, method_items, record_items, slot_names, value_items, CompletionItemKind, ItemV};
use crate::hir::{type_with_id, FieldInfoV, FunInfoV, MethodInfoV, ProgramV, TypeInfoV, TypeKindV};
use crate::hover::SchemeV;
use crate::nav::bare;
use crate::render::{is_public, NamerV};
use crate::table::lookup;
use crate::text::has_prefix;
use crate::types::{class_of, NominalV, TypeV};

verus! {

/// Whether a name is hidden outside of its type.
pub open spec fn hidden(name: Seq<char>) -> bool {
    name.len() > 0 && name[0] == '_'
}

/// A name is public exactly where it is not hidden.
pub proof fn hidden_is_not_public(name: Seq<char>)
    ensures
        is_public(name) == !hidden(name),
{
    reveal_strlit("_");
    if name.len() > 0 {
        assert(name.take(1)[0] == name[0]);
        if hidden(name) {
            assert(name.take(1) =~= "_"@);
        }
        if has_prefix(name, "_"@) {
            assert("_"@[0] == '_');
        }
    }
}

/// Whether a label is offered.
pub open spec fn offers(items: Seq<ItemV>, label: Seq<char>) -> bool {
    exists|i: int| 0 <= i < items.len() && (#[trigger] items[i]).label == label
}

proof fn offers_is_labels(items: Seq<ItemV>, label: Seq<char>)
    ensures
        offers(items, label) == labels(items).contains(label),
{
    let ls = labels(items);
    if offers(items, label) {
        let i = choose|i: int| 0 <= i < items.len() && (#[trigger] items[i]).label == label;
        assert(ls[i] == label);
    }
    if ls.contains(label) {
        let i = choose|i: int| 0 <= i < ls.len() && ls[i] == label;
        assert(items[i].label == label);
    }
}

proof fn offers_either(a: Seq<ItemV>, b: Seq<ItemV>, label: Seq<char>)
    ensures
        offers(a + b, label) == (offers(a, label) || offers(b, label)),
{
    let s = a + b;
    if offers(a, label) {
        let i = choose|i: int| 0 <= i < a.len() && (#[trigger] a[i]).label == label;
        assert(s[i].label == label);
    }
    if offers(b, label) {
        let i = choose|i: int| 0 <= i < b.len() && (#[trigger] b[i]).label == label;
        assert(s[a.len() + i].label == label);
    }
    if offers(s, label) {
        let i = choose|i: int| 0 <= i < s.len() && (#[trigger] s[i]).label == label;
        if i < a.len() {
            assert(a[i].label == label);
        } else {
            assert(b[i - a.len()].label == label);
        }
    }
}

/// Whether some field has a name.
pub open spec fn has_field_named(fs: Seq<FieldInfoV>, name: Seq<char>) -> bool {
    exists|i: int| 0 <= i < fs.len() && (#[trigger] fs[i]).name == name
}

/// Whether some method has a name.
pub open spec fn has_method_named(ms: Seq<(Seq<char>, MethodInfoV)>, name: Seq<char>) -> bool {
    exists|i: int| 0 <= i < ms.len() && (#[trigger] ms[i]).0 == name
}

proof fn offers_pushed(items: Seq<ItemV>, it: ItemV, label: Seq<char>)
    ensures
        offers(items.push(it), label) == (offers(items, label) || it.label == label),
{
    let s = items.push(it);
    if offers(items, label) {
        let i = choose|i: int| 0 <= i < items.len() && (#[trigger] items[i]).label == label;
        assert(s[i].label == label);
    }
    if it.label == label {
        assert(s[items.len() as int].label == label);
    }
    if offers(s, label) {
        let i = choose|i: int| 0 <= i < s.len() && (#[trigger] s[i]).label == label;
        if i < items.len() {
            assert(items[i].label == label);
        }
    }
}

proof fn fields_offered(
    fs: Seq<FieldInfoV>,
    subst: Seq<(Seq<char>, TypeV)>,
    private: bool,
    st: NamerV,
    label: Seq<char>,
)
    ensures
        offers(field_items(fs, subst, private, st).0, label) == (has_field_named(fs, label) && (
        private || !hidden(label))),
        forall|i: int|
            0 <= i < field_items(fs, subst, private, st).0.len() ==> (#[trigger] field_items(
                fs,
                subst,
                private,
                st,
            ).0[i]).kind == CompletionItemKind::Field,
    decreases fs.len(),
{
    let items = field_items(fs, subst, private, st).0;
    if fs.len() > 0 {
        let rest = fs.drop_last();
        let f = fs.last();
        fields_offered(rest, subst, private, st, label);
        hidden_is_not_public(f.name);
        let r = field_items(rest, subst, private, st).0;
        if items != r {
            assert(items.drop_last() =~= r);
            assert(items =~= r.push(items.last()));
            offers_pushed(r, items.last(), label);
            assert(items.last().label == f.name);
        }
        if has_field_named(rest, label) {
            let i = choose|i: int| 0 <= i < rest.len() && (#[trigger] rest[i]).name == label;
            assert(fs[i].name == label);
        }
        if f.name == label {
            assert(fs[fs.len() - 1].name == label);
        }
        if has_field_named(fs, label) && f.name != label {
            let i = choose|i: int| 0 <= i < fs.len() && (#[trigger] fs[i]).name == label;
            assert(rest[i].name == label);
        }
    }
}

proof fn methods_offered(
    ms: Seq<(Seq<char>, MethodInfoV)>,
    scheme: Option<SchemeV>,
    subst: Seq<(Seq<char>, TypeV)>,
    private: bool,
    label: Seq<char>,
)
    ensures
        offers(method_items(ms, scheme, subst, private), label) == (has_method_named(ms, label) && (
        private || !hidden(label))),
        forall|i: int|
            0 <= i < method_items(ms, scheme, subst, private).len() ==> (#[trigger] method_items(
                ms,
                scheme,
                subst,
                private,
            )[i]).kind == CompletionItemKind::Method,
    decreases ms.len(),
{
    let items = method_items(ms, scheme, subst, private);
    if ms.len() > 0 {
        let rest = ms.drop_last();
        let name = ms.last().0;
        methods_offered(rest, scheme, subst, private, label);
        hidden_is_not_public(name);
        let r = method_items(rest, scheme, subst, private);
        if items != r {
            assert(items =~= r.push(items.last()));
            offers_pushed(r, items.last(), label);
            assert(items.last().label == name);
        }
        if has_method_named(rest, label) {
            let i = choose|i: int| 0 <= i < rest.len() && (#[trigger] rest[i]).0 == label;
            assert(ms[i].0 == label);
        }
        if name == label {
            assert(ms[ms.len() - 1].0 == label);
        }
        if has_method_named(ms, label) && name != label {
            let i = choose|i: int| 0 <= i < ms.len() && (#[trigger] ms[i]).0 == label;
            assert(rest[i].0 == label);
        }
    }
}

/// The members of a value of a record type are offered under their names: every field and
/// every method whose name does not begin with an underscore, the others only when they
/// are asked for, and nothing else.
pub proof fn members_are_offered(
    p: ProgramV,
    schemes: Seq<(Seq<char>, SchemeV)>,
    n: NominalV,
    info: TypeInfoV,
    fields: Seq<FieldInfoV>,
    methods: Seq<(Seq<char>, MethodInfoV)>,
    private: bool,
    label: Seq<char>,
)
    requires
        type_with_id(p.types, n.id) == Some(info),
        info.kind == (TypeKindV::Record { fields, methods }),
    ensures
        offers(value_items(p, schemes, TypeV::Record(n), private), label) == ((has_field_named(
            fields,
            label,
        ) || has_method_named(methods, label)) && (private || !hidden(label))),
{
    let t = TypeV::Record(n);
    assert(bare(t) == t);
    let st = slot_names(info.slots);
    let a = field_items(fields, n.subst, private, st).0;
    let b = method_items(methods, lookup(schemes, info.name), n.subst, private);
    let builtin = builtin_members(t);
    let record = record_items(p, schemes, t, private);
    assert(record == a + b);
    assert(builtin =~= Seq::empty());
    assert(class_of(t) is None);
    let all = builtin + record + Seq::<ItemV>::empty();
    assert(all =~= record);
    fields_offered(fields, n.subst, private, st, label);
    methods_offered(methods, lookup(schemes, info.name), n.subst, private, label);
    offers_either(a, b, label);
    deduped_keeps(record, label);
    offers_is_labels(record, label);
    offers_is_labels(deduped(record), label);
}

/// A value behind `const`, `mut`, `ref` or `?` has the members of the value.
pub proof fn members_are_seen_through(
    p: ProgramV,
    schemes: Seq<(Seq<char>, SchemeV)>,
    t: TypeV,
    private: bool,
)
    ensures
        value_items(p, schemes, TypeV::ConstOf(Box::new(t)), private) == value_items(
            p,
            schemes,
            t,
            private,
        ),
        value_items(p, schemes, TypeV::Mut(Box::new(t)), private) == value_items(
            p,
            schemes,
            t,
            private,
        ),
        value_items(p, schemes, TypeV::Ref(Box::new(t)), private) == value_items(
            p,
            schemes,
            t,
            private,
        ),
        value_items(p, schemes, TypeV::Nullable(Box::new(t)), private) == value_items(
            p,
            schemes,
            t,
            private,
        ),
{
}

/// Whether a method of a class has a name.
pub open spec fn has_class_method(
    ms: Seq<((Seq<char>, Seq<char>), Seq<char>)>,
    class: Seq<char>,
    name: Seq<char>,
) -> bool {
    exists|i: int| 0 <= i < ms.len() && (#[trigger] ms[i]).0 == (class, name)
}

proof fn class_offered(
    ms: Seq<((Seq<char>, Seq<char>), Seq<char>)>,
    fs: Seq<(Seq<char>, FunInfoV)>,
    class: Seq<char>,
    private: bool,
    label: Seq<char>,
)
    ensures
        offers(class_items(ms, fs, class, private), label) == (has_class_method(ms, class, label)
            && (private || !hidden(label))),
    decreases ms.len(),
{
    let items = class_items(ms, fs, class, private);
    if ms.len() > 0 {
        let rest = ms.drop_last();
        let (c, name) = ms.last().0;
        class_offered(rest, fs, class, private, label);
        hidden_is_not_public(name);
        let r = class_items(rest, fs, class, private);
        if items != r {
            assert(items =~= r.push(items.last()));
            offers_pushed(r, items.last(), label);
            assert(items.last().label == name);
        }
        if has_class_method(rest, class, label) {
            let i = choose|i: int|
                0 <= i < rest.len() && (#[trigger] rest[i]).0 == (class, label);
            assert(ms[i].0 == (class, label));
        }
        if (c, name) == (class, label) {
            assert(ms[ms.len() - 1].0 == (class, label));
        }
        if has_class_method(ms, class, label) && (c, name) != (class, label) {
            let i = choose|i: int| 0 <= i < ms.len() && (#[trigger] ms[i]).0 == (class, label);
            assert(rest[i].0 == (class, label));
        }
    }
}

/// The methods that every array or text has.
pub open spec fn inherent(t: TypeV, name: Seq<char>) -> bool {
    match t {
        TypeV::Slice(_) => name == "push"@ || name == "pop"@ || name == "insert"@ || name
            == "remove"@ || name == "len"@,
        TypeV::Array(..) => name == "len"@,
        TypeV::Str => name == "len"@,
        _ => false,
    }
}

proof fn inherent_offered(t: TypeV, label: Seq<char>)
    ensures
        offers(builtin_members(t), label) == inherent(t, label),
{
    let items = builtin_members(t);
    match t {
        TypeV::Slice(_) => {
            assert(items.len() == 5);
            assert(items[0].label == "push"@);
            assert(items[1].label == "pop"@);
            assert(items[2].label == "insert"@);
            assert(items[3].label == "remove"@);
            assert(items[4].label == "len"@);
        },
        TypeV::Array(..) => {
            assert(items.len() == 1);
            assert(items[0].label == "len"@);
        },
        TypeV::Str => {
            assert(items.len() == 1);
            assert(items[0].label == "len"@);
        },
        _ => {
            assert(items.len() == 0);
        },
    }
}

/// A number, text or array is offered what every such value has, and the methods that are
/// implemented for its class.
pub proof fn class_members_are_offered(
    p: ProgramV,
    schemes: Seq<(Seq<char>, SchemeV)>,
    t: TypeV,
    private: bool,
    label: Seq<char>,
)
    requires
        class_of(t) is Some,
    ensures
        offers(value_items(p, schemes, t, private), label) == (inherent(t, label) || (
        has_class_method(p.primitive_methods, class_of(t)->0, label) && (private || !hidden(
            label,
        )))),
{
    assert(bare(t) == t);
    let a = builtin_members(t);
    let record = record_items(p, schemes, t, private);
    assert(record =~= Seq::empty());
    let c = class_items(p.primitive_methods, p.functions, class_of(t)->0, private);
    assert(a + record =~= a);
    inherent_offered(t, label);
    class_offered(p.primitive_methods, p.functions, class_of(t)->0, private, label);
    offers_either(a, c, label);
    deduped_keeps(a + c, label);
    offers_is_labels(a + c, label);
    offers_is_labels(deduped(a + c), label);
}

} // verus!
