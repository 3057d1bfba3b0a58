//! Go-to-definition.
//!
//! Resolution order at the cursor: a member access (`recv.name`) resolves through the
//! receiver's type to a method (or the owning type for a field); otherwise the identifier
//! resolves as a local binding in the enclosing function, then a free function, then a
//! type. Local resolution beats the symbol tables so a local shadowing a function jumps
//! to the local.

use vstd::prelude::*;
use crate::analysis::{FullAnalysis, SourceMap};
use crate::ast::{params_view, stmts_view, Expr, ExprV, Module, TopLevelV};
use crate::bindings::{bound_in_params, bound_in_stmts, named_spans, push_params_bindings, push_stmts_bindings};
use crate::document::{index_of, lines, on_boundary, position_of, Document, LineIndex, Position, Range};
use crate::hir::{field_infos_view, function_in, named_method_infos_view, type_in, type_with_id, variant_infos_view, FieldInfo, FieldInfoV, ProgramV, TypeInfo, TypeInfoV, TypeKind, TypeKindV, VariantInfo, VariantInfoV};
use crate::nav::{around, find_around, ident_at, ident_in, module_exprs, smallest_at, smallest_typed_at, typed_at_span, walk_exprs, with_span};
use crate::offsets::byte_off;
use crate::span::Span;
use crate::table::{find_key, keys_of, lookup, names};
use crate::text::{str_eq, texts};
use crate::traverse::expr_refs;
use crate::typed::{TypedExprKind, TypedExprKindV, TypedExprV};
use crate::types::{Type, TypeV};

verus! {

// ---- local bindings ----

/// Among the first `n` bindings, the one of `name` that begins last at or before `off`;
/// of those that begin at one place, the first.
pub open spec fn nearest_binding(
    bs: Seq<(Seq<char>, Span)>,
    n: int,
    off: int,
    name: Seq<char>,
) -> Option<Span>
    decreases n,
{
    if n <= 0 {
        None
    } else {
        let best = nearest_binding(bs, n - 1, off, name);
        let (bname, span) = bs[n - 1];
        if bname == name && span.lo <= off && (match best {
            Some(f) => span.lo > f.lo,
            None => true,
        }) {
            Some(span)
        } else {
            best
        }
    }
}

/// The nearest binding of `name` visible at `off` within the function whose body holds
/// it.
pub open spec fn local_binding_of(items: Seq<TopLevelV>, off: int, name: Seq<char>) -> Option<
    Span,
> {
    match around(items, off, false) {
        Some((params, body)) => {
            let bs = bound_in_params(params) + bound_in_stmts(body.stmts, true);
            nearest_binding(bs, bs.len() as int, off, name)
        },
        None => None,
    }
}

/// Find the nearest binding of `name` visible at `global_off` within the enclosing
/// function. Approximates lexical scope by the nearest preceding binding in the function,
/// which is right in the absence of inner-block shadowing after the use.
pub fn local_binding(main_ast: &Module, global_off: usize, name: &str) -> (r: Option<Span>)
    ensures
        r == local_binding_of(main_ast@.items, global_off as int, name@),
{
    let (params, body) = match find_around(main_ast, global_off, false) {
        Some(p) => p,
        None => {
            return None;
        },
    };
    let mut bs: Vec<(String, Span)> = Vec::new();
    assert(named_spans(bs@) =~= Seq::empty());
    push_params_bindings(params, &mut bs);
    assert(body@.stmts == stmts_view(body.stmts@));
    push_stmts_bindings(&body.stmts, true, &mut bs);
    let ghost bv = named_spans(bs@);
    assert(bv =~= bound_in_params(params_view(params@)) + bound_in_stmts(body@.stmts, true));
    let mut found: Option<Span> = None;
    for i in 0..bs.len()
        invariant
            bv == named_spans(bs@),
            found == nearest_binding(bv, i as int, global_off as int, name@),
    {
        assert(bv[i as int] == (bs[i as int].0@, bs[i as int].1));
        let span = bs[i].1;
        if str_eq(bs[i].0.as_str(), name) && span.lo <= global_off {
            let later = match found {
                Some(f) => span.lo > f.lo,
                None => true,
            };
            if later {
                found = Some(span);
            }
        }
    }
    found
}

/// The nearest binding has the name asked for, begins at or before the offset, and no
/// other such binding begins later.
pub proof fn nearest_binding_is_latest(
    bs: Seq<(Seq<char>, Span)>,
    n: int,
    off: int,
    name: Seq<char>,
    i: int,
)
    requires
        0 <= i < n <= bs.len(),
        bs[i].0 == name,
        bs[i].1.lo <= off,
    ensures
        nearest_binding(bs, n, off, name) matches Some(s) && s.lo <= off && bs[i].1.lo <= s.lo
            && bs.contains((name, s)),
    decreases n,
{
    nearest_binding_is_one(bs, n - 1, off, name);
    assert(bs[n - 1] == (bs[n - 1].0, bs[n - 1].1));
    if i < n - 1 {
        nearest_binding_is_latest(bs, n - 1, off, name, i);
    }
}

proof fn nearest_binding_is_one(bs: Seq<(Seq<char>, Span)>, n: int, off: int, name: Seq<char>)
    requires
        0 <= n <= bs.len(),
    ensures
        nearest_binding(bs, n, off, name) matches Some(s) ==> s.lo <= off && bs.contains((name, s)),
    decreases n,
{
    if n > 0 {
        nearest_binding_is_one(bs, n - 1, off, name);
        assert(bs.contains(bs[n - 1]));
    }
}

// ---- targets ----

/// A place in one of the source files: byte offsets within the `file`-th file.
#[derive(Clone, Copy, Debug, PartialEq, Eq, Structural)]
pub struct Target {
    pub file: usize,
    pub lo: usize,
    pub hi: usize,
}

/// The last file that begins at or before a global offset.
pub open spec fn file_at(bases: Seq<usize>, n: int, off: int) -> Option<int>
    decreases n,
{
    if n <= 0 {
        None
    } else if bases[n - 1] <= off {
        Some(n - 1)
    } else {
        file_at(bases, n - 1, off)
    }
}

impl SourceMap {
    /// Where the files begin.
    pub open spec fn bases(&self) -> Seq<usize> {
        Seq::new(self.files@.len(), |i: int| self.files@[i].base)
    }

    /// Which files can be opened.
    pub open spec fn openable(&self) -> Seq<bool> {
        Seq::new(self.files@.len(), |i: int| self.files@[i].path is Some)
    }
}

/// The place a global span stands for; `None` in a file that cannot be opened.
pub open spec fn target_of(bases: Seq<usize>, openable: Seq<bool>, span: Span) -> Option<Target> {
    match file_at(bases, bases.len() as int, span.lo as int) {
        Some(i) => if openable[i] {
            Some(
                Target {
                    file: i as usize,
                    lo: (span.lo - bases[i]) as usize,
                    hi: (span.lo - bases[i] + (if span.hi >= span.lo {
                        span.hi - span.lo
                    } else {
                        0
                    })) as usize,
                },
            )
        } else {
            None
        },
        None => None,
    }
}

/// Turn a global span into a place in the file it lies in. `None` for a span in a file
/// embedded in the compiler (there is no file to open).
pub fn locate(sources: &SourceMap, span: Span) -> (r: Option<Target>)
    ensures
        r == target_of(sources.bases(), sources.openable(), span),
{
    let ghost bases = sources.bases();
    let mut n: usize = sources.files.len();
    while n > 0
        invariant
            n <= sources.files.len(),
            bases == sources.bases(),
            file_at(bases, bases.len() as int, span.lo as int) == file_at(
                bases,
                n as int,
                span.lo as int,
            ),
        decreases n,
    {
        let base: usize = sources.files[n - 1].base;
        assert(bases[n - 1] == base);
        if base <= span.lo {
            assert(sources.openable()[n - 1] == (sources.files@[n - 1].path is Some));
            if sources.files[n - 1].path.is_none() {
                return None;
            }
            let lo: usize = span.lo - base;
            let hi: usize = if span.hi >= span.lo {
                span.hi - base
            } else {
                lo
            };
            return Some(Target { file: n - 1, lo, hi });
        }
        n = n - 1;
    }
    None
}

impl Target {
    /// Whether the place lies between characters of its file, so that it has a line and
    /// a column.
    pub open spec fn placed(self, sources: &SourceMap) -> bool {
        &&& self.file < sources.files@.len()
        &&& {
            let cs = sources.files@[self.file as int].src@;
            &&& on_boundary(cs, self.lo as int)
            &&& on_boundary(cs, self.hi as int)
            &&& byte_off(cs, cs.len() as int) <= u32::MAX
        }
    }

    /// The range of lines and columns.
    pub fn range(self, sources: &SourceMap) -> (r: Range)
        requires
            self.placed(sources),
        ensures
            ({
                let cs = sources.files@[self.file as int].src@;
                &&& r.start.is(position_of(cs, crate::document::index_at(cs, self.lo as int)))
                &&& r.end.is(position_of(cs, crate::document::index_at(cs, self.hi as int)))
            }),
    {
        let src = sources.files[self.file].src.as_str();
        LineIndex::new(src).range_of(src, self.lo, self.hi)
    }

    /// The place as an editor opens it, where its file has this address. `None` without
    /// an address.
    pub fn at_address(self, sources: &SourceMap, address: Option<String>) -> (r: Option<Location>)
        requires
            self.placed(sources),
        ensures
            match address {
                Some(uri) => r matches Some(l) && l.uri@ == uri@ && self.ranged(sources, l.range),
                None => r is None,
            },
    {
        match address {
            Some(uri) => Some(Location { uri, range: self.range(sources) }),
            None => None,
        }
    }

    /// Whether a range is that of the place.
    pub open spec fn ranged(self, sources: &SourceMap, range: Range) -> bool {
        let cs = sources.files@[self.file as int].src@;
        &&& range.start.is(position_of(cs, crate::document::index_at(cs, self.lo as int)))
        &&& range.end.is(position_of(cs, crate::document::index_at(cs, self.hi as int)))
    }

    /// The path of the file that holds the place.
    pub fn path(self, sources: &SourceMap) -> (r: Option<&str>)
        requires
            self.placed(sources),
        ensures
            match sources.files@[self.file as int].path {
                Some(p) => r matches Some(t) && t@ == p@,
                None => r is None,
            },
    {
        match &sources.files[self.file].path {
            Some(p) => Some(p.as_str()),
            None => None,
        }
    }

    /// The place as an editor opens it: the address of the file at [`Target::path`], and
    /// the range. `None` for a file without a path, or with one that has no address.
    pub fn location(self, sources: &SourceMap) -> (r: Option<Location>)
        requires
            self.placed(sources),
        ensures
            sources.files@[self.file as int].path is None ==> r is None,
            r matches Some(l) ==> is_file_address(l.uri@) && self.ranged(sources, l.range),
    {
        match self.path(sources) {
            Some(path) => self.at_address(sources, file_address(path)),
            None => None,
        }
    }
}

/// A range in a file that an editor can open.
#[derive(Debug, PartialEq)]
pub struct Location {
    pub uri: String,
    pub range: Range,
}

/// Whether a character stands for itself in the path of an address, or begins the code of
/// another one.
pub open spec fn addressable(c: char) -> bool {
    ||| 'a' <= c <= 'z'
    ||| 'A' <= c <= 'Z'
    ||| '0' <= c <= '9'
    ||| c == '-'
    ||| c == '.'
    ||| c == '_'
    ||| c == '~'
    ||| c == '/'
    ||| c == '%'
}

/// Whether an address is one of a file: a path behind `file://`, with every character that
/// could mean something else in an address encoded.
pub open spec fn is_file_address(uri: Seq<char>) -> bool {
    &&& "file://"@.is_prefix_of(uri)
    &&& forall|i: int| "file://"@.len() <= i < uri.len() ==> addressable(#[trigger] uri[i])
}

/// The address of a file, by `Uri::from_file_path` of `tower-lsp-server`: `file://` and
/// the path, in which letters, digits, `-`, `.`, `_`, `~` and `/` stand for themselves and
/// the bytes of every other character are written in hexadecimal behind `%`. Which path
/// that is, is left unsaid: it has the platform's form, and a path that is not absolute is
/// looked up on disk, which may fail.
#[verifier::external_body]
fn file_address(path: &str) -> (r: Option<String>)
    ensures
        r matches Some(uri) ==> is_file_address(uri@),
{
    match tower_lsp_server::ls_types::Uri::from_file_path(path) {
        Some(uri) => Some(uri.as_str().to_string()),
        None => None,
    }
}

// ---- members ----

/// The id of the nominal type behind nullability and constness.
pub open spec fn nominal_id_of(t: TypeV) -> Option<i32>
    decreases t,
{
    match t {
        TypeV::Record(n) => Some(n.id),
        TypeV::Sum(n) => Some(n.id),
        TypeV::Nullable(i) => nominal_id_of(*i),
        TypeV::ConstOf(i) => nominal_id_of(*i),
        _ => None,
    }
}

fn nominal_id(ty: &Type) -> (r: Option<i32>)
    ensures
        r == nominal_id_of(ty@),
    decreases *ty,
{
    match ty {
        Type::Record(n) => Some(n.id),
        Type::Sum(n) => Some(n.id),
        Type::Nullable(i) => nominal_id(i),
        Type::ConstOf(i) => nominal_id(i),
        _ => None,
    }
}

/// Whether a field has the given name.
pub open spec fn field_named(fs: Seq<FieldInfoV>, name: Seq<char>) -> bool {
    exists|i: int| 0 <= i < fs.len() && (#[trigger] fs[i]).name == name
}

/// Whether a field of some variant has the given name.
pub open spec fn variant_field_named(vs: Seq<VariantInfoV>, name: Seq<char>) -> bool {
    exists|i: int| 0 <= i < vs.len() && field_named((#[trigger] vs[i]).fields, name)
}

/// Whether a type has a field with the given name, in any variant of a sum.
pub open spec fn has_field_named(info: TypeInfoV, name: Seq<char>) -> bool {
    match info.kind {
        TypeKindV::Record { fields, .. } => field_named(fields, name),
        TypeKindV::Sum { variants } => variant_field_named(variants, name),
    }
}

fn any_field(fs: &Vec<FieldInfo>, name: &str) -> (r: bool)
    ensures
        r == field_named(field_infos_view(fs@), name@),
{
    let ghost fv = field_infos_view(fs@);
    for i in 0..fs.len()
        invariant
            fv == field_infos_view(fs@),
            forall|j: int| 0 <= j < i ==> (#[trigger] fv[j]).name != name@,
    {
        assert(fv[i as int] == fs[i as int]@);
        if str_eq(fs[i].name.as_str(), name) {
            return true;
        }
    }
    false
}

fn any_variant_field(variants: &Vec<VariantInfo>, name: &str) -> (r: bool)
    ensures
        r == variant_field_named(variant_infos_view(variants@), name@),
{
    let ghost vv = variant_infos_view(variants@);
    for i in 0..variants.len()
        invariant
            vv == variant_infos_view(variants@),
            forall|j: int| 0 <= j < i ==> !field_named((#[trigger] vv[j]).fields, name@),
    {
        assert(vv[i as int] == variants[i as int]@);
        if any_field(&variants[i].fields, name) {
            return true;
        }
    }
    false
}

fn has_field(info: &TypeInfo, name: &str) -> (r: bool)
    ensures
        r == has_field_named(info@, name@),
{
    match &info.kind {
        TypeKind::Record { fields, .. } => any_field(fields, name),
        TypeKind::Sum { variants } => any_variant_field(variants, name),
    }
}

/// The receiver's span of the last field access, among the first `n` expressions, whose
/// whole span is `field_span`.
pub open spec fn receiver_span(xs: Seq<ExprV>, n: int, field_span: Span) -> Option<Span>
    decreases n,
{
    if n <= 0 {
        None
    } else {
        match xs[n - 1] {
            ExprV::Field(recv, _, s) if s == field_span => Some(recv.span()),
            _ => receiver_span(xs, n - 1, field_span),
        }
    }
}

/// The receiver's span of a field access that is `e` itself.
pub open spec fn receiver_here(e: ExprV, field_span: Span) -> Option<Span> {
    match e {
        ExprV::Field(recv, _, s) => if s == field_span {
            Some(recv.span())
        } else {
            None
        },
        _ => None,
    }
}

fn find_receiver_here(e: &Expr, field_span: Span) -> (r: Option<Span>)
    ensures
        r == receiver_here(e@, field_span),
{
    match e {
        Expr::Field(recv, _, s) => if *s == field_span {
            Some(recv.span())
        } else {
            None
        },
        _ => None,
    }
}

/// Find the receiver span of the field access whose whole span is `field_span`.
fn receiver_of_field(main_ast: &Module, field_span: Span) -> (r: Option<Span>)
    ensures
        r == receiver_span(
            module_exprs(main_ast@.items),
            module_exprs(main_ast@.items).len() as int,
            field_span,
        ),
{
    let xs = walk_exprs(main_ast);
    let ghost xv = expr_refs(xs@);
    let mut n: usize = xs.len();
    while n > 0
        invariant
            n <= xs.len(),
            xv == expr_refs(xs@),
            xv == module_exprs(main_ast@.items),
            receiver_span(xv, xv.len() as int, field_span) == receiver_span(
                xv,
                n as int,
                field_span,
            ),
        decreases n,
    {
        assert(xv[n - 1] == xs[n - 1]@);
        if let Some(s) = find_receiver_here(xs[n - 1], field_span) {
            return Some(s);
        }
        n = n - 1;
    }
    None
}

/// The path of the document's own module.
pub open spec fn main_path() -> Seq<Seq<char>> {
    seq!["main"@]
}

/// The facts a definition is looked up in.
pub ghost struct Facts {
    pub program: ProgramV,
    pub typed: Seq<TypedExprV>,
    pub items: Seq<TopLevelV>,
    pub bases: Seq<usize>,
    pub openable: Seq<bool>,
}

impl FullAnalysis {
    /// The facts a definition is looked up in.
    pub open spec fn facts(&self) -> Facts {
        Facts {
            program: self.program@,
            typed: self.typed@,
            items: self.main_ast@.items,
            bases: self.sources.bases(),
            openable: self.sources.openable(),
        }
    }
}

impl Facts {
    pub open spec fn target(self, span: Span) -> Option<Target> {
        target_of(self.bases, self.openable, span)
    }
}

/// Where the free function `name` is declared.
pub open spec fn function_target(x: Facts, name: Seq<char>) -> Option<Target> {
    match function_in(x.program, main_path(), name) {
        Some(f) => x.target(f.signature.span),
        None => None,
    }
}

/// Where member `name` of a type is declared: a record's method by its signature, a
/// field by its type. `None` when the type has no such member.
pub open spec fn member_of_type(x: Facts, info: TypeInfoV, name: Seq<char>) -> Option<
    Option<Target>,
> {
    let method = match info.kind {
        TypeKindV::Record { methods, .. } => lookup(methods, name),
        _ => None,
    };
    match method {
        Some(m) => Some(x.target(m.signature.span)),
        None => if has_field_named(info, name) {
            Some(x.target(info.span))
        } else {
            None
        },
    }
}

/// Where `recv.name` is declared, given the span of the whole field expression: through
/// the receiver's type, or else as a free function of that name.
pub open spec fn member_target(x: Facts, field_span: Span, name: Seq<char>) -> Option<Target> {
    let xs = module_exprs(x.items);
    match receiver_span(xs, xs.len() as int, field_span) {
        None => None,
        Some(s) => match with_span(x.typed, 0, s, false) {
            None => None,
            Some(e) => {
                let info = match nominal_id_of(e.ty) {
                    Some(id) => type_with_id(x.program.types, id),
                    None => None,
                };
                match info {
                    Some(info) => match member_of_type(x, info, name) {
                        Some(t) => t,
                        None => function_target(x, name),
                    },
                    None => function_target(x, name),
                }
            },
        },
    }
}

/// The path of the module that a document stands for.
pub(crate) fn main_module() -> (r: Vec<String>)
    ensures
        texts(r@) == main_path(),
{
    let mut v: Vec<String> = Vec::new();
    v.push("main".to_owned());
    assert(texts(v@) =~= main_path());
    v
}

fn locate_function(full: &FullAnalysis, name: &str) -> (r: Option<Target>)
    ensures
        r == function_target(full.facts(), name@),
{
    let module = main_module();
    match full.program.resolve_function(module.as_slice(), name) {
        Some(f) => locate(&full.sources, f.signature.span),
        None => None,
    }
}

fn locate_member_of(full: &FullAnalysis, info: &TypeInfo, name: &str) -> (r: Option<
    Option<Target>,
>)
    ensures
        r == member_of_type(full.facts(), info@, name@),
{
    if let TypeKind::Record { methods, .. } = &info.kind {
        let i = find_key(methods, name);
        assert(names(methods@) =~= keys_of(named_method_infos_view(methods@)));
        if i < methods.len() {
            return Some(locate(&full.sources, methods[i].1.signature.span));
        }
    }
    if has_field(info, name) {
        Some(locate(&full.sources, info.span))
    } else {
        None
    }
}

/// Resolve `recv.name` given the global span of the whole field expression: look up the
/// receiver's type, then its method (precise span) or field (the owning type's span),
/// falling back to a free function of the same name.
fn resolve_member(full: &FullAnalysis, field_span: Span, name: &str) -> (r: Option<Target>)
    ensures
        r == member_target(full.facts(), field_span, name@),
{
    let recv_span = match receiver_of_field(&full.main_ast, field_span) {
        Some(s) => s,
        None => {
            return None;
        },
    };
    let e = match typed_at_span(full, recv_span, false) {
        Some(e) => e,
        None => {
            return None;
        },
    };
    if let Some(id) = nominal_id(&e.ty) {
        if let Some(info) = full.program.type_by_id(id) {
            if let Some(t) = locate_member_of(full, info, name) {
                return t;
            }
        }
    }
    locate_function(full, name)
}

/// Where a bare name is declared: as a local binding, a free function, or a type.
pub open spec fn name_target(x: Facts, off: int, name: Seq<char>) -> Option<Target> {
    match local_binding_of(x.items, off, name) {
        Some(s) => x.target(s),
        None => match function_in(x.program, main_path(), name) {
            Some(f) => x.target(f.signature.span),
            None => match type_in(x.program, main_path(), name) {
                Some(t) => x.target(t.span),
                None => None,
            },
        },
    }
}

fn locate_name(full: &FullAnalysis, global: usize, name: &str) -> (r: Option<Target>)
    ensures
        r == name_target(full.facts(), global as int, name@),
{
    if let Some(span) = local_binding(&full.main_ast, global, name) {
        return locate(&full.sources, span);
    }
    let module = main_module();
    if let Some(f) = full.program.resolve_function(module.as_slice(), name) {
        return locate(&full.sources, f.signature.span);
    }
    if let Some(t) = full.program.resolve_type(module.as_slice(), name) {
        return locate(&full.sources, t.span);
    }
    None
}

/// The member target at a global offset, when a field access is the tightest expression
/// there.
pub open spec fn member_at(x: Facts, global: int) -> Option<Target> {
    match smallest_at(x.typed, global) {
        Some(e) => match e.kind {
            TypedExprKindV::Field(name) => member_target(x, e.span, name),
            _ => None,
        },
        None => None,
    }
}

/// Where the symbol at offset `local` of the document `cs`, which begins at `base`, is
/// declared.
pub open spec fn definition_of(x: Facts, cs: Seq<char>, base: int, local: int) -> Option<Target> {
    match member_at(x, base + local) {
        Some(t) => Some(t),
        None => match ident_in(cs, local) {
            Some((name, _)) => name_target(x, base + local, name),
            None => None,
        },
    }
}

/// Resolve the definition of the symbol at `pos`, as a place in the file that defines it
/// (or `None` for a symbol with no file).
pub fn definition(doc: &Document, full: &FullAnalysis, pos: Position) -> (r: Option<Target>)
    requires
        doc.wf(),
        byte_off(doc.text@, doc.text@.len() as int) < usize::MAX,
        full.main_base + byte_off(doc.text@, doc.text@.len() as int) <= usize::MAX,
    ensures
        r == definition_of(
            full.facts(),
            doc.text@,
            full.main_base as int,
            byte_off(
                doc.text@,
                index_of(doc.text@, pos.line as int, pos.character as int),
            ) as int,
        ),
{
    let local = doc.offset_at(pos);
    proof {
        crate::document::index_within(doc.text@, pos.line as int, pos.character as int);
    }
    let global: usize = local + full.main_base;
    if let Some(e) = smallest_typed_at(full, global) {
        if let TypedExprKind::Field(name) = &e.kind {
            if let Some(t) = resolve_member(full, e.span, name.as_str()) {
                return Some(t);
            }
        }
    }
    match ident_at(doc.text.as_str(), local) {
        Some((name, _)) => locate_name(full, global, name.as_str()),
        None => None,
    }
}

} // verus!
