//! The high-level intermediate representation: the whole program collected
//! into global type and function tables with numeric type ids assigned for the
//! runtime. Records and sum types keep their members (as AST nodes, lowered
//! on demand by codegen); this is what the back end consumes.

use vstd::prelude::*;
use crate::ast::{FunDecl, FunDeclV, Method, MethodV, Module, ModuleV, Param, ParamV, Stmt, StmtV, TypeExpr, TypeExprV, Variant, clone_fun_decl, clone_method, clone_module, clone_opt_string, clone_stmts, clone_type_expr, fun_decl_view, method_view, module_view, opt_text, params_view, stmts_view, type_expr_view};
use crate::span::Span;
use crate::table::{find_key, find_path, first_pos, first_pos_unique, keys_of, lookup, names, paths};
use crate::text::{clone_strings, has_prefix, join, join_strings, starts_with, str_eq, texts};
use crate::types::{clone_opt_type, clone_type, opt_type, type_view, NominalType, NominalV, Type, TypeV};

verus! {

/// A parsed source file tagged with its module path.
#[derive(Debug, PartialEq)]
pub struct LoadedModule {
    pub path: Vec<String>,
    pub ast: Module,
}

/// A field of a record or variant.
#[derive(Debug, PartialEq)]
pub struct FieldInfo {
    pub name: String,
    pub ty: Option<TypeExpr>,
    pub resolved_ty: Option<Type>,
}

/// A callable parameter lowered into HIR-owned signature data.
#[derive(Debug, PartialEq)]
pub struct ParamInfo {
    pub name: String,
    pub ty: Option<TypeExpr>,
    pub resolved_ty: Option<Type>,
    pub span: Span,
}

/// Function or method signature data owned by HIR.
#[derive(Debug, PartialEq)]
pub struct CallableSignature {
    pub name: String,
    pub params: Vec<ParamInfo>,
    pub ret: Option<TypeExpr>,
    pub ret_ty: Option<Type>,
    pub span: Span,
}

/// A method lowered into HIR. The signature is owned by HIR; the parser method
/// is retained while code generation still consumes AST bodies.
#[derive(Debug, PartialEq)]
pub struct MethodInfo {
    pub signature: CallableSignature,
    pub decl: Method,
}

/// A variant of a sum type, with its runtime tag.
#[derive(Debug, PartialEq)]
pub struct VariantInfo {
    pub name: String,
    pub tag: i32,
    pub fields: Vec<FieldInfo>,
    pub methods: Vec<(String, MethodInfo)>,
}

/// The members of a nominal type.
#[derive(Debug, PartialEq)]
pub enum TypeKind {
    /// A record.
    Record { fields: Vec<FieldInfo>, methods: Vec<(String, MethodInfo)> },
    /// A sum of variants.
    Sum { variants: Vec<VariantInfo> },
}

/// A nominal type. `symbol` is the globally unique storage/codegen key: the bare
/// `name` when only one module defines that name, module-qualified otherwise.
/// `slots` are the type parameters declared as `slot: type`, with their variables.
#[derive(Debug, PartialEq)]
pub struct TypeInfo {
    pub name: String,
    pub id: i32,
    pub interfaces: Vec<String>,
    pub kind: TypeKind,
    pub module: Vec<String>,
    pub span: Span,
    pub symbol: String,
    pub slots: Vec<(String, u32)>,
    pub doc: Option<String>,
}

/// A free function, or the body of a primitive method. `symbol` is its globally
/// unique storage/codegen key.
#[derive(Debug, PartialEq)]
pub struct FunInfo {
    pub signature: CallableSignature,
    pub decl: FunDecl,
    pub module: Vec<String>,
    pub symbol: String,
}

/// Top-level statements of one module, run once at initialization.
#[derive(Debug, PartialEq)]
pub struct ModuleInit {
    pub path: Vec<String>,
    pub stmts: Vec<Stmt>,
}

/// A resolved `type X = <type expr>`.
#[derive(Debug, PartialEq)]
pub struct TypeAlias {
    pub module: Vec<String>,
    pub ty: Type,
    pub span: Span,
}

/// The collected, id-assigned program. The tables are keyed by storage symbol or by
/// module path; no key occurs twice in any of them.
#[derive(Debug, PartialEq)]
pub struct Program {
    pub types: Vec<(String, TypeInfo)>,
    pub functions: Vec<(String, FunInfo)>,
    pub inits: Vec<ModuleInit>,
    /// Names each module brings into scope via `import`.
    pub module_imports: Vec<(Vec<String>, Vec<String>)>,
    /// For each importing module, the origin module path of each imported local name.
    pub import_origins: Vec<(Vec<String>, Vec<(String, Vec<String>)>)>,
    /// For each importing module, the remote name of each name imported under another.
    pub import_renames: Vec<(Vec<String>, Vec<(String, String)>)>,
    /// For each importing module, the path each whole-module alias stands for.
    pub module_aliases: Vec<(Vec<String>, Vec<(String, Vec<String>)>)>,
    /// The bare symbol of each item that its module-qualified name could also denote.
    pub symbol_aliases: Vec<(String, String)>,
    /// The symbol of each method on a primitive class, by (class, method).
    pub primitive_methods: Vec<((String, String), String)>,
    pub type_aliases: Vec<(String, TypeAlias)>,
}

// ---- models ----

/// The model of [`LoadedModule`].
#[verifier::ext_equal]
pub ghost struct LoadedModuleV {
    pub path: Seq<Seq<char>>,
    pub ast: ModuleV,
}

/// The model of [`FieldInfo`].
#[verifier::ext_equal]
pub ghost struct FieldInfoV {
    pub name: Seq<char>,
    pub ty: Option<TypeExprV>,
    pub resolved_ty: Option<TypeV>,
}

/// The model of [`ParamInfo`].
#[verifier::ext_equal]
pub ghost struct ParamInfoV {
    pub name: Seq<char>,
    pub ty: Option<TypeExprV>,
    pub resolved_ty: Option<TypeV>,
    pub span: Span,
}

/// The model of [`CallableSignature`].
#[verifier::ext_equal]
pub ghost struct CallableSignatureV {
    pub name: Seq<char>,
    pub params: Seq<ParamInfoV>,
    pub ret: Option<TypeExprV>,
    pub ret_ty: Option<TypeV>,
    pub span: Span,
}

/// The model of [`MethodInfo`].
#[verifier::ext_equal]
pub ghost struct MethodInfoV {
    pub signature: CallableSignatureV,
    pub decl: MethodV,
}

/// The model of [`VariantInfo`].
#[verifier::ext_equal]
pub ghost struct VariantInfoV {
    pub name: Seq<char>,
    pub tag: i32,
    pub fields: Seq<FieldInfoV>,
    pub methods: Seq<(Seq<char>, MethodInfoV)>,
}

/// The model of [`TypeKind`].
#[verifier::ext_equal]
pub ghost enum TypeKindV {
    Record { fields: Seq<FieldInfoV>, methods: Seq<(Seq<char>, MethodInfoV)> },
    Sum { variants: Seq<VariantInfoV> },
}

/// The model of [`TypeInfo`].
#[verifier::ext_equal]
pub ghost struct TypeInfoV {
    pub name: Seq<char>,
    pub id: i32,
    pub interfaces: Seq<Seq<char>>,
    pub kind: TypeKindV,
    pub module: Seq<Seq<char>>,
    pub span: Span,
    pub symbol: Seq<char>,
    pub slots: Seq<(Seq<char>, u32)>,
    pub doc: Option<Seq<char>>,
}

/// The model of [`FunInfo`].
#[verifier::ext_equal]
pub ghost struct FunInfoV {
    pub signature: CallableSignatureV,
    pub decl: FunDeclV,
    pub module: Seq<Seq<char>>,
    pub symbol: Seq<char>,
}

/// The model of [`ModuleInit`].
#[verifier::ext_equal]
pub ghost struct ModuleInitV {
    pub path: Seq<Seq<char>>,
    pub stmts: Seq<StmtV>,
}

/// The model of [`TypeAlias`].
#[verifier::ext_equal]
pub ghost struct TypeAliasV {
    pub module: Seq<Seq<char>>,
    pub ty: TypeV,
    pub span: Span,
}

/// The model of [`Program`].
#[verifier::ext_equal]
pub ghost struct ProgramV {
    pub types: Seq<(Seq<char>, TypeInfoV)>,
    pub functions: Seq<(Seq<char>, FunInfoV)>,
    pub inits: Seq<ModuleInitV>,
    pub module_imports: Seq<(Seq<Seq<char>>, Seq<Seq<char>>)>,
    pub import_origins: Seq<(Seq<Seq<char>>, Seq<(Seq<char>, Seq<Seq<char>>)>)>,
    pub import_renames: Seq<(Seq<Seq<char>>, Seq<(Seq<char>, Seq<char>)>)>,
    pub module_aliases: Seq<(Seq<Seq<char>>, Seq<(Seq<char>, Seq<Seq<char>>)>)>,
    pub symbol_aliases: Seq<(Seq<char>, Seq<char>)>,
    pub primitive_methods: Seq<((Seq<char>, Seq<char>), Seq<char>)>,
    pub type_aliases: Seq<(Seq<char>, TypeAliasV)>,
}

pub open spec fn loaded_module_view(n: LoadedModule) -> LoadedModuleV {
    LoadedModuleV {
        path: texts(n.path@),
        ast: module_view(n.ast),
    }
}

impl View for LoadedModule {
    type V = LoadedModuleV;

    open spec fn view(&self) -> LoadedModuleV {
        loaded_module_view(*self)
    }
}

pub open spec fn field_info_view(n: FieldInfo) -> FieldInfoV {
    FieldInfoV {
        name: n.name@,
        ty: match n.ty { Some(x) => Some(type_expr_view(x)), None => None },
        resolved_ty: opt_type(n.resolved_ty),
    }
}

impl View for FieldInfo {
    type V = FieldInfoV;

    open spec fn view(&self) -> FieldInfoV {
        field_info_view(*self)
    }
}

pub open spec fn param_info_view(n: ParamInfo) -> ParamInfoV {
    ParamInfoV {
        name: n.name@,
        ty: match n.ty { Some(x) => Some(type_expr_view(x)), None => None },
        resolved_ty: opt_type(n.resolved_ty),
        span: n.span,
    }
}

impl View for ParamInfo {
    type V = ParamInfoV;

    open spec fn view(&self) -> ParamInfoV {
        param_info_view(*self)
    }
}

pub open spec fn callable_signature_view(n: CallableSignature) -> CallableSignatureV {
    CallableSignatureV {
        name: n.name@,
        params: param_infos_view(n.params@),
        ret: match n.ret { Some(x) => Some(type_expr_view(x)), None => None },
        ret_ty: opt_type(n.ret_ty),
        span: n.span,
    }
}

impl View for CallableSignature {
    type V = CallableSignatureV;

    open spec fn view(&self) -> CallableSignatureV {
        callable_signature_view(*self)
    }
}

pub open spec fn method_info_view(n: MethodInfo) -> MethodInfoV {
    MethodInfoV {
        signature: callable_signature_view(n.signature),
        decl: method_view(n.decl),
    }
}

impl View for MethodInfo {
    type V = MethodInfoV;

    open spec fn view(&self) -> MethodInfoV {
        method_info_view(*self)
    }
}

pub open spec fn variant_info_view(n: VariantInfo) -> VariantInfoV {
    VariantInfoV {
        name: n.name@,
        tag: n.tag,
        fields: field_infos_view(n.fields@),
        methods: named_method_infos_view(n.methods@),
    }
}

impl View for VariantInfo {
    type V = VariantInfoV;

    open spec fn view(&self) -> VariantInfoV {
        variant_info_view(*self)
    }
}

pub open spec fn type_kind_view(n: TypeKind) -> TypeKindV {
    match n {
        TypeKind::Record { fields, methods } => TypeKindV::Record {
            fields: field_infos_view(fields@),
            methods: named_method_infos_view(methods@),
        },
        TypeKind::Sum { variants } => TypeKindV::Sum {
            variants: variant_infos_view(variants@),
        },
    }
}

impl View for TypeKind {
    type V = TypeKindV;

    open spec fn view(&self) -> TypeKindV {
        type_kind_view(*self)
    }
}

pub open spec fn type_info_view(n: TypeInfo) -> TypeInfoV {
    TypeInfoV {
        name: n.name@,
        id: n.id,
        interfaces: texts(n.interfaces@),
        kind: type_kind_view(n.kind),
        module: texts(n.module@),
        span: n.span,
        symbol: n.symbol@,
        slots: slots_view(n.slots@),
        doc: opt_text(n.doc),
    }
}

impl View for TypeInfo {
    type V = TypeInfoV;

    open spec fn view(&self) -> TypeInfoV {
        type_info_view(*self)
    }
}

pub open spec fn fun_info_view(n: FunInfo) -> FunInfoV {
    FunInfoV {
        signature: callable_signature_view(n.signature),
        decl: fun_decl_view(n.decl),
        module: texts(n.module@),
        symbol: n.symbol@,
    }
}

impl View for FunInfo {
    type V = FunInfoV;

    open spec fn view(&self) -> FunInfoV {
        fun_info_view(*self)
    }
}

pub open spec fn module_init_view(n: ModuleInit) -> ModuleInitV {
    ModuleInitV {
        path: texts(n.path@),
        stmts: stmts_view(n.stmts@),
    }
}

impl View for ModuleInit {
    type V = ModuleInitV;

    open spec fn view(&self) -> ModuleInitV {
        module_init_view(*self)
    }
}

pub open spec fn type_alias_view(n: TypeAlias) -> TypeAliasV {
    TypeAliasV {
        module: texts(n.module@),
        ty: type_view(n.ty),
        span: n.span,
    }
}

impl View for TypeAlias {
    type V = TypeAliasV;

    open spec fn view(&self) -> TypeAliasV {
        type_alias_view(*self)
    }
}

pub open spec fn program_view(n: Program) -> ProgramV {
    ProgramV {
        types: named_type_infos_view(n.types@),
        functions: named_fun_infos_view(n.functions@),
        inits: module_inits_view(n.inits@),
        module_imports: module_names_view(n.module_imports@),
        import_origins: all_origins_view(n.import_origins@),
        import_renames: all_renames_view(n.import_renames@),
        module_aliases: all_origins_view(n.module_aliases@),
        symbol_aliases: pairs_view(n.symbol_aliases@),
        primitive_methods: prim_view(n.primitive_methods@),
        type_aliases: named_type_aliases_view(n.type_aliases@),
    }
}

impl View for Program {
    type V = ProgramV;

    open spec fn view(&self) -> ProgramV {
        program_view(*self)
    }
}

pub open spec fn param_infos_view(ns: Seq<ParamInfo>) -> Seq<ParamInfoV> {
    Seq::new(ns.len(), |i: int| param_info_view(ns[i]))
}

pub open spec fn field_infos_view(ns: Seq<FieldInfo>) -> Seq<FieldInfoV> {
    Seq::new(ns.len(), |i: int| field_info_view(ns[i]))
}

pub open spec fn variant_infos_view(ns: Seq<VariantInfo>) -> Seq<VariantInfoV> {
    Seq::new(ns.len(), |i: int| variant_info_view(ns[i]))
}

pub open spec fn module_inits_view(ns: Seq<ModuleInit>) -> Seq<ModuleInitV> {
    Seq::new(ns.len(), |i: int| module_init_view(ns[i]))
}

pub open spec fn named_method_infos_view(ns: Seq<(String, MethodInfo)>) -> Seq<(Seq<char>, MethodInfoV)> {
    Seq::new(ns.len(), |i: int| (ns[i].0@, method_info_view(ns[i].1)))
}

pub open spec fn named_type_infos_view(ns: Seq<(String, TypeInfo)>) -> Seq<(Seq<char>, TypeInfoV)> {
    Seq::new(ns.len(), |i: int| (ns[i].0@, type_info_view(ns[i].1)))
}

pub open spec fn named_fun_infos_view(ns: Seq<(String, FunInfo)>) -> Seq<(Seq<char>, FunInfoV)> {
    Seq::new(ns.len(), |i: int| (ns[i].0@, fun_info_view(ns[i].1)))
}

pub open spec fn named_type_aliases_view(ns: Seq<(String, TypeAlias)>) -> Seq<(Seq<char>, TypeAliasV)> {
    Seq::new(ns.len(), |i: int| (ns[i].0@, type_alias_view(ns[i].1)))
}

pub open spec fn slots_view(v: Seq<(String, u32)>) -> Seq<(Seq<char>, u32)> {
    Seq::new(v.len(), |i: int| (v[i].0@, v[i].1))
}

pub open spec fn pairs_view(v: Seq<(String, String)>) -> Seq<(Seq<char>, Seq<char>)> {
    Seq::new(v.len(), |i: int| (v[i].0@, v[i].1@))
}

pub open spec fn prim_view(v: Seq<((String, String), String)>) -> Seq<
    ((Seq<char>, Seq<char>), Seq<char>),
> {
    Seq::new(v.len(), |i: int| ((v[i].0.0@, v[i].0.1@), v[i].1@))
}

pub open spec fn module_names_view(v: Seq<(Vec<String>, Vec<String>)>) -> Seq<
    (Seq<Seq<char>>, Seq<Seq<char>>),
> {
    Seq::new(v.len(), |i: int| (texts(v[i].0@), texts(v[i].1@)))
}

pub open spec fn origins_view(v: Seq<(String, Vec<String>)>) -> Seq<(Seq<char>, Seq<Seq<char>>)> {
    Seq::new(v.len(), |i: int| (v[i].0@, texts(v[i].1@)))
}

pub open spec fn all_origins_view(v: Seq<(Vec<String>, Vec<(String, Vec<String>)>)>) -> Seq<
    (Seq<Seq<char>>, Seq<(Seq<char>, Seq<Seq<char>>)>),
> {
    Seq::new(v.len(), |i: int| (texts(v[i].0@), origins_view(v[i].1@)))
}

pub open spec fn all_renames_view(v: Seq<(Vec<String>, Vec<(String, String)>)>) -> Seq<
    (Seq<Seq<char>>, Seq<(Seq<char>, Seq<char>)>),
> {
    Seq::new(v.len(), |i: int| (texts(v[i].0@), pairs_view(v[i].1@)))
}

// ---- copies ----

fn clone_slots(v: &Vec<(String, u32)>) -> (r: Vec<(String, u32)>)
    ensures
        slots_view(r@) == slots_view(v@),
{
    let mut out: Vec<(String, u32)> = Vec::new();
    for i in 0..v.len()
        invariant
            out.len() == i,
            forall|j: int| 0 <= j < i ==> (#[trigger] out[j]).0@ == v[j].0@ && out[j].1 == v[j].1,
    {
        out.push((v[i].0.clone(), v[i].1));
    }
    assert(slots_view(out@) =~= slots_view(v@));
    out
}

impl Clone for LoadedModule {
    fn clone(&self) -> (r: LoadedModule)
        ensures
            r@ == self@,
    {
        clone_loaded_module(self)
    }
}

/// A copy of `n`.
pub fn clone_loaded_module(n: &LoadedModule) -> (r: LoadedModule)
    ensures
        r@ == n@,
{
    LoadedModule {
        path: clone_strings(&n.path),
        ast: clone_module(&n.ast),
    }
}

impl Clone for FieldInfo {
    fn clone(&self) -> (r: FieldInfo)
        ensures
            r@ == self@,
    {
        clone_field_info(self)
    }
}

/// A copy of `n`.
pub fn clone_field_info(n: &FieldInfo) -> (r: FieldInfo)
    ensures
        r@ == n@,
{
    FieldInfo {
        name: n.name.clone(),
        ty: match &n.ty { Some(x) => Some(clone_type_expr(x)), None => None },
        resolved_ty: clone_opt_type(&n.resolved_ty),
    }
}

impl Clone for ParamInfo {
    fn clone(&self) -> (r: ParamInfo)
        ensures
            r@ == self@,
    {
        clone_param_info(self)
    }
}

/// A copy of `n`.
pub fn clone_param_info(n: &ParamInfo) -> (r: ParamInfo)
    ensures
        r@ == n@,
{
    ParamInfo {
        name: n.name.clone(),
        ty: match &n.ty { Some(x) => Some(clone_type_expr(x)), None => None },
        resolved_ty: clone_opt_type(&n.resolved_ty),
        span: n.span,
    }
}

impl Clone for CallableSignature {
    fn clone(&self) -> (r: CallableSignature)
        ensures
            r@ == self@,
    {
        clone_callable_signature(self)
    }
}

/// A copy of `n`.
pub fn clone_callable_signature(n: &CallableSignature) -> (r: CallableSignature)
    ensures
        r@ == n@,
{
    CallableSignature {
        name: n.name.clone(),
        params: clone_param_infos(&n.params),
        ret: match &n.ret { Some(x) => Some(clone_type_expr(x)), None => None },
        ret_ty: clone_opt_type(&n.ret_ty),
        span: n.span,
    }
}

impl Clone for MethodInfo {
    fn clone(&self) -> (r: MethodInfo)
        ensures
            r@ == self@,
    {
        clone_method_info(self)
    }
}

/// A copy of `n`.
pub fn clone_method_info(n: &MethodInfo) -> (r: MethodInfo)
    ensures
        r@ == n@,
{
    MethodInfo {
        signature: clone_callable_signature(&n.signature),
        decl: clone_method(&n.decl),
    }
}

impl Clone for VariantInfo {
    fn clone(&self) -> (r: VariantInfo)
        ensures
            r@ == self@,
    {
        clone_variant_info(self)
    }
}

/// A copy of `n`.
pub fn clone_variant_info(n: &VariantInfo) -> (r: VariantInfo)
    ensures
        r@ == n@,
{
    VariantInfo {
        name: n.name.clone(),
        tag: n.tag,
        fields: clone_field_infos(&n.fields),
        methods: clone_named_method_infos(&n.methods),
    }
}

impl Clone for TypeKind {
    fn clone(&self) -> (r: TypeKind)
        ensures
            r@ == self@,
    {
        clone_type_kind(self)
    }
}

/// A copy of `n`.
pub fn clone_type_kind(n: &TypeKind) -> (r: TypeKind)
    ensures
        r@ == n@,
{
    match n {
        TypeKind::Record { fields, methods } => TypeKind::Record {
            fields: clone_field_infos(fields),
            methods: clone_named_method_infos(methods),
        },
        TypeKind::Sum { variants } => TypeKind::Sum {
            variants: clone_variant_infos(variants),
        },
    }
}

impl Clone for TypeInfo {
    fn clone(&self) -> (r: TypeInfo)
        ensures
            r@ == self@,
    {
        clone_type_info(self)
    }
}

/// A copy of `n`.
pub fn clone_type_info(n: &TypeInfo) -> (r: TypeInfo)
    ensures
        r@ == n@,
{
    TypeInfo {
        name: n.name.clone(),
        id: n.id,
        interfaces: clone_strings(&n.interfaces),
        kind: clone_type_kind(&n.kind),
        module: clone_strings(&n.module),
        span: n.span,
        symbol: n.symbol.clone(),
        slots: clone_slots(&n.slots),
        doc: clone_opt_string(&n.doc),
    }
}

impl Clone for FunInfo {
    fn clone(&self) -> (r: FunInfo)
        ensures
            r@ == self@,
    {
        clone_fun_info(self)
    }
}

/// A copy of `n`.
pub fn clone_fun_info(n: &FunInfo) -> (r: FunInfo)
    ensures
        r@ == n@,
{
    FunInfo {
        signature: clone_callable_signature(&n.signature),
        decl: clone_fun_decl(&n.decl),
        module: clone_strings(&n.module),
        symbol: n.symbol.clone(),
    }
}

impl Clone for ModuleInit {
    fn clone(&self) -> (r: ModuleInit)
        ensures
            r@ == self@,
    {
        clone_module_init(self)
    }
}

/// A copy of `n`.
pub fn clone_module_init(n: &ModuleInit) -> (r: ModuleInit)
    ensures
        r@ == n@,
{
    ModuleInit {
        path: clone_strings(&n.path),
        stmts: clone_stmts(&n.stmts),
    }
}

impl Clone for TypeAlias {
    fn clone(&self) -> (r: TypeAlias)
        ensures
            r@ == self@,
    {
        clone_type_alias(self)
    }
}

/// A copy of `n`.
pub fn clone_type_alias(n: &TypeAlias) -> (r: TypeAlias)
    ensures
        r@ == n@,
{
    TypeAlias {
        module: clone_strings(&n.module),
        ty: clone_type(&n.ty),
        span: n.span,
    }
}

/// A copy of a list.
pub fn clone_param_infos(ns: &Vec<ParamInfo>) -> (r: Vec<ParamInfo>)
    ensures
        param_infos_view(r@) == param_infos_view(ns@),
{
    let mut out: Vec<ParamInfo> = Vec::new();
    for i in 0..ns.len()
        invariant
            out.len() == i,
            forall|j: int| 0 <= j < i ==> (#[trigger] out[j])@ == ns[j]@,
    {
        out.push(clone_param_info(&ns[i]));
    }
    assert(param_infos_view(out@) =~= param_infos_view(ns@));
    out
}

/// A copy of a list.
pub fn clone_field_infos(ns: &Vec<FieldInfo>) -> (r: Vec<FieldInfo>)
    ensures
        field_infos_view(r@) == field_infos_view(ns@),
{
    let mut out: Vec<FieldInfo> = Vec::new();
    for i in 0..ns.len()
        invariant
            out.len() == i,
            forall|j: int| 0 <= j < i ==> (#[trigger] out[j])@ == ns[j]@,
    {
        out.push(clone_field_info(&ns[i]));
    }
    assert(field_infos_view(out@) =~= field_infos_view(ns@));
    out
}

/// A copy of a list.
pub fn clone_variant_infos(ns: &Vec<VariantInfo>) -> (r: Vec<VariantInfo>)
    ensures
        variant_infos_view(r@) == variant_infos_view(ns@),
{
    let mut out: Vec<VariantInfo> = Vec::new();
    for i in 0..ns.len()
        invariant
            out.len() == i,
            forall|j: int| 0 <= j < i ==> (#[trigger] out[j])@ == ns[j]@,
    {
        out.push(clone_variant_info(&ns[i]));
    }
    assert(variant_infos_view(out@) =~= variant_infos_view(ns@));
    out
}

/// A copy of a table.
pub fn clone_named_method_infos(ns: &Vec<(String, MethodInfo)>) -> (r: Vec<(String, MethodInfo)>)
    ensures
        named_method_infos_view(r@) == named_method_infos_view(ns@),
{
    let mut out: Vec<(String, MethodInfo)> = Vec::new();
    for i in 0..ns.len()
        invariant
            out.len() == i,
            forall|j: int|
                0 <= j < i ==> (#[trigger] out[j]).0@ == ns[j].0@ && out[j].1@ == ns[j].1@,
    {
        out.push((ns[i].0.clone(), clone_method_info(&ns[i].1)));
    }
    assert(named_method_infos_view(out@) =~= named_method_infos_view(ns@));
    out
}

// ---- qualified names ----

/// The canonical identity of a top-level definition: its local name plus the
/// module path it is defined in. The storage/codegen key ([`QualifiedName::symbol`])
/// is `name@a/b` -- the module path joins with `/`, never `.`, so the key cannot
/// collide with the `Type.Variant` separator used in method qualifiers.
#[derive(Debug, PartialEq, Eq, Hash)]
pub struct QualifiedName {
    pub module: Vec<String>,
    pub name: String,
}

/// The module-qualified storage symbol of a top-level name.
pub open spec fn qualified(name: Seq<char>, module: Seq<Seq<char>>) -> Seq<char> {
    name + "@"@ + join(module, "/"@)
}

impl QualifiedName {
    pub fn new(name: &str, module: &[String]) -> (r: QualifiedName)
        ensures
            r.name@ == name@,
            texts(r.module@) == texts(module@),
    {
        let mut path: Vec<String> = Vec::new();
        for i in 0..module.len()
            invariant
                path.len() == i,
                forall|j: int| 0 <= j < i ==> (#[trigger] path[j])@ == module[j]@,
        {
            path.push(module[i].clone());
        }
        assert(texts(path@) =~= texts(module@));
        QualifiedName { module: path, name: name.to_owned() }
    }

    /// The storage/codegen symbol (`name@a/b`).
    pub fn symbol(&self) -> (r: String)
        ensures
            r@ == qualified(self.name@, texts(self.module@)),
    {
        let mut out = self.name.clone();
        out.push_str("@");
        out.push_str(join_strings(self.module.as_slice(), "/").as_str());
        out
    }
}

/// Format the module-qualified storage symbol for a top-level name.
pub fn qualify(local: &str, module: &[String]) -> (r: String)
    ensures
        r@ == qualified(local@, texts(module@)),
{
    QualifiedName::new(local, module).symbol()
}

/// A qualified symbol is never a bare name, and it determines the name it
/// qualifies: names hold no `@`.
pub proof fn qualified_determines_name(
    a: Seq<char>,
    m: Seq<Seq<char>>,
    b: Seq<char>,
    n: Seq<Seq<char>>,
)
    requires
        !a.contains('@'),
        !b.contains('@'),
        qualified(a, m) == qualified(b, n),
    ensures
        a == b,
        join(m, "/"@) == join(n, "/"@),
{
    reveal_strlit("@");
    let q = qualified(a, m);
    assert(q[a.len() as int] == '@');
    assert(qualified(b, n)[b.len() as int] == '@');
    if a.len() < b.len() {
        assert(qualified(b, n)[a.len() as int] == b[a.len() as int]);
        assert(b.contains(b[a.len() as int]));
    }
    if b.len() < a.len() {
        assert(q[b.len() as int] == a[b.len() as int]);
        assert(a.contains(a[b.len() as int]));
    }
    assert(a =~= q.take(a.len() as int));
    assert(b =~= qualified(b, n).take(b.len() as int));
    assert(join(m, "/"@) =~= q.skip(a.len() as int + 1));
    assert(join(n, "/"@) =~= qualified(b, n).skip(b.len() as int + 1));
}

/// The module path a name was imported from.
pub open spec fn origin_of(
    origins: Seq<(Seq<Seq<char>>, Seq<(Seq<char>, Seq<Seq<char>>)>)>,
    module: Seq<Seq<char>>,
    name: Seq<char>,
) -> Option<Seq<Seq<char>>> {
    match lookup(origins, module) {
        Some(names) => lookup(names, name),
        None => None,
    }
}

/// The key a bare `name` referenced from `module` resolves to: its own/unique
/// definition, this module's qualified definition, or the one imported into this
/// module.
pub open spec fn resolved_key(
    keys: Seq<Seq<char>>,
    origins: Seq<(Seq<Seq<char>>, Seq<(Seq<char>, Seq<Seq<char>>)>)>,
    module: Seq<Seq<char>>,
    name: Seq<char>,
) -> Option<Seq<char>> {
    if keys.contains(name) {
        Some(name)
    } else if keys.contains(qualified(name, module)) {
        Some(qualified(name, module))
    } else {
        match origin_of(origins, module, name) {
            Some(o) if keys.contains(qualified(name, o)) => Some(qualified(name, o)),
            _ => None,
        }
    }
}

/// Where a bare `name` resolves to in a table with the given keys.
pub open spec fn resolved_pos(
    keys: Seq<Seq<char>>,
    origins: Seq<(Seq<Seq<char>>, Seq<(Seq<char>, Seq<Seq<char>>)>)>,
    module: Seq<Seq<char>>,
    name: Seq<char>,
) -> Option<int> {
    match resolved_key(keys, origins, module, name) {
        Some(k) => Some(first_pos(keys, k)),
        None => None,
    }
}

/// The position of the entry a bare `name` resolves to.
pub fn resolve_position<T>(
    table: &Vec<(String, T)>,
    import_origins: &Vec<(Vec<String>, Vec<(String, Vec<String>)>)>,
    module: &[String],
    name: &str,
) -> (r: Option<usize>)
    ensures
        (match r {
            Some(i) => Some(i as int),
            None => None,
        }) == resolved_pos(
            names(table@),
            all_origins_view(import_origins@),
            texts(module@),
            name@,
        ),
        r matches Some(i) ==> i < table.len(),
{
    let ghost ks = names(table@);
    let ghost origins = all_origins_view(import_origins@);
    proof {
        crate::table::first_pos_contains(ks, name@);
        crate::table::first_pos_contains(ks, qualified(name@, texts(module@)));
    }
    let p = find_key(table, name);
    if p < table.len() {
        return Some(p);
    }
    let q = find_key(table, qualify(name, module).as_str());
    if q < table.len() {
        return Some(q);
    }
    let m = find_path(import_origins, module);
    assert(paths(import_origins@) =~= keys_of(origins));
    if m >= import_origins.len() {
        return None;
    }
    let from = &import_origins[m].1;
    assert(origins[m as int].1 == origins_view(from@));
    let n = find_key(from, name);
    assert(names(from@) =~= keys_of(origins_view(from@)));
    if n >= from.len() {
        return None;
    }
    assert(origins_view(from@)[n as int].1 == texts(from[n as int].1@));
    proof {
        crate::table::first_pos_contains(ks, qualified(name@, texts(from[n as int].1@)));
    }
    let o = find_key(table, qualify(name, from[n].1.as_slice()).as_str());
    if o < table.len() {
        Some(o)
    } else {
        None
    }
}

/// Resolve a bare top-level `name` referenced from `module` against a program
/// table keyed by qualified symbol: its own/unique definition, this module's
/// qualified definition, or the one imported into this module. This is the one
/// resolution rule shared by type, function, and annotation lookups.
pub fn resolve_qualified<'a, T>(
    table: &'a Vec<(String, T)>,
    import_origins: &Vec<(Vec<String>, Vec<(String, Vec<String>)>)>,
    module: &[String],
    name: &str,
) -> (r: Option<&'a T>)
    ensures
        r == (match resolved_pos(
            names(table@),
            all_origins_view(import_origins@),
            texts(module@),
            name@,
        ) {
            Some(p) => Some(&table@[p].1),
            None => None,
        }),
{
    match resolve_position(table, import_origins, module, name) {
        Some(i) => Some(&table[i].1),
        None => None,
    }
}

/// A name with a bare entry resolves to it from everywhere; otherwise a module's
/// own qualified definition wins over an imported one.
pub proof fn resolution_order(
    keys: Seq<Seq<char>>,
    origins: Seq<(Seq<Seq<char>>, Seq<(Seq<char>, Seq<Seq<char>>)>)>,
    module: Seq<Seq<char>>,
    name: Seq<char>,
)
    ensures
        keys.contains(name) ==> resolved_key(keys, origins, module, name) == Some(name),
        !keys.contains(name) && keys.contains(qualified(name, module)) ==> resolved_key(
            keys,
            origins,
            module,
            name,
        ) == Some(qualified(name, module)),
        resolved_key(keys, origins, module, name) matches Some(k) ==> keys.contains(k),
{
}

// ---- signatures ----

/// The parameter data of a declared parameter.
pub open spec fn param_info(p: ParamV) -> ParamInfoV {
    ParamInfoV { name: p.name, ty: p.ty, resolved_ty: None, span: p.span }
}

/// The parameter data of declared parameters.
pub open spec fn param_infos(ps: Seq<ParamV>) -> Seq<ParamInfoV> {
    Seq::new(ps.len(), |i: int| param_info(ps[i]))
}

/// The signature of a function declaration.
pub open spec fn function_signature(d: FunDeclV) -> CallableSignatureV {
    CallableSignatureV {
        name: d.name,
        params: param_infos(d.params),
        ret: d.ret,
        ret_ty: None,
        span: d.span,
    }
}

/// The signature of a method declaration.
pub open spec fn method_signature(m: MethodV) -> CallableSignatureV {
    CallableSignatureV {
        name: m.name,
        params: param_infos(m.params),
        ret: m.ret,
        ret_ty: None,
        span: m.span,
    }
}

impl ParamInfo {
    /// The parameter data of a declared parameter, its type not yet resolved.
    pub fn from(param: &Param) -> (r: ParamInfo)
        ensures
            r@ == param_info(param@),
    {
        ParamInfo {
            name: param.name.clone(),
            ty: match &param.ty {
                Some(t) => Some(clone_type_expr(t)),
                None => None,
            },
            resolved_ty: None,
            span: param.span,
        }
    }
}

fn params_from(params: &Vec<Param>) -> (r: Vec<ParamInfo>)
    ensures
        param_infos_view(r@) == param_infos(params_view(params@)),
{
    let mut out: Vec<ParamInfo> = Vec::new();
    for i in 0..params.len()
        invariant
            out.len() == i,
            forall|j: int| 0 <= j < i ==> (#[trigger] out[j])@ == param_info(params[j]@),
    {
        out.push(ParamInfo::from(&params[i]));
    }
    assert(param_infos_view(out@) =~= param_infos(params_view(params@)));
    out
}

impl CallableSignature {
    pub fn from_function(decl: &FunDecl) -> (r: CallableSignature)
        ensures
            r@ == function_signature(decl@),
    {
        CallableSignature {
            name: decl.name.clone(),
            params: params_from(&decl.params),
            ret: match &decl.ret {
                Some(t) => Some(clone_type_expr(t)),
                None => None,
            },
            ret_ty: None,
            span: decl.span,
        }
    }

    pub fn from_method(method: &Method) -> (r: CallableSignature)
        ensures
            r@ == method_signature(method@),
    {
        CallableSignature {
            name: method.name.clone(),
            params: params_from(&method.params),
            ret: match &method.ret {
                Some(t) => Some(clone_type_expr(t)),
                None => None,
            },
            ret_ty: None,
            span: method.span,
        }
    }
}

// ---- types and programs ----

/// A reference to the type, without substitution.
pub open spec fn type_info_ref(t: TypeInfoV) -> TypeV {
    let n = NominalV { id: t.id, name: t.name, subst: Seq::empty() };
    if t.kind is Record {
        TypeV::Record(n)
    } else {
        TypeV::Sum(n)
    }
}

impl TypeInfo {
    pub fn nominal_ref(&self) -> (r: NominalType)
        ensures
            r@ == (NominalV { id: self@.id, name: self@.name, subst: Seq::empty() }),
    {
        NominalType::new(self.id, self.name.as_str())
    }

    pub fn type_ref(&self) -> (r: Type)
        ensures
            r@ == type_info_ref(self@),
    {
        match &self.kind {
            TypeKind::Record { .. } => Type::Record(self.nominal_ref()),
            TypeKind::Sum { .. } => Type::Sum(self.nominal_ref()),
        }
    }

    pub fn is_sum(&self) -> (r: bool)
        ensures
            r == (self@.kind is Sum),
    {
        matches!(self.kind, TypeKind::Sum { .. })
    }

    /// The declaration of a record's method.
    pub fn record_method(&self, name: &str) -> (r: Option<&Method>)
        ensures
            (match r {
                Some(m) => Some(m@),
                None => None,
            }) == (match self@.kind {
                TypeKindV::Record { methods, .. } => match lookup(methods, name@) {
                    Some(m) => Some(m.decl),
                    None => None,
                },
                TypeKindV::Sum { .. } => None,
            }),
    {
        match &self.kind {
            TypeKind::Record { methods, .. } => {
                let i = find_key(methods, name);
                assert(names(methods@) =~= keys_of(named_method_infos_view(methods@)));
                if i < methods.len() {
                    Some(&methods[i].1.decl)
                } else {
                    None
                }
            },
            TypeKind::Sum { .. } => None,
        }
    }

    /// The variant of a sum with the given name.
    pub fn variant(&self, name: &str) -> (r: Option<&VariantInfo>)
        ensures
            (match r {
                Some(v) => Some(v@),
                None => None,
            }) == (match self@.kind {
                TypeKindV::Sum { variants } => variant_named(variants, name@),
                TypeKindV::Record { .. } => None,
            }),
    {
        match &self.kind {
            TypeKind::Sum { variants } => {
                for i in 0..variants.len()
                    invariant
                        self@.kind == (TypeKindV::Sum { variants: variant_infos_view(variants@) }),
                        forall|j: int|
                            0 <= j < i ==> variant_names(variant_infos_view(variants@))[j] != name@,
                {
                    if str_eq(variants[i].name.as_str(), name) {
                        proof {
                            first_pos_unique(
                                variant_names(variant_infos_view(variants@)),
                                name@,
                                i as int,
                            );
                        }
                        return Some(&variants[i]);
                    }
                }
                proof {
                    first_pos_unique(
                        variant_names(variant_infos_view(variants@)),
                        name@,
                        variants.len() as int,
                    );
                }
                None
            },
            TypeKind::Record { .. } => None,
        }
    }
}

/// The names of variants.
pub open spec fn variant_names(vs: Seq<VariantInfoV>) -> Seq<Seq<char>> {
    Seq::new(vs.len(), |i: int| vs[i].name)
}

/// The first variant with the given name.
pub open spec fn variant_named(vs: Seq<VariantInfoV>, name: Seq<char>) -> Option<VariantInfoV> {
    let p = first_pos(variant_names(vs), name);
    if 0 <= p < vs.len() {
        Some(vs[p])
    } else {
        None
    }
}

/// The ids of the types of a table.
pub open spec fn type_ids(ts: Seq<(Seq<char>, TypeInfoV)>) -> Seq<i32> {
    Seq::new(ts.len(), |i: int| ts[i].1.id)
}

/// The first type with the given id.
pub open spec fn type_with_id(ts: Seq<(Seq<char>, TypeInfoV)>, id: i32) -> Option<TypeInfoV> {
    let p = first_pos(type_ids(ts), id);
    if 0 <= p < ts.len() {
        Some(ts[p].1)
    } else {
        None
    }
}

/// The type a bare name denotes in `module`.
pub open spec fn type_in(p: ProgramV, module: Seq<Seq<char>>, name: Seq<char>) -> Option<
    TypeInfoV,
> {
    match resolved_pos(keys_of(p.types), p.import_origins, module, name) {
        Some(i) => Some(p.types[i].1),
        None => None,
    }
}

/// The function a bare name denotes in `module`.
pub open spec fn function_in(p: ProgramV, module: Seq<Seq<char>>, name: Seq<char>) -> Option<
    FunInfoV,
> {
    match resolved_pos(keys_of(p.functions), p.import_origins, module, name) {
        Some(i) => Some(p.functions[i].1),
        None => None,
    }
}

/// The model of an optional borrowed type entry.
pub open spec fn opt_info(o: Option<&TypeInfo>) -> Option<TypeInfoV> {
    match o {
        Some(t) => Some(t@),
        None => None,
    }
}

/// The model of an optional borrowed function entry.
pub open spec fn opt_fun(o: Option<&FunInfo>) -> Option<FunInfoV> {
    match o {
        Some(f) => Some(f@),
        None => None,
    }
}

impl Program {
    /// The type with a runtime id.
    pub fn type_by_id(&self, id: i32) -> (r: Option<&TypeInfo>)
        ensures
            opt_info(r) == type_with_id(self@.types, id),
    {
        let ghost ids = type_ids(self@.types);
        for i in 0..self.types.len()
            invariant
                ids == type_ids(self@.types),
                forall|j: int| 0 <= j < i ==> ids[j] != id,
        {
            if self.types[i].1.id == id {
                proof {
                    first_pos_unique(ids, id, i as int);
                }
                return Some(&self.types[i].1);
            }
        }
        proof {
            first_pos_unique(ids, id, ids.len() as int);
        }
        None
    }

    /// A reference to the type stored under `name`.
    pub fn type_ref(&self, name: &str) -> (r: Option<Type>)
        ensures
            opt_type(r) == (match lookup(self@.types, name@) {
                Some(t) => Some(type_info_ref(t)),
                None => None,
            }),
    {
        let i = find_key(&self.types, name);
        assert(names(self.types@) =~= keys_of(self@.types));
        if i < self.types.len() {
            Some(self.types[i].1.type_ref())
        } else {
            None
        }
    }

    /// Whether any loaded type has the bare display name `name`, regardless of
    /// the module it lives in: some key is `name` itself or `name@..`.
    pub fn has_type_named(&self, name: &str) -> (r: bool)
        ensures
            r == exists|i: int|
                0 <= i < self@.types.len() && ((#[trigger] self@.types[i]).0 == name@ || has_prefix(
                    self@.types[i].0,
                    name@ + "@"@,
                )),
    {
        let mut at = name.to_owned();
        at.push_str("@");
        for i in 0..self.types.len()
            invariant
                at@ == name@ + "@"@,
                forall|j: int|
                    0 <= j < i ==> (#[trigger] self@.types[j]).0 != name@ && !has_prefix(
                        self@.types[j].0,
                        name@ + "@"@,
                    ),
        {
            if str_eq(self.types[i].0.as_str(), name) || starts_with(
                self.types[i].0.as_str(),
                at.as_str(),
            ) {
                assert(self@.types[i as int].0 == self.types[i as int].0@);
                return true;
            }
        }
        false
    }

    /// Resolve a bare type name to its definition as seen from `module`.
    pub fn resolve_type(&self, module: &[String], name: &str) -> (r: Option<&TypeInfo>)
        ensures
            opt_info(r) == type_in(self@, texts(module@), name@),
    {
        assert(names(self.types@) =~= keys_of(self@.types));
        match resolve_position(&self.types, &self.import_origins, module, name) {
            Some(i) => Some(&self.types[i].1),
            None => None,
        }
    }

    /// Resolve a bare free-function name to its definition as seen from `module`,
    /// by the same rule as [`Program::resolve_type`].
    pub fn resolve_function(&self, module: &[String], name: &str) -> (r: Option<&FunInfo>)
        ensures
            opt_fun(r) == function_in(self@, texts(module@), name@),
    {
        assert(names(self.functions@) =~= keys_of(self@.functions));
        match resolve_position(&self.functions, &self.import_origins, module, name) {
            Some(i) => Some(&self.functions[i].1),
            None => None,
        }
    }

    /// The storage symbol a bare function `name` resolves to from `module`, if any.
    pub fn resolve_fn_symbol(&self, module: &[String], name: &str) -> (r: Option<String>)
        ensures
            opt_text(r) == (match function_in(self@, texts(module@), name@) {
                Some(f) => Some(f.symbol),
                None => None,
            }),
    {
        match self.resolve_function(module, name) {
            Some(f) => Some(f.symbol.clone()),
            None => None,
        }
    }
}

} // verus!
