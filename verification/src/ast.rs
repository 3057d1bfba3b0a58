//! The syntax tree the parser hands to lowering, with its mathematical model.
//!
//! Every node type `T` has a model type `TV` in which texts are character
//! sequences and lists are sequences; `t@` is the model of `t`.

use vstd::prelude::*;
use crate::span::Span;
use crate::text::{clone_strings, texts};

verus! {

/// Prefix operators.
#[derive(Clone, Copy, Debug, PartialEq, Eq, Structural)]
pub enum UnaryOp {
    Neg,
    Not,
    BitNot,
}

/// Infix operators.
#[derive(Clone, Copy, Debug, PartialEq, Eq, Structural)]
pub enum BinOp {
    Add,
    Sub,
    Mul,
    Div,
    Rem,
    BitAnd,
    BitOr,
    BitXor,
    Shl,
    Shr,
    Eq,
    Ne,
    Lt,
    Gt,
    Le,
    Ge,
    And,
    Or,
}

/// Assignment operators.
#[derive(Clone, Copy, Debug, PartialEq, Eq, Structural)]
pub enum AssignOp {
    Assign,
    Add,
    Sub,
    Mul,
    Div,
    Rem,
}

/// The text an optional string holds.
pub open spec fn opt_text(o: Option<String>) -> Option<Seq<char>> {
    match o {
        Some(s) => Some(s@),
        None => None,
    }
}

/// A copy of an optional string.
pub fn clone_opt_string(o: &Option<String>) -> (r: Option<String>)
    ensures
        opt_text(r) == opt_text(*o),
{
    match o {
        Some(s) => Some(s.clone()),
        None => None,
    }
}

// ---- nodes ----

/// A syntactic type annotation.
#[derive(Debug, PartialEq)]
pub enum TypeExpr {
    /// A named type.
    Named(String, Span),
    /// `T[n]` or `T[]`.
    Array(Box<TypeExpr>, Option<usize>, Span),
    /// `(A, B) -> R`.
    Fun(Vec<TypeExpr>, Box<TypeExpr>, Span),
    /// `T?`.
    Nullable(Box<TypeExpr>, Span),
    /// `T!`.
    Fallible(Box<TypeExpr>, Span),
    /// `[A, B]`.
    Tuple(Vec<TypeExpr>, Span),
    /// `anonymous { f: T }`.
    Anonymous(Vec<(String, TypeExpr)>, Span),
    /// `mut(T)`.
    Mut(Box<TypeExpr>, Span),
    /// `ref(T)`.
    Ref(Box<TypeExpr>, Span),
    /// `typeof(e)`.
    TypeOf(Box<Expr>, Span),
    /// `type`, the declaration of a type slot.
    TypeSlot(Span),
    /// `Self.f`.
    SelfField(String, Span),
    /// `Base { f: T }`.
    Refine(Box<TypeExpr>, Vec<(String, TypeExpr)>, Span),
}

/// A parameter of a function, method or closure.
#[derive(Debug, PartialEq)]
pub struct Param {
    pub name: String,
    pub ty: Option<TypeExpr>,
    pub span: Span,
}

/// One field of a record pattern.
#[derive(Debug, PartialEq)]
pub struct FieldPat {
    pub name: String,
    pub pat: Option<Pattern>,
    pub span: Span,
}

/// A binding pattern.
#[derive(Debug, PartialEq)]
pub enum Pattern {
    /// `_`.
    Wildcard(Span),
    /// A name bound to the whole value.
    Binding(String, Span),
    /// A literal to compare with.
    Literal(Box<Expr>, Span),
    /// `Name { f, g: p }`.
    Record(String, Vec<FieldPat>, Span),
    /// `[p, q]`.
    Array(Vec<Pattern>, Span),
}

/// One segment of a string literal.
#[derive(Debug, PartialEq)]
pub enum StrSeg {
    /// Literal text.
    Lit(String),
    /// An interpolated expression.
    Expr(Box<Expr>),
}

/// A call argument.
#[derive(Debug, PartialEq)]
pub struct Arg {
    pub expr: Expr,
}

/// One arm of a `match`.
#[derive(Debug, PartialEq)]
pub struct MatchArm {
    pub pattern: Pattern,
    pub body: Expr,
    pub span: Span,
}

/// A braced statement list.
#[derive(Debug, PartialEq)]
pub struct Block {
    pub stmts: Vec<Stmt>,
    pub span: Span,
}

/// An expression.
#[derive(Debug, PartialEq)]
pub enum Expr {
    /// An integer literal.
    Int(i64, Span),
    /// A float literal, by its digits.
    Float(String, Span),
    /// `true` or `false`.
    Bool(bool, Span),
    /// `null`.
    Null(Span),
    /// A name.
    Ident(String, Span),
    /// `self`.
    SelfExpr(Span),
    /// A string literal.
    Str(Vec<StrSeg>, Span),
    /// A prefix operation.
    Unary(UnaryOp, Box<Expr>, Span),
    /// An infix operation.
    Binary(BinOp, Box<Expr>, Box<Expr>, Span),
    /// A call.
    Call(Box<Expr>, Vec<Arg>, Span),
    /// `e.f`.
    Field(Box<Expr>, String, Span),
    /// `e[i]`.
    Index(Box<Expr>, Box<Expr>, Span),
    /// `e!`.
    ErrorProp(Box<Expr>, Span),
    /// `(a, b) => e`.
    Closure(Vec<Param>, Box<Expr>, Span),
    /// `[a, b]`.
    Array(Vec<Expr>, Span),
    /// `a..b`.
    Range(Box<Expr>, Box<Expr>, Span),
    /// `T { f: e }`.
    TypeLit(String, Vec<(String, Expr)>, Span),
    /// `T.V { f: e }`.
    VariantLit(String, String, Vec<(String, Expr)>, Span),
    /// `if c { .. } else ..`.
    If(Box<Expr>, Block, Option<Box<Expr>>, Span),
    /// `if let p = e { .. } else ..`.
    IfLet(Pattern, Box<Expr>, Block, Option<Box<Expr>>, Span),
    /// `match e { .. }`.
    Match(Box<Expr>, Vec<MatchArm>, Span),
    /// A block used as an expression.
    Block(Block, Span),
}

/// A statement.
#[allow(inconsistent_fields)]
#[derive(Debug, PartialEq)]
pub enum Stmt {
    /// `let p: T = e`.
    Let { pat: Pattern, ty: Option<TypeExpr>, value: Option<Expr>, is_const: bool, span: Span },
    /// `t = e`, `t += e`, ..
    Assign { target: Expr, op: AssignOp, value: Expr, span: Span },
    /// An expression evaluated for its effect.
    Expr(Expr),
    /// `while c { .. }`.
    While { cond: Expr, body: Block, span: Span },
    /// `for v in e { .. }`.
    For { var: String, iter: Expr, body: Block, span: Span },
    /// `return e`.
    Return(Option<Expr>, Span),
    /// `break`.
    Break(Span),
    /// `continue`.
    Continue(Span),
}

/// A function declaration; with `recv` set, a method implementation `fun T.m`.
#[derive(Debug, PartialEq)]
pub struct FunDecl {
    pub name: String,
    pub recv: Option<TypeExpr>,
    pub params: Vec<Param>,
    pub ret: Option<TypeExpr>,
    pub body: Block,
    pub span: Span,
    pub doc: Option<String>,
}

/// A method declared in a type body.
#[derive(Debug, PartialEq)]
pub struct Method {
    pub name: String,
    pub params: Vec<Param>,
    pub ret: Option<TypeExpr>,
    pub body: Option<Block>,
    pub span: Span,
    pub doc: Option<String>,
}

/// A field declared in a type body.
#[derive(Debug, PartialEq)]
pub struct FieldDecl {
    pub name: String,
    pub ty: Option<TypeExpr>,
    pub span: Span,
}

/// A member of a record or variant body.
#[derive(Debug, PartialEq)]
pub enum Member {
    /// A field.
    Field(FieldDecl),
    /// A method.
    Method(Method),
}

/// One variant of a sum type.
#[derive(Debug, PartialEq)]
pub struct Variant {
    pub name: String,
    pub members: Vec<Member>,
    pub span: Span,
}

/// The right-hand side of a type declaration.
#[derive(Debug, PartialEq)]
pub enum TypeBody {
    /// A record body.
    Record(Vec<Member>),
    /// A list of variants.
    Sum(Vec<Variant>),
    /// An alias of another type.
    Alias(TypeExpr),
}

/// A type declaration.
#[derive(Debug, PartialEq)]
pub struct TypeDecl {
    pub name: String,
    pub interfaces: Vec<String>,
    pub body: TypeBody,
    pub span: Span,
    pub doc: Option<String>,
}

/// A top-level item.
#[derive(Debug, PartialEq)]
pub enum TopLevel {
    /// A type declaration.
    Type(TypeDecl),
    /// A function declaration.
    Fun(FunDecl),
    /// An initialization statement.
    Stmt(Stmt),
}

/// One imported name and the local name it is bound to.
#[derive(Debug, PartialEq)]
pub struct ImportName {
    pub local: String,
    pub remote: String,
}

/// An import declaration.
#[derive(Debug, PartialEq)]
pub struct Import {
    pub path: Vec<String>,
    pub names: Vec<ImportName>,
    pub alias: Option<String>,
}

/// A parsed source file.
#[derive(Debug, PartialEq)]
pub struct Module {
    pub imports: Vec<Import>,
    pub items: Vec<TopLevel>,
}

// ---- models ----

/// The model of [`TypeExpr`].
#[verifier::ext_equal]
pub ghost enum TypeExprV {
    Named(Seq<char>, Span),
    Array(Box<TypeExprV>, Option<usize>, Span),
    Fun(Seq<TypeExprV>, Box<TypeExprV>, Span),
    Nullable(Box<TypeExprV>, Span),
    Fallible(Box<TypeExprV>, Span),
    Tuple(Seq<TypeExprV>, Span),
    Anonymous(Seq<(Seq<char>, TypeExprV)>, Span),
    Mut(Box<TypeExprV>, Span),
    Ref(Box<TypeExprV>, Span),
    TypeOf(Box<ExprV>, Span),
    TypeSlot(Span),
    SelfField(Seq<char>, Span),
    Refine(Box<TypeExprV>, Seq<(Seq<char>, TypeExprV)>, Span),
}

/// The model of [`Param`].
#[verifier::ext_equal]
pub ghost struct ParamV {
    pub name: Seq<char>,
    pub ty: Option<TypeExprV>,
    pub span: Span,
}

/// The model of [`FieldPat`].
#[verifier::ext_equal]
pub ghost struct FieldPatV {
    pub name: Seq<char>,
    pub pat: Option<PatternV>,
    pub span: Span,
}

/// The model of [`Pattern`].
#[verifier::ext_equal]
pub ghost enum PatternV {
    Wildcard(Span),
    Binding(Seq<char>, Span),
    Literal(Box<ExprV>, Span),
    Record(Seq<char>, Seq<FieldPatV>, Span),
    Array(Seq<PatternV>, Span),
}

/// The model of [`StrSeg`].
#[verifier::ext_equal]
pub ghost enum StrSegV {
    Lit(Seq<char>),
    Expr(Box<ExprV>),
}

/// The model of [`Arg`].
#[verifier::ext_equal]
pub ghost struct ArgV {
    pub expr: ExprV,
}

/// The model of [`MatchArm`].
#[verifier::ext_equal]
pub ghost struct MatchArmV {
    pub pattern: PatternV,
    pub body: ExprV,
    pub span: Span,
}

/// The model of [`Block`].
#[verifier::ext_equal]
pub ghost struct BlockV {
    pub stmts: Seq<StmtV>,
    pub span: Span,
}

/// The model of [`Expr`].
#[verifier::ext_equal]
pub ghost enum ExprV {
    Int(i64, Span),
    Float(Seq<char>, Span),
    Bool(bool, Span),
    Null(Span),
    Ident(Seq<char>, Span),
    SelfExpr(Span),
    Str(Seq<StrSegV>, Span),
    Unary(UnaryOp, Box<ExprV>, Span),
    Binary(BinOp, Box<ExprV>, Box<ExprV>, Span),
    Call(Box<ExprV>, Seq<ArgV>, Span),
    Field(Box<ExprV>, Seq<char>, Span),
    Index(Box<ExprV>, Box<ExprV>, Span),
    ErrorProp(Box<ExprV>, Span),
    Closure(Seq<ParamV>, Box<ExprV>, Span),
    Array(Seq<ExprV>, Span),
    Range(Box<ExprV>, Box<ExprV>, Span),
    TypeLit(Seq<char>, Seq<(Seq<char>, ExprV)>, Span),
    VariantLit(Seq<char>, Seq<char>, Seq<(Seq<char>, ExprV)>, Span),
    If(Box<ExprV>, BlockV, Option<Box<ExprV>>, Span),
    IfLet(PatternV, Box<ExprV>, BlockV, Option<Box<ExprV>>, Span),
    Match(Box<ExprV>, Seq<MatchArmV>, Span),
    Block(BlockV, Span),
}

/// The model of [`Stmt`].
#[allow(inconsistent_fields)]
#[verifier::ext_equal]
pub ghost enum StmtV {
    Let { pat: PatternV, ty: Option<TypeExprV>, value: Option<ExprV>, is_const: bool, span: Span },
    Assign { target: ExprV, op: AssignOp, value: ExprV, span: Span },
    Expr(ExprV),
    While { cond: ExprV, body: BlockV, span: Span },
    For { var: Seq<char>, iter: ExprV, body: BlockV, span: Span },
    Return(Option<ExprV>, Span),
    Break(Span),
    Continue(Span),
}

/// The model of [`FunDecl`].
#[verifier::ext_equal]
pub ghost struct FunDeclV {
    pub name: Seq<char>,
    pub recv: Option<TypeExprV>,
    pub params: Seq<ParamV>,
    pub ret: Option<TypeExprV>,
    pub body: BlockV,
    pub span: Span,
    pub doc: Option<Seq<char>>,
}

/// The model of [`Method`].
#[verifier::ext_equal]
pub ghost struct MethodV {
    pub name: Seq<char>,
    pub params: Seq<ParamV>,
    pub ret: Option<TypeExprV>,
    pub body: Option<BlockV>,
    pub span: Span,
    pub doc: Option<Seq<char>>,
}

/// The model of [`FieldDecl`].
#[verifier::ext_equal]
pub ghost struct FieldDeclV {
    pub name: Seq<char>,
    pub ty: Option<TypeExprV>,
    pub span: Span,
}

/// The model of [`Member`].
#[verifier::ext_equal]
pub ghost enum MemberV {
    Field(FieldDeclV),
    Method(MethodV),
}

/// The model of [`Variant`].
#[verifier::ext_equal]
pub ghost struct VariantV {
    pub name: Seq<char>,
    pub members: Seq<MemberV>,
    pub span: Span,
}

/// The model of [`TypeBody`].
#[verifier::ext_equal]
pub ghost enum TypeBodyV {
    Record(Seq<MemberV>),
    Sum(Seq<VariantV>),
    Alias(TypeExprV),
}

/// The model of [`TypeDecl`].
#[verifier::ext_equal]
pub ghost struct TypeDeclV {
    pub name: Seq<char>,
    pub interfaces: Seq<Seq<char>>,
    pub body: TypeBodyV,
    pub span: Span,
    pub doc: Option<Seq<char>>,
}

/// The model of [`TopLevel`].
#[verifier::ext_equal]
pub ghost enum TopLevelV {
    Type(TypeDeclV),
    Fun(FunDeclV),
    Stmt(StmtV),
}

/// The model of [`ImportName`].
#[verifier::ext_equal]
pub ghost struct ImportNameV {
    pub local: Seq<char>,
    pub remote: Seq<char>,
}

/// The model of [`Import`].
#[verifier::ext_equal]
pub ghost struct ImportV {
    pub path: Seq<Seq<char>>,
    pub names: Seq<ImportNameV>,
    pub alias: Option<Seq<char>>,
}

/// The model of [`Module`].
#[verifier::ext_equal]
pub ghost struct ModuleV {
    pub imports: Seq<ImportV>,
    pub items: Seq<TopLevelV>,
}

pub open spec fn type_expr_view(n: TypeExpr) -> TypeExprV
    decreases n,
{
    match n {
        TypeExpr::Named(a, b) => TypeExprV::Named(a@, b),
        TypeExpr::Array(a, b, c) => TypeExprV::Array(Box::new(type_expr_view(*a)), b, c),
        TypeExpr::Fun(a, b, c) => TypeExprV::Fun(type_exprs_view(a@), Box::new(type_expr_view(*b)), c),
        TypeExpr::Nullable(a, b) => TypeExprV::Nullable(Box::new(type_expr_view(*a)), b),
        TypeExpr::Fallible(a, b) => TypeExprV::Fallible(Box::new(type_expr_view(*a)), b),
        TypeExpr::Tuple(a, b) => TypeExprV::Tuple(type_exprs_view(a@), b),
        TypeExpr::Anonymous(a, b) => TypeExprV::Anonymous(named_type_exprs_view(a@), b),
        TypeExpr::Mut(a, b) => TypeExprV::Mut(Box::new(type_expr_view(*a)), b),
        TypeExpr::Ref(a, b) => TypeExprV::Ref(Box::new(type_expr_view(*a)), b),
        TypeExpr::TypeOf(a, b) => TypeExprV::TypeOf(Box::new(expr_view(*a)), b),
        TypeExpr::TypeSlot(a) => TypeExprV::TypeSlot(a),
        TypeExpr::SelfField(a, b) => TypeExprV::SelfField(a@, b),
        TypeExpr::Refine(a, b, c) => TypeExprV::Refine(Box::new(type_expr_view(*a)), named_type_exprs_view(b@), c),
    }
}

pub open spec fn param_view(n: Param) -> ParamV
    decreases n,
{
    ParamV {
        name: n.name@,
        ty: match n.ty { Some(x) => Some(type_expr_view(x)), None => None },
        span: n.span,
    }
}

pub open spec fn field_pat_view(n: FieldPat) -> FieldPatV
    decreases n,
{
    FieldPatV {
        name: n.name@,
        pat: match n.pat { Some(x) => Some(pattern_view(x)), None => None },
        span: n.span,
    }
}

pub open spec fn pattern_view(n: Pattern) -> PatternV
    decreases n,
{
    match n {
        Pattern::Wildcard(a) => PatternV::Wildcard(a),
        Pattern::Binding(a, b) => PatternV::Binding(a@, b),
        Pattern::Literal(a, b) => PatternV::Literal(Box::new(expr_view(*a)), b),
        Pattern::Record(a, b, c) => PatternV::Record(a@, field_pats_view(b@), c),
        Pattern::Array(a, b) => PatternV::Array(patterns_view(a@), b),
    }
}

pub open spec fn str_seg_view(n: StrSeg) -> StrSegV
    decreases n,
{
    match n {
        StrSeg::Lit(a) => StrSegV::Lit(a@),
        StrSeg::Expr(a) => StrSegV::Expr(Box::new(expr_view(*a))),
    }
}

pub open spec fn arg_view(n: Arg) -> ArgV
    decreases n,
{
    ArgV {
        expr: expr_view(n.expr),
    }
}

pub open spec fn match_arm_view(n: MatchArm) -> MatchArmV
    decreases n,
{
    MatchArmV {
        pattern: pattern_view(n.pattern),
        body: expr_view(n.body),
        span: n.span,
    }
}

pub open spec fn block_view(n: Block) -> BlockV
    decreases n,
{
    BlockV {
        stmts: stmts_view(n.stmts@),
        span: n.span,
    }
}

pub open spec fn expr_view(n: Expr) -> ExprV
    decreases n,
{
    match n {
        Expr::Int(a, b) => ExprV::Int(a, b),
        Expr::Float(a, b) => ExprV::Float(a@, b),
        Expr::Bool(a, b) => ExprV::Bool(a, b),
        Expr::Null(a) => ExprV::Null(a),
        Expr::Ident(a, b) => ExprV::Ident(a@, b),
        Expr::SelfExpr(a) => ExprV::SelfExpr(a),
        Expr::Str(a, b) => ExprV::Str(str_segs_view(a@), b),
        Expr::Unary(a, b, c) => ExprV::Unary(a, Box::new(expr_view(*b)), c),
        Expr::Binary(a, b, c, d) => ExprV::Binary(a, Box::new(expr_view(*b)), Box::new(expr_view(*c)), d),
        Expr::Call(a, b, c) => ExprV::Call(Box::new(expr_view(*a)), args_view(b@), c),
        Expr::Field(a, b, c) => ExprV::Field(Box::new(expr_view(*a)), b@, c),
        Expr::Index(a, b, c) => ExprV::Index(Box::new(expr_view(*a)), Box::new(expr_view(*b)), c),
        Expr::ErrorProp(a, b) => ExprV::ErrorProp(Box::new(expr_view(*a)), b),
        Expr::Closure(a, b, c) => ExprV::Closure(params_view(a@), Box::new(expr_view(*b)), c),
        Expr::Array(a, b) => ExprV::Array(exprs_view(a@), b),
        Expr::Range(a, b, c) => ExprV::Range(Box::new(expr_view(*a)), Box::new(expr_view(*b)), c),
        Expr::TypeLit(a, b, c) => ExprV::TypeLit(a@, named_exprs_view(b@), c),
        Expr::VariantLit(a, b, c, d) => ExprV::VariantLit(a@, b@, named_exprs_view(c@), d),
        Expr::If(a, b, c, d) => ExprV::If(Box::new(expr_view(*a)), block_view(b), match c { Some(x) => Some(Box::new(expr_view(*x))), None => None }, d),
        Expr::IfLet(a, b, c, d, e) => ExprV::IfLet(pattern_view(a), Box::new(expr_view(*b)), block_view(c), match d { Some(x) => Some(Box::new(expr_view(*x))), None => None }, e),
        Expr::Match(a, b, c) => ExprV::Match(Box::new(expr_view(*a)), match_arms_view(b@), c),
        Expr::Block(a, b) => ExprV::Block(block_view(a), b),
    }
}

pub open spec fn stmt_view(n: Stmt) -> StmtV
    decreases n,
{
    match n {
        Stmt::Let { pat, ty, value, is_const, span } => StmtV::Let {
            pat: pattern_view(pat),
            ty: match ty { Some(x) => Some(type_expr_view(x)), None => None },
            value: match value { Some(x) => Some(expr_view(x)), None => None },
            is_const: is_const,
            span: span,
        },
        Stmt::Assign { target, op, value, span } => StmtV::Assign {
            target: expr_view(target),
            op: op,
            value: expr_view(value),
            span: span,
        },
        Stmt::Expr(a) => StmtV::Expr(expr_view(a)),
        Stmt::While { cond, body, span } => StmtV::While {
            cond: expr_view(cond),
            body: block_view(body),
            span: span,
        },
        Stmt::For { var, iter, body, span } => StmtV::For {
            var: var@,
            iter: expr_view(iter),
            body: block_view(body),
            span: span,
        },
        Stmt::Return(a, b) => StmtV::Return(match a { Some(x) => Some(expr_view(x)), None => None }, b),
        Stmt::Break(a) => StmtV::Break(a),
        Stmt::Continue(a) => StmtV::Continue(a),
    }
}

pub open spec fn fun_decl_view(n: FunDecl) -> FunDeclV
    decreases n,
{
    FunDeclV {
        name: n.name@,
        recv: match n.recv { Some(x) => Some(type_expr_view(x)), None => None },
        params: params_view(n.params@),
        ret: match n.ret { Some(x) => Some(type_expr_view(x)), None => None },
        body: block_view(n.body),
        span: n.span,
        doc: opt_text(n.doc),
    }
}

pub open spec fn method_view(n: Method) -> MethodV
    decreases n,
{
    MethodV {
        name: n.name@,
        params: params_view(n.params@),
        ret: match n.ret { Some(x) => Some(type_expr_view(x)), None => None },
        body: match n.body { Some(x) => Some(block_view(x)), None => None },
        span: n.span,
        doc: opt_text(n.doc),
    }
}

pub open spec fn field_decl_view(n: FieldDecl) -> FieldDeclV
    decreases n,
{
    FieldDeclV {
        name: n.name@,
        ty: match n.ty { Some(x) => Some(type_expr_view(x)), None => None },
        span: n.span,
    }
}

pub open spec fn member_view(n: Member) -> MemberV
    decreases n,
{
    match n {
        Member::Field(a) => MemberV::Field(field_decl_view(a)),
        Member::Method(a) => MemberV::Method(method_view(a)),
    }
}

pub open spec fn variant_view(n: Variant) -> VariantV
    decreases n,
{
    VariantV {
        name: n.name@,
        members: members_view(n.members@),
        span: n.span,
    }
}

pub open spec fn type_body_view(n: TypeBody) -> TypeBodyV
    decreases n,
{
    match n {
        TypeBody::Record(a) => TypeBodyV::Record(members_view(a@)),
        TypeBody::Sum(a) => TypeBodyV::Sum(variants_view(a@)),
        TypeBody::Alias(a) => TypeBodyV::Alias(type_expr_view(a)),
    }
}

pub open spec fn type_decl_view(n: TypeDecl) -> TypeDeclV
    decreases n,
{
    TypeDeclV {
        name: n.name@,
        interfaces: texts(n.interfaces@),
        body: type_body_view(n.body),
        span: n.span,
        doc: opt_text(n.doc),
    }
}

pub open spec fn top_level_view(n: TopLevel) -> TopLevelV
    decreases n,
{
    match n {
        TopLevel::Type(a) => TopLevelV::Type(type_decl_view(a)),
        TopLevel::Fun(a) => TopLevelV::Fun(fun_decl_view(a)),
        TopLevel::Stmt(a) => TopLevelV::Stmt(stmt_view(a)),
    }
}

pub open spec fn import_name_view(n: ImportName) -> ImportNameV
    decreases n,
{
    ImportNameV {
        local: n.local@,
        remote: n.remote@,
    }
}

pub open spec fn import_view(n: Import) -> ImportV
    decreases n,
{
    ImportV {
        path: texts(n.path@),
        names: import_names_view(n.names@),
        alias: opt_text(n.alias),
    }
}

pub open spec fn module_view(n: Module) -> ModuleV
    decreases n,
{
    ModuleV {
        imports: imports_view(n.imports@),
        items: top_levels_view(n.items@),
    }
}

pub open spec fn type_exprs_view(ns: Seq<TypeExpr>) -> Seq<TypeExprV>
    decreases ns,
{
    Seq::new(ns.len(), |i: int| if 0 <= i < ns.len() { type_expr_view(ns[i]) } else { arbitrary() })
}

pub open spec fn field_pats_view(ns: Seq<FieldPat>) -> Seq<FieldPatV>
    decreases ns,
{
    Seq::new(ns.len(), |i: int| if 0 <= i < ns.len() { field_pat_view(ns[i]) } else { arbitrary() })
}

pub open spec fn patterns_view(ns: Seq<Pattern>) -> Seq<PatternV>
    decreases ns,
{
    Seq::new(ns.len(), |i: int| if 0 <= i < ns.len() { pattern_view(ns[i]) } else { arbitrary() })
}

pub open spec fn stmts_view(ns: Seq<Stmt>) -> Seq<StmtV>
    decreases ns,
{
    Seq::new(ns.len(), |i: int| if 0 <= i < ns.len() { stmt_view(ns[i]) } else { arbitrary() })
}

pub open spec fn str_segs_view(ns: Seq<StrSeg>) -> Seq<StrSegV>
    decreases ns,
{
    Seq::new(ns.len(), |i: int| if 0 <= i < ns.len() { str_seg_view(ns[i]) } else { arbitrary() })
}

pub open spec fn args_view(ns: Seq<Arg>) -> Seq<ArgV>
    decreases ns,
{
    Seq::new(ns.len(), |i: int| if 0 <= i < ns.len() { arg_view(ns[i]) } else { arbitrary() })
}

pub open spec fn params_view(ns: Seq<Param>) -> Seq<ParamV>
    decreases ns,
{
    Seq::new(ns.len(), |i: int| if 0 <= i < ns.len() { param_view(ns[i]) } else { arbitrary() })
}

pub open spec fn exprs_view(ns: Seq<Expr>) -> Seq<ExprV>
    decreases ns,
{
    Seq::new(ns.len(), |i: int| if 0 <= i < ns.len() { expr_view(ns[i]) } else { arbitrary() })
}

pub open spec fn match_arms_view(ns: Seq<MatchArm>) -> Seq<MatchArmV>
    decreases ns,
{
    Seq::new(ns.len(), |i: int| if 0 <= i < ns.len() { match_arm_view(ns[i]) } else { arbitrary() })
}

pub open spec fn members_view(ns: Seq<Member>) -> Seq<MemberV>
    decreases ns,
{
    Seq::new(ns.len(), |i: int| if 0 <= i < ns.len() { member_view(ns[i]) } else { arbitrary() })
}

pub open spec fn variants_view(ns: Seq<Variant>) -> Seq<VariantV>
    decreases ns,
{
    Seq::new(ns.len(), |i: int| if 0 <= i < ns.len() { variant_view(ns[i]) } else { arbitrary() })
}

pub open spec fn import_names_view(ns: Seq<ImportName>) -> Seq<ImportNameV>
    decreases ns,
{
    Seq::new(ns.len(), |i: int| if 0 <= i < ns.len() { import_name_view(ns[i]) } else { arbitrary() })
}

pub open spec fn imports_view(ns: Seq<Import>) -> Seq<ImportV>
    decreases ns,
{
    Seq::new(ns.len(), |i: int| if 0 <= i < ns.len() { import_view(ns[i]) } else { arbitrary() })
}

pub open spec fn top_levels_view(ns: Seq<TopLevel>) -> Seq<TopLevelV>
    decreases ns,
{
    Seq::new(ns.len(), |i: int| if 0 <= i < ns.len() { top_level_view(ns[i]) } else { arbitrary() })
}

pub open spec fn named_type_exprs_view(ns: Seq<(String, TypeExpr)>) -> Seq<(Seq<char>, TypeExprV)>
    decreases ns,
{
    Seq::new(
        ns.len(),
        |i: int| if 0 <= i < ns.len() { (ns[i].0@, type_expr_view(ns[i].1)) } else { arbitrary() },
    )
}

pub open spec fn named_exprs_view(ns: Seq<(String, Expr)>) -> Seq<(Seq<char>, ExprV)>
    decreases ns,
{
    Seq::new(
        ns.len(),
        |i: int| if 0 <= i < ns.len() { (ns[i].0@, expr_view(ns[i].1)) } else { arbitrary() },
    )
}

impl View for TypeExpr {
    type V = TypeExprV;

    open spec fn view(&self) -> TypeExprV {
        type_expr_view(*self)
    }
}

impl View for Param {
    type V = ParamV;

    open spec fn view(&self) -> ParamV {
        param_view(*self)
    }
}

impl View for FieldPat {
    type V = FieldPatV;

    open spec fn view(&self) -> FieldPatV {
        field_pat_view(*self)
    }
}

impl View for Pattern {
    type V = PatternV;

    open spec fn view(&self) -> PatternV {
        pattern_view(*self)
    }
}

impl View for StrSeg {
    type V = StrSegV;

    open spec fn view(&self) -> StrSegV {
        str_seg_view(*self)
    }
}

impl View for Arg {
    type V = ArgV;

    open spec fn view(&self) -> ArgV {
        arg_view(*self)
    }
}

impl View for MatchArm {
    type V = MatchArmV;

    open spec fn view(&self) -> MatchArmV {
        match_arm_view(*self)
    }
}

impl View for Block {
    type V = BlockV;

    open spec fn view(&self) -> BlockV {
        block_view(*self)
    }
}

impl View for Expr {
    type V = ExprV;

    open spec fn view(&self) -> ExprV {
        expr_view(*self)
    }
}

impl View for Stmt {
    type V = StmtV;

    open spec fn view(&self) -> StmtV {
        stmt_view(*self)
    }
}

impl View for FunDecl {
    type V = FunDeclV;

    open spec fn view(&self) -> FunDeclV {
        fun_decl_view(*self)
    }
}

impl View for Method {
    type V = MethodV;

    open spec fn view(&self) -> MethodV {
        method_view(*self)
    }
}

impl View for FieldDecl {
    type V = FieldDeclV;

    open spec fn view(&self) -> FieldDeclV {
        field_decl_view(*self)
    }
}

impl View for Member {
    type V = MemberV;

    open spec fn view(&self) -> MemberV {
        member_view(*self)
    }
}

impl View for Variant {
    type V = VariantV;

    open spec fn view(&self) -> VariantV {
        variant_view(*self)
    }
}

impl View for TypeBody {
    type V = TypeBodyV;

    open spec fn view(&self) -> TypeBodyV {
        type_body_view(*self)
    }
}

impl View for TypeDecl {
    type V = TypeDeclV;

    open spec fn view(&self) -> TypeDeclV {
        type_decl_view(*self)
    }
}

impl View for TopLevel {
    type V = TopLevelV;

    open spec fn view(&self) -> TopLevelV {
        top_level_view(*self)
    }
}

impl View for ImportName {
    type V = ImportNameV;

    open spec fn view(&self) -> ImportNameV {
        import_name_view(*self)
    }
}

impl View for Import {
    type V = ImportV;

    open spec fn view(&self) -> ImportV {
        import_view(*self)
    }
}

impl View for Module {
    type V = ModuleV;

    open spec fn view(&self) -> ModuleV {
        module_view(*self)
    }
}

// ---- copies ----

impl Clone for TypeExpr {
    fn clone(&self) -> (r: TypeExpr)
        ensures
            r@ == self@,
    {
        clone_type_expr(self)
    }
}

/// A copy of `n`.
#[verifier::rlimit(50)]
pub fn clone_type_expr(n: &TypeExpr) -> (r: TypeExpr)
    ensures
        r@ == n@,
    decreases *n,
{
    match n {
        TypeExpr::Named(a, b) => TypeExpr::Named(a.clone(), *b),
        TypeExpr::Array(a, b, c) => TypeExpr::Array(Box::new(clone_type_expr(a)), *b, *c),
        TypeExpr::Fun(a, b, c) => TypeExpr::Fun(clone_type_exprs(a), Box::new(clone_type_expr(b)), *c),
        TypeExpr::Nullable(a, b) => TypeExpr::Nullable(Box::new(clone_type_expr(a)), *b),
        TypeExpr::Fallible(a, b) => TypeExpr::Fallible(Box::new(clone_type_expr(a)), *b),
        TypeExpr::Tuple(a, b) => TypeExpr::Tuple(clone_type_exprs(a), *b),
        TypeExpr::Anonymous(a, b) => TypeExpr::Anonymous(clone_named_type_exprs(a), *b),
        TypeExpr::Mut(a, b) => TypeExpr::Mut(Box::new(clone_type_expr(a)), *b),
        TypeExpr::Ref(a, b) => TypeExpr::Ref(Box::new(clone_type_expr(a)), *b),
        TypeExpr::TypeOf(a, b) => TypeExpr::TypeOf(Box::new(clone_expr(a)), *b),
        TypeExpr::TypeSlot(a) => TypeExpr::TypeSlot(*a),
        TypeExpr::SelfField(a, b) => TypeExpr::SelfField(a.clone(), *b),
        TypeExpr::Refine(a, b, c) => TypeExpr::Refine(Box::new(clone_type_expr(a)), clone_named_type_exprs(b), *c),
    }
}

impl Clone for Param {
    fn clone(&self) -> (r: Param)
        ensures
            r@ == self@,
    {
        clone_param(self)
    }
}

/// A copy of `n`.
pub fn clone_param(n: &Param) -> (r: Param)
    ensures
        r@ == n@,
    decreases *n,
{
    Param {
        name: n.name.clone(),
        ty: match &n.ty { Some(x) => Some(clone_type_expr(x)), None => None },
        span: n.span,
    }
}

impl Clone for FieldPat {
    fn clone(&self) -> (r: FieldPat)
        ensures
            r@ == self@,
    {
        clone_field_pat(self)
    }
}

/// A copy of `n`.
pub fn clone_field_pat(n: &FieldPat) -> (r: FieldPat)
    ensures
        r@ == n@,
    decreases *n,
{
    FieldPat {
        name: n.name.clone(),
        pat: match &n.pat { Some(x) => Some(clone_pattern(x)), None => None },
        span: n.span,
    }
}

impl Clone for Pattern {
    fn clone(&self) -> (r: Pattern)
        ensures
            r@ == self@,
    {
        clone_pattern(self)
    }
}

/// A copy of `n`.
#[verifier::rlimit(50)]
pub fn clone_pattern(n: &Pattern) -> (r: Pattern)
    ensures
        r@ == n@,
    decreases *n,
{
    match n {
        Pattern::Wildcard(a) => Pattern::Wildcard(*a),
        Pattern::Binding(a, b) => Pattern::Binding(a.clone(), *b),
        Pattern::Literal(a, b) => Pattern::Literal(Box::new(clone_expr(a)), *b),
        Pattern::Record(a, b, c) => Pattern::Record(a.clone(), clone_field_pats(b), *c),
        Pattern::Array(a, b) => Pattern::Array(clone_patterns(a), *b),
    }
}

impl Clone for StrSeg {
    fn clone(&self) -> (r: StrSeg)
        ensures
            r@ == self@,
    {
        clone_str_seg(self)
    }
}

/// A copy of `n`.
pub fn clone_str_seg(n: &StrSeg) -> (r: StrSeg)
    ensures
        r@ == n@,
    decreases *n,
{
    match n {
        StrSeg::Lit(a) => StrSeg::Lit(a.clone()),
        StrSeg::Expr(a) => StrSeg::Expr(Box::new(clone_expr(a))),
    }
}

impl Clone for Arg {
    fn clone(&self) -> (r: Arg)
        ensures
            r@ == self@,
    {
        clone_arg(self)
    }
}

/// A copy of `n`.
pub fn clone_arg(n: &Arg) -> (r: Arg)
    ensures
        r@ == n@,
    decreases *n,
{
    Arg {
        expr: clone_expr(&n.expr),
    }
}

impl Clone for MatchArm {
    fn clone(&self) -> (r: MatchArm)
        ensures
            r@ == self@,
    {
        clone_match_arm(self)
    }
}

/// A copy of `n`.
pub fn clone_match_arm(n: &MatchArm) -> (r: MatchArm)
    ensures
        r@ == n@,
    decreases *n,
{
    MatchArm {
        pattern: clone_pattern(&n.pattern),
        body: clone_expr(&n.body),
        span: n.span,
    }
}

impl Clone for Block {
    fn clone(&self) -> (r: Block)
        ensures
            r@ == self@,
    {
        clone_block(self)
    }
}

/// A copy of `n`.
pub fn clone_block(n: &Block) -> (r: Block)
    ensures
        r@ == n@,
    decreases *n,
{
    Block {
        stmts: clone_stmts(&n.stmts),
        span: n.span,
    }
}

impl Clone for Expr {
    fn clone(&self) -> (r: Expr)
        ensures
            r@ == self@,
    {
        clone_expr(self)
    }
}

/// A copy of `n`.
#[verifier::rlimit(50)]
pub fn clone_expr(n: &Expr) -> (r: Expr)
    ensures
        r@ == n@,
    decreases *n,
{
    match n {
        Expr::Int(a, b) => Expr::Int(*a, *b),
        Expr::Float(a, b) => Expr::Float(a.clone(), *b),
        Expr::Bool(a, b) => Expr::Bool(*a, *b),
        Expr::Null(a) => Expr::Null(*a),
        Expr::Ident(a, b) => Expr::Ident(a.clone(), *b),
        Expr::SelfExpr(a) => Expr::SelfExpr(*a),
        Expr::Str(a, b) => Expr::Str(clone_str_segs(a), *b),
        Expr::Unary(a, b, c) => Expr::Unary(*a, Box::new(clone_expr(b)), *c),
        Expr::Binary(a, b, c, d) => Expr::Binary(*a, Box::new(clone_expr(b)), Box::new(clone_expr(c)), *d),
        Expr::Call(a, b, c) => Expr::Call(Box::new(clone_expr(a)), clone_args(b), *c),
        Expr::Field(a, b, c) => Expr::Field(Box::new(clone_expr(a)), b.clone(), *c),
        Expr::Index(a, b, c) => Expr::Index(Box::new(clone_expr(a)), Box::new(clone_expr(b)), *c),
        Expr::ErrorProp(a, b) => Expr::ErrorProp(Box::new(clone_expr(a)), *b),
        Expr::Closure(a, b, c) => Expr::Closure(clone_params(a), Box::new(clone_expr(b)), *c),
        Expr::Array(a, b) => Expr::Array(clone_exprs(a), *b),
        Expr::Range(a, b, c) => Expr::Range(Box::new(clone_expr(a)), Box::new(clone_expr(b)), *c),
        Expr::TypeLit(a, b, c) => Expr::TypeLit(a.clone(), clone_named_exprs(b), *c),
        Expr::VariantLit(a, b, c, d) => Expr::VariantLit(a.clone(), b.clone(), clone_named_exprs(c), *d),
        Expr::If(a, b, c, d) => Expr::If(Box::new(clone_expr(a)), clone_block(b), match c { Some(x) => Some(Box::new(clone_expr(x))), None => None }, *d),
        Expr::IfLet(a, b, c, d, e) => Expr::IfLet(clone_pattern(a), Box::new(clone_expr(b)), clone_block(c), match d { Some(x) => Some(Box::new(clone_expr(x))), None => None }, *e),
        Expr::Match(a, b, c) => Expr::Match(Box::new(clone_expr(a)), clone_match_arms(b), *c),
        Expr::Block(a, b) => Expr::Block(clone_block(a), *b),
    }
}

impl Clone for Stmt {
    fn clone(&self) -> (r: Stmt)
        ensures
            r@ == self@,
    {
        clone_stmt(self)
    }
}

/// A copy of `n`.
#[verifier::rlimit(50)]
pub fn clone_stmt(n: &Stmt) -> (r: Stmt)
    ensures
        r@ == n@,
    decreases *n,
{
    match n {
        Stmt::Let { pat, ty, value, is_const, span } => Stmt::Let {
            pat: clone_pattern(pat),
            ty: match ty { Some(x) => Some(clone_type_expr(x)), None => None },
            value: match value { Some(x) => Some(clone_expr(x)), None => None },
            is_const: *is_const,
            span: *span,
        },
        Stmt::Assign { target, op, value, span } => Stmt::Assign {
            target: clone_expr(target),
            op: *op,
            value: clone_expr(value),
            span: *span,
        },
        Stmt::Expr(a) => Stmt::Expr(clone_expr(a)),
        Stmt::While { cond, body, span } => Stmt::While {
            cond: clone_expr(cond),
            body: clone_block(body),
            span: *span,
        },
        Stmt::For { var, iter, body, span } => Stmt::For {
            var: var.clone(),
            iter: clone_expr(iter),
            body: clone_block(body),
            span: *span,
        },
        Stmt::Return(a, b) => Stmt::Return(match a { Some(x) => Some(clone_expr(x)), None => None }, *b),
        Stmt::Break(a) => Stmt::Break(*a),
        Stmt::Continue(a) => Stmt::Continue(*a),
    }
}

impl Clone for FunDecl {
    fn clone(&self) -> (r: FunDecl)
        ensures
            r@ == self@,
    {
        clone_fun_decl(self)
    }
}

/// A copy of `n`.
pub fn clone_fun_decl(n: &FunDecl) -> (r: FunDecl)
    ensures
        r@ == n@,
    decreases *n,
{
    FunDecl {
        name: n.name.clone(),
        recv: match &n.recv { Some(x) => Some(clone_type_expr(x)), None => None },
        params: clone_params(&n.params),
        ret: match &n.ret { Some(x) => Some(clone_type_expr(x)), None => None },
        body: clone_block(&n.body),
        span: n.span,
        doc: clone_opt_string(&n.doc),
    }
}

impl Clone for Method {
    fn clone(&self) -> (r: Method)
        ensures
            r@ == self@,
    {
        clone_method(self)
    }
}

/// A copy of `n`.
pub fn clone_method(n: &Method) -> (r: Method)
    ensures
        r@ == n@,
    decreases *n,
{
    Method {
        name: n.name.clone(),
        params: clone_params(&n.params),
        ret: match &n.ret { Some(x) => Some(clone_type_expr(x)), None => None },
        body: match &n.body { Some(x) => Some(clone_block(x)), None => None },
        span: n.span,
        doc: clone_opt_string(&n.doc),
    }
}

impl Clone for FieldDecl {
    fn clone(&self) -> (r: FieldDecl)
        ensures
            r@ == self@,
    {
        clone_field_decl(self)
    }
}

/// A copy of `n`.
pub fn clone_field_decl(n: &FieldDecl) -> (r: FieldDecl)
    ensures
        r@ == n@,
    decreases *n,
{
    FieldDecl {
        name: n.name.clone(),
        ty: match &n.ty { Some(x) => Some(clone_type_expr(x)), None => None },
        span: n.span,
    }
}

impl Clone for Member {
    fn clone(&self) -> (r: Member)
        ensures
            r@ == self@,
    {
        clone_member(self)
    }
}

/// A copy of `n`.
pub fn clone_member(n: &Member) -> (r: Member)
    ensures
        r@ == n@,
    decreases *n,
{
    match n {
        Member::Field(a) => Member::Field(clone_field_decl(a)),
        Member::Method(a) => Member::Method(clone_method(a)),
    }
}

impl Clone for Variant {
    fn clone(&self) -> (r: Variant)
        ensures
            r@ == self@,
    {
        clone_variant(self)
    }
}

/// A copy of `n`.
pub fn clone_variant(n: &Variant) -> (r: Variant)
    ensures
        r@ == n@,
    decreases *n,
{
    Variant {
        name: n.name.clone(),
        members: clone_members(&n.members),
        span: n.span,
    }
}

impl Clone for TypeBody {
    fn clone(&self) -> (r: TypeBody)
        ensures
            r@ == self@,
    {
        clone_type_body(self)
    }
}

/// A copy of `n`.
pub fn clone_type_body(n: &TypeBody) -> (r: TypeBody)
    ensures
        r@ == n@,
    decreases *n,
{
    match n {
        TypeBody::Record(a) => TypeBody::Record(clone_members(a)),
        TypeBody::Sum(a) => TypeBody::Sum(clone_variants(a)),
        TypeBody::Alias(a) => TypeBody::Alias(clone_type_expr(a)),
    }
}

impl Clone for TypeDecl {
    fn clone(&self) -> (r: TypeDecl)
        ensures
            r@ == self@,
    {
        clone_type_decl(self)
    }
}

/// A copy of `n`.
pub fn clone_type_decl(n: &TypeDecl) -> (r: TypeDecl)
    ensures
        r@ == n@,
    decreases *n,
{
    TypeDecl {
        name: n.name.clone(),
        interfaces: clone_strings(&n.interfaces),
        body: clone_type_body(&n.body),
        span: n.span,
        doc: clone_opt_string(&n.doc),
    }
}

impl Clone for TopLevel {
    fn clone(&self) -> (r: TopLevel)
        ensures
            r@ == self@,
    {
        clone_top_level(self)
    }
}

/// A copy of `n`.
pub fn clone_top_level(n: &TopLevel) -> (r: TopLevel)
    ensures
        r@ == n@,
    decreases *n,
{
    match n {
        TopLevel::Type(a) => TopLevel::Type(clone_type_decl(a)),
        TopLevel::Fun(a) => TopLevel::Fun(clone_fun_decl(a)),
        TopLevel::Stmt(a) => TopLevel::Stmt(clone_stmt(a)),
    }
}

impl Clone for ImportName {
    fn clone(&self) -> (r: ImportName)
        ensures
            r@ == self@,
    {
        clone_import_name(self)
    }
}

/// A copy of `n`.
pub fn clone_import_name(n: &ImportName) -> (r: ImportName)
    ensures
        r@ == n@,
    decreases *n,
{
    ImportName {
        local: n.local.clone(),
        remote: n.remote.clone(),
    }
}

impl Clone for Import {
    fn clone(&self) -> (r: Import)
        ensures
            r@ == self@,
    {
        clone_import(self)
    }
}

/// A copy of `n`.
pub fn clone_import(n: &Import) -> (r: Import)
    ensures
        r@ == n@,
    decreases *n,
{
    Import {
        path: clone_strings(&n.path),
        names: clone_import_names(&n.names),
        alias: clone_opt_string(&n.alias),
    }
}

impl Clone for Module {
    fn clone(&self) -> (r: Module)
        ensures
            r@ == self@,
    {
        clone_module(self)
    }
}

/// A copy of `n`.
pub fn clone_module(n: &Module) -> (r: Module)
    ensures
        r@ == n@,
    decreases *n,
{
    Module {
        imports: clone_imports(&n.imports),
        items: clone_top_levels(&n.items),
    }
}

/// A copy of a list.
pub fn clone_type_exprs(ns: &Vec<TypeExpr>) -> (r: Vec<TypeExpr>)
    ensures
        type_exprs_view(r@) == type_exprs_view(ns@),
    decreases *ns,
{
    let mut out: Vec<TypeExpr> = Vec::new();
    for i in 0..ns.len()
        invariant
            out.len() == i,
            forall|j: int| 0 <= j < i ==> (#[trigger] out[j])@ == ns[j]@,
    {
        out.push(clone_type_expr(&ns[i]));
    }
    assert(type_exprs_view(out@) =~= type_exprs_view(ns@));
    out
}

/// A copy of a list.
pub fn clone_field_pats(ns: &Vec<FieldPat>) -> (r: Vec<FieldPat>)
    ensures
        field_pats_view(r@) == field_pats_view(ns@),
    decreases *ns,
{
    let mut out: Vec<FieldPat> = Vec::new();
    for i in 0..ns.len()
        invariant
            out.len() == i,
            forall|j: int| 0 <= j < i ==> (#[trigger] out[j])@ == ns[j]@,
    {
        out.push(clone_field_pat(&ns[i]));
    }
    assert(field_pats_view(out@) =~= field_pats_view(ns@));
    out
}

/// A copy of a list.
pub fn clone_patterns(ns: &Vec<Pattern>) -> (r: Vec<Pattern>)
    ensures
        patterns_view(r@) == patterns_view(ns@),
    decreases *ns,
{
    let mut out: Vec<Pattern> = Vec::new();
    for i in 0..ns.len()
        invariant
            out.len() == i,
            forall|j: int| 0 <= j < i ==> (#[trigger] out[j])@ == ns[j]@,
    {
        out.push(clone_pattern(&ns[i]));
    }
    assert(patterns_view(out@) =~= patterns_view(ns@));
    out
}

/// A copy of a list.
pub fn clone_stmts(ns: &Vec<Stmt>) -> (r: Vec<Stmt>)
    ensures
        stmts_view(r@) == stmts_view(ns@),
    decreases *ns,
{
    let mut out: Vec<Stmt> = Vec::new();
    for i in 0..ns.len()
        invariant
            out.len() == i,
            forall|j: int| 0 <= j < i ==> (#[trigger] out[j])@ == ns[j]@,
    {
        out.push(clone_stmt(&ns[i]));
    }
    assert(stmts_view(out@) =~= stmts_view(ns@));
    out
}

/// A copy of a list.
pub fn clone_str_segs(ns: &Vec<StrSeg>) -> (r: Vec<StrSeg>)
    ensures
        str_segs_view(r@) == str_segs_view(ns@),
    decreases *ns,
{
    let mut out: Vec<StrSeg> = Vec::new();
    for i in 0..ns.len()
        invariant
            out.len() == i,
            forall|j: int| 0 <= j < i ==> (#[trigger] out[j])@ == ns[j]@,
    {
        out.push(clone_str_seg(&ns[i]));
    }
    assert(str_segs_view(out@) =~= str_segs_view(ns@));
    out
}

/// A copy of a list.
pub fn clone_args(ns: &Vec<Arg>) -> (r: Vec<Arg>)
    ensures
        args_view(r@) == args_view(ns@),
    decreases *ns,
{
    let mut out: Vec<Arg> = Vec::new();
    for i in 0..ns.len()
        invariant
            out.len() == i,
            forall|j: int| 0 <= j < i ==> (#[trigger] out[j])@ == ns[j]@,
    {
        out.push(clone_arg(&ns[i]));
    }
    assert(args_view(out@) =~= args_view(ns@));
    out
}

/// A copy of a list.
pub fn clone_params(ns: &Vec<Param>) -> (r: Vec<Param>)
    ensures
        params_view(r@) == params_view(ns@),
    decreases *ns,
{
    let mut out: Vec<Param> = Vec::new();
    for i in 0..ns.len()
        invariant
            out.len() == i,
            forall|j: int| 0 <= j < i ==> (#[trigger] out[j])@ == ns[j]@,
    {
        out.push(clone_param(&ns[i]));
    }
    assert(params_view(out@) =~= params_view(ns@));
    out
}

/// A copy of a list.
pub fn clone_exprs(ns: &Vec<Expr>) -> (r: Vec<Expr>)
    ensures
        exprs_view(r@) == exprs_view(ns@),
    decreases *ns,
{
    let mut out: Vec<Expr> = Vec::new();
    for i in 0..ns.len()
        invariant
            out.len() == i,
            forall|j: int| 0 <= j < i ==> (#[trigger] out[j])@ == ns[j]@,
    {
        out.push(clone_expr(&ns[i]));
    }
    assert(exprs_view(out@) =~= exprs_view(ns@));
    out
}

/// A copy of a list.
pub fn clone_match_arms(ns: &Vec<MatchArm>) -> (r: Vec<MatchArm>)
    ensures
        match_arms_view(r@) == match_arms_view(ns@),
    decreases *ns,
{
    let mut out: Vec<MatchArm> = Vec::new();
    for i in 0..ns.len()
        invariant
            out.len() == i,
            forall|j: int| 0 <= j < i ==> (#[trigger] out[j])@ == ns[j]@,
    {
        out.push(clone_match_arm(&ns[i]));
    }
    assert(match_arms_view(out@) =~= match_arms_view(ns@));
    out
}

/// A copy of a list.
pub fn clone_members(ns: &Vec<Member>) -> (r: Vec<Member>)
    ensures
        members_view(r@) == members_view(ns@),
    decreases *ns,
{
    let mut out: Vec<Member> = Vec::new();
    for i in 0..ns.len()
        invariant
            out.len() == i,
            forall|j: int| 0 <= j < i ==> (#[trigger] out[j])@ == ns[j]@,
    {
        out.push(clone_member(&ns[i]));
    }
    assert(members_view(out@) =~= members_view(ns@));
    out
}

/// A copy of a list.
pub fn clone_variants(ns: &Vec<Variant>) -> (r: Vec<Variant>)
    ensures
        variants_view(r@) == variants_view(ns@),
    decreases *ns,
{
    let mut out: Vec<Variant> = Vec::new();
    for i in 0..ns.len()
        invariant
            out.len() == i,
            forall|j: int| 0 <= j < i ==> (#[trigger] out[j])@ == ns[j]@,
    {
        out.push(clone_variant(&ns[i]));
    }
    assert(variants_view(out@) =~= variants_view(ns@));
    out
}

/// A copy of a list.
pub fn clone_import_names(ns: &Vec<ImportName>) -> (r: Vec<ImportName>)
    ensures
        import_names_view(r@) == import_names_view(ns@),
    decreases *ns,
{
    let mut out: Vec<ImportName> = Vec::new();
    for i in 0..ns.len()
        invariant
            out.len() == i,
            forall|j: int| 0 <= j < i ==> (#[trigger] out[j])@ == ns[j]@,
    {
        out.push(clone_import_name(&ns[i]));
    }
    assert(import_names_view(out@) =~= import_names_view(ns@));
    out
}

/// A copy of a list.
pub fn clone_imports(ns: &Vec<Import>) -> (r: Vec<Import>)
    ensures
        imports_view(r@) == imports_view(ns@),
    decreases *ns,
{
    let mut out: Vec<Import> = Vec::new();
    for i in 0..ns.len()
        invariant
            out.len() == i,
            forall|j: int| 0 <= j < i ==> (#[trigger] out[j])@ == ns[j]@,
    {
        out.push(clone_import(&ns[i]));
    }
    assert(imports_view(out@) =~= imports_view(ns@));
    out
}

/// A copy of a list.
pub fn clone_top_levels(ns: &Vec<TopLevel>) -> (r: Vec<TopLevel>)
    ensures
        top_levels_view(r@) == top_levels_view(ns@),
    decreases *ns,
{
    let mut out: Vec<TopLevel> = Vec::new();
    for i in 0..ns.len()
        invariant
            out.len() == i,
            forall|j: int| 0 <= j < i ==> (#[trigger] out[j])@ == ns[j]@,
    {
        out.push(clone_top_level(&ns[i]));
    }
    assert(top_levels_view(out@) =~= top_levels_view(ns@));
    out
}

/// A copy of a list of named entries.
pub fn clone_named_type_exprs(ns: &Vec<(String, TypeExpr)>) -> (r: Vec<(String, TypeExpr)>)
    ensures
        named_type_exprs_view(r@) == named_type_exprs_view(ns@),
    decreases *ns,
{
    let mut out: Vec<(String, TypeExpr)> = Vec::new();
    for i in 0..ns.len()
        invariant
            out.len() == i,
            forall|j: int|
                0 <= j < i ==> (#[trigger] out[j]).0@ == ns[j].0@ && out[j].1@ == ns[j].1@,
    {
        out.push((ns[i].0.clone(), clone_type_expr(&ns[i].1)));
    }
    assert(named_type_exprs_view(out@) =~= named_type_exprs_view(ns@));
    out
}

/// A copy of a list of named entries.
pub fn clone_named_exprs(ns: &Vec<(String, Expr)>) -> (r: Vec<(String, Expr)>)
    ensures
        named_exprs_view(r@) == named_exprs_view(ns@),
    decreases *ns,
{
    let mut out: Vec<(String, Expr)> = Vec::new();
    for i in 0..ns.len()
        invariant
            out.len() == i,
            forall|j: int|
                0 <= j < i ==> (#[trigger] out[j]).0@ == ns[j].0@ && out[j].1@ == ns[j].1@,
    {
        out.push((ns[i].0.clone(), clone_expr(&ns[i].1)));
    }
    assert(named_exprs_view(out@) =~= named_exprs_view(ns@));
    out
}

// ---- spans ----

impl ExprV {
    /// The source span of the whole node.
    pub open spec fn span(self) -> Span {
        match self {
            ExprV::Int(_, s) => s,
            ExprV::Float(_, s) => s,
            ExprV::Bool(_, s) => s,
            ExprV::Null(s) => s,
            ExprV::Ident(_, s) => s,
            ExprV::SelfExpr(s) => s,
            ExprV::Str(_, s) => s,
            ExprV::Unary(_, _, s) => s,
            ExprV::Binary(_, _, _, s) => s,
            ExprV::Call(_, _, s) => s,
            ExprV::Field(_, _, s) => s,
            ExprV::Index(_, _, s) => s,
            ExprV::ErrorProp(_, s) => s,
            ExprV::Closure(_, _, s) => s,
            ExprV::Array(_, s) => s,
            ExprV::Range(_, _, s) => s,
            ExprV::TypeLit(_, _, s) => s,
            ExprV::VariantLit(_, _, _, s) => s,
            ExprV::If(_, _, _, s) => s,
            ExprV::IfLet(_, _, _, _, s) => s,
            ExprV::Match(_, _, s) => s,
            ExprV::Block(_, s) => s,
        }
    }
}

impl Expr {
    /// The source span of the whole node.
    pub fn span(&self) -> (r: Span)
        ensures
            r == self@.span(),
    {
        match self {
            Expr::Int(_, s) => *s,
            Expr::Float(_, s) => *s,
            Expr::Bool(_, s) => *s,
            Expr::Null(s) => *s,
            Expr::Ident(_, s) => *s,
            Expr::SelfExpr(s) => *s,
            Expr::Str(_, s) => *s,
            Expr::Unary(_, _, s) => *s,
            Expr::Binary(_, _, _, s) => *s,
            Expr::Call(_, _, s) => *s,
            Expr::Field(_, _, s) => *s,
            Expr::Index(_, _, s) => *s,
            Expr::ErrorProp(_, s) => *s,
            Expr::Closure(_, _, s) => *s,
            Expr::Array(_, s) => *s,
            Expr::Range(_, _, s) => *s,
            Expr::TypeLit(_, _, s) => *s,
            Expr::VariantLit(_, _, _, s) => *s,
            Expr::If(_, _, _, s) => *s,
            Expr::IfLet(_, _, _, _, s) => *s,
            Expr::Match(_, _, s) => *s,
            Expr::Block(_, s) => *s,
        }
    }
}

impl TypeExprV {
    /// The source span of the whole node.
    pub open spec fn span(self) -> Span {
        match self {
            TypeExprV::Named(_, s) => s,
            TypeExprV::Array(_, _, s) => s,
            TypeExprV::Fun(_, _, s) => s,
            TypeExprV::Nullable(_, s) => s,
            TypeExprV::Fallible(_, s) => s,
            TypeExprV::Tuple(_, s) => s,
            TypeExprV::Anonymous(_, s) => s,
            TypeExprV::Mut(_, s) => s,
            TypeExprV::Ref(_, s) => s,
            TypeExprV::TypeOf(_, s) => s,
            TypeExprV::TypeSlot(s) => s,
            TypeExprV::SelfField(_, s) => s,
            TypeExprV::Refine(_, _, s) => s,
        }
    }
}

impl TypeExpr {
    /// The source span of the whole node.
    pub fn span(&self) -> (r: Span)
        ensures
            r == self@.span(),
    {
        match self {
            TypeExpr::Named(_, s) => *s,
            TypeExpr::Array(_, _, s) => *s,
            TypeExpr::Fun(_, _, s) => *s,
            TypeExpr::Nullable(_, s) => *s,
            TypeExpr::Fallible(_, s) => *s,
            TypeExpr::Tuple(_, s) => *s,
            TypeExpr::Anonymous(_, s) => *s,
            TypeExpr::Mut(_, s) => *s,
            TypeExpr::Ref(_, s) => *s,
            TypeExpr::TypeOf(_, s) => *s,
            TypeExpr::TypeSlot(s) => *s,
            TypeExpr::SelfField(_, s) => *s,
            TypeExpr::Refine(_, _, s) => *s,
        }
    }
}

impl PatternV {
    /// The source span of the whole node.
    pub open spec fn span(self) -> Span {
        match self {
            PatternV::Wildcard(s) => s,
            PatternV::Binding(_, s) => s,
            PatternV::Literal(_, s) => s,
            PatternV::Record(_, _, s) => s,
            PatternV::Array(_, s) => s,
        }
    }
}

impl Pattern {
    /// The source span of the whole node.
    pub fn span(&self) -> (r: Span)
        ensures
            r == self@.span(),
    {
        match self {
            Pattern::Wildcard(s) => *s,
            Pattern::Binding(_, s) => *s,
            Pattern::Literal(_, s) => *s,
            Pattern::Record(_, _, s) => *s,
            Pattern::Array(_, s) => *s,
        }
    }
}

} // verus!
