//! The types recorded for checked expressions, beside the tree that is compiled.

use vstd::prelude::*;
use crate::ast::{exprs_view, BinOp, Expr, ExprV, UnaryOp};
use crate::span::Span;
use crate::types::{Type, TypeV};

verus! {

/// Constness attached to a typed expression.
#[derive(Clone, Copy, Debug, PartialEq, Eq, Structural)]
pub enum Constness {
    Mutable,
    Const,
    Unknown,
}

/// A region identifier: the unit of mutable-object ownership a `with` scope
/// establishes. Matches the runtime's 1-based region ids.
pub type RegionId = u32;

/// The ownership class of a checked expression's value. Most values are `Local`
/// (the thread's implicit region); `Immutable`, `Cown` and `InRegion` come from
/// freeze, cown and region operations. Several are settled only once concrete types
/// are known, so an expression the front end has not resolved carries `Unknown`.
#[derive(Clone, Copy, Debug, PartialEq, Eq, Structural)]
pub enum Ownership {
    /// The thread's local region (the default for newly created values).
    Local,
    /// Deeply frozen and shareable across threads.
    Immutable,
    /// Held in a cown, reached only under its lock.
    Cown,
    /// Inside an explicit region.
    InRegion(RegionId),
    /// Not yet determined.
    Unknown,
}

/// The shape of a checked expression: its identity, without its children.
#[derive(Clone, Debug, PartialEq)]
pub enum TypedExprKind {
    Int,
    Float,
    String,
    Bool,
    Null,
    Ident(String),
    SelfExpr,
    Unary(UnaryOp),
    Binary(BinOp),
    Call,
    Field(String),
    Index,
    ErrorPropagate,
    Closure,
    Array {
        /// Whether the literal has no elements, so that its checked type is the
        /// only source of its element representation.
        empty: bool,
    },
    TypeLiteral(String),
    VariantLiteral { ty: String, variant: String },
    If,
    IfLet,
    Match,
    Block,
    Unknown,
}

/// The model of [`TypedExprKind`].
#[verifier::ext_equal]
pub ghost enum TypedExprKindV {
    Int,
    Float,
    String,
    Bool,
    Null,
    Ident(Seq<char>),
    SelfExpr,
    Unary(UnaryOp),
    Binary(BinOp),
    Call,
    Field(Seq<char>),
    Index,
    ErrorPropagate,
    Closure,
    Array { empty: bool },
    TypeLiteral(Seq<char>),
    VariantLiteral { ty: Seq<char>, variant: Seq<char> },
    If,
    IfLet,
    Match,
    Block,
    Unknown,
}

impl View for TypedExprKind {
    type V = TypedExprKindV;

    open spec fn view(&self) -> TypedExprKindV {
        match *self {
            TypedExprKind::Int => TypedExprKindV::Int,
            TypedExprKind::Float => TypedExprKindV::Float,
            TypedExprKind::String => TypedExprKindV::String,
            TypedExprKind::Bool => TypedExprKindV::Bool,
            TypedExprKind::Null => TypedExprKindV::Null,
            TypedExprKind::Ident(n) => TypedExprKindV::Ident(n@),
            TypedExprKind::SelfExpr => TypedExprKindV::SelfExpr,
            TypedExprKind::Unary(op) => TypedExprKindV::Unary(op),
            TypedExprKind::Binary(op) => TypedExprKindV::Binary(op),
            TypedExprKind::Call => TypedExprKindV::Call,
            TypedExprKind::Field(n) => TypedExprKindV::Field(n@),
            TypedExprKind::Index => TypedExprKindV::Index,
            TypedExprKind::ErrorPropagate => TypedExprKindV::ErrorPropagate,
            TypedExprKind::Closure => TypedExprKindV::Closure,
            TypedExprKind::Array { empty } => TypedExprKindV::Array { empty },
            TypedExprKind::TypeLiteral(n) => TypedExprKindV::TypeLiteral(n@),
            TypedExprKind::VariantLiteral { ty, variant } => TypedExprKindV::VariantLiteral {
                ty: ty@,
                variant: variant@,
            },
            TypedExprKind::If => TypedExprKindV::If,
            TypedExprKind::IfLet => TypedExprKindV::IfLet,
            TypedExprKind::Match => TypedExprKindV::Match,
            TypedExprKind::Block => TypedExprKindV::Block,
            TypedExprKind::Unknown => TypedExprKindV::Unknown,
        }
    }
}

/// The shape of `e`. A range is an array-valued expression that always has bounds,
/// so it is never an empty literal.
pub open spec fn kind_of(e: ExprV) -> TypedExprKindV {
    match e {
        ExprV::Int(_, _) => TypedExprKindV::Int,
        ExprV::Float(_, _) => TypedExprKindV::Float,
        ExprV::Str(_, _) => TypedExprKindV::String,
        ExprV::Bool(_, _) => TypedExprKindV::Bool,
        ExprV::Null(_) => TypedExprKindV::Null,
        ExprV::Ident(name, _) => TypedExprKindV::Ident(name),
        ExprV::SelfExpr(_) => TypedExprKindV::SelfExpr,
        ExprV::Unary(op, _, _) => TypedExprKindV::Unary(op),
        ExprV::Binary(op, _, _, _) => TypedExprKindV::Binary(op),
        ExprV::Call(_, _, _) => TypedExprKindV::Call,
        ExprV::Field(_, name, _) => TypedExprKindV::Field(name),
        ExprV::Index(_, _, _) => TypedExprKindV::Index,
        ExprV::ErrorProp(_, _) => TypedExprKindV::ErrorPropagate,
        ExprV::Closure(_, _, _) => TypedExprKindV::Closure,
        ExprV::Array(es, _) => TypedExprKindV::Array { empty: es.len() == 0 },
        ExprV::Range(_, _, _) => TypedExprKindV::Array { empty: false },
        ExprV::TypeLit(name, _, _) => TypedExprKindV::TypeLiteral(name),
        ExprV::VariantLit(ty, variant, _, _) => TypedExprKindV::VariantLiteral { ty, variant },
        ExprV::If(_, _, _, _) => TypedExprKindV::If,
        ExprV::IfLet(_, _, _, _, _) => TypedExprKindV::IfLet,
        ExprV::Match(_, _, _) => TypedExprKindV::Match,
        ExprV::Block(_, _) => TypedExprKindV::Block,
    }
}

/// Where a value of this shape is born: a literal in the local region, anything else
/// is settled once concrete types are known.
pub open spec fn born(kind: TypedExprKindV) -> Ownership {
    match kind {
        TypedExprKindV::Int
        | TypedExprKindV::Float
        | TypedExprKindV::String
        | TypedExprKindV::Bool
        | TypedExprKindV::Array { .. }
        | TypedExprKindV::TypeLiteral(_)
        | TypedExprKindV::VariantLiteral { .. } => Ownership::Local,
        _ => Ownership::Unknown,
    }
}

impl TypedExprKind {
    /// The shape of `expr`.
    pub fn from_expr(expr: &Expr) -> (r: TypedExprKind)
        ensures
            r@ == kind_of(expr@),
    {
        match expr {
            Expr::Int(_, _) => TypedExprKind::Int,
            Expr::Float(_, _) => TypedExprKind::Float,
            Expr::Str(_, _) => TypedExprKind::String,
            Expr::Bool(_, _) => TypedExprKind::Bool,
            Expr::Null(_) => TypedExprKind::Null,
            Expr::Ident(name, _) => TypedExprKind::Ident(name.clone()),
            Expr::SelfExpr(_) => TypedExprKind::SelfExpr,
            Expr::Unary(op, _, _) => TypedExprKind::Unary(*op),
            Expr::Binary(op, _, _, _) => TypedExprKind::Binary(*op),
            Expr::Call(_, _, _) => TypedExprKind::Call,
            Expr::Field(_, name, _) => TypedExprKind::Field(name.clone()),
            Expr::Index(_, _, _) => TypedExprKind::Index,
            Expr::ErrorProp(_, _) => TypedExprKind::ErrorPropagate,
            Expr::Closure(_, _, _) => TypedExprKind::Closure,
            Expr::Array(es, _) => {
                assert(exprs_view(es@).len() == es@.len());
                TypedExprKind::Array { empty: es.len() == 0 }
            },
            Expr::Range(_, _, _) => TypedExprKind::Array { empty: false },
            Expr::TypeLit(name, _, _) => TypedExprKind::TypeLiteral(name.clone()),
            Expr::VariantLit(ty, variant, _, _) => TypedExprKind::VariantLiteral {
                ty: ty.clone(),
                variant: variant.clone(),
            },
            Expr::If(_, _, _, _) => TypedExprKind::If,
            Expr::IfLet(_, _, _, _, _) => TypedExprKind::IfLet,
            Expr::Match(_, _, _) => TypedExprKind::Match,
            Expr::Block(_, _) => TypedExprKind::Block,
        }
    }
}

/// Type information for one expression node, with its ownership class.
#[derive(Clone, Debug, PartialEq)]
pub struct TypedExpr {
    pub kind: TypedExprKind,
    pub span: Span,
    pub ty: Type,
    pub constness: Constness,
    pub ownership: Ownership,
}

/// The model of [`TypedExpr`].
#[verifier::ext_equal]
pub ghost struct TypedExprV {
    pub kind: TypedExprKindV,
    pub span: Span,
    pub ty: TypeV,
    pub constness: Constness,
    pub ownership: Ownership,
}

impl View for TypedExpr {
    type V = TypedExprV;

    open spec fn view(&self) -> TypedExprV {
        TypedExprV {
            kind: self.kind@,
            span: self.span,
            ty: self.ty@,
            constness: self.constness,
            ownership: self.ownership,
        }
    }
}

/// Typed expression data collected for a program, in the order it was recorded.
#[derive(Clone, Debug, PartialEq)]
pub struct TypedProgram {
    pub expressions: Vec<TypedExpr>,
}

impl View for TypedProgram {
    type V = Seq<TypedExprV>;

    open spec fn view(&self) -> Seq<TypedExprV> {
        Seq::new(self.expressions@.len(), |i: int| self.expressions@[i]@)
    }
}

impl Default for TypedProgram {
    fn default() -> (r: TypedProgram)
        ensures
            r@ == Seq::<TypedExprV>::empty(),
    {
        TypedProgram { expressions: Vec::new() }
    }
}

/// What is recorded of an expression of shape `kind`.
pub open spec fn recorded_expr(
    kind: TypedExprKindV,
    span: Span,
    ty: TypeV,
    constness: Constness,
) -> TypedExprV {
    TypedExprV { kind, span, ty, constness, ownership: born(kind) }
}

impl TypedProgram {
    /// Record an expression whose shape is not known.
    pub fn push(&mut self, span: Span, ty: Type, constness: Constness)
        ensures
            final(self)@ == old(self)@.push(
                recorded_expr(TypedExprKindV::Unknown, span, ty@, constness),
            ),
    {
        self.push_kind(TypedExprKind::Unknown, span, ty, constness);
    }

    /// Record `expr` with its shape and span.
    pub fn push_expr(&mut self, expr: &Expr, ty: Type, constness: Constness)
        ensures
            final(self)@ == old(self)@.push(
                recorded_expr(kind_of(expr@), expr@.span(), ty@, constness),
            ),
    {
        self.push_kind(TypedExprKind::from_expr(expr), expr.span(), ty, constness);
    }

    /// Record an expression of shape `kind`, with the ownership its value is born
    /// with.
    pub fn push_kind(&mut self, kind: TypedExprKind, span: Span, ty: Type, constness: Constness)
        ensures
            final(self)@ == old(self)@.push(recorded_expr(kind@, span, ty@, constness)),
    {
        let ownership = match &kind {
            TypedExprKind::Int
            | TypedExprKind::Float
            | TypedExprKind::String
            | TypedExprKind::Bool
            | TypedExprKind::Array { .. }
            | TypedExprKind::TypeLiteral(_)
            | TypedExprKind::VariantLiteral { .. } => Ownership::Local,
            _ => Ownership::Unknown,
        };
        let ghost before = self@;
        let e = TypedExpr { kind, span, ty, constness, ownership };
        let ghost rec = e@;
        self.expressions.push(e);
        assert(self@ =~= before.push(rec));
    }
}

} // verus!
