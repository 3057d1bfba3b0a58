//! The library exercised on source text. The small parser below covers the part of the
//! language that these sources are written in.

use std::collections::HashSet;

use prepoly::acquire::auto_acquire;
use prepoly::closure::{bound_names, closure_free_vars, free_vars_of};
use prepoly::expand::{expand_fields_body, fields_loop_target, unshift_span, SPAN_SHIFT_UNIT};
use prepoly::guards::{guard_map, guard_stmts};
use prepoly::mutation::{mutates_root, MutationInfo};
use prepoly::analysis::{DocAnalyzer, FullAnalysis, SourceFile, SourceMap};
use prepoly::ast::{
    Arg, AssignOp, BinOp, Block, Expr, FieldDecl, FieldPat, FunDecl, Import, ImportName, MatchArm,
    Member, Method, Module, Param, Pattern, Stmt, StrSeg, TopLevel, TypeBody, TypeDecl, TypeExpr,
    UnaryOp, Variant,
};
use prepoly::completion::{
    import_path_items, module_symbols, program_symbols, request, symbol_items, CompletionItem,
    ImportContext, ImportRoots, Request,
};
use prepoly::definition::{definition, Target};
use prepoly::document::{Document, Position};
use prepoly::hir::{LoadedModule, Program, QualifiedName, TypeKind};
use prepoly::hover::hover;
use prepoly::lexer::lex;
use prepoly::lower::lower;
use prepoly::names::NameSet;
use prepoly::nav::{enclosing, generic_return_type, local_var_type, walk_exprs};
use prepoly::ownership::{analyze_spawns, decide, CaptureDecision, Ownership};
use prepoly::precheck::{
    all_spawn_spans, pre_spawn_errors, SpawnError, GLOBAL_AFTER, GLOBAL_BEFORE, PLAIN_CLOSURE_SPAWN,
};
use prepoly::semantic_tokens::tokens;
use prepoly::span::Span;
use prepoly::spawn::captured;
use prepoly::summaries::{spawn_capture_summaries, SpawnSummaries};
use prepoly::token::{StrPart, Token, TokenKind};
use prepoly::typed::{Constness, TypedProgram};
use prepoly::types::{FloatKind, IntKind, Type};

// ---- parsing ----

struct Parser {
    toks: Vec<Token>,
    pos: usize,
}

fn parse(src: &str) -> Module {
    let toks = lex(src).expect("lex");
    let mut p = Parser { toks, pos: 0 };
    p.module()
}

impl Parser {
    fn kind(&self) -> &TokenKind {
        &self.toks[self.pos].kind
    }

    fn kind_at(&self, n: usize) -> &TokenKind {
        &self.toks[(self.pos + n).min(self.toks.len() - 1)].kind
    }

    fn lo(&self) -> usize {
        self.toks[self.pos].span.lo
    }

    fn prev_hi(&self) -> usize {
        self.toks[self.pos - 1].span.hi
    }

    fn is(&self, k: &TokenKind) -> bool {
        self.kind() == k
    }

    fn eat(&mut self, k: &TokenKind) -> bool {
        if self.is(k) {
            self.pos += 1;
            true
        } else {
            false
        }
    }

    fn expect(&mut self, k: TokenKind) {
        let at = self.lo();
        assert!(self.eat(&k), "expected {k:?} at {at}, found {:?}", self.kind());
    }

    fn newlines(&mut self) {
        while self.eat(&TokenKind::Newline) {}
    }

    fn separators(&mut self) {
        while self.eat(&TokenKind::Newline) || self.eat(&TokenKind::Comma) {}
    }

    fn ident(&mut self) -> String {
        match self.kind() {
            TokenKind::Ident(n) => {
                let n = n.clone();
                self.pos += 1;
                n
            }
            TokenKind::SelfLower => {
                self.pos += 1;
                "self".to_string()
            }
            TokenKind::SelfUpper => {
                self.pos += 1;
                "Self".to_string()
            }
            other => panic!("expected a name, found {other:?}"),
        }
    }

    fn module(&mut self) -> Module {
        let mut imports = Vec::new();
        let mut items = Vec::new();
        self.newlines();
        while !self.is(&TokenKind::Eof) {
            if self.eat(&TokenKind::Import) {
                imports.push(self.import());
            } else if self.is(&TokenKind::Type) {
                items.push(TopLevel::Type(self.type_decl()));
            } else if self.is(&TokenKind::Fun) {
                items.push(TopLevel::Fun(self.fun_decl()));
            } else {
                items.push(TopLevel::Stmt(self.stmt()));
            }
            self.newlines();
        }
        Module { imports, items }
    }

    fn import(&mut self) -> Import {
        let mut path = vec![self.ident()];
        let mut names = Vec::new();
        while self.eat(&TokenKind::Dot) {
            if self.eat(&TokenKind::LBrace) {
                self.separators();
                while !self.eat(&TokenKind::RBrace) {
                    let n = self.ident();
                    names.push(ImportName { local: n.clone(), remote: n });
                    self.separators();
                }
                break;
            }
            path.push(self.ident());
        }
        Import { path, names, alias: None }
    }

    fn type_decl(&mut self) -> TypeDecl {
        let lo = self.lo();
        self.expect(TokenKind::Type);
        let name = self.ident();
        let mut interfaces = Vec::new();
        if self.eat(&TokenKind::Colon) {
            interfaces.push(self.ident());
            while self.eat(&TokenKind::Comma) {
                interfaces.push(self.ident());
            }
        }
        self.expect(TokenKind::Eq);
        self.newlines();
        let body = if self.is(&TokenKind::LBrace) {
            TypeBody::Record(self.members())
        } else if self.is(&TokenKind::Pipe)
            || (matches!(self.kind(), TokenKind::Ident(_))
                && self.kind_at(1) == &TokenKind::Pipe)
        {
            let mut variants = Vec::new();
            self.eat(&TokenKind::Pipe);
            loop {
                let vlo = self.lo();
                let vname = self.ident();
                let members =
                    if self.is(&TokenKind::LBrace) { self.members() } else { Vec::new() };
                variants.push(Variant {
                    name: vname,
                    members,
                    span: Span::new(vlo, self.prev_hi()),
                });
                let save = self.pos;
                self.newlines();
                if !self.eat(&TokenKind::Pipe) {
                    self.pos = save;
                    break;
                }
            }
            TypeBody::Sum(variants)
        } else {
            TypeBody::Alias(self.type_expr())
        };
        TypeDecl { name, interfaces, body, span: Span::new(lo, self.prev_hi()), doc: None }
    }

    fn members(&mut self) -> Vec<Member> {
        self.expect(TokenKind::LBrace);
        self.separators();
        let mut out = Vec::new();
        while !self.eat(&TokenKind::RBrace) {
            let lo = self.lo();
            let name = self.ident();
            if self.is(&TokenKind::LParen) {
                let params = self.params();
                let ret =
                    if self.eat(&TokenKind::Arrow) { Some(self.type_expr()) } else { None };
                out.push(Member::Method(Method {
                    name,
                    params,
                    ret,
                    body: None,
                    span: Span::new(lo, self.prev_hi()),
                    doc: None,
                }));
            } else {
                let ty = if self.eat(&TokenKind::Colon) { Some(self.type_expr()) } else { None };
                out.push(Member::Field(FieldDecl {
                    name,
                    ty,
                    span: Span::new(lo, self.prev_hi()),
                }));
            }
            self.separators();
        }
        out
    }

    fn params(&mut self) -> Vec<Param> {
        self.expect(TokenKind::LParen);
        self.separators();
        let mut out = Vec::new();
        while !self.eat(&TokenKind::RParen) {
            let lo = self.lo();
            let name = self.ident();
            let ty = if self.eat(&TokenKind::Colon) { Some(self.type_expr()) } else { None };
            out.push(Param { name, ty, span: Span::new(lo, self.prev_hi()) });
            self.separators();
        }
        out
    }

    fn type_expr(&mut self) -> TypeExpr {
        let lo = self.lo();
        let mut t = if self.eat(&TokenKind::Type) {
            TypeExpr::TypeSlot(Span::new(lo, self.prev_hi()))
        } else if self.is(&TokenKind::SelfUpper) && self.kind_at(1) == &TokenKind::Dot {
            self.pos += 2;
            let n = self.ident();
            TypeExpr::SelfField(n, Span::new(lo, self.prev_hi()))
        } else {
            let n = self.ident();
            if (n == "ref" || n == "mut") && self.eat(&TokenKind::LParen) {
                let inner = Box::new(self.type_expr());
                self.expect(TokenKind::RParen);
                let span = Span::new(lo, self.prev_hi());
                if n == "ref" {
                    TypeExpr::Ref(inner, span)
                } else {
                    TypeExpr::Mut(inner, span)
                }
            } else {
                TypeExpr::Named(n, Span::new(lo, self.prev_hi()))
            }
        };
        loop {
            if self.is(&TokenKind::LBrace) && matches!(t, TypeExpr::Named(..)) {
                // A refinement is `Name { field: type }`, not a block.
                if !matches!(self.kind_at(1), TokenKind::Ident(_))
                    || self.kind_at(2) != &TokenKind::Colon
                {
                    return t;
                }
                self.pos += 1;
                let mut fields = Vec::new();
                while !self.eat(&TokenKind::RBrace) {
                    let n = self.ident();
                    self.expect(TokenKind::Colon);
                    fields.push((n, self.type_expr()));
                    self.separators();
                }
                t = TypeExpr::Refine(Box::new(t), fields, Span::new(lo, self.prev_hi()));
            } else if self.eat(&TokenKind::Question) {
                t = TypeExpr::Nullable(Box::new(t), Span::new(lo, self.prev_hi()));
            } else if self.eat(&TokenKind::LBracket) {
                self.expect(TokenKind::RBracket);
                t = TypeExpr::Array(Box::new(t), None, Span::new(lo, self.prev_hi()));
            } else {
                return t;
            }
        }
    }

    fn fun_decl(&mut self) -> FunDecl {
        let lo = self.lo();
        self.expect(TokenKind::Fun);
        let first_lo = self.lo();
        let mut name = self.ident();
        let mut recv = None;
        if self.eat(&TokenKind::Dot) {
            recv = Some(TypeExpr::Named(name, Span::new(first_lo, self.prev_hi() - 1)));
            name = self.ident();
        }
        let params = self.params();
        let ret = if self.eat(&TokenKind::Arrow) { Some(self.type_expr()) } else { None };
        let body = self.block();
        FunDecl {
            name,
            recv,
            params,
            ret,
            body,
            span: Span::new(lo, self.prev_hi()),
            doc: None,
        }
    }

    fn block(&mut self) -> Block {
        let lo = self.lo();
        self.expect(TokenKind::LBrace);
        self.newlines();
        let mut stmts = Vec::new();
        while !self.eat(&TokenKind::RBrace) {
            stmts.push(self.stmt());
            self.newlines();
        }
        Block { stmts, span: Span::new(lo, self.prev_hi()) }
    }

    fn stmt(&mut self) -> Stmt {
        let lo = self.lo();
        if self.eat(&TokenKind::Let) {
            let plo = self.lo();
            let n = self.ident();
            let pat = Pattern::Binding(n, Span::new(plo, self.prev_hi()));
            let ty = if self.eat(&TokenKind::Colon) { Some(self.type_expr()) } else { None };
            self.expect(TokenKind::Eq);
            let value = self.expr(true);
            return Stmt::Let {
                pat,
                ty,
                value: Some(value),
                is_const: false,
                span: Span::new(lo, self.prev_hi()),
            };
        }
        if self.eat(&TokenKind::Return) {
            let value = if self.is(&TokenKind::Newline) || self.is(&TokenKind::RBrace) {
                None
            } else {
                Some(self.expr(true))
            };
            return Stmt::Return(value, Span::new(lo, self.prev_hi()));
        }
        if self.eat(&TokenKind::While) {
            let cond = self.expr(false);
            let body = self.block();
            return Stmt::While { cond, body, span: Span::new(lo, self.prev_hi()) };
        }
        if self.eat(&TokenKind::For) {
            let var = self.ident();
            self.expect(TokenKind::In);
            let iter = self.expr(false);
            let body = self.block();
            return Stmt::For { var, iter, body, span: Span::new(lo, self.prev_hi()) };
        }
        let e = self.expr(true);
        let op = match self.kind() {
            TokenKind::Eq => Some(AssignOp::Assign),
            TokenKind::PlusEq => Some(AssignOp::Add),
            _ => None,
        };
        if let Some(op) = op {
            self.pos += 1;
            let value = self.expr(true);
            return Stmt::Assign {
                target: e,
                op,
                value,
                span: Span::new(lo, self.prev_hi()),
            };
        }
        Stmt::Expr(e)
    }

    fn expr(&mut self, lits: bool) -> Expr {
        self.binary(lits, 0)
    }

    fn binary(&mut self, lits: bool, level: usize) -> Expr {
        let lo = self.lo();
        let ops: &[&[(TokenKind, BinOp)]] = &[
            &[(TokenKind::EqEq, BinOp::Eq), (TokenKind::NotEq, BinOp::Ne)],
            &[(TokenKind::Lt, BinOp::Lt), (TokenKind::Gt, BinOp::Gt)],
            &[(TokenKind::Plus, BinOp::Add), (TokenKind::Minus, BinOp::Sub)],
            &[(TokenKind::Star, BinOp::Mul), (TokenKind::Slash, BinOp::Div)],
        ];
        if level == ops.len() {
            return self.unary(lits);
        }
        let mut left = self.binary(lits, level + 1);
        while let Some(op) = ops[level].iter().find(|(k, _)| self.is(k)).map(|(_, op)| *op) {
            self.pos += 1;
            let right = self.binary(lits, level + 1);
            left = Expr::Binary(
                op,
                Box::new(left),
                Box::new(right),
                Span::new(lo, self.prev_hi()),
            );
        }
        left
    }

    fn unary(&mut self, lits: bool) -> Expr {
        let lo = self.lo();
        if self.eat(&TokenKind::Minus) {
            let e = self.unary(lits);
            return Expr::Unary(UnaryOp::Neg, Box::new(e), Span::new(lo, self.prev_hi()));
        }
        let mut e = self.primary(lits);
        loop {
            if self.eat(&TokenKind::Dot) {
                let n = self.ident();
                e = Expr::Field(Box::new(e), n, Span::new(lo, self.prev_hi()));
            } else if self.eat(&TokenKind::LParen) {
                self.separators();
                let mut args = Vec::new();
                while !self.eat(&TokenKind::RParen) {
                    args.push(Arg { expr: self.expr(true) });
                    self.separators();
                }
                e = Expr::Call(Box::new(e), args, Span::new(lo, self.prev_hi()));
            } else if self.eat(&TokenKind::LBracket) {
                let i = self.expr(true);
                self.expect(TokenKind::RBracket);
                e = Expr::Index(Box::new(e), Box::new(i), Span::new(lo, self.prev_hi()));
            } else if self.eat(&TokenKind::Bang) {
                e = Expr::ErrorProp(Box::new(e), Span::new(lo, self.prev_hi()));
            } else {
                return e;
            }
        }
    }

    fn primary(&mut self, lits: bool) -> Expr {
        let lo = self.lo();
        let span = self.toks[self.pos].span;
        match self.kind() {
            TokenKind::Int(n) => {
                let n = *n;
                self.pos += 1;
                Expr::Int(n, span)
            }
            TokenKind::Float(s) => {
                let s = s.clone();
                self.pos += 1;
                Expr::Float(s, span)
            }
            TokenKind::Str(parts) => {
                let segs = parts
                    .iter()
                    .map(|p| match p {
                        StrPart::Lit(s) => StrSeg::Lit(s.clone()),
                        StrPart::Interp(s) => panic!("interpolation {s}"),
                    })
                    .collect();
                self.pos += 1;
                Expr::Str(segs, span)
            }
            TokenKind::LBracket => {
                self.pos += 1;
                let mut es = Vec::new();
                while !self.eat(&TokenKind::RBracket) {
                    es.push(self.expr(true));
                    self.separators();
                }
                Expr::Array(es, Span::new(lo, self.prev_hi()))
            }
            TokenKind::If => {
                self.pos += 1;
                let cond = self.expr(false);
                let then = self.block();
                Expr::If(Box::new(cond), then, None, Span::new(lo, self.prev_hi()))
            }
            TokenKind::Match => {
                self.pos += 1;
                let scrutinee = self.expr(false);
                self.expect(TokenKind::LBrace);
                self.separators();
                let mut arms = Vec::new();
                while !self.eat(&TokenKind::RBrace) {
                    let alo = self.lo();
                    let pattern = self.pattern();
                    self.expect(TokenKind::FatArrow);
                    let body = if self.is(&TokenKind::LBrace) {
                        let b = self.block();
                        let s = b.span;
                        Expr::Block(b, s)
                    } else {
                        self.expr(true)
                    };
                    arms.push(MatchArm { pattern, body, span: Span::new(alo, self.prev_hi()) });
                    self.separators();
                }
                Expr::Match(Box::new(scrutinee), arms, Span::new(lo, self.prev_hi()))
            }
            TokenKind::LParen => {
                // `(a, b) -> body`.
                let params = self.params();
                self.expect(TokenKind::Arrow);
                let body = if self.is(&TokenKind::LBrace) {
                    let b = self.block();
                    let s = b.span;
                    Expr::Block(b, s)
                } else {
                    self.expr(true)
                };
                Expr::Closure(params, Box::new(body), Span::new(lo, self.prev_hi()))
            }
            TokenKind::SelfLower => {
                self.pos += 1;
                Expr::SelfExpr(span)
            }
            _ => {
                let n = self.ident();
                let literal = lits
                    && self.is(&TokenKind::LBrace)
                    && matches!(self.kind_at(1), TokenKind::Ident(_))
                    && self.kind_at(2) == &TokenKind::Colon;
                if literal {
                    self.pos += 1;
                    let mut fields = Vec::new();
                    while !self.eat(&TokenKind::RBrace) {
                        let f = self.ident();
                        self.expect(TokenKind::Colon);
                        fields.push((f, self.expr(true)));
                        self.separators();
                    }
                    return Expr::TypeLit(n, fields, Span::new(lo, self.prev_hi()));
                }
                Expr::Ident(n, span)
            }
        }
    }

    fn pattern(&mut self) -> Pattern {
        let lo = self.lo();
        let n = self.ident();
        if n == "_" {
            return Pattern::Wildcard(Span::new(lo, self.prev_hi()));
        }
        if self.eat(&TokenKind::LBrace) {
            let mut fields = Vec::new();
            self.separators();
            while !self.eat(&TokenKind::RBrace) {
                let flo = self.lo();
                let name = self.ident();
                fields.push(FieldPat { name, pat: None, span: Span::new(flo, self.prev_hi()) });
                self.separators();
            }
            return Pattern::Record(n, fields, Span::new(lo, self.prev_hi()));
        }
        if n.starts_with(char::is_uppercase) {
            return Pattern::Record(n, Vec::new(), Span::new(lo, self.prev_hi()));
        }
        Pattern::Binding(n, Span::new(lo, self.prev_hi()))
    }
}

// ---- lowering ----

fn get<'a, T>(table: &'a [(String, T)], key: &str) -> Option<&'a T> {
    table.iter().find(|(k, _)| k == key).map(|(_, v)| v)
}

fn load(modules: &[(&[&str], &str)]) -> Vec<LoadedModule> {
    modules
        .iter()
        .map(|(path, src)| LoadedModule {
            path: path.iter().map(|s| s.to_string()).collect(),
            ast: parse(src),
        })
        .collect()
}

fn lower_messages(src: &str) -> Vec<String> {
    let (_, errors) = lower(&load(&[(&["main"], src)]));
    errors.into_iter().map(|e| e.message).collect()
}

fn lower_program(modules: &[(&[&str], &str)]) -> Program {
    let (program, errors) = lower(&load(modules));
    assert!(errors.is_empty(), "lower errors: {errors:?}");
    program
}

#[test]
fn same_name_in_one_module_is_a_plain_duplicate() {
    let errors = lower_messages(
        "fun helper() -> int32 { return 1 }\nfun helper() -> int32 { return 2 }\n",
    );
    assert!(
        errors.iter().any(|m| m == "duplicate function `helper`"),
        "{errors:?}"
    );
}

#[test]
fn cross_module_same_function_name_coexists() {
    let modules: &[(&[&str], &str)] = &[
        (&["a", "util"], "fun helper() -> int32 { return 1 }\n"),
        (&["b", "util"], "fun helper() -> int32 { return 2 }\n"),
    ];
    let (program, errors) = lower(&load(modules));
    assert!(errors.is_empty(), "expected coexistence, got {errors:?}");
    assert!(
        get(&program.functions, "helper@a/util").is_some(),
        "a.util helper symbol"
    );
    assert!(
        get(&program.functions, "helper@b/util").is_some(),
        "b.util helper symbol"
    );
}

#[test]
fn qualified_name_symbol_is_name_at_slash_path() {
    let q = QualifiedName::new("helper", &["a".to_string(), "util".to_string()]);
    assert_eq!(q.symbol(), "helper@a/util");
}

#[test]
fn resolve_function_follows_imports_to_the_right_module() {
    let program = lower_program(&[
        (&["a", "util"], "fun helper() -> int32 { return 1 }\n"),
        (&["b", "util"], "fun helper() -> int32 { return 2 }\n"),
        (
            &["main"],
            "import a.util.{ helper }\nfun run() -> int32 { return helper() }\n",
        ),
    ]);
    let main = vec!["main".to_string()];
    assert_eq!(
        program.resolve_function(&main, "helper").map(|f| &f.symbol),
        Some(&"helper@a/util".to_string()),
    );
    assert_eq!(
        program.resolve_fn_symbol(&main, "helper").as_deref(),
        Some("helper@a/util"),
    );
}

#[test]
fn resolve_function_finds_the_callers_own_module_definition() {
    let program = lower_program(&[
        (&["a", "util"], "fun helper() -> int32 { return 1 }\n"),
        (&["b", "util"], "fun helper() -> int32 { return 2 }\n"),
    ]);
    let b = vec!["b".to_string(), "util".to_string()];
    assert_eq!(
        program.resolve_function(&b, "helper").map(|f| &f.symbol),
        Some(&"helper@b/util".to_string()),
    );
}

#[test]
fn resolve_type_follows_imports() {
    let program = lower_program(&[
        (&["geo"], "type Vec2 = { x: float64 }\n"),
        (&["phys"], "type Vec2 = { vx: float64 }\n"),
        (&["main"], "import geo.{ Vec2 }\n"),
    ]);
    let main = vec!["main".to_string()];
    assert_eq!(
        program.resolve_type(&main, "Vec2").map(|t| &t.symbol),
        Some(&"Vec2@geo".to_string()),
    );
}

#[test]
fn type_slots_are_kept_out_of_the_value_fields() {
    let program = lower_program(&[(
        &["main"],
        "type _E = {\n key\n value\n }\n\
         type Box = {\n key: type\n value: type\n \
         arr: _E { key: Self.key, value: Self.value }?[]\n n: int64\n }\n",
    )]);
    let info = get(&program.types, "Box").expect("Box exists");
    let TypeKind::Record { fields, .. } = &info.kind else {
        panic!("Box is a record");
    };
    let field_names: Vec<&str> = fields.iter().map(|f| f.name.as_str()).collect();
    assert_eq!(field_names, vec!["arr", "n"]);
    let slot_names: Vec<&str> = info.slots.iter().map(|(n, _)| n.as_str()).collect();
    assert_eq!(slot_names, vec!["key", "value"]);
}

#[test]
fn self_field_cycle_is_rejected() {
    let errors = lower_messages("type Loop = {\n a: Self.b\n b: Self.a\n n: int64\n }\n");
    assert!(
        errors.iter().any(|m| m.contains("circular type")),
        "{errors:?}"
    );
}

#[test]
fn refinement_alias_is_a_concrete_instance() {
    let program = lower_program(&[(
        &["main"],
        "type Box = {\n key: type\n value: type\n n: int64\n }\n\
         type IntBox = Box { key: string, value: int64 }\n",
    )]);
    let alias = get(&program.type_aliases, "IntBox").expect("IntBox alias");
    let Type::Record(nom) = &alias.ty else {
        panic!("alias resolves to a record instance, got {:?}", alias.ty);
    };
    assert_eq!(nom.name, "Box");
    assert_eq!(nom.substitution.get("n"), Some(&Type::Int(IntKind::I64)));
}

#[test]
fn duplicate_record_field_is_reported() {
    let errors = lower_messages("type Point = {\n    x: int32\n    x: int32\n}\n");
    assert!(
        errors
            .iter()
            .any(|m| m.contains("duplicate field `Point.x`")),
        "{errors:?}"
    );
}

#[test]
fn duplicate_record_method_is_reported() {
    let errors = lower_messages(
        "type Counter = {\n    n: int32\n}\nfun Counter.get() { return 1 }\nfun Counter.get() { return 2 }\n",
    );
    assert!(
        errors
            .iter()
            .any(|m| m.contains("duplicate method `Counter.get`")),
        "{errors:?}"
    );
}

#[test]
fn duplicate_sum_variant_is_reported() {
    let errors = lower_messages("type Color = Red | Red\n");
    assert!(
        errors
            .iter()
            .any(|m| m.contains("duplicate variant `Color.Red`")),
        "{errors:?}"
    );
}

#[test]
fn duplicate_variant_member_is_reported() {
    let errors = lower_messages(
        "type Shape =\n    | Circle {\n        radius: float64\n        radius: float64\n    }\n",
    );
    assert!(
        errors
            .iter()
            .any(|m| m.contains("duplicate field `Shape.Circle.radius`")),
        "{errors:?}"
    );
}

#[test]
fn lowers_signatures_and_annotations_into_hir() {
    let program = lower_program(&[(
        &["main"],
        "type Wrapper = {\n    inner: Box\n}\ntype Box = {\n    value: int32\n}\nfun Box.get(self) -> int32 { return self.value }\nfun id(x: Box) -> int32 { return x.value }\n",
    )]);

    let box_id = get(&program.types, "Box").expect("type lowered").id;
    let fun = get(&program.functions, "id").expect("function lowered");
    assert_eq!(fun.signature.name, "id");
    assert_eq!(fun.signature.params[0].name, "x");
    assert_eq!(
        fun.signature.params[0].resolved_ty,
        Some(Type::Record(
            get(&program.types, "Box").unwrap().nominal_ref()
        ))
    );
    assert!(fun.signature.ret.is_some());
    assert_eq!(fun.signature.ret_ty, Some(Type::Int(IntKind::I32)));

    let box_ty = get(&program.types, "Box").expect("type lowered");
    let TypeKind::Record { methods, .. } = &box_ty.kind else {
        panic!("Box should be a record");
    };
    let method = get(methods, "get").expect("method lowered");
    assert_eq!(method.signature.name, "get");
    assert_eq!(method.signature.params[0].name, "self");
    assert!(method.signature.ret.is_some());
    assert_eq!(method.signature.ret_ty, Some(Type::Int(IntKind::I32)));

    let wrapper_ty = get(&program.types, "Wrapper").expect("type lowered");
    let TypeKind::Record { fields, .. } = &wrapper_ty.kind else {
        panic!("Wrapper should be a record");
    };
    assert_eq!(
        fields[0].resolved_ty,
        Some(Type::Record(box_ty.nominal_ref()))
    );
    assert_eq!(
        fields[0].resolved_ty.as_ref().and_then(|ty| match ty {
            Type::Record(nominal) => Some(nominal.id),
            _ => None,
        }),
        Some(box_id)
    );
}

#[test]
fn assigns_stable_unknowns_to_unannotated_type_fields() {
    let program = lower_program(&[(
        &["main"],
        "type Box = {\n    value\n    label\n}\ntype Pair =\n    | Both { left, right }\n",
    )]);

    let box_ty = get(&program.types, "Box").expect("record lowered");
    let TypeKind::Record { fields, .. } = &box_ty.kind else {
        panic!("Box should be a record");
    };
    assert!(matches!(fields[0].resolved_ty, Some(Type::Unknown(_))));
    assert!(matches!(fields[1].resolved_ty, Some(Type::Unknown(_))));
    assert_ne!(fields[0].resolved_ty, fields[1].resolved_ty);

    let pair_ty = get(&program.types, "Pair").expect("sum lowered");
    let TypeKind::Sum { variants } = &pair_ty.kind else {
        panic!("Pair should be a sum");
    };
    let both = variants
        .iter()
        .find(|variant| variant.name == "Both")
        .unwrap();
    assert!(matches!(both.fields[0].resolved_ty, Some(Type::Unknown(_))));
    assert!(matches!(both.fields[1].resolved_ty, Some(Type::Unknown(_))));
    assert_ne!(both.fields[0].resolved_ty, both.fields[1].resolved_ty);
}

#[test]
fn propagates_concrete_interface_field_constraints() {
    let program = lower_program(&[(
        &["main"],
        "type Named = {\n    name: string\n}\ntype User: Named = {\n    name\n}\ntype Pet: Named =\n    | Cat { name }\n    | Dog { name }\n",
    )]);

    let user = get(&program.types, "User").expect("record lowered");
    let TypeKind::Record { fields, .. } = &user.kind else {
        panic!("User should be a record");
    };
    assert_eq!(fields[0].resolved_ty, Some(Type::Str));

    let pet = get(&program.types, "Pet").expect("sum lowered");
    let TypeKind::Sum { variants } = &pet.kind else {
        panic!("Pet should be a sum");
    };
    assert!(
        variants
            .iter()
            .all(|variant| variant.fields[0].resolved_ty == Some(Type::Str))
    );
}

#[test]
fn assigns_stable_unknowns_to_unannotated_interface_method_signatures() {
    let program =
        lower_program(&[(&["main"], "type Consumer = {\n    consume(self, value)\n}\n")]);

    let consumer = get(&program.types, "Consumer").expect("record lowered");
    let TypeKind::Record { methods, .. } = &consumer.kind else {
        panic!("Consumer should be a record");
    };
    let method = get(methods, "consume").expect("method lowered");
    assert_eq!(method.signature.params[0].name, "self");
    assert!(method.signature.params[0].resolved_ty.is_none());
    assert!(matches!(
        method.signature.params[1].resolved_ty,
        Some(Type::Unknown(_))
    ));
    assert!(matches!(method.signature.ret_ty, Some(Type::Unknown(_))));
    assert_ne!(
        method.signature.params[1].resolved_ty,
        method.signature.ret_ty
    );
}

#[test]
fn assigns_stable_unknowns_to_unannotated_method_body_params() {
    let program = lower_program(&[(
        &["main"],
        "type Box = {\n    value\n}\nfun Box.set(self, value) {\n    self.value = value\n}\nfun Box.make(value) {\n    return Self { value: value }\n}\n",
    )]);

    let box_ty = get(&program.types, "Box").expect("record lowered");
    let TypeKind::Record { fields, methods } = &box_ty.kind else {
        panic!("Box should be a record");
    };
    let field_ty = fields[0].resolved_ty.clone();
    let set = get(methods, "set").expect("instance method lowered");
    let make = get(methods, "make").expect("static method lowered");

    assert!(matches!(field_ty, Some(Type::Unknown(_))));
    assert!(matches!(
        set.signature.params[1].resolved_ty,
        Some(Type::Unknown(_))
    ));
    assert!(matches!(
        make.signature.params[0].resolved_ty,
        Some(Type::Unknown(_))
    ));
    assert_ne!(field_ty, set.signature.params[1].resolved_ty);
    assert_ne!(
        set.signature.params[1].resolved_ty,
        make.signature.params[0].resolved_ty
    );
    assert!(set.signature.ret_ty.is_none());
    assert!(make.signature.ret_ty.is_none());
}

#[test]
fn propagates_concrete_interface_method_constraints() {
    let program = lower_program(&[(
        &["main"],
        "type Setter = {\n    set(self, value: string) -> string\n}\ntype User: Setter = {\n    name: string\n}\nfun User.set(self, value) { return value }\n",
    )]);

    let user = get(&program.types, "User").expect("record lowered");
    let TypeKind::Record { methods, .. } = &user.kind else {
        panic!("User should be a record");
    };
    let method = get(methods, "set").expect("method lowered");
    assert_eq!(method.signature.params[1].resolved_ty, Some(Type::Str));
    assert_eq!(method.signature.ret_ty, Some(Type::Str));
}

// ---- tasks ----

fn main_body(src: &str) -> Block {
    let module = parse(src);
    for item in module.items {
        if let TopLevel::Fun(f) = item {
            if f.name == "main" {
                return f.body;
            }
        }
    }
    panic!("no `main`");
}

fn decisions(src: &str) -> Vec<CaptureDecision> {
    analyze_spawns(&main_body(src), &NameSet::new())
}

fn acquire(body: &mut Block) -> Vec<SpawnError> {
    auto_acquire(&mut body.stmts, &NameSet::new(), &SpawnSummaries::new())
}

fn one(var: &str, ownership: Ownership) -> Vec<CaptureDecision> {
    vec![CaptureDecision { var: var.to_string(), ownership }]
}

fn in_main(stmts: Vec<Stmt>) -> Module {
    Module { imports: vec![], items: stmts.into_iter().map(TopLevel::Stmt).collect() }
}

fn contains_call(stmts: &[Stmt], name: &str) -> bool {
    let module = in_main(stmts.to_vec());
    let found = walk_exprs(&module).iter().any(|e| {
        matches!(e, Expr::Call(callee, _, _)
            if matches!(&**callee, Expr::Ident(n, _) if n == name))
    });
    found
}

fn is_call_to(e: &Expr, name: &str) -> bool {
    matches!(e, Expr::Call(callee, _, _)
        if matches!(&**callee, Expr::Ident(n, _) if n == name))
}

#[test]
fn capture_only_used_by_spawn_is_moved() {
    let d = decisions(
        "fun main() {\n    let data = [1, 2, 3]\n    spawn(() -> { println(data) })\n}\n",
    );
    assert_eq!(d, one("data", Ownership::Move));
}

#[test]
fn capture_read_after_spawn_is_frozen() {
    let d = decisions(
        "fun main() {\n    let data = [1, 2, 3]\n    spawn(() -> { println(data) })\n    println(data)\n}\n",
    );
    assert_eq!(d, one("data", Ownership::Freeze));
}

#[test]
fn capture_mutated_in_spawn_and_live_is_cowned() {
    let d = decisions(
        "fun main() {\n    let count = 0\n    spawn(() -> { count = count + 1 })\n    println(count)\n}\n",
    );
    assert_eq!(d, one("count", Ownership::Cown));
}

#[test]
fn no_spawn_yields_no_decisions() {
    assert!(decisions("fun main() {\n    let x = 1\n    println(x)\n}\n").is_empty());
}

#[test]
fn method_call_on_capture_counts_as_mutation() {
    let d = decisions(
        "fun main() {\n    let c = make()\n    spawn(() -> { c.add(1) })\n    use(c)\n}\n",
    );
    assert_eq!(d, one("c", Ownership::Cown));
}

#[test]
fn mutation_through_a_ref_function_call_counts_as_mutation() {
    let d = decisions(
        "fun main() {\n    let c = make()\n    spawn(() -> { bump(c) })\n    use(c)\n}\n",
    );
    assert_eq!(d, one("c", Ownership::Cown));
}

#[test]
fn mutation_inside_a_match_arm_counts_as_mutation() {
    let d = decisions(
        "fun main() {\n    let c = make()\n    spawn(() -> { match 1 {\n        _ => { c.x = 1 }\n    } })\n    use(c)\n}\n",
    );
    assert_eq!(d, one("c", Ownership::Cown));
}

#[test]
fn spawner_side_mutation_after_a_read_only_spawn_upgrades_to_cown() {
    let d = decisions(
        "fun main() {\n    let c = make()\n    spawn(() -> { println(c) })\n    use(c)\n}\n",
    );
    assert_eq!(d, one("c", Ownership::Cown));
}

#[test]
fn read_only_capture_everywhere_stays_frozen() {
    let d = decisions(
        "fun main() {\n    let c = make()\n    spawn(() -> { println(c) })\n    println(c)\n}\n",
    );
    assert_eq!(d, one("c", Ownership::Freeze));
}

#[test]
fn spawner_mutation_through_a_container_alias_upgrades_to_cown() {
    let d = decisions(
        "fun main() {\n    let c = make()\n    let w = Wrap { c: c }\n    spawn(() -> { println(c) })\n    w.c.add(1)\n}\n",
    );
    assert_eq!(d, one("c", Ownership::Cown));
}

fn spawn_body_is_with(stmt: &Stmt) -> bool {
    let Stmt::Expr(Expr::Call(callee, args, _)) = stmt else {
        return false;
    };
    if !matches!(&**callee, Expr::Ident(n, _) if n == "spawn") {
        return false;
    }
    let Some(Expr::Closure(_, body, _)) = args.first().map(|a| &a.expr) else {
        return false;
    };
    is_call_to(body, "with")
}

#[test]
fn auto_acquire_wraps_a_cowned_spawn_body_in_with() {
    let mut body = main_body(
        "fun main() {\n    let c = make()\n    spawn(() -> { c.add(1) })\n    use(c)\n}\n",
    );
    let errors = acquire(&mut body);
    assert!(errors.is_empty(), "no spawn errors: {errors:?}");
    let wrapped = body.stmts.iter().any(spawn_body_is_with);
    assert!(wrapped, "cowned spawn body should be wrapped in `with`");
}

#[test]
fn multi_cown_spawn_body_uses_the_group_wrap() {
    let mut body = main_body(
        "fun main() {\n    let a = make()\n    let b = make()\n    spawn(() -> { a.add(1)\n        b.add(1) })\n    use(a)\n    use(b)\n}\n",
    );
    let errors = acquire(&mut body);
    assert!(errors.is_empty());
    assert!(
        contains_call(&body.stmts, "_with_all"),
        "two cowns must be acquired via the group form"
    );
}

#[test]
fn mutation_through_an_alias_in_the_closure_counts_as_mutation() {
    let d = decisions(
        "fun main() {\n    let c = make()\n    spawn(() -> { let a = c\n        a.add(1) })\n    use(c)\n}\n",
    );
    assert_eq!(d, one("c", Ownership::Cown));
}

#[test]
fn nested_closure_local_is_not_captured_by_the_outer_spawn() {
    let body = main_body(
        "fun main() {\n    let c = make()\n    spawn(() -> {\n        spawn(() -> { let i = 0\n            c.add(i) })\n    })\n}\n",
    );
    let Stmt::Expr(Expr::Call(_, args, _)) = &body.stmts[1] else {
        panic!("expected spawn statement");
    };
    let Expr::Closure(_, outer_body, _) = &args[0].expr else {
        panic!("expected closure");
    };
    let Expr::Block(b, _) = outer_body.as_ref() else {
        panic!("expected block body");
    };
    let caps = captured(b, &NameSet::new());
    assert!(
        !caps.contains("i"),
        "the inner closure's local `i` must not be a capture of the outer spawn: {caps:?}"
    );
    assert!(
        caps.contains("c"),
        "the outer spawn still captures `c`: {caps:?}"
    );
}

#[test]
fn spawner_access_after_a_cowned_spawn_is_guarded() {
    let mut body = main_body(
        "fun main() {\n    let c = make()\n    spawn(() -> { c.add(1) })\n    c.add(2)\n}\n",
    );
    let errors = acquire(&mut body);
    assert!(errors.is_empty());
    let guarded =
        body.stmts.iter().any(|s| matches!(s, Stmt::Expr(e) if is_call_to(e, "with")));
    assert!(
        guarded,
        "the spawner's own access to the cown should be guarded by `with`"
    );
}

#[test]
fn spawn_inside_a_loop_guards_accesses_after_the_loop() {
    let mut body = main_body(
        "fun main() {\n    let c = make()\n    let k = 0\n    while k < 2 {\n        spawn(() -> { c.add(1) })\n        k = k + 1\n    }\n    c.add(2)\n}\n",
    );
    let errors = acquire(&mut body);
    assert!(errors.is_empty());
    let guarded =
        body.stmts.iter().any(|s| matches!(s, Stmt::Expr(e) if is_call_to(e, "with")));
    assert!(
        guarded,
        "the post-loop access must be guarded even though the spawn is nested"
    );
}

#[test]
fn closure_variable_spawn_is_promoted_and_wrapped() {
    let mut body = main_body(
        "fun main() {\n    let c = make()\n    let task = () -> { c.add(1) }\n    spawn(task)\n    c.add(2)\n}\n",
    );
    let errors = acquire(&mut body);
    assert!(errors.is_empty(), "spawn(var) resolves: {errors:?}");
    assert!(
        contains_call(&body.stmts, "_cown"),
        "the capture must be promoted before the spawn"
    );
    let bound_wrapped = body.stmts.iter().any(|s| {
        let Stmt::Let { value: Some(Expr::Closure(_, cbody, _)), .. } = s else {
            return false;
        };
        is_call_to(cbody, "with")
    });
    assert!(bound_wrapped, "the bound closure body must be lock-wrapped");
}

#[test]
fn unresolvable_spawn_argument_is_a_compile_error() {
    let mut body = main_body("fun main() {\n    spawn(make())\n}\n");
    let errors = acquire(&mut body);
    assert_eq!(errors.len(), 1, "expected one spawn error: {errors:?}");
    assert!(errors[0].message.contains("closure literal"));
}

#[test]
fn spawn_of_an_unbound_variable_is_a_compile_error() {
    let module = parse("fun run(f) {\n    spawn(f)\n}\n");
    let TopLevel::Fun(mut f) = module.items.into_iter().next().unwrap() else {
        panic!("expected fun");
    };
    let mut params = NameSet::new();
    for p in &f.params {
        params.insert(&p.name);
    }
    let errors = auto_acquire(&mut f.body.stmts, &params, &SpawnSummaries::new());
    assert_eq!(errors.len(), 1, "expected one spawn error: {errors:?}");
}

#[test]
fn summaries_mark_parameters_captured_by_callee_spawns() {
    let src = "fun start(c) {\n    spawn(() -> { c.add(1) })\n}\nfun outer(x) {\n    start(x)\n}\n";
    let module = parse(src);
    let mut fns: Vec<(String, Vec<String>, Block)> = Vec::new();
    for item in module.items {
        if let TopLevel::Fun(f) = item {
            fns.push((
                f.name.clone(),
                f.params.iter().map(|p| p.name.clone()).collect(),
                f.body,
            ));
        }
    }
    let borrowed: Vec<(String, Vec<String>, &Block)> = fns
        .iter()
        .map(|(n, p, b)| (n.clone(), p.clone(), b))
        .collect();
    let summaries = spawn_capture_summaries(&borrowed);
    assert_eq!(
        get(&summaries, "start"),
        Some(&HashSet::from([0])),
        "start spawns a task capturing its parameter 0"
    );
    assert_eq!(
        get(&summaries, "outer"),
        Some(&HashSet::from([0])),
        "outer forwards its parameter into start's captured position"
    );
}

#[test]
fn caller_local_passed_to_a_spawning_callee_is_promoted_and_guarded() {
    let mut summaries = SpawnSummaries::new();
    summaries.push(("start".to_string(), HashSet::from([0])));
    let mut body =
        main_body("fun main() {\n    let c = make()\n    start(c)\n    c.add(1)\n}\n");
    let errors = auto_acquire(&mut body.stmts, &NameSet::new(), &summaries);
    assert!(errors.is_empty());
    assert!(
        contains_call(&body.stmts, "_cown"),
        "the local must be promoted before the call hands it to the callee"
    );
    assert!(
        contains_call(&body.stmts, "with"),
        "the caller's own accesses must be lock-guarded"
    );
}

/// A scope that starts no task is left as it is.
#[test]
fn a_scope_without_tasks_is_unchanged() {
    let before = main_body("fun main() {\n    let c = make()\n    c.add(2)\n}\n");
    let mut after = before.clone();
    assert!(acquire(&mut after).is_empty());
    assert_eq!(after, before);
}

// ---- checks before tasks ----

fn names(v: &[&str]) -> NameSet {
    let mut s = NameSet::new();
    for n in v {
        s.insert(n);
    }
    s
}

#[test]
fn spawns_that_cannot_be_analyzed_are_reported() {
    let body = main_body(
        "fun main() {\n    let f = () -> { spawn(() -> { println(1) }) }\n    f()\n}\n",
    );
    let errors = pre_spawn_errors(&body.stmts, &NameSet::new(), &NameSet::new());
    assert_eq!(errors.len(), 1, "{errors:?}");
    assert_eq!(errors[0].message, PLAIN_CLOSURE_SPAWN);
}

#[test]
fn tasks_must_not_access_globals_that_are_written() {
    let body = main_body("fun main() {\n    spawn(() -> { println(total) })\n}\n");
    let errors = pre_spawn_errors(&body.stmts, &NameSet::new(), &names(&["total"]));
    assert_eq!(errors.len(), 1, "{errors:?}");
    assert_eq!(errors[0].message, format!("{GLOBAL_BEFORE}total{GLOBAL_AFTER}"));
    assert!(pre_spawn_errors(&body.stmts, &NameSet::new(), &NameSet::new()).is_empty());
}

#[test]
fn free_variables_of_a_closure() {
    let body = main_body("fun main() {\n    let f = (a) -> { let b = a\n        g(b, c, d) }\n}\n");
    let Stmt::Let { value: Some(Expr::Closure(params, inner, _)), .. } = &body.stmts[0] else {
        panic!("a closure");
    };
    let Expr::Block(b, _) = &**inner else {
        panic!("a block");
    };
    assert_eq!(free_vars_of(params, b), vec!["c", "d", "g"]);
    assert!(closure_free_vars(&body).contains("c"));
}

// ---- mutation ----

#[test]
fn writes_through_references_are_found() {
    let program = lower_program(&[(
        &["main"],
        "type Box = {\n    n: int32\n}\n\
         fun Box.set(self: ref(mut(Box)), v: int32) { self.n = v }\n\
         fun Box.get(self) -> int32 { return self.n }\n\
         fun direct(b: ref(mut(Box))) { b.n = 1 }\n\
         fun forwards(x: int32, b: ref(mut(Box))) { direct(b) }\n\
         fun reads(b: Box) -> int32 { return b.n }\n",
    )]);
    let info = MutationInfo::analyze(&program);
    assert_eq!(info.write_through_params("direct"), Some(&HashSet::from([0])));
    assert_eq!(info.write_through_params("forwards"), Some(&HashSet::from([1])));
    assert_eq!(info.write_through_params("reads"), None);
    assert!(info.method_writes_through_self("Box", "set"));
    assert!(!info.method_writes_through_self("Box", "get"));
}

// ---- loops over fields ----

#[test]
fn loops_over_fields_are_unrolled() {
    let body = main_body("fun main(p) {\n    for f in fields(p) {\n        show(f, p[f], f2)\n    }\n}\n");
    let (var, target, inner) = fields_loop_target(&body.stmts[0]).expect("a loop over fields");
    assert_eq!(var, "f");
    assert!(matches!(target, Expr::Ident(n, _) if n == "p"));
    let copy = expand_fields_body(inner, var, "age", 1);
    let Stmt::Expr(Expr::Call(_, args, span)) = &copy.stmts[0] else {
        panic!("a call");
    };
    assert!(matches!(&args[0].expr, Expr::Str(segs, _) if segs[0] == StrSeg::Lit("age".to_string())));
    assert!(matches!(&args[1].expr, Expr::Field(_, f, _) if f == "age"));
    assert!(matches!(&args[2].expr, Expr::Ident(n, _) if n == "f2"));
    let Stmt::Expr(written) = &inner.stmts[0] else {
        panic!("a call");
    };
    assert_eq!(span.lo, written.span().lo + 2 * SPAN_SHIFT_UNIT);
    assert_eq!(unshift_span(*span), written.span());
    assert_eq!(fields_loop_target(&inner.stmts[0]), None);
}

// ---- names ----

/// A name is looked up in its own module, then through the imports, then as it stands.
#[test]
fn type_ids_find_their_types() {
    let program = lower_program(&[
        (&["geo"], "type Vec2 = { x: float64 }\n"),
        (&["phys"], "type Vec2 = { vx: float64 }\n"),
    ]);
    assert_eq!(program.types[0].0, "Result");
    for (i, (_, t)) in program.types.iter().enumerate() {
        assert_eq!(t.id, i as i32);
        assert_eq!(program.type_by_id(t.id).map(|x| &x.symbol), Some(&t.symbol));
    }
    assert!(program.has_type_named("Vec2"));
    assert!(!program.has_type_named("Vec3"));
}

#[test]
fn lowering_errors() {
    let cases = [
        ("type Result = { x: int32 }\n", "`Result` is built in and cannot be redefined"),
        ("type A = { x: int32 }\ntype A = { y: int32 }\n", "duplicate type `A`"),
        ("fun Nope.m(self) { }\n", "unknown type `Nope` for method `m`"),
        (
            "fun string.shout(self) { }\n",
            "methods on the primitive type `string` can only be defined in the standard library",
        ),
    ];
    for (src, message) in cases {
        let errors = lower_messages(src);
        assert!(errors.iter().any(|m| m == message), "{src}: {errors:?}");
    }
}

// ---- incremental diagnostics ----

/// A stand-in for the checker: it knows literals, `let` annotations, and the parameters
/// of the functions in the module; `println` is built in.
fn check(module: &Module) -> Vec<(String, Span)> {
    let mut out = Vec::new();
    for item in &module.items {
        if let TopLevel::Fun(f) = item {
            for s in &f.body.stmts {
                if let Stmt::Let { ty: Some(TypeExpr::Named(t, _)), value: Some(v), .. } = s {
                    mismatch(t, v, &mut out);
                }
            }
        }
    }
    for e in walk_exprs(module) {
        let Expr::Call(callee, args, _) = e else {
            continue;
        };
        let Expr::Ident(name, span) = &**callee else {
            continue;
        };
        let decl = module.items.iter().find_map(|i| match i {
            TopLevel::Fun(f) if f.name == *name => Some(f),
            _ => None,
        });
        match decl {
            Some(f) => {
                for (p, a) in f.params.iter().zip(args) {
                    if let Some(TypeExpr::Named(t, _)) = &p.ty {
                        mismatch(t, &a.expr, &mut out);
                    }
                }
            }
            None if name == "println" => {}
            None => out.push((format!("unknown function `{name}`"), *span)),
        }
    }
    out
}

fn mismatch(want: &str, e: &Expr, out: &mut Vec<(String, Span)>) {
    let found = match e {
        Expr::Int(..) => "int32",
        Expr::Str(..) => "string",
        _ => return,
    };
    if found != want {
        out.push((format!("expected {want}, found {found}"), e.span()));
    }
}

fn path() -> String {
    "/tmp/prepoly_lsp_test/main.pp".to_string()
}

fn sorted(mut v: Vec<(String, Span)>) -> Vec<(String, Span)> {
    v.sort_by(|a, b| (a.1.lo, a.1.hi, &a.0).cmp(&(b.1.lo, b.1.hi, &b.0)));
    v
}

fn diagnostics(analyzer: &mut DocAnalyzer, text: &str) -> Vec<(String, Span)> {
    let main = parse(text);
    let plan = analyzer.plan(&main, text, 0);
    let run = check(&plan.main);
    analyzer.diagnostics(plan, &run, &Vec::new(), 0, text.len())
}

#[test]
fn incremental_matches_full() {
    let versions = [
        "fun helper(x: int32) -> int32 {\n    return x + 1\n}\n\nfun main() {\n    let y = helper(2)\n    println(y)\n}\n",
        "fun helper(x: int32) -> int32 {\n    return x + 1\n}\n\nfun main() {\n    let y = helper(2)\n    let z: int32 = \"oops\"\n    println(y)\n}\n",
        "fun helper(x: string) -> int32 {\n    return 1\n}\n\nfun main() {\n    let y = helper(2)\n    let z: int32 = \"oops\"\n    println(y)\n}\n",
        "fun helper(x: int32) -> int32 {\n    return x + 1\n}\n\nfun main() {\n    let y = helper(2)\n    println(y)\n}\n",
    ];

    let mut incremental = DocAnalyzer::new(path());
    let mut counts = Vec::new();
    for (i, text) in versions.iter().enumerate() {
        let got = sorted(diagnostics(&mut incremental, text));
        let want = sorted(diagnostics(&mut DocAnalyzer::new(path()), text));
        assert_eq!(got, want, "incremental != full on version {i}:\n{text}");
        counts.push(got.len());
    }
    assert_eq!(counts, vec![0, 1, 2, 0]);
}

#[test]
fn whitespace_edit_preserves_diagnostics() {
    let mut a = DocAnalyzer::new(path());
    let v1 = "fun main() {\n    let z: int32 = \"oops\"\n}\n";
    let v2 = "fun main() {\n\n    let z: int32 = \"oops\"\n}\n";
    let d1 = diagnostics(&mut a, v1);
    let d2 = diagnostics(&mut a, v2);
    assert!(!d1.is_empty(), "the program has a type error");
    let msgs1: Vec<&String> = d1.iter().map(|(m, _)| m).collect();
    let msgs2: Vec<&String> = d2.iter().map(|(m, _)| m).collect();
    assert_eq!(
        msgs1, msgs2,
        "a whitespace edit must not change the diagnostics"
    );
    assert_eq!(
        sorted(d2),
        sorted(diagnostics(&mut DocAnalyzer::new(path()), v2))
    );
}

/// An item that only moved is not checked again, and keeps its diagnostics at its new
/// place.
#[test]
fn a_moved_item_is_not_checked_again() {
    let mut a = DocAnalyzer::new(path());
    let v1 = "fun bad() {\n    let z: int32 = \"oops\"\n}\n";
    let v2 = "fun more() {\n}\n\nfun bad() {\n    let z: int32 = \"oops\"\n}\n";
    let d1 = diagnostics(&mut a, v1);
    assert_eq!(d1, vec![("expected int32, found string".to_string(), Span::new(31, 37))]);
    let main = parse(v2);
    let plan = a.plan(&main, v2, 0);
    assert!(!plan.full);
    assert_eq!(plan.diff.affected, vec![true, false]);
    assert_eq!(plan.diff.reduced, vec![true, false]);
    assert_eq!(plan.main.items.len(), 1);
    let d2 = a.diagnostics(plan, &Vec::new(), &Vec::new(), 0, v2.len());
    assert_eq!(d2, vec![("expected int32, found string".to_string(), Span::new(47, 53))]);
}

/// A changed import has the whole document checked.
#[test]
fn a_changed_import_rechecks_everything() {
    let mut a = DocAnalyzer::new(path());
    diagnostics(&mut a, "import a\nfun f() {\n}\n");
    let text = "import b\nfun f() {\n}\n";
    let main = parse(text);
    assert!(a.plan(&main, text, 0).full);
    let same = "import a\nfun f() {\n}\n";
    let main = parse(same);
    assert!(!a.plan(&main, same, 0).full);
}

/// A document that does not parse reports just that, and the next one is checked whole.
#[test]
fn a_parse_failure_drops_the_cache() {
    let mut a = DocAnalyzer::new(path());
    let text = "fun f() {\n}\n";
    diagnostics(&mut a, text);
    let d = a.parse_failed("syntax error: x".to_string(), Span::new(3, 4));
    assert_eq!(d, vec![("syntax error: x".to_string(), Span::new(3, 4))]);
    let main = parse(text);
    assert!(a.plan(&main, text, 0).full);
}

/// Errors located outside the document are not shown, those that run past its end are cut.
#[test]
fn diagnostics_are_those_of_the_document() {
    let mut a = DocAnalyzer::new(path());
    let text = "fun f() {\n}\n";
    let main = parse(text);
    let plan = a.plan(&main, text, 0);
    let base = 0;
    let run = vec![
        ("inside".to_string(), Span::new(4, 5)),
        ("past".to_string(), Span::new(12, 99)),
        ("elsewhere".to_string(), Span::new(50, 60)),
    ];
    let load = vec![("import".to_string(), Span::new(0, 3))];
    let d = a.diagnostics(plan, &run, &load, base, text.len());
    assert_eq!(
        d,
        vec![
            ("inside".to_string(), Span::new(4, 5)),
            ("past".to_string(), Span::new(12, 12)),
            ("import".to_string(), Span::new(0, 3)),
        ]
    );
}

// ---- walks ----

fn first_function(src: &str) -> FunDecl {
    for item in parse(src).items {
        if let TopLevel::Fun(f) = item {
            return f;
        }
    }
    panic!("no function");
}

fn empty_block() -> Block {
    Block { stmts: vec![], span: Span::new(0, 0) }
}

/// A copied closure has its parameters moved along with its body.
#[test]
fn copied_closures_move_their_parameters() {
    let closure = Expr::Closure(
        vec![Param {
            name: "p".to_string(),
            ty: Some(TypeExpr::Named("int32".to_string(), Span::new(5, 6))),
            span: Span::new(3, 4),
        }],
        Box::new(Expr::Ident("p".to_string(), Span::new(8, 9))),
        Span::new(2, 9),
    );
    let body = Block { stmts: vec![Stmt::Expr(closure)], span: Span::new(0, 10) };
    let copy = expand_fields_body(&body, "f", "x", 0);
    let Stmt::Expr(Expr::Closure(params, inner, span)) = &copy.stmts[0] else {
        panic!("expected a closure");
    };
    assert_eq!(params[0].name, "p");
    assert_eq!(params[0].span, Span::new(16777219, 16777220));
    assert_eq!(
        params[0].ty,
        Some(TypeExpr::Named("int32".to_string(), Span::new(16777221, 16777222)))
    );
    assert_eq!(inner.span(), Span::new(16777224, 16777225));
    assert_eq!(*span, Span::new(16777218, 16777225));
}

/// A mutation counts wherever it stands.
#[test]
fn mutations_are_found_wherever_they_stand() {
    let assigned = first_function("fun g(p, y) {\n    y = p.pop()\n}\n");
    assert!(mutates_root(&assigned.body, "p"));
    let condition = first_function("fun g(p) {\n    while p.pop() {\n    }\n}\n");
    assert!(mutates_root(&condition.body, "p"));
    let iterated = first_function("fun g(p) {\n    for x in p.pop() {\n    }\n}\n");
    assert!(mutates_root(&iterated.body, "p"));
    let popped = first_function("fun g(p) {\n    p.pop()\n}\n");
    let Stmt::Expr(call) = popped.body.stmts[0].clone() else {
        panic!("a call");
    };
    let span = Span::new(0, 0);
    let shown = Expr::Str(vec![StrSeg::Expr(Box::new(call))], span);
    assert!(mutates_root(&Block { stmts: vec![Stmt::Expr(shown)], span }, "p"));
    let read = first_function("fun g(p, y) {\n    y = p\n}\n");
    assert!(!mutates_root(&read.body, "p"));
}

/// A name counts as bound wherever in the body it is bound.
#[test]
fn names_are_bound_in_nested_blocks() {
    let f = first_function("fun g(c) {\n    if c {\n        let x = 1\n    }\n}\n");
    let bound = bound_names(&vec![], &f.body);
    assert_eq!(bound.items(), &vec!["x".to_string()]);
    let g = first_function(
        "fun g(c) {\n    match c {\n        y => { let z = 1 }\n    }\n}\n",
    );
    let bound = bound_names(&g.params, &g.body);
    assert!(bound.contains("c") && bound.contains("y") && bound.contains("z"));
}

/// A parameter is guarded by a lock even when nothing uses it later.
#[test]
fn parameters_are_always_cowned() {
    let mut params = NameSet::new();
    params.insert("p");
    assert_eq!(decide("p", false, &empty_block(), &params), Ownership::Cown);
    assert_eq!(decide("p", true, &empty_block(), &params), Ownership::Cown);
    assert_eq!(decide("q", false, &empty_block(), &params), Ownership::Move);
    assert_eq!(decide("q", true, &empty_block(), &params), Ownership::Freeze);
}

/// Decisions are sorted by name over all the sites of a function.
#[test]
fn decisions_are_sorted_by_name() {
    let d = decisions(
        "fun main() {\n    let b = make()\n    let a = make()\n    spawn(() -> { println(b) })\n    spawn(() -> { println(a) })\n}\n",
    );
    let names: Vec<&str> = d.iter().map(|x| x.var.as_str()).collect();
    assert_eq!(names, vec!["a", "b"]);
}

fn call_names(stmts: &[Stmt]) -> Vec<String> {
    let module = in_main(stmts.to_vec());
    let mut out = Vec::new();
    for e in walk_exprs(&module) {
        if let Expr::Call(callee, _, _) = e {
            if let Expr::Ident(n, _) = &**callee {
                out.push(n.clone());
            }
        }
    }
    out
}

/// What is computed on the way to a receiver is guarded too.
#[test]
fn receivers_that_are_no_places_are_guarded() {
    let f = first_function("fun g(c) {\n    c.get().show()\n}\n");
    let mut cowns = NameSet::new();
    cowns.insert("c");
    let out = guard_stmts(&f.body.stmts, &guard_map(&f.body.stmts, &cowns));
    assert_eq!(call_names(&out), vec!["with"]);
    let Stmt::Expr(Expr::Call(callee, _, _)) = &out[0] else {
        panic!("expected a call");
    };
    let Expr::Field(receiver, name, _) = &**callee else {
        panic!("expected a method");
    };
    assert_eq!(name, "show");
    assert!(is_call_to(receiver, "with"));
}

/// An index on the way to a guarded place is guarded as well as the place.
#[test]
fn indices_of_guarded_places_are_guarded() {
    let f = first_function("fun g(c, d) {\n    c[d.get()].show()\n    c[d.get()] = 1\n}\n");
    let mut cowns = NameSet::new();
    cowns.insert("c");
    cowns.insert("d");
    let out = guard_stmts(&f.body.stmts, &guard_map(&f.body.stmts, &cowns));
    assert_eq!(call_names(&out), vec!["with", "with", "with", "with"]);
}

/// A spawn is found at any depth, and one in a closure that is not spawned is reported
/// wherever the closure stands.
#[test]
fn spawns_are_found_at_any_depth() {
    let body = main_body(
        "fun main() {\n    if test(() -> { spawn(g) }) {\n        spawn(h)\n    }\n}\n",
    );
    let spans = all_spawn_spans(&body.stmts);
    assert_eq!(spans.len(), 2);
    assert!(spans[0].lo < spans[1].lo);
    let errors = pre_spawn_errors(&body.stmts, &NameSet::new(), &NameSet::new());
    assert_eq!(errors.len(), 1, "{errors:?}");
    assert_eq!(errors[0].message, PLAIN_CLOSURE_SPAWN);
    assert_eq!(errors[0].span, spans[0]);
}

/// A handle that a closure rebinds keeps the object alive.
#[test]
fn aliases_are_found_in_closures() {
    let d = decisions(
        "fun main() {\n    let c = make()\n    let w = 0\n    run(() -> { w = c })\n    spawn(() -> { println(c) })\n    println(w)\n}\n",
    );
    assert_eq!(d, one("c", Ownership::Freeze));
}

/// The enclosing function is found in the methods of records and of variants.
#[test]
fn methods_of_variants_enclose_their_bodies() {
    let body = |lo: usize, hi: usize| Block { stmts: vec![], span: Span::new(lo, hi) };
    let method = |name: &str, lo: usize, hi: usize| {
        Member::Method(Method {
            name: name.to_string(),
            params: vec![],
            ret: None,
            body: Some(body(lo + 1, hi)),
            span: Span::new(lo, hi),
            doc: None,
        })
    };
    let module = Module {
        imports: vec![],
        items: vec![TopLevel::Type(TypeDecl {
            name: "Shape".to_string(),
            interfaces: vec![],
            body: TypeBody::Sum(vec![
                Variant {
                    name: "Dot".to_string(),
                    members: vec![method("area", 10, 20)],
                    span: Span::new(5, 25),
                },
                Variant {
                    name: "Disc".to_string(),
                    members: vec![method("area", 40, 50)],
                    span: Span::new(30, 55),
                },
            ]),
            span: Span::new(0, 60),
            doc: None,
        })],
    };
    assert_eq!(enclosing(&module, 15).map(|(_, b)| b.span), Some(Span::new(11, 20)));
    assert_eq!(enclosing(&module, 45).map(|(_, b)| b.span), Some(Span::new(41, 50)));
    assert_eq!(enclosing(&module, 27).map(|(_, b)| b.span), None);
}

// ---- editor features ----

fn println_module() -> LoadedModule {
    LoadedModule {
        path: vec!["std".to_string(), "io".to_string()],
        ast: parse("fun println(x) {\n}\n"),
    }
}

/// The analysis of a document, with the types recorded for some of its expressions: the
/// `nth` expression with the given text has the given type.
fn full_analysis(src: &str, types: &[(&str, usize, Type)]) -> FullAnalysis {
    let main_ast = parse(src);
    let modules =
        vec![println_module(), LoadedModule { path: vec!["main".to_string()], ast: parse(src) }];
    let (program, errors) = lower(&modules);
    assert!(errors.is_empty(), "{errors:?}");
    let mut typed = TypedProgram::default();
    for (text, nth, ty) in types {
        let all = walk_exprs(&main_ast);
        let e = all
            .iter()
            .filter(|e| &src[e.span().lo..e.span().hi] == *text)
            .nth(*nth)
            .expect("expression");
        typed.push_expr(e, ty.clone(), Constness::Mutable);
    }
    FullAnalysis {
        program,
        typed,
        sources: SourceMap {
            files: vec![SourceFile {
                base: 0,
                path: Some(path()),
                src: src.to_string(),
            }],
        },
        main_base: 0,
        main_ast,
        schemes: vec![],
        prelude_modules: vec![vec!["std".to_string(), "io".to_string()]],
    }
}

fn position(src: &str, needle: &str, last: bool) -> (Document, Position) {
    let off = if last {
        src.rfind(needle).unwrap()
    } else {
        src.find(needle).unwrap()
    };
    let doc = Document::new(src.to_string(), 1);
    let pos = doc.position_at(off + 1);
    (doc, pos)
}

#[test]
fn hover_shows_unknown_numbered_signature() {
    let src = "fun id(x) {\n    return x\n}\n";
    let full = full_analysis(src, &[]);
    let (doc, pos) = position(src, "id(x)", false);
    let h = hover(&doc, &full, pos).expect("hover over the function name");
    let text = h.value;
    assert!(text.contains("fun id("), "got: {text}");
    assert!(
        text.contains("unknown_0"),
        "param should be unknown_0: {text}"
    );
    assert!(
        text.contains("unknown_1"),
        "return should be unknown_1: {text}"
    );
}

#[test]
fn hover_shows_variable_type() {
    let src = "fun main() {\n    let v = 5\n    println(v)\n}\n";
    let int = Type::Int(IntKind::I32);
    let full = full_analysis(src, &[("5", 0, int.clone()), ("v", 0, int)]);
    let (doc, pos) = position(src, "v)", true);
    let h = hover(&doc, &full, pos).expect("hover over a variable");
    assert!(h.value.contains("v:"), "should show `v: <type>`: {}", h.value);
    assert_eq!(h.value, "```prepoly\nv: int32\n```");
    assert_eq!(h.span, Some(Span::new(39, 40)));
}

#[test]
fn hover_shows_type_at_declaration() {
    let src = "fun main() {\n    let count = 5\n    println(count)\n}\n";
    let int = Type::Int(IntKind::I32);
    let full = full_analysis(src, &[("5", 0, int.clone()), ("count", 0, int)]);
    let (doc, pos) = position(src, "count", false);
    let h = hover(&doc, &full, pos).expect("hover over a let binding");
    assert!(
        h.value.contains("count:"),
        "should show `count: <type>`: {}",
        h.value
    );
}

#[test]
fn hover_shows_pattern_bound_variable_type() {
    let src = "type Shape =\n    | Circle { radius: float64 }\n    | Square\n\nfun area(s: Shape) -> float64 {\n    return match s {\n        Circle { radius } => radius * radius,\n        Square => 0.0,\n    }\n}\n";
    let f64t = Type::Float(FloatKind::F64);
    let full = full_analysis(
        src,
        &[
            ("radius", 0, f64t.clone()),
            ("radius", 1, f64t.clone()),
            ("radius * radius", 0, f64t),
        ],
    );

    let (doc, pos) = position(src, "radius } =>", false);
    let h = hover(&doc, &full, pos).expect("hover over a pattern binding");
    assert!(h.value.contains("radius:"), "binding shows the name: {}", h.value);
    assert!(
        h.value.contains("float64"),
        "binding shows the field type: {}",
        h.value
    );

    let (doc2, pos2) = position(src, "radius * radius", false);
    let h2 = hover(&doc2, &full, pos2).expect("hover over a pattern use");
    assert!(h2.value.contains("float64"), "use shows the type");
}

#[test]
fn hover_shows_inferred_return_type() {
    let src = "fun f(a: int32) {\n    error(1)!\n    return \"never\"\n}\n\nprintln(f(0))\n";
    let result = Type::result(Type::Str, Type::Int(IntKind::I32));
    let full = full_analysis(src, &[("f(0)", 0, result), ("\"never\"", 0, Type::Str)]);
    let (doc, pos) = position(src, "f(0)", true);
    let h = hover(&doc, &full, pos).expect("hover over the function");
    let text = h.value;
    assert!(text.contains("fun f("), "got: {text}");
    assert!(
        text.contains("Result<string, int32>"),
        "inferred fallible return must be shown: {text}"
    );
    assert!(
        !text.contains("-> unknown"),
        "return must not fall back to unknown: {text}"
    );
}

/// A call binds the unknowns of the function it calls.
#[test]
fn hover_binds_the_unknowns_of_a_call() {
    let src = "fun f(a, b) {\n    return a\n}\n\nf(1, \"x\")\n";
    let full = full_analysis(
        src,
        &[
            ("a", 0, Type::Unknown(7)),
            ("1", 0, Type::Int(IntKind::I32)),
            ("\"x\"", 0, Type::Str),
            ("f(1, \"x\")", 0, Type::Int(IntKind::I32)),
        ],
    );
    let (doc, _) = position(src, "f(1", true);
    let pos = doc.position_at(src.rfind("f(1").unwrap());
    let h = hover(&doc, &full, pos).expect("hover over the call");
    assert_eq!(
        h.value,
        "```prepoly\nfun f(a: ref(unknown_0), b: ref(unknown_1)) -> unknown_0\n```\n\n---\n\n```prepoly\nunknown_0 = int32, unknown_1 = string\n```"
    );
}

/// A method name behind a receiver shows the method's signature.
#[test]
fn hover_shows_a_method() {
    let src = "type Box = {\n    n: int32\n}\nfun Box.get(self) -> int32 { return self.n }\nfun main(b: Box) {\n    b.get()\n}\n";
    let probe = full_analysis(src, &[]);
    let b = Type::Record(get(&probe.program.types, "Box").unwrap().nominal_ref());
    let full = full_analysis(
        src,
        &[("b", 0, b), ("b.get()", 0, Type::Int(IntKind::I32))],
    );
    let (doc, pos) = position(src, "get()", true);
    let h = hover(&doc, &full, pos).expect("hover over the method");
    assert_eq!(h.value, "```prepoly\nfun get(self: ref(Self)) -> int32\n```");
}

fn start_line(full: &FullAnalysis, t: Target) -> u32 {
    t.range(&full.sources).start.line
}

#[test]
fn definition_jumps_to_function() {
    let src = "fun helper() -> int32 {\n    return 1\n}\n\nfun main() {\n    let v = helper()\n}\n";
    let full = full_analysis(src, &[("helper()", 0, Type::Int(IntKind::I32))]);
    let (doc, pos) = position(src, "helper()", true);
    let loc = definition(&doc, &full, pos).expect("definition of a call");
    assert_eq!(start_line(&full, loc), 0, "helper is declared on line 0");
}

#[test]
fn definition_jumps_to_local_binding() {
    let src = "fun main() {\n    let target = 5\n    println(target)\n}\n";
    let full = full_analysis(src, &[("target", 0, Type::Int(IntKind::I32))]);
    let (doc, pos) = position(src, "target)", true);
    let loc = definition(&doc, &full, pos).expect("definition of a local");
    assert_eq!(start_line(&full, loc), 1, "binding is on line 1");
}

/// A place names the file that holds it.
#[test]
fn definitions_name_their_file() {
    let src = "fun main() {\n    let target = 5\n    println(target)\n}\n";
    let mut full = full_analysis(src, &[("target", 0, Type::Int(IntKind::I32))]);
    let (doc, pos) = position(src, "target)", true);
    let t = definition(&doc, &full, pos).expect("definition of a local");
    assert_eq!(t.path(&full.sources), Some(path().as_str()));
    full.sources.files[0].path = None;
    assert_eq!(t.path(&full.sources), None);
}

/// A binding inside a closure in the condition of a loop is found.
#[test]
fn definition_jumps_into_conditions() {
    let src = "fun main() {\n    while test(() -> { let inner = 5\n        println(inner) }) {\n    }\n}\nfun test(f) {\n}\n";
    let full = full_analysis(src, &[("inner", 0, Type::Int(IntKind::I32))]);
    let (doc, pos) = position(src, "inner)", true);
    let t = definition(&doc, &full, pos).expect("definition of a local");
    assert_eq!(start_line(&full, t), 1);
}

/// A value returned from within a bound value is a function's return value; one returned
/// by a closure is not.
#[test]
fn returns_are_found_in_bound_values() {
    let src = "fun f(y) {\n    run(() -> { return 7 })\n    let x = match y {\n        a => { return 5 }\n    }\n}\nfun run(g) {\n}\n";
    let full = full_analysis(
        src,
        &[("7", 0, Type::Str), ("5", 0, Type::Int(IntKind::I64))],
    );
    let f = get(&full.program.functions, "f").expect("the function");
    assert_eq!(generic_return_type(&full, f), Some(Type::Int(IntKind::I64)));
}

/// The type of a `let` in a closure argument is that of its value.
#[test]
fn values_bound_in_arguments_have_types() {
    let src = "fun main() {\n    run(() -> { let inner = 5\n        println(1) })\n}\nfun run(f) {\n}\n";
    let full = full_analysis(src, &[("5", 0, Type::Int(IntKind::I64))]);
    let off = src.find("inner").unwrap();
    assert_eq!(local_var_type(&full, off, "inner"), Some(Type::Int(IntKind::I64)));
}

/// A member access resolves through the receiver's type.
#[test]
fn definition_jumps_to_members() {
    let src = "type Box = {\n    n: int32\n}\nfun Box.get(self) -> int32 { return self.n }\nfun main(b: Box) {\n    b.get()\n    b.n\n}\n";
    let probe = full_analysis(src, &[]);
    let b = Type::Record(get(&probe.program.types, "Box").unwrap().nominal_ref());
    let full = full_analysis(
        src,
        &[
            ("b", 0, b.clone()),
            ("b.get", 0, Type::Int(IntKind::I32)),
            ("b", 1, b),
            ("b.n", 0, Type::Int(IntKind::I32)),
        ],
    );
    let (doc, pos) = position(src, "get()", true);
    let t = definition(&doc, &full, pos).expect("definition of a method");
    assert_eq!(start_line(&full, t), 3);
    let (doc, pos) = position(src, ".n\n", true);
    let t = definition(&doc, &full, pos).expect("definition of a field");
    assert_eq!(start_line(&full, t), 0);
}

#[test]
fn semantic_tokens_classify_keyword() {
    let src = "fun main() {\n    let x = 1\n}\n";
    let data = tokens(src, Some(&parse(src)));
    assert!(!data.is_empty());
    assert_eq!(data[0].token_type, 8);
}

fn labels(items: &[CompletionItem]) -> Vec<String> {
    items.iter().map(|i| i.label.clone()).collect()
}

#[test]
fn completion_offers_types_and_functions() {
    let src = "type Point = {\n    x: int32\n}\n\nfun helper() {\n}\n\nfun main() {\n    h\n}\n";
    let full = full_analysis(src, &[]);
    let doc = Document::new(src.to_string(), 1);
    let off = src.rfind("h\n").unwrap() + 1;
    assert_eq!(request(&doc, doc.position_at(off)), Request::Symbols);
    let items = symbol_items(program_symbols(&full));
    let labels = labels(&items);
    assert!(
        labels.contains(&"Point".to_string()),
        "own type: {labels:?}"
    );
    assert!(labels.contains(&"helper".to_string()), "own fn: {labels:?}");
    assert!(
        labels.contains(&"println".to_string()),
        "prelude fn: {labels:?}"
    );
    assert!(
        labels.contains(&"int32".to_string()),
        "builtin type: {labels:?}"
    );
}

fn strings(v: &[&str]) -> Vec<String> {
    v.iter().map(|s| s.to_string()).collect()
}

#[test]
fn completion_offers_import_modules() {
    let src = "import ";
    let doc = Document::new(src.to_string(), 1);
    let Request::Import(ImportContext::Path { parents, prefix }) =
        request(&doc, doc.position_at(src.len()))
    else {
        panic!("an import path is completed");
    };
    let roots = ImportRoots {
        prelude: strings(&["math", "io"]),
        nested: strings(&["collections/hashmap"]),
        packages: vec![],
        served: vec![],
    };
    let items = import_path_items(&parents, &prefix, &roots);
    let labels = labels(&items);
    assert!(
        labels.contains(&"math".to_string()),
        "prelude module: {labels:?}"
    );
    assert!(
        labels.contains(&"io".to_string()),
        "prelude module: {labels:?}"
    );
    assert!(
        labels.contains(&"std".to_string()),
        "std namespace: {labels:?}"
    );
}

#[test]
fn completion_offers_imported_names() {
    let src = "import math.{ ";
    let doc = Document::new(src.to_string(), 1);
    let Request::Import(ImportContext::Names { module, prefix }) =
        request(&doc, doc.position_at(src.len()))
    else {
        panic!("an imported name is completed");
    };
    assert_eq!(module, strings(&["math"]));
    assert_eq!(prefix, "");
    let math = parse("fun sqrt(x) {\n}\nfun _hidden(x) {\n}\n");
    let items = module_symbols(&math, true);
    let labels = labels(&items);
    assert!(
        labels
            .iter()
            .any(|l| l == "sqrt" || l == "abs" || l == "pow"),
        "math's public functions should be offered: {labels:?}"
    );
    assert!(!labels.contains(&"_hidden".to_string()));
}
