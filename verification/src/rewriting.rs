//! What rewriting keeps: where nothing is guarded nothing changes, and a copy has every part of
//! what it is a copy of.

use vstd::prelude::*;
use crate::anatomy::{parts, seg_pieces, stmt_pieces, Piece};
use crate::ast::{ArgV, BlockV, ExprV, MatchArmV, StmtV, StrSegV};
use crate::expand::{copied_args, copied_block, copied_expr, copied_exprs, copied_match_arm, copied_match_arms, copied_named_exprs, copied_stmt, copied_stmts, copied_str_seg, copied_str_segs, fields_loop, shifted, Copy1};
use crate::guards::{arg_roots, args_roots, callee_roots, direct_roots, guarded, guarded_arg, guarded_args, guarded_arm, guarded_arms, guarded_callee, guarded_children, guarded_list, guarded_named, guarded_place, guarded_seg, guarded_segs, guarded_stmt, guarded_stmts, place_roots, roots_of, GuardRel};
use crate::span::Span;

verus! {

// ---- guarding nothing ----

/// Nothing guarded.
spec fn none() -> GuardRel {
    Set::empty()
}

proof fn no_roots(e: ExprV)
    ensures
        place_roots(e, none()) == Set::<Seq<char>>::empty(),
        arg_roots(e, none()) == Set::<Seq<char>>::empty(),
        callee_roots(e, none()) == Set::<Seq<char>>::empty(),
{
    assert forall|h: Seq<char>| #[trigger] roots_of(none(), h) =~= Set::<Seq<char>>::empty() by {}
}

proof fn no_arg_roots(args: Seq<ArgV>)
    ensures
        args_roots(args, none()) == Set::<Seq<char>>::empty(),
    decreases args.len(),
{
    if args.len() > 0 {
        no_arg_roots(args.drop_last());
        no_roots(args.last().expr);
        assert(args_roots(args, none()) =~= Set::<Seq<char>>::empty());
    }
}

proof fn no_direct_roots(e: ExprV)
    ensures
        direct_roots(e, none()) == Set::<Seq<char>>::empty(),
{
    match e {
        ExprV::Call(callee, args, _) => {
            no_roots(*callee);
            no_arg_roots(args);
            assert(direct_roots(e, none()) =~= Set::<Seq<char>>::empty());
        },
        ExprV::Field(base, _, _) => no_roots(*base),
        ExprV::Index(base, _, _) => no_roots(*base),
        _ => {},
    }
}

proof fn expr_stays(e: ExprV)
    ensures
        guarded(e, none()) == e,
    decreases e, 1int,
{
    children_stay(e);
    no_direct_roots(e);
}

proof fn place_stays(e: ExprV)
    ensures
        guarded_place(e, none()) == e,
    decreases e, 2int,
{
    match e {
        ExprV::Field(a, _, _) => place_stays(*a),
        ExprV::Index(a, b, _) => {
            place_stays(*a);
            expr_stays(*b);
        },
        _ => expr_stays(e),
    }
}

proof fn callee_stays(e: ExprV)
    ensures
        guarded_callee(e, none()) == e,
    decreases e, 2int,
{
    match e {
        ExprV::Field(a, _, _) => place_stays(*a),
        _ => expr_stays(e),
    }
}

proof fn children_stay(e: ExprV)
    ensures
        guarded_children(e, none()) == e,
    decreases e, 0int,
{
    match e {
        ExprV::Call(callee, args, _) => {
            callee_stays(*callee);
            args_stay(args);
        },
        ExprV::Field(a, _, _) => expr_stays(*a),
        ExprV::Unary(_, a, _) => expr_stays(*a),
        ExprV::ErrorProp(a, _) => expr_stays(*a),
        ExprV::Index(a, b, _) => {
            expr_stays(*a);
            expr_stays(*b);
        },
        ExprV::Range(a, b, _) => {
            expr_stays(*a);
            expr_stays(*b);
        },
        ExprV::Binary(_, a, b, _) => {
            expr_stays(*a);
            expr_stays(*b);
        },
        ExprV::Array(es, _) => list_stays(es),
        ExprV::TypeLit(_, fs, _) => named_stay(fs),
        ExprV::VariantLit(_, _, fs, _) => named_stay(fs),
        ExprV::Str(segs, _) => segs_stay(segs),
        ExprV::Block(b, _) => stmts_stay(b.stmts),
        ExprV::If(c, t, els, _) => {
            expr_stays(*c);
            stmts_stay(t.stmts);
            if let Some(x) = els {
                expr_stays(*x);
            }
        },
        ExprV::IfLet(_, c, t, els, _) => {
            expr_stays(*c);
            stmts_stay(t.stmts);
            if let Some(x) = els {
                expr_stays(*x);
            }
        },
        ExprV::Match(c, arms, _) => {
            expr_stays(*c);
            arms_stay(arms);
        },
        _ => {},
    }
}

proof fn stmt_stays(s: StmtV)
    ensures
        guarded_stmt(s, none()) == s,
    decreases s, 0int,
{
    match s {
        StmtV::Let { value, .. } => {
            if let Some(e) = value {
                expr_stays(e);
            }
        },
        StmtV::Assign { target, value, .. } => {
            no_roots(target);
            expr_stays(target);
            expr_stays(value);
        },
        StmtV::Expr(e) => expr_stays(e),
        StmtV::While { cond, body, .. } => {
            expr_stays(cond);
            stmts_stay(body.stmts);
        },
        StmtV::For { iter, body, .. } => {
            expr_stays(iter);
            stmts_stay(body.stmts);
        },
        StmtV::Return(value, _) => {
            if let Some(e) = value {
                expr_stays(e);
            }
        },
        _ => {},
    }
}

proof fn args_stay(ss: Seq<ArgV>)
    ensures
        guarded_args(ss, none()) == ss,
    decreases ss, 0int,
{
    if ss.len() > 0 {
        args_stay(ss.drop_last());
        no_roots(ss.last().expr);
        expr_stays(ss.last().expr);
        assert(guarded_arg(ss.last(), none()) == ss.last());
        assert(ss.drop_last().push(ss.last()) =~= ss);
    } else {
        assert(ss =~= Seq::<ArgV>::empty());
    }
}

proof fn list_stays(ss: Seq<ExprV>)
    ensures
        guarded_list(ss, none()) == ss,
    decreases ss, 0int,
{
    if ss.len() > 0 {
        list_stays(ss.drop_last());
        expr_stays(ss.last());
        assert(ss.drop_last().push(ss.last()) =~= ss);
    } else {
        assert(ss =~= Seq::<ExprV>::empty());
    }
}

proof fn named_stay(ss: Seq<(Seq<char>, ExprV)>)
    ensures
        guarded_named(ss, none()) == ss,
    decreases ss, 0int,
{
    if ss.len() > 0 {
        named_stay(ss.drop_last());
        expr_stays(ss.last().1);
        assert(ss.drop_last().push(ss.last()) =~= ss);
    } else {
        assert(ss =~= Seq::<(Seq<char>, ExprV)>::empty());
    }
}

proof fn segs_stay(ss: Seq<StrSegV>)
    ensures
        guarded_segs(ss, none()) == ss,
    decreases ss, 0int,
{
    if ss.len() > 0 {
        segs_stay(ss.drop_last());
        if let StrSegV::Expr(e) = ss.last() {
            expr_stays(*e);
        }
        assert(guarded_seg(ss.last(), none()) == ss.last());
        assert(ss.drop_last().push(ss.last()) =~= ss);
    } else {
        assert(ss =~= Seq::<StrSegV>::empty());
    }
}

proof fn arms_stay(ss: Seq<MatchArmV>)
    ensures
        guarded_arms(ss, none()) == ss,
    decreases ss, 0int,
{
    if ss.len() > 0 {
        arms_stay(ss.drop_last());
        expr_stays(ss.last().body);
        assert(guarded_arm(ss.last(), none()) == ss.last());
        assert(ss.drop_last().push(ss.last()) =~= ss);
    } else {
        assert(ss =~= Seq::<MatchArmV>::empty());
    }
}

proof fn stmts_stay(ss: Seq<StmtV>)
    ensures
        guarded_stmts(ss, none()) == ss,
    decreases ss, 0int,
{
    if ss.len() > 0 {
        stmts_stay(ss.drop_last());
        stmt_stays(ss.last());
        assert(ss.drop_last().push(ss.last()) =~= ss);
    } else {
        assert(ss =~= Seq::<StmtV>::empty());
    }
}

/// Code in which nothing is guarded is left as it is, to the last part.
pub proof fn unguarded_code_is_untouched(ss: Seq<StmtV>)
    ensures
        guarded_stmts(ss, Set::empty()) == ss,
{
    stmts_stay(ss);
}

// ---- copies ----

/// The copy of a piece of code.
pub open spec fn copied_piece(p: Piece, c: Copy1) -> Piece {
    match p {
        Piece::Expr(e) => Piece::Expr(copied_expr(e, c)),
        Piece::Stmt(s) => Piece::Stmt(copied_stmt(s, c)),
        Piece::Arm(a) => Piece::Arm(copied_match_arm(a, c)),
    }
}

/// Whether a piece stands for the field of the copy: it is the loop variable, or an element
/// that the loop variable picks.
pub open spec fn stands_for_field(p: Piece, c: Copy1) -> bool {
    match p {
        Piece::Expr(ExprV::Ident(n, _)) => n == c.var,
        Piece::Expr(ExprV::Index(_, i, _)) => *i matches ExprV::Ident(n, _) && n == c.var,
        _ => false,
    }
}

/// The copies of pieces.
pub open spec fn copied_pieces(ps: Seq<Piece>, c: Copy1) -> Seq<Piece> {
    Seq::new(ps.len(), |i: int| copied_piece(ps[i], c))
}

/// Whether two pieces are alike but for their parts and where they stand.
pub open spec fn alike(p: Piece, q: Piece) -> bool {
    match (p, q) {
        (Piece::Expr(a), Piece::Expr(b)) => match (a, b) {
            (ExprV::Int(x, _), ExprV::Int(y, _)) => x == y,
            (ExprV::Float(x, _), ExprV::Float(y, _)) => x == y,
            (ExprV::Bool(x, _), ExprV::Bool(y, _)) => x == y,
            (ExprV::Null(_), ExprV::Null(_)) => true,
            (ExprV::Ident(x, _), ExprV::Ident(y, _)) => x == y,
            (ExprV::SelfExpr(_), ExprV::SelfExpr(_)) => true,
            (ExprV::Str(x, _), ExprV::Str(y, _)) => x.len() == y.len() && forall|i: int|
                0 <= i < x.len() ==> (#[trigger] x[i] matches StrSegV::Lit(s) ==> (
                y[i] matches StrSegV::Lit(t) && s == t)),
            (ExprV::Unary(x, _, _), ExprV::Unary(y, _, _)) => x == y,
            (ExprV::Binary(x, _, _, _), ExprV::Binary(y, _, _, _)) => x == y,
            (ExprV::Call(_, x, _), ExprV::Call(_, y, _)) => x.len() == y.len(),
            (ExprV::Field(_, x, _), ExprV::Field(_, y, _)) => x == y,
            (ExprV::Index(_, _, _), ExprV::Index(_, _, _)) => true,
            (ExprV::ErrorProp(_, _), ExprV::ErrorProp(_, _)) => true,
            (ExprV::Closure(x, _, _), ExprV::Closure(y, _, _)) => x.len() == y.len() && forall|
                i: int,
            |
                0 <= i < x.len() ==> (#[trigger] x[i]).name == y[i].name,
            (ExprV::Array(_, _), ExprV::Array(_, _)) => true,
            (ExprV::Range(_, _, _), ExprV::Range(_, _, _)) => true,
            (ExprV::TypeLit(m, x, _), ExprV::TypeLit(n, y, _)) => m == n && x.len() == y.len()
                && forall|i: int| 0 <= i < x.len() ==> (#[trigger] x[i]).0 == y[i].0,
            (ExprV::VariantLit(m, v, x, _), ExprV::VariantLit(n, w, y, _)) => m == n && v == w
                && x.len() == y.len() && forall|i: int|
                0 <= i < x.len() ==> (#[trigger] x[i]).0 == y[i].0,
            (ExprV::If(_, x, e, _), ExprV::If(_, y, f, _)) => x.stmts.len() == y.stmts.len()
                && e is Some == f is Some,
            (ExprV::IfLet(_, _, x, e, _), ExprV::IfLet(_, _, y, f, _)) => x.stmts.len()
                == y.stmts.len() && e is Some == f is Some,
            (ExprV::Match(_, x, _), ExprV::Match(_, y, _)) => x.len() == y.len(),
            (ExprV::Block(x, _), ExprV::Block(y, _)) => x.stmts.len() == y.stmts.len(),
            _ => false,
        },
        (Piece::Stmt(a), Piece::Stmt(b)) => match (a, b) {
            (
                StmtV::Let { ty: x, value: e, is_const: k, .. },
                StmtV::Let { ty: y, value: f, is_const: l, .. },
            ) => x is Some == y is Some && e is Some == f is Some && k == l,
            (StmtV::Assign { op: x, .. }, StmtV::Assign { op: y, .. }) => x == y,
            (StmtV::Expr(_), StmtV::Expr(_)) => true,
            (StmtV::While { body: x, .. }, StmtV::While { body: y, .. }) => x.stmts.len()
                == y.stmts.len(),
            (StmtV::For { var: m, body: x, .. }, StmtV::For { var: n, body: y, .. }) => m == n
                && x.stmts.len() == y.stmts.len(),
            (StmtV::Return(x, _), StmtV::Return(y, _)) => x is Some == y is Some,
            (StmtV::Break(_), StmtV::Break(_)) => true,
            (StmtV::Continue(_), StmtV::Continue(_)) => true,
            _ => false,
        },
        (Piece::Arm(_), Piece::Arm(_)) => true,
        _ => false,
    }
}

proof fn copied_both(a: Seq<Piece>, b: Seq<Piece>, c: Copy1)
    ensures
        copied_pieces(a + b, c) == copied_pieces(a, c) + copied_pieces(b, c),
{
    assert(copied_pieces(a + b, c) =~= copied_pieces(a, c) + copied_pieces(b, c));
}

proof fn copied_seg_pieces(segs: Seq<StrSegV>, c: Copy1)
    ensures
        seg_pieces(copied_str_segs(segs, c)) == copied_pieces(seg_pieces(segs), c),
    decreases segs.len(),
{
    let copy = copied_str_segs(segs, c);
    if segs.len() > 0 {
        let front = segs.drop_last();
        copied_seg_pieces(front, c);
        assert(copy.drop_last() =~= copied_str_segs(front, c));
        assert(copy.last() == copied_str_seg(segs.last(), c));
        let last: Seq<Piece> = match segs.last() {
            StrSegV::Expr(e) => seq![Piece::Expr(*e)],
            StrSegV::Lit(_) => Seq::empty(),
        };
        copied_both(seg_pieces(front), last, c);
        assert(seg_pieces(copy) =~= copied_pieces(seg_pieces(segs), c));
    } else {
        assert(seg_pieces(copy) =~= copied_pieces(seg_pieces(segs), c));
    }
}

proof fn copied_stmt_pieces(ss: Seq<StmtV>, c: Copy1)
    ensures
        stmt_pieces(copied_stmts(ss, c)) == copied_pieces(stmt_pieces(ss), c),
{
    assert(stmt_pieces(copied_stmts(ss, c)) =~= copied_pieces(stmt_pieces(ss), c));
}

proof fn copied_count(ss: Seq<StmtV>, c: Copy1)
    ensures
        copied_stmts(ss, c).len() == ss.len(),
{
}

proof fn copied_one(p: Piece, c: Copy1)
    ensures
        copied_pieces(seq![p], c) == seq![copied_piece(p, c)],
        copied_pieces(Seq::empty(), c) == Seq::<Piece>::empty(),
{
    assert(copied_pieces(seq![p], c) =~= seq![copied_piece(p, c)]);
    assert(copied_pieces(Seq::empty(), c) =~= Seq::<Piece>::empty());
}

proof fn pair(a: Piece, b: Piece)
    ensures
        seq![a] + seq![b] == seq![a, b],
{
    assert(seq![a] + seq![b] =~= seq![a, b]);
}

proof fn copied_two(p: Piece, q: Piece, c: Copy1)
    ensures
        copied_pieces(seq![p, q], c) == seq![copied_piece(p, c), copied_piece(q, c)],
{
    copied_both(seq![p], seq![q], c);
    copied_one(p, c);
    copied_one(q, c);
    let a = copied_piece(p, c);
    let b = copied_piece(q, c);
    pair(p, q);
    pair(a, b);
}

proof fn branch_parts(a: ExprV, t: Seq<StmtV>, els: Option<Box<ExprV>>, c: Copy1)
    ensures
        ({
            let last: Seq<Piece> = match els {
                Some(x) => seq![Piece::Expr(*x)],
                None => Seq::empty(),
            };
            let copy: Seq<Piece> = match els {
                Some(x) => seq![Piece::Expr(copied_expr(*x, c))],
                None => Seq::empty(),
            };
            copied_pieces(seq![Piece::Expr(a)] + stmt_pieces(t) + last, c) == seq![
                Piece::Expr(copied_expr(a, c)),
            ] + stmt_pieces(copied_stmts(t, c)) + copy
        }),
{
    let last: Seq<Piece> = match els {
        Some(x) => seq![Piece::Expr(*x)],
        None => Seq::empty(),
    };
    copied_both(seq![Piece::Expr(a)] + stmt_pieces(t), last, c);
    copied_both(seq![Piece::Expr(a)], stmt_pieces(t), c);
    copied_one(Piece::Expr(a), c);
    copied_stmt_pieces(t, c);
    if let Some(x) = els {
        copied_one(Piece::Expr(*x), c);
    }
}

proof fn named_parts(fs: Seq<(Seq<char>, ExprV)>, c: Copy1)
    ensures
        ({
            let copy = copied_named_exprs(fs, c);
            copied_pieces(Seq::new(fs.len(), |i: int| Piece::Expr(fs[i].1)), c) == Seq::new(
                copy.len(),
                |i: int| Piece::Expr(copy[i].1),
            )
        }),
{
    let copy = copied_named_exprs(fs, c);
    assert(copied_pieces(Seq::new(fs.len(), |i: int| Piece::Expr(fs[i].1)), c) =~= Seq::new(
        copy.len(),
        |i: int| Piece::Expr(copy[i].1),
    ));
}

/// Whether the copy of a piece is like the piece, and its parts are the copies of the parts, in
/// order.
#[verifier::opaque]
pub open spec fn is_kept(p: Piece, c: Copy1) -> bool {
    &&& alike(p, copied_piece(p, c))
    &&& parts(copied_piece(p, c)) == copied_pieces(parts(p), c)
}

proof fn kept_unary(e: ExprV, c: Copy1)
    requires
        e is Unary,
    ensures
        is_kept(Piece::Expr(e), c),
{
    reveal(is_kept);
    if let ExprV::Unary(_, a, _) = e {
        copied_one(Piece::Expr(*a), c);
    }
}

proof fn kept_field(e: ExprV, c: Copy1)
    requires
        e is Field,
    ensures
        is_kept(Piece::Expr(e), c),
{
    reveal(is_kept);
    if let ExprV::Field(a, _, _) = e {
        copied_one(Piece::Expr(*a), c);
    }
}

proof fn kept_error_prop(e: ExprV, c: Copy1)
    requires
        e is ErrorProp,
    ensures
        is_kept(Piece::Expr(e), c),
{
    reveal(is_kept);
    if let ExprV::ErrorProp(a, _) = e {
        copied_one(Piece::Expr(*a), c);
    }
}

proof fn kept_closure(e: ExprV, c: Copy1)
    requires
        e is Closure,
    ensures
        is_kept(Piece::Expr(e), c),
{
    reveal(is_kept);
    if let ExprV::Closure(ps, a, _) = e {
        copied_one(Piece::Expr(*a), c);
        let qs = crate::expand::copied_params(ps, c);
        assert forall|i: int| 0 <= i < ps.len() implies (#[trigger] ps[i]).name == qs[i].name by {
            assert(qs[i] == crate::expand::copied_param(ps[i], c));
        }
    }
}

proof fn kept_binary(e: ExprV, c: Copy1)
    requires
        e is Binary,
    ensures
        is_kept(Piece::Expr(e), c),
{
    reveal(is_kept);
    if let ExprV::Binary(_, a, b, _) = e {
        copied_two(Piece::Expr(*a), Piece::Expr(*b), c);
    }
}

proof fn kept_index(e: ExprV, c: Copy1)
    requires
        e is Index,
        !stands_for_field(Piece::Expr(e), c),
    ensures
        is_kept(Piece::Expr(e), c),
{
    reveal(is_kept);
    if let ExprV::Index(a, b, _) = e {
        copied_two(Piece::Expr(*a), Piece::Expr(*b), c);
    }
}

proof fn kept_range(e: ExprV, c: Copy1)
    requires
        e is Range,
    ensures
        is_kept(Piece::Expr(e), c),
{
    reveal(is_kept);
    if let ExprV::Range(a, b, _) = e {
        copied_two(Piece::Expr(*a), Piece::Expr(*b), c);
    }
}

proof fn kept_call(e: ExprV, c: Copy1)
    requires
        e is Call,
    ensures
        is_kept(Piece::Expr(e), c),
{
    reveal(is_kept);
    if let ExprV::Call(f, args, _) = e {
        let ps = Seq::new(args.len(), |i: int| Piece::Expr(args[i].expr));
        let copy = copied_args(args, c);
        copied_one(Piece::Expr(*f), c);
        copied_both(seq![Piece::Expr(*f)], ps, c);
        assert(copied_pieces(ps, c) =~= Seq::new(copy.len(), |i: int| Piece::Expr(copy[i].expr)));
    }
}

proof fn kept_array(e: ExprV, c: Copy1)
    requires
        e is Array,
    ensures
        is_kept(Piece::Expr(e), c),
{
    reveal(is_kept);
    if let ExprV::Array(es, _) = e {
        let copy = copied_exprs(es, c);
        assert(copied_pieces(Seq::new(es.len(), |i: int| Piece::Expr(es[i])), c) =~= Seq::new(
            copy.len(),
            |i: int| Piece::Expr(copy[i]),
        ));
    }
}

proof fn kept_type_lit(e: ExprV, c: Copy1)
    requires
        e is TypeLit,
    ensures
        is_kept(Piece::Expr(e), c),
{
    reveal(is_kept);
    if let ExprV::TypeLit(_, fs, _) = e {
        named_parts(fs, c);
    }
}

proof fn kept_variant_lit(e: ExprV, c: Copy1)
    requires
        e is VariantLit,
    ensures
        is_kept(Piece::Expr(e), c),
{
    reveal(is_kept);
    if let ExprV::VariantLit(_, _, fs, _) = e {
        named_parts(fs, c);
    }
}

proof fn kept_str(e: ExprV, c: Copy1)
    requires
        e is Str,
    ensures
        is_kept(Piece::Expr(e), c),
{
    reveal(is_kept);
    if let ExprV::Str(segs, _) = e {
        copied_seg_pieces(segs, c);
        let qs = copied_str_segs(segs, c);
        assert forall|i: int| 0 <= i < segs.len() implies (
        #[trigger] segs[i] matches StrSegV::Lit(s) ==> (qs[i] matches StrSegV::Lit(t) && s == t)) by {
            assert(qs[i] == copied_str_seg(segs[i], c));
        }
    }
}

proof fn kept_if(e: ExprV, c: Copy1)
    requires
        e is If,
    ensures
        is_kept(Piece::Expr(e), c),
{
    if let ExprV::If(a, t, els, span) = e {
        let t2 = copied_block(t, c);
        let els2 = match els {
            Some(x) => Some(Box::new(copied_expr(*x, c))),
            None => None,
        };
        let copy = ExprV::If(Box::new(copied_expr(*a, c)), t2, els2, shifted(span, c.delta));
        assert(copied_expr(e, c) == copy);
        assert(t2.stmts == copied_stmts(t.stmts, c));
        copied_count(t.stmts, c);
        branch_parts(*a, t.stmts, els, c);
        assert(parts(Piece::Expr(copy)) == copied_pieces(parts(Piece::Expr(e)), c));
        assert(alike(Piece::Expr(e), Piece::Expr(copy)));
        reveal(is_kept);
    }
}

proof fn kept_if_let(e: ExprV, c: Copy1)
    requires
        e is IfLet,
    ensures
        is_kept(Piece::Expr(e), c),
{
    if let ExprV::IfLet(p, a, t, els, span) = e {
        let t2 = copied_block(t, c);
        let els2 = match els {
            Some(x) => Some(Box::new(copied_expr(*x, c))),
            None => None,
        };
        let copy = ExprV::IfLet(
            crate::expand::copied_pattern(p, c),
            Box::new(copied_expr(*a, c)),
            t2,
            els2,
            shifted(span, c.delta),
        );
        assert(copied_expr(e, c) == copy);
        assert(t2.stmts == copied_stmts(t.stmts, c));
        copied_count(t.stmts, c);
        branch_parts(*a, t.stmts, els, c);
        assert(parts(Piece::Expr(copy)) == copied_pieces(parts(Piece::Expr(e)), c));
        assert(alike(Piece::Expr(e), Piece::Expr(copy)));
        reveal(is_kept);
    }
}

proof fn kept_match(e: ExprV, c: Copy1)
    requires
        e is Match,
    ensures
        is_kept(Piece::Expr(e), c),
{
    reveal(is_kept);
    if let ExprV::Match(a, arms, _) = e {
        let ps = Seq::new(arms.len(), |i: int| Piece::Arm(arms[i]));
        let copy = copied_match_arms(arms, c);
        copied_one(Piece::Expr(*a), c);
        copied_both(seq![Piece::Expr(*a)], ps, c);
        assert(copied_pieces(ps, c) =~= Seq::new(copy.len(), |i: int| Piece::Arm(copy[i])));
    }
}

proof fn kept_block(e: ExprV, c: Copy1)
    requires
        e is Block,
    ensures
        is_kept(Piece::Expr(e), c),
{
    if let ExprV::Block(b, span) = e {
        let b2 = copied_block(b, c);
        let copy = ExprV::Block(b2, shifted(span, c.delta));
        assert(copied_expr(e, c) == copy);
        assert(b2.stmts == copied_stmts(b.stmts, c));
        copied_count(b.stmts, c);
        copied_stmt_pieces(b.stmts, c);
        assert(parts(Piece::Expr(copy)) == copied_pieces(parts(Piece::Expr(e)), c));
        assert(alike(Piece::Expr(e), Piece::Expr(copy)));
        reveal(is_kept);
    }
}

proof fn kept_leaf(e: ExprV, c: Copy1)
    requires
        e is Int || e is Float || e is Bool || e is Null || e is Ident || e is SelfExpr,
        !stands_for_field(Piece::Expr(e), c),
    ensures
        is_kept(Piece::Expr(e), c),
{
    reveal(is_kept);
    copied_one(Piece::Expr(e), c);
}

proof fn kept_stmt_let(s: StmtV, c: Copy1)
    requires
        s is Let,
    ensures
        is_kept(Piece::Stmt(s), c),
{
    reveal(is_kept);
    copied_one(Piece::Stmt(s), c);
    if let StmtV::Let { value, .. } = s {
        if let Some(e) = value {
            copied_one(Piece::Expr(e), c);
        }
    }
}

proof fn kept_stmt_assign(s: StmtV, c: Copy1)
    requires
        s is Assign,
    ensures
        is_kept(Piece::Stmt(s), c),
{
    reveal(is_kept);
    copied_one(Piece::Stmt(s), c);
    if let StmtV::Assign { target, value, .. } = s {
        copied_two(Piece::Expr(target), Piece::Expr(value), c);
    }
}

proof fn kept_stmt_expr(s: StmtV, c: Copy1)
    requires
        s is Expr,
    ensures
        is_kept(Piece::Stmt(s), c),
{
    reveal(is_kept);
    copied_one(Piece::Stmt(s), c);
    if let StmtV::Expr(e) = s {
        copied_one(Piece::Expr(e), c);
    }
}

proof fn kept_stmt_while(s: StmtV, c: Copy1)
    requires
        s is While,
    ensures
        is_kept(Piece::Stmt(s), c),
{
    reveal(is_kept);
    copied_one(Piece::Stmt(s), c);
    if let StmtV::While { cond, body, .. } = s {
        copied_one(Piece::Expr(cond), c);
        copied_both(seq![Piece::Expr(cond)], stmt_pieces(body.stmts), c);
        copied_stmt_pieces(body.stmts, c);
    }
}

proof fn kept_stmt_for(s: StmtV, c: Copy1)
    requires
        s is For,
    ensures
        is_kept(Piece::Stmt(s), c),
{
    reveal(is_kept);
    copied_one(Piece::Stmt(s), c);
    if let StmtV::For { iter, body, .. } = s {
        copied_one(Piece::Expr(iter), c);
        copied_both(seq![Piece::Expr(iter)], stmt_pieces(body.stmts), c);
        copied_stmt_pieces(body.stmts, c);
    }
}

proof fn kept_stmt_return(s: StmtV, c: Copy1)
    requires
        s is Return,
    ensures
        is_kept(Piece::Stmt(s), c),
{
    reveal(is_kept);
    copied_one(Piece::Stmt(s), c);
    if let StmtV::Return(value, _) = s {
        if let Some(e) = value {
            copied_one(Piece::Expr(e), c);
        }
    }
}

proof fn kept_stop(s: StmtV, c: Copy1)
    requires
        s is Break || s is Continue,
    ensures
        is_kept(Piece::Stmt(s), c),
{
    reveal(is_kept);
    copied_one(Piece::Stmt(s), c);
}

proof fn kept_arm(a: MatchArmV, c: Copy1)
    ensures
        is_kept(Piece::Arm(a), c),
{
    reveal(is_kept);
    copied_one(Piece::Expr(a.body), c);
}

/// A copy is like what it is a copy of, and its parts are the copies of the parts, in order.
pub proof fn copies_go_by_parts(p: Piece, c: Copy1)
    requires
        !stands_for_field(p, c),
    ensures
        is_kept(p, c),
{
    match p {
        Piece::Expr(e) => match e {
            ExprV::Unary(..) => kept_unary(e, c),
            ExprV::Field(..) => kept_field(e, c),
            ExprV::ErrorProp(..) => kept_error_prop(e, c),
            ExprV::Closure(..) => kept_closure(e, c),
            ExprV::Binary(..) => kept_binary(e, c),
            ExprV::Index(..) => kept_index(e, c),
            ExprV::Range(..) => kept_range(e, c),
            ExprV::Call(..) => kept_call(e, c),
            ExprV::Array(..) => kept_array(e, c),
            ExprV::TypeLit(..) => kept_type_lit(e, c),
            ExprV::VariantLit(..) => kept_variant_lit(e, c),
            ExprV::Str(..) => kept_str(e, c),
            ExprV::If(..) => kept_if(e, c),
            ExprV::IfLet(..) => kept_if_let(e, c),
            ExprV::Match(..) => kept_match(e, c),
            ExprV::Block(..) => kept_block(e, c),
            _ => kept_leaf(e, c),
        },
        Piece::Stmt(s) => match s {
            StmtV::Let { .. } => kept_stmt_let(s, c),
            StmtV::Assign { .. } => kept_stmt_assign(s, c),
            StmtV::Expr(..) => kept_stmt_expr(s, c),
            StmtV::While { .. } => kept_stmt_while(s, c),
            StmtV::For { .. } => kept_stmt_for(s, c),
            StmtV::Return(..) => kept_stmt_return(s, c),
            _ => kept_stop(s, c),
        },
        Piece::Arm(a) => kept_arm(a, c),
    }
}

/// The loop variable stands for the name of the field, and what it picks stands for the field
/// itself, of the copy of what it picks from.
pub proof fn loop_variables_stand_for_fields(base: ExprV, c: Copy1, s: Span, t: Span)
    ensures
        copied_expr(ExprV::Ident(c.var, s), c) == ExprV::Str(
            seq![StrSegV::Lit(c.field)],
            shifted(s, c.delta),
        ),
        copied_expr(
            ExprV::Index(Box::new(base), Box::new(ExprV::Ident(c.var, s)), t),
            c,
        ) == ExprV::Field(Box::new(copied_expr(base, c)), c.field, shifted(t, c.delta)),
{
}

/// A loop over `fields(x)`, with or without `!`, is one over the fields of `x`; any other loop
/// is none.
pub proof fn loops_over_fields_are_recognized(
    var: Seq<char>,
    callee: ExprV,
    args: Seq<ArgV>,
    body: BlockV,
    s: Span,
)
    ensures
        ({
            let call = ExprV::Call(Box::new(callee), args, s);
            let plain = fields_loop(StmtV::For { var, iter: call, body, span: s });
            let tried = fields_loop(
                StmtV::For { var, iter: ExprV::ErrorProp(Box::new(call), s), body, span: s },
            );
            let is_fields = callee matches ExprV::Ident(n, _) && n == "fields"@;
            &&& plain == tried
            &&& (plain is Some) == (is_fields && args.len() == 1)
            &&& plain matches Some(r) ==> r == (var, args[0].expr, body)
        }),
{
}

} // verus!
