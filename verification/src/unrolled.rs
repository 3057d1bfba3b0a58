//! What unrolling a loop over fields promises: the loop variable is gone from every copy.

use vstd::prelude::*;
use crate::ast::{ArgV, BlockV, ExprV, MatchArmV, StmtV, StrSegV};
use crate::closure::names_ident;
use crate::expand::{copied_args, copied_block, copied_expr, copied_exprs, copied_match_arms, copied_named_exprs, copied_stmt, copied_stmts, copied_str_segs, Copy1};
use crate::traverse::{arg_exprs, arm_exprs, exprs, list_exprs, named_exprs, seg_exprs, stmt_exprs, stmts_exprs};

verus! {

/// Whether no expression of a list is the name.
pub open spec fn absent(es: Seq<ExprV>, name: Seq<char>) -> bool {
    forall|i: int| 0 <= i < es.len() ==> !names_ident(#[trigger] es[i], name)
}

proof fn absent_both(a: Seq<ExprV>, b: Seq<ExprV>, name: Seq<char>)
    requires
        absent(a, name),
        absent(b, name),
    ensures
        absent(a + b, name),
{
    assert forall|i: int| 0 <= i < (a + b).len() implies !names_ident(
        #[trigger] (a + b)[i],
        name,
    ) by {
        if i < a.len() {
            assert((a + b)[i] == a[i]);
        } else {
            assert((a + b)[i] == b[i - a.len()]);
        }
    }
}

proof fn absent_above(e: ExprV, rest: Seq<ExprV>, name: Seq<char>)
    requires
        !names_ident(e, name),
        absent(rest, name),
    ensures
        absent(seq![e] + rest, name),
{
    absent_both(seq![e], rest, name);
}

proof fn copied_opt(e: Option<Box<ExprV>>, c: Copy1)
    ensures
        absent(
            match e {
                Some(x) => exprs(copied_expr(*x, c)),
                None => Seq::empty(),
            },
            c.var,
        ),
    decreases e,
{
    if let Some(x) = e {
        copied_absent(*x, c);
    }
}

/// The loop variable does not occur in a copied expression.
#[verifier::rlimit(50)]
proof fn copied_absent(e: ExprV, c: Copy1)
    ensures
        absent(exprs(copied_expr(e, c)), c.var),
    decreases e,
{
    let x = copied_expr(e, c);
    assert(!names_ident(x, c.var));
    let none = Seq::<ExprV>::empty();
    match e {
        ExprV::Ident(name, s) => {
            if name == c.var {
                let segs = seq![StrSegV::Lit(c.field)];
                assert(segs.drop_last() =~= Seq::<StrSegV>::empty());
                assert(seg_exprs(segs.drop_last()) =~= none);
                assert(seg_exprs(segs) =~= none);
            }
            assert(exprs(x) =~= seq![x]);
        },
        ExprV::Index(base, idx, _) => {
            copied_absent(*base, c);
            if *idx is Ident && idx->Ident_0 == c.var {
                absent_above(x, exprs(copied_expr(*base, c)), c.var);
            } else {
                copied_absent(*idx, c);
                let a = exprs(copied_expr(*base, c));
                let b = exprs(copied_expr(*idx, c));
                absent_both(a, b, c.var);
                absent_above(x, a + b, c.var);
            }
        },
        ExprV::Unary(_, a, _) => {
            copied_absent(*a, c);
            absent_above(x, exprs(copied_expr(*a, c)), c.var);
        },
        ExprV::Field(a, _, _) => {
            copied_absent(*a, c);
            absent_above(x, exprs(copied_expr(*a, c)), c.var);
        },
        ExprV::ErrorProp(a, _) => {
            copied_absent(*a, c);
            absent_above(x, exprs(copied_expr(*a, c)), c.var);
        },
        ExprV::Closure(_, a, _) => {
            copied_absent(*a, c);
            absent_above(x, exprs(copied_expr(*a, c)), c.var);
        },
        ExprV::Binary(_, a, b, _) => {
            copied_absent(*a, c);
            copied_absent(*b, c);
            let p = exprs(copied_expr(*a, c));
            let q = exprs(copied_expr(*b, c));
            absent_both(p, q, c.var);
            absent_above(x, p + q, c.var);
        },
        ExprV::Range(a, b, _) => {
            copied_absent(*a, c);
            copied_absent(*b, c);
            let p = exprs(copied_expr(*a, c));
            let q = exprs(copied_expr(*b, c));
            absent_both(p, q, c.var);
            absent_above(x, p + q, c.var);
            absent_above(x, none, c.var);
        },
        ExprV::Call(f, args, _) => {
            copied_absent(*f, c);
            args_absent(args, c, args.len() as int);
            let p = exprs(copied_expr(*f, c));
            let q = arg_exprs(copied_args(args, c));
            absent_both(p, q, c.var);
            absent_above(x, p + q, c.var);
        },
        ExprV::Array(es, _) => {
            list_absent(es, c, es.len() as int);
            absent_above(x, list_exprs(copied_exprs(es, c)), c.var);
        },
        ExprV::TypeLit(_, fs, _) => {
            named_absent(fs, c, fs.len() as int);
            absent_above(x, named_exprs(copied_named_exprs(fs, c)), c.var);
        },
        ExprV::VariantLit(_, _, fs, _) => {
            named_absent(fs, c, fs.len() as int);
            absent_above(x, named_exprs(copied_named_exprs(fs, c)), c.var);
        },
        ExprV::Str(segs, _) => {
            segs_absent(segs, c, segs.len() as int);
            absent_above(x, seg_exprs(copied_str_segs(segs, c)), c.var);
            absent_above(x, none, c.var);
        },
        ExprV::If(a, t, els, _) => {
            copied_absent(*a, c);
            stmts_absent(t.stmts, c, t.stmts.len() as int);
            copied_opt(els, c);
            let p = exprs(copied_expr(*a, c));
            let q = stmts_exprs(copied_stmts(t.stmts, c));
            let r = match els {
                Some(y) => exprs(copied_expr(*y, c)),
                None => Seq::empty(),
            };
            absent_both(p, q, c.var);
            absent_both(p + q, r, c.var);
            absent_above(x, p + q + r, c.var);
            assert(copied_block(t, c).stmts == copied_stmts(t.stmts, c));
            assert(exprs(x) =~= seq![x] + (p + q + r));
        },
        ExprV::IfLet(_, a, t, els, _) => {
            copied_absent(*a, c);
            stmts_absent(t.stmts, c, t.stmts.len() as int);
            copied_opt(els, c);
            let p = exprs(copied_expr(*a, c));
            let q = stmts_exprs(copied_stmts(t.stmts, c));
            let r = match els {
                Some(y) => exprs(copied_expr(*y, c)),
                None => Seq::empty(),
            };
            absent_both(p, q, c.var);
            absent_both(p + q, r, c.var);
            absent_above(x, p + q + r, c.var);
            assert(copied_block(t, c).stmts == copied_stmts(t.stmts, c));
            assert(exprs(x) =~= seq![x] + (p + q + r));
        },
        ExprV::Match(a, arms, _) => {
            copied_absent(*a, c);
            arms_absent(arms, c, arms.len() as int);
            let p = exprs(copied_expr(*a, c));
            let q = arm_exprs(copied_match_arms(arms, c));
            absent_both(p, q, c.var);
            absent_above(x, p + q, c.var);
        },
        ExprV::Block(b, _) => {
            stmts_absent(b.stmts, c, b.stmts.len() as int);
            assert(copied_block(b, c).stmts == copied_stmts(b.stmts, c));
            absent_above(x, stmts_exprs(copied_stmts(b.stmts, c)), c.var);
        },
        _ => {
            assert(exprs(x) =~= seq![x]);
        },
    }
}

proof fn args_absent(ns: Seq<ArgV>, c: Copy1, n: int)
    requires
        0 <= n <= ns.len(),
    ensures
        absent(arg_exprs(copied_args(ns, c).take(n)), c.var),
        n == ns.len() ==> absent(arg_exprs(copied_args(ns, c)), c.var),
    decreases ns, n,
{
    let all = copied_args(ns, c);
    if n > 0 {
        args_absent(ns, c, n - 1);
        assert(all.take(n).drop_last() =~= all.take(n - 1));
        copied_absent(ns[n - 1].expr, c);
        absent_both(
            arg_exprs(all.take(n - 1)),
            exprs(copied_expr(ns[n - 1].expr, c)),
            c.var,
        );
    }
    assert(all.take(ns.len() as int) =~= all);
}

proof fn list_absent(ns: Seq<ExprV>, c: Copy1, n: int)
    requires
        0 <= n <= ns.len(),
    ensures
        absent(list_exprs(copied_exprs(ns, c).take(n)), c.var),
        n == ns.len() ==> absent(list_exprs(copied_exprs(ns, c)), c.var),
    decreases ns, n,
{
    let all = copied_exprs(ns, c);
    if n > 0 {
        list_absent(ns, c, n - 1);
        assert(all.take(n).drop_last() =~= all.take(n - 1));
        copied_absent(ns[n - 1], c);
        absent_both(list_exprs(all.take(n - 1)), exprs(copied_expr(ns[n - 1], c)), c.var);
    }
    assert(all.take(ns.len() as int) =~= all);
}

proof fn named_absent(ns: Seq<(Seq<char>, ExprV)>, c: Copy1, n: int)
    requires
        0 <= n <= ns.len(),
    ensures
        absent(named_exprs(copied_named_exprs(ns, c).take(n)), c.var),
        n == ns.len() ==> absent(named_exprs(copied_named_exprs(ns, c)), c.var),
    decreases ns, n,
{
    let all = copied_named_exprs(ns, c);
    if n > 0 {
        named_absent(ns, c, n - 1);
        assert(all.take(n).drop_last() =~= all.take(n - 1));
        copied_absent(ns[n - 1].1, c);
        absent_both(
            named_exprs(all.take(n - 1)),
            exprs(copied_expr(ns[n - 1].1, c)),
            c.var,
        );
    }
    assert(all.take(ns.len() as int) =~= all);
}

proof fn segs_absent(ns: Seq<StrSegV>, c: Copy1, n: int)
    requires
        0 <= n <= ns.len(),
    ensures
        absent(seg_exprs(copied_str_segs(ns, c).take(n)), c.var),
        n == ns.len() ==> absent(seg_exprs(copied_str_segs(ns, c)), c.var),
    decreases ns, n,
{
    let all = copied_str_segs(ns, c);
    if n > 0 {
        segs_absent(ns, c, n - 1);
        assert(all.take(n).drop_last() =~= all.take(n - 1));
        match ns[n - 1] {
            StrSegV::Expr(e) => {
                copied_absent(*e, c);
                absent_both(
                    seg_exprs(all.take(n - 1)),
                    exprs(copied_expr(*e, c)),
                    c.var,
                );
            },
            StrSegV::Lit(_) => {
                absent_both(seg_exprs(all.take(n - 1)), Seq::empty(), c.var);
            },
        }
    }
    assert(all.take(ns.len() as int) =~= all);
}

proof fn arms_absent(ns: Seq<MatchArmV>, c: Copy1, n: int)
    requires
        0 <= n <= ns.len(),
    ensures
        absent(arm_exprs(copied_match_arms(ns, c).take(n)), c.var),
        n == ns.len() ==> absent(arm_exprs(copied_match_arms(ns, c)), c.var),
    decreases ns, n,
{
    let all = copied_match_arms(ns, c);
    if n > 0 {
        arms_absent(ns, c, n - 1);
        assert(all.take(n).drop_last() =~= all.take(n - 1));
        copied_absent(ns[n - 1].body, c);
        absent_both(
            arm_exprs(all.take(n - 1)),
            exprs(copied_expr(ns[n - 1].body, c)),
            c.var,
        );
    }
    assert(all.take(ns.len() as int) =~= all);
}

proof fn stmts_absent(ns: Seq<StmtV>, c: Copy1, n: int)
    requires
        0 <= n <= ns.len(),
    ensures
        absent(stmts_exprs(copied_stmts(ns, c).take(n)), c.var),
        n == ns.len() ==> absent(stmts_exprs(copied_stmts(ns, c)), c.var),
    decreases ns, n,
{
    let all = copied_stmts(ns, c);
    if n > 0 {
        stmts_absent(ns, c, n - 1);
        assert(all.take(n).drop_last() =~= all.take(n - 1));
        stmt_absent(ns[n - 1], c);
        absent_both(
            stmts_exprs(all.take(n - 1)),
            stmt_exprs(copied_stmt(ns[n - 1], c)),
            c.var,
        );
    }
    assert(all.take(ns.len() as int) =~= all);
}

#[verifier::spinoff_prover]
#[verifier::rlimit(100)]
proof fn stmt_absent(s: StmtV, c: Copy1)
    ensures
        absent(stmt_exprs(copied_stmt(s, c)), c.var),
    decreases s,
{
    let x = copied_stmt(s, c);
    let none = Seq::<ExprV>::empty();
    match s {
        StmtV::Let { value, .. } => match value {
            Some(e) => {
                copied_absent(e, c);
                assert(stmt_exprs(x) == exprs(copied_expr(e, c)));
            },
            None => {
                assert(stmt_exprs(x) == none);
            },
        },
        StmtV::Assign { target, value, .. } => {
            copied_absent(target, c);
            copied_absent(value, c);
            let p = exprs(copied_expr(target, c));
            let q = exprs(copied_expr(value, c));
            absent_both(p, q, c.var);
            assert(stmt_exprs(x) == p + q);
        },
        StmtV::Expr(e) => {
            copied_absent(e, c);
            assert(stmt_exprs(x) == exprs(copied_expr(e, c)));
        },
        StmtV::While { cond, body, .. } => {
            copied_absent(cond, c);
            stmts_absent(body.stmts, c, body.stmts.len() as int);
            let p = exprs(copied_expr(cond, c));
            let q = stmts_exprs(copied_stmts(body.stmts, c));
            absent_both(p, q, c.var);
            assert(stmt_exprs(x) == p + q);
        },
        StmtV::For { iter, body, .. } => {
            copied_absent(iter, c);
            stmts_absent(body.stmts, c, body.stmts.len() as int);
            let p = exprs(copied_expr(iter, c));
            let q = stmts_exprs(copied_stmts(body.stmts, c));
            absent_both(p, q, c.var);
            assert(stmt_exprs(x) == p + q);
        },
        StmtV::Return(value, _) => match value {
            Some(e) => {
                copied_absent(e, c);
                assert(stmt_exprs(x) == exprs(copied_expr(e, c)));
            },
            None => {
                assert(stmt_exprs(x) == none);
            },
        },
        _ => {
            assert(stmt_exprs(x) == none);
        },
    }
}

/// In an unrolled copy of a loop's body, no expression names the loop variable.
pub proof fn loop_variables_are_gone(body: BlockV, c: Copy1)
    ensures
        absent(stmts_exprs(copied_block(body, c).stmts), c.var),
{
    stmts_absent(body.stmts, c, body.stmts.len() as int);
}

} // verus!
