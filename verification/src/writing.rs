//! What writes through a name: wherever in a body a write stands, the name is written through,
//! and nothing else is a write.

use vstd::prelude::*;
use crate::anatomy::{every_expression_is_visited, inside, leads, parts, seg_pieces, stands_in, stmt_pieces, Piece};
use crate::ast::{ArgV, ExprV, MatchArmV, StmtV, StrSegV};
use crate::hir::{function_in, MethodInfoV, ParamInfoV, ProgramV, TypeInfoV, TypeKindV, VariantInfoV};
use crate::mutation::{args_touch, arms_touch, copied, expr_touches, exprs_touch, forwarding_call, forwards, immutable_ref, method_through, mut_ref, named_touch, root_of, segs_touch, self_writers, stmt_touches, stmts_mutate, stmts_touch, through_given, through_pairs, variant_through_pairs, write_through};
use crate::positions::Positions;
use crate::traverse::stmts_exprs;
use crate::types::TypeV;

verus! {

// ---- writes by parts ----

/// Whether a piece of code writes through a name, itself or somewhere inside.
pub open spec fn writes(p: Piece, name: Seq<char>, bare: bool) -> bool {
    match p {
        Piece::Expr(e) => expr_touches(e, name, bare),
        Piece::Stmt(s) => stmt_touches(s, name, bare),
        Piece::Arm(a) => expr_touches(a.body, name, bare),
    }
}

/// Whether one of some pieces does.
pub open spec fn some_writes(ps: Seq<Piece>, name: Seq<char>, bare: bool) -> bool {
    exists|i: int| 0 <= i < ps.len() && writes(#[trigger] ps[i], name, bare)
}

/// Whether a piece writes through a name itself: by a store to a field or an element (or to
/// the bare name of a loop variable), by a method that changes an array in place, or by a
/// loop over the place whose variable is written to.
pub open spec fn writes_itself(p: Piece, name: Seq<char>, bare: bool) -> bool {
    match p {
        Piece::Stmt(StmtV::Assign { target, .. }) => root_of(target) == Some(name) && (
        target is Ident || target is SelfExpr ==> bare),
        Piece::Stmt(StmtV::For { var, iter, body, .. }) => root_of(iter) == Some(name)
            && some_writes(stmt_pieces(body.stmts), var, true),
        Piece::Expr(ExprV::Call(callee, _, _)) => *callee matches ExprV::Field(recv, m, _)
            && root_of(*recv) == Some(name) && (m == "push"@ || m == "pop"@ || m == "insert"@ || m
            == "remove"@),
        _ => false,
    }
}

proof fn some_both(a: Seq<Piece>, b: Seq<Piece>, name: Seq<char>, bare: bool)
    ensures
        some_writes(a + b, name, bare) == (some_writes(a, name, bare) || some_writes(
            b,
            name,
            bare,
        )),
{
    let c = a + b;
    if some_writes(a, name, bare) {
        let i = choose|i: int| 0 <= i < a.len() && writes(#[trigger] a[i], name, bare);
        assert(c[i] == a[i]);
    }
    if some_writes(b, name, bare) {
        let i = choose|i: int| 0 <= i < b.len() && writes(#[trigger] b[i], name, bare);
        assert(c[a.len() + i] == b[i]);
    }
    if some_writes(c, name, bare) {
        let i = choose|i: int| 0 <= i < c.len() && writes(#[trigger] c[i], name, bare);
        if i < a.len() {
            assert(a[i] == c[i]);
        } else {
            assert(b[i - a.len()] == c[i]);
        }
    }
}

proof fn some_one(p: Piece, name: Seq<char>, bare: bool)
    ensures
        some_writes(seq![p], name, bare) == writes(p, name, bare),
{
    assert(seq![p][0] == p);
}

proof fn some_two(p: Piece, q: Piece, name: Seq<char>, bare: bool)
    ensures
        some_writes(seq![p, q], name, bare) == (writes(p, name, bare) || writes(q, name, bare)),
{
    some_one(p, name, bare);
    some_one(q, name, bare);
    some_both(seq![p], seq![q], name, bare);
    assert(seq![p] + seq![q] =~= seq![p, q]);
}

proof fn some_none(name: Seq<char>, bare: bool)
    ensures
        !some_writes(Seq::<Piece>::empty(), name, bare),
{
}

proof fn some_stmt(ss: Seq<StmtV>, name: Seq<char>, bare: bool)
    ensures
        stmts_touch(ss, name, bare) == some_writes(
            Seq::new(ss.len(), |i: int| Piece::Stmt(ss[i])),
            name,
            bare,
        ),
    decreases ss.len(),
{
    let ps = Seq::new(ss.len(), |i: int| Piece::Stmt(ss[i]));
    if ss.len() > 0 {
        let front = ss.drop_last();
        some_stmt(front, name, bare);
        let rest = Seq::new(front.len(), |i: int| Piece::Stmt(front[i]));
        some_both(rest, seq![Piece::Stmt(ss.last())], name, bare);
        some_one(Piece::Stmt(ss.last()), name, bare);
        assert(rest + seq![Piece::Stmt(ss.last())] =~= ps);
    }
}

proof fn some_arg(ss: Seq<ArgV>, name: Seq<char>, bare: bool)
    ensures
        args_touch(ss, name, bare) == some_writes(
            Seq::new(ss.len(), |i: int| Piece::Expr(ss[i].expr)),
            name,
            bare,
        ),
    decreases ss.len(),
{
    let ps = Seq::new(ss.len(), |i: int| Piece::Expr(ss[i].expr));
    if ss.len() > 0 {
        let front = ss.drop_last();
        some_arg(front, name, bare);
        let rest = Seq::new(front.len(), |i: int| Piece::Expr(front[i].expr));
        some_both(rest, seq![Piece::Expr(ss.last().expr)], name, bare);
        some_one(Piece::Expr(ss.last().expr), name, bare);
        assert(rest + seq![Piece::Expr(ss.last().expr)] =~= ps);
    }
}

proof fn some_expr(ss: Seq<ExprV>, name: Seq<char>, bare: bool)
    ensures
        exprs_touch(ss, name, bare) == some_writes(
            Seq::new(ss.len(), |i: int| Piece::Expr(ss[i])),
            name,
            bare,
        ),
    decreases ss.len(),
{
    let ps = Seq::new(ss.len(), |i: int| Piece::Expr(ss[i]));
    if ss.len() > 0 {
        let front = ss.drop_last();
        some_expr(front, name, bare);
        let rest = Seq::new(front.len(), |i: int| Piece::Expr(front[i]));
        some_both(rest, seq![Piece::Expr(ss.last())], name, bare);
        some_one(Piece::Expr(ss.last()), name, bare);
        assert(rest + seq![Piece::Expr(ss.last())] =~= ps);
    }
}

proof fn some_named(ss: Seq<(Seq<char>, ExprV)>, name: Seq<char>, bare: bool)
    ensures
        named_touch(ss, name, bare) == some_writes(
            Seq::new(ss.len(), |i: int| Piece::Expr(ss[i].1)),
            name,
            bare,
        ),
    decreases ss.len(),
{
    let ps = Seq::new(ss.len(), |i: int| Piece::Expr(ss[i].1));
    if ss.len() > 0 {
        let front = ss.drop_last();
        some_named(front, name, bare);
        let rest = Seq::new(front.len(), |i: int| Piece::Expr(front[i].1));
        some_both(rest, seq![Piece::Expr(ss.last().1)], name, bare);
        some_one(Piece::Expr(ss.last().1), name, bare);
        assert(rest + seq![Piece::Expr(ss.last().1)] =~= ps);
    }
}

proof fn some_arm(ss: Seq<MatchArmV>, name: Seq<char>, bare: bool)
    ensures
        arms_touch(ss, name, bare) == some_writes(
            Seq::new(ss.len(), |i: int| Piece::Arm(ss[i])),
            name,
            bare,
        ),
    decreases ss.len(),
{
    let ps = Seq::new(ss.len(), |i: int| Piece::Arm(ss[i]));
    if ss.len() > 0 {
        let front = ss.drop_last();
        some_arm(front, name, bare);
        let rest = Seq::new(front.len(), |i: int| Piece::Arm(front[i]));
        some_both(rest, seq![Piece::Arm(ss.last())], name, bare);
        some_one(Piece::Arm(ss.last()), name, bare);
        assert(rest + seq![Piece::Arm(ss.last())] =~= ps);
    }
}

proof fn some_seg(ss: Seq<StrSegV>, name: Seq<char>, bare: bool)
    ensures
        segs_touch(ss, name, bare) == some_writes(seg_pieces(ss), name, bare),
    decreases ss.len(),
{
    if ss.len() > 0 {
        some_seg(ss.drop_last(), name, bare);
        let last: Seq<Piece> = match ss.last() {
            StrSegV::Expr(e) => seq![Piece::Expr(*e)],
            StrSegV::Lit(_) => Seq::empty(),
        };
        some_both(seg_pieces(ss.drop_last()), last, name, bare);
        some_none(name, bare);
        if let StrSegV::Expr(e) = ss.last() {
            some_one(Piece::Expr(*e), name, bare);
        }
    }
}

proof fn some_branch(c: ExprV, t: Seq<StmtV>, els: Option<Box<ExprV>>, name: Seq<char>, bare: bool)
    ensures
        some_writes(
            seq![Piece::Expr(c)] + stmt_pieces(t) + (match els {
                Some(x) => seq![Piece::Expr(*x)],
                None => Seq::empty(),
            }),
            name,
            bare,
        ) == (expr_touches(c, name, bare) || stmts_touch(t, name, bare) || (match els {
            Some(x) => expr_touches(*x, name, bare),
            None => false,
        })),
{
    let last: Seq<Piece> = match els {
        Some(x) => seq![Piece::Expr(*x)],
        None => Seq::empty(),
    };
    some_one(Piece::Expr(c), name, bare);
    some_stmt(t, name, bare);
    some_both(seq![Piece::Expr(c)], stmt_pieces(t), name, bare);
    some_both(seq![Piece::Expr(c)] + stmt_pieces(t), last, name, bare);
    some_none(name, bare);
    if let Some(x) = els {
        some_one(Piece::Expr(*x), name, bare);
    }
}

/// A piece of code writes through a name exactly when it does so itself or one of its parts
/// does. The one exception is the body of a loop whose variable has the name of the loop
/// variable that is followed: there the name is another one.
#[verifier::rlimit(60)]
pub proof fn writes_go_by_parts(p: Piece, name: Seq<char>, bare: bool)
    requires
        !(bare && (p matches Piece::Stmt(StmtV::For { var, .. }) && var == name)),
    ensures
        writes(p, name, bare) == (writes_itself(p, name, bare) || some_writes(
            parts(p),
            name,
            bare,
        )),
{
    some_none(name, bare);
    match p {
        Piece::Expr(e) => match e {
            ExprV::Unary(_, a, _) => some_one(Piece::Expr(*a), name, bare),
            ExprV::Field(a, _, _) => some_one(Piece::Expr(*a), name, bare),
            ExprV::ErrorProp(a, _) => some_one(Piece::Expr(*a), name, bare),
            ExprV::Closure(_, a, _) => some_one(Piece::Expr(*a), name, bare),
            ExprV::Binary(_, a, b, _) => some_two(Piece::Expr(*a), Piece::Expr(*b), name, bare),
            ExprV::Index(a, b, _) => some_two(Piece::Expr(*a), Piece::Expr(*b), name, bare),
            ExprV::Range(a, b, _) => some_two(Piece::Expr(*a), Piece::Expr(*b), name, bare),
            ExprV::Call(c, args, _) => {
                some_one(Piece::Expr(*c), name, bare);
                some_arg(args, name, bare);
                some_both(
                    seq![Piece::Expr(*c)],
                    Seq::new(args.len(), |i: int| Piece::Expr(args[i].expr)),
                    name,
                    bare,
                );
            },
            ExprV::Array(es, _) => some_expr(es, name, bare),
            ExprV::TypeLit(_, fs, _) => some_named(fs, name, bare),
            ExprV::VariantLit(_, _, fs, _) => some_named(fs, name, bare),
            ExprV::Str(segs, _) => some_seg(segs, name, bare),
            ExprV::If(c, t, els, _) => some_branch(*c, t.stmts, els, name, bare),
            ExprV::IfLet(_, c, t, els, _) => some_branch(*c, t.stmts, els, name, bare),
            ExprV::Match(c, arms, _) => {
                some_one(Piece::Expr(*c), name, bare);
                some_arm(arms, name, bare);
                some_both(
                    seq![Piece::Expr(*c)],
                    Seq::new(arms.len(), |i: int| Piece::Arm(arms[i])),
                    name,
                    bare,
                );
            },
            ExprV::Block(b, _) => some_stmt(b.stmts, name, bare),
            _ => {},
        },
        Piece::Stmt(s) => match s {
            StmtV::Let { value, .. } => {
                if let Some(e) = value {
                    some_one(Piece::Expr(e), name, bare);
                }
            },
            StmtV::Assign { target, value, .. } => {
                some_two(Piece::Expr(target), Piece::Expr(value), name, bare);
            },
            StmtV::Expr(e) => some_one(Piece::Expr(e), name, bare),
            StmtV::While { cond, body, .. } => {
                some_one(Piece::Expr(cond), name, bare);
                some_stmt(body.stmts, name, bare);
                some_both(seq![Piece::Expr(cond)], stmt_pieces(body.stmts), name, bare);
            },
            StmtV::For { var, iter, body, .. } => {
                some_one(Piece::Expr(iter), name, bare);
                some_stmt(body.stmts, name, bare);
                some_stmt(body.stmts, var, true);
                some_both(seq![Piece::Expr(iter)], stmt_pieces(body.stmts), name, bare);
            },
            StmtV::Return(value, _) => {
                if let Some(e) = value {
                    some_one(Piece::Expr(e), name, bare);
                }
            },
            _ => {},
        },
        Piece::Arm(a) => some_one(Piece::Expr(a.body), name, bare),
    }
}

proof fn writes_path(path: Seq<Piece>, name: Seq<char>)
    requires
        leads(path),
        writes(path.last(), name, false),
    ensures
        writes(path[0], name, false),
    decreases path.len(),
{
    if path.len() > 1 {
        let rest = path.drop_first();
        assert(rest.last() == path.last());
        assert forall|i: int| 0 <= i < rest.len() - 1 implies parts(#[trigger] rest[i]).contains(
            rest[i + 1],
        ) by {
            assert(rest[i] == path[i + 1] && rest[i + 1] == path[i + 2]);
            assert(parts(path[i + 1]).contains(path[i + 2]));
        }
        writes_path(rest, name);
        assert(parts(path[0]).contains(path[1]));
        let ps = parts(path[0]);
        let k = choose|k: int| 0 <= k < ps.len() && ps[k] == path[1];
        assert(writes(ps[k], name, false));
        writes_go_by_parts(path[0], name, false);
    }
}

/// A body changes what a name refers to when any piece that stands in it, at any depth,
/// writes through the name.
pub proof fn every_write_is_seen(ss: Seq<StmtV>, p: Piece, name: Seq<char>)
    requires
        stands_in(p, ss),
        writes_itself(p, name, false),
    ensures
        stmts_mutate(ss, name),
{
    writes_itself_writes(p, name);
    let i = choose|i: int| 0 <= i < ss.len() && inside(p, Piece::Stmt(#[trigger] ss[i]));
    let path = choose|path: Seq<Piece>| #[trigger]
        leads(path) && path[0] == Piece::Stmt(ss[i]) && path.last() == p;
    writes_path(path, name);
    some_stmt(ss, name, false);
    assert(writes(stmt_pieces(ss)[i], name, false));
}

proof fn writes_itself_writes(p: Piece, name: Seq<char>)
    requires
        writes_itself(p, name, false),
    ensures
        writes(p, name, false),
{
    writes_go_by_parts(p, name, false);
}

// ---- methods ----

/// Whether one of some methods has the name and changes what its `self` refers to: `self`
/// comes first, is not annotated but as `ref(mut(..))`, and is written through.
pub open spec fn has_writer(ms: Seq<(Seq<char>, MethodInfoV)>, name: Seq<char>) -> bool {
    exists|i: int| 0 <= i < ms.len() && (#[trigger] ms[i]).0 == name && method_through(ms[i].1)
}

/// Whether a type has such a method, itself or in one of its variants.
pub open spec fn type_has_writer(t: TypeInfoV, name: Seq<char>) -> bool {
    match t.kind {
        TypeKindV::Record { methods, .. } => has_writer(methods, name),
        TypeKindV::Sum { variants } => exists|j: int|
            0 <= j < variants.len() && has_writer((#[trigger] variants[j]).methods, name),
    }
}

proof fn pairs_of(owner: Seq<char>, ms: Seq<(Seq<char>, MethodInfoV)>, o: Seq<char>, name: Seq<char>)
    ensures
        through_pairs(owner, ms).contains((o, name)) == (o == owner && has_writer(ms, name)),
    decreases ms.len(),
{
    let all = through_pairs(owner, ms);
    if ms.len() > 0 {
        let front = ms.drop_last();
        let before = through_pairs(owner, front);
        pairs_of(owner, front, o, name);
        if before.contains((o, name)) {
            let k = choose|k: int| 0 <= k < before.len() && before[k] == (o, name);
            assert(all[k] == (o, name));
            let i = choose|i: int|
                0 <= i < front.len() && (#[trigger] front[i]).0 == name && method_through(front[i].1);
            assert(ms[i] == front[i]);
        }
        if all.contains((o, name)) && !before.contains((o, name)) {
            let k = choose|k: int| 0 <= k < all.len() && all[k] == (o, name);
            if k < before.len() {
                assert(before[k] == (o, name));
            }
            assert(ms[ms.len() - 1] == ms.last());
        }
        if has_writer(ms, name) && o == owner {
            let i = choose|i: int|
                0 <= i < ms.len() && (#[trigger] ms[i]).0 == name && method_through(ms[i].1);
            if i < front.len() {
                assert(front[i] == ms[i]);
            } else {
                assert(all[all.len() - 1] == (o, name));
            }
        }
    }
}

proof fn variant_pairs_of(owner: Seq<char>, vs: Seq<VariantInfoV>, o: Seq<char>, name: Seq<char>)
    ensures
        variant_through_pairs(owner, vs).contains((o, name)) == (o == owner && exists|j: int|
            0 <= j < vs.len() && has_writer((#[trigger] vs[j]).methods, name)),
    decreases vs.len(),
{
    if vs.len() > 0 {
        let front = vs.drop_last();
        variant_pairs_of(owner, front, o, name);
        pairs_of(owner, vs.last().methods, o, name);
        joined(
            variant_through_pairs(owner, front),
            through_pairs(owner, vs.last().methods),
            (o, name),
        );
        if exists|j: int| 0 <= j < vs.len() && has_writer((#[trigger] vs[j]).methods, name) {
            let j = choose|j: int| 0 <= j < vs.len() && has_writer((#[trigger] vs[j]).methods, name);
            if j < front.len() {
                assert(front[j] == vs[j]);
            }
        }
        if exists|j: int| 0 <= j < front.len() && has_writer((#[trigger] front[j]).methods, name) {
            let j = choose|j: int|
                0 <= j < front.len() && has_writer((#[trigger] front[j]).methods, name);
            assert(vs[j] == front[j]);
        }
        assert(vs[vs.len() - 1] == vs.last());
    }
}

proof fn joined<T>(a: Seq<T>, b: Seq<T>, z: T)
    ensures
        (a + b).contains(z) == (a.contains(z) || b.contains(z)),
{
    let c = a + b;
    if a.contains(z) {
        let i = choose|i: int| 0 <= i < a.len() && a[i] == z;
        assert(c[i] == z);
    }
    if b.contains(z) {
        let i = choose|i: int| 0 <= i < b.len() && b[i] == z;
        assert(c[a.len() + i] == z);
    }
    if c.contains(z) {
        let i = choose|i: int| 0 <= i < c.len() && c[i] == z;
        if i < a.len() {
            assert(a[i] == z);
        } else {
            assert(b[i - a.len()] == z);
        }
    }
}

/// The methods that are listed as writing through `self` are exactly those of the types
/// and of their variants that do.
pub proof fn writers_are_listed(ts: Seq<(Seq<char>, TypeInfoV)>, owner: Seq<char>, name: Seq<char>)
    ensures
        self_writers(ts).contains((owner, name)) == exists|k: int|
            0 <= k < ts.len() && (#[trigger] ts[k]).1.name == owner && type_has_writer(
                ts[k].1,
                name,
            ),
    decreases ts.len(),
{
    if ts.len() > 0 {
        let front = ts.drop_last();
        let t = ts.last().1;
        writers_are_listed(front, owner, name);
        let last = match t.kind {
            TypeKindV::Record { methods, .. } => through_pairs(t.name, methods),
            TypeKindV::Sum { variants } => variant_through_pairs(t.name, variants),
        };
        match t.kind {
            TypeKindV::Record { methods, .. } => pairs_of(t.name, methods, owner, name),
            TypeKindV::Sum { variants } => variant_pairs_of(t.name, variants, owner, name),
        }
        joined(self_writers(front), last, (owner, name));
        if exists|k: int|
            0 <= k < ts.len() && (#[trigger] ts[k]).1.name == owner && type_has_writer(ts[k].1, name) {
            let k = choose|k: int|
                0 <= k < ts.len() && (#[trigger] ts[k]).1.name == owner && type_has_writer(
                    ts[k].1,
                    name,
                );
            if k < front.len() {
                assert(front[k] == ts[k]);
            }
        }
        if exists|k: int|
            0 <= k < front.len() && (#[trigger] front[k]).1.name == owner && type_has_writer(
                front[k].1,
                name,
            ) {
            let k = choose|k: int|
                0 <= k < front.len() && (#[trigger] front[k]).1.name == owner && type_has_writer(
                    front[k].1,
                    name,
                );
            assert(ts[k] == front[k]);
        }
        assert(ts[ts.len() - 1] == ts.last());
    }
}

/// A method with a write through `self` anywhere in its body is listed, where `self` is not
/// annotated.
pub proof fn methods_that_write_are_listed(
    ts: Seq<(Seq<char>, TypeInfoV)>,
    k: int,
    m: int,
    p: Piece,
)
    requires
        0 <= k < ts.len(),
        ts[k].1.kind matches TypeKindV::Record { methods, .. } && 0 <= m < methods.len() && ({
            let info = methods[m].1;
            info.signature.params.len() > 0 && info.signature.params[0].ty is None && (
            info.decl.body matches Some(b) && stands_in(p, b.stmts) && writes_itself(
                p,
                "self"@,
                false,
            ))
        }),
    ensures
        ts[k].1.kind matches TypeKindV::Record { methods, .. } && self_writers(ts).contains(
            (ts[k].1.name, methods[m].0),
        ),
{
    if let TypeKindV::Record { methods, .. } = ts[k].1.kind {
        let info = methods[m].1;
        if let Some(b) = info.decl.body {
            every_write_is_seen(b.stmts, p, "self"@);
        }
        assert(method_through(info));
        assert(has_writer(methods, methods[m].0));
        writers_are_listed(ts, ts[k].1.name, methods[m].0);
    }
}

// ---- parameters ----

/// A parameter that its type makes a reference is either one to read or one to write
/// through, and not a copy; any other is neither.
pub proof fn references_are_read_or_written(p: ParamInfoV)
    ensures
        mut_ref(p) ==> (p.resolved_ty matches Some(TypeV::Ref(t)) && *t is Mut),
        (mut_ref(p) || immutable_ref(p)) == (p.resolved_ty matches Some(TypeV::Ref(_))),
        !(mut_ref(p) && immutable_ref(p)),
        copied(p) ==> !mut_ref(p) && !immutable_ref(p),
{
}

/// A function writes through its `ref(mut(..))` parameters.
pub proof fn mutable_references_are_written_through(p: ProgramV, w: Positions, k: int, i: usize)
    requires
        write_through(p, w),
        0 <= k < p.functions.len(),
        i < p.functions[k].1.signature.params.len(),
        p.functions[k].1.signature.params[i as int].resolved_ty matches Some(TypeV::Ref(t))
            && *t is Mut,
    ensures
        w.contains((p.functions[k].1.symbol, i)),
{
    assert(through_given(p, p.functions[k].1, i as int, w));
}

/// A function that hands a parameter on, anywhere in its body, to a function that writes
/// through it writes through it too.
pub proof fn handing_on_writes_through(
    p: ProgramV,
    w: Positions,
    k: int,
    i: usize,
    e: ExprV,
    j: usize,
)
    requires
        write_through(p, w),
        0 <= k < p.functions.len(),
        i < p.functions[k].1.signature.params.len(),
        !copied(p.functions[k].1.signature.params[i as int]),
        stands_in(Piece::Expr(e), p.functions[k].1.decl.body.stmts),
        e matches ExprV::Call(callee, args, _) && (*callee matches ExprV::Ident(n, _) && (
        function_in(p, p.functions[k].1.module, n) matches Some(g) && j < args.len() && w.contains(
            (g.symbol, j),
        ) && root_of(args[j as int].expr) == Some(
            p.functions[k].1.signature.params[i as int].name,
        ))),
    ensures
        w.contains((p.functions[k].1.symbol, i)),
{
    let f = p.functions[k].1;
    let root = f.signature.params[i as int].name;
    let all = stmts_exprs(f.decl.body.stmts);
    every_expression_is_visited(f.decl.body.stmts, e);
    let x = choose|x: int| 0 <= x < all.len() && all[x] == e;
    if let ExprV::Call(callee, args, _) = e {
        assert(root_of(args[j as int].expr) == Some(root));
    }
    assert(forwarding_call(p, f.module, all[x], root, w));
    assert(forwards(p, f, root, w));
    assert(through_given(p, f, i as int, w));
}

} // verus!
