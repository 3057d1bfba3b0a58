//! What operators and coercions compute: the code planned for them decides the relation,
//! or gives the number, that the operator denotes.

use vstd::prelude::*;
use crate::arith::{compared, comparison, meaning, moduli, modulus, of_kind, quotient, remainder, result, shift_amount, signed, truth, widened, word, magnitude, Word};
use crate::ast::{BinOp, UnaryOp};
use crate::layout::{bits, signed_kind, size_align};
use crate::plan::{bin_plan_of, coercion, truth_test, un_plan, BinPlan, Conv, FloatCompare, Truth, UnPlan};
use crate::types::{FloatKind, IntKind, TypeV};

verus! {

// ---- relations ----

/// The relation that a comparison operator denotes.
pub open spec fn relates(op: BinOp, a: int, b: int) -> bool {
    match op {
        BinOp::Eq => a == b,
        BinOp::Ne => a != b,
        BinOp::Lt => a < b,
        BinOp::Gt => a > b,
        BinOp::Le => a <= b,
        BinOp::Ge => a >= b,
        _ => false,
    }
}

/// The operator that holds of swapped operands.
pub open spec fn mirrored(op: BinOp) -> BinOp {
    match op {
        BinOp::Lt => BinOp::Gt,
        BinOp::Gt => BinOp::Lt,
        BinOp::Le => BinOp::Ge,
        BinOp::Ge => BinOp::Le,
        _ => op,
    }
}

/// The operator that holds where this one does not, of operands that are ordered.
pub open spec fn opposite(op: BinOp) -> BinOp {
    match op {
        BinOp::Eq => BinOp::Ne,
        BinOp::Ne => BinOp::Eq,
        BinOp::Lt => BinOp::Ge,
        BinOp::Ge => BinOp::Lt,
        BinOp::Gt => BinOp::Le,
        BinOp::Le => BinOp::Gt,
        _ => op,
    }
}

// ---- floats ----

/// How two floats stand to each other. They are unordered when one is not a number.
pub ghost enum Standing {
    Less,
    Equal,
    Greater,
    Unordered,
}

/// How ordered floats that are as far apart as `a` and `b` stand to each other.
pub open spec fn standing(a: int, b: int) -> Standing {
    if a < b {
        Standing::Less
    } else if a == b {
        Standing::Equal
    } else {
        Standing::Greater
    }
}

/// The standing of swapped operands.
pub open spec fn swapped(s: Standing) -> Standing {
    match s {
        Standing::Less => Standing::Greater,
        Standing::Greater => Standing::Less,
        _ => s,
    }
}

/// Whether a float comparison holds of operands that stand so.
pub open spec fn float_holds(c: FloatCompare, s: Standing) -> bool {
    match c {
        FloatCompare::Eq => s is Equal,
        FloatCompare::Lt => s is Less,
        FloatCompare::Gt => s is Greater,
        FloatCompare::Le => s is Less || s is Equal,
        FloatCompare::Ge => s is Greater || s is Equal,
        FloatCompare::NeOrNan => !(s is Equal),
    }
}

/// Whether what is planned for a comparison of floats holds of operands that stand so.
pub open spec fn plan_holds(p: BinPlan, s: Standing) -> bool {
    p matches BinPlan::FloatCompare(c) && float_holds(c, s)
}

/// A comparison of floats that are ordered decides the relation that its operator denotes.
pub proof fn float_comparisons_decide(op: BinOp, t: TypeV, p: BinPlan, a: int, b: int)
    requires
        comparison(op),
        t is Float,
        bin_plan_of(op, t, p),
    ensures
        plan_holds(p, standing(a, b)) == relates(op, a, b),
{
}

/// Of what is not a number, only inequality holds.
pub proof fn unordered_floats_are_unequal(op: BinOp, t: TypeV, p: BinPlan)
    requires
        comparison(op),
        t is Float,
        bin_plan_of(op, t, p),
    ensures
        plan_holds(p, Standing::Unordered) == (op == BinOp::Ne),
{
}

/// A comparison holds exactly when its mirror image holds of the swapped operands.
pub proof fn float_comparisons_mirror(op: BinOp, t: TypeV, p: BinPlan, q: BinPlan, s: Standing)
    requires
        comparison(op),
        t is Float,
        bin_plan_of(op, t, p),
        bin_plan_of(mirrored(op), t, q),
    ensures
        plan_holds(p, s) == plan_holds(q, swapped(s)),
{
}

/// Of ordered floats, exactly one of a comparison and its opposite holds.
pub proof fn float_comparisons_oppose(op: BinOp, t: TypeV, p: BinPlan, q: BinPlan, s: Standing)
    requires
        comparison(op),
        t is Float,
        bin_plan_of(op, t, p),
        bin_plan_of(opposite(op), t, q),
        !(s is Unordered),
    ensures
        plan_holds(p, s) != plan_holds(q, s),
{
}

/// Distinct operators on floats make distinct comparisons or computations.
pub proof fn float_operators_are_told_apart(a: BinOp, b: BinOp, t: TypeV, p: BinPlan)
    requires
        t is Float,
        bin_plan_of(a, t, p),
        bin_plan_of(b, t, p),
        !(p is Unit),
    ensures
        a == b,
{
}

/// The number operators compute on floats.
pub proof fn float_arithmetic_is_planned(op: BinOp, t: TypeV, p: BinPlan)
    requires
        t is Float,
        bin_plan_of(op, t, p),
    ensures
        p is Unit == (op == BinOp::Rem || op == BinOp::BitAnd || op == BinOp::BitOr || op
            == BinOp::BitXor || op == BinOp::Shl || op == BinOp::Shr || op == BinOp::And || op
            == BinOp::Or),
{
}

// ---- truth values, texts and objects ----

/// A comparison of truth values decides its relation, with false before true.
pub proof fn truth_comparisons_decide(op: BinOp, p: BinPlan, a: bool, b: bool)
    requires
        comparison(op),
        bin_plan_of(op, TypeV::Bool, p),
    ensures
        p matches BinPlan::Bool(c) && compared(c, truth(a), truth(b)) == relates(
            op,
            if a {
                1
            } else {
                0
            },
            if b {
                1
            } else {
                0
            },
        ),
{
}

/// Whether a planned test of sameness holds of operands that are the same or not.
pub open spec fn sameness_holds(p: BinPlan, same: bool) -> bool {
    match p {
        BinPlan::StrEq(negated) => same != negated,
        BinPlan::Pointers(negated) => same != negated,
        _ => false,
    }
}

/// Texts and objects are equal or not as they are the same or not.
pub proof fn sameness_is_decided(t: TypeV, equal: BinPlan, unequal: BinPlan, same: bool)
    requires
        t is Str || t is Record || t is Sum || t is Slice || t is Nullable || t is Fun,
        bin_plan_of(BinOp::Eq, t, equal),
        bin_plan_of(BinOp::Ne, t, unequal),
        !(equal is Unit),
    ensures
        sameness_holds(equal, same) == same,
        sameness_holds(unequal, same) == !same,
        t is Str ==> equal is StrEq && unequal is StrEq,
        !(t is Str) ==> equal is Pointers && unequal is Pointers,
{
}

/// Texts are joined by `+` alone.
pub proof fn texts_are_joined_by_plus(op: BinOp, p: BinPlan)
    requires
        bin_plan_of(op, TypeV::Str, p),
    ensures
        p is StrConcat == (op == BinOp::Add),
        p is Unit == !(op == BinOp::Add || op == BinOp::Eq || op == BinOp::Ne),
{
}

/// What a condition is tested on.
pub ghost struct Tested {
    /// Its truth value, if it is one.
    pub holds: bool,
    /// Whether it is null, if it can be.
    pub null: bool,
}

pub open spec fn test_holds(t: Truth, v: Tested) -> bool {
    match t {
        Truth::Itself => v.holds,
        Truth::NotNull => !v.null,
        Truth::Always => true,
    }
}

pub open spec fn prefix_holds(u: UnPlan, v: Tested) -> bool {
    match u {
        UnPlan::IsNull => v.null,
        UnPlan::Not => !v.holds,
        _ => false,
    }
}

/// `!x` holds exactly when the condition `x` does not, for truth values and nullables.
pub proof fn not_is_the_opposite_of_a_condition(t: TypeV, v: Tested)
    requires
        t is Bool || t is Nullable,
    ensures
        prefix_holds(un_plan(UnaryOp::Not, t), v) == !test_holds(truth_test(t), v),
        test_holds(truth_test(t), v) == (if t is Bool {
            v.holds
        } else {
            !v.null
        }),
{
}

/// A value that is neither a truth value nor nullable always counts as true.
pub proof fn other_values_are_true(t: TypeV, v: Tested)
    requires
        !(t is Bool),
        !(t is Nullable),
    ensures
        test_holds(truth_test(t), v),
{
}

/// A number is negated as the number it is.
pub proof fn negation_goes_by_kind(t: TypeV)
    ensures
        un_plan(UnaryOp::Neg, t) == UnPlan::FloatNeg <==> t is Float,
        un_plan(UnaryOp::Neg, t) == UnPlan::IntNeg <==> !(t is Float),
{
}

// ---- integers ----

/// How many bits an integer type has.
pub open spec fn width_of(k: IntKind) -> nat {
    match k {
        IntKind::I8 | IntKind::U8 => 8,
        IntKind::I16 | IntKind::U16 => 16,
        IntKind::I32 | IntKind::U32 => 32,
        IntKind::I64 | IntKind::U64 => 64,
    }
}

/// The number that a word of an integer type is.
pub open spec fn value_of(k: IntKind, w: Word) -> int {
    match k {
        IntKind::I8 | IntKind::I16 | IntKind::I32 | IntKind::I64 => signed(w),
        IntKind::U8 | IntKind::U16 | IntKind::U32 | IntKind::U64 => w.bits as int,
    }
}

/// A word of an integer type.
pub open spec fn is_word(w: Word, k: IntKind) -> bool {
    w.width == width_of(k) && w.bits < modulus(w.width)
}

/// What the code planned for an operator on integers gives.
pub open spec fn computed(p: BinPlan, x: Word, y: Word) -> Option<Word> {
    match p {
        BinPlan::Int(c) => result(c.steps@, x, y),
        _ => None,
    }
}

proof fn kinds(k: IntKind)
    ensures
        bits(k) == width_of(k),
        signed_kind(k) == (k == IntKind::I8 || k == IntKind::I16 || k == IntKind::I32 || k
            == IntKind::I64),
{
    assert(size_align(TypeV::Int(k)).0 * 8 == width_of(k));
}

proof fn plan_means(op: BinOp, k: IntKind, p: BinPlan, x: Word, y: Word)
    requires
        op != BinOp::And,
        op != BinOp::Or,
        bin_plan_of(op, TypeV::Int(k), p),
        is_word(x, k),
        is_word(y, k),
        op == BinOp::Div || op == BinOp::Rem ==> y.bits != 0,
    ensures
        computed(p, x, y) == meaning(op, k, x, y),
{
    kinds(k);
    assert(of_kind(x, k) && of_kind(y, k));
}

/// A comparison of integers decides the relation that its operator denotes.
pub proof fn integer_comparisons_decide(op: BinOp, k: IntKind, p: BinPlan, x: Word, y: Word)
    requires
        comparison(op),
        bin_plan_of(op, TypeV::Int(k), p),
        is_word(x, k),
        is_word(y, k),
    ensures
        computed(p, x, y) == Some(truth(relates(op, value_of(k, x), value_of(k, y)))),
{
    kinds(k);
    moduli();
    plan_means(op, k, p, x, y);
}

/// Whether a word of the type holds a number, as far as it fits.
pub open spec fn holds_number(w: Option<Word>, k: IntKind, n: int) -> bool {
    w == Some(Word { width: width_of(k), bits: (n % modulus(width_of(k)) as int) as nat })
}

proof fn value_wraps(k: IntKind, w: Word) -> (i: int)
    requires
        is_word(w, k),
    ensures
        value_of(k, w) == w.bits - modulus(width_of(k)) * i,
{
    if value_of(k, w) == w.bits as int {
        assert(modulus(width_of(k)) * 0 == 0) by (nonlinear_arith);
        0
    } else {
        assert(modulus(width_of(k)) * 1 == modulus(width_of(k))) by (nonlinear_arith);
        1
    }
}

proof fn same_remainder(a: int, b: int, c: int, m: int)
    requires
        m > 0,
        a == b + m * c,
    ensures
        a % m == b % m,
{
    vstd::arithmetic::div_mod::lemma_mod_multiples_vanish(c, b, m);
}

/// Sums, differences and products of integers are those of the numbers, wrapped to the
/// width of the type.
pub proof fn integer_arithmetic_wraps(k: IntKind, x: Word, y: Word, sum: BinPlan, difference: BinPlan, product: BinPlan)
    requires
        is_word(x, k),
        is_word(y, k),
        bin_plan_of(BinOp::Add, TypeV::Int(k), sum),
        bin_plan_of(BinOp::Sub, TypeV::Int(k), difference),
        bin_plan_of(BinOp::Mul, TypeV::Int(k), product),
    ensures
        holds_number(computed(sum, x, y), k, value_of(k, x) + value_of(k, y)),
        holds_number(computed(difference, x, y), k, value_of(k, x) - value_of(k, y)),
        holds_number(computed(product, x, y), k, value_of(k, x) * value_of(k, y)),
{
    kinds(k);
    moduli();
    plan_means(BinOp::Add, k, sum, x, y);
    plan_means(BinOp::Sub, k, difference, x, y);
    plan_means(BinOp::Mul, k, product, x, y);
    let m = modulus(width_of(k)) as int;
    let a = x.bits as int;
    let b = y.bits as int;
    let i = value_wraps(k, x);
    let j = value_wraps(k, y);
    let va = value_of(k, x);
    let vb = value_of(k, y);
    assert(a + b == (va + vb) + m * (i + j)) by (nonlinear_arith)
        requires
            va == a - m * i,
            vb == b - m * j,
    ;
    same_remainder(a + b, va + vb, i + j, m);
    assert(a - b == (va - vb) + m * (i - j)) by (nonlinear_arith)
        requires
            va == a - m * i,
            vb == b - m * j,
    ;
    same_remainder(a - b, va - vb, i - j, m);
    assert(a * b == (va * vb) + m * (i * b + j * a - m * (i * j))) by (nonlinear_arith)
        requires
            va == a - m * i,
            vb == b - m * j,
    ;
    same_remainder(a * b, va * vb, i * b + j * a - m * (i * j), m);
}

/// Whether `q` and `r` are the quotient of a division that rounds toward zero and the
/// remainder that goes with it.
pub open spec fn divides(a: int, b: int, q: int, r: int) -> bool {
    &&& a == b * q + r
    &&& -magnitude(b) < r < magnitude(b)
    &&& r != 0 ==> (r < 0) == (a < 0)
}

proof fn quotient_divides(a: int, b: int)
    requires
        b != 0,
    ensures
        divides(a, b, quotient(a, b), remainder(a, b)),
{
    let x = magnitude(a);
    let y = magnitude(b);
    let q = x / y;
    let r = x % y;
    assert(x == y * q + r && 0 <= r < y) by (nonlinear_arith)
        requires
            y > 0,
            x >= 0,
            q == x / y,
            r == x % y,
    ;
    let s = quotient(a, b);
    assert(b * s == (if a < 0 {
        -(y * q)
    } else {
        y * q
    })) by (nonlinear_arith)
        requires
            y == (if b < 0 {
                -b
            } else {
                b
            }),
            s == (if (a < 0) == (b < 0) {
                q
            } else {
                -q
            }),
    ;
}

/// Division of integers rounds toward zero, and the remainder makes up the difference.
pub proof fn integer_division_rounds_to_zero(k: IntKind, x: Word, y: Word, quot: BinPlan, rem: BinPlan)
    requires
        is_word(x, k),
        is_word(y, k),
        y.bits != 0,
        bin_plan_of(BinOp::Div, TypeV::Int(k), quot),
        bin_plan_of(BinOp::Rem, TypeV::Int(k), rem),
    ensures
        exists|q: int, r: int| #[trigger]
            divides(value_of(k, x), value_of(k, y), q, r) && holds_number(
                computed(quot, x, y),
                k,
                q,
            ) && holds_number(computed(rem, x, y), k, r),
{
    kinds(k);
    moduli();
    plan_means(BinOp::Div, k, quot, x, y);
    plan_means(BinOp::Rem, k, rem, x, y);
    let a = value_of(k, x);
    let b = value_of(k, y);
    quotient_divides(a, b);
    let q = quotient(a, b);
    let r = remainder(a, b);
    if !signed_kind(k) {
        assert(a % b == a - b * (a / b)) by (nonlinear_arith)
            requires
                b > 0,
                a >= 0,
        ;
    }
    assert(divides(a, b, q, r));
    assert(holds_number(computed(quot, x, y), k, q));
    assert(holds_number(computed(rem, x, y), k, r));
}

/// A division by zero is stopped before it runs, and nothing else is.
pub proof fn only_divisions_are_stopped(op: BinOp, k: IntKind, p: BinPlan)
    requires
        bin_plan_of(op, TypeV::Int(k), p),
    ensures
        (p matches BinPlan::Int(c) && c.trap_on_zero) <==> (op == BinOp::Div || op == BinOp::Rem),
        p is Unit <==> (op == BinOp::And || op == BinOp::Or),
{
}

/// Whether bit `i` of a word is set.
pub open spec fn bit(w: Word, i: u64) -> bool {
    ((w.bits as u64) >> i) & 1 == 1
}

proof fn bits_of(a: u64, b: u64, i: u64)
    requires
        i < 64,
    ensures
        (((a & b) >> i) & 1 == 1) == ((a >> i) & 1 == 1 && (b >> i) & 1 == 1),
        (((a | b) >> i) & 1 == 1) == ((a >> i) & 1 == 1 || (b >> i) & 1 == 1),
        (((a ^ b) >> i) & 1 == 1) == (((a >> i) & 1 == 1) != ((b >> i) & 1 == 1)),
{
    assert((((a & b) >> i) & 1 == 1) == ((a >> i) & 1 == 1 && (b >> i) & 1 == 1)) by (bit_vector)
        requires
            i < 64,
    ;
    assert((((a | b) >> i) & 1 == 1) == ((a >> i) & 1 == 1 || (b >> i) & 1 == 1)) by (bit_vector)
        requires
            i < 64,
    ;
    assert((((a ^ b) >> i) & 1 == 1) == (((a >> i) & 1 == 1) != ((b >> i) & 1 == 1))) by (bit_vector)
        requires
            i < 64,
    ;
}

/// The bitwise operators work bit by bit.
pub proof fn bitwise_operators_go_bit_by_bit(k: IntKind, x: Word, y: Word, and: BinPlan, or: BinPlan, xor: BinPlan, i: u64)
    requires
        is_word(x, k),
        is_word(y, k),
        bin_plan_of(BinOp::BitAnd, TypeV::Int(k), and),
        bin_plan_of(BinOp::BitOr, TypeV::Int(k), or),
        bin_plan_of(BinOp::BitXor, TypeV::Int(k), xor),
        i < 64,
    ensures
        computed(and, x, y) matches Some(w) && w.width == width_of(k) && bit(w, i) == (bit(x, i)
            && bit(y, i)),
        computed(or, x, y) matches Some(w) && w.width == width_of(k) && bit(w, i) == (bit(x, i)
            || bit(y, i)),
        computed(xor, x, y) matches Some(w) && w.width == width_of(k) && bit(w, i) == (bit(x, i)
            != bit(y, i)),
{
    kinds(k);
    moduli();
    plan_means(BinOp::BitAnd, k, and, x, y);
    plan_means(BinOp::BitOr, k, or, x, y);
    plan_means(BinOp::BitXor, k, xor, x, y);
    bits_of(x.bits as u64, y.bits as u64, i);
}

proof fn narrower(n: int, k: IntKind)
    ensures
        (n % modulus(64) as int) % (modulus(width_of(k)) as int) == n % modulus(width_of(k)) as int,
{
    moduli();
    let m = modulus(width_of(k)) as int;
    let c: int = if width_of(k) == 8 {
        0x100_0000_0000_0000
    } else if width_of(k) == 16 {
        0x1_0000_0000_0000
    } else if width_of(k) == 32 {
        0x1_0000_0000
    } else {
        1
    };
    let big = modulus(64) as int;
    assert(big == m * c);
    let q = n / big;
    assert(n == (n % big) + m * (c * q)) by (nonlinear_arith)
        requires
            big == m * c,
            big > 0,
            q == n / big,
    ;
    same_remainder(n, n % big, c * q, m);
}

/// Shifts move the number by the low six bits of the amount: to the left they multiply by
/// a power of two, to the right they divide by one and round down.
pub proof fn shifts_scale(k: IntKind, x: Word, y: Word, left: BinPlan, right: BinPlan)
    requires
        is_word(x, k),
        is_word(y, k),
        bin_plan_of(BinOp::Shl, TypeV::Int(k), left),
        bin_plan_of(BinOp::Shr, TypeV::Int(k), right),
    ensures
        holds_number(
            computed(left, x, y),
            k,
            value_of(k, x) * modulus((y.bits % 64) as nat),
        ),
        holds_number(
            computed(right, x, y),
            k,
            value_of(k, x) / (modulus((y.bits % 64) as nat) as int),
        ),
{
    kinds(k);
    moduli();
    plan_means(BinOp::Shl, k, left, x, y);
    plan_means(BinOp::Shr, k, right, x, y);
    let yb = y.bits as u64;
    assert(yb & 63 == yb % 64) by (bit_vector);
    let s = (y.bits % 64) as nat;
    assert(shift_amount(y) == s);
    let p = modulus(s) as int;
    let v = value_of(k, x);
    let w = widened(k, x);
    let big = modulus(64) as int;
    let wb = w.bits as int;
    assert(wb == v % big);
    let q = v / big;
    assert(wb * p == v * p + big * (-(q * p))) by (nonlinear_arith)
        requires
            wb == v % big,
            q == v / big,
            big > 0,
    ;
    same_remainder(wb * p, v * p, -(q * p), big);
    narrower(v * p, k);
    if signed_kind(k) {
        assert(signed(w) == v);
    } else {
        assert(wb == v);
    }
    narrower(v / p, k);
}

// ---- coercions ----

/// The word an integer conversion gives.
pub open spec fn converted_word(c: Conv<TypeV>, w: Word) -> Word {
    match c {
        Conv::SignExtend(b) => word(b as nat, signed(w)),
        Conv::ZeroExtend(b) => word(b as nat, w.bits as int),
        Conv::Truncate(b) => word(b as nat, w.bits as int),
        _ => w,
    }
}

/// The word that steps of integer conversions give.
pub open spec fn converted(steps: Seq<Conv<TypeV>>, w: Word) -> Word
    decreases steps.len(),
{
    if steps.len() == 0 {
        w
    } else {
        converted_word(steps.last(), converted(steps.drop_last(), w))
    }
}

/// An integer becomes the same number of the other type, as far as it fits.
pub proof fn integers_keep_their_number(from: IntKind, to: IntKind, x: Word)
    requires
        is_word(x, from),
    ensures
        holds_number(
            Some(converted(coercion(TypeV::Int(from), TypeV::Int(to)), x)),
            to,
            value_of(from, x),
        ),
{
    kinds(from);
    kinds(to);
    moduli();
    let c = coercion(TypeV::Int(from), TypeV::Int(to));
    let n = width_of(to);
    let m = modulus(n) as int;
    let i = value_wraps(from, x);
    let v = value_of(from, x);
    let a = x.bits as int;
    if c.len() == 1 {
        assert(c.drop_last().len() == 0);
        assert(converted(c.drop_last(), x) == x);
        if n < width_of(from) {
            let big = modulus(width_of(from)) as int;
            let f = width_of(from);
            let d: int = if n == 8 {
                if f == 16 {
                    0x100
                } else if f == 32 {
                    0x100_0000
                } else {
                    0x100_0000_0000_0000
                }
            } else if n == 16 {
                if f == 32 {
                    0x1_0000
                } else {
                    0x1_0000_0000_0000
                }
            } else {
                0x1_0000_0000
            };
            assert(big == m * d);
            assert(a == v + m * (d * i)) by (nonlinear_arith)
                requires
                    v == a - big * i,
                    big == m * d,
            ;
            same_remainder(a, v, d * i, m);
        }
    } else {
        assert(c.len() == 0);
        assert(a == v + m * i) by (nonlinear_arith)
            requires
                v == a - m * i,
        ;
        same_remainder(a, v, i, m);
        vstd::arithmetic::div_mod::lemma_small_mod(x.bits, modulus(n));
    }
}

/// How a value is represented.
pub ghost enum Form {
    Int(nat),
    Float(FloatKind),
    /// A cell that holds a value of the type, or null.
    Cell(TypeV),
    Other(TypeV),
}

/// How a value of a type is represented.
pub open spec fn form_of(t: TypeV) -> Form {
    match t {
        TypeV::Int(k) => Form::Int(width_of(k)),
        TypeV::Float(k) => Form::Float(k),
        TypeV::Nullable(inner) => Form::Cell(*inner),
        _ => Form::Other(t),
    }
}

/// How a value is represented after a step, if the step applies to it.
pub open spec fn form_after(c: Conv<TypeV>, f: Form) -> Option<Form> {
    match (c, f) {
        (Conv::SignExtend(b), Form::Int(n)) if n < b => Some(Form::Int(b as nat)),
        (Conv::ZeroExtend(b), Form::Int(n)) if n < b => Some(Form::Int(b as nat)),
        (Conv::Truncate(b), Form::Int(n)) if b < n => Some(Form::Int(b as nat)),
        (Conv::FloatExtend, Form::Float(FloatKind::F32)) => Some(Form::Float(FloatKind::F64)),
        (Conv::FloatTruncate, Form::Float(FloatKind::F64)) => Some(Form::Float(FloatKind::F32)),
        (Conv::SignedToFloat(k), Form::Int(_)) => Some(Form::Float(k)),
        (Conv::UnsignedToFloat(k), Form::Int(_)) => Some(Form::Float(k)),
        (Conv::Wrap(t), f) => if f == form_of(t) {
            Some(Form::Cell(t))
        } else {
            None
        },
        (Conv::Unwrap(t), Form::Cell(_)) => Some(form_of(t)),
        _ => None,
    }
}

/// How a value is represented after some steps, if all of them apply.
pub open spec fn form_through(steps: Seq<Conv<TypeV>>, f: Form) -> Option<Form>
    decreases steps.len(),
{
    if steps.len() == 0 {
        Some(f)
    } else {
        match form_through(steps.drop_last(), f) {
            Some(g) => form_after(steps.last(), g),
            None => None,
        }
    }
}

/// Whether a value of one type can become one of the other: between numbers, where no
/// fraction is cut off, into a nullable and out of one.
pub open spec fn coercible(from: TypeV, to: TypeV) -> bool
    decreases to,
{
    ||| from == to
    ||| from is Int && (to is Int || to is Float)
    ||| from is Float && to is Float
    ||| from is Nullable && !(to is Nullable)
    ||| (to matches TypeV::Nullable(inner) && !(from is Nullable) && coercible(from, *inner))
}

/// After the steps of a coercion a value is represented as one of the target type.
pub proof fn coercions_reach_their_type(from: TypeV, to: TypeV)
    requires
        coercible(from, to),
    ensures
        form_through(coercion(from, to), form_of(from)) == Some(form_of(to)),
    decreases to,
{
    if from is Int {
        kinds(from->Int_0);
    }
    if to is Int {
        kinds(to->Int_0);
    }
    let c = coercion(from, to);
    match to {
        TypeV::Nullable(inner) => {
            if !(from is Nullable) {
                let front = coercion(from, *inner);
                assert(c == front.push(Conv::Wrap(*inner)));
                assert(c.drop_last() =~= front);
                coercions_reach_their_type(from, *inner);
            }
        },
        _ => {
            if c.len() == 1 {
                assert(c.drop_last().len() == 0);
                assert(form_through(c.drop_last(), form_of(from)) == Some(form_of(from)));
            } else {
                assert(c.len() == 0);
            }
        },
    }
}

/// A number becomes a float by its sign: a type without one is never read as if it had.
pub proof fn floats_are_made_by_sign(k: IntKind, f: FloatKind)
    ensures
        coercion(TypeV::Int(k), TypeV::Float(f)).contains(Conv::SignedToFloat(f)) <==> (k
            == IntKind::I8 || k == IntKind::I16 || k == IntKind::I32 || k == IntKind::I64),
        coercion(TypeV::Int(k), TypeV::Float(f)).contains(Conv::UnsignedToFloat(f)) <==> !(k
            == IntKind::I8 || k == IntKind::I16 || k == IntKind::I32 || k == IntKind::I64),
{
    let c = coercion(TypeV::Int(k), TypeV::Float(f));
    assert(c.len() == 1);
    assert(c.contains(c[0]));
}

} // verus!
