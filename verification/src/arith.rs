//! Straight-line code for integer operators.
//!
//! The raw machine operations are undefined for some operands: division by zero,
//! the one overflowing signed division, and shifts by the width or more. The code
//! made here never runs into them, and computes what the operator means: wrapping
//! arithmetic at the operand's width, with shifts done at 64 bits.

use vstd::prelude::*;
use crate::ast::BinOp;
use crate::layout::{bits, int_bits_of, int_signed, signed_kind};
use crate::types::IntKind;

verus! {

/// How two integers are compared.
#[derive(Clone, Copy, Debug, PartialEq, Eq, Structural)]
pub enum Compare {
    Eq,
    Ne,
    SignedLt,
    SignedGt,
    SignedLe,
    SignedGe,
    UnsignedLt,
    UnsignedGt,
    UnsignedLe,
    UnsignedGe,
}

/// One machine operation. Operands are results of earlier ones, by position; the two
/// operands of the operator stand at positions 0 and 1.
#[derive(Clone, Copy, Debug, PartialEq, Eq, Structural)]
pub enum Step {
    /// A constant of a width.
    Const(u32, u64),
    Add(usize, usize),
    Sub(usize, usize),
    Mul(usize, usize),
    SignedDiv(usize, usize),
    SignedRem(usize, usize),
    UnsignedDiv(usize, usize),
    UnsignedRem(usize, usize),
    And(usize, usize),
    Or(usize, usize),
    Xor(usize, usize),
    Shl(usize, usize),
    /// A shift to the right that copies the sign.
    SignedShr(usize, usize),
    UnsignedShr(usize, usize),
    Comparison(Compare, usize, usize),
    /// The second operand where the first holds, else the third.
    Select(usize, usize, usize),
    /// Extension to a width of at least the operand's; to its own it changes nothing.
    SignExtend(usize, u32),
    ZeroExtend(usize, u32),
    /// The low bits, at a width of at most the operand's.
    Truncate(usize, u32),
}

/// A machine integer: its width and its bits.
pub ghost struct Word {
    pub width: nat,
    pub bits: nat,
}

/// Two to the power of a width.
pub open spec fn modulus(width: nat) -> nat
    decreases width,
{
    if width == 0 {
        1
    } else {
        2 * modulus((width - 1) as nat)
    }
}

/// The word of a width that a number wraps to.
pub open spec fn word(width: nat, n: int) -> Word {
    Word { width, bits: (n % modulus(width) as int) as nat }
}

/// The signed value of a word.
pub open spec fn signed(w: Word) -> int {
    if 2 * w.bits < modulus(w.width) {
        w.bits as int
    } else {
        w.bits - modulus(w.width)
    }
}

/// Division that rounds toward zero.
pub open spec fn quotient(a: int, b: int) -> int {
    if (a < 0) == (b < 0) {
        magnitude(a) / magnitude(b)
    } else {
        -(magnitude(a) / magnitude(b))
    }
}

/// The remainder that has the sign of the dividend.
pub open spec fn remainder(a: int, b: int) -> int {
    a - b * quotient(a, b)
}

pub open spec fn magnitude(a: int) -> int {
    if a < 0 {
        -a
    } else {
        a
    }
}

/// The truth value as a word.
pub open spec fn truth(b: bool) -> Word {
    Word {
        width: 1,
        bits: if b {
            1
        } else {
            0
        },
    }
}

pub open spec fn compared(c: Compare, a: Word, b: Word) -> bool {
    match c {
        Compare::Eq => a.bits == b.bits,
        Compare::Ne => a.bits != b.bits,
        Compare::SignedLt => signed(a) < signed(b),
        Compare::SignedGt => signed(a) > signed(b),
        Compare::SignedLe => signed(a) <= signed(b),
        Compare::SignedGe => signed(a) >= signed(b),
        Compare::UnsignedLt => a.bits < b.bits,
        Compare::UnsignedGt => a.bits > b.bits,
        Compare::UnsignedLe => a.bits <= b.bits,
        Compare::UnsignedGe => a.bits >= b.bits,
    }
}

/// The least signed value of a width.
pub open spec fn least(width: nat) -> int {
    -(modulus(width) / 2)
}

/// What a machine operation does, or `None` where it is undefined.
pub open spec fn step_result(s: Step, rs: Seq<Word>) -> Option<Word> {
    match s {
        Step::Const(w, v) => Some(word(w as nat, v as int)),
        Step::Add(a, b) => Some(word(rs[a as int].width, (rs[a as int].bits + rs[b as int].bits) as int)),
        Step::Sub(a, b) => Some(word(rs[a as int].width, rs[a as int].bits - rs[b as int].bits)),
        Step::Mul(a, b) => Some(word(rs[a as int].width, (rs[a as int].bits * rs[b as int].bits) as int)),
        Step::SignedDiv(a, b) => {
            let x = rs[a as int];
            let y = rs[b as int];
            if y.bits == 0 || (signed(x) == least(x.width) && signed(y) == -1) {
                None
            } else {
                Some(word(x.width, quotient(signed(x), signed(y))))
            }
        },
        Step::SignedRem(a, b) => {
            let x = rs[a as int];
            let y = rs[b as int];
            if y.bits == 0 || (signed(x) == least(x.width) && signed(y) == -1) {
                None
            } else {
                Some(word(x.width, remainder(signed(x), signed(y))))
            }
        },
        Step::UnsignedDiv(a, b) => if rs[b as int].bits == 0 {
            None
        } else {
            Some(word(rs[a as int].width, (rs[a as int].bits / rs[b as int].bits) as int))
        },
        Step::UnsignedRem(a, b) => if rs[b as int].bits == 0 {
            None
        } else {
            Some(word(rs[a as int].width, (rs[a as int].bits % rs[b as int].bits) as int))
        },
        Step::And(a, b) => Some(
            Word {
                width: rs[a as int].width,
                bits: (rs[a as int].bits as u64 & rs[b as int].bits as u64) as nat,
            },
        ),
        Step::Or(a, b) => Some(
            Word {
                width: rs[a as int].width,
                bits: (rs[a as int].bits as u64 | rs[b as int].bits as u64) as nat,
            },
        ),
        Step::Xor(a, b) => Some(
            Word {
                width: rs[a as int].width,
                bits: (rs[a as int].bits as u64 ^ rs[b as int].bits as u64) as nat,
            },
        ),
        Step::Shl(a, b) => if rs[b as int].bits >= rs[a as int].width {
            None
        } else {
            Some(
                word(
                    rs[a as int].width,
                    (rs[a as int].bits * modulus(rs[b as int].bits)) as int,
                ),
            )
        },
        Step::SignedShr(a, b) => if rs[b as int].bits >= rs[a as int].width {
            None
        } else {
            Some(word(rs[a as int].width, signed(rs[a as int]) / (modulus(rs[b as int].bits) as int)))
        },
        Step::UnsignedShr(a, b) => if rs[b as int].bits >= rs[a as int].width {
            None
        } else {
            Some(word(rs[a as int].width, (rs[a as int].bits / modulus(rs[b as int].bits)) as int))
        },
        Step::Comparison(c, a, b) => Some(truth(compared(c, rs[a as int], rs[b as int]))),
        Step::Select(c, a, b) => Some(
            if rs[c as int].bits != 0 {
                rs[a as int]
            } else {
                rs[b as int]
            },
        ),
        Step::SignExtend(a, w) => Some(word(w as nat, signed(rs[a as int]))),
        Step::ZeroExtend(a, w) => Some(word(w as nat, rs[a as int].bits as int)),
        Step::Truncate(a, w) => Some(word(w as nat, rs[a as int].bits as int)),
    }
}

/// The results of running code on some words, or `None` where a step is undefined.
pub open spec fn run(code: Seq<Step>, rs: Seq<Word>) -> Option<Seq<Word>>
    decreases code.len(),
{
    if code.len() == 0 {
        Some(rs)
    } else {
        match run(code.drop_last(), rs) {
            Some(done) => match step_result(code.last(), done) {
                Some(w) => Some(done.push(w)),
                None => None,
            },
            None => None,
        }
    }
}

/// The result of the last step.
pub open spec fn result(code: Seq<Step>, x: Word, y: Word) -> Option<Word> {
    match run(code, seq![x, y]) {
        Some(rs) => Some(rs.last()),
        None => None,
    }
}

// ---- what operators mean ----

/// Whether an operator compares.
pub open spec fn comparison(op: BinOp) -> bool {
    op == BinOp::Eq || op == BinOp::Ne || op == BinOp::Lt || op == BinOp::Gt || op == BinOp::Le
        || op == BinOp::Ge
}

/// Whether an operator compares.
pub fn codegen_is_int_cmp(op: BinOp) -> (r: bool)
    ensures
        r == comparison(op),
{
    matches!(op, BinOp::Eq | BinOp::Ne | BinOp::Lt | BinOp::Gt | BinOp::Le | BinOp::Ge)
}

/// How a comparison operator compares, by signedness.
pub open spec fn predicate(op: BinOp, signed: bool) -> Compare {
    match op {
        BinOp::Eq => Compare::Eq,
        BinOp::Ne => Compare::Ne,
        BinOp::Lt => if signed {
            Compare::SignedLt
        } else {
            Compare::UnsignedLt
        },
        BinOp::Gt => if signed {
            Compare::SignedGt
        } else {
            Compare::UnsignedGt
        },
        BinOp::Le => if signed {
            Compare::SignedLe
        } else {
            Compare::UnsignedLe
        },
        _ => if signed {
            Compare::SignedGe
        } else {
            Compare::UnsignedGe
        },
    }
}

/// The comparison a comparison operator makes.
pub fn int_predicate(op: BinOp, signed: bool) -> (r: Compare)
    requires
        comparison(op),
    ensures
        r == predicate(op, signed),
{
    match op {
        BinOp::Eq => Compare::Eq,
        BinOp::Ne => Compare::Ne,
        BinOp::Lt => if signed {
            Compare::SignedLt
        } else {
            Compare::UnsignedLt
        },
        BinOp::Gt => if signed {
            Compare::SignedGt
        } else {
            Compare::UnsignedGt
        },
        BinOp::Le => if signed {
            Compare::SignedLe
        } else {
            Compare::UnsignedLe
        },
        _ => if signed {
            Compare::SignedGe
        } else {
            Compare::UnsignedGe
        },
    }
}

/// The 64-bit word that a word extends to by its signedness.
pub open spec fn widened(k: IntKind, x: Word) -> Word {
    if signed_kind(k) {
        word(64, signed(x))
    } else {
        word(64, x.bits as int)
    }
}

/// The amount a shift shifts by: only the low six bits count.
pub open spec fn shift_amount(y: Word) -> nat {
    (y.bits as u64 & 63) as nat
}

/// What an integer operator means for operands of a type: wrapping arithmetic, and
/// shifts at 64 bits cut back to the width.
pub open spec fn meaning(op: BinOp, k: IntKind, x: Word, y: Word) -> Option<Word> {
    let n = bits(k);
    match op {
        BinOp::Add => Some(word(n, (x.bits + y.bits) as int)),
        BinOp::Sub => Some(word(n, x.bits - y.bits)),
        BinOp::Mul => Some(word(n, (x.bits * y.bits) as int)),
        BinOp::Div => if signed_kind(k) {
            Some(word(n, quotient(signed(x), signed(y))))
        } else {
            Some(word(n, (x.bits / y.bits) as int))
        },
        BinOp::Rem => if signed_kind(k) {
            Some(word(n, remainder(signed(x), signed(y))))
        } else {
            Some(word(n, (x.bits % y.bits) as int))
        },
        BinOp::BitAnd => Some(Word { width: n, bits: (x.bits as u64 & y.bits as u64) as nat }),
        BinOp::BitOr => Some(Word { width: n, bits: (x.bits as u64 | y.bits as u64) as nat }),
        BinOp::BitXor => Some(Word { width: n, bits: (x.bits as u64 ^ y.bits as u64) as nat }),
        BinOp::Shl => Some(
            word(
                n,
                word(64, (widened(k, x).bits * modulus(shift_amount(y))) as int).bits as int,
            ),
        ),
        BinOp::Shr => Some(
            if signed_kind(k) {
                word(
                    n,
                    word(64, signed(widened(k, x)) / (modulus(shift_amount(y)) as int)).bits as int,
                )
            } else {
                word(
                    n,
                    word(64, (widened(k, x).bits / modulus(shift_amount(y))) as int).bits as int,
                )
            },
        ),
        BinOp::And => None,
        BinOp::Or => None,
        _ => Some(truth(compared(predicate(op, signed_kind(k)), x, y))),
    }
}

/// A word of an integer type.
pub open spec fn of_kind(w: Word, k: IntKind) -> bool {
    w.width == bits(k) && w.bits < modulus(w.width)
}

// ---- code ----

/// Code for an operator: whether a zero right operand has to trap first, and the
/// steps.
#[derive(Debug, PartialEq)]
pub struct IntCode {
    pub trap_on_zero: bool,
    pub steps: Vec<Step>,
}

proof fn run_grows(code: Seq<Step>, s: Step, rs: Seq<Word>)
    ensures
        run(code.push(s), rs) == (match run(code, rs) {
            Some(done) => match step_result(s, done) {
                Some(w) => Some(done.push(w)),
                None => None,
            },
            None => None,
        }),
{
    assert(code.push(s).drop_last() =~= code);
}

/// The moduli of the widths that integers have.
pub proof fn moduli()
    ensures
        modulus(1) == 2,
        modulus(6) == 64,
        modulus(8) == 0x100,
        modulus(16) == 0x1_0000,
        modulus(32) == 0x1_0000_0000,
        modulus(64) == 0x1_0000_0000_0000_0000,
{
    reveal_with_fuel(modulus, 9);
    assert(modulus(8) == 0x100);
    assert(modulus(16) == 0x1_0000);
    assert(modulus(24) == 0x100_0000);
    assert(modulus(32) == 0x1_0000_0000);
    assert(modulus(40) == 0x100_0000_0000);
    assert(modulus(48) == 0x1_0000_0000_0000);
    assert(modulus(56) == 0x100_0000_0000_0000);
}

/// The bits of the least signed value of a type.
fn least_bits(k: IntKind) -> (r: u64)
    ensures
        r == modulus(bits(k)) / 2,
{
    proof {
        moduli();
    }
    match k {
        IntKind::I8 | IntKind::U8 => 0x80,
        IntKind::I16 | IntKind::U16 => 0x8000,
        IntKind::I32 | IntKind::U32 => 0x8000_0000,
        IntKind::I64 | IntKind::U64 => 0x8000_0000_0000_0000,
    }
}

/// The bits of minus one of a type.
fn all_ones(k: IntKind) -> (r: u64)
    ensures
        r == modulus(bits(k)) - 1,
{
    proof {
        moduli();
    }
    match k {
        IntKind::I8 | IntKind::U8 => 0xff,
        IntKind::I16 | IntKind::U16 => 0xffff,
        IntKind::I32 | IntKind::U32 => 0xffff_ffff,
        IntKind::I64 | IntKind::U64 => 0xffff_ffff_ffff_ffff,
    }
}

/// What remains of a division whose divisor was replaced by one.
proof fn division_by_one(a: int)
    ensures
        quotient(a, 1) == a,
        remainder(a, 1) == 0,
{
    assert(magnitude(a) / 1 == magnitude(a)) by (nonlinear_arith);
}

/// A number that fits a width is its own word.
proof fn word_of_small(width: nat, n: int)
    requires
        0 <= n < modulus(width),
    ensures
        word(width, n).bits == n,
{
    vstd::arithmetic::div_mod::lemma_small_mod(n as nat, modulus(width));
}

/// The code of a signed division up to the guarded divisor.
spec fn guard_code(k: IntKind) -> Seq<Step> {
    let w = bits(k) as u32;
    let m = modulus(bits(k));
    seq![
        Step::Const(w, (m / 2) as u64),
        Step::Comparison(Compare::Eq, 0, 2),
        Step::Const(w, (m - 1) as u64),
        Step::Comparison(Compare::Eq, 1, 4),
        Step::And(3, 5),
        Step::Const(w, 1),
        Step::Select(6, 7, 1),
    ]
}

/// The divisor is replaced by one exactly where the division would overflow.
spec fn guarded_divisor(k: IntKind, x: Word, y: Word) -> Word {
    if signed(x) == least(bits(k)) && signed(y) == -1 {
        word(bits(k), 1)
    } else {
        y
    }
}

#[verifier::rlimit(40)]
proof fn guard_runs(k: IntKind, x: Word, y: Word)
    requires
        of_kind(x, k),
        of_kind(y, k),
    ensures
        run(guard_code(k), seq![x, y]) matches Some(rs) && rs.len() == 9 && rs[0] == x && rs[8]
            == guarded_divisor(k, x, y),
{
    moduli();
    let c = guard_code(k);
    let rs = seq![x, y];
    let m = modulus(bits(k));
    let lo = word(bits(k), (m / 2) as int);
    word_of_small(bits(k), (m / 2) as int);
    let ones = word(bits(k), m - 1);
    word_of_small(bits(k), m - 1);
    let one = word(bits(k), 1);
    word_of_small(bits(k), 1);
    let p = x.bits == m / 2;
    let q = y.bits == m - 1;
    assert(1u64 & 1u64 == 1u64) by (bit_vector);
    assert(0u64 & 1u64 == 0u64) by (bit_vector);
    assert(1u64 & 0u64 == 0u64) by (bit_vector);
    assert(0u64 & 0u64 == 0u64) by (bit_vector);
    let both = Word { width: 1, bits: (truth(p).bits as u64 & truth(q).bits as u64) as nat };
    let divisor = if p && q {
        one
    } else {
        y
    };
    assert(c.take(0) =~= Seq::<Step>::empty());
    assert(run(c.take(0), rs) == Some(rs));
    let r1 = rs.push(lo);
    step_runs(c, 0, rs, rs, lo);
    let r2 = r1.push(truth(p));
    step_runs(c, 1, rs, r1, truth(p));
    let r3 = r2.push(ones);
    step_runs(c, 2, rs, r2, ones);
    let r4 = r3.push(truth(q));
    step_runs(c, 3, rs, r3, truth(q));
    let r5 = r4.push(both);
    step_runs(c, 4, rs, r4, both);
    let r6 = r5.push(one);
    step_runs(c, 5, rs, r5, one);
    step_runs(c, 6, rs, r6, divisor);
    assert(c.take(7) =~= c);
    assert(signed(x) == least(bits(k)) <==> p);
    assert(signed(y) == -1 <==> q);
}

proof fn step_runs(c: Seq<Step>, i: int, rs: Seq<Word>, done: Seq<Word>, w: Word)
    requires
        0 <= i < c.len(),
        run(c.take(i), rs) == Some(done),
        step_result(c[i], done) == Some(w),
    ensures
        run(c.take(i + 1), rs) == Some(done.push(w)),
{
    assert(c.take(i + 1) =~= c.take(i).push(c[i]));
    run_grows(c.take(i), c[i], rs);
}

/// The overflowing division wraps to its dividend, and leaves nothing.
proof fn overflowing_division(width: nat)
    requires
        width == 8 || width == 16 || width == 32 || width == 64,
    ensures
        word(width, quotient(least(width), -1)) == word(width, least(width)),
        remainder(least(width), -1) == 0,
{
    moduli();
    let m = modulus(width) as int;
    let h = m / 2;
    assert(m == 2 * h);
    assert(quotient(-h, -1) == h);
    assert(h % m == (-h) % m) by (nonlinear_arith)
        requires
            m == 2 * h,
            h > 0,
    {
        assert(-h == (-1) * m + h);
    }
}

#[verifier::rlimit(60)]
fn division(rem: bool, k: IntKind) -> (r: Vec<Step>)
    requires
        signed_kind(k),
    ensures
        forall|x: Word, y: Word|
            of_kind(x, k) && of_kind(y, k) && y.bits != 0 ==> result(r@, x, y) == meaning(
                if rem {
                    BinOp::Rem
                } else {
                    BinOp::Div
                },
                k,
                x,
                y,
            ),
{
    let w = int_bits_of(k);
    let mut steps: Vec<Step> = Vec::new();
    steps.push(Step::Const(w, least_bits(k)));
    steps.push(Step::Comparison(Compare::Eq, 0, 2));
    steps.push(Step::Const(w, all_ones(k)));
    steps.push(Step::Comparison(Compare::Eq, 1, 4));
    steps.push(Step::And(3, 5));
    steps.push(Step::Const(w, 1));
    steps.push(Step::Select(6, 7, 1));
    let ghost guard = steps@;
    proof {
        moduli();
        assert(guard =~= guard_code(k));
    }
    if rem {
        steps.push(Step::SignedRem(0, 8));
    } else {
        steps.push(Step::SignedDiv(0, 8));
    }
    proof {
        assert forall|x: Word, y: Word|
            of_kind(x, k) && of_kind(y, k) && y.bits != 0 implies result(steps@, x, y) == meaning(
            if rem {
                BinOp::Rem
            } else {
                BinOp::Div
            },
            k,
            x,
            y,
        ) by {
            guard_runs(k, x, y);
            run_grows(guard, steps@.last(), seq![x, y]);
            let d = guarded_divisor(k, x, y);
            moduli();
            word_of_small(bits(k), 1);
            division_by_one(signed(x));
            overflowing_division(bits(k));
            assert(signed(word(bits(k), 1)) == 1);
        }
    }
    steps
}

#[verifier::rlimit(60)]
fn shift(left: bool, k: IntKind) -> (r: Vec<Step>)
    ensures
        forall|x: Word, y: Word|
            of_kind(x, k) && of_kind(y, k) ==> result(r@, x, y) == meaning(
                if left {
                    BinOp::Shl
                } else {
                    BinOp::Shr
                },
                k,
                x,
                y,
            ),
{
    let w = int_bits_of(k);
    let sg = int_signed(k);
    let mut steps: Vec<Step> = Vec::new();
    let ghost c0 = steps@;
    if sg {
        steps.push(Step::SignExtend(0, 64));
    } else {
        steps.push(Step::ZeroExtend(0, 64));
    }
    let ghost c1 = steps@;
    steps.push(Step::ZeroExtend(1, 64));
    let ghost c2 = steps@;
    steps.push(Step::Const(64, 63));
    let ghost c3 = steps@;
    steps.push(Step::And(3, 4));
    let ghost c4 = steps@;
    if left {
        steps.push(Step::Shl(2, 5));
    } else if sg {
        steps.push(Step::SignedShr(2, 5));
    } else {
        steps.push(Step::UnsignedShr(2, 5));
    }
    let ghost c5 = steps@;
    steps.push(Step::Truncate(6, w));
    proof {
        moduli();
        assert forall|x: Word, y: Word| of_kind(x, k) && of_kind(y, k) implies result(steps@, x, y)
            == meaning(
            if left {
                BinOp::Shl
            } else {
                BinOp::Shr
            },
            k,
            x,
            y,
        ) by {
            let rs = seq![x, y];
            assert(run(c0, rs) == Some(rs));
            run_grows(c0, c1.last(), rs);
            run_grows(c1, c2.last(), rs);
            run_grows(c2, c3.last(), rs);
            run_grows(c3, c4.last(), rs);
            run_grows(c4, c5.last(), rs);
            run_grows(c5, steps@.last(), rs);
            let xe = widened(k, x);
            let ye = word(64, y.bits as int);
            assert(ye.bits == y.bits);
            let mask = word(64, 63);
            assert(mask.bits == 63);
            let amt = Word { width: 64, bits: shift_amount(y) };
            let yb = y.bits as u64;
            assert(yb & 63 < 64) by (bit_vector);
            assert(run(c4, rs)->Some_0 =~= seq![x, y, xe, ye, mask, amt]);
        }
    }
    steps
}

/// Code for an integer operator on operands of type `k`; `None` for the operators
/// that do not apply to integers.
pub fn int_code(op: BinOp, k: IntKind) -> (r: Option<IntCode>)
    ensures
        r is None <==> op == BinOp::And || op == BinOp::Or,
        r matches Some(c) ==> c.trap_on_zero == (op == BinOp::Div || op == BinOp::Rem),
        r matches Some(c) ==> forall|x: Word, y: Word|
            of_kind(x, k) && of_kind(y, k) && (c.trap_on_zero ==> y.bits != 0) ==> result(
                c.steps@,
                x,
                y,
            ) == meaning(op, k, x, y),
{
    let trap_on_zero = matches!(op, BinOp::Div | BinOp::Rem);
    let steps = match op {
        BinOp::And => return None,
        BinOp::Or => return None,
        BinOp::Div => if int_signed(k) {
            division(false, k)
        } else {
            single(op, k)
        },
        BinOp::Rem => if int_signed(k) {
            division(true, k)
        } else {
            single(op, k)
        },
        BinOp::Shl => shift(true, k),
        BinOp::Shr => shift(false, k),
        _ => single(op, k),
    };
    Some(IntCode { trap_on_zero, steps })
}

/// Code of one step.
fn single(op: BinOp, k: IntKind) -> (r: Vec<Step>)
    requires
        op != BinOp::And && op != BinOp::Or && op != BinOp::Shl && op != BinOp::Shr,
        op == BinOp::Div || op == BinOp::Rem ==> !signed_kind(k),
    ensures
        forall|x: Word, y: Word|
            of_kind(x, k) && of_kind(y, k) && (op == BinOp::Div || op == BinOp::Rem ==> y.bits
                != 0) ==> result(r@, x, y) == meaning(op, k, x, y),
{
    let s = match op {
        BinOp::Add => Step::Add(0, 1),
        BinOp::Sub => Step::Sub(0, 1),
        BinOp::Mul => Step::Mul(0, 1),
        BinOp::Div => Step::UnsignedDiv(0, 1),
        BinOp::Rem => Step::UnsignedRem(0, 1),
        BinOp::BitAnd => Step::And(0, 1),
        BinOp::BitOr => Step::Or(0, 1),
        BinOp::BitXor => Step::Xor(0, 1),
        _ => Step::Comparison(int_predicate(op, int_signed(k)), 0, 1),
    };
    let mut steps: Vec<Step> = Vec::new();
    let ghost c0 = steps@;
    steps.push(s);
    proof {
        assert forall|x: Word, y: Word|
            of_kind(x, k) && of_kind(y, k) && (op == BinOp::Div || op == BinOp::Rem ==> y.bits
                != 0) implies result(steps@, x, y) == meaning(op, k, x, y) by {
            assert(run(c0, seq![x, y]) == Some(seq![x, y]));
            run_grows(c0, s, seq![x, y]);
        }
    }
    steps
}

} // verus!
