//! The value of an `int` expression that is made of literals alone, as the compiled program would
//! compute it: in 64 bits, each step checked.

use vstd::prelude::*;
use crate::ast::{BinOp, Expr, ExprV, UnOp};
use crate::numeral::{capped_whole_value, is_whole, whole_number, whole_value};

verus! {

/// What is known of the value of an expression before the program runs.
pub enum Fold {
    /// Some operand is no literal, or the computation stops for another reason than overflow.
    Unknown,
    /// Every operand is a literal, and a step leaves the range of 64 bits.
    Overflow,
    /// The value.
    Known(int),
}

/// What is known of the value of an expression before the program runs.
#[derive(Clone, Copy)]
pub enum Folded {
    Unknown,
    Overflow,
    Known(i64),
}

impl Folded {
    /// The view of this result.
    pub open spec fn view(&self) -> Fold {
        match self {
            Folded::Unknown => Fold::Unknown,
            Folded::Overflow => Fold::Overflow,
            Folded::Known(v) => Fold::Known(*v as int),
        }
    }
}

/// Whether `v` fits in 64 bits.
pub open spec fn in_64(v: int) -> bool {
    i64::MIN <= v <= i64::MAX
}

/// `v`, if it fits in 64 bits.
pub open spec fn checked(v: int) -> Fold {
    if in_64(v) {
        Fold::Known(v)
    } else {
        Fold::Overflow
    }
}

/// `b` to the power `e`.
pub open spec fn power(b: int, e: nat) -> int
    decreases e,
{
    if e == 0 {
        1
    } else {
        power(b, (e - 1) as nat) * b
    }
}

/// The product of the numbers from 1 to `n`.
pub open spec fn factorial(n: nat) -> nat
    decreases n,
{
    if n == 0 {
        1
    } else {
        factorial((n - 1) as nat) * n
    }
}

/// The size of `v`.
pub open spec fn magnitude_of(v: int) -> nat {
    if v < 0 {
        (-v) as nat
    } else {
        v as nat
    }
}

/// `a` divided by `b`, without the fraction.
pub open spec fn truncated_div(a: int, b: int) -> int {
    let q = (magnitude_of(a) / magnitude_of(b)) as int;
    if (a < 0) == (b < 0) {
        q
    } else {
        -q
    }
}

/// A power with a whole exponent. A negative exponent has no whole result.
pub open spec fn fold_power(b: int, e: int) -> Fold {
    if e < 0 {
        Fold::Unknown
    } else {
        checked(power(b, e as nat))
    }
}

/// A tower of `height` copies of `b`, computed from its top.
pub open spec fn fold_tower(b: int, height: int) -> Fold
    decreases height,
{
    if height < 2 {
        Fold::Known(b)
    } else {
        match fold_tower(b, height - 1) {
            Fold::Known(v) => fold_power(b, v),
            other => other,
        }
    }
}

/// The result of an arithmetic operator on two known values.
pub open spec fn fold_values(op: BinOp, a: int, b: int) -> Fold {
    match op {
        BinOp::Add => checked(a + b),
        BinOp::Sub => checked(a - b),
        BinOp::Mul => checked(a * b),
        BinOp::Div => if b == 0 {
            Fold::Unknown
        } else {
            checked(truncated_div(a, b))
        },
        BinOp::Pow => fold_power(a, b),
        BinOp::Tetration => fold_tower(a, b),
        _ => Fold::Unknown,
    }
}

/// The result of an arithmetic operator on two operands.
pub open spec fn fold_binary(op: BinOp, a: Fold, b: Fold) -> Fold {
    match (a, b) {
        (Fold::Unknown, _) => Fold::Unknown,
        (_, Fold::Unknown) => Fold::Unknown,
        (Fold::Known(x), Fold::Known(y)) => fold_values(op, x, y),
        _ => Fold::Overflow,
    }
}

/// The result of an operator on one operand.
pub open spec fn fold_unary(op: UnOp, a: Fold) -> Fold {
    match (op, a) {
        (UnOp::Not, _) => Fold::Unknown,
        (UnOp::Neg, Fold::Known(v)) => checked(-v),
        (UnOp::Factorial, Fold::Known(v)) => checked(factorial(if v < 0 { 0 } else { v as nat }) as int),
        (_, other) => other,
    }
}

/// A literal as a whole number.
pub open spec fn fold_literal(text: Seq<char>) -> Fold {
    if is_whole(text) {
        checked(whole_value(text) as int)
    } else {
        Fold::Unknown
    }
}

/// What is known of the value of `e` before the program runs.
pub open spec fn fold(e: ExprV) -> Fold
    decreases e,
{
    match e {
        ExprV::Num(text) => fold_literal(text),
        ExprV::Unary(op, inner) => fold_unary(op, fold(*inner)),
        ExprV::Binary(l, op, r) => fold_binary(op, fold(*l), fold(*r)),
        _ => Fold::Unknown,
    }
}

// ---------------------------------------------------------------------------
// Growth
// ---------------------------------------------------------------------------

proof fn lemma_power_grows(b: int, i: nat, e: nat)
    requires
        b >= 2 || b <= -2,
        i <= e,
    ensures
        magnitude_of(power(b, i)) >= 1,
        magnitude_of(power(b, e)) >= magnitude_of(power(b, i)),
        i < e ==> magnitude_of(power(b, e)) >= 2 * magnitude_of(power(b, i)),
    decreases e,
{
    if e == 0 {
    } else if i == e {
        lemma_power_grows(b, (e - 1) as nat, (e - 1) as nat);
        lemma_step(power(b, (e - 1) as nat), b);
    } else {
        lemma_power_grows(b, i, (e - 1) as nat);
        lemma_step(power(b, (e - 1) as nat), b);
    }
}

proof fn lemma_step(v: int, b: int)
    requires
        b >= 2 || b <= -2,
    ensures
        magnitude_of(v * b) >= 2 * magnitude_of(v),
        magnitude_of(v) >= 1 ==> magnitude_of(v * b) >= 1,
{
    assert(v >= 0 && b >= 2 ==> v * b >= 2 * v) by (nonlinear_arith);
    assert(v >= 0 && b <= -2 ==> v * b <= -2 * v) by (nonlinear_arith);
    assert(v <= 0 && b >= 2 ==> v * b <= 2 * v) by (nonlinear_arith);
    assert(v <= 0 && b <= -2 ==> v * b >= -2 * v) by (nonlinear_arith);
}

/// Once a power leaves the range, the higher powers stay outside.
pub proof fn lemma_power_stays_out(b: int, i: nat, e: nat)
    requires
        b >= 2 || b <= -2,
        i <= e,
        !in_64(power(b, i)),
    ensures
        !in_64(power(b, e)),
{
    lemma_power_grows(b, i, e);
}

pub proof fn lemma_power_of_small(b: int, e: nat)
    ensures
        b == 1 ==> power(b, e) == 1,
        b == 0 ==> power(b, e) == if e == 0 { 1int } else { 0int },
        b == -1 ==> power(b, e) == if e % 2 == 0 { 1int } else { -1int },
    decreases e,
{
    if e > 0 {
        lemma_power_of_small(b, (e - 1) as nat);
    }
}

pub proof fn lemma_factorial_grows(i: nat, n: nat)
    requires
        i <= n,
    ensures
        1 <= factorial(i) <= factorial(n),
    decreases n,
{
    if n > 0 {
        if i == n {
            lemma_factorial_grows((n - 1) as nat, (n - 1) as nat);
        } else {
            lemma_factorial_grows(i, (n - 1) as nat);
        }
        let f = factorial((n - 1) as nat);
        assert(f * n >= f) by (nonlinear_arith)
            requires
                f >= 1,
                n >= 1,
        ;
    }
}

pub proof fn lemma_tower_of_small(b: int, height: int)
    ensures
        height >= 2 && b < 0 ==> fold_tower(b, height) is Unknown,
        height >= 2 && b == 1 ==> fold_tower(b, height) == Fold::Known(1),
        height >= 2 && b == 0 ==> fold_tower(b, height) == Fold::Known(if height % 2 == 0 { 1 } else { 0 }),
    decreases height,
{
    if height >= 2 {
        lemma_tower_of_small(b, height - 1);
        lemma_power_of_small(b, 0);
        lemma_power_of_small(b, 1);
    }
}

pub proof fn lemma_tower_stays(b: int, i: int, height: int)
    requires
        1 <= i <= height,
        !(fold_tower(b, i) is Known),
    ensures
        fold_tower(b, height) == fold_tower(b, i),
    decreases height,
{
    if i < height {
        lemma_tower_stays(b, i, height - 1);
    }
}

proof fn lemma_power_exceeds(b: int, e: nat)
    requires
        b >= 2,
    ensures
        power(b, e) >= e + 1,
    decreases e,
{
    if e > 0 {
        lemma_power_exceeds(b, (e - 1) as nat);
        let v = power(b, (e - 1) as nat);
        assert(v * b >= 2 * v) by (nonlinear_arith)
            requires
                v >= 0,
                b >= 2,
        ;
    }
}

/// A tower of a number above 1 is larger than it is high.
pub proof fn lemma_tower_exceeds(b: int, height: int)
    requires
        b >= 2,
        height >= 1,
    ensures
        fold_tower(b, height) matches Fold::Known(v) ==> v >= height + 1,
    decreases height,
{
    if height >= 2 {
        lemma_tower_exceeds(b, height - 1);
        if let Fold::Known(v) = fold_tower(b, height - 1) {
            lemma_power_exceeds(b, v as nat);
        }
    }
}

// ---------------------------------------------------------------------------
// Computing it
// ---------------------------------------------------------------------------

/// `v`, if it fits in 64 bits.
fn check_value(v: i128) -> (r: Folded)
    ensures
        r@ == checked(v as int),
{
    if (i64::MIN as i128) <= v && v <= (i64::MAX as i128) {
        Folded::Known(v as i64)
    } else {
        Folded::Overflow
    }
}

fn product(a: i64, b: i64) -> (r: i128)
    ensures
        r == a * b,
{
    assert(-0x4000_0000_0000_0000_0000_0000_0000_0000 <= a * b <= 0x4000_0000_0000_0000_0000_0000_0000_0000)
        by (nonlinear_arith)
        requires
            -0x8000_0000_0000_0000 <= a <= 0x7fff_ffff_ffff_ffff,
            -0x8000_0000_0000_0000 <= b <= 0x7fff_ffff_ffff_ffff,
    ;
    (a as i128) * (b as i128)
}

fn size_of_value(v: i64) -> (r: u64)
    ensures
        r == magnitude_of(v as int),
{
    if v < 0 {
        (-(v as i128)) as u64
    } else {
        v as u64
    }
}

/// A power with a whole exponent.
fn compute_power(b: i64, e: i64) -> (r: Folded)
    ensures
        r@ == fold_power(b as int, e as int),
{
    if e < 0 {
        return Folded::Unknown;
    }
    proof {
        lemma_power_of_small(b as int, e as nat);
    }
    if b == 1 {
        return Folded::Known(1);
    }
    if b == 0 {
        return Folded::Known(if e == 0 { 1 } else { 0 });
    }
    if b == -1 {
        return Folded::Known(if e % 2 == 0 { 1 } else { -1 });
    }
    let mut v: i64 = 1;
    let mut i: i64 = 0;
    while i < e
        invariant
            0 <= i <= e,
            v == power(b as int, i as nat),
            b >= 2 || b <= -2,
        decreases e - i,
    {
        match check_value(product(v, b)) {
            Folded::Known(next) => {
                v = next;
            },
            _ => {
                proof {
                    assert(power(b as int, (i + 1) as nat) == v * b);
                    lemma_power_stays_out(b as int, (i + 1) as nat, e as nat);
                }
                return Folded::Overflow;
            },
        }
        i = i + 1;
    }
    Folded::Known(v)
}

/// A tower of `height` copies of `b`.
fn compute_tower(b: i64, height: i64) -> (r: Folded)
    ensures
        r@ == fold_tower(b as int, height as int),
{
    if height < 2 {
        return Folded::Known(b);
    }
    proof {
        lemma_tower_of_small(b as int, height as int);
    }
    if b < 0 {
        return Folded::Unknown;
    }
    if b == 1 {
        return Folded::Known(1);
    }
    if b == 0 {
        return Folded::Known(if height % 2 == 0 { 1 } else { 0 });
    }
    let mut v: i64 = b;
    let mut i: i64 = 1;
    while i < height
        invariant
            1 <= i <= height,
            fold_tower(b as int, i as int) == Fold::Known(v as int),
        decreases height - i,
    {
        assert(fold_tower(b as int, i + 1) == fold_power(b as int, v as int));
        match compute_power(b, v) {
            Folded::Known(next) => {
                v = next;
            },
            other => {
                proof {
                    lemma_tower_stays(b as int, i + 1, height as int);
                }
                return other;
            },
        }
        i = i + 1;
    }
    Folded::Known(v)
}

/// The product of the numbers from 1 to `n`.
fn compute_factorial(n: i64) -> (r: Folded)
    ensures
        r@ == checked(factorial(if n < 0 { 0 } else { n as nat }) as int),
{
    let mut v: i64 = 1;
    let mut i: i64 = 0;
    while i < n
        invariant
            n >= 0 ==> 0 <= i <= n,
            n < 0 ==> i == 0,
            v == factorial(i as nat),
        decreases n - i,
    {
        i = i + 1;
        match check_value(product(v, i)) {
            Folded::Known(next) => {
                v = next;
            },
            _ => {
                proof {
                    assert(factorial(i as nat) == v * i);
                    lemma_factorial_grows(i as nat, n as nat);
                    lemma_factorial_grows(0, i as nat);
                }
                return Folded::Overflow;
            },
        }
    }
    Folded::Known(v)
}

/// `a` divided by `b`, without the fraction.
fn compute_div(a: i64, b: i64) -> (r: Folded)
    requires
        b != 0,
    ensures
        r@ == checked(truncated_div(a as int, b as int)),
{
    let q: u64 = size_of_value(a) / size_of_value(b);
    if (a < 0) == (b < 0) {
        check_value(q as i128)
    } else {
        check_value(-(q as i128))
    }
}

/// The result of an arithmetic operator on two known values.
fn compute_values(op: BinOp, a: i64, b: i64) -> (r: Folded)
    ensures
        r@ == fold_values(op, a as int, b as int),
{
    match op {
        BinOp::Add => check_value(a as i128 + b as i128),
        BinOp::Sub => check_value(a as i128 - b as i128),
        BinOp::Mul => check_value(product(a, b)),
        BinOp::Div => if b == 0 {
            Folded::Unknown
        } else {
            compute_div(a, b)
        },
        BinOp::Pow => compute_power(a, b),
        BinOp::Tetration => compute_tower(a, b),
        _ => Folded::Unknown,
    }
}

/// What is known of the value of `e` before the program runs.
pub fn fold_expr(e: &Expr) -> (r: Folded)
    ensures
        r@ == fold(e@),
    decreases e,
{
    match e {
        Expr::Num(text) => {
            if !whole_number(text) {
                return Folded::Unknown;
            }
            let v: u64 = capped_whole_value(text);
            check_value(v as i128)
        },
        Expr::Unary(op, inner) => {
            let a: Folded = fold_expr(inner);
            match (*op, a) {
                (UnOp::Not, _) => Folded::Unknown,
                (UnOp::Neg, Folded::Known(v)) => check_value(-(v as i128)),
                (UnOp::Factorial, Folded::Known(v)) => compute_factorial(v),
                (_, other) => other,
            }
        },
        Expr::Binary(l, op, r) => {
            let a: Folded = fold_expr(l);
            let b: Folded = fold_expr(r);
            match (a, b) {
                (Folded::Unknown, _) => Folded::Unknown,
                (_, Folded::Unknown) => Folded::Unknown,
                (Folded::Known(x), Folded::Known(y)) => compute_values(*op, x, y),
                _ => Folded::Overflow,
            }
        },
        _ => Folded::Unknown,
    }
}

} // verus!
