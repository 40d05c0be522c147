//! What `bignum` and `bigint` operators compute when a program runs. How bignums themselves are computed with
//! is left open: what is stated holds of every world.

use vstd::prelude::*;
use crate::ast::{BinOp, Type};
use crate::branching::lemma_inside;
use crate::confined::{
    lemma_same, own_bignum_new, own_call0, own_compile_bignum_tetration, own_run3, own_unwrap, own_wrap,
};
use crate::emit::{
    bignum_new, call0, call1, call2, compile_bignum_tetration, compile_order, const_int, emit, give0, give1, give2,
    int_test, loop_begin, loop_end, run2, run3, unwrap, wrap, Looping, Out,
};
use crate::fold::{in_64, power, truncated_div};
use crate::ir::{repr_of, InstV, Op, Repr, Rt, Test, Value};
use crate::lower::{big_arith, big_binary, big_function, big_new, big_order, fuses_left, is_temp, Work};
use crate::machine::{
    bigint_call, bignum_call, changed_object, given, holds, landing, lemma_emit, lemma_here, lemma_loop_again,
    lemma_loop_around, lemma_loop_begin, lemma_loop_end, lemma_loop_enter, lemma_loop_test, lemma_step, lemma_then,
    lemma_then_stops, made_object, object, ordered, other_step, own_blocks, reaches, run, same_before, step, stops,
    tower, truth, with_heap, within, Cell, Machine, Object, Run, World,
};
use crate::typing::{is_arithmetic, is_comparison};

verus! {

// ---------------------------------------------------------------------------
// What the operators mean
// ---------------------------------------------------------------------------

/// A tower of `height` copies of a bignum, at a precision.
pub open spec fn big_tower(w: World, p: int, x: int, height: int) -> int
    decreases height,
{
    if height < 2 {
        (w.big_round)(p, x)
    } else {
        (w.big_power)(p, x, big_tower(w, p, x, height - 1))
    }
}

/// What an arithmetic operator gives for the bignum `x` on the left and the bignum `y` on the right, at a
/// precision.
pub open spec fn bignum_meaning(w: World, op: BinOp, p: int, x: int, y: int) -> int {
    match op {
        BinOp::Add => (w.big_plus)(p, x, y),
        BinOp::Sub => (w.big_minus)(p, x, y),
        BinOp::Mul => (w.big_times)(p, x, y),
        BinOp::Div => (w.big_over)(p, x, y),
        BinOp::Pow => (w.big_power)(p, x, y),
        _ => big_tower(w, p, x, (w.big_whole)(y)),
    }
}

/// What an arithmetic operator gives for the bigint `x` on the left and the bigint `y` on the right: the exact
/// number. There is none for a division by zero and for a negative exponent.
pub open spec fn bigint_meaning(op: BinOp, x: int, y: int) -> Option<int> {
    match op {
        BinOp::Add => Some(x + y),
        BinOp::Sub => Some(x - y),
        BinOp::Mul => Some(x * y),
        BinOp::Div => if y == 0 {
            None
        } else {
            Some(truncated_div(x, y))
        },
        BinOp::Pow => if y < 0 {
            None
        } else {
            Some(power(x, y as nat))
        },
        _ => tower(x, y),
    }
}

/// The number that an operator of type `ty` gives for two numbers.
pub open spec fn big_meaning(w: World, ty: Type, op: BinOp, x: Object, y: Object) -> Option<Object> {
    match (ty, x, y) {
        (Type::BigNum(p), Object::Decimal(_, a), Object::Decimal(_, b)) => Some(
            Object::Decimal(p as int, bignum_meaning(w, op, p as int, a, b)),
        ),
        (Type::BigInt, Object::Whole(a), Object::Whole(b)) => match bigint_meaning(op, a, b) {
            Some(v) => Some(Object::Whole(v)),
            None => None,
        },
        _ => None,
    }
}

/// Whether `x` is less than `y`.
pub open spec fn big_less(w: World, x: Object, y: Object) -> bool {
    match (x, y) {
        (Object::Decimal(_, a), Object::Decimal(_, b)) => (w.big_less)(a, b),
        (Object::Whole(a), Object::Whole(b)) => a < b,
        _ => false,
    }
}

/// Whether a comparison of `x` on the left with `y` on the right holds, for numbers of which each two are in
/// order: `x` is less than `y`, or `y` is less than `x`, or they are equal.
pub open spec fn big_holds(w: World, op: BinOp, x: Object, y: Object) -> bool {
    match op {
        BinOp::Eq => !big_less(w, x, y) && !big_less(w, y, x),
        BinOp::Ne => big_less(w, x, y) || big_less(w, y, x),
        BinOp::Lt => big_less(w, x, y),
        BinOp::Gt => big_less(w, y, x) && !big_less(w, x, y),
        BinOp::Le => big_less(w, x, y) || !big_less(w, y, x),
        BinOp::Ge => !big_less(w, x, y),
        _ => false,
    }
}

// ---------------------------------------------------------------------------
// Objects
// ---------------------------------------------------------------------------

/// The value `v` is the object `x` at the address `a`.
pub open spec fn is_object(m: Machine, v: Value, a: int, x: Object) -> bool {
    m.cells[v.id as int] == Cell::Object(a) && 0 <= a < m.around.heap.len() && m.around.heap[a] == x
}

/// A number of type `ty`.
pub open spec fn of_type(ty: Type, x: Object) -> bool {
    (ty is BigNum && x is Decimal) || (ty is BigInt && x is Whole)
}

/// What was given and stored before place `n` is the same in both, and so are what was shown and every object
/// but the one at `target`.
pub open spec fn kept_but(m: Machine, t: Machine, n: int, target: int) -> bool {
    &&& forall|k: int| k < n ==> #[trigger] t.cells[k] == m.cells[k]
    &&& forall|k: int| k < n ==> #[trigger] t.memory[k] == m.memory[k]
    &&& forall|k: int| k < n ==> #[trigger] t.stored[k] == m.stored[k]
    &&& t.around.world == m.around.world
    &&& t.around.shown == m.around.shown
    &&& t.around.args == m.around.args
    &&& m.around.heap.len() <= t.around.heap.len()
    &&& forall|a: int| 0 <= a < m.around.heap.len() && a != target ==> #[trigger] t.around.heap[a] == m.around.heap[a]
}

pub proof fn lemma_unwrap_runs(code: Seq<InstV>, o: Out, v: Value, m: Machine) -> (t: Machine)
    requires
        within(code, unwrap(o, v).0),
        m.next == o.code.len(),
    ensures
        within(code, o),
        unwrap(o, v).0.code.len() == o.code.len() + 1,
        unwrap(o, v).1.id == o.code.len(),
        reaches(code, m, t),
        given(m, m.cells[v.id as int]) == Run::On(t),
{
    reveal(unwrap);
    reveal(give1);
    reveal(step);
    reveal(other_step);
    lemma_emit(code, o, Op::Unwrap, seq![v.id], ""@);
    lemma_here(code, m);
    lemma_step(code, m, m)
}

pub proof fn lemma_wrap_runs(code: Seq<InstV>, o: Out, repr: Repr, v: Value, m: Machine) -> (t: Machine)
    requires
        within(code, wrap(o, repr, v).0),
        m.next == o.code.len(),
    ensures
        within(code, o),
        wrap(o, repr, v).0.code.len() == o.code.len() + 1,
        wrap(o, repr, v).1.id == o.code.len(),
        wrap(o, repr, v).1.repr == repr,
        reaches(code, m, t),
        given(m, m.cells[v.id as int]) == Run::On(t),
{
    reveal(wrap);
    reveal(give1);
    reveal(step);
    reveal(other_step);
    lemma_emit(code, o, Op::Wrap(repr), seq![v.id], ""@);
    lemma_here(code, m);
    lemma_step(code, m, m)
}

/// A new number of type `ty` is an object of its own.
pub proof fn lemma_new_runs(code: Seq<InstV>, o: Out, ty: Type, m: Machine) -> (t: Machine)
    requires
        ty is BigNum || ty is BigInt,
        within(code, big_new(o, ty).0),
        m.next == o.code.len(),
    ensures
        within(code, o),
        o.code.len() < big_new(o, ty).0.code.len(),
        big_new(o, ty).1.id == big_new(o, ty).0.code.len() - 1,
        reaches(code, m, t),
        t.next == big_new(o, ty).0.code.len(),
        kept_but(m, t, o.code.len() as int, -1),
        t.around.heap == m.around.heap.push(
            match ty {
                Type::BigNum(p) => Object::Decimal(p as int, 0),
                _ => Object::Whole(0),
            },
        ),
        t.cells[big_new(o, ty).1.id as int] == Cell::Object(m.around.heap.len() as int),
{
    reveal(step);
    lemma_here(code, m);
    match ty {
        Type::BigNum(p) => {
            reveal(bignum_new);
            reveal(const_int);
            reveal(give0);
            reveal(call1);
            let (o1, c) = const_int(o, 64, p as i64);
            lemma_emit(code, o1, Op::Call(Rt::BignumNew), seq![c.id], ""@);
            lemma_emit(code, o, Op::ConstInt(64, p as i64), Seq::empty(), ""@);
            let m1 = lemma_step(code, m, m);
            assert(step(code, m1) == made_object(m1, Object::Decimal(p as int, 0))) by {
                reveal(other_step);
                reveal(bignum_call);
            }
            lemma_step(code, m, m1)
        },
        _ => {
            reveal(call0);
            lemma_emit(code, o, Op::Call(Rt::BigintNew), Seq::empty(), ""@);
            assert(step(code, m) == made_object(m, Object::Whole(0))) by {
                reveal(other_step);
                reveal(bigint_call);
            }
            lemma_step(code, m, m)
        },
    }
}

/// The runtime function for an operator leaves the result of the operator in the number `h`.
proof fn lemma_function_runs(
    code: Seq<InstV>,
    o: Out,
    ty: Type,
    op: BinOp,
    f: Rt,
    h: Value,
    l: Value,
    r: Value,
    m: Machine,
    a: int,
    x: Object,
    y: Object,
) -> (t: Machine)
    requires
        is_arithmetic(op),
        big_function(ty, op) == Some(f),
        within(code, run3(o, f, h, l, r)),
        m.next == o.code.len(),
        m.cells[h.id as int] == Cell::Object(a),
        0 <= a < m.around.heap.len(),
        of_type(ty, m.around.heap[a]),
        ty matches Type::BigNum(p) ==> m.around.heap[a]->Decimal_0 == p,
        object(m, l.id) == Some(x),
        object(m, r.id) == Some(y),
        of_type(ty, x),
        of_type(ty, y),
    ensures
        within(code, o),
        run3(o, f, h, l, r).code.len() == o.code.len() + 1,
        match big_meaning(m.around.world, ty, op, x, y) {
            Some(z) => {
                &&& reaches(code, m, t)
                &&& t == (Machine { next: m.next + 1, ..with_heap(m, m.around.heap.update(a, z)) })
            },
            None => stops(code, m),
        },
{
    reveal(run3);
    reveal(step);
    lemma_emit(code, o, Op::Call(f), seq![h.id, l.id, r.id], ""@);
    lemma_here(code, m);
    match big_meaning(m.around.world, ty, op, x, y) {
        Some(z) => {
            assert(step(code, m) == changed_object(m, h.id, z)) by {
                reveal(other_step);
                reveal(bignum_call);
                reveal(bigint_call);
            }
            lemma_step(code, m, m)
        },
        None => {
            assert(step(code, m) is Stopped) by {
                reveal(other_step);
                reveal(bigint_call);
            }
            assert(run(code, m, 1) is Stopped);
            m
        },
    }
}

/// The address of the number that an operator leaves its result in, if it is one of its operands: a temporary
/// on the left, or for a power on the right.
pub open spec fn reused(w: Work, ty: Type, op: BinOp, l: Value, r: Value, la: int, ra: int) -> int {
    if fuses_left(op) && is_temp(w.temps, l, ty) {
        la
    } else if op is Pow && is_temp(w.temps, r, ty) {
        ra
    } else {
        -1
    }
}

/// A temporary has the precision of its type.
pub open spec fn fits_type(w: Work, ty: Type, v: Value, x: Object) -> bool {
    is_temp(w.temps, v, ty) ==> (ty matches Type::BigNum(p) ==> x->Decimal_0 == p)
}

proof fn lemma_arith_prefix(code: Seq<InstV>, w: Work, ty: Type, f: Rt, op: BinOp, l: Value, r: Value)
    requires
        within(code, big_arith(w, ty, f, op, l, r).0.out),
    ensures
        ({
            let (o1, a) = unwrap(w.out, l);
            let (o2, b) = unwrap(o1, r);
            let (o3, h) = big_new(o2, ty);
            &&& within(code, o2)
            &&& fuses_left(op) && is_temp(w.temps, l, ty) ==> within(code, run3(o2, f, a, a, b))
            &&& !(fuses_left(op) && is_temp(w.temps, l, ty)) && op is Pow && is_temp(w.temps, r, ty) ==> within(
                code,
                run3(o2, f, b, a, b),
            )
            &&& !(fuses_left(op) && is_temp(w.temps, l, ty)) && !(op is Pow && is_temp(w.temps, r, ty)) ==> within(
                code,
                run3(o3, f, h, a, b),
            ) && within(code, o3)
        }),
{
    let (o1, a) = unwrap(w.out, l);
    let (o2, b) = unwrap(o1, r);
    let (o3, h) = big_new(o2, ty);
    let end = big_arith(w, ty, f, op, l, r).0.out;
    lemma_same(o2);
    if fuses_left(op) && is_temp(w.temps, l, ty) {
        let o4 = run3(o2, f, a, a, b);
        own_run3(o2, o2, f, a, a, b);
        own_wrap(o2, o4, repr_of(ty), a);
        lemma_inside(code, o2, end);
        lemma_same(o4);
        own_wrap(o4, o4, repr_of(ty), a);
        lemma_inside(code, o4, end);
    } else if op is Pow && is_temp(w.temps, r, ty) {
        let o4 = run3(o2, f, b, a, b);
        own_run3(o2, o2, f, b, a, b);
        own_wrap(o2, o4, repr_of(ty), b);
        lemma_inside(code, o2, end);
        lemma_same(o4);
        own_wrap(o4, o4, repr_of(ty), b);
        lemma_inside(code, o4, end);
    } else {
        let o4 = run3(o3, f, h, a, b);
        if let Type::BigNum(p) = ty {
            own_bignum_new(o2, o2, p);
        } else {
            own_call0(o2, o2, Rt::BigintNew);
        }
        own_run3(o2, o3, f, h, a, b);
        own_wrap(o2, o4, repr_of(ty), h);
        lemma_inside(code, o2, end);
        lemma_same(o4);
        own_wrap(o4, o4, repr_of(ty), h);
        lemma_inside(code, o4, end);
        lemma_same(o3);
        own_run3(o3, o3, f, h, a, b);
        lemma_inside(code, o3, o4);
    }
}

/// An arithmetic operator with a runtime function.
proof fn lemma_arith(
    code: Seq<InstV>,
    w: Work,
    ty: Type,
    f: Rt,
    op: BinOp,
    l: Value,
    r: Value,
    m: Machine,
    la: int,
    ra: int,
    x: Object,
    y: Object,
) -> (t: Machine)
    requires
        is_arithmetic(op),
        big_function(ty, op) == Some(f),
        ty is BigNum || ty is BigInt,
        within(code, big_arith(w, ty, f, op, l, r).0.out),
        m.next == w.out.code.len(),
        is_object(m, l, la, x),
        is_object(m, r, ra, y),
        l.id < w.out.code.len(),
        r.id < w.out.code.len(),
        of_type(ty, x),
        of_type(ty, y),
        fits_type(w, ty, l, x),
        fits_type(w, ty, r, y),
    ensures
        ({
            let (end, v) = big_arith(w, ty, f, op, l, r);
            match big_meaning(m.around.world, ty, op, x, y) {
                Some(z) => {
                    &&& reaches(code, m, t)
                    &&& t.next == end.out.code.len()
                    &&& v.repr == repr_of(ty)
                    &&& v.id < end.out.code.len()
                    &&& exists|a: int|
                        #[trigger] is_object(t, v, a, z) && (a >= m.around.heap.len() || a == reused(w, ty, op, l, r, la, ra))
                    &&& kept_but(m, t, w.out.code.len() as int, reused(w, ty, op, l, r, la, ra))
                },
                None => stops(code, m),
            }
        }),
{
    lemma_arith_prefix(code, w, ty, f, op, l, r);
    let world = m.around.world;
    let (o1, a) = unwrap(w.out, l);
    let (o2, b) = unwrap(o1, r);
    let (o3, h) = big_new(o2, ty);
    lemma_same(o1);
    own_unwrap(o1, o1, r);
    lemma_inside(code, o1, o2);
    let m1 = lemma_unwrap_runs(code, w.out, l, m);
    let m2 = lemma_unwrap_runs(code, o1, r, m1);
    lemma_then(code, m, m1, m2);
    let (oc, target, at, m3) = if fuses_left(op) && is_temp(w.temps, l, ty) {
        (o2, a, la, m2)
    } else if op is Pow && is_temp(w.temps, r, ty) {
        (o2, b, ra, m2)
    } else {
        let m3 = lemma_new_runs(code, o2, ty, m2);
        lemma_then(code, m, m2, m3);
        (o3, h, m.around.heap.len() as int, m3)
    };
    assert(object(m3, a.id) == Some(x));
    assert(object(m3, b.id) == Some(y));
    let m4 = lemma_function_runs(code, oc, ty, op, f, target, a, b, m3, at, x, y);
    match big_meaning(world, ty, op, x, y) {
        Some(z) => {
            lemma_then(code, m, m3, m4);
            let o4 = run3(oc, f, target, a, b);
            let t = lemma_wrap_runs(code, o4, repr_of(ty), target, m4);
            lemma_then(code, m, m4, t);
            let v = big_arith(w, ty, f, op, l, r).1;
            assert(is_object(t, v, at, z));
            t
        },
        None => {
            lemma_then_stops(code, m, m3);
            m4
        },
    }
}

// ---------------------------------------------------------------------------
// Towers of bignums
// ---------------------------------------------------------------------------

/// The parts of `xxx` on bignums.
pub struct TowerParts {
    pub limit: Value,
    pub acc: Value,
    pub new: Out,
    pub before: Out,
    pub body: Out,
    pub looping: Looping,
    pub end: Out,
}

/// The parts of `xxx` on bignums.
pub open spec fn big_tower_parts(o: Out, base: Value, height: Value, precision: u32) -> TowerParts {
    let (o1, limit) = call1(o, Rt::BignumGetI64, height);
    let (new, acc) = bignum_new(o1, precision);
    let before = run2(new, Rt::BignumCopy, acc, base);
    let (body, looping) = loop_begin(before, 2, Test::Le, limit);
    let end = run3(body, Rt::BignumPow, acc, base, acc);
    TowerParts { limit, acc, new, before, body, looping, end }
}

proof fn lemma_big_tower_parts(code: Seq<InstV>, o: Out, base: Value, height: Value, precision: u32)
    requires
        within(code, compile_bignum_tetration(o, base, height, precision).0),
    ensures
        within(code, o),
        ({
            let p = big_tower_parts(o, base, height, precision);
            let n = o.code.len() as int;
            &&& compile_bignum_tetration(o, base, height, precision).1 == p.acc
            &&& within(code, p.new)
            &&& within(code, p.before)
            &&& within(code, p.body)
            &&& within(code, p.end)
            &&& within(code, loop_end(p.end, p.looping))
            &&& code[n].op == Op::Call(Rt::BignumGetI64) && code[n].args == seq![height.id]
            &&& p.limit.id == n
            &&& p.acc.id == n + 2
            &&& p.new.code.len() == n + 3
            &&& code[n + 3].op == Op::Call(Rt::BignumCopy) && code[n + 3].args == seq![p.acc.id, base.id]
            &&& p.before.code.len() == n + 4
            &&& p.body.code.len() == n + 16
            &&& code[n + 16].op == Op::Call(Rt::BignumPow) && code[n + 16].args == seq![p.acc.id, base.id, p.acc.id]
            &&& p.end.code.len() == n + 17
            &&& landing(code, n + 9, n + 16) == n + 21
            &&& compile_bignum_tetration(o, base, height, precision).0.code.len() == n + 22
            &&& code[n + 21].op is At
        }),
{
    reveal(compile_bignum_tetration);
    reveal(call1);
    reveal(run2);
    reveal(run3);
    reveal(bignum_new);
    reveal(const_int);
    reveal(give0);
    let p = big_tower_parts(o, base, height, precision);
    let (o1, limit) = call1(o, Rt::BignumGetI64, height);
    let (o2, c) = const_int(o1, 64, precision as i64);
    lemma_loop_end(code, p.end, p.looping);
    lemma_emit(code, p.body, Op::Call(Rt::BignumPow), seq![p.acc.id, base.id, p.acc.id], ""@);
    lemma_loop_begin(code, p.before, 2, Test::Le, limit);
    lemma_emit(code, p.new, Op::Call(Rt::BignumCopy), seq![p.acc.id, base.id], ""@);
    lemma_emit(code, o2, Op::Call(Rt::BignumNew), seq![c.id], ""@);
    lemma_emit(code, o1, Op::ConstInt(64, precision as i64), Seq::empty(), ""@);
    lemma_emit(code, o, Op::Call(Rt::BignumGetI64), seq![height.id], ""@);
    assert(own_blocks(p.body, p.end)) by {
        assert forall|i: int| p.body.code.len() <= i < p.end.code.len() && (#[trigger] p.end.code[i]).op is At
            implies p.end.code[i].args[0] >= p.body.code.len() by {
            assert(p.end.code[i] == code[i]);
        }
    }
    lemma_loop_around(code, p.before, 2, Test::Le, limit, p.end);
}

proof fn lemma_big_tower_loop(
    code: Seq<InstV>,
    o: Out,
    base: Value,
    height: Value,
    precision: u32,
    m: Machine,
    at: int,
    ba: int,
    q: int,
    x: int,
    h: int,
    i: int,
) -> (t: Machine)
    requires
        within(code, compile_bignum_tetration(o, base, height, precision).0),
        m.next == o.code.len() + 11,
        is_object(m, base, ba, Object::Decimal(q, x)),
        base.id < o.code.len(),
        is_object(
            m,
            big_tower_parts(o, base, height, precision).acc,
            at,
            Object::Decimal(precision as int, big_tower(m.around.world, precision as int, x, i - 1)),
        ),
        ba != at,
        holds(m, big_tower_parts(o, base, height, precision).limit, h),
        in_64(h),
        h < i64::MAX,
        2 <= i,
        i == 2 || i <= h + 1,
        m.memory[o.code.len() as int + 4] == i,
    ensures
        reaches(code, m, t),
        t.next == compile_bignum_tetration(o, base, height, precision).0.code.len(),
        is_object(
            t,
            compile_bignum_tetration(o, base, height, precision).1,
            at,
            Object::Decimal(precision as int, big_tower(m.around.world, precision as int, x, h)),
        ),
        kept_but(m, t, o.code.len() as int, at),
    decreases h + 1 - i,
{
    lemma_big_tower_parts(code, o, base, height, precision);
    let p = big_tower_parts(o, base, height, precision);
    let w = m.around.world;
    let pp = precision as int;
    lemma_loop_begin(code, p.before, 2, Test::Le, p.limit);
    lemma_loop_end(code, p.end, p.looping);
    let n = o.code.len() as int;
    let m1 = lemma_loop_test(code, p.before, 2, Test::Le, p.limit, m, i, h);
    reveal(step);
    if i > h {
        lemma_step(code, m, m1)
    } else {
        let z = Object::Decimal(pp, big_tower(w, pp, x, i));
        assert(step(code, m1) == changed_object(m1, p.acc.id, z)) by {
            reveal(other_step);
            reveal(bignum_call);
        }
        let m2 = lemma_step(code, m, m1);
        assert(holds(m2, p.looping.counter, i));
        let m3 = lemma_loop_again(code, p.end, p.looping, m2, i, n + 11);
        lemma_then(code, m, m2, m3);
        let t = lemma_big_tower_loop(code, o, base, height, precision, m3, at, ba, q, x, h, i + 1);
        lemma_then(code, m, m3, t);
        t
    }
}

/// `xxx` on bignums leaves the tower in a number of its own.
proof fn lemma_big_tower(
    code: Seq<InstV>,
    o: Out,
    base: Value,
    height: Value,
    precision: u32,
    m: Machine,
    ba: int,
    ha: int,
    q: int,
    x: int,
    hq: int,
    y: int,
) -> (t: Machine)
    requires
        within(code, compile_bignum_tetration(o, base, height, precision).0),
        m.next == o.code.len(),
        is_object(m, base, ba, Object::Decimal(q, x)),
        is_object(m, height, ha, Object::Decimal(hq, y)),
        base.id < o.code.len(),
        height.id < o.code.len(),
        in_64((m.around.world.big_whole)(y)),
        (m.around.world.big_whole)(y) < i64::MAX,
    ensures
        within(code, o),
        reaches(code, m, t),
        t.next == compile_bignum_tetration(o, base, height, precision).0.code.len(),
        is_object(
            t,
            compile_bignum_tetration(o, base, height, precision).1,
            m.around.heap.len() as int,
            Object::Decimal(
                precision as int,
                big_tower(m.around.world, precision as int, x, (m.around.world.big_whole)(y)),
            ),
        ),
        kept_but(m, t, o.code.len() as int, -1),
{
    lemma_big_tower_parts(code, o, base, height, precision);
    let p = big_tower_parts(o, base, height, precision);
    let w = m.around.world;
    let h = (w.big_whole)(y);
    let pp = precision as int;
    let at = m.around.heap.len() as int;
    let n = o.code.len() as int;
    let (o1, limit) = call1(o, Rt::BignumGetI64, height);
    reveal(step);
    lemma_here(code, m);
    assert(step(code, m) == given(m, Cell::Number(h))) by {
        reveal(other_step);
        reveal(bignum_call);
    }
    let m1 = lemma_step(code, m, m);
    assert(o1.code.len() == n + 1) by {
        reveal(call1);
        reveal(emit);
    }
    assert(within(code, o1)) by {
        lemma_same(o1);
        own_bignum_new(o1, o1, precision);
        lemma_inside(code, o1, p.new);
    }
    let m2 = lemma_new_runs(code, o1, Type::BigNum(precision), m1);
    lemma_then(code, m, m1, m2);
    let z = Object::Decimal(pp, (w.big_round)(pp, x));
    assert(step(code, m2) == changed_object(m2, p.acc.id, z)) by {
        reveal(other_step);
        reveal(bignum_call);
    }
    let m3 = lemma_step(code, m, m2);
    let m4 = lemma_loop_enter(code, p.before, 2, Test::Le, p.limit, m3);
    lemma_then(code, m, m3, m4);
    assert(big_tower(w, pp, x, 1) == (w.big_round)(pp, x));
    let t = lemma_big_tower_loop(code, o, base, height, precision, m4, at, ba, q, x, h, 2);
    lemma_then(code, m, m4, t);
    t
}

// ---------------------------------------------------------------------------
// Operators
// ---------------------------------------------------------------------------

/// Whether a tower of this height comes to an end.
pub open spec fn big_height_ends(w: World, ty: Type, op: BinOp, y: Object) -> bool {
    ty is BigNum && op is Tetration ==> in_64((w.big_whole)(y->Decimal_1)) && (w.big_whole)(y->Decimal_1) < i64::MAX
}

proof fn lemma_order(
    code: Seq<InstV>,
    w: Work,
    ty: Type,
    op: BinOp,
    l: Value,
    r: Value,
    m: Machine,
    la: int,
    ra: int,
    x: Object,
    y: Object,
) -> (t: Machine)
    requires
        is_comparison(op),
        ty is BigNum || ty is BigInt,
        within(code, compile_order(w.out, op, big_order(ty), l, r).0),
        m.next == w.out.code.len(),
        is_object(m, l, la, x),
        is_object(m, r, ra, y),
        l.id < w.out.code.len(),
        r.id < w.out.code.len(),
        of_type(ty, x),
        of_type(ty, y),
    ensures
        reaches(code, m, t),
        t.next == compile_order(w.out, op, big_order(ty), l, r).0.code.len(),
        compile_order(w.out, op, big_order(ty), l, r).1.repr == Repr::Int(1),
        compile_order(w.out, op, big_order(ty), l, r).1.id < compile_order(w.out, op, big_order(ty), l, r).0.code.len(),
        holds(t, compile_order(w.out, op, big_order(ty), l, r).1, truth(big_holds(m.around.world, op, x, y))),
        same_before(m, t, w.out.code.len() as int),
{
    reveal(compile_order);
    reveal(call2);
    reveal(const_int);
    reveal(int_test);
    reveal(give0);
    reveal(give2);
    let f = big_order(ty);
    let (o1, a) = unwrap(w.out, l);
    let (o2, b) = unwrap(o1, r);
    let (o3, c) = call2(o2, f, a, b);
    let (o4, zero) = const_int(o3, 32, 0);
    let test = match op {
        BinOp::Eq => Test::Eq,
        BinOp::Ne => Test::Ne,
        BinOp::Lt => Test::Lt,
        BinOp::Gt => Test::Gt,
        BinOp::Le => Test::Le,
        _ => Test::Ge,
    };
    lemma_emit(code, o4, Op::IntTest(test), seq![c.id, zero.id], ""@);
    lemma_emit(code, o3, Op::ConstInt(32, 0), Seq::empty(), ""@);
    lemma_emit(code, o2, Op::Call(f), seq![a.id, b.id], ""@);
    lemma_same(o1);
    own_unwrap(o1, o1, r);
    lemma_inside(code, o1, o2);
    let m1 = lemma_unwrap_runs(code, w.out, l, m);
    let m2 = lemma_unwrap_runs(code, o1, r, m1);
    lemma_then(code, m, m1, m2);
    reveal(step);
    let k = ordered(big_less(m.around.world, x, y), big_less(m.around.world, y, x));
    assert(step(code, m2) == given(m2, Cell::Number(k))) by {
        reveal(other_step);
        reveal(bignum_call);
        reveal(bigint_call);
    }
    let m3 = lemma_step(code, m, m2);
    let m4 = lemma_step(code, m, m3);
    lemma_step(code, m, m4)
}

/// An operator on two bignums or on two bigints computes what it is for: `+`, `-`, `x`, `/`, `xx` and `xxx` give
/// the sum, the left one minus the right one, the product, the left one over the right one, the left one to the
/// power of the right one and the tower, and a comparison compares the left one with the right one. A division of
/// bigints by zero and a negative exponent stop the program. No other number changes, but for a temporary that
/// takes the result.
pub proof fn big_operators_compute(
    code: Seq<InstV>,
    w: Work,
    ty: Type,
    op: BinOp,
    l: Value,
    r: Value,
    m: Machine,
    la: int,
    ra: int,
    x: Object,
    y: Object,
) -> (t: Machine)
    requires
        is_arithmetic(op) || is_comparison(op),
        ty is BigNum || ty is BigInt,
        within(code, big_binary(w, ty, op, l, r)->Ok_0.0.out),
        m.next == w.out.code.len(),
        is_object(m, l, la, x),
        is_object(m, r, ra, y),
        l.id < w.out.code.len(),
        r.id < w.out.code.len(),
        of_type(ty, x),
        of_type(ty, y),
        fits_type(w, ty, l, x),
        fits_type(w, ty, r, y),
        big_height_ends(m.around.world, ty, op, y),
    ensures
        big_binary(w, ty, op, l, r) is Ok,
        ({
            let (end, v) = big_binary(w, ty, op, l, r)->Ok_0;
            let n = w.out.code.len() as int;
            if is_comparison(op) {
                &&& reaches(code, m, t)
                &&& t.next == end.out.code.len()
                &&& v.repr == Repr::Int(1)
                &&& holds(t, v, truth(big_holds(m.around.world, op, x, y)))
                &&& same_before(m, t, n)
            } else {
                match big_meaning(m.around.world, ty, op, x, y) {
                    Some(z) => {
                        &&& reaches(code, m, t)
                        &&& t.next == end.out.code.len()
                        &&& v.repr == repr_of(ty)
                        &&& exists|a: int|
                            #[trigger] is_object(t, v, a, z) && (a >= m.around.heap.len() || a == reused(
                                w,
                                ty,
                                op,
                                l,
                                r,
                                la,
                                ra,
                            ))
                        &&& kept_but(m, t, n, reused(w, ty, op, l, r, la, ra))
                    },
                    None => stops(code, m),
                }
            }
        }),
{
    if is_comparison(op) {
        lemma_order(code, w, ty, op, l, r, m, la, ra, x, y)
    } else if ty is BigNum && op is Tetration {
        let p = ty->BigNum_0;
        let (o1, a) = unwrap(w.out, l);
        let (o2, b) = unwrap(o1, r);
        let (o3, h) = compile_bignum_tetration(o2, a, b, p);
        let end = big_binary(w, ty, op, l, r)->Ok_0.0.out;
        lemma_same(o3);
        own_wrap(o3, o3, repr_of(ty), h);
        lemma_inside(code, o3, end);
        lemma_same(o2);
        own_compile_bignum_tetration(o2, o2, a, b, p);
        lemma_inside(code, o2, o3);
        lemma_same(o1);
        own_unwrap(o1, o1, r);
        lemma_inside(code, o1, o2);
        let m1 = lemma_unwrap_runs(code, w.out, l, m);
        let m2 = lemma_unwrap_runs(code, o1, r, m1);
        lemma_then(code, m, m1, m2);
        let m3 = lemma_big_tower(
            code,
            o2,
            a,
            b,
            p,
            m2,
            la,
            ra,
            x->Decimal_0,
            x->Decimal_1,
            y->Decimal_0,
            y->Decimal_1,
        );
        lemma_then(code, m, m2, m3);
        let t = lemma_wrap_runs(code, o3, repr_of(ty), h, m3);
        lemma_then(code, m, m3, t);
        let z = big_meaning(m.around.world, ty, op, x, y)->0;
        assert(is_object(t, big_binary(w, ty, op, l, r)->Ok_0.1, m.around.heap.len() as int, z));
        t
    } else {
        let f = big_function(ty, op)->0;
        lemma_arith(code, w, ty, f, op, l, r, m, la, ra, x, y)
    }
}

} // verus!
