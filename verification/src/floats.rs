//! What `num` and `numw` operators compute when a program runs. How floats themselves are computed with is
//! left open: what is stated holds of every world.

use vstd::prelude::*;
use crate::ast::BinOp;
use crate::branching::lemma_inside;
use crate::confined::{lemma_same, own_coerce_float, own_compile_float_op, own_compile_tetration};
use crate::emit::{
    call2, coerce_float, compile_factorial, compile_float_binary, compile_float_op, compile_tetration, const_float,
    do2, emit, give0, give1, give2, load, loop_begin, loop_end, slot, store, Looping, Out,
};
use crate::fold::in_64;
use crate::ir::{InstV, Op, Repr, Rt, Test, Value};
use crate::machine::{
    given, holds, landing, lemma_emit, lemma_here, lemma_loop_again, lemma_loop_around, lemma_loop_begin,
    lemma_loop_end, lemma_loop_enter, lemma_loop_test, lemma_step, lemma_then, other_step, own_blocks, reaches,
    same_before, step, truth, within, Cell, Machine, World,
};
use crate::typing::{is_arithmetic, is_comparison, wider};

verus! {

// ---------------------------------------------------------------------------
// What the operators mean
// ---------------------------------------------------------------------------

/// A float of width `from` at the width `to`.
pub open spec fn at_width(w: World, from: u32, to: u32, x: int) -> int {
    if from == to {
        x
    } else if from < to {
        (w.widen)(to, x)
    } else {
        (w.narrow)(to, x)
    }
}

/// A tower of `height` copies of `a`.
pub open spec fn float_tower(w: World, a: int, height: int) -> int
    decreases height,
{
    if height < 2 {
        a
    } else {
        (w.power)(a, float_tower(w, a, height - 1))
    }
}

/// The product of the numbers from 1 to `n`, one after the other.
pub open spec fn float_factorial(w: World, n: int) -> int
    decreases n,
{
    if n < 2 {
        (w.numeral)("1"@)
    } else {
        (w.times)(float_factorial(w, n - 1), (w.float)(n))
    }
}

/// What an arithmetic operator gives for the left operand `a` and the right operand `b`, both floats of
/// the given width: a sum, a difference, a product or a quotient of the same width, or a power or a tower
/// at 64 bits.
pub open spec fn num_result(w: World, op: BinOp, width: u32, a: int, b: int) -> int {
    match op {
        BinOp::Add => (w.plus)(a, b),
        BinOp::Sub => (w.minus)(a, b),
        BinOp::Mul => (w.times)(a, b),
        BinOp::Div => (w.over)(a, b),
        BinOp::Pow => (w.power)(at_width(w, width, 64, a), at_width(w, width, 64, b)),
        _ => float_tower(w, at_width(w, width, 64, a), (w.whole)(at_width(w, width, 64, b))),
    }
}

/// The width of what an arithmetic operator gives.
pub open spec fn num_width(op: BinOp, width: u32) -> u32 {
    if op is Pow || op is Tetration {
        64
    } else {
        width
    }
}

/// Whether a comparison of `a` on the left with `b` on the right holds.
pub open spec fn num_holds(w: World, op: BinOp, a: int, b: int) -> bool {
    match op {
        BinOp::Eq => (w.same)(a, b),
        BinOp::Ne => (w.less)(a, b) || (w.less)(b, a),
        BinOp::Lt => (w.less)(a, b),
        BinOp::Gt => (w.less)(b, a),
        BinOp::Le => (w.less)(a, b) || (w.same)(a, b),
        BinOp::Ge => (w.less)(b, a) || (w.same)(a, b),
        _ => false,
    }
}

/// Whether a tower of this height comes to an end.
pub open spec fn height_ends(w: World, op: BinOp, width: u32, b: int) -> bool {
    op is Tetration ==> in_64((w.whole)(at_width(w, width, 64, b))) && (w.whole)(at_width(w, width, 64, b)) < i64::MAX
}

/// The value `v` is the float `x` of the given width.
pub open spec fn is_float(m: Machine, v: Value, width: u32, x: int) -> bool {
    v.repr == Repr::Float(width) && m.cells[v.id as int] == Cell::Float(x)
}

// ---------------------------------------------------------------------------
// Widths
// ---------------------------------------------------------------------------

/// A change of width gives the number at the other width.
pub proof fn float_widths_change(code: Seq<InstV>, o: Out, v: Value, from: u32, to: u32, m: Machine, x: int) -> (t: Machine)
    requires
        within(code, coerce_float(o, v, to).0),
        m.next == o.code.len(),
        is_float(m, v, from, x),
        v.id < o.code.len(),
    ensures
        within(code, o),
        o.code.len() <= coerce_float(o, v, to).0.code.len(),
        reaches(code, m, t),
        t.next == coerce_float(o, v, to).0.code.len(),
        is_float(t, coerce_float(o, v, to).1, to, at_width(m.around.world, from, to, x)),
        coerce_float(o, v, to).1.id < coerce_float(o, v, to).0.code.len(),
        same_before(m, t, o.code.len() as int),
{
    reveal(coerce_float);
    reveal(give1);
    reveal(step);
    reveal(other_step);
    lemma_here(code, m);
    if from == to {
        m
    } else {
        let op = if from < to {
            Op::FloatExtend(to)
        } else {
            Op::FloatTruncate(to)
        };
        lemma_emit(code, o, op, seq![v.id], ""@);
        lemma_step(code, m, m)
    }
}

proof fn lemma_width_prefix(code: Seq<InstV>, o: Out, v: Value, to: u32)
    requires
        within(code, coerce_float(o, v, to).0),
    ensures
        within(code, o),
        o.code.len() <= coerce_float(o, v, to).0.code.len(),
        v.id < o.code.len() ==> coerce_float(o, v, to).1.id < coerce_float(o, v, to).0.code.len(),
        v.repr is Float ==> coerce_float(o, v, to).1.repr == Repr::Float(to),
{
    lemma_same(o);
    own_coerce_float(o, o, v, to);
    lemma_inside(code, o, coerce_float(o, v, to).0);
    reveal(coerce_float);
    reveal(give1);
    reveal(emit);
}

// ---------------------------------------------------------------------------
// Loops
// ---------------------------------------------------------------------------

/// The parts of a loop on floats: the place of the result, the code before the loop, and the code of its
/// body up to its end.
pub struct LoopParts {
    pub limit: Value,
    pub result: Value,
    pub before: Out,
    pub body: Out,
    pub looping: Looping,
    pub current: Value,
    pub stored: Out,
    pub end: Out,
}

/// The parts of `xxx`.
pub open spec fn tower_parts(o: Out, base: Value, height: Value) -> LoopParts {
    let (o1, limit) = give1(o, Op::FloatToInt, height, Repr::Int(64));
    let (o2, result) = slot(o1, Repr::Float(64), "tet_result"@);
    let before = store(o2, result, base);
    let (body, looping) = loop_begin(before, 2, Test::Le, limit);
    let (o3, current) = load(body, Repr::Float(64), result);
    let (stored, next) = call2(o3, Rt::Pow, base, current);
    let end = store(stored, result, next);
    LoopParts { limit, result, before, body, looping, current, stored, end }
}

proof fn lemma_tower_parts(code: Seq<InstV>, o: Out, base: Value, height: Value)
    requires
        within(code, compile_tetration(o, base, height).0),
    ensures
        within(code, o),
        compile_tetration(o, base, height).1.repr == Repr::Float(64),
        compile_tetration(o, base, height).1.id == compile_tetration(o, base, height).0.code.len() - 1,
        ({
            let p = tower_parts(o, base, height);
            let n = o.code.len() as int;
            &&& within(code, p.before)
            &&& within(code, p.body)
            &&& within(code, p.end)
            &&& within(code, loop_end(p.end, p.looping))
            &&& code[n].op is FloatToInt && code[n].args == seq![height.id]
            &&& p.limit.id == n
            &&& code[n + 1].op is Slot
            &&& p.result.id == n + 1
            &&& code[n + 2].op is Store && code[n + 2].args == seq![p.result.id, base.id]
            &&& p.before.code.len() == n + 3
            &&& p.body.code.len() == n + 15
            &&& code[n + 15].op == Op::Load(Repr::Float(64)) && code[n + 15].args == seq![p.result.id]
            &&& code[n + 16].op == Op::Call(Rt::Pow) && code[n + 16].args == seq![base.id, (n + 15) as usize]
            &&& code[n + 17].op is Store && code[n + 17].args == seq![p.result.id, (n + 16) as usize]
            &&& p.end.code.len() == n + 18
            &&& landing_of(code, n + 8, n + 15) == n + 22
            &&& compile_tetration(o, base, height).0.code.len() == n + 24
            &&& code[n + 22].op is At
            &&& code[n + 23].op == Op::Load(Repr::Float(64)) && code[n + 23].args == seq![p.result.id]
        }),
{
    reveal(compile_tetration);
    reveal(slot);
    reveal(store);
    reveal(load);
    reveal(call2);
    reveal(do2);
    reveal(give0);
    reveal(give1);
    let p = tower_parts(o, base, height);
    let (o1, limit) = give1(o, Op::FloatToInt, height, Repr::Int(64));
    let (o2, result) = slot(o1, Repr::Float(64), "tet_result"@);
    let (o3, current) = load(p.body, Repr::Float(64), result);
    let (stored, next) = call2(o3, Rt::Pow, base, current);
    let o11 = loop_end(p.end, p.looping);
    lemma_emit(code, o11, Op::Load(Repr::Float(64)), seq![result.id], ""@);
    lemma_loop_end(code, p.end, p.looping);
    lemma_emit(code, p.stored, Op::Store, seq![result.id, next.id], ""@);
    lemma_emit(code, o3, Op::Call(Rt::Pow), seq![base.id, current.id], ""@);
    lemma_emit(code, p.body, Op::Load(Repr::Float(64)), seq![result.id], ""@);
    lemma_loop_begin(code, p.before, 2, Test::Le, limit);
    lemma_emit(code, o2, Op::Store, seq![result.id, base.id], ""@);
    lemma_emit(code, o1, Op::Slot(Repr::Float(64)), Seq::empty(), "tet_result"@);
    lemma_emit(code, o, Op::FloatToInt, seq![height.id], ""@);
    assert(own_blocks(p.body, p.end)) by {
        assert forall|i: int| p.body.code.len() <= i < p.end.code.len() && (#[trigger] p.end.code[i]).op is At
            implies p.end.code[i].args[0] >= p.body.code.len() by {
            assert(p.end.code[i] == code[i]);
        }
    }
    lemma_loop_around(code, p.before, 2, Test::Le, limit, p.end);
}

/// Where the code of a block starts, looked for from `i` on.
pub open spec fn landing_of(code: Seq<InstV>, b: int, i: int) -> int {
    landing(code, b, i)
}

/// The loop of a tower, from its test on, when it is `i - 1` high.
proof fn lemma_tower_loop(
    code: Seq<InstV>,
    o: Out,
    base: Value,
    height: Value,
    m: Machine,
    a: int,
    h: int,
    i: int,
) -> (t: Machine)
    requires
        within(code, compile_tetration(o, base, height).0),
        m.next == o.code.len() + 10,
        m.cells[base.id as int] == Cell::Float(a),
        holds(m, tower_parts(o, base, height).limit, h),
        base.id < o.code.len(),
        in_64(h),
        h < i64::MAX,
        2 <= i,
        i == 2 || i <= h + 1,
        m.memory[o.code.len() as int + 3] == i,
        m.stored[o.code.len() as int + 1] == Cell::Float(float_tower(m.around.world, a, i - 1)),
    ensures
        reaches(code, m, t),
        t.next == compile_tetration(o, base, height).0.code.len(),
        t.cells[compile_tetration(o, base, height).1.id as int] == Cell::Float(float_tower(m.around.world, a, h)),
        same_before(m, t, o.code.len() as int),
    decreases h + 1 - i,
{
    lemma_tower_parts(code, o, base, height);
    let p = tower_parts(o, base, height);
    let w = m.around.world;
    lemma_loop_begin(code, p.before, 2, Test::Le, p.limit);
    lemma_loop_end(code, p.end, p.looping);
    let n = o.code.len() as int;
    let m1 = lemma_loop_test(code, p.before, 2, Test::Le, p.limit, m, i, h);
    reveal(step);
    if i > h {
        let m2 = lemma_step(code, m, m1);
        lemma_step(code, m, m2)
    } else {
        let m2 = lemma_step(code, m, m1);
        assert(step(code, m2) is On) by {
            reveal(other_step);
        }
        let m3 = lemma_step(code, m, m2);
        assert(m3.cells[n + 16] == Cell::Float((w.power)(a, float_tower(w, a, i - 1)))) by {
            reveal(other_step);
        }
        assert(m3.next == n + 17 && m3.memory == m2.memory && m3.stored == m2.stored && m3.around == m2.around
            && m3.cells == m2.cells.insert(n + 16, m3.cells[n + 16])) by {
            reveal(other_step);
        }
        let m4 = lemma_step(code, m, m3);
        assert(holds(m4, p.looping.counter, i));
        let m5 = lemma_loop_again(code, p.end, p.looping, m4, i, n + 10);
        lemma_then(code, m, m4, m5);
        let t = lemma_tower_loop(code, o, base, height, m5, a, h, i + 1);
        lemma_then(code, m, m5, t);
        assert(same_before(m, t, n));
        t
    }
}

/// `xxx` gives the tower of as many copies of the left operand as the right one says.
pub proof fn float_towers_compute(
    code: Seq<InstV>,
    o: Out,
    base: Value,
    height: Value,
    m: Machine,
    a: int,
    b: int,
) -> (t: Machine)
    requires
        within(code, compile_tetration(o, base, height).0),
        m.next == o.code.len(),
        m.cells[base.id as int] == Cell::Float(a),
        m.cells[height.id as int] == Cell::Float(b),
        base.id < o.code.len(),
        height.id < o.code.len(),
        in_64((m.around.world.whole)(b)),
        (m.around.world.whole)(b) < i64::MAX,
    ensures
        within(code, o),
        reaches(code, m, t),
        t.next == compile_tetration(o, base, height).0.code.len(),
        is_float(
            t,
            compile_tetration(o, base, height).1,
            64,
            float_tower(m.around.world, a, (m.around.world.whole)(b)),
        ),
        compile_tetration(o, base, height).1.id < compile_tetration(o, base, height).0.code.len(),
        same_before(m, t, o.code.len() as int),
{
    lemma_tower_parts(code, o, base, height);
    let p = tower_parts(o, base, height);
    let h = (m.around.world.whole)(b);
    let n = o.code.len() as int;
    reveal(step);
    lemma_here(code, m);
    assert(step(code, m) is On) by {
        reveal(other_step);
    }
    let m1 = lemma_step(code, m, m);
    assert(m1 == (Machine { next: m.next + 1, cells: m.cells.insert(n, Cell::Number(h)), ..m })) by {
        reveal(other_step);
    }
    let m2 = lemma_step(code, m, m1);
    let m3 = lemma_step(code, m, m2);
    let m4 = lemma_loop_enter(code, p.before, 2, Test::Le, p.limit, m3);
    lemma_then(code, m, m3, m4);
    assert(float_tower(m.around.world, a, 1) == a);
    let t = lemma_tower_loop(code, o, base, height, m4, a, h, 2);
    lemma_then(code, m, m4, t);
    t
}

/// The parts of `!`.
pub open spec fn factorial_parts(o: Out, v: Value) -> LoopParts {
    let (o1, limit) = give1(o, Op::FloatToInt, v, Repr::Int(64));
    let (o2, result) = slot(o1, Repr::Float(64), "fact_result"@);
    let (o3, one) = const_float(o2, "1"@);
    let before = store(o3, result, one);
    let (body, looping) = loop_begin(before, 2, Test::Le, limit);
    let (o4, current) = load(body, Repr::Float(64), result);
    let (o5, factor) = give1(o4, Op::IntToFloat, looping.counter, Repr::Float(64));
    let (stored, next) = give2(o5, Op::FloatMul, current, factor, Repr::Float(64));
    let end = store(stored, result, next);
    LoopParts { limit, result, before, body, looping, current, stored, end }
}

proof fn lemma_factorial_parts(code: Seq<InstV>, o: Out, v: Value)
    requires
        within(code, compile_factorial(o, v).0),
    ensures
        within(code, o),
        compile_factorial(o, v).1.repr == Repr::Float(64),
        compile_factorial(o, v).1.id == compile_factorial(o, v).0.code.len() - 1,
        ({
            let p = factorial_parts(o, v);
            let n = o.code.len() as int;
            &&& within(code, p.before)
            &&& within(code, p.body)
            &&& within(code, p.end)
            &&& within(code, loop_end(p.end, p.looping))
            &&& code[n].op is FloatToInt && code[n].args == seq![v.id]
            &&& p.limit.id == n
            &&& code[n + 1].op is Slot
            &&& p.result.id == n + 1
            &&& code[n + 2].op is ConstFloat && code[n + 2].text == "1"@
            &&& code[n + 3].op is Store && code[n + 3].args == seq![p.result.id, (n + 2) as usize]
            &&& p.before.code.len() == n + 4
            &&& p.body.code.len() == n + 16
            &&& code[n + 16].op == Op::Load(Repr::Float(64)) && code[n + 16].args == seq![p.result.id]
            &&& code[n + 17].op is IntToFloat && code[n + 17].args == seq![(n + 12) as usize]
            &&& code[n + 18].op is FloatMul && code[n + 18].args == seq![(n + 16) as usize, (n + 17) as usize]
            &&& code[n + 19].op is Store && code[n + 19].args == seq![p.result.id, (n + 18) as usize]
            &&& p.end.code.len() == n + 20
            &&& landing_of(code, n + 9, n + 16) == n + 24
            &&& compile_factorial(o, v).0.code.len() == n + 26
            &&& code[n + 24].op is At
            &&& code[n + 25].op == Op::Load(Repr::Float(64)) && code[n + 25].args == seq![p.result.id]
        }),
{
    reveal(compile_factorial);
    reveal(slot);
    reveal(store);
    reveal(load);
    reveal(const_float);
    reveal(do2);
    reveal(give0);
    reveal(give1);
    reveal(give2);
    let p = factorial_parts(o, v);
    let (o1, limit) = give1(o, Op::FloatToInt, v, Repr::Int(64));
    let (o2, result) = slot(o1, Repr::Float(64), "fact_result"@);
    let (o3, one) = const_float(o2, "1"@);
    let (o4, current) = load(p.body, Repr::Float(64), result);
    let (o5, factor) = give1(o4, Op::IntToFloat, p.looping.counter, Repr::Float(64));
    let (stored, next) = give2(o5, Op::FloatMul, current, factor, Repr::Float(64));
    let o11 = loop_end(p.end, p.looping);
    lemma_emit(code, o11, Op::Load(Repr::Float(64)), seq![result.id], ""@);
    lemma_loop_end(code, p.end, p.looping);
    lemma_emit(code, p.stored, Op::Store, seq![result.id, next.id], ""@);
    lemma_emit(code, o5, Op::FloatMul, seq![current.id, factor.id], ""@);
    lemma_emit(code, o4, Op::IntToFloat, seq![p.looping.counter.id], ""@);
    lemma_emit(code, p.body, Op::Load(Repr::Float(64)), seq![result.id], ""@);
    lemma_loop_begin(code, p.before, 2, Test::Le, limit);
    lemma_emit(code, o3, Op::Store, seq![result.id, one.id], ""@);
    lemma_emit(code, o2, Op::ConstFloat, Seq::empty(), "1"@);
    lemma_emit(code, o1, Op::Slot(Repr::Float(64)), Seq::empty(), "fact_result"@);
    lemma_emit(code, o, Op::FloatToInt, seq![v.id], ""@);
    assert(own_blocks(p.body, p.end)) by {
        assert forall|i: int| p.body.code.len() <= i < p.end.code.len() && (#[trigger] p.end.code[i]).op is At
            implies p.end.code[i].args[0] >= p.body.code.len() by {
            assert(p.end.code[i] == code[i]);
        }
    }
    lemma_loop_around(code, p.before, 2, Test::Le, limit, p.end);
}

/// The loop of a factorial, from its test on, when the numbers below `i` have been multiplied.
proof fn lemma_factorial_loop(code: Seq<InstV>, o: Out, v: Value, m: Machine, h: int, i: int) -> (t: Machine)
    requires
        within(code, compile_factorial(o, v).0),
        m.next == o.code.len() + 11,
        holds(m, factorial_parts(o, v).limit, h),
        in_64(h),
        h < i64::MAX,
        2 <= i,
        i == 2 || i <= h + 1,
        m.memory[o.code.len() as int + 4] == i,
        m.stored[o.code.len() as int + 1] == Cell::Float(float_factorial(m.around.world, i - 1)),
    ensures
        reaches(code, m, t),
        t.next == compile_factorial(o, v).0.code.len(),
        t.cells[compile_factorial(o, v).1.id as int] == Cell::Float(float_factorial(m.around.world, h)),
        same_before(m, t, o.code.len() as int),
    decreases h + 1 - i,
{
    lemma_factorial_parts(code, o, v);
    let p = factorial_parts(o, v);
    let w = m.around.world;
    lemma_loop_begin(code, p.before, 2, Test::Le, p.limit);
    lemma_loop_end(code, p.end, p.looping);
    let n = o.code.len() as int;
    let m1 = lemma_loop_test(code, p.before, 2, Test::Le, p.limit, m, i, h);
    reveal(step);
    if i > h {
        let m2 = lemma_step(code, m, m1);
        lemma_step(code, m, m2)
    } else {
        let m2 = lemma_step(code, m, m1);
        let c3 = Cell::Float((w.float)(i));
        assert(step(code, m2) == given(m2, c3)) by {
            reveal(other_step);
        }
        let m3 = lemma_step(code, m, m2);
        let c4 = Cell::Float((w.times)(float_factorial(w, i - 1), (w.float)(i)));
        assert(step(code, m3) == given(m3, c4)) by {
            reveal(other_step);
        }
        let m4 = lemma_step(code, m, m3);
        let m5 = lemma_step(code, m, m4);
        assert(holds(m5, p.looping.counter, i));
        let m6 = lemma_loop_again(code, p.end, p.looping, m5, i, n + 11);
        lemma_then(code, m, m5, m6);
        let t = lemma_factorial_loop(code, o, v, m6, h, i + 1);
        lemma_then(code, m, m6, t);
        assert(same_before(m, t, n));
        t
    }
}

/// `!` gives the product of the numbers up to its operand.
pub proof fn float_factorials_compute(code: Seq<InstV>, o: Out, v: Value, m: Machine, a: int) -> (t: Machine)
    requires
        within(code, compile_factorial(o, v).0),
        m.next == o.code.len(),
        m.cells[v.id as int] == Cell::Float(a),
        v.id < o.code.len(),
        in_64((m.around.world.whole)(a)),
        (m.around.world.whole)(a) < i64::MAX,
    ensures
        within(code, o),
        reaches(code, m, t),
        t.next == compile_factorial(o, v).0.code.len(),
        is_float(t, compile_factorial(o, v).1, 64, float_factorial(m.around.world, (m.around.world.whole)(a))),
        compile_factorial(o, v).1.id < compile_factorial(o, v).0.code.len(),
        same_before(m, t, o.code.len() as int),
{
    lemma_factorial_parts(code, o, v);
    let p = factorial_parts(o, v);
    let h = (m.around.world.whole)(a);
    let n = o.code.len() as int;
    reveal(step);
    lemma_here(code, m);
    assert(step(code, m) == given(m, Cell::Number(h))) by {
        reveal(other_step);
    }
    let m1 = lemma_step(code, m, m);
    let m2 = lemma_step(code, m, m1);
    assert(step(code, m2) == given(m2, Cell::Float((m.around.world.numeral)("1"@)))) by {
        reveal(other_step);
    }
    let m3 = lemma_step(code, m, m2);
    let m4 = lemma_step(code, m, m3);
    let m5 = lemma_loop_enter(code, p.before, 2, Test::Le, p.limit, m4);
    lemma_then(code, m, m4, m5);
    assert(float_factorial(m.around.world, 1) == (m.around.world.numeral)("1"@));
    let t = lemma_factorial_loop(code, o, v, m5, h, 2);
    lemma_then(code, m, m5, t);
    t
}

// ---------------------------------------------------------------------------
// Operators
// ---------------------------------------------------------------------------

/// The value that an operator on two floats of width `width` gives.
pub open spec fn num_gives(t: Machine, v: Value, op: BinOp, width: u32, a: int, b: int) -> bool {
    if is_arithmetic(op) {
        is_float(t, v, num_width(op, width), num_result(t.around.world, op, width, a, b))
    } else {
        v.repr == Repr::Int(1) && holds(t, v, truth(num_holds(t.around.world, op, a, b)))
    }
}

proof fn lemma_op_prefix(code: Seq<InstV>, o: Out, op: BinOp, l: Value, r: Value)
    requires
        within(code, compile_float_op(o, op, l, r)->Ok_0.0),
        compile_float_op(o, op, l, r) is Ok,
    ensures
        within(code, o),
        o.code.len() <= compile_float_op(o, op, l, r)->Ok_0.0.code.len(),
{
    lemma_same(o);
    own_compile_float_op(o, o, op, l, r);
    lemma_inside(code, o, compile_float_op(o, op, l, r)->Ok_0.0);
}

proof fn lemma_op(
    code: Seq<InstV>,
    o: Out,
    op: BinOp,
    l: Value,
    r: Value,
    width: u32,
    m: Machine,
    a: int,
    b: int,
) -> (t: Machine)
    requires
        is_arithmetic(op) || is_comparison(op),
        within(code, compile_float_op(o, op, l, r)->Ok_0.0),
        m.next == o.code.len(),
        is_float(m, l, width, a),
        is_float(m, r, width, b),
        l.id < o.code.len(),
        r.id < o.code.len(),
        height_ends(m.around.world, op, width, b),
    ensures
        compile_float_op(o, op, l, r) is Ok,
        ({
            let (end, v) = compile_float_op(o, op, l, r)->Ok_0;
            &&& within(code, o)
            &&& reaches(code, m, t)
            &&& t.next == end.code.len()
            &&& num_gives(t, v, op, width, a, b)
            &&& v.id < end.code.len()
            &&& same_before(m, t, o.code.len() as int)
        }),
{
    reveal(compile_float_op);
    reveal(give2);
    reveal(call2);
    reveal(step);
    lemma_here(code, m);
    if op is Pow || op is Tetration {
        let (o1, x) = coerce_float(o, l, 64);
        let (o2, y) = coerce_float(o1, r, 64);
        if op is Pow {
            lemma_emit(code, o2, Op::Call(Rt::Pow), seq![x.id, y.id], ""@);
        } else {
            lemma_same(o2);
            own_compile_tetration(o2, o2, x, y);
            lemma_inside(code, o2, compile_tetration(o2, x, y).0);
        }
        lemma_width_prefix(code, o1, r, 64);
        let m1 = float_widths_change(code, o, l, width, 64, m, a);
        let m2 = float_widths_change(code, o1, r, width, 64, m1, b);
        lemma_then(code, m, m1, m2);
        assert(m2.cells[x.id as int] == m1.cells[x.id as int]);
        if op is Pow {
            assert(step(code, m2) is On) by {
                reveal(other_step);
            }
            let t = lemma_step(code, m, m2);
            assert(num_gives(t, compile_float_op(o, op, l, r)->Ok_0.1, op, width, a, b) && same_before(m2, t, o2.code.len() as int)
                && t.next == o2.code.len() + 1) by {
                reveal(other_step);
            }
            t
        } else {
            let t = float_towers_compute(
                code,
                o2,
                x,
                y,
                m2,
                at_width(m.around.world, width, 64, a),
                at_width(m.around.world, width, 64, b),
            );
            lemma_then(code, m, m2, t);
            t
        }
    } else {
        let inst = match op {
            BinOp::Add => Op::FloatAdd,
            BinOp::Sub => Op::FloatSub,
            BinOp::Mul => Op::FloatMul,
            BinOp::Div => Op::FloatDiv,
            BinOp::Eq => Op::FloatTest(Test::Eq),
            BinOp::Ne => Op::FloatTest(Test::Ne),
            BinOp::Lt => Op::FloatTest(Test::Lt),
            BinOp::Gt => Op::FloatTest(Test::Gt),
            BinOp::Le => Op::FloatTest(Test::Le),
            _ => Op::FloatTest(Test::Ge),
        };
        lemma_emit(code, o, inst, seq![l.id, r.id], ""@);
        assert(step(code, m) is On) by {
            reveal(other_step);
        }
        let t = lemma_step(code, m, m);
        assert(num_gives(t, compile_float_op(o, op, l, r)->Ok_0.1, op, width, a, b) && same_before(m, t, o.code.len() as int)
            && t.next == o.code.len() + 1) by {
            reveal(other_step);
        }
        t
    }
}

/// An operator on two nums computes what it is for: the left operand and the right operand are brought to
/// the larger of their widths, and then `+` gives their sum, `-` the left one minus the right one, `x`
/// their product, `/` the left one over the right one, `xx` the left one to the power of the right one,
/// `xxx` a tower, and a comparison compares the left one with the right one. Everything else stays as it
/// was.
pub proof fn num_operators_compute(
    code: Seq<InstV>,
    o: Out,
    op: BinOp,
    l: Value,
    r: Value,
    lw: u32,
    rw: u32,
    m: Machine,
    a: int,
    b: int,
) -> (t: Machine)
    requires
        is_arithmetic(op) || is_comparison(op),
        within(code, compile_float_binary(o, op, l, r)->Ok_0.0),
        m.next == o.code.len(),
        is_float(m, l, lw, a),
        is_float(m, r, rw, b),
        l.id < o.code.len(),
        r.id < o.code.len(),
        height_ends(m.around.world, op, wider(lw, rw), at_width(m.around.world, rw, wider(lw, rw), b)),
    ensures
        compile_float_binary(o, op, l, r) is Ok,
        ({
            let (end, v) = compile_float_binary(o, op, l, r)->Ok_0;
            let width = wider(lw, rw);
            &&& within(code, o)
            &&& reaches(code, m, t)
            &&& t.next == end.code.len()
            &&& num_gives(
                t,
                v,
                op,
                width,
                at_width(m.around.world, lw, width, a),
                at_width(m.around.world, rw, width, b),
            )
            &&& v.id < end.code.len()
            &&& same_before(m, t, o.code.len() as int)
        }),
{
    reveal(compile_float_binary);
    let width = wider(lw, rw);
    let (o1, x) = coerce_float(o, l, width);
    let (o2, y) = coerce_float(o1, r, width);
    assert(compile_float_op(o2, op, x, y) is Ok) by {
        reveal(compile_float_op);
    }
    lemma_op_prefix(code, o2, op, x, y);
    lemma_width_prefix(code, o1, r, width);
    let m1 = float_widths_change(code, o, l, lw, width, m, a);
    let m2 = float_widths_change(code, o1, r, rw, width, m1, b);
    lemma_then(code, m, m1, m2);
    assert(m2.cells[x.id as int] == m1.cells[x.id as int]);
    let t = lemma_op(
        code,
        o2,
        op,
        x,
        y,
        width,
        m2,
        at_width(m.around.world, lw, width, a),
        at_width(m.around.world, rw, width, b),
    );
    lemma_then(code, m, m2, t);
    t
}

} // verus!
