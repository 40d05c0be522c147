//! What expressions of numbers and truth values mean, and that their code computes it.

use vstd::prelude::*;
use crate::ast::{BinOp, ExprV, Type, UnOp};
use crate::branching::lemma_inside;
use crate::confined::{
    lemma_same, own_coerce_int_width, own_coerce_to_type, own_compile_factorial, own_compile_int_binary,
    own_compile_int_factorial, own_compile_int_neg,
};
use crate::control::{own_combine, own_combine_one, own_expr, own_int, own_literal_with, own_pair};
use crate::emit::{
    coerce_float, coerce_int_width, coerce_to_type, compile_binary_int_op, compile_bool_binary, compile_factorial,
    compile_int_binary, compile_int_neg, const_float, const_int, crash_if, emit, give0, give1, give2, int_test, load,
    Out,
};
use crate::floats::{
    at_width, float_factorial, float_factorials_compute, float_widths_change, height_ends, is_float, num_holds,
    num_operators_compute, num_result, num_width,
};
use crate::fold::{fold_values, in_64, Fold};
use crate::ir::{repr_of, InstV, Op, Repr, Test, Value};
use crate::lower::{
    combine, combine_one, int_literal, literal_with, lower_expr, lower_for, lower_int, lower_pair, precision_of,
    spreads_over, variable, Scope, Work,
};
use crate::machine::{
    comes_to_an_end, factorial_of, holds, int_arithmetic_is_exact, int_factorial_is_exact, int_negation_is_exact,
    int_widths_keep_the_number, lemma_binary_prefix, lemma_emit, lemma_factorial_parts, lemma_here, lemma_step,
    lemma_then, lemma_then_stops, lemma_width_prefix, other_step, reaches, same_before, step, stops, truth, within,
    Cell, Machine, World,
};
use crate::numeral::{is_whole, whole_value};
use crate::scoping::lemma_find_binding;
use crate::typing::{fits, is_arithmetic, is_comparison, wider};
use crate::wellformed::int_width;

verus! {

// ---------------------------------------------------------------------------
// Meaning
// ---------------------------------------------------------------------------

/// A number or a truth value.
pub enum Val {
    /// A float of a width.
    Num(u32, int),
    Bool(bool),
    /// A whole number of a width.
    Int(u32, int),
}

/// What comes of an expression.
pub enum Outcome {
    Got(Val),
    /// The program stops.
    Stops,
    /// This is not described here.
    Unknown,
}

/// The value of a variable.
pub open spec fn read_var(sc: Scope, m: Machine, name: Seq<char>, ty: Type) -> Outcome {
    match variable(sc.bindings, name, ty) {
        None => Outcome::Unknown,
        Some(k) => {
            let p = sc.bindings[k].place.id as int;
            match ty {
                Type::Num(w) | Type::NumW(w) => match m.stored[p] {
                    Cell::Float(x) => Outcome::Got(Val::Num(w, x)),
                    _ => Outcome::Unknown,
                },
                Type::Bool => if m.memory[p] == 0 || m.memory[p] == 1 {
                    Outcome::Got(Val::Bool(m.memory[p] == 1))
                } else {
                    Outcome::Unknown
                },
                Type::Int(w) => if int_width(w) && fits(m.memory[p], w) {
                    Outcome::Got(Val::Int(w, m.memory[p]))
                } else {
                    Outcome::Unknown
                },
                _ => Outcome::Unknown,
            }
        },
    }
}

/// A whole number, if it fits in a width. The program stops if it does not.
pub open spec fn whole_at(width: u32, v: int) -> Outcome {
    if fits(v, width) {
        Outcome::Got(Val::Int(width, v))
    } else {
        Outcome::Stops
    }
}

/// What an operator gives for the left operand `x` and the right operand `y`.
pub open spec fn apply_two(w: World, op: BinOp, x: Val, y: Val) -> Outcome {
    match (x, y) {
        (Val::Num(lw, a), Val::Num(rw, b)) => {
            let width = wider(lw, rw);
            let l = at_width(w, lw, width, a);
            let r = at_width(w, rw, width, b);
            if !height_ends(w, op, width, r) {
                Outcome::Unknown
            } else if is_arithmetic(op) {
                Outcome::Got(Val::Num(num_width(op, width), num_result(w, op, width, l, r)))
            } else if is_comparison(op) {
                Outcome::Got(Val::Bool(num_holds(w, op, l, r)))
            } else {
                Outcome::Unknown
            }
        },
        (Val::Bool(a), Val::Bool(b)) => match op {
            BinOp::And => Outcome::Got(Val::Bool(a && b)),
            BinOp::Or => Outcome::Got(Val::Bool(a || b)),
            BinOp::Eq => Outcome::Got(Val::Bool(a == b)),
            BinOp::Ne => Outcome::Got(Val::Bool(a != b)),
            _ => Outcome::Unknown,
        },
        (Val::Int(lw, a), Val::Int(rw, b)) => if is_arithmetic(op) {
            if comes_to_an_end(op, a, b) {
                match fold_values(op, a, b) {
                    Fold::Known(z) => whole_at(wider(lw, rw), z),
                    _ => Outcome::Stops,
                }
            } else {
                Outcome::Unknown
            }
        } else {
            match op {
                BinOp::Eq => Outcome::Got(Val::Bool(a == b)),
                BinOp::Ne => Outcome::Got(Val::Bool(a != b)),
                BinOp::Lt => Outcome::Got(Val::Bool(a < b)),
                BinOp::Gt => Outcome::Got(Val::Bool(a > b)),
                BinOp::Le => Outcome::Got(Val::Bool(a <= b)),
                BinOp::Ge => Outcome::Got(Val::Bool(a >= b)),
                _ => Outcome::Unknown,
            }
        },
        _ => Outcome::Unknown,
    }
}

/// What an operator gives for its one operand.
pub open spec fn apply_one(w: World, op: UnOp, x: Val) -> Outcome {
    match (op, x) {
        (UnOp::Neg, Val::Num(width, a)) => Outcome::Got(Val::Num(width, (w.negative)(a))),
        (UnOp::Neg, Val::Int(width, a)) => whole_at(width, -a),
        (UnOp::Not, Val::Bool(b)) => Outcome::Got(Val::Bool(!b)),
        (UnOp::Factorial, Val::Num(width, a)) => {
            let n = (w.whole)(at_width(w, width, 64, a));
            if in_64(n) && n < i64::MAX {
                Outcome::Got(Val::Num(64, float_factorial(w, n)))
            } else {
                Outcome::Unknown
            }
        },
        (UnOp::Factorial, Val::Int(_, a)) => whole_at(64, factorial_of(a)),
        _ => Outcome::Unknown,
    }
}

/// A literal as a whole number of a width.
pub open spec fn whole_literal(text: Seq<char>, width: u32) -> Outcome {
    if is_whole(text) && in_64(whole_value(text) as int) {
        whole_at(width, whole_value(text) as int)
    } else {
        Outcome::Unknown
    }
}

/// A literal beside the operand `other`: a whole number beside a whole number, or else a float.
pub open spec fn literal_beside_value(w: World, text: Seq<char>, other: Val) -> Outcome {
    match other {
        Val::Int(width, _) => whole_literal(text, width),
        _ => Outcome::Got(Val::Num(64, (w.numeral)(text))),
    }
}

/// The value of an expression.
pub open spec fn eval(sc: Scope, m: Machine, e: ExprV) -> Outcome
    decreases e,
{
    let w = m.around.world;
    match e {
        ExprV::Num(text) => Outcome::Got(Val::Num(64, (w.numeral)(text))),
        ExprV::Bool(b) => Outcome::Got(Val::Bool(b)),
        ExprV::Var(name, ty) => read_var(sc, m, name, ty),
        ExprV::Unary(op, inner) => match eval(sc, m, *inner) {
            Outcome::Got(x) => apply_one(w, op, x),
            other => other,
        },
        ExprV::Binary(_, BinOp::Concat, _) => Outcome::Unknown,
        ExprV::Binary(l, op, r) => match (*l, *r) {
            (ExprV::Num(a), ExprV::Num(b)) => apply_two(
                w,
                op,
                Val::Num(64, (w.numeral)(a)),
                Val::Num(64, (w.numeral)(b)),
            ),
            (ExprV::Num(text), right) => match eval(sc, m, right) {
                Outcome::Got(y) => match literal_beside_value(w, text, y) {
                    Outcome::Got(x) => apply_two(w, op, x, y),
                    other => other,
                },
                other => other,
            },
            (left, ExprV::Num(text)) => match eval(sc, m, left) {
                Outcome::Got(x) => match literal_beside_value(w, text, x) {
                    Outcome::Got(y) => apply_two(w, op, x, y),
                    other => other,
                },
                other => other,
            },
            (left, right) => match eval(sc, m, left) {
                Outcome::Got(x) => match eval(sc, m, right) {
                    Outcome::Got(y) => apply_two(w, op, x, y),
                    other => other,
                },
                other => other,
            },
        },
        _ => Outcome::Unknown,
    }
}

/// The value of an expression that has to be an `int`: its literals are whole numbers of 64 bits.
pub open spec fn eval_int(sc: Scope, m: Machine, e: ExprV) -> Outcome
    decreases e,
{
    let w = m.around.world;
    match e {
        ExprV::Num(text) => whole_literal(text, 64),
        ExprV::Unary(op, inner) => match eval_int(sc, m, *inner) {
            Outcome::Got(Val::Int(a, x)) => apply_one(w, op, Val::Int(a, x)),
            Outcome::Stops => Outcome::Stops,
            _ => Outcome::Unknown,
        },
        ExprV::Binary(l, op, r) => if !is_arithmetic(op) {
            Outcome::Unknown
        } else {
            match eval_int(sc, m, *l) {
                Outcome::Got(Val::Int(a, x)) => match eval_int(sc, m, *r) {
                    Outcome::Got(Val::Int(b, y)) => apply_two(w, op, Val::Int(a, x), Val::Int(b, y)),
                    Outcome::Stops => Outcome::Stops,
                    _ => Outcome::Unknown,
                },
                Outcome::Stops => Outcome::Stops,
                _ => Outcome::Unknown,
            }
        },
        _ => eval(sc, m, e),
    }
}

/// A value as it is stored, passed or returned as `ty`.
pub open spec fn converted(w: World, v: Val, ty: Type) -> Outcome {
    match (v, ty) {
        (Val::Num(a, x), Type::Num(b)) => Outcome::Got(Val::Num(b, at_width(w, a, b, x))),
        (Val::Num(a, x), Type::NumW(b)) => Outcome::Got(Val::Num(b, at_width(w, a, b, x))),
        (Val::Bool(x), Type::Bool) => Outcome::Got(Val::Bool(x)),
        (Val::Int(_, x), Type::Int(b)) => if int_width(b) {
            whole_at(b, x)
        } else {
            Outcome::Unknown
        },
        _ => Outcome::Unknown,
    }
}

/// The value of an expression as it is stored, passed or returned as `ty`.
pub open spec fn eval_for(sc: Scope, m: Machine, e: ExprV, ty: Type) -> Outcome {
    let v = if ty is Int && spreads_over(e) {
        eval_int(sc, m, e)
    } else {
        eval(sc, m, e)
    };
    match v {
        Outcome::Got(x) => converted(m.around.world, x, ty),
        other => other,
    }
}

// ---------------------------------------------------------------------------
// Code
// ---------------------------------------------------------------------------

/// The value `v` of the code is the value `x`.
pub open spec fn represents(m: Machine, v: Value, x: Val) -> bool {
    match x {
        Val::Num(w, a) => is_float(m, v, w, a),
        Val::Bool(b) => v.repr == Repr::Int(1) && holds(m, v, truth(b)),
        Val::Int(w, a) => v.repr == Repr::Int(w) && int_width(w) && holds(m, v, a) && fits(a, w),
    }
}

/// The places of the variables come before place `n`.
pub open spec fn places_before(sc: Scope, n: int) -> bool {
    forall|k: int| 0 <= k < sc.bindings.len() ==> (#[trigger] sc.bindings[k]).place.id < n
}

/// The code from `o` to `end`, run from `m`, does what the outcome says: it gives the value in `v` and
/// leaves the rest as it was, or stops the program.
pub open spec fn gives(code: Seq<InstV>, m: Machine, t: Machine, o: Out, end: Out, v: Value, r: Outcome) -> bool {
    match r {
        Outcome::Got(x) => {
            &&& reaches(code, m, t)
            &&& t.next == end.code.len()
            &&& represents(t, v, x)
            &&& v.id < end.code.len()
            &&& same_before(m, t, o.code.len() as int)
        },
        Outcome::Stops => stops(code, m),
        Outcome::Unknown => true,
    }
}

/// What an expression means does not depend on what was computed after its variables were stored.
proof fn lemma_eval_same(sc: Scope, m: Machine, t: Machine, e: ExprV, n: int)
    requires
        same_before(m, t, n),
        places_before(sc, n),
    ensures
        eval(sc, t, e) == eval(sc, m, e),
        eval_int(sc, t, e) == eval_int(sc, m, e),
    decreases e,
{
    match e {
        ExprV::Var(name, ty) => {
            lemma_find_binding(sc.bindings, name, ty, false, sc.bindings.len() as int);
        },
        ExprV::Unary(op, inner) => lemma_eval_same(sc, m, t, *inner, n),
        ExprV::Binary(l, op, r) => {
            lemma_eval_same(sc, m, t, *l, n);
            lemma_eval_same(sc, m, t, *r, n);
        },
        _ => {},
    }
}

proof fn lemma_constant(code: Seq<InstV>, o: Out, op: Op, text: Seq<char>, m: Machine, c: Cell) -> (t: Machine)
    requires
        within(code, emit(o, op, Seq::empty(), text)),
        m.next == o.code.len(),
        op is ConstFloat && c == Cell::Float((m.around.world.numeral)(text)) || (op is ConstInt && c == Cell::Number(
            op->ConstInt_1 as int,
        )),
    ensures
        within(code, o),
        reaches(code, m, t),
        t == (Machine { next: m.next + 1, cells: m.cells.insert(m.next, c), ..m }),
        emit(o, op, Seq::empty(), text).code.len() == o.code.len() + 1,
{
    lemma_emit(code, o, op, Seq::empty(), text);
    reveal(step);
    reveal(other_step);
    lemma_here(code, m);
    lemma_step(code, m, m)
}

/// A comparison of two whole numbers.
proof fn lemma_int_comparison(
    code: Seq<InstV>,
    o: Out,
    op: BinOp,
    l: Value,
    r: Value,
    m: Machine,
    x: Val,
    y: Val,
) -> (t: Machine)
    requires
        is_comparison(op),
        x is Int,
        y is Int,
        within(code, compile_int_binary(o, op, l, r)->Ok_0.0),
        m.next == o.code.len(),
        represents(m, l, x),
        represents(m, r, y),
        l.id < o.code.len(),
        r.id < o.code.len(),
    ensures
        compile_int_binary(o, op, l, r) matches Ok((end, v)) && gives(
            code,
            m,
            t,
            o,
            end,
            v,
            apply_two(m.around.world, op, x, y),
        ),
{
    reveal(compile_int_binary);
    reveal(compile_binary_int_op);
    reveal(int_test);
    reveal(give2);
    let (a, b) = (x->Int_1, y->Int_1);
    let (o1, p) = coerce_int_width(o, l, 64);
    let (o2, q) = coerce_int_width(o1, r, 64);
    let test = match op {
        BinOp::Eq => Test::Eq,
        BinOp::Ne => Test::Ne,
        BinOp::Lt => Test::Lt,
        BinOp::Gt => Test::Gt,
        BinOp::Le => Test::Le,
        _ => Test::Ge,
    };
    lemma_emit(code, o2, Op::IntTest(test), seq![p.id, q.id], ""@);
    lemma_width_prefix(code, o1, r, y->Int_0, 64);
    lemma_width_prefix(code, o, l, x->Int_0, 64);
    let m1 = int_widths_keep_the_number(code, o, l, x->Int_0, 64, m, a);
    let m2 = int_widths_keep_the_number(code, o1, r, y->Int_0, 64, m1, b);
    lemma_then(code, m, m1, m2);
    assert(holds(m2, p, a));
    reveal(step);
    lemma_step(code, m, m2)
}

/// An operator on two values gives what it means.
pub proof fn operators_compute(
    code: Seq<InstV>,
    sc: Scope,
    w: Work,
    e: ExprV,
    l: Value,
    r: Value,
    m: Machine,
    x: Val,
    y: Val,
) -> (t: Machine)
    requires
        e is Binary,
        combine(sc, w, e, l, r) is Ok,
        within(code, combine(sc, w, e, l, r)->Ok_0.0.out),
        m.next == w.out.code.len(),
        represents(m, l, x),
        represents(m, r, y),
        l.id < w.out.code.len(),
        r.id < w.out.code.len(),
    ensures
        gives(
            code,
            m,
            t,
            w.out,
            combine(sc, w, e, l, r)->Ok_0.0.out,
            combine(sc, w, e, l, r)->Ok_0.1,
            apply_two(m.around.world, e->Binary_1, x, y),
        ),
        !(apply_two(m.around.world, e->Binary_1, x, y) is Unknown) ==> combine(sc, w, e, l, r)->Ok_0.0.temps == w.temps,
{
    let op = e->Binary_1;
    match (x, y) {
        (Val::Num(lw, a), Val::Num(rw, b)) => {
            if !(apply_two(m.around.world, op, x, y) is Unknown) {
                num_operators_compute(code, w.out, op, l, r, lw, rw, m, a, b)
            } else {
                m
            }
        },
        (Val::Bool(a), Val::Bool(b)) => {
            if apply_two(m.around.world, op, x, y) is Unknown {
                m
            } else {
                reveal(compile_bool_binary);
                reveal(int_test);
                reveal(give2);
                reveal(step);
                let inst = match op {
                    BinOp::And => Op::And,
                    BinOp::Or => Op::Or,
                    BinOp::Eq => Op::IntTest(Test::Eq),
                    _ => Op::IntTest(Test::Ne),
                };
                lemma_emit(code, w.out, inst, seq![l.id, r.id], ""@);
                lemma_here(code, m);
                lemma_step(code, m, m)
            }
        },
        (Val::Int(lw, a), Val::Int(rw, b)) => {
            if is_arithmetic(op) {
                if comes_to_an_end(op, a, b) {
                    lemma_int_result(code, w.out, op, l, r, lw, rw);
                    int_arithmetic_is_exact(code, w.out, op, l, r, lw, rw, m, a, b)
                } else {
                    m
                }
            } else if is_comparison(op) {
                lemma_int_comparison(code, w.out, op, l, r, m, x, y)
            } else {
                m
            }
        },
        _ => m,
    }
}

proof fn lemma_int_result(code: Seq<InstV>, o: Out, op: BinOp, l: Value, r: Value, lw: u32, rw: u32)
    requires
        is_arithmetic(op),
        l.repr == Repr::Int(lw),
        r.repr == Repr::Int(rw),
        within(code, compile_int_binary(o, op, l, r)->Ok_0.0),
    ensures
        compile_int_binary(o, op, l, r) matches Ok((end, v)) && v.repr == Repr::Int(wider(lw, rw)) && v.id < end.code.len(),
{
    lemma_binary_prefix(code, o, op, l, r, lw, rw);
}

/// A float at 64 bits, and then its factorial.
proof fn lemma_num_factorial(code: Seq<InstV>, o: Out, v: Value, m: Machine, width: u32, a: int) -> (t: Machine)
    requires
        within(code, compile_factorial(coerce_float(o, v, 64).0, coerce_float(o, v, 64).1).0),
        m.next == o.code.len(),
        is_float(m, v, width, a),
        v.id < o.code.len(),
    ensures
        ({
            let (o1, f) = coerce_float(o, v, 64);
            let (end, r) = compile_factorial(o1, f);
            gives(code, m, t, o, end, r, apply_one(m.around.world, UnOp::Factorial, Val::Num(width, a)))
        }),
{
    let (o1, f) = coerce_float(o, v, 64);
    let w = m.around.world;
    let n = (w.whole)(at_width(w, width, 64, a));
    lemma_same(o1);
    own_compile_factorial(o1, o1, f);
    lemma_inside(code, o1, compile_factorial(o1, f).0);
    let m1 = float_widths_change(code, o, v, width, 64, m, a);
    if in_64(n) && n < i64::MAX {
        let t = float_factorials_compute(code, o1, f, m1, at_width(w, width, 64, a));
        lemma_then(code, m, m1, t);
        t
    } else {
        m
    }
}

/// An operator on one value gives what it means.
pub proof fn unary_operators_compute(
    code: Seq<InstV>,
    sc: Scope,
    w: Work,
    op: UnOp,
    inner: ExprV,
    v: Value,
    m: Machine,
    x: Val,
) -> (t: Machine)
    requires
        combine_one(sc, w, op, inner, v) is Ok,
        within(code, combine_one(sc, w, op, inner, v)->Ok_0.0.out),
        m.next == w.out.code.len(),
        represents(m, v, x),
        v.id < w.out.code.len(),
    ensures
        gives(
            code,
            m,
            t,
            w.out,
            combine_one(sc, w, op, inner, v)->Ok_0.0.out,
            combine_one(sc, w, op, inner, v)->Ok_0.1,
            apply_one(m.around.world, op, x),
        ),
        combine_one(sc, w, op, inner, v)->Ok_0.0.temps == w.temps,
{
    lemma_here(code, m);
    match (op, x) {
        (UnOp::Neg, Val::Num(width, a)) => {
            reveal(give1);
            reveal(step);
            reveal(other_step);
            lemma_emit(code, w.out, Op::FloatNeg, seq![v.id], ""@);
            lemma_step(code, m, m)
        },
        (UnOp::Not, Val::Bool(b)) => {
            reveal(give1);
            reveal(step);
            lemma_emit(code, w.out, Op::Not, seq![v.id], ""@);
            lemma_step(code, m, m)
        },
        (UnOp::Neg, Val::Int(width, a)) => {
            lemma_neg_result(code, w.out, v, width);
            int_negation_is_exact(code, w.out, v, width, m, a)
        },
        (UnOp::Factorial, Val::Int(width, a)) => {
            lemma_factorial_parts(code, w.out, v, width);
            int_factorial_is_exact(code, w.out, v, width, m, a)
        },
        (UnOp::Factorial, Val::Num(width, a)) => lemma_num_factorial(code, w.out, v, m, width, a),
        _ => m,
    }
}

proof fn lemma_neg_result(code: Seq<InstV>, o: Out, v: Value, width: u32)
    requires
        within(code, compile_int_neg(o, v).0),
        v.repr == Repr::Int(width),
    ensures
        compile_int_neg(o, v).1.repr == Repr::Int(width),
        compile_int_neg(o, v).1.id < compile_int_neg(o, v).0.code.len(),
{
    reveal(compile_int_neg);
    reveal(give1);
    let (o1, wide) = coerce_int_width(o, v, 64);
    let (o2, least) = const_int(o1, 64, i64::MIN);
    let (o3, is_least) = int_test(o2, Test::Eq, wide, least);
    let o4 = crash_if(o3, is_least, "int overflow: negating i64::MIN doesn't fit in int"@);
    let (o5, n) = give1(o4, Op::IntNeg, wide, Repr::Int(64));
    lemma_width_prefix(code, o5, n, 64, width);
    reveal(emit);
}

/// A literal beside an operand gives what it means.
proof fn lemma_literal(
    code: Seq<InstV>,
    sc: Scope,
    w: Work,
    op: BinOp,
    text: Seq<char>,
    other: ExprV,
    v: Value,
    m: Machine,
    x: Val,
) -> (t: Machine)
    requires
        within(code, literal_with(sc, w, op, text, other, v).0.out),
        m.next == w.out.code.len(),
        represents(m, v, x),
        v.id < w.out.code.len(),
        precision_of(sc.sigs, other) is None,
        !(op is Concat),
    ensures
        gives(
            code,
            m,
            t,
            w.out,
            literal_with(sc, w, op, text, other, v).0.out,
            literal_with(sc, w, op, text, other, v).1,
            literal_beside_value(m.around.world, text, x),
        ),
        literal_with(sc, w, op, text, other, v).0.temps == w.temps,
{
    reveal(give0);
    match x {
        Val::Int(width, _) => {
            reveal(const_int);
            let (o, c) = const_int(w.out, 64, int_literal(text));
            lemma_width_prefix(code, o, c, 64, width);
            let n = int_literal(text) as int;
            let m1 = lemma_constant(code, w.out, Op::ConstInt(64, int_literal(text)), ""@, m, Cell::Number(n));
            let t = int_widths_keep_the_number(code, o, c, 64, width, m1, n);
            if fits(n, width) {
                lemma_then(code, m, m1, t);
            } else {
                lemma_then_stops(code, m, m1);
            }
            t
        },
        _ => {
            reveal(const_float);
            lemma_constant(code, w.out, Op::ConstFloat, text, m, Cell::Float((m.around.world.numeral)(text)))
        },
    }
}

/// The type of an expression that gives a number or a truth value is no bignum.
proof fn lemma_no_bignum(sc: Scope, m: Machine, e: ExprV)
    ensures
        eval(sc, m, e) is Got ==> precision_of(sc.sigs, e) is None,
    decreases e,
{
    match e {
        ExprV::Unary(op, inner) => lemma_no_bignum(sc, m, *inner),
        ExprV::Binary(l, op, r) => {
            lemma_no_bignum(sc, m, *l);
            lemma_no_bignum(sc, m, *r);
        },
        _ => {},
    }
}

/// The code before an expression is part of the program too.
proof fn lemma_expr_prefix(code: Seq<InstV>, sc: Scope, w: Work, e: ExprV)
    requires
        lower_expr(sc, w, e) is Ok,
        within(code, lower_expr(sc, w, e)->Ok_0.0.out),
    ensures
        within(code, w.out),
        w.out.code.len() <= lower_expr(sc, w, e)->Ok_0.0.out.code.len(),
{
    lemma_same(w.out);
    own_expr(w.out, sc, w, e);
    lemma_inside(code, w.out, lower_expr(sc, w, e)->Ok_0.0.out);
}

proof fn lemma_pair_prefix(code: Seq<InstV>, sc: Scope, w: Work, e: ExprV)
    requires
        lower_expr(sc, w, e) is Ok,
        e is Binary,
        within(code, lower_expr(sc, w, e)->Ok_0.0.out),
    ensures
        lower_pair(sc, w, e) is Ok,
        within(code, lower_pair(sc, w, e)->Ok_0.0.out),
{
    let (w1, l, r) = lower_pair(sc, w, e)->Ok_0;
    lemma_same(w1.out);
    own_combine(w1.out, sc, w1, e, l, r);
    lemma_inside(code, w1.out, lower_expr(sc, w, e)->Ok_0.0.out);
}

/// A reference to a variable gives its value.
proof fn lemma_reference(code: Seq<InstV>, sc: Scope, w: Work, name: Seq<char>, ty: Type, m: Machine) -> (t: Machine)
    requires
        lower_expr(sc, w, ExprV::Var(name, ty)) is Ok,
        within(code, lower_expr(sc, w, ExprV::Var(name, ty))->Ok_0.0.out),
        m.next == w.out.code.len(),
    ensures
        gives(
            code,
            m,
            t,
            w.out,
            lower_expr(sc, w, ExprV::Var(name, ty))->Ok_0.0.out,
            lower_expr(sc, w, ExprV::Var(name, ty))->Ok_0.1,
            read_var(sc, m, name, ty),
        ),
{
    let place = sc.bindings[variable(sc.bindings, name, ty)->0].place;
    reveal(load);
    reveal(give1);
    reveal(step);
    lemma_emit(code, w.out, Op::Load(repr_of(ty)), seq![place.id], ""@);
    lemma_here(code, m);
    lemma_step(code, m, m)
}

/// The two operands of an operator: where their values are, and what they are.
pub open spec fn operand_values(sc: Scope, m: Machine, e: ExprV) -> (Outcome, Outcome) {
    let w = m.around.world;
    match e {
        ExprV::Binary(l, op, r) => match (*l, *r) {
            (ExprV::Num(a), ExprV::Num(b)) => (
                Outcome::Got(Val::Num(64, (w.numeral)(a))),
                Outcome::Got(Val::Num(64, (w.numeral)(b))),
            ),
            (ExprV::Num(text), right) => match eval(sc, m, right) {
                Outcome::Got(y) => (literal_beside_value(w, text, y), Outcome::Got(y)),
                other => (other, other),
            },
            (left, ExprV::Num(text)) => match eval(sc, m, left) {
                Outcome::Got(x) => (Outcome::Got(x), literal_beside_value(w, text, x)),
                other => (other, other),
            },
            (left, right) => (eval(sc, m, left), eval(sc, m, right)),
        },
        _ => (Outcome::Unknown, Outcome::Unknown),
    }
}

/// The operands of an operator are computed.
proof fn lemma_operands(code: Seq<InstV>, sc: Scope, w: Work, e: ExprV, m: Machine) -> (t: Machine)
    requires
        e is Binary,
        !(e->Binary_1 is Concat),
        lower_pair(sc, w, e) is Ok,
        within(code, lower_pair(sc, w, e)->Ok_0.0.out),
        m.next == w.out.code.len(),
        places_before(sc, w.out.code.len() as int),
    ensures
        ({
            let (w1, l, r) = lower_pair(sc, w, e)->Ok_0;
            match operand_values(sc, m, e) {
                (Outcome::Got(x), Outcome::Got(y)) => {
                    &&& gives(code, m, t, w.out, w1.out, l, Outcome::Got(x))
                    &&& gives(code, m, t, w.out, w1.out, r, Outcome::Got(y))
                    &&& w1.temps == w.temps
                },
                (Outcome::Got(x), Outcome::Stops) => stops(code, m),
                (Outcome::Stops, _) => stops(code, m),
                _ => true,
            }
        }),
    decreases e, 0int,
{
    let n = w.out.code.len() as int;
    if let ExprV::Binary(l, op, r) = e {
        match (*l, *r) {
            (ExprV::Num(a), ExprV::Num(b)) => {
                reveal(const_float);
                reveal(give0);
                let (o, x) = const_float(w.out, a);
                lemma_emit(code, o, Op::ConstFloat, Seq::empty(), b);
                let m1 = lemma_constant(code, w.out, Op::ConstFloat, a, m, Cell::Float((m.around.world.numeral)(a)));
                let t = lemma_constant(code, o, Op::ConstFloat, b, m1, Cell::Float((m.around.world.numeral)(b)));
                lemma_then(code, m, m1, t);
                t
            },
            (ExprV::Num(text), other) => {
                let (w1, y) = lower_expr(sc, w, other)->Ok_0;
                lemma_same(w1.out);
                own_literal_with(w1.out, sc, w1, op, text, other, y);
                lemma_inside(code, w1.out, literal_with(sc, w1, op, text, other, y).0.out);
                lemma_expr_prefix(code, sc, w, other);
                let m1 = expressions_compute(code, sc, w, other, m);
                if let Outcome::Got(v) = eval(sc, m, other) {
                    lemma_no_bignum(sc, m, other);
                    let t = lemma_literal(code, sc, w1, op, text, other, y, m1, v);
                    if literal_beside_value(m.around.world, text, v) is Got {
                        lemma_then(code, m, m1, t);
                        assert(t.cells[y.id as int] == m1.cells[y.id as int]);
                    } else if literal_beside_value(m.around.world, text, v) is Stops {
                        lemma_then_stops(code, m, m1);
                    }
                    t
                } else {
                    m1
                }
            },
            (other, ExprV::Num(text)) => {
                let (w1, x) = lower_expr(sc, w, other)->Ok_0;
                lemma_same(w1.out);
                own_literal_with(w1.out, sc, w1, op, text, other, x);
                lemma_inside(code, w1.out, literal_with(sc, w1, op, text, other, x).0.out);
                lemma_expr_prefix(code, sc, w, other);
                let m1 = expressions_compute(code, sc, w, other, m);
                if let Outcome::Got(v) = eval(sc, m, other) {
                    lemma_no_bignum(sc, m, other);
                    let t = lemma_literal(code, sc, w1, op, text, other, x, m1, v);
                    if literal_beside_value(m.around.world, text, v) is Got {
                        lemma_then(code, m, m1, t);
                        assert(t.cells[x.id as int] == m1.cells[x.id as int]);
                    } else if literal_beside_value(m.around.world, text, v) is Stops {
                        lemma_then_stops(code, m, m1);
                    }
                    t
                } else {
                    m1
                }
            },
            (left, right) => {
                let (w1, x) = lower_expr(sc, w, left)->Ok_0;
                let (w2, y) = lower_expr(sc, w1, right)->Ok_0;
                lemma_expr_prefix(code, sc, w1, right);
                lemma_expr_prefix(code, sc, w, left);
                let m1 = expressions_compute(code, sc, w, left, m);
                if eval(sc, m, left) is Got {
                    lemma_eval_same(sc, m, m1, right, n);
                    let t = expressions_compute(code, sc, w1, right, m1);
                    if eval(sc, m, right) is Got {
                        lemma_then(code, m, m1, t);
                        assert(t.cells[x.id as int] == m1.cells[x.id as int]);
                    } else if eval(sc, m, right) is Stops {
                        lemma_then_stops(code, m, m1);
                    }
                    t
                } else {
                    m1
                }
            },
        }
    } else {
        m
    }
}

/// The code of an expression of numbers and truth values computes its value: it comes to its end with the
/// value that the expression means, or stops the program where the meaning says so. What was computed,
/// stored and shown before stays as it was.
pub proof fn expressions_compute(code: Seq<InstV>, sc: Scope, w: Work, e: ExprV, m: Machine) -> (t: Machine)
    requires
        lower_expr(sc, w, e) is Ok,
        within(code, lower_expr(sc, w, e)->Ok_0.0.out),
        m.next == w.out.code.len(),
        places_before(sc, w.out.code.len() as int),
    ensures
        gives(
            code,
            m,
            t,
            w.out,
            lower_expr(sc, w, e)->Ok_0.0.out,
            lower_expr(sc, w, e)->Ok_0.1,
            eval(sc, m, e),
        ),
        eval(sc, m, e) is Got ==> lower_expr(sc, w, e)->Ok_0.0.temps == w.temps,
    decreases e, 1int,
{
    let (w9, v9) = lower_expr(sc, w, e)->Ok_0;
    match e {
        ExprV::Num(text) => {
            reveal(const_float);
            reveal(give0);
            lemma_constant(code, w.out, Op::ConstFloat, text, m, Cell::Float((m.around.world.numeral)(text)))
        },
        ExprV::Bool(b) => {
            reveal(const_int);
            reveal(give0);
            let c: i64 = if b {
                1
            } else {
                0
            };
            lemma_constant(code, w.out, Op::ConstInt(1, c), ""@, m, Cell::Number(c as int))
        },
        ExprV::Var(name, ty) => lemma_reference(code, sc, w, name, ty, m),
        ExprV::Unary(op, inner) => {
            let (w1, v) = lower_expr(sc, w, *inner)->Ok_0;
            lemma_same(w1.out);
            own_combine_one(w1.out, sc, w1, op, *inner, v);
            lemma_inside(code, w1.out, w9.out);
            lemma_expr_prefix(code, sc, w, *inner);
            let m1 = expressions_compute(code, sc, w, *inner, m);
            if let Outcome::Got(x) = eval(sc, m, *inner) {
                let t = unary_operators_compute(code, sc, w1, op, *inner, v, m1, x);
                if eval(sc, m, e) is Got {
                    lemma_then(code, m, m1, t);
                } else if eval(sc, m, e) is Stops {
                    lemma_then_stops(code, m, m1);
                }
                t
            } else {
                m1
            }
        },
        ExprV::Binary(l, op, r) => {
            lemma_pair_prefix(code, sc, w, e);
            let (w1, lv, rv) = lower_pair(sc, w, e)->Ok_0;
            if op is Concat {
                m
            } else {
                lemma_same(w.out);
                own_pair(w.out, sc, w, e);
                lemma_inside(code, w.out, w1.out);
                let m1 = lemma_operands(code, sc, w, e, m);
                match operand_values(sc, m, e) {
                    (Outcome::Got(x), Outcome::Got(y)) => {
                        let t = operators_compute(code, sc, w1, e, lv, rv, m1, x, y);
                        if eval(sc, m, e) is Got {
                            lemma_then(code, m, m1, t);
                        } else if eval(sc, m, e) is Stops {
                            lemma_then_stops(code, m, m1);
                        }
                        t
                    },
                    _ => m1,
                }
            }
        },
        _ => m,
    }
}

/// The code of an expression that has to be an `int` computes its value in 64 bits.
pub proof fn int_expressions_compute(code: Seq<InstV>, sc: Scope, w: Work, e: ExprV, m: Machine) -> (t: Machine)
    requires
        lower_int(sc, w, e) is Ok,
        within(code, lower_int(sc, w, e)->Ok_0.0.out),
        m.next == w.out.code.len(),
        places_before(sc, w.out.code.len() as int),
    ensures
        gives(
            code,
            m,
            t,
            w.out,
            lower_int(sc, w, e)->Ok_0.0.out,
            lower_int(sc, w, e)->Ok_0.1,
            eval_int(sc, m, e),
        ),
        eval_int(sc, m, e) is Got ==> lower_int(sc, w, e)->Ok_0.0.temps == w.temps,
    decreases e,
{
    let (w9, v9) = lower_int(sc, w, e)->Ok_0;
    let world = m.around.world;
    let n = w.out.code.len() as int;
    match e {
        ExprV::Num(text) => {
            reveal(const_int);
            reveal(give0);
            lemma_constant(
                code,
                w.out,
                Op::ConstInt(64, int_literal(text)),
                ""@,
                m,
                Cell::Number(int_literal(text) as int),
            )
        },
        ExprV::Unary(op, inner) => {
            let (w1, v) = lower_int(sc, w, *inner)->Ok_0;
            lemma_same(w1.out);
            own_compile_int_neg(w1.out, w1.out, v);
            own_compile_int_factorial(w1.out, w1.out, v);
            lemma_inside(code, w1.out, w9.out);
            lemma_same(w.out);
            own_int(w.out, sc, w, *inner);
            lemma_inside(code, w.out, w1.out);
            let m1 = int_expressions_compute(code, sc, w, *inner, m);
            match eval_int(sc, m, *inner) {
                Outcome::Got(Val::Int(a, x)) => {
                    let t = if op is Neg {
                        lemma_neg_result(code, w1.out, v, a);
                        int_negation_is_exact(code, w1.out, v, a, m1, x)
                    } else {
                        lemma_factorial_parts(code, w1.out, v, a);
                        int_factorial_is_exact(code, w1.out, v, a, m1, x)
                    };
                    if eval_int(sc, m, e) is Got {
                        lemma_then(code, m, m1, t);
                    } else if eval_int(sc, m, e) is Stops {
                        lemma_then_stops(code, m, m1);
                    }
                    t
                },
                _ => m1,
            }
        },
        ExprV::Binary(l, op, r) => {
            if is_arithmetic(op) {
                let (w1, x) = lower_int(sc, w, *l)->Ok_0;
                let (w2, y) = lower_int(sc, w1, *r)->Ok_0;
                lemma_same(w2.out);
                own_compile_int_binary(w2.out, w2.out, op, x, y);
                lemma_inside(code, w2.out, w9.out);
                lemma_same(w1.out);
                own_int(w1.out, sc, w1, *r);
                lemma_inside(code, w1.out, w2.out);
                lemma_same(w.out);
                own_int(w.out, sc, w, *l);
                lemma_inside(code, w.out, w1.out);
                let m1 = int_expressions_compute(code, sc, w, *l, m);
                match eval_int(sc, m, *l) {
                    Outcome::Got(Val::Int(a, p)) => {
                        lemma_eval_same(sc, m, m1, *r, n);
                        let m2 = int_expressions_compute(code, sc, w1, *r, m1);
                        match eval_int(sc, m, *r) {
                            Outcome::Got(Val::Int(b, q)) => {
                                lemma_then(code, m, m1, m2);
                                assert(m2.cells[x.id as int] == m1.cells[x.id as int]);
                                if comes_to_an_end(op, p, q) {
                                    lemma_int_result(code, w2.out, op, x, y, a, b);
                                    let t = int_arithmetic_is_exact(code, w2.out, op, x, y, a, b, m2, p, q);
                                    if eval_int(sc, m, e) is Got {
                                        lemma_then(code, m, m2, t);
                                    } else if eval_int(sc, m, e) is Stops {
                                        lemma_then_stops(code, m, m2);
                                    }
                                    t
                                } else {
                                    m2
                                }
                            },
                            Outcome::Stops => {
                                lemma_then_stops(code, m, m1);
                                m2
                            },
                            _ => m2,
                        }
                    },
                    _ => m1,
                }
            } else {
                m
            }
        },
        _ => expressions_compute(code, sc, w, e, m),
    }
}

/// A value that is stored, passed or returned as a type of numbers or truth values.
proof fn lemma_converted(code: Seq<InstV>, o: Out, v: Value, ty: Type, m: Machine, x: Val) -> (t: Machine)
    requires
        coerce_to_type(o, v, ty) is Ok,
        within(code, coerce_to_type(o, v, ty)->Ok_0.0),
        m.next == o.code.len(),
        represents(m, v, x),
        v.id < o.code.len(),
    ensures
        gives(
            code,
            m,
            t,
            o,
            coerce_to_type(o, v, ty)->Ok_0.0,
            coerce_to_type(o, v, ty)->Ok_0.1,
            converted(m.around.world, x, ty),
        ),
{
    reveal(coerce_to_type);
    lemma_here(code, m);
    match (x, ty) {
        (Val::Num(a, f), Type::Num(b)) => float_widths_change(code, o, v, a, b, m, f),
        (Val::Num(a, f), Type::NumW(b)) => float_widths_change(code, o, v, a, b, m, f),
        (Val::Int(a, i), Type::Int(b)) => {
            if int_width(b) {
                lemma_width_prefix(code, o, v, a, b);
                int_widths_keep_the_number(code, o, v, a, b, m, i)
            } else {
                m
            }
        },
        _ => m,
    }
}

/// The code of an expression that is stored, passed or returned as a type of numbers or truth values
/// computes its value at that type.
pub proof fn stored_expressions_compute(code: Seq<InstV>, sc: Scope, w: Work, e: ExprV, ty: Type, m: Machine) -> (t: Machine)
    requires
        ty is Num || ty is NumW || ty is Bool || ty is Int,
        lower_for(sc, w, e, ty) is Ok,
        within(code, lower_for(sc, w, e, ty)->Ok_0.0.out),
        m.next == w.out.code.len(),
        places_before(sc, w.out.code.len() as int),
    ensures
        lower_for(sc, w, e, ty)->Ok_0.0.temps == if ty is Int && spreads_over(e) {
            lower_int(sc, w, e)->Ok_0.0.temps
        } else {
            lower_expr(sc, w, e)->Ok_0.0.temps
        },
        gives(
            code,
            m,
            t,
            w.out,
            lower_for(sc, w, e, ty)->Ok_0.0.out,
            lower_for(sc, w, e, ty)->Ok_0.1,
            eval_for(sc, m, e, ty),
        ),
        eval_for(sc, m, e, ty) is Got ==> lower_for(sc, w, e, ty)->Ok_0.0.temps == w.temps,
{
    let (w9, v9) = lower_for(sc, w, e, ty)->Ok_0;
    if ty is Int && spreads_over(e) {
        let (w1, v) = lower_int(sc, w, e)->Ok_0;
        let b = ty->Int_0;
        lemma_same(w1.out);
        own_coerce_int_width(w1.out, w1.out, v, b);
        lemma_inside(code, w1.out, w9.out);
        lemma_same(w.out);
        own_int(w.out, sc, w, e);
        lemma_inside(code, w.out, w1.out);
        let m1 = int_expressions_compute(code, sc, w, e, m);
        match eval_int(sc, m, e) {
            Outcome::Got(Val::Int(a, i)) => {
                if int_width(b) {
                    lemma_width_prefix(code, w1.out, v, a, b);
                    let t = int_widths_keep_the_number(code, w1.out, v, a, b, m1, i);
                    if fits(i, b) {
                        lemma_then(code, m, m1, t);
                    } else {
                        lemma_then_stops(code, m, m1);
                    }
                    t
                } else {
                    m1
                }
            },
            _ => m1,
        }
    } else {
        let (w1, v) = lower_expr(sc, w, e)->Ok_0;
        lemma_same(w1.out);
        own_coerce_to_type(w1.out, w1.out, v, ty);
        lemma_inside(code, w1.out, w9.out);
        lemma_expr_prefix(code, sc, w, e);
        let m1 = expressions_compute(code, sc, w, e, m);
        if let Outcome::Got(x) = eval(sc, m, e) {
            let t = lemma_converted(code, w1.out, v, ty, m1, x);
            if eval_for(sc, m, e, ty) is Got {
                lemma_then(code, m, m1, t);
            } else if eval_for(sc, m, e, ty) is Stops {
                lemma_then_stops(code, m, m1);
            }
            t
        } else {
            m1
        }
    }
}

/// What a stored expression means does not depend on what was computed after its variables were stored.
pub proof fn lemma_eval_for_same(sc: Scope, m: Machine, t: Machine, e: ExprV, ty: Type, n: int)
    requires
        same_before(m, t, n),
        places_before(sc, n),
    ensures
        eval_for(sc, t, e, ty) == eval_for(sc, m, e, ty),
{
    lemma_eval_same(sc, m, t, e, n);
}

/// A value that is stored as a type has that type.
pub proof fn lemma_converted_type(sc: Scope, m: Machine, e: ExprV, ty: Type)
    ensures
        eval_for(sc, m, e, ty) matches Outcome::Got(x) ==> match x {
            Val::Num(w, _) => ty == Type::Num(w) || ty == Type::NumW(w),
            Val::Bool(_) => ty == Type::Bool,
            Val::Int(w, i) => ty == Type::Int(w) && int_width(w) && fits(i, w),
        },
{
}

} // verus!
