//! What the instructions do when they run, and that `int` arithmetic is exact.

use vstd::prelude::*;
use crate::ast::{BinOp, ExprV, Type};
use crate::emit::{
    at, block, branch, call2, checked_int_arith, checked_result, coerce_int_width, compile_binary_int_op,
    compile_int_binary, compile_int_div, compile_int_factorial, compile_int_neg, compile_int_pow,
    compile_int_tetration, const_int, const_str, crash_if, do0, do1, do2, do3, emit, give0, give1, give2, int_test,
    jump, load, loop_begin, loop_end, run1, slot, store, Looping, Out,
};
use crate::fold::{
    factorial, fold, fold_power, fold_tower, fold_values, in_64, lemma_factorial_grows, lemma_power_of_small,
    lemma_power_stays_out, lemma_tower_exceeds, lemma_tower_of_small, lemma_tower_stays, magnitude_of, power,
    truncated_div, Fold,
};
use crate::ir::{InstV, Op, Repr, Rt, Test, Value};
use crate::lower::{int_literal, lower_for, lower_int, Scope, Work};
use crate::numeral::{decimal, is_whole, whole_value};
use crate::typing::{fits, int_max, is_arithmetic, wider};
use crate::wellformed::int_width;

verus! {

// ---------------------------------------------------------------------------
// The machine
// ---------------------------------------------------------------------------

/// What an instruction has given.
pub enum Cell {
    Number(int),
    /// The result of a checked operation, and whether it overflowed.
    Checked(int, bool),
    /// A constant text.
    Text(Seq<char>),
    /// A float. What floats there are and how they are computed with is left open.
    Float(int),
    /// The object at an address.
    Object(int),
    Null,
}

/// An object that a runtime function has made.
pub enum Object {
    Text(Seq<char>),
    /// A bignum of some precision and its value. What bignums there are is left open.
    Decimal(int, int),
    /// A bigint.
    Whole(int),
    Freed,
}

/// How floats and bignums are computed with, and how they are shown. What holds of every world holds of
/// IEEE-754 floats and of the bignums of the runtime.
pub struct World {
    /// The float nearest to the number that a numeral denotes.
    pub numeral: spec_fn(Seq<char>) -> int,
    pub plus: spec_fn(int, int) -> int,
    pub minus: spec_fn(int, int) -> int,
    pub times: spec_fn(int, int) -> int,
    pub over: spec_fn(int, int) -> int,
    pub negative: spec_fn(int) -> int,
    pub power: spec_fn(int, int) -> int,
    /// Whether a float is less than another one, or equal to it. Both are false of something that is
    /// no number.
    pub less: spec_fn(int, int) -> bool,
    pub same: spec_fn(int, int) -> bool,
    /// A float at a larger or at a smaller width.
    pub widen: spec_fn(u32, int) -> int,
    pub narrow: spec_fn(u32, int) -> int,
    /// A float without its fraction, and a whole number as a float.
    pub whole: spec_fn(int) -> int,
    pub float: spec_fn(int) -> int,
    pub show: spec_fn(int) -> Seq<char>,
    /// Bignums at a precision: from a float, from a text, and from another bignum.
    pub big_float: spec_fn(int, int) -> int,
    pub big_text: spec_fn(int, Seq<char>) -> int,
    pub big_round: spec_fn(int, int) -> int,
    pub big_plus: spec_fn(int, int, int) -> int,
    pub big_minus: spec_fn(int, int, int) -> int,
    pub big_times: spec_fn(int, int, int) -> int,
    pub big_over: spec_fn(int, int, int) -> int,
    pub big_power: spec_fn(int, int, int) -> int,
    pub big_negative: spec_fn(int, int) -> int,
    pub big_less: spec_fn(int, int) -> bool,
    pub big_whole: spec_fn(int) -> int,
    pub big_show: spec_fn(int) -> Seq<char>,
    /// How many bytes a text takes.
    pub bytes: spec_fn(Seq<char>) -> int,
    /// The size of a value in bytes.
    pub size: spec_fn(Repr) -> int,
}

/// What is around the code that runs.
pub struct Around {
    pub world: World,
    /// The objects that were made, by their addresses.
    pub heap: Seq<Object>,
    /// What has been printed.
    pub shown: Seq<char>,
    /// The arguments of the function that runs.
    pub args: Seq<Cell>,
}

/// A program in the middle of its run.
pub struct Machine {
    /// The place of the next instruction.
    pub next: int,
    /// What the instructions have given, by their places.
    pub cells: Map<int, Cell>,
    /// The numbers that are stored at the places that instructions have made.
    pub memory: Map<int, int>,
    /// Whatever else is stored at such places.
    pub stored: Map<int, Cell>,
    pub around: Around,
}

/// How a run goes on.
pub enum Run {
    On(Machine),
    /// The program has stopped with a message.
    Stopped(Seq<char>),
    /// What the next instruction does is not described here.
    Elsewhere,
}

/// How many numbers an integer of width `w` tells apart.
pub open spec fn modulus(w: u32) -> int {
    2 * int_max(w) + 2
}

/// The number of width `w` that is left of `v` when its higher bits are dropped.
pub open spec fn wrapped(v: int, w: u32) -> int {
    let low = v % modulus(w);
    if low > int_max(w) {
        low - modulus(w)
    } else {
        low
    }
}

/// Where the code of a block starts: the first place from `i` on that goes on at the block `b`.
pub open spec fn landing(code: Seq<InstV>, b: int, i: int) -> int
    decreases code.len() - i,
{
    if 0 <= i < code.len() && !(code[i].op is At && code[i].args[0] == b) {
        landing(code, b, i + 1)
    } else {
        i
    }
}

/// The number that an instruction has given.
pub open spec fn number(m: Machine, id: usize) -> int {
    match m.cells[id as int] {
        Cell::Number(v) => v,
        _ => 0,
    }
}

/// Whether a comparison holds.
pub open spec fn passes(test: Test, a: int, b: int) -> bool {
    match test {
        Test::Eq => a == b,
        Test::Ne => a != b,
        Test::Lt => a < b,
        Test::Gt => a > b,
        Test::Le => a <= b,
        Test::Ge => a >= b,
    }
}

/// A truth value as a number.
pub open spec fn truth(b: bool) -> int {
    if b {
        1
    } else {
        0
    }
}

/// The run after an instruction that gave `c`.
pub open spec fn given(m: Machine, c: Cell) -> Run {
    Run::On(Machine { next: m.next + 1, cells: m.cells.insert(m.next, c), ..m })
}

/// The run after an instruction that gave nothing.
pub open spec fn passed(m: Machine) -> Run {
    Run::On(Machine { next: m.next + 1, ..m })
}

/// The run after a jump to a block.
pub open spec fn jumped(code: Seq<InstV>, m: Machine, b: usize) -> Run {
    Run::On(Machine { next: landing(code, b as int, b as int), ..m })
}

/// The machine with other objects.
pub open spec fn with_heap(m: Machine, heap: Seq<Object>) -> Machine {
    Machine { around: Around { heap, ..m.around }, ..m }
}

/// The run after an instruction that has made an object.
pub open spec fn made_object(m: Machine, x: Object) -> Run {
    given(with_heap(m, m.around.heap.push(x)), Cell::Object(m.around.heap.len() as int))
}

/// The float that an instruction has given.
pub open spec fn float(m: Machine, id: usize) -> int {
    match m.cells[id as int] {
        Cell::Float(x) => x,
        _ => 0,
    }
}

/// The object that an instruction has given, if there is one.
pub open spec fn object(m: Machine, id: usize) -> Option<Object> {
    match m.cells[id as int] {
        Cell::Object(a) => if 0 <= a < m.around.heap.len() {
            Some(m.around.heap[a])
        } else {
            None
        },
        _ => None,
    }
}

/// The address of the object that an instruction has given.
pub open spec fn address(m: Machine, id: usize) -> int {
    match m.cells[id as int] {
        Cell::Object(a) => a,
        _ => -1,
    }
}

/// The run after an instruction that has changed the object that `id` has given.
pub open spec fn changed_object(m: Machine, id: usize, x: Object) -> Run {
    passed(with_heap(m, m.around.heap.update(address(m, id), x)))
}

/// The text that a cell is: a constant, or an object.
pub open spec fn text_in(heap: Seq<Object>, c: Cell) -> Option<Seq<char>> {
    match c {
        Cell::Text(t) => Some(t),
        Cell::Object(a) => if 0 <= a < heap.len() {
            match heap[a] {
                Object::Text(t) => Some(t),
                _ => None,
            }
        } else {
            None
        },
        _ => None,
    }
}

/// The text that an instruction has given.
pub open spec fn text(m: Machine, id: usize) -> Option<Seq<char>> {
    text_in(m.around.heap, m.cells[id as int])
}

/// Whether a comparison of two floats holds. None holds of something that is no number.
pub open spec fn float_passes(w: World, test: Test, a: int, b: int) -> bool {
    match test {
        Test::Eq => (w.same)(a, b),
        Test::Ne => (w.less)(a, b) || (w.less)(b, a),
        Test::Lt => (w.less)(a, b),
        Test::Gt => (w.less)(b, a),
        Test::Le => (w.less)(a, b) || (w.same)(a, b),
        Test::Ge => (w.less)(b, a) || (w.same)(a, b),
    }
}

/// A whole number in decimal notation, with its sign.
pub open spec fn signed(v: int) -> Seq<char> {
    if v < 0 {
        "-"@ + decimal((-v) as nat)
    } else {
        decimal(v as nat)
    }
}

/// What a format string gives: `%%` is a percent sign, and `%g`, `%lld` and `%s` show the next operand as
/// a float, as a whole number or as a text.
pub open spec fn formatted(w: World, heap: Seq<Object>, format: Seq<char>, args: Seq<Cell>) -> Option<Seq<char>>
    decreases format.len(),
{
    if format.len() == 0 {
        if args.len() == 0 {
            Some(Seq::empty())
        } else {
            None
        }
    } else if format[0] != '%' {
        match formatted(w, heap, format.skip(1), args) {
            Some(t) => Some(seq![format[0]] + t),
            None => None,
        }
    } else if format.len() >= 2 && format[1] == '%' {
        match formatted(w, heap, format.skip(2), args) {
            Some(t) => Some(seq!['%'] + t),
            None => None,
        }
    } else if format.len() >= 2 && format[1] == 'g' && args.len() > 0 && args[0] is Float {
        match formatted(w, heap, format.skip(2), args.skip(1)) {
            Some(t) => Some((w.show)(args[0]->Float_0) + t),
            None => None,
        }
    } else if format.len() >= 4 && format[1] == 'l' && format[2] == 'l' && format[3] == 'd' && args.len() > 0 && args[0] is Number {
        match formatted(w, heap, format.skip(4), args.skip(1)) {
            Some(t) => Some(signed(args[0]->Number_0) + t),
            None => None,
        }
    } else if format.len() >= 2 && format[1] == 's' && args.len() > 0 {
        match (text_in(heap, args[0]), formatted(w, heap, format.skip(2), args.skip(1))) {
            (Some(s), Some(t)) => Some(s + t),
            _ => None,
        }
    } else {
        None
    }
}

/// The cells of operands in order.
pub open spec fn cells_of(m: Machine, ids: Seq<usize>) -> Seq<Cell> {
    Seq::new(ids.len(), |i: int| m.cells[ids[i] as int])
}

/// What a call with a format string gives, where the format is the operand with number `k` and what it
/// shows comes behind it.
pub open spec fn format_from(m: Machine, ids: Seq<usize>, k: int) -> Option<Seq<char>> {
    match text(m, ids[k]) {
        Some(f) => formatted(m.around.world, m.around.heap, f, cells_of(m, ids.skip(k + 1))),
        None => None,
    }
}

/// A tower of `height` copies of `b`, if its exponents are not negative.
pub open spec fn tower(b: int, height: int) -> Option<int>
    decreases height,
{
    if height < 2 {
        Some(b)
    } else {
        match tower(b, height - 1) {
            Some(v) => if v >= 0 {
                Some(power(b, v as nat))
            } else {
                None
            },
            None => None,
        }
    }
}

/// The number that orders two values: negative, zero or positive.
pub open spec fn ordered(less: bool, greater: bool) -> int {
    if less {
        -1
    } else if greater {
        1
    } else {
        0
    }
}

/// A call of a runtime function on bignums.
#[verifier::opaque]
pub open spec fn bignum_call(m: Machine, f: Rt, a: Seq<usize>) -> Run {
    let w = m.around.world;
    match f {
        Rt::BignumNew => made_object(m, Object::Decimal(number(m, a[0]), 0)),
        Rt::BignumSetD => match object(m, a[0]) {
            Some(Object::Decimal(p, _)) => changed_object(m, a[0], Object::Decimal(p, (w.big_float)(p, float(m, a[1])))),
            _ => Run::Elsewhere,
        },
        Rt::BignumSetStr => match (object(m, a[0]), text(m, a[1])) {
            (Some(Object::Decimal(p, _)), Some(t)) => changed_object(m, a[0], Object::Decimal(p, (w.big_text)(p, t))),
            _ => Run::Elsewhere,
        },
        Rt::BignumCopy => match (object(m, a[0]), object(m, a[1])) {
            (Some(Object::Decimal(p, _)), Some(Object::Decimal(_, x))) => changed_object(
                m,
                a[0],
                Object::Decimal(p, (w.big_round)(p, x)),
            ),
            _ => Run::Elsewhere,
        },
        Rt::BignumNeg => match (object(m, a[0]), object(m, a[1])) {
            (Some(Object::Decimal(p, _)), Some(Object::Decimal(_, x))) => changed_object(
                m,
                a[0],
                Object::Decimal(p, (w.big_negative)(p, x)),
            ),
            _ => Run::Elsewhere,
        },
        Rt::BignumAdd | Rt::BignumSub | Rt::BignumMul | Rt::BignumDiv | Rt::BignumPow => match (
            object(m, a[0]),
            object(m, a[1]),
            object(m, a[2]),
        ) {
            (Some(Object::Decimal(p, _)), Some(Object::Decimal(_, x)), Some(Object::Decimal(_, y))) => changed_object(
                m,
                a[0],
                Object::Decimal(
                    p,
                    match f {
                        Rt::BignumAdd => (w.big_plus)(p, x, y),
                        Rt::BignumSub => (w.big_minus)(p, x, y),
                        Rt::BignumMul => (w.big_times)(p, x, y),
                        Rt::BignumDiv => (w.big_over)(p, x, y),
                        _ => (w.big_power)(p, x, y),
                    },
                ),
            ),
            _ => Run::Elsewhere,
        },
        Rt::BignumToString => match object(m, a[0]) {
            Some(Object::Decimal(_, x)) => made_object(m, Object::Text((w.big_show)(x))),
            _ => Run::Elsewhere,
        },
        Rt::BignumGetI64 => match object(m, a[0]) {
            Some(Object::Decimal(_, x)) => given(m, Cell::Number((w.big_whole)(x))),
            _ => Run::Elsewhere,
        },
        Rt::BignumOrder => match (object(m, a[0]), object(m, a[1])) {
            (Some(Object::Decimal(_, x)), Some(Object::Decimal(_, y))) => given(
                m,
                Cell::Number(ordered((w.big_less)(x, y), (w.big_less)(y, x))),
            ),
            _ => Run::Elsewhere,
        },
        Rt::BignumFree => match object(m, a[0]) {
            Some(Object::Decimal(_, _)) => changed_object(m, a[0], Object::Freed),
            _ => Run::Elsewhere,
        },
        _ => Run::Elsewhere,
    }
}

/// What a runtime function computes of two bigints; `None` if it stops the program.
pub open spec fn bigint_result(f: Rt, x: int, y: int) -> Option<int> {
    match f {
        Rt::BigintAdd => Some(x + y),
        Rt::BigintSub => Some(x - y),
        Rt::BigintMul => Some(x * y),
        Rt::BigintDiv => if y == 0 {
            None
        } else {
            Some(truncated_div(x, y))
        },
        Rt::BigintPow => if y < 0 {
            None
        } else {
            Some(power(x, y as nat))
        },
        _ => tower(x, y),
    }
}

/// A call of a runtime function on bigints.
#[verifier::opaque]
pub open spec fn bigint_call(m: Machine, f: Rt, a: Seq<usize>) -> Run {
    match f {
        Rt::BigintNew => made_object(m, Object::Whole(0)),
        Rt::BigintSetStr => match (object(m, a[0]), text(m, a[1])) {
            (Some(Object::Whole(_)), Some(t)) => changed_object(m, a[0], Object::Whole(whole_value(t) as int)),
            _ => Run::Elsewhere,
        },
        Rt::BigintCopy => match (object(m, a[0]), object(m, a[1])) {
            (Some(Object::Whole(_)), Some(Object::Whole(x))) => changed_object(m, a[0], Object::Whole(x)),
            _ => Run::Elsewhere,
        },
        Rt::BigintNeg => match (object(m, a[0]), object(m, a[1])) {
            (Some(Object::Whole(_)), Some(Object::Whole(x))) => changed_object(m, a[0], Object::Whole(-x)),
            _ => Run::Elsewhere,
        },
        Rt::BigintFactorial => match (object(m, a[0]), object(m, a[1])) {
            (Some(Object::Whole(_)), Some(Object::Whole(x))) => changed_object(
                m,
                a[0],
                Object::Whole(factorial(if x < 0 { 0 } else { x as nat }) as int),
            ),
            _ => Run::Elsewhere,
        },
        Rt::BigintAdd | Rt::BigintSub | Rt::BigintMul | Rt::BigintDiv | Rt::BigintPow | Rt::BigintTetration => match (
            object(m, a[0]),
            object(m, a[1]),
            object(m, a[2]),
        ) {
            (Some(Object::Whole(_)), Some(Object::Whole(x)), Some(Object::Whole(y))) => match bigint_result(f, x, y) {
                Some(v) => changed_object(m, a[0], Object::Whole(v)),
                None => Run::Stopped("bigint"@),
            },
            _ => Run::Elsewhere,
        },
        Rt::BigintToString => match object(m, a[0]) {
            Some(Object::Whole(x)) => made_object(m, Object::Text(signed(x))),
            _ => Run::Elsewhere,
        },
        Rt::BigintOrder => match (object(m, a[0]), object(m, a[1])) {
            (Some(Object::Whole(x)), Some(Object::Whole(y))) => given(m, Cell::Number(ordered(x < y, y < x))),
            _ => Run::Elsewhere,
        },
        Rt::BigintFree => match object(m, a[0]) {
            Some(Object::Whole(_)) => changed_object(m, a[0], Object::Freed),
            _ => Run::Elsewhere,
        },
        _ => Run::Elsewhere,
    }
}

/// A call of a runtime function on texts.
#[verifier::opaque]
pub open spec fn text_call(m: Machine, f: Rt, a: Seq<usize>) -> Run {
    let w = m.around.world;
    match f {
        Rt::Malloc => made_object(m, Object::Text(Seq::empty())),
        Rt::Strdup => match text(m, a[0]) {
            Some(t) => made_object(m, Object::Text(t)),
            None => Run::Elsewhere,
        },
        Rt::Snprintf => match format_from(m, a, 2) {
            Some(t) => match (m.cells[a[0] as int], object(m, a[0])) {
                (Cell::Null, _) => given(m, Cell::Number((w.bytes)(t))),
                (_, Some(Object::Text(_))) => given(
                    with_heap(m, m.around.heap.update(address(m, a[0]), Object::Text(t))),
                    Cell::Number((w.bytes)(t)),
                ),
                _ => Run::Elsewhere,
            },
            None => Run::Elsewhere,
        },
        Rt::Printf => match format_from(m, a, 0) {
            Some(t) => given(
                Machine { around: Around { shown: m.around.shown + t, ..m.around }, ..m },
                Cell::Number((w.bytes)(t)),
            ),
            None => Run::Elsewhere,
        },
        Rt::Free => match object(m, a[0]) {
            Some(Object::Text(_)) => changed_object(m, a[0], Object::Freed),
            _ => Run::Elsewhere,
        },
        _ => Run::Elsewhere,
    }
}

/// An instruction on floats, pointers and texts, or a call of a runtime function on them.
#[verifier::opaque]
pub open spec fn other_step(i: InstV, m: Machine) -> Run {
    let w = m.around.world;
    match i.op {
        Op::Param(k) => if k < m.around.args.len() {
            given(m, m.around.args[k as int])
        } else {
            Run::Elsewhere
        },
        Op::ConstFloat => given(m, Cell::Float((w.numeral)(i.text))),
        Op::Null => given(m, Cell::Null),
        Op::SizeOf(r) => given(m, Cell::Number((w.size)(r))),
        Op::FloatExtend(width) => given(m, Cell::Float((w.widen)(width, float(m, i.args[0])))),
        Op::FloatTruncate(width) => given(m, Cell::Float((w.narrow)(width, float(m, i.args[0])))),
        Op::FloatToInt => given(m, Cell::Number((w.whole)(float(m, i.args[0])))),
        Op::IntToFloat => given(m, Cell::Float((w.float)(number(m, i.args[0])))),
        Op::FloatAdd => given(m, Cell::Float((w.plus)(float(m, i.args[0]), float(m, i.args[1])))),
        Op::FloatSub => given(m, Cell::Float((w.minus)(float(m, i.args[0]), float(m, i.args[1])))),
        Op::FloatMul => given(m, Cell::Float((w.times)(float(m, i.args[0]), float(m, i.args[1])))),
        Op::FloatDiv => given(m, Cell::Float((w.over)(float(m, i.args[0]), float(m, i.args[1])))),
        Op::FloatNeg => given(m, Cell::Float((w.negative)(float(m, i.args[0])))),
        Op::FloatTest(test) => given(
            m,
            Cell::Number(truth(float_passes(w, test, float(m, i.args[0]), float(m, i.args[1])))),
        ),
        Op::Wrap(_) | Op::Unwrap => given(m, m.cells[i.args[0] as int]),
        Op::Select => given(
            m,
            if number(m, i.args[0]) != 0 {
                m.cells[i.args[1] as int]
            } else {
                m.cells[i.args[2] as int]
            },
        ),
        Op::ZeroExtend(_) => given(m, Cell::Number(number(m, i.args[0]))),
        Op::Call(Rt::Pow) => given(m, Cell::Float((w.power)(float(m, i.args[0]), float(m, i.args[1])))),
        Op::Call(f) => match f {
            Rt::Malloc | Rt::Strdup | Rt::Snprintf | Rt::Printf | Rt::Free => text_call(m, f, i.args),
            Rt::BigintNew | Rt::BigintSetStr | Rt::BigintCopy | Rt::BigintAdd | Rt::BigintSub | Rt::BigintMul
            | Rt::BigintDiv | Rt::BigintToString | Rt::BigintFree | Rt::BigintPow | Rt::BigintTetration
            | Rt::BigintFactorial | Rt::BigintNeg | Rt::BigintOrder => bigint_call(m, f, i.args),
            _ => bignum_call(m, f, i.args),
        },
        _ => Run::Elsewhere,
    }
}

/// One instruction.
#[verifier::opaque]
pub open spec fn step(code: Seq<InstV>, m: Machine) -> Run {
    let i = code[m.next];
    match i.op {
        Op::ConstInt(_, v) => given(m, Cell::Number(v as int)),
        Op::ConstStr => given(m, Cell::Text(i.text)),
        Op::SignExtend(_) => given(m, Cell::Number(number(m, i.args[0]))),
        Op::Truncate(w) => given(m, Cell::Number(wrapped(number(m, i.args[0]), w))),
        Op::IntTest(test) => given(
            m,
            Cell::Number(truth(passes(test, number(m, i.args[0]), number(m, i.args[1])))),
        ),
        Op::And => given(m, Cell::Number(truth(number(m, i.args[0]) != 0 && number(m, i.args[1]) != 0))),
        Op::Or => given(m, Cell::Number(truth(number(m, i.args[0]) != 0 || number(m, i.args[1]) != 0))),
        Op::Not => given(m, Cell::Number(truth(number(m, i.args[0]) == 0))),
        Op::IntAdd => given(m, Cell::Number(wrapped(number(m, i.args[0]) + number(m, i.args[1]), 64))),
        Op::IntNeg => given(m, Cell::Number(wrapped(-number(m, i.args[0]), 64))),
        Op::IntDiv => given(m, Cell::Number(wrapped(truncated_div(number(m, i.args[0]), number(m, i.args[1])), 64))),
        Op::Call(Rt::AddOverflow) => {
            let v = number(m, i.args[0]) + number(m, i.args[1]);
            given(m, Cell::Checked(wrapped(v, 64), !in_64(v)))
        },
        Op::Call(Rt::SubOverflow) => {
            let v = number(m, i.args[0]) - number(m, i.args[1]);
            given(m, Cell::Checked(wrapped(v, 64), !in_64(v)))
        },
        Op::Call(Rt::MulOverflow) => {
            let v = number(m, i.args[0]) * number(m, i.args[1]);
            given(m, Cell::Checked(wrapped(v, 64), !in_64(v)))
        },
        Op::CheckedResult => match m.cells[i.args[0] as int] {
            Cell::Checked(v, _) => given(m, Cell::Number(v)),
            _ => Run::Elsewhere,
        },
        Op::CheckedFlag => match m.cells[i.args[0] as int] {
            Cell::Checked(_, b) => given(m, Cell::Number(truth(b))),
            _ => Run::Elsewhere,
        },
        Op::Call(Rt::IntDie) => match m.cells[i.args[0] as int] {
            Cell::Text(t) => Run::Stopped(t),
            _ => Run::Elsewhere,
        },
        Op::Slot(_) => passed(m),
        Op::Store => Run::On(
            Machine {
                next: m.next + 1,
                memory: m.memory.insert(i.args[0] as int, number(m, i.args[1])),
                stored: m.stored.insert(i.args[0] as int, m.cells[i.args[1] as int]),
                ..m
            },
        ),
        Op::Load(r) => if r is Int {
            given(m, Cell::Number(m.memory[i.args[0] as int]))
        } else {
            given(m, m.stored[i.args[0] as int])
        },
        Op::Block => passed(m),
        Op::At => passed(m),
        Op::Jump => jumped(code, m, i.args[0]),
        Op::Branch => if number(m, i.args[0]) != 0 {
            jumped(code, m, i.args[1])
        } else {
            jumped(code, m, i.args[2])
        },
        _ => other_step(i, m),
    }
}

/// The run after `n` instructions.
pub open spec fn run(code: Seq<InstV>, m: Machine, n: nat) -> Run
    decreases n,
{
    if n == 0 {
        Run::On(m)
    } else {
        match step(code, m) {
            Run::On(t) => run(code, t, (n - 1) as nat),
            other => other,
        }
    }
}

/// Whether the run from `m` comes to `t`.
pub open spec fn reaches(code: Seq<InstV>, m: Machine, t: Machine) -> bool {
    exists|n: nat| #[trigger] run(code, m, n) == Run::On(t)
}

/// Whether the run from `m` stops with a message.
pub open spec fn stops(code: Seq<InstV>, m: Machine) -> bool {
    exists|n: nat| (#[trigger] run(code, m, n)) is Stopped
}

proof fn lemma_run_on(code: Seq<InstV>, m: Machine, t: Machine, n: nat, k: nat)
    requires
        run(code, m, n) == Run::On(t),
    ensures
        run(code, m, n + k) == run(code, t, k),
    decreases n,
{
    if n > 0 {
        if let Run::On(u) = step(code, m) {
            lemma_run_on(code, u, t, (n - 1) as nat, k);
        }
    }
}

pub proof fn lemma_here(code: Seq<InstV>, m: Machine)
    ensures
        reaches(code, m, m),
{
    assert(run(code, m, 0) == Run::On(m));
}

pub proof fn lemma_then(code: Seq<InstV>, m: Machine, t: Machine, u: Machine)
    requires
        reaches(code, m, t),
        reaches(code, t, u),
    ensures
        reaches(code, m, u),
{
    let n = choose|n: nat| #[trigger] run(code, m, n) == Run::On(t);
    let k = choose|k: nat| #[trigger] run(code, t, k) == Run::On(u);
    lemma_run_on(code, m, t, n, k);
    assert(run(code, m, n + k) == Run::On(u));
}

pub proof fn lemma_then_stops(code: Seq<InstV>, m: Machine, t: Machine)
    requires
        reaches(code, m, t),
        stops(code, t),
    ensures
        stops(code, m),
{
    let n = choose|n: nat| #[trigger] run(code, m, n) == Run::On(t);
    let k = choose|k: nat| (#[trigger] run(code, t, k)) is Stopped;
    lemma_run_on(code, m, t, n, k);
    assert(run(code, m, n + k) is Stopped);
}

/// One more instruction at the end of a run.
pub proof fn lemma_step(code: Seq<InstV>, m: Machine, t: Machine) -> (u: Machine)
    requires
        reaches(code, m, t),
        step(code, t) is On,
    ensures
        step(code, t) == Run::On(u),
        reaches(code, m, u),
{
    let u = step(code, t)->On_0;
    assert(run(code, u, 0) == Run::On(u));
    assert(run(code, t, 1) == Run::On(u));
    lemma_then(code, m, t, u);
    u
}

// ---------------------------------------------------------------------------
// Code that is part of a program
// ---------------------------------------------------------------------------

/// The code of a program starts with `o`.
pub open spec fn within(code: Seq<InstV>, o: Out) -> bool {
    &&& code.len() <= usize::MAX
    &&& o.code.len() <= code.len()
    &&& forall|i: int| 0 <= i < o.code.len() ==> #[trigger] o.code[i] == code[i]
}

/// What was given and stored before place `n` is the same in both, and so is what is around.
pub open spec fn same_before(m: Machine, t: Machine, n: int) -> bool {
    &&& forall|k: int| k < n ==> #[trigger] t.cells[k] == m.cells[k]
    &&& forall|k: int| k < n ==> #[trigger] t.memory[k] == m.memory[k]
    &&& forall|k: int| k < n ==> #[trigger] t.stored[k] == m.stored[k]
    &&& t.around == m.around
}

/// The value `v` is the number `a`.
pub open spec fn holds(m: Machine, v: Value, a: int) -> bool {
    m.cells[v.id as int] == Cell::Number(a)
}

/// Between `o` and `t` the code goes on only at blocks of its own.
pub open spec fn own_blocks(o: Out, t: Out) -> bool {
    &&& o.code.len() <= t.code.len()
    &&& forall|i: int|
        o.code.len() <= i < t.code.len() && (#[trigger] t.code[i]).op is At ==> t.code[i].args[0] >= o.code.len()
}

pub proof fn lemma_emit(code: Seq<InstV>, o: Out, op: Op, args: Seq<usize>, text: Seq<char>)
    requires
        within(code, emit(o, op, args, text)),
    ensures
        within(code, o),
        emit(o, op, args, text).code.len() == o.code.len() + 1,
        code[o.code.len() as int] == (InstV { op, args, text }),
        o.code.len() < code.len(),
{
    reveal(emit);
    let t = emit(o, op, args, text);
    assert(t.code[o.code.len() as int] == code[o.code.len() as int]);
    assert forall|i: int| 0 <= i < o.code.len() implies #[trigger] o.code[i] == code[i] by {
        assert(t.code[i] == o.code[i]);
    }
}

/// A program that stops where a condition holds: `crash_if`.
proof fn lemma_crash_if(code: Seq<InstV>, o: Out, cond: Value, message: Seq<char>, m: Machine, c: int) -> (t: Machine)
    requires
        within(code, crash_if(o, cond, message)),
        m.next == o.code.len(),
        holds(m, cond, c),
        cond.id < o.code.len(),
    ensures
        within(code, o),
        own_blocks(o, crash_if(o, cond, message)),
        c != 0 ==> stops(code, m),
        c == 0 ==> reaches(code, m, t) && t.next == crash_if(o, cond, message).code.len() && same_before(
            m,
            t,
            o.code.len() as int,
        ),
{
    reveal(crash_if);
    reveal(block);
    reveal(branch);
    reveal(at);
    reveal(const_str);
    reveal(run1);
    reveal(do0);
    reveal(do1);
    reveal(do3);
    reveal(give0);
    let (o1, crash) = block(o, "int_crash"@);
    let (o2, next) = block(o1, "int_continue"@);
    let o3 = branch(o2, cond, crash, next);
    let o4 = at(o3, crash);
    let (o5, text) = const_str(o4, message);
    let o6 = run1(o5, Rt::IntDie, text);
    let o7 = do0(o6, Op::Unreachable);
    let o8 = at(o7, next);
    lemma_emit(code, o7, Op::At, seq![next.id], ""@);
    lemma_emit(code, o6, Op::Unreachable, Seq::empty(), ""@);
    lemma_emit(code, o5, Op::Call(Rt::IntDie), seq![text.id], ""@);
    lemma_emit(code, o4, Op::ConstStr, Seq::empty(), message);
    lemma_emit(code, o3, Op::At, seq![crash.id], ""@);
    lemma_emit(code, o2, Op::Branch, seq![cond.id, crash.id, next.id], ""@);
    lemma_emit(code, o1, Op::Block, Seq::empty(), "int_continue"@);
    lemma_emit(code, o, Op::Block, Seq::empty(), "int_crash"@);
    let n = o.code.len() as int;
    assert(landing(code, n, n) == n + 3) by {
        reveal_with_fuel(landing, 5);
    }
    assert(landing(code, n + 1, n + 1) == n + 7) by {
        reveal_with_fuel(landing, 8);
    }
    reveal(step);
    lemma_here(code, m);
    let m1 = lemma_step(code, m, m);
    let m2 = lemma_step(code, m, m1);
    let m3 = lemma_step(code, m, m2);
    let m4 = lemma_step(code, m, m3);
    if c != 0 {
        let m5 = lemma_step(code, m, m4);
        assert(step(code, m5) is Stopped);
        assert(run(code, m5, 1) is Stopped);
        lemma_then_stops(code, m, m5);
    }
    m4
}

// ---------------------------------------------------------------------------
// Arithmetic
// ---------------------------------------------------------------------------

/// Dropping the higher bits keeps exactly the numbers that fit.
pub proof fn lemma_wrapped(v: int, w: u32)
    ensures
        fits(wrapped(v, w), w),
        wrapped(v, w) == v <==> fits(v, w),
{
    let n = modulus(w);
    assert(n > 0);
    assert(0 <= v % n < n) by (nonlinear_arith)
        requires
            n > 0,
    ;
    if fits(v, w) {
        if v >= 0 {
            assert(v % n == v) by (nonlinear_arith)
                requires
                    0 <= v < n,
            ;
        } else {
            assert(v % n == v + n) by (nonlinear_arith)
                requires
                    -n <= v < 0,
            ;
        }
    }
}

/// A number at another width is the same number, or the program stops because it does not fit.
pub proof fn lemma_coerce_int_width(
    code: Seq<InstV>,
    o: Out,
    v: Value,
    w: u32,
    width: u32,
    m: Machine,
    a: int,
) -> (t: Machine)
    requires
        within(code, coerce_int_width(o, v, width).0),
        m.next == o.code.len(),
        v.repr == Repr::Int(w),
        int_width(w),
        int_width(width),
        holds(m, v, a),
        v.id < o.code.len(),
        fits(a, w),
    ensures
        within(code, o),
        own_blocks(o, coerce_int_width(o, v, width).0),
        coerce_int_width(o, v, width).1.repr == Repr::Int(width),
        coerce_int_width(o, v, width).1.id < coerce_int_width(o, v, width).0.code.len(),
        fits(a, width) ==> {
            &&& reaches(code, m, t)
            &&& t.next == coerce_int_width(o, v, width).0.code.len()
            &&& holds(t, coerce_int_width(o, v, width).1, a)
            &&& same_before(m, t, o.code.len() as int)
        },
        !fits(a, width) ==> stops(code, m),
{
    reveal(coerce_int_width);
    reveal(give1);
    reveal(give2);
    reveal(int_test);
    reveal(step);
    lemma_here(code, m);
    if w == width {
        m
    } else if w < width {
        lemma_emit(code, o, Op::SignExtend(width), seq![v.id], ""@);
        let t = lemma_step(code, m, m);
        assert(own_blocks(o, coerce_int_width(o, v, width).0)) by {
            reveal(emit);
        }
        t
    } else {
        let (o1, narrow) = give1(o, Op::Truncate(width), v, Repr::Int(width));
        let (o2, back) = give1(o1, Op::SignExtend(w), narrow, Repr::Int(w));
        let (o3, same) = int_test(o2, Test::Eq, v, back);
        let (o4, overflowed) = give1(o3, Op::Not, same, Repr::Int(1));
        let message = "int overflow: value doesn't fit in int[precision:"@ + decimal(width as nat) + "]"@;
        let o5 = crash_if(o4, overflowed, message);
        lemma_crash_prefix(code, o4, overflowed, message);
        lemma_emit(code, o3, Op::Not, seq![same.id], ""@);
        lemma_emit(code, o2, Op::IntTest(Test::Eq), seq![v.id, back.id], ""@);
        lemma_emit(code, o1, Op::SignExtend(w), seq![narrow.id], ""@);
        lemma_emit(code, o, Op::Truncate(width), seq![v.id], ""@);
        lemma_wrapped(a, width);
        let m1 = lemma_step(code, m, m);
        let m2 = lemma_step(code, m, m1);
        let m3 = lemma_step(code, m, m2);
        let m4 = lemma_step(code, m, m3);
        let c = truth(truth(a == wrapped(a, width)) == 0);
        let t = lemma_crash_if(code, o4, overflowed, message, m4, c);
        assert(own_blocks(o, o5)) by {
            assert forall|i: int| o.code.len() <= i < o5.code.len() && (#[trigger] o5.code[i]).op is At
                implies o5.code[i].args[0] >= o.code.len() by {
                assert(o5.code[i] == code[i]);
            }
        }
        if c != 0 {
            lemma_then_stops(code, m, m4);
        } else {
            lemma_then(code, m, m4, t);
        }
        t
    }
}

/// The code before a check is part of the program too.
proof fn lemma_crash_prefix(code: Seq<InstV>, o: Out, cond: Value, message: Seq<char>)
    requires
        within(code, crash_if(o, cond, message)),
    ensures
        within(code, o),
        crash_if(o, cond, message).code.len() == o.code.len() + 8,
        own_blocks(o, crash_if(o, cond, message)),
{
    reveal(crash_if);
    reveal(block);
    reveal(branch);
    reveal(at);
    reveal(const_str);
    reveal(run1);
    reveal(do0);
    reveal(do1);
    reveal(do3);
    reveal(give0);
    reveal(emit);
    let t = crash_if(o, cond, message);
    assert forall|i: int| 0 <= i < o.code.len() implies #[trigger] o.code[i] == code[i] by {
        assert(t.code[i] == o.code[i]);
    }
}

/// `+`, `-` and `x` give the exact result, or the program stops because it leaves 64 bits.
proof fn lemma_checked_int_arith(
    code: Seq<InstV>,
    o: Out,
    op: BinOp,
    l: Value,
    r: Value,
    m: Machine,
    a: int,
    b: int,
) -> (t: Machine)
    requires
        op is Add || op is Sub || op is Mul,
        within(code, checked_int_arith(o, op, l, r).0),
        m.next == o.code.len(),
        holds(m, l, a),
        holds(m, r, b),
        l.id < o.code.len(),
        r.id < o.code.len(),
    ensures
        within(code, o),
        own_blocks(o, checked_int_arith(o, op, l, r).0),
        checked_int_arith(o, op, l, r).1.repr == Repr::Int(64),
        checked_int_arith(o, op, l, r).1.id < checked_int_arith(o, op, l, r).0.code.len(),
        match fold_values(op, a, b) {
            Fold::Known(x) => {
                &&& reaches(code, m, t)
                &&& t.next == checked_int_arith(o, op, l, r).0.code.len()
                &&& holds(t, checked_int_arith(o, op, l, r).1, x)
                &&& same_before(m, t, o.code.len() as int)
            },
            _ => stops(code, m),
        },
{
    reveal(checked_int_arith);
    reveal(checked_result);
    reveal(call2);
    reveal(give1);
    reveal(step);
    let (rt, message, x) = match op {
        BinOp::Add => (Rt::AddOverflow, "int overflow: result of + doesn't fit in int"@, a + b),
        BinOp::Sub => (Rt::SubOverflow, "int overflow: result of - doesn't fit in int"@, a - b),
        _ => (Rt::MulOverflow, "int overflow: result of x doesn't fit in int"@, a * b),
    };
    let (o1, p) = call2(o, rt, l, r);
    let (o2, v) = give1(o1, Op::CheckedResult, p, Repr::Int(64));
    let (o3, overflowed) = give1(o2, Op::CheckedFlag, p, Repr::Int(1));
    let o4 = crash_if(o3, overflowed, message);
    lemma_crash_prefix(code, o3, overflowed, message);
    lemma_emit(code, o2, Op::CheckedFlag, seq![p.id], ""@);
    lemma_emit(code, o1, Op::CheckedResult, seq![p.id], ""@);
    lemma_emit(code, o, Op::Call(rt), seq![l.id, r.id], ""@);
    lemma_here(code, m);
    lemma_wrapped(x, 64);
    let m1 = lemma_step(code, m, m);
    let m2 = lemma_step(code, m, m1);
    let m3 = lemma_step(code, m, m2);
    let c = truth(!in_64(x));
    let t = lemma_crash_if(code, o3, overflowed, message, m3, c);
    assert(own_blocks(o, o4)) by {
        assert forall|i: int| o.code.len() <= i < o4.code.len() && (#[trigger] o4.code[i]).op is At
            implies o4.code[i].args[0] >= o.code.len() by {
            assert(o4.code[i] == code[i]);
        }
    }
    if c != 0 {
        lemma_then_stops(code, m, m3);
    } else {
        lemma_then(code, m, m3, t);
    }
    t
}

proof fn lemma_truncated_div(a: int, b: int)
    requires
        in_64(a),
        in_64(b),
        b != 0,
    ensures
        in_64(truncated_div(a, b)) <==> !(a == i64::MIN && b == -1),
{
    let x = magnitude_of(a);
    let y = magnitude_of(b);
    if y == 1 {
        assert(x / 1 == x);
    } else {
        assert(x / y <= x / 2) by (nonlinear_arith)
            requires
                y >= 2,
        ;
    }
}

/// `/` gives the quotient without its fraction, or the program stops: on a division by zero, and
/// where the quotient leaves 64 bits.
proof fn lemma_compile_int_div(code: Seq<InstV>, o: Out, l: Value, r: Value, m: Machine, a: int, b: int) -> (t: Machine)
    requires
        within(code, compile_int_div(o, l, r).0),
        m.next == o.code.len(),
        holds(m, l, a),
        holds(m, r, b),
        l.id < o.code.len(),
        r.id < o.code.len(),
        in_64(a),
        in_64(b),
    ensures
        within(code, o),
        own_blocks(o, compile_int_div(o, l, r).0),
        compile_int_div(o, l, r).1.repr == Repr::Int(64),
        compile_int_div(o, l, r).1.id < compile_int_div(o, l, r).0.code.len(),
        match fold_values(BinOp::Div, a, b) {
            Fold::Known(x) => {
                &&& reaches(code, m, t)
                &&& t.next == compile_int_div(o, l, r).0.code.len()
                &&& holds(t, compile_int_div(o, l, r).1, x)
                &&& same_before(m, t, o.code.len() as int)
            },
            _ => stops(code, m),
        },
{
    reveal(compile_int_div);
    reveal(const_int);
    reveal(int_test);
    reveal(give0);
    reveal(give2);
    reveal(step);
    let (o1, zero) = const_int(o, 64, 0);
    let (o2, by_zero) = int_test(o1, Test::Eq, r, zero);
    let o3 = crash_if(o2, by_zero, "int division by zero"@);
    let (o4, least) = const_int(o3, 64, i64::MIN);
    let (o5, minus) = const_int(o4, 64, (-1) as i64);
    let (o6, is_least) = int_test(o5, Test::Eq, l, least);
    let (o7, is_minus) = int_test(o6, Test::Eq, r, minus);
    let (o8, both) = give2(o7, Op::And, is_least, is_minus, Repr::Int(1));
    let o9 = crash_if(o8, both, "int overflow: i64::MIN / -1 doesn't fit in int"@);
    let (o10, q) = give2(o9, Op::IntDiv, l, r, Repr::Int(64));
    lemma_emit(code, o9, Op::IntDiv, seq![l.id, r.id], ""@);
    lemma_crash_prefix(code, o8, both, "int overflow: i64::MIN / -1 doesn't fit in int"@);
    lemma_emit(code, o7, Op::And, seq![is_least.id, is_minus.id], ""@);
    lemma_emit(code, o6, Op::IntTest(Test::Eq), seq![r.id, minus.id], ""@);
    lemma_emit(code, o5, Op::IntTest(Test::Eq), seq![l.id, least.id], ""@);
    lemma_emit(code, o4, Op::ConstInt(64, (-1) as i64), Seq::empty(), ""@);
    lemma_emit(code, o3, Op::ConstInt(64, i64::MIN), Seq::empty(), ""@);
    lemma_crash_prefix(code, o2, by_zero, "int division by zero"@);
    lemma_emit(code, o1, Op::IntTest(Test::Eq), seq![r.id, zero.id], ""@);
    lemma_emit(code, o, Op::ConstInt(64, 0), Seq::empty(), ""@);
    lemma_here(code, m);
    let m1 = lemma_step(code, m, m);
    let m2 = lemma_step(code, m, m1);
    let m3 = lemma_crash_if(code, o2, by_zero, "int division by zero"@, m2, truth(b == 0));
    assert(own_blocks(o, o10)) by {
        assert forall|i: int| o.code.len() <= i < o10.code.len() && (#[trigger] o10.code[i]).op is At
            implies o10.code[i].args[0] >= o.code.len() by {
            assert(o10.code[i] == code[i]);
            if i < o3.code.len() {
                assert(o3.code[i] == code[i]);
            } else if o8.code.len() <= i < o9.code.len() {
                assert(o9.code[i] == code[i]);
            }
        }
    }
    if b == 0 {
        lemma_then_stops(code, m, m2);
        m3
    } else {
        lemma_truncated_div(a, b);
        lemma_then(code, m, m2, m3);
        let m4 = lemma_step(code, m, m3);
        let m5 = lemma_step(code, m, m4);
        let m6 = lemma_step(code, m, m5);
        let m7 = lemma_step(code, m, m6);
        let m8 = lemma_step(code, m, m7);
        let c = truth(a == i64::MIN && b == -1);
        let m9 = lemma_crash_if(code, o8, both, "int overflow: i64::MIN / -1 doesn't fit in int"@, m8, c);
        if c != 0 {
            lemma_then_stops(code, m, m8);
            m9
        } else {
            lemma_then(code, m, m8, m9);
            lemma_wrapped(truncated_div(a, b), 64);
            lemma_step(code, m, m9)
        }
    }
}

/// A negation gives the exact result at its own width, or the program stops because it does not
/// fit.
pub proof fn lemma_compile_int_neg(code: Seq<InstV>, o: Out, v: Value, w: u32, m: Machine, a: int) -> (t: Machine)
    requires
        within(code, compile_int_neg(o, v).0),
        m.next == o.code.len(),
        v.repr == Repr::Int(w),
        int_width(w),
        holds(m, v, a),
        v.id < o.code.len(),
        fits(a, w),
    ensures
        within(code, o),
        own_blocks(o, compile_int_neg(o, v).0),
        compile_int_neg(o, v).1.repr == Repr::Int(w),
        compile_int_neg(o, v).1.id < compile_int_neg(o, v).0.code.len(),
        fits(-a, w) ==> {
            &&& reaches(code, m, t)
            &&& t.next == compile_int_neg(o, v).0.code.len()
            &&& holds(t, compile_int_neg(o, v).1, -a)
            &&& same_before(m, t, o.code.len() as int)
        },
        !fits(-a, w) ==> stops(code, m),
{
    reveal(compile_int_neg);
    reveal(const_int);
    reveal(int_test);
    reveal(give0);
    reveal(give1);
    reveal(give2);
    reveal(step);
    let message = "int overflow: negating i64::MIN doesn't fit in int"@;
    let (o1, wide) = coerce_int_width(o, v, 64);
    let (o2, least) = const_int(o1, 64, i64::MIN);
    let (o3, is_least) = int_test(o2, Test::Eq, wide, least);
    let o4 = crash_if(o3, is_least, message);
    let (o5, n) = give1(o4, Op::IntNeg, wide, Repr::Int(64));
    let (o6, r) = coerce_int_width(o5, n, w);
    lemma_width_prefix(code, o5, n, 64, w);
    lemma_emit(code, o4, Op::IntNeg, seq![wide.id], ""@);
    lemma_crash_prefix(code, o3, is_least, message);
    lemma_emit(code, o2, Op::IntTest(Test::Eq), seq![wide.id, least.id], ""@);
    lemma_emit(code, o1, Op::ConstInt(64, i64::MIN), Seq::empty(), ""@);
    lemma_width_prefix(code, o, v, w, 64);
    assert(own_blocks(o, o6)) by {
        assert forall|i: int| o.code.len() <= i < o6.code.len() && (#[trigger] o6.code[i]).op is At
            implies o6.code[i].args[0] >= o.code.len() by {
            assert(o6.code[i] == code[i]);
            if i < o1.code.len() {
                assert(o1.code[i] == code[i]);
            } else if o3.code.len() <= i < o4.code.len() {
                assert(o4.code[i] == code[i]);
            }
        }
    }
    let m1 = lemma_coerce_int_width(code, o, v, w, 64, m, a);
    let m2 = lemma_step(code, m, m1);
    let m3 = lemma_step(code, m, m2);
    let c = truth(a == i64::MIN);
    let m4 = lemma_crash_if(code, o3, is_least, message, m3, c);
    if c != 0 {
        lemma_then_stops(code, m, m3);
        m4
    } else {
        lemma_then(code, m, m3, m4);
        lemma_wrapped(-a, 64);
        let m5 = lemma_step(code, m, m4);
        let m6 = lemma_coerce_int_width(code, o5, n, 64, w, m5, -a);
        if fits(-a, w) {
            lemma_then(code, m, m5, m6);
        } else {
            lemma_then_stops(code, m, m5);
        }
        m6
    }
}

/// The code before a change of width is part of the program too.
pub proof fn lemma_width_prefix(code: Seq<InstV>, o: Out, v: Value, w: u32, width: u32)
    requires
        within(code, coerce_int_width(o, v, width).0),
        v.repr == Repr::Int(w),
    ensures
        within(code, o),
        own_blocks(o, coerce_int_width(o, v, width).0),
        coerce_int_width(o, v, width).1.repr == Repr::Int(width),
        v.id < o.code.len() ==> coerce_int_width(o, v, width).1.id < coerce_int_width(o, v, width).0.code.len(),
{
    reveal(coerce_int_width);
    reveal(give1);
    reveal(give2);
    reveal(int_test);
    if w < width {
        lemma_emit(code, o, Op::SignExtend(width), seq![v.id], ""@);
        reveal(emit);
    } else if w > width {
        let (o1, narrow) = give1(o, Op::Truncate(width), v, Repr::Int(width));
        let (o2, back) = give1(o1, Op::SignExtend(w), narrow, Repr::Int(w));
        let (o3, same) = int_test(o2, Test::Eq, v, back);
        let (o4, overflowed) = give1(o3, Op::Not, same, Repr::Int(1));
        let message = "int overflow: value doesn't fit in int[precision:"@ + decimal(width as nat) + "]"@;
        let o5 = crash_if(o4, overflowed, message);
        lemma_crash_prefix(code, o4, overflowed, message);
        lemma_emit(code, o3, Op::Not, seq![same.id], ""@);
        lemma_emit(code, o2, Op::IntTest(Test::Eq), seq![v.id, back.id], ""@);
        lemma_emit(code, o1, Op::SignExtend(w), seq![narrow.id], ""@);
        lemma_emit(code, o, Op::Truncate(width), seq![v.id], ""@);
        assert forall|i: int| o.code.len() <= i < o5.code.len() && (#[trigger] o5.code[i]).op is At
            implies o5.code[i].args[0] >= o.code.len() by {
            assert(o5.code[i] == code[i]);
        }
    }
}

// ---------------------------------------------------------------------------
// Loops
// ---------------------------------------------------------------------------

pub proof fn lemma_landing(code: Seq<InstV>, b: int, i: int, j: int)
    requires
        0 <= i <= j <= code.len(),
        forall|k: int| i <= k < j && (#[trigger] code[k]).op is At ==> code[k].args[0] != b,
    ensures
        landing(code, b, i) == landing(code, b, j),
    decreases j - i,
{
    if i < j {
        lemma_landing(code, b, i + 1, j);
    }
}

/// The instructions that start a loop.
pub proof fn lemma_loop_begin(code: Seq<InstV>, o: Out, first: i64, test: Test, limit: Value)
    requires
        within(code, loop_begin(o, first, test, limit).0),
    ensures
        within(code, o),
        loop_begin(o, first, test, limit).0.code.len() == o.code.len() + 12,
        ({
            let l = loop_begin(o, first, test, limit).1;
            let n = o.code.len() as int;
            let p = n as usize;
            let h = (n + 3) as usize;
            let b = (n + 4) as usize;
            let d = (n + 5) as usize;
            let c = (n + 8) as usize;
            let q = (n + 9) as usize;
            &&& l.place.id == p
            &&& l.head.id == h
            &&& l.done.id == d
            &&& l.counter.id == c
            &&& code[n].op is Slot
            &&& code[n + 1].op == Op::ConstInt(64, first)
            &&& code[n + 2].op is Store && code[n + 2].args == seq![p, (n + 1) as usize]
            &&& code[n + 3].op is Block
            &&& code[n + 4].op is Block
            &&& code[n + 5].op is Block
            &&& code[n + 6].op is Jump && code[n + 6].args == seq![h]
            &&& code[n + 7].op is At && code[n + 7].args == seq![h]
            &&& code[n + 8].op == Op::Load(Repr::Int(64)) && code[n + 8].args == seq![p]
            &&& code[n + 9].op == Op::IntTest(test) && code[n + 9].args == seq![c, limit.id]
            &&& code[n + 10].op is Branch && code[n + 10].args == seq![q, b, d]
            &&& code[n + 11].op is At && code[n + 11].args == seq![b]
            &&& landing(code, n + 3, n + 3) == n + 7
            &&& landing(code, n + 4, n + 4) == n + 11
            &&& landing(code, n + 5, n + 5) == landing(code, n + 5, n + 12)
        }),
{
    reveal(loop_begin);
    reveal(slot);
    reveal(store);
    reveal(jump);
    reveal(load);
    reveal(block);
    reveal(branch);
    reveal(at);
    reveal(const_int);
    reveal(int_test);
    reveal(do1);
    reveal(do2);
    reveal(do3);
    reveal(give0);
    reveal(give1);
    reveal(give2);
    let (o1, place) = slot(o, Repr::Int(64), "loop_counter"@);
    let (o2, start) = const_int(o1, 64, first);
    let o3 = store(o2, place, start);
    let (o4, head) = block(o3, "loop_head"@);
    let (o5, body) = block(o4, "loop_body"@);
    let (o6, done) = block(o5, "loop_done"@);
    let o7 = jump(o6, head);
    let o8 = at(o7, head);
    let (o9, counter) = load(o8, Repr::Int(64), place);
    let (o10, more) = int_test(o9, test, counter, limit);
    let o11 = branch(o10, more, body, done);
    let o12 = at(o11, body);
    lemma_emit(code, o11, Op::At, seq![body.id], ""@);
    lemma_emit(code, o10, Op::Branch, seq![more.id, body.id, done.id], ""@);
    lemma_emit(code, o9, Op::IntTest(test), seq![counter.id, limit.id], ""@);
    lemma_emit(code, o8, Op::Load(Repr::Int(64)), seq![place.id], ""@);
    lemma_emit(code, o7, Op::At, seq![head.id], ""@);
    lemma_emit(code, o6, Op::Jump, seq![head.id], ""@);
    lemma_emit(code, o5, Op::Block, Seq::empty(), "loop_done"@);
    lemma_emit(code, o4, Op::Block, Seq::empty(), "loop_body"@);
    lemma_emit(code, o3, Op::Block, Seq::empty(), "loop_head"@);
    lemma_emit(code, o2, Op::Store, seq![place.id, start.id], ""@);
    lemma_emit(code, o1, Op::ConstInt(64, first), Seq::empty(), ""@);
    lemma_emit(code, o, Op::Slot(Repr::Int(64)), Seq::empty(), "loop_counter"@);
    let n = o.code.len() as int;
    lemma_landing(code, n + 3, n + 3, n + 7);
    lemma_landing(code, n + 4, n + 4, n + 11);
    lemma_landing(code, n + 5, n + 5, n + 12);
}

/// A loop is entered: the counter is `first`, and the test comes next.
pub proof fn lemma_loop_enter(code: Seq<InstV>, o: Out, first: i64, test: Test, limit: Value, m: Machine) -> (t: Machine)
    requires
        within(code, loop_begin(o, first, test, limit).0),
        m.next == o.code.len(),
    ensures
        reaches(code, m, t),
        t.next == o.code.len() + 7,
        t.memory[o.code.len() as int] == first,
        same_before(m, t, o.code.len() as int),
{
    lemma_loop_begin(code, o, first, test, limit);
    reveal(step);
    lemma_here(code, m);
    let m1 = lemma_step(code, m, m);
    let m2 = lemma_step(code, m, m1);
    let m3 = lemma_step(code, m, m2);
    let m4 = lemma_step(code, m, m3);
    let m5 = lemma_step(code, m, m4);
    let m6 = lemma_step(code, m, m5);
    let m7 = lemma_step(code, m, m6);
    m7
}

/// The test of a loop: the body comes next, or what is behind the loop.
pub proof fn lemma_loop_test(
    code: Seq<InstV>,
    o: Out,
    first: i64,
    test: Test,
    limit: Value,
    m: Machine,
    c: int,
    e: int,
) -> (t: Machine)
    requires
        within(code, loop_begin(o, first, test, limit).0),
        m.next == o.code.len() + 7,
        m.memory[o.code.len() as int] == c,
        holds(m, limit, e),
        limit.id < o.code.len(),
    ensures
        reaches(code, m, t),
        t.memory == m.memory,
        t.stored == m.stored,
        same_before(m, t, o.code.len() as int),
        passes(test, c, e) ==> t.next == o.code.len() + 12 && t.cells[o.code.len() as int + 8] == Cell::Number(c),
        !passes(test, c, e) ==> t.next == landing(code, o.code.len() as int + 5, o.code.len() as int + 12),
{
    lemma_loop_begin(code, o, first, test, limit);
    reveal(step);
    lemma_here(code, m);
    let m1 = lemma_step(code, m, m);
    let m2 = lemma_step(code, m, m1);
    let m3 = lemma_step(code, m, m2);
    let m4 = lemma_step(code, m, m3);
    if passes(test, c, e) {
        lemma_step(code, m, m4)
    } else {
        m4
    }
}

/// The instructions that end a loop.
pub proof fn lemma_loop_end(code: Seq<InstV>, o: Out, l: Looping)
    requires
        within(code, loop_end(o, l)),
    ensures
        within(code, o),
        loop_end(o, l).code.len() == o.code.len() + 5,
        ({
            let k = o.code.len() as int;
            &&& code[k].op == Op::ConstInt(64, 1)
            &&& code[k + 1].op is IntAdd && code[k + 1].args == seq![l.counter.id, k as usize]
            &&& code[k + 2].op is Store && code[k + 2].args == seq![l.place.id, (k + 1) as usize]
            &&& code[k + 3].op is Jump && code[k + 3].args == seq![l.head.id]
            &&& code[k + 4].op is At && code[k + 4].args == seq![l.done.id]
        }),
{
    reveal(loop_end);
    reveal(const_int);
    reveal(store);
    reveal(jump);
    reveal(at);
    reveal(do1);
    reveal(do2);
    reveal(give0);
    reveal(give2);
    let (o1, one) = const_int(o, 64, 1);
    let (o2, next) = give2(o1, Op::IntAdd, l.counter, one, Repr::Int(64));
    let o3 = store(o2, l.place, next);
    let o4 = jump(o3, l.head);
    lemma_emit(code, o4, Op::At, seq![l.done.id], ""@);
    lemma_emit(code, o3, Op::Jump, seq![l.head.id], ""@);
    lemma_emit(code, o2, Op::Store, seq![l.place.id, next.id], ""@);
    lemma_emit(code, o1, Op::IntAdd, seq![l.counter.id, one.id], ""@);
    lemma_emit(code, o, Op::ConstInt(64, 1), Seq::empty(), ""@);
}

/// The end of a loop's body: the counter goes up, and the test comes next.
pub proof fn lemma_loop_again(code: Seq<InstV>, o: Out, l: Looping, m: Machine, c: int, head: int) -> (t: Machine)
    requires
        within(code, loop_end(o, l)),
        m.next == o.code.len(),
        holds(m, l.counter, c),
        l.counter.id < o.code.len(),
        in_64(c + 1),
        landing(code, l.head.id as int, l.head.id as int) == head,
    ensures
        reaches(code, m, t),
        t.next == head,
        t.memory == m.memory.insert(l.place.id as int, c + 1),
        t.stored == m.stored.insert(l.place.id as int, Cell::Number(c + 1)),
        t.around == m.around,
        forall|k: int| k < o.code.len() ==> #[trigger] t.cells[k] == m.cells[k],
{
    lemma_loop_end(code, o, l);
    reveal(step);
    lemma_here(code, m);
    lemma_wrapped(c + 1, 64);
    let m1 = lemma_step(code, m, m);
    let m2 = lemma_step(code, m, m1);
    let m3 = lemma_step(code, m, m2);
    lemma_step(code, m, m3)
}

/// A loop around code that keeps to its own blocks: where the loop ends, and that it keeps to its
/// own blocks too.
pub proof fn lemma_loop_around(code: Seq<InstV>, o: Out, first: i64, test: Test, limit: Value, body: Out)
    requires
        within(code, loop_end(body, loop_begin(o, first, test, limit).1)),
        within(code, loop_begin(o, first, test, limit).0),
        own_blocks(loop_begin(o, first, test, limit).0, body),
    ensures
        landing(code, o.code.len() as int + 5, o.code.len() as int + 12) == body.code.len() + 4,
        own_blocks(o, loop_end(body, loop_begin(o, first, test, limit).1)),
{
    let n = o.code.len() as int;
    let k = body.code.len() as int;
    let (o1, l) = loop_begin(o, first, test, limit);
    let t = loop_end(body, l);
    lemma_loop_begin(code, o, first, test, limit);
    lemma_loop_end(code, body, l);
    assert forall|i: int| n + 12 <= i < k + 4 && (#[trigger] code[i]).op is At implies code[i].args[0] != n + 5 by {
        if i < k {
            assert(body.code[i] == code[i]);
        }
    }
    lemma_landing(code, n + 5, n + 12, k + 4);
    assert forall|i: int| n <= i < t.code.len() && (#[trigger] t.code[i]).op is At implies t.code[i].args[0] >= n by {
        assert(t.code[i] == code[i]);
        if n + 12 <= i < k {
            assert(body.code[i] == code[i]);
        }
    }
}

/// The code before a checked operation is part of the program too.
pub proof fn lemma_checked_prefix(code: Seq<InstV>, o: Out, op: BinOp, l: Value, r: Value)
    requires
        op is Add || op is Sub || op is Mul,
        within(code, checked_int_arith(o, op, l, r).0),
    ensures
        within(code, o),
        own_blocks(o, checked_int_arith(o, op, l, r).0),
        checked_int_arith(o, op, l, r).1.repr == Repr::Int(64),
        checked_int_arith(o, op, l, r).1.id < checked_int_arith(o, op, l, r).0.code.len(),
{
    reveal(checked_int_arith);
    reveal(checked_result);
    reveal(call2);
    reveal(give1);
    let (rt, message) = match op {
        BinOp::Add => (Rt::AddOverflow, "int overflow: result of + doesn't fit in int"@),
        BinOp::Sub => (Rt::SubOverflow, "int overflow: result of - doesn't fit in int"@),
        _ => (Rt::MulOverflow, "int overflow: result of x doesn't fit in int"@),
    };
    let (o1, p) = call2(o, rt, l, r);
    let (o2, v) = give1(o1, Op::CheckedResult, p, Repr::Int(64));
    let (o3, overflowed) = give1(o2, Op::CheckedFlag, p, Repr::Int(1));
    let o4 = crash_if(o3, overflowed, message);
    lemma_crash_prefix(code, o3, overflowed, message);
    lemma_emit(code, o2, Op::CheckedFlag, seq![p.id], ""@);
    lemma_emit(code, o1, Op::CheckedResult, seq![p.id], ""@);
    lemma_emit(code, o, Op::Call(rt), seq![l.id, r.id], ""@);
    assert forall|i: int| o.code.len() <= i < o4.code.len() && (#[trigger] o4.code[i]).op is At
        implies o4.code[i].args[0] >= o.code.len() by {
        assert(o4.code[i] == code[i]);
    }
}

/// The parts of a power: the code before the loop, the start of its body, the code before the
/// checked product, behind it, and before the end of the loop.
pub struct PowerParts {
    pub before: Out,
    pub result: Value,
    pub body: Out,
    pub looping: Looping,
    pub product: Out,
    pub current: Value,
    pub stored: Out,
    pub next: Value,
    pub end: Out,
}

/// The parts of `xx`.
pub open spec fn power_parts(o: Out, base: Value, exponent: Value) -> PowerParts {
    let (o1, zero) = const_int(o, 64, 0);
    let (o2, negative) = int_test(o1, Test::Lt, exponent, zero);
    let o3 = crash_if(o2, negative, "int power requires a non-negative exponent"@);
    let (o4, result) = slot(o3, Repr::Int(64), "int_pow_result"@);
    let (o5, one) = const_int(o4, 64, 1);
    let before = store(o5, result, one);
    let (body, looping) = loop_begin(before, 0, Test::Lt, exponent);
    let (product, current) = load(body, Repr::Int(64), result);
    let (stored, next) = checked_int_arith(product, BinOp::Mul, current, base);
    let end = store(stored, result, next);
    PowerParts { before, result, body, looping, product, current, stored, next, end }
}

proof fn lemma_power_parts(code: Seq<InstV>, o: Out, base: Value, exponent: Value)
    requires
        within(code, compile_int_pow(o, base, exponent).0),
    ensures
        within(code, o),
        own_blocks(o, compile_int_pow(o, base, exponent).0),
        compile_int_pow(o, base, exponent).1.repr == Repr::Int(64),
        compile_int_pow(o, base, exponent).1.id == compile_int_pow(o, base, exponent).0.code.len() - 1,
        ({
            let p = power_parts(o, base, exponent);
            let n = o.code.len() as int;
            let k = p.end.code.len() as int;
            &&& within(code, p.before)
            &&& within(code, p.body)
            &&& within(code, p.product)
            &&& within(code, p.stored)
            &&& within(code, p.end)
            &&& within(code, loop_end(p.end, p.looping))
            &&& within(
                code,
                crash_if(
                    power_test(o, exponent).0,
                    power_test(o, exponent).1,
                    "int power requires a non-negative exponent"@,
                ),
            )
            &&& code[n].op == Op::ConstInt(64, 0)
            &&& code[n + 1].op == Op::IntTest(Test::Lt) && code[n + 1].args == seq![exponent.id, n as usize]
            &&& power_test(o, exponent).0.code.len() == n + 2
            &&& power_test(o, exponent).1.id == n + 1
            &&& code[n + 10].op is Slot
            &&& p.result.id == n + 10
            &&& code[n + 11].op == Op::ConstInt(64, 1)
            &&& code[n + 12].op is Store && code[n + 12].args == seq![p.result.id, (n + 11) as usize]
            &&& p.before.code.len() == n + 13
            &&& p.body.code.len() == n + 25
            &&& code[n + 25].op == Op::Load(Repr::Int(64)) && code[n + 25].args == seq![p.result.id]
            &&& p.current.id == n + 25
            &&& p.product.code.len() == n + 26
            &&& p.next.id < p.stored.code.len()
            &&& code[k - 1].op is Store && code[k - 1].args == seq![p.result.id, p.next.id]
            &&& k == p.stored.code.len() + 1
            &&& p.stored.code.len() >= n + 26
            &&& landing(code, n + 18, n + 25) == k + 4
            &&& compile_int_pow(o, base, exponent).0.code.len() == k + 6
            &&& code[k + 4].op is At
            &&& code[k + 5].op == Op::Load(Repr::Int(64)) && code[k + 5].args == seq![p.result.id]
        }),
{
    reveal(compile_int_pow);
    reveal(const_int);
    reveal(int_test);
    reveal(slot);
    reveal(store);
    reveal(load);
    reveal(do2);
    reveal(give0);
    reveal(give1);
    reveal(give2);
    let message = "int power requires a non-negative exponent"@;
    let p = power_parts(o, base, exponent);
    let (o1, zero) = const_int(o, 64, 0);
    let (o2, negative) = int_test(o1, Test::Lt, exponent, zero);
    let o3 = crash_if(o2, negative, message);
    let (o4, result) = slot(o3, Repr::Int(64), "int_pow_result"@);
    let (o5, one) = const_int(o4, 64, 1);
    let o11 = loop_end(p.end, p.looping);
    let (o12, v) = load(o11, Repr::Int(64), result);
    lemma_emit(code, o11, Op::Load(Repr::Int(64)), seq![result.id], ""@);
    lemma_loop_end(code, p.end, p.looping);
    lemma_emit(code, p.stored, Op::Store, seq![result.id, p.next.id], ""@);
    lemma_checked_prefix(code, p.product, BinOp::Mul, p.current, base);
    lemma_emit(code, p.body, Op::Load(Repr::Int(64)), seq![result.id], ""@);
    lemma_loop_begin(code, p.before, 0, Test::Lt, exponent);
    lemma_emit(code, o5, Op::Store, seq![result.id, one.id], ""@);
    lemma_emit(code, o4, Op::ConstInt(64, 1), Seq::empty(), ""@);
    lemma_emit(code, o3, Op::Slot(Repr::Int(64)), Seq::empty(), "int_pow_result"@);
    lemma_crash_prefix(code, o2, negative, message);
    lemma_emit(code, o1, Op::IntTest(Test::Lt), seq![exponent.id, zero.id], ""@);
    lemma_emit(code, o, Op::ConstInt(64, 0), Seq::empty(), ""@);
    assert(own_blocks(p.body, p.end)) by {
        assert forall|i: int| p.body.code.len() <= i < p.end.code.len() && (#[trigger] p.end.code[i]).op is At
            implies p.end.code[i].args[0] >= p.body.code.len() by {
            assert(p.end.code[i] == code[i]);
            if p.product.code.len() <= i < p.stored.code.len() {
                assert(p.stored.code[i] == code[i]);
            }
        }
    }
    lemma_loop_around(code, p.before, 0, Test::Lt, exponent, p.end);
    assert forall|i: int| o.code.len() <= i < o12.code.len() && (#[trigger] o12.code[i]).op is At
        implies o12.code[i].args[0] >= o.code.len() by {
        assert(o12.code[i] == code[i]);
        if o2.code.len() <= i < o3.code.len() {
            assert(o3.code[i] == code[i]);
        } else if p.before.code.len() <= i < o11.code.len() {
            assert(o11.code[i] == code[i]);
        }
    }
}

/// The test for a negative exponent.
pub open spec fn power_test(o: Out, exponent: Value) -> (Out, Value) {
    let (o1, zero) = const_int(o, 64, 0);
    int_test(o1, Test::Lt, exponent, zero)
}

/// A power that leaves 64 bits does not come back.
proof fn lemma_power_out(b: int, i: nat, e: nat)
    requires
        i <= e,
        !in_64(power(b, i)),
    ensures
        !in_64(power(b, e)),
{
    lemma_power_of_small(b, i);
    lemma_power_stays_out(b, i, e);
}

/// The loop of a power, from its test on, when `i` factors have been multiplied.
proof fn lemma_power_loop(
    code: Seq<InstV>,
    o: Out,
    base: Value,
    exponent: Value,
    m: Machine,
    b: int,
    e: int,
    i: int,
) -> (t: Machine)
    requires
        within(code, compile_int_pow(o, base, exponent).0),
        m.next == o.code.len() + 20,
        holds(m, base, b),
        holds(m, exponent, e),
        base.id < o.code.len(),
        exponent.id < o.code.len(),
        in_64(e),
        0 <= i <= e,
        m.memory[o.code.len() as int + 13] == i,
        m.memory[o.code.len() as int + 10] == power(b, i as nat),
    ensures
        in_64(power(b, e as nat)) ==> {
            &&& reaches(code, m, t)
            &&& t.next == compile_int_pow(o, base, exponent).0.code.len()
            &&& holds(t, compile_int_pow(o, base, exponent).1, power(b, e as nat))
            &&& same_before(m, t, o.code.len() as int)
        },
        !in_64(power(b, e as nat)) && i < e ==> stops(code, m),
    decreases e - i,
{
    lemma_power_parts(code, o, base, exponent);
    let p = power_parts(o, base, exponent);
    lemma_loop_begin(code, p.before, 0, Test::Lt, exponent);
    lemma_loop_end(code, p.end, p.looping);
    let n = o.code.len() as int;
    let m1 = lemma_loop_test(code, p.before, 0, Test::Lt, exponent, m, i, e);
    reveal(step);
    if i == e {
        let m2 = lemma_step(code, m, m1);
        lemma_step(code, m, m2)
    } else {
        let m2 = lemma_step(code, m, m1);
        let x = power(b, i as nat);
        assert(power(b, (i + 1) as nat) == x * b);
        let m3 = lemma_checked_int_arith(code, p.product, BinOp::Mul, p.current, base, m2, x, b);
        if in_64(x * b) {
            lemma_then(code, m, m2, m3);
            let m4 = lemma_step(code, m, m3);
            assert(holds(m4, p.looping.counter, i));
            let m5 = lemma_loop_again(code, p.end, p.looping, m4, i, n + 20);
            lemma_then(code, m, m4, m5);
            let t = lemma_power_loop(code, o, base, exponent, m5, b, e, i + 1);
            if in_64(power(b, e as nat)) {
                lemma_then(code, m, m5, t);
                assert(same_before(m, t, n));
            } else {
                lemma_then_stops(code, m, m5);
            }
            t
        } else {
            lemma_power_out(b, (i + 1) as nat, e as nat);
            lemma_then_stops(code, m, m2);
            m3
        }
    }
}

/// `xx` gives the exact power, or the program stops: on a negative exponent, and where the power
/// leaves 64 bits.
proof fn lemma_compile_int_pow(
    code: Seq<InstV>,
    o: Out,
    base: Value,
    exponent: Value,
    m: Machine,
    b: int,
    e: int,
) -> (t: Machine)
    requires
        within(code, compile_int_pow(o, base, exponent).0),
        m.next == o.code.len(),
        holds(m, base, b),
        holds(m, exponent, e),
        base.id < o.code.len(),
        exponent.id < o.code.len(),
        in_64(e),
    ensures
        match fold_power(b, e) {
            Fold::Known(x) => {
                &&& reaches(code, m, t)
                &&& t.next == compile_int_pow(o, base, exponent).0.code.len()
                &&& holds(t, compile_int_pow(o, base, exponent).1, x)
                &&& same_before(m, t, o.code.len() as int)
            },
            _ => stops(code, m),
        },
{
    lemma_power_parts(code, o, base, exponent);
    let p = power_parts(o, base, exponent);
    let (o2, negative) = power_test(o, exponent);
    let message = "int power requires a non-negative exponent"@;
    let n = o.code.len() as int;
    reveal(step);
    lemma_here(code, m);
    lemma_crash_prefix(code, o2, negative, message);
    let m1 = lemma_step(code, m, m);
    let m2 = lemma_step(code, m, m1);
    let m3 = lemma_crash_if(code, o2, negative, message, m2, truth(e < 0));
    if e < 0 {
        lemma_then_stops(code, m, m2);
        m3
    } else {
        lemma_then(code, m, m2, m3);
        let m4 = lemma_step(code, m, m3);
        let m5 = lemma_step(code, m, m4);
        let m6 = lemma_step(code, m, m5);
        assert(m6.memory[n + 10] == 1);
        let m7 = lemma_loop_enter(code, p.before, 0, Test::Lt, exponent, m6);
        lemma_then(code, m, m6, m7);
        let t = lemma_power_loop(code, o, base, exponent, m7, b, e, 0);
        if in_64(power(b, e as nat)) {
            lemma_then(code, m, m7, t);
        } else {
            assert(e > 0);
            lemma_then_stops(code, m, m7);
        }
        t
    }
}

/// The parts of a tower: the code before the loop, the start of its body, the code before the
/// power, behind it, and before the end of the loop.
pub struct TowerParts {
    pub before: Out,
    pub result: Value,
    pub body: Out,
    pub looping: Looping,
    pub inner: Out,
    pub current: Value,
    pub stored: Out,
    pub next: Value,
    pub end: Out,
}

/// The parts of `xxx`.
pub open spec fn tower_parts(o: Out, base: Value, height: Value) -> TowerParts {
    let (o1, result) = slot(o, Repr::Int(64), "int_tet_result"@);
    let before = store(o1, result, base);
    let (body, looping) = loop_begin(before, 2, Test::Le, height);
    let (inner, current) = load(body, Repr::Int(64), result);
    let (stored, next) = compile_int_pow(inner, base, current);
    let end = store(stored, result, next);
    TowerParts { before, result, body, looping, inner, current, stored, next, end }
}

proof fn lemma_tower_parts(code: Seq<InstV>, o: Out, base: Value, height: Value)
    requires
        within(code, compile_int_tetration(o, base, height).0),
    ensures
        within(code, o),
        own_blocks(o, compile_int_tetration(o, base, height).0),
        compile_int_tetration(o, base, height).1.repr == Repr::Int(64),
        compile_int_tetration(o, base, height).1.id == compile_int_tetration(o, base, height).0.code.len() - 1,
        ({
            let p = tower_parts(o, base, height);
            let n = o.code.len() as int;
            let k = p.end.code.len() as int;
            &&& within(code, p.before)
            &&& within(code, p.body)
            &&& within(code, p.inner)
            &&& within(code, p.stored)
            &&& within(code, p.end)
            &&& within(code, loop_end(p.end, p.looping))
            &&& code[n].op is Slot
            &&& p.result.id == n
            &&& code[n + 1].op is Store && code[n + 1].args == seq![p.result.id, base.id]
            &&& p.before.code.len() == n + 2
            &&& p.body.code.len() == n + 14
            &&& code[n + 14].op == Op::Load(Repr::Int(64)) && code[n + 14].args == seq![p.result.id]
            &&& p.current.id == n + 14
            &&& p.inner.code.len() == n + 15
            &&& p.next.id < p.stored.code.len()
            &&& code[k - 1].op is Store && code[k - 1].args == seq![p.result.id, p.next.id]
            &&& k == p.stored.code.len() + 1
            &&& p.stored.code.len() >= n + 15
            &&& landing(code, n + 7, n + 14) == k + 4
            &&& compile_int_tetration(o, base, height).0.code.len() == k + 6
            &&& code[k + 4].op is At
            &&& code[k + 5].op == Op::Load(Repr::Int(64)) && code[k + 5].args == seq![p.result.id]
        }),
{
    reveal(compile_int_tetration);
    reveal(slot);
    reveal(store);
    reveal(load);
    reveal(do2);
    reveal(give0);
    reveal(give1);
    let p = tower_parts(o, base, height);
    let (o1, result) = slot(o, Repr::Int(64), "int_tet_result"@);
    let o11 = loop_end(p.end, p.looping);
    let (o12, v) = load(o11, Repr::Int(64), result);
    lemma_emit(code, o11, Op::Load(Repr::Int(64)), seq![result.id], ""@);
    lemma_loop_end(code, p.end, p.looping);
    lemma_emit(code, p.stored, Op::Store, seq![result.id, p.next.id], ""@);
    lemma_power_parts(code, p.inner, base, p.current);
    lemma_emit(code, p.body, Op::Load(Repr::Int(64)), seq![result.id], ""@);
    lemma_loop_begin(code, p.before, 2, Test::Le, height);
    lemma_emit(code, o1, Op::Store, seq![result.id, base.id], ""@);
    lemma_emit(code, o, Op::Slot(Repr::Int(64)), Seq::empty(), "int_tet_result"@);
    assert(own_blocks(p.body, p.end)) by {
        assert forall|i: int| p.body.code.len() <= i < p.end.code.len() && (#[trigger] p.end.code[i]).op is At
            implies p.end.code[i].args[0] >= p.body.code.len() by {
            assert(p.end.code[i] == code[i]);
            if p.inner.code.len() <= i < p.stored.code.len() {
                assert(p.stored.code[i] == code[i]);
            }
        }
    }
    lemma_loop_around(code, p.before, 2, Test::Le, height, p.end);
    assert forall|i: int| o.code.len() <= i < o12.code.len() && (#[trigger] o12.code[i]).op is At
        implies o12.code[i].args[0] >= o.code.len() by {
        assert(o12.code[i] == code[i]);
        if p.before.code.len() <= i < o11.code.len() {
            assert(o11.code[i] == code[i]);
        }
    }
}

/// Whether the counter of a tower can pass its height. A tower of the largest height there is
/// never ends if nothing stops it before.
pub open spec fn tower_ends(b: int, h: int) -> bool {
    h < i64::MAX || (b != 0 && b != 1)
}

/// The loop of a tower, from its test on, when it is `i - 1` high.
proof fn lemma_tower_loop(
    code: Seq<InstV>,
    o: Out,
    base: Value,
    height: Value,
    m: Machine,
    b: int,
    h: int,
    i: int,
    v: int,
) -> (t: Machine)
    requires
        within(code, compile_int_tetration(o, base, height).0),
        m.next == o.code.len() + 9,
        holds(m, base, b),
        holds(m, height, h),
        base.id < o.code.len(),
        height.id < o.code.len(),
        in_64(b),
        in_64(h),
        tower_ends(b, h),
        2 <= i,
        i == 2 || i <= h + 1,
        m.memory[o.code.len() as int + 2] == i,
        m.memory[o.code.len() as int] == v,
        fold_tower(b, i - 1) == Fold::Known(v),
        in_64(v),
    ensures
        match fold_tower(b, h) {
            Fold::Known(x) => {
                &&& reaches(code, m, t)
                &&& t.next == compile_int_tetration(o, base, height).0.code.len()
                &&& holds(t, compile_int_tetration(o, base, height).1, x)
                &&& same_before(m, t, o.code.len() as int)
            },
            _ => stops(code, m),
        },
    decreases h + 1 - i,
{
    lemma_tower_parts(code, o, base, height);
    let p = tower_parts(o, base, height);
    lemma_loop_begin(code, p.before, 2, Test::Le, height);
    lemma_loop_end(code, p.end, p.looping);
    let n = o.code.len() as int;
    let m1 = lemma_loop_test(code, p.before, 2, Test::Le, height, m, i, h);
    reveal(step);
    if i > h {
        assert(fold_tower(b, h) == Fold::Known(v)) by {
            assert(fold_tower(b, 1) == Fold::Known(b));
        }
        let m2 = lemma_step(code, m, m1);
        lemma_step(code, m, m2)
    } else {
        let m2 = lemma_step(code, m, m1);
        assert(fold_tower(b, i) == fold_power(b, v));
        let m3 = lemma_compile_int_pow(code, p.inner, base, p.current, m2, b, v);
        if let Fold::Known(x) = fold_power(b, v) {
            lemma_then(code, m, m2, m3);
            let m4 = lemma_step(code, m, m3);
            assert(holds(m4, p.looping.counter, i));
            if i == i64::MAX {
                if b < 0 {
                    lemma_tower_of_small(b, i);
                } else {
                    lemma_tower_exceeds(b, i);
                }
            }
            let m5 = lemma_loop_again(code, p.end, p.looping, m4, i, n + 9);
            lemma_then(code, m, m4, m5);
            let t = lemma_tower_loop(code, o, base, height, m5, b, h, i + 1, x);
            if fold_tower(b, h) is Known {
                lemma_then(code, m, m5, t);
                assert(same_before(m, t, n));
            } else {
                lemma_then_stops(code, m, m5);
            }
            t
        } else {
            lemma_tower_stays(b, i, h);
            lemma_then_stops(code, m, m2);
            m3
        }
    }
}

/// `xxx` gives the exact tower, or the program stops: where a step leaves 64 bits or has a
/// negative exponent.
proof fn lemma_compile_int_tetration(
    code: Seq<InstV>,
    o: Out,
    base: Value,
    height: Value,
    m: Machine,
    b: int,
    h: int,
) -> (t: Machine)
    requires
        within(code, compile_int_tetration(o, base, height).0),
        m.next == o.code.len(),
        holds(m, base, b),
        holds(m, height, h),
        base.id < o.code.len(),
        height.id < o.code.len(),
        in_64(b),
        in_64(h),
        tower_ends(b, h),
    ensures
        match fold_tower(b, h) {
            Fold::Known(x) => {
                &&& reaches(code, m, t)
                &&& t.next == compile_int_tetration(o, base, height).0.code.len()
                &&& holds(t, compile_int_tetration(o, base, height).1, x)
                &&& same_before(m, t, o.code.len() as int)
            },
            _ => stops(code, m),
        },
{
    lemma_tower_parts(code, o, base, height);
    let p = tower_parts(o, base, height);
    reveal(step);
    lemma_here(code, m);
    let m1 = lemma_step(code, m, m);
    let m2 = lemma_step(code, m, m1);
    let m3 = lemma_loop_enter(code, p.before, 2, Test::Le, height, m2);
    lemma_then(code, m, m2, m3);
    assert(fold_tower(b, 1) == Fold::Known(b));
    let t = lemma_tower_loop(code, o, base, height, m3, b, h, 2, b);
    if fold_tower(b, h) is Known {
        lemma_then(code, m, m3, t);
    } else {
        lemma_then_stops(code, m, m3);
    }
    t
}

/// The parts of a factorial: its operand in 64 bits, the code before the loop, the start of its
/// body, the code before the checked product, behind it, and before the end of the loop.
pub struct FactorialParts {
    pub wide: Out,
    pub limit: Value,
    pub before: Out,
    pub result: Value,
    pub body: Out,
    pub looping: Looping,
    pub product: Out,
    pub current: Value,
    pub stored: Out,
    pub next: Value,
    pub end: Out,
}

/// The parts of `!`.
pub open spec fn factorial_parts(o: Out, v: Value) -> FactorialParts {
    let (wide, limit) = coerce_int_width(o, v, 64);
    let (o2, result) = slot(wide, Repr::Int(64), "int_fact_result"@);
    let (o3, one) = const_int(o2, 64, 1);
    let before = store(o3, result, one);
    let (body, looping) = loop_begin(before, 2, Test::Le, limit);
    let (product, current) = load(body, Repr::Int(64), result);
    let (stored, next) = checked_int_arith(product, BinOp::Mul, current, looping.counter);
    let end = store(stored, result, next);
    FactorialParts { wide, limit, before, result, body, looping, product, current, stored, next, end }
}

pub proof fn lemma_factorial_parts(code: Seq<InstV>, o: Out, v: Value, w: u32)
    requires
        within(code, compile_int_factorial(o, v).0),
        v.repr == Repr::Int(w),
        v.id < o.code.len(),
    ensures
        within(code, o),
        own_blocks(o, compile_int_factorial(o, v).0),
        compile_int_factorial(o, v).1.repr == Repr::Int(64),
        compile_int_factorial(o, v).1.id == compile_int_factorial(o, v).0.code.len() - 1,
        ({
            let p = factorial_parts(o, v);
            let n = p.wide.code.len() as int;
            let k = p.end.code.len() as int;
            &&& o.code.len() <= n
            &&& p.limit.id < n
            &&& within(code, p.wide)
            &&& within(code, p.before)
            &&& within(code, p.body)
            &&& within(code, p.product)
            &&& within(code, p.stored)
            &&& within(code, p.end)
            &&& within(code, loop_end(p.end, p.looping))
            &&& code[n].op is Slot
            &&& p.result.id == n
            &&& code[n + 1].op == Op::ConstInt(64, 1)
            &&& code[n + 2].op is Store && code[n + 2].args == seq![p.result.id, (n + 1) as usize]
            &&& p.before.code.len() == n + 3
            &&& p.body.code.len() == n + 15
            &&& code[n + 15].op == Op::Load(Repr::Int(64)) && code[n + 15].args == seq![p.result.id]
            &&& p.current.id == n + 15
            &&& p.product.code.len() == n + 16
            &&& p.next.id < p.stored.code.len()
            &&& code[k - 1].op is Store && code[k - 1].args == seq![p.result.id, p.next.id]
            &&& k == p.stored.code.len() + 1
            &&& p.stored.code.len() >= n + 16
            &&& landing(code, n + 8, n + 15) == k + 4
            &&& compile_int_factorial(o, v).0.code.len() == k + 6
            &&& code[k + 4].op is At
            &&& code[k + 5].op == Op::Load(Repr::Int(64)) && code[k + 5].args == seq![p.result.id]
        }),
{
    reveal(compile_int_factorial);
    reveal(const_int);
    reveal(slot);
    reveal(store);
    reveal(load);
    reveal(do2);
    reveal(give0);
    reveal(give1);
    let p = factorial_parts(o, v);
    let (o2, result) = slot(p.wide, Repr::Int(64), "int_fact_result"@);
    let (o3, one) = const_int(o2, 64, 1);
    let o11 = loop_end(p.end, p.looping);
    let (o12, r) = load(o11, Repr::Int(64), result);
    lemma_emit(code, o11, Op::Load(Repr::Int(64)), seq![result.id], ""@);
    lemma_loop_end(code, p.end, p.looping);
    lemma_emit(code, p.stored, Op::Store, seq![result.id, p.next.id], ""@);
    lemma_checked_prefix(code, p.product, BinOp::Mul, p.current, p.looping.counter);
    lemma_emit(code, p.body, Op::Load(Repr::Int(64)), seq![result.id], ""@);
    lemma_loop_begin(code, p.before, 2, Test::Le, p.limit);
    lemma_emit(code, o3, Op::Store, seq![result.id, one.id], ""@);
    lemma_emit(code, o2, Op::ConstInt(64, 1), Seq::empty(), ""@);
    lemma_emit(code, p.wide, Op::Slot(Repr::Int(64)), Seq::empty(), "int_fact_result"@);
    lemma_width_prefix(code, o, v, w, 64);
    assert(own_blocks(p.body, p.end)) by {
        assert forall|i: int| p.body.code.len() <= i < p.end.code.len() && (#[trigger] p.end.code[i]).op is At
            implies p.end.code[i].args[0] >= p.body.code.len() by {
            assert(p.end.code[i] == code[i]);
            if p.product.code.len() <= i < p.stored.code.len() {
                assert(p.stored.code[i] == code[i]);
            }
        }
    }
    lemma_loop_around(code, p.before, 2, Test::Le, p.limit, p.end);
    assert forall|i: int| o.code.len() <= i < o12.code.len() && (#[trigger] o12.code[i]).op is At
        implies o12.code[i].args[0] >= o.code.len() by {
        assert(o12.code[i] == code[i]);
        if i < p.wide.code.len() {
            assert(p.wide.code[i] == code[i]);
        } else if p.before.code.len() <= i < o11.code.len() {
            assert(o11.code[i] == code[i]);
        }
    }
}

/// The factorial of a number, which is 1 below 2.
pub open spec fn factorial_of(v: int) -> int {
    factorial(if v < 0 { 0 } else { v as nat }) as int
}

/// Every factorial above that of 20 leaves 64 bits.
proof fn lemma_factorial_out(n: nat)
    requires
        n >= 21,
    ensures
        !in_64(factorial(n) as int),
{
    lemma_factorial_grows(21, n);
    assert(factorial(0) == 1);
    assert(factorial(1) == 1);
    assert(factorial(2) == 2);
    assert(factorial(3) == 6);
    assert(factorial(4) == 24);
    assert(factorial(5) == 120);
    assert(factorial(6) == 720);
    assert(factorial(7) == 5040);
    assert(factorial(8) == 40320);
    assert(factorial(9) == 362880);
    assert(factorial(10) == 3628800);
    assert(factorial(11) == 39916800);
    assert(factorial(12) == 479001600);
    assert(factorial(13) == 6227020800);
    assert(factorial(14) == 87178291200);
    assert(factorial(15) == 1307674368000);
    assert(factorial(16) == 20922789888000);
    assert(factorial(17) == 355687428096000);
    assert(factorial(18) == 6402373705728000);
    assert(factorial(19) == 121645100408832000);
    assert(factorial(20) == 2432902008176640000);
    assert(factorial(21) == 51090942171709440000);
}

/// The loop of a factorial, from its test on, when the numbers below `i` have been multiplied.
proof fn lemma_factorial_loop(
    code: Seq<InstV>,
    o: Out,
    v: Value,
    w: u32,
    m: Machine,
    h: int,
    i: int,
) -> (t: Machine)
    requires
        within(code, compile_int_factorial(o, v).0),
        v.repr == Repr::Int(w),
        v.id < o.code.len(),
        m.next == factorial_parts(o, v).before.code.len() + 7,
        holds(m, factorial_parts(o, v).limit, h),
        in_64(h),
        2 <= i,
        i == 2 || i <= h + 1,
        m.memory[factorial_parts(o, v).before.code.len() as int] == i,
        m.memory[factorial_parts(o, v).wide.code.len() as int] == factorial((i - 1) as nat),
        in_64(factorial((i - 1) as nat) as int),
    ensures
        in_64(factorial_of(h)) ==> {
            &&& reaches(code, m, t)
            &&& t.next == compile_int_factorial(o, v).0.code.len()
            &&& holds(t, compile_int_factorial(o, v).1, factorial_of(h))
            &&& same_before(m, t, o.code.len() as int)
        },
        !in_64(factorial_of(h)) ==> stops(code, m),
    decreases h + 1 - i,
{
    lemma_factorial_parts(code, o, v, w);
    let p = factorial_parts(o, v);
    lemma_loop_begin(code, p.before, 2, Test::Le, p.limit);
    lemma_loop_end(code, p.end, p.looping);
    let n = p.wide.code.len() as int;
    let m1 = lemma_loop_test(code, p.before, 2, Test::Le, p.limit, m, i, h);
    reveal(step);
    if i > h {
        assert(factorial_of(h) == factorial((i - 1) as nat)) by {
            assert(factorial(0) == 1);
            assert(factorial(1) == 1);
        }
        let m2 = lemma_step(code, m, m1);
        lemma_step(code, m, m2)
    } else {
        let m2 = lemma_step(code, m, m1);
        let x = factorial((i - 1) as nat) as int;
        assert(factorial(i as nat) == x * i);
        let m3 = lemma_checked_int_arith(code, p.product, BinOp::Mul, p.current, p.looping.counter, m2, x, i);
        if in_64(x * i) {
            lemma_then(code, m, m2, m3);
            let m4 = lemma_step(code, m, m3);
            assert(holds(m4, p.looping.counter, i));
            if i == i64::MAX {
                lemma_factorial_out(i as nat);
            }
            let m5 = lemma_loop_again(code, p.end, p.looping, m4, i, n + 10);
            lemma_then(code, m, m4, m5);
            let t = lemma_factorial_loop(code, o, v, w, m5, h, i + 1);
            if in_64(factorial_of(h)) {
                lemma_then(code, m, m5, t);
                assert(same_before(m, t, o.code.len() as int));
            } else {
                lemma_then_stops(code, m, m5);
            }
            t
        } else {
            lemma_factorial_grows(i as nat, h as nat);
            lemma_factorial_grows(0, i as nat);
            lemma_then_stops(code, m, m2);
            m3
        }
    }
}

/// `!` gives the exact factorial, or the program stops because it leaves 64 bits.
pub proof fn lemma_compile_int_factorial(code: Seq<InstV>, o: Out, v: Value, w: u32, m: Machine, a: int) -> (t: Machine)
    requires
        within(code, compile_int_factorial(o, v).0),
        m.next == o.code.len(),
        v.repr == Repr::Int(w),
        int_width(w),
        holds(m, v, a),
        v.id < o.code.len(),
        fits(a, w),
    ensures
        in_64(factorial_of(a)) ==> {
            &&& reaches(code, m, t)
            &&& t.next == compile_int_factorial(o, v).0.code.len()
            &&& holds(t, compile_int_factorial(o, v).1, factorial_of(a))
            &&& same_before(m, t, o.code.len() as int)
        },
        !in_64(factorial_of(a)) ==> stops(code, m),
{
    lemma_factorial_parts(code, o, v, w);
    let p = factorial_parts(o, v);
    let m1 = lemma_coerce_int_width(code, o, v, w, 64, m, a);
    reveal(step);
    let m2 = lemma_step(code, m, m1);
    let m3 = lemma_step(code, m, m2);
    let m4 = lemma_step(code, m, m3);
    let m5 = lemma_loop_enter(code, p.before, 2, Test::Le, p.limit, m4);
    lemma_then(code, m, m4, m5);
    assert(factorial(0) == 1);
    assert(factorial(1) == 1);
    let t = lemma_factorial_loop(code, o, v, w, m5, a, 2);
    if in_64(factorial_of(a)) {
        lemma_then(code, m, m5, t);
    } else {
        lemma_then_stops(code, m, m5);
    }
    t
}

// ---------------------------------------------------------------------------
// Operators
// ---------------------------------------------------------------------------

/// The code before a division is part of the program too.
proof fn lemma_div_prefix(code: Seq<InstV>, o: Out, l: Value, r: Value)
    requires
        within(code, compile_int_div(o, l, r).0),
    ensures
        within(code, o),
        o.code.len() <= compile_int_div(o, l, r).0.code.len(),
        compile_int_div(o, l, r).1.repr == Repr::Int(64),
        compile_int_div(o, l, r).1.id < compile_int_div(o, l, r).0.code.len(),
{
    reveal(compile_int_div);
    reveal(const_int);
    reveal(int_test);
    reveal(give0);
    reveal(give2);
    let (o1, zero) = const_int(o, 64, 0);
    let (o2, by_zero) = int_test(o1, Test::Eq, r, zero);
    let o3 = crash_if(o2, by_zero, "int division by zero"@);
    let (o4, least) = const_int(o3, 64, i64::MIN);
    let (o5, minus) = const_int(o4, 64, (-1) as i64);
    let (o6, is_least) = int_test(o5, Test::Eq, l, least);
    let (o7, is_minus) = int_test(o6, Test::Eq, r, minus);
    let (o8, both) = give2(o7, Op::And, is_least, is_minus, Repr::Int(1));
    let o9 = crash_if(o8, both, "int overflow: i64::MIN / -1 doesn't fit in int"@);
    lemma_emit(code, o9, Op::IntDiv, seq![l.id, r.id], ""@);
    lemma_crash_prefix(code, o8, both, "int overflow: i64::MIN / -1 doesn't fit in int"@);
    lemma_emit(code, o7, Op::And, seq![is_least.id, is_minus.id], ""@);
    lemma_emit(code, o6, Op::IntTest(Test::Eq), seq![r.id, minus.id], ""@);
    lemma_emit(code, o5, Op::IntTest(Test::Eq), seq![l.id, least.id], ""@);
    lemma_emit(code, o4, Op::ConstInt(64, (-1) as i64), Seq::empty(), ""@);
    lemma_emit(code, o3, Op::ConstInt(64, i64::MIN), Seq::empty(), ""@);
    lemma_crash_prefix(code, o2, by_zero, "int division by zero"@);
    lemma_emit(code, o1, Op::IntTest(Test::Eq), seq![r.id, zero.id], ""@);
    lemma_emit(code, o, Op::ConstInt(64, 0), Seq::empty(), ""@);
}

/// Whether an operator on two numbers comes to an end: a tower of the largest height there is does
/// not, if it is one of zeros or ones.
pub open spec fn comes_to_an_end(op: BinOp, a: int, b: int) -> bool {
    op is Tetration ==> tower_ends(a, b)
}

/// An operator on two 64-bit numbers.
proof fn lemma_op_prefix(code: Seq<InstV>, o: Out, op: BinOp, l: Value, r: Value)
    requires
        is_arithmetic(op),
        within(code, compile_binary_int_op(o, op, l, r)->Ok_0.0),
    ensures
        compile_binary_int_op(o, op, l, r) is Ok,
        within(code, o),
        o.code.len() <= compile_binary_int_op(o, op, l, r)->Ok_0.0.code.len(),
        compile_binary_int_op(o, op, l, r)->Ok_0.1.repr == Repr::Int(64),
        compile_binary_int_op(o, op, l, r)->Ok_0.1.id < compile_binary_int_op(o, op, l, r)->Ok_0.0.code.len(),
{
    reveal(compile_binary_int_op);
    match op {
        BinOp::Div => lemma_div_prefix(code, o, l, r),
        BinOp::Pow => lemma_power_parts(code, o, l, r),
        BinOp::Tetration => lemma_tower_parts(code, o, l, r),
        _ => lemma_checked_prefix(code, o, op, l, r),
    }
}

/// An operator on two 64-bit numbers gives the exact result, or the program stops.
proof fn lemma_op(code: Seq<InstV>, o: Out, op: BinOp, l: Value, r: Value, m: Machine, a: int, b: int) -> (t: Machine)
    requires
        is_arithmetic(op),
        within(code, compile_binary_int_op(o, op, l, r)->Ok_0.0),
        m.next == o.code.len(),
        holds(m, l, a),
        holds(m, r, b),
        l.id < o.code.len(),
        r.id < o.code.len(),
        in_64(a),
        in_64(b),
        comes_to_an_end(op, a, b),
    ensures
        match fold_values(op, a, b) {
            Fold::Known(x) => {
                &&& in_64(x)
                &&& reaches(code, m, t)
                &&& t.next == compile_binary_int_op(o, op, l, r)->Ok_0.0.code.len()
                &&& holds(t, compile_binary_int_op(o, op, l, r)->Ok_0.1, x)
                &&& same_before(m, t, o.code.len() as int)
            },
            _ => stops(code, m),
        },
{
    reveal(compile_binary_int_op);
    match op {
        BinOp::Div => lemma_compile_int_div(code, o, l, r, m, a, b),
        BinOp::Pow => lemma_compile_int_pow(code, o, l, r, m, a, b),
        BinOp::Tetration => lemma_compile_int_tetration(code, o, l, r, m, a, b),
        _ => lemma_checked_int_arith(code, o, op, l, r, m, a, b),
    }
}

/// The code before an operator is part of the program too.
pub proof fn lemma_binary_prefix(code: Seq<InstV>, o: Out, op: BinOp, l: Value, r: Value, lw: u32, rw: u32)
    requires
        is_arithmetic(op),
        l.repr == Repr::Int(lw),
        r.repr == Repr::Int(rw),
        within(code, compile_int_binary(o, op, l, r)->Ok_0.0),
    ensures
        compile_int_binary(o, op, l, r) is Ok,
        within(code, o),
        o.code.len() <= compile_int_binary(o, op, l, r)->Ok_0.0.code.len(),
        compile_int_binary(o, op, l, r)->Ok_0.1.repr == Repr::Int(wider(lw, rw)),
        compile_int_binary(o, op, l, r)->Ok_0.1.id < compile_int_binary(o, op, l, r)->Ok_0.0.code.len(),
{
    reveal(compile_int_binary);
    let (o1, x) = coerce_int_width(o, l, 64);
    let (o2, y) = coerce_int_width(o1, r, 64);
    assert(compile_binary_int_op(o2, op, x, y) is Ok) by {
        reveal(compile_binary_int_op);
    }
    let (o3, v) = compile_binary_int_op(o2, op, x, y)->Ok_0;
    assert(v.repr == Repr::Int(64)) by {
        reveal(compile_binary_int_op);
        reveal(checked_int_arith);
        reveal(checked_result);
        reveal(compile_int_div);
        reveal(compile_int_pow);
        reveal(compile_int_tetration);
        reveal(load);
        reveal(give1);
        reveal(give2);
    }
    lemma_width_prefix(code, o3, v, 64, wider(lw, rw));
    lemma_op_prefix(code, o2, op, x, y);
    lemma_width_prefix(code, o1, r, rw, 64);
    lemma_width_prefix(code, o, l, lw, 64);
}

/// `int` arithmetic is exact: the result of an operator on two numbers is the mathematical one,
/// and `/` drops the fraction. Where there is no such result or it does not fit in the larger of
/// the two widths, the program stops with a message; it never goes on with a wrong number. What
/// was computed and stored before stays as it was.
pub proof fn int_arithmetic_is_exact(
    code: Seq<InstV>,
    o: Out,
    op: BinOp,
    l: Value,
    r: Value,
    lw: u32,
    rw: u32,
    m: Machine,
    a: int,
    b: int,
) -> (t: Machine)
    requires
        is_arithmetic(op),
        l.repr == Repr::Int(lw),
        r.repr == Repr::Int(rw),
        int_width(lw),
        int_width(rw),
        within(code, compile_int_binary(o, op, l, r)->Ok_0.0),
        m.next == o.code.len(),
        holds(m, l, a),
        holds(m, r, b),
        l.id < o.code.len(),
        r.id < o.code.len(),
        fits(a, lw),
        fits(b, rw),
        comes_to_an_end(op, a, b),
    ensures
        compile_int_binary(o, op, l, r) is Ok,
        ({
            let (end, v) = compile_int_binary(o, op, l, r)->Ok_0;
            match fold_values(op, a, b) {
                Fold::Known(x) => if fits(x, wider(lw, rw)) {
                    &&& reaches(code, m, t)
                    &&& t.next == end.code.len()
                    &&& holds(t, v, x)
                    &&& same_before(m, t, o.code.len() as int)
                } else {
                    stops(code, m)
                },
                _ => stops(code, m),
            }
        }),
{
    lemma_binary_prefix(code, o, op, l, r, lw, rw);
    reveal(compile_int_binary);
    let (o1, x) = coerce_int_width(o, l, 64);
    let (o2, y) = coerce_int_width(o1, r, 64);
    assert(compile_binary_int_op(o2, op, x, y) is Ok) by {
        reveal(compile_binary_int_op);
    }
    let (o3, v) = compile_binary_int_op(o2, op, x, y)->Ok_0;
    assert(v.repr == Repr::Int(64)) by {
        reveal(compile_binary_int_op);
        reveal(checked_int_arith);
        reveal(checked_result);
        reveal(compile_int_div);
        reveal(compile_int_pow);
        reveal(compile_int_tetration);
        reveal(load);
        reveal(give1);
        reveal(give2);
    }
    lemma_width_prefix(code, o3, v, 64, wider(lw, rw));
    lemma_op_prefix(code, o2, op, x, y);
    lemma_width_prefix(code, o1, r, rw, 64);
    lemma_width_prefix(code, o, l, lw, 64);
    let m1 = lemma_coerce_int_width(code, o, l, lw, 64, m, a);
    let m2 = lemma_coerce_int_width(code, o1, r, rw, 64, m1, b);
    lemma_then(code, m, m1, m2);
    assert(holds(m2, x, a));
    let m3 = lemma_op(code, o2, op, x, y, m2, a, b);
    if let Fold::Known(z) = fold_values(op, a, b) {
        lemma_then(code, m, m2, m3);
        let t = lemma_coerce_int_width(code, o3, v, 64, wider(lw, rw), m3, z);
        if fits(z, wider(lw, rw)) {
            lemma_then(code, m, m3, t);
        } else {
            lemma_then_stops(code, m, m3);
        }
        t
    } else {
        lemma_then_stops(code, m, m2);
        m3
    }
}

/// Negation is exact: it gives the negative number, or the program stops because it does not fit
/// in the width of its operand.
pub proof fn int_negation_is_exact(code: Seq<InstV>, o: Out, v: Value, w: u32, m: Machine, a: int) -> (t: Machine)
    requires
        within(code, compile_int_neg(o, v).0),
        m.next == o.code.len(),
        v.repr == Repr::Int(w),
        int_width(w),
        holds(m, v, a),
        v.id < o.code.len(),
        fits(a, w),
    ensures
        fits(-a, w) ==> {
            &&& reaches(code, m, t)
            &&& t.next == compile_int_neg(o, v).0.code.len()
            &&& holds(t, compile_int_neg(o, v).1, -a)
            &&& same_before(m, t, o.code.len() as int)
        },
        !fits(-a, w) ==> stops(code, m),
{
    lemma_compile_int_neg(code, o, v, w, m, a)
}

/// Factorials are exact: the result is the product of the numbers from 1 on, or the program stops
/// because it leaves 64 bits.
pub proof fn int_factorial_is_exact(code: Seq<InstV>, o: Out, v: Value, w: u32, m: Machine, a: int) -> (t: Machine)
    requires
        within(code, compile_int_factorial(o, v).0),
        m.next == o.code.len(),
        v.repr == Repr::Int(w),
        int_width(w),
        holds(m, v, a),
        v.id < o.code.len(),
        fits(a, w),
    ensures
        in_64(factorial_of(a)) ==> {
            &&& reaches(code, m, t)
            &&& t.next == compile_int_factorial(o, v).0.code.len()
            &&& holds(t, compile_int_factorial(o, v).1, factorial_of(a))
            &&& same_before(m, t, o.code.len() as int)
        },
        !in_64(factorial_of(a)) ==> stops(code, m),
{
    lemma_compile_int_factorial(code, o, v, w, m, a)
}

/// A change of width keeps the number: it is the same number, or the program stops because it does
/// not fit. A wider width always fits.
pub proof fn int_widths_keep_the_number(
    code: Seq<InstV>,
    o: Out,
    v: Value,
    w: u32,
    width: u32,
    m: Machine,
    a: int,
) -> (t: Machine)
    requires
        within(code, coerce_int_width(o, v, width).0),
        m.next == o.code.len(),
        v.repr == Repr::Int(w),
        int_width(w),
        int_width(width),
        holds(m, v, a),
        v.id < o.code.len(),
        fits(a, w),
    ensures
        w <= width ==> fits(a, width),
        fits(a, width) ==> {
            &&& reaches(code, m, t)
            &&& t.next == coerce_int_width(o, v, width).0.code.len()
            &&& holds(t, coerce_int_width(o, v, width).1, a)
            &&& same_before(m, t, o.code.len() as int)
        },
        !fits(a, width) ==> stops(code, m),
{
    lemma_coerce_int_width(code, o, v, w, width, m, a)
}

// ---------------------------------------------------------------------------
// Expressions of literals
// ---------------------------------------------------------------------------

/// An `int` expression made of literals alone, each of which fits in 64 bits, and of operators that
/// come to an end.
pub open spec fn of_literals(e: ExprV) -> bool
    decreases e,
{
    match e {
        ExprV::Num(text) => is_whole(text) && in_64(whole_value(text) as int),
        ExprV::Unary(op, inner) => !(op is Not) && of_literals(*inner),
        ExprV::Binary(l, op, r) => {
            &&& is_arithmetic(op)
            &&& of_literals(*l)
            &&& of_literals(*r)
            &&& match (fold(*l), fold(*r)) {
                (Fold::Known(a), Fold::Known(b)) => comes_to_an_end(op, a, b),
                _ => true,
            }
        },
        _ => false,
    }
}

/// Such an expression can be lowered to a 64-bit number.
proof fn lemma_literals(sc: Scope, w: Work, e: ExprV)
    requires
        of_literals(e),
    ensures
        lower_int(sc, w, e) matches Ok((t, v)) && v.repr == Repr::Int(64),
    decreases e,
{
    match e {
        ExprV::Num(text) => {
            reveal(const_int);
            reveal(give0);
        },
        ExprV::Unary(op, inner) => {
            lemma_literals(sc, w, *inner);
            let (w1, x) = lower_int(sc, w, *inner)->Ok_0;
            if op is Neg {
                assert(compile_int_neg(w1.out, x).1.repr == Repr::Int(64)) by {
                    reveal(compile_int_neg);
                    reveal(coerce_int_width);
                    reveal(give1);
                }
            } else {
                assert(compile_int_factorial(w1.out, x).1.repr == Repr::Int(64)) by {
                    reveal(compile_int_factorial);
                    reveal(load);
                    reveal(give1);
                }
            }
        },
        ExprV::Binary(l, op, r) => {
            lemma_literals(sc, w, *l);
            let (w1, x) = lower_int(sc, w, *l)->Ok_0;
            lemma_literals(sc, w1, *r);
            let (w2, y) = lower_int(sc, w1, *r)->Ok_0;
            assert(compile_int_binary(w2.out, op, x, y) matches Ok((o, v)) && v.repr == Repr::Int(64)) by {
                reveal(compile_int_binary);
                reveal(compile_binary_int_op);
                reveal(coerce_int_width);
                reveal(checked_int_arith);
                reveal(checked_result);
                reveal(compile_int_div);
                reveal(compile_int_pow);
                reveal(compile_int_tetration);
                reveal(load);
                reveal(give1);
                reveal(give2);
            }
        },
        _ => {},
    }
}

/// The code before such an expression is part of the program too.
proof fn lemma_literals_prefix(code: Seq<InstV>, sc: Scope, w: Work, e: ExprV)
    requires
        of_literals(e),
        within(code, lower_int(sc, w, e)->Ok_0.0.out),
    ensures
        within(code, w.out),
        w.out.code.len() <= lower_int(sc, w, e)->Ok_0.0.out.code.len(),
        lower_int(sc, w, e)->Ok_0.1.id < lower_int(sc, w, e)->Ok_0.0.out.code.len(),
    decreases e,
{
    lemma_literals(sc, w, e);
    match e {
        ExprV::Num(text) => {
            reveal(const_int);
            reveal(give0);
            lemma_emit(code, w.out, Op::ConstInt(64, int_literal(text)), Seq::empty(), ""@);
        },
        ExprV::Unary(op, inner) => {
            lemma_literals(sc, w, *inner);
            let (w1, x) = lower_int(sc, w, *inner)->Ok_0;
            if op is Neg {
                lemma_neg_prefix(code, w1.out, x);
            } else {
                lemma_fact_prefix(code, w1.out, x);
            }
            lemma_literals_prefix(code, sc, w, *inner);
            if op is Neg {
                assert(compile_int_neg(w1.out, x).1.id < compile_int_neg(w1.out, x).0.code.len());
            } else {
                lemma_factorial_parts(code, w1.out, x, 64);
            }
        },
        ExprV::Binary(l, op, r) => {
            lemma_literals(sc, w, *l);
            let (w1, x) = lower_int(sc, w, *l)->Ok_0;
            lemma_literals(sc, w1, *r);
            let (w2, y) = lower_int(sc, w1, *r)->Ok_0;
            lemma_binary_prefix(code, w2.out, op, x, y, 64, 64);
            lemma_literals_prefix(code, sc, w1, *r);
            lemma_literals_prefix(code, sc, w, *l);
        },
        _ => {},
    }
}

pub proof fn lemma_neg_prefix(code: Seq<InstV>, o: Out, v: Value)
    requires
        within(code, compile_int_neg(o, v).0),
        v.repr == Repr::Int(64),
    ensures
        within(code, o),
        o.code.len() <= compile_int_neg(o, v).0.code.len(),
        compile_int_neg(o, v).1.id < compile_int_neg(o, v).0.code.len(),
{
    reveal(compile_int_neg);
    reveal(coerce_int_width);
    reveal(const_int);
    reveal(int_test);
    reveal(give0);
    reveal(give1);
    reveal(give2);
    let message = "int overflow: negating i64::MIN doesn't fit in int"@;
    let (o2, least) = const_int(o, 64, i64::MIN);
    let (o3, is_least) = int_test(o2, Test::Eq, v, least);
    let o4 = crash_if(o3, is_least, message);
    lemma_emit(code, o4, Op::IntNeg, seq![v.id], ""@);
    lemma_crash_prefix(code, o3, is_least, message);
    lemma_emit(code, o2, Op::IntTest(Test::Eq), seq![v.id, least.id], ""@);
    lemma_emit(code, o, Op::ConstInt(64, i64::MIN), Seq::empty(), ""@);
}

pub proof fn lemma_fact_prefix(code: Seq<InstV>, o: Out, v: Value)
    requires
        within(code, compile_int_factorial(o, v).0),
        v.repr == Repr::Int(64),
    ensures
        within(code, o),
        o.code.len() <= compile_int_factorial(o, v).0.code.len(),
{
    reveal(compile_int_factorial);
    reveal(coerce_int_width);
    reveal(const_int);
    reveal(slot);
    reveal(store);
    reveal(load);
    reveal(do2);
    reveal(give0);
    reveal(give1);
    let p = factorial_parts(o, v);
    let (o2, result) = slot(o, Repr::Int(64), "int_fact_result"@);
    let (o3, one) = const_int(o2, 64, 1);
    let o11 = loop_end(p.end, p.looping);
    lemma_emit(code, o11, Op::Load(Repr::Int(64)), seq![result.id], ""@);
    lemma_loop_end(code, p.end, p.looping);
    lemma_emit(code, p.stored, Op::Store, seq![result.id, p.next.id], ""@);
    lemma_checked_prefix(code, p.product, BinOp::Mul, p.current, p.looping.counter);
    lemma_emit(code, p.body, Op::Load(Repr::Int(64)), seq![result.id], ""@);
    lemma_loop_begin(code, p.before, 2, Test::Le, p.limit);
    lemma_emit(code, o3, Op::Store, seq![result.id, one.id], ""@);
    lemma_emit(code, o2, Op::ConstInt(64, 1), Seq::empty(), ""@);
    lemma_emit(code, o, Op::Slot(Repr::Int(64)), Seq::empty(), "int_fact_result"@);
}

/// An expression of literals in 64 bits.
proof fn lemma_literals_run(code: Seq<InstV>, sc: Scope, w: Work, e: ExprV, m: Machine) -> (t: Machine)
    requires
        of_literals(e),
        within(code, lower_int(sc, w, e)->Ok_0.0.out),
        m.next == w.out.code.len(),
    ensures
        match fold(e) {
            Fold::Known(x) => {
                &&& in_64(x)
                &&& reaches(code, m, t)
                &&& t.next == lower_int(sc, w, e)->Ok_0.0.out.code.len()
                &&& holds(t, lower_int(sc, w, e)->Ok_0.1, x)
                &&& same_before(m, t, w.out.code.len() as int)
            },
            _ => stops(code, m),
        },
    decreases e,
{
    lemma_literals(sc, w, e);
    lemma_literals_prefix(code, sc, w, e);
    match e {
        ExprV::Num(text) => {
            reveal(const_int);
            reveal(give0);
            reveal(step);
            lemma_emit(code, w.out, Op::ConstInt(64, int_literal(text)), Seq::empty(), ""@);
            lemma_here(code, m);
            lemma_step(code, m, m)
        },
        ExprV::Unary(op, inner) => {
            lemma_literals(sc, w, *inner);
            let (w1, x) = lower_int(sc, w, *inner)->Ok_0;
            if op is Neg {
                lemma_neg_prefix(code, w1.out, x);
            } else {
                lemma_fact_prefix(code, w1.out, x);
            }
            lemma_literals_prefix(code, sc, w, *inner);
            let m1 = lemma_literals_run(code, sc, w, *inner, m);
            if let Fold::Known(a) = fold(*inner) {
                let t = if op is Neg {
                    lemma_compile_int_neg(code, w1.out, x, 64, m1, a)
                } else {
                    lemma_compile_int_factorial(code, w1.out, x, 64, m1, a)
                };
                if fold(e) is Known {
                    lemma_then(code, m, m1, t);
                } else {
                    lemma_then_stops(code, m, m1);
                }
                t
            } else {
                m1
            }
        },
        ExprV::Binary(l, op, r) => {
            lemma_literals(sc, w, *l);
            let (w1, x) = lower_int(sc, w, *l)->Ok_0;
            lemma_literals(sc, w1, *r);
            let (w2, y) = lower_int(sc, w1, *r)->Ok_0;
            lemma_binary_prefix(code, w2.out, op, x, y, 64, 64);
            lemma_literals_prefix(code, sc, w1, *r);
            lemma_literals_prefix(code, sc, w, *l);
            let m1 = lemma_literals_run(code, sc, w, *l, m);
            if let Fold::Known(a) = fold(*l) {
                let m2 = lemma_literals_run(code, sc, w1, *r, m1);
                if let Fold::Known(b) = fold(*r) {
                    lemma_then(code, m, m1, m2);
                    let t = int_arithmetic_is_exact(code, w2.out, op, x, y, 64, 64, m2, a, b);
                    if let Fold::Known(z) = fold(e) {
                        lemma_in_64(op, a, b);
                        lemma_then(code, m, m2, t);
                    } else {
                        lemma_then_stops(code, m, m2);
                    }
                    t
                } else {
                    lemma_then_stops(code, m, m1);
                    m2
                }
            } else {
                m1
            }
        },
        _ => m,
    }
}

proof fn lemma_in_64(op: BinOp, a: int, b: int)
    requires
        in_64(a),
    ensures
        fold_values(op, a, b) matches Fold::Known(x) ==> in_64(x),
{
    if op is Tetration {
        assert(fold_tower(a, 1) == Fold::Known(a));
    }
}

/// What is found out about an `int` expression of literals before the program runs is what happens
/// when it runs: an expression whose value is known and fits gives that value, and any other stops
/// the program.
pub proof fn folding_tells_what_runs(
    code: Seq<InstV>,
    sc: Scope,
    w: Work,
    e: ExprV,
    width: u32,
    m: Machine,
) -> (t: Machine)
    requires
        of_literals(e),
        int_width(width),
        within(code, lower_for(sc, w, e, Type::Int(width))->Ok_0.0.out),
        m.next == w.out.code.len(),
    ensures
        lower_for(sc, w, e, Type::Int(width)) is Ok,
        ({
            let (end, v) = lower_for(sc, w, e, Type::Int(width))->Ok_0;
            match fold(e) {
                Fold::Known(x) => if fits(x, width) {
                    &&& reaches(code, m, t)
                    &&& t.next == end.out.code.len()
                    &&& holds(t, v, x)
                    &&& same_before(m, t, w.out.code.len() as int)
                } else {
                    stops(code, m)
                },
                _ => stops(code, m),
            }
        }),
{
    lemma_literals(sc, w, e);
    let (w1, x) = lower_int(sc, w, e)->Ok_0;
    lemma_width_prefix(code, w1.out, x, 64, width);
    lemma_literals_prefix(code, sc, w, e);
    let m1 = lemma_literals_run(code, sc, w, e, m);
    if let Fold::Known(a) = fold(e) {
        let t = lemma_coerce_int_width(code, w1.out, x, 64, width, m1, a);
        if fits(a, width) {
            lemma_then(code, m, m1, t);
        } else {
            lemma_then_stops(code, m, m1);
        }
        t
    } else {
        m1
    }
}

} // verus!
