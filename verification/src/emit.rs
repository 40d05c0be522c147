//! The emitter: how instructions are put together into the steps that a program needs.
//!
//! Each step is a function from the code so far to the code with the step behind it.

use vstd::prelude::*;
use crate::ast::{BinOp, DEFAULT_BIGNUM_PRECISION, Type};
use crate::ir::{basic_type, insts_view, rt_result, Inst, InstV, Op, Repr, Rt, Test, Value};
use crate::numeral::{decimal, decimal_text};
use crate::text::{text1, text2, text3};
use crate::typing::max_width;

verus! {

/// The code so far, and whether the block that is being filled has ended.
pub struct Out {
    pub code: Seq<InstV>,
    pub ended: bool,
}

/// A loop whose body is being filled.
#[derive(Debug, Clone, Copy, PartialEq, Eq, Structural)]
pub struct Looping {
    pub counter: Value,
    pub place: Value,
    pub head: Value,
    pub done: Value,
}

/// Whether an instruction ends its block.
pub open spec fn ends_block(op: Op) -> bool {
    op is Jump || op is Branch || op is Ret || op is RetVoid || op is Unreachable
}

/// Whether an instruction goes on in a block that has not ended.
pub open spec fn starts_block(op: Op) -> bool {
    op is At || op is BeginFunction || op is BeginMain
}

/// One more instruction.
#[verifier::opaque]
pub open spec fn emit(o: Out, op: Op, args: Seq<usize>, text: Seq<char>) -> Out {
    Out {
        code: o.code.push(InstV { op, args, text }),
        ended: if ends_block(op) {
            true
        } else if starts_block(op) {
            false
        } else {
            o.ended
        },
    }
}

/// The value that the next instruction gives.
pub open spec fn next_value(o: Out, repr: Repr) -> Value {
    Value { id: o.code.len() as usize, repr }
}

/// An instruction with no operand that gives a value.
#[verifier::opaque]
pub open spec fn give0(o: Out, op: Op, text: Seq<char>, repr: Repr) -> (Out, Value) {
    (emit(o, op, Seq::empty(), text), next_value(o, repr))
}

/// An instruction with no operand that gives no value.
#[verifier::opaque]
pub open spec fn do0(o: Out, op: Op) -> Out {
    emit(o, op, Seq::empty(), ""@)
}

/// A call of a runtime function with no operand for its value.
#[verifier::opaque]
pub open spec fn call0(o: Out, f: Rt) -> (Out, Value) {
    (emit(o, Op::Call(f), Seq::empty(), ""@), next_value(o, rt_result(f)))
}

/// An instruction with one operand that gives a value.
#[verifier::opaque]
pub open spec fn give1(o: Out, op: Op, a: Value, repr: Repr) -> (Out, Value) {
    (emit(o, op, seq![a.id], ""@), next_value(o, repr))
}

/// An instruction with one operand that gives no value.
#[verifier::opaque]
pub open spec fn do1(o: Out, op: Op, a: Value) -> Out {
    emit(o, op, seq![a.id], ""@)
}

/// A call of a runtime function with one operand for its value.
#[verifier::opaque]
pub open spec fn call1(o: Out, f: Rt, a: Value) -> (Out, Value) {
    (emit(o, Op::Call(f), seq![a.id], ""@), next_value(o, rt_result(f)))
}

/// A call of a runtime function with one operand for its effect.
#[verifier::opaque]
pub open spec fn run1(o: Out, f: Rt, a: Value) -> Out {
    emit(o, Op::Call(f), seq![a.id], ""@)
}

/// An instruction with two operands that gives a value.
#[verifier::opaque]
pub open spec fn give2(o: Out, op: Op, a: Value, b: Value, repr: Repr) -> (Out, Value) {
    (emit(o, op, seq![a.id, b.id], ""@), next_value(o, repr))
}

/// An instruction with two operands that gives no value.
#[verifier::opaque]
pub open spec fn do2(o: Out, op: Op, a: Value, b: Value) -> Out {
    emit(o, op, seq![a.id, b.id], ""@)
}

/// A call of a runtime function with two operands for its value.
#[verifier::opaque]
pub open spec fn call2(o: Out, f: Rt, a: Value, b: Value) -> (Out, Value) {
    (emit(o, Op::Call(f), seq![a.id, b.id], ""@), next_value(o, rt_result(f)))
}

/// A call of a runtime function with two operands for its effect.
#[verifier::opaque]
pub open spec fn run2(o: Out, f: Rt, a: Value, b: Value) -> Out {
    emit(o, Op::Call(f), seq![a.id, b.id], ""@)
}

/// An instruction with three operands that gives a value.
#[verifier::opaque]
pub open spec fn give3(o: Out, op: Op, a: Value, b: Value, c: Value, repr: Repr) -> (Out, Value) {
    (emit(o, op, seq![a.id, b.id, c.id], ""@), next_value(o, repr))
}

/// An instruction with three operands that gives no value.
#[verifier::opaque]
pub open spec fn do3(o: Out, op: Op, a: Value, b: Value, c: Value) -> Out {
    emit(o, op, seq![a.id, b.id, c.id], ""@)
}

/// A call of a runtime function with three operands for its effect.
#[verifier::opaque]
pub open spec fn run3(o: Out, f: Rt, a: Value, b: Value, c: Value) -> Out {
    emit(o, Op::Call(f), seq![a.id, b.id, c.id], ""@)
}

/// The operands of an instruction.
pub open spec fn ids(vs: Seq<Value>) -> Seq<usize> {
    Seq::new(vs.len(), |i: int| vs[i].id)
}

/// A call of a runtime function with a list of operands.
#[verifier::opaque]
pub open spec fn call_list(o: Out, f: Rt, vs: Seq<Value>) -> (Out, Value) {
    (emit(o, Op::Call(f), ids(vs), ""@), next_value(o, rt_result(f)))
}

/// A call of a function of the program.
#[verifier::opaque]
pub open spec fn call_function(o: Out, k: usize, vs: Seq<Value>, repr: Repr) -> (Out, Value) {
    (emit(o, Op::CallFunction(k), ids(vs), ""@), next_value(o, repr))
}

/// Whether the values of a type own memory.
pub open spec fn owned(ty: Type) -> bool {
    ty is BigNum || ty is BigInt || ty is Str || ty is File || ty is Array
}

/// Whether the values of a type own memory.
#[verifier::when_used_as_spec(owned)]
pub fn is_owned(ty: Type) -> (r: bool)
    ensures
        r == owned(ty),
{
    matches!(ty, Type::BigNum(_) | Type::BigInt | Type::Str | Type::File | Type::Array(_))
}

/// The comparison that an operator asks for.
pub open spec fn spec_test_of(op: BinOp) -> Test {
    match op {
        BinOp::Ne => Test::Ne,
        BinOp::Lt => Test::Lt,
        BinOp::Gt => Test::Gt,
        BinOp::Le => Test::Le,
        BinOp::Ge => Test::Ge,
        _ => Test::Eq,
    }
}

/// The comparison that an operator asks for.
#[verifier::when_used_as_spec(spec_test_of)]
pub fn test_of(op: BinOp) -> (r: Test)
    ensures
        r == spec_test_of(op),
{
    match op {
        BinOp::Ne => Test::Ne,
        BinOp::Lt => Test::Lt,
        BinOp::Gt => Test::Gt,
        BinOp::Le => Test::Le,
        BinOp::Ge => Test::Ge,
        _ => Test::Eq,
    }
}

/// The part of a format string that shows a value.
pub open spec fn fragment(repr: Repr) -> Seq<char> {
    match repr {
        Repr::Float(_) => "%g"@,
        Repr::Int(w) => if w == 1 {
            "%s"@
        } else {
            "%lld"@
        },
        _ => "%s"@,
    }
}

/// The part of a format string that shows a value.
pub fn fragment_text(repr: Repr) -> (r: String)
    ensures
        r@ == fragment(repr),
{
    match repr {
        Repr::Float(_) => text1("%g"),
        Repr::Int(w) => if w == 1 {
            text1("%s")
        } else {
            text1("%lld")
        },
        _ => text1("%s"),
    }
}

/// The format string that shows two values.
pub open spec fn pair_format(l: Repr, r: Repr) -> Seq<char> {
    fragment(l) + fragment(r)
}

/// The format string that shows two values.
pub fn pair_format_text(l: Repr, r: Repr) -> (f: String)
    ensures
        f@ == pair_format(l, r),
{
    let a: String = fragment_text(l);
    let b: String = fragment_text(r);
    text2(&a, &b)
}

/// A new block of the function.
#[verifier::opaque]
pub open spec fn block(o: Out, name: Seq<char>) -> (Out, Value) {
    give0(o, Op::Block, name, Repr::Void)
}

/// Goes on at the end of a block.
#[verifier::opaque]
pub open spec fn at(o: Out, b: Value) -> Out {
    let o = do1(o, Op::At, b);
    o
}

/// Goes to a block.
#[verifier::opaque]
pub open spec fn jump(o: Out, b: Value) -> Out {
    let o = do1(o, Op::Jump, b);
    o
}

/// Goes to one of two blocks, by a truth value.
#[verifier::opaque]
pub open spec fn branch(o: Out, cond: Value, yes: Value, no: Value) -> Out {
    let o = do3(o, Op::Branch, cond, yes, no);
    o
}

/// A place in memory that belongs to the function.
#[verifier::opaque]
pub open spec fn slot(o: Out, repr: Repr, name: Seq<char>) -> (Out, Value) {
    give0(o, Op::Slot(repr), name, Repr::Ptr)
}

/// Stores a value.
#[verifier::opaque]
pub open spec fn store(o: Out, place: Value, v: Value) -> Out {
    let o = do2(o, Op::Store, place, v);
    o
}

/// Loads a value.
#[verifier::opaque]
pub open spec fn load(o: Out, repr: Repr, place: Value) -> (Out, Value) {
    give1(o, Op::Load(repr), place, repr)
}

/// The float that a numeral denotes.
#[verifier::opaque]
pub open spec fn const_float(o: Out, text: Seq<char>) -> (Out, Value) {
    give0(o, Op::ConstFloat, text, Repr::Float(64))
}

/// An integer constant.
#[verifier::opaque]
pub open spec fn const_int(o: Out, width: u32, v: i64) -> (Out, Value) {
    give0(o, Op::ConstInt(width, v), ""@, Repr::Int(width))
}

/// A text constant.
#[verifier::opaque]
pub open spec fn const_str(o: Out, text: Seq<char>) -> (Out, Value) {
    give0(o, Op::ConstStr, text, Repr::Ptr)
}

/// The null pointer.
#[verifier::opaque]
pub open spec fn null(o: Out) -> (Out, Value) {
    give0(o, Op::Null, ""@, Repr::Ptr)
}

/// The size of a representation.
#[verifier::opaque]
pub open spec fn size_of(o: Out, repr: Repr) -> (Out, Value) {
    give0(o, Op::SizeOf(repr), ""@, Repr::Int(64))
}

/// A pointer wrapped in a structure.
#[verifier::opaque]
pub open spec fn wrap(o: Out, repr: Repr, p: Value) -> (Out, Value) {
    give1(o, Op::Wrap(repr), p, repr)
}

/// The pointer in a structure.
#[verifier::opaque]
pub open spec fn unwrap(o: Out, v: Value) -> (Out, Value) {
    give1(o, Op::Unwrap, v, Repr::Ptr)
}

/// Compares two integers.
#[verifier::opaque]
pub open spec fn int_test(o: Out, test: Test, l: Value, r: Value) -> (Out, Value) {
    give2(o, Op::IntTest(test), l, r, Repr::Int(1))
}

/// Stops the program with a message if `cond` holds.
#[verifier::opaque]
pub open spec fn crash_if(o: Out, cond: Value, message: Seq<char>) -> Out {
    let (o, crash) = block(o, "int_crash"@);
    let (o, next) = block(o, "int_continue"@);
    let o = branch(o, cond, crash, next);
    let o = at(o, crash);
    let (o, text) = const_str(o, message);
    let o = run1(o, Rt::IntDie, text);
    let o = do0(o, Op::Unreachable);
    let o = at(o, next);
    o
}

/// Starts a loop whose counter goes up from `first` while it passes the test against `limit`. The
/// body of the loop comes next.
#[verifier::opaque]
pub open spec fn loop_begin(o: Out, first: i64, test: Test, limit: Value) -> (Out, Looping) {
    let (o, place) = slot(o, Repr::Int(64), "loop_counter"@);
    let (o, start) = const_int(o, 64, first);
    let o = store(o, place, start);
    let (o, head) = block(o, "loop_head"@);
    let (o, body) = block(o, "loop_body"@);
    let (o, done) = block(o, "loop_done"@);
    let o = jump(o, head);
    let o = at(o, head);
    let (o, counter) = load(o, Repr::Int(64), place);
    let (o, more) = int_test(o, test, counter, limit);
    let o = branch(o, more, body, done);
    let o = at(o, body);
    (o, Looping { counter, place, head, done })
}

/// Ends the body of a loop, and goes on behind it.
#[verifier::opaque]
pub open spec fn loop_end(o: Out, l: Looping) -> Out {
    let (o, one) = const_int(o, 64, 1);
    let (o, next) = give2(o, Op::IntAdd, l.counter, one, Repr::Int(64));
    let o = store(o, l.place, next);
    let o = jump(o, l.head);
    let o = at(o, l.done);
    o
}

/// A float at another width.
#[verifier::opaque]
pub open spec fn coerce_float(o: Out, v: Value, width: u32) -> (Out, Value) {
    match v.repr {
        Repr::Float(w) => {
            if w == width {
                (o, v)
            } else if w < width {
                give1(o, Op::FloatExtend(width), v, Repr::Float(width))
            } else {
                give1(o, Op::FloatTruncate(width), v, Repr::Float(width))
            }
        },
        _ => {
            (o, v)
        },
    }
}

/// An integer at another width. Making it wider is exact; making it narrower stops the program if
/// the value does not fit.
#[verifier::opaque]
pub open spec fn coerce_int_width(o: Out, v: Value, width: u32) -> (Out, Value) {
    match v.repr {
        Repr::Int(w) => {
            if w == width {
                (o, v)
            } else if w < width {
                give1(o, Op::SignExtend(width), v, Repr::Int(width))
            } else {
                let (o, narrow) = give1(o, Op::Truncate(width), v, Repr::Int(width));
                let (o, back) = give1(o, Op::SignExtend(w), narrow, Repr::Int(w));
                let (o, same) = int_test(o, Test::Eq, v, back);
                let (o, overflowed) = give1(o, Op::Not, same, Repr::Int(1));
                let digits = decimal(width as nat);
                let message = "int overflow: value doesn't fit in int[precision:"@ + digits + "]"@;
                let o = crash_if(o, overflowed, message);
                (o, narrow)
            }
        },
        _ => {
            (o, v)
        },
    }
}

/// A new bignum of the given precision.
#[verifier::opaque]
pub open spec fn bignum_new(o: Out, precision: u32) -> (Out, Value) {
    let (o, p) = const_int(o, 64, precision as i64);
    call1(o, Rt::BignumNew, p)
}

/// A value as a bignum of its own.
#[verifier::opaque]
pub open spec fn coerce_to_bignum(o: Out, v: Value, precision: u32) -> Result<(Out, Value), Seq<char>> {
    match v.repr {
        Repr::Float(_) => {
            let (o, h) = bignum_new(o, precision);
            let (o, f) = coerce_float(o, v, 64);
            let o = run2(o, Rt::BignumSetD, h, f);
            let (o, r) = wrap(o, Repr::Handle, h);
            Ok((o, r))
        },
        Repr::Ptr => {
            let (o, h) = bignum_new(o, precision);
            let o = run2(o, Rt::BignumSetStr, h, v);
            let (o, r) = wrap(o, Repr::Handle, h);
            Ok((o, r))
        },
        Repr::Handle => {
            let (o, h) = bignum_new(o, precision);
            let (o, p) = unwrap(o, v);
            let o = run2(o, Rt::BignumCopy, h, p);
            let (o, r) = wrap(o, Repr::Handle, h);
            Ok((o, r))
        },
        _ => {
            Err("cannot use this value as a bignum"@)
        },
    }
}

/// A value as a bigint of its own.
#[verifier::opaque]
pub open spec fn coerce_to_bigint(o: Out, v: Value) -> Result<(Out, Value), Seq<char>> {
    match v.repr {
        Repr::Ptr => {
            let (o, h) = call0(o, Rt::BigintNew);
            let o = run2(o, Rt::BigintSetStr, h, v);
            let (o, r) = wrap(o, Repr::BigInt, h);
            Ok((o, r))
        },
        Repr::BigInt => {
            let (o, h) = call0(o, Rt::BigintNew);
            let (o, p) = unwrap(o, v);
            let o = run2(o, Rt::BigintCopy, h, p);
            let (o, r) = wrap(o, Repr::BigInt, h);
            Ok((o, r))
        },
        _ => {
            Err("cannot use this value as a bigint"@)
        },
    }
}

/// Frees what a value owns, if it is no array.
#[verifier::opaque]
pub open spec fn free_scalar(o: Out, v: Value, ty: Type) -> Out {
    match ty {
        Type::BigNum(_) => {
            let (o, p) = unwrap(o, v);
            let o = run1(o, Rt::BignumFree, p);
            o
        },
        Type::BigInt => {
            let (o, p) = unwrap(o, v);
            let o = run1(o, Rt::BigintFree, p);
            o
        },
        Type::Str | Type::File => {
            let o = run1(o, Rt::Free, v);
            o
        },
        _ => {
            o
        },
    }
}

/// Frees what the elements of an array own.
#[verifier::opaque]
pub open spec fn free_elements(o: Out, h: Value, ty: Type) -> Out {
    if is_owned(ty) {
        let (o, n) = call1(o, Rt::ArrayLength, h);
        let (o, l) = loop_begin(o, 1, Test::Le, n);
        let (o, p) = call2(o, Rt::ArrayGetPtr, h, l.counter);
        let (o, v) = load(o, basic_type(ty), p);
        let o = free_scalar(o, v, ty);
        let o = loop_end(o, l);
        o
    } else {
        o
    }
}

/// Frees what a value owns.
#[verifier::opaque]
pub open spec fn free_value(o: Out, v: Value, ty: Type) -> Out {
    match ty {
        Type::Array(element) => {
            let (o, h) = unwrap(o, v);
            let o = free_elements(o, h, element.as_type());
            let o = run1(o, Rt::ArrayFree, h);
            o
        },
        _ => {
            let o = free_scalar(o, v, ty);
            o
        },
    }
}

/// Frees what the value in a variable owns.
#[verifier::opaque]
pub open spec fn free_slot(o: Out, place: Value, ty: Type) -> Out {
    if is_owned(ty) {
        let (o, v) = load(o, basic_type(ty), place);
        let o = free_value(o, v, ty);
        o
    } else {
        o
    }
}

/// A copy of an element of an array that owns nothing of the original.
#[verifier::opaque]
pub open spec fn copy_element(o: Out, v: Value, ty: Type) -> Result<(Out, Value), Seq<char>> {
    match ty {
        Type::Str | Type::File => {
            let (o, c) = call1(o, Rt::Strdup, v);
            Ok((o, c))
        },
        Type::BigNum(precision) => {
            coerce_to_bignum(o, v, precision)
        },
        Type::BigInt => {
            coerce_to_bigint(o, v)
        },
        _ => {
            Ok((o, v))
        },
    }
}

/// A copy of an array with elements of type `ty`, each of which is copied too.
#[verifier::opaque]
pub open spec fn coerce_to_array(o: Out, v: Value, ty: Type) -> Result<(Out, Value), Seq<char>> {
    match v.repr {
        Repr::Handle => {
            let (o, source) = unwrap(o, v);
            let (o, size) = size_of(o, basic_type(ty));
            let (o, h) = call1(o, Rt::ArrayNew, size);
            let (o, n) = call1(o, Rt::ArrayLength, source);
            let (o, l) = loop_begin(o, 1, Test::Le, n);
            let (o, p) = call2(o, Rt::ArrayGetPtr, source, l.counter);
            let (o, e) = load(o, basic_type(ty), p);
            match copy_element(o, e, ty) {
                Err(m) => Err(m),
                Ok((o, c)) => {
                    let (o, place) = slot(o, basic_type(ty), "array_copy_value"@);
                    let o = store(o, place, c);
                    let o = run2(o, Rt::ArrayAppend, h, place);
                    let o = loop_end(o, l);
                    let (o, r) = wrap(o, Repr::Handle, h);
                    Ok((o, r))
                },
            }
        },
        _ => {
            Err("cannot use this value as an array"@)
        },
    }
}

/// A value as it is stored, passed or returned as `ty`. What it owns is copied.
#[verifier::opaque]
pub open spec fn coerce_to_type(o: Out, v: Value, ty: Type) -> Result<(Out, Value), Seq<char>> {
    match (v.repr, ty) {
        (Repr::Float(_), Type::Num(w)) => {
            let (o, r) = coerce_float(o, v, w);
            Ok((o, r))
        },
        (Repr::Float(_), Type::NumW(w)) => {
            let (o, r) = coerce_float(o, v, w);
            Ok((o, r))
        },
        (Repr::Int(1), Type::Bool) => {
            Ok((o, v))
        },
        (Repr::Int(_), Type::Int(w)) => {
            let (o, r) = coerce_int_width(o, v, w);
            Ok((o, r))
        },
        (_, Type::BigNum(precision)) => {
            coerce_to_bignum(o, v, precision)
        },
        (_, Type::BigInt) => {
            coerce_to_bigint(o, v)
        },
        (Repr::Ptr, Type::Str | Type::File) => {
            let (o, r) = call1(o, Rt::Strdup, v);
            Ok((o, r))
        },
        (_, Type::Array(element)) => {
            coerce_to_array(o, v, element.as_type())
        },
        _ => {
            Err("cannot store a value of this kind here"@)
        },
    }
}

/// The result of a checked operation. The program stops if it overflowed.
#[verifier::opaque]
pub open spec fn checked_result(o: Out, p: Value, message: Seq<char>) -> (Out, Value) {
    let (o, v) = give1(o, Op::CheckedResult, p, Repr::Int(64));
    let (o, overflowed) = give1(o, Op::CheckedFlag, p, Repr::Int(1));
    let o = crash_if(o, overflowed, message);
    (o, v)
}

/// `+`, `-` or `x` on 64-bit integers. The program stops if the result overflows.
#[verifier::opaque]
pub open spec fn checked_int_arith(o: Out, op: BinOp, l: Value, r: Value) -> (Out, Value) {
    match op {
        BinOp::Add => {
            let (o, p) = call2(o, Rt::AddOverflow, l, r);
            checked_result(o, p, "int overflow: result of + doesn't fit in int"@)
        },
        BinOp::Sub => {
            let (o, p) = call2(o, Rt::SubOverflow, l, r);
            checked_result(o, p, "int overflow: result of - doesn't fit in int"@)
        },
        _ => {
            let (o, p) = call2(o, Rt::MulOverflow, l, r);
            checked_result(o, p, "int overflow: result of x doesn't fit in int"@)
        },
    }
}

/// `/` on 64-bit integers. The program stops on a division by zero, and where the result overflows.
#[verifier::opaque]
pub open spec fn compile_int_div(o: Out, l: Value, r: Value) -> (Out, Value) {
    let (o, zero) = const_int(o, 64, 0);
    let (o, by_zero) = int_test(o, Test::Eq, r, zero);
    let o = crash_if(o, by_zero, "int division by zero"@);
    let (o, least) = const_int(o, 64, i64::MIN);
    let (o, minus) = const_int(o, 64, (-1) as i64);
    let (o, is_least) = int_test(o, Test::Eq, l, least);
    let (o, is_minus) = int_test(o, Test::Eq, r, minus);
    let (o, both) = give2(o, Op::And, is_least, is_minus, Repr::Int(1));
    let o = crash_if(o, both, "int overflow: i64::MIN / -1 doesn't fit in int"@);
    give2(o, Op::IntDiv, l, r, Repr::Int(64))
}

/// The negation of an integer, at its own width. The program stops if it does not fit.
#[verifier::opaque]
pub open spec fn compile_int_neg(o: Out, v: Value) -> (Out, Value) {
    match v.repr {
        Repr::Int(w) => {
            let (o, wide) = coerce_int_width(o, v, 64);
            let (o, least) = const_int(o, 64, i64::MIN);
            let (o, is_least) = int_test(o, Test::Eq, wide, least);
            let o = crash_if(o, is_least, "int overflow: negating i64::MIN doesn't fit in int"@);
            let (o, n) = give1(o, Op::IntNeg, wide, Repr::Int(64));
            coerce_int_width(o, n, w)
        },
        _ => {
            (o, v)
        },
    }
}

/// `xx` on 64-bit integers, by repeated multiplication. The program stops on a negative exponent.
#[verifier::opaque]
pub open spec fn compile_int_pow(o: Out, base: Value, exponent: Value) -> (Out, Value) {
    let (o, zero) = const_int(o, 64, 0);
    let (o, negative) = int_test(o, Test::Lt, exponent, zero);
    let o = crash_if(o, negative, "int power requires a non-negative exponent"@);
    let (o, result) = slot(o, Repr::Int(64), "int_pow_result"@);
    let (o, one) = const_int(o, 64, 1);
    let o = store(o, result, one);
    let (o, l) = loop_begin(o, 0, Test::Lt, exponent);
    let (o, current) = load(o, Repr::Int(64), result);
    let (o, next) = checked_int_arith(o, BinOp::Mul, current, base);
    let o = store(o, result, next);
    let o = loop_end(o, l);
    load(o, Repr::Int(64), result)
}

/// `xxx` on 64-bit integers: a tower of `height` copies of `base`.
#[verifier::opaque]
pub open spec fn compile_int_tetration(o: Out, base: Value, height: Value) -> (Out, Value) {
    let (o, result) = slot(o, Repr::Int(64), "int_tet_result"@);
    let o = store(o, result, base);
    let (o, l) = loop_begin(o, 2, Test::Le, height);
    let (o, current) = load(o, Repr::Int(64), result);
    let (o, next) = compile_int_pow(o, base, current);
    let o = store(o, result, next);
    let o = loop_end(o, l);
    load(o, Repr::Int(64), result)
}

/// `!` on an integer. The result has the default width.
#[verifier::opaque]
pub open spec fn compile_int_factorial(o: Out, v: Value) -> (Out, Value) {
    let (o, n) = coerce_int_width(o, v, 64);
    let (o, result) = slot(o, Repr::Int(64), "int_fact_result"@);
    let (o, one) = const_int(o, 64, 1);
    let o = store(o, result, one);
    let (o, l) = loop_begin(o, 2, Test::Le, n);
    let (o, current) = load(o, Repr::Int(64), result);
    let (o, next) = checked_int_arith(o, BinOp::Mul, current, l.counter);
    let o = store(o, result, next);
    let o = loop_end(o, l);
    load(o, Repr::Int(64), result)
}

/// An operator on two 64-bit integers.
#[verifier::opaque]
pub open spec fn compile_binary_int_op(o: Out, op: BinOp, l: Value, r: Value) -> Result<(Out, Value), Seq<char>> {
    match op {
        BinOp::Add | BinOp::Sub | BinOp::Mul => {
            let (o, v) = checked_int_arith(o, op, l, r);
            Ok((o, v))
        },
        BinOp::Div => {
            let (o, v) = compile_int_div(o, l, r);
            Ok((o, v))
        },
        BinOp::Pow => {
            let (o, v) = compile_int_pow(o, l, r);
            Ok((o, v))
        },
        BinOp::Tetration => {
            let (o, v) = compile_int_tetration(o, l, r);
            Ok((o, v))
        },
        BinOp::Eq | BinOp::Ne | BinOp::Lt | BinOp::Gt | BinOp::Le | BinOp::Ge => {
            let (o, v) = int_test(o, test_of(op), l, r);
            Ok((o, v))
        },
        BinOp::And | BinOp::Or | BinOp::Concat => {
            Err("this operator requires bool operands, not int"@)
        },
    }
}

/// An operator on two integers. It is computed in 64 bits; a number that comes out is brought to
/// the larger of the two widths at once.
#[verifier::opaque]
pub open spec fn compile_int_binary(o: Out, op: BinOp, l: Value, r: Value) -> Result<(Out, Value), Seq<char>> {
    match (l.repr, r.repr) {
        (Repr::Int(a), Repr::Int(b)) => {
            let (o, x) = coerce_int_width(o, l, 64);
            let (o, y) = coerce_int_width(o, r, 64);
            match compile_binary_int_op(o, op, x, y) {
                Err(m) => Err(m),
                Ok((o, v)) => {
                    if v.repr == Repr::Int(1) {
                        Ok((o, v))
                    } else {
                        let (o, n) = coerce_int_width(o, v, max_width(a, b));
                        Ok((o, n))
                    }
                },
            }
        },
        _ => {
            Err("int operator used with a value that is no int"@)
        },
    }
}

/// `xxx` on floats: a tower of `height` copies of `base`.
#[verifier::opaque]
pub open spec fn compile_tetration(o: Out, base: Value, height: Value) -> (Out, Value) {
    let (o, n) = give1(o, Op::FloatToInt, height, Repr::Int(64));
    let (o, result) = slot(o, Repr::Float(64), "tet_result"@);
    let o = store(o, result, base);
    let (o, l) = loop_begin(o, 2, Test::Le, n);
    let (o, current) = load(o, Repr::Float(64), result);
    let (o, next) = call2(o, Rt::Pow, base, current);
    let o = store(o, result, next);
    let o = loop_end(o, l);
    load(o, Repr::Float(64), result)
}

/// `!` on a float.
#[verifier::opaque]
pub open spec fn compile_factorial(o: Out, v: Value) -> (Out, Value) {
    let (o, n) = give1(o, Op::FloatToInt, v, Repr::Int(64));
    let (o, result) = slot(o, Repr::Float(64), "fact_result"@);
    let (o, one) = const_float(o, "1"@);
    let o = store(o, result, one);
    let (o, l) = loop_begin(o, 2, Test::Le, n);
    let (o, current) = load(o, Repr::Float(64), result);
    let (o, factor) = give1(o, Op::IntToFloat, l.counter, Repr::Float(64));
    let (o, next) = give2(o, Op::FloatMul, current, factor, Repr::Float(64));
    let o = store(o, result, next);
    let o = loop_end(o, l);
    load(o, Repr::Float(64), result)
}

/// An operator on two floats of the same width.
#[verifier::opaque]
pub open spec fn compile_float_op(o: Out, op: BinOp, l: Value, r: Value) -> Result<(Out, Value), Seq<char>> {
    match op {
        BinOp::Add => {
            let (o, v) = give2(o, Op::FloatAdd, l, r, l.repr);
            Ok((o, v))
        },
        BinOp::Sub => {
            let (o, v) = give2(o, Op::FloatSub, l, r, l.repr);
            Ok((o, v))
        },
        BinOp::Mul => {
            let (o, v) = give2(o, Op::FloatMul, l, r, l.repr);
            Ok((o, v))
        },
        BinOp::Div => {
            let (o, v) = give2(o, Op::FloatDiv, l, r, l.repr);
            Ok((o, v))
        },
        BinOp::Pow => {
            let (o, a) = coerce_float(o, l, 64);
            let (o, b) = coerce_float(o, r, 64);
            let (o, v) = call2(o, Rt::Pow, a, b);
            Ok((o, v))
        },
        BinOp::Tetration => {
            let (o, a) = coerce_float(o, l, 64);
            let (o, b) = coerce_float(o, r, 64);
            let (o, v) = compile_tetration(o, a, b);
            Ok((o, v))
        },
        BinOp::Eq | BinOp::Ne | BinOp::Lt | BinOp::Gt | BinOp::Le | BinOp::Ge => {
            let (o, v) = give2(o, Op::FloatTest(test_of(op)), l, r, Repr::Int(1));
            Ok((o, v))
        },
        BinOp::And | BinOp::Or | BinOp::Concat => {
            Err("this operator requires bool operands, not num"@)
        },
    }
}

/// An operator on two floats. The narrower one is made as wide as the other first.
#[verifier::opaque]
pub open spec fn compile_float_binary(o: Out, op: BinOp, l: Value, r: Value) -> Result<(Out, Value), Seq<char>> {
    match (l.repr, r.repr) {
        (Repr::Float(a), Repr::Float(b)) => {
            let (o, x) = coerce_float(o, l, max_width(a, b));
            let (o, y) = coerce_float(o, r, max_width(a, b));
            compile_float_op(o, op, x, y)
        },
        _ => {
            Err("num operator used with a value that is no num"@)
        },
    }
}

/// An operator on two truth values.
#[verifier::opaque]
pub open spec fn compile_bool_binary(o: Out, op: BinOp, l: Value, r: Value) -> Result<(Out, Value), Seq<char>> {
    match op {
        BinOp::Eq | BinOp::Ne => {
            let (o, v) = int_test(o, test_of(op), l, r);
            Ok((o, v))
        },
        BinOp::And => {
            let (o, v) = give2(o, Op::And, l, r, Repr::Int(1));
            Ok((o, v))
        },
        BinOp::Or => {
            let (o, v) = give2(o, Op::Or, l, r, Repr::Int(1));
            Ok((o, v))
        },
        _ => {
            Err("this operator is not supported on bool operands"@)
        },
    }
}

/// A comparison of two bignums or of two bigints, by the runtime function that orders them.
#[verifier::opaque]
pub open spec fn compile_order(o: Out, op: BinOp, order: Rt, l: Value, r: Value) -> (Out, Value) {
    let (o, a) = unwrap(o, l);
    let (o, b) = unwrap(o, r);
    let (o, c) = call2(o, order, a, b);
    let (o, zero) = const_int(o, 32, 0);
    int_test(o, test_of(op), c, zero)
}

/// `xxx` on bignums, given and returned as pointers: a tower in a single handle.
#[verifier::opaque]
pub open spec fn compile_bignum_tetration(o: Out, base: Value, height: Value, precision: u32) -> (Out, Value) {
    let (o, n) = call1(o, Rt::BignumGetI64, height);
    let (o, acc) = bignum_new(o, precision);
    let o = run2(o, Rt::BignumCopy, acc, base);
    let (o, l) = loop_begin(o, 2, Test::Le, n);
    let o = run3(o, Rt::BignumPow, acc, base, acc);
    let o = loop_end(o, l);
    (o, acc)
}

/// `!` on a bignum, given and returned as a pointer. The result has the default precision; each
/// step frees the handles that it leaves behind.
#[verifier::opaque]
pub open spec fn compile_bignum_factorial(o: Out, v: Value) -> (Out, Value) {
    let (o, n) = call1(o, Rt::BignumGetI64, v);
    let (o, first) = bignum_new(o, DEFAULT_BIGNUM_PRECISION);
    let (o, one) = const_float(o, "1"@);
    let o = run2(o, Rt::BignumSetD, first, one);
    let (o, result) = slot(o, Repr::Ptr, "fact_bignum_result"@);
    let o = store(o, result, first);
    let (o, l) = loop_begin(o, 2, Test::Le, n);
    let (o, current) = load(o, Repr::Ptr, result);
    let (o, f) = give1(o, Op::IntToFloat, l.counter, Repr::Float(64));
    let (o, factor) = bignum_new(o, DEFAULT_BIGNUM_PRECISION);
    let o = run2(o, Rt::BignumSetD, factor, f);
    let (o, next) = bignum_new(o, DEFAULT_BIGNUM_PRECISION);
    let o = run3(o, Rt::BignumMul, next, current, factor);
    let o = run1(o, Rt::BignumFree, current);
    let o = run1(o, Rt::BignumFree, factor);
    let o = store(o, result, next);
    let o = loop_end(o, l);
    load(o, Repr::Ptr, result)
}

/// What a format string is given to show a value.
#[verifier::opaque]
pub open spec fn value_fmt(o: Out, v: Value) -> Result<(Out, Value), Seq<char>> {
    match v.repr {
        Repr::Float(_) => {
            let (o, f) = coerce_float(o, v, 64);
            Ok((o, f))
        },
        Repr::Ptr => {
            Ok((o, v))
        },
        Repr::Int(1) => {
            let (o, yes) = const_str(o, "true"@);
            let (o, no) = const_str(o, "false"@);
            let (o, t) = give3(o, Op::Select, v, yes, no, Repr::Ptr);
            Ok((o, t))
        },
        Repr::Int(_) => {
            let (o, n) = coerce_int_width(o, v, 64);
            Ok((o, n))
        },
        Repr::BigInt => {
            let (o, p) = unwrap(o, v);
            let (o, t) = call1(o, Rt::BigintToString, p);
            Ok((o, t))
        },
        Repr::Handle => {
            let (o, p) = unwrap(o, v);
            let (o, t) = call1(o, Rt::BignumToString, p);
            Ok((o, t))
        },
        _ => {
            Err("unsupported value for text formatting"@)
        },
    }
}

/// Frees the text that was made to show a value of the given representation, if one was made.
#[verifier::opaque]
pub open spec fn free_shown(o: Out, repr: Repr, text: Value) -> Out {
    match repr {
        Repr::Handle | Repr::BigInt => {
            let o = run1(o, Rt::Free, text);
            o
        },
        _ => {
            o
        },
    }
}

/// A new text made of a format string and two operands. Its size is measured before it is filled.
#[verifier::opaque]
pub open spec fn format_pair(o: Out, format: Seq<char>, a: Value, b: Value) -> (Out, Value) {
    let (o, f) = const_str(o, format);
    let (o, nowhere) = null(o);
    let (o, nothing) = const_int(o, 64, 0);
    let (o, n) = call_list(o, Rt::Snprintf, seq![nowhere, nothing, f, a, b]);
    let (o, wide) = give1(o, Op::ZeroExtend(64), n, Repr::Int(64));
    let (o, one) = const_int(o, 64, 1);
    let (o, size) = give2(o, Op::IntAdd, wide, one, Repr::Int(64));
    let (o, buffer) = call1(o, Rt::Malloc, size);
    let (o, filled) = call_list(o, Rt::Snprintf, seq![buffer, size, f, a, b]);
    (o, buffer)
}

/// `stch`: a new text made of what shows two values.
#[verifier::opaque]
pub open spec fn compile_concat(o: Out, l: Value, r: Value) -> Result<(Out, Value), Seq<char>> {
    match value_fmt(o, l) {
        Err(m) => Err(m),
        Ok((o, a)) => {
            match value_fmt(o, r) {
                Err(m) => Err(m),
                Ok((o, b)) => {
                    let format = pair_format(l.repr, r.repr);
                    let (o, buffer) = format_pair(o, format, a, b);
                    let o = free_shown(o, l.repr, a);
                    let o = free_shown(o, r.repr, b);
                    Ok((o, buffer))
                },
            }
        },
    }
}

/// Returns what a function gives when it ends without a `return`.
#[verifier::opaque]
pub open spec fn default_return(o: Out, ty: Type) -> Out {
    match ty {
        Type::Void => {
            let o = do0(o, Op::RetVoid);
            o
        },
        Type::Num(w) | Type::NumW(w) => {
            let (o, zero) = const_float(o, "0"@);
            let (o, v) = coerce_float(o, zero, w);
            let o = do1(o, Op::Ret, v);
            o
        },
        Type::Bool => {
            let (o, v) = const_int(o, 1, 0);
            let o = do1(o, Op::Ret, v);
            o
        },
        Type::Int(w) => {
            let (o, v) = const_int(o, w, 0);
            let o = do1(o, Op::Ret, v);
            o
        },
        Type::Str | Type::File => {
            let (o, v) = null(o);
            let o = do1(o, Op::Ret, v);
            o
        },
        Type::BigNum(_) | Type::Array(_) => {
            let (o, p) = null(o);
            let (o, v) = wrap(o, Repr::Handle, p);
            let o = do1(o, Op::Ret, v);
            o
        },
        Type::BigInt => {
            let (o, p) = null(o);
            let (o, v) = wrap(o, Repr::BigInt, p);
            let o = do1(o, Op::Ret, v);
            o
        },
    }
}

/// A writer of code.
pub struct Emitter {
    pub code: Vec<Inst>,
    pub ended: bool,
}

impl Emitter {
    /// The code so far.
    pub open spec fn view(&self) -> Out {
        Out { code: insts_view(self.code@), ended: self.ended }
    }

    /// One more instruction. Gives its place.
    pub fn emit(&mut self, op: Op, args: Vec<usize>, text: &str) -> (id: usize)
        ensures
            final(self)@ == emit(old(self)@, op, args@, text@),
            id == old(self)@.code.len() as usize,
    {
        proof {
            reveal(emit);
        }
        let id: usize = self.code.len();
        let inst: Inst = Inst { op, args, text: text1(text) };
        self.code.push(inst);
        assert(insts_view(self.code@) =~= insts_view(old(self).code@).push(inst@));
        match op {
            Op::Jump | Op::Branch | Op::Ret | Op::RetVoid | Op::Unreachable => {
                self.ended = true;
            },
            Op::At | Op::BeginFunction(_) | Op::BeginMain => {
                self.ended = false;
            },
            _ => {},
        }
        id
    }

    /// An instruction with no operand that gives a value.
    pub fn give0(&mut self, op: Op, text: &str, repr: Repr) -> (r: Value)
        ensures
            (final(self)@, r) == give0(old(self)@, op, text@, repr),
    {
        proof {
            reveal(give0);
        }
        let args: Vec<usize> = Vec::new();
        assert(args@ =~= Seq::<usize>::empty());
        let id: usize = self.emit(op, args, text);
        Value { id, repr }
    }

    /// An instruction with no operand that gives no value.
    pub fn do0(&mut self, op: Op)
        ensures
            final(self)@ == do0(old(self)@, op),
    {
        proof {
            reveal(do0);
        }
        let args: Vec<usize> = Vec::new();
        assert(args@ =~= Seq::<usize>::empty());
        let _ = self.emit(op, args, "");
    }

    /// A call of a runtime function with no operand for its value.
    pub fn call0(&mut self, f: Rt) -> (r: Value)
        ensures
            (final(self)@, r) == call0(old(self)@, f),
    {
        proof {
            reveal(call0);
        }
        let args: Vec<usize> = Vec::new();
        assert(args@ =~= Seq::<usize>::empty());
        let id: usize = self.emit(Op::Call(f), args, "");
        Value { id, repr: f.result() }
    }

    /// An instruction with one operand that gives a value.
    pub fn give1(&mut self, op: Op, a: Value, repr: Repr) -> (r: Value)
        ensures
            (final(self)@, r) == give1(old(self)@, op, a, repr),
    {
        proof {
            reveal(give1);
        }
        let args: Vec<usize> = vec![a.id];
        assert(args@ =~= seq![a.id]);
        let id: usize = self.emit(op, args, "");
        Value { id, repr }
    }

    /// An instruction with one operand that gives no value.
    pub fn do1(&mut self, op: Op, a: Value)
        ensures
            final(self)@ == do1(old(self)@, op, a),
    {
        proof {
            reveal(do1);
        }
        let args: Vec<usize> = vec![a.id];
        assert(args@ =~= seq![a.id]);
        let _ = self.emit(op, args, "");
    }

    /// A call of a runtime function with one operand for its value.
    pub fn call1(&mut self, f: Rt, a: Value) -> (r: Value)
        ensures
            (final(self)@, r) == call1(old(self)@, f, a),
    {
        proof {
            reveal(call1);
        }
        let args: Vec<usize> = vec![a.id];
        assert(args@ =~= seq![a.id]);
        let id: usize = self.emit(Op::Call(f), args, "");
        Value { id, repr: f.result() }
    }

    /// A call of a runtime function with one operand for its effect.
    pub fn run1(&mut self, f: Rt, a: Value)
        ensures
            final(self)@ == run1(old(self)@, f, a),
    {
        proof {
            reveal(run1);
        }
        let args: Vec<usize> = vec![a.id];
        assert(args@ =~= seq![a.id]);
        let _ = self.emit(Op::Call(f), args, "");
    }

    /// An instruction with two operands that gives a value.
    pub fn give2(&mut self, op: Op, a: Value, b: Value, repr: Repr) -> (r: Value)
        ensures
            (final(self)@, r) == give2(old(self)@, op, a, b, repr),
    {
        proof {
            reveal(give2);
        }
        let args: Vec<usize> = vec![a.id, b.id];
        assert(args@ =~= seq![a.id, b.id]);
        let id: usize = self.emit(op, args, "");
        Value { id, repr }
    }

    /// An instruction with two operands that gives no value.
    pub fn do2(&mut self, op: Op, a: Value, b: Value)
        ensures
            final(self)@ == do2(old(self)@, op, a, b),
    {
        proof {
            reveal(do2);
        }
        let args: Vec<usize> = vec![a.id, b.id];
        assert(args@ =~= seq![a.id, b.id]);
        let _ = self.emit(op, args, "");
    }

    /// A call of a runtime function with two operands for its value.
    pub fn call2(&mut self, f: Rt, a: Value, b: Value) -> (r: Value)
        ensures
            (final(self)@, r) == call2(old(self)@, f, a, b),
    {
        proof {
            reveal(call2);
        }
        let args: Vec<usize> = vec![a.id, b.id];
        assert(args@ =~= seq![a.id, b.id]);
        let id: usize = self.emit(Op::Call(f), args, "");
        Value { id, repr: f.result() }
    }

    /// A call of a runtime function with two operands for its effect.
    pub fn run2(&mut self, f: Rt, a: Value, b: Value)
        ensures
            final(self)@ == run2(old(self)@, f, a, b),
    {
        proof {
            reveal(run2);
        }
        let args: Vec<usize> = vec![a.id, b.id];
        assert(args@ =~= seq![a.id, b.id]);
        let _ = self.emit(Op::Call(f), args, "");
    }

    /// An instruction with three operands that gives a value.
    pub fn give3(&mut self, op: Op, a: Value, b: Value, c: Value, repr: Repr) -> (r: Value)
        ensures
            (final(self)@, r) == give3(old(self)@, op, a, b, c, repr),
    {
        proof {
            reveal(give3);
        }
        let args: Vec<usize> = vec![a.id, b.id, c.id];
        assert(args@ =~= seq![a.id, b.id, c.id]);
        let id: usize = self.emit(op, args, "");
        Value { id, repr }
    }

    /// An instruction with three operands that gives no value.
    pub fn do3(&mut self, op: Op, a: Value, b: Value, c: Value)
        ensures
            final(self)@ == do3(old(self)@, op, a, b, c),
    {
        proof {
            reveal(do3);
        }
        let args: Vec<usize> = vec![a.id, b.id, c.id];
        assert(args@ =~= seq![a.id, b.id, c.id]);
        let _ = self.emit(op, args, "");
    }

    /// A call of a runtime function with three operands for its effect.
    pub fn run3(&mut self, f: Rt, a: Value, b: Value, c: Value)
        ensures
            final(self)@ == run3(old(self)@, f, a, b, c),
    {
        proof {
            reveal(run3);
        }
        let args: Vec<usize> = vec![a.id, b.id, c.id];
        assert(args@ =~= seq![a.id, b.id, c.id]);
        let _ = self.emit(Op::Call(f), args, "");
    }

    /// A call of a runtime function with a list of operands.
    pub fn call_list(&mut self, f: Rt, vs: Vec<Value>) -> (r: Value)
        ensures
            (final(self)@, r) == call_list(old(self)@, f, vs@),
    {
        proof {
            reveal(call_list);
        }
        let args: Vec<usize> = ids_of(&vs);
        let id: usize = self.emit(Op::Call(f), args, "");
        Value { id, repr: f.result() }
    }

    /// A call of a function of the program.
    pub fn call_function(&mut self, k: usize, vs: Vec<Value>, repr: Repr) -> (r: Value)
        ensures
            (final(self)@, r) == call_function(old(self)@, k, vs@, repr),
    {
        proof {
            reveal(call_function);
        }
        let args: Vec<usize> = ids_of(&vs);
        let id: usize = self.emit(Op::CallFunction(k), args, "");
        Value { id, repr }
    }

    /// A new block of the function.
    pub fn block(&mut self, name: &str) -> (res: Value)
        ensures
            (final(self)@, res) == block(old(self)@, name@),
    {
        proof {
            reveal(block);
        }
        self.give0(Op::Block, name, Repr::Void)
    }

    /// Goes on at the end of a block.
    pub fn at(&mut self, b: Value)
        ensures
            final(self)@ == at(old(self)@, b),
    {
        proof {
            reveal(at);
        }
        self.do1(Op::At, b);
    }

    /// Goes to a block.
    pub fn jump(&mut self, b: Value)
        ensures
            final(self)@ == jump(old(self)@, b),
    {
        proof {
            reveal(jump);
        }
        self.do1(Op::Jump, b);
    }

    /// Goes to one of two blocks, by a truth value.
    pub fn branch(&mut self, cond: Value, yes: Value, no: Value)
        ensures
            final(self)@ == branch(old(self)@, cond, yes, no),
    {
        proof {
            reveal(branch);
        }
        self.do3(Op::Branch, cond, yes, no);
    }

    /// A place in memory that belongs to the function.
    pub fn slot(&mut self, repr: Repr, name: &str) -> (res: Value)
        ensures
            (final(self)@, res) == slot(old(self)@, repr, name@),
    {
        proof {
            reveal(slot);
        }
        self.give0(Op::Slot(repr), name, Repr::Ptr)
    }

    /// Stores a value.
    pub fn store(&mut self, place: Value, v: Value)
        ensures
            final(self)@ == store(old(self)@, place, v),
    {
        proof {
            reveal(store);
        }
        self.do2(Op::Store, place, v);
    }

    /// Loads a value.
    pub fn load(&mut self, repr: Repr, place: Value) -> (res: Value)
        ensures
            (final(self)@, res) == load(old(self)@, repr, place),
    {
        proof {
            reveal(load);
        }
        self.give1(Op::Load(repr), place, repr)
    }

    /// The float that a numeral denotes.
    pub fn const_float(&mut self, text: &str) -> (res: Value)
        ensures
            (final(self)@, res) == const_float(old(self)@, text@),
    {
        proof {
            reveal(const_float);
        }
        self.give0(Op::ConstFloat, text, Repr::Float(64))
    }

    /// An integer constant.
    pub fn const_int(&mut self, width: u32, v: i64) -> (res: Value)
        ensures
            (final(self)@, res) == const_int(old(self)@, width, v),
    {
        proof {
            reveal(const_int);
        }
        self.give0(Op::ConstInt(width, v), "", Repr::Int(width))
    }

    /// A text constant.
    pub fn const_str(&mut self, text: &str) -> (res: Value)
        ensures
            (final(self)@, res) == const_str(old(self)@, text@),
    {
        proof {
            reveal(const_str);
        }
        self.give0(Op::ConstStr, text, Repr::Ptr)
    }

    /// The null pointer.
    pub fn null(&mut self) -> (res: Value)
        ensures
            (final(self)@, res) == null(old(self)@),
    {
        proof {
            reveal(null);
        }
        self.give0(Op::Null, "", Repr::Ptr)
    }

    /// The size of a representation.
    pub fn size_of(&mut self, repr: Repr) -> (res: Value)
        ensures
            (final(self)@, res) == size_of(old(self)@, repr),
    {
        proof {
            reveal(size_of);
        }
        self.give0(Op::SizeOf(repr), "", Repr::Int(64))
    }

    /// A pointer wrapped in a structure.
    pub fn wrap(&mut self, repr: Repr, p: Value) -> (res: Value)
        ensures
            (final(self)@, res) == wrap(old(self)@, repr, p),
    {
        proof {
            reveal(wrap);
        }
        self.give1(Op::Wrap(repr), p, repr)
    }

    /// The pointer in a structure.
    pub fn unwrap(&mut self, v: Value) -> (res: Value)
        ensures
            (final(self)@, res) == unwrap(old(self)@, v),
    {
        proof {
            reveal(unwrap);
        }
        self.give1(Op::Unwrap, v, Repr::Ptr)
    }

    /// Compares two integers.
    pub fn int_test(&mut self, test: Test, l: Value, r: Value) -> (res: Value)
        ensures
            (final(self)@, res) == int_test(old(self)@, test, l, r),
    {
        proof {
            reveal(int_test);
        }
        self.give2(Op::IntTest(test), l, r, Repr::Int(1))
    }

    /// Stops the program with a message if `cond` holds.
    pub fn crash_if(&mut self, cond: Value, message: &str)
        ensures
            final(self)@ == crash_if(old(self)@, cond, message@),
    {
        proof {
            reveal(crash_if);
        }
        let crash: Value = self.block("int_crash");
        let next: Value = self.block("int_continue");
        self.branch(cond, crash, next);
        self.at(crash);
        let text: Value = self.const_str(message);
        self.run1(Rt::IntDie, text);
        self.do0(Op::Unreachable);
        self.at(next);
    }

    /// Starts a loop whose counter goes up from `first` while it passes the test against `limit`. The
    /// body of the loop comes next.
    pub fn loop_begin(&mut self, first: i64, test: Test, limit: Value) -> (res: Looping)
        ensures
            (final(self)@, res) == loop_begin(old(self)@, first, test, limit),
    {
        proof {
            reveal(loop_begin);
        }
        let place: Value = self.slot(Repr::Int(64), "loop_counter");
        let start: Value = self.const_int(64, first);
        self.store(place, start);
        let head: Value = self.block("loop_head");
        let body: Value = self.block("loop_body");
        let done: Value = self.block("loop_done");
        self.jump(head);
        self.at(head);
        let counter: Value = self.load(Repr::Int(64), place);
        let more: Value = self.int_test(test, counter, limit);
        self.branch(more, body, done);
        self.at(body);
        Looping { counter, place, head, done }
    }

    /// Ends the body of a loop, and goes on behind it.
    pub fn loop_end(&mut self, l: Looping)
        ensures
            final(self)@ == loop_end(old(self)@, l),
    {
        proof {
            reveal(loop_end);
        }
        let one: Value = self.const_int(64, 1);
        let next: Value = self.give2(Op::IntAdd, l.counter, one, Repr::Int(64));
        self.store(l.place, next);
        self.jump(l.head);
        self.at(l.done);
    }

    /// A float at another width.
    pub fn coerce_float(&mut self, v: Value, width: u32) -> (res: Value)
        ensures
            (final(self)@, res) == coerce_float(old(self)@, v, width),
    {
        proof {
            reveal(coerce_float);
        }
        match v.repr {
            Repr::Float(w) => {
                if w == width {
                    v
                } else if w < width {
                    self.give1(Op::FloatExtend(width), v, Repr::Float(width))
                } else {
                    self.give1(Op::FloatTruncate(width), v, Repr::Float(width))
                }
            },
            _ => {
                v
            },
        }
    }

    /// An integer at another width. Making it wider is exact; making it narrower stops the program if
    /// the value does not fit.
    pub fn coerce_int_width(&mut self, v: Value, width: u32) -> (res: Value)
        ensures
            (final(self)@, res) == coerce_int_width(old(self)@, v, width),
    {
        proof {
            reveal(coerce_int_width);
        }
        match v.repr {
            Repr::Int(w) => {
                if w == width {
                    v
                } else if w < width {
                    self.give1(Op::SignExtend(width), v, Repr::Int(width))
                } else {
                    let narrow: Value = self.give1(Op::Truncate(width), v, Repr::Int(width));
                    let back: Value = self.give1(Op::SignExtend(w), narrow, Repr::Int(w));
                    let same: Value = self.int_test(Test::Eq, v, back);
                    let overflowed: Value = self.give1(Op::Not, same, Repr::Int(1));
                    let digits: String = decimal_text(width as u64);
                    let message: String = text3("int overflow: value doesn't fit in int[precision:", &digits, "]");
                    self.crash_if(overflowed, &message);
                    narrow
                }
            },
            _ => {
                v
            },
        }
    }

    /// A new bignum of the given precision.
    pub fn bignum_new(&mut self, precision: u32) -> (res: Value)
        ensures
            (final(self)@, res) == bignum_new(old(self)@, precision),
    {
        proof {
            reveal(bignum_new);
        }
        let p: Value = self.const_int(64, precision as i64);
        self.call1(Rt::BignumNew, p)
    }

    /// A value as a bignum of its own.
    pub fn coerce_to_bignum(&mut self, v: Value, precision: u32) -> (res: Result<Value, String>)
        ensures
            match res {
                Ok(x) => coerce_to_bignum(old(self)@, v, precision) == Ok::<(Out, Value), Seq<char>>((final(self)@, x)),
                Err(m) => coerce_to_bignum(old(self)@, v, precision) == Err::<(Out, Value), Seq<char>>(m@),
            },
    {
        proof {
            reveal(coerce_to_bignum);
        }
        match v.repr {
            Repr::Float(_) => {
                let h: Value = self.bignum_new(precision);
                let f: Value = self.coerce_float(v, 64);
                self.run2(Rt::BignumSetD, h, f);
                let r: Value = self.wrap(Repr::Handle, h);
                Ok(r)
            },
            Repr::Ptr => {
                let h: Value = self.bignum_new(precision);
                self.run2(Rt::BignumSetStr, h, v);
                let r: Value = self.wrap(Repr::Handle, h);
                Ok(r)
            },
            Repr::Handle => {
                let h: Value = self.bignum_new(precision);
                let p: Value = self.unwrap(v);
                self.run2(Rt::BignumCopy, h, p);
                let r: Value = self.wrap(Repr::Handle, h);
                Ok(r)
            },
            _ => {
                Err(text1("cannot use this value as a bignum"))
            },
        }
    }

    /// A value as a bigint of its own.
    pub fn coerce_to_bigint(&mut self, v: Value) -> (res: Result<Value, String>)
        ensures
            match res {
                Ok(x) => coerce_to_bigint(old(self)@, v) == Ok::<(Out, Value), Seq<char>>((final(self)@, x)),
                Err(m) => coerce_to_bigint(old(self)@, v) == Err::<(Out, Value), Seq<char>>(m@),
            },
    {
        proof {
            reveal(coerce_to_bigint);
        }
        match v.repr {
            Repr::Ptr => {
                let h: Value = self.call0(Rt::BigintNew);
                self.run2(Rt::BigintSetStr, h, v);
                let r: Value = self.wrap(Repr::BigInt, h);
                Ok(r)
            },
            Repr::BigInt => {
                let h: Value = self.call0(Rt::BigintNew);
                let p: Value = self.unwrap(v);
                self.run2(Rt::BigintCopy, h, p);
                let r: Value = self.wrap(Repr::BigInt, h);
                Ok(r)
            },
            _ => {
                Err(text1("cannot use this value as a bigint"))
            },
        }
    }

    /// Frees what a value owns, if it is no array.
    pub fn free_scalar(&mut self, v: Value, ty: Type)
        ensures
            final(self)@ == free_scalar(old(self)@, v, ty),
    {
        proof {
            reveal(free_scalar);
        }
        match ty {
            Type::BigNum(_) => {
                let p: Value = self.unwrap(v);
                self.run1(Rt::BignumFree, p);
            },
            Type::BigInt => {
                let p: Value = self.unwrap(v);
                self.run1(Rt::BigintFree, p);
            },
            Type::Str | Type::File => {
                self.run1(Rt::Free, v);
            },
            _ => {
            },
        }
    }

    /// Frees what the elements of an array own.
    pub fn free_elements(&mut self, h: Value, ty: Type)
        ensures
            final(self)@ == free_elements(old(self)@, h, ty),
    {
        proof {
            reveal(free_elements);
        }
        if is_owned(ty) {
            let n: Value = self.call1(Rt::ArrayLength, h);
            let l: Looping = self.loop_begin(1, Test::Le, n);
            let p: Value = self.call2(Rt::ArrayGetPtr, h, l.counter);
            let v: Value = self.load(basic_type(ty), p);
            self.free_scalar(v, ty);
            self.loop_end(l);
        } else {
        }
    }

    /// Frees what a value owns.
    pub fn free_value(&mut self, v: Value, ty: Type)
        ensures
            final(self)@ == free_value(old(self)@, v, ty),
    {
        proof {
            reveal(free_value);
        }
        match ty {
            Type::Array(element) => {
                let h: Value = self.unwrap(v);
                self.free_elements(h, element.as_type());
                self.run1(Rt::ArrayFree, h);
            },
            _ => {
                self.free_scalar(v, ty);
            },
        }
    }

    /// Frees what the value in a variable owns.
    pub fn free_slot(&mut self, place: Value, ty: Type)
        ensures
            final(self)@ == free_slot(old(self)@, place, ty),
    {
        proof {
            reveal(free_slot);
        }
        if is_owned(ty) {
            let v: Value = self.load(basic_type(ty), place);
            self.free_value(v, ty);
        } else {
        }
    }

    /// A copy of an element of an array that owns nothing of the original.
    pub fn copy_element(&mut self, v: Value, ty: Type) -> (res: Result<Value, String>)
        ensures
            match res {
                Ok(x) => copy_element(old(self)@, v, ty) == Ok::<(Out, Value), Seq<char>>((final(self)@, x)),
                Err(m) => copy_element(old(self)@, v, ty) == Err::<(Out, Value), Seq<char>>(m@),
            },
    {
        proof {
            reveal(copy_element);
        }
        match ty {
            Type::Str | Type::File => {
                let c: Value = self.call1(Rt::Strdup, v);
                Ok(c)
            },
            Type::BigNum(precision) => {
                self.coerce_to_bignum(v, precision)
            },
            Type::BigInt => {
                self.coerce_to_bigint(v)
            },
            _ => {
                Ok(v)
            },
        }
    }

    /// A copy of an array with elements of type `ty`, each of which is copied too.
    pub fn coerce_to_array(&mut self, v: Value, ty: Type) -> (res: Result<Value, String>)
        ensures
            match res {
                Ok(x) => coerce_to_array(old(self)@, v, ty) == Ok::<(Out, Value), Seq<char>>((final(self)@, x)),
                Err(m) => coerce_to_array(old(self)@, v, ty) == Err::<(Out, Value), Seq<char>>(m@),
            },
    {
        proof {
            reveal(coerce_to_array);
        }
        match v.repr {
            Repr::Handle => {
                let source: Value = self.unwrap(v);
                let size: Value = self.size_of(basic_type(ty));
                let h: Value = self.call1(Rt::ArrayNew, size);
                let n: Value = self.call1(Rt::ArrayLength, source);
                let l: Looping = self.loop_begin(1, Test::Le, n);
                let p: Value = self.call2(Rt::ArrayGetPtr, source, l.counter);
                let e: Value = self.load(basic_type(ty), p);
                let c: Value = self.copy_element(e, ty)?;
                let place: Value = self.slot(basic_type(ty), "array_copy_value");
                self.store(place, c);
                self.run2(Rt::ArrayAppend, h, place);
                self.loop_end(l);
                let r: Value = self.wrap(Repr::Handle, h);
                Ok(r)
            },
            _ => {
                Err(text1("cannot use this value as an array"))
            },
        }
    }

    /// A value as it is stored, passed or returned as `ty`. What it owns is copied.
    pub fn coerce_to_type(&mut self, v: Value, ty: Type) -> (res: Result<Value, String>)
        ensures
            match res {
                Ok(x) => coerce_to_type(old(self)@, v, ty) == Ok::<(Out, Value), Seq<char>>((final(self)@, x)),
                Err(m) => coerce_to_type(old(self)@, v, ty) == Err::<(Out, Value), Seq<char>>(m@),
            },
    {
        proof {
            reveal(coerce_to_type);
        }
        match (v.repr, ty) {
            (Repr::Float(_), Type::Num(w)) => {
                let r: Value = self.coerce_float(v, w);
                Ok(r)
            },
            (Repr::Float(_), Type::NumW(w)) => {
                let r: Value = self.coerce_float(v, w);
                Ok(r)
            },
            (Repr::Int(1), Type::Bool) => {
                Ok(v)
            },
            (Repr::Int(_), Type::Int(w)) => {
                let r: Value = self.coerce_int_width(v, w);
                Ok(r)
            },
            (_, Type::BigNum(precision)) => {
                self.coerce_to_bignum(v, precision)
            },
            (_, Type::BigInt) => {
                self.coerce_to_bigint(v)
            },
            (Repr::Ptr, Type::Str | Type::File) => {
                let r: Value = self.call1(Rt::Strdup, v);
                Ok(r)
            },
            (_, Type::Array(element)) => {
                self.coerce_to_array(v, element.as_type())
            },
            _ => {
                Err(text1("cannot store a value of this kind here"))
            },
        }
    }

    /// The result of a checked operation. The program stops if it overflowed.
    pub fn checked_result(&mut self, p: Value, message: &str) -> (res: Value)
        ensures
            (final(self)@, res) == checked_result(old(self)@, p, message@),
    {
        proof {
            reveal(checked_result);
        }
        let v: Value = self.give1(Op::CheckedResult, p, Repr::Int(64));
        let overflowed: Value = self.give1(Op::CheckedFlag, p, Repr::Int(1));
        self.crash_if(overflowed, message);
        v
    }

    /// `+`, `-` or `x` on 64-bit integers. The program stops if the result overflows.
    pub fn checked_int_arith(&mut self, op: BinOp, l: Value, r: Value) -> (res: Value)
        ensures
            (final(self)@, res) == checked_int_arith(old(self)@, op, l, r),
    {
        proof {
            reveal(checked_int_arith);
        }
        match op {
            BinOp::Add => {
                let p: Value = self.call2(Rt::AddOverflow, l, r);
                self.checked_result(p, "int overflow: result of + doesn't fit in int")
            },
            BinOp::Sub => {
                let p: Value = self.call2(Rt::SubOverflow, l, r);
                self.checked_result(p, "int overflow: result of - doesn't fit in int")
            },
            _ => {
                let p: Value = self.call2(Rt::MulOverflow, l, r);
                self.checked_result(p, "int overflow: result of x doesn't fit in int")
            },
        }
    }

    /// `/` on 64-bit integers. The program stops on a division by zero, and where the result overflows.
    pub fn compile_int_div(&mut self, l: Value, r: Value) -> (res: Value)
        ensures
            (final(self)@, res) == compile_int_div(old(self)@, l, r),
    {
        proof {
            reveal(compile_int_div);
        }
        let zero: Value = self.const_int(64, 0);
        let by_zero: Value = self.int_test(Test::Eq, r, zero);
        self.crash_if(by_zero, "int division by zero");
        let least: Value = self.const_int(64, i64::MIN);
        let minus: Value = self.const_int(64, -1);
        let is_least: Value = self.int_test(Test::Eq, l, least);
        let is_minus: Value = self.int_test(Test::Eq, r, minus);
        let both: Value = self.give2(Op::And, is_least, is_minus, Repr::Int(1));
        self.crash_if(both, "int overflow: i64::MIN / -1 doesn't fit in int");
        self.give2(Op::IntDiv, l, r, Repr::Int(64))
    }

    /// The negation of an integer, at its own width. The program stops if it does not fit.
    pub fn compile_int_neg(&mut self, v: Value) -> (res: Value)
        ensures
            (final(self)@, res) == compile_int_neg(old(self)@, v),
    {
        proof {
            reveal(compile_int_neg);
        }
        match v.repr {
            Repr::Int(w) => {
                let wide: Value = self.coerce_int_width(v, 64);
                let least: Value = self.const_int(64, i64::MIN);
                let is_least: Value = self.int_test(Test::Eq, wide, least);
                self.crash_if(is_least, "int overflow: negating i64::MIN doesn't fit in int");
                let n: Value = self.give1(Op::IntNeg, wide, Repr::Int(64));
                self.coerce_int_width(n, w)
            },
            _ => {
                v
            },
        }
    }

    /// `xx` on 64-bit integers, by repeated multiplication. The program stops on a negative exponent.
    pub fn compile_int_pow(&mut self, base: Value, exponent: Value) -> (res: Value)
        ensures
            (final(self)@, res) == compile_int_pow(old(self)@, base, exponent),
    {
        proof {
            reveal(compile_int_pow);
        }
        let zero: Value = self.const_int(64, 0);
        let negative: Value = self.int_test(Test::Lt, exponent, zero);
        self.crash_if(negative, "int power requires a non-negative exponent");
        let result: Value = self.slot(Repr::Int(64), "int_pow_result");
        let one: Value = self.const_int(64, 1);
        self.store(result, one);
        let l: Looping = self.loop_begin(0, Test::Lt, exponent);
        let current: Value = self.load(Repr::Int(64), result);
        let next: Value = self.checked_int_arith(BinOp::Mul, current, base);
        self.store(result, next);
        self.loop_end(l);
        self.load(Repr::Int(64), result)
    }

    /// `xxx` on 64-bit integers: a tower of `height` copies of `base`.
    pub fn compile_int_tetration(&mut self, base: Value, height: Value) -> (res: Value)
        ensures
            (final(self)@, res) == compile_int_tetration(old(self)@, base, height),
    {
        proof {
            reveal(compile_int_tetration);
        }
        let result: Value = self.slot(Repr::Int(64), "int_tet_result");
        self.store(result, base);
        let l: Looping = self.loop_begin(2, Test::Le, height);
        let current: Value = self.load(Repr::Int(64), result);
        let next: Value = self.compile_int_pow(base, current);
        self.store(result, next);
        self.loop_end(l);
        self.load(Repr::Int(64), result)
    }

    /// `!` on an integer. The result has the default width.
    pub fn compile_int_factorial(&mut self, v: Value) -> (res: Value)
        ensures
            (final(self)@, res) == compile_int_factorial(old(self)@, v),
    {
        proof {
            reveal(compile_int_factorial);
        }
        let n: Value = self.coerce_int_width(v, 64);
        let result: Value = self.slot(Repr::Int(64), "int_fact_result");
        let one: Value = self.const_int(64, 1);
        self.store(result, one);
        let l: Looping = self.loop_begin(2, Test::Le, n);
        let current: Value = self.load(Repr::Int(64), result);
        let next: Value = self.checked_int_arith(BinOp::Mul, current, l.counter);
        self.store(result, next);
        self.loop_end(l);
        self.load(Repr::Int(64), result)
    }

    /// An operator on two 64-bit integers.
    pub fn compile_binary_int_op(&mut self, op: BinOp, l: Value, r: Value) -> (res: Result<Value, String>)
        ensures
            match res {
                Ok(x) => compile_binary_int_op(old(self)@, op, l, r) == Ok::<(Out, Value), Seq<char>>((final(self)@, x)),
                Err(m) => compile_binary_int_op(old(self)@, op, l, r) == Err::<(Out, Value), Seq<char>>(m@),
            },
    {
        proof {
            reveal(compile_binary_int_op);
        }
        match op {
            BinOp::Add | BinOp::Sub | BinOp::Mul => {
                let v: Value = self.checked_int_arith(op, l, r);
                Ok(v)
            },
            BinOp::Div => {
                let v: Value = self.compile_int_div(l, r);
                Ok(v)
            },
            BinOp::Pow => {
                let v: Value = self.compile_int_pow(l, r);
                Ok(v)
            },
            BinOp::Tetration => {
                let v: Value = self.compile_int_tetration(l, r);
                Ok(v)
            },
            BinOp::Eq | BinOp::Ne | BinOp::Lt | BinOp::Gt | BinOp::Le | BinOp::Ge => {
                let v: Value = self.int_test(test_of(op), l, r);
                Ok(v)
            },
            BinOp::And | BinOp::Or | BinOp::Concat => {
                Err(text1("this operator requires bool operands, not int"))
            },
        }
    }

    /// An operator on two integers. It is computed in 64 bits; a number that comes out is brought to
    /// the larger of the two widths at once.
    pub fn compile_int_binary(&mut self, op: BinOp, l: Value, r: Value) -> (res: Result<Value, String>)
        ensures
            match res {
                Ok(x) => compile_int_binary(old(self)@, op, l, r) == Ok::<(Out, Value), Seq<char>>((final(self)@, x)),
                Err(m) => compile_int_binary(old(self)@, op, l, r) == Err::<(Out, Value), Seq<char>>(m@),
            },
    {
        proof {
            reveal(compile_int_binary);
        }
        match (l.repr, r.repr) {
            (Repr::Int(a), Repr::Int(b)) => {
                let x: Value = self.coerce_int_width(l, 64);
                let y: Value = self.coerce_int_width(r, 64);
                let v: Value = self.compile_binary_int_op(op, x, y)?;
                if v.repr == Repr::Int(1) {
                    Ok(v)
                } else {
                    let n: Value = self.coerce_int_width(v, max_width(a, b));
                    Ok(n)
                }
            },
            _ => {
                Err(text1("int operator used with a value that is no int"))
            },
        }
    }

    /// `xxx` on floats: a tower of `height` copies of `base`.
    pub fn compile_tetration(&mut self, base: Value, height: Value) -> (res: Value)
        ensures
            (final(self)@, res) == compile_tetration(old(self)@, base, height),
    {
        proof {
            reveal(compile_tetration);
        }
        let n: Value = self.give1(Op::FloatToInt, height, Repr::Int(64));
        let result: Value = self.slot(Repr::Float(64), "tet_result");
        self.store(result, base);
        let l: Looping = self.loop_begin(2, Test::Le, n);
        let current: Value = self.load(Repr::Float(64), result);
        let next: Value = self.call2(Rt::Pow, base, current);
        self.store(result, next);
        self.loop_end(l);
        self.load(Repr::Float(64), result)
    }

    /// `!` on a float.
    pub fn compile_factorial(&mut self, v: Value) -> (res: Value)
        ensures
            (final(self)@, res) == compile_factorial(old(self)@, v),
    {
        proof {
            reveal(compile_factorial);
        }
        let n: Value = self.give1(Op::FloatToInt, v, Repr::Int(64));
        let result: Value = self.slot(Repr::Float(64), "fact_result");
        let one: Value = self.const_float("1");
        self.store(result, one);
        let l: Looping = self.loop_begin(2, Test::Le, n);
        let current: Value = self.load(Repr::Float(64), result);
        let factor: Value = self.give1(Op::IntToFloat, l.counter, Repr::Float(64));
        let next: Value = self.give2(Op::FloatMul, current, factor, Repr::Float(64));
        self.store(result, next);
        self.loop_end(l);
        self.load(Repr::Float(64), result)
    }

    /// An operator on two floats of the same width.
    pub fn compile_float_op(&mut self, op: BinOp, l: Value, r: Value) -> (res: Result<Value, String>)
        ensures
            match res {
                Ok(x) => compile_float_op(old(self)@, op, l, r) == Ok::<(Out, Value), Seq<char>>((final(self)@, x)),
                Err(m) => compile_float_op(old(self)@, op, l, r) == Err::<(Out, Value), Seq<char>>(m@),
            },
    {
        proof {
            reveal(compile_float_op);
        }
        match op {
            BinOp::Add => {
                let v: Value = self.give2(Op::FloatAdd, l, r, l.repr);
                Ok(v)
            },
            BinOp::Sub => {
                let v: Value = self.give2(Op::FloatSub, l, r, l.repr);
                Ok(v)
            },
            BinOp::Mul => {
                let v: Value = self.give2(Op::FloatMul, l, r, l.repr);
                Ok(v)
            },
            BinOp::Div => {
                let v: Value = self.give2(Op::FloatDiv, l, r, l.repr);
                Ok(v)
            },
            BinOp::Pow => {
                let a: Value = self.coerce_float(l, 64);
                let b: Value = self.coerce_float(r, 64);
                let v: Value = self.call2(Rt::Pow, a, b);
                Ok(v)
            },
            BinOp::Tetration => {
                let a: Value = self.coerce_float(l, 64);
                let b: Value = self.coerce_float(r, 64);
                let v: Value = self.compile_tetration(a, b);
                Ok(v)
            },
            BinOp::Eq | BinOp::Ne | BinOp::Lt | BinOp::Gt | BinOp::Le | BinOp::Ge => {
                let v: Value = self.give2(Op::FloatTest(test_of(op)), l, r, Repr::Int(1));
                Ok(v)
            },
            BinOp::And | BinOp::Or | BinOp::Concat => {
                Err(text1("this operator requires bool operands, not num"))
            },
        }
    }

    /// An operator on two floats. The narrower one is made as wide as the other first.
    pub fn compile_float_binary(&mut self, op: BinOp, l: Value, r: Value) -> (res: Result<Value, String>)
        ensures
            match res {
                Ok(x) => compile_float_binary(old(self)@, op, l, r) == Ok::<(Out, Value), Seq<char>>((final(self)@, x)),
                Err(m) => compile_float_binary(old(self)@, op, l, r) == Err::<(Out, Value), Seq<char>>(m@),
            },
    {
        proof {
            reveal(compile_float_binary);
        }
        match (l.repr, r.repr) {
            (Repr::Float(a), Repr::Float(b)) => {
                let x: Value = self.coerce_float(l, max_width(a, b));
                let y: Value = self.coerce_float(r, max_width(a, b));
                self.compile_float_op(op, x, y)
            },
            _ => {
                Err(text1("num operator used with a value that is no num"))
            },
        }
    }

    /// An operator on two truth values.
    pub fn compile_bool_binary(&mut self, op: BinOp, l: Value, r: Value) -> (res: Result<Value, String>)
        ensures
            match res {
                Ok(x) => compile_bool_binary(old(self)@, op, l, r) == Ok::<(Out, Value), Seq<char>>((final(self)@, x)),
                Err(m) => compile_bool_binary(old(self)@, op, l, r) == Err::<(Out, Value), Seq<char>>(m@),
            },
    {
        proof {
            reveal(compile_bool_binary);
        }
        match op {
            BinOp::Eq | BinOp::Ne => {
                let v: Value = self.int_test(test_of(op), l, r);
                Ok(v)
            },
            BinOp::And => {
                let v: Value = self.give2(Op::And, l, r, Repr::Int(1));
                Ok(v)
            },
            BinOp::Or => {
                let v: Value = self.give2(Op::Or, l, r, Repr::Int(1));
                Ok(v)
            },
            _ => {
                Err(text1("this operator is not supported on bool operands"))
            },
        }
    }

    /// A comparison of two bignums or of two bigints, by the runtime function that orders them.
    pub fn compile_order(&mut self, op: BinOp, order: Rt, l: Value, r: Value) -> (res: Value)
        ensures
            (final(self)@, res) == compile_order(old(self)@, op, order, l, r),
    {
        proof {
            reveal(compile_order);
        }
        let a: Value = self.unwrap(l);
        let b: Value = self.unwrap(r);
        let c: Value = self.call2(order, a, b);
        let zero: Value = self.const_int(32, 0);
        self.int_test(test_of(op), c, zero)
    }

    /// `xxx` on bignums, given and returned as pointers: a tower in a single handle.
    pub fn compile_bignum_tetration(&mut self, base: Value, height: Value, precision: u32) -> (res: Value)
        ensures
            (final(self)@, res) == compile_bignum_tetration(old(self)@, base, height, precision),
    {
        proof {
            reveal(compile_bignum_tetration);
        }
        let n: Value = self.call1(Rt::BignumGetI64, height);
        let acc: Value = self.bignum_new(precision);
        self.run2(Rt::BignumCopy, acc, base);
        let l: Looping = self.loop_begin(2, Test::Le, n);
        self.run3(Rt::BignumPow, acc, base, acc);
        self.loop_end(l);
        acc
    }

    /// `!` on a bignum, given and returned as a pointer. The result has the default precision; each
    /// step frees the handles that it leaves behind.
    pub fn compile_bignum_factorial(&mut self, v: Value) -> (res: Value)
        ensures
            (final(self)@, res) == compile_bignum_factorial(old(self)@, v),
    {
        proof {
            reveal(compile_bignum_factorial);
        }
        let n: Value = self.call1(Rt::BignumGetI64, v);
        let first: Value = self.bignum_new(DEFAULT_BIGNUM_PRECISION);
        let one: Value = self.const_float("1");
        self.run2(Rt::BignumSetD, first, one);
        let result: Value = self.slot(Repr::Ptr, "fact_bignum_result");
        self.store(result, first);
        let l: Looping = self.loop_begin(2, Test::Le, n);
        let current: Value = self.load(Repr::Ptr, result);
        let f: Value = self.give1(Op::IntToFloat, l.counter, Repr::Float(64));
        let factor: Value = self.bignum_new(DEFAULT_BIGNUM_PRECISION);
        self.run2(Rt::BignumSetD, factor, f);
        let next: Value = self.bignum_new(DEFAULT_BIGNUM_PRECISION);
        self.run3(Rt::BignumMul, next, current, factor);
        self.run1(Rt::BignumFree, current);
        self.run1(Rt::BignumFree, factor);
        self.store(result, next);
        self.loop_end(l);
        self.load(Repr::Ptr, result)
    }

    /// What a format string is given to show a value.
    pub fn value_fmt(&mut self, v: Value) -> (res: Result<Value, String>)
        ensures
            match res {
                Ok(x) => value_fmt(old(self)@, v) == Ok::<(Out, Value), Seq<char>>((final(self)@, x)),
                Err(m) => value_fmt(old(self)@, v) == Err::<(Out, Value), Seq<char>>(m@),
            },
    {
        proof {
            reveal(value_fmt);
        }
        match v.repr {
            Repr::Float(_) => {
                let f: Value = self.coerce_float(v, 64);
                Ok(f)
            },
            Repr::Ptr => {
                Ok(v)
            },
            Repr::Int(1) => {
                let yes: Value = self.const_str("true");
                let no: Value = self.const_str("false");
                let t: Value = self.give3(Op::Select, v, yes, no, Repr::Ptr);
                Ok(t)
            },
            Repr::Int(_) => {
                let n: Value = self.coerce_int_width(v, 64);
                Ok(n)
            },
            Repr::BigInt => {
                let p: Value = self.unwrap(v);
                let t: Value = self.call1(Rt::BigintToString, p);
                Ok(t)
            },
            Repr::Handle => {
                let p: Value = self.unwrap(v);
                let t: Value = self.call1(Rt::BignumToString, p);
                Ok(t)
            },
            _ => {
                Err(text1("unsupported value for text formatting"))
            },
        }
    }

    /// Frees the text that was made to show a value of the given representation, if one was made.
    pub fn free_shown(&mut self, repr: Repr, text: Value)
        ensures
            final(self)@ == free_shown(old(self)@, repr, text),
    {
        proof {
            reveal(free_shown);
        }
        match repr {
            Repr::Handle | Repr::BigInt => {
                self.run1(Rt::Free, text);
            },
            _ => {
            },
        }
    }

    /// A new text made of a format string and two operands. Its size is measured before it is filled.
    pub fn format_pair(&mut self, format: &str, a: Value, b: Value) -> (res: Value)
        ensures
            (final(self)@, res) == format_pair(old(self)@, format@, a, b),
    {
        proof {
            reveal(format_pair);
        }
        let f: Value = self.const_str(format);
        let nowhere: Value = self.null();
        let nothing: Value = self.const_int(64, 0);
        let n: Value = self.call_list(Rt::Snprintf, vec![nowhere, nothing, f, a, b]);
        let wide: Value = self.give1(Op::ZeroExtend(64), n, Repr::Int(64));
        let one: Value = self.const_int(64, 1);
        let size: Value = self.give2(Op::IntAdd, wide, one, Repr::Int(64));
        let buffer: Value = self.call1(Rt::Malloc, size);
        let filled: Value = self.call_list(Rt::Snprintf, vec![buffer, size, f, a, b]);
        buffer
    }

    /// `stch`: a new text made of what shows two values.
    pub fn compile_concat(&mut self, l: Value, r: Value) -> (res: Result<Value, String>)
        ensures
            match res {
                Ok(x) => compile_concat(old(self)@, l, r) == Ok::<(Out, Value), Seq<char>>((final(self)@, x)),
                Err(m) => compile_concat(old(self)@, l, r) == Err::<(Out, Value), Seq<char>>(m@),
            },
    {
        proof {
            reveal(compile_concat);
        }
        let a: Value = self.value_fmt(l)?;
        let b: Value = self.value_fmt(r)?;
        let format: String = pair_format_text(l.repr, r.repr);
        let buffer: Value = self.format_pair(&format, a, b);
        self.free_shown(l.repr, a);
        self.free_shown(r.repr, b);
        Ok(buffer)
    }

    /// Returns what a function gives when it ends without a `return`.
    pub fn default_return(&mut self, ty: Type)
        ensures
            final(self)@ == default_return(old(self)@, ty),
    {
        proof {
            reveal(default_return);
        }
        match ty {
            Type::Void => {
                self.do0(Op::RetVoid);
            },
            Type::Num(w) | Type::NumW(w) => {
                let zero: Value = self.const_float("0");
                let v: Value = self.coerce_float(zero, w);
                self.do1(Op::Ret, v);
            },
            Type::Bool => {
                let v: Value = self.const_int(1, 0);
                self.do1(Op::Ret, v);
            },
            Type::Int(w) => {
                let v: Value = self.const_int(w, 0);
                self.do1(Op::Ret, v);
            },
            Type::Str | Type::File => {
                let v: Value = self.null();
                self.do1(Op::Ret, v);
            },
            Type::BigNum(_) | Type::Array(_) => {
                let p: Value = self.null();
                let v: Value = self.wrap(Repr::Handle, p);
                self.do1(Op::Ret, v);
            },
            Type::BigInt => {
                let p: Value = self.null();
                let v: Value = self.wrap(Repr::BigInt, p);
                self.do1(Op::Ret, v);
            },
        }
    }
}

/// The operands of an instruction.
fn ids_of(vs: &Vec<Value>) -> (r: Vec<usize>)
    ensures
        r@ == ids(vs@),
{
    let mut r: Vec<usize> = Vec::new();
    let mut i: usize = 0;
    while i < vs.len()
        invariant
            i <= vs@.len(),
            r@ == ids(vs@).take(i as int),
        decreases vs@.len() - i,
    {
        r.push(vs[i].id);
        i = i + 1;
        assert(r@ =~= ids(vs@).take(i as int));
    }
    assert(r@ =~= ids(vs@));
    r
}

} // verus!
