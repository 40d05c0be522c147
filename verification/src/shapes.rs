//! How the values that the emitter gives are represented.

use vstd::prelude::*;
use crate::ast::{BinOp, Type};
use crate::emit::{
    call1, call2, checked_int_arith, checked_result, coerce_float, coerce_int_width, coerce_to_array,
    coerce_to_bigint, coerce_to_bignum, coerce_to_type, compile_binary_int_op, compile_bool_binary, compile_concat,
    compile_factorial, compile_float_binary, compile_float_op, compile_int_binary, compile_int_div,
    compile_int_factorial, compile_int_neg, compile_int_pow, compile_int_tetration, compile_order,
    compile_tetration, const_float, const_int, const_str, copy_element, format_pair, give0, give1, give2, int_test,
    load, value_fmt, wrap, Out,
};
use crate::ir::{repr_of, Repr, Value};
use crate::typing::{can_coerce, is_arithmetic, is_comparison, wider};
use crate::wellformed::{int_width, wf_type};

verus! {

/// Whether a value of type `ty` can be represented so. A float may have another width than its
/// type says, and so may an integer: they are brought to it when they are stored.
pub open spec fn represents(repr: Repr, ty: Type) -> bool {
    match ty {
        Type::Num(_) | Type::NumW(_) => repr is Float,
        Type::Bool => repr == Repr::Int(1),
        Type::Int(_) => repr matches Repr::Int(w) && int_width(w),
        Type::Str | Type::File => repr == Repr::Ptr,
        Type::BigNum(_) | Type::Array(_) => repr == Repr::Handle,
        Type::BigInt => repr == Repr::BigInt,
        Type::Void => false,
    }
}

/// Values as they are stored have the representation of their type.
pub proof fn lemma_repr_of(ty: Type)
    requires
        wf_type(ty),
    ensures
        represents(repr_of(ty), ty),
{
}

pub proof fn lemma_constants(o: Out, text: Seq<char>, w: u32, v: i64)
    ensures
        const_float(o, text).1.repr == Repr::Float(64),
        const_int(o, w, v).1.repr == Repr::Int(w),
        const_str(o, text).1.repr == Repr::Ptr,
{
    reveal(const_float);
    reveal(const_int);
    reveal(const_str);
    reveal(give0);
}

pub proof fn lemma_load(o: Out, repr: Repr, p: Value)
    ensures
        load(o, repr, p).1.repr == repr,
{
    reveal(load);
    reveal(give1);
}

pub proof fn lemma_wrap(o: Out, repr: Repr, p: Value)
    ensures
        wrap(o, repr, p).1.repr == repr,
{
    reveal(wrap);
    reveal(give1);
}

pub proof fn lemma_int_test(o: Out, t: crate::ir::Test, l: Value, r: Value)
    ensures
        int_test(o, t, l, r).1.repr == Repr::Int(1),
{
    reveal(int_test);
    reveal(give2);
}

pub proof fn lemma_coerce_float(o: Out, v: Value, w: u32)
    requires
        v.repr is Float,
    ensures
        coerce_float(o, v, w).1.repr == Repr::Float(w),
{
    reveal(coerce_float);
    reveal(give1);
}

pub proof fn lemma_coerce_int(o: Out, v: Value, w: u32)
    requires
        v.repr is Int,
    ensures
        coerce_int_width(o, v, w).1.repr == Repr::Int(w),
{
    reveal(coerce_int_width);
    reveal(give1);
}

pub proof fn lemma_to_bignum(o: Out, v: Value, p: u32)
    requires
        v.repr is Float || v.repr == Repr::Ptr || v.repr == Repr::Handle,
    ensures
        coerce_to_bignum(o, v, p) matches Ok(r) && r.1.repr == Repr::Handle,
{
    reveal(coerce_to_bignum);
    reveal(wrap);
    reveal(give1);
}

pub proof fn lemma_to_bigint(o: Out, v: Value)
    requires
        v.repr == Repr::Ptr || v.repr == Repr::BigInt,
    ensures
        coerce_to_bigint(o, v) matches Ok(r) && r.1.repr == Repr::BigInt,
{
    reveal(coerce_to_bigint);
    reveal(wrap);
    reveal(give1);
}

proof fn lemma_copy_element(o: Out, v: Value, ty: Type)
    requires
        v.repr == repr_of(ty),
    ensures
        copy_element(o, v, ty) is Ok,
{
    reveal(copy_element);
    match ty {
        Type::BigNum(p) => lemma_to_bignum(o, v, p),
        Type::BigInt => lemma_to_bigint(o, v),
        _ => {},
    }
}

pub proof fn lemma_to_array(o: Out, v: Value, ty: Type)
    requires
        v.repr == Repr::Handle,
    ensures
        coerce_to_array(o, v, ty) matches Ok(r) && r.1.repr == Repr::Handle,
{
    reveal(coerce_to_array);
    assert forall|o: Out, p: Value| (#[trigger] load(o, repr_of(ty), p)).1.repr == repr_of(ty) by {
        lemma_load(o, repr_of(ty), p);
    }
    assert forall|o: Out, v: Value| v.repr == repr_of(ty) implies #[trigger] copy_element(o, v, ty) is Ok by {
        lemma_copy_element(o, v, ty);
    }
    assert forall|o: Out, p: Value| (#[trigger] wrap(o, Repr::Handle, p)).1.repr == Repr::Handle by {
        lemma_wrap(o, Repr::Handle, p);
    }
}

/// A value of a type that can be converted is converted, and has the representation of the type
/// that it is converted to.
pub proof fn lemma_to_type(o: Out, v: Value, from: Type, to: Type)
    requires
        represents(v.repr, from),
        can_coerce(from, to),
    ensures
        coerce_to_type(o, v, to) matches Ok(r) && r.1.repr == repr_of(to),
{
    reveal(coerce_to_type);
    reveal(call1);
    match to {
        Type::Num(w) => lemma_coerce_float(o, v, w),
        Type::NumW(w) => lemma_coerce_float(o, v, w),
        Type::Int(w) => lemma_coerce_int(o, v, w),
        Type::BigNum(p) => lemma_to_bignum(o, v, p),
        Type::BigInt => lemma_to_bigint(o, v),
        Type::Array(e) => lemma_to_array(o, v, crate::ast::element_as_type(e)),
        _ => {},
    }
}

proof fn lemma_int_arith(o: Out, op: BinOp, l: Value, r: Value)
    ensures
        checked_int_arith(o, op, l, r).1.repr == Repr::Int(64),
        compile_int_div(o, l, r).1.repr == Repr::Int(64),
        compile_int_pow(o, l, r).1.repr == Repr::Int(64),
        compile_int_tetration(o, l, r).1.repr == Repr::Int(64),
{
    reveal(checked_int_arith);
    reveal(checked_result);
    reveal(compile_int_div);
    reveal(compile_int_pow);
    reveal(compile_int_tetration);
    reveal(load);
    reveal(give1);
    reveal(give2);
}

proof fn lemma_int_op(o: Out, op: BinOp, l: Value, r: Value)
    requires
        is_arithmetic(op) || is_comparison(op),
    ensures
        compile_binary_int_op(o, op, l, r) matches Ok(x) && x.1.repr == if is_comparison(op) {
            Repr::Int(1)
        } else {
            Repr::Int(64)
        },
{
    reveal(compile_binary_int_op);
    lemma_int_arith(o, op, l, r);
    lemma_int_test(o, crate::emit::spec_test_of(op), l, r);
}

/// Arithmetic on two integers is done at the wider width; a comparison gives a truth value.
pub proof fn lemma_int_binary(o: Out, op: BinOp, l: Value, r: Value, a: u32, b: u32)
    requires
        l.repr == Repr::Int(a),
        r.repr == Repr::Int(b),
        is_arithmetic(op) || is_comparison(op),
    ensures
        compile_int_binary(o, op, l, r) matches Ok(x) && x.1.repr == if is_comparison(op) {
            Repr::Int(1)
        } else {
            Repr::Int(wider(a, b))
        },
{
    reveal(compile_int_binary);
    let (o1, x) = coerce_int_width(o, l, 64);
    let (o2, y) = coerce_int_width(o1, r, 64);
    lemma_int_op(o2, op, x, y);
    let (o3, v) = compile_binary_int_op(o2, op, x, y)->Ok_0;
    if !is_comparison(op) {
        lemma_coerce_int(o3, v, wider(a, b));
    }
}

pub proof fn lemma_float_binary(o: Out, op: BinOp, l: Value, r: Value)
    requires
        l.repr is Float,
        r.repr is Float,
        is_arithmetic(op) || is_comparison(op),
    ensures
        compile_float_binary(o, op, l, r) matches Ok(x) && if is_comparison(op) {
            x.1.repr == Repr::Int(1)
        } else {
            x.1.repr is Float
        },
{
    reveal(compile_float_binary);
    let w = wider(l.repr->Float_0, r.repr->Float_0);
    let (o1, x) = coerce_float(o, l, w);
    let (o2, y) = coerce_float(o1, r, w);
    lemma_coerce_float(o, l, w);
    lemma_coerce_float(o1, r, w);
    reveal(compile_float_op);
    reveal(give2);
    reveal(call2);
    reveal(compile_tetration);
    reveal(load);
    reveal(give1);
}

pub proof fn lemma_bool_binary(o: Out, op: BinOp, l: Value, r: Value)
    requires
        op is Eq || op is Ne || op is And || op is Or,
    ensures
        compile_bool_binary(o, op, l, r) matches Ok(x) && x.1.repr == Repr::Int(1),
{
    reveal(compile_bool_binary);
    reveal(int_test);
    reveal(give2);
}

pub proof fn lemma_order(o: Out, op: BinOp, f: crate::ir::Rt, l: Value, r: Value)
    ensures
        compile_order(o, op, f, l, r).1.repr == Repr::Int(1),
{
    reveal(compile_order);
    reveal(int_test);
    reveal(give2);
}

pub proof fn lemma_int_unary(o: Out, v: Value, w: u32)
    requires
        v.repr == Repr::Int(w),
    ensures
        compile_int_neg(o, v).1.repr == Repr::Int(w),
        compile_int_factorial(o, v).1.repr == Repr::Int(64),
{
    reveal(compile_int_neg);
    reveal(compile_int_factorial);
    assert forall|o: Out, x: Value| x.repr is Int implies (#[trigger] coerce_int_width(o, x, w)).1.repr == Repr::Int(
        w,
    ) by {
        lemma_coerce_int(o, x, w);
    }
    reveal(load);
    reveal(give1);
}

pub proof fn lemma_factorial(o: Out, v: Value)
    ensures
        compile_factorial(o, v).1.repr == Repr::Float(64),
{
    reveal(compile_factorial);
    reveal(load);
    reveal(give1);
}

/// Everything but `Void` and a checked result can be shown.
pub open spec fn can_show(repr: Repr) -> bool {
    !(repr is Void) && !(repr is Checked)
}

pub proof fn lemma_value_fmt(o: Out, v: Value)
    requires
        can_show(v.repr),
    ensures
        value_fmt(o, v) is Ok,
{
    reveal(value_fmt);
}

pub proof fn lemma_concat(o: Out, l: Value, r: Value)
    requires
        can_show(l.repr),
        can_show(r.repr),
    ensures
        compile_concat(o, l, r) matches Ok(x) && x.1.repr == Repr::Ptr,
{
    reveal(compile_concat);
    lemma_value_fmt(o, l);
    let (o1, _) = value_fmt(o, l)->Ok_0;
    lemma_value_fmt(o1, r);
    reveal(format_pair);
    reveal(call1);
}

} // verus!
