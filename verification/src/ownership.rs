//! Who owns what: expressions.
//!
//! Temporaries are different values, variables have different places, and a value that is stored,
//! passed or returned is none of the temporaries. So nothing is freed twice.

use vstd::prelude::*;
use crate::ast::{element_as_type, BinOp, ElementType, ExprV, Type, UnOp};
use crate::emit::{
    call0, call1, call2, call_function, call_list, coerce_float, coerce_to_array, coerce_to_bigint,
    coerce_to_bignum, coerce_to_type, compile_bignum_factorial, compile_bignum_tetration, compile_concat,
    const_float, const_int, const_str, copy_element, emit, format_pair, give1, give2, load, loop_begin, loop_end,
    null, owned, run2, run3, size_of, slot, store, unwrap, value_fmt, wrap, Out,
};
use crate::ir::{basic_type, repr_of, Op, Repr, Rt, Test, Value};
use crate::lower::{
    adopt, append, big_arith, big_binary, big_function, big_neg, big_new, bigint_fact, bigint_literal, bignum_fact,
    bignum_precision, combine, combine_one, element_place, find_temp, hoisted, int_literal, is_temp, keep,
    keep_big, literal_with, lower_args, lower_bigint, lower_call, lower_elements, lower_expr, lower_for, lower_int,
    lower_pair, precision_of, sig_place, spreads_over, variable, with_out, without_temp, BindingV, Scope, Step,
    Temp, Work,
};
use crate::numeral::shown;
use crate::scoping::lemma_find_binding;
use crate::typing::is_comparison;
use crate::wellbuilt::{
    good, lemma_valid_five, valid, valid_all, well_bignum_new, well_call0, well_call1, well_call2,
    well_call_function, well_call_list, well_coerce_float, well_coerce_int_width, well_coerce_to_bigint,
    well_coerce_to_bignum, well_coerce_to_type, well_compile_bignum_factorial, well_compile_bignum_tetration,
    well_compile_bool_binary, well_compile_concat, well_compile_factorial, well_compile_float_binary,
    well_compile_int_binary, well_compile_int_factorial, well_compile_int_neg, well_compile_order,
    well_const_float, well_const_int, well_const_str, well_copy_element, well_format_pair, well_give1, well_give2,
    well_load, well_loop_begin, well_loop_end, well_null, well_run2, well_run3, well_size_of, well_slot,
    well_store, well_unwrap, well_value_fmt, well_wrap,
};

verus! {

/// The temporaries are values of earlier instructions, all of them different.
pub open spec fn temps_apart(temps: Seq<Temp>, o: Out) -> bool {
    o.code.len() <= usize::MAX ==> {
        &&& forall|i: int| 0 <= i < temps.len() ==> (#[trigger] temps[i]).value.id < o.code.len()
        &&& forall|i: int, j: int|
            0 <= i < j < temps.len() ==> (#[trigger] temps[i]).value.id != (#[trigger] temps[j]).value.id
    }
}

/// The places of the variables were made by earlier instructions, each by its own.
pub open spec fn places_apart(bs: Seq<BindingV>, o: Out) -> bool {
    o.code.len() <= usize::MAX ==> {
        &&& forall|i: int| 0 <= i < bs.len() ==> (#[trigger] bs[i]).place.id < o.code.len()
        &&& forall|i: int, j: int| 0 <= i < j < bs.len() ==> (#[trigger] bs[i]).place.id != (#[trigger] bs[j]).place.id
    }
}

/// The value is none of the temporaries.
pub open spec fn unowned(v: Value, w: Work) -> bool {
    w.out.code.len() <= usize::MAX ==> forall|i: int| 0 <= i < w.temps.len() ==> (#[trigger] w.temps[i]).value.id != v.id
}

/// A state of work in which everything is in order.
pub open spec fn sound(sc: Scope, w: Work) -> bool {
    &&& good(w.out)
    &&& !w.out.ended
    &&& temps_apart(w.temps, w.out)
    &&& places_apart(sc.bindings, w.out)
}

/// The work `t` came after the work `w`, and everything is in order.
pub open spec fn follows(sc: Scope, w: Work, t: Work) -> bool {
    sound(sc, t) && w.out.code.len() <= t.out.code.len()
}

/// A value that was made since `o`.
pub open spec fn fresh(v: Value, o: Out, t: Out) -> bool {
    t.code.len() <= usize::MAX ==> v.id >= o.code.len()
}

proof fn lemma_wrap_fresh(o: Out, repr: Repr, p: Value)
    ensures
        wrap(o, repr, p).1.id == o.code.len() as usize,
{
    reveal(wrap);
    reveal(give1);
}

proof fn lemma_call_fresh(o: Out, f: Rt, a: Value)
    ensures
        call1(o, f, a).1.id == o.code.len() as usize,
{
    reveal(call1);
}

proof fn lemma_keep(sc: Scope, w: Work, o: Out, v: Value, ty: Type)
    requires
        sound(sc, w),
        good(o),
        !o.ended,
        w.out.code.len() <= o.code.len(),
        valid(v, o),
        fresh(v, w.out, o),
    ensures
        follows(sc, w, keep(w, o, v, ty)),
{
    let t = keep(w, o, v, ty);
    if o.code.len() <= usize::MAX {
        assert forall|i: int, j: int| 0 <= i < j < t.temps.len() implies (#[trigger] t.temps[i]).value.id
            != (#[trigger] t.temps[j]).value.id by {
            if j == w.temps.len() {
                assert(t.temps[i] == w.temps[i]);
            }
        }
    }
}

proof fn lemma_keep_big(sc: Scope, w: Work, o: Out, h: Value, ty: Type)
    requires
        sound(sc, w),
        good(o),
        !o.ended,
        w.out.code.len() <= o.code.len(),
        valid(h, o),
    ensures
        ({
            let (t, v) = keep_big(w, o, h, ty);
            follows(sc, w, t) && valid(v, t.out)
        }),
{
    well_wrap(o, repr_of(ty), h);
    lemma_wrap_fresh(o, repr_of(ty), h);
    let (o2, v) = wrap(o, repr_of(ty), h);
    lemma_keep(sc, w, o2, v, ty);
}

proof fn lemma_find_temp(temps: Seq<Temp>, v: Value, ty: Type, n: int)
    ensures
        find_temp(temps, v, ty, n) matches Some(k) ==> 0 <= k < n && k < temps.len() && temps[k].value.id == v.id,
    decreases n,
{
    if 0 < n <= temps.len() && !(temps[n - 1].value.id == v.id && temps[n - 1].ty == ty) {
        lemma_find_temp(temps, v, ty, n - 1);
    }
}

proof fn lemma_without(sc: Scope, w: Work, v: Value, ty: Type)
    requires
        sound(sc, w),
    ensures
        ({
            let t = Work { out: w.out, temps: without_temp(w.temps, v, ty) };
            sound(sc, t) && (is_temp(w.temps, v, ty) ==> unowned(v, t))
        }),
{
    lemma_find_temp(w.temps, v, ty, w.temps.len() as int);
    if let Some(k) = find_temp(w.temps, v, ty, w.temps.len() as int) {
        let temps = w.temps.remove(k);
        assert forall|i: int| 0 <= i < temps.len() implies #[trigger] temps[i] == w.temps[if i < k {
            i
        } else {
            i + 1
        }] by {}
    }
}

proof fn lemma_big_new(o: Out, ty: Type)
    requires
        good(o),
        !o.ended,
    ensures
        ({
            let (t, h) = big_new(o, ty);
            good(t) && !t.ended && o.code.len() <= t.code.len() && valid(h, t)
        }),
{
    match ty {
        Type::BigNum(p) => well_bignum_new(o, p),
        _ => well_call0(o, Rt::BigintNew),
    }
}

proof fn lemma_big_arith(sc: Scope, w: Work, ty: Type, f: Rt, op: BinOp, l: Value, r: Value)
    requires
        sound(sc, w),
        valid(l, w.out),
        valid(r, w.out),
    ensures
        ({
            let (t, v) = big_arith(w, ty, f, op, l, r);
            follows(sc, w, t) && valid(v, t.out)
        }),
{
    well_unwrap(w.out, l);
    let (o, a) = unwrap(w.out, l);
    well_unwrap(o, r);
    let (o, b) = unwrap(o, r);
    if crate::lower::fuses_left(op) && is_temp(w.temps, l, ty) {
        well_run3(o, f, a, a, b);
        lemma_without(sc, w, l, ty);
        lemma_keep_big(sc, Work { out: w.out, temps: without_temp(w.temps, l, ty) }, run3(o, f, a, a, b), a, ty);
    } else if op is Pow && is_temp(w.temps, r, ty) {
        well_run3(o, f, b, a, b);
        lemma_without(sc, w, r, ty);
        lemma_keep_big(sc, Work { out: w.out, temps: without_temp(w.temps, r, ty) }, run3(o, f, b, a, b), b, ty);
    } else {
        lemma_big_new(o, ty);
        let (o, h) = big_new(o, ty);
        well_run3(o, f, h, a, b);
        lemma_keep_big(sc, w, run3(o, f, h, a, b), h, ty);
    }
}

proof fn lemma_big_binary(sc: Scope, w: Work, ty: Type, op: BinOp, l: Value, r: Value)
    requires
        sound(sc, w),
        valid(l, w.out),
        valid(r, w.out),
    ensures
        big_binary(w, ty, op, l, r) matches Ok(x) ==> follows(sc, w, x.0) && valid(x.1, x.0.out),
{
    if is_comparison(op) {
        well_compile_order(w.out, op, crate::lower::big_order(ty), l, r);
    } else {
        match (ty, op) {
            (Type::BigNum(p), BinOp::Tetration) => {
                well_unwrap(w.out, l);
                let (o, a) = unwrap(w.out, l);
                well_unwrap(o, r);
                let (o, b) = unwrap(o, r);
                well_compile_bignum_tetration(o, a, b, p);
                let (o, h) = compile_bignum_tetration(o, a, b, p);
                lemma_keep_big(sc, w, o, h, ty);
            },
            _ => {
                if let Some(f) = big_function(ty, op) {
                    lemma_big_arith(sc, w, ty, f, op, l, r);
                }
            },
        }
    }
}

proof fn lemma_big_neg(sc: Scope, w: Work, ty: Type, v: Value)
    requires
        sound(sc, w),
        valid(v, w.out),
    ensures
        ({
            let (t, x) = big_neg(w, ty, v);
            follows(sc, w, t) && valid(x, t.out)
        }),
{
    well_unwrap(w.out, v);
    let (o, p) = unwrap(w.out, v);
    lemma_big_new(o, ty);
    let (o, h) = big_new(o, ty);
    let f = if ty is BigNum {
        Rt::BignumNeg
    } else {
        Rt::BigintNeg
    };
    well_run2(o, f, h, p);
    lemma_keep_big(sc, w, run2(o, f, h, p), h, ty);
}

proof fn lemma_facts(sc: Scope, w: Work, v: Value)
    requires
        sound(sc, w),
        valid(v, w.out),
    ensures
        ({
            let (t, x) = bignum_fact(w, v);
            follows(sc, w, t) && valid(x, t.out)
        }),
        ({
            let (t, x) = bigint_fact(w, v);
            follows(sc, w, t) && valid(x, t.out)
        }),
{
    well_unwrap(w.out, v);
    let (o, p) = unwrap(w.out, v);
    well_compile_bignum_factorial(o, p);
    let (o1, h) = compile_bignum_factorial(o, p);
    lemma_keep_big(sc, w, o1, h, Type::BigNum(crate::ast::DEFAULT_BIGNUM_PRECISION));
    well_call0(o, Rt::BigintNew);
    let (o2, g) = call0(o, Rt::BigintNew);
    well_run2(o2, Rt::BigintFactorial, g, p);
    lemma_keep_big(sc, w, run2(o2, Rt::BigintFactorial, g, p), g, Type::BigInt);
}

proof fn lemma_bigint_literal(sc: Scope, w: Work, text: Seq<char>)
    requires
        sound(sc, w),
    ensures
        ({
            let (t, v) = bigint_literal(sc, w, text);
            follows(sc, w, t) && valid(v, t.out)
        }),
{
    lemma_find_binding(sc.bindings, shown(text), Type::BigInt, true, sc.bindings.len() as int);
    match hoisted(sc.bindings, text, Type::BigInt) {
        Some(k) => {
            well_load(w.out, Repr::BigInt, sc.bindings[k].place);
        },
        None => {
            well_const_str(w.out, text);
            let (o, t) = const_str(w.out, text);
            well_call0(o, Rt::BigintNew);
            let (o, h) = call0(o, Rt::BigintNew);
            well_run2(o, Rt::BigintSetStr, h, t);
            lemma_keep_big(sc, w, run2(o, Rt::BigintSetStr, h, t), h, Type::BigInt);
        },
    }
}

proof fn lemma_literal_with(sc: Scope, w: Work, op: BinOp, text: Seq<char>, other: ExprV, v: Value)
    requires
        sound(sc, w),
        valid(v, w.out),
    ensures
        ({
            let (t, x) = literal_with(sc, w, op, text, other, v);
            follows(sc, w, t) && valid(x, t.out)
        }),
{
    lemma_bigint_literal(sc, w, text);
    well_const_float(w.out, text);
    well_const_int(w.out, 64, int_literal(text));
    let (o, c) = const_int(w.out, 64, int_literal(text));
    if let Repr::Int(width) = v.repr {
        well_coerce_int_width(o, c, width);
        well_coerce_int_width(o, c, 64);
    }
    if let Some(p) = precision_of(sc.sigs, other) {
        lemma_find_binding(sc.bindings, shown(text), Type::BigNum(p), true, sc.bindings.len() as int);
        if let Some(k) = hoisted(sc.bindings, text, Type::BigNum(p)) {
            well_load(w.out, Repr::Handle, sc.bindings[k].place);
        }
    }
}

proof fn lemma_bignum_fresh(o: Out, v: Value, p: u32)
    requires
        good(o),
        !o.ended,
        valid(v, o),
    ensures
        coerce_to_bignum(o, v, p) matches Ok(r) ==> fresh(r.1, o, r.0),
{
    well_coerce_to_bignum(o, v, p);
    reveal(coerce_to_bignum);
    well_bignum_new(o, p);
    let (o1, h) = crate::emit::bignum_new(o, p);
    match v.repr {
        Repr::Float(_) => {
            well_coerce_float(o1, v, 64);
            let (o2, f) = coerce_float(o1, v, 64);
            well_run2(o2, Rt::BignumSetD, h, f);
            lemma_wrap_fresh(run2(o2, Rt::BignumSetD, h, f), Repr::Handle, h);
            well_wrap(run2(o2, Rt::BignumSetD, h, f), Repr::Handle, h);
        },
        Repr::Ptr => {
            well_run2(o1, Rt::BignumSetStr, h, v);
            lemma_wrap_fresh(run2(o1, Rt::BignumSetStr, h, v), Repr::Handle, h);
            well_wrap(run2(o1, Rt::BignumSetStr, h, v), Repr::Handle, h);
        },
        Repr::Handle => {
            well_unwrap(o1, v);
            let (o2, q) = unwrap(o1, v);
            well_run2(o2, Rt::BignumCopy, h, q);
            lemma_wrap_fresh(run2(o2, Rt::BignumCopy, h, q), Repr::Handle, h);
            well_wrap(run2(o2, Rt::BignumCopy, h, q), Repr::Handle, h);
        },
        _ => {},
    }
}

proof fn lemma_bigint_fresh(o: Out, v: Value)
    requires
        good(o),
        !o.ended,
        valid(v, o),
    ensures
        coerce_to_bigint(o, v) matches Ok(r) ==> fresh(r.1, o, r.0),
{
    reveal(coerce_to_bigint);
    well_call0(o, Rt::BigintNew);
    let (o1, h) = call0(o, Rt::BigintNew);
    match v.repr {
        Repr::Ptr => {
            well_run2(o1, Rt::BigintSetStr, h, v);
            lemma_wrap_fresh(run2(o1, Rt::BigintSetStr, h, v), Repr::BigInt, h);
            well_wrap(run2(o1, Rt::BigintSetStr, h, v), Repr::BigInt, h);
        },
        Repr::BigInt => {
            well_unwrap(o1, v);
            let (o2, q) = unwrap(o1, v);
            well_run2(o2, Rt::BigintCopy, h, q);
            lemma_wrap_fresh(run2(o2, Rt::BigintCopy, h, q), Repr::BigInt, h);
            well_wrap(run2(o2, Rt::BigintCopy, h, q), Repr::BigInt, h);
        },
        _ => {},
    }
}

proof fn lemma_array_fresh(o: Out, v: Value, ty: Type)
    requires
        good(o),
        !o.ended,
        valid(v, o),
    ensures
        coerce_to_array(o, v, ty) matches Ok(r) ==> fresh(r.1, o, r.0),
{
    reveal(coerce_to_array);
    match v.repr {
        Repr::Handle => {
            well_unwrap(o, v);
            let (o, source) = unwrap(o, v);
            well_size_of(o, basic_type(ty));
            let (o, size) = size_of(o, basic_type(ty));
            well_call1(o, Rt::ArrayNew, size);
            let (o, h) = call1(o, Rt::ArrayNew, size);
            well_call1(o, Rt::ArrayLength, source);
            let (o, n) = call1(o, Rt::ArrayLength, source);
            well_loop_begin(o, 1, Test::Le, n);
            let (o, l) = loop_begin(o, 1, Test::Le, n);
            well_call2(o, Rt::ArrayGetPtr, source, l.counter);
            let (o, p) = call2(o, Rt::ArrayGetPtr, source, l.counter);
            well_load(o, basic_type(ty), p);
            let (o, e) = load(o, basic_type(ty), p);
            well_copy_element(o, e, ty);
            if let Ok((o, c)) = copy_element(o, e, ty) {
                well_slot(o, basic_type(ty), "array_copy_value"@);
                let (o, place) = slot(o, basic_type(ty), "array_copy_value"@);
                well_store(o, place, c);
                let o = store(o, place, c);
                well_run2(o, Rt::ArrayAppend, h, place);
                let o = run2(o, Rt::ArrayAppend, h, place);
                well_loop_end(o, l);
                let o = loop_end(o, l);
                well_wrap(o, Repr::Handle, h);
                lemma_wrap_fresh(o, Repr::Handle, h);
                let (o, r) = wrap(o, Repr::Handle, h);
            }
        },
        _ => {
        },
    }
}

#[verifier::rlimit(60)]
proof fn lemma_text_fresh(o: Out, format: Seq<char>, a: Value, b: Value)
    requires
        good(o),
        !o.ended,
        valid(a, o),
        valid(b, o),
    ensures
        fresh(format_pair(o, format, a, b).1, o, format_pair(o, format, a, b).0),
{
    reveal(format_pair);
    well_const_str(o, format);
    let (o, f) = const_str(o, format);
    well_null(o);
    let (o, nowhere) = null(o);
    well_const_int(o, 64, 0);
    let (o, nothing) = const_int(o, 64, 0);
    lemma_valid_five(o, nowhere, nothing, f, a, b);
    well_call_list(o, Rt::Snprintf, seq![nowhere, nothing, f, a, b]);
    let (o, n) = call_list(o, Rt::Snprintf, seq![nowhere, nothing, f, a, b]);
    well_give1(o, Op::ZeroExtend(64), n, Repr::Int(64));
    let (o, wide) = give1(o, Op::ZeroExtend(64), n, Repr::Int(64));
    well_const_int(o, 64, 1);
    let (o, one) = const_int(o, 64, 1);
    well_give2(o, Op::IntAdd, wide, one, Repr::Int(64));
    let (o, size) = give2(o, Op::IntAdd, wide, one, Repr::Int(64));
    well_call1(o, Rt::Malloc, size);
    lemma_call_fresh(o, Rt::Malloc, size);
    let (o, buffer) = call1(o, Rt::Malloc, size);
    lemma_valid_five(o, buffer, size, f, a, b);
    well_call_list(o, Rt::Snprintf, seq![buffer, size, f, a, b]);
    let (o, filled) = call_list(o, Rt::Snprintf, seq![buffer, size, f, a, b]);
}

proof fn lemma_concat_fresh(o: Out, l: Value, r: Value)
    requires
        good(o),
        !o.ended,
        valid(l, o),
        valid(r, o),
    ensures
        compile_concat(o, l, r) matches Ok(x) ==> fresh(x.1, o, x.0),
{
    reveal(compile_concat);
    well_value_fmt(o, l);
    if let Ok((o1, a)) = value_fmt(o, l) {
        well_value_fmt(o1, r);
        if let Ok((o2, b)) = value_fmt(o1, r) {
            let format = crate::emit::pair_format(l.repr, r.repr);
            lemma_text_fresh(o2, format, a, b);
            well_format_pair(o2, format, a, b);
            let (o3, buffer) = format_pair(o2, format, a, b);
            crate::wellbuilt::well_free_shown(o3, l.repr, a);
            let o4 = crate::emit::free_shown(o3, l.repr, a);
            crate::wellbuilt::well_free_shown(o4, r.repr, b);
        }
    }
}

/// A value that is stored is new, if it owns memory.
proof fn lemma_stored_fresh(o: Out, v: Value, ty: Type)
    requires
        good(o),
        !o.ended,
        valid(v, o),
        owned(ty),
    ensures
        coerce_to_type(o, v, ty) matches Ok(r) ==> fresh(r.1, o, r.0),
{
    reveal(coerce_to_type);
    match ty {
        Type::BigNum(p) => lemma_bignum_fresh(o, v, p),
        Type::BigInt => lemma_bigint_fresh(o, v),
        Type::Array(element) => lemma_array_fresh(o, v, element_as_type(element)),
        _ => {
            well_call1(o, Rt::Strdup, v);
            lemma_call_fresh(o, Rt::Strdup, v);
        },
    }
}

// ---------------------------------------------------------------------------
// Expressions
// ---------------------------------------------------------------------------

/// A step after which everything is in order.
pub open spec fn in_order(sc: Scope, w: Work, s: Step) -> bool {
    s matches Ok(r) ==> follows(sc, w, r.0) && valid(r.1, r.0.out)
}

proof fn lemma_combine(sc: Scope, w: Work, e: ExprV, l: Value, r: Value)
    requires
        sound(sc, w),
        valid(l, w.out),
        valid(r, w.out),
    ensures
        in_order(sc, w, combine(sc, w, e, l, r)),
{
    if let ExprV::Binary(le, op, re) = e {
        if op is Concat {
            well_compile_concat(w.out, l, r);
            lemma_concat_fresh(w.out, l, r);
            if let Ok((o, t)) = compile_concat(w.out, l, r) {
                lemma_keep(sc, w, o, t, Type::Str);
            }
        } else {
            let q = Type::BigNum(bignum_precision(sc.sigs, e));
            match (l.repr, r.repr) {
                (Repr::Float(_), Repr::Float(_)) => well_compile_float_binary(w.out, op, l, r),
                (Repr::Int(1), Repr::Int(1)) => well_compile_bool_binary(w.out, op, l, r),
                (Repr::Int(_), Repr::Int(_)) => well_compile_int_binary(w.out, op, l, r),
                (Repr::Handle, Repr::Float(_)) => {
                    let p = bignum_precision(sc.sigs, *le);
                    well_coerce_to_bignum(w.out, r, p);
                    lemma_bignum_fresh(w.out, r, p);
                    if let Ok((o, b)) = coerce_to_bignum(w.out, r, p) {
                        lemma_keep(sc, w, o, b, Type::BigNum(p));
                        lemma_big_binary(sc, keep(w, o, b, Type::BigNum(p)), q, op, l, b);
                    }
                },
                (Repr::Float(_), Repr::Handle) => {
                    let p = bignum_precision(sc.sigs, *re);
                    well_coerce_to_bignum(w.out, l, p);
                    lemma_bignum_fresh(w.out, l, p);
                    if let Ok((o, a)) = coerce_to_bignum(w.out, l, p) {
                        lemma_keep(sc, w, o, a, Type::BigNum(p));
                        lemma_big_binary(sc, keep(w, o, a, Type::BigNum(p)), q, op, a, r);
                    }
                },
                (Repr::Handle, Repr::Handle) => lemma_big_binary(sc, w, q, op, l, r),
                (Repr::BigInt, Repr::BigInt) => lemma_big_binary(sc, w, Type::BigInt, op, l, r),
                _ => {},
            }
        }
    }
}

proof fn lemma_combine_one(sc: Scope, w: Work, op: UnOp, inner: ExprV, v: Value)
    requires
        sound(sc, w),
        valid(v, w.out),
    ensures
        in_order(sc, w, combine_one(sc, w, op, inner, v)),
{
    match (op, v.repr) {
        (UnOp::Neg, Repr::Float(_)) => well_give1(w.out, Op::FloatNeg, v, v.repr),
        (UnOp::Not, Repr::Int(1)) => well_give1(w.out, Op::Not, v, v.repr),
        (UnOp::Neg, Repr::Int(_)) => well_compile_int_neg(w.out, v),
        (UnOp::Factorial, Repr::Int(_)) => well_compile_int_factorial(w.out, v),
        (UnOp::Factorial, Repr::Float(_)) => {
            well_coerce_float(w.out, v, 64);
            let (o, f) = coerce_float(w.out, v, 64);
            well_compile_factorial(o, f);
        },
        (UnOp::Neg, Repr::Handle) => lemma_big_neg(sc, w, Type::BigNum(bignum_precision(sc.sigs, inner)), v),
        (UnOp::Neg, Repr::BigInt) => lemma_big_neg(sc, w, Type::BigInt, v),
        (UnOp::Factorial, Repr::Handle) => lemma_facts(sc, w, v),
        (UnOp::Factorial, Repr::BigInt) => lemma_facts(sc, w, v),
        _ => {},
    }
}

pub proof fn lemma_element_place(o: Out, array: Value, index: Value)
    requires
        good(o),
        !o.ended,
        valid(array, o),
        valid(index, o),
    ensures
        element_place(o, array, index) matches Ok(r) ==> good(r.0) && !r.0.ended && o.code.len() <= r.0.code.len() && valid(
            r.1,
            r.0,
        ),
{
    if index.repr is Float {
        well_give1(o, Op::FloatToInt, index, Repr::Int(64));
        let (o1, i) = give1(o, Op::FloatToInt, index, Repr::Int(64));
        well_call2(o1, Rt::ArrayGetPtr, array, i);
    }
}

pub proof fn lemma_append(o: Out, h: Value, v: Value, element: ElementType)
    requires
        good(o),
        !o.ended,
        valid(h, o),
        valid(v, o),
    ensures
        good(append(o, h, v, element)),
        !append(o, h, v, element).ended,
        o.code.len() <= append(o, h, v, element).code.len(),
{
    well_slot(o, repr_of(element_as_type(element)), "append_value"@);
    let (o, p) = slot(o, repr_of(element_as_type(element)), "append_value"@);
    well_store(o, p, v);
    well_run2(store(o, p, v), Rt::ArrayAppend, h, p);
}

/// Lowering an expression leaves everything in order.
pub proof fn lemma_expr(sc: Scope, w: Work, e: ExprV)
    requires
        sound(sc, w),
    ensures
        in_order(sc, w, lower_expr(sc, w, e)),
    decreases e, 1int, 0nat,
{
    match e {
        ExprV::Num(text) => well_const_float(w.out, text),
        ExprV::Bool(b) => well_const_int(
            w.out,
            1,
            if b {
                1
            } else {
                0
            },
        ),
        ExprV::Str(s) => well_const_str(w.out, s),
        ExprV::Var(name, ty) => {
            lemma_find_binding(sc.bindings, name, ty, false, sc.bindings.len() as int);
            if let Some(k) = variable(sc.bindings, name, ty) {
                well_load(w.out, repr_of(ty), sc.bindings[k].place);
            }
        },
        ExprV::Unary(op, inner) => {
            lemma_expr(sc, w, *inner);
            if let Ok((w1, v)) = lower_expr(sc, w, *inner) {
                lemma_combine_one(sc, w1, op, *inner, v);
            }
        },
        ExprV::Binary(_, _, _) => {
            lemma_pair(sc, w, e);
            if let Ok((w1, l, r)) = lower_pair(sc, w, e) {
                lemma_combine(sc, w1, e, l, r);
            }
        },
        ExprV::Call(name, args) => lemma_call(sc, w, name, args),
        ExprV::ArrayLiteral(_) => {},
        ExprV::ArrayIndex(name, ty, index) => {
            lemma_find_binding(sc.bindings, name, ty, false, sc.bindings.len() as int);
            if let Type::Array(element) = ty {
                if let Some(k) = variable(sc.bindings, name, ty) {
                    well_load(w.out, Repr::Handle, sc.bindings[k].place);
                    let (o, a) = load(w.out, Repr::Handle, sc.bindings[k].place);
                    well_unwrap(o, a);
                    let (o, h) = unwrap(o, a);
                    lemma_expr(sc, with_out(w, o), *index);
                    if let Ok((w1, i)) = lower_expr(sc, with_out(w, o), *index) {
                        lemma_element_place(w1.out, h, i);
                        if let Ok((o1, p)) = element_place(w1.out, h, i) {
                            well_load(o1, repr_of(element_as_type(element)), p);
                        }
                    }
                }
            }
        },
        ExprV::Length(array) => {
            lemma_expr(sc, w, *array);
            if let Ok((w1, v)) = lower_expr(sc, w, *array) {
                well_unwrap(w1.out, v);
                let (o, h) = unwrap(w1.out, v);
                well_call1(o, Rt::ArrayLength, h);
                let (o, n) = call1(o, Rt::ArrayLength, h);
                well_give1(o, Op::IntToFloat, n, Repr::Float(64));
            }
        },
    }
}

proof fn lemma_pair(sc: Scope, w: Work, e: ExprV)
    requires
        sound(sc, w),
    ensures
        lower_pair(sc, w, e) matches Ok(r) ==> follows(sc, w, r.0) && valid(r.1, r.0.out) && valid(r.2, r.0.out),
    decreases e, 0int, 0nat,
{
    if let ExprV::Binary(l, op, r) = e {
        match (*l, *r) {
            (ExprV::Num(a), ExprV::Num(b)) => {
                well_const_float(w.out, a);
                let (o, _) = const_float(w.out, a);
                well_const_float(o, b);
            },
            (ExprV::Num(text), other) => {
                lemma_expr(sc, w, other);
                if let Ok((w1, y)) = lower_expr(sc, w, other) {
                    lemma_literal_with(sc, w1, op, text, other, y);
                }
            },
            (other, ExprV::Num(text)) => {
                lemma_expr(sc, w, other);
                if let Ok((w1, x)) = lower_expr(sc, w, other) {
                    lemma_literal_with(sc, w1, op, text, other, x);
                }
            },
            (left, right) => {
                lemma_expr(sc, w, left);
                if let Ok((w1, x)) = lower_expr(sc, w, left) {
                    lemma_expr(sc, w1, right);
                }
            },
        }
    }
}

/// Lowering a call leaves everything in order.
pub proof fn lemma_call(sc: Scope, w: Work, name: Seq<char>, args: Seq<ExprV>)
    requires
        sound(sc, w),
    ensures
        in_order(sc, w, lower_call(sc, w, name, args)),
    decreases args, 2int, 0nat,
{
    if let Some(k) = sig_place(sc.sigs, name, sc.sigs.len() as int) {
        let sig = sc.sigs[k];
        if args.len() == sig.params.len() {
            lemma_args(sc, w, args, sig.params, args.len());
            if let Ok((w1, vs)) = lower_args(sc, w, args, sig.params, args.len()) {
                let repr = repr_of(sig.return_type);
                well_call_function(w1.out, k as usize, vs, repr);
                let (o, v) = call_function(w1.out, k as usize, vs, repr);
                lemma_keep(sc, w1, o, v, sig.return_type);
            }
        }
    }
}

proof fn lemma_args(sc: Scope, w: Work, args: Seq<ExprV>, params: Seq<Type>, n: nat)
    requires
        sound(sc, w),
    ensures
        lower_args(sc, w, args, params, n) matches Ok(r) ==> follows(sc, w, r.0) && valid_all(r.1, r.0.out),
    decreases args, 1int, n,
{
    if 0 < n <= args.len() {
        lemma_args(sc, w, args, params, (n - 1) as nat);
        if let Ok((w1, vs)) = lower_args(sc, w, args, params, (n - 1) as nat) {
            lemma_for(sc, w1, args[n - 1], params[n - 1]);
            if let Ok((w2, v)) = lower_for(sc, w1, args[n - 1], params[n - 1]) {
                assert forall|i: int| 0 <= i < vs.push(v).len() implies valid(#[trigger] vs.push(v)[i], w2.out) by {
                    if i < vs.len() {
                        assert(valid(vs[i], w1.out));
                    }
                }
            }
        }
    }
}

proof fn lemma_int(sc: Scope, w: Work, e: ExprV)
    requires
        sound(sc, w),
    ensures
        in_order(sc, w, lower_int(sc, w, e)),
    decreases e, 2int, 0nat,
{
    match e {
        ExprV::Num(text) => well_const_int(w.out, 64, int_literal(text)),
        ExprV::Binary(l, op, r) => {
            lemma_int(sc, w, *l);
            if let Ok((w1, x)) = lower_int(sc, w, *l) {
                lemma_int(sc, w1, *r);
                if let Ok((w2, y)) = lower_int(sc, w1, *r) {
                    well_compile_int_binary(w2.out, op, x, y);
                }
            }
        },
        ExprV::Unary(op, inner) => {
            lemma_int(sc, w, *inner);
            if let Ok((w1, v)) = lower_int(sc, w, *inner) {
                well_compile_int_neg(w1.out, v);
                well_compile_int_factorial(w1.out, v);
            }
        },
        _ => lemma_expr(sc, w, e),
    }
}

proof fn lemma_bigint(sc: Scope, w: Work, e: ExprV)
    requires
        sound(sc, w),
    ensures
        in_order(sc, w, lower_bigint(sc, w, e)),
    decreases e, 2int, 0nat,
{
    match e {
        ExprV::Num(text) => lemma_bigint_literal(sc, w, text),
        ExprV::Binary(l, op, r) => {
            lemma_bigint(sc, w, *l);
            if let Ok((w1, x)) = lower_bigint(sc, w, *l) {
                lemma_bigint(sc, w1, *r);
                if let Ok((w2, y)) = lower_bigint(sc, w1, *r) {
                    lemma_big_binary(sc, w2, Type::BigInt, op, x, y);
                }
            }
        },
        ExprV::Unary(op, inner) => {
            lemma_bigint(sc, w, *inner);
            if let Ok((w1, v)) = lower_bigint(sc, w, *inner) {
                lemma_big_neg(sc, w1, Type::BigInt, v);
                lemma_facts(sc, w1, v);
            }
        },
        _ => lemma_expr(sc, w, e),
    }
}

proof fn lemma_elements(sc: Scope, w: Work, h: Value, es: Seq<ExprV>, element: ElementType, n: nat)
    requires
        sound(sc, w),
        valid(h, w.out),
    ensures
        lower_elements(sc, w, h, es, element, n) matches Ok(t) ==> follows(sc, w, t),
    decreases es, 1int, n,
{
    if 0 < n <= es.len() {
        lemma_elements(sc, w, h, es, element, (n - 1) as nat);
        if let Ok(w1) = lower_elements(sc, w, h, es, element, (n - 1) as nat) {
            lemma_for(sc, w1, es[n - 1], element_as_type(element));
            if let Ok((w2, v)) = lower_for(sc, w1, es[n - 1], element_as_type(element)) {
                lemma_append(w2.out, h, v, element);
            }
        }
    }
}

proof fn lemma_adopt(sc: Scope, w: Work, v: Value, ty: Type)
    requires
        sound(sc, w),
        valid(v, w.out),
    ensures
        in_order(sc, w, adopt(w, v, ty)),
        owned(ty) ==> (adopt(w, v, ty) matches Ok(r) ==> unowned(r.1, r.0)),
{
    lemma_without(sc, w, v, ty);
    lemma_without(sc, w, v, Type::Str);
    lemma_without(sc, w, v, Type::File);
    well_coerce_to_type(w.out, v, ty);
    if owned(ty) {
        lemma_stored_fresh(w.out, v, ty);
    }
}

/// Lowering a value that is stored, passed or returned leaves everything in order. If the value
/// owns memory, it is none of the temporaries: it has one owner.
pub proof fn lemma_for(sc: Scope, w: Work, e: ExprV, ty: Type)
    requires
        sound(sc, w),
    ensures
        in_order(sc, w, lower_for(sc, w, e, ty)),
        owned(ty) ==> (lower_for(sc, w, e, ty) matches Ok(r) ==> unowned(r.1, r.0)),
    decreases e, 3int, 0nat,
{
    match (e, ty) {
        (ExprV::Num(text), Type::BigNum(p)) => {
            well_const_str(w.out, text);
            let (o, t) = const_str(w.out, text);
            well_coerce_to_bignum(o, t, p);
            lemma_bignum_fresh(o, t, p);
        },
        (ExprV::Num(text), Type::BigInt) => {
            well_const_str(w.out, text);
            let (o, t) = const_str(w.out, text);
            well_coerce_to_bigint(o, t);
            lemma_bigint_fresh(o, t);
        },
        (ExprV::ArrayLiteral(es), Type::Array(element)) => {
            well_size_of(w.out, repr_of(element_as_type(element)));
            let (o, size) = size_of(w.out, repr_of(element_as_type(element)));
            well_call1(o, Rt::ArrayNew, size);
            let (o, h) = call1(o, Rt::ArrayNew, size);
            lemma_elements(sc, with_out(w, o), h, es, element, es.len());
            if let Ok(w1) = lower_elements(sc, with_out(w, o), h, es, element, es.len()) {
                well_wrap(w1.out, Repr::Handle, h);
                lemma_wrap_fresh(w1.out, Repr::Handle, h);
            }
        },
        (_, Type::Int(width)) => {
            if spreads_over(e) {
                lemma_int(sc, w, e);
                if let Ok((w1, v)) = lower_int(sc, w, e) {
                    well_coerce_int_width(w1.out, v, width);
                }
            } else {
                lemma_expr(sc, w, e);
                if let Ok((w1, v)) = lower_expr(sc, w, e) {
                    lemma_adopt(sc, w1, v, ty);
                }
            }
        },
        (_, Type::BigInt) => {
            if spreads_over(e) {
                lemma_bigint(sc, w, e);
                if let Ok((w1, v)) = lower_bigint(sc, w, e) {
                    lemma_adopt(sc, w1, v, ty);
                }
            } else {
                lemma_expr(sc, w, e);
                if let Ok((w1, v)) = lower_expr(sc, w, e) {
                    lemma_adopt(sc, w1, v, ty);
                }
            }
        },
        _ => {
            lemma_expr(sc, w, e);
            if let Ok((w1, v)) = lower_expr(sc, w, e) {
                lemma_adopt(sc, w1, v, ty);
            }
        },
    }
}

} // verus!
