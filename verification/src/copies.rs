//! Every value that is stored is its own: what a variable, a parameter or an element gets was copied or
//! constructed for it, and is never what another variable holds.

use vstd::prelude::*;
use crate::ast::{element_as_type, BinOp, ElementType, ExprV, Type, UnOp, DEFAULT_BIGNUM_PRECISION};
use crate::confined::{
    group_own, grows, lemma_longer, lemma_same, own_call2, own_coerce_to_bigint, own_coerce_to_bignum,
    own_coerce_to_type, own_compile_bool_binary, own_compile_concat, own_compile_float_binary,
    own_compile_int_binary, own_copy_element, own_load, own_loop_begin, own_loop_end, own_run2, own_run3, own_slot,
    own_store,
};
use crate::control::{own_append, own_combine_one, own_elements, own_expr, own_literal_with};
use crate::emit::{
    bignum_new, call0, call1, call2, call_function, call_list, coerce_float, coerce_int_width, coerce_to_array,
    coerce_to_bigint, coerce_to_bignum, coerce_to_type, compile_bignum_factorial, compile_bignum_tetration,
    compile_bool_binary, compile_concat, compile_float_binary, compile_int_binary, compile_int_factorial,
    compile_int_neg, compile_order, const_float, const_int, const_str, copy_element, emit, format_pair, free_shown,
    give0, give1, give2, load, loop_begin, loop_end, null, owned, pair_format, run2, run3, size_of, slot, store,
    unwrap, value_fmt, wrap, Out,
};
use crate::ir::{basic_type, repr_of, InstV, Op, Repr, Rt, Test, Value};
use crate::lower::{
    adopt, append, big_arith, big_binary, big_function, big_neg, big_new, big_order, bigint_fact, bigint_literal,
    bignum_fact, bignum_precision, combine, combine_one, element_place, find_temp, fuses_left, hoisted,
    int_literal, is_temp, keep, keep_big, literal_with, lower_args, lower_bigint, lower_call, lower_elements,
    lower_expr, lower_for, lower_int, lower_pair, sig_place, spreads_over, variable, with_out, without_temp, Scope,
    Step, Temp, Work,
};

verus! {

broadcast use group_own;

// ---------------------------------------------------------------------------
// What makes a value
// ---------------------------------------------------------------------------

/// Whether a runtime function gives a text of its own.
pub open spec fn gives_text(f: Rt) -> bool {
    f is Strdup || f is Malloc || f is ReadLine || f is ReadFile
}

/// Whether a runtime function gives a handle of its own.
pub open spec fn gives_handle(f: Rt) -> bool {
    f is BignumNew || f is BigintNew || f is ArrayNew
}

/// Whether the value at a place was made there: a text that was copied or built, what a function of the
/// program has given, or a wrapped handle that was made.
pub open spec fn made(code: Seq<InstV>, id: int) -> bool
    decreases id,
{
    0 <= id < code.len() && match code[id].op {
        Op::Call(f) => gives_text(f),
        Op::CallFunction(_) => true,
        Op::Wrap(_) => code[id].args[0] < id && handle_made(code, code[id].args[0] as int),
        _ => false,
    }
}

/// Whether the handle at a place was made there: by a runtime function, as the last one that a loop has
/// kept, or as that of a value that was made.
pub open spec fn handle_made(code: Seq<InstV>, id: int) -> bool
    decreases id,
{
    0 <= id < code.len() && match code[id].op {
        Op::Call(f) => gives_handle(f),
        Op::Load(r) => r == Repr::Ptr,
        Op::Unwrap => code[id].args[0] < id && made(code, code[id].args[0] as int),
        _ => false,
    }
}

/// The value was made.
pub open spec fn is_made(v: Value, o: Out) -> bool {
    o.code.len() <= usize::MAX ==> made(o.code, v.id as int)
}

/// The handle was made.
pub open spec fn is_handle(v: Value, o: Out) -> bool {
    o.code.len() <= usize::MAX ==> handle_made(o.code, v.id as int)
}

proof fn lemma_same_code(o: Out, t: Out, id: int)
    requires
        grows(o, t),
        0 <= id < o.code.len(),
    ensures
        made(t.code, id) == made(o.code, id),
        handle_made(t.code, id) == handle_made(o.code, id),
    decreases id,
{
    reveal(grows);
    assert(t.code[id] == o.code[id]);
    if o.code[id].args[0] < id {
        lemma_same_code(o, t, o.code[id].args[0] as int);
    }
}

proof fn lemma_kept_on(v: Value, o: Out, t: Out)
    requires
        grows(o, t),
    ensures
        is_made(v, o) ==> is_made(v, t),
        is_handle(v, o) ==> is_handle(v, t),
{
    lemma_longer(o, t);
    if t.code.len() <= usize::MAX && v.id < o.code.len() {
        lemma_same_code(o, t, v.id as int);
    }
}

proof fn lemma_handles(o: Out, f: Rt, a: Value, precision: u32, place: Value)
    ensures
        is_handle(bignum_new(o, precision).1, bignum_new(o, precision).0),
        gives_handle(f) ==> is_handle(call0(o, f).1, call0(o, f).0),
        gives_handle(f) ==> is_handle(call1(o, f, a).1, call1(o, f, a).0),
        gives_text(f) ==> is_made(call1(o, f, a).1, call1(o, f, a).0),
        is_handle(load(o, Repr::Ptr, place).1, load(o, Repr::Ptr, place).0),
{
    reveal(bignum_new);
    reveal(call0);
    reveal(call1);
    reveal(load);
    reveal(give1);
    reveal(give0);
    reveal(const_int);
    reveal(emit);
}

proof fn lemma_function(o: Out, k: usize, vs: Seq<Value>, repr: Repr)
    ensures
        is_made(call_function(o, k, vs, repr).1, call_function(o, k, vs, repr).0),
{
    reveal(call_function);
    reveal(emit);
}

proof fn lemma_unwrap(o: Out, l: Value)
    requires
        is_made(l, o),
    ensures
        is_handle(unwrap(o, l).1, unwrap(o, l).0),
{
    lemma_same(o);
    let t = unwrap(o, l).0;
    assert(grows(o, t));
    lemma_kept_on(l, o, t);
    reveal(unwrap);
    reveal(give1);
    reveal(emit);
}

proof fn lemma_wrap(o: Out, repr: Repr, h: Value)
    requires
        is_handle(h, o),
    ensures
        is_made(wrap(o, repr, h).1, wrap(o, repr, h).0),
{
    lemma_same(o);
    let t = wrap(o, repr, h).0;
    assert(grows(o, t));
    lemma_kept_on(h, o, t);
    reveal(wrap);
    reveal(give1);
    reveal(emit);
}

/// A handle that was made and is wrapped after more code.
proof fn lemma_wrap_later(o: Out, t: Out, repr: Repr, h: Value)
    requires
        is_handle(h, o),
        grows(o, t),
    ensures
        is_made(wrap(t, repr, h).1, wrap(t, repr, h).0),
{
    lemma_kept_on(h, o, t);
    lemma_wrap(t, repr, h);
}

proof fn lemma_to_bignum(o: Out, v: Value, precision: u32)
    ensures
        coerce_to_bignum(o, v, precision) matches Ok((t, r)) ==> is_made(r, t),
{
    reveal(coerce_to_bignum);
    lemma_handles(o, Rt::BignumNew, v, precision, v);
    let (o1, h) = bignum_new(o, precision);
    lemma_same(o1);
    match v.repr {
        Repr::Float(_) => {
            let (o2, f) = coerce_float(o1, v, 64);
            let o3 = run2(o2, Rt::BignumSetD, h, f);
            lemma_wrap_later(o1, o3, Repr::Handle, h);
        },
        Repr::Ptr => {
            let o3 = run2(o1, Rt::BignumSetStr, h, v);
            lemma_wrap_later(o1, o3, Repr::Handle, h);
        },
        Repr::Handle => {
            let (o2, p) = unwrap(o1, v);
            let o3 = run2(o2, Rt::BignumCopy, h, p);
            lemma_wrap_later(o1, o3, Repr::Handle, h);
        },
        _ => {},
    }
}

proof fn lemma_to_bigint(o: Out, v: Value)
    ensures
        coerce_to_bigint(o, v) matches Ok((t, r)) ==> is_made(r, t),
{
    reveal(coerce_to_bigint);
    lemma_handles(o, Rt::BigintNew, v, 1, v);
    let (o1, h) = call0(o, Rt::BigintNew);
    lemma_same(o1);
    match v.repr {
        Repr::Ptr => {
            let o3 = run2(o1, Rt::BigintSetStr, h, v);
            lemma_wrap_later(o1, o3, Repr::BigInt, h);
        },
        Repr::BigInt => {
            let (o2, p) = unwrap(o1, v);
            let o3 = run2(o2, Rt::BigintCopy, h, p);
            lemma_wrap_later(o1, o3, Repr::BigInt, h);
        },
        _ => {},
    }
}

proof fn lemma_to_array(o: Out, v: Value, ty: Type)
    ensures
        coerce_to_array(o, v, ty) matches Ok((t, r)) ==> is_made(r, t),
{
    reveal(coerce_to_array);
    if v.repr == Repr::Handle {
        let (o, source) = unwrap(o, v);
        let (o, size) = size_of(o, basic_type(ty));
        lemma_handles(o, Rt::ArrayNew, size, 1, v);
        let (o0, h) = call1(o, Rt::ArrayNew, size);
        lemma_same(o0);
        let (o1, n) = call1(o0, Rt::ArrayLength, source);
        let (o2, l) = loop_begin(o1, 1, Test::Le, n);
        own_loop_begin(o0, o1, 1, Test::Le, n);
        let (o3, p) = call2(o2, Rt::ArrayGetPtr, source, l.counter);
        let (o4, e) = load(o3, basic_type(ty), p);
        own_call2(o0, o2, Rt::ArrayGetPtr, source, l.counter);
        own_load(o0, o3, basic_type(ty), p);
        own_copy_element(o0, o4, e, ty);
        if let Ok((o5, c)) = copy_element(o4, e, ty) {
            own_slot(o0, o5, basic_type(ty), "array_copy_value"@);
            let (o6, place) = slot(o5, basic_type(ty), "array_copy_value"@);
            own_store(o0, o6, place, c);
            let o7 = store(o6, place, c);
            own_run2(o0, o7, Rt::ArrayAppend, h, place);
            let o8 = run2(o7, Rt::ArrayAppend, h, place);
            own_loop_end(o0, o8, l);
            let o9 = loop_end(o8, l);
            lemma_wrap_later(o0, o9, Repr::Handle, h);
        }
    }
}

/// What is stored as a type that owns memory is a copy.
proof fn lemma_to_type(o: Out, v: Value, ty: Type)
    requires
        owned(ty),
    ensures
        coerce_to_type(o, v, ty) matches Ok((t, r)) ==> is_made(r, t),
{
    reveal(coerce_to_type);
    lemma_handles(o, Rt::Strdup, v, 1, v);
    match ty {
        Type::BigNum(p) => lemma_to_bignum(o, v, p),
        Type::BigInt => lemma_to_bigint(o, v),
        Type::Array(e) => lemma_to_array(o, v, e.as_type()),
        _ => {},
    }
}

proof fn lemma_concat(o: Out, l: Value, r: Value)
    ensures
        compile_concat(o, l, r) matches Ok((t, v)) ==> is_made(v, t),
{
    reveal(compile_concat);
    if let Ok((o1, a)) = value_fmt(o, l) {
        if let Ok((o2, b)) = value_fmt(o1, r) {
            let format = pair_format(l.repr, r.repr);
            lemma_format_pair(o2, format, a, b);
            let (o3, buffer) = format_pair(o2, format, a, b);
            lemma_same(o3);
            let o4 = free_shown(o3, l.repr, a);
            let o5 = free_shown(o4, r.repr, b);
            assert(grows(o3, o5));
            lemma_kept_on(buffer, o3, o5);
        }
    }
}

proof fn lemma_format_pair(o: Out, format: Seq<char>, a: Value, b: Value)
    ensures
        is_made(format_pair(o, format, a, b).1, format_pair(o, format, a, b).0),
{
    reveal(format_pair);
    let (o, f) = const_str(o, format);
    let (o, nowhere) = null(o);
    let (o, nothing) = const_int(o, 64, 0);
    let (o, n) = call_list(o, Rt::Snprintf, seq![nowhere, nothing, f, a, b]);
    let (o, wide) = give1(o, Op::ZeroExtend(64), n, Repr::Int(64));
    let (o, one) = const_int(o, 64, 1);
    let (o, size) = give2(o, Op::IntAdd, wide, one, Repr::Int(64));
    lemma_handles(o, Rt::Malloc, size, 1, size);
    let (o1, buffer) = call1(o, Rt::Malloc, size);
    lemma_same(o1);
    let (o2, filled) = call_list(o1, Rt::Snprintf, seq![buffer, size, f, a, b]);
    assert(grows(o1, o2));
    lemma_kept_on(buffer, o1, o2);
}

proof fn lemma_tetration(o: Out, base: Value, height: Value, precision: u32)
    ensures
        is_handle(
            compile_bignum_tetration(o, base, height, precision).1,
            compile_bignum_tetration(o, base, height, precision).0,
        ),
{
    reveal(compile_bignum_tetration);
    let (o, n) = call1(o, Rt::BignumGetI64, height);
    lemma_handles(o, Rt::BignumNew, base, precision, base);
    let (o1, acc) = bignum_new(o, precision);
    lemma_same(o1);
    let o2 = run2(o1, Rt::BignumCopy, acc, base);
    own_loop_begin(o1, o2, 2, Test::Le, n);
    let (o3, l) = loop_begin(o2, 2, Test::Le, n);
    own_run3(o1, o3, Rt::BignumPow, acc, base, acc);
    let o4 = run3(o3, Rt::BignumPow, acc, base, acc);
    own_loop_end(o1, o4, l);
    let o5 = loop_end(o4, l);
    lemma_kept_on(acc, o1, o5);
}

proof fn lemma_factorial(o: Out, v: Value)
    ensures
        is_handle(compile_bignum_factorial(o, v).1, compile_bignum_factorial(o, v).0),
{
    reveal(compile_bignum_factorial);
    assert forall|o: Out, p: Value| is_handle((#[trigger] load(o, Repr::Ptr, p)).1, load(o, Repr::Ptr, p).0) by {
        lemma_handles(o, Rt::Pow, p, 1, p);
    }
}

// ---------------------------------------------------------------------------
// Temporaries
// ---------------------------------------------------------------------------

/// Every temporary was made.
pub open spec fn temps_made(w: Work) -> bool {
    forall|i: int| 0 <= i < w.temps.len() ==> is_made((#[trigger] w.temps[i]).value, w.out)
}

/// After a step every temporary was made.
pub open spec fn step_made(r: Step) -> bool {
    r matches Ok((w, v)) ==> temps_made(w)
}

proof fn lemma_more(w: Work, o: Out)
    requires
        temps_made(w),
        grows(w.out, o),
    ensures
        temps_made(with_out(w, o)),
{
    assert forall|i: int| 0 <= i < w.temps.len() implies is_made((#[trigger] w.temps[i]).value, o) by {
        lemma_kept_on(w.temps[i].value, w.out, o);
    }
}

proof fn lemma_keep(w: Work, o: Out, v: Value, ty: Type)
    requires
        temps_made(w),
        grows(w.out, o),
        is_made(v, o),
    ensures
        temps_made(keep(w, o, v, ty)),
{
    lemma_more(w, o);
    let t = keep(w, o, v, ty);
    assert forall|i: int| 0 <= i < t.temps.len() implies is_made((#[trigger] t.temps[i]).value, o) by {
        if i < w.temps.len() {
            assert(t.temps[i] == with_out(w, o).temps[i]);
        }
    }
}

proof fn lemma_keep_big(w: Work, o: Out, h: Value, ty: Type)
    requires
        temps_made(w),
        grows(w.out, o),
        is_handle(h, o),
    ensures
        temps_made(keep_big(w, o, h, ty).0),
{
    lemma_wrap(o, repr_of(ty), h);
    let (t, v) = wrap(o, repr_of(ty), h);
    assert(grows(w.out, t));
    lemma_keep(w, t, v, ty);
}

proof fn lemma_find_temp(temps: Seq<Temp>, v: Value, ty: Type, n: int)
    ensures
        find_temp(temps, v, ty, n) matches Some(k) ==> 0 <= k < temps.len() && temps[k].value.id == v.id,
    decreases n,
{
    if 0 < n <= temps.len() {
        lemma_find_temp(temps, v, ty, n - 1);
    }
}

/// A temporary was made, and the others were, without it.
proof fn lemma_temp(w: Work, v: Value, ty: Type)
    requires
        temps_made(w),
    ensures
        is_temp(w.temps, v, ty) ==> is_made(v, w.out),
        temps_made(Work { out: w.out, temps: without_temp(w.temps, v, ty) }),
{
    lemma_find_temp(w.temps, v, ty, w.temps.len() as int);
    if let Some(k) = find_temp(w.temps, v, ty, w.temps.len() as int) {
        assert(is_made(w.temps[k].value, w.out));
        let rest = w.temps.remove(k);
        assert forall|i: int| 0 <= i < rest.len() implies is_made((#[trigger] rest[i]).value, w.out) by {
            if i < k {
                assert(rest[i] == w.temps[i]);
            } else {
                assert(rest[i] == w.temps[i + 1]);
            }
        }
    }
}

// ---------------------------------------------------------------------------
// Expressions
// ---------------------------------------------------------------------------

proof fn lemma_big_new(o: Out, ty: Type)
    ensures
        is_handle(big_new(o, ty).1, big_new(o, ty).0),
{
    lemma_handles(o, Rt::BigintNew, Value { id: 0, repr: Repr::Void }, 1, Value { id: 0, repr: Repr::Void });
    if let Type::BigNum(p) = ty {
        lemma_handles(o, Rt::BigintNew, Value { id: 0, repr: Repr::Void }, p, Value { id: 0, repr: Repr::Void });
    }
}

proof fn lemma_big_arith(w: Work, ty: Type, f: Rt, op: BinOp, l: Value, r: Value)
    requires
        temps_made(w),
    ensures
        temps_made(big_arith(w, ty, f, op, l, r).0),
{
    lemma_same(w.out);
    let (o1, a) = unwrap(w.out, l);
    let (o2, b) = unwrap(o1, r);
    assert(grows(w.out, o2));
    if fuses_left(op) && is_temp(w.temps, l, ty) {
        lemma_temp(w, l, ty);
        lemma_unwrap(w.out, l);
        let o3 = run3(o2, f, a, a, b);
        lemma_same(o1);
        assert(grows(o1, o3));
        assert(grows(w.out, o3));
        lemma_kept_on(a, o1, o3);
        lemma_keep_big(Work { out: w.out, temps: without_temp(w.temps, l, ty) }, o3, a, ty);
    } else if op is Pow && is_temp(w.temps, r, ty) {
        lemma_temp(w, r, ty);
        lemma_kept_on(r, w.out, o1);
        lemma_unwrap(o1, r);
        let o3 = run3(o2, f, b, a, b);
        lemma_same(o2);
        assert(grows(o2, o3));
        assert(grows(w.out, o3));
        lemma_kept_on(b, o2, o3);
        lemma_keep_big(Work { out: w.out, temps: without_temp(w.temps, r, ty) }, o3, b, ty);
    } else {
        lemma_big_new(o2, ty);
        let (o3, h) = big_new(o2, ty);
        assert(grows(w.out, o3));
        let o4 = run3(o3, f, h, a, b);
        lemma_same(o3);
        assert(grows(o3, o4));
        assert(grows(w.out, o4));
        lemma_kept_on(h, o3, o4);
        lemma_keep_big(w, o4, h, ty);
    }
}

proof fn lemma_big_binary(w: Work, ty: Type, op: BinOp, l: Value, r: Value)
    requires
        temps_made(w),
    ensures
        step_made(big_binary(w, ty, op, l, r)),
{
    lemma_same(w.out);
    let (o1, v) = compile_order(w.out, op, big_order(ty), l, r);
    assert(grows(w.out, o1));
    lemma_more(w, o1);
    if let Type::BigNum(p) = ty {
        let (o2, a) = unwrap(w.out, l);
        let (o3, b) = unwrap(o2, r);
        assert(grows(w.out, o3));
        lemma_tetration(o3, a, b, p);
        let (o4, h) = compile_bignum_tetration(o3, a, b, p);
        assert(grows(w.out, o4));
        lemma_keep_big(w, o4, h, ty);
    }
    if let Some(f) = big_function(ty, op) {
        lemma_big_arith(w, ty, f, op, l, r);
    }
}

proof fn lemma_big_one(w: Work, ty: Type, v: Value)
    requires
        temps_made(w),
    ensures
        temps_made(big_neg(w, ty, v).0),
        temps_made(bignum_fact(w, v).0),
        temps_made(bigint_fact(w, v).0),
{
    lemma_same(w.out);
    let (o1, p) = unwrap(w.out, v);
    assert(grows(w.out, o1));
    lemma_big_new(o1, ty);
    let (o2, h) = big_new(o1, ty);
    lemma_same(o2);
    assert(grows(w.out, o2));
    let f = if ty is BigNum {
        Rt::BignumNeg
    } else {
        Rt::BigintNeg
    };
    let o3 = run2(o2, f, h, p);
    assert(grows(o2, o3));
    assert(grows(w.out, o3));
    lemma_kept_on(h, o2, o3);
    lemma_keep_big(w, o3, h, ty);
    lemma_factorial(o1, p);
    let (o4, k) = compile_bignum_factorial(o1, p);
    assert(grows(w.out, o4));
    lemma_keep_big(w, o4, k, Type::BigNum(DEFAULT_BIGNUM_PRECISION));
    lemma_handles(o1, Rt::BigintNew, v, 1, v);
    let (o5, n) = call0(o1, Rt::BigintNew);
    lemma_same(o5);
    let o6 = run2(o5, Rt::BigintFactorial, n, p);
    assert(grows(o5, o6));
    assert(grows(w.out, o6));
    lemma_kept_on(n, o5, o6);
    lemma_keep_big(w, o6, n, Type::BigInt);
}

proof fn lemma_bigint_literal(sc: Scope, w: Work, text: Seq<char>)
    requires
        temps_made(w),
    ensures
        temps_made(bigint_literal(sc, w, text).0),
{
    lemma_same(w.out);
    match hoisted(sc.bindings, text, Type::BigInt) {
        Some(k) => {
            let (o, v) = load(w.out, Repr::BigInt, sc.bindings[k].place);
            assert(grows(w.out, o));
            lemma_more(w, o);
        },
        None => {
            let (o1, t) = const_str(w.out, text);
            lemma_handles(o1, Rt::BigintNew, t, 1, t);
            let (o2, h) = call0(o1, Rt::BigintNew);
            lemma_same(o2);
            let o3 = run2(o2, Rt::BigintSetStr, h, t);
            assert(grows(o2, o3));
            assert(grows(w.out, o3));
            lemma_kept_on(h, o2, o3);
            lemma_keep_big(w, o3, h, Type::BigInt);
        },
    }
}

proof fn lemma_literal_with(sc: Scope, w: Work, op: BinOp, text: Seq<char>, other: ExprV, v: Value)
    requires
        temps_made(w),
    ensures
        temps_made(literal_with(sc, w, op, text, other, v).0),
{
    lemma_bigint_literal(sc, w, text);
    lemma_same(w.out);
    own_literal_with(w.out, sc, w, op, text, other, v);
    let t = literal_with(sc, w, op, text, other, v).0;
    if t != bigint_literal(sc, w, text).0 {
        assert(t.temps == w.temps);
        lemma_more(w, t.out);
    }
}

proof fn lemma_combine(sc: Scope, w: Work, e: ExprV, l: Value, r: Value)
    requires
        temps_made(w),
    ensures
        step_made(combine(sc, w, e, l, r)),
{
    lemma_same(w.out);
    if let ExprV::Binary(le, op, re) = e {
        own_compile_concat(w.out, w.out, l, r);
        own_compile_float_binary(w.out, w.out, op, l, r);
        own_compile_bool_binary(w.out, w.out, op, l, r);
        own_compile_int_binary(w.out, w.out, op, l, r);
        let p = bignum_precision(sc.sigs, *le);
        let q = bignum_precision(sc.sigs, *re);
        own_coerce_to_bignum(w.out, w.out, r, p);
        own_coerce_to_bignum(w.out, w.out, l, q);
        lemma_to_bignum(w.out, r, p);
        lemma_to_bignum(w.out, l, q);
        lemma_concat(w.out, l, r);
        if op is Concat {
            if let Ok((o, t)) = compile_concat(w.out, l, r) {
                lemma_keep(w, o, t, Type::Str);
            }
        } else {
            if let Ok((o, t)) = compile_float_binary(w.out, op, l, r) {
                lemma_more(w, o);
            }
            if let Ok((o, t)) = compile_bool_binary(w.out, op, l, r) {
                lemma_more(w, o);
            }
            if let Ok((o, t)) = compile_int_binary(w.out, op, l, r) {
                lemma_more(w, o);
            }
            let big = Type::BigNum(bignum_precision(sc.sigs, e));
            if let Ok((o, b)) = coerce_to_bignum(w.out, r, p) {
                lemma_keep(w, o, b, Type::BigNum(p));
                lemma_big_binary(keep(w, o, b, Type::BigNum(p)), big, op, l, b);
            }
            if let Ok((o, a)) = coerce_to_bignum(w.out, l, q) {
                lemma_keep(w, o, a, Type::BigNum(q));
                lemma_big_binary(keep(w, o, a, Type::BigNum(q)), big, op, a, r);
            }
            lemma_big_binary(w, big, op, l, r);
            lemma_big_binary(w, Type::BigInt, op, l, r);
        }
    }
}

proof fn lemma_combine_one(sc: Scope, w: Work, op: UnOp, inner: ExprV, v: Value)
    requires
        temps_made(w),
    ensures
        step_made(combine_one(sc, w, op, inner, v)),
{
    lemma_big_one(w, Type::BigInt, v);
    lemma_big_one(w, Type::BigNum(bignum_precision(sc.sigs, inner)), v);
    lemma_same(w.out);
    own_combine_one(w.out, sc, w, op, inner, v);
    if let Ok((t, r)) = combine_one(sc, w, op, inner, v) {
        if t.temps == w.temps {
            lemma_more(w, t.out);
        }
    }
}

/// What is stored as a type that owns memory is a temporary that is taken over, or a copy.
proof fn lemma_adopt(w: Work, v: Value, ty: Type)
    requires
        temps_made(w),
    ensures
        step_made(adopt(w, v, ty)),
        owned(ty) ==> (adopt(w, v, ty) matches Ok((t, r)) ==> is_made(r, t.out)),
{
    lemma_temp(w, v, ty);
    lemma_temp(w, v, Type::Str);
    lemma_temp(w, v, Type::File);
    lemma_same(w.out);
    own_coerce_to_type(w.out, w.out, v, ty);
    if owned(ty) {
        lemma_to_type(w.out, v, ty);
    }
    if let Ok((o, r)) = coerce_to_type(w.out, v, ty) {
        lemma_more(w, o);
    }
}

proof fn lemma_expr(sc: Scope, w: Work, e: ExprV)
    requires
        temps_made(w),
    ensures
        step_made(lower_expr(sc, w, e)),
    decreases e, 1int, 0nat,
{
    lemma_same(w.out);
    own_expr(w.out, sc, w, e);
    match e {
        ExprV::Unary(op, inner) => {
            lemma_expr(sc, w, *inner);
            if let Ok((w1, v)) = lower_expr(sc, w, *inner) {
                lemma_combine_one(sc, w1, op, *inner, v);
            }
        },
        ExprV::Binary(_, _, _) => {
            lemma_pair(sc, w, e);
            if let Ok((w1, l, r)) = lower_pair(sc, w, e) {
                lemma_combine(sc, w1, e, l, r);
            }
        },
        ExprV::Call(name, args) => {
            lemma_call(sc, w, name, args);
        },
        ExprV::ArrayIndex(name, ty, index) => {
            if let Type::Array(element) = ty {
                if let Some(k) = variable(sc.bindings, name, ty) {
                    let (o, a) = load(w.out, Repr::Handle, sc.bindings[k].place);
                    let (o, h) = unwrap(o, a);
                    assert(grows(w.out, o));
                    lemma_more(w, o);
                    lemma_expr(sc, with_out(w, o), *index);
                    if let Ok((w1, i)) = lower_expr(sc, with_out(w, o), *index) {
                        if let Ok((o2, p)) = element_place(w1.out, h, i) {
                            lemma_same(w1.out);
                            let (o3, v) = load(o2, repr_of(element_as_type(element)), p);
                            assert(grows(w1.out, o2));
                            assert(grows(w1.out, o3));
                            lemma_more(w1, o3);
                        }
                    }
                }
            }
        },
        ExprV::Length(array) => {
            lemma_expr(sc, w, *array);
            if let Ok((w1, v)) = lower_expr(sc, w, *array) {
                lemma_same(w1.out);
                let (o, h) = unwrap(w1.out, v);
                let (o, n) = call1(o, Rt::ArrayLength, h);
                let (o, r) = give1(o, Op::IntToFloat, n, Repr::Float(64));
                assert(grows(w1.out, o));
                lemma_more(w1, o);
            }
        },
        _ => {
            if let Ok((t, v)) = lower_expr(sc, w, e) {
                lemma_more(w, t.out);
            }
        },
    }
}

proof fn lemma_pair(sc: Scope, w: Work, e: ExprV)
    requires
        temps_made(w),
    ensures
        lower_pair(sc, w, e) matches Ok((t, l, r)) ==> temps_made(t),
    decreases e, 0int, 0nat,
{
    if let ExprV::Binary(l, op, r) = e {
        match (*l, *r) {
            (ExprV::Num(a), ExprV::Num(b)) => {
                lemma_same(w.out);
                let (o, x) = const_float(w.out, a);
                let (o, y) = const_float(o, b);
                assert(grows(w.out, o));
                lemma_more(w, o);
            },
            (ExprV::Num(text), other) => {
                lemma_expr(sc, w, other);
                if let Ok((w1, y)) = lower_expr(sc, w, other) {
                    lemma_literal_with(sc, w1, op, text, other, y);
                }
            },
            (other, ExprV::Num(text)) => {
                lemma_expr(sc, w, other);
                if let Ok((w1, x)) = lower_expr(sc, w, other) {
                    lemma_literal_with(sc, w1, op, text, other, x);
                }
            },
            (left, right) => {
                lemma_expr(sc, w, left);
                if let Ok((w1, x)) = lower_expr(sc, w, left) {
                    lemma_expr(sc, w1, right);
                }
            },
        }
    }
}

proof fn lemma_args(sc: Scope, w: Work, args: Seq<ExprV>, params: Seq<Type>, n: nat)
    requires
        temps_made(w),
    ensures
        lower_args(sc, w, args, params, n) matches Ok((t, vs)) ==> temps_made(t),
    decreases args, 1int, n,
{
    if 0 < n <= args.len() {
        lemma_args(sc, w, args, params, (n - 1) as nat);
        if let Ok((w1, vs)) = lower_args(sc, w, args, params, (n - 1) as nat) {
            lemma_for(sc, w1, args[n - 1], params[n - 1]);
        }
    }
}

proof fn lemma_call(sc: Scope, w: Work, name: Seq<char>, args: Seq<ExprV>)
    requires
        temps_made(w),
    ensures
        step_made(lower_call(sc, w, name, args)),
    decreases args, 2int, 0nat,
{
    if let Some(k) = sig_place(sc.sigs, name, sc.sigs.len() as int) {
        let sig = sc.sigs[k];
        lemma_args(sc, w, args, sig.params, args.len());
        if let Ok((w1, vs)) = lower_args(sc, w, args, sig.params, args.len()) {
            let repr = repr_of(sig.return_type);
            lemma_function(w1.out, k as usize, vs, repr);
            let (o, v) = call_function(w1.out, k as usize, vs, repr);
            lemma_same(w1.out);
            assert(grows(w1.out, o));
            lemma_keep(w1, o, v, sig.return_type);
            lemma_more(w1, o);
        }
    }
}

proof fn lemma_int(sc: Scope, w: Work, e: ExprV)
    requires
        temps_made(w),
    ensures
        step_made(lower_int(sc, w, e)),
    decreases e, 2int, 0nat,
{
    match e {
        ExprV::Num(text) => {
            lemma_same(w.out);
            let (o, v) = const_int(w.out, 64, int_literal(text));
            assert(grows(w.out, o));
            lemma_more(w, o);
        },
        ExprV::Binary(l, op, r) => {
            lemma_int(sc, w, *l);
            if let Ok((w1, x)) = lower_int(sc, w, *l) {
                lemma_int(sc, w1, *r);
                if let Ok((w2, y)) = lower_int(sc, w1, *r) {
                    lemma_same(w2.out);
                    own_compile_int_binary(w2.out, w2.out, op, x, y);
                    if let Ok((o, v)) = compile_int_binary(w2.out, op, x, y) {
                        lemma_more(w2, o);
                    }
                }
            }
        },
        ExprV::Unary(op, inner) => {
            lemma_int(sc, w, *inner);
            if let Ok((w1, v)) = lower_int(sc, w, *inner) {
                lemma_same(w1.out);
                let o = compile_int_neg(w1.out, v).0;
                let q = compile_int_factorial(w1.out, v).0;
                assert(grows(w1.out, o));
                assert(grows(w1.out, q));
                lemma_more(w1, o);
                lemma_more(w1, q);
            }
        },
        _ => {
            lemma_expr(sc, w, e);
        },
    }
}

proof fn lemma_bigint(sc: Scope, w: Work, e: ExprV)
    requires
        temps_made(w),
    ensures
        step_made(lower_bigint(sc, w, e)),
    decreases e, 2int, 0nat,
{
    match e {
        ExprV::Num(text) => {
            lemma_bigint_literal(sc, w, text);
        },
        ExprV::Binary(l, op, r) => {
            lemma_bigint(sc, w, *l);
            if let Ok((w1, x)) = lower_bigint(sc, w, *l) {
                lemma_bigint(sc, w1, *r);
                if let Ok((w2, y)) = lower_bigint(sc, w1, *r) {
                    lemma_big_binary(w2, Type::BigInt, op, x, y);
                }
            }
        },
        ExprV::Unary(op, inner) => {
            lemma_bigint(sc, w, *inner);
            if let Ok((w1, v)) = lower_bigint(sc, w, *inner) {
                lemma_big_one(w1, Type::BigInt, v);
            }
        },
        _ => {
            lemma_expr(sc, w, e);
        },
    }
}

proof fn lemma_elements(sc: Scope, w: Work, h: Value, es: Seq<ExprV>, element: ElementType, n: nat)
    requires
        temps_made(w),
    ensures
        lower_elements(sc, w, h, es, element, n) matches Ok(t) ==> temps_made(t),
    decreases es, 1int, n,
{
    if 0 < n <= es.len() {
        lemma_elements(sc, w, h, es, element, (n - 1) as nat);
        if let Ok(w1) = lower_elements(sc, w, h, es, element, (n - 1) as nat) {
            lemma_for(sc, w1, es[n - 1], element_as_type(element));
            if let Ok((w2, v)) = lower_for(sc, w1, es[n - 1], element_as_type(element)) {
                lemma_same(w2.out);
                own_append(w2.out, w2.out, h, v, element);
                lemma_more(w2, append(w2.out, h, v, element));
            }
        }
    }
}

proof fn lemma_for(sc: Scope, w: Work, e: ExprV, ty: Type)
    requires
        temps_made(w),
    ensures
        step_made(lower_for(sc, w, e, ty)),
        owned(ty) ==> (lower_for(sc, w, e, ty) matches Ok((t, v)) ==> is_made(v, t.out)),
    decreases e, 3int, 0nat,
{
    lemma_same(w.out);
    match (e, ty) {
        (ExprV::Num(text), Type::BigNum(p)) => {
            let (o, t) = const_str(w.out, text);
            assert(grows(w.out, o));
            own_coerce_to_bignum(w.out, o, t, p);
            lemma_to_bignum(o, t, p);
            if let Ok((q, v)) = coerce_to_bignum(o, t, p) {
                lemma_more(w, q);
            }
        },
        (ExprV::Num(text), Type::BigInt) => {
            let (o, t) = const_str(w.out, text);
            assert(grows(w.out, o));
            own_coerce_to_bigint(w.out, o, t);
            lemma_to_bigint(o, t);
            if let Ok((q, v)) = coerce_to_bigint(o, t) {
                lemma_more(w, q);
            }
        },
        (ExprV::ArrayLiteral(es), Type::Array(element)) => {
            let (o, size) = size_of(w.out, repr_of(element_as_type(element)));
            lemma_handles(o, Rt::ArrayNew, size, 1, size);
            let (o1, h) = call1(o, Rt::ArrayNew, size);
            assert(grows(w.out, o1));
            lemma_more(w, o1);
            lemma_elements(sc, with_out(w, o1), h, es, element, es.len());
            lemma_same(o1);
            own_elements(o1, sc, with_out(w, o1), h, es, element, es.len());
            if let Ok(w1) = lower_elements(sc, with_out(w, o1), h, es, element, es.len()) {
                lemma_wrap_later(o1, w1.out, Repr::Handle, h);
                lemma_same(w1.out);
                let (o2, v) = wrap(w1.out, Repr::Handle, h);
                assert(grows(w1.out, o2));
                lemma_more(w1, o2);
            }
        },
        _ => {
            if spreads_over(e) && ty is Int {
                lemma_int(sc, w, e);
                if let Ok((w1, v)) = lower_int(sc, w, e) {
                    lemma_same(w1.out);
                    let o = coerce_int_width(w1.out, v, ty->Int_0).0;
                    assert(grows(w1.out, o));
                    lemma_more(w1, o);
                }
            } else if spreads_over(e) && ty is BigInt {
                lemma_bigint(sc, w, e);
                if let Ok((w1, v)) = lower_bigint(sc, w, e) {
                    lemma_adopt(w1, v, ty);
                }
            } else {
                lemma_expr(sc, w, e);
                if let Ok((w1, v)) = lower_expr(sc, w, e) {
                    lemma_adopt(w1, v, ty);
                }
            }
        },
    }
}

/// Every value that is stored, passed or returned and owns memory is its own: it was copied or
/// constructed, in the code of the expression or as a temporary that is taken over. So it is never what
/// a variable or an element holds, and no two of them share memory.
pub proof fn stored_values_are_their_own(sc: Scope, w: Work, e: ExprV, ty: Type)
    requires
        temps_made(w),
        owned(ty),
    ensures
        lower_for(sc, w, e, ty) matches Ok((t, v)) ==> is_made(v, t.out) && temps_made(t),
{
    lemma_for(sc, w, e, ty);
}

/// What a reference gives, on the other hand, was not made: it is what the variable or the element
/// holds.
pub proof fn references_give_what_is_held(sc: Scope, w: Work, name: Seq<char>, ty: Type)
    ensures
        lower_expr(sc, w, ExprV::Var(name, ty)) matches Ok((t, v)) ==> t.out.code.len() <= usize::MAX
            ==> t.out.code[v.id as int].op is Load && !made(t.out.code, v.id as int),
{
    reveal(load);
    reveal(give1);
    reveal(emit);
}

} // verus!
