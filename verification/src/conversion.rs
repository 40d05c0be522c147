//! What becomes of one number when a program runs: negation and factorial of a bignum or a bigint, literals,
//! and values that are made into a bignum or a bigint of their own.

use vstd::prelude::*;
use crate::ast::Type;
use crate::bigs::{is_object, kept_but, lemma_new_runs, lemma_unwrap_runs, lemma_wrap_runs, of_type};
use crate::branching::lemma_inside;
use crate::confined::{lemma_same, own_bignum_new, own_call0, own_coerce_float, own_unwrap};
use crate::emit::{
    coerce_float, coerce_to_bigint, coerce_to_bignum, const_str, give0, give1, load, run2, unwrap, wrap, Out,
};
use crate::floats::{at_width, float_widths_change, is_float};
use crate::fold::factorial;
use crate::ir::{repr_of, InstV, Op, Repr, Rt, Value};
use crate::lower::{big_neg, big_new, bigint_fact, bigint_literal, hoisted, Scope, Work};
use crate::machine::{
    bigint_call, bignum_call, changed_object, float, given, lemma_emit, lemma_here, lemma_step, lemma_then, object,
    other_step, reaches, step, text, within, Cell, Machine, Object, World,
};
use crate::numeral::whole_value;

verus! {

/// The number that is left in the number `h` when it is filled from `v`.
spec fn filling(m: Machine, f: Rt, h: usize, v: usize) -> Option<Object> {
    let w = m.around.world;
    match (f, object(m, h)) {
        (Rt::BignumSetD, Some(Object::Decimal(p, _))) => Some(Object::Decimal(p, (w.big_float)(p, float(m, v)))),
        (Rt::BignumSetStr, Some(Object::Decimal(p, _))) => match text(m, v) {
            Some(t) => Some(Object::Decimal(p, (w.big_text)(p, t))),
            None => None,
        },
        (Rt::BignumCopy, Some(Object::Decimal(p, _))) => match object(m, v) {
            Some(Object::Decimal(_, x)) => Some(Object::Decimal(p, (w.big_round)(p, x))),
            _ => None,
        },
        (Rt::BignumNeg, Some(Object::Decimal(p, _))) => match object(m, v) {
            Some(Object::Decimal(_, x)) => Some(Object::Decimal(p, (w.big_negative)(p, x))),
            _ => None,
        },
        (Rt::BigintSetStr, Some(Object::Whole(_))) => match text(m, v) {
            Some(t) => Some(Object::Whole(whole_value(t) as int)),
            None => None,
        },
        (Rt::BigintCopy, Some(Object::Whole(_))) => match object(m, v) {
            Some(Object::Whole(x)) => Some(Object::Whole(x)),
            _ => None,
        },
        (Rt::BigintNeg, Some(Object::Whole(_))) => match object(m, v) {
            Some(Object::Whole(x)) => Some(Object::Whole(-x)),
            _ => None,
        },
        (Rt::BigintFactorial, Some(Object::Whole(_))) => match object(m, v) {
            Some(Object::Whole(x)) => Some(Object::Whole(factorial(if x < 0 { 0 } else { x as nat }) as int)),
            _ => None,
        },
        _ => None,
    }
}

proof fn lemma_fill_inside(code: Seq<InstV>, o: Out, f: Rt, h: Value, v: Value, repr: Repr)
    requires
        within(code, wrap(run2(o, f, h, v), repr, h).0),
    ensures
        within(code, run2(o, f, h, v)),
        within(code, o),
        run2(o, f, h, v).code.len() == o.code.len() + 1,
        wrap(run2(o, f, h, v), repr, h).0.code.len() == o.code.len() + 2,
        wrap(run2(o, f, h, v), repr, h).1.id == o.code.len() + 1,
        wrap(run2(o, f, h, v), repr, h).1.repr == repr,
{
    reveal(wrap);
    reveal(give1);
    reveal(run2);
    lemma_emit(code, run2(o, f, h, v), Op::Wrap(repr), seq![h.id], ""@);
    lemma_emit(code, o, Op::Call(f), seq![h.id, v.id], ""@);
}

/// A new number is filled and given.
proof fn lemma_fill_runs(code: Seq<InstV>, o: Out, f: Rt, h: Value, v: Value, repr: Repr, m: Machine, a: int, z: Object) -> (t: Machine)
    requires
        within(code, wrap(run2(o, f, h, v), repr, h).0),
        m.next == o.code.len(),
        m.cells[h.id as int] == Cell::Object(a),
        0 <= a < m.around.heap.len(),
        h.id < o.code.len(),
        filling(m, f, h.id, v.id) == Some(z),
    ensures
        reaches(code, m, t),
        t.next == o.code.len() + 2,
        is_object(t, wrap(run2(o, f, h, v), repr, h).1, a, z),
        kept_but(m, t, o.code.len() as int, a),
        t.around.heap.len() == m.around.heap.len(),
{
    lemma_fill_inside(code, o, f, h, v, repr);
    lemma_here(code, m);
    assert(code[o.code.len() as int] == (InstV { op: Op::Call(f), args: seq![h.id, v.id], text: ""@ })) by {
        reveal(run2);
        lemma_emit(code, o, Op::Call(f), seq![h.id, v.id], ""@);
    }
    assert(step(code, m) == changed_object(m, h.id, z)) by {
        reveal(step);
        reveal(other_step);
        reveal(bignum_call);
        reveal(bigint_call);
    }
    let m1 = lemma_step(code, m, m);
    let t = lemma_wrap_runs(code, run2(o, f, h, v), repr, h, m1);
    lemma_then(code, m, m1, t);
    t
}

proof fn lemma_new_inside(code: Seq<InstV>, o: Out, ty: Type)
    requires
        ty is BigNum || ty is BigInt,
        within(code, big_new(o, ty).0),
    ensures
        within(code, o),
{
    lemma_same(o);
    if let Type::BigNum(p) = ty {
        own_bignum_new(o, o, p);
    } else {
        own_call0(o, o, Rt::BigintNew);
    }
    lemma_inside(code, o, big_new(o, ty).0);
}

/// What is made of a number is a number of its own: it is in an object that was not there before, and every
/// other object is as it was.
pub open spec fn made_apart(m: Machine, t: Machine, n: int, v: Value, z: Object) -> bool {
    &&& is_object(t, v, m.around.heap.len() as int, z)
    &&& kept_but(m, t, n, -1)
}

/// The negative of a number of type `ty`.
pub open spec fn negated(w: World, ty: Type, x: Object) -> Object {
    match (ty, x) {
        (Type::BigNum(p), Object::Decimal(_, a)) => Object::Decimal(p as int, (w.big_negative)(p as int, a)),
        (_, Object::Whole(a)) => Object::Whole(-a),
        _ => x,
    }
}

/// A minus in front of a bignum or a bigint gives its negative, in a number of its own.
pub proof fn big_negations_compute(code: Seq<InstV>, w: Work, ty: Type, v: Value, m: Machine, a: int, x: Object) -> (t: Machine)
    requires
        ty is BigNum || ty is BigInt,
        within(code, big_neg(w, ty, v).0.out),
        m.next == w.out.code.len(),
        is_object(m, v, a, x),
        of_type(ty, x),
        v.id < w.out.code.len(),
    ensures
        reaches(code, m, t),
        t.next == big_neg(w, ty, v).0.out.code.len(),
        big_neg(w, ty, v).1.repr == repr_of(ty),
        made_apart(m, t, w.out.code.len() as int, big_neg(w, ty, v).1, negated(m.around.world, ty, x)),
{
    let f = if ty is BigNum {
        Rt::BignumNeg
    } else {
        Rt::BigintNeg
    };
    let (o1, p) = unwrap(w.out, v);
    let (o2, h) = big_new(o1, ty);
    lemma_fill_inside(code, o2, f, h, p, repr_of(ty));
    lemma_new_inside(code, o1, ty);
    let m1 = lemma_unwrap_runs(code, w.out, v, m);
    let m2 = lemma_new_runs(code, o1, ty, m1);
    lemma_then(code, m, m1, m2);
    let h0 = m.around.heap.len() as int;
    assert(m2.cells[p.id as int] == m1.cells[p.id as int]);
    assert(m2.around.heap[a] == m.around.heap[a]);
    let t = lemma_fill_runs(code, o2, f, h, p, repr_of(ty), m2, h0, negated(m.around.world, ty, x));
    lemma_then(code, m, m2, t);
    t
}

/// The factorial of a bigint is the product of the whole numbers up to it, in a number of its own; that of a
/// negative one is 1.
pub proof fn bigint_factorials_compute(code: Seq<InstV>, w: Work, v: Value, m: Machine, a: int, x: int) -> (t: Machine)
    requires
        within(code, bigint_fact(w, v).0.out),
        m.next == w.out.code.len(),
        is_object(m, v, a, Object::Whole(x)),
        v.id < w.out.code.len(),
    ensures
        reaches(code, m, t),
        t.next == bigint_fact(w, v).0.out.code.len(),
        bigint_fact(w, v).1.repr == Repr::BigInt,
        made_apart(
            m,
            t,
            w.out.code.len() as int,
            bigint_fact(w, v).1,
            Object::Whole(factorial(if x < 0 { 0 } else { x as nat }) as int),
        ),
{
    let z = Object::Whole(factorial(if x < 0 { 0 } else { x as nat }) as int);
    let (o1, p) = unwrap(w.out, v);
    let (o2, h) = big_new(o1, Type::BigInt);
    lemma_fill_inside(code, o2, Rt::BigintFactorial, h, p, Repr::BigInt);
    lemma_new_inside(code, o1, Type::BigInt);
    let m1 = lemma_unwrap_runs(code, w.out, v, m);
    let m2 = lemma_new_runs(code, o1, Type::BigInt, m1);
    lemma_then(code, m, m1, m2);
    assert(m2.cells[p.id as int] == m1.cells[p.id as int]);
    assert(m2.around.heap[a] == m.around.heap[a]);
    let t = lemma_fill_runs(code, o2, Rt::BigintFactorial, h, p, Repr::BigInt, m2, m.around.heap.len() as int, z);
    lemma_then(code, m, m2, t);
    t
}

/// A bigint literal is the whole number that its digits denote: made in a number of its own, or read from the
/// place where it was made before a loop.
pub proof fn bigint_literals_are_their_number(code: Seq<InstV>, sc: Scope, w: Work, s: Seq<char>, m: Machine) -> (t: Machine)
    requires
        within(code, bigint_literal(sc, w, s).0.out),
        m.next == w.out.code.len(),
    ensures
        reaches(code, m, t),
        t.next == bigint_literal(sc, w, s).0.out.code.len(),
        bigint_literal(sc, w, s).1.repr == Repr::BigInt,
        match hoisted(sc.bindings, s, Type::BigInt) {
            Some(k) => t.cells[bigint_literal(sc, w, s).1.id as int] == m.stored[sc.bindings[k].place.id as int],
            None => made_apart(
                m,
                t,
                w.out.code.len() as int,
                bigint_literal(sc, w, s).1,
                Object::Whole(whole_value(s) as int),
            ),
        },
{
    lemma_here(code, m);
    match hoisted(sc.bindings, s, Type::BigInt) {
        Some(k) => {
            let place = sc.bindings[k].place;
            reveal(load);
            reveal(give1);
            reveal(step);
            lemma_emit(code, w.out, Op::Load(Repr::BigInt), seq![place.id], ""@);
            lemma_step(code, m, m)
        },
        None => {
            let (o1, c) = const_str(w.out, s);
            let (o2, h) = big_new(o1, Type::BigInt);
            lemma_fill_inside(code, o2, Rt::BigintSetStr, h, c, Repr::BigInt);
            lemma_new_inside(code, o1, Type::BigInt);
            reveal(const_str);
            reveal(give0);
            lemma_emit(code, w.out, Op::ConstStr, Seq::empty(), s);
            assert(step(code, m) == given(m, Cell::Text(s))) by {
                reveal(step);
            }
            let m1 = lemma_step(code, m, m);
            let m2 = lemma_new_runs(code, o1, Type::BigInt, m1);
            lemma_then(code, m, m1, m2);
            assert(m2.cells[c.id as int] == m1.cells[c.id as int]);
            let t = lemma_fill_runs(
                code,
                o2,
                Rt::BigintSetStr,
                h,
                c,
                Repr::BigInt,
                m2,
                m.around.heap.len() as int,
                Object::Whole(whole_value(s) as int),
            );
            lemma_then(code, m, m2, t);
            t
        },
    }
}

/// The value that is made into a number: a float, a numeral or a number.
pub enum Source {
    Float(u32, int),
    Numeral(Seq<char>),
    Number(int, Object),
}

/// The value `v` is the value `s`.
pub open spec fn comes_from(m: Machine, v: Value, s: Source) -> bool {
    match s {
        Source::Float(width, x) => is_float(m, v, width, x),
        Source::Numeral(t) => v.repr == Repr::Ptr && text(m, v.id) == Some(t),
        Source::Number(a, x) => is_object(m, v, a, x) && ((v.repr == Repr::Handle && x is Decimal) || (v.repr
            == Repr::BigInt && x is Whole)),
    }
}

/// What a value is as a bignum of precision `p`.
pub open spec fn as_bignum(w: World, p: u32, s: Source) -> Object {
    match s {
        Source::Float(width, x) => Object::Decimal(p as int, (w.big_float)(p as int, at_width(w, width, 64, x))),
        Source::Numeral(t) => Object::Decimal(p as int, (w.big_text)(p as int, t)),
        Source::Number(_, Object::Decimal(_, x)) => Object::Decimal(p as int, (w.big_round)(p as int, x)),
        Source::Number(_, x) => x,
    }
}

/// A value that is made into a bignum gives a number of its own, with the precision that is asked for: a float
/// or a numeral what it denotes, and a bignum its own value, rounded.
pub proof fn bignums_are_made_of_their_value(code: Seq<InstV>, o: Out, v: Value, p: u32, m: Machine, s: Source) -> (t: Machine)
    requires
        coerce_to_bignum(o, v, p) is Ok,
        within(code, coerce_to_bignum(o, v, p)->Ok_0.0),
        m.next == o.code.len(),
        comes_from(m, v, s),
        v.id < o.code.len(),
    ensures
        reaches(code, m, t),
        t.next == coerce_to_bignum(o, v, p)->Ok_0.0.code.len(),
        coerce_to_bignum(o, v, p)->Ok_0.1.repr == Repr::Handle,
        made_apart(m, t, o.code.len() as int, coerce_to_bignum(o, v, p)->Ok_0.1, as_bignum(m.around.world, p, s)),
{
    reveal(coerce_to_bignum);
    let ty = Type::BigNum(p);
    let h0 = m.around.heap.len() as int;
    let z = as_bignum(m.around.world, p, s);
    let (o1, h) = big_new(o, ty);
    match s {
        Source::Float(width, x) => {
            let (o2, f) = coerce_float(o1, v, 64);
            lemma_fill_inside(code, o2, Rt::BignumSetD, h, f, Repr::Handle);
            lemma_same(o1);
            own_coerce_float(o1, o1, v, 64);
            lemma_inside(code, o1, o2);
            let m1 = lemma_new_runs(code, o, ty, m);
            let m2 = float_widths_change(code, o1, v, width, 64, m1, x);
            lemma_then(code, m, m1, m2);
            let t = lemma_fill_runs(code, o2, Rt::BignumSetD, h, f, Repr::Handle, m2, h0, z);
            lemma_then(code, m, m2, t);
            t
        },
        Source::Numeral(_) => {
            lemma_fill_inside(code, o1, Rt::BignumSetStr, h, v, Repr::Handle);
            let m1 = lemma_new_runs(code, o, ty, m);
            assert(m1.cells[v.id as int] == m.cells[v.id as int]);
            assert(text(m1, v.id) == text(m, v.id));
            let t = lemma_fill_runs(code, o1, Rt::BignumSetStr, h, v, Repr::Handle, m1, h0, z);
            lemma_then(code, m, m1, t);
            t
        },
        Source::Number(a, x) => {
            let (o2, q) = unwrap(o1, v);
            lemma_fill_inside(code, o2, Rt::BignumCopy, h, q, Repr::Handle);
            lemma_same(o1);
            own_unwrap(o1, o1, v);
            lemma_inside(code, o1, o2);
            let m1 = lemma_new_runs(code, o, ty, m);
            let m2 = lemma_unwrap_runs(code, o1, v, m1);
            lemma_then(code, m, m1, m2);
            assert(m1.around.heap[a] == m.around.heap[a]);
            let t = lemma_fill_runs(code, o2, Rt::BignumCopy, h, q, Repr::Handle, m2, h0, z);
            lemma_then(code, m, m2, t);
            t
        },
    }
}

/// What a value is as a bigint.
pub open spec fn as_bigint(s: Source) -> Object {
    match s {
        Source::Numeral(t) => Object::Whole(whole_value(t) as int),
        Source::Number(_, x) => x,
        Source::Float(_, _) => Object::Whole(0),
    }
}

/// A value that is made into a bigint gives a number of its own: a numeral what it denotes, and a bigint its own
/// value.
pub proof fn bigints_are_made_of_their_value(code: Seq<InstV>, o: Out, v: Value, m: Machine, s: Source) -> (t: Machine)
    requires
        coerce_to_bigint(o, v) is Ok,
        within(code, coerce_to_bigint(o, v)->Ok_0.0),
        m.next == o.code.len(),
        comes_from(m, v, s),
        v.id < o.code.len(),
    ensures
        reaches(code, m, t),
        t.next == coerce_to_bigint(o, v)->Ok_0.0.code.len(),
        coerce_to_bigint(o, v)->Ok_0.1.repr == Repr::BigInt,
        made_apart(m, t, o.code.len() as int, coerce_to_bigint(o, v)->Ok_0.1, as_bigint(s)),
{
    reveal(coerce_to_bigint);
    let ty = Type::BigInt;
    let h0 = m.around.heap.len() as int;
    let z = as_bigint(s);
    let (o1, h) = big_new(o, ty);
    match s {
        Source::Numeral(_) => {
            lemma_fill_inside(code, o1, Rt::BigintSetStr, h, v, Repr::BigInt);
            let m1 = lemma_new_runs(code, o, ty, m);
            assert(m1.cells[v.id as int] == m.cells[v.id as int]);
            assert(text(m1, v.id) == text(m, v.id));
            let t = lemma_fill_runs(code, o1, Rt::BigintSetStr, h, v, Repr::BigInt, m1, h0, z);
            lemma_then(code, m, m1, t);
            t
        },
        Source::Number(a, x) => {
            let (o2, q) = unwrap(o1, v);
            lemma_fill_inside(code, o2, Rt::BigintCopy, h, q, Repr::BigInt);
            lemma_same(o1);
            own_unwrap(o1, o1, v);
            lemma_inside(code, o1, o2);
            let m1 = lemma_new_runs(code, o, ty, m);
            let m2 = lemma_unwrap_runs(code, o1, v, m1);
            lemma_then(code, m, m1, m2);
            assert(m1.around.heap[a] == m.around.heap[a]);
            let t = lemma_fill_runs(code, o2, Rt::BigintCopy, h, q, Repr::BigInt, m2, h0, z);
            lemma_then(code, m, m2, t);
            t
        },
        Source::Float(_, _) => m,
    }
}

} // verus!
