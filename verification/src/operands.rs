//! Operators in expressions on bignums, bigints and texts: each is applied to the value of its left operand on the
//! left and to that of its right operand on the right.

use vstd::prelude::*;
use crate::ast::{BinOp, ExprV, Type, UnOp};
use crate::bigs::{
    big_height_ends, big_holds, big_meaning, big_operators_compute, fits_type, is_object, kept_but, of_type, reused,
};
use crate::branching::lemma_inside;
use crate::confined::{lemma_same, own_coerce_to_bignum};
use crate::control::own_big_binary;
use crate::conversion::{
    as_bignum, big_negations_compute, bigint_factorials_compute, bignums_are_made_of_their_value, comes_from,
    made_apart, negated, Source,
};
use crate::emit::{bignum_new, call1, coerce_float, coerce_to_bignum, coerce_to_type, give1, run2, wrap, Out};
use crate::fold::factorial;
use crate::ir::{repr_of, InstV, Op, Repr, Rt, Value};
use crate::joining::{is_shown, text_for, texts_are_joined, Shown};
use crate::lower::{bignum_precision, combine, combine_one, keep, Scope, Work};
use crate::machine::{
    holds, lemma_emit, lemma_here, lemma_step, lemma_then, made_object, other_step, reaches, same_before, step, stops,
    text, text_call, truth, within, Machine, Object, World,
};
use crate::typing::{is_arithmetic, is_comparison};

verus! {

/// The type of the numbers that an operator of the expression `e` works on: `bigint`, or `bignum` with the
/// precision of the expression.
pub open spec fn number_type(sc: Scope, e: ExprV, v: Value) -> Type {
    if v.repr == Repr::BigInt {
        Type::BigInt
    } else {
        Type::BigNum(bignum_precision(sc.sigs, e))
    }
}

/// An operator between two bignums or two bigints applies to the left one and the right one, in this order.
pub proof fn operators_apply_to_bigs_in_order(
    code: Seq<InstV>,
    sc: Scope,
    w: Work,
    le: ExprV,
    op: BinOp,
    re: ExprV,
    l: Value,
    r: Value,
    m: Machine,
    la: int,
    ra: int,
    x: Object,
    y: Object,
) -> (t: Machine)
    requires
        is_arithmetic(op) || is_comparison(op),
        l.repr == r.repr,
        l.repr == Repr::Handle || l.repr == Repr::BigInt,
        within(code, combine(sc, w, ExprV::Binary(Box::new(le), op, Box::new(re)), l, r)->Ok_0.0.out),
        m.next == w.out.code.len(),
        is_object(m, l, la, x),
        is_object(m, r, ra, y),
        l.id < w.out.code.len(),
        r.id < w.out.code.len(),
        ({
            let ty = number_type(sc, ExprV::Binary(Box::new(le), op, Box::new(re)), l);
            &&& of_type(ty, x)
            &&& of_type(ty, y)
            &&& fits_type(w, ty, l, x)
            &&& fits_type(w, ty, r, y)
            &&& big_height_ends(m.around.world, ty, op, y)
        }),
    ensures
        ({
            let e = ExprV::Binary(Box::new(le), op, Box::new(re));
            let ty = number_type(sc, e, l);
            let (end, v) = combine(sc, w, e, l, r)->Ok_0;
            let n = w.out.code.len() as int;
            if is_comparison(op) {
                &&& reaches(code, m, t)
                &&& t.next == end.out.code.len()
                &&& v.repr == Repr::Int(1)
                &&& holds(t, v, truth(big_holds(m.around.world, op, x, y)))
                &&& same_before(m, t, n)
            } else {
                match big_meaning(m.around.world, ty, op, x, y) {
                    Some(z) => {
                        &&& reaches(code, m, t)
                        &&& t.next == end.out.code.len()
                        &&& v.repr == repr_of(ty)
                        &&& exists|a: int| #[trigger] is_object(t, v, a, z)
                        &&& kept_but(m, t, n, reused(w, ty, op, l, r, la, ra))
                    },
                    None => stops(code, m),
                }
            }
        }),
{
    let ty = number_type(sc, ExprV::Binary(Box::new(le), op, Box::new(re)), l);
    big_operators_compute(code, w, ty, op, l, r, m, la, ra, x, y)
}

/// A num and a bignum as the operands of an operator: the left one and the right one, both as bignums of
/// precision `p`.
pub open spec fn left_one(w: World, p: u32, num_on_the_left: bool, width: u32, f: int, b: int) -> Object {
    if num_on_the_left {
        as_bignum(w, p, Source::Float(width, f))
    } else {
        Object::Decimal(p as int, b)
    }
}

pub open spec fn right_one(w: World, p: u32, num_on_the_left: bool, width: u32, f: int, b: int) -> Object {
    left_one(w, p, !num_on_the_left, width, f, b)
}

/// The value `v` is the answer of a comparison of `x` with `y`.
pub open spec fn answers(m: Machine, t: Machine, op: BinOp, v: Value, x: Object, y: Object) -> bool {
    v.repr == Repr::Int(1) && holds(t, v, truth(big_holds(m.around.world, op, x, y)))
}

/// The value `v` is the bignum that an operator gives for `x` and `y`.
pub open spec fn amounts_to(m: Machine, t: Machine, p: u32, op: BinOp, v: Value, x: Object, y: Object) -> bool {
    v.repr == Repr::Handle && exists|a: int|
        #[trigger] is_object(t, v, a, big_meaning(m.around.world, Type::BigNum(p), op, x, y)->0)
}

/// Where a num stands on one side of an operator and a bignum on the other, the num is made into a bignum, and
/// the operator applies to the left one and the right one, in this order.
pub proof fn nums_join_bignums(
    code: Seq<InstV>,
    sc: Scope,
    w: Work,
    le: ExprV,
    op: BinOp,
    re: ExprV,
    l: Value,
    r: Value,
    m: Machine,
    num_on_the_left: bool,
    width: u32,
    f: int,
    at: int,
    b: int,
) -> (t: Machine)
    requires
        is_arithmetic(op) || is_comparison(op),
        combine(sc, w, ExprV::Binary(Box::new(le), op, Box::new(re)), l, r) is Ok,
        within(code, combine(sc, w, ExprV::Binary(Box::new(le), op, Box::new(re)), l, r)->Ok_0.0.out),
        m.next == w.out.code.len(),
        l.id < w.out.code.len(),
        r.id < w.out.code.len(),
        ({
            let (num, big, be) = if num_on_the_left {
                (l, r, re)
            } else {
                (r, l, le)
            };
            let p = bignum_precision(sc.sigs, ExprV::Binary(Box::new(le), op, Box::new(re)));
            &&& bignum_precision(sc.sigs, be) == p
            &&& comes_from(m, num, Source::Float(width, f))
            &&& big.repr == Repr::Handle
            &&& is_object(m, big, at, Object::Decimal(p as int, b))
            &&& big_height_ends(
                m.around.world,
                Type::BigNum(p),
                op,
                if num_on_the_left {
                    Object::Decimal(p as int, b)
                } else {
                    as_bignum(m.around.world, p, Source::Float(width, f))
                },
            )
        }),
    ensures
        reaches(code, m, t),
        ({
            let e = ExprV::Binary(Box::new(le), op, Box::new(re));
            let p = bignum_precision(sc.sigs, e);
            let world = m.around.world;
            let x = left_one(world, p, num_on_the_left, width, f, b);
            let y = right_one(world, p, num_on_the_left, width, f, b);
            &&& t.next == combine(sc, w, e, l, r)->Ok_0.0.out.code.len()
            &&& kept_but(m, t, w.out.code.len() as int, at)
            &&& is_comparison(op) ==> answers(m, t, op, combine(sc, w, e, l, r)->Ok_0.1, x, y)
            &&& !is_comparison(op) ==> amounts_to(m, t, p, op, combine(sc, w, e, l, r)->Ok_0.1, x, y)
        }),
{
    let e = ExprV::Binary(Box::new(le), op, Box::new(re));
    let p = bignum_precision(sc.sigs, e);
    let ty = Type::BigNum(p);
    let num = if num_on_the_left {
        l
    } else {
        r
    };
    let s = Source::Float(width, f);
    let (o1, c) = coerce_to_bignum(w.out, num, p)->Ok_0;
    let w1 = keep(w, o1, c, ty);
    let end = combine(sc, w, e, l, r)->Ok_0.0.out;
    lemma_same(o1);
    if num_on_the_left {
        own_big_binary(o1, w1, ty, op, c, r);
    } else {
        own_big_binary(o1, w1, ty, op, l, c);
    }
    lemma_inside(code, o1, end);
    let m1 = bignums_are_made_of_their_value(code, w.out, num, p, m, s);
    let h0 = m.around.heap.len() as int;
    let z = as_bignum(m.around.world, p, s);
    let big = Object::Decimal(p as int, b);
    lemma_same(w.out);
    own_coerce_to_bignum(w.out, w.out, num, p);
    lemma_inside(code, w.out, o1);
    assert(c.id < o1.code.len()) by {
        lemma_coerced_inside(code, w.out, num, p);
    }
    assert(m1.around.heap[at] == m.around.heap[at]);
    let t = if num_on_the_left {
        assert(m1.cells[r.id as int] == m.cells[r.id as int]);
        big_operators_compute(code, w1, ty, op, c, r, m1, h0, at, z, big)
    } else {
        assert(m1.cells[l.id as int] == m.cells[l.id as int]);
        big_operators_compute(code, w1, ty, op, l, c, m1, at, h0, big, z)
    };
    lemma_then(code, m, m1, t);
    assert(w.out.code.len() <= o1.code.len());
    assert(kept_but(m, m1, w.out.code.len() as int, -1));
    assert(t.next == end.code.len());
    if is_comparison(op) {
        assert(kept_but(m, t, w.out.code.len() as int, at));
    } else if num_on_the_left {
        assert(kept_but(m1, t, o1.code.len() as int, reused(w1, ty, op, c, r, h0, at)));
        assert(kept_but(m, t, w.out.code.len() as int, at));
    } else {
        assert(kept_but(m1, t, o1.code.len() as int, reused(w1, ty, op, l, c, at, h0)));
        assert(kept_but(m, t, w.out.code.len() as int, at));
    }
    let v = combine(sc, w, e, l, r)->Ok_0.1;
    let x = left_one(m.around.world, p, num_on_the_left, width, f, b);
    let y = right_one(m.around.world, p, num_on_the_left, width, f, b);
    if is_comparison(op) {
        assert(answers(m, t, op, v, x, y));
    } else {
        assert(amounts_to(m, t, p, op, v, x, y));
    }
    t
}

proof fn lemma_coerced_inside(code: Seq<InstV>, o: Out, v: Value, p: u32)
    requires
        v.repr is Float,
        within(code, coerce_to_bignum(o, v, p)->Ok_0.0),
    ensures
        coerce_to_bignum(o, v, p)->Ok_0.1.id < coerce_to_bignum(o, v, p)->Ok_0.0.code.len(),
{
    reveal(coerce_to_bignum);
    let (o1, h) = bignum_new(o, p);
    let (o2, f) = coerce_float(o1, v, 64);
    let o3 = run2(o2, Rt::BignumSetD, h, f);
    reveal(wrap);
    reveal(give1);
    lemma_emit(code, o3, Op::Wrap(Repr::Handle), seq![h.id], ""@);
}

/// A minus in front of a bignum or a bigint gives its negative, and the factorial of a bigint is the product of
/// the whole numbers up to it, each in a number of its own.
pub proof fn one_big_computes(
    code: Seq<InstV>,
    sc: Scope,
    w: Work,
    op: UnOp,
    inner: ExprV,
    v: Value,
    m: Machine,
    a: int,
    x: Object,
) -> (t: Machine)
    requires
        (op is Neg && (v.repr == Repr::Handle || v.repr == Repr::BigInt)) || (op is Factorial && v.repr == Repr::BigInt),
        within(code, combine_one(sc, w, op, inner, v)->Ok_0.0.out),
        m.next == w.out.code.len(),
        is_object(m, v, a, x),
        of_type(number_type(sc, inner, v), x),
        v.id < w.out.code.len(),
    ensures
        reaches(code, m, t),
        t.next == combine_one(sc, w, op, inner, v)->Ok_0.0.out.code.len(),
        combine_one(sc, w, op, inner, v)->Ok_0.1.repr == v.repr,
        made_apart(
            m,
            t,
            w.out.code.len() as int,
            combine_one(sc, w, op, inner, v)->Ok_0.1,
            if op is Neg {
                negated(m.around.world, number_type(sc, inner, v), x)
            } else {
                Object::Whole(factorial(if x->Whole_0 < 0 { 0 } else { x->Whole_0 as nat }) as int)
            },
        ),
{
    if op is Neg {
        big_negations_compute(code, w, number_type(sc, inner, v), v, m, a, x)
    } else {
        bigint_factorials_compute(code, w, v, m, a, x->Whole_0)
    }
}

/// `stch` in an expression gives the text of its left operand with the text of its right operand behind it.
pub proof fn joined_texts_are_in_order(
    code: Seq<InstV>,
    sc: Scope,
    w: Work,
    le: ExprV,
    re: ExprV,
    l: Value,
    r: Value,
    m: Machine,
    x: Shown,
    y: Shown,
) -> (t: Machine)
    requires
        combine(sc, w, ExprV::Binary(Box::new(le), BinOp::Concat, Box::new(re)), l, r) is Ok,
        within(code, combine(sc, w, ExprV::Binary(Box::new(le), BinOp::Concat, Box::new(re)), l, r)->Ok_0.0.out),
        m.next == w.out.code.len(),
        is_shown(m, l, x),
        is_shown(m, r, y),
        l.id < w.out.code.len(),
        r.id < w.out.code.len(),
    ensures
        ({
            let (end, v) = combine(sc, w, ExprV::Binary(Box::new(le), BinOp::Concat, Box::new(re)), l, r)->Ok_0;
            &&& reaches(code, m, t)
            &&& t.next == end.out.code.len()
            &&& exists|a: int|
                a >= m.around.heap.len() && #[trigger] is_object(
                    t,
                    v,
                    a,
                    Object::Text(text_for(m.around.world, x) + text_for(m.around.world, y)),
                )
            &&& kept_but(m, t, w.out.code.len() as int, -1)
        }),
{
    texts_are_joined(code, w.out, l, r, m, x, y)
}

/// A text that is stored is a copy: a text of its own that reads the same.
pub proof fn texts_are_copied(code: Seq<InstV>, o: Out, v: Value, ty: Type, m: Machine, s: Seq<char>) -> (t: Machine)
    requires
        ty is Str || ty is File,
        v.repr == Repr::Ptr,
        within(code, coerce_to_type(o, v, ty)->Ok_0.0),
        m.next == o.code.len(),
        text(m, v.id) == Some(s),
        v.id < o.code.len(),
    ensures
        coerce_to_type(o, v, ty) is Ok,
        reaches(code, m, t),
        t.next == coerce_to_type(o, v, ty)->Ok_0.0.code.len(),
        made_apart(m, t, o.code.len() as int, coerce_to_type(o, v, ty)->Ok_0.1, Object::Text(s)),
{
    reveal(coerce_to_type);
    reveal(call1);
    lemma_emit(code, o, Op::Call(Rt::Strdup), seq![v.id], ""@);
    lemma_here(code, m);
    assert(step(code, m) == made_object(m, Object::Text(s))) by {
        reveal(step);
        reveal(other_step);
        reveal(text_call);
    }
    lemma_step(code, m, m)
}

} // verus!
