//! The code of each step keeps to itself: it adds to the code before it, and goes on only at blocks
//! of its own.

use vstd::prelude::*;
use crate::ast::{BinOp, Type, DEFAULT_BIGNUM_PRECISION};
use crate::emit::{
    at, bignum_new, block, branch, call0, call1, call2, call_function, call_list, checked_int_arith,
    checked_result, coerce_float, coerce_int_width, coerce_to_array, coerce_to_bigint, coerce_to_bignum,
    coerce_to_type, compile_bignum_factorial, compile_bignum_tetration, compile_binary_int_op, compile_bool_binary,
    compile_concat, compile_factorial, compile_float_binary, compile_float_op, compile_int_binary, compile_int_div,
    compile_int_factorial, compile_int_neg, compile_int_pow, compile_int_tetration, compile_order,
    compile_tetration, const_float, const_int, const_str, copy_element, crash_if, default_return, do0, do1, do2,
    do3, emit, format_pair, free_elements, free_scalar, free_shown, free_slot, free_value, give0, give1, give2,
    give3, ids, int_test, is_owned, jump, load, loop_begin, loop_end, null, pair_format, run1, run2, run3, size_of,
    slot, store, test_of, unwrap, value_fmt, wrap, Looping, Out,
};
use crate::ir::{basic_type, Op, Repr, Rt, Test, Value};
use crate::numeral::decimal;
use crate::typing::max_width;

verus! {

/// Whether an instruction starts the body of a function.
pub open spec fn begins(op: Op) -> bool {
    op is BeginFunction || op is BeginMain
}

/// The code `t` starts with the code `b`, and what it adds starts no function and goes on only at blocks
/// that it has made itself.
#[verifier::opaque]
pub open spec fn grows(b: Out, t: Out) -> bool {
    &&& b.code.len() <= t.code.len()
    &&& forall|i: int| 0 <= i < b.code.len() ==> #[trigger] t.code[i] == b.code[i]
    &&& forall|i: int| b.code.len() <= i < t.code.len() ==> !begins((#[trigger] t.code[i]).op)
    &&& t.code.len() <= usize::MAX ==> forall|i: int|
        b.code.len() <= i < t.code.len() && (#[trigger] t.code[i]).op is At ==> t.code[i].args[0] >= b.code.len()
}

/// A value that was made since `b`.
pub open spec fn mine(b: Out, v: Value, o: Out) -> bool {
    o.code.len() <= usize::MAX ==> v.id >= b.code.len()
}

pub proof fn lemma_same(b: Out)
    ensures
        grows(b, b),
{
    reveal(grows);
}

pub proof fn lemma_longer(b: Out, t: Out)
    requires
        grows(b, t),
    ensures
        b.code.len() <= t.code.len(),
{
    reveal(grows);
}

proof fn lemma_grows(b: Out, o: Out, op: Op, args: Seq<usize>, text: Seq<char>)
    requires
        grows(b, o),
        !begins(op),
        op is At ==> args.len() > 0 && (o.code.len() <= usize::MAX ==> args[0] >= b.code.len()),
    ensures
        grows(b, emit(o, op, args, text)),
        emit(o, op, args, text).code.len() == o.code.len() + 1,
        b.code.len() <= o.code.len(),
{
    reveal(grows);
    reveal(emit);
    let t = emit(o, op, args, text);
    assert forall|i: int| 0 <= i < b.code.len() implies #[trigger] t.code[i] == b.code[i] by {
        assert(t.code[i] == o.code[i]);
    }
    assert forall|i: int| b.code.len() <= i < t.code.len() implies !begins((#[trigger] t.code[i]).op) by {
        if i < o.code.len() {
            assert(t.code[i] == o.code[i]);
        }
    }
    assert forall|i: int|
        b.code.len() <= i < t.code.len() && (#[trigger] t.code[i]).op is At && t.code.len()
            <= usize::MAX implies t.code[i].args[0] >= b.code.len() by {
        if i < o.code.len() {
            assert(t.code[i] == o.code[i]);
        }
    }
}

pub broadcast proof fn own_give0(origin: Out, o: Out, op: Op, text: Seq<char>, repr: Repr)
    requires
        grows(origin, o),
        !(op is At),
        !begins(op),
    ensures
        #[trigger] grows(origin, give0(o, op, text, repr).0),
        o.code.len() <= give0(o, op, text, repr).0.code.len(),
{
    reveal(give0);
    lemma_grows(origin, o, op, Seq::<usize>::empty(), text);
}

pub broadcast proof fn own_do0(origin: Out, o: Out, op: Op)
    requires
        grows(origin, o),
        !(op is At),
        !begins(op),
    ensures
        #[trigger] grows(origin, do0(o, op)),
        o.code.len() <= do0(o, op).code.len(),
{
    reveal(do0);
    lemma_grows(origin, o, op, Seq::<usize>::empty(), ""@);
}

pub broadcast proof fn own_call0(origin: Out, o: Out, f: Rt)
    requires
        grows(origin, o),
    ensures
        #[trigger] grows(origin, call0(o, f).0),
        o.code.len() <= call0(o, f).0.code.len(),
{
    reveal(call0);
    lemma_grows(origin, o, Op::Call(f), Seq::<usize>::empty(), ""@);
}

pub broadcast proof fn own_give1(origin: Out, o: Out, op: Op, x: Value, repr: Repr)
    requires
        grows(origin, o),
        !(op is At),
        !begins(op),
    ensures
        #[trigger] grows(origin, give1(o, op, x, repr).0),
        o.code.len() <= give1(o, op, x, repr).0.code.len(),
{
    reveal(give1);
    lemma_grows(origin, o, op, seq![x.id], ""@);
}

pub broadcast proof fn own_do1(origin: Out, o: Out, op: Op, x: Value)
    requires
        grows(origin, o),
        !(op is At),
        !begins(op),
    ensures
        #[trigger] grows(origin, do1(o, op, x)),
        o.code.len() <= do1(o, op, x).code.len(),
{
    reveal(do1);
    lemma_grows(origin, o, op, seq![x.id], ""@);
}

pub broadcast proof fn own_call1(origin: Out, o: Out, f: Rt, x: Value)
    requires
        grows(origin, o),
    ensures
        #[trigger] grows(origin, call1(o, f, x).0),
        o.code.len() <= call1(o, f, x).0.code.len(),
{
    reveal(call1);
    lemma_grows(origin, o, Op::Call(f), seq![x.id], ""@);
}

pub broadcast proof fn own_run1(origin: Out, o: Out, f: Rt, x: Value)
    requires
        grows(origin, o),
    ensures
        #[trigger] grows(origin, run1(o, f, x)),
        o.code.len() <= run1(o, f, x).code.len(),
{
    reveal(run1);
    lemma_grows(origin, o, Op::Call(f), seq![x.id], ""@);
}

pub broadcast proof fn own_give2(origin: Out, o: Out, op: Op, x: Value, y: Value, repr: Repr)
    requires
        grows(origin, o),
        !(op is At),
        !begins(op),
    ensures
        #[trigger] grows(origin, give2(o, op, x, y, repr).0),
        o.code.len() <= give2(o, op, x, y, repr).0.code.len(),
{
    reveal(give2);
    lemma_grows(origin, o, op, seq![x.id, y.id], ""@);
}

pub broadcast proof fn own_do2(origin: Out, o: Out, op: Op, x: Value, y: Value)
    requires
        grows(origin, o),
        !(op is At),
        !begins(op),
    ensures
        #[trigger] grows(origin, do2(o, op, x, y)),
        o.code.len() <= do2(o, op, x, y).code.len(),
{
    reveal(do2);
    lemma_grows(origin, o, op, seq![x.id, y.id], ""@);
}

pub broadcast proof fn own_call2(origin: Out, o: Out, f: Rt, x: Value, y: Value)
    requires
        grows(origin, o),
    ensures
        #[trigger] grows(origin, call2(o, f, x, y).0),
        o.code.len() <= call2(o, f, x, y).0.code.len(),
{
    reveal(call2);
    lemma_grows(origin, o, Op::Call(f), seq![x.id, y.id], ""@);
}

pub broadcast proof fn own_run2(origin: Out, o: Out, f: Rt, x: Value, y: Value)
    requires
        grows(origin, o),
    ensures
        #[trigger] grows(origin, run2(o, f, x, y)),
        o.code.len() <= run2(o, f, x, y).code.len(),
{
    reveal(run2);
    lemma_grows(origin, o, Op::Call(f), seq![x.id, y.id], ""@);
}

pub broadcast proof fn own_give3(origin: Out, o: Out, op: Op, x: Value, y: Value, z: Value, repr: Repr)
    requires
        grows(origin, o),
        !(op is At),
        !begins(op),
    ensures
        #[trigger] grows(origin, give3(o, op, x, y, z, repr).0),
        o.code.len() <= give3(o, op, x, y, z, repr).0.code.len(),
{
    reveal(give3);
    lemma_grows(origin, o, op, seq![x.id, y.id, z.id], ""@);
}

pub broadcast proof fn own_do3(origin: Out, o: Out, op: Op, x: Value, y: Value, z: Value)
    requires
        grows(origin, o),
        !(op is At),
        !begins(op),
    ensures
        #[trigger] grows(origin, do3(o, op, x, y, z)),
        o.code.len() <= do3(o, op, x, y, z).code.len(),
{
    reveal(do3);
    lemma_grows(origin, o, op, seq![x.id, y.id, z.id], ""@);
}

pub broadcast proof fn own_run3(origin: Out, o: Out, f: Rt, x: Value, y: Value, z: Value)
    requires
        grows(origin, o),
    ensures
        #[trigger] grows(origin, run3(o, f, x, y, z)),
        o.code.len() <= run3(o, f, x, y, z).code.len(),
{
    reveal(run3);
    lemma_grows(origin, o, Op::Call(f), seq![x.id, y.id, z.id], ""@);
}

pub broadcast proof fn own_call_list(origin: Out, o: Out, f: Rt, vs: Seq<Value>)
    requires
        grows(origin, o),
    ensures
        #[trigger] grows(origin, call_list(o, f, vs).0),
        o.code.len() <= call_list(o, f, vs).0.code.len(),
{
    reveal(call_list);
    lemma_grows(origin, o, Op::Call(f), ids(vs), ""@);
}

pub broadcast proof fn own_call_function(origin: Out, o: Out, k: usize, vs: Seq<Value>, repr: Repr)
    requires
        grows(origin, o),
    ensures
        #[trigger] grows(origin, call_function(o, k, vs, repr).0),
        o.code.len() <= call_function(o, k, vs, repr).0.code.len(),
{
    reveal(call_function);
    lemma_grows(origin, o, Op::CallFunction(k), ids(vs), ""@);
}

pub broadcast proof fn own_block(origin: Out, o: Out, name: Seq<char>)
    requires
        grows(origin, o),
    ensures
        #[trigger] grows(origin, block(o, name).0),
        o.code.len() <= block(o, name).0.code.len(),
        mine(origin, block(o, name).1, block(o, name).0),
{
    reveal(block);
    reveal(give0);
    lemma_grows(origin, o, Op::Block, Seq::<usize>::empty(), name);
}

pub broadcast proof fn own_at(origin: Out, o: Out, b: Value)
    requires
        grows(origin, o),
        mine(origin, b, o),
    ensures
        #[trigger] grows(origin, at(o, b)),
        o.code.len() <= at(o, b).code.len(),
{
    reveal(at);
    reveal(do1);
    lemma_grows(origin, o, Op::At, seq![b.id], ""@);
}

pub broadcast proof fn own_jump(origin: Out, o: Out, b: Value)
    requires
        grows(origin, o),
    ensures
        #[trigger] grows(origin, jump(o, b)),
        o.code.len() <= jump(o, b).code.len(),
{
    reveal(jump);
    own_do1(origin, o, Op::Jump, b);
    let o = do1(o, Op::Jump, b);
}

pub broadcast proof fn own_branch(origin: Out, o: Out, cond: Value, yes: Value, no: Value)
    requires
        grows(origin, o),
    ensures
        #[trigger] grows(origin, branch(o, cond, yes, no)),
        o.code.len() <= branch(o, cond, yes, no).code.len(),
{
    reveal(branch);
    own_do3(origin, o, Op::Branch, cond, yes, no);
    let o = do3(o, Op::Branch, cond, yes, no);
}

pub broadcast proof fn own_slot(origin: Out, o: Out, repr: Repr, name: Seq<char>)
    requires
        grows(origin, o),
    ensures
        #[trigger] grows(origin, slot(o, repr, name).0),
        o.code.len() <= slot(o, repr, name).0.code.len(),
{
    reveal(slot);
    own_give0(origin, o, Op::Slot(repr), name, Repr::Ptr);
}

pub broadcast proof fn own_store(origin: Out, o: Out, place: Value, v: Value)
    requires
        grows(origin, o),
    ensures
        #[trigger] grows(origin, store(o, place, v)),
        o.code.len() <= store(o, place, v).code.len(),
{
    reveal(store);
    own_do2(origin, o, Op::Store, place, v);
    let o = do2(o, Op::Store, place, v);
}

pub broadcast proof fn own_load(origin: Out, o: Out, repr: Repr, place: Value)
    requires
        grows(origin, o),
    ensures
        #[trigger] grows(origin, load(o, repr, place).0),
        o.code.len() <= load(o, repr, place).0.code.len(),
{
    reveal(load);
    own_give1(origin, o, Op::Load(repr), place, repr);
}

pub broadcast proof fn own_const_float(origin: Out, o: Out, text: Seq<char>)
    requires
        grows(origin, o),
    ensures
        #[trigger] grows(origin, const_float(o, text).0),
        o.code.len() <= const_float(o, text).0.code.len(),
{
    reveal(const_float);
    own_give0(origin, o, Op::ConstFloat, text, Repr::Float(64));
}

pub broadcast proof fn own_const_int(origin: Out, o: Out, width: u32, v: i64)
    requires
        grows(origin, o),
    ensures
        #[trigger] grows(origin, const_int(o, width, v).0),
        o.code.len() <= const_int(o, width, v).0.code.len(),
{
    reveal(const_int);
    own_give0(origin, o, Op::ConstInt(width, v), ""@, Repr::Int(width));
}

pub broadcast proof fn own_const_str(origin: Out, o: Out, text: Seq<char>)
    requires
        grows(origin, o),
    ensures
        #[trigger] grows(origin, const_str(o, text).0),
        o.code.len() <= const_str(o, text).0.code.len(),
{
    reveal(const_str);
    own_give0(origin, o, Op::ConstStr, text, Repr::Ptr);
}

pub broadcast proof fn own_null(origin: Out, o: Out)
    requires
        grows(origin, o),
    ensures
        #[trigger] grows(origin, null(o).0),
        o.code.len() <= null(o).0.code.len(),
{
    reveal(null);
    own_give0(origin, o, Op::Null, ""@, Repr::Ptr);
}

pub broadcast proof fn own_size_of(origin: Out, o: Out, repr: Repr)
    requires
        grows(origin, o),
    ensures
        #[trigger] grows(origin, size_of(o, repr).0),
        o.code.len() <= size_of(o, repr).0.code.len(),
{
    reveal(size_of);
    own_give0(origin, o, Op::SizeOf(repr), ""@, Repr::Int(64));
}

pub broadcast proof fn own_wrap(origin: Out, o: Out, repr: Repr, p: Value)
    requires
        grows(origin, o),
    ensures
        #[trigger] grows(origin, wrap(o, repr, p).0),
        o.code.len() <= wrap(o, repr, p).0.code.len(),
{
    reveal(wrap);
    own_give1(origin, o, Op::Wrap(repr), p, repr);
}

pub broadcast proof fn own_unwrap(origin: Out, o: Out, v: Value)
    requires
        grows(origin, o),
    ensures
        #[trigger] grows(origin, unwrap(o, v).0),
        o.code.len() <= unwrap(o, v).0.code.len(),
{
    reveal(unwrap);
    own_give1(origin, o, Op::Unwrap, v, Repr::Ptr);
}

pub broadcast proof fn own_int_test(origin: Out, o: Out, test: Test, l: Value, r: Value)
    requires
        grows(origin, o),
    ensures
        #[trigger] grows(origin, int_test(o, test, l, r).0),
        o.code.len() <= int_test(o, test, l, r).0.code.len(),
{
    reveal(int_test);
    own_give2(origin, o, Op::IntTest(test), l, r, Repr::Int(1));
}

pub broadcast proof fn own_crash_if(origin: Out, o: Out, cond: Value, message: Seq<char>)
    requires
        grows(origin, o),
    ensures
        #[trigger] grows(origin, crash_if(o, cond, message)),
        o.code.len() <= crash_if(o, cond, message).code.len(),
{
    reveal(crash_if);
    own_block(origin, o, "int_crash"@);
    let (o, crash) = block(o, "int_crash"@);
    own_block(origin, o, "int_continue"@);
    let (o, next) = block(o, "int_continue"@);
    own_branch(origin, o, cond, crash, next);
    let o = branch(o, cond, crash, next);
    own_at(origin, o, crash);
    let o = at(o, crash);
    own_const_str(origin, o, message);
    let (o, text) = const_str(o, message);
    own_run1(origin, o, Rt::IntDie, text);
    let o = run1(o, Rt::IntDie, text);
    own_do0(origin, o, Op::Unreachable);
    let o = do0(o, Op::Unreachable);
    own_at(origin, o, next);
    let o = at(o, next);
}

pub broadcast proof fn own_loop_begin(origin: Out, o: Out, first: i64, test: Test, limit: Value)
    requires
        grows(origin, o),
    ensures
        #[trigger] grows(origin, loop_begin(o, first, test, limit).0),
        o.code.len() <= loop_begin(o, first, test, limit).0.code.len(),
        mine(origin, loop_begin(o, first, test, limit).1.done, loop_begin(o, first, test, limit).0),
{
    reveal(loop_begin);
    own_slot(origin, o, Repr::Int(64), "loop_counter"@);
    let (o, place) = slot(o, Repr::Int(64), "loop_counter"@);
    own_const_int(origin, o, 64, first);
    let (o, start) = const_int(o, 64, first);
    own_store(origin, o, place, start);
    let o = store(o, place, start);
    own_block(origin, o, "loop_head"@);
    let (o, head) = block(o, "loop_head"@);
    own_block(origin, o, "loop_body"@);
    let (o, body) = block(o, "loop_body"@);
    own_block(origin, o, "loop_done"@);
    let (o, done) = block(o, "loop_done"@);
    own_jump(origin, o, head);
    let o = jump(o, head);
    own_at(origin, o, head);
    let o = at(o, head);
    own_load(origin, o, Repr::Int(64), place);
    let (o, counter) = load(o, Repr::Int(64), place);
    own_int_test(origin, o, test, counter, limit);
    let (o, more) = int_test(o, test, counter, limit);
    own_branch(origin, o, more, body, done);
    let o = branch(o, more, body, done);
    own_at(origin, o, body);
    let o = at(o, body);
}

pub broadcast proof fn own_loop_end(origin: Out, o: Out, l: Looping)
    requires
        grows(origin, o),
        mine(origin, l.done, o),
    ensures
        #[trigger] grows(origin, loop_end(o, l)),
        o.code.len() <= loop_end(o, l).code.len(),
{
    reveal(loop_end);
    own_const_int(origin, o, 64, 1);
    let (o, one) = const_int(o, 64, 1);
    own_give2(origin, o, Op::IntAdd, l.counter, one, Repr::Int(64));
    let (o, next) = give2(o, Op::IntAdd, l.counter, one, Repr::Int(64));
    own_store(origin, o, l.place, next);
    let o = store(o, l.place, next);
    own_jump(origin, o, l.head);
    let o = jump(o, l.head);
    own_at(origin, o, l.done);
    let o = at(o, l.done);
}

pub broadcast proof fn own_coerce_float(origin: Out, o: Out, v: Value, width: u32)
    requires
        grows(origin, o),
    ensures
        #[trigger] grows(origin, coerce_float(o, v, width).0),
        o.code.len() <= coerce_float(o, v, width).0.code.len(),
{
    reveal(coerce_float);
    match v.repr {
        Repr::Float(w) => {
            if w == width {
            } else if w < width {
                own_give1(origin, o, Op::FloatExtend(width), v, Repr::Float(width));
            } else {
                own_give1(origin, o, Op::FloatTruncate(width), v, Repr::Float(width));
            }
        },
        _ => {
        },
    }
}

pub broadcast proof fn own_coerce_int_width(origin: Out, o: Out, v: Value, width: u32)
    requires
        grows(origin, o),
    ensures
        #[trigger] grows(origin, coerce_int_width(o, v, width).0),
        o.code.len() <= coerce_int_width(o, v, width).0.code.len(),
{
    reveal(coerce_int_width);
    match v.repr {
        Repr::Int(w) => {
            if w == width {
            } else if w < width {
                own_give1(origin, o, Op::SignExtend(width), v, Repr::Int(width));
            } else {
                own_give1(origin, o, Op::Truncate(width), v, Repr::Int(width));
                let (o, narrow) = give1(o, Op::Truncate(width), v, Repr::Int(width));
                own_give1(origin, o, Op::SignExtend(w), narrow, Repr::Int(w));
                let (o, back) = give1(o, Op::SignExtend(w), narrow, Repr::Int(w));
                own_int_test(origin, o, Test::Eq, v, back);
                let (o, same) = int_test(o, Test::Eq, v, back);
                own_give1(origin, o, Op::Not, same, Repr::Int(1));
                let (o, overflowed) = give1(o, Op::Not, same, Repr::Int(1));
                let digits = decimal(width as nat);
                let message = "int overflow: value doesn't fit in int[precision:"@ + digits + "]"@;
                own_crash_if(origin, o, overflowed, message);
                let o = crash_if(o, overflowed, message);
            }
        },
        _ => {
        },
    }
}

pub broadcast proof fn own_bignum_new(origin: Out, o: Out, precision: u32)
    requires
        grows(origin, o),
    ensures
        #[trigger] grows(origin, bignum_new(o, precision).0),
        o.code.len() <= bignum_new(o, precision).0.code.len(),
{
    reveal(bignum_new);
    own_const_int(origin, o, 64, precision as i64);
    let (o, p) = const_int(o, 64, precision as i64);
    own_call1(origin, o, Rt::BignumNew, p);
}

pub broadcast proof fn own_coerce_to_bignum(origin: Out, o: Out, v: Value, precision: u32)
    requires
        grows(origin, o),
    ensures
        coerce_to_bignum(o, v, precision) is Ok ==> #[trigger] grows(origin, coerce_to_bignum(o, v, precision)->Ok_0.0),
        coerce_to_bignum(o, v, precision) is Ok ==> o.code.len() <= coerce_to_bignum(o, v, precision)->Ok_0.0.code.len(),
{
    reveal(coerce_to_bignum);
    match v.repr {
        Repr::Float(_) => {
            own_bignum_new(origin, o, precision);
            let (o, h) = bignum_new(o, precision);
            own_coerce_float(origin, o, v, 64);
            let (o, f) = coerce_float(o, v, 64);
            own_run2(origin, o, Rt::BignumSetD, h, f);
            let o = run2(o, Rt::BignumSetD, h, f);
            own_wrap(origin, o, Repr::Handle, h);
            let (o, r) = wrap(o, Repr::Handle, h);
        },
        Repr::Ptr => {
            own_bignum_new(origin, o, precision);
            let (o, h) = bignum_new(o, precision);
            own_run2(origin, o, Rt::BignumSetStr, h, v);
            let o = run2(o, Rt::BignumSetStr, h, v);
            own_wrap(origin, o, Repr::Handle, h);
            let (o, r) = wrap(o, Repr::Handle, h);
        },
        Repr::Handle => {
            own_bignum_new(origin, o, precision);
            let (o, h) = bignum_new(o, precision);
            own_unwrap(origin, o, v);
            let (o, p) = unwrap(o, v);
            own_run2(origin, o, Rt::BignumCopy, h, p);
            let o = run2(o, Rt::BignumCopy, h, p);
            own_wrap(origin, o, Repr::Handle, h);
            let (o, r) = wrap(o, Repr::Handle, h);
        },
        _ => {
        },
    }
}

pub broadcast proof fn own_coerce_to_bigint(origin: Out, o: Out, v: Value)
    requires
        grows(origin, o),
    ensures
        coerce_to_bigint(o, v) is Ok ==> #[trigger] grows(origin, coerce_to_bigint(o, v)->Ok_0.0),
        coerce_to_bigint(o, v) is Ok ==> o.code.len() <= coerce_to_bigint(o, v)->Ok_0.0.code.len(),
{
    reveal(coerce_to_bigint);
    match v.repr {
        Repr::Ptr => {
            own_call0(origin, o, Rt::BigintNew);
            let (o, h) = call0(o, Rt::BigintNew);
            own_run2(origin, o, Rt::BigintSetStr, h, v);
            let o = run2(o, Rt::BigintSetStr, h, v);
            own_wrap(origin, o, Repr::BigInt, h);
            let (o, r) = wrap(o, Repr::BigInt, h);
        },
        Repr::BigInt => {
            own_call0(origin, o, Rt::BigintNew);
            let (o, h) = call0(o, Rt::BigintNew);
            own_unwrap(origin, o, v);
            let (o, p) = unwrap(o, v);
            own_run2(origin, o, Rt::BigintCopy, h, p);
            let o = run2(o, Rt::BigintCopy, h, p);
            own_wrap(origin, o, Repr::BigInt, h);
            let (o, r) = wrap(o, Repr::BigInt, h);
        },
        _ => {
        },
    }
}

pub broadcast proof fn own_free_scalar(origin: Out, o: Out, v: Value, ty: Type)
    requires
        grows(origin, o),
    ensures
        #[trigger] grows(origin, free_scalar(o, v, ty)),
        o.code.len() <= free_scalar(o, v, ty).code.len(),
{
    reveal(free_scalar);
    match ty {
        Type::BigNum(_) => {
            own_unwrap(origin, o, v);
            let (o, p) = unwrap(o, v);
            own_run1(origin, o, Rt::BignumFree, p);
            let o = run1(o, Rt::BignumFree, p);
        },
        Type::BigInt => {
            own_unwrap(origin, o, v);
            let (o, p) = unwrap(o, v);
            own_run1(origin, o, Rt::BigintFree, p);
            let o = run1(o, Rt::BigintFree, p);
        },
        Type::Str | Type::File => {
            own_run1(origin, o, Rt::Free, v);
            let o = run1(o, Rt::Free, v);
        },
        _ => {
        },
    }
}

pub broadcast proof fn own_free_elements(origin: Out, o: Out, h: Value, ty: Type)
    requires
        grows(origin, o),
    ensures
        #[trigger] grows(origin, free_elements(o, h, ty)),
        o.code.len() <= free_elements(o, h, ty).code.len(),
{
    reveal(free_elements);
    if is_owned(ty) {
        own_call1(origin, o, Rt::ArrayLength, h);
        let (o, n) = call1(o, Rt::ArrayLength, h);
        own_loop_begin(origin, o, 1, Test::Le, n);
        let (o, l) = loop_begin(o, 1, Test::Le, n);
        own_call2(origin, o, Rt::ArrayGetPtr, h, l.counter);
        let (o, p) = call2(o, Rt::ArrayGetPtr, h, l.counter);
        own_load(origin, o, basic_type(ty), p);
        let (o, v) = load(o, basic_type(ty), p);
        own_free_scalar(origin, o, v, ty);
        let o = free_scalar(o, v, ty);
        own_loop_end(origin, o, l);
        let o = loop_end(o, l);
    } else {
    }
}

pub broadcast proof fn own_free_value(origin: Out, o: Out, v: Value, ty: Type)
    requires
        grows(origin, o),
    ensures
        #[trigger] grows(origin, free_value(o, v, ty)),
        o.code.len() <= free_value(o, v, ty).code.len(),
{
    reveal(free_value);
    match ty {
        Type::Array(element) => {
            own_unwrap(origin, o, v);
            let (o, h) = unwrap(o, v);
            own_free_elements(origin, o, h, element.as_type());
            let o = free_elements(o, h, element.as_type());
            own_run1(origin, o, Rt::ArrayFree, h);
            let o = run1(o, Rt::ArrayFree, h);
        },
        _ => {
            own_free_scalar(origin, o, v, ty);
            let o = free_scalar(o, v, ty);
        },
    }
}

pub broadcast proof fn own_free_slot(origin: Out, o: Out, place: Value, ty: Type)
    requires
        grows(origin, o),
    ensures
        #[trigger] grows(origin, free_slot(o, place, ty)),
        o.code.len() <= free_slot(o, place, ty).code.len(),
{
    reveal(free_slot);
    if is_owned(ty) {
        own_load(origin, o, basic_type(ty), place);
        let (o, v) = load(o, basic_type(ty), place);
        own_free_value(origin, o, v, ty);
        let o = free_value(o, v, ty);
    } else {
    }
}

pub broadcast proof fn own_copy_element(origin: Out, o: Out, v: Value, ty: Type)
    requires
        grows(origin, o),
    ensures
        copy_element(o, v, ty) is Ok ==> #[trigger] grows(origin, copy_element(o, v, ty)->Ok_0.0),
        copy_element(o, v, ty) is Ok ==> o.code.len() <= copy_element(o, v, ty)->Ok_0.0.code.len(),
{
    reveal(copy_element);
    match ty {
        Type::Str | Type::File => {
            own_call1(origin, o, Rt::Strdup, v);
            let (o, c) = call1(o, Rt::Strdup, v);
        },
        Type::BigNum(precision) => {
            own_coerce_to_bignum(origin, o, v, precision);
        },
        Type::BigInt => {
            own_coerce_to_bigint(origin, o, v);
        },
        _ => {
        },
    }
}

pub broadcast proof fn own_coerce_to_array(origin: Out, o: Out, v: Value, ty: Type)
    requires
        grows(origin, o),
    ensures
        coerce_to_array(o, v, ty) is Ok ==> #[trigger] grows(origin, coerce_to_array(o, v, ty)->Ok_0.0),
        coerce_to_array(o, v, ty) is Ok ==> o.code.len() <= coerce_to_array(o, v, ty)->Ok_0.0.code.len(),
{
    reveal(coerce_to_array);
    match v.repr {
        Repr::Handle => {
            own_unwrap(origin, o, v);
            let (o, source) = unwrap(o, v);
            own_size_of(origin, o, basic_type(ty));
            let (o, size) = size_of(o, basic_type(ty));
            own_call1(origin, o, Rt::ArrayNew, size);
            let (o, h) = call1(o, Rt::ArrayNew, size);
            own_call1(origin, o, Rt::ArrayLength, source);
            let (o, n) = call1(o, Rt::ArrayLength, source);
            own_loop_begin(origin, o, 1, Test::Le, n);
            let (o, l) = loop_begin(o, 1, Test::Le, n);
            own_call2(origin, o, Rt::ArrayGetPtr, source, l.counter);
            let (o, p) = call2(o, Rt::ArrayGetPtr, source, l.counter);
            own_load(origin, o, basic_type(ty), p);
            let (o, e) = load(o, basic_type(ty), p);
            own_copy_element(origin, o, e, ty);
            if let Ok((o, c)) = copy_element(o, e, ty) {
                own_slot(origin, o, basic_type(ty), "array_copy_value"@);
                let (o, place) = slot(o, basic_type(ty), "array_copy_value"@);
                own_store(origin, o, place, c);
                let o = store(o, place, c);
                own_run2(origin, o, Rt::ArrayAppend, h, place);
                let o = run2(o, Rt::ArrayAppend, h, place);
                own_loop_end(origin, o, l);
                let o = loop_end(o, l);
                own_wrap(origin, o, Repr::Handle, h);
                let (o, r) = wrap(o, Repr::Handle, h);
            }
        },
        _ => {
        },
    }
}

pub broadcast proof fn own_coerce_to_type(origin: Out, o: Out, v: Value, ty: Type)
    requires
        grows(origin, o),
    ensures
        coerce_to_type(o, v, ty) is Ok ==> #[trigger] grows(origin, coerce_to_type(o, v, ty)->Ok_0.0),
        coerce_to_type(o, v, ty) is Ok ==> o.code.len() <= coerce_to_type(o, v, ty)->Ok_0.0.code.len(),
{
    reveal(coerce_to_type);
    match (v.repr, ty) {
        (Repr::Float(_), Type::Num(w)) => {
            own_coerce_float(origin, o, v, w);
            let (o, r) = coerce_float(o, v, w);
        },
        (Repr::Float(_), Type::NumW(w)) => {
            own_coerce_float(origin, o, v, w);
            let (o, r) = coerce_float(o, v, w);
        },
        (Repr::Int(1), Type::Bool) => {
        },
        (Repr::Int(_), Type::Int(w)) => {
            own_coerce_int_width(origin, o, v, w);
            let (o, r) = coerce_int_width(o, v, w);
        },
        (_, Type::BigNum(precision)) => {
            own_coerce_to_bignum(origin, o, v, precision);
        },
        (_, Type::BigInt) => {
            own_coerce_to_bigint(origin, o, v);
        },
        (Repr::Ptr, Type::Str | Type::File) => {
            own_call1(origin, o, Rt::Strdup, v);
            let (o, r) = call1(o, Rt::Strdup, v);
        },
        (_, Type::Array(element)) => {
            own_coerce_to_array(origin, o, v, element.as_type());
        },
        _ => {
        },
    }
}

pub broadcast proof fn own_checked_result(origin: Out, o: Out, p: Value, message: Seq<char>)
    requires
        grows(origin, o),
    ensures
        #[trigger] grows(origin, checked_result(o, p, message).0),
        o.code.len() <= checked_result(o, p, message).0.code.len(),
{
    reveal(checked_result);
    own_give1(origin, o, Op::CheckedResult, p, Repr::Int(64));
    let (o, v) = give1(o, Op::CheckedResult, p, Repr::Int(64));
    own_give1(origin, o, Op::CheckedFlag, p, Repr::Int(1));
    let (o, overflowed) = give1(o, Op::CheckedFlag, p, Repr::Int(1));
    own_crash_if(origin, o, overflowed, message);
    let o = crash_if(o, overflowed, message);
}

pub broadcast proof fn own_checked_int_arith(origin: Out, o: Out, op: BinOp, l: Value, r: Value)
    requires
        grows(origin, o),
    ensures
        #[trigger] grows(origin, checked_int_arith(o, op, l, r).0),
        o.code.len() <= checked_int_arith(o, op, l, r).0.code.len(),
{
    reveal(checked_int_arith);
    match op {
        BinOp::Add => {
            own_call2(origin, o, Rt::AddOverflow, l, r);
            let (o, p) = call2(o, Rt::AddOverflow, l, r);
            own_checked_result(origin, o, p, "int overflow: result of + doesn't fit in int"@);
        },
        BinOp::Sub => {
            own_call2(origin, o, Rt::SubOverflow, l, r);
            let (o, p) = call2(o, Rt::SubOverflow, l, r);
            own_checked_result(origin, o, p, "int overflow: result of - doesn't fit in int"@);
        },
        _ => {
            own_call2(origin, o, Rt::MulOverflow, l, r);
            let (o, p) = call2(o, Rt::MulOverflow, l, r);
            own_checked_result(origin, o, p, "int overflow: result of x doesn't fit in int"@);
        },
    }
}

pub broadcast proof fn own_compile_int_div(origin: Out, o: Out, l: Value, r: Value)
    requires
        grows(origin, o),
    ensures
        #[trigger] grows(origin, compile_int_div(o, l, r).0),
        o.code.len() <= compile_int_div(o, l, r).0.code.len(),
{
    reveal(compile_int_div);
    own_const_int(origin, o, 64, 0);
    let (o, zero) = const_int(o, 64, 0);
    own_int_test(origin, o, Test::Eq, r, zero);
    let (o, by_zero) = int_test(o, Test::Eq, r, zero);
    own_crash_if(origin, o, by_zero, "int division by zero"@);
    let o = crash_if(o, by_zero, "int division by zero"@);
    own_const_int(origin, o, 64, i64::MIN);
    let (o, least) = const_int(o, 64, i64::MIN);
    own_const_int(origin, o, 64, (-1) as i64);
    let (o, minus) = const_int(o, 64, (-1) as i64);
    own_int_test(origin, o, Test::Eq, l, least);
    let (o, is_least) = int_test(o, Test::Eq, l, least);
    own_int_test(origin, o, Test::Eq, r, minus);
    let (o, is_minus) = int_test(o, Test::Eq, r, minus);
    own_give2(origin, o, Op::And, is_least, is_minus, Repr::Int(1));
    let (o, both) = give2(o, Op::And, is_least, is_minus, Repr::Int(1));
    own_crash_if(origin, o, both, "int overflow: i64::MIN / -1 doesn't fit in int"@);
    let o = crash_if(o, both, "int overflow: i64::MIN / -1 doesn't fit in int"@);
    own_give2(origin, o, Op::IntDiv, l, r, Repr::Int(64));
}

pub broadcast proof fn own_compile_int_neg(origin: Out, o: Out, v: Value)
    requires
        grows(origin, o),
    ensures
        #[trigger] grows(origin, compile_int_neg(o, v).0),
        o.code.len() <= compile_int_neg(o, v).0.code.len(),
{
    reveal(compile_int_neg);
    match v.repr {
        Repr::Int(w) => {
            own_coerce_int_width(origin, o, v, 64);
            let (o, wide) = coerce_int_width(o, v, 64);
            own_const_int(origin, o, 64, i64::MIN);
            let (o, least) = const_int(o, 64, i64::MIN);
            own_int_test(origin, o, Test::Eq, wide, least);
            let (o, is_least) = int_test(o, Test::Eq, wide, least);
            own_crash_if(origin, o, is_least, "int overflow: negating i64::MIN doesn't fit in int"@);
            let o = crash_if(o, is_least, "int overflow: negating i64::MIN doesn't fit in int"@);
            own_give1(origin, o, Op::IntNeg, wide, Repr::Int(64));
            let (o, n) = give1(o, Op::IntNeg, wide, Repr::Int(64));
            own_coerce_int_width(origin, o, n, w);
        },
        _ => {
        },
    }
}

pub broadcast proof fn own_compile_int_pow(origin: Out, o: Out, base: Value, exponent: Value)
    requires
        grows(origin, o),
    ensures
        #[trigger] grows(origin, compile_int_pow(o, base, exponent).0),
        o.code.len() <= compile_int_pow(o, base, exponent).0.code.len(),
{
    reveal(compile_int_pow);
    own_const_int(origin, o, 64, 0);
    let (o, zero) = const_int(o, 64, 0);
    own_int_test(origin, o, Test::Lt, exponent, zero);
    let (o, negative) = int_test(o, Test::Lt, exponent, zero);
    own_crash_if(origin, o, negative, "int power requires a non-negative exponent"@);
    let o = crash_if(o, negative, "int power requires a non-negative exponent"@);
    own_slot(origin, o, Repr::Int(64), "int_pow_result"@);
    let (o, result) = slot(o, Repr::Int(64), "int_pow_result"@);
    own_const_int(origin, o, 64, 1);
    let (o, one) = const_int(o, 64, 1);
    own_store(origin, o, result, one);
    let o = store(o, result, one);
    own_loop_begin(origin, o, 0, Test::Lt, exponent);
    let (o, l) = loop_begin(o, 0, Test::Lt, exponent);
    own_load(origin, o, Repr::Int(64), result);
    let (o, current) = load(o, Repr::Int(64), result);
    own_checked_int_arith(origin, o, BinOp::Mul, current, base);
    let (o, next) = checked_int_arith(o, BinOp::Mul, current, base);
    own_store(origin, o, result, next);
    let o = store(o, result, next);
    own_loop_end(origin, o, l);
    let o = loop_end(o, l);
    own_load(origin, o, Repr::Int(64), result);
}

pub broadcast proof fn own_compile_int_tetration(origin: Out, o: Out, base: Value, height: Value)
    requires
        grows(origin, o),
    ensures
        #[trigger] grows(origin, compile_int_tetration(o, base, height).0),
        o.code.len() <= compile_int_tetration(o, base, height).0.code.len(),
{
    reveal(compile_int_tetration);
    own_slot(origin, o, Repr::Int(64), "int_tet_result"@);
    let (o, result) = slot(o, Repr::Int(64), "int_tet_result"@);
    own_store(origin, o, result, base);
    let o = store(o, result, base);
    own_loop_begin(origin, o, 2, Test::Le, height);
    let (o, l) = loop_begin(o, 2, Test::Le, height);
    own_load(origin, o, Repr::Int(64), result);
    let (o, current) = load(o, Repr::Int(64), result);
    own_compile_int_pow(origin, o, base, current);
    let (o, next) = compile_int_pow(o, base, current);
    own_store(origin, o, result, next);
    let o = store(o, result, next);
    own_loop_end(origin, o, l);
    let o = loop_end(o, l);
    own_load(origin, o, Repr::Int(64), result);
}

pub broadcast proof fn own_compile_int_factorial(origin: Out, o: Out, v: Value)
    requires
        grows(origin, o),
    ensures
        #[trigger] grows(origin, compile_int_factorial(o, v).0),
        o.code.len() <= compile_int_factorial(o, v).0.code.len(),
{
    reveal(compile_int_factorial);
    own_coerce_int_width(origin, o, v, 64);
    let (o, n) = coerce_int_width(o, v, 64);
    own_slot(origin, o, Repr::Int(64), "int_fact_result"@);
    let (o, result) = slot(o, Repr::Int(64), "int_fact_result"@);
    own_const_int(origin, o, 64, 1);
    let (o, one) = const_int(o, 64, 1);
    own_store(origin, o, result, one);
    let o = store(o, result, one);
    own_loop_begin(origin, o, 2, Test::Le, n);
    let (o, l) = loop_begin(o, 2, Test::Le, n);
    own_load(origin, o, Repr::Int(64), result);
    let (o, current) = load(o, Repr::Int(64), result);
    own_checked_int_arith(origin, o, BinOp::Mul, current, l.counter);
    let (o, next) = checked_int_arith(o, BinOp::Mul, current, l.counter);
    own_store(origin, o, result, next);
    let o = store(o, result, next);
    own_loop_end(origin, o, l);
    let o = loop_end(o, l);
    own_load(origin, o, Repr::Int(64), result);
}

pub broadcast proof fn own_compile_binary_int_op(origin: Out, o: Out, op: BinOp, l: Value, r: Value)
    requires
        grows(origin, o),
    ensures
        compile_binary_int_op(o, op, l, r) is Ok ==> #[trigger] grows(origin, compile_binary_int_op(o, op, l, r)->Ok_0.0),
        compile_binary_int_op(o, op, l, r) is Ok ==> o.code.len() <= compile_binary_int_op(o, op, l, r)->Ok_0.0.code.len(),
{
    reveal(compile_binary_int_op);
    match op {
        BinOp::Add | BinOp::Sub | BinOp::Mul => {
            own_checked_int_arith(origin, o, op, l, r);
            let (o, v) = checked_int_arith(o, op, l, r);
        },
        BinOp::Div => {
            own_compile_int_div(origin, o, l, r);
            let (o, v) = compile_int_div(o, l, r);
        },
        BinOp::Pow => {
            own_compile_int_pow(origin, o, l, r);
            let (o, v) = compile_int_pow(o, l, r);
        },
        BinOp::Tetration => {
            own_compile_int_tetration(origin, o, l, r);
            let (o, v) = compile_int_tetration(o, l, r);
        },
        BinOp::Eq | BinOp::Ne | BinOp::Lt | BinOp::Gt | BinOp::Le | BinOp::Ge => {
            own_int_test(origin, o, test_of(op), l, r);
            let (o, v) = int_test(o, test_of(op), l, r);
        },
        BinOp::And | BinOp::Or | BinOp::Concat => {
        },
    }
}

pub broadcast proof fn own_compile_int_binary(origin: Out, o: Out, op: BinOp, l: Value, r: Value)
    requires
        grows(origin, o),
    ensures
        compile_int_binary(o, op, l, r) is Ok ==> #[trigger] grows(origin, compile_int_binary(o, op, l, r)->Ok_0.0),
        compile_int_binary(o, op, l, r) is Ok ==> o.code.len() <= compile_int_binary(o, op, l, r)->Ok_0.0.code.len(),
{
    reveal(compile_int_binary);
    match (l.repr, r.repr) {
        (Repr::Int(a), Repr::Int(b)) => {
            own_coerce_int_width(origin, o, l, 64);
            let (o, x) = coerce_int_width(o, l, 64);
            own_coerce_int_width(origin, o, r, 64);
            let (o, y) = coerce_int_width(o, r, 64);
            own_compile_binary_int_op(origin, o, op, x, y);
            if let Ok((o, v)) = compile_binary_int_op(o, op, x, y) {
                if v.repr == Repr::Int(1) {
                } else {
                    own_coerce_int_width(origin, o, v, max_width(a, b));
                    let (o, n) = coerce_int_width(o, v, max_width(a, b));
                }
            }
        },
        _ => {
        },
    }
}

pub broadcast proof fn own_compile_tetration(origin: Out, o: Out, base: Value, height: Value)
    requires
        grows(origin, o),
    ensures
        #[trigger] grows(origin, compile_tetration(o, base, height).0),
        o.code.len() <= compile_tetration(o, base, height).0.code.len(),
{
    reveal(compile_tetration);
    own_give1(origin, o, Op::FloatToInt, height, Repr::Int(64));
    let (o, n) = give1(o, Op::FloatToInt, height, Repr::Int(64));
    own_slot(origin, o, Repr::Float(64), "tet_result"@);
    let (o, result) = slot(o, Repr::Float(64), "tet_result"@);
    own_store(origin, o, result, base);
    let o = store(o, result, base);
    own_loop_begin(origin, o, 2, Test::Le, n);
    let (o, l) = loop_begin(o, 2, Test::Le, n);
    own_load(origin, o, Repr::Float(64), result);
    let (o, current) = load(o, Repr::Float(64), result);
    own_call2(origin, o, Rt::Pow, base, current);
    let (o, next) = call2(o, Rt::Pow, base, current);
    own_store(origin, o, result, next);
    let o = store(o, result, next);
    own_loop_end(origin, o, l);
    let o = loop_end(o, l);
    own_load(origin, o, Repr::Float(64), result);
}

pub broadcast proof fn own_compile_factorial(origin: Out, o: Out, v: Value)
    requires
        grows(origin, o),
    ensures
        #[trigger] grows(origin, compile_factorial(o, v).0),
        o.code.len() <= compile_factorial(o, v).0.code.len(),
{
    reveal(compile_factorial);
    own_give1(origin, o, Op::FloatToInt, v, Repr::Int(64));
    let (o, n) = give1(o, Op::FloatToInt, v, Repr::Int(64));
    own_slot(origin, o, Repr::Float(64), "fact_result"@);
    let (o, result) = slot(o, Repr::Float(64), "fact_result"@);
    own_const_float(origin, o, "1"@);
    let (o, one) = const_float(o, "1"@);
    own_store(origin, o, result, one);
    let o = store(o, result, one);
    own_loop_begin(origin, o, 2, Test::Le, n);
    let (o, l) = loop_begin(o, 2, Test::Le, n);
    own_load(origin, o, Repr::Float(64), result);
    let (o, current) = load(o, Repr::Float(64), result);
    own_give1(origin, o, Op::IntToFloat, l.counter, Repr::Float(64));
    let (o, factor) = give1(o, Op::IntToFloat, l.counter, Repr::Float(64));
    own_give2(origin, o, Op::FloatMul, current, factor, Repr::Float(64));
    let (o, next) = give2(o, Op::FloatMul, current, factor, Repr::Float(64));
    own_store(origin, o, result, next);
    let o = store(o, result, next);
    own_loop_end(origin, o, l);
    let o = loop_end(o, l);
    own_load(origin, o, Repr::Float(64), result);
}

pub broadcast proof fn own_compile_float_op(origin: Out, o: Out, op: BinOp, l: Value, r: Value)
    requires
        grows(origin, o),
    ensures
        compile_float_op(o, op, l, r) is Ok ==> #[trigger] grows(origin, compile_float_op(o, op, l, r)->Ok_0.0),
        compile_float_op(o, op, l, r) is Ok ==> o.code.len() <= compile_float_op(o, op, l, r)->Ok_0.0.code.len(),
{
    reveal(compile_float_op);
    match op {
        BinOp::Add => {
            own_give2(origin, o, Op::FloatAdd, l, r, l.repr);
            let (o, v) = give2(o, Op::FloatAdd, l, r, l.repr);
        },
        BinOp::Sub => {
            own_give2(origin, o, Op::FloatSub, l, r, l.repr);
            let (o, v) = give2(o, Op::FloatSub, l, r, l.repr);
        },
        BinOp::Mul => {
            own_give2(origin, o, Op::FloatMul, l, r, l.repr);
            let (o, v) = give2(o, Op::FloatMul, l, r, l.repr);
        },
        BinOp::Div => {
            own_give2(origin, o, Op::FloatDiv, l, r, l.repr);
            let (o, v) = give2(o, Op::FloatDiv, l, r, l.repr);
        },
        BinOp::Pow => {
            own_coerce_float(origin, o, l, 64);
            let (o, a) = coerce_float(o, l, 64);
            own_coerce_float(origin, o, r, 64);
            let (o, b) = coerce_float(o, r, 64);
            own_call2(origin, o, Rt::Pow, a, b);
            let (o, v) = call2(o, Rt::Pow, a, b);
        },
        BinOp::Tetration => {
            own_coerce_float(origin, o, l, 64);
            let (o, a) = coerce_float(o, l, 64);
            own_coerce_float(origin, o, r, 64);
            let (o, b) = coerce_float(o, r, 64);
            own_compile_tetration(origin, o, a, b);
            let (o, v) = compile_tetration(o, a, b);
        },
        BinOp::Eq | BinOp::Ne | BinOp::Lt | BinOp::Gt | BinOp::Le | BinOp::Ge => {
            own_give2(origin, o, Op::FloatTest(test_of(op)), l, r, Repr::Int(1));
            let (o, v) = give2(o, Op::FloatTest(test_of(op)), l, r, Repr::Int(1));
        },
        BinOp::And | BinOp::Or | BinOp::Concat => {
        },
    }
}

pub broadcast proof fn own_compile_float_binary(origin: Out, o: Out, op: BinOp, l: Value, r: Value)
    requires
        grows(origin, o),
    ensures
        compile_float_binary(o, op, l, r) is Ok ==> #[trigger] grows(origin, compile_float_binary(o, op, l, r)->Ok_0.0),
        compile_float_binary(o, op, l, r) is Ok ==> o.code.len() <= compile_float_binary(o, op, l, r)->Ok_0.0.code.len(),
{
    reveal(compile_float_binary);
    match (l.repr, r.repr) {
        (Repr::Float(a), Repr::Float(b)) => {
            own_coerce_float(origin, o, l, max_width(a, b));
            let (o, x) = coerce_float(o, l, max_width(a, b));
            own_coerce_float(origin, o, r, max_width(a, b));
            let (o, y) = coerce_float(o, r, max_width(a, b));
            own_compile_float_op(origin, o, op, x, y);
        },
        _ => {
        },
    }
}

pub broadcast proof fn own_compile_bool_binary(origin: Out, o: Out, op: BinOp, l: Value, r: Value)
    requires
        grows(origin, o),
    ensures
        compile_bool_binary(o, op, l, r) is Ok ==> #[trigger] grows(origin, compile_bool_binary(o, op, l, r)->Ok_0.0),
        compile_bool_binary(o, op, l, r) is Ok ==> o.code.len() <= compile_bool_binary(o, op, l, r)->Ok_0.0.code.len(),
{
    reveal(compile_bool_binary);
    match op {
        BinOp::Eq | BinOp::Ne => {
            own_int_test(origin, o, test_of(op), l, r);
            let (o, v) = int_test(o, test_of(op), l, r);
        },
        BinOp::And => {
            own_give2(origin, o, Op::And, l, r, Repr::Int(1));
            let (o, v) = give2(o, Op::And, l, r, Repr::Int(1));
        },
        BinOp::Or => {
            own_give2(origin, o, Op::Or, l, r, Repr::Int(1));
            let (o, v) = give2(o, Op::Or, l, r, Repr::Int(1));
        },
        _ => {
        },
    }
}

pub broadcast proof fn own_compile_order(origin: Out, o: Out, op: BinOp, order: Rt, l: Value, r: Value)
    requires
        grows(origin, o),
    ensures
        #[trigger] grows(origin, compile_order(o, op, order, l, r).0),
        o.code.len() <= compile_order(o, op, order, l, r).0.code.len(),
{
    reveal(compile_order);
    own_unwrap(origin, o, l);
    let (o, a) = unwrap(o, l);
    own_unwrap(origin, o, r);
    let (o, b) = unwrap(o, r);
    own_call2(origin, o, order, a, b);
    let (o, c) = call2(o, order, a, b);
    own_const_int(origin, o, 32, 0);
    let (o, zero) = const_int(o, 32, 0);
    own_int_test(origin, o, test_of(op), c, zero);
}

pub broadcast proof fn own_compile_bignum_tetration(origin: Out, o: Out, base: Value, height: Value, precision: u32)
    requires
        grows(origin, o),
    ensures
        #[trigger] grows(origin, compile_bignum_tetration(o, base, height, precision).0),
        o.code.len() <= compile_bignum_tetration(o, base, height, precision).0.code.len(),
{
    reveal(compile_bignum_tetration);
    own_call1(origin, o, Rt::BignumGetI64, height);
    let (o, n) = call1(o, Rt::BignumGetI64, height);
    own_bignum_new(origin, o, precision);
    let (o, acc) = bignum_new(o, precision);
    own_run2(origin, o, Rt::BignumCopy, acc, base);
    let o = run2(o, Rt::BignumCopy, acc, base);
    own_loop_begin(origin, o, 2, Test::Le, n);
    let (o, l) = loop_begin(o, 2, Test::Le, n);
    own_run3(origin, o, Rt::BignumPow, acc, base, acc);
    let o = run3(o, Rt::BignumPow, acc, base, acc);
    own_loop_end(origin, o, l);
    let o = loop_end(o, l);
}

pub broadcast proof fn own_compile_bignum_factorial(origin: Out, o: Out, v: Value)
    requires
        grows(origin, o),
    ensures
        #[trigger] grows(origin, compile_bignum_factorial(o, v).0),
        o.code.len() <= compile_bignum_factorial(o, v).0.code.len(),
{
    reveal(compile_bignum_factorial);
    own_call1(origin, o, Rt::BignumGetI64, v);
    let (o, n) = call1(o, Rt::BignumGetI64, v);
    own_bignum_new(origin, o, DEFAULT_BIGNUM_PRECISION);
    let (o, first) = bignum_new(o, DEFAULT_BIGNUM_PRECISION);
    own_const_float(origin, o, "1"@);
    let (o, one) = const_float(o, "1"@);
    own_run2(origin, o, Rt::BignumSetD, first, one);
    let o = run2(o, Rt::BignumSetD, first, one);
    own_slot(origin, o, Repr::Ptr, "fact_bignum_result"@);
    let (o, result) = slot(o, Repr::Ptr, "fact_bignum_result"@);
    own_store(origin, o, result, first);
    let o = store(o, result, first);
    own_loop_begin(origin, o, 2, Test::Le, n);
    let (o, l) = loop_begin(o, 2, Test::Le, n);
    own_load(origin, o, Repr::Ptr, result);
    let (o, current) = load(o, Repr::Ptr, result);
    own_give1(origin, o, Op::IntToFloat, l.counter, Repr::Float(64));
    let (o, f) = give1(o, Op::IntToFloat, l.counter, Repr::Float(64));
    own_bignum_new(origin, o, DEFAULT_BIGNUM_PRECISION);
    let (o, factor) = bignum_new(o, DEFAULT_BIGNUM_PRECISION);
    own_run2(origin, o, Rt::BignumSetD, factor, f);
    let o = run2(o, Rt::BignumSetD, factor, f);
    own_bignum_new(origin, o, DEFAULT_BIGNUM_PRECISION);
    let (o, next) = bignum_new(o, DEFAULT_BIGNUM_PRECISION);
    own_run3(origin, o, Rt::BignumMul, next, current, factor);
    let o = run3(o, Rt::BignumMul, next, current, factor);
    own_run1(origin, o, Rt::BignumFree, current);
    let o = run1(o, Rt::BignumFree, current);
    own_run1(origin, o, Rt::BignumFree, factor);
    let o = run1(o, Rt::BignumFree, factor);
    own_store(origin, o, result, next);
    let o = store(o, result, next);
    own_loop_end(origin, o, l);
    let o = loop_end(o, l);
    own_load(origin, o, Repr::Ptr, result);
}

pub broadcast proof fn own_value_fmt(origin: Out, o: Out, v: Value)
    requires
        grows(origin, o),
    ensures
        value_fmt(o, v) is Ok ==> #[trigger] grows(origin, value_fmt(o, v)->Ok_0.0),
        value_fmt(o, v) is Ok ==> o.code.len() <= value_fmt(o, v)->Ok_0.0.code.len(),
{
    reveal(value_fmt);
    match v.repr {
        Repr::Float(_) => {
            own_coerce_float(origin, o, v, 64);
            let (o, f) = coerce_float(o, v, 64);
        },
        Repr::Ptr => {
        },
        Repr::Int(1) => {
            own_const_str(origin, o, "true"@);
            let (o, yes) = const_str(o, "true"@);
            own_const_str(origin, o, "false"@);
            let (o, no) = const_str(o, "false"@);
            own_give3(origin, o, Op::Select, v, yes, no, Repr::Ptr);
            let (o, t) = give3(o, Op::Select, v, yes, no, Repr::Ptr);
        },
        Repr::Int(_) => {
            own_coerce_int_width(origin, o, v, 64);
            let (o, n) = coerce_int_width(o, v, 64);
        },
        Repr::BigInt => {
            own_unwrap(origin, o, v);
            let (o, p) = unwrap(o, v);
            own_call1(origin, o, Rt::BigintToString, p);
            let (o, t) = call1(o, Rt::BigintToString, p);
        },
        Repr::Handle => {
            own_unwrap(origin, o, v);
            let (o, p) = unwrap(o, v);
            own_call1(origin, o, Rt::BignumToString, p);
            let (o, t) = call1(o, Rt::BignumToString, p);
        },
        _ => {
        },
    }
}

pub broadcast proof fn own_free_shown(origin: Out, o: Out, repr: Repr, text: Value)
    requires
        grows(origin, o),
    ensures
        #[trigger] grows(origin, free_shown(o, repr, text)),
        o.code.len() <= free_shown(o, repr, text).code.len(),
{
    reveal(free_shown);
    match repr {
        Repr::Handle | Repr::BigInt => {
            own_run1(origin, o, Rt::Free, text);
            let o = run1(o, Rt::Free, text);
        },
        _ => {
        },
    }
}

#[verifier::rlimit(60)]
pub broadcast proof fn own_format_pair(origin: Out, o: Out, format: Seq<char>, a: Value, b: Value)
    requires
        grows(origin, o),
    ensures
        #[trigger] grows(origin, format_pair(o, format, a, b).0),
        o.code.len() <= format_pair(o, format, a, b).0.code.len(),
{
    reveal(format_pair);
    own_const_str(origin, o, format);
    let (o, f) = const_str(o, format);
    own_null(origin, o);
    let (o, nowhere) = null(o);
    own_const_int(origin, o, 64, 0);
    let (o, nothing) = const_int(o, 64, 0);
    own_call_list(origin, o, Rt::Snprintf, seq![nowhere, nothing, f, a, b]);
    let (o, n) = call_list(o, Rt::Snprintf, seq![nowhere, nothing, f, a, b]);
    own_give1(origin, o, Op::ZeroExtend(64), n, Repr::Int(64));
    let (o, wide) = give1(o, Op::ZeroExtend(64), n, Repr::Int(64));
    own_const_int(origin, o, 64, 1);
    let (o, one) = const_int(o, 64, 1);
    own_give2(origin, o, Op::IntAdd, wide, one, Repr::Int(64));
    let (o, size) = give2(o, Op::IntAdd, wide, one, Repr::Int(64));
    own_call1(origin, o, Rt::Malloc, size);
    let (o, buffer) = call1(o, Rt::Malloc, size);
    own_call_list(origin, o, Rt::Snprintf, seq![buffer, size, f, a, b]);
    let (o, filled) = call_list(o, Rt::Snprintf, seq![buffer, size, f, a, b]);
}

pub broadcast proof fn own_compile_concat(origin: Out, o: Out, l: Value, r: Value)
    requires
        grows(origin, o),
    ensures
        compile_concat(o, l, r) is Ok ==> #[trigger] grows(origin, compile_concat(o, l, r)->Ok_0.0),
        compile_concat(o, l, r) is Ok ==> o.code.len() <= compile_concat(o, l, r)->Ok_0.0.code.len(),
{
    reveal(compile_concat);
    own_value_fmt(origin, o, l);
    if let Ok((o, a)) = value_fmt(o, l) {
        own_value_fmt(origin, o, r);
        if let Ok((o, b)) = value_fmt(o, r) {
            let format = pair_format(l.repr, r.repr);
            own_format_pair(origin, o, format, a, b);
            let (o, buffer) = format_pair(o, format, a, b);
            own_free_shown(origin, o, l.repr, a);
            let o = free_shown(o, l.repr, a);
            own_free_shown(origin, o, r.repr, b);
            let o = free_shown(o, r.repr, b);
        }
    }
}

pub broadcast proof fn own_default_return(origin: Out, o: Out, ty: Type)
    requires
        grows(origin, o),
    ensures
        #[trigger] grows(origin, default_return(o, ty)),
        o.code.len() <= default_return(o, ty).code.len(),
{
    reveal(default_return);
    match ty {
        Type::Void => {
            own_do0(origin, o, Op::RetVoid);
            let o = do0(o, Op::RetVoid);
        },
        Type::Num(w) | Type::NumW(w) => {
            own_const_float(origin, o, "0"@);
            let (o, zero) = const_float(o, "0"@);
            own_coerce_float(origin, o, zero, w);
            let (o, v) = coerce_float(o, zero, w);
            own_do1(origin, o, Op::Ret, v);
            let o = do1(o, Op::Ret, v);
        },
        Type::Bool => {
            own_const_int(origin, o, 1, 0);
            let (o, v) = const_int(o, 1, 0);
            own_do1(origin, o, Op::Ret, v);
            let o = do1(o, Op::Ret, v);
        },
        Type::Int(w) => {
            own_const_int(origin, o, w, 0);
            let (o, v) = const_int(o, w, 0);
            own_do1(origin, o, Op::Ret, v);
            let o = do1(o, Op::Ret, v);
        },
        Type::Str | Type::File => {
            own_null(origin, o);
            let (o, v) = null(o);
            own_do1(origin, o, Op::Ret, v);
            let o = do1(o, Op::Ret, v);
        },
        Type::BigNum(_) | Type::Array(_) => {
            own_null(origin, o);
            let (o, p) = null(o);
            own_wrap(origin, o, Repr::Handle, p);
            let (o, v) = wrap(o, Repr::Handle, p);
            own_do1(origin, o, Op::Ret, v);
            let o = do1(o, Op::Ret, v);
        },
        Type::BigInt => {
            own_null(origin, o);
            let (o, p) = null(o);
            own_wrap(origin, o, Repr::BigInt, p);
            let (o, v) = wrap(o, Repr::BigInt, p);
            own_do1(origin, o, Op::Ret, v);
            let o = do1(o, Op::Ret, v);
        },
    }
}

/// What each step adds.
pub broadcast group group_own {
    own_give0,
    own_do0,
    own_call0,
    own_give1,
    own_do1,
    own_call1,
    own_run1,
    own_give2,
    own_do2,
    own_call2,
    own_run2,
    own_give3,
    own_do3,
    own_run3,
    own_call_list,
    own_call_function,
    own_block,
    own_at,
    own_jump,
    own_branch,
    own_slot,
    own_store,
    own_load,
    own_const_float,
    own_const_int,
    own_const_str,
    own_null,
    own_size_of,
    own_wrap,
    own_unwrap,
    own_int_test,
    own_crash_if,
    own_loop_begin,
    own_loop_end,
    own_coerce_float,
    own_coerce_int_width,
    own_bignum_new,
    own_coerce_to_bignum,
    own_coerce_to_bigint,
    own_free_scalar,
    own_free_elements,
    own_free_value,
    own_free_slot,
    own_copy_element,
    own_coerce_to_array,
    own_coerce_to_type,
    own_checked_result,
    own_checked_int_arith,
    own_compile_int_div,
    own_compile_int_neg,
    own_compile_int_pow,
    own_compile_int_tetration,
    own_compile_int_factorial,
    own_compile_binary_int_op,
    own_compile_int_binary,
    own_compile_tetration,
    own_compile_factorial,
    own_compile_float_op,
    own_compile_float_binary,
    own_compile_bool_binary,
    own_compile_order,
    own_compile_bignum_tetration,
    own_compile_bignum_factorial,
    own_value_fmt,
    own_free_shown,
    own_format_pair,
    own_compile_concat,
    own_default_return,
}

} // verus!
