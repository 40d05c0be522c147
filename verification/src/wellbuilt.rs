//! The code that comes out is well built.
//!
//! Every operand of an instruction is the value of an earlier instruction, and nothing stands
//! behind the end of a block but the start of another one.

use vstd::prelude::*;
use crate::ast::{BinOp, DEFAULT_BIGNUM_PRECISION, Type};
use crate::emit::{
    at, bignum_new, block, branch, call0, call1, call2, call_function, call_list, checked_int_arith,
    checked_result, coerce_float, coerce_int_width, coerce_to_array, coerce_to_bigint, coerce_to_bignum,
    coerce_to_type, compile_bignum_factorial, compile_bignum_tetration, compile_binary_int_op, compile_bool_binary,
    compile_concat, compile_factorial, compile_float_binary, compile_float_op, compile_int_binary, compile_int_div,
    compile_int_factorial, compile_int_neg, compile_int_pow, compile_int_tetration, compile_order,
    compile_tetration, const_float, const_int, const_str, copy_element, crash_if, default_return, do0, do1, do2,
    do3, emit, ends_block, format_pair, free_elements, free_scalar, free_shown, free_slot, free_value, give0,
    give1, give2, give3, ids, int_test, is_owned, jump, load, loop_begin, loop_end, null, pair_format, run1, run2,
    run3, size_of, slot, starts_block, store, test_of, unwrap, value_fmt, wrap, Looping, Out,
};
use crate::ir::{basic_type, InstV, Op, Repr, Rt, Test, Value};
use crate::numeral::decimal;
use crate::typing::max_width;

verus! {

/// Whether the block that is being filled has ended after the first `n` instructions.
pub open spec fn ended_after(code: Seq<InstV>, n: int) -> bool
    decreases n,
{
    if n <= 0 || n > code.len() {
        false
    } else if ends_block(code[n - 1].op) {
        true
    } else if starts_block(code[n - 1].op) {
        false
    } else {
        ended_after(code, n - 1)
    }
}

/// Whether an instruction may stand behind the end of a block.
pub open spec fn between_blocks(op: Op) -> bool {
    starts_block(op) || op is Block
}

/// Every operand is the value of an earlier instruction.
pub open spec fn operands_come_first(code: Seq<InstV>) -> bool {
    forall|i: int, j: int| 0 <= i < code.len() && 0 <= j < code[i].args.len() ==> (#[trigger] code[i].args[j]) < i
}

/// Nothing stands behind the end of a block but the start of another one.
pub open spec fn blocks_are_closed(code: Seq<InstV>) -> bool {
    forall|i: int| 0 <= i < code.len() && ended_after(code, i) ==> between_blocks(#[trigger] code[i].op)
}

/// Well-built code, as long as the places of its instructions can be counted.
pub open spec fn well_built(code: Seq<InstV>) -> bool {
    code.len() <= usize::MAX ==> operands_come_first(code) && blocks_are_closed(code)
}

/// Well-built code so far.
#[verifier::opaque]
pub open spec fn good(o: Out) -> bool {
    well_built(o.code) && o.ended == ended_after(o.code, o.code.len() as int)
}

/// A value of an earlier instruction.
pub open spec fn valid(v: Value, o: Out) -> bool {
    o.code.len() <= usize::MAX ==> v.id < o.code.len()
}

/// Values of earlier instructions.
pub open spec fn valid_all(vs: Seq<Value>, o: Out) -> bool {
    forall|i: int| 0 <= i < vs.len() ==> valid(#[trigger] vs[i], o)
}

/// A loop that was started.
pub open spec fn valid_loop(l: Looping, o: Out) -> bool {
    valid(l.counter, o) && valid(l.place, o) && valid(l.head, o) && valid(l.done, o)
}

/// Whether an instruction may come next.
pub open spec fn may_follow(o: Out, op: Op) -> bool {
    !o.ended || between_blocks(op)
}

/// Whether the block has ended after an instruction.
pub open spec fn ended_by(o: Out, op: Op) -> bool {
    if ends_block(op) {
        true
    } else if starts_block(op) {
        false
    } else {
        o.ended
    }
}

proof fn lemma_ended_prefix(code: Seq<InstV>, inst: InstV, n: int)
    requires
        n <= code.len(),
    ensures
        ended_after(code.push(inst), n) == ended_after(code, n),
    decreases n,
{
    if 0 < n {
        lemma_ended_prefix(code, inst, n - 1);
    }
}

pub proof fn lemma_emit(o: Out, op: Op, args: Seq<usize>, text: Seq<char>)
    requires
        good(o),
        may_follow(o, op),
        forall|i: int| 0 <= i < args.len() && o.code.len() <= usize::MAX ==> (#[trigger] args[i]) < o.code.len(),
    ensures
        good(emit(o, op, args, text)),
        emit(o, op, args, text).code.len() == o.code.len() + 1,
        emit(o, op, args, text).ended == ended_by(o, op),
{
    reveal(emit);
    reveal(good);
    let inst = InstV { op, args, text };
    let code = o.code.push(inst);
    assert forall|i: int| 0 <= i < code.len() && ended_after(code, i) && code.len() <= usize::MAX implies between_blocks(
        #[trigger] code[i].op,
    ) by {
        lemma_ended_prefix(o.code, inst, i);
        if i < o.code.len() {
            assert(code[i] == o.code[i]);
        }
    }
    assert forall|i: int, j: int|
        0 <= i < code.len() && 0 <= j < code[i].args.len() && code.len() <= usize::MAX implies (#[trigger] code[i].args[j])
        < i by {
        if i < o.code.len() {
            assert(code[i] == o.code[i]);
        } else {
            assert(code[i].args[j] == args[j]);
        }
    }
    lemma_ended_prefix(o.code, inst, o.code.len() as int);
}

pub proof fn well_call_list(o: Out, f: Rt, vs: Seq<Value>)
    requires
        good(o),
        !o.ended,
        valid_all(vs, o),
    ensures
        good(call_list(o, f, vs).0),
        o.code.len() < call_list(o, f, vs).0.code.len(),
        valid(call_list(o, f, vs).1, call_list(o, f, vs).0),
        !call_list(o, f, vs).0.ended,
{
    reveal(call_list);
    assert forall|i: int| 0 <= i < ids(vs).len() && o.code.len() <= usize::MAX implies (#[trigger] ids(vs)[i])
        < o.code.len() by {
        assert(valid(vs[i], o));
    }
    lemma_emit(o, Op::Call(f), ids(vs), ""@);
}

pub proof fn lemma_valid_five(o: Out, a: Value, b: Value, c: Value, d: Value, e: Value)
    requires
        valid(a, o),
        valid(b, o),
        valid(c, o),
        valid(d, o),
        valid(e, o),
    ensures
        valid_all(seq![a, b, c, d, e], o),
{
}

pub proof fn well_call_function(o: Out, k: usize, vs: Seq<Value>, repr: Repr)
    requires
        good(o),
        !o.ended,
        valid_all(vs, o),
    ensures
        good(call_function(o, k, vs, repr).0),
        o.code.len() < call_function(o, k, vs, repr).0.code.len(),
        valid(call_function(o, k, vs, repr).1, call_function(o, k, vs, repr).0),
        call_function(o, k, vs, repr).1.id == o.code.len() as usize,
        !call_function(o, k, vs, repr).0.ended,
{
    reveal(call_function);
    assert forall|i: int| 0 <= i < ids(vs).len() && o.code.len() <= usize::MAX implies (#[trigger] ids(vs)[i])
        < o.code.len() by {
        assert(valid(vs[i], o));
    }
    lemma_emit(o, Op::CallFunction(k), ids(vs), ""@);
}

pub proof fn well_give0(o: Out, op: Op, text: Seq<char>, repr: Repr)
    requires
        good(o),
        may_follow(o, op),
    ensures
        good(give0(o, op, text, repr).0),
        o.code.len() < give0(o, op, text, repr).0.code.len(),
        valid(give0(o, op, text, repr).1, give0(o, op, text, repr).0),
        give0(o, op, text, repr).0.ended == ended_by(o, op),
{
    reveal(give0);
    lemma_emit(o, op, Seq::<usize>::empty(), text);
}

pub proof fn well_do0(o: Out, op: Op)
    requires
        good(o),
        may_follow(o, op),
    ensures
        good(do0(o, op)),
        o.code.len() < do0(o, op).code.len(),
        do0(o, op).ended == ended_by(o, op),
{
    reveal(do0);
    lemma_emit(o, op, Seq::<usize>::empty(), ""@);
}

pub proof fn well_call0(o: Out, f: Rt)
    requires
        good(o),
        !o.ended,
    ensures
        good(call0(o, f).0),
        o.code.len() < call0(o, f).0.code.len(),
        valid(call0(o, f).1, call0(o, f).0),
        !call0(o, f).0.ended,
{
    reveal(call0);
    lemma_emit(o, Op::Call(f), Seq::<usize>::empty(), ""@);
}

pub proof fn well_give1(o: Out, op: Op, a: Value, repr: Repr)
    requires
        good(o),
        may_follow(o, op),
        valid(a, o),
    ensures
        good(give1(o, op, a, repr).0),
        o.code.len() < give1(o, op, a, repr).0.code.len(),
        valid(give1(o, op, a, repr).1, give1(o, op, a, repr).0),
        give1(o, op, a, repr).0.ended == ended_by(o, op),
{
    reveal(give1);
    lemma_emit(o, op, seq![a.id], ""@);
}

pub proof fn well_do1(o: Out, op: Op, a: Value)
    requires
        good(o),
        may_follow(o, op),
        valid(a, o),
    ensures
        good(do1(o, op, a)),
        o.code.len() < do1(o, op, a).code.len(),
        do1(o, op, a).ended == ended_by(o, op),
{
    reveal(do1);
    lemma_emit(o, op, seq![a.id], ""@);
}

pub proof fn well_call1(o: Out, f: Rt, a: Value)
    requires
        good(o),
        !o.ended,
        valid(a, o),
    ensures
        good(call1(o, f, a).0),
        o.code.len() < call1(o, f, a).0.code.len(),
        valid(call1(o, f, a).1, call1(o, f, a).0),
        !call1(o, f, a).0.ended,
{
    reveal(call1);
    lemma_emit(o, Op::Call(f), seq![a.id], ""@);
}

pub proof fn well_run1(o: Out, f: Rt, a: Value)
    requires
        good(o),
        !o.ended,
        valid(a, o),
    ensures
        good(run1(o, f, a)),
        o.code.len() < run1(o, f, a).code.len(),
        !run1(o, f, a).ended,
{
    reveal(run1);
    lemma_emit(o, Op::Call(f), seq![a.id], ""@);
}

pub proof fn well_give2(o: Out, op: Op, a: Value, b: Value, repr: Repr)
    requires
        good(o),
        may_follow(o, op),
        valid(a, o),
        valid(b, o),
    ensures
        good(give2(o, op, a, b, repr).0),
        o.code.len() < give2(o, op, a, b, repr).0.code.len(),
        valid(give2(o, op, a, b, repr).1, give2(o, op, a, b, repr).0),
        give2(o, op, a, b, repr).0.ended == ended_by(o, op),
{
    reveal(give2);
    lemma_emit(o, op, seq![a.id, b.id], ""@);
}

pub proof fn well_do2(o: Out, op: Op, a: Value, b: Value)
    requires
        good(o),
        may_follow(o, op),
        valid(a, o),
        valid(b, o),
    ensures
        good(do2(o, op, a, b)),
        o.code.len() < do2(o, op, a, b).code.len(),
        do2(o, op, a, b).ended == ended_by(o, op),
{
    reveal(do2);
    lemma_emit(o, op, seq![a.id, b.id], ""@);
}

pub proof fn well_call2(o: Out, f: Rt, a: Value, b: Value)
    requires
        good(o),
        !o.ended,
        valid(a, o),
        valid(b, o),
    ensures
        good(call2(o, f, a, b).0),
        o.code.len() < call2(o, f, a, b).0.code.len(),
        valid(call2(o, f, a, b).1, call2(o, f, a, b).0),
        !call2(o, f, a, b).0.ended,
{
    reveal(call2);
    lemma_emit(o, Op::Call(f), seq![a.id, b.id], ""@);
}

pub proof fn well_run2(o: Out, f: Rt, a: Value, b: Value)
    requires
        good(o),
        !o.ended,
        valid(a, o),
        valid(b, o),
    ensures
        good(run2(o, f, a, b)),
        o.code.len() < run2(o, f, a, b).code.len(),
        !run2(o, f, a, b).ended,
{
    reveal(run2);
    lemma_emit(o, Op::Call(f), seq![a.id, b.id], ""@);
}

pub proof fn well_give3(o: Out, op: Op, a: Value, b: Value, c: Value, repr: Repr)
    requires
        good(o),
        may_follow(o, op),
        valid(a, o),
        valid(b, o),
        valid(c, o),
    ensures
        good(give3(o, op, a, b, c, repr).0),
        o.code.len() < give3(o, op, a, b, c, repr).0.code.len(),
        valid(give3(o, op, a, b, c, repr).1, give3(o, op, a, b, c, repr).0),
        give3(o, op, a, b, c, repr).0.ended == ended_by(o, op),
{
    reveal(give3);
    lemma_emit(o, op, seq![a.id, b.id, c.id], ""@);
}

pub proof fn well_do3(o: Out, op: Op, a: Value, b: Value, c: Value)
    requires
        good(o),
        may_follow(o, op),
        valid(a, o),
        valid(b, o),
        valid(c, o),
    ensures
        good(do3(o, op, a, b, c)),
        o.code.len() < do3(o, op, a, b, c).code.len(),
        do3(o, op, a, b, c).ended == ended_by(o, op),
{
    reveal(do3);
    lemma_emit(o, op, seq![a.id, b.id, c.id], ""@);
}

pub proof fn well_run3(o: Out, f: Rt, a: Value, b: Value, c: Value)
    requires
        good(o),
        !o.ended,
        valid(a, o),
        valid(b, o),
        valid(c, o),
    ensures
        good(run3(o, f, a, b, c)),
        o.code.len() < run3(o, f, a, b, c).code.len(),
        !run3(o, f, a, b, c).ended,
{
    reveal(run3);
    lemma_emit(o, Op::Call(f), seq![a.id, b.id, c.id], ""@);
}

pub proof fn well_block(o: Out, name: Seq<char>)
    requires
        good(o),
        !o.ended,
    ensures
        good(block(o, name).0),
        o.code.len() <= block(o, name).0.code.len(),
        valid(block(o, name).1, block(o, name).0),
        !block(o, name).0.ended,
{
    reveal(block);
    well_give0(o, Op::Block, name, Repr::Void);
}

pub proof fn well_at(o: Out, b: Value)
    requires
        good(o),
        valid(b, o),
    ensures
        good(at(o, b)),
        o.code.len() <= at(o, b).code.len(),
        !at(o, b).ended,
{
    reveal(at);
    well_do1(o, Op::At, b);
    let o = do1(o, Op::At, b);
}

pub proof fn well_jump(o: Out, b: Value)
    requires
        good(o),
        !o.ended,
        valid(b, o),
    ensures
        good(jump(o, b)),
        o.code.len() <= jump(o, b).code.len(),
        jump(o, b).ended,
{
    reveal(jump);
    well_do1(o, Op::Jump, b);
    let o = do1(o, Op::Jump, b);
}

pub proof fn well_branch(o: Out, cond: Value, yes: Value, no: Value)
    requires
        good(o),
        !o.ended,
        valid(cond, o),
        valid(yes, o),
        valid(no, o),
    ensures
        good(branch(o, cond, yes, no)),
        o.code.len() <= branch(o, cond, yes, no).code.len(),
        branch(o, cond, yes, no).ended,
{
    reveal(branch);
    well_do3(o, Op::Branch, cond, yes, no);
    let o = do3(o, Op::Branch, cond, yes, no);
}

pub proof fn well_slot(o: Out, repr: Repr, name: Seq<char>)
    requires
        good(o),
        !o.ended,
    ensures
        good(slot(o, repr, name).0),
        o.code.len() <= slot(o, repr, name).0.code.len(),
        valid(slot(o, repr, name).1, slot(o, repr, name).0),
        !slot(o, repr, name).0.ended,
{
    reveal(slot);
    well_give0(o, Op::Slot(repr), name, Repr::Ptr);
}

pub proof fn well_store(o: Out, place: Value, v: Value)
    requires
        good(o),
        !o.ended,
        valid(place, o),
        valid(v, o),
    ensures
        good(store(o, place, v)),
        o.code.len() <= store(o, place, v).code.len(),
        !store(o, place, v).ended,
{
    reveal(store);
    well_do2(o, Op::Store, place, v);
    let o = do2(o, Op::Store, place, v);
}

pub proof fn well_load(o: Out, repr: Repr, place: Value)
    requires
        good(o),
        !o.ended,
        valid(place, o),
    ensures
        good(load(o, repr, place).0),
        o.code.len() <= load(o, repr, place).0.code.len(),
        valid(load(o, repr, place).1, load(o, repr, place).0),
        !load(o, repr, place).0.ended,
{
    reveal(load);
    well_give1(o, Op::Load(repr), place, repr);
}

pub proof fn well_const_float(o: Out, text: Seq<char>)
    requires
        good(o),
        !o.ended,
    ensures
        good(const_float(o, text).0),
        o.code.len() <= const_float(o, text).0.code.len(),
        valid(const_float(o, text).1, const_float(o, text).0),
        !const_float(o, text).0.ended,
{
    reveal(const_float);
    well_give0(o, Op::ConstFloat, text, Repr::Float(64));
}

pub proof fn well_const_int(o: Out, width: u32, v: i64)
    requires
        good(o),
        !o.ended,
    ensures
        good(const_int(o, width, v).0),
        o.code.len() <= const_int(o, width, v).0.code.len(),
        valid(const_int(o, width, v).1, const_int(o, width, v).0),
        !const_int(o, width, v).0.ended,
{
    reveal(const_int);
    well_give0(o, Op::ConstInt(width, v), ""@, Repr::Int(width));
}

pub proof fn well_const_str(o: Out, text: Seq<char>)
    requires
        good(o),
        !o.ended,
    ensures
        good(const_str(o, text).0),
        o.code.len() <= const_str(o, text).0.code.len(),
        valid(const_str(o, text).1, const_str(o, text).0),
        !const_str(o, text).0.ended,
{
    reveal(const_str);
    well_give0(o, Op::ConstStr, text, Repr::Ptr);
}

pub proof fn well_null(o: Out)
    requires
        good(o),
        !o.ended,
    ensures
        good(null(o).0),
        o.code.len() <= null(o).0.code.len(),
        valid(null(o).1, null(o).0),
        !null(o).0.ended,
{
    reveal(null);
    well_give0(o, Op::Null, ""@, Repr::Ptr);
}

pub proof fn well_size_of(o: Out, repr: Repr)
    requires
        good(o),
        !o.ended,
    ensures
        good(size_of(o, repr).0),
        o.code.len() <= size_of(o, repr).0.code.len(),
        valid(size_of(o, repr).1, size_of(o, repr).0),
        !size_of(o, repr).0.ended,
{
    reveal(size_of);
    well_give0(o, Op::SizeOf(repr), ""@, Repr::Int(64));
}

pub proof fn well_wrap(o: Out, repr: Repr, p: Value)
    requires
        good(o),
        !o.ended,
        valid(p, o),
    ensures
        good(wrap(o, repr, p).0),
        o.code.len() <= wrap(o, repr, p).0.code.len(),
        valid(wrap(o, repr, p).1, wrap(o, repr, p).0),
        !wrap(o, repr, p).0.ended,
{
    reveal(wrap);
    well_give1(o, Op::Wrap(repr), p, repr);
}

pub proof fn well_unwrap(o: Out, v: Value)
    requires
        good(o),
        !o.ended,
        valid(v, o),
    ensures
        good(unwrap(o, v).0),
        o.code.len() <= unwrap(o, v).0.code.len(),
        valid(unwrap(o, v).1, unwrap(o, v).0),
        !unwrap(o, v).0.ended,
{
    reveal(unwrap);
    well_give1(o, Op::Unwrap, v, Repr::Ptr);
}

pub proof fn well_int_test(o: Out, test: Test, l: Value, r: Value)
    requires
        good(o),
        !o.ended,
        valid(l, o),
        valid(r, o),
    ensures
        good(int_test(o, test, l, r).0),
        o.code.len() <= int_test(o, test, l, r).0.code.len(),
        valid(int_test(o, test, l, r).1, int_test(o, test, l, r).0),
        !int_test(o, test, l, r).0.ended,
{
    reveal(int_test);
    well_give2(o, Op::IntTest(test), l, r, Repr::Int(1));
}

pub proof fn well_crash_if(o: Out, cond: Value, message: Seq<char>)
    requires
        good(o),
        !o.ended,
        valid(cond, o),
    ensures
        good(crash_if(o, cond, message)),
        o.code.len() <= crash_if(o, cond, message).code.len(),
        !crash_if(o, cond, message).ended,
{
    reveal(crash_if);
    well_block(o, "int_crash"@);
    let (o, crash) = block(o, "int_crash"@);
    well_block(o, "int_continue"@);
    let (o, next) = block(o, "int_continue"@);
    well_branch(o, cond, crash, next);
    let o = branch(o, cond, crash, next);
    well_at(o, crash);
    let o = at(o, crash);
    well_const_str(o, message);
    let (o, text) = const_str(o, message);
    well_run1(o, Rt::IntDie, text);
    let o = run1(o, Rt::IntDie, text);
    well_do0(o, Op::Unreachable);
    let o = do0(o, Op::Unreachable);
    well_at(o, next);
    let o = at(o, next);
}

pub proof fn well_loop_begin(o: Out, first: i64, test: Test, limit: Value)
    requires
        good(o),
        !o.ended,
        valid(limit, o),
    ensures
        good(loop_begin(o, first, test, limit).0),
        o.code.len() <= loop_begin(o, first, test, limit).0.code.len(),
        valid_loop(loop_begin(o, first, test, limit).1, loop_begin(o, first, test, limit).0),
        !loop_begin(o, first, test, limit).0.ended,
{
    reveal(loop_begin);
    well_slot(o, Repr::Int(64), "loop_counter"@);
    let (o, place) = slot(o, Repr::Int(64), "loop_counter"@);
    well_const_int(o, 64, first);
    let (o, start) = const_int(o, 64, first);
    well_store(o, place, start);
    let o = store(o, place, start);
    well_block(o, "loop_head"@);
    let (o, head) = block(o, "loop_head"@);
    well_block(o, "loop_body"@);
    let (o, body) = block(o, "loop_body"@);
    well_block(o, "loop_done"@);
    let (o, done) = block(o, "loop_done"@);
    well_jump(o, head);
    let o = jump(o, head);
    well_at(o, head);
    let o = at(o, head);
    well_load(o, Repr::Int(64), place);
    let (o, counter) = load(o, Repr::Int(64), place);
    well_int_test(o, test, counter, limit);
    let (o, more) = int_test(o, test, counter, limit);
    well_branch(o, more, body, done);
    let o = branch(o, more, body, done);
    well_at(o, body);
    let o = at(o, body);
}

pub proof fn well_loop_end(o: Out, l: Looping)
    requires
        good(o),
        !o.ended,
        valid_loop(l, o),
    ensures
        good(loop_end(o, l)),
        o.code.len() <= loop_end(o, l).code.len(),
        !loop_end(o, l).ended,
{
    reveal(loop_end);
    well_const_int(o, 64, 1);
    let (o, one) = const_int(o, 64, 1);
    well_give2(o, Op::IntAdd, l.counter, one, Repr::Int(64));
    let (o, next) = give2(o, Op::IntAdd, l.counter, one, Repr::Int(64));
    well_store(o, l.place, next);
    let o = store(o, l.place, next);
    well_jump(o, l.head);
    let o = jump(o, l.head);
    well_at(o, l.done);
    let o = at(o, l.done);
}

pub proof fn well_coerce_float(o: Out, v: Value, width: u32)
    requires
        good(o),
        !o.ended,
        valid(v, o),
    ensures
        good(coerce_float(o, v, width).0),
        o.code.len() <= coerce_float(o, v, width).0.code.len(),
        valid(coerce_float(o, v, width).1, coerce_float(o, v, width).0),
        !coerce_float(o, v, width).0.ended,
{
    reveal(coerce_float);
    match v.repr {
        Repr::Float(w) => {
            if w == width {
            } else if w < width {
                well_give1(o, Op::FloatExtend(width), v, Repr::Float(width));
            } else {
                well_give1(o, Op::FloatTruncate(width), v, Repr::Float(width));
            }
        },
        _ => {
        },
    }
}

pub proof fn well_coerce_int_width(o: Out, v: Value, width: u32)
    requires
        good(o),
        !o.ended,
        valid(v, o),
    ensures
        good(coerce_int_width(o, v, width).0),
        o.code.len() <= coerce_int_width(o, v, width).0.code.len(),
        valid(coerce_int_width(o, v, width).1, coerce_int_width(o, v, width).0),
        !coerce_int_width(o, v, width).0.ended,
{
    reveal(coerce_int_width);
    match v.repr {
        Repr::Int(w) => {
            if w == width {
            } else if w < width {
                well_give1(o, Op::SignExtend(width), v, Repr::Int(width));
            } else {
                well_give1(o, Op::Truncate(width), v, Repr::Int(width));
                let (o, narrow) = give1(o, Op::Truncate(width), v, Repr::Int(width));
                well_give1(o, Op::SignExtend(w), narrow, Repr::Int(w));
                let (o, back) = give1(o, Op::SignExtend(w), narrow, Repr::Int(w));
                well_int_test(o, Test::Eq, v, back);
                let (o, same) = int_test(o, Test::Eq, v, back);
                well_give1(o, Op::Not, same, Repr::Int(1));
                let (o, overflowed) = give1(o, Op::Not, same, Repr::Int(1));
                let digits = decimal(width as nat);
                let message = "int overflow: value doesn't fit in int[precision:"@ + digits + "]"@;
                well_crash_if(o, overflowed, message);
                let o = crash_if(o, overflowed, message);
            }
        },
        _ => {
        },
    }
}

pub proof fn well_bignum_new(o: Out, precision: u32)
    requires
        good(o),
        !o.ended,
    ensures
        good(bignum_new(o, precision).0),
        o.code.len() <= bignum_new(o, precision).0.code.len(),
        valid(bignum_new(o, precision).1, bignum_new(o, precision).0),
        !bignum_new(o, precision).0.ended,
{
    reveal(bignum_new);
    well_const_int(o, 64, precision as i64);
    let (o, p) = const_int(o, 64, precision as i64);
    well_call1(o, Rt::BignumNew, p);
}

pub proof fn well_coerce_to_bignum(o: Out, v: Value, precision: u32)
    requires
        good(o),
        !o.ended,
        valid(v, o),
    ensures
        coerce_to_bignum(o, v, precision) matches Ok(r) ==> good(r.0) && o.code.len() <= r.0.code.len() && valid(r.1, r.0) && !r.0.ended,
{
    reveal(coerce_to_bignum);
    match v.repr {
        Repr::Float(_) => {
            well_bignum_new(o, precision);
            let (o, h) = bignum_new(o, precision);
            well_coerce_float(o, v, 64);
            let (o, f) = coerce_float(o, v, 64);
            well_run2(o, Rt::BignumSetD, h, f);
            let o = run2(o, Rt::BignumSetD, h, f);
            well_wrap(o, Repr::Handle, h);
            let (o, r) = wrap(o, Repr::Handle, h);
        },
        Repr::Ptr => {
            well_bignum_new(o, precision);
            let (o, h) = bignum_new(o, precision);
            well_run2(o, Rt::BignumSetStr, h, v);
            let o = run2(o, Rt::BignumSetStr, h, v);
            well_wrap(o, Repr::Handle, h);
            let (o, r) = wrap(o, Repr::Handle, h);
        },
        Repr::Handle => {
            well_bignum_new(o, precision);
            let (o, h) = bignum_new(o, precision);
            well_unwrap(o, v);
            let (o, p) = unwrap(o, v);
            well_run2(o, Rt::BignumCopy, h, p);
            let o = run2(o, Rt::BignumCopy, h, p);
            well_wrap(o, Repr::Handle, h);
            let (o, r) = wrap(o, Repr::Handle, h);
        },
        _ => {
        },
    }
}

pub proof fn well_coerce_to_bigint(o: Out, v: Value)
    requires
        good(o),
        !o.ended,
        valid(v, o),
    ensures
        coerce_to_bigint(o, v) matches Ok(r) ==> good(r.0) && o.code.len() <= r.0.code.len() && valid(r.1, r.0) && !r.0.ended,
{
    reveal(coerce_to_bigint);
    match v.repr {
        Repr::Ptr => {
            well_call0(o, Rt::BigintNew);
            let (o, h) = call0(o, Rt::BigintNew);
            well_run2(o, Rt::BigintSetStr, h, v);
            let o = run2(o, Rt::BigintSetStr, h, v);
            well_wrap(o, Repr::BigInt, h);
            let (o, r) = wrap(o, Repr::BigInt, h);
        },
        Repr::BigInt => {
            well_call0(o, Rt::BigintNew);
            let (o, h) = call0(o, Rt::BigintNew);
            well_unwrap(o, v);
            let (o, p) = unwrap(o, v);
            well_run2(o, Rt::BigintCopy, h, p);
            let o = run2(o, Rt::BigintCopy, h, p);
            well_wrap(o, Repr::BigInt, h);
            let (o, r) = wrap(o, Repr::BigInt, h);
        },
        _ => {
        },
    }
}

pub proof fn well_free_scalar(o: Out, v: Value, ty: Type)
    requires
        good(o),
        !o.ended,
        valid(v, o),
    ensures
        good(free_scalar(o, v, ty)),
        o.code.len() <= free_scalar(o, v, ty).code.len(),
        !free_scalar(o, v, ty).ended,
{
    reveal(free_scalar);
    match ty {
        Type::BigNum(_) => {
            well_unwrap(o, v);
            let (o, p) = unwrap(o, v);
            well_run1(o, Rt::BignumFree, p);
            let o = run1(o, Rt::BignumFree, p);
        },
        Type::BigInt => {
            well_unwrap(o, v);
            let (o, p) = unwrap(o, v);
            well_run1(o, Rt::BigintFree, p);
            let o = run1(o, Rt::BigintFree, p);
        },
        Type::Str | Type::File => {
            well_run1(o, Rt::Free, v);
            let o = run1(o, Rt::Free, v);
        },
        _ => {
        },
    }
}

pub proof fn well_free_elements(o: Out, h: Value, ty: Type)
    requires
        good(o),
        !o.ended,
        valid(h, o),
    ensures
        good(free_elements(o, h, ty)),
        o.code.len() <= free_elements(o, h, ty).code.len(),
        !free_elements(o, h, ty).ended,
{
    reveal(free_elements);
    if is_owned(ty) {
        well_call1(o, Rt::ArrayLength, h);
        let (o, n) = call1(o, Rt::ArrayLength, h);
        well_loop_begin(o, 1, Test::Le, n);
        let (o, l) = loop_begin(o, 1, Test::Le, n);
        well_call2(o, Rt::ArrayGetPtr, h, l.counter);
        let (o, p) = call2(o, Rt::ArrayGetPtr, h, l.counter);
        well_load(o, basic_type(ty), p);
        let (o, v) = load(o, basic_type(ty), p);
        well_free_scalar(o, v, ty);
        let o = free_scalar(o, v, ty);
        well_loop_end(o, l);
        let o = loop_end(o, l);
    } else {
    }
}

pub proof fn well_free_value(o: Out, v: Value, ty: Type)
    requires
        good(o),
        !o.ended,
        valid(v, o),
    ensures
        good(free_value(o, v, ty)),
        o.code.len() <= free_value(o, v, ty).code.len(),
        !free_value(o, v, ty).ended,
{
    reveal(free_value);
    match ty {
        Type::Array(element) => {
            well_unwrap(o, v);
            let (o, h) = unwrap(o, v);
            well_free_elements(o, h, element.as_type());
            let o = free_elements(o, h, element.as_type());
            well_run1(o, Rt::ArrayFree, h);
            let o = run1(o, Rt::ArrayFree, h);
        },
        _ => {
            well_free_scalar(o, v, ty);
            let o = free_scalar(o, v, ty);
        },
    }
}

pub proof fn well_free_slot(o: Out, place: Value, ty: Type)
    requires
        good(o),
        !o.ended,
        valid(place, o),
    ensures
        good(free_slot(o, place, ty)),
        o.code.len() <= free_slot(o, place, ty).code.len(),
        !free_slot(o, place, ty).ended,
{
    reveal(free_slot);
    if is_owned(ty) {
        well_load(o, basic_type(ty), place);
        let (o, v) = load(o, basic_type(ty), place);
        well_free_value(o, v, ty);
        let o = free_value(o, v, ty);
    } else {
    }
}

pub proof fn well_copy_element(o: Out, v: Value, ty: Type)
    requires
        good(o),
        !o.ended,
        valid(v, o),
    ensures
        copy_element(o, v, ty) matches Ok(r) ==> good(r.0) && o.code.len() <= r.0.code.len() && valid(r.1, r.0) && !r.0.ended,
{
    reveal(copy_element);
    match ty {
        Type::Str | Type::File => {
            well_call1(o, Rt::Strdup, v);
            let (o, c) = call1(o, Rt::Strdup, v);
        },
        Type::BigNum(precision) => {
            well_coerce_to_bignum(o, v, precision);
        },
        Type::BigInt => {
            well_coerce_to_bigint(o, v);
        },
        _ => {
        },
    }
}

pub proof fn well_coerce_to_array(o: Out, v: Value, ty: Type)
    requires
        good(o),
        !o.ended,
        valid(v, o),
    ensures
        coerce_to_array(o, v, ty) matches Ok(r) ==> good(r.0) && o.code.len() <= r.0.code.len() && valid(r.1, r.0) && !r.0.ended,
{
    reveal(coerce_to_array);
    match v.repr {
        Repr::Handle => {
            well_unwrap(o, v);
            let (o, source) = unwrap(o, v);
            well_size_of(o, basic_type(ty));
            let (o, size) = size_of(o, basic_type(ty));
            well_call1(o, Rt::ArrayNew, size);
            let (o, h) = call1(o, Rt::ArrayNew, size);
            well_call1(o, Rt::ArrayLength, source);
            let (o, n) = call1(o, Rt::ArrayLength, source);
            well_loop_begin(o, 1, Test::Le, n);
            let (o, l) = loop_begin(o, 1, Test::Le, n);
            well_call2(o, Rt::ArrayGetPtr, source, l.counter);
            let (o, p) = call2(o, Rt::ArrayGetPtr, source, l.counter);
            well_load(o, basic_type(ty), p);
            let (o, e) = load(o, basic_type(ty), p);
            well_copy_element(o, e, ty);
            if let Ok((o, c)) = copy_element(o, e, ty) {
                well_slot(o, basic_type(ty), "array_copy_value"@);
                let (o, place) = slot(o, basic_type(ty), "array_copy_value"@);
                well_store(o, place, c);
                let o = store(o, place, c);
                well_run2(o, Rt::ArrayAppend, h, place);
                let o = run2(o, Rt::ArrayAppend, h, place);
                well_loop_end(o, l);
                let o = loop_end(o, l);
                well_wrap(o, Repr::Handle, h);
                let (o, r) = wrap(o, Repr::Handle, h);
            }
        },
        _ => {
        },
    }
}

pub proof fn well_coerce_to_type(o: Out, v: Value, ty: Type)
    requires
        good(o),
        !o.ended,
        valid(v, o),
    ensures
        coerce_to_type(o, v, ty) matches Ok(r) ==> good(r.0) && o.code.len() <= r.0.code.len() && valid(r.1, r.0) && !r.0.ended,
{
    reveal(coerce_to_type);
    match (v.repr, ty) {
        (Repr::Float(_), Type::Num(w)) => {
            well_coerce_float(o, v, w);
            let (o, r) = coerce_float(o, v, w);
        },
        (Repr::Float(_), Type::NumW(w)) => {
            well_coerce_float(o, v, w);
            let (o, r) = coerce_float(o, v, w);
        },
        (Repr::Int(1), Type::Bool) => {
        },
        (Repr::Int(_), Type::Int(w)) => {
            well_coerce_int_width(o, v, w);
            let (o, r) = coerce_int_width(o, v, w);
        },
        (_, Type::BigNum(precision)) => {
            well_coerce_to_bignum(o, v, precision);
        },
        (_, Type::BigInt) => {
            well_coerce_to_bigint(o, v);
        },
        (Repr::Ptr, Type::Str | Type::File) => {
            well_call1(o, Rt::Strdup, v);
            let (o, r) = call1(o, Rt::Strdup, v);
        },
        (_, Type::Array(element)) => {
            well_coerce_to_array(o, v, element.as_type());
        },
        _ => {
        },
    }
}

pub proof fn well_checked_result(o: Out, p: Value, message: Seq<char>)
    requires
        good(o),
        !o.ended,
        valid(p, o),
    ensures
        good(checked_result(o, p, message).0),
        o.code.len() <= checked_result(o, p, message).0.code.len(),
        valid(checked_result(o, p, message).1, checked_result(o, p, message).0),
        !checked_result(o, p, message).0.ended,
{
    reveal(checked_result);
    well_give1(o, Op::CheckedResult, p, Repr::Int(64));
    let (o, v) = give1(o, Op::CheckedResult, p, Repr::Int(64));
    well_give1(o, Op::CheckedFlag, p, Repr::Int(1));
    let (o, overflowed) = give1(o, Op::CheckedFlag, p, Repr::Int(1));
    well_crash_if(o, overflowed, message);
    let o = crash_if(o, overflowed, message);
}

pub proof fn well_checked_int_arith(o: Out, op: BinOp, l: Value, r: Value)
    requires
        good(o),
        !o.ended,
        valid(l, o),
        valid(r, o),
    ensures
        good(checked_int_arith(o, op, l, r).0),
        o.code.len() <= checked_int_arith(o, op, l, r).0.code.len(),
        valid(checked_int_arith(o, op, l, r).1, checked_int_arith(o, op, l, r).0),
        !checked_int_arith(o, op, l, r).0.ended,
{
    reveal(checked_int_arith);
    match op {
        BinOp::Add => {
            well_call2(o, Rt::AddOverflow, l, r);
            let (o, p) = call2(o, Rt::AddOverflow, l, r);
            well_checked_result(o, p, "int overflow: result of + doesn't fit in int"@);
        },
        BinOp::Sub => {
            well_call2(o, Rt::SubOverflow, l, r);
            let (o, p) = call2(o, Rt::SubOverflow, l, r);
            well_checked_result(o, p, "int overflow: result of - doesn't fit in int"@);
        },
        _ => {
            well_call2(o, Rt::MulOverflow, l, r);
            let (o, p) = call2(o, Rt::MulOverflow, l, r);
            well_checked_result(o, p, "int overflow: result of x doesn't fit in int"@);
        },
    }
}

pub proof fn well_compile_int_div(o: Out, l: Value, r: Value)
    requires
        good(o),
        !o.ended,
        valid(l, o),
        valid(r, o),
    ensures
        good(compile_int_div(o, l, r).0),
        o.code.len() <= compile_int_div(o, l, r).0.code.len(),
        valid(compile_int_div(o, l, r).1, compile_int_div(o, l, r).0),
        !compile_int_div(o, l, r).0.ended,
{
    reveal(compile_int_div);
    well_const_int(o, 64, 0);
    let (o, zero) = const_int(o, 64, 0);
    well_int_test(o, Test::Eq, r, zero);
    let (o, by_zero) = int_test(o, Test::Eq, r, zero);
    well_crash_if(o, by_zero, "int division by zero"@);
    let o = crash_if(o, by_zero, "int division by zero"@);
    well_const_int(o, 64, i64::MIN);
    let (o, least) = const_int(o, 64, i64::MIN);
    well_const_int(o, 64, (-1) as i64);
    let (o, minus) = const_int(o, 64, (-1) as i64);
    well_int_test(o, Test::Eq, l, least);
    let (o, is_least) = int_test(o, Test::Eq, l, least);
    well_int_test(o, Test::Eq, r, minus);
    let (o, is_minus) = int_test(o, Test::Eq, r, minus);
    well_give2(o, Op::And, is_least, is_minus, Repr::Int(1));
    let (o, both) = give2(o, Op::And, is_least, is_minus, Repr::Int(1));
    well_crash_if(o, both, "int overflow: i64::MIN / -1 doesn't fit in int"@);
    let o = crash_if(o, both, "int overflow: i64::MIN / -1 doesn't fit in int"@);
    well_give2(o, Op::IntDiv, l, r, Repr::Int(64));
}

pub proof fn well_compile_int_neg(o: Out, v: Value)
    requires
        good(o),
        !o.ended,
        valid(v, o),
    ensures
        good(compile_int_neg(o, v).0),
        o.code.len() <= compile_int_neg(o, v).0.code.len(),
        valid(compile_int_neg(o, v).1, compile_int_neg(o, v).0),
        !compile_int_neg(o, v).0.ended,
{
    reveal(compile_int_neg);
    match v.repr {
        Repr::Int(w) => {
            well_coerce_int_width(o, v, 64);
            let (o, wide) = coerce_int_width(o, v, 64);
            well_const_int(o, 64, i64::MIN);
            let (o, least) = const_int(o, 64, i64::MIN);
            well_int_test(o, Test::Eq, wide, least);
            let (o, is_least) = int_test(o, Test::Eq, wide, least);
            well_crash_if(o, is_least, "int overflow: negating i64::MIN doesn't fit in int"@);
            let o = crash_if(o, is_least, "int overflow: negating i64::MIN doesn't fit in int"@);
            well_give1(o, Op::IntNeg, wide, Repr::Int(64));
            let (o, n) = give1(o, Op::IntNeg, wide, Repr::Int(64));
            well_coerce_int_width(o, n, w);
        },
        _ => {
        },
    }
}

pub proof fn well_compile_int_pow(o: Out, base: Value, exponent: Value)
    requires
        good(o),
        !o.ended,
        valid(base, o),
        valid(exponent, o),
    ensures
        good(compile_int_pow(o, base, exponent).0),
        o.code.len() <= compile_int_pow(o, base, exponent).0.code.len(),
        valid(compile_int_pow(o, base, exponent).1, compile_int_pow(o, base, exponent).0),
        !compile_int_pow(o, base, exponent).0.ended,
{
    reveal(compile_int_pow);
    well_const_int(o, 64, 0);
    let (o, zero) = const_int(o, 64, 0);
    well_int_test(o, Test::Lt, exponent, zero);
    let (o, negative) = int_test(o, Test::Lt, exponent, zero);
    well_crash_if(o, negative, "int power requires a non-negative exponent"@);
    let o = crash_if(o, negative, "int power requires a non-negative exponent"@);
    well_slot(o, Repr::Int(64), "int_pow_result"@);
    let (o, result) = slot(o, Repr::Int(64), "int_pow_result"@);
    well_const_int(o, 64, 1);
    let (o, one) = const_int(o, 64, 1);
    well_store(o, result, one);
    let o = store(o, result, one);
    well_loop_begin(o, 0, Test::Lt, exponent);
    let (o, l) = loop_begin(o, 0, Test::Lt, exponent);
    well_load(o, Repr::Int(64), result);
    let (o, current) = load(o, Repr::Int(64), result);
    well_checked_int_arith(o, BinOp::Mul, current, base);
    let (o, next) = checked_int_arith(o, BinOp::Mul, current, base);
    well_store(o, result, next);
    let o = store(o, result, next);
    well_loop_end(o, l);
    let o = loop_end(o, l);
    well_load(o, Repr::Int(64), result);
}

pub proof fn well_compile_int_tetration(o: Out, base: Value, height: Value)
    requires
        good(o),
        !o.ended,
        valid(base, o),
        valid(height, o),
    ensures
        good(compile_int_tetration(o, base, height).0),
        o.code.len() <= compile_int_tetration(o, base, height).0.code.len(),
        valid(compile_int_tetration(o, base, height).1, compile_int_tetration(o, base, height).0),
        !compile_int_tetration(o, base, height).0.ended,
{
    reveal(compile_int_tetration);
    well_slot(o, Repr::Int(64), "int_tet_result"@);
    let (o, result) = slot(o, Repr::Int(64), "int_tet_result"@);
    well_store(o, result, base);
    let o = store(o, result, base);
    well_loop_begin(o, 2, Test::Le, height);
    let (o, l) = loop_begin(o, 2, Test::Le, height);
    well_load(o, Repr::Int(64), result);
    let (o, current) = load(o, Repr::Int(64), result);
    well_compile_int_pow(o, base, current);
    let (o, next) = compile_int_pow(o, base, current);
    well_store(o, result, next);
    let o = store(o, result, next);
    well_loop_end(o, l);
    let o = loop_end(o, l);
    well_load(o, Repr::Int(64), result);
}

pub proof fn well_compile_int_factorial(o: Out, v: Value)
    requires
        good(o),
        !o.ended,
        valid(v, o),
    ensures
        good(compile_int_factorial(o, v).0),
        o.code.len() <= compile_int_factorial(o, v).0.code.len(),
        valid(compile_int_factorial(o, v).1, compile_int_factorial(o, v).0),
        !compile_int_factorial(o, v).0.ended,
{
    reveal(compile_int_factorial);
    well_coerce_int_width(o, v, 64);
    let (o, n) = coerce_int_width(o, v, 64);
    well_slot(o, Repr::Int(64), "int_fact_result"@);
    let (o, result) = slot(o, Repr::Int(64), "int_fact_result"@);
    well_const_int(o, 64, 1);
    let (o, one) = const_int(o, 64, 1);
    well_store(o, result, one);
    let o = store(o, result, one);
    well_loop_begin(o, 2, Test::Le, n);
    let (o, l) = loop_begin(o, 2, Test::Le, n);
    well_load(o, Repr::Int(64), result);
    let (o, current) = load(o, Repr::Int(64), result);
    well_checked_int_arith(o, BinOp::Mul, current, l.counter);
    let (o, next) = checked_int_arith(o, BinOp::Mul, current, l.counter);
    well_store(o, result, next);
    let o = store(o, result, next);
    well_loop_end(o, l);
    let o = loop_end(o, l);
    well_load(o, Repr::Int(64), result);
}

pub proof fn well_compile_binary_int_op(o: Out, op: BinOp, l: Value, r: Value)
    requires
        good(o),
        !o.ended,
        valid(l, o),
        valid(r, o),
    ensures
        compile_binary_int_op(o, op, l, r) matches Ok(r) ==> good(r.0) && o.code.len() <= r.0.code.len() && valid(r.1, r.0) && !r.0.ended,
{
    reveal(compile_binary_int_op);
    match op {
        BinOp::Add | BinOp::Sub | BinOp::Mul => {
            well_checked_int_arith(o, op, l, r);
            let (o, v) = checked_int_arith(o, op, l, r);
        },
        BinOp::Div => {
            well_compile_int_div(o, l, r);
            let (o, v) = compile_int_div(o, l, r);
        },
        BinOp::Pow => {
            well_compile_int_pow(o, l, r);
            let (o, v) = compile_int_pow(o, l, r);
        },
        BinOp::Tetration => {
            well_compile_int_tetration(o, l, r);
            let (o, v) = compile_int_tetration(o, l, r);
        },
        BinOp::Eq | BinOp::Ne | BinOp::Lt | BinOp::Gt | BinOp::Le | BinOp::Ge => {
            well_int_test(o, test_of(op), l, r);
            let (o, v) = int_test(o, test_of(op), l, r);
        },
        BinOp::And | BinOp::Or | BinOp::Concat => {
        },
    }
}

pub proof fn well_compile_int_binary(o: Out, op: BinOp, l: Value, r: Value)
    requires
        good(o),
        !o.ended,
        valid(l, o),
        valid(r, o),
    ensures
        compile_int_binary(o, op, l, r) matches Ok(r) ==> good(r.0) && o.code.len() <= r.0.code.len() && valid(r.1, r.0) && !r.0.ended,
{
    reveal(compile_int_binary);
    match (l.repr, r.repr) {
        (Repr::Int(a), Repr::Int(b)) => {
            well_coerce_int_width(o, l, 64);
            let (o, x) = coerce_int_width(o, l, 64);
            well_coerce_int_width(o, r, 64);
            let (o, y) = coerce_int_width(o, r, 64);
            well_compile_binary_int_op(o, op, x, y);
            if let Ok((o, v)) = compile_binary_int_op(o, op, x, y) {
                if v.repr == Repr::Int(1) {
                } else {
                    well_coerce_int_width(o, v, max_width(a, b));
                    let (o, n) = coerce_int_width(o, v, max_width(a, b));
                }
            }
        },
        _ => {
        },
    }
}

pub proof fn well_compile_tetration(o: Out, base: Value, height: Value)
    requires
        good(o),
        !o.ended,
        valid(base, o),
        valid(height, o),
    ensures
        good(compile_tetration(o, base, height).0),
        o.code.len() <= compile_tetration(o, base, height).0.code.len(),
        valid(compile_tetration(o, base, height).1, compile_tetration(o, base, height).0),
        !compile_tetration(o, base, height).0.ended,
{
    reveal(compile_tetration);
    well_give1(o, Op::FloatToInt, height, Repr::Int(64));
    let (o, n) = give1(o, Op::FloatToInt, height, Repr::Int(64));
    well_slot(o, Repr::Float(64), "tet_result"@);
    let (o, result) = slot(o, Repr::Float(64), "tet_result"@);
    well_store(o, result, base);
    let o = store(o, result, base);
    well_loop_begin(o, 2, Test::Le, n);
    let (o, l) = loop_begin(o, 2, Test::Le, n);
    well_load(o, Repr::Float(64), result);
    let (o, current) = load(o, Repr::Float(64), result);
    well_call2(o, Rt::Pow, base, current);
    let (o, next) = call2(o, Rt::Pow, base, current);
    well_store(o, result, next);
    let o = store(o, result, next);
    well_loop_end(o, l);
    let o = loop_end(o, l);
    well_load(o, Repr::Float(64), result);
}

pub proof fn well_compile_factorial(o: Out, v: Value)
    requires
        good(o),
        !o.ended,
        valid(v, o),
    ensures
        good(compile_factorial(o, v).0),
        o.code.len() <= compile_factorial(o, v).0.code.len(),
        valid(compile_factorial(o, v).1, compile_factorial(o, v).0),
        !compile_factorial(o, v).0.ended,
{
    reveal(compile_factorial);
    well_give1(o, Op::FloatToInt, v, Repr::Int(64));
    let (o, n) = give1(o, Op::FloatToInt, v, Repr::Int(64));
    well_slot(o, Repr::Float(64), "fact_result"@);
    let (o, result) = slot(o, Repr::Float(64), "fact_result"@);
    well_const_float(o, "1"@);
    let (o, one) = const_float(o, "1"@);
    well_store(o, result, one);
    let o = store(o, result, one);
    well_loop_begin(o, 2, Test::Le, n);
    let (o, l) = loop_begin(o, 2, Test::Le, n);
    well_load(o, Repr::Float(64), result);
    let (o, current) = load(o, Repr::Float(64), result);
    well_give1(o, Op::IntToFloat, l.counter, Repr::Float(64));
    let (o, factor) = give1(o, Op::IntToFloat, l.counter, Repr::Float(64));
    well_give2(o, Op::FloatMul, current, factor, Repr::Float(64));
    let (o, next) = give2(o, Op::FloatMul, current, factor, Repr::Float(64));
    well_store(o, result, next);
    let o = store(o, result, next);
    well_loop_end(o, l);
    let o = loop_end(o, l);
    well_load(o, Repr::Float(64), result);
}

pub proof fn well_compile_float_op(o: Out, op: BinOp, l: Value, r: Value)
    requires
        good(o),
        !o.ended,
        valid(l, o),
        valid(r, o),
    ensures
        compile_float_op(o, op, l, r) matches Ok(r) ==> good(r.0) && o.code.len() <= r.0.code.len() && valid(r.1, r.0) && !r.0.ended,
{
    reveal(compile_float_op);
    match op {
        BinOp::Add => {
            well_give2(o, Op::FloatAdd, l, r, l.repr);
            let (o, v) = give2(o, Op::FloatAdd, l, r, l.repr);
        },
        BinOp::Sub => {
            well_give2(o, Op::FloatSub, l, r, l.repr);
            let (o, v) = give2(o, Op::FloatSub, l, r, l.repr);
        },
        BinOp::Mul => {
            well_give2(o, Op::FloatMul, l, r, l.repr);
            let (o, v) = give2(o, Op::FloatMul, l, r, l.repr);
        },
        BinOp::Div => {
            well_give2(o, Op::FloatDiv, l, r, l.repr);
            let (o, v) = give2(o, Op::FloatDiv, l, r, l.repr);
        },
        BinOp::Pow => {
            well_coerce_float(o, l, 64);
            let (o, a) = coerce_float(o, l, 64);
            well_coerce_float(o, r, 64);
            let (o, b) = coerce_float(o, r, 64);
            well_call2(o, Rt::Pow, a, b);
            let (o, v) = call2(o, Rt::Pow, a, b);
        },
        BinOp::Tetration => {
            well_coerce_float(o, l, 64);
            let (o, a) = coerce_float(o, l, 64);
            well_coerce_float(o, r, 64);
            let (o, b) = coerce_float(o, r, 64);
            well_compile_tetration(o, a, b);
            let (o, v) = compile_tetration(o, a, b);
        },
        BinOp::Eq | BinOp::Ne | BinOp::Lt | BinOp::Gt | BinOp::Le | BinOp::Ge => {
            well_give2(o, Op::FloatTest(test_of(op)), l, r, Repr::Int(1));
            let (o, v) = give2(o, Op::FloatTest(test_of(op)), l, r, Repr::Int(1));
        },
        BinOp::And | BinOp::Or | BinOp::Concat => {
        },
    }
}

pub proof fn well_compile_float_binary(o: Out, op: BinOp, l: Value, r: Value)
    requires
        good(o),
        !o.ended,
        valid(l, o),
        valid(r, o),
    ensures
        compile_float_binary(o, op, l, r) matches Ok(r) ==> good(r.0) && o.code.len() <= r.0.code.len() && valid(r.1, r.0) && !r.0.ended,
{
    reveal(compile_float_binary);
    match (l.repr, r.repr) {
        (Repr::Float(a), Repr::Float(b)) => {
            well_coerce_float(o, l, max_width(a, b));
            let (o, x) = coerce_float(o, l, max_width(a, b));
            well_coerce_float(o, r, max_width(a, b));
            let (o, y) = coerce_float(o, r, max_width(a, b));
            well_compile_float_op(o, op, x, y);
        },
        _ => {
        },
    }
}

pub proof fn well_compile_bool_binary(o: Out, op: BinOp, l: Value, r: Value)
    requires
        good(o),
        !o.ended,
        valid(l, o),
        valid(r, o),
    ensures
        compile_bool_binary(o, op, l, r) matches Ok(r) ==> good(r.0) && o.code.len() <= r.0.code.len() && valid(r.1, r.0) && !r.0.ended,
{
    reveal(compile_bool_binary);
    match op {
        BinOp::Eq | BinOp::Ne => {
            well_int_test(o, test_of(op), l, r);
            let (o, v) = int_test(o, test_of(op), l, r);
        },
        BinOp::And => {
            well_give2(o, Op::And, l, r, Repr::Int(1));
            let (o, v) = give2(o, Op::And, l, r, Repr::Int(1));
        },
        BinOp::Or => {
            well_give2(o, Op::Or, l, r, Repr::Int(1));
            let (o, v) = give2(o, Op::Or, l, r, Repr::Int(1));
        },
        _ => {
        },
    }
}

pub proof fn well_compile_order(o: Out, op: BinOp, order: Rt, l: Value, r: Value)
    requires
        good(o),
        !o.ended,
        valid(l, o),
        valid(r, o),
    ensures
        good(compile_order(o, op, order, l, r).0),
        o.code.len() <= compile_order(o, op, order, l, r).0.code.len(),
        valid(compile_order(o, op, order, l, r).1, compile_order(o, op, order, l, r).0),
        !compile_order(o, op, order, l, r).0.ended,
{
    reveal(compile_order);
    well_unwrap(o, l);
    let (o, a) = unwrap(o, l);
    well_unwrap(o, r);
    let (o, b) = unwrap(o, r);
    well_call2(o, order, a, b);
    let (o, c) = call2(o, order, a, b);
    well_const_int(o, 32, 0);
    let (o, zero) = const_int(o, 32, 0);
    well_int_test(o, test_of(op), c, zero);
}

pub proof fn well_compile_bignum_tetration(o: Out, base: Value, height: Value, precision: u32)
    requires
        good(o),
        !o.ended,
        valid(base, o),
        valid(height, o),
    ensures
        good(compile_bignum_tetration(o, base, height, precision).0),
        o.code.len() <= compile_bignum_tetration(o, base, height, precision).0.code.len(),
        valid(compile_bignum_tetration(o, base, height, precision).1, compile_bignum_tetration(o, base, height, precision).0),
        !compile_bignum_tetration(o, base, height, precision).0.ended,
{
    reveal(compile_bignum_tetration);
    well_call1(o, Rt::BignumGetI64, height);
    let (o, n) = call1(o, Rt::BignumGetI64, height);
    well_bignum_new(o, precision);
    let (o, acc) = bignum_new(o, precision);
    well_run2(o, Rt::BignumCopy, acc, base);
    let o = run2(o, Rt::BignumCopy, acc, base);
    well_loop_begin(o, 2, Test::Le, n);
    let (o, l) = loop_begin(o, 2, Test::Le, n);
    well_run3(o, Rt::BignumPow, acc, base, acc);
    let o = run3(o, Rt::BignumPow, acc, base, acc);
    well_loop_end(o, l);
    let o = loop_end(o, l);
}

pub proof fn well_compile_bignum_factorial(o: Out, v: Value)
    requires
        good(o),
        !o.ended,
        valid(v, o),
    ensures
        good(compile_bignum_factorial(o, v).0),
        o.code.len() <= compile_bignum_factorial(o, v).0.code.len(),
        valid(compile_bignum_factorial(o, v).1, compile_bignum_factorial(o, v).0),
        !compile_bignum_factorial(o, v).0.ended,
{
    reveal(compile_bignum_factorial);
    well_call1(o, Rt::BignumGetI64, v);
    let (o, n) = call1(o, Rt::BignumGetI64, v);
    well_bignum_new(o, DEFAULT_BIGNUM_PRECISION);
    let (o, first) = bignum_new(o, DEFAULT_BIGNUM_PRECISION);
    well_const_float(o, "1"@);
    let (o, one) = const_float(o, "1"@);
    well_run2(o, Rt::BignumSetD, first, one);
    let o = run2(o, Rt::BignumSetD, first, one);
    well_slot(o, Repr::Ptr, "fact_bignum_result"@);
    let (o, result) = slot(o, Repr::Ptr, "fact_bignum_result"@);
    well_store(o, result, first);
    let o = store(o, result, first);
    well_loop_begin(o, 2, Test::Le, n);
    let (o, l) = loop_begin(o, 2, Test::Le, n);
    well_load(o, Repr::Ptr, result);
    let (o, current) = load(o, Repr::Ptr, result);
    well_give1(o, Op::IntToFloat, l.counter, Repr::Float(64));
    let (o, f) = give1(o, Op::IntToFloat, l.counter, Repr::Float(64));
    well_bignum_new(o, DEFAULT_BIGNUM_PRECISION);
    let (o, factor) = bignum_new(o, DEFAULT_BIGNUM_PRECISION);
    well_run2(o, Rt::BignumSetD, factor, f);
    let o = run2(o, Rt::BignumSetD, factor, f);
    well_bignum_new(o, DEFAULT_BIGNUM_PRECISION);
    let (o, next) = bignum_new(o, DEFAULT_BIGNUM_PRECISION);
    well_run3(o, Rt::BignumMul, next, current, factor);
    let o = run3(o, Rt::BignumMul, next, current, factor);
    well_run1(o, Rt::BignumFree, current);
    let o = run1(o, Rt::BignumFree, current);
    well_run1(o, Rt::BignumFree, factor);
    let o = run1(o, Rt::BignumFree, factor);
    well_store(o, result, next);
    let o = store(o, result, next);
    well_loop_end(o, l);
    let o = loop_end(o, l);
    well_load(o, Repr::Ptr, result);
}

pub proof fn well_value_fmt(o: Out, v: Value)
    requires
        good(o),
        !o.ended,
        valid(v, o),
    ensures
        value_fmt(o, v) matches Ok(r) ==> good(r.0) && o.code.len() <= r.0.code.len() && valid(r.1, r.0) && !r.0.ended,
{
    reveal(value_fmt);
    match v.repr {
        Repr::Float(_) => {
            well_coerce_float(o, v, 64);
            let (o, f) = coerce_float(o, v, 64);
        },
        Repr::Ptr => {
        },
        Repr::Int(1) => {
            well_const_str(o, "true"@);
            let (o, yes) = const_str(o, "true"@);
            well_const_str(o, "false"@);
            let (o, no) = const_str(o, "false"@);
            well_give3(o, Op::Select, v, yes, no, Repr::Ptr);
            let (o, t) = give3(o, Op::Select, v, yes, no, Repr::Ptr);
        },
        Repr::Int(_) => {
            well_coerce_int_width(o, v, 64);
            let (o, n) = coerce_int_width(o, v, 64);
        },
        Repr::BigInt => {
            well_unwrap(o, v);
            let (o, p) = unwrap(o, v);
            well_call1(o, Rt::BigintToString, p);
            let (o, t) = call1(o, Rt::BigintToString, p);
        },
        Repr::Handle => {
            well_unwrap(o, v);
            let (o, p) = unwrap(o, v);
            well_call1(o, Rt::BignumToString, p);
            let (o, t) = call1(o, Rt::BignumToString, p);
        },
        _ => {
        },
    }
}

pub proof fn well_free_shown(o: Out, repr: Repr, text: Value)
    requires
        good(o),
        !o.ended,
        valid(text, o),
    ensures
        good(free_shown(o, repr, text)),
        o.code.len() <= free_shown(o, repr, text).code.len(),
        !free_shown(o, repr, text).ended,
{
    reveal(free_shown);
    match repr {
        Repr::Handle | Repr::BigInt => {
            well_run1(o, Rt::Free, text);
            let o = run1(o, Rt::Free, text);
        },
        _ => {
        },
    }
}

#[verifier::rlimit(60)]
pub proof fn well_format_pair(o: Out, format: Seq<char>, a: Value, b: Value)
    requires
        good(o),
        !o.ended,
        valid(a, o),
        valid(b, o),
    ensures
        good(format_pair(o, format, a, b).0),
        o.code.len() <= format_pair(o, format, a, b).0.code.len(),
        valid(format_pair(o, format, a, b).1, format_pair(o, format, a, b).0),
        !format_pair(o, format, a, b).0.ended,
{
    reveal(format_pair);
    well_const_str(o, format);
    let (o, f) = const_str(o, format);
    well_null(o);
    let (o, nowhere) = null(o);
    well_const_int(o, 64, 0);
    let (o, nothing) = const_int(o, 64, 0);
    lemma_valid_five(o, nowhere, nothing, f, a, b);
    well_call_list(o, Rt::Snprintf, seq![nowhere, nothing, f, a, b]);
    let (o, n) = call_list(o, Rt::Snprintf, seq![nowhere, nothing, f, a, b]);
    well_give1(o, Op::ZeroExtend(64), n, Repr::Int(64));
    let (o, wide) = give1(o, Op::ZeroExtend(64), n, Repr::Int(64));
    well_const_int(o, 64, 1);
    let (o, one) = const_int(o, 64, 1);
    well_give2(o, Op::IntAdd, wide, one, Repr::Int(64));
    let (o, size) = give2(o, Op::IntAdd, wide, one, Repr::Int(64));
    well_call1(o, Rt::Malloc, size);
    let (o, buffer) = call1(o, Rt::Malloc, size);
    lemma_valid_five(o, buffer, size, f, a, b);
    well_call_list(o, Rt::Snprintf, seq![buffer, size, f, a, b]);
    let (o, filled) = call_list(o, Rt::Snprintf, seq![buffer, size, f, a, b]);
}

pub proof fn well_compile_concat(o: Out, l: Value, r: Value)
    requires
        good(o),
        !o.ended,
        valid(l, o),
        valid(r, o),
    ensures
        compile_concat(o, l, r) matches Ok(r) ==> good(r.0) && o.code.len() <= r.0.code.len() && valid(r.1, r.0) && !r.0.ended,
{
    reveal(compile_concat);
    well_value_fmt(o, l);
    if let Ok((o, a)) = value_fmt(o, l) {
        well_value_fmt(o, r);
        if let Ok((o, b)) = value_fmt(o, r) {
            let format = pair_format(l.repr, r.repr);
            well_format_pair(o, format, a, b);
            let (o, buffer) = format_pair(o, format, a, b);
            well_free_shown(o, l.repr, a);
            let o = free_shown(o, l.repr, a);
            well_free_shown(o, r.repr, b);
            let o = free_shown(o, r.repr, b);
        }
    }
}

pub proof fn well_default_return(o: Out, ty: Type)
    requires
        good(o),
        !o.ended,
    ensures
        good(default_return(o, ty)),
        o.code.len() <= default_return(o, ty).code.len(),
        default_return(o, ty).ended,
{
    reveal(default_return);
    match ty {
        Type::Void => {
            well_do0(o, Op::RetVoid);
            let o = do0(o, Op::RetVoid);
        },
        Type::Num(w) | Type::NumW(w) => {
            well_const_float(o, "0"@);
            let (o, zero) = const_float(o, "0"@);
            well_coerce_float(o, zero, w);
            let (o, v) = coerce_float(o, zero, w);
            well_do1(o, Op::Ret, v);
            let o = do1(o, Op::Ret, v);
        },
        Type::Bool => {
            well_const_int(o, 1, 0);
            let (o, v) = const_int(o, 1, 0);
            well_do1(o, Op::Ret, v);
            let o = do1(o, Op::Ret, v);
        },
        Type::Int(w) => {
            well_const_int(o, w, 0);
            let (o, v) = const_int(o, w, 0);
            well_do1(o, Op::Ret, v);
            let o = do1(o, Op::Ret, v);
        },
        Type::Str | Type::File => {
            well_null(o);
            let (o, v) = null(o);
            well_do1(o, Op::Ret, v);
            let o = do1(o, Op::Ret, v);
        },
        Type::BigNum(_) | Type::Array(_) => {
            well_null(o);
            let (o, p) = null(o);
            well_wrap(o, Repr::Handle, p);
            let (o, v) = wrap(o, Repr::Handle, p);
            well_do1(o, Op::Ret, v);
            let o = do1(o, Op::Ret, v);
        },
        Type::BigInt => {
            well_null(o);
            let (o, p) = null(o);
            well_wrap(o, Repr::BigInt, p);
            let (o, v) = wrap(o, Repr::BigInt, p);
            well_do1(o, Op::Ret, v);
            let o = do1(o, Op::Ret, v);
        },
    }
}
} // verus!
