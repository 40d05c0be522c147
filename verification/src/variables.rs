//! Variables when a program runs: a reference to an `int` variable reads the number that was stored in it
//! last.

use vstd::prelude::*;
use crate::ast::{ExprV, StmtV, Type};
use crate::emit::{do2, free_slot, give0, give1, load, slot, store, Out};
use crate::ir::{repr_of, InstV, Op, Repr, Rt, Value};
use crate::layout::{declare, done, lower_action, own_variable, scope, work, Frame, State};
use crate::lower::{find_binding, lower_expr, lower_for, variable, BindingV, Scope, Work};
use crate::machine::{
    bigint_call, bignum_call, holds, lemma_emit, lemma_here, lemma_step, lemma_then, other_step, reaches, same_before,
    step, text_call, within, Cell, Machine,
};
use crate::scoping::lemma_find_binding;

verus! {

/// Where an `int` variable is.
pub open spec fn place_of(bs: Seq<BindingV>, name: Seq<char>, width: u32) -> int {
    bs[variable(bs, name, Type::Int(width))->0].place.id as int
}

proof fn lemma_found_again(bs: Seq<BindingV>, name: Seq<char>, ty: Type, k: int, b: BindingV, n: int)
    requires
        find_binding(bs, name, ty, false, n) == Some(k),
        b.name == name,
        b.ty == ty,
        !b.literal,
        0 <= k < bs.len(),
    ensures
        find_binding(bs.update(k, b), name, ty, false, n) == Some(k),
    decreases n,
{
    lemma_find_binding(bs, name, ty, false, n);
    if k < n - 1 {
        lemma_found_again(bs, name, ty, k, b, n - 1);
    }
}

/// A variable that is stored: its place comes to hold the value, and nothing else changes in memory.
proof fn lemma_store(code: Seq<InstV>, o: Out, place: Value, v: Value, m: Machine, a: int) -> (t: Machine)
    requires
        within(code, store(o, place, v)),
        m.next == o.code.len(),
        holds(m, v, a),
    ensures
        within(code, o),
        reaches(code, m, t),
        t.next == store(o, place, v).code.len(),
        t.cells == m.cells,
        t.memory == m.memory.insert(place.id as int, a),
        t.stored == m.stored.insert(place.id as int, Cell::Number(a)),
        t.around == m.around,
{
    reveal(store);
    reveal(do2);
    reveal(step);
    lemma_emit(code, o, Op::Store, seq![place.id, v.id], ""@);
    lemma_here(code, m);
    lemma_step(code, m, m)
}

/// Behind a declaration of an `int` the place of the variable holds the value: the run goes from where
/// the value is known to the end of the declaration, the reference reaches the new place, and the rest
/// of the memory is as it was.
pub proof fn int_declarations_store(
    code: Seq<InstV>,
    f: Frame,
    s: State,
    name: Seq<char>,
    width: u32,
    e: ExprV,
    m: Machine,
    a: int,
) -> (t: Machine)
    requires
        lower_action(f, s, StmtV::VarDecl(name, Type::Int(width), e)) is Ok,
        within(code, lower_action(f, s, StmtV::VarDecl(name, Type::Int(width), e))->Ok_0.out),
        m.next == lower_for(scope(f, s), work(s), e, Type::Int(width))->Ok_0.0.out.code.len(),
        holds(m, lower_for(scope(f, s), work(s), e, Type::Int(width))->Ok_0.1, a),
    ensures
        ({
            let u = lower_action(f, s, StmtV::VarDecl(name, Type::Int(width), e))->Ok_0;
            &&& variable(u.bindings, name, Type::Int(width)) is Some
            &&& reaches(code, m, t)
            &&& t.next == u.out.code.len()
            &&& t.cells == m.cells
            &&& t.memory == m.memory.insert(place_of(u.bindings, name, width), a)
        }),
{
    let ty = Type::Int(width);
    let (w, v) = lower_for(scope(f, s), work(s), e, ty)->Ok_0;
    let s1 = done(s, w);
    let u = declare(s1, name, ty, v);
    reveal(free_slot);
    let (o, place) = slot(w.out, repr_of(ty), name);
    let b = BindingV { name, ty, place, literal: false };
    assert(u.out == store(o, place, v));
    lemma_find_binding(s.bindings, name, ty, false, s.bindings.len() as int);
    match own_variable(s1, name, ty) {
        Some(k) => {
            lemma_found_again(s.bindings, name, ty, k, b, s.bindings.len() as int);
            assert(variable(u.bindings, name, ty) == Some(k));
        },
        None => {
            assert(u.bindings.last() == b);
            assert(variable(u.bindings, name, ty) == Some(s.bindings.len() as int));
        },
    }
    reveal(slot);
    reveal(give0);
    reveal(step);
    assert(within(code, o)) by {
        reveal(store);
        reveal(do2);
        lemma_emit(code, o, Op::Store, seq![place.id, v.id], ""@);
    }
    lemma_emit(code, w.out, Op::Slot(repr_of(ty)), Seq::empty(), name);
    lemma_here(code, m);
    let m1 = lemma_step(code, m, m);
    let t = lemma_store(code, o, place, v, m1, a);
    lemma_then(code, m, m1, t);
    t
}

/// Behind an assignment to an `int` variable its place holds the value, and the rest of the memory is as
/// it was.
pub proof fn int_assignments_store(
    code: Seq<InstV>,
    f: Frame,
    s: State,
    name: Seq<char>,
    width: u32,
    e: ExprV,
    m: Machine,
    a: int,
) -> (t: Machine)
    requires
        lower_action(f, s, StmtV::Assign(name, Type::Int(width), e)) is Ok,
        within(code, lower_action(f, s, StmtV::Assign(name, Type::Int(width), e))->Ok_0.out),
        m.next == lower_for(scope(f, s), work(s), e, Type::Int(width))->Ok_0.0.out.code.len(),
        holds(m, lower_for(scope(f, s), work(s), e, Type::Int(width))->Ok_0.1, a),
    ensures
        ({
            let u = lower_action(f, s, StmtV::Assign(name, Type::Int(width), e))->Ok_0;
            &&& u.bindings == s.bindings
            &&& variable(u.bindings, name, Type::Int(width)) is Some
            &&& reaches(code, m, t)
            &&& t.next == u.out.code.len()
            &&& t.cells == m.cells
            &&& t.memory == m.memory.insert(place_of(u.bindings, name, width), a)
        }),
{
    let ty = Type::Int(width);
    let (w, v) = lower_for(scope(f, s), work(s), e, ty)->Ok_0;
    reveal(free_slot);
    let place = s.bindings[variable(s.bindings, name, ty)->0].place;
    lemma_store(code, w.out, place, v, m, a)
}

/// A reference to an `int` variable gives the number that its place holds, and changes no memory.
pub proof fn int_references_read(
    code: Seq<InstV>,
    sc: Scope,
    w: Work,
    name: Seq<char>,
    width: u32,
    m: Machine,
) -> (t: Machine)
    requires
        variable(sc.bindings, name, Type::Int(width)) is Some,
        within(code, lower_expr(sc, w, ExprV::Var(name, Type::Int(width)))->Ok_0.0.out),
        m.next == w.out.code.len(),
    ensures
        lower_expr(sc, w, ExprV::Var(name, Type::Int(width))) matches Ok((end, v)) && {
            &&& v.repr == Repr::Int(width)
            &&& reaches(code, m, t)
            &&& t.next == end.out.code.len()
            &&& holds(t, v, m.memory[place_of(sc.bindings, name, width)])
            &&& t.memory == m.memory
            &&& same_before(m, t, w.out.code.len() as int)
        },
{
    let ty = Type::Int(width);
    let place = sc.bindings[variable(sc.bindings, name, ty)->0].place;
    reveal(load);
    reveal(give1);
    reveal(step);
    lemma_emit(code, w.out, Op::Load(repr_of(ty)), seq![place.id], ""@);
    lemma_here(code, m);
    lemma_step(code, m, m)
}

/// What is stored in an `int` variable is what a reference reads: behind a declaration or an assignment
/// of the value `a`, a reference to the variable gives `a`.
pub proof fn references_read_what_was_stored(
    code: Seq<InstV>,
    f: Frame,
    s: State,
    stmt: StmtV,
    name: Seq<char>,
    width: u32,
    e: ExprV,
    m: Machine,
    a: int,
) -> (t: Machine)
    requires
        stmt == StmtV::VarDecl(name, Type::Int(width), e) || stmt == StmtV::Assign(name, Type::Int(width), e),
        lower_action(f, s, stmt) is Ok,
        ({
            let u = lower_action(f, s, stmt)->Ok_0;
            within(code, lower_expr(scope(f, u), work(u), ExprV::Var(name, Type::Int(width)))->Ok_0.0.out)
        }),
        m.next == lower_for(scope(f, s), work(s), e, Type::Int(width))->Ok_0.0.out.code.len(),
        holds(m, lower_for(scope(f, s), work(s), e, Type::Int(width))->Ok_0.1, a),
    ensures
        ({
            let u = lower_action(f, s, stmt)->Ok_0;
            lower_expr(scope(f, u), work(u), ExprV::Var(name, Type::Int(width))) matches Ok((end, v)) && {
                &&& reaches(code, m, t)
                &&& t.next == end.out.code.len()
                &&& holds(t, v, a)
            }
        }),
{
    let ty = Type::Int(width);
    let u = lower_action(f, s, stmt)->Ok_0;
    let (w, v) = lower_for(scope(f, s), work(s), e, ty)->Ok_0;
    assert(variable(u.bindings, name, ty) is Some) by {
        lemma_find_binding(s.bindings, name, ty, false, s.bindings.len() as int);
        if stmt is VarDecl {
            lemma_declared(done(s, w), name, ty, v);
        }
    }
    let place = u.bindings[variable(u.bindings, name, ty)->0].place;
    assert(within(code, u.out)) by {
        reveal(load);
        reveal(give1);
        lemma_emit(code, u.out, Op::Load(repr_of(ty)), seq![place.id], ""@);
    }
    let m1 = if stmt is VarDecl {
        int_declarations_store(code, f, s, name, width, e, m, a)
    } else {
        int_assignments_store(code, f, s, name, width, e, m, a)
    };
    let t = int_references_read(code, scope(f, u), work(u), name, width, m1);
    lemma_then(code, m, m1, t);
    t
}

proof fn lemma_declared(s: State, name: Seq<char>, ty: Type, v: Value)
    ensures
        variable(declare(s, name, ty, v).bindings, name, ty) is Some,
{
    lemma_find_binding(s.bindings, name, ty, false, s.bindings.len() as int);
    let u = declare(s, name, ty, v);
    match own_variable(s, name, ty) {
        Some(k) => {
            lemma_found_again(s.bindings, name, ty, k, u.bindings[k], s.bindings.len() as int);
        },
        None => {
            assert(u.bindings.last().name == name);
        },
    }
}

proof fn lemma_bignum_call_stores_nothing(m: Machine, f: Rt, a: Seq<usize>)
    requires
        bignum_call(m, f, a) is On,
    ensures
        bignum_call(m, f, a)->On_0.memory == m.memory,
        bignum_call(m, f, a)->On_0.stored == m.stored,
{
    reveal(bignum_call);
}

proof fn lemma_bigint_call_stores_nothing(m: Machine, f: Rt, a: Seq<usize>)
    requires
        bigint_call(m, f, a) is On,
    ensures
        bigint_call(m, f, a)->On_0.memory == m.memory,
        bigint_call(m, f, a)->On_0.stored == m.stored,
{
    reveal(bigint_call);
}

proof fn lemma_text_call_stores_nothing(m: Machine, f: Rt, a: Seq<usize>)
    requires
        text_call(m, f, a) is On,
    ensures
        text_call(m, f, a)->On_0.memory == m.memory,
        text_call(m, f, a)->On_0.stored == m.stored,
{
    reveal(text_call);
}

proof fn lemma_other_step_stores_nothing(i: InstV, m: Machine)
    requires
        other_step(i, m) is On,
    ensures
        other_step(i, m)->On_0.memory == m.memory,
        other_step(i, m)->On_0.stored == m.stored,
{
    reveal(other_step);
    if let Op::Call(f) = i.op {
        if bignum_call(m, f, i.args) is On {
            lemma_bignum_call_stores_nothing(m, f, i.args);
        }
        if bigint_call(m, f, i.args) is On {
            lemma_bigint_call_stores_nothing(m, f, i.args);
        }
        if text_call(m, f, i.args) is On {
            lemma_text_call_stores_nothing(m, f, i.args);
        }
    }
}

/// A value stays stored until something else is stored in its place: an instruction changes the memory
/// only where it stores.
pub proof fn memory_changes_only_by_storing(code: Seq<InstV>, m: Machine, k: int)
    requires
        step(code, m) is On,
        code[m.next].op is Store ==> code[m.next].args[0] != k,
    ensures
        step(code, m)->On_0.memory[k] == m.memory[k],
        step(code, m)->On_0.stored[k] == m.stored[k],
{
    reveal(step);
    if other_step(code[m.next], m) is On {
        lemma_other_step_stores_nothing(code[m.next], m);
    }
}

} // verus!
