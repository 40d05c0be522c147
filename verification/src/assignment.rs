//! What declarations and assignments do to the variables of a program when it runs.

use vstd::prelude::*;
use crate::ast::{ExprV, StmtV, Type};
use crate::branching::lemma_inside;
use crate::confined::{lemma_same, own_slot, own_store};
use crate::control::own_for;
use crate::emit::{do2, free_slot, give0, slot, store, Out};
use crate::evaluation::{eval_for, places_before, read_var, stored_expressions_compute, Outcome};
use crate::ir::{repr_of, InstV, Op, Value};
use crate::layout::{done, lower_action, own_variable, scope, work, Frame, State};
use crate::lower::{find_binding, lower_for, variable, BindingV};
use crate::machine::{lemma_emit, lemma_here, lemma_step, lemma_then, number, reaches, step, stops, within, Machine};
use crate::scoping::lemma_find_binding;

verus! {

/// The variables have different places, all of them made before.
pub open spec fn own_places(s: State) -> bool {
    &&& forall|i: int| 0 <= i < s.bindings.len() ==> (#[trigger] s.bindings[i]).place.id < s.out.code.len()
    &&& forall|i: int, j: int|
        0 <= i < s.bindings.len() && 0 <= j < s.bindings.len() && i != j ==> (#[trigger] s.bindings[i]).place.id
            != (#[trigger] s.bindings[j]).place.id
}

/// A type of numbers or truth values.
pub open spec fn is_plain(ty: Type) -> bool {
    ty is Num || ty is NumW || ty is Bool || ty is Int
}

proof fn lemma_other_update(bs: Seq<BindingV>, k: int, b: BindingV, name: Seq<char>, ty: Type, n: int)
    requires
        0 <= k < bs.len(),
        b.name == bs[k].name,
        b.ty == bs[k].ty,
        b.literal == bs[k].literal,
        n <= bs.len(),
    ensures
        find_binding(bs.update(k, b), name, ty, false, n) == find_binding(bs, name, ty, false, n),
    decreases n,
{
    if 0 < n {
        lemma_other_update(bs, k, b, name, ty, n - 1);
    }
}

proof fn lemma_other_push(bs: Seq<BindingV>, b: BindingV, name: Seq<char>, ty: Type, n: int)
    requires
        n <= bs.len(),
    ensures
        find_binding(bs.push(b), name, ty, false, n) == find_binding(bs, name, ty, false, n),
    decreases n,
{
    if 0 < n {
        lemma_other_push(bs, b, name, ty, n - 1);
    }
}

/// A plain value is stored at a place.
proof fn lemma_stored(code: Seq<InstV>, o: Out, place: Value, v: Value, m: Machine) -> (t: Machine)
    requires
        within(code, store(o, place, v)),
        m.next == o.code.len(),
    ensures
        within(code, o),
        store(o, place, v).code.len() == o.code.len() + 1,
        reaches(code, m, t),
        t.next == o.code.len() + 1,
        t.cells == m.cells,
        t.stored == m.stored.insert(place.id as int, m.cells[v.id as int]),
        t.memory == m.memory.insert(place.id as int, number(m, v.id)),
        t.around == m.around,
{
    reveal(store);
    reveal(do2);
    reveal(step);
    lemma_emit(code, o, Op::Store, seq![place.id, v.id], ""@);
    lemma_here(code, m);
    lemma_step(code, m, m)
}

/// A declaration or an assignment of a number or a truth value gives the variable the value of the
/// expression, and changes no other variable, nothing that is on the heap and nothing that was shown; or it
/// stops the program where the expression does.
pub proof fn assignments_change_one_variable(
    code: Seq<InstV>,
    f: Frame,
    s: State,
    stmt: StmtV,
    name: Seq<char>,
    ty: Type,
    e: ExprV,
    m: Machine,
) -> (t: Machine)
    requires
        stmt == StmtV::VarDecl(name, ty, e) || stmt == StmtV::Assign(name, ty, e),
        is_plain(ty),
        own_places(s),
        lower_action(f, s, stmt) is Ok,
        within(code, lower_action(f, s, stmt)->Ok_0.out),
        m.next == s.out.code.len(),
    ensures
        ({
            let u = lower_action(f, s, stmt)->Ok_0;
            match eval_for(scope(f, s), m, e, ty) {
                Outcome::Got(x) => {
                    &&& reaches(code, m, t)
                    &&& t.next == u.out.code.len()
                    &&& t.around == m.around
                    &&& read_var(scope(f, u), t, name, ty) == Outcome::Got(x)
                    &&& forall|n: Seq<char>, y: Type|
                        n != name || y != ty ==> #[trigger] read_var(scope(f, u), t, n, y) == read_var(
                            scope(f, s),
                            m,
                            n,
                            y,
                        )
                },
                Outcome::Stops => stops(code, m),
                Outcome::Unknown => true,
            }
        }),
{
    let sc = scope(f, s);
    let u = lower_action(f, s, stmt)->Ok_0;
    let (w, v) = lower_for(sc, work(s), e, ty)->Ok_0;
    let n = s.out.code.len() as int;
    reveal(free_slot);
    lemma_find_binding(s.bindings, name, ty, false, s.bindings.len() as int);
    lemma_same(w.out);
    let (o, fresh) = slot(w.out, repr_of(ty), name);
    own_slot(w.out, w.out, repr_of(ty), name);
    let place = if stmt is VarDecl {
        fresh
    } else {
        s.bindings[variable(s.bindings, name, ty)->0].place
    };
    let before = if stmt is VarDecl {
        o
    } else {
        w.out
    };
    assert(u.out == store(before, place, v));
    own_store(w.out, before, place, v);
    lemma_inside(code, w.out, u.out);
    lemma_same(s.out);
    own_for(s.out, sc, work(s), e, ty);
    lemma_inside(code, s.out, w.out);
    assert(places_before(sc, n));
    let m1 = stored_expressions_compute(code, sc, work(s), e, ty, m);
    match eval_for(sc, m, e, ty) {
        Outcome::Got(x) => {
            let m2 = if stmt is VarDecl {
                reveal(slot);
                reveal(give0);
                reveal(step);
                assert(within(code, o)) by {
                    reveal(store);
                    reveal(do2);
                    lemma_emit(code, o, Op::Store, seq![place.id, v.id], ""@);
                }
                lemma_emit(code, w.out, Op::Slot(repr_of(ty)), Seq::empty(), name);
                lemma_step(code, m, m1)
            } else {
                m1
            };
            let t = lemma_stored(code, before, place, v, m2);
            lemma_then(code, m, m2, t);
            let b = BindingV { name, ty, place, literal: false };
            let k = variable(u.bindings, name, ty);
            assert(k is Some && u.bindings[k->0].place == place) by {
                if stmt is VarDecl {
                    match own_variable(done(s, w), name, ty) {
                        Some(j) => lemma_other_update(s.bindings, j, b, name, ty, s.bindings.len() as int),
                        None => {
                            assert(u.bindings.last() == b);
                        },
                    }
                }
            }
            assert forall|n2: Seq<char>, y: Type| n2 != name || y != ty implies #[trigger] read_var(scope(f, u), t, n2, y)
                == read_var(sc, m, n2, y) by {
                lemma_find_binding(s.bindings, n2, y, false, s.bindings.len() as int);
                if stmt is VarDecl {
                    match own_variable(done(s, w), name, ty) {
                        Some(j) => lemma_other_update(s.bindings, j, b, n2, y, s.bindings.len() as int),
                        None => {
                            assert(u.bindings =~= s.bindings.push(b));
                            lemma_other_push(s.bindings, b, n2, y, s.bindings.len() as int);
                        },
                    }
                }
                assert(variable(u.bindings, n2, y) == variable(s.bindings, n2, y));
                if let Some(j) = variable(s.bindings, n2, y) {
                    assert(u.bindings[j] == s.bindings[j]);
                    let p = s.bindings[j].place.id as int;
                    assert(p < n);
                    assert(p != place.id);
                    assert(m1.stored[p] == m.stored[p]);
                    assert(m1.memory[p] == m.memory[p]);
                }
            }
            t
        },
        _ => m1,
    }
}

} // verus!
