//! What a program gives back: the temporaries of a statement at its end, the variables of a block at its
//! end, and all of them before a `return`.

use vstd::prelude::*;
use crate::ast::{ExprV, StmtV};
use crate::confined::{grows, lemma_same, own_const_int, own_do0, own_do1, own_free_slot, own_free_value};
use crate::emit::{const_int, free_slot, free_value, Out};
use crate::ir::Op;
use crate::layout::{
    finish, free_bindings, lower_action, lower_block, lower_return, lower_stmt, lower_stmts, push_scope, scope,
    scope_start, work, Frame, State,
};
use crate::lower::{free_temps, lower_for, BindingV, Temp};
use crate::memory::{lemma_action, lemma_stmts, orderly, ready};
use crate::ownership::{lemma_for, places_apart, temps_apart};
use crate::scoping::lemma_stmts_keeps;

verus! {

/// What frees the first `i` temporaries comes first in what frees the first `n`.
proof fn lemma_temps(o: Out, temps: Seq<Temp>, i: nat, n: nat)
    requires
        i <= n <= temps.len(),
    ensures
        grows(free_temps(o, temps, i), free_temps(o, temps, n)),
    decreases n,
{
    if i == n {
        lemma_same(free_temps(o, temps, i));
    } else {
        lemma_temps(o, temps, i, (n - 1) as nat);
        own_free_value(
            free_temps(o, temps, i),
            free_temps(o, temps, (n - 1) as nat),
            temps[n - 1].value,
            temps[n - 1].ty,
        );
    }
}

/// What frees the variables from number `k` on comes first in what frees those from `from` on.
proof fn lemma_bindings(o: Out, bs: Seq<BindingV>, from: int, k: int, n: int)
    requires
        0 <= from <= k <= n <= bs.len(),
    ensures
        free_bindings(o, bs, from, n) == free_bindings(free_bindings(o, bs, k, n), bs, from, k),
    decreases n - k,
{
    if k < n {
        lemma_bindings(free_slot(o, bs[n - 1].place, bs[n - 1].ty), bs, from, k, n - 1);
    }
}

proof fn lemma_bindings_grow(b: Out, o: Out, bs: Seq<BindingV>, from: int, n: int)
    requires
        grows(b, o),
    ensures
        grows(b, free_bindings(o, bs, from, n)),
    decreases n - from,
{
    if from < n && 0 < n <= bs.len() {
        own_free_slot(b, o, bs[n - 1].place, bs[n - 1].ty);
        lemma_bindings_grow(b, free_slot(o, bs[n - 1].place, bs[n - 1].ty), bs, from, n - 1);
    }
}

/// Each temporary of a statement is freed exactly once: the temporaries are different values, and the
/// code of the statement ends in what frees each of them, one after the other. A `return` has freed
/// them itself and leaves none.
pub proof fn each_temporary_is_freed_once(f: Frame, s: State, stmt: StmtV, i: int)
    requires
        ready(s),
        lower_action(f, s, stmt) is Ok,
        0 <= i < lower_action(f, s, stmt)->Ok_0.temps.len(),
    ensures
        ({
            let u = lower_action(f, s, stmt)->Ok_0;
            &&& temps_apart(u.temps, u.out)
            &&& lower_stmt(f, s, stmt) == Ok::<State, Seq<char>>(finish(u))
            &&& !u.out.ended ==> {
                &&& finish(u).out == free_temps(u.out, u.temps, u.temps.len())
                &&& grows(
                    free_value(free_temps(u.out, u.temps, i as nat), u.temps[i].value, u.temps[i].ty),
                    finish(u).out,
                )
            }
        }),
{
    lemma_action(f, s, stmt);
    let u = lower_action(f, s, stmt)->Ok_0;
    reveal(orderly);
    assert(free_temps(u.out, u.temps, (i + 1) as nat) == free_value(
        free_temps(u.out, u.temps, i as nat),
        u.temps[i].value,
        u.temps[i].ty,
    ));
    lemma_temps(u.out, u.temps, (i + 1) as nat, u.temps.len());
}

/// Each variable that a block declares is freed exactly once at its end, the last one first: the
/// variables have different places, and the code of the block ends in what frees each of them. A block
/// that has returned has freed them already.
pub proof fn each_variable_is_freed_once(f: Frame, s: State, b: Seq<StmtV>, i: int)
    requires
        ready(s),
        lower_stmts(f, push_scope(s), b, b.len()) is Ok,
        s.bindings.len() <= i < lower_stmts(f, push_scope(s), b, b.len())->Ok_0.bindings.len(),
        !lower_stmts(f, push_scope(s), b, b.len())->Ok_0.out.ended,
    ensures
        ({
            let u = lower_stmts(f, push_scope(s), b, b.len())->Ok_0;
            let n = u.bindings.len() as int;
            &&& places_apart(u.bindings, u.out)
            &&& scope_start(u) == s.bindings.len()
            &&& lower_block(f, s, b) matches Ok(t) && {
                &&& t.out == free_bindings(u.out, u.bindings, s.bindings.len() as int, n)
                &&& grows(
                    free_slot(free_bindings(u.out, u.bindings, i + 1, n), u.bindings[i].place, u.bindings[i].ty),
                    t.out,
                )
            }
        }),
{
    let s1 = push_scope(s);
    assert(ready(s1)) by {
        reveal(orderly);
    }
    lemma_stmts(f, s1, b, b.len());
    lemma_stmts_keeps(f, s1, b, b.len());
    let u = lower_stmts(f, s1, b, b.len())->Ok_0;
    let n = u.bindings.len() as int;
    reveal(orderly);
    lemma_bindings(u.out, u.bindings, i, i + 1, n);
    lemma_bindings(u.out, u.bindings, s.bindings.len() as int, i, n);
    let o = free_bindings(u.out, u.bindings, i, n);
    let rest = free_bindings(u.out, u.bindings, i + 1, n);
    assert(o == free_bindings(rest, u.bindings, i, i + 1));
    assert(o == free_slot(rest, u.bindings[i].place, u.bindings[i].ty)) by {
        let one = free_slot(rest, u.bindings[i].place, u.bindings[i].ty);
        assert(free_bindings(one, u.bindings, i, i) == one);
    }
    lemma_same(o);
    lemma_bindings_grow(o, o, u.bindings, s.bindings.len() as int, i);
}

/// A `return` frees the temporaries and the variables of all open blocks before it leaves: the
/// temporaries are different values, the variables have different places, and the code that frees
/// them all comes before the end of the function.
pub proof fn a_return_frees_everything_first(f: Frame, s: State, e: Option<ExprV>)
    requires
        ready(s),
        lower_return(f, s, e) is Ok,
    ensures
        ({
            let w = match e {
                None => work(s),
                Some(e) => lower_for(scope(f, s), work(s), e, f.return_type)->Ok_0.0,
            };
            let freed = free_bindings(
                free_temps(w.out, w.temps, w.temps.len()),
                s.bindings,
                0,
                s.bindings.len() as int,
            );
            let t = lower_return(f, s, e)->Ok_0;
            &&& temps_apart(w.temps, w.out)
            &&& places_apart(s.bindings, w.out)
            &&& grows(freed, t.out)
            &&& t.temps.len() == 0
        }),
{
    reveal(orderly);
    let w = match e {
        None => work(s),
        Some(e) => {
            lemma_for(scope(f, s), work(s), e, f.return_type);
            lower_for(scope(f, s), work(s), e, f.return_type)->Ok_0.0
        },
    };
    let freed = free_bindings(free_temps(w.out, w.temps, w.temps.len()), s.bindings, 0, s.bindings.len() as int);
    lemma_same(freed);
    match e {
        Some(e) => {
            own_do1(freed, freed, Op::Ret, lower_for(scope(f, s), work(s), e, f.return_type)->Ok_0.1);
        },
        None => {
            own_const_int(freed, freed, 32, 0);
            let (o, zero) = const_int(freed, 32, 0);
            own_do1(freed, o, Op::Ret, zero);
            own_do0(freed, freed, Op::RetVoid);
        },
    }
}

} // verus!
