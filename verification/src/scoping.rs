//! What statements do to the variables: a block takes back what it declared.

use vstd::prelude::*;
use crate::ast::{ExprV, StmtV, Type};
use crate::emit::{at, block, branch, jump};
use crate::ir::Value;
use crate::layout::{
    block_sites, declare, done, emitted, finish, hoist, hoist_all, lower_action, lower_arm, lower_block,
    lower_condition, lower_if, lower_stmt, lower_stmts, lower_while, pop_scope, push_scope, scope_start, sites,
    Frame, SiteV, State,
};
use crate::lower::{find_binding, BindingV};

verus! {

/// A block is open, and the variables before it are there.
pub open spec fn in_block(s: State) -> bool {
    s.scopes.len() > 0 && s.scopes.last() <= s.bindings.len()
}

/// The open blocks are the same, and so are the variables before the innermost one.
pub open spec fn keeps(s: State, t: State) -> bool {
    &&& t.scopes == s.scopes
    &&& s.bindings.len() <= t.bindings.len()
    &&& t.bindings.take(scope_start(s)) == s.bindings.take(scope_start(s))
}

pub proof fn lemma_find_binding(bs: Seq<BindingV>, name: Seq<char>, ty: Type, literal: bool, n: int)
    ensures
        find_binding(bs, name, ty, literal, n) matches Some(k) ==> {
            &&& 0 <= k < n
            &&& k < bs.len()
            &&& bs[k].name == name
            &&& bs[k].ty == ty
            &&& bs[k].literal == literal
        },
    decreases n,
{
    if 0 < n <= bs.len() && !(bs[n - 1].name == name && bs[n - 1].ty == ty && bs[n - 1].literal == literal) {
        lemma_find_binding(bs, name, ty, literal, n - 1);
    }
}

pub proof fn lemma_declare_keeps(s: State, name: Seq<char>, ty: Type, v: Value)
    requires
        in_block(s),
    ensures
        keeps(s, declare(s, name, ty, v)),
        in_block(declare(s, name, ty, v)),
{
    lemma_find_binding(s.bindings, name, ty, false, s.bindings.len() as int);
    let t = declare(s, name, ty, v);
    assert(t.bindings.take(scope_start(s)) =~= s.bindings.take(scope_start(s)));
}

/// Literals are made behind the variables that are there.
pub proof fn lemma_hoist_keeps(s: State, list: Seq<SiteV>, n: nat)
    ensures
        hoist_all(s, list, n) matches Ok(t) ==> {
            &&& t.scopes == s.scopes
            &&& s.bindings.len() <= t.bindings.len()
            &&& t.bindings.take(s.bindings.len() as int) == s.bindings
            &&& forall|i: int| s.bindings.len() <= i < t.bindings.len() ==> (#[trigger] t.bindings[i]).literal
        },
    decreases n,
{
    if n == 0 || n > list.len() {
        assert(s.bindings.take(s.bindings.len() as int) =~= s.bindings);
    } else {
        lemma_hoist_keeps(s, list, (n - 1) as nat);
        if let Ok(u) = hoist_all(s, list, (n - 1) as nat) {
            if let Ok(t) = hoist(u, list[n - 1]) {
                if t.bindings != u.bindings {
                    assert(t.bindings.take(s.bindings.len() as int) =~= u.bindings.take(s.bindings.len() as int));
                }
            }
        }
    }
}

proof fn lemma_condition_keeps(f: Frame, s: State, cond: ExprV)
    ensures
        lower_condition(f, s, cond) matches Ok(r) ==> r.0.bindings == s.bindings && r.0.scopes == s.scopes,
{
}

pub proof fn lemma_action_keeps(f: Frame, s: State, stmt: StmtV)
    requires
        in_block(s),
    ensures
        lower_action(f, s, stmt) matches Ok(t) ==> keeps(s, t) && in_block(t),
        stmt is If || stmt is While ==> (lower_action(f, s, stmt) matches Ok(t) ==> t.bindings == s.bindings),
    decreases stmt, 1nat, 0nat,
{
    match stmt {
        StmtV::VarDecl(name, ty, e) => {
            if let Ok((w, v)) = crate::lower::lower_for(
                crate::layout::scope(f, s),
                crate::layout::work(s),
                e,
                ty,
            ) {
                lemma_declare_keeps(done(s, w), name, ty, v);
            }
        },
        StmtV::Input(name, ty, source) => {
            if let Ok((w, v)) = crate::layout::read_input(
                crate::layout::scope(f, s),
                crate::layout::work(s),
                ty,
                source,
            ) {
                lemma_declare_keeps(done(s, w), name, ty, v);
            }
        },
        StmtV::Clock(name, ty) => {
            if let Type::Num(width) = ty {
                let (o, n) = crate::emit::call0(s.out, crate::ir::Rt::ClockElapsed);
                let (o, v) = crate::emit::coerce_float(o, n, width);
                lemma_declare_keeps(emitted(s, o), name, ty, v);
            }
        },
        StmtV::If(_, _, _) => lemma_if_keeps(f, s, stmt),
        StmtV::While(_, _) => lemma_while_keeps(f, s, stmt),
        _ => {},
    }
}

proof fn lemma_if_keeps(f: Frame, s: State, stmt: StmtV)
    ensures
        lower_if(f, s, stmt) matches Ok(t) ==> t.bindings == s.bindings && t.scopes == s.scopes,
    decreases stmt, 0nat, 0nat,
{
    match stmt {
        StmtV::If(cond, then_block, else_block) => {
            lemma_condition_keeps(f, s, cond);
            if let Ok((s1, v)) = lower_condition(f, s, cond) {
                let (o, yes) = block(s1.out, "then"@);
                let (o, no) = block(o, "else"@);
                let (o, next) = block(o, "merge"@);
                let s2 = emitted(s1, branch(o, v, yes, no));
                lemma_arm_keeps(f, s2, yes, then_block, next);
                if let Ok(s3) = lower_arm(f, s2, yes, then_block, next) {
                    if let Some(b) = else_block {
                        lemma_arm_keeps(f, s3, no, b, next);
                    }
                }
            }
        },
        _ => {},
    }
}

proof fn lemma_arm_keeps(f: Frame, s: State, start: Value, b: Seq<StmtV>, next: Value)
    ensures
        lower_arm(f, s, start, b, next) matches Ok(t) ==> t.bindings == s.bindings && t.scopes == s.scopes,
    decreases b, 4nat, 0nat,
{
    lemma_block_keeps(f, emitted(s, at(s.out, start)), b);
}

proof fn lemma_while_keeps(f: Frame, s: State, stmt: StmtV)
    ensures
        lower_while(f, s, stmt) matches Ok(t) ==> t.bindings == s.bindings && t.scopes == s.scopes,
    decreases stmt, 0nat, 0nat,
{
    match stmt {
        StmtV::While(cond, body) => {
            let (o, head) = block(s.out, "while_cond"@);
            let (o, inside) = block(o, "while_body"@);
            let (o, next) = block(o, "while_end"@);
            let list = sites(f.sigs, cond) + block_sites(f.sigs, body, body.len());
            let s1 = push_scope(emitted(s, o));
            lemma_hoist_keeps(s1, list, list.len());
            if let Ok(s2) = hoist_all(s1, list, list.len()) {
                let s3 = emitted(s2, at(jump(s2.out, head), head));
                lemma_condition_keeps(f, s3, cond);
                if let Ok((s4, v)) = lower_condition(f, s3, cond) {
                    let s5 = emitted(s4, branch(s4.out, v, inside, next));
                    lemma_arm_keeps(f, s5, inside, body, head);
                    if let Ok(s7) = lower_arm(f, s5, inside, body, head) {
                        let s8 = pop_scope(emitted(s7, at(s7.out, next)), true);
                        assert(s7.scopes.last() == s.bindings.len());
                        assert(s8.scopes =~= s.scopes);
                        assert(s8.bindings == s.bindings);
                    }
                }
            }
        },
        _ => {},
    }
}

proof fn lemma_stmt_keeps(f: Frame, s: State, stmt: StmtV)
    requires
        in_block(s),
    ensures
        lower_stmt(f, s, stmt) matches Ok(t) ==> keeps(s, t) && in_block(t),
    decreases stmt, 2nat, 0nat,
{
    lemma_action_keeps(f, s, stmt);
    if let Ok(t) = lower_action(f, s, stmt) {
        assert(lower_stmt(f, s, stmt) == Ok::<State, Seq<char>>(finish(t)));
    }
}

pub proof fn lemma_stmts_keeps(f: Frame, s: State, b: Seq<StmtV>, n: nat)
    requires
        in_block(s),
    ensures
        lower_stmts(f, s, b, n) matches Ok(t) ==> keeps(s, t) && in_block(t),
    decreases b, 2nat, n,
{
    if 0 < n <= b.len() {
        lemma_stmts_keeps(f, s, b, (n - 1) as nat);
        if let Ok(t) = lower_stmts(f, s, b, (n - 1) as nat) {
            if !t.out.ended {
                lemma_stmt_keeps(f, t, b[n - 1]);
                assert(scope_start(t) == scope_start(s));
            }
        }
    }
}

pub proof fn lemma_block_keeps(f: Frame, s: State, b: Seq<StmtV>)
    ensures
        lower_block(f, s, b) matches Ok(t) ==> t.bindings == s.bindings && t.scopes == s.scopes,
    decreases b, 3nat, 0nat,
{
    let s1 = push_scope(s);
    lemma_stmts_keeps(f, s1, b, b.len());
    if let Ok(t) = lower_stmts(f, s1, b, b.len()) {
        let u = pop_scope(t, !t.out.ended);
        assert(t.scopes.last() == s.bindings.len());
        assert(u.scopes =~= s.scopes);
        assert(s1.bindings.take(s.bindings.len() as int) =~= s.bindings);
        assert(u.bindings == s.bindings);
    }
}

/// Block scoping: after a block the variables are the same as before it, whatever the block
/// declared; a variable of the same name and type that it hid is there again.
pub proof fn blocks_take_back_what_they_declare(f: Frame, s: State, b: Seq<StmtV>)
    ensures
        lower_block(f, s, b) matches Ok(t) ==> t.bindings == s.bindings && t.scopes == s.scopes,
{
    lemma_block_keeps(f, s, b);
}

/// No temporary outlives its statement.
pub proof fn statements_leave_no_temporaries(f: Frame, s: State, stmt: StmtV)
    ensures
        lower_stmt(f, s, stmt) matches Ok(t) ==> t.temps.len() == 0,
{
}

} // verus!
