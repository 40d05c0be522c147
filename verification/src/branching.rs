//! Which way a program goes: an `if` runs the branch that its condition selects, and a `while` runs
//! its body as long as its condition holds.

use vstd::prelude::*;
use crate::ast::{ExprV, StmtV};
use crate::confined::{grows, lemma_same};
use crate::control::{own_condition, own_ends, own_hoist_all, own_lower_block};
use crate::emit::{at, block, branch, do1, do3, give0, jump, Out};
use crate::ir::{InstV, Op, Value};
use crate::layout::{
    block_sites, close_branch, emitted, hoist_all, lower_block, lower_condition, lower_if, lower_while, pop_scope,
    push_scope, sites, Frame, State,
};
use crate::machine::{
    holds, landing, lemma_emit, lemma_here, lemma_landing, lemma_step, reaches, step, within, Machine,
};

verus! {

// ---------------------------------------------------------------------------
// Blocks
// ---------------------------------------------------------------------------

proof fn lemma_at(code: Seq<InstV>, o: Out, b: Value)
    requires
        within(code, at(o, b)),
    ensures
        within(code, o),
        at(o, b).code.len() == o.code.len() + 1,
        code[o.code.len() as int].op is At,
        code[o.code.len() as int].args == seq![b.id],
        o.code.len() < code.len(),
{
    reveal(at);
    reveal(do1);
    lemma_emit(code, o, Op::At, seq![b.id], ""@);
}

pub proof fn lemma_jump(code: Seq<InstV>, o: Out, b: Value)
    requires
        within(code, jump(o, b)),
    ensures
        within(code, o),
        jump(o, b).code.len() == o.code.len() + 1,
        code[o.code.len() as int].op is Jump,
        code[o.code.len() as int].args == seq![b.id],
        o.code.len() < code.len(),
{
    reveal(jump);
    reveal(do1);
    lemma_emit(code, o, Op::Jump, seq![b.id], ""@);
}

proof fn lemma_branch(code: Seq<InstV>, o: Out, v: Value, yes: Value, no: Value)
    requires
        within(code, branch(o, v, yes, no)),
    ensures
        within(code, o),
        branch(o, v, yes, no).code.len() == o.code.len() + 1,
        code[o.code.len() as int].op is Branch,
        code[o.code.len() as int].args == seq![v.id, yes.id, no.id],
        o.code.len() < code.len(),
{
    reveal(branch);
    reveal(do3);
    lemma_emit(code, o, Op::Branch, seq![v.id, yes.id, no.id], ""@);
}

proof fn lemma_block(code: Seq<InstV>, o: Out, name: Seq<char>)
    requires
        within(code, block(o, name).0),
    ensures
        within(code, o),
        block(o, name).0.code.len() == o.code.len() + 1,
        block(o, name).1.id == o.code.len(),
        code[o.code.len() as int].op is Block,
        o.code.len() < code.len(),
{
    reveal(block);
    reveal(give0);
    lemma_emit(code, o, Op::Block, Seq::empty(), name);
}

/// The code of a block of statements between `s` and `t`: nothing in it goes on at an earlier block.
proof fn lemma_between(code: Seq<InstV>, f: Frame, s: State, body: Seq<StmtV>, t: State)
    requires
        lower_block(f, s, body) == Ok::<State, Seq<char>>(t),
        within(code, t.out),
    ensures
        within(code, s.out),
        s.out.code.len() <= t.out.code.len(),
        forall|i: int|
            s.out.code.len() <= i < t.out.code.len() && (#[trigger] code[i]).op is At ==> code[i].args[0]
                >= s.out.code.len(),
{
    lemma_same(s.out);
    own_lower_block(s.out, f, s, body);
    lemma_inside(code, s.out, t.out);
}

/// The code between `o` and `t`: nothing in it goes on at an earlier block.
pub proof fn lemma_inside(code: Seq<InstV>, o: Out, t: Out)
    requires
        grows(o, t),
        within(code, t),
    ensures
        within(code, o),
        o.code.len() <= t.code.len(),
        forall|i: int|
            o.code.len() <= i < t.code.len() && (#[trigger] code[i]).op is At ==> code[i].args[0] >= o.code.len(),
{
    reveal(grows);
    assert forall|i: int| 0 <= i < o.code.len() implies #[trigger] o.code[i] == code[i] by {
        assert(t.code[i] == o.code[i]);
    }
    assert forall|i: int| o.code.len() <= i < t.code.len() && (#[trigger] code[i]).op is At implies code[i].args[0]
        >= o.code.len() by {
        assert(t.code[i] == code[i]);
    }
}

/// The end of a branch.
proof fn lemma_close(code: Seq<InstV>, s: State, next: Value)
    requires
        within(code, close_branch(s, next).out),
    ensures
        within(code, s.out),
        s.out.code.len() <= close_branch(s, next).out.code.len() <= s.out.code.len() + 1,
        forall|i: int|
            s.out.code.len() <= i < close_branch(s, next).out.code.len() ==> !((#[trigger] code[i]).op is At),
        !s.out.ended ==> close_branch(s, next).out.code.len() == s.out.code.len() + 1 && code[s.out.code.len() as int].op
            is Jump && code[s.out.code.len() as int].args == seq![next.id],
{
    if !s.out.ended {
        lemma_jump(code, s.out, next);
    }
}

// ---------------------------------------------------------------------------
// If
// ---------------------------------------------------------------------------

/// The parts of an `if`: where its condition is known, where its two branches start and end, and
/// where it ends. Without an `else` the second branch is empty.
pub struct IfParts {
    pub known: State,
    pub cond: Value,
    pub yes: Value,
    pub no: Value,
    pub next: Value,
    pub then_start: State,
    pub then_end: State,
    pub else_start: State,
    pub else_end: State,
    pub end: State,
}

/// The parts of an `if`.
pub open spec fn if_parts(f: Frame, s: State, stmt: StmtV) -> IfParts {
    let (cond, then_block, else_block) = match stmt {
        StmtV::If(c, t, e) => (c, t, e),
        _ => (ExprV::Bool(true), Seq::empty(), None),
    };
    let (known, v) = lower_condition(f, s, cond)->Ok_0;
    let (o, yes) = block(known.out, "then"@);
    let (o, no) = block(o, "else"@);
    let (o, next) = block(o, "merge"@);
    let then_start = emitted(emitted(known, branch(o, v, yes, no)), at(branch(o, v, yes, no), yes));
    let then_end = lower_block(f, then_start, then_block)->Ok_0;
    let s2 = close_branch(then_end, next);
    let else_start = emitted(s2, at(s2.out, no));
    let else_end = match else_block {
        Some(b) => lower_block(f, else_start, b)->Ok_0,
        None => else_start,
    };
    let s3 = close_branch(else_end, next);
    IfParts {
        known,
        cond: v,
        yes,
        no,
        next,
        then_start,
        then_end,
        else_start,
        else_end,
        end: emitted(s3, at(s3.out, next)),
    }
}

/// Where the blocks of an `if` start.
proof fn lemma_if(code: Seq<InstV>, f: Frame, s: State, stmt: StmtV)
    requires
        stmt is If,
        lower_if(f, s, stmt) is Ok,
        within(code, lower_if(f, s, stmt)->Ok_0.out),
    ensures
        ({
            let p = if_parts(f, s, stmt);
            let n = p.known.out.code.len() as int;
            &&& lower_if(f, s, stmt) == Ok::<State, Seq<char>>(p.end)
            &&& p.then_start.out.code.len() == n + 5
            &&& p.yes.id == n
            &&& p.no.id == n + 1
            &&& p.next.id == n + 2
            &&& code[n].op is Block
            &&& code[n + 1].op is Block
            &&& code[n + 2].op is Block
            &&& code[n + 3].op is Branch && code[n + 3].args == seq![p.cond.id, p.yes.id, p.no.id]
            &&& code[n + 4].op is At
            &&& landing(code, n, n) == n + 4
            &&& landing(code, n + 1, n + 1) == p.else_start.out.code.len() - 1
            &&& code[p.else_start.out.code.len() - 1].op is At
            &&& landing(code, n + 2, n + 2) == p.end.out.code.len() - 1
            &&& code[p.end.out.code.len() - 1].op is At
            &&& !p.then_end.out.ended ==> code[p.then_end.out.code.len() as int].op is Jump
                && code[p.then_end.out.code.len() as int].args == seq![p.next.id]
            &&& !p.else_end.out.ended ==> code[p.else_end.out.code.len() as int].op is Jump
                && code[p.else_end.out.code.len() as int].args == seq![p.next.id]
        }),
{
    if let StmtV::If(cond, then_block, else_block) = stmt {
        let p = if_parts(f, s, stmt);
        let n = p.known.out.code.len() as int;
        let (o1, yes) = block(p.known.out, "then"@);
        let (o2, no) = block(o1, "else"@);
        let (o3, next) = block(o2, "merge"@);
        let o4 = branch(o3, p.cond, yes, no);
        let s2 = close_branch(p.then_end, next);
        let s3 = close_branch(p.else_end, next);
        assert(lower_if(f, s, stmt) == Ok::<State, Seq<char>>(p.end));
        lemma_at(code, s3.out, next);
        lemma_close(code, p.else_end, next);
        if let Some(b) = else_block {
            lemma_between(code, f, p.else_start, b, p.else_end);
        }
        lemma_at(code, s2.out, no);
        lemma_close(code, p.then_end, next);
        lemma_between(code, f, p.then_start, then_block, p.then_end);
        lemma_at(code, o4, yes);
        lemma_branch(code, o3, p.cond, yes, no);
        lemma_block(code, o2, "merge"@);
        lemma_block(code, o1, "else"@);
        lemma_block(code, p.known.out, "then"@);
        lemma_landing(code, n, n, n + 4);
        lemma_landing(code, n + 1, n + 1, p.else_start.out.code.len() - 1);
        lemma_landing(code, n + 2, n + 2, p.end.out.code.len() - 1);
    }
}

/// An `if` runs the branch that its condition selects: once the condition is known, the run comes to
/// the start of the first branch if it holds, and to the start of the second one if it does not,
/// with everything that was computed and stored as it was.
pub proof fn an_if_selects_its_branch(code: Seq<InstV>, f: Frame, s: State, stmt: StmtV, m: Machine, c: int) -> (t: Machine)
    requires
        stmt is If,
        lower_if(f, s, stmt) is Ok,
        within(code, lower_if(f, s, stmt)->Ok_0.out),
        m.next == if_parts(f, s, stmt).known.out.code.len(),
        holds(m, if_parts(f, s, stmt).cond, c),
    ensures
        reaches(code, m, t),
        t.cells == m.cells,
        t.memory == m.memory,
        t.stored == m.stored,
        t.around == m.around,
        t.next == if c != 0 {
            if_parts(f, s, stmt).then_start.out.code.len()
        } else {
            if_parts(f, s, stmt).else_start.out.code.len()
        },
{
    lemma_if(code, f, s, stmt);
    reveal(step);
    lemma_here(code, m);
    let m1 = lemma_step(code, m, m);
    let m2 = lemma_step(code, m, m1);
    let m3 = lemma_step(code, m, m2);
    let m4 = lemma_step(code, m, m3);
    lemma_step(code, m, m4)
}

/// Behind either branch an `if` goes on at its end, unless the branch has returned.
pub proof fn an_if_ends_behind_its_branches(code: Seq<InstV>, f: Frame, s: State, stmt: StmtV, m: Machine) -> (t: Machine)
    requires
        stmt is If,
        lower_if(f, s, stmt) is Ok,
        within(code, lower_if(f, s, stmt)->Ok_0.out),
        ({
            let p = if_parts(f, s, stmt);
            ||| m.next == p.then_end.out.code.len() && !p.then_end.out.ended
            ||| m.next == p.else_end.out.code.len() && !p.else_end.out.ended
        }),
    ensures
        lower_if(f, s, stmt) == Ok::<State, Seq<char>>(if_parts(f, s, stmt).end),
        reaches(code, m, t),
        t.cells == m.cells,
        t.memory == m.memory,
        t.stored == m.stored,
        t.around == m.around,
        t.next == if_parts(f, s, stmt).end.out.code.len(),
{
    lemma_if(code, f, s, stmt);
    reveal(step);
    lemma_here(code, m);
    let m1 = lemma_step(code, m, m);
    lemma_step(code, m, m1)
}

// ---------------------------------------------------------------------------
// While
// ---------------------------------------------------------------------------

/// The parts of a `while`: where the literals of the loop are made, where its condition starts and is
/// known, where its body starts and ends, and where the loop is left. What the loop has made is freed
/// behind that.
pub struct WhileParts {
    pub head: Value,
    pub inside: Value,
    pub next: Value,
    pub made: State,
    pub cond_start: State,
    pub known: State,
    pub cond: Value,
    pub body_start: State,
    pub body_end: State,
    pub left: State,
}

/// The parts of a `while`.
pub open spec fn while_parts(f: Frame, s: State, stmt: StmtV) -> WhileParts {
    let (cond, body) = match stmt {
        StmtV::While(c, b) => (c, b),
        _ => (ExprV::Bool(true), Seq::empty()),
    };
    let (o, head) = block(s.out, "while_cond"@);
    let (o, inside) = block(o, "while_body"@);
    let (o, next) = block(o, "while_end"@);
    let list = sites(f.sigs, cond) + block_sites(f.sigs, body, body.len());
    let made = hoist_all(push_scope(emitted(s, o)), list, list.len())->Ok_0;
    let cond_start = emitted(made, at(jump(made.out, head), head));
    let (known, v) = lower_condition(f, cond_start, cond)->Ok_0;
    let chosen = emitted(known, branch(known.out, v, inside, next));
    let body_start = emitted(chosen, at(chosen.out, inside));
    let body_end = lower_block(f, body_start, body)->Ok_0;
    let s6 = close_branch(body_end, head);
    WhileParts {
        head,
        inside,
        next,
        made,
        cond_start,
        known,
        cond: v,
        body_start,
        body_end,
        left: emitted(s6, at(s6.out, next)),
    }
}

/// Where the blocks of a `while` start.
proof fn lemma_while(code: Seq<InstV>, f: Frame, s: State, stmt: StmtV)
    requires
        stmt is While,
        lower_while(f, s, stmt) is Ok,
        within(code, lower_while(f, s, stmt)->Ok_0.out),
    ensures
        ({
            let p = while_parts(f, s, stmt);
            let n = s.out.code.len() as int;
            let h = p.made.out.code.len() as int;
            let k = p.known.out.code.len() as int;
            &&& lower_while(f, s, stmt) == Ok::<State, Seq<char>>(pop_scope(p.left, true))
            &&& p.head.id == n
            &&& p.inside.id == n + 1
            &&& p.next.id == n + 2
            &&& p.cond_start.out.code.len() == h + 2
            &&& p.body_start.out.code.len() == k + 2
            &&& code[h].op is Jump && code[h].args == seq![p.head.id]
            &&& code[h + 1].op is At
            &&& code[k].op is Branch && code[k].args == seq![p.cond.id, p.inside.id, p.next.id]
            &&& code[k + 1].op is At
            &&& landing(code, n, n) == h + 1
            &&& landing(code, n + 1, n + 1) == k + 1
            &&& landing(code, n + 2, n + 2) == p.left.out.code.len() - 1
            &&& code[p.left.out.code.len() - 1].op is At
            &&& !p.body_end.out.ended ==> code[p.body_end.out.code.len() as int].op is Jump
                && code[p.body_end.out.code.len() as int].args == seq![p.head.id]
        }),
{
    if let StmtV::While(cond, body) = stmt {
        let p = while_parts(f, s, stmt);
        let n = s.out.code.len() as int;
        let (o1, head) = block(s.out, "while_cond"@);
        let (o2, inside) = block(o1, "while_body"@);
        let (o3, next) = block(o2, "while_end"@);
        let list = sites(f.sigs, cond) + block_sites(f.sigs, body, body.len());
        let o4 = jump(p.made.out, head);
        let o5 = branch(p.known.out, p.cond, inside, next);
        let s6 = close_branch(p.body_end, head);
        assert(lower_while(f, s, stmt) == Ok::<State, Seq<char>>(pop_scope(p.left, true)));
        lemma_same(p.left.out);
        own_ends(p.left.out, p.left, true);
        lemma_inside(code, p.left.out, pop_scope(p.left, true).out);
        lemma_at(code, s6.out, next);
        lemma_close(code, p.body_end, head);
        lemma_between(code, f, p.body_start, body, p.body_end);
        lemma_at(code, o5, inside);
        lemma_branch(code, p.known.out, p.cond, inside, next);
        lemma_same(p.cond_start.out);
        own_condition(p.cond_start.out, f, p.cond_start, cond);
        lemma_inside(code, p.cond_start.out, p.known.out);
        lemma_at(code, o4, head);
        lemma_jump(code, p.made.out, head);
        lemma_same(o3);
        own_hoist_all(o3, push_scope(emitted(s, o3)), list, list.len());
        lemma_inside(code, o3, p.made.out);
        lemma_block(code, o2, "while_end"@);
        lemma_block(code, o1, "while_body"@);
        lemma_block(code, s.out, "while_cond"@);
        lemma_landing(code, n, n, p.made.out.code.len() as int + 1);
        lemma_landing(code, n + 1, n + 1, p.known.out.code.len() as int + 1);
        lemma_landing(code, n + 2, n + 2, p.left.out.code.len() - 1);
    }
}

/// A `while` runs its body as long as its condition holds: once the condition is known, the run comes
/// to the start of the body if it holds, and leaves the loop if it does not, with everything that was
/// computed and stored as it was.
pub proof fn a_while_runs_while_its_condition_holds(
    code: Seq<InstV>,
    f: Frame,
    s: State,
    stmt: StmtV,
    m: Machine,
    c: int,
) -> (t: Machine)
    requires
        stmt is While,
        lower_while(f, s, stmt) is Ok,
        within(code, lower_while(f, s, stmt)->Ok_0.out),
        m.next == while_parts(f, s, stmt).known.out.code.len(),
        holds(m, while_parts(f, s, stmt).cond, c),
    ensures
        lower_while(f, s, stmt) == Ok::<State, Seq<char>>(pop_scope(while_parts(f, s, stmt).left, true)),
        reaches(code, m, t),
        t.cells == m.cells,
        t.memory == m.memory,
        t.stored == m.stored,
        t.around == m.around,
        t.next == if c != 0 {
            while_parts(f, s, stmt).body_start.out.code.len()
        } else {
            while_parts(f, s, stmt).left.out.code.len()
        },
{
    lemma_while(code, f, s, stmt);
    reveal(step);
    lemma_here(code, m);
    let m1 = lemma_step(code, m, m);
    lemma_step(code, m, m1)
}

/// A `while` comes to its condition first, and again behind its body, unless the body has returned.
pub proof fn a_while_comes_back_to_its_condition(
    code: Seq<InstV>,
    f: Frame,
    s: State,
    stmt: StmtV,
    m: Machine,
) -> (t: Machine)
    requires
        stmt is While,
        lower_while(f, s, stmt) is Ok,
        within(code, lower_while(f, s, stmt)->Ok_0.out),
        ({
            let p = while_parts(f, s, stmt);
            ||| m.next == p.made.out.code.len()
            ||| m.next == p.body_end.out.code.len() && !p.body_end.out.ended
        }),
    ensures
        reaches(code, m, t),
        t.cells == m.cells,
        t.memory == m.memory,
        t.stored == m.stored,
        t.around == m.around,
        t.next == while_parts(f, s, stmt).cond_start.out.code.len(),
{
    lemma_while(code, f, s, stmt);
    reveal(step);
    lemma_here(code, m);
    let m1 = lemma_step(code, m, m);
    lemma_step(code, m, m1)
}

} // verus!
