//! What function calls do when a program runs: each parameter gets its argument, and what a function
//! returns comes back to where it was called.

use vstd::prelude::*;
use crate::assignment::is_plain;
use crate::ast::{ExprV, FunctionV, ParamV, ProgramV, StmtV, Type};
use crate::branching::lemma_inside;
use crate::confined::{begins, grows, lemma_same, own_const_int, own_default_return, own_do1, own_give0};
use crate::control::{own_declare, own_ends, own_for, own_free_temps, own_lower_block};
use crate::emit::{call_function, const_int, do0, do1, do2, emit, free_slot, give0, ids, owned, slot, store, Out};
use crate::evaluation::{
    eval_for, lemma_converted_type, lemma_eval_for_same, places_before, read_var, represents,
    stored_expressions_compute, Outcome,
};
use crate::ir::{repr_of, InstV, Op, Value};
use crate::layout::{
    bind_params, declare, emitted, finish, free_bindings, lower_block, lower_entry, lower_function, lower_functions,
    lower_program, lower_return, lower_stmt, lower_stmts, opened, own_variable, pop_scope, push_scope, scope, work,
    Frame, State,
};
use crate::lower::{
    find_binding, free_temps, lower_args, lower_call, lower_for, sig_place, variable, BindingV, Scope, Work,
};
use crate::machine::{
    cells_of, given, lemma_emit, lemma_here, lemma_step, lemma_then, other_step, reaches, run, same_before, step,
    within, Around, Cell, Machine, Run,
};
use crate::typing::{sig_of, sigs_of, SigV};

verus! {

// ---------------------------------------------------------------------------
// Functions that call each other
// ---------------------------------------------------------------------------

/// A program with the function that runs, and the callers that wait for it, each at its call.
pub struct Process {
    pub top: Machine,
    pub callers: Seq<Machine>,
}

/// How a process goes on.
pub enum Progress {
    On(Process),
    /// The program has ended.
    Ended(Option<Cell>),
    Stopped(Seq<char>),
    Elsewhere,
}

/// Where the body of the function with number `k` starts, looked for from `i` on.
pub open spec fn entry_from(code: Seq<InstV>, k: usize, i: int) -> int
    decreases code.len() - i,
{
    if 0 <= i < code.len() && code[i].op != Op::BeginFunction(k) {
        entry_from(code, k, i + 1)
    } else {
        i
    }
}

/// The machine that starts a function at `start` with arguments.
pub open spec fn called(caller: Machine, start: int, args: Seq<Cell>) -> Machine {
    Machine {
        next: start + 1,
        cells: Map::empty(),
        memory: Map::empty(),
        stored: Map::empty(),
        around: Around { args, ..caller.around },
    }
}

/// The caller goes on behind its call, with what the function has given. What the function has done to
/// what is around it stays.
pub open spec fn returned(caller: Machine, top: Machine, v: Option<Cell>) -> Machine {
    Machine {
        next: caller.next + 1,
        cells: match v {
            Some(c) => caller.cells.insert(caller.next, c),
            None => caller.cells,
        },
        around: Around { args: caller.around.args, ..top.around },
        ..caller
    }
}

/// One instruction, of whatever kind.
pub open spec fn advance(code: Seq<InstV>, p: Process) -> Progress {
    let i = code[p.top.next];
    let gone = |v: Option<Cell>|
        if p.callers.len() == 0 {
            Progress::Ended(v)
        } else {
            Progress::On(
                Process { top: returned(p.callers.last(), p.top, v), callers: p.callers.drop_last() },
            )
        };
    match i.op {
        Op::CallFunction(k) => if entry_from(code, k, 0) < code.len() {
            Progress::On(
                Process {
                    top: called(p.top, entry_from(code, k, 0), cells_of(p.top, i.args)),
                    callers: p.callers.push(p.top),
                },
            )
        } else {
            Progress::Elsewhere
        },
        Op::Ret => gone(Some(p.top.cells[i.args[0] as int])),
        Op::RetVoid => gone(None),
        _ => match step(code, p.top) {
            Run::On(t) => Progress::On(Process { top: t, callers: p.callers }),
            Run::Stopped(s) => Progress::Stopped(s),
            Run::Elsewhere => Progress::Elsewhere,
        },
    }
}

/// The process after `n` instructions.
pub open spec fn advanced(code: Seq<InstV>, p: Process, n: nat) -> Progress
    decreases n,
{
    if n == 0 {
        Progress::On(p)
    } else {
        match advance(code, p) {
            Progress::On(q) => advanced(code, q, (n - 1) as nat),
            other => other,
        }
    }
}

/// Whether the process comes from `p` to `q`.
pub open spec fn arrives(code: Seq<InstV>, p: Process, q: Process) -> bool {
    exists|n: nat| #[trigger] advanced(code, p, n) == Progress::On(q)
}

proof fn lemma_advanced(code: Seq<InstV>, p: Process, q: Process, n: nat, k: nat)
    requires
        advanced(code, p, n) == Progress::On(q),
    ensures
        advanced(code, p, n + k) == advanced(code, q, k),
    decreases n,
{
    if n > 0 {
        if let Progress::On(r) = advance(code, p) {
            lemma_advanced(code, r, q, (n - 1) as nat, k);
        }
    }
}

pub proof fn lemma_arrives(code: Seq<InstV>, p: Process, q: Process, r: Process)
    requires
        arrives(code, p, q),
        arrives(code, q, r),
    ensures
        arrives(code, p, r),
{
    let n = choose|n: nat| #[trigger] advanced(code, p, n) == Progress::On(q);
    let k = choose|k: nat| #[trigger] advanced(code, q, k) == Progress::On(r);
    lemma_advanced(code, p, q, n, k);
    assert(advanced(code, p, n + k) == Progress::On(r));
}

proof fn lemma_once(code: Seq<InstV>, p: Process, q: Process)
    requires
        advance(code, p) == Progress::On(q),
    ensures
        arrives(code, p, q),
{
    assert(advanced(code, q, 0) == Progress::On(q));
    assert(advanced(code, p, 1) == Progress::On(q));
}

proof fn lemma_run_advances(code: Seq<InstV>, m: Machine, t: Machine, callers: Seq<Machine>, n: nat)
    requires
        run(code, m, n) == Run::On(t),
    ensures
        advanced(code, Process { top: m, callers }, n) == Progress::On(Process { top: t, callers }),
    decreases n,
{
    if n > 0 {
        reveal(step);
        reveal(other_step);
        let u = step(code, m)->On_0;
        lemma_run_advances(code, u, t, callers, (n - 1) as nat);
    }
}

/// What runs within a function runs the same way in a process.
pub proof fn lemma_within_function(code: Seq<InstV>, m: Machine, t: Machine, callers: Seq<Machine>)
    requires
        reaches(code, m, t),
    ensures
        arrives(code, Process { top: m, callers }, Process { top: t, callers }),
{
    let n = choose|n: nat| #[trigger] run(code, m, n) == Run::On(t);
    lemma_run_advances(code, m, t, callers, n);
}

// ---------------------------------------------------------------------------
// Parameters
// ---------------------------------------------------------------------------

/// No two parameters have the same name and the same type.
pub open spec fn params_differ(ps: Seq<ParamV>) -> bool {
    forall|i: int, j: int|
        0 <= i < j < ps.len() ==> !((#[trigger] ps[i]).name == (#[trigger] ps[j]).name && ps[i].ty == ps[j].ty)
}

/// The start of the body of a function, when its first `n` parameters are bound.
pub open spec fn bound(o: Out, k: usize, ps: Seq<ParamV>, n: nat) -> State {
    bind_params(opened(do0(o, Op::BeginFunction(k))), ps, n)
}

proof fn lemma_absent(bs: Seq<BindingV>, name: Seq<char>, ty: Type, n: int)
    requires
        n <= bs.len(),
        forall|i: int| 0 <= i < n ==> !((#[trigger] bs[i]).name == name && bs[i].ty == ty),
    ensures
        find_binding(bs, name, ty, false, n) is None,
    decreases n,
{
    if n > 0 {
        lemma_absent(bs, name, ty, n - 1);
    }
}

proof fn lemma_present(bs: Seq<BindingV>, k: int, n: int)
    requires
        0 <= k < n <= bs.len(),
        !bs[k].literal,
        forall|i: int| k < i < n ==> !((#[trigger] bs[i]).name == bs[k].name && bs[i].ty == bs[k].ty),
    ensures
        find_binding(bs, bs[k].name, bs[k].ty, false, n) == Some(k),
    decreases n,
{
    if k < n - 1 {
        lemma_present(bs, k, n - 1);
    }
}

/// How the parameters are bound: one variable for each, in order, each at a place of its own.
proof fn lemma_bound(code: Seq<InstV>, o: Out, k: usize, ps: Seq<ParamV>, n: nat)
    requires
        params_differ(ps),
        n <= ps.len(),
        within(code, bound(o, k, ps, n).out),
    ensures
        ({
            let s = bound(o, k, ps, n);
            let b = o.code.len() as int;
            &&& within(code, o)
            &&& code[b].op == Op::BeginFunction(k)
            &&& s.out.code.len() == b + 1 + 3 * n
            &&& s.temps.len() == 0
            &&& s.scopes == seq![0nat]
            &&& s.bindings.len() == n
            &&& forall|i: int|
                0 <= i < n ==> (#[trigger] s.bindings[i]).name == ps[i].name && s.bindings[i].ty == ps[i].ty
                    && !s.bindings[i].literal && s.bindings[i].place.id == b + 2 + 3 * i
            &&& forall|i: int|
                0 <= i < n ==> code[b + 1 + 3 * i].op == Op::Param(i as usize) && code[b + 2 + 3 * i].op is Slot && code[b
                    + 3 + 3 * i].op is Store && (#[trigger] code[b + 3 + 3 * i]).args == seq![
                    (b + 2 + 3 * i) as usize,
                    (b + 1 + 3 * i) as usize,
                ]
        }),
    decreases n,
{
    let b = o.code.len() as int;
    if n == 0 {
        reveal(do0);
        lemma_emit(code, o, Op::BeginFunction(k), Seq::empty(), ""@);
    } else {
        let s = bound(o, k, ps, (n - 1) as nat);
        let p = ps[n - 1];
        let (o1, v) = give0(s.out, Op::Param((n - 1) as usize), ""@, repr_of(p.ty));
        let s1 = emitted(s, o1);
        let t = bound(o, k, ps, n);
        assert(t == declare(s1, p.name, p.ty, v));
        // The code so far is a prefix, whatever the declaration does.
        lemma_same(s.out);
        own_give0(s.out, s.out, Op::Param((n - 1) as usize), ""@, repr_of(p.ty));
        own_declare(s.out, s1, p.name, p.ty, v);
        lemma_inside(code, s.out, t.out);
        lemma_bound(code, o, k, ps, (n - 1) as nat);
        assert forall|i: int| 0 <= i < s.bindings.len() implies !((#[trigger] s.bindings[i]).name == p.name
            && s.bindings[i].ty == p.ty) by {
            assert(ps[i].name == s.bindings[i].name);
            assert(ps[n - 1] == p);
        }
        lemma_absent(s.bindings, p.name, p.ty, s.bindings.len() as int);
        assert(own_variable(s1, p.name, p.ty) is None);
        let (o2, place) = slot(o1, repr_of(p.ty), p.name);
        assert(t.out == store(o2, place, v));
        reveal(give0);
        reveal(slot);
        reveal(store);
        reveal(do2);
        lemma_emit(code, o2, Op::Store, seq![place.id, v.id], ""@);
        lemma_emit(code, o1, Op::Slot(repr_of(p.ty)), Seq::empty(), p.name);
        lemma_emit(code, s.out, Op::Param((n - 1) as usize), Seq::empty(), ""@);
    }
}

/// The place that holds parameter number `i` holds a cell.
pub open spec fn at_param(t: Machine, o: Out, i: int, c: Cell) -> bool {
    let place = o.code.len() as int + 2 + 3 * i;
    t.stored[place] == c && (c is Number ==> t.memory[place] == c->Number_0)
}

/// The first `n` parameters are bound when a function starts.
proof fn lemma_bind(code: Seq<InstV>, o: Out, k: usize, ps: Seq<ParamV>, n: nat, m: Machine) -> (t: Machine)
    requires
        params_differ(ps),
        n <= ps.len(),
        within(code, bound(o, k, ps, ps.len()).out),
        m.next == o.code.len() + 1,
        m.around.args.len() == ps.len(),
    ensures
        reaches(code, m, t),
        t.next == o.code.len() + 1 + 3 * n,
        t.around == m.around,
        forall|i: int| 0 <= i < n ==> at_param(t, o, i, #[trigger] m.around.args[i]),
    decreases n,
{
    let b = o.code.len() as int;
    lemma_bound(code, o, k, ps, ps.len());
    lemma_here(code, m);
    if n == 0 {
        m
    } else {
        let m1 = lemma_bind(code, o, k, ps, (n - 1) as nat, m);
        let i = (n - 1) as int;
        let c = m.around.args[i];
        assert(code[b + 3 + 3 * i].args == seq![(b + 2 + 3 * i) as usize, (b + 1 + 3 * i) as usize]);
        reveal(step);
        assert(step(code, m1) == given(m1, c)) by {
            reveal(other_step);
        }
        let m2 = lemma_step(code, m, m1);
        let m3 = lemma_step(code, m, m2);
        let t = lemma_step(code, m, m3);
        assert forall|j: int| 0 <= j < n implies at_param(t, o, j, #[trigger] m.around.args[j]) by {
            if j < i {
                assert(at_param(m1, o, j, m.around.args[j]));
            }
        }
        t
    }
}

/// Each parameter of a function gets the argument in its position: a call reaches the start of the body of
/// the function with every reference to a parameter reaching a place that holds the argument with the same
/// number. The caller waits as it was, and the heap and what was shown are as they were.
pub proof fn parameters_get_their_arguments(
    code: Seq<InstV>,
    sigs: Seq<SigV>,
    o: Out,
    f: FunctionV,
    k: usize,
    p: Process,
) -> (t: Machine)
    requires
        params_differ(f.params),
        lower_function(sigs, o, f) is Ok,
        within(code, lower_function(sigs, o, f)->Ok_0),
        sig_place(sigs, f.name, sigs.len() as int) == Some(k as int),
        entry_from(code, k, 0) == o.code.len(),
        code[p.top.next].op == Op::CallFunction(k),
        code[p.top.next].args.len() == f.params.len(),
    ensures
        ({
            let s = bound(o, k, f.params, f.params.len());
            &&& arrives(code, p, Process { top: t, callers: p.callers.push(p.top) })
            &&& t.next == s.out.code.len()
            &&& t.around.heap == p.top.around.heap
            &&& t.around.shown == p.top.around.shown
            &&& t.around.world == p.top.around.world
            &&& forall|i: int|
                0 <= i < f.params.len() ==> {
                    let c = p.top.cells[code[p.top.next].args[i] as int];
                    let q = #[trigger] variable(s.bindings, f.params[i].name, f.params[i].ty);
                    &&& q is Some
                    &&& t.stored[s.bindings[q->0].place.id as int] == c
                    &&& c is Number ==> t.memory[s.bindings[q->0].place.id as int] == c->Number_0
                }
        }),
{
    lemma_function_prefix(code, sigs, o, f, k);
    let b = o.code.len() as int;
    let n = f.params.len();
    lemma_bound(code, o, k, f.params, n);
    let args = cells_of(p.top, code[p.top.next].args);
    let m = called(p.top, b, args);
    lemma_once(code, p, Process { top: m, callers: p.callers.push(p.top) });
    let t = lemma_bind(code, o, k, f.params, n, m);
    lemma_within_function(code, m, t, p.callers.push(p.top));
    lemma_arrives(
        code,
        p,
        Process { top: m, callers: p.callers.push(p.top) },
        Process { top: t, callers: p.callers.push(p.top) },
    );
    let s = bound(o, k, f.params, n);
    assert forall|i: int| 0 <= i < f.params.len() implies ({
        let c = p.top.cells[code[p.top.next].args[i] as int];
        let q = #[trigger] variable(s.bindings, f.params[i].name, f.params[i].ty);
        &&& q is Some
        &&& t.stored[s.bindings[q->0].place.id as int] == c
        &&& c is Number ==> t.memory[s.bindings[q->0].place.id as int] == c->Number_0
    }) by {
        assert(s.bindings[i].name == f.params[i].name);
        assert forall|j: int| i < j < s.bindings.len() implies !((#[trigger] s.bindings[j]).name == s.bindings[i].name
            && s.bindings[j].ty == s.bindings[i].ty) by {
            assert(f.params[j].name == s.bindings[j].name);
            assert(f.params[i].name == s.bindings[i].name);
        }
        lemma_present(s.bindings, i, s.bindings.len() as int);
        assert(at_param(t, o, i, m.around.args[i]));
    }
    t
}

/// The code up to the body of a function is part of the program.
proof fn lemma_function_prefix(code: Seq<InstV>, sigs: Seq<SigV>, o: Out, f: FunctionV, k: usize)
    requires
        lower_function(sigs, o, f) is Ok,
        within(code, lower_function(sigs, o, f)->Ok_0),
        sig_place(sigs, f.name, sigs.len() as int) == Some(k as int),
    ensures
        within(code, bound(o, k, f.params, f.params.len()).out),
        grows(bound(o, k, f.params, f.params.len()).out, lower_function(sigs, o, f)->Ok_0),
{
    reveal(lower_function);
    let s = bound(o, k, f.params, f.params.len());
    let frame = Frame { sigs, return_type: f.return_type, in_entry: false };
    lemma_same(s.out);
    own_lower_block(s.out, frame, s, f.body);
    let u = lower_block(frame, s, f.body)->Ok_0;
    own_ends(s.out, u, !u.out.ended);
    own_default_return(s.out, pop_scope(u, !u.out.ended).out, f.return_type);
    lemma_inside(code, s.out, lower_function(sigs, o, f)->Ok_0);
}

// ---------------------------------------------------------------------------
// Where functions start
// ---------------------------------------------------------------------------

/// No two functions have the same name.
pub open spec fn names_differ(fs: Seq<FunctionV>) -> bool {
    forall|i: int, j: int| 0 <= i < j < fs.len() ==> (#[trigger] fs[i]).name != (#[trigger] fs[j]).name
}

proof fn lemma_sig_place(fs: Seq<FunctionV>, k: int, n: int)
    requires
        names_differ(fs),
        0 <= k < n <= fs.len(),
    ensures
        sig_place(sigs_of(fs), fs[k].name, n) == Some(k),
    decreases n,
{
    if k < n - 1 {
        lemma_sig_place(fs, k, n - 1);
    }
}

proof fn lemma_params_grow(b: Out, s: State, ps: Seq<ParamV>, n: nat)
    requires
        grows(b, s.out),
    ensures
        grows(b, bind_params(s, ps, n).out),
    decreases n,
{
    if 0 < n <= ps.len() {
        lemma_params_grow(b, s, ps, (n - 1) as nat);
        let t = bind_params(s, ps, (n - 1) as nat);
        let (o, v) = give0(t.out, Op::Param((n - 1) as usize), ""@, repr_of(ps[n - 1].ty));
        own_give0(b, t.out, Op::Param((n - 1) as usize), ""@, repr_of(ps[n - 1].ty));
        own_declare(b, emitted(t, o), ps[n - 1].name, ps[n - 1].ty, v);
    }
}

/// The code of a function: its start, and then code that starts no other one.
proof fn lemma_function_code(code: Seq<InstV>, sigs: Seq<SigV>, o: Out, f: FunctionV, k: usize)
    requires
        lower_function(sigs, o, f) is Ok,
        within(code, lower_function(sigs, o, f)->Ok_0),
        sig_place(sigs, f.name, sigs.len() as int) == Some(k as int),
    ensures
        within(code, o),
        o.code.len() < lower_function(sigs, o, f)->Ok_0.code.len(),
        code[o.code.len() as int].op == Op::BeginFunction(k),
        forall|j: int|
            o.code.len() < j < lower_function(sigs, o, f)->Ok_0.code.len() ==> !begins((#[trigger] code[j]).op),
{
    reveal(lower_function);
    let end = lower_function(sigs, o, f)->Ok_0;
    let o1 = do0(o, Op::BeginFunction(k));
    let s = bound(o, k, f.params, f.params.len());
    let frame = Frame { sigs, return_type: f.return_type, in_entry: false };
    lemma_same(o1);
    lemma_params_grow(o1, opened(o1), f.params, f.params.len());
    own_lower_block(o1, frame, s, f.body);
    let u = lower_block(frame, s, f.body)->Ok_0;
    own_ends(o1, u, !u.out.ended);
    own_default_return(o1, pop_scope(u, !u.out.ended).out, f.return_type);
    assert(grows(o1, end));
    lemma_inside(code, o1, end);
    reveal(do0);
    lemma_emit(code, o, Op::BeginFunction(k), Seq::empty(), ""@);
    assert forall|j: int| o.code.len() < j < end.code.len() implies !begins((#[trigger] code[j]).op) by {
        reveal(grows);
        assert(end.code[j] == code[j]);
    }
}

proof fn lemma_starts(code: Seq<InstV>, fs: Seq<FunctionV>, o: Out, n: nat)
    requires
        names_differ(fs),
        fs.len() <= usize::MAX,
        n <= fs.len(),
        lower_functions(sigs_of(fs), o, fs, n) is Ok,
        within(code, lower_functions(sigs_of(fs), o, fs, n)->Ok_0),
    ensures
        within(code, o),
        o.code.len() <= lower_functions(sigs_of(fs), o, fs, n)->Ok_0.code.len(),
        forall|j: int|
            o.code.len() <= j < lower_functions(sigs_of(fs), o, fs, n)->Ok_0.code.len() && begins((#[trigger] code[j]).op)
                ==> code[j].op is BeginFunction && code[j].op->BeginFunction_0 < n,
    decreases n,
{
    if n > 0 {
        let sigs = sigs_of(fs);
        let o1 = lower_functions(sigs, o, fs, (n - 1) as nat)->Ok_0;
        lemma_sig_place(fs, n - 1, fs.len() as int);
        lemma_function_code(code, sigs, o1, fs[n - 1], (n - 1) as usize);
        lemma_starts(code, fs, o, (n - 1) as nat);
    }
}

proof fn lemma_entry_from(code: Seq<InstV>, k: usize, i: int, j: int)
    requires
        0 <= i <= j < code.len(),
        code[j].op == Op::BeginFunction(k),
        forall|x: int| i <= x < j ==> (#[trigger] code[x]).op != Op::BeginFunction(k),
    ensures
        entry_from(code, k, i) == j,
    decreases j - i,
{
    if i < j {
        lemma_entry_from(code, k, i + 1, j);
    }
}

/// A call reaches the function that it names: in a program whose functions have different names, the body
/// that a call of a function starts is the one that was made from it.
pub proof fn calls_reach_their_function(code: Seq<InstV>, p: ProgramV, k: usize)
    requires
        names_differ(p.functions),
        p.functions.len() <= usize::MAX,
        k < p.functions.len(),
        lower_program(Out { code: Seq::empty(), ended: false }, p) is Ok,
        within(code, lower_program(Out { code: Seq::empty(), ended: false }, p)->Ok_0),
    ensures
        ({
            let o = Out { code: Seq::empty(), ended: false };
            let sigs = sigs_of(p.functions);
            let f = p.functions[k as int];
            let start = lower_functions(sigs, o, p.functions, k as nat)->Ok_0;
            &&& sig_place(sigs, f.name, sigs.len() as int) == Some(k as int)
            &&& lower_function(sigs, start, f) is Ok
            &&& within(code, lower_function(sigs, start, f)->Ok_0)
            &&& entry_from(code, k, 0) == start.code.len()
        }),
{
    let o = Out { code: Seq::empty(), ended: false };
    let sigs = sigs_of(p.functions);
    let fs = p.functions;
    let all = lower_functions(sigs, o, fs, fs.len())->Ok_0;
    assert(within(code, all)) by {
        reveal(lower_entry);
        let o1 = do0(all, Op::BeginMain);
        let frame = Frame { sigs, return_type: Type::Void, in_entry: true };
        lemma_same(o1);
        own_lower_block(o1, frame, opened(o1), p.entry);
        let u = lower_block(frame, opened(o1), p.entry)->Ok_0;
        let (o2, zero) = const_int(u.out, 32, 0);
        own_const_int(o1, u.out, 32, 0);
        own_do1(o1, o2, Op::Ret, zero);
        lemma_inside(code, o1, lower_program(o, p)->Ok_0);
        reveal(do0);
        lemma_emit(code, all, Op::BeginMain, Seq::empty(), ""@);
    }
    lemma_upto(code, fs, o, k as nat + 1, fs.len());
    lemma_sig_place(fs, k as int, fs.len() as int);
    let start = lower_functions(sigs, o, fs, k as nat)->Ok_0;
    lemma_function_code(code, sigs, start, fs[k as int], k);
    lemma_starts(code, fs, o, k as nat);
    lemma_entry_from(code, k, 0, start.code.len() as int);
}

/// The code of the first functions is part of the program too.
proof fn lemma_upto(code: Seq<InstV>, fs: Seq<FunctionV>, o: Out, i: nat, n: nat)
    requires
        names_differ(fs),
        fs.len() <= usize::MAX,
        i <= n <= fs.len(),
        lower_functions(sigs_of(fs), o, fs, n) is Ok,
        within(code, lower_functions(sigs_of(fs), o, fs, n)->Ok_0),
    ensures
        lower_functions(sigs_of(fs), o, fs, i) is Ok,
        within(code, lower_functions(sigs_of(fs), o, fs, i)->Ok_0),
    decreases n,
{
    if i < n {
        let sigs = sigs_of(fs);
        lemma_sig_place(fs, n - 1, fs.len() as int);
        lemma_function_code(
            code,
            sigs,
            lower_functions(sigs, o, fs, (n - 1) as nat)->Ok_0,
            fs[n - 1],
            (n - 1) as usize,
        );
        lemma_upto(code, fs, o, i, (n - 1) as nat);
    }
}

// ---------------------------------------------------------------------------
// Arguments and results
// ---------------------------------------------------------------------------

/// The arguments are computed in order, each at the type of its parameter: the value with number `i` is
/// that of the argument with number `i`. What was computed, stored and shown before stays as it was.
pub proof fn arguments_are_computed_in_order(
    code: Seq<InstV>,
    sc: Scope,
    w: Work,
    args: Seq<ExprV>,
    params: Seq<Type>,
    n: nat,
    m: Machine,
) -> (t: Machine)
    requires
        n <= args.len(),
        args.len() == params.len(),
        forall|i: int| 0 <= i < params.len() ==> is_plain(#[trigger] params[i]),
        lower_args(sc, w, args, params, n) is Ok,
        within(code, lower_args(sc, w, args, params, n)->Ok_0.0.out),
        m.next == w.out.code.len(),
        places_before(sc, w.out.code.len() as int),
        forall|i: int| 0 <= i < n ==> eval_for(sc, m, #[trigger] args[i], params[i]) is Got,
    ensures
        ({
            let (w1, vs) = lower_args(sc, w, args, params, n)->Ok_0;
            &&& reaches(code, m, t)
            &&& t.next == w1.out.code.len()
            &&& w1.temps == w.temps
            &&& w.out.code.len() <= w1.out.code.len()
            &&& same_before(m, t, w.out.code.len() as int)
            &&& vs.len() == n
            &&& forall|i: int|
                0 <= i < n ==> represents(t, #[trigger] vs[i], eval_for(sc, m, args[i], params[i])->Got_0) && vs[i].id
                    < w1.out.code.len()
        }),
    decreases n,
{
    lemma_here(code, m);
    if n == 0 {
        m
    } else {
        let (w1, vs) = lower_args(sc, w, args, params, (n - 1) as nat)->Ok_0;
        let (w2, v) = lower_for(sc, w1, args[n - 1], params[n - 1])->Ok_0;
        lemma_same(w1.out);
        own_for(w1.out, sc, w1, args[n - 1], params[n - 1]);
        lemma_inside(code, w1.out, w2.out);
        let m1 = arguments_are_computed_in_order(code, sc, w, args, params, (n - 1) as nat, m);
        assert(is_plain(params[n - 1]));
        lemma_eval_for_same(sc, m, m1, args[n - 1], params[n - 1], w.out.code.len() as int);
        let t = stored_expressions_compute(code, sc, w1, args[n - 1], params[n - 1], m1);
        assert(eval_for(sc, m, args[n - 1], params[n - 1]) is Got);
        lemma_then(code, m, m1, t);
        let all = vs.push(v);
        assert forall|i: int| 0 <= i < n implies represents(
            t,
            #[trigger] all[i],
            eval_for(sc, m, args[i], params[i])->Got_0,
        ) && all[i].id < w2.out.code.len() by {
            if i < n - 1 {
                assert(all[i] == vs[i]);
                assert(t.cells[vs[i].id as int] == m1.cells[vs[i].id as int]);
            }
        }
        t
    }
}

proof fn lemma_nothing_to_free(o: Out, bs: Seq<BindingV>, from: int, n: int)
    requires
        forall|i: int| 0 <= i < bs.len() ==> !owned((#[trigger] bs[i]).ty),
    ensures
        free_bindings(o, bs, from, n) == o,
    decreases n - from,
{
    if from < n && 0 < n <= bs.len() {
        reveal(free_slot);
        lemma_nothing_to_free(o, bs, from, n - 1);
    }
}

/// A `return` gives the value of its expression at the type that the function returns: the run comes to the
/// end of the function with that value, if the function has nothing to free.
pub proof fn returns_give_their_value(code: Seq<InstV>, f: Frame, s: State, e: ExprV, m: Machine) -> (t: Machine)
    requires
        is_plain(f.return_type),
        s.temps.len() == 0,
        forall|i: int| 0 <= i < s.bindings.len() ==> !owned((#[trigger] s.bindings[i]).ty),
        lower_return(f, s, Some(e)) is Ok,
        within(code, lower_return(f, s, Some(e))->Ok_0.out),
        m.next == s.out.code.len(),
        places_before(scope(f, s), s.out.code.len() as int),
        eval_for(scope(f, s), m, e, f.return_type) is Got,
    ensures
        reaches(code, m, t),
        t.around == m.around,
        code[t.next].op is Ret,
        code[t.next].args.len() == 1,
        represents(
            t,
            Value { id: code[t.next].args[0], repr: repr_of(f.return_type) },
            eval_for(scope(f, s), m, e, f.return_type)->Got_0,
        ),
{
    let sc = scope(f, s);
    let (w, v) = lower_for(sc, work(s), e, f.return_type)->Ok_0;
    let o1 = free_temps(w.out, w.temps, w.temps.len());
    let o2 = free_bindings(o1, s.bindings, 0, s.bindings.len() as int);
    lemma_nothing_to_free(o1, s.bindings, 0, s.bindings.len() as int);
    lemma_same(w.out);
    own_free_temps(w.out, w.out, w.temps, w.temps.len());
    own_do1(w.out, o2, Op::Ret, v);
    lemma_inside(code, w.out, do1(o2, Op::Ret, v));
    let t = stored_expressions_compute(code, sc, work(s), e, f.return_type, m);
    assert(w.temps.len() == 0);
    assert(o2 == w.out);
    reveal(do1);
    lemma_emit(code, w.out, Op::Ret, seq![v.id], ""@);
    t
}

/// A call of a function that returns the value of an expression gives that value: the parameters have the
/// values of the arguments when the expression is computed, the caller goes on behind the call with what it
/// gave, and the variables of the caller, the heap and what was shown are as they were.
pub proof fn calls_give_what_is_returned(
    code: Seq<InstV>,
    sc: Scope,
    w: Work,
    args: Seq<ExprV>,
    o: Out,
    f: FunctionV,
    e: ExprV,
    k: usize,
    m: Machine,
    callers: Seq<Machine>,
) -> (r: (Machine, Machine))
    requires
        f.body == seq![StmtV::Return(Some(e))],
        params_differ(f.params),
        is_plain(f.return_type),
        forall|i: int| 0 <= i < f.params.len() ==> is_plain((#[trigger] f.params[i]).ty),
        sig_place(sc.sigs, f.name, sc.sigs.len() as int) == Some(k as int),
        sc.sigs[k as int] == sig_of(f),
        lower_function(sc.sigs, o, f) is Ok,
        within(code, lower_function(sc.sigs, o, f)->Ok_0),
        entry_from(code, k, 0) == o.code.len(),
        lower_call(sc, w, f.name, args) is Ok,
        within(code, lower_call(sc, w, f.name, args)->Ok_0.0.out),
        m.next == w.out.code.len(),
        places_before(sc, w.out.code.len() as int),
        forall|i: int| 0 <= i < args.len() ==> eval_for(sc, m, #[trigger] args[i], sig_of(f).params[i]) is Got,
    ensures
        ({
            let (inside, t) = r;
            let s = bound(o, k, f.params, f.params.len());
            let frame = Frame { sigs: sc.sigs, return_type: f.return_type, in_entry: false };
            let (end, v) = lower_call(sc, w, f.name, args)->Ok_0;
            &&& inside.around.world == m.around.world
            &&& forall|i: int|
                0 <= i < f.params.len() ==> #[trigger] read_var(
                    scope(frame, s),
                    inside,
                    f.params[i].name,
                    f.params[i].ty,
                ) == eval_for(sc, m, args[i], f.params[i].ty)
            &&& eval_for(scope(frame, s), inside, e, f.return_type) matches Outcome::Got(x) ==> {
                &&& arrives(code, Process { top: m, callers }, Process { top: t, callers })
                &&& t.next == end.out.code.len()
                &&& represents(t, v, x)
                &&& same_before(m, t, w.out.code.len() as int)
            }
        }),
{
    let sig = sig_of(f);
    let (w1, vs) = lower_args(sc, w, args, sig.params, args.len())->Ok_0;
    let (o9, v9) = call_function(w1.out, k, vs, repr_of(sig.return_type));
    assert(lower_call(sc, w, f.name, args)->Ok_0.0.out == o9);
    assert(v9 == lower_call(sc, w, f.name, args)->Ok_0.1);
    reveal(call_function);
    lemma_emit(code, w1.out, Op::CallFunction(k), ids(vs), ""@);
    assert forall|i: int| 0 <= i < sig.params.len() implies is_plain(#[trigger] sig.params[i]) by {
        assert(is_plain(f.params[i].ty));
    }
    let m1 = arguments_are_computed_in_order(code, sc, w, args, sig.params, args.len(), m);
    let p = Process { top: m1, callers };
    let inside = parameters_get_their_arguments(code, sc.sigs, o, f, k, p);
    lemma_function_prefix(code, sc.sigs, o, f, k);
    lemma_bound(code, o, k, f.params, f.params.len());
    let s = bound(o, k, f.params, f.params.len());
    let frame = Frame { sigs: sc.sigs, return_type: f.return_type, in_entry: false };
    assert forall|i: int| 0 <= i < f.params.len() implies #[trigger] read_var(
        scope(frame, s),
        inside,
        f.params[i].name,
        f.params[i].ty,
    ) == eval_for(sc, m, args[i], f.params[i].ty) by {
        let x = eval_for(sc, m, args[i], sig.params[i])->Got_0;
        assert(eval_for(sc, m, args[i], sig.params[i]) is Got);
        assert(represents(m1, vs[i], x));
        assert(code[m1.next].args[i] == vs[i].id);
        assert(variable(s.bindings, f.params[i].name, f.params[i].ty) is Some);
        assert(is_plain(f.params[i].ty));
        lemma_converted_type(sc, m, args[i], f.params[i].ty);
    }
    lemma_within_function(code, m, m1, callers);
    if let Outcome::Got(x) = eval_for(scope(frame, s), inside, e, f.return_type) {
        lemma_body(code, sc.sigs, o, f, e, k);
        let s1 = push_scope(s);
        assert forall|i: int| 0 <= i < s1.bindings.len() implies !owned((#[trigger] s1.bindings[i]).ty) by {
            assert(s.bindings[i].ty == f.params[i].ty);
            assert(is_plain(f.params[i].ty));
        }
        assert(places_before(scope(frame, s1), s1.out.code.len() as int)) by {
            assert forall|i: int| 0 <= i < s.bindings.len() implies (#[trigger] s.bindings[i]).place.id < s.out.code.len() by {
                assert(s.bindings[i].place.id == o.code.len() + 2 + 3 * i);
            }
        }
        assert(scope(frame, s1) == scope(frame, s));
        let u = returns_give_their_value(code, frame, s1, e, inside);
        let waiting = callers.push(m1);
        lemma_within_function(code, inside, u, waiting);
        let back = Process { top: u, callers: waiting };
        let c = u.cells[code[u.next].args[0] as int];
        let t = returned(m1, u, Some(c));
        assert(waiting.drop_last() =~= callers);
        assert(waiting.last() == m1);
        lemma_once(code, back, Process { top: t, callers });
        let at_body = Process { top: inside, callers: waiting };
        lemma_arrives(code, Process { top: m, callers }, p, at_body);
        lemma_arrives(code, Process { top: m, callers }, at_body, back);
        lemma_arrives(code, Process { top: m, callers }, back, Process { top: t, callers });
        assert(t.around == m.around);
        (inside, t)
    } else {
        (inside, m)
    }
}

/// The body of a function that only returns the value of an expression.
proof fn lemma_body(code: Seq<InstV>, sigs: Seq<SigV>, o: Out, f: FunctionV, e: ExprV, k: usize)
    requires
        f.body == seq![StmtV::Return(Some(e))],
        forall|i: int| 0 <= i < f.params.len() ==> is_plain((#[trigger] f.params[i]).ty),
        sig_place(sigs, f.name, sigs.len() as int) == Some(k as int),
        lower_function(sigs, o, f) is Ok,
        within(code, lower_function(sigs, o, f)->Ok_0),
    ensures
        ({
            let s = push_scope(bound(o, k, f.params, f.params.len()));
            let frame = Frame { sigs, return_type: f.return_type, in_entry: false };
            &&& lower_return(frame, s, Some(e)) is Ok
            &&& within(code, lower_return(frame, s, Some(e))->Ok_0.out)
        }),
{
    reveal(lower_function);
    let b = bound(o, k, f.params, f.params.len());
    let s = push_scope(b);
    let frame = Frame { sigs, return_type: f.return_type, in_entry: false };
    assert(lower_stmts(frame, s, f.body, 0) == Ok::<State, Seq<char>>(s));
    lemma_not_ended(o, k, f.params, f.params.len());
    assert(!s.out.ended);
    assert(lower_stmts(frame, s, f.body, 1) == lower_stmt(frame, s, f.body[0]));
    assert(lower_return(frame, s, Some(e)) is Ok);
    let u = lower_return(frame, s, Some(e))->Ok_0;
    let u1 = finish(u);
    lemma_same(u.out);
    own_ends(u.out, u, true);
    own_ends(u.out, u1, !u1.out.ended);
    let u2 = pop_scope(u1, !u1.out.ended);
    own_ends(u.out, u2, !u2.out.ended);
    own_default_return(u.out, pop_scope(u2, !u2.out.ended).out, f.return_type);
    lemma_inside(code, u.out, lower_function(sigs, o, f)->Ok_0);
}

proof fn lemma_declare_open(s: State, name: Seq<char>, ty: Type, v: Value)
    requires
        !s.out.ended,
        !owned(ty),
    ensures
        !declare(s, name, ty, v).out.ended,
{
    reveal(free_slot);
    reveal(slot);
    reveal(store);
    reveal(give0);
    reveal(do2);
    reveal(emit);
}

proof fn lemma_not_ended(o: Out, k: usize, ps: Seq<ParamV>, n: nat)
    requires
        forall|i: int| 0 <= i < ps.len() ==> is_plain((#[trigger] ps[i]).ty),
    ensures
        !bound(o, k, ps, n).out.ended,
    decreases n,
{
    reveal(do0);
    reveal(emit);
    if 0 < n <= ps.len() {
        lemma_not_ended(o, k, ps, (n - 1) as nat);
        let t = bound(o, k, ps, (n - 1) as nat);
        let p = ps[n - 1];
        assert(is_plain(p.ty));
        let (o1, v) = give0(t.out, Op::Param((n - 1) as usize), ""@, repr_of(p.ty));
        reveal(give0);
        lemma_declare_open(emitted(t, o1), p.name, p.ty, v);
    }
}

} // verus!
