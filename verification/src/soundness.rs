//! What the type checker accepts can be lowered: statements and programs.

use vstd::prelude::*;
use crate::accepted::{agree, lemma_call, lemma_expr, lemma_for, wf_sig, wf_sigs};
use crate::ast::{element_as_type, ExprV, FunctionV, ParamV, ProgramV, SegmentV, StmtV, Type};
use crate::emit::{
    at, block, branch, call0, coerce_float, const_float, const_str, do0, jump, load, unwrap, Out,
};
use crate::ir::{Op, Repr, Rt, Value};
use crate::layout::{
    assign_element, bind_params, block_sites, declare, done, emitted, finish, hoist_all, lower_action,
    lower_append, lower_arm, lower_block, lower_condition, lower_entry, lower_function, lower_functions, lower_if,
    lower_path, lower_print, lower_program, lower_stmt, lower_stmts, lower_while, opened, own_variable,
    print_pieces, push_scope, read_input, scope, sites, work, Frame, SiteV, State,
};
use crate::lower::{
    element_place, find_binding, lower_expr, lower_for, sig_place, variable, with_out, BindingV, Scope, Work,
};
use crate::scoping::{
    in_block, lemma_action_keeps, lemma_block_keeps, lemma_find_binding, lemma_hoist_keeps, lemma_stmts_keeps,
};
use crate::shapes::{lemma_constants, lemma_to_bigint, lemma_to_bignum, lemma_value_fmt};
use crate::typing::{
    append_problems, can_coerce, check, check_for, check_stmt, check_stmts, condition_problems, declare_params,
    element_assign_problems, function_problems, functions_problems, index_problems, optional_path_problems,
    param_types, path_problems, program_problems, segments_problems, sig_of, sigs_of, var_problems, SigV, Visible,
};
use crate::wellformed::{
    wf_block, wf_expr, wf_expr_opt, wf_function, wf_functions, wf_params, wf_program, wf_segments, wf_stmt,
    wf_type,
};

verus! {

// ---------------------------------------------------------------------------
// Variables
// ---------------------------------------------------------------------------

proof fn lemma_find_prefix(bs: Seq<BindingV>, more: Seq<BindingV>, name: Seq<char>, ty: Type, literal: bool, n: int)
    requires
        bs.len() <= more.len(),
        more.take(bs.len() as int) == bs,
        n <= bs.len(),
    ensures
        find_binding(more, name, ty, literal, n) == find_binding(bs, name, ty, literal, n),
    decreases n,
{
    if 0 < n {
        assert(more[n - 1] == more.take(bs.len() as int)[n - 1]);
        lemma_find_prefix(bs, more, name, ty, literal, n - 1);
    }
}

/// A variable that was found is found when more bindings follow.
proof fn lemma_find_more(bs: Seq<BindingV>, more: Seq<BindingV>, name: Seq<char>, ty: Type, n: int)
    requires
        bs.len() <= n <= more.len(),
        more.take(bs.len() as int) == bs,
        variable(bs, name, ty) is Some,
    ensures
        find_binding(more, name, ty, false, n) is Some,
    decreases n,
{
    if n == bs.len() {
        lemma_find_prefix(bs, more, name, ty, false, n);
    } else {
        lemma_find_more(bs, more, name, ty, n - 1);
    }
}

proof fn lemma_find_update(bs: Seq<BindingV>, k: int, b: BindingV, name: Seq<char>, ty: Type, literal: bool, n: int)
    requires
        0 <= k < bs.len(),
        b.name == bs[k].name,
        b.ty == bs[k].ty,
        b.literal == bs[k].literal,
    ensures
        find_binding(bs.update(k, b), name, ty, literal, n) == find_binding(bs, name, ty, literal, n),
    decreases n,
{
    if 0 < n <= bs.len() {
        lemma_find_update(bs, k, b, name, ty, literal, n - 1);
    }
}

proof fn lemma_declare_agree(at: Visible, f: Frame, s: State, name: Seq<char>, ty: Type, v: Value)
    requires
        agree(at, scope(f, s)),
        wf_type(ty),
    ensures
        agree(
            Visible { sigs: at.sigs, vars: crate::typing::declare(at.vars, name, ty) },
            scope(f, declare(s, name, ty, v)),
        ),
{
    let t = declare(s, name, ty, v);
    let vars = crate::typing::declare(at.vars, name, ty);
    let bs = s.bindings;
    lemma_find_binding(bs, name, ty, false, bs.len() as int);
    assert forall|i: int| 0 <= i < vars.len() implies wf_type((#[trigger] vars[i]).ty) && variable(
        t.bindings,
        vars[i].name,
        vars[i].ty,
    ) is Some by {
        match own_variable(s, name, ty) {
            Some(k) => {
                let b = t.bindings[k];
                assert(t.bindings == bs.update(k, b));
                lemma_find_update(bs, k, b, vars[i].name, vars[i].ty, false, bs.len() as int);
                if i < at.vars.len() {
                    assert(vars[i] == at.vars[i]);
                } else {
                    assert(variable(bs, name, ty) is Some);
                }
            },
            None => {
                assert(t.bindings.take(bs.len() as int) =~= bs);
                if i < at.vars.len() {
                    assert(vars[i] == at.vars[i]);
                    lemma_find_more(bs, t.bindings, vars[i].name, vars[i].ty, t.bindings.len() as int);
                } else {
                    assert(t.bindings.last().name == name);
                }
            },
        }
    }
}

proof fn lemma_more_agree(at: Visible, sc: Scope, more: Scope)
    requires
        agree(at, sc),
        more.sigs == sc.sigs,
        sc.bindings.len() <= more.bindings.len(),
        more.bindings.take(sc.bindings.len() as int) == sc.bindings,
    ensures
        agree(at, more),
{
    assert forall|i: int| 0 <= i < at.vars.len() implies wf_type((#[trigger] at.vars[i]).ty) && variable(
        more.bindings,
        at.vars[i].name,
        at.vars[i].ty,
    ) is Some by {
        lemma_find_more(sc.bindings, more.bindings, at.vars[i].name, at.vars[i].ty, more.bindings.len() as int);
    }
}

// ---------------------------------------------------------------------------
// Parts of statements
// ---------------------------------------------------------------------------

proof fn lemma_path(at: Visible, sc: Scope, w: Work, e: ExprV, what: Seq<char>)
    requires
        agree(at, sc),
        wf_expr(e),
        path_problems(at, e, what).len() == 0,
    ensures
        lower_path(sc, w, e) is Ok,
{
    lemma_expr(at, sc, w, e);
}

proof fn lemma_condition(at: Visible, f: Frame, s: State, cond: ExprV)
    requires
        agree(at, scope(f, s)),
        wf_expr(cond),
        condition_problems(at, cond).len() == 0,
    ensures
        lower_condition(f, s, cond) matches Ok(r) && r.0.bindings == s.bindings && r.0.scopes == s.scopes,
{
    lemma_expr(at, scope(f, s), work(s), cond);
}

proof fn lemma_hoist_all(s: State, list: Seq<SiteV>, n: nat)
    ensures
        hoist_all(s, list, n) is Ok,
    decreases n,
{
    if 0 < n <= list.len() {
        lemma_hoist_all(s, list, (n - 1) as nat);
        let t = hoist_all(s, list, (n - 1) as nat)->Ok_0;
        let site = list[n - 1];
        lemma_constants(t.out, site.text, 1, 0);
        match site.ty {
            Type::BigNum(p) => {
                let (o, c) = const_float(t.out, site.text);
                lemma_to_bignum(o, c, p);
            },
            _ => {
                let (o, c) = const_str(t.out, site.text);
                lemma_to_bigint(o, c);
            },
        }
    }
}

proof fn lemma_segments(at: Visible, sc: Scope, w: Work, segments: Seq<SegmentV>, n: nat)
    requires
        agree(at, sc),
        wf_segments(segments),
        n <= segments.len(),
        segments_problems(at, segments, n).len() == 0,
    ensures
        print_pieces(sc, w, segments, n) is Ok,
    decreases n,
{
    if n > 0 {
        lemma_segments(at, sc, w, segments, (n - 1) as nat);
        let (w1, p) = print_pieces(sc, w, segments, (n - 1) as nat)->Ok_0;
        let segment = segments[n - 1];
        if let SegmentV::Expr(e) = segment {
            lemma_expr(at, sc, w1, e);
            let (w2, v) = lower_expr(sc, w1, e)->Ok_0;
            lemma_value_fmt(w2.out, v);
        }
    }
}

proof fn lemma_print(at: Visible, sc: Scope, w: Work, segments: Seq<SegmentV>, dest: Option<ExprV>, what: Seq<char>)
    requires
        agree(at, sc),
        wf_segments(segments),
        wf_expr_opt(dest),
        segments_problems(at, segments, segments.len()).len() == 0,
        optional_path_problems(at, dest, what).len() == 0,
    ensures
        lower_print(sc, w, segments, dest) is Ok,
{
    lemma_segments(at, sc, w, segments, segments.len());
    let (w1, p) = print_pieces(sc, w, segments, segments.len())->Ok_0;
    let (o, format) = const_str(w1.out, p.format.push('\n'));
    if let Some(e) = dest {
        lemma_path(at, sc, with_out(w1, o), e, what);
    }
}

proof fn lemma_element_assign(at: Visible, sc: Scope, w: Work, name: Seq<char>, ty: Type, index: ExprV, value: ExprV)
    requires
        agree(at, sc),
        wf_type(ty),
        wf_expr(index),
        wf_expr(value),
        element_assign_problems(at, name, ty, index, value).len() == 0,
    ensures
        assign_element(sc, w, name, ty, index, value) is Ok,
{
    reveal(var_problems);
    reveal(index_problems);
    if let Type::Array(element) = ty {
        let i = choose|i: int| 0 <= i < at.vars.len() && (#[trigger] at.vars[i]).name == name && at.vars[i].ty == ty;
        assert(at.vars[i].name == name);
        let k = variable(sc.bindings, name, ty)->0;
        let (o, a) = load(w.out, Repr::Handle, sc.bindings[k].place);
        let (o, h) = unwrap(o, a);
        let w0 = with_out(w, o);
        assert(check(at, index).1.len() == 0 && index_problems(check(at, index).0).len() == 0);
        lemma_expr(at, sc, w0, index);
        let (w1, x) = lower_expr(sc, w0, index)->Ok_0;
        assert(x.repr is Float);
        let (o1, p) = element_place(w1.out, h, x)->Ok_0;
        let target = element_as_type(element);
        assert(check_for(at, value, target).1.len() == 0);
        lemma_for(at, sc, with_out(w1, o1), value, target);
        assert(can_coerce(check_for(at, value, target).0->0, target));
    }
}

proof fn lemma_append(at: Visible, sc: Scope, w: Work, array: ExprV, value: ExprV)
    requires
        agree(at, sc),
        wf_expr(array),
        wf_expr(value),
        append_problems(at, array, value).len() == 0,
    ensures
        lower_append(sc, w, array, value) is Ok,
{
    reveal(var_problems);
    lemma_expr(at, sc, w, array);
    if let ExprV::Var(name, ty) = array {
        let i = choose|i: int| 0 <= i < at.vars.len() && (#[trigger] at.vars[i]).name == name && at.vars[i].ty == ty;
        assert(at.vars[i].name == name);
        assert(ty is Array);
        let element = ty->Array_0;
        let k = variable(sc.bindings, name, ty)->0;
        let (o, a) = load(w.out, Repr::Handle, sc.bindings[k].place);
        let (o, h) = unwrap(o, a);
        lemma_for(at, sc, with_out(w, o), value, element_as_type(element));
    }
}

// ---------------------------------------------------------------------------
// Statements
// ---------------------------------------------------------------------------

/// A statement without problems can be lowered, and afterwards the lowering knows every variable
/// that the checker knows.
proof fn lemma_action(at: Visible, f: Frame, s: State, stmt: StmtV)
    requires
        agree(at, scope(f, s)),
        in_block(s),
        wf_stmt(stmt),
        f.return_type is Void || wf_type(f.return_type),
        check_stmt(at, f.return_type, stmt).1.len() == 0,
    ensures
        lower_action(f, s, stmt) matches Ok(t) && agree(
            Visible { sigs: at.sigs, vars: check_stmt(at, f.return_type, stmt).0 },
            scope(f, t),
        ),
    decreases stmt, 1nat, 0nat,
{
    let sc = scope(f, s);
    let w = work(s);
    let ret = f.return_type;
    match stmt {
        StmtV::VarDecl(name, ty, e) => {
            lemma_for(at, sc, w, e, ty);
            let (w1, v) = lower_for(sc, w, e, ty)->Ok_0;
            lemma_declare_agree(at, f, done(s, w1), name, ty, v);
        },
        StmtV::Input(name, ty, source) => {
            if let Some(e) = source {
                lemma_path(at, sc, w, e, "[from*...*]"@);
            }
            let (w1, v) = read_input(sc, w, ty, source)->Ok_0;
            lemma_declare_agree(at, f, done(s, w1), name, ty, v);
        },
        StmtV::Clock(name, ty) => {
            let width = ty->Num_0;
            let (o, n) = call0(s.out, Rt::ClockElapsed);
            let (o, v) = coerce_float(o, n, width);
            lemma_declare_agree(at, f, emitted(s, o), name, ty, v);
        },
        StmtV::Assign(name, ty, e) => {
            lemma_for(at, sc, w, e, ty);
            let i = choose|i: int| 0 <= i < at.vars.len() && (#[trigger] at.vars[i]).name == name && at.vars[i].ty == ty;
            assert(at.vars[i].name == name);
        },
        StmtV::ArrayIndexAssign(name, ty, index, value) => {
            lemma_element_assign(at, sc, w, name, ty, index, value);
        },
        StmtV::Append(array, value) => {
            lemma_append(at, sc, w, array, value);
        },
        StmtV::Return(e) => {
            if let Some(e) = e {
                lemma_for(at, sc, w, e, ret);
            }
        },
        StmtV::Print(segments, dest) => {
            lemma_print(at, sc, w, segments, dest, "[to*...*]"@);
        },
        StmtV::Overwrite(segments, dest) => {
            lemma_print(at, sc, w, segments, Some(dest), "[to*...*]"@);
        },
        StmtV::Read(source) => {
            lemma_path(at, sc, w, source, "read*...*"@);
        },
        StmtV::ExprStmt(e) => match e {
            ExprV::Call(name, args) => lemma_call(at, sc, w, name, args),
            _ => lemma_expr(at, sc, w, e),
        },
        StmtV::If(_, _, _) => {
            lemma_if(at, f, s, stmt);
            lemma_action_keeps(f, s, stmt);
        },
        StmtV::While(_, _) => {
            lemma_while(at, f, s, stmt);
            lemma_action_keeps(f, s, stmt);
        },
    }
}

proof fn lemma_if(at: Visible, f: Frame, s: State, stmt: StmtV)
    requires
        agree(at, scope(f, s)),
        wf_stmt(stmt),
        f.return_type is Void || wf_type(f.return_type),
        check_stmt(at, f.return_type, stmt).1.len() == 0,
        stmt is If,
    ensures
        lower_if(f, s, stmt) is Ok,
    decreases stmt, 0nat, 0nat,
{
    match stmt {
        StmtV::If(cond, then_block, else_block) => {
            lemma_condition(at, f, s, cond);
            let (s1, v) = lower_condition(f, s, cond)->Ok_0;
            let (o, yes) = block(s1.out, "then"@);
            let (o, no) = block(o, "else"@);
            let (o, next) = block(o, "merge"@);
            let s2 = emitted(s1, branch(o, v, yes, no));
            lemma_arm(at, f, s2, yes, then_block, next);
            let s3 = lower_arm(f, s2, yes, then_block, next)->Ok_0;
            if let Some(b) = else_block {
                lemma_arm(at, f, s3, no, b, next);
            }
        },
        _ => {},
    }
}

proof fn lemma_arm(at: Visible, f: Frame, s: State, start: Value, b: Seq<StmtV>, next: Value)
    requires
        agree(at, scope(f, s)),
        wf_block(b),
        f.return_type is Void || wf_type(f.return_type),
        check_stmts(at, f.return_type, b, b.len()).1.len() == 0,
    ensures
        lower_arm(f, s, start, b, next) matches Ok(t) && agree(at, scope(f, t)),
    decreases b, 4nat, 0nat,
{
    let s1 = emitted(s, crate::emit::at(s.out, start));
    lemma_block(at, f, s1, b);
    lemma_block_keeps(f, s1, b);
}

proof fn lemma_while(at: Visible, f: Frame, s: State, stmt: StmtV)
    requires
        agree(at, scope(f, s)),
        wf_stmt(stmt),
        f.return_type is Void || wf_type(f.return_type),
        check_stmt(at, f.return_type, stmt).1.len() == 0,
        stmt is While,
    ensures
        lower_while(f, s, stmt) is Ok,
    decreases stmt, 0nat, 0nat,
{
    let sc = scope(f, s);
    match stmt {
        StmtV::While(cond, body) => {
            let (o, head) = block(s.out, "while_cond"@);
            let (o, inside) = block(o, "while_body"@);
            let (o, next) = block(o, "while_end"@);
            let list = sites(f.sigs, cond) + block_sites(f.sigs, body, body.len());
            let s1 = push_scope(emitted(s, o));
            lemma_hoist_all(s1, list, list.len());
            lemma_hoist_keeps(s1, list, list.len());
            let s2 = hoist_all(s1, list, list.len())->Ok_0;
            lemma_more_agree(at, sc, scope(f, s2));
            let s3 = emitted(s2, crate::emit::at(jump(s2.out, head), head));
            lemma_condition(at, f, s3, cond);
            let (s4, v) = lower_condition(f, s3, cond)->Ok_0;
            let s5 = emitted(s4, branch(s4.out, v, inside, next));
            lemma_arm(at, f, s5, inside, body, head);
        },
        _ => {},
    }
}

proof fn lemma_stmts(at: Visible, f: Frame, s: State, b: Seq<StmtV>, n: nat)
    requires
        agree(at, scope(f, s)),
        in_block(s),
        wf_block(b),
        n <= b.len(),
        f.return_type is Void || wf_type(f.return_type),
        check_stmts(at, f.return_type, b, n).1.len() == 0,
    ensures
        lower_stmts(f, s, b, n) matches Ok(t) && (!t.out.ended ==> agree(
            Visible { sigs: at.sigs, vars: check_stmts(at, f.return_type, b, n).0 },
            scope(f, t),
        )),
    decreases b, 2nat, n,
{
    if n > 0 {
        lemma_stmts(at, f, s, b, (n - 1) as nat);
        lemma_stmts_keeps(f, s, b, (n - 1) as nat);
        let t = lower_stmts(f, s, b, (n - 1) as nat)->Ok_0;
        if !t.out.ended {
            let vars = check_stmts(at, f.return_type, b, (n - 1) as nat).0;
            let here = Visible { sigs: at.sigs, vars };
            assert(wf_stmt(b[n - 1]));
            lemma_action(here, f, t, b[n - 1]);
            let u = lower_action(f, t, b[n - 1])->Ok_0;
            assert(lower_stmt(f, t, b[n - 1]) == Ok::<State, Seq<char>>(finish(u)));
            assert(scope(f, finish(u)) == scope(f, u));
        }
    }
}

proof fn lemma_block(at: Visible, f: Frame, s: State, b: Seq<StmtV>)
    requires
        agree(at, scope(f, s)),
        wf_block(b),
        f.return_type is Void || wf_type(f.return_type),
        check_stmts(at, f.return_type, b, b.len()).1.len() == 0,
    ensures
        lower_block(f, s, b) is Ok,
    decreases b, 3nat, 0nat,
{
    let s1 = push_scope(s);
    assert(scope(f, s1) == scope(f, s));
    lemma_stmts(at, f, s1, b, b.len());
}

// ---------------------------------------------------------------------------
// Programs
// ---------------------------------------------------------------------------

proof fn lemma_sigs(fs: Seq<FunctionV>)
    requires
        wf_functions(fs),
    ensures
        wf_sigs(sigs_of(fs)),
{
    assert forall|i: int| 0 <= i < sigs_of(fs).len() implies wf_sig(#[trigger] sigs_of(fs)[i]) by {
        let f = fs[i];
        assert(wf_function(f));
        assert(sigs_of(fs)[i] == sig_of(f));
        assert forall|k: int| 0 <= k < param_types(f.params).len() implies wf_type(
            #[trigger] param_types(f.params)[k],
        ) by {
            assert(wf_type(f.params[k].ty));
        }
    }
}

proof fn lemma_params(sigs: Seq<SigV>, frame: Frame, s: State, ps: Seq<ParamV>, n: nat)
    requires
        wf_sigs(sigs),
        frame.sigs == sigs,
        s.bindings.len() == 0,
        in_block(s),
        wf_params(ps),
        n <= ps.len(),
    ensures
        agree(Visible { sigs, vars: declare_params(ps, n) }, scope(frame, bind_params(s, ps, n))),
    decreases n,
{
    if n > 0 {
        lemma_params(sigs, frame, s, ps, (n - 1) as nat);
        let t = bind_params(s, ps, (n - 1) as nat);
        let p = ps[n - 1];
        let (o, v) = crate::emit::give0(t.out, Op::Param((n - 1) as usize), ""@, crate::ir::repr_of(p.ty));
        assert(wf_type(p.ty));
        lemma_declare_agree(
            Visible { sigs, vars: declare_params(ps, (n - 1) as nat) },
            frame,
            emitted(t, o),
            p.name,
            p.ty,
            v,
        );
    }
}

proof fn lemma_sig_place(sigs: Seq<SigV>, i: int, n: int)
    requires
        0 <= i < n <= sigs.len(),
    ensures
        sig_place(sigs, sigs[i].name, n) is Some,
    decreases n,
{
    if sigs[n - 1].name != sigs[i].name {
        lemma_sig_place(sigs, i, n - 1);
    }
}

proof fn lemma_function(sigs: Seq<SigV>, o: Out, fs: Seq<FunctionV>, i: int)
    requires
        sigs == sigs_of(fs),
        wf_functions(fs),
        0 <= i < fs.len(),
        function_problems(sigs, fs[i]).len() == 0,
    ensures
        lower_function(sigs, o, fs[i]) is Ok,
{
    reveal(lower_function);
    let f = fs[i];
    assert(wf_function(f));
    lemma_sigs(fs);
    assert(sigs[i].name == f.name);
    lemma_sig_place(sigs, i, sigs.len() as int);
    let k = sig_place(sigs, f.name, sigs.len() as int)->0;
    let s = opened(do0(o, Op::BeginFunction(k as usize)));
    let frame = Frame { sigs, return_type: f.return_type, in_entry: false };
    lemma_params(sigs, frame, s, f.params, f.params.len());
    let s1 = bind_params(s, f.params, f.params.len());
    let vars = declare_params(f.params, f.params.len());
    lemma_block(Visible { sigs, vars }, frame, s1, f.body);
}

proof fn lemma_functions(sigs: Seq<SigV>, o: Out, fs: Seq<FunctionV>, n: nat)
    requires
        sigs == sigs_of(fs),
        wf_functions(fs),
        n <= fs.len(),
        functions_problems(sigs, fs, n).len() == 0,
    ensures
        lower_functions(sigs, o, fs, n) is Ok,
    decreases n,
{
    if n > 0 {
        lemma_functions(sigs, o, fs, (n - 1) as nat);
        let o1 = lower_functions(sigs, o, fs, (n - 1) as nat)->Ok_0;
        lemma_function(sigs, o1, fs, n - 1);
    }
}

/// Every program that the type checker accepts can be lowered: a program without problems never
/// fails later.
pub proof fn accepted_programs_can_be_lowered(p: ProgramV, o: Out)
    requires
        wf_program(p),
        program_problems(p).len() == 0,
    ensures
        lower_program(o, p) is Ok,
{
    reveal(lower_entry);
    let sigs = sigs_of(p.functions);
    lemma_functions(sigs, o, p.functions, p.functions.len());
    lemma_sigs(p.functions);
    let o1 = lower_functions(sigs, o, p.functions, p.functions.len())->Ok_0;
    let frame = Frame { sigs, return_type: Type::Void, in_entry: true };
    let s = opened(do0(o1, Op::BeginMain));
    lemma_block(Visible { sigs, vars: Seq::empty() }, frame, s, p.entry);
}

} // verus!
