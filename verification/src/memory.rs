//! Who owns what: statements and programs.

use vstd::prelude::*;
use crate::ast::{element_as_type, ExprV, FunctionV, ParamV, ProgramV, SegmentV, StmtV, Type};
use crate::emit::{
    at, block, branch, call0, call1, call2, call_list, coerce_float, const_float, const_int, const_str, do0,
    free_slot, give0, jump, load, owned, run1, slot, unwrap, value_fmt, Out,
};
use crate::ir::{repr_of, Op, Repr, Rt, Value};
use crate::layout::{
    assign_element, bind_params, block_sites, close_branch, declare, done, emitted, finish, free_bindings,
    free_texts, hoist, hoist_all, hoist_new, lower_action, lower_append, lower_arm, lower_block, lower_condition,
    lower_entry, lower_function, lower_functions, lower_if, lower_path, lower_print, lower_program, lower_read,
    lower_return, lower_stmt, lower_stmts, lower_while, make_literal, opened, own_variable, pop_scope,
    print_pieces, push_scope, read_input, scope, scope_start, sites, work, write_to_file, Frame, SiteV, State,
};
use crate::lower::{
    element_place, free_temps, lower_expr, lower_for, sig_place, variable, with_out, BindingV, Scope, Temp, Work,
};
use crate::ownership::{
    follows, in_order, lemma_append, lemma_call, lemma_element_place, lemma_expr, lemma_for, places_apart, sound,
    temps_apart, unowned,
};
use crate::scoping::lemma_find_binding;
use crate::typing::{sigs_of, SigV};
use crate::wellbuilt::{
    good, valid, valid_all, well_at, well_block, well_branch, well_built, well_call0, well_call1, well_call2,
    well_call_list, well_coerce_float, well_coerce_to_bigint, well_coerce_to_bignum, well_const_float,
    well_const_int, well_const_str, well_default_return, well_do0, well_do1, well_free_slot, well_free_value,
    well_give0, well_jump, well_load, well_run1, well_slot, well_store, well_unwrap, well_value_fmt,
};

verus! {

/// A state in which everything is in order: the code is well built, the temporaries are different
/// values, and the variables have different places.
#[verifier::opaque]
pub open spec fn orderly(s: State) -> bool {
    &&& good(s.out)
    &&& temps_apart(s.temps, s.out)
    &&& places_apart(s.bindings, s.out)
}

/// A state in which a statement can start.
pub open spec fn ready(s: State) -> bool {
    orderly(s) && !s.out.ended && s.temps.len() == 0
}

/// The state `t` came after the state `s`, and everything is in order.
pub open spec fn goes_on(s: State, t: State) -> bool {
    orderly(t) && s.out.code.len() <= t.out.code.len()
}

/// More code changes nothing about who owns what.
proof fn lemma_more(s: State, o: Out)
    requires
        orderly(s),
        good(o),
        s.out.code.len() <= o.code.len(),
    ensures
        orderly(emitted(s, o)),
{
    reveal(orderly);
}

proof fn lemma_good(s: State)
    requires
        orderly(s),
    ensures
        good(s.out),
{
    reveal(orderly);
}

// ---------------------------------------------------------------------------
// Freeing
// ---------------------------------------------------------------------------

proof fn lemma_free_temps(o: Out, temps: Seq<Temp>, n: nat)
    requires
        good(o),
        !o.ended,
        temps_apart(temps, o),
    ensures
        good(free_temps(o, temps, n)),
        !free_temps(o, temps, n).ended,
        o.code.len() <= free_temps(o, temps, n).code.len(),
    decreases n,
{
    if 0 < n <= temps.len() {
        lemma_free_temps(o, temps, (n - 1) as nat);
        well_free_value(free_temps(o, temps, (n - 1) as nat), temps[n - 1].value, temps[n - 1].ty);
    }
}

proof fn lemma_free_bindings(o: Out, bs: Seq<BindingV>, from: int, n: int)
    requires
        good(o),
        !o.ended,
        places_apart(bs, o),
    ensures
        good(free_bindings(o, bs, from, n)),
        !free_bindings(o, bs, from, n).ended,
        o.code.len() <= free_bindings(o, bs, from, n).code.len(),
    decreases n - from,
{
    if !(n <= from || n <= 0 || n > bs.len()) {
        well_free_slot(o, bs[n - 1].place, bs[n - 1].ty);
        lemma_free_bindings(free_slot(o, bs[n - 1].place, bs[n - 1].ty), bs, from, n - 1);
    }
}

proof fn lemma_free_texts(o: Out, texts: Seq<Value>, n: nat)
    requires
        good(o),
        !o.ended,
        valid_all(texts, o),
    ensures
        good(free_texts(o, texts, n)),
        !free_texts(o, texts, n).ended,
        o.code.len() <= free_texts(o, texts, n).code.len(),
    decreases n,
{
    if 0 < n <= texts.len() {
        lemma_free_texts(o, texts, (n - 1) as nat);
        assert(valid(texts[n - 1], o));
        well_run1(free_texts(o, texts, (n - 1) as nat), Rt::Free, texts[n - 1]);
    }
}

proof fn lemma_finish(s: State)
    requires
        orderly(s),
    ensures
        goes_on(s, finish(s)),
        finish(s).out.ended == s.out.ended,
        finish(s).temps.len() == 0,
{
    reveal(orderly);
    if !s.out.ended {
        lemma_free_temps(s.out, s.temps, s.temps.len());
    }
}

// ---------------------------------------------------------------------------
// Variables
// ---------------------------------------------------------------------------

proof fn lemma_slot_fresh(o: Out, repr: Repr, name: Seq<char>)
    ensures
        slot(o, repr, name).1.id == o.code.len() as usize,
{
    reveal(slot);
    reveal(give0);
}

proof fn lemma_declare(s: State, name: Seq<char>, ty: Type, v: Value)
    requires
        orderly(s),
        !s.out.ended,
        valid(v, s.out),
    ensures
        goes_on(s, declare(s, name, ty, v)),
        !declare(s, name, ty, v).out.ended,
{
    reveal(orderly);
    lemma_find_binding(s.bindings, name, ty, false, s.bindings.len() as int);
    let t = declare(s, name, ty, v);
    let o = match own_variable(s, name, ty) {
        Some(k) => {
            well_free_slot(s.out, s.bindings[k].place, ty);
            free_slot(s.out, s.bindings[k].place, ty)
        },
        None => s.out,
    };
    well_slot(o, repr_of(ty), name);
    lemma_slot_fresh(o, repr_of(ty), name);
    let (o1, place) = slot(o, repr_of(ty), name);
    well_store(o1, place, v);
    if t.out.code.len() <= usize::MAX {
        assert forall|i: int, j: int| 0 <= i < j < t.bindings.len() implies (#[trigger] t.bindings[i]).place.id
            != (#[trigger] t.bindings[j]).place.id by {
            match own_variable(s, name, ty) {
                Some(k) => {
                    if i != k {
                        assert(t.bindings[i] == s.bindings[i]);
                    }
                    if j != k {
                        assert(t.bindings[j] == s.bindings[j]);
                    }
                },
                None => {
                    assert(t.bindings[i] == s.bindings[i]);
                },
            }
        }
    }
}

proof fn lemma_hoist_all(s: State, list: Seq<SiteV>, n: nat)
    requires
        orderly(s),
        !s.out.ended,
    ensures
        hoist_all(s, list, n) matches Ok(t) ==> goes_on(s, t) && !t.out.ended && t.temps == s.temps,
    decreases n,
{
    reveal(orderly);
    if 0 < n <= list.len() {
        lemma_hoist_all(s, list, (n - 1) as nat);
        if let Ok(t) = hoist_all(s, list, (n - 1) as nat) {
            lemma_hoist(t, list[n - 1]);
        }
    }
}

proof fn lemma_hoist(s: State, site: SiteV)
    requires
        orderly(s),
        !s.out.ended,
    ensures
        hoist(s, site) matches Ok(t) ==> goes_on(s, t) && !t.out.ended && t.temps == s.temps,
{
    reveal(orderly);
    match site.ty {
        Type::BigNum(p) => {
            well_const_float(s.out, site.text);
            let (o, f) = const_float(s.out, site.text);
            well_coerce_to_bignum(o, f, p);
        },
        _ => {
            well_const_str(s.out, site.text);
            let (o, t) = const_str(s.out, site.text);
            well_coerce_to_bigint(o, t);
        },
    }
    if let Ok((o, v)) = make_literal(s.out, site.text, site.ty) {
        well_slot(o, repr_of(site.ty), "hoisted_literal"@);
        lemma_slot_fresh(o, repr_of(site.ty), "hoisted_literal"@);
        let (o1, place) = slot(o, repr_of(site.ty), "hoisted_literal"@);
        well_store(o1, place, v);
        let t = hoist_new(s, site)->Ok_0;
        if t.out.code.len() <= usize::MAX {
            assert forall|i: int, j: int| 0 <= i < j < t.bindings.len() implies (#[trigger] t.bindings[i]).place.id
                != (#[trigger] t.bindings[j]).place.id by {
                assert(t.bindings[i] == s.bindings[i]);
            }
        }
    }
}

// ---------------------------------------------------------------------------
// Parts of statements
// ---------------------------------------------------------------------------

proof fn lemma_path(sc: Scope, w: Work, e: ExprV)
    requires
        sound(sc, w),
    ensures
        in_order(sc, w, lower_path(sc, w, e)),
{
    lemma_expr(sc, w, e);
}

proof fn lemma_segments(sc: Scope, w: Work, segments: Seq<SegmentV>, n: nat)
    requires
        sound(sc, w),
    ensures
        print_pieces(sc, w, segments, n) matches Ok(r) ==> follows(sc, w, r.0) && valid_all(r.1.args, r.0.out)
            && valid_all(r.1.frees, r.0.out),
    decreases n,
{
    if 0 < n <= segments.len() {
        lemma_segments(sc, w, segments, (n - 1) as nat);
        if let Ok((w1, p)) = print_pieces(sc, w, segments, (n - 1) as nat) {
            if let SegmentV::Expr(e) = segments[n - 1] {
                lemma_expr(sc, w1, e);
                if let Ok((w2, v)) = lower_expr(sc, w1, e) {
                    well_value_fmt(w2.out, v);
                    if let Ok((o, a)) = value_fmt(w2.out, v) {
                        assert forall|i: int| 0 <= i < p.args.push(a).len() implies valid(#[trigger] p.args.push(a)[i], o) by {
                            if i < p.args.len() {
                                assert(valid(p.args[i], w1.out));
                            }
                        }
                        assert forall|i: int| 0 <= i < p.frees.push(a).len() implies valid(
                            #[trigger] p.frees.push(a)[i],
                            o,
                        ) by {
                            if i < p.frees.len() {
                                assert(valid(p.frees[i], w1.out));
                            }
                        }
                        assert forall|i: int| 0 <= i < p.frees.len() implies valid(#[trigger] p.frees[i], o) by {
                            assert(valid(p.frees[i], w1.out));
                        }
                    }
                }
            }
        }
    }
}

proof fn lemma_valid_first(v: Value, vs: Seq<Value>, o: Out, t: Out)
    requires
        valid(v, t),
        valid_all(vs, o),
        o.code.len() <= t.code.len(),
    ensures
        valid_all(seq![v] + vs, t),
        valid_all(vs, t),
{
    let all = seq![v] + vs;
    assert forall|i: int| 0 <= i < all.len() implies valid(#[trigger] all[i], t) by {
        if i > 0 {
            assert(all[i] == vs[i - 1]);
            assert(valid(vs[i - 1], o));
        }
    }
    assert forall|i: int| 0 <= i < vs.len() implies valid(#[trigger] vs[i], t) by {
        assert(valid(vs[i], o));
    }
}

proof fn lemma_write_to_file(sc: Scope, w: Work, dest: ExprV, args: Seq<Value>)
    requires
        sound(sc, w),
        valid_all(args, w.out),
    ensures
        write_to_file(sc, w, dest, args) matches Ok(t) ==> follows(sc, w, t),
{
    lemma_path(sc, w, dest);
    if let Ok((w1, path)) = lower_path(sc, w, dest) {
        well_const_str(w1.out, "w"@);
        let (o, mode) = const_str(w1.out, "w"@);
        well_call2(o, Rt::Fopen, path, mode);
        let (o, file) = call2(o, Rt::Fopen, path, mode);
        lemma_valid_first(file, args, w.out, o);
        well_call_list(o, Rt::Fprintf, seq![file] + args);
        let (o, _) = call_list(o, Rt::Fprintf, seq![file] + args);
        well_run1(o, Rt::Fclose, file);
    }
}

proof fn lemma_print(sc: Scope, w: Work, segments: Seq<SegmentV>, dest: Option<ExprV>)
    requires
        sound(sc, w),
    ensures
        lower_print(sc, w, segments, dest) matches Ok(t) ==> follows(sc, w, t),
{
    lemma_segments(sc, w, segments, segments.len());
    if let Ok((w1, p)) = print_pieces(sc, w, segments, segments.len()) {
        well_const_str(w1.out, p.format.push('\n'));
        let (o, format) = const_str(w1.out, p.format.push('\n'));
        lemma_valid_first(format, p.args, w1.out, o);
        let args = seq![format] + p.args;
        well_call_list(o, Rt::Printf, args);
        let (o1, shown) = call_list(o, Rt::Printf, args);
        match dest {
            None => {
                lemma_valid_first(shown, p.frees, w1.out, o1);
                lemma_free_texts(o1, p.frees, p.frees.len());
            },
            Some(e) => {
                lemma_write_to_file(sc, with_out(w1, o), e, args);
                if let Ok(w2) = write_to_file(sc, with_out(w1, o), e, args) {
                    lemma_valid_first(format, p.frees, w1.out, w2.out);
                    lemma_free_texts(w2.out, p.frees, p.frees.len());
                }
            },
        }
    }
}

proof fn lemma_read_input(sc: Scope, w: Work, ty: Type, source: Option<ExprV>)
    requires
        sound(sc, w),
    ensures
        in_order(sc, w, read_input(sc, w, ty, source)),
{
    if let Some(e) = source {
        lemma_path(sc, w, e);
        if let Ok((w1, path)) = lower_path(sc, w, e) {
            well_call1(w1.out, Rt::ReadFile, path);
            let (o, t) = call1(w1.out, Rt::ReadFile, path);
            well_call1(o, Rt::ParseNum, t);
            let (o, n) = call1(o, Rt::ParseNum, t);
            well_run1(o, Rt::Free, t);
            if let Type::Num(width) = ty {
                well_coerce_float(run1(o, Rt::Free, t), n, width);
            }
        }
    } else {
        well_call0(w.out, Rt::ReadLine);
        well_call0(w.out, Rt::ReadNum);
        let (o, n) = call0(w.out, Rt::ReadNum);
        if let Type::Num(width) = ty {
            well_coerce_float(o, n, width);
        }
    }
}

proof fn lemma_assign_element(sc: Scope, w: Work, name: Seq<char>, ty: Type, index: ExprV, value: ExprV)
    requires
        sound(sc, w),
    ensures
        assign_element(sc, w, name, ty, index, value) matches Ok(t) ==> follows(sc, w, t),
{
    if let Type::Array(element) = ty {
        lemma_find_binding(sc.bindings, name, ty, false, sc.bindings.len() as int);
        if let Some(k) = variable(sc.bindings, name, ty) {
            well_load(w.out, Repr::Handle, sc.bindings[k].place);
            let (o, a) = load(w.out, Repr::Handle, sc.bindings[k].place);
            well_unwrap(o, a);
            let (o, h) = unwrap(o, a);
            lemma_expr(sc, with_out(w, o), index);
            if let Ok((w1, i)) = lower_expr(sc, with_out(w, o), index) {
                lemma_element_place(w1.out, h, i);
                if let Ok((o1, p)) = element_place(w1.out, h, i) {
                    lemma_for(sc, with_out(w1, o1), value, element_as_type(element));
                    if let Ok((w2, v)) = lower_for(sc, with_out(w1, o1), value, element_as_type(element)) {
                        well_free_slot(w2.out, p, element_as_type(element));
                        well_store(free_slot(w2.out, p, element_as_type(element)), p, v);
                    }
                }
            }
        }
    }
}

proof fn lemma_lower_append(sc: Scope, w: Work, array: ExprV, value: ExprV)
    requires
        sound(sc, w),
    ensures
        lower_append(sc, w, array, value) matches Ok(t) ==> follows(sc, w, t),
{
    if let ExprV::Var(name, Type::Array(element)) = array {
        lemma_find_binding(sc.bindings, name, Type::Array(element), false, sc.bindings.len() as int);
        if let Some(k) = variable(sc.bindings, name, Type::Array(element)) {
            well_load(w.out, Repr::Handle, sc.bindings[k].place);
            let (o, a) = load(w.out, Repr::Handle, sc.bindings[k].place);
            well_unwrap(o, a);
            let (o, h) = unwrap(o, a);
            lemma_for(sc, with_out(w, o), value, element_as_type(element));
            if let Ok((w1, v)) = lower_for(sc, with_out(w, o), value, element_as_type(element)) {
                lemma_append(w1.out, h, v, element);
            }
        }
    }
}

proof fn lemma_return(f: Frame, s: State, e: Option<ExprV>)
    requires
        ready(s),
    ensures
        lower_return(f, s, e) matches Ok(t) ==> goes_on(s, t) && t.out.ended && t.temps.len() == 0,
{
    reveal(orderly);
    let sc = scope(f, s);
    let w0 = work(s);
    let (w, v) = match e {
        None => (w0, None),
        Some(e) => {
            lemma_for(sc, w0, e, f.return_type);
            match lower_for(sc, w0, e, f.return_type) {
                Ok((w, v)) => (w, Some(v)),
                Err(_) => (w0, None),
            }
        },
    };
    lemma_free_temps(w.out, w.temps, w.temps.len());
    let o = free_temps(w.out, w.temps, w.temps.len());
    lemma_free_bindings(o, s.bindings, 0, s.bindings.len() as int);
    let o = free_bindings(o, s.bindings, 0, s.bindings.len() as int);
    match v {
        Some(v) => well_do1(o, Op::Ret, v),
        None => {
            well_const_int(o, 32, 0);
            let (o1, zero) = const_int(o, 32, 0);
            well_do1(o1, Op::Ret, zero);
            well_do0(o, Op::RetVoid);
        },
    }
}

proof fn lemma_read(sc: Scope, w: Work, source: ExprV)
    requires
        sound(sc, w),
    ensures
        lower_read(sc, w, source) matches Ok(t) ==> follows(sc, w, t),
{
    lemma_path(sc, w, source);
    if let Ok((w1, path)) = lower_path(sc, w, source) {
        well_call1(w1.out, Rt::ReadFile, path);
        let (o, t) = call1(w1.out, Rt::ReadFile, path);
        well_const_str(o, "%s\n"@);
        let (o, format) = const_str(o, "%s\n"@);
        assert(valid_all(seq![format, t], o));
        well_call_list(o, Rt::Printf, seq![format, t]);
        let (o, _) = call_list(o, Rt::Printf, seq![format, t]);
        well_run1(o, Rt::Free, t);
    }
}

proof fn lemma_condition(f: Frame, s: State, cond: ExprV)
    requires
        ready(s),
    ensures
        lower_condition(f, s, cond) matches Ok(r) ==> ready(r.0) && goes_on(s, r.0) && valid(r.1, r.0.out),
{
    reveal(orderly);
    lemma_expr(scope(f, s), work(s), cond);
    if let Ok((w, v)) = lower_expr(scope(f, s), work(s), cond) {
        lemma_finish(done(s, w));
    }
}

proof fn lemma_close_branch(s: State, next: Value)
    requires
        orderly(s),
        valid(next, s.out),
    ensures
        goes_on(s, close_branch(s, next)),
{
    reveal(orderly);
    if !s.out.ended {
        well_jump(s.out, next);
    }
}

proof fn lemma_pop_scope(s: State, free: bool)
    requires
        orderly(s),
        free ==> !s.out.ended,
    ensures
        goes_on(s, pop_scope(s, free)),
        pop_scope(s, free).out.ended == s.out.ended,
        pop_scope(s, free).temps == s.temps,
{
    reveal(orderly);
    if free {
        lemma_free_bindings(s.out, s.bindings, scope_start(s), s.bindings.len() as int);
    }
}

// ---------------------------------------------------------------------------
// Statements
// ---------------------------------------------------------------------------

pub proof fn lemma_action(f: Frame, s: State, stmt: StmtV)
    requires
        ready(s),
    ensures
        lower_action(f, s, stmt) matches Ok(t) ==> goes_on(s, t),
    decreases stmt, 1nat, 0nat,
{
    reveal(orderly);
    let sc = scope(f, s);
    let w = work(s);
    match stmt {
        StmtV::VarDecl(name, ty, e) => {
            lemma_for(sc, w, e, ty);
            if let Ok((w1, v)) = lower_for(sc, w, e, ty) {
                lemma_declare(done(s, w1), name, ty, v);
            }
        },
        StmtV::Input(name, ty, source) => {
            lemma_read_input(sc, w, ty, source);
            if let Ok((w1, v)) = read_input(sc, w, ty, source) {
                lemma_declare(done(s, w1), name, ty, v);
            }
        },
        StmtV::Clock(name, ty) => {
            if let Type::Num(width) = ty {
                well_call0(s.out, Rt::ClockElapsed);
                let (o, n) = call0(s.out, Rt::ClockElapsed);
                well_coerce_float(o, n, width);
                let (o, v) = coerce_float(o, n, width);
                lemma_declare(emitted(s, o), name, ty, v);
            }
        },
        StmtV::Assign(name, ty, e) => {
            lemma_for(sc, w, e, ty);
            if let Ok((w1, v)) = lower_for(sc, w, e, ty) {
                lemma_find_binding(s.bindings, name, ty, false, s.bindings.len() as int);
                if let Some(k) = variable(s.bindings, name, ty) {
                    let place = s.bindings[k].place;
                    well_free_slot(w1.out, place, ty);
                    well_store(free_slot(w1.out, place, ty), place, v);
                }
            }
        },
        StmtV::ArrayIndexAssign(name, ty, index, value) => lemma_assign_element(sc, w, name, ty, index, value),
        StmtV::Append(array, value) => lemma_lower_append(sc, w, array, value),
        StmtV::Return(e) => lemma_return(f, s, e),
        StmtV::Print(segments, dest) => lemma_print(sc, w, segments, dest),
        StmtV::Overwrite(segments, dest) => lemma_print(sc, w, segments, Some(dest)),
        StmtV::Read(source) => lemma_read(sc, w, source),
        StmtV::ExprStmt(e) => match e {
            ExprV::Call(name, args) => lemma_call(sc, w, name, args),
            _ => lemma_expr(sc, w, e),
        },
        StmtV::If(_, _, _) => lemma_if(f, s, stmt),
        StmtV::While(_, _) => lemma_while(f, s, stmt),
    }
}

proof fn lemma_arm(f: Frame, s: State, start: Value, b: Seq<StmtV>, next: Value)
    requires
        orderly(s),
        s.temps.len() == 0,
        valid(start, s.out),
        valid(next, s.out),
    ensures
        lower_arm(f, s, start, b, next) matches Ok(t) ==> goes_on(s, t) && t.temps.len() == 0,
    decreases b, 4nat, 0nat,
{
    lemma_good(s);
    well_at(s.out, start);
    lemma_more(s, at(s.out, start));
    let s1 = emitted(s, at(s.out, start));
    lemma_block(f, s1, b);
    if let Ok(t) = lower_block(f, s1, b) {
        lemma_close_branch(t, next);
    }
}

proof fn lemma_if(f: Frame, s: State, stmt: StmtV)
    requires
        ready(s),
    ensures
        lower_if(f, s, stmt) matches Ok(t) ==> goes_on(s, t),
    decreases stmt, 0nat, 0nat,
{
    if let StmtV::If(cond, then_block, else_block) = stmt {
        lemma_condition(f, s, cond);
        if let Ok((s1, v)) = lower_condition(f, s, cond) {
            lemma_good(s1);
            well_block(s1.out, "then"@);
            let (o1, yes) = block(s1.out, "then"@);
            well_block(o1, "else"@);
            let (o2, no) = block(o1, "else"@);
            well_block(o2, "merge"@);
            let (o3, next) = block(o2, "merge"@);
            well_branch(o3, v, yes, no);
            let s2 = emitted(s1, branch(o3, v, yes, no));
            lemma_more(s1, branch(o3, v, yes, no));
            lemma_arm(f, s2, yes, then_block, next);
            if let Ok(s3) = lower_arm(f, s2, yes, then_block, next) {
                lemma_good(s3);
                well_at(s3.out, no);
                lemma_more(s3, at(s3.out, no));
                lemma_close_branch(emitted(s3, at(s3.out, no)), next);
                let other = match else_block {
                    Some(b) => lower_arm(f, s3, no, b, next),
                    None => Ok(close_branch(emitted(s3, at(s3.out, no)), next)),
                };
                if let Some(b) = else_block {
                    lemma_arm(f, s3, no, b, next);
                }
                if let Ok(s4) = other {
                    lemma_good(s4);
                    well_at(s4.out, next);
                    lemma_more(s4, at(s4.out, next));
                }
            }
        }
    }
}

proof fn lemma_while(f: Frame, s: State, stmt: StmtV)
    requires
        ready(s),
    ensures
        lower_while(f, s, stmt) matches Ok(t) ==> goes_on(s, t),
    decreases stmt, 0nat, 0nat,
{
    if let StmtV::While(cond, body) = stmt {
        lemma_good(s);
        well_block(s.out, "while_cond"@);
        let (o1, head) = block(s.out, "while_cond"@);
        well_block(o1, "while_body"@);
        let (o2, inside) = block(o1, "while_body"@);
        well_block(o2, "while_end"@);
        let (o3, next) = block(o2, "while_end"@);
        let list = sites(f.sigs, cond) + block_sites(f.sigs, body, body.len());
        let s1 = push_scope(emitted(s, o3));
        assert(orderly(s1)) by {
            reveal(orderly);
        }
        lemma_hoist_all(s1, list, list.len());
        if let Ok(s2) = hoist_all(s1, list, list.len()) {
            lemma_good(s2);
            well_jump(s2.out, head);
            let o4 = jump(s2.out, head);
            well_at(o4, head);
            let s3 = emitted(s2, at(o4, head));
            lemma_more(s2, at(o4, head));
            lemma_condition(f, s3, cond);
            if let Ok((s4, v)) = lower_condition(f, s3, cond) {
                lemma_good(s4);
                well_branch(s4.out, v, inside, next);
                let s5 = emitted(s4, branch(s4.out, v, inside, next));
                lemma_more(s4, branch(s4.out, v, inside, next));
                lemma_arm(f, s5, inside, body, head);
                if let Ok(s6) = lower_arm(f, s5, inside, body, head) {
                    lemma_good(s6);
                    well_at(s6.out, next);
                    lemma_more(s6, at(s6.out, next));
                    lemma_pop_scope(emitted(s6, at(s6.out, next)), true);
                }
            }
        }
    }
}

proof fn lemma_stmt(f: Frame, s: State, stmt: StmtV)
    requires
        ready(s),
    ensures
        lower_stmt(f, s, stmt) matches Ok(t) ==> goes_on(s, t) && t.temps.len() == 0,
    decreases stmt, 2nat, 0nat,
{
    lemma_action(f, s, stmt);
    if let Ok(t) = lower_action(f, s, stmt) {
        lemma_finish(t);
    }
}

pub proof fn lemma_stmts(f: Frame, s: State, b: Seq<StmtV>, n: nat)
    requires
        ready(s),
    ensures
        lower_stmts(f, s, b, n) matches Ok(t) ==> goes_on(s, t) && t.temps.len() == 0,
    decreases b, 2nat, n,
{
    if 0 < n <= b.len() {
        lemma_stmts(f, s, b, (n - 1) as nat);
        if let Ok(t) = lower_stmts(f, s, b, (n - 1) as nat) {
            if !t.out.ended {
                lemma_stmt(f, t, b[n - 1]);
            }
        }
    }
}

proof fn lemma_block(f: Frame, s: State, b: Seq<StmtV>)
    requires
        ready(s),
    ensures
        lower_block(f, s, b) matches Ok(t) ==> goes_on(s, t) && t.temps.len() == 0,
    decreases b, 3nat, 0nat,
{
    assert(orderly(push_scope(s))) by {
        reveal(orderly);
    }
    lemma_stmts(f, push_scope(s), b, b.len());
    if let Ok(t) = lower_stmts(f, push_scope(s), b, b.len()) {
        lemma_pop_scope(t, !t.out.ended);
    }
}

/// A value that is stored, passed or returned and owns memory has one owner: it is none of the
/// temporaries that the end of the statement frees.
pub proof fn stored_values_have_one_owner(f: Frame, s: State, e: ExprV, ty: Type)
    requires
        ready(s),
        owned(ty),
    ensures
        lower_for(scope(f, s), work(s), e, ty) matches Ok((w, v)) ==> unowned(v, w),
{
    reveal(orderly);
    lemma_for(scope(f, s), work(s), e, ty);
}

/// Every statement leaves everything in order: each variable has a place of its own, and no
/// temporary is left. So a `return`, which frees every variable, frees none of them twice.
pub proof fn statements_keep_order(f: Frame, s: State, stmt: StmtV)
    requires
        ready(s),
    ensures
        lower_stmt(f, s, stmt) matches Ok(t) ==> orderly(t) && t.temps.len() == 0,
{
    lemma_stmt(f, s, stmt);
}

// ---------------------------------------------------------------------------
// Programs
// ---------------------------------------------------------------------------

proof fn lemma_opened(o: Out, op: Op)
    requires
        good(o),
        op is BeginFunction || op is BeginMain,
    ensures
        ready(opened(do0(o, op))),
        o.code.len() <= do0(o, op).code.len(),
{
    reveal(orderly);
    well_do0(o, op);
}

proof fn lemma_params(s: State, ps: Seq<ParamV>, n: nat)
    requires
        ready(s),
    ensures
        ready(bind_params(s, ps, n)),
    decreases n,
{
    reveal(orderly);
    if 0 < n <= ps.len() {
        lemma_params(s, ps, (n - 1) as nat);
        let t = bind_params(s, ps, (n - 1) as nat);
        let p = ps[n - 1];
        well_give0(t.out, Op::Param((n - 1) as usize), ""@, repr_of(p.ty));
        let (o, v) = give0(t.out, Op::Param((n - 1) as usize), ""@, repr_of(p.ty));
        lemma_declare(emitted(t, o), p.name, p.ty, v);
    }
}

proof fn lemma_function(sigs: Seq<SigV>, o: Out, f: FunctionV)
    requires
        good(o),
    ensures
        lower_function(sigs, o, f) matches Ok(t) ==> good(t) && t.ended,
{
    reveal(orderly);
    reveal(lower_function);
    if let Some(k) = sig_place(sigs, f.name, sigs.len() as int) {
        lemma_opened(o, Op::BeginFunction(k as usize));
        let s = opened(do0(o, Op::BeginFunction(k as usize)));
        lemma_params(s, f.params, f.params.len());
        let s1 = bind_params(s, f.params, f.params.len());
        let frame = Frame { sigs, return_type: f.return_type, in_entry: false };
        lemma_block(frame, s1, f.body);
        if let Ok(s2) = lower_block(frame, s1, f.body) {
            lemma_pop_scope(s2, !s2.out.ended);
            let s3 = pop_scope(s2, !s2.out.ended);
            if !s2.out.ended {
                well_default_return(s3.out, f.return_type);
            }
        }
    }
}

proof fn lemma_functions(sigs: Seq<SigV>, o: Out, fs: Seq<FunctionV>, n: nat)
    requires
        good(o),
    ensures
        lower_functions(sigs, o, fs, n) matches Ok(t) ==> good(t),
    decreases n,
{
    if 0 < n <= fs.len() {
        lemma_functions(sigs, o, fs, (n - 1) as nat);
        if let Ok(t) = lower_functions(sigs, o, fs, (n - 1) as nat) {
            lemma_function(sigs, t, fs[n - 1]);
        }
    }
}

/// The code of a program is well built: every operand is the value of an earlier instruction,
/// nothing stands behind the end of a block but the start of another one, and the last block has
/// an end.
pub proof fn code_is_well_built(p: ProgramV)
    ensures
        lower_program(Out { code: Seq::empty(), ended: false }, p) matches Ok(t) ==> well_built(t.code) && t.ended,
{
    reveal(lower_entry);
    reveal(good);
    let o = Out { code: Seq::empty(), ended: false };
    let sigs = sigs_of(p.functions);
    lemma_functions(sigs, o, p.functions, p.functions.len());
    if let Ok(o1) = lower_functions(sigs, o, p.functions, p.functions.len()) {
        lemma_opened(o1, Op::BeginMain);
        let s = opened(do0(o1, Op::BeginMain));
        let frame = Frame { sigs, return_type: Type::Void, in_entry: true };
        lemma_block(frame, s, p.entry);
        if let Ok(s1) = lower_block(frame, s, p.entry) {
            lemma_good(s1);
            if !s1.out.ended {
                well_const_int(s1.out, 32, 0);
                let (o2, zero) = const_int(s1.out, 32, 0);
                well_do1(o2, Op::Ret, zero);
            }
        }
    }
}

} // verus!
