//! The code of every construct keeps to itself: it is added to the code before it, and goes on only at
//! blocks of its own.

use vstd::prelude::*;
use crate::ast::{element_as_type, BinOp, ElementType, ExprV, SegmentV, StmtV, Type, UnOp};
use crate::confined::{
    group_own, grows, lemma_longer, lemma_same, mine, own_at, own_bignum_new, own_block, own_branch, own_call0,
    own_coerce_to_bigint, own_coerce_to_bignum, own_coerce_to_type, own_compile_bool_binary, own_compile_concat,
    own_compile_float_binary, own_compile_int_binary, own_jump, own_run3, own_unwrap, own_value_fmt, own_wrap,
};
use crate::emit::{
    at, block, branch, call0, call1, call_list, coerce_float, const_float, const_str, free_slot, jump, load, run3,
    size_of, unwrap, Out,
};
use crate::ir::{repr_of, Repr, Rt, Value};
use crate::layout::{
    assign_element, block_sites, close_branch, declare, done, emitted, finish, free_bindings, free_texts, hoist_all,
    hoist_new, lower_action, lower_append, lower_arm, lower_block, lower_condition, lower_if, lower_path, lower_print,
    lower_return, lower_stmt, lower_stmts, lower_while, pop_scope, print_pieces, print_segments, push_scope,
    read_input, scope, scope_start, sites, work, write_to_file, Frame, Next, SiteV, State,
};
use crate::lower::{
    adopt, append, big_arith, big_binary, big_function, big_neg, big_new, bigint_fact, bigint_literal, bignum_fact,
    bignum_precision, combine, combine_one, element_place, free_temps, fuses_left, is_temp, literal_with, lower_args,
    lower_bigint, lower_call, lower_elements, lower_expr, lower_for, lower_int, lower_pair, sig_place, spreads_over,
    variable, with_out, BindingV, Scope, Step, Temp, Work,
};

verus! {

broadcast use group_own;

/// The code of a step of work keeps to itself.
pub open spec fn step_grows(b: Out, r: Step) -> bool {
    r matches Ok((w, v)) ==> grows(b, w.out)
}

proof fn own_big_arith(b: Out, w: Work, ty: Type, f: Rt, op: BinOp, l: Value, r: Value)
    requires
        grows(b, w.out),
    ensures
        grows(b, big_arith(w, ty, f, op, l, r).0.out),
{
    let (o1, x) = unwrap(w.out, l);
    own_unwrap(b, w.out, l);
    let (o2, y) = unwrap(o1, r);
    own_unwrap(b, o1, r);
    if fuses_left(op) && is_temp(w.temps, l, ty) {
        own_run3(b, o2, f, x, x, y);
        own_wrap(b, run3(o2, f, x, x, y), repr_of(ty), x);
    } else if op is Pow && is_temp(w.temps, r, ty) {
        own_run3(b, o2, f, y, x, y);
        own_wrap(b, run3(o2, f, y, x, y), repr_of(ty), y);
    } else {
        let (o3, h) = big_new(o2, ty);
        if let Type::BigNum(p) = ty {
            own_bignum_new(b, o2, p);
        } else {
            own_call0(b, o2, Rt::BigintNew);
        }
        own_run3(b, o3, f, h, x, y);
        own_wrap(b, run3(o3, f, h, x, y), repr_of(ty), h);
    }
}

pub proof fn own_big_binary(b: Out, w: Work, ty: Type, op: BinOp, l: Value, r: Value)
    requires
        grows(b, w.out),
    ensures
        step_grows(b, big_binary(w, ty, op, l, r)),
{
    if let Some(f) = big_function(ty, op) {
        own_big_arith(b, w, ty, f, op, l, r);
    }
}

proof fn own_big_one(b: Out, sc: Scope, w: Work, ty: Type, v: Value, text: Seq<char>)
    requires
        grows(b, w.out),
    ensures
        grows(b, big_neg(w, ty, v).0.out),
        grows(b, bignum_fact(w, v).0.out),
        grows(b, bigint_fact(w, v).0.out),
        grows(b, bigint_literal(sc, w, text).0.out),
{
}

pub proof fn own_literal_with(b: Out, sc: Scope, w: Work, op: BinOp, text: Seq<char>, other: ExprV, v: Value)
    requires
        grows(b, w.out),
    ensures
        grows(b, literal_with(sc, w, op, text, other, v).0.out),
{
    own_big_one(b, sc, w, Type::BigInt, v, text);
}

pub proof fn own_combine(b: Out, sc: Scope, w: Work, e: ExprV, l: Value, r: Value)
    requires
        grows(b, w.out),
    ensures
        step_grows(b, combine(sc, w, e, l, r)),
{
    assert forall|u: Work, ty: Type, op: BinOp, x: Value, y: Value| grows(b, u.out) implies step_grows(
        b,
        #[trigger] big_binary(u, ty, op, x, y),
    ) by {
        own_big_binary(b, u, ty, op, x, y);
    }
    if let ExprV::Binary(le, op, re) = e {
        own_compile_concat(b, w.out, l, r);
        own_compile_float_binary(b, w.out, op, l, r);
        own_compile_bool_binary(b, w.out, op, l, r);
        own_compile_int_binary(b, w.out, op, l, r);
        own_coerce_to_bignum(b, w.out, r, bignum_precision(sc.sigs, *le));
        own_coerce_to_bignum(b, w.out, l, bignum_precision(sc.sigs, *re));
    }
}

pub proof fn own_combine_one(b: Out, sc: Scope, w: Work, op: UnOp, inner: ExprV, v: Value)
    requires
        grows(b, w.out),
    ensures
        step_grows(b, combine_one(sc, w, op, inner, v)),
{
    own_big_one(b, sc, w, Type::BigInt, v, Seq::empty());
    own_big_one(b, sc, w, Type::BigNum(bignum_precision(sc.sigs, inner)), v, Seq::empty());
}

proof fn own_adopt(b: Out, w: Work, v: Value, ty: Type)
    requires
        grows(b, w.out),
    ensures
        step_grows(b, adopt(w, v, ty)),
{
    own_coerce_to_type(b, w.out, v, ty);
}

pub proof fn own_expr(b: Out, sc: Scope, w: Work, e: ExprV)
    requires
        grows(b, w.out),
    ensures
        step_grows(b, lower_expr(sc, w, e)),
    decreases e, 1int, 0nat,
{
    match e {
        ExprV::Unary(op, inner) => {
            own_expr(b, sc, w, *inner);
            if let Ok((w1, v)) = lower_expr(sc, w, *inner) {
                own_combine_one(b, sc, w1, op, *inner, v);
            }
        },
        ExprV::Binary(_, _, _) => {
            own_pair(b, sc, w, e);
            if let Ok((w1, l, r)) = lower_pair(sc, w, e) {
                own_combine(b, sc, w1, e, l, r);
            }
        },
        ExprV::Call(name, args) => {
            own_call(b, sc, w, name, args);
        },
        ExprV::ArrayIndex(name, ty, index) => {
            if let Type::Array(element) = ty {
                if let Some(k) = variable(sc.bindings, name, ty) {
                    let (o, a) = load(w.out, Repr::Handle, sc.bindings[k].place);
                    let (o, h) = unwrap(o, a);
                    assert(grows(b, o));
                    own_expr(b, sc, with_out(w, o), *index);
                    if let Ok((w1, i)) = lower_expr(sc, with_out(w, o), *index) {
                        if let Ok((o2, p)) = element_place(w1.out, h, i) {
                            assert(grows(b, o2));
                        }
                    }
                }
            }
        },
        ExprV::Length(array) => {
            own_expr(b, sc, w, *array);
        },
        _ => {},
    }
}

pub proof fn own_pair(b: Out, sc: Scope, w: Work, e: ExprV)
    requires
        grows(b, w.out),
    ensures
        lower_pair(sc, w, e) matches Ok((t, l, r)) ==> grows(b, t.out),
    decreases e, 0int, 0nat,
{
    if let ExprV::Binary(l, op, r) = e {
        match (*l, *r) {
            (ExprV::Num(_), ExprV::Num(_)) => {},
            (ExprV::Num(text), other) => {
                own_expr(b, sc, w, other);
                if let Ok((w1, y)) = lower_expr(sc, w, other) {
                    own_literal_with(b, sc, w1, op, text, other, y);
                }
            },
            (other, ExprV::Num(text)) => {
                own_expr(b, sc, w, other);
                if let Ok((w1, x)) = lower_expr(sc, w, other) {
                    own_literal_with(b, sc, w1, op, text, other, x);
                }
            },
            (left, right) => {
                own_expr(b, sc, w, left);
                if let Ok((w1, x)) = lower_expr(sc, w, left) {
                    own_expr(b, sc, w1, right);
                }
            },
        }
    }
}

pub proof fn own_args(b: Out, sc: Scope, w: Work, args: Seq<ExprV>, params: Seq<Type>, n: nat)
    requires
        grows(b, w.out),
    ensures
        lower_args(sc, w, args, params, n) matches Ok((t, vs)) ==> grows(b, t.out),
    decreases args, 1int, n,
{
    if 0 < n <= args.len() {
        own_args(b, sc, w, args, params, (n - 1) as nat);
        if let Ok((w1, vs)) = lower_args(sc, w, args, params, (n - 1) as nat) {
            own_for(b, sc, w1, args[n - 1], params[n - 1]);
        }
    }
}

pub proof fn own_call(b: Out, sc: Scope, w: Work, name: Seq<char>, args: Seq<ExprV>)
    requires
        grows(b, w.out),
    ensures
        step_grows(b, lower_call(sc, w, name, args)),
    decreases args, 2int, 0nat,
{
    if let Some(k) = sig_place(sc.sigs, name, sc.sigs.len() as int) {
        own_args(b, sc, w, args, sc.sigs[k].params, args.len());
    }
}

pub proof fn own_int(b: Out, sc: Scope, w: Work, e: ExprV)
    requires
        grows(b, w.out),
    ensures
        step_grows(b, lower_int(sc, w, e)),
    decreases e, 2int, 0nat,
{
    match e {
        ExprV::Num(_) => {},
        ExprV::Binary(l, op, r) => {
            own_int(b, sc, w, *l);
            if let Ok((w1, x)) = lower_int(sc, w, *l) {
                own_int(b, sc, w1, *r);
                if let Ok((w2, y)) = lower_int(sc, w1, *r) {
                    own_compile_int_binary(b, w2.out, op, x, y);
                }
            }
        },
        ExprV::Unary(op, inner) => {
            own_int(b, sc, w, *inner);
        },
        _ => {
            own_expr(b, sc, w, e);
        },
    }
}

proof fn own_bigint(b: Out, sc: Scope, w: Work, e: ExprV)
    requires
        grows(b, w.out),
    ensures
        step_grows(b, lower_bigint(sc, w, e)),
    decreases e, 2int, 0nat,
{
    match e {
        ExprV::Num(text) => {
            own_big_one(b, sc, w, Type::BigInt, Value { id: 0, repr: Repr::Void }, text);
        },
        ExprV::Binary(l, op, r) => {
            own_bigint(b, sc, w, *l);
            if let Ok((w1, x)) = lower_bigint(sc, w, *l) {
                own_bigint(b, sc, w1, *r);
                if let Ok((w2, y)) = lower_bigint(sc, w1, *r) {
                    own_big_binary(b, w2, Type::BigInt, op, x, y);
                }
            }
        },
        ExprV::Unary(op, inner) => {
            own_bigint(b, sc, w, *inner);
            if let Ok((w1, v)) = lower_bigint(sc, w, *inner) {
                own_big_one(b, sc, w1, Type::BigInt, v, Seq::empty());
            }
        },
        _ => {
            own_expr(b, sc, w, e);
        },
    }
}

pub proof fn own_append(b: Out, o: Out, h: Value, v: Value, element: ElementType)
    requires
        grows(b, o),
    ensures
        grows(b, append(o, h, v, element)),
{
}

pub proof fn own_elements(b: Out, sc: Scope, w: Work, h: Value, es: Seq<ExprV>, element: ElementType, n: nat)
    requires
        grows(b, w.out),
    ensures
        lower_elements(sc, w, h, es, element, n) matches Ok(t) ==> grows(b, t.out),
    decreases es, 1int, n,
{
    if 0 < n <= es.len() {
        own_elements(b, sc, w, h, es, element, (n - 1) as nat);
        if let Ok(w1) = lower_elements(sc, w, h, es, element, (n - 1) as nat) {
            own_for(b, sc, w1, es[n - 1], element_as_type(element));
            if let Ok((w2, v)) = lower_for(sc, w1, es[n - 1], element_as_type(element)) {
                own_append(b, w2.out, h, v, element);
            }
        }
    }
}

pub proof fn own_for(b: Out, sc: Scope, w: Work, e: ExprV, ty: Type)
    requires
        grows(b, w.out),
    ensures
        step_grows(b, lower_for(sc, w, e, ty)),
    decreases e, 3int, 0nat,
{
    match (e, ty) {
        (ExprV::Num(text), Type::BigNum(p)) => {
            let (o, t) = const_str(w.out, text);
            own_coerce_to_bignum(b, o, t, p);
        },
        (ExprV::Num(text), Type::BigInt) => {
            let (o, t) = const_str(w.out, text);
            own_coerce_to_bigint(b, o, t);
        },
        (ExprV::ArrayLiteral(es), Type::Array(element)) => {
            let (o, size) = size_of(w.out, repr_of(element_as_type(element)));
            let (o, h) = call1(o, Rt::ArrayNew, size);
            assert(grows(b, o));
            own_elements(b, sc, with_out(w, o), h, es, element, es.len());
        },
        _ => {
            if spreads_over(e) && ty is Int {
                own_int(b, sc, w, e);
            } else if spreads_over(e) && ty is BigInt {
                own_bigint(b, sc, w, e);
                if let Ok((w1, v)) = lower_bigint(sc, w, e) {
                    own_adopt(b, w1, v, ty);
                }
            } else {
                own_expr(b, sc, w, e);
                if let Ok((w1, v)) = lower_expr(sc, w, e) {
                    own_adopt(b, w1, v, ty);
                }
            }
        },
    }
}

// ---------------------------------------------------------------------------
// Statements
// ---------------------------------------------------------------------------

/// The code of a statement keeps to itself.
pub open spec fn next_grows(b: Out, r: Next) -> bool {
    r matches Ok(s) ==> grows(b, s.out)
}

pub proof fn own_free_temps(b: Out, o: Out, temps: Seq<Temp>, n: nat)
    requires
        grows(b, o),
    ensures
        grows(b, free_temps(o, temps, n)),
    decreases n,
{
    if 0 < n <= temps.len() {
        own_free_temps(b, o, temps, (n - 1) as nat);
    }
}

proof fn own_free_bindings(b: Out, o: Out, bs: Seq<BindingV>, from: int, n: int)
    requires
        grows(b, o),
    ensures
        grows(b, free_bindings(o, bs, from, n)),
    decreases n - from,
{
    if from < n && 0 < n <= bs.len() {
        let o1 = free_slot(o, bs[n - 1].place, bs[n - 1].ty);
        assert(grows(b, o1));
        own_free_bindings(b, o1, bs, from, n - 1);
    }
}

pub proof fn own_free_texts(b: Out, o: Out, texts: Seq<Value>, n: nat)
    requires
        grows(b, o),
    ensures
        grows(b, free_texts(o, texts, n)),
    decreases n,
{
    if 0 < n <= texts.len() {
        own_free_texts(b, o, texts, (n - 1) as nat);
    }
}

pub proof fn own_declare(b: Out, s: State, name: Seq<char>, ty: Type, v: Value)
    requires
        grows(b, s.out),
    ensures
        grows(b, declare(s, name, ty, v).out),
{
}

pub proof fn own_ends(b: Out, s: State, free: bool)
    requires
        grows(b, s.out),
    ensures
        grows(b, pop_scope(s, free).out),
        grows(b, finish(s).out),
{
    own_free_bindings(b, s.out, s.bindings, scope_start(s), s.bindings.len() as int);
    own_free_temps(b, s.out, s.temps, s.temps.len());
}

pub proof fn own_hoist_all(b: Out, s: State, list: Seq<SiteV>, n: nat)
    requires
        grows(b, s.out),
    ensures
        next_grows(b, hoist_all(s, list, n)),
    decreases n,
{
    if 0 < n <= list.len() {
        own_hoist_all(b, s, list, (n - 1) as nat);
        if let Ok(u) = hoist_all(s, list, (n - 1) as nat) {
            let site = list[n - 1];
            let (o, f) = const_float(u.out, site.text);
            let (q, t) = const_str(u.out, site.text);
            if let Type::BigNum(p) = site.ty {
                own_coerce_to_bignum(b, o, f, p);
            }
            own_coerce_to_bigint(b, q, t);
            assert(next_grows(b, hoist_new(u, site)));
        }
    }
}

proof fn own_pieces(b: Out, sc: Scope, w: Work, segments: Seq<SegmentV>, n: nat)
    requires
        grows(b, w.out),
    ensures
        print_pieces(sc, w, segments, n) matches Ok((t, p)) ==> grows(b, t.out),
    decreases n,
{
    if 0 < n <= segments.len() {
        own_pieces(b, sc, w, segments, (n - 1) as nat);
        if let Ok((w1, p)) = print_pieces(sc, w, segments, (n - 1) as nat) {
            if let SegmentV::Expr(e) = segments[n - 1] {
                own_expr(b, sc, w1, e);
                if let Ok((w2, v)) = lower_expr(sc, w1, e) {
                    own_value_fmt(b, w2.out, v);
                }
            }
        }
    }
}

proof fn own_path(b: Out, sc: Scope, w: Work, e: ExprV)
    requires
        grows(b, w.out),
    ensures
        step_grows(b, lower_path(sc, w, e)),
{
    own_expr(b, sc, w, e);
}

proof fn own_write(b: Out, sc: Scope, w: Work, dest: ExprV, args: Seq<Value>)
    requires
        grows(b, w.out),
    ensures
        write_to_file(sc, w, dest, args) matches Ok(t) ==> grows(b, t.out),
{
    own_path(b, sc, w, dest);
}

proof fn own_print(b: Out, sc: Scope, w: Work, segments: Seq<SegmentV>, dest: Option<ExprV>)
    requires
        grows(b, w.out),
    ensures
        lower_print(sc, w, segments, dest) matches Ok(t) ==> grows(b, t.out),
{
    own_pieces(b, sc, w, segments, segments.len());
    if let Ok((w1, p)) = print_segments(sc, w, segments) {
        let (o, format) = const_str(w1.out, p.format);
        let args = seq![format] + p.args;
        assert(grows(b, o));
        match dest {
            None => {
                let (o1, _) = call_list(o, Rt::Printf, args);
                assert(grows(b, o1));
                own_free_texts(b, o1, p.frees, p.frees.len());
            },
            Some(e) => {
                own_write(b, sc, with_out(w1, o), e, args);
                if let Ok(w2) = write_to_file(sc, with_out(w1, o), e, args) {
                    own_free_texts(b, w2.out, p.frees, p.frees.len());
                }
            },
        }
    }
}

proof fn own_input(b: Out, sc: Scope, w: Work, ty: Type, source: Option<ExprV>)
    requires
        grows(b, w.out),
    ensures
        step_grows(b, read_input(sc, w, ty, source)),
{
    if let Some(e) = source {
        own_path(b, sc, w, e);
    }
}

proof fn own_assign_element(b: Out, sc: Scope, w: Work, name: Seq<char>, ty: Type, index: ExprV, value: ExprV)
    requires
        grows(b, w.out),
    ensures
        assign_element(sc, w, name, ty, index, value) matches Ok(t) ==> grows(b, t.out),
{
    if let Type::Array(element) = ty {
        if let Some(k) = variable(sc.bindings, name, ty) {
            let (o, a) = load(w.out, Repr::Handle, sc.bindings[k].place);
            let (o, h) = unwrap(o, a);
            assert(grows(b, o));
            own_expr(b, sc, with_out(w, o), index);
            if let Ok((w1, i)) = lower_expr(sc, with_out(w, o), index) {
                if let Ok((o2, p)) = element_place(w1.out, h, i) {
                    assert(grows(b, o2));
                    own_for(b, sc, with_out(w1, o2), value, element_as_type(element));
                }
            }
        }
    }
}

proof fn own_lower_append(b: Out, sc: Scope, w: Work, array: ExprV, value: ExprV)
    requires
        grows(b, w.out),
    ensures
        lower_append(sc, w, array, value) matches Ok(t) ==> grows(b, t.out),
{
    if let ExprV::Var(name, Type::Array(element)) = array {
        if let Some(k) = variable(sc.bindings, name, Type::Array(element)) {
            let (o, a) = load(w.out, Repr::Handle, sc.bindings[k].place);
            let (o, h) = unwrap(o, a);
            assert(grows(b, o));
            own_for(b, sc, with_out(w, o), value, element_as_type(element));
        }
    }
}

proof fn own_return(b: Out, f: Frame, s: State, e: Option<ExprV>)
    requires
        grows(b, s.out),
    ensures
        next_grows(b, lower_return(f, s, e)),
{
    let w = match e {
        None => work(s),
        Some(e) => {
            own_for(b, scope(f, s), work(s), e, f.return_type);
            match lower_for(scope(f, s), work(s), e, f.return_type) {
                Ok((w, v)) => w,
                Err(_) => work(s),
            }
        },
    };
    own_free_temps(b, w.out, w.temps, w.temps.len());
    own_free_bindings(b, free_temps(w.out, w.temps, w.temps.len()), s.bindings, 0, s.bindings.len() as int);
}

pub proof fn own_condition(b: Out, f: Frame, s: State, cond: ExprV)
    requires
        grows(b, s.out),
    ensures
        lower_condition(f, s, cond) matches Ok((t, v)) ==> grows(b, t.out),
{
    own_expr(b, scope(f, s), work(s), cond);
    if let Ok((w, v)) = lower_expr(scope(f, s), work(s), cond) {
        own_ends(b, done(s, w), true);
    }
}

proof fn own_action(b: Out, f: Frame, s: State, stmt: StmtV)
    requires
        grows(b, s.out),
    ensures
        next_grows(b, lower_action(f, s, stmt)),
    decreases stmt, 1nat, 0nat,
{
    let sc = scope(f, s);
    let w = work(s);
    match stmt {
        StmtV::VarDecl(name, ty, e) => {
            own_for(b, sc, w, e, ty);
            if let Ok((w1, v)) = lower_for(sc, w, e, ty) {
                own_declare(b, done(s, w1), name, ty, v);
            }
        },
        StmtV::Input(name, ty, source) => {
            own_input(b, sc, w, ty, source);
            if let Ok((w1, v)) = read_input(sc, w, ty, source) {
                own_declare(b, done(s, w1), name, ty, v);
            }
        },
        StmtV::Clock(name, ty) => {
            if let Type::Num(width) = ty {
                let (o, n) = call0(s.out, Rt::ClockElapsed);
                let (o, v) = coerce_float(o, n, width);
                assert(grows(b, o));
                own_declare(b, emitted(s, o), name, ty, v);
            }
        },
        StmtV::Assign(name, ty, e) => {
            own_for(b, sc, w, e, ty);
        },
        StmtV::ArrayIndexAssign(name, ty, index, value) => own_assign_element(b, sc, w, name, ty, index, value),
        StmtV::Append(array, value) => own_lower_append(b, sc, w, array, value),
        StmtV::Return(e) => own_return(b, f, s, e),
        StmtV::Print(segments, dest) => own_print(b, sc, w, segments, dest),
        StmtV::Overwrite(segments, dest) => own_print(b, sc, w, segments, Some(dest)),
        StmtV::Read(source) => own_path(b, sc, w, source),
        StmtV::ExprStmt(e) => {
            own_expr(b, sc, w, e);
            if let ExprV::Call(name, args) = e {
                own_call(b, sc, w, name, args);
            }
        },
        StmtV::If(_, _, _) => own_if(b, f, s, stmt),
        StmtV::While(_, _) => own_while(b, f, s, stmt),
    }
}

#[verifier::rlimit(60)]
proof fn own_if(b: Out, f: Frame, s: State, stmt: StmtV)
    requires
        grows(b, s.out),
    ensures
        next_grows(b, lower_if(f, s, stmt)),
    decreases stmt, 0nat, 0nat,
{
    if let StmtV::If(cond, then_block, else_block) = stmt {
        own_condition(b, f, s, cond);
        if let Ok((s1, v)) = lower_condition(f, s, cond) {
            own_block(b, s1.out, "then"@);
            let (o1, yes) = block(s1.out, "then"@);
            own_block(b, o1, "else"@);
            let (o2, no) = block(o1, "else"@);
            own_block(b, o2, "merge"@);
            let (o3, next) = block(o2, "merge"@);
            own_branch(b, o3, v, yes, no);
            let o4 = branch(o3, v, yes, no);
            own_arm(b, f, emitted(s1, o4), yes, then_block, next);
            if let Ok(s2) = lower_arm(f, emitted(s1, o4), yes, then_block, next) {
                own_other(b, f, s2, no, else_block, next);
            }
        }
    }
}

/// The second branch of an `if`, and the block behind it.
pub open spec fn lower_other(f: Frame, s: State, no: Value, else_block: Option<Seq<StmtV>>, next: Value) -> Next
{
    let other = match else_block {
        Some(b) => lower_arm(f, s, no, b, next),
        None => Ok(close_branch(emitted(s, at(s.out, no)), next)),
    };
    match other {
        Err(m) => Err(m),
        Ok(s) => Ok(emitted(s, at(s.out, next))),
    }
}

proof fn own_other(b: Out, f: Frame, s: State, no: Value, else_block: Option<Seq<StmtV>>, next: Value)
    requires
        grows(b, s.out),
        mine(b, no, s.out),
        mine(b, next, s.out),
    ensures
        next_grows(b, lower_other(f, s, no, else_block, next)),
    decreases else_block, 5nat, 0nat,
{
    match else_block {
        Some(body) => {
            own_arm(b, f, s, no, body, next);
            if let Ok(t) = lower_arm(f, s, no, body, next) {
                own_at(b, t.out, next);
            }
        },
        None => {
            own_at(b, s.out, no);
            let t = close_branch(emitted(s, at(s.out, no)), next);
            own_jump(b, at(s.out, no), next);
            own_at(b, t.out, next);
        },
    }
}

proof fn own_arm(b: Out, f: Frame, s: State, start: Value, body: Seq<StmtV>, next: Value)
    requires
        grows(b, s.out),
        mine(b, start, s.out),
    ensures
        next_grows(b, lower_arm(f, s, start, body, next)),
        lower_arm(f, s, start, body, next) matches Ok(t) ==> s.out.code.len() <= t.out.code.len(),
    decreases body, 4nat, 0nat,
{
    own_at(b, s.out, start);
    let s1 = emitted(s, at(s.out, start));
    own_lower_block(b, f, s1, body);
    lemma_same(s1.out);
    own_lower_block(s1.out, f, s1, body);
    if let Ok(t) = lower_block(f, s1, body) {
        lemma_longer(s1.out, t.out);
        own_jump(b, t.out, next);
    }
}

proof fn own_while(b: Out, f: Frame, s: State, stmt: StmtV)
    requires
        grows(b, s.out),
    ensures
        next_grows(b, lower_while(f, s, stmt)),
    decreases stmt, 0nat, 0nat,
{
    if let StmtV::While(cond, body) = stmt {
        own_block(b, s.out, "while_cond"@);
        let (o1, head) = block(s.out, "while_cond"@);
        own_block(b, o1, "while_body"@);
        let (o2, inside) = block(o1, "while_body"@);
        own_block(b, o2, "while_end"@);
        let (o3, next) = block(o2, "while_end"@);
        let list = sites(f.sigs, cond) + block_sites(f.sigs, body, body.len());
        let s1 = push_scope(emitted(s, o3));
        own_hoist_all(b, s1, list, list.len());
        lemma_same(o3);
        own_hoist_all(o3, s1, list, list.len());
        if let Ok(s2) = hoist_all(s1, list, list.len()) {
            lemma_longer(o3, s2.out);
            own_jump(b, s2.out, head);
            let o4 = jump(s2.out, head);
            own_at(b, o4, head);
            let s3 = emitted(s2, at(o4, head));
            own_condition(b, f, s3, cond);
            lemma_same(s3.out);
            own_condition(s3.out, f, s3, cond);
            if let Ok((s4, v)) = lower_condition(f, s3, cond) {
                lemma_longer(s3.out, s4.out);
                own_branch(b, s4.out, v, inside, next);
                let s5 = emitted(s4, branch(s4.out, v, inside, next));
                own_arm(b, f, s5, inside, body, head);
                if let Ok(s6) = lower_arm(f, s5, inside, body, head) {
                    own_at(b, s6.out, next);
                    own_ends(b, emitted(s6, at(s6.out, next)), true);
                }
            }
        }
    }
}

proof fn own_stmt(b: Out, f: Frame, s: State, stmt: StmtV)
    requires
        grows(b, s.out),
    ensures
        next_grows(b, lower_stmt(f, s, stmt)),
    decreases stmt, 2nat, 0nat,
{
    own_action(b, f, s, stmt);
    if let Ok(t) = lower_action(f, s, stmt) {
        own_ends(b, t, true);
    }
}

proof fn own_stmts(b: Out, f: Frame, s: State, body: Seq<StmtV>, n: nat)
    requires
        grows(b, s.out),
    ensures
        next_grows(b, lower_stmts(f, s, body, n)),
    decreases body, 2nat, n,
{
    if 0 < n <= body.len() {
        own_stmts(b, f, s, body, (n - 1) as nat);
        if let Ok(t) = lower_stmts(f, s, body, (n - 1) as nat) {
            if !t.out.ended {
                own_stmt(b, f, t, body[n - 1]);
            }
        }
    }
}

pub proof fn own_lower_block(b: Out, f: Frame, s: State, body: Seq<StmtV>)
    requires
        grows(b, s.out),
    ensures
        next_grows(b, lower_block(f, s, body)),
    decreases body, 3nat, 0nat,
{
    own_stmts(b, f, push_scope(s), body, body.len());
    if let Ok(t) = lower_stmts(f, push_scope(s), body, body.len()) {
        own_ends(b, t, !t.out.ended);
    }
}

/// What a statement is lowered to is added to the code before it, and goes on only at blocks of its
/// own.
pub proof fn statements_keep_to_themselves(f: Frame, s: State, stmt: StmtV)
    ensures
        lower_stmt(f, s, stmt) matches Ok(t) ==> grows(s.out, t.out),
{
    lemma_same(s.out);
    own_stmt(s.out, f, s, stmt);
}

} // verus!
