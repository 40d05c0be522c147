//! What the type checker accepts can be lowered: expressions.

use vstd::prelude::*;
use crate::ast::{element_as_type, BinOp, ElementType, ExprV, Type, UnOp};
use crate::emit::{
    call1, call_function, coerce_float, const_float, const_int, const_str, give1, load, size_of, unwrap, Out,
};
use crate::ir::{repr_of, Repr, Rt, Value};
use crate::lower::{
    adopt, big_binary, bigint_literal, bignum_precision, combine, combine_one, element_place, hoisted, keep,
    keep_big, literal_with, lower_args, lower_bigint, lower_call, lower_elements, lower_expr, lower_for, lower_int,
    lower_pair, precision_of, sig_place, spreads_over, variable, with_out, Scope, Step, Work,
};
use crate::shapes::{
    can_show, lemma_bool_binary, lemma_coerce_int, lemma_concat, lemma_constants, lemma_factorial,
    lemma_float_binary, lemma_int_binary, lemma_int_unary, lemma_load, lemma_order, lemma_repr_of, lemma_to_bigint,
    lemma_to_bignum, lemma_to_type, lemma_wrap, represents,
};
use crate::typing::{
    apply_binary, apply_unary, callee, can_coerce, check, check_args, check_call, check_elements, check_for,
    check_pair, check_spread, find_sig, index_problems, is_arithmetic, is_comparison, literal_as_bigint,
    literal_as_int, literal_beside, spread_unary, spreads, var_problems, SigV, Visible,
};
use crate::wellformed::{wf_expr, wf_exprs, wf_type};

verus! {

/// Whether the types of a signature make sense.
pub open spec fn wf_sig(s: SigV) -> bool {
    &&& forall|i: int| 0 <= i < s.params.len() ==> wf_type(#[trigger] s.params[i])
    &&& s.return_type is Void || wf_type(s.return_type)
}

/// Whether the types of signatures make sense.
pub open spec fn wf_sigs(sigs: Seq<SigV>) -> bool {
    forall|i: int| 0 <= i < sigs.len() ==> wf_sig(#[trigger] sigs[i])
}

/// What is visible to the checker is there for the lowering.
pub open spec fn agree(at: Visible, sc: Scope) -> bool {
    &&& at.sigs == sc.sigs
    &&& wf_sigs(at.sigs)
    &&& forall|i: int|
        0 <= i < at.vars.len() ==> {
            &&& wf_type((#[trigger] at.vars[i]).ty)
            &&& variable(sc.bindings, at.vars[i].name, at.vars[i].ty) is Some
        }
}

/// A step that gives a value of type `ty`.
pub open spec fn gives(s: Step, ty: Type) -> bool {
    s matches Ok(r) && represents(r.1.repr, ty)
}

proof fn lemma_declared(at: Visible, sc: Scope, name: Seq<char>, ty: Type)
    requires
        agree(at, sc),
        var_problems(at.vars, name, ty).len() == 0,
    ensures
        wf_type(ty),
        variable(sc.bindings, name, ty) is Some,
{
    reveal(var_problems);
    let i = choose|i: int| 0 <= i < at.vars.len() && (#[trigger] at.vars[i]).name == name && at.vars[i].ty == ty;
    assert(at.vars[i].name == name);
}

proof fn lemma_callee(sigs: Seq<SigV>, name: Seq<char>, n: int)
    ensures
        match find_sig(sigs, name, n) {
            Some(sig) => sig_place(sigs, name, n) matches Some(k) && 0 <= k < sigs.len() && sigs[k] == sig,
            None => sig_place(sigs, name, n) is None,
        },
    decreases n,
{
    if 0 < n <= sigs.len() && sigs[n - 1].name != name {
        lemma_callee(sigs, name, n - 1);
    }
}

// ---------------------------------------------------------------------------
// The precision of a bignum
// ---------------------------------------------------------------------------

/// The lowering knows the precision of every bignum: an expression without problems is a `bignum`
/// of precision `p` exactly when the lowering finds the precision `p` for it.
pub proof fn precisions_agree(at: Visible, e: ExprV)
    requires
        check(at, e).1.len() == 0,
        check(at, e).0 is Some,
    ensures
        match check(at, e).0 {
            Some(Type::BigNum(p)) => precision_of(at.sigs, e) == Some(p),
            _ => precision_of(at.sigs, e) is None,
        },
    decreases e,
{
    reveal(apply_unary);
    reveal(apply_binary);
    reveal(literal_beside);
    reveal(literal_as_int);
    reveal(literal_as_bigint);
    match e {
        ExprV::Unary(op, inner) => {
            precisions_agree(at, *inner);
        },
        ExprV::Binary(l, op, r) => {
            let (lt, rt, errors) = check_pair(at, e);
            assert(lt is Some && rt is Some && errors.len() == 0);
            if !(*l is Num) {
                precisions_agree(at, *l);
            }
            if !(*r is Num) {
                precisions_agree(at, *r);
            }
        },
        ExprV::Call(name, args) => {
            let (t, _) = check_call(at, name, args);
            assert(callee(at.sigs, name) matches Some(sig) && t == Some(sig.return_type));
        },
        _ => {},
    }
}

// ---------------------------------------------------------------------------
// Operators
// ---------------------------------------------------------------------------

proof fn lemma_keep_big(w: Work, o: Out, h: Value, ty: Type)
    ensures
        keep_big(w, o, h, ty).1.repr == repr_of(ty),
{
    lemma_wrap(o, repr_of(ty), h);
}

proof fn lemma_big_binary(w: Work, ty: Type, op: BinOp, l: Value, r: Value)
    requires
        ty is BigNum || ty is BigInt,
        is_arithmetic(op) || is_comparison(op),
    ensures
        big_binary(w, ty, op, l, r) matches Ok(x) && x.1.repr == if is_comparison(op) {
            Repr::Int(1)
        } else {
            repr_of(ty)
        },
{
    assert forall|o: Out, f: Rt| (#[trigger] crate::emit::compile_order(o, op, f, l, r)).1.repr == Repr::Int(1) by {
        lemma_order(o, op, f, l, r);
    }
    assert forall|w: Work, o: Out, h: Value| (#[trigger] keep_big(w, o, h, ty)).1.repr == repr_of(ty) by {
        lemma_keep_big(w, o, h, ty);
    }
}

proof fn lemma_bigint_literal(sc: Scope, w: Work, text: Seq<char>)
    ensures
        bigint_literal(sc, w, text).1.repr == Repr::BigInt,
{
    match hoisted(sc.bindings, text, Type::BigInt) {
        Some(k) => lemma_load(w.out, Repr::BigInt, sc.bindings[k].place),
        None => {
            assert forall|w: Work, o: Out, h: Value|
                (#[trigger] keep_big(w, o, h, Type::BigInt)).1.repr == Repr::BigInt by {
                lemma_keep_big(w, o, h, Type::BigInt);
            }
        },
    }
}

/// A literal next to an operand of type `t`: it has the type that the checker gives it, but next
/// to a bignum it may be a bignum already.
proof fn lemma_literal_with(at: Visible, sc: Scope, w: Work, op: BinOp, text: Seq<char>, other: ExprV, v: Value, t: Type)
    requires
        agree(at, sc),
        check(at, other).1.len() == 0,
        check(at, other).0 == Some(t),
        represents(v.repr, t),
        literal_beside(text, op, Some(t)).1.len() == 0,
    ensures
        literal_beside(text, op, Some(t)).0 is Some,
        ({
            let x = literal_with(sc, w, op, text, other, v).1;
            ||| represents(x.repr, literal_beside(text, op, Some(t)).0->0)
            ||| t is BigNum && !(op is Concat) && x.repr == Repr::Handle
        }),
{
    reveal(literal_beside);
    reveal(literal_as_int);
    reveal(literal_as_bigint);
    precisions_agree(at, other);
    lemma_bigint_literal(sc, w, text);
    lemma_constants(w.out, text, 64, crate::lower::int_literal(text));
    let (o, c) = const_int(w.out, 64, crate::lower::int_literal(text));
    if let Repr::Int(width) = v.repr {
        lemma_coerce_int(o, c, width);
        lemma_coerce_int(o, c, 64);
    }
    if let Type::BigNum(p) = t {
        if let Some(k) = hoisted(sc.bindings, text, Type::BigNum(p)) {
            lemma_load(w.out, Repr::Handle, sc.bindings[k].place);
        }
    }
}

/// The representation of an operand of type `t`: that of a bignum may stand for a num next to a
/// bignum.
pub open spec fn operand(repr: Repr, t: Type, other: Type) -> bool {
    represents(repr, t) || (other is BigNum && t is Num && repr == Repr::Handle)
}

proof fn lemma_shows(repr: Repr, t: Type)
    requires
        represents(repr, t),
    ensures
        can_show(repr),
{
}

proof fn lemma_combine(sc: Scope, w: Work, e: ExprV, l: Value, r: Value, lt: Type, rt: Type)
    requires
        e is Binary,
        apply_binary(e->Binary_1, Some(lt), Some(rt)).1.len() == 0,
        e->Binary_1 is Concat ==> represents(l.repr, lt) && represents(r.repr, rt),
        operand(l.repr, lt, rt),
        operand(r.repr, rt, lt),
    ensures
        apply_binary(e->Binary_1, Some(lt), Some(rt)).0 is Some,
        gives(combine(sc, w, e, l, r), apply_binary(e->Binary_1, Some(lt), Some(rt)).0->0),
{
    reveal(apply_binary);
    let op = e->Binary_1;
    let le = *e->Binary_0;
    let re = *e->Binary_2;
    if op is Concat {
        lemma_shows(l.repr, lt);
        lemma_shows(r.repr, rt);
        lemma_concat(w.out, l, r);
    } else {
        match (lt, rt) {
            (Type::Num(_) | Type::NumW(_), Type::Num(_) | Type::NumW(_)) => {
                lemma_float_binary(w.out, op, l, r);
            },
            (Type::Bool, Type::Bool) => {
                lemma_bool_binary(w.out, op, l, r);
            },
            (Type::Int(_), Type::Int(_)) => {
                lemma_int_binary(w.out, op, l, r, l.repr->Int_0, r.repr->Int_0);
            },
            (Type::BigInt, Type::BigInt) => {
                lemma_big_binary(w, Type::BigInt, op, l, r);
            },
            _ => {
                let q = Type::BigNum(bignum_precision(sc.sigs, e));
                assert(is_arithmetic(op) || is_comparison(op));
                lemma_big_binary(w, q, op, l, r);
                if r.repr is Float {
                    let p = bignum_precision(sc.sigs, le);
                    lemma_to_bignum(w.out, r, p);
                    let (o, b) = crate::emit::coerce_to_bignum(w.out, r, p)->Ok_0;
                    lemma_big_binary(keep(w, o, b, Type::BigNum(p)), q, op, l, b);
                } else if l.repr is Float {
                    let p = bignum_precision(sc.sigs, re);
                    lemma_to_bignum(w.out, l, p);
                    let (o, a) = crate::emit::coerce_to_bignum(w.out, l, p)->Ok_0;
                    lemma_big_binary(keep(w, o, a, Type::BigNum(p)), q, op, a, r);
                }
            },
        }
    }
}

proof fn lemma_combine_one(sc: Scope, w: Work, op: UnOp, inner: ExprV, v: Value, t: Type)
    requires
        apply_unary(op, Some(t)).1.len() == 0,
        represents(v.repr, t),
    ensures
        apply_unary(op, Some(t)).0 is Some,
        gives(combine_one(sc, w, op, inner, v), apply_unary(op, Some(t)).0->0),
{
    reveal(apply_unary);
    reveal(give1);
    match v.repr {
        Repr::Int(width) => lemma_int_unary(w.out, v, width),
        Repr::Float(_) => {
            let (o, f) = coerce_float(w.out, v, 64);
            lemma_factorial(o, f);
        },
        _ => {
            assert forall|w: Work, o: Out, h: Value, ty: Type| (#[trigger] keep_big(w, o, h, ty)).1.repr == repr_of(ty) by {
                lemma_keep_big(w, o, h, ty);
            }
        },
    }
}

proof fn lemma_adopt(w: Work, v: Value, from: Type, ty: Type)
    requires
        represents(v.repr, from),
        can_coerce(from, ty),
    ensures
        adopt(w, v, ty) is Ok,
{
    lemma_to_type(w.out, v, from, ty);
}

// ---------------------------------------------------------------------------
// Expressions
// ---------------------------------------------------------------------------

/// An expression without problems has a type, and lowering it gives a value of that type.
pub proof fn lemma_expr(at: Visible, sc: Scope, w: Work, e: ExprV)
    requires
        agree(at, sc),
        wf_expr(e),
        check(at, e).1.len() == 0,
    ensures
        check(at, e).0 is Some,
        gives(lower_expr(sc, w, e), check(at, e).0->0),
    decreases e, 1int, 0nat,
{
    match e {
        ExprV::Num(text) => lemma_constants(w.out, text, 1, 0),
        ExprV::Bool(b) => lemma_constants(
            w.out,
            Seq::empty(),
            1,
            if b {
                1
            } else {
                0
            },
        ),
        ExprV::Str(s) => lemma_constants(w.out, s, 1, 0),
        ExprV::Var(name, ty) => {
            lemma_declared(at, sc, name, ty);
            let k = variable(sc.bindings, name, ty)->0;
            lemma_load(w.out, repr_of(ty), sc.bindings[k].place);
            lemma_repr_of(ty);
        },
        ExprV::Unary(op, inner) => {
            lemma_expr(at, sc, w, *inner);
            let t = check(at, *inner).0->0;
            let (w2, v) = lower_expr(sc, w, *inner)->Ok_0;
            lemma_combine_one(sc, w2, op, *inner, v, t);
        },
        ExprV::Binary(l, op, r) => {
            lemma_pair(at, sc, w, e);
            let (lt, rt, _) = check_pair(at, e);
            let (w2, x, y) = lower_pair(sc, w, e)->Ok_0;
            lemma_combine(sc, w2, e, x, y, lt->0, rt->0);
        },
        ExprV::Call(name, args) => {
            lemma_call(at, sc, w, name, args);
            let ret = check_call(at, name, args).0->0;
            assert(!(ret is Void));
            lemma_repr_of(ret);
        },
        ExprV::ArrayLiteral(_) => {},
        ExprV::ArrayIndex(name, ty, index) => {
            reveal(index_problems);
            lemma_declared(at, sc, name, ty);
            let element = ty->Array_0;
            let k = variable(sc.bindings, name, ty)->0;
            let (o, a) = load(w.out, Repr::Handle, sc.bindings[k].place);
            let (o, h) = unwrap(o, a);
            lemma_expr(at, sc, with_out(w, o), *index);
            let (w2, i) = lower_expr(sc, with_out(w, o), *index)->Ok_0;
            let (o2, p) = element_place(w2.out, h, i)->Ok_0;
            lemma_load(o2, repr_of(element_as_type(element)), p);
            lemma_repr_of(element_as_type(element));
        },
        ExprV::Length(array) => {
            lemma_expr(at, sc, w, *array);
            reveal(give1);
        },
    }
}

proof fn lemma_pair(at: Visible, sc: Scope, w: Work, e: ExprV)
    requires
        agree(at, sc),
        wf_expr(e),
        e is Binary,
        check_pair(at, e).2.len() == 0,
    ensures
        ({
            let (lt, rt, _) = check_pair(at, e);
            &&& lt is Some
            &&& rt is Some
            &&& lower_pair(sc, w, e) matches Ok(r) && operand(r.1.repr, lt->0, rt->0) && operand(
                r.2.repr,
                rt->0,
                lt->0,
            ) && (e->Binary_1 is Concat ==> represents(r.1.repr, lt->0) && represents(r.2.repr, rt->0))
        }),
    decreases e, 0int, 0nat,
{
    reveal(literal_beside);
    reveal(literal_as_int);
    reveal(literal_as_bigint);
    if let ExprV::Binary(l, op, r) = e {
        match (*l, *r) {
            (ExprV::Num(a), ExprV::Num(b)) => {
                lemma_constants(w.out, a, 1, 0);
                let (o, _) = const_float(w.out, a);
                lemma_constants(o, b, 1, 0);
            },
            (ExprV::Num(text), other) => {
                lemma_expr(at, sc, w, other);
                let (w2, y) = lower_expr(sc, w, other)->Ok_0;
                lemma_literal_with(at, sc, w2, op, text, other, y, check(at, other).0->0);
            },
            (other, ExprV::Num(text)) => {
                lemma_expr(at, sc, w, other);
                let (w2, x) = lower_expr(sc, w, other)->Ok_0;
                lemma_literal_with(at, sc, w2, op, text, other, x, check(at, other).0->0);
            },
            (left, right) => {
                lemma_expr(at, sc, w, left);
                let (w2, x) = lower_expr(sc, w, left)->Ok_0;
                lemma_expr(at, sc, w2, right);
            },
        }
    }
}

/// A call without problems can be lowered, and gives what the function gives.
pub proof fn lemma_call(at: Visible, sc: Scope, w: Work, name: Seq<char>, args: Seq<ExprV>)
    requires
        agree(at, sc),
        wf_exprs(args),
        check_call(at, name, args).1.len() == 0,
    ensures
        check_call(at, name, args).0 matches Some(ret) && (ret is Void || wf_type(ret)) && (lower_call(
            sc,
            w,
            name,
            args,
        ) matches Ok(r) && r.1.repr == repr_of(ret)),
    decreases args, 2int, 0nat,
{
    lemma_callee(at.sigs, name, at.sigs.len() as int);
    match callee(at.sigs, name) {
        None => {},
        Some(sig) => {
            let k = sig_place(at.sigs, name, at.sigs.len() as int)->0;
            assert(wf_sig(at.sigs[k]));
            if args.len() == sig.params.len() {
                lemma_args(at, sc, w, name, args, sig.params, args.len());
                let (w2, vs) = lower_args(sc, w, args, sig.params, args.len())->Ok_0;
                reveal(call_function);
            }
        },
    }
}

proof fn lemma_args(at: Visible, sc: Scope, w: Work, name: Seq<char>, args: Seq<ExprV>, params: Seq<Type>, n: nat)
    requires
        agree(at, sc),
        wf_exprs(args),
        n <= args.len(),
        args.len() == params.len(),
        forall|i: int| 0 <= i < params.len() ==> wf_type(#[trigger] params[i]),
        check_args(at, name, args, params, n).1.len() == 0,
    ensures
        check_args(at, name, args, params, n).0,
        lower_args(sc, w, args, params, n) is Ok,
    decreases args, 1int, n,
{
    if n > 0 {
        lemma_args(at, sc, w, name, args, params, (n - 1) as nat);
        let (w2, vs) = lower_args(sc, w, args, params, (n - 1) as nat)->Ok_0;
        assert(wf_expr(args[n - 1]));
        assert(wf_type(params[n - 1]));
        lemma_for(at, sc, w2, args[n - 1], params[n - 1]);
    }
}

proof fn lemma_elements(at: Visible, sc: Scope, w: Work, h: Value, es: Seq<ExprV>, element: ElementType, n: nat)
    requires
        agree(at, sc),
        wf_exprs(es),
        wf_type(element_as_type(element)),
        n <= es.len(),
        check_elements(at, es, element, n).1.len() == 0,
    ensures
        check_elements(at, es, element, n).0,
        lower_elements(sc, w, h, es, element, n) is Ok,
    decreases es, 1int, n,
{
    if n > 0 {
        lemma_elements(at, sc, w, h, es, element, (n - 1) as nat);
        let w2 = lower_elements(sc, w, h, es, element, (n - 1) as nat)->Ok_0;
        assert(wf_expr(es[n - 1]));
        lemma_for(at, sc, w2, es[n - 1], element_as_type(element));
    }
}

/// An expression of operators without problems that has to be an `int` has a type, and if that is
/// `int`, lowering it gives one.
proof fn lemma_spread_int(at: Visible, sc: Scope, w: Work, e: ExprV, width: u32)
    requires
        agree(at, sc),
        wf_expr(e),
        check_spread(at, e, Type::Int(width)).1.len() == 0,
    ensures
        check_spread(at, e, Type::Int(width)).0 is Some,
        check_spread(at, e, Type::Int(width)).0->0 is Int ==> gives(
            lower_int(sc, w, e),
            check_spread(at, e, Type::Int(width)).0->0,
        ),
    decreases e, 2int, 0nat,
{
    reveal(literal_as_int);
    reveal(spread_unary);
    reveal(apply_unary);
    reveal(apply_binary);
    let target = Type::Int(width);
    if !spreads(e, target) {
        lemma_expr(at, sc, w, e);
        if let ExprV::Binary(l, op, r) = e {
            assert(check(at, e).0 == Some(Type::Str));
        }
    } else {
        match e {
            ExprV::Num(text) => {
                lemma_constants(w.out, text, 64, crate::lower::int_literal(text));
            },
            ExprV::Unary(op, inner) => {
                lemma_spread_int(at, sc, w, *inner, width);
                if check_spread(at, e, target).0->0 is Int {
                    let (w2, v) = lower_int(sc, w, *inner)->Ok_0;
                    lemma_int_unary(w2.out, v, v.repr->Int_0);
                }
            },
            ExprV::Binary(l, op, r) => {
                lemma_spread_int(at, sc, w, *l, width);
                if check_spread(at, e, target).0->0 is Int {
                    let (w2, x) = lower_int(sc, w, *l)->Ok_0;
                    lemma_spread_int(at, sc, w2, *r, width);
                    let (w3, y) = lower_int(sc, w2, *r)->Ok_0;
                    lemma_int_binary(w3.out, op, x, y, x.repr->Int_0, y.repr->Int_0);
                } else {
                    lemma_spread_int(at, sc, w, *r, width);
                }
            },
            _ => {},
        }
    }
}

/// An expression of operators without problems that has to be a `bigint` has a type, and if that
/// is `bigint`, lowering it gives one.
proof fn lemma_spread_bigint(at: Visible, sc: Scope, w: Work, e: ExprV)
    requires
        agree(at, sc),
        wf_expr(e),
        check_spread(at, e, Type::BigInt).1.len() == 0,
    ensures
        check_spread(at, e, Type::BigInt).0 is Some,
        check_spread(at, e, Type::BigInt).0->0 is BigInt ==> gives(lower_bigint(sc, w, e), Type::BigInt),
    decreases e, 2int, 0nat,
{
    reveal(literal_as_bigint);
    reveal(spread_unary);
    reveal(apply_unary);
    reveal(apply_binary);
    let target = Type::BigInt;
    if !spreads(e, target) {
        lemma_expr(at, sc, w, e);
        if let ExprV::Binary(l, op, r) = e {
            assert(check(at, e).0 == Some(Type::Str));
        }
    } else {
        match e {
            ExprV::Num(text) => {
                lemma_bigint_literal(sc, w, text);
            },
            ExprV::Unary(op, inner) => {
                lemma_spread_bigint(at, sc, w, *inner);
                if check_spread(at, e, target).0->0 is BigInt {
                    let (w2, v) = lower_bigint(sc, w, *inner)->Ok_0;
                    assert forall|w: Work, o: Out, h: Value|
                        (#[trigger] keep_big(w, o, h, Type::BigInt)).1.repr == Repr::BigInt by {
                        lemma_keep_big(w, o, h, Type::BigInt);
                    }
                }
            },
            ExprV::Binary(l, op, r) => {
                lemma_spread_bigint(at, sc, w, *l);
                if check_spread(at, e, target).0->0 is BigInt {
                    let (w2, x) = lower_bigint(sc, w, *l)->Ok_0;
                    lemma_spread_bigint(at, sc, w2, *r);
                    let (w3, y) = lower_bigint(sc, w2, *r)->Ok_0;
                    lemma_big_binary(w3, Type::BigInt, op, x, y);
                } else {
                    lemma_spread_bigint(at, sc, w, *r);
                }
            },
            _ => {},
        }
    }
}

/// An expression without problems that is to be stored, passed or returned as `ty` has a type,
/// and if that can be converted to `ty`, the expression can be lowered.
pub proof fn lemma_for(at: Visible, sc: Scope, w: Work, e: ExprV, ty: Type)
    requires
        agree(at, sc),
        wf_expr(e),
        ty is Void || wf_type(ty),
        check_for(at, e, ty).1.len() == 0,
    ensures
        check_for(at, e, ty).0 is Some,
        can_coerce(check_for(at, e, ty).0->0, ty) ==> lower_for(sc, w, e, ty) is Ok,
    decreases e, 3int, 0nat,
{
    reveal(literal_as_int);
    reveal(literal_as_bigint);
    match (e, ty) {
        (ExprV::Num(text), Type::Int(width)) => {
            lemma_constants(w.out, text, 64, crate::lower::int_literal(text));
        },
        (ExprV::Num(text), Type::BigNum(p)) => {
            let (o, t) = const_str(w.out, text);
            lemma_constants(w.out, text, 1, 0);
            lemma_to_bignum(o, t, p);
            assert(check_spread(at, e, ty) == check(at, e));
        },
        (ExprV::Num(text), Type::BigInt) => {
            let (o, t) = const_str(w.out, text);
            lemma_constants(w.out, text, 1, 0);
            lemma_to_bigint(o, t);
            assert(check_spread(at, e, ty).0 is Some);
        },
        (ExprV::ArrayLiteral(es), Type::Array(element)) => {
            let (o, size) = size_of(w.out, repr_of(element_as_type(element)));
            let (o, h) = call1(o, Rt::ArrayNew, size);
            lemma_elements(at, sc, with_out(w, o), h, es, element, es.len());
        },
        (_, Type::Int(width)) => {
            lemma_spread_int(at, sc, w, e, width);
            let t = check_for(at, e, ty).0->0;
            if !spreads_over(e) {
                lemma_expr(at, sc, w, e);
                let (w2, v) = lower_expr(sc, w, e)->Ok_0;
                if can_coerce(t, ty) {
                    lemma_adopt(w2, v, t, ty);
                }
            }
        },
        (_, Type::BigInt) => {
            lemma_spread_bigint(at, sc, w, e);
            let t = check_for(at, e, ty).0->0;
            if can_coerce(t, ty) {
                if spreads_over(e) {
                    let (w2, v) = lower_bigint(sc, w, e)->Ok_0;
                    lemma_adopt(w2, v, t, ty);
                } else {
                    lemma_expr(at, sc, w, e);
                    let (w2, v) = lower_expr(sc, w, e)->Ok_0;
                    lemma_adopt(w2, v, t, ty);
                }
            }
        },
        _ => {
            assert(check_spread(at, e, ty) == check(at, e));
            lemma_expr(at, sc, w, e);
            let t = check_for(at, e, ty).0->0;
            let (w2, v) = lower_expr(sc, w, e)->Ok_0;
            if can_coerce(t, ty) {
                lemma_adopt(w2, v, t, ty);
            }
        },
    }
}

} // verus!
