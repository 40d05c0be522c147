//! What a program is lowered to.
//!
//! Every value that owns memory has one owner: a variable, an array, or the list of temporaries
//! of the statement that is being lowered. Variables are freed when their block ends, when they
//! are assigned and when the function returns; temporaries when their statement ends.

use vstd::prelude::*;
use crate::ast::{element_as_type, BinOp, DEFAULT_BIGNUM_PRECISION, ElementType, ExprV, Type, UnOp};
use crate::emit::{
    bignum_new, call0, call1, call2, call_function, coerce_float, coerce_int_width, coerce_to_bigint,
    coerce_to_bignum, coerce_to_type, compile_bignum_factorial, compile_bignum_tetration, compile_bool_binary,
    compile_concat, compile_factorial, compile_float_binary, compile_int_binary, compile_int_factorial,
    compile_int_neg, compile_order, const_float, const_int, const_str, free_value, give1, load, owned, run2, run3,
    size_of, slot, store, unwrap, wrap, Out,
};
use crate::ir::{repr_of, Op, Repr, Rt, Value};
use crate::numeral::{shown, whole_value};
use crate::typing::{callee, is_arithmetic, is_comparison, wider, SigV};

verus! {

/// A variable, or a literal that was made before a loop.
pub struct BindingV {
    /// The name of the variable, or the numeral of the literal without needless zeros.
    pub name: Seq<char>,
    pub ty: Type,
    /// Where the value is.
    pub place: Value,
    pub literal: bool,
}

/// A value that owns memory and belongs to no variable yet.
#[derive(Debug, Clone, Copy, PartialEq, Eq, Structural)]
pub struct Temp {
    pub value: Value,
    pub ty: Type,
}

/// What an expression can refer to.
pub struct Scope {
    pub sigs: Seq<SigV>,
    pub bindings: Seq<BindingV>,
}

/// What lowering an expression adds to: the code, and the temporaries of the statement.
pub struct Work {
    pub out: Out,
    pub temps: Seq<Temp>,
}

/// A value and the work that gave it, or what went wrong.
pub type Step = Result<(Work, Value), Seq<char>>;

/// The work with other code.
pub open spec fn with_out(w: Work, out: Out) -> Work {
    Work { out, temps: w.temps }
}

/// A step of code as a step of work.
pub open spec fn lift(w: Work, r: Result<(Out, Value), Seq<char>>) -> Step {
    match r {
        Ok((out, v)) => Ok((with_out(w, out), v)),
        Err(m) => Err(m),
    }
}

/// A value that owns memory, put among the temporaries.
pub open spec fn keep(w: Work, out: Out, v: Value, ty: Type) -> Work {
    Work { out, temps: w.temps.push(Temp { value: v, ty }) }
}

// ---------------------------------------------------------------------------
// Bindings and temporaries
// ---------------------------------------------------------------------------

/// The last of the first `n` bindings with this name and type.
pub open spec fn find_binding(bs: Seq<BindingV>, name: Seq<char>, ty: Type, literal: bool, n: int) -> Option<int>
    decreases n,
{
    if n <= 0 || n > bs.len() {
        None
    } else if bs[n - 1].name == name && bs[n - 1].ty == ty && bs[n - 1].literal == literal {
        Some(n - 1)
    } else {
        find_binding(bs, name, ty, literal, n - 1)
    }
}

/// The variable that a reference reaches: the innermost one.
pub open spec fn variable(bs: Seq<BindingV>, name: Seq<char>, ty: Type) -> Option<int> {
    find_binding(bs, name, ty, false, bs.len() as int)
}

/// The innermost literal that was made before a loop and denotes the same number, however it is
/// spelled.
pub open spec fn hoisted(bs: Seq<BindingV>, text: Seq<char>, ty: Type) -> Option<int> {
    find_binding(bs, shown(text), ty, true, bs.len() as int)
}

/// The place of the value `v` of type `ty` among the first `n` temporaries.
pub open spec fn find_temp(temps: Seq<Temp>, v: Value, ty: Type, n: int) -> Option<int>
    decreases n,
{
    if n <= 0 || n > temps.len() {
        None
    } else if temps[n - 1].value.id == v.id && temps[n - 1].ty == ty {
        Some(n - 1)
    } else {
        find_temp(temps, v, ty, n - 1)
    }
}

/// Whether the value `v` of type `ty` is a temporary.
pub open spec fn is_temp(temps: Seq<Temp>, v: Value, ty: Type) -> bool {
    find_temp(temps, v, ty, temps.len() as int) is Some
}

/// The temporaries without the value `v` of type `ty`.
pub open spec fn without_temp(temps: Seq<Temp>, v: Value, ty: Type) -> Seq<Temp> {
    match find_temp(temps, v, ty, temps.len() as int) {
        Some(k) => temps.remove(k),
        None => temps,
    }
}

/// Frees the first `n` temporaries.
pub open spec fn free_temps(o: Out, temps: Seq<Temp>, n: nat) -> Out
    decreases n,
{
    if n == 0 || n > temps.len() {
        o
    } else {
        free_value(free_temps(o, temps, (n - 1) as nat), temps[n - 1].value, temps[n - 1].ty)
    }
}

// ---------------------------------------------------------------------------
// What can be told before a program runs
// ---------------------------------------------------------------------------

/// The precision of an expression that is a bignum; `None` if it is something else. The result of
/// an operator is as precise as the more precise operand; negation keeps the precision, and a
/// factorial has the default one.
pub open spec fn precision_of(sigs: Seq<SigV>, e: ExprV) -> Option<u32>
    decreases e,
{
    match e {
        ExprV::Var(_, Type::BigNum(p)) => Some(p),
        ExprV::ArrayIndex(_, Type::Array(ElementType::BigNum(p)), _) => Some(p),
        ExprV::Call(name, _) => match callee(sigs, name) {
            Some(sig) => match sig.return_type {
                Type::BigNum(p) => Some(p),
                _ => None,
            },
            None => None,
        },
        ExprV::Unary(UnOp::Neg, inner) => precision_of(sigs, *inner),
        ExprV::Unary(UnOp::Factorial, inner) => match precision_of(sigs, *inner) {
            Some(_) => Some(DEFAULT_BIGNUM_PRECISION),
            None => None,
        },
        ExprV::Binary(l, op, r) => if is_arithmetic(op) {
            match (precision_of(sigs, *l), precision_of(sigs, *r)) {
                (Some(a), Some(b)) => Some(wider(a, b)),
                (Some(a), None) => Some(a),
                (None, Some(b)) => Some(b),
                (None, None) => None,
            }
        } else {
            None
        },
        _ => None,
    }
}

/// The precision of an expression that is a bignum.
pub open spec fn bignum_precision(sigs: Seq<SigV>, e: ExprV) -> u32 {
    match precision_of(sigs, e) {
        Some(p) => p,
        None => DEFAULT_BIGNUM_PRECISION,
    }
}

/// Whether an expression is a bigint.
pub open spec fn is_bigint(sigs: Seq<SigV>, e: ExprV) -> bool
    decreases e,
{
    match e {
        ExprV::Var(_, Type::BigInt) => true,
        ExprV::ArrayIndex(_, Type::Array(ElementType::BigInt), _) => true,
        ExprV::Call(name, _) => match callee(sigs, name) {
            Some(sig) => sig.return_type is BigInt,
            None => false,
        },
        ExprV::Unary(UnOp::Neg, inner) => is_bigint(sigs, *inner),
        ExprV::Unary(UnOp::Factorial, inner) => is_bigint(sigs, *inner),
        ExprV::Binary(l, op, r) => is_arithmetic(op) && (is_bigint(sigs, *l) || is_bigint(sigs, *r)),
        _ => false,
    }
}

/// A literal as a 64-bit integer.
pub open spec fn int_literal(text: Seq<char>) -> i64 {
    if whole_value(text) <= i64::MAX {
        whole_value(text) as i64
    } else {
        i64::MAX
    }
}

// ---------------------------------------------------------------------------
// Bignums and bigints
// ---------------------------------------------------------------------------

/// A new number of type `ty`, which is `bignum` or `bigint`.
pub open spec fn big_new(o: Out, ty: Type) -> (Out, Value) {
    match ty {
        Type::BigNum(p) => bignum_new(o, p),
        _ => call0(o, Rt::BigintNew),
    }
}

/// The runtime function that orders two numbers of type `ty`.
pub open spec fn big_order(ty: Type) -> Rt {
    if ty is BigNum {
        Rt::BignumOrder
    } else {
        Rt::BigintOrder
    }
}

/// The runtime function for an operator on two numbers of type `ty`, if there is one.
pub open spec fn big_function(ty: Type, op: BinOp) -> Option<Rt> {
    match op {
        BinOp::Add => Some(if ty is BigNum { Rt::BignumAdd } else { Rt::BigintAdd }),
        BinOp::Sub => Some(if ty is BigNum { Rt::BignumSub } else { Rt::BigintSub }),
        BinOp::Mul => Some(if ty is BigNum { Rt::BignumMul } else { Rt::BigintMul }),
        BinOp::Div => Some(if ty is BigNum { Rt::BignumDiv } else { Rt::BigintDiv }),
        BinOp::Pow => Some(if ty is BigNum { Rt::BignumPow } else { Rt::BigintPow }),
        BinOp::Tetration => if ty is BigNum { None } else { Some(Rt::BigintTetration) },
        _ => None,
    }
}

/// Whether the left operand can take the result of an operator, if it is a temporary.
pub open spec fn fuses_left(op: BinOp) -> bool {
    op is Add || op is Sub || op is Mul || op is Div
}

/// A step that gives a new number of type `ty` in the handle `h`.
pub open spec fn keep_big(w: Work, o: Out, h: Value, ty: Type) -> (Work, Value) {
    let (o, v) = wrap(o, repr_of(ty), h);
    (keep(w, o, v, ty), v)
}

/// An operator on two numbers of type `ty`. A chain of operators accumulates in one handle: a
/// left operand that is a temporary takes the sum, difference, product or quotient, and a right
/// operand that is a temporary takes the power.
pub open spec fn big_arith(w: Work, ty: Type, f: Rt, op: BinOp, l: Value, r: Value) -> (Work, Value) {
    let (o, a) = unwrap(w.out, l);
    let (o, b) = unwrap(o, r);
    if fuses_left(op) && is_temp(w.temps, l, ty) {
        let o = run3(o, f, a, a, b);
        keep_big(Work { out: w.out, temps: without_temp(w.temps, l, ty) }, o, a, ty)
    } else if op is Pow && is_temp(w.temps, r, ty) {
        let o = run3(o, f, b, a, b);
        keep_big(Work { out: w.out, temps: without_temp(w.temps, r, ty) }, o, b, ty)
    } else {
        let (o, h) = big_new(o, ty);
        let o = run3(o, f, h, a, b);
        keep_big(w, o, h, ty)
    }
}

/// An operator on two numbers of type `ty`, which is `bignum` or `bigint`.
pub open spec fn big_binary(w: Work, ty: Type, op: BinOp, l: Value, r: Value) -> Step {
    if is_comparison(op) {
        let (o, v) = compile_order(w.out, op, big_order(ty), l, r);
        Ok((with_out(w, o), v))
    } else {
        match (ty, op) {
            (Type::BigNum(p), BinOp::Tetration) => {
                let (o, a) = unwrap(w.out, l);
                let (o, b) = unwrap(o, r);
                let (o, h) = compile_bignum_tetration(o, a, b, p);
                Ok(keep_big(w, o, h, ty))
            },
            _ => match big_function(ty, op) {
                Some(f) => Ok(big_arith(w, ty, f, op, l, r)),
                None => Err("this operator is not supported on bignum or bigint"@),
            },
        }
    }
}

/// The negation of a number of type `ty`.
pub open spec fn big_neg(w: Work, ty: Type, v: Value) -> (Work, Value) {
    let (o, p) = unwrap(w.out, v);
    let (o, h) = big_new(o, ty);
    let o = run2(
        o,
        if ty is BigNum {
            Rt::BignumNeg
        } else {
            Rt::BigintNeg
        },
        h,
        p,
    );
    keep_big(w, o, h, ty)
}

/// The factorial of a bignum.
pub open spec fn bignum_fact(w: Work, v: Value) -> (Work, Value) {
    let (o, p) = unwrap(w.out, v);
    let (o, h) = compile_bignum_factorial(o, p);
    keep_big(w, o, h, Type::BigNum(DEFAULT_BIGNUM_PRECISION))
}

/// The factorial of a bigint.
pub open spec fn bigint_fact(w: Work, v: Value) -> (Work, Value) {
    let (o, p) = unwrap(w.out, v);
    let (o, h) = call0(o, Rt::BigintNew);
    let o = run2(o, Rt::BigintFactorial, h, p);
    keep_big(w, o, h, Type::BigInt)
}

/// A literal as a bigint: the one made before the loop, if there is one.
pub open spec fn bigint_literal(sc: Scope, w: Work, text: Seq<char>) -> (Work, Value) {
    match hoisted(sc.bindings, text, Type::BigInt) {
        Some(k) => {
            let (o, v) = load(w.out, Repr::BigInt, sc.bindings[k].place);
            (with_out(w, o), v)
        },
        None => {
            let (o, t) = const_str(w.out, text);
            let (o, h) = call0(o, Rt::BigintNew);
            let o = run2(o, Rt::BigintSetStr, h, t);
            keep_big(w, o, h, Type::BigInt)
        },
    }
}

/// A literal next to the operand `other`, whose value is `v`.
pub open spec fn literal_with(sc: Scope, w: Work, op: BinOp, text: Seq<char>, other: ExprV, v: Value) -> (Work, Value) {
    let made = match precision_of(sc.sigs, other) {
        Some(p) => if op is Concat {
            None
        } else {
            hoisted(sc.bindings, text, Type::BigNum(p))
        },
        None => None,
    };
    match made {
        Some(k) => {
            let (o, v) = load(w.out, Repr::Handle, sc.bindings[k].place);
            (with_out(w, o), v)
        },
        None => if v.repr == Repr::BigInt && !(op is Concat) {
            bigint_literal(sc, w, text)
        } else {
            match v.repr {
                Repr::Int(width) => if width != 1 {
                    let (o, c) = const_int(w.out, 64, int_literal(text));
                    let (o, c) = coerce_int_width(
                        o,
                        c,
                        if op is Concat {
                            64
                        } else {
                            width
                        },
                    );
                    (with_out(w, o), c)
                } else {
                    let (o, c) = const_float(w.out, text);
                    (with_out(w, o), c)
                },
                _ => {
                    let (o, c) = const_float(w.out, text);
                    (with_out(w, o), c)
                },
            }
        },
    }
}

/// The operator of `e` on its two operands, whose values are `l` and `r`. A num next to a bignum
/// becomes a bignum of the same precision.
pub open spec fn combine(sc: Scope, w: Work, e: ExprV, l: Value, r: Value) -> Step {
    match e {
        ExprV::Binary(le, op, re) => if op is Concat {
            match compile_concat(w.out, l, r) {
                Err(m) => Err(m),
                Ok((o, t)) => Ok((keep(w, o, t, Type::Str), t)),
            }
        } else {
            match (l.repr, r.repr) {
                (Repr::Float(_), Repr::Float(_)) => lift(w, compile_float_binary(w.out, op, l, r)),
                (Repr::Int(1), Repr::Int(1)) => lift(w, compile_bool_binary(w.out, op, l, r)),
                (Repr::Int(_), Repr::Int(_)) => lift(w, compile_int_binary(w.out, op, l, r)),
                (Repr::Handle, Repr::Float(_)) => {
                    let p = bignum_precision(sc.sigs, *le);
                    match coerce_to_bignum(w.out, r, p) {
                        Err(m) => Err(m),
                        Ok((o, b)) => big_binary(
                            keep(w, o, b, Type::BigNum(p)),
                            Type::BigNum(bignum_precision(sc.sigs, e)),
                            op,
                            l,
                            b,
                        ),
                    }
                },
                (Repr::Float(_), Repr::Handle) => {
                    let p = bignum_precision(sc.sigs, *re);
                    match coerce_to_bignum(w.out, l, p) {
                        Err(m) => Err(m),
                        Ok((o, a)) => big_binary(
                            keep(w, o, a, Type::BigNum(p)),
                            Type::BigNum(bignum_precision(sc.sigs, e)),
                            op,
                            a,
                            r,
                        ),
                    }
                },
                (Repr::Handle, Repr::Handle) => big_binary(w, Type::BigNum(bignum_precision(sc.sigs, e)), op, l, r),
                (Repr::BigInt, Repr::BigInt) => big_binary(w, Type::BigInt, op, l, r),
                _ => Err("operator used with mismatched operand types"@),
            }
        },
        _ => Err("not an operator"@),
    }
}

/// The operator of `e` on its operand, whose value is `v`.
pub open spec fn combine_one(sc: Scope, w: Work, op: UnOp, inner: ExprV, v: Value) -> Step {
    match (op, v.repr) {
        (UnOp::Neg, Repr::Float(_)) => {
            let (o, r) = give1(w.out, Op::FloatNeg, v, v.repr);
            Ok((with_out(w, o), r))
        },
        (UnOp::Not, Repr::Int(1)) => {
            let (o, r) = give1(w.out, Op::Not, v, v.repr);
            Ok((with_out(w, o), r))
        },
        (UnOp::Neg, Repr::Int(width)) => if width != 1 {
            let (o, r) = compile_int_neg(w.out, v);
            Ok((with_out(w, o), r))
        } else {
            Err("operator not supported on a value of this kind"@)
        },
        (UnOp::Factorial, Repr::Int(width)) => if width != 1 {
            let (o, r) = compile_int_factorial(w.out, v);
            Ok((with_out(w, o), r))
        } else {
            Err("operator not supported on a value of this kind"@)
        },
        (UnOp::Factorial, Repr::Float(_)) => {
            let (o, f) = coerce_float(w.out, v, 64);
            let (o, r) = compile_factorial(o, f);
            Ok((with_out(w, o), r))
        },
        (UnOp::Neg, Repr::Handle) => Ok(big_neg(w, Type::BigNum(bignum_precision(sc.sigs, inner)), v)),
        (UnOp::Factorial, Repr::Handle) => Ok(bignum_fact(w, v)),
        (UnOp::Neg, Repr::BigInt) => Ok(big_neg(w, Type::BigInt, v)),
        (UnOp::Factorial, Repr::BigInt) => Ok(bigint_fact(w, v)),
        _ => Err("operator not supported on a value of this kind"@),
    }
}

// ---------------------------------------------------------------------------
// Expressions
// ---------------------------------------------------------------------------

/// The message about a variable that is not there.
pub open spec fn no_variable(name: Seq<char>, ty: Type) -> Seq<char> {
    "undefined variable '"@ + name + "' of type "@ + crate::ast::type_text(ty)
}

/// The place of the element of an array that an index gives.
pub open spec fn element_place(o: Out, array: Value, index: Value) -> Result<(Out, Value), Seq<char>> {
    match index.repr {
        Repr::Float(_) => {
            let (o, i) = give1(o, Op::FloatToInt, index, Repr::Int(64));
            Ok(call2(o, Rt::ArrayGetPtr, array, i))
        },
        _ => Err("array index is no num"@),
    }
}

/// The value of an expression.
pub open spec fn lower_expr(sc: Scope, w: Work, e: ExprV) -> Step
    decreases e, 1int, 0nat,
{
    match e {
        ExprV::Num(text) => lift(w, Ok(const_float(w.out, text))),
        ExprV::Bool(b) => lift(
            w,
            Ok(
                const_int(
                    w.out,
                    1,
                    if b {
                        1
                    } else {
                        0
                    },
                ),
            ),
        ),
        ExprV::Str(s) => lift(w, Ok(const_str(w.out, s))),
        ExprV::Var(name, ty) => match variable(sc.bindings, name, ty) {
            Some(k) => lift(w, Ok(load(w.out, repr_of(ty), sc.bindings[k].place))),
            None => Err(no_variable(name, ty)),
        },
        ExprV::Unary(op, inner) => match lower_expr(sc, w, *inner) {
            Err(m) => Err(m),
            Ok((w, v)) => combine_one(sc, w, op, *inner, v),
        },
        ExprV::Binary(_, _, _) => match lower_pair(sc, w, e) {
            Err(m) => Err(m),
            Ok((w, l, r)) => combine(sc, w, e, l, r),
        },
        ExprV::Call(name, args) => match lower_call(sc, w, name, args) {
            Err(m) => Err(m),
            Ok((w, v)) => if v.repr == Repr::Void {
                Err("function used in expression position must return a value"@)
            } else {
                Ok((w, v))
            },
        },
        ExprV::ArrayLiteral(_) => Err("array literal has no known target type"@),
        ExprV::ArrayIndex(name, ty, index) => match ty {
            Type::Array(element) => match variable(sc.bindings, name, ty) {
                None => Err(no_variable(name, ty)),
                Some(k) => {
                    let (o, a) = load(w.out, Repr::Handle, sc.bindings[k].place);
                    let (o, h) = unwrap(o, a);
                    match lower_expr(sc, with_out(w, o), *index) {
                        Err(m) => Err(m),
                        Ok((w, i)) => match element_place(w.out, h, i) {
                            Err(m) => Err(m),
                            Ok((o, p)) => lift(w, Ok(load(o, repr_of(element_as_type(element)), p))),
                        },
                    }
                },
            },
            _ => Err("index used on something that is no array"@),
        },
        ExprV::Length(array) => match lower_expr(sc, w, *array) {
            Err(m) => Err(m),
            Ok((w, v)) => if v.repr == Repr::Handle {
                let (o, h) = unwrap(w.out, v);
                let (o, n) = call1(o, Rt::ArrayLength, h);
                lift(w, Ok(give1(o, Op::IntToFloat, n, Repr::Float(64))))
            } else {
                Err("length used on something that is no array"@)
            },
        },
    }
}

/// The values of the two operands of `e`. A literal is made to go with the operand beside it.
pub open spec fn lower_pair(sc: Scope, w: Work, e: ExprV) -> Result<(Work, Value, Value), Seq<char>>
    decreases e, 0int, 0nat,
{
    match e {
        ExprV::Binary(l, op, r) => match (*l, *r) {
            (ExprV::Num(a), ExprV::Num(b)) => {
                let (o, x) = const_float(w.out, a);
                let (o, y) = const_float(o, b);
                Ok((with_out(w, o), x, y))
            },
            (ExprV::Num(text), other) => match lower_expr(sc, w, other) {
                Err(m) => Err(m),
                Ok((w, y)) => {
                    let (w, x) = literal_with(sc, w, op, text, other, y);
                    Ok((w, x, y))
                },
            },
            (other, ExprV::Num(text)) => match lower_expr(sc, w, other) {
                Err(m) => Err(m),
                Ok((w, x)) => {
                    let (w, y) = literal_with(sc, w, op, text, other, x);
                    Ok((w, x, y))
                },
            },
            (left, right) => match lower_expr(sc, w, left) {
                Err(m) => Err(m),
                Ok((w, x)) => match lower_expr(sc, w, right) {
                    Err(m) => Err(m),
                    Ok((w, y)) => Ok((w, x, y)),
                },
            },
        },
        _ => Err("not an operator"@),
    }
}

/// The values of the first `n` arguments, each as its parameter takes it.
pub open spec fn lower_args(sc: Scope, w: Work, args: Seq<ExprV>, params: Seq<Type>, n: nat) -> Result<
    (Work, Seq<Value>),
    Seq<char>,
>
    decreases args, 1int, n,
{
    if n == 0 || n > args.len() {
        Ok((w, Seq::empty()))
    } else {
        match lower_args(sc, w, args, params, (n - 1) as nat) {
            Err(m) => Err(m),
            Ok((w, vs)) => match lower_for(sc, w, args[n - 1], params[n - 1]) {
                Err(m) => Err(m),
                Ok((w, v)) => Ok((w, vs.push(v))),
            },
        }
    }
}

/// The place of the last of the first `n` signatures that has this name.
pub open spec fn sig_place(sigs: Seq<SigV>, name: Seq<char>, n: int) -> Option<int>
    decreases n,
{
    if n <= 0 || n > sigs.len() {
        None
    } else if sigs[n - 1].name == name {
        Some(n - 1)
    } else {
        sig_place(sigs, name, n - 1)
    }
}

/// A call of a function of the program. What it gives belongs to the caller.
pub open spec fn lower_call(sc: Scope, w: Work, name: Seq<char>, args: Seq<ExprV>) -> Step
    decreases args, 2int, 0nat,
{
    match sig_place(sc.sigs, name, sc.sigs.len() as int) {
        None => Err("undefined function '"@ + name + "'"@),
        Some(k) => {
            let sig = sc.sigs[k];
            if args.len() != sig.params.len() {
                Err("wrong number of arguments for function '"@ + name + "'"@)
            } else {
                match lower_args(sc, w, args, sig.params, args.len()) {
                    Err(m) => Err(m),
                    Ok((w, vs)) => {
                        let (o, v) = call_function(w.out, k as usize, vs, repr_of(sig.return_type));
                        if owned(sig.return_type) {
                            Ok((keep(w, o, v, sig.return_type), v))
                        } else {
                            Ok((with_out(w, o), v))
                        }
                    },
                }
            }
        },
    }
}

/// The value of an expression that has to be an `int`. Its literals are 64-bit integers.
pub open spec fn lower_int(sc: Scope, w: Work, e: ExprV) -> Step
    decreases e, 2int, 0nat,
{
    match e {
        ExprV::Num(text) => lift(w, Ok(const_int(w.out, 64, int_literal(text)))),
        ExprV::Binary(l, op, r) => if op is Concat {
            Err("int expected"@)
        } else {
            match lower_int(sc, w, *l) {
                Err(m) => Err(m),
                Ok((w, x)) => match lower_int(sc, w, *r) {
                    Err(m) => Err(m),
                    Ok((w, y)) => lift(w, compile_int_binary(w.out, op, x, y)),
                },
            }
        },
        ExprV::Unary(op, inner) => match lower_int(sc, w, *inner) {
            Err(m) => Err(m),
            Ok((w, v)) => match op {
                UnOp::Neg => lift(w, Ok(compile_int_neg(w.out, v))),
                UnOp::Factorial => lift(w, Ok(compile_int_factorial(w.out, v))),
                UnOp::Not => Err("int expected"@),
            },
        },
        _ => match lower_expr(sc, w, e) {
            Err(m) => Err(m),
            Ok((w, v)) => if v.repr is Int {
                Ok((w, v))
            } else {
                Err("int expected"@)
            },
        },
    }
}

/// The value of an expression that has to be a `bigint`. Its literals are bigints.
pub open spec fn lower_bigint(sc: Scope, w: Work, e: ExprV) -> Step
    decreases e, 2int, 0nat,
{
    match e {
        ExprV::Num(text) => Ok(bigint_literal(sc, w, text)),
        ExprV::Binary(l, op, r) => if op is Concat {
            Err("bigint expected"@)
        } else {
            match lower_bigint(sc, w, *l) {
                Err(m) => Err(m),
                Ok((w, x)) => match lower_bigint(sc, w, *r) {
                    Err(m) => Err(m),
                    Ok((w, y)) => big_binary(w, Type::BigInt, op, x, y),
                },
            }
        },
        ExprV::Unary(op, inner) => match lower_bigint(sc, w, *inner) {
            Err(m) => Err(m),
            Ok((w, v)) => match op {
                UnOp::Neg => Ok(big_neg(w, Type::BigInt, v)),
                UnOp::Factorial => Ok(bigint_fact(w, v)),
                UnOp::Not => Err("bigint expected"@),
            },
        },
        _ => match lower_expr(sc, w, e) {
            Err(m) => Err(m),
            Ok((w, v)) => if v.repr == Repr::BigInt {
                Ok((w, v))
            } else {
                Err("bigint expected"@)
            },
        },
    }
}

/// Appends the first `n` elements of an array literal to the array `h`.
pub open spec fn lower_elements(sc: Scope, w: Work, h: Value, es: Seq<ExprV>, element: ElementType, n: nat) -> Result<
    Work,
    Seq<char>,
>
    decreases es, 1int, n,
{
    if n == 0 || n > es.len() {
        Ok(w)
    } else {
        match lower_elements(sc, w, h, es, element, (n - 1) as nat) {
            Err(m) => Err(m),
            Ok(w) => match lower_for(sc, w, es[n - 1], element_as_type(element)) {
                Err(m) => Err(m),
                Ok((w, v)) => Ok(with_out(w, append(w.out, h, v, element))),
            },
        }
    }
}

/// Appends a value to the array `h`.
pub open spec fn append(o: Out, h: Value, v: Value, element: ElementType) -> Out {
    let (o, p) = slot(o, repr_of(element_as_type(element)), "append_value"@);
    let o = store(o, p, v);
    run2(o, Rt::ArrayAppend, h, p)
}

/// A temporary that becomes a value of its own, or else a copy of the value. A temporary of the
/// type that is asked for is taken over as it is; an array is always copied.
pub open spec fn adopt(w: Work, v: Value, ty: Type) -> Step {
    if (ty is BigNum || ty is BigInt) && is_temp(w.temps, v, ty) {
        Ok((Work { out: w.out, temps: without_temp(w.temps, v, ty) }, v))
    } else if (ty is Str || ty is File) && is_temp(w.temps, v, Type::Str) {
        Ok((Work { out: w.out, temps: without_temp(w.temps, v, Type::Str) }, v))
    } else if (ty is Str || ty is File) && is_temp(w.temps, v, Type::File) {
        Ok((Work { out: w.out, temps: without_temp(w.temps, v, Type::File) }, v))
    } else {
        lift(w, coerce_to_type(w.out, v, ty))
    }
}

/// The value of an expression as it is stored, passed or returned as `ty`: a value of its own,
/// which belongs to no temporary.
pub open spec fn lower_for(sc: Scope, w: Work, e: ExprV, ty: Type) -> Step
    decreases e, 3int, 0nat,
{
    match (e, ty) {
        (ExprV::Num(text), Type::BigNum(p)) => {
            let (o, t) = const_str(w.out, text);
            lift(w, coerce_to_bignum(o, t, p))
        },
        (ExprV::Num(text), Type::BigInt) => {
            let (o, t) = const_str(w.out, text);
            lift(w, coerce_to_bigint(o, t))
        },
        (ExprV::ArrayLiteral(es), Type::Array(element)) => {
            let (o, size) = size_of(w.out, repr_of(element_as_type(element)));
            let (o, h) = call1(o, Rt::ArrayNew, size);
            match lower_elements(sc, with_out(w, o), h, es, element, es.len()) {
                Err(m) => Err(m),
                Ok(w) => lift(w, Ok(wrap(w.out, Repr::Handle, h))),
            }
        },
        (_, Type::Int(width)) => if spreads_over(e) {
            match lower_int(sc, w, e) {
                Err(m) => Err(m),
                Ok((w, v)) => lift(w, Ok(coerce_int_width(w.out, v, width))),
            }
        } else {
            match lower_expr(sc, w, e) {
                Err(m) => Err(m),
                Ok((w, v)) => adopt(w, v, ty),
            }
        },
        (_, Type::BigInt) => if spreads_over(e) {
            match lower_bigint(sc, w, e) {
                Err(m) => Err(m),
                Ok((w, v)) => adopt(w, v, ty),
            }
        } else {
            match lower_expr(sc, w, e) {
                Err(m) => Err(m),
                Ok((w, v)) => adopt(w, v, ty),
            }
        },
        _ => match lower_expr(sc, w, e) {
            Err(m) => Err(m),
            Ok((w, v)) => adopt(w, v, ty),
        },
    }
}

/// Whether the literals of an expression become integers where the whole expression has to.
pub open spec fn spreads_over(e: ExprV) -> bool {
    match e {
        ExprV::Num(_) => true,
        ExprV::Unary(_, _) => true,
        ExprV::Binary(_, op, _) => !(op is Concat),
        _ => false,
    }
}

} // verus!
