//! The type rules: what type an expression has and what is wrong with a program.
//!
//! Problems are collected as messages, in the order in which the program's parts are visited.

use vstd::prelude::*;
use crate::ast::{
    binop_text, element_as_type, type_text, unop_text, BinOp, DEFAULT_BIGNUM_PRECISION, DEFAULT_INT_PRECISION,
    DEFAULT_NUM_PRECISION, ElementType, ExprV, FunctionV, ParamV, ProgramV, SegmentV, StmtV, Type, UnOp,
};
use crate::fold::{fold, Fold};
use crate::numeral::{decimal, is_whole, shown, whole_value};

verus! {

/// Messages in order.
pub type Errors = Seq<Seq<char>>;

/// A type, if one could be found, and the problems met on the way.
pub type Typed = (Option<Type>, Errors);

/// What a function takes and gives.
pub struct SigV {
    pub name: Seq<char>,
    pub params: Seq<Type>,
    pub return_type: Type,
}

/// A variable that can be referred to.
pub struct VarV {
    pub name: Seq<char>,
    pub ty: Type,
}

/// What is visible at a point of a program: the functions, and the variables in the order of
/// their declarations.
pub struct Visible {
    pub sigs: Seq<SigV>,
    pub vars: Seq<VarV>,
}

/// The shape that a value has at run time. Whether a value can be converted or combined is
/// decided by its shape: two floats mix freely, whatever their types.
#[derive(Clone, Copy, PartialEq, Eq, Structural)]
pub enum Shape {
    Float,
    Bool,
    Str,
    BigNum,
    Array,
    Int,
    BigInt,
    /// `Void` has no value.
    Nothing,
}

/// The shape of the values of a type.
pub open spec fn shape(ty: Type) -> Shape {
    match ty {
        Type::Num(_) | Type::NumW(_) => Shape::Float,
        Type::Bool => Shape::Bool,
        Type::Str | Type::File => Shape::Str,
        Type::BigNum(_) => Shape::BigNum,
        Type::Array(_) => Shape::Array,
        Type::Int(_) => Shape::Int,
        Type::BigInt => Shape::BigInt,
        Type::Void => Shape::Nothing,
    }
}

/// Whether a value of type `from` can be stored, passed or returned as `to`.
/// - `num` and `numw` convert into each other at any precision.
/// - Numbers and text convert into `bignum`.
/// - `str` and `file` convert into each other.
/// - `int` converts into `int` of any width; `bool` and `bigint` only into themselves.
/// - Arrays have to have the same element type.
pub open spec fn can_coerce(from: Type, to: Type) -> bool {
    match (from, to) {
        (Type::Num(_) | Type::NumW(_), Type::Num(_) | Type::NumW(_)) => true,
        (Type::Num(_) | Type::NumW(_) | Type::Str | Type::BigNum(_), Type::BigNum(_)) => true,
        (Type::Str | Type::File, Type::Str | Type::File) => true,
        (Type::Bool, Type::Bool) => true,
        (Type::Int(_), Type::Int(_)) => true,
        (Type::BigInt, Type::BigInt) => true,
        (Type::Array(a), Type::Array(b)) => a == b,
        _ => false,
    }
}

/// Whether `op` computes a number from two numbers.
pub open spec fn is_arithmetic(op: BinOp) -> bool {
    op is Add || op is Sub || op is Mul || op is Div || op is Pow || op is Tetration
}

/// Whether `op` compares two values.
pub open spec fn is_comparison(op: BinOp) -> bool {
    op is Eq || op is Ne || op is Lt || op is Gt || op is Le || op is Ge
}

/// The larger of two widths.
pub open spec fn wider(a: u32, b: u32) -> u32 {
    if a < b {
        b
    } else {
        a
    }
}

/// The larger of two widths.
#[verifier::when_used_as_spec(wider)]
pub fn max_width(a: u32, b: u32) -> (r: u32)
    ensures
        r == wider(a, b),
{
    if a < b {
        b
    } else {
        a
    }
}

/// The type of an operator applied to values of two types, or what is wrong with it. A number
/// next to a `bignum` becomes a `bignum` of the same precision.
pub open spec fn binary_type(op: BinOp, l: Type, r: Type) -> Result<Type, Seq<char>> {
    match (l, r) {
        (Type::Num(_) | Type::NumW(_), Type::Num(_) | Type::NumW(_)) => if is_arithmetic(op) {
            Ok(Type::Num(DEFAULT_NUM_PRECISION))
        } else if is_comparison(op) {
            Ok(Type::Bool)
        } else {
            Err(binop_text(op) + " requires bool operands, not num"@)
        },
        (Type::Bool, Type::Bool) => if op is Eq || op is Ne || op is And || op is Or {
            Ok(Type::Bool)
        } else {
            Err(binop_text(op) + " not supported on bool operands"@)
        },
        (Type::Int(a), Type::Int(b)) => if is_arithmetic(op) {
            Ok(Type::Int(wider(a, b)))
        } else if is_comparison(op) {
            Ok(Type::Bool)
        } else {
            Err(binop_text(op) + " requires bool operands, not int"@)
        },
        (Type::BigInt, Type::BigInt) => if is_arithmetic(op) {
            Ok(Type::BigInt)
        } else if is_comparison(op) {
            Ok(Type::Bool)
        } else {
            Err(binop_text(op) + " requires bool operands, not bigint"@)
        },
        (Type::BigNum(a), Type::BigNum(b)) => bignum_type(op, wider(a, b)),
        (Type::BigNum(a), Type::Num(_) | Type::NumW(_)) => bignum_type(op, a),
        (Type::Num(_) | Type::NumW(_), Type::BigNum(b)) => bignum_type(op, b),
        _ => Err(
            binop_text(op) + " used with mismatched operand types "@ + type_text(l) + " / "@ + type_text(r),
        ),
    }
}

/// The type of an operator applied to two bignums, the wider of which has precision `p`.
pub open spec fn bignum_type(op: BinOp, p: u32) -> Result<Type, Seq<char>> {
    if is_comparison(op) {
        Ok(Type::Bool)
    } else if is_arithmetic(op) {
        Ok(Type::BigNum(p))
    } else {
        Err(binop_text(op) + " not supported on bignum yet"@)
    }
}

/// The type of an operator applied to one value. Negation keeps the precision of its operand;
/// a factorial always has the default one.
pub open spec fn unary_type(op: UnOp, t: Type) -> Option<Type> {
    match (op, t) {
        (UnOp::Neg, Type::Num(_) | Type::NumW(_) | Type::BigNum(_) | Type::Int(_) | Type::BigInt) => Some(t),
        (UnOp::Not, Type::Bool) => Some(Type::Bool),
        (UnOp::Factorial, Type::Num(_) | Type::NumW(_)) => Some(Type::Num(DEFAULT_NUM_PRECISION)),
        (UnOp::Factorial, Type::BigNum(_)) => Some(Type::BigNum(DEFAULT_BIGNUM_PRECISION)),
        (UnOp::Factorial, Type::Int(_)) => Some(Type::Int(DEFAULT_INT_PRECISION)),
        (UnOp::Factorial, Type::BigInt) => Some(Type::BigInt),
        _ => None,
    }
}

/// No problem.
pub open spec fn fine() -> Errors {
    Seq::empty()
}

/// One problem.
pub open spec fn problem(message: Seq<char>) -> Errors {
    seq![message]
}

/// One problem, if there is one.
pub open spec fn problem_if(wrong: bool, message: Seq<char>) -> Errors {
    if wrong {
        problem(message)
    } else {
        fine()
    }
}

/// Lists of messages can be joined in any grouping, and joining with no message changes nothing.
pub proof fn lemma_join(o: Errors, a: Errors, b: Errors)
    ensures
        (o + a) + b == o + (a + b),
        o + fine() == o,
        a + fine() == a,
        fine() + b == b,
{
    assert((o + a) + b =~= o + (a + b));
    assert(o + fine() =~= o);
    assert(a + fine() =~= a);
    assert(fine() + b =~= b);
}

// ---------------------------------------------------------------------------
// Names
// ---------------------------------------------------------------------------

/// Whether a variable of this name and type is visible.
pub open spec fn declared(vars: Seq<VarV>, name: Seq<char>, ty: Type) -> bool {
    exists|i: int| 0 <= i < vars.len() && (#[trigger] vars[i]).name == name && vars[i].ty == ty
}

/// The type of the first variable of this name at or after `i`.
pub open spec fn first_of_name(vars: Seq<VarV>, name: Seq<char>, i: int) -> Option<Type>
    decreases vars.len() - i,
{
    if !(0 <= i < vars.len()) {
        None
    } else if vars[i].name == name {
        Some(vars[i].ty)
    } else {
        first_of_name(vars, name, i + 1)
    }
}

/// The variables once one more is declared. Declaring one again changes nothing.
pub open spec fn declare(vars: Seq<VarV>, name: Seq<char>, ty: Type) -> Seq<VarV> {
    if declared(vars, name, ty) {
        vars
    } else {
        vars.push(VarV { name, ty })
    }
}

/// What is wrong with a reference to a variable: another type was stated for it, or there is no
/// variable of its name at all.
#[verifier::opaque]
pub open spec fn var_problems(vars: Seq<VarV>, name: Seq<char>, ty: Type) -> Errors {
    if declared(vars, name, ty) {
        fine()
    } else {
        match first_of_name(vars, name, 0) {
            Some(actual) => problem(
                "'"@ + name + "' is declared as "@ + type_text(actual) + ", not "@ + type_text(ty)
                    + " -- check the type stated at this reference"@,
            ),
            None => problem("undefined variable '"@ + name + "'"@),
        }
    }
}

/// The last of the first `n` signatures that has this name.
pub open spec fn find_sig(sigs: Seq<SigV>, name: Seq<char>, n: int) -> Option<SigV>
    decreases n,
{
    if n <= 0 || n > sigs.len() {
        None
    } else if sigs[n - 1].name == name {
        Some(sigs[n - 1])
    } else {
        find_sig(sigs, name, n - 1)
    }
}

/// The function that a call of this name reaches: the last one that was given the name.
pub open spec fn callee(sigs: Seq<SigV>, name: Seq<char>) -> Option<SigV> {
    find_sig(sigs, name, sigs.len() as int)
}

// ---------------------------------------------------------------------------
// Literals
// ---------------------------------------------------------------------------

/// The largest value of an `int` of width `w`.
pub open spec fn int_max(w: u32) -> int {
    if w == 8 {
        127
    } else if w == 16 {
        32767
    } else if w == 32 {
        2147483647
    } else {
        9223372036854775807
    }
}

/// Whether `v` fits in an `int` of width `w`.
pub open spec fn fits(v: int, w: u32) -> bool {
    -int_max(w) - 1 <= v <= int_max(w)
}

/// A literal as an `int` of width `w`, which has to fit in `bits`.
#[verifier::opaque]
pub open spec fn literal_as_int(text: Seq<char>, w: u32, bits: u32) -> Typed {
    if !is_whole(text) {
        (None, problem(shown(text) + " is not a whole number, can't use it as int"@))
    } else if whole_value(text) > int_max(bits) {
        (None, problem(shown(text) + " doesn't fit in "@ + type_text(Type::Int(bits))))
    } else {
        (Some(Type::Int(w)), fine())
    }
}

/// A literal as a `bigint`.
#[verifier::opaque]
pub open spec fn literal_as_bigint(text: Seq<char>) -> Typed {
    if !is_whole(text) {
        (None, problem(shown(text) + " is not a whole number, can't use it as bigint"@))
    } else {
        (Some(Type::BigInt), fine())
    }
}

/// A literal next to an operand of type `other`: it becomes an `int` or a `bigint` there. Beside an
/// `int` it has to fit in the same width, unless it only becomes text.
#[verifier::opaque]
pub open spec fn literal_beside(text: Seq<char>, op: BinOp, other: Option<Type>) -> Typed {
    match other {
        Some(Type::Int(w)) => if op is Concat {
            literal_as_int(text, 64, 64)
        } else {
            literal_as_int(text, w, w)
        },
        Some(Type::BigInt) => if op is Concat {
            (Some(Type::Num(DEFAULT_NUM_PRECISION)), fine())
        } else {
            literal_as_bigint(text)
        },
        _ => (Some(Type::Num(DEFAULT_NUM_PRECISION)), fine()),
    }
}

/// Whether the literals that an expression of type `int` is made of overflow, or its value does
/// not fit in width `w`.
pub open spec fn overflows(e: ExprV, w: u32) -> bool {
    match fold(e) {
        Fold::Unknown => false,
        Fold::Overflow => true,
        Fold::Known(v) => !fits(v, w),
    }
}

// ---------------------------------------------------------------------------
// Expressions
// ---------------------------------------------------------------------------

/// The type of an operator applied to operands that were typed before it.
#[verifier::opaque]
pub open spec fn apply_binary(op: BinOp, l: Option<Type>, r: Option<Type>) -> Typed {
    match (l, r) {
        (Some(l), Some(r)) => if op is Concat {
            if l is Array || r is Array {
                (
                    None,
                    problem(
                        "stch doesn't support array operands ("@ + type_text(l) + " / "@ + type_text(r) + ")"@,
                    ),
                )
            } else {
                (Some(Type::Str), fine())
            }
        } else {
            match binary_type(op, l, r) {
                Ok(t) => (Some(t), fine()),
                Err(m) => (None, problem(m)),
            }
        },
        _ => (None, fine()),
    }
}

/// The type of an operator applied to an operand that was typed before it.
#[verifier::opaque]
pub open spec fn apply_unary(op: UnOp, t: Option<Type>) -> Typed {
    match t {
        Some(t) => match unary_type(op, t) {
            Some(r) => (Some(r), fine()),
            None => (None, problem(unop_text(op) + " not supported on "@ + type_text(t))),
        },
        None => (None, fine()),
    }
}

/// What is wrong with an index of type `t`.
#[verifier::opaque]
pub open spec fn index_problems(t: Option<Type>) -> Errors {
    match t {
        Some(t) => problem_if(shape(t) != Shape::Float, "array index must be num, got "@ + type_text(t)),
        None => fine(),
    }
}

/// The message about indexing something that is no array.
pub open spec fn not_indexable(name: Seq<char>, ty: Type) -> Seq<char> {
    "'"@ + name + "' can't be indexed -- declared as "@ + type_text(ty) + ", not an array"@
}

/// The type of `e`, where nothing is known of what it is used for.
pub open spec fn check(at: Visible, e: ExprV) -> Typed
    decreases e, 1int, 0nat,
{
    match e {
        ExprV::Num(_) => (Some(Type::Num(DEFAULT_NUM_PRECISION)), fine()),
        ExprV::Bool(_) => (Some(Type::Bool), fine()),
        ExprV::Str(_) => (Some(Type::Str), fine()),
        ExprV::Var(name, ty) => {
            let errors = var_problems(at.vars, name, ty);
            (
                if errors.len() == 0 {
                    Some(ty)
                } else {
                    None
                },
                errors,
            )
        },
        ExprV::ArrayLiteral(_) => (
            None,
            problem(
                "array literal needs a known target type here (e.g. a var:array:TYPE declaration, argument, or return)"@,
            ),
        ),
        ExprV::ArrayIndex(name, ty, index) => {
            let unfit = problem_if(!(ty is Array), not_indexable(name, ty));
            let unknown = var_problems(at.vars, name, ty);
            let (t, errors) = check(at, *index);
            (
                match ty {
                    Type::Array(element) => if unknown.len() == 0 {
                        Some(element_as_type(element))
                    } else {
                        None
                    },
                    _ => None,
                },
                unfit + unknown + (errors + index_problems(t)),
            )
        },
        ExprV::Length(array) => {
            let (t, errors) = check(at, *array);
            match t {
                Some(Type::Array(_)) => (Some(Type::Num(DEFAULT_NUM_PRECISION)), errors),
                Some(other) => (None, errors + problem("length*...* expects an array, got "@ + type_text(other))),
                None => (None, errors),
            }
        },
        ExprV::Unary(op, inner) => {
            let (t, errors) = check(at, *inner);
            let (r, more) = apply_unary(op, t);
            (r, errors + more)
        },
        ExprV::Binary(_, op, _) => {
            let (lt, rt, errors) = check_pair(at, e);
            let (t, more) = apply_binary(op, lt, rt);
            (t, errors + more)
        },
        ExprV::Call(name, args) => {
            let (t, errors) = check_call(at, name, args);
            match t {
                Some(Type::Void) => (
                    None,
                    errors + problem("function '"@ + name + "' returns nothing, can't be used as a value"@),
                ),
                _ => (t, errors),
            }
        },
    }
}

/// The types of the two operands of `e`. A literal takes after the operand beside it, unless both
/// are literals.
pub open spec fn check_pair(at: Visible, e: ExprV) -> (Option<Type>, Option<Type>, Errors)
    decreases e, 0int, 0nat,
{
    match e {
        ExprV::Binary(l, op, r) => match (*l, *r) {
            (ExprV::Num(_), ExprV::Num(_)) => (
                Some(Type::Num(DEFAULT_NUM_PRECISION)),
                Some(Type::Num(DEFAULT_NUM_PRECISION)),
                fine(),
            ),
            (ExprV::Num(text), other) => {
                let (rt, re) = check(at, other);
                let (lt, le) = literal_beside(text, op, rt);
                (lt, rt, re + le)
            },
            (other, ExprV::Num(text)) => {
                let (lt, le) = check(at, other);
                let (rt, re) = literal_beside(text, op, lt);
                (lt, rt, le + re)
            },
            (left, right) => {
                let (lt, le) = check(at, left);
                let (rt, re) = check(at, right);
                (lt, rt, le + re)
            },
        },
        _ => (None, None, fine()),
    }
}

/// What is wrong with the first `n` of `es`, where nothing is known of what they are used for.
pub open spec fn check_each(at: Visible, es: Seq<ExprV>, n: nat) -> Errors
    decreases es, 1int, n,
{
    if n == 0 || n > es.len() {
        fine()
    } else {
        check_each(at, es, (n - 1) as nat) + check(at, es[n - 1]).1
    }
}

/// Whether the first `n` arguments fit the parameters, and what is wrong with them.
pub open spec fn check_args(at: Visible, name: Seq<char>, args: Seq<ExprV>, params: Seq<Type>, n: nat) -> (bool, Errors)
    decreases args, 1int, n,
{
    if n == 0 || n > args.len() {
        (true, fine())
    } else {
        let (ok, errors) = check_args(at, name, args, params, (n - 1) as nat);
        let expected = params[n - 1];
        let (t, more) = check_for(at, args[n - 1], expected);
        match t {
            Some(t) => if can_coerce(t, expected) {
                (ok, errors + more)
            } else {
                (
                    false,
                    errors + more + problem(
                        "function '"@ + name + "' argument type mismatch: expected "@ + type_text(expected) + ", got "@
                            + type_text(t),
                    ),
                )
            },
            None => (false, errors + more),
        }
    }
}

/// The type of what a call gives, which may be `Void`.
pub open spec fn check_call(at: Visible, name: Seq<char>, args: Seq<ExprV>) -> Typed
    decreases args, 2int, 0nat,
{
    match callee(at.sigs, name) {
        None => (None, problem("undefined function '"@ + name + "'"@) + check_each(at, args, args.len())),
        Some(sig) => if args.len() != sig.params.len() {
            (
                None,
                problem(
                    "function '"@ + name + "' expects "@ + decimal(sig.params.len()) + " argument(s), got "@ + decimal(
                        args.len(),
                    ),
                ) + check_each(at, args, args.len()),
            )
        } else {
            let (ok, errors) = check_args(at, name, args, sig.params, args.len());
            (
                if ok {
                    Some(sig.return_type)
                } else {
                    None
                },
                errors,
            )
        },
    }
}

/// Whether the first `n` elements of an array literal fit in an array of type `target`, and what
/// is wrong with them.
pub open spec fn check_elements(at: Visible, es: Seq<ExprV>, element: ElementType, n: nat) -> (bool, Errors)
    decreases es, 1int, n,
{
    if n == 0 || n > es.len() {
        (true, fine())
    } else {
        let (ok, errors) = check_elements(at, es, element, (n - 1) as nat);
        let (t, more) = check_for(at, es[n - 1], element_as_type(element));
        match t {
            Some(t) => if can_coerce(t, element_as_type(element)) {
                (ok, errors + more)
            } else {
                (
                    false,
                    errors + more + problem(
                        "cannot use "@ + type_text(t) + " as an element of "@ + type_text(Type::Array(element)),
                    ),
                )
            },
            None => (false, errors + more),
        }
    }
}

/// Whether a target type reaches the operands of `e`: the literals in an expression of operators
/// are `int` or `bigint` where the whole expression has to be.
pub open spec fn spreads(e: ExprV, target: Type) -> bool {
    (target is Int || target is BigInt) && match e {
        ExprV::Num(_) => true,
        ExprV::Unary(_, _) => true,
        ExprV::Binary(_, op, _) => !(op is Concat),
        _ => false,
    }
}

/// The type of an operator applied to one operand of an expression that has to be `int` or
/// `bigint`.
#[verifier::opaque]
pub open spec fn spread_unary(op: UnOp, t: Option<Type>) -> Typed {
    match (op, t) {
        (_, None) => (None, fine()),
        (UnOp::Neg, _) => (t, fine()),
        (UnOp::Factorial, _) => apply_unary(op, t),
        (UnOp::Not, Some(t)) => (None, problem(unop_text(op) + " not supported on "@ + type_text(t))),
    }
}

/// The type of an operand of an expression that has to be `target`, which is `int` or `bigint`. The
/// expression is computed in 64 bits, so its literals have to fit in these.
pub open spec fn check_spread(at: Visible, e: ExprV, target: Type) -> Typed
    decreases e, 2int, 0nat,
{
    if !spreads(e, target) {
        check(at, e)
    } else {
        match e {
            ExprV::Num(text) => match target {
                Type::Int(w) => literal_as_int(text, w, 64),
                _ => literal_as_bigint(text),
            },
            ExprV::Unary(op, inner) => {
                let (t, errors) = check_spread(at, *inner, target);
                let (r, more) = spread_unary(op, t);
                (r, errors + more)
            },
            ExprV::Binary(l, op, r) => {
                let (lt, le) = check_spread(at, *l, target);
                let (rt, re) = check_spread(at, *r, target);
                let (t, more) = apply_binary(op, lt, rt);
                (t, le + re + more)
            },
            _ => check(at, e),
        }
    }
}

/// The type of `e` where it is to be stored, passed or returned as `target`.
pub open spec fn check_for(at: Visible, e: ExprV, target: Type) -> Typed
    decreases e, 3int, 0nat,
{
    match (e, target) {
        (ExprV::Num(text), Type::Int(w)) => literal_as_int(text, w, w),
        (ExprV::ArrayLiteral(es), Type::Array(element)) => {
            let (ok, errors) = check_elements(at, es, element, es.len());
            (
                if ok {
                    Some(target)
                } else {
                    None
                },
                errors,
            )
        },
        (_, Type::Int(w)) => {
            let (t, errors) = check_spread(at, e, target);
            if t is Some && overflows(e, w) {
                (
                    None,
                    errors + problem(
                        "int overflow: the value of this expression doesn't fit in "@ + type_text(target),
                    ),
                )
            } else {
                (t, errors)
            }
        },
        _ => check_spread(at, e, target),
    }
}

// ---------------------------------------------------------------------------
// Statements
// ---------------------------------------------------------------------------

/// What is wrong with storing a value of type `t` as `target`: `message` of the two types.
pub open spec fn misfit(t: Option<Type>, target: Type, message: spec_fn(Type) -> Seq<char>) -> Errors {
    match t {
        Some(t) => problem_if(!can_coerce(t, target), message(t)),
        None => fine(),
    }
}

/// The message about a value that does not fit the variable it is assigned to.
pub open spec fn cannot_assign(t: Type, name: Seq<char>, ty: Type) -> Seq<char> {
    "cannot assign "@ + type_text(t) + " to variable '"@ + name + "' declared as "@ + type_text(ty)
}

/// What is wrong with a value for a variable.
pub open spec fn assign_problems(at: Visible, name: Seq<char>, ty: Type, e: ExprV) -> Errors {
    let (t, errors) = check_for(at, e, ty);
    errors + misfit(t, ty, |t: Type| cannot_assign(t, name, ty))
}

/// What is wrong with a path: it has to be `str` or `file`. `what` says where it stands.
pub open spec fn path_problems(at: Visible, e: ExprV, what: Seq<char>) -> Errors {
    let (t, errors) = check(at, e);
    errors + match t {
        Some(t) => problem_if(!(t is Str || t is File), what + " must be str or file, got "@ + type_text(t)),
        None => fine(),
    }
}

/// What is wrong with a path that may be missing.
pub open spec fn optional_path_problems(at: Visible, e: Option<ExprV>, what: Seq<char>) -> Errors {
    match e {
        Some(e) => path_problems(at, e, what),
        None => fine(),
    }
}

/// What is wrong with a condition.
pub open spec fn condition_problems(at: Visible, e: ExprV) -> Errors {
    let (t, errors) = check(at, e);
    errors + match t {
        Some(t) => problem_if(t != Type::Bool, "condition must be bool, got "@ + type_text(t)),
        None => fine(),
    }
}

/// What is wrong with one piece of a `print`.
pub open spec fn segment_problems(at: Visible, s: SegmentV) -> Errors {
    match s {
        SegmentV::Str(_) => fine(),
        SegmentV::Expr(e) => {
            let (t, errors) = check(at, e);
            errors + match t {
                Some(t) => problem_if(t is Array, "can't print an array value directly, got "@ + type_text(t)),
                None => fine(),
            }
        },
    }
}

/// What is wrong with the first `n` pieces of a `print`.
pub open spec fn segments_problems(at: Visible, s: Seq<SegmentV>, n: nat) -> Errors
    decreases n,
{
    if n == 0 || n > s.len() {
        fine()
    } else {
        segments_problems(at, s, (n - 1) as nat) + segment_problems(at, s[n - 1])
    }
}

/// What is wrong with an assignment to an element of an array.
pub open spec fn element_assign_problems(at: Visible, name: Seq<char>, ty: Type, index: ExprV, value: ExprV) -> Errors {
    let unknown = var_problems(at.vars, name, ty);
    let (it, index_errors) = check(at, index);
    let first = unknown + (index_errors + index_problems(it));
    match ty {
        Type::Array(element) => if unknown.len() == 0 {
            let target = element_as_type(element);
            let (t, errors) = check_for(at, value, target);
            first + errors + misfit(
                t,
                target,
                |t: Type| "cannot assign "@ + type_text(t) + " to array element of type "@ + type_text(target),
            )
        } else {
            first + check(at, value).1
        },
        _ => first + problem(not_indexable(name, ty)) + check(at, value).1,
    }
}

/// What is wrong with an `append`. It has to name an array variable.
pub open spec fn append_problems(at: Visible, array: ExprV, value: ExprV) -> Errors {
    let (at_type, first) = check(at, array);
    match at_type {
        Some(Type::Array(element)) => if array is Var {
            let target = element_as_type(element);
            let (t, errors) = check_for(at, value, target);
            first + errors + misfit(
                t,
                target,
                |t: Type| "cannot append "@ + type_text(t) + " to an array of "@ + type_text(target),
            )
        } else {
            first + problem("append*...*'s first argument must be an array variable"@) + check(at, value).1
        },
        Some(other) => first + problem("append*...*'s first argument must be an array, got "@ + type_text(other))
            + check(at, value).1,
        None => first + check(at, value).1,
    }
}

/// What is wrong with a `return` in a function that gives `ret`.
pub open spec fn return_problems(at: Visible, ret: Type, e: Option<ExprV>) -> Errors {
    match e {
        Some(e) => {
            let (t, errors) = check_for(at, e, ret);
            errors + misfit(
                t,
                ret,
                |t: Type| "returning "@ + type_text(t) + " but the function is declared to return "@ + type_text(ret),
            )
        },
        None => problem_if(
            ret != Type::Void,
            "bare return in a function declared to return "@ + type_text(ret),
        ),
    }
}

/// The variables that are visible after a statement in a function that gives `ret`, and what is
/// wrong with the statement.
pub open spec fn check_stmt(at: Visible, ret: Type, s: StmtV) -> (Seq<VarV>, Errors)
    decreases s, 0nat,
{
    match s {
        StmtV::VarDecl(name, ty, e) => (declare(at.vars, name, ty), assign_problems(at, name, ty, e)),
        StmtV::Input(name, ty, source) => (
            declare(at.vars, name, ty),
            problem_if(
                !(ty is Str || ty is Num),
                "input: doesn't support "@ + type_text(ty) + " yet (only str and num)"@,
            ) + optional_path_problems(at, source, "[from*...*]"@),
        ),
        StmtV::Clock(name, ty) => (
            declare(at.vars, name, ty),
            problem_if(!(ty is Num), "clock: doesn't support "@ + type_text(ty) + " yet (only num)"@),
        ),
        StmtV::Assign(name, ty, e) => (
            at.vars,
            if declared(at.vars, name, ty) {
                assign_problems(at, name, ty, e)
            } else {
                problem("assignment to undeclared variable '"@ + name + "' of type "@ + type_text(ty)) + check(at, e).1
            },
        ),
        StmtV::ArrayIndexAssign(name, ty, index, value) => (
            at.vars,
            element_assign_problems(at, name, ty, index, value),
        ),
        StmtV::Append(array, value) => (at.vars, append_problems(at, array, value)),
        StmtV::Return(e) => (at.vars, return_problems(at, ret, e)),
        StmtV::Print(segments, dest) => (
            at.vars,
            segments_problems(at, segments, segments.len()) + optional_path_problems(at, dest, "[to*...*]"@),
        ),
        StmtV::Overwrite(segments, dest) => (
            at.vars,
            segments_problems(at, segments, segments.len()) + path_problems(at, dest, "[to*...*]"@),
        ),
        StmtV::Read(source) => (at.vars, path_problems(at, source, "read*...*"@)),
        StmtV::ExprStmt(e) => (
            at.vars,
            match e {
                ExprV::Call(name, args) => check_call(at, name, args).1,
                _ => check(at, e).1,
            },
        ),
        StmtV::If(cond, then_block, else_block) => (
            at.vars,
            condition_problems(at, cond) + check_stmts(at, ret, then_block, then_block.len()).1 + match else_block {
                Some(b) => check_stmts(at, ret, b, b.len()).1,
                None => fine(),
            },
        ),
        StmtV::While(cond, body) => (
            at.vars,
            condition_problems(at, cond) + check_stmts(at, ret, body, body.len()).1,
        ),
    }
}

/// The variables that are visible after the first `n` statements of a block, and what is wrong
/// with these statements. What a block declares is visible up to its end.
pub open spec fn check_stmts(at: Visible, ret: Type, b: Seq<StmtV>, n: nat) -> (Seq<VarV>, Errors)
    decreases b, n,
{
    if n == 0 || n > b.len() {
        (at.vars, fine())
    } else {
        let (vars, errors) = check_stmts(at, ret, b, (n - 1) as nat);
        let (vars, more) = check_stmt(Visible { sigs: at.sigs, vars }, ret, b[n - 1]);
        (vars, errors + more)
    }
}

// ---------------------------------------------------------------------------
// Programs
// ---------------------------------------------------------------------------

/// The types of parameters in order.
pub open spec fn param_types(ps: Seq<ParamV>) -> Seq<Type> {
    Seq::new(ps.len(), |i: int| ps[i].ty)
}

/// What a function takes and gives.
pub open spec fn sig_of(f: FunctionV) -> SigV {
    SigV { name: f.name, params: param_types(f.params), return_type: f.return_type }
}

/// What the functions of a program take and give.
pub open spec fn sigs_of(fs: Seq<FunctionV>) -> Seq<SigV> {
    Seq::new(fs.len(), |i: int| sig_of(fs[i]))
}

/// The variables that the first `n` parameters are.
pub open spec fn declare_params(ps: Seq<ParamV>, n: nat) -> Seq<VarV>
    decreases n,
{
    if n == 0 || n > ps.len() {
        Seq::empty()
    } else {
        declare(declare_params(ps, (n - 1) as nat), ps[n - 1].name, ps[n - 1].ty)
    }
}

/// What is wrong with a function.
pub open spec fn function_problems(sigs: Seq<SigV>, f: FunctionV) -> Errors {
    let vars = declare_params(f.params, f.params.len());
    check_stmts(Visible { sigs, vars }, f.return_type, f.body, f.body.len()).1
}

/// What is wrong with the first `n` functions.
pub open spec fn functions_problems(sigs: Seq<SigV>, fs: Seq<FunctionV>, n: nat) -> Errors
    decreases n,
{
    if n == 0 || n > fs.len() {
        fine()
    } else {
        functions_problems(sigs, fs, (n - 1) as nat) + function_problems(sigs, fs[n - 1])
    }
}

/// Everything that is wrong with a program: its functions first, then its entry block.
pub open spec fn program_problems(p: ProgramV) -> Errors {
    let sigs = sigs_of(p.functions);
    functions_problems(sigs, p.functions, p.functions.len()) + check_stmts(
        Visible { sigs, vars: Seq::empty() },
        Type::Void,
        p.entry,
        p.entry.len(),
    ).1
}

} // verus!
