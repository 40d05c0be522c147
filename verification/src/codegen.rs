//! Lowering: from a checked program to instructions.

use vstd::prelude::*;
use crate::ast::{
    exprs_view, lemma_exprs_view, BinOp, DEFAULT_BIGNUM_PRECISION, ElementType, Expr, ExprV, Type, UnOp,
};
use crate::emit::{is_owned, Emitter};
use crate::ir::{basic_type, Op, Repr, Rt, Value};
use crate::lower::{
    adopt, append, big_arith, big_binary, big_function, big_neg, big_new, bigint_fact, bigint_literal, bignum_fact,
    bignum_precision, combine, combine_one, element_place, find_binding, find_temp, free_temps, hoisted,
    int_literal, is_bigint, is_temp, keep, keep_big, lift, literal_with, lower_args, lower_bigint, lower_call,
    lower_elements, lower_expr, lower_for, lower_int, lower_pair, no_variable, precision_of, sig_place,
    spreads_over, variable, without_temp, BindingV, Scope, Step, Temp, Work,
};
use crate::numeral::{capped_whole_value, shown_numeral};
use crate::text::{same_text, text1, text3, text4};
use crate::typecheck::{arithmetic_op, comparison_op, sigs_view, Sig};
use crate::typing::{find_sig, max_width, SigV};

verus! {

/// A variable, or a literal that was made before a loop.
#[derive(Debug)]
pub struct Binding {
    /// The name of the variable, or the text of the literal.
    pub name: String,
    pub ty: Type,
    /// Where the value is.
    pub place: Value,
    pub literal: bool,
}

impl Binding {
    /// The view of this binding.
    pub open spec fn view(&self) -> BindingV {
        BindingV { name: self.name@, ty: self.ty, place: self.place, literal: self.literal }
    }
}

/// The views of bindings in order.
pub open spec fn bindings_view(s: Seq<Binding>) -> Seq<BindingV> {
    Seq::new(s.len(), |i: int| s[i].view())
}

/// The lowering of one program.
pub struct Codegen {
    /// The name of the module.
    pub name: String,
    pub out: Emitter,
    /// What the functions of the program take and give.
    pub function_sigs: Vec<Sig>,
    /// What the function that is being lowered gives.
    pub current_return_type: Type,
    /// Whether the statements between `START` and `END` are being lowered.
    pub in_entry: bool,
    /// The variables that can be referred to, in the order of their declarations.
    pub bindings: Vec<Binding>,
    /// For each open block, how many variables there were before it.
    pub scopes: Vec<usize>,
    /// The values that own memory and belong to no variable yet.
    pub temps: Vec<Temp>,
}

impl Codegen {
    /// What expressions can refer to.
    pub open spec fn scope(&self) -> Scope {
        Scope { sigs: sigs_view(self.function_sigs@), bindings: bindings_view(self.bindings@) }
    }

    /// What expressions add to.
    pub open spec fn work(&self) -> Work {
        Work { out: self.out@, temps: self.temps@ }
    }

    /// Nothing but the work differs from `before`.
    pub open spec fn same_scope(&self, before: Codegen) -> bool {
        &&& self.name == before.name
        &&& self.function_sigs@ == before.function_sigs@
        &&& self.current_return_type == before.current_return_type
        &&& self.in_entry == before.in_entry
        &&& self.bindings@ == before.bindings@
        &&& self.scopes@ == before.scopes@
    }

    /// The result `r` and the work are what `s` says.
    pub open spec fn stepped(&self, before: Codegen, r: Result<Value, String>, s: Step) -> bool {
        match r {
            Ok(v) => self.same_scope(before) && s == Ok::<(Work, Value), Seq<char>>((self.work(), v)),
            Err(m) => s == Err::<(Work, Value), Seq<char>>(m@),
        }
    }

    /// The value `v` and the work are what `s` says.
    pub open spec fn gave(&self, before: Codegen, v: Value, s: (Work, Value)) -> bool {
        self.same_scope(before) && s == (self.work(), v)
    }

    // Bindings and temporaries.

    /// The last binding with this name and type.
    pub(crate) fn find_bound(&self, name: &str, ty: Type, literal: bool) -> (r: Option<usize>)
        ensures
            match r {
                Some(k) => k < self.bindings@.len() && find_binding(
                    self.scope().bindings,
                    name@,
                    ty,
                    literal,
                    self.bindings@.len() as int,
                ) == Some(k as int),
                None => find_binding(self.scope().bindings, name@, ty, literal, self.bindings@.len() as int) is None,
            },
    {
        let mut n: usize = self.bindings.len();
        while n > 0
            invariant
                n <= self.bindings@.len(),
                find_binding(self.scope().bindings, name@, ty, literal, self.bindings@.len() as int) == find_binding(
                    self.scope().bindings,
                    name@,
                    ty,
                    literal,
                    n as int,
                ),
            decreases n,
        {
            n = n - 1;
            let b: &Binding = &self.bindings[n];
            assert(self.scope().bindings[n as int] == b@);
            if b.ty == ty && b.literal == literal && same_text(&b.name, name) {
                return Some(n);
            }
        }
        None
    }

    /// Takes the value `v` of type `ty` out of the temporaries, if it is one of them.
    pub(crate) fn take_temp(&mut self, v: Value, ty: Type) -> (r: bool)
        ensures
            r == is_temp(old(self).temps@, v, ty),
            final(self).temps@ == without_temp(old(self).temps@, v, ty),
            final(self).out == old(self).out,
            final(self).same_scope(*old(self)),
    {
        let mut n: usize = self.temps.len();
        while n > 0
            invariant
                *self == *old(self),
                n <= self.temps@.len(),
                find_temp(self.temps@, v, ty, self.temps@.len() as int) == find_temp(self.temps@, v, ty, n as int),
            decreases n,
        {
            n = n - 1;
            if self.temps[n].value.id == v.id && self.temps[n].ty == ty {
                let _ = self.temps.remove(n);
                return true;
            }
        }
        false
    }

    /// Puts a value that owns memory among the temporaries.
    pub(crate) fn keep(&mut self, v: Value, ty: Type)
        ensures
            final(self).work() == keep(old(self).work(), old(self).out@, v, ty),
            final(self).same_scope(*old(self)),
    {
        self.temps.push(Temp { value: v, ty });
    }

    /// Frees the temporaries.
    pub(crate) fn free_temps(&mut self)
        ensures
            final(self).out@ == free_temps(old(self).out@, old(self).temps@, old(self).temps@.len()),
            final(self).temps@ == Seq::<Temp>::empty(),
            final(self).same_scope(*old(self)),
    {
        let mut i: usize = 0;
        while i < self.temps.len()
            invariant
                i <= self.temps@.len(),
                self.temps@ == old(self).temps@,
                self.same_scope(*old(self)),
                self.out@ == free_temps(old(self).out@, self.temps@, i as nat),
            decreases self.temps@.len() - i,
        {
            let t: Temp = self.temps[i];
            self.out.free_value(t.value, t.ty);
            i = i + 1;
        }
        self.temps.clear();
    }

    /// The place of the function that a call of this name reaches.
    pub(crate) fn find_function(&self, name: &str) -> (r: Option<usize>)
        ensures
            match r {
                Some(k) => k < self.function_sigs@.len() && sig_place(
                    self.scope().sigs,
                    name@,
                    self.function_sigs@.len() as int,
                ) == Some(k as int),
                None => sig_place(self.scope().sigs, name@, self.function_sigs@.len() as int) is None,
            },
    {
        let mut n: usize = self.function_sigs.len();
        while n > 0
            invariant
                n <= self.function_sigs@.len(),
                sig_place(self.scope().sigs, name@, self.function_sigs@.len() as int) == sig_place(
                    self.scope().sigs,
                    name@,
                    n as int,
                ),
            decreases n,
        {
            n = n - 1;
            assert(self.scope().sigs[n as int] == self.function_sigs@[n as int]@);
            if same_text(&self.function_sigs[n].name, name) {
                return Some(n);
            }
        }
        None
    }

    // What can be told before a program runs.

    /// The precision of an expression that is a bignum; `None` if it is something else.
    pub(crate) fn bignum_precision_of_expr(&self, e: &Expr) -> (r: Option<u32>)
        ensures
            r == precision_of(self.scope().sigs, e@),
        decreases e,
    {
        match e {
            Expr::Var(_, Type::BigNum(p)) => Some(*p),
            Expr::ArrayIndex(_, Type::Array(ElementType::BigNum(p)), _) => Some(*p),
            Expr::Call(name, _) => {
                proof {
                    lemma_exprs_view(*e);
                    lemma_sig_place(self.scope().sigs, name@, self.function_sigs@.len() as int);
                }
                match self.find_function(name) {
                    Some(k) => {
                        assert(self.scope().sigs[k as int] == self.function_sigs@[k as int]@);
                        match self.function_sigs[k].return_type {
                            Type::BigNum(p) => Some(p),
                            _ => None,
                        }
                    },
                    None => None,
                }
            },
            Expr::Unary(UnOp::Neg, inner) => self.bignum_precision_of_expr(inner),
            Expr::Unary(UnOp::Factorial, inner) => match self.bignum_precision_of_expr(inner) {
                Some(_) => Some(DEFAULT_BIGNUM_PRECISION),
                None => None,
            },
            Expr::Binary(l, op, r) => {
                if !arithmetic_op(*op) {
                    return None;
                }
                match (self.bignum_precision_of_expr(l), self.bignum_precision_of_expr(r)) {
                    (Some(a), Some(b)) => Some(max_width(a, b)),
                    (Some(a), None) => Some(a),
                    (None, Some(b)) => Some(b),
                    (None, None) => None,
                }
            },
            _ => None,
        }
    }

    /// The precision of an expression that is a bignum, or else the default one.
    fn precision_or_default(&self, e: &Expr) -> (r: u32)
        ensures
            r == bignum_precision(self.scope().sigs, e@),
    {
        match self.bignum_precision_of_expr(e) {
            Some(p) => p,
            None => DEFAULT_BIGNUM_PRECISION,
        }
    }

    /// Whether an expression is a bigint.
    pub(crate) fn expr_is_bigint(&self, e: &Expr) -> (r: bool)
        ensures
            r == is_bigint(self.scope().sigs, e@),
        decreases e,
    {
        match e {
            Expr::Var(_, Type::BigInt) => true,
            Expr::ArrayIndex(_, Type::Array(ElementType::BigInt), _) => true,
            Expr::Call(name, _) => {
                proof {
                    lemma_exprs_view(*e);
                    lemma_sig_place(self.scope().sigs, name@, self.function_sigs@.len() as int);
                }
                match self.find_function(name) {
                    Some(k) => {
                        assert(self.scope().sigs[k as int] == self.function_sigs@[k as int]@);
                        self.function_sigs[k].return_type == Type::BigInt
                    },
                    None => false,
                }
            },
            Expr::Unary(UnOp::Neg, inner) => self.expr_is_bigint(inner),
            Expr::Unary(UnOp::Factorial, inner) => self.expr_is_bigint(inner),
            Expr::Binary(l, op, r) => {
                if !arithmetic_op(*op) {
                    return false;
                }
                let a: bool = self.expr_is_bigint(l);
                let b: bool = self.expr_is_bigint(r);
                a || b
            },
            _ => false,
        }
    }
}

impl Codegen {
    // Bignums and bigints.

    /// A new number of type `ty`.
    fn big_new(&mut self, ty: Type) -> (r: Value)
        ensures
            (final(self).out@, r) == big_new(old(self).out@, ty),
            final(self).temps == old(self).temps,
            final(self).same_scope(*old(self)),
    {
        match ty {
            Type::BigNum(p) => self.out.bignum_new(p),
            _ => self.out.call0(Rt::BigintNew),
        }
    }

    /// Wraps the handle of a new number of type `ty`, and puts it among the temporaries.
    fn keep_big(&mut self, h: Value, ty: Type) -> (r: Value)
        ensures
            final(self).gave(*old(self), r, keep_big(old(self).work(), old(self).out@, h, ty)),
    {
        let v: Value = self.out.wrap(basic_type(ty), h);
        self.keep(v, ty);
        v
    }

    /// An operator on two numbers of type `ty`. A chain of operators accumulates in one handle.
    fn compile_big_arith(&mut self, ty: Type, f: Rt, op: BinOp, l: Value, r: Value) -> (res: Value)
        ensures
            final(self).gave(*old(self), res, big_arith(old(self).work(), ty, f, op, l, r)),
    {
        let a: Value = self.out.unwrap(l);
        let b: Value = self.out.unwrap(r);
        let left: bool = matches!(op, BinOp::Add | BinOp::Sub | BinOp::Mul | BinOp::Div);
        if left && self.take_temp(l, ty) {
            self.out.run3(f, a, a, b);
            self.keep_big(a, ty)
        } else if op == BinOp::Pow && self.take_temp(r, ty) {
            self.out.run3(f, b, a, b);
            self.keep_big(b, ty)
        } else {
            let h: Value = self.big_new(ty);
            self.out.run3(f, h, a, b);
            self.keep_big(h, ty)
        }
    }

    /// An operator on two numbers of type `ty`, which is `bignum` or `bigint`.
    fn compile_big_binary(&mut self, ty: Type, op: BinOp, l: Value, r: Value) -> (res: Result<Value, String>)
        ensures
            final(self).stepped(*old(self), res, big_binary(old(self).work(), ty, op, l, r)),
    {
        if comparison_op(op) {
            let order: Rt = if matches!(ty, Type::BigNum(_)) {
                Rt::BignumOrder
            } else {
                Rt::BigintOrder
            };
            return Ok(self.out.compile_order(op, order, l, r));
        }
        match (ty, op) {
            (Type::BigNum(p), BinOp::Tetration) => {
                let a: Value = self.out.unwrap(l);
                let b: Value = self.out.unwrap(r);
                let h: Value = self.out.compile_bignum_tetration(a, b, p);
                Ok(self.keep_big(h, ty))
            },
            _ => match function_for(ty, op) {
                Some(f) => Ok(self.compile_big_arith(ty, f, op, l, r)),
                None => Err(text1("this operator is not supported on bignum or bigint")),
            },
        }
    }

    /// The negation of a number of type `ty`.
    fn compile_big_neg(&mut self, ty: Type, v: Value) -> (r: Value)
        ensures
            final(self).gave(*old(self), r, big_neg(old(self).work(), ty, v)),
    {
        let p: Value = self.out.unwrap(v);
        let h: Value = self.big_new(ty);
        let f: Rt = if matches!(ty, Type::BigNum(_)) {
            Rt::BignumNeg
        } else {
            Rt::BigintNeg
        };
        self.out.run2(f, h, p);
        self.keep_big(h, ty)
    }

    /// The factorial of a bignum.
    fn compile_bignum_fact(&mut self, v: Value) -> (r: Value)
        ensures
            final(self).gave(*old(self), r, bignum_fact(old(self).work(), v)),
    {
        let p: Value = self.out.unwrap(v);
        let h: Value = self.out.compile_bignum_factorial(p);
        self.keep_big(h, Type::BigNum(DEFAULT_BIGNUM_PRECISION))
    }

    /// The factorial of a bigint.
    fn compile_bigint_fact(&mut self, v: Value) -> (r: Value)
        ensures
            final(self).gave(*old(self), r, bigint_fact(old(self).work(), v)),
    {
        let p: Value = self.out.unwrap(v);
        let h: Value = self.out.call0(Rt::BigintNew);
        self.out.run2(Rt::BigintFactorial, h, p);
        self.keep_big(h, Type::BigInt)
    }

    /// A literal as a bigint: the one made before the loop, if there is one.
    fn compile_bigint_literal(&mut self, text: &str) -> (r: Value)
        ensures
            final(self).gave(*old(self), r, bigint_literal(old(self).scope(), old(self).work(), text@)),
    {
        let number: String = shown_numeral(text);
        match self.find_bound(&number, Type::BigInt, true) {
            Some(k) => {
                assert(self.scope().bindings[k as int] == self.bindings@[k as int]@);
                let place: Value = self.bindings[k].place;
                self.out.load(Repr::BigInt, place)
            },
            None => {
                let t: Value = self.out.const_str(text);
                let h: Value = self.out.call0(Rt::BigintNew);
                self.out.run2(Rt::BigintSetStr, h, t);
                self.keep_big(h, Type::BigInt)
            },
        }
    }

    /// The literal `text` as a bignum made before the loop, if there is one for the operand `other`.
    fn hoisted_bignum(&self, op: BinOp, text: &str, other: &Expr) -> (r: Option<usize>)
        ensures
            ({
                let made = match precision_of(self.scope().sigs, other@) {
                    Some(p) => if op is Concat {
                        None
                    } else {
                        hoisted(self.scope().bindings, text@, Type::BigNum(p))
                    },
                    None => None,
                };
                match r {
                    Some(k) => k < self.bindings@.len() && made == Some(k as int),
                    None => made is None,
                }
            }),
    {
        match self.bignum_precision_of_expr(other) {
            Some(p) => if op == BinOp::Concat {
                None
            } else {
                let number: String = shown_numeral(text);
                self.find_bound(&number, Type::BigNum(p), true)
            },
            None => None,
        }
    }

    /// A literal next to the operand `other`, whose value is `v`.
    fn compile_hoisted_or_literal(&mut self, op: BinOp, text: &str, other: &Expr, v: Value) -> (r: Value)
        ensures
            final(self).gave(
                *old(self),
                r,
                literal_with(old(self).scope(), old(self).work(), op, text@, other@, v),
            ),
    {
        match self.hoisted_bignum(op, text, other) {
            Some(k) => {
                assert(self.scope().bindings[k as int] == self.bindings@[k as int]@);
                let place: Value = self.bindings[k].place;
                self.out.load(Repr::Handle, place)
            },
            None => {
                if v.repr == Repr::BigInt && op != BinOp::Concat {
                    return self.compile_bigint_literal(text);
                }
                match v.repr {
                    Repr::Int(width) => if width != 1 {
                        let c: Value = self.out.const_int(64, parse_int_literal(text));
                        self.out.coerce_int_width(c, if op == BinOp::Concat { 64 } else { width })
                    } else {
                        self.out.const_float(text)
                    },
                    _ => self.out.const_float(text),
                }
            },
        }
    }

    /// The operator of `e` on its two operands, whose values are `l` and `r`.
    fn compile_binary(&mut self, e: &Expr, l: Value, r: Value) -> (res: Result<Value, String>)
        ensures
            final(self).stepped(*old(self), res, combine(old(self).scope(), old(self).work(), e@, l, r)),
    {
        match e {
            Expr::Binary(le, op, re) => {
                let op: BinOp = *op;
                if op == BinOp::Concat {
                    let t: Value = self.out.compile_concat(l, r)?;
                    self.keep(t, Type::Str);
                    return Ok(t);
                }
                match (l.repr, r.repr) {
                    (Repr::Float(_), Repr::Float(_)) => self.out.compile_float_binary(op, l, r),
                    (Repr::Int(1), Repr::Int(1)) => self.out.compile_bool_binary(op, l, r),
                    (Repr::Int(_), Repr::Int(_)) => self.out.compile_int_binary(op, l, r),
                    (Repr::Handle, Repr::Float(_)) => {
                        let p: u32 = self.precision_or_default(le);
                        let q: u32 = self.precision_or_default(e);
                        let b: Value = self.out.coerce_to_bignum(r, p)?;
                        self.keep(b, Type::BigNum(p));
                        self.compile_big_binary(Type::BigNum(q), op, l, b)
                    },
                    (Repr::Float(_), Repr::Handle) => {
                        let p: u32 = self.precision_or_default(re);
                        let q: u32 = self.precision_or_default(e);
                        let a: Value = self.out.coerce_to_bignum(l, p)?;
                        self.keep(a, Type::BigNum(p));
                        self.compile_big_binary(Type::BigNum(q), op, a, r)
                    },
                    (Repr::Handle, Repr::Handle) => {
                        let q: u32 = self.precision_or_default(e);
                        self.compile_big_binary(Type::BigNum(q), op, l, r)
                    },
                    (Repr::BigInt, Repr::BigInt) => self.compile_big_binary(Type::BigInt, op, l, r),
                    _ => Err(text1("operator used with mismatched operand types")),
                }
            },
            _ => Err(text1("not an operator")),
        }
    }

    /// An operator on the value `v` of the operand `inner`.
    fn compile_unary(&mut self, op: UnOp, inner: &Expr, v: Value) -> (res: Result<Value, String>)
        ensures
            final(self).stepped(
                *old(self),
                res,
                combine_one(old(self).scope(), old(self).work(), op, inner@, v),
            ),
    {
        match (op, v.repr) {
            (UnOp::Neg, Repr::Float(_)) => Ok(self.out.give1(Op::FloatNeg, v, v.repr)),
            (UnOp::Not, Repr::Int(1)) => Ok(self.out.give1(Op::Not, v, v.repr)),
            (UnOp::Neg, Repr::Int(width)) => if width != 1 {
                Ok(self.out.compile_int_neg(v))
            } else {
                Err(text1("operator not supported on a value of this kind"))
            },
            (UnOp::Factorial, Repr::Int(width)) => if width != 1 {
                Ok(self.out.compile_int_factorial(v))
            } else {
                Err(text1("operator not supported on a value of this kind"))
            },
            (UnOp::Factorial, Repr::Float(_)) => {
                let f: Value = self.out.coerce_float(v, 64);
                Ok(self.out.compile_factorial(f))
            },
            (UnOp::Neg, Repr::Handle) => {
                let p: u32 = self.precision_or_default(inner);
                Ok(self.compile_big_neg(Type::BigNum(p), v))
            },
            (UnOp::Factorial, Repr::Handle) => Ok(self.compile_bignum_fact(v)),
            (UnOp::Neg, Repr::BigInt) => Ok(self.compile_big_neg(Type::BigInt, v)),
            (UnOp::Factorial, Repr::BigInt) => Ok(self.compile_bigint_fact(v)),
            _ => Err(text1("operator not supported on a value of this kind")),
        }
    }

    // Expressions.

    /// The place of the element of an array that an index gives.
    pub(crate) fn compile_element_place(&mut self, array: Value, index: Value) -> (res: Result<Value, String>)
        ensures
            final(self).stepped(
                *old(self),
                res,
                lift(old(self).work(), element_place(old(self).out@, array, index)),
            ),
    {
        match index.repr {
            Repr::Float(_) => {
                let i: Value = self.out.give1(Op::FloatToInt, index, Repr::Int(64));
                Ok(self.out.call2(Rt::ArrayGetPtr, array, i))
            },
            _ => Err(text1("array index is no num")),
        }
    }

    /// The value of an expression.
    pub(crate) fn compile_expr(&mut self, e: &Expr) -> (res: Result<Value, String>)
        ensures
            final(self).stepped(*old(self), res, lower_expr(old(self).scope(), old(self).work(), e@)),
        decreases e, 1int,
    {
        proof {
            lemma_exprs_view(*e);
        }
        match e {
            Expr::Num(text) => Ok(self.out.const_float(text)),
            Expr::Bool(b) => {
                let n: i64 = if *b {
                    1
                } else {
                    0
                };
                Ok(self.out.const_int(1, n))
            },
            Expr::Str(s) => Ok(self.out.const_str(s)),
            Expr::Var(name, ty) => match self.find_bound(name, *ty, false) {
                Some(k) => {
                    assert(self.scope().bindings[k as int] == self.bindings@[k as int]@);
                    let place: Value = self.bindings[k].place;
                    Ok(self.out.load(basic_type(*ty), place))
                },
                None => Err(missing_variable(name, *ty)),
            },
            Expr::Unary(op, inner) => {
                let v: Value = self.compile_expr(inner)?;
                self.compile_unary(*op, inner, v)
            },
            Expr::Binary(_, _, _) => {
                let (l, r) = self.compile_pair(e)?;
                self.compile_binary(e, l, r)
            },
            Expr::Call(name, args) => {
                let v: Value = self.compile_call(name, args)?;
                if v.repr == Repr::Void {
                    Err(text1("function used in expression position must return a value"))
                } else {
                    Ok(v)
                }
            },
            Expr::ArrayLiteral(_) => Err(text1("array literal has no known target type")),
            Expr::ArrayIndex(name, ty, index) => match *ty {
                Type::Array(element) => match self.find_bound(name, *ty, false) {
                    None => Err(missing_variable(name, *ty)),
                    Some(k) => {
                        assert(self.scope().bindings[k as int] == self.bindings@[k as int]@);
                        let place: Value = self.bindings[k].place;
                        let a: Value = self.out.load(Repr::Handle, place);
                        let h: Value = self.out.unwrap(a);
                        assert(self.scope() == old(self).scope());
                        let i: Value = self.compile_expr(index)?;
                        let p: Value = self.compile_element_place(h, i)?;
                        Ok(self.out.load(basic_type(element.as_type()), p))
                    },
                },
                _ => Err(text1("index used on something that is no array")),
            },
            Expr::Length(array) => {
                let v: Value = self.compile_expr(array)?;
                if v.repr == Repr::Handle {
                    let h: Value = self.out.unwrap(v);
                    let n: Value = self.out.call1(Rt::ArrayLength, h);
                    Ok(self.out.give1(Op::IntToFloat, n, Repr::Float(64)))
                } else {
                    Err(text1("length used on something that is no array"))
                }
            },
        }
    }

    /// The values of the two operands of `e`.
    fn compile_pair(&mut self, e: &Expr) -> (res: Result<(Value, Value), String>)
        ensures
            match res {
                Ok(p) => final(self).same_scope(*old(self)) && lower_pair(old(self).scope(), old(self).work(), e@) == Ok::<
                    (Work, Value, Value),
                    Seq<char>,
                >((final(self).work(), p.0, p.1)),
                Err(m) => lower_pair(old(self).scope(), old(self).work(), e@) == Err::<(Work, Value, Value), Seq<char>>(
                    m@,
                ),
            },
        decreases e, 0int,
    {
        match e {
            Expr::Binary(l, op, r) => {
                assert((**l)@ is Num == (**l is Num));
                assert((**r)@ is Num == (**r is Num));
                match (&**l, &**r) {
                    (Expr::Num(a), Expr::Num(b)) => {
                        let x: Value = self.out.const_float(a);
                        let y: Value = self.out.const_float(b);
                        Ok((x, y))
                    },
                    (Expr::Num(text), other) => {
                        let y: Value = self.compile_expr(other)?;
                        let x: Value = self.compile_hoisted_or_literal(*op, text, other, y);
                        Ok((x, y))
                    },
                    (other, Expr::Num(text)) => {
                        let x: Value = self.compile_expr(other)?;
                        let y: Value = self.compile_hoisted_or_literal(*op, text, other, x);
                        Ok((x, y))
                    },
                    (left, right) => {
                        let x: Value = self.compile_expr(left)?;
                        let y: Value = self.compile_expr(right)?;
                        Ok((x, y))
                    },
                }
            },
            _ => Err(text1("not an operator")),
        }
    }

    /// A call of a function of the program.
    pub(crate) fn compile_call(&mut self, name: &String, args: &Vec<Expr>) -> (res: Result<Value, String>)
        ensures
            final(self).stepped(
                *old(self),
                res,
                lower_call(old(self).scope(), old(self).work(), name@, exprs_view(args@)),
            ),
        decreases args, 2int,
    {
        let ghost sc = self.scope();
        let ghost w = self.work();
        let ghost av = exprs_view(args@);
        match self.find_function(name) {
            None => Err(text3("undefined function '", name, "'")),
            Some(k) => {
                assert(sc.sigs[k as int] == self.function_sigs@[k as int]@);
                let ghost params = sc.sigs[k as int].params;
                if args.len() != self.function_sigs[k].params.len() {
                    return Err(text3("wrong number of arguments for function '", name, "'"));
                }
                let mut values: Vec<Value> = Vec::new();
                let mut i: usize = 0;
                while i < args.len()
                    invariant
                        i <= args@.len(),
                        sc == old(self).scope(),
                        w == old(self).work(),
                        av == exprs_view(args@),
                        k < self.function_sigs@.len(),
                        params == sc.sigs[k as int].params,
                        params.len() == args@.len(),
                        sig_place(sc.sigs, name@, sc.sigs.len() as int) == Some(k as int),
                        self.same_scope(*old(self)),
                        lower_args(sc, w, av, params, i as nat) == Ok::<(Work, Seq<Value>), Seq<char>>(
                            (self.work(), values@),
                        ),
                    decreases args@.len() - i,
                {
                    assert(sc.sigs[k as int] == self.function_sigs@[k as int]@);
                    assert(av[i as int] == args@[i as int]@);
                    assert(self.scope() == sc);
                    let ty: Type = self.function_sigs[k].params[i];
                    match self.compile_and_coerce(&args[i], ty) {
                        Ok(v) => {
                            values.push(v);
                        },
                        Err(m) => {
                            proof {
                                lemma_args_fail(sc, w, av, params, (i + 1) as nat, av.len());
                            }
                            return Err(m);
                        },
                    }
                    i = i + 1;
                }
                assert(sc.sigs[k as int] == self.function_sigs@[k as int]@);
                let ty: Type = self.function_sigs[k].return_type;
                let v: Value = self.out.call_function(k, values, basic_type(ty));
                if is_owned(ty) {
                    self.keep(v, ty);
                }
                Ok(v)
            },
        }
    }

    /// The value of an expression that has to be an `int`.
    fn compile_int_expr(&mut self, e: &Expr) -> (res: Result<Value, String>)
        ensures
            final(self).stepped(*old(self), res, lower_int(old(self).scope(), old(self).work(), e@)),
        decreases e, 2int,
    {
        match e {
            Expr::Num(text) => Ok(self.out.const_int(64, parse_int_literal(text))),
            Expr::Binary(l, op, r) => {
                if *op == BinOp::Concat {
                    return Err(text1("int expected"));
                }
                let x: Value = self.compile_int_expr(l)?;
                let y: Value = self.compile_int_expr(r)?;
                self.out.compile_int_binary(*op, x, y)
            },
            Expr::Unary(op, inner) => {
                let v: Value = self.compile_int_expr(inner)?;
                match *op {
                    UnOp::Neg => Ok(self.out.compile_int_neg(v)),
                    UnOp::Factorial => Ok(self.out.compile_int_factorial(v)),
                    UnOp::Not => Err(text1("int expected")),
                }
            },
            _ => {
                let v: Value = self.compile_expr(e)?;
                if matches!(v.repr, Repr::Int(_)) {
                    Ok(v)
                } else {
                    Err(text1("int expected"))
                }
            },
        }
    }

    /// The value of an expression that has to be a `bigint`.
    fn compile_bigint_expr(&mut self, e: &Expr) -> (res: Result<Value, String>)
        ensures
            final(self).stepped(*old(self), res, lower_bigint(old(self).scope(), old(self).work(), e@)),
        decreases e, 2int,
    {
        match e {
            Expr::Num(text) => Ok(self.compile_bigint_literal(text)),
            Expr::Binary(l, op, r) => {
                if *op == BinOp::Concat {
                    return Err(text1("bigint expected"));
                }
                let x: Value = self.compile_bigint_expr(l)?;
                let y: Value = self.compile_bigint_expr(r)?;
                self.compile_big_binary(Type::BigInt, *op, x, y)
            },
            Expr::Unary(op, inner) => {
                let v: Value = self.compile_bigint_expr(inner)?;
                match *op {
                    UnOp::Neg => Ok(self.compile_big_neg(Type::BigInt, v)),
                    UnOp::Factorial => Ok(self.compile_bigint_fact(v)),
                    UnOp::Not => Err(text1("bigint expected")),
                }
            },
            _ => {
                let v: Value = self.compile_expr(e)?;
                if v.repr == Repr::BigInt {
                    Ok(v)
                } else {
                    Err(text1("bigint expected"))
                }
            },
        }
    }

    /// Appends a value to the array `h`.
    pub(crate) fn append(&mut self, h: Value, v: Value, element: ElementType)
        ensures
            final(self).out@ == append(old(self).out@, h, v, element),
            final(self).temps == old(self).temps,
            final(self).same_scope(*old(self)),
    {
        let p: Value = self.out.slot(basic_type(element.as_type()), "append_value");
        self.out.store(p, v);
        self.out.run2(Rt::ArrayAppend, h, p);
    }

    /// A new array with the given elements.
    fn compile_array_literal(&mut self, es: &Vec<Expr>, element: ElementType) -> (res: Result<Value, String>)
        ensures
            final(self).stepped(
                *old(self),
                res,
                lower_for(
                    old(self).scope(),
                    old(self).work(),
                    ExprV::ArrayLiteral(exprs_view(es@)),
                    Type::Array(element),
                ),
            ),
        decreases es, 1int,
    {
        let ghost sc = self.scope();
        let ghost ev = exprs_view(es@);
        let size: Value = self.out.size_of(basic_type(element.as_type()));
        let h: Value = self.out.call1(Rt::ArrayNew, size);
        let ghost w = self.work();
        let mut i: usize = 0;
        while i < es.len()
            invariant
                i <= es@.len(),
                sc == old(self).scope(),
                ev == exprs_view(es@),
                self.same_scope(*old(self)),
                lower_elements(sc, w, h, ev, element, i as nat) == Ok::<Work, Seq<char>>(self.work()),
                lower_for(sc, old(self).work(), ExprV::ArrayLiteral(ev), Type::Array(element)) == match lower_elements(
                    sc,
                    w,
                    h,
                    ev,
                    element,
                    ev.len(),
                ) {
                    Err(m) => Err(m),
                    Ok(w) => lift(w, Ok(crate::emit::wrap(w.out, Repr::Handle, h))),
                },
            decreases es@.len() - i,
        {
            assert(ev[i as int] == es@[i as int]@);
            assert(self.scope() == sc);
            match self.compile_and_coerce(&es[i], element.as_type()) {
                Ok(v) => {
                    self.append(h, v, element);
                },
                Err(m) => {
                    proof {
                        lemma_elements_fail(sc, w, h, ev, element, (i + 1) as nat, ev.len());
                    }
                    return Err(m);
                },
            }
            i = i + 1;
        }
        Ok(self.out.wrap(Repr::Handle, h))
    }

    /// A temporary that becomes a value of its own, or else a copy of the value.
    fn adopt(&mut self, v: Value, ty: Type) -> (res: Result<Value, String>)
        ensures
            final(self).stepped(*old(self), res, adopt(old(self).work(), v, ty)),
    {
        let big: bool = matches!(ty, Type::BigNum(_) | Type::BigInt);
        let text: bool = matches!(ty, Type::Str | Type::File);
        if big && self.take_temp(v, ty) {
            return Ok(v);
        }
        if text && self.take_temp(v, Type::Str) {
            return Ok(v);
        }
        if text && self.take_temp(v, Type::File) {
            return Ok(v);
        }
        self.out.coerce_to_type(v, ty)
    }

    /// The value of an expression as it is stored, passed or returned as `ty`.
    pub(crate) fn compile_and_coerce(&mut self, e: &Expr, ty: Type) -> (res: Result<Value, String>)
        ensures
            final(self).stepped(*old(self), res, lower_for(old(self).scope(), old(self).work(), e@, ty)),
        decreases e, 3int,
    {
        proof {
            lemma_exprs_view(*e);
        }
        match (e, ty) {
            (Expr::Num(text), Type::BigNum(p)) => {
                let t: Value = self.out.const_str(text);
                self.out.coerce_to_bignum(t, p)
            },
            (Expr::Num(text), Type::BigInt) => {
                let t: Value = self.out.const_str(text);
                self.out.coerce_to_bigint(t)
            },
            (Expr::ArrayLiteral(es), Type::Array(element)) => self.compile_array_literal(es, element),
            (_, Type::Int(width)) => {
                if literals_spread(e) {
                    let v: Value = self.compile_int_expr(e)?;
                    Ok(self.out.coerce_int_width(v, width))
                } else {
                    let v: Value = self.compile_expr(e)?;
                    self.adopt(v, ty)
                }
            },
            (_, Type::BigInt) => {
                if literals_spread(e) {
                    let v: Value = self.compile_bigint_expr(e)?;
                    self.adopt(v, ty)
                } else {
                    let v: Value = self.compile_expr(e)?;
                    self.adopt(v, ty)
                }
            },
            _ => {
                let v: Value = self.compile_expr(e)?;
                self.adopt(v, ty)
            },
        }
    }
}

/// The runtime function for an operator on two numbers of type `ty`, if there is one.
fn function_for(ty: Type, op: BinOp) -> (r: Option<Rt>)
    ensures
        r == big_function(ty, op),
{
    let decimal: bool = matches!(ty, Type::BigNum(_));
    match op {
        BinOp::Add => Some(if decimal { Rt::BignumAdd } else { Rt::BigintAdd }),
        BinOp::Sub => Some(if decimal { Rt::BignumSub } else { Rt::BigintSub }),
        BinOp::Mul => Some(if decimal { Rt::BignumMul } else { Rt::BigintMul }),
        BinOp::Div => Some(if decimal { Rt::BignumDiv } else { Rt::BigintDiv }),
        BinOp::Pow => Some(if decimal { Rt::BignumPow } else { Rt::BigintPow }),
        BinOp::Tetration => if decimal { None } else { Some(Rt::BigintTetration) },
        _ => None,
    }
}

/// A literal as a 64-bit integer.
fn parse_int_literal(text: &str) -> (r: i64)
    ensures
        r == int_literal(text@),
{
    let v: u64 = capped_whole_value(text);
    if v <= i64::MAX as u64 {
        v as i64
    } else {
        i64::MAX
    }
}

/// Whether the literals of an expression become integers where the whole expression has to.
fn literals_spread(e: &Expr) -> (r: bool)
    ensures
        r == spreads_over(e@),
{
    match e {
        Expr::Num(_) => true,
        Expr::Unary(_, _) => true,
        Expr::Binary(_, op, _) => *op != BinOp::Concat,
        _ => false,
    }
}

/// The message about a variable that is not there.
pub(crate) fn missing_variable(name: &str, ty: Type) -> (r: String)
    ensures
        r@ == no_variable(name@, ty),
{
    let t: String = ty.to_text();
    text4("undefined variable '", name, "' of type ", &t)
}

/// What went wrong with an argument is what goes wrong with the call.
proof fn lemma_args_fail(sc: Scope, w: Work, args: Seq<ExprV>, params: Seq<Type>, i: nat, n: nat)
    requires
        i <= n <= args.len(),
        lower_args(sc, w, args, params, i) is Err,
    ensures
        lower_args(sc, w, args, params, n) == lower_args(sc, w, args, params, i),
    decreases n,
{
    if i < n {
        lemma_args_fail(sc, w, args, params, i, (n - 1) as nat);
    }
}

/// What went wrong with an element is what goes wrong with the array.
proof fn lemma_elements_fail(sc: Scope, w: Work, h: Value, es: Seq<ExprV>, element: ElementType, i: nat, n: nat)
    requires
        i <= n <= es.len(),
        lower_elements(sc, w, h, es, element, i) is Err,
    ensures
        lower_elements(sc, w, h, es, element, n) == lower_elements(sc, w, h, es, element, i),
    decreases n,
{
    if i < n {
        lemma_elements_fail(sc, w, h, es, element, i, (n - 1) as nat);
    }
}

/// The function that a call reaches, and its place.
proof fn lemma_sig_place(sigs: Seq<SigV>, name: Seq<char>, n: int)
    ensures
        match sig_place(sigs, name, n) {
            Some(k) => 0 <= k < n && find_sig(sigs, name, n) == Some(sigs[k]),
            None => find_sig(sigs, name, n) is None,
        },
    decreases n,
{
    if 0 < n <= sigs.len() && sigs[n - 1].name != name {
        lemma_sig_place(sigs, name, n - 1);
    }
}

} // verus!
