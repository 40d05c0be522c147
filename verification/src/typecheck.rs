//! The type checker, which runs between parsing and lowering.

use vstd::prelude::*;
use crate::ast::{
    block_view, element_as_type, expr_opt_view, exprs_view, functions_view, lemma_block_view, lemma_exprs_view,
    params_view, segments_view, type_text, BinOp, DEFAULT_BIGNUM_PRECISION, DEFAULT_INT_PRECISION,
    DEFAULT_NUM_PRECISION, ElementType, Expr, Function, PrintSegment, Program, SegmentV, Stmt, Type, UnOp,
};
use crate::fold::{fold_expr, Folded};
use crate::numeral::{capped_whole_value, decimal_text, shown_numeral, whole_number};
use crate::text::{same_text, text1, text2, text3, text4, text5, text6, text7};
use crate::typing::{
    append_problems, apply_binary, apply_unary, assign_problems, bignum_type, binary_type, callee, can_coerce,
    cannot_assign, check, check_args, check_call, check_each, check_elements, check_for, check_pair, check_spread,
    check_stmt, check_stmts, condition_problems, declare, declare_params, declared, element_assign_problems,
    find_sig, fine, first_of_name, function_problems, functions_problems, index_problems, int_max,
    is_arithmetic, is_comparison, lemma_join, literal_as_bigint, literal_as_int, literal_beside, max_width, misfit,
    optional_path_problems, overflows, param_types, path_problems, problem, problem_if, program_problems,
    return_problems, segment_problems, segments_problems, shape, sig_of, sigs_of, spread_unary,
    unary_type, var_problems, Errors, Shape, SigV, VarV, Visible,
};

verus! {

/// What a function takes and gives.
pub struct Sig {
    pub name: String,
    pub params: Vec<Type>,
    pub return_type: Type,
}

impl Sig {
    /// The view of this signature.
    pub open spec fn view(&self) -> SigV {
        SigV { name: self.name@, params: self.params@, return_type: self.return_type }
    }
}

/// The views of signatures in order.
pub open spec fn sigs_view(s: Seq<Sig>) -> Seq<SigV> {
    Seq::new(s.len(), |i: int| s[i].view())
}

/// A variable that can be referred to.
pub struct Var {
    pub name: String,
    pub ty: Type,
}

impl Var {
    /// The view of this variable.
    pub open spec fn view(&self) -> VarV {
        VarV { name: self.name@, ty: self.ty }
    }
}

/// The views of variables in order.
pub open spec fn vars_view(s: Seq<Var>) -> Seq<VarV> {
    Seq::new(s.len(), |i: int| s[i].view())
}

/// The texts of messages in order.
pub open spec fn messages_view(s: Seq<String>) -> Errors {
    Seq::new(s.len(), |i: int| s[i]@)
}

/// A pass over a program that collects everything that is wrong with it.
pub struct TypeChecker {
    pub function_sigs: Vec<Sig>,
    /// The variables that can be referred to, in the order of their declarations. A block takes
    /// back what it declared.
    pub vars: Vec<Var>,
    pub current_return_type: Type,
    pub errors: Vec<String>,
}

impl TypeChecker {
    /// What is visible at this point.
    pub open spec fn at(&self) -> Visible {
        Visible { sigs: sigs_view(self.function_sigs@), vars: vars_view(self.vars@) }
    }

    /// The messages so far.
    pub open spec fn errs(&self) -> Errors {
        messages_view(self.errors@)
    }

    /// Nothing but the messages differs from `before`, and `more` came behind them.
    pub open spec fn reported(&self, before: TypeChecker, more: Errors) -> bool {
        &&& self.function_sigs@ == before.function_sigs@
        &&& self.vars@ == before.vars@
        &&& self.current_return_type == before.current_return_type
        &&& self.errs() == before.errs() + more
    }

    /// The variables are `vars`, and `errors` are the messages; nothing else differs from `before`.
    pub open spec fn moved(&self, before: TypeChecker, vars: Seq<VarV>, errors: Errors) -> bool {
        &&& self.function_sigs@ == before.function_sigs@
        &&& vars_view(self.vars@) == vars
        &&& self.current_return_type == before.current_return_type
        &&& self.errs() == errors
    }

    /// Checks every function and the entry block. Gives every problem that was found, not only
    /// the first one.
    pub fn check_program(program: &Program) -> (r: Result<(), Vec<String>>)
        ensures
            match r {
                Ok(()) => program_problems(program@).len() == 0,
                Err(m) => messages_view(m@) == program_problems(program@) && m@.len() > 0,
            },
    {
        let mut tc: TypeChecker = TypeChecker {
            function_sigs: Vec::new(),
            vars: Vec::new(),
            current_return_type: Type::Void,
            errors: Vec::new(),
        };
        let ghost fs = functions_view(program.functions@);
        let mut i: usize = 0;
        while i < program.functions.len()
            invariant
                i <= program.functions@.len(),
                fs == functions_view(program.functions@),
                tc.errors@.len() == 0,
                sigs_view(tc.function_sigs@) == sigs_of(fs.take(i as int)),
            decreases program.functions@.len() - i,
        {
            let f: &Function = &program.functions[i];
            let ghost before = sigs_view(tc.function_sigs@);
            let sig: Sig = signature(f);
            tc.function_sigs.push(sig);
            i = i + 1;
            proof {
                assert(sigs_view(tc.function_sigs@) =~= before.push(sig@));
                assert(sigs_of(fs.take(i as int)) =~= before.push(sig_of(f@)));
            }
        }
        assert(fs.take(fs.len() as int) =~= fs);
        assert(tc.errs() =~= fine());
        let ghost sigs = sigs_of(fs);
        let mut i: usize = 0;
        while i < program.functions.len()
            invariant
                i <= program.functions@.len(),
                fs == functions_view(program.functions@),
                sigs_view(tc.function_sigs@) == sigs,
                tc.errs() == functions_problems(sigs, fs, i as nat),
            decreases program.functions@.len() - i,
        {
            assert(fs[i as int] == program.functions@[i as int]@);
            proof {
                lemma_join(fine(), functions_problems(sigs, fs, i as nat), function_problems(sigs, fs[i as int]));
            }
            tc.check_function(&program.functions[i]);
            i = i + 1;
        }
        tc.check_entry(&program.entry);
        assert(tc.errs() == program_problems(program@));
        if tc.errors.is_empty() {
            Ok(())
        } else {
            Err(tc.errors)
        }
    }

    /// Adds a message.
    fn error(&mut self, message: String)
        ensures
            final(self).reported(*old(self), problem(message@)),
    {
        self.errors.push(message);
        assert(self.errs() =~= old(self).errs() + problem(message@));
    }

    /// Checks a function: its parameters are visible in its whole body.
    fn check_function(&mut self, f: &Function)
        ensures
            sigs_view(final(self).function_sigs@) == sigs_view(old(self).function_sigs@),
            final(self).errs() == old(self).errs() + function_problems(sigs_view(old(self).function_sigs@), f@),
    {
        self.vars.clear();
        self.current_return_type = f.return_type;
        let ghost ps = params_view(f.params@);
        assert(vars_view(self.vars@) =~= Seq::empty());
        let mut i: usize = 0;
        while i < f.params.len()
            invariant
                i <= f.params@.len(),
                ps == params_view(f.params@),
                self.function_sigs@ == old(self).function_sigs@,
                self.errs() == old(self).errs(),
                self.current_return_type == f.return_type,
                vars_view(self.vars@) == declare_params(ps, i as nat),
            decreases f.params@.len() - i,
        {
            assert(ps[i as int] == f.params@[i as int]@);
            self.declare(f.params[i].name.clone(), f.params[i].ty);
            i = i + 1;
        }
        self.check_block(&f.body);
    }

    /// Checks the entry block.
    fn check_entry(&mut self, entry: &Vec<Stmt>)
        ensures
            sigs_view(final(self).function_sigs@) == sigs_view(old(self).function_sigs@),
            final(self).errs() == old(self).errs() + check_stmts(
                Visible { sigs: sigs_view(old(self).function_sigs@), vars: Seq::empty() },
                Type::Void,
                block_view(entry@),
                entry@.len(),
            ).1,
    {
        self.vars.clear();
        self.current_return_type = Type::Void;
        assert(vars_view(self.vars@) =~= Seq::empty());
        self.check_block(entry);
    }

    /// Whether a variable of this name and type is visible.
    fn is_declared(&self, name: &str, ty: Type) -> (r: bool)
        ensures
            r == declared(vars_view(self.vars@), name@, ty),
    {
        let mut i: usize = 0;
        while i < self.vars.len()
            invariant
                i <= self.vars@.len(),
                forall|k: int|
                    0 <= k < i ==> !((#[trigger] vars_view(self.vars@)[k]).name == name@ && vars_view(self.vars@)[k].ty
                        == ty),
            decreases self.vars@.len() - i,
        {
            assert(vars_view(self.vars@)[i as int] == self.vars@[i as int]@);
            if self.vars[i].ty == ty && same_text(&self.vars[i].name, name) {
                return true;
            }
            i = i + 1;
        }
        false
    }

    /// Makes a variable visible.
    pub fn declare(&mut self, name: String, ty: Type)
        ensures
            final(self).moved(*old(self), declare(vars_view(old(self).vars@), name@, ty), old(self).errs()),
    {
        if !self.is_declared(&name, ty) {
            let v: Var = Var { name, ty };
            self.vars.push(v);
            assert(vars_view(self.vars@) =~= vars_view(old(self).vars@).push(v@));
        }
    }

    /// Takes back the variables that were declared since there were `start` of them.
    pub fn pop_scope(&mut self, start: usize)
        requires
            start <= old(self).vars@.len(),
        ensures
            final(self).moved(*old(self), vars_view(old(self).vars@).take(start as int), old(self).errs()),
    {
        self.vars.truncate(start);
        assert(vars_view(self.vars@) =~= vars_view(old(self).vars@).take(start as int));
    }

    /// Checks a block. What it declares is gone afterwards.
    pub fn check_block(&mut self, block: &Vec<Stmt>)
        ensures
            final(self).moved(
                *old(self),
                vars_view(old(self).vars@),
                old(self).errs() + check_stmts(
                    old(self).at(),
                    old(self).current_return_type,
                    block_view(block@),
                    block@.len(),
                ).1,
            ),
        decreases block, 0int,
    {
        let start: usize = self.vars.len();
        let ghost b = block_view(block@);
        let ghost at = self.at();
        let ghost o = self.errs();
        let ghost ret = self.current_return_type;
        let mut i: usize = 0;
        proof {
            lemma_join(o, fine(), fine());
        }
        while i < block.len()
            invariant
                i <= block@.len(),
                b == block_view(block@),
                at == old(self).at(),
                o == old(self).errs(),
                ret == old(self).current_return_type,
                self.moved(*old(self), check_stmts(at, ret, b, i as nat).0, o + check_stmts(at, ret, b, i as nat).1),
            decreases block@.len() - i,
        {
            assert(b[i as int] == block@[i as int]@);
            proof {
                lemma_join(o, check_stmts(at, ret, b, i as nat).1, check_stmt(self.at(), ret, b[i as int]).1);
            }
            self.check_stmt(&block[i]);
            i = i + 1;
        }
        proof {
            lemma_vars_kept(at, self.current_return_type, b, b.len());
        }
        self.pop_scope(start);
        assert(vars_view(self.vars@) =~= vars_view(old(self).vars@));
    }
}

impl TypeChecker {
    /// Checks a statement.
    pub fn check_stmt(&mut self, stmt: &Stmt)
        ensures
            final(self).moved(
                *old(self),
                check_stmt(old(self).at(), old(self).current_return_type, stmt@).0,
                old(self).errs() + check_stmt(old(self).at(), old(self).current_return_type, stmt@).1,
            ),
        decreases stmt, 0int,
    {
        let ghost o = self.errs();
        let ghost at = self.at();
        let ghost ret = self.current_return_type;
        proof {
            lemma_block_view(*stmt);
            lemma_join(o, fine(), fine());
        }
        match stmt {
            Stmt::VarDecl(name, ty, e) => {
                self.check_assigned(name, *ty, e);
                self.declare(name.clone(), *ty);
            },
            Stmt::Input(name, ty, source) => {
                if !matches!(*ty, Type::Str | Type::Num(_)) {
                    let t: String = ty.to_text();
                    self.error(text3("input: doesn't support ", &t, " yet (only str and num)"));
                }
                proof {
                    let a = problem_if(
                        !(*ty is Str || *ty is Num),
                        "input: doesn't support "@ + type_text(*ty) + " yet (only str and num)"@,
                    );
                    lemma_join(o, a, optional_path_problems(at, expr_opt_view(*source), "[from*...*]"@));
                }
                match source {
                    Some(e) => self.check_path(e, "[from*...*]"),
                    None => {},
                }
                self.declare(name.clone(), *ty);
            },
            Stmt::Clock(name, ty) => {
                if !matches!(*ty, Type::Num(_)) {
                    let t: String = ty.to_text();
                    self.error(text3("clock: doesn't support ", &t, " yet (only num)"));
                }
                self.declare(name.clone(), *ty);
            },
            Stmt::Assign(name, ty, e) => {
                if self.is_declared(name, *ty) {
                    self.check_assigned(name, *ty, e);
                } else {
                    let t: String = ty.to_text();
                    let message: String = text4("assignment to undeclared variable '", name, "' of type ", &t);
                    proof {
                        lemma_join(o, problem(message@), check(at, e@).1);
                    }
                    self.error(message);
                    let _ = self.check_expr(e);
                }
            },
            Stmt::ArrayIndexAssign(name, ty, index, value) => self.check_element_assigned(name, *ty, index, value),
            Stmt::Append(array, value) => self.check_append(array, value),
            Stmt::Return(e) => self.check_return(e),
            Stmt::Print(segments, dest) => {
                proof {
                    lemma_join(
                        o,
                        segments_problems(at, segments_view(segments@), segments@.len()),
                        optional_path_problems(at, expr_opt_view(*dest), "[to*...*]"@),
                    );
                }
                self.check_print_segments(segments);
                match dest {
                    Some(e) => self.check_path(e, "[to*...*]"),
                    None => {},
                }
            },
            Stmt::Overwrite(segments, dest) => {
                proof {
                    lemma_join(
                        o,
                        segments_problems(at, segments_view(segments@), segments@.len()),
                        path_problems(at, dest@, "[to*...*]"@),
                    );
                }
                self.check_print_segments(segments);
                self.check_path(dest, "[to*...*]");
            },
            Stmt::Read(source) => self.check_path(source, "read*...*"),
            Stmt::ExprStmt(e) => {
                proof {
                    lemma_exprs_view(*e);
                }
                match e {
                    Expr::Call(name, args) => {
                        let _ = self.check_call(name, args);
                    },
                    _ => {
                        let _ = self.check_expr(e);
                    },
                }
            },
            Stmt::If(cond, then_block, else_block) => {
                proof {
                    let a = condition_problems(at, cond@);
                    let b = check_stmts(at, ret, block_view(then_block@), then_block@.len()).1;
                    let c = match else_block {
                        Some(b) => check_stmts(at, ret, block_view(b@), b@.len()).1,
                        None => fine(),
                    };
                    lemma_join(o, a, b);
                    lemma_join(o, a + b, c);
                }
                self.check_condition(cond);
                self.check_block(then_block);
                match else_block {
                    Some(b) => self.check_block(b),
                    None => {},
                }
            },
            Stmt::While(cond, body) => {
                proof {
                    lemma_join(
                        o,
                        condition_problems(at, cond@),
                        check_stmts(at, ret, block_view(body@), body@.len()).1,
                    );
                }
                self.check_condition(cond);
                self.check_block(body);
            },
        }
    }

    /// Checks a value for a variable.
    fn check_assigned(&mut self, name: &String, ty: Type, e: &Expr)
        ensures
            final(self).reported(*old(self), assign_problems(old(self).at(), name@, ty, e@)),
    {
        proof {
            let (t, a) = check_for(self.at(), e@, ty);
            lemma_join(self.errs(), a, misfit(t, ty, |t: Type| cannot_assign(t, name@, ty)));
        }
        match self.check_expr_for(e, ty) {
            Some(t) => {
                if !coercible(t, ty) {
                    let from: String = t.to_text();
                    let to: String = ty.to_text();
                    self.error(text6("cannot assign ", &from, " to variable '", name, "' declared as ", &to));
                }
            },
            None => {},
        }
    }

    /// Checks an assignment to an element of an array.
    fn check_element_assigned(&mut self, name: &String, ty: Type, index: &Expr, value: &Expr)
        ensures
            final(self).reported(*old(self), element_assign_problems(old(self).at(), name@, ty, index@, value@)),
    {
        let ghost o = self.errs();
        let ghost at = self.at();
        proof {
            let unknown = var_problems(at.vars, name@, ty);
            let (it, index_errors) = check(at, index@);
            let ip = index_errors + index_problems(it);
            let first = unknown + ip;
            lemma_join(o, unknown, ip);
            match ty {
                Type::Array(element) => {
                    let target = element_as_type(element);
                    let (t, errors) = check_for(at, value@, target);
                    let message = |t: Type|
                        "cannot assign "@ + type_text(t) + " to array element of type "@ + type_text(target);
                    lemma_join(o, first, errors);
                    lemma_join(o, first + errors, misfit(t, target, message));
                    lemma_join(o, first, check(at, value@).1);
                },
                _ => {
                    let p = problem(crate::typing::not_indexable(name@, ty));
                    lemma_join(o, first, p);
                    lemma_join(o, first + p, check(at, value@).1);
                },
            }
        }
        let known: bool = self.check_var_ref(name, ty);
        self.check_index(index);
        match ty {
            Type::Array(element) => {
                if known {
                    let target: Type = element.as_type();
                    match self.check_expr_for(value, target) {
                        Some(t) => {
                            if !coercible(t, target) {
                                let from: String = t.to_text();
                                let to: String = target.to_text();
                                self.error(text4("cannot assign ", &from, " to array element of type ", &to));
                            }
                        },
                        None => {},
                    }
                } else {
                    let _ = self.check_expr(value);
                }
            },
            _ => {
                self.error_not_indexable(name, ty);
                let _ = self.check_expr(value);
            },
        }
    }

    /// Adds the message about indexing something that is no array.
    fn error_not_indexable(&mut self, name: &String, ty: Type)
        ensures
            final(self).reported(*old(self), problem(crate::typing::not_indexable(name@, ty))),
    {
        let t: String = ty.to_text();
        self.error(text5("'", name, "' can't be indexed -- declared as ", &t, ", not an array"));
    }

    /// Checks an index of an array.
    fn check_index(&mut self, index: &Expr)
        ensures
            final(self).reported(
                *old(self),
                check(old(self).at(), index@).1 + index_problems(check(old(self).at(), index@).0),
            ),
        decreases index, 2int, 0int,
    {
        proof {
            let (t, a) = check(self.at(), index@);
            lemma_join(self.errs(), a, index_problems(t));
        }
        proof {
            reveal(index_problems);
        }
        match self.check_expr(index) {
            Some(t) => {
                if shape_of(t) != Shape::Float {
                    let shown: String = t.to_text();
                    self.error(text2("array index must be num, got ", &shown));
                }
            },
            None => {},
        }
    }

    /// Checks an `append`.
    fn check_append(&mut self, array: &Expr, value: &Expr)
        ensures
            final(self).reported(*old(self), append_problems(old(self).at(), array@, value@)),
    {
        let ghost o = self.errs();
        let ghost at = self.at();
        proof {
            let (found, first) = check(at, array@);
            let rest = check(at, value@).1;
            lemma_join(o, first, rest);
            match found {
                Some(Type::Array(element)) => {
                    let target = element_as_type(element);
                    let (t, errors) = check_for(at, value@, target);
                    let message = |t: Type| "cannot append "@ + type_text(t) + " to an array of "@ + type_text(target);
                    lemma_join(o, first, errors);
                    lemma_join(o, first + errors, misfit(t, target, message));
                    let p = problem("append*...*'s first argument must be an array variable"@);
                    lemma_join(o, first, p);
                    lemma_join(o, first + p, rest);
                },
                Some(other) => {
                    let p = problem("append*...*'s first argument must be an array, got "@ + type_text(other));
                    lemma_join(o, first, p);
                    lemma_join(o, first + p, rest);
                },
                None => {},
            }
        }
        match self.check_expr(array) {
            Some(Type::Array(element)) => {
                if matches!(array, Expr::Var(_, _)) {
                    let target: Type = element.as_type();
                    match self.check_expr_for(value, target) {
                        Some(t) => {
                            if !coercible(t, target) {
                                let from: String = t.to_text();
                                let to: String = target.to_text();
                                self.error(text4("cannot append ", &from, " to an array of ", &to));
                            }
                        },
                        None => {},
                    }
                } else {
                    self.error(text1("append*...*'s first argument must be an array variable"));
                    let _ = self.check_expr(value);
                }
            },
            Some(other) => {
                let t: String = other.to_text();
                self.error(text2("append*...*'s first argument must be an array, got ", &t));
                let _ = self.check_expr(value);
            },
            None => {
                let _ = self.check_expr(value);
            },
        }
    }

    /// Checks a `return`.
    fn check_return(&mut self, e: &Option<Expr>)
        ensures
            final(self).reported(
                *old(self),
                return_problems(old(self).at(), old(self).current_return_type, expr_opt_view(*e)),
            ),
    {
        proof {
            lemma_join(self.errs(), fine(), fine());
            match e {
                Some(e) => {
                    let ret = self.current_return_type;
                    let (t, a) = check_for(self.at(), e@, ret);
                    let message = |t: Type|
                        "returning "@ + type_text(t) + " but the function is declared to return "@ + type_text(ret);
                    lemma_join(self.errs(), a, misfit(t, ret, message));
                },
                None => {},
            }
        }
        let ret: Type = self.current_return_type;
        match e {
            Some(e) => match self.check_expr_for(e, ret) {
                Some(t) => {
                    if !coercible(t, ret) {
                        let from: String = t.to_text();
                        let to: String = ret.to_text();
                        self.error(text4("returning ", &from, " but the function is declared to return ", &to));
                    }
                },
                None => {},
            },
            None => {
                if ret != Type::Void {
                    let to: String = ret.to_text();
                    self.error(text2("bare return in a function declared to return ", &to));
                }
            },
        }
    }

    /// Checks a condition.
    fn check_condition(&mut self, cond: &Expr)
        ensures
            final(self).reported(*old(self), condition_problems(old(self).at(), cond@)),
    {
        proof {
            let (t, a) = check(self.at(), cond@);
            lemma_join(
                self.errs(),
                a,
                match t {
                    Some(t) => problem_if(t != Type::Bool, "condition must be bool, got "@ + type_text(t)),
                    None => fine(),
                },
            );
        }
        match self.check_expr(cond) {
            Some(t) => {
                if t != Type::Bool {
                    let shown: String = t.to_text();
                    self.error(text2("condition must be bool, got ", &shown));
                }
            },
            None => {},
        }
    }

    /// Checks the pieces of a `print`.
    fn check_print_segments(&mut self, segments: &Vec<PrintSegment>)
        ensures
            final(self).reported(
                *old(self),
                segments_problems(old(self).at(), segments_view(segments@), segments@.len()),
            ),
    {
        let ghost sv = segments_view(segments@);
        let ghost o = self.errs();
        let ghost at = self.at();
        proof {
            lemma_join(o, fine(), fine());
        }
        let mut i: usize = 0;
        while i < segments.len()
            invariant
                i <= segments@.len(),
                sv == segments_view(segments@),
                o == old(self).errs(),
                at == old(self).at(),
                self.reported(*old(self), segments_problems(at, sv, i as nat)),
            decreases segments@.len() - i,
        {
            assert(sv[i as int] == segments@[i as int]@);
            proof {
                lemma_join(o, segments_problems(at, sv, i as nat), segment_problems(at, sv[i as int]));
                if let SegmentV::Expr(e) = sv[i as int] {
                    let (t, a) = check(at, e);
                    lemma_join(
                        self.errs(),
                        a,
                        match t {
                            Some(t) => problem_if(
                                t is Array,
                                "can't print an array value directly, got "@ + type_text(t),
                            ),
                            None => fine(),
                        },
                    );
                }
            }
            match &segments[i] {
                PrintSegment::Str(_) => {},
                PrintSegment::Expr(e) => match self.check_expr(e) {
                    Some(t) => {
                        if matches!(t, Type::Array(_)) {
                            let shown: String = t.to_text();
                            self.error(text2("can't print an array value directly, got ", &shown));
                        }
                    },
                    None => {},
                },
            }
            i = i + 1;
        }
    }

    /// Checks a path. `what` says where it stands.
    fn check_path(&mut self, e: &Expr, what: &str)
        ensures
            final(self).reported(*old(self), path_problems(old(self).at(), e@, what@)),
    {
        proof {
            let (t, a) = check(self.at(), e@);
            lemma_join(
                self.errs(),
                a,
                match t {
                    Some(t) => problem_if(!(t is Str || t is File), what@ + " must be str or file, got "@ + type_text(t)),
                    None => fine(),
                },
            );
        }
        match self.check_expr(e) {
            Some(t) => {
                if !matches!(t, Type::Str | Type::File) {
                    let shown: String = t.to_text();
                    self.error(text3(what, " must be str or file, got ", &shown));
                }
            },
            None => {},
        }
    }

    /// The type of an expression, where nothing is known of what it is used for. `None` if
    /// something inside it is wrong already.
    fn check_expr(&mut self, e: &Expr) -> (r: Option<Type>)
        ensures
            final(self).reported(*old(self), check(old(self).at(), e@).1),
            r == check(old(self).at(), e@).0,
        decreases e, 1int, 0int,
    {
        let ghost o = self.errs();
        let ghost at = self.at();
        proof {
            lemma_exprs_view(*e);
            lemma_join(o, fine(), fine());
        }
        match e {
            Expr::Num(_) => Some(Type::Num(DEFAULT_NUM_PRECISION)),
            Expr::Bool(_) => Some(Type::Bool),
            Expr::Str(_) => Some(Type::Str),
            Expr::Var(name, ty) => {
                if self.check_var_ref(name, *ty) {
                    Some(*ty)
                } else {
                    None
                }
            },
            Expr::ArrayLiteral(_) => {
                self.error(
                    text1(
                        "array literal needs a known target type here (e.g. a var:array:TYPE declaration, argument, or return)",
                    ),
                );
                None
            },
            Expr::ArrayIndex(name, ty, index) => {
                proof {
                    let unfit = problem_if(!(*ty is Array), crate::typing::not_indexable(name@, *ty));
                    let unknown = var_problems(at.vars, name@, *ty);
                    let (t, errors) = check(at, index@);
                    lemma_join(o, unfit, unknown);
                    lemma_join(o, unfit + unknown, errors + index_problems(t));
                }
                if !matches!(*ty, Type::Array(_)) {
                    self.error_not_indexable(name, *ty);
                }
                let known: bool = self.check_var_ref(name, *ty);
                self.check_index(index);
                match *ty {
                    Type::Array(element) => if known {
                        Some(element.as_type())
                    } else {
                        None
                    },
                    _ => None,
                }
            },
            Expr::Length(array) => match self.check_expr(array) {
                Some(Type::Array(_)) => Some(Type::Num(DEFAULT_NUM_PRECISION)),
                Some(other) => {
                    let t: String = other.to_text();
                    let message: String = text2("length*...* expects an array, got ", &t);
                    proof {
                        lemma_join(o, check(at, array@).1, problem(message@));
                    }
                    self.error(message);
                    None
                },
                None => None,
            },
            Expr::Unary(op, inner) => {
                let t: Option<Type> = self.check_expr(inner);
                proof {
                    lemma_join(o, check(at, inner@).1, apply_unary(*op, t).1);
                }
                self.check_unary(*op, t)
            },
            Expr::Binary(_, op, _) => {
                let (lt, rt) = self.check_pair(e);
                proof {
                    lemma_join(o, check_pair(at, e@).2, apply_binary(*op, lt, rt).1);
                }
                self.check_operands(*op, lt, rt)
            },
            Expr::Call(name, args) => match self.check_call(name, args) {
                Some(Type::Void) => {
                    let message: String = text3("function '", name, "' returns nothing, can't be used as a value");
                    proof {
                        lemma_join(o, check_call(at, name@, exprs_view(args@)).1, problem(message@));
                    }
                    self.error(message);
                    None
                },
                t => t,
            },
        }
    }

    /// The types of the two operands of `e`.
    fn check_pair(&mut self, e: &Expr) -> (p: (Option<Type>, Option<Type>))
        ensures
            final(self).reported(*old(self), check_pair(old(self).at(), e@).2),
            p.0 == check_pair(old(self).at(), e@).0,
            p.1 == check_pair(old(self).at(), e@).1,
        decreases e, 0int, 0int,
    {
        let ghost o = self.errs();
        let ghost at = self.at();
        proof {
            lemma_join(o, fine(), fine());
        }
        match e {
            Expr::Binary(l, op, r) => {
                assert((**l)@ is Num == (**l is Num));
                assert((**r)@ is Num == (**r is Num));
                match (&**l, &**r) {
                    (Expr::Num(_), Expr::Num(_)) => {
                        let num: Option<Type> = Some(Type::Num(DEFAULT_NUM_PRECISION));
                        (num, num)
                    },
                    (Expr::Num(text), other) => {
                        let rt: Option<Type> = self.check_expr(other);
                        proof {
                            lemma_join(o, check(at, other@).1, literal_beside(text@, *op, rt).1);
                        }
                        let lt: Option<Type> = self.check_literal_beside(text, *op, rt);
                        (lt, rt)
                    },
                    (other, Expr::Num(text)) => {
                        let lt: Option<Type> = self.check_expr(other);
                        proof {
                            lemma_join(o, check(at, other@).1, literal_beside(text@, *op, lt).1);
                        }
                        let rt: Option<Type> = self.check_literal_beside(text, *op, lt);
                        (lt, rt)
                    },
                    (left, right) => {
                        proof {
                            lemma_join(o, check(at, left@).1, check(at, right@).1);
                        }
                        let lt: Option<Type> = self.check_expr(left);
                        let rt: Option<Type> = self.check_expr(right);
                        (lt, rt)
                    },
                }
            },
            _ => (None, None),
        }
    }

    /// The type of an operator applied to one operand.
    fn check_unary(&mut self, op: UnOp, t: Option<Type>) -> (r: Option<Type>)
        ensures
            final(self).reported(*old(self), apply_unary(op, t).1),
            r == apply_unary(op, t).0,
    {
        proof {
            lemma_join(self.errs(), fine(), fine());
        }
        proof {
            reveal(apply_unary);
        }
        match t {
            Some(t) => match unary_result(op, t) {
                Some(r) => Some(r),
                None => {
                    let o: String = op.to_text();
                    let shown: String = t.to_text();
                    self.error(text3(&o, " not supported on ", &shown));
                    None
                },
            },
            None => None,
        }
    }

    /// The type of an operator applied to two operands.
    fn check_operands(&mut self, op: BinOp, l: Option<Type>, r: Option<Type>) -> (t: Option<Type>)
        ensures
            final(self).reported(*old(self), apply_binary(op, l, r).1),
            t == apply_binary(op, l, r).0,
    {
        proof {
            lemma_join(self.errs(), fine(), fine());
        }
        proof {
            reveal(apply_binary);
        }
        match (l, r) {
            (Some(l), Some(r)) => {
                if op == BinOp::Concat {
                    if matches!(l, Type::Array(_)) || matches!(r, Type::Array(_)) {
                        let a: String = l.to_text();
                        let b: String = r.to_text();
                        self.error(text5("stch doesn't support array operands (", &a, " / ", &b, ")"));
                        None
                    } else {
                        Some(Type::Str)
                    }
                } else {
                    self.check_binary(op, l, r)
                }
            },
            _ => None,
        }
    }

    /// The type of an operator other than `stch` applied to two operands.
    pub fn check_binary(&mut self, op: BinOp, l: Type, r: Type) -> (t: Option<Type>)
        ensures
            match binary_type(op, l, r) {
                Ok(ty) => t == Some(ty) && final(self).reported(*old(self), fine()),
                Err(m) => t is None && final(self).reported(*old(self), problem(m)),
            },
    {
        proof {
            lemma_join(self.errs(), fine(), fine());
        }
        let o: String = op.to_text();
        let arithmetic: bool = arithmetic_op(op);
        let comparison: bool = comparison_op(op);
        let ls: Shape = shape_of(l);
        let rs: Shape = shape_of(r);
        if ls == Shape::Float && rs == Shape::Float {
            if arithmetic {
                Some(Type::Num(DEFAULT_NUM_PRECISION))
            } else if comparison {
                Some(Type::Bool)
            } else {
                self.error(text2(&o, " requires bool operands, not num"));
                None
            }
        } else if ls == Shape::Bool && rs == Shape::Bool {
            if matches!(op, BinOp::Eq | BinOp::Ne | BinOp::And | BinOp::Or) {
                Some(Type::Bool)
            } else {
                self.error(text2(&o, " not supported on bool operands"));
                None
            }
        } else {
            match (l, r) {
                (Type::Int(a), Type::Int(b)) => {
                    if arithmetic {
                        Some(Type::Int(max_width(a, b)))
                    } else if comparison {
                        Some(Type::Bool)
                    } else {
                        self.error(text2(&o, " requires bool operands, not int"));
                        None
                    }
                },
                (Type::BigInt, Type::BigInt) => {
                    if arithmetic {
                        Some(Type::BigInt)
                    } else if comparison {
                        Some(Type::Bool)
                    } else {
                        self.error(text2(&o, " requires bool operands, not bigint"));
                        None
                    }
                },
                (Type::BigNum(a), Type::BigNum(b)) => self.check_bignum(op, max_width(a, b)),
                (Type::BigNum(a), Type::Num(_)) | (Type::BigNum(a), Type::NumW(_)) => self.check_bignum(op, a),
                (Type::Num(_), Type::BigNum(b)) | (Type::NumW(_), Type::BigNum(b)) => self.check_bignum(op, b),
                _ => {
                    let a: String = l.to_text();
                    let b: String = r.to_text();
                    self.error(text5(&o, " used with mismatched operand types ", &a, " / ", &b));
                    None
                },
            }
        }
    }

    /// The type of an operator applied to two bignums, the wider of which has precision `p`.
    fn check_bignum(&mut self, op: BinOp, p: u32) -> (t: Option<Type>)
        ensures
            match bignum_type(op, p) {
                Ok(ty) => t == Some(ty) && final(self).reported(*old(self), fine()),
                Err(m) => t is None && final(self).reported(*old(self), problem(m)),
            },
    {
        proof {
            lemma_join(self.errs(), fine(), fine());
        }
        if comparison_op(op) {
            Some(Type::Bool)
        } else if arithmetic_op(op) {
            Some(Type::BigNum(p))
        } else {
            let o: String = op.to_text();
            self.error(text2(&o, " not supported on bignum yet"));
            None
        }
    }

    /// The type of what a call gives, which may be `Void`.
    fn check_call(&mut self, name: &String, args: &Vec<Expr>) -> (r: Option<Type>)
        ensures
            final(self).reported(*old(self), check_call(old(self).at(), name@, exprs_view(args@)).1),
            r == check_call(old(self).at(), name@, exprs_view(args@)).0,
        decreases args, 2int, 0int,
    {
        let ghost at = self.at();
        let ghost o = self.errs();
        let ghost av = exprs_view(args@);
        proof {
            lemma_join(o, fine(), fine());
        }
        match self.find_callee(name) {
            None => {
                let message: String = text3("undefined function '", name, "'");
                proof {
                    lemma_join(o, problem(message@), check_each(at, av, av.len()));
                }
                self.error(message);
                self.check_all(args);
                None
            },
            Some(k) => {
                let expected: usize = self.function_sigs[k].params.len();
                if args.len() != expected {
                    let a: String = decimal_text(expected as u64);
                    let b: String = decimal_text(args.len() as u64);
                    let message: String = text6("function '", name, "' expects ", &a, " argument(s), got ", &b);
                    proof {
                        lemma_join(o, problem(message@), check_each(at, av, av.len()));
                    }
                    self.error(message);
                    self.check_all(args);
                    return None;
                }
                let ghost sig = at.sigs[k as int];
                let mut ok: bool = true;
                let mut i: usize = 0;
                while i < args.len()
                    invariant
                        i <= args@.len(),
                        at == old(self).at(),
                        o == old(self).errs(),
                        av == exprs_view(args@),
                        k < self.function_sigs@.len(),
                        sig == at.sigs[k as int],
                        sig.params.len() == args@.len(),
                        self.reported(*old(self), check_args(at, name@, av, sig.params, i as nat).1),
                        ok == check_args(at, name@, av, sig.params, i as nat).0,
                    decreases args@.len() - i,
                {
                    assert(sig == self.function_sigs@[k as int]@);
                    let expected: Type = self.function_sigs[k].params[i];
                    assert(av[i as int] == args@[i as int]@);
                    assert(self.at() == at);
                    let ghost before = check_args(at, name@, av, sig.params, i as nat).1;
                    let ghost more = check_for(at, av[i as int], expected).1;
                    proof {
                        lemma_join(o, before, more);
                    }
                    match self.check_expr_for(&args[i], expected) {
                        Some(t) => {
                            if !coercible(t, expected) {
                                let a: String = expected.to_text();
                                let b: String = t.to_text();
                                let message: String = text6(
                                    "function '",
                                    name,
                                    "' argument type mismatch: expected ",
                                    &a,
                                    ", got ",
                                    &b,
                                );
                                proof {
                                    lemma_join(o, before + more, problem(message@));
                                }
                                self.error(message);
                                ok = false;
                            }
                        },
                        None => {
                            ok = false;
                        },
                    }
                    i = i + 1;
                }
                if ok {
                    Some(self.function_sigs[k].return_type)
                } else {
                    None
                }
            },
        }
    }

    /// Checks expressions of which nothing is known.
    fn check_all(&mut self, es: &Vec<Expr>)
        ensures
            final(self).reported(*old(self), check_each(old(self).at(), exprs_view(es@), es@.len())),
        decreases es, 1int, 0int,
    {
        let ghost at = self.at();
        let ghost o = self.errs();
        let ghost ev = exprs_view(es@);
        proof {
            lemma_join(o, fine(), fine());
        }
        let mut i: usize = 0;
        while i < es.len()
            invariant
                i <= es@.len(),
                at == old(self).at(),
                o == old(self).errs(),
                ev == exprs_view(es@),
                self.reported(*old(self), check_each(at, ev, i as nat)),
            decreases es@.len() - i,
        {
            assert(ev[i as int] == es@[i as int]@);
            assert(self.at() == at);
            proof {
                lemma_join(o, check_each(at, ev, i as nat), check(at, ev[i as int]).1);
            }
            let _ = self.check_expr(&es[i]);
            i = i + 1;
        }
    }

    /// The index of the signature that a call of this name reaches.
    fn find_callee(&self, name: &str) -> (r: Option<usize>)
        ensures
            match r {
                Some(k) => k < self.function_sigs@.len() && callee(self.at().sigs, name@) == Some(self.at().sigs[k as int]),
                None => callee(self.at().sigs, name@) is None,
            },
    {
        let mut n: usize = self.function_sigs.len();
        while n > 0
            invariant
                n <= self.function_sigs@.len(),
                callee(self.at().sigs, name@) == find_sig(self.at().sigs, name@, n as int),
            decreases n,
        {
            n = n - 1;
            if same_text(&self.function_sigs[n].name, name) {
                return Some(n);
            }
        }
        None
    }

    /// Whether a reference to a variable is right.
    fn check_var_ref(&mut self, name: &String, ty: Type) -> (r: bool)
        ensures
            final(self).reported(*old(self), var_problems(old(self).at().vars, name@, ty)),
            r == (var_problems(old(self).at().vars, name@, ty).len() == 0),
    {
        proof {
            lemma_join(self.errs(), fine(), fine());
        }
        proof {
            reveal(var_problems);
        }
        if self.is_declared(name, ty) {
            return true;
        }
        let t: String = ty.to_text();
        let ghost vars = vars_view(self.vars@);
        let mut i: usize = 0;
        while i < self.vars.len()
            invariant
                i <= self.vars@.len(),
                vars == vars_view(self.vars@),
                *self == *old(self),
                first_of_name(vars, name@, 0) == first_of_name(vars, name@, i as int),
                t@ == crate::ast::type_text(ty),
                !declared(vars, name@, ty),
            decreases self.vars@.len() - i,
        {
            if same_text(&self.vars[i].name, name) {
                proof {
                    reveal(var_problems);
                }
                let actual: String = self.vars[i].ty.to_text();
                self.error(
                    text7(
                        "'",
                        name,
                        "' is declared as ",
                        &actual,
                        ", not ",
                        &t,
                        " -- check the type stated at this reference",
                    ),
                );
                return false;
            }
            i = i + 1;
        }
        self.error(text3("undefined variable '", name, "'"));
        false
    }

    /// The type of an expression that is to be stored, passed or returned as `target`.
    fn check_expr_for(&mut self, e: &Expr, target: Type) -> (r: Option<Type>)
        ensures
            final(self).reported(*old(self), check_for(old(self).at(), e@, target).1),
            r == check_for(old(self).at(), e@, target).0,
        decreases e, 3int, 0int,
    {
        let ghost o = self.errs();
        let ghost at = self.at();
        proof {
            lemma_exprs_view(*e);
        }
        match (e, target) {
            (Expr::Num(text), Type::Int(w)) => self.check_whole_number_literal(text, w, w),
            (Expr::ArrayLiteral(es), Type::Array(element)) => {
                let ok: bool = self.check_array_elements(es, element);
                if ok {
                    Some(target)
                } else {
                    None
                }
            },
            (_, Type::Int(w)) => {
                let t: Option<Type> = self.check_spread(e, target);
                if t.is_some() && literals_overflow(e, w) {
                    let shown: String = target.to_text();
                    let message: String = text2("int overflow: the value of this expression doesn't fit in ", &shown);
                    proof {
                        lemma_join(o, check_spread(at, e@, target).1, problem(message@));
                    }
                    self.error(message);
                    None
                } else {
                    t
                }
            },
            _ => self.check_spread(e, target),
        }
    }

    /// Whether the elements of an array literal fit in an array of `element`.
    fn check_array_elements(&mut self, es: &Vec<Expr>, element: ElementType) -> (ok: bool)
        ensures
            final(self).reported(*old(self), check_elements(old(self).at(), exprs_view(es@), element, es@.len()).1),
            ok == check_elements(old(self).at(), exprs_view(es@), element, es@.len()).0,
        decreases es, 1int, 0int,
    {
        let ghost at = self.at();
        let ghost o = self.errs();
        let ghost ev = exprs_view(es@);
        proof {
            lemma_join(o, fine(), fine());
        }
        let element_type: Type = element.as_type();
        let mut ok: bool = true;
        let mut i: usize = 0;
        while i < es.len()
            invariant
                i <= es@.len(),
                at == old(self).at(),
                o == old(self).errs(),
                ev == exprs_view(es@),
                element_type == crate::ast::element_as_type(element),
                self.reported(*old(self), check_elements(at, ev, element, i as nat).1),
                ok == check_elements(at, ev, element, i as nat).0,
            decreases es@.len() - i,
        {
            assert(ev[i as int] == es@[i as int]@);
            assert(self.at() == at);
            let ghost before = check_elements(at, ev, element, i as nat).1;
            let ghost more = check_for(at, ev[i as int], element_type).1;
            proof {
                lemma_join(o, before, more);
            }
            match self.check_expr_for(&es[i], element_type) {
                Some(t) => {
                    if !coercible(t, element_type) {
                        let a: String = t.to_text();
                        let b: String = Type::Array(element).to_text();
                        let message: String = text4("cannot use ", &a, " as an element of ", &b);
                        proof {
                            lemma_join(o, before + more, problem(message@));
                        }
                        self.error(message);
                        ok = false;
                    }
                },
                None => {
                    ok = false;
                },
            }
            i = i + 1;
        }
        ok
    }

    /// The type of an operand of an expression that has to be `target`.
    fn check_spread(&mut self, e: &Expr, target: Type) -> (r: Option<Type>)
        ensures
            final(self).reported(*old(self), check_spread(old(self).at(), e@, target).1),
            r == check_spread(old(self).at(), e@, target).0,
        decreases e, 2int, 0int,
    {
        let ghost o = self.errs();
        let ghost at = self.at();
        proof {
            lemma_join(o, fine(), fine());
        }
        proof {
            reveal(spread_unary);
        }
        if !matches!(target, Type::Int(_) | Type::BigInt) {
            return self.check_expr(e);
        }
        match e {
            Expr::Num(text) => match target {
                Type::Int(w) => self.check_whole_number_literal(text, w, 64),
                _ => self.check_bigint_literal(text),
            },
            Expr::Unary(op, inner) => {
                let t: Option<Type> = self.check_spread(inner, target);
                proof {
                    lemma_join(o, check_spread(at, inner@, target).1, spread_unary(*op, t).1);
                    lemma_join(self.errs(), fine(), fine());
                }
                match (*op, t) {
                    (_, None) => None,
                    (UnOp::Neg, _) => t,
                    (UnOp::Factorial, _) => self.check_unary(*op, t),
                    (UnOp::Not, Some(t)) => {
                        let o: String = op.to_text();
                        let shown: String = t.to_text();
                        self.error(text3(&o, " not supported on ", &shown));
                        None
                    },
                }
            },
            Expr::Binary(l, op, r) => {
                if *op == BinOp::Concat {
                    return self.check_expr(e);
                }
                let lt: Option<Type> = self.check_spread(l, target);
                let rt: Option<Type> = self.check_spread(r, target);
                proof {
                    let a = check_spread(at, l@, target).1;
                    let b = check_spread(at, r@, target).1;
                    lemma_join(o, a, b);
                    lemma_join(o, a + b, apply_binary(*op, lt, rt).1);
                }
                self.check_operands(*op, lt, rt)
            },
            _ => self.check_expr(e),
        }
    }

    /// A literal next to an operand of type `other`.
    fn check_literal_beside(&mut self, text: &String, op: BinOp, other: Option<Type>) -> (r: Option<Type>)
        ensures
            final(self).reported(*old(self), literal_beside(text@, op, other).1),
            r == literal_beside(text@, op, other).0,
    {
        proof {
            lemma_join(self.errs(), fine(), fine());
        }
        proof {
            reveal(literal_beside);
        }
        match other {
            Some(Type::Int(w)) => if op == BinOp::Concat {
                self.check_whole_number_literal(text, 64, 64)
            } else {
                self.check_whole_number_literal(text, w, w)
            },
            Some(Type::BigInt) => if op == BinOp::Concat {
                Some(Type::Num(DEFAULT_NUM_PRECISION))
            } else {
                self.check_bigint_literal(text)
            },
            _ => Some(Type::Num(DEFAULT_NUM_PRECISION)),
        }
    }

    /// A literal as an `int` of width `w`, which has to be whole and to fit in `bits`.
    fn check_whole_number_literal(&mut self, text: &String, w: u32, bits: u32) -> (r: Option<Type>)
        ensures
            final(self).reported(*old(self), literal_as_int(text@, w, bits).1),
            r == literal_as_int(text@, w, bits).0,
    {
        proof {
            lemma_join(self.errs(), fine(), fine());
        }
        proof {
            reveal(literal_as_int);
        }
        if !whole_number(text) {
            let n: String = shown_numeral(text);
            self.error(text2(&n, " is not a whole number, can't use it as int"));
            None
        } else if capped_whole_value(text) > largest(bits) as u64 {
            let n: String = shown_numeral(text);
            let t: String = Type::Int(bits).to_text();
            self.error(text3(&n, " doesn't fit in ", &t));
            None
        } else {
            Some(Type::Int(w))
        }
    }

    /// A literal as a `bigint`, which has to be whole.
    fn check_bigint_literal(&mut self, text: &String) -> (r: Option<Type>)
        ensures
            final(self).reported(*old(self), literal_as_bigint(text@).1),
            r == literal_as_bigint(text@).0,
    {
        proof {
            lemma_join(self.errs(), fine(), fine());
        }
        proof {
            reveal(literal_as_bigint);
        }
        if !whole_number(text) {
            let n: String = shown_numeral(text);
            self.error(text2(&n, " is not a whole number, can't use it as bigint"));
            None
        } else {
            Some(Type::BigInt)
        }
    }
}

/// The shape of the values of a type.
pub fn shape_of(ty: Type) -> (r: Shape)
    ensures
        r == shape(ty),
{
    match ty {
        Type::Num(_) | Type::NumW(_) => Shape::Float,
        Type::Bool => Shape::Bool,
        Type::Str | Type::File => Shape::Str,
        Type::BigNum(_) => Shape::BigNum,
        Type::Array(_) => Shape::Array,
        Type::Int(_) => Shape::Int,
        Type::BigInt => Shape::BigInt,
        Type::Void => Shape::Nothing,
    }
}

/// Whether a value of type `from` can be stored, passed or returned as `to`.
pub fn coercible(from: Type, to: Type) -> (r: bool)
    ensures
        r == can_coerce(from, to),
{
    match (from, to) {
        (Type::Num(_) | Type::NumW(_), Type::Num(_) | Type::NumW(_)) => true,
        (Type::Num(_) | Type::NumW(_) | Type::Str | Type::BigNum(_), Type::BigNum(_)) => true,
        (Type::Str | Type::File, Type::Str | Type::File) => true,
        (Type::Bool, Type::Bool) => true,
        (Type::Int(_), Type::Int(_)) => true,
        (Type::BigInt, Type::BigInt) => true,
        (Type::Array(a), Type::Array(b)) => a == b,
        _ => false,
    }
}

/// Whether `op` computes a number from two numbers.
pub fn arithmetic_op(op: BinOp) -> (r: bool)
    ensures
        r == is_arithmetic(op),
{
    matches!(op, BinOp::Add | BinOp::Sub | BinOp::Mul | BinOp::Div | BinOp::Pow | BinOp::Tetration)
}

/// Whether `op` compares two values.
pub fn comparison_op(op: BinOp) -> (r: bool)
    ensures
        r == is_comparison(op),
{
    matches!(op, BinOp::Eq | BinOp::Ne | BinOp::Lt | BinOp::Gt | BinOp::Le | BinOp::Ge)
}

/// The type of an operator applied to one value.
fn unary_result(op: UnOp, t: Type) -> (r: Option<Type>)
    ensures
        r == unary_type(op, t),
{
    match (op, t) {
        (UnOp::Neg, Type::Num(_) | Type::NumW(_) | Type::BigNum(_) | Type::Int(_) | Type::BigInt) => Some(t),
        (UnOp::Not, Type::Bool) => Some(Type::Bool),
        (UnOp::Factorial, Type::Num(_) | Type::NumW(_)) => Some(Type::Num(DEFAULT_NUM_PRECISION)),
        (UnOp::Factorial, Type::BigNum(_)) => Some(Type::BigNum(DEFAULT_BIGNUM_PRECISION)),
        (UnOp::Factorial, Type::Int(_)) => Some(Type::Int(DEFAULT_INT_PRECISION)),
        (UnOp::Factorial, Type::BigInt) => Some(Type::BigInt),
        _ => None,
    }
}

/// The largest value of an `int` of width `w`.
fn largest(w: u32) -> (r: i64)
    ensures
        r == int_max(w),
{
    if w == 8 {
        127
    } else if w == 16 {
        32767
    } else if w == 32 {
        2147483647
    } else {
        9223372036854775807
    }
}

/// Whether the literals of an expression of type `int` overflow, or its value does not fit.
fn literals_overflow(e: &Expr, w: u32) -> (r: bool)
    ensures
        r == overflows(e@, w),
{
    match fold_expr(e) {
        Folded::Unknown => false,
        Folded::Overflow => true,
        Folded::Known(v) => {
            let top: i64 = largest(w);
            !(-top - 1 <= v && v <= top)
        },
    }
}

/// A block keeps the variables it found in front of those it declares.
pub proof fn lemma_vars_kept(at: Visible, ret: Type, b: Seq<crate::ast::StmtV>, n: nat)
    ensures
        at.vars.len() <= check_stmts(at, ret, b, n).0.len(),
        check_stmts(at, ret, b, n).0.take(at.vars.len() as int) == at.vars,
    decreases n,
{
    let k = at.vars.len() as int;
    let vars = check_stmts(at, ret, b, n).0;
    if n == 0 || n > b.len() {
        assert(vars.take(k) =~= at.vars);
    } else {
        lemma_vars_kept(at, ret, b, (n - 1) as nat);
        let before = check_stmts(at, ret, b, (n - 1) as nat).0;
        lemma_stmt_vars(Visible { sigs: at.sigs, vars: before }, ret, b[n - 1]);
        assert(vars.take(k) =~= before.take(k));
    }
}

/// A statement declares at most one variable, behind those that are there.
pub proof fn lemma_stmt_vars(at: Visible, ret: Type, s: crate::ast::StmtV)
    ensures
        check_stmt(at, ret, s).0 == at.vars || exists|v: VarV| check_stmt(at, ret, s).0 == #[trigger] at.vars.push(v),
{
    match s {
        crate::ast::StmtV::VarDecl(name, ty, _) => {
            assert(at.vars.push(VarV { name, ty }).len() > 0);
        },
        crate::ast::StmtV::Input(name, ty, _) => {
            assert(at.vars.push(VarV { name, ty }).len() > 0);
        },
        crate::ast::StmtV::Clock(name, ty) => {
            assert(at.vars.push(VarV { name, ty }).len() > 0);
        },
        _ => {},
    }
}

/// What a function takes and gives.
pub fn signature(f: &Function) -> (r: Sig)
    ensures
        r@ == sig_of(f@),
{
    let mut params: Vec<Type> = Vec::new();
    let mut i: usize = 0;
    while i < f.params.len()
        invariant
            i <= f.params@.len(),
            params@ == param_types(params_view(f.params@)).take(i as int),
        decreases f.params@.len() - i,
    {
        params.push(f.params[i].ty);
        i = i + 1;
        assert(params@ =~= param_types(params_view(f.params@)).take(i as int));
    }
    assert(params@ =~= param_types(params_view(f.params@)));
    Sig { name: f.name.clone(), params, return_type: f.return_type }
}

} // verus!
