//! Lowering of statements, functions and whole programs.

use vstd::prelude::*;
use vstd::string::StringExecFns;
use crate::ast::{
    block_view, expr_opt_view, exprs_view, functions_view, lemma_block_view, lemma_exprs_view, params_view,
    segments_view, BinOp, Expr, Function, FunctionV, Param, PrintSegment, Program, SegmentV, Stmt, StmtV, Type,
};
use crate::codegen::{bindings_view, missing_variable, Binding, Codegen};
use crate::emit::{fragment_text, free_slot, Emitter, Out};
use crate::ir::{basic_type, insts_view, Inst, Op, Repr, Rt, Value};
use crate::layout::{
    assign_element, bind_params, block_sites, close_branch, declare, escaped, finish, free_bindings, free_texts,
    hoist, hoist_all, lower_action, lower_append, lower_arm, lower_block, lower_condition, lower_entry,
    lower_function, lower_functions, lower_if, lower_path, lower_print, lower_program, lower_read, lower_return,
    lower_stmt, lower_stmts, lower_while, make_literal, opened, own_variable, pop_scope, print_pieces, print_segments,
    push_scope, read_input, scope, scope_start, segment_sites, site, sites, sites_of, stmt_sites, work,
    write_to_file, Frame, Next, Printing, SiteV, State,
};
use crate::lower::{free_temps, variable, Scope, Work};
use crate::numeral::shown_numeral;
use crate::soundness::accepted_programs_can_be_lowered;
use crate::text::{chars_of, text1, text3};
use crate::typecheck::{signature, sigs_view, Sig};
use crate::typing::{program_problems, sigs_of, SigV};
use crate::wellformed::wf_program;

verus! {

/// A literal that stands beside a bignum or a bigint, and the type that it has there.
pub struct Site {
    pub text: String,
    pub ty: Type,
}

impl Site {
    /// The view of this site.
    pub open spec fn view(&self) -> SiteV {
        SiteV { text: self.text@, ty: self.ty }
    }
}

/// The views of sites in order.
pub open spec fn sites_view(s: Seq<Site>) -> Seq<SiteV> {
    Seq::new(s.len(), |i: int| s[i].view())
}

/// Numbers of variables as natural numbers.
pub open spec fn marks_view(s: Seq<usize>) -> Seq<nat> {
    Seq::new(s.len(), |i: int| s[i] as nat)
}

/// The code of a program, and what it is called.
pub struct Module {
    pub name: String,
    /// What the functions of the program take and give, in order.
    pub functions: Vec<Sig>,
    pub code: Vec<Inst>,
}

impl Codegen {
    /// What lowering a statement changes.
    pub open spec fn state(&self) -> State {
        State {
            out: self.out@,
            temps: self.temps@,
            bindings: bindings_view(self.bindings@),
            scopes: marks_view(self.scopes@),
        }
    }

    /// What is the same for all statements of a function.
    pub open spec fn frame(&self) -> Frame {
        Frame {
            sigs: sigs_view(self.function_sigs@),
            return_type: self.current_return_type,
            in_entry: self.in_entry,
        }
    }

    /// Nothing but the state differs from `before`.
    pub open spec fn same_frame(&self, before: Codegen) -> bool {
        &&& self.name == before.name
        &&& self.function_sigs@ == before.function_sigs@
        &&& self.current_return_type == before.current_return_type
        &&& self.in_entry == before.in_entry
    }

    /// The result `r` and the state are what `n` says.
    pub open spec fn went(&self, before: Codegen, r: Result<(), String>, n: Next) -> bool {
        match r {
            Ok(_) => self.same_frame(before) && n == Ok::<State, Seq<char>>(self.state()),
            Err(m) => n == Err::<State, Seq<char>>(m@),
        }
    }

    /// The result `r` and the work are what `n` says, and nothing else differs from `before`.
    pub open spec fn worked(&self, before: Codegen, r: Result<(), String>, n: Result<Work, Seq<char>>) -> bool {
        match r {
            Ok(_) => self.same_scope(before) && n == Ok::<Work, Seq<char>>(self.work()),
            Err(m) => n == Err::<Work, Seq<char>>(m@),
        }
    }

    // Scopes.

    /// How many variables there were before the innermost open block.
    fn current_start(&self) -> (r: usize)
        ensures
            r == scope_start(self.state()),
    {
        if self.scopes.len() > 0 {
            self.scopes[self.scopes.len() - 1]
        } else {
            0
        }
    }

    /// The variable of this name and type that the innermost block has declared already.
    fn declared_in_current_scope(&self, name: &str, ty: Type) -> (r: Option<usize>)
        ensures
            match r {
                Some(k) => k < self.bindings@.len() && own_variable(self.state(), name@, ty) == Some(k as int),
                None => own_variable(self.state(), name@, ty) is None,
            },
    {
        match self.find_bound(name, ty, false) {
            Some(k) => if k >= self.current_start() {
                Some(k)
            } else {
                None
            },
            None => None,
        }
    }

    /// Makes a variable with a value of its own.
    fn declare_scoped(&mut self, name: &String, ty: Type, v: Value)
        ensures
            final(self).same_frame(*old(self)),
            final(self).state() == declare(old(self).state(), name@, ty, v),
    {
        match self.declared_in_current_scope(name, ty) {
            Some(k) => {
                assert(self.state().bindings[k as int] == self.bindings@[k as int]@);
                let before: Value = self.bindings[k].place;
                self.out.free_slot(before, ty);
                let place: Value = self.out.slot(basic_type(ty), name);
                self.out.store(place, v);
                let b: Binding = Binding { name: name.clone(), ty, place, literal: false };
                self.bindings[k] = b;
                assert(bindings_view(self.bindings@) =~= bindings_view(old(self).bindings@).update(k as int, b@));
            },
            None => {
                let place: Value = self.out.slot(basic_type(ty), name);
                self.out.store(place, v);
                let b: Binding = Binding { name: name.clone(), ty, place, literal: false };
                self.bindings.push(b);
                assert(bindings_view(self.bindings@) =~= bindings_view(old(self).bindings@).push(b@));
            },
        }
    }

    /// Frees the values of the variables from number `from` on, the last one first.
    fn free_bindings(&mut self, from: usize)
        ensures
            final(self).same_scope(*old(self)),
            final(self).temps == old(self).temps,
            final(self).out@ == free_bindings(
                old(self).out@,
                bindings_view(old(self).bindings@),
                from as int,
                old(self).bindings@.len() as int,
            ),
    {
        let ghost bs = bindings_view(self.bindings@);
        let mut n: usize = self.bindings.len();
        while n > from
            invariant
                n <= self.bindings@.len(),
                bs == bindings_view(self.bindings@),
                self.same_scope(*old(self)),
                self.temps == old(self).temps,
                free_bindings(old(self).out@, bs, from as int, self.bindings@.len() as int) == free_bindings(
                    self.out@,
                    bs,
                    from as int,
                    n as int,
                ),
            decreases n,
        {
            n = n - 1;
            assert(bs[n as int] == self.bindings@[n as int]@);
            let place: Value = self.bindings[n].place;
            let ty: Type = self.bindings[n].ty;
            self.out.free_slot(place, ty);
        }
    }

    /// Opens a block.
    fn push_scope(&mut self)
        ensures
            final(self).same_frame(*old(self)),
            final(self).state() == push_scope(old(self).state()),
    {
        let n: usize = self.bindings.len();
        self.scopes.push(n);
        assert(marks_view(self.scopes@) =~= marks_view(old(self).scopes@).push(n as nat));
    }

    /// Closes the innermost block.
    fn pop_scope(&mut self, emit_frees: bool)
        ensures
            final(self).same_frame(*old(self)),
            final(self).state() == pop_scope(old(self).state(), emit_frees),
    {
        let start: usize = self.current_start();
        if emit_frees {
            self.free_bindings(start);
        }
        self.bindings.truncate(start);
        let _ = self.scopes.pop();
        proof {
            let s = old(self).state();
            if start <= s.bindings.len() {
                assert(bindings_view(self.bindings@) =~= s.bindings.take(start as int));
            }
            if s.scopes.len() > 0 {
                assert(marks_view(self.scopes@) =~= s.scopes.drop_last());
            }
        }
    }

    /// Ends a statement.
    fn finish(&mut self)
        ensures
            final(self).same_scope(*old(self)),
            final(self).state() == finish(old(self).state()),
    {
        if self.out.ended {
            self.temps.clear();
        } else {
            self.free_temps();
        }
    }

    /// Ends a branch: unless it has ended already, it goes to the block `next`.
    fn close_branch(&mut self, next: Value)
        ensures
            final(self).same_scope(*old(self)),
            final(self).state() == close_branch(old(self).state(), next),
    {
        if !self.out.ended {
            self.out.jump(next);
        }
    }
}

impl Codegen {
    // Literals in loops.

    /// Adds the literal `text` beside the operand `other`, if it is one that is made before a loop.
    fn scan_site(&self, text: &String, other: &Expr, out: &mut Vec<Site>)
        ensures
            sites_view(final(out)@) == sites_view(old(out)@) + site(self.scope().sigs, text@, other@),
    {
        let ghost before = sites_view(out@);
        match self.bignum_precision_of_expr(other) {
            Some(p) => {
                out.push(Site { text: shown_numeral(text), ty: Type::BigNum(p) });
            },
            None => {
                if self.expr_is_bigint(other) {
                    out.push(Site { text: shown_numeral(text), ty: Type::BigInt });
                }
            },
        }
        assert(sites_view(out@) =~= before + site(self.scope().sigs, text@, other@));
    }

    /// Adds the literals beside bignums and bigints in an expression.
    fn scan_expr_for_literals(&self, e: &Expr, out: &mut Vec<Site>)
        ensures
            sites_view(final(out)@) == sites_view(old(out)@) + sites(self.scope().sigs, e@),
        decreases e, 0int,
    {
        let ghost before = sites_view(out@);
        let ghost sigs = self.scope().sigs;
        proof {
            lemma_exprs_view(*e);
            assert(before + Seq::<SiteV>::empty() =~= before);
        }
        match e {
            Expr::Binary(l, op, r) => {
                assert((**l)@ is Num == (**l is Num));
                assert((**r)@ is Num == (**r is Num));
                match (&**l, &**r) {
                    (Expr::Num(_), Expr::Num(_)) => {},
                    (Expr::Num(text), other) => {
                        if *op != BinOp::Concat {
                            self.scan_site(text, other, out);
                        }
                        self.scan_expr_for_literals(other, out);
                        proof {
                            lemma_sites_join(before, site(sigs, text@, other@), sites(sigs, other@));
                        }
                    },
                    (other, Expr::Num(text)) => {
                        if *op != BinOp::Concat {
                            self.scan_site(text, other, out);
                        }
                        self.scan_expr_for_literals(other, out);
                        proof {
                            lemma_sites_join(before, site(sigs, text@, other@), sites(sigs, other@));
                        }
                    },
                    (left, right) => {
                        self.scan_expr_for_literals(left, out);
                        self.scan_expr_for_literals(right, out);
                        proof {
                            lemma_sites_join(before, sites(sigs, left@), sites(sigs, right@));
                        }
                    },
                }
            },
            Expr::Unary(_, inner) => self.scan_expr_for_literals(inner, out),
            Expr::Call(_, args) => self.scan_exprs_for_literals(args, out),
            Expr::ArrayLiteral(es) => self.scan_exprs_for_literals(es, out),
            Expr::ArrayIndex(_, _, index) => self.scan_expr_for_literals(index, out),
            Expr::Length(array) => self.scan_expr_for_literals(array, out),
            _ => {},
        }
    }

    /// Adds the literals beside bignums and bigints in expressions.
    fn scan_exprs_for_literals(&self, es: &Vec<Expr>, out: &mut Vec<Site>)
        ensures
            sites_view(final(out)@) == sites_view(old(out)@) + sites_of(
                self.scope().sigs,
                exprs_view(es@),
                es@.len(),
            ),
        decreases es, 1int,
    {
        let ghost before = sites_view(out@);
        let ghost sigs = self.scope().sigs;
        let ghost ev = exprs_view(es@);
        assert(before + Seq::<SiteV>::empty() =~= before);
        let mut i: usize = 0;
        while i < es.len()
            invariant
                i <= es@.len(),
                sigs == self.scope().sigs,
                ev == exprs_view(es@),
                sites_view(out@) == before + sites_of(sigs, ev, i as nat),
            decreases es@.len() - i,
        {
            assert(ev[i as int] == es@[i as int]@);
            proof {
                lemma_sites_join(before, sites_of(sigs, ev, i as nat), sites(sigs, ev[i as int]));
            }
            self.scan_expr_for_literals(&es[i], out);
            i = i + 1;
        }
    }

    /// Adds the literals beside bignums and bigints in the pieces of a `print`.
    fn scan_segments_for_literals(&self, segments: &Vec<PrintSegment>, out: &mut Vec<Site>)
        ensures
            sites_view(final(out)@) == sites_view(old(out)@) + segment_sites(
                self.scope().sigs,
                segments_view(segments@),
                segments@.len(),
            ),
    {
        let ghost before = sites_view(out@);
        let ghost sigs = self.scope().sigs;
        let ghost sv = segments_view(segments@);
        assert(before + Seq::<SiteV>::empty() =~= before);
        let mut i: usize = 0;
        while i < segments.len()
            invariant
                i <= segments@.len(),
                sigs == self.scope().sigs,
                sv == segments_view(segments@),
                sites_view(out@) == before + segment_sites(sigs, sv, i as nat),
            decreases segments@.len() - i,
        {
            assert(sv[i as int] == segments@[i as int]@);
            let ghost so_far = segment_sites(sigs, sv, i as nat);
            match &segments[i] {
                PrintSegment::Str(_) => {
                    assert(so_far + Seq::<SiteV>::empty() =~= so_far);
                },
                PrintSegment::Expr(e) => {
                    proof {
                        lemma_sites_join(before, so_far, sites(sigs, e@));
                    }
                    self.scan_expr_for_literals(e, out);
                },
            }
            i = i + 1;
        }
    }

    /// Adds the literals beside bignums and bigints in a statement.
    fn scan_stmt_for_literals(&self, stmt: &Stmt, out: &mut Vec<Site>)
        ensures
            sites_view(final(out)@) == sites_view(old(out)@) + stmt_sites(self.scope().sigs, stmt@),
        decreases stmt, 0int,
    {
        let ghost before = sites_view(out@);
        let ghost sigs = self.scope().sigs;
        proof {
            lemma_block_view(*stmt);
            assert(before + Seq::<SiteV>::empty() =~= before);
        }
        match stmt {
            Stmt::VarDecl(_, _, e) | Stmt::Assign(_, _, e) | Stmt::ExprStmt(e) => self.scan_expr_for_literals(e, out),
            Stmt::ArrayIndexAssign(_, _, a, b) | Stmt::Append(a, b) => {
                proof {
                    lemma_sites_join(before, sites(sigs, a@), sites(sigs, b@));
                }
                self.scan_expr_for_literals(a, out);
                self.scan_expr_for_literals(b, out);
            },
            Stmt::Return(Some(e)) => self.scan_expr_for_literals(e, out),
            Stmt::Print(segments, dest) => {
                let ghost a = segment_sites(sigs, segments_view(segments@), segments@.len());
                self.scan_segments_for_literals(segments, out);
                match dest {
                    Some(e) => {
                        proof {
                            lemma_sites_join(before, a, sites(sigs, e@));
                        }
                        self.scan_expr_for_literals(e, out);
                    },
                    None => {
                        assert(a + Seq::<SiteV>::empty() =~= a);
                    },
                }
            },
            Stmt::Overwrite(segments, dest) => {
                let ghost a = segment_sites(sigs, segments_view(segments@), segments@.len());
                proof {
                    lemma_sites_join(before, a, sites(sigs, dest@));
                }
                self.scan_segments_for_literals(segments, out);
                self.scan_expr_for_literals(dest, out);
            },
            Stmt::If(cond, then_block, else_block) => {
                let ghost a = sites(sigs, cond@);
                let ghost b = block_sites(sigs, block_view(then_block@), then_block@.len());
                proof {
                    lemma_sites_join(before, a, b);
                }
                self.scan_expr_for_literals(cond, out);
                self.find_hoistable_literals(then_block, out);
                match else_block {
                    Some(eb) => {
                        proof {
                            lemma_sites_join(before, a + b, block_sites(sigs, block_view(eb@), eb@.len()));
                        }
                        self.find_hoistable_literals(eb, out);
                    },
                    None => {
                        assert(a + b + Seq::<SiteV>::empty() =~= a + b);
                    },
                }
            },
            _ => {},
        }
    }

    /// Adds the literals beside bignums and bigints in a block, but not in the loops inside it.
    fn find_hoistable_literals(&self, b: &Vec<Stmt>, out: &mut Vec<Site>)
        ensures
            sites_view(final(out)@) == sites_view(old(out)@) + block_sites(
                self.scope().sigs,
                block_view(b@),
                b@.len(),
            ),
        decreases b, 1int,
    {
        let ghost before = sites_view(out@);
        let ghost sigs = self.scope().sigs;
        let ghost bv = block_view(b@);
        assert(before + Seq::<SiteV>::empty() =~= before);
        let mut i: usize = 0;
        while i < b.len()
            invariant
                i <= b@.len(),
                sigs == self.scope().sigs,
                bv == block_view(b@),
                sites_view(out@) == before + block_sites(sigs, bv, i as nat),
            decreases b@.len() - i,
        {
            assert(bv[i as int] == b@[i as int]@);
            proof {
                lemma_sites_join(before, block_sites(sigs, bv, i as nat), stmt_sites(sigs, bv[i as int]));
            }
            self.scan_stmt_for_literals(&b[i], out);
            i = i + 1;
        }
    }

    /// A literal as a number of type `ty`.
    fn make_literal(&mut self, text: &str, ty: Type) -> (r: Result<Value, String>)
        ensures
            match r {
                Ok(v) => final(self).same_scope(*old(self)) && final(self).temps == old(self).temps && make_literal(
                    old(self).out@,
                    text@,
                    ty,
                ) == Ok::<(Out, Value), Seq<char>>((final(self).out@, v)),
                Err(m) => make_literal(old(self).out@, text@, ty) == Err::<(Out, Value), Seq<char>>(m@),
            },
    {
        match ty {
            Type::BigNum(p) => {
                let f: Value = self.out.const_float(text);
                self.out.coerce_to_bignum(f, p)
            },
            _ => {
                let t: Value = self.out.const_str(text);
                self.out.coerce_to_bigint(t)
            },
        }
    }

    /// Makes the literal of a site before a loop, unless the loop has it already.
    fn hoist(&mut self, s: &Site) -> (r: Result<(), String>)
        ensures
            final(self).went(*old(self), r, hoist(old(self).state(), s@)),
    {
        let known: bool = match self.find_bound(&s.text, s.ty, true) {
            Some(k) => k >= self.current_start(),
            None => false,
        };
        if known {
            return Ok(());
        }
        let v: Value = self.make_literal(&s.text, s.ty)?;
        let place: Value = self.out.slot(basic_type(s.ty), "hoisted_literal");
        self.out.store(place, v);
        let b: Binding = Binding { name: s.text.clone(), ty: s.ty, place, literal: true };
        self.bindings.push(b);
        assert(bindings_view(self.bindings@) =~= bindings_view(old(self).bindings@).push(b@));
        Ok(())
    }

    /// Makes the literals of sites before a loop.
    fn hoist_all(&mut self, list: &Vec<Site>) -> (r: Result<(), String>)
        ensures
            final(self).went(*old(self), r, hoist_all(old(self).state(), sites_view(list@), list@.len())),
    {
        let ghost lv = sites_view(list@);
        let ghost s = self.state();
        let mut i: usize = 0;
        while i < list.len()
            invariant
                i <= list@.len(),
                lv == sites_view(list@),
                s == old(self).state(),
                self.same_frame(*old(self)),
                hoist_all(s, lv, i as nat) == Ok::<State, Seq<char>>(self.state()),
            decreases list@.len() - i,
        {
            assert(lv[i as int] == list@[i as int]@);
            match self.hoist(&list[i]) {
                Ok(_) => {},
                Err(m) => {
                    proof {
                        lemma_hoist_fail(s, lv, (i + 1) as nat, lv.len());
                    }
                    return Err(m);
                },
            }
            i = i + 1;
        }
        Ok(())
    }

    // Printing.

    /// The format string of a `print`, with the newline at its end, its operands, and the texts that
    /// are to be freed.
    fn compile_print_segments(&mut self, segments: &Vec<PrintSegment>) -> (r: Result<
        (String, Vec<Value>, Vec<Value>),
        String,
    >)
        ensures
            ({
                let s = print_segments(old(self).scope(), old(self).work(), segments_view(segments@));
                match r {
                    Ok(p) => final(self).same_scope(*old(self)) && s == Ok::<(Work, Printing), Seq<char>>(
                        (final(self).work(), Printing { format: p.0@, args: p.1@, frees: p.2@ }),
                    ),
                    Err(m) => s == Err::<(Work, Printing), Seq<char>>(m@),
                }
            }),
    {
        let ghost sc = self.scope();
        let ghost w = self.work();
        let ghost sv = segments_view(segments@);
        let mut format: String = String::new();
        let mut args: Vec<Value> = Vec::new();
        let mut frees: Vec<Value> = Vec::new();
        let mut i: usize = 0;
        while i < segments.len()
            invariant
                i <= segments@.len(),
                sc == old(self).scope(),
                w == old(self).work(),
                sv == segments_view(segments@),
                self.same_scope(*old(self)),
                print_pieces(sc, w, sv, i as nat) == Ok::<(Work, Printing), Seq<char>>(
                    (self.work(), Printing { format: format@, args: args@, frees: frees@ }),
                ),
            decreases segments@.len() - i,
        {
            assert(sv[i as int] == segments@[i as int]@);
            assert(self.scope() == sc);
            match &segments[i] {
                PrintSegment::Str(t) => {
                    let text: String = escape(t);
                    format.append(&text);
                },
                PrintSegment::Expr(e) => {
                    let v: Value = match self.compile_expr(e) {
                        Ok(v) => v,
                        Err(m) => {
                            proof {
                                lemma_segments_fail(sc, w, sv, (i + 1) as nat, sv.len());
                            }
                            return Err(m);
                        },
                    };
                    let a: Value = match self.out.value_fmt(v) {
                        Ok(a) => a,
                        Err(m) => {
                            proof {
                                lemma_segments_fail(sc, w, sv, (i + 1) as nat, sv.len());
                            }
                            return Err(m);
                        },
                    };
                    let part: String = fragment_text(v.repr);
                    format.append(&part);
                    args.push(a);
                    if v.repr == Repr::Handle || v.repr == Repr::BigInt {
                        frees.push(a);
                    }
                },
            }
            i = i + 1;
        }
        format.push('\n');
        Ok((format, args, frees))
    }

    /// Frees texts.
    fn free_texts(&mut self, texts: &Vec<Value>)
        ensures
            final(self).same_scope(*old(self)),
            final(self).temps == old(self).temps,
            final(self).out@ == free_texts(old(self).out@, texts@, texts@.len()),
    {
        let mut i: usize = 0;
        while i < texts.len()
            invariant
                i <= texts@.len(),
                self.same_scope(*old(self)),
                self.temps == old(self).temps,
                self.out@ == free_texts(old(self).out@, texts@, i as nat),
            decreases texts@.len() - i,
        {
            self.out.run1(Rt::Free, texts[i]);
            i = i + 1;
        }
    }

    /// The value of an expression that has to be a path.
    fn compile_path(&mut self, e: &Expr) -> (r: Result<Value, String>)
        ensures
            final(self).stepped(*old(self), r, lower_path(old(self).scope(), old(self).work(), e@)),
    {
        let v: Value = self.compile_expr(e)?;
        if v.repr == Repr::Ptr {
            Ok(v)
        } else {
            Err(text1("path expected"))
        }
    }

    /// Writes a format string and its operands to the file that `dest` names.
    fn compile_write_to_file(&mut self, dest: &Expr, args: &Vec<Value>) -> (r: Result<(), String>)
        ensures
            final(self).worked(*old(self), r, write_to_file(old(self).scope(), old(self).work(), dest@, args@)),
    {
        let path: Value = self.compile_path(dest)?;
        let mode: Value = self.out.const_str("w");
        let file: Value = self.out.call2(Rt::Fopen, path, mode);
        let all: Vec<Value> = put_first(file, args);
        let _ = self.out.call_list(Rt::Fprintf, all);
        self.out.run1(Rt::Fclose, file);
        Ok(())
    }

    /// `print`, to the screen or to a file.
    fn compile_print(&mut self, segments: &Vec<PrintSegment>, dest: Option<&Expr>) -> (r: Result<(), String>)
        ensures
            final(self).worked(
                *old(self),
                r,
                lower_print(
                    old(self).scope(),
                    old(self).work(),
                    segments_view(segments@),
                    match dest {
                        Some(e) => Some(e@),
                        None => None,
                    },
                ),
            ),
    {
        let (format, args, frees) = self.compile_print_segments(segments)?;
        let f: Value = self.out.const_str(&format);
        let all: Vec<Value> = put_first(f, &args);
        match dest {
            None => {
                let _ = self.out.call_list(Rt::Printf, all);
            },
            Some(e) => {
                self.compile_write_to_file(e, &all)?;
            },
        }
        self.free_texts(&frees);
        Ok(())
    }

    // Statements.

    /// The value that an `input` reads.
    fn compile_input(&mut self, ty: Type, source: &Option<Expr>) -> (r: Result<Value, String>)
        ensures
            final(self).stepped(
                *old(self),
                r,
                read_input(old(self).scope(), old(self).work(), ty, expr_opt_view(*source)),
            ),
    {
        match (ty, source) {
            (Type::Str, None) => Ok(self.out.call0(Rt::ReadLine)),
            (Type::Str, Some(e)) => {
                let path: Value = self.compile_path(e)?;
                Ok(self.out.call1(Rt::ReadFile, path))
            },
            (Type::Num(width), None) => {
                let n: Value = self.out.call0(Rt::ReadNum);
                Ok(self.out.coerce_float(n, width))
            },
            (Type::Num(width), Some(e)) => {
                let path: Value = self.compile_path(e)?;
                let t: Value = self.out.call1(Rt::ReadFile, path);
                let n: Value = self.out.call1(Rt::ParseNum, t);
                self.out.run1(Rt::Free, t);
                Ok(self.out.coerce_float(n, width))
            },
            _ => Err(text1("input not supported for this type yet")),
        }
    }

    /// An assignment to an element of an array.
    fn compile_element_assign(&mut self, name: &String, ty: Type, index: &Expr, value: &Expr) -> (r: Result<(), String>)
        ensures
            final(self).worked(
                *old(self),
                r,
                assign_element(old(self).scope(), old(self).work(), name@, ty, index@, value@),
            ),
    {
        match ty {
            Type::Array(element) => match self.find_bound(name, ty, false) {
                None => Err(missing_variable(name, ty)),
                Some(k) => {
                    assert(self.scope().bindings[k as int] == self.bindings@[k as int]@);
                    let place: Value = self.bindings[k].place;
                    let a: Value = self.out.load(Repr::Handle, place);
                    let h: Value = self.out.unwrap(a);
                    assert(self.scope() == old(self).scope());
                    let i: Value = self.compile_expr(index)?;
                    let p: Value = self.compile_element_place(h, i)?;
                    assert(self.scope() == old(self).scope());
                    let v: Value = self.compile_and_coerce(value, element.as_type())?;
                    self.out.free_slot(p, element.as_type());
                    self.out.store(p, v);
                    Ok(())
                },
            },
            _ => Err(text1("index used on something that is no array")),
        }
    }

    /// `append`, to an array variable.
    fn compile_append(&mut self, array: &Expr, value: &Expr) -> (r: Result<(), String>)
        ensures
            final(self).worked(*old(self), r, lower_append(old(self).scope(), old(self).work(), array@, value@)),
    {
        match array {
            Expr::Var(name, Type::Array(element)) => {
                let ty: Type = Type::Array(*element);
                match self.find_bound(name, ty, false) {
                    None => Err(missing_variable(name, ty)),
                    Some(k) => {
                        assert(self.scope().bindings[k as int] == self.bindings@[k as int]@);
                        let place: Value = self.bindings[k].place;
                        let a: Value = self.out.load(Repr::Handle, place);
                        let h: Value = self.out.unwrap(a);
                        assert(self.scope() == old(self).scope());
                        let v: Value = self.compile_and_coerce(value, element.as_type())?;
                        self.append(h, v, *element);
                        Ok(())
                    },
                }
            },
            _ => Err(text1("append expects an array variable")),
        }
    }

    /// `return`: the temporaries and the variables of all open blocks are freed before it.
    fn compile_return(&mut self, e: &Option<Expr>) -> (r: Result<(), String>)
        ensures
            final(self).went(*old(self), r, lower_return(old(self).frame(), old(self).state(), expr_opt_view(*e))),
    {
        let value: Option<Value> = match e {
            None => None,
            Some(e) => {
                let ty: Type = self.current_return_type;
                let v: Value = self.compile_and_coerce(e, ty)?;
                Some(v)
            },
        };
        self.free_temps();
        self.free_bindings(0);
        match value {
            Some(v) => self.out.do1(Op::Ret, v),
            None => {
                if self.in_entry {
                    let zero: Value = self.out.const_int(32, 0);
                    self.out.do1(Op::Ret, zero);
                } else {
                    self.out.do0(Op::RetVoid);
                }
            },
        }
        Ok(())
    }

    /// `read`: shows what a file holds.
    fn compile_read(&mut self, source: &Expr) -> (r: Result<(), String>)
        ensures
            final(self).worked(*old(self), r, lower_read(old(self).scope(), old(self).work(), source@)),
    {
        let path: Value = self.compile_path(source)?;
        let t: Value = self.out.call1(Rt::ReadFile, path);
        let format: Value = self.out.const_str("%s\n");
        let args: Vec<Value> = vec![format, t];
        assert(args@ =~= seq![format, t]);
        let _ = self.out.call_list(Rt::Printf, args);
        self.out.run1(Rt::Free, t);
        Ok(())
    }

    /// The value of a condition.
    fn compile_condition(&mut self, cond: &Expr) -> (r: Result<Value, String>)
        ensures
            match r {
                Ok(v) => final(self).same_scope(*old(self)) && lower_condition(
                    old(self).frame(),
                    old(self).state(),
                    cond@,
                ) == Ok::<(State, Value), Seq<char>>((final(self).state(), v)),
                Err(m) => lower_condition(old(self).frame(), old(self).state(), cond@) == Err::<
                    (State, Value),
                    Seq<char>,
                >(m@),
            },
    {
        let v: Value = self.compile_expr(cond)?;
        if v.repr == Repr::Int(1) {
            self.finish();
            Ok(v)
        } else {
            Err(text1("condition expected"))
        }
    }

    /// A statement, up to the temporaries that it leaves.
    fn compile_action(&mut self, stmt: &Stmt) -> (r: Result<(), String>)
        ensures
            final(self).went(*old(self), r, lower_action(old(self).frame(), old(self).state(), stmt@)),
        decreases stmt, 1int,
    {
        proof {
            lemma_block_view(*stmt);
        }
        match stmt {
            Stmt::VarDecl(name, ty, e) => {
                let v: Value = self.compile_and_coerce(e, *ty)?;
                self.declare_scoped(name, *ty, v);
                Ok(())
            },
            Stmt::Input(name, ty, source) => {
                let v: Value = self.compile_input(*ty, source)?;
                self.declare_scoped(name, *ty, v);
                Ok(())
            },
            Stmt::Clock(name, ty) => match *ty {
                Type::Num(width) => {
                    let n: Value = self.out.call0(Rt::ClockElapsed);
                    let v: Value = self.out.coerce_float(n, width);
                    self.declare_scoped(name, *ty, v);
                    Ok(())
                },
                _ => Err(text1("clock not supported for this type yet")),
            },
            Stmt::Assign(name, ty, e) => {
                let v: Value = self.compile_and_coerce(e, *ty)?;
                match self.find_bound(name, *ty, false) {
                    None => Err(missing_variable(name, *ty)),
                    Some(k) => {
                        assert(self.scope().bindings[k as int] == self.bindings@[k as int]@);
                        let place: Value = self.bindings[k].place;
                        self.out.free_slot(place, *ty);
                        self.out.store(place, v);
                        Ok(())
                    },
                }
            },
            Stmt::ArrayIndexAssign(name, ty, index, value) => self.compile_element_assign(name, *ty, index, value),
            Stmt::Append(array, value) => self.compile_append(array, value),
            Stmt::Return(e) => self.compile_return(e),
            Stmt::Print(segments, dest) => match dest {
                Some(e) => self.compile_print(segments, Some(e)),
                None => self.compile_print(segments, None),
            },
            Stmt::Overwrite(segments, dest) => self.compile_print(segments, Some(dest)),
            Stmt::Read(source) => self.compile_read(source),
            Stmt::ExprStmt(e) => {
                proof {
                    lemma_exprs_view(*e);
                }
                match e {
                    Expr::Call(name, args) => {
                        let _ = self.compile_call(name, args)?;
                        Ok(())
                    },
                    _ => {
                        let _ = self.compile_expr(e)?;
                        Ok(())
                    },
                }
            },
            Stmt::If(_, _, _) => self.compile_if(stmt),
            Stmt::While(_, _) => self.compile_while(stmt),
        }
    }

    /// An `if`.
    fn compile_if(&mut self, stmt: &Stmt) -> (r: Result<(), String>)
        ensures
            final(self).went(*old(self), r, lower_if(old(self).frame(), old(self).state(), stmt@)),
        decreases stmt, 0int,
    {
        proof {
            lemma_block_view(*stmt);
        }
        match stmt {
            Stmt::If(cond, then_block, else_block) => {
                let v: Value = self.compile_condition(cond)?;
                let yes: Value = self.out.block("then");
                let no: Value = self.out.block("else");
                let next: Value = self.out.block("merge");
                self.out.branch(v, yes, no);
                self.compile_arm(yes, then_block, next)?;
                match else_block {
                    Some(b) => {
                        self.compile_arm(no, b, next)?;
                    },
                    None => {
                        self.out.at(no);
                        self.close_branch(next);
                    },
                }
                self.out.at(next);
                Ok(())
            },
            _ => Err(text1("if expected")),
        }
    }

    /// A branch: the statements of `b` in the block `start`, which goes on to the block `next`.
    fn compile_arm(&mut self, start: Value, b: &Vec<Stmt>, next: Value) -> (r: Result<(), String>)
        ensures
            final(self).went(
                *old(self),
                r,
                lower_arm(old(self).frame(), old(self).state(), start, block_view(b@), next),
            ),
        decreases b, 3int,
    {
        self.out.at(start);
        self.compile_block(b)?;
        self.close_branch(next);
        Ok(())
    }

    /// A `while`.
    fn compile_while(&mut self, stmt: &Stmt) -> (r: Result<(), String>)
        ensures
            final(self).went(*old(self), r, lower_while(old(self).frame(), old(self).state(), stmt@)),
        decreases stmt, 0int,
    {
        proof {
            lemma_block_view(*stmt);
        }
        match stmt {
            Stmt::While(cond, body) => {
                let head: Value = self.out.block("while_cond");
                let inside: Value = self.out.block("while_body");
                let next: Value = self.out.block("while_end");
                let mut list: Vec<Site> = Vec::new();
                assert(sites_view(list@) =~= Seq::empty());
                self.scan_expr_for_literals(cond, &mut list);
                assert(Seq::empty() + sites(self.scope().sigs, cond@) =~= sites(self.scope().sigs, cond@));
                self.find_hoistable_literals(body, &mut list);
                self.push_scope();
                self.hoist_all(&list)?;
                self.out.jump(head);
                self.out.at(head);
                let v: Value = self.compile_condition(cond)?;
                self.out.branch(v, inside, next);
                self.compile_arm(inside, body, head)?;
                self.out.at(next);
                self.pop_scope(true);
                Ok(())
            },
            _ => Err(text1("while expected")),
        }
    }

    /// A statement.
    fn compile_stmt(&mut self, stmt: &Stmt) -> (r: Result<(), String>)
        ensures
            final(self).went(*old(self), r, lower_stmt(old(self).frame(), old(self).state(), stmt@)),
        decreases stmt, 2int,
    {
        self.compile_action(stmt)?;
        self.finish();
        Ok(())
    }

    /// A block: its variables are freed and gone at its end.
    fn compile_block(&mut self, b: &Vec<Stmt>) -> (r: Result<(), String>)
        ensures
            final(self).went(*old(self), r, lower_block(old(self).frame(), old(self).state(), block_view(b@))),
        decreases b, 2int,
    {
        let ghost bv = block_view(b@);
        let ghost f = self.frame();
        self.push_scope();
        let ghost s = self.state();
        let mut i: usize = 0;
        while i < b.len()
            invariant
                i <= b@.len(),
                bv == block_view(b@),
                f == old(self).frame(),
                s == push_scope(old(self).state()),
                self.same_frame(*old(self)),
                lower_stmts(f, s, bv, i as nat) == Ok::<State, Seq<char>>(self.state()),
            decreases b@.len() - i,
        {
            assert(bv[i as int] == b@[i as int]@);
            assert(self.frame() == f);
            if !self.out.ended {
                match self.compile_stmt(&b[i]) {
                    Ok(_) => {},
                    Err(m) => {
                        proof {
                            lemma_stmts_fail(f, s, bv, (i + 1) as nat, bv.len());
                        }
                        return Err(m);
                    },
                }
            }
            i = i + 1;
        }
        let ended: bool = self.out.ended;
        self.pop_scope(!ended);
        Ok(())
    }
}

/// A text in which each `%` stands for itself in a format string.
fn escape(s: &str) -> (r: String)
    ensures
        r@ == escaped(s@),
{
    let chars: Vec<char> = chars_of(s);
    let mut out: String = String::new();
    let mut i: usize = 0;
    assert(chars@.take(0) =~= Seq::empty());
    while i < chars.len()
        invariant
            i <= chars@.len(),
            out@ == escaped(chars@.take(i as int)),
        decreases chars@.len() - i,
    {
        proof {
            assert(chars@.take(i + 1).drop_last() =~= chars@.take(i as int));
            assert(chars@.take(i + 1).last() == chars@[i as int]);
        }
        let c: char = chars[i];
        if c == '%' {
            out.push('%');
        }
        out.push(c);
        i = i + 1;
    }
    assert(chars@.take(chars@.len() as int) =~= s@);
    out
}

/// A value and the values behind it.
fn put_first(v: Value, vs: &Vec<Value>) -> (r: Vec<Value>)
    ensures
        r@ == seq![v] + vs@,
{
    let mut r: Vec<Value> = Vec::new();
    r.push(v);
    let mut i: usize = 0;
    assert(r@ =~= seq![v] + vs@.take(0));
    while i < vs.len()
        invariant
            i <= vs@.len(),
            r@ == seq![v] + vs@.take(i as int),
        decreases vs@.len() - i,
    {
        r.push(vs[i]);
        i = i + 1;
        assert(r@ =~= seq![v] + vs@.take(i as int));
    }
    assert(vs@.take(vs@.len() as int) =~= vs@);
    r
}

proof fn lemma_sites_join(o: Seq<SiteV>, a: Seq<SiteV>, b: Seq<SiteV>)
    ensures
        (o + a) + b == o + (a + b),
{
    assert((o + a) + b =~= o + (a + b));
}

/// What went wrong with a literal is what goes wrong with the loop.
proof fn lemma_hoist_fail(s: State, list: Seq<SiteV>, i: nat, n: nat)
    requires
        i <= n <= list.len(),
        hoist_all(s, list, i) is Err,
    ensures
        hoist_all(s, list, n) == hoist_all(s, list, i),
    decreases n,
{
    if i < n {
        lemma_hoist_fail(s, list, i, (n - 1) as nat);
    }
}

/// What went wrong with a piece is what goes wrong with the `print`.
proof fn lemma_segments_fail(sc: Scope, w: Work, segments: Seq<SegmentV>, i: nat, n: nat)
    requires
        i <= n <= segments.len(),
        print_pieces(sc, w, segments, i) is Err,
    ensures
        print_pieces(sc, w, segments, n) == print_pieces(sc, w, segments, i),
    decreases n,
{
    if i < n {
        lemma_segments_fail(sc, w, segments, i, (n - 1) as nat);
    }
}

/// What went wrong with a statement is what goes wrong with the block.
proof fn lemma_stmts_fail(f: Frame, s: State, b: Seq<StmtV>, i: nat, n: nat)
    requires
        i <= n <= b.len(),
        lower_stmts(f, s, b, i) is Err,
    ensures
        lower_stmts(f, s, b, n) == lower_stmts(f, s, b, i),
    decreases n,
{
    if i < n {
        lemma_stmts_fail(f, s, b, i, (n - 1) as nat);
    }
}

impl Codegen {
    /// A lowering that has emitted nothing yet.
    pub fn new(module_name: &str) -> (r: Codegen)
        ensures
            r.name@ == module_name@,
            r.out@ == (Out { code: Seq::empty(), ended: false }),
            r.function_sigs@.len() == 0,
            r.temps@.len() == 0,
            r.bindings@.len() == 0,
            r.scopes@.len() == 0,
            r.current_return_type == Type::Void,
            r.in_entry == false,
    {
        let out: Emitter = Emitter { code: Vec::new(), ended: false };
        assert(out@.code =~= Seq::empty());
        Codegen {
            name: text1(module_name),
            out,
            function_sigs: Vec::new(),
            current_return_type: Type::Void,
            in_entry: false,
            bindings: Vec::new(),
            scopes: Vec::new(),
            temps: Vec::new(),
        }
    }

    /// The code that was emitted, with the name of the module and the functions of the program.
    pub fn module(self) -> (m: Module)
        ensures
            m.name == self.name,
            m.functions == self.function_sigs,
            insts_view(m.code@) == self.out@.code,
    {
        Module { name: self.name, functions: self.function_sigs, code: self.out.code }
    }

    /// Lowers a program: its functions, each of which can call all the others, and its entry block.
    pub fn compile_program(&mut self, program: &Program) -> (r: Result<(), String>)
        ensures
            match r {
                Ok(_) => final(self).name == old(self).name && sigs_view(final(self).function_sigs@) == sigs_of(
                    program@.functions,
                ) && lower_program(old(self).out@, program@) == Ok::<Out, Seq<char>>(final(self).out@),
                Err(m) => lower_program(old(self).out@, program@) == Err::<Out, Seq<char>>(m@),
            },
            wf_program(program@) && program_problems(program@).len() == 0 ==> r is Ok,
    {
        proof {
            if wf_program(program@) && program_problems(program@).len() == 0 {
                accepted_programs_can_be_lowered(program@, self.out@);
            }
        }
        let ghost fs = functions_view(program.functions@);
        let ghost sigs = sigs_of(fs);
        let ghost o = self.out@;
        self.declare_functions(&program.functions);
        let mut i: usize = 0;
        while i < program.functions.len()
            invariant
                i <= program.functions@.len(),
                fs == functions_view(program.functions@),
                sigs == sigs_of(fs),
                o == old(self).out@,
                self.name == old(self).name,
                sigs_view(self.function_sigs@) == sigs,
                lower_functions(sigs, o, fs, i as nat) == Ok::<Out, Seq<char>>(self.out@),
                wf_program(program@) && program_problems(program@).len() == 0 ==> lower_program(o, program@) is Ok,
            decreases program.functions@.len() - i,
        {
            assert(fs[i as int] == program.functions@[i as int]@);
            match self.compile_function(&program.functions[i]) {
                Ok(_) => {},
                Err(m) => {
                    proof {
                        lemma_functions_fail(sigs, o, fs, (i + 1) as nat, fs.len());
                    }
                    return Err(m);
                },
            }
            i = i + 1;
        }
        self.compile_entry(&program.entry)
    }

    /// Makes the functions of a program known.
    fn declare_functions(&mut self, functions: &Vec<Function>)
        ensures
            final(self).name == old(self).name,
            final(self).out == old(self).out,
            sigs_view(final(self).function_sigs@) == sigs_of(functions_view(functions@)),
    {
        let ghost fs = functions_view(functions@);
        self.function_sigs.clear();
        let mut i: usize = 0;
        assert(sigs_view(self.function_sigs@) =~= sigs_of(fs.take(0)));
        while i < functions.len()
            invariant
                i <= functions@.len(),
                fs == functions_view(functions@),
                self.name == old(self).name,
                self.out == old(self).out,
                sigs_view(self.function_sigs@) == sigs_of(fs.take(i as int)),
            decreases functions@.len() - i,
        {
            let ghost before = sigs_view(self.function_sigs@);
            let sig: Sig = signature(&functions[i]);
            self.function_sigs.push(sig);
            i = i + 1;
            proof {
                assert(sigs_view(self.function_sigs@) =~= before.push(sig@));
                assert(sigs_of(fs.take(i as int)) =~= before.push(sig@));
            }
        }
        assert(fs.take(fs.len() as int) =~= fs);
    }

    /// Starts a function: no variables, one open block.
    fn open_function(&mut self, op: Op)
        ensures
            final(self).same_frame(*old(self)),
            final(self).state() == opened(crate::emit::do0(old(self).out@, op)),
    {
        self.out.do0(op);
        self.temps.clear();
        self.bindings.clear();
        self.scopes.clear();
        self.scopes.push(0);
        assert(bindings_view(self.bindings@) =~= Seq::empty());
        assert(marks_view(self.scopes@) =~= seq![0nat]);
    }

    /// Lowers a function.
    fn compile_function(&mut self, f: &Function) -> (r: Result<(), String>)
        ensures
            match r {
                Ok(_) => final(self).name == old(self).name && final(self).function_sigs@ == old(self).function_sigs@
                    && lower_function(sigs_view(old(self).function_sigs@), old(self).out@, f@) == Ok::<Out, Seq<char>>(
                    final(self).out@,
                ),
                Err(m) => lower_function(sigs_view(old(self).function_sigs@), old(self).out@, f@) == Err::<
                    Out,
                    Seq<char>,
                >(m@),
            },
    {
        proof {
            reveal(lower_function);
        }
        let ghost sigs = sigs_view(self.function_sigs@);
        let ghost ps = params_view(f.params@);
        match self.find_function(&f.name) {
            None => Err(text3("undefined function '", &f.name, "'")),
            Some(k) => {
                self.current_return_type = f.return_type;
                self.in_entry = false;
                self.open_function(Op::BeginFunction(k));
                let ghost s = self.state();
                let ghost me = *self;
                let mut i: usize = 0;
                while i < f.params.len()
                    invariant
                        i <= f.params@.len(),
                        ps == params_view(f.params@),
                        self.same_frame(me),
                        self.state() == bind_params(s, ps, i as nat),
                    decreases f.params@.len() - i,
                {
                    assert(ps[i as int] == f.params@[i as int]@);
                    let ty: Type = f.params[i].ty;
                    let v: Value = self.out.give0(Op::Param(i), "", basic_type(ty));
                    self.declare_scoped(&f.params[i].name, ty, v);
                    i = i + 1;
                }
                self.compile_block(&f.body)?;
                let ended: bool = self.out.ended;
                self.pop_scope(!ended);
                if !ended {
                    self.out.default_return(f.return_type);
                }
                Ok(())
            },
        }
    }

    /// Lowers the entry block.
    fn compile_entry(&mut self, entry: &Vec<Stmt>) -> (r: Result<(), String>)
        ensures
            match r {
                Ok(_) => final(self).name == old(self).name && final(self).function_sigs@ == old(self).function_sigs@
                    && lower_entry(sigs_view(old(self).function_sigs@), old(self).out@, block_view(entry@)) == Ok::<
                    Out,
                    Seq<char>,
                >(final(self).out@),
                Err(m) => lower_entry(sigs_view(old(self).function_sigs@), old(self).out@, block_view(entry@)) == Err::<
                    Out,
                    Seq<char>,
                >(m@),
            },
    {
        proof {
            reveal(lower_entry);
        }
        self.current_return_type = Type::Void;
        self.in_entry = true;
        self.open_function(Op::BeginMain);
        self.compile_block(entry)?;
        if !self.out.ended {
            let zero: Value = self.out.const_int(32, 0);
            self.out.do1(Op::Ret, zero);
        }
        Ok(())
    }
}

/// What went wrong with a function is what goes wrong with the program.
proof fn lemma_functions_fail(sigs: Seq<SigV>, o: Out, fs: Seq<FunctionV>, i: nat, n: nat)
    requires
        i <= n <= fs.len(),
        lower_functions(sigs, o, fs, i) is Err,
    ensures
        lower_functions(sigs, o, fs, n) == lower_functions(sigs, o, fs, i),
    decreases n,
{
    if i < n {
        lemma_functions_fail(sigs, o, fs, i, (n - 1) as nat);
    }
}

} // verus!
