//! From tokens to a syntax tree.

use vstd::prelude::*;
use crate::ast::{
    block_opt_view, block_view, expr_opt_view, exprs_view, functions_view, lemma_block_view, lemma_exprs_view,
    params_view, segments_view, BinOp, Block, DEFAULT_BIGNUM_PRECISION, DEFAULT_INT_PRECISION,
    DEFAULT_NUM_PRECISION, ElementType, Expr, ExprV, Function, FunctionV, Param, ParamV, PrintSegment, Program,
    ProgramV, SegmentV, Stmt, StmtV, Type, UnOp,
};
use crate::grammar::{
    append_at, atom_at, base_type, block_at, bracketed_segments_at, call_at, call_head_at, clause_at, clock_at,
    entry_at, expect_at, expr_at, factorials, full_type_at, function_at, ident_at, index_at, input_at, items_at,
    kind_at, length_at, level_at, level_rest, link_at, list_at, located, operator, optional_clause_at,
    overwrite_at, param_list_at, params_at, power_at, precision_at, primary_at, print_at, program_from, quoted_at,
    read_at, ref_stmt_at, ref_var_at, return_at, return_type_at, segments_at, starts_call, starts_primary, stmt_at,
    stmts_at, type_at, unary_at, unexpected, value_at, var_decl_at, with_precision_of, with_width, Parsed,
};
use crate::lexer::{spanned_view, Spanned, SpannedV};
use crate::numeral::{capped_whole_value, decimal_text, shown_numeral, whole_number};
use crate::numw::parse_numw_string;
use crate::text::{same_text, text1, text2, text3, text5};
use crate::token::{Kind, Token};

verus! {

/// A reader of tokens.
pub struct Parser {
    pub tokens: Vec<Spanned>,
    pub pos: usize,
}

/// The result `r`, with the reader at `end`, is what the grammar gives.
pub open spec fn is_text(r: Result<String, String>, end: usize, parsed: Parsed<Seq<char>>) -> bool {
    match r {
        Ok(v) => parsed == Ok::<(Seq<char>, int), Seq<char>>((v@, end as int)),
        Err(m) => parsed == Err::<(Seq<char>, int), Seq<char>>(m@),
    }
}

/// The result `r`, with the reader at `end`, is what the grammar gives.
pub open spec fn is_type(r: Result<Type, String>, end: usize, parsed: Parsed<Type>) -> bool {
    match r {
        Ok(v) => parsed == Ok::<(Type, int), Seq<char>>((v, end as int)),
        Err(m) => parsed == Err::<(Type, int), Seq<char>>(m@),
    }
}

/// The result `r`, with the reader at `end`, is what the grammar gives.
pub open spec fn is_variable(r: Result<(String, Type), String>, end: usize, parsed: Parsed<(Seq<char>, Type)>) -> bool {
    match r {
        Ok(v) => parsed == Ok::<((Seq<char>, Type), int), Seq<char>>(((v.0@, v.1), end as int)),
        Err(m) => parsed == Err::<((Seq<char>, Type), int), Seq<char>>(m@),
    }
}

/// The result `r`, with the reader at `end`, is what the grammar gives.
pub open spec fn is_expr(r: Result<Expr, String>, end: usize, parsed: Parsed<ExprV>) -> bool {
    match r {
        Ok(v) => parsed == Ok::<(ExprV, int), Seq<char>>((v@, end as int)),
        Err(m) => parsed == Err::<(ExprV, int), Seq<char>>(m@),
    }
}

/// The result `r`, with the reader at `end`, is what the grammar gives.
pub open spec fn is_expr_opt(r: Result<Option<Expr>, String>, end: usize, parsed: Parsed<Option<ExprV>>) -> bool {
    match r {
        Ok(v) => parsed == Ok::<(Option<ExprV>, int), Seq<char>>((expr_opt_view(v), end as int)),
        Err(m) => parsed == Err::<(Option<ExprV>, int), Seq<char>>(m@),
    }
}

/// The result `r`, with the reader at `end`, is what the grammar gives.
pub open spec fn is_exprs(r: Result<Vec<Expr>, String>, end: usize, parsed: Parsed<Seq<ExprV>>) -> bool {
    match r {
        Ok(v) => parsed == Ok::<(Seq<ExprV>, int), Seq<char>>((exprs_view(v@), end as int)),
        Err(m) => parsed == Err::<(Seq<ExprV>, int), Seq<char>>(m@),
    }
}

/// The result `r`, with the reader at `end`, is what the grammar gives.
pub open spec fn is_segments(r: Result<Vec<PrintSegment>, String>, end: usize, parsed: Parsed<Seq<SegmentV>>) -> bool {
    match r {
        Ok(v) => parsed == Ok::<(Seq<SegmentV>, int), Seq<char>>((segments_view(v@), end as int)),
        Err(m) => parsed == Err::<(Seq<SegmentV>, int), Seq<char>>(m@),
    }
}

/// The result `r`, with the reader at `end`, is what the grammar gives.
pub open spec fn is_stmt(r: Result<Stmt, String>, end: usize, parsed: Parsed<StmtV>) -> bool {
    match r {
        Ok(v) => parsed == Ok::<(StmtV, int), Seq<char>>((v@, end as int)),
        Err(m) => parsed == Err::<(StmtV, int), Seq<char>>(m@),
    }
}

/// The result `r`, with the reader at `end`, is what the grammar gives.
pub open spec fn is_block(r: Result<Vec<Stmt>, String>, end: usize, parsed: Parsed<Seq<StmtV>>) -> bool {
    match r {
        Ok(v) => parsed == Ok::<(Seq<StmtV>, int), Seq<char>>((block_view(v@), end as int)),
        Err(m) => parsed == Err::<(Seq<StmtV>, int), Seq<char>>(m@),
    }
}

/// The result `r`, with the reader at `end`, is what the grammar gives.
pub open spec fn is_params(r: Result<Vec<Param>, String>, end: usize, parsed: Parsed<Seq<ParamV>>) -> bool {
    match r {
        Ok(v) => parsed == Ok::<(Seq<ParamV>, int), Seq<char>>((params_view(v@), end as int)),
        Err(m) => parsed == Err::<(Seq<ParamV>, int), Seq<char>>(m@),
    }
}

/// The result `r`, with the reader at `end`, is what the grammar gives.
pub open spec fn is_function(r: Result<Function, String>, end: usize, parsed: Parsed<FunctionV>) -> bool {
    match r {
        Ok(v) => parsed == Ok::<(FunctionV, int), Seq<char>>((v@, end as int)),
        Err(m) => parsed == Err::<(FunctionV, int), Seq<char>>(m@),
    }
}

impl Parser {
    /// The tokens that are read.
    pub open spec fn ts(&self) -> Seq<SpannedV> {
        spanned_view(self.tokens@)
    }

    /// The position is that of a token, and the last token is `Eof`.
    pub open spec fn wf(&self) -> bool {
        &&& self.pos < self.tokens@.len()
        &&& self.tokens@.last().token.spec_kind() == Kind::Eof
    }

    /// The reader has gone from `before` to `self` over the same tokens, and not back.
    pub open spec fn follows(&self, before: Parser) -> bool {
        &&& self.wf()
        &&& self.tokens@ == before.tokens@
        &&& before.pos <= self.pos
    }

    /// A reader at the first of `tokens`.
    pub fn new(tokens: Vec<Spanned>) -> (r: Parser)
        ensures
            r.tokens@ == tokens@,
            r.pos == 0,
    {
        Parser { tokens, pos: 0 }
    }

    /// The program that the tokens spell, or what is wrong with them.
    pub fn parse_program(&mut self) -> (r: Result<Program, String>)
        requires
            old(self).wf(),
        ensures
            final(self).follows(*old(self)),
            match r {
                Ok(p) => program_from(old(self).ts(), old(self).pos as int, Seq::empty(), None, None) == Ok::<ProgramV, Seq<char>>(p@),
                Err(e) => program_from(old(self).ts(), old(self).pos as int, Seq::empty(), None, None) == Err::<ProgramV, Seq<char>>(e@),
            },
    {
        let mut functions: Vec<Function> = Vec::new();
        let mut entry: Option<Vec<Stmt>> = None;
        let mut link_to: Option<String> = None;
        let ghost ts = self.ts();
        assert(functions_view(functions@) =~= Seq::empty());
        loop
            invariant
                self.follows(*old(self)),
                ts == self.ts(),
                program_from(old(self).ts(), old(self).pos as int, Seq::empty(), None, None) == program_from(
                    ts,
                    self.pos as int,
                    functions_view(functions@),
                    block_opt_view(entry),
                    match link_to {
                        Some(s) => Some(s@),
                        None => None,
                    },
                ),
            decreases self.tokens@.len() - self.pos,
        {
            match self.kind() {
                Kind::Eof => {
                    match entry {
                        Some(entry) => {
                            return Ok(Program { functions, entry, link_to });
                        },
                        None => {
                            return Err(text1("program is missing a START...END entry point"));
                        },
                    }
                },
                Kind::Func => {
                    let ghost before = functions_view(functions@);
                    let f = self.parse_function()?;
                    functions.push(f);
                    assert(functions_view(functions@) =~= before.push(f@));
                },
                Kind::Start => {
                    if entry.is_some() {
                        return Err(self.located(": only one START...END block is allowed"));
                    }
                    let b = self.parse_entry()?;
                    entry = Some(b);
                },
                Kind::LinkTo => {
                    if link_to.is_some() {
                        return Err(self.located(": only one linkto*(...)*; directive is allowed"));
                    }
                    let path = self.parse_link()?;
                    link_to = Some(path);
                },
                _ => {
                    return Err(self.unexpected(": expected 'func', 'linkto', or 'START', found "));
                },
            }
        }
    }

    /// `linkto*("path")*;`.
    fn parse_link(&mut self) -> (r: Result<String, String>)
        requires
            old(self).wf(),
        ensures
            final(self).follows(*old(self)),
            is_text(r, final(self).pos, link_at(old(self).ts(), old(self).pos as int)),
            r is Ok ==> old(self).pos < final(self).pos,
    {
        proof {
            reveal(link_at);
        }
        self.expect(Kind::LinkTo)?;
        self.expect(Kind::Star)?;
        self.expect(Kind::LParen)?;
        if self.kind() != Kind::Str {
            return Err(self.unexpected(": linkto*(...)*; expects a literal string, found "));
        }
        let path: String = self.carried_text();
        self.advance();
        self.expect(Kind::RParen)?;
        self.expect(Kind::Star)?;
        self.expect(Kind::Semicolon)?;
        Ok(path)
    }

    /// `START statements END`.
    fn parse_entry(&mut self) -> (r: Result<Block, String>)
        requires
            old(self).wf(),
        ensures
            final(self).follows(*old(self)),
            is_block(r, final(self).pos, entry_at(old(self).ts(), old(self).pos as int)),
            r is Ok ==> old(self).pos < final(self).pos,
    {
        proof {
            reveal(entry_at);
        }
        self.expect(Kind::Start)?;
        let stmts = self.parse_stmts(Kind::End)?;
        self.expect(Kind::End)?;
        Ok(stmts)
    }

    /// `func 'name'*params* -> TYPE { statements }`.
    fn parse_function(&mut self) -> (r: Result<Function, String>)
        requires
            old(self).wf(),
        ensures
            final(self).follows(*old(self)),
            is_function(r, final(self).pos, function_at(old(self).ts(), old(self).pos as int)),
            r is Ok ==> old(self).pos < final(self).pos,
    {
        proof {
            reveal(function_at);
        }
        self.expect(Kind::Func)?;
        let name = self.expect_quoted_ident()?;
        self.expect(Kind::Star)?;
        let params = self.parse_params()?;
        let return_type = self.parse_return_type()?;
        let body = self.parse_block()?;
        Ok(Function { name, params, return_type, body })
    }

    /// The parameters of a function, up to and with the `*` that closes them.
    fn parse_params(&mut self) -> (r: Result<Vec<Param>, String>)
        requires
            old(self).wf(),
        ensures
            final(self).follows(*old(self)),
            is_params(r, final(self).pos, param_list_at(old(self).ts(), old(self).pos as int)),
            r is Ok ==> old(self).pos < final(self).pos,
    {
        let mut params: Vec<Param> = Vec::new();
        let ghost ts = self.ts();
        let ghost start = self.pos as int;
        assert(params_view(params@) =~= Seq::empty());
        if self.check(Kind::Star) {
            self.advance();
            return Ok(params);
        }
        loop
            invariant_except_break
                params_at(ts, start, Seq::empty()) == params_at(ts, self.pos as int, params_view(params@)),
            invariant
                self.follows(*old(self)),
                ts == self.ts(),
                ts == old(self).ts(),
                start == old(self).pos,
                kind_at(ts, start) != Kind::Star,
            ensures
                self.follows(*old(self)),
                params_at(ts, start, Seq::empty()) == Ok::<(Seq<ParamV>, int), Seq<char>>((params_view(params@), self.pos as int)),
            decreases self.tokens@.len() - self.pos,
        {
            let ghost before = params_view(params@);
            let name = self.expect_quoted_ident()?;
            self.expect(Kind::Colon)?;
            let ty = self.parse_full_type()?;
            let param: Param = Param { name, ty };
            params.push(param);
            assert(params_view(params@) =~= before.push(param@));
            if self.check(Kind::Comma) {
                self.advance();
            } else {
                break;
            }
        }
        self.expect(Kind::Star)?;
        Ok(params)
    }

    /// `-> TYPE`, or nothing, which means `Void`.
    fn parse_return_type(&mut self) -> (r: Result<Type, String>)
        requires
            old(self).wf(),
        ensures
            final(self).follows(*old(self)),
            is_type(r, final(self).pos, return_type_at(old(self).ts(), old(self).pos as int)),
    {
        if self.check(Kind::Arrow) {
            self.advance();
            self.parse_full_type()
        } else {
            Ok(Type::Void)
        }
    }

    /// A type without its precision.
    fn parse_type(&mut self) -> (r: Result<Type, String>)
        requires
            old(self).wf(),
        ensures
            final(self).follows(*old(self)),
            is_type(r, final(self).pos, type_at(old(self).ts(), old(self).pos as int)),
            r is Ok ==> old(self).pos < final(self).pos,
    {
        proof {
            reveal(type_at);
        }
        let name = self.expect_ident()?;
        if same_text(&name, "array") {
            self.expect(Kind::Colon)?;
            let element = self.expect_ident()?;
            match named(&element) {
                Some(ty) => match ElementType::from_type(ty) {
                    Some(e) => Ok(Type::Array(e)),
                    None => Err(text3("unknown type '", &element, "'")),
                },
                None => Err(text3("unknown type '", &element, "'")),
            }
        } else {
            match named(&name) {
                Some(ty) => Ok(ty),
                None => Err(text3("unknown type '", &name, "'")),
            }
        }
    }

    /// A type with its precision behind it.
    fn parse_full_type(&mut self) -> (r: Result<Type, String>)
        requires
            old(self).wf(),
        ensures
            final(self).follows(*old(self)),
            is_type(r, final(self).pos, full_type_at(old(self).ts(), old(self).pos as int)),
            r is Ok ==> old(self).pos < final(self).pos,
    {
        let ty = self.parse_type()?;
        self.parse_optional_precision(ty)
    }

    /// `ty`, or `ty` with the precision that `[precision:N]` states.
    fn parse_optional_precision(&mut self, ty: Type) -> (r: Result<Type, String>)
        requires
            old(self).wf(),
        ensures
            final(self).follows(*old(self)),
            is_type(r, final(self).pos, precision_at(old(self).ts(), old(self).pos as int, ty)),
    {
        proof {
            reveal(precision_at);
        }
        if !self.check(Kind::LBracket) {
            return Ok(ty);
        }
        self.advance();
        let line: usize = self.line();
        let word = self.expect_ident()?;
        if !same_text(&word, "precision") {
            let what: String = text3(": expected 'precision', found '", &word, "'");
            return Err(line_message(line, &what));
        }
        self.expect(Kind::Colon)?;
        if self.kind() != Kind::Num {
            let found: String = self.found();
            let what: String = text2(": expected a precision number, found ", &found);
            return Err(line_message(line, &what));
        }
        let n: String = self.carried_text();
        self.advance();
        self.expect(Kind::RBracket)?;
        match apply_precision(ty, &n) {
            Ok(t) => Ok(t),
            Err(what) => Err(line_message(line, &what)),
        }
    }

    /// A quoted number word, if `ty` is `numw` and one comes next.
    fn try_parse_numw_literal(&mut self, ty: Type) -> (r: Result<Option<Expr>, String>)
        requires
            old(self).wf(),
        ensures
            final(self).follows(*old(self)),
            ({
                let here = ty is NumW && kind_at(old(self).ts(), old(self).pos as int) == Kind::Quoted;
                match r {
                    Ok(Some(e)) => here && final(self).pos == old(self).pos + 1 && value_at(
                        old(self).ts(),
                        old(self).pos as int,
                        ty,
                    ) == Ok::<(ExprV, int), Seq<char>>((e@, final(self).pos as int)),
                    Ok(None) => !here && final(self).pos == old(self).pos,
                    Err(m) => here && final(self).pos == old(self).pos + 1 && value_at(
                        old(self).ts(),
                        old(self).pos as int,
                        ty,
                    ) == Err::<(ExprV, int), Seq<char>>(m@),
                }
            }),
    {
        let is_numw: bool = matches!(ty, Type::NumW(_));
        if !is_numw || self.kind() != Kind::Quoted {
            return Ok(None);
        }
        let line: usize = self.line();
        let word: String = self.carried_text();
        self.advance();
        match parse_numw_string(&word) {
            Ok(text) => Ok(Some(Expr::Num(text))),
            Err(e) => {
                let what: String = text2(": ", &e);
                Err(line_message(line, &what))
            },
        }
    }

    /// A value for a variable of type `ty`.
    fn parse_value(&mut self, ty: Type) -> (r: Result<Expr, String>)
        requires
            old(self).wf(),
        ensures
            final(self).follows(*old(self)),
            is_expr(r, final(self).pos, value_at(old(self).ts(), old(self).pos as int, ty)),
            r is Ok ==> old(self).pos < final(self).pos,
    {
        let literal = self.try_parse_numw_literal(ty)?;
        match literal {
            Some(e) => Ok(e),
            None => self.parse_expr(),
        }
    }

    /// `{ statements }`.
    fn parse_block(&mut self) -> (r: Result<Block, String>)
        requires
            old(self).wf(),
        ensures
            final(self).follows(*old(self)),
            is_block(r, final(self).pos, block_at(old(self).ts(), old(self).pos as int)),
            r is Ok ==> old(self).pos < final(self).pos,
        decreases old(self).tokens@.len() - old(self).pos, 0int,
    {
        self.expect(Kind::LBrace)?;
        let stmts = self.parse_stmts(Kind::RBrace)?;
        self.expect(Kind::RBrace)?;
        Ok(stmts)
    }

    /// Statements up to, and without, the token of kind `close`.
    fn parse_stmts(&mut self, close: Kind) -> (r: Result<Block, String>)
        requires
            old(self).wf(),
        ensures
            final(self).follows(*old(self)),
            is_block(r, final(self).pos, stmts_at(old(self).ts(), old(self).pos as int, close, Seq::empty())),
        decreases old(self).tokens@.len() - old(self).pos, 1int,
    {
        let mut stmts: Vec<Stmt> = Vec::new();
        let ghost ts = self.ts();
        assert(block_view(stmts@) =~= Seq::empty());
        while !self.check(close)
            invariant
                self.follows(*old(self)),
                ts == self.ts(),
                stmts_at(ts, old(self).pos as int, close, Seq::empty()) == stmts_at(ts, self.pos as int, close, block_view(stmts@)),
                ts == old(self).ts(),
            decreases self.tokens@.len() - self.pos,
        {
            let ghost before = block_view(stmts@);
            let s = self.parse_stmt()?;
            stmts.push(s);
            assert(block_view(stmts@) =~= before.push(s@));
        }
        Ok(stmts)
    }

    /// A statement.
    fn parse_stmt(&mut self) -> (r: Result<Stmt, String>)
        requires
            old(self).wf(),
        ensures
            final(self).follows(*old(self)),
            is_stmt(r, final(self).pos, stmt_at(old(self).ts(), old(self).pos as int)),
            r is Ok ==> old(self).pos < final(self).pos,
        decreases old(self).tokens@.len() - old(self).pos, 0int,
    {
        let kind: Kind = self.kind();
        if kind == Kind::Var {
            self.parse_var_decl()
        } else if kind == Kind::Input {
            self.parse_input()
        } else if kind == Kind::Clock {
            self.parse_clock()
        } else if self.at_call() {
            let call = self.parse_func_call()?;
            self.expect(Kind::Semicolon)?;
            Ok(Stmt::ExprStmt(call))
        } else if kind == Kind::Ref {
            self.parse_ref_stmt()
        } else if kind == Kind::Return {
            self.parse_return()
        } else if kind == Kind::Print {
            self.parse_print()
        } else if kind == Kind::Overwrite {
            self.parse_overwrite()
        } else if kind == Kind::Read {
            self.parse_read()
        } else if kind == Kind::Append {
            self.parse_append()
        } else if kind == Kind::If {
            self.advance();
            let cond = self.parse_expr()?;
            let then_block = self.parse_block()?;
            if self.check(Kind::Else) {
                self.advance();
                let else_block = self.parse_block()?;
                let s: Stmt = Stmt::If(cond, then_block, Some(else_block));
                proof {
                    lemma_block_view(s);
                }
                Ok(s)
            } else {
                let s: Stmt = Stmt::If(cond, then_block, None);
                proof {
                    lemma_block_view(s);
                }
                Ok(s)
            }
        } else if kind == Kind::While {
            self.advance();
            let cond = self.parse_expr()?;
            let body = self.parse_block()?;
            let s: Stmt = Stmt::While(cond, body);
            proof {
                lemma_block_view(s);
            }
            Ok(s)
        } else {
            let e = self.parse_expr()?;
            self.expect(Kind::Semicolon)?;
            Ok(Stmt::ExprStmt(e))
        }
    }

    /// `var:TYPE 'name' = value [precision:N];`.
    fn parse_var_decl(&mut self) -> (r: Result<Stmt, String>)
        requires
            old(self).wf(),
            kind_at(old(self).ts(), old(self).pos as int) == Kind::Var,
        ensures
            final(self).follows(*old(self)),
            is_stmt(r, final(self).pos, var_decl_at(old(self).ts(), old(self).pos + 1)),
            r is Ok ==> old(self).pos < final(self).pos,
    {
        self.advance();
        self.expect(Kind::Colon)?;
        let ty = self.parse_type()?;
        let name = self.expect_quoted_ident()?;
        self.expect(Kind::Eq)?;
        let value = self.parse_value(ty)?;
        let ty = self.parse_optional_precision(ty)?;
        self.expect(Kind::Semicolon)?;
        Ok(Stmt::VarDecl(name, ty, value))
    }

    /// `input:TYPE 'name' [from*(source)*];`.
    fn parse_input(&mut self) -> (r: Result<Stmt, String>)
        requires
            old(self).wf(),
            kind_at(old(self).ts(), old(self).pos as int) == Kind::Input,
        ensures
            final(self).follows(*old(self)),
            is_stmt(r, final(self).pos, input_at(old(self).ts(), old(self).pos as int)),
            r is Ok ==> old(self).pos < final(self).pos,
    {
        let line: usize = self.line();
        self.advance();
        self.expect(Kind::Colon)?;
        let ty = self.parse_full_type()?;
        if !matches!(ty, Type::Str | Type::Num(_)) {
            let t: String = ty.to_text();
            let what: String = text3(": input: doesn't support ", &t, " yet (only str and num)");
            return Err(line_message(line, &what));
        }
        let name = self.expect_quoted_ident()?;
        let source = self.parse_optional_clause("from")?;
        self.expect(Kind::Semicolon)?;
        Ok(Stmt::Input(name, ty, source))
    }

    /// `clock:num 'name';`.
    fn parse_clock(&mut self) -> (r: Result<Stmt, String>)
        requires
            old(self).wf(),
            kind_at(old(self).ts(), old(self).pos as int) == Kind::Clock,
        ensures
            final(self).follows(*old(self)),
            is_stmt(r, final(self).pos, clock_at(old(self).ts(), old(self).pos as int)),
            r is Ok ==> old(self).pos < final(self).pos,
    {
        let line: usize = self.line();
        self.advance();
        self.expect(Kind::Colon)?;
        let ty = self.parse_full_type()?;
        if !matches!(ty, Type::Num(_)) {
            let t: String = ty.to_text();
            let what: String = text3(": clock: doesn't support ", &t, " yet (only num)");
            return Err(line_message(line, &what));
        }
        let name = self.expect_quoted_ident()?;
        self.expect(Kind::Semicolon)?;
        Ok(Stmt::Clock(name, ty))
    }

    /// A statement that starts with `ref:var`.
    fn parse_ref_stmt(&mut self) -> (r: Result<Stmt, String>)
        requires
            old(self).wf(),
        ensures
            final(self).follows(*old(self)),
            is_stmt(r, final(self).pos, ref_stmt_at(old(self).ts(), old(self).pos as int)),
            r is Ok ==> old(self).pos < final(self).pos,
    {
        let (name, ty) = self.parse_ref_var()?;
        if self.check(Kind::Eq) {
            self.advance();
            let value = self.parse_value(ty)?;
            self.expect(Kind::Semicolon)?;
            Ok(Stmt::Assign(name, ty, value))
        } else if self.check(Kind::Star) {
            let index = self.parse_index()?;
            self.expect(Kind::Eq)?;
            let target: Type = match ty {
                Type::Array(e) => e.as_type(),
                _ => ty,
            };
            let value = self.parse_value(target)?;
            self.expect(Kind::Semicolon)?;
            Ok(Stmt::ArrayIndexAssign(name, ty, index, value))
        } else {
            self.expect(Kind::Semicolon)?;
            Ok(Stmt::ExprStmt(Expr::Var(name, ty)))
        }
    }

    /// `return;` or `return value;`.
    fn parse_return(&mut self) -> (r: Result<Stmt, String>)
        requires
            old(self).wf(),
            kind_at(old(self).ts(), old(self).pos as int) == Kind::Return,
        ensures
            final(self).follows(*old(self)),
            is_stmt(r, final(self).pos, return_at(old(self).ts(), old(self).pos + 1)),
            r is Ok ==> old(self).pos < final(self).pos,
    {
        self.advance();
        if self.check(Kind::Semicolon) {
            self.advance();
            Ok(Stmt::Return(None))
        } else {
            let value = self.parse_expr()?;
            self.expect(Kind::Semicolon)?;
            Ok(Stmt::Return(Some(value)))
        }
    }

    /// `print*segments* [to*(dest)*];`.
    fn parse_print(&mut self) -> (r: Result<Stmt, String>)
        requires
            old(self).wf(),
            kind_at(old(self).ts(), old(self).pos as int) == Kind::Print,
        ensures
            final(self).follows(*old(self)),
            is_stmt(r, final(self).pos, print_at(old(self).ts(), old(self).pos + 1)),
            r is Ok ==> old(self).pos < final(self).pos,
    {
        self.advance();
        let segments = self.parse_segments()?;
        let dest = self.parse_optional_clause("to")?;
        self.expect(Kind::Semicolon)?;
        Ok(Stmt::Print(segments, dest))
    }

    /// `overwrite*segments* [to*(dest)*];`.
    fn parse_overwrite(&mut self) -> (r: Result<Stmt, String>)
        requires
            old(self).wf(),
            kind_at(old(self).ts(), old(self).pos as int) == Kind::Overwrite,
        ensures
            final(self).follows(*old(self)),
            is_stmt(r, final(self).pos, overwrite_at(old(self).ts(), old(self).pos + 1)),
            r is Ok ==> old(self).pos < final(self).pos,
    {
        self.advance();
        let segments = self.parse_segments()?;
        let dest = self.parse_clause("to")?;
        self.expect(Kind::Semicolon)?;
        Ok(Stmt::Overwrite(segments, dest))
    }

    /// `read*(source)*;`.
    fn parse_read(&mut self) -> (r: Result<Stmt, String>)
        requires
            old(self).wf(),
            kind_at(old(self).ts(), old(self).pos as int) == Kind::Read,
        ensures
            final(self).follows(*old(self)),
            is_stmt(r, final(self).pos, read_at(old(self).ts(), old(self).pos + 1)),
            r is Ok ==> old(self).pos < final(self).pos,
    {
        self.advance();
        self.expect(Kind::Star)?;
        let source = self.parse_expr()?;
        self.expect(Kind::Star)?;
        self.expect(Kind::Semicolon)?;
        Ok(Stmt::Read(source))
    }

    /// `append*(array), (value)*;`.
    fn parse_append(&mut self) -> (r: Result<Stmt, String>)
        requires
            old(self).wf(),
            kind_at(old(self).ts(), old(self).pos as int) == Kind::Append,
        ensures
            final(self).follows(*old(self)),
            is_stmt(r, final(self).pos, append_at(old(self).ts(), old(self).pos + 1)),
            r is Ok ==> old(self).pos < final(self).pos,
    {
        self.advance();
        self.expect(Kind::Star)?;
        let array = self.parse_expr()?;
        self.expect(Kind::Comma)?;
        let value = self.parse_expr()?;
        self.expect(Kind::Star)?;
        self.expect(Kind::Semicolon)?;
        Ok(Stmt::Append(array, value))
    }

    /// `[word*expr*]`.
    fn parse_clause(&mut self, word: &str) -> (r: Result<Expr, String>)
        requires
            old(self).wf(),
        ensures
            final(self).follows(*old(self)),
            is_expr(r, final(self).pos, clause_at(old(self).ts(), old(self).pos as int, word@)),
            r is Ok ==> old(self).pos < final(self).pos,
    {
        self.expect(Kind::LBracket)?;
        let line: usize = self.line();
        let w = self.expect_ident()?;
        if !same_text(&w, word) {
            let what: String = text5(": expected '", word, "', found '", &w, "'");
            return Err(line_message(line, &what));
        }
        self.expect(Kind::Star)?;
        let e = self.parse_expr()?;
        self.expect(Kind::Star)?;
        self.expect(Kind::RBracket)?;
        Ok(e)
    }

    /// `[word*expr*]`, or nothing.
    fn parse_optional_clause(&mut self, word: &str) -> (r: Result<Option<Expr>, String>)
        requires
            old(self).wf(),
        ensures
            final(self).follows(*old(self)),
            is_expr_opt(r, final(self).pos, optional_clause_at(old(self).ts(), old(self).pos as int, word@)),
    {
        if self.check(Kind::LBracket) {
            let e = self.parse_clause(word)?;
            Ok(Some(e))
        } else {
            Ok(None)
        }
    }

    /// `*segments*`.
    fn parse_segments(&mut self) -> (r: Result<Vec<PrintSegment>, String>)
        requires
            old(self).wf(),
        ensures
            final(self).follows(*old(self)),
            is_segments(r, final(self).pos, bracketed_segments_at(old(self).ts(), old(self).pos as int)),
            r is Ok ==> old(self).pos < final(self).pos,
    {
        self.expect(Kind::Star)?;
        let mut segments: Vec<PrintSegment> = Vec::new();
        let ghost ts = self.ts();
        let ghost start = self.pos as int;
        assert(segments_view(segments@) =~= Seq::empty());
        loop
            invariant_except_break
                segments_at(ts, start, Seq::empty()) == segments_at(ts, self.pos as int, segments_view(segments@)),
            invariant
                self.follows(*old(self)),
                ts == self.ts(),
                ts == old(self).ts(),
                start == old(self).pos + 1,
                start <= self.pos,
                kind_at(ts, old(self).pos as int) == Kind::Star,
            ensures
                self.follows(*old(self)),
                start <= self.pos,
                segments_at(ts, start, Seq::empty()) == Ok::<(Seq<SegmentV>, int), Seq<char>>((segments_view(segments@), self.pos as int)),
            decreases self.tokens@.len() - self.pos,
        {
            let ghost before = segments_view(segments@);
            let kind: Kind = self.kind();
            if kind == Kind::Str {
                let s: PrintSegment = PrintSegment::Str(self.carried_text());
                self.advance();
                segments.push(s);
                assert(segments_view(segments@) =~= before.push(s@));
            } else if kind == Kind::LParen || kind == Kind::Ref || kind == Kind::Activate || kind == Kind::Minus || kind
                == Kind::Not || kind == Kind::LBrace {
                let e = self.parse_expr()?;
                let s: PrintSegment = PrintSegment::Expr(e);
                segments.push(s);
                assert(segments_view(segments@) =~= before.push(s@));
            } else if kind == Kind::Star {
                break;
            } else {
                return Err(self.unexpected(": expected a \"literal\", a value, or the closing '*', found "));
            }
        }
        self.expect(Kind::Star)?;
        Ok(segments)
    }

    // Expressions, from the loosest operators to the tightest: or, and, equality, comparison,
    // stitch, term, factor, power, prefix, postfix, value.

    /// An expression.
    fn parse_expr(&mut self) -> (r: Result<Expr, String>)
        requires
            old(self).wf(),
        ensures
            final(self).follows(*old(self)),
            is_expr(r, final(self).pos, expr_at(old(self).ts(), old(self).pos as int)),
            r is Ok ==> old(self).pos < final(self).pos,
        decreases old(self).tokens@.len() - old(self).pos, 20int,
    {
        self.parse_level(0)
    }

    /// An expression of operators at `level` and above.
    fn parse_level(&mut self, level: u8) -> (r: Result<Expr, String>)
        requires
            old(self).wf(),
        ensures
            final(self).follows(*old(self)),
            is_expr(r, final(self).pos, level_at(old(self).ts(), old(self).pos as int, level as int)),
            r is Ok ==> old(self).pos < final(self).pos,
        decreases old(self).tokens@.len() - old(self).pos, (if level < 7 { 18 - level } else { 10 }),
    {
        if level >= 7 {
            return self.parse_power();
        }
        let mut left = self.parse_level(level + 1)?;
        let ghost ts = self.ts();
        loop
            invariant
                self.follows(*old(self)),
                ts == self.ts(),
                ts == old(self).ts(),
                level < 7,
                old(self).pos < self.pos,
                level_at(ts, old(self).pos as int, level as int) == level_rest(ts, self.pos as int, level as int, left@),
            decreases self.tokens@.len() - self.pos,
        {
            match operator_of(level, self.kind()) {
                None => {
                    return Ok(left);
                },
                Some(op) => {
                    self.advance();
                    let right = self.parse_level(level + 1)?;
                    left = Expr::Binary(Box::new(left), op, Box::new(right));
                },
            }
        }
    }

    /// `xx` (power) and `xxx` (tetration), which associate to the right.
    fn parse_power(&mut self) -> (r: Result<Expr, String>)
        requires
            old(self).wf(),
        ensures
            final(self).follows(*old(self)),
            is_expr(r, final(self).pos, power_at(old(self).ts(), old(self).pos as int)),
            r is Ok ==> old(self).pos < final(self).pos,
        decreases old(self).tokens@.len() - old(self).pos, 9int,
    {
        let left = self.parse_unary()?;
        let op: BinOp = match self.kind() {
            Kind::Pow => BinOp::Pow,
            Kind::Tetration => BinOp::Tetration,
            _ => {
                return Ok(left);
            },
        };
        self.advance();
        let right = self.parse_power()?;
        Ok(Expr::Binary(Box::new(left), op, Box::new(right)))
    }

    /// `-` and `not` before an operand.
    fn parse_unary(&mut self) -> (r: Result<Expr, String>)
        requires
            old(self).wf(),
        ensures
            final(self).follows(*old(self)),
            is_expr(r, final(self).pos, unary_at(old(self).ts(), old(self).pos as int)),
            r is Ok ==> old(self).pos < final(self).pos,
        decreases old(self).tokens@.len() - old(self).pos, 8int,
    {
        let op: UnOp = match self.kind() {
            Kind::Minus => UnOp::Neg,
            Kind::Not => UnOp::Not,
            _ => {
                return self.parse_postfix();
            },
        };
        self.advance();
        let operand = self.parse_unary()?;
        Ok(Expr::Unary(op, Box::new(operand)))
    }

    /// A value and the `!` behind it.
    fn parse_postfix(&mut self) -> (r: Result<Expr, String>)
        requires
            old(self).wf(),
            kind_at(old(self).ts(), old(self).pos as int) != Kind::Minus,
            kind_at(old(self).ts(), old(self).pos as int) != Kind::Not,
        ensures
            final(self).follows(*old(self)),
            is_expr(r, final(self).pos, unary_at(old(self).ts(), old(self).pos as int)),
            r is Ok ==> old(self).pos < final(self).pos,
        decreases old(self).tokens@.len() - old(self).pos, 7int, 1int,
    {
        let mut e = self.parse_primary()?;
        let ghost ts = self.ts();
        let ghost first = e@;
        let ghost q = self.pos as int;
        while self.check(Kind::Bang)
            invariant
                self.follows(*old(self)),
                ts == self.ts(),
                ts == old(self).ts(),
                old(self).pos < self.pos,
                factorials(ts, q, first) == factorials(ts, self.pos as int, e@),
            decreases self.tokens@.len() - self.pos,
        {
            self.advance();
            e = Expr::Unary(UnOp::Factorial, Box::new(e));
        }
        Ok(e)
    }

    /// A value in `( )`, a call, or an array literal.
    fn parse_primary(&mut self) -> (r: Result<Expr, String>)
        requires
            old(self).wf(),
        ensures
            final(self).follows(*old(self)),
            is_expr(r, final(self).pos, primary_at(old(self).ts(), old(self).pos as int)),
            r is Ok ==> old(self).pos < final(self).pos,
            !starts_primary(old(self).ts(), old(self).pos as int) ==> r is Err && final(self).pos == old(self).pos,
        decreases old(self).tokens@.len() - old(self).pos, 7int, 0int,
    {
        if self.check(Kind::LParen) {
            self.advance();
            let e = self.parse_wrapped_atom()?;
            self.expect(Kind::RParen)?;
            Ok(e)
        } else if self.at_call() {
            self.parse_func_call()
        } else if self.check(Kind::LBrace) {
            self.advance();
            let es = self.parse_list(Kind::RBrace)?;
            let e: Expr = Expr::ArrayLiteral(es);
            proof {
                lemma_exprs_view(e);
            }
            Ok(e)
        } else {
            Err(self.unexpected(": every value must be wrapped in parens -- e.g. (5), (ref:var:num 'x') -- found "))
        }
    }

    /// What may stand inside `( )`.
    fn parse_wrapped_atom(&mut self) -> (r: Result<Expr, String>)
        requires
            old(self).wf(),
        ensures
            final(self).follows(*old(self)),
            is_expr(r, final(self).pos, atom_at(old(self).ts(), old(self).pos as int)),
            r is Ok ==> old(self).pos < final(self).pos,
        decreases old(self).tokens@.len() - old(self).pos, 6int,
    {
        match self.kind() {
            Kind::Num => {
                let text: String = self.carried_text();
                self.advance();
                Ok(Expr::Num(text))
            },
            Kind::Str => {
                let text: String = self.carried_text();
                self.advance();
                Ok(Expr::Str(text))
            },
            Kind::True => {
                self.advance();
                Ok(Expr::Bool(true))
            },
            Kind::False => {
                self.advance();
                Ok(Expr::Bool(false))
            },
            Kind::Ref => {
                let (name, ty) = self.parse_ref_var()?;
                if self.check(Kind::Star) {
                    let index = self.parse_index()?;
                    Ok(Expr::ArrayIndex(name, ty, Box::new(index)))
                } else {
                    Ok(Expr::Var(name, ty))
                }
            },
            Kind::Length => {
                self.advance();
                self.expect(Kind::Star)?;
                let array = self.parse_length_array()?;
                self.expect(Kind::Star)?;
                Ok(Expr::Length(Box::new(array)))
            },
            _ => Err(
                self.unexpected(
                    ": expected a value (a number, string, true/false, or ref:var:TYPE 'name') inside '(', found ",
                ),
            ),
        }
    }

    /// The array whose length is asked for: a bare reference, or an expression.
    fn parse_length_array(&mut self) -> (r: Result<Expr, String>)
        requires
            old(self).wf(),
        ensures
            final(self).follows(*old(self)),
            is_expr(r, final(self).pos, length_at(old(self).ts(), old(self).pos as int)),
            r is Ok ==> old(self).pos < final(self).pos,
        decreases old(self).tokens@.len() - old(self).pos, 21int,
    {
        if self.check(Kind::Ref) && !self.at_call() {
            let (name, ty) = self.parse_ref_var()?;
            Ok(Expr::Var(name, ty))
        } else {
            self.parse_expr()
        }
    }

    /// `*index*`, behind the name of an array.
    fn parse_index(&mut self) -> (r: Result<Expr, String>)
        requires
            old(self).wf(),
            kind_at(old(self).ts(), old(self).pos as int) == Kind::Star,
        ensures
            final(self).follows(*old(self)),
            is_expr(r, final(self).pos, index_at(old(self).ts(), old(self).pos as int)),
            r is Ok ==> old(self).pos < final(self).pos,
        decreases old(self).tokens@.len() - old(self).pos, 21int,
    {
        self.advance();
        let index = self.parse_expr()?;
        self.expect(Kind::Star)?;
        Ok(index)
    }

    /// `ref:var:TYPE 'name'`.
    fn parse_ref_var(&mut self) -> (r: Result<(String, Type), String>)
        requires
            old(self).wf(),
        ensures
            final(self).follows(*old(self)),
            is_variable(r, final(self).pos, ref_var_at(old(self).ts(), old(self).pos as int)),
            r is Ok ==> old(self).pos < final(self).pos,
    {
        proof {
            reveal(ref_var_at);
        }
        self.expect(Kind::Ref)?;
        self.expect(Kind::Colon)?;
        self.expect(Kind::Var)?;
        self.expect(Kind::Colon)?;
        let ty = self.parse_full_type()?;
        let name = self.expect_quoted_ident()?;
        Ok((name, ty))
    }

    /// The head of a call, up to the `*` that opens its arguments.
    fn parse_call_head(&mut self) -> (r: Result<String, String>)
        requires
            old(self).wf(),
        ensures
            final(self).follows(*old(self)),
            is_text(r, final(self).pos, call_head_at(old(self).ts(), old(self).pos as int)),
            r is Ok ==> old(self).pos < final(self).pos,
    {
        proof {
            reveal(call_head_at);
        }
        if self.check(Kind::Activate) {
            self.advance();
        } else {
            self.expect(Kind::Ref)?;
            self.expect(Kind::Colon)?;
            self.expect(Kind::Func)?;
        }
        let name = self.expect_quoted_ident()?;
        self.expect(Kind::Star)?;
        Ok(name)
    }

    /// `ref:func 'name'*args*`, or `>> 'name'*args*`.
    fn parse_func_call(&mut self) -> (r: Result<Expr, String>)
        requires
            old(self).wf(),
        ensures
            final(self).follows(*old(self)),
            is_expr(r, final(self).pos, call_at(old(self).ts(), old(self).pos as int)),
            r is Ok ==> old(self).pos < final(self).pos,
        decreases old(self).tokens@.len() - old(self).pos, 6int,
    {
        let name = self.parse_call_head()?;
        let args = self.parse_list(Kind::Star)?;
        let e: Expr = Expr::Call(name, args);
        proof {
            lemma_exprs_view(e);
        }
        Ok(e)
    }

    /// Expressions with commas between them, up to and with the token of kind `close`.
    fn parse_list(&mut self, close: Kind) -> (r: Result<Vec<Expr>, String>)
        requires
            old(self).wf(),
            close != Kind::Eof,
        ensures
            final(self).follows(*old(self)),
            is_exprs(r, final(self).pos, list_at(old(self).ts(), old(self).pos as int, close)),
            r is Ok ==> old(self).pos < final(self).pos,
        decreases old(self).tokens@.len() - old(self).pos, 22int,
    {
        let mut items: Vec<Expr> = Vec::new();
        let ghost ts = self.ts();
        assert(exprs_view(items@) =~= Seq::empty());
        if self.check(close) {
            self.advance();
            return Ok(items);
        }
        loop
            invariant_except_break
                items_at(ts, old(self).pos as int, Seq::empty()) == items_at(ts, self.pos as int, exprs_view(items@)),
            invariant
                self.follows(*old(self)),
                ts == self.ts(),
                ts == old(self).ts(),
                kind_at(ts, old(self).pos as int) != close,
            ensures
                self.follows(*old(self)),
                items_at(ts, old(self).pos as int, Seq::empty()) == Ok::<(Seq<ExprV>, int), Seq<char>>((exprs_view(items@), self.pos as int)),
            decreases self.tokens@.len() - self.pos,
        {
            let ghost before = exprs_view(items@);
            let e = self.parse_expr()?;
            items.push(e);
            assert(exprs_view(items@) =~= before.push(e@));
            if self.check(Kind::Comma) {
                self.advance();
            } else {
                break;
            }
        }
        self.expect(close)?;
        Ok(items)
    }

    // The token stream.

    /// The kind of the next token.
    fn kind(&self) -> (r: Kind)
        requires
            self.wf(),
        ensures
            r == kind_at(self.ts(), self.pos as int),
    {
        self.tokens[self.pos].token.kind()
    }

    /// The line of the next token.
    fn line(&self) -> (r: usize)
        requires
            self.wf(),
        ensures
            r == self.ts()[self.pos as int].line,
    {
        self.tokens[self.pos].line
    }

    /// The next token the way it is shown in messages.
    fn found(&self) -> (r: String)
        requires
            self.wf(),
        ensures
            r@ == crate::token::token_text(self.ts()[self.pos as int].token),
    {
        self.tokens[self.pos].token.to_text()
    }

    /// The text that the next token carries.
    fn carried_text(&self) -> (r: String)
        requires
            self.wf(),
            crate::token::carries_text(kind_at(self.ts(), self.pos as int)),
        ensures
            r@ == self.ts()[self.pos as int].token.text,
    {
        match &self.tokens[self.pos].token {
            Token::Num(s) | Token::Str(s) | Token::Ident(s) | Token::Quoted(s) => s.clone(),
            _ => String::new(),
        }
    }

    /// Whether a call comes next.
    fn at_call(&self) -> (r: bool)
        requires
            self.wf(),
        ensures
            r == starts_call(self.ts(), self.pos as int),
    {
        if self.kind() == Kind::Activate {
            return true;
        }
        self.kind() == Kind::Ref && self.tokens.len() - self.pos > 2 && self.tokens[self.pos + 2].token.kind()
            == Kind::Func
    }

    /// Goes past the next token, which is not `Eof`.
    fn advance(&mut self)
        requires
            old(self).wf(),
            kind_at(old(self).ts(), old(self).pos as int) != Kind::Eof,
        ensures
            final(self).follows(*old(self)),
            final(self).pos == old(self).pos + 1,
    {
        if self.tokens.len() - self.pos > 1 {
            self.pos = self.pos + 1;
        }
    }

    /// Whether the next token is of kind `expected`.
    fn check(&self, expected: Kind) -> (r: bool)
        requires
            self.wf(),
        ensures
            r == (kind_at(self.ts(), self.pos as int) == expected),
    {
        self.kind() == expected
    }

    /// Goes past the next token if it is of kind `expected`.
    fn expect(&mut self, expected: Kind) -> (r: Result<(), String>)
        requires
            old(self).wf(),
            expected != Kind::Eof,
        ensures
            final(self).follows(*old(self)),
            match r {
                Ok(_) => final(self).pos == old(self).pos + 1 && expect_at(old(self).ts(), old(self).pos as int, expected)
                    == Ok::<int, Seq<char>>(final(self).pos as int),
                Err(m) => final(self).pos == old(self).pos && expect_at(old(self).ts(), old(self).pos as int, expected)
                    == Err::<int, Seq<char>>(m@),
            },
    {
        if self.check(expected) {
            self.advance();
            Ok(())
        } else {
            let name: String = expected.to_text();
            let what: String = text3(": expected ", &name, ", found ");
            Err(self.unexpected(&what))
        }
    }

    /// A quoted name.
    fn expect_quoted_ident(&mut self) -> (r: Result<String, String>)
        requires
            old(self).wf(),
        ensures
            final(self).follows(*old(self)),
            is_text(r, final(self).pos, quoted_at(old(self).ts(), old(self).pos as int)),
            final(self).pos == if r is Ok { old(self).pos + 1 } else { old(self).pos as int },
    {
        if self.check(Kind::Quoted) {
            let name: String = self.carried_text();
            self.advance();
            Ok(name)
        } else {
            Err(self.unexpected(": expected a quoted name like 'x', found "))
        }
    }

    /// A word that is no keyword.
    fn expect_ident(&mut self) -> (r: Result<String, String>)
        requires
            old(self).wf(),
        ensures
            final(self).follows(*old(self)),
            is_text(r, final(self).pos, ident_at(old(self).ts(), old(self).pos as int)),
            final(self).pos == if r is Ok { old(self).pos + 1 } else { old(self).pos as int },
    {
        if self.check(Kind::Ident) {
            let name: String = self.carried_text();
            self.advance();
            Ok(name)
        } else {
            Err(self.unexpected(": expected identifier, found "))
        }
    }

    /// A message with the line of the next token.
    fn located(&self, what: &str) -> (r: String)
        requires
            self.wf(),
        ensures
            r@ == located(self.ts(), self.pos as int, what@),
    {
        line_message(self.line(), what)
    }

    /// A message that ends with the next token.
    fn unexpected(&self, what: &str) -> (r: String)
        requires
            self.wf(),
        ensures
            r@ == unexpected(self.ts(), self.pos as int, what@),
    {
        let found: String = self.found();
        let full: String = text2(what, &found);
        self.located(&full)
    }
}

/// A message about a line.
fn line_message(line: usize, what: &str) -> (r: String)
    ensures
        r@ == "line "@ + crate::numeral::decimal(line as nat) + what@,
{
    let n: String = decimal_text(line as u64);
    text3("line ", &n, what)
}

/// The type that a word names, at its default precision.
fn named(name: &str) -> (r: Option<Type>)
    ensures
        r == base_type(name@),
{
    if same_text(name, "num") {
        Some(Type::Num(DEFAULT_NUM_PRECISION))
    } else if same_text(name, "numw") {
        Some(Type::NumW(DEFAULT_NUM_PRECISION))
    } else if same_text(name, "bool") {
        Some(Type::Bool)
    } else if same_text(name, "str") {
        Some(Type::Str)
    } else if same_text(name, "bignum") {
        Some(Type::BigNum(DEFAULT_BIGNUM_PRECISION))
    } else if same_text(name, "bigint") {
        Some(Type::BigInt)
    } else if same_text(name, "file") {
        Some(Type::File)
    } else if same_text(name, "int") {
        Some(Type::Int(DEFAULT_INT_PRECISION))
    } else {
        None
    }
}

/// The type `ty` with the precision that the numeral `n` states.
fn apply_width(ty: Type, n: &str) -> (r: Result<Type, String>)
    ensures
        match r {
            Ok(t) => with_width(ty, n@) == Ok::<Type, Seq<char>>(t),
            Err(m) => with_width(ty, n@) == Err::<Type, Seq<char>>(m@),
        },
{
    let whole: bool = whole_number(n);
    let v: u64 = capped_whole_value(n);
    let number: String = shown_numeral(n);
    match ty {
        Type::Num(_) => if whole && (v == 16 || v == 32 || v == 64 || v == 128) {
            Ok(Type::Num(v as u32))
        } else {
            Err(text2(": num precision must be 16, 32, 64, or 128, found ", &number))
        },
        Type::NumW(_) => if whole && (v == 16 || v == 32 || v == 64 || v == 128) {
            Ok(Type::NumW(v as u32))
        } else {
            Err(text2(": numw precision must be 16, 32, 64, or 128, found ", &number))
        },
        Type::Int(_) => if whole && (v == 8 || v == 16 || v == 32 || v == 64) {
            Ok(Type::Int(v as u32))
        } else {
            Err(text2(": int precision must be 8, 16, 32, or 64, found ", &number))
        },
        Type::BigNum(_) => if whole && v >= 1 {
            if v <= u32::MAX as u64 {
                Ok(Type::BigNum(v as u32))
            } else {
                Ok(Type::BigNum(u32::MAX))
            }
        } else {
            Err(text2(": bignum precision must be a positive whole number of bits, found ", &number))
        },
        _ => {
            let t: String = ty.name();
            Err(text2(": [precision:N] only applies to num, int or bignum, not ", &t))
        },
    }
}

/// The type `ty` with a precision, which for an array is that of its elements.
fn apply_precision(ty: Type, n: &str) -> (r: Result<Type, String>)
    ensures
        match r {
            Ok(t) => with_precision_of(ty, n@) == Ok::<Type, Seq<char>>(t),
            Err(m) => with_precision_of(ty, n@) == Err::<Type, Seq<char>>(m@),
        },
{
    match ty {
        Type::Array(e) => if matches!(
            e,
            ElementType::Num(_) | ElementType::NumW(_) | ElementType::Int(_) | ElementType::BigNum(_)
        ) {
            match apply_width(e.as_type(), n) {
                Ok(t) => match ElementType::from_type(t) {
                    Some(e2) => Ok(Type::Array(e2)),
                    None => Ok(ty),
                },
                Err(m) => Err(m),
            }
        } else {
            let t: String = ty.name();
            Err(text2(": [precision:N] only applies to num, int or bignum, not ", &t))
        },
        _ => apply_width(ty, n),
    }
}

/// The operator at `level` that a token of kind `k` is.
fn operator_of(level: u8, k: Kind) -> (r: Option<BinOp>)
    ensures
        r == operator(level as int, k),
{
    match k {
        Kind::OrOr => if level == 0 { Some(BinOp::Or) } else { None },
        Kind::AndAnd => if level == 1 { Some(BinOp::And) } else { None },
        Kind::EqEq => if level == 2 { Some(BinOp::Eq) } else { None },
        Kind::NotEq => if level == 2 { Some(BinOp::Ne) } else { None },
        Kind::Lt => if level == 3 { Some(BinOp::Lt) } else { None },
        Kind::Gt => if level == 3 { Some(BinOp::Gt) } else { None },
        Kind::LtEq => if level == 3 { Some(BinOp::Le) } else { None },
        Kind::GtEq => if level == 3 { Some(BinOp::Ge) } else { None },
        Kind::Concat => if level == 4 { Some(BinOp::Concat) } else { None },
        Kind::Plus => if level == 5 { Some(BinOp::Add) } else { None },
        Kind::Minus => if level == 5 { Some(BinOp::Sub) } else { None },
        Kind::Mul => if level == 6 { Some(BinOp::Mul) } else { None },
        Kind::Slash => if level == 6 { Some(BinOp::Div) } else { None },
        _ => None,
    }
}

} // verus!
