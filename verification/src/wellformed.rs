//! Programs whose types make sense, which all parsed programs are.

use vstd::prelude::*;
use crate::ast::{element_as_type, ExprV, FunctionV, ParamV, ProgramV, SegmentV, StmtV, Type};
use crate::grammar::{
    ahead, append_at, atom_at, block_at, bracketed_segments_at, call_at, clause_at, clock_at, entry_at, expect_at,
    expr_at, factorials, full_type_at, function_at, index_at, input_at, items_at, kind_at, length_at, level_at,
    level_rest, list_at, optional_clause_at, overwrite_at, param_list_at, params_at, power_at, precision_at,
    primary_at, print_at, program_from, program_of, read_at, ref_stmt_at, ref_var_at, return_at, return_type_at,
    segments_at, starts_call, starts_expr, stmt_at, stmts_at, type_at, unary_at, value_at, var_decl_at,
};
use crate::lexer::SpannedV;
use crate::token::Kind;

verus! {

/// Whether `w` is the width of a float.
pub open spec fn float_width(w: u32) -> bool {
    w == 16 || w == 32 || w == 64 || w == 128
}

/// Whether `w` is the width of an integer.
pub open spec fn int_width(w: u32) -> bool {
    w == 8 || w == 16 || w == 32 || w == 64
}

/// Whether values of type `ty` can be stored, and its precision is one that the type can have.
pub open spec fn wf_type(ty: Type) -> bool {
    match ty {
        Type::Num(w) => float_width(w),
        Type::NumW(w) => float_width(w),
        Type::Int(w) => int_width(w),
        Type::BigNum(p) => p >= 1,
        Type::Array(e) => match element_as_type(e) {
            Type::Num(w) => float_width(w),
            Type::NumW(w) => float_width(w),
            Type::Int(w) => int_width(w),
            Type::BigNum(p) => p >= 1,
            _ => true,
        },
        Type::Void => false,
        _ => true,
    }
}

/// Whether the types in an expression make sense.
pub open spec fn wf_expr(e: ExprV) -> bool
    decreases e,
{
    match e {
        ExprV::Var(_, ty) => wf_type(ty),
        ExprV::Unary(_, inner) => wf_expr(*inner),
        ExprV::Binary(l, _, r) => wf_expr(*l) && wf_expr(*r),
        ExprV::Call(_, args) => forall|i: int| 0 <= i < args.len() ==> wf_expr(#[trigger] args[i]),
        ExprV::ArrayLiteral(es) => forall|i: int| 0 <= i < es.len() ==> wf_expr(#[trigger] es[i]),
        ExprV::ArrayIndex(_, ty, index) => wf_type(ty) && wf_expr(*index),
        ExprV::Length(array) => wf_expr(*array),
        _ => true,
    }
}

/// Whether the types in expressions make sense.
pub open spec fn wf_exprs(es: Seq<ExprV>) -> bool {
    forall|i: int| 0 <= i < es.len() ==> wf_expr(#[trigger] es[i])
}

/// Whether the types in an expression that may be missing make sense.
pub open spec fn wf_expr_opt(e: Option<ExprV>) -> bool {
    match e {
        Some(e) => wf_expr(e),
        None => true,
    }
}

/// Whether the types in the pieces of a `print` make sense.
pub open spec fn wf_segments(s: Seq<SegmentV>) -> bool {
    forall|i: int| 0 <= i < s.len() ==> (#[trigger] s[i] matches SegmentV::Expr(e) ==> wf_expr(e))
}

/// Whether the types in a statement make sense.
pub open spec fn wf_stmt(s: StmtV) -> bool
    decreases s,
{
    match s {
        StmtV::VarDecl(_, ty, e) => wf_type(ty) && wf_expr(e),
        StmtV::Input(_, ty, source) => wf_type(ty) && wf_expr_opt(source),
        StmtV::Clock(_, ty) => wf_type(ty),
        StmtV::Assign(_, ty, e) => wf_type(ty) && wf_expr(e),
        StmtV::ArrayIndexAssign(_, ty, index, value) => wf_type(ty) && wf_expr(index) && wf_expr(value),
        StmtV::Append(array, value) => wf_expr(array) && wf_expr(value),
        StmtV::Return(e) => wf_expr_opt(e),
        StmtV::Print(segments, dest) => wf_segments(segments) && wf_expr_opt(dest),
        StmtV::Overwrite(segments, dest) => wf_segments(segments) && wf_expr(dest),
        StmtV::Read(source) => wf_expr(source),
        StmtV::ExprStmt(e) => wf_expr(e),
        StmtV::If(cond, then_block, else_block) => {
            &&& wf_expr(cond)
            &&& forall|i: int| 0 <= i < then_block.len() ==> wf_stmt(#[trigger] then_block[i])
            &&& match else_block {
                Some(b) => forall|i: int| 0 <= i < b.len() ==> wf_stmt(#[trigger] b[i]),
                None => true,
            }
        },
        StmtV::While(cond, body) => {
            &&& wf_expr(cond)
            &&& forall|i: int| 0 <= i < body.len() ==> wf_stmt(#[trigger] body[i])
        },
    }
}

/// Whether the types in a block make sense.
pub open spec fn wf_block(b: Seq<StmtV>) -> bool {
    forall|i: int| 0 <= i < b.len() ==> wf_stmt(#[trigger] b[i])
}

/// Whether the types of parameters make sense.
pub open spec fn wf_params(ps: Seq<ParamV>) -> bool {
    forall|i: int| 0 <= i < ps.len() ==> wf_type((#[trigger] ps[i]).ty)
}

/// Whether the types in a function make sense. Only a function can give `Void`.
pub open spec fn wf_function(f: FunctionV) -> bool {
    wf_params(f.params) && (f.return_type is Void || wf_type(f.return_type)) && wf_block(f.body)
}

/// Whether the types in functions make sense.
pub open spec fn wf_functions(fs: Seq<FunctionV>) -> bool {
    forall|i: int| 0 <= i < fs.len() ==> wf_function(#[trigger] fs[i])
}

/// Whether the types in a program make sense.
pub open spec fn wf_program(p: ProgramV) -> bool {
    wf_functions(p.functions) && wf_block(p.entry)
}

// ---------------------------------------------------------------------------
// Parsed programs
// ---------------------------------------------------------------------------

proof fn lemma_type(ts: Seq<SpannedV>, p: int)
    ensures
        type_at(ts, p) matches Ok(r) ==> wf_type(r.0),
{
    reveal(type_at);
}

proof fn lemma_precision(ts: Seq<SpannedV>, p: int, ty: Type)
    requires
        wf_type(ty),
    ensures
        precision_at(ts, p, ty) matches Ok(r) ==> wf_type(r.0),
{
    reveal(precision_at);
}

proof fn lemma_full_type(ts: Seq<SpannedV>, p: int)
    ensures
        full_type_at(ts, p) matches Ok(r) ==> wf_type(r.0),
{
    lemma_type(ts, p);
    if let Ok((ty, q)) = type_at(ts, p) {
        lemma_precision(ts, q, ty);
    }
}

proof fn lemma_ref_var(ts: Seq<SpannedV>, p: int)
    ensures
        ref_var_at(ts, p) matches Ok(r) ==> wf_type(r.0.1),
{
    reveal(ref_var_at);
    lemma_full_type(ts, p + 4);
}

proof fn lemma_expr(ts: Seq<SpannedV>, p: int)
    ensures
        expr_at(ts, p) matches Ok(r) ==> wf_expr(r.0),
    decreases ts.len() - p, 20int,
{
    lemma_level(ts, p, 0);
}

proof fn lemma_level(ts: Seq<SpannedV>, p: int, level: int)
    ensures
        level_at(ts, p, level) matches Ok(r) ==> wf_expr(r.0),
    decreases ts.len() - p, if 0 <= level < 7 { 18 - level } else { 10 },
{
    if level < 0 || level >= 7 {
        lemma_power(ts, p);
    } else {
        lemma_level(ts, p, level + 1);
        if let Ok((left, q)) = level_at(ts, p, level + 1) {
            if ahead(ts, p, q) {
                lemma_level_rest(ts, q, level, left);
            }
        }
    }
}

proof fn lemma_level_rest(ts: Seq<SpannedV>, p: int, level: int, left: ExprV)
    requires
        wf_expr(left),
    ensures
        level_rest(ts, p, level, left) matches Ok(r) ==> wf_expr(r.0),
    decreases ts.len() - p, 19int,
{
    if let Some(op) = crate::grammar::operator(level, kind_at(ts, p)) {
        if 0 <= p < ts.len() {
            lemma_level(ts, p + 1, level + 1);
            if let Ok((right, q)) = level_at(ts, p + 1, level + 1) {
                if ahead(ts, p, q) {
                    lemma_level_rest(ts, q, level, ExprV::Binary(Box::new(left), op, Box::new(right)));
                }
            }
        }
    }
}

proof fn lemma_power(ts: Seq<SpannedV>, p: int)
    ensures
        power_at(ts, p) matches Ok(r) ==> wf_expr(r.0),
    decreases ts.len() - p, 9int,
{
    lemma_unary(ts, p);
    if let Ok((left, q)) = unary_at(ts, p) {
        if ahead(ts, p, q) && q < ts.len() {
            lemma_power(ts, q + 1);
        }
    }
}

proof fn lemma_unary(ts: Seq<SpannedV>, p: int)
    ensures
        unary_at(ts, p) matches Ok(r) ==> wf_expr(r.0),
    decreases ts.len() - p, 8int,
{
    if kind_at(ts, p) == Kind::Minus || kind_at(ts, p) == Kind::Not {
        if 0 <= p < ts.len() {
            lemma_unary(ts, p + 1);
        }
    } else {
        lemma_primary(ts, p);
        if let Ok((e, q)) = primary_at(ts, p) {
            lemma_factorials(ts, q, e);
        }
    }
}

proof fn lemma_factorials(ts: Seq<SpannedV>, p: int, e: ExprV)
    requires
        wf_expr(e),
    ensures
        wf_expr(factorials(ts, p, e).0),
    decreases ts.len() - p,
{
    if kind_at(ts, p) == Kind::Bang && 0 <= p < ts.len() {
        lemma_factorials(ts, p + 1, ExprV::Unary(crate::ast::UnOp::Factorial, Box::new(e)));
    }
}

proof fn lemma_primary(ts: Seq<SpannedV>, p: int)
    ensures
        primary_at(ts, p) matches Ok(r) ==> wf_expr(r.0),
    decreases ts.len() - p, 7int,
{
    if 0 <= p < ts.len() {
        if kind_at(ts, p) == Kind::LParen {
            lemma_atom(ts, p + 1);
        } else if starts_call(ts, p) {
            lemma_call(ts, p);
        } else if kind_at(ts, p) == Kind::LBrace {
            lemma_list(ts, p + 1, Kind::RBrace);
        }
    }
}

proof fn lemma_call(ts: Seq<SpannedV>, p: int)
    ensures
        call_at(ts, p) matches Ok(r) ==> wf_expr(r.0),
    decreases ts.len() - p, 6int,
{
    if let Ok((name, q)) = crate::grammar::call_head_at(ts, p) {
        if ahead(ts, p, q) {
            lemma_list(ts, q, Kind::Star);
        }
    }
}

proof fn lemma_list(ts: Seq<SpannedV>, p: int, close: Kind)
    ensures
        list_at(ts, p, close) matches Ok(r) ==> wf_exprs(r.0),
    decreases ts.len() - p, 22int,
{
    lemma_items(ts, p, Seq::empty());
}

proof fn lemma_items(ts: Seq<SpannedV>, p: int, acc: Seq<ExprV>)
    requires
        wf_exprs(acc),
    ensures
        items_at(ts, p, acc) matches Ok(r) ==> wf_exprs(r.0),
    decreases ts.len() - p, 21int,
{
    lemma_expr(ts, p);
    if let Ok((e, q)) = expr_at(ts, p) {
        if kind_at(ts, q) == Kind::Comma && ahead(ts, p, q) && q < ts.len() {
            lemma_items(ts, q + 1, acc.push(e));
        }
    }
}

proof fn lemma_atom(ts: Seq<SpannedV>, p: int)
    ensures
        atom_at(ts, p) matches Ok(r) ==> wf_expr(r.0),
    decreases ts.len() - p, 6int,
{
    if 0 <= p < ts.len() {
        lemma_ref_var(ts, p);
        if kind_at(ts, p) == Kind::Ref {
            if let Ok((_, q)) = ref_var_at(ts, p) {
                if ahead(ts, p, q) && q < ts.len() {
                    lemma_index(ts, q);
                }
            }
        } else if kind_at(ts, p) == Kind::Length {
            if let Ok(q) = expect_at(ts, p + 1, Kind::Star) {
                lemma_length(ts, q);
            }
        }
    }
}

proof fn lemma_length(ts: Seq<SpannedV>, p: int)
    ensures
        length_at(ts, p) matches Ok(r) ==> wf_expr(r.0),
    decreases ts.len() - p, 21int,
{
    lemma_ref_var(ts, p);
    lemma_expr(ts, p);
}

proof fn lemma_index(ts: Seq<SpannedV>, p: int)
    ensures
        index_at(ts, p) matches Ok(r) ==> wf_expr(r.0),
    decreases ts.len() - p, 21int,
{
    if 0 <= p < ts.len() {
        lemma_expr(ts, p + 1);
    }
}

proof fn lemma_value(ts: Seq<SpannedV>, p: int, ty: Type)
    ensures
        value_at(ts, p, ty) matches Ok(r) ==> wf_expr(r.0),
{
    lemma_expr(ts, p);
}

proof fn lemma_clause(ts: Seq<SpannedV>, p: int, word: Seq<char>)
    ensures
        clause_at(ts, p, word) matches Ok(r) ==> wf_expr(r.0),
        optional_clause_at(ts, p, word) matches Ok(r) ==> wf_expr_opt(r.0),
{
    lemma_expr(ts, p + 3);
}

proof fn lemma_segments(ts: Seq<SpannedV>, p: int, acc: Seq<SegmentV>)
    requires
        wf_segments(acc),
    ensures
        segments_at(ts, p, acc) matches Ok(r) ==> wf_segments(r.0),
    decreases ts.len() - p,
{
    if 0 <= p < ts.len() {
        if kind_at(ts, p) == Kind::Str {
            lemma_segments(ts, p + 1, acc.push(SegmentV::Str(ts[p].token.text)));
        } else if starts_expr(kind_at(ts, p)) {
            lemma_expr(ts, p);
            if let Ok((e, q)) = expr_at(ts, p) {
                if ahead(ts, p, q) {
                    lemma_segments(ts, q, acc.push(SegmentV::Expr(e)));
                }
            }
        }
    }
}

proof fn lemma_bracketed(ts: Seq<SpannedV>, p: int)
    ensures
        bracketed_segments_at(ts, p) matches Ok(r) ==> wf_segments(r.0),
{
    lemma_segments(ts, p + 1, Seq::empty());
}

proof fn lemma_var_decl(ts: Seq<SpannedV>, p: int)
    ensures
        var_decl_at(ts, p) matches Ok(r) ==> wf_stmt(r.0),
{
    lemma_type(ts, p + 1);
    if let Ok((ty, q)) = type_at(ts, p + 1) {
        lemma_value(ts, q + 2, ty);
        if let Ok((_, q)) = value_at(ts, q + 2, ty) {
            lemma_precision(ts, q, ty);
        }
    }
}

proof fn lemma_input(ts: Seq<SpannedV>, p: int)
    ensures
        input_at(ts, p) matches Ok(r) ==> wf_stmt(r.0),
        clock_at(ts, p) matches Ok(r) ==> wf_stmt(r.0),
{
    lemma_full_type(ts, p + 2);
    if let Ok((_, q)) = full_type_at(ts, p + 2) {
        lemma_clause(ts, q + 1, "from"@);
    }
}

proof fn lemma_ref_stmt(ts: Seq<SpannedV>, p: int)
    ensures
        ref_stmt_at(ts, p) matches Ok(r) ==> wf_stmt(r.0),
{
    lemma_ref_var(ts, p);
    if let Ok(((name, ty), q)) = ref_var_at(ts, p) {
        lemma_value(ts, q + 1, ty);
        lemma_index(ts, q);
        if let Ok((_, q)) = index_at(ts, q) {
            lemma_value(ts, q + 1, crate::grammar::stored_type(ty));
        }
    }
}

proof fn lemma_simple_stmts(ts: Seq<SpannedV>, p: int)
    ensures
        return_at(ts, p) matches Ok(r) ==> wf_stmt(r.0),
        print_at(ts, p) matches Ok(r) ==> wf_stmt(r.0),
        overwrite_at(ts, p) matches Ok(r) ==> wf_stmt(r.0),
        read_at(ts, p) matches Ok(r) ==> wf_stmt(r.0),
        append_at(ts, p) matches Ok(r) ==> wf_stmt(r.0),
{
    lemma_expr(ts, p);
    lemma_expr(ts, p + 1);
    lemma_bracketed(ts, p);
    if let Ok((_, q)) = bracketed_segments_at(ts, p) {
        lemma_clause(ts, q, "to"@);
    }
    if let Ok((_, q)) = expr_at(ts, p + 1) {
        lemma_expr(ts, q + 1);
    }
}

proof fn lemma_stmt(ts: Seq<SpannedV>, p: int)
    ensures
        stmt_at(ts, p) matches Ok(r) ==> wf_stmt(r.0),
    decreases ts.len() - p, 0int,
{
    if 0 <= p < ts.len() {
        let k = kind_at(ts, p);
        if k == Kind::Var {
            lemma_var_decl(ts, p + 1);
        } else if k == Kind::Input || k == Kind::Clock {
            lemma_input(ts, p);
        } else if starts_call(ts, p) {
            lemma_call(ts, p);
        } else if k == Kind::Ref {
            lemma_ref_stmt(ts, p);
        } else if k == Kind::Return || k == Kind::Print || k == Kind::Overwrite || k == Kind::Read || k == Kind::Append {
            lemma_simple_stmts(ts, p + 1);
        } else if k == Kind::If || k == Kind::While {
            lemma_expr(ts, p + 1);
            if let Ok((_, q)) = expr_at(ts, p + 1) {
                if ahead(ts, p, q) {
                    lemma_block(ts, q);
                    if let Ok((_, q)) = block_at(ts, q) {
                        if ahead(ts, p, q) && q < ts.len() {
                            lemma_block(ts, q + 1);
                        }
                    }
                }
            }
        } else {
            lemma_expr(ts, p);
        }
    }
}

proof fn lemma_stmts(ts: Seq<SpannedV>, p: int, close: Kind, acc: Seq<StmtV>)
    requires
        wf_block(acc),
    ensures
        stmts_at(ts, p, close, acc) matches Ok(r) ==> wf_block(r.0),
    decreases ts.len() - p, 1int,
{
    if kind_at(ts, p) != close {
        lemma_stmt(ts, p);
        if let Ok((s, q)) = stmt_at(ts, p) {
            if ahead(ts, p, q) {
                lemma_stmts(ts, q, close, acc.push(s));
            }
        }
    }
}

proof fn lemma_block(ts: Seq<SpannedV>, p: int)
    ensures
        block_at(ts, p) matches Ok(r) ==> wf_block(r.0),
    decreases ts.len() - p, 0int,
{
    if 0 <= p < ts.len() {
        lemma_stmts(ts, p + 1, Kind::RBrace, Seq::empty());
    }
}

proof fn lemma_params(ts: Seq<SpannedV>, p: int, acc: Seq<ParamV>)
    requires
        wf_params(acc),
    ensures
        params_at(ts, p, acc) matches Ok(r) ==> wf_params(r.0),
    decreases ts.len() - p,
{
    lemma_full_type(ts, p + 2);
    if let Ok((name, _)) = crate::grammar::quoted_at(ts, p) {
        if let Ok((ty, q)) = full_type_at(ts, p + 2) {
            if kind_at(ts, q) == Kind::Comma && ahead(ts, p, q) && q < ts.len() {
                lemma_params(ts, q + 1, acc.push(ParamV { name, ty }));
            }
        }
    }
}

proof fn lemma_function(ts: Seq<SpannedV>, p: int)
    ensures
        function_at(ts, p) matches Ok(r) ==> wf_function(r.0),
{
    reveal(function_at);
    lemma_params(ts, p + 3, Seq::empty());
    if let Ok((_, q)) = param_list_at(ts, p + 3) {
        lemma_full_type(ts, q + 1);
        if let Ok((_, q)) = return_type_at(ts, q) {
            lemma_block(ts, q);
        }
    }
}

proof fn lemma_program(
    ts: Seq<SpannedV>,
    p: int,
    functions: Seq<FunctionV>,
    entry: Option<Seq<StmtV>>,
    link_to: Option<Seq<char>>,
)
    requires
        wf_functions(functions),
        entry matches Some(b) ==> wf_block(b),
    ensures
        program_from(ts, p, functions, entry, link_to) matches Ok(r) ==> wf_program(r),
    decreases ts.len() - p,
{
    if 0 <= p < ts.len() {
        let k = kind_at(ts, p);
        if k == Kind::Func {
            lemma_function(ts, p);
            if let Ok((f, q)) = function_at(ts, p) {
                if ahead(ts, p, q) {
                    lemma_program(ts, q, functions.push(f), entry, link_to);
                }
            }
        } else if k == Kind::Start {
            reveal(entry_at);
            lemma_stmts(ts, p + 1, Kind::End, Seq::empty());
            if let Ok((b, q)) = entry_at(ts, p) {
                if ahead(ts, p, q) {
                    lemma_program(ts, q, functions, Some(b), link_to);
                }
            }
        } else if k == Kind::LinkTo {
            if let Ok((path, q)) = crate::grammar::link_at(ts, p) {
                if ahead(ts, p, q) {
                    lemma_program(ts, q, functions, entry, Some(path));
                }
            }
        }
    }
}

/// The types in a parsed program make sense: every precision is one that its type can have, and
/// no variable, parameter or reference is `Void`.
pub proof fn parsed_programs_are_well_formed(ts: Seq<SpannedV>)
    ensures
        program_of(ts) matches Ok(p) ==> wf_program(p),
{
    lemma_program(ts, 0, Seq::empty(), None, None);
}

} // verus!
