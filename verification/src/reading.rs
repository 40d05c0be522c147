//! Whole programs that are written down are read back as they were.

use vstd::prelude::*;
use crate::ast::{ExprV, FunctionV, ParamV, ProgramV, SegmentV, StmtV, Type};
use crate::grammar::{
    ahead, append_at, block_at, bracketed_segments_at, call_at, clause_at, clock_at, ended, entry_at, expect_at,
    expr_at, full_type_at, function_at, index_at, input_at, kind_at, link_at, optional_clause_at, overwrite_at,
    param_list_at, params_at, precision_at, print_at, program_from, program_of, quoted_at, read_at, ref_stmt_at,
    ref_var_at, return_at, return_type_at, segments_at, starts_call, starts_expr, stmt_at, stmts_at, stored_type,
    type_at, value_at, var_decl_at,
};
use crate::lexer::SpannedV;
use crate::numeral::decimal;
use crate::spelling::{
    closes, default_type, expressions_are_read_back, full_type_words, lemma_bounds, lemma_call_words, lemma_first,
    lemma_full_type, lemma_precision_words, lemma_ref, lemma_spell_nonempty, lemma_two, lemma_type_words, named, peel,
    peel_last, precision_number, precision_words, ref_words, spell, stand_at, starts_with_minus, tk, type_words, word,
    writable,
};
use crate::token::{Kind, TokenV};
use crate::wellformed::wf_type;

verus! {

// ---------------------------------------------------------------------------
// Statements, written down
// ---------------------------------------------------------------------------

/// `[word*expr*]`.
pub open spec fn clause_words(w: Seq<char>, e: ExprV) -> Seq<TokenV> {
    seq![tk(Kind::LBracket)] + (seq![word(w)] + (seq![tk(Kind::Star)] + (spell(e) + (seq![tk(Kind::Star)] + seq![
        tk(Kind::RBracket),
    ]))))
}

/// `[word*expr*]`, or nothing.
pub open spec fn optional_words(w: Seq<char>, e: Option<ExprV>) -> Seq<TokenV> {
    match e {
        Some(e) => clause_words(w, e),
        None => Seq::empty(),
    }
}

/// The pieces of a `print` from number `i` on.
pub open spec fn segment_words(ss: Seq<SegmentV>, i: nat) -> Seq<TokenV>
    decreases ss.len() - i,
{
    if i >= ss.len() {
        Seq::empty()
    } else {
        (match ss[i as int] {
            SegmentV::Str(t) => seq![TokenV { kind: Kind::Str, text: t }],
            SegmentV::Expr(e) => spell(e),
        }) + segment_words(ss, i + 1)
    }
}

/// `*segments*`.
pub open spec fn print_words(ss: Seq<SegmentV>) -> Seq<TokenV> {
    seq![tk(Kind::Star)] + (segment_words(ss, 0) + seq![tk(Kind::Star)])
}

/// A statement, written down.
pub open spec fn spell_stmt(s: StmtV) -> Seq<TokenV>
    decreases s, 0nat,
{
    let end = seq![tk(Kind::Semicolon)];
    match s {
        StmtV::VarDecl(name, ty, e) => seq![tk(Kind::Var)] + (seq![tk(Kind::Colon)] + (type_words(ty) + (seq![named(name)] + (
        seq![tk(Kind::Eq)] + (spell(e) + (precision_words(ty) + end)))))),
        StmtV::Input(name, ty, source) => seq![tk(Kind::Input)] + (seq![tk(Kind::Colon)] + (full_type_words(ty) + (seq![
            named(name),
        ] + (optional_words("from"@, source) + end)))),
        StmtV::Clock(name, ty) => seq![tk(Kind::Clock)] + (seq![tk(Kind::Colon)] + (full_type_words(ty) + (seq![
            named(name),
        ] + end))),
        StmtV::Assign(name, ty, e) => ref_words(name, ty) + (seq![tk(Kind::Eq)] + (spell(e) + end)),
        StmtV::ArrayIndexAssign(name, ty, index, value) => ref_words(name, ty) + (seq![tk(Kind::Star)] + (spell(index) + (
        seq![tk(Kind::Star)] + (seq![tk(Kind::Eq)] + (spell(value) + end))))),
        StmtV::Append(array, value) => seq![tk(Kind::Append)] + (seq![tk(Kind::Star)] + (spell(array) + (seq![
            tk(Kind::Comma),
        ] + (spell(value) + (seq![tk(Kind::Star)] + end))))),
        StmtV::Return(None) => seq![tk(Kind::Return)] + end,
        StmtV::Return(Some(e)) => seq![tk(Kind::Return)] + (spell(e) + end),
        StmtV::Print(ss, dest) => seq![tk(Kind::Print)] + (print_words(ss) + (optional_words("to"@, dest) + end)),
        StmtV::Overwrite(ss, dest) => seq![tk(Kind::Overwrite)] + (print_words(ss) + (clause_words("to"@, dest) + end)),
        StmtV::Read(e) => seq![tk(Kind::Read)] + (seq![tk(Kind::Star)] + (spell(e) + (seq![tk(Kind::Star)] + end))),
        StmtV::ExprStmt(e) => (match e {
            ExprV::Var(name, ty) => ref_words(name, ty),
            _ => spell(e),
        }) + end,
        StmtV::If(cond, then_block, None) => seq![tk(Kind::If)] + (spell(cond) + spell_block(then_block)),
        StmtV::If(cond, then_block, Some(else_block)) => seq![tk(Kind::If)] + (spell(cond) + (spell_block(then_block) + (seq![
            tk(Kind::Else),
        ] + spell_block(else_block)))),
        StmtV::While(cond, body) => seq![tk(Kind::While)] + (spell(cond) + spell_block(body)),
    }
}

/// `{ statements }`.
pub open spec fn spell_block(b: Seq<StmtV>) -> Seq<TokenV>
    decreases b, b.len() + 1,
{
    seq![tk(Kind::LBrace)] + (spell_stmts(b, 0) + seq![tk(Kind::RBrace)])
}

/// The statements from number `i` on.
pub open spec fn spell_stmts(b: Seq<StmtV>, i: nat) -> Seq<TokenV>
    decreases b, b.len() - i,
{
    if i >= b.len() {
        Seq::empty()
    } else {
        spell_stmt(b[i as int]) + spell_stmts(b, i + 1)
    }
}

/// Whether the pieces of a `print` can be written down: a value that starts with a `-` does not follow
/// another value, from which it would be subtracted.
pub open spec fn writable_segments(ss: Seq<SegmentV>) -> bool {
    &&& forall|i: int| 0 <= i < ss.len() ==> (#[trigger] ss[i] matches SegmentV::Expr(e) ==> writable(e))
    &&& forall|i: int|
        0 < i < ss.len() && ss[i - 1] is Expr ==> (#[trigger] ss[i] matches SegmentV::Expr(e) ==> !starts_with_minus(e))
}

/// Whether an expression that may be missing can be written down.
pub open spec fn writable_opt(e: Option<ExprV>) -> bool {
    match e {
        Some(e) => writable(e),
        None => true,
    }
}

/// Whether a statement can be written down. An expression that is a statement is a call or a reference.
pub open spec fn writable_stmt(s: StmtV) -> bool
    decreases s,
{
    match s {
        StmtV::VarDecl(_, ty, e) => wf_type(ty) && writable(e),
        StmtV::Input(_, ty, source) => wf_type(ty) && (ty is Str || ty is Num) && writable_opt(source),
        StmtV::Clock(_, ty) => wf_type(ty) && ty is Num,
        StmtV::Assign(_, ty, e) => wf_type(ty) && writable(e),
        StmtV::ArrayIndexAssign(_, ty, index, value) => wf_type(ty) && writable(index) && writable(value),
        StmtV::Append(array, value) => writable(array) && writable(value),
        StmtV::Return(e) => writable_opt(e),
        StmtV::Print(ss, dest) => writable_segments(ss) && writable_opt(dest),
        StmtV::Overwrite(ss, dest) => writable_segments(ss) && writable(dest),
        StmtV::Read(e) => writable(e),
        StmtV::ExprStmt(e) => writable(e) && (e is Call || e is Var),
        StmtV::If(cond, then_block, else_block) => {
            &&& writable(cond)
            &&& forall|i: int| 0 <= i < then_block.len() ==> writable_stmt(#[trigger] then_block[i])
            &&& match else_block {
                Some(b) => forall|i: int| 0 <= i < b.len() ==> writable_stmt(#[trigger] b[i]),
                None => true,
            }
        },
        StmtV::While(cond, body) => {
            &&& writable(cond)
            &&& forall|i: int| 0 <= i < body.len() ==> writable_stmt(#[trigger] body[i])
        },
    }
}

/// Whether statements can be written down.
pub open spec fn writable_block(b: Seq<StmtV>) -> bool {
    forall|i: int| 0 <= i < b.len() ==> writable_stmt(#[trigger] b[i])
}

// ---------------------------------------------------------------------------
// Statements, read back
// ---------------------------------------------------------------------------

/// An expression between other tokens.
proof fn lemma_expr(ts: Seq<SpannedV>, p: int, e: ExprV, k: Kind, rest: Seq<TokenV>)
    requires
        writable(e),
        stand_at(ts, p, spell(e) + rest),
        kind_at(ts, p + spell(e).len()) == k,
        closes(k, 0),
    ensures
        expr_at(ts, p) == Ok::<(ExprV, int), Seq<char>>((e, p + spell(e).len())),
        stand_at(ts, p + spell(e).len(), rest),
        starts_expr(kind_at(ts, p)),
        kind_at(ts, p) != Kind::Ref,
        p < p + spell(e).len() <= ts.len(),
        0 <= p,
{
    lemma_two(ts, p, spell(e), rest);
    lemma_first(ts, p, e);
    lemma_spell_nonempty(e);
    lemma_bounds(ts, p, spell(e));
    expressions_are_read_back(ts, p, e);
}

/// An expression with a fixed token behind it.
proof fn lemma_expr_then(ts: Seq<SpannedV>, p: int, e: ExprV, t: TokenV, rest: Seq<TokenV>)
    requires
        writable(e),
        stand_at(ts, p, spell(e) + (seq![t] + rest)),
        closes(t.kind, 0),
    ensures
        expr_at(ts, p) == Ok::<(ExprV, int), Seq<char>>((e, p + spell(e).len())),
        kind_at(ts, p + spell(e).len()) == t.kind,
        p + spell(e).len() < ts.len(),
        stand_at(ts, p + spell(e).len() + 1, rest),
        starts_expr(kind_at(ts, p)),
        kind_at(ts, p) != Kind::Ref,
        0 <= p,
        spell(e).len() > 0,
{
    lemma_two(ts, p, spell(e), seq![t] + rest);
    peel(ts, p + spell(e).len(), t, rest);
    lemma_expr(ts, p, e, t.kind, seq![t] + rest);
}

proof fn lemma_clause(ts: Seq<SpannedV>, p: int, w: Seq<char>, e: ExprV)
    requires
        writable(e),
        stand_at(ts, p, clause_words(w, e)),
    ensures
        kind_at(ts, p) == Kind::LBracket,
        clause_at(ts, p, w) == Ok::<(ExprV, int), Seq<char>>((e, p + clause_words(w, e).len())),
{
    let r3 = spell(e) + (seq![tk(Kind::Star)] + seq![tk(Kind::RBracket)]);
    let r2 = seq![tk(Kind::Star)] + r3;
    peel(ts, p, tk(Kind::LBracket), seq![word(w)] + r2);
    peel(ts, p + 1, word(w), r2);
    peel(ts, p + 2, tk(Kind::Star), r3);
    lemma_expr_then(ts, p + 3, e, tk(Kind::Star), seq![tk(Kind::RBracket)]);
    peel_last(ts, p + 3 + spell(e).len() + 1, tk(Kind::RBracket));
}

proof fn lemma_optional(ts: Seq<SpannedV>, p: int, w: Seq<char>, e: Option<ExprV>)
    requires
        writable_opt(e),
        stand_at(ts, p, optional_words(w, e)),
        kind_at(ts, p + optional_words(w, e).len()) != Kind::LBracket,
    ensures
        optional_clause_at(ts, p, w) == Ok::<(Option<ExprV>, int), Seq<char>>((e, p + optional_words(w, e).len())),
{
    if let Some(x) = e {
        lemma_clause(ts, p, w, x);
    }
}

#[verifier::rlimit(40)]
proof fn lemma_segments(ts: Seq<SpannedV>, p: int, ss: Seq<SegmentV>, i: nat)
    requires
        writable_segments(ss),
        i <= ss.len(),
        stand_at(ts, p, segment_words(ss, i)),
        kind_at(ts, p + segment_words(ss, i).len()) == Kind::Star,
        p + segment_words(ss, i).len() < ts.len(),
    ensures
        segments_at(ts, p, ss.take(i as int)) == Ok::<(Seq<SegmentV>, int), Seq<char>>(
            (ss, p + segment_words(ss, i).len()),
        ),
        i > 0 && ss[i - 1] is Expr ==> closes(kind_at(ts, p), 0),
    decreases ss.len() - i,
{
    lemma_bounds(ts, p, segment_words(ss, i));
    if i == ss.len() {
        assert(ss.take(i as int) =~= ss);
    } else {
        let rest = segment_words(ss, i + 1);
        let s = ss[i as int];
        assert(ss.take(i as int).push(s) =~= ss.take((i + 1) as int));
        match s {
            SegmentV::Str(t) => {
                peel(ts, p, TokenV { kind: Kind::Str, text: t }, rest);
                lemma_segments(ts, p + 1, ss, i + 1);
            },
            SegmentV::Expr(e) => {
                lemma_two(ts, p, spell(e), rest);
                let q = p + spell(e).len();
                assert(q + rest.len() == p + segment_words(ss, i).len());
                lemma_segments(ts, q, ss, i + 1);
                assert(expr_at(ts, p) == Ok::<(ExprV, int), Seq<char>>((e, q)) && starts_expr(kind_at(ts, p)) && p < q
                    <= ts.len()) by {
                    lemma_expr(ts, p, e, kind_at(ts, q), rest);
                }
                lemma_first(ts, p, e);
            },
        }
    }
}

proof fn lemma_print(ts: Seq<SpannedV>, p: int, ss: Seq<SegmentV>)
    requires
        writable_segments(ss),
        stand_at(ts, p, print_words(ss)),
    ensures
        bracketed_segments_at(ts, p) == Ok::<(Seq<SegmentV>, int), Seq<char>>((ss, p + print_words(ss).len())),
{
    let n = segment_words(ss, 0);
    peel(ts, p, tk(Kind::Star), n + seq![tk(Kind::Star)]);
    lemma_two(ts, p + 1, n, seq![tk(Kind::Star)]);
    peel_last(ts, p + 1 + n.len(), tk(Kind::Star));
    lemma_segments(ts, p + 1, ss, 0);
    assert(ss.take(0) =~= Seq::empty());
}

/// A value that is stored: an expression starts with no quoted name.
proof fn lemma_value(ts: Seq<SpannedV>, p: int, e: ExprV, ty: Type)
    requires
        starts_expr(kind_at(ts, p)),
    ensures
        value_at(ts, p, ty) == expr_at(ts, p),
{
}

/// The statement `s` is read at `p`, up to `q`.
#[verifier::opaque]
spec fn reads(ts: Seq<SpannedV>, p: int, s: StmtV, q: int) -> bool {
    stmt_at(ts, p) == Ok::<(StmtV, int), Seq<char>>((s, q))
}

proof fn lemma_expect(ts: Seq<SpannedV>, p: int, k: Kind)
    requires
        kind_at(ts, p) == k,
    ensures
        expect_at(ts, p, k) == Ok::<int, Seq<char>>(p + 1),
{
}

proof fn lemma_ended(ts: Seq<SpannedV>, p: int, s: StmtV)
    requires
        kind_at(ts, p) == Kind::Semicolon,
    ensures
        ended(ts, p, s) == Ok::<(StmtV, int), Seq<char>>((s, p + 1)),
{
}

proof fn lemma_reads_var_decl(ts: Seq<SpannedV>, p: int, s: StmtV, q: int)
    requires
        0 <= p < ts.len(),
        kind_at(ts, p) == Kind::Var,
        var_decl_at(ts, p + 1) == Ok::<(StmtV, int), Seq<char>>((s, q)),
    ensures
        reads(ts, p, s, q),
{
    reveal(reads);
}

proof fn lemma_reads_input(ts: Seq<SpannedV>, p: int, s: StmtV, q: int)
    requires
        0 <= p < ts.len(),
        kind_at(ts, p) == Kind::Input,
        input_at(ts, p) == Ok::<(StmtV, int), Seq<char>>((s, q)),
    ensures
        reads(ts, p, s, q),
{
    reveal(reads);
}

proof fn lemma_reads_clock(ts: Seq<SpannedV>, p: int, s: StmtV, q: int)
    requires
        0 <= p < ts.len(),
        kind_at(ts, p) == Kind::Clock,
        clock_at(ts, p) == Ok::<(StmtV, int), Seq<char>>((s, q)),
    ensures
        reads(ts, p, s, q),
{
    reveal(reads);
}

proof fn lemma_reads_ref(ts: Seq<SpannedV>, p: int, s: StmtV, q: int)
    requires
        0 <= p < ts.len(),
        kind_at(ts, p) == Kind::Ref,
        kind_at(ts, p + 2) != Kind::Func,
        ref_stmt_at(ts, p) == Ok::<(StmtV, int), Seq<char>>((s, q)),
    ensures
        reads(ts, p, s, q),
{
    reveal(reads);
}

proof fn lemma_reads_append(ts: Seq<SpannedV>, p: int, s: StmtV, q: int)
    requires
        0 <= p < ts.len(),
        kind_at(ts, p) == Kind::Append,
        append_at(ts, p + 1) == Ok::<(StmtV, int), Seq<char>>((s, q)),
    ensures
        reads(ts, p, s, q),
{
    reveal(reads);
}

proof fn lemma_reads_return(ts: Seq<SpannedV>, p: int, s: StmtV, q: int)
    requires
        0 <= p < ts.len(),
        kind_at(ts, p) == Kind::Return,
        return_at(ts, p + 1) == Ok::<(StmtV, int), Seq<char>>((s, q)),
    ensures
        reads(ts, p, s, q),
{
    reveal(reads);
}

proof fn lemma_reads_print(ts: Seq<SpannedV>, p: int, s: StmtV, q: int)
    requires
        0 <= p < ts.len(),
        kind_at(ts, p) == Kind::Print,
        print_at(ts, p + 1) == Ok::<(StmtV, int), Seq<char>>((s, q)),
    ensures
        reads(ts, p, s, q),
{
    reveal(reads);
}

proof fn lemma_reads_overwrite(ts: Seq<SpannedV>, p: int, s: StmtV, q: int)
    requires
        0 <= p < ts.len(),
        kind_at(ts, p) == Kind::Overwrite,
        overwrite_at(ts, p + 1) == Ok::<(StmtV, int), Seq<char>>((s, q)),
    ensures
        reads(ts, p, s, q),
{
    reveal(reads);
}

proof fn lemma_reads_read(ts: Seq<SpannedV>, p: int, s: StmtV, q: int)
    requires
        0 <= p < ts.len(),
        kind_at(ts, p) == Kind::Read,
        read_at(ts, p + 1) == Ok::<(StmtV, int), Seq<char>>((s, q)),
    ensures
        reads(ts, p, s, q),
{
    reveal(reads);
}

proof fn lemma_reads_call(ts: Seq<SpannedV>, p: int, e: ExprV, q: int)
    requires
        0 <= p < ts.len(),
        starts_call(ts, p),
        call_at(ts, p) == Ok::<(ExprV, int), Seq<char>>((e, q)),
        kind_at(ts, q) == Kind::Semicolon,
    ensures
        reads(ts, p, StmtV::ExprStmt(e), q + 1),
{
    reveal(reads);
    lemma_ended(ts, q, StmtV::ExprStmt(e));
}

proof fn lemma_before_precision(ts: Seq<SpannedV>, p: int, ty: Type)
    requires
        stand_at(ts, p, precision_words(ty)),
        kind_at(ts, p + precision_words(ty).len()) == Kind::Semicolon,
    ensures
        closes(kind_at(ts, p), 0),
        precision_number(ty) is None ==> kind_at(ts, p) != Kind::LBracket,
{
    if let Some(n) = precision_number(ty) {
        let num = TokenV { kind: Kind::Num, text: decimal(n as nat) };
        peel(
            ts,
            p,
            tk(Kind::LBracket),
            seq![word("precision"@)] + (seq![tk(Kind::Colon)] + (seq![num] + seq![tk(Kind::RBracket)])),
        );
    }
}

proof fn lemma_var_decl_parts(
    ts: Seq<SpannedV>,
    p: int,
    name: Seq<char>,
    first: Type,
    ty: Type,
    e: ExprV,
    q: int,
    r: int,
    x: int,
)
    requires
        kind_at(ts, p + 1) == Kind::Colon,
        type_at(ts, p + 2) == Ok::<(Type, int), Seq<char>>((first, q)),
        quoted_at(ts, q) == Ok::<(Seq<char>, int), Seq<char>>((name, q + 1)),
        kind_at(ts, q + 1) == Kind::Eq,
        value_at(ts, q + 2, first) == Ok::<(ExprV, int), Seq<char>>((e, r)),
        precision_at(ts, r, first) == Ok::<(Type, int), Seq<char>>((ty, x)),
        kind_at(ts, x) == Kind::Semicolon,
    ensures
        var_decl_at(ts, p + 1) == Ok::<(StmtV, int), Seq<char>>((StmtV::VarDecl(name, ty, e), x + 1)),
{
    lemma_expect(ts, p + 1, Kind::Colon);
    lemma_expect(ts, q + 1, Kind::Eq);
    lemma_ended(ts, x, StmtV::VarDecl(name, ty, e));
}

proof fn lemma_var_decl(ts: Seq<SpannedV>, p: int, name: Seq<char>, ty: Type, e: ExprV)
    requires
        wf_type(ty),
        writable(e),
        stand_at(ts, p, spell_stmt(StmtV::VarDecl(name, ty, e))),
    ensures
        reads(ts, p, StmtV::VarDecl(name, ty, e), p + spell_stmt(StmtV::VarDecl(name, ty, e)).len()),
        0 <= p < ts.len(),
        kind_at(ts, p) == Kind::Var,
{
    let end = seq![tk(Kind::Semicolon)];
    let r6 = precision_words(ty) + end;
    let r5 = spell(e) + r6;
    let r4 = seq![tk(Kind::Eq)] + r5;
    let r3 = seq![named(name)] + r4;
    let r2 = type_words(ty) + r3;
    peel(ts, p, tk(Kind::Var), seq![tk(Kind::Colon)] + r2);
    peel(ts, p + 1, tk(Kind::Colon), r2);
    lemma_two(ts, p + 2, type_words(ty), r3);
    lemma_type_words(ts, p + 2, ty);
    let q = p + 2 + type_words(ty).len();
    peel(ts, q, named(name), r4);
    peel(ts, q + 1, tk(Kind::Eq), r5);
    lemma_two(ts, q + 2, spell(e), r6);
    let r = q + 2 + spell(e).len();
    lemma_two(ts, r, precision_words(ty), end);
    let x = r + precision_words(ty).len();
    peel_last(ts, x, tk(Kind::Semicolon));
    lemma_before_precision(ts, r, ty);
    assert(expr_at(ts, q + 2) == Ok::<(ExprV, int), Seq<char>>((e, r)) && starts_expr(kind_at(ts, q + 2))) by {
        lemma_expr(ts, q + 2, e, kind_at(ts, r), r6);
    }
    lemma_value(ts, q + 2, e, default_type(ty));
    lemma_precision_words(ts, r, ty);
    lemma_var_decl_parts(ts, p, name, default_type(ty), ty, e, q, r, x);
    assert(x + 1 == p + spell_stmt(StmtV::VarDecl(name, ty, e)).len());
    lemma_reads_var_decl(ts, p, StmtV::VarDecl(name, ty, e), x + 1);
}

proof fn lemma_input_parts(
    ts: Seq<SpannedV>,
    p: int,
    name: Seq<char>,
    ty: Type,
    source: Option<ExprV>,
    q: int,
    x: int,
)
    requires
        ty is Str || ty is Num,
        kind_at(ts, p) == Kind::Input,
        kind_at(ts, p + 1) == Kind::Colon,
        full_type_at(ts, p + 2) == Ok::<(Type, int), Seq<char>>((ty, q)),
        quoted_at(ts, q) == Ok::<(Seq<char>, int), Seq<char>>((name, q + 1)),
        optional_clause_at(ts, q + 1, "from"@) == Ok::<(Option<ExprV>, int), Seq<char>>((source, x)),
        kind_at(ts, x) == Kind::Semicolon,
    ensures
        input_at(ts, p) == Ok::<(StmtV, int), Seq<char>>((StmtV::Input(name, ty, source), x + 1)),
{
    lemma_expect(ts, p, Kind::Input);
    lemma_expect(ts, p + 1, Kind::Colon);
    lemma_ended(ts, x, StmtV::Input(name, ty, source));
}

proof fn lemma_input(ts: Seq<SpannedV>, p: int, name: Seq<char>, ty: Type, source: Option<ExprV>)
    requires
        wf_type(ty),
        ty is Str || ty is Num,
        writable_opt(source),
        stand_at(ts, p, spell_stmt(StmtV::Input(name, ty, source))),
    ensures
        reads(ts, p, StmtV::Input(name, ty, source), p + spell_stmt(StmtV::Input(name, ty, source)).len()),
        0 <= p < ts.len(),
        kind_at(ts, p) == Kind::Input,
{
    let end = seq![tk(Kind::Semicolon)];
    let r4 = optional_words("from"@, source) + end;
    let r3 = seq![named(name)] + r4;
    let r2 = full_type_words(ty) + r3;
    peel(ts, p, tk(Kind::Input), seq![tk(Kind::Colon)] + r2);
    peel(ts, p + 1, tk(Kind::Colon), r2);
    lemma_two(ts, p + 2, full_type_words(ty), r3);
    let q = p + 2 + full_type_words(ty).len();
    peel(ts, q, named(name), r4);
    lemma_full_type(ts, p + 2, ty);
    lemma_two(ts, q + 1, optional_words("from"@, source), end);
    peel_last(ts, q + 1 + optional_words("from"@, source).len(), tk(Kind::Semicolon));
    let x = q + 1 + optional_words("from"@, source).len();
    lemma_optional(ts, q + 1, "from"@, source);
    lemma_input_parts(ts, p, name, ty, source, q, x);
    assert(x + 1 == p + spell_stmt(StmtV::Input(name, ty, source)).len());
    lemma_reads_input(ts, p, StmtV::Input(name, ty, source), x + 1);
}

proof fn lemma_clock(ts: Seq<SpannedV>, p: int, name: Seq<char>, ty: Type)
    requires
        wf_type(ty),
        ty is Num,
        stand_at(ts, p, spell_stmt(StmtV::Clock(name, ty))),
    ensures
        reads(ts, p, StmtV::Clock(name, ty), p + spell_stmt(StmtV::Clock(name, ty)).len()),
        0 <= p < ts.len(),
        kind_at(ts, p) == Kind::Clock,
{
    let end = seq![tk(Kind::Semicolon)];
    let r3 = seq![named(name)] + end;
    let r2 = full_type_words(ty) + r3;
    peel(ts, p, tk(Kind::Clock), seq![tk(Kind::Colon)] + r2);
    peel(ts, p + 1, tk(Kind::Colon), r2);
    lemma_two(ts, p + 2, full_type_words(ty), r3);
    let q = p + 2 + full_type_words(ty).len();
    peel(ts, q, named(name), end);
    peel_last(ts, q + 1, tk(Kind::Semicolon));
    lemma_full_type(ts, p + 2, ty);
    lemma_reads_clock(ts, p, StmtV::Clock(name, ty), p + spell_stmt(StmtV::Clock(name, ty)).len());
}

proof fn lemma_assign_parts(ts: Seq<SpannedV>, p: int, name: Seq<char>, ty: Type, e: ExprV, q: int, x: int)
    requires
        ref_var_at(ts, p) == Ok::<((Seq<char>, Type), int), Seq<char>>(((name, ty), q)),
        kind_at(ts, q) == Kind::Eq,
        value_at(ts, q + 1, ty) == Ok::<(ExprV, int), Seq<char>>((e, x)),
        kind_at(ts, x) == Kind::Semicolon,
    ensures
        ref_stmt_at(ts, p) == Ok::<(StmtV, int), Seq<char>>((StmtV::Assign(name, ty, e), x + 1)),
{
    lemma_ended(ts, x, StmtV::Assign(name, ty, e));
}

proof fn lemma_assign(ts: Seq<SpannedV>, p: int, name: Seq<char>, ty: Type, e: ExprV)
    requires
        wf_type(ty),
        writable(e),
        stand_at(ts, p, spell_stmt(StmtV::Assign(name, ty, e))),
    ensures
        reads(ts, p, StmtV::Assign(name, ty, e), p + spell_stmt(StmtV::Assign(name, ty, e)).len()),
        0 <= p < ts.len(),
        kind_at(ts, p) == Kind::Ref,
        kind_at(ts, p + 2) == Kind::Var,
{
    let end = seq![tk(Kind::Semicolon)];
    let r2 = seq![tk(Kind::Eq)] + (spell(e) + end);
    lemma_two(ts, p, ref_words(name, ty), r2);
    lemma_ref(ts, p, name, ty);
    let q = p + ref_words(name, ty).len();
    peel(ts, q, tk(Kind::Eq), spell(e) + end);
    assert(end =~= seq![tk(Kind::Semicolon)] + Seq::<TokenV>::empty());
    let x = q + 1 + spell(e).len();
    assert(value_at(ts, q + 1, ty) == Ok::<(ExprV, int), Seq<char>>((e, x)) && kind_at(ts, x) == Kind::Semicolon) by {
        lemma_expr_then(ts, q + 1, e, tk(Kind::Semicolon), Seq::empty());
        lemma_value(ts, q + 1, e, ty);
    }
    lemma_assign_parts(ts, p, name, ty, e, q, x);
    assert(x + 1 == p + spell_stmt(StmtV::Assign(name, ty, e)).len());
    lemma_reads_ref(ts, p, StmtV::Assign(name, ty, e), x + 1);
}

proof fn lemma_element_parts(
    ts: Seq<SpannedV>,
    p: int,
    name: Seq<char>,
    ty: Type,
    index: ExprV,
    value: ExprV,
    q: int,
    r: int,
    x: int,
)
    requires
        0 <= q,
        ref_var_at(ts, p) == Ok::<((Seq<char>, Type), int), Seq<char>>(((name, ty), q)),
        kind_at(ts, q) == Kind::Star,
        expr_at(ts, q + 1) == Ok::<(ExprV, int), Seq<char>>((index, r)),
        kind_at(ts, r) == Kind::Star,
        q + 1 < r < ts.len(),
        kind_at(ts, r + 1) == Kind::Eq,
        value_at(ts, r + 2, stored_type(ty)) == Ok::<(ExprV, int), Seq<char>>((value, x)),
        kind_at(ts, x) == Kind::Semicolon,
    ensures
        ref_stmt_at(ts, p) == Ok::<(StmtV, int), Seq<char>>((StmtV::ArrayIndexAssign(name, ty, index, value), x + 1)),
{
    lemma_expect(ts, q, Kind::Star);
    lemma_expect(ts, r, Kind::Star);
    assert(index_at(ts, q) == Ok::<(ExprV, int), Seq<char>>((index, r + 1)));
    lemma_expect(ts, r + 1, Kind::Eq);
    lemma_ended(ts, x, StmtV::ArrayIndexAssign(name, ty, index, value));
}

proof fn lemma_element_assign(ts: Seq<SpannedV>, p: int, name: Seq<char>, ty: Type, index: ExprV, value: ExprV)
    requires
        wf_type(ty),
        writable(index),
        writable(value),
        stand_at(ts, p, spell_stmt(StmtV::ArrayIndexAssign(name, ty, index, value))),
    ensures
        reads(ts, p, StmtV::ArrayIndexAssign(name, ty, index, value), p + spell_stmt(StmtV::ArrayIndexAssign(name, ty, index, value)).len()),
        0 <= p < ts.len(),
        kind_at(ts, p) == Kind::Ref,
        kind_at(ts, p + 2) == Kind::Var,
{
    let end = seq![tk(Kind::Semicolon)];
    let r5 = spell(value) + end;
    let r4 = seq![tk(Kind::Eq)] + r5;
    let r3 = spell(index) + (seq![tk(Kind::Star)] + r4);
    let r2 = seq![tk(Kind::Star)] + r3;
    lemma_two(ts, p, ref_words(name, ty), r2);
    lemma_ref(ts, p, name, ty);
    let q = p + ref_words(name, ty).len();
    peel(ts, q, tk(Kind::Star), r3);
    let r = q + 1 + spell(index).len();
    assert(expr_at(ts, q + 1) == Ok::<(ExprV, int), Seq<char>>((index, r)) && kind_at(ts, r) == Kind::Star && q + 1 < r
        < ts.len() && 0 <= q && stand_at(ts, r + 1, r4)) by {
        lemma_expr_then(ts, q + 1, index, tk(Kind::Star), r4);
    }
    peel(ts, r + 1, tk(Kind::Eq), r5);
    assert(end =~= seq![tk(Kind::Semicolon)] + Seq::<TokenV>::empty());
    let x = r + 2 + spell(value).len();
    assert(value_at(ts, r + 2, stored_type(ty)) == Ok::<(ExprV, int), Seq<char>>((value, x)) && kind_at(ts, x)
        == Kind::Semicolon) by {
        lemma_expr_then(ts, r + 2, value, tk(Kind::Semicolon), Seq::empty());
        lemma_value(ts, r + 2, value, stored_type(ty));
    }
    lemma_element_parts(ts, p, name, ty, index, value, q, r, x);
    assert(x + 1 == p + spell_stmt(StmtV::ArrayIndexAssign(name, ty, index, value)).len());
    lemma_reads_ref(ts, p, StmtV::ArrayIndexAssign(name, ty, index, value), x + 1);
}

proof fn lemma_append_parts(ts: Seq<SpannedV>, p: int, array: ExprV, value: ExprV, q: int, x: int)
    requires
        kind_at(ts, p + 1) == Kind::Star,
        expr_at(ts, p + 2) == Ok::<(ExprV, int), Seq<char>>((array, q)),
        kind_at(ts, q) == Kind::Comma,
        expr_at(ts, q + 1) == Ok::<(ExprV, int), Seq<char>>((value, x)),
        kind_at(ts, x) == Kind::Star,
        kind_at(ts, x + 1) == Kind::Semicolon,
    ensures
        append_at(ts, p + 1) == Ok::<(StmtV, int), Seq<char>>((StmtV::Append(array, value), x + 2)),
{
    lemma_expect(ts, p + 1, Kind::Star);
    lemma_expect(ts, q, Kind::Comma);
    lemma_expect(ts, x, Kind::Star);
    lemma_ended(ts, x + 1, StmtV::Append(array, value));
}

proof fn lemma_append(ts: Seq<SpannedV>, p: int, array: ExprV, value: ExprV)
    requires
        writable(array),
        writable(value),
        stand_at(ts, p, spell_stmt(StmtV::Append(array, value))),
    ensures
        reads(ts, p, StmtV::Append(array, value), p + spell_stmt(StmtV::Append(array, value)).len()),
        0 <= p < ts.len(),
        kind_at(ts, p) == Kind::Append,
{
    let end = seq![tk(Kind::Semicolon)];
    let r4 = spell(value) + (seq![tk(Kind::Star)] + end);
    let r3 = spell(array) + (seq![tk(Kind::Comma)] + r4);
    peel(ts, p, tk(Kind::Append), seq![tk(Kind::Star)] + r3);
    peel(ts, p + 1, tk(Kind::Star), r3);
    let q = p + 2 + spell(array).len();
    let x = q + 1 + spell(value).len();
    assert(expr_at(ts, p + 2) == Ok::<(ExprV, int), Seq<char>>((array, q)) && kind_at(ts, q) == Kind::Comma && stand_at(
        ts,
        q + 1,
        r4,
    )) by {
        lemma_expr_then(ts, p + 2, array, tk(Kind::Comma), r4);
    }
    assert(expr_at(ts, q + 1) == Ok::<(ExprV, int), Seq<char>>((value, x)) && kind_at(ts, x) == Kind::Star && stand_at(
        ts,
        x + 1,
        end,
    )) by {
        lemma_expr_then(ts, q + 1, value, tk(Kind::Star), end);
    }
    peel_last(ts, x + 1, tk(Kind::Semicolon));
    lemma_append_parts(ts, p, array, value, q, x);
    assert(x + 2 == p + spell_stmt(StmtV::Append(array, value)).len());
    lemma_reads_append(ts, p, StmtV::Append(array, value), x + 2);
}

proof fn lemma_return(ts: Seq<SpannedV>, p: int, e: Option<ExprV>)
    requires
        writable_opt(e),
        stand_at(ts, p, spell_stmt(StmtV::Return(e))),
    ensures
        reads(ts, p, StmtV::Return(e), p + spell_stmt(StmtV::Return(e)).len()),
        0 <= p < ts.len(),
        kind_at(ts, p) == Kind::Return,
{
    let end = seq![tk(Kind::Semicolon)];
    match e {
        None => {
            peel(ts, p, tk(Kind::Return), end);
            peel_last(ts, p + 1, tk(Kind::Semicolon));
        },
        Some(x) => {
            peel(ts, p, tk(Kind::Return), spell(x) + end);
            assert(end =~= seq![tk(Kind::Semicolon)] + Seq::<TokenV>::empty());
            lemma_expr_then(ts, p + 1, x, tk(Kind::Semicolon), Seq::empty());
        },
    }
    lemma_reads_return(ts, p, StmtV::Return(e), p + spell_stmt(StmtV::Return(e)).len());
}

proof fn lemma_print_parts(ts: Seq<SpannedV>, p: int, ss: Seq<SegmentV>, dest: Option<ExprV>, q: int, x: int)
    requires
        bracketed_segments_at(ts, p + 1) == Ok::<(Seq<SegmentV>, int), Seq<char>>((ss, q)),
        optional_clause_at(ts, q, "to"@) == Ok::<(Option<ExprV>, int), Seq<char>>((dest, x)),
        kind_at(ts, x) == Kind::Semicolon,
    ensures
        print_at(ts, p + 1) == Ok::<(StmtV, int), Seq<char>>((StmtV::Print(ss, dest), x + 1)),
{
    lemma_ended(ts, x, StmtV::Print(ss, dest));
}

proof fn lemma_print_stmt(ts: Seq<SpannedV>, p: int, ss: Seq<SegmentV>, dest: Option<ExprV>)
    requires
        writable_segments(ss),
        writable_opt(dest),
        stand_at(ts, p, spell_stmt(StmtV::Print(ss, dest))),
    ensures
        reads(ts, p, StmtV::Print(ss, dest), p + spell_stmt(StmtV::Print(ss, dest)).len()),
        0 <= p < ts.len(),
        kind_at(ts, p) == Kind::Print,
{
    let end = seq![tk(Kind::Semicolon)];
    let r3 = optional_words("to"@, dest) + end;
    peel(ts, p, tk(Kind::Print), print_words(ss) + r3);
    lemma_two(ts, p + 1, print_words(ss), r3);
    let q = p + 1 + print_words(ss).len();
    lemma_print(ts, p + 1, ss);
    lemma_two(ts, q, optional_words("to"@, dest), end);
    peel_last(ts, q + optional_words("to"@, dest).len(), tk(Kind::Semicolon));
    let x = q + optional_words("to"@, dest).len();
    lemma_optional(ts, q, "to"@, dest);
    lemma_print_parts(ts, p, ss, dest, q, x);
    assert(x + 1 == p + spell_stmt(StmtV::Print(ss, dest)).len());
    lemma_reads_print(ts, p, StmtV::Print(ss, dest), x + 1);
}

proof fn lemma_overwrite_parts(ts: Seq<SpannedV>, p: int, ss: Seq<SegmentV>, dest: ExprV, q: int, x: int)
    requires
        bracketed_segments_at(ts, p + 1) == Ok::<(Seq<SegmentV>, int), Seq<char>>((ss, q)),
        clause_at(ts, q, "to"@) == Ok::<(ExprV, int), Seq<char>>((dest, x)),
        kind_at(ts, x) == Kind::Semicolon,
    ensures
        overwrite_at(ts, p + 1) == Ok::<(StmtV, int), Seq<char>>((StmtV::Overwrite(ss, dest), x + 1)),
{
    lemma_ended(ts, x, StmtV::Overwrite(ss, dest));
}

proof fn lemma_overwrite(ts: Seq<SpannedV>, p: int, ss: Seq<SegmentV>, dest: ExprV)
    requires
        writable_segments(ss),
        writable(dest),
        stand_at(ts, p, spell_stmt(StmtV::Overwrite(ss, dest))),
    ensures
        reads(ts, p, StmtV::Overwrite(ss, dest), p + spell_stmt(StmtV::Overwrite(ss, dest)).len()),
        0 <= p < ts.len(),
        kind_at(ts, p) == Kind::Overwrite,
{
    let end = seq![tk(Kind::Semicolon)];
    let r3 = clause_words("to"@, dest) + end;
    peel(ts, p, tk(Kind::Overwrite), print_words(ss) + r3);
    lemma_two(ts, p + 1, print_words(ss), r3);
    let q = p + 1 + print_words(ss).len();
    lemma_print(ts, p + 1, ss);
    lemma_two(ts, q, clause_words("to"@, dest), end);
    peel_last(ts, q + clause_words("to"@, dest).len(), tk(Kind::Semicolon));
    let x = q + clause_words("to"@, dest).len();
    lemma_clause(ts, q, "to"@, dest);
    lemma_overwrite_parts(ts, p, ss, dest, q, x);
    assert(x + 1 == p + spell_stmt(StmtV::Overwrite(ss, dest)).len());
    lemma_reads_overwrite(ts, p, StmtV::Overwrite(ss, dest), x + 1);
}

proof fn lemma_read_parts(ts: Seq<SpannedV>, p: int, e: ExprV, x: int)
    requires
        kind_at(ts, p + 1) == Kind::Star,
        expr_at(ts, p + 2) == Ok::<(ExprV, int), Seq<char>>((e, x)),
        kind_at(ts, x) == Kind::Star,
        kind_at(ts, x + 1) == Kind::Semicolon,
    ensures
        read_at(ts, p + 1) == Ok::<(StmtV, int), Seq<char>>((StmtV::Read(e), x + 2)),
{
    lemma_expect(ts, p + 1, Kind::Star);
    lemma_expect(ts, x, Kind::Star);
    lemma_ended(ts, x + 1, StmtV::Read(e));
}

proof fn lemma_read(ts: Seq<SpannedV>, p: int, e: ExprV)
    requires
        writable(e),
        stand_at(ts, p, spell_stmt(StmtV::Read(e))),
    ensures
        reads(ts, p, StmtV::Read(e), p + spell_stmt(StmtV::Read(e)).len()),
        0 <= p < ts.len(),
        kind_at(ts, p) == Kind::Read,
{
    let end = seq![tk(Kind::Semicolon)];
    let r3 = spell(e) + (seq![tk(Kind::Star)] + end);
    peel(ts, p, tk(Kind::Read), seq![tk(Kind::Star)] + r3);
    peel(ts, p + 1, tk(Kind::Star), r3);
    let x = p + 2 + spell(e).len();
    assert(expr_at(ts, p + 2) == Ok::<(ExprV, int), Seq<char>>((e, x)) && kind_at(ts, x) == Kind::Star && stand_at(
        ts,
        x + 1,
        end,
    )) by {
        lemma_expr_then(ts, p + 2, e, tk(Kind::Star), end);
    }
    peel_last(ts, x + 1, tk(Kind::Semicolon));
    lemma_read_parts(ts, p, e, x);
    assert(x + 2 == p + spell_stmt(StmtV::Read(e)).len());
    lemma_reads_read(ts, p, StmtV::Read(e), x + 2);
}

proof fn lemma_var_stmt(ts: Seq<SpannedV>, p: int, name: Seq<char>, ty: Type)
    requires
        wf_type(ty),
        stand_at(ts, p, spell_stmt(StmtV::ExprStmt(ExprV::Var(name, ty)))),
    ensures
        reads(ts, p, StmtV::ExprStmt(ExprV::Var(name, ty)), p + spell_stmt(StmtV::ExprStmt(ExprV::Var(name, ty))).len()),
        0 <= p < ts.len(),
        kind_at(ts, p) == Kind::Ref,
        kind_at(ts, p + 2) == Kind::Var,
{
    let end = seq![tk(Kind::Semicolon)];
    lemma_two(ts, p, ref_words(name, ty), end);
    lemma_ref(ts, p, name, ty);
    peel_last(ts, p + ref_words(name, ty).len(), tk(Kind::Semicolon));
    lemma_reads_ref(ts, p, StmtV::ExprStmt(ExprV::Var(name, ty)), p + spell_stmt(StmtV::ExprStmt(ExprV::Var(name, ty))).len());
}

proof fn lemma_call_stmt(ts: Seq<SpannedV>, p: int, name: Seq<char>, args: Seq<ExprV>)
    requires
        writable(ExprV::Call(name, args)),
        stand_at(ts, p, spell_stmt(StmtV::ExprStmt(ExprV::Call(name, args)))),
    ensures
        reads(
            ts,
            p,
            StmtV::ExprStmt(ExprV::Call(name, args)),
            p + spell_stmt(StmtV::ExprStmt(ExprV::Call(name, args))).len(),
        ),
        0 <= p < ts.len(),
        kind_at(ts, p) == Kind::Activate,
{
    let e = ExprV::Call(name, args);
    let end = seq![tk(Kind::Semicolon)];
    lemma_two(ts, p, spell(e), end);
    lemma_bounds(ts, p, spell(e));
    lemma_spell_nonempty(e);
    lemma_call_words(ts, p, name, args);
    peel_last(ts, p + spell(e).len(), tk(Kind::Semicolon));
    lemma_reads_call(ts, p, e, p + spell(e).len());
}

proof fn lemma_simple_stmt(ts: Seq<SpannedV>, p: int, s: StmtV)
    requires
        writable_stmt(s),
        stand_at(ts, p, spell_stmt(s)),
        !(s is If),
        !(s is While),
    ensures
        reads(ts, p, s, p + spell_stmt(s).len()),
        0 <= p < ts.len(),
        kind_at(ts, p) != Kind::RBrace,
        kind_at(ts, p) != Kind::End,
        kind_at(ts, p) != Kind::Else,
{
    match s {
        StmtV::VarDecl(name, ty, e) => lemma_var_decl(ts, p, name, ty, e),
        StmtV::Input(name, ty, source) => lemma_input(ts, p, name, ty, source),
        StmtV::Clock(name, ty) => lemma_clock(ts, p, name, ty),
        StmtV::Assign(name, ty, e) => lemma_assign(ts, p, name, ty, e),
        StmtV::ArrayIndexAssign(name, ty, index, value) => lemma_element_assign(ts, p, name, ty, index, value),
        StmtV::Append(array, value) => lemma_append(ts, p, array, value),
        StmtV::Return(e) => lemma_return(ts, p, e),
        StmtV::Print(ss, dest) => lemma_print_stmt(ts, p, ss, dest),
        StmtV::Overwrite(ss, dest) => lemma_overwrite(ts, p, ss, dest),
        StmtV::Read(e) => lemma_read(ts, p, e),
        StmtV::ExprStmt(ExprV::Var(name, ty)) => {
            reveal(writable);
            lemma_var_stmt(ts, p, name, ty);
        },
        StmtV::ExprStmt(ExprV::Call(name, args)) => lemma_call_stmt(ts, p, name, args),
        _ => {},
    }
}

/// An `if` is read back, once its condition and its blocks are.
proof fn lemma_if(
    ts: Seq<SpannedV>,
    p: int,
    cond: ExprV,
    then_block: Seq<StmtV>,
    else_block: Option<Seq<StmtV>>,
    q: int,
    r: int,
    x: int,
)
    requires
        0 <= p < ts.len(),
        kind_at(ts, p) == Kind::If,
        expr_at(ts, p + 1) == Ok::<(ExprV, int), Seq<char>>((cond, q)),
        p < q <= r <= ts.len(),
        block_at(ts, q) == Ok::<(Seq<StmtV>, int), Seq<char>>((then_block, r)),
        match else_block {
            None => kind_at(ts, r) != Kind::Else && x == r,
            Some(b) => {
                &&& r < ts.len()
                &&& kind_at(ts, r) == Kind::Else
                &&& block_at(ts, r + 1) == Ok::<(Seq<StmtV>, int), Seq<char>>((b, x))
            },
        },
    ensures
        reads(ts, p, StmtV::If(cond, then_block, else_block), x),
{
    reveal(reads);
    assert(!starts_call(ts, p));
    assert(ahead(ts, p, q));
    assert(ahead(ts, p, r));
}

/// A `while` is read back, once its condition and its block are.
proof fn lemma_while(ts: Seq<SpannedV>, p: int, cond: ExprV, body: Seq<StmtV>)
    requires
        0 <= p < ts.len(),
        kind_at(ts, p) == Kind::While,
        ({
            let q = p + 1 + spell(cond).len();
            let r = q + spell_block(body).len();
            &&& expr_at(ts, p + 1) == Ok::<(ExprV, int), Seq<char>>((cond, q))
            &&& q <= r <= ts.len()
            &&& block_at(ts, q) == Ok::<(Seq<StmtV>, int), Seq<char>>((body, r))
        }),
    ensures
        reads(ts, p, StmtV::While(cond, body), p + spell_stmt(StmtV::While(cond, body)).len()),
{
    reveal(reads);
}

#[verifier::rlimit(40)]
proof fn lemma_stmt(ts: Seq<SpannedV>, p: int, s: StmtV)
    requires
        writable_stmt(s),
        stand_at(ts, p, spell_stmt(s)),
        kind_at(ts, p + spell_stmt(s).len()) != Kind::Else,
    ensures
        reads(ts, p, s, p + spell_stmt(s).len()),
        0 <= p < ts.len(),
        kind_at(ts, p) != Kind::RBrace,
        kind_at(ts, p) != Kind::End,
        kind_at(ts, p) != Kind::Else,
    decreases s, 0nat, 0nat,
{
    match s {
        StmtV::If(cond, then_block, else_block) => {
            let rest = match else_block {
                None => spell_block(then_block),
                Some(b) => spell_block(then_block) + (seq![tk(Kind::Else)] + spell_block(b)),
            };
            peel(ts, p, tk(Kind::If), spell(cond) + rest);
            lemma_two(ts, p + 1, spell(cond), rest);
            let q = p + 1 + spell(cond).len();
            if let Some(b) = else_block {
                lemma_two(ts, q, spell_block(then_block), seq![tk(Kind::Else)] + spell_block(b));
                let r = q + spell_block(then_block).len();
                peel(ts, r, tk(Kind::Else), spell_block(b));
                blocks_are_read_back(ts, r + 1, b);
            }
            blocks_are_read_back(ts, q, then_block);
            lemma_expr(ts, p + 1, cond, Kind::LBrace, rest);
            let r = q + spell_block(then_block).len();
            let x = match else_block {
                None => r,
                Some(b) => r + 1 + spell_block(b).len(),
            };
            lemma_if(ts, p, cond, then_block, else_block, q, r, x);
            assert(x == p + spell_stmt(s).len());
        },
        StmtV::While(cond, body) => {
            peel(ts, p, tk(Kind::While), spell(cond) + spell_block(body));
            lemma_two(ts, p + 1, spell(cond), spell_block(body));
            blocks_are_read_back(ts, p + 1 + spell(cond).len(), body);
            lemma_expr(ts, p + 1, cond, Kind::LBrace, spell_block(body));
            lemma_while(ts, p, cond, body);
        },
        _ => lemma_simple_stmt(ts, p, s),
    }
}

/// A statement that is written down is read back as it was.
pub proof fn statements_are_read_back(ts: Seq<SpannedV>, p: int, s: StmtV)
    requires
        writable_stmt(s),
        stand_at(ts, p, spell_stmt(s)),
        kind_at(ts, p + spell_stmt(s).len()) != Kind::Else,
    ensures
        stmt_at(ts, p) == Ok::<(StmtV, int), Seq<char>>((s, p + spell_stmt(s).len())),
{
    lemma_stmt(ts, p, s);
    reveal(reads);
}

proof fn lemma_block_parts(ts: Seq<SpannedV>, p: int, b: Seq<StmtV>, q: int)
    requires
        0 <= p < q < ts.len(),
        kind_at(ts, p) == Kind::LBrace,
        stmts_at(ts, p + 1, Kind::RBrace, Seq::empty()) == Ok::<(Seq<StmtV>, int), Seq<char>>((b, q)),
        kind_at(ts, q) == Kind::RBrace,
    ensures
        block_at(ts, p) == Ok::<(Seq<StmtV>, int), Seq<char>>((b, q + 1)),
{
    lemma_expect(ts, p, Kind::LBrace);
    lemma_expect(ts, q, Kind::RBrace);
}

/// A block that is written down is read back as it was.
pub proof fn blocks_are_read_back(ts: Seq<SpannedV>, p: int, b: Seq<StmtV>)
    requires
        writable_block(b),
        stand_at(ts, p, spell_block(b)),
    ensures
        kind_at(ts, p) == Kind::LBrace,
        block_at(ts, p) == Ok::<(Seq<StmtV>, int), Seq<char>>((b, p + spell_block(b).len())),
        p < p + spell_block(b).len() <= ts.len(),
    decreases b, b.len() + 1, 1nat,
{
    lemma_bounds(ts, p, spell_block(b));
    let n = spell_stmts(b, 0);
    peel(ts, p, tk(Kind::LBrace), n + seq![tk(Kind::RBrace)]);
    lemma_two(ts, p + 1, n, seq![tk(Kind::RBrace)]);
    peel_last(ts, p + 1 + n.len(), tk(Kind::RBrace));
    lemma_stmts(ts, p + 1, b, 0, Kind::RBrace);
    assert(b.take(0) =~= Seq::empty());
    lemma_block_parts(ts, p, b, p + 1 + n.len());
}

proof fn lemma_stmts(ts: Seq<SpannedV>, p: int, b: Seq<StmtV>, i: nat, close: Kind)
    requires
        writable_block(b),
        i <= b.len(),
        stand_at(ts, p, spell_stmts(b, i)),
        close == Kind::RBrace || close == Kind::End,
        kind_at(ts, p + spell_stmts(b, i).len()) == close,
    ensures
        stmts_at(ts, p, close, b.take(i as int)) == Ok::<(Seq<StmtV>, int), Seq<char>>(
            (b, p + spell_stmts(b, i).len()),
        ),
        kind_at(ts, p) != Kind::Else,
    decreases b, b.len() - i, 0nat,
{
    if i == b.len() {
        assert(b.take(i as int) =~= b);
    } else {
        let s = b[i as int];
        let rest = spell_stmts(b, i + 1);
        assert(writable_stmt(s));
        assert(b.take(i as int).push(s) =~= b.take((i + 1) as int));
        lemma_two(ts, p, spell_stmt(s), rest);
        let q = p + spell_stmt(s).len();
        assert(q + rest.len() == p + spell_stmts(b, i).len());
        lemma_stmts(ts, q, b, i + 1, close);
        lemma_stmt(ts, p, s);
        lemma_bounds(ts, p, spell_stmt(s));
        reveal(reads);
        assert(stmts_at(ts, p, close, b.take(i as int)) == stmts_at(ts, q, close, b.take(i as int).push(s)));
    }
}

// ---------------------------------------------------------------------------
// Programs
// ---------------------------------------------------------------------------

/// The parameters from number `i` on.
pub open spec fn param_words(ps: Seq<ParamV>, i: nat) -> Seq<TokenV>
    decreases ps.len() - i,
{
    if i >= ps.len() {
        Seq::empty()
    } else {
        let one = seq![named(ps[i as int].name)] + (seq![tk(Kind::Colon)] + full_type_words(ps[i as int].ty));
        if i + 1 == ps.len() {
            one
        } else {
            one + (seq![tk(Kind::Comma)] + param_words(ps, i + 1))
        }
    }
}

/// `-> TYPE`, or nothing.
pub open spec fn return_words(ty: Type) -> Seq<TokenV> {
    if ty is Void {
        Seq::empty()
    } else {
        seq![tk(Kind::Arrow)] + full_type_words(ty)
    }
}

/// A function, written down.
pub open spec fn spell_function(f: FunctionV) -> Seq<TokenV> {
    seq![tk(Kind::Func)] + (seq![named(f.name)] + (seq![tk(Kind::Star)] + (param_words(f.params, 0) + (seq![
        tk(Kind::Star),
    ] + (return_words(f.return_type) + spell_block(f.body))))))
}

/// Whether a function can be written down.
pub open spec fn writable_function(f: FunctionV) -> bool {
    &&& forall|i: int| 0 <= i < f.params.len() ==> wf_type((#[trigger] f.params[i]).ty)
    &&& f.return_type is Void || wf_type(f.return_type)
    &&& writable_block(f.body)
}

proof fn lemma_params(ts: Seq<SpannedV>, p: int, ps: Seq<ParamV>, i: nat)
    requires
        forall|i: int| 0 <= i < ps.len() ==> wf_type((#[trigger] ps[i]).ty),
        i < ps.len(),
        stand_at(ts, p, param_words(ps, i)),
        kind_at(ts, p + param_words(ps, i).len()) == Kind::Star,
    ensures
        params_at(ts, p, ps.take(i as int)) == Ok::<(Seq<ParamV>, int), Seq<char>>((ps, p + param_words(ps, i).len())),
        kind_at(ts, p) == Kind::Quoted,
    decreases ps.len() - i,
{
    let x = ps[i as int];
    assert(wf_type(x.ty));
    let one = seq![named(x.name)] + (seq![tk(Kind::Colon)] + full_type_words(x.ty));
    lemma_bounds(ts, p, param_words(ps, i));
    assert(ps.take(i as int).push(x) =~= ps.take((i + 1) as int));
    let q = p + one.len();
    if i + 1 == ps.len() {
        peel(ts, p, named(x.name), seq![tk(Kind::Colon)] + full_type_words(x.ty));
        peel(ts, p + 1, tk(Kind::Colon), full_type_words(x.ty));
        lemma_full_type(ts, p + 2, x.ty);
        assert(ps.take((i + 1) as int) =~= ps);
    } else {
        let rest = param_words(ps, i + 1);
        lemma_two(ts, p, one, seq![tk(Kind::Comma)] + rest);
        peel(ts, q, tk(Kind::Comma), rest);
        peel(ts, p, named(x.name), seq![tk(Kind::Colon)] + full_type_words(x.ty));
        peel(ts, p + 1, tk(Kind::Colon), full_type_words(x.ty));
        lemma_full_type(ts, p + 2, x.ty);
        assert(q + 1 + rest.len() == p + param_words(ps, i).len());
        lemma_params(ts, q + 1, ps, i + 1);
        assert(params_at(ts, p, ps.take(i as int)) == params_at(ts, q + 1, ps.take(i as int).push(x)));
    }
}

proof fn lemma_param_list(ts: Seq<SpannedV>, p: int, ps: Seq<ParamV>)
    requires
        forall|i: int| 0 <= i < ps.len() ==> wf_type((#[trigger] ps[i]).ty),
        stand_at(ts, p, param_words(ps, 0)),
        kind_at(ts, p + param_words(ps, 0).len()) == Kind::Star,
    ensures
        param_list_at(ts, p) == Ok::<(Seq<ParamV>, int), Seq<char>>((ps, p + param_words(ps, 0).len() + 1)),
{
    if ps.len() > 0 {
        lemma_params(ts, p, ps, 0);
        assert(ps.take(0) =~= Seq::empty());
        lemma_expect(ts, p + param_words(ps, 0).len(), Kind::Star);
    } else {
        assert(ps =~= Seq::empty());
    }
}

proof fn lemma_function_parts(ts: Seq<SpannedV>, p: int, f: FunctionV, q: int, r: int, x: int)
    requires
        kind_at(ts, p) == Kind::Func,
        quoted_at(ts, p + 1) == Ok::<(Seq<char>, int), Seq<char>>((f.name, p + 2)),
        kind_at(ts, p + 2) == Kind::Star,
        param_list_at(ts, p + 3) == Ok::<(Seq<ParamV>, int), Seq<char>>((f.params, q)),
        return_type_at(ts, q) == Ok::<(Type, int), Seq<char>>((f.return_type, r)),
        block_at(ts, r) == Ok::<(Seq<StmtV>, int), Seq<char>>((f.body, x)),
    ensures
        function_at(ts, p) == Ok::<(FunctionV, int), Seq<char>>((f, x)),
{
    reveal(function_at);
    lemma_expect(ts, p, Kind::Func);
    lemma_expect(ts, p + 2, Kind::Star);
}

proof fn lemma_return_type(ts: Seq<SpannedV>, p: int, ty: Type)
    requires
        ty is Void || wf_type(ty),
        stand_at(ts, p, return_words(ty)),
        kind_at(ts, p + return_words(ty).len()) == Kind::LBrace,
    ensures
        return_type_at(ts, p) == Ok::<(Type, int), Seq<char>>((ty, p + return_words(ty).len())),
{
    if !(ty is Void) {
        peel(ts, p, tk(Kind::Arrow), full_type_words(ty));
        lemma_full_type(ts, p + 1, ty);
    }
}

/// A function that is written down is read back as it was.
pub proof fn functions_are_read_back(ts: Seq<SpannedV>, p: int, f: FunctionV)
    requires
        writable_function(f),
        stand_at(ts, p, spell_function(f)),
    ensures
        kind_at(ts, p) == Kind::Func,
        function_at(ts, p) == Ok::<(FunctionV, int), Seq<char>>((f, p + spell_function(f).len())),
        p < p + spell_function(f).len() <= ts.len(),
{
    lemma_bounds(ts, p, spell_function(f));
    let ps = param_words(f.params, 0);
    let r5 = return_words(f.return_type) + spell_block(f.body);
    let r4 = seq![tk(Kind::Star)] + r5;
    let r3 = ps + r4;
    let r2 = seq![tk(Kind::Star)] + r3;
    peel(ts, p, tk(Kind::Func), seq![named(f.name)] + r2);
    peel(ts, p + 1, named(f.name), r2);
    peel(ts, p + 2, tk(Kind::Star), r3);
    lemma_two(ts, p + 3, ps, r4);
    let q = p + 3 + ps.len();
    peel(ts, q, tk(Kind::Star), r5);
    lemma_param_list(ts, p + 3, f.params);
    lemma_two(ts, q + 1, return_words(f.return_type), spell_block(f.body));
    let r = q + 1 + return_words(f.return_type).len();
    blocks_are_read_back(ts, r, f.body);
    lemma_return_type(ts, q + 1, f.return_type);
    assert(r + spell_block(f.body).len() == p + spell_function(f).len());
    lemma_function_parts(ts, p, f, q + 1, r, r + spell_block(f.body).len());
}

/// `linkto*("path")*;`, or nothing.
pub open spec fn link_words(link: Option<Seq<char>>) -> Seq<TokenV> {
    match link {
        None => Seq::empty(),
        Some(path) => seq![tk(Kind::LinkTo)] + (seq![tk(Kind::Star)] + (seq![tk(Kind::LParen)] + (seq![
            TokenV { kind: Kind::Str, text: path },
        ] + (seq![tk(Kind::RParen)] + (seq![tk(Kind::Star)] + seq![tk(Kind::Semicolon)]))))),
    }
}

/// The functions from number `i` on.
pub open spec fn spell_functions(fs: Seq<FunctionV>, i: nat) -> Seq<TokenV>
    decreases fs.len() - i,
{
    if i >= fs.len() {
        Seq::empty()
    } else {
        spell_function(fs[i as int]) + spell_functions(fs, i + 1)
    }
}

/// `START statements END`.
pub open spec fn entry_words(b: Seq<StmtV>) -> Seq<TokenV> {
    seq![tk(Kind::Start)] + (spell_stmts(b, 0) + seq![tk(Kind::End)])
}

/// A program, written down: its link, its functions and its entry block.
pub open spec fn spell_program(p: ProgramV) -> Seq<TokenV> {
    link_words(p.link_to) + (spell_functions(p.functions, 0) + (entry_words(p.entry) + seq![tk(Kind::Eof)]))
}

/// Whether a program can be written down.
pub open spec fn writable_program(p: ProgramV) -> bool {
    &&& forall|i: int| 0 <= i < p.functions.len() ==> writable_function(#[trigger] p.functions[i])
    &&& writable_block(p.entry)
}

proof fn lemma_entry(ts: Seq<SpannedV>, p: int, fs: Seq<FunctionV>, b: Seq<StmtV>, link: Option<Seq<char>>)
    requires
        writable_block(b),
        stand_at(ts, p, entry_words(b) + seq![tk(Kind::Eof)]),
    ensures
        program_from(ts, p, fs, None, link) == Ok::<ProgramV, Seq<char>>(
            ProgramV { functions: fs, entry: b, link_to: link },
        ),
{
    reveal(entry_at);
    lemma_two(ts, p, entry_words(b), seq![tk(Kind::Eof)]);
    lemma_bounds(ts, p, entry_words(b));
    let n = spell_stmts(b, 0);
    let q = p + entry_words(b).len();
    peel_last(ts, q, tk(Kind::Eof));
    peel(ts, p, tk(Kind::Start), n + seq![tk(Kind::End)]);
    lemma_two(ts, p + 1, n, seq![tk(Kind::End)]);
    peel_last(ts, p + 1 + n.len(), tk(Kind::End));
    lemma_stmts(ts, p + 1, b, 0, Kind::End);
    assert(b.take(0) =~= Seq::empty());
    assert(entry_at(ts, p) == Ok::<(Seq<StmtV>, int), Seq<char>>((b, q)));
    assert(program_from(ts, q, fs, Some(b), link) == Ok::<ProgramV, Seq<char>>(
        ProgramV { functions: fs, entry: b, link_to: link },
    ));
}

proof fn lemma_functions(ts: Seq<SpannedV>, p: int, x: ProgramV, i: nat)
    requires
        writable_program(x),
        i <= x.functions.len(),
        stand_at(ts, p, spell_functions(x.functions, i) + (entry_words(x.entry) + seq![tk(Kind::Eof)])),
    ensures
        program_from(ts, p, x.functions.take(i as int), None, x.link_to) == Ok::<ProgramV, Seq<char>>(x),
    decreases x.functions.len() - i,
{
    let fs = x.functions;
    let last = entry_words(x.entry) + seq![tk(Kind::Eof)];
    lemma_two(ts, p, spell_functions(fs, i), last);
    if i == fs.len() {
        assert(fs.take(i as int) =~= fs);
        lemma_entry(ts, p, fs, x.entry, x.link_to);
    } else {
        let f = fs[i as int];
        assert(writable_function(f));
        assert(fs.take(i as int).push(f) =~= fs.take((i + 1) as int));
        lemma_two(ts, p, spell_function(f), spell_functions(fs, i + 1));
        functions_are_read_back(ts, p, f);
        let q = p + spell_function(f).len();
        assert(spell_functions(fs, i) + last =~= spell_function(f) + (spell_functions(fs, i + 1) + last));
        lemma_two(ts, p, spell_function(f), spell_functions(fs, i + 1) + last);
        lemma_functions(ts, q, x, i + 1);
        assert(program_from(ts, p, fs.take(i as int), None, x.link_to) == program_from(
            ts,
            q,
            fs.take(i as int).push(f),
            None,
            x.link_to,
        ));
    }
}

/// A program that is written down is read back as it was, on whatever lines its tokens stand.
pub proof fn programs_are_read_back(ts: Seq<SpannedV>, x: ProgramV)
    requires
        writable_program(x),
        ts.len() == spell_program(x).len(),
        stand_at(ts, 0, spell_program(x)),
    ensures
        program_of(ts) == Ok::<ProgramV, Seq<char>>(x),
{
    let rest = spell_functions(x.functions, 0) + (entry_words(x.entry) + seq![tk(Kind::Eof)]);
    lemma_two(ts, 0, link_words(x.link_to), rest);
    let q = link_words(x.link_to).len() as int;
    assert(x.functions.take(0) =~= Seq::empty());
    lemma_functions(ts, q, x, 0);
    if let Some(path) = x.link_to {
        reveal(link_at);
        let t = TokenV { kind: Kind::Str, text: path };
        let r5 = seq![tk(Kind::RParen)] + (seq![tk(Kind::Star)] + seq![tk(Kind::Semicolon)]);
        peel(ts, 0, tk(Kind::LinkTo), seq![tk(Kind::Star)] + (seq![tk(Kind::LParen)] + (seq![t] + r5)));
        peel(ts, 1, tk(Kind::Star), seq![tk(Kind::LParen)] + (seq![t] + r5));
        peel(ts, 2, tk(Kind::LParen), seq![t] + r5);
        peel(ts, 3, t, r5);
        peel(ts, 4, tk(Kind::RParen), seq![tk(Kind::Star)] + seq![tk(Kind::Semicolon)]);
        peel(ts, 5, tk(Kind::Star), seq![tk(Kind::Semicolon)]);
        peel_last(ts, 6, tk(Kind::Semicolon));
        assert(link_at(ts, 0) == Ok::<(Seq<char>, int), Seq<char>>((path, 7)));
        assert(program_from(ts, 0, Seq::empty(), None, None) == program_from(ts, 7, Seq::empty(), None, Some(path)));
    }
}

} // verus!
