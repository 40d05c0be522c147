//! How programs are written down, token by token, and that the parser reads back what was written.

use vstd::prelude::*;
use crate::ast::{element_as_type, BinOp, ElementType, ExprV, Type, UnOp};
use crate::grammar::{
    atom_at, base_type, call_at, call_head_at, expr_at, factorials, full_type_at, index_at, items_at, kind_at,
    length_at, level_at, level_rest, list_at, operator, power_at, power_operator, precision_at, primary_at,
    ref_var_at, starts_call, starts_expr, type_at, unary_at, with_precision_of,
};
use crate::lexer::SpannedV;
use crate::numeral::{
    all_digits, decimal, decimal_denotes, fraction_part, is_digit, is_whole, lemma_point_from, point_from, value,
    whole_part,
};
use crate::token::{Kind, TokenV};
use crate::wellformed::wf_type;

verus! {

// ---------------------------------------------------------------------------
// Tokens
// ---------------------------------------------------------------------------

/// A token that carries no text.
pub open spec fn tk(k: Kind) -> TokenV {
    TokenV { kind: k, text: Seq::empty() }
}

/// A word that is no keyword.
pub open spec fn word(s: Seq<char>) -> TokenV {
    TokenV { kind: Kind::Ident, text: s }
}

/// A quoted name.
pub open spec fn named(s: Seq<char>) -> TokenV {
    TokenV { kind: Kind::Quoted, text: s }
}

/// The tokens `s` stand at `p`.
#[verifier::opaque]
pub open spec fn stand_at(ts: Seq<SpannedV>, p: int, s: Seq<TokenV>) -> bool {
    0 <= p && p + s.len() <= ts.len() && forall|i: int| 0 <= i < s.len() ==> ts[p + i].token == #[trigger] s[i]
}

pub proof fn lemma_two(ts: Seq<SpannedV>, p: int, a: Seq<TokenV>, b: Seq<TokenV>)
    requires
        stand_at(ts, p, a + b),
    ensures
        stand_at(ts, p, a),
        stand_at(ts, p + a.len(), b),
{
    reveal(stand_at);
    assert forall|i: int| 0 <= i < a.len() implies ts[p + i].token == #[trigger] a[i] by {
        assert((a + b)[i] == a[i]);
    }
    assert forall|i: int| 0 <= i < b.len() implies ts[p + a.len() + i].token == #[trigger] b[i] by {
        assert((a + b)[a.len() + i] == b[i]);
    }
}

pub proof fn lemma_bounds(ts: Seq<SpannedV>, p: int, s: Seq<TokenV>)
    requires
        stand_at(ts, p, s),
    ensures
        0 <= p,
        p + s.len() <= ts.len(),
{
    reveal(stand_at);
}

pub proof fn peel(ts: Seq<SpannedV>, p: int, a: TokenV, rest: Seq<TokenV>)
    requires
        stand_at(ts, p, seq![a] + rest),
    ensures
        0 <= p < ts.len(),
        ts[p].token == a,
        kind_at(ts, p) == a.kind,
        stand_at(ts, p + 1, rest),
{
    reveal(stand_at);
    lemma_two(ts, p, seq![a], rest);
    assert(seq![a][0] == a);
}

pub proof fn peel_last(ts: Seq<SpannedV>, p: int, a: TokenV)
    requires
        stand_at(ts, p, seq![a]),
    ensures
        0 <= p < ts.len(),
        ts[p].token == a,
        kind_at(ts, p) == a.kind,
{
    reveal(stand_at);
    assert(seq![a][0] == a);
}

// ---------------------------------------------------------------------------
// Types
// ---------------------------------------------------------------------------

/// The word for a type that is no array.
pub open spec fn base_word(ty: Type) -> Seq<char> {
    match ty {
        Type::Num(_) => "num"@,
        Type::NumW(_) => "numw"@,
        Type::Bool => "bool"@,
        Type::Str => "str"@,
        Type::BigNum(_) => "bignum"@,
        Type::BigInt => "bigint"@,
        Type::File => "file"@,
        _ => "int"@,
    }
}

/// A type without its precision.
pub open spec fn type_words(ty: Type) -> Seq<TokenV> {
    match ty {
        Type::Array(e) => seq![word("array"@)] + (seq![tk(Kind::Colon)] + seq![word(base_word(element_as_type(e)))]),
        _ => seq![word(base_word(ty))],
    }
}

/// The precision of a type, if it has one to choose.
pub open spec fn precision_number(ty: Type) -> Option<u32> {
    match ty {
        Type::Num(w) => Some(w),
        Type::NumW(w) => Some(w),
        Type::Int(w) => Some(w),
        Type::BigNum(w) => Some(w),
        Type::Array(e) => match e {
            ElementType::Num(w) => Some(w),
            ElementType::NumW(w) => Some(w),
            ElementType::Int(w) => Some(w),
            ElementType::BigNum(w) => Some(w),
            _ => None,
        },
        _ => None,
    }
}

/// `[precision:N]`, if the type has a precision.
pub open spec fn precision_words(ty: Type) -> Seq<TokenV> {
    match precision_number(ty) {
        Some(n) => seq![tk(Kind::LBracket)] + (seq![word("precision"@)] + (seq![tk(Kind::Colon)] + (seq![
            TokenV { kind: Kind::Num, text: decimal(n as nat) },
        ] + seq![tk(Kind::RBracket)]))),
        None => Seq::empty(),
    }
}

/// The type that the word for a type names.
pub open spec fn default_type(ty: Type) -> Type {
    match ty {
        Type::Num(_) => Type::Num(64),
        Type::NumW(_) => Type::NumW(64),
        Type::Int(_) => Type::Int(64),
        Type::BigNum(_) => Type::BigNum(256),
        Type::Array(e) => Type::Array(
            match e {
                ElementType::Num(_) => ElementType::Num(64),
                ElementType::NumW(_) => ElementType::NumW(64),
                ElementType::Int(_) => ElementType::Int(64),
                ElementType::BigNum(_) => ElementType::BigNum(256),
                _ => e,
            },
        ),
        _ => ty,
    }
}

proof fn lemma_words(ty: Type)
    requires
        !(ty is Array),
        !(ty is Void),
    ensures
        base_type(base_word(ty)) == Some(default_type(ty)),
        base_word(ty) != "array"@,
{
    reveal_strlit("num");
    reveal_strlit("numw");
    reveal_strlit("bool");
    reveal_strlit("str");
    reveal_strlit("bignum");
    reveal_strlit("bigint");
    reveal_strlit("file");
    reveal_strlit("int");
    reveal_strlit("array");
    assert("num"@.len() != "numw"@.len());
    assert("num"@.len() != "bool"@.len());
    assert("num"@ != "str"@) by {
        assert("num"@[0] != "str"@[0]);
    }
    assert("num"@.len() != "bignum"@.len());
    assert("num"@.len() != "bigint"@.len());
    assert("num"@.len() != "file"@.len());
    assert("num"@ != "int"@) by {
        assert("num"@[0] != "int"@[0]);
    }
    assert("num"@.len() != "array"@.len());
    assert("numw"@ != "bool"@) by {
        assert("numw"@[0] != "bool"@[0]);
    }
    assert("numw"@.len() != "str"@.len());
    assert("numw"@.len() != "bignum"@.len());
    assert("numw"@.len() != "bigint"@.len());
    assert("numw"@ != "file"@) by {
        assert("numw"@[0] != "file"@[0]);
    }
    assert("numw"@.len() != "int"@.len());
    assert("numw"@.len() != "array"@.len());
    assert("bool"@.len() != "str"@.len());
    assert("bool"@.len() != "bignum"@.len());
    assert("bool"@.len() != "bigint"@.len());
    assert("bool"@ != "file"@) by {
        assert("bool"@[0] != "file"@[0]);
    }
    assert("bool"@.len() != "int"@.len());
    assert("bool"@.len() != "array"@.len());
    assert("str"@.len() != "bignum"@.len());
    assert("str"@.len() != "bigint"@.len());
    assert("str"@.len() != "file"@.len());
    assert("str"@ != "int"@) by {
        assert("str"@[0] != "int"@[0]);
    }
    assert("str"@.len() != "array"@.len());
    assert("bignum"@ != "bigint"@) by {
        assert("bignum"@[3] != "bigint"@[3]);
    }
    assert("bignum"@.len() != "file"@.len());
    assert("bignum"@.len() != "int"@.len());
    assert("bignum"@.len() != "array"@.len());
    assert("bigint"@.len() != "file"@.len());
    assert("bigint"@.len() != "int"@.len());
    assert("bigint"@.len() != "array"@.len());
    assert("file"@.len() != "int"@.len());
    assert("file"@.len() != "array"@.len());
    assert("int"@.len() != "array"@.len());
}

pub proof fn lemma_type_words(ts: Seq<SpannedV>, p: int, ty: Type)
    requires
        wf_type(ty),
        stand_at(ts, p, type_words(ty)),
    ensures
        type_at(ts, p) == Ok::<(Type, int), Seq<char>>((default_type(ty), p + type_words(ty).len())),
{
    reveal(type_at);
    match ty {
        Type::Array(e) => {
            let t = element_as_type(e);
            lemma_words(t);
            peel(ts, p, word("array"@), seq![tk(Kind::Colon)] + seq![word(base_word(t))]);
            peel(ts, p + 1, tk(Kind::Colon), seq![word(base_word(t))]);
            peel_last(ts, p + 2, word(base_word(t)));
        },
        _ => {
            lemma_words(ty);
            peel_last(ts, p, word(base_word(ty)));
        },
    }
}

proof fn lemma_digits_whole(s: Seq<char>)
    requires
        all_digits(s),
    ensures
        is_whole(s),
        whole_part(s) == s,
{
    lemma_point_from(s, 0);
    let p = point_from(s, 0);
    if p < s.len() {
        assert(is_digit(s[p]));
    }
    assert(whole_part(s) =~= s);
    assert(fraction_part(s).len() == 0);
}

proof fn lemma_decimal_digits(n: nat)
    ensures
        all_digits(decimal(n)),
        value(decimal(n)) == n,
        decimal(n).len() > 0,
    decreases n,
{
    decimal_denotes(n);
}

pub proof fn lemma_precision_words(ts: Seq<SpannedV>, p: int, ty: Type)
    requires
        wf_type(ty),
        stand_at(ts, p, precision_words(ty)),
        precision_number(ty) is None ==> kind_at(ts, p) != Kind::LBracket,
    ensures
        precision_at(ts, p, default_type(ty)) == Ok::<(Type, int), Seq<char>>((ty, p + precision_words(ty).len())),
{
    reveal(precision_at);
    if let Some(n) = precision_number(ty) {
        let num = TokenV { kind: Kind::Num, text: decimal(n as nat) };
        peel(
            ts,
            p,
            tk(Kind::LBracket),
            seq![word("precision"@)] + (seq![tk(Kind::Colon)] + (seq![num] + seq![tk(Kind::RBracket)])),
        );
        peel(ts, p + 1, word("precision"@), seq![tk(Kind::Colon)] + (seq![num] + seq![tk(Kind::RBracket)]));
        peel(ts, p + 2, tk(Kind::Colon), seq![num] + seq![tk(Kind::RBracket)]);
        peel(ts, p + 3, num, seq![tk(Kind::RBracket)]);
        peel_last(ts, p + 4, tk(Kind::RBracket));
        lemma_decimal_digits(n as nat);
        lemma_digits_whole(decimal(n as nat));
        assert(with_precision_of(default_type(ty), decimal(n as nat)) == Ok::<Type, Seq<char>>(ty));
    }
}

/// A type with its precision.
pub open spec fn full_type_words(ty: Type) -> Seq<TokenV> {
    type_words(ty) + precision_words(ty)
}

pub proof fn lemma_full_type(ts: Seq<SpannedV>, p: int, ty: Type)
    requires
        wf_type(ty),
        stand_at(ts, p, full_type_words(ty)),
        kind_at(ts, p + full_type_words(ty).len()) != Kind::LBracket,
    ensures
        full_type_at(ts, p) == Ok::<(Type, int), Seq<char>>((ty, p + full_type_words(ty).len())),
{
    lemma_two(ts, p, type_words(ty), precision_words(ty));
    lemma_type_words(ts, p, ty);
    lemma_precision_words(ts, p + type_words(ty).len(), ty);
}

/// `ref:var:TYPE 'name'`.
pub open spec fn ref_words(name: Seq<char>, ty: Type) -> Seq<TokenV> {
    seq![tk(Kind::Ref)] + (seq![tk(Kind::Colon)] + (seq![tk(Kind::Var)] + (seq![tk(Kind::Colon)] + (full_type_words(ty)
        + seq![named(name)]))))
}

pub proof fn lemma_ref(ts: Seq<SpannedV>, p: int, name: Seq<char>, ty: Type)
    requires
        wf_type(ty),
        stand_at(ts, p, ref_words(name, ty)),
    ensures
        ref_var_at(ts, p) == Ok::<((Seq<char>, Type), int), Seq<char>>(((name, ty), p + ref_words(name, ty).len())),
        kind_at(ts, p) == Kind::Ref,
        kind_at(ts, p + 2) == Kind::Var,
        p < ts.len(),
{
    reveal(ref_var_at);
    let r4 = full_type_words(ty) + seq![named(name)];
    let r3 = seq![tk(Kind::Colon)] + r4;
    let r2 = seq![tk(Kind::Var)] + r3;
    peel(ts, p, tk(Kind::Ref), seq![tk(Kind::Colon)] + r2);
    peel(ts, p + 1, tk(Kind::Colon), r2);
    peel(ts, p + 2, tk(Kind::Var), r3);
    peel(ts, p + 3, tk(Kind::Colon), r4);
    lemma_two(ts, p + 4, full_type_words(ty), seq![named(name)]);
    let q = p + 4 + full_type_words(ty).len();
    peel_last(ts, q, named(name));
    lemma_full_type(ts, p + 4, ty);
}

// ---------------------------------------------------------------------------
// Expressions
// ---------------------------------------------------------------------------

/// The token that an operator is written with.
pub open spec fn op_kind(op: BinOp) -> Kind {
    match op {
        BinOp::Add => Kind::Plus,
        BinOp::Sub => Kind::Minus,
        BinOp::Mul => Kind::Mul,
        BinOp::Div => Kind::Slash,
        BinOp::Pow => Kind::Pow,
        BinOp::Tetration => Kind::Tetration,
        BinOp::Eq => Kind::EqEq,
        BinOp::Ne => Kind::NotEq,
        BinOp::Lt => Kind::Lt,
        BinOp::Gt => Kind::Gt,
        BinOp::Le => Kind::LtEq,
        BinOp::Ge => Kind::GtEq,
        BinOp::And => Kind::AndAnd,
        BinOp::Or => Kind::OrOr,
        BinOp::Concat => Kind::Concat,
    }
}

/// How tightly an operator binds.
pub open spec fn op_rank(op: BinOp) -> int {
    match op {
        BinOp::Or => 0,
        BinOp::And => 1,
        BinOp::Eq | BinOp::Ne => 2,
        BinOp::Lt | BinOp::Gt | BinOp::Le | BinOp::Ge => 3,
        BinOp::Concat => 4,
        BinOp::Add | BinOp::Sub => 5,
        BinOp::Mul | BinOp::Div => 6,
        BinOp::Pow | BinOp::Tetration => 7,
    }
}

/// How tightly an expression holds together.
pub open spec fn rank(e: ExprV) -> int {
    match e {
        ExprV::Binary(_, op, _) => op_rank(op),
        ExprV::Unary(UnOp::Factorial, _) => 9,
        ExprV::Unary(_, _) => 8,
        _ => 10,
    }
}

/// Whether an expression can be written down: no operand holds together less tightly than its operator
/// asks for. Operators of one rank group to the left, powers and towers to the right.
#[verifier::opaque]
pub open spec fn writable(e: ExprV) -> bool
    decreases e,
{
    match e {
        ExprV::Var(_, ty) => wf_type(ty),
        ExprV::Unary(UnOp::Factorial, inner) => rank(*inner) >= 9 && writable(*inner),
        ExprV::Unary(_, inner) => rank(*inner) >= 8 && writable(*inner),
        ExprV::Binary(l, op, r) => {
            &&& writable(*l)
            &&& writable(*r)
            &&& if op_rank(op) == 7 {
                rank(*l) >= 8 && rank(*r) >= 7
            } else {
                rank(*l) >= op_rank(op) && rank(*r) > op_rank(op)
            }
        },
        ExprV::Call(_, args) => forall|i: int| 0 <= i < args.len() ==> writable(#[trigger] args[i]),
        ExprV::ArrayLiteral(es) => forall|i: int| 0 <= i < es.len() ==> writable(#[trigger] es[i]),
        ExprV::ArrayIndex(_, ty, index) => wf_type(ty) && writable(*index),
        ExprV::Length(array) => writable(*array),
        _ => true,
    }
}

/// An expression, written down.
#[verifier::opaque]
pub open spec fn spell(e: ExprV) -> Seq<TokenV>
    decreases e, 0nat,
{
    match e {
        ExprV::Num(t) => seq![tk(Kind::LParen)] + (seq![TokenV { kind: Kind::Num, text: t }] + seq![tk(Kind::RParen)]),
        ExprV::Str(t) => seq![tk(Kind::LParen)] + (seq![TokenV { kind: Kind::Str, text: t }] + seq![tk(Kind::RParen)]),
        ExprV::Bool(b) => seq![tk(Kind::LParen)] + (seq![
            tk(
                if b {
                    Kind::True
                } else {
                    Kind::False
                },
            ),
        ] + seq![tk(Kind::RParen)]),
        ExprV::Var(name, ty) => seq![tk(Kind::LParen)] + (ref_words(name, ty) + seq![tk(Kind::RParen)]),
        ExprV::ArrayIndex(name, ty, index) => seq![tk(Kind::LParen)] + (ref_words(name, ty) + (seq![tk(Kind::Star)] + (
        spell(*index) + (seq![tk(Kind::Star)] + seq![tk(Kind::RParen)])))),
        ExprV::Length(array) => seq![tk(Kind::LParen)] + (seq![tk(Kind::Length)] + (seq![tk(Kind::Star)] + (match *array {
            ExprV::Var(name, ty) => ref_words(name, ty),
            _ => spell(*array),
        } + (seq![tk(Kind::Star)] + seq![tk(Kind::RParen)])))),
        ExprV::Call(name, args) => seq![tk(Kind::Activate)] + (seq![named(name)] + (seq![tk(Kind::Star)] + (spell_list(
            args,
            0,
        ) + seq![tk(Kind::Star)]))),
        ExprV::ArrayLiteral(es) => seq![tk(Kind::LBrace)] + (spell_list(es, 0) + seq![tk(Kind::RBrace)]),
        ExprV::Unary(UnOp::Neg, inner) => seq![tk(Kind::Minus)] + spell(*inner),
        ExprV::Unary(UnOp::Not, inner) => seq![tk(Kind::Not)] + spell(*inner),
        ExprV::Unary(UnOp::Factorial, inner) => spell(*inner) + seq![tk(Kind::Bang)],
        ExprV::Binary(l, op, r) => spell(*l) + (seq![tk(op_kind(op))] + spell(*r)),
    }
}

/// Expressions from number `i` on with commas between them, written down.
pub open spec fn spell_list(es: Seq<ExprV>, i: nat) -> Seq<TokenV>
    decreases es, es.len() - i,
{
    if i >= es.len() {
        Seq::empty()
    } else if i + 1 == es.len() {
        spell(es[i as int])
    } else {
        spell(es[i as int]) + (seq![tk(Kind::Comma)] + spell_list(es, i + 1))
    }
}

/// Whether nothing that starts with a token of kind `k` goes on an expression of operators at `level` and
/// above.
pub open spec fn closes(k: Kind, level: int) -> bool {
    &&& forall|l: int| level <= l < 7 ==> (#[trigger] operator(l, k)) is None
    &&& power_operator(k) is None
    &&& k != Kind::Bang
}

pub proof fn lemma_spell_nonempty(e: ExprV)
    ensures
        spell(e).len() > 0,
    decreases e,
{
    reveal(spell);
    reveal(writable);
    match e {
        ExprV::Binary(l, op, r) => lemma_spell_nonempty(*l),
        ExprV::Unary(UnOp::Factorial, inner) => lemma_spell_nonempty(*inner),
        _ => {},
    }
}

/// The operators: each is read at its own level, and nowhere else.
proof fn lemma_operators(op: BinOp)
    ensures
        op_rank(op) < 7 ==> operator(op_rank(op), op_kind(op)) == Some(op) && closes(op_kind(op), op_rank(op) + 1),
        op_rank(op) == 7 ==> power_operator(op_kind(op)) == Some(op) && op_kind(op) != Kind::Bang,
{
}

/// An expression at a level: the operand that it starts with, and that what follows is read as the rest of it.
proof fn lemma_left(ts: Seq<SpannedV>, p: int, e: ExprV, level: int) -> (r: (ExprV, int))
    requires
        0 <= level < 7,
        rank(e) >= level,
        writable(e),
        stand_at(ts, p, spell(e)),
        closes(kind_at(ts, p + spell(e).len()), level + 1),
    ensures
        level_at(ts, p, level + 1) == Ok::<(ExprV, int), Seq<char>>(r),
        p < r.1 <= p + spell(e).len(),
        level_rest(ts, r.1, level, r.0) == level_rest(ts, p + spell(e).len(), level, e),
    decreases e, 20 - level, 1int,
{
    reveal(spell);
    reveal(writable);
    lemma_spell_nonempty(e);
    lemma_bounds(ts, p, spell(e));
    if rank(e) > level {
        lemma_level(ts, p, e, level + 1);
        (e, p + spell(e).len())
    } else {
        let (l, op, right) = (*e->Binary_0, e->Binary_1, *e->Binary_2);
        let k = tk(op_kind(op));
        lemma_operators(op);
        lemma_two(ts, p, spell(l), seq![k] + spell(right));
        let q = p + spell(l).len();
        peel(ts, q, k, spell(right));
        let r = lemma_left(ts, p, l, level);
        lemma_spell_nonempty(right);
        lemma_level(ts, q + 1, right, level + 1);
        assert(q + 1 + spell(right).len() == p + spell(e).len());
        r
    }
}

/// An expression that holds together at a level is read back at that level.
proof fn lemma_level(ts: Seq<SpannedV>, p: int, e: ExprV, level: int)
    requires
        0 <= level <= 7,
        rank(e) >= level,
        writable(e),
        stand_at(ts, p, spell(e)),
        closes(kind_at(ts, p + spell(e).len()), level),
    ensures
        level_at(ts, p, level) == Ok::<(ExprV, int), Seq<char>>((e, p + spell(e).len())),
    decreases e, 20 - level, 2int,
{
    reveal(spell);
    reveal(writable);
    if level == 7 {
        lemma_power(ts, p, e);
    } else {
        let r = lemma_left(ts, p, e, level);
        lemma_bounds(ts, p, spell(e));
        assert(operator(level, kind_at(ts, p + spell(e).len())) is None);
    }
}

proof fn lemma_power(ts: Seq<SpannedV>, p: int, e: ExprV)
    requires
        rank(e) >= 7,
        writable(e),
        stand_at(ts, p, spell(e)),
        closes(kind_at(ts, p + spell(e).len()), 7),
    ensures
        power_at(ts, p) == Ok::<(ExprV, int), Seq<char>>((e, p + spell(e).len())),
    decreases e, 12int, 0int,
{
    reveal(spell);
    reveal(writable);
    lemma_spell_nonempty(e);
    lemma_bounds(ts, p, spell(e));
    if rank(e) > 7 {
        lemma_unary(ts, p, e);
    } else {
        let (l, op, right) = (*e->Binary_0, e->Binary_1, *e->Binary_2);
        let k = tk(op_kind(op));
        lemma_operators(op);
        lemma_two(ts, p, spell(l), seq![k] + spell(right));
        let q = p + spell(l).len();
        peel(ts, q, k, spell(right));
        lemma_spell_nonempty(l);
        lemma_unary(ts, p, l);
        lemma_power(ts, q + 1, right);
        assert(q + 1 + spell(right).len() == p + spell(e).len());
    }
}

proof fn lemma_unary(ts: Seq<SpannedV>, p: int, e: ExprV)
    requires
        rank(e) >= 8,
        writable(e),
        stand_at(ts, p, spell(e)),
        kind_at(ts, p + spell(e).len()) != Kind::Bang,
    ensures
        unary_at(ts, p) == Ok::<(ExprV, int), Seq<char>>((e, p + spell(e).len())),
    decreases e, 11int, 0int,
{
    reveal(spell);
    reveal(writable);
    match e {
        ExprV::Unary(UnOp::Neg, inner) => {
            peel(ts, p, tk(Kind::Minus), spell(*inner));
            lemma_unary(ts, p + 1, *inner);
        },
        ExprV::Unary(UnOp::Not, inner) => {
            peel(ts, p, tk(Kind::Not), spell(*inner));
            lemma_unary(ts, p + 1, *inner);
        },
        _ => {
            let r = lemma_postfix(ts, p, e);
        },
    }
}

/// A value with factorials behind it: the value, and that the factorials are read as such.
proof fn lemma_postfix(ts: Seq<SpannedV>, p: int, e: ExprV) -> (r: (ExprV, int))
    requires
        rank(e) >= 9,
        writable(e),
        stand_at(ts, p, spell(e)),
    ensures
        primary_at(ts, p) == Ok::<(ExprV, int), Seq<char>>(r),
        kind_at(ts, p) != Kind::Minus,
        kind_at(ts, p) != Kind::Not,
        factorials(ts, r.1, r.0) == factorials(ts, p + spell(e).len(), e),
    decreases e, 10int, 0int,
{
    reveal(spell);
    reveal(writable);
    match e {
        ExprV::Unary(UnOp::Factorial, inner) => {
            lemma_two(ts, p, spell(*inner), seq![tk(Kind::Bang)]);
            peel_last(ts, p + spell(*inner).len(), tk(Kind::Bang));
            lemma_postfix(ts, p, *inner)
        },
        _ => {
            lemma_primary(ts, p, e);
            (e, p + spell(e).len())
        },
    }
}

proof fn lemma_primary(ts: Seq<SpannedV>, p: int, e: ExprV)
    requires
        rank(e) == 10,
        writable(e),
        stand_at(ts, p, spell(e)),
    ensures
        primary_at(ts, p) == Ok::<(ExprV, int), Seq<char>>((e, p + spell(e).len())),
        kind_at(ts, p) == Kind::LParen || kind_at(ts, p) == Kind::Activate || kind_at(ts, p) == Kind::LBrace,
    decreases e, 9int, 0int,
{
    reveal(spell);
    reveal(writable);
    match e {
        ExprV::Num(t) => lemma_simple(ts, p, TokenV { kind: Kind::Num, text: t }),
        ExprV::Str(t) => lemma_simple(ts, p, TokenV { kind: Kind::Str, text: t }),
        ExprV::Bool(b) => lemma_simple(
            ts,
            p,
            tk(
                if b {
                    Kind::True
                } else {
                    Kind::False
                },
            ),
        ),
        ExprV::Var(name, ty) => {
            let words = ref_words(name, ty);
            peel(ts, p, tk(Kind::LParen), words + seq![tk(Kind::RParen)]);
            lemma_two(ts, p + 1, words, seq![tk(Kind::RParen)]);
            peel_last(ts, p + 1 + words.len(), tk(Kind::RParen));
            lemma_ref(ts, p + 1, name, ty);
        },
        ExprV::ArrayIndex(name, ty, index) => lemma_element(ts, p, name, ty, *index),
        ExprV::Length(array) => lemma_length(ts, p, *array),
        ExprV::Call(name, args) => {
            lemma_call(ts, p, name, args);
        },
        ExprV::ArrayLiteral(es) => {
            peel(ts, p, tk(Kind::LBrace), spell_list(es, 0) + seq![tk(Kind::RBrace)]);
            lemma_two(ts, p + 1, spell_list(es, 0), seq![tk(Kind::RBrace)]);
            peel_last(ts, p + 1 + spell_list(es, 0).len(), tk(Kind::RBrace));
            lemma_list(ts, p + 1, es, Kind::RBrace);
        },
        _ => {},
    }
}

#[verifier::rlimit(40)]
proof fn lemma_element(ts: Seq<SpannedV>, p: int, name: Seq<char>, ty: Type, index: ExprV)
    requires
        wf_type(ty),
        writable(index),
        stand_at(ts, p, spell(ExprV::ArrayIndex(name, ty, Box::new(index)))),
    ensures
        primary_at(ts, p) == Ok::<(ExprV, int), Seq<char>>(
            (
                ExprV::ArrayIndex(name, ty, Box::new(index)),
                p + spell(ExprV::ArrayIndex(name, ty, Box::new(index))).len(),
            ),
        ),
        kind_at(ts, p) == Kind::LParen,
    decreases index, 30int, 0int,
{
    reveal(spell);
    reveal(writable);
    let words = ref_words(name, ty);
    let close = seq![tk(Kind::Star)] + seq![tk(Kind::RParen)];
    let rest = spell(index) + close;
    peel(ts, p, tk(Kind::LParen), words + (seq![tk(Kind::Star)] + rest));
    lemma_two(ts, p + 1, words, seq![tk(Kind::Star)] + rest);
    let q = p + 1 + words.len();
    peel(ts, q, tk(Kind::Star), rest);
    lemma_two(ts, q + 1, spell(index), close);
    let r = q + 1 + spell(index).len();
    peel(ts, r, tk(Kind::Star), seq![tk(Kind::RParen)]);
    peel_last(ts, r + 1, tk(Kind::RParen));
    lemma_ref(ts, p + 1, name, ty);
    lemma_level(ts, q + 1, index, 0);
    assert(index_at(ts, q) == Ok::<(ExprV, int), Seq<char>>((index, r + 1)));
    assert(atom_at(ts, p + 1) == Ok::<(ExprV, int), Seq<char>>((ExprV::ArrayIndex(name, ty, Box::new(index)), r + 1)));
}

#[verifier::rlimit(40)]
proof fn lemma_length(ts: Seq<SpannedV>, p: int, array: ExprV)
    requires
        writable(array),
        stand_at(ts, p, spell(ExprV::Length(Box::new(array)))),
    ensures
        primary_at(ts, p) == Ok::<(ExprV, int), Seq<char>>(
            (ExprV::Length(Box::new(array)), p + spell(ExprV::Length(Box::new(array))).len()),
        ),
        kind_at(ts, p) == Kind::LParen,
    decreases array, 30int, 0int,
{
    reveal(spell);
    reveal(writable);
    let e = ExprV::Length(Box::new(array));
    let inner = match array {
        ExprV::Var(name, ty) => ref_words(name, ty),
        _ => spell(array),
    };
    let close = seq![tk(Kind::Star)] + seq![tk(Kind::RParen)];
    peel(ts, p, tk(Kind::LParen), seq![tk(Kind::Length)] + (seq![tk(Kind::Star)] + (inner + close)));
    peel(ts, p + 1, tk(Kind::Length), seq![tk(Kind::Star)] + (inner + close));
    peel(ts, p + 2, tk(Kind::Star), inner + close);
    lemma_two(ts, p + 3, inner, close);
    let r = p + 3 + inner.len();
    peel(ts, r, tk(Kind::Star), seq![tk(Kind::RParen)]);
    peel_last(ts, r + 1, tk(Kind::RParen));
    match array {
        ExprV::Var(name, ty) => {
            lemma_ref(ts, p + 3, name, ty);
            assert(length_at(ts, p + 3) == Ok::<(ExprV, int), Seq<char>>((array, r)));
        },
        _ => {
            lemma_first(ts, p + 3, array);
            lemma_level(ts, p + 3, array, 0);
            assert(length_at(ts, p + 3) == Ok::<(ExprV, int), Seq<char>>((array, r)));
        },
    }
    assert(atom_at(ts, p + 1) == Ok::<(ExprV, int), Seq<char>>((e, r + 1)));
}

proof fn lemma_simple(ts: Seq<SpannedV>, p: int, t: TokenV)
    requires
        stand_at(ts, p, seq![tk(Kind::LParen)] + (seq![t] + seq![tk(Kind::RParen)])),
        t.kind == Kind::Num || t.kind == Kind::Str || t.kind == Kind::True || t.kind == Kind::False,
    ensures
        kind_at(ts, p) == Kind::LParen,
        primary_at(ts, p) == Ok::<(ExprV, int), Seq<char>>(
            (
                if t.kind == Kind::Num {
                    ExprV::Num(t.text)
                } else if t.kind == Kind::Str {
                    ExprV::Str(t.text)
                } else {
                    ExprV::Bool(t.kind == Kind::True)
                },
                p + 3,
            ),
        ),
{
    reveal(spell);
    reveal(writable);
    peel(ts, p, tk(Kind::LParen), seq![t] + seq![tk(Kind::RParen)]);
    peel(ts, p + 1, t, seq![tk(Kind::RParen)]);
    peel_last(ts, p + 2, tk(Kind::RParen));
}

/// An expression starts with no reference of its own.
pub proof fn lemma_first(ts: Seq<SpannedV>, p: int, e: ExprV)
    requires
        writable(e),
        stand_at(ts, p, spell(e)),
    ensures
        starts_expr(kind_at(ts, p)),
        kind_at(ts, p) != Kind::Ref,
        kind_at(ts, p) == Kind::Minus <==> starts_with_minus(e),
        kind_at(ts, p) == Kind::Activate ==> starts_call(ts, p),
    decreases e, 0int, 0int,
{
    reveal(spell);
    reveal(writable);
    lemma_spell_nonempty(e);
    match e {
        ExprV::Binary(l, op, r) => {
            lemma_two(ts, p, spell(*l), seq![tk(op_kind(op))] + spell(*r));
            lemma_first(ts, p, *l);
        },
        ExprV::Unary(UnOp::Factorial, inner) => {
            lemma_two(ts, p, spell(*inner), seq![tk(Kind::Bang)]);
            lemma_first(ts, p, *inner);
        },
        ExprV::Unary(UnOp::Neg, inner) => peel(ts, p, tk(Kind::Minus), spell(*inner)),
        ExprV::Unary(UnOp::Not, inner) => peel(ts, p, tk(Kind::Not), spell(*inner)),
        _ => {
            reveal(stand_at);
            let first = spell(e)[0];
            assert(ts[p + 0].token == first);
        },
    }
}

/// Whether an expression starts with a `-`.
pub open spec fn starts_with_minus(e: ExprV) -> bool
    decreases e,
{
    match e {
        ExprV::Unary(UnOp::Neg, _) => true,
        ExprV::Unary(UnOp::Factorial, inner) => starts_with_minus(*inner),
        ExprV::Binary(l, _, _) => starts_with_minus(*l),
        _ => false,
    }
}

pub proof fn lemma_call_words(ts: Seq<SpannedV>, p: int, name: Seq<char>, args: Seq<ExprV>)
    requires
        writable(ExprV::Call(name, args)),
        stand_at(ts, p, spell(ExprV::Call(name, args))),
    ensures
        kind_at(ts, p) == Kind::Activate,
        call_at(ts, p) == Ok::<(ExprV, int), Seq<char>>(
            (ExprV::Call(name, args), p + spell(ExprV::Call(name, args)).len()),
        ),
{
    reveal(spell);
    reveal(writable);
    let e = ExprV::Call(name, args);
    assert(e->Call_1 == args);
    peel(
        ts,
        p,
        tk(Kind::Activate),
        seq![named(name)] + (seq![tk(Kind::Star)] + (spell_list(args, 0) + seq![tk(Kind::Star)])),
    );
    lemma_call(ts, p, name, args);
}

pub proof fn lemma_call(ts: Seq<SpannedV>, p: int, name: Seq<char>, args: Seq<ExprV>)
    requires
        forall|i: int| 0 <= i < args.len() ==> writable(#[trigger] args[i]),
        stand_at(ts, p, spell(ExprV::Call(name, args))),
    ensures
        kind_at(ts, p) == Kind::Activate,
        call_at(ts, p) == Ok::<(ExprV, int), Seq<char>>(
            (ExprV::Call(name, args), p + spell(ExprV::Call(name, args)).len()),
        ),
        primary_at(ts, p) == call_at(ts, p),
    decreases args, args.len() + 1, 0int,
{
    reveal(spell);
    reveal(writable);
    reveal(call_head_at);
    let items = spell_list(args, 0);
    peel(ts, p, tk(Kind::Activate), seq![named(name)] + (seq![tk(Kind::Star)] + (items + seq![tk(Kind::Star)])));
    peel(ts, p + 1, named(name), seq![tk(Kind::Star)] + (items + seq![tk(Kind::Star)]));
    peel(ts, p + 2, tk(Kind::Star), items + seq![tk(Kind::Star)]);
    lemma_two(ts, p + 3, items, seq![tk(Kind::Star)]);
    peel_last(ts, p + 3 + items.len(), tk(Kind::Star));
    lemma_list(ts, p + 3, args, Kind::Star);
}

proof fn lemma_list(ts: Seq<SpannedV>, p: int, es: Seq<ExprV>, close: Kind)
    requires
        forall|i: int| 0 <= i < es.len() ==> writable(#[trigger] es[i]),
        stand_at(ts, p, spell_list(es, 0)),
        close == Kind::Star || close == Kind::RBrace,
        kind_at(ts, p + spell_list(es, 0).len()) == close,
        p + spell_list(es, 0).len() < ts.len(),
    ensures
        list_at(ts, p, close) == Ok::<(Seq<ExprV>, int), Seq<char>>((es, p + spell_list(es, 0).len() + 1)),
    decreases es, es.len(), 1int,
{
    reveal(spell);
    reveal(writable);
    if es.len() == 0 {
        assert(es =~= Seq::empty());
    } else {
        lemma_items(ts, p, es, 0, close);
        assert(es.take(0) =~= Seq::empty());
        assert(writable(es[0]));
        if es.len() > 1 {
            lemma_two(ts, p, spell(es[0]), seq![tk(Kind::Comma)] + spell_list(es, 1));
        }
        lemma_first(ts, p, es[0]);
    }
}

proof fn lemma_items(ts: Seq<SpannedV>, p: int, es: Seq<ExprV>, i: nat, close: Kind)
    requires
        i < es.len(),
        forall|i: int| 0 <= i < es.len() ==> writable(#[trigger] es[i]),
        stand_at(ts, p, spell_list(es, i)),
        close == Kind::Star || close == Kind::RBrace,
        kind_at(ts, p + spell_list(es, i).len()) == close,
    ensures
        items_at(ts, p, es.take(i as int)) == Ok::<(Seq<ExprV>, int), Seq<char>>((es, p + spell_list(es, i).len())),
    decreases es, es.len() - i, 0int,
{
    reveal(spell);
    reveal(writable);
    let e = es[i as int];
    assert(writable(e));
    lemma_bounds(ts, p, spell_list(es, i));
    assert(es.take(i as int).push(e) =~= es.take(i as int + 1));
    lemma_spell_nonempty(e);
    if i + 1 == es.len() {
        lemma_level(ts, p, e, 0);
        assert(es.take(i as int + 1) =~= es);
        assert(expr_at(ts, p) == Ok::<(ExprV, int), Seq<char>>((e, p + spell(e).len())));
        assert(spell_list(es, i) == spell(e));
    } else {
        let rest = spell_list(es, i + 1);
        lemma_two(ts, p, spell(e), seq![tk(Kind::Comma)] + rest);
        let q = p + spell(e).len();
        peel(ts, q, tk(Kind::Comma), rest);
        lemma_level(ts, p, e, 0);
        assert(q + 1 + rest.len() == p + spell_list(es, i).len());
        lemma_items(ts, q + 1, es, i + 1, close);
        assert(es.take((i + 1) as int) == es.take(i as int).push(e));
        assert(expr_at(ts, p) == Ok::<(ExprV, int), Seq<char>>((e, q)));
        assert(items_at(ts, p, es.take(i as int)) == items_at(ts, q + 1, es.take(i as int).push(e)));
    }
}

/// An expression that is written down is read back as it was: every operator token is read as the operator
/// that it was written for, with the operands on its sides, wherever the tokens stand and whatever follows
/// them, if it does not go on the expression.
pub proof fn expressions_are_read_back(ts: Seq<SpannedV>, p: int, e: ExprV)
    requires
        writable(e),
        stand_at(ts, p, spell(e)),
        closes(kind_at(ts, p + spell(e).len()), 0),
    ensures
        expr_at(ts, p) == Ok::<(ExprV, int), Seq<char>>((e, p + spell(e).len())),
{
    reveal(spell);
    reveal(writable);
    lemma_level(ts, p, e, 0);
}

} // verus!
