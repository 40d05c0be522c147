//! What holds of the grammar: a construct means the same wherever it stands, and the two
//! spellings of a call mean the same.

use vstd::prelude::*;
use crate::ast::{ExprV, Type};
use crate::grammar::{
    atom_at, call_at, call_head_at, expect_at, expr_at, factorials, ident_at, index_at, items_at, kind_at,
    length_at, level_at, level_rest, list_at, operator, power_at, power_operator, precision_at, primary_at,
    quoted_at, ref_var_at, starts_call, type_at, unary_at, Parsed,
};
use crate::lexer::SpannedV;
use crate::token::Kind;

verus! {

/// Tokens that end with `Eof`, and a position among them.
pub open spec fn proper(ts: Seq<SpannedV>, p: int) -> bool {
    0 <= p < ts.len() && ts.last().token.kind == Kind::Eof
}

/// The same tokens follow `p` in `ts` and `q` in `us`.
pub open spec fn same_rest(ts: Seq<SpannedV>, p: int, us: Seq<SpannedV>, q: int) -> bool {
    &&& proper(ts, p)
    &&& proper(us, q)
    &&& ts.skip(p) == us.skip(q)
}

/// The same result, counted from `p` and from `q`. What was read lies among the tokens.
pub open spec fn same_parse<T>(ts: Seq<SpannedV>, a: Parsed<T>, p: int, b: Parsed<T>, q: int) -> bool {
    match (a, b) {
        (Ok(x), Ok(y)) => x.0 == y.0 && x.1 - p == y.1 - q && p < x.1 < ts.len(),
        (Err(m), Err(n)) => m == n,
        _ => false,
    }
}

/// As `same_parse`, for what may be nothing at all.
pub open spec fn same_or_nothing<T>(ts: Seq<SpannedV>, a: Parsed<T>, p: int, b: Parsed<T>, q: int) -> bool {
    match (a, b) {
        (Ok(x), Ok(y)) => x.0 == y.0 && x.1 - p == y.1 - q && p <= x.1 < ts.len(),
        (Err(m), Err(n)) => m == n,
        _ => false,
    }
}

/// What follows is the same further on too.
proof fn lemma_rest(ts: Seq<SpannedV>, p: int, us: Seq<SpannedV>, q: int, n: int)
    requires
        same_rest(ts, p, us, q),
        0 <= n < ts.len() - p,
    ensures
        same_rest(ts, p + n, us, q + n),
        ts[p + n] == us[q + n],
        kind_at(ts, p + n) == kind_at(us, q + n),
        kind_at(ts, p + n) != Kind::Eof ==> p + n + 1 < ts.len(),
{
    assert(ts.skip(p).len() == us.skip(q).len());
    assert(ts.skip(p)[n] == us.skip(q)[n]);
    assert(ts.skip(p + n) =~= ts.skip(p).skip(n));
    assert(us.skip(q + n) =~= us.skip(q).skip(n));
}

proof fn lemma_kind(ts: Seq<SpannedV>, p: int, us: Seq<SpannedV>, q: int)
    requires
        same_rest(ts, p, us, q),
    ensures
        ts[p] == us[q],
        kind_at(ts, p) == kind_at(us, q),
        kind_at(ts, p) != Kind::Eof ==> p + 1 < ts.len() && same_rest(ts, p + 1, us, q + 1),
{
    lemma_rest(ts, p, us, q, 0);
    if kind_at(ts, p) != Kind::Eof {
        lemma_rest(ts, p, us, q, 1);
    }
}

proof fn lemma_go(ts: Seq<SpannedV>, p: int, us: Seq<SpannedV>, q: int, p2: int, q2: int)
    requires
        same_rest(ts, p, us, q),
        p <= p2 < ts.len(),
        p2 - p == q2 - q,
    ensures
        same_rest(ts, p2, us, q2),
        ts[p2] == us[q2],
        kind_at(ts, p2) == kind_at(us, q2),
        kind_at(ts, p2) != Kind::Eof ==> p2 + 1 < ts.len(),
{
    lemma_rest(ts, p, us, q, p2 - p);
}

proof fn lemma_expect(ts: Seq<SpannedV>, p: int, us: Seq<SpannedV>, q: int, k: Kind)
    requires
        same_rest(ts, p, us, q),
        k != Kind::Eof,
    ensures
        match (expect_at(ts, p, k), expect_at(us, q, k)) {
            (Ok(a), Ok(b)) => a == p + 1 && b == q + 1 && same_rest(ts, a, us, b),
            (Err(m), Err(n)) => m == n,
            _ => false,
        },
{
    lemma_kind(ts, p, us, q);
}

proof fn lemma_names(ts: Seq<SpannedV>, p: int, us: Seq<SpannedV>, q: int)
    requires
        same_rest(ts, p, us, q),
    ensures
        same_parse(ts, quoted_at(ts, p), p, quoted_at(us, q), q),
        same_parse(ts, ident_at(ts, p), p, ident_at(us, q), q),
        quoted_at(ts, p) is Ok ==> same_rest(ts, p + 1, us, q + 1),
        ident_at(ts, p) is Ok ==> same_rest(ts, p + 1, us, q + 1),
{
    lemma_kind(ts, p, us, q);
}

proof fn lemma_type(ts: Seq<SpannedV>, p: int, us: Seq<SpannedV>, q: int)
    requires
        same_rest(ts, p, us, q),
    ensures
        same_parse(ts, type_at(ts, p), p, type_at(us, q), q),
{
    reveal(type_at);
    lemma_names(ts, p, us, q);
    if ident_at(ts, p) is Ok {
        lemma_expect(ts, p + 1, us, q + 1, Kind::Colon);
        if expect_at(ts, p + 1, Kind::Colon) is Ok {
            lemma_names(ts, p + 2, us, q + 2);
        }
    }
}

proof fn lemma_precision(ts: Seq<SpannedV>, p: int, us: Seq<SpannedV>, q: int, ty: Type)
    requires
        same_rest(ts, p, us, q),
    ensures
        same_or_nothing(ts, precision_at(ts, p, ty), p, precision_at(us, q, ty), q),
{
    reveal(precision_at);
    lemma_kind(ts, p, us, q);
    if kind_at(ts, p) == Kind::LBracket {
        lemma_names(ts, p + 1, us, q + 1);
        lemma_kind(ts, p + 1, us, q + 1);
        if ident_at(ts, p + 1) is Ok {
            lemma_expect(ts, p + 2, us, q + 2, Kind::Colon);
            if expect_at(ts, p + 2, Kind::Colon) is Ok {
                lemma_kind(ts, p + 3, us, q + 3);
                if kind_at(ts, p + 3) == Kind::Num {
                    lemma_expect(ts, p + 4, us, q + 4, Kind::RBracket);
                }
            }
        }
    }
}

proof fn lemma_ref_var(ts: Seq<SpannedV>, p: int, us: Seq<SpannedV>, q: int)
    requires
        same_rest(ts, p, us, q),
    ensures
        same_parse(ts, ref_var_at(ts, p), p, ref_var_at(us, q), q),
{
    reveal(ref_var_at);
    lemma_expect(ts, p, us, q, Kind::Ref);
    if expect_at(ts, p, Kind::Ref) is Ok {
        lemma_expect(ts, p + 1, us, q + 1, Kind::Colon);
        if expect_at(ts, p + 1, Kind::Colon) is Ok {
            lemma_expect(ts, p + 2, us, q + 2, Kind::Var);
            if expect_at(ts, p + 2, Kind::Var) is Ok {
                lemma_expect(ts, p + 3, us, q + 3, Kind::Colon);
                if expect_at(ts, p + 3, Kind::Colon) is Ok {
                    lemma_type(ts, p + 4, us, q + 4);
                    if let Ok((ty, p5)) = type_at(ts, p + 4) {
                        let q5 = type_at(us, q + 4)->Ok_0.1;
                        lemma_go(ts, p + 4, us, q + 4, p5, q5);
                        lemma_precision(ts, p5, us, q5, ty);
                        if let Ok((_, p6)) = precision_at(ts, p5, ty) {
                            let q6 = precision_at(us, q5, ty)->Ok_0.1;
                            lemma_go(ts, p5, us, q5, p6, q6);
                            lemma_names(ts, p6, us, q6);
                        }
                    }
                }
            }
        }
    }
}

proof fn lemma_starts_call(ts: Seq<SpannedV>, p: int, us: Seq<SpannedV>, q: int)
    requires
        same_rest(ts, p, us, q),
    ensures
        starts_call(ts, p) == starts_call(us, q),
{
    lemma_kind(ts, p, us, q);
    assert(ts.skip(p).len() == us.skip(q).len());
    if p + 2 < ts.len() {
        lemma_rest(ts, p, us, q, 2);
    }
}

proof fn lemma_call_head(ts: Seq<SpannedV>, p: int, us: Seq<SpannedV>, q: int)
    requires
        same_rest(ts, p, us, q),
    ensures
        same_parse(ts, call_head_at(ts, p), p, call_head_at(us, q), q),
{
    reveal(call_head_at);
    lemma_kind(ts, p, us, q);
    if kind_at(ts, p) == Kind::Activate {
        lemma_names(ts, p + 1, us, q + 1);
        if quoted_at(ts, p + 1) is Ok {
            lemma_expect(ts, p + 2, us, q + 2, Kind::Star);
        }
    } else {
        lemma_expect(ts, p, us, q, Kind::Ref);
        if expect_at(ts, p, Kind::Ref) is Ok {
            lemma_expect(ts, p + 1, us, q + 1, Kind::Colon);
            if expect_at(ts, p + 1, Kind::Colon) is Ok {
                lemma_expect(ts, p + 2, us, q + 2, Kind::Func);
                if expect_at(ts, p + 2, Kind::Func) is Ok {
                    lemma_names(ts, p + 3, us, q + 3);
                    if quoted_at(ts, p + 3) is Ok {
                        lemma_expect(ts, p + 4, us, q + 4, Kind::Star);
                    }
                }
            }
        }
    }
}

/// An expression means the same wherever it stands: it depends on the tokens from its start on
/// only.
pub proof fn expressions_mean_the_same_anywhere(ts: Seq<SpannedV>, p: int, us: Seq<SpannedV>, q: int)
    requires
        same_rest(ts, p, us, q),
    ensures
        same_parse(ts, expr_at(ts, p), p, expr_at(us, q), q),
    decreases ts.len() - p, 20int,
{
    lemma_level(ts, p, us, q, 0);
}

proof fn lemma_level(ts: Seq<SpannedV>, p: int, us: Seq<SpannedV>, q: int, level: int)
    requires
        same_rest(ts, p, us, q),
    ensures
        same_parse(ts, level_at(ts, p, level), p, level_at(us, q, level), q),
    decreases ts.len() - p, if 0 <= level < 7 { 18 - level } else { 10 },
{
    if level < 0 || level >= 7 {
        lemma_power(ts, p, us, q);
    } else {
        lemma_level(ts, p, us, q, level + 1);
        if let Ok((left, p1)) = level_at(ts, p, level + 1) {
            let q1 = level_at(us, q, level + 1)->Ok_0.1;
            lemma_go(ts, p, us, q, p1, q1);
            assert(ts.skip(p).len() == us.skip(q).len());
            lemma_level_rest(ts, p1, us, q1, level, left);
        }
    }
}

proof fn lemma_level_rest(ts: Seq<SpannedV>, p: int, us: Seq<SpannedV>, q: int, level: int, left: ExprV)
    requires
        same_rest(ts, p, us, q),
    ensures
        same_or_nothing(ts, level_rest(ts, p, level, left), p, level_rest(us, q, level, left), q),
    decreases ts.len() - p, 19int,
{
    lemma_kind(ts, p, us, q);
    if let Some(op) = operator(level, kind_at(ts, p)) {
        lemma_level(ts, p + 1, us, q + 1, level + 1);
        if let Ok((right, p1)) = level_at(ts, p + 1, level + 1) {
            let q1 = level_at(us, q + 1, level + 1)->Ok_0.1;
            lemma_go(ts, p + 1, us, q + 1, p1, q1);
            assert(ts.skip(p).len() == us.skip(q).len());
            lemma_level_rest(ts, p1, us, q1, level, ExprV::Binary(Box::new(left), op, Box::new(right)));
        }
    }
}

proof fn lemma_power(ts: Seq<SpannedV>, p: int, us: Seq<SpannedV>, q: int)
    requires
        same_rest(ts, p, us, q),
    ensures
        same_parse(ts, power_at(ts, p), p, power_at(us, q), q),
    decreases ts.len() - p, 9int,
{
    lemma_unary(ts, p, us, q);
    if let Ok((left, p1)) = unary_at(ts, p) {
        let q1 = unary_at(us, q)->Ok_0.1;
        lemma_go(ts, p, us, q, p1, q1);
        assert(ts.skip(p).len() == us.skip(q).len());
        if power_operator(kind_at(ts, p1)) is Some {
            lemma_kind(ts, p1, us, q1);
            lemma_power(ts, p1 + 1, us, q1 + 1);
        }
    }
}

proof fn lemma_unary(ts: Seq<SpannedV>, p: int, us: Seq<SpannedV>, q: int)
    requires
        same_rest(ts, p, us, q),
    ensures
        same_parse(ts, unary_at(ts, p), p, unary_at(us, q), q),
    decreases ts.len() - p, 8int,
{
    lemma_kind(ts, p, us, q);
    if kind_at(ts, p) == Kind::Minus || kind_at(ts, p) == Kind::Not {
        lemma_unary(ts, p + 1, us, q + 1);
    } else {
        lemma_primary(ts, p, us, q);
        if let Ok((e, p1)) = primary_at(ts, p) {
            let q1 = primary_at(us, q)->Ok_0.1;
            lemma_go(ts, p, us, q, p1, q1);
            lemma_factorials(ts, p1, us, q1, e);
        }
    }
}

proof fn lemma_factorials(ts: Seq<SpannedV>, p: int, us: Seq<SpannedV>, q: int, e: ExprV)
    requires
        same_rest(ts, p, us, q),
    ensures
        factorials(ts, p, e).0 == factorials(us, q, e).0,
        factorials(ts, p, e).1 - p == factorials(us, q, e).1 - q,
        p <= factorials(ts, p, e).1 < ts.len(),
    decreases ts.len() - p,
{
    lemma_kind(ts, p, us, q);
    if kind_at(ts, p) == Kind::Bang {
        lemma_factorials(ts, p + 1, us, q + 1, ExprV::Unary(crate::ast::UnOp::Factorial, Box::new(e)));
    }
}

proof fn lemma_primary(ts: Seq<SpannedV>, p: int, us: Seq<SpannedV>, q: int)
    requires
        same_rest(ts, p, us, q),
    ensures
        same_parse(ts, primary_at(ts, p), p, primary_at(us, q), q),
    decreases ts.len() - p, 7int,
{
    lemma_kind(ts, p, us, q);
    lemma_starts_call(ts, p, us, q);
    if kind_at(ts, p) == Kind::LParen {
        lemma_atom(ts, p + 1, us, q + 1);
        if let Ok((e, p1)) = atom_at(ts, p + 1) {
            let q1 = atom_at(us, q + 1)->Ok_0.1;
            lemma_go(ts, p + 1, us, q + 1, p1, q1);
            lemma_expect(ts, p1, us, q1, Kind::RParen);
        }
    } else if starts_call(ts, p) {
        lemma_call(ts, p, us, q);
    } else if kind_at(ts, p) == Kind::LBrace {
        lemma_list(ts, p + 1, us, q + 1, Kind::RBrace);
    }
}

proof fn lemma_call(ts: Seq<SpannedV>, p: int, us: Seq<SpannedV>, q: int)
    requires
        same_rest(ts, p, us, q),
    ensures
        same_parse(ts, call_at(ts, p), p, call_at(us, q), q),
    decreases ts.len() - p, 6int,
{
    lemma_call_head(ts, p, us, q);
    if let Ok((name, p1)) = call_head_at(ts, p) {
        let q1 = call_head_at(us, q)->Ok_0.1;
        lemma_go(ts, p, us, q, p1, q1);
        assert(ts.skip(p).len() == us.skip(q).len());
        lemma_list(ts, p1, us, q1, Kind::Star);
    }
}

proof fn lemma_list(ts: Seq<SpannedV>, p: int, us: Seq<SpannedV>, q: int, close: Kind)
    requires
        same_rest(ts, p, us, q),
        close != Kind::Eof,
    ensures
        same_parse(ts, list_at(ts, p, close), p, list_at(us, q, close), q),
    decreases ts.len() - p, 22int,
{
    lemma_kind(ts, p, us, q);
    if kind_at(ts, p) != close {
        lemma_items(ts, p, us, q, Seq::empty());
        if let Ok((es, p1)) = items_at(ts, p, Seq::empty()) {
            let q1 = items_at(us, q, Seq::empty())->Ok_0.1;
            lemma_go(ts, p, us, q, p1, q1);
            lemma_expect(ts, p1, us, q1, close);
        }
    }
}

proof fn lemma_items(ts: Seq<SpannedV>, p: int, us: Seq<SpannedV>, q: int, acc: Seq<ExprV>)
    requires
        same_rest(ts, p, us, q),
    ensures
        same_parse(ts, items_at(ts, p, acc), p, items_at(us, q, acc), q),
    decreases ts.len() - p, 21int,
{
    expressions_mean_the_same_anywhere(ts, p, us, q);
    if let Ok((e, p1)) = expr_at(ts, p) {
        let q1 = expr_at(us, q)->Ok_0.1;
        lemma_go(ts, p, us, q, p1, q1);
        assert(ts.skip(p).len() == us.skip(q).len());
        if kind_at(ts, p1) == Kind::Comma {
            lemma_kind(ts, p1, us, q1);
            lemma_items(ts, p1 + 1, us, q1 + 1, acc.push(e));
        }
    }
}

#[verifier::rlimit(50)]
proof fn lemma_atom(ts: Seq<SpannedV>, p: int, us: Seq<SpannedV>, q: int)
    requires
        same_rest(ts, p, us, q),
    ensures
        same_parse(ts, atom_at(ts, p), p, atom_at(us, q), q),
    decreases ts.len() - p, 6int,
{
    lemma_kind(ts, p, us, q);
    if kind_at(ts, p) == Kind::Ref {
        lemma_ref_var(ts, p, us, q);
        if let Ok((_, p1)) = ref_var_at(ts, p) {
            let q1 = ref_var_at(us, q)->Ok_0.1;
            lemma_go(ts, p, us, q, p1, q1);
            assert(ts.skip(p).len() == us.skip(q).len());
            if kind_at(ts, p1) == Kind::Star {
                lemma_index(ts, p1, us, q1);
            }
        }
    } else if kind_at(ts, p) == Kind::Length {
        lemma_expect(ts, p + 1, us, q + 1, Kind::Star);
        if expect_at(ts, p + 1, Kind::Star) is Ok {
            lemma_length(ts, p + 2, us, q + 2);
            if let Ok((_, p1)) = length_at(ts, p + 2) {
                let q1 = length_at(us, q + 2)->Ok_0.1;
                lemma_go(ts, p + 2, us, q + 2, p1, q1);
                lemma_expect(ts, p1, us, q1, Kind::Star);
            }
        }
    }
}

proof fn lemma_length(ts: Seq<SpannedV>, p: int, us: Seq<SpannedV>, q: int)
    requires
        same_rest(ts, p, us, q),
    ensures
        same_parse(ts, length_at(ts, p), p, length_at(us, q), q),
    decreases ts.len() - p, 21int,
{
    lemma_kind(ts, p, us, q);
    lemma_starts_call(ts, p, us, q);
    lemma_ref_var(ts, p, us, q);
    expressions_mean_the_same_anywhere(ts, p, us, q);
}

proof fn lemma_index(ts: Seq<SpannedV>, p: int, us: Seq<SpannedV>, q: int)
    requires
        same_rest(ts, p, us, q),
        kind_at(ts, p) != Kind::Eof,
    ensures
        same_parse(ts, index_at(ts, p), p, index_at(us, q), q),
    decreases ts.len() - p, 21int,
{
    lemma_kind(ts, p, us, q);
    expressions_mean_the_same_anywhere(ts, p + 1, us, q + 1);
    if let Ok((_, p1)) = expr_at(ts, p + 1) {
        let q1 = expr_at(us, q + 1)->Ok_0.1;
        lemma_go(ts, p + 1, us, q + 1, p1, q1);
        lemma_expect(ts, p1, us, q1, Kind::Star);
    }
}

/// The two spellings of a call mean the same: with the same tokens behind them, `>>` and
/// `ref:func` read the same call up to the same place, or fail with the same message.
pub proof fn both_spellings_of_a_call_mean_the_same(ts: Seq<SpannedV>, p: int, us: Seq<SpannedV>, q: int)
    requires
        proper(ts, p),
        proper(us, q),
        kind_at(ts, p) == Kind::Activate,
        kind_at(us, q) == Kind::Ref,
        kind_at(us, q + 1) == Kind::Colon,
        kind_at(us, q + 2) == Kind::Func,
        ts.skip(p + 1) == us.skip(q + 3),
    ensures
        match (primary_at(ts, p), primary_at(us, q)) {
            (Ok(a), Ok(b)) => a.0 == b.0 && a.0 is Call && a.1 - (p + 1) == b.1 - (q + 3),
            (Err(m), Err(n)) => m == n,
            _ => false,
        },
{
    reveal(call_head_at);
    assert(ts.last() == ts[ts.len() - 1]);
    assert(us.last() == us[us.len() - 1]);
    assert(same_rest(ts, p + 1, us, q + 3));
    lemma_names(ts, p + 1, us, q + 3);
    if quoted_at(ts, p + 1) is Ok {
        lemma_expect(ts, p + 2, us, q + 4, Kind::Star);
        if expect_at(ts, p + 2, Kind::Star) is Ok {
            assert(ts.skip(p + 1).len() == us.skip(q + 3).len());
            lemma_list(ts, p + 3, us, q + 5, Kind::Star);
        }
    }
}

} // verus!
