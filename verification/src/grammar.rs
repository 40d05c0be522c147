//! The grammar: what a sequence of tokens means as a program.
//!
//! Each function reads a construct that starts at a position and gives the construct and the
//! position behind it, or a message that says what is wrong.

use vstd::prelude::*;
use crate::ast::{
    element_as_type, element_of, variant_name, type_text, BinOp, ExprV, FunctionV, ParamV, ProgramV, SegmentV, StmtV, Type, UnOp,
};
use crate::lexer::SpannedV;
use crate::numeral::{decimal, is_whole, shown, whole_value};
use crate::numw::numw_value;
use crate::token::{kind_name, token_text, Kind};

verus! {

/// A construct and the position behind it, or what is wrong.
pub type Parsed<T> = Result<(T, int), Seq<char>>;

/// The kind of the token at `p`; `Eof` behind the last one.
pub open spec fn kind_at(ts: Seq<SpannedV>, p: int) -> Kind {
    if 0 <= p < ts.len() {
        ts[p].token.kind
    } else {
        Kind::Eof
    }
}

/// A message with the line of the token at `p`.
pub open spec fn located(ts: Seq<SpannedV>, p: int, what: Seq<char>) -> Seq<char> {
    "line "@ + decimal(ts[p].line) + what
}

/// A message that ends with the token at `p`.
pub open spec fn unexpected(ts: Seq<SpannedV>, p: int, what: Seq<char>) -> Seq<char> {
    located(ts, p, what + token_text(ts[p].token))
}

/// The position behind a token of kind `k`.
pub open spec fn expect_at(ts: Seq<SpannedV>, p: int, k: Kind) -> Result<int, Seq<char>> {
    if kind_at(ts, p) == k {
        Ok(p + 1)
    } else {
        Err(unexpected(ts, p, ": expected "@ + kind_name(k) + ", found "@))
    }
}

/// A quoted name.
pub open spec fn quoted_at(ts: Seq<SpannedV>, p: int) -> Parsed<Seq<char>> {
    if kind_at(ts, p) == Kind::Quoted {
        Ok((ts[p].token.text, p + 1))
    } else {
        Err(unexpected(ts, p, ": expected a quoted name like 'x', found "@))
    }
}

/// A word that is no keyword.
pub open spec fn ident_at(ts: Seq<SpannedV>, p: int) -> Parsed<Seq<char>> {
    if kind_at(ts, p) == Kind::Ident {
        Ok((ts[p].token.text, p + 1))
    } else {
        Err(unexpected(ts, p, ": expected identifier, found "@))
    }
}

/// Whether `q` lies behind `p` and not behind the end of the tokens.
pub open spec fn ahead(ts: Seq<SpannedV>, p: int, q: int) -> bool {
    p < q <= ts.len()
}

// ---------------------------------------------------------------------------
// Types
// ---------------------------------------------------------------------------

/// The type that a word names, at its default precision.
pub open spec fn base_type(name: Seq<char>) -> Option<Type> {
    if name == "num"@ {
        Some(Type::Num(64))
    } else if name == "numw"@ {
        Some(Type::NumW(64))
    } else if name == "bool"@ {
        Some(Type::Bool)
    } else if name == "str"@ {
        Some(Type::Str)
    } else if name == "bignum"@ {
        Some(Type::BigNum(256))
    } else if name == "bigint"@ {
        Some(Type::BigInt)
    } else if name == "file"@ {
        Some(Type::File)
    } else if name == "int"@ {
        Some(Type::Int(64))
    } else {
        None
    }
}

/// The type that a word names, as a construct that ends at `q`.
pub open spec fn named_type(name: Seq<char>, q: int) -> Parsed<Type> {
    match base_type(name) {
        Some(ty) => Ok((ty, q)),
        None => Err("unknown type '"@ + name + "'"@),
    }
}

/// A type without its precision: a word, or `array:` and a word.
#[verifier::opaque]
pub open spec fn type_at(ts: Seq<SpannedV>, p: int) -> Parsed<Type> {
    match ident_at(ts, p) {
        Err(e) => Err(e),
        Ok((name, q)) => if name == "array"@ {
            match expect_at(ts, q, Kind::Colon) {
                Err(e) => Err(e),
                Ok(q) => match ident_at(ts, q) {
                    Err(e) => Err(e),
                    Ok((element, q)) => match named_type(element, q) {
                        Err(e) => Err(e),
                        Ok((ty, q)) => match element_of(ty) {
                            Some(e) => Ok((Type::Array(e), q)),
                            None => Err("unknown type '"@ + element + "'"@),
                        },
                    },
                },
            }
        } else {
            named_type(name, q)
        },
    }
}

/// The message about a precision for a type that has none.
pub open spec fn no_precision(ty: Type) -> Seq<char> {
    ": [precision:N] only applies to num, int or bignum, not "@ + variant_name(ty)
}

/// The type `ty` with the precision that the numeral `n` states.
pub open spec fn with_width(ty: Type, n: Seq<char>) -> Result<Type, Seq<char>> {
    let v = whole_value(n);
    match ty {
        Type::Num(_) => if is_whole(n) && (v == 16 || v == 32 || v == 64 || v == 128) {
            Ok(Type::Num(v as u32))
        } else {
            Err(": num precision must be 16, 32, 64, or 128, found "@ + shown(n))
        },
        Type::NumW(_) => if is_whole(n) && (v == 16 || v == 32 || v == 64 || v == 128) {
            Ok(Type::NumW(v as u32))
        } else {
            Err(": numw precision must be 16, 32, 64, or 128, found "@ + shown(n))
        },
        Type::Int(_) => if is_whole(n) && (v == 8 || v == 16 || v == 32 || v == 64) {
            Ok(Type::Int(v as u32))
        } else {
            Err(": int precision must be 8, 16, 32, or 64, found "@ + shown(n))
        },
        Type::BigNum(_) => if is_whole(n) && v >= 1 {
            Ok(Type::BigNum(if v <= u32::MAX { v as u32 } else { u32::MAX }))
        } else {
            Err(": bignum precision must be a positive whole number of bits, found "@ + shown(n))
        },
        _ => Err(no_precision(ty)),
    }
}

/// Whether a type has a precision to choose.
pub open spec fn has_precision(ty: Type) -> bool {
    ty is Num || ty is NumW || ty is Int || ty is BigNum
}

/// The type `ty` with a precision, which for an array is that of its elements.
pub open spec fn with_precision_of(ty: Type, n: Seq<char>) -> Result<Type, Seq<char>> {
    match ty {
        Type::Array(e) => if has_precision(element_as_type(e)) {
            match with_width(element_as_type(e), n) {
                Ok(t) => match element_of(t) {
                    Some(e2) => Ok(Type::Array(e2)),
                    None => Ok(ty),
                },
                Err(m) => Err(m),
            }
        } else {
            Err(no_precision(ty))
        },
        _ => with_width(ty, n),
    }
}

/// `ty`, or `ty` with the precision that `[precision:N]` states.
#[verifier::opaque]
pub open spec fn precision_at(ts: Seq<SpannedV>, p: int, ty: Type) -> Parsed<Type> {
    if kind_at(ts, p) != Kind::LBracket {
        Ok((ty, p))
    } else {
        match ident_at(ts, p + 1) {
            Err(e) => Err(e),
            Ok((word, q)) => if word != "precision"@ {
                Err(located(ts, p + 1, ": expected 'precision', found '"@ + word + "'"@))
            } else {
                match expect_at(ts, q, Kind::Colon) {
                    Err(e) => Err(e),
                    Ok(q) => if kind_at(ts, q) != Kind::Num {
                        Err(located(ts, p + 1, ": expected a precision number, found "@ + token_text(ts[q].token)))
                    } else {
                        match expect_at(ts, q + 1, Kind::RBracket) {
                            Err(e) => Err(e),
                            Ok(end) => match with_precision_of(ty, ts[q].token.text) {
                                Ok(t) => Ok((t, end)),
                                Err(m) => Err(located(ts, p + 1, m)),
                            },
                        }
                    },
                }
            },
        }
    }
}

/// A type with its precision behind it.
pub open spec fn full_type_at(ts: Seq<SpannedV>, p: int) -> Parsed<Type> {
    match type_at(ts, p) {
        Err(e) => Err(e),
        Ok((ty, q)) => precision_at(ts, q, ty),
    }
}

// ---------------------------------------------------------------------------
// Expressions
// ---------------------------------------------------------------------------

/// The operators that associate to the left, by level: the higher the level, the tighter the
/// operator binds.
pub open spec fn operator(level: int, k: Kind) -> Option<BinOp> {
    if level == 0 && k == Kind::OrOr {
        Some(BinOp::Or)
    } else if level == 1 && k == Kind::AndAnd {
        Some(BinOp::And)
    } else if level == 2 && k == Kind::EqEq {
        Some(BinOp::Eq)
    } else if level == 2 && k == Kind::NotEq {
        Some(BinOp::Ne)
    } else if level == 3 && k == Kind::Lt {
        Some(BinOp::Lt)
    } else if level == 3 && k == Kind::Gt {
        Some(BinOp::Gt)
    } else if level == 3 && k == Kind::LtEq {
        Some(BinOp::Le)
    } else if level == 3 && k == Kind::GtEq {
        Some(BinOp::Ge)
    } else if level == 4 && k == Kind::Concat {
        Some(BinOp::Concat)
    } else if level == 5 && k == Kind::Plus {
        Some(BinOp::Add)
    } else if level == 5 && k == Kind::Minus {
        Some(BinOp::Sub)
    } else if level == 6 && k == Kind::Mul {
        Some(BinOp::Mul)
    } else if level == 6 && k == Kind::Slash {
        Some(BinOp::Div)
    } else {
        None
    }
}

/// The two operators that associate to the right.
pub open spec fn power_operator(k: Kind) -> Option<BinOp> {
    if k == Kind::Pow {
        Some(BinOp::Pow)
    } else if k == Kind::Tetration {
        Some(BinOp::Tetration)
    } else {
        None
    }
}

/// `ref:var:TYPE 'name'`.
#[verifier::opaque]
pub open spec fn ref_var_at(ts: Seq<SpannedV>, p: int) -> Parsed<(Seq<char>, Type)> {
    match expect_at(ts, p, Kind::Ref) {
        Err(e) => Err(e),
        Ok(q) => match expect_at(ts, q, Kind::Colon) {
            Err(e) => Err(e),
            Ok(q) => match expect_at(ts, q, Kind::Var) {
                Err(e) => Err(e),
                Ok(q) => match expect_at(ts, q, Kind::Colon) {
                    Err(e) => Err(e),
                    Ok(q) => match full_type_at(ts, q) {
                        Err(e) => Err(e),
                        Ok((ty, q)) => match quoted_at(ts, q) {
                            Err(e) => Err(e),
                            Ok((name, q)) => Ok(((name, ty), q)),
                        },
                    },
                },
            },
        },
    }
}

/// Whether a call starts at `p`: `ref:func`, or its short spelling `>>`.
pub open spec fn starts_call(ts: Seq<SpannedV>, p: int) -> bool {
    kind_at(ts, p) == Kind::Activate || (kind_at(ts, p) == Kind::Ref && kind_at(ts, p + 2) == Kind::Func)
}

/// The head of a call, up to the `*` that opens its arguments: the name of the function.
#[verifier::opaque]
pub open spec fn call_head_at(ts: Seq<SpannedV>, p: int) -> Parsed<Seq<char>> {
    let open = if kind_at(ts, p) == Kind::Activate {
        Ok(p + 1)
    } else {
        match expect_at(ts, p, Kind::Ref) {
            Err(e) => Err(e),
            Ok(q) => match expect_at(ts, q, Kind::Colon) {
                Err(e) => Err(e),
                Ok(q) => expect_at(ts, q, Kind::Func),
            },
        }
    };
    match open {
        Err(e) => Err(e),
        Ok(q) => match quoted_at(ts, q) {
            Err(e) => Err(e),
            Ok((name, q)) => match expect_at(ts, q, Kind::Star) {
                Err(e) => Err(e),
                Ok(q) => Ok((name, q)),
            },
        },
    }
}

/// An expression.
pub open spec fn expr_at(ts: Seq<SpannedV>, p: int) -> Parsed<ExprV>
    decreases ts.len() - p, 20int,
{
    level_at(ts, p, 0)
}

/// An expression of operators at `level` and above.
pub open spec fn level_at(ts: Seq<SpannedV>, p: int, level: int) -> Parsed<ExprV>
    decreases ts.len() - p, if 0 <= level < 7 { 18 - level } else { 10 },
{
    if level < 0 || level >= 7 {
        power_at(ts, p)
    } else {
        match level_at(ts, p, level + 1) {
            Err(e) => Err(e),
            Ok((left, q)) => if ahead(ts, p, q) {
                level_rest(ts, q, level, left)
            } else {
                Err(Seq::empty())
            },
        }
    }
}

/// The operators at `level` and their right operands that follow `left`.
pub open spec fn level_rest(ts: Seq<SpannedV>, p: int, level: int, left: ExprV) -> Parsed<ExprV>
    decreases ts.len() - p, 19int,
{
    match operator(level, kind_at(ts, p)) {
        None => Ok((left, p)),
        Some(op) => if !(0 <= p < ts.len()) {
            Err(Seq::empty())
        } else {
            match level_at(ts, p + 1, level + 1) {
                Err(e) => Err(e),
                Ok((right, q)) => if ahead(ts, p, q) {
                    level_rest(ts, q, level, ExprV::Binary(Box::new(left), op, Box::new(right)))
                } else {
                    Err(Seq::empty())
                },
            }
        },
    }
}

/// An operand, and a power or tetration of it. These two operators associate to the right.
pub open spec fn power_at(ts: Seq<SpannedV>, p: int) -> Parsed<ExprV>
    decreases ts.len() - p, 9int,
{
    match unary_at(ts, p) {
        Err(e) => Err(e),
        Ok((left, q)) => match power_operator(kind_at(ts, q)) {
            None => Ok((left, q)),
            Some(op) => if ahead(ts, p, q) && q < ts.len() {
                match power_at(ts, q + 1) {
                    Err(e) => Err(e),
                    Ok((right, end)) => Ok((ExprV::Binary(Box::new(left), op, Box::new(right)), end)),
                }
            } else {
                Err(Seq::empty())
            },
        },
    }
}

/// `-` and `not` before an operand.
pub open spec fn unary_at(ts: Seq<SpannedV>, p: int) -> Parsed<ExprV>
    decreases ts.len() - p, 8int,
{
    if kind_at(ts, p) == Kind::Minus || kind_at(ts, p) == Kind::Not {
        let op = if kind_at(ts, p) == Kind::Minus {
            UnOp::Neg
        } else {
            UnOp::Not
        };
        if 0 <= p < ts.len() {
            match unary_at(ts, p + 1) {
                Err(e) => Err(e),
                Ok((operand, q)) => Ok((ExprV::Unary(op, Box::new(operand)), q)),
            }
        } else {
            Err(Seq::empty())
        }
    } else {
        match primary_at(ts, p) {
            Err(e) => Err(e),
            Ok((e, q)) => Ok(factorials(ts, q, e)),
        }
    }
}

/// `e` with the `!` that follow it.
pub open spec fn factorials(ts: Seq<SpannedV>, p: int, e: ExprV) -> (ExprV, int)
    decreases ts.len() - p,
{
    if kind_at(ts, p) == Kind::Bang && 0 <= p < ts.len() {
        factorials(ts, p + 1, ExprV::Unary(UnOp::Factorial, Box::new(e)))
    } else {
        (e, p)
    }
}

/// Whether a value in `( )`, a call or an array literal starts at `p`.
pub open spec fn starts_primary(ts: Seq<SpannedV>, p: int) -> bool {
    kind_at(ts, p) == Kind::LParen || starts_call(ts, p) || kind_at(ts, p) == Kind::LBrace
}

/// A value in `( )`, a call, or an array literal.
pub open spec fn primary_at(ts: Seq<SpannedV>, p: int) -> Parsed<ExprV>
    decreases ts.len() - p, 7int,
{
    if !(0 <= p < ts.len()) {
        Err(Seq::empty())
    } else if kind_at(ts, p) == Kind::LParen {
        match atom_at(ts, p + 1) {
            Err(e) => Err(e),
            Ok((e, q)) => match expect_at(ts, q, Kind::RParen) {
                Err(m) => Err(m),
                Ok(q) => Ok((e, q)),
            },
        }
    } else if starts_call(ts, p) {
        call_at(ts, p)
    } else if kind_at(ts, p) == Kind::LBrace {
        match list_at(ts, p + 1, Kind::RBrace) {
            Err(e) => Err(e),
            Ok((es, q)) => Ok((ExprV::ArrayLiteral(es), q)),
        }
    } else {
        Err(
            unexpected(
                ts,
                p,
                ": every value must be wrapped in parens -- e.g. (5), (ref:var:num 'x') -- found "@,
            ),
        )
    }
}

/// `ref:func 'name'*args*`, or `>> 'name'*args*`.
pub open spec fn call_at(ts: Seq<SpannedV>, p: int) -> Parsed<ExprV>
    decreases ts.len() - p, 6int,
{
    match call_head_at(ts, p) {
        Err(e) => Err(e),
        Ok((name, q)) => if ahead(ts, p, q) {
            match list_at(ts, q, Kind::Star) {
                Err(e) => Err(e),
                Ok((args, q)) => Ok((ExprV::Call(name, args), q)),
            }
        } else {
            Err(Seq::empty())
        },
    }
}

/// Expressions with commas between them, up to and with the token of kind `close`.
pub open spec fn list_at(ts: Seq<SpannedV>, p: int, close: Kind) -> Parsed<Seq<ExprV>>
    decreases ts.len() - p, 22int,
{
    if kind_at(ts, p) == close {
        Ok((Seq::empty(), p + 1))
    } else {
        match items_at(ts, p, Seq::empty()) {
            Err(e) => Err(e),
            Ok((es, q)) => match expect_at(ts, q, close) {
                Err(e) => Err(e),
                Ok(q) => Ok((es, q)),
            },
        }
    }
}

/// One or more expressions with commas between them, behind those in `acc`.
pub open spec fn items_at(ts: Seq<SpannedV>, p: int, acc: Seq<ExprV>) -> Parsed<Seq<ExprV>>
    decreases ts.len() - p, 21int,
{
    match expr_at(ts, p) {
        Err(e) => Err(e),
        Ok((e, q)) => if kind_at(ts, q) != Kind::Comma {
            Ok((acc.push(e), q))
        } else if ahead(ts, p, q) && q < ts.len() {
            items_at(ts, q + 1, acc.push(e))
        } else {
            Err(Seq::empty())
        },
    }
}

/// What may stand inside `( )`: one literal, one variable or element of an array, or a length.
pub open spec fn atom_at(ts: Seq<SpannedV>, p: int) -> Parsed<ExprV>
    decreases ts.len() - p, 6int,
{
    let k = kind_at(ts, p);
    if !(0 <= p < ts.len()) {
        Err(Seq::empty())
    } else if k == Kind::Num {
        Ok((ExprV::Num(ts[p].token.text), p + 1))
    } else if k == Kind::Str {
        Ok((ExprV::Str(ts[p].token.text), p + 1))
    } else if k == Kind::True {
        Ok((ExprV::Bool(true), p + 1))
    } else if k == Kind::False {
        Ok((ExprV::Bool(false), p + 1))
    } else if k == Kind::Ref {
        match ref_var_at(ts, p) {
            Err(e) => Err(e),
            Ok(((name, ty), q)) => if kind_at(ts, q) != Kind::Star {
                Ok((ExprV::Var(name, ty), q))
            } else if ahead(ts, p, q) && q < ts.len() {
                match index_at(ts, q) {
                    Err(e) => Err(e),
                    Ok((i, q)) => Ok((ExprV::ArrayIndex(name, ty, Box::new(i)), q)),
                }
            } else {
                Err(Seq::empty())
            },
        }
    } else if k == Kind::Length {
        match expect_at(ts, p + 1, Kind::Star) {
            Err(e) => Err(e),
            Ok(q) => match length_at(ts, q) {
                Err(e) => Err(e),
                Ok((array, q)) => match expect_at(ts, q, Kind::Star) {
                    Err(e) => Err(e),
                    Ok(q) => Ok((ExprV::Length(Box::new(array)), q)),
                },
            },
        }
    } else {
        Err(
            unexpected(
                ts,
                p,
                ": expected a value (a number, string, true/false, or ref:var:TYPE 'name') inside '(', found "@,
            ),
        )
    }
}

/// The array whose length is asked for: a bare reference, or an expression.
pub open spec fn length_at(ts: Seq<SpannedV>, p: int) -> Parsed<ExprV>
    decreases ts.len() - p, 21int,
{
    if kind_at(ts, p) == Kind::Ref && !starts_call(ts, p) {
        match ref_var_at(ts, p) {
            Err(e) => Err(e),
            Ok(((name, ty), q)) => Ok((ExprV::Var(name, ty), q)),
        }
    } else {
        expr_at(ts, p)
    }
}

/// `*index*`, behind the name of an array.
pub open spec fn index_at(ts: Seq<SpannedV>, p: int) -> Parsed<ExprV>
    decreases ts.len() - p, 21int,
{
    if !(0 <= p < ts.len()) {
        Err(Seq::empty())
    } else {
        match expr_at(ts, p + 1) {
            Err(e) => Err(e),
            Ok((i, q)) => match expect_at(ts, q, Kind::Star) {
                Err(e) => Err(e),
                Ok(q) => Ok((i, q)),
            },
        }
    }
}

// ---------------------------------------------------------------------------
// Statements
// ---------------------------------------------------------------------------

/// A value for a variable of type `ty`: an expression or, for `numw`, a quoted number word.
pub open spec fn value_at(ts: Seq<SpannedV>, p: int, ty: Type) -> Parsed<ExprV> {
    if ty is NumW && kind_at(ts, p) == Kind::Quoted {
        match numw_value(ts[p].token.text) {
            Ok(t) => Ok((ExprV::Num(t), p + 1)),
            Err(e) => Err(located(ts, p, ": "@ + e)),
        }
    } else {
        expr_at(ts, p)
    }
}

/// `[word*expr*]`.
pub open spec fn clause_at(ts: Seq<SpannedV>, p: int, word: Seq<char>) -> Parsed<ExprV> {
    match expect_at(ts, p, Kind::LBracket) {
        Err(e) => Err(e),
        Ok(q) => match ident_at(ts, q) {
            Err(e) => Err(e),
            Ok((w, q)) => if w != word {
                Err(located(ts, p + 1, ": expected '"@ + word + "', found '"@ + w + "'"@))
            } else {
                match expect_at(ts, q, Kind::Star) {
                    Err(e) => Err(e),
                    Ok(q) => match expr_at(ts, q) {
                        Err(e) => Err(e),
                        Ok((e, q)) => match expect_at(ts, q, Kind::Star) {
                            Err(m) => Err(m),
                            Ok(q) => match expect_at(ts, q, Kind::RBracket) {
                                Err(m) => Err(m),
                                Ok(q) => Ok((e, q)),
                            },
                        },
                    },
                }
            },
        },
    }
}

/// `[word*expr*]`, or nothing.
pub open spec fn optional_clause_at(ts: Seq<SpannedV>, p: int, word: Seq<char>) -> Parsed<Option<ExprV>> {
    if kind_at(ts, p) == Kind::LBracket {
        match clause_at(ts, p, word) {
            Err(e) => Err(e),
            Ok((e, q)) => Ok((Some(e), q)),
        }
    } else {
        Ok((None, p))
    }
}

/// Whether an expression can start with a token of kind `k`.
pub open spec fn starts_expr(k: Kind) -> bool {
    k == Kind::LParen || k == Kind::Ref || k == Kind::Activate || k == Kind::Minus || k == Kind::Not || k == Kind::LBrace
}

/// The pieces of a `print`, behind those in `acc`, up to the `*` that closes them.
pub open spec fn segments_at(ts: Seq<SpannedV>, p: int, acc: Seq<SegmentV>) -> Parsed<Seq<SegmentV>>
    decreases ts.len() - p,
{
    let k = kind_at(ts, p);
    if !(0 <= p < ts.len()) {
        Err(Seq::empty())
    } else if k == Kind::Str {
        segments_at(ts, p + 1, acc.push(SegmentV::Str(ts[p].token.text)))
    } else if starts_expr(k) {
        match expr_at(ts, p) {
            Err(e) => Err(e),
            Ok((e, q)) => if ahead(ts, p, q) {
                segments_at(ts, q, acc.push(SegmentV::Expr(e)))
            } else {
                Err(Seq::empty())
            },
        }
    } else if k == Kind::Star {
        Ok((acc, p))
    } else {
        Err(unexpected(ts, p, ": expected a \"literal\", a value, or the closing '*', found "@))
    }
}

/// `*segments*`.
pub open spec fn bracketed_segments_at(ts: Seq<SpannedV>, p: int) -> Parsed<Seq<SegmentV>> {
    match expect_at(ts, p, Kind::Star) {
        Err(e) => Err(e),
        Ok(q) => match segments_at(ts, q, Seq::empty()) {
            Err(e) => Err(e),
            Ok((s, q)) => match expect_at(ts, q, Kind::Star) {
                Err(e) => Err(e),
                Ok(q) => Ok((s, q)),
            },
        },
    }
}

/// The statement `s`, which a semicolon at `p` ends.
pub open spec fn ended(ts: Seq<SpannedV>, p: int, s: StmtV) -> Parsed<StmtV> {
    match expect_at(ts, p, Kind::Semicolon) {
        Err(e) => Err(e),
        Ok(q) => Ok((s, q)),
    }
}

/// `var:TYPE 'name' = value [precision:N];`, from the token behind `var` on.
pub open spec fn var_decl_at(ts: Seq<SpannedV>, p: int) -> Parsed<StmtV> {
    match expect_at(ts, p, Kind::Colon) {
        Err(e) => Err(e),
        Ok(q) => match type_at(ts, q) {
            Err(e) => Err(e),
            Ok((ty, q)) => match quoted_at(ts, q) {
                Err(e) => Err(e),
                Ok((name, q)) => match expect_at(ts, q, Kind::Eq) {
                    Err(e) => Err(e),
                    Ok(q) => match value_at(ts, q, ty) {
                        Err(e) => Err(e),
                        Ok((value, q)) => match precision_at(ts, q, ty) {
                            Err(e) => Err(e),
                            Ok((ty, q)) => ended(ts, q, StmtV::VarDecl(name, ty, value)),
                        },
                    },
                },
            },
        },
    }
}

/// `input:TYPE 'name' [from*(source)*];`, whose `input` stands at `p`.
pub open spec fn input_at(ts: Seq<SpannedV>, p: int) -> Parsed<StmtV> {
    match expect_at(ts, p + 1, Kind::Colon) {
        Err(e) => Err(e),
        Ok(q) => match full_type_at(ts, q) {
            Err(e) => Err(e),
            Ok((ty, q)) => if !(ty is Str || ty is Num) {
                Err(located(ts, p, ": input: doesn't support "@ + type_text(ty) + " yet (only str and num)"@))
            } else {
                match quoted_at(ts, q) {
                    Err(e) => Err(e),
                    Ok((name, q)) => match optional_clause_at(ts, q, "from"@) {
                        Err(e) => Err(e),
                        Ok((source, q)) => ended(ts, q, StmtV::Input(name, ty, source)),
                    },
                }
            },
        },
    }
}

/// `clock:num 'name';`, whose `clock` stands at `p`.
pub open spec fn clock_at(ts: Seq<SpannedV>, p: int) -> Parsed<StmtV> {
    match expect_at(ts, p + 1, Kind::Colon) {
        Err(e) => Err(e),
        Ok(q) => match full_type_at(ts, q) {
            Err(e) => Err(e),
            Ok((ty, q)) => if !(ty is Num) {
                Err(located(ts, p, ": clock: doesn't support "@ + type_text(ty) + " yet (only num)"@))
            } else {
                match quoted_at(ts, q) {
                    Err(e) => Err(e),
                    Ok((name, q)) => ended(ts, q, StmtV::Clock(name, ty)),
                }
            },
        },
    }
}

/// The type that a value has to fit when it is stored in an element of an array of type `ty`.
pub open spec fn stored_type(ty: Type) -> Type {
    match ty {
        Type::Array(e) => element_as_type(e),
        _ => ty,
    }
}

/// A statement that starts with `ref:var`: an assignment to a variable or to an element of an
/// array, or a reference on its own.
pub open spec fn ref_stmt_at(ts: Seq<SpannedV>, p: int) -> Parsed<StmtV> {
    match ref_var_at(ts, p) {
        Err(e) => Err(e),
        Ok(((name, ty), q)) => if kind_at(ts, q) == Kind::Eq {
            match value_at(ts, q + 1, ty) {
                Err(e) => Err(e),
                Ok((value, q)) => ended(ts, q, StmtV::Assign(name, ty, value)),
            }
        } else if kind_at(ts, q) == Kind::Star {
            match index_at(ts, q) {
                Err(e) => Err(e),
                Ok((index, q)) => match expect_at(ts, q, Kind::Eq) {
                    Err(e) => Err(e),
                    Ok(q) => match value_at(ts, q, stored_type(ty)) {
                        Err(e) => Err(e),
                        Ok((value, q)) => ended(ts, q, StmtV::ArrayIndexAssign(name, ty, index, value)),
                    },
                },
            }
        } else {
            ended(ts, q, StmtV::ExprStmt(ExprV::Var(name, ty)))
        },
    }
}

/// `return;` or `return value;`, from the token behind `return` on.
pub open spec fn return_at(ts: Seq<SpannedV>, p: int) -> Parsed<StmtV> {
    if kind_at(ts, p) == Kind::Semicolon {
        Ok((StmtV::Return(None), p + 1))
    } else {
        match expr_at(ts, p) {
            Err(e) => Err(e),
            Ok((value, q)) => ended(ts, q, StmtV::Return(Some(value))),
        }
    }
}

/// `print*segments* [to*(dest)*];`, from the token behind `print` on.
pub open spec fn print_at(ts: Seq<SpannedV>, p: int) -> Parsed<StmtV> {
    match bracketed_segments_at(ts, p) {
        Err(e) => Err(e),
        Ok((segments, q)) => match optional_clause_at(ts, q, "to"@) {
            Err(e) => Err(e),
            Ok((dest, q)) => ended(ts, q, StmtV::Print(segments, dest)),
        },
    }
}

/// `overwrite*segments* [to*(dest)*];`, from the token behind `overwrite` on.
pub open spec fn overwrite_at(ts: Seq<SpannedV>, p: int) -> Parsed<StmtV> {
    match bracketed_segments_at(ts, p) {
        Err(e) => Err(e),
        Ok((segments, q)) => match clause_at(ts, q, "to"@) {
            Err(e) => Err(e),
            Ok((dest, q)) => ended(ts, q, StmtV::Overwrite(segments, dest)),
        },
    }
}

/// `read*(source)*;`, from the token behind `read` on.
pub open spec fn read_at(ts: Seq<SpannedV>, p: int) -> Parsed<StmtV> {
    match expect_at(ts, p, Kind::Star) {
        Err(e) => Err(e),
        Ok(q) => match expr_at(ts, q) {
            Err(e) => Err(e),
            Ok((source, q)) => match expect_at(ts, q, Kind::Star) {
                Err(e) => Err(e),
                Ok(q) => ended(ts, q, StmtV::Read(source)),
            },
        },
    }
}

/// `append*(array), (value)*;`, from the token behind `append` on.
pub open spec fn append_at(ts: Seq<SpannedV>, p: int) -> Parsed<StmtV> {
    match expect_at(ts, p, Kind::Star) {
        Err(e) => Err(e),
        Ok(q) => match expr_at(ts, q) {
            Err(e) => Err(e),
            Ok((array, q)) => match expect_at(ts, q, Kind::Comma) {
                Err(e) => Err(e),
                Ok(q) => match expr_at(ts, q) {
                    Err(e) => Err(e),
                    Ok((value, q)) => match expect_at(ts, q, Kind::Star) {
                        Err(e) => Err(e),
                        Ok(q) => ended(ts, q, StmtV::Append(array, value)),
                    },
                },
            },
        },
    }
}

/// A statement.
pub open spec fn stmt_at(ts: Seq<SpannedV>, p: int) -> Parsed<StmtV>
    decreases ts.len() - p, 0int,
{
    let k = kind_at(ts, p);
    if !(0 <= p < ts.len()) {
        Err(Seq::empty())
    } else if k == Kind::Var {
        var_decl_at(ts, p + 1)
    } else if k == Kind::Input {
        input_at(ts, p)
    } else if k == Kind::Clock {
        clock_at(ts, p)
    } else if starts_call(ts, p) {
        match call_at(ts, p) {
            Err(e) => Err(e),
            Ok((call, q)) => ended(ts, q, StmtV::ExprStmt(call)),
        }
    } else if k == Kind::Ref {
        ref_stmt_at(ts, p)
    } else if k == Kind::Return {
        return_at(ts, p + 1)
    } else if k == Kind::Print {
        print_at(ts, p + 1)
    } else if k == Kind::Overwrite {
        overwrite_at(ts, p + 1)
    } else if k == Kind::Read {
        read_at(ts, p + 1)
    } else if k == Kind::Append {
        append_at(ts, p + 1)
    } else if k == Kind::If {
        match expr_at(ts, p + 1) {
            Err(e) => Err(e),
            Ok((cond, q)) => if !ahead(ts, p, q) {
                Err(Seq::empty())
            } else {
                match block_at(ts, q) {
                    Err(e) => Err(e),
                    Ok((then_block, q)) => if kind_at(ts, q) != Kind::Else {
                        Ok((StmtV::If(cond, then_block, None), q))
                    } else if ahead(ts, p, q) && q < ts.len() {
                        match block_at(ts, q + 1) {
                            Err(e) => Err(e),
                            Ok((else_block, q)) => Ok((StmtV::If(cond, then_block, Some(else_block)), q)),
                        }
                    } else {
                        Err(Seq::empty())
                    },
                }
            },
        }
    } else if k == Kind::While {
        match expr_at(ts, p + 1) {
            Err(e) => Err(e),
            Ok((cond, q)) => if !ahead(ts, p, q) {
                Err(Seq::empty())
            } else {
                match block_at(ts, q) {
                    Err(e) => Err(e),
                    Ok((body, q)) => Ok((StmtV::While(cond, body), q)),
                }
            },
        }
    } else {
        match expr_at(ts, p) {
            Err(e) => Err(e),
            Ok((e, q)) => ended(ts, q, StmtV::ExprStmt(e)),
        }
    }
}

/// Statements up to, and without, the token of kind `close`, behind those in `acc`.
pub open spec fn stmts_at(ts: Seq<SpannedV>, p: int, close: Kind, acc: Seq<StmtV>) -> Parsed<Seq<StmtV>>
    decreases ts.len() - p, 1int,
{
    if kind_at(ts, p) == close {
        Ok((acc, p))
    } else {
        match stmt_at(ts, p) {
            Err(e) => Err(e),
            Ok((s, q)) => if ahead(ts, p, q) {
                stmts_at(ts, q, close, acc.push(s))
            } else {
                Err(Seq::empty())
            },
        }
    }
}

/// `{ statements }`.
pub open spec fn block_at(ts: Seq<SpannedV>, p: int) -> Parsed<Seq<StmtV>>
    decreases ts.len() - p, 0int,
{
    if !(0 <= p < ts.len()) {
        Err(Seq::empty())
    } else {
        match expect_at(ts, p, Kind::LBrace) {
            Err(e) => Err(e),
            Ok(q) => match stmts_at(ts, q, Kind::RBrace, Seq::empty()) {
                Err(e) => Err(e),
                Ok((b, q)) => match expect_at(ts, q, Kind::RBrace) {
                    Err(e) => Err(e),
                    Ok(q) => Ok((b, q)),
                },
            },
        }
    }
}

// ---------------------------------------------------------------------------
// Programs
// ---------------------------------------------------------------------------

/// One or more parameters with commas between them, behind those in `acc`.
pub open spec fn params_at(ts: Seq<SpannedV>, p: int, acc: Seq<ParamV>) -> Parsed<Seq<ParamV>>
    decreases ts.len() - p,
{
    match quoted_at(ts, p) {
        Err(e) => Err(e),
        Ok((name, q)) => match expect_at(ts, q, Kind::Colon) {
            Err(e) => Err(e),
            Ok(q) => match full_type_at(ts, q) {
                Err(e) => Err(e),
                Ok((ty, q)) => if kind_at(ts, q) != Kind::Comma {
                    Ok((acc.push(ParamV { name, ty }), q))
                } else if ahead(ts, p, q) && q < ts.len() {
                    params_at(ts, q + 1, acc.push(ParamV { name, ty }))
                } else {
                    Err(Seq::empty())
                },
            },
        },
    }
}

/// The parameters of a function, up to and with the `*` that closes them.
pub open spec fn param_list_at(ts: Seq<SpannedV>, p: int) -> Parsed<Seq<ParamV>> {
    if kind_at(ts, p) == Kind::Star {
        Ok((Seq::empty(), p + 1))
    } else {
        match params_at(ts, p, Seq::empty()) {
            Err(e) => Err(e),
            Ok((params, q)) => match expect_at(ts, q, Kind::Star) {
                Err(e) => Err(e),
                Ok(q) => Ok((params, q)),
            },
        }
    }
}

/// `-> TYPE`, or nothing, which means `Void`.
pub open spec fn return_type_at(ts: Seq<SpannedV>, p: int) -> Parsed<Type> {
    if kind_at(ts, p) == Kind::Arrow {
        full_type_at(ts, p + 1)
    } else {
        Ok((Type::Void, p))
    }
}

/// `func 'name'*params* -> TYPE { statements }`.
#[verifier::opaque]
pub open spec fn function_at(ts: Seq<SpannedV>, p: int) -> Parsed<FunctionV> {
    match expect_at(ts, p, Kind::Func) {
        Err(e) => Err(e),
        Ok(q) => match quoted_at(ts, q) {
            Err(e) => Err(e),
            Ok((name, q)) => match expect_at(ts, q, Kind::Star) {
                Err(e) => Err(e),
                Ok(q) => match param_list_at(ts, q) {
                    Err(e) => Err(e),
                    Ok((params, q)) => match return_type_at(ts, q) {
                        Err(e) => Err(e),
                        Ok((return_type, q)) => match block_at(ts, q) {
                            Err(e) => Err(e),
                            Ok((body, q)) => Ok((FunctionV { name, params, return_type, body }, q)),
                        },
                    },
                },
            },
        },
    }
}

/// `START statements END`.
#[verifier::opaque]
pub open spec fn entry_at(ts: Seq<SpannedV>, p: int) -> Parsed<Seq<StmtV>> {
    match expect_at(ts, p, Kind::Start) {
        Err(e) => Err(e),
        Ok(q) => match stmts_at(ts, q, Kind::End, Seq::empty()) {
            Err(e) => Err(e),
            Ok((b, q)) => match expect_at(ts, q, Kind::End) {
                Err(e) => Err(e),
                Ok(q) => Ok((b, q)),
            },
        },
    }
}

/// `linkto*("path")*;`.
#[verifier::opaque]
pub open spec fn link_at(ts: Seq<SpannedV>, p: int) -> Parsed<Seq<char>> {
    match expect_at(ts, p, Kind::LinkTo) {
        Err(e) => Err(e),
        Ok(q) => match expect_at(ts, q, Kind::Star) {
            Err(e) => Err(e),
            Ok(q) => match expect_at(ts, q, Kind::LParen) {
                Err(e) => Err(e),
                Ok(q) => if kind_at(ts, q) != Kind::Str {
                    Err(unexpected(ts, q, ": linkto*(...)*; expects a literal string, found "@))
                } else {
                    match expect_at(ts, q + 1, Kind::RParen) {
                        Err(e) => Err(e),
                        Ok(r) => match expect_at(ts, r, Kind::Star) {
                            Err(e) => Err(e),
                            Ok(r) => match expect_at(ts, r, Kind::Semicolon) {
                                Err(e) => Err(e),
                                Ok(r) => Ok((ts[q].token.text, r)),
                            },
                        },
                    }
                },
            },
        },
    }
}

/// The rest of a program from `p` on, behind the parts that came before: functions, at most one
/// entry block and at most one link, in any order. A program has an entry block.
pub open spec fn program_from(
    ts: Seq<SpannedV>,
    p: int,
    functions: Seq<FunctionV>,
    entry: Option<Seq<StmtV>>,
    link_to: Option<Seq<char>>,
) -> Result<ProgramV, Seq<char>>
    decreases ts.len() - p,
{
    let k = kind_at(ts, p);
    if k == Kind::Eof {
        match entry {
            Some(entry) => Ok(ProgramV { functions, entry, link_to }),
            None => Err("program is missing a START...END entry point"@),
        }
    } else if !(0 <= p < ts.len()) {
        Err(Seq::empty())
    } else if k == Kind::Func {
        match function_at(ts, p) {
            Err(e) => Err(e),
            Ok((f, q)) => if ahead(ts, p, q) {
                program_from(ts, q, functions.push(f), entry, link_to)
            } else {
                Err(Seq::empty())
            },
        }
    } else if k == Kind::Start {
        if entry is Some {
            Err(located(ts, p, ": only one START...END block is allowed"@))
        } else {
            match entry_at(ts, p) {
                Err(e) => Err(e),
                Ok((b, q)) => if ahead(ts, p, q) {
                    program_from(ts, q, functions, Some(b), link_to)
                } else {
                    Err(Seq::empty())
                },
            }
        }
    } else if k == Kind::LinkTo {
        if link_to is Some {
            Err(located(ts, p, ": only one linkto*(...)*; directive is allowed"@))
        } else {
            match link_at(ts, p) {
                Err(e) => Err(e),
                Ok((path, q)) => if ahead(ts, p, q) {
                    program_from(ts, q, functions, entry, Some(path))
                } else {
                    Err(Seq::empty())
                },
            }
        }
    } else {
        Err(unexpected(ts, p, ": expected 'func', 'linkto', or 'START', found "@))
    }
}

/// The program that the tokens spell, or what is wrong with them.
pub open spec fn program_of(ts: Seq<SpannedV>) -> Result<ProgramV, Seq<char>> {
    program_from(ts, 0, Seq::empty(), None, None)
}

} // verus!
