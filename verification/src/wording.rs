//! Tokens as source text: each token is scanned from the text that it is written with, so that a program
//! that is written down as text is read back as it was.

use vstd::prelude::*;
use crate::ast::{binop_text, BinOp, ProgramV};
use crate::grammar::{operator, power_operator, program_of};
use crate::lexer::{
    bare, in_word, line_at, next, numeral_end, quote_end, scan, skip, string_from, tokens_from, tokens_of, unescape,
    word_end, word_token, SpannedV,
};
use crate::lexer_laws::{is_numeral, lemma_group_of_digits, lemma_no_commas_of_none};
use crate::numeral::{fraction_part, is_digit, lemma_point_from, point_from, whole_part};
use crate::reading::{programs_are_read_back, spell_program, writable_program};
use crate::spelling::{op_kind, stand_at};
use crate::text::{alphabetic, alphanumeric, ascii_letter, whitespace};
use crate::token::{keyword, Kind, TokenV};

verus! {

/// Of the ASCII characters the letters are alphabetic, and the letters and digits are alphanumeric.
pub open spec fn ascii_classes() -> bool {
    &&& forall|c: char| (c as int) < 128 ==> (#[trigger] alphabetic(c) <==> ascii_letter(c))
    &&& forall|c: char|
        (c as int) < 128 ==> (#[trigger] alphanumeric(c) <==> (ascii_letter(c) || '0' <= c <= '9'))
}

/// The text of a token that carries none: a keyword or a symbol.
pub open spec fn spelling(k: Kind) -> Seq<char> {
    match k {
        Kind::Fn => "fn"@,
        Kind::Var => "var"@,
        Kind::Ref => "ref"@,
        Kind::Func => "func"@,
        Kind::If => "if"@,
        Kind::Else => "else"@,
        Kind::While => "while"@,
        Kind::Return => "return"@,
        Kind::True => "true"@,
        Kind::False => "false"@,
        Kind::Print => "print"@,
        Kind::Overwrite => "overwrite"@,
        Kind::Input => "input"@,
        Kind::Read => "read"@,
        Kind::Clock => "clock"@,
        Kind::Append => "append"@,
        Kind::Length => "length"@,
        Kind::LinkTo => "linkto"@,
        Kind::Start => "START"@,
        Kind::End => "END"@,
        Kind::Not => "not"@,
        Kind::Concat => "stch"@,
        Kind::Mul => "x"@,
        Kind::Pow => "xx"@,
        Kind::Tetration => "xxx"@,
        Kind::LParen => "("@,
        Kind::RParen => ")"@,
        Kind::LBrace => "{"@,
        Kind::RBrace => "}"@,
        Kind::LBracket => "["@,
        Kind::RBracket => "]"@,
        Kind::Comma => ","@,
        Kind::Colon => ":"@,
        Kind::Semicolon => ";"@,
        Kind::Plus => "+"@,
        Kind::Minus => "-"@,
        Kind::Star => "*"@,
        Kind::Slash => "/"@,
        Kind::Eq => "="@,
        Kind::Bang => "!"@,
        Kind::Lt => "<"@,
        Kind::Gt => ">"@,
        Kind::Arrow => "->"@,
        Kind::EqEq => "=="@,
        Kind::NotEq => "not="@,
        Kind::LtEq => "<="@,
        Kind::GtEq => ">="@,
        Kind::AndAnd => "&&"@,
        Kind::OrOr => "||"@,
        Kind::Activate => ">>"@,
        _ => Seq::empty(),
    }
}

/// Whether a token is a keyword.
pub open spec fn is_keyword(k: Kind) -> bool {
    match k {
        Kind::Fn
        | Kind::Var
        | Kind::Ref
        | Kind::Func
        | Kind::If
        | Kind::Else
        | Kind::While
        | Kind::Return
        | Kind::True
        | Kind::False
        | Kind::Print
        | Kind::Overwrite
        | Kind::Input
        | Kind::Read
        | Kind::Clock
        | Kind::Append
        | Kind::Length
        | Kind::LinkTo
        | Kind::Start
        | Kind::End
        | Kind::Not
        | Kind::Concat
        | Kind::Mul
        | Kind::Pow
        | Kind::Tetration => true,
        _ => false,
    }
}

proof fn lemma_keywords_of_one(s: Seq<char>)
    requires
        s.len() == 1,
    ensures
        s == "x"@ ==> keyword(s) == Some(Kind::Mul),
{
    reveal_strlit("fn");
    reveal_strlit("var");
    reveal_strlit("ref");
    reveal_strlit("func");
    reveal_strlit("if");
    reveal_strlit("else");
    reveal_strlit("while");
    reveal_strlit("return");
    reveal_strlit("true");
    reveal_strlit("false");
    reveal_strlit("print");
    reveal_strlit("overwrite");
    reveal_strlit("input");
    reveal_strlit("read");
    reveal_strlit("clock");
    reveal_strlit("append");
    reveal_strlit("length");
    reveal_strlit("linkto");
    reveal_strlit("START");
    reveal_strlit("END");
    reveal_strlit("not");
    reveal_strlit("stch");
    reveal_strlit("x");
    reveal_strlit("xx");
    reveal_strlit("xxx");
}

proof fn lemma_keywords_of_two(s: Seq<char>)
    requires
        s.len() == 2,
    ensures
        s == "fn"@ ==> keyword(s) == Some(Kind::Fn),
        s == "if"@ ==> keyword(s) == Some(Kind::If),
        s == "xx"@ ==> keyword(s) == Some(Kind::Pow),
{
    reveal_strlit("fn");
    reveal_strlit("var");
    reveal_strlit("ref");
    reveal_strlit("func");
    reveal_strlit("if");
    reveal_strlit("else");
    reveal_strlit("while");
    reveal_strlit("return");
    reveal_strlit("true");
    reveal_strlit("false");
    reveal_strlit("print");
    reveal_strlit("overwrite");
    reveal_strlit("input");
    reveal_strlit("read");
    reveal_strlit("clock");
    reveal_strlit("append");
    reveal_strlit("length");
    reveal_strlit("linkto");
    reveal_strlit("START");
    reveal_strlit("END");
    reveal_strlit("not");
    reveal_strlit("stch");
    reveal_strlit("x");
    reveal_strlit("xx");
    reveal_strlit("xxx");
    assert("if"@[0] != "fn"@[0]);
    assert("xx"@[0] != "fn"@[0]);
    assert("xx"@[0] != "if"@[0]);
}

proof fn lemma_keywords_of_three(s: Seq<char>)
    requires
        s.len() == 3,
    ensures
        s == "var"@ ==> keyword(s) == Some(Kind::Var),
        s == "ref"@ ==> keyword(s) == Some(Kind::Ref),
        s == "END"@ ==> keyword(s) == Some(Kind::End),
        s == "not"@ ==> keyword(s) == Some(Kind::Not),
        s == "xxx"@ ==> keyword(s) == Some(Kind::Tetration),
{
    reveal_strlit("fn");
    reveal_strlit("var");
    reveal_strlit("ref");
    reveal_strlit("func");
    reveal_strlit("if");
    reveal_strlit("else");
    reveal_strlit("while");
    reveal_strlit("return");
    reveal_strlit("true");
    reveal_strlit("false");
    reveal_strlit("print");
    reveal_strlit("overwrite");
    reveal_strlit("input");
    reveal_strlit("read");
    reveal_strlit("clock");
    reveal_strlit("append");
    reveal_strlit("length");
    reveal_strlit("linkto");
    reveal_strlit("START");
    reveal_strlit("END");
    reveal_strlit("not");
    reveal_strlit("stch");
    reveal_strlit("x");
    reveal_strlit("xx");
    reveal_strlit("xxx");
    assert("ref"@[0] != "var"@[0]);
    assert("END"@[0] != "var"@[0]);
    assert("END"@[0] != "ref"@[0]);
    assert("not"@[0] != "var"@[0]);
    assert("not"@[0] != "ref"@[0]);
    assert("not"@[0] != "END"@[0]);
    assert("xxx"@[0] != "var"@[0]);
    assert("xxx"@[0] != "ref"@[0]);
    assert("xxx"@[0] != "END"@[0]);
    assert("xxx"@[0] != "not"@[0]);
}

proof fn lemma_keywords_of_four(s: Seq<char>)
    requires
        s.len() == 4,
    ensures
        s == "func"@ ==> keyword(s) == Some(Kind::Func),
        s == "else"@ ==> keyword(s) == Some(Kind::Else),
        s == "true"@ ==> keyword(s) == Some(Kind::True),
        s == "read"@ ==> keyword(s) == Some(Kind::Read),
        s == "stch"@ ==> keyword(s) == Some(Kind::Concat),
{
    reveal_strlit("fn");
    reveal_strlit("var");
    reveal_strlit("ref");
    reveal_strlit("func");
    reveal_strlit("if");
    reveal_strlit("else");
    reveal_strlit("while");
    reveal_strlit("return");
    reveal_strlit("true");
    reveal_strlit("false");
    reveal_strlit("print");
    reveal_strlit("overwrite");
    reveal_strlit("input");
    reveal_strlit("read");
    reveal_strlit("clock");
    reveal_strlit("append");
    reveal_strlit("length");
    reveal_strlit("linkto");
    reveal_strlit("START");
    reveal_strlit("END");
    reveal_strlit("not");
    reveal_strlit("stch");
    reveal_strlit("x");
    reveal_strlit("xx");
    reveal_strlit("xxx");
    assert("else"@[0] != "func"@[0]);
    assert("true"@[0] != "func"@[0]);
    assert("true"@[0] != "else"@[0]);
    assert("read"@[0] != "func"@[0]);
    assert("read"@[0] != "else"@[0]);
    assert("read"@[0] != "true"@[0]);
    assert("stch"@[0] != "func"@[0]);
    assert("stch"@[0] != "else"@[0]);
    assert("stch"@[0] != "true"@[0]);
    assert("stch"@[0] != "read"@[0]);
}

proof fn lemma_keywords_of_five(s: Seq<char>)
    requires
        s.len() == 5,
    ensures
        s == "while"@ ==> keyword(s) == Some(Kind::While),
        s == "false"@ ==> keyword(s) == Some(Kind::False),
        s == "print"@ ==> keyword(s) == Some(Kind::Print),
        s == "input"@ ==> keyword(s) == Some(Kind::Input),
        s == "clock"@ ==> keyword(s) == Some(Kind::Clock),
        s == "START"@ ==> keyword(s) == Some(Kind::Start),
{
    reveal_strlit("fn");
    reveal_strlit("var");
    reveal_strlit("ref");
    reveal_strlit("func");
    reveal_strlit("if");
    reveal_strlit("else");
    reveal_strlit("while");
    reveal_strlit("return");
    reveal_strlit("true");
    reveal_strlit("false");
    reveal_strlit("print");
    reveal_strlit("overwrite");
    reveal_strlit("input");
    reveal_strlit("read");
    reveal_strlit("clock");
    reveal_strlit("append");
    reveal_strlit("length");
    reveal_strlit("linkto");
    reveal_strlit("START");
    reveal_strlit("END");
    reveal_strlit("not");
    reveal_strlit("stch");
    reveal_strlit("x");
    reveal_strlit("xx");
    reveal_strlit("xxx");
    assert("false"@[0] != "while"@[0]);
    assert("print"@[0] != "while"@[0]);
    assert("print"@[0] != "false"@[0]);
    assert("input"@[0] != "while"@[0]);
    assert("input"@[0] != "false"@[0]);
    assert("input"@[0] != "print"@[0]);
    assert("clock"@[0] != "while"@[0]);
    assert("clock"@[0] != "false"@[0]);
    assert("clock"@[0] != "print"@[0]);
    assert("clock"@[0] != "input"@[0]);
    assert("START"@[0] != "while"@[0]);
    assert("START"@[0] != "false"@[0]);
    assert("START"@[0] != "print"@[0]);
    assert("START"@[0] != "input"@[0]);
    assert("START"@[0] != "clock"@[0]);
}

proof fn lemma_keywords_of_six(s: Seq<char>)
    requires
        s.len() == 6,
    ensures
        s == "return"@ ==> keyword(s) == Some(Kind::Return),
        s == "append"@ ==> keyword(s) == Some(Kind::Append),
        s == "length"@ ==> keyword(s) == Some(Kind::Length),
        s == "linkto"@ ==> keyword(s) == Some(Kind::LinkTo),
{
    reveal_strlit("fn");
    reveal_strlit("var");
    reveal_strlit("ref");
    reveal_strlit("func");
    reveal_strlit("if");
    reveal_strlit("else");
    reveal_strlit("while");
    reveal_strlit("return");
    reveal_strlit("true");
    reveal_strlit("false");
    reveal_strlit("print");
    reveal_strlit("overwrite");
    reveal_strlit("input");
    reveal_strlit("read");
    reveal_strlit("clock");
    reveal_strlit("append");
    reveal_strlit("length");
    reveal_strlit("linkto");
    reveal_strlit("START");
    reveal_strlit("END");
    reveal_strlit("not");
    reveal_strlit("stch");
    reveal_strlit("x");
    reveal_strlit("xx");
    reveal_strlit("xxx");
    assert("append"@[0] != "return"@[0]);
    assert("length"@[0] != "return"@[0]);
    assert("length"@[0] != "append"@[0]);
    assert("linkto"@[0] != "return"@[0]);
    assert("linkto"@[0] != "append"@[0]);
    assert("linkto"@[1] != "length"@[1]);
}

proof fn lemma_keywords_of_nine(s: Seq<char>)
    requires
        s.len() == 9,
    ensures
        s == "overwrite"@ ==> keyword(s) == Some(Kind::Overwrite),
{
    reveal_strlit("fn");
    reveal_strlit("var");
    reveal_strlit("ref");
    reveal_strlit("func");
    reveal_strlit("if");
    reveal_strlit("else");
    reveal_strlit("while");
    reveal_strlit("return");
    reveal_strlit("true");
    reveal_strlit("false");
    reveal_strlit("print");
    reveal_strlit("overwrite");
    reveal_strlit("input");
    reveal_strlit("read");
    reveal_strlit("clock");
    reveal_strlit("append");
    reveal_strlit("length");
    reveal_strlit("linkto");
    reveal_strlit("START");
    reveal_strlit("END");
    reveal_strlit("not");
    reveal_strlit("stch");
    reveal_strlit("x");
    reveal_strlit("xx");
    reveal_strlit("xxx");
}

proof fn lemma_keyword(k: Kind)
    requires
        is_keyword(k),
    ensures
        keyword(spelling(k)) == Some(k),
{
    let s = spelling(k);
    reveal_strlit("fn");
    reveal_strlit("var");
    reveal_strlit("ref");
    reveal_strlit("func");
    reveal_strlit("if");
    reveal_strlit("else");
    reveal_strlit("while");
    reveal_strlit("return");
    reveal_strlit("true");
    reveal_strlit("false");
    reveal_strlit("print");
    reveal_strlit("overwrite");
    reveal_strlit("input");
    reveal_strlit("read");
    reveal_strlit("clock");
    reveal_strlit("append");
    reveal_strlit("length");
    reveal_strlit("linkto");
    reveal_strlit("START");
    reveal_strlit("END");
    reveal_strlit("not");
    reveal_strlit("stch");
    reveal_strlit("x");
    reveal_strlit("xx");
    reveal_strlit("xxx");
    if s.len() == 1 {
        lemma_keywords_of_one(s);
    }
    if s.len() == 2 {
        lemma_keywords_of_two(s);
    }
    if s.len() == 3 {
        lemma_keywords_of_three(s);
    }
    if s.len() == 4 {
        lemma_keywords_of_four(s);
    }
    if s.len() == 5 {
        lemma_keywords_of_five(s);
    }
    if s.len() == 6 {
        lemma_keywords_of_six(s);
    }
    if s.len() == 9 {
        lemma_keywords_of_nine(s);
    }
}

proof fn lemma_letters(k: Kind)
    requires
        is_keyword(k),
        ascii_classes(),
    ensures
        spelling(k).len() > 0,
        alphabetic(spelling(k)[0]),
        ascii_letter(spelling(k)[0]),
        forall|j: int| 0 <= j < spelling(k).len() ==> in_word(#[trigger] spelling(k)[j]),
{
    reveal_strlit("fn");
    reveal_strlit("var");
    reveal_strlit("ref");
    reveal_strlit("func");
    reveal_strlit("if");
    reveal_strlit("else");
    reveal_strlit("while");
    reveal_strlit("return");
    reveal_strlit("true");
    reveal_strlit("false");
    reveal_strlit("print");
    reveal_strlit("overwrite");
    reveal_strlit("input");
    reveal_strlit("read");
    reveal_strlit("clock");
    reveal_strlit("append");
    reveal_strlit("length");
    reveal_strlit("linkto");
    reveal_strlit("START");
    reveal_strlit("END");
    reveal_strlit("not");
    reveal_strlit("stch");
    reveal_strlit("x");
    reveal_strlit("xx");
    reveal_strlit("xxx");
    let s = spelling(k);
    assert forall|j: int| 0 <= j < s.len() implies in_word(#[trigger] s[j]) by {
        assert(ascii_letter(s[j]));
    }
}

/// The characters `w` stand at `i`.
pub open spec fn here(src: Seq<char>, i: int, w: Seq<char>) -> bool {
    0 <= i && i + w.len() <= src.len() && forall|j: int| 0 <= j < w.len() ==> src[i + j] == #[trigger] w[j]
}

/// The characters `w` stand at `i`, with a blank behind them.
pub open spec fn set_off(src: Seq<char>, i: int, w: Seq<char>) -> bool {
    here(src, i, w) && i + w.len() < src.len() && src[(i + w.len()) as int] == ' '
}

proof fn lemma_word_at(src: Seq<char>, i: int, j: int)
    requires
        0 <= i <= j < src.len(),
        forall|k: int| i <= k < j ==> in_word(#[trigger] src[k]),
        !in_word(src[j]),
    ensures
        word_end(src, i) == j,
    decreases j - i,
{
    if i < j {
        lemma_word_at(src, i + 1, j);
    }
}

/// A word is scanned whole.
proof fn lemma_scan_word(src: Seq<char>, i: int, w: Seq<char>)
    requires
        ascii_classes(),
        here(src, i, w),
        i + w.len() < src.len(),
        !in_word(src[(i + w.len()) as int]),
        w.len() > 0,
        ascii_letter(w[0]),
        forall|j: int| 0 <= j < w.len() ==> in_word(#[trigger] w[j]),
    ensures
        scan(src, i) == Ok::<(TokenV, int), Seq<char>>(word_token(src, i, i + w.len())),
        src.subrange(i, i + w.len()) == w,
{
    let e = i + w.len();
    assert(src[i + 0] == w[0]);
    assert forall|k: int| i + 1 <= k < e implies in_word(#[trigger] src[k]) by {
        assert(src[i + (k - i)] == w[k - i]);
    }
    lemma_word_at(src, i + 1, e);
    assert(src.subrange(i, e) =~= w);
    assert(alphabetic(src[i]));
}

proof fn lemma_scan_keyword(src: Seq<char>, i: int, k: Kind)
    requires
        ascii_classes(),
        is_keyword(k),
        set_off(src, i, spelling(k)),
    ensures
        scan(src, i) == Ok::<(TokenV, int), Seq<char>>((bare(k), i + spelling(k).len())),
{
    lemma_letters(k);
    lemma_keyword(k);
    assert(!in_word(' '));
    lemma_scan_word(src, i, spelling(k));
}

proof fn lemma_scan_not_equal(src: Seq<char>, i: int)
    requires
        ascii_classes(),
        set_off(src, i, "not="@),
    ensures
        scan(src, i) == Ok::<(TokenV, int), Seq<char>>((bare(Kind::NotEq), i + 4)),
{
    reveal_strlit("not");
    reveal_strlit("not=");
    lemma_letters(Kind::Not);
    lemma_keyword(Kind::Not);
    assert(!in_word('='));
    assert forall|j: int| 0 <= j < 3 implies src[i + j] == #[trigger] "not"@[j] by {
        assert("not="@[j] == "not"@[j]);
    }
    assert(src[i + 3] == "not="@[3]);
    lemma_scan_word(src, i, "not"@);
}

proof fn lemma_scan_symbol(src: Seq<char>, i: int, k: Kind)
    requires
        !is_keyword(k),
        spelling(k).len() > 0,
        k != Kind::NotEq,
        set_off(src, i, spelling(k)),
    ensures
        scan(src, i) == Ok::<(TokenV, int), Seq<char>>((bare(k), i + spelling(k).len())),
{
    reveal_strlit("(");
    reveal_strlit(")");
    reveal_strlit("{");
    reveal_strlit("}");
    reveal_strlit("[");
    reveal_strlit("]");
    reveal_strlit(",");
    reveal_strlit(":");
    reveal_strlit(";");
    reveal_strlit("+");
    reveal_strlit("-");
    reveal_strlit("*");
    reveal_strlit("/");
    reveal_strlit("=");
    reveal_strlit("!");
    reveal_strlit("<");
    reveal_strlit(">");
    reveal_strlit("->");
    reveal_strlit("==");
    reveal_strlit("<=");
    reveal_strlit(">=");
    reveal_strlit("&&");
    reveal_strlit("||");
    reveal_strlit(">>");
    assert(src[i + 0] == spelling(k)[0]);
    if spelling(k).len() == 2 {
        assert(src[i + 1] == spelling(k)[1]);
    }
}

/// Each keyword and each symbol is scanned from the text that it is written with.
pub proof fn words_and_symbols_are_scanned(src: Seq<char>, i: int, k: Kind)
    requires
        spelling(k).len() > 0,
        set_off(src, i, spelling(k)),
    ensures
        ascii_classes() ==> scan(src, i) == Ok::<(TokenV, int), Seq<char>>((bare(k), i + spelling(k).len())),
{
    if ascii_classes() {
        if is_keyword(k) {
            lemma_scan_keyword(src, i, k);
        } else if k == Kind::NotEq {
            reveal_strlit("not=");
            lemma_scan_not_equal(src, i);
        } else {
            lemma_scan_symbol(src, i, k);
        }
    }
}

/// Some operator of a level is read from a token of kind `k`, and it is `op`.
pub open spec fn read_as(k: Kind, op: BinOp) -> bool {
    ||| power_operator(k) == Some(op)
    ||| exists|level: int| #[trigger] operator(level, k) == Some(op)
}

/// An operator is read from the token that is scanned from its own text, and no other operator is read from
/// that token: `>=` is read as the operator that is written `>=`, and so on.
pub proof fn operators_are_read_from_their_text(src: Seq<char>, i: int, op: BinOp, other: BinOp)
    requires
        set_off(src, i, binop_text(op)),
    ensures
        ascii_classes() ==> scan(src, i) is Ok,
        ascii_classes() ==> scan(src, i)->Ok_0.1 == i + binop_text(op).len(),
        ascii_classes() ==> (read_as(scan(src, i)->Ok_0.0.kind, other) <==> other == op),
{
    if ascii_classes() {
        let k = op_kind(op);
        assert(spelling(k) == binop_text(op));
        assert(spelling(k).len() > 0) by {
            reveal_strlit("+");
            reveal_strlit("-");
            reveal_strlit("x");
            reveal_strlit("/");
            reveal_strlit("xx");
            reveal_strlit("xxx");
            reveal_strlit("==");
            reveal_strlit("not=");
            reveal_strlit("<");
            reveal_strlit(">");
            reveal_strlit("<=");
            reveal_strlit(">=");
            reveal_strlit("&&");
            reveal_strlit("||");
            reveal_strlit("stch");
        }
        words_and_symbols_are_scanned(src, i, k);
        assert(operator(0, k) == Some(op) || operator(1, k) == Some(op) || operator(2, k) == Some(op) || operator(3, k)
            == Some(op) || operator(4, k) == Some(op) || operator(5, k) == Some(op) || operator(6, k) == Some(op)
            || power_operator(k) == Some(op));
    }
}

// ---------------------------------------------------------------------------
// Tokens that carry text
// ---------------------------------------------------------------------------

/// A character inside a string literal.
pub open spec fn escape(c: char) -> Seq<char> {
    if c == '"' || c == '\\' {
        seq!['\\', c]
    } else if c == '\n' {
        seq!['\\', 'n']
    } else if c == '\t' {
        seq!['\\', 't']
    } else {
        seq![c]
    }
}

/// The characters of a string literal from number `k` on, and the quote that closes it.
pub open spec fn escaped(s: Seq<char>, k: nat) -> Seq<char>
    decreases s.len() - k,
{
    if k >= s.len() {
        seq!['"']
    } else {
        escape(s[k as int]) + escaped(s, k + 1)
    }
}

/// The text of a token.
pub open spec fn written(t: TokenV) -> Seq<char> {
    match t.kind {
        Kind::Num => t.text,
        Kind::Ident => t.text,
        Kind::Quoted => seq!['\''] + t.text.push('\''),
        Kind::Str => seq!['"'] + escaped(t.text, 0),
        _ => spelling(t.kind),
    }
}

/// Whether a token can be written: a number is a numeral, a word that is no keyword starts with a letter of
/// ASCII, and no name holds a quote.
pub open spec fn printable(t: TokenV) -> bool {
    match t.kind {
        Kind::Num => is_numeral(t.text),
        Kind::Ident => {
            &&& t.text.len() > 0
            &&& ascii_letter(t.text[0])
            &&& forall|j: int| 0 <= j < t.text.len() ==> in_word(#[trigger] t.text[j])
            &&& keyword(t.text) is None
        },
        Kind::Quoted => forall|j: int| 0 <= j < t.text.len() ==> #[trigger] t.text[j] != '\'',
        Kind::Str => true,
        Kind::Eof => false,
        _ => t.text.len() == 0,
    }
}

proof fn lemma_here_add(src: Seq<char>, i: int, a: Seq<char>, b: Seq<char>)
    requires
        here(src, i, a + b),
    ensures
        here(src, i, a),
        here(src, i + a.len(), b),
{
    assert forall|j: int| 0 <= j < a.len() implies src[i + j] == #[trigger] a[j] by {
        assert((a + b)[j] == a[j]);
    }
    assert forall|j: int| 0 <= j < b.len() implies src[i + a.len() + j] == #[trigger] b[j] by {
        assert((a + b)[a.len() + j] == b[j]);
    }
}

proof fn lemma_scan_string(src: Seq<char>, i: int, s: Seq<char>, k: nat)
    requires
        k <= s.len(),
        here(src, i, escaped(s, k)),
    ensures
        string_from(src, i, s.take(k as int)) == Some((i + escaped(s, k).len(), s)),
    decreases s.len() - k,
{
    if k == s.len() {
        assert(s.take(k as int) =~= s);
        assert(src[i + 0] == escaped(s, k)[0]);
    } else {
        let c = s[k as int];
        let e = escape(c);
        lemma_here_add(src, i, e, escaped(s, k + 1));
        lemma_scan_string(src, i + e.len(), s, k + 1);
        assert(s.take(k as int).push(c) =~= s.take((k + 1) as int));
        assert(src[i + 0] == e[0]);
        if e.len() == 2 {
            assert(src[i + 1] == e[1]);
            assert(unescape(e[1]) == c);
        }
    }
}

proof fn lemma_scan_quote(src: Seq<char>, i: int, j: int)
    requires
        0 <= i <= j < src.len(),
        forall|k: int| i <= k < j ==> #[trigger] src[k] != '\'',
        src[j] == '\'',
    ensures
        quote_end(src, i) == j,
    decreases j - i,
{
    if i < j {
        lemma_scan_quote(src, i + 1, j);
    }
}

proof fn lemma_scan_number(src: Seq<char>, i: int, s: Seq<char>)
    requires
        is_numeral(s),
        set_off(src, i, s),
    ensures
        scan(src, i) == Ok::<(TokenV, int), Seq<char>>((TokenV { kind: Kind::Num, text: s }, i + s.len())),
        s.len() > 0,
        is_digit(s[0]),
{
    lemma_point_from(s, 0);
    let p = point_from(s, 0);
    let e = i + p;
    assert(whole_part(s) =~= s.take(p));
    assert forall|k: int| i <= k < e implies is_digit(#[trigger] src[k]) by {
        assert(src[i + (k - i)] == s[k - i]);
        assert(s[k - i] == whole_part(s)[k - i]);
    }
    assert(is_digit(whole_part(s)[0]));
    assert(src[i + 0] == s[0]);
    if p < s.len() {
        assert(src[i + p] == s[p]);
        assert(fraction_part(s) =~= s.skip(p + 1));
        assert forall|k: int| e + 1 <= k < i + s.len() implies is_digit(#[trigger] src[k]) by {
            assert(src[i + (k - i)] == s[k - i]);
            assert(s[k - i] == fraction_part(s)[k - i - p - 1]);
        }
        assert(is_digit(src[e + 1]));
        lemma_group_of_digits(src, i, e);
        lemma_group_of_digits(src, e + 1, i + s.len());
    } else {
        lemma_group_of_digits(src, i, e);
    }
    assert(numeral_end(src, i) == i + s.len());
    assert(src.subrange(i, i + s.len()) =~= s);
    assert forall|k: int| 0 <= k < s.len() implies #[trigger] s[k] != ',' by {
        if k < p {
            assert(is_digit(whole_part(s)[k]));
        } else if k > p {
            assert(is_digit(fraction_part(s)[k - p - 1]));
        }
    }
    lemma_no_commas_of_none(s);
}

proof fn lemma_spelling(k: Kind)
    requires
        k != Kind::Num,
        k != Kind::Str,
        k != Kind::Ident,
        k != Kind::Quoted,
        k != Kind::Eof,
    ensures
        spelling(k).len() > 0,
        !whitespace(spelling(k)[0]),
        spelling(k)[0] != '#',
{
    reveal_strlit("fn");
    reveal_strlit("var");
    reveal_strlit("ref");
    reveal_strlit("func");
    reveal_strlit("if");
    reveal_strlit("else");
    reveal_strlit("while");
    reveal_strlit("return");
    reveal_strlit("true");
    reveal_strlit("false");
    reveal_strlit("print");
    reveal_strlit("overwrite");
    reveal_strlit("input");
    reveal_strlit("read");
    reveal_strlit("clock");
    reveal_strlit("append");
    reveal_strlit("length");
    reveal_strlit("linkto");
    reveal_strlit("START");
    reveal_strlit("END");
    reveal_strlit("not");
    reveal_strlit("stch");
    reveal_strlit("x");
    reveal_strlit("xx");
    reveal_strlit("xxx");
    reveal_strlit("(");
    reveal_strlit(")");
    reveal_strlit("{");
    reveal_strlit("}");
    reveal_strlit("[");
    reveal_strlit("]");
    reveal_strlit(",");
    reveal_strlit(":");
    reveal_strlit(";");
    reveal_strlit("+");
    reveal_strlit("-");
    reveal_strlit("*");
    reveal_strlit("/");
    reveal_strlit("=");
    reveal_strlit("!");
    reveal_strlit("<");
    reveal_strlit(">");
    reveal_strlit("->");
    reveal_strlit("==");
    reveal_strlit("<=");
    reveal_strlit(">=");
    reveal_strlit("&&");
    reveal_strlit("||");
    reveal_strlit(">>");
    reveal_strlit("not=");
}

/// Every token is scanned from the text that it is written with.
pub proof fn tokens_are_scanned(src: Seq<char>, i: int, t: TokenV)
    requires
        printable(t),
        set_off(src, i, written(t)),
    ensures
        ascii_classes() ==> scan(src, i) == Ok::<(TokenV, int), Seq<char>>((t, i + written(t).len())),
        written(t).len() > 0,
        !whitespace(src[i]),
        src[i] != '#',
{
    let w = written(t);
    match t.kind {
        Kind::Num => {
            lemma_scan_number(src, i, t.text);
            assert(src[i + 0] == w[0]);
        },
        Kind::Ident => {
            assert(src[i + 0] == w[0]);
            if ascii_classes() {
                assert(!in_word(' '));
                lemma_scan_word(src, i, t.text);
            }
        },
        Kind::Quoted => {
            let e = i + 1 + t.text.len();
            assert(src[i + 0] == w[0]);
            assert forall|k: int| i + 1 <= k < e implies #[trigger] src[k] != '\'' by {
                assert(src[i + (k - i)] == w[k - i]);
                assert(w[k - i] == t.text[k - i - 1]);
            }
            assert(src[i + (e - i)] == w[e - i]);
            assert(w[e - i] == '\'');
            lemma_scan_quote(src, i + 1, e);
            assert(src.subrange(i + 1, e) =~= t.text) by {
                assert forall|k: int| 0 <= k < t.text.len() implies src.subrange(i + 1, e)[k] == t.text[k] by {
                    assert(src[i + (k + 1)] == w[k + 1]);
                }
            }
            assert(ascii_classes() ==> !alphabetic('\''));
        },
        Kind::Str => {
            lemma_here_add(src, i, seq!['"'], escaped(t.text, 0));
            assert(src[i + 0] == w[0]);
            lemma_scan_string(src, i + 1, t.text, 0);
            assert(t.text.take(0) =~= Seq::empty());
            assert(ascii_classes() ==> !alphabetic('"'));
        },
        _ => {
            lemma_spelling(t.kind);
            words_and_symbols_are_scanned(src, i, t.kind);
            assert(src[i + 0] == w[0]);
            assert(t.text =~= Seq::empty());
        },
    }
}

// ---------------------------------------------------------------------------
// Whole texts
// ---------------------------------------------------------------------------

/// The tokens from number `k` on as text, each with a blank behind it.
pub open spec fn text_of(ws: Seq<TokenV>, k: nat) -> Seq<char>
    decreases ws.len() - k,
{
    if k >= ws.len() {
        Seq::empty()
    } else {
        (written(ws[k as int]) + seq![' ']) + text_of(ws, k + 1)
    }
}

/// Tokens that stand for `ws`, and the end of the source behind them.
pub open spec fn tokens_for(ts: Seq<SpannedV>, ws: Seq<TokenV>) -> bool {
    &&& ts.len() == ws.len() + 1
    &&& forall|i: int| 0 <= i < ws.len() ==> (#[trigger] ts[i]).token == ws[i]
    &&& ts.last().token == bare(Kind::Eof)
}

proof fn lemma_text(src: Seq<char>, q: int, p: int, fresh: bool, acc: Seq<SpannedV>, ws: Seq<TokenV>, k: nat)
    requires
        ascii_classes(),
        forall|i: int| 0 <= i < ws.len() ==> printable(#[trigger] ws[i]),
        k <= ws.len(),
        here(src, p, text_of(ws, k)),
        p + text_of(ws, k).len() == src.len(),
        q == p || (q == p - 1 && 0 <= q && src[q] == ' '),
        acc.len() == k,
        forall|i: int| 0 <= i < k ==> (#[trigger] acc[i]).token == ws[i],
    ensures
        tokens_from(src, q, fresh, acc) is Ok,
        tokens_for(tokens_from(src, q, fresh, acc)->Ok_0, ws),
    decreases ws.len() - k,
{
    assert(skip(src, q, fresh) == skip(src, p, fresh));
    if k == ws.len() {
        assert(skip(src, p, fresh) == Ok::<(int, bool), Seq<char>>((p, fresh)));
    } else {
        let t = ws[k as int];
        let w = written(t);
        lemma_here_add(src, p, w + seq![' '], text_of(ws, k + 1));
        lemma_here_add(src, p, w, seq![' ']);
        assert(src[p + w.len() + 0] == seq![' '][0]);
        tokens_are_scanned(src, p, t);
        let e = p + w.len();
        assert(printable(t));
        assert(t.kind != Kind::Eof);
        assert(skip(src, p, fresh) == Ok::<(int, bool), Seq<char>>((p, fresh)));
        let x = SpannedV { token: t, line: line_at(src, p) };
        assert(next(src, q, fresh) == Ok::<(SpannedV, int), Seq<char>>((x, e)));
        lemma_text(src, e, e + 1, false, acc.push(x), ws, k + 1);
        assert(tokens_from(src, q, fresh, acc) == tokens_from(src, e, false, acc.push(x)));
    }
}

/// Tokens that are written as text are scanned back as they were.
pub proof fn texts_are_scanned(ws: Seq<TokenV>)
    requires
        forall|i: int| 0 <= i < ws.len() ==> printable(#[trigger] ws[i]),
    ensures
        ascii_classes() ==> tokens_of(text_of(ws, 0)) is Ok,
        ascii_classes() ==> tokens_for(tokens_of(text_of(ws, 0))->Ok_0, ws),
{
    if ascii_classes() {
        lemma_text(text_of(ws, 0), 0, 0, true, Seq::empty(), ws, 0);
    }
}

/// A program that is written as text is read back as it was.
pub proof fn programs_are_read_back_from_text(x: ProgramV)
    requires
        writable_program(x),
        forall|i: int| 0 <= i < spell_program(x).len() - 1 ==> printable(#[trigger] spell_program(x)[i]),
    ensures
        ascii_classes() ==> tokens_of(text_of(spell_program(x).drop_last(), 0)) is Ok,
        ascii_classes() ==> program_of(tokens_of(text_of(spell_program(x).drop_last(), 0))->Ok_0) == Ok::<
            ProgramV,
            Seq<char>,
        >(x),
{
    let all = spell_program(x);
    let ws = all.drop_last();
    assert forall|i: int| 0 <= i < ws.len() implies printable(#[trigger] ws[i]) by {
        assert(ws[i] == all[i]);
    }
    texts_are_scanned(ws);
    if ascii_classes() {
        let ts = tokens_of(text_of(ws, 0))->Ok_0;
        assert(all.last() == bare(Kind::Eof));
        assert(stand_at(ts, 0, all)) by {
            reveal(stand_at);
            assert forall|i: int| 0 <= i < all.len() implies ts[0 + i].token == #[trigger] all[i] by {
                if i < ws.len() {
                    assert(ws[i] == all[i]);
                }
            }
        }
        programs_are_read_back(ts, x);
    }
}

} // verus!
