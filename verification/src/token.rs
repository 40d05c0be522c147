//! The tokens of CyborgPL.

use vstd::prelude::*;
use crate::numeral::{pointed, pointed_numeral};
use crate::text::{debug_str, debug_text, same_text, text1, text4, text5};

verus! {

/// A token.
#[derive(Debug, Clone)]
pub enum Token {
    /// A numeral, kept as its text without digit separators.
    Num(String),
    Str(String),
    Ident(String),
    /// A single-quoted name. Any character may stand in it but `'`, which closes it.
    Quoted(String),
    Fn,
    Var,
    /// Starts a variable reference (`ref:var:TYPE 'name'`) or a call (`ref:func 'name'*args*`).
    Ref,
    Func,
    If,
    Else,
    While,
    Return,
    True,
    False,
    Print,
    Overwrite,
    Input,
    Read,
    Clock,
    Append,
    Length,
    /// `linkto`: names the settings file.
    LinkTo,
    /// Opens the entry block of the program.
    Start,
    /// Closes the entry block of the program.
    End,
    /// `not`: negation of a truth value.
    Not,
    /// `stch`: text concatenation.
    Concat,
    /// `x`: multiplication. `*` only brackets lists.
    Mul,
    /// `xx`: power.
    Pow,
    /// `xxx`: repeated power.
    Tetration,
    LParen,
    RParen,
    LBrace,
    RBrace,
    /// Opens `[precision:N]`, `[to*...*]` and `[from*...*]`.
    LBracket,
    RBracket,
    Comma,
    Colon,
    Semicolon,
    /// `->`
    Arrow,
    Plus,
    Minus,
    /// Brackets a list: `print*...*`, arguments, an index.
    Star,
    Slash,
    Eq,
    EqEq,
    /// `not=`
    NotEq,
    Bang,
    Lt,
    Gt,
    LtEq,
    GtEq,
    AndAnd,
    OrOr,
    /// `>>`: the short spelling of `ref:func`.
    Activate,
    Eof,
}

/// The kind of a token: the token without the text that it carries.
#[derive(Debug, Clone, Copy, PartialEq, Eq, Structural)]
pub enum Kind {
    Num,
    Str,
    Ident,
    Quoted,
    Fn,
    Var,
    Ref,
    Func,
    If,
    Else,
    While,
    Return,
    True,
    False,
    Print,
    Overwrite,
    Input,
    Read,
    Clock,
    Append,
    Length,
    LinkTo,
    Start,
    End,
    Not,
    Concat,
    Mul,
    Pow,
    Tetration,
    LParen,
    RParen,
    LBrace,
    RBrace,
    LBracket,
    RBracket,
    Comma,
    Colon,
    Semicolon,
    Arrow,
    Plus,
    Minus,
    Star,
    Slash,
    Eq,
    EqEq,
    NotEq,
    Bang,
    Lt,
    Gt,
    LtEq,
    GtEq,
    AndAnd,
    OrOr,
    Activate,
    Eof,
}

/// The view of a token: its kind and the text it carries, which is empty for most kinds.
pub struct TokenV {
    pub kind: Kind,
    pub text: Seq<char>,
}

impl Token {
    /// The kind of this token.
    pub open spec fn spec_kind(&self) -> Kind {
        match self {
            Token::Num(_) => Kind::Num,
            Token::Str(_) => Kind::Str,
            Token::Ident(_) => Kind::Ident,
            Token::Quoted(_) => Kind::Quoted,
            Token::Fn => Kind::Fn,
            Token::Var => Kind::Var,
            Token::Ref => Kind::Ref,
            Token::Func => Kind::Func,
            Token::If => Kind::If,
            Token::Else => Kind::Else,
            Token::While => Kind::While,
            Token::Return => Kind::Return,
            Token::True => Kind::True,
            Token::False => Kind::False,
            Token::Print => Kind::Print,
            Token::Overwrite => Kind::Overwrite,
            Token::Input => Kind::Input,
            Token::Read => Kind::Read,
            Token::Clock => Kind::Clock,
            Token::Append => Kind::Append,
            Token::Length => Kind::Length,
            Token::LinkTo => Kind::LinkTo,
            Token::Start => Kind::Start,
            Token::End => Kind::End,
            Token::Not => Kind::Not,
            Token::Concat => Kind::Concat,
            Token::Mul => Kind::Mul,
            Token::Pow => Kind::Pow,
            Token::Tetration => Kind::Tetration,
            Token::LParen => Kind::LParen,
            Token::RParen => Kind::RParen,
            Token::LBrace => Kind::LBrace,
            Token::RBrace => Kind::RBrace,
            Token::LBracket => Kind::LBracket,
            Token::RBracket => Kind::RBracket,
            Token::Comma => Kind::Comma,
            Token::Colon => Kind::Colon,
            Token::Semicolon => Kind::Semicolon,
            Token::Arrow => Kind::Arrow,
            Token::Plus => Kind::Plus,
            Token::Minus => Kind::Minus,
            Token::Star => Kind::Star,
            Token::Slash => Kind::Slash,
            Token::Eq => Kind::Eq,
            Token::EqEq => Kind::EqEq,
            Token::NotEq => Kind::NotEq,
            Token::Bang => Kind::Bang,
            Token::Lt => Kind::Lt,
            Token::Gt => Kind::Gt,
            Token::LtEq => Kind::LtEq,
            Token::GtEq => Kind::GtEq,
            Token::AndAnd => Kind::AndAnd,
            Token::OrOr => Kind::OrOr,
            Token::Activate => Kind::Activate,
            Token::Eof => Kind::Eof,
        }
    }

    /// The text that this token carries.
    pub open spec fn spec_text(&self) -> Seq<char> {
        match self {
            Token::Num(s) => s@,
            Token::Str(s) => s@,
            Token::Ident(s) => s@,
            Token::Quoted(s) => s@,
            _ => Seq::empty(),
        }
    }

    /// The view of this token.
    pub open spec fn view(&self) -> TokenV {
        TokenV { kind: self.spec_kind(), text: self.spec_text() }
    }

    /// The kind of this token.
    pub fn kind(&self) -> (r: Kind)
        ensures
            r == self.spec_kind(),
    {
        match self {
            Token::Num(_) => Kind::Num,
            Token::Str(_) => Kind::Str,
            Token::Ident(_) => Kind::Ident,
            Token::Quoted(_) => Kind::Quoted,
            Token::Fn => Kind::Fn,
            Token::Var => Kind::Var,
            Token::Ref => Kind::Ref,
            Token::Func => Kind::Func,
            Token::If => Kind::If,
            Token::Else => Kind::Else,
            Token::While => Kind::While,
            Token::Return => Kind::Return,
            Token::True => Kind::True,
            Token::False => Kind::False,
            Token::Print => Kind::Print,
            Token::Overwrite => Kind::Overwrite,
            Token::Input => Kind::Input,
            Token::Read => Kind::Read,
            Token::Clock => Kind::Clock,
            Token::Append => Kind::Append,
            Token::Length => Kind::Length,
            Token::LinkTo => Kind::LinkTo,
            Token::Start => Kind::Start,
            Token::End => Kind::End,
            Token::Not => Kind::Not,
            Token::Concat => Kind::Concat,
            Token::Mul => Kind::Mul,
            Token::Pow => Kind::Pow,
            Token::Tetration => Kind::Tetration,
            Token::LParen => Kind::LParen,
            Token::RParen => Kind::RParen,
            Token::LBrace => Kind::LBrace,
            Token::RBrace => Kind::RBrace,
            Token::LBracket => Kind::LBracket,
            Token::RBracket => Kind::RBracket,
            Token::Comma => Kind::Comma,
            Token::Colon => Kind::Colon,
            Token::Semicolon => Kind::Semicolon,
            Token::Arrow => Kind::Arrow,
            Token::Plus => Kind::Plus,
            Token::Minus => Kind::Minus,
            Token::Star => Kind::Star,
            Token::Slash => Kind::Slash,
            Token::Eq => Kind::Eq,
            Token::EqEq => Kind::EqEq,
            Token::NotEq => Kind::NotEq,
            Token::Bang => Kind::Bang,
            Token::Lt => Kind::Lt,
            Token::Gt => Kind::Gt,
            Token::LtEq => Kind::LtEq,
            Token::GtEq => Kind::GtEq,
            Token::AndAnd => Kind::AndAnd,
            Token::OrOr => Kind::OrOr,
            Token::Activate => Kind::Activate,
            Token::Eof => Kind::Eof,
        }
    }
}

/// The keyword that `s` spells, if it spells one.
pub open spec fn keyword(s: Seq<char>) -> Option<Kind> {
    if s == "fn"@ {
        Some(Kind::Fn)
    } else if s == "var"@ {
        Some(Kind::Var)
    } else if s == "ref"@ {
        Some(Kind::Ref)
    } else if s == "func"@ {
        Some(Kind::Func)
    } else if s == "if"@ {
        Some(Kind::If)
    } else if s == "else"@ {
        Some(Kind::Else)
    } else if s == "while"@ {
        Some(Kind::While)
    } else if s == "return"@ {
        Some(Kind::Return)
    } else if s == "true"@ {
        Some(Kind::True)
    } else if s == "false"@ {
        Some(Kind::False)
    } else if s == "print"@ {
        Some(Kind::Print)
    } else if s == "overwrite"@ {
        Some(Kind::Overwrite)
    } else if s == "input"@ {
        Some(Kind::Input)
    } else if s == "read"@ {
        Some(Kind::Read)
    } else if s == "clock"@ {
        Some(Kind::Clock)
    } else if s == "append"@ {
        Some(Kind::Append)
    } else if s == "length"@ {
        Some(Kind::Length)
    } else if s == "linkto"@ {
        Some(Kind::LinkTo)
    } else if s == "START"@ {
        Some(Kind::Start)
    } else if s == "END"@ {
        Some(Kind::End)
    } else if s == "not"@ {
        Some(Kind::Not)
    } else if s == "stch"@ {
        Some(Kind::Concat)
    } else if s == "x"@ {
        Some(Kind::Mul)
    } else if s == "xx"@ {
        Some(Kind::Pow)
    } else if s == "xxx"@ {
        Some(Kind::Tetration)
    } else {
        None
    }
}

impl Token {
    /// The keyword that `s` spells, if it spells one.
    pub fn keyword_from_str(s: &str) -> (r: Option<Token>)
        ensures
            match r {
                Some(t) => keyword(s@) == Some(t@.kind) && t@.text == Seq::<char>::empty(),
                None => keyword(s@) is None,
            },
    {
        if same_text(s, "fn") {
            Some(Token::Fn)
        } else if same_text(s, "var") {
            Some(Token::Var)
        } else if same_text(s, "ref") {
            Some(Token::Ref)
        } else if same_text(s, "func") {
            Some(Token::Func)
        } else if same_text(s, "if") {
            Some(Token::If)
        } else if same_text(s, "else") {
            Some(Token::Else)
        } else if same_text(s, "while") {
            Some(Token::While)
        } else if same_text(s, "return") {
            Some(Token::Return)
        } else if same_text(s, "true") {
            Some(Token::True)
        } else if same_text(s, "false") {
            Some(Token::False)
        } else if same_text(s, "print") {
            Some(Token::Print)
        } else if same_text(s, "overwrite") {
            Some(Token::Overwrite)
        } else if same_text(s, "input") {
            Some(Token::Input)
        } else if same_text(s, "read") {
            Some(Token::Read)
        } else if same_text(s, "clock") {
            Some(Token::Clock)
        } else if same_text(s, "append") {
            Some(Token::Append)
        } else if same_text(s, "length") {
            Some(Token::Length)
        } else if same_text(s, "linkto") {
            Some(Token::LinkTo)
        } else if same_text(s, "START") {
            Some(Token::Start)
        } else if same_text(s, "END") {
            Some(Token::End)
        } else if same_text(s, "not") {
            Some(Token::Not)
        } else if same_text(s, "stch") {
            Some(Token::Concat)
        } else if same_text(s, "x") {
            Some(Token::Mul)
        } else if same_text(s, "xx") {
            Some(Token::Pow)
        } else if same_text(s, "xxx") {
            Some(Token::Tetration)
        } else {
            None
        }
    }
}

/// The name of a kind, for messages.
pub open spec fn kind_name(k: Kind) -> Seq<char> {
    match k {
        Kind::Num => "Num"@,
        Kind::Str => "Str"@,
        Kind::Ident => "Ident"@,
        Kind::Quoted => "Quoted"@,
        Kind::Fn => "Fn"@,
        Kind::Var => "Var"@,
        Kind::Ref => "Ref"@,
        Kind::Func => "Func"@,
        Kind::If => "If"@,
        Kind::Else => "Else"@,
        Kind::While => "While"@,
        Kind::Return => "Return"@,
        Kind::True => "True"@,
        Kind::False => "False"@,
        Kind::Print => "Print"@,
        Kind::Overwrite => "Overwrite"@,
        Kind::Input => "Input"@,
        Kind::Read => "Read"@,
        Kind::Clock => "Clock"@,
        Kind::Append => "Append"@,
        Kind::Length => "Length"@,
        Kind::LinkTo => "LinkTo"@,
        Kind::Start => "Start"@,
        Kind::End => "End"@,
        Kind::Not => "Not"@,
        Kind::Concat => "Concat"@,
        Kind::Mul => "Mul"@,
        Kind::Pow => "Pow"@,
        Kind::Tetration => "Tetration"@,
        Kind::LParen => "LParen"@,
        Kind::RParen => "RParen"@,
        Kind::LBrace => "LBrace"@,
        Kind::RBrace => "RBrace"@,
        Kind::LBracket => "LBracket"@,
        Kind::RBracket => "RBracket"@,
        Kind::Comma => "Comma"@,
        Kind::Colon => "Colon"@,
        Kind::Semicolon => "Semicolon"@,
        Kind::Arrow => "Arrow"@,
        Kind::Plus => "Plus"@,
        Kind::Minus => "Minus"@,
        Kind::Star => "Star"@,
        Kind::Slash => "Slash"@,
        Kind::Eq => "Eq"@,
        Kind::EqEq => "EqEq"@,
        Kind::NotEq => "NotEq"@,
        Kind::Bang => "Bang"@,
        Kind::Lt => "Lt"@,
        Kind::Gt => "Gt"@,
        Kind::LtEq => "LtEq"@,
        Kind::GtEq => "GtEq"@,
        Kind::AndAnd => "AndAnd"@,
        Kind::OrOr => "OrOr"@,
        Kind::Activate => "Activate"@,
        Kind::Eof => "Eof"@,
    }
}

impl Kind {
    /// The name of this kind, for messages.
    pub fn to_text(self) -> (r: String)
        ensures
            r@ == kind_name(self),
    {
        match self {
            Kind::Num => text1("Num"),
            Kind::Str => text1("Str"),
            Kind::Ident => text1("Ident"),
            Kind::Quoted => text1("Quoted"),
            Kind::Fn => text1("Fn"),
            Kind::Var => text1("Var"),
            Kind::Ref => text1("Ref"),
            Kind::Func => text1("Func"),
            Kind::If => text1("If"),
            Kind::Else => text1("Else"),
            Kind::While => text1("While"),
            Kind::Return => text1("Return"),
            Kind::True => text1("True"),
            Kind::False => text1("False"),
            Kind::Print => text1("Print"),
            Kind::Overwrite => text1("Overwrite"),
            Kind::Input => text1("Input"),
            Kind::Read => text1("Read"),
            Kind::Clock => text1("Clock"),
            Kind::Append => text1("Append"),
            Kind::Length => text1("Length"),
            Kind::LinkTo => text1("LinkTo"),
            Kind::Start => text1("Start"),
            Kind::End => text1("End"),
            Kind::Not => text1("Not"),
            Kind::Concat => text1("Concat"),
            Kind::Mul => text1("Mul"),
            Kind::Pow => text1("Pow"),
            Kind::Tetration => text1("Tetration"),
            Kind::LParen => text1("LParen"),
            Kind::RParen => text1("RParen"),
            Kind::LBrace => text1("LBrace"),
            Kind::RBrace => text1("RBrace"),
            Kind::LBracket => text1("LBracket"),
            Kind::RBracket => text1("RBracket"),
            Kind::Comma => text1("Comma"),
            Kind::Colon => text1("Colon"),
            Kind::Semicolon => text1("Semicolon"),
            Kind::Arrow => text1("Arrow"),
            Kind::Plus => text1("Plus"),
            Kind::Minus => text1("Minus"),
            Kind::Star => text1("Star"),
            Kind::Slash => text1("Slash"),
            Kind::Eq => text1("Eq"),
            Kind::EqEq => text1("EqEq"),
            Kind::NotEq => text1("NotEq"),
            Kind::Bang => text1("Bang"),
            Kind::Lt => text1("Lt"),
            Kind::Gt => text1("Gt"),
            Kind::LtEq => text1("LtEq"),
            Kind::GtEq => text1("GtEq"),
            Kind::AndAnd => text1("AndAnd"),
            Kind::OrOr => text1("OrOr"),
            Kind::Activate => text1("Activate"),
            Kind::Eof => text1("Eof"),
        }
    }
}

/// Whether tokens of kind `k` carry text.
pub open spec fn carries_text(k: Kind) -> bool {
    k == Kind::Num || k == Kind::Str || k == Kind::Ident || k == Kind::Quoted
}

/// A token the way it is shown in messages: its kind and, in brackets, what it carries. A number
/// is shown both as a decimal, with all its digits, and as the text of its numeral.
pub open spec fn token_text(t: TokenV) -> Seq<char> {
    if t.kind == Kind::Num {
        "Num("@ + pointed(t.text) + ", "@ + debug_str(t.text) + ")"@
    } else if carries_text(t.kind) {
        kind_name(t.kind) + "("@ + debug_str(t.text) + ")"@
    } else {
        kind_name(t.kind)
    }
}

impl Token {
    /// This token the way it is shown in messages.
    pub fn to_text(&self) -> (r: String)
        ensures
            r@ == token_text(self@),
    {
        let name: String = self.kind().to_text();
        match self {
            Token::Num(s) => {
                let number: String = pointed_numeral(s);
                let quoted: String = debug_text(s);
                text5("Num(", &number, ", ", &quoted, ")")
            },
            Token::Str(s) | Token::Ident(s) | Token::Quoted(s) => {
                let quoted: String = debug_text(s);
                text4(&name, "(", &quoted, ")")
            },
            _ => name,
        }
    }
}

} // verus!
