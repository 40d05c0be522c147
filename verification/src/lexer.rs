//! From characters to tokens.

use vstd::prelude::*;
use crate::lexer_laws::lemma_tokens_end;
use crate::numeral::{capped_value, decimal, decimal_text, is_digit, is_digit_char, sub_chars, value};
use crate::text::{alphabetic, alphanumeric, chars_of, slice_text, text3, whitespace};
use crate::token::{keyword, Kind, Token, TokenV};

verus! {

/// A token with the line that it starts on.
#[derive(Debug, Clone)]
pub struct Spanned {
    pub token: Token,
    pub line: usize,
}

/// The view of a token with its line.
pub struct SpannedV {
    pub token: TokenV,
    pub line: nat,
}

impl Spanned {
    /// The view of this token.
    pub open spec fn view(&self) -> SpannedV {
        SpannedV { token: self.token.view(), line: self.line as nat }
    }
}

/// The views of tokens in order.
pub open spec fn spanned_view(ts: Seq<Spanned>) -> Seq<SpannedV> {
    Seq::new(ts.len(), |i: int| ts[i].view())
}

// ---------------------------------------------------------------------------
// Lines, white space and comments
// ---------------------------------------------------------------------------

/// How many lines end before position `pos`.
pub open spec fn newlines(src: Seq<char>, pos: int) -> nat
    decreases pos,
{
    if pos <= 0 || pos > src.len() {
        0
    } else {
        newlines(src, pos - 1) + if src[pos - 1] == '\n' { 1nat } else { 0nat }
    }
}

/// The line that position `pos` is on, counted from 1.
pub open spec fn line_at(src: Seq<char>, pos: int) -> nat {
    1 + newlines(src, pos)
}

/// No more lines end before a position than characters stand before it.
pub proof fn lemma_newlines_bound(src: Seq<char>, pos: int)
    requires
        0 <= pos <= src.len(),
    ensures
        newlines(src, pos) <= pos,
    decreases pos,
{
    if pos > 0 {
        lemma_newlines_bound(src, pos - 1);
    }
}

/// A message about position `pos`.
pub open spec fn at_line(src: Seq<char>, pos: int, what: Seq<char>) -> Seq<char> {
    "line "@ + decimal(line_at(src, pos)) + what
}

/// Where the line that holds `i` ends: the next newline, or the end of the source.
pub open spec fn line_end(src: Seq<char>, i: int) -> int
    decreases src.len() - i,
{
    if 0 <= i < src.len() && src[i] != '\n' {
        line_end(src, i + 1)
    } else {
        i
    }
}

/// Where the source goes on after `n` whole lines from `i` on, or its end if fewer are left.
pub open spec fn after_lines(src: Seq<char>, i: int, n: nat) -> int
    decreases n,
{
    if n == 0 {
        i
    } else {
        let e = line_end(src, i);
        if e < src.len() {
            after_lines(src, e + 1, (n - 1) as nat)
        } else {
            e
        }
    }
}

/// Where the run of digits at `i` ends.
pub open spec fn digits_end(src: Seq<char>, i: int) -> int
    decreases src.len() - i,
{
    if 0 <= i < src.len() && is_digit(src[i]) {
        digits_end(src, i + 1)
    } else {
        i
    }
}

/// How many lines the comment mark that ends at `d` and whose digits start at `i` covers.
pub open spec fn comment_lines(src: Seq<char>, i: int, d: int) -> nat {
    if d <= i {
        1
    } else {
        value(src.subrange(i, d))
    }
}

pub proof fn lemma_line_end(src: Seq<char>, i: int)
    requires
        0 <= i <= src.len(),
    ensures
        i <= line_end(src, i) <= src.len(),
        line_end(src, i) < src.len() ==> src[line_end(src, i)] == '\n',
        newlines(src, line_end(src, i)) == newlines(src, i),
    decreases src.len() - i,
{
    if i < src.len() && src[i] != '\n' {
        lemma_line_end(src, i + 1);
    }
}

pub proof fn lemma_after_lines(src: Seq<char>, i: int, n: nat)
    requires
        0 <= i <= src.len(),
    ensures
        i <= after_lines(src, i, n) <= src.len(),
    decreases n,
{
    lemma_line_end(src, i);
    if n > 0 && line_end(src, i) < src.len() {
        lemma_after_lines(src, line_end(src, i) + 1, (n - 1) as nat);
    }
}

/// Once more lines are asked for than can be left, it makes no difference how many.
pub proof fn lemma_many_lines(src: Seq<char>, i: int, n: nat, m: nat)
    requires
        0 <= i <= src.len(),
        n > src.len() - i,
        m > src.len() - i,
    ensures
        after_lines(src, i, n) == after_lines(src, i, m),
    decreases src.len() - i,
{
    lemma_line_end(src, i);
    if line_end(src, i) < src.len() {
        lemma_many_lines(src, line_end(src, i) + 1, (n - 1) as nat, (m - 1) as nat);
    }
}

pub proof fn lemma_digits_end(src: Seq<char>, i: int)
    requires
        0 <= i <= src.len(),
    ensures
        i <= digits_end(src, i) <= src.len(),
        newlines(src, digits_end(src, i)) == newlines(src, i),
    decreases src.len() - i,
{
    if i < src.len() && is_digit(src[i]) {
        lemma_digits_end(src, i + 1);
    }
}

/// The position of the next token and whether it is the first thing on its line, going on from
/// `pos` past white space and comments. A comment starts with `#` as the first thing on a line
/// and covers that line, or as many lines as the number behind the `#` says. A `#` anywhere else
/// is an error.
pub open spec fn skip(src: Seq<char>, pos: int, fresh: bool) -> Result<(int, bool), Seq<char>>
    decreases src.len() - pos,
{
    if !(0 <= pos < src.len()) {
        Ok((pos, fresh))
    } else if src[pos] == '\n' {
        skip(src, pos + 1, true)
    } else if whitespace(src[pos]) {
        skip(src, pos + 1, fresh)
    } else if src[pos] == '#' {
        if !fresh {
            Err(at_line(src, pos, ": '#' comments must start at the beginning of a line"@))
        } else {
            proof {
                lemma_digits_end(src, pos + 1);
                lemma_after_lines(src, digits_end(src, pos + 1), comment_lines(src, pos + 1, digits_end(src, pos + 1)));
            }
            let d = digits_end(src, pos + 1);
            skip(src, after_lines(src, d, comment_lines(src, pos + 1, d)), true)
        }
    } else {
        Ok((pos, fresh))
    }
}

/// Where the white space at `i` ends, on the line of `i`.
pub open spec fn blanks_end(src: Seq<char>, i: int) -> int
    decreases src.len() - i,
{
    if 0 <= i < src.len() && whitespace(src[i]) && src[i] != '\n' {
        blanks_end(src, i + 1)
    } else {
        i
    }
}

pub proof fn lemma_skip(src: Seq<char>, pos: int, fresh: bool)
    requires
        0 <= pos <= src.len(),
    ensures
        skip(src, pos, fresh) matches Ok(r) ==> pos <= r.0 <= src.len(),
    decreases src.len() - pos,
{
    if pos < src.len() {
        if src[pos] == '\n' {
            lemma_skip(src, pos + 1, true);
        } else if whitespace(src[pos]) {
            lemma_skip(src, pos + 1, fresh);
        } else if src[pos] == '#' && fresh {
            lemma_digits_end(src, pos + 1);
            let d = digits_end(src, pos + 1);
            lemma_after_lines(src, d, comment_lines(src, pos + 1, d));
            lemma_skip(src, after_lines(src, d, comment_lines(src, pos + 1, d)), true);
        }
    }
}

// ---------------------------------------------------------------------------
// Single tokens
// ---------------------------------------------------------------------------

/// The token that one character is.
pub open spec fn single(c: char) -> Option<Kind> {
    if c == '(' {
        Some(Kind::LParen)
    } else if c == ')' {
        Some(Kind::RParen)
    } else if c == '{' {
        Some(Kind::LBrace)
    } else if c == '}' {
        Some(Kind::RBrace)
    } else if c == '[' {
        Some(Kind::LBracket)
    } else if c == ']' {
        Some(Kind::RBracket)
    } else if c == ',' {
        Some(Kind::Comma)
    } else if c == ':' {
        Some(Kind::Colon)
    } else if c == ';' {
        Some(Kind::Semicolon)
    } else if c == '+' {
        Some(Kind::Plus)
    } else if c == '*' {
        Some(Kind::Star)
    } else if c == '/' {
        Some(Kind::Slash)
    } else if c == '-' {
        Some(Kind::Minus)
    } else if c == '=' {
        Some(Kind::Eq)
    } else if c == '!' {
        Some(Kind::Bang)
    } else if c == '<' {
        Some(Kind::Lt)
    } else if c == '>' {
        Some(Kind::Gt)
    } else {
        None
    }
}

/// The token that two characters are together.
pub open spec fn double(c: char, d: char) -> Option<Kind> {
    if c == '-' && d == '>' {
        Some(Kind::Arrow)
    } else if c == '=' && d == '=' {
        Some(Kind::EqEq)
    } else if c == '<' && d == '=' {
        Some(Kind::LtEq)
    } else if c == '>' && d == '=' {
        Some(Kind::GtEq)
    } else if c == '>' && d == '>' {
        Some(Kind::Activate)
    } else if c == '&' && d == '&' {
        Some(Kind::AndAnd)
    } else if c == '|' && d == '|' {
        Some(Kind::OrOr)
    } else {
        None
    }
}

/// Where the run of digits at `i` ends, when a `,` between two digits belongs to it.
pub open spec fn group_end(src: Seq<char>, i: int) -> int
    decreases src.len() - i,
{
    if 0 <= i < src.len() && is_digit(src[i]) {
        group_end(src, i + 1)
    } else if 0 <= i && i + 1 < src.len() && src[i] == ',' && is_digit(src[i + 1]) {
        group_end(src, i + 1)
    } else {
        i
    }
}

/// Where the numeral that starts at `i` ends. A point belongs to it only before a digit.
pub open spec fn numeral_end(src: Seq<char>, i: int) -> int {
    let e = group_end(src, i);
    if e + 1 < src.len() && src[e] == '.' && is_digit(src[e + 1]) {
        group_end(src, e + 1)
    } else {
        e
    }
}

/// `s` without its commas.
pub open spec fn no_commas(s: Seq<char>) -> Seq<char>
    decreases s.len(),
{
    if s.len() == 0 {
        s
    } else if s.last() == ',' {
        no_commas(s.drop_last())
    } else {
        no_commas(s.drop_last()).push(s.last())
    }
}

/// Whether `c` can stand in a word.
pub open spec fn in_word(c: char) -> bool {
    alphanumeric(c) || c == '_'
}

/// Where the word that holds `i - 1` ends.
pub open spec fn word_end(src: Seq<char>, i: int) -> int
    decreases src.len() - i,
{
    if 0 <= i < src.len() && in_word(src[i]) {
        word_end(src, i + 1)
    } else {
        i
    }
}

/// Where the next `'` at or after `i` stands (the length if there is none).
pub open spec fn quote_end(src: Seq<char>, i: int) -> int
    decreases src.len() - i,
{
    if 0 <= i < src.len() && src[i] != '\'' {
        quote_end(src, i + 1)
    } else {
        i
    }
}

/// What a backslash and `c` stand for in a string.
pub open spec fn unescape(c: char) -> char {
    if c == 'n' {
        '\n'
    } else if c == 't' {
        '\t'
    } else {
        c
    }
}

/// The rest of a string literal from `i` on, when `acc` came before it: its end, past the
/// closing `"`, and the whole text. `None` if it is not closed.
pub open spec fn string_from(src: Seq<char>, i: int, acc: Seq<char>) -> Option<(int, Seq<char>)>
    decreases src.len() - i,
{
    if !(0 <= i < src.len()) {
        None
    } else if src[i] == '"' {
        Some((i + 1, acc))
    } else if src[i] == '\\' {
        if i + 1 < src.len() {
            string_from(src, i + 2, acc.push(unescape(src[i + 1])))
        } else {
            None
        }
    } else {
        string_from(src, i + 1, acc.push(src[i]))
    }
}

/// A token that carries no text.
pub open spec fn bare(k: Kind) -> TokenV {
    TokenV { kind: k, text: Seq::empty() }
}

/// The word from `i` to `e` as a token, and where it ends: `not` takes a `=` right behind it.
pub open spec fn word_token(src: Seq<char>, i: int, e: int) -> (TokenV, int) {
    match keyword(src.subrange(i, e)) {
        Some(k) => if k == Kind::Not && e < src.len() && src[e] == '=' {
            (bare(Kind::NotEq), e + 1)
        } else {
            (bare(k), e)
        },
        None => (TokenV { kind: Kind::Ident, text: src.subrange(i, e) }, e),
    }
}

/// The token that starts at `i`, and where it ends.
pub open spec fn scan(src: Seq<char>, i: int) -> Result<(TokenV, int), Seq<char>> {
    let c = src[i];
    if i + 1 < src.len() && double(c, src[i + 1]) is Some {
        Ok((bare(double(c, src[i + 1])->0), i + 2))
    } else if single(c) is Some {
        Ok((bare(single(c)->0), i + 1))
    } else if is_digit(c) {
        let e = numeral_end(src, i);
        Ok((TokenV { kind: Kind::Num, text: no_commas(src.subrange(i, e)) }, e))
    } else if alphabetic(c) || c == '_' {
        Ok(word_token(src, i, word_end(src, i + 1)))
    } else if c == '\'' {
        let e = quote_end(src, i + 1);
        if e < src.len() {
            Ok((TokenV { kind: Kind::Quoted, text: src.subrange(i + 1, e) }, e + 1))
        } else {
            Err(at_line(src, i, ": unterminated quoted identifier"@))
        }
    } else if c == '"' {
        match string_from(src, i + 1, Seq::empty()) {
            Some(r) => Ok((TokenV { kind: Kind::Str, text: r.1 }, r.0)),
            None => Err(at_line(src, i, ": unterminated string literal"@)),
        }
    } else {
        Err(at_line(src, i, ": unexpected character '"@ + seq![c] + "'"@))
    }
}

pub proof fn lemma_group_end(src: Seq<char>, i: int)
    requires
        0 <= i <= src.len(),
    ensures
        i <= group_end(src, i) <= src.len(),
        i < src.len() && is_digit(src[i]) ==> i < group_end(src, i),
        newlines(src, group_end(src, i)) == newlines(src, i),
    decreases src.len() - i,
{
    if i < src.len() && is_digit(src[i]) {
        lemma_group_end(src, i + 1);
    } else if i + 1 < src.len() && src[i] == ',' && is_digit(src[i + 1]) {
        lemma_group_end(src, i + 1);
    }
}

pub proof fn lemma_quote_end(src: Seq<char>, i: int)
    requires
        0 <= i <= src.len(),
    ensures
        i <= quote_end(src, i) <= src.len(),
    decreases src.len() - i,
{
    if i < src.len() && src[i] != '\'' {
        lemma_quote_end(src, i + 1);
    }
}

pub proof fn lemma_word_end(src: Seq<char>, i: int)
    requires
        0 <= i <= src.len(),
    ensures
        i <= word_end(src, i) <= src.len(),
    decreases src.len() - i,
{
    if i < src.len() && in_word(src[i]) {
        lemma_word_end(src, i + 1);
    }
}

pub proof fn lemma_string_from(src: Seq<char>, i: int, acc: Seq<char>)
    requires
        0 <= i <= src.len(),
    ensures
        string_from(src, i, acc) matches Some(r) ==> i < r.0 <= src.len(),
    decreases src.len() - i,
{
    if i < src.len() && src[i] != '"' {
        if src[i] == '\\' {
            if i + 1 < src.len() {
                lemma_string_from(src, i + 2, acc.push(unescape(src[i + 1])));
            }
        } else {
            lemma_string_from(src, i + 1, acc.push(src[i]));
        }
    }
}

/// A token is never empty.
pub proof fn lemma_scan(src: Seq<char>, i: int)
    requires
        0 <= i < src.len(),
    ensures
        scan(src, i) matches Ok(r) ==> i < r.1 <= src.len(),
{
    lemma_group_end(src, i);
    let e = group_end(src, i);
    if e + 1 < src.len() {
        lemma_group_end(src, e + 1);
    }
    lemma_word_end(src, i + 1);
    lemma_quote_end(src, i + 1);
    lemma_string_from(src, i + 1, Seq::empty());
}

// ---------------------------------------------------------------------------
// The whole source
// ---------------------------------------------------------------------------

/// The next token from `pos` on, and where it ends.
pub open spec fn next(src: Seq<char>, pos: int, fresh: bool) -> Result<(SpannedV, int), Seq<char>> {
    match skip(src, pos, fresh) {
        Err(e) => Err(e),
        Ok((i, _)) => if i >= src.len() {
            Ok((SpannedV { token: bare(Kind::Eof), line: line_at(src, i) }, i))
        } else {
            match scan(src, i) {
                Err(e) => Err(e),
                Ok((t, e)) => Ok((SpannedV { token: t, line: line_at(src, i) }, e)),
            }
        },
    }
}

pub proof fn lemma_next(src: Seq<char>, pos: int, fresh: bool)
    requires
        0 <= pos <= src.len(),
    ensures
        next(src, pos, fresh) matches Ok(r) ==> pos <= r.1 <= src.len() && (r.0.token.kind != Kind::Eof ==> pos < r.1),
{
    lemma_skip(src, pos, fresh);
    if let Ok((i, _)) = skip(src, pos, fresh) {
        if i < src.len() {
            lemma_scan(src, i);
        }
    }
}

/// The tokens from `pos` on, behind those in `acc`.
pub open spec fn tokens_from(src: Seq<char>, pos: int, fresh: bool, acc: Seq<SpannedV>) -> Result<
    Seq<SpannedV>,
    Seq<char>,
>
    decreases src.len() - pos,
{
    if !(0 <= pos <= src.len()) {
        Err(Seq::empty())
    } else {
        proof {
            lemma_next(src, pos, fresh);
        }
        match next(src, pos, fresh) {
            Err(e) => Err(e),
            Ok((t, e)) => if t.token.kind == Kind::Eof {
                Ok(acc.push(t))
            } else {
                tokens_from(src, e, false, acc.push(t))
            },
        }
    }
}

/// The tokens of a source text, or what is wrong with it.
pub open spec fn tokens_of(src: Seq<char>) -> Result<Seq<SpannedV>, Seq<char>> {
    tokens_from(src, 0, true, Seq::empty())
}

/// A reader of source text.
pub struct Lexer {
    pub chars: Vec<char>,
    pub pos: usize,
    /// The line that the reader is on.
    pub line: usize,
    /// Whether only white space came since the last newline.
    pub at_line_start: bool,
}

impl Lexer {
    /// The source text that is read.
    pub open spec fn source(&self) -> Seq<char> {
        self.chars@
    }

    /// How far the source has been read.
    pub open spec fn position(&self) -> int {
        self.pos as int
    }

    /// Whether a comment could start here.
    pub open spec fn fresh(&self) -> bool {
        self.at_line_start
    }

    /// The position lies in the source, and the line is the one that the position is on.
    pub open spec fn wf(&self) -> bool {
        &&& 0 <= self.position() <= self.source().len() < usize::MAX
        &&& self.line == line_at(self.source(), self.position())
    }

    /// A reader at the start of `source`.
    pub fn new(source: &str) -> (r: Lexer)
        requires
            source@.len() < usize::MAX,
        ensures
            r.wf(),
            r.source() == source@,
            r.position() == 0,
            r.fresh(),
            r.line == 1,
    {
        Lexer { chars: chars_of(source), pos: 0, line: 1, at_line_start: true }
    }

    /// All tokens of the source, the last of which is the only `Eof`; or what is wrong with it.
    pub fn tokenize(self) -> (r: Result<Vec<Spanned>, String>)
        requires
            self.wf(),
        ensures
            match r {
                Ok(ts) => tokens_from(self.source(), self.position(), self.fresh(), Seq::empty()) == Ok::<
                    Seq<SpannedV>,
                    Seq<char>,
                >(spanned_view(ts@)),
                Err(e) => tokens_from(self.source(), self.position(), self.fresh(), Seq::empty()) == Err::<
                    Seq<SpannedV>,
                    Seq<char>,
                >(e@),
            },
            r matches Ok(ts) ==> ts@.len() > 0 && ts@.last().token.spec_kind() == Kind::Eof,
    {
        proof {
            lemma_tokens_end(self.source(), self.position(), self.fresh(), Seq::empty());
        }
        let mut lx: Lexer = self;
        let mut tokens: Vec<Spanned> = Vec::new();
        let ghost src = lx.chars@;
        assert(spanned_view(tokens@) =~= Seq::empty());
        loop
            invariant
                lx.wf(),
                lx.source() == src,
                tokens_from(self.source(), self.position(), self.fresh(), Seq::empty()) == tokens_from(
                    src,
                    lx.position(),
                    lx.fresh(),
                    spanned_view(tokens@),
                ),
            decreases src.len() - lx.position(),
        {
            let ghost before = spanned_view(tokens@);
            proof {
                lemma_next(src, lx.position(), lx.fresh());
            }
            match lx.next_token() {
                Err(e) => {
                    return Err(e);
                },
                Ok(spanned) => {
                    let is_eof: bool = spanned.token.kind() == Kind::Eof;
                    tokens.push(spanned);
                    assert(spanned_view(tokens@) =~= before.push(spanned@));
                    if is_eof {
                        assert(spanned_view(tokens@).last() == tokens@.last()@);
                        return Ok(tokens);
                    }
                },
            }
        }
    }

    /// The next token, after white space and comments.
    fn next_token(&mut self) -> (r: Result<Spanned, String>)
        requires
            old(self).wf(),
        ensures
            final(self).source() == old(self).source(),
            match r {
                Ok(t) => final(self).wf() && next(old(self).source(), old(self).position(), old(self).fresh()) == Ok::<
                    (SpannedV, int),
                    Seq<char>,
                >((t@, final(self).position())) && (t.token.spec_kind() != Kind::Eof ==> !final(self).fresh()),
                Err(e) => next(old(self).source(), old(self).position(), old(self).fresh()) == Err::<
                    (SpannedV, int),
                    Seq<char>,
                >(e@),
            },
    {
        proof {
            lemma_skip(self.source(), self.position(), self.fresh());
        }
        match self.skip_whitespace_and_comments() {
            Err(e) => {
                return Err(e);
            },
            Ok(()) => {},
        }
        let line: usize = self.line;
        if self.pos >= self.chars.len() {
            return Ok(Spanned { token: Token::Eof, line });
        }
        let ghost src = self.chars@;
        let ghost i = self.pos as int;
        proof {
            lemma_scan(src, i);
        }
        let c: char = self.chars[self.pos];
        self.at_line_start = false;
        if self.pos + 1 < self.chars.len() {
            match double_token(c, self.chars[self.pos + 1]) {
                Some(token) => {
                    proof {
                        assert(newlines(src, i + 2) == newlines(src, i)) by {
                            reveal_with_fuel(newlines, 3);
                        }
                    }
                    self.pos = self.pos + 2;
                    return Ok(Spanned { token, line });
                },
                None => {},
            }
        }
        match single_token(c) {
            Some(token) => {
                assert(newlines(src, i + 1) == newlines(src, i));
                self.pos = self.pos + 1;
                return Ok(Spanned { token, line });
            },
            None => {},
        }
        if is_digit_char(c) {
            let token: Token = self.lex_number();
            Ok(Spanned { token, line })
        } else if c.is_alphabetic() || c == '_' {
            let token: Token = self.lex_ident();
            Ok(Spanned { token, line })
        } else if c == '\'' {
            match self.lex_quoted_ident() {
                Ok(token) => Ok(Spanned { token, line }),
                Err(e) => Err(e),
            }
        } else if c == '"' {
            match self.lex_string() {
                Ok(token) => Ok(Spanned { token, line }),
                Err(e) => Err(e),
            }
        } else {
            let n: String = decimal_text(line as u64);
            let mut shown: String = String::new();
            shown.push(c);
            assert(shown@ =~= seq![c]);
            let what: String = text3(": unexpected character '", &shown, "'");
            Err(text3("line ", &n, &what))
        }
    }

    /// The character that comes next, if any is left.
    fn peek_char(&self) -> (r: Option<char>)
        requires
            self.wf(),
        ensures
            r == if self.position() < self.source().len() {
                Some(self.source()[self.position()])
            } else {
                None::<char>
            },
    {
        if self.pos < self.chars.len() {
            Some(self.chars[self.pos])
        } else {
            None
        }
    }

    /// Skips a run of digits and of commas between digits.
    fn skip_group(&mut self)
        requires
            old(self).wf(),
        ensures
            final(self).wf(),
            final(self).source() == old(self).source(),
            final(self).fresh() == old(self).fresh(),
            final(self).line == old(self).line,
            final(self).position() == group_end(old(self).source(), old(self).position()),
    {
        let ghost src = self.chars@;
        loop
            invariant
                self.wf(),
                self.source() == src,
                src == old(self).source(),
                self.fresh() == old(self).fresh(),
                self.line == old(self).line,
                group_end(src, old(self).position()) == group_end(src, self.position()),
            ensures
                self.position() == group_end(src, self.position()),
            decreases src.len() - self.position(),
        {
            match self.peek_char() {
                None => {
                    break;
                },
                Some(c) => {
                    let inside: bool = is_digit_char(c) || (c == ',' && self.pos + 1 < self.chars.len() && is_digit_char(
                        self.chars[self.pos + 1],
                    ));
                    if !inside {
                        break;
                    }
                    self.pos = self.pos + 1;
                },
            }
        }
    }

    /// A numeral. Digit separators are left out of its text.
    fn lex_number(&mut self) -> (r: Token)
        requires
            old(self).wf(),
            old(self).position() < old(self).source().len(),
            is_digit(old(self).source()[old(self).position()]),
        ensures
            final(self).wf(),
            final(self).source() == old(self).source(),
            final(self).fresh() == old(self).fresh(),
            final(self).position() == numeral_end(old(self).source(), old(self).position()),
            r@ == (TokenV {
                kind: Kind::Num,
                text: no_commas(old(self).source().subrange(old(self).position(), final(self).position())),
            }),
    {
        let start: usize = self.pos;
        let ghost src = self.chars@;
        proof {
            lemma_group_end(src, start as int);
        }
        self.skip_group();
        if self.pos + 1 < self.chars.len() && self.chars[self.pos] == '.' && is_digit_char(self.chars[self.pos + 1]) {
            proof {
                lemma_group_end(src, self.pos + 1);
            }
            self.pos = self.pos + 1;
            self.skip_group();
        }
        let mut text: String = String::new();
        let mut i: usize = start;
        assert(src.subrange(start as int, start as int) =~= Seq::empty());
        while i < self.pos
            invariant
                start <= i <= self.pos <= self.chars@.len(),
                self.chars@ == src,
                text@ == no_commas(src.subrange(start as int, i as int)),
            decreases self.pos - i,
        {
            let c: char = self.chars[i];
            proof {
                let s = src.subrange(start as int, i + 1);
                assert(s.drop_last() =~= src.subrange(start as int, i as int));
                assert(s.last() == c);
            }
            if c != ',' {
                text.push(c);
            }
            i = i + 1;
        }
        Token::Num(text)
    }

    /// A name in single quotes. Any character may stand in it but the quote that closes it.
    fn lex_quoted_ident(&mut self) -> (r: Result<Token, String>)
        requires
            old(self).wf(),
            old(self).position() < old(self).source().len(),
            old(self).source()[old(self).position()] == '\'',
        ensures
            final(self).source() == old(self).source(),
            final(self).fresh() == old(self).fresh(),
            ({
                let src = old(self).source();
                let i = old(self).position();
                let e = quote_end(src, i + 1);
                match r {
                    Ok(t) => final(self).wf() && e < src.len() && final(self).position() == e + 1 && t@ == (TokenV {
                        kind: Kind::Quoted,
                        text: src.subrange(i + 1, e),
                    }),
                    Err(m) => e >= src.len() && m@ == at_line(src, i, ": unterminated quoted identifier"@),
                }
            }),
    {
        let ghost src = self.chars@;
        let ghost first = self.pos + 1;
        let opened: usize = self.line;
        self.pos = self.pos + 1;
        let start: usize = self.pos;
        loop
            invariant
                self.wf(),
                self.source() == src,
                src == old(self).source(),
                self.fresh() == old(self).fresh(),
                start == first,
                start == old(self).position() + 1,
                start <= self.position(),
                opened == line_at(src, old(self).position()),
                quote_end(src, first) == quote_end(src, self.position()),
            decreases src.len() - self.position(),
        {
            match self.peek_char() {
                None => {
                    let n: String = decimal_text(opened as u64);
                    return Err(text3("line ", &n, ": unterminated quoted identifier"));
                },
                Some(c) => {
                    if c == '\'' {
                        let name: String = slice_text(&self.chars, start, self.pos);
                        self.pos = self.pos + 1;
                        return Ok(Token::Quoted(name));
                    }
                    proof {
                        lemma_newlines_bound(src, self.pos + 1);
                    }
                    if c == '\n' {
                        self.line = self.line + 1;
                    }
                    self.pos = self.pos + 1;
                },
            }
        }
    }

    /// A string in double quotes, with `\\n`, `\\t` and other escapes replaced.
    fn lex_string(&mut self) -> (r: Result<Token, String>)
        requires
            old(self).wf(),
            old(self).position() < old(self).source().len(),
            old(self).source()[old(self).position()] == '"',
        ensures
            final(self).source() == old(self).source(),
            final(self).fresh() == old(self).fresh(),
            ({
                let src = old(self).source();
                let i = old(self).position();
                match r {
                    Ok(t) => final(self).wf() && t@.kind == Kind::Str && string_from(src, i + 1, Seq::empty()) == Some(
                        (final(self).position(), t@.text),
                    ),
                    Err(m) => string_from(src, i + 1, Seq::empty()) is None && m@ == at_line(
                        src,
                        i,
                        ": unterminated string literal"@,
                    ),
                }
            }),
    {
        let ghost src = self.chars@;
        let ghost first = self.pos + 1;
        let opened: usize = self.line;
        self.pos = self.pos + 1;
        let mut s: String = String::new();
        loop
            invariant
                self.wf(),
                self.source() == src,
                src == old(self).source(),
                self.fresh() == old(self).fresh(),
                first == old(self).position() + 1,
                opened == line_at(src, old(self).position()),
                string_from(src, first, Seq::empty()) == string_from(src, self.position(), s@),
            decreases src.len() - self.position(),
        {
            match self.peek_char() {
                None => {
                    let n: String = decimal_text(opened as u64);
                    return Err(text3("line ", &n, ": unterminated string literal"));
                },
                Some(c) => {
                    proof {
                        lemma_newlines_bound(src, self.pos + 1);
                    }
                    if c == '"' {
                        self.pos = self.pos + 1;
                        return Ok(Token::Str(s));
                    } else if c == '\\' {
                        if self.pos + 1 >= self.chars.len() {
                            let n: String = decimal_text(opened as u64);
                            return Err(text3("line ", &n, ": unterminated string literal"));
                        }
                        let d: char = self.chars[self.pos + 1];
                        proof {
                            lemma_newlines_bound(src, self.pos + 2);
                            assert(newlines(src, self.pos + 2) == newlines(src, self.pos + 1) + if d == '\n' {
                                1nat
                            } else {
                                0nat
                            });
                        }
                        if d == 'n' {
                            s.push('\n');
                        } else if d == 't' {
                            s.push('\t');
                        } else {
                            s.push(d);
                        }
                        if d == '\n' {
                            self.line = self.line + 1;
                        }
                        self.pos = self.pos + 2;
                    } else {
                        if c == '\n' {
                            self.line = self.line + 1;
                        }
                        s.push(c);
                        self.pos = self.pos + 1;
                    }
                },
            }
        }
    }

    /// A word: a keyword, `not=`, or an identifier.
    fn lex_ident(&mut self) -> (r: Token)
        requires
            old(self).wf(),
            old(self).position() < old(self).source().len(),
            old(self).source()[old(self).position()] != '\n',
        ensures
            final(self).wf(),
            final(self).source() == old(self).source(),
            final(self).fresh() == old(self).fresh(),
            (r@, final(self).position()) == word_token(
                old(self).source(),
                old(self).position(),
                word_end(old(self).source(), old(self).position() + 1),
            ),
    {
        let ghost src = self.chars@;
        let start: usize = self.pos;
        self.pos = self.pos + 1;
        loop
            invariant
                self.wf(),
                self.source() == src,
                src == old(self).source(),
                self.fresh() == old(self).fresh(),
                start == old(self).position(),
                start < self.position(),
                word_end(src, start + 1) == word_end(src, self.position()),
            ensures
                self.position() == word_end(src, start + 1),
            decreases src.len() - self.position(),
        {
            match self.peek_char() {
                None => {
                    break;
                },
                Some(c) => {
                    let inside: bool = c.is_alphanumeric() || c == '_';
                    if !inside {
                        break;
                    }
                    self.pos = self.pos + 1;
                },
            }
        }
        let word: String = slice_text(&self.chars, start, self.pos);
        match Token::keyword_from_str(&word) {
            Some(token) => {
                let negation: bool = token.kind() == Kind::Not;
                if negation && self.pos < self.chars.len() && self.chars[self.pos] == '=' {
                    self.pos = self.pos + 1;
                    Token::NotEq
                } else {
                    token
                }
            },
            None => Token::Ident(word),
        }
    }

    /// Goes past the rest of the line, and past its newline if it has one; says whether it has.
    fn skip_line(&mut self) -> (more: bool)
        requires
            old(self).wf(),
        ensures
            final(self).wf(),
            final(self).source() == old(self).source(),
            final(self).fresh() == old(self).fresh(),
            ({
                let e = line_end(old(self).source(), old(self).position());
                &&& more == (e < old(self).source().len())
                &&& final(self).position() == if more { e + 1 } else { e }
            }),
    {
        let ghost src = self.chars@;
        proof {
            lemma_line_end(src, self.pos as int);
        }
        loop
            invariant
                self.wf(),
                self.source() == src,
                src == old(self).source(),
                self.fresh() == old(self).fresh(),
                line_end(src, old(self).position()) == line_end(src, self.position()),
            decreases src.len() - self.position(),
        {
            match self.peek_char() {
                None => {
                    return false;
                },
                Some(c) => {
                    proof {
                        lemma_newlines_bound(src, self.pos + 1);
                    }
                    self.pos = self.pos + 1;
                    if c == '\n' {
                        self.line = self.line + 1;
                        return true;
                    }
                },
            }
        }
    }

    /// Goes past white space and comments.
    fn skip_whitespace_and_comments(&mut self) -> (r: Result<(), String>)
        requires
            old(self).wf(),
        ensures
            final(self).source() == old(self).source(),
            match r {
                Ok(()) => final(self).wf() && skip(old(self).source(), old(self).position(), old(self).fresh()) == Ok::<
                    (int, bool),
                    Seq<char>,
                >((final(self).position(), final(self).fresh())),
                Err(e) => {
                    &&& skip(old(self).source(), old(self).position(), old(self).fresh()) == Err::<
                        (int, bool),
                        Seq<char>,
                    >(e@)
                    &&& final(self).wf()
                    &&& final(self).position() == blanks_end(old(self).source(), old(self).position())
                    &&& e@ == at_line(
                        old(self).source(),
                        final(self).position(),
                        ": '#' comments must start at the beginning of a line"@,
                    )
                    &&& !final(self).fresh()
                    &&& final(self).position() < old(self).source().len()
                    &&& old(self).source()[final(self).position()] == '#'
                    &&& final(self).line == old(self).line
                },
            },
    {
        let ghost src = self.chars@;
        loop
            invariant
                self.wf(),
                self.source() == src,
                src == old(self).source(),
                skip(src, old(self).position(), old(self).fresh()) == skip(src, self.position(), self.fresh()),
                !self.fresh() ==> blanks_end(src, old(self).position()) == blanks_end(src, self.position()),
                !self.fresh() ==> self.line == old(self).line,
            decreases src.len() - self.position(),
        {
            match self.peek_char() {
                None => {
                    return Ok(());
                },
                Some(c) => {
                    proof {
                        lemma_newlines_bound(src, self.pos + 1);
                    }
                    if c == '\n' {
                        self.line = self.line + 1;
                        self.pos = self.pos + 1;
                        self.at_line_start = true;
                    } else if c.is_whitespace() {
                        self.pos = self.pos + 1;
                    } else if c == '#' {
                        if !self.at_line_start {
                            let n: String = decimal_text(self.line as u64);
                            return Err(text3("line ", &n, ": '#' comments must start at the beginning of a line"));
                        }
                        self.skip_comment();
                    } else {
                        return Ok(());
                    }
                },
            }
        }
    }

    /// Goes past a comment, whose `#` comes next.
    fn skip_comment(&mut self)
        requires
            old(self).wf(),
            old(self).position() < old(self).source().len(),
            old(self).source()[old(self).position()] == '#',
        ensures
            final(self).wf(),
            final(self).source() == old(self).source(),
            final(self).fresh() == old(self).fresh(),
            ({
                let src = old(self).source();
                let i = old(self).position() + 1;
                let d = digits_end(src, i);
                final(self).position() == after_lines(src, d, comment_lines(src, i, d))
            }),
            final(self).position() > old(self).position(),
    {
        let ghost src = self.chars@;
        self.pos = self.pos + 1;
        let first: usize = self.pos;
        while self.pos < self.chars.len() && is_digit_char(self.chars[self.pos])
            invariant
                self.wf(),
                self.chars@ == src,
                src == old(self).source(),
                self.fresh() == old(self).fresh(),
                first == old(self).position() + 1,
                first <= self.pos,
                digits_end(src, first as int) == digits_end(src, self.pos as int),
            decreases src.len() - self.pos,
        {
            self.pos = self.pos + 1;
        }
        let mut left: u64 = 1;
        if self.pos > first {
            let digits: Vec<char> = sub_chars(&self.chars, first, self.pos);
            left = capped_value(&digits);
        }
        let ghost d = self.pos as int;
        let ghost n = comment_lines(src, first as int, d);
        proof {
            lemma_after_lines(src, d, n);
            if n > u64::MAX {
                lemma_many_lines(src, d, n, u64::MAX as nat);
            }
        }
        while left > 0
            invariant
                self.wf(),
                self.source() == src,
                src == old(self).source(),
                self.fresh() == old(self).fresh(),
                after_lines(src, d, n) == after_lines(src, self.position(), left as nat),
            ensures
                after_lines(src, d, n) == self.position(),
            decreases left,
        {
            if !self.skip_line() {
                break;
            }
            left = left - 1;
        }
    }
}

/// The token that one character is.
fn single_token(c: char) -> (r: Option<Token>)
    ensures
        match r {
            Some(t) => single(c) == Some(t@.kind) && t@ == bare(t@.kind),
            None => single(c) is None,
        },
{
    if c == '(' {
        Some(Token::LParen)
    } else if c == ')' {
        Some(Token::RParen)
    } else if c == '{' {
        Some(Token::LBrace)
    } else if c == '}' {
        Some(Token::RBrace)
    } else if c == '[' {
        Some(Token::LBracket)
    } else if c == ']' {
        Some(Token::RBracket)
    } else if c == ',' {
        Some(Token::Comma)
    } else if c == ':' {
        Some(Token::Colon)
    } else if c == ';' {
        Some(Token::Semicolon)
    } else if c == '+' {
        Some(Token::Plus)
    } else if c == '*' {
        Some(Token::Star)
    } else if c == '/' {
        Some(Token::Slash)
    } else if c == '-' {
        Some(Token::Minus)
    } else if c == '=' {
        Some(Token::Eq)
    } else if c == '!' {
        Some(Token::Bang)
    } else if c == '<' {
        Some(Token::Lt)
    } else if c == '>' {
        Some(Token::Gt)
    } else {
        None
    }
}

/// The token that two characters are together.
fn double_token(c: char, d: char) -> (r: Option<Token>)
    ensures
        match r {
            Some(t) => double(c, d) == Some(t@.kind) && t@ == bare(t@.kind),
            None => double(c, d) is None,
        },
{
    if c == '-' && d == '>' {
        Some(Token::Arrow)
    } else if c == '=' && d == '=' {
        Some(Token::EqEq)
    } else if c == '<' && d == '=' {
        Some(Token::LtEq)
    } else if c == '>' && d == '=' {
        Some(Token::GtEq)
    } else if c == '>' && d == '>' {
        Some(Token::Activate)
    } else if c == '&' && d == '&' {
        Some(Token::AndAnd)
    } else if c == '|' && d == '|' {
        Some(Token::OrOr)
    } else {
        None
    }
}

} // verus!
