//! Comments in front of a source text: reading a text behind another one gives the same tokens.

use vstd::prelude::*;
use crate::lexer::{
    after_lines, blanks_end, comment_lines, digits_end, group_end, lemma_after_lines, lemma_digits_end,
    lemma_group_end, lemma_line_end, lemma_next, lemma_quote_end, lemma_skip, lemma_word_end, line_end, newlines,
    next, numeral_end, quote_end, scan, skip, string_from, tokens_from, tokens_of, word_end, SpannedV,
};
use crate::numeral::is_digit;
use crate::text::whitespace;

verus! {

/// The tokens with their lines counted from `n` lines further down.
pub open spec fn further_down(ts: Seq<SpannedV>, n: nat) -> Seq<SpannedV> {
    Seq::new(ts.len(), |i: int| SpannedV { token: ts[i].token, line: ts[i].line + n })
}

proof fn lemma_newlines(p: Seq<char>, s: Seq<char>, i: int)
    requires
        0 <= i <= s.len(),
    ensures
        newlines(p + s, i + p.len()) == newlines(p, p.len() as int) + newlines(s, i),
    decreases i,
{
    if i > 0 {
        lemma_newlines(p, s, i - 1);
        assert((p + s)[i + p.len() - 1] == s[i - 1]);
    } else {
        lemma_newlines_of_prefix(p, s, p.len() as int);
    }
}

proof fn lemma_newlines_of_prefix(p: Seq<char>, s: Seq<char>, i: int)
    requires
        0 <= i <= p.len(),
    ensures
        newlines(p + s, i) == newlines(p, i),
    decreases i,
{
    if i > 0 {
        lemma_newlines_of_prefix(p, s, i - 1);
        assert((p + s)[i - 1] == p[i - 1]);
    }
}

proof fn lemma_line_end_behind(p: Seq<char>, s: Seq<char>, i: int)
    requires
        0 <= i <= s.len(),
    ensures
        line_end(p + s, i + p.len()) == line_end(s, i) + p.len(),
    decreases s.len() - i,
{
    if i < s.len() {
        assert((p + s)[i + p.len()] == s[i]);
        lemma_line_end_behind(p, s, i + 1);
    }
}

proof fn lemma_after_lines_behind(p: Seq<char>, s: Seq<char>, i: int, n: nat)
    requires
        0 <= i <= s.len(),
    ensures
        after_lines(p + s, i + p.len(), n) == after_lines(s, i, n) + p.len(),
    decreases n,
{
    if n > 0 {
        lemma_line_end_behind(p, s, i);
        lemma_line_end(s, i);
        let e = line_end(s, i);
        if e < s.len() {
            lemma_after_lines_behind(p, s, e + 1, (n - 1) as nat);
        }
    }
}

proof fn lemma_digits_end_behind(p: Seq<char>, s: Seq<char>, i: int)
    requires
        0 <= i <= s.len(),
    ensures
        digits_end(p + s, i + p.len()) == digits_end(s, i) + p.len(),
    decreases s.len() - i,
{
    if i < s.len() {
        assert((p + s)[i + p.len()] == s[i]);
        lemma_digits_end_behind(p, s, i + 1);
    }
}

proof fn lemma_skip_behind(p: Seq<char>, s: Seq<char>, i: int, fresh: bool)
    requires
        0 <= i <= s.len(),
    ensures
        match skip(s, i, fresh) {
            Ok((j, f)) => skip(p + s, i + p.len(), fresh) == Ok::<(int, bool), Seq<char>>((j + p.len(), f)),
            Err(_) => skip(p + s, i + p.len(), fresh) is Err,
        },
    decreases s.len() - i,
{
    let k = p.len() as int;
    if i < s.len() {
        assert((p + s)[i + k] == s[i]);
        if s[i] == '\n' {
            lemma_skip_behind(p, s, i + 1, true);
        } else if whitespace(s[i]) {
            lemma_skip_behind(p, s, i + 1, fresh);
        } else if s[i] == '#' && fresh {
            lemma_digits_end_behind(p, s, i + 1);
            lemma_digits_end(s, i + 1);
            lemma_digits_end(p + s, i + 1 + k);
            let d = digits_end(s, i + 1);
            assert((p + s).subrange(i + 1 + k, d + k) =~= s.subrange(i + 1, d));
            let n = comment_lines(s, i + 1, d);
            lemma_after_lines_behind(p, s, d, n);
            lemma_after_lines(s, d, n);
            lemma_after_lines(p + s, d + k, n);
            lemma_skip_behind(p, s, after_lines(s, d, n), true);
        }
    }
}

proof fn lemma_group_end_behind(p: Seq<char>, s: Seq<char>, i: int)
    requires
        0 <= i <= s.len(),
    ensures
        group_end(p + s, i + p.len()) == group_end(s, i) + p.len(),
    decreases s.len() - i,
{
    if i < s.len() {
        assert((p + s)[i + p.len()] == s[i]);
        if i + 1 < s.len() {
            assert((p + s)[i + 1 + p.len()] == s[i + 1]);
        }
        lemma_group_end_behind(p, s, i + 1);
    }
}

proof fn lemma_word_end_behind(p: Seq<char>, s: Seq<char>, i: int)
    requires
        0 <= i <= s.len(),
    ensures
        word_end(p + s, i + p.len()) == word_end(s, i) + p.len(),
    decreases s.len() - i,
{
    if i < s.len() {
        assert((p + s)[i + p.len()] == s[i]);
        lemma_word_end_behind(p, s, i + 1);
    }
}

proof fn lemma_quote_end_behind(p: Seq<char>, s: Seq<char>, i: int)
    requires
        0 <= i <= s.len(),
    ensures
        quote_end(p + s, i + p.len()) == quote_end(s, i) + p.len(),
    decreases s.len() - i,
{
    if i < s.len() {
        assert((p + s)[i + p.len()] == s[i]);
        lemma_quote_end_behind(p, s, i + 1);
    }
}

proof fn lemma_string_behind(p: Seq<char>, s: Seq<char>, i: int, acc: Seq<char>)
    requires
        0 <= i <= s.len(),
    ensures
        match string_from(s, i, acc) {
            Some((e, t)) => string_from(p + s, i + p.len(), acc) == Some((e + p.len(), t)),
            None => string_from(p + s, i + p.len(), acc) is None,
        },
    decreases s.len() - i,
{
    let k = p.len() as int;
    if i < s.len() {
        assert((p + s)[i + k] == s[i]);
        if s[i] == '"' {
        } else if s[i] == '\\' {
            if i + 1 < s.len() {
                assert((p + s)[i + 1 + k] == s[i + 1]);
                lemma_string_behind(p, s, i + 2, acc.push(crate::lexer::unescape(s[i + 1])));
            }
        } else {
            lemma_string_behind(p, s, i + 1, acc.push(s[i]));
        }
    }
}

proof fn lemma_scan_behind(p: Seq<char>, s: Seq<char>, i: int)
    requires
        0 <= i < s.len(),
    ensures
        match scan(s, i) {
            Ok((t, e)) => scan(p + s, i + p.len()) == Ok::<_, Seq<char>>((t, e + p.len())),
            Err(_) => scan(p + s, i + p.len()) is Err,
        },
{
    let k = p.len() as int;
    let all = p + s;
    assert(all[i + k] == s[i]);
    if i + 1 < s.len() {
        assert(all[i + 1 + k] == s[i + 1]);
    }
    lemma_group_end_behind(p, s, i);
    lemma_group_end(s, i);
    let g = group_end(s, i);
    if g < s.len() {
        assert(all[g + k] == s[g]);
        if g + 1 < s.len() {
            assert(all[g + 1 + k] == s[g + 1]);
            lemma_group_end_behind(p, s, g + 1);
            lemma_group_end(s, g + 1);
        }
    }
    let n = numeral_end(s, i);
    assert(numeral_end(all, i + k) == n + k);
    assert(all.subrange(i + k, n + k) =~= s.subrange(i, n));
    lemma_word_end_behind(p, s, i + 1);
    lemma_word_end(s, i + 1);
    let e = word_end(s, i + 1);
    assert(all.subrange(i + k, e + k) =~= s.subrange(i, e));
    if e < s.len() {
        assert(all[e + k] == s[e]);
    }
    lemma_quote_end_behind(p, s, i + 1);
    lemma_quote_end(s, i + 1);
    let q = quote_end(s, i + 1);
    assert(all.subrange(i + 1 + k, q + k) =~= s.subrange(i + 1, q));
    lemma_string_behind(p, s, i + 1, Seq::empty());
}

proof fn lemma_tokens_behind(p: Seq<char>, s: Seq<char>, i: int, fresh: bool, acc: Seq<SpannedV>)
    requires
        0 <= i <= s.len(),
    ensures
        match tokens_from(s, i, fresh, acc) {
            Ok(ts) => tokens_from(
                p + s,
                i + p.len(),
                fresh,
                further_down(acc, newlines(p, p.len() as int)),
            ) == Ok::<Seq<SpannedV>, Seq<char>>(further_down(ts, newlines(p, p.len() as int))),
            Err(_) => tokens_from(p + s, i + p.len(), fresh, further_down(acc, newlines(p, p.len() as int))) is Err,
        },
    decreases s.len() - i,
{
    let k = p.len() as int;
    let n = newlines(p, k);
    lemma_next(s, i, fresh);
    lemma_next(p + s, i + k, fresh);
    lemma_skip_behind(p, s, i, fresh);
    lemma_skip(s, i, fresh);
    if let Ok((j, _)) = skip(s, i, fresh) {
        lemma_newlines(p, s, j);
        if j < s.len() {
            lemma_scan_behind(p, s, j);
        }
        if let Ok((t, e)) = next(s, i, fresh) {
            let moved = SpannedV { token: t.token, line: t.line + n };
            assert(next(p + s, i + k, fresh) == Ok::<_, Seq<char>>((moved, e + k)));
            assert(further_down(acc.push(t), n) =~= further_down(acc, n).push(moved));
            if t.token.kind != crate::token::Kind::Eof {
                lemma_tokens_behind(p, s, e, false, acc.push(t));
            }
        }
    }
}

/// The text of a comment line: `#`, then `t`, then a newline.
pub open spec fn comment_line(t: Seq<char>) -> Seq<char> {
    seq!['#'] + t + seq!['\n']
}

/// A comment line in front of a source text changes nothing but the lines, each by one. The comment
/// is any text without a newline that does not start with a digit.
pub proof fn comments_change_only_the_lines(t: Seq<char>, src: Seq<char>)
    requires
        forall|i: int| 0 <= i < t.len() ==> #[trigger] t[i] != '\n',
        t.len() > 0 ==> !is_digit(t[0]),
    ensures
        match tokens_of(src) {
            Ok(ts) => tokens_of(comment_line(t) + src) == Ok::<Seq<SpannedV>, Seq<char>>(further_down(ts, 1)),
            Err(_) => tokens_of(comment_line(t) + src) is Err,
        },
{
    let p = comment_line(t);
    let all = p + src;
    let k = p.len() as int;
    assert(all[0] == '#');
    assert(all[k - 1] == '\n');
    assert forall|i: int| 0 < i < k - 1 implies #[trigger] all[i] != '\n' by {
        assert(all[i] == t[i - 1]);
    }
    assert(!is_digit(all[1])) by {
        if t.len() > 0 {
            assert(all[1] == t[0]);
        }
    }
    assert(digits_end(all, 1) == 1);
    lemma_no_newline(all, 1, k - 1);
    assert(after_lines(all, 1, 1) == k) by {
        reveal_with_fuel(after_lines, 3);
    }
    assert(skip(all, 0, true) == skip(all, k, true)) by {
        lemma_digits_end(all, 1);
        lemma_after_lines(all, 1, 1);
        assert(!whitespace('#'));
    }
    assert(newlines(p, k) == 1) by {
        lemma_one_newline(p, k - 1);
        assert(p[k - 1] == '\n');
        assert forall|i: int| 0 <= i < k - 1 implies #[trigger] p[i] != '\n' by {
            assert(p[i] == all[i]);
        }
    }
    lemma_next(all, 0, true);
    lemma_next(all, k, true);
    assert(next(all, 0, true) == next(all, k, true));
    assert(tokens_from(all, 0, true, Seq::empty()) == tokens_from(all, k, true, Seq::empty()));
    lemma_tokens_behind(p, src, 0, true, Seq::empty());
    assert(further_down(Seq::empty(), 1) =~= Seq::<SpannedV>::empty());
}

proof fn lemma_no_newline(s: Seq<char>, i: int, j: int)
    requires
        0 <= i <= j < s.len(),
        s[j] == '\n',
        forall|k: int| i <= k < j ==> #[trigger] s[k] != '\n',
    ensures
        line_end(s, i) == j,
    decreases j - i,
{
    if i < j {
        lemma_no_newline(s, i + 1, j);
    }
}

proof fn lemma_one_newline(s: Seq<char>, i: int)
    requires
        0 <= i <= s.len(),
    ensures
        (forall|k: int| 0 <= k < i ==> #[trigger] s[k] != '\n') ==> newlines(s, i) == 0,
    decreases i,
{
    if i > 0 {
        lemma_one_newline(s, i - 1);
    }
}

/// Reading on fails exactly at a `#` that comes after something else on its line.
pub proof fn only_misplaced_marks_are_refused(src: Seq<char>, pos: int, fresh: bool)
    requires
        0 <= pos <= src.len(),
    ensures
        skip(src, pos, fresh) is Err <==> !fresh && blanks_end(src, pos) < src.len() && src[blanks_end(src, pos)] == '#',
    decreases src.len() - pos,
{
    if pos < src.len() {
        if src[pos] == '\n' {
            only_misplaced_marks_are_refused(src, pos + 1, true);
        } else if whitespace(src[pos]) {
            only_misplaced_marks_are_refused(src, pos + 1, fresh);
        } else if src[pos] == '#' && fresh {
            lemma_digits_end(src, pos + 1);
            let d = digits_end(src, pos + 1);
            let n = comment_lines(src, pos + 1, d);
            lemma_after_lines(src, d, n);
            only_misplaced_marks_are_refused(src, after_lines(src, d, n), true);
        }
    }
}

} // verus!
