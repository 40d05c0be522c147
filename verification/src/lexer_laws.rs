//! What holds of the tokens of every source text.

use vstd::prelude::*;
use crate::lexer::{
    group_end, lemma_group_end, lemma_next, lemma_scan, lemma_skip, line_at, newlines, next, no_commas,
    numeral_end, scan, skip, tokens_from, tokens_of, SpannedV,
};
use crate::numeral::{all_digits, fraction_part, is_digit, lemma_point_from, point_from, whole_part};
use crate::token::Kind;

verus! {

/// Lines are counted upwards.
pub proof fn lemma_newlines_grow(src: Seq<char>, i: int, j: int)
    requires
        0 <= i <= j <= src.len(),
    ensures
        newlines(src, i) <= newlines(src, j),
    decreases j,
{
    if i < j {
        lemma_newlines_grow(src, i, j - 1);
    }
}

/// What holds of the tokens that are read behind those in `acc`.
pub proof fn lemma_tokens_end(src: Seq<char>, pos: int, fresh: bool, acc: Seq<SpannedV>)
    requires
        0 <= pos <= src.len(),
    ensures
        tokens_from(src, pos, fresh, acc) matches Ok(ts) ==> {
            &&& acc.len() < ts.len()
            &&& ts.take(acc.len() as int) == acc
            &&& ts.last().token.kind == Kind::Eof
            &&& forall|i: int| acc.len() <= i < ts.len() - 1 ==> (#[trigger] ts[i]).token.kind != Kind::Eof
            &&& forall|i: int| acc.len() <= i < ts.len() ==> line_at(src, pos) <= (#[trigger] ts[i]).line
            &&& forall|i: int| acc.len() <= i < ts.len() ==> (#[trigger] ts[i]).line <= line_at(src, src.len() as int)
            &&& forall|i: int, j: int|
                acc.len() <= i <= j < ts.len() ==> (#[trigger] ts[i]).line <= (#[trigger] ts[j]).line
        },
    decreases src.len() - pos,
{
    lemma_next(src, pos, fresh);
    lemma_skip(src, pos, fresh);
    if let Ok((t, e)) = next(src, pos, fresh) {
        let i = skip(src, pos, fresh)->Ok_0.0;
        lemma_newlines_grow(src, pos, i);
        lemma_newlines_grow(src, i, src.len() as int);
        if i < src.len() {
            lemma_scan(src, i);
        }
        let more = acc.push(t);
        if t.token.kind == Kind::Eof {
            assert(more.take(acc.len() as int) =~= acc);
        } else {
            lemma_newlines_grow(src, i, e);
            lemma_tokens_end(src, e, false, more);
            if let Ok(ts) = tokens_from(src, e, false, more) {
                assert(ts.take(acc.len() as int) =~= ts.take(more.len() as int).take(acc.len() as int));
                assert(ts[acc.len() as int] == ts.take(more.len() as int)[acc.len() as int]);
                assert(more.take(acc.len() as int) =~= acc);
            }
        }
    }
}

/// The tokens of a source text end with `Eof`, and no other token is `Eof`.
pub proof fn tokens_end_in_eof(src: Seq<char>)
    ensures
        tokens_of(src) matches Ok(ts) ==> {
            &&& ts.len() > 0
            &&& forall|i: int| 0 <= i < ts.len() ==> ((#[trigger] ts[i]).token.kind == Kind::Eof <==> i == ts.len() - 1)
        },
{
    lemma_tokens_end(src, 0, true, Seq::empty());
}

/// The lines of the tokens go up and never beyond the last line of the source text.
pub proof fn token_lines_go_up(src: Seq<char>, i: int, j: int)
    requires
        tokens_of(src) is Ok,
        0 <= i <= j < tokens_of(src)->Ok_0.len(),
    ensures
        1 <= tokens_of(src)->Ok_0[i].line,
        tokens_of(src)->Ok_0[i].line <= tokens_of(src)->Ok_0[j].line,
        tokens_of(src)->Ok_0[j].line <= line_at(src, src.len() as int),
{
    lemma_tokens_end(src, 0, true, Seq::empty());
}

// ---------------------------------------------------------------------------
// Numerals
// ---------------------------------------------------------------------------

/// Digits, or digits, a point and digits.
pub open spec fn is_numeral(s: Seq<char>) -> bool {
    &&& all_digits(whole_part(s))
    &&& whole_part(s).len() > 0
    &&& all_digits(fraction_part(s))
    &&& point_from(s, 0) < s.len() ==> fraction_part(s).len() > 0
}

/// Whether nothing but digits and commas stands in `s`.
pub open spec fn grouped(s: Seq<char>) -> bool {
    forall|k: int| 0 <= k < s.len() ==> is_digit(#[trigger] s[k]) || s[k] == ','
}

proof fn lemma_group(src: Seq<char>, i: int)
    requires
        0 <= i <= src.len(),
    ensures
        forall|k: int| i <= k < group_end(src, i) ==> is_digit(#[trigger] src[k]) || src[k] == ',',
        group_end(src, i) < src.len() ==> !is_digit(src[group_end(src, i)]),
    decreases src.len() - i,
{
    lemma_group_end(src, i);
    if i < src.len() && is_digit(src[i]) {
        lemma_group(src, i + 1);
    } else if i + 1 < src.len() && src[i] == ',' && is_digit(src[i + 1]) {
        lemma_group(src, i + 1);
    }
}

pub proof fn lemma_group_of_digits(src: Seq<char>, i: int, j: int)
    requires
        0 <= i <= j <= src.len(),
        forall|k: int| i <= k < j ==> is_digit(#[trigger] src[k]),
        j == src.len() || (!is_digit(src[j]) && src[j] != ','),
    ensures
        group_end(src, i) == j,
    decreases j - i,
{
    if i < j {
        lemma_group_of_digits(src, i + 1, j);
    }
}

proof fn lemma_no_commas_push(s: Seq<char>, c: char)
    ensures
        no_commas(s.push(c)) == if c == ',' {
            no_commas(s)
        } else {
            no_commas(s).push(c)
        },
{
    assert(s.push(c).drop_last() =~= s);
}

proof fn lemma_no_commas_add(a: Seq<char>, b: Seq<char>)
    ensures
        no_commas(a + b) == no_commas(a) + no_commas(b),
    decreases b.len(),
{
    if b.len() == 0 {
        assert(a + b =~= a);
        assert(no_commas(a) + no_commas(b) =~= no_commas(a));
    } else {
        lemma_no_commas_add(a, b.drop_last());
        assert((a + b).drop_last() =~= a + b.drop_last());
        assert((a + b).last() == b.last());
        assert(no_commas(a + b) =~= no_commas(a) + no_commas(b));
    }
}

proof fn lemma_no_commas_grouped(s: Seq<char>)
    requires
        grouped(s),
    ensures
        all_digits(no_commas(s)),
        s.len() > 0 && is_digit(s[0]) ==> no_commas(s).len() > 0,
    decreases s.len(),
{
    if s.len() > 0 {
        assert forall|k: int| 0 <= k < s.drop_last().len() implies is_digit(#[trigger] s.drop_last()[k]) || s.drop_last()[k]
            == ',' by {
            assert(s.drop_last()[k] == s[k]);
        }
        lemma_no_commas_grouped(s.drop_last());
        if s.len() > 1 {
            assert(s.drop_last()[0] == s[0]);
        }
    }
}

pub proof fn lemma_no_commas_of_none(s: Seq<char>)
    requires
        forall|k: int| 0 <= k < s.len() ==> #[trigger] s[k] != ',',
    ensures
        no_commas(s) == s,
    decreases s.len(),
{
    if s.len() > 0 {
        assert forall|k: int| 0 <= k < s.drop_last().len() implies #[trigger] s.drop_last()[k] != ',' by {
            assert(s.drop_last()[k] == s[k]);
        }
        lemma_no_commas_of_none(s.drop_last());
        assert(s.drop_last().push(s.last()) =~= s);
    }
}

/// A numeral is made of its two parts.
proof fn lemma_numeral_parts(a: Seq<char>, b: Seq<char>)
    requires
        all_digits(a),
    ensures
        whole_part(a) == a,
        fraction_part(a) == Seq::<char>::empty(),
        point_from(a, 0) == a.len(),
        whole_part(a.push('.') + b) == a,
        fraction_part(a.push('.') + b) == b,
        point_from(a.push('.') + b, 0) == a.len(),
{
    lemma_point_from(a, 0);
    let p = point_from(a, 0);
    if p < a.len() {
        assert(is_digit(a[p]));
    }
    assert(whole_part(a) =~= a);
    let s = a.push('.') + b;
    lemma_point_from(s, 0);
    let q = point_from(s, 0);
    if q < a.len() {
        assert(is_digit(a[q]));
    }
    if q > a.len() {
        assert(s[a.len() as int] == '.');
    }
    assert(whole_part(s) =~= a);
    assert(fraction_part(s) =~= b);
}

/// The text of a number token is a numeral: digits, and possibly a point and more digits. No digit
/// separator is left in it.
pub proof fn number_tokens_are_numerals(src: Seq<char>, i: int)
    requires
        0 <= i < src.len(),
        is_digit(src[i]),
    ensures
        scan(src, i) matches Ok(r) ==> r.0.kind == Kind::Num && is_numeral(r.0.text),
        scan(src, i) is Ok,
{
    lemma_group_end(src, i);
    lemma_group(src, i);
    let g = group_end(src, i);
    let a = src.subrange(i, g);
    assert(grouped(a));
    assert(is_digit(a[0]));
    lemma_no_commas_grouped(a);
    let e = numeral_end(src, i);
    if g + 1 < src.len() && src[g] == '.' && is_digit(src[g + 1]) {
        lemma_group_end(src, g + 1);
        lemma_group(src, g + 1);
        let b = src.subrange(g + 1, e);
        assert(grouped(b));
        assert(is_digit(b[0]));
        lemma_no_commas_grouped(b);
        assert(src.subrange(i, e) =~= a.push('.') + b);
        lemma_no_commas_add(a.push('.'), b);
        lemma_no_commas_push(a, '.');
        lemma_numeral_parts(no_commas(a), no_commas(b));
    } else {
        lemma_numeral_parts(no_commas(a), Seq::empty());
    }
}

/// Digit separators are cosmetic: a numeral means the same without them.
pub proof fn separators_are_cosmetic(s: Seq<char>)
    requires
        s.len() > 0,
        is_digit(s[0]),
        numeral_end(s, 0) == s.len(),
    ensures
        scan(s, 0) matches Ok(r) ==> scan(no_commas(s), 0) matches Ok(t) ==> t.0 == r.0,
        scan(s, 0) is Ok,
        scan(no_commas(s), 0) is Ok,
{
    lemma_group_end(s, 0);
    lemma_group(s, 0);
    let g = group_end(s, 0);
    let a = s.subrange(0, g);
    assert(grouped(a));
    assert(is_digit(a[0]));
    lemma_no_commas_grouped(a);
    let t = no_commas(s);
    let n = no_commas(a);
    assert(s.subrange(0, s.len() as int) =~= s);
    if g + 1 < s.len() && s[g] == '.' && is_digit(s[g + 1]) {
        lemma_group_end(s, g + 1);
        lemma_group(s, g + 1);
        let b = s.subrange(g + 1, s.len() as int);
        assert(grouped(b));
        assert(is_digit(b[0]));
        lemma_no_commas_grouped(b);
        assert(s =~= a.push('.') + b);
        lemma_no_commas_add(a.push('.'), b);
        lemma_no_commas_push(a, '.');
        let m = no_commas(b);
        assert(t == n.push('.') + m);
        assert forall|k: int| 0 <= k < n.len() implies is_digit(#[trigger] t[k]) by {
            assert(t[k] == n[k]);
        }
        assert forall|k: int| n.len() + 1 <= k < t.len() implies is_digit(#[trigger] t[k]) by {
            assert(t[k] == m[k - n.len() - 1]);
        }
        assert(t[n.len() as int] == '.');
        lemma_group_of_digits(t, 0, n.len() as int);
        lemma_group_of_digits(t, n.len() as int + 1, t.len() as int);
    } else {
        assert(a =~= s);
        lemma_group_of_digits(t, 0, t.len() as int);
    }
    assert(t.subrange(0, t.len() as int) =~= t);
    assert forall|k: int| 0 <= k < t.len() implies #[trigger] t[k] != ',' by {}
    lemma_no_commas_of_none(t);
}

} // verus!
