//! Decimal notation: the digits of natural numbers, and numerals such as `3.25` kept as text.

use vstd::prelude::*;
use crate::text::{chars_of, slice_text, text2, text4};

verus! {

/// Whether `c` is one of the ten ASCII digits.
pub open spec fn is_digit(c: char) -> bool {
    '0' <= c && c <= '9'
}

/// What the digit `c` counts for; nothing, if `c` is no digit.
pub open spec fn digit_value(c: char) -> nat {
    if is_digit(c) {
        (c as int - '0' as int) as nat
    } else {
        0
    }
}

/// The digit that stands for `d`.
pub open spec fn digit(d: nat) -> char {
    (48 + d) as char
}

/// `n` in decimal notation, without leading zeros.
pub open spec fn decimal(n: nat) -> Seq<char>
    decreases n,
{
    if n < 10 {
        seq![digit(n)]
    } else {
        decimal(n / 10).push(digit(n % 10))
    }
}

/// The number that a run of digits denotes.
pub open spec fn value(s: Seq<char>) -> nat
    decreases s.len(),
{
    if s.len() == 0 {
        0
    } else {
        value(s.drop_last()) * 10 + digit_value(s.last())
    }
}

/// Whether `s` is a run of digits, possibly empty.
pub open spec fn all_digits(s: Seq<char>) -> bool {
    forall|i: int| 0 <= i < s.len() ==> is_digit(#[trigger] s[i])
}

/// Reading the decimal notation of a number gives the number back.
pub proof fn decimal_denotes(n: nat)
    ensures
        value(decimal(n)) == n,
        all_digits(decimal(n)),
        decimal(n).len() > 0,
    decreases n,
{
    if n < 10 {
        let s = decimal(n);
        assert(s.drop_last() =~= Seq::<char>::empty());
        assert(value(s.drop_last()) == 0);
    } else {
        decimal_denotes(n / 10);
        let s = decimal(n);
        assert(s.drop_last() =~= decimal(n / 10));
    }
}

/// Whether `c` is one of the ten ASCII digits.
pub fn is_digit_char(c: char) -> (r: bool)
    ensures
        r == is_digit(c),
{
    '0' <= c && c <= '9'
}

/// `n` in decimal notation.
pub fn decimal_text(n: u64) -> (r: String)
    ensures
        r@ == decimal(n as nat),
    decreases n,
{
    if n < 10 {
        let mut s: String = String::new();
        s.push((48u8 + n as u8) as char);
        assert(s@ =~= decimal(n as nat));
        s
    } else {
        let mut s: String = decimal_text(n / 10);
        s.push((48u8 + (n % 10) as u8) as char);
        s
    }
}

// ---------------------------------------------------------------------------
// Numerals: digits, optionally a point and more digits
// ---------------------------------------------------------------------------

/// Where the first `.` at or after `i` stands (the length if there is none).
pub open spec fn point_from(s: Seq<char>, i: int) -> int
    decreases s.len() - i,
{
    if 0 <= i < s.len() && s[i] != '.' {
        point_from(s, i + 1)
    } else {
        i
    }
}

/// The search for the point stays inside the text.
pub proof fn lemma_point_from(s: Seq<char>, i: int)
    requires
        0 <= i <= s.len(),
    ensures
        i <= point_from(s, i) <= s.len(),
        point_from(s, i) < s.len() ==> s[point_from(s, i)] == '.',
        forall|k: int| i <= k < point_from(s, i) ==> s[k] != '.',
    decreases s.len() - i,
{
    if i < s.len() && s[i] != '.' {
        lemma_point_from(s, i + 1);
    }
}

/// What stands before the point.
pub open spec fn whole_part(s: Seq<char>) -> Seq<char> {
    s.subrange(0, point_from(s, 0))
}

/// What stands behind the point; empty without one.
pub open spec fn fraction_part(s: Seq<char>) -> Seq<char> {
    if point_from(s, 0) < s.len() {
        s.subrange(point_from(s, 0) + 1, s.len() as int)
    } else {
        Seq::empty()
    }
}

/// Whether nothing but zeros stands in `s` from `i` on.
pub open spec fn zeros_from(s: Seq<char>, i: int) -> bool {
    forall|k: int| i <= k < s.len() ==> s[k] == '0'
}

/// Whether the numeral denotes a whole number.
pub open spec fn is_whole(s: Seq<char>) -> bool {
    zeros_from(fraction_part(s), 0)
}

/// The whole number that stands before the point.
pub open spec fn whole_value(s: Seq<char>) -> nat {
    value(whole_part(s))
}

/// Where the leading zeros of `s` end, leaving at least one character.
pub open spec fn leading_zeros(s: Seq<char>, i: int) -> int
    decreases s.len() - i,
{
    if 0 <= i && i + 1 < s.len() && s[i] == '0' {
        leading_zeros(s, i + 1)
    } else {
        i
    }
}

/// Where the trailing zeros of `s[..j]` begin.
pub open spec fn trailing_zeros(s: Seq<char>, j: int) -> int
    decreases j,
{
    if 0 < j <= s.len() && s[j - 1] == '0' {
        trailing_zeros(s, j - 1)
    } else {
        j
    }
}

/// A numeral from its two parts, without needless zeros.
pub open spec fn plain_numeral(whole: Seq<char>, fraction: Seq<char>) -> Seq<char> {
    let w = if whole.len() == 0 {
        seq!['0']
    } else {
        whole.subrange(leading_zeros(whole, 0), whole.len() as int)
    };
    let f = fraction.subrange(0, trailing_zeros(fraction, fraction.len() as int));
    if f.len() == 0 {
        w
    } else {
        w.push('.') + f
    }
}

/// The numeral without needless zeros, as it is shown in messages.
pub open spec fn shown(s: Seq<char>) -> Seq<char> {
    plain_numeral(whole_part(s), fraction_part(s))
}

/// Where the point of `chars` stands (the length if there is none).
fn find_point(chars: &Vec<char>) -> (r: usize)
    ensures
        r <= chars@.len(),
        r == point_from(chars@, 0),
{
    let mut i: usize = 0;
    while i < chars.len() && chars[i] != '.'
        invariant
            i <= chars@.len(),
            point_from(chars@, 0) == point_from(chars@, i as int),
        decreases chars@.len() - i,
    {
        i = i + 1;
    }
    i
}

/// The part of `chars` between two bounds, as a vector of its own.
pub fn sub_chars(chars: &Vec<char>, from: usize, to: usize) -> (r: Vec<char>)
    requires
        from <= to <= chars@.len(),
    ensures
        r@ == chars@.subrange(from as int, to as int),
{
    let mut out: Vec<char> = Vec::new();
    let mut i: usize = from;
    assert(out@ =~= chars@.subrange(from as int, i as int));
    while i < to
        invariant
            from <= i <= to <= chars@.len(),
            out@ == chars@.subrange(from as int, i as int),
        decreases to - i,
    {
        out.push(chars[i]);
        i = i + 1;
        assert(out@ =~= chars@.subrange(from as int, i as int));
    }
    out
}

/// The two parts of a numeral.
pub fn split_numeral(chars: &Vec<char>) -> (r: (Vec<char>, Vec<char>))
    ensures
        r.0@ == whole_part(chars@),
        r.1@ == fraction_part(chars@),
{
    let p: usize = find_point(chars);
    let whole: Vec<char> = sub_chars(chars, 0, p);
    if p < chars.len() {
        (whole, sub_chars(chars, p + 1, chars.len()))
    } else {
        (whole, Vec::new())
    }
}

/// Whether the numeral denotes a whole number.
pub fn whole_number(text: &str) -> (r: bool)
    ensures
        r == is_whole(text@),
{
    let chars: Vec<char> = chars_of(text);
    let (_, f) = split_numeral(&chars);
    let mut i: usize = 0;
    while i < f.len()
        invariant
            i <= f@.len(),
            f@ == fraction_part(text@),
            forall|k: int| 0 <= k < i ==> f@[k] == '0',
        decreases f@.len() - i,
    {
        if f[i] != '0' {
            return false;
        }
        i = i + 1;
    }
    true
}

/// The whole number before the point, or the largest `u64` if it is larger than that.
pub fn capped_whole_value(text: &str) -> (r: u64)
    ensures
        whole_value(text@) <= u64::MAX ==> r == whole_value(text@),
        whole_value(text@) > u64::MAX ==> r == u64::MAX,
{
    let chars: Vec<char> = chars_of(text);
    let (w, _) = split_numeral(&chars);
    capped_value(&w)
}

/// The number that a run of digits denotes, or the largest `u64` if it is larger than that.
pub fn capped_value(w: &Vec<char>) -> (r: u64)
    ensures
        value(w@) <= u64::MAX ==> r == value(w@),
        value(w@) > u64::MAX ==> r == u64::MAX,
{
    let mut v: u64 = 0;
    let mut i: usize = 0;
    while i < w.len()
        invariant
            i <= w@.len(),
            value(w@.take(i as int)) <= u64::MAX ==> v == value(w@.take(i as int)),
            value(w@.take(i as int)) > u64::MAX ==> v == u64::MAX,
        decreases w@.len() - i,
    {
        proof {
            let next = w@.take(i + 1);
            assert(next.drop_last() =~= w@.take(i as int));
            assert(next.last() == w@[i as int]);
        }
        let c: char = w[i];
        let d: u64 = if is_digit_char(c) {
            c as u64 - 48
        } else {
            0
        };
        if v > (u64::MAX - d) / 10 {
            v = u64::MAX;
        } else {
            v = v * 10 + d;
        }
        i = i + 1;
    }
    assert(w@.take(w@.len() as int) =~= w@);
    v
}

/// A numeral from its two parts, without needless zeros.
pub fn make_numeral(whole: &Vec<char>, fraction: &Vec<char>) -> (r: String)
    ensures
        r@ == plain_numeral(whole@, fraction@),
{
    let mut i: usize = 0;
    while i < whole.len() && whole.len() - i > 1 && whole[i] == '0'
        invariant
            i <= whole@.len(),
            whole@.len() > 0 ==> i < whole@.len(),
            leading_zeros(whole@, 0) == leading_zeros(whole@, i as int),
        decreases whole@.len() - i,
    {
        i = i + 1;
    }
    let mut j: usize = fraction.len();
    while 0 < j && fraction[j - 1] == '0'
        invariant
            j <= fraction@.len(),
            trailing_zeros(fraction@, fraction@.len() as int) == trailing_zeros(fraction@, j as int),
        decreases j,
    {
        j = j - 1;
    }
    let mut s: String = String::new();
    if whole.len() == 0 {
        s.push('0');
        assert(s@ =~= seq!['0']);
    } else {
        s = slice_text(whole, i, whole.len());
    }
    if j > 0 {
        s.push('.');
        push_all(&mut s, fraction, j);
        assert(fraction@.take(j as int) =~= fraction@.subrange(0, j as int));
    } else {
        assert(fraction@.subrange(0, 0).len() == 0);
    }
    s
}

/// Adds the first `n` characters of `chars` to `s`.
fn push_all(s: &mut String, chars: &Vec<char>, n: usize)
    requires
        n <= chars@.len(),
    ensures
        final(s)@ == old(s)@ + chars@.take(n as int),
{
    let mut i: usize = 0;
    assert(s@ =~= old(s)@ + chars@.take(0));
    while i < n
        invariant
            i <= n <= chars@.len(),
            s@ == old(s)@ + chars@.take(i as int),
        decreases n - i,
    {
        s.push(chars[i]);
        i = i + 1;
        assert(s@ =~= old(s)@ + chars@.take(i as int));
    }
}

/// The numeral without needless zeros, as it is shown in messages.
pub fn shown_numeral(text: &str) -> (r: String)
    ensures
        r@ == shown(text@),
{
    let chars: Vec<char> = chars_of(text);
    let (w, f) = split_numeral(&chars);
    make_numeral(&w, &f)
}

/// The digits `d`, the first of them before the point, with an exponent behind them.
pub open spec fn with_exponent(d: Seq<char>, exponent: Seq<char>) -> Seq<char> {
    let s = d.subrange(0, trailing_zeros(d, d.len() as int));
    if s.len() <= 1 {
        s + exponent
    } else {
        s.subrange(0, 1) + "."@ + s.subrange(1, s.len() as int) + exponent
    }
}

/// A number the way it is shown with a point: a whole number has one digit behind the point, and a
/// number from ten to the power 16 on or below ten to the power -4 has an exponent. All digits are
/// shown.
pub open spec fn pointed(text: Seq<char>) -> Seq<char> {
    let t = shown(text);
    let w = whole_part(t);
    let f = fraction_part(t);
    let z = leading_zeros(f, 0);
    if w.len() >= 17 {
        with_exponent(w + f, "e"@ + decimal((w.len() - 1) as nat))
    } else if w == seq!['0'] && z >= 4 {
        with_exponent(f.subrange(z, f.len() as int), "e-"@ + decimal((z + 1) as nat))
    } else if f.len() == 0 {
        t + ".0"@
    } else {
        t
    }
}

/// The digits `d`, the first of them before the point, with an exponent behind them.
fn exponent_text(d: &Vec<char>, exponent: &str) -> (r: String)
    ensures
        r@ == with_exponent(d@, exponent@),
{
    let mut j: usize = d.len();
    while 0 < j && d[j - 1] == '0'
        invariant
            j <= d@.len(),
            trailing_zeros(d@, d@.len() as int) == trailing_zeros(d@, j as int),
        decreases j,
    {
        j = j - 1;
    }
    let ghost s = d@.subrange(0, j as int);
    if j <= 1 {
        let front: String = slice_text(d, 0, j);
        text2(&front, exponent)
    } else {
        let first: String = slice_text(d, 0, 1);
        let rest: String = slice_text(d, 1, j);
        assert(s.subrange(0, 1) =~= d@.subrange(0, 1));
        assert(s.subrange(1, s.len() as int) =~= d@.subrange(1, j as int));
        text4(&first, ".", &rest, exponent)
    }
}

/// A number the way it is shown with a point.
pub fn pointed_numeral(text: &str) -> (r: String)
    ensures
        r@ == pointed(text@),
{
    let t: String = shown_numeral(text);
    let chars: Vec<char> = chars_of(&t);
    let (w, f) = split_numeral(&chars);
    let mut z: usize = 0;
    while z < f.len() && f.len() - z > 1 && f[z] == '0'
        invariant
            z == 0 || z < f@.len(),
            leading_zeros(f@, 0) == leading_zeros(f@, z as int),
        decreases f@.len() - z,
    {
        z = z + 1;
    }
    let zero: bool = w.len() == 1 && w[0] == '0';
    assert(zero == (w@ =~= seq!['0']));
    if w.len() >= 17 {
        let mut d: Vec<char> = w.clone();
        let ghost w0 = w@;
        let mut i: usize = 0;
        assert(d@ =~= w@ + f@.take(0));
        while i < f.len()
            invariant
                i <= f@.len(),
                d@ == w@ + f@.take(i as int),
            decreases f@.len() - i,
        {
            d.push(f[i]);
            i = i + 1;
            assert(d@ =~= w@ + f@.take(i as int));
        }
        assert(f@.take(f@.len() as int) =~= f@);
        let n: String = decimal_text(w.len() as u64 - 1);
        let e: String = text2("e", &n);
        exponent_text(&d, &e)
    } else if zero && z >= 4 {
        let d: Vec<char> = sub_chars(&f, z, f.len());
        let n: String = decimal_text(z as u64 + 1);
        let e: String = text2("e-", &n);
        exponent_text(&d, &e)
    } else if f.len() == 0 {
        text2(&t, ".0")
    } else {
        t
    }
}

} // verus!
