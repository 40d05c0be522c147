//! Text as sequences of characters: building strings and reading them.

use vstd::prelude::*;
use vstd::string::StringExecFns;

verus! {

// ---------------------------------------------------------------------------
// What the standard library knows of characters and strings
// ---------------------------------------------------------------------------

/// Whether `c` has Unicode's `Alphabetic` property.
pub uninterp spec fn alphabetic(c: char) -> bool;

/// Whether `c` has Unicode's `Alphabetic` property or is numeric.
pub uninterp spec fn alphanumeric(c: char) -> bool;

/// Whether `c` has Unicode's `White_Space` property.
pub open spec fn whitespace(c: char) -> bool {
    ||| '\u{9}' <= c && c <= '\u{d}'
    ||| c == ' ' || c == '\u{85}' || c == '\u{a0}' || c == '\u{1680}'
    ||| '\u{2000}' <= c && c <= '\u{200a}'
    ||| c == '\u{2028}' || c == '\u{2029}' || c == '\u{202f}' || c == '\u{205f}' || c == '\u{3000}'
}

/// The text that Rust's debug formatting gives for a string: in double quotes, with escapes.
pub uninterp spec fn debug_str(s: Seq<char>) -> Seq<char>;

/// Whether `c` is an ASCII letter.
pub open spec fn ascii_letter(c: char) -> bool {
    ('a' <= c && c <= 'z') || ('A' <= c && c <= 'Z')
}

/// `char::is_alphabetic`. Claimed: the answer depends on the character alone, and of the ASCII
/// characters exactly the letters are alphabetic.
pub assume_specification[ char::is_alphabetic ](c: char) -> (r: bool)
    ensures
        r == alphabetic(c),
        c <= '\u{7f}' ==> r == ascii_letter(c),
;

/// `char::is_alphanumeric`. Claimed: the answer depends on the character alone, and of the ASCII
/// characters exactly the letters and digits are alphanumeric.
pub assume_specification[ char::is_alphanumeric ](c: char) -> (r: bool)
    ensures
        r == alphanumeric(c),
        c <= '\u{7f}' ==> r == (ascii_letter(c) || ('0' <= c && c <= '9')),
;

/// `char::is_whitespace`. Claimed: it tells the characters that have the `White_Space` property, of
/// which there are twenty-five.
pub assume_specification[ char::is_whitespace ](c: char) -> (r: bool)
    ensures
        r == whitespace(c),
;

/// `String::push`. Claimed: the character is added at the end and nothing else changes.
pub assume_specification[ String::push ](s: &mut String, c: char)
    ensures
        final(s)@ == old(s)@.push(c),
;

/// The debug formatting of `str` (`{:?}`). Claimed: the text depends on the string alone.
#[verifier::external_body]
pub(crate) fn debug_text(s: &str) -> (r: String)
    ensures
        r@ == debug_str(s@),
{
    format!("{:?}", s)
}

// ---------------------------------------------------------------------------
// Reading a string
// ---------------------------------------------------------------------------

/// The characters of `s`, in order.
pub fn chars_of(s: &str) -> (r: Vec<char>)
    ensures
        r@ == s@,
{
    let mut out: Vec<char> = Vec::new();
    for c in it: s.chars()
        invariant
            out@ == it.seq().take(it.index() as int),
    {
        out.push(c);
    }
    out
}

/// Whether two strings hold the same characters.
pub fn same_text(a: &str, b: &str) -> (r: bool)
    ensures
        r == (a@ == b@),
{
    let x: Vec<char> = chars_of(a);
    let mut i: usize = 0;
    for c in it: b.chars()
        invariant
            i == it.index(),
            it.seq() == b@,
            x@ == a@,
            i <= x@.len(),
            forall|k: int| 0 <= k < i ==> x@[k] == it.seq()[k],
    {
        if i >= x.len() || x[i] != c {
            assert(a@ != b@);
            return false;
        }
        i = i + 1;
    }
    if i == x.len() {
        assert(a@ =~= b@);
        true
    } else {
        false
    }
}

// ---------------------------------------------------------------------------
// Building a string
// ---------------------------------------------------------------------------

/// An owned copy of `a`.
pub fn text1(a: &str) -> (r: String)
    ensures
        r@ == a@,
{
    a.to_owned()
}

/// `a` followed by `b`.
pub fn text2(a: &str, b: &str) -> (r: String)
    ensures
        r@ == a@ + b@,
{
    let mut s: String = a.to_owned();
    s.append(b);
    s
}

/// Three pieces in a row.
pub fn text3(a: &str, b: &str, c: &str) -> (r: String)
    ensures
        r@ == a@ + b@ + c@,
{
    let mut s: String = text2(a, b);
    s.append(c);
    s
}

/// Four pieces in a row.
pub fn text4(a: &str, b: &str, c: &str, d: &str) -> (r: String)
    ensures
        r@ == a@ + b@ + c@ + d@,
{
    let mut s: String = text3(a, b, c);
    s.append(d);
    s
}

/// Five pieces in a row.
pub fn text5(a: &str, b: &str, c: &str, d: &str, e: &str) -> (r: String)
    ensures
        r@ == a@ + b@ + c@ + d@ + e@,
{
    let mut s: String = text4(a, b, c, d);
    s.append(e);
    s
}

/// Six pieces in a row.
pub fn text6(a: &str, b: &str, c: &str, d: &str, e: &str, f: &str) -> (r: String)
    ensures
        r@ == a@ + b@ + c@ + d@ + e@ + f@,
{
    let mut s: String = text5(a, b, c, d, e);
    s.append(f);
    s
}

/// Seven pieces in a row.
pub fn text7(a: &str, b: &str, c: &str, d: &str, e: &str, f: &str, g: &str) -> (r: String)
    ensures
        r@ == a@ + b@ + c@ + d@ + e@ + f@ + g@,
{
    let mut s: String = text6(a, b, c, d, e, f);
    s.append(g);
    s
}

/// The characters from `from` up to `to`, as a string.
pub fn slice_text(chars: &Vec<char>, from: usize, to: usize) -> (r: String)
    requires
        from <= to <= chars@.len(),
    ensures
        r@ == chars@.subrange(from as int, to as int),
{
    let mut s: String = String::new();
    let mut i: usize = from;
    assert(s@ =~= chars@.subrange(from as int, i as int));
    while i < to
        invariant
            from <= i <= to <= chars@.len(),
            s@ == chars@.subrange(from as int, i as int),
        decreases to - i,
    {
        s.push(chars[i]);
        i = i + 1;
        assert(s@ =~= chars@.subrange(from as int, i as int));
    }
    s
}

// ---------------------------------------------------------------------------
// Trimming
// ---------------------------------------------------------------------------

/// Where the first character at or after `i` that is not white space stands (the length if
/// there is none).
pub open spec fn skip_white(s: Seq<char>, i: int) -> int
    decreases s.len() - i,
{
    if 0 <= i < s.len() && whitespace(s[i]) {
        skip_white(s, i + 1)
    } else {
        i
    }
}

/// One past the last character before `j` that is not white space, but never below `i`.
pub open spec fn skip_white_back(s: Seq<char>, i: int, j: int) -> int
    decreases j,
{
    if 0 <= i < j <= s.len() && whitespace(s[j - 1]) {
        skip_white_back(s, i, j - 1)
    } else {
        j
    }
}

/// `s` without the white space at its two ends.
pub open spec fn trimmed(s: Seq<char>) -> Seq<char> {
    let i = skip_white(s, 0);
    s.subrange(i, skip_white_back(s, i, s.len() as int))
}

/// Skipping white space forward stays inside the text.
pub proof fn lemma_skip_white(s: Seq<char>, i: int)
    requires
        0 <= i <= s.len(),
    ensures
        i <= skip_white(s, i) <= s.len(),
    decreases s.len() - i,
{
    if i < s.len() && whitespace(s[i]) {
        lemma_skip_white(s, i + 1);
    }
}

/// Skipping white space backward stays between the two bounds.
pub proof fn lemma_skip_white_back(s: Seq<char>, i: int, j: int)
    requires
        0 <= i <= j <= s.len(),
    ensures
        i <= skip_white_back(s, i, j) <= j,
    decreases j,
{
    if i < j && whitespace(s[j - 1]) {
        lemma_skip_white_back(s, i, j - 1);
    }
}

/// The bounds of `chars` once the white space at its two ends is left out.
pub fn trim_bounds(chars: &Vec<char>) -> (r: (usize, usize))
    ensures
        r.0 <= r.1 <= chars@.len(),
        r.0 == skip_white(chars@, 0),
        r.1 == skip_white_back(chars@, r.0 as int, chars@.len() as int),
{
    let n: usize = chars.len();
    let mut i: usize = 0;
    while i < n && chars[i].is_whitespace()
        invariant
            i <= n,
            n == chars@.len(),
            skip_white(chars@, 0) == skip_white(chars@, i as int),
        decreases n - i,
    {
        i = i + 1;
    }
    let mut j: usize = n;
    while i < j && chars[j - 1].is_whitespace()
        invariant
            i <= j <= n,
            n == chars@.len(),
            skip_white_back(chars@, i as int, n as int) == skip_white_back(chars@, i as int, j as int),
        decreases j,
    {
        j = j - 1;
    }
    (i, j)
}

/// `s` without the white space at its two ends.
pub fn trim_text(s: &str) -> (r: String)
    ensures
        r@ == trimmed(s@),
{
    let chars: Vec<char> = chars_of(s);
    let (i, j) = trim_bounds(&chars);
    slice_text(&chars, i, j)
}

} // verus!
