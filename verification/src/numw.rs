//! Number words: literals such as `'1 million'` and `'-2.5 billion'`.

use vstd::prelude::*;
use crate::numeral::{
    fraction_part, is_digit, is_digit_char, make_numeral, plain_numeral, split_numeral, whole_part,
};
use crate::text::{chars_of, same_text, slice_text, text2, text5, trim_text, trimmed, whitespace};

verus! {

/// The text in lower case, by Unicode's rules.
pub uninterp spec fn lowercase(s: Seq<char>) -> Seq<char>;

/// `c` in lower case, if it is an ASCII letter.
pub open spec fn ascii_lower(c: char) -> char {
    if 'A' <= c && c <= 'Z' {
        (c as int + 32) as char
    } else {
        c
    }
}

/// `str::to_lowercase`. Claimed: the result depends on the text alone, and in a text of ASCII
/// characters each capital letter becomes its small letter and nothing else changes.
#[verifier::external_body]
pub(crate) fn lowercase_text(s: &str) -> (r: String)
    ensures
        r@ == lowercase(s@),
        (forall|i: int| 0 <= i < s@.len() ==> #[trigger] s@[i] <= '\u{7f}') ==> r@ == s@.map_values(
            |c: char| ascii_lower(c),
        ),
{
    s.to_lowercase()
}

/// The power of ten that a magnitude word stands for.
pub open spec fn magnitude(word: Seq<char>) -> Option<nat> {
    if word == "thousand"@ {
        Some(3)
    } else if word == "million"@ {
        Some(6)
    } else if word == "billion"@ {
        Some(9)
    } else if word == "trillion"@ {
        Some(12)
    } else if word == "quadrillion"@ {
        Some(15)
    } else if word == "quintillion"@ {
        Some(18)
    } else {
        None
    }
}

/// The power of ten that a magnitude word stands for.
pub fn magnitude_of(word: &str) -> (r: Option<usize>)
    ensures
        match r {
            Some(k) => magnitude(word@) == Some(k as nat) && k <= 18,
            None => magnitude(word@) is None,
        },
{
    if same_text(word, "thousand") {
        Some(3)
    } else if same_text(word, "million") {
        Some(6)
    } else if same_text(word, "billion") {
        Some(9)
    } else if same_text(word, "trillion") {
        Some(12)
    } else if same_text(word, "quadrillion") {
        Some(15)
    } else if same_text(word, "quintillion") {
        Some(18)
    } else {
        None
    }
}

/// One past the last white space before `j`; 0 if there is none.
pub open spec fn last_word(s: Seq<char>, j: int) -> int
    decreases j,
{
    if 0 < j <= s.len() && !whitespace(s[j - 1]) {
        last_word(s, j - 1)
    } else {
        j
    }
}

/// Whether `s[i]` may stand in a number: a digit, the first point, or a comma between digits.
pub open spec fn number_char(s: Seq<char>, i: int) -> bool {
    ||| is_digit(s[i])
    ||| s[i] == '.' && forall|k: int| 0 <= k < i ==> #[trigger] s[k] != '.'
    ||| s[i] == ',' && 0 < i && i + 1 < s.len() && is_digit(s[i - 1]) && is_digit(s[i + 1])
}

/// Whether `s` is a whole or decimal number, in which commas may separate digits.
pub open spec fn is_number(s: Seq<char>) -> bool {
    &&& forall|i: int| 0 <= i < s.len() ==> #[trigger] number_char(s, i)
    &&& exists|i: int| 0 <= i < s.len() && is_digit(#[trigger] s[i])
}

/// What is left of `s` without its sign.
pub open spec fn unsigned(s: Seq<char>) -> Seq<char> {
    if s.len() > 0 && s[0] == '-' {
        s.subrange(1, s.len() as int)
    } else {
        s
    }
}

/// `f`, or `f` and as many zeros behind it as make `k` digits.
pub open spec fn padded(f: Seq<char>, k: nat) -> Seq<char>
    decreases k - f.len(),
{
    if f.len() >= k {
        f
    } else {
        padded(f.push('0'), k)
    }
}

/// The numeral `s` with its point moved `k` places to the right.
pub open spec fn scaled(s: Seq<char>, k: nat) -> Seq<char> {
    let f = padded(fraction_part(s), k);
    plain_numeral(whole_part(s) + f.subrange(0, k as int), f.subrange(k as int, f.len() as int))
}

/// The number `n` times ten to the power `k`, as a numeral with its sign.
pub open spec fn scaled_number(n: Seq<char>, k: nat) -> Seq<char> {
    let body = scaled(crate::lexer::no_commas(unsigned(n)), k);
    if n.len() > 0 && n[0] == '-' {
        "-"@ + body
    } else {
        body
    }
}

/// The number part and the magnitude word of a literal that has no white space at its ends. A
/// literal of one word is a number alone.
pub open spec fn literal_parts(s: Seq<char>) -> (Seq<char>, Option<Seq<char>>) {
    let j = last_word(s, s.len() as int);
    if j > 0 {
        (trimmed(s.subrange(0, j - 1)), Some(s.subrange(j, s.len() as int)))
    } else {
        (s, None)
    }
}

/// What a number part and a magnitude word in lower case denote, as a numeral. `whole` is the
/// literal that they are part of.
pub open spec fn literal_value(whole: Seq<char>, number: Seq<char>, word: Option<Seq<char>>) -> Result<
    Seq<char>,
    Seq<char>,
> {
    if !is_number(unsigned(number)) {
        Err("invalid numw literal '"@ + whole + "': '"@ + number + "' isn't a number"@)
    } else {
        match word {
            None => Ok(scaled_number(number, 0)),
            Some(w) => match magnitude(w) {
                Some(k) => Ok(scaled_number(number, k)),
                None => Err("invalid numw literal '"@ + whole + "': unrecognized magnitude word '"@ + w + "'"@),
            },
        }
    }
}

/// What a number-word literal denotes, as a numeral: an optional `-`, a whole or decimal number,
/// and an optional magnitude word in any mixture of small and capital letters.
pub open spec fn numw_value(s: Seq<char>) -> Result<Seq<char>, Seq<char>> {
    let t = trimmed(s);
    let (number, word) = literal_parts(t);
    literal_value(
        t,
        number,
        match word {
            Some(w) => Some(lowercase(w)),
            None => None,
        },
    )
}

proof fn lemma_padded(f: Seq<char>, k: nat)
    ensures
        padded(f, k).len() >= k,
    decreases k - f.len(),
{
    if f.len() < k {
        lemma_padded(f.push('0'), k);
    }
}

/// Whether `s` is a whole or decimal number, in which commas may separate digits.
fn number_ok(s: &Vec<char>) -> (r: bool)
    ensures
        r == is_number(s@),
{
    let mut i: usize = 0;
    let mut seen_digit: bool = false;
    let mut seen_point: bool = false;
    while i < s.len()
        invariant
            i <= s@.len(),
            forall|k: int| 0 <= k < i ==> #[trigger] number_char(s@, k),
            seen_digit == exists|k: int| 0 <= k < i && is_digit(#[trigger] s@[k]),
            seen_point == exists|k: int| 0 <= k < i && #[trigger] s@[k] == '.',
        decreases s@.len() - i,
    {
        let c: char = s[i];
        if is_digit_char(c) {
            seen_digit = true;
        } else if c == '.' && !seen_point {
            seen_point = true;
        } else if c == ',' && 0 < i && i < s.len() - 1 && is_digit_char(s[i - 1]) && is_digit_char(s[i + 1]) {
        } else {
            assert(!number_char(s@, i as int));
            return false;
        }
        assert(number_char(s@, i as int));
        i = i + 1;
    }
    seen_digit
}

/// The digits and the point of `s`, without its commas.
fn drop_commas(s: &Vec<char>) -> (r: Vec<char>)
    ensures
        r@ == crate::lexer::no_commas(s@),
{
    let mut out: Vec<char> = Vec::new();
    let mut i: usize = 0;
    assert(s@.take(0) =~= Seq::empty());
    while i < s.len()
        invariant
            i <= s@.len(),
            out@ == crate::lexer::no_commas(s@.take(i as int)),
        decreases s@.len() - i,
    {
        proof {
            assert(s@.take(i + 1).drop_last() =~= s@.take(i as int));
            assert(s@.take(i + 1).last() == s@[i as int]);
        }
        if s[i] != ',' {
            out.push(s[i]);
        }
        i = i + 1;
    }
    assert(s@.take(s@.len() as int) =~= s@);
    out
}

/// The number `n` times ten to the power `k`, as a numeral with its sign.
fn scale_number(n: &Vec<char>, k: usize) -> (r: String)
    requires
        k <= 18,
    ensures
        r@ == scaled_number(n@, k as nat),
{
    let negative: bool = n.len() > 0 && n[0] == '-';
    let body: Vec<char> = unsigned_chars(n);
    let digits: Vec<char> = drop_commas(&body);
    let (mut whole, mut fraction) = split_numeral(&digits);
    let ghost w0 = whole@;
    let ghost f0 = fraction@;
    while fraction.len() < k
        invariant
            padded(f0, k as nat) == padded(fraction@, k as nat),
        decreases k - fraction@.len(),
    {
        fraction.push('0');
    }
    let ghost f = fraction@;
    proof {
        lemma_padded(f0, k as nat);
        assert(f == padded(f0, k as nat));
        assert(f.subrange(0, 0) =~= Seq::empty());
        assert(w0 + Seq::<char>::empty() =~= w0);
    }
    let mut rest: Vec<char> = Vec::new();
    let mut i: usize = 0;
    while i < fraction.len()
        invariant
            i <= fraction@.len(),
            fraction@ == f,
            k <= f.len(),
            i <= k ==> whole@ == w0 + f.subrange(0, i as int) && rest@ == Seq::<char>::empty(),
            i >= k ==> whole@ == w0 + f.subrange(0, k as int) && rest@ == f.subrange(k as int, i as int),
        decreases fraction@.len() - i,
    {
        if i < k {
            whole.push(fraction[i]);
            assert(whole@ =~= w0 + f.subrange(0, i + 1));
        } else {
            rest.push(fraction[i]);
            assert(rest@ =~= f.subrange(k as int, i + 1));
        }
        i = i + 1;
        assert(i == k ==> rest@ =~= f.subrange(k as int, i as int));
    }
    assert(rest@ =~= f.subrange(k as int, f.len() as int));
    let text: String = make_numeral(&whole, &rest);
    if negative {
        text2("-", &text)
    } else {
        text
    }
}

/// What is left of `n` without its sign.
fn unsigned_chars(n: &Vec<char>) -> (r: Vec<char>)
    ensures
        r@ == unsigned(n@),
{
    if n.len() > 0 && n[0] == '-' {
        crate::numeral::sub_chars(n, 1, n.len())
    } else {
        let r: Vec<char> = crate::numeral::sub_chars(n, 0, n.len());
        assert(r@ =~= n@);
        r
    }
}

/// What a number part and a magnitude word in lower case denote, as a numeral.
pub fn number_word_value(whole: &str, number: &str, word: Option<String>) -> (r: Result<String, String>)
    ensures
        ({
            let w = match word {
                Some(w) => Some(w@),
                None => None,
            };
            match r {
                Ok(t) => literal_value(whole@, number@, w) == Ok::<Seq<char>, Seq<char>>(t@),
                Err(e) => literal_value(whole@, number@, w) == Err::<Seq<char>, Seq<char>>(e@),
            }
        }),
{
    let chars: Vec<char> = chars_of(number);
    let body: Vec<char> = unsigned_chars(&chars);
    if !number_ok(&body) {
        return Err(text5("invalid numw literal '", whole, "': '", number, "' isn't a number"));
    }
    match word {
        None => Ok(scale_number(&chars, 0)),
        Some(w) => match magnitude_of(&w) {
            Some(k) => Ok(scale_number(&chars, k)),
            None => Err(text5("invalid numw literal '", whole, "': unrecognized magnitude word '", &w, "'")),
        },
    }
}

/// What a number-word literal denotes, as a numeral.
pub fn parse_numw_string(s: &str) -> (r: Result<String, String>)
    ensures
        match r {
            Ok(t) => numw_value(s@) == Ok::<Seq<char>, Seq<char>>(t@),
            Err(e) => numw_value(s@) == Err::<Seq<char>, Seq<char>>(e@),
        },
{
    let t: String = trim_text(s);
    let chars: Vec<char> = chars_of(&t);
    let mut j: usize = chars.len();
    while 0 < j && !chars[j - 1].is_whitespace()
        invariant
            j <= chars@.len(),
            last_word(chars@, chars@.len() as int) == last_word(chars@, j as int),
        decreases j,
    {
        j = j - 1;
    }
    if j > 0 {
        let front: String = slice_text(&chars, 0, j - 1);
        let number: String = trim_text(&front);
        let word: String = slice_text(&chars, j, chars.len());
        let lower: String = lowercase_text(&word);
        number_word_value(&t, &number, Some(lower))
    } else {
        number_word_value(&t, &t, None)
    }
}

} // verus!
