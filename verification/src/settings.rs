//! Settings files, and the handshake between a program and the settings file that it names.
//!
//! A settings file takes effect only if the program links to it with `linkto*("path")*;` and the
//! file consents with `allow.link*("path")*` as its first line. Each side names the other by an
//! absolute path. The lines that follow are settings of the form `setting.value`.

use vstd::prelude::*;
use crate::lexer::{lemma_line_end, line_end};
use crate::numeral::{decimal, decimal_text};
use crate::text::{
    chars_of, debug_str, debug_text, same_text, slice_text, text1, text2, text3, text5, trim_text, trimmed,
};

verus! {

// ---------------------------------------------------------------------------
// Lines
// ---------------------------------------------------------------------------

/// The line that starts at `i` and ends at `e`, without its line ending.
pub open spec fn line_text(s: Seq<char>, i: int, e: int) -> Seq<char> {
    if e < s.len() && i < e && s[e - 1] == '\r' {
        s.subrange(i, e - 1)
    } else {
        s.subrange(i, e)
    }
}

/// The lines of a text from `i` on. A newline at the very end starts no further line.
pub open spec fn lines_from(s: Seq<char>, i: int) -> Seq<Seq<char>>
    decreases s.len() - i,
{
    if !(0 <= i < s.len()) {
        Seq::empty()
    } else {
        proof {
            lemma_line_end(s, i);
        }
        let e = line_end(s, i);
        if e < s.len() {
            seq![line_text(s, i, e)] + lines_from(s, e + 1)
        } else {
            seq![line_text(s, i, e)]
        }
    }
}

/// The lines of a text.
pub open spec fn lines_of(s: Seq<char>) -> Seq<Seq<char>> {
    lines_from(s, 0)
}

/// The texts of strings in order.
pub open spec fn texts(s: Seq<String>) -> Seq<Seq<char>> {
    Seq::new(s.len(), |i: int| s[i]@)
}

/// The lines of a text.
pub fn split_lines(s: &str) -> (r: Vec<String>)
    ensures
        texts(r@) == lines_of(s@),
{
    let chars: Vec<char> = chars_of(s);
    let mut out: Vec<String> = Vec::new();
    let mut i: usize = 0;
    assert(texts(out@) + lines_from(chars@, 0) =~= lines_of(chars@));
    while i < chars.len()
        invariant
            i <= chars@.len(),
            texts(out@) + lines_from(chars@, i as int) == lines_of(chars@),
        decreases chars@.len() - i,
    {
        let start: usize = i;
        while i < chars.len() && chars[i] != '\n'
            invariant
                start <= i <= chars@.len(),
                line_end(chars@, start as int) == line_end(chars@, i as int),
            decreases chars@.len() - i,
        {
            i = i + 1;
        }
        let line: String = if i < chars.len() && start < i && chars[i - 1] == '\r' {
            slice_text(&chars, start, i - 1)
        } else {
            slice_text(&chars, start, i)
        };
        let ghost before = texts(out@);
        out.push(line);
        if i < chars.len() {
            i = i + 1;
        }
        proof {
            assert(texts(out@) =~= before.push(line@));
            let e = line_end(chars@, start as int);
            let rest = lines_from(chars@, i as int);
            assert(seq![line@] + Seq::<Seq<char>>::empty() =~= seq![line@]);
            assert(lines_from(chars@, start as int) == seq![line@] + rest);
            assert(texts(out@) + lines_from(chars@, i as int) =~= before + (seq![line@] + rest));
        }
    }
    assert(lines_from(chars@, i as int) =~= Seq::empty());
    assert(texts(out@) + Seq::empty() =~= texts(out@));
    out
}

// ---------------------------------------------------------------------------
// The link
// ---------------------------------------------------------------------------

/// What is left of `s` behind `prefix`, if it starts with it.
pub open spec fn behind(s: Seq<char>, prefix: Seq<char>) -> Option<Seq<char>> {
    if prefix.len() <= s.len() && s.take(prefix.len() as int) == prefix {
        Some(s.skip(prefix.len() as int))
    } else {
        None
    }
}

/// What is left of `s` before `suffix`, if it ends with it.
pub open spec fn before(s: Seq<char>, suffix: Seq<char>) -> Option<Seq<char>> {
    if suffix.len() <= s.len() && s.skip(s.len() - suffix.len()) == suffix {
        Some(s.take(s.len() - suffix.len()))
    } else {
        None
    }
}

/// What is left of `s` behind `prefix`, if it starts with it.
fn strip_prefix(s: &str, prefix: &str) -> (r: Option<String>)
    ensures
        match r {
            Some(t) => behind(s@, prefix@) == Some(t@),
            None => behind(s@, prefix@) is None,
        },
{
    let chars: Vec<char> = chars_of(s);
    let head: Vec<char> = chars_of(prefix);
    if head.len() > chars.len() {
        return None;
    }
    let start: String = slice_text(&chars, 0, head.len());
    assert(s@.subrange(0, head@.len() as int) =~= s@.take(head@.len() as int));
    if same_text(&start, prefix) {
        let rest: String = slice_text(&chars, head.len(), chars.len());
        assert(rest@ =~= s@.skip(head@.len() as int));
        Some(rest)
    } else {
        None
    }
}

/// What is left of `s` before `suffix`, if it ends with it.
fn strip_suffix(s: &str, suffix: &str) -> (r: Option<String>)
    ensures
        match r {
            Some(t) => before(s@, suffix@) == Some(t@),
            None => before(s@, suffix@) is None,
        },
{
    let chars: Vec<char> = chars_of(s);
    let tail: Vec<char> = chars_of(suffix);
    if tail.len() > chars.len() {
        return None;
    }
    let cut: usize = chars.len() - tail.len();
    let end: String = slice_text(&chars, cut, chars.len());
    assert(s@.subrange(cut as int, s@.len() as int) =~= s@.skip(cut as int));
    if same_text(&end, suffix) {
        let rest: String = slice_text(&chars, 0, cut);
        assert(rest@ =~= s@.take(cut as int));
        Some(rest)
    } else {
        None
    }
}

/// The message about a first line that is not as it should be.
pub open spec fn bad_first_line(settings: Seq<char>, detail: Seq<char>) -> Seq<char> {
    settings + ": line 1: expected 'allow.link*(\"filepath\")*' as the first line, "@ + detail
}

/// The path that the first line of a settings file allows, or what is wrong with the line.
pub open spec fn allow_link(line: Seq<char>, settings: Seq<char>) -> Result<Seq<char>, Seq<char>> {
    let l = trimmed(line);
    let found = bad_first_line(settings, "found "@ + debug_str(l));
    match behind(l, "allow.link*("@) {
        None => Err(found),
        Some(rest) => match before(rest, ")*"@) {
            None => Err(found),
            Some(rest) => {
                let inner = trimmed(rest);
                let unquoted = match behind(inner, "\""@) {
                    None => None,
                    Some(t) => before(t, "\""@),
                };
                match unquoted {
                    Some(path) => Ok(path),
                    None => Err(bad_first_line(settings, "path must be a quoted string, found "@ + debug_str(inner))),
                }
            },
        },
    }
}

/// The path that the first line of a settings file allows, or what is wrong with the line.
pub fn parse_allow_link(line: &str, settings: &str) -> (r: Result<String, String>)
    ensures
        match r {
            Ok(path) => allow_link(line@, settings@) == Ok::<Seq<char>, Seq<char>>(path@),
            Err(m) => allow_link(line@, settings@) == Err::<Seq<char>, Seq<char>>(m@),
        },
{
    let l: String = trim_text(line);
    let shown: String = debug_text(&l);
    let found: String = text2("found ", &shown);
    match strip_prefix(&l, "allow.link*(") {
        None => Err(first_line_message(settings, &found)),
        Some(rest) => match strip_suffix(&rest, ")*") {
            None => Err(first_line_message(settings, &found)),
            Some(rest) => {
                let inner: String = trim_text(&rest);
                match strip_prefix(&inner, "\"") {
                    Some(t) => match strip_suffix(&t, "\"") {
                        Some(path) => Ok(path),
                        None => Err(unquoted_message(settings, &inner)),
                    },
                    None => Err(unquoted_message(settings, &inner)),
                }
            },
        },
    }
}

fn first_line_message(settings: &str, detail: &str) -> (r: String)
    ensures
        r@ == bad_first_line(settings@, detail@),
{
    text3(settings, ": line 1: expected 'allow.link*(\"filepath\")*' as the first line, ", detail)
}

fn unquoted_message(settings: &str, inner: &str) -> (r: String)
    ensures
        r@ == bad_first_line(settings@, "path must be a quoted string, found "@ + debug_str(inner@)),
{
    let shown: String = debug_text(inner);
    let detail: String = text2("path must be a quoted string, found ", &shown);
    first_line_message(settings, &detail)
}

/// The settings file that a program links to, if it links to one. `has_source` says whether the
/// program comes from a file, `absolute` whether the path of the settings file is absolute.
pub open spec fn link_target(link_to: Option<Seq<char>>, has_source: bool, absolute: bool) -> Result<
    Option<Seq<char>>,
    Seq<char>,
> {
    match link_to {
        None => Ok(None),
        Some(path) => if !has_source {
            Err("linkto*(...)*; requires a source file on disk (not the built-in default program)"@)
        } else if !absolute {
            Err("linkto*(...)*; requires an absolute filepath, found "@ + debug_str(path))
        } else {
            Ok(Some(path))
        },
    }
}

/// The view of a text that may be missing.
pub open spec fn text_opt(s: Option<String>) -> Option<Seq<char>> {
    match s {
        Some(s) => Some(s@),
        None => None,
    }
}

/// The settings file that a program links to, if it links to one.
pub fn resolve_link(link_to: &Option<String>, has_source: bool, absolute: bool) -> (r: Result<Option<String>, String>)
    ensures
        match r {
            Ok(path) => link_target(text_opt(*link_to), has_source, absolute) == Ok::<Option<Seq<char>>, Seq<char>>(
                text_opt(path),
            ),
            Err(m) => link_target(text_opt(*link_to), has_source, absolute) == Err::<Option<Seq<char>>, Seq<char>>(m@),
        },
{
    match link_to {
        None => Ok(None),
        Some(path) => {
            if !has_source {
                Err(text1("linkto*(...)*; requires a source file on disk (not the built-in default program)"))
            } else if !absolute {
                let shown: String = debug_text(path);
                Err(text2("linkto*(...)*; requires an absolute filepath, found ", &shown))
            } else {
                Ok(Some(path.clone()))
            }
        },
    }
}

/// The program that a settings file consents to be linked from. `contents` is what the file
/// holds, or nothing if it could not be read.
pub open spec fn consent(settings: Seq<char>, contents: Option<Seq<char>>) -> Result<Seq<char>, Seq<char>> {
    match contents {
        None => Err("linkto*(...)*; names "@ + settings + ", which doesn't exist or can't be read"@),
        Some(text) => if lines_of(text).len() == 0 {
            Err(settings + ": expected 'allow.link*(\"...\")*' as the first line, found an empty file"@)
        } else {
            allow_link(lines_of(text)[0], settings)
        },
    }
}

/// The program that a settings file consents to be linked from.
pub fn read_consent(settings: &str, contents: &Option<String>) -> (r: Result<String, String>)
    ensures
        match r {
            Ok(path) => consent(settings@, text_opt(*contents)) == Ok::<Seq<char>, Seq<char>>(path@),
            Err(m) => consent(settings@, text_opt(*contents)) == Err::<Seq<char>, Seq<char>>(m@),
        },
{
    match contents {
        None => Err(text3("linkto*(...)*; names ", settings, ", which doesn't exist or can't be read")),
        Some(text) => {
            let lines: Vec<String> = split_lines(text);
            assert(lines_of(text@).len() == lines@.len());
            if lines.len() == 0 {
                Err(text2(settings, ": expected 'allow.link*(\"...\")*' as the first line, found an empty file"))
            } else {
                assert(lines_of(text@)[0] == lines@[0]@);
                parse_allow_link(&lines[0], settings)
            }
        },
    }
}

/// What was found out about the two paths of a link on disk.
pub struct Located {
    /// Whether the path that the settings file allows is absolute.
    pub absolute: bool,
    /// Why the program's own path could not be resolved, if it could not.
    pub source_error: Option<String>,
    /// Why the path that the settings file allows could not be resolved, if it could not.
    pub allowed_error: Option<String>,
    /// Whether the two paths name the same file.
    pub same: bool,
}

/// What is wrong with a link from the program `source` to a settings file that allows `allowed`.
pub open spec fn link_problem(
    settings: Seq<char>,
    source: Seq<char>,
    allowed: Seq<char>,
    absolute: bool,
    source_error: Option<Seq<char>>,
    allowed_error: Option<Seq<char>>,
    same: bool,
) -> Option<Seq<char>> {
    if !absolute {
        Some(settings + ": allow.link*(...)*; requires an absolute filepath, found "@ + debug_str(allowed))
    } else if source_error is Some {
        Some(source + ": "@ + source_error->0)
    } else if allowed_error is Some {
        Some(
            settings + ": allow.link*(...)*; names "@ + allowed + ", which doesn't exist or can't be read: "@
                + allowed_error->0,
        )
    } else if !same {
        Some(
            settings + ": allow.link*(...)*; names "@ + allowed + ", which doesn't match the file linking to it, "@
                + source,
        )
    } else {
        None
    }
}

/// What is wrong with a link, if something is.
pub fn check_link(settings: &str, source: &str, allowed: &str, found: &Located) -> (r: Option<String>)
    ensures
        text_opt(r) == link_problem(
            settings@,
            source@,
            allowed@,
            found.absolute,
            text_opt(found.source_error),
            text_opt(found.allowed_error),
            found.same,
        ),
{
    if !found.absolute {
        let shown: String = debug_text(allowed);
        return Some(text3(settings, ": allow.link*(...)*; requires an absolute filepath, found ", &shown));
    }
    match &found.source_error {
        Some(e) => {
            return Some(text3(source, ": ", e));
        },
        None => {},
    }
    match &found.allowed_error {
        Some(e) => {
            return Some(
                text5(settings, ": allow.link*(...)*; names ", allowed, ", which doesn't exist or can't be read: ", e),
            );
        },
        None => {},
    }
    if !found.same {
        return Some(
            text5(
                settings,
                ": allow.link*(...)*; names ",
                allowed,
                ", which doesn't match the file linking to it, ",
                source,
            ),
        );
    }
    None
}

// ---------------------------------------------------------------------------
// The settings
// ---------------------------------------------------------------------------

/// Where the first `.` at or after `i` stands (the length if there is none).
pub open spec fn dot_from(s: Seq<char>, i: int) -> int
    decreases s.len() - i,
{
    if 0 <= i < s.len() && s[i] != '.' {
        dot_from(s, i + 1)
    } else {
        i
    }
}

/// A message about the line with index `i` of a settings file.
pub open spec fn at_settings_line(settings: Seq<char>, i: int, what: Seq<char>) -> Seq<char> {
    settings + ": line "@ + decimal((i + 1) as nat) + ": "@ + what
}

/// What the line with index `i` makes of the setting `optimize`, or what is wrong with the line.
pub open spec fn setting_line(settings: Seq<char>, i: int, line: Seq<char>, optimize: bool) -> Result<bool, Seq<char>> {
    let l = trimmed(line);
    let d = dot_from(l, 0);
    if l.len() == 0 {
        Ok(optimize)
    } else if d >= l.len() {
        Err(at_settings_line(settings, i, "expected 'setting.value', found "@ + debug_str(l)))
    } else {
        let name = l.subrange(0, d);
        let value = l.subrange(d + 1, l.len() as int);
        if name == "optimize"@ {
            if value == "true"@ {
                Ok(true)
            } else if value == "false"@ {
                Ok(false)
            } else {
                Err(at_settings_line(settings, i, "'optimize' must be true or false, found "@ + debug_str(value)))
            }
        } else {
            Err(at_settings_line(settings, i, "unrecognized setting '"@ + name + "'"@))
        }
    }
}

/// What the first `n` lines behind the first line make of the setting `optimize`. It is on unless
/// a line turns it off.
pub open spec fn settings_upto(settings: Seq<char>, lines: Seq<Seq<char>>, n: int) -> Result<bool, Seq<char>>
    decreases n,
{
    if n <= 1 || n > lines.len() {
        Ok(true)
    } else {
        match settings_upto(settings, lines, n - 1) {
            Err(m) => Err(m),
            Ok(optimize) => setting_line(settings, n - 1, lines[n - 1], optimize),
        }
    }
}

/// What a settings file makes of the setting `optimize`.
pub open spec fn optimize_of(settings: Seq<char>, contents: Seq<char>) -> Result<bool, Seq<char>> {
    settings_upto(settings, lines_of(contents), lines_of(contents).len() as int)
}

fn settings_line_message(settings: &str, i: usize, what: &str) -> (r: String)
    requires
        i < usize::MAX,
    ensures
        r@ == at_settings_line(settings@, i as int, what@),
{
    let n: String = decimal_text(i as u64 + 1);
    text5(settings, ": line ", &n, ": ", what)
}

/// What the line with index `i` makes of the setting `optimize`, or what is wrong with the line.
fn apply_setting(settings: &str, i: usize, line: &str, optimize: bool) -> (r: Result<bool, String>)
    requires
        i < usize::MAX,
    ensures
        match r {
            Ok(b) => setting_line(settings@, i as int, line@, optimize) == Ok::<bool, Seq<char>>(b),
            Err(m) => setting_line(settings@, i as int, line@, optimize) == Err::<bool, Seq<char>>(m@),
        },
{
    let l: String = trim_text(line);
    let chars: Vec<char> = chars_of(&l);
    if chars.len() == 0 {
        return Ok(optimize);
    }
    let mut d: usize = 0;
    while d < chars.len() && chars[d] != '.'
        invariant
            d <= chars@.len(),
            dot_from(chars@, 0) == dot_from(chars@, d as int),
        decreases chars@.len() - d,
    {
        d = d + 1;
    }
    if d >= chars.len() {
        let shown: String = debug_text(&l);
        let what: String = text2("expected 'setting.value', found ", &shown);
        return Err(settings_line_message(settings, i, &what));
    }
    let name: String = slice_text(&chars, 0, d);
    let value: String = slice_text(&chars, d + 1, chars.len());
    if same_text(&name, "optimize") {
        if same_text(&value, "true") {
            Ok(true)
        } else if same_text(&value, "false") {
            Ok(false)
        } else {
            let shown: String = debug_text(&value);
            let what: String = text2("'optimize' must be true or false, found ", &shown);
            Err(settings_line_message(settings, i, &what))
        }
    } else {
        let what: String = text3("unrecognized setting '", &name, "'");
        Err(settings_line_message(settings, i, &what))
    }
}

/// What went wrong with a line is what goes wrong with the file.
proof fn lemma_settings_fail(settings: Seq<char>, lines: Seq<Seq<char>>, i: int, n: int)
    requires
        1 <= i <= n <= lines.len(),
        settings_upto(settings, lines, i) is Err,
    ensures
        settings_upto(settings, lines, n) == settings_upto(settings, lines, i),
    decreases n,
{
    if i < n {
        lemma_settings_fail(settings, lines, i, n - 1);
    }
}

/// What a settings file makes of the setting `optimize`.
pub fn read_settings(settings: &str, contents: &str) -> (r: Result<bool, String>)
    ensures
        match r {
            Ok(b) => optimize_of(settings@, contents@) == Ok::<bool, Seq<char>>(b),
            Err(m) => optimize_of(settings@, contents@) == Err::<bool, Seq<char>>(m@),
        },
{
    let lines: Vec<String> = split_lines(contents);
    let ghost lv = lines_of(contents@);
    let mut optimize: bool = true;
    let mut i: usize = 1;
    while i < lines.len()
        invariant
            1 <= i,
            lines@.len() >= 1 ==> i <= lines@.len(),
            lv == lines_of(contents@),
            texts(lines@) == lv,
            settings_upto(settings@, lv, i as int) == Ok::<bool, Seq<char>>(optimize),
        decreases lines@.len() - i,
    {
        assert(lv[i as int] == lines@[i as int]@);
        assert(lv.len() == lines@.len());
        match apply_setting(settings, i, &lines[i], optimize) {
            Ok(b) => {
                optimize = b;
            },
            Err(m) => {
                proof {
                    lemma_settings_fail(settings@, lv, i + 1, lv.len() as int);
                }
                return Err(m);
            },
        }
        i = i + 1;
    }
    assert(lv.len() == lines@.len());
    Ok(optimize)
}

/// Whether a program is to be optimized, or what is wrong with its settings. Without a link nothing
/// is read and it is. Otherwise the link, the consent of the settings file, what was found of the two
/// files and the settings themselves are looked at in this order.
pub open spec fn optimize_setting(
    link_to: Option<Seq<char>>,
    source: Option<Seq<char>>,
    absolute: bool,
    contents: Option<Seq<char>>,
    allowed_absolute: bool,
    source_error: Option<Seq<char>>,
    allowed_error: Option<Seq<char>>,
    same: bool,
) -> Result<bool, Seq<char>> {
    match link_target(link_to, source is Some, absolute) {
        Err(m) => Err(m),
        Ok(None) => Ok(true),
        Ok(Some(settings)) => match consent(settings, contents) {
            Err(m) => Err(m),
            Ok(allowed) => match link_problem(
                settings,
                source->0,
                allowed,
                allowed_absolute,
                source_error,
                allowed_error,
                same,
            ) {
                Some(m) => Err(m),
                None => optimize_of(settings, contents->0),
            },
        },
    }
}

/// Whether a program is to be optimized: `link_to` is the settings file that it names and `absolute`
/// whether that path is absolute; `source` is the program's own path, if it has one; `contents` is
/// what the settings file holds, if it can be read; and `found` is what the file system says of the
/// program and of the path that the settings file allows.
pub fn resolve_optimize_setting(
    link_to: &Option<String>,
    source: &Option<String>,
    absolute: bool,
    contents: &Option<String>,
    found: &Located,
) -> (r: Result<bool, String>)
    ensures
        link_to is None ==> r is Ok && r->Ok_0,
        match r {
            Ok(b) => optimize_setting(
                text_opt(*link_to),
                text_opt(*source),
                absolute,
                text_opt(*contents),
                found.absolute,
                text_opt(found.source_error),
                text_opt(found.allowed_error),
                found.same,
            ) == Ok::<bool, Seq<char>>(b),
            Err(m) => optimize_setting(
                text_opt(*link_to),
                text_opt(*source),
                absolute,
                text_opt(*contents),
                found.absolute,
                text_opt(found.source_error),
                text_opt(found.allowed_error),
                found.same,
            ) == Err::<bool, Seq<char>>(m@),
        },
{
    let settings: String = match resolve_link(link_to, source.is_some(), absolute)? {
        None => {
            return Ok(true);
        },
        Some(path) => path,
    };
    let allowed: String = read_consent(&settings, contents)?;
    match (source, contents) {
        (Some(path), Some(text)) => match check_link(&settings, path, &allowed, found) {
            Some(m) => Err(m),
            None => read_settings(&settings, text),
        },
        _ => Ok(true),
    }
}

/// The name of the LLVM passes that a program goes through: the standard ones, or none at all.
pub fn pass_pipeline(optimize: bool) -> (r: Option<&'static str>)
    ensures
        r is Some <==> optimize,
        r matches Some(name) ==> name@ == "default<O2>"@,
{
    if optimize {
        Some("default<O2>")
    } else {
        None
    }
}

} // verus!
