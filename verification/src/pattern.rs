//! The line patterns of SAM templates, matched with the `regex` crate.
//!
//! Each pattern the library uses is listed here with a spec function that
//! says what the regex engine reports for it (leftmost-first semantics,
//! Unicode `\s`, `.` excluding `\n`, `$` at the end of the text only).
//! The four trusted wrappers below compile the pattern they are given and
//! make one call of `regex::Regex`; their contracts state, for each of these
//! patterns, the result in terms of those spec functions.
use vstd::prelude::*;
use crate::text::{
    contains_sub, is_char, is_ws, lead_run, lemma_lead_run, non_ws, not_char, occurs_at, starts_with, trim,
    trim_start,
};

verus! {

pub open spec fn is_quote(c: char) -> bool {
    c == '"' || c == '\''
}

/// `r"^\s*Path:\s*(\S+)"`, group 1: the run of non-whitespace that follows
/// `Path:` (after optional whitespace) at the start of the trimmed line.
pub open spec fn path_line_value(s: Seq<char>) -> Option<Seq<char>> {
    let t = trim_start(s);
    let key = "Path:"@;
    if starts_with(t, key) {
        let v = trim_start(t.skip(key.len() as int));
        let n = lead_run(v, non_ws());
        if n > 0 {
            Some(v.take(n as int))
        } else {
            None
        }
    } else {
        None
    }
}

/// `r"^ {2}\S"`: a top-level resource line (two spaces of indentation).
pub open spec fn two_space_line(s: Seq<char>) -> bool {
    s.len() >= 3 && s[0] == ' ' && s[1] == ' ' && !is_ws(s[2])
}

/// Case-insensitive equality with a lowercase ASCII letter, as regex's
/// simple case folding gives it for the letters of `LogsGroup`
/// (`s` also folds with U+017F LATIN SMALL LETTER LONG S).
pub open spec fn folds_to(c: char, lower: char) -> bool {
    ||| c == lower
    ||| (c as int) + 32 == (lower as int)
    ||| (lower == 's' && c == '\u{17f}')
}

pub open spec fn ends_with_folded(s: Seq<char>, w: Seq<char>) -> bool {
    w.len() <= s.len() && forall|i: int|
        0 <= i < w.len() ==> folds_to(#[trigger] s[s.len() - w.len() + i], w[i])
}

/// `r"(?i)Logs?Group$"`: the name ends in `LogGroup` or `LogsGroup`,
/// ignoring case.
pub open spec fn log_group_suffix(s: Seq<char>) -> bool {
    ends_with_folded(s, "loggroup"@) || ends_with_folded(s, "logsgroup"@)
}

/// `\s*(.+?)\s*$` applied to a text `r` that holds no `\n`: the text without
/// surrounding whitespace, or its last character when it is all whitespace.
pub open spec fn lazy_value(r: Seq<char>) -> Option<Seq<char>> {
    if r.len() == 0 {
        None
    } else if trim(r).len() == 0 {
        Some(seq![r.last()])
    } else {
        Some(trim(r))
    }
}

/// `r"^\s*FunctionName:\s*(.+?)\s*$"`, group 1, on a text without `\n`.
pub open spec fn function_name_value(s: Seq<char>) -> Option<Seq<char>> {
    let t = trim_start(s);
    let key = "FunctionName:"@;
    if starts_with(t, key) {
        lazy_value(t.skip(key.len() as int))
    } else {
        None
    }
}

pub open spec fn first_occurrence(s: Seq<char>, w: Seq<char>) -> int {
    choose|i: int| occurs_at(s, w, i) && forall|j: int| 0 <= j < i ==> !occurs_at(s, w, j)
}

/// `r"LogGroupName:\s*(.+?)\s*$"`, group 1, on a text without `\n`: what
/// follows the first `LogGroupName:`.
pub open spec fn log_group_name_value(s: Seq<char>) -> Option<Seq<char>> {
    let key = "LogGroupName:"@;
    if contains_sub(s, key) {
        lazy_value(s.skip(first_occurrence(s, key) + key.len()))
    } else {
        None
    }
}

/// `r"envStackname-?"` matches somewhere in `s`.
pub open spec fn has_env_stackname(s: Seq<char>) -> bool {
    contains_sub(s, "envStackname"@)
}

/// Length of the leftmost match of `r"envStackname-?"`, which starts at `p`.
pub open spec fn env_stackname_len(s: Seq<char>, p: int) -> int {
    let n = "envStackname"@.len() as int;
    if p + n < s.len() && s[p + n] == '-' {
        n + 1
    } else {
        n
    }
}

/// `[0-9A-Za-z_]`: the characters of a capture reference written without
/// braces.
pub open spec fn is_cap_letter(c: char) -> bool {
    ('0' <= c && c <= '9') || ('a' <= c && c <= 'z') || ('A' <= c && c <= 'Z') || c == '_'
}

pub open spec fn cap_letter() -> spec_fn(char) -> bool {
    |c: char| is_cap_letter(c)
}

/// Whether a capture reference names the whole match: it reads as the
/// number 0 (`usize::from_str`: an optional `+`, then digits).
pub open spec fn refers_to_whole_match(name: Seq<char>) -> bool {
    let digits = if name.len() > 0 && name[0] == '+' {
        name.skip(1)
    } else {
        name
    };
    digits.len() > 0 && forall|k: int| 0 <= k < digits.len() ==> digits[k] == '0'
}

/// What the replacement string `r` becomes for one match `matched` of a
/// pattern whose only group is the whole match (no named groups), as regex
/// interpolation reads it from left to right: `$$` is a `$`; a reference
/// `${ref}` (up to the next `}`) or `$ref` (the longest run of
/// `[0-9A-Za-z_]`) is the match where `ref` is the number 0 and nothing
/// otherwise; any other `$`, and every other character, stays as it is.
pub open spec fn regex_interpolation(r: Seq<char>, matched: Seq<char>) -> Seq<char>
    decreases r.len(),
{
    if r.len() == 0 {
        Seq::empty()
    } else if r[0] != '$' {
        seq![r[0]] + regex_interpolation(r.skip(1), matched)
    } else if r.len() >= 2 && r[1] == '$' {
        seq!['$'] + regex_interpolation(r.skip(2), matched)
    } else if r.len() >= 2 && r[1] == '{' && lead_run(r.skip(2), not_char('}')) < r.len() - 2 {
        let k: int = lead_run(r.skip(2), not_char('}')) as int;
        let group = if refers_to_whole_match(r.subrange(2, 2 + k)) {
            matched
        } else {
            Seq::empty()
        };
        proof {
            lemma_lead_run(r.skip(2), not_char('}'));
        }
        group + regex_interpolation(r.skip(3 + k), matched)
    } else if r.len() >= 2 && is_cap_letter(r[1]) {
        let n: int = lead_run(r.skip(1), cap_letter()) as int;
        let group = if refers_to_whole_match(r.subrange(1, 1 + n)) {
            matched
        } else {
            Seq::empty()
        };
        proof {
            lemma_lead_run(r.skip(1), cap_letter());
        }
        group + regex_interpolation(r.skip(1 + n), matched)
    } else {
        seq!['$'] + regex_interpolation(r.skip(1), matched)
    }
}

/// The text of the leftmost match of `r"envStackname-?"`.
pub open spec fn env_stackname_match(s: Seq<char>) -> Seq<char> {
    let p = first_occurrence(s, "envStackname"@);
    s.subrange(p, p + env_stackname_len(s, p))
}

/// `s` with the leftmost match of `r"envStackname-?"` replaced by `expansion`.
pub open spec fn env_stackname_replaced(s: Seq<char>, expansion: Seq<char>) -> Seq<char> {
    if has_env_stackname(s) {
        let p = first_occurrence(s, "envStackname"@);
        s.take(p) + expansion + s.skip(p + env_stackname_len(s, p))
    } else {
        s
    }
}

/// `r"^!Sub\s+"` replaced by nothing.
pub open spec fn sub_prefix_stripped(s: Seq<char>) -> Seq<char> {
    let key = "!Sub"@;
    if starts_with(s, key) && s.len() > key.len() && is_ws(s[key.len() as int]) {
        trim_start(s.skip(key.len() as int))
    } else {
        s
    }
}

/// `r#"^["']|["']$"#` replaced everywhere by nothing: one leading quote,
/// then one trailing quote of what is left.
pub open spec fn outer_quotes_stripped(s: Seq<char>) -> Seq<char> {
    let s1 = if s.len() > 0 && is_quote(s[0]) {
        s.drop_first()
    } else {
        s
    };
    if s1.len() > 0 && is_quote(s1.last()) {
        s1.drop_last()
    } else {
        s1
    }
}

pub open spec fn no_newline_in(s: Seq<char>, from: int, to: int) -> bool {
    forall|k: int| from <= k < to ==> s[k] != '\n'
}

/// A `${...}` placeholder opening at `p` and closing at `q`, usable by
/// `r"^.*\$\{[^}]+\}(.*)$"`.
pub open spec fn placeholder_at(s: Seq<char>, p: int, q: int) -> bool {
    &&& 0 <= p
    &&& p + 3 <= q < s.len()
    &&& s[p] == '$'
    &&& s[p + 1] == '{'
    &&& s[q] == '}'
    &&& forall|k: int| p + 2 <= k < q ==> s[k] != '}'
    &&& no_newline_in(s, 0, p)
    &&& no_newline_in(s, q + 1, s.len() as int)
}

/// `r"^.*\$\{[^}]+\}(.*)$"`, group 1: what follows the last usable placeholder.
pub open spec fn sub_placeholder_value(s: Seq<char>) -> Option<Seq<char>> {
    if exists|p: int, q: int| placeholder_at(s, p, q) {
        let (p, q) = choose|p: int, q: int|
            placeholder_at(s, p, q) && forall|p2: int, q2: int|
                placeholder_at(s, p2, q2) ==> p2 <= p;
        Some(s.skip(q + 1))
    } else {
        None
    }
}

pub open spec fn env_value_at(s: Seq<char>, p: int) -> bool {
    let key = "EnvironmentValue"@;
    &&& occurs_at(s, key, p)
    &&& no_newline_in(s, 0, p)
    &&& no_newline_in(s, p + key.len(), s.len() as int)
}

/// `r"^.*EnvironmentValue(.*)$"`, group 1: what follows the last usable
/// `EnvironmentValue`.
pub open spec fn env_value_value(s: Seq<char>) -> Option<Seq<char>> {
    if exists|p: int| env_value_at(s, p) {
        let p = choose|p: int| env_value_at(s, p) && forall|p2: int| env_value_at(s, p2) ==> p2 <= p;
        Some(s.skip(p + "EnvironmentValue"@.len()))
    } else {
        None
    }
}

/// `r"^-+"` replaced by nothing.
pub open spec fn leading_dashes_stripped(s: Seq<char>) -> Seq<char> {
    s.skip(lead_run(s, is_char('-')) as int)
}

/// `Regex::new(pattern).unwrap().is_match(haystack)` from the `regex` crate.
/// Claims: for each pattern of this library that it admits, the result is
/// the spec function above named for that pattern.
#[verifier::external_body]
pub(crate) fn regex_is_match(pattern: &str, haystack: &str) -> (r: bool)
    requires
        pattern@ == r"^ {2}\S"@ || pattern@ == r"(?i)Logs?Group$"@ || pattern@
            == r"envStackname-?"@,
    ensures
        pattern@ == r"^ {2}\S"@ ==> r == two_space_line(haystack@),
        pattern@ == r"(?i)Logs?Group$"@ ==> r == log_group_suffix(haystack@),
        pattern@ == r"envStackname-?"@ ==> r == has_env_stackname(haystack@),
{
    regex::Regex::new(pattern).unwrap().is_match(haystack)
}

/// `Regex::new(pattern).unwrap().captures(haystack)` from the `regex` crate,
/// returning the text of capture group 1 of the match.
/// Claims: for each pattern it admits, the group is the spec function above
/// named for that pattern; the two lazy patterns are only claimed on texts
/// without `\n`.
#[verifier::external_body]
pub(crate) fn regex_group1(pattern: &str, haystack: &str) -> (r: Option<String>)
    requires
        pattern@ == r"^\s*Path:\s*(\S+)"@ || pattern@ == r"^.*\$\{[^}]+\}(.*)$"@ || pattern@
            == r"^.*EnvironmentValue(.*)$"@ || ((pattern@ == r"^\s*FunctionName:\s*(.+?)\s*$"@
            || pattern@ == r"LogGroupName:\s*(.+?)\s*$"@) && !haystack@.contains('\n')),
    ensures
        pattern@ == r"^\s*Path:\s*(\S+)"@ ==> r.deep_view() == path_line_value(haystack@),
        pattern@ == r"^.*\$\{[^}]+\}(.*)$"@ ==> r.deep_view() == sub_placeholder_value(haystack@),
        pattern@ == r"^.*EnvironmentValue(.*)$"@ ==> r.deep_view() == env_value_value(haystack@),
        pattern@ == r"^\s*FunctionName:\s*(.+?)\s*$"@ ==> r.deep_view() == function_name_value(
            haystack@,
        ),
        pattern@ == r"LogGroupName:\s*(.+?)\s*$"@ ==> r.deep_view() == log_group_name_value(
            haystack@,
        ),
{
    match regex::Regex::new(pattern).unwrap().captures(haystack) {
        Some(caps) => match caps.get(1) {
            Some(group) => Some(group.as_str().to_string()),
            None => None,
        },
        None => None,
    }
}

/// `Regex::new(pattern).unwrap().replace(haystack, replacement)` from the
/// `regex` crate: the leftmost match replaced once.
#[verifier::external_body]
pub(crate) fn regex_replace(pattern: &str, haystack: &str, replacement: &str) -> (r: String)
    requires
        pattern@ == r"envStackname-?"@ || ((pattern@ == r"^!Sub\s+"@ || pattern@ == r"^-+"@)
            && replacement@.len() == 0),
    ensures
        pattern@ == r"envStackname-?"@ && !replacement@.contains('$') ==> r@
            == env_stackname_replaced(haystack@, replacement@),
        pattern@ == r"envStackname-?"@ && replacement@.contains('$') ==> r@
            == env_stackname_replaced(
            haystack@,
            regex_interpolation(replacement@, env_stackname_match(haystack@)),
        ),
        pattern@ == r"^!Sub\s+"@ && replacement@.len() == 0 ==> r@ == sub_prefix_stripped(
            haystack@,
        ),
        pattern@ == r"^-+"@ && replacement@.len() == 0 ==> r@ == leading_dashes_stripped(
            haystack@,
        ),
{
    regex::Regex::new(pattern).unwrap().replace(haystack, replacement).into_owned()
}

/// `Regex::new(pattern).unwrap().replace_all(haystack, "")` from the `regex`
/// crate, for the outer-quotes pattern.
#[verifier::external_body]
pub(crate) fn regex_replace_all(pattern: &str, haystack: &str, replacement: &str) -> (r: String)
    requires
        pattern@ == r#"^["']|["']$"#@,
        replacement@.len() == 0,
    ensures
        r@ == outer_quotes_stripped(haystack@),
{
    regex::Regex::new(pattern).unwrap().replace_all(haystack, replacement).into_owned()
}

} // verus!
