//! Scanning a SAM template for the Lambda resource a search term refers to,
//! and resolving the deployed function name from a `FunctionName:` directive.
use vstd::prelude::*;
use crate::pattern::{
    env_stackname_match, env_stackname_replaced, env_value_value, function_name_value,
    has_env_stackname, leading_dashes_stripped, placeholder_at, is_quote, first_occurrence,
    env_stackname_len, env_value_at, log_group_name_value, log_group_suffix,
    outer_quotes_stripped, path_line_value, regex_group1, regex_interpolation, regex_is_match,
    regex_replace, regex_replace_all, sub_placeholder_value, sub_prefix_stripped, two_space_line,
};
use crate::text::{
    lemma_first_in_some, lemma_last_in_some, lemma_lead_run_unique, lemma_trail_run_unique, ws, is_ws, is_char, trim_start, occurs_at, chars_end_with, chars_of, chars_starts_with, contains_sub, first_in, last_in, lemma_first_in,
    lemma_first_in_none, lemma_last_in, lemma_last_in_none, lemma_split_on_excludes, lowercase,
    split_on, split_str, starts_with, str_contains, to_lowercase, trim, trim_chars,
    trim_end_char, trim_end_char_chars, trim_str, string_of,
};

verus! {

// ---------------------------------------------------------------------------
// Resolving `FunctionName:` templates
// ---------------------------------------------------------------------------

/// What `stack_prefix` becomes when it replaces the `envStackname` match of `s`.
pub open spec fn stack_expansion(s: Seq<char>, stack_prefix: Seq<char>) -> Seq<char> {
    if stack_prefix.contains('$') {
        regex_interpolation(stack_prefix, env_stackname_match(s))
    } else {
        stack_prefix
    }
}

/// The literal Lambda name a `FunctionName:` template stands for.
/// The template is trimmed, stripped of a `!Sub ` prefix and of outer
/// quotes; then
///   1. an `envStackname` placeholder (with an optional `-`) is replaced by
///      the stack prefix;
///   2. otherwise, after the last `${...}` placeholder, the rest (without
///      leading dashes) is appended to stack prefix and sub-stack;
///   3. otherwise, the same with a bare `EnvironmentValue` placeholder;
///   4. otherwise the unquoted template is the name.
pub open spec fn resolved_function_name(
    template: Seq<char>,
    stack_prefix: Seq<char>,
    sub_stack: Seq<char>,
) -> Seq<char> {
    let unquoted = outer_quotes_stripped(sub_prefix_stripped(trim(template)));
    if has_env_stackname(unquoted) {
        env_stackname_replaced(unquoted, stack_expansion(unquoted, stack_prefix))
    } else if sub_placeholder_value(unquoted) is Some {
        stack_prefix + sub_stack + leading_dashes_stripped(sub_placeholder_value(unquoted)->0)
    } else if env_value_value(unquoted) is Some {
        stack_prefix + sub_stack + leading_dashes_stripped(env_value_value(unquoted)->0)
    } else {
        unquoted
    }
}

fn concat3(a: &str, b: &str, c: &str) -> (r: String)
    ensures
        r@ == a@ + b@ + c@,
{
    let mut r = String::from_str(a);
    r.append(b);
    r.append(c);
    r
}

/// Resolves a literal Lambda name from a YAML `FunctionName:` directive.
pub fn resolve_explicit_function_name(template: &str, stack_prefix: &str, sub_stack: &str) -> (r:
    String)
    ensures
        r@ == resolved_function_name(template@, stack_prefix@, sub_stack@),
{
    proof {
        reveal_strlit("");
    }
    let trimmed = trim_str(template);
    let no_sub = regex_replace(r"^!Sub\s+", trimmed.as_str(), "");
    let unquoted = regex_replace_all(r#"^["']|["']$"#, no_sub.as_str(), "");
    if regex_is_match(r"envStackname-?", unquoted.as_str()) {
        return regex_replace(r"envStackname-?", unquoted.as_str(), stack_prefix);
    }
    if let Some(suffix) = regex_group1(r"^.*\$\{[^}]+\}(.*)$", unquoted.as_str()) {
        let stripped = regex_replace(r"^-+", suffix.as_str(), "");
        return concat3(stack_prefix, sub_stack, stripped.as_str());
    }
    if let Some(suffix) = regex_group1(r"^.*EnvironmentValue(.*)$", unquoted.as_str()) {
        let stripped = regex_replace(r"^-+", suffix.as_str(), "");
        return concat3(stack_prefix, sub_stack, stripped.as_str());
    }
    unquoted
}

// ---------------------------------------------------------------------------
// The template model
// ---------------------------------------------------------------------------

/// The resource a search term was found for in one template.
#[derive(Debug)]
pub struct YamlMatch {
    pub lambda_function_name: String,
    pub log_group_name: Option<String>,
    pub explicit_function_name: Option<String>,
    pub api_paths: Vec<String>,
}

pub struct YamlMatchView {
    pub lambda_function_name: Seq<char>,
    pub log_group_name: Option<Seq<char>>,
    pub explicit_function_name: Option<Seq<char>>,
    pub api_paths: Seq<Seq<char>>,
}

impl View for YamlMatch {
    type V = YamlMatchView;

    open spec fn view(&self) -> YamlMatchView {
        YamlMatchView {
            lambda_function_name: self.lambda_function_name@,
            log_group_name: self.log_group_name.deep_view(),
            explicit_function_name: self.explicit_function_name.deep_view(),
            api_paths: self.api_paths.deep_view(),
        }
    }
}

/// The logical ID a top-level resource line declares: the line trimmed,
/// without trailing colons, trimmed again.
pub open spec fn header_name(line: Seq<char>) -> Seq<char> {
    trim(trim_end_char(trim(line), ':'))
}

/// A `Path:` line whose value contains the (lowercased) search term,
/// compared in lowercase.
pub open spec fn path_hit(line: Seq<char>, needle_lower: Seq<char>) -> bool {
    match path_line_value(line) {
        Some(v) => contains_sub(lowercase(v), needle_lower),
        None => false,
    }
}

/// A top-level resource line that does not declare a log group.
pub open spec fn function_header(line: Seq<char>) -> bool {
    two_space_line(line) && !log_group_suffix(header_name(line))
}

/// Resource line `j` encloses a later `Path:` line that matches.
pub open spec fn anchored(lines: Seq<Seq<char>>, needle_lower: Seq<char>) -> spec_fn(int) -> bool {
    |j: int|
        0 <= j < lines.len() && function_header(lines[j]) && exists|i: int|
            j < i < lines.len() && #[trigger] path_hit(lines[i], needle_lower)
}

/// A top-level `Name:` line whose logical ID contains the search term.
pub open spec fn named_resource(line: Seq<char>, needle_lower: Seq<char>) -> bool {
    &&& two_space_line(line)
    &&& trim(line).len() > 0 && trim(line).last() == ':'
    &&& header_name(line).len() > 0
    &&& !log_group_suffix(header_name(line))
    &&& contains_sub(lowercase(header_name(line)), needle_lower)
}

pub open spec fn named_at(lines: Seq<Seq<char>>, needle_lower: Seq<char>) -> spec_fn(int) -> bool {
    |i: int| 0 <= i < lines.len() && named_resource(lines[i], needle_lower)
}

/// The line of the resource the search term refers to: the last function
/// resource that encloses a matching `Path:` line; failing that, the first
/// resource whose logical ID contains the term.
pub open spec fn resource_line(lines: Seq<Seq<char>>, needle_lower: Seq<char>) -> Option<int> {
    match last_in(0, lines.len() as int, anchored(lines, needle_lower)) {
        Some(j) => Some(j),
        None => first_in(0, lines.len() as int, named_at(lines, needle_lower)),
    }
}

pub open spec fn top_level_at(lines: Seq<Seq<char>>) -> spec_fn(int) -> bool {
    |k: int| 0 <= k < lines.len() && two_space_line(lines[k])
}

/// One past the last line of the block of the resource on line `start`.
pub open spec fn block_end(lines: Seq<Seq<char>>, start: int) -> int {
    match first_in(start + 1, lines.len() as int, top_level_at(lines)) {
        Some(k) => k,
        None => lines.len() as int,
    }
}

pub open spec fn function_name_at(lines: Seq<Seq<char>>) -> spec_fn(int) -> bool {
    |k: int| 0 <= k < lines.len() && function_name_value(lines[k]) is Some
}

/// The first `FunctionName:` value (trimmed) on lines `[lo, hi)`.
pub open spec fn first_function_name(lines: Seq<Seq<char>>, lo: int, hi: int) -> Option<Seq<char>> {
    match first_in(lo, hi, function_name_at(lines)) {
        Some(k) => Some(trim(function_name_value(lines[k])->0)),
        None => None,
    }
}

/// The value of a `Path:` line, trimmed and without outer quotes.
pub open spec fn cleaned_path(line: Seq<char>) -> Option<Seq<char>> {
    match path_line_value(line) {
        Some(v) => Some(outer_quotes_stripped(trim(v))),
        None => None,
    }
}

/// The distinct non-empty `Path:` values of `block`, in order of first occurrence.
pub open spec fn collect_paths(block: Seq<Seq<char>>) -> Seq<Seq<char>>
    decreases block.len(),
{
    if block.len() == 0 {
        Seq::empty()
    } else {
        let prev = collect_paths(block.drop_last());
        match cleaned_path(block.last()) {
            Some(c) => if c.len() > 0 && !prev.contains(c) {
                prev.push(c)
            } else {
                prev
            },
            None => prev,
        }
    }
}

/// The header of the log group resource of function `name`.
pub open spec fn log_group_header(line: Seq<char>, name: Seq<char>) -> bool {
    starts_with(line, "  "@ + name + "LogsGroup:"@) || starts_with(line, "  "@ + name + "LogGroup:"@)
}

pub open spec fn log_group_header_at(lines: Seq<Seq<char>>, name: Seq<char>) -> spec_fn(int) -> bool {
    |i: int| 0 <= i < lines.len() && log_group_header(lines[i], name)
}

pub open spec fn log_group_name_at(lines: Seq<Seq<char>>) -> spec_fn(int) -> bool {
    |k: int| 0 <= k < lines.len() && log_group_name_value(lines[k]) is Some
}

pub open spec fn window_end(lines: Seq<Seq<char>>, i: int) -> int {
    if i + 15 < lines.len() {
        i + 15
    } else {
        lines.len() as int
    }
}

/// The `LogGroupName:` value (trimmed) within the 15 lines that start at the
/// first log group header of function `name`.
pub open spec fn log_group_of(lines: Seq<Seq<char>>, name: Seq<char>) -> Option<Seq<char>> {
    match first_in(0, lines.len() as int, log_group_header_at(lines, name)) {
        Some(i) => match first_in(i, window_end(lines, i), log_group_name_at(lines)) {
            Some(k) => Some(trim(log_group_name_value(lines[k])->0)),
            None => None,
        },
        None => None,
    }
}

/// What a template says about the resource `needle` refers to.
pub open spec fn template_match(content: Seq<char>, needle: Seq<char>) -> Option<YamlMatchView> {
    let lines = split_on(content, '\n');
    let nl = lowercase(needle);
    match resource_line(lines, nl) {
        Some(s) => {
            let name = header_name(lines[s]);
            let end = block_end(lines, s);
            Some(
                YamlMatchView {
                    lambda_function_name: name,
                    log_group_name: log_group_of(lines, name),
                    explicit_function_name: first_function_name(lines, s + 1, end),
                    api_paths: collect_paths(lines.subrange(s + 1, end)),
                },
            )
        },
        None => None,
    }
}

// ---------------------------------------------------------------------------
// Line tests
// ---------------------------------------------------------------------------

fn is_top_level(line: &String) -> (r: bool)
    ensures
        r == two_space_line(line@),
{
    regex_is_match(r"^ {2}\S", line.as_str())
}

fn header_name_of(line: &String) -> (r: String)
    ensures
        r@ == header_name(line@),
{
    let v = chars_of(line.as_str());
    let t = trim_chars(&v);
    let u = trim_end_char_chars(&t, ':');
    let w = trim_chars(&u);
    string_of(w.as_slice())
}

fn is_path_hit(line: &String, needle_lower: &String) -> (r: bool)
    ensures
        r == path_hit(line@, needle_lower@),
{
    match regex_group1(r"^\s*Path:\s*(\S+)", line.as_str()) {
        Some(v) => {
            let lower = to_lowercase(v.as_str());
            str_contains(lower.as_str(), needle_lower.as_str())
        },
        None => false,
    }
}

fn is_function_header(line: &String) -> (r: bool)
    ensures
        r == function_header(line@),
{
    if !is_top_level(line) {
        return false;
    }
    let name = header_name_of(line);
    !regex_is_match(r"(?i)Logs?Group$", name.as_str())
}

fn is_named_resource(line: &String, needle_lower: &String) -> (r: bool)
    ensures
        r == named_resource(line@, needle_lower@),
{
    if !is_top_level(line) {
        return false;
    }
    let v = chars_of(line.as_str());
    let t = trim_chars(&v);
    if !chars_end_with(&t, ':') {
        return false;
    }
    let name = header_name_of(line);
    if name.unicode_len() == 0 || regex_is_match(r"(?i)Logs?Group$", name.as_str()) {
        return false;
    }
    let lower = to_lowercase(name.as_str());
    str_contains(lower.as_str(), needle_lower.as_str())
}

// ---------------------------------------------------------------------------
// Passes
// ---------------------------------------------------------------------------

pub open spec fn no_function_header_below(lines: Seq<Seq<char>>, i: int) -> bool {
    forall|j: int| 0 <= j < i ==> !function_header(#[trigger] lines[j])
}

/// Bottom-up scan anchored on `Path:` lines whose value contains the term;
/// the enclosing top-level resource (skipping log groups) is the function.
fn find_by_path(lines: &Vec<String>, needle_lower: &String) -> (r: Option<usize>)
    ensures
        match r {
            Some(j) => j < lines@.len() && last_in(
                0,
                lines@.len() as int,
                anchored(lines.deep_view(), needle_lower@),
            ) == Some(j as int),
            None => last_in(0, lines@.len() as int, anchored(lines.deep_view(), needle_lower@))
                is None,
        },
{
    let ghost ls = lines.deep_view();
    let ghost nl = needle_lower@;
    let n = lines.len();
    let mut i = n;
    while i > 0
        invariant
            i <= n == lines@.len() == ls.len(),
            ls == lines.deep_view(),
            nl == needle_lower@,
            forall|i2: int|
                i <= i2 < n && #[trigger] path_hit(ls[i2], nl) ==> no_function_header_below(ls, i2),
        decreases i,
    {
        i -= 1;
        if is_path_hit(&lines[i], needle_lower) {
            let mut j = i;
            while j > 0
                invariant
                    j <= i < n == lines@.len() == ls.len(),
                    ls == lines.deep_view(),
                    nl == needle_lower@,
                    path_hit(ls[i as int], nl),
                    forall|i2: int|
                        i < i2 < n && #[trigger] path_hit(ls[i2], nl) ==> no_function_header_below(
                            ls,
                            i2,
                        ),
                    forall|j2: int| j <= j2 < i ==> !function_header(#[trigger] ls[j2]),
                decreases j,
            {
                j -= 1;
                if is_function_header(&lines[j]) {
                    proof {
                        let p = anchored(ls, nl);
                        assert(p(j as int));
                        assert forall|k: int| j < k < n implies !#[trigger] p(k) by {
                            if p(k) {
                                let w = choose|w: int| k < w < ls.len() && #[trigger] path_hit(ls[w], nl);
                                if w > i {
                                    assert(no_function_header_below(ls, w));
                                    assert(!function_header(ls[k]));
                                } else {
                                    assert(!function_header(ls[k]));
                                }
                            }
                        }
                        lemma_last_in(0, n as int, p, j as int);
                    }
                    return Some(j);
                }
            }
            proof {
                assert(no_function_header_below(ls, i as int));
            }
        }
    }
    proof {
        let p = anchored(ls, nl);
        assert forall|k: int| 0 <= k < n implies !#[trigger] p(k) by {
            if p(k) {
                let w = choose|w: int| k < w < ls.len() && #[trigger] path_hit(ls[w], nl);
                assert(no_function_header_below(ls, w));
                assert(!function_header(ls[k]));
            }
        }
        lemma_last_in_none(0, n as int, p);
    }
    None
}

/// The first top-level resource whose logical ID contains the term
/// (case-insensitively), log groups skipped.
fn find_by_name(lines: &Vec<String>, needle_lower: &String) -> (r: Option<usize>)
    ensures
        match r {
            Some(i) => i < lines@.len() && first_in(
                0,
                lines@.len() as int,
                named_at(lines.deep_view(), needle_lower@),
            ) == Some(i as int),
            None => first_in(0, lines@.len() as int, named_at(lines.deep_view(), needle_lower@))
                is None,
        },
{
    let ghost ls = lines.deep_view();
    let ghost p = named_at(ls, needle_lower@);
    let mut i: usize = 0;
    while i < lines.len()
        invariant
            i <= lines@.len() == ls.len(),
            ls == lines.deep_view(),
            p == named_at(ls, needle_lower@),
            forall|j: int| 0 <= j < i ==> !#[trigger] p(j),
        decreases lines.len() - i,
    {
        if is_named_resource(&lines[i], needle_lower) {
            proof {
                lemma_first_in(0, ls.len() as int, p, i as int);
            }
            return Some(i);
        }
        i += 1;
    }
    proof {
        lemma_first_in_none(0, ls.len() as int, p);
    }
    None
}

fn contains_string(v: &Vec<String>, s: &String) -> (r: bool)
    ensures
        r == v.deep_view().contains(s@),
{
    let mut i: usize = 0;
    while i < v.len()
        invariant
            i <= v@.len(),
            forall|j: int| 0 <= j < i ==> (#[trigger] v.deep_view()[j]) != s@,
        decreases v.len() - i,
    {
        if v[i] == *s {
            assert(v.deep_view()[i as int] == s@);
            return true;
        }
        i += 1;
    }
    false
}

/// Walks forward through the block of the resource on line `start`,
/// capturing the first `FunctionName:` directive and every `Path:` value,
/// up to the next top-level resource.
fn scan_block(lines: &Vec<String>, start: usize) -> (r: (Option<String>, Vec<String>))
    requires
        start < lines@.len(),
        forall|i: int| 0 <= i < lines@.len() ==> !(#[trigger] lines.deep_view()[i]).contains('\n'),
    ensures
        r.0.deep_view() == first_function_name(
            lines.deep_view(),
            start + 1,
            block_end(lines.deep_view(), start as int),
        ),
        r.1.deep_view() == collect_paths(
            lines.deep_view().subrange(start + 1, block_end(lines.deep_view(), start as int)),
        ),
{
    let ghost ls = lines.deep_view();
    let ghost fp = function_name_at(ls);
    let ghost tp = top_level_at(ls);
    let ghost lo = start + 1;
    proof {
        reveal_strlit("");
        lemma_first_in_none(lo, lo, fp);
        assert(ls.subrange(lo, lo) =~= Seq::<Seq<char>>::empty());
        assert(forall|i: int| 0 <= i < lines@.len() ==> (#[trigger] lines@[i])@ == ls[i]);
    }
    let mut explicit: Option<String> = None;
    let mut paths: Vec<String> = Vec::new();
    let ghost mut found: int = -1;
    let n = lines.len();
    let mut k = start + 1;
    while k < n && !is_top_level(&lines[k])
        invariant
            start < k <= lines@.len() == ls.len(),
            ls == lines.deep_view(),
            lo == start + 1,
            fp == function_name_at(ls),
            tp == top_level_at(ls),
            forall|k2: int| lo <= k2 < k ==> !#[trigger] tp(k2),
            explicit is None ==> forall|k2: int| lo <= k2 < k ==> !#[trigger] fp(k2),
            explicit is Some ==> lo <= found < k && fp(found) && (forall|k2: int|
                lo <= k2 < found ==> !#[trigger] fp(k2)) && explicit.deep_view() == Some(
                trim(function_name_value(ls[found])->0),
            ),
            paths.deep_view() == collect_paths(ls.subrange(lo, k as int)),
            forall|i2: int| 0 <= i2 < lines@.len() ==> !(#[trigger] ls[i2]).contains('\n'),
            n == lines@.len(),
        decreases n - k,
    {
        proof {
            reveal_strlit("");
        }
        assert(!ls[k as int].contains('\n'));
        assert(lines[k as int]@ == ls[k as int]);
        if explicit.is_none() {
            if let Some(c) = regex_group1(r"^\s*FunctionName:\s*(.+?)\s*$", lines[k].as_str()) {
                explicit = Some(trim_str(c.as_str()));
                proof {
                    found = k as int;
                }
            }
        }
        let ghost prev = paths.deep_view();
        proof {
            assert(ls.subrange(lo, k + 1).drop_last() =~= ls.subrange(lo, k as int));
            assert(ls.subrange(lo, k + 1).last() == ls[k as int]);
        }
        if let Some(c) = regex_group1(r"^\s*Path:\s*(\S+)", lines[k].as_str()) {
            let raw = trim_str(c.as_str());
            let cleaned = regex_replace_all(r#"^["']|["']$"#, raw.as_str(), "");
            if cleaned.unicode_len() > 0 && !contains_string(&paths, &cleaned) {
                paths.push(cleaned);
                proof {
                    assert(paths.deep_view() =~= prev.push(cleaned@));
                }
            }
        }
        k += 1;
    }
    proof {
        if k < lines@.len() {
            lemma_first_in(lo, ls.len() as int, tp, k as int);
        } else {
            lemma_first_in_none(lo, ls.len() as int, tp);
        }
        assert(block_end(ls, start as int) == k);
        if explicit is Some {
            lemma_first_in(lo, k as int, fp, found);
        } else {
            lemma_first_in_none(lo, k as int, fp);
        }
    }
    (explicit, paths)
}

/// The `LogGroupName:` value within the window of lines that starts at `i`.
fn log_group_name_in_window(lines: &Vec<String>, i: usize) -> (r: Option<String>)
    requires
        i < lines@.len(),
        forall|j: int| 0 <= j < lines@.len() ==> !(#[trigger] lines.deep_view()[j]).contains('\n'),
    ensures
        r.deep_view() == match first_in(
            i as int,
            window_end(lines.deep_view(), i as int),
            log_group_name_at(lines.deep_view()),
        ) {
            Some(k) => Some(trim(log_group_name_value(lines.deep_view()[k])->0)),
            None => None,
        },
{
    let ghost ls = lines.deep_view();
    let ghost gp = log_group_name_at(ls);
    let end = if lines.len() - i > 15 { i + 15 } else { lines.len() };
    let mut k = i;
    while k < end
        invariant
            i <= k <= end <= lines@.len() == ls.len(),
            end == window_end(ls, i as int),
            ls == lines.deep_view(),
            gp == log_group_name_at(ls),
            forall|j: int| 0 <= j < lines@.len() ==> !(#[trigger] ls[j]).contains('\n'),
            forall|j: int| i <= j < k ==> !#[trigger] gp(j),
        decreases end - k,
    {
        assert(!ls[k as int].contains('\n'));
        assert(lines[k as int]@ == ls[k as int]);
        if let Some(c) = regex_group1(r"LogGroupName:\s*(.+?)\s*$", lines[k].as_str()) {
            proof {
                lemma_first_in(i as int, end as int, gp, k as int);
            }
            return Some(trim_str(c.as_str()));
        }
        k += 1;
    }
    proof {
        lemma_first_in_none(i as int, end as int, gp);
    }
    None
}

/// The first line that starts with `h1` or `h2`.
fn first_header_line(lines: &Vec<String>, h1: &Vec<char>, h2: &Vec<char>, name: Ghost<Seq<char>>) -> (r:
    Option<usize>)
    requires
        h1@ == "  "@ + name@ + "LogsGroup:"@,
        h2@ == "  "@ + name@ + "LogGroup:"@,
    ensures
        match r {
            Some(i) => i < lines@.len() && first_in(
                0,
                lines@.len() as int,
                log_group_header_at(lines.deep_view(), name@),
            ) == Some(i as int),
            None => first_in(0, lines@.len() as int, log_group_header_at(lines.deep_view(), name@))
                is None,
        },
{
    let ghost ls = lines.deep_view();
    let ghost hp = log_group_header_at(ls, name@);
    let mut i: usize = 0;
    while i < lines.len()
        invariant
            i <= lines@.len() == ls.len(),
            ls == lines.deep_view(),
            hp == log_group_header_at(ls, name@),
            h1@ == "  "@ + name@ + "LogsGroup:"@,
            h2@ == "  "@ + name@ + "LogGroup:"@,
            forall|j: int| 0 <= j < i ==> !#[trigger] hp(j),
        decreases lines.len() - i,
    {
        let line = chars_of(lines[i].as_str());
        assert(line@ == ls[i as int]);
        if chars_starts_with(&line, h1) || chars_starts_with(&line, h2) {
            proof {
                lemma_first_in(0, ls.len() as int, hp, i as int);
            }
            return Some(i);
        }
        i += 1;
    }
    proof {
        lemma_first_in_none(0, ls.len() as int, hp);
    }
    None
}

/// Finds the `LogGroupName:` of the log group resource of function `name`.
fn find_log_group(lines: &Vec<String>, name: &String) -> (r: Option<String>)
    requires
        forall|i: int| 0 <= i < lines@.len() ==> !(#[trigger] lines.deep_view()[i]).contains('\n'),
    ensures
        r.deep_view() == log_group_of(lines.deep_view(), name@),
{
    let mut h1 = chars_of("  ");
    let mut n1 = chars_of(name.as_str());
    let mut t1 = chars_of("LogsGroup:");
    h1.append(&mut n1);
    h1.append(&mut t1);
    let mut h2 = chars_of("  ");
    let mut n2 = chars_of(name.as_str());
    let mut t2 = chars_of("LogGroup:");
    h2.append(&mut n2);
    h2.append(&mut t2);
    assert(h1@ =~= "  "@ + name@ + "LogsGroup:"@);
    assert(h2@ =~= "  "@ + name@ + "LogGroup:"@);
    match first_header_line(lines, &h1, &h2, Ghost(name@)) {
        Some(i) => log_group_name_in_window(lines, i),
        None => None,
    }
}

/// The resource line the search term refers to.
fn locate_resource(lines: &Vec<String>, needle_lower: &String) -> (r: Option<usize>)
    ensures
        match r {
            Some(s) => s < lines@.len() && resource_line(lines.deep_view(), needle_lower@) == Some(
                s as int,
            ),
            None => resource_line(lines.deep_view(), needle_lower@) is None,
        },
{
    match find_by_path(lines, needle_lower) {
        Some(j) => Some(j),
        None => find_by_name(lines, needle_lower),
    }
}

/// Locates the Lambda resource `needle` refers to in the template `content`.
///
/// Two-pass match strategy:
///   1. Path-based: bottom-up scan anchored on `Path:` lines whose value
///      contains the term. The enclosing top-level resource is the function.
///   2. Name-based fallback: if no Path matched, the term is taken as a
///      Lambda logical ID (or a substring of one): the first top-level
///      resource key whose name contains it.
/// Both passes skip resources whose name ends in `LogGroup` / `LogsGroup`,
/// and both compare case-insensitively.
pub fn search_yaml(content: &str, needle: &str) -> (r: Option<YamlMatch>)
    ensures
        match r {
            Some(m) => template_match(content@, needle@) == Some(m@),
            None => template_match(content@, needle@) is None,
        },
{
    let lines = split_str(content, '\n');
    let needle_lower = to_lowercase(needle);
    proof {
        lemma_split_on_excludes(content@, '\n');
    }
    let start = match locate_resource(&lines, &needle_lower) {
        Some(s) => s,
        None => {
            return None;
        },
    };
    let name = header_name_of(&lines[start]);
    let (explicit, paths) = scan_block(&lines, start);
    let log_group = find_log_group(&lines, &name);
    Some(
        YamlMatch {
            lambda_function_name: name,
            log_group_name: log_group,
            explicit_function_name: explicit,
            api_paths: paths,
        },
    )
}

// ---------------------------------------------------------------------------
// Laws
// ---------------------------------------------------------------------------

/// An `envStackname-` template: the placeholder and its dash give way to
/// the stack prefix, and the rest is kept as written (the sub-stack is not
/// added). `rest` ends in neither whitespace nor a quote, which trimming and
/// unquoting would take off.
pub proof fn lemma_env_stackname_rule(rest: Seq<char>, stack_prefix: Seq<char>, sub_stack: Seq<char>)
    requires
        !stack_prefix.contains('$'),
        rest.len() > 0 ==> !is_ws(rest.last()) && !is_quote(rest.last()),
    ensures
        resolved_function_name("envStackname-"@ + rest, stack_prefix, sub_stack) == stack_prefix
            + rest,
{
    reveal_strlit("envStackname-");
    reveal_strlit("envStackname");
    reveal_strlit("!Sub");
    let t = "envStackname-"@ + rest;
    let kw = "envStackname"@;
    assert(t[0] == 'e');
    assert(t.last() == if rest.len() > 0 { rest.last() } else { '-' });
    lemma_lead_run_unique(t, ws(), 0);
    lemma_trail_run_unique(t, ws(), 0);
    assert(trim_start(t) =~= t);
    assert(trim(t) =~= t);
    assert(t.take(4) != "!Sub"@) by {
        assert(t.take(4)[0] != "!Sub"@[0]);
    }
    assert(sub_prefix_stripped(t) == t);
    assert(outer_quotes_stripped(t) == t);
    assert(t.subrange(0, 12) =~= kw);
    assert(occurs_at(t, kw, 0));
    let p = first_occurrence(t, kw);
    assert(p == 0);
    assert(t[12] == '-');
    assert(env_stackname_len(t, 0) == 13);
    assert(t.skip(13) =~= rest);
    assert(t.take(0) + stack_prefix + t.skip(13) =~= stack_prefix + rest);
    lemma_resolved_by_env_stackname(t, stack_prefix, sub_stack);
}

proof fn lemma_resolved_by_env_stackname(template: Seq<char>, stack_prefix: Seq<char>, sub_stack: Seq<char>)
    requires
        outer_quotes_stripped(sub_prefix_stripped(trim(template))) == template,
        has_env_stackname(template),
        !stack_prefix.contains('$'),
    ensures
        resolved_function_name(template, stack_prefix, sub_stack) == env_stackname_replaced(
            template,
            stack_prefix,
        ),
{
}

/// A bare `EnvironmentValue` template with no `${...}` placeholder: the
/// deployed name is the stack prefix, the sub-stack and what follows the
/// placeholder after its joining `-`.
pub proof fn lemma_environment_value_rule(rest: Seq<char>, stack_prefix: Seq<char>, sub_stack: Seq<char>)
    requires
        !rest.contains('$'),
        !rest.contains('\n'),
        !(rest.len() > 0 && rest[0] == '-'),
        !contains_sub(rest, "EnvironmentValue"@),
        !contains_sub("EnvironmentValue-"@ + rest, "envStackname"@),
        rest.len() > 0 ==> !is_ws(rest.last()) && !is_quote(rest.last()),
    ensures
        resolved_function_name("EnvironmentValue-"@ + rest, stack_prefix, sub_stack) == stack_prefix
            + sub_stack + rest,
{
    let t = "EnvironmentValue-"@ + rest;
    lemma_environment_value_unquoted(rest);
    lemma_environment_value_no_placeholder(rest);
    lemma_environment_value_found(rest);
    lemma_joining_dash(rest);
    lemma_resolved_by_env_value(t, stack_prefix, sub_stack, seq!['-'] + rest);
}

proof fn lemma_environment_value_unquoted(rest: Seq<char>)
    requires
        rest.len() > 0 ==> !is_ws(rest.last()) && !is_quote(rest.last()),
    ensures
        outer_quotes_stripped(sub_prefix_stripped(trim("EnvironmentValue-"@ + rest)))
            == "EnvironmentValue-"@ + rest,
{
    reveal_strlit("EnvironmentValue-");
    reveal_strlit("!Sub");
    let t = "EnvironmentValue-"@ + rest;
    assert(t[0] == 'E');
    assert(t.last() == if rest.len() > 0 { rest.last() } else { '-' });
    lemma_lead_run_unique(t, ws(), 0);
    lemma_trail_run_unique(t, ws(), 0);
    assert(trim_start(t) =~= t);
    assert(trim(t) =~= t);
    assert(t.take(4) != "!Sub"@) by {
        assert(t.take(4)[0] != "!Sub"@[0]);
    }
}

proof fn lemma_environment_value_no_placeholder(rest: Seq<char>)
    requires
        !rest.contains('$'),
    ensures
        sub_placeholder_value("EnvironmentValue-"@ + rest) is None,
{
    reveal_strlit("EnvironmentValue-");
    let t = "EnvironmentValue-"@ + rest;
    assert forall|p: int, q: int| !placeholder_at(t, p, q) by {
        if placeholder_at(t, p, q) {
            if p >= 17 {
                assert(t[p] == rest[p - 17]);
                assert(rest.contains(rest[p - 17]));
            } else {
                assert(p == 0 || p == 1 || p == 2 || p == 3 || p == 4 || p == 5 || p == 6 || p == 7
                    || p == 8 || p == 9 || p == 10 || p == 11 || p == 12 || p == 13 || p == 14 || p
                    == 15 || p == 16);
                assert(t[p] == "EnvironmentValue-"@[p]);
            }
        }
    }
}

proof fn lemma_environment_value_found(rest: Seq<char>)
    requires
        !rest.contains('\n'),
        !contains_sub(rest, "EnvironmentValue"@),
    ensures
        env_value_value("EnvironmentValue-"@ + rest) == Some(seq!['-'] + rest),
{
    reveal_strlit("EnvironmentValue-");
    reveal_strlit("EnvironmentValue");
    let t = "EnvironmentValue-"@ + rest;
    let kw = "EnvironmentValue"@;
    assert(t.subrange(0, 16) =~= kw);
    assert forall|k: int| 16 <= k < t.len() implies t[k] != '\n' by {
        if k > 16 {
            assert(rest.contains(t[k]));
        }
    }
    assert(env_value_at(t, 0));
    assert forall|p: int| env_value_at(t, p) implies p == 0 by {
        assert(t.subrange(p, p + 16) == kw);
        assert(t[p] == t.subrange(p, p + 16)[0]);
        if 0 < p < 17 {
            assert(p == 1 || p == 2 || p == 3 || p == 4 || p == 5 || p == 6 || p == 7 || p == 8 || p
                == 9 || p == 10 || p == 11 || p == 12 || p == 13 || p == 14 || p == 15 || p == 16);
            assert(t[p] == "EnvironmentValue-"@[p]);
        }
        if p >= 17 {
            assert(rest.subrange(p - 17, p - 17 + 16) =~= t.subrange(p, p + 16));
            assert(occurs_at(rest, kw, p - 17));
        }
    }
    let p = choose|p: int| env_value_at(t, p) && forall|p2: int| env_value_at(t, p2) ==> p2 <= p;
    assert(env_value_at(t, p));
    assert(t.skip(16) =~= seq!['-'] + rest);
}

proof fn lemma_resolved_by_env_value(
    template: Seq<char>,
    stack_prefix: Seq<char>,
    sub_stack: Seq<char>,
    rest: Seq<char>,
)
    requires
        outer_quotes_stripped(sub_prefix_stripped(trim(template))) == template,
        !has_env_stackname(template),
        sub_placeholder_value(template) is None,
        env_value_value(template) == Some(rest),
    ensures
        resolved_function_name(template, stack_prefix, sub_stack) == stack_prefix + sub_stack
            + leading_dashes_stripped(rest),
{
}

/// A literal `FunctionName:` (no placeholder of any kind, nothing for
/// trimming, `!Sub` or unquoting to take off) is the deployed name as it
/// stands.
pub proof fn lemma_literal_rule(t: Seq<char>, stack_prefix: Seq<char>, sub_stack: Seq<char>)
    requires
        t.len() > 0,
        !is_ws(t[0]) && !is_quote(t[0]) && t[0] != '!',
        !is_ws(t.last()) && !is_quote(t.last()),
        !t.contains('$'),
        !contains_sub(t, "EnvironmentValue"@),
        !contains_sub(t, "envStackname"@),
    ensures
        resolved_function_name(t, stack_prefix, sub_stack) == t,
{
    reveal_strlit("!Sub");
    lemma_lead_run_unique(t, ws(), 0);
    lemma_trail_run_unique(t, ws(), 0);
    assert(trim_start(t) =~= t);
    assert(trim(t) =~= t);
    assert(!starts_with(t, "!Sub"@)) by {
        if t.len() >= 4 {
            assert(t.take(4)[0] != "!Sub"@[0]);
        }
    }
    assert(sub_prefix_stripped(t) == t);
    assert(outer_quotes_stripped(t) == t);
    assert forall|p: int, q: int| !placeholder_at(t, p, q) by {
        if placeholder_at(t, p, q) {
            assert(t.contains(t[p]));
        }
    }
    assert forall|p: int| !env_value_at(t, p) by {
        if env_value_at(t, p) {
            assert(contains_sub(t, "EnvironmentValue"@));
        }
    }
}

/// The `!Sub '${...}-...'` form of a `FunctionName:` template: whatever the
/// placeholder's name (`EnvironmentValue` too), the deployed name is the
/// stack prefix, the sub-stack and what follows the placeholder after its
/// joining `-`. The placeholder, its closing `}` included, never shows in
/// the result.
#[verifier::spinoff_prover]
pub proof fn lemma_sub_placeholder_rule(
    x: Seq<char>,
    w: Seq<char>,
    stack_prefix: Seq<char>,
    sub_stack: Seq<char>,
)
    requires
        x.len() > 0,
        !x.contains('}'),
        !w.contains('}'),
        !w.contains('\n'),
        !(w.len() > 0 && w[0] == '-'),
        !contains_sub("!Sub '${"@ + x + "}-"@ + w + "'"@, "envStackname"@),
    ensures
        resolved_function_name("!Sub '${"@ + x + "}-"@ + w + "'"@, stack_prefix, sub_stack)
            == stack_prefix + sub_stack + w,
{
    let t = "!Sub '${"@ + x + "}-"@ + w + "'"@;
    let u = "${"@ + x + "}-"@ + w;
    lemma_sub_template_unquoted(x, w);
    lemma_sub_template_no_env_stackname(x, w);
    lemma_sub_template_placeholder(x, w);
    lemma_joining_dash(w);
    lemma_resolved_by_placeholder(t, stack_prefix, sub_stack, u, seq!['-'] + w);
}

proof fn lemma_resolved_by_placeholder(
    template: Seq<char>,
    stack_prefix: Seq<char>,
    sub_stack: Seq<char>,
    unquoted: Seq<char>,
    rest: Seq<char>,
)
    requires
        outer_quotes_stripped(sub_prefix_stripped(trim(template))) == unquoted,
        !has_env_stackname(unquoted),
        sub_placeholder_value(unquoted) == Some(rest),
    ensures
        resolved_function_name(template, stack_prefix, sub_stack) == stack_prefix + sub_stack
            + leading_dashes_stripped(rest),
{
}

proof fn lemma_joining_dash(w: Seq<char>)
    requires
        !(w.len() > 0 && w[0] == '-'),
    ensures
        leading_dashes_stripped(seq!['-'] + w) == w,
{
    let rest = seq!['-'] + w;
    lemma_lead_run_unique(rest, is_char('-'), 1);
    assert(rest.skip(1) =~= w);
}

proof fn lemma_sub_template_unquoted(x: Seq<char>, w: Seq<char>)
    ensures
        outer_quotes_stripped(sub_prefix_stripped(trim("!Sub '${"@ + x + "}-"@ + w + "'"@)))
            == "${"@ + x + "}-"@ + w,
{
    reveal_strlit("!Sub '${");
    reveal_strlit("}-");
    reveal_strlit("'");
    reveal_strlit("!Sub");
    reveal_strlit("${");
    let t = "!Sub '${"@ + x + "}-"@ + w + "'"@;
    let u = "${"@ + x + "}-"@ + w;
    assert(t[0] == '!');
    assert(t[t.len() - 1] == '\'');
    lemma_lead_run_unique(t, ws(), 0);
    lemma_trail_run_unique(t, ws(), 0);
    assert(trim_start(t) =~= t);
    assert(trim(t) =~= t);
    assert(t.take(4) =~= "!Sub"@);
    assert(is_ws(t[4]));
    let v0 = t.skip(4);
    assert(v0[0] == ' ' && v0[1] == '\'');
    lemma_lead_run_unique(v0, ws(), 1);
    let v = v0.skip(1);
    assert(sub_prefix_stripped(t) == v);
    assert(v[0] == '\'');
    assert(v.drop_first().last() == '\'');
    assert(v.drop_first().drop_last() =~= u);
}

proof fn lemma_sub_template_no_env_stackname(x: Seq<char>, w: Seq<char>)
    requires
        !contains_sub("!Sub '${"@ + x + "}-"@ + w + "'"@, "envStackname"@),
    ensures
        !has_env_stackname("${"@ + x + "}-"@ + w),
{
    reveal_strlit("!Sub '${");
    reveal_strlit("${");
    let t = "!Sub '${"@ + x + "}-"@ + w + "'"@;
    let u = "${"@ + x + "}-"@ + w;
    let kw = "envStackname"@;
    assert forall|i: int| !occurs_at(u, kw, i) by {
        if occurs_at(u, kw, i) {
            assert(t.subrange(i + 6, i + 6 + kw.len()) =~= u.subrange(i, i + kw.len()));
            assert(occurs_at(t, kw, i + 6));
        }
    }
}

#[verifier::spinoff_prover]
proof fn lemma_sub_template_placeholder(x: Seq<char>, w: Seq<char>)
    requires
        x.len() > 0,
        !x.contains('}'),
        !w.contains('}'),
        !w.contains('\n'),
    ensures
        sub_placeholder_value("${"@ + x + "}-"@ + w) == Some(seq!['-'] + w),
{
    reveal_strlit("}-");
    reveal_strlit("${");
    let a = "${"@ + x;
    let b = "}-"@ + w;
    let u = a + b;
    assert(u =~= "${"@ + x + "}-"@ + w);
    let q: int = 2 + x.len() as int;
    let rest = seq!['-'] + w;
    assert(a.len() == q && b.len() == 2 + w.len());
    assert(u[0] == '$' && u[1] == '{' && u[q] == '}' && u[q + 1] == '-');
    assert forall|k: int| 0 <= k < u.len() && u[k] == '}' implies k == q by {
        if k < q {
            assert(u[k] == a[k]);
            if k >= 2 {
                assert(a[k] == x[k - 2]);
                assert(x.contains(x[k - 2]));
            }
        } else if k > q + 1 {
            assert(u[k] == b[k - q]);
            assert(b[k - q] == w[k - q - 2]);
            assert(w.contains(w[k - q - 2]));
        }
    }
    assert forall|k: int| q + 1 <= k < u.len() implies u[k] != '\n' by {
        if k > q + 1 {
            assert(u[k] == b[k - q]);
            assert(b[k - q] == w[k - q - 2]);
            assert(w.contains(w[k - q - 2]));
        }
    }
    assert forall|k: int| 2 <= k < q implies u[k] != '}' by {
        assert(u[k] == a[k]);
        assert(a[k] == x[k - 2]);
        assert(x.contains(x[k - 2]));
    }
    assert(placeholder_at(u, 0, q));
    assert(forall|p2: int, q2: int| #[trigger] placeholder_at(u, p2, q2) ==> q2 == q);
    assert(u.skip(q + 1) =~= rest);
    lemma_single_closing_brace(u, q);
}

/// Where every usable placeholder of `u` closes at `q`, and one opens at the
/// start, what follows the last one is what follows `q`.
proof fn lemma_single_closing_brace(u: Seq<char>, q: int)
    requires
        placeholder_at(u, 0, q),
        forall|p2: int, q2: int| #[trigger] placeholder_at(u, p2, q2) ==> q2 == q,
    ensures
        sub_placeholder_value(u) == Some(u.skip(q + 1)),
{
    let at_q = |p: int| placeholder_at(u, p, q);
    assert(at_q(0));
    lemma_last_in_some(0, q, at_q);
    let k = last_in(0, q, at_q)->0;
    assert forall|p2: int, q2: int| placeholder_at(u, p2, q2) implies p2 <= k by {
        if p2 > k {
            assert(at_q(p2));
        }
    }
    assert(placeholder_at(u, k, q));
    let (p3, q3) = choose|p: int, q: int|
        placeholder_at(u, p, q) && forall|p2: int, q2: int| placeholder_at(u, p2, q2) ==> p2 <= p;
    assert(placeholder_at(u, p3, q3));
}



/// The resource line found is a function resource: a top-level line whose
/// logical ID does not end in `LogGroup` / `LogsGroup`.
pub proof fn lemma_resource_line_is_function(lines: Seq<Seq<char>>, needle_lower: Seq<char>)
    ensures
        resource_line(lines, needle_lower) matches Some(s) ==> 0 <= s < lines.len()
            && two_space_line(lines[s]) && !log_group_suffix(header_name(lines[s])),
{
    let pa = anchored(lines, needle_lower);
    let pn = named_at(lines, needle_lower);
    lemma_last_in_some(0, lines.len() as int, pa);
    lemma_first_in_some(0, lines.len() as int, pn);
    if let Some(j) = last_in(0, lines.len() as int, pa) {
        assert(pa(j));
    } else if let Some(i) = first_in(0, lines.len() as int, pn) {
        assert(pn(i));
    }
}

/// Both passes skip log group resources: the function found never has a
/// name ending in `LogGroup` / `LogsGroup`.
pub proof fn lemma_found_function_is_not_log_group(content: Seq<char>, needle: Seq<char>)
    ensures
        template_match(content, needle) matches Some(m) ==> !log_group_suffix(
            m.lambda_function_name,
        ),
{
    lemma_resource_line_is_function(split_on(content, '\n'), lowercase(needle));
}

/// The search term is compared case-insensitively: terms with the same
/// lowercase form find the same resource.
pub proof fn lemma_search_ignores_case(content: Seq<char>, n1: Seq<char>, n2: Seq<char>)
    requires
        lowercase(n1) == lowercase(n2),
    ensures
        template_match(content, n1) == template_match(content, n2),
{
}

/// The path pass picks the resource that encloses a matching `Path:` line:
/// no other function resource stands between the two.
pub proof fn lemma_path_resource_encloses_path(lines: Seq<Seq<char>>, needle_lower: Seq<char>)
    ensures
        last_in(0, lines.len() as int, anchored(lines, needle_lower)) matches Some(j) ==> exists|
            i: int,
        |
            j < i < lines.len() && #[trigger] path_hit(lines[i], needle_lower) && forall|h: int|
                j < h < i ==> !function_header(#[trigger] lines[h]),
{
    let pa = anchored(lines, needle_lower);
    lemma_last_in_some(0, lines.len() as int, pa);
    if let Some(j) = last_in(0, lines.len() as int, pa) {
        assert(pa(j));
        let w = choose|w: int| j < w < lines.len() && #[trigger] path_hit(lines[w], needle_lower);
        assert forall|h: int| j < h < w implies !function_header(#[trigger] lines[h]) by {
            if function_header(lines[h]) {
                assert(pa(h));
            }
        }
    }
}

/// The API paths reported for a function are non-empty and distinct.
pub proof fn lemma_api_paths_distinct(block: Seq<Seq<char>>)
    ensures
        forall|i: int| 0 <= i < collect_paths(block).len() ==> (#[trigger] collect_paths(block)[i]).len()
            > 0,
        forall|i: int, j: int|
            0 <= i < j < collect_paths(block).len() ==> #[trigger] collect_paths(block)[i]
                != #[trigger] collect_paths(block)[j],
    decreases block.len(),
{
    if block.len() > 0 {
        lemma_api_paths_distinct(block.drop_last());
        let prev = collect_paths(block.drop_last());
        let cur = collect_paths(block);
        if cur.len() > prev.len() {
            assert forall|i: int, j: int| 0 <= i < j < cur.len() implies #[trigger] cur[i]
                != #[trigger] cur[j] by {
                if j == cur.len() - 1 {
                    assert(cur[i] == prev[i]);
                    if cur[i] == cur[j] {
                        assert(prev.contains(cur[j]));
                    }
                } else {
                    assert(cur[i] == prev[i] && cur[j] == prev[j]);
                }
            }
            assert forall|i: int| 0 <= i < cur.len() implies (#[trigger] cur[i]).len() > 0 by {
                if i < prev.len() {
                    assert(cur[i] == prev[i]);
                }
            }
        }
    }
}

/// Line `k` belongs to the block of the resource declared on line `s`: it
/// comes after `s`, and no top-level line stands after `s` up to and
/// including `k`.
pub open spec fn in_block(lines: Seq<Seq<char>>, s: int, k: int) -> bool {
    &&& s < k < lines.len()
    &&& forall|j: int| s < j <= k ==> !two_space_line(#[trigger] lines[j])
}

/// The paths gathered from `block` are exactly its non-empty `Path:` values.
proof fn lemma_collect_paths_source(block: Seq<Seq<char>>)
    ensures
        forall|i: int| #![trigger collect_paths(block)[i]] 0 <= i < collect_paths(block).len()
            ==> exists|k: int| #![trigger block[k]]
            0 <= k < block.len() && cleaned_path(block[k]) == Some(collect_paths(block)[i]),
        forall|k: int|
            0 <= k < block.len() && cleaned_path(#[trigger] block[k]) is Some && cleaned_path(
                block[k],
            )->0.len() > 0 ==> collect_paths(block).contains(cleaned_path(block[k])->0),
    decreases block.len(),
{
    if block.len() > 0 {
        let b0 = block.drop_last();
        lemma_collect_paths_source(b0);
        let prev = collect_paths(b0);
        let cur = collect_paths(block);
        let n = block.len() - 1;
        assert forall|i: int| #![trigger cur[i]] 0 <= i < cur.len() implies exists|k: int|
            #![trigger block[k]] 0 <= k < block.len() && cleaned_path(block[k]) == Some(cur[i]) by {
            if i < prev.len() {
                assert(cur[i] == prev[i]);
                let k = choose|k: int| #![trigger b0[k]] 0 <= k < b0.len() && cleaned_path(b0[k]) == Some(prev[i]);
                assert(block[k] == b0[k]);
            } else {
                assert(cleaned_path(block[n]) == Some(cur[i]));
            }
        }
        assert forall|k: int|
            0 <= k < block.len() && cleaned_path(#[trigger] block[k]) is Some && cleaned_path(
                block[k],
            )->0.len() > 0 implies cur.contains(cleaned_path(block[k])->0) by {
            let c = cleaned_path(block[k])->0;
            if k < n {
                assert(block[k] == b0[k]);
                assert(prev.contains(c));
                let i = choose|i: int| 0 <= i < prev.len() && prev[i] == c;
                assert(cur[i] == prev[i]);
            } else if prev.contains(c) {
                let i = choose|i: int| 0 <= i < prev.len() && prev[i] == c;
                assert(cur[i] == prev[i]);
            } else {
                assert(cur[cur.len() - 1] == c);
            }
        }
    }
}

/// The lines after `s` up to the end of its block are exactly the lines of
/// that block.
proof fn lemma_block_end(lines: Seq<Seq<char>>, s: int)
    requires
        0 <= s < lines.len(),
    ensures
        s < block_end(lines, s) <= lines.len(),
        forall|k: int| in_block(lines, s, k) <==> s < k < block_end(lines, s),
{
    let tp = top_level_at(lines);
    lemma_first_in_some(s + 1, lines.len() as int, tp);
    let e = block_end(lines, s);
    if let Some(f) = first_in(s + 1, lines.len() as int, tp) {
        assert(tp(f));
        assert forall|k: int| in_block(lines, s, k) <==> s < k < e by {
            if s < k < e {
                assert forall|j: int| s < j <= k implies !two_space_line(#[trigger] lines[j]) by {
                    assert(!tp(j));
                }
            }
            if in_block(lines, s, k) && k >= e {
                assert(!two_space_line(lines[e]));
            }
        }
    } else {
        assert forall|k: int| in_block(lines, s, k) <==> s < k < e by {
            if s < k < e {
                assert forall|j: int| s < j <= k implies !two_space_line(#[trigger] lines[j]) by {
                    if two_space_line(lines[j]) {
                        assert(tp(j));
                    }
                }
            }
        }
    }
}

/// The paths and the `FunctionName:` gathered for the resource on line
/// `s` come from its block, in the sense of `in_block`.
proof fn lemma_block_contents(lines: Seq<Seq<char>>, s: int)
    requires
        0 <= s < lines.len(),
    ensures
        ({
            let e = block_end(lines, s);
            let api = collect_paths(lines.subrange(s + 1, e));
            let fname = first_function_name(lines, s + 1, e);
            &&& forall|i: int| #![trigger api[i]] 0 <= i < api.len() ==> exists|k: int|
                #![trigger lines[k]] in_block(lines, s, k) && cleaned_path(lines[k]) == Some(api[i])
            &&& forall|k: int|
                #![trigger cleaned_path(lines[k])]
                in_block(lines, s, k) && cleaned_path(lines[k]) is Some && cleaned_path(
                    lines[k],
                )->0.len() > 0 ==> api.contains(cleaned_path(lines[k])->0)
            &&& (fname matches Some(f) ==> exists|k: int|
                #![trigger function_name_value(lines[k])]
                in_block(lines, s, k) && function_name_value(lines[k]) is Some && f == trim(
                    function_name_value(lines[k])->0,
                ) && forall|j: int| s < j < k ==> function_name_value(#[trigger] lines[j]) is None)
            &&& (fname is None ==> forall|k: int|
                #![trigger function_name_value(lines[k])]
                in_block(lines, s, k) ==> function_name_value(lines[k]) is None)
        }),
{
    let e = block_end(lines, s);
    lemma_block_end(lines, s);
    let block = lines.subrange(s + 1, e);
    let api = collect_paths(block);
    lemma_collect_paths_source(block);
    assert forall|i: int| #![trigger api[i]] 0 <= i < api.len() implies exists|k: int|
        #![trigger lines[k]] in_block(lines, s, k) && cleaned_path(lines[k]) == Some(api[i]) by {
        let k = choose|k: int| #![trigger block[k]] 0 <= k < block.len() && cleaned_path(block[k]) == Some(
            api[i],
        );
        assert(block[k] == lines[s + 1 + k]);
        assert(in_block(lines, s, s + 1 + k));
    }
    assert forall|k: int|
        #![trigger cleaned_path(lines[k])]
        in_block(lines, s, k) && cleaned_path(lines[k]) is Some && cleaned_path(lines[k])->0.len()
            > 0 implies api.contains(cleaned_path(lines[k])->0) by {
        assert(block[k - s - 1] == lines[k]);
    }
    let fp = function_name_at(lines);
    lemma_first_in_some(s + 1, e, fp);
    match first_in(s + 1, e, fp) {
        Some(k) => {
            assert(fp(k));
            assert(in_block(lines, s, k));
            assert forall|j: int| s < j < k implies function_name_value(#[trigger] lines[j]) is None by {
                assert(!fp(j));
            }
        },
        None => {
            assert forall|k: int| #![trigger function_name_value(lines[k])] in_block(lines, s, k)
                implies function_name_value(lines[k]) is None by {
                if function_name_value(lines[k]) is Some {
                    assert(fp(k));
                }
            }
        },
    }
}

/// What is reported as `m` for the resource declared on line `s` is drawn
/// from that resource's block: the logical ID is that of line `s`, a
/// top-level line; each API path is the `Path:` value of a line of the
/// block, and each non-empty `Path:` value of the block is among them; the
/// `FunctionName:` is that of the first line of the block that has one, and
/// there is none when no line of the block has one.
pub open spec fn drawn_from_block(lines: Seq<Seq<char>>, s: int, m: YamlMatchView) -> bool {
    &&& 0 <= s < lines.len()
    &&& two_space_line(lines[s])
    &&& m.lambda_function_name == header_name(lines[s])
    &&& forall|i: int| #![trigger m.api_paths[i]] 0 <= i < m.api_paths.len() ==> exists|k: int|
        #![trigger lines[k]] in_block(lines, s, k) && cleaned_path(lines[k]) == Some(
            m.api_paths[i],
        )
    &&& forall|k: int|
        #![trigger cleaned_path(lines[k])]
        in_block(lines, s, k) && cleaned_path(lines[k]) is Some && cleaned_path(
            lines[k],
        )->0.len() > 0 ==> m.api_paths.contains(cleaned_path(lines[k])->0)
    &&& (m.explicit_function_name matches Some(f) ==> exists|k: int|
        #![trigger function_name_value(lines[k])]
        in_block(lines, s, k) && function_name_value(lines[k]) is Some && f == trim(
            function_name_value(lines[k])->0,
        ) && forall|j: int|
            s < j < k ==> function_name_value(#[trigger] lines[j]) is None)
    &&& (m.explicit_function_name is None ==> forall|k: int|
        #![trigger function_name_value(lines[k])]
        in_block(lines, s, k) ==> function_name_value(lines[k]) is None)
}

proof fn lemma_block_law_at(lines: Seq<Seq<char>>, s: int, m: YamlMatchView)
    requires
        0 <= s < lines.len(),
        two_space_line(lines[s]),
        m.lambda_function_name == header_name(lines[s]),
        m.api_paths == collect_paths(lines.subrange(s + 1, block_end(lines, s))),
        m.explicit_function_name == first_function_name(lines, s + 1, block_end(lines, s)),
    ensures
        drawn_from_block(lines, s, m),
{
    lemma_block_contents(lines, s);
}

/// What a template says of a resource comes from that resource's own block.
/// The logical ID is declared on the top-level line the search settles on;
/// every API path and the `FunctionName:` reported stand on lines of its
/// block (after that line, with no top-level line in between, so never past
/// the next resource). Every non-empty `Path:` value of the block is
/// reported; the `FunctionName:` reported is the first of the block, and
/// there is none when the block has none.
pub proof fn lemma_match_within_block(content: Seq<char>, needle: Seq<char>)
    ensures
        ({
            let lines = split_on(content, '\n');
            template_match(content, needle) matches Some(m) ==> drawn_from_block(
                lines,
                resource_line(lines, lowercase(needle))->0,
                m,
            )
        }),
{
    let lines = split_on(content, '\n');
    let nl = lowercase(needle);
    lemma_resource_line_is_function(lines, nl);
    if let Some(s) = resource_line(lines, nl) {
        let m = template_match(content, needle)->0;
        let e = block_end(lines, s);
        assert(m.api_paths == collect_paths(lines.subrange(s + 1, e)));
        assert(m.explicit_function_name == first_function_name(lines, s + 1, e));
        assert(m.lambda_function_name == header_name(lines[s]));
        lemma_block_law_at(lines, s, m);
    }
}

} // verus!
