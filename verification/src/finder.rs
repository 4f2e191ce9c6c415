//! The search behind "Find Lambda / Logs URL": checking a query, choosing
//! the repository folders to search, reading what `grep` reported, and
//! turning each matching template into console URLs.
use vstd::prelude::*;
use crate::pattern::{env_stackname_replaced, has_env_stackname, regex_replace};
use crate::repos::{folder_to_repo, lookup_folder, repo_for_folder, repo_table, repos, Repo};
use crate::template::{
    resolve_explicit_function_name, resolved_function_name, search_yaml, stack_expansion,
    template_match, YamlMatch, YamlMatchView,
};
use crate::text::{
    copy_strings, chars_of, chars_starts_with, first_index_of, first_index_of_char, push_char, not_char, trail_run, split_on,
    split_str, str_eq, string_of, sub_chars, trim, trim_str,
    starts_with, contains_sub, occurs_at,
};

verus! {

/// The AWS region every console URL points at.
pub const REGION: &'static str = "ap-south-1";

pub open spec fn lambda_base_text() -> Seq<char> {
    "https://"@ + REGION@ + ".console.aws.amazon.com/lambda/home?region="@ + REGION@
        + "#/functions/"@
}

pub open spec fn logs_base_text() -> Seq<char> {
    "https://"@ + REGION@ + ".console.aws.amazon.com/cloudwatch/home?region="@ + REGION@
        + "#logsV2:log-groups/log-group/"@
}

/// The Lambda console URL that a function name is appended to.
pub fn lambda_base() -> (r: String)
    ensures
        r@ == lambda_base_text(),
{
    let mut r = String::from_str("https://");
    r.append(REGION);
    r.append(".console.aws.amazon.com/lambda/home?region=");
    r.append(REGION);
    r.append("#/functions/");
    r
}

/// The CloudWatch console URL that an encoded log group name is appended to.
pub fn logs_base() -> (r: String)
    ensures
        r@ == logs_base_text(),
{
    let mut r = String::from_str("https://");
    r.append(REGION);
    r.append(".console.aws.amazon.com/cloudwatch/home?region=");
    r.append(REGION);
    r.append("#logsV2:log-groups/log-group/");
    r
}

/// Every `/` of a log group name replaced by `$252F`, as the CloudWatch
/// console expects it in a URL fragment.
pub open spec fn encoded_log_group(s: Seq<char>) -> Seq<char>
    decreases s.len(),
{
    if s.len() == 0 {
        Seq::empty()
    } else {
        encoded_log_group(s.drop_last()) + if s.last() == '/' {
            "$252F"@
        } else {
            seq![s.last()]
        }
    }
}

/// `name.replace('/', "$252F")`.
pub fn encode_log_group(name: &str) -> (r: String)
    ensures
        r@ == encoded_log_group(name@),
{
    let v = chars_of(name);
    let mut r = String::new();
    let mut i: usize = 0;
    while i < v.len()
        invariant
            i <= v@.len(),
            v@ == name@,
            r@ == encoded_log_group(v@.take(i as int)),
        decreases v.len() - i,
    {
        proof {
            assert(v@.take(i + 1).drop_last() =~= v@.take(i as int));
        }
        if v[i] == '/' {
            r.append("$252F");
        } else {
            push_char(&mut r, v[i]);
            assert(r@ =~= encoded_log_group(v@.take(i as int)) + seq![v@[i as int]]);
        }
        i += 1;
    }
    assert(v@.take(v@.len() as int) =~= v@);
    r
}

/// The first path component of a `grep` result, after a leading `./`.
pub open spec fn top_level_folder_of(rel: Seq<char>) -> Seq<char> {
    let cleaned = if starts_with(rel, "./"@) {
        rel.skip("./"@.len() as int)
    } else {
        rel
    };
    cleaned.take(first_index_of(cleaned, '/') as int)
}

/// The top-level folder of a path relative to the repo root.
pub fn top_level_folder(rel: &str) -> (r: &str)
    ensures
        r@ == top_level_folder_of(rel@),
{
    let v = chars_of(rel);
    let dot = chars_of("./");
    let skip = if chars_starts_with(&v, &dot) {
        dot.len()
    } else {
        0
    };
    let cleaned = sub_chars(&v, skip, v.len());
    let k = first_index_of_char(&cleaned, '/');
    proof {
        assert(cleaned@ =~= if starts_with(rel@, "./"@) {
            rel@.skip("./"@.len() as int)
        } else {
            rel@
        });
    }
    let r = rel.substring_char(skip, skip + k);
    assert(r@ =~= cleaned@.take(k as int));
    r
}

// ---------------------------------------------------------------------------
// Decimal rendering
// ---------------------------------------------------------------------------

pub open spec fn digit_char(d: nat) -> char {
    if d == 0 {
        '0'
    } else if d == 1 {
        '1'
    } else if d == 2 {
        '2'
    } else if d == 3 {
        '3'
    } else if d == 4 {
        '4'
    } else if d == 5 {
        '5'
    } else if d == 6 {
        '6'
    } else if d == 7 {
        '7'
    } else if d == 8 {
        '8'
    } else {
        '9'
    }
}

/// The decimal digits of `n`, as `Display` writes a non-negative integer.
pub open spec fn decimal_nat(n: nat) -> Seq<char>
    decreases n,
{
    if n < 10 {
        seq![digit_char(n)]
    } else {
        decimal_nat(n / 10).push(digit_char(n % 10))
    }
}

/// `Display` of an integer: an optional `-`, then the digits of its magnitude.
pub open spec fn decimal(n: int) -> Seq<char> {
    if n < 0 {
        seq!['-'] + decimal_nat((-n) as nat)
    } else {
        decimal_nat(n as nat)
    }
}

fn digit(d: u64) -> (c: char)
    requires
        d < 10,
    ensures
        c == digit_char(d as nat),
{
    if d == 0 {
        '0'
    } else if d == 1 {
        '1'
    } else if d == 2 {
        '2'
    } else if d == 3 {
        '3'
    } else if d == 4 {
        '4'
    } else if d == 5 {
        '5'
    } else if d == 6 {
        '6'
    } else if d == 7 {
        '7'
    } else if d == 8 {
        '8'
    } else {
        '9'
    }
}

fn push_decimal(s: &mut String, n: u64)
    ensures
        final(s)@ == old(s)@ + decimal_nat(n as nat),
    decreases n,
{
    if n < 10 {
        push_char(s, digit(n));
    } else {
        push_decimal(s, n / 10);
        push_char(s, digit(n % 10));
    }
}

/// `n.to_string()` for an `i32`.
pub fn i32_to_string(n: i32) -> (r: String)
    ensures
        r@ == decimal(n as int),
{
    let mut r = String::new();
    if n < 0 {
        push_char(&mut r, '-');
        let m: i64 = n as i64;
        push_decimal(&mut r, (-m) as u64);
    } else {
        push_decimal(&mut r, n as u64);
    }
    r
}

// ---------------------------------------------------------------------------
// Checking a query
// ---------------------------------------------------------------------------

pub open spec fn is_known_env(env: Seq<char>) -> bool {
    env == "dev"@ || env == "stage"@ || env == "preprod"@
}

/// The outcome of checking a query: the search term (the endpoint trimmed),
/// or the message of the first check that fails.
pub open spec fn query_check(repo_root: Seq<char>, endpoint: Seq<char>, env: Seq<char>) -> Result<
    Seq<char>,
    Seq<char>,
> {
    if repo_root.len() == 0 {
        Err("repoRoot is required"@)
    } else if trim(endpoint).len() == 0 {
        Err("Search term (Lambda name or API endpoint) is required"@)
    } else if !is_known_env(env) {
        Err("Env must be one of: dev, stage, preprod"@)
    } else {
        Ok(trim(endpoint))
    }
}

/// Checks the arguments of a search and returns the search term.
pub fn check_query(repo_root: &str, endpoint: &str, env: &str) -> (r: Result<String, String>)
    ensures
        match r {
            Ok(n) => query_check(repo_root@, endpoint@, env@) == Ok::<Seq<char>, Seq<char>>(n@),
            Err(e) => query_check(repo_root@, endpoint@, env@) == Err::<Seq<char>, Seq<char>>(e@),
        },
{
    if repo_root.unicode_len() == 0 {
        return Err(String::from_str("repoRoot is required"));
    }
    let needle = trim_str(endpoint);
    if needle.unicode_len() == 0 {
        return Err(String::from_str("Search term (Lambda name or API endpoint) is required"));
    }
    if !(str_eq(env, "dev") || str_eq(env, "stage") || str_eq(env, "preprod")) {
        return Err(String::from_str("Env must be one of: dev, stage, preprod"));
    }
    Ok(needle)
}

/// `parts` joined with `sep` between consecutive parts.
pub open spec fn joined(parts: Seq<Seq<char>>, sep: Seq<char>) -> Seq<char>
    decreases parts.len(),
{
    if parts.len() == 0 {
        Seq::empty()
    } else if parts.len() == 1 {
        parts[0]
    } else {
        joined(parts.drop_last(), sep) + sep + parts.last()
    }
}

/// The folders of the known repositories that exist (`exists[i]` tells
/// whether the folder of repository `i` does), in table order.
pub open spec fn present_folders(exists: Seq<bool>) -> Seq<Seq<char>>
    decreases exists.len(),
{
    if exists.len() == 0 {
        Seq::empty()
    } else {
        let prev = present_folders(exists.drop_last());
        if exists.last() {
            prev.push(repo_table()[exists.len() - 1].folder@)
        } else {
            prev
        }
    }
}

/// The folders to search, or why there are none.
pub open spec fn folder_selection(repo_root: Seq<char>, root_exists: bool, exists: Seq<bool>) -> Result<
    Seq<Seq<char>>,
    Seq<char>,
> {
    if !root_exists {
        Err("Repo root does not exist: "@ + repo_root)
    } else if present_folders(exists).len() == 0 {
        Err(
            "None of the known repo folders exist in "@ + repo_root
                + ".\nExpected one or more of: "@ + joined(
                repo_table().map_values(|r: Repo| r.folder@),
                ", "@,
            ),
        )
    } else {
        Ok(present_folders(exists))
    }
}

/// Chooses the repository folders to search from what exists on disk:
/// `root_exists` for the repo root, `folder_exists[i]` for the folder of
/// the `i`-th known repository under it.
pub fn select_folders(repo_root: &str, root_exists: bool, folder_exists: &Vec<bool>) -> (r: Result<
    Vec<String>,
    String,
>)
    requires
        folder_exists@.len() == repo_table().len(),
    ensures
        match r {
            Ok(f) => folder_selection(repo_root@, root_exists, folder_exists@) == Ok::<
                Seq<Seq<char>>,
                Seq<char>,
            >(f.deep_view()),
            Err(e) => folder_selection(repo_root@, root_exists, folder_exists@) == Err::<
                Seq<Seq<char>>,
                Seq<char>,
            >(e@),
        },
{
    if !root_exists {
        let mut e = String::from_str("Repo root does not exist: ");
        e.append(repo_root);
        return Err(e);
    }
    let table = repos();
    let mut folders: Vec<String> = Vec::new();
    let mut known = String::new();
    let mut i: usize = 0;
    while i < table.len()
        invariant
            table@ == repo_table(),
            folder_exists@.len() == repo_table().len(),
            i <= table@.len(),
            folders.deep_view() == present_folders(folder_exists@.take(i as int)),
            known@ == joined(repo_table().map_values(|r: Repo| r.folder@).take(i as int), ", "@),
        decreases table.len() - i,
    {
        let ghost names = repo_table().map_values(|r: Repo| r.folder@);
        proof {
            assert(folder_exists@.take(i + 1).drop_last() =~= folder_exists@.take(i as int));
            assert(names.take(i + 1).drop_last() =~= names.take(i as int));
        }
        if folder_exists[i] {
            folders.push(String::from_str(table[i].folder));
            proof {
                assert(folders.deep_view() =~= present_folders(folder_exists@.take(i as int)).push(
                    repo_table()[i as int].folder@,
                ));
            }
        }
        if i > 0 {
            known.append(", ");
        }
        known.append(table[i].folder);
        i += 1;
    }
    proof {
        assert(folder_exists@.take(table@.len() as int) =~= folder_exists@);
        assert(repo_table().map_values(|r: Repo| r.folder@).take(table@.len() as int)
            =~= repo_table().map_values(|r: Repo| r.folder@));
    }
    if folders.len() == 0 {
        let mut e = String::from_str("None of the known repo folders exist in ");
        e.append(repo_root);
        e.append(".\nExpected one or more of: ");
        e.append(known.as_str());
        return Err(e);
    }
    Ok(folders)
}

// ---------------------------------------------------------------------------
// grep
// ---------------------------------------------------------------------------

/// The arguments of the `grep` run that lists the YAML templates mentioning
/// the term, case-insensitively, under the chosen folders.
pub open spec fn grep_argument_list(needle: Seq<char>, folders: Seq<Seq<char>>) -> Seq<Seq<char>> {
    seq!["-i"@, "-r"@, "-l"@, "--include=*.yml"@, "--include=*.yaml"@, needle] + Seq::new(
        folders.len(),
        |k: int| folders[k] + "/"@,
    )
}

pub fn grep_arguments(needle: &str, folders: &Vec<String>) -> (r: Vec<String>)
    ensures
        r.deep_view() == grep_argument_list(needle@, folders.deep_view()),
{
    let mut r: Vec<String> = Vec::new();
    r.push(String::from_str("-i"));
    r.push(String::from_str("-r"));
    r.push(String::from_str("-l"));
    r.push(String::from_str("--include=*.yml"));
    r.push(String::from_str("--include=*.yaml"));
    r.push(String::from_str(needle));
    let ghost head = r.deep_view();
    assert(head =~= seq!["-i"@, "-r"@, "-l"@, "--include=*.yml"@, "--include=*.yaml"@, needle@]);
    let mut i: usize = 0;
    while i < folders.len()
        invariant
            i <= folders@.len(),
            head == seq!["-i"@, "-r"@, "-l"@, "--include=*.yml"@, "--include=*.yaml"@, needle@],
            r.deep_view() == head + Seq::new(i as nat, |k: int| folders.deep_view()[k] + "/"@),
        decreases folders.len() - i,
    {
        let ghost old_r = r.deep_view();
        let mut a = folders[i].clone();
        a.append("/");
        assert(a@ == folders.deep_view()[i as int] + "/"@);
        r.push(a);
        assert(r.deep_view() =~= old_r.push(a@));
        proof {
            assert(r.deep_view() =~= head + Seq::new(
                (i + 1) as nat,
                |k: int| folders.deep_view()[k] + "/"@,
            ));
        }
        i += 1;
    }
    assert(r.deep_view() =~= grep_argument_list(needle@, folders.deep_view()));
    r
}

/// What `String::from_utf8_lossy` makes of some bytes: the UTF-8 text, with
/// each invalid sequence replaced by U+FFFD.
pub uninterp spec fn utf8_lossy(bytes: Seq<u8>) -> Seq<char>;

/// `String::from_utf8_lossy`.
#[verifier::external_body]
pub(crate) fn lossy_string(bytes: &[u8]) -> (r: String)
    ensures
        r@ == utf8_lossy(bytes@),
{
    String::from_utf8_lossy(bytes).into_owned()
}

/// The non-empty trimmed lines of `grep -l` output: the files it listed.
pub open spec fn listed_files(lines: Seq<Seq<char>>) -> Seq<Seq<char>>
    decreases lines.len(),
{
    if lines.len() == 0 {
        Seq::empty()
    } else {
        let prev = listed_files(lines.drop_last());
        if trim(lines.last()).len() > 0 {
            prev.push(trim(lines.last()))
        } else {
            prev
        }
    }
}

/// What a finished `grep` run means: exit codes 0 and 1 (no match) are fine,
/// anything above 1 is an error; a run killed by a signal has no code.
pub open spec fn grep_result(code: Option<i32>, stdout: Seq<u8>, stderr: Seq<u8>) -> Result<
    Seq<Seq<char>>,
    Seq<char>,
> {
    match code {
        Some(c) if c > 1 => Err(
            "grep failed (exit "@ + decimal(c as int) + "): "@ + utf8_lossy(stderr),
        ),
        _ => Ok(listed_files(split_on(utf8_lossy(stdout), '\n'))),
    }
}

/// Reads the output of the `grep` run: the files it listed, or the error.
pub fn grep_outcome(code: Option<i32>, stdout: &[u8], stderr: &[u8]) -> (r: Result<
    Vec<String>,
    String,
>)
    ensures
        match r {
            Ok(f) => grep_result(code, stdout@, stderr@) == Ok::<Seq<Seq<char>>, Seq<char>>(
                f.deep_view(),
            ),
            Err(e) => grep_result(code, stdout@, stderr@) == Err::<Seq<Seq<char>>, Seq<char>>(e@),
        },
{
    if let Some(c) = code {
        if c > 1 {
            let mut e = String::from_str("grep failed (exit ");
            let num = i32_to_string(c);
            e.append(num.as_str());
            e.append("): ");
            let err = lossy_string(stderr);
            e.append(err.as_str());
            return Err(e);
        }
    }
    let out = lossy_string(stdout);
    let lines = split_str(out.as_str(), '\n');
    let mut files: Vec<String> = Vec::new();
    let mut i: usize = 0;
    while i < lines.len()
        invariant
            i <= lines@.len(),
            files.deep_view() == listed_files(lines.deep_view().take(i as int)),
        decreases lines.len() - i,
    {
        proof {
            assert(lines.deep_view().take(i + 1).drop_last() =~= lines.deep_view().take(i as int));
        }
        let t = trim_str(lines[i].as_str());
        if t.unicode_len() > 0 {
            files.push(t);
            proof {
                assert(files.deep_view() =~= listed_files(lines.deep_view().take(i as int)).push(
                    trim(lines[i as int]@),
                ));
            }
        }
        i += 1;
    }
    assert(lines.deep_view().take(lines@.len() as int) =~= lines.deep_view());
    Ok(files)
}

// ---------------------------------------------------------------------------
// Matches
// ---------------------------------------------------------------------------

/// A Lambda function found for a search, with its console URLs.
#[derive(Debug, Clone)]
pub struct Match {
    pub repo: String,
    pub folder: String,
    pub file: String,
    pub function_name: String,
    pub explicit_function_name: Option<String>,
    pub lambda_name: String,
    pub log_group: String,
    pub api_paths: Vec<String>,
    pub lambda_url: String,
    pub logs_url: String,
}

pub struct MatchView {
    pub repo: Seq<char>,
    pub folder: Seq<char>,
    pub file: Seq<char>,
    pub function_name: Seq<char>,
    pub explicit_function_name: Option<Seq<char>>,
    pub lambda_name: Seq<char>,
    pub log_group: Seq<char>,
    pub api_paths: Seq<Seq<char>>,
    pub lambda_url: Seq<char>,
    pub logs_url: Seq<char>,
}

impl View for Match {
    type V = MatchView;

    open spec fn view(&self) -> MatchView {
        MatchView {
            repo: self.repo@,
            folder: self.folder@,
            file: self.file@,
            function_name: self.function_name@,
            explicit_function_name: self.explicit_function_name.deep_view(),
            lambda_name: self.lambda_name@,
            log_group: self.log_group@,
            api_paths: self.api_paths.deep_view(),
            lambda_url: self.lambda_url@,
            logs_url: self.logs_url@,
        }
    }
}

/// Everything a search found: the matches, the files skipped and why, and
/// the repository folders that were searched.
#[derive(Debug)]
pub struct FindResult {
    pub matches: Vec<Match>,
    pub warnings: Vec<String>,
    pub searched_folders: Vec<String>,
}

pub struct FindResultView {
    pub matches: Seq<MatchView>,
    pub warnings: Seq<Seq<char>>,
    pub searched_folders: Seq<Seq<char>>,
}

impl View for FindResult {
    type V = FindResultView;

    open spec fn view(&self) -> FindResultView {
        FindResultView {
            matches: self.matches@.map_values(|m: Match| m@),
            warnings: self.warnings.deep_view(),
            searched_folders: self.searched_folders.deep_view(),
        }
    }
}

/// What follows the last `/` of a path.
pub open spec fn last_segment(path: Seq<char>) -> Seq<char> {
    path.skip(path.len() - trail_run(path, not_char('/')))
}

/// A relative path that every platform's path rules read alike: no `\`
/// or `:` (no root, no drive), not starting with `/`, and a last
/// `/`-segment that is a normal component (not empty, `.` or `..`). `/`
/// separates components on every platform, and joining such a path to any
/// base extends the base by its components.
pub open spec fn plain_relative(path: Seq<char>) -> bool {
    &&& !path.contains('\\')
    &&& !path.contains(':')
    &&& !(path.len() > 0 && path[0] == '/')
    &&& last_segment(path).len() > 0
    &&& last_segment(path) != "."@
    &&& last_segment(path) != ".."@
}

/// `Path::new(base).join(path).file_name()`, as text. For a plain
/// relative `path` the file name is the last `/`-segment of `path`, whatever
/// the base; on other inputs it depends on the platform's path rules, and
/// nothing is stated.
#[verifier::external_body]
pub(crate) fn joined_file_name(base: &str, path: &str) -> (r: Option<String>)
    ensures
        plain_relative(path@) ==> r.deep_view() == Some(last_segment(path@)),
{
    match std::path::Path::new(base).join(path).file_name() {
        Some(name) => Some(name.to_string_lossy().into_owned()),
        None => None,
    }
}

/// The file name of the template `rel` under the repo root (empty when the
/// joined path has none), as the platform's path rules give it; for a
/// plain relative `rel`, its last `/`-segment.
pub fn template_file_name(repo_root: &str, rel: &str) -> (r: String)
    ensures
        plain_relative(rel@) ==> r@ == last_segment(rel@),
{
    match joined_file_name(repo_root, rel) {
        Some(name) => name,
        None => String::new(),
    }
}

/// The sub-stack prefix a template's file name contributes: none for flat
/// repositories and for the root template, else the part of the file name
/// before its first `-`, followed by `-`.
pub open spec fn sub_stack_of(flat_layout: bool, yml: Seq<char>) -> Seq<char> {
    if flat_layout || yml == "template.yml"@ || yml == "template.yaml"@ {
        Seq::empty()
    } else {
        yml.take(first_index_of(yml, '-') as int) + "-"@
    }
}

/// The deployed name of the function a template describes.
pub open spec fn real_function_name(
    ym: YamlMatchView,
    stack_prefix: Seq<char>,
    sub_stack: Seq<char>,
) -> Seq<char> {
    match ym.explicit_function_name {
        Some(t) => resolved_function_name(t, stack_prefix, sub_stack),
        None => stack_prefix + sub_stack + ym.lambda_function_name,
    }
}

/// The deployed log group of the function: the template's `LogGroupName`
/// with `envStackname` resolved, or the default Lambda log group.
pub open spec fn real_log_group(ym: YamlMatchView, stack_prefix: Seq<char>, real_name: Seq<char>) -> Seq<
    char,
> {
    match ym.log_group_name {
        Some(lg) => env_stackname_replaced(lg, stack_expansion(lg, stack_prefix)),
        None => "/aws/lambda/"@ + real_name,
    }
}

pub open spec fn match_view(
    repo: Repo,
    folder: Seq<char>,
    rel: Seq<char>,
    stack_prefix: Seq<char>,
    sub_stack: Seq<char>,
    ym: YamlMatchView,
) -> MatchView {
    let name = real_function_name(ym, stack_prefix, sub_stack);
    let log_group = real_log_group(ym, stack_prefix, name);
    MatchView {
        repo: repo.key@,
        folder: folder,
        file: rel,
        function_name: ym.lambda_function_name,
        explicit_function_name: ym.explicit_function_name,
        lambda_name: name,
        log_group: log_group,
        api_paths: ym.api_paths,
        lambda_url: lambda_base_text() + name + "?tab=code"@,
        logs_url: logs_base_text() + encoded_log_group(log_group),
    }
}

/// What one file listed by `grep` yields: a match, or the warning that says
/// why it was skipped. `yml` is the file's name, `content` its text (`None`
/// when it could not be read).
pub open spec fn file_result(
    needle: Seq<char>,
    env: Seq<char>,
    rel: Seq<char>,
    yml: Seq<char>,
    content: Option<Seq<char>>,
) -> Result<MatchView, Seq<char>> {
    let folder = top_level_folder_of(rel);
    match repo_for_folder(folder) {
        None => Err("Skipping "@ + rel + ": folder \""@ + folder + "\" not in repo map"@),
        Some(repo) => match repo.spec_prefix(env) {
            None => Err(
                "Env \""@ + env + "\" not configured for repo \""@ + repo.key@ + "\". Skipping "@
                    + rel + "."@,
            ),
            Some(prefix) => {
                let sub_stack = sub_stack_of(repo.flat_layout, yml);
                let found = match content {
                    Some(c) => template_match(c, needle),
                    None => None,
                };
                match found {
                    None => Err(
                        "No Path or Lambda resource containing \""@ + needle + "\" found in "@
                            + rel + "; skipping."@,
                    ),
                    Some(ym) => Ok(match_view(repo, folder, rel, prefix@, sub_stack, ym)),
                }
            },
        },
    }
}

fn sub_stack_for(repo: &Repo, yml: &str) -> (r: String)
    ensures
        r@ == sub_stack_of(repo.flat_layout, yml@),
{
    if repo.flat_layout || str_eq(yml, "template.yml") || str_eq(yml, "template.yaml") {
        return String::new();
    }
    let v = chars_of(yml);
    let k = first_index_of_char(&v, '-');
    let head = sub_chars(&v, 0, k);
    let mut r = string_of(head.as_slice());
    r.append("-");
    r
}

fn build_match(
    repo: &Repo,
    folder: &str,
    rel: &str,
    stack_prefix: &str,
    sub_stack: &str,
    ym: YamlMatch,
) -> (r: Match)
    ensures
        r@ == match_view(*repo, folder@, rel@, stack_prefix@, sub_stack@, ym@),
{
    let ghost y = ym@;
    let name = match &ym.explicit_function_name {
        Some(t) => resolve_explicit_function_name(t.as_str(), stack_prefix, sub_stack),
        None => {
            let mut n = String::from_str(stack_prefix);
            n.append(sub_stack);
            n.append(ym.lambda_function_name.as_str());
            n
        },
    };
    let log_group = match &ym.log_group_name {
        Some(lg) => regex_replace(r"envStackname-?", lg.as_str(), stack_prefix),
        None => {
            let mut g = String::from_str("/aws/lambda/");
            g.append(name.as_str());
            g
        },
    };
    let mut lambda_url = lambda_base();
    lambda_url.append(name.as_str());
    lambda_url.append("?tab=code");
    let mut logs_url = logs_base();
    let encoded = encode_log_group(log_group.as_str());
    logs_url.append(encoded.as_str());
    Match {
        repo: String::from_str(repo.key),
        folder: String::from_str(folder),
        file: String::from_str(rel),
        function_name: ym.lambda_function_name,
        explicit_function_name: ym.explicit_function_name,
        lambda_name: name,
        log_group: log_group,
        api_paths: ym.api_paths,
        lambda_url: lambda_url,
        logs_url: logs_url,
    }
}

/// Examines one file listed by `grep` (see `file_result`).
pub fn examine_file(
    map: &Vec<(&'static str, Repo)>,
    needle: &str,
    env: &str,
    rel: &str,
    yml: &str,
    content: &Option<String>,
) -> (r: Result<Match, String>)
    requires
        map@.len() == repo_table().len(),
        forall|i: int| 0 <= i < map@.len() ==> #[trigger] map@[i] == (repo_table()[i].folder, repo_table()[i]),
    ensures
        match r {
            Ok(m) => file_result(needle@, env@, rel@, yml@, content.deep_view()) == Ok::<
                MatchView,
                Seq<char>,
            >(m@),
            Err(w) => file_result(needle@, env@, rel@, yml@, content.deep_view()) == Err::<
                MatchView,
                Seq<char>,
            >(w@),
        },
{
    let folder = top_level_folder(rel);
    let repo = match lookup_folder(map, folder) {
        Some(r) => r,
        None => {
            let mut w = String::from_str("Skipping ");
            w.append(rel);
            w.append(": folder \"");
            w.append(folder);
            w.append("\" not in repo map");
            return Err(w);
        },
    };
    let stack_prefix = match repo.prefix(env) {
        Some(p) => p,
        None => {
            let mut w = String::from_str("Env \"");
            w.append(env);
            w.append("\" not configured for repo \"");
            w.append(repo.key);
            w.append("\". Skipping ");
            w.append(rel);
            w.append(".");
            return Err(w);
        },
    };
    let sub_stack = sub_stack_for(&repo, yml);
    let found = match content {
        Some(c) => search_yaml(c.as_str(), needle),
        None => None,
    };
    match found {
        Some(ym) => Ok(build_match(&repo, folder, rel, stack_prefix, sub_stack.as_str(), ym)),
        None => {
            let mut w = String::from_str("No Path or Lambda resource containing \"");
            w.append(needle);
            w.append("\" found in ");
            w.append(rel);
            w.append("; skipping.");
            Err(w)
        },
    }
}

/// The matches among some file outcomes, in order.
pub open spec fn matches_of(outcomes: Seq<Result<MatchView, Seq<char>>>) -> Seq<MatchView>
    decreases outcomes.len(),
{
    if outcomes.len() == 0 {
        Seq::empty()
    } else {
        let prev = matches_of(outcomes.drop_last());
        match outcomes.last() {
            Ok(m) => prev.push(m),
            Err(_) => prev,
        }
    }
}

/// The warnings among some file outcomes, in order.
pub open spec fn warnings_of(outcomes: Seq<Result<MatchView, Seq<char>>>) -> Seq<Seq<char>>
    decreases outcomes.len(),
{
    if outcomes.len() == 0 {
        Seq::empty()
    } else {
        let prev = warnings_of(outcomes.drop_last());
        match outcomes.last() {
            Ok(_) => prev,
            Err(w) => prev.push(w),
        }
    }
}

pub open spec fn file_outcomes(
    needle: Seq<char>,
    env: Seq<char>,
    files: Seq<Seq<char>>,
    names: Seq<Seq<char>>,
    contents: Seq<Option<Seq<char>>>,
) -> Seq<Result<MatchView, Seq<char>>> {
    Seq::new(files.len(), |i: int| file_result(needle, env, files[i], names[i], contents[i]))
}

/// The result of a search, given the folders searched, the files `grep`
/// listed, their names and their contents (`names[i]` and `contents[i]`
/// for `files[i]`).
pub open spec fn search_result(
    needle: Seq<char>,
    env: Seq<char>,
    folders: Seq<Seq<char>>,
    files: Seq<Seq<char>>,
    names: Seq<Seq<char>>,
    contents: Seq<Option<Seq<char>>>,
) -> FindResultView {
    if files.len() == 0 {
        FindResultView {
            matches: Seq::empty(),
            warnings: seq!["No yml files contain \""@ + needle + "\" in any known repo."@],
            searched_folders: folders,
        }
    } else {
        let outcomes = file_outcomes(needle, env, files, names, contents);
        FindResultView {
            matches: matches_of(outcomes),
            warnings: warnings_of(outcomes),
            searched_folders: folders,
        }
    }
}

/// Builds the result of a search from the files `grep` listed, their names
/// and what reading each of them gave.
pub fn collect_named_matches(
    needle: &str,
    env: &str,
    folders: &Vec<String>,
    files: &Vec<String>,
    names: &Vec<String>,
    contents: &Vec<Option<String>>,
) -> (r: FindResult)
    requires
        contents@.len() == files@.len(),
        names@.len() == files@.len(),
    ensures
        r@ == search_result(
            needle@,
            env@,
            folders.deep_view(),
            files.deep_view(),
            names.deep_view(),
            contents.deep_view(),
        ),
{
    let searched = copy_strings(folders);
    let mut matches: Vec<Match> = Vec::new();
    let mut warnings: Vec<String> = Vec::new();
    if files.len() == 0 {
        let mut w = String::from_str("No yml files contain \"");
        w.append(needle);
        w.append("\" in any known repo.");
        warnings.push(w);
        let r = FindResult { matches, warnings, searched_folders: searched };
        assert(r@.matches =~= Seq::<MatchView>::empty());
        assert(r@.warnings =~= seq!["No yml files contain \""@ + needle@ + "\" in any known repo."@]);
        return r;
    }
    let map = folder_to_repo();
    let ghost outcomes = file_outcomes(
        needle@,
        env@,
        files.deep_view(),
        names.deep_view(),
        contents.deep_view(),
    );
    let mut i: usize = 0;
    while i < files.len()
        invariant
            i <= files@.len() == contents@.len(),
            names@.len() == files@.len(),
            map@.len() == repo_table().len(),
            forall|j: int| 0 <= j < map@.len() ==> #[trigger] map@[j] == (repo_table()[j].folder, repo_table()[j]),
            outcomes == file_outcomes(needle@, env@, files.deep_view(), names.deep_view(), contents.deep_view()),
            matches@.map_values(|m: Match| m@) == matches_of(outcomes.take(i as int)),
            warnings.deep_view() == warnings_of(outcomes.take(i as int)),
        decreases files.len() - i,
    {
        proof {
            assert(outcomes.take(i + 1).drop_last() =~= outcomes.take(i as int));
            assert(outcomes.take(i + 1).last() == outcomes[i as int]);
            assert(contents.deep_view()[i as int] == contents[i as int].deep_view());
            assert(names.deep_view()[i as int] == names[i as int]@);
        }
        match examine_file(&map, needle, env, files[i].as_str(), names[i].as_str(), &contents[i]) {
            Ok(m) => {
                let ghost before = matches@.map_values(|m: Match| m@);
                matches.push(m);
                proof {
                    assert(matches@.map_values(|m: Match| m@) =~= before.push(m@));
                }
            },
            Err(w) => {
                let ghost before = warnings.deep_view();
                warnings.push(w);
                proof {
                    assert(warnings.deep_view() =~= before.push(w@));
                }
            },
        }
        i += 1;
    }
    assert(outcomes.take(files@.len() as int) =~= outcomes);
    FindResult { matches, warnings, searched_folders: searched }
}

/// The names of the templates `files` under the repo root, one for each
/// file (see `template_file_name`).
pub fn template_file_names(repo_root: &str, files: &Vec<String>) -> (r: Vec<String>)
    ensures
        r@.len() == files@.len(),
        forall|i: int|
            0 <= i < files@.len() && plain_relative(files.deep_view()[i]) ==> (
            #[trigger] r.deep_view()[i]) == last_segment(files.deep_view()[i]),
{
    let mut names: Vec<String> = Vec::new();
    let mut i: usize = 0;
    while i < files.len()
        invariant
            i <= files@.len(),
            names@.len() == i,
            forall|k: int|
                0 <= k < i && plain_relative(files.deep_view()[k]) ==> (
                #[trigger] names.deep_view()[k]) == last_segment(files.deep_view()[k]),
        decreases files.len() - i,
    {
        let ghost before = names.deep_view();
        let name = template_file_name(repo_root, files[i].as_str());
        names.push(name);
        proof {
            assert(names.deep_view() =~= before.push(name@));
            assert(files.deep_view()[i as int] == files[i as int]@);
        }
        i += 1;
    }
    names
}

// ---------------------------------------------------------------------------
// Laws
// ---------------------------------------------------------------------------

/// Every file `grep` listed is accounted for: it yields either a match or a
/// warning, never both and never neither.
pub proof fn lemma_every_file_accounted(outcomes: Seq<Result<MatchView, Seq<char>>>)
    ensures
        matches_of(outcomes).len() + warnings_of(outcomes).len() == outcomes.len(),
    decreases outcomes.len(),
{
    if outcomes.len() > 0 {
        lemma_every_file_accounted(outcomes.drop_last());
    }
}

/// An encoded log group name holds no `/`, so it is one URL path segment.
pub proof fn lemma_encoded_log_group_has_no_slash(s: Seq<char>)
    ensures
        !encoded_log_group(s).contains('/'),
    decreases s.len(),
{
    if s.len() > 0 {
        lemma_encoded_log_group_has_no_slash(s.drop_last());
        let prev = encoded_log_group(s.drop_last());
        let tail = if s.last() == '/' {
            "$252F"@
        } else {
            seq![s.last()]
        };
        reveal_strlit("$252F");
        assert forall|k: int| 0 <= k < encoded_log_group(s).len() implies encoded_log_group(s)[k]
            != '/' by {
            if k < prev.len() {
                assert(encoded_log_group(s)[k] == prev[k]);
            } else {
                assert(encoded_log_group(s)[k] == tail[k - prev.len()]);
            }
        }
    }
}

/// The stack name prefix that applies to the file `rel` in environment
/// `env`: that of the repository owning the file's top-level folder.
pub open spec fn file_stack_prefix(env: Seq<char>, rel: Seq<char>) -> Seq<char> {
    repo_for_folder(top_level_folder_of(rel))->0.spec_prefix(env)->0@
}

/// The parts of a deployed Lambda name. For the root template
/// (`template.yml` or `template.yaml`) and for every file of a flat
/// repository there is no sub-stack part: a resource without
/// `FunctionName:` is deployed as the stack prefix followed by its logical
/// ID, and a `FunctionName:` template is resolved with an empty sub-stack.
/// In any other file the sub-stack part is the file name up to its first
/// `-` (the whole name when it has none), followed by `-`.
pub proof fn lemma_lambda_name_parts(
    needle: Seq<char>,
    env: Seq<char>,
    rel: Seq<char>,
    yml: Seq<char>,
    content: Option<Seq<char>>,
)
    requires
        file_result(needle, env, rel, yml, content) is Ok,
    ensures
        ({
            let m = file_result(needle, env, rel, yml, content)->Ok_0;
            let flat = repo_for_folder(top_level_folder_of(rel))->0.flat_layout;
            let prefix = file_stack_prefix(env, rel);
            &&& ((flat || yml == "template.yml"@ || yml == "template.yaml"@) ==> {
                &&& (m.explicit_function_name is None ==> m.lambda_name == prefix
                    + m.function_name)
                &&& (m.explicit_function_name matches Some(t) ==> m.lambda_name
                    == resolved_function_name(t, prefix, Seq::empty()))
            })
            &&& ((!flat && yml != "template.yml"@ && yml != "template.yaml"@
                && m.explicit_function_name is None) ==> exists|k: int|
                0 <= k <= yml.len() && !yml.take(k).contains('-') && (k == yml.len() || yml[k]
                    == '-') && m.lambda_name == prefix + yml.take(k) + "-"@ + m.function_name)
        }),
{
    let m = file_result(needle, env, rel, yml, content)->Ok_0;
    let folder = top_level_folder_of(rel);
    let repo = repo_for_folder(folder)->0;
    let prefix = repo.spec_prefix(env)->0@;
    let flat = repo.flat_layout;
    let sub = sub_stack_of(flat, yml);
    let ym = template_match(content->0, needle)->0;
    assert(m == match_view(repo, folder, rel, prefix, sub, ym));
    assert(m.lambda_name == real_function_name(ym, prefix, sub));
    assert(m.function_name == ym.lambda_function_name);
    assert(m.explicit_function_name == ym.explicit_function_name);
    if !flat && yml != "template.yml"@ && yml != "template.yaml"@ {
        let k = first_index_of(yml, '-') as int;
        crate::text::lemma_lead_run(yml, not_char('-'));
        assert forall|c: char| yml.take(k).contains(c) implies c != '-' by {
            let j = choose|j: int| 0 <= j < yml.take(k).len() && yml.take(k)[j] == c;
            assert(not_char('-')(yml[j]));
        }
        assert(sub == yml.take(k) + "-"@);
        if k < yml.len() {
            assert(!not_char('-')(yml[k]));
        }
        if m.explicit_function_name is None {
            assert(m.lambda_name == prefix + yml.take(k) + "-"@ + m.function_name);
            assert(0 <= k <= yml.len() && !yml.take(k).contains('-') && (k == yml.len() || yml[k]
                == '-') && m.lambda_name == prefix + yml.take(k) + "-"@ + m.function_name);
        }
    } else {
        assert(sub == Seq::<char>::empty());
        assert(prefix + sub =~= prefix);
        if m.explicit_function_name is None {
            assert(m.lambda_name == prefix + sub + m.function_name);
            assert(m.lambda_name == prefix + m.function_name);
        } else {
            assert(m.lambda_name == resolved_function_name(m.explicit_function_name->0, prefix, sub));
        }
    }
}

/// A log group named in the template wins. When the template gives a
/// `LogGroupName:` for the function's log group resource, the reported log
/// group is that name with its `envStackname` placeholder replaced by the
/// stack prefix (the name itself when it has no placeholder), not the
/// default `/aws/lambda/<deployed name>`, which is used only when the
/// template names none. The Logs console URL points at the reported group.
pub proof fn lemma_log_group_choice(
    needle: Seq<char>,
    env: Seq<char>,
    rel: Seq<char>,
    yml: Seq<char>,
    content: Seq<char>,
)
    requires
        file_result(needle, env, rel, yml, Some(content)) is Ok,
    ensures
        ({
            let m = file_result(needle, env, rel, yml, Some(content))->Ok_0;
            let ym = template_match(content, needle)->0;
            let prefix = file_stack_prefix(env, rel);
            &&& m.logs_url == logs_base_text() + encoded_log_group(m.log_group)
            &&& (ym.log_group_name matches Some(lg) ==> {
                &&& m.log_group == env_stackname_replaced(lg, stack_expansion(lg, prefix))
                &&& (!prefix.contains('$') ==> m.log_group == env_stackname_replaced(lg, prefix))
                &&& (!has_env_stackname(lg) ==> m.log_group == lg)
            })
            &&& (ym.log_group_name is None ==> m.log_group == "/aws/lambda/"@ + m.lambda_name)
        }),
{
}

/// How many times `c` occurs in `s`.
pub open spec fn char_count(s: Seq<char>, c: char) -> nat
    decreases s.len(),
{
    if s.len() == 0 {
        0
    } else {
        char_count(s.drop_last(), c) + if s.last() == c {
            1nat
        } else {
            0nat
        }
    }
}

/// An encoded log group name is four characters longer than the name for
/// each `/` in it: every `/` becomes the five characters `$252F`, and every
/// other character stays as it is.
pub proof fn lemma_encoded_log_group_len(s: Seq<char>)
    ensures
        encoded_log_group(s).len() == s.len() + 4 * char_count(s, '/'),
    decreases s.len(),
{
    reveal_strlit("$252F");
    if s.len() > 0 {
        lemma_encoded_log_group_len(s.drop_last());
    }
}

/// The encoding of one character of a log group name.
pub open spec fn encoded_char(c: char) -> Seq<char> {
    if c == '/' {
        "$252F"@
    } else {
        seq![c]
    }
}

/// `t.replace("$252F", "/")`: each occurrence, from left to right, turned
/// back into `/`.
pub open spec fn decoded_log_group(t: Seq<char>) -> Seq<char>
    decreases t.len(),
{
    if t.len() == 0 {
        Seq::empty()
    } else if t.len() >= 5 && t.take(5) == "$252F"@ {
        seq!['/'] + decoded_log_group(t.skip(5))
    } else {
        seq![t[0]] + decoded_log_group(t.skip(1))
    }
}

proof fn lemma_encoded_concat(a: Seq<char>, b: Seq<char>)
    ensures
        encoded_log_group(a + b) == encoded_log_group(a) + encoded_log_group(b),
    decreases b.len(),
{
    if b.len() == 0 {
        assert(a + b =~= a);
        assert(encoded_log_group(a) + encoded_log_group(b) =~= encoded_log_group(a));
    } else {
        lemma_encoded_concat(a, b.drop_last());
        assert((a + b).drop_last() =~= a + b.drop_last());
        assert((a + b).last() == b.last());
        let tail = encoded_char(b.last());
        assert(encoded_log_group(a + b) == encoded_log_group(a + b.drop_last()) + tail);
        assert(encoded_log_group(b) == encoded_log_group(b.drop_last()) + tail);
        assert(encoded_log_group(a) + encoded_log_group(b.drop_last()) + tail =~= encoded_log_group(a)
            + (encoded_log_group(b.drop_last()) + tail));
    }
}

proof fn lemma_encoded_front(s: Seq<char>)
    requires
        s.len() > 0,
    ensures
        encoded_log_group(s) == encoded_char(s[0]) + encoded_log_group(s.skip(1)),
{
    let a = s.take(1);
    assert(s =~= a + s.skip(1));
    lemma_encoded_concat(a, s.skip(1));
    assert(a.drop_last() =~= Seq::<char>::empty());
    assert(encoded_log_group(a) =~= encoded_log_group(a.drop_last()) + encoded_char(a.last()));
    assert(encoded_log_group(a) =~= encoded_char(s[0]));
}

/// Where the encoding of `s` starts with a text that holds no `$`, so does
/// `s`: no part of such a text can come from an encoded `/`.
proof fn lemma_encoded_prefix(s: Seq<char>, w: Seq<char>)
    requires
        !w.contains('$'),
        starts_with(encoded_log_group(s), w),
    ensures
        starts_with(s, w),
    decreases w.len(),
{
    reveal_strlit("$252F");
    if w.len() > 0 {
        if s.len() == 0 {
            assert(encoded_log_group(s).len() == 0);
        }
        lemma_encoded_front(s);
        let e = encoded_log_group(s);
        assert(e[0] == w[0]);
        if s[0] == '/' {
            assert(e[0] == '$');
            assert(w.contains(w[0]));
        }
        assert(e[0] == s[0]);
        let rest = encoded_log_group(s.skip(1));
        assert(e == seq![s[0]] + rest);
        assert forall|c: char| w.skip(1).contains(c) implies c != '$' by {
            let k = choose|k: int| 0 <= k < w.skip(1).len() && w.skip(1)[k] == c;
            assert(w[k + 1] == c);
        }
        assert(rest.take(w.len() - 1) =~= e.take(w.len() as int).skip(1));
        assert(w.skip(1).len() == w.len() - 1);
        lemma_encoded_prefix(s.skip(1), w.skip(1));
        assert(s.take(w.len() as int) =~= seq![s[0]] + s.skip(1).take(w.len() - 1));
        assert(w =~= seq![w[0]] + w.skip(1));
        assert(s.skip(1).take(w.len() - 1) == w.skip(1));
        assert(s.take(w.len() as int) == w);
    } else {
        assert(s.take(0) =~= w);
    }
}

/// Turning each `$252F` of an encoded log group name back into `/` gives
/// the name back, as long as the name itself holds no `$252F`.
pub proof fn lemma_log_group_round_trip(s: Seq<char>)
    requires
        !contains_sub(s, "$252F"@),
    ensures
        decoded_log_group(encoded_log_group(s)) == s,
    decreases s.len(),
{
    reveal_strlit("$252F");
    let w = "$252F"@;
    if s.len() == 0 {
        assert(encoded_log_group(s).len() == 0);
    } else {
        let s1 = s.skip(1);
        assert forall|i: int| !occurs_at(s1, w, i) by {
            if occurs_at(s1, w, i) {
                assert(s.subrange(i + 1, i + 1 + w.len()) =~= s1.subrange(i, i + w.len()));
                assert(occurs_at(s, w, i + 1));
            }
        }
        lemma_log_group_round_trip(s1);
        lemma_encoded_front(s);
        let e = encoded_log_group(s);
        let rest = encoded_log_group(s1);
        if s[0] == '/' {
            assert(e == w + rest);
            assert(e.take(5) =~= w);
            assert(e.skip(5) =~= rest);
            assert(decoded_log_group(e) == seq!['/'] + s1);
        } else {
            assert(e == seq![s[0]] + rest);
            if e.len() >= 5 && e.take(5) == w {
                let tail = w.skip(1);
                assert(!tail.contains('$')) by {
                    assert forall|k: int| 0 <= k < tail.len() implies tail[k] != '$' by {
                        assert(tail[k] == w[k + 1]);
                    }
                }
                assert(rest.take(4) =~= e.take(5).skip(1));
                lemma_encoded_prefix(s1, tail);
                assert(s.subrange(0, 5) =~= seq![s[0]] + s1.take(4));
                assert(s[0] == e[0]);
                assert(e[0] == e.take(5)[0]);
                assert(s1.take(4) == tail);
                assert(w =~= seq![w[0]] + tail);
                assert(s.subrange(0, 5) == w);
                assert(occurs_at(s, w, 0));
            }
            assert(e.skip(1) =~= rest);
            assert(decoded_log_group(e) == seq![s[0]] + s1);
        }
        assert(s =~= seq![s[0]] + s1);
    }
}

/// The top-level folder of a path is a single path component.
pub proof fn lemma_top_level_folder_is_component(rel: Seq<char>)
    ensures
        !top_level_folder_of(rel).contains('/'),
{
    let cleaned = if starts_with(rel, "./"@) {
        rel.skip("./"@.len() as int)
    } else {
        rel
    };
    crate::text::lemma_lead_run(cleaned, crate::text::not_char('/'));
    let f = top_level_folder_of(rel);
    assert forall|k: int| 0 <= k < f.len() implies f[k] != '/' by {
        assert(f[k] == cleaned[k]);
        assert(crate::text::not_char('/')(cleaned[k]));
    }
}

/// A file listed under a known repository's folder is attributed to that
/// repository.
pub proof fn lemma_known_folder_maps_to_repo(i: int, rest: Seq<char>)
    requires
        0 <= i < repo_table().len(),
    ensures
        repo_for_folder(top_level_folder_of(repo_table()[i].folder@ + "/"@ + rest)) == Some(
            repo_table()[i],
        ),
{
    reveal_strlit("./");
    reveal_strlit("/");
    reveal_strlit("service-requests-backend");
    reveal_strlit("utec-microservices");
    reveal_strlit("polaris-backend");
    reveal_strlit("bpd-qrc-backend");
    reveal_strlit("service-sr-tracker");
    reveal_strlit("service-user-onboarding");
    reveal_strlit("backend-lambdas");
    let f = repo_table()[i].folder@;
    let path = f + "/"@ + rest;
    assert(f[0] != '.');
    assert(path[0] == f[0]);
    assert("./"@[0] == '.');
    if starts_with(path, "./"@) {
        assert(path.take(2)[0] == path[0]);
    }
    assert(!starts_with(path, "./"@));
    assert(forall|k: int| 0 <= k < f.len() ==> f[k] != '/');
    assert(path[f.len() as int] == '/');
    assert forall|k: int| 0 <= k < f.len() implies crate::text::not_char('/')(#[trigger] path[k]) by {
        assert(path[k] == f[k]);
    }
    crate::text::lemma_lead_run_unique(path, crate::text::not_char('/'), f.len() as int);
    assert(top_level_folder_of(path) =~= f);
    crate::repos::lemma_folders_distinct();
    assert(repo_table()[i].folder@ == f);
    let c = choose|c: int| 0 <= c < repo_table().len() && (#[trigger] repo_table()[c]).folder@ == f;
    assert(c == i);
}

/// Once a query passes its checks, every repository has a stack prefix for
/// its environment, so no file is skipped for an unconfigured environment.
pub proof fn lemma_checked_env_has_prefix(repo_root: Seq<char>, endpoint: Seq<char>, env: Seq<char>, repo: Repo)
    requires
        query_check(repo_root, endpoint, env) is Ok,
    ensures
        repo.spec_prefix(env) is Some,
{
}

proof fn lemma_present_folder_at(found: Seq<bool>, i: int)
    requires
        0 <= i < present_folders(found).len(),
    ensures
        exists|j: int|
            0 <= j < found.len() && found[j] && present_folders(found)[i] == #[trigger] repo_table()[j].folder@,
    decreases found.len(),
{
    let e0 = found.drop_last();
    let n = found.len() - 1;
    if i < present_folders(e0).len() {
        lemma_present_folder_at(e0, i);
        let j = choose|j: int| 0 <= j < e0.len() && e0[j] && present_folders(e0)[i] == #[trigger] repo_table()[j].folder@;
        assert(found[j] == e0[j]);
        assert(present_folders(found)[i] == repo_table()[j].folder@);
    } else {
        assert(found[n]);
        assert(present_folders(found)[i] == repo_table()[n].folder@);
    }
}

/// The folders reported as searched are known repository folders, each at
/// most once, and a folder is among them exactly when it was reported to
/// exist.
pub proof fn lemma_present_folders(found: Seq<bool>)
    requires
        found.len() <= repo_table().len(),
    ensures
        forall|i: int| #![trigger present_folders(found)[i]]
            0 <= i < present_folders(found).len() ==> exists|j: int| #![trigger repo_table()[j]]
                0 <= j < found.len() && found[j] && present_folders(found)[i]
                    == repo_table()[j].folder@,
        forall|j: int|
            0 <= j < found.len() && found[j] ==> present_folders(found).contains(
                #[trigger] repo_table()[j].folder@,
            ),
        forall|i: int, k: int|
            0 <= i < k < present_folders(found).len() ==> #[trigger] present_folders(found)[i]
                != #[trigger] present_folders(found)[k],
    decreases found.len(),
{
    assert forall|i: int| #![trigger present_folders(found)[i]]
        0 <= i < present_folders(found).len() implies exists|j: int| #![trigger repo_table()[j]]
            0 <= j < found.len() && found[j] && present_folders(found)[i]
                == repo_table()[j].folder@ by {
        lemma_present_folder_at(found, i);
    }
    if found.len() > 0 {
        let e0 = found.drop_last();
        lemma_present_folders(e0);
        crate::repos::lemma_folders_distinct();
        let prev = present_folders(e0);
        let cur = present_folders(found);
        let n = found.len() - 1;
        assert forall|j: int| 0 <= j < found.len() && found[j] implies cur.contains(
            #[trigger] repo_table()[j].folder@,
        ) by {
            if j < n {
                assert(e0[j] == found[j]);
                assert(prev.contains(repo_table()[j].folder@));
                let i = choose|i: int| 0 <= i < prev.len() && prev[i] == repo_table()[j].folder@;
                assert(cur[i] == prev[i]);
            } else {
                assert(cur[cur.len() - 1] == repo_table()[n].folder@);
            }
        }
        assert forall|i: int, k: int| 0 <= i < k < cur.len() implies #[trigger] cur[i]
            != #[trigger] cur[k] by {
            if k < prev.len() {
                assert(cur[i] == prev[i] && cur[k] == prev[k]);
            } else {
                assert(cur[i] == prev[i]);
                let j = choose|j: int| 0 <= j < e0.len() && e0[j] && prev[i] == repo_table()[j].folder@;
                assert(cur[k] == repo_table()[n].folder@);
                assert(j != n);
            }
        }
    } else {
        assert(present_folders(found).len() == 0);
    }
}

} // verus!
