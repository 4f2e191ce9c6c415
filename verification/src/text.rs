//! Character-level text model shared by the template scanner and the
//! search pipeline: whitespace, trimming, splitting and substring search,
//! each given as a spec function over `Seq<char>` with a verified executable
//! counterpart.
use vstd::prelude::*;

verus! {

/// Unicode `White_Space`, the set that `str::trim`, `char::is_whitespace`
/// and the regex class `\s` all use.
pub open spec fn is_ws(c: char) -> bool {
    ||| ('\t' <= c && c <= '\r')
    ||| c == ' '
    ||| c == '\u{85}'
    ||| c == '\u{a0}'
    ||| c == '\u{1680}'
    ||| ('\u{2000}' <= c && c <= '\u{200a}')
    ||| c == '\u{2028}'
    ||| c == '\u{2029}'
    ||| c == '\u{202f}'
    ||| c == '\u{205f}'
    ||| c == '\u{3000}'
}

pub open spec fn ws() -> spec_fn(char) -> bool {
    |c: char| is_ws(c)
}

pub open spec fn non_ws() -> spec_fn(char) -> bool {
    |c: char| !is_ws(c)
}

pub open spec fn is_char(x: char) -> spec_fn(char) -> bool {
    |c: char| c == x
}

/// Length of the longest prefix of `s` whose characters all satisfy `p`.
pub open spec fn lead_run(s: Seq<char>, p: spec_fn(char) -> bool) -> nat
    decreases s.len(),
{
    if s.len() > 0 && p(s[0]) {
        1 + lead_run(s.drop_first(), p)
    } else {
        0
    }
}

/// Length of the longest suffix of `s` whose characters all satisfy `p`.
pub open spec fn trail_run(s: Seq<char>, p: spec_fn(char) -> bool) -> nat
    decreases s.len(),
{
    if s.len() > 0 && p(s.last()) {
        1 + trail_run(s.drop_last(), p)
    } else {
        0
    }
}

pub open spec fn trim_start(s: Seq<char>) -> Seq<char> {
    s.skip(lead_run(s, ws()) as int)
}

pub open spec fn trim_end(s: Seq<char>) -> Seq<char> {
    s.take(s.len() - trail_run(s, ws()))
}

/// `str::trim`: leading and trailing whitespace removed.
pub open spec fn trim(s: Seq<char>) -> Seq<char> {
    trim_end(trim_start(s))
}

/// `str::trim_end_matches(c)` for a single character `c`.
pub open spec fn trim_end_char(s: Seq<char>, c: char) -> Seq<char> {
    s.take(s.len() - trail_run(s, is_char(c)))
}

pub open spec fn starts_with(s: Seq<char>, p: Seq<char>) -> bool {
    p.len() <= s.len() && s.take(p.len() as int) == p
}

pub open spec fn occurs_at(s: Seq<char>, w: Seq<char>, i: int) -> bool {
    0 <= i && i + w.len() <= s.len() && s.subrange(i, i + w.len()) == w
}

/// `str::contains` with a string pattern.
pub open spec fn contains_sub(s: Seq<char>, w: Seq<char>) -> bool {
    exists|i: int| occurs_at(s, w, i)
}

pub open spec fn not_char(c: char) -> spec_fn(char) -> bool {
    |x: char| x != c
}

/// Index of the first occurrence of `c` in `s`, or `s.len()` when there is none.
pub open spec fn first_index_of(s: Seq<char>, c: char) -> nat {
    lead_run(s, not_char(c))
}

/// `s.split(c)`, as `str::split` with a `char` pattern yields it: one piece
/// more than there are occurrences of `c`.
pub open spec fn split_on(s: Seq<char>, c: char) -> Seq<Seq<char>>
    decreases s.len(),
{
    if s.len() == 0 {
        seq![Seq::<char>::empty()]
    } else {
        let prev = split_on(s.drop_last(), c);
        if s.last() == c {
            prev.push(Seq::<char>::empty())
        } else {
            prev.update(prev.len() - 1, prev.last().push(s.last()))
        }
    }
}

// ---------------------------------------------------------------------------
// Lemmas
// ---------------------------------------------------------------------------

pub proof fn lemma_lead_run(s: Seq<char>, p: spec_fn(char) -> bool)
    ensures
        lead_run(s, p) <= s.len(),
        forall|i: int| 0 <= i < lead_run(s, p) ==> p(#[trigger] s[i]),
        lead_run(s, p) < s.len() ==> !p(s[lead_run(s, p) as int]),
    decreases s.len(),
{
    if s.len() > 0 && p(s[0]) {
        lemma_lead_run(s.drop_first(), p);
        assert forall|i: int| 0 <= i < lead_run(s, p) implies p(#[trigger] s[i]) by {
            if i > 0 {
                assert(s[i] == s.drop_first()[i - 1]);
            }
        }
    }
}

pub proof fn lemma_lead_run_unique(s: Seq<char>, p: spec_fn(char) -> bool, k: int)
    requires
        0 <= k <= s.len(),
        forall|i: int| 0 <= i < k ==> p(#[trigger] s[i]),
        k < s.len() ==> !p(s[k]),
    ensures
        lead_run(s, p) == k,
    decreases s.len(),
{
    if k > 0 {
        assert(p(s[0]));
        assert forall|i: int| 0 <= i < k - 1 implies p(#[trigger] s.drop_first()[i]) by {
            assert(s.drop_first()[i] == s[i + 1]);
        }
        lemma_lead_run_unique(s.drop_first(), p, k - 1);
    }
}

pub proof fn lemma_trail_run(s: Seq<char>, p: spec_fn(char) -> bool)
    ensures
        trail_run(s, p) <= s.len(),
        forall|i: int| s.len() - trail_run(s, p) <= i < s.len() ==> p(#[trigger] s[i]),
        trail_run(s, p) < s.len() ==> !p(s[s.len() - trail_run(s, p) - 1]),
    decreases s.len(),
{
    if s.len() > 0 && p(s.last()) {
        lemma_trail_run(s.drop_last(), p);
        assert forall|i: int| s.len() - trail_run(s, p) <= i < s.len() implies p(#[trigger] s[i]) by {
            if i < s.len() - 1 {
                assert(s[i] == s.drop_last()[i]);
            }
        }
    }
}

pub proof fn lemma_trail_run_unique(s: Seq<char>, p: spec_fn(char) -> bool, k: int)
    requires
        0 <= k <= s.len(),
        forall|i: int| s.len() - k <= i < s.len() ==> p(#[trigger] s[i]),
        k < s.len() ==> !p(s[s.len() - k - 1]),
    ensures
        trail_run(s, p) == k,
    decreases s.len(),
{
    if k > 0 {
        assert(p(s[s.len() - 1]));
        let t = s.drop_last();
        assert forall|i: int| t.len() - (k - 1) <= i < t.len() implies p(#[trigger] t[i]) by {
            assert(t[i] == s[i]);
        }
        if k - 1 < t.len() {
            assert(t[t.len() - (k - 1) - 1] == s[s.len() - k - 1]);
        }
        lemma_trail_run_unique(t, p, k - 1);
    }
}

pub proof fn lemma_split_on_nonempty(s: Seq<char>, c: char)
    ensures
        split_on(s, c).len() >= 1,
    decreases s.len(),
{
    if s.len() > 0 {
        lemma_split_on_nonempty(s.drop_last(), c);
    }
}

pub proof fn lemma_split_on_excludes(s: Seq<char>, c: char)
    ensures
        forall|i: int| 0 <= i < split_on(s, c).len() ==> !(#[trigger] split_on(s, c)[i]).contains(c),
    decreases s.len(),
{
    if s.len() > 0 {
        let prev = split_on(s.drop_last(), c);
        lemma_split_on_excludes(s.drop_last(), c);
        lemma_split_on_nonempty(s.drop_last(), c);
        if s.last() != c {
            let l = prev.last().push(s.last());
            assert forall|k: int| 0 <= k < l.len() implies l[k] != c by {
                if k < l.len() - 1 {
                    assert(l[k] == prev.last()[k]);
                    assert(prev.last() == prev[prev.len() - 1]);
                }
            }
            assert(!l.contains(c));
        }
        assert(!Seq::<char>::empty().contains(c));
    }
}

/// The first index in `[lo, hi)` satisfying `p`.
pub open spec fn first_in(lo: int, hi: int, p: spec_fn(int) -> bool) -> Option<int> {
    if exists|k: int| lo <= k < hi && #[trigger] p(k) {
        Some(choose|k: int| #![trigger p(k)] lo <= k < hi && p(k) && forall|j: int| lo <= j < k ==> !#[trigger] p(j))
    } else {
        None
    }
}

/// The last index in `[lo, hi)` satisfying `p`.
pub open spec fn last_in(lo: int, hi: int, p: spec_fn(int) -> bool) -> Option<int> {
    if exists|k: int| lo <= k < hi && #[trigger] p(k) {
        Some(choose|k: int| #![trigger p(k)] lo <= k < hi && p(k) && forall|j: int| k < j < hi ==> !#[trigger] p(j))
    } else {
        None
    }
}

pub proof fn lemma_first_in(lo: int, hi: int, p: spec_fn(int) -> bool, k: int)
    requires
        lo <= k < hi,
        p(k),
        forall|j: int| lo <= j < k ==> !#[trigger] p(j),
    ensures
        first_in(lo, hi, p) == Some(k),
{
    let c = choose|c: int| #![trigger p(c)] lo <= c < hi && p(c) && forall|j: int| lo <= j < c ==> !#[trigger] p(j);
    assert(lo <= c < hi && p(c) && forall|j: int| lo <= j < c ==> !#[trigger] p(j));
    if c < k {
        assert(!p(c));
    }
    if k < c {
        assert(!p(k));
    }
}

pub proof fn lemma_first_in_none(lo: int, hi: int, p: spec_fn(int) -> bool)
    requires
        forall|j: int| lo <= j < hi ==> !#[trigger] p(j),
    ensures
        first_in(lo, hi, p) is None,
{
}

pub proof fn lemma_last_in(lo: int, hi: int, p: spec_fn(int) -> bool, k: int)
    requires
        lo <= k < hi,
        p(k),
        forall|j: int| k < j < hi ==> !#[trigger] p(j),
    ensures
        last_in(lo, hi, p) == Some(k),
{
    let c = choose|c: int| #![trigger p(c)] lo <= c < hi && p(c) && forall|j: int| c < j < hi ==> !#[trigger] p(j);
    assert(lo <= c < hi && p(c) && forall|j: int| c < j < hi ==> !#[trigger] p(j));
    if c < k {
        assert(!p(k));
    }
    if k < c {
        assert(!p(c));
    }
}

pub proof fn lemma_last_in_none(lo: int, hi: int, p: spec_fn(int) -> bool)
    requires
        forall|j: int| lo <= j < hi ==> !#[trigger] p(j),
    ensures
        last_in(lo, hi, p) is None,
{
}

proof fn lemma_exists_last(lo: int, hi: int, p: spec_fn(int) -> bool, w: int)
    requires
        lo <= w < hi,
        p(w),
    ensures
        exists|k: int| #![trigger p(k)] lo <= k < hi && p(k) && forall|j: int| k < j < hi ==> !#[trigger] p(j),
    decreases hi - w,
{
    if exists|j: int| w < j < hi && #[trigger] p(j) {
        let j = choose|j: int| w < j < hi && #[trigger] p(j);
        lemma_exists_last(lo, hi, p, j);
    } else {
        assert(forall|j: int| w < j < hi ==> !#[trigger] p(j));
    }
}

proof fn lemma_exists_first(lo: int, hi: int, p: spec_fn(int) -> bool, w: int)
    requires
        lo <= w < hi,
        p(w),
    ensures
        exists|k: int| #![trigger p(k)] lo <= k < hi && p(k) && forall|j: int| lo <= j < k ==> !#[trigger] p(j),
    decreases w - lo,
{
    if exists|j: int| lo <= j < w && #[trigger] p(j) {
        let j = choose|j: int| lo <= j < w && #[trigger] p(j);
        lemma_exists_first(lo, hi, p, j);
    } else {
        assert(forall|j: int| lo <= j < w ==> !#[trigger] p(j));
    }
}

/// What `last_in` returns is the last index of the range satisfying `p`.
pub proof fn lemma_last_in_some(lo: int, hi: int, p: spec_fn(int) -> bool)
    ensures
        last_in(lo, hi, p) matches Some(k) ==> lo <= k < hi && p(k) && forall|j: int|
            k < j < hi ==> !#[trigger] p(j),
{
    if exists|k: int| lo <= k < hi && #[trigger] p(k) {
        let w = choose|k: int| lo <= k < hi && #[trigger] p(k);
        lemma_exists_last(lo, hi, p, w);
    }
}

/// What `first_in` returns is the first index of the range satisfying `p`.
pub proof fn lemma_first_in_some(lo: int, hi: int, p: spec_fn(int) -> bool)
    ensures
        first_in(lo, hi, p) matches Some(k) ==> lo <= k < hi && p(k) && forall|j: int|
            lo <= j < k ==> !#[trigger] p(j),
{
    if exists|k: int| lo <= k < hi && #[trigger] p(k) {
        let w = choose|k: int| lo <= k < hi && #[trigger] p(k);
        lemma_exists_first(lo, hi, p, w);
    }
}

// ---------------------------------------------------------------------------
// Conversions between `str` and characters (std)
// ---------------------------------------------------------------------------

/// The characters of `s`, in order (`str::chars` collected).
#[verifier::external_body]
pub(crate) fn chars_of(s: &str) -> (r: Vec<char>)
    ensures
        r@ == s@,
{
    s.chars().collect()
}

/// The string made of the characters of `v`, in order (`FromIterator<char>`).
#[verifier::external_body]
pub(crate) fn string_of(v: &[char]) -> (r: String)
    ensures
        r@ == v@,
{
    v.iter().collect()
}

/// The result of `str::to_lowercase` (full Unicode lowercase mapping).
pub uninterp spec fn lowercase(s: Seq<char>) -> Seq<char>;

/// Whether every character of `s` is ASCII.
pub open spec fn is_ascii_text(s: Seq<char>) -> bool {
    forall|i: int| 0 <= i < s.len() ==> (s[i] as u32) < 128
}

/// The code of the ASCII lowercase form of `c`: `A`..`Z` become `a`..`z`,
/// everything else stays.
pub open spec fn ascii_lower_code(c: char) -> u32 {
    if 'A' <= c && c <= 'Z' {
        (c as u32 + 32) as u32
    } else {
        c as u32
    }
}

/// `str::to_lowercase`. On ASCII text the Unicode lowercase mapping is the
/// ASCII one, character by character; beyond ASCII the result is only named.
#[verifier::external_body]
pub(crate) fn to_lowercase(s: &str) -> (r: String)
    ensures
        r@ == lowercase(s@),
        is_ascii_text(s@) ==> r@.len() == s@.len() && forall|i: int|
            0 <= i < r@.len() ==> (#[trigger] r@[i] as u32) == ascii_lower_code(s@[i]),
{
    s.to_lowercase()
}

/// Appends one character (`String::push`).
#[verifier::external_body]
pub(crate) fn push_char(s: &mut String, c: char)
    ensures
        final(s)@ == old(s)@.push(c),
{
    s.push(c)
}

// ---------------------------------------------------------------------------
// Verified executable helpers
// ---------------------------------------------------------------------------

pub fn is_ws_char(c: char) -> (r: bool)
    ensures
        r == is_ws(c),
{
    ('\t' <= c && c <= '\r') || c == ' ' || c == '\u{85}' || c == '\u{a0}' || c == '\u{1680}'
        || ('\u{2000}' <= c && c <= '\u{200a}') || c == '\u{2028}' || c == '\u{2029}' || c
        == '\u{202f}' || c == '\u{205f}' || c == '\u{3000}'
}

pub fn lead_ws_len(s: &Vec<char>) -> (k: usize)
    ensures
        k == lead_run(s@, ws()),
{
    let mut k: usize = 0;
    while k < s.len() && is_ws_char(s[k])
        invariant
            k <= s.len(),
            forall|i: int| 0 <= i < k ==> ws()(#[trigger] s@[i]),
        decreases s.len() - k,
    {
        k += 1;
    }
    proof {
        lemma_lead_run_unique(s@, ws(), k as int);
    }
    k
}

pub fn trail_ws_len(s: &Vec<char>) -> (k: usize)
    ensures
        k == trail_run(s@, ws()),
{
    let mut k: usize = 0;
    while k < s.len() && is_ws_char(s[s.len() - 1 - k])
        invariant
            k <= s.len(),
            forall|i: int| s.len() - k <= i < s.len() ==> ws()(#[trigger] s@[i]),
        decreases s.len() - k,
    {
        k += 1;
    }
    proof {
        lemma_trail_run_unique(s@, ws(), k as int);
    }
    k
}

pub fn trail_char_len(s: &Vec<char>, c: char) -> (k: usize)
    ensures
        k == trail_run(s@, is_char(c)),
{
    let mut k: usize = 0;
    while k < s.len() && s[s.len() - 1 - k] == c
        invariant
            k <= s.len(),
            forall|i: int| s.len() - k <= i < s.len() ==> is_char(c)(#[trigger] s@[i]),
        decreases s.len() - k,
    {
        k += 1;
    }
    proof {
        lemma_trail_run_unique(s@, is_char(c), k as int);
    }
    k
}

pub fn first_index_of_char(s: &Vec<char>, c: char) -> (k: usize)
    ensures
        k == first_index_of(s@, c),
        k <= s@.len(),
{
    let mut k: usize = 0;
    while k < s.len() && s[k] != c
        invariant
            k <= s.len(),
            forall|i: int| 0 <= i < k ==> not_char(c)(#[trigger] s@[i]),
        decreases s.len() - k,
    {
        k += 1;
    }
    proof {
        lemma_lead_run_unique(s@, not_char(c), k as int);
    }
    k
}

/// The characters `v[from..to]` as a new vector.
pub fn sub_chars(v: &Vec<char>, from: usize, to: usize) -> (r: Vec<char>)
    requires
        from <= to <= v.len(),
    ensures
        r@ == v@.subrange(from as int, to as int),
{
    let mut r: Vec<char> = Vec::new();
    let mut i = from;
    while i < to
        invariant
            from <= i <= to <= v.len(),
            r@ == v@.subrange(from as int, i as int),
        decreases to - i,
    {
        r.push(v[i]);
        i += 1;
        proof {
            assert(r@ =~= v@.subrange(from as int, i as int));
        }
    }
    r
}

pub fn trim_chars(s: &Vec<char>) -> (r: Vec<char>)
    ensures
        r@ == trim(s@),
{
    let a = lead_ws_len(s);
    proof {
        lemma_lead_run(s@, ws());
    }
    let t = sub_chars(s, a, s.len());
    assert(t@ == trim_start(s@));
    let b = trail_ws_len(&t);
    proof {
        lemma_trail_run(t@, ws());
    }
    sub_chars(&t, 0, t.len() - b)
}

pub fn trim_end_char_chars(s: &Vec<char>, c: char) -> (r: Vec<char>)
    ensures
        r@ == trim_end_char(s@, c),
{
    let b = trail_char_len(s, c);
    proof {
        lemma_trail_run(s@, is_char(c));
    }
    sub_chars(s, 0, s.len() - b)
}

/// `str::trim` on a string.
pub fn trim_str(s: &str) -> (r: String)
    ensures
        r@ == trim(s@),
{
    let v = chars_of(s);
    let t = trim_chars(&v);
    string_of(t.as_slice())
}

pub fn chars_eq(a: &Vec<char>, b: &Vec<char>) -> (r: bool)
    ensures
        r == (a@ == b@),
{
    if a.len() != b.len() {
        return false;
    }
    let mut i: usize = 0;
    while i < a.len()
        invariant
            a.len() == b.len(),
            i <= a.len(),
            forall|j: int| 0 <= j < i ==> a@[j] == b@[j],
        decreases a.len() - i,
    {
        if a[i] != b[i] {
            return false;
        }
        i += 1;
    }
    assert(a@ =~= b@);
    true
}

/// `==` on string slices.
pub fn str_eq(a: &str, b: &str) -> (r: bool)
    ensures
        r == (a@ == b@),
{
    let x = chars_of(a);
    let y = chars_of(b);
    chars_eq(&x, &y)
}

/// Whether `w` occurs in `s` starting at `i`.
pub fn chars_occur_at(s: &Vec<char>, w: &Vec<char>, i: usize) -> (r: bool)
    ensures
        r == occurs_at(s@, w@, i as int),
{
    if i > s.len() || w.len() > s.len() - i {
        return false;
    }
    let mut k: usize = 0;
    while k < w.len()
        invariant
            i + w.len() <= s.len(),
            k <= w.len(),
            forall|j: int| 0 <= j < k ==> s@[i + j] == w@[j],
        decreases w.len() - k,
    {
        if s[i + k] != w[k] {
            assert(s@.subrange(i as int, i + w.len())[k as int] != w@[k as int]);
            return false;
        }
        k += 1;
    }
    assert(s@.subrange(i as int, i + w.len()) =~= w@);
    true
}

pub fn chars_starts_with(s: &Vec<char>, w: &Vec<char>) -> (r: bool)
    ensures
        r == starts_with(s@, w@),
{
    let r = chars_occur_at(s, w, 0);
    proof {
        if w@.len() <= s@.len() {
            assert(s@.subrange(0, w@.len() as int) =~= s@.take(w@.len() as int));
        }
    }
    r
}

pub fn chars_contain(s: &Vec<char>, w: &Vec<char>) -> (r: bool)
    ensures
        r == contains_sub(s@, w@),
{
    if w.len() > s.len() {
        return false;
    }
    let mut i: usize = 0;
    while i <= s.len() - w.len()
        invariant
            w.len() <= s.len(),
            i <= s.len() - w.len() + 1,
            forall|j: int| 0 <= j < i ==> !occurs_at(s@, w@, j),
        decreases s.len() - w.len() + 1 - i,
    {
        if chars_occur_at(s, w, i) {
            return true;
        }
        if i == s.len() - w.len() {
            return false;
        }
        i += 1;
    }
    false
}

/// `str::contains` with a string pattern.
pub fn str_contains(s: &str, w: &str) -> (r: bool)
    ensures
        r == contains_sub(s@, w@),
{
    let a = chars_of(s);
    let b = chars_of(w);
    chars_contain(&a, &b)
}

/// `str::ends_with` with a single character.
pub fn chars_end_with(s: &Vec<char>, c: char) -> (r: bool)
    ensures
        r == (s@.len() > 0 && s@.last() == c),
{
    s.len() > 0 && s[s.len() - 1] == c
}

/// A copy of a list of strings.
pub fn copy_strings(v: &Vec<String>) -> (r: Vec<String>)
    ensures
        r.deep_view() == v.deep_view(),
{
    let mut r: Vec<String> = Vec::new();
    let mut k: usize = 0;
    while k < v.len()
        invariant
            k <= v@.len(),
            r.deep_view() == v.deep_view().take(k as int),
        decreases v.len() - k,
    {
        let ghost before = r.deep_view();
        let f = v[k].clone();
        r.push(f);
        proof {
            assert(r.deep_view() =~= before.push(v[k as int]@));
            assert(r.deep_view() =~= v.deep_view().take(k + 1));
        }
        k += 1;
    }
    assert(v.deep_view().take(v@.len() as int) =~= v.deep_view());
    r
}

/// `s.split(c)` collected into owned strings.
pub fn split_str(s: &str, c: char) -> (r: Vec<String>)
    ensures
        r.deep_view() == split_on(s@, c),
{
    let v = chars_of(s);
    let mut done: Vec<String> = Vec::new();
    let mut cur: Vec<char> = Vec::new();
    let mut i: usize = 0;
    while i < v.len()
        invariant
            i <= v.len(),
            done.deep_view().push(cur@) == split_on(v@.take(i as int), c),
        decreases v.len() - i,
    {
        let ghost prefix = v@.take(i as int);
        proof {
            assert(v@.take(i + 1).drop_last() =~= prefix);
            lemma_split_on_nonempty(prefix, c);
        }
        if v[i] == c {
            let piece = string_of(cur.as_slice());
            done.push(piece);
            cur = Vec::new();
            proof {
                assert(done.deep_view() =~= split_on(prefix, c));
                assert(done.deep_view().push(cur@) =~= split_on(v@.take(i + 1), c));
            }
        } else {
            cur.push(v[i]);
            proof {
                assert(done.deep_view().push(cur@) =~= split_on(prefix, c).update(
                    split_on(prefix, c).len() - 1,
                    split_on(prefix, c).last().push(v@[i as int]),
                ));
            }
        }
        i += 1;
    }
    let last = string_of(cur.as_slice());
    done.push(last);
    proof {
        assert(v@.take(v.len() as int) =~= v@);
        assert(done.deep_view() =~= split_on(v@, c));
    }
    done
}

} // verus!
