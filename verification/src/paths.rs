//! How the edit-program language reads an unquoted path operand: as a glob under a root
//! directory, as all files under a directory, or as one exact file; and how a regular
//! expression over relative paths is split into a literal root directory and the rest.
use vstd::prelude::*;

use crate::text::{copy_range, push_range};

verus! {

/// What an unquoted path operand denotes.
pub enum PathSpecView {
    Exact(Seq<char>),
    Directory(Seq<char>, bool),
    Glob(Seq<char>, Seq<char>),
    Regex(Seq<char>, Seq<char>),
}

pub open spec fn is_separator(c: char) -> bool {
    c == '/' || c == '\\'
}

pub open spec fn is_wildcard(c: char) -> bool {
    c == '*' || c == '?' || c == '['
}

/// A path that contains `*`, `?` or `[`.
pub open spec fn looks_like_glob(t: Seq<char>) -> bool {
    exists|i: int| 0 <= i < t.len() && is_wildcard(#[trigger] t[i])
}

/// An empty path stands for the current directory.
pub open spec fn normalize_empty(p: Seq<char>) -> Seq<char> {
    if p.len() == 0 {
        seq!['.']
    } else {
        p
    }
}

/// The first position at or after `i` that holds a wildcard, or the length.
pub open spec fn first_wildcard(t: Seq<char>, i: int) -> int
    decreases t.len() - i,
{
    if 0 <= i < t.len() && !is_wildcard(t[i]) {
        first_wildcard(t, i + 1)
    } else {
        i
    }
}

/// The last position before `e` that holds a separator.
pub open spec fn last_separator(t: Seq<char>, e: int) -> Option<int>
    decreases e,
{
    if e <= 0 {
        None
    } else if is_separator(t[e - 1]) {
        Some(e - 1)
    } else {
        last_separator(t, e - 1)
    }
}

/// The last position before `e` that holds a `/`.
pub open spec fn last_slash(t: Seq<char>, e: int) -> Option<int>
    decreases e,
{
    if e <= 0 {
        None
    } else if t[e - 1] == '/' {
        Some(e - 1)
    } else {
        last_slash(t, e - 1)
    }
}

/// Backslashes turned into slashes.
pub open spec fn with_slashes(p: Seq<char>) -> Seq<char> {
    Seq::new(p.len(), |i: int| if p[i] == '\\' { '/' } else { p[i] })
}

/// Splits a glob at the last separator before its first wildcard: the root keeps the
/// separator when it is the filesystem root (`/`) or a drive root (`C:\`), and the pattern
/// uses `/` as its separator.
pub open spec fn split_glob_root_spec(t: Seq<char>) -> (Seq<char>, Seq<char>) {
    match last_separator(t, first_wildcard(t, 0)) {
        None => (seq!['.'], t),
        Some(k) => {
            let drive_root = k == 2 && t.len() > 1 && t[1] == ':';
            let root = if k == 0 || drive_root {
                t.subrange(0, k + 1)
            } else {
                t.subrange(0, k)
            };
            (normalize_empty(root), with_slashes(t.subrange(k + 1, t.len() as int)))
        },
    }
}

/// The length of `t` without its trailing separators.
pub open spec fn separators_trimmed_end(t: Seq<char>, e: int) -> int
    decreases e,
{
    if e > 0 && is_separator(t[e - 1]) {
        separators_trimmed_end(t, e - 1)
    } else {
        e
    }
}

/// An unquoted path operand: a glob, a directory (it ends with a separator), or a file.
pub open spec fn plain_path_spec(t: Seq<char>) -> PathSpecView {
    if looks_like_glob(t) {
        let (root, pattern) = split_glob_root_spec(t);
        PathSpecView::Glob(root, pattern)
    } else if t.len() > 0 && is_separator(t.last()) {
        let e = separators_trimmed_end(t, t.len() as int);
        let root = t.subrange(0, e);
        let kept = if e == 0 || (t[e - 1] == ':' && e + 1 == t.len()) {
            t
        } else {
            root
        };
        PathSpecView::Directory(normalize_empty(kept), true)
    } else {
        PathSpecView::Exact(t)
    }
}

proof fn lemma_first_wildcard_bounds(t: Seq<char>, a: int, w: int)
    requires
        0 <= a <= w < t.len(),
        t[w] == '*' || t[w] == '?' || t[w] == '[',
    ensures
        a <= first_wildcard(t, a) <= w,
        t[first_wildcard(t, a)] == '*' || t[first_wildcard(t, a)] == '?' || t[first_wildcard(t, a)]
            == '[',
        forall|k: int| a <= k < first_wildcard(t, a) ==> !is_wildcard(#[trigger] t[k]),
    decreases w - a,
{
    if a < w && !is_wildcard(t[a]) {
        lemma_first_wildcard_bounds(t, a + 1, w);
    }
}

proof fn lemma_last_separator_skip(t: Seq<char>, a: int, e: int)
    requires
        0 <= a <= e <= t.len(),
        forall|k: int| a <= k < e ==> !is_separator(#[trigger] t[k]),
    ensures
        last_separator(t, e) == last_separator(t, a),
    decreases e - a,
{
    if e > a {
        lemma_last_separator_skip(t, a, e - 1);
    }
}

/// An unquoted path operand that holds a `*`, a `?` or a `[` anywhere is read as a glob.
pub proof fn law_wildcards_make_globs(t: Seq<char>, i: int)
    requires
        0 <= i < t.len(),
        t[i] == '*' || t[i] == '?' || t[i] == '[',
    ensures
        plain_path_spec(t) is Glob,
{
    assert(is_wildcard(t[i]));
}

/// A glob is split at the last separator before its first wildcard: `dir/pattern`, where
/// `dir` holds no `*`, `?` or `[` (and is not a drive such as `C:`) and `pattern` holds a
/// wildcard but no separator, reads as the glob `pattern` under the directory `dir`.
pub proof fn law_glob_split(dir: Seq<char>, pattern: Seq<char>, i: int)
    requires
        dir.len() > 0,
        forall|k: int| 0 <= k < dir.len() ==> dir[k] != '*' && dir[k] != '?' && dir[k] != '[',
        !(dir.len() == 2 && dir[1] == ':'),
        forall|k: int| 0 <= k < pattern.len() ==> pattern[k] != '/' && pattern[k] != '\\',
        0 <= i < pattern.len(),
        pattern[i] == '*' || pattern[i] == '?' || pattern[i] == '[',
    ensures
        plain_path_spec(dir + seq!['/'] + pattern) == PathSpecView::Glob(dir, pattern),
{
    let t = dir + seq!['/'] + pattern;
    let dl = dir.len() as int;
    let w = dl + 1 + i;
    assert(t[w] == pattern[i]);
    assert(is_wildcard(t[w]));
    assert forall|k: int| 0 <= k <= dl implies !is_wildcard(#[trigger] t[k]) by {
        if k < dl {
            assert(t[k] == dir[k]);
        }
    }
    lemma_first_wildcard_bounds(t, dl + 1, w);
    assert(first_wildcard(t, 0) == first_wildcard(t, dl + 1)) by {
        lemma_first_wildcard_skip(t, 0, dl + 1);
    }
    let f = first_wildcard(t, 0);
    assert forall|k: int| dl + 1 <= k < f implies !is_separator(#[trigger] t[k]) by {
        assert(t[k] == pattern[k - dl - 1]);
    }
    lemma_last_separator_skip(t, dl + 1, f);
    assert(t[dl] == '/');
    assert(last_separator(t, dl + 1) == Some(dl));
    assert(t.subrange(0, dl) =~= dir);
    assert(t.subrange(dl + 1, t.len() as int) =~= pattern);
    assert(with_slashes(pattern) =~= pattern);
    assert(looks_like_glob(t));
}

proof fn lemma_first_wildcard_skip(t: Seq<char>, a: int, e: int)
    requires
        0 <= a <= e <= t.len(),
        forall|k: int| a <= k < e ==> !is_wildcard(#[trigger] t[k]),
    ensures
        first_wildcard(t, a) == first_wildcard(t, e),
    decreases e - a,
{
    if a < e {
        lemma_first_wildcard_skip(t, a + 1, e);
    }
}

pub open spec fn is_regex_meta(c: char) -> bool {
    c == '.' || c == '+' || c == '*' || c == '?' || c == '[' || c == '(' || c == '{' || c == '^'
        || c == '$' || c == '|' || c == '\\'
}

/// The end of the literal prefix of a regular expression.
pub open spec fn literal_prefix_end(p: Seq<char>, i: int) -> int
    decreases p.len() - i,
{
    if 0 <= i < p.len() && !is_regex_meta(p[i]) {
        literal_prefix_end(p, i + 1)
    } else {
        i
    }
}

/// Scans a regular expression for a `|` outside any group or character class.
pub open spec fn alternation_scan(p: Seq<char>, i: int, escaped: bool, in_class: bool, depth: nat) -> bool
    decreases p.len() - i,
{
    if i < 0 || i >= p.len() {
        false
    } else {
        let c = p[i];
        if escaped {
            alternation_scan(p, i + 1, false, in_class, depth)
        } else if c == '\\' {
            alternation_scan(p, i + 1, true, in_class, depth)
        } else if c == '[' && !in_class {
            alternation_scan(p, i + 1, false, true, depth)
        } else if c == ']' && in_class {
            alternation_scan(p, i + 1, false, false, depth)
        } else if c == '(' && !in_class {
            alternation_scan(p, i + 1, false, in_class, depth + 1)
        } else if c == ')' && !in_class {
            alternation_scan(p, i + 1, false, in_class, if depth > 0 {
                (depth - 1) as nat
            } else {
                0
            })
        } else if c == '|' && !in_class && depth == 0 {
            true
        } else {
            alternation_scan(p, i + 1, false, in_class, depth)
        }
    }
}

pub open spec fn has_top_level_alternation(p: Seq<char>) -> bool {
    alternation_scan(p, 0, false, false, 0)
}

/// Splits a regular expression over relative paths into the directory named by its literal
/// prefix (up to its last `/`) and the expression relative to that directory. An expression
/// with a top-level alternation, or without such a directory, stays whole under `.`.
pub open spec fn split_regex_root_spec(p: Seq<char>) -> (Seq<char>, Seq<char>) {
    if has_top_level_alternation(p) {
        (seq!['.'], p)
    } else {
        match last_slash(p, literal_prefix_end(p, 0)) {
            None => (seq!['.'], p),
            Some(k) => (normalize_empty(p.subrange(0, k)), p.subrange(k + 1, p.len() as int)),
        }
    }
}

fn normalized(p: Vec<char>) -> (r: Vec<char>)
    ensures
        r@ == normalize_empty(p@),
{
    if p.len() == 0 {
        let mut r = Vec::new();
        r.push('.');
        proof {
            assert(r@ =~= seq!['.']);
        }
        r
    } else {
        p
    }
}

fn dot() -> (r: Vec<char>)
    ensures
        r@ == seq!['.'],
{
    let mut r = Vec::new();
    r.push('.');
    proof {
        assert(r@ =~= seq!['.']);
    }
    r
}

pub fn looks_like_glob_exec(t: &[char]) -> (r: bool)
    ensures
        r == looks_like_glob(t@),
{
    let mut i: usize = 0;
    while i < t.len()
        invariant
            i <= t@.len(),
            forall|k: int| 0 <= k < i ==> !is_wildcard(#[trigger] t@[k]),
        decreases t.len() - i,
    {
        if t[i] == '*' || t[i] == '?' || t[i] == '[' {
            assert(is_wildcard(t@[i as int]));
            return true;
        }
        i = i + 1;
    }
    false
}

fn find_first_wildcard(t: &[char]) -> (r: usize)
    ensures
        r == first_wildcard(t@, 0),
        r <= t@.len(),
{
    let mut i: usize = 0;
    while i < t.len() && !(t[i] == '*' || t[i] == '?' || t[i] == '[')
        invariant
            i <= t@.len(),
            first_wildcard(t@, i as int) == first_wildcard(t@, 0),
        decreases t.len() - i,
    {
        i = i + 1;
    }
    i
}

fn find_last_separator(t: &[char], e: usize) -> (r: Option<usize>)
    requires
        e <= t@.len(),
    ensures
        match r {
            Some(k) => last_separator(t@, e as int) == Some(k as int) && k < e,
            None => last_separator(t@, e as int).is_none(),
        },
{
    let mut j = e;
    while j > 0 && !(t[j - 1] == '/' || t[j - 1] == '\\')
        invariant
            j <= e <= t@.len(),
            last_separator(t@, j as int) == last_separator(t@, e as int),
        decreases j,
    {
        j = j - 1;
    }
    if j == 0 {
        None
    } else {
        Some(j - 1)
    }
}

fn find_last_slash(t: &[char], e: usize) -> (r: Option<usize>)
    requires
        e <= t@.len(),
    ensures
        match r {
            Some(k) => last_slash(t@, e as int) == Some(k as int) && k < e,
            None => last_slash(t@, e as int).is_none(),
        },
{
    let mut j = e;
    while j > 0 && t[j - 1] != '/'
        invariant
            j <= e <= t@.len(),
            last_slash(t@, j as int) == last_slash(t@, e as int),
        decreases j,
    {
        j = j - 1;
    }
    if j == 0 {
        None
    } else {
        Some(j - 1)
    }
}

fn slashes_from(t: &[char], start: usize) -> (r: Vec<char>)
    requires
        start <= t@.len(),
    ensures
        r@ == with_slashes(t@.subrange(start as int, t@.len() as int)),
{
    let ghost src = t@.subrange(start as int, t@.len() as int);
    let mut r: Vec<char> = Vec::new();
    let mut i = start;
    while i < t.len()
        invariant
            start <= i <= t@.len(),
            src == t@.subrange(start as int, t@.len() as int),
            r@ == with_slashes(src).subrange(0, (i - start) as int),
        decreases t.len() - i,
    {
        if t[i] == '\\' {
            r.push('/');
        } else {
            r.push(t[i]);
        }
        proof {
            assert(r@ =~= with_slashes(src).subrange(0, (i + 1 - start) as int));
        }
        i = i + 1;
    }
    assert(with_slashes(src).subrange(0, src.len() as int) =~= with_slashes(src));
    r
}

/// Splits a glob into its root directory and its pattern.
pub fn split_glob_root(t: &[char]) -> (r: (Vec<char>, Vec<char>))
    ensures
        (r.0@, r.1@) == split_glob_root_spec(t@),
{
    let w = find_first_wildcard(t);
    match find_last_separator(t, w) {
        None => (dot(), copy_range(t, 0, t.len())),
        Some(k) => {
            let drive_root = k == 2 && t.len() > 1 && t[1] == ':';
            let root = if k == 0 || drive_root {
                copy_range(t, 0, k + 1)
            } else {
                copy_range(t, 0, k)
            };
            proof {
                assert(t@.subrange(0, t@.len() as int) =~= t@);
            }
            (normalized(root), slashes_from(t, k + 1))
        },
    }
}

fn trimmed_separators_end(t: &[char]) -> (r: usize)
    ensures
        r == separators_trimmed_end(t@, t@.len() as int),
        r <= t@.len(),
{
    let mut e = t.len();
    while e > 0 && (t[e - 1] == '/' || t[e - 1] == '\\')
        invariant
            e <= t@.len(),
            separators_trimmed_end(t@, e as int) == separators_trimmed_end(t@, t@.len() as int),
        decreases e,
    {
        e = e - 1;
    }
    e
}

/// Reads an unquoted path operand as a glob, a directory or a file.
pub fn plain_path_kind(t: &[char]) -> (r: (u8, Vec<char>, Vec<char>))
    ensures
        plain_path_spec(t@) == match r.0 {
            0 => PathSpecView::Glob(r.1@, r.2@),
            1 => PathSpecView::Directory(r.1@, true),
            _ => PathSpecView::Exact(r.1@),
        },
{
    if looks_like_glob_exec(t) {
        let (root, pattern) = split_glob_root(t);
        return (0, root, pattern);
    }
    if t.len() > 0 && (t[t.len() - 1] == '/' || t[t.len() - 1] == '\\') {
        let e = trimmed_separators_end(t);
        let kept = if e == 0 || (t[e - 1] == ':' && e + 1 == t.len()) {
            copy_range(t, 0, t.len())
        } else {
            copy_range(t, 0, e)
        };
        proof {
            assert(t@.subrange(0, t@.len() as int) =~= t@);
        }
        return (1, normalized(kept), Vec::new());
    }
    proof {
        assert(t@.subrange(0, t@.len() as int) =~= t@);
    }
    (2, copy_range(t, 0, t.len()), Vec::new())
}

pub fn has_top_level_regex_alternation(p: &[char]) -> (r: bool)
    ensures
        r == has_top_level_alternation(p@),
{
    let mut escaped = false;
    let mut in_class = false;
    let mut depth: usize = 0;
    let mut i: usize = 0;
    while i < p.len()
        invariant
            i <= p@.len(),
            depth <= i,
            alternation_scan(p@, i as int, escaped, in_class, depth as nat)
                == has_top_level_alternation(p@),
        decreases p.len() - i,
    {
        let c = p[i];
        if escaped {
            escaped = false;
        } else if c == '\\' {
            escaped = true;
        } else if c == '[' && !in_class {
            in_class = true;
        } else if c == ']' && in_class {
            in_class = false;
        } else if c == '(' && !in_class {
            depth = depth + 1;
        } else if c == ')' && !in_class {
            if depth > 0 {
                depth = depth - 1;
            }
        } else if c == '|' && !in_class && depth == 0 {
            return true;
        }
        i = i + 1;
    }
    false
}

fn find_literal_prefix_end(p: &[char]) -> (r: usize)
    ensures
        r == literal_prefix_end(p@, 0),
        r <= p@.len(),
{
    let mut i: usize = 0;
    while i < p.len() && !(p[i] == '.' || p[i] == '+' || p[i] == '*' || p[i] == '?' || p[i] == '['
        || p[i] == '(' || p[i] == '{' || p[i] == '^' || p[i] == '$' || p[i] == '|' || p[i]
        == '\\')
        invariant
            i <= p@.len(),
            literal_prefix_end(p@, i as int) == literal_prefix_end(p@, 0),
        decreases p.len() - i,
    {
        i = i + 1;
    }
    i
}

/// Splits a regular expression over relative paths into its literal root directory and the
/// expression relative to it.
pub fn split_regex_root(p: &[char]) -> (r: (Vec<char>, Vec<char>))
    ensures
        (r.0@, r.1@) == split_regex_root_spec(p@),
{
    proof {
        assert(p@.subrange(0, p@.len() as int) =~= p@);
    }
    if has_top_level_regex_alternation(p) {
        return (dot(), copy_range(p, 0, p.len()));
    }
    let e = find_literal_prefix_end(p);
    match find_last_slash(p, e) {
        None => (dot(), copy_range(p, 0, p.len())),
        Some(k) => (normalized(copy_range(p, 0, k)), copy_range(p, k + 1, p.len())),
    }
}

} // verus!
