//! Glob and regular-expression matchers over paths and text, UTF-8 decoding of file contents,
//! and the correspondence between UTF-8 byte offsets and character offsets.
use vstd::prelude::*;
use vstd::utf8::{decode_utf8, valid_utf8};

use crate::syntax::utf8_width;

verus! {

// ---------------------------------------------------------------------------------------------
// Byte offsets and character offsets
// ---------------------------------------------------------------------------------------------
/// The number of bytes of the UTF-8 encoding of `s`.
pub open spec fn utf8_len(s: Seq<char>) -> int
    decreases s.len(),
{
    if s.len() == 0 {
        0
    } else {
        utf8_len(s.drop_last()) + utf8_width(s.last())
    }
}

/// The byte offset at which the character at `c` starts.
pub open spec fn byte_offset(s: Seq<char>, c: int) -> int {
    utf8_len(s.subrange(0, c))
}

/// Whether `b` is the byte offset of some character boundary of `s`.
pub open spec fn is_boundary(s: Seq<char>, b: int) -> bool {
    exists|c: int| 0 <= c <= s.len() && byte_offset(s, c) == b
}

/// The character offset whose byte offset is `b`.
pub open spec fn char_offset(s: Seq<char>, b: int) -> int {
    choose|c: int| 0 <= c <= s.len() && byte_offset(s, c) == b
}

pub proof fn lemma_byte_offset_step(s: Seq<char>, c: int)
    requires
        0 <= c < s.len(),
    ensures
        byte_offset(s, c + 1) == byte_offset(s, c) + utf8_width(s[c]),
        1 <= utf8_width(s[c]) <= 4,
{
    assert(s.subrange(0, c + 1).drop_last() =~= s.subrange(0, c));
}

proof fn lemma_byte_offset_strictly_increasing(s: Seq<char>, a: int, b: int)
    requires
        0 <= a < b <= s.len(),
    ensures
        byte_offset(s, a) < byte_offset(s, b),
    decreases b - a,
{
    lemma_byte_offset_step(s, b - 1);
    if a < b - 1 {
        lemma_byte_offset_strictly_increasing(s, a, b - 1);
    }
}

pub proof fn lemma_byte_offset_nonneg(s: Seq<char>, c: int)
    requires
        0 <= c <= s.len(),
    ensures
        0 <= byte_offset(s, c),
{
    assert(s.subrange(0, 0) =~= Seq::<char>::empty());
    if c > 0 {
        lemma_byte_offset_strictly_increasing(s, 0, c);
    }
}

/// Byte offsets grow with character offsets.
pub proof fn lemma_byte_offset_order(s: Seq<char>, a: int, b: int)
    requires
        0 <= a < b <= s.len(),
    ensures
        byte_offset(s, a) < byte_offset(s, b),
{
    lemma_byte_offset_strictly_increasing(s, a, b);
}

/// The character offset at which the character at `c` starts is the only one with its byte
/// offset.
pub proof fn lemma_char_offset_of_byte_offset(s: Seq<char>, c: int)
    requires
        0 <= c <= s.len(),
    ensures
        is_boundary(s, byte_offset(s, c)),
        char_offset(s, byte_offset(s, c)) == c,
{
    let b = byte_offset(s, c);
    assert(0 <= c <= s.len() && byte_offset(s, c) == b);
    let d = char_offset(s, b);
    if d != c {
        if d < c {
            lemma_byte_offset_strictly_increasing(s, d, c);
        } else {
            lemma_byte_offset_strictly_increasing(s, c, d);
        }
    }
}

/// The byte offset of every character boundary: entry `c` holds the byte offset at which
/// character `c` starts (the last, the length of the encoding, `total`).
pub fn byte_offsets_of(s: &[char], total: usize) -> (v: Vec<usize>)
    requires
        total == utf8_len(s@),
    ensures
        v@.len() == s@.len() + 1,
        forall|c: int| 0 <= c <= s@.len() ==> #[trigger] v@[c] == byte_offset(s@, c),
{
    let mut v: Vec<usize> = Vec::new();
    let mut acc: usize = 0;
    let mut i: usize = 0;
    proof {
        assert(s@.subrange(0, 0) =~= Seq::<char>::empty());
        assert(s@.subrange(0, s@.len() as int) =~= s@);
    }
    while i < s.len()
        invariant
            i <= s@.len(),
            total == utf8_len(s@),
            total == byte_offset(s@, s@.len() as int),
            acc == byte_offset(s@, i as int),
            v@.len() == i,
            forall|c: int| 0 <= c < i ==> #[trigger] v@[c] == byte_offset(s@, c),
        decreases s.len() - i,
    {
        v.push(acc);
        proof {
            lemma_byte_offset_step(s@, i as int);
            if i + 1 < s@.len() {
                lemma_byte_offset_order(s@, i + 1, s@.len() as int);
            }
        }
        acc = acc + crate::syntax::char_utf8_width(s[i]);
        i = i + 1;
    }
    v.push(acc);
    v
}

/// A table from byte offsets to character offsets: entry `byte_offset(s, c)` holds `c`.
pub fn char_offsets_by_byte(s: &[char]) -> (m: Vec<usize>)
    ensures
        m@.len() == utf8_len(s@) + 1,
        forall|c: int| 0 <= c <= s@.len() ==> #[trigger] m@[byte_offset(s@, c)] == c,
        forall|b: int| 0 <= b < m@.len() ==> #[trigger] m@[b] <= s@.len(),
{
    let mut m: Vec<usize> = Vec::new();
    let mut i: usize = 0;
    proof {
        assert(s@.subrange(0, 0) =~= Seq::<char>::empty());
    }
    while i < s.len()
        invariant
            i <= s@.len(),
            m@.len() == byte_offset(s@, i as int),
            forall|c: int| 0 <= c < i ==> #[trigger] m@[byte_offset(s@, c)] == c,
            forall|b: int| 0 <= b < m@.len() ==> #[trigger] m@[b] <= i,
        decreases s.len() - i,
    {
        let c = s[i];
        let v = c as u32;
        let w: usize = if v < 0x80 {
            1
        } else if v < 0x800 {
            2
        } else if v < 0x10000 {
            3
        } else {
            4
        };
        proof {
            lemma_byte_offset_step(s@, i as int);
        }
        let ghost start = m@.len();
        let mut k: usize = 0;
        while k < w
            invariant
                k <= w,
                i < s@.len(),
                m@.len() == start + k,
                start == byte_offset(s@, i as int),
                forall|c: int| 0 <= c < i ==> #[trigger] m@[byte_offset(s@, c)] == c,
                forall|b: int| 0 <= b < start ==> #[trigger] m@[b] <= i,
                forall|b: int| start <= b < m@.len() ==> #[trigger] m@[b] == i,
            decreases w - k,
        {
            let ghost before = m@;
            m.push(i);
            proof {
                assert forall|c: int| 0 <= c < i implies #[trigger] m@[byte_offset(s@, c)] == c by {
                    lemma_byte_offset_strictly_increasing(s@, c, i as int);
                    lemma_byte_offset_nonneg(s@, c);
                    assert(m@[byte_offset(s@, c)] == before[byte_offset(s@, c)]);
                }
            }
            k = k + 1;
        }
        proof {
            assert(m@[byte_offset(s@, i as int)] == i);
            assert(m@.len() == byte_offset(s@, i + 1));
        }
        i = i + 1;
    }
    let ghost before = m@;
    m.push(s.len());
    proof {
        assert(s@.subrange(0, s@.len() as int) =~= s@);
        assert forall|c: int| 0 <= c <= s@.len() implies #[trigger] m@[byte_offset(s@, c)] == c by {
            if c < s@.len() {
                lemma_byte_offset_strictly_increasing(s@, c, s@.len() as int);
                lemma_byte_offset_nonneg(s@, c);
                assert(m@[byte_offset(s@, c)] == before[byte_offset(s@, c)]);
            }
        }
    }
    m
}

// ---------------------------------------------------------------------------------------------
// UTF-8 decoding
// ---------------------------------------------------------------------------------------------
/// `String::from_utf8`: the characters that valid UTF-8 bytes encode, or nothing when the
/// bytes are not valid UTF-8.
#[verifier::external_body]
pub fn decode_utf8_text(bytes: Vec<u8>) -> (r: Option<Vec<char>>)
    ensures
        match r {
            Some(t) => valid_utf8(bytes@) && t@ == decode_utf8(bytes@),
            None => !valid_utf8(bytes@),
        },
{
    String::from_utf8(bytes).ok().map(|text| text.chars().collect())
}

// ---------------------------------------------------------------------------------------------
// Globs
// ---------------------------------------------------------------------------------------------
#[verifier::external_type_specification]
#[verifier::external_body]
pub struct ExGlobSet(globset::GlobSet);

/// Whether `globset` accepts `pattern`: the two calls `Glob::new(pattern)` and then
/// `GlobSetBuilder::build` of a set of that one glob both succeed.
pub uninterp spec fn glob_compiles(pattern: Seq<char>) -> bool;

/// Whether `GlobSet::is_match` of `text` holds for the set that `Glob::new(pattern)` and
/// `GlobSetBuilder::build` make (default options; on Windows `globset` first turns the text's
/// `\\` into `/`, so the answer is fixed per build target).
pub uninterp spec fn glob_path_matches(pattern: Seq<char>, text: Seq<char>) -> bool;

/// A compiled glob; its view is the pattern it was compiled from.
pub struct GlobPattern {
    pattern: String,
    matcher: globset::GlobSet,
}

impl View for GlobPattern {
    type V = Seq<char>;

    closed spec fn view(&self) -> Seq<char> {
        self.pattern@
    }
}

/// `globset::Glob::new`, then `globset::GlobSetBuilder::build` of a set of that one glob:
/// succeeds exactly on the patterns that `globset` accepts and builds; a refused pattern yields
/// `globset`'s message (`build` reports a pattern too deeply nested as an error).
#[verifier::external_body]
fn glob_new(pattern: &str) -> (r: Result<globset::GlobSet, String>)
    ensures
        r is Ok <==> glob_compiles(pattern@),
{
    match globset::Glob::new(pattern) {
        Ok(glob) => globset::GlobSetBuilder::new().add(glob).build().map_err(|error| error.to_string()),
        Err(error) => Err(error.to_string()),
    }
}

/// `globset::GlobSet::is_match` on a text.
#[verifier::external_body]
fn glob_is_match(pattern: &GlobPattern, text: &str) -> (r: bool)
    ensures
        r == glob_path_matches(pattern@, text@),
{
    pattern.matcher.is_match(text)
}

impl GlobPattern {
    pub fn compile(pattern: &str) -> (r: Result<GlobPattern, String>)
        ensures
            r is Ok <==> glob_compiles(pattern@),
            r matches Ok(g) ==> g@ == pattern@,
    {
        match glob_new(pattern) {
            Ok(matcher) => Ok(GlobPattern { pattern: pattern.to_string(), matcher }),
            Err(message) => Err(message),
        }
    }

    pub fn is_match(&self, text: &str) -> (r: bool)
        ensures
            r == glob_path_matches(self@, text@),
    {
        glob_is_match(self, text)
    }
}

// ---------------------------------------------------------------------------------------------
// Regular expressions
// ---------------------------------------------------------------------------------------------
#[verifier::external_type_specification]
#[verifier::external_body]
pub struct ExRegex(regex::Regex);

/// Whether `Regex::new(pattern)` succeeds.
pub uninterp spec fn regex_compiles(pattern: Seq<char>) -> bool;

/// `Regex::is_match(text)` of the regex that `Regex::new(pattern)` makes.
pub uninterp spec fn regex_matches(pattern: Seq<char>, text: Seq<char>) -> bool;

/// For the regex that `Regex::new(pattern)` makes: the successive non-overlapping matches that
/// `Regex::captures_iter(haystack)` gives, each as the byte offsets of the match and
/// `replacement` with its capture references expanded by `Captures::expand`.
pub uninterp spec fn regex_expansions(
    pattern: Seq<char>,
    haystack: Seq<char>,
    replacement: Seq<char>,
) -> Seq<(usize, usize, Seq<char>)>;

/// A compiled regular expression; its view is the pattern it was compiled from.
pub struct RegexPattern {
    pattern: String,
    regex: regex::Regex,
}

impl View for RegexPattern {
    type V = Seq<char>;

    closed spec fn view(&self) -> Seq<char> {
        self.pattern@
    }
}

/// `regex::Regex::new`: succeeds exactly on the patterns that the crate accepts; a refused
/// pattern yields the crate's message.
#[verifier::external_body]
fn regex_new(pattern: &str) -> (r: Result<regex::Regex, String>)
    ensures
        r is Ok <==> regex_compiles(pattern@),
{
    regex::Regex::new(pattern).map_err(|error| error.to_string())
}

/// `regex::Regex::is_match` on a text.
#[verifier::external_body]
fn regex_is_match(pattern: &RegexPattern, text: &[char]) -> (r: bool)
    ensures
        r == regex_matches(pattern@, text@),
{
    let text: String = text.iter().collect();
    pattern.regex.is_match(text.as_str())
}

/// `regex::Regex::captures_iter` with `Captures::expand` for each match. As the crate documents,
/// the matches come in order without overlapping, and each offset lies on a character boundary
/// of `haystack`.
#[verifier::external_body]
fn regex_captures_expanded(pattern: &RegexPattern, haystack: &str, replacement: &str) -> (r: Vec<
    (usize, usize, String),
>)
    ensures
        r@.len() == regex_expansions(pattern@, haystack@, replacement@).len(),
        forall|k: int|
            0 <= k < r@.len() ==> {
                let (s, e, t) = #[trigger] r@[k];
                regex_expansions(pattern@, haystack@, replacement@)[k] == (s, e, t@)
            },
        forall|k: int|
            0 <= k < r@.len() ==> {
                let (s, e, _) = #[trigger] r@[k];
                &&& s <= e <= utf8_len(haystack@)
                &&& is_boundary(haystack@, s as int)
                &&& is_boundary(haystack@, e as int)
            },
        forall|k: int| 0 < k < r@.len() ==> #[trigger] r@[k].0 >= r@[k - 1].1,
{
    let mut out = Vec::new();
    for captures in pattern.regex.captures_iter(haystack) {
        let matched = captures.get_match();
        let mut expanded = String::new();
        captures.expand(replacement, &mut expanded);
        out.push((matched.start(), matched.end(), expanded));
    }
    out
}

impl RegexPattern {
    pub fn compile(pattern: &str) -> (r: Result<RegexPattern, String>)
        ensures
            r is Ok <==> regex_compiles(pattern@),
            r matches Ok(g) ==> g@ == pattern@,
    {
        match regex_new(pattern) {
            Ok(regex) => Ok(RegexPattern { pattern: pattern.to_string(), regex }),
            Err(message) => Err(message),
        }
    }

    pub fn is_match(&self, text: &[char]) -> (r: bool)
        ensures
            r == regex_matches(self@, text@),
    {
        regex_is_match(self, text)
    }

    /// The matches of the expression in `haystack`, with `replacement` expanded for each.
    pub fn expansions(&self, haystack: &str, replacement: &str) -> (r: Vec<(usize, usize, String)>)
        ensures
            r@.len() == regex_expansions(self@, haystack@, replacement@).len(),
            forall|k: int|
                0 <= k < r@.len() ==> {
                    let (s, e, t) = #[trigger] r@[k];
                    regex_expansions(self@, haystack@, replacement@)[k] == (s, e, t@)
                },
            forall|k: int|
                0 <= k < r@.len() ==> {
                    let (s, e, _) = #[trigger] r@[k];
                    &&& s <= e <= utf8_len(haystack@)
                    &&& is_boundary(haystack@, s as int)
                    &&& is_boundary(haystack@, e as int)
                },
            forall|k: int| 0 < k < r@.len() ==> #[trigger] r@[k].0 >= r@[k - 1].1,
    {
        regex_captures_expanded(self, haystack, replacement)
    }
}

} // verus!
