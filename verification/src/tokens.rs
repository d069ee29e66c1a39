//! Tokens of the edit-program language: blanks, comments, line ends, quoted strings, regular
//! expression literals, path tokens and numbers. Each token has a specification as a partial
//! parser `(text, position) -> Option<(value, next position)>` and an executable counterpart
//! proved equal to it.
use vstd::prelude::*;

verus! {

/// A token's value and the position after it.
pub open spec fn tok_view(r: Option<(Vec<char>, usize)>) -> Option<(Seq<char>, int)> {
    match r {
        Some((v, j)) => Some((v@, j as int)),
        None => None,
    }
}

/// `acc` followed by the text of a partial result.
pub open spec fn prepend(acc: Seq<char>, o: Option<(Seq<char>, int)>) -> Option<(Seq<char>, int)> {
    match o {
        Some((t, k)) => Some((acc + t, k)),
        None => None,
    }
}

pub proof fn lemma_prepend_assoc(a: Seq<char>, b: Seq<char>, o: Option<(Seq<char>, int)>)
    ensures
        prepend(a, prepend(b, o)) == prepend(a + b, o),
{
    match o {
        Some((t, k)) => {
            assert(a + (b + t) =~= (a + b) + t);
        },
        None => {},
    }
}

pub proof fn lemma_prepend_empty(o: Option<(Seq<char>, int)>)
    ensures
        prepend(Seq::empty(), o) == o,
{
    match o {
        Some((t, k)) => {
            assert(Seq::<char>::empty() + t =~= t);
        },
        None => {},
    }
}

pub open spec fn is_blank(c: char) -> bool {
    c == ' ' || c == '\t'
}

/// The position after the run of spaces and tabs that starts at `i`.
pub open spec fn blank_end(s: Seq<char>, i: int) -> int
    decreases s.len() - i,
{
    if 0 <= i < s.len() && is_blank(s[i]) {
        blank_end(s, i + 1)
    } else {
        i
    }
}

pub fn skip_blanks(s: &[char], i: usize) -> (r: usize)
    requires
        i <= s@.len(),
    ensures
        r == blank_end(s@, i as int),
        i <= r <= s@.len(),
{
    let mut j = i;
    while j < s.len() && (s[j] == ' ' || s[j] == '\t')
        invariant
            i <= j <= s@.len(),
            blank_end(s@, j as int) == blank_end(s@, i as int),
        decreases s.len() - j,
    {
        j = j + 1;
    }
    j
}

/// The position after a `#` comment that starts at `i` (the comment runs to the end of the
/// line, excluding `\r` and `\n`).
pub open spec fn comment_end(s: Seq<char>, i: int) -> int
    decreases s.len() - i,
{
    if 0 <= i < s.len() && s[i] != '\r' && s[i] != '\n' {
        comment_end(s, i + 1)
    } else {
        i
    }
}

fn skip_comment_text(s: &[char], i: usize) -> (r: usize)
    requires
        i <= s@.len(),
    ensures
        r == comment_end(s@, i as int),
        i <= r <= s@.len(),
{
    let mut j = i;
    while j < s.len() && s[j] != '\r' && s[j] != '\n'
        invariant
            i <= j <= s@.len(),
            comment_end(s@, j as int) == comment_end(s@, i as int),
        decreases s.len() - j,
    {
        j = j + 1;
    }
    j
}

/// The position after a line break (`"\r\n"` or `"\n"`) at `i`.
pub open spec fn newline_at(s: Seq<char>, i: int) -> Option<int> {
    if 0 <= i && i + 1 < s.len() && s[i] == '\r' && s[i + 1] == '\n' {
        Some(i + 2)
    } else if 0 <= i < s.len() && s[i] == '\n' {
        Some(i + 1)
    } else {
        None
    }
}

/// A line break, or the end of the text.
pub open spec fn newline_or_end(s: Seq<char>, i: int) -> Option<int> {
    match newline_at(s, i) {
        Some(j) => Some(j),
        None => if i == s.len() {
            Some(i)
        } else {
            None
        },
    }
}

/// After `i`: an optional `#` comment.
pub open spec fn skip_optional_comment(s: Seq<char>, i: int) -> int {
    if 0 <= i < s.len() && s[i] == '#' {
        comment_end(s, i + 1)
    } else {
        i
    }
}

/// The end of a statement's line: blanks, an optional comment, then a line break or the end.
pub open spec fn line_end(s: Seq<char>, i: int) -> Option<int> {
    newline_or_end(s, skip_optional_comment(s, blank_end(s, i)))
}

/// A line that holds nothing but blanks and an optional comment, and that either ends with a
/// line break or (when it holds a comment) ends the text.
pub open spec fn empty_line(s: Seq<char>, i: int) -> Option<int> {
    let j = blank_end(s, i);
    if 0 <= j < s.len() && s[j] == '#' {
        newline_or_end(s, comment_end(s, j + 1))
    } else {
        newline_at(s, j)
    }
}

fn exec_newline_at(s: &[char], i: usize) -> (r: Option<usize>)
    requires
        i <= s@.len(),
    ensures
        r matches Some(j) ==> j <= s@.len(),
        match r {
            Some(j) => newline_at(s@, i as int) == Some(j as int),
            None => newline_at(s@, i as int).is_none(),
        },
{
    if i < s.len() && s.len() - i >= 2 && s[i] == '\r' && s[i + 1] == '\n' {
        Some(i + 2)
    } else if i < s.len() && s[i] == '\n' {
        Some(i + 1)
    } else {
        None
    }
}

fn exec_newline_or_end(s: &[char], i: usize) -> (r: Option<usize>)
    requires
        i <= s@.len(),
    ensures
        r matches Some(j) ==> j <= s@.len(),
        match r {
            Some(j) => newline_or_end(s@, i as int) == Some(j as int),
            None => newline_or_end(s@, i as int).is_none(),
        },
{
    match exec_newline_at(s, i) {
        Some(j) => Some(j),
        None => if i == s.len() {
            Some(i)
        } else {
            None
        },
    }
}

pub fn exec_line_end(s: &[char], i: usize) -> (r: Option<usize>)
    requires
        i <= s@.len(),
    ensures
        r matches Some(j) ==> i <= j <= s@.len(),
        match r {
            Some(j) => line_end(s@, i as int) == Some(j as int),
            None => line_end(s@, i as int).is_none(),
        },
{
    let j = skip_blanks(s, i);
    let k = if j < s.len() && s[j] == '#' {
        skip_comment_text(s, j + 1)
    } else {
        j
    };
    exec_newline_or_end(s, k)
}

pub fn exec_empty_line(s: &[char], i: usize) -> (r: Option<usize>)
    requires
        i <= s@.len(),
    ensures
        r matches Some(j) ==> i < j <= s@.len(),
        match r {
            Some(j) => empty_line(s@, i as int) == Some(j as int),
            None => empty_line(s@, i as int).is_none(),
        },
{
    let j = skip_blanks(s, i);
    if j < s.len() && s[j] == '#' {
        let k = skip_comment_text(s, j + 1);
        exec_newline_or_end(s, k)
    } else {
        exec_newline_at(s, j)
    }
}

// ---------------------------------------------------------------------------------------------
// Quoted strings
// ---------------------------------------------------------------------------------------------
pub open spec fn is_escape(c: char) -> bool {
    c == 'n' || c == 'r' || c == 't' || c == '"' || c == '\\'
}

pub open spec fn unescape(c: char) -> char {
    if c == 'n' {
        '\n'
    } else if c == 'r' {
        '\r'
    } else if c == 't' {
        '\t'
    } else {
        c
    }
}

/// The rest of a quoted string from `j`: its unescaped text and the position after the closing
/// quote. Escapes are `\n`, `\r`, `\t`, `\"` and `\\`; any other escape is an error.
pub open spec fn string_body(s: Seq<char>, j: int) -> Option<(Seq<char>, int)>
    decreases s.len() - j,
{
    if j < 0 || j >= s.len() {
        None
    } else if s[j] == '"' {
        Some((Seq::empty(), j + 1))
    } else if s[j] == '\\' {
        if j + 1 < s.len() && is_escape(s[j + 1]) {
            prepend(seq![unescape(s[j + 1])], string_body(s, j + 2))
        } else {
            None
        }
    } else {
        prepend(seq![s[j]], string_body(s, j + 1))
    }
}

/// A quoted string that starts at `i`.
pub open spec fn string_literal(s: Seq<char>, i: int) -> Option<(Seq<char>, int)> {
    if 0 <= i < s.len() && s[i] == '"' {
        string_body(s, i + 1)
    } else {
        None
    }
}

fn exec_unescape(c: char) -> (r: char)
    ensures
        r == unescape(c),
{
    if c == 'n' {
        '\n'
    } else if c == 'r' {
        '\r'
    } else if c == 't' {
        '\t'
    } else {
        c
    }
}

pub fn parse_string_literal(s: &[char], i: usize) -> (r: Option<(Vec<char>, usize)>)
    requires
        i <= s@.len(),
    ensures
        tok_view(r) == string_literal(s@, i as int),
        r matches Some((_, j)) ==> i < j <= s@.len(),
{
    if !(i < s.len() && s[i] == '"') {
        return None;
    }
    let mut acc: Vec<char> = Vec::new();
    let mut j = i + 1;
    proof {
        lemma_prepend_empty(string_body(s@, j as int));
    }
    while j < s.len()
        invariant
            i < j <= s@.len(),
            s@[i as int] == '"',
            prepend(acc@, string_body(s@, j as int)) == string_body(s@, i + 1),
        decreases s.len() - j,
    {
        let c = s[j];
        if c == '"' {
            proof {
                assert(string_body(s@, j as int) == Some((Seq::<char>::empty(), j + 1)));
                assert(acc@ + Seq::<char>::empty() =~= acc@);
                assert(string_literal(s@, i as int) == string_body(s@, i + 1));
                assert(prepend(acc@, Some((Seq::<char>::empty(), j + 1))) == Some((acc@, j + 1)));
            }
            return Some((acc, j + 1));
        } else if c == '\\' {
            if j + 1 < s.len() && (s[j + 1] == 'n' || s[j + 1] == 'r' || s[j + 1] == 't' || s[j
                + 1] == '"' || s[j + 1] == '\\') {
                let ghost old_acc = acc@;
                acc.push(exec_unescape(s[j + 1]));
                proof {
                    lemma_prepend_assoc(old_acc, seq![unescape(s@[j + 1])], string_body(s@, j + 2));
                    assert(old_acc + seq![unescape(s@[j + 1])] =~= acc@);
                }
                j = j + 2;
            } else {
                return None;
            }
        } else {
            let ghost old_acc = acc@;
            acc.push(c);
            proof {
                lemma_prepend_assoc(old_acc, seq![c], string_body(s@, j + 1));
                assert(old_acc + seq![c] =~= acc@);
            }
            j = j + 1;
        }
    }
    None
}

/// How a character is written inside a quoted string: a line feed as `\n`, a carriage return
/// as `\r`, a tab as `\t`, a quote as `\"`, a backslash as `\\`, any other character as
/// itself.
pub open spec fn quoted_char(c: char) -> Seq<char> {
    if c == '\n' {
        seq!['\\', 'n']
    } else if c == '\r' {
        seq!['\\', 'r']
    } else if c == '\t' {
        seq!['\\', 't']
    } else if c == '"' {
        seq!['\\', '"']
    } else if c == '\\' {
        seq!['\\', '\\']
    } else {
        seq![c]
    }
}

/// A text written as the inside of a quoted string.
pub open spec fn quoted_text(t: Seq<char>) -> Seq<char>
    decreases t.len(),
{
    if t.len() == 0 {
        Seq::empty()
    } else {
        quoted_char(t[0]) + quoted_text(t.drop_first())
    }
}

proof fn lemma_quoted_body(q: Seq<char>, t: Seq<char>, rest: Seq<char>)
    ensures
        string_body(q + quoted_text(t) + seq!['"'] + rest, q.len() as int) == Some(
            (t, (q.len() + quoted_text(t).len() + 1) as int),
        ),
    decreases t.len(),
{
    let s = q + quoted_text(t) + seq!['"'] + rest;
    if t.len() == 0 {
        assert(s[q.len() as int] == '"');
    } else {
        let c = t[0];
        let w = quoted_char(c);
        let q2 = q + w;
        assert(quoted_text(t) == w + quoted_text(t.drop_first()));
        assert(s =~= q2 + quoted_text(t.drop_first()) + seq!['"'] + rest);
        lemma_quoted_body(q2, t.drop_first(), rest);
        assert(s[q.len() as int] == w[0]);
        if w.len() == 2 {
            assert(s[q.len() as int + 1] == w[1]);
            assert(is_escape(w[1]) && unescape(w[1]) == c);
        } else {
            assert(w[0] == c);
        }
        assert(seq![c] + t.drop_first() =~= t);
    }
}

/// Reading a quoted string gives back the text it writes: for every text `t`, a quote, `t`
/// with its line feeds, carriage returns, tabs, quotes and backslashes written as `\n`, `\r`,
/// `\t`, `\"` and `\\`, and a closing quote read as the string `t`, ending after that quote.
pub proof fn law_quoted_string_round_trip(t: Seq<char>, rest: Seq<char>)
    ensures
        string_literal(seq!['"'] + quoted_text(t) + seq!['"'] + rest, 0) == Some(
            (t, (quoted_text(t).len() + 2) as int),
        ),
{
    lemma_quoted_body(seq!['"'], t, rest);
}

/// Each escape of a quoted string stands for one character: `\n` a line feed, `\r` a carriage
/// return (U+000D), `\t` a tab, `\"` a quote and `\\` a backslash, the reading going on
/// after the escape.
pub proof fn law_escapes(s: Seq<char>, j: int)
    requires
        0 <= j,
        j + 1 < s.len(),
        s[j] == '\\',
    ensures
        s[j + 1] == 'n' ==> string_body(s, j) == prepend(seq!['\n'], string_body(s, j + 2)),
        s[j + 1] == 'r' ==> string_body(s, j) == prepend(seq!['\r'], string_body(s, j + 2)),
        s[j + 1] == 't' ==> string_body(s, j) == prepend(seq!['\t'], string_body(s, j + 2)),
        s[j + 1] == '"' ==> string_body(s, j) == prepend(seq!['"'], string_body(s, j + 2)),
        s[j + 1] == '\\' ==> string_body(s, j) == prepend(seq!['\\'], string_body(s, j + 2)),
{
}

// ---------------------------------------------------------------------------------------------
// Regular-expression literals: r"..."
// ---------------------------------------------------------------------------------------------
/// The rest of a regex literal from `j`: `\"` stands for `"`; every other character, a lone
/// backslash included, stands for itself; the first unescaped `"` closes it.
pub open spec fn regex_body(s: Seq<char>, j: int) -> Option<(Seq<char>, int)>
    decreases s.len() - j,
{
    if j < 0 || j >= s.len() {
        None
    } else if s[j] == '\\' && j + 1 < s.len() && s[j + 1] == '"' {
        prepend(seq!['"'], regex_body(s, j + 2))
    } else if s[j] == '"' {
        Some((Seq::empty(), j + 1))
    } else {
        prepend(seq![s[j]], regex_body(s, j + 1))
    }
}

/// A regex literal `r"..."` that starts at `i`.
pub open spec fn regex_literal(s: Seq<char>, i: int) -> Option<(Seq<char>, int)> {
    if 0 <= i && i + 1 < s.len() && s[i] == 'r' && s[i + 1] == '"' {
        regex_body(s, i + 2)
    } else {
        None
    }
}

pub fn parse_regex_literal(s: &[char], i: usize) -> (r: Option<(Vec<char>, usize)>)
    requires
        i <= s@.len(),
    ensures
        tok_view(r) == regex_literal(s@, i as int),
        r matches Some((_, j)) ==> i < j <= s@.len(),
{
    if !(i < s.len() && s.len() - i >= 2 && s[i] == 'r' && s[i + 1] == '"') {
        return None;
    }
    let mut acc: Vec<char> = Vec::new();
    let mut j = i + 2;
    proof {
        lemma_prepend_empty(regex_body(s@, j as int));
    }
    while j < s.len()
        invariant
            i + 2 <= j <= s@.len(),
            s@[i as int] == 'r' && s@[i + 1] == '"',
            prepend(acc@, regex_body(s@, j as int)) == regex_body(s@, i + 2),
        decreases s.len() - j,
    {
        let c = s[j];
        if c == '\\' && j + 1 < s.len() && s[j + 1] == '"' {
            let ghost old_acc = acc@;
            acc.push('"');
            proof {
                lemma_prepend_assoc(old_acc, seq!['"'], regex_body(s@, j + 2));
                assert(old_acc + seq!['"'] =~= acc@);
            }
            j = j + 2;
        } else if c == '"' {
            proof {
                assert(regex_body(s@, j as int) == Some((Seq::<char>::empty(), j + 1)));
                assert(acc@ + Seq::<char>::empty() =~= acc@);
                assert(regex_literal(s@, i as int) == regex_body(s@, i + 2));
                assert(prepend(acc@, Some((Seq::<char>::empty(), j + 1))) == Some((acc@, j + 1)));
            }
            return Some((acc, j + 1));
        } else {
            let ghost old_acc = acc@;
            acc.push(c);
            proof {
                lemma_prepend_assoc(old_acc, seq![c], regex_body(s@, j + 1));
                assert(old_acc + seq![c] =~= acc@);
            }
            j = j + 1;
        }
    }
    None
}

// ---------------------------------------------------------------------------------------------
// Unquoted tokens
// ---------------------------------------------------------------------------------------------
/// Characters that end an unquoted path operand.
pub open spec fn ends_path_token(c: char) -> bool {
    c == ' ' || c == '\t' || c == '\n' || c == '\r' || c == '#' || c == '"'
}

/// Characters that end an unquoted file path before `:`.
pub open spec fn ends_path_tail(c: char) -> bool {
    ends_path_token(c) || c == ':'
}

pub open spec fn path_token_end(s: Seq<char>, i: int) -> int
    decreases s.len() - i,
{
    if 0 <= i < s.len() && !ends_path_token(s[i]) {
        path_token_end(s, i + 1)
    } else {
        i
    }
}

pub open spec fn path_tail_end(s: Seq<char>, i: int) -> int
    decreases s.len() - i,
{
    if 0 <= i < s.len() && !ends_path_tail(s[i]) {
        path_tail_end(s, i + 1)
    } else {
        i
    }
}

/// A non-empty unquoted path operand.
pub open spec fn path_token(s: Seq<char>, i: int) -> Option<(Seq<char>, int)> {
    let e = path_token_end(s, i);
    if e > i {
        Some((s.subrange(i, e), e))
    } else {
        None
    }
}

/// A non-empty unquoted file path that stops at `:`.
pub open spec fn path_tail(s: Seq<char>, i: int) -> Option<(Seq<char>, int)> {
    let e = path_tail_end(s, i);
    if e > i {
        Some((s.subrange(i, e), e))
    } else {
        None
    }
}

pub fn parse_path_token(s: &[char], i: usize) -> (r: Option<(Vec<char>, usize)>)
    requires
        i <= s@.len(),
    ensures
        tok_view(r) == path_token(s@, i as int),
        r matches Some((_, j)) ==> i < j <= s@.len(),
{
    let mut j = i;
    while j < s.len() && !(s[j] == ' ' || s[j] == '\t' || s[j] == '\n' || s[j] == '\r' || s[j]
        == '#' || s[j] == '"')
        invariant
            i <= j <= s@.len(),
            path_token_end(s@, j as int) == path_token_end(s@, i as int),
        decreases s.len() - j,
    {
        j = j + 1;
    }
    if j > i {
        Some((crate::text::copy_range(s, i, j), j))
    } else {
        None
    }
}

pub fn parse_path_tail(s: &[char], i: usize) -> (r: Option<(Vec<char>, usize)>)
    requires
        i <= s@.len(),
    ensures
        tok_view(r) == path_tail(s@, i as int),
        r matches Some((_, j)) ==> i < j <= s@.len(),
{
    let mut j = i;
    while j < s.len() && !(s[j] == ' ' || s[j] == '\t' || s[j] == '\n' || s[j] == '\r' || s[j]
        == '#' || s[j] == '"' || s[j] == ':')
        invariant
            i <= j <= s@.len(),
            path_tail_end(s@, j as int) == path_tail_end(s@, i as int),
        decreases s.len() - j,
    {
        j = j + 1;
    }
    if j > i {
        Some((crate::text::copy_range(s, i, j), j))
    } else {
        None
    }
}

/// A path operand: a quoted string, or else an unquoted path token.
pub open spec fn path_operand(s: Seq<char>, i: int) -> Option<(Seq<char>, int)> {
    if 0 <= i < s.len() && s[i] == '"' {
        string_literal(s, i)
    } else {
        path_token(s, i)
    }
}

pub fn parse_path_operand(s: &[char], i: usize) -> (r: Option<(Vec<char>, usize)>)
    requires
        i <= s@.len(),
    ensures
        tok_view(r) == path_operand(s@, i as int),
        r matches Some((_, j)) ==> i < j <= s@.len(),
{
    if i < s.len() && s[i] == '"' {
        parse_string_literal(s, i)
    } else {
        parse_path_token(s, i)
    }
}

pub open spec fn is_ascii_alphabetic(c: char) -> bool {
    ('a' <= c && c <= 'z') || ('A' <= c && c <= 'Z')
}

/// A file path as a line target: a quoted string; else a drive-letter path `X:tail`; else an
/// unquoted path that stops at `:`.
pub open spec fn path_text_target(s: Seq<char>, i: int) -> Option<(Seq<char>, int)> {
    if 0 <= i < s.len() && s[i] == '"' {
        string_literal(s, i)
    } else if 0 <= i && i + 1 < s.len() && is_ascii_alphabetic(s[i]) && s[i + 1] == ':'
        && path_tail(s, i + 2).is_some() {
        prepend(seq![s[i], ':'], path_tail(s, i + 2))
    } else {
        path_tail(s, i)
    }
}

pub fn parse_path_text_target(s: &[char], i: usize) -> (r: Option<(Vec<char>, usize)>)
    requires
        i <= s@.len(),
    ensures
        tok_view(r) == path_text_target(s@, i as int),
        r matches Some((_, j)) ==> i < j <= s@.len(),
{
    if i < s.len() && s[i] == '"' {
        return parse_string_literal(s, i);
    }
    if i < s.len() && s.len() - i >= 2 && (('a' <= s[i] && s[i] <= 'z') || ('A' <= s[i] && s[i] <= 'Z')) && s[i
        + 1] == ':' {
        match parse_path_tail(s, i + 2) {
            Some((tail, j)) => {
                let mut out: Vec<char> = Vec::new();
                out.push(s[i]);
                out.push(':');
                crate::text::push_all(&mut out, &tail);
                proof {
                    assert(out@ =~= seq![s@[i as int], ':'] + tail@);
                }
                return Some((out, j));
            },
            None => {},
        }
    }
    parse_path_tail(s, i)
}

// ---------------------------------------------------------------------------------------------
// Numbers
// ---------------------------------------------------------------------------------------------
pub open spec fn is_digit(c: char) -> bool {
    '0' <= c && c <= '9'
}

pub open spec fn digit_value(c: char) -> nat {
    (c as u32 - '0' as u32) as nat
}

pub open spec fn digits_end(s: Seq<char>, i: int) -> int
    decreases s.len() - i,
{
    if 0 <= i < s.len() && is_digit(s[i]) {
        digits_end(s, i + 1)
    } else {
        i
    }
}

/// The value of the decimal digits `s[i..e]`.
pub open spec fn digits_value(s: Seq<char>, i: int, e: int) -> nat
    decreases e - i,
{
    if e <= i {
        0
    } else {
        digits_value(s, i, e - 1) * 10 + digit_value(s[e - 1])
    }
}

/// A decimal integer: `0`, or a non-zero digit followed by digits; its value must fit in a
/// `usize`.
pub open spec fn number(s: Seq<char>, i: int) -> Option<(nat, int)> {
    if 0 <= i < s.len() && s[i] == '0' {
        Some((0nat, i + 1))
    } else if 0 <= i < s.len() && '1' <= s[i] && s[i] <= '9' {
        let e = digits_end(s, i);
        if digits_value(s, i, e) <= usize::MAX {
            Some((digits_value(s, i, e), e))
        } else {
            None
        }
    } else {
        None
    }
}

proof fn lemma_digits_value_grows(s: Seq<char>, i: int, k: int, e: int)
    requires
        i <= k <= e,
        forall|x: int| i <= x < e ==> is_digit(#[trigger] s[x]),
    ensures
        digits_value(s, i, k) <= digits_value(s, i, e),
    decreases e - k,
{
    if k < e {
        lemma_digits_value_grows(s, i, k + 1, e);
    }
}

proof fn lemma_digits_end_all_digits(s: Seq<char>, i: int)
    requires
        0 <= i <= s.len(),
    ensures
        i <= digits_end(s, i) <= s.len(),
        forall|x: int| i <= x < digits_end(s, i) ==> is_digit(#[trigger] s[x]),
        digits_end(s, i) < s.len() ==> !is_digit(s[digits_end(s, i)]),
    decreases s.len() - i,
{
    if i < s.len() && is_digit(s[i]) {
        lemma_digits_end_all_digits(s, i + 1);
    }
}

pub fn parse_number(s: &[char], i: usize) -> (r: Option<(usize, usize)>)
    requires
        i <= s@.len(),
    ensures
        match r {
            Some((v, j)) => number(s@, i as int) == Some((v as nat, j as int)),
            None => number(s@, i as int).is_none(),
        },
        r matches Some((_, j)) ==> i < j <= s@.len(),
{
    if i < s.len() && s[i] == '0' {
        return Some((0, i + 1));
    }
    if !(i < s.len() && '1' <= s[i] && s[i] <= '9') {
        return None;
    }
    proof {
        lemma_digits_end_all_digits(s@, i as int);
    }
    let ghost e = digits_end(s@, i as int);
    let mut j = i;
    let mut v: usize = 0;
    while j < s.len() && '0' <= s[j] && s[j] <= '9'
        invariant
            i <= j <= e <= s@.len(),
            i < s@.len(),
            '1' <= s@[i as int] && s@[i as int] <= '9',
            e == digits_end(s@, i as int),
            forall|x: int| i <= x < e ==> is_digit(#[trigger] s@[x]),
            digits_end(s@, j as int) == e,
            v == digits_value(s@, i as int, j as int),
        decreases s.len() - j,
    {
        let d = (s[j] as u32 - '0' as u32) as usize;
        assert(j < e) by {
            assert(is_digit(s@[j as int]));
            lemma_digits_end_all_digits(s@, j + 1);
            assert(digits_end(s@, j as int) == digits_end(s@, j + 1));
        }
        assert(d == digit_value(s@[j as int]));
        assert(digits_value(s@, i as int, j + 1) == v * 10 + d);
        match v.checked_mul(10) {
            Some(t) => match t.checked_add(d) {
                Some(u) => {
                    v = u;
                },
                None => {
                    proof {
                        lemma_digits_value_grows(s@, i as int, j + 1, e);
                    }
                    return None;
                },
            },
            None => {
                proof {
                    lemma_digits_value_grows(s@, i as int, j + 1, e);
                }
                return None;
            },
        }
        j = j + 1;
    }
    Some((v, j))
}

} // verus!
