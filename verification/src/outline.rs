//! Outlines of source files: the items of a file, how they are selected and rendered.
use vstd::prelude::*;

use crate::error::SmartEditError;
use crate::matchers::{glob_compiles, glob_path_matches, GlobPattern};
use crate::syntax::SyntaxTree;
use crate::text::{
    all_white_space, char_is_white_space, chars_of, decimal, is_white_space, push_all,
    push_decimal, push_range, push_str, string_of, trim_end_of,
};

verus! {

/// A language whose files can be outlined.
#[derive(Debug, Clone, Copy, PartialEq, Eq, Structural)]
pub enum AstLanguage {
    Rust,
    Python,
    JavaScript,
    TypeScript,
    Tsx,
    Go,
    Scala,
    Java,
    Kotlin,
    Lua,
}

/// The language that a file extension names.
pub open spec fn language_for_extension(ext: Seq<char>) -> Option<AstLanguage> {
    if ext == "rs"@ {
        Some(AstLanguage::Rust)
    } else if ext == "py"@ || ext == "pyi"@ {
        Some(AstLanguage::Python)
    } else if ext == "js"@ || ext == "mjs"@ || ext == "cjs"@ || ext == "jsx"@ {
        Some(AstLanguage::JavaScript)
    } else if ext == "ts"@ || ext == "mts"@ || ext == "cts"@ {
        Some(AstLanguage::TypeScript)
    } else if ext == "tsx"@ {
        Some(AstLanguage::Tsx)
    } else if ext == "go"@ {
        Some(AstLanguage::Go)
    } else if ext == "scala"@ || ext == "sc"@ {
        Some(AstLanguage::Scala)
    } else if ext == "java"@ {
        Some(AstLanguage::Java)
    } else if ext == "kt"@ || ext == "kts"@ {
        Some(AstLanguage::Kotlin)
    } else if ext == "lua"@ {
        Some(AstLanguage::Lua)
    } else {
        None
    }
}

/// The extension of the last component of a path, as `Path::extension` finds it: the text
/// after the last `.` of the file name (trailing `/` ignored), unless that `.` begins the name.
pub open spec fn path_extension(path: Seq<char>) -> Option<Seq<char>> {
    match crate::fspath::path_file_name(path) {
        Some(name) => match last_dot(name, name.len() as int) {
            Some(d) => if d > 0 {
                Some(name.subrange(d + 1, name.len() as int))
            } else {
                None
            },
            None => None,
        },
        None => None,
    }
}

proof fn lemma_last_slash_skip(t: Seq<char>, a: int, e: int)
    requires
        0 <= a <= e <= t.len(),
        forall|i: int| a <= i < e ==> t[i] != '/',
    ensures
        crate::paths::last_slash(t, e) == crate::paths::last_slash(t, a),
    decreases e - a,
{
    if e > a {
        lemma_last_slash_skip(t, a, e - 1);
    }
}

proof fn lemma_last_dot_skip(t: Seq<char>, a: int, e: int)
    requires
        0 <= a <= e <= t.len(),
        forall|i: int| a <= i < e ==> t[i] != '.',
    ensures
        last_dot(t, e) == last_dot(t, a),
    decreases e - a,
{
    if e > a {
        lemma_last_dot_skip(t, a, e - 1);
    }
}

/// The extension that names a file's language is the text after the last `.` of its name.
proof fn lemma_language_of_named_path(dir: Seq<char>, stem: Seq<char>, ext: Seq<char>)
    requires
        dir.len() == 0 || dir.last() == '/',
        stem.len() > 0,
        forall|i: int| 0 <= i < stem.len() ==> stem[i] != '/',
        forall|i: int| 0 <= i < ext.len() ==> ext[i] != '/' && ext[i] != '.',
    ensures
        ext.len() > 0 ==> language_of_path(dir + stem + seq!['.'] + ext) == language_for_extension(ext),
        ext.len() == 0 ==> language_of_path(dir + stem + seq!['.'] + ext) is None || language_of_path(
            dir + stem + seq!['.'] + ext,
        ) == language_for_extension(ext),
{
    let p = dir + stem + seq!['.'] + ext;
    let n = p.len() as int;
    let dl = dir.len() as int;
    let name = stem + seq!['.'] + ext;
    assert(p[n - 1] != '/') by {
        if ext.len() > 0 {
            assert(p[n - 1] == ext[ext.len() - 1]);
        } else {
            assert(p[n - 1] == '.');
        }
    }
    assert(crate::fspath::slashes_trimmed(p, n) == n);
    assert forall|i: int| dl <= i < n implies p[i] != '/' by {
        if i < dl + stem.len() {
            assert(p[i] == stem[i - dl]);
        } else if i > dl + stem.len() {
            assert(p[i] == ext[i - dl - stem.len() - 1]);
        }
    }
    lemma_last_slash_skip(p, dl, n);
    if dl > 0 {
        assert(p[dl - 1] == dir[dl - 1]);
    }
    assert(p.subrange(dl, n) =~= name);
    assert(dl == 0 ==> p.subrange(0, n) =~= name);
    if name == seq!['.', '.'] {
        assert(ext.len() == 0);
        assert(crate::fspath::path_file_name(p) is None);
        assert(path_extension(p) is None);
        assert(language_of_path(p) is None);
    } else {
        assert(crate::fspath::path_file_name(p) == Some(name));
        let sl = stem.len() as int;
        assert forall|i: int| sl + 1 <= i < name.len() implies name[i] != '.' by {
            assert(name[i] == ext[i - sl - 1]);
        }
        lemma_last_dot_skip(name, sl + 1, name.len() as int);
        assert(name[sl] == '.');
        assert(last_dot(name, sl + 1) == Some(sl));
        assert(name.subrange(sl + 1, name.len() as int) =~= ext);
        assert(path_extension(p) == Some(ext));
    }
}

#[verifier::rlimit(60)]
proof fn lemma_extension_table(ext: Seq<char>)
    ensures
        ({
            let r = language_for_extension(ext);
            &&& ext == "rs"@ ==> r == Some(AstLanguage::Rust)
            &&& ext == "py"@ || ext == "pyi"@ ==> r == Some(AstLanguage::Python)
            &&& ext == "js"@ || ext == "mjs"@ || ext == "cjs"@ || ext == "jsx"@ ==> r == Some(
                AstLanguage::JavaScript,
            )
            &&& ext == "ts"@ || ext == "mts"@ || ext == "cts"@ ==> r == Some(AstLanguage::TypeScript)
            &&& ext == "tsx"@ ==> r == Some(AstLanguage::Tsx)
            &&& ext == "go"@ ==> r == Some(AstLanguage::Go)
            &&& ext == "scala"@ || ext == "sc"@ ==> r == Some(AstLanguage::Scala)
            &&& ext == "java"@ ==> r == Some(AstLanguage::Java)
            &&& ext == "kt"@ || ext == "kts"@ ==> r == Some(AstLanguage::Kotlin)
            &&& ext == "lua"@ ==> r == Some(AstLanguage::Lua)
            &&& ext.len() == 0 ==> r is None
        }),
{
    reveal_strlit("rs");
    reveal_strlit("py");
    reveal_strlit("pyi");
    reveal_strlit("js");
    reveal_strlit("mjs");
    reveal_strlit("cjs");
    reveal_strlit("jsx");
    reveal_strlit("ts");
    reveal_strlit("mts");
    reveal_strlit("cts");
    reveal_strlit("tsx");
    reveal_strlit("go");
    reveal_strlit("scala");
    reveal_strlit("sc");
    reveal_strlit("java");
    reveal_strlit("kt");
    reveal_strlit("kts");
    reveal_strlit("lua");
    assert(ext.len() == 2 ==> ext =~= seq![ext[0], ext[1]]);
    assert(ext.len() == 3 ==> ext =~= seq![ext[0], ext[1], ext[2]]);
}

/// The language of a file is named by its extension, whatever directory holds it: `rs` is
/// Rust; `py` and `pyi` Python; `js`, `mjs`, `cjs` and `jsx` JavaScript; `ts`, `mts` and `cts`
/// TypeScript; `tsx` TSX; `go` Go; `scala` and `sc` Scala; `java` Java; `kt` and `kts` Kotlin;
/// `lua` Lua; any other extension (or none after the last `.`) names no language.
pub proof fn law_language_by_extension(dir: Seq<char>, stem: Seq<char>, ext: Seq<char>)
    requires
        dir.len() == 0 || dir.last() == '/',
        stem.len() > 0,
        forall|i: int| 0 <= i < stem.len() ==> stem[i] != '/',
        forall|i: int| 0 <= i < ext.len() ==> ext[i] != '/' && ext[i] != '.',
    ensures
        ({
            let r = language_of_path(dir + stem + seq!['.'] + ext);
            &&& ext == "rs"@ ==> r == Some(AstLanguage::Rust)
            &&& ext == "py"@ || ext == "pyi"@ ==> r == Some(AstLanguage::Python)
            &&& ext == "js"@ || ext == "mjs"@ || ext == "cjs"@ || ext == "jsx"@ ==> r == Some(
                AstLanguage::JavaScript,
            )
            &&& ext == "ts"@ || ext == "mts"@ || ext == "cts"@ ==> r == Some(AstLanguage::TypeScript)
            &&& ext == "tsx"@ ==> r == Some(AstLanguage::Tsx)
            &&& ext == "go"@ ==> r == Some(AstLanguage::Go)
            &&& ext == "scala"@ || ext == "sc"@ ==> r == Some(AstLanguage::Scala)
            &&& ext == "java"@ ==> r == Some(AstLanguage::Java)
            &&& ext == "kt"@ || ext == "kts"@ ==> r == Some(AstLanguage::Kotlin)
            &&& ext == "lua"@ ==> r == Some(AstLanguage::Lua)
            &&& !(ext == "rs"@ || ext == "py"@ || ext == "pyi"@ || ext == "js"@ || ext == "mjs"@
                || ext == "cjs"@ || ext == "jsx"@ || ext == "ts"@ || ext == "mts"@ || ext
                == "cts"@ || ext == "tsx"@ || ext == "go"@ || ext == "scala"@ || ext == "sc"@
                || ext == "java"@ || ext == "kt"@ || ext == "kts"@ || ext == "lua"@) ==> r is None
        }),
{
    lemma_language_of_named_path(dir, stem, ext);
    lemma_extension_table(ext);
}

/// Position of the last `.` before `i`.
pub open spec fn last_dot(name: Seq<char>, i: int) -> Option<int>
    decreases i,
{
    if i <= 0 {
        None
    } else if name[i - 1] == '.' {
        Some(i - 1)
    } else {
        last_dot(name, i - 1)
    }
}

fn find_last_dot(name: &[char]) -> (r: Option<usize>)
    ensures
        r matches Some(d) ==> last_dot(name@, name@.len() as int) == Some(d as int) && d < name@.len(),
        r is None ==> last_dot(name@, name@.len() as int).is_none(),
{
    let mut i = name.len();
    while i > 0 && name[i - 1] != '.'
        invariant
            i <= name@.len(),
            last_dot(name@, name@.len() as int) == last_dot(name@, i as int),
        decreases i,
    {
        i = i - 1;
    }
    if i == 0 {
        None
    } else {
        Some(i - 1)
    }
}

/// The language of a path, by its extension.
pub open spec fn language_of_path(path: Seq<char>) -> Option<AstLanguage> {
    match path_extension(path) {
        Some(ext) => language_for_extension(ext),
        None => None,
    }
}

impl AstLanguage {
    /// The language of a path, by its extension.
    pub fn from_path(path: &str) -> (r: Option<Self>)
        ensures
            r == language_of_path(path@),
    {
        let name = match crate::fspath::file_name(path) {
            Some(n) => chars_of(n.as_str()),
            None => return None,
        };
        let name_len = name.len();
        let ext = match find_last_dot(&name) {
            Some(d) => {
                if d > 0 {
                    crate::text::copy_range(&name, d + 1, name_len)
                } else {
                    return None;
                }
            },
            None => return None,
        };
        let eq = |s: &str| -> (b: bool)
            ensures
                b == (ext@ == s@),
            { crate::text::chars_eq_str(&ext, s) };
        if eq("rs") {
            Some(AstLanguage::Rust)
        } else if eq("py") || eq("pyi") {
            Some(AstLanguage::Python)
        } else if eq("js") || eq("mjs") || eq("cjs") || eq("jsx") {
            Some(AstLanguage::JavaScript)
        } else if eq("ts") || eq("mts") || eq("cts") {
            Some(AstLanguage::TypeScript)
        } else if eq("tsx") {
            Some(AstLanguage::Tsx)
        } else if eq("go") {
            Some(AstLanguage::Go)
        } else if eq("scala") || eq("sc") {
            Some(AstLanguage::Scala)
        } else if eq("java") {
            Some(AstLanguage::Java)
        } else if eq("kt") || eq("kts") {
            Some(AstLanguage::Kotlin)
        } else if eq("lua") {
            Some(AstLanguage::Lua)
        } else {
            None
        }
    }
}

/// What a rendering shows beside each item's summary.
#[derive(Debug, Clone, Copy, PartialEq, Eq)]
pub struct AstRenderOptions {
    pub include_signatures: bool,
    pub include_type_bodies: bool,
    pub include_function_bodies: bool,
    pub include_docs: bool,
    pub include_locations: bool,
}

impl AstRenderOptions {
    /// Summaries only.
    pub fn basic() -> (o: Self)
        ensures
            !o.include_signatures && !o.include_type_bodies && !o.include_function_bodies
                && !o.include_docs && !o.include_locations,
    {
        AstRenderOptions {
            include_signatures: false,
            include_type_bodies: false,
            include_function_bodies: false,
            include_docs: false,
            include_locations: false,
        }
    }
}

impl Default for AstRenderOptions {
    fn default() -> (o: Self)
        ensures
            !o.include_signatures && !o.include_type_bodies && !o.include_function_bodies
                && !o.include_docs && !o.include_locations,
    {
        Self::basic()
    }
}

/// Location of the first syntax recovery node reported by Tree-sitter.
///
/// Both coordinates are zero-based. `column` is a byte column, matching Tree-sitter's point
/// representation rather than a Unicode display column.
#[derive(Debug, Clone, Copy, PartialEq, Eq)]
pub struct AstSyntaxErrorLocation {
    pub line: usize,
    pub column: usize,
    /// Whether the parser reported a missing token rather than an explicit error node.
    pub is_missing: bool,
}

/// A zero-based, half-open whole-line source range.
#[derive(Debug, Clone, Copy, PartialEq, Eq)]
pub struct AstLocationRange {
    /// First included line.
    pub start_line: usize,
    /// First line after the item.
    pub end_line: usize,
    /// Whether no unrelated source shares either boundary line.
    pub is_edit_ready: bool,
}

/// The display form of a location: `start-end`, followed by ` shared-line` when the range is
/// not safe for a whole-line edit.
pub open spec fn location_display(l: AstLocationRange) -> Seq<char> {
    decimal(l.start_line as nat) + "-"@ + decimal(l.end_line as nat) + (if l.is_edit_ready {
        Seq::empty()
    } else {
        " shared-line"@
    })
}

impl AstLocationRange {
    /// Converts two parse-tree points, each `(row, byte column)`, to a line range without
    /// claiming whole-line ownership: points alone cannot show that no other source shares
    /// either line.
    pub fn from_points(start: (usize, usize), end: (usize, usize)) -> (l: Self)
        requires
            end.1 > 0 ==> end.0 < usize::MAX,
        ensures
            l.start_line == start.0,
            l.end_line == end.0 + if end.1 > 0 {
                1int
            } else {
                0int
            },
            !l.is_edit_ready,
    {
        AstLocationRange {
            start_line: start.0,
            end_line: if end.1 > 0 {
                end.0 + 1
            } else {
                end.0
            },
            is_edit_ready: false,
        }
    }

    /// Formats the range, appending `shared-line` when it is not safe for a whole-line edit.
    pub fn display(self) -> (s: String)
        ensures
            s@ == location_display(self),
    {
        let v = self.display_chars();
        string_of(&v)
    }

    pub fn display_chars(self) -> (v: Vec<char>)
        ensures
            v@ == location_display(self),
    {
        let mut v: Vec<char> = Vec::new();
        push_decimal(&mut v, self.start_line);
        push_str(&mut v, "-");
        push_decimal(&mut v, self.end_line);
        if !self.is_edit_ready {
            push_str(&mut v, " shared-line");
        }
        proof {
            if self.is_edit_ready {
                assert(v@ =~= location_display(self));
            }
        }
        v
    }
}

/// The start of the line that holds offset `i`.
pub open spec fn line_start_of(s: Seq<char>, i: int) -> int
    decreases i,
{
    if i <= 0 {
        0
    } else if s[i - 1] == '\n' {
        i
    } else {
        line_start_of(s, i - 1)
    }
}

/// The offset of the `'\n'` that ends the line holding offset `i`, or the end of `s`.
pub open spec fn line_end_of(s: Seq<char>, i: int) -> int
    decreases s.len() - i,
{
    if i >= s.len() {
        s.len() as int
    } else if s[i] == '\n' {
        i
    } else {
        line_end_of(s, i + 1)
    }
}

/// Whether nothing but white space precedes offset `start` on its line and, when the range
/// ends inside a line (`end_column > 0`), nothing but white space follows offset `end` on its
/// line.
pub open spec fn span_owns_lines(s: Seq<char>, start: int, end: int, end_column: int) -> bool {
    &&& all_white_space(s.subrange(line_start_of(s, start), start))
    &&& (end_column != 0 ==> all_white_space(s.subrange(end, line_end_of(s, end))))
}

proof fn lemma_line_start_bounds(s: Seq<char>, i: int)
    requires
        0 <= i <= s.len(),
    ensures
        0 <= line_start_of(s, i) <= i,
    decreases i,
{
    if i > 0 && s[i - 1] != '\n' {
        lemma_line_start_bounds(s, i - 1);
    }
}

proof fn lemma_line_end_bounds(s: Seq<char>, i: int)
    requires
        0 <= i <= s.len(),
    ensures
        i <= line_end_of(s, i) <= s.len(),
    decreases s.len() - i,
{
    if i < s.len() && s[i] != '\n' {
        lemma_line_end_bounds(s, i + 1);
    }
}

/// The whole-line range of `source[start..end]`, ending at the point `(end_row, end_column)`:
/// it is edit-ready when only white space precedes the start on its line and only white space
/// follows the end on its line.
pub fn location_from_span(
    source: &[char],
    start_row: usize,
    end_row: usize,
    end_column: usize,
    start: usize,
    end: usize,
) -> (l: AstLocationRange)
    requires
        start <= source@.len(),
        end <= source@.len(),
    ensures
        l.start_line == start_row,
        l.end_line == end_row + if end_column > 0 {
            1int
        } else {
            0int
        } || (end_row == usize::MAX && l.end_line == end_row),
        l.is_edit_ready == span_owns_lines(source@, start as int, end as int, end_column as int),
{
    let end_line = if end_column > 0 && end_row < usize::MAX {
        end_row + 1
    } else {
        end_row
    };
    let ghost s = source@;
    let mut line_start = start;
    while line_start > 0 && source[line_start - 1] != '\n'
        invariant
            line_start <= start <= source@.len(),
            s == source@,
            line_start_of(s, start as int) == line_start_of(s, line_start as int),
        decreases line_start,
    {
        line_start = line_start - 1;
    }
    let mut starts_on_owned_line = true;
    let mut i = line_start;
    while i < start
        invariant
            line_start <= i <= start <= source@.len(),
            s == source@,
            starts_on_owned_line == (forall|k: int|
                line_start <= k < i ==> is_white_space(#[trigger] s[k])),
        decreases start - i,
    {
        if !char_is_white_space(source[i]) {
            starts_on_owned_line = false;
        }
        i = i + 1;
    }
    let mut ends_on_owned_line = true;
    let ghost mut j_end: int = end as int;
    if end_column != 0 {
        let mut j = end;
        while j < source.len() && source[j] != '\n'
            invariant
                end <= j <= source@.len(),
                s == source@,
                line_end_of(s, end as int) == line_end_of(s, j as int),
                ends_on_owned_line == (forall|k: int| end <= k < j ==> is_white_space(#[trigger] s[k])),
            decreases source.len() - j,
        {
            if !char_is_white_space(source[j]) {
                ends_on_owned_line = false;
            }
            j = j + 1;
        }
        proof {
            j_end = j as int;
        }
    }
    proof {
        assert(line_start_of(s, line_start as int) == line_start);
        let a = s.subrange(line_start as int, start as int);
        if starts_on_owned_line {
            assert forall|k: int| 0 <= k < a.len() implies is_white_space(#[trigger] a[k]) by {
                assert(a[k] == s[line_start + k]);
            }
        } else {
            let k = choose|k: int| line_start <= k < start && !is_white_space(#[trigger] s[k]);
            assert(a[k - line_start] == s[k]);
        }
        if end_column != 0 {
            let b = s.subrange(end as int, line_end_of(s, end as int));
            assert(line_end_of(s, j_end) == j_end);
            if ends_on_owned_line {
                assert forall|k: int| 0 <= k < b.len() implies is_white_space(#[trigger] b[k]) by {
                    assert(b[k] == s[end + k]);
                }
            } else {
                let k = choose|k: int| end <= k < j_end && !is_white_space(#[trigger] s[k]);
                assert(b[k - end] == s[k]);
            }
        }
    }
    AstLocationRange {
        start_line: start_row,
        end_line,
        is_edit_ready: starts_on_owned_line && ends_on_owned_line,
    }
}

/// The kind of an outlined item.
#[derive(Debug, Clone, Copy, PartialEq, Eq, Structural)]
pub enum AstItemKind {
    Function,
    Class,
    Interface,
    Struct,
    Enum,
    Union,
    TypeAlias,
    Trait,
    Impl,
    Module,
    Const,
    Static,
    Use,
    Macro,
    MacroInvocation,
    ForeignBlock,
    Field,
}

impl AstItemKind {
    pub open spec fn spec_supports_type_bodies(self) -> bool {
        match self {
            AstItemKind::Class | AstItemKind::Interface | AstItemKind::Struct | AstItemKind::Enum
            | AstItemKind::Union | AstItemKind::TypeAlias | AstItemKind::Trait | AstItemKind::Impl
            | AstItemKind::Module | AstItemKind::Const | AstItemKind::Static | AstItemKind::Macro
            | AstItemKind::ForeignBlock => true,
            _ => false,
        }
    }

    /// Whether a type body (the item's full source) may be rendered for this kind.
    pub fn supports_type_bodies(self) -> (r: bool)
        ensures
            r == self.spec_supports_type_bodies(),
    {
        match self {
            AstItemKind::Class | AstItemKind::Interface | AstItemKind::Struct | AstItemKind::Enum
            | AstItemKind::Union | AstItemKind::TypeAlias | AstItemKind::Trait | AstItemKind::Impl
            | AstItemKind::Module | AstItemKind::Const | AstItemKind::Static | AstItemKind::Macro
            | AstItemKind::ForeignBlock => true,
            _ => false,
        }
    }

    /// Whether a function body may be rendered for this kind.
    pub fn supports_function_bodies(self) -> (r: bool)
        ensures
            r == (self == AstItemKind::Function),
    {
        match self {
            AstItemKind::Function => true,
            _ => false,
        }
    }
}

/// One item of an outline.
#[derive(Debug)]
pub struct AstItem {
    pub kind: AstItemKind,
    pub name: Option<String>,
    pub associated_type: Option<String>,
    pub location: AstLocationRange,
    pub docs: Option<String>,
    pub inner_docs: Option<String>,
    pub attributes: Option<String>,
    pub source_preamble: Option<String>,
    pub summary: String,
    pub signature: Option<String>,
    pub body: Option<String>,
    pub children: Vec<AstItem>,
}

/// Selects items by their dotted paths (`-s`) or as types with their associated items (`-S`).
#[derive(Debug, Clone, PartialEq, Eq, Default)]
pub struct AstSelector {
    pub item_patterns: Vec<String>,
    pub type_patterns: Vec<String>,
}

/// The display form of a selector: `-s pattern` and `-S pattern` segments joined by `", "`.
pub open spec fn selector_display(items: Seq<String>, types: Seq<String>) -> Seq<char>
    decreases items.len() + types.len(),
{
    if types.len() > 0 {
        let before = selector_display(items, types.drop_last());
        (if items.len() + types.len() > 1 {
            before + ", "@
        } else {
            before
        }) + "-S "@ + types.last()@
    } else if items.len() > 0 {
        let before = selector_display(items.drop_last(), types);
        (if items.len() > 1 {
            before + ", "@
        } else {
            before
        }) + "-s "@ + items.last()@
    } else {
        Seq::empty()
    }
}

impl AstSelector {
    pub fn is_empty(&self) -> (r: bool)
        ensures
            r == (self.item_patterns@.len() == 0 && self.type_patterns@.len() == 0),
    {
        self.item_patterns.len() == 0 && self.type_patterns.len() == 0
    }

    pub fn display(&self) -> (s: String)
        ensures
            s@ == selector_display(self.item_patterns@, self.type_patterns@),
    {
        let mut out: Vec<char> = Vec::new();
        let mut i: usize = 0;
        while i < self.item_patterns.len()
            invariant
                i <= self.item_patterns@.len(),
                out@ == selector_display(self.item_patterns@.subrange(0, i as int), Seq::empty()),
            decreases self.item_patterns.len() - i,
        {
            let ghost before = out@;
            if i > 0 {
                push_str(&mut out, ", ");
            }
            push_str(&mut out, "-s ");
            push_str(&mut out, self.item_patterns[i].as_str());
            proof {
                let s = self.item_patterns@.subrange(0, i + 1);
                assert(s.drop_last() =~= self.item_patterns@.subrange(0, i as int));
                assert(s.last() == self.item_patterns@[i as int]);
                if i > 0 {
                    assert(out@ =~= before + ", "@ + "-s "@ + self.item_patterns@[i as int]@);
                } else {
                    assert(out@ =~= before + "-s "@ + self.item_patterns@[i as int]@);
                }
            }
            i = i + 1;
        }
        let items = self.item_patterns.len();
        assert(self.item_patterns@.subrange(0, items as int) =~= self.item_patterns@);
        assert(self.type_patterns@.subrange(0, 0) =~= Seq::<String>::empty());
        let mut j: usize = 0;
        while j < self.type_patterns.len()
            invariant
                items == self.item_patterns@.len(),
                j <= self.type_patterns@.len(),
                out@ == selector_display(self.item_patterns@, self.type_patterns@.subrange(0, j as int)),
            decreases self.type_patterns.len() - j,
        {
            let ghost before = out@;
            if items > 0 || j > 0 {
                push_str(&mut out, ", ");
            }
            push_str(&mut out, "-S ");
            push_str(&mut out, self.type_patterns[j].as_str());
            proof {
                let s = self.type_patterns@.subrange(0, j + 1);
                assert(s.drop_last() =~= self.type_patterns@.subrange(0, j as int));
                assert(s.last() == self.type_patterns@[j as int]);
                if items > 0 || j > 0 {
                    assert(out@ =~= before + ", "@ + "-S "@ + self.type_patterns@[j as int]@);
                } else {
                    assert(out@ =~= before + "-S "@ + self.type_patterns@[j as int]@);
                }
            }
            j = j + 1;
        }
        assert(self.type_patterns@.subrange(0, j as int) =~= self.type_patterns@);
        string_of(&out)
    }
}

// ---------------------------------------------------------------------------------------------
// Glob selector patterns
// ---------------------------------------------------------------------------------------------
/// A compiled selector glob; its view is the pattern it was compiled from. A pattern is
/// qualified when it holds a `.` and so names a path rather than a bare name.
pub struct SelectorPattern {
    glob: GlobPattern,
    is_qualified: bool,
}

impl View for SelectorPattern {
    type V = Seq<char>;

    closed spec fn view(&self) -> Seq<char> {
        self.glob@
    }
}

impl SelectorPattern {
    pub closed spec fn qualified(&self) -> bool {
        self.is_qualified
    }

    fn compile(pattern: &String) -> (r: Result<SelectorPattern, SmartEditError>)
        ensures
            r is Ok <==> glob_compiles(pattern@),
            r matches Ok(p) ==> p@ == pattern@ && p.qualified() == pattern@.contains('.'),
            r matches Err(e) ==> (e matches SmartEditError::InvalidAstSelectorPattern { pattern: p, .. }
                && p == *pattern),
    {
        let chars = chars_of(pattern.as_str());
        match GlobPattern::compile(pattern.as_str()) {
            Ok(glob) => Ok(
                SelectorPattern { glob, is_qualified: crate::text::contains_char(&chars, '.') },
            ),
            Err(message) => Err(
                SmartEditError::InvalidAstSelectorPattern { pattern: pattern.clone(), message },
            ),
        }
    }

    fn matches(&self, text: &[char]) -> (r: bool)
        ensures
            r == glob_path_matches(self@, text@),
    {
        let t = string_of(text);
        self.glob.is_match(t.as_str())
    }

    fn is_qualified(&self) -> (r: bool)
        ensures
            r == self.qualified(),
    {
        self.is_qualified
    }
}

// ---------------------------------------------------------------------------------------------
// Selector paths
// ---------------------------------------------------------------------------------------------
/// `parent.segment`, or `segment` alone when there is no parent or it is empty.
pub open spec fn join_path_spec(parent: Option<Seq<char>>, segment: Seq<char>) -> Seq<char> {
    match parent {
        Some(p) => if p.len() > 0 {
            p + seq!['.'] + segment
        } else {
            segment
        },
        None => segment,
    }
}

pub fn join_selector_path(parent: Option<&Vec<char>>, segment: &[char]) -> (r: Vec<char>)
    ensures
        r@ == join_path_spec(
            match parent {
                Some(p) => Some(p@),
                None => None,
            },
            segment@,
        ),
{
    let mut out: Vec<char> = Vec::new();
    match parent {
        Some(p) => {
            if p.len() > 0 {
                push_all(&mut out, p);
                out.push('.');
            }
        },
        None => {},
    }
    push_all(&mut out, segment);
    proof {
        match parent {
            Some(p) => {
                if p@.len() > 0 {
                    assert(out@ =~= p@ + seq!['.'] + segment@);
                } else {
                    assert(out@ =~= segment@);
                }
            },
            None => {
                assert(out@ =~= segment@);
            },
        }
    }
    out
}

/// The non-empty `.`-separated segments of `path[i..]`, the first of them continuing
/// `current`.
pub open spec fn segments_from(path: Seq<char>, i: int, current: Seq<char>) -> Seq<Seq<char>>
    decreases path.len() - i,
{
    if i >= path.len() {
        if current.len() > 0 {
            seq![current]
        } else {
            Seq::empty()
        }
    } else if path[i] == '.' {
        if current.len() > 0 {
            seq![current] + segments_from(path, i + 1, Seq::empty())
        } else {
            segments_from(path, i + 1, Seq::empty())
        }
    } else {
        segments_from(path, i + 1, current.push(path[i]))
    }
}

/// The non-empty `.`-separated segments of a path.
pub open spec fn path_segments(path: Seq<char>) -> Seq<Seq<char>> {
    segments_from(path, 0, Seq::empty())
}

/// The views of a list of texts.
pub open spec fn texts_view(v: Seq<Vec<char>>) -> Seq<Seq<char>> {
    v.map_values(|t: Vec<char>| t@)
}

/// Segments joined with `.`.
pub open spec fn join_dotted(segments: Seq<Seq<char>>) -> Seq<char>
    decreases segments.len(),
{
    if segments.len() == 0 {
        Seq::empty()
    } else if segments.len() == 1 {
        segments[0]
    } else {
        join_dotted(segments.drop_last()) + seq!['.'] + segments.last()
    }
}

/// The non-empty `.`-separated segments of a path.
pub fn split_segments(path: &[char]) -> (r: Vec<Vec<char>>)
    ensures
        forall|k: int| 0 <= k < r@.len() ==> #[trigger] r@[k]@.len() > 0 && !r@[k]@.contains('.'),
        texts_view(r@) == path_segments(path@),
{
    let mut r: Vec<Vec<char>> = Vec::new();
    let mut current: Vec<char> = Vec::new();
    let mut i: usize = 0;
    while i < path.len()
        invariant
            i <= path@.len(),
            !current@.contains('.'),
            forall|k: int| 0 <= k < r@.len() ==> #[trigger] r@[k]@.len() > 0 && !r@[k]@.contains('.'),
            texts_view(r@) + segments_from(path@, i as int, current@) == path_segments(path@),
        decreases path.len() - i,
    {
        if path[i] == '.' {
            if current.len() > 0 {
                let ghost before = texts_view(r@);
                let ghost cur = current@;
                r.push(current);
                current = Vec::new();
                proof {
                    assert(texts_view(r@) =~= before.push(cur));
                    assert(current@ =~= Seq::<char>::empty());
                    assert(before + segments_from(path@, i as int, cur) =~= before.push(cur)
                        + segments_from(path@, i + 1, current@));
                }
            } else {
                proof {
                    assert(current@ =~= Seq::<char>::empty());
                }
            }
        } else {
            let ghost old_cur = current@;
            current.push(path[i]);
            proof {
                assert forall|x: int| 0 <= x < current@.len() implies current@[x] != '.' by {
                    if x < old_cur.len() {
                        assert(current@[x] == old_cur[x]);
                    }
                }
            }
        }
        i = i + 1;
    }
    let ghost before = texts_view(r@);
    let ghost cur = current@;
    if current.len() > 0 {
        r.push(current);
        proof {
            assert(texts_view(r@) =~= before.push(cur));
            assert(before + seq![cur] =~= before.push(cur));
        }
    } else {
        proof {
            assert(before + Seq::<Seq<char>>::empty() =~= before);
        }
    }
    r
}

/// Joins segments with `.`.
fn join_segments(segments: &Vec<Vec<char>>) -> (r: Vec<char>)
    ensures
        r@ == join_dotted(texts_view(segments@)),
{
    let mut out: Vec<char> = Vec::new();
    let mut k: usize = 0;
    while k < segments.len()
        invariant
            k <= segments@.len(),
            out@ == join_dotted(texts_view(segments@.subrange(0, k as int))),
        decreases segments.len() - k,
    {
        proof {
            let next = texts_view(segments@.subrange(0, k + 1));
            assert(next.drop_last() =~= texts_view(segments@.subrange(0, k as int)));
            assert(next.last() == segments@[k as int]@);
        }
        if k > 0 {
            out.push('.');
        }
        push_all(&mut out, &segments[k]);
        k = k + 1;
    }
    assert(segments@.subrange(0, segments@.len() as int) =~= segments@);
    out
}

/// One step of resolving an `impl` target: `crate` as the first segment restarts at the crate
/// root, `super` drops the last module, `self` keeps the path, any other segment is appended.
pub open spec fn resolve_step(resolved: Seq<Seq<char>>, segment: Seq<char>, first: bool) -> Seq<
    Seq<char>,
> {
    if first && segment == "crate"@ {
        Seq::empty()
    } else if segment == "super"@ {
        if resolved.len() > 0 {
            resolved.drop_last()
        } else {
            resolved
        }
    } else if segment == "self"@ {
        resolved
    } else {
        resolved.push(segment)
    }
}

/// The module path after resolving the first `k` target segments, starting from `start`.
pub open spec fn resolve_segments(start: Seq<Seq<char>>, targets: Seq<Seq<char>>, k: int) -> Seq<
    Seq<char>,
>
    decreases k,
{
    if k <= 0 {
        start
    } else {
        resolve_step(resolve_segments(start, targets, k - 1), targets[k - 1], k == 1)
    }
}

/// The resolved target path of a Rust `impl`; empty when the target has no segment.
pub open spec fn resolve_impl_target_spec(target: Seq<char>, parent: Option<Seq<char>>) -> Seq<char> {
    let targets = path_segments(target);
    if targets.len() == 0 {
        Seq::empty()
    } else {
        let start = match parent {
            Some(p) => path_segments(p),
            None => Seq::empty(),
        };
        join_dotted(resolve_segments(start, targets, targets.len() as int))
    }
}

/// Resolves the target path of a Rust `impl` (with `::` already turned into `.`) relative to
/// the module path it appears in: `crate` restarts at the crate root, `self` stays, `super`
/// climbs one module; any other leading segment is taken relative to the enclosing module.
pub fn resolve_rust_impl_target(target: &[char], parent_context: Option<&Vec<char>>) -> (r: Vec<char>)
    ensures
        r@ == resolve_impl_target_spec(
            target@,
            match parent_context {
                Some(p) => Some(p@),
                None => None,
            },
        ),
{
    let target_segments = split_segments(target);
    if target_segments.len() == 0 {
        return Vec::new();
    }
    let ghost targets = texts_view(target_segments@);
    let mut resolved: Vec<Vec<char>> = match parent_context {
        Some(parent) => split_segments(parent),
        None => Vec::new(),
    };
    let ghost start = texts_view(resolved@);
    proof {
        if parent_context.is_none() {
            assert(start =~= Seq::<Seq<char>>::empty());
        }
    }
    let mut k: usize = 0;
    while k < target_segments.len()
        invariant
            k <= target_segments@.len(),
            targets == texts_view(target_segments@),
            texts_view(resolved@) == resolve_segments(start, targets, k as int),
        decreases target_segments.len() - k,
    {
        let segment = &target_segments[k];
        let ghost before = texts_view(resolved@);
        assert(targets[k as int] == segment@);
        if k == 0 && crate::text::chars_eq_str(segment, "crate") {
            resolved = Vec::new();
            assert(texts_view(resolved@) =~= Seq::<Seq<char>>::empty());
        } else if crate::text::chars_eq_str(segment, "super") {
            if resolved.len() > 0 {
                resolved.pop();
                assert(texts_view(resolved@) =~= before.drop_last());
            }
        } else if crate::text::chars_eq_str(segment, "self") {
        } else {
            resolved.push(crate::text::copy_range(segment, 0, segment.len()));
            assert(segment@.subrange(0, segment@.len() as int) =~= segment@);
            assert(texts_view(resolved@) =~= before.push(segment@));
        }
        k = k + 1;
    }
    join_segments(&resolved)
}

/// The start of the text after the last `.` in `name[..i]`.
pub open spec fn basename_start(name: Seq<char>, i: int) -> int
    decreases i,
{
    if i <= 0 {
        0
    } else if name[i - 1] == '.' {
        i
    } else {
        basename_start(name, i - 1)
    }
}

/// The text after the last `.`, or all of it.
pub open spec fn basename_spec(name: Seq<char>) -> Seq<char> {
    name.subrange(basename_start(name, name.len() as int), name.len() as int)
}

proof fn lemma_basename_start_bounds(name: Seq<char>, i: int)
    requires
        0 <= i <= name.len(),
    ensures
        0 <= basename_start(name, i) <= i,
    decreases i,
{
    if i > 0 && name[i - 1] != '.' {
        lemma_basename_start_bounds(name, i - 1);
    }
}

/// The text after the last `.`, or all of it.
fn basename(name: &[char]) -> (r: Vec<char>)
    ensures
        r@ == basename_spec(name@),
{
    let mut i = name.len();
    while i > 0 && name[i - 1] != '.'
        invariant
            i <= name@.len(),
            basename_start(name@, name@.len() as int) == basename_start(name@, i as int),
        decreases i,
    {
        i = i - 1;
    }
    crate::text::copy_range(name, i, name.len())
}

/// A compiled selector.
struct CompiledAstSelector {
    item_patterns: Vec<SelectorPattern>,
    type_patterns: Vec<SelectorPattern>,
}

/// The patterns that a list of compiled patterns was compiled from.
pub open spec fn pattern_views(v: Seq<SelectorPattern>) -> Seq<Seq<char>> {
    v.map_values(|p: SelectorPattern| p@)
}

/// The texts of a list of strings.
pub open spec fn string_views(v: Seq<String>) -> Seq<Seq<char>> {
    v.map_values(|p: String| p@)
}

/// Whether every pattern is a glob that `globset` accepts.
pub open spec fn all_globs_compile(patterns: Seq<String>) -> bool {
    forall|k: int| 0 <= k < patterns.len() ==> glob_compiles(#[trigger] patterns[k]@)
}

/// Compiled patterns that know, for each of them, whether it is qualified.
pub open spec fn patterns_wf(v: Seq<SelectorPattern>) -> bool {
    forall|k: int| 0 <= k < v.len() ==> (#[trigger] v[k]).qualified() == v[k]@.contains('.')
}

fn compile_patterns(patterns: &Vec<String>) -> (r: Result<Vec<SelectorPattern>, SmartEditError>)
    ensures
        r is Ok <==> all_globs_compile(patterns@),
        r matches Ok(v) ==> pattern_views(v@) == string_views(patterns@) && patterns_wf(v@),
        r matches Err(e) ==> e is InvalidAstSelectorPattern,
{
    let mut out: Vec<SelectorPattern> = Vec::new();
    let mut k: usize = 0;
    while k < patterns.len()
        invariant
            k <= patterns@.len(),
            out@.len() == k,
            forall|j: int| 0 <= j < k ==> (#[trigger] out@[j])@ == patterns@[j]@,
            forall|j: int| 0 <= j < k ==> glob_compiles(#[trigger] patterns@[j]@),
            patterns_wf(out@),
        decreases patterns.len() - k,
    {
        let p = match SelectorPattern::compile(&patterns[k]) {
            Ok(p) => p,
            Err(e) => {
                return Err(e);
            },
        };
        out.push(p);
        k = k + 1;
    }
    assert(pattern_views(out@) =~= string_views(patterns@));
    Ok(out)
}

/// Whether `-S` can select an item of this kind as a type.
pub open spec fn supports_type_selection(kind: AstItemKind) -> bool {
    match kind {
        AstItemKind::Class | AstItemKind::Interface | AstItemKind::Struct | AstItemKind::Enum
        | AstItemKind::Union | AstItemKind::TypeAlias | AstItemKind::Trait | AstItemKind::Impl => true,
        _ => false,
    }
}

fn item_supports_type_selection(kind: AstItemKind) -> (r: bool)
    ensures
        r == supports_type_selection(kind),
{
    match kind {
        AstItemKind::Class | AstItemKind::Interface | AstItemKind::Struct | AstItemKind::Enum
        | AstItemKind::Union | AstItemKind::TypeAlias | AstItemKind::Trait | AstItemKind::Impl => true,
        _ => false,
    }
}

/// The text of an optional string.
pub open spec fn opt_seq(s: Option<String>) -> Option<Seq<char>> {
    match s {
        Some(t) => Some(t@),
        None => None,
    }
}

/// The text of an optional module path.
pub open spec fn context_view(c: Option<&Vec<char>>) -> Option<Seq<char>> {
    match c {
        Some(p) => Some(p@),
        None => None,
    }
}

fn opt_chars(s: &Option<String>) -> (r: Option<Vec<char>>)
    ensures
        r.is_some() == s.is_some(),
        r matches Some(v) ==> (s matches Some(t) && v@ == t@),
{
    match s {
        Some(t) => Some(chars_of(t.as_str())),
        None => None,
    }
}

/// The path of an `impl`: its resolved target.
pub open spec fn impl_path_spec(item: AstItem, parent: Option<Seq<char>>) -> Option<Seq<char>> {
    match item.associated_type {
        Some(t) => Some(resolve_impl_target_spec(t@, parent)),
        None => None,
    }
}

/// The dotted path by which `-s` selects an item under the module path `parent`: an `impl`
/// goes by its target, a method by `Receiver.name`, anything else by its name.
pub open spec fn selector_path_spec(item: AstItem, parent: Option<Seq<char>>) -> Option<Seq<char>> {
    if item.kind == AstItemKind::Impl {
        impl_path_spec(item, parent)
    } else if item.kind == AstItemKind::Function && item.associated_type is Some {
        match (item.associated_type, item.name) {
            (Some(receiver), Some(name)) => Some(
                join_path_spec(parent, receiver@ + seq!['.'] + name@),
            ),
            _ => None,
        }
    } else {
        match item.name {
            Some(name) => Some(join_path_spec(parent, name@)),
            None => None,
        }
    }
}

/// The module path under which an item's children are selected.
pub open spec fn child_context_spec(item: AstItem, parent: Option<Seq<char>>) -> Option<Seq<char>> {
    if item.kind == AstItemKind::Module {
        match item.name {
            Some(name) => Some(join_path_spec(parent, name@)),
            None => None,
        }
    } else if item.kind == AstItemKind::Impl {
        impl_path_spec(item, parent)
    } else {
        selector_path_spec(item, parent)
    }
}

fn impl_selector_path(item: &AstItem, parent_context: Option<&Vec<char>>) -> (r: Option<Vec<char>>)
    ensures
        opt_vec_view(r) == impl_path_spec(*item, context_view(parent_context)),
{
    match &item.associated_type {
        Some(target) => {
            let t = chars_of(target.as_str());
            Some(resolve_rust_impl_target(&t, parent_context))
        },
        None => None,
    }
}

/// The text of an optional character vector.
pub open spec fn opt_vec_view(v: Option<Vec<char>>) -> Option<Seq<char>> {
    match v {
        Some(t) => Some(t@),
        None => None,
    }
}

fn selector_path_for_item(item: &AstItem, parent_context: Option<&Vec<char>>) -> (r: Option<
    Vec<char>,
>)
    ensures
        opt_vec_view(r) == selector_path_spec(*item, context_view(parent_context)),
{
    match item.kind {
        AstItemKind::Impl => impl_selector_path(item, parent_context),
        AstItemKind::Function if item.associated_type.is_some() => {
            let receiver = match opt_chars(&item.associated_type) {
                Some(r) => r,
                None => return None,
            };
            let name = match opt_chars(&item.name) {
                Some(n) => n,
                None => return None,
            };
            let mut segment = receiver;
            segment.push('.');
            push_all(&mut segment, &name);
            Some(join_selector_path(parent_context, &segment))
        },
        _ => match opt_chars(&item.name) {
            Some(name) => Some(join_selector_path(parent_context, &name)),
            None => None,
        },
    }
}

fn child_context_for_item(item: &AstItem, parent_context: Option<&Vec<char>>) -> (r: Option<
    Vec<char>,
>)
    ensures
        opt_vec_view(r) == child_context_spec(*item, context_view(parent_context)),
{
    match item.kind {
        AstItemKind::Module => match opt_chars(&item.name) {
            Some(name) => Some(join_selector_path(parent_context, &name)),
            None => None,
        },
        AstItemKind::Impl => impl_selector_path(item, parent_context),
        _ => selector_path_for_item(item, parent_context),
    }
}

/// Whether the `-s` pattern `pattern` selects an item with path `path`: by the path, or, for
/// an unqualified pattern and an item that belongs to a type, by its bare name.
pub open spec fn item_pattern_hit(item: AstItem, path: Seq<char>, pattern: Seq<char>) -> bool {
    ||| glob_path_matches(pattern, path)
    ||| (!pattern.contains('.') && item.associated_type is Some && match item.name {
        Some(n) => glob_path_matches(pattern, n@),
        None => false,
    })
}

/// The type under which `-S` selects an item: the type it belongs to, or its own name.
pub open spec fn selected_type_spec(item: AstItem) -> Option<Seq<char>> {
    match item.associated_type {
        Some(t) => Some(t@),
        None => opt_seq(item.name),
    }
}

/// Whether the `-S` pattern `pattern` selects an item: by its path, or, for an unqualified
/// pattern, by its type's full or last-segment name.
pub open spec fn type_pattern_hit(item: AstItem, path: Option<Seq<char>>, pattern: Seq<char>) -> bool {
    ||| (path matches Some(p) && glob_path_matches(pattern, p))
    ||| (!pattern.contains('.') && match selected_type_spec(item) {
        Some(n) => glob_path_matches(pattern, n) || glob_path_matches(pattern, basename_spec(n)),
        None => false,
    })
}

/// Whether a selector picks an item with path `path`.
pub open spec fn item_selected_spec(
    item: AstItem,
    path: Option<Seq<char>>,
    item_patterns: Seq<Seq<char>>,
    type_patterns: Seq<Seq<char>>,
) -> bool {
    ||| first_hit(item, path, item_patterns)
    ||| ((supports_type_selection(item.kind) || item.associated_type is Some) && exists|k: int|
        0 <= k < type_patterns.len() && #[trigger] type_pattern_hit(item, path, type_patterns[k]))
}

/// Whether some `-s` pattern selects an item with path `path`.
pub open spec fn first_hit(item: AstItem, path: Option<Seq<char>>, item_patterns: Seq<Seq<char>>) -> bool {
    path matches Some(p) && exists|k: int|
        0 <= k < item_patterns.len() && #[trigger] item_pattern_hit(item, p, item_patterns[k])
}

fn item_matches_selector(item: &AstItem, item_path: &Option<Vec<char>>, selector: &CompiledAstSelector) -> (r: bool)
    requires
        patterns_wf(selector.item_patterns@),
        patterns_wf(selector.type_patterns@),
    ensures
        r == item_selected_spec(
            *item,
            opt_vec_view(*item_path),
            pattern_views(selector.item_patterns@),
            pattern_views(selector.type_patterns@),
        ),
{
    let ghost ips = pattern_views(selector.item_patterns@);
    let ghost tps = pattern_views(selector.type_patterns@);
    let name = opt_chars(&item.name);
    let mut item_match = false;
    match item_path {
        Some(path) => {
            let mut k: usize = 0;
            while k < selector.item_patterns.len()
                invariant
                    k <= selector.item_patterns@.len(),
                    ips == pattern_views(selector.item_patterns@),
                    patterns_wf(selector.item_patterns@),
                    name.is_some() == item.name.is_some(),
                    name matches Some(v) ==> (item.name matches Some(t) && v@ == t@),
                    item_match == exists|j: int|
                        0 <= j < k && #[trigger] item_pattern_hit(*item, path@, ips[j]),
                decreases selector.item_patterns.len() - k,
            {
                let pattern = &selector.item_patterns[k];
                assert(ips[k as int] == pattern@);
                if pattern.matches(path) {
                    item_match = true;
                } else if !pattern.is_qualified() && item.associated_type.is_some() {
                    match &name {
                        Some(n) => {
                            if pattern.matches(n) {
                                item_match = true;
                            }
                        },
                        None => {},
                    }
                }
                proof {
                    if item_pattern_hit(*item, path@, ips[k as int]) {
                        assert(item_match);
                    }
                    if item_match {
                        if !item_pattern_hit(*item, path@, ips[k as int]) {
                            let j = choose|j: int|
                                0 <= j < k && #[trigger] item_pattern_hit(*item, path@, ips[j]);
                            assert(0 <= j < k + 1 && item_pattern_hit(*item, path@, ips[j]));
                        }
                    }
                }
                k = k + 1;
            }
            assert(ips.len() == selector.item_patterns@.len());
            assert(item_match == exists|j: int|
                0 <= j < ips.len() && #[trigger] item_pattern_hit(*item, path@, ips[j]));
            assert(opt_vec_view(*item_path) == Some(path@));
            proof {
                let pv = opt_vec_view(*item_path);
                if item_match {
                    let j = choose|j: int|
                        0 <= j < ips.len() && #[trigger] item_pattern_hit(*item, path@, ips[j]);
                    assert(pv matches Some(p) && p == path@ && item_pattern_hit(*item, p, ips[j]));
                    assert(first_hit(*item, pv, ips));
                }
                if first_hit(*item, pv, ips) {
                    let p = pv->0;
                    assert(p == path@);
                    let j = choose|j: int|
                        0 <= j < ips.len() && #[trigger] item_pattern_hit(*item, p, ips[j]);
                    assert(item_pattern_hit(*item, path@, ips[j]));
                }
            }
            assert(item_match == first_hit(*item, opt_vec_view(*item_path), ips));
        },
        None => {
            assert(item_match == first_hit(*item, opt_vec_view(*item_path), ips));
        },
    }
    if item_match {
        return true;
    }
    if !(item_supports_type_selection(item.kind) || item.associated_type.is_some()) {
        return false;
    }
    let selected_type = match opt_chars(&item.associated_type) {
        Some(t) => Some(t),
        None => name,
    };
    assert(opt_vec_view(selected_type) == selected_type_spec(*item));
    let mut k: usize = 0;
    while k < selector.type_patterns.len()
        invariant
            k <= selector.type_patterns@.len(),
            tps == pattern_views(selector.type_patterns@),
            patterns_wf(selector.type_patterns@),
            opt_vec_view(selected_type) == selected_type_spec(*item),
            supports_type_selection(item.kind) || item.associated_type is Some,
            ips == pattern_views(selector.item_patterns@),
            !first_hit(*item, opt_vec_view(*item_path), ips),
            forall|j: int|
                0 <= j < k ==> !#[trigger] type_pattern_hit(*item, opt_vec_view(*item_path), tps[j]),
        decreases selector.type_patterns.len() - k,
    {
        let pattern = &selector.type_patterns[k];
        assert(tps[k as int] == pattern@);
        match item_path {
            Some(path) => {
                if pattern.matches(path) {
                    assert(type_pattern_hit(*item, opt_vec_view(*item_path), tps[k as int]));
                    assert(item_selected_spec(*item, opt_vec_view(*item_path), ips, tps));
                    return true;
                }
            },
            None => {},
        }
        if !pattern.is_qualified() {
            match &selected_type {
                Some(n) => {
                    if pattern.matches(n) {
                        assert(type_pattern_hit(*item, opt_vec_view(*item_path), tps[k as int]));
                        assert(item_selected_spec(*item, opt_vec_view(*item_path), ips, tps));
                        return true;
                    }
                    let base = basename(n);
                    if pattern.matches(&base) {
                        assert(type_pattern_hit(*item, opt_vec_view(*item_path), tps[k as int]));
                        assert(item_selected_spec(*item, opt_vec_view(*item_path), ips, tps));
                        return true;
                    }
                },
                None => {},
            }
        }
        k = k + 1;
    }
    false
}

fn copy_opt(s: &Option<String>) -> (r: Option<String>)
    ensures
        r == *s,
{
    match s {
        Some(t) => Some(t.clone()),
        None => None,
    }
}

/// Whether two items hold the same texts, kind and location, and children that are the same
/// in turn.
pub open spec fn same_item(a: AstItem, b: AstItem) -> bool
    decreases a, 1nat, 0nat,
{
    &&& a.kind == b.kind
    &&& opt_seq(a.name) == opt_seq(b.name)
    &&& opt_seq(a.associated_type) == opt_seq(b.associated_type)
    &&& a.location == b.location
    &&& opt_seq(a.docs) == opt_seq(b.docs)
    &&& opt_seq(a.inner_docs) == opt_seq(b.inner_docs)
    &&& opt_seq(a.attributes) == opt_seq(b.attributes)
    &&& opt_seq(a.source_preamble) == opt_seq(b.source_preamble)
    &&& a.summary@ == b.summary@
    &&& opt_seq(a.signature) == opt_seq(b.signature)
    &&& opt_seq(a.body) == opt_seq(b.body)
    &&& a.children@.len() == b.children@.len()
    &&& same_children(a, b, a.children@.len() as nat)
}

/// Whether the first `k` children of two items are the same.
pub open spec fn same_children(a: AstItem, b: AstItem, k: nat) -> bool
    decreases a, 0nat, k,
{
    if k == 0 {
        true
    } else if k > a.children@.len() || k > b.children@.len() {
        false
    } else {
        proof {
            assert(decreases_to!(a => a.children@[k - 1]));
        }
        same_children(a, b, (k - 1) as nat) && same_item(a.children@[k - 1], b.children@[k - 1])
    }
}

/// Whether two lists of items are the same item by item.
pub open spec fn same_items(a: Seq<AstItem>, b: Seq<AstItem>) -> bool {
    a.len() == b.len() && forall|k: int| 0 <= k < a.len() ==> same_item(#[trigger] a[k], b[k])
}

proof fn lemma_same_children_pointwise(a: AstItem, b: AstItem, k: nat)
    requires
        k <= a.children@.len(),
        k <= b.children@.len(),
        forall|j: int| 0 <= j < k ==> same_item(#[trigger] a.children@[j], b.children@[j]),
    ensures
        same_children(a, b, k),
    decreases k,
{
    if k > 0 {
        lemma_same_children_pointwise(a, b, (k - 1) as nat);
    }
}

/// A deep copy of an item.
pub fn copy_item(item: &AstItem) -> (r: AstItem)
    ensures
        same_item(r, *item),
    decreases item,
{
    let mut children: Vec<AstItem> = Vec::new();
    let mut k: usize = 0;
    while k < item.children.len()
        invariant
            k <= item.children@.len(),
            children@.len() == k,
            forall|j: int| 0 <= j < k ==> same_item(#[trigger] children@[j], item.children@[j]),
        decreases item.children.len() - k,
    {
        assert(decreases_to!(item => item.children@[k as int]));
        children.push(copy_item(&item.children[k]));
        k = k + 1;
    }
    let r = AstItem {
        kind: item.kind,
        name: copy_opt(&item.name),
        associated_type: copy_opt(&item.associated_type),
        location: item.location,
        docs: copy_opt(&item.docs),
        inner_docs: copy_opt(&item.inner_docs),
        attributes: copy_opt(&item.attributes),
        source_preamble: copy_opt(&item.source_preamble),
        summary: item.summary.clone(),
        signature: copy_opt(&item.signature),
        body: copy_opt(&item.body),
        children,
    };
    proof {
        lemma_same_children_pointwise(r, *item, r.children@.len() as nat);
    }
    r
}

/// The items that a selector picks in the tree of `item`, under the module path `parent`: the
/// item itself when it is picked, else what its children yield, in order.
pub open spec fn collect_spec(
    item: AstItem,
    parent: Option<Seq<char>>,
    item_patterns: Seq<Seq<char>>,
    type_patterns: Seq<Seq<char>>,
) -> Seq<AstItem>
    decreases item, 1nat, 0nat,
{
    if item_selected_spec(item, selector_path_spec(item, parent), item_patterns, type_patterns) {
        seq![item]
    } else {
        collect_children_spec(
            item,
            child_context_spec(item, parent),
            item_patterns,
            type_patterns,
            item.children@.len() as nat,
        )
    }
}

/// What the first `k` children of `item` yield, under the module path `context`.
pub open spec fn collect_children_spec(
    item: AstItem,
    context: Option<Seq<char>>,
    item_patterns: Seq<Seq<char>>,
    type_patterns: Seq<Seq<char>>,
    k: nat,
) -> Seq<AstItem>
    decreases item, 0nat, k,
{
    if k == 0 || k > item.children@.len() {
        Seq::empty()
    } else {
        proof {
            assert(decreases_to!(item => item.children@[k - 1]));
        }
        collect_children_spec(item, context, item_patterns, type_patterns, (k - 1) as nat)
            + collect_spec(item.children@[k - 1], context, item_patterns, type_patterns)
    }
}

/// What a selector picks among the first `n` top-level items.
pub open spec fn select_spec(
    items: Seq<AstItem>,
    item_patterns: Seq<Seq<char>>,
    type_patterns: Seq<Seq<char>>,
    n: nat,
) -> Seq<AstItem>
    decreases n,
{
    if n == 0 || n > items.len() {
        Seq::empty()
    } else {
        select_spec(items, item_patterns, type_patterns, (n - 1) as nat) + collect_spec(
            items[n - 1],
            None,
            item_patterns,
            type_patterns,
        )
    }
}

/// An item that a selector picks is taken whole and its children are not searched further.
fn collect_selected_items(
    item: &AstItem,
    parent_context: Option<&Vec<char>>,
    selector: &CompiledAstSelector,
    selected: &mut Vec<AstItem>,
)
    requires
        patterns_wf(selector.item_patterns@),
        patterns_wf(selector.type_patterns@),
    ensures
        ({
            let spec = collect_spec(
                *item,
                context_view(parent_context),
                pattern_views(selector.item_patterns@),
                pattern_views(selector.type_patterns@),
            );
            &&& final(selected)@.len() == old(selected)@.len() + spec.len()
            &&& final(selected)@.subrange(0, old(selected)@.len() as int) == old(selected)@
            &&& same_items(
                final(selected)@.subrange(old(selected)@.len() as int, final(selected)@.len() as int),
                spec,
            )
        }),
    decreases item,
{
    let ghost ips = pattern_views(selector.item_patterns@);
    let ghost tps = pattern_views(selector.type_patterns@);
    let ghost start = selected@;
    let item_path = selector_path_for_item(item, parent_context);
    if item_matches_selector(item, &item_path, selector) {
        selected.push(copy_item(item));
        proof {
            let added = selected@.subrange(start.len() as int, selected@.len() as int);
            assert(added.len() == 1 && added[0] == selected@[start.len() as int]);
            assert(selected@.subrange(0, start.len() as int) =~= start);
        }
        return ;
    }
    let child_context = child_context_for_item(item, parent_context);
    let ghost ctx = child_context_spec(*item, context_view(parent_context));
    let mut k: usize = 0;
    while k < item.children.len()
        invariant
            k <= item.children@.len(),
            patterns_wf(selector.item_patterns@),
            patterns_wf(selector.type_patterns@),
            ips == pattern_views(selector.item_patterns@),
            tps == pattern_views(selector.type_patterns@),
            opt_vec_view(child_context) == ctx,
            selected@.len() == start.len() + collect_children_spec(*item, ctx, ips, tps, k as nat).len(),
            selected@.subrange(0, start.len() as int) == start,
            same_items(
                selected@.subrange(start.len() as int, selected@.len() as int),
                collect_children_spec(*item, ctx, ips, tps, k as nat),
            ),
        decreases item.children.len() - k,
    {
        assert(decreases_to!(item => item.children@[k as int]));
        let ghost before = selected@;
        match &child_context {
            Some(c) => collect_selected_items(&item.children[k], Some(c), selector, selected),
            None => collect_selected_items(&item.children[k], None, selector, selected),
        }
        proof {
            let prev = collect_children_spec(*item, ctx, ips, tps, k as nat);
            let more = collect_spec(item.children@[k as int], ctx, ips, tps);
            let next = collect_children_spec(*item, ctx, ips, tps, (k + 1) as nat);
            assert(next == prev + more);
            assert(selected@.subrange(0, before.len() as int) =~= before);
            assert(selected@.subrange(0, start.len() as int) =~= start) by {
                assert(before.subrange(0, start.len() as int) =~= start);
            }
            let added = selected@.subrange(start.len() as int, selected@.len() as int);
            assert forall|j: int| 0 <= j < added.len() implies same_item(#[trigger] added[j], next[j]) by {
                if j < prev.len() {
                    assert(added[j] == before.subrange(start.len() as int, before.len() as int)[j]);
                } else {
                    assert(added[j] == selected@.subrange(
                        before.len() as int,
                        selected@.len() as int,
                    )[j - prev.len()]);
                }
            }
        }
        k = k + 1;
    }
}

// ---------------------------------------------------------------------------------------------
// Rendering
// ---------------------------------------------------------------------------------------------
/// `"> "` repeated `indent` times as `>`s followed by one space; empty for no indentation.
pub open spec fn indent_prefix_spec(indent: nat) -> Seq<char> {
    if indent == 0 {
        Seq::empty()
    } else {
        Seq::new(indent, |i: int| '>').push(' ')
    }
}

pub fn indent_prefix(indent: usize) -> (r: Vec<char>)
    ensures
        r@ == indent_prefix_spec(indent as nat),
{
    let mut r: Vec<char> = Vec::new();
    if indent == 0 {
        return r;
    }
    let mut i: usize = 0;
    while i < indent
        invariant
            i <= indent,
            r@ == Seq::new(i as nat, |j: int| '>'),
        decreases indent - i,
    {
        r.push('>');
        i = i + 1;
        assert(r@ =~= Seq::new(i as nat, |j: int| '>'));
    }
    r.push(' ');
    r
}

/// `line` without a final `'\r'`.
pub open spec fn strip_cr(line: Seq<char>) -> Seq<char> {
    if line.len() > 0 && line.last() == '\r' {
        line.drop_last()
    } else {
        line
    }
}

/// The lines of `c[i..]` as `str::lines` yields them, the first continuing `current`: a line
/// ends at `'\n'` (dropping a `'\r'` before it), and nothing follows a final `'\n'`.
pub open spec fn lines_from(c: Seq<char>, i: int, current: Seq<char>) -> Seq<Seq<char>>
    decreases c.len() - i,
{
    if i >= c.len() {
        if current.len() > 0 {
            seq![current]
        } else {
            Seq::empty()
        }
    } else if c[i] == '\n' {
        seq![strip_cr(current)] + lines_from(c, i + 1, Seq::empty())
    } else {
        lines_from(c, i + 1, current.push(c[i]))
    }
}

/// The lines of a text, as `str::lines` yields them.
pub open spec fn text_lines_spec(c: Seq<char>) -> Seq<Seq<char>> {
    lines_from(c, 0, Seq::empty())
}

/// Parts joined with the separator `sep`.
pub open spec fn joined(parts: Seq<Seq<char>>, sep: char) -> Seq<char>
    decreases parts.len(),
{
    if parts.len() == 0 {
        Seq::empty()
    } else if parts.len() == 1 {
        parts[0]
    } else {
        joined(parts.drop_last(), sep) + seq![sep] + parts.last()
    }
}

proof fn lemma_joined_step(parts: Seq<Seq<char>>, sep: char, k: int)
    requires
        0 <= k < parts.len(),
    ensures
        joined(parts.subrange(0, k + 1), sep) == joined(parts.subrange(0, k), sep) + (if k > 0 {
            seq![sep]
        } else {
            Seq::empty()
        }) + parts[k],
{
    let next = parts.subrange(0, k + 1);
    assert(next.drop_last() =~= parts.subrange(0, k));
    if k == 0 {
        assert(joined(parts.subrange(0, 0), sep) + Seq::<char>::empty() + parts[0] =~= parts[0]);
    }
}

/// The lines of a text, as `str::lines` yields them.
pub fn text_lines(text: &[char]) -> (r: Vec<Vec<char>>)
    ensures
        texts_view(r@) == text_lines_spec(text@),
{
    let mut r: Vec<Vec<char>> = Vec::new();
    let mut current: Vec<char> = Vec::new();
    let mut i: usize = 0;
    while i < text.len()
        invariant
            i <= text@.len(),
            texts_view(r@) + lines_from(text@, i as int, current@) == text_lines_spec(text@),
        decreases text.len() - i,
    {
        if text[i] == '\n' {
            let ghost before = texts_view(r@);
            let ghost cur = current@;
            let mut line = current;
            if line.len() > 0 && line[line.len() - 1] == '\r' {
                line.pop();
            }
            assert(line@ =~= strip_cr(cur));
            r.push(line);
            current = Vec::new();
            proof {
                assert(texts_view(r@) =~= before.push(strip_cr(cur)));
                assert(current@ =~= Seq::<char>::empty());
                assert(before + lines_from(text@, i as int, cur) =~= before.push(strip_cr(cur))
                    + lines_from(text@, i + 1, current@));
            }
        } else {
            current.push(text[i]);
        }
        i = i + 1;
    }
    let ghost before = texts_view(r@);
    let ghost cur = current@;
    if current.len() > 0 {
        r.push(current);
        proof {
            assert(texts_view(r@) =~= before.push(cur));
            assert(before + seq![cur] =~= before.push(cur));
        }
    } else {
        proof {
            assert(before + Seq::<Seq<char>>::empty() =~= before);
        }
    }
    r
}

/// The number of spaces and tabs that `line[i..]` begins with, plus `i`.
pub open spec fn leading_blanks_from(line: Seq<char>, i: int) -> int
    decreases line.len() - i,
{
    if 0 <= i < line.len() && (line[i] == ' ' || line[i] == '\t') {
        leading_blanks_from(line, i + 1)
    } else {
        i
    }
}

/// The number of spaces and tabs that `line` begins with.
pub open spec fn leading_blanks(line: Seq<char>) -> int {
    leading_blanks_from(line, 0)
}

fn leading_blank_count(line: &[char]) -> (r: usize)
    ensures
        r <= line@.len(),
        r == leading_blanks(line@),
{
    let mut i: usize = 0;
    while i < line.len() && (line[i] == ' ' || line[i] == '\t')
        invariant
            i <= line@.len(),
            leading_blanks(line@) == leading_blanks_from(line@, i as int),
        decreases line.len() - i,
    {
        i = i + 1;
    }
    i
}

pub fn is_blank(line: &[char]) -> (r: bool)
    ensures
        r == all_white_space(line@),
{
    let mut i: usize = 0;
    while i < line.len()
        invariant
            i <= line@.len(),
            forall|k: int| 0 <= k < i ==> crate::text::is_white_space(#[trigger] line@[k]),
        decreases line.len() - i,
    {
        if !char_is_white_space(line[i]) {
            return false;
        }
        i = i + 1;
    }
    true
}

/// Whether `line`, without trailing white space, ends with `c`.
pub open spec fn trimmed_end_is_spec(line: Seq<char>, c: char) -> bool {
    trim_end_of(line) > 0 && line[trim_end_of(line) - 1] == c
}

/// Whether the text, without trailing white space, ends with `c`.
fn trimmed_end_is(line: &[char], c: char) -> (r: bool)
    ensures
        r == trimmed_end_is_spec(line@, c),
{
    let mut j = line.len();
    assert(line@.subrange(0, line@.len() as int) =~= line@);
    while j > 0 && char_is_white_space(line[j - 1])
        invariant
            j <= line@.len(),
            trim_end_of(line@) == trim_end_of(line@.subrange(0, j as int)),
        decreases j,
    {
        proof {
            assert(line@.subrange(0, j as int).drop_last() =~= line@.subrange(0, j - 1));
        }
        j = j - 1;
    }
    proof {
        assert(line@.subrange(0, line@.len() as int) =~= line@);
        if j > 0 {
            assert(trim_end_of(line@.subrange(0, j as int)) == j);
        } else {
            assert(trim_end_of(line@.subrange(0, 0)) == 0);
        }
    }
    j > 0 && line[j - 1] == c
}

/// The least indentation of the non-blank lines among `lines[1..k]`.
pub open spec fn shared_indent(lines: Seq<Seq<char>>, k: int) -> Option<int>
    decreases k,
{
    if k <= 1 {
        None
    } else {
        let previous = shared_indent(lines, k - 1);
        let line = lines[k - 1];
        if all_white_space(line) {
            previous
        } else {
            let n = leading_blanks(line);
            match previous {
                Some(s) => Some(
                    if n < s {
                        n
                    } else {
                        s
                    },
                ),
                None => Some(n),
            }
        }
    }
}

/// Line `k` of a text whose later lines lose `shared` columns of indentation.
pub open spec fn normalized_line(line: Seq<char>, k: int, shared: int) -> Seq<char> {
    if k == 0 || all_white_space(line) {
        line
    } else if shared <= line.len() {
        line.subrange(shared, line.len() as int)
    } else {
        Seq::empty()
    }
}

/// The text without the indentation that all its non-blank lines after the first share; kept
/// as it is when it has one line or its first line ends with `:`.
pub open spec fn normalize_indentation_spec(text: Seq<char>) -> Seq<char> {
    let lines = text_lines_spec(text);
    if lines.len() <= 1 || trimmed_end_is_spec(lines[0], ':') {
        text
    } else {
        let shared = match shared_indent(lines, lines.len() as int) {
            Some(s) => s,
            None => 0,
        };
        joined(Seq::new(lines.len(), |k: int| normalized_line(lines[k], k, shared)), '\n')
    }
}

/// Removes the indentation that all lines after the first share, unless the text has one
/// line or its first line ends with `:`.
pub fn normalize_indentation(text: &[char]) -> (r: Vec<char>)
    ensures
        r@ == normalize_indentation_spec(text@),
{
    let lines = text_lines(text);
    let ghost ls = text_lines_spec(text@);
    assert(lines@.len() == ls.len());
    if lines.len() <= 1 {
        let r = crate::text::copy_range(text, 0, text.len());
        assert(r@ =~= text@);
        return r;
    }
    assert(lines@[0]@ == ls[0]);
    if trimmed_end_is(&lines[0], ':') {
        let r = crate::text::copy_range(text, 0, text.len());
        assert(r@ =~= text@);
        return r;
    }
    let mut shared: Option<usize> = None;
    let mut k: usize = 1;
    while k < lines.len()
        invariant
            1 <= k <= lines@.len(),
            texts_view(lines@) == ls,
            match shared {
                Some(s) => shared_indent(ls, k as int) == Some(s as int),
                None => shared_indent(ls, k as int) is None,
            },
        decreases lines.len() - k,
    {
        assert(lines@[k as int]@ == ls[k as int]);
        if !is_blank(&lines[k]) {
            let n = leading_blank_count(&lines[k]);
            shared = match shared {
                Some(s) => if n < s {
                    Some(n)
                } else {
                    Some(s)
                },
                None => Some(n),
            };
        }
        k = k + 1;
    }
    let shared = match shared {
        Some(s) => s,
        None => 0,
    };
    assert(shared as int == match shared_indent(ls, ls.len() as int) {
        Some(s) => s,
        None => 0,
    });
    let ghost parts = Seq::new(ls.len(), |j: int| normalized_line(ls[j], j, shared as int));
    let mut out: Vec<char> = Vec::new();
    let mut k: usize = 0;
    while k < lines.len()
        invariant
            k <= lines@.len(),
            texts_view(lines@) == ls,
            parts == Seq::new(ls.len(), |j: int| normalized_line(ls[j], j, shared as int)),
            out@ == joined(parts.subrange(0, k as int), '\n'),
        decreases lines.len() - k,
    {
        proof {
            lemma_joined_step(parts, '\n', k as int);
        }
        if k > 0 {
            out.push('\n');
        }
        let line = &lines[k];
        assert(line@ == ls[k as int]);
        let ghost before = out@;
        if k == 0 || is_blank(line) {
            push_all(&mut out, line);
        } else {
            let skip = if shared <= line.len() {
                shared
            } else {
                line.len()
            };
            push_range(&mut out, line, skip, line.len());
            proof {
                if shared > line@.len() {
                    assert(line@.subrange(skip as int, line@.len() as int) =~= Seq::<char>::empty());
                }
            }
        }
        assert(out@ =~= before + parts[k as int]);
        k = k + 1;
    }
    assert(parts.subrange(0, ls.len() as int) =~= parts);
    out
}

/// Line `k` of a block whose later lines lose the leading `indent`.
pub open spec fn dedented_line(line: Seq<char>, k: int, indent: Seq<char>) -> Seq<char> {
    if k > 0 && crate::text::starts_with(line, indent) {
        line.subrange(indent.len() as int, line.len() as int)
    } else {
        line
    }
}

/// The lines of `text` joined again, each after the first without a leading `indent`.
pub open spec fn dedent_spec(text: Seq<char>, indent: Seq<char>) -> Seq<char> {
    let lines = text_lines_spec(text);
    joined(Seq::new(lines.len(), |k: int| dedented_line(lines[k], k, indent)), '\n')
}

/// Removes `indent` from the start of every line after the first.
pub fn dedent_source_block(text: &[char], indent: &[char]) -> (r: Vec<char>)
    ensures
        r@ == dedent_spec(text@, indent@),
{
    let lines = text_lines(text);
    let ghost ls = text_lines_spec(text@);
    let ghost parts = Seq::new(ls.len(), |j: int| dedented_line(ls[j], j, indent@));
    let mut out: Vec<char> = Vec::new();
    let mut k: usize = 0;
    while k < lines.len()
        invariant
            k <= lines@.len(),
            texts_view(lines@) == ls,
            parts == Seq::new(ls.len(), |j: int| dedented_line(ls[j], j, indent@)),
            out@ == joined(parts.subrange(0, k as int), '\n'),
        decreases lines.len() - k,
    {
        proof {
            lemma_joined_step(parts, '\n', k as int);
        }
        if k > 0 {
            out.push('\n');
        }
        let line = &lines[k];
        assert(line@ == ls[k as int]);
        let ghost before = out@;
        if k > 0 && crate::text::has_prefix_at(line, 0, indent) {
            assert(line@.subrange(0, line@.len() as int) =~= line@);
            push_range(&mut out, line, indent.len(), line.len());
        } else {
            assert(line@.subrange(0, line@.len() as int) =~= line@);
            push_all(&mut out, line);
        }
        assert(out@ =~= before + parts[k as int]);
        k = k + 1;
    }
    assert(parts.subrange(0, ls.len() as int) =~= parts);
    out
}

/// `n` spaces.
pub open spec fn spaces(n: nat) -> Seq<char> {
    Seq::new(n, |i: int| ' ')
}

/// `[location] `, the prefix of a located first line.
pub open spec fn location_prefix_spec(location: Seq<char>) -> Seq<char> {
    seq!['['] + location + seq![']', ' ']
}

/// Line `k` of a rendered block: empty lines stay empty, the first line follows the
/// indentation prefix and the location, later lines are aligned with it.
pub open spec fn block_line(
    prefix: Seq<char>,
    location: Option<Seq<char>>,
    k: int,
    line: Seq<char>,
) -> Seq<char> {
    if line.len() == 0 {
        Seq::empty()
    } else if k == 0 {
        match location {
            Some(l) => prefix + location_prefix_spec(l) + line,
            None => prefix + line,
        }
    } else {
        match location {
            Some(l) => prefix + spaces(location_prefix_spec(l).len()) + line,
            None => prefix + line,
        }
    }
}

/// A text rendered as a block at depth `indent`: its lines (indentation normalized unless it
/// is preserved) behind the depth's prefix, the first one after the location; an empty text
/// gives the prefix alone.
#[verifier::opaque]
pub open spec fn block_spec(
    indent: nat,
    text: Seq<char>,
    location: Option<Seq<char>>,
    preserve_indentation: bool,
) -> Seq<char> {
    let prefix = indent_prefix_spec(indent);
    let normalized = if preserve_indentation {
        text
    } else {
        normalize_indentation_spec(text)
    };
    let lines = text_lines_spec(normalized);
    joined(Seq::new(lines.len(), |k: int| block_line(prefix, location, k, lines[k])), '\n') + (
    if text.len() == 0 {
        prefix
    } else {
        Seq::empty()
    })
}

/// Appends `text` line by line, each non-empty line behind the indentation prefix and the
/// first behind the location, continuation lines aligned with the first.
fn push_indented_block(
    output: &mut Vec<char>,
    indent: usize,
    text: &[char],
    location: Option<Vec<char>>,
    preserve_indentation: bool,
)
    ensures
        final(output)@ == old(output)@ + block_spec(
            indent as nat,
            text@,
            match location {
                Some(l) => Some(l@),
                None => None,
            },
            preserve_indentation,
        ),
{
    reveal(block_spec);
    let ghost loc = match &location {
        Some(l) => Some(l@),
        None => None::<Seq<char>>,
    };
    let prefix = indent_prefix(indent);
    let normalized = if preserve_indentation {
        crate::text::copy_range(text, 0, text.len())
    } else {
        normalize_indentation(text)
    };
    assert(preserve_indentation ==> normalized@ =~= text@);
    let location_prefix: Option<Vec<char>> = match location {
        Some(l) => {
            let mut p: Vec<char> = Vec::new();
            p.push('[');
            push_all(&mut p, &l);
            push_str(&mut p, "] ");
            proof {
                reveal_strlit("] ");
                assert(p@ =~= location_prefix_spec(l@));
            }
            Some(p)
        },
        None => None,
    };
    let mut continuation = crate::text::copy_range(&prefix, 0, prefix.len());
    assert(continuation@ =~= prefix@);
    match &location_prefix {
        Some(lp) => {
            let mut i: usize = 0;
            while i < lp.len()
                invariant
                    i <= lp@.len(),
                    continuation@ == prefix@ + spaces(i as nat),
                decreases lp.len() - i,
            {
                continuation.push(' ');
                i = i + 1;
                assert(continuation@ =~= prefix@ + spaces(i as nat));
            }
        },
        None => {},
    }
    let lines = text_lines(&normalized);
    let ghost ls = text_lines_spec(normalized@);
    let ghost parts = Seq::new(ls.len(), |j: int| block_line(prefix@, loc, j, ls[j]));
    let ghost start = output@;
    let mut k: usize = 0;
    while k < lines.len()
        invariant
            k <= lines@.len(),
            texts_view(lines@) == ls,
            parts == Seq::new(ls.len(), |j: int| block_line(prefix@, loc, j, ls[j])),
            output@ == start + joined(parts.subrange(0, k as int), '\n'),
            match location_prefix {
                Some(lp) => loc matches Some(l) && lp@ == location_prefix_spec(l)
                    && continuation@ == prefix@ + spaces(location_prefix_spec(l).len()),
                None => loc is None && continuation@ == prefix@,
            },
        decreases lines.len() - k,
    {
        proof {
            lemma_joined_step(parts, '\n', k as int);
        }
        if k > 0 {
            output.push('\n');
        }
        let line = &lines[k];
        assert(line@ == ls[k as int]);
        let ghost before = output@;
        if line.len() > 0 {
            if k == 0 {
                push_all(output, &prefix);
                match &location_prefix {
                    Some(lp) => push_all(output, lp),
                    None => {},
                }
            } else {
                push_all(output, &continuation);
            }
            push_all(output, line);
        }
        assert(output@ =~= before + parts[k as int]);
        k = k + 1;
    }
    assert(parts.subrange(0, ls.len() as int) =~= parts);
    if text.len() == 0 {
        push_all(output, &prefix);
    }
}

fn opt_text<'a>(s: &'a Option<String>, fallback: &'a String) -> (r: &'a String)
    ensures
        r@ == opt_view(*s, *fallback),
{
    match s {
        Some(t) => t,
        None => fallback,
    }
}

/// The text of an optional string, or of the fallback when there is none.
pub open spec fn opt_view(s: Option<String>, fallback: String) -> Seq<char> {
    match s {
        Some(t) => t@,
        None => fallback@,
    }
}

/// Whether an item is rendered with its full body.
pub open spec fn renders_full_body(kind: AstItemKind, options: AstRenderOptions) -> bool {
    (kind == AstItemKind::Function && options.include_function_bodies) || (
    kind.spec_supports_type_bodies() && options.include_type_bodies)
}

/// The text rendered for an item: its body, its signature or its summary.
pub open spec fn item_text(item: AstItem, options: AstRenderOptions) -> Seq<char> {
    if renders_full_body(item.kind, options) {
        opt_view(item.body, item.summary)
    } else if options.include_signatures {
        opt_view(item.signature, item.summary)
    } else {
        item.summary@
    }
}

/// What is rendered above an item's text: its attributes (Rust) or preamble (Rust, Go), with
/// its docs when they are shown, or its docs alone.
pub open spec fn item_preamble(item: AstItem, language: AstLanguage, options: AstRenderOptions) -> Option<
    String,
> {
    let full = renders_full_body(item.kind, options);
    let with_preamble = (language == AstLanguage::Rust && (full || options.include_signatures)) || (
    language == AstLanguage::Go && full);
    let separate_docs = options.include_docs && !(full && language == AstLanguage::Python);
    if with_preamble {
        if separate_docs {
            item.source_preamble
        } else {
            item.attributes
        }
    } else if separate_docs {
        item.docs
    } else {
        None
    }
}

/// The depth of an item's children.
pub open spec fn child_depth(indent: usize) -> usize {
    if indent < usize::MAX {
        (indent + 1) as usize
    } else {
        indent
    }
}

/// The preamble part of a rendered item, with the line break that follows it.
pub open spec fn preamble_part(item: AstItem, language: AstLanguage, options: AstRenderOptions, indent: usize) -> Seq<char> {
    match item_preamble(item, language, options) {
        Some(p) => block_spec(indent as nat, p@, None, false) + seq!['\n'],
        None => Seq::empty(),
    }
}

/// The text part of a rendered item, located when locations are shown.
pub open spec fn text_part(item: AstItem, language: AstLanguage, options: AstRenderOptions, indent: usize) -> Seq<char> {
    let location = if options.include_locations {
        Some(location_display(item.location))
    } else {
        None
    };
    block_spec(indent as nat, item_text(item, options), location, language == AstLanguage::Python)
}

/// The inner docs of a Rust item, on a line of their own one level deeper.
pub open spec fn inner_docs_part(item: AstItem, language: AstLanguage, options: AstRenderOptions, depth: usize) -> Seq<char> {
    if language == AstLanguage::Rust && options.include_docs {
        match item.inner_docs {
            Some(d) => seq!['\n'] + block_spec(depth as nat, d@, None, false),
            None => Seq::empty(),
        }
    } else {
        Seq::empty()
    }
}

/// An item rendered at depth `indent`: its preamble, its text (with its location when
/// locations are shown) and, unless its full body is shown, its inner docs and its children
/// one level deeper, each on a line of its own.
pub open spec fn render_item_spec(
    item: AstItem,
    language: AstLanguage,
    options: AstRenderOptions,
    indent: usize,
) -> Seq<char>
    decreases item, 1nat, 0nat,
{
    let pre = preamble_part(item, language, options, indent);
    let main = text_part(item, language, options, indent);
    if renders_full_body(item.kind, options) {
        pre + main
    } else {
        let depth = child_depth(indent);
        pre + main + inner_docs_part(item, language, options, depth) + render_children_spec(
            item,
            language,
            options,
            depth,
            item.children@.len() as nat,
        )
    }
}

/// The first `k` children of `parent` rendered at depth `indent`, each after a line break.
pub open spec fn render_children_spec(
    parent: AstItem,
    language: AstLanguage,
    options: AstRenderOptions,
    indent: usize,
    k: nat,
) -> Seq<char>
    decreases parent, 0nat, k,
{
    if k == 0 || k > parent.children@.len() {
        Seq::empty()
    } else {
        proof {
            assert(decreases_to!(parent => parent.children@[k - 1]));
        }
        render_children_spec(parent, language, options, indent, (k - 1) as nat) + seq!['\n']
            + render_item_spec(parent.children@[k - 1], language, options, indent)
    }
}

/// The preamble rendered above an item.
fn item_preamble_of<'a>(item: &'a AstItem, language: AstLanguage, options: AstRenderOptions) -> (r:
    Option<&'a String>)
    ensures
        match item_preamble(*item, language, options) {
            Some(p) => r == Some(&p),
            None => r is None,
        },
{
    let render_full_body = (item.kind.supports_function_bodies() && options.include_function_bodies)
        || (item.kind.supports_type_bodies() && options.include_type_bodies);
    let render_rust_preamble = language == AstLanguage::Rust && (render_full_body
        || options.include_signatures);
    let render_go_preamble = language == AstLanguage::Go && render_full_body;
    let include_separate_docs = options.include_docs && !(render_full_body && language
        == AstLanguage::Python);
    if render_rust_preamble || render_go_preamble {
        if include_separate_docs {
            item.source_preamble.as_ref()
        } else {
            item.attributes.as_ref()
        }
    } else if include_separate_docs {
        item.docs.as_ref()
    } else {
        None
    }
}

/// The text rendered for an item.
fn item_text_of<'a>(item: &'a AstItem, options: AstRenderOptions) -> (r: &'a String)
    ensures
        r@ == item_text(*item, options),
{
    let render_full_body = (item.kind.supports_function_bodies() && options.include_function_bodies)
        || (item.kind.supports_type_bodies() && options.include_type_bodies);
    if render_full_body {
        opt_text(&item.body, &item.summary)
    } else if options.include_signatures {
        opt_text(&item.signature, &item.summary)
    } else {
        &item.summary
    }
}

#[verifier::spinoff_prover]
fn render_item(
    item: &AstItem,
    language: AstLanguage,
    options: AstRenderOptions,
    indent: usize,
    output: &mut Vec<char>,
)
    ensures
        final(output)@ == old(output)@ + render_item_spec(*item, language, options, indent),
    decreases item,
{
    let render_full_body = (item.kind.supports_function_bodies() && options.include_function_bodies)
        || (item.kind.supports_type_bodies() && options.include_type_bodies);
    assert(render_full_body == renders_full_body(item.kind, options));
    let text = item_text_of(item, options);
    let preamble = item_preamble_of(item, language, options);
    let ghost start = output@;
    match preamble {
        Some(p) => {
            let pc = chars_of(p.as_str());
            push_indented_block(output, indent, &pc, None, false);
            output.push('\n');
        },
        None => {},
    }
    let location = if options.include_locations {
        Some(item.location.display_chars())
    } else {
        None
    };
    let tc = chars_of(text.as_str());
    push_indented_block(output, indent, &tc, location, language == AstLanguage::Python);
    let ghost pre = preamble_part(*item, language, options, indent);
    let ghost main = text_part(*item, language, options, indent);
    assert(output@ =~= start + pre + main);
    if !render_full_body {
        let child_indent = if indent < usize::MAX {
            indent + 1
        } else {
            indent
        };
        if language == AstLanguage::Rust && options.include_docs {
            match &item.inner_docs {
                Some(inner) => {
                    output.push('\n');
                    let ic = chars_of(inner.as_str());
                    push_indented_block(output, child_indent, &ic, None, false);
                },
                None => {},
            }
        }
        let ghost inner = inner_docs_part(*item, language, options, child_indent);
        assert(output@ =~= start + pre + main + inner);
        let mut k: usize = 0;
        while k < item.children.len()
            invariant
                k <= item.children@.len(),
                output@ == start + pre + main + inner + render_children_spec(
                    *item,
                    language,
                    options,
                    child_indent,
                    k as nat,
                ),
            decreases item.children.len() - k,
        {
            assert(decreases_to!(item => item.children@[k as int]));
            output.push('\n');
            render_item(&item.children[k], language, options, child_indent, output);
            k = k + 1;
        }
    }
}

// ---------------------------------------------------------------------------------------------
// Files
// ---------------------------------------------------------------------------------------------
/// The outline of one source file.
#[derive(Debug)]
pub struct FileAst {
    pub language: AstLanguage,
    pub root_docs: Option<String>,
    pub items: Vec<AstItem>,
    pub has_errors: bool,
    pub first_error: Option<AstSyntaxErrorLocation>,
}

/// The node that `first_syntax_error` reports: the first node in pre-order that is an error or
/// a missing token.
pub open spec fn is_first_error_node(tree: SyntaxTree, n: int) -> bool {
    &&& 0 <= n < tree.nodes@.len()
    &&& (tree.nodes@[n].is_error || tree.nodes@[n].is_missing)
    &&& forall|m: int|
        0 <= m < n ==> !(#[trigger] tree.nodes@[m].is_error || tree.nodes@[m].is_missing)
}

/// The location of the first error or missing node from node `n` on, in pre-order.
pub open spec fn first_error_from(tree: SyntaxTree, n: int) -> Option<AstSyntaxErrorLocation>
    decreases tree.nodes@.len() - n,
{
    if n < 0 || n >= tree.nodes@.len() {
        None
    } else if tree.nodes@[n].is_error || tree.nodes@[n].is_missing {
        Some(
            AstSyntaxErrorLocation {
                line: tree.nodes@[n].start_row,
                column: tree.nodes@[n].start_column,
                is_missing: tree.nodes@[n].is_missing,
            },
        )
    } else {
        first_error_from(tree, n + 1)
    }
}

/// The location of the first error or missing node, in pre-order.
pub open spec fn first_error_spec(tree: SyntaxTree) -> Option<AstSyntaxErrorLocation> {
    first_error_from(tree, 0)
}

/// The location of the first error or missing node, in pre-order.
pub fn first_syntax_error(tree: &SyntaxTree) -> (r: Option<AstSyntaxErrorLocation>)
    ensures
        r == first_error_spec(*tree),
        r matches Some(l) ==> (exists|n: int|
            is_first_error_node(*tree, n) && l == (AstSyntaxErrorLocation {
                line: tree.nodes@[n].start_row,
                column: tree.nodes@[n].start_column,
                is_missing: tree.nodes@[n].is_missing,
            })),
        r is None ==> forall|n: int|
            0 <= n < tree.nodes@.len() ==> !(#[trigger] tree.nodes@[n].is_error
                || tree.nodes@[n].is_missing),
{
    let mut n: usize = 0;
    while n < tree.nodes.len()
        invariant
            n <= tree.nodes@.len(),
            forall|m: int| 0 <= m < n ==> !(#[trigger] tree.nodes@[m]).is_error,
            forall|m: int| 0 <= m < n ==> !(#[trigger] tree.nodes@[m]).is_missing,
            first_error_spec(*tree) == first_error_from(*tree, n as int),
        decreases tree.nodes.len() - n,
    {
        let node = &tree.nodes[n];
        if node.is_error || node.is_missing {
            proof {
                assert(is_first_error_node(*tree, n as int));
            }
            return Some(
                AstSyntaxErrorLocation {
                    line: node.start_row,
                    column: node.start_column,
                    is_missing: node.is_missing,
                },
            );
        }
        n = n + 1;
    }
    None
}

/// Whether two line ranges share a line.
pub open spec fn lines_overlap(a: AstLocationRange, b: AstLocationRange) -> bool {
    a.start_line < b.end_line && b.start_line < a.end_line
}

/// Whether item `i` shares a line with one of its siblings.
pub open spec fn overlaps_sibling(items: Seq<AstItem>, i: int) -> bool {
    exists|j: int|
        0 <= j < items.len() && j != i && lines_overlap(items[i].location, #[trigger] items[j].location)
}

/// An item that is no longer edit-ready when it shares a line with a sibling.
pub open spec fn with_sibling_overlap(items: Seq<AstItem>, i: int) -> AstItem {
    let item = items[i];
    AstItem {
        location: AstLocationRange {
            is_edit_ready: item.location.is_edit_ready && !overlaps_sibling(items, i),
            ..item.location
        },
        ..item
    }
}

/// Whether an item shares a line with a sibling depends only on the lines of the items.
pub proof fn lemma_overlap_same_lines(a: Seq<AstItem>, b: Seq<AstItem>, i: int)
    requires
        a.len() == b.len(),
        forall|k: int|
            0 <= k < a.len() ==> (#[trigger] a[k]).location.start_line == b[k].location.start_line
                && a[k].location.end_line == b[k].location.end_line,
        0 <= i < a.len(),
    ensures
        overlaps_sibling(a, i) == overlaps_sibling(b, i),
{
    if overlaps_sibling(a, i) {
        let j = choose|j: int|
            0 <= j < a.len() && j != i && lines_overlap(a[i].location, #[trigger] a[j].location);
        assert(lines_overlap(b[i].location, b[j].location));
    }
    if overlaps_sibling(b, i) {
        let j = choose|j: int|
            0 <= j < b.len() && j != i && lines_overlap(b[i].location, #[trigger] b[j].location);
        assert(lines_overlap(a[i].location, a[j].location));
    }
}

/// Two siblings that share a line are both marked as not edit-ready.
pub proof fn lemma_overlapping_siblings_are_shared(items: Seq<AstItem>, i: int, j: int)
    requires
        0 <= i < items.len(),
        0 <= j < items.len(),
        i != j,
        lines_overlap(items[i].location, items[j].location),
    ensures
        !with_sibling_overlap(items, i).location.is_edit_ready,
        !with_sibling_overlap(items, j).location.is_edit_ready,
{
    assert(lines_overlap(items[i].location, items[j].location));
    assert(lines_overlap(items[j].location, items[i].location));
    assert(overlaps_sibling(items, i));
    assert(overlaps_sibling(items, j));
}

/// Marks items whose line ranges overlap a sibling's as not edit-ready, in this one list; the
/// children are kept as they are.
pub fn mark_overlapping_siblings(items: Vec<AstItem>) -> (r: Vec<AstItem>)
    ensures
        r@.len() == items@.len(),
        forall|k: int| 0 <= k < r@.len() ==> #[trigger] r@[k] == with_sibling_overlap(items@, k),
{
    let n = items.len();
    let mut shared: Vec<bool> = Vec::new();
    let mut i: usize = 0;
    while i < n
        invariant
            n == items@.len(),
            i <= n,
            shared@.len() == i,
            forall|x: int| 0 <= x < i ==> #[trigger] shared@[x] == overlaps_sibling(items@, x),
        decreases n - i,
    {
        let mut hit = false;
        let mut j: usize = 0;
        while j < n
            invariant
                n == items@.len(),
                i < n,
                j <= n,
                hit == exists|x: int|
                    0 <= x < j && x != i && lines_overlap(
                        items@[i as int].location,
                        #[trigger] items@[x].location,
                    ),
            decreases n - j,
        {
            if j != i {
                let a = items[i].location;
                let b = items[j].location;
                if a.start_line < b.end_line && b.start_line < a.end_line {
                    hit = true;
                }
            }
            j = j + 1;
        }
        proof {
            assert(hit == overlaps_sibling(items@, i as int));
        }
        shared.push(hit);
        i = i + 1;
    }
    let mut out: Vec<AstItem> = Vec::new();
    let mut rest = items;
    let ghost original = rest@;
    let mut k: usize = 0;
    while rest.len() > 0
        invariant
            n == original.len(),
            shared@.len() == n,
            k + rest@.len() == n,
            out@.len() == k,
            forall|x: int| 0 <= x < rest@.len() ==> rest@[x] == original[k + x],
            forall|x: int| 0 <= x < n ==> #[trigger] shared@[x] == overlaps_sibling(original, x),
            forall|x: int| 0 <= x < k ==> #[trigger] out@[x] == with_sibling_overlap(original, x),
        decreases rest.len(),
    {
        let mut item = rest.remove(0);
        assert(item == original[k as int]);
        if shared[k] {
            item.location.is_edit_ready = false;
        }
        assert(item == with_sibling_overlap(original, k as int));
        out.push(item);
        k = k + 1;
    }
    out
}

/// Whether the first `k` items of `r` are those of `items`, each marked as not edit-ready where
/// it shares a line with a sibling, with their children marked in the same way, all the way down.
pub open spec fn marked_prefix(items: Seq<AstItem>, r: Seq<AstItem>, k: int) -> bool
    decreases items, k,
{
    if k <= 0 || k > items.len() {
        k == 0
    } else {
        let i = k - 1;
        let children = items[i].children@;
        proof {
            assert(decreases_to!(items => items[i]));
            assert(decreases_to!(items[i] => items[i].children));
            assert(decreases_to!(items[i].children => children));
        }
        &&& marked_prefix(items, r, i)
        &&& r[i] == AstItem {
            location: with_sibling_overlap(items, i).location,
            children: r[i].children,
            ..items[i]
        }
        &&& r[i].children@.len() == children.len()
        &&& marked_prefix(children, r[i].children@, children.len() as int)
    }
}

/// Whether `r` is `items` with every item that shares a line with a sibling marked as not
/// edit-ready, in the list itself and in every list of children below it.
pub open spec fn siblings_marked(items: Seq<AstItem>, r: Seq<AstItem>) -> bool {
    r.len() == items.len() && marked_prefix(items, r, items.len() as int)
}

/// Whether the first `k` items are marked depends only on those first `k` items of the result.
proof fn lemma_marked_prefix_stable(items: Seq<AstItem>, a: Seq<AstItem>, b: Seq<AstItem>, k: int)
    requires
        0 <= k <= items.len(),
        k <= a.len(),
        k <= b.len(),
        forall|x: int| 0 <= x < k ==> a[x] == b[x],
    ensures
        marked_prefix(items, a, k) == marked_prefix(items, b, k),
    decreases k,
{
    if k > 0 {
        lemma_marked_prefix_stable(items, a, b, k - 1);
    }
}

/// What marking keeps and changes of one item: every field but the location's readiness and the
/// children stays, readiness is lost where the item shares a line with a sibling, and its
/// children are marked in turn.
pub proof fn lemma_siblings_marked_item(items: Seq<AstItem>, r: Seq<AstItem>, k: int)
    requires
        siblings_marked(items, r),
        0 <= k < items.len(),
    ensures
        r[k] == (AstItem {
            location: with_sibling_overlap(items, k).location,
            children: r[k].children,
            ..items[k]
        }),
        siblings_marked(items[k].children@, r[k].children@),
{
    lemma_marked_prefix_at(items, r, items.len() as int, k);
}

proof fn lemma_marked_prefix_at(items: Seq<AstItem>, r: Seq<AstItem>, n: int, k: int)
    requires
        marked_prefix(items, r, n),
        0 <= k < n <= items.len(),
    ensures
        r[k] == (AstItem {
            location: with_sibling_overlap(items, k).location,
            children: r[k].children,
            ..items[k]
        }),
        siblings_marked(items[k].children@, r[k].children@),
    decreases n,
{
    if k < n - 1 {
        lemma_marked_prefix_at(items, r, n - 1, k);
    }
}

/// Two siblings that share a line both lose their readiness, at any depth of the outline.
pub proof fn lemma_marked_overlapping_siblings(items: Seq<AstItem>, r: Seq<AstItem>, i: int, j: int)
    requires
        siblings_marked(items, r),
        0 <= i < items.len(),
        0 <= j < items.len(),
        i != j,
        lines_overlap(items[i].location, items[j].location),
    ensures
        !r[i].location.is_edit_ready,
        !r[j].location.is_edit_ready,
{
    lemma_siblings_marked_item(items, r, i);
    lemma_siblings_marked_item(items, r, j);
    lemma_overlapping_siblings_are_shared(items, i, j);
}

/// Marks items whose line ranges overlap a sibling's as not edit-ready, in the list and in every
/// list of children below it.
pub fn mark_overlapping_sibling_locations(items: Vec<AstItem>) -> (r: Vec<AstItem>)
    ensures
        siblings_marked(items@, r@),
    decreases items@,
{
    let ghost original = items@;
    let top = mark_overlapping_siblings(items);
    let n = top.len();
    let mut out: Vec<AstItem> = Vec::new();
    let mut rest = top;
    let ghost marked = rest@;
    let mut k: usize = 0;
    while rest.len() > 0
        invariant
            n == original.len(),
            marked.len() == n,
            forall|x: int| 0 <= x < n ==> #[trigger] marked[x] == with_sibling_overlap(original, x),
            k + rest@.len() == n,
            out@.len() == k,
            forall|x: int| 0 <= x < rest@.len() ==> rest@[x] == marked[k + x],
            marked_prefix(original, out@, k as int),
            original == items@,
        decreases rest.len(),
    {
        let item = rest.remove(0);
        assert(item == marked[k as int]);
        let AstItem {
            kind,
            name,
            associated_type,
            location,
            docs,
            inner_docs,
            attributes,
            source_preamble,
            summary,
            signature,
            body,
            children,
        } = item;
        proof {
            assert(children == original[k as int].children);
            assert(decreases_to!(original => original[k as int]));
            assert(decreases_to!(original[k as int] => original[k as int].children));
            assert(decreases_to!(original[k as int].children => children@));
            assert(decreases_to!(original => children@));
        }
        let marked_children = mark_overlapping_sibling_locations(children);
        let ghost before = out@;
        out.push(
            AstItem {
                kind,
                name,
                associated_type,
                location,
                docs,
                inner_docs,
                attributes,
                source_preamble,
                summary,
                signature,
                body,
                children: marked_children,
            },
        );
        proof {
            lemma_marked_prefix_stable(original, before, out@, k as int);
        }
        k = k + 1;
    }
    out
}

/// The file's own docs, rendered when docs are shown.
pub open spec fn root_docs_part(root_docs: Option<String>, options: AstRenderOptions) -> Seq<char> {
    if options.include_docs {
        match root_docs {
            Some(d) => block_spec(0, d@, None, false),
            None => Seq::empty(),
        }
    } else {
        Seq::empty()
    }
}

/// `head` followed by the first `n` items, each at depth zero and after a line break unless
/// nothing precedes it.
pub open spec fn render_items_spec(
    head: Seq<char>,
    items: Seq<AstItem>,
    language: AstLanguage,
    options: AstRenderOptions,
    n: nat,
) -> Seq<char>
    decreases n,
{
    if n == 0 || n > items.len() {
        head
    } else {
        let previous = render_items_spec(head, items, language, options, (n - 1) as nat);
        previous + (if previous.len() > 0 || n > 1 {
            seq!['\n']
        } else {
            Seq::empty()
        }) + render_item_spec(items[n - 1], language, options, 0)
    }
}

/// An outline's rendering of `items`: the file's docs when shown, then the items.
pub open spec fn render_outline(
    file: FileAst,
    items: Seq<AstItem>,
    options: AstRenderOptions,
) -> Seq<char> {
    render_items_spec(
        root_docs_part(file.root_docs, options),
        items,
        file.language,
        options,
        items.len(),
    )
}

/// Whether a selector picks `item` under some module path.
pub open spec fn picked_somewhere(
    item: AstItem,
    item_patterns: Seq<Seq<char>>,
    type_patterns: Seq<Seq<char>>,
) -> bool {
    exists|parent: Option<Seq<char>>|
        item_selected_spec(
            item,
            #[trigger] selector_path_spec(item, parent),
            item_patterns,
            type_patterns,
        )
}

proof fn lemma_collect_picked(
    item: AstItem,
    parent: Option<Seq<char>>,
    item_patterns: Seq<Seq<char>>,
    type_patterns: Seq<Seq<char>>,
)
    ensures
        forall|j: int|
            0 <= j < collect_spec(item, parent, item_patterns, type_patterns).len()
                ==> picked_somewhere(
                #[trigger] collect_spec(item, parent, item_patterns, type_patterns)[j],
                item_patterns,
                type_patterns,
            ),
    decreases item, 1nat, 0nat,
{
    if item_selected_spec(item, selector_path_spec(item, parent), item_patterns, type_patterns) {
        assert(collect_spec(item, parent, item_patterns, type_patterns) == seq![item]);
        assert(picked_somewhere(item, item_patterns, type_patterns));
        assert(collect_spec(item, parent, item_patterns, type_patterns)[0] == item);
    } else {
        lemma_collect_children_picked(
            item,
            child_context_spec(item, parent),
            item_patterns,
            type_patterns,
            item.children@.len() as nat,
        );
        assert(collect_spec(item, parent, item_patterns, type_patterns) == collect_children_spec(
            item,
            child_context_spec(item, parent),
            item_patterns,
            type_patterns,
            item.children@.len() as nat,
        ));
    }
}

proof fn lemma_collect_children_picked(
    item: AstItem,
    context: Option<Seq<char>>,
    item_patterns: Seq<Seq<char>>,
    type_patterns: Seq<Seq<char>>,
    k: nat,
)
    ensures
        forall|j: int|
            0 <= j < collect_children_spec(item, context, item_patterns, type_patterns, k).len()
                ==> picked_somewhere(
                #[trigger] collect_children_spec(item, context, item_patterns, type_patterns, k)[j],
                item_patterns,
                type_patterns,
            ),
    decreases item, 0nat, k,
{
    if k > 0 && k <= item.children@.len() {
        assert(decreases_to!(item => item.children@[k - 1]));
        lemma_collect_children_picked(item, context, item_patterns, type_patterns, (k - 1) as nat);
        lemma_collect_picked(item.children@[k - 1], context, item_patterns, type_patterns);
        let a = collect_children_spec(item, context, item_patterns, type_patterns, (k - 1) as nat);
        let b = collect_spec(item.children@[k - 1], context, item_patterns, type_patterns);
        assert forall|j: int| 0 <= j < (a + b).len() implies picked_somewhere(
            #[trigger] (a + b)[j],
            item_patterns,
            type_patterns,
        ) by {
            if j < a.len() {
                assert((a + b)[j] == a[j]);
            } else {
                assert((a + b)[j] == b[j - a.len()]);
            }
        }
    }
}

proof fn lemma_select_picked(
    items: Seq<AstItem>,
    item_patterns: Seq<Seq<char>>,
    type_patterns: Seq<Seq<char>>,
    n: nat,
)
    ensures
        forall|j: int|
            0 <= j < select_spec(items, item_patterns, type_patterns, n).len() ==> picked_somewhere(
                #[trigger] select_spec(items, item_patterns, type_patterns, n)[j],
                item_patterns,
                type_patterns,
            ),
    decreases n,
{
    if n > 0 && n <= items.len() {
        lemma_select_picked(items, item_patterns, type_patterns, (n - 1) as nat);
        lemma_collect_picked(items[n - 1], None, item_patterns, type_patterns);
        let a = select_spec(items, item_patterns, type_patterns, (n - 1) as nat);
        let b = collect_spec(items[n - 1], None, item_patterns, type_patterns);
        assert forall|j: int| 0 <= j < (a + b).len() implies picked_somewhere(
            #[trigger] (a + b)[j],
            item_patterns,
            type_patterns,
        ) by {
            if j < a.len() {
                assert((a + b)[j] == a[j]);
            } else {
                assert((a + b)[j] == b[j - a.len()]);
            }
        }
    }
}

/// Every item that a selector yields is one that its patterns pick, by its path under some
/// module path or as a type: a selection holds nothing unrelated.
pub proof fn lemma_selection_is_picked(file: FileAst, selector: AstSelector, k: int)
    requires
        0 <= k < selection(file, selector).len(),
    ensures
        picked_somewhere(
            selection(file, selector)[k],
            string_views(selector.item_patterns@),
            string_views(selector.type_patterns@),
        ),
{
    lemma_select_picked(
        file.items@,
        string_views(selector.item_patterns@),
        string_views(selector.type_patterns@),
        file.items@.len(),
    );
}

/// Whether every pattern of a selector is a glob that `globset` accepts.
pub open spec fn selector_compiles(selector: AstSelector) -> bool {
    all_globs_compile(selector.item_patterns@) && all_globs_compile(selector.type_patterns@)
}

/// The items of an outline that a selector picks.
pub open spec fn selection(file: FileAst, selector: AstSelector) -> Seq<AstItem> {
    select_spec(
        file.items@,
        string_views(selector.item_patterns@),
        string_views(selector.type_patterns@),
        file.items@.len(),
    )
}

proof fn lemma_same_preamble(a: AstItem, b: AstItem, language: AstLanguage, options: AstRenderOptions)
    requires
        same_item(a, b),
    ensures
        opt_seq(item_preamble(a, language, options)) == opt_seq(item_preamble(b, language, options)),
{
}

/// Items that are the same render the same.
proof fn lemma_same_item_renders(
    a: AstItem,
    b: AstItem,
    language: AstLanguage,
    options: AstRenderOptions,
    indent: usize,
)
    requires
        same_item(a, b),
    ensures
        render_item_spec(a, language, options, indent) == render_item_spec(
            b,
            language,
            options,
            indent,
        ),
    decreases a, 1nat, 0nat,
{
    lemma_same_preamble(a, b, language, options);
    assert(preamble_part(a, language, options, indent) == preamble_part(b, language, options, indent));
    assert(text_part(a, language, options, indent) == text_part(b, language, options, indent));
    let depth = child_depth(indent);
    assert(inner_docs_part(a, language, options, depth) == inner_docs_part(b, language, options, depth));
    lemma_same_children_render(a, b, language, options, depth, a.children@.len() as nat);
}

proof fn lemma_same_children_render(
    a: AstItem,
    b: AstItem,
    language: AstLanguage,
    options: AstRenderOptions,
    indent: usize,
    k: nat,
)
    requires
        same_children(a, b, k),
        a.children@.len() == b.children@.len(),
    ensures
        render_children_spec(a, language, options, indent, k) == render_children_spec(
            b,
            language,
            options,
            indent,
            k,
        ),
    decreases a, 0nat, k,
{
    if k > 0 && k <= a.children@.len() {
        assert(decreases_to!(a => a.children@[k - 1]));
        lemma_same_children_render(a, b, language, options, indent, (k - 1) as nat);
        lemma_same_item_renders(a.children@[k - 1], b.children@[k - 1], language, options, indent);
    }
}

proof fn lemma_same_items_render(
    head: Seq<char>,
    xs: Seq<AstItem>,
    ys: Seq<AstItem>,
    language: AstLanguage,
    options: AstRenderOptions,
    n: nat,
)
    requires
        same_items(xs, ys),
        n <= xs.len(),
    ensures
        render_items_spec(head, xs, language, options, n) == render_items_spec(
            head,
            ys,
            language,
            options,
            n,
        ),
    decreases n,
{
    if n > 0 {
        lemma_same_items_render(head, xs, ys, language, options, (n - 1) as nat);
        lemma_same_item_renders(xs[n - 1], ys[n - 1], language, options, 0);
    }
}

impl FileAst {
    /// Renders the whole outline.
    pub fn render(&self, options: AstRenderOptions) -> (r: String)
        ensures
            r@ == render_outline(*self, self.items@, options),
    {
        let v = self.render_items(&self.items, options);
        string_of(&v)
    }

    /// The items that a selector picks: an item that matches is taken whole and its children
    /// are not searched further.
    pub fn select_items(&self, selector: &AstSelector) -> (r: Result<Vec<AstItem>, SmartEditError>)
        ensures
            r is Ok <==> selector_compiles(*selector),
            r matches Ok(v) ==> same_items(v@, selection(*self, *selector)),
            r matches Err(e) ==> e is InvalidAstSelectorPattern,
    {
        let item_patterns = compile_patterns(&selector.item_patterns)?;
        let type_patterns = compile_patterns(&selector.type_patterns)?;
        let compiled = CompiledAstSelector { item_patterns, type_patterns };
        let ghost ips = string_views(selector.item_patterns@);
        let ghost tps = string_views(selector.type_patterns@);
        let mut selected: Vec<AstItem> = Vec::new();
        let mut k: usize = 0;
        while k < self.items.len()
            invariant
                k <= self.items@.len(),
                patterns_wf(compiled.item_patterns@),
                patterns_wf(compiled.type_patterns@),
                pattern_views(compiled.item_patterns@) == ips,
                pattern_views(compiled.type_patterns@) == tps,
                same_items(selected@, select_spec(self.items@, ips, tps, k as nat)),
            decreases self.items.len() - k,
        {
            let ghost before = selected@;
            collect_selected_items(&self.items[k], None, &compiled, &mut selected);
            proof {
                let prev = select_spec(self.items@, ips, tps, k as nat);
                let more = collect_spec(self.items@[k as int], None, ips, tps);
                let next = select_spec(self.items@, ips, tps, (k + 1) as nat);
                assert(next == prev + more);
                let added = selected@.subrange(before.len() as int, selected@.len() as int);
                assert forall|j: int| 0 <= j < selected@.len() implies same_item(
                    #[trigger] selected@[j],
                    next[j],
                ) by {
                    if j < before.len() {
                        assert(selected@[j] == selected@.subrange(0, before.len() as int)[j]);
                    } else {
                        assert(selected@[j] == added[j - before.len()]);
                    }
                }
            }
            k = k + 1;
        }
        Ok(selected)
    }

    /// Renders the selected items; selecting nothing is an error.
    pub fn render_with_selector(&self, selector: &AstSelector, options: AstRenderOptions) -> (r:
        Result<String, SmartEditError>)
        ensures
            r is Ok <==> selector_compiles(*selector) && selection(*self, *selector).len() > 0,
            r matches Ok(s) ==> s@ == render_outline(*self, selection(*self, *selector), options),
            r matches Err(e) ==> if selector_compiles(*selector) {
                e matches SmartEditError::NoAstItemsMatched { selector: d } && d@ == selector_display(
                    selector.item_patterns@,
                    selector.type_patterns@,
                )
            } else {
                e is InvalidAstSelectorPattern
            },
    {
        let items = self.select_items(selector)?;
        if items.len() == 0 {
            return Err(SmartEditError::NoAstItemsMatched { selector: selector.display() });
        }
        let v = self.render_items(&items, options);
        proof {
            lemma_same_items_render(
                root_docs_part(self.root_docs, options),
                items@,
                selection(*self, *selector),
                self.language,
                options,
                items@.len() as nat,
            );
        }
        Ok(string_of(&v))
    }

    fn render_items(&self, items: &Vec<AstItem>, options: AstRenderOptions) -> (r: Vec<char>)
        ensures
            r@ == render_outline(*self, items@, options),
    {
        let mut rendered: Vec<char> = Vec::new();
        if options.include_docs {
            match &self.root_docs {
                Some(docs) => {
                    let dc = chars_of(docs.as_str());
                    push_indented_block(&mut rendered, 0, &dc, None, false);
                },
                None => {},
            }
        }
        let ghost head = root_docs_part(self.root_docs, options);
        assert(rendered@ =~= head);
        let mut k: usize = 0;
        while k < items.len()
            invariant
                k <= items@.len(),
                rendered@ == render_items_spec(head, items@, self.language, options, k as nat),
            decreases items.len() - k,
        {
            if rendered.len() > 0 || k > 0 {
                rendered.push('\n');
            }
            render_item(&items[k], self.language, options, 0, &mut rendered);
            k = k + 1;
        }
        rendered
    }
}

/// The lower-case name of a language.
pub open spec fn language_name_spec(language: AstLanguage) -> Seq<char> {
    match language {
        AstLanguage::Rust => "rust"@,
        AstLanguage::Python => "python"@,
        AstLanguage::JavaScript => "javascript"@,
        AstLanguage::TypeScript => "typescript"@,
        AstLanguage::Tsx => "tsx"@,
        AstLanguage::Go => "go"@,
        AstLanguage::Scala => "scala"@,
        AstLanguage::Java => "java"@,
        AstLanguage::Kotlin => "kotlin"@,
        AstLanguage::Lua => "lua"@,
    }
}

pub fn language_name(language: AstLanguage) -> (r: &'static str)
    ensures
        r@ == language_name_spec(language),
{
    match language {
        AstLanguage::Rust => "rust",
        AstLanguage::Python => "python",
        AstLanguage::JavaScript => "javascript",
        AstLanguage::TypeScript => "typescript",
        AstLanguage::Tsx => "tsx",
        AstLanguage::Go => "go",
        AstLanguage::Scala => "scala",
        AstLanguage::Java => "java",
        AstLanguage::Kotlin => "kotlin",
        AstLanguage::Lua => "lua",
    }
}

impl FileAst {
    /// Parses a source file of the given language into its outline.
    pub fn parse(language: AstLanguage, source: &str) -> (r: Result<FileAst, SmartEditError>)
        ensures
            r matches Ok(ast) ==> ast.language == language,
            r matches Ok(ast) ==> exists|tree: SyntaxTree|
                tree.wf() && crate::syntax::parsed_tree(language, source@, tree)
                    && #[trigger] outline_of_tree(language, tree, ast),
            r matches Err(e) ==> (e is AstParseSetupFailed || e is AstParseFailed),
    {
        let tree = crate::syntax::parse_syntax_tree(language, language_name(language), source)?;
        let ast = Self::from_syntax_tree(language, &tree);
        assert(outline_of_tree(language, tree, ast));
        Ok(ast)
    }

    /// The outline of an already parsed source file.
    pub fn from_syntax_tree(language: AstLanguage, tree: &SyntaxTree) -> (r: FileAst)
        requires
            tree.wf(),
        ensures
            r.language == language,
            outline_of_tree(language, *tree, r),
    {
        match language {
            AstLanguage::Rust => crate::outline_rust::rust_file_ast(tree),
            AstLanguage::Python => crate::outline_python::python_file_ast(tree),
            AstLanguage::Go => crate::outline_go::go_file_ast(tree),
            AstLanguage::JavaScript => crate::outline_js::js_like_file_ast(
                tree,
                language,
                crate::outline_js::JsFlavor::JavaScript,
            ),
            AstLanguage::TypeScript | AstLanguage::Tsx => crate::outline_js::js_like_file_ast(
                tree,
                language,
                crate::outline_js::JsFlavor::TypeScript,
            ),
            AstLanguage::Scala => crate::outline_generic::generic_file_ast(
                tree,
                language,
                crate::outline_generic::GenericLanguage::Scala,
            ),
            AstLanguage::Java => crate::outline_generic::generic_file_ast(
                tree,
                language,
                crate::outline_generic::GenericLanguage::Java,
            ),
            AstLanguage::Kotlin => crate::outline_generic::generic_file_ast(
                tree,
                language,
                crate::outline_generic::GenericLanguage::Kotlin,
            ),
            AstLanguage::Lua => crate::outline_generic::generic_file_ast(
                tree,
                language,
                crate::outline_generic::GenericLanguage::Lua,
            ),
        }
    }
}

/// What the outline of a parsed file is known to be, language by language: its syntax errors
/// (for Go, also where the file breaks its shape); for Rust and Python, its file docs and all of
/// each item; for JavaScript, TypeScript and Go, the kinds, names and summaries of its
/// top-level items; for Scala, Java, Kotlin and Lua, all of each item.
pub open spec fn outline_of_tree(language: AstLanguage, tree: SyntaxTree, r: FileAst) -> bool {
    match language {
        AstLanguage::Rust => {
            &&& r.has_errors == tree.nodes@[0].has_error
            &&& r.first_error == first_error_spec(tree)
            &&& opt_seq(r.root_docs) == crate::outline_rust::inner_docs_spec(tree, 0)
            &&& crate::outline_rust::rust_items_are(
                r.items@,
                tree,
                crate::outline_rust::rust_decls(tree, 0),
            )
            &&& crate::outline_rust::rust_ready_among_siblings(
                r.items@,
                tree,
                crate::outline_rust::rust_decls(tree, 0),
            )
        },
        AstLanguage::Python => {
            &&& r.has_errors == tree.nodes@[0].has_error
            &&& r.first_error == first_error_spec(tree)
            &&& opt_seq(r.root_docs) == crate::outline_python::python_body_docstring(tree, 0)
            &&& crate::outline_python::python_items_are(
                r.items@,
                tree,
                crate::outline_python::python_decls(tree, 0),
            )
            &&& crate::outline_python::python_ready_among_siblings(
                r.items@,
                tree,
                crate::outline_python::python_decls(tree, 0),
            )
        },
        AstLanguage::Go => {
            &&& r.has_errors == (tree.nodes@[0].has_error
                || crate::outline_go::go_shape_error_spec(tree) is Some)
            &&& r.first_error == crate::outline_go::earliest_error(
                first_error_spec(tree),
                crate::outline_go::go_shape_error_spec(tree),
            )
            &&& crate::outline_common::heads(r.items@) == crate::outline_go::go_body_heads(tree, 0)
        },
        AstLanguage::JavaScript | AstLanguage::TypeScript | AstLanguage::Tsx => {
            &&& r.has_errors == tree.nodes@[0].has_error
            &&& r.first_error == first_error_spec(tree)
            &&& crate::outline_common::heads(r.items@) == crate::outline_js::js_body_heads(
                tree,
                0,
                language != AstLanguage::JavaScript,
            )
        },
        AstLanguage::Scala => generic_file_outline(tree, r, crate::outline_generic::GenericLanguage::Scala),
        AstLanguage::Java => generic_file_outline(tree, r, crate::outline_generic::GenericLanguage::Java),
        AstLanguage::Kotlin => generic_file_outline(tree, r, crate::outline_generic::GenericLanguage::Kotlin),
        AstLanguage::Lua => generic_file_outline(tree, r, crate::outline_generic::GenericLanguage::Lua),
    }
}

/// The outline of a Scala, Java, Kotlin or Lua file: no file docs, its syntax errors and its
/// items.
pub open spec fn generic_file_outline(
    tree: SyntaxTree,
    r: FileAst,
    language: crate::outline_generic::GenericLanguage,
) -> bool {
    &&& r.root_docs is None
    &&& r.has_errors == tree.nodes@[0].has_error
    &&& r.first_error == first_error_spec(tree)
    &&& crate::outline_generic::generic_outline(r.items@, tree, language)
}

/// Parses a file into its outline, inferring the language from the path's extension.
pub fn parse_file_ast(path: &str, source: &str) -> (r: Result<FileAst, SmartEditError>)
    ensures
        language_of_path(path@).is_none() <==> (r matches Err(
            SmartEditError::UnsupportedAstLanguage { path: p },
        ) && p@ == path@),
        r matches Ok(ast) ==> language_of_path(path@) == Some(ast.language),
        r matches Ok(ast) ==> exists|tree: SyntaxTree|
            tree.wf() && crate::syntax::parsed_tree(ast.language, source@, tree)
                && #[trigger] outline_of_tree(ast.language, tree, ast),
        language_of_path(path@) is Some ==> (r matches Err(e) ==> (e is AstParseSetupFailed
            || e is AstParseFailed)),
{
    match AstLanguage::from_path(path) {
        Some(language) => FileAst::parse(language, source),
        None => Err(
            SmartEditError::UnsupportedAstLanguage { path: string_of(&chars_of(path)) },
        ),
    }
}

} // verus!
