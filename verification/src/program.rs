//! The grammar of edit programs and the parser that reads them.
//!
//! A program is a sequence of lines. A line is empty (blanks and an optional `#` comment) or
//! holds one statement followed by blanks and an optional comment. The statements are
//! `mode snapshot|incremental`, `apply`, and the operations `linemove`/`lm`, `linereplace`/`lr`,
//! `lineinsert`/`li`, `linedeletematch`/`ldm`, `linedelete`/`ld`, `textreplace`/`tr`,
//! `move`/`m` and `remove`/`r`. Alternatives are tried in this order and the first one that
//! reads a statement is taken. Positions and spans count characters.
use vstd::prelude::*;

use crate::edit::{
    EditProgram, EditProgramV, FileInsertion, FileInsertionV, FilePatternMatch,
    FilePatternMatchV, FileRangeSelection, FileRangeSelectionV, GenericModification,
    GenericModificationV, Modification, ModificationV, PathDestination, PathDestinationV,
    PathSpec, PathSpecKind, PathSpecV, ProgramMode, RangeSet, Span, TextPattern, TextPatternV,
    TextRange, stage_view,
};
use crate::paths::{
    PathSpecView, plain_path_kind, plain_path_spec, split_regex_root, split_regex_root_spec,
};
use crate::text::{chars_of, has_prefix_at, starts_with, string_of};
use crate::tokens::{
    blank_end, empty_line, exec_empty_line, exec_line_end, line_end, number,
    parse_number, parse_path_operand, parse_path_text_target, parse_regex_literal,
    parse_string_literal, path_operand, path_text_target, regex_literal, skip_blanks,
    string_literal, tok_view,
};

verus! {

/// A reported syntax or structure error: its message and the characters it concerns.
#[derive(Debug, Clone, PartialEq, Eq)]
pub struct ParseError {
    pub message: String,
    pub span: Span,
}

/// One statement of a program, as read.
pub enum StatementV {
    Modification(GenericModificationV),
    Apply(Span),
    Mode(ProgramMode, Span),
}

pub open spec fn sp(i: int, j: int) -> Span {
    Span { start: i as usize, end: j as usize }
}

/// Whether `word` stands at position `i` of `s`.
pub open spec fn word_at(s: Seq<char>, i: int, word: Seq<char>) -> bool {
    0 <= i <= s.len() && starts_with(s.subrange(i, s.len() as int), word)
}

/// A keyword in its long or its short form (the long form is tried first), followed by at
/// least one blank; the position after the blanks.
pub open spec fn keyword(s: Seq<char>, i: int, long: Seq<char>, short: Seq<char>) -> Option<int> {
    let k = if word_at(s, i, long) {
        i + long.len()
    } else if word_at(s, i, short) {
        i + short.len()
    } else {
        -1
    };
    if k >= 0 {
        blanks1(s, k)
    } else {
        None
    }
}

/// At least one blank at `i`; the position after the run of blanks.
pub open spec fn blanks1(s: Seq<char>, i: int) -> Option<int> {
    let j = blank_end(s, i);
    if j > i {
        Some(j)
    } else {
        None
    }
}

/// A line range `a-b` with `a <= b`.
pub open spec fn text_range(s: Seq<char>, i: int) -> Option<(TextRange, int)> {
    match number(s, i) {
        Some((a, j)) => if 0 <= j < s.len() && s[j] == '-' {
            match number(s, j + 1) {
                Some((b, k)) => if a <= b {
                    Some((TextRange { start: a as usize, end: b as usize, span: Some(sp(i, k)) }, k))
                } else {
                    None
                },
                None => None,
            }
        } else {
            None
        },
        None => None,
    }
}

/// The ranges `,a-b,c-d...` that follow a first range; a comma that is not followed by a
/// range is left unread.
pub open spec fn more_ranges(s: Seq<char>, i: int) -> (Seq<TextRange>, int)
    decreases s.len() - i,
{
    if 0 <= i < s.len() && s[i] == ',' {
        match text_range(s, i + 1) {
            Some((r, k)) => if i < k <= s.len() {
                let (rest, e) = more_ranges(s, k);
                (seq![r] + rest, e)
            } else {
                (Seq::empty(), i)
            },
            None => (Seq::empty(), i),
        }
    } else {
        (Seq::empty(), i)
    }
}

/// A comma-separated, non-empty list of line ranges and its span.
pub open spec fn range_set(s: Seq<char>, i: int) -> Option<(Seq<TextRange>, Span, int)> {
    match text_range(s, i) {
        Some((r, j)) => {
            let (rest, e) = more_ranges(s, j);
            Some((seq![r] + rest, sp(i, e), e))
        },
        None => None,
    }
}

/// `path:ranges`.
pub open spec fn file_range_selection(s: Seq<char>, i: int) -> Option<(FileRangeSelectionV, int)> {
    match path_text_target(s, i) {
        Some((p, j)) => if 0 <= j < s.len() && s[j] == ':' {
            match range_set(s, j + 1) {
                Some((ranges, rs, e)) => Some(
                    (
                        FileRangeSelectionV {
                            path: p,
                            ranges,
                            ranges_span: Some(rs),
                            span: Some(sp(i, e)),
                        },
                        e,
                    ),
                ),
                None => None,
            }
        } else {
            None
        },
        None => None,
    }
}

/// `path:line`.
pub open spec fn file_insertion(s: Seq<char>, i: int) -> Option<(FileInsertionV, int)> {
    match path_text_target(s, i) {
        Some((p, j)) => if 0 <= j < s.len() && s[j] == ':' {
            match number(s, j + 1) {
                Some((n, k)) => Some(
                    (FileInsertionV { path: p, offset: n as usize, span: Some(sp(i, k)) }, k),
                ),
                None => None,
            }
        } else {
            None
        },
        None => None,
    }
}

/// A path operand read as files: a regex literal over relative paths, or else a quoted or
/// unquoted path read as a glob, a directory or a file.
pub open spec fn path_spec(s: Seq<char>, i: int) -> Option<(PathSpecV, int)> {
    match regex_literal(s, i) {
        Some((p, j)) => {
            let (root, pattern) = split_regex_root_spec(p);
            Some((PathSpecV { kind: PathSpecView::Regex(root, pattern), span: Some(sp(i, j)) }, j))
        },
        None => match path_operand(s, i) {
            Some((t, j)) => Some((PathSpecV { kind: plain_path_spec(t), span: Some(sp(i, j)) }, j)),
            None => None,
        },
    }
}

/// A destination directory operand.
pub open spec fn path_destination(s: Seq<char>, i: int) -> Option<(PathDestinationV, int)> {
    match path_operand(s, i) {
        Some((t, j)) => Some((PathDestinationV { path: t, span: Some(sp(i, j)) }, j)),
        None => None,
    }
}

/// A search pattern: a regex literal, or else a quoted literal text.
pub open spec fn text_pattern(s: Seq<char>, i: int) -> Option<(TextPatternV, int)> {
    match regex_literal(s, i) {
        Some((p, j)) => Some((TextPatternV::Regex(p, Some(sp(i, j))), j)),
        None => match string_literal(s, i) {
            Some((t, j)) => Some((TextPatternV::Literal(t, Some(sp(i, j))), j)),
            None => None,
        },
    }
}

pub open spec fn mode_statement(s: Seq<char>, i: int) -> Option<(StatementV, int)> {
    if word_at(s, i, "mode"@) {
        match blanks1(s, i + 4) {
            Some(k) => if word_at(s, k, "snapshot"@) {
                Some((StatementV::Mode(ProgramMode::Snapshot, sp(i, k + 8)), k + 8))
            } else if word_at(s, k, "incremental"@) {
                Some((StatementV::Mode(ProgramMode::Incremental, sp(i, k + 11)), k + 11))
            } else {
                None
            },
            None => None,
        }
    } else {
        None
    }
}

pub open spec fn apply_statement(s: Seq<char>, i: int) -> Option<(StatementV, int)> {
    if word_at(s, i, "apply"@) {
        Some((StatementV::Apply(sp(i, i + 5)), i + 5))
    } else {
        None
    }
}

pub open spec fn line_move(s: Seq<char>, i: int) -> Option<(GenericModificationV, int)> {
    match keyword(s, i, "linemove"@, "lm"@) {
        Some(k) => match file_range_selection(s, k) {
            Some((source, e1)) => match blanks1(s, e1) {
                Some(k2) => match file_insertion(s, k2) {
                    Some((destination, e)) => Some(
                        (
                            GenericModificationV::MoveRanges {
                                source,
                                destination,
                                create_destination_if_missing: false,
                                span: Some(sp(i, e)),
                            },
                            e,
                        ),
                    ),
                    None => None,
                },
                None => None,
            },
            None => None,
        },
        None => None,
    }
}

pub open spec fn line_replace(s: Seq<char>, i: int) -> Option<(GenericModificationV, int)> {
    match keyword(s, i, "linereplace"@, "lr"@) {
        Some(k) => match file_range_selection(s, k) {
            Some((target, e1)) => match blanks1(s, e1) {
                Some(k2) => match string_literal(s, k2) {
                    Some((content, e)) => Some(
                        (
                            GenericModificationV::ReplaceRanges {
                                target,
                                content,
                                create_destination_if_missing: false,
                                span: Some(sp(i, e)),
                            },
                            e,
                        ),
                    ),
                    None => None,
                },
                None => None,
            },
            None => None,
        },
        None => None,
    }
}

pub open spec fn line_insert(s: Seq<char>, i: int) -> Option<(GenericModificationV, int)> {
    match keyword(s, i, "lineinsert"@, "li"@) {
        Some(k) => match file_insertion(s, k) {
            Some((target, e1)) => match blanks1(s, e1) {
                Some(k2) => match string_literal(s, k2) {
                    Some((content, e)) => Some(
                        (
                            GenericModificationV::InsertLines {
                                target,
                                content,
                                create_destination_if_missing: false,
                                span: Some(sp(i, e)),
                            },
                            e,
                        ),
                    ),
                    None => None,
                },
                None => None,
            },
            None => None,
        },
        None => None,
    }
}

pub open spec fn line_delete_match(s: Seq<char>, i: int) -> Option<(GenericModificationV, int)> {
    match keyword(s, i, "linedeletematch"@, "ldm"@) {
        Some(k) => match path_text_target(s, k) {
            Some((path, e1)) => match blanks1(s, e1) {
                Some(k2) => match regex_literal(s, k2) {
                    Some((pattern, e)) => Some(
                        (
                            GenericModificationV::DeleteLinesMatching {
                                target: FilePatternMatchV { path, pattern, span: Some(sp(i, e)) },
                                span: Some(sp(i, e)),
                            },
                            e,
                        ),
                    ),
                    None => None,
                },
                None => None,
            },
            None => None,
        },
        None => None,
    }
}

pub open spec fn line_delete(s: Seq<char>, i: int) -> Option<(GenericModificationV, int)> {
    match keyword(s, i, "linedelete"@, "ld"@) {
        Some(k) => match file_range_selection(s, k) {
            Some((target, e)) => Some(
                (GenericModificationV::DeleteRanges { target, span: Some(sp(i, e)) }, e),
            ),
            None => None,
        },
        None => None,
    }
}

pub open spec fn text_replace(s: Seq<char>, i: int) -> Option<(GenericModificationV, int)> {
    match keyword(s, i, "textreplace"@, "tr"@) {
        Some(k) => match path_spec(s, k) {
            Some((targets, e1)) => match blanks1(s, e1) {
                Some(k2) => match text_pattern(s, k2) {
                    Some((pattern, e2)) => match blanks1(s, e2) {
                        Some(k3) => match string_literal(s, k3) {
                            Some((replacement, e)) => Some(
                                (
                                    GenericModificationV::TextReplace {
                                        targets,
                                        pattern,
                                        replacement,
                                        span: Some(sp(i, e)),
                                    },
                                    e,
                                ),
                            ),
                            None => None,
                        },
                        None => None,
                    },
                    None => None,
                },
                None => None,
            },
            None => None,
        },
        None => None,
    }
}

pub open spec fn move_files(s: Seq<char>, i: int) -> Option<(GenericModificationV, int)> {
    match keyword(s, i, "move"@, "m"@) {
        Some(k) => match path_spec(s, k) {
            Some((sources, e1)) => match blanks1(s, e1) {
                Some(k2) => match path_destination(s, k2) {
                    Some((destination_dir, e)) => Some(
                        (
                            GenericModificationV::MoveFiles {
                                sources,
                                destination_dir,
                                create_destination_dir: true,
                                overwrite: false,
                                span: Some(sp(i, e)),
                            },
                            e,
                        ),
                    ),
                    None => None,
                },
                None => None,
            },
            None => None,
        },
        None => None,
    }
}

pub open spec fn remove_files(s: Seq<char>, i: int) -> Option<(GenericModificationV, int)> {
    match keyword(s, i, "remove"@, "r"@) {
        Some(k) => match path_spec(s, k) {
            Some((targets, e)) => Some(
                (
                    GenericModificationV::DeleteFiles {
                        targets,
                        missing_matches_ok: false,
                        span: Some(sp(i, e)),
                    },
                    e,
                ),
            ),
            None => None,
        },
        None => None,
    }
}

pub open spec fn as_statement(o: Option<(GenericModificationV, int)>) -> Option<(StatementV, int)> {
    match o {
        Some((m, e)) => Some((StatementV::Modification(m), e)),
        None => None,
    }
}

/// The first alternative that reads a statement at `i`, without the end of its line.
pub open spec fn statement(s: Seq<char>, i: int) -> Option<(StatementV, int)> {
    if mode_statement(s, i).is_some() {
        mode_statement(s, i)
    } else if apply_statement(s, i).is_some() {
        apply_statement(s, i)
    } else if line_move(s, i).is_some() {
        as_statement(line_move(s, i))
    } else if line_replace(s, i).is_some() {
        as_statement(line_replace(s, i))
    } else if line_insert(s, i).is_some() {
        as_statement(line_insert(s, i))
    } else if line_delete_match(s, i).is_some() {
        as_statement(line_delete_match(s, i))
    } else if line_delete(s, i).is_some() {
        as_statement(line_delete(s, i))
    } else if text_replace(s, i).is_some() {
        as_statement(text_replace(s, i))
    } else if move_files(s, i).is_some() {
        as_statement(move_files(s, i))
    } else {
        as_statement(remove_files(s, i))
    }
}

/// One line at `i`: an empty line (no statement), or a statement and the end of its line.
pub open spec fn program_line(s: Seq<char>, i: int) -> Option<(Option<StatementV>, int)> {
    match empty_line(s, i) {
        Some(j) => Some((None, j)),
        None => match statement(s, i) {
            Some((st, j)) => match line_end(s, j) {
                Some(k) => Some((Some(st), k)),
                None => None,
            },
            None => None,
        },
    }
}

/// The statements of the lines read from `i` on, and the position where reading stopped.
pub open spec fn program_lines(s: Seq<char>, i: int) -> (Seq<StatementV>, int)
    decreases s.len() - i,
{
    match program_line(s, i) {
        Some((st, j)) => if i < j <= s.len() {
            let (rest, e) = program_lines(s, j);
            match st {
                Some(x) => (seq![x] + rest, e),
                None => (rest, e),
            }
        } else {
            (Seq::empty(), i)
        },
        None => (Seq::empty(), i),
    }
}

/// The position of the end of the line's text at `i` (the next `\r`, `\n`, or the end).
pub open spec fn line_text_end(s: Seq<char>, i: int) -> int
    decreases s.len() - i,
{
    if 0 <= i < s.len() && s[i] != '\r' && s[i] != '\n' {
        line_text_end(s, i + 1)
    } else {
        i
    }
}

/// The state of a program while its statements are taken in order.
pub struct BuildState {
    pub mode: ProgramMode,
    pub stages: Seq<Seq<ModificationV>>,
    pub saw_operation: bool,
    pub saw_mode: bool,
}

pub open spec fn initial_build_state() -> BuildState {
    BuildState {
        mode: ProgramMode::Snapshot,
        stages: seq![Seq::empty()],
        saw_operation: false,
        saw_mode: false,
    }
}

pub open spec fn mode_after_operation_message() -> Seq<char> {
    "`mode` must appear before any operations"@
}

pub open spec fn repeated_mode_message() -> Seq<char> {
    "only one `mode` directive is allowed"@
}

pub open spec fn invalid_statement_message() -> Seq<char> {
    "invalid statement"@
}

/// Takes one statement: an operation joins the open stage; `apply` opens a new stage unless
/// the open one is empty; `mode` sets the mode, and must come first and only once.
pub open spec fn build_step(st: Result<BuildState, (Seq<char>, Span)>, x: StatementV) -> Result<
    BuildState,
    (Seq<char>, Span),
> {
    match st {
        Err(e) => Err(e),
        Ok(b) => match x {
            StatementV::Modification(m) => Ok(
                BuildState {
                    stages: b.stages.update(
                        b.stages.len() - 1,
                        b.stages.last().push(ModificationV::Generic(m)),
                    ),
                    saw_operation: true,
                    ..b
                },
            ),
            StatementV::Apply(_) => Ok(
                BuildState {
                    stages: if b.stages.last().len() > 0 {
                        b.stages.push(Seq::empty())
                    } else {
                        b.stages
                    },
                    saw_operation: true,
                    ..b
                },
            ),
            StatementV::Mode(mode, span) => if b.saw_operation {
                Err((mode_after_operation_message(), span))
            } else if b.saw_mode {
                Err((repeated_mode_message(), span))
            } else {
                Ok(BuildState { mode, saw_mode: true, ..b })
            },
        },
    }
}

/// The program that a list of statements builds, or the first structure error.
pub open spec fn build_program_spec(stmts: Seq<StatementV>) -> Result<BuildState, (Seq<char>, Span)>
    decreases stmts.len(),
{
    if stmts.len() == 0 {
        Ok(initial_build_state())
    } else {
        build_step(build_program_spec(stmts.drop_last()), stmts.last())
    }
}

/// What parsing `s` gives: the program (its mode and stages), or one error message and span.
pub open spec fn parse_program_spec(s: Seq<char>) -> Result<EditProgramV, (Seq<char>, Span)> {
    let (stmts, stop) = program_lines(s, 0);
    if stop != s.len() {
        Err((invalid_statement_message(), sp(stop, line_text_end(s, stop))))
    } else {
        match build_program_spec(stmts) {
            Ok(b) => Ok(EditProgramV { mode: b.mode, stages: b.stages }),
            Err(e) => Err(e),
        }
    }
}

// ---------------------------------------------------------------------------------------------
// The parser
// ---------------------------------------------------------------------------------------------
fn word_at_exec(s: &[char], i: usize, word: &str) -> (r: bool)
    requires
        i <= s@.len(),
    ensures
        r == word_at(s@, i as int, word@),
{
    let w = chars_of(word);
    has_prefix_at(s, i, &w)
}

/// The number of characters of `word`.
fn char_count(word: &str) -> (n: usize)
    ensures
        n == word@.len(),
{
    let w = chars_of(word);
    w.len()
}

fn blanks1_exec(s: &[char], i: usize) -> (r: Option<usize>)
    requires
        i <= s@.len(),
    ensures
        match r {
            Some(k) => blanks1(s@, i as int) == Some(k as int) && i < k <= s@.len(),
            None => blanks1(s@, i as int).is_none(),
        },
{
    let j = skip_blanks(s, i);
    if j > i {
        Some(j)
    } else {
        None
    }
}

fn keyword_exec(s: &[char], i: usize, long: &str, short: &str) -> (r: Option<usize>)
    requires
        i <= s@.len(),
    ensures
        match r {
            Some(k) => keyword(s@, i as int, long@, short@) == Some(k as int) && i < k <= s@.len(),
            None => keyword(s@, i as int, long@, short@).is_none(),
        },
{
    let k = if word_at_exec(s, i, long) {
        let n = char_count(long);
        let total = s.len();
        assert(n <= total - i);
        i + n
    } else if word_at_exec(s, i, short) {
        let n = char_count(short);
        let total = s.len();
        assert(n <= total - i);
        i + n
    } else {
        return None;
    };
    blanks1_exec(s, k)
}

fn text_range_exec(s: &[char], i: usize) -> (r: Option<(TextRange, usize)>)
    requires
        i <= s@.len(),
    ensures
        match r {
            Some((t, k)) => text_range(s@, i as int) == Some((t, k as int)) && i < k <= s@.len(),
            None => text_range(s@, i as int).is_none(),
        },
{
    let (a, j) = match parse_number(s, i) {
        Some(x) => x,
        None => return None,
    };
    if !(j < s.len() && s[j] == '-') {
        return None;
    }
    let (b, k) = match parse_number(s, j + 1) {
        Some(x) => x,
        None => return None,
    };
    if a <= b {
        Some((TextRange { start: a, end: b, span: Some(Span::new(i, k)) }, k))
    } else {
        None
    }
}

fn more_ranges_exec(s: &[char], i: usize) -> (r: (Vec<TextRange>, usize))
    requires
        i <= s@.len(),
    ensures
        (r.0@, r.1 as int) == more_ranges(s@, i as int),
        i <= r.1 <= s@.len(),
    decreases s@.len() - i,
{
    if i < s.len() && s[i] == ',' {
        match text_range_exec(s, i + 1) {
            Some((t, k)) => {
                let (rest, e) = more_ranges_exec(s, k);
                let mut out: Vec<TextRange> = Vec::new();
                out.push(t);
                let mut rest = rest;
                let ghost rest_view = rest@;
                out.append(&mut rest);
                proof {
                    assert(out@ =~= seq![t] + rest_view);
                }
                (out, e)
            },
            None => (Vec::new(), i),
        }
    } else {
        (Vec::new(), i)
    }
}

fn range_set_exec(s: &[char], i: usize) -> (r: Option<(RangeSet, usize)>)
    requires
        i <= s@.len(),
    ensures
        match r {
            Some((rs, e)) => range_set(s@, i as int) == Some((rs.ranges@, rs.span->0, e as int))
                && rs.span is Some && i < e <= s@.len(),
            None => range_set(s@, i as int).is_none(),
        },
{
    let (t, j) = match text_range_exec(s, i) {
        Some(x) => x,
        None => return None,
    };
    let (rest, e) = more_ranges_exec(s, j);
    let mut ranges: Vec<TextRange> = Vec::new();
    ranges.push(t);
    let mut rest = rest;
    let ghost rest_view = rest@;
    ranges.append(&mut rest);
    proof {
        assert(ranges@ =~= seq![t] + rest_view);
    }
    Some((RangeSet::new(ranges).with_span(Span::new(i, e)), e))
}

fn file_range_selection_exec(s: &[char], i: usize) -> (r: Option<(FileRangeSelection, usize)>)
    requires
        i <= s@.len(),
    ensures
        match r {
            Some((v, e)) => file_range_selection(s@, i as int) == Some((v@, e as int)) && i < e
                <= s@.len(),
            None => file_range_selection(s@, i as int).is_none(),
        },
{
    let (p, j) = match parse_path_text_target(s, i) {
        Some(x) => x,
        None => return None,
    };
    if !(j < s.len() && s[j] == ':') {
        return None;
    }
    let (ranges, e) = match range_set_exec(s, j + 1) {
        Some(x) => x,
        None => return None,
    };
    Some((FileRangeSelection::new(string_of(&p), ranges).with_span(Span::new(i, e)), e))
}

fn file_insertion_exec(s: &[char], i: usize) -> (r: Option<(FileInsertion, usize)>)
    requires
        i <= s@.len(),
    ensures
        match r {
            Some((v, e)) => file_insertion(s@, i as int) == Some((v@, e as int)) && i < e
                <= s@.len(),
            None => file_insertion(s@, i as int).is_none(),
        },
{
    let (p, j) = match parse_path_text_target(s, i) {
        Some(x) => x,
        None => return None,
    };
    if !(j < s.len() && s[j] == ':') {
        return None;
    }
    let (n, k) = match parse_number(s, j + 1) {
        Some(x) => x,
        None => return None,
    };
    Some((FileInsertion::new(string_of(&p), n).with_span(Span::new(i, k)), k))
}

fn path_spec_exec(s: &[char], i: usize) -> (r: Option<(PathSpec, usize)>)
    requires
        i <= s@.len(),
    ensures
        match r {
            Some((v, e)) => path_spec(s@, i as int) == Some((v@, e as int)) && i < e <= s@.len(),
            None => path_spec(s@, i as int).is_none(),
        },
{
    match parse_regex_literal(s, i) {
        Some((p, j)) => {
            let (root, pattern) = split_regex_root(&p);
            return Some(
                (PathSpec::regex(string_of(&root), string_of(&pattern)).with_span(Span::new(i, j)), j),
            );
        },
        None => {},
    }
    let (t, j) = match parse_path_operand(s, i) {
        Some(x) => x,
        None => return None,
    };
    let (tag, a, b) = plain_path_kind(&t);
    let kind = if tag == 0 {
        PathSpecKind::Glob { root: string_of(&a), pattern: string_of(&b) }
    } else if tag == 1 {
        PathSpecKind::FilesInDirectory { root: string_of(&a), recursive: true }
    } else {
        PathSpecKind::ExactFile { path: string_of(&a) }
    };
    Some((PathSpec::new(kind).with_span(Span::new(i, j)), j))
}

fn path_destination_exec(s: &[char], i: usize) -> (r: Option<(PathDestination, usize)>)
    requires
        i <= s@.len(),
    ensures
        match r {
            Some((v, e)) => path_destination(s@, i as int) == Some((v@, e as int)) && i < e
                <= s@.len(),
            None => path_destination(s@, i as int).is_none(),
        },
{
    let (t, j) = match parse_path_operand(s, i) {
        Some(x) => x,
        None => return None,
    };
    Some((PathDestination::directory(string_of(&t)).with_span(Span::new(i, j)), j))
}

fn text_pattern_exec(s: &[char], i: usize) -> (r: Option<(TextPattern, usize)>)
    requires
        i <= s@.len(),
    ensures
        match r {
            Some((v, e)) => text_pattern(s@, i as int) == Some((v@, e as int)) && i < e
                <= s@.len(),
            None => text_pattern(s@, i as int).is_none(),
        },
{
    match parse_regex_literal(s, i) {
        Some((p, j)) => {
            return Some((TextPattern::regex(string_of(&p)).with_span(Span::new(i, j)), j));
        },
        None => {},
    }
    match parse_string_literal(s, i) {
        Some((t, j)) => Some((TextPattern::literal(string_of(&t)).with_span(Span::new(i, j)), j)),
        None => None,
    }
}

fn string_operand(s: &[char], i: usize) -> (r: Option<(String, usize)>)
    requires
        i <= s@.len(),
    ensures
        match r {
            Some((v, e)) => string_literal(s@, i as int) == Some((v@, e as int)) && i < e
                <= s@.len(),
            None => string_literal(s@, i as int).is_none(),
        },
{
    match parse_string_literal(s, i) {
        Some((t, j)) => Some((string_of(&t), j)),
        None => None,
    }
}

fn regex_operand(s: &[char], i: usize) -> (r: Option<(String, usize)>)
    requires
        i <= s@.len(),
    ensures
        match r {
            Some((v, e)) => regex_literal(s@, i as int) == Some((v@, e as int)) && i < e
                <= s@.len(),
            None => regex_literal(s@, i as int).is_none(),
        },
{
    match parse_regex_literal(s, i) {
        Some((t, j)) => Some((string_of(&t), j)),
        None => None,
    }
}

fn text_target_operand(s: &[char], i: usize) -> (r: Option<(String, usize)>)
    requires
        i <= s@.len(),
    ensures
        match r {
            Some((v, e)) => path_text_target(s@, i as int) == Some((v@, e as int)) && i < e
                <= s@.len(),
            None => path_text_target(s@, i as int).is_none(),
        },
{
    match parse_path_text_target(s, i) {
        Some((t, j)) => Some((string_of(&t), j)),
        None => None,
    }
}

/// What an alternative read, as an operation and the position after it.
pub open spec fn op_view(r: Option<(GenericModification, usize)>) -> Option<(GenericModificationV, int)> {
    match r {
        Some((m, e)) => Some((m@, e as int)),
        None => None,
    }
}

pub open spec fn op_end_ok(r: Option<(GenericModification, usize)>, i: int, n: int) -> bool {
    r matches Some((_, e)) ==> i < e <= n
}

fn line_move_exec(s: &[char], i: usize) -> (r: Option<(GenericModification, usize)>)
    requires
        i <= s@.len(),
    ensures
        op_view(r) == line_move(s@, i as int),
        op_end_ok(r, i as int, s@.len() as int),
{
    let k = match keyword_exec(s, i, "linemove", "lm") {
        Some(k) => k,
        None => return None,
    };
    let (source, e1) = match file_range_selection_exec(s, k) {
        Some(x) => x,
        None => return None,
    };
    let k2 = match blanks1_exec(s, e1) {
        Some(k) => k,
        None => return None,
    };
    let (destination, e) = match file_insertion_exec(s, k2) {
        Some(x) => x,
        None => return None,
    };
    Some(
        (
            GenericModification::MoveRanges {
                source,
                destination,
                create_destination_if_missing: false,
                span: Some(Span::new(i, e)),
            },
            e,
        ),
    )
}

fn line_replace_exec(s: &[char], i: usize) -> (r: Option<(GenericModification, usize)>)
    requires
        i <= s@.len(),
    ensures
        op_view(r) == line_replace(s@, i as int),
        op_end_ok(r, i as int, s@.len() as int),
{
    let k = match keyword_exec(s, i, "linereplace", "lr") {
        Some(k) => k,
        None => return None,
    };
    let (target, e1) = match file_range_selection_exec(s, k) {
        Some(x) => x,
        None => return None,
    };
    let k2 = match blanks1_exec(s, e1) {
        Some(k) => k,
        None => return None,
    };
    let (content, e) = match string_operand(s, k2) {
        Some(x) => x,
        None => return None,
    };
    Some(
        (
            GenericModification::ReplaceRanges {
                target,
                content,
                create_destination_if_missing: false,
                span: Some(Span::new(i, e)),
            },
            e,
        ),
    )
}

fn line_insert_exec(s: &[char], i: usize) -> (r: Option<(GenericModification, usize)>)
    requires
        i <= s@.len(),
    ensures
        op_view(r) == line_insert(s@, i as int),
        op_end_ok(r, i as int, s@.len() as int),
{
    let k = match keyword_exec(s, i, "lineinsert", "li") {
        Some(k) => k,
        None => return None,
    };
    let (target, e1) = match file_insertion_exec(s, k) {
        Some(x) => x,
        None => return None,
    };
    let k2 = match blanks1_exec(s, e1) {
        Some(k) => k,
        None => return None,
    };
    let (content, e) = match string_operand(s, k2) {
        Some(x) => x,
        None => return None,
    };
    Some(
        (
            GenericModification::InsertLines {
                target,
                content,
                create_destination_if_missing: false,
                span: Some(Span::new(i, e)),
            },
            e,
        ),
    )
}

fn line_delete_match_exec(s: &[char], i: usize) -> (r: Option<(GenericModification, usize)>)
    requires
        i <= s@.len(),
    ensures
        op_view(r) == line_delete_match(s@, i as int),
        op_end_ok(r, i as int, s@.len() as int),
{
    let k = match keyword_exec(s, i, "linedeletematch", "ldm") {
        Some(k) => k,
        None => return None,
    };
    let (path, e1) = match text_target_operand(s, k) {
        Some(x) => x,
        None => return None,
    };
    let k2 = match blanks1_exec(s, e1) {
        Some(k) => k,
        None => return None,
    };
    let (pattern, e) = match regex_operand(s, k2) {
        Some(x) => x,
        None => return None,
    };
    Some(
        (
            GenericModification::DeleteLinesMatching {
                target: FilePatternMatch::new(path, pattern).with_span(Span::new(i, e)),
                span: Some(Span::new(i, e)),
            },
            e,
        ),
    )
}

fn line_delete_exec(s: &[char], i: usize) -> (r: Option<(GenericModification, usize)>)
    requires
        i <= s@.len(),
    ensures
        op_view(r) == line_delete(s@, i as int),
        op_end_ok(r, i as int, s@.len() as int),
{
    let k = match keyword_exec(s, i, "linedelete", "ld") {
        Some(k) => k,
        None => return None,
    };
    let (target, e) = match file_range_selection_exec(s, k) {
        Some(x) => x,
        None => return None,
    };
    Some((GenericModification::DeleteRanges { target, span: Some(Span::new(i, e)) }, e))
}

fn text_replace_exec(s: &[char], i: usize) -> (r: Option<(GenericModification, usize)>)
    requires
        i <= s@.len(),
    ensures
        op_view(r) == text_replace(s@, i as int),
        op_end_ok(r, i as int, s@.len() as int),
{
    let k = match keyword_exec(s, i, "textreplace", "tr") {
        Some(k) => k,
        None => return None,
    };
    let (targets, e1) = match path_spec_exec(s, k) {
        Some(x) => x,
        None => return None,
    };
    let k2 = match blanks1_exec(s, e1) {
        Some(k) => k,
        None => return None,
    };
    let (pattern, e2) = match text_pattern_exec(s, k2) {
        Some(x) => x,
        None => return None,
    };
    let k3 = match blanks1_exec(s, e2) {
        Some(k) => k,
        None => return None,
    };
    let (replacement, e) = match string_operand(s, k3) {
        Some(x) => x,
        None => return None,
    };
    Some(
        (
            GenericModification::TextReplace {
                targets,
                pattern,
                replacement,
                span: Some(Span::new(i, e)),
            },
            e,
        ),
    )
}

fn move_files_exec(s: &[char], i: usize) -> (r: Option<(GenericModification, usize)>)
    requires
        i <= s@.len(),
    ensures
        op_view(r) == move_files(s@, i as int),
        op_end_ok(r, i as int, s@.len() as int),
{
    let k = match keyword_exec(s, i, "move", "m") {
        Some(k) => k,
        None => return None,
    };
    let (sources, e1) = match path_spec_exec(s, k) {
        Some(x) => x,
        None => return None,
    };
    let k2 = match blanks1_exec(s, e1) {
        Some(k) => k,
        None => return None,
    };
    let (destination_dir, e) = match path_destination_exec(s, k2) {
        Some(x) => x,
        None => return None,
    };
    Some(
        (
            GenericModification::MoveFiles {
                sources,
                destination_dir,
                create_destination_dir: true,
                overwrite: false,
                span: Some(Span::new(i, e)),
            },
            e,
        ),
    )
}

fn remove_files_exec(s: &[char], i: usize) -> (r: Option<(GenericModification, usize)>)
    requires
        i <= s@.len(),
    ensures
        op_view(r) == remove_files(s@, i as int),
        op_end_ok(r, i as int, s@.len() as int),
{
    let k = match keyword_exec(s, i, "remove", "r") {
        Some(k) => k,
        None => return None,
    };
    let (targets, e) = match path_spec_exec(s, k) {
        Some(x) => x,
        None => return None,
    };
    Some(
        (
            GenericModification::DeleteFiles {
                targets,
                missing_matches_ok: false,
                span: Some(Span::new(i, e)),
            },
            e,
        ),
    )
}

/// A statement as read.
enum ParsedStatement {
    Modification(GenericModification),
    Apply(Span),
    Mode(ProgramMode, Span),
}

spec fn parsed_view(p: ParsedStatement) -> StatementV {
    match p {
        ParsedStatement::Modification(m) => StatementV::Modification(m@),
        ParsedStatement::Apply(span) => StatementV::Apply(span),
        ParsedStatement::Mode(mode, span) => StatementV::Mode(mode, span),
    }
}

fn mode_statement_exec(s: &[char], i: usize) -> (r: Option<(ParsedStatement, usize)>)
    requires
        i <= s@.len(),
    ensures
        match r {
            Some((p, e)) => mode_statement(s@, i as int) == Some((parsed_view(p), e as int)) && i
                < e <= s@.len(),
            None => mode_statement(s@, i as int).is_none(),
        },
{
    proof {
        reveal_strlit("mode");
        reveal_strlit("snapshot");
        reveal_strlit("incremental");
    }
    let total = s.len();
    if !word_at_exec(s, i, "mode") {
        return None;
    }
    assert(i + 4 <= total);
    let k = match blanks1_exec(s, i + 4) {
        Some(k) => k,
        None => return None,
    };
    if word_at_exec(s, k, "snapshot") {
        assert(k + 8 <= total);
        Some((ParsedStatement::Mode(ProgramMode::Snapshot, Span::new(i, k + 8)), k + 8))
    } else if word_at_exec(s, k, "incremental") {
        assert(k + 11 <= total);
        Some((ParsedStatement::Mode(ProgramMode::Incremental, Span::new(i, k + 11)), k + 11))
    } else {
        None
    }
}

fn apply_statement_exec(s: &[char], i: usize) -> (r: Option<(ParsedStatement, usize)>)
    requires
        i <= s@.len(),
    ensures
        match r {
            Some((p, e)) => apply_statement(s@, i as int) == Some((parsed_view(p), e as int)) && i
                < e <= s@.len(),
            None => apply_statement(s@, i as int).is_none(),
        },
{
    proof {
        reveal_strlit("apply");
    }
    let total = s.len();
    if word_at_exec(s, i, "apply") {
        assert(i + 5 <= total);
        Some((ParsedStatement::Apply(Span::new(i, i + 5)), i + 5))
    } else {
        None
    }
}

fn as_parsed(r: Option<(GenericModification, usize)>) -> (p: Option<(ParsedStatement, usize)>)
    ensures
        match p {
            Some((x, e)) => as_statement(op_view(r)) == Some((parsed_view(x), e as int)) && (r
                matches Some((_, e2)) && e2 == e),
            None => r.is_none(),
        },
{
    match r {
        Some((m, e)) => Some((ParsedStatement::Modification(m), e)),
        None => None,
    }
}

fn statement_exec(s: &[char], i: usize) -> (r: Option<(ParsedStatement, usize)>)
    requires
        i <= s@.len(),
    ensures
        match r {
            Some((p, e)) => statement(s@, i as int) == Some((parsed_view(p), e as int)) && i < e
                <= s@.len(),
            None => statement(s@, i as int).is_none(),
        },
{
    let r = mode_statement_exec(s, i);
    if r.is_some() {
        return r;
    }
    let r = apply_statement_exec(s, i);
    if r.is_some() {
        return r;
    }
    let r = line_move_exec(s, i);
    if r.is_some() {
        return as_parsed(r);
    }
    let r = line_replace_exec(s, i);
    if r.is_some() {
        return as_parsed(r);
    }
    let r = line_insert_exec(s, i);
    if r.is_some() {
        return as_parsed(r);
    }
    let r = line_delete_match_exec(s, i);
    if r.is_some() {
        return as_parsed(r);
    }
    let r = line_delete_exec(s, i);
    if r.is_some() {
        return as_parsed(r);
    }
    let r = text_replace_exec(s, i);
    if r.is_some() {
        return as_parsed(r);
    }
    let r = move_files_exec(s, i);
    if r.is_some() {
        return as_parsed(r);
    }
    as_parsed(remove_files_exec(s, i))
}

fn line_text_end_exec(s: &[char], i: usize) -> (r: usize)
    requires
        i <= s@.len(),
    ensures
        r == line_text_end(s@, i as int),
        i <= r <= s@.len(),
{
    let mut j = i;
    while j < s.len() && s[j] != '\r' && s[j] != '\n'
        invariant
            i <= j <= s@.len(),
            line_text_end(s@, j as int) == line_text_end(s@, i as int),
        decreases s.len() - j,
    {
        j = j + 1;
    }
    j
}

proof fn lemma_push_view(old: Seq<crate::edit::EditStage>, new: Seq<crate::edit::EditStage>, m: Modification)
    requires
        old.len() > 0,
        new.len() == old.len(),
        new.drop_last() == old.drop_last(),
        new.last().modifications@ == old.last().modifications@.push(m),
    ensures
        new.map_values(|st: crate::edit::EditStage| stage_view(st)) == old.map_values(
            |st: crate::edit::EditStage| stage_view(st),
        ).update(old.len() - 1, stage_view(old.last()).push(m@)),
{
    let a = new.map_values(|st: crate::edit::EditStage| stage_view(st));
    let b = old.map_values(|st: crate::edit::EditStage| stage_view(st)).update(
        old.len() - 1,
        stage_view(old.last()).push(m@),
    );
    assert forall|k: int| 0 <= k < a.len() implies a[k] == b[k] by {
        if k < old.len() - 1 {
            assert(new[k] == new.drop_last()[k]);
            assert(old[k] == old.drop_last()[k]);
        } else {
            assert(stage_view(new.last()) =~= stage_view(old.last()).push(m@));
        }
    }
    assert(a =~= b);
}

proof fn lemma_apply_view(old: Seq<crate::edit::EditStage>, new: Seq<crate::edit::EditStage>)
    requires
        old.len() > 0,
        new.len() == old.len() + 1,
        new.drop_last() == old,
        new.last().modifications@.len() == 0,
    ensures
        new.map_values(|st: crate::edit::EditStage| stage_view(st)) == old.map_values(
            |st: crate::edit::EditStage| stage_view(st),
        ).push(Seq::empty()),
{
    let a = new.map_values(|st: crate::edit::EditStage| stage_view(st));
    let b = old.map_values(|st: crate::edit::EditStage| stage_view(st)).push(Seq::empty());
    assert forall|k: int| 0 <= k < a.len() implies a[k] == b[k] by {
        if k < old.len() {
            assert(new[k] == new.drop_last()[k]);
        } else {
            assert(stage_view(new.last()) =~= Seq::<ModificationV>::empty());
        }
    }
    assert(a =~= b);
}

/// The program state that a builder holds, as the specification's state.
spec fn holds_state(p: EditProgram, saw_operation: bool, saw_mode: bool) -> BuildState {
    BuildState { mode: p.mode, stages: p@.stages, saw_operation, saw_mode }
}

fn error_of(message: &str, span: Span) -> (e: ParseError)
    ensures
        e.message@ == message@,
        e.span == span,
{
    ParseError { message: message.to_string(), span }
}

/// Parses an edit program. On success the program has the mode and stages that its
/// statements build; a line that is neither empty nor a statement gives one
/// `invalid statement` error spanning that line's text; a `mode` after an operation, or a
/// second `mode`, gives one error at that directive.
pub fn parse_edit_program(input: &str) -> (r: Result<EditProgram, Vec<ParseError>>)
    ensures
        match parse_program_spec(input@) {
            Ok(pv) => r matches Ok(p) && p@ == pv && p.wf(),
            Err((message, span)) => r matches Err(errors) && errors@.len() == 1
                && errors@[0].message@ == message && errors@[0].span == span,
        },
{
    let s = chars_of(input);
    let ghost sv = s@;
    let mut program = EditProgram::new();
    let mut saw_operation = false;
    let mut saw_mode = false;
    let mut error: Option<ParseError> = None;
    let ghost mut done: Seq<StatementV> = Seq::empty();
    let mut i: usize = 0;
    proof {
        assert(program@.stages =~= seq![Seq::<ModificationV>::empty()]) by {
            assert(stage_view(program.stages@[0]) =~= Seq::<ModificationV>::empty());
        }
        assert(done + program_lines(sv, 0).0 =~= program_lines(sv, 0).0);
    }
    loop
        invariant_except_break
            sv == s@,
            i <= s@.len(),
            program.wf(),
            done + program_lines(sv, i as int).0 == program_lines(sv, 0).0,
            program_lines(sv, i as int).1 == program_lines(sv, 0).1,
            build_program_spec(done) == match error {
                Some(e) => Err((e.message@, e.span)),
                None => Ok(holds_state(program, saw_operation, saw_mode)),
            },
        ensures
            sv == s@,
            i <= s@.len(),
            program.wf(),
            done == program_lines(sv, 0).0,
            i == program_lines(sv, 0).1,
            build_program_spec(done) == match error {
                Some(e) => Err((e.message@, e.span)),
                None => Ok(holds_state(program, saw_operation, saw_mode)),
            },
        decreases s@.len() - i,
    {
        match exec_empty_line(&s, i) {
            Some(j) => {
                i = j;
                continue ;
            },
            None => {},
        }
        let (st, j) = match statement_exec(&s, i) {
            Some(x) => x,
            None => {
                proof {
                    assert(done + Seq::<StatementV>::empty() =~= done);
                }
                break ;
            },
        };
        let k = match exec_line_end(&s, j) {
            Some(k) => k,
            None => {
                proof {
                    assert(done + Seq::<StatementV>::empty() =~= done);
                }
                break ;
            },
        };
        let ghost x = parsed_view(st);
        proof {
            assert(program_line(sv, i as int) == Some((Some(x), k as int)));
            let (rest, e) = program_lines(sv, k as int);
            assert(program_lines(sv, i as int) == (seq![x] + rest, e));
            assert(done.push(x) + rest =~= done + (seq![x] + rest));
            assert(done.push(x).drop_last() =~= done);
        }
        if error.is_none() {
            match st {
                ParsedStatement::Modification(m) => {
                    let ghost old_stages = program.stages@;
                    let modification = Modification::Generic(m);
                    program.push(modification);
                    proof {
                        lemma_push_view(old_stages, program.stages@, modification);
                    }
                    saw_operation = true;
                },
                ParsedStatement::Apply(_) => {
                    let ghost old_stages = program.stages@;
                    program.apply();
                    proof {
                        if old_stages.last().modifications@.len() > 0 {
                            lemma_apply_view(old_stages, program.stages@);
                        }
                        assert(stage_view(old_stages.last()).len()
                            == old_stages.last().modifications@.len());
                    }
                    saw_operation = true;
                },
                ParsedStatement::Mode(mode, span) => {
                    if saw_operation {
                        error = Some(error_of("`mode` must appear before any operations", span));
                    } else if saw_mode {
                        error = Some(error_of("only one `mode` directive is allowed", span));
                    } else {
                        saw_mode = true;
                        program = program.with_mode(mode);
                    }
                },
            }
        }
        proof {
            done = done.push(x);
        }
        i = k;
    }
    if i != s.len() {
        let e = line_text_end_exec(&s, i);
        let mut errors = Vec::new();
        errors.push(error_of("invalid statement", Span::new(i, e)));
        return Err(errors);
    }
    match error {
        Some(e) => {
            let mut errors = Vec::new();
            errors.push(e);
            Err(errors)
        },
        None => Ok(program),
    }
}

} // verus!
