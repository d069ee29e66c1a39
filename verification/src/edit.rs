//! The edit program model: path specifications, line ranges, modifications, stages.
use vstd::prelude::*;

use crate::error::SmartEditError;
use crate::paths::PathSpecView;

verus! {

/// A half-open character span in the program text that produced a value.
#[derive(Debug, Clone, Copy, PartialEq, Eq)]
pub struct Span {
    pub start: usize,
    pub end: usize,
}

impl Span {
    pub fn new(start: usize, end: usize) -> (s: Self)
        ensures
            s.start == start,
            s.end == end,
    {
        Span { start, end }
    }
}

/// A half-open range `[start, end)`: of lines as written in a program, of characters once
/// resolved against a file's content.
#[derive(Debug, Clone, Copy, PartialEq, Eq)]
pub struct TextRange {
    pub start: usize,
    pub end: usize,
    pub span: Option<Span>,
}

impl TextRange {
    /// A range from `start` to `end`; `start` may not lie after `end`.
    pub fn new(start: usize, end: usize) -> (r: Result<TextRange, SmartEditError>)
        ensures
            start <= end ==> r == Ok::<TextRange, SmartEditError>(
                TextRange { start, end, span: None },
            ),
            start > end ==> r == Err::<TextRange, SmartEditError>(
                SmartEditError::InvalidRange { start, end },
            ),
    {
        if start > end {
            Err(SmartEditError::InvalidRange { start, end })
        } else {
            Ok(TextRange { start, end, span: None })
        }
    }

    pub fn with_span(self, span: Span) -> (r: Self)
        ensures
            r == (TextRange { span: Some(span), ..self }),
    {
        TextRange { span: Some(span), ..self }
    }

    /// Number of positions covered; zero for an inverted range.
    pub fn len(&self) -> (n: usize)
        ensures
            n == if self.start <= self.end {
                self.end - self.start
            } else {
                0
            },
    {
        if self.start <= self.end {
            self.end - self.start
        } else {
            0
        }
    }
}

/// One or more line ranges of a file.
#[derive(Debug, Clone, PartialEq, Eq)]
pub struct RangeSet {
    pub ranges: Vec<TextRange>,
    pub span: Option<Span>,
}

impl RangeSet {
    pub fn new(ranges: Vec<TextRange>) -> (s: Self)
        ensures
            s.ranges@ == ranges@,
            s.span.is_none(),
    {
        RangeSet { ranges, span: None }
    }

    pub fn single(range: TextRange) -> (s: Self)
        ensures
            s.ranges@ == seq![range],
            s.span.is_none(),
    {
        let mut ranges = Vec::new();
        ranges.push(range);
        RangeSet { ranges, span: None }
    }

    pub fn with_span(self, span: Span) -> (s: Self)
        ensures
            s.ranges@ == self.ranges@,
            s.span == Some(span),
    {
        RangeSet { ranges: self.ranges, span: Some(span) }
    }

    pub fn ranges(&self) -> (r: &[TextRange])
        ensures
            r@ == self.ranges@,
    {
        self.ranges.as_slice()
    }
}

/// Line ranges of one file.
#[derive(Debug, Clone, PartialEq, Eq)]
pub struct FileRangeSelection {
    pub path: String,
    pub ranges: RangeSet,
    pub span: Option<Span>,
}

impl FileRangeSelection {
    pub fn new(path: String, ranges: RangeSet) -> (s: Self)
        ensures
            s.path == path,
            s.ranges == ranges,
            s.span.is_none(),
    {
        FileRangeSelection { path, ranges, span: None }
    }

    pub fn with_span(self, span: Span) -> (s: Self)
        ensures
            s.path == self.path,
            s.ranges == self.ranges,
            s.span == Some(span),
    {
        FileRangeSelection { path: self.path, ranges: self.ranges, span: Some(span) }
    }
}

/// A line of one file before which text is inserted.
#[derive(Debug, Clone, PartialEq, Eq)]
pub struct FileInsertion {
    pub path: String,
    pub offset: usize,
    pub span: Option<Span>,
}

impl FileInsertion {
    pub fn new(path: String, offset: usize) -> (s: Self)
        ensures
            s.path == path,
            s.offset == offset,
            s.span.is_none(),
    {
        FileInsertion { path, offset, span: None }
    }

    pub fn with_span(self, span: Span) -> (s: Self)
        ensures
            s.path == self.path,
            s.offset == self.offset,
            s.span == Some(span),
    {
        FileInsertion { path: self.path, offset: self.offset, span: Some(span) }
    }
}

/// The lines of one file that a regular expression matches.
#[derive(Debug, Clone, PartialEq, Eq)]
pub struct FilePatternMatch {
    pub path: String,
    pub pattern: String,
    pub span: Option<Span>,
}

impl FilePatternMatch {
    pub fn new(path: String, pattern: String) -> (s: Self)
        ensures
            s.path == path,
            s.pattern == pattern,
            s.span.is_none(),
    {
        FilePatternMatch { path, pattern, span: None }
    }

    pub fn with_span(self, span: Span) -> (s: Self)
        ensures
            s.path == self.path,
            s.pattern == self.pattern,
            s.span == Some(span),
    {
        FilePatternMatch { path: self.path, pattern: self.pattern, span: Some(span) }
    }
}

/// What a text replacement searches for.
#[derive(Debug, Clone, PartialEq, Eq)]
pub enum TextPattern {
    Literal { text: String, span: Option<Span> },
    Regex { pattern: String, span: Option<Span> },
}

impl TextPattern {
    pub fn literal(text: String) -> (p: Self)
        ensures
            p == (TextPattern::Literal { text, span: None }),
    {
        TextPattern::Literal { text, span: None }
    }

    pub fn regex(pattern: String) -> (p: Self)
        ensures
            p == (TextPattern::Regex { pattern, span: None }),
    {
        TextPattern::Regex { pattern, span: None }
    }

    pub fn with_span(self, span: Span) -> (p: Self)
        ensures
            p == (match self {
                TextPattern::Literal { text, .. } => TextPattern::Literal { text, span: Some(span) },
                TextPattern::Regex { pattern, .. } => TextPattern::Regex {
                    pattern,
                    span: Some(span),
                },
            }),
    {
        match self {
            TextPattern::Literal { text, .. } => TextPattern::Literal { text, span: Some(span) },
            TextPattern::Regex { pattern, .. } => TextPattern::Regex { pattern, span: Some(span) },
        }
    }
}

/// Which files a modification reads.
#[derive(Debug, Clone, PartialEq, Eq)]
pub struct PathSpec {
    pub kind: PathSpecKind,
    pub span: Option<Span>,
}

#[derive(Debug, Clone, PartialEq, Eq)]
pub enum PathSpecKind {
    ExactFile { path: String },
    FilesInDirectory { root: String, recursive: bool },
    Glob { root: String, pattern: String },
    Regex { root: String, pattern: String },
}

impl PathSpec {
    pub fn new(kind: PathSpecKind) -> (s: Self)
        ensures
            s.kind == kind,
            s.span.is_none(),
    {
        PathSpec { kind, span: None }
    }

    pub fn with_span(self, span: Span) -> (s: Self)
        ensures
            s.kind == self.kind,
            s.span == Some(span),
    {
        PathSpec { kind: self.kind, span: Some(span) }
    }

    pub fn exact_file(path: String) -> (s: Self)
        ensures
            s.kind == (PathSpecKind::ExactFile { path }),
            s.span.is_none(),
    {
        Self::new(PathSpecKind::ExactFile { path })
    }

    pub fn files_in_directory(root: String) -> (s: Self)
        ensures
            s.kind == (PathSpecKind::FilesInDirectory { root, recursive: true }),
            s.span.is_none(),
    {
        Self::new(PathSpecKind::FilesInDirectory { root, recursive: true })
    }

    pub fn files_in_directory_with_depth(root: String, recursive: bool) -> (s: Self)
        ensures
            s.kind == (PathSpecKind::FilesInDirectory { root, recursive }),
            s.span.is_none(),
    {
        Self::new(PathSpecKind::FilesInDirectory { root, recursive })
    }

    pub fn glob(root: String, pattern: String) -> (s: Self)
        ensures
            s.kind == (PathSpecKind::Glob { root, pattern }),
            s.span.is_none(),
    {
        Self::new(PathSpecKind::Glob { root, pattern })
    }

    pub fn regex(root: String, pattern: String) -> (s: Self)
        ensures
            s.kind == (PathSpecKind::Regex { root, pattern }),
            s.span.is_none(),
    {
        Self::new(PathSpecKind::Regex { root, pattern })
    }
}

/// Where moved files go.
#[derive(Debug, Clone, PartialEq, Eq)]
pub struct PathDestination {
    pub kind: PathDestinationKind,
    pub span: Option<Span>,
}

#[derive(Debug, Clone, PartialEq, Eq)]
pub enum PathDestinationKind {
    Directory { path: String },
}

impl PathDestination {
    pub fn new(kind: PathDestinationKind) -> (d: Self)
        ensures
            d.kind == kind,
            d.span.is_none(),
    {
        PathDestination { kind, span: None }
    }

    pub fn with_span(self, span: Span) -> (d: Self)
        ensures
            d.kind == self.kind,
            d.span == Some(span),
    {
        PathDestination { kind: self.kind, span: Some(span) }
    }

    pub fn directory(path: String) -> (d: Self)
        ensures
            d.kind == (PathDestinationKind::Directory { path }),
            d.span.is_none(),
    {
        Self::new(PathDestinationKind::Directory { path })
    }
}

/// A modification of the file tree or of file contents.
#[derive(Debug, Clone, PartialEq, Eq)]
pub enum Modification {
    Generic(GenericModification),
    Language(LanguageModification),
}

#[derive(Debug, Clone, PartialEq, Eq)]
pub enum GenericModification {
    CreateDirectory { path: String, span: Option<Span> },
    CreateFile { path: String, content: String, overwrite: bool, span: Option<Span> },
    DeleteFiles { targets: PathSpec, missing_matches_ok: bool, span: Option<Span> },
    DeleteRanges { target: FileRangeSelection, span: Option<Span> },
    DeleteLinesMatching { target: FilePatternMatch, span: Option<Span> },
    MoveFiles {
        sources: PathSpec,
        destination_dir: PathDestination,
        create_destination_dir: bool,
        overwrite: bool,
        span: Option<Span>,
    },
    MoveRanges {
        source: FileRangeSelection,
        destination: FileInsertion,
        create_destination_if_missing: bool,
        span: Option<Span>,
    },
    InsertLines {
        target: FileInsertion,
        content: String,
        create_destination_if_missing: bool,
        span: Option<Span>,
    },
    ReplaceRanges {
        target: FileRangeSelection,
        content: String,
        create_destination_if_missing: bool,
        span: Option<Span>,
    },
    TextReplace { targets: PathSpec, pattern: TextPattern, replacement: String, span: Option<Span> },
}

impl From<GenericModification> for Modification {
    fn from(value: GenericModification) -> (r: Self) {
        Modification::Generic(value)
    }
}

impl vstd::std_specs::convert::FromSpecImpl<GenericModification> for Modification {
    open spec fn obeys_from_spec() -> bool {
        true
    }

    open spec fn from_spec(v: GenericModification) -> Self {
        Modification::Generic(v)
    }
}

impl From<LanguageModification> for Modification {
    fn from(value: LanguageModification) -> (r: Self) {
        Modification::Language(value)
    }
}

impl vstd::std_specs::convert::FromSpecImpl<LanguageModification> for Modification {
    open spec fn obeys_from_spec() -> bool {
        true
    }

    open spec fn from_spec(v: LanguageModification) -> Self {
        Modification::Language(v)
    }
}

/// Language-aware modifications. None is defined yet: the type has no public constructor, so
/// no value of it can be made outside this crate.
#[derive(Debug, Clone, PartialEq, Eq)]
pub struct LanguageModification {
    reserved: bool,
}

impl Modification {
    pub fn generic(modification: GenericModification) -> (m: Self)
        ensures
            m == Modification::Generic(modification),
    {
        Modification::Generic(modification)
    }
}

/// How the stages of a program see each other's effects.
#[derive(Debug, Clone, Copy, PartialEq, Eq)]
pub enum ProgramMode {
    /// Every modification of a stage reads the state before the stage.
    Snapshot,
    /// Every modification reads the state that the previous one left.
    Incremental,
}

/// Modifications that are evaluated against one snapshot.
#[derive(Debug, Clone, PartialEq, Eq)]
pub struct EditStage {
    pub modifications: Vec<Modification>,
}

impl EditStage {
    pub fn modifications(&self) -> (m: &[Modification])
        ensures
            m@ == self.modifications@,
    {
        self.modifications.as_slice()
    }
}

/// A parsed edit program: a mode and a non-empty list of stages.
#[derive(Debug, Clone, PartialEq, Eq)]
pub struct EditProgram {
    pub mode: ProgramMode,
    pub stages: Vec<EditStage>,
}

/// All modifications of the given stages, in order.
pub open spec fn flatten_stages(stages: Seq<EditStage>) -> Seq<Modification>
    decreases stages.len(),
{
    if stages.len() == 0 {
        Seq::empty()
    } else {
        flatten_stages(stages.drop_last()) + stages.last().modifications@
    }
}

impl EditProgram {
    pub open spec fn wf(&self) -> bool {
        self.stages@.len() > 0
    }

    /// All modifications of the program, in order.
    pub open spec fn all_modifications(&self) -> Seq<Modification> {
        flatten_stages(self.stages@)
    }

    /// An empty snapshot-mode program with one open stage.
    pub fn new() -> (p: Self)
        ensures
            p.wf(),
            p.mode == ProgramMode::Snapshot,
            p.stages@.len() == 1,
            p.stages@[0].modifications@.len() == 0,
    {
        let mut stages = Vec::new();
        stages.push(EditStage { modifications: Vec::new() });
        EditProgram { mode: ProgramMode::Snapshot, stages }
    }

    /// A one-stage snapshot program made of the given modifications.
    pub fn from_modifications(modifications: Vec<Modification>) -> (p: Self)
        ensures
            p.wf(),
            p.mode == ProgramMode::Snapshot,
            p.stages@.len() == 1,
            p.stages@[0].modifications@ == modifications@,
    {
        let mut stages = Vec::new();
        stages.push(EditStage { modifications });
        EditProgram { mode: ProgramMode::Snapshot, stages }
    }

    pub fn with_mode(self, mode: ProgramMode) -> (p: Self)
        ensures
            p.mode == mode,
            p.stages@ == self.stages@,
    {
        EditProgram { mode, stages: self.stages }
    }

    /// Appends a modification to the open (last) stage.
    pub fn push(&mut self, modification: Modification)
        requires
            old(self).wf(),
        ensures
            final(self).wf(),
            final(self).mode == old(self).mode,
            final(self).stages@.len() == old(self).stages@.len(),
            final(self).stages@.drop_last() == old(self).stages@.drop_last(),
            final(self).stages@.last().modifications@ == old(
                self,
            ).stages@.last().modifications@.push(modification),
            final(self).all_modifications() == old(self).all_modifications().push(modification),
    {
        let last = self.stages.len() - 1;
        let mut stage = self.stages.remove(last);
        stage.modifications.push(modification);
        self.stages.push(stage);
        proof {
            assert(self.stages@.drop_last() =~= old(self).stages@.drop_last());
        }
    }

    /// Closes the open stage; later modifications see its effects. A stage that holds no
    /// modification stays open.
    pub fn apply(&mut self)
        requires
            old(self).wf(),
        ensures
            final(self).wf(),
            final(self).mode == old(self).mode,
            old(self).stages@.last().modifications@.len() == 0 ==> final(self).stages@ == old(
                self,
            ).stages@,
            old(self).stages@.last().modifications@.len() > 0 ==> {
                &&& final(self).stages@.len() == old(self).stages@.len() + 1
                &&& final(self).stages@.drop_last() == old(self).stages@
                &&& final(self).stages@.last().modifications@.len() == 0
            },
            final(self).all_modifications() == old(self).all_modifications(),
    {
        let last = self.stages.len() - 1;
        if self.stages[last].modifications.len() > 0 {
            self.stages.push(EditStage { modifications: Vec::new() });
            proof {
                assert(self.stages@.drop_last() =~= old(self).stages@);
                assert(self.stages@.last().modifications@ =~= Seq::<Modification>::empty());
                assert(flatten_stages(self.stages@) =~= flatten_stages(old(self).stages@));
            }
        }
    }

    pub fn stages(&self) -> (s: &[EditStage])
        ensures
            s@ == self.stages@,
    {
        self.stages.as_slice()
    }

    /// The modifications of all stages, in order.
    pub fn modifications(&self) -> (m: Vec<&Modification>)
        ensures
            m@.len() == self.all_modifications().len(),
            forall|i: int| 0 <= i < m@.len() ==> *m@[i] == self.all_modifications()[i],
    {
        let mut out: Vec<&Modification> = Vec::new();
        let mut s: usize = 0;
        while s < self.stages.len()
            invariant
                s <= self.stages@.len(),
                out@.len() == flatten_stages(self.stages@.subrange(0, s as int)).len(),
                forall|i: int|
                    0 <= i < out@.len() ==> *out@[i] == flatten_stages(
                        self.stages@.subrange(0, s as int),
                    )[i],
            decreases self.stages.len() - s,
        {
            let stage = &self.stages[s];
            let ghost before = out@;
            let mut k: usize = 0;
            while k < stage.modifications.len()
                invariant
                    k <= stage.modifications@.len(),
                    out@.len() == before.len() + k,
                    forall|i: int| 0 <= i < before.len() ==> out@[i] == before[i],
                    forall|i: int|
                        0 <= i < k ==> *out@[before.len() + i] == stage.modifications@[i],
                decreases stage.modifications.len() - k,
            {
                out.push(&stage.modifications[k]);
                k = k + 1;
            }
            proof {
                let prev = self.stages@.subrange(0, s as int);
                let next = self.stages@.subrange(0, s + 1);
                assert(next.drop_last() =~= prev);
                assert(next.last() == self.stages@[s as int]);
                let f = flatten_stages(next);
                assert(f == flatten_stages(prev) + stage.modifications@);
                assert forall|i: int| 0 <= i < out@.len() implies *out@[i] == f[i] by {
                    if i < before.len() {
                        assert(out@[i] == before[i]);
                    } else {
                        assert(*out@[before.len() + (i - before.len())] == stage.modifications@[i
                            - before.len()]);
                    }
                }
            }
            s = s + 1;
        }
        assert(self.stages@.subrange(0, self.stages@.len() as int) =~= self.stages@);
        out
    }

    pub fn modification_count(&self) -> (n: usize)
        ensures
            n == self.all_modifications().len(),
    {
        let m = self.modifications();
        m.len()
    }
}

// ---------------------------------------------------------------------------------------------
// Mathematical views of the program model: every text as a sequence of characters.
// ---------------------------------------------------------------------------------------------
pub struct FileRangeSelectionV {
    pub path: Seq<char>,
    pub ranges: Seq<TextRange>,
    pub ranges_span: Option<Span>,
    pub span: Option<Span>,
}

impl View for FileRangeSelection {
    type V = FileRangeSelectionV;

    open spec fn view(&self) -> FileRangeSelectionV {
        FileRangeSelectionV {
            path: self.path@,
            ranges: self.ranges.ranges@,
            ranges_span: self.ranges.span,
            span: self.span,
        }
    }
}

pub struct FileInsertionV {
    pub path: Seq<char>,
    pub offset: usize,
    pub span: Option<Span>,
}

impl View for FileInsertion {
    type V = FileInsertionV;

    open spec fn view(&self) -> FileInsertionV {
        FileInsertionV { path: self.path@, offset: self.offset, span: self.span }
    }
}

pub struct FilePatternMatchV {
    pub path: Seq<char>,
    pub pattern: Seq<char>,
    pub span: Option<Span>,
}

impl View for FilePatternMatch {
    type V = FilePatternMatchV;

    open spec fn view(&self) -> FilePatternMatchV {
        FilePatternMatchV { path: self.path@, pattern: self.pattern@, span: self.span }
    }
}

pub enum TextPatternV {
    Literal(Seq<char>, Option<Span>),
    Regex(Seq<char>, Option<Span>),
}

impl View for TextPattern {
    type V = TextPatternV;

    open spec fn view(&self) -> TextPatternV {
        match self {
            TextPattern::Literal { text, span } => TextPatternV::Literal(text@, *span),
            TextPattern::Regex { pattern, span } => TextPatternV::Regex(pattern@, *span),
        }
    }
}

impl View for PathSpecKind {
    type V = PathSpecView;

    open spec fn view(&self) -> PathSpecView {
        match self {
            PathSpecKind::ExactFile { path } => PathSpecView::Exact(path@),
            PathSpecKind::FilesInDirectory { root, recursive } => PathSpecView::Directory(
                root@,
                *recursive,
            ),
            PathSpecKind::Glob { root, pattern } => PathSpecView::Glob(root@, pattern@),
            PathSpecKind::Regex { root, pattern } => PathSpecView::Regex(root@, pattern@),
        }
    }
}

pub struct PathSpecV {
    pub kind: PathSpecView,
    pub span: Option<Span>,
}

impl View for PathSpec {
    type V = PathSpecV;

    open spec fn view(&self) -> PathSpecV {
        PathSpecV { kind: self.kind@, span: self.span }
    }
}

pub struct PathDestinationV {
    pub path: Seq<char>,
    pub span: Option<Span>,
}

impl View for PathDestination {
    type V = PathDestinationV;

    open spec fn view(&self) -> PathDestinationV {
        match self.kind {
            PathDestinationKind::Directory { path } => PathDestinationV { path: path@, span: self.span },
        }
    }
}

pub enum GenericModificationV {
    CreateDirectory { path: Seq<char>, span: Option<Span> },
    CreateFile { path: Seq<char>, content: Seq<char>, overwrite: bool, span: Option<Span> },
    DeleteFiles { targets: PathSpecV, missing_matches_ok: bool, span: Option<Span> },
    DeleteRanges { target: FileRangeSelectionV, span: Option<Span> },
    DeleteLinesMatching { target: FilePatternMatchV, span: Option<Span> },
    MoveFiles {
        sources: PathSpecV,
        destination_dir: PathDestinationV,
        create_destination_dir: bool,
        overwrite: bool,
        span: Option<Span>,
    },
    MoveRanges {
        source: FileRangeSelectionV,
        destination: FileInsertionV,
        create_destination_if_missing: bool,
        span: Option<Span>,
    },
    InsertLines {
        target: FileInsertionV,
        content: Seq<char>,
        create_destination_if_missing: bool,
        span: Option<Span>,
    },
    ReplaceRanges {
        target: FileRangeSelectionV,
        content: Seq<char>,
        create_destination_if_missing: bool,
        span: Option<Span>,
    },
    TextReplace {
        targets: PathSpecV,
        pattern: TextPatternV,
        replacement: Seq<char>,
        span: Option<Span>,
    },
}

impl View for GenericModification {
    type V = GenericModificationV;

    open spec fn view(&self) -> GenericModificationV {
        match self {
            GenericModification::CreateDirectory { path, span } => GenericModificationV::CreateDirectory {
                path: path@,
                span: *span,
            },
            GenericModification::CreateFile { path, content, overwrite, span } => GenericModificationV::CreateFile {
                path: path@,
                content: content@,
                overwrite: *overwrite,
                span: *span,
            },
            GenericModification::DeleteFiles { targets, missing_matches_ok, span } => GenericModificationV::DeleteFiles {
                targets: targets@,
                missing_matches_ok: *missing_matches_ok,
                span: *span,
            },
            GenericModification::DeleteRanges { target, span } => GenericModificationV::DeleteRanges {
                target: target@,
                span: *span,
            },
            GenericModification::DeleteLinesMatching { target, span } => GenericModificationV::DeleteLinesMatching {
                target: target@,
                span: *span,
            },
            GenericModification::MoveFiles {
                sources,
                destination_dir,
                create_destination_dir,
                overwrite,
                span,
            } => GenericModificationV::MoveFiles {
                sources: sources@,
                destination_dir: destination_dir@,
                create_destination_dir: *create_destination_dir,
                overwrite: *overwrite,
                span: *span,
            },
            GenericModification::MoveRanges {
                source,
                destination,
                create_destination_if_missing,
                span,
            } => GenericModificationV::MoveRanges {
                source: source@,
                destination: destination@,
                create_destination_if_missing: *create_destination_if_missing,
                span: *span,
            },
            GenericModification::InsertLines {
                target,
                content,
                create_destination_if_missing,
                span,
            } => GenericModificationV::InsertLines {
                target: target@,
                content: content@,
                create_destination_if_missing: *create_destination_if_missing,
                span: *span,
            },
            GenericModification::ReplaceRanges {
                target,
                content,
                create_destination_if_missing,
                span,
            } => GenericModificationV::ReplaceRanges {
                target: target@,
                content: content@,
                create_destination_if_missing: *create_destination_if_missing,
                span: *span,
            },
            GenericModification::TextReplace { targets, pattern, replacement, span } => GenericModificationV::TextReplace {
                targets: targets@,
                pattern: pattern@,
                replacement: replacement@,
                span: *span,
            },
        }
    }
}

pub enum ModificationV {
    Generic(GenericModificationV),
    Language,
}

impl View for Modification {
    type V = ModificationV;

    open spec fn view(&self) -> ModificationV {
        match self {
            Modification::Generic(g) => ModificationV::Generic(g@),
            Modification::Language(_) => ModificationV::Language,
        }
    }
}

/// A program as its mode and the views of its stages' modifications.
pub struct EditProgramV {
    pub mode: ProgramMode,
    pub stages: Seq<Seq<ModificationV>>,
}

pub open spec fn stage_view(stage: EditStage) -> Seq<ModificationV> {
    stage.modifications@.map_values(|m: Modification| m@)
}

impl View for EditProgram {
    type V = EditProgramV;

    open spec fn view(&self) -> EditProgramV {
        EditProgramV { mode: self.mode, stages: self.stages@.map_values(|st: EditStage| stage_view(st)) }
    }
}

} // verus!
