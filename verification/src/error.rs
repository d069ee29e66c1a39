use vstd::prelude::*;

use crate::text::{decimal, push_decimal, push_str, string_of};

verus! {

/// Every way in which parsing, planning, rendering or applying can fail.
///
/// Paths are held as the text that named them; the message of an underlying I/O failure is
/// held as text.
#[derive(Debug, Clone, PartialEq, Eq)]
pub enum SmartEditError {
    Io { operation: String, path: String, message: String },
    FileAlreadyExists { path: String },
    NoFilesMatched { description: String },
    InvalidGlobPattern { pattern: String, message: String },
    InvalidRegexPattern { pattern: String, message: String },
    ConflictingActionTargets { path: String, first_modification: usize, second_modification: usize },
    OverlappingDestructiveEdits {
        path: String,
        first_modification: usize,
        second_modification: usize,
    },
    MissingFile { path: String },
    ExpectedFileButFoundDirectory { path: String },
    ExpectedDirectoryButFoundFile { path: String },
    InvalidRange { start: usize, end: usize },
    EmptyTextPattern,
    InvalidUtf8 { path: String },
    UnsupportedAstLanguage { path: String },
    AstParseSetupFailed { language: String, message: String },
    AstParseFailed { language: String, message: String },
    InvalidAstSelectorPattern { pattern: String, message: String },
    NoAstItemsMatched { selector: String },
    RangeOutOfBounds { path: String, start: usize, end: usize, len: usize },
    RangeNotOnCharBoundary { path: String, offset: usize },
    RangesNotSortedOrDisjoint { path: String, previous_end: usize, next_start: usize },
    InvalidInsertionOffset { path: String, offset: usize, len: usize },
    InsertionPointInsideMovedRange {
        path: String,
        offset: usize,
        range_start: usize,
        range_end: usize,
    },
    InsertionPointInsideDeletedRange {
        path: String,
        offset: usize,
        range_start: usize,
        range_end: usize,
    },
    UnsupportedLanguageModification,
}

impl SmartEditError {
    /// The message that describes the error to a person.
    pub open spec fn message_spec(&self) -> Seq<char> {
        match self {
            SmartEditError::Io { operation, path, message } => operation@ + " failed for "@
                + path@ + ": "@ + message@,
            SmartEditError::FileAlreadyExists { path } => "file already exists: "@ + path@,
            SmartEditError::NoFilesMatched { description } => "no files matched "@ + description@,
            SmartEditError::InvalidGlobPattern { pattern, message } => "invalid glob pattern `"@
                + pattern@ + "`: "@ + message@,
            SmartEditError::InvalidRegexPattern { pattern, message } => "invalid regex pattern `"@
                + pattern@ + "`: "@ + message@,
            SmartEditError::ConflictingActionTargets {
                path,
                first_modification,
                second_modification,
            } => "modification "@ + decimal(*second_modification as nat)
                + " conflicts with modification "@ + decimal(*first_modification as nat) + " on "@
                + path@,
            SmartEditError::OverlappingDestructiveEdits {
                path,
                first_modification,
                second_modification,
            } => "modification "@ + decimal(*second_modification as nat)
                + " overlaps a destructive edit of modification "@ + decimal(
                *first_modification as nat,
            ) + " in "@ + path@,
            SmartEditError::MissingFile { path } => "file does not exist: "@ + path@,
            SmartEditError::ExpectedFileButFoundDirectory { path } =>
                "expected a file but found a directory: "@ + path@,
            SmartEditError::ExpectedDirectoryButFoundFile { path } =>
                "expected a directory but found a file: "@ + path@,
            SmartEditError::InvalidRange { start, end } => "invalid range ["@ + decimal(
                *start as nat,
            ) + ", "@ + decimal(*end as nat) + ")"@,
            SmartEditError::EmptyTextPattern => "text match pattern must not be empty"@,
            SmartEditError::InvalidUtf8 { path } => "file is not valid UTF-8: "@ + path@,
            SmartEditError::UnsupportedAstLanguage { path } =>
                "cannot infer a supported AST language for "@ + path@,
            SmartEditError::AstParseSetupFailed { language, message } => "failed to initialize "@
                + language@ + " parser: "@ + message@,
            SmartEditError::AstParseFailed { language, message } => "failed to parse "@
                + language@ + " source: "@ + message@,
            SmartEditError::InvalidAstSelectorPattern { pattern, message } =>
                "invalid AST selector pattern `"@ + pattern@ + "`: "@ + message@,
            SmartEditError::NoAstItemsMatched { selector } => "no AST items matched selector "@
                + selector@,
            SmartEditError::RangeOutOfBounds { path, start, end, len } => "range ["@ + decimal(
                *start as nat,
            ) + ", "@ + decimal(*end as nat) + ") is out of bounds for "@ + path@ + " (len "@
                + decimal(*len as nat) + ")"@,
            SmartEditError::RangeNotOnCharBoundary { path, offset } => "offset "@ + decimal(
                *offset as nat,
            ) + " is not on a UTF-8 character boundary in "@ + path@,
            SmartEditError::RangesNotSortedOrDisjoint { path, previous_end, next_start } =>
                "ranges for "@ + path@ + " must be sorted and non-overlapping (previous end "@
                + decimal(*previous_end as nat) + ", next start "@ + decimal(*next_start as nat)
                + ")"@,
            SmartEditError::InvalidInsertionOffset { path, offset, len } => "insertion offset "@
                + decimal(*offset as nat) + " is out of bounds for "@ + path@ + " (len "@
                + decimal(*len as nat) + ")"@,
            SmartEditError::InsertionPointInsideMovedRange {
                path,
                offset,
                range_start,
                range_end,
            } => "insertion offset "@ + decimal(*offset as nat) + " falls inside moved range ["@
                + decimal(*range_start as nat) + ", "@ + decimal(*range_end as nat) + ") in "@
                + path@,
            SmartEditError::InsertionPointInsideDeletedRange {
                path,
                offset,
                range_start,
                range_end,
            } => "insertion offset "@ + decimal(*offset as nat) + " falls inside deleted range ["@
                + decimal(*range_start as nat) + ", "@ + decimal(*range_end as nat) + ") in "@
                + path@,
            SmartEditError::UnsupportedLanguageModification =>
                "language-aware modifications are not implemented yet"@,
        }
    }

    /// The message that describes the error to a person.
    pub fn message(&self) -> (r: String)
        ensures
            r@ == self.message_spec(),
    {
        let mut out: Vec<char> = Vec::new();
        match self {
            SmartEditError::Io { operation, path, message } => {
                push_str(&mut out, operation.as_str());
                push_str(&mut out, " failed for ");
                push_str(&mut out, path.as_str());
                push_str(&mut out, ": ");
                push_str(&mut out, message.as_str());
            },
            SmartEditError::FileAlreadyExists { path } => {
                push_str(&mut out, "file already exists: ");
                push_str(&mut out, path.as_str());
            },
            SmartEditError::NoFilesMatched { description } => {
                push_str(&mut out, "no files matched ");
                push_str(&mut out, description.as_str());
            },
            SmartEditError::InvalidGlobPattern { pattern, message } => {
                push_str(&mut out, "invalid glob pattern `");
                push_str(&mut out, pattern.as_str());
                push_str(&mut out, "`: ");
                push_str(&mut out, message.as_str());
            },
            SmartEditError::InvalidRegexPattern { pattern, message } => {
                push_str(&mut out, "invalid regex pattern `");
                push_str(&mut out, pattern.as_str());
                push_str(&mut out, "`: ");
                push_str(&mut out, message.as_str());
            },
            SmartEditError::ConflictingActionTargets {
                path,
                first_modification,
                second_modification,
            } => {
                push_str(&mut out, "modification ");
                push_decimal(&mut out, *second_modification);
                push_str(&mut out, " conflicts with modification ");
                push_decimal(&mut out, *first_modification);
                push_str(&mut out, " on ");
                push_str(&mut out, path.as_str());
            },
            SmartEditError::OverlappingDestructiveEdits {
                path,
                first_modification,
                second_modification,
            } => {
                push_str(&mut out, "modification ");
                push_decimal(&mut out, *second_modification);
                push_str(&mut out, " overlaps a destructive edit of modification ");
                push_decimal(&mut out, *first_modification);
                push_str(&mut out, " in ");
                push_str(&mut out, path.as_str());
            },
            SmartEditError::MissingFile { path } => {
                push_str(&mut out, "file does not exist: ");
                push_str(&mut out, path.as_str());
            },
            SmartEditError::ExpectedFileButFoundDirectory { path } => {
                push_str(&mut out, "expected a file but found a directory: ");
                push_str(&mut out, path.as_str());
            },
            SmartEditError::ExpectedDirectoryButFoundFile { path } => {
                push_str(&mut out, "expected a directory but found a file: ");
                push_str(&mut out, path.as_str());
            },
            SmartEditError::InvalidRange { start, end } => {
                push_str(&mut out, "invalid range [");
                push_decimal(&mut out, *start);
                push_str(&mut out, ", ");
                push_decimal(&mut out, *end);
                push_str(&mut out, ")");
            },
            SmartEditError::EmptyTextPattern => {
                push_str(&mut out, "text match pattern must not be empty");
            },
            SmartEditError::InvalidUtf8 { path } => {
                push_str(&mut out, "file is not valid UTF-8: ");
                push_str(&mut out, path.as_str());
            },
            SmartEditError::UnsupportedAstLanguage { path } => {
                push_str(&mut out, "cannot infer a supported AST language for ");
                push_str(&mut out, path.as_str());
            },
            SmartEditError::AstParseSetupFailed { language, message } => {
                push_str(&mut out, "failed to initialize ");
                push_str(&mut out, language.as_str());
                push_str(&mut out, " parser: ");
                push_str(&mut out, message.as_str());
            },
            SmartEditError::AstParseFailed { language, message } => {
                push_str(&mut out, "failed to parse ");
                push_str(&mut out, language.as_str());
                push_str(&mut out, " source: ");
                push_str(&mut out, message.as_str());
            },
            SmartEditError::InvalidAstSelectorPattern { pattern, message } => {
                push_str(&mut out, "invalid AST selector pattern `");
                push_str(&mut out, pattern.as_str());
                push_str(&mut out, "`: ");
                push_str(&mut out, message.as_str());
            },
            SmartEditError::NoAstItemsMatched { selector } => {
                push_str(&mut out, "no AST items matched selector ");
                push_str(&mut out, selector.as_str());
            },
            SmartEditError::RangeOutOfBounds { path, start, end, len } => {
                push_str(&mut out, "range [");
                push_decimal(&mut out, *start);
                push_str(&mut out, ", ");
                push_decimal(&mut out, *end);
                push_str(&mut out, ") is out of bounds for ");
                push_str(&mut out, path.as_str());
                push_str(&mut out, " (len ");
                push_decimal(&mut out, *len);
                push_str(&mut out, ")");
            },
            SmartEditError::RangeNotOnCharBoundary { path, offset } => {
                push_str(&mut out, "offset ");
                push_decimal(&mut out, *offset);
                push_str(&mut out, " is not on a UTF-8 character boundary in ");
                push_str(&mut out, path.as_str());
            },
            SmartEditError::RangesNotSortedOrDisjoint { path, previous_end, next_start } => {
                push_str(&mut out, "ranges for ");
                push_str(&mut out, path.as_str());
                push_str(&mut out, " must be sorted and non-overlapping (previous end ");
                push_decimal(&mut out, *previous_end);
                push_str(&mut out, ", next start ");
                push_decimal(&mut out, *next_start);
                push_str(&mut out, ")");
            },
            SmartEditError::InvalidInsertionOffset { path, offset, len } => {
                push_str(&mut out, "insertion offset ");
                push_decimal(&mut out, *offset);
                push_str(&mut out, " is out of bounds for ");
                push_str(&mut out, path.as_str());
                push_str(&mut out, " (len ");
                push_decimal(&mut out, *len);
                push_str(&mut out, ")");
            },
            SmartEditError::InsertionPointInsideMovedRange {
                path,
                offset,
                range_start,
                range_end,
            } => {
                push_str(&mut out, "insertion offset ");
                push_decimal(&mut out, *offset);
                push_str(&mut out, " falls inside moved range [");
                push_decimal(&mut out, *range_start);
                push_str(&mut out, ", ");
                push_decimal(&mut out, *range_end);
                push_str(&mut out, ") in ");
                push_str(&mut out, path.as_str());
            },
            SmartEditError::InsertionPointInsideDeletedRange {
                path,
                offset,
                range_start,
                range_end,
            } => {
                push_str(&mut out, "insertion offset ");
                push_decimal(&mut out, *offset);
                push_str(&mut out, " falls inside deleted range [");
                push_decimal(&mut out, *range_start);
                push_str(&mut out, ", ");
                push_decimal(&mut out, *range_end);
                push_str(&mut out, ") in ");
                push_str(&mut out, path.as_str());
            },
            SmartEditError::UnsupportedLanguageModification => {
                push_str(&mut out, "language-aware modifications are not implemented yet");
            },
        }
        proof {
            assert(out@ =~= self.message_spec());
        }
        string_of(&out)
    }
}

} // verus!
