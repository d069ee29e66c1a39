use smartedit::error::SmartEditError;

fn s(text: &str) -> String {
    text.to_owned()
}

#[test]
fn io_failure_names_operation_path_and_cause() {
    let e = SmartEditError::Io { operation: s("write file"), path: s("a/b.txt"), message: s("denied") };
    assert_eq!(e.message(), "write file failed for a/b.txt: denied");
}

#[test]
fn file_and_match_errors_name_their_paths() {
    assert_eq!(
        SmartEditError::FileAlreadyExists { path: s("x.rs") }.message(),
        "file already exists: x.rs"
    );
    assert_eq!(
        SmartEditError::NoFilesMatched { description: s("glob `*.rs` under src") }.message(),
        "no files matched glob `*.rs` under src"
    );
    assert_eq!(SmartEditError::MissingFile { path: s("gone") }.message(), "file does not exist: gone");
    assert_eq!(
        SmartEditError::ExpectedFileButFoundDirectory { path: s("d") }.message(),
        "expected a file but found a directory: d"
    );
    assert_eq!(
        SmartEditError::ExpectedDirectoryButFoundFile { path: s("f") }.message(),
        "expected a directory but found a file: f"
    );
    assert_eq!(SmartEditError::InvalidUtf8 { path: s("bin") }.message(), "file is not valid UTF-8: bin");
}

#[test]
fn pattern_errors_quote_the_pattern() {
    assert_eq!(
        SmartEditError::InvalidGlobPattern { pattern: s("[a"), message: s("unclosed") }.message(),
        "invalid glob pattern `[a`: unclosed"
    );
    assert_eq!(
        SmartEditError::InvalidRegexPattern { pattern: s("("), message: s("unclosed group") }
            .message(),
        "invalid regex pattern `(`: unclosed group"
    );
    assert_eq!(
        SmartEditError::InvalidAstSelectorPattern { pattern: s("[x"), message: s("bad") }.message(),
        "invalid AST selector pattern `[x`: bad"
    );
    assert_eq!(
        SmartEditError::NoAstItemsMatched { selector: s("-s main") }.message(),
        "no AST items matched selector -s main"
    );
    assert_eq!(SmartEditError::EmptyTextPattern.message(), "text match pattern must not be empty");
}

#[test]
fn conflict_errors_number_both_modifications() {
    assert_eq!(
        SmartEditError::ConflictingActionTargets {
            path: s("a.txt"),
            first_modification: 0,
            second_modification: 12,
        }
        .message(),
        "modification 12 conflicts with modification 0 on a.txt"
    );
}

#[test]
fn range_errors_give_their_bounds() {
    assert_eq!(SmartEditError::InvalidRange { start: 7, end: 3 }.message(), "invalid range [7, 3)");
    assert_eq!(
        SmartEditError::RangeOutOfBounds { path: s("f"), start: 2, end: 40, len: 10 }.message(),
        "range [2, 40) is out of bounds for f (len 10)"
    );
    assert_eq!(
        SmartEditError::RangeNotOnCharBoundary { path: s("f"), offset: 3 }.message(),
        "offset 3 is not on a UTF-8 character boundary in f"
    );
    assert_eq!(
        SmartEditError::RangesNotSortedOrDisjoint { path: s("f"), previous_end: 5, next_start: 4 }
            .message(),
        "ranges for f must be sorted and non-overlapping (previous end 5, next start 4)"
    );
    assert_eq!(
        SmartEditError::InvalidInsertionOffset { path: s("f"), offset: 9, len: 3 }.message(),
        "insertion offset 9 is out of bounds for f (len 3)"
    );
    assert_eq!(
        SmartEditError::InsertionPointInsideMovedRange {
            path: s("f"),
            offset: 2,
            range_start: 1,
            range_end: 4,
        }
        .message(),
        "insertion offset 2 falls inside moved range [1, 4) in f"
    );
    assert_eq!(
        SmartEditError::InsertionPointInsideDeletedRange {
            path: s("f"),
            offset: 2,
            range_start: 1,
            range_end: 4,
        }
        .message(),
        "insertion offset 2 falls inside deleted range [1, 4) in f"
    );
}

#[test]
fn outline_errors_name_language_and_path() {
    assert_eq!(
        SmartEditError::UnsupportedAstLanguage { path: s("notes.txt") }.message(),
        "cannot infer a supported AST language for notes.txt"
    );
    assert_eq!(
        SmartEditError::AstParseSetupFailed { language: s("rust"), message: s("version") }.message(),
        "failed to initialize rust parser: version"
    );
    assert_eq!(
        SmartEditError::AstParseFailed { language: s("go"), message: s("no tree") }.message(),
        "failed to parse go source: no tree"
    );
    assert_eq!(
        SmartEditError::UnsupportedLanguageModification.message(),
        "language-aware modifications are not implemented yet"
    );
}
