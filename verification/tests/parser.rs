use smartedit::edit::{
    GenericModification, Modification, PathDestinationKind, PathSpecKind, ProgramMode,
    TextPattern,
};

use smartedit::program::parse_edit_program;

#[test]
fn parses_multiple_operations_and_comments() {
    let source = r#"
mode incremental
# comment
m a/*.rs dst/
apply
lm a.txt:1-3,5-7 b.txt:2 # inline
ld c.txt:0-1,3-4
li d.txt:1 "x\ny\n"
lr e.txt:2-4 "replacement\n"
ldm f.txt r"^use "
tr src/*.rs "foo" "bar"
tr Cargo.toml r"^(name = )\"([^\"]+)\"" "$1\"smartedit\""
r r"a/[a-z]+\.rs"
"#;

    let program = parse_edit_program(source).unwrap();
    assert_eq!(program.mode, ProgramMode::Incremental);
    assert_eq!(program.stages().len(), 2);
    assert_eq!(program.modifications().len(), 9);

    match &program.modifications()[0] {
        Modification::Generic(GenericModification::MoveFiles {
            sources,
            destination_dir,
            ..
        }) => {
            assert!(matches!(sources.kind, PathSpecKind::Glob { .. }));
            assert!(matches!(
                destination_dir.kind,
                PathDestinationKind::Directory { ref path } if path == &String::from("dst/")
            ));
        }
        other => panic!("unexpected modification: {other:?}"),
    }

    match &program.modifications()[1] {
        Modification::Generic(GenericModification::MoveRanges {
            source,
            destination,
            ..
        }) => {
            assert_eq!(source.path, String::from("a.txt"));
            assert_eq!(source.ranges.ranges().len(), 2);
            assert_eq!(destination.path, String::from("b.txt"));
            assert_eq!(destination.offset, 2);
        }
        other => panic!("unexpected modification: {other:?}"),
    }

    match &program.modifications()[2] {
        Modification::Generic(GenericModification::DeleteRanges { target, .. }) => {
            assert_eq!(target.path, String::from("c.txt"));
            assert_eq!(target.ranges.ranges().len(), 2);
        }
        other => panic!("unexpected modification: {other:?}"),
    }

    match &program.modifications()[3] {
        Modification::Generic(GenericModification::InsertLines {
            target, content, ..
        }) => {
            assert_eq!(target.path, String::from("d.txt"));
            assert_eq!(target.offset, 1);
            assert_eq!(content, "x\ny\n");
        }
        other => panic!("unexpected modification: {other:?}"),
    }

    match &program.modifications()[4] {
        Modification::Generic(GenericModification::ReplaceRanges {
            target, content, ..
        }) => {
            assert_eq!(target.path, String::from("e.txt"));
            assert_eq!(target.ranges.ranges().len(), 1);
            assert_eq!(content, "replacement\n");
        }
        other => panic!("unexpected modification: {other:?}"),
    }

    match &program.modifications()[5] {
        Modification::Generic(GenericModification::DeleteLinesMatching { target, .. }) => {
            assert_eq!(target.path, String::from("f.txt"));
            assert_eq!(target.pattern, "^use ");
        }
        other => panic!("unexpected modification: {other:?}"),
    }

    match &program.modifications()[6] {
        Modification::Generic(GenericModification::TextReplace {
            targets,
            pattern,
            replacement,
            ..
        }) => {
            assert!(matches!(targets.kind, PathSpecKind::Glob { .. }));
            assert!(matches!(pattern, TextPattern::Literal { text, .. } if text == "foo"));
            assert_eq!(replacement, "bar");
        }
        other => panic!("unexpected modification: {other:?}"),
    }

    match &program.modifications()[7] {
        Modification::Generic(GenericModification::TextReplace {
            targets,
            pattern,
            replacement,
            ..
        }) => {
            assert!(matches!(
                targets.kind,
                PathSpecKind::ExactFile { ref path } if path == &String::from("Cargo.toml")
            ));
            assert!(matches!(
                pattern,
                TextPattern::Regex { pattern, .. } if pattern == r#"^(name = )"([^"]+)""#
            ));
            assert_eq!(replacement, "$1\"smartedit\"");
        }
        other => panic!("unexpected modification: {other:?}"),
    }

    match &program.modifications()[8] {
        Modification::Generic(GenericModification::DeleteFiles { targets, .. }) => {
            assert!(matches!(targets.kind, PathSpecKind::Regex { .. }));
        }
        other => panic!("unexpected modification: {other:?}"),
    }
}

#[test]
fn parses_crlf_and_mixed_line_endings() {
    let source = "# windows\r\nld a.txt:0-1\r\n\r\n# unix next\nli b.txt:0 \"x\\n\"\r\n";

    let program = parse_edit_program(source).unwrap();

    assert_eq!(program.modification_count(), 2);
}

#[test]
fn parses_a_final_comment_without_a_newline() {
    let program = parse_edit_program("ld a.txt:0-1\n# final comment").unwrap();

    assert_eq!(program.modification_count(), 1);
}

#[test]
fn regex_source_prefix_is_removed_from_the_root_relative_pattern() {
    let program = parse_edit_program(r#"r r"src/generated/[a-z_]+\.rs""#).unwrap();

    match &program.modifications()[0] {
        Modification::Generic(GenericModification::DeleteFiles { targets, .. }) => {
            assert!(matches!(
                &targets.kind,
                PathSpecKind::Regex { root, pattern }
                    if root == &String::from("src/generated")
                        && pattern == r#"[a-z_]+\.rs"#
            ));
        }
        other => panic!("unexpected modification: {other:?}"),
    }
}

#[test]
fn top_level_regex_alternation_keeps_mixed_prefixes() {
    let program = parse_edit_program(r#"r r"src/.*\.rs|README\.md""#).unwrap();
    let Modification::Generic(GenericModification::DeleteFiles { targets, .. }) =
        &program.stages()[0].modifications()[0]
    else {
        panic!("expected remove operation");
    };
    assert_eq!(
        targets.kind,
        PathSpecKind::Regex {
            root: String::from("."),
            pattern: r"src/.*\.rs|README\.md".to_owned(),
        }
    );
}

#[test]
fn directory_and_glob_roots_are_not_reduced_to_drive_relative_paths() {
    let directory = parse_edit_program(r"r C:\").unwrap();
    let Modification::Generic(GenericModification::DeleteFiles { targets, .. }) =
        &directory.stages()[0].modifications()[0]
    else {
        panic!("expected remove operation");
    };
    assert_eq!(
        targets.kind,
        PathSpecKind::FilesInDirectory {
            root: String::from(r"C:\"),
            recursive: true,
        }
    );

    let glob = parse_edit_program(r"r C:\*.rs").unwrap();
    let Modification::Generic(GenericModification::DeleteFiles { targets, .. }) =
        &glob.stages()[0].modifications()[0]
    else {
        panic!("expected remove operation");
    };
    assert_eq!(
        targets.kind,
        PathSpecKind::Glob {
            root: String::from(r"C:\"),
            pattern: "*.rs".to_owned(),
        }
    );
}

#[test]
fn unix_root_directory_and_glob_remain_absolute() {
    let directory = parse_edit_program("r /").unwrap();
    let Modification::Generic(GenericModification::DeleteFiles { targets, .. }) =
        &directory.stages()[0].modifications()[0]
    else {
        panic!("expected remove operation");
    };
    assert_eq!(
        targets.kind,
        PathSpecKind::FilesInDirectory {
            root: String::from("/"),
            recursive: true,
        }
    );

    let glob = parse_edit_program("r /*.rs").unwrap();
    let Modification::Generic(GenericModification::DeleteFiles { targets, .. }) =
        &glob.stages()[0].modifications()[0]
    else {
        panic!("expected remove operation");
    };
    assert_eq!(
        targets.kind,
        PathSpecKind::Glob {
            root: String::from("/"),
            pattern: "*.rs".to_owned(),
        }
    );
}

#[test]
fn anchored_regex_source_keeps_its_full_pattern() {
    let program = parse_edit_program(r#"r r"^src/[a-z_]+\.rs$""#).unwrap();

    match &program.modifications()[0] {
        Modification::Generic(GenericModification::DeleteFiles { targets, .. }) => {
            assert!(matches!(
                &targets.kind,
                PathSpecKind::Regex { root, pattern }
                    if root == &String::from(".") && pattern == r#"^src/[a-z_]+\.rs$"#
            ));
        }
        other => panic!("unexpected modification: {other:?}"),
    }
}

#[test]
fn parses_windows_drive_letter_line_targets() {
    let program = parse_edit_program(
        r#"ld C:\work\src\main.rs:0-2
li D:/output.txt:1 "line\n""#,
    )
    .unwrap();

    match &program.modifications()[0] {
        Modification::Generic(GenericModification::DeleteRanges { target, .. }) => {
            assert_eq!(target.path, String::from(r"C:\work\src\main.rs"));
        }
        other => panic!("unexpected modification: {other:?}"),
    }
    match &program.modifications()[1] {
        Modification::Generic(GenericModification::InsertLines { target, .. }) => {
            assert_eq!(target.path, String::from("D:/output.txt"));
        }
        other => panic!("unexpected modification: {other:?}"),
    }
}

#[test]
fn parses_native_separator_glob_and_directory_roots() {
    let program = parse_edit_program(
        r#"r C:\work\src\*.rs
r C:\work\cache\"#,
    )
    .unwrap();

    assert!(matches!(
        &program.modifications()[0],
        Modification::Generic(GenericModification::DeleteFiles { targets, .. })
            if matches!(
                &targets.kind,
                PathSpecKind::Glob { root, pattern }
                    if root == &String::from(r"C:\work\src") && pattern == "*.rs"
            )
    ));
    assert!(matches!(
        &program.modifications()[1],
        Modification::Generic(GenericModification::DeleteFiles { targets, .. })
            if matches!(
                &targets.kind,
                PathSpecKind::FilesInDirectory { root, .. }
                    if root == &String::from(r"C:\work\cache")
            )
    ));
}

#[test]
fn parses_quoted_path_specs_and_destinations() {
    let program = parse_edit_program(
        r#"m "source dir/*.rs" "destination #1/"
r "recursive #1/"
tr "exact #1.txt" "old" "new""#,
    )
    .unwrap();

    assert!(matches!(
        &program.modifications()[0],
        Modification::Generic(GenericModification::MoveFiles {
            sources,
            destination_dir,
            ..
        }) if matches!(
            &sources.kind,
            PathSpecKind::Glob { root, pattern }
                if root == &String::from("source dir") && pattern == "*.rs"
        ) && matches!(
            &destination_dir.kind,
            PathDestinationKind::Directory { path }
                if path == &String::from("destination #1/")
        )
    ));
    assert!(matches!(
        &program.modifications()[1],
        Modification::Generic(GenericModification::DeleteFiles { targets, .. })
            if matches!(
                &targets.kind,
                PathSpecKind::FilesInDirectory { root, .. }
                    if root == &String::from("recursive #1")
            )
    ));
    assert!(matches!(
        &program.modifications()[2],
        Modification::Generic(GenericModification::TextReplace { targets, .. })
            if matches!(
                &targets.kind,
                PathSpecKind::ExactFile { path }
                    if path == &String::from("exact #1.txt")
            )
    ));
}

#[test]
fn parses_quoted_paths_for_every_text_target() {
    let program = parse_edit_program(
        r#"lm "C:\\Program Files\\source #1.txt":0-2 "D:\\Output\\target #1.txt":1
ld "delete #1.txt":2-3
li "insert #1.txt":4 "line\n"
lr "replace #1.txt":5-6 "line\n"
ldm "match #1.txt" r"^drop$""#,
    )
    .unwrap();

    match &program.modifications()[0] {
        Modification::Generic(GenericModification::MoveRanges {
            source,
            destination,
            ..
        }) => {
            assert_eq!(
                source.path,
                String::from(r"C:\Program Files\source #1.txt")
            );
            assert_eq!(destination.path, String::from(r"D:\Output\target #1.txt"));
        }
        other => panic!("unexpected modification: {other:?}"),
    }

    for (index, expected) in [
        (1, "delete #1.txt"),
        (2, "insert #1.txt"),
        (3, "replace #1.txt"),
    ] {
        let actual = match &program.modifications()[index] {
            Modification::Generic(GenericModification::DeleteRanges { target, .. }) => {
                &target.path
            }
            Modification::Generic(GenericModification::InsertLines { target, .. }) => {
                &target.path
            }
            Modification::Generic(GenericModification::ReplaceRanges { target, .. }) => {
                &target.path
            }
            other => panic!("unexpected modification: {other:?}"),
        };
        assert_eq!(actual, &String::from(expected));
    }

    assert!(matches!(
        &program.modifications()[4],
        Modification::Generic(GenericModification::DeleteLinesMatching { target, .. })
            if target.path == "match #1.txt"
                && target.pattern == "^drop$"
    ));
}

#[test]
fn quoted_paths_use_standard_string_escapes_without_changing_unquoted_paths_or_regexes() {
    let program = parse_edit_program(
        r#"r plain/path.txt
r C:\work\src\*.rs
r r"src/[a-z_]+\.rs"
ld "quote\" and tab\t.txt":0-1"#,
    )
    .unwrap();

    assert!(matches!(
        &program.modifications()[0],
        Modification::Generic(GenericModification::DeleteFiles { targets, .. })
            if matches!(
                &targets.kind,
                PathSpecKind::ExactFile { path }
                    if path == &String::from("plain/path.txt")
            )
    ));
    assert!(matches!(
        &program.modifications()[1],
        Modification::Generic(GenericModification::DeleteFiles { targets, .. })
            if matches!(
                &targets.kind,
                PathSpecKind::Glob { root, pattern }
                    if root == &String::from(r"C:\work\src") && pattern == "*.rs"
            )
    ));
    assert!(matches!(
        &program.modifications()[2],
        Modification::Generic(GenericModification::DeleteFiles { targets, .. })
            if matches!(&targets.kind, PathSpecKind::Regex { .. })
    ));
    assert!(matches!(
        &program.modifications()[3],
        Modification::Generic(GenericModification::DeleteRanges { target, .. })
            if target.path == "quote\" and tab\t.txt"
    ));
}
