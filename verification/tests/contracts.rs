use smartedit::edit::TextRange;
use smartedit::error::SmartEditError;
use smartedit::executor::{
    action_calls, create_file_refusal, delete_actions, failure_error, fresh_text_update, FsCall,
    ResolvedFileMatch,
};
use smartedit::fs::{IoErrorKind, IoFailure};
use smartedit::matchers::GlobPattern;
use smartedit::outline::{
    mark_overlapping_sibling_locations, AstItem, AstItemKind, AstLanguage, AstLocationRange,
};
use smartedit::plan::PlannedAction;
use smartedit::textedit::{render_text_update, DeletionKind, PendingDeletion, PendingInsertion};

fn item(name: &str, start_line: usize, end_line: usize, children: Vec<AstItem>) -> AstItem {
    AstItem {
        kind: AstItemKind::Function,
        name: Some(name.to_string()),
        associated_type: None,
        location: AstLocationRange { start_line, end_line, is_edit_ready: true },
        docs: None,
        inner_docs: None,
        attributes: None,
        source_preamble: None,
        summary: format!("fn {name}"),
        signature: None,
        body: None,
        children,
    }
}

fn failure(kind: IoErrorKind) -> IoFailure {
    IoFailure { kind, message: "boom".to_string() }
}

fn io(operation: &str, path: &str) -> SmartEditError {
    SmartEditError::Io {
        operation: operation.to_string(),
        path: path.to_string(),
        message: "boom".to_string(),
    }
}

#[test]
fn overlapping_children_are_marked_at_every_depth() {
    let inner = vec![item("a", 2, 3, vec![]), item("b", 2, 3, vec![]), item("c", 4, 5, vec![])];
    let items = vec![item("outer", 0, 10, inner), item("next", 10, 12, vec![])];
    let marked = mark_overlapping_sibling_locations(items);
    assert!(marked[0].location.is_edit_ready);
    assert!(marked[1].location.is_edit_ready);
    let children = &marked[0].children;
    assert_eq!(children.len(), 3);
    assert!(!children[0].location.is_edit_ready);
    assert!(!children[1].location.is_edit_ready);
    assert!(children[2].location.is_edit_ready);
    assert_eq!(children[1].name.as_deref(), Some("b"));
    assert_eq!(children[0].location.start_line, 2);
}

#[test]
fn overlapping_grandchildren_are_marked() {
    let grandchildren = vec![item("x", 3, 4, vec![]), item("y", 3, 5, vec![])];
    let items = vec![item("outer", 0, 10, vec![item("mid", 1, 9, grandchildren)])];
    let marked = mark_overlapping_sibling_locations(items);
    let mid = &marked[0].children[0];
    assert!(mid.location.is_edit_ready);
    assert!(!mid.children[0].location.is_edit_ready);
    assert!(!mid.children[1].location.is_edit_ready);
}

#[test]
fn failing_directory_creation_is_an_io_error() {
    let action = PlannedAction::CreateDirectory { path: "d".to_string() };
    let r = failure_error(&action, false, failure(IoErrorKind::Other));
    assert_eq!(r, Err(io("create directory", "d")));
}

#[test]
fn failing_parent_creation_names_the_parent() {
    let action =
        PlannedAction::WriteFile { path: "a/b/f.txt".to_string(), bytes: vec![], overwrite: true };
    let r = failure_error(&action, true, failure(IoErrorKind::Other));
    assert_eq!(r, Err(io("create directory", "a/b")));
}

#[test]
fn failing_overwrite_is_a_write_error() {
    let action = PlannedAction::WriteFile { path: "f".to_string(), bytes: vec![], overwrite: true };
    let r = failure_error(&action, false, failure(IoErrorKind::AlreadyExists));
    assert_eq!(r, Err(io("write file", "f")));
}

#[test]
fn existing_file_refuses_a_new_file() {
    let action = PlannedAction::WriteFile { path: "f".to_string(), bytes: vec![], overwrite: false };
    let r = failure_error(&action, false, failure(IoErrorKind::AlreadyExists));
    assert_eq!(r, Err(SmartEditError::FileAlreadyExists { path: "f".to_string() }));
    let r = failure_error(&action, false, failure(IoErrorKind::Other));
    assert_eq!(r, Err(io("create file", "f")));
}

#[test]
fn missing_file_to_delete_depends_on_missing_ok() {
    let allowed = PlannedAction::DeleteFile { path: "f".to_string(), missing_ok: true };
    assert_eq!(failure_error(&allowed, false, failure(IoErrorKind::NotFound)), Ok(()));
    let refused = PlannedAction::DeleteFile { path: "f".to_string(), missing_ok: false };
    assert_eq!(
        failure_error(&refused, false, failure(IoErrorKind::NotFound)),
        Err(SmartEditError::MissingFile { path: "f".to_string() })
    );
    assert_eq!(
        failure_error(&allowed, false, failure(IoErrorKind::Other)),
        Err(io("delete file", "f"))
    );
}

#[test]
fn failing_move_names_the_source() {
    let action = PlannedAction::MoveFile {
        source: "s".to_string(),
        destination: "d".to_string(),
        overwrite: false,
    };
    let r = failure_error(&action, false, failure(IoErrorKind::AlreadyExists));
    assert_eq!(r, Err(io("move file", "s")));
}

#[test]
fn fresh_update_keeps_existing_text() {
    let path = "f.txt".to_string();
    let update =
        fresh_text_update(&path, "/abs/f.txt".to_string(), Some(vec!['a', '\n']), false, 3).unwrap();
    assert!(update.original_existed);
    assert_eq!(update.original_content, vec!['a', '\n']);
    assert_eq!(update.path, "/abs/f.txt");
    assert_eq!(update.first_modification_index, 3);
    assert!(update.deletions.is_empty() && update.insertions.is_empty());
}

#[test]
fn fresh_update_of_a_missing_file() {
    let path = "new.txt".to_string();
    let created = fresh_text_update(&path, path.clone(), None, true, 1).unwrap();
    assert!(!created.original_existed);
    assert!(created.original_content.is_empty());
    let refused = fresh_text_update(&path, path.clone(), None, false, 1);
    assert!(matches!(refused, Err(SmartEditError::MissingFile { path }) if path == "new.txt"));
}

fn deletion(start: usize, end: usize) -> PendingDeletion {
    PendingDeletion {
        range: TextRange { start, end, span: None },
        kind: DeletionKind::Delete,
        modification_index: 0,
    }
}

#[test]
fn insertion_inside_deletion_reports_smallest_offset() {
    let content: Vec<char> = "0123456789".chars().collect();
    let deletions = vec![deletion(6, 9), deletion(1, 4)];
    let insertions = vec![
        PendingInsertion { offset: 7, text: vec!['x'], order: 0 },
        PendingInsertion { offset: 2, text: vec!['y'], order: 1 },
    ];
    let path = "f".to_string();
    let r = render_text_update(&path, &content, &deletions, &insertions);
    assert_eq!(
        r,
        Err(SmartEditError::InsertionPointInsideDeletedRange {
            path: "f".to_string(),
            offset: 2,
            range_start: 1,
            range_end: 4,
        })
    );
}

#[test]
fn out_of_bounds_deletion_comes_before_inside_insertions() {
    let content: Vec<char> = "abc".chars().collect();
    let deletions = vec![deletion(0, 2), deletion(1, 9)];
    let insertions = vec![PendingInsertion { offset: 1, text: vec!['x'], order: 0 }];
    let path = "f".to_string();
    let r = render_text_update(&path, &content, &deletions, &insertions);
    assert_eq!(
        r,
        Err(SmartEditError::RangeOutOfBounds { path: "f".to_string(), start: 1, end: 9, len: 3 })
    );
}

#[test]
fn deeply_nested_alternates_are_refused_not_a_panic() {
    let pattern = format!("{}a{}", "{".repeat(300), "}".repeat(300));
    assert!(GlobPattern::compile(&pattern).is_err());
}

fn matched(path: &str) -> ResolvedFileMatch {
    ResolvedFileMatch { path: path.to_string(), relative_path: path.to_string() }
}

#[test]
fn deleting_matched_files_plans_one_delete_each() {
    let r = delete_actions(vec![matched("a.txt"), matched("b.txt")], false, "glob *.txt".to_string());
    assert_eq!(
        r,
        Ok(vec![
            PlannedAction::DeleteFile { path: "a.txt".to_string(), missing_ok: false },
            PlannedAction::DeleteFile { path: "b.txt".to_string(), missing_ok: false },
        ])
    );
}

#[test]
fn deleting_nothing_is_refused_unless_allowed() {
    let refused = delete_actions(vec![], false, "glob *.txt".to_string());
    assert_eq!(refused, Err(SmartEditError::NoFilesMatched { description: "glob *.txt".to_string() }));
    assert_eq!(delete_actions(vec![], true, "glob *.txt".to_string()), Ok(vec![]));
}

#[test]
fn creating_a_file_over_an_entry() {
    let path = "f".to_string();
    assert_eq!(
        create_file_refusal(&path, true, true, true),
        Some(SmartEditError::ExpectedFileButFoundDirectory { path: "f".to_string() })
    );
    assert_eq!(
        create_file_refusal(&path, false, true, false),
        Some(SmartEditError::FileAlreadyExists { path: "f".to_string() })
    );
    assert_eq!(create_file_refusal(&path, true, true, false), None);
    assert_eq!(create_file_refusal(&path, false, false, false), None);
}

#[test]
fn insertion_inside_deletion_reports_byte_offsets() {
    let content: Vec<char> = "éé\nabc".chars().collect();
    let deletions = vec![deletion(1, 5)];
    let insertions = vec![PendingInsertion { offset: 2, text: vec!['x'], order: 0 }];
    let path = "f".to_string();
    let r = render_text_update(&path, &content, &deletions, &insertions);
    assert_eq!(
        r,
        Err(SmartEditError::InsertionPointInsideDeletedRange {
            path: "f".to_string(),
            offset: 4,
            range_start: 2,
            range_end: 7,
        })
    );
}

#[test]
fn language_of_a_path_ignores_trailing_slashes() {
    assert_eq!(AstLanguage::from_path("src/main.rs/"), Some(AstLanguage::Rust));
    assert_eq!(AstLanguage::from_path("pkg/.py"), None);
    assert_eq!(AstLanguage::from_path("lib.go"), Some(AstLanguage::Go));
}

#[test]
fn a_new_file_is_created_after_its_parent_directory() {
    let action =
        PlannedAction::WriteFile { path: "a/b/f.txt".to_string(), bytes: vec![1], overwrite: false };
    let calls = action_calls(&action);
    assert_eq!(calls.len(), 2);
    assert!(matches!(&calls[0], FsCall::CreateDirAll { path } if path == "a/b"));
    assert!(matches!(&calls[1], FsCall::CreateNewBytes { path } if path == "a/b/f.txt"));
    let overwrite =
        PlannedAction::WriteFile { path: "f.txt".to_string(), bytes: vec![], overwrite: true };
    let calls = action_calls(&overwrite);
    assert_eq!(calls.len(), 1);
    assert!(matches!(&calls[0], FsCall::WriteBytes { path } if path == "f.txt"));
    let delete = PlannedAction::DeleteFile { path: "g".to_string(), missing_ok: true };
    assert!(matches!(&action_calls(&delete)[0], FsCall::RemoveFile { path } if path == "g"));
}
