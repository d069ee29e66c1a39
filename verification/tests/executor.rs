use std::cell::RefCell;
use std::collections::{BTreeMap, BTreeSet};

use smartedit::edit::{
    EditProgram, FileInsertion, GenericModification, Modification, PathDestination, PathSpec,
};
use smartedit::error::SmartEditError;
use smartedit::executor::{register_all, Executor, PlannedTarget, PlannedTargetKind};
use smartedit::fs::{FileSystem, IoErrorKind, IoFailure};
use smartedit::fspath::{lexical_path, PathMap};
use smartedit::plan::{ExecutionOptions, PlannedAction};
use smartedit::program::parse_edit_program;

/// A file system held in memory: files by normalized path, and directories.
#[derive(Default)]
struct MemFs {
    files: RefCell<BTreeMap<String, Vec<u8>>>,
    dirs: RefCell<BTreeSet<String>>,
    /// Groups of paths that are hard links of one file.
    links: RefCell<Vec<BTreeSet<String>>>,
}

fn norm(path: &str) -> String {
    let p = lexical_path(path);
    if p.is_empty() {
        ".".to_string()
    } else {
        p
    }
}

fn not_found(path: &str) -> IoFailure {
    IoFailure { kind: IoErrorKind::NotFound, message: format!("{path} not found") }
}

impl MemFs {
    fn with_files(files: &[(&str, &str)]) -> MemFs {
        let fs = MemFs::default();
        for (path, content) in files {
            fs.put(path, content);
        }
        fs
    }

    fn put(&self, path: &str, content: &str) {
        let p = norm(path);
        let mut parent = p.as_str();
        while let Some(index) = parent.rfind('/') {
            parent = &parent[..index];
            self.dirs.borrow_mut().insert(parent.to_string());
        }
        self.files.borrow_mut().insert(p, content.as_bytes().to_vec());
    }

    /// Makes `alias` a hard link of the existing file `target`.
    fn hard_link(&self, target: &str, alias: &str) {
        let (t, a) = (norm(target), norm(alias));
        let content = self.files.borrow()[&t].clone();
        self.files.borrow_mut().insert(a.clone(), content);
        let mut links = self.links.borrow_mut();
        match links.iter_mut().find(|group| group.contains(&t)) {
            Some(group) => {
                group.insert(a);
            }
            None => links.push([t, a].into_iter().collect()),
        }
    }

    /// The paths that share the file at `path`, `path` included.
    fn linked(&self, path: &str) -> Vec<String> {
        let p = norm(path);
        match self.links.borrow().iter().find(|group| group.contains(&p)) {
            Some(group) => group.iter().cloned().collect(),
            None => vec![p],
        }
    }

    fn text(&self, path: &str) -> Option<String> {
        self.files
            .borrow()
            .get(&norm(path))
            .map(|bytes| String::from_utf8(bytes.clone()).unwrap())
    }
}

impl FileSystem for MemFs {
    fn create_dir_all(&self, path: &str) -> Result<(), IoFailure> {
        let p = norm(path);
        let mut current = p.as_str();
        loop {
            self.dirs.borrow_mut().insert(current.to_string());
            match current.rfind('/') {
                Some(index) => current = &current[..index],
                None => break,
            }
        }
        Ok(())
    }

    fn write_bytes(&self, path: &str, contents: &[u8]) -> Result<(), IoFailure> {
        for p in self.linked(path) {
            self.files.borrow_mut().insert(p, contents.to_vec());
        }
        Ok(())
    }

    fn create_new_bytes(&self, path: &str, contents: &[u8]) -> Result<(), IoFailure> {
        let p = norm(path);
        if self.files.borrow().contains_key(&p) {
            return Err(IoFailure { kind: IoErrorKind::AlreadyExists, message: "exists".into() });
        }
        self.files.borrow_mut().insert(p, contents.to_vec());
        Ok(())
    }

    fn read_bytes(&self, path: &str) -> Result<Vec<u8>, IoFailure> {
        self.files.borrow().get(&norm(path)).cloned().ok_or_else(|| not_found(path))
    }

    fn remove_file(&self, path: &str) -> Result<(), IoFailure> {
        self.files.borrow_mut().remove(&norm(path)).map(|_| ()).ok_or_else(|| not_found(path))
    }

    fn move_file(&self, source: &str, destination: &str, overwrite: bool) -> Result<(), IoFailure> {
        let d = norm(destination);
        if !overwrite && self.files.borrow().contains_key(&d) {
            return Err(IoFailure { kind: IoErrorKind::AlreadyExists, message: "exists".into() });
        }
        let bytes = self.files.borrow_mut().remove(&norm(source)).ok_or_else(|| not_found(source))?;
        self.files.borrow_mut().insert(d, bytes);
        Ok(())
    }

    fn path_exists(&self, path: &str) -> Result<bool, IoFailure> {
        let p = norm(path);
        Ok(p == "." || self.files.borrow().contains_key(&p) || self.dirs.borrow().contains(&p))
    }

    fn is_file(&self, path: &str) -> Result<bool, IoFailure> {
        Ok(self.files.borrow().contains_key(&norm(path)))
    }

    fn is_dir(&self, path: &str) -> Result<bool, IoFailure> {
        let p = norm(path);
        Ok(p == "." || self.dirs.borrow().contains(&p))
    }

    fn list_files(&self, root: &str, recursive: bool) -> Result<Vec<String>, IoFailure> {
        let r = norm(root);
        let mut out = Vec::new();
        for path in self.files.borrow().keys() {
            let relative = if r == "." {
                Some(path.as_str())
            } else {
                path.strip_prefix(&format!("{r}/"))
            };
            if let Some(relative) = relative {
                if recursive || !relative.contains('/') {
                    let root_text = root.trim_end_matches('/');
                    out.push(format!("{root_text}/{relative}"));
                }
            }
        }
        Ok(out)
    }

    fn entry_path_identity(&self, path: &str) -> String {
        norm(path)
    }

    fn content_path_identity(&self, path: &str) -> String {
        norm(path)
    }

    fn same_content_file(&self, left: &str, right: &str) -> Result<bool, IoFailure> {
        for p in [left, right] {
            if !self.files.borrow().contains_key(&norm(p)) {
                return Err(not_found(p));
            }
        }
        Ok(self.linked(left).contains(&norm(right)))
    }
}

fn run(fs: MemFs, program: &str) -> (MemFs, Result<(), SmartEditError>) {
    let program = parse_edit_program(program).unwrap();
    let executor = Executor::with_file_system(fs);
    let result = executor.execute(&program);
    (executor_into_fs(executor), result)
}

fn executor_into_fs(executor: Executor<MemFs>) -> MemFs {
    executor.into_file_system()
}

#[test]
fn deletes_multiple_ranges_from_a_file() {
    let fs = MemFs::with_files(&[("data.txt", "zero\none\ntwo\nthree\nfour\n")]);
    let (fs, result) = run(fs, "ld data.txt:1-2,3-4\n");
    result.unwrap();
    assert_eq!(fs.text("data.txt").unwrap(), "zero\ntwo\nfour\n");
}

#[test]
fn inserts_lines_into_a_file() {
    let fs = MemFs::with_files(&[("data.txt", "a\nb\n")]);
    let (fs, result) = run(fs, "li data.txt:1 \"x\\ny\\n\"\n");
    result.unwrap();
    assert_eq!(fs.text("data.txt").unwrap(), "a\nx\ny\nb\n");
}

#[test]
fn replaces_lines_in_a_file() {
    let fs = MemFs::with_files(&[("a.txt", "a\nb\nc\n")]);
    let (fs, result) = run(fs, "lr a.txt:1-2 \"B\\nB2\\n\"\n");
    result.unwrap();
    assert_eq!(fs.text("a.txt").unwrap(), "a\nB\nB2\nc\n");
}

#[test]
fn deletes_lines_matching_a_regex() {
    let fs = MemFs::with_files(&[("a.rs", "use a;\nfn f() {}\nuse b;\n")]);
    let (fs, result) = run(fs, "ldm a.rs r\"^use \"\n");
    result.unwrap();
    assert_eq!(fs.text("a.rs").unwrap(), "fn f() {}\n");
}

#[test]
fn deletes_lines_matching_an_anchored_regex_with_crlf() {
    let fs = MemFs::with_files(&[("a.txt", "keep\r\ndrop\r\nkeep2\r\n")]);
    let (fs, result) = run(fs, "ldm a.txt r\"^drop$\"\n");
    result.unwrap();
    assert_eq!(fs.text("a.txt").unwrap(), "keep\r\nkeep2\r\n");
}

#[test]
fn text_replace_rewrites_literal_matches_across_globbed_files() {
    let fs = MemFs::with_files(&[
        ("src/a.rs", "foo foo\n"),
        ("src/b.rs", "x foo\n"),
        ("src/c.txt", "foo\n"),
    ]);
    let (fs, result) = run(fs, "tr src/*.rs \"foo\" \"bar\"\n");
    result.unwrap();
    assert_eq!(fs.text("src/a.rs").unwrap(), "bar bar\n");
    assert_eq!(fs.text("src/b.rs").unwrap(), "x bar\n");
    assert_eq!(fs.text("src/c.txt").unwrap(), "foo\n");
}

#[test]
fn text_replace_supports_regex_capture_groups() {
    let fs = MemFs::with_files(&[("Cargo.toml", "name = \"old\"\nversion = \"1\"\n")]);
    let (fs, result) =
        run(fs, "tr Cargo.toml r\"^(name = )\\\"([^\\\"]+)\\\"\" \"$1\\\"smartedit\\\"\"\n");
    result.unwrap();
    assert_eq!(fs.text("Cargo.toml").unwrap(), "name = \"smartedit\"\nversion = \"1\"\n");
}

#[test]
fn text_replace_places_multibyte_matches_by_character() {
    let fs = MemFs::with_files(&[("a.txt", "é x é\n")]);
    let (fs, result) = run(fs, "tr a.txt r\"x\" \"yy\"\n");
    result.unwrap();
    assert_eq!(fs.text("a.txt").unwrap(), "é yy é\n");
}

#[test]
fn moves_files_selected_from_a_directory() {
    let fs = MemFs::with_files(&[("src/a.rs", "a"), ("src/nested/b.rs", "b")]);
    let (fs, result) = run(fs, "m src/ dst/\n");
    result.unwrap();
    assert_eq!(fs.text("dst/a.rs").unwrap(), "a");
    assert_eq!(fs.text("dst/nested/b.rs").unwrap(), "b");
    assert!(fs.text("src/a.rs").is_none());
}

#[test]
fn deletes_files_selected_by_glob() {
    let fs = MemFs::with_files(&[("a/x.rs", "x"), ("a/y.txt", "y")]);
    let (fs, result) = run(fs, "r a/*.rs\n");
    result.unwrap();
    assert!(fs.text("a/x.rs").is_none());
    assert_eq!(fs.text("a/y.txt").unwrap(), "y");
}

#[test]
fn documented_root_relative_regex_matches_files() {
    let fs = MemFs::with_files(&[("src/generated/a_b.rs", "1"), ("src/generated/C.rs", "2")]);
    let (fs, result) = run(fs, "r r\"src/generated/[a-z_]+\\.rs\"\n");
    result.unwrap();
    assert!(fs.text("src/generated/a_b.rs").is_none());
    assert_eq!(fs.text("src/generated/C.rs").unwrap(), "2");
}

#[test]
fn dry_run_returns_plan_without_changing_files() {
    let fs = MemFs::with_files(&[("a.txt", "a\nb\n")]);
    let program = parse_edit_program("ld a.txt:0-1\n").unwrap();
    let executor = Executor::with_file_system(fs);
    let plan = executor.run(&program, ExecutionOptions::new(true)).unwrap();
    let actions = plan.actions();
    assert_eq!(actions.len(), 1);
    assert!(matches!(
        actions[0],
        PlannedAction::WriteFile { path, bytes, overwrite: true } if path == "a.txt" && bytes == b"b\n"
    ));
    let fs = executor.into_file_system();
    assert_eq!(fs.text("a.txt").unwrap(), "a\nb\n");
}

#[test]
fn snapshot_line_moves_from_same_source_are_merged_into_one_final_write() {
    let fs = MemFs::with_files(&[("a.txt", "1\n2\n3\n"), ("b.txt", "")]);
    let program = parse_edit_program("lm a.txt:0-1 b.txt:0\nlm a.txt:2-3 b.txt:0\n").unwrap();
    let executor = Executor::with_file_system(fs);
    let plan = executor.run(&program, ExecutionOptions::new(false)).unwrap();
    let writes_to_a = plan
        .actions()
        .into_iter()
        .filter(|action| matches!(action, PlannedAction::WriteFile { path, .. } if path == "a.txt"))
        .count();
    assert_eq!(writes_to_a, 1);
    let fs = executor.into_file_system();
    assert_eq!(fs.text("a.txt").unwrap(), "2\n");
    assert_eq!(fs.text("b.txt").unwrap(), "1\n3\n");
}

#[test]
fn apply_starts_a_new_snapshot_scope() {
    let fs = MemFs::with_files(&[("a.txt", "a\nb\nc\n")]);
    let (fs, result) = run(fs, "ld a.txt:0-1\napply\nld a.txt:0-1\n");
    result.unwrap();
    assert_eq!(fs.text("a.txt").unwrap(), "c\n");
}

#[test]
fn incremental_mode_applies_each_modification_sequentially() {
    let fs = MemFs::with_files(&[("a.txt", "a\nb\nc\n")]);
    let (fs, result) = run(fs, "mode incremental\nld a.txt:0-1\nld a.txt:0-1\n");
    result.unwrap();
    assert_eq!(fs.text("a.txt").unwrap(), "c\n");
}

#[test]
fn snapshot_rejects_overlapping_replacements() {
    let fs = MemFs::with_files(&[("a.txt", "a\nb\nc\n")]);
    let (fs, result) = run(fs, "lr a.txt:0-2 \"x\\n\"\nlr a.txt:1-3 \"y\\n\"\n");
    assert!(matches!(
        result,
        Err(SmartEditError::OverlappingDestructiveEdits { first_modification: 0, second_modification: 1, .. })
    ));
    assert_eq!(fs.text("a.txt").unwrap(), "a\nb\nc\n");
}

#[test]
fn snapshot_allows_overlapping_deletes() {
    let fs = MemFs::with_files(&[("a.txt", "a\nb\nc\n")]);
    let (fs, result) = run(fs, "ld a.txt:0-2\nld a.txt:1-3\n");
    result.unwrap();
    assert_eq!(fs.text("a.txt").unwrap(), "");
}

#[test]
fn conflicting_modifications_to_the_same_destination_are_rejected() {
    let fs = MemFs::with_files(&[("a.txt", "a\n"), ("b.txt", "b\n")]);
    let (_fs, result) = run(fs, "r a.txt\nld a.txt:0-1\n");
    assert!(matches!(
        result,
        Err(SmartEditError::ConflictingActionTargets { first_modification: 0, second_modification: 1, .. })
    ));
}

#[test]
fn missing_text_target_is_reported() {
    let fs = MemFs::default();
    let (_fs, result) = run(fs, "ld missing.txt:0-1\n");
    assert!(matches!(result, Err(SmartEditError::MissingFile { path }) if path == "missing.txt"));
}

#[test]
fn removing_nothing_is_reported_with_the_source_description() {
    let fs = MemFs::default();
    let (_fs, result) = run(fs, "r src/*.rs\n");
    match result {
        Err(error @ SmartEditError::NoFilesMatched { .. }) => {
            assert_eq!(error.message(), "no files matched glob `*.rs` under src");
        }
        other => panic!("unexpected result: {other:?}"),
    }
}

#[test]
fn range_beyond_the_file_is_reported() {
    let fs = MemFs::with_files(&[("a.txt", "a\n")]);
    let (_fs, result) = run(fs, "ld a.txt:0-5\n");
    assert!(matches!(
        result,
        Err(SmartEditError::RangeOutOfBounds { start: 0, end: 5, len: 1, .. })
    ));
}

#[test]
fn empty_literal_pattern_is_refused() {
    let fs = MemFs::with_files(&[("a.txt", "a\n")]);
    let (_fs, result) = run(fs, "tr a.txt \"\" \"x\"\n");
    assert!(matches!(result, Err(SmartEditError::EmptyTextPattern)));
}

#[test]
fn invalid_regex_is_refused() {
    let fs = MemFs::with_files(&[("a.txt", "a\n")]);
    let (_fs, result) = run(fs, "ldm a.txt r\"(\"\n");
    assert!(matches!(result, Err(SmartEditError::InvalidRegexPattern { pattern, .. }) if pattern == "("));
}

#[test]
fn insertion_inside_a_deleted_range_is_refused() {
    let fs = MemFs::with_files(&[("a.txt", "a\nb\nc\n")]);
    let (_fs, result) = run(fs, "ld a.txt:0-3\nli a.txt:1 \"x\\n\"\n");
    assert!(matches!(result, Err(SmartEditError::InsertionPointInsideDeletedRange { .. })));
}

fn evaluate_modifications(
    fs: MemFs,
    modifications: Vec<Modification>,
) -> Result<smartedit::plan::EvaluationPlan, SmartEditError> {
    let executor = Executor::with_file_system(fs);
    executor.evaluate(&EditProgram::from_modifications(modifications))
}

fn execute_modifications(fs: MemFs, modifications: Vec<Modification>) -> (MemFs, Result<(), SmartEditError>) {
    let executor = Executor::with_file_system(fs);
    let result = executor.execute(&EditProgram::from_modifications(modifications));
    (executor.into_file_system(), result)
}

#[test]
fn creates_directories_and_files_recursively() {
    let (fs, result) = execute_modifications(
        MemFs::default(),
        vec![
            GenericModification::CreateDirectory { path: "a/b/c".to_owned(), span: None }.into(),
            GenericModification::CreateFile {
                path: "nested/tree/file.txt".to_owned(),
                content: "hello".to_owned(),
                overwrite: false,
                span: None,
            }
            .into(),
        ],
    );
    result.unwrap();
    assert!(fs.is_dir("a/b/c").unwrap());
    assert_eq!(fs.text("nested/tree/file.txt").as_deref(), Some("hello"));
}

#[test]
fn root_level_relative_write_has_no_empty_directory_action() {
    let plan = evaluate_modifications(
        MemFs::default(),
        vec![
            GenericModification::CreateFile {
                path: "plan.txt".to_owned(),
                content: "content".to_owned(),
                overwrite: false,
                span: None,
            }
            .into(),
        ],
    )
    .unwrap();
    let actions = plan.actions();
    assert_eq!(actions.len(), 1);
    assert!(matches!(actions[0], PlannedAction::WriteFile { path, .. } if path == "plan.txt"));
}

#[test]
fn moving_with_overwrite_replaces_an_existing_destination() {
    let fs = MemFs::with_files(&[("source/item.txt", "new"), ("destination/item.txt", "old")]);
    let (fs, result) = execute_modifications(
        fs,
        vec![
            GenericModification::MoveFiles {
                sources: PathSpec::exact_file("source/item.txt".to_owned()),
                destination_dir: PathDestination::directory("destination".to_owned()),
                create_destination_dir: true,
                overwrite: true,
                span: None,
            }
            .into(),
        ],
    );
    result.unwrap();
    assert_eq!(fs.text("source/item.txt"), None);
    assert_eq!(fs.text("destination/item.txt").as_deref(), Some("new"));
}

#[test]
fn snapshot_line_moves_into_same_destination_preserve_modification_order() {
    let fs = MemFs::with_files(&[("a.txt", "a0\na1\n"), ("b.txt", "b0\nb1\n"), ("dest.txt", "d0\nd1\n")]);
    let (fs, result) = run(fs, "lm a.txt:0-2 dest.txt:1\nlm b.txt:0-2 dest.txt:1\n");
    result.unwrap();
    assert_eq!(fs.text("a.txt").as_deref(), Some(""));
    assert_eq!(fs.text("b.txt").as_deref(), Some(""));
    assert_eq!(fs.text("dest.txt").as_deref(), Some("d0\na0\na1\nb0\nb1\nd1\n"));
}

#[test]
fn file_and_descendant_directory_targets_conflict_in_either_order() {
    for file_first in [false, true] {
        let file: Modification = GenericModification::CreateFile {
            path: "a".to_owned(),
            content: "file".to_owned(),
            overwrite: true,
            span: None,
        }
        .into();
        let descendant: Modification =
            GenericModification::CreateDirectory { path: "a/b".to_owned(), span: None }.into();
        let modifications = if file_first { vec![file, descendant] } else { vec![descendant, file] };
        let error = evaluate_modifications(MemFs::default(), modifications).unwrap_err();
        assert!(matches!(error, SmartEditError::ConflictingActionTargets { .. }));
    }
}

#[test]
fn snapshot_rejects_moving_the_same_source_to_two_destinations() {
    let fs = MemFs::with_files(&[("source.txt", "line\nkeep\n"), ("a.txt", ""), ("b.txt", "")]);
    let program = parse_edit_program("lm source.txt:0-1 a.txt:0\nlm source.txt:0-1 b.txt:0\n").unwrap();
    let executor = Executor::with_file_system(fs);
    assert!(matches!(
        executor.evaluate(&program).unwrap_err(),
        SmartEditError::OverlappingDestructiveEdits { .. }
    ));
}

#[test]
fn snapshot_rejects_a_delete_overlapping_a_replacement() {
    let fs = MemFs::with_files(&[("data.txt", "zero\none\ntwo\n")]);
    let program = parse_edit_program("ld data.txt:0-2\nlr data.txt:1-2 \"replacement\\n\"\n").unwrap();
    let executor = Executor::with_file_system(fs);
    assert!(matches!(
        executor.evaluate(&program).unwrap_err(),
        SmartEditError::OverlappingDestructiveEdits { .. }
    ));
}

#[test]
fn snapshot_allows_overlapping_deletes_and_adjacent_replacements() {
    let fs = MemFs::with_files(&[("data.txt", "zero\none\ntwo\nthree\n")]);
    let (fs, result) = run(fs, "ld data.txt:0-2\nld data.txt:1-3\nlr data.txt:3-4 \"last\\n\"\n");
    result.unwrap();
    assert_eq!(fs.text("data.txt").as_deref(), Some("last\n"));
}

#[test]
fn creating_an_empty_missing_text_destination_still_creates_the_file() {
    let (fs, result) = execute_modifications(
        MemFs::default(),
        vec![
            GenericModification::InsertLines {
                target: FileInsertion::new("empty.txt".to_owned(), 0),
                content: String::new(),
                create_destination_if_missing: true,
                span: None,
            }
            .into(),
        ],
    );
    result.unwrap();
    assert_eq!(fs.text("empty.txt").as_deref(), Some(""));
}

#[test]
fn create_directory_and_overwrite_file_validate_existing_target_kind() {
    let fs = MemFs::with_files(&[("file", "file")]);
    fs.create_dir_all("directory").unwrap();
    let directory_error = evaluate_modifications(
        fs,
        vec![GenericModification::CreateDirectory { path: "file".to_owned(), span: None }.into()],
    )
    .unwrap_err();
    assert!(matches!(
        directory_error,
        SmartEditError::ExpectedDirectoryButFoundFile { path } if path == "file"
    ));
    let fs = MemFs::with_files(&[("file", "file")]);
    fs.create_dir_all("directory").unwrap();
    let file_error = evaluate_modifications(
        fs,
        vec![
            GenericModification::CreateFile {
                path: "directory".to_owned(),
                content: "file".to_owned(),
                overwrite: true,
                span: None,
            }
            .into(),
        ],
    )
    .unwrap_err();
    assert!(matches!(
        file_error,
        SmartEditError::ExpectedFileButFoundDirectory { path } if path == "directory"
    ));
}

#[test]
fn evaluation_plans_one_entry_per_modification_in_order() {
    let fs = MemFs::with_files(&[("a.txt", "x\n")]);
    let program = parse_edit_program("li a.txt:0 \"first\\n\"\nli a.txt:1 \"second\\n\"\n").unwrap();
    let executor = Executor::with_file_system(fs);
    let plan = executor.evaluate(&program).unwrap();
    let plans = plan.modification_plans();
    assert_eq!(plans.len(), 2);
    assert_eq!(plans[0].modification_index(), 0);
    assert_eq!(plans[1].modification_index(), 1);
}

#[test]
fn snapshot_text_edits_merge_hardlink_content_aliases() {
    let fs = MemFs::with_files(&[("dir/first.txt", "base\n")]);
    fs.hard_link("dir/first.txt", "dir/second.txt");
    let program = EditProgram::from_modifications(vec![
        GenericModification::InsertLines {
            target: FileInsertion::new("dir/first.txt".to_string(), 0),
            content: "first\n".to_string(),
            create_destination_if_missing: false,
            span: None,
        }
        .into(),
        GenericModification::InsertLines {
            target: FileInsertion::new("dir/second.txt".to_string(), 0),
            content: "second\n".to_string(),
            create_destination_if_missing: false,
            span: None,
        }
        .into(),
    ]);
    let executor = Executor::with_file_system(fs);
    let plan = executor.evaluate(&program).unwrap();
    let writes = plan
        .actions()
        .into_iter()
        .filter(|action| matches!(action, PlannedAction::WriteFile { .. }))
        .count();
    assert_eq!(writes, 1);
    executor.execute(&program).unwrap();
    let fs = executor.into_file_system();
    assert_eq!(fs.text("dir/first.txt").unwrap(), "first\nsecond\nbase\n");
    assert_eq!(fs.text("dir/second.txt").unwrap(), "first\nsecond\nbase\n");
}

#[test]
fn independent_writes_to_hardlinks_are_rejected_as_conflicts() {
    let fs = MemFs::with_files(&[("dir/first.txt", "base\n")]);
    fs.hard_link("dir/first.txt", "dir/second.txt");
    let program = EditProgram::from_modifications(vec![
        GenericModification::CreateFile {
            path: "dir/first.txt".to_string(),
            content: "first\n".to_string(),
            overwrite: true,
            span: None,
        }
        .into(),
        GenericModification::CreateFile {
            path: "dir/second.txt".to_string(),
            content: "second\n".to_string(),
            overwrite: true,
            span: None,
        }
        .into(),
    ]);
    let executor = Executor::with_file_system(fs);
    assert!(matches!(
        executor.evaluate(&program).unwrap_err(),
        SmartEditError::ConflictingActionTargets { first_modification: 0, second_modification: 1, .. }
    ));
}

fn target(path: &str, kind: PlannedTargetKind, follows: bool) -> (String, PlannedTargetKind, String, bool) {
    (path.to_string(), kind, path.to_string(), follows)
}

#[test]
fn registering_one_path_twice_is_a_conflict() {
    let fs = MemFs::default();
    let mut targets: PathMap<PlannedTarget> = PathMap::new();
    assert!(register_all(&fs, &mut targets, 0, vec![target("a.txt", PlannedTargetKind::File, false)]).is_ok());
    let r = register_all(&fs, &mut targets, 1, vec![target("a.txt", PlannedTargetKind::File, false)]);
    assert_eq!(
        r,
        Err(SmartEditError::ConflictingActionTargets {
            path: "a.txt".to_string(),
            first_modification: 0,
            second_modification: 1,
        })
    );
}

#[test]
fn registering_a_directory_twice_is_accepted() {
    let fs = MemFs::default();
    let mut targets: PathMap<PlannedTarget> = PathMap::new();
    let dir = target("d", PlannedTargetKind::Directory, false);
    assert!(register_all(&fs, &mut targets, 0, vec![dir.clone()]).is_ok());
    assert!(register_all(&fs, &mut targets, 1, vec![dir]).is_ok());
    assert_eq!(targets.entries.len(), 1);
}

#[test]
fn a_file_above_another_target_is_a_conflict() {
    let fs = MemFs::default();
    let mut targets: PathMap<PlannedTarget> = PathMap::new();
    assert!(register_all(&fs, &mut targets, 0, vec![target("a/b.txt", PlannedTargetKind::File, false)]).is_ok());
    let r = register_all(
        &fs,
        &mut targets,
        2,
        vec![target("c.txt", PlannedTargetKind::File, false), target("a", PlannedTargetKind::File, false)],
    );
    assert_eq!(
        r,
        Err(SmartEditError::ConflictingActionTargets {
            path: "a".to_string(),
            first_modification: 0,
            second_modification: 2,
        })
    );
    assert_eq!(targets.entries.len(), 2);
}

#[test]
fn writes_to_one_content_file_conflict_and_entries_do_not() {
    let fs = MemFs::with_files(&[("x.txt", "x")]);
    fs.hard_link("x.txt", "y.txt");
    let mut targets: PathMap<PlannedTarget> = PathMap::new();
    assert!(register_all(&fs, &mut targets, 0, vec![target("x.txt", PlannedTargetKind::File, true)]).is_ok());
    assert!(register_all(&fs, &mut targets, 1, vec![target("y.txt", PlannedTargetKind::File, false)]).is_ok());
    let r = register_all(&fs, &mut targets, 2, vec![target("y.txt", PlannedTargetKind::File, true)]);
    assert!(r.is_err());
    let fresh = MemFs::with_files(&[("x.txt", "x")]);
    fresh.hard_link("x.txt", "y.txt");
    let mut targets: PathMap<PlannedTarget> = PathMap::new();
    assert!(register_all(&fresh, &mut targets, 0, vec![target("x.txt", PlannedTargetKind::File, true)]).is_ok());
    let r = register_all(&fresh, &mut targets, 3, vec![target("y.txt", PlannedTargetKind::File, true)]);
    assert_eq!(
        r,
        Err(SmartEditError::ConflictingActionTargets {
            path: "y.txt".to_string(),
            first_modification: 0,
            second_modification: 3,
        })
    );
}
