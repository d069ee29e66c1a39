//! Evaluation of edit programs against a file system, and application of the resulting plans.
//!
//! Evaluation reads the file system (through a snapshot that holds the effects of earlier
//! stages) and plans, for every modification, the file-system actions that realize it. Text
//! modifications of one file within one stage are merged into a single write.
use vstd::prelude::*;

use crate::edit::{
    EditProgram, FileRangeSelection, GenericModification, Modification, PathDestinationKind,
    PathSpec, PathSpecKind, ProgramMode, RangeSet, TextPattern, TextRange,
};
use crate::error::SmartEditError;
use crate::fs::{FileSystem, IoErrorKind, IoFailure};
use crate::fspath::{
    file_name, has_key, join, lookup, parent, path_starts_with, starts_with_path, strip_prefix,
    PathMap,
};
use crate::matchers::{decode_utf8_text, GlobPattern, RegexPattern};
use crate::plan::{flatten_plans, EvaluationPlan, ExecutionOptions, ModificationPlan, PlannedAction};
use crate::paths::with_slashes;
use crate::text::{chars_of, push_all, push_str, str_eq, string_of};
use crate::textedit::{
    extract_ranges, line_bounds, lemma_bounds_increasing, line_count, line_range_error,
    render_text_update, resolve_insertion_offset, resolve_line_ranges, resolved_line_range,
    copy_line_without_terminator, select_line_ranges, find_literal_occurrences, DeletionKind,
    PendingDeletion, PendingInsertion, valid_line_bounds,
};

verus! {

/// Plans and applies edit programs against a file system.
pub struct Executor<F> {
    fs: F,
}

/// Whether `e` is an I/O failure of `operation` on `path`.
pub open spec fn is_io_error(e: SmartEditError, operation: Seq<char>, path: Seq<char>) -> bool {
    e matches SmartEditError::Io { operation: o, path: p, .. } && o@ == operation && p@ == path
}

/// Whether `e` is a failure that applying `action` can give: an I/O failure of the action (or,
/// for a write, of creating its directory), an existing file where a file was to be created,
/// or a missing file that was to be deleted.
pub open spec fn action_failure(action: PlannedAction, e: SmartEditError) -> bool {
    match action {
        PlannedAction::CreateDirectory { path } => is_io_error(e, "create directory"@, path@),
        PlannedAction::WriteFile { path, overwrite, .. } => e is Io || (!overwrite && e
            == SmartEditError::FileAlreadyExists { path }),
        PlannedAction::DeleteFile { path, missing_ok } => (!missing_ok && e
            == SmartEditError::MissingFile { path }) || is_io_error(e, "delete file"@, path@),
        PlannedAction::MoveFile { source, .. } => is_io_error(e, "move file"@, source@),
    }
}

/// The errors that reading the file system during planning can give.
pub open spec fn lookup_error(e: SmartEditError) -> bool {
    ||| e is Io
    ||| e is ExpectedDirectoryButFoundFile
    ||| e is ExpectedFileButFoundDirectory
    ||| e is InvalidGlobPattern
    ||| e is InvalidRegexPattern
    ||| e is MissingFile
    ||| e is InvalidUtf8
}

/// Whether `e` is the I/O failure `failure` of `operation` on `path`.
pub open spec fn is_io_failure(e: SmartEditError, operation: Seq<char>, path: Seq<char>, failure: IoFailure) -> bool {
    e matches SmartEditError::Io { operation: o, path: p, message: m } && o@ == operation && p@ == path
        && m == failure.message
}

/// The parent directory that applying a write creates before writing: the written path's
/// parent, when it has a non-empty one.
pub open spec fn write_parent(action: PlannedAction) -> Option<Seq<char>> {
    match action {
        PlannedAction::WriteFile { path, .. } => match crate::fspath::path_parent(path@) {
            Some(p) => if p.len() > 0 {
                Some(p)
            } else {
                None
            },
            None => None,
        },
        _ => None,
    }
}

/// What applying `action` gives when a file-system call fails with `failure`; `at_parent`
/// tells that the failed call was the creation of a written file's parent directory.
/// - creating the parent directory or a directory: an I/O failure of "create directory";
/// - an overwriting write: an I/O failure of "write file";
/// - a write that must not replace a file: `FileAlreadyExists` when the entry exists, else an
///   I/O failure of "create file";
/// - a delete of a missing file: success where that is allowed, else `MissingFile`; any other
///   failure of a delete is an I/O failure of "delete file";
/// - a move: an I/O failure of "move file" on its source.
pub open spec fn failure_outcome(
    action: PlannedAction,
    at_parent: bool,
    failure: IoFailure,
    r: Result<(), SmartEditError>,
) -> bool {
    match action {
        PlannedAction::CreateDirectory { path } => r matches Err(e) && is_io_failure(
            e,
            "create directory"@,
            path@,
            failure,
        ),
        PlannedAction::WriteFile { path, overwrite, .. } => if at_parent {
            r matches Err(e) && write_parent(action) matches Some(p) && is_io_failure(
                e,
                "create directory"@,
                p,
                failure,
            )
        } else if overwrite {
            r matches Err(e) && is_io_failure(e, "write file"@, path@, failure)
        } else if failure.kind == IoErrorKind::AlreadyExists {
            r == Err::<(), SmartEditError>(SmartEditError::FileAlreadyExists { path })
        } else {
            r matches Err(e) && is_io_failure(e, "create file"@, path@, failure)
        },
        PlannedAction::DeleteFile { path, missing_ok } => if failure.kind == IoErrorKind::NotFound {
            if missing_ok {
                r is Ok
            } else {
                r == Err::<(), SmartEditError>(SmartEditError::MissingFile { path })
            }
        } else {
            r matches Err(e) && is_io_failure(e, "delete file"@, path@, failure)
        },
        PlannedAction::MoveFile { source, .. } => r matches Err(e) && is_io_failure(
            e,
            "move file"@,
            source@,
            failure,
        ),
    }
}

/// What applying `action` gives when a file-system call fails with `failure` (`at_parent`: the
/// failed call created the parent directory of a written file).
pub fn failure_error(action: &PlannedAction, at_parent: bool, failure: IoFailure) -> (r: Result<
    (),
    SmartEditError,
>)
    requires
        at_parent ==> write_parent(*action) is Some,
    ensures
        failure_outcome(*action, at_parent, failure, r),
{
    match action {
        PlannedAction::CreateDirectory { path } => Err(
            io_error("create directory", path.as_str(), failure),
        ),
        PlannedAction::WriteFile { path, overwrite, .. } => {
            if at_parent {
                match parent(path.as_str()) {
                    Some(p) => Err(io_error("create directory", p.as_str(), failure)),
                    None => Err(io_error("create directory", "", failure)),
                }
            } else if *overwrite {
                Err(io_error("write file", path.as_str(), failure))
            } else {
                match failure.kind {
                    IoErrorKind::AlreadyExists => Err(
                        SmartEditError::FileAlreadyExists { path: path.clone() },
                    ),
                    _ => Err(io_error("create file", path.as_str(), failure)),
                }
            }
        },
        PlannedAction::DeleteFile { path, missing_ok } => match failure.kind {
            IoErrorKind::NotFound => if *missing_ok {
                Ok(())
            } else {
                Err(SmartEditError::MissingFile { path: path.clone() })
            },
            _ => Err(io_error("delete file", path.as_str(), failure)),
        },
        PlannedAction::MoveFile { source, .. } => Err(
            io_error("move file", source.as_str(), failure),
        ),
    }
}

/// A call to the file system, by its arguments; a write's bytes are the action's.
pub enum FsRequest {
    CreateDirAll(Seq<char>),
    WriteBytes(Seq<char>),
    CreateNewBytes(Seq<char>),
    RemoveFile(Seq<char>),
    MoveFile(Seq<char>, Seq<char>, bool),
}

/// The calls that applying `action` makes, in order: a directory is created with
/// `create_dir_all`; a write first creates its parent directory (where it has a non-empty one)
/// and then writes with `write_bytes` when it may overwrite, else with `create_new_bytes`; a
/// delete removes the file; a move moves it.
pub open spec fn action_requests(action: PlannedAction) -> Seq<FsRequest> {
    match action {
        PlannedAction::CreateDirectory { path } => seq![FsRequest::CreateDirAll(path@)],
        PlannedAction::WriteFile { path, overwrite, .. } => {
            let write = if overwrite {
                FsRequest::WriteBytes(path@)
            } else {
                FsRequest::CreateNewBytes(path@)
            };
            match write_parent(action) {
                Some(p) => seq![FsRequest::CreateDirAll(p), write],
                None => seq![write],
            }
        },
        PlannedAction::DeleteFile { path, .. } => seq![FsRequest::RemoveFile(path@)],
        PlannedAction::MoveFile { source, destination, overwrite } => seq![
            FsRequest::MoveFile(source@, destination@, overwrite),
        ],
    }
}

/// One call to the file system, as the executor makes it.
pub enum FsCall {
    CreateDirAll { path: String },
    WriteBytes { path: String },
    CreateNewBytes { path: String },
    RemoveFile { path: String },
    MoveFile { source: String, destination: String, overwrite: bool },
}

impl View for FsCall {
    type V = FsRequest;

    open spec fn view(&self) -> FsRequest {
        match self {
            FsCall::CreateDirAll { path } => FsRequest::CreateDirAll(path@),
            FsCall::WriteBytes { path } => FsRequest::WriteBytes(path@),
            FsCall::CreateNewBytes { path } => FsRequest::CreateNewBytes(path@),
            FsCall::RemoveFile { path } => FsRequest::RemoveFile(path@),
            FsCall::MoveFile { source, destination, overwrite } => FsRequest::MoveFile(
                source@,
                destination@,
                *overwrite,
            ),
        }
    }
}

/// The calls that applying `action` makes, in order.
pub fn action_calls(action: &PlannedAction) -> (calls: Vec<FsCall>)
    ensures
        calls@.len() == action_requests(*action).len(),
        forall|k: int| 0 <= k < calls@.len() ==> (#[trigger] calls@[k])@ == action_requests(*action)[k],
{
    let mut calls: Vec<FsCall> = Vec::new();
    match action {
        PlannedAction::CreateDirectory { path } => {
            calls.push(FsCall::CreateDirAll { path: path.clone() });
        },
        PlannedAction::WriteFile { path, overwrite, .. } => {
            match parent(path.as_str()) {
                Some(p) => {
                    if !p.as_str().is_empty() {
                        calls.push(FsCall::CreateDirAll { path: p });
                    }
                },
                None => {},
            }
            if *overwrite {
                calls.push(FsCall::WriteBytes { path: path.clone() });
            } else {
                calls.push(FsCall::CreateNewBytes { path: path.clone() });
            }
        },
        PlannedAction::DeleteFile { path, .. } => {
            calls.push(FsCall::RemoveFile { path: path.clone() });
        },
        PlannedAction::MoveFile { source, destination, overwrite } => {
            calls.push(
                FsCall::MoveFile {
                    source: source.clone(),
                    destination: destination.clone(),
                    overwrite: *overwrite,
                },
            );
        },
    }
    calls
}

/// Whether `r` is what applying `action` gives when the file system answers its calls (see
/// `action_requests`) with `answers`: every call answered is made in order, the first failure
/// stops the action and `failure_outcome` gives the result, and without a failure every call
/// is made and the action succeeds.
pub open spec fn applied(
    action: PlannedAction,
    answers: Seq<Result<(), IoFailure>>,
    r: Result<(), SmartEditError>,
) -> bool {
    let n = action_requests(action).len();
    &&& answers.len() <= n
    &&& forall|j: int| 0 <= j < answers.len() - 1 ==> #[trigger] answers[j] is Ok
    &&& match answers.last() {
        Err(failure) => answers.len() > 0 && failure_outcome(
            action,
            answers.len() == 1 && n == 2,
            failure,
            r,
        ),
        Ok(()) => answers.len() == n && r is Ok,
    }
}

fn io_error(operation: &str, path: &str, failure: IoFailure) -> (e: SmartEditError)
    ensures
        is_io_failure(e, operation@, path@, failure),
        is_io_error(e, operation@, path@),
{
    SmartEditError::Io {
        operation: operation.to_string(),
        path: path.to_string(),
        message: failure.message,
    }
}

// ---------------------------------------------------------------------------------------------
// The snapshot: what earlier stages did to the file system
// ---------------------------------------------------------------------------------------------
/// What the snapshot knows of an entry.
pub enum SnapshotEntry {
    File(Vec<u8>),
    MovedFile(String),
    Directory,
    Missing,
}

/// Whether two snapshot entries hold the same thing.
pub open spec fn same_entry(a: SnapshotEntry, b: SnapshotEntry) -> bool {
    match (a, b) {
        (SnapshotEntry::File(x), SnapshotEntry::File(y)) => x@ == y@,
        (SnapshotEntry::MovedFile(x), SnapshotEntry::MovedFile(y)) => x@ == y@,
        (SnapshotEntry::Directory, SnapshotEntry::Directory) => true,
        (SnapshotEntry::Missing, SnapshotEntry::Missing) => true,
        _ => false,
    }
}

fn copy_entry(e: &SnapshotEntry) -> (c: SnapshotEntry)
    ensures
        same_entry(*e, c),
{
    match e {
        SnapshotEntry::File(bytes) => SnapshotEntry::File(bytes.clone()),
        SnapshotEntry::MovedFile(source) => SnapshotEntry::MovedFile(source.clone()),
        SnapshotEntry::Directory => SnapshotEntry::Directory,
        SnapshotEntry::Missing => SnapshotEntry::Missing,
    }
}

/// The entries that planned actions of earlier stages created, replaced or removed, keyed by
/// path identity.
pub struct SnapshotState {
    entries: PathMap<SnapshotEntry>,
}

impl SnapshotState {
    pub closed spec fn wf(&self) -> bool {
        self.entries.wf()
    }

    pub fn new() -> (s: Self)
        ensures
            s.wf(),
    {
        SnapshotState { entries: PathMap::new() }
    }
}

/// `after` is `before` with `key` holding an entry like `value`.
pub open spec fn set_entry(
    before: Seq<(String, SnapshotEntry)>,
    key: Seq<char>,
    value: SnapshotEntry,
    after: Seq<(String, SnapshotEntry)>,
) -> bool {
    &&& has_key(after, key)
    &&& lookup(after, key) matches Some(e) && same_entry(e, value)
    &&& forall|k: Seq<char>|
        k != key ==> (has_key(after, k) <==> has_key(before, k)) && #[trigger] lookup(after, k)
            == lookup(before, k)
}

/// `after` is `before` with directory entries added under identities it did not hold.
pub open spec fn directories_added(
    before: Seq<(String, SnapshotEntry)>,
    after: Seq<(String, SnapshotEntry)>,
) -> bool {
    forall|k: Seq<char>|
        #![trigger lookup(after, k)]
        #![trigger has_key(after, k)]
        (has_key(before, k) ==> has_key(after, k) && lookup(after, k) == lookup(before, k)) && (
        has_key(after, k) && !has_key(before, k) ==> lookup(after, k) == Some(
            SnapshotEntry::Directory,
        ))
}

/// What recording `action` does to the snapshot's entries, up to the identities that the file
/// system gives its paths: a created directory or a written file (whose missing ancestors are
/// added as directories first) takes its entry; a deleted file becomes missing; a moved file's
/// entry (or, where the snapshot has none, a reference to the source) moves to the destination
/// (after the destination's missing ancestors are added) and the source becomes missing.
pub open spec fn recorded(
    before: Seq<(String, SnapshotEntry)>,
    action: PlannedAction,
    after: Seq<(String, SnapshotEntry)>,
) -> bool {
    match action {
        PlannedAction::CreateDirectory { .. } => exists|middle: Seq<(String, SnapshotEntry)>, id: Seq<char>|
            #[trigger] directories_added(before, middle) && #[trigger] set_entry(
                middle,
                id,
                SnapshotEntry::Directory,
                after,
            ),
        PlannedAction::WriteFile { bytes, .. } => exists|middle: Seq<(String, SnapshotEntry)>, id: Seq<char>|
            #[trigger] directories_added(before, middle) && #[trigger] set_entry(
                middle,
                id,
                SnapshotEntry::File(bytes),
                after,
            ),
        PlannedAction::DeleteFile { .. } => exists|id: Seq<char>|
            #[trigger] set_entry(before, id, SnapshotEntry::Missing, after),
        PlannedAction::MoveFile { source, .. } => exists|
            middle: Seq<(String, SnapshotEntry)>,
            moved: Seq<(String, SnapshotEntry)>,
            source_id: Seq<char>,
            destination_id: Seq<char>,
            entry: SnapshotEntry,
        |
            #[trigger] directories_added(before, middle) && (match lookup(middle, source_id) {
                Some(e) => same_entry(entry, e),
                None => entry matches SnapshotEntry::MovedFile(s) && s@ == source@,
            }) && #[trigger] set_entry(middle, destination_id, entry, moved) && #[trigger] set_entry(
                moved,
                source_id,
                SnapshotEntry::Missing,
                after,
            ),
    }
}

/// The actions of several lists, list after list.
pub open spec fn flatten_lists(lists: Seq<Vec<PlannedAction>>) -> Seq<PlannedAction>
    decreases lists.len(),
{
    if lists.len() == 0 {
        Seq::empty()
    } else {
        flatten_lists(lists.drop_last()) + lists.last()@
    }
}

/// What recording `actions` in order does to the snapshot's entries.
pub open spec fn records(
    before: Seq<(String, SnapshotEntry)>,
    actions: Seq<PlannedAction>,
    after: Seq<(String, SnapshotEntry)>,
) -> bool
    decreases actions.len(),
{
    if actions.len() == 0 {
        after == before
    } else {
        exists|middle: Seq<(String, SnapshotEntry)>|
            records(before, actions.drop_last(), middle) && #[trigger] recorded(
                middle,
                actions.last(),
                after,
            )
    }
}

proof fn lemma_records_push(
    before: Seq<(String, SnapshotEntry)>,
    actions: Seq<PlannedAction>,
    middle: Seq<(String, SnapshotEntry)>,
    action: PlannedAction,
    after: Seq<(String, SnapshotEntry)>,
)
    requires
        records(before, actions, middle),
        recorded(middle, action, after),
    ensures
        records(before, actions.push(action), after),
{
    let pushed = actions.push(action);
    assert(pushed.drop_last() =~= actions);
    assert(pushed.last() == action);
    assert(recorded(middle, pushed.last(), after));
}


/// What a planned action does to the file system, recorded in the snapshot.
fn record_action<F: FileSystem>(fs: &F, snapshot: &mut SnapshotState, action: &PlannedAction)
    requires
        old(snapshot).wf(),
    ensures
        final(snapshot).wf(),
        recorded(old(snapshot).entries.entries@, *action, final(snapshot).entries.entries@),
{
    match action {
        PlannedAction::CreateDirectory { path } => {
            ensure_parent_directories(fs, snapshot, path.as_str());
            let ghost middle = snapshot.entries.entries@;
            let id = fs.entry_path_identity(path.as_str());
            let ghost key = id@;
            snapshot.entries.set(id, SnapshotEntry::Directory);
            assert(set_entry(middle, key, SnapshotEntry::Directory, snapshot.entries.entries@));
        },
        PlannedAction::WriteFile { path, bytes, .. } => {
            ensure_parent_directories(fs, snapshot, path.as_str());
            let ghost middle = snapshot.entries.entries@;
            let id = fs.content_path_identity(path.as_str());
            let ghost key = id@;
            snapshot.entries.set(id, SnapshotEntry::File(bytes.clone()));
            assert(set_entry(middle, key, SnapshotEntry::File(*bytes), snapshot.entries.entries@));
        },
        PlannedAction::DeleteFile { path, .. } => {
            let id = fs.entry_path_identity(path.as_str());
            let ghost key = id@;
            snapshot.entries.set(id, SnapshotEntry::Missing);
            assert(set_entry(
                old(snapshot).entries.entries@,
                key,
                SnapshotEntry::Missing,
                snapshot.entries.entries@,
            ));
        },
        PlannedAction::MoveFile { source, destination, .. } => {
            ensure_parent_directories(fs, snapshot, destination.as_str());
            let ghost middle = snapshot.entries.entries@;
            let source_identity = fs.entry_path_identity(source.as_str());
            let entry = match snapshot.entries.get(source_identity.as_str()) {
                Some(e) => copy_entry(e),
                None => SnapshotEntry::MovedFile(source.clone()),
            };
            let ghost moved_entry = entry;
            let destination_identity = fs.entry_path_identity(destination.as_str());
            let ghost dkey = destination_identity@;
            let ghost skey = source_identity@;
            snapshot.entries.set(destination_identity, entry);
            let ghost moved = snapshot.entries.entries@;
            assert(set_entry(middle, dkey, moved_entry, moved));
            snapshot.entries.set(source_identity, SnapshotEntry::Missing);
            assert(set_entry(moved, skey, SnapshotEntry::Missing, snapshot.entries.entries@));
        },
    }
}


/// Records every missing ancestor directory of `path` as a directory.
fn ensure_parent_directories<F: FileSystem>(fs: &F, snapshot: &mut SnapshotState, path: &str)
    requires
        old(snapshot).wf(),
    ensures
        final(snapshot).wf(),
        (match crate::fspath::path_parent(path@) {
            Some(p) => p.len() == 0,
            None => true,
        }) ==> final(snapshot).entries.entries@ == old(snapshot).entries.entries@,
        directories_added(old(snapshot).entries.entries@, final(snapshot).entries.entries@),
{
    let mut current = parent(path);
    let ghost trivial = match crate::fspath::path_parent(path@) {
        Some(p) => p.len() == 0,
        None => true,
    };
    loop
        invariant
            snapshot.wf(),
            directories_added(old(snapshot).entries.entries@, snapshot.entries.entries@),
            trivial ==> snapshot.entries.entries@ == old(snapshot).entries.entries@ && match current {
                Some(p) => p@.len() == 0,
                None => true,
            },
        ensures
            snapshot.wf(),
            directories_added(old(snapshot).entries.entries@, snapshot.entries.entries@),
            trivial ==> snapshot.entries.entries@ == old(snapshot).entries.entries@,
        decreases match current {
            Some(p) => p@.len() + 1,
            None => 0,
        },
    {
        let p = match current {
            Some(p) => p,
            None => break ,
        };
        if p.as_str().is_empty() {
            break ;
        }
        let identity = fs.entry_path_identity(p.as_str());
        if snapshot.entries.position(identity.as_str()).is_none() {
            let ghost before = snapshot.entries.entries@;
            let ghost key = identity@;
            snapshot.entries.set(identity, SnapshotEntry::Directory);
            assert(directories_added(old(snapshot).entries.entries@, snapshot.entries.entries@)) by {
                assert forall|k: Seq<char>|
                    #![trigger lookup(snapshot.entries.entries@, k)]
                    #![trigger has_key(snapshot.entries.entries@, k)]
                    (has_key(old(snapshot).entries.entries@, k) ==> has_key(snapshot.entries.entries@, k)
                        && lookup(snapshot.entries.entries@, k) == lookup(old(snapshot).entries.entries@, k))
                    && (has_key(snapshot.entries.entries@, k) && !has_key(old(snapshot).entries.entries@, k)
                        ==> lookup(snapshot.entries.entries@, k) == Some(SnapshotEntry::Directory)) by {
                    assert(directories_added(old(snapshot).entries.entries@, before));
                    assert(has_key(before, k) == has_key(before, k));
                    assert(lookup(before, k) == lookup(before, k));
                    if k != key {
                        assert(lookup(snapshot.entries.entries@, k) == lookup(before, k));
                    }
                }
            }
        }
        current = parent(p.as_str());
    }
}

/// The snapshot's entry for a path: under its entry identity, or else under its content
/// identity.
fn snapshot_get<'a, F: FileSystem>(fs: &F, snapshot: &'a SnapshotState, path: &str) -> (r: Option<
    &'a SnapshotEntry,
>)
    ensures
        r matches Some(e) ==> exists|i: int|
            0 <= i < snapshot.entries.entries@.len() && snapshot.entries.entries@[i].1 == *e,
{
    let entry_identity = fs.entry_path_identity(path);
    match snapshot.entries.get(entry_identity.as_str()) {
        Some(e) => Some(e),
        None => {
            let content_identity = fs.content_path_identity(path);
            if str_eq(content_identity.as_str(), entry_identity.as_str()) {
                None
            } else {
                snapshot.entries.get(content_identity.as_str())
            }
        },
    }
}

// ---------------------------------------------------------------------------------------------
// Planned targets and their conflicts
// ---------------------------------------------------------------------------------------------
#[derive(Debug, Clone, Copy, PartialEq, Eq, Structural)]
pub enum PlannedTargetKind {
    Directory,
    File,
}

/// A path that some modification's action writes, creates or removes.
pub struct PlannedTarget {
    pub kind: PlannedTargetKind,
    pub modification_index: usize,
    pub path: String,
    /// Whether the target is the contents that a write reaches (through a final symbolic link),
    /// rather than a directory entry.
    pub follows_final_symlink: bool,
}

/// Whether a new target of `kind` at `identity` conflicts with the registered target at
/// `existing_identity`: one of them is a file at or above the other.
pub open spec fn ancestor_conflict(
    existing_identity: Seq<char>,
    existing: PlannedTarget,
    kind: PlannedTargetKind,
    identity: Seq<char>,
) -> bool {
    (existing.kind == PlannedTargetKind::File && path_starts_with(identity, existing_identity)) || (
    kind == PlannedTargetKind::File && path_starts_with(existing_identity, identity))
}

/// Whether a new target conflicts with a registered one: both are written contents and `same`
/// (the file system's answer) says they are the contents of one file, or one of them is a file
/// at or above the other.
pub open spec fn target_conflict(
    existing_identity: Seq<char>,
    existing: PlannedTarget,
    kind: PlannedTargetKind,
    identity: Seq<char>,
    follows_final_symlink: bool,
    same: bool,
) -> bool {
    (follows_final_symlink && existing.follows_final_symlink && same) || ancestor_conflict(
        existing_identity,
        existing,
        kind,
        identity,
    )
}

/// The first registered target, in path order from `k` on, that a new target conflicts with;
/// `same[j]` is whether the new target reaches the contents of registered target `j`.
pub open spec fn first_target_conflict(
    targets: Seq<(String, PlannedTarget)>,
    kind: PlannedTargetKind,
    identity: Seq<char>,
    follows_final_symlink: bool,
    same: Seq<bool>,
    k: int,
) -> Option<int>
    decreases targets.len() - k,
{
    if k < 0 || k >= targets.len() {
        None
    } else if target_conflict(
        targets[k].0@,
        targets[k].1,
        kind,
        identity,
        follows_final_symlink,
        same[k],
    ) {
        Some(k)
    } else {
        first_target_conflict(targets, kind, identity, follows_final_symlink, same, k + 1)
    }
}

/// What registering a target does: a second directory at one identity is accepted as it is;
/// any other target at a registered identity, a write to the contents of a file that another
/// write reaches, or a file at or above another target, is a conflict with the first such
/// target; otherwise the target is registered.
pub open spec fn register_outcome(
    targets: Seq<(String, PlannedTarget)>,
    modification_index: usize,
    path: Seq<char>,
    kind: PlannedTargetKind,
    identity: Seq<char>,
    follows_final_symlink: bool,
    same: Seq<bool>,
) -> Option<(usize, usize)> {
    if has_key(targets, identity) {
        let i = choose|i: int| 0 <= i < targets.len() && #[trigger] targets[i].0@ == identity;
        if targets[i].1.kind == PlannedTargetKind::Directory && kind == PlannedTargetKind::Directory {
            None
        } else {
            Some((targets[i].1.modification_index, modification_index))
        }
    } else {
        match first_target_conflict(targets, kind, identity, follows_final_symlink, same, 0) {
            Some(k) => Some((targets[k].1.modification_index, modification_index)),
            None => None,
        }
    }
}

proof fn lemma_first_target_conflict(
    targets: Seq<(String, PlannedTarget)>,
    kind: PlannedTargetKind,
    identity: Seq<char>,
    follows_final_symlink: bool,
    same: Seq<bool>,
    i: int,
    k: int,
)
    requires
        0 <= i <= k <= targets.len(),
        forall|j: int|
            0 <= j < k ==> !#[trigger] target_conflict(
                targets[j].0@,
                targets[j].1,
                kind,
                identity,
                follows_final_symlink,
                same[j],
            ),
    ensures
        first_target_conflict(targets, kind, identity, follows_final_symlink, same, i)
            == first_target_conflict(targets, kind, identity, follows_final_symlink, same, k),
    decreases k - i,
{
    if i < k {
        lemma_first_target_conflict(targets, kind, identity, follows_final_symlink, same, i + 1, k);
    }
}

fn ancestor_conflict_exec(
    existing_identity: &String,
    existing: &PlannedTarget,
    kind: PlannedTargetKind,
    identity: &String,
) -> (r: bool)
    ensures
        r == ancestor_conflict(existing_identity@, *existing, kind, identity@),
{
    (existing.kind == PlannedTargetKind::File && starts_with_path(
        identity.as_str(),
        existing_identity.as_str(),
    )) || (kind == PlannedTargetKind::File && starts_with_path(
        existing_identity.as_str(),
        identity.as_str(),
    ))
}

/// Whether two paths reach the contents of one file; a missing path reaches none. Any other
/// failure of the file system is an I/O failure of "compare file identity" on `right`.
pub fn same_content_file<F: FileSystem>(fs: &F, left: &str, right: &str) -> (r: Result<
    bool,
    SmartEditError,
>)
    ensures
        r matches Err(e) ==> is_io_error(e, "compare file identity"@, right@),
{
    match fs.same_content_file(left, right) {
        Ok(same) => Ok(same),
        Err(failure) => match failure.kind {
            IoErrorKind::NotFound => Ok(false),
            _ => Err(io_error("compare file identity", right, failure)),
        },
    }
}

/// What registering `target` under `identity` did to the registered targets: nothing where it
/// was refused or its identity was registered already; otherwise it was added under
/// `identity`, the targets staying in path order.
pub open spec fn registered_one(
    before: Seq<(String, PlannedTarget)>,
    identity: Seq<char>,
    target: PlannedTarget,
    after: Seq<(String, PlannedTarget)>,
    r: Result<(), SmartEditError>,
) -> bool {
    if r is Err || has_key(before, identity) {
        after == before
    } else {
        &&& crate::fspath::keys_ascending(after)
        &&& exists|i: int|
            0 <= i <= before.len() && #[trigger] after[i].0@ == identity && after[i].1 == target
                && after == before.insert(i, after[i])
    }
}

/// Whether `e` is a failure of comparing a new target's contents with a registered target's.
pub open spec fn comparison_failure(targets: Seq<(String, PlannedTarget)>, e: SmartEditError) -> bool {
    exists|j: int|
        0 <= j < targets.len() && is_io_error(e, "compare file identity"@, (#[trigger] targets[j]).1.path@)
}

/// What registering the target `(path, kind, identity, follows_final_symlink)` gives, where
/// `same[j]` is the file system's answer to whether it reaches the contents of registered
/// target `j`: a failed comparison, or the conflict that `register_outcome` reports, or the
/// target registered.
pub open spec fn register_step(
    before: Seq<(String, PlannedTarget)>,
    modification_index: usize,
    path: String,
    kind: PlannedTargetKind,
    identity: Seq<char>,
    follows_final_symlink: bool,
    same: Seq<bool>,
    after: Seq<(String, PlannedTarget)>,
    r: Result<(), SmartEditError>,
) -> bool {
    ||| (r matches Err(e) && comparison_failure(before, e) && after == before)
    ||| match register_outcome(
        before,
        modification_index,
        path@,
        kind,
        identity,
        follows_final_symlink,
        same,
    ) {
        Some((first, second)) => after == before && r == Err::<(), SmartEditError>(
            SmartEditError::ConflictingActionTargets {
                path,
                first_modification: first,
                second_modification: second,
            },
        ),
        None => r is Ok && registered_one(
            before,
            identity,
            PlannedTarget { kind, modification_index, path, follows_final_symlink },
            after,
            r,
        ),
    }
}

/// Registers one target of a modification; a conflict is reported with the modification that
/// registered the conflicting target first. The file system is asked whether two written
/// contents are one file's only for registered targets that are written contents too, in path
/// order, until the first conflict.
pub fn register_target<F: FileSystem>(
    fs: &F,
    targets: &mut PathMap<PlannedTarget>,
    modification_index: usize,
    path: String,
    kind: PlannedTargetKind,
    identity: String,
    follows_final_symlink: bool,
) -> (r: Result<(), SmartEditError>)
    requires
        old(targets).wf(),
    ensures
        final(targets).wf(),
        exists|same: Seq<bool>|
            same.len() == old(targets).entries@.len() && #[trigger] register_step(
                old(targets).entries@,
                modification_index,
                path,
                kind,
                identity@,
                follows_final_symlink,
                same,
                final(targets).entries@,
                r,
            ),
{
    let n = targets.entries.len();
    let ghost none_same = Seq::new(n as nat, |j: int| false);
    match targets.position(identity.as_str()) {
        Some(i) => {
            let existing = &targets.entries[i];
            proof {
                let j = choose|j: int|
                    0 <= j < targets.entries@.len() && #[trigger] targets.entries@[j].0@
                        == identity@;
                if j != i {
                    crate::fspath::lemma_path_lt_irreflexive(identity@);
                    if j < i {
                        assert(crate::fspath::path_lt(
                            targets.entries@[j].0@,
                            targets.entries@[i as int].0@,
                        ));
                    } else {
                        assert(crate::fspath::path_lt(
                            targets.entries@[i as int].0@,
                            targets.entries@[j].0@,
                        ));
                    }
                }
            }
            if existing.1.kind == PlannedTargetKind::Directory && kind
                == PlannedTargetKind::Directory {
                assert(register_step(
                    old(targets).entries@,
                    modification_index,
                    path,
                    kind,
                    identity@,
                    follows_final_symlink,
                    none_same,
                    targets.entries@,
                    Ok(()),
                ));
                return Ok(());
            }
            let r = Err(
                SmartEditError::ConflictingActionTargets {
                    path,
                    first_modification: existing.1.modification_index,
                    second_modification: modification_index,
                },
            );
            assert(register_step(
                old(targets).entries@,
                modification_index,
                path,
                kind,
                identity@,
                follows_final_symlink,
                none_same,
                targets.entries@,
                r,
            ));
            return r;
        },
        None => {},
    }
    let ghost mut same: Seq<bool> = Seq::empty();
    let mut k: usize = 0;
    while k < targets.entries.len()
        invariant
            targets.wf(),
            targets.entries@ == old(targets).entries@,
            n == targets.entries@.len(),
            none_same.len() == n,
            !has_key(targets.entries@, identity@),
            k <= targets.entries@.len(),
            same.len() == k,
            forall|j: int|
                0 <= j < k ==> !#[trigger] target_conflict(
                    targets.entries@[j].0@,
                    targets.entries@[j].1,
                    kind,
                    identity@,
                    follows_final_symlink,
                    same[j],
                ),
        decreases targets.entries.len() - k,
    {
        let existing = &targets.entries[k];
        let mut answer = false;
        if follows_final_symlink && existing.1.follows_final_symlink {
            answer = match same_content_file(fs, path.as_str(), existing.1.path.as_str()) {
                Ok(b) => b,
                Err(e) => {
                    assert(comparison_failure(old(targets).entries@, e)) by {
                        assert(is_io_error(
                            e,
                            "compare file identity"@,
                            old(targets).entries@[k as int].1.path@,
                        ));
                    }
                    assert(register_step(
                        old(targets).entries@,
                        modification_index,
                        path,
                        kind,
                        identity@,
                        follows_final_symlink,
                        none_same,
                        targets.entries@,
                        Err(e),
                    ));
                    return Err(e);
                },
            };
        }
        let ghost before_same = same;
        proof {
            same = same.push(answer);
        }
        let conflict = (follows_final_symlink && existing.1.follows_final_symlink && answer)
            || ancestor_conflict_exec(&existing.0, &existing.1, kind, &identity);
        if conflict {
            let ghost full = same + Seq::new((n - k - 1) as nat, |j: int| false);
            proof {
                assert forall|j: int| 0 <= j < k implies !#[trigger] target_conflict(
                    targets.entries@[j].0@,
                    targets.entries@[j].1,
                    kind,
                    identity@,
                    follows_final_symlink,
                    full[j],
                ) by {
                    assert(full[j] == before_same[j]);
                }
                assert(full[k as int] == answer);
                lemma_first_target_conflict(
                    targets.entries@,
                    kind,
                    identity@,
                    follows_final_symlink,
                    full,
                    0,
                    k as int,
                );
            }
            let r = Err(
                SmartEditError::ConflictingActionTargets {
                    path,
                    first_modification: existing.1.modification_index,
                    second_modification: modification_index,
                },
            );
            assert(register_step(
                old(targets).entries@,
                modification_index,
                path,
                kind,
                identity@,
                follows_final_symlink,
                full,
                targets.entries@,
                r,
            ));
            return r;
        }
        proof {
            assert forall|j: int| 0 <= j < k + 1 implies !#[trigger] target_conflict(
                targets.entries@[j].0@,
                targets.entries@[j].1,
                kind,
                identity@,
                follows_final_symlink,
                same[j],
            ) by {
                if j < k {
                    assert(same[j] == before_same[j]);
                }
            }
        }
        k = k + 1;
    }
    proof {
        lemma_first_target_conflict(
            targets.entries@,
            kind,
            identity@,
            follows_final_symlink,
            same,
            0,
            n as int,
        );
    }
    let ghost before = targets.entries@;
    let target = PlannedTarget { kind, modification_index, path, follows_final_symlink };
    let ghost t = target;
    let idx = targets.insert_new(identity, target);
    proof {
        assert(targets.entries@[idx as int] == before.insert(idx as int, (identity, t))[idx as int]);
        assert(targets.entries@[idx as int].0@ == identity@);
        assert(register_step(
            old(targets).entries@,
            modification_index,
            t.path,
            kind,
            identity@,
            follows_final_symlink,
            same,
            targets.entries@,
            Ok(()),
        ));
    }
    Ok(())
}

/// The paths that an action affects, with the kind of target that each is and whether it is
/// the contents that a write reaches.
pub open spec fn action_target_paths(action: PlannedAction) -> Seq<(Seq<char>, PlannedTargetKind, bool)> {
    match action {
        PlannedAction::CreateDirectory { path } => seq![
            (path@, PlannedTargetKind::Directory, false),
        ],
        PlannedAction::WriteFile { path, .. } => seq![(path@, PlannedTargetKind::File, true)],
        PlannedAction::DeleteFile { path, .. } => seq![(path@, PlannedTargetKind::File, false)],
        PlannedAction::MoveFile { source, destination, .. } => seq![
            (source@, PlannedTargetKind::File, false),
            (destination@, PlannedTargetKind::File, false),
        ],
    }
}

/// The paths that a list of actions affects, in order.
pub open spec fn actions_target_paths(actions: Seq<PlannedAction>) -> Seq<
    (Seq<char>, PlannedTargetKind, bool),
>
    decreases actions.len(),
{
    if actions.len() == 0 {
        Seq::empty()
    } else {
        actions_target_paths(actions.drop_last()) + action_target_paths(actions.last())
    }
}

/// What registering targets in order gives: the first target that cannot be registered (see
/// `register_step`) gives the error, with the targets registered before it; otherwise every
/// target is registered, one after the other. A target is `(path, kind, identity,
/// follows_final_symlink)`.
pub open spec fn registers(
    before: Seq<(String, PlannedTarget)>,
    modification_index: usize,
    list: Seq<(String, PlannedTargetKind, String, bool)>,
    after: Seq<(String, PlannedTarget)>,
    r: Result<(), SmartEditError>,
) -> bool
    decreases list.len(),
{
    if list.len() == 0 {
        after == before && r is Ok
    } else {
        let (path, kind, identity, follows) = list[0];
        exists|same: Seq<bool>, middle: Seq<(String, PlannedTarget)>, step: Result<(), SmartEditError>|
            same.len() == before.len() && #[trigger] register_step(
                before,
                modification_index,
                path,
                kind,
                identity@,
                follows,
                same,
                middle,
                step,
            ) && if step is Ok {
                registers(middle, modification_index, list.drop_first(), after, r)
            } else {
                after == middle && r == step
            }
    }
}

/// Registering targets fails only on a conflict, reported against the modification whose
/// targets were being registered, or on a failed comparison of contents.
pub proof fn lemma_registers_conflict(
    before: Seq<(String, PlannedTarget)>,
    modification_index: usize,
    list: Seq<(String, PlannedTargetKind, String, bool)>,
    after: Seq<(String, PlannedTarget)>,
    r: Result<(), SmartEditError>,
)
    requires
        registers(before, modification_index, list, after, r),
    ensures
        r matches Err(e) ==> (e matches SmartEditError::ConflictingActionTargets {
            second_modification,
            ..
        } && second_modification == modification_index) || e is Io,
    decreases list.len(),
{
    if list.len() > 0 {
        let (path, kind, identity, follows) = list[0];
        let (same, middle, step) = choose|
            same: Seq<bool>,
            middle: Seq<(String, PlannedTarget)>,
            step: Result<(), SmartEditError>,
        |
            same.len() == before.len() && #[trigger] register_step(
                before,
                modification_index,
                path,
                kind,
                identity@,
                follows,
                same,
                middle,
                step,
            ) && if step is Ok {
                registers(middle, modification_index, list.drop_first(), after, r)
            } else {
                after == middle && r == step
            };
        if step is Ok {
            lemma_registers_conflict(middle, modification_index, list.drop_first(), after, r);
        }
    }
}

/// Registers the targets of one modification in order, stopping at the first conflict.
pub fn register_all<F: FileSystem>(
    fs: &F,
    targets: &mut PathMap<PlannedTarget>,
    modification_index: usize,
    list: Vec<(String, PlannedTargetKind, String, bool)>,
) -> (r: Result<(), SmartEditError>)
    requires
        old(targets).wf(),
    ensures
        final(targets).wf(),
        registers(old(targets).entries@, modification_index, list@, final(targets).entries@, r),
{
    let ghost all = list@;
    let count = list.len();
    let mut rest = list;
    let mut k: usize = 0;
    while rest.len() > 0
        invariant
            targets.wf(),
            all == list@,
            count == all.len(),
            k + rest@.len() == all.len(),
            rest@ == all.skip(k as int),
            forall|after: Seq<(String, PlannedTarget)>, r: Result<(), SmartEditError>|
                #[trigger] registers(targets.entries@, modification_index, rest@, after, r)
                    ==> registers(old(targets).entries@, modification_index, all, after, r),
        decreases rest.len(),
    {
        let (path, kind, identity, follows) = rest.remove(0);
        let ghost current = targets.entries@;
        let ghost remaining = rest@;
        let ghost head = (path, kind, identity, follows);
        assert(all.skip(k as int).drop_first() =~= all.skip(k + 1));
        let result = register_target(fs, targets, modification_index, path, kind, identity, follows);
        let ghost same = choose|same: Seq<bool>|
            same.len() == current.len() && #[trigger] register_step(
                current,
                modification_index,
                head.0,
                head.1,
                head.2@,
                head.3,
                same,
                targets.entries@,
                result,
            );
        let ghost l = seq![head] + remaining;
        assert(l[0] == head);
        assert(l.drop_first() =~= remaining);
        assert(l =~= all.skip(k as int));
        match result {
            Ok(()) => {
                proof {
                    assert forall|after: Seq<(String, PlannedTarget)>, r: Result<(), SmartEditError>|
                        #[trigger] registers(targets.entries@, modification_index, remaining, after, r)
                        implies registers(old(targets).entries@, modification_index, all, after, r) by {
                        assert(register_step(
                            current,
                            modification_index,
                            head.0,
                            head.1,
                            head.2@,
                            head.3,
                            same,
                            targets.entries@,
                            Ok(()),
                        ));
                        assert(registers(current, modification_index, l, after, r));
                    }
                }
                k = k + 1;
            },
            Err(e) => {
                proof {
                    assert(register_step(
                        current,
                        modification_index,
                        head.0,
                        head.1,
                        head.2@,
                        head.3,
                        same,
                        targets.entries@,
                        Err(e),
                    ));
                    assert(registers(current, modification_index, l, targets.entries@, Err(e)));
                }
                return Err(e);
            },
        }
    }
    assert(registers(targets.entries@, modification_index, rest@, targets.entries@, Ok(())));
    Ok(())
}

// ---------------------------------------------------------------------------------------------
// Descriptions of file sources
// ---------------------------------------------------------------------------------------------
/// How a path specification is named in a "no files matched" error.
pub open spec fn describe_spec(kind: PathSpecKind) -> Seq<char> {
    match kind {
        PathSpecKind::ExactFile { path } => "exact file "@ + path@,
        PathSpecKind::FilesInDirectory { root, recursive } => if recursive {
            "files under directory "@ + root@
        } else {
            "top-level files in directory "@ + root@
        },
        PathSpecKind::Glob { root, pattern } => "glob `"@ + pattern@ + "` under "@ + root@,
        PathSpecKind::Regex { root, pattern } => "regex `"@ + pattern@ + "` under "@ + root@,
    }
}

pub fn describe_file_source_spec(spec: &PathSpec) -> (r: String)
    ensures
        r@ == describe_spec(spec.kind),
{
    let mut out: Vec<char> = Vec::new();
    match &spec.kind {
        PathSpecKind::ExactFile { path } => {
            push_str(&mut out, "exact file ");
            push_str(&mut out, path.as_str());
        },
        PathSpecKind::FilesInDirectory { root, recursive } => {
            if *recursive {
                push_str(&mut out, "files under directory ");
            } else {
                push_str(&mut out, "top-level files in directory ");
            }
            push_str(&mut out, root.as_str());
        },
        PathSpecKind::Glob { root, pattern } => {
            push_str(&mut out, "glob `");
            push_str(&mut out, pattern.as_str());
            push_str(&mut out, "` under ");
            push_str(&mut out, root.as_str());
        },
        PathSpecKind::Regex { root, pattern } => {
            push_str(&mut out, "regex `");
            push_str(&mut out, pattern.as_str());
            push_str(&mut out, "` under ");
            push_str(&mut out, root.as_str());
        },
    }
    proof {
        assert(out@ =~= describe_spec(spec.kind));
    }
    string_of(&out)
}

// ---------------------------------------------------------------------------------------------
// Matching files
// ---------------------------------------------------------------------------------------------
/// A file that a path specification selects, and its path relative to the specification's
/// root (for an exact file, its name).
pub struct ResolvedFileMatch {
    pub path: String,
    pub relative_path: String,
}

/// The actions that delete the matched files, in order; no match at all is `NoFilesMatched`
/// (with `description` of the selection) unless that is allowed.
pub fn delete_actions(
    matches: Vec<ResolvedFileMatch>,
    missing_matches_ok: bool,
    description: String,
) -> (r: Result<Vec<PlannedAction>, SmartEditError>)
    ensures
        matches@.len() == 0 && !missing_matches_ok ==> r == Err::<Vec<PlannedAction>, SmartEditError>(
            SmartEditError::NoFilesMatched { description },
        ),
        matches@.len() > 0 || missing_matches_ok ==> (r matches Ok(v) && v@.len() == matches@.len()
            && forall|k: int|
            0 <= k < v@.len() ==> #[trigger] v@[k] == (PlannedAction::DeleteFile {
                path: matches@[k].path,
                missing_ok: false,
            })),
{
    if matches.len() == 0 && !missing_matches_ok {
        return Err(SmartEditError::NoFilesMatched { description });
    }
    let mut out: Vec<PlannedAction> = Vec::new();
    let mut k: usize = 0;
    while k < matches.len()
        invariant
            k <= matches@.len(),
            out@.len() == k,
            forall|j: int|
                0 <= j < k ==> #[trigger] out@[j] == (PlannedAction::DeleteFile {
                    path: matches@[j].path,
                    missing_ok: false,
                }),
        decreases matches.len() - k,
    {
        out.push(PlannedAction::DeleteFile { path: matches[k].path.clone(), missing_ok: false });
        k = k + 1;
    }
    Ok(out)
}

/// Whether a file may be created at a path, from what the snapshot says of it: a directory
/// there is refused, and so is a file unless it may be overwritten.
pub fn create_file_refusal(path: &String, overwrite: bool, exists: bool, is_dir: bool) -> (r: Option<
    SmartEditError,
>)
    ensures
        r == if exists && is_dir {
            Some(SmartEditError::ExpectedFileButFoundDirectory { path: *path })
        } else if exists && !overwrite {
            Some(SmartEditError::FileAlreadyExists { path: *path })
        } else {
            None::<SmartEditError>
        },
{
    if exists && is_dir {
        Some(SmartEditError::ExpectedFileButFoundDirectory { path: path.clone() })
    } else if exists && !overwrite {
        Some(SmartEditError::FileAlreadyExists { path: path.clone() })
    } else {
        None
    }
}

/// A listed path below `root`, relative to it; a path that is not below `root` stands for
/// itself.
pub open spec fn relative_to(path: Seq<char>, root: Seq<char>) -> Seq<char> {
    match crate::fspath::path_strip_prefix(path, root) {
        Some(r) => r,
        None => path,
    }
}

fn relative_path_of(path: &str, root: &str) -> (r: String)
    ensures
        r@ == relative_to(path@, root@),
{
    match strip_prefix(path, root) {
        Some(r) => r,
        None => path.to_string(),
    }
}

/// Whether a listed file is selected: by the glob or the regular expression, matched against
/// its path relative to the root written with `/`.
pub enum FileFilter {
    All,
    Glob(GlobPattern),
    Regex(RegexPattern),
}

pub open spec fn filter_accepts(filter: FileFilter, relative: Seq<char>) -> bool {
    match filter {
        FileFilter::All => true,
        FileFilter::Glob(g) => crate::matchers::glob_path_matches(g@, with_slashes(relative)),
        FileFilter::Regex(r) => crate::matchers::regex_matches(r@, with_slashes(relative)),
    }
}

/// The listed files that the filter accepts, in listed order, with their relative paths.
pub open spec fn filtered_files(files: Seq<String>, root: Seq<char>, filter: FileFilter) -> Seq<
    (Seq<char>, Seq<char>),
>
    decreases files.len(),
{
    if files.len() == 0 {
        Seq::empty()
    } else {
        let before = filtered_files(files.drop_last(), root, filter);
        let rel = relative_to(files.last()@, root);
        if filter_accepts(filter, rel) {
            before.push((files.last()@, rel))
        } else {
            before
        }
    }
}

pub open spec fn match_views(ms: Seq<ResolvedFileMatch>) -> Seq<(Seq<char>, Seq<char>)> {
    ms.map_values(|m: ResolvedFileMatch| (m.path@, m.relative_path@))
}

fn slashed(text: &str) -> (r: String)
    ensures
        r@ == with_slashes(text@),
{
    let t = chars_of(text);
    let mut out: Vec<char> = Vec::new();
    let mut i: usize = 0;
    while i < t.len()
        invariant
            i <= t@.len(),
            out@ == with_slashes(t@).subrange(0, i as int),
        decreases t.len() - i,
    {
        if t[i] == '\\' {
            out.push('/');
        } else {
            out.push(t[i]);
        }
        proof {
            assert(out@ =~= with_slashes(t@).subrange(0, i + 1));
        }
        i = i + 1;
    }
    assert(with_slashes(t@).subrange(0, t@.len() as int) =~= with_slashes(t@));
    string_of(&out)
}

fn accepts(filter: &FileFilter, relative: &str) -> (r: bool)
    ensures
        r == filter_accepts(*filter, relative@),
{
    match filter {
        FileFilter::All => true,
        FileFilter::Glob(g) => {
            let text = slashed(relative);
            g.is_match(text.as_str())
        },
        FileFilter::Regex(re) => {
            let text = slashed(relative);
            let chars = chars_of(text.as_str());
            re.is_match(&chars)
        },
    }
}

/// Selects the listed files below `root` that the filter accepts.
pub fn filter_listed_files(files: Vec<String>, root: &str, filter: &FileFilter) -> (r: Vec<
    ResolvedFileMatch,
>)
    ensures
        match_views(r@) == filtered_files(files@, root@, *filter),
{
    let mut out: Vec<ResolvedFileMatch> = Vec::new();
    let mut k: usize = 0;
    while k < files.len()
        invariant
            k <= files@.len(),
            match_views(out@) == filtered_files(files@.subrange(0, k as int), root@, *filter),
        decreases files.len() - k,
    {
        let ghost prefix = files@.subrange(0, k + 1);
        assert(prefix.drop_last() =~= files@.subrange(0, k as int));
        let path = files[k].clone();
        let relative_path = relative_path_of(path.as_str(), root);
        if accepts(filter, relative_path.as_str()) {
            let ghost before = out@;
            out.push(ResolvedFileMatch { path, relative_path });
            proof {
                assert(match_views(out@) =~= match_views(before).push((files@[k as int]@, relative_path@)));
            }
        }
        k = k + 1;
    }
    assert(files@.subrange(0, files@.len() as int) =~= files@);
    out
}

// ---------------------------------------------------------------------------------------------
// Pending text updates
// ---------------------------------------------------------------------------------------------
/// The text edits that a stage makes to one file, resolved against its content at the start
/// of the stage.
pub struct PendingTextFileUpdate {
    pub path: String,
    pub original_existed: bool,
    pub original_content: Vec<char>,
    pub bounds: Vec<usize>,
    pub deletions: Vec<PendingDeletion>,
    pub insertions: Vec<PendingInsertion>,
    pub first_modification_index: usize,
}

impl PendingTextFileUpdate {
    pub open spec fn wf(&self) -> bool {
        valid_line_bounds(self.original_content@, self.bounds@)
    }

    fn placeholder() -> (u: Self)
        ensures
            u.wf(),
    {
        let content: Vec<char> = Vec::new();
        let bounds = line_bounds(&content);
        PendingTextFileUpdate {
            path: String::new(),
            original_existed: false,
            original_content: content,
            bounds,
            deletions: Vec::new(),
            insertions: Vec::new(),
            first_modification_index: 0,
        }
    }
}

/// An update whose first modification is lowered to `modification_index` where that is
/// earlier.
pub open spec fn lowered_first_modification(u: PendingTextFileUpdate, modification_index: usize) -> PendingTextFileUpdate {
    PendingTextFileUpdate {
        first_modification_index: if modification_index < u.first_modification_index {
            modification_index
        } else {
            u.first_modification_index
        },
        ..u
    }
}

/// Whether `u` is a fresh update of the file at `path` for modification `modification_index`:
/// no edits yet, and, where the file did not exist, an empty text at `path` itself, which only
/// a modification that may create the file gets.
pub open spec fn fresh_update(
    u: PendingTextFileUpdate,
    path: Seq<char>,
    create_if_missing: bool,
    modification_index: usize,
) -> bool {
    &&& u.first_modification_index == modification_index
    &&& u.deletions@.len() == 0
    &&& u.insertions@.len() == 0
    &&& !u.original_existed ==> create_if_missing && u.original_content@.len() == 0 && u.path@
        == path
}

/// The fresh pending update of the file at `path`, from what the snapshot holds of it:
/// `existing` is the file's text where the file exists. A file that exists keeps its text and
/// is written back at `resolved_path`; a missing file starts empty at `resolved_path` where it
/// may be created, and is otherwise `MissingFile`.
pub fn fresh_text_update(
    path: &String,
    resolved_path: String,
    existing: Option<Vec<char>>,
    create_if_missing: bool,
    modification_index: usize,
) -> (r: Result<PendingTextFileUpdate, SmartEditError>)
    ensures
        match existing {
            Some(text) => r matches Ok(u) && u.original_existed && u.original_content@ == text@,
            None => if create_if_missing {
                r matches Ok(u) && !u.original_existed && u.original_content@.len() == 0
            } else {
                r == Err::<PendingTextFileUpdate, SmartEditError>(
                    SmartEditError::MissingFile { path: *path },
                )
            },
        },
        r matches Ok(u) ==> {
            &&& u.wf()
            &&& u.path == resolved_path
            &&& u.first_modification_index == modification_index
            &&& u.deletions@.len() == 0
            &&& u.insertions@.len() == 0
        },
{
    let (original_existed, original_content) = match existing {
        Some(text) => (true, text),
        None => {
            if !create_if_missing {
                return Err(SmartEditError::MissingFile { path: path.clone() });
            }
            (false, Vec::new())
        },
    };
    let bounds = line_bounds(&original_content);
    Ok(
        PendingTextFileUpdate {
            path: resolved_path,
            original_existed,
            original_content,
            bounds,
            deletions: Vec::new(),
            insertions: Vec::new(),
            first_modification_index: modification_index,
        },
    )
}

/// Whether `action` writes the file of the pending update `u`: its text rendered from the
/// original content with the update's deletions and insertions (see `render_text_update`),
/// at the update's path, overwriting only a file that existed.
pub open spec fn update_write(u: PendingTextFileUpdate, action: PlannedAction) -> bool {
    action matches PlannedAction::WriteFile { path, bytes, overwrite } && path == u.path
        && overwrite == u.original_existed && exists|perm: Seq<usize>|
        #[trigger] crate::textedit::sorts_insertions(u.insertions@, perm) && bytes@
            == vstd::utf8::encode_utf8(
            crate::textedit::render_edits(
                u.original_content@,
                crate::textedit::deletion_mask_spec(u.deletions@, u.original_content@.len() as int),
                crate::textedit::insertion_pairs(u.insertions@, perm),
                0,
            ),
        )
}

/// The first position from `k` on where `same` holds.
pub open spec fn first_same(same: Seq<bool>, k: int) -> Option<int>
    decreases same.len() - k,
{
    if k < 0 || k >= same.len() {
        None
    } else if same[k] {
        Some(k)
    } else {
        first_same(same, k + 1)
    }
}

proof fn lemma_first_same(same: Seq<bool>, i: int, k: int)
    requires
        0 <= i <= k <= same.len(),
        forall|j: int| 0 <= j < k ==> !#[trigger] same[j],
    ensures
        first_same(same, i) == first_same(same, k),
    decreases k - i,
{
    if i < k {
        lemma_first_same(same, i + 1, k);
    }
}

/// Whether the pending updates `after` come from `before` by placing the file at `path`
/// (content identity `identity`) at position `i`; `same[j]` is the file system's answer to
/// whether `path` reaches the contents of pending update `j`'s file. The first update that it
/// reaches is reused, else one registered under `identity`, with the first modification
/// lowered to `modification_index`; else a fresh update of `path` is added under `identity`.
pub open spec fn text_update_placed(
    before: Seq<(String, PendingTextFileUpdate)>,
    after: Seq<(String, PendingTextFileUpdate)>,
    identity: Seq<char>,
    same: Seq<bool>,
    path: Seq<char>,
    create_if_missing: bool,
    modification_index: usize,
    i: usize,
) -> bool {
    let reused = after == before.update(
        i as int,
        (before[i as int].0, lowered_first_modification(before[i as int].1, modification_index)),
    );
    match first_same(same, 0) {
        Some(j) => i == j && reused,
        None => if has_key(before, identity) {
            i < before.len() && before[i as int].0@ == identity && reused
        } else {
            &&& i <= before.len()
            &&& after == before.insert(i as int, after[i as int])
            &&& after[i as int].0@ == identity
            &&& fresh_update(after[i as int].1, path, create_if_missing, modification_index)
        },
    }
}

/// Whether `after` comes from `before` by placing the file at `path` at position `i`, as
/// `text_update_placed` says for some answers of the file system.
#[verifier::opaque]
pub open spec fn text_update_placed_for(
    before: Seq<(String, PendingTextFileUpdate)>,
    after: Seq<(String, PendingTextFileUpdate)>,
    identity: Seq<char>,
    path: Seq<char>,
    create_if_missing: bool,
    modification_index: usize,
    i: usize,
) -> bool {
    exists|same: Seq<bool>|
        same.len() == before.len() && #[trigger] text_update_placed(
            before,
            after,
            identity,
            same,
            path,
            create_if_missing,
            modification_index,
            i,
        )
}

/// The pending updates of one stage, keyed by the content identity of their files.
pub struct PendingTextUpdates {
    files: PathMap<PendingTextFileUpdate>,
}

impl PendingTextUpdates {
    pub closed spec fn wf(&self) -> bool {
        &&& self.files.wf()
        &&& forall|i: int|
            0 <= i < self.files.entries@.len() ==> (#[trigger] self.files.entries@[i]).1.wf()
    }

    pub closed spec fn count(&self) -> nat {
        self.files.entries@.len()
    }

    fn new() -> (p: Self)
        ensures
            p.wf(),
            p.count() == 0,
    {
        PendingTextUpdates { files: PathMap::new() }
    }

    /// Takes out the update at position `i`, leaving a placeholder.
    fn take(&mut self, i: usize) -> (u: PendingTextFileUpdate)
        requires
            old(self).wf(),
            i < old(self).count(),
        ensures
            final(self).wf(),
            final(self).count() == old(self).count(),
            u.wf(),
            u == old(self).files.entries@[i as int].1,
            final(self).files.entries@.len() == old(self).files.entries@.len(),
            final(self).files.entries@[i as int].0 == old(self).files.entries@[i as int].0,
            forall|j: int|
                0 <= j < old(self).files.entries@.len() && j != i
                    ==> #[trigger] final(self).files.entries@[j] == old(self).files.entries@[j],
    {
        let u = self.files.replace_at(i, PendingTextFileUpdate::placeholder());
        proof {
            assert forall|j: int| 0 <= j < self.files.entries@.len() implies (
            #[trigger] self.files.entries@[j]).1.wf() by {
                if j != i {
                    assert(self.files.entries@[j] == old(self).files.entries@[j]);
                }
            }
            assert(old(self).files.entries@[i as int].1.wf());
        }
        u
    }

    /// Puts an update back at position `i`.
    fn put(&mut self, i: usize, u: PendingTextFileUpdate)
        requires
            old(self).wf(),
            i < old(self).count(),
            u.wf(),
        ensures
            final(self).wf(),
            final(self).count() == old(self).count(),
            final(self).files.entries@ == old(self).files.entries@.update(
                i as int,
                (old(self).files.entries@[i as int].0, u),
            ),
    {
        self.files.replace_at(i, u);
        proof {
            assert forall|j: int| 0 <= j < self.files.entries@.len() implies (
            #[trigger] self.files.entries@[j]).1.wf() by {
                if j != i {
                    assert(self.files.entries@[j] == old(self).files.entries@[j]);
                }
            }
        }
    }
}

/// Appends deletions of the given ranges, all of one kind and one modification.
fn push_deletions(
    update: &mut PendingTextFileUpdate,
    ranges: &Vec<TextRange>,
    kind: DeletionKind,
    modification_index: usize,
)
    ensures
        final(update).wf() == old(update).wf(),
        final(update).original_content@ == old(update).original_content@,
        final(update).bounds@ == old(update).bounds@,
        final(update).insertions@ == old(update).insertions@,
        final(update).path == old(update).path,
        final(update).deletions@.len() == old(update).deletions@.len() + ranges@.len(),
        forall|k: int|
            0 <= k < old(update).deletions@.len() ==> final(update).deletions@[k] == old(
                update,
            ).deletions@[k],
        forall|k: int|
            0 <= k < ranges@.len() ==> final(update).deletions@[old(update).deletions@.len() + k]
                == (PendingDeletion { range: ranges@[k], kind, modification_index }),
{
    let mut k: usize = 0;
    let ghost base = update.deletions@;
    while k < ranges.len()
        invariant
            k <= ranges@.len(),
            update.original_content@ == old(update).original_content@,
            update.bounds@ == old(update).bounds@,
            update.insertions@ == old(update).insertions@,
            update.path == old(update).path,
            base == old(update).deletions@,
            update.deletions@.len() == base.len() + k,
            forall|j: int| 0 <= j < base.len() ==> update.deletions@[j] == base[j],
            forall|j: int|
                0 <= j < k ==> update.deletions@[base.len() + j] == (PendingDeletion {
                    range: ranges@[j],
                    kind,
                    modification_index,
                }),
        decreases ranges.len() - k,
    {
        update.deletions.push(PendingDeletion { range: ranges[k], kind, modification_index });
        k = k + 1;
    }
}

fn push_insertion(update: &mut PendingTextFileUpdate, offset: usize, text: Vec<char>, order: usize)
    ensures
        final(update).wf() == old(update).wf(),
        final(update).original_content@ == old(update).original_content@,
        final(update).bounds@ == old(update).bounds@,
        final(update).deletions@ == old(update).deletions@,
        final(update).path == old(update).path,
        final(update).insertions@ == old(update).insertions@.push(
            PendingInsertion { offset, text, order },
        ),
{
    update.insertions.push(PendingInsertion { offset, text, order });
}

/// Resolves line ranges of a file to character ranges that lie within its content.
fn resolve_ranges(update: &PendingTextFileUpdate, ranges: &RangeSet) -> (r: Result<
    Vec<TextRange>,
    SmartEditError,
>)
    requires
        update.wf(),
    ensures
        r matches Ok(v) ==> {
            &&& v@.len() == ranges.ranges@.len()
            &&& forall|k: int|
                0 <= k < v@.len() ==> #[trigger] v@[k] == resolved_line_range(
                    update.bounds@,
                    ranges.ranges@[k],
                )
            &&& forall|k: int|
                0 <= k < v@.len() ==> #[trigger] v@[k].start <= v@[k].end && v@[k].end
                    <= update.original_content@.len()
        },
        r is Ok <==> (forall|k: int|
            0 <= k < ranges.ranges@.len() ==> line_range_error(
                update.path,
                ranges.ranges@,
                line_count(update.bounds@),
                k,
            ).is_none()),
{
    let r = resolve_line_ranges(&update.path, &update.original_content, &update.bounds, ranges);
    proof {
        if r is Ok {
            let v = r->Ok_0;
            assert forall|k: int| 0 <= k < v@.len() implies #[trigger] v@[k].start <= v@[k].end
                && v@[k].end <= update.original_content@.len() by {
                assert(line_range_error(
                    update.path,
                    ranges.ranges@,
                    line_count(update.bounds@),
                    k,
                ).is_none());
                let rg = ranges.ranges@[k];
                lemma_bounds_increasing(update.bounds@, rg.start as int, rg.end as int);
                lemma_bounds_increasing(
                    update.bounds@,
                    rg.end as int,
                    update.bounds@.len() - 1,
                );
            }
        }
    }
    r
}

/// The text replacements that a pattern makes in a content: for a literal, every
/// non-overlapping occurrence from left to right; for a regular expression, every match with
/// the replacement's capture references expanded.
fn resolve_text_replacements(content: &Vec<char>, pattern: &TextPattern, replacement: &String) -> (r: Result<
    Vec<(TextRange, Vec<char>)>,
    SmartEditError,
>)
    ensures
        r matches Ok(v) ==> forall|k: int|
            0 <= k < v@.len() ==> #[trigger] v@[k].0.start <= v@[k].0.end && v@[k].0.end
                <= content@.len() && v@[k].0.span is None,
        match pattern {
            TextPattern::Literal { text, .. } => (r is Err <==> text@.len() == 0) && (r matches Err(
                e,
            ) ==> e == SmartEditError::EmptyTextPattern) && (r matches Ok(v) ==> {
                &&& v@.len() == crate::textedit::occurrences_from(content@, text@, 0).len()
                &&& forall|k: int|
                    0 <= k < v@.len() ==> #[trigger] v@[k].0.start == crate::textedit::occurrences_from(
                        content@,
                        text@,
                        0,
                    )[k] && v@[k].0.end == v@[k].0.start + text@.len() && v@[k].1@
                        == replacement@
            }),
            TextPattern::Regex { pattern: p, .. } => (r is Ok <==> crate::matchers::regex_compiles(
                p@,
            )) && (r matches Err(e) ==> e matches SmartEditError::InvalidRegexPattern {
                pattern: q,
                ..
            } && q == *p) && (r matches Ok(v) ==> {
                let ex = crate::matchers::regex_expansions(p@, content@, replacement@);
                &&& v@.len() == ex.len()
                &&& forall|k: int|
                    0 <= k < v@.len() ==> #[trigger] v@[k].0.start == crate::matchers::char_offset(
                        content@,
                        ex[k].0 as int,
                    ) && v@[k].0.end == crate::matchers::char_offset(content@, ex[k].1 as int)
                        && v@[k].1@ == ex[k].2
            }),
        },
{
    match pattern {
        TextPattern::Literal { text, .. } => {
            let t = chars_of(text.as_str());
            if t.len() == 0 {
                return Err(SmartEditError::EmptyTextPattern);
            }
            let occurrences = find_literal_occurrences(content, &t);
            proof {
                crate::textedit::lemma_occurrences_within(content@, t@, 0);
                assert forall|j: int| 0 <= j < occurrences@.len() implies #[trigger] occurrences@[j].end
                    <= content@.len() by {
                    assert(occurrences@[j].start == crate::textedit::occurrences_from(content@, t@, 0)[j]);
                }
            }
            let replacement_chars = chars_of(replacement.as_str());
            let mut out: Vec<(TextRange, Vec<char>)> = Vec::new();
            let mut k: usize = 0;
            let ghost occ = crate::textedit::occurrences_from(content@, t@, 0);
            assert forall|j: int| 0 <= j < occurrences@.len() implies (
            #[trigger] occurrences@[j]).span is None by {
                assert(occurrences@[j].start == occ[j]);
            }
            while k < occurrences.len()
                invariant
                    k <= occurrences@.len(),
                    out@.len() == k,
                    replacement_chars@ == replacement@,
                    occurrences@.len() == occ.len(),
                    occ == crate::textedit::occurrences_from(content@, t@, 0),
                    t@ == text@,
                    forall|j: int|
                        0 <= j < occurrences@.len() ==> #[trigger] occurrences@[j].start == occ[j]
                            && occurrences@[j].end == occurrences@[j].start + t@.len(),
                    forall|j: int|
                        0 <= j < occurrences@.len() ==> #[trigger] occurrences@[j].end <= content@.len(),
                    forall|j: int|
                        0 <= j < occurrences@.len() ==> (#[trigger] occurrences@[j]).span is None,
                    forall|j: int|
                        0 <= j < k ==> #[trigger] out@[j].0.start == occ[j] && out@[j].0.end
                            == out@[j].0.start + t@.len() && out@[j].1@ == replacement@
                            && out@[j].0.start <= out@[j].0.end && out@[j].0.end <= content@.len()
                            && out@[j].0.span is None,
                decreases occurrences.len() - k,
            {
                out.push((occurrences[k], replacement_chars.clone()));
                k = k + 1;
            }
            Ok(out)
        },
        TextPattern::Regex { pattern: p, .. } => {
            let regex = match RegexPattern::compile(p.as_str()) {
                Ok(regex) => regex,
                Err(message) => {
                    return Err(SmartEditError::InvalidRegexPattern { pattern: p.clone(), message });
                },
            };
            let haystack = string_of(content);
            let expansions = regex.expansions(haystack.as_str(), replacement.as_str());
            let offsets = crate::matchers::char_offsets_by_byte(content);
            let mut out: Vec<(TextRange, Vec<char>)> = Vec::new();
            let mut k: usize = 0;
            let ghost ex = crate::matchers::regex_expansions(p@, content@, replacement@);
            while k < expansions.len()
                invariant
                    k <= expansions@.len(),
                    out@.len() == k,
                    haystack@ == content@,
                    ex == crate::matchers::regex_expansions(regex@, haystack@, replacement@),
                    regex@ == p@,
                    expansions@.len() == ex.len(),
                    offsets@.len() == crate::matchers::utf8_len(content@) + 1,
                    forall|c: int|
                        0 <= c <= content@.len() ==> #[trigger] offsets@[crate::matchers::byte_offset(
                            content@,
                            c,
                        )] == c,
                    forall|b: int| 0 <= b < offsets@.len() ==> #[trigger] offsets@[b] <= content@.len(),
                    forall|j: int|
                        0 <= j < expansions@.len() ==> {
                            let (s, e, t) = #[trigger] expansions@[j];
                            ex[j] == (s, e, t@)
                        },
                    forall|j: int|
                        0 <= j < expansions@.len() ==> {
                            let (s, e, _) = #[trigger] expansions@[j];
                            &&& s <= e <= crate::matchers::utf8_len(haystack@)
                            &&& crate::matchers::is_boundary(haystack@, s as int)
                            &&& crate::matchers::is_boundary(haystack@, e as int)
                        },
                    forall|j: int|
                        0 <= j < k ==> #[trigger] out@[j].0.start == crate::matchers::char_offset(
                            content@,
                            ex[j].0 as int,
                        ) && out@[j].0.end == crate::matchers::char_offset(content@, ex[j].1 as int)
                            && out@[j].1@ == ex[j].2 && out@[j].0.start <= out@[j].0.end
                            && out@[j].0.end <= content@.len() && out@[j].0.span is None,
                decreases expansions.len() - k,
            {
                let (s, e, t) = (expansions[k].0, expansions[k].1, &expansions[k].2);
                let start = offsets[s];
                let end = offsets[e];
                proof {
                    let cs = crate::matchers::char_offset(content@, s as int);
                    let ce = crate::matchers::char_offset(content@, e as int);
                    crate::matchers::lemma_char_offset_of_byte_offset(content@, cs);
                    crate::matchers::lemma_char_offset_of_byte_offset(content@, ce);
                    assert(start == cs);
                    assert(end == ce);
                    if cs > ce {
                        crate::matchers::lemma_byte_offset_order(content@, ce, cs);
                    }
                }
                let text = chars_of(t.as_str());
                out.push((TextRange { start, end, span: None }, text));
                k = k + 1;
            }
            Ok(out)
        },
    }
}

// ---------------------------------------------------------------------------------------------
// The executor
// ---------------------------------------------------------------------------------------------
/// Where text goes: a line of a file, and whether a missing file is created.
struct TextInsertionTarget<'a> {
    path: &'a String,
    offset: usize,
    create_if_missing: bool,
}

fn chars_to_bytes(text: &[char]) -> (b: Vec<u8>)
    ensures
        b@ == vstd::utf8::encode_utf8(text@),
{
    let s = string_of(text);
    s.as_str().as_bytes_vec()
}

impl<F: FileSystem> Executor<F> {
    /// The file system that the executor works on.
    pub closed spec fn spec_file_system(&self) -> F {
        self.fs
    }

    pub fn with_file_system(fs: F) -> (e: Self)
        ensures
            e.spec_file_system() == fs,
    {
        Executor { fs }
    }

    /// The file system that the executor reads and changes.
    pub fn file_system(&self) -> (f: &F)
        ensures
            *f == self.spec_file_system(),
    {
        &self.fs
    }

    /// Gives back the file system.
    pub fn into_file_system(self) -> (f: F)
        ensures
            f == self.spec_file_system(),
    {
        self.fs
    }

    // -- file-system queries, with their failures named ----------------------------------------
    fn fs_exists(&self, path: &str) -> (r: Result<bool, SmartEditError>)
        ensures
            r matches Err(e) ==> is_io_error(e, "check path"@, path@),
    {
        match self.fs.path_exists(path) {
            Ok(b) => Ok(b),
            Err(failure) => Err(io_error("check path", path, failure)),
        }
    }

    fn fs_is_file(&self, path: &str) -> (r: Result<bool, SmartEditError>)
        ensures
            r matches Err(e) ==> is_io_error(e, "check file type"@, path@),
    {
        match self.fs.is_file(path) {
            Ok(b) => Ok(b),
            Err(failure) => Err(io_error("check file type", path, failure)),
        }
    }

    fn fs_is_dir(&self, path: &str) -> (r: Result<bool, SmartEditError>)
        ensures
            r matches Err(e) ==> is_io_error(e, "check file type"@, path@),
    {
        match self.fs.is_dir(path) {
            Ok(b) => Ok(b),
            Err(failure) => Err(io_error("check file type", path, failure)),
        }
    }

    fn fs_read_bytes(&self, path: &str) -> (r: Result<Vec<u8>, SmartEditError>)
        ensures
            r matches Err(e) ==> is_io_error(e, "read file"@, path@) || (e matches SmartEditError::MissingFile { path: p } && p@ == path@),
    {
        match self.fs.read_bytes(path) {
            Ok(bytes) => Ok(bytes),
            Err(failure) => match failure.kind {
                IoErrorKind::NotFound => Err(SmartEditError::MissingFile { path: path.to_string() }),
                _ => Err(io_error("read file", path, failure)),
            },
        }
    }

    fn fs_list_files(&self, root: &str, recursive: bool) -> (r: Result<Vec<String>, SmartEditError>)
        ensures
            r matches Err(e) ==> is_io_error(e, "list files"@, root@),
    {
        match self.fs.list_files(root, recursive) {
            Ok(files) => Ok(files),
            Err(failure) => Err(io_error("list files", root, failure)),
        }
    }

    // -- the file system as the snapshot sees it ---------------------------------------------
    fn snapshot_exists(&self, snapshot: &SnapshotState, path: &str) -> (r: Result<bool, SmartEditError>)
        ensures
            r matches Err(e) ==> e is Io,
            r matches Err(e) ==> lookup_error(e),
    {
        match snapshot_get(&self.fs, snapshot, path) {
            Some(SnapshotEntry::Missing) => Ok(false),
            Some(_) => Ok(true),
            None => self.fs_exists(path),
        }
    }

    fn snapshot_is_file(&self, snapshot: &SnapshotState, path: &str) -> (r: Result<bool, SmartEditError>)
        ensures
            r matches Err(e) ==> e is Io,
            r matches Err(e) ==> lookup_error(e),
    {
        match snapshot_get(&self.fs, snapshot, path) {
            Some(SnapshotEntry::File(_)) => Ok(true),
            Some(SnapshotEntry::MovedFile(_)) => Ok(true),
            Some(_) => Ok(false),
            None => self.fs_is_file(path),
        }
    }

    fn snapshot_is_dir(&self, snapshot: &SnapshotState, path: &str) -> (r: Result<bool, SmartEditError>)
        ensures
            r matches Err(e) ==> e is Io,
            r matches Err(e) ==> lookup_error(e),
    {
        match snapshot_get(&self.fs, snapshot, path) {
            Some(SnapshotEntry::Directory) => Ok(true),
            Some(_) => Ok(false),
            None => self.fs_is_dir(path),
        }
    }

    fn snapshot_read_bytes(&self, snapshot: &SnapshotState, path: &str) -> (r: Result<
        Vec<u8>,
        SmartEditError,
    >)
        ensures
            r matches Err(e) ==> lookup_error(e),
    {
        match snapshot_get(&self.fs, snapshot, path) {
            Some(SnapshotEntry::File(bytes)) => Ok(bytes.clone()),
            Some(SnapshotEntry::MovedFile(source)) => self.fs_read_bytes(source.as_str()),
            Some(SnapshotEntry::Directory) => Err(
                SmartEditError::ExpectedFileButFoundDirectory { path: path.to_string() },
            ),
            Some(SnapshotEntry::Missing) => Err(SmartEditError::MissingFile { path: path.to_string() }),
            None => self.fs_read_bytes(path),
        }
    }

    /// The text of a file as the snapshot sees it; bytes that are not UTF-8 are an error.
    fn snapshot_read_text(&self, snapshot: &SnapshotState, path: &str) -> (r: Result<
        Vec<char>,
        SmartEditError,
    >)
        ensures
            r matches Err(e) ==> lookup_error(e),
    {
        let bytes = self.snapshot_read_bytes(snapshot, path)?;
        match decode_utf8_text(bytes) {
            Some(text) => Ok(text),
            None => Err(SmartEditError::InvalidUtf8 { path: path.to_string() }),
        }
    }

    /// The files below `root` as the snapshot sees them: the listed files, with the snapshot's
    /// files added and its removed files taken out, in the order of their identities.
    fn snapshot_list_files(&self, snapshot: &SnapshotState, root: &str, recursive: bool) -> (r: Result<
        Vec<String>,
        SmartEditError,
    >)
        requires
            snapshot.wf(),
        ensures
            r matches Err(e) ==> lookup_error(e),
    {
        if !self.snapshot_exists(snapshot, root)? {
            return Ok(Vec::new());
        }
        if !self.snapshot_is_dir(snapshot, root)? {
            return Err(SmartEditError::ExpectedDirectoryButFoundFile { path: root.to_string() });
        }
        let root_identity = self.fs.entry_path_identity(root);
        let mut files: PathMap<String> = PathMap::new();
        if self.fs_exists(root)? && self.fs_is_dir(root)? {
            let listed = self.fs_list_files(root, recursive)?;
            let mut k: usize = 0;
            while k < listed.len()
                invariant
                    files.wf(),
                    k <= listed@.len(),
                decreases listed.len() - k,
            {
                let identity = self.fs.entry_path_identity(listed[k].as_str());
                files.set(identity, listed[k].clone());
                k = k + 1;
            }
        }
        let entries = &snapshot.entries.entries;
        let mut k: usize = 0;
        while k < entries.len()
            invariant
                files.wf(),
                k <= entries@.len(),
            decreases entries.len() - k,
        {
            let identity = &entries[k].0;
            match strip_prefix(identity.as_str(), root_identity.as_str()) {
                Some(relative) => {
                    let single = relative.as_str().len() > 0 && !crate::text::contains_char(
                        &chars_of(relative.as_str()),
                        '/',
                    );
                    if recursive || single {
                        match &entries[k].1 {
                            SnapshotEntry::File(_) | SnapshotEntry::MovedFile(_) => {
                                files.set(identity.clone(), join(root, relative.as_str()));
                            },
                            SnapshotEntry::Missing => {
                                files.remove(identity.as_str());
                            },
                            SnapshotEntry::Directory => {},
                        }
                    }
                },
                None => {},
            }
            k = k + 1;
        }
        let mut out: Vec<String> = Vec::new();
        let mut k: usize = 0;
        while k < files.entries.len()
            invariant
                k <= files.entries@.len(),
            decreases files.entries.len() - k,
        {
            out.push(files.entries[k].1.clone());
            k = k + 1;
        }
        Ok(out)
    }

    // -- matching files ---------------------------------------------------------------------
    fn resolve_exact_file(&self, path: &String, snapshot: &SnapshotState) -> (r: Result<
        Vec<ResolvedFileMatch>,
        SmartEditError,
    >)
        ensures
            r matches Ok(v) ==> v@.len() <= 1 && forall|k: int|
                0 <= k < v@.len() ==> (#[trigger] v@[k]).path == *path,
            r matches Err(e) ==> lookup_error(e),
    {
        if !self.snapshot_exists(snapshot, path.as_str())? {
            return Ok(Vec::new());
        }
        if self.snapshot_is_dir(snapshot, path.as_str())? {
            return Err(SmartEditError::ExpectedFileButFoundDirectory { path: path.clone() });
        }
        let relative_path = match file_name(path.as_str()) {
            Some(name) => name,
            None => path.clone(),
        };
        let mut out = Vec::new();
        out.push(ResolvedFileMatch { path: path.clone(), relative_path });
        Ok(out)
    }

    /// The files below `root` that the filter accepts.
    fn resolve_listed_files(
        &self,
        root: &String,
        recursive: bool,
        filter: &FileFilter,
        snapshot: &SnapshotState,
    ) -> (r: Result<Vec<ResolvedFileMatch>, SmartEditError>)
        requires
            snapshot.wf(),
        ensures
            r matches Ok(v) ==> exists|files: Seq<String>|
                match_views(v@) == filtered_files(files, root@, *filter),
            r matches Err(e) ==> lookup_error(e),
    {
        if !self.snapshot_exists(snapshot, root.as_str())? {
            proof {
                assert(match_views(Seq::<ResolvedFileMatch>::empty()) =~= filtered_files(
                    Seq::<String>::empty(),
                    root@,
                    *filter,
                ));
            }
            return Ok(Vec::new());
        }
        if !self.snapshot_is_dir(snapshot, root.as_str())? {
            return Err(SmartEditError::ExpectedDirectoryButFoundFile { path: root.clone() });
        }
        let files = self.snapshot_list_files(snapshot, root.as_str(), recursive)?;
        let ghost listed = files@;
        let r = filter_listed_files(files, root.as_str(), filter);
        assert(match_views(r@) == filtered_files(listed, root@, *filter));
        Ok(r)
    }

    /// The files that a path specification selects.
    fn resolve_file_matches(&self, spec: &PathSpec, snapshot: &SnapshotState) -> (r: Result<
        Vec<ResolvedFileMatch>,
        SmartEditError,
    >)
        requires
            snapshot.wf(),
        ensures
            r matches Err(e) ==> match spec.kind {
                PathSpecKind::Glob { pattern, .. } => !crate::matchers::glob_compiles(pattern@)
                    ==> (e matches SmartEditError::InvalidGlobPattern { pattern: p, .. } && p
                    == pattern),
                PathSpecKind::Regex { pattern, .. } => !crate::matchers::regex_compiles(pattern@)
                    ==> (e matches SmartEditError::InvalidRegexPattern { pattern: p, .. } && p
                    == pattern),
                _ => true,
            },
            r matches Err(e) ==> lookup_error(e),
            match spec.kind {
                PathSpecKind::Glob { pattern, .. } => !crate::matchers::glob_compiles(pattern@)
                    ==> r is Err,
                PathSpecKind::Regex { pattern, .. } => !crate::matchers::regex_compiles(pattern@)
                    ==> r is Err,
                PathSpecKind::ExactFile { path } => r matches Ok(v) ==> v@.len() <= 1 && forall|k: int|
                    0 <= k < v@.len() ==> (#[trigger] v@[k]).path == path,
                _ => true,
            },
    {
        match &spec.kind {
            PathSpecKind::ExactFile { path } => self.resolve_exact_file(path, snapshot),
            PathSpecKind::FilesInDirectory { root, recursive } => self.resolve_listed_files(
                root,
                *recursive,
                &FileFilter::All,
                snapshot,
            ),
            PathSpecKind::Glob { root, pattern } => {
                let matcher = match GlobPattern::compile(pattern.as_str()) {
                    Ok(m) => m,
                    Err(message) => {
                        return Err(
                            SmartEditError::InvalidGlobPattern { pattern: pattern.clone(), message },
                        );
                    },
                };
                self.resolve_listed_files(root, true, &FileFilter::Glob(matcher), snapshot)
            },
            PathSpecKind::Regex { root, pattern } => {
                let matcher = match RegexPattern::compile(pattern.as_str()) {
                    Ok(m) => m,
                    Err(message) => {
                        return Err(
                            SmartEditError::InvalidRegexPattern { pattern: pattern.clone(), message },
                        );
                    },
                };
                self.resolve_listed_files(root, true, &FileFilter::Regex(matcher), snapshot)
            },
        }
    }

    // -- plans of whole-file modifications ---------------------------------------------------
    /// The directory to create before writing `path`: none when its parent exists (it must be
    /// a directory) or is the current one; otherwise the parent, when creation is allowed.
    fn parent_directory_actions(&self, path: &str, create_if_missing: bool, snapshot: &SnapshotState) -> (r: Result<
        Vec<PlannedAction>,
        SmartEditError,
    >)
        ensures
            r matches Ok(v) ==> v@.len() <= 1 && forall|k: int|
                0 <= k < v@.len() ==> ((#[trigger] v@[k]) matches PlannedAction::CreateDirectory {
                    path: p,
                } && crate::fspath::path_parent(path@) == Some(p@)),
            r matches Err(e) ==> lookup_error(e),
            r matches Err(e) ==> !create_if_missing || !(e matches SmartEditError::MissingFile { .. }),
            (match crate::fspath::path_parent(path@) {
                Some(p) => p.len() == 0,
                None => true,
            }) ==> (r matches Ok(v) && v@.len() == 0),
    {
        let parent_path = match parent(path) {
            Some(p) => p,
            None => return Ok(Vec::new()),
        };
        if parent_path.as_str().is_empty() {
            return Ok(Vec::new());
        }
        if self.snapshot_exists(snapshot, parent_path.as_str())? {
            if self.snapshot_is_file(snapshot, parent_path.as_str())? {
                return Err(SmartEditError::ExpectedDirectoryButFoundFile { path: parent_path });
            }
            return Ok(Vec::new());
        }
        if !create_if_missing {
            return Err(SmartEditError::MissingFile { path: parent_path });
        }
        let mut out = Vec::new();
        out.push(PlannedAction::CreateDirectory { path: parent_path });
        Ok(out)
    }

    /// Plans writing a file: refused where a directory stands, or where a file stands and
    /// overwriting is not allowed.
    fn plan_create_file(&self, path: &String, content: &String, overwrite: bool, snapshot: &SnapshotState) -> (r: Result<
        Vec<PlannedAction>,
        SmartEditError,
    >)
        ensures
            r matches Ok(v) ==> v@.len() >= 1 && v@.last() == (PlannedAction::WriteFile {
                path: *path,
                bytes: v@.last()->bytes,
                overwrite,
            }) && v@.last()->bytes@ == vstd::utf8::encode_utf8(content@),
            r matches Err(e) ==> (e matches SmartEditError::FileAlreadyExists { .. } ==> !overwrite),
    {
        let path_existed = self.snapshot_exists(snapshot, path.as_str())?;
        let is_dir = if path_existed {
            self.snapshot_is_dir(snapshot, path.as_str())?
        } else {
            false
        };
        match create_file_refusal(path, overwrite, path_existed, is_dir) {
            Some(e) => {
                return Err(e);
            },
            None => {},
        }
        let mut actions = self.parent_directory_actions(path.as_str(), true, snapshot)?;
        let bytes = content.as_str().as_bytes_vec();
        actions.push(PlannedAction::WriteFile { path: path.clone(), bytes, overwrite });
        Ok(actions)
    }

    fn plan_create_directory(&self, path: &String, snapshot: &SnapshotState) -> (r: Result<
        Vec<PlannedAction>,
        SmartEditError,
    >)
        ensures
            r matches Ok(v) ==> v@ == seq![PlannedAction::CreateDirectory { path: *path }],
    {
        if self.snapshot_exists(snapshot, path.as_str())? && self.snapshot_is_file(
            snapshot,
            path.as_str(),
        )? {
            return Err(SmartEditError::ExpectedDirectoryButFoundFile { path: path.clone() });
        }
        let mut out = Vec::new();
        out.push(PlannedAction::CreateDirectory { path: path.clone() });
        Ok(out)
    }

    /// Plans deleting every selected file; selecting none is an error unless allowed.
    fn plan_delete_files(&self, targets: &PathSpec, missing_matches_ok: bool, snapshot: &SnapshotState) -> (r: Result<
        Vec<PlannedAction>,
        SmartEditError,
    >)
        requires
            snapshot.wf(),
        ensures
            r matches Ok(v) ==> forall|k: int|
                0 <= k < v@.len() ==> ((#[trigger] v@[k]) matches PlannedAction::DeleteFile {
                    missing_ok,
                    ..
                } && !missing_ok),
            r matches Ok(v) ==> v@.len() > 0 || missing_matches_ok,
    {
        let matches = self.resolve_file_matches(targets, snapshot)?;
        delete_actions(matches, missing_matches_ok, describe_file_source_spec(targets))
    }

    /// Plans moving every selected file to its relative path below the destination directory;
    /// a file that is already there stays.
    fn plan_move_files(
        &self,
        sources: &PathSpec,
        destination_dir: &crate::edit::PathDestination,
        create_destination_dir: bool,
        overwrite: bool,
        snapshot: &SnapshotState,
    ) -> (r: Result<Vec<PlannedAction>, SmartEditError>)
        requires
            snapshot.wf(),
        ensures
            r matches Err(e) ==> (e matches SmartEditError::FileAlreadyExists { .. } ==> !overwrite),
            r matches Ok(v) ==> forall|k: int|
                0 <= k < v@.len() ==> ((#[trigger] v@[k]) is CreateDirectory || (v@[k] matches PlannedAction::MoveFile {
                    overwrite: o,
                    ..
                } && o == overwrite)),
            match sources.kind {
                PathSpecKind::Glob { pattern, .. } => !crate::matchers::glob_compiles(pattern@)
                    ==> r is Err,
                PathSpecKind::Regex { pattern, .. } => !crate::matchers::regex_compiles(pattern@)
                    ==> r is Err,
                _ => true,
            },
    {
        let destination_root = match &destination_dir.kind {
            PathDestinationKind::Directory { path } => path,
        };
        let matches = self.resolve_file_matches(sources, snapshot)?;
        if matches.len() == 0 {
            return Err(
                SmartEditError::NoFilesMatched { description: describe_file_source_spec(sources) },
            );
        }
        let mut actions: Vec<PlannedAction> = Vec::new();
        let mut k: usize = 0;
        while k < matches.len()
            invariant
                k <= matches@.len(),
                snapshot.wf(),
                forall|j: int|
                    0 <= j < actions@.len() ==> ((#[trigger] actions@[j]) is CreateDirectory || (
                    actions@[j] matches PlannedAction::MoveFile { overwrite: o, .. } && o
                        == overwrite)),
            decreases matches.len() - k,
        {
            let matched = &matches[k];
            let destination_path = join(destination_root.as_str(), matched.relative_path.as_str());
            let same = str_eq(
                self.fs.entry_path_identity(destination_path.as_str()).as_str(),
                self.fs.entry_path_identity(matched.path.as_str()).as_str(),
            );
            if !same {
                let exists = self.snapshot_exists(snapshot, destination_path.as_str())?;
                let is_dir = if exists {
                    self.snapshot_is_dir(snapshot, destination_path.as_str())?
                } else {
                    false
                };
                match create_file_refusal(&destination_path, overwrite, exists, is_dir) {
                    Some(e) => {
                        return Err(e);
                    },
                    None => {},
                }
                let mut parents = self.parent_directory_actions(
                    destination_path.as_str(),
                    create_destination_dir,
                    snapshot,
                )?;
                let ghost before = actions@;
                let ghost added = parents@;
                actions.append(&mut parents);
                assert(actions@ =~= before + added);
                actions.push(
                    PlannedAction::MoveFile {
                        source: matched.path.clone(),
                        destination: destination_path,
                        overwrite,
                    },
                );
            }
            k = k + 1;
        }
        Ok(actions)
    }
}

impl<F: FileSystem> Executor<F> {
    // -- text edits -------------------------------------------------------------------------
    /// The position of the pending update of the file that `path` reaches, loaded from the
    /// snapshot when it is not pending yet. A missing file is an error unless it may be
    /// created, in which case it starts empty. See `text_update_at`, with the content
    /// identity of `path`.
    fn get_or_load_text_update(
        &self,
        modification_index: usize,
        path: &String,
        create_if_missing: bool,
        pending: &mut PendingTextUpdates,
        snapshot: &SnapshotState,
    ) -> (r: Result<usize, SmartEditError>)
        requires
            old(pending).wf(),
        ensures
            final(pending).wf(),
            final(pending).count() >= old(pending).count(),
            r matches Ok(i) ==> i < final(pending).count(),
            r matches Err(e) ==> lookup_error(e),
            r is Err ==> final(pending).files.entries@ == old(pending).files.entries@,
            r matches Ok(i) ==> exists|identity: Seq<char>|
                #[trigger] text_update_placed_for(
                    old(pending).files.entries@,
                    final(pending).files.entries@,
                    identity,
                    path@,
                    create_if_missing,
                    modification_index,
                    i,
                ),
    {
        let identity = self.fs.content_path_identity(path.as_str());
        self.text_update_at(identity, modification_index, path, create_if_missing, pending, snapshot)
    }

    /// The position of the pending update of the file that `path` reaches, `identity` being
    /// its content identity. The first pending update (in path order) whose file the file
    /// system says `path` reaches the contents of is reused, and else one registered under
    /// `identity`; a reused update has its first modification lowered to `modification_index`
    /// where that is earlier. Otherwise the file is read through the snapshot and a fresh
    /// update (see `fresh_text_update`) is added under `identity`. A failure leaves the pending
    /// updates as they were.
    #[verifier::rlimit(60)]
    fn text_update_at(
        &self,
        identity: String,
        modification_index: usize,
        path: &String,
        create_if_missing: bool,
        pending: &mut PendingTextUpdates,
        snapshot: &SnapshotState,
    ) -> (r: Result<usize, SmartEditError>)
        requires
            old(pending).wf(),
        ensures
            final(pending).wf(),
            final(pending).count() >= old(pending).count(),
            r matches Ok(i) ==> i < final(pending).count(),
            r matches Err(e) ==> lookup_error(e),
            r is Err ==> final(pending).files.entries@ == old(pending).files.entries@,
            r matches Ok(i) ==> text_update_placed_for(
                old(pending).files.entries@,
                final(pending).files.entries@,
                identity@,
                path@,
                create_if_missing,
                modification_index,
                i,
            ),
    {
        let n = pending.files.entries.len();
        let ghost before = pending.files.entries@;
        let ghost mut same: Seq<bool> = Seq::empty();
        let mut found: Option<usize> = None;
        let mut k: usize = 0;
        while k < pending.files.entries.len() && found.is_none()
            invariant
                pending.wf(),
                pending.files.entries@ == before,
                before == old(pending).files.entries@,
                n == before.len(),
                k <= n,
                same.len() == k,
                forall|j: int| 0 <= j < k && j + 1 < k ==> !#[trigger] same[j],
                match found {
                    Some(j) => j + 1 == k && same[j as int],
                    None => forall|j: int| 0 <= j < k ==> !#[trigger] same[j],
                },
            decreases n - k,
        {
            let answer = same_content_file(
                &self.fs,
                pending.files.entries[k].1.path.as_str(),
                path.as_str(),
            );
            let answer = match answer {
                Ok(b) => b,
                Err(e) => {
                    return Err(e);
                },
            };
            proof {
                same = same.push(answer);
            }
            if answer {
                found = Some(k);
            }
            k = k + 1;
        }
        let ghost witness = same + Seq::new((n - k) as nat, |j: int| false);
        assert(witness.len() == n);
        let i = match found {
            Some(j) => {
                proof {
                    assert(witness[j as int] == same[j as int]);
                    assert forall|x: int| 0 <= x < j implies !#[trigger] witness[x] by {
                        assert(witness[x] == same[x]);
                    }
                    lemma_first_same(witness, 0, j as int);
                }
                j
            },
            None => {
                proof {
                    assert forall|x: int| 0 <= x < n implies !#[trigger] witness[x] by {
                        if x < k {
                            assert(witness[x] == same[x]);
                        }
                    }
                    lemma_first_same(witness, 0, n as int);
                }
                match pending.files.position(identity.as_str()) {
                    Some(i) => i,
                    None => {
                        let original_existed = self.snapshot_exists(snapshot, path.as_str())?;
                        let existing = if original_existed {
                            Some(self.snapshot_read_text(snapshot, path.as_str())?)
                        } else {
                            None
                        };
                        let resolved_path = if original_existed {
                            self.fs.content_path_identity(path.as_str())
                        } else {
                            path.clone()
                        };
                        let update = fresh_text_update(
                            path,
                            resolved_path,
                            existing,
                            create_if_missing,
                            modification_index,
                        )?;
                        let idx = pending.files.insert_new(identity, update);
                        proof {
                            assert forall|j: int| 0 <= j < pending.files.entries@.len() implies (
                            #[trigger] pending.files.entries@[j]).1.wf() by {
                                if j < idx {
                                    assert(pending.files.entries@[j] == before[j]);
                                } else if j > idx {
                                    assert(pending.files.entries@[j] == before[j - 1]);
                                }
                            }
                            assert(pending.files.entries@[idx as int].1 == update);
                            assert(text_update_placed(
                                before,
                                pending.files.entries@,
                                identity@,
                                witness,
                                path@,
                                create_if_missing,
                                modification_index,
                                idx,
                            ));
                            assert(before == old(pending).files.entries@);
                            assert(witness.len() == old(pending).files.entries@.len());
                            reveal(text_update_placed_for);
                            assert(text_update_placed_for(
                                old(pending).files.entries@,
                                pending.files.entries@,
                                identity@,
                                path@,
                                create_if_missing,
                                modification_index,
                                idx,
                            ));
                        }
                        return Ok(idx);
                    },
                }
            },
        };
        let mut update = pending.take(i);
        if modification_index < update.first_modification_index {
            update.first_modification_index = modification_index;
        }
        assert(update == lowered_first_modification(before[i as int].1, modification_index));
        pending.put(i, update);
        assert(pending.files.entries@ =~= before.update(
            i as int,
            (before[i as int].0, lowered_first_modification(before[i as int].1, modification_index)),
        ));
        assert(text_update_placed(
            before,
            pending.files.entries@,
            identity@,
            witness,
            path@,
            create_if_missing,
            modification_index,
            i,
        ));
        assert(before == old(pending).files.entries@);
        assert(witness.len() == old(pending).files.entries@.len());
        reveal(text_update_placed_for);
        assert(text_update_placed_for(
            old(pending).files.entries@,
            pending.files.entries@,
            identity@,
            path@,
            create_if_missing,
            modification_index,
            i,
        ));
        Ok(i)
    }

    fn plan_delete_ranges_into(
        &self,
        modification_index: usize,
        target: &FileRangeSelection,
        pending: &mut PendingTextUpdates,
        snapshot: &SnapshotState,
    ) -> (r: Result<(), SmartEditError>)
        requires
            old(pending).wf(),
        ensures
            final(pending).wf(),
    {
        let i = self.get_or_load_text_update(modification_index, &target.path, false, pending, snapshot)?;
        let mut update = pending.take(i);
        let deletions = resolve_ranges(&update, &target.ranges)?;
        push_deletions(&mut update, &deletions, DeletionKind::Delete, modification_index);
        pending.put(i, update);
        Ok(())
    }

    fn plan_move_ranges_into(
        &self,
        modification_index: usize,
        source: &FileRangeSelection,
        destination: TextInsertionTarget,
        pending: &mut PendingTextUpdates,
        snapshot: &SnapshotState,
    ) -> (r: Result<(), SmartEditError>)
        requires
            old(pending).wf(),
        ensures
            final(pending).wf(),
    {
        let i = self.get_or_load_text_update(modification_index, &source.path, false, pending, snapshot)?;
        let mut update = pending.take(i);
        let resolved = resolve_ranges(&update, &source.ranges)?;
        let moved_text = extract_ranges(&update.original_content, &resolved);
        push_deletions(&mut update, &resolved, DeletionKind::Move, modification_index);
        pending.put(i, update);
        let j = self.get_or_load_text_update(
            modification_index,
            destination.path,
            destination.create_if_missing,
            pending,
            snapshot,
        )?;
        let mut target = pending.take(j);
        let offset = resolve_insertion_offset(destination.path, &target.bounds, destination.offset)?;
        push_insertion(&mut target, offset, moved_text, modification_index);
        pending.put(j, target);
        Ok(())
    }

    fn plan_insert_lines_into(
        &self,
        modification_index: usize,
        destination: TextInsertionTarget,
        content: &String,
        pending: &mut PendingTextUpdates,
        snapshot: &SnapshotState,
    ) -> (r: Result<(), SmartEditError>)
        requires
            old(pending).wf(),
        ensures
            final(pending).wf(),
    {
        let j = self.get_or_load_text_update(
            modification_index,
            destination.path,
            destination.create_if_missing,
            pending,
            snapshot,
        )?;
        let mut target = pending.take(j);
        let offset = resolve_insertion_offset(destination.path, &target.bounds, destination.offset)?;
        push_insertion(&mut target, offset, chars_of(content.as_str()), modification_index);
        pending.put(j, target);
        Ok(())
    }

    fn plan_replace_ranges_into(
        &self,
        modification_index: usize,
        target: &FileRangeSelection,
        content: &String,
        create_destination_if_missing: bool,
        pending: &mut PendingTextUpdates,
        snapshot: &SnapshotState,
    ) -> (r: Result<(), SmartEditError>)
        requires
            old(pending).wf(),
        ensures
            final(pending).wf(),
    {
        let i = self.get_or_load_text_update(
            modification_index,
            &target.path,
            create_destination_if_missing,
            pending,
            snapshot,
        )?;
        let mut update = pending.take(i);
        let deletions = resolve_ranges(&update, &target.ranges)?;
        let insertion_offset = if deletions.len() > 0 {
            deletions[0].start
        } else {
            update.original_content.len()
        };
        push_deletions(&mut update, &deletions, DeletionKind::Replace, modification_index);
        push_insertion(&mut update, insertion_offset, chars_of(content.as_str()), modification_index);
        pending.put(i, update);
        Ok(())
    }

    fn plan_delete_lines_matching_into(
        &self,
        modification_index: usize,
        target: &crate::edit::FilePatternMatch,
        pending: &mut PendingTextUpdates,
        snapshot: &SnapshotState,
    ) -> (r: Result<(), SmartEditError>)
        requires
            old(pending).wf(),
        ensures
            final(pending).wf(),
    {
        let i = self.get_or_load_text_update(modification_index, &target.path, false, pending, snapshot)?;
        let mut update = pending.take(i);
        let matcher = match RegexPattern::compile(target.pattern.as_str()) {
            Ok(m) => m,
            Err(message) => {
                return Err(
                    SmartEditError::InvalidRegexPattern { pattern: target.pattern.clone(), message },
                );
            },
        };
        let deletions = matching_line_ranges(&update, &matcher);
        push_deletions(&mut update, &deletions, DeletionKind::Delete, modification_index);
        pending.put(i, update);
        Ok(())
    }

    fn plan_text_replace_into(
        &self,
        modification_index: usize,
        targets: &PathSpec,
        pattern: &TextPattern,
        replacement: &String,
        pending: &mut PendingTextUpdates,
        snapshot: &SnapshotState,
    ) -> (r: Result<(), SmartEditError>)
        requires
            old(pending).wf(),
            snapshot.wf(),
        ensures
            final(pending).wf(),
            match targets.kind {
                PathSpecKind::Glob { pattern, .. } => !crate::matchers::glob_compiles(pattern@)
                    ==> (r matches Err(e) && e matches SmartEditError::InvalidGlobPattern {
                    pattern: p,
                    ..
                } && p == pattern),
                PathSpecKind::Regex { pattern, .. } => !crate::matchers::regex_compiles(pattern@)
                    ==> (r matches Err(e) && e matches SmartEditError::InvalidRegexPattern {
                    pattern: p,
                    ..
                } && p == pattern),
                _ => true,
            },
    {
        let matches = self.resolve_file_matches(targets, snapshot)?;
        if matches.len() == 0 {
            return Err(
                SmartEditError::NoFilesMatched { description: describe_file_source_spec(targets) },
            );
        }
        let mut k: usize = 0;
        while k < matches.len()
            invariant
                pending.wf(),
                k <= matches@.len(),
                match targets.kind {
                    PathSpecKind::Glob { pattern, .. } => crate::matchers::glob_compiles(pattern@),
                    PathSpecKind::Regex { pattern, .. } => crate::matchers::regex_compiles(pattern@),
                    _ => true,
                },
            decreases matches.len() - k,
        {
            let i = self.get_or_load_text_update(
                modification_index,
                &matches[k].path,
                false,
                pending,
                snapshot,
            )?;
            let mut update = pending.take(i);
            let replacements = resolve_text_replacements(
                &update.original_content,
                pattern,
                replacement,
            )?;
            let mut j: usize = 0;
            while j < replacements.len()
                invariant
                    j <= replacements@.len(),
                    update.wf(),
                decreases replacements.len() - j,
            {
                let range = replacements[j].0;
                update.deletions.push(
                    PendingDeletion { range, kind: DeletionKind::Replace, modification_index },
                );
                update.insertions.push(
                    PendingInsertion {
                        offset: range.start,
                        text: replacements[j].1.clone(),
                        order: modification_index,
                    },
                );
                j = j + 1;
            }
            pending.put(i, update);
            k = k + 1;
        }
        Ok(())
    }

    /// The writes that the stage's pending updates make, each with the first modification that
    /// touched its file; an update that leaves an existing file as it was writes nothing.
    fn finalize_text_updates(&self, pending: PendingTextUpdates, snapshot: &SnapshotState) -> (r: Result<
        Vec<(usize, Vec<PlannedAction>)>,
        SmartEditError,
    >)
        requires
            pending.wf(),
        ensures
            pending.count() == 0 ==> (r matches Ok(v) && v@.len() == 0),
            r matches Ok(v) ==> v@.len() <= pending.count() && forall|k: int|
                0 <= k < v@.len() ==> (#[trigger] v@[k]).1@.len() > 0 && v@[k].1@.last() is WriteFile
                    && exists|j: int|
                    0 <= j < pending.files.entries@.len() && v@[k].0
                        == pending.files.entries@[j].1.first_modification_index
                        && #[trigger] update_write(pending.files.entries@[j].1, v@[k].1@.last()),
    {
        let files = pending.files.entries;
        let mut finalized: Vec<(usize, Vec<PlannedAction>)> = Vec::new();
        let mut k: usize = 0;
        while k < files.len()
            invariant
                k <= files@.len(),
                files@.len() == pending.count(),
                finalized@.len() <= k,
                forall|j: int|
                    0 <= j < finalized@.len() ==> (#[trigger] finalized@[j]).1@.len() > 0
                        && finalized@[j].1@.last() is WriteFile && exists|i: int|
                        0 <= i < files@.len() && finalized@[j].0
                            == files@[i].1.first_modification_index
                            && #[trigger] update_write(files@[i].1, finalized@[j].1@.last()),
            decreases files.len() - k,
        {
            let update = &files[k].1;
            let updated = render_text_update(
                &update.path,
                &update.original_content,
                &update.deletions,
                &update.insertions,
            )?;
            let unchanged = update.original_existed && crate::text::chars_eq(
                &updated,
                &update.original_content,
            );
            if !unchanged {
                let mut actions = self.parent_directory_actions(update.path.as_str(), true, snapshot)?;
                actions.push(
                    PlannedAction::WriteFile {
                        path: update.path.clone(),
                        bytes: chars_to_bytes(&updated),
                        overwrite: update.original_existed,
                    },
                );
                assert(update_write(files@[k as int].1, actions@.last()));
                finalized.push((update.first_modification_index, actions));
            }
            k = k + 1;
        }
        Ok(finalized)
    }
}

/// The ranges of the lines of a file that a regular expression matches, each line taken
/// without its line break.
fn matching_line_ranges(update: &PendingTextFileUpdate, matcher: &RegexPattern) -> (r: Vec<TextRange>)
    requires
        update.wf(),
    ensures
        r@ == crate::textedit::selected_line_ranges(
            update.bounds@,
            Seq::new(
                line_count(update.bounds@) as nat,
                |j: int|
                    crate::matchers::regex_matches(
                        matcher@,
                        crate::textedit::line_without_terminator(
                            update.original_content@,
                            update.bounds@[j] as int,
                            update.bounds@[j + 1] as int,
                        ),
                    ),
            ),
        ),
{
    let b = &update.bounds;
    let c = &update.original_content;
    let count = b.len() - 1;
    let mut selected: Vec<bool> = Vec::new();
    let mut j: usize = 0;
    let ghost want = Seq::new(
        line_count(b@) as nat,
        |j: int|
            crate::matchers::regex_matches(
                matcher@,
                crate::textedit::line_without_terminator(c@, b@[j] as int, b@[j + 1] as int),
            ),
    );
    while j < count
        invariant
            valid_line_bounds(c@, b@),
            count == b@.len() - 1,
            j <= count,
            selected@ == want.subrange(0, j as int),
            want == Seq::new(
                line_count(b@) as nat,
                |j: int|
                    crate::matchers::regex_matches(
                        matcher@,
                        crate::textedit::line_without_terminator(c@, b@[j] as int, b@[j + 1] as int),
                    ),
            ),
        decreases count - j,
    {
        proof {
            lemma_bounds_increasing(b@, j as int, j + 1);
            lemma_bounds_increasing(b@, j + 1, b@.len() - 1);
        }
        let line = copy_line_without_terminator(c, b[j], b[j + 1]);
        selected.push(matcher.is_match(&line));
        proof {
            assert(selected@ =~= want.subrange(0, j + 1));
        }
        j = j + 1;
    }
    assert(want.subrange(0, count as int) =~= want);
    select_line_ranges(b, &selected)
}

/// The number of modifications in the first `s` stages.
pub open spec fn modifications_before(stages: Seq<crate::edit::EditStage>, s: int) -> int {
    crate::edit::flatten_stages(stages.subrange(0, s)).len() as int
}

/// When no modification comes before stage `s` and that stage has one, the program's first
/// modification is the first of stage `s`.
proof fn lemma_first_modification(stages: Seq<crate::edit::EditStage>, s: int)
    requires
        0 <= s < stages.len(),
        modifications_before(stages, s) == 0,
        stages[s].modifications@.len() > 0,
    ensures
        crate::edit::flatten_stages(stages).len() > 0,
        crate::edit::flatten_stages(stages)[0] == stages[s].modifications@[0],
{
    assert(stages.subrange(0, s + 1).drop_last() =~= stages.subrange(0, s));
    lemma_flatten_keeps_first(stages, s + 1, stages.len() as int);
    assert(stages.subrange(0, stages.len() as int) =~= stages);
}

proof fn lemma_flatten_keeps_first(stages: Seq<crate::edit::EditStage>, s: int, t: int)
    requires
        1 <= s <= t <= stages.len(),
        crate::edit::flatten_stages(stages.subrange(0, s)).len() > 0,
    ensures
        crate::edit::flatten_stages(stages.subrange(0, t)).len() > 0,
        crate::edit::flatten_stages(stages.subrange(0, t))[0] == crate::edit::flatten_stages(
            stages.subrange(0, s),
        )[0],
    decreases t - s,
{
    if t > s {
        lemma_flatten_keeps_first(stages, s, t - 1);
        assert(stages.subrange(0, t).drop_last() =~= stages.subrange(0, t - 1));
    }
}

proof fn lemma_modifications_before(stages: Seq<crate::edit::EditStage>, s: int)
    requires
        0 <= s < stages.len(),
    ensures
        modifications_before(stages, s + 1) == modifications_before(stages, s)
            + stages[s].modifications@.len(),
        modifications_before(stages, s + 1) <= modifications_before(stages, stages.len() as int),
        modifications_before(stages, stages.len() as int) == crate::edit::flatten_stages(stages).len(),
    decreases stages.len() - s,
{
    assert(stages.subrange(0, s + 1).drop_last() =~= stages.subrange(0, s));
    assert(stages.subrange(0, stages.len() as int) =~= stages);
    if s + 1 < stages.len() {
        lemma_modifications_before(stages, s + 1);
    }
}

impl<F: FileSystem> Executor<F> {
    fn evaluate_generic(&self, modification: &GenericModification, snapshot: &SnapshotState) -> (r: Result<
        Vec<PlannedAction>,
        SmartEditError,
    >)
        requires
            snapshot.wf(),
        ensures
            match *modification {
                GenericModification::CreateDirectory { path, .. } => r matches Ok(v) ==> v@ == seq![
                    PlannedAction::CreateDirectory { path },
                ],
                GenericModification::CreateFile { path, content, overwrite, .. } => {
                    &&& r matches Ok(v) ==> v@.len() >= 1 && v@.last() == (PlannedAction::WriteFile {
                        path,
                        bytes: v@.last()->bytes,
                        overwrite,
                    }) && v@.last()->bytes@ == vstd::utf8::encode_utf8(content@)
                    &&& r matches Err(e) ==> (e matches SmartEditError::FileAlreadyExists { .. }
                        ==> !overwrite)
                },
                GenericModification::DeleteFiles { missing_matches_ok, .. } => r matches Ok(v) ==> (
                v@.len() > 0 || missing_matches_ok) && forall|k: int|
                    0 <= k < v@.len() ==> ((#[trigger] v@[k]) matches PlannedAction::DeleteFile {
                        missing_ok,
                        ..
                    } && !missing_ok),
                GenericModification::MoveFiles { overwrite, .. } => r matches Ok(v) ==> forall|k: int|
                    0 <= k < v@.len() ==> ((#[trigger] v@[k]) is CreateDirectory || (v@[k] matches PlannedAction::MoveFile {
                        overwrite: o,
                        ..
                    } && o == overwrite)),
                _ => r matches Ok(v) && v@.len() == 0,
            },
    {
        match modification {
            GenericModification::CreateDirectory { path, .. } => self.plan_create_directory(path, snapshot),
            GenericModification::CreateFile { path, content, overwrite, .. } => self.plan_create_file(
                path,
                content,
                *overwrite,
                snapshot,
            ),
            GenericModification::DeleteFiles { targets, missing_matches_ok, .. } => self.plan_delete_files(
                targets,
                *missing_matches_ok,
                snapshot,
            ),
            GenericModification::MoveFiles {
                sources,
                destination_dir,
                create_destination_dir,
                overwrite,
                ..
            } => self.plan_move_files(
                sources,
                destination_dir,
                *create_destination_dir,
                *overwrite,
                snapshot,
            ),
            _ => Ok(Vec::new()),
        }
    }

    /// The actions of a modification that is not a text edit; a language-aware modification
    /// is refused.
    fn evaluate_modification(&self, modification: &Modification, snapshot: &SnapshotState) -> (r: Result<
        Vec<PlannedAction>,
        SmartEditError,
    >)
        requires
            snapshot.wf(),
        ensures
            modification is Language ==> r == Err::<Vec<PlannedAction>, SmartEditError>(
                SmartEditError::UnsupportedLanguageModification,
            ),
    {
        match modification {
            Modification::Generic(g) => self.evaluate_generic(g, snapshot),
            Modification::Language(_) => Err(SmartEditError::UnsupportedLanguageModification),
        }
    }

    /// The targets of a modification's actions, in order, each with the identity it is
    /// registered under: a write's content identity, or else the entry identity of the path.
    fn targets_of(&self, actions: &Vec<PlannedAction>) -> (list: Vec<(String, PlannedTargetKind, String, bool)>)
        ensures
            list@.len() == actions_target_paths(actions@).len(),
            forall|k: int|
                0 <= k < list@.len() ==> (#[trigger] list@[k]).0@ == actions_target_paths(
                    actions@,
                )[k].0 && list@[k].1 == actions_target_paths(actions@)[k].1 && list@[k].3
                    == actions_target_paths(actions@)[k].2,
    {
        let mut list: Vec<(String, PlannedTargetKind, String, bool)> = Vec::new();
        let mut k: usize = 0;
        while k < actions.len()
            invariant
                k <= actions@.len(),
                list@.len() == actions_target_paths(actions@.subrange(0, k as int)).len(),
                forall|j: int|
                    0 <= j < list@.len() ==> (#[trigger] list@[j]).0@ == actions_target_paths(
                        actions@.subrange(0, k as int),
                    )[j].0 && list@[j].1 == actions_target_paths(actions@.subrange(0, k as int))[j].1
                        && list@[j].3 == actions_target_paths(actions@.subrange(0, k as int))[j].2,
            decreases actions.len() - k,
        {
            let ghost before = list@;
            proof {
                assert(actions@.subrange(0, k + 1).drop_last() =~= actions@.subrange(0, k as int));
            }
            match &actions[k] {
                PlannedAction::CreateDirectory { path } => {
                    let identity = self.fs.entry_path_identity(path.as_str());
                    list.push((path.clone(), PlannedTargetKind::Directory, identity, false));
                },
                PlannedAction::WriteFile { path, .. } => {
                    let identity = self.fs.content_path_identity(path.as_str());
                    list.push((path.clone(), PlannedTargetKind::File, identity, true));
                },
                PlannedAction::DeleteFile { path, .. } => {
                    let identity = self.fs.entry_path_identity(path.as_str());
                    list.push((path.clone(), PlannedTargetKind::File, identity, false));
                },
                PlannedAction::MoveFile { source, destination, .. } => {
                    let identity = self.fs.entry_path_identity(source.as_str());
                    list.push((source.clone(), PlannedTargetKind::File, identity, false));
                    let identity = self.fs.entry_path_identity(destination.as_str());
                    list.push((destination.clone(), PlannedTargetKind::File, identity, false));
                },
            }
            k = k + 1;
        }
        proof {
            assert(actions@.subrange(0, actions@.len() as int) =~= actions@);
        }
        list
    }

    /// Registers the paths that a modification's actions affect, in order; the first conflict
    /// with a target registered before (by an earlier modification of the stage or by this
    /// one), including two writes that reach the contents of one file, is the error.
    fn register_targets(
        &self,
        modification_index: usize,
        actions: &Vec<PlannedAction>,
        targets: &mut PathMap<PlannedTarget>,
    ) -> (r: Result<(), SmartEditError>)
        requires
            old(targets).wf(),
        ensures
            final(targets).wf(),
            exists|list: Seq<(String, PlannedTargetKind, String, bool)>|
                #[trigger] registers(
                    old(targets).entries@,
                    modification_index,
                    list,
                    final(targets).entries@,
                    r,
                ) && list.len() == actions_target_paths(actions@).len() && forall|k: int|
                    0 <= k < list.len() ==> (#[trigger] list[k]).0@ == actions_target_paths(
                        actions@,
                    )[k].0 && list[k].1 == actions_target_paths(actions@)[k].1 && list[k].3
                        == actions_target_paths(actions@)[k].2,
            r matches Err(e) ==> (e matches SmartEditError::ConflictingActionTargets {
                second_modification,
                ..
            } && second_modification == modification_index) || e is Io,
    {
        let list = self.targets_of(actions);
        let ghost l = list@;
        let r = register_all(&self.fs, targets, modification_index, list);
        proof {
            lemma_registers_conflict(old(targets).entries@, modification_index, l, targets.entries@, r);
        }
        r
    }

    /// Evaluates the modifications `modifications[start..end]` as one stage, numbered from
    /// `base`: each is planned against the snapshot as it was before the stage, text edits of
    /// one file are merged into one write, conflicting targets are refused, and the snapshot
    /// then takes the stage's effects. Gives the number of the next modification.
    fn evaluate_stage(
        &self,
        modifications: &[Modification],
        start: usize,
        end: usize,
        base: usize,
        snapshot: &mut SnapshotState,
        modification_actions: &mut Vec<Vec<PlannedAction>>,
    ) -> (r: Result<usize, SmartEditError>)
        requires
            start <= end <= modifications@.len(),
            base + (end - start) <= old(modification_actions)@.len(),
            old(snapshot).wf(),
        ensures
            final(snapshot).wf(),
            final(modification_actions)@.len() == old(modification_actions)@.len(),
            r matches Ok(n) ==> n == base + (end - start),
            start == end ==> r == Ok::<usize, SmartEditError>(base),
            start < end && modifications@[start as int] is Language ==> r == Err::<
                usize,
                SmartEditError,
            >(SmartEditError::UnsupportedLanguageModification),
            r is Err ==> *final(snapshot) == *old(snapshot),
            r matches Ok(n) ==> records(
                old(snapshot).entries.entries@,
                flatten_lists(final(modification_actions)@.subrange(base as int, n as int)),
                final(snapshot).entries.entries@,
            ),
            forall|j: int|
                0 <= j < old(modification_actions)@.len() && !(base <= j < base + (end - start))
                    ==> #[trigger] final(modification_actions)@[j] == old(modification_actions)@[j],
    {
        let total_len = modification_actions.len();
        let mut pending = PendingTextUpdates::new();
        let mut offset = start;
        while offset < end
            invariant
                start < end && modifications@[start as int] is Language ==> offset == start,
                offset == start ==> pending.count() == 0,
                start <= offset <= end <= modifications@.len(),
                total_len == modification_actions@.len(),
                total_len == old(modification_actions)@.len(),
                base + (end - start) <= total_len,
                pending.wf(),
                snapshot.wf(),
                *snapshot == *old(snapshot),
                forall|j: int|
                    0 <= j < total_len && !(base <= j < base + (end - start))
                        ==> #[trigger] modification_actions@[j] == old(modification_actions)@[j],
            decreases end - offset,
        {
            let index = base + (offset - start);
            match &modifications[offset] {
                Modification::Generic(GenericModification::DeleteRanges { target, .. }) => {
                    self.plan_delete_ranges_into(index, target, &mut pending, snapshot)?;
                },
                Modification::Generic(GenericModification::DeleteLinesMatching { target, .. }) => {
                    self.plan_delete_lines_matching_into(index, target, &mut pending, snapshot)?;
                },
                Modification::Generic(
                    GenericModification::MoveRanges {
                        source,
                        destination,
                        create_destination_if_missing,
                        ..
                    },
                ) => {
                    let destination = TextInsertionTarget {
                        path: &destination.path,
                        offset: destination.offset,
                        create_if_missing: *create_destination_if_missing,
                    };
                    self.plan_move_ranges_into(index, source, destination, &mut pending, snapshot)?;
                },
                Modification::Generic(
                    GenericModification::InsertLines {
                        target,
                        content,
                        create_destination_if_missing,
                        ..
                    },
                ) => {
                    let destination = TextInsertionTarget {
                        path: &target.path,
                        offset: target.offset,
                        create_if_missing: *create_destination_if_missing,
                    };
                    self.plan_insert_lines_into(index, destination, content, &mut pending, snapshot)?;
                },
                Modification::Generic(
                    GenericModification::ReplaceRanges {
                        target,
                        content,
                        create_destination_if_missing,
                        ..
                    },
                ) => {
                    self.plan_replace_ranges_into(
                        index,
                        target,
                        content,
                        *create_destination_if_missing,
                        &mut pending,
                        snapshot,
                    )?;
                },
                Modification::Generic(
                    GenericModification::TextReplace { targets, pattern, replacement, .. },
                ) => {
                    self.plan_text_replace_into(
                        index,
                        targets,
                        pattern,
                        replacement,
                        &mut pending,
                        snapshot,
                    )?;
                },
                other => {
                    let actions = self.evaluate_modification(other, snapshot)?;
                    modification_actions.set(index, actions);
                },
            }
            offset = offset + 1;
        }
        let ghost first_language = start < end && modifications@[start as int] is Language;
        assert(!first_language);
        let mut finalized = self.finalize_text_updates(pending, snapshot)?;
        let stage_end = base + (end - start);
        while finalized.len() > 0
            invariant
                !first_language,
                modification_actions@.len() == total_len,
                total_len == old(modification_actions)@.len(),
                stage_end == base + (end - start),
                stage_end <= total_len,
                snapshot.wf(),
                *snapshot == *old(snapshot),
                forall|j: int|
                    0 <= j < total_len && !(base <= j < stage_end)
                        ==> #[trigger] modification_actions@[j] == old(modification_actions)@[j],
            decreases finalized@.len(),
        {
            let (index, mut actions) = finalized.remove(0);
            if base <= index && index < stage_end {
                let ghost before = modification_actions@;
                let mut current = modification_actions.remove(index);
                current.append(&mut actions);
                modification_actions.insert(index, current);
                proof {
                    assert forall|j: int| 0 <= j < total_len && j != index implies
                        #[trigger] modification_actions@[j] == before[j] by {}
                }
            }
        }
        let mut targets: PathMap<PlannedTarget> = PathMap::new();
        let count = end - start;
        let mut k: usize = 0;
        while k < count
            invariant
                !first_language,
                first_language == (start < end && modifications@[start as int] is Language),
                targets.wf(),
                k <= count,
                count == end - start,
                base + count <= total_len,
                modification_actions@.len() == total_len,
                total_len == old(modification_actions)@.len(),
                snapshot.wf(),
                *snapshot == *old(snapshot),
                forall|j: int|
                    0 <= j < total_len && !(base <= j < base + count)
                        ==> #[trigger] modification_actions@[j] == old(modification_actions)@[j],
            decreases count - k,
        {
            self.register_targets(base + k, &modification_actions[base + k], &mut targets)?;
            k = k + 1;
        }
        let mut k: usize = 0;
        let ghost start_entries = snapshot.entries.entries@;
        assert(modification_actions@.subrange(base as int, base as int) =~= Seq::<
            Vec<PlannedAction>,
        >::empty());
        while k < count
            invariant
                snapshot.wf(),
                k <= count,
                count == end - start,
                base + count <= total_len,
                modification_actions@.len() == total_len,
                total_len == old(modification_actions)@.len(),
                forall|j: int|
                    0 <= j < total_len && !(base <= j < base + count)
                        ==> #[trigger] modification_actions@[j] == old(modification_actions)@[j],
                start_entries == old(snapshot).entries.entries@,
                records(
                    start_entries,
                    flatten_lists(modification_actions@.subrange(base as int, base + k)),
                    snapshot.entries.entries@,
                ),
            decreases count - k,
        {
            let actions = &modification_actions[base + k];
            let ghost done = flatten_lists(modification_actions@.subrange(base as int, base + k));
            let mut a: usize = 0;
            assert(done + actions@.subrange(0, 0) =~= done);
            while a < actions.len()
                invariant
                    snapshot.wf(),
                    a <= actions@.len(),
                    records(start_entries, done + actions@.subrange(0, a as int), snapshot.entries.entries@),
                decreases actions.len() - a,
            {
                let ghost before = snapshot.entries.entries@;
                record_action(&self.fs, snapshot, &actions[a]);
                proof {
                    lemma_records_push(
                        start_entries,
                        done + actions@.subrange(0, a as int),
                        before,
                        actions@[a as int],
                        snapshot.entries.entries@,
                    );
                    assert((done + actions@.subrange(0, a as int)).push(actions@[a as int])
                        =~= done + actions@.subrange(0, a + 1));
                }
                a = a + 1;
            }
            proof {
                let next = modification_actions@.subrange(base as int, base + k + 1);
                assert(next.drop_last() =~= modification_actions@.subrange(base as int, base + k));
                assert(actions@.subrange(0, actions@.len() as int) =~= actions@);
            }
            k = k + 1;
        }
        Ok(base + count)
    }

    /// Plans a program: one plan per modification, numbered in program order. In snapshot
    /// mode each stage is evaluated as a whole; in incremental mode every modification is a
    /// stage of its own.
    pub fn evaluate(&self, program: &EditProgram) -> (r: Result<EvaluationPlan, SmartEditError>)
        ensures
            program.all_modifications().len() == 0 ==> r is Ok,
            program.all_modifications().len() > 0 && program.all_modifications()[0] is Language
                ==> r == Err::<EvaluationPlan, SmartEditError>(
                SmartEditError::UnsupportedLanguageModification,
            ),
            r matches Ok(plan) ==> {
                &&& plan.spec_modification_plans().len() == program.all_modifications().len()
                &&& forall|i: int|
                    0 <= i < plan.spec_modification_plans().len()
                        ==> #[trigger] plan.spec_modification_plans()[i].spec_modification_index()
                        == i
            },
    {
        let total = program.modification_count();
        let mut modification_actions: Vec<Vec<PlannedAction>> = Vec::new();
        let mut i: usize = 0;
        while i < total
            invariant
                i <= total,
                modification_actions@.len() == i,
            decreases total - i,
        {
            modification_actions.push(Vec::new());
            i = i + 1;
        }
        let mut snapshot = SnapshotState::new();
        let stages = program.stages();
        let ghost language_first = program.all_modifications().len() > 0
            && program.all_modifications()[0] is Language;
        let mut index: usize = 0;
        let mut s: usize = 0;
        while s < stages.len()
            invariant
                stages@ == program.stages@,
                s <= stages@.len(),
                total == crate::edit::flatten_stages(stages@).len(),
                modification_actions@.len() == total,
                index == modifications_before(stages@, s as int),
                snapshot.wf(),
                language_first == (program.all_modifications().len() > 0
                    && program.all_modifications()[0] is Language),
                language_first ==> index == 0,
            decreases stages.len() - s,
        {
            proof {
                lemma_modifications_before(stages@, s as int);
                if language_first && stages@[s as int].modifications@.len() > 0 {
                    lemma_first_modification(stages@, s as int);
                }
            }
            let modifications = stages[s].modifications();
            match program.mode {
                ProgramMode::Snapshot => {
                    index = match self.evaluate_stage(
                        modifications,
                        0,
                        modifications.len(),
                        index,
                        &mut snapshot,
                        &mut modification_actions,
                    ) {
                        Ok(next) => next,
                        Err(e) => {
                            return Err(e);
                        },
                    };
                },
                ProgramMode::Incremental => {
                    let mut k: usize = 0;
                    while k < modifications.len()
                        invariant
                            total == program.all_modifications().len(),
                            modifications@ == stages@[s as int].modifications@,
                            k <= modifications@.len(),
                            modification_actions@.len() == total,
                            index == modifications_before(stages@, s as int) + k,
                            modifications_before(stages@, s + 1) == modifications_before(
                                stages@,
                                s as int,
                            ) + modifications@.len(),
                            modifications_before(stages@, s + 1) <= total,
                            snapshot.wf(),
                            language_first == (program.all_modifications().len() > 0
                                && program.all_modifications()[0] is Language),
                            language_first && modifications@.len() > 0 ==> modifications@[0] is Language,
                            language_first ==> k == 0 && index == 0,
                        decreases modifications.len() - k,
                    {
                        index = match self.evaluate_stage(
                            modifications,
                            k,
                            k + 1,
                            index,
                            &mut snapshot,
                            &mut modification_actions,
                        ) {
                            Ok(next) => next,
                            Err(e) => {
                                return Err(e);
                            },
                        };
                        k = k + 1;
                    }
                },
            }
            s = s + 1;
        }
        assert(stages@.subrange(0, stages@.len() as int) =~= stages@);
        let mut plans: Vec<ModificationPlan> = Vec::new();
        let mut k: usize = 0;
        while modification_actions.len() > 0
            invariant
                plans@.len() == k,
                k + modification_actions@.len() == total,
                forall|j: int| 0 <= j < k ==> #[trigger] plans@[j].spec_modification_index() == j,
            decreases modification_actions@.len(),
        {
            let actions = modification_actions.remove(0);
            plans.push(ModificationPlan::new(k, actions));
            k = k + 1;
        }
        Ok(EvaluationPlan::new(plans))
    }

    /// Evaluates a program and, unless this is a dry run, applies its plan.
    pub fn run(&self, program: &EditProgram, options: ExecutionOptions) -> (r: Result<
        EvaluationPlan,
        SmartEditError,
    >)
        ensures
            program.all_modifications().len() == 0 ==> r is Ok,
            program.all_modifications().len() > 0 && program.all_modifications()[0] is Language
                ==> r == Err::<EvaluationPlan, SmartEditError>(
                SmartEditError::UnsupportedLanguageModification,
            ),
            r matches Ok(plan) ==> {
                &&& plan.spec_modification_plans().len() == program.all_modifications().len()
                &&& forall|i: int|
                    0 <= i < plan.spec_modification_plans().len()
                        ==> #[trigger] plan.spec_modification_plans()[i].spec_modification_index()
                        == i
            },
    {
        let plan = self.evaluate(program)?;
        if options.dry_run {
            return Ok(plan);
        }
        self.apply_plan(&plan)?;
        Ok(plan)
    }

    /// Evaluates and applies a program.
    pub fn execute(&self, program: &EditProgram) -> (r: Result<(), SmartEditError>)
        ensures
            program.all_modifications().len() == 0 ==> r is Ok,
            program.all_modifications().len() > 0 && program.all_modifications()[0] is Language
                ==> r == Err::<(), SmartEditError>(SmartEditError::UnsupportedLanguageModification),
    {
        match self.run(program, ExecutionOptions::new(false)) {
            Ok(_) => Ok(()),
            Err(e) => Err(e),
        }
    }

    /// Applies the actions of a plan in order, stopping at the first failure; earlier actions
    /// are not undone.
    fn apply_plan(&self, plan: &EvaluationPlan) -> (r: Result<(), SmartEditError>)
        ensures
            flatten_plans(plan.spec_modification_plans()).len() == 0 ==> r is Ok,
            r matches Err(e) ==> exists|k: int|
                0 <= k < flatten_plans(plan.spec_modification_plans()).len() && action_failure(
                    #[trigger] flatten_plans(plan.spec_modification_plans())[k],
                    e,
                ),
    {
        let actions = plan.actions();
        let ghost all = flatten_plans(plan.spec_modification_plans());
        let mut k: usize = 0;
        while k < actions.len()
            invariant
                k <= actions@.len(),
                actions@.len() == all.len(),
                all == flatten_plans(plan.spec_modification_plans()),
                forall|i: int| 0 <= i < actions@.len() ==> *actions@[i] == all[i],
            decreases actions.len() - k,
        {
            let (applied, _) = self.apply_action(actions[k]);
            match applied {
                Ok(()) => {},
                Err(e) => {
                    assert(action_failure(all[k as int], e));
                    return Err(e);
                },
            }
            k = k + 1;
        }
        Ok(())
    }

    /// Makes one file-system call; a write writes `bytes`.
    fn perform(&self, call: &FsCall, bytes: &[u8]) -> Result<(), IoFailure> {
        match call {
            FsCall::CreateDirAll { path } => self.fs.create_dir_all(path.as_str()),
            FsCall::WriteBytes { path } => self.fs.write_bytes(path.as_str(), bytes),
            FsCall::CreateNewBytes { path } => self.fs.create_new_bytes(path.as_str(), bytes),
            FsCall::RemoveFile { path } => self.fs.remove_file(path.as_str()),
            FsCall::MoveFile { source, destination, overwrite } => self.fs.move_file(
                source.as_str(),
                destination.as_str(),
                *overwrite,
            ),
        }
    }

    /// Performs one action: makes the calls of `action_calls` in order (a write writes the
    /// action's bytes), stopping at the first that fails, whose failure `failure_error` turns
    /// into the result. `answers` are the file system's answers, in order.
    fn apply_action(&self, action: &PlannedAction) -> (result: (
        Result<(), SmartEditError>,
        Ghost<Seq<Result<(), IoFailure>>>,
    ))
        ensures
            result.0 matches Err(e) ==> action_failure(*action, e),
            applied(*action, result.1@, result.0),
    {
        let calls = action_calls(action);
        let empty: Vec<u8> = Vec::new();
        let bytes = match action {
            PlannedAction::WriteFile { bytes, .. } => bytes.as_slice(),
            _ => empty.as_slice(),
        };
        let ghost requests = action_requests(*action);
        let ghost mut answers: Seq<Result<(), IoFailure>> = Seq::empty();
        let mut k: usize = 0;
        while k < calls.len()
            invariant
                calls@.len() == requests.len(),
                requests == action_requests(*action),
                requests.len() <= 2,
                k <= calls@.len(),
                answers.len() == k,
                forall|j: int| 0 <= j < k ==> #[trigger] answers[j] is Ok,
            decreases calls.len() - k,
        {
            let answer = self.perform(&calls[k], bytes);
            proof {
                answers = answers.push(answer);
            }
            match answer {
                Ok(()) => {},
                Err(failure) => {
                    let at_parent = k == 0 && calls.len() == 2;
                    proof {
                        if at_parent {
                            assert(write_parent(*action) is Some);
                        }
                    }
                    let r = failure_error(action, at_parent, failure);
                    assert(answers.last() == Err::<(), IoFailure>(failure));
                    return (r, Ghost(answers));
                },
            }
            k = k + 1;
        }
        (Ok(()), Ghost(answers))
    }
}

} // verus!
