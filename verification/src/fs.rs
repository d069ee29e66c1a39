//! The file system that plans are evaluated against and applied to.
use vstd::prelude::*;

verus! {

/// What kind of failure an I/O operation met.
#[derive(Debug, Clone, Copy, PartialEq, Eq, Structural)]
pub enum IoErrorKind {
    NotFound,
    AlreadyExists,
    Other,
}

/// A failed I/O operation: its kind and the system's message.
#[derive(Debug, Clone, PartialEq, Eq)]
pub struct IoFailure {
    pub kind: IoErrorKind,
    pub message: String,
}

/// File-system operations used during planning and execution. Paths are written with `/` as
/// their separator.
///
/// Implementations must make `create_new_bytes` and non-overwriting `move_file` fail with
/// `IoErrorKind::AlreadyExists` when the destination entry already exists. `list_files` gives
/// the files below `root` (only its direct children unless `recursive`), each path starting
/// with `root`, in ascending order. `entry_path_identity` names the directory entry that a path
/// denotes and `content_path_identity` the file whose contents it reaches (after following a
/// final symbolic link); two spellings of one entry must give one identity.
/// `same_content_file` tells whether two paths reach the contents of one file (hard links, or
/// symbolic links to one file); a path that does not exist fails with `IoErrorKind::NotFound`.
pub trait FileSystem {
    fn create_dir_all(&self, path: &str) -> Result<(), IoFailure>;

    fn write_bytes(&self, path: &str, contents: &[u8]) -> Result<(), IoFailure>;

    /// Creates and writes a new file without replacing an existing directory entry.
    fn create_new_bytes(&self, path: &str, contents: &[u8]) -> Result<(), IoFailure>;

    fn read_bytes(&self, path: &str) -> Result<Vec<u8>, IoFailure>;

    fn remove_file(&self, path: &str) -> Result<(), IoFailure>;

    /// Moves one file entry, replacing the destination only when `overwrite` is true.
    fn move_file(&self, source: &str, destination: &str, overwrite: bool) -> Result<(), IoFailure>;

    fn path_exists(&self, path: &str) -> Result<bool, IoFailure>;

    fn is_file(&self, path: &str) -> Result<bool, IoFailure>;

    fn is_dir(&self, path: &str) -> Result<bool, IoFailure>;

    fn list_files(&self, root: &str, recursive: bool) -> Result<Vec<String>, IoFailure>;

    fn entry_path_identity(&self, path: &str) -> String;

    fn content_path_identity(&self, path: &str) -> String;

    fn same_content_file(&self, left: &str, right: &str) -> Result<bool, IoFailure>;
}

} // verus!
