//! The values that the services hand to their callers.

use vstd::prelude::*;

verus! {

/// A file or a directory in a project tree.
#[derive(Debug)]
pub struct FileNode {
    pub path: String,
    pub name: String,
    pub children: Option<Vec<FileNode>>,
    pub is_directory: bool,
}

/// The resolved result for one target path, ready to be applied.
#[derive(Debug, PartialEq, Clone)]
pub enum ChangeOperation {
    Patch {
        file_path: String,
        content: String,
        is_new_file: bool,
        total_blocks: usize,
        applied_blocks: usize,
    },
    Overwrite { file_path: String, content: String, is_new_file: bool },
    Delete { file_path: String },
    Move { from_path: String, to_path: String },
}

/// The mathematical value of a `ChangeOperation`.
pub enum Change {
    Patch {
        file_path: Seq<char>,
        content: Seq<char>,
        is_new_file: bool,
        total_blocks: nat,
        applied_blocks: nat,
    },
    Overwrite { file_path: Seq<char>, content: Seq<char>, is_new_file: bool },
    Delete { file_path: Seq<char> },
    Move { from_path: Seq<char>, to_path: Seq<char> },
}

impl View for ChangeOperation {
    type V = Change;

    open spec fn view(&self) -> Change {
        match self {
            ChangeOperation::Patch {
                file_path,
                content,
                is_new_file,
                total_blocks,
                applied_blocks,
            } => Change::Patch {
                file_path: file_path@,
                content: content@,
                is_new_file: *is_new_file,
                total_blocks: *total_blocks as nat,
                applied_blocks: *applied_blocks as nat,
            },
            ChangeOperation::Overwrite { file_path, content, is_new_file } => Change::Overwrite {
                file_path: file_path@,
                content: content@,
                is_new_file: *is_new_file,
            },
            ChangeOperation::Delete { file_path } => Change::Delete { file_path: file_path@ },
            ChangeOperation::Move { from_path, to_path } => Change::Move {
                from_path: from_path@,
                to_path: to_path@,
            },
        }
    }
}

/// The views of a vector of change operations.
pub open spec fn change_views(v: Seq<ChangeOperation>) -> Seq<Change> {
    Seq::new(v.len(), |i: int| v[i]@)
}

/// Whether a working tree has staged and unstaged changes.
#[derive(Debug, Clone, Copy, PartialEq, Eq)]
pub struct GitStatus {
    pub has_staged_changes: bool,
    pub has_unstaged_changes: bool,
}

/// One commit of a log.
#[derive(Debug, Clone, PartialEq, Eq)]
pub struct Commit {
    pub hash: String,
    pub message: String,
    pub author: String,
    pub date: String,
}

/// Which difference a caller asks for.
#[derive(Debug, Clone, PartialEq, Eq)]
pub enum DiffOption {
    Staged,
    Unstaged,
    Workspace,
    Commit { hash: String },
}

/// Whether the command-line launcher is installed.
#[derive(Debug, Clone, Copy, PartialEq, Eq)]
pub enum CliStatus {
    Installed,
    NotInstalled,
    Error,
}

/// The launcher's status, with the error where finding it out failed.
#[derive(Debug, Clone)]
pub struct CliStatusResult {
    pub status: CliStatus,
    pub error: Option<String>,
}

/// What installing the launcher reports.
#[derive(Debug, Clone)]
pub struct CliInstallResult {
    pub message: String,
}

/// One event of a running command.
#[derive(Debug, Clone)]
pub enum CommandStreamEvent {
    Stdout(Vec<u8>),
    Stderr(Vec<u8>),
    Error(String),
    Finish(String),
}

/// Which files a walk of the project leaves out.
#[derive(Debug, Clone)]
pub struct IgnoreSettings {
    pub respect_gitignore: bool,
    pub custom_ignore_patterns: String,
}

/// One hit of a file search.
#[derive(Debug, Clone)]
pub struct SearchResult {
    pub path: String,
    pub relative_path: String,
    pub name: String,
    pub parent_dir: String,
    pub score: i32,
    pub is_directory: bool,
}

} // verus!
