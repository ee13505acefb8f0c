//! Reads a markdown document of file-level edit commands (create, overwrite,
//! patch, delete, move) and resolves each command against the present content
//! of its file. Around that core stand the pure parts of the services of a
//! desktop shell: the backup store, the reading of what `git` prints, the
//! score of the file search, the registry of windows.
//!
//! Every function states its result over the mathematical value of its
//! arguments: a text is a sequence of characters, a file a sequence of bytes.

pub mod assoc;
pub mod backup;
pub mod cli_service;
pub mod encoding;
pub mod file_search_service;
pub mod fs_utils;
pub mod git_service;
pub mod parser;
pub mod patcher;
pub mod path_utils;
pub mod project_service;
pub mod review_service;
pub mod state;
pub mod text;
pub mod types;
pub mod window;
