//! Sorting newly created files into per-extension destination directories.
//!
//! The crate holds the decision logic of a directory-watching agent as
//! verified components without side effects. The caller does the watching,
//! the waiting and the file operations, and feeds what it sees back in:
//!
//! - [`path`]: the final component and the extension of a path;
//! - [`classifier`]: the table from extension to destination directory;
//! - [`debounce`]: one settled event per burst of raw notifications;
//! - [`relocation`]: the requests and decisions that move one file;
//! - [`control`]: the life cycle from start-up to the stop;
//! - [`filesystem`]: a model of the file system, and the laws of a
//!   relocation carried out on it.

pub mod classifier;
pub mod control;
pub mod debounce;
pub mod filesystem;
pub mod path;
pub mod relocation;
