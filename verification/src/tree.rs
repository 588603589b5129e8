//! A snapshot of a folder as read from the disk: each entry has its name
//! and its kind, and a folder holds its own listing (or the error met
//! while reading it).
use vstd::prelude::*;

verus! {

/// The deepest level a walk of a project descends to.
pub const MAX_TREE_DEPTH: usize = 12;

/// What an entry of a folder is.
#[derive(Debug)]
pub enum EntryKind {
    /// A folder, with its entries, or the error met while listing it.
    Dir(Result<Vec<TreeEntry>, String>),
    /// A regular file.
    File,
    /// A symbolic link (never followed).
    Symlink,
    /// Anything else (a socket, a device).
    Other,
    /// An entry whose kind could not be read, with the error.
    Failed(String),
}

/// An entry of a folder.
#[derive(Debug)]
pub struct TreeEntry {
    pub name: String,
    pub kind: EntryKind,
}

/// Whether an entry is ordered among the files: files, and entries whose
/// kind could not be read.
pub open spec fn counts_as_file(e: TreeEntry) -> bool {
    e.kind is File || e.kind is Failed
}

} // verus!
