//! An in-memory virtual filesystem: a tree of file and directory nodes held
//! in an arena, a mount table that composes several filesystem instances into
//! one namespace by longest-prefix path dispatch, and a working-directory
//! context for resolving relative paths.

use vstd::prelude::*;

pub mod dir_entries;
pub mod early_alloc;
pub mod fs_api;
pub mod laws;
pub mod path_util;
pub mod ramfs;
pub mod root_dir;

verus! {

/// Error taxonomy surfaced by every filesystem operation.
#[derive(Clone, Copy, PartialEq, Eq, Structural, Debug)]
pub enum VfsError {
    NotFound,
    AlreadyExists,
    DirectoryNotEmpty,
    NotADirectory,
    IsADirectory,
    PermissionDenied,
    InvalidInput,
    Unsupported,
}

/// The two node variants of the tree.
#[derive(Clone, Copy, PartialEq, Eq, Structural, Debug)]
pub enum NodeKind {
    File,
    Dir,
}

/// Owner permission bits of a node.
#[derive(Clone, Copy, PartialEq, Eq, Structural, Debug)]
pub struct NodePerm {
    pub readable: bool,
    pub writable: bool,
    pub executable: bool,
}

impl NodePerm {
    /// The default permission of a regular file: owner can read and write.
    pub fn default_file() -> (r: NodePerm)
        ensures
            r == spec_file_perm(),
    {
        NodePerm { readable: true, writable: true, executable: false }
    }

    /// The default permission of a directory: owner can read, write and
    /// traverse.
    pub fn default_dir() -> (r: NodePerm)
        ensures
            r == spec_dir_perm(),
    {
        NodePerm { readable: true, writable: true, executable: true }
    }
}

pub open spec fn spec_file_perm() -> NodePerm {
    NodePerm { readable: true, writable: true, executable: false }
}

pub open spec fn spec_dir_perm() -> NodePerm {
    NodePerm { readable: true, writable: true, executable: true }
}

/// The attributes record every node exposes: type tag, size and owner
/// permission bits.
#[derive(Clone, Copy, PartialEq, Eq, Structural, Debug)]
pub struct Attributes {
    pub kind: NodeKind,
    pub size: u64,
    pub perm: NodePerm,
}

impl Attributes {
    pub fn is_dir(&self) -> (r: bool)
        ensures
            r == (self.kind == NodeKind::Dir),
    {
        match self.kind {
            NodeKind::Dir => true,
            NodeKind::File => false,
        }
    }
}

} // verus!
