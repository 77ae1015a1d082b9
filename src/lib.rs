//! An in-memory hierarchical namespace: inode allocation, a path index,
//! a directory tree and per-entry attributes, kept mutually consistent.
use vstd::prelude::*;

pub mod daniel;
pub mod error;
pub mod file_types;
pub mod metadata;

pub use daniel::{Daniel, DirSlot};
pub use error::FsError;
pub use file_types::{DirEntry, DirList, Directory, DirectoryInodes, EntryType, File, NodeKind};
pub use metadata::{
    permission_bits, Attr, FileAttribute, Inode, InodeMapper, TimeOrNow, Timestamp, NANOS_PER_SEC,
    ROOT_INODE,
};

verus! {

} // verus!
