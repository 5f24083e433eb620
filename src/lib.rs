//! An in-memory virtual filesystem with a 9P-style object model.

pub mod backends;
pub mod error;
pub mod path;
pub mod types;

pub use error::{VfsError, VfsResult};
pub use types::{
    CanRead, CanWrite, Dir, File, FileHandle, NodeKind, ObjectKind, Qid, ReadOnly, ReadWrite, Stat,
    WalkResult, WriteOnly,
};
