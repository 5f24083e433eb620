//! Identity records (Qid, Stat, WalkResult), the capability markers and the
//! typed file handle.

use std::marker::PhantomData;
use std::time::SystemTime;
use vstd::prelude::*;

verus! {

/// Timestamps are carried through the library without being inspected.
#[verifier::external_type_specification]
#[verifier::external_body]
pub struct ExSystemTime(std::time::SystemTime);

/// Relies on `SystemTime`'s `Clone`, which copies the value (the type is `Copy`).
pub assume_specification[ <std::time::SystemTime as core::clone::Clone>::clone ](
    t: &std::time::SystemTime,
) -> (r: std::time::SystemTime)
    ensures
        r == *t,
;

/// Relies on `PhantomData`'s `Clone`, which returns the one value of the type.
pub assume_specification<T: core::marker::PointeeSized>[ <core::marker::PhantomData<T> as core::clone::Clone>::clone ](
    p: &core::marker::PhantomData<T>,
) -> (r: core::marker::PhantomData<T>)
    ensures
        r == *p,
;

/// Object kind marker: a regular file.
#[derive(Debug, Clone, Copy)]
pub struct File;

/// Object kind marker: a directory.
#[derive(Debug, Clone, Copy)]
pub struct Dir;

/// Access mode marker: reading only.
#[derive(Debug, Clone, Copy)]
pub struct ReadOnly;

/// Access mode marker: writing only.
#[derive(Debug, Clone, Copy)]
pub struct WriteOnly;

/// Access mode marker: reading and writing.
#[derive(Debug, Clone, Copy)]
pub struct ReadWrite;

/// Access modes that permit reading.
pub trait CanRead {}

impl CanRead for ReadOnly {}

impl CanRead for ReadWrite {}

/// Access modes that permit writing.
pub trait CanWrite {}

impl CanWrite for WriteOnly {}

impl CanWrite for ReadWrite {}

/// The two kinds of node in a namespace.
#[derive(Debug, Clone, Copy, PartialEq, Eq, Structural)]
pub enum NodeKind {
    File,
    Dir,
}

/// An object kind marker, which names at run time the kind it stands for.
pub trait ObjectKind {
    spec fn spec_kind() -> NodeKind;

    fn kind() -> (r: NodeKind)
        ensures
            r == Self::spec_kind(),
    ;
}

impl ObjectKind for File {
    open spec fn spec_kind() -> NodeKind {
        NodeKind::File
    }

    fn kind() -> (r: NodeKind) {
        NodeKind::File
    }
}

impl ObjectKind for Dir {
    open spec fn spec_kind() -> NodeKind {
        NodeKind::Dir
    }

    fn kind() -> (r: NodeKind) {
        NodeKind::Dir
    }
}

/// Type byte of a regular file.
pub const QTFILE: u8 = 0x00;

/// Type byte of a directory.
pub const QTDIR: u8 = 0x80;

/// Unique node identifier: a type byte, a version and a path identifier.
#[derive(Debug, Clone, Copy, PartialEq, Eq, Hash)]
pub struct Qid<T = ()> {
    pub ty: u8,
    pub version: u32,
    pub path: u64,
    pub _marker: PhantomData<T>,
}

impl<T> Qid<T> {
    /// A Qid for a regular file.
    pub fn new_file(path: u64, version: u32) -> (r: Self)
        ensures
            r.ty == QTFILE,
            r.version == version,
            r.path == path,
    {
        Qid { ty: QTFILE, version, path, _marker: PhantomData }
    }

    /// A Qid for a directory.
    pub fn new_dir(path: u64, version: u32) -> (r: Self)
        ensures
            r.ty == QTDIR,
            r.version == version,
            r.path == path,
    {
        Qid { ty: QTDIR, version, path, _marker: PhantomData }
    }
}

/// Result of a walk: one Qid per component that was descended.
#[derive(Debug, Clone)]
pub struct WalkResult {
    pub qids: Vec<Qid>,
}

/// Metadata of a node.
#[derive(Debug, Clone)]
pub struct Stat<T = ()> {
    pub qid: Qid<T>,
    pub name: String,
    pub size: u64,
    pub mode: u32,
    pub atime: SystemTime,
    pub mtime: SystemTime,
    pub uid: String,
    pub gid: String,
}

/// An opened node, typed by its object kind `T` and its access mode `M`.
#[derive(Debug, Clone)]
pub struct FileHandle<T = (), M = ()> {
    pub fid: u64,
    pub qid: Qid<T>,
    pub path: String,
    pub mode: u32,
    pub _marker: PhantomData<(T, M)>,
}

impl<T, M> FileHandle<T, M> {
    pub fn new(fid: u64, qid: Qid<T>, path: String, mode: u32) -> (r: Self)
        ensures
            r.fid == fid,
            r.qid == qid,
            r.path == path,
            r.mode == mode,
    {
        FileHandle { fid, qid, path, mode, _marker: PhantomData }
    }
}

} // verus!
