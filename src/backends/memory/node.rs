//! Nodes of the in-memory namespace.

use crate::types::NodeKind;
use std::time::SystemTime;
use vstd::prelude::*;

verus! {

/// Relies on `SystemTime::now`: the current wall-clock time. Nothing is
/// assumed of the value.
#[verifier::external_body]
pub(crate) fn now() -> (r: SystemTime) {
    SystemTime::now()
}

/// A node as the contracts see it: a file's bytes, timestamp and version, or
/// a directory's timestamp.
pub enum NodeView {
    File { data: Seq<u8>, mtime: SystemTime, version: u32 },
    Dir { mtime: SystemTime },
}

impl NodeView {
    pub open spec fn kind(self) -> NodeKind {
        match self {
            NodeView::File { .. } => NodeKind::File,
            NodeView::Dir { .. } => NodeKind::Dir,
        }
    }

    /// Length in bytes; 0 for a directory.
    pub open spec fn size(self) -> nat {
        match self {
            NodeView::File { data, .. } => data.len(),
            NodeView::Dir { .. } => 0,
        }
    }

    /// The write counter; 0 for a directory.
    pub open spec fn version(self) -> u32 {
        match self {
            NodeView::File { version, .. } => version,
            NodeView::Dir { .. } => 0,
        }
    }

    pub open spec fn mtime(self) -> SystemTime {
        match self {
            NodeView::File { mtime, .. } => mtime,
            NodeView::Dir { mtime } => mtime,
        }
    }

    /// Whether this is a node of kind `k` as `create` makes it: an empty
    /// file at version 0, or a directory.
    pub open spec fn is_fresh(self, k: NodeKind) -> bool {
        &&& self.kind() == k
        &&& self.size() == 0
        &&& self.version() == 0
    }
}

/// A file with its bytes, or a directory.
pub enum Node {
    File { data: Vec<u8>, mtime: SystemTime, version: u32 },
    Dir { mtime: SystemTime },
}

impl View for Node {
    type V = NodeView;

    open spec fn view(&self) -> NodeView {
        match self {
            Node::File { data, mtime, version } => NodeView::File {
                data: data@,
                mtime: *mtime,
                version: *version,
            },
            Node::Dir { mtime } => NodeView::Dir { mtime: *mtime },
        }
    }
}

impl Node {
    /// An empty file at version 0, stamped with the current time.
    pub fn new_file() -> (r: Self)
        ensures
            r@.is_fresh(NodeKind::File),
    {
        Node::File { data: Vec::new(), mtime: now(), version: 0 }
    }

    /// A directory stamped with the current time.
    pub fn new_dir() -> (r: Self)
        ensures
            r@.is_fresh(NodeKind::Dir),
    {
        Node::Dir { mtime: now() }
    }

    pub fn is_file(&self) -> (r: bool)
        ensures
            r == (self@.kind() == NodeKind::File),
    {
        matches!(self, Node::File { .. })
    }

    pub fn is_dir(&self) -> (r: bool)
        ensures
            r == (self@.kind() == NodeKind::Dir),
    {
        matches!(self, Node::Dir { .. })
    }

    /// The modification time.
    pub fn mtime(&self) -> (r: SystemTime)
        ensures
            r == self@.mtime(),
    {
        match self {
            Node::File { mtime, .. } => *mtime,
            Node::Dir { mtime } => *mtime,
        }
    }

    /// Size in bytes; 0 for a directory.
    pub fn size(&self) -> (r: u64)
        ensures
            r as nat == self@.size(),
    {
        match self {
            Node::File { data, .. } => data.len() as u64,
            Node::Dir { .. } => 0,
        }
    }

    /// The write counter; 0 for a directory.
    pub fn version(&self) -> (r: u32)
        ensures
            r == self@.version(),
    {
        match self {
            Node::File { version, .. } => *version,
            Node::Dir { .. } => 0,
        }
    }
}

} // verus!
