//! Filesystem backends.

pub mod memory;

pub use memory::{Node, NodeView, VfsMem};
