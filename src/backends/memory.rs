//! The in-memory backend.

mod fs;
pub mod model;
mod node;

pub use fs::VfsMem;
pub use node::{Node, NodeView};
