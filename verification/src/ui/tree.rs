//! The indexed widget tree: what a node is, and the tree that holds nodes.

pub mod inode;
pub mod itree;
pub mod order;

pub use inode::{InodeBase, InodeId, Inodeable, TreeError};
pub use itree::{child_depth, draws_before, DrawKey, Itree};
