//! Widgets, the tree that composes them, and the grid they draw on.

pub mod canvas;
pub mod tree;
pub mod widget;
