//! Rendering core of a terminal text editor: clipped widget geometry, an
//! indexed widget tree, and the viewport layout engine that maps buffer lines
//! to screen rows.

pub mod buf;
pub mod coord;
pub mod ui;
