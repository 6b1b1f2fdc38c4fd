//! The widgets of the editor.

use crate::ui::canvas::{paint, Canvas};
use crate::ui::tree::Inodeable;
use vstd::prelude::*;

pub mod root;
pub mod window;

verus! {

/// A widget that draws itself from what it holds alone.
pub trait Widgetable: Inodeable {
    /// What the widget shows: rows of cells, to be drawn from the top left
    /// corner of its actual shape on.
    spec fn image(&self) -> Seq<Seq<char>>;

    /// Draws the widget on the canvas: the cells inside its actual shape
    /// take what the widget shows, and no other cell changes.
    fn draw(&self, canvas: &mut Canvas)
        requires
            old(canvas).wf(),
        ensures
            final(canvas).wf(),
            final(canvas).spec_size() == old(canvas).spec_size(),
            final(canvas)@ == paint(old(canvas)@, self.base().actual_shape@, self.image()),
    ;
}

} // verus!
