//! The root container of a window.

use crate::coord::{IRect, Rect, U16Rect};
use crate::ui::canvas::{lemma_paint_nothing, Canvas};
use crate::ui::tree::{InodeBase, InodeId, Inodeable};
use crate::ui::widget::Widgetable;
use vstd::prelude::*;

verus! {

/// The root of the tree of one window: it holds the parts of the window and
/// shows nothing.
#[derive(Debug, Clone, Copy)]
pub struct WindowRootContainer {
    pub base: InodeBase,
}

impl WindowRootContainer {
    /// A container of the given identity and logical shape that no tree holds yet.
    pub fn new(shape: IRect, id: InodeId) -> (container: Self)
        ensures
            container.base.id == id,
            container.base.depth == 0,
            container.base.zindex == 0,
            container.base.shape == shape,
            container.base.actual_shape@ == shape@.intersect(Rect::plane()),
            container.base.enabled,
            container.base.visible,
            shape@.wf(),
    {
        WindowRootContainer { base: InodeBase::new(shape, id) }
    }
}

impl Inodeable for WindowRootContainer {
    open spec fn base(&self) -> InodeBase {
        self.base
    }

    open spec fn with_base(&self, base: InodeBase) -> Self {
        WindowRootContainer { base }
    }

    proof fn lemma_with_base(&self, a: InodeBase, b: InodeBase) {
    }

    fn id(&self) -> (id: InodeId) {
        self.base.id
    }

    fn set_id(&mut self, id: InodeId) {
        self.base.id = id;
    }

    fn depth(&self) -> (depth: &usize) {
        &self.base.depth
    }

    fn set_depth(&mut self, depth: usize) {
        self.base.depth = depth;
    }

    fn zindex(&self) -> (zindex: &usize) {
        &self.base.zindex
    }

    fn set_zindex(&mut self, zindex: usize) {
        self.base.zindex = zindex;
    }

    fn shape(&self) -> (shape: &IRect) {
        &self.base.shape
    }

    fn set_shape(&mut self, shape: &IRect) {
        self.base.shape = *shape;
    }

    fn actual_shape(&self) -> (actual_shape: &U16Rect) {
        &self.base.actual_shape
    }

    fn set_actual_shape(&mut self, actual_shape: &U16Rect) {
        self.base.actual_shape = *actual_shape;
    }

    fn enabled(&self) -> (enabled: &bool) {
        &self.base.enabled
    }

    fn set_enabled(&mut self, enabled: bool) {
        self.base.enabled = enabled;
    }

    fn visible(&self) -> (visible: &bool) {
        &self.base.visible
    }

    fn set_visible(&mut self, visible: bool) {
        self.base.visible = visible;
    }
}

impl Widgetable for WindowRootContainer {
    /// A container shows nothing of its own.
    open spec fn image(&self) -> Seq<Seq<char>> {
        Seq::empty()
    }

    /// The canvas stays as it is.
    fn draw(&self, canvas: &mut Canvas) {
        proof {
            lemma_paint_nothing(canvas@, self.base.actual_shape@);
        }
    }
}

} // verus!
