//! The content of a window: the part that shows the buffer.

use crate::coord::{IRect, Rect, U16Rect};
use crate::ui::canvas::Canvas;
use crate::ui::tree::{InodeBase, InodeId, Inodeable};
use crate::ui::widget::window::viewport::Viewport;
use crate::ui::widget::Widgetable;
use vstd::prelude::*;

verus! {

/// The part of a window that shows the lines of the buffer. It holds the
/// viewport and draws the cells that the viewport keeps.
#[derive(Clone)]
pub struct WindowContent {
    pub base: InodeBase,
    pub viewport: Viewport,
}

impl WindowContent {
    /// A content widget of the given identity and logical shape that shows
    /// `viewport` and that no tree holds yet.
    pub fn new(shape: IRect, id: InodeId, viewport: Viewport) -> (content: Self)
        ensures
            content.base.id == id,
            content.base.depth == 0,
            content.base.zindex == 0,
            content.base.shape == shape,
            content.base.actual_shape@ == shape@.intersect(Rect::plane()),
            content.base.enabled,
            content.base.visible,
            content.viewport == viewport,
            shape@.wf(),
    {
        WindowContent { base: InodeBase::new(shape, id), viewport }
    }

    /// The viewport that the content shows.
    pub fn viewport(&self) -> (viewport: &Viewport)
        ensures
            *viewport == self.viewport,
    {
        &self.viewport
    }
}

impl Widgetable for WindowContent {
    /// The content shows the cells that its viewport keeps.
    open spec fn image(&self) -> Seq<Seq<char>> {
        self.viewport.spec_cells()
    }

    fn draw(&self, canvas: &mut Canvas) {
        canvas.blit(&self.base.actual_shape, self.viewport.cells());
    }
}

impl Inodeable for WindowContent {
    open spec fn base(&self) -> InodeBase {
        self.base
    }

    open spec fn with_base(&self, base: InodeBase) -> Self {
        WindowContent { base, viewport: self.viewport }
    }

    proof fn lemma_with_base(&self, a: InodeBase, b: InodeBase) {
    }

    fn id(&self) -> (id: InodeId) {
        self.base.id
    }

    fn set_id(&mut self, id: InodeId) {
        self.base.id = id;
    }

    fn depth(&self) -> (depth: &usize) {
        &self.base.depth
    }

    fn set_depth(&mut self, depth: usize) {
        self.base.depth = depth;
    }

    fn zindex(&self) -> (zindex: &usize) {
        &self.base.zindex
    }

    fn set_zindex(&mut self, zindex: usize) {
        self.base.zindex = zindex;
    }

    fn shape(&self) -> (shape: &IRect) {
        &self.base.shape
    }

    fn set_shape(&mut self, shape: &IRect) {
        self.base.shape = *shape;
    }

    fn actual_shape(&self) -> (actual_shape: &U16Rect) {
        &self.base.actual_shape
    }

    fn set_actual_shape(&mut self, actual_shape: &U16Rect) {
        self.base.actual_shape = *actual_shape;
    }

    fn enabled(&self) -> (enabled: &bool) {
        &self.base.enabled
    }

    fn set_enabled(&mut self, enabled: bool) {
        self.base.enabled = enabled;
    }

    fn visible(&self) -> (visible: &bool) {
        &self.base.visible
    }

    fn set_visible(&mut self, visible: bool) {
        self.base.visible = visible;
    }
}

} // verus!
