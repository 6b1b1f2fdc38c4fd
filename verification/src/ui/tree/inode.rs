//! What every node of a widget tree holds and offers.

use crate::coord::{IRect, Rect, U16Rect};
use vstd::prelude::*;

verus! {

/// The identity of a node: a number that its maker gives to no other node.
pub type InodeId = usize;

/// Why the tree refused an operation.
#[derive(Clone, Copy, Debug, PartialEq, Eq, Structural)]
pub enum TreeError {
    /// The node would lie outside the actual shape of its parent.
    Bounds,
    /// The tree holds no node of that identity, holds one already where a
    /// new one is to come in, or the operation is not for the node of that
    /// identity.
    InvalidId,
}

/// What every node of a tree holds.
#[derive(Clone, Copy, Debug, PartialEq, Eq, Structural)]
pub struct InodeBase {
    pub id: InodeId,
    pub depth: usize,
    pub zindex: usize,
    pub shape: IRect,
    pub actual_shape: U16Rect,
    pub enabled: bool,
    pub visible: bool,
}

/// What every widget offers to the tree that holds it.
pub trait Inodeable: Sized {
    /// What the node holds as a node.
    spec fn base(&self) -> InodeBase;

    /// The same widget, holding `base` as a node.
    spec fn with_base(&self, base: InodeBase) -> Self;

    /// A widget holds what it was given to hold, the last that it was given,
    /// and is itself when given what it holds.
    proof fn lemma_with_base(&self, a: InodeBase, b: InodeBase)
        ensures
            self.with_base(a).base() == a,
            self.with_base(a).with_base(b) == self.with_base(b),
            self.with_base(self.base()) == *self,
    ;

    fn id(&self) -> (id: InodeId)
        ensures
            id == self.base().id,
    ;

    /// Names the node. A tree keeps the identity that a node comes with.
    fn set_id(&mut self, id: InodeId)
        ensures
            final(self).base() == (InodeBase { id, ..old(self).base() }),
            *final(self) == old(self).with_base(final(self).base()),
    ;

    fn depth(&self) -> (depth: &usize)
        ensures
            *depth == self.base().depth,
    ;

    fn set_depth(&mut self, depth: usize)
        ensures
            final(self).base() == (InodeBase { depth, ..old(self).base() }),
            *final(self) == old(self).with_base(final(self).base()),
    ;

    fn zindex(&self) -> (zindex: &usize)
        ensures
            *zindex == self.base().zindex,
    ;

    fn set_zindex(&mut self, zindex: usize)
        ensures
            final(self).base() == (InodeBase { zindex, ..old(self).base() }),
            *final(self) == old(self).with_base(final(self).base()),
    ;

    fn shape(&self) -> (shape: &IRect)
        ensures
            *shape == self.base().shape,
    ;

    fn set_shape(&mut self, shape: &IRect)
        ensures
            final(self).base() == (InodeBase { shape: *shape, ..old(self).base() }),
            *final(self) == old(self).with_base(final(self).base()),
    ;

    fn actual_shape(&self) -> (actual_shape: &U16Rect)
        ensures
            *actual_shape == self.base().actual_shape,
    ;

    fn set_actual_shape(&mut self, actual_shape: &U16Rect)
        ensures
            final(self).base() == (InodeBase { actual_shape: *actual_shape, ..old(self).base() }),
            *final(self) == old(self).with_base(final(self).base()),
    ;

    fn enabled(&self) -> (enabled: &bool)
        ensures
            *enabled == self.base().enabled,
    ;

    fn set_enabled(&mut self, enabled: bool)
        ensures
            final(self).base() == (InodeBase { enabled, ..old(self).base() }),
            *final(self) == old(self).with_base(final(self).base()),
    ;

    fn visible(&self) -> (visible: &bool)
        ensures
            *visible == self.base().visible,
    ;

    fn set_visible(&mut self, visible: bool)
        ensures
            final(self).base() == (InodeBase { visible, ..old(self).base() }),
            *final(self) == old(self).with_base(final(self).base()),
    ;
}

impl InodeBase {
    /// A node of the given identity and logical shape that no tree holds
    /// yet: enabled, visible, at depth 0 and z-index 0, its actual shape the
    /// part of the logical shape that the terminal grid can address.
    pub fn new(shape: IRect, id: InodeId) -> (base: Self)
        ensures
            base.id == id,
            base.depth == 0,
            base.zindex == 0,
            base.shape == shape,
            base.actual_shape@ == shape@.intersect(Rect::plane()),
            base.enabled,
            base.visible,
            shape@.wf(),
    {
        InodeBase {
            id,
            depth: 0,
            zindex: 0,
            shape,
            actual_shape: shape.clip_to_plane(),
            enabled: true,
            visible: true,
        }
    }
}

impl Inodeable for InodeBase {
    open spec fn base(&self) -> InodeBase {
        *self
    }

    open spec fn with_base(&self, base: InodeBase) -> Self {
        base
    }

    proof fn lemma_with_base(&self, a: InodeBase, b: InodeBase) {
    }

    fn id(&self) -> (id: InodeId) {
        self.id
    }

    fn set_id(&mut self, id: InodeId) {
        self.id = id;
    }

    fn depth(&self) -> (depth: &usize) {
        &self.depth
    }

    fn set_depth(&mut self, depth: usize) {
        self.depth = depth;
    }

    fn zindex(&self) -> (zindex: &usize) {
        &self.zindex
    }

    fn set_zindex(&mut self, zindex: usize) {
        self.zindex = zindex;
    }

    fn shape(&self) -> (shape: &IRect) {
        &self.shape
    }

    fn set_shape(&mut self, shape: &IRect) {
        self.shape = *shape;
    }

    fn actual_shape(&self) -> (actual_shape: &U16Rect) {
        &self.actual_shape
    }

    fn set_actual_shape(&mut self, actual_shape: &U16Rect) {
        self.actual_shape = *actual_shape;
    }

    fn enabled(&self) -> (enabled: &bool) {
        &self.enabled
    }

    fn set_enabled(&mut self, enabled: bool) {
        self.enabled = enabled;
    }

    fn visible(&self) -> (visible: &bool) {
        &self.visible
    }

    fn set_visible(&mut self, visible: bool) {
        self.visible = visible;
    }
}

} // verus!
