//! The window: a view of one buffer. It holds the tree of its parts and the
//! options of its display; its content holds the viewport that maps the
//! buffer to its rows.
//!
//! Drawing borrows the window shared and a change of options or of shape
//! borrows it exclusively, so the rows that are drawn are always those of one
//! complete layout. Every change makes the viewport anew at once: after any
//! call that takes the buffer the rows are the layout of the buffer, in the
//! state that it was handed over in, for the options and for the region that
//! the window has then. The window keeps no hold on the buffer.

use crate::buf::Buffer;
use crate::coord::{lemma_intersect_idempotent, IRect, Rect, U16Rect, U16Size};
use crate::ui::canvas::{lemma_paint_nothing, paint, Canvas};
use crate::ui::tree::{InodeBase, InodeId, Inodeable, Itree, TreeError};
use crate::ui::widget::window::content::WindowContent;
use crate::ui::widget::window::opt::{ViewportOptions, WindowLocalOptions};
use crate::ui::widget::window::root::WindowRootContainer;
use crate::ui::widget::window::viewport::Viewport;
use crate::ui::widget::Widgetable;
use vstd::prelude::*;

pub mod content;
pub mod opt;
pub mod root;
pub mod viewport;

verus! {

/// A part of a window.
#[derive(Clone)]
pub enum WindowNode {
    WindowRootContainer(WindowRootContainer),
    WindowContent(WindowContent),
}

impl Inodeable for WindowNode {
    open spec fn base(&self) -> InodeBase {
        match self {
            WindowNode::WindowRootContainer(node) => node.base,
            WindowNode::WindowContent(node) => node.base,
        }
    }

    open spec fn with_base(&self, base: InodeBase) -> Self {
        match self {
            WindowNode::WindowRootContainer(_) => WindowNode::WindowRootContainer(
                WindowRootContainer { base },
            ),
            WindowNode::WindowContent(content) => WindowNode::WindowContent(
                WindowContent { base, viewport: content.viewport },
            ),
        }
    }

    proof fn lemma_with_base(&self, a: InodeBase, b: InodeBase) {
    }

    fn id(&self) -> (id: InodeId) {
        match self {
            WindowNode::WindowRootContainer(node) => node.id(),
            WindowNode::WindowContent(node) => node.id(),
        }
    }

    fn set_id(&mut self, id: InodeId) {
        match self {
            WindowNode::WindowRootContainer(node) => node.set_id(id),
            WindowNode::WindowContent(node) => node.set_id(id),
        }
    }

    fn depth(&self) -> (depth: &usize) {
        match self {
            WindowNode::WindowRootContainer(node) => node.depth(),
            WindowNode::WindowContent(node) => node.depth(),
        }
    }

    fn set_depth(&mut self, depth: usize) {
        match self {
            WindowNode::WindowRootContainer(node) => node.set_depth(depth),
            WindowNode::WindowContent(node) => node.set_depth(depth),
        }
    }

    fn zindex(&self) -> (zindex: &usize) {
        match self {
            WindowNode::WindowRootContainer(node) => node.zindex(),
            WindowNode::WindowContent(node) => node.zindex(),
        }
    }

    fn set_zindex(&mut self, zindex: usize) {
        match self {
            WindowNode::WindowRootContainer(node) => node.set_zindex(zindex),
            WindowNode::WindowContent(node) => node.set_zindex(zindex),
        }
    }

    fn shape(&self) -> (shape: &IRect) {
        match self {
            WindowNode::WindowRootContainer(node) => node.shape(),
            WindowNode::WindowContent(node) => node.shape(),
        }
    }

    fn set_shape(&mut self, shape: &IRect) {
        match self {
            WindowNode::WindowRootContainer(node) => node.set_shape(shape),
            WindowNode::WindowContent(node) => node.set_shape(shape),
        }
    }

    fn actual_shape(&self) -> (actual_shape: &U16Rect) {
        match self {
            WindowNode::WindowRootContainer(node) => node.actual_shape(),
            WindowNode::WindowContent(node) => node.actual_shape(),
        }
    }

    fn set_actual_shape(&mut self, actual_shape: &U16Rect) {
        match self {
            WindowNode::WindowRootContainer(node) => node.set_actual_shape(actual_shape),
            WindowNode::WindowContent(node) => node.set_actual_shape(actual_shape),
        }
    }

    fn enabled(&self) -> (enabled: &bool) {
        match self {
            WindowNode::WindowRootContainer(node) => node.enabled(),
            WindowNode::WindowContent(node) => node.enabled(),
        }
    }

    fn set_enabled(&mut self, enabled: bool) {
        match self {
            WindowNode::WindowRootContainer(node) => node.set_enabled(enabled),
            WindowNode::WindowContent(node) => node.set_enabled(enabled),
        }
    }

    fn visible(&self) -> (visible: &bool) {
        match self {
            WindowNode::WindowRootContainer(node) => node.visible(),
            WindowNode::WindowContent(node) => node.visible(),
        }
    }

    fn set_visible(&mut self, visible: bool) {
        match self {
            WindowNode::WindowRootContainer(node) => node.set_visible(visible),
            WindowNode::WindowContent(node) => node.set_visible(visible),
        }
    }
}


impl Widgetable for WindowNode {
    /// A part shows what the widget that it is shows.
    open spec fn image(&self) -> Seq<Seq<char>> {
        match self {
            WindowNode::WindowRootContainer(node) => node.image(),
            WindowNode::WindowContent(node) => node.image(),
        }
    }

    fn draw(&self, canvas: &mut Canvas) {
        match self {
            WindowNode::WindowRootContainer(node) => node.draw(canvas),
            WindowNode::WindowContent(node) => node.draw(canvas),
        }
    }
}

/// The viewport that a part of a window holds, if it is the content.
pub open spec fn viewport_of(node: WindowNode) -> Viewport {
    match node {
        WindowNode::WindowContent(content) => content.viewport,
        WindowNode::WindowRootContainer(_) => arbitrary(),
    }
}

/// A window on one buffer. `B` is the handle by which the owner of the
/// window reaches the buffer; the window keeps the handle and never looks
/// behind it, so it is for the owner to say how long the buffer lives. The
/// owner hands the buffer itself to each call that lays it out.
#[derive(Clone)]
pub struct Window<B> {
    base: Itree<WindowNode>,
    content_id: InodeId,
    buffer: B,
    options: WindowLocalOptions,
}

impl<B> Window<B> {
    /// The tree of the parts of the window.
    pub closed spec fn spec_tree(&self) -> Itree<WindowNode> {
        self.base
    }

    /// The identity of the content in the tree.
    pub closed spec fn spec_content_id(&self) -> InodeId {
        self.content_id
    }

    /// The handle on the buffer.
    pub closed spec fn spec_buffer(&self) -> B {
        self.buffer
    }

    pub closed spec fn spec_options(&self) -> WindowLocalOptions {
        self.options
    }

    /// The viewport of the window: the one that its content holds.
    pub open spec fn spec_viewport(&self) -> Viewport {
        viewport_of(self.spec_tree().spec_node(1))
    }

    /// What the window holds as a node: what its root container holds.
    pub open spec fn spec_base(&self) -> InodeBase {
        self.spec_tree().spec_base(0)
    }

    /// What the content of the window holds as a node.
    pub open spec fn spec_content(&self) -> InodeBase {
        self.spec_tree().spec_base(1)
    }

    /// The tree is sound and holds the root container with the content as
    /// its only child.
    pub open spec fn wf_tree(&self) -> bool {
        &&& self.spec_tree().wf()
        &&& self.spec_tree().spec_len() == 2
        &&& self.spec_tree().contains(0)
        &&& self.spec_tree().contains(1)
        &&& self.spec_content_id() == self.spec_content().id
        &&& self.spec_tree().spec_node(0) is WindowRootContainer
        &&& self.spec_tree().spec_node(1) is WindowContent
        &&& self.spec_tree().spec_children(0) == seq![1usize]
        &&& self.spec_tree().spec_children(1) == Seq::<InodeId>::empty()
    }

    /// The viewport is a layout from the first line of a buffer on, for the
    /// options of the window, in a region of the size of the actual shape of
    /// the content.
    pub open spec fn wf_viewport(&self) -> bool {
        &&& self.spec_viewport().wf()
        &&& self.spec_viewport().spec_options() == ViewportOptions::of(self.spec_options())
        &&& self.spec_viewport().spec_start_line() == 0
        &&& self.spec_viewport().spec_size().spec_width() == self.spec_content().actual_shape@.width()
        &&& self.spec_viewport().spec_size().spec_height()
            == self.spec_content().actual_shape@.height()
    }

    pub open spec fn wf(&self) -> bool {
        self.wf_tree() && self.wf_viewport()
    }

    /// `post` has the handle, the root container and the content of `pre`,
    /// but for the viewport that the content holds.
    pub open spec fn same_parts(pre: Window<B>, post: Window<B>) -> bool {
        &&& post.spec_base() == pre.spec_base()
        &&& post.spec_content() == pre.spec_content()
        &&& post.spec_content_id() == pre.spec_content_id()
        &&& post.spec_buffer() == pre.spec_buffer()
    }

    /// `post` is `pre` but for what its root container holds as a node.
    pub open spec fn same_but_base(pre: Window<B>, post: Window<B>) -> bool {
        &&& post.spec_content() == pre.spec_content()
        &&& post.spec_content_id() == pre.spec_content_id()
        &&& post.spec_buffer() == pre.spec_buffer()
        &&& post.spec_options() == pre.spec_options()
        &&& post.spec_viewport() == pre.spec_viewport()
    }

    /// A window of the given logical shape on `buffer`, which its owner
    /// reaches by `handle`, its root container and its content of the given
    /// identities. The root container and the content both take the shape;
    /// the viewport is laid out for the actual shape that comes of it, with
    /// the edit cursor on the first character of the buffer. Refused are two
    /// identities that are one, and a shape that has no cell on the terminal
    /// grid.
    pub fn new(
        shape: IRect,
        handle: B,
        buffer: &Buffer,
        local_options: &WindowLocalOptions,
        root_id: InodeId,
        content_id: InodeId,
    ) -> (result: Result<Self, TreeError>)
        ensures
            match result {
                Ok(window) => {
                    &&& window.wf()
                    &&& root_id != content_id
                    &&& !shape@.intersect(Rect::plane()).is_empty()
                    &&& window.spec_options() == *local_options
                    &&& window.spec_buffer() == handle
                    &&& window.spec_viewport().shows(buffer)
                    &&& window.spec_viewport().spec_cursor() == (0usize, 0usize)
                    &&& window.spec_base().id == root_id
                    &&& window.spec_base().depth == 0
                    &&& window.spec_base().zindex == 0
                    &&& window.spec_base().shape == shape
                    &&& window.spec_base().actual_shape@ == shape@.intersect(Rect::plane())
                    &&& window.spec_base().enabled
                    &&& window.spec_base().visible
                    &&& window.spec_content_id() == content_id
                    &&& window.spec_content().id == content_id
                    &&& window.spec_content().depth == 1
                    &&& window.spec_content().zindex == 0
                    &&& window.spec_content().shape == shape
                    &&& window.spec_content().actual_shape@ == shape@.intersect(Rect::plane())
                    &&& window.spec_content().enabled
                    &&& window.spec_content().visible
                },
                Err(TreeError::InvalidId) => root_id == content_id,
                Err(TreeError::Bounds) => root_id != content_id && shape@.intersect(
                    Rect::plane(),
                ).is_empty(),
            },
    {
        if root_id == content_id {
            return Err(TreeError::InvalidId);
        }
        let options = *local_options;
        let window_root = WindowRootContainer::new(shape, root_id);
        let window_root_node = WindowNode::WindowRootContainer(window_root);
        let window_root_actual_shape: U16Rect = *window_root_node.actual_shape();
        let viewport_options = ViewportOptions { wrap: options.wrap(), line_break: options.line_break() };
        let viewport = Viewport::new(&viewport_options, buffer, &window_root_actual_shape);
        let mut base = Itree::new(window_root_node);
        let window_content = WindowContent::new(shape, content_id, viewport);
        let window_content_node = WindowNode::WindowContent(window_content);
        proof {
            lemma_intersect_idempotent(shape@, Rect::plane());
        }
        let ghost alone = base;
        match base.insert_at(0, window_content_node) {
            Ok(_) => {
                proof {
                    assert(base.spec_children(0) =~= seq![1usize]);
                    assert(base.contains(0) == alone.contains(0));
                    assert(base.spec_node(0) == alone.spec_node(0));
                    assert(base.clipped(1));
                }
                Ok(Window { base, content_id, buffer: handle, options })
            },
            Err(e) => Err(e),
        }
    }

    /// The viewport of the window.
    pub fn viewport(&self) -> (viewport: &Viewport)
        requires
            self.wf(),
        ensures
            *viewport == self.spec_viewport(),
    {
        match self.base.node_at(1) {
            Some(WindowNode::WindowContent(content)) => content.viewport(),
            _ => {
                proof {
                    assert(false);
                }
                vstd::pervasive::unreached()
            },
        }
    }

    /// Gives the content a new viewport.
    fn put_viewport(&mut self, viewport: Viewport)
        requires
            old(self).wf_tree(),
        ensures
            final(self).wf_tree(),
            final(self).spec_viewport() == viewport,
            Self::same_parts(*old(self), *final(self)),
            final(self).spec_options() == old(self).spec_options(),
    {
        let ghost before = self.base;
        match self.base.node_mut_at(1) {
            WindowNode::WindowContent(content) => {
                content.viewport = viewport;
            },
            WindowNode::WindowRootContainer(_) => {},
        }
        proof {
            Itree::lemma_same_wf(before, self.base, 1);
            assert(self.base.contains(0) == before.contains(0));
            assert(self.base.contains(1) == before.contains(1));
            assert(self.base.spec_children(0) == before.spec_children(0));
            assert(self.base.spec_children(1) == before.spec_children(1));
            assert(self.base.spec_node(0) == before.spec_node(0));
        }
    }

    /// Makes the viewport anew for the options and the shape that the window
    /// has, from the state that `buffer` is in.
    fn relayout(&mut self, buffer: &Buffer)
        requires
            old(self).wf_tree(),
        ensures
            final(self).wf(),
            final(self).spec_viewport().shows(buffer),
            final(self).spec_viewport().spec_cursor() == old(self).spec_viewport().spec_cursor(),
            Self::same_parts(*old(self), *final(self)),
            final(self).spec_options() == old(self).spec_options(),
    {
        let viewport_options = ViewportOptions::from(&self.options);
        let (size, cursor): (U16Size, (usize, usize)) = match self.base.node_at(1) {
            Some(WindowNode::WindowContent(content)) => (
                content.actual_shape().size(),
                content.viewport().cursor_position(),
            ),
            _ => {
                proof {
                    assert(false);
                }
                vstd::pervasive::unreached()
            },
        };
        let viewport = Viewport::build(&viewport_options, size, 0, cursor, buffer);
        self.put_viewport(viewport);
    }
}

impl<B> Window<B> {
    /// The identity of the window: that of its root container.
    pub fn id(&self) -> (id: InodeId)
        requires
            self.wf(),
        ensures
            id == self.spec_base().id,
            id != self.spec_content_id(),
    {
        self.base.root_id()
    }

    /// The depth of the window.
    pub fn depth(&self) -> (depth: &usize)
        requires
            self.wf(),
        ensures
            *depth == self.spec_base().depth,
    {
        self.base.node_at(0).unwrap().depth()
    }

    /// Sets the depth of the window.
    pub fn set_depth(&mut self, depth: usize)
        requires
            old(self).wf(),
        ensures
            final(self).wf(),
            Self::same_but_base(*old(self), *final(self)),
            final(self).spec_base() == (InodeBase { depth, ..old(self).spec_base() }),
    {
        let ghost before = self.base;
        let result = self.base.set_depth_at(0, depth);
        proof {
            assert(result is Ok);
            assert(self.base.contains(0) == before.contains(0));
            assert(self.base.contains(1) == before.contains(1));
            assert(self.base.spec_children(0) == before.spec_children(0));
            assert(self.base.spec_children(1) == before.spec_children(1));
            assert(self.base.spec_node(1) == before.spec_node(1));
        }
    }

    /// The z-index of the window.
    pub fn zindex(&self) -> (zindex: &usize)
        requires
            self.wf(),
        ensures
            *zindex == self.spec_base().zindex,
    {
        self.base.node_at(0).unwrap().zindex()
    }

    /// Sets the z-index of the window.
    pub fn set_zindex(&mut self, zindex: usize)
        requires
            old(self).wf(),
        ensures
            final(self).wf(),
            Self::same_but_base(*old(self), *final(self)),
            final(self).spec_base() == (InodeBase { zindex, ..old(self).spec_base() }),
    {
        let ghost before = self.base;
        let result = self.base.set_zindex_at(0, zindex);
        proof {
            assert(result is Ok);
            assert(self.base.contains(0) == before.contains(0));
            assert(self.base.contains(1) == before.contains(1));
            assert(self.base.spec_children(0) == before.spec_children(0));
            assert(self.base.spec_children(1) == before.spec_children(1));
            assert(self.base.spec_node(1) == before.spec_node(1));
        }
    }

    /// The logical shape of the window.
    pub fn shape(&self) -> (shape: &IRect)
        requires
            self.wf(),
        ensures
            *shape == self.spec_base().shape,
    {
        self.base.node_at(0).unwrap().shape()
    }

    /// Gives the window a new logical shape. The root container and the
    /// content both take it, and the viewport is made anew from `buffer` for
    /// the actual shape that comes of it. A shape that has no cell on the
    /// terminal grid is refused; the window then stays as it is.
    pub fn set_shape(&mut self, shape: &IRect, buffer: &Buffer) -> (result: Result<(), TreeError>)
        requires
            old(self).wf(),
        ensures
            final(self).wf(),
            match result {
                Ok(_) => {
                    &&& !shape@.intersect(Rect::plane()).is_empty()
                    &&& final(self).spec_base() == (InodeBase {
                        shape: *shape,
                        actual_shape: final(self).spec_base().actual_shape,
                        ..old(self).spec_base()
                    })
                    &&& final(self).spec_base().actual_shape@ == shape@.intersect(Rect::plane())
                    &&& final(self).spec_content() == (InodeBase {
                        shape: *shape,
                        actual_shape: final(self).spec_content().actual_shape,
                        ..old(self).spec_content()
                    })
                    &&& final(self).spec_content().actual_shape@ == shape@.intersect(Rect::plane())
                    &&& final(self).spec_content_id() == old(self).spec_content_id()
                    &&& final(self).spec_buffer() == old(self).spec_buffer()
                    &&& final(self).spec_options() == old(self).spec_options()
                    &&& final(self).spec_viewport().spec_cursor() == old(
                        self,
                    ).spec_viewport().spec_cursor()
                    &&& final(self).spec_viewport().shows(buffer)
                },
                Err(e) => {
                    &&& e == TreeError::Bounds
                    &&& shape@.intersect(Rect::plane()).is_empty()
                    &&& *final(self) == *old(self)
                },
            },
    {
        let actual: U16Rect = shape.clip_to_plane();
        if actual.is_empty() {
            return Err(TreeError::Bounds);
        }
        proof {
            lemma_intersect_idempotent(shape@, Rect::plane());
        }
        let ghost before = self.base;
        let rooted = self.base.set_shape_at(0, shape);
        let ghost mid = self.base;
        proof {
            assert(rooted is Ok);
            assert(mid.contains(0) == before.contains(0));
            assert(mid.contains(1) == before.contains(1));
            assert(mid.spec_children(0) == before.spec_children(0));
            assert(mid.spec_children(1) == before.spec_children(1));
            assert(mid.spec_parent(1) == before.spec_parent(1));
            assert(mid.spec_node(1) == before.spec_node(1).with_base(mid.spec_node(1).base()));
            assert(mid.spec_node(0) == before.spec_node(0).with_base(mid.spec_node(0).base()));
        }
        let filled = self.base.set_shape_at(1, shape);
        proof {
            assert(filled is Ok);
            assert(self.base.contains(0) == mid.contains(0));
            assert(self.base.contains(1) == mid.contains(1));
            assert(self.base.spec_children(0) == mid.spec_children(0));
            assert(self.base.spec_children(1) == mid.spec_children(1));
            assert(self.base.spec_parent(1) == mid.spec_parent(1));
            assert(self.base.spec_node(0) == mid.spec_node(0));
            assert(self.base.spec_node(1) == mid.spec_node(1).with_base(self.base.spec_node(1).base()));
            assert(self.base.clipped(1));
        }
        self.relayout(buffer);
        Ok(())
    }

    /// The actual shape of the window.
    pub fn actual_shape(&self) -> (actual_shape: &U16Rect)
        requires
            self.wf(),
        ensures
            *actual_shape == self.spec_base().actual_shape,
    {
        self.base.node_at(0).unwrap().actual_shape()
    }

    /// Gives the window a new actual shape, clips the content by it, and
    /// makes the viewport anew from `buffer` for what is left of the content.
    pub fn set_actual_shape(&mut self, actual_shape: &U16Rect, buffer: &Buffer)
        requires
            old(self).wf(),
        ensures
            final(self).wf(),
            final(self).spec_base() == (InodeBase {
                actual_shape: *actual_shape,
                ..old(self).spec_base()
            }),
            final(self).spec_content() == (InodeBase {
                actual_shape: final(self).spec_content().actual_shape,
                ..old(self).spec_content()
            }),
            final(self).spec_content().actual_shape@ == old(self).spec_content().shape@.intersect(
                actual_shape@,
            ),
            final(self).spec_content_id() == old(self).spec_content_id(),
            final(self).spec_buffer() == old(self).spec_buffer(),
            final(self).spec_options() == old(self).spec_options(),
            final(self).spec_viewport().spec_cursor() == old(self).spec_viewport().spec_cursor(),
            final(self).spec_viewport().shows(buffer),
    {
        let ghost before = self.base;
        self.base.set_actual_shape(actual_shape);
        proof {
            assert(self.base.contains(0) == before.contains(0));
            assert(self.base.contains(1) == before.contains(1));
            assert(self.base.spec_children(0) == before.spec_children(0));
            assert(self.base.spec_children(1) == before.spec_children(1));
            assert(self.base.spec_parent(1) == before.spec_parent(1));
            assert(self.base.spec_node(0) == before.spec_node(0).with_base(
                self.base.spec_node(0).base(),
            ));
            assert(self.base.spec_node(1) == before.spec_node(1).with_base(
                self.base.spec_node(1).base(),
            ));
            assert(self.base.clipped(1));
        }
        self.relayout(buffer);
    }

    /// Whether the window is enabled.
    pub fn enabled(&self) -> (enabled: &bool)
        requires
            self.wf(),
        ensures
            *enabled == self.spec_base().enabled,
    {
        self.base.node_at(0).unwrap().enabled()
    }

    /// Enables or disables the window.
    pub fn set_enabled(&mut self, enabled: bool)
        requires
            old(self).wf(),
        ensures
            final(self).wf(),
            Self::same_but_base(*old(self), *final(self)),
            final(self).spec_base() == (InodeBase { enabled, ..old(self).spec_base() }),
    {
        let ghost before = self.base;
        let result = self.base.set_enabled_at(0, enabled);
        proof {
            assert(result is Ok);
            assert(self.base.contains(0) == before.contains(0));
            assert(self.base.contains(1) == before.contains(1));
            assert(self.base.spec_children(0) == before.spec_children(0));
            assert(self.base.spec_children(1) == before.spec_children(1));
            assert(self.base.spec_node(1) == before.spec_node(1));
        }
    }

    /// Whether the window is visible.
    pub fn visible(&self) -> (visible: &bool)
        requires
            self.wf(),
        ensures
            *visible == self.spec_base().visible,
    {
        self.base.node_at(0).unwrap().visible()
    }

    /// Shows or hides the window.
    pub fn set_visible(&mut self, visible: bool)
        requires
            old(self).wf(),
        ensures
            final(self).wf(),
            Self::same_but_base(*old(self), *final(self)),
            final(self).spec_base() == (InodeBase { visible, ..old(self).spec_base() }),
    {
        let ghost before = self.base;
        let result = self.base.set_visible_at(0, visible);
        proof {
            assert(result is Ok);
            assert(self.base.contains(0) == before.contains(0));
            assert(self.base.contains(1) == before.contains(1));
            assert(self.base.spec_children(0) == before.spec_children(0));
            assert(self.base.spec_children(1) == before.spec_children(1));
            assert(self.base.spec_node(1) == before.spec_node(1));
        }
    }

    /// Draws the window: each part of it draws itself, in the order of
    /// drawing. The cells inside the actual shape of the content take the
    /// rows of the viewport; no other cell changes.
    pub fn draw(&self, canvas: &mut Canvas)
        requires
            self.wf(),
            old(canvas).wf(),
        ensures
            final(canvas).wf(),
            final(canvas).spec_size() == old(canvas).spec_size(),
            final(canvas)@ == paint(
                old(canvas)@,
                self.spec_content().actual_shape@,
                self.spec_viewport().spec_render(),
            ),
    {
        let order = self.base.draw_places();
        proof {
            assert(self.base.preorder_from(1, 0) == Seq::<InodeId>::empty());
            assert(self.base.preorder(1) =~= seq![1usize]);
            assert(self.base.preorder_from(0, 1) == Seq::<InodeId>::empty());
            assert(self.base.preorder_from(0, 0) =~= seq![1usize]);
            assert(self.base.preorder(0) =~= seq![0usize, 1usize]);
        }
        let ghost before = canvas@;
        let mut k: usize = 0;
        while k < order.len()
            invariant
                self.wf(),
                order@ == seq![0usize, 1usize],
                k <= 2,
                canvas.wf(),
                canvas.spec_size() == old(canvas).spec_size(),
                before == old(canvas)@,
                canvas@ == if k < 2 {
                    before
                } else {
                    paint(
                        before,
                        self.spec_content().actual_shape@,
                        self.spec_viewport().spec_render(),
                    )
                },
            decreases order@.len() - k,
        {
            proof {
                lemma_paint_nothing(canvas@, self.spec_base().actual_shape@);
            }
            match self.base.node_at(order[k]) {
                Some(node) => {
                    node.draw(canvas);
                },
                None => {},
            }
            k = k + 1;
        }
    }

    /// The options of the window.
    pub fn options(&self) -> (options: &WindowLocalOptions)
        ensures
            *options == self.spec_options(),
    {
        &self.options
    }

    /// Takes new options and makes the viewport anew for them from `buffer`.
    /// The root container and the content are not touched.
    pub fn set_options(&mut self, options: &WindowLocalOptions, buffer: &Buffer)
        requires
            old(self).wf(),
        ensures
            final(self).wf(),
            Self::same_parts(*old(self), *final(self)),
            final(self).spec_options() == *options,
            final(self).spec_viewport().spec_cursor() == old(self).spec_viewport().spec_cursor(),
            final(self).spec_viewport().shows(buffer),
    {
        self.options = *options;
        self.relayout(buffer);
    }

    pub fn wrap(&self) -> (value: bool)
        ensures
            value == self.spec_options().spec_wrap(),
    {
        self.options.wrap()
    }

    /// Sets the 'wrap' option and makes the viewport anew for it from
    /// `buffer`.
    pub fn set_wrap(&mut self, value: bool, buffer: &Buffer)
        requires
            old(self).wf(),
        ensures
            final(self).wf(),
            Self::same_parts(*old(self), *final(self)),
            final(self).spec_options().spec_wrap() == value,
            final(self).spec_options().spec_line_break() == old(self).spec_options().spec_line_break(),
            final(self).spec_viewport().spec_cursor() == old(self).spec_viewport().spec_cursor(),
            final(self).spec_viewport().shows(buffer),
    {
        self.options.set_wrap(value);
        self.relayout(buffer);
    }

    pub fn line_break(&self) -> (value: bool)
        ensures
            value == self.spec_options().spec_line_break(),
    {
        self.options.line_break()
    }

    /// Sets the 'line-break' option and makes the viewport anew for it from
    /// `buffer`.
    pub fn set_line_break(&mut self, value: bool, buffer: &Buffer)
        requires
            old(self).wf(),
        ensures
            final(self).wf(),
            Self::same_parts(*old(self), *final(self)),
            final(self).spec_options().spec_line_break() == value,
            final(self).spec_options().spec_wrap() == old(self).spec_options().spec_wrap(),
            final(self).spec_viewport().spec_cursor() == old(self).spec_viewport().spec_cursor(),
            final(self).spec_viewport().shows(buffer),
    {
        self.options.set_line_break(value);
        self.relayout(buffer);
    }

    /// Moves the edit cursor to character `char_idx` of line `line_idx` of
    /// `buffer`, and shows the buffer in the state that it is in.
    pub fn set_cursor(&mut self, line_idx: usize, char_idx: usize, buffer: &Buffer)
        requires
            old(self).wf(),
        ensures
            final(self).wf(),
            Self::same_parts(*old(self), *final(self)),
            final(self).spec_options() == old(self).spec_options(),
            final(self).spec_viewport().shows(buffer),
            final(self).spec_viewport().spec_cursor() == (line_idx, char_idx),
    {
        let viewport_options = ViewportOptions::from(&self.options);
        let size = self.viewport().size();
        let viewport = Viewport::build(&viewport_options, size, 0, (line_idx, char_idx), buffer);
        self.put_viewport(viewport);
    }

    /// The handle on the buffer that the window shows.
    pub fn buffer(&self) -> (buffer: &B)
        ensures
            *buffer == self.spec_buffer(),
    {
        &self.buffer
    }

    /// Takes the buffer in the state that its owner hands over. Where its
    /// revision is the one that the window shows, nothing changes and the
    /// result is `false`; else the window shows the new state.
    pub fn sync(&mut self, buffer: &Buffer) -> (changed: bool)
        requires
            old(self).wf(),
        ensures
            final(self).wf(),
            changed == (buffer.spec_revision() != old(self).spec_viewport().spec_revision()),
            changed ==> final(self).spec_viewport().shows(buffer),
            !changed ==> *final(self) == *old(self),
            Self::same_parts(*old(self), *final(self)),
            final(self).spec_options() == old(self).spec_options(),
            final(self).spec_viewport().spec_cursor() == old(self).spec_viewport().spec_cursor(),
    {
        if buffer.revision() == self.viewport().revision() {
            false
        } else {
            self.relayout(buffer);
            true
        }
    }
}

/// Turning 'wrap' on and off again gives the rows of a window that was built
/// without 'wrap' from the same state of the buffer for the same region:
/// what a window shows rests on the state of the buffer, its region and its
/// options alone.
pub proof fn lemma_wrap_toggle<B>(start: Window<B>, wrapped: Window<B>, back: Window<B>, direct: Window<B>)
    requires
        start.wf(),
        wrapped.wf(),
        Window::<B>::same_parts(start, wrapped),
        wrapped.spec_options().spec_wrap(),
        wrapped.spec_options().spec_line_break() == start.spec_options().spec_line_break(),
        wrapped.spec_viewport().spec_lines() == start.spec_viewport().spec_lines(),
        back.wf(),
        Window::<B>::same_parts(wrapped, back),
        !back.spec_options().spec_wrap(),
        back.spec_options().spec_line_break() == wrapped.spec_options().spec_line_break(),
        back.spec_viewport().spec_lines() == start.spec_viewport().spec_lines(),
        direct.wf(),
        !direct.spec_options().spec_wrap(),
        direct.spec_options().spec_line_break() == start.spec_options().spec_line_break(),
        direct.spec_viewport().spec_lines() == start.spec_viewport().spec_lines(),
        direct.spec_content().actual_shape@.width() == start.spec_content().actual_shape@.width(),
        direct.spec_content().actual_shape@.height() == start.spec_content().actual_shape@.height(),
    ensures
        back.spec_viewport()@ == direct.spec_viewport()@,
        back.spec_viewport().spec_render() == direct.spec_viewport().spec_render(),
{
}

/// Whatever a window shows, it shows as many rows as its region is high,
/// each as many cells as its region is wide.
pub proof fn lemma_row_coverage<B>(window: Window<B>, r: int)
    requires
        window.wf(),
        0 <= r < window.spec_content().actual_shape@.height(),
    ensures
        window.spec_viewport().spec_render().len() == window.spec_content().actual_shape@.height(),
        window.spec_viewport().spec_render()[r].len() == window.spec_content().actual_shape@.width(),
{
}

/// Each part of a window but the root is clipped by its parent: its actual
/// shape is what its logical shape has in common with the actual shape of
/// the root container.
pub proof fn lemma_content_clipped<B>(window: Window<B>)
    requires
        window.wf(),
    ensures
        window.spec_content().actual_shape@ == window.spec_content().shape@.intersect(
            window.spec_base().actual_shape@,
        ),
{
    assert(window.spec_tree().contains(1));
    assert(window.spec_tree().clipped(1));
}

} // verus!
