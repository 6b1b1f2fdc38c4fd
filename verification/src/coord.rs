//! Rectangles in the logical and in the actual coordinate space.

use vstd::prelude::*;

verus! {

/// Keeps `v` inside `[lo, hi]`.
pub open spec fn clamp(v: int, lo: int, hi: int) -> int {
    if v <= lo {
        lo
    } else if v >= hi {
        hi
    } else {
        v
    }
}

/// The mathematical rectangle `[x0, x1) x [y0, y1)` that both rectangle types
/// denote.
pub struct Rect {
    pub x0: int,
    pub y0: int,
    pub x1: int,
    pub y1: int,
}

impl Rect {
    pub open spec fn wf(self) -> bool {
        self.x0 <= self.x1 && self.y0 <= self.y1
    }

    pub open spec fn width(self) -> int {
        self.x1 - self.x0
    }

    pub open spec fn height(self) -> int {
        self.y1 - self.y0
    }

    /// No cell lies inside the rectangle.
    pub open spec fn is_empty(self) -> bool {
        self.x0 >= self.x1 || self.y0 >= self.y1
    }

    pub open spec fn contains(self, x: int, y: int) -> bool {
        self.x0 <= x < self.x1 && self.y0 <= y < self.y1
    }

    /// Every cell of `self` is a cell of `outer`, and the corners of `self`
    /// stay on `outer`.
    pub open spec fn within(self, outer: Rect) -> bool {
        &&& outer.x0 <= self.x0 <= self.x1 <= outer.x1
        &&& outer.y0 <= self.y0 <= self.y1 <= outer.y1
    }

    /// The part of `self` that lies inside `bounds`. Where the two do not
    /// meet, the result is the empty rectangle on the edge of `bounds` that is
    /// nearest to `self`.
    pub open spec fn intersect(self, bounds: Rect) -> Rect {
        Rect {
            x0: clamp(self.x0, bounds.x0, bounds.x1),
            y0: clamp(self.y0, bounds.y0, bounds.y1),
            x1: clamp(self.x1, bounds.x0, bounds.x1),
            y1: clamp(self.y1, bounds.y0, bounds.y1),
        }
    }

    /// The whole plane that unsigned 16-bit coordinates can address.
    pub open spec fn plane() -> Rect {
        Rect { x0: 0, y0: 0, x1: u16::MAX as int, y1: u16::MAX as int }
    }
}

/// The intersection is well formed and lies within the bounds.
pub proof fn lemma_intersect_within(a: Rect, bounds: Rect)
    requires
        a.wf(),
        bounds.wf(),
    ensures
        a.intersect(bounds).wf(),
        a.intersect(bounds).within(bounds),
{
}

/// A cell lies in the intersection exactly if it lies in both rectangles.
pub proof fn lemma_intersect_cells(a: Rect, bounds: Rect, x: int, y: int)
    requires
        a.wf(),
        bounds.wf(),
    ensures
        a.intersect(bounds).contains(x, y) <==> a.contains(x, y) && bounds.contains(x, y),
{
}

/// Clipping a rectangle that already lies within the bounds changes nothing,
/// so clipping twice is the same as clipping once.
pub proof fn lemma_intersect_idempotent(a: Rect, bounds: Rect)
    requires
        a.wf(),
        bounds.wf(),
    ensures
        a.within(bounds) ==> a.intersect(bounds) == a,
        a.intersect(bounds).intersect(bounds) == a.intersect(bounds),
{
}

/// A size on the terminal grid.
#[derive(Clone, Copy, Debug, PartialEq, Eq, Structural)]
pub struct U16Size {
    pub width: u16,
    pub height: u16,
}

impl U16Size {
    pub open spec fn spec_width(self) -> int {
        self.width as int
    }

    pub open spec fn spec_height(self) -> int {
        self.height as int
    }

    pub fn new(width: u16, height: u16) -> (s: Self)
        ensures
            s.spec_width() == width,
            s.spec_height() == height,
    {
        U16Size { width, height }
    }

    pub fn width(&self) -> (w: u16)
        ensures
            w == self.spec_width(),
    {
        self.width
    }

    pub fn height(&self) -> (h: u16)
        ensures
            h == self.spec_height(),
    {
        self.height
    }
}

/// A rectangle on the terminal grid: what can actually be drawn.
#[derive(Clone, Copy, Debug, PartialEq, Eq, Structural)]
pub struct U16Rect {
    min_x: u16,
    min_y: u16,
    max_x: u16,
    max_y: u16,
}

impl View for U16Rect {
    type V = Rect;

    closed spec fn view(&self) -> Rect {
        Rect {
            x0: self.min_x as int,
            y0: self.min_y as int,
            x1: self.max_x as int,
            y1: self.max_y as int,
        }
    }
}

impl U16Rect {
    #[verifier::type_invariant]
    spec fn ordered(self) -> bool {
        self.min_x <= self.max_x && self.min_y <= self.max_y
    }

    /// The rectangle spanned by two opposite corners, given in any order.
    pub fn new(a: (u16, u16), b: (u16, u16)) -> (r: Self)
        ensures
            r@.x0 == if a.0 <= b.0 { a.0 } else { b.0 },
            r@.x1 == if a.0 <= b.0 { b.0 } else { a.0 },
            r@.y0 == if a.1 <= b.1 { a.1 } else { b.1 },
            r@.y1 == if a.1 <= b.1 { b.1 } else { a.1 },
    {
        let (min_x, max_x) = if a.0 <= b.0 { (a.0, b.0) } else { (b.0, a.0) };
        let (min_y, max_y) = if a.1 <= b.1 { (a.1, b.1) } else { (b.1, a.1) };
        U16Rect { min_x, min_y, max_x, max_y }
    }

    pub fn min_x(&self) -> (v: u16)
        ensures
            v == self@.x0,
    {
        self.min_x
    }

    pub fn min_y(&self) -> (v: u16)
        ensures
            v == self@.y0,
    {
        self.min_y
    }

    pub fn max_x(&self) -> (v: u16)
        ensures
            v == self@.x1,
    {
        self.max_x
    }

    pub fn max_y(&self) -> (v: u16)
        ensures
            v == self@.y1,
    {
        self.max_y
    }

    pub fn width(&self) -> (w: u16)
        ensures
            self@.wf(),
            w == self@.width(),
    {
        proof {
            use_type_invariant(self);
        }
        self.max_x - self.min_x
    }

    pub fn height(&self) -> (h: u16)
        ensures
            self@.wf(),
            h == self@.height(),
    {
        proof {
            use_type_invariant(self);
        }
        self.max_y - self.min_y
    }

    pub fn size(&self) -> (s: U16Size)
        ensures
            self@.wf(),
            s.spec_width() == self@.width(),
            s.spec_height() == self@.height(),
    {
        U16Size::new(self.width(), self.height())
    }

    pub fn is_empty(&self) -> (b: bool)
        ensures
            self@.wf(),
            b == self@.is_empty(),
    {
        proof {
            use_type_invariant(self);
        }
        self.min_x == self.max_x || self.min_y == self.max_y
    }
}

/// A rectangle in the logical coordinate space: what a widget asks for,
/// before clipping.
#[derive(Clone, Copy, Debug, PartialEq, Eq, Structural)]
pub struct IRect {
    min_x: isize,
    min_y: isize,
    max_x: isize,
    max_y: isize,
}

impl View for IRect {
    type V = Rect;

    closed spec fn view(&self) -> Rect {
        Rect {
            x0: self.min_x as int,
            y0: self.min_y as int,
            x1: self.max_x as int,
            y1: self.max_y as int,
        }
    }
}

/// Two rectangles on the terminal grid that denote one rectangle are equal.
pub proof fn lemma_u16rect_eq(a: U16Rect, b: U16Rect)
    requires
        a@ == b@,
    ensures
        a == b,
{
}

/// Two logical rectangles that denote one rectangle are equal.
pub proof fn lemma_irect_eq(a: IRect, b: IRect)
    requires
        a@ == b@,
    ensures
        a == b,
{
}

/// One coordinate of a clipped rectangle.
fn clamp_to(v: isize, lo: u16, hi: u16) -> (r: u16)
    requires
        lo <= hi,
    ensures
        r == clamp(v as int, lo as int, hi as int),
{
    if v <= lo as isize {
        lo
    } else if v >= hi as isize {
        hi
    } else {
        v as u16
    }
}

impl IRect {
    #[verifier::type_invariant]
    spec fn ordered(self) -> bool {
        self.min_x <= self.max_x && self.min_y <= self.max_y
    }

    /// The rectangle spanned by two opposite corners, given in any order.
    pub fn new(a: (isize, isize), b: (isize, isize)) -> (r: Self)
        ensures
            r@.x0 == if a.0 <= b.0 { a.0 } else { b.0 },
            r@.x1 == if a.0 <= b.0 { b.0 } else { a.0 },
            r@.y0 == if a.1 <= b.1 { a.1 } else { b.1 },
            r@.y1 == if a.1 <= b.1 { b.1 } else { a.1 },
    {
        let (min_x, max_x) = if a.0 <= b.0 { (a.0, b.0) } else { (b.0, a.0) };
        let (min_y, max_y) = if a.1 <= b.1 { (a.1, b.1) } else { (b.1, a.1) };
        IRect { min_x, min_y, max_x, max_y }
    }

    pub fn min_x(&self) -> (v: isize)
        ensures
            v == self@.x0,
    {
        self.min_x
    }

    pub fn min_y(&self) -> (v: isize)
        ensures
            v == self@.y0,
    {
        self.min_y
    }

    pub fn max_x(&self) -> (v: isize)
        ensures
            v == self@.x1,
    {
        self.max_x
    }

    pub fn max_y(&self) -> (v: isize)
        ensures
            v == self@.y1,
    {
        self.max_y
    }

    /// The part of this rectangle that lies inside `bounds`.
    pub fn clip(&self, bounds: &U16Rect) -> (r: U16Rect)
        ensures
            self@.wf(),
            bounds@.wf(),
            r@ == self@.intersect(bounds@),
    {
        proof {
            use_type_invariant(self);
            use_type_invariant(bounds);
        }
        let min_x = clamp_to(self.min_x, bounds.min_x, bounds.max_x);
        let max_x = clamp_to(self.max_x, bounds.min_x, bounds.max_x);
        let min_y = clamp_to(self.min_y, bounds.min_y, bounds.max_y);
        let max_y = clamp_to(self.max_y, bounds.min_y, bounds.max_y);
        U16Rect { min_x, min_y, max_x, max_y }
    }

    /// The part of this rectangle that the terminal grid can address.
    pub fn clip_to_plane(&self) -> (r: U16Rect)
        ensures
            self@.wf(),
            r@ == self@.intersect(Rect::plane()),
    {
        proof {
            use_type_invariant(self);
        }
        let min_x = clamp_to(self.min_x, 0, u16::MAX);
        let max_x = clamp_to(self.max_x, 0, u16::MAX);
        let min_y = clamp_to(self.min_y, 0, u16::MAX);
        let max_y = clamp_to(self.max_y, 0, u16::MAX);
        U16Rect { min_x, min_y, max_x, max_y }
    }
}

} // verus!
