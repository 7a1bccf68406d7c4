//! Points, sizes and rectangles in logical pixels.
use crate::number::{is_difference, is_number, is_sum, Arithmetic, Number};
use vstd::prelude::*;

verus! {

/// A place in logical coordinates.
#[derive(Clone, Copy, Debug)]
pub struct Point {
    /// Rightwards.
    pub x: Number,
    /// Downwards.
    pub y: Number,
}

/// An extent in logical coordinates.
#[derive(Clone, Copy, Debug)]
pub struct Size {
    /// Width.
    pub w: Number,
    /// Height.
    pub h: Number,
}

/// An area in logical coordinates.
#[derive(Clone, Copy, Debug)]
pub struct Rectangle {
    /// The upper-left corner.
    pub loc: Point,
    /// The extent from there.
    pub size: Size,
}

/// A factor per axis.
#[derive(Clone, Copy, Debug)]
pub struct Scale {
    /// Horizontally.
    pub x: Number,
    /// Vertically.
    pub y: Number,
}

/// An extent in whole logical pixels.
#[derive(Clone, Copy, Debug, PartialEq, Eq, Structural)]
pub struct PixelSize {
    /// Width.
    pub w: i32,
    /// Height.
    pub h: i32,
}

/// A place in whole logical pixels.
#[derive(Clone, Copy, Debug, PartialEq, Eq, Structural)]
pub struct PixelPoint {
    /// Rightwards.
    pub x: i32,
    /// Downwards.
    pub y: i32,
}

/// An area in whole logical pixels.
#[derive(Clone, Copy, Debug, PartialEq, Eq, Structural)]
pub struct PixelRectangle {
    /// The upper-left corner.
    pub loc: PixelPoint,
    /// The extent from there.
    pub size: PixelSize,
}

/// How far each corner is rounded, in single precision.
#[derive(Clone, Copy, Debug)]
pub struct CornerRadius {
    /// The upper-left corner.
    pub top_left: Number,
    /// The upper-right corner.
    pub top_right: Number,
    /// The lower-right corner.
    pub bottom_right: Number,
    /// The lower-left corner.
    pub bottom_left: Number,
}

/// A window edge or corner that a resize pulls at.
#[derive(Clone, Copy, Debug, PartialEq, Eq, Structural)]
pub struct ResizeEdge {
    /// The left edge moves.
    pub left: bool,
    /// The right edge moves.
    pub right: bool,
    /// The top edge moves.
    pub top: bool,
    /// The bottom edge moves.
    pub bottom: bool,
}

impl Point {
    /// Both coordinates compare equal.
    pub open spec fn same(self, other: Point) -> bool {
        self.x.same(other.x) && self.y.same(other.y)
    }

    /// The point lies in the half-open area between two corners.
    pub open spec fn within(self, near: Point, far: Point) -> bool {
        &&& near.x.le(self.x)
        &&& self.x.lt(far.x)
        &&& near.y.le(self.y)
        &&& self.y.lt(far.y)
    }

    /// The point with the given coordinates.
    pub fn new(x: Number, y: Number) -> (point: Point)
        ensures
            point == (Point { x, y }),
    {
        Point { x, y }
    }

    /// The way from an origin to the point.
    pub fn offset_from<A: Arithmetic>(self, a: &A, origin: Point) -> (offset: Point)
        ensures
            is_offset(a, self, origin, offset),
    {
        Point { x: a.difference(self.x, origin.x), y: a.difference(self.y, origin.y) }
    }

    /// Whether both coordinates compare equal.
    pub fn is_same(self, other: Point) -> (result: bool)
        ensures
            result == self.same(other),
    {
        self.x.is_same(other.x) && self.y.is_same(other.y)
    }
}

impl Size {
    /// The size with the given sides.
    pub fn new(w: Number, h: Number) -> (size: Size)
        ensures
            size == (Size { w, h }),
    {
        Size { w, h }
    }
}

/// `size` is the whole-pixel size as numbers.
pub open spec fn is_pixel_size<A: Arithmetic>(a: &A, pixels: PixelSize, size: Size) -> bool {
    is_number(a, pixels.w as int, size.w) && is_number(a, pixels.h as int, size.h)
}

/// `point` is the whole-pixel point as numbers.
pub open spec fn is_pixel_point<A: Arithmetic>(a: &A, pixels: PixelPoint, point: Point) -> bool {
    is_number(a, pixels.x as int, point.x) && is_number(a, pixels.y as int, point.y)
}

/// `r` is the way from `origin` to `point`.
pub open spec fn is_offset<A: Arithmetic>(a: &A, point: Point, origin: Point, r: Point) -> bool {
    is_difference(a, point.x, origin.x, r.x) && is_difference(a, point.y, origin.y, r.y)
}

impl PixelPoint {
    /// The coordinates as numbers.
    pub fn to_point<A: Arithmetic>(self, a: &A) -> (point: Point)
        ensures
            is_pixel_point(a, self, point),
    {
        Point { x: a.number(self.x as i128), y: a.number(self.y as i128) }
    }
}

impl PixelSize {
    /// The sides as numbers.
    pub fn to_size<A: Arithmetic>(self, a: &A) -> (size: Size)
        ensures
            is_pixel_size(a, self, size),
    {
        Size { w: a.number(self.w as i128), h: a.number(self.h as i128) }
    }
}

impl CornerRadius {
    /// All four radii compare equal.
    pub open spec fn same(self, other: CornerRadius) -> bool {
        &&& self.top_left.same(other.top_left)
        &&& self.top_right.same(other.top_right)
        &&& self.bottom_right.same(other.bottom_right)
        &&& self.bottom_left.same(other.bottom_left)
    }

    /// Square corners.
    pub open spec fn square() -> CornerRadius {
        let zero = Number { bits: 0 };
        CornerRadius { top_left: zero, top_right: zero, bottom_right: zero, bottom_left: zero }
    }

    /// Whether all four radii compare equal.
    pub fn is_same(self, other: CornerRadius) -> (result: bool)
        ensures
            result == self.same(other),
    {
        self.top_left.is_same(other.top_left) && self.top_right.is_same(other.top_right)
            && self.bottom_right.is_same(other.bottom_right) && self.bottom_left.is_same(
            other.bottom_left,
        )
    }
}

impl Default for CornerRadius {
    /// Square corners.
    fn default() -> (radius: CornerRadius)
        ensures
            radius == CornerRadius::square(),
    {
        let zero = Number::zero();
        CornerRadius { top_left: zero, top_right: zero, bottom_right: zero, bottom_left: zero }
    }
}

impl ResizeEdge {
    /// The upper-left corner.
    pub open spec fn spec_top_left() -> ResizeEdge {
        ResizeEdge { left: true, right: false, top: true, bottom: false }
    }

    /// The upper-right corner.
    pub open spec fn spec_top_right() -> ResizeEdge {
        ResizeEdge { left: false, right: true, top: true, bottom: false }
    }

    /// The lower-left corner.
    pub open spec fn spec_bottom_left() -> ResizeEdge {
        ResizeEdge { left: true, right: false, top: false, bottom: true }
    }

    /// The lower-right corner.
    pub open spec fn spec_bottom_right() -> ResizeEdge {
        ResizeEdge { left: false, right: true, top: false, bottom: true }
    }

    /// The upper-left corner.
    #[verifier::when_used_as_spec(spec_top_left)]
    pub fn top_left() -> (edges: ResizeEdge)
        ensures
            edges == Self::spec_top_left(),
    {
        ResizeEdge { left: true, right: false, top: true, bottom: false }
    }

    /// The upper-right corner.
    #[verifier::when_used_as_spec(spec_top_right)]
    pub fn top_right() -> (edges: ResizeEdge)
        ensures
            edges == Self::spec_top_right(),
    {
        ResizeEdge { left: false, right: true, top: true, bottom: false }
    }

    /// The lower-left corner.
    #[verifier::when_used_as_spec(spec_bottom_left)]
    pub fn bottom_left() -> (edges: ResizeEdge)
        ensures
            edges == Self::spec_bottom_left(),
    {
        ResizeEdge { left: true, right: false, top: false, bottom: true }
    }

    /// The lower-right corner.
    #[verifier::when_used_as_spec(spec_bottom_right)]
    pub fn bottom_right() -> (edges: ResizeEdge)
        ensures
            edges == Self::spec_bottom_right(),
    {
        ResizeEdge { left: false, right: true, top: false, bottom: true }
    }
}

/// `far` is the lower-right corner of the rectangle.
pub open spec fn is_far_corner<A: Arithmetic>(a: &A, rect: Rectangle, far: Point) -> bool {
    is_sum(a, rect.loc.x, rect.size.w, far.x) && is_sum(a, rect.loc.y, rect.size.h, far.y)
}

/// `inside` tells whether the rectangle contains the point.
pub open spec fn is_inside<A: Arithmetic>(a: &A, rect: Rectangle, point: Point, inside: bool) -> bool {
    exists|far: Point| #[trigger]
        is_far_corner(a, rect, far) && inside == point.within(rect.loc, far)
}

impl Rectangle {
    /// The rectangle with the given corner and size.
    pub fn new(loc: Point, size: Size) -> (rect: Rectangle)
        ensures
            rect == (Rectangle { loc, size }),
    {
        Rectangle { loc, size }
    }

    /// The lower-right corner.
    pub fn far_corner<A: Arithmetic>(self, a: &A) -> (far: Point)
        ensures
            is_far_corner(a, self, far),
    {
        Point { x: a.sum(self.loc.x, self.size.w), y: a.sum(self.loc.y, self.size.h) }
    }

    /// Whether the rectangle contains the point. The upper and left borders belong to it, the
    /// lower and right ones do not.
    pub fn contains<A: Arithmetic>(self, a: &A, point: Point) -> (inside: bool)
        ensures
            is_inside(a, self, point, inside),
    {
        let far = self.far_corner(a);
        self.loc.x.is_le(point.x) && point.x.is_lt(far.x) && self.loc.y.is_le(point.y)
            && point.y.is_lt(far.y)
    }
}

} // verus!
