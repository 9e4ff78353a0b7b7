//! Axis-aligned rectangles on the grid.

use vstd::prelude::*;
use crate::grid::Point;

verus! {

/// A rectangle with corners `(x1, y1)` and `(x2, y2)`.
///
/// Two rectangles are compared corner to corner, both corners counted in
/// ([`Rect::intersect`]). The cells that a rectangle covers when it is drawn
/// are those with `x1 <= x < x2` and `y1 <= y < y2` ([`Rect::covers`]).
#[derive(Clone, Copy, Debug, PartialEq, Eq, Structural)]
pub struct Rect {
    pub x1: i32,
    pub x2: i32,
    pub y1: i32,
    pub y2: i32,
}

/// `a / 2`, rounded towards zero.
pub open spec fn half_towards_zero(a: int) -> int {
    if a >= 0 {
        a / 2
    } else {
        -((-a) / 2)
    }
}

/// The distance between `a` and `b`.
pub open spec fn spec_abs_diff(a: int, b: int) -> int {
    if a >= b {
        a - b
    } else {
        b - a
    }
}

impl Rect {
    /// Whether the two rectangles share a point, both corners of each counted
    /// in.
    pub open spec fn spec_intersect(self, other: Rect) -> bool {
        self.x1 <= other.x2 && self.x2 >= other.x1 && self.y1 <= other.y2 && self.y2 >= other.y1
    }

    /// Whether the rectangle covers the cell `(x, y)`.
    pub open spec fn covers(self, x: int, y: int) -> bool {
        self.x1 <= x < self.x2 && self.y1 <= y < self.y2
    }

    /// The middle of the rectangle, each coordinate rounded towards zero.
    pub open spec fn spec_center(self) -> Point {
        Point {
            x: half_towards_zero(self.x1 + self.x2) as i32,
            y: half_towards_zero(self.y1 + self.y2) as i32,
        }
    }

    /// The rectangle pushed out by `margin` cells on every side.
    pub open spec fn spec_grown(self, margin: int) -> Rect {
        Rect {
            x1: (self.x1 - margin) as i32,
            x2: (self.x2 + margin) as i32,
            y1: (self.y1 - margin) as i32,
            y2: (self.y2 + margin) as i32,
        }
    }

    /// The rectangle whose first corner is `(x, y)` and whose second corner
    /// lies `w` to the right and `h` below.
    pub fn with_size(x: i32, y: i32, w: i32, h: i32) -> (r: Rect)
        requires
            i32::MIN <= x + w <= i32::MAX,
            i32::MIN <= y + h <= i32::MAX,
        ensures
            r == (Rect { x1: x, x2: (x + w) as i32, y1: y, y2: (y + h) as i32 }),
    {
        Rect { x1: x, x2: x + w, y1: y, y2: y + h }
    }

    /// The rectangle with the given corners.
    pub fn with_exact(x1: i32, y1: i32, x2: i32, y2: i32) -> (r: Rect)
        ensures
            r == (Rect { x1, x2, y1, y2 }),
    {
        Rect { x1, x2, y1, y2 }
    }

    /// The rectangle whose corners both lie at the origin.
    pub fn zero() -> (r: Rect)
        ensures
            r == (Rect { x1: 0, x2: 0, y1: 0, y2: 0 }),
    {
        Rect { x1: 0, x2: 0, y1: 0, y2: 0 }
    }

    /// Whether the two rectangles share a point, both corners of each counted
    /// in.
    pub fn intersect(&self, other: &Rect) -> (b: bool)
        ensures
            b == self.spec_intersect(*other),
    {
        self.x1 <= other.x2 && self.x2 >= other.x1 && self.y1 <= other.y2 && self.y2 >= other.y1
    }

    /// The middle of the rectangle.
    pub fn center(&self) -> (p: Point)
        requires
            i32::MIN <= self.x1 + self.x2 <= i32::MAX,
            i32::MIN <= self.y1 + self.y2 <= i32::MAX,
        ensures
            p == self.spec_center(),
    {
        Point { x: halve(self.x1 + self.x2), y: halve(self.y1 + self.y2) }
    }

    /// Whether the rectangle covers the cell at `point`.
    pub fn point_in_rect(&self, point: Point) -> (b: bool)
        ensures
            b == self.covers(point.x as int, point.y as int),
    {
        point.x >= self.x1 && point.x < self.x2 && point.y >= self.y1 && point.y < self.y2
    }

    /// The distance between the two corners along the x axis.
    pub fn width(&self) -> (w: i32)
        requires
            spec_abs_diff(self.x2 as int, self.x1 as int) <= i32::MAX,
        ensures
            w == spec_abs_diff(self.x2 as int, self.x1 as int),
    {
        abs_diff(self.x2, self.x1)
    }

    /// The distance between the two corners along the y axis.
    pub fn height(&self) -> (h: i32)
        requires
            spec_abs_diff(self.y2 as int, self.y1 as int) <= i32::MAX,
        ensures
            h == spec_abs_diff(self.y2 as int, self.y1 as int),
    {
        abs_diff(self.y2, self.y1)
    }

    /// The rectangle pushed out by `margin` cells on every side.
    pub fn grown(&self, margin: i32) -> (r: Rect)
        requires
            i32::MIN <= self.x1 - margin <= i32::MAX,
            i32::MIN <= self.x2 + margin <= i32::MAX,
            i32::MIN <= self.y1 - margin <= i32::MAX,
            i32::MIN <= self.y2 + margin <= i32::MAX,
        ensures
            r == self.spec_grown(margin as int),
    {
        Rect {
            x1: self.x1 - margin,
            x2: self.x2 + margin,
            y1: self.y1 - margin,
            y2: self.y2 + margin,
        }
    }
}

/// `a / 2`, rounded towards zero.
pub fn halve(a: i32) -> (h: i32)
    ensures
        h == half_towards_zero(a as int),
{
    if a >= 0 {
        a / 2
    } else if a == i32::MIN {
        -1073741824
    } else {
        -((-a) / 2)
    }
}

/// The distance between `a` and `b`.
pub fn abs_diff(a: i32, b: i32) -> (d: i32)
    requires
        spec_abs_diff(a as int, b as int) <= i32::MAX,
    ensures
        d == spec_abs_diff(a as int, b as int),
{
    if a >= b {
        a - b
    } else {
        b - a
    }
}

} // verus!
