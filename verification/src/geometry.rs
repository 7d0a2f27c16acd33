//! Plain integer screen geometry for hit testing: axis-aligned rectangles
//! and points.  The core never computes pixel coordinates itself; these are
//! the small helpers the presentation layer uses against `position_of`.

use vstd::prelude::*;

verus! {

/// An axis-aligned rectangle: origin and extent.
#[derive(Clone, Copy, Debug, PartialEq, Eq, Structural)]
pub struct Rect {
    x: i32,
    y: i32,
    width: u16,
    height: u16,
}

/// A point on the screen.
#[derive(Clone, Copy, Debug, PartialEq, Eq, Structural)]
pub struct Point {
    pub x: i32,
    pub y: i32,
}

impl Rect {
    /// The stored origin and extent.
    pub closed spec fn spec_x(&self) -> int {
        self.x as int
    }

    /// The stored vertical origin.
    pub closed spec fn spec_y(&self) -> int {
        self.y as int
    }

    /// The stored width.
    pub closed spec fn spec_width(&self) -> int {
        self.width as int
    }

    /// The stored height.
    pub closed spec fn spec_height(&self) -> int {
        self.height as int
    }

    /// Builds a rectangle from its origin and extent.
    pub fn new(x: i32, y: i32, width: u16, height: u16) -> (r: Rect)
        ensures
            r.spec_x() == x,
            r.spec_y() == y,
            r.spec_width() == width,
            r.spec_height() == height,
    {
        Rect { x, y, width, height }
    }

    /// The horizontal origin.
    pub fn x(&self) -> (r: i32)
        ensures
            r as int == self.spec_x(),
    {
        self.x
    }

    /// The vertical origin.
    pub fn y(&self) -> (r: i32)
        ensures
            r as int == self.spec_y(),
    {
        self.y
    }

    /// Whether the point lies inside the rectangle, borders included.
    pub fn contains_point(&self, point: Point) -> (r: bool)
        ensures
            r == (self.spec_x() <= point.x as int && self.spec_y() <= point.y as int && point.x
                as int <= self.spec_x() + self.spec_width() && point.y as int <= self.spec_y()
                + self.spec_height()),
    {
        let x = self.x as i64;
        let y = self.y as i64;
        let px = point.x as i64;
        let py = point.y as i64;
        x <= px && y <= py && px <= x + self.width as i64 && py <= y + self.height as i64
    }
}

impl Point {
    /// Builds a point from its coordinates.
    pub fn new(x: i32, y: i32) -> (r: Point)
        ensures
            r == (Point { x, y }),
    {
        Point { x, y }
    }
}

} // verus!
