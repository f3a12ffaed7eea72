//! Integer 2D points, used both for cell positions and for unit movement
//! directions.

use vstd::prelude::*;

verus! {

/// A 2D point or direction with 32-bit integer coordinates.
#[derive(Debug, Clone, Copy, PartialEq, Eq, Structural)]
pub struct Point {
    pub x: i32,
    pub y: i32,
}

/// True when `p` lies inside a `w` by `h` grid.
pub open spec fn in_bounds(p: Point, w: int, h: int) -> bool {
    0 <= p.x < w && 0 <= p.y < h
}

/// The exact negation of a point whose components are above `i32::MIN`.
pub open spec fn neg_point(d: Point) -> Point {
    Point { x: (0 - d.x) as i32, y: (0 - d.y) as i32 }
}

/// True when `d` is one of the four cardinal unit directions.
pub open spec fn is_cardinal(d: Point) -> bool {
    (d == Point { x: 1i32, y: 0i32 }) || (d == Point { x: -1i32, y: 0i32 })
        || (d == Point { x: 0i32, y: 1i32 }) || (d == Point { x: 0i32, y: -1i32 })
}

impl Point {
    pub fn new(x: i32, y: i32) -> (p: Point)
        ensures
            p == (Point { x, y }),
    {
        Point { x, y }
    }

    /// Component-wise sum of two points.
    pub fn plus(self, other: Point) -> (r: Point)
        requires
            i32::MIN <= self.x + other.x <= i32::MAX,
            i32::MIN <= self.y + other.y <= i32::MAX,
        ensures
            r.x == self.x + other.x,
            r.y == self.y + other.y,
    {
        Point { x: self.x + other.x, y: self.y + other.y }
    }

    /// Component-wise negation.
    pub fn negated(self) -> (r: Point)
        requires
            self.x != i32::MIN,
            self.y != i32::MIN,
        ensures
            r.x == -self.x,
            r.y == -self.y,
    {
        Point { x: -self.x, y: -self.y }
    }
}

} // verus!
