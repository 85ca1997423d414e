pub mod drop_stack;
pub mod dualhash;
mod point;

pub use point::Point;
pub use drop_stack::DropStack;
pub use dualhash::DualHashMap;

use vstd::prelude::*;

verus! {

/// An axis-aligned rectangle given by two corner points, in any corner
/// order. `normalized` reorders the corners so that `p1` is the minimum
/// corner and `p2` the maximum.
#[derive(Debug, Clone, Copy, PartialEq, Eq, Structural)]
pub struct Rect<T> {
    pub p1: Point<T>,
    pub p2: Point<T>,
}

impl<T> Rect<T> {
    /// A rectangle with the two given corners.
    pub fn new(p1: Point<T>, p2: Point<T>) -> (r: Self)
        ensures
            r.p1 == p1,
            r.p2 == p2,
    {
        Rect { p1, p2 }
    }

    /// A rectangle with corners `(x1, y1)` and `(x2, y2)`.
    pub fn from_coords(x1: T, y1: T, x2: T, y2: T) -> (r: Self)
        ensures
            r.p1.x == x1,
            r.p1.y == y1,
            r.p2.x == x2,
            r.p2.y == y2,
    {
        Rect { p1: Point { x: x1, y: y1 }, p2: Point { x: x2, y: y2 } }
    }

    /// The rectangle with every coordinate mapped through `f`.
    pub fn map<U, F: Fn(T) -> U>(self, f: F) -> (r: Rect<U>)
        requires
            call_requires(f, (self.p1.x,)),
            call_requires(f, (self.p1.y,)),
            call_requires(f, (self.p2.x,)),
            call_requires(f, (self.p2.y,)),
        ensures
            call_ensures(f, (self.p1.x,), r.p1.x),
            call_ensures(f, (self.p1.y,), r.p1.y),
            call_ensures(f, (self.p2.x,), r.p2.x),
            call_ensures(f, (self.p2.y,), r.p2.y),
    {
        Rect {
            p1: Point { x: f(self.p1.x), y: f(self.p1.y) },
            p2: Point { x: f(self.p2.x), y: f(self.p2.y) },
        }
    }
}

impl Rect<i64> {
    /// The least x-coordinate of the two corners.
    pub open spec fn min_x(self) -> i64 {
        if self.p1.x <= self.p2.x {
            self.p1.x
        } else {
            self.p2.x
        }
    }

    /// The greatest x-coordinate of the two corners.
    pub open spec fn max_x(self) -> i64 {
        if self.p1.x <= self.p2.x {
            self.p2.x
        } else {
            self.p1.x
        }
    }

    /// The least y-coordinate of the two corners.
    pub open spec fn min_y(self) -> i64 {
        if self.p1.y <= self.p2.y {
            self.p1.y
        } else {
            self.p2.y
        }
    }

    /// The greatest y-coordinate of the two corners.
    pub open spec fn max_y(self) -> i64 {
        if self.p1.y <= self.p2.y {
            self.p2.y
        } else {
            self.p1.y
        }
    }

    /// The same rectangle with `p1` the minimum corner and `p2` the maximum.
    pub fn normalized(self) -> (r: Self)
        ensures
            r.p1.x == self.min_x(),
            r.p1.y == self.min_y(),
            r.p2.x == self.max_x(),
            r.p2.y == self.max_y(),
    {
        let min_x = if self.p1.x <= self.p2.x {
            self.p1.x
        } else {
            self.p2.x
        };
        let max_x = if self.p1.x <= self.p2.x {
            self.p2.x
        } else {
            self.p1.x
        };
        let min_y = if self.p1.y <= self.p2.y {
            self.p1.y
        } else {
            self.p2.y
        };
        let max_y = if self.p1.y <= self.p2.y {
            self.p2.y
        } else {
            self.p1.y
        };
        Rect { p1: Point { x: min_x, y: min_y }, p2: Point { x: max_x, y: max_y } }
    }

    /// Whether the point lies inside the rectangle, borders included.
    pub fn contains(&self, point: Point<i64>) -> (b: bool)
        ensures
            b == (self.min_x() <= point.x <= self.max_x() && self.min_y() <= point.y
                <= self.max_y()),
    {
        let r = self.normalized();
        point.x >= r.p1.x && point.x <= r.p2.x && point.y >= r.p1.y && point.y <= r.p2.y
    }

    /// The horizontal extent, never negative.
    pub fn width(&self) -> (w: i64)
        requires
            self.max_x() - self.min_x() <= i64::MAX,
        ensures
            w == self.max_x() - self.min_x(),
    {
        let r = self.normalized();
        r.p2.x - r.p1.x
    }

    /// The vertical extent, never negative.
    pub fn height(&self) -> (h: i64)
        requires
            self.max_y() - self.min_y() <= i64::MAX,
        ensures
            h == self.max_y() - self.min_y(),
    {
        let r = self.normalized();
        r.p2.y - r.p1.y
    }

    /// The area: width times height.
    pub fn area(&self) -> (a: i64)
        requires
            self.max_x() - self.min_x() <= i64::MAX,
            self.max_y() - self.min_y() <= i64::MAX,
            (self.max_x() - self.min_x()) * (self.max_y() - self.min_y()) <= i64::MAX,
        ensures
            a == (self.max_x() - self.min_x()) * (self.max_y() - self.min_y()),
    {
        self.width() * self.height()
    }
}

} // verus!
