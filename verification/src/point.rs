use vstd::prelude::*;

verus! {

/// A point in the plane, a plain value pair. Arithmetic is provided on
/// `Point<i64>` through the standard operator traits, with preconditions
/// that rule out overflow.
#[derive(Debug, Clone, Copy, PartialEq, Eq, Structural)]
pub struct Point<T> {
    pub x: T,
    pub y: T,
}

impl<T> Point<T> {
    /// The point with the given coordinates.
    pub fn new(x: T, y: T) -> (p: Self)
        ensures
            p.x == x,
            p.y == y,
    {
        Point { x, y }
    }
}

impl Point<i64> {
    /// The origin.
    pub fn zero() -> (p: Self)
        ensures
            p.x == 0,
            p.y == 0,
    {
        Point { x: 0, y: 0 }
    }

    /// Whether both coordinates are zero.
    pub fn is_zero(&self) -> (b: bool)
        ensures
            b == (self.x == 0 && self.y == 0),
    {
        self.x == 0 && self.y == 0
    }

    /// The dot product `x1*x2 + y1*y2`.
    pub fn dot(self, other: Point<i64>) -> (d: i64)
        requires
            i64::MIN <= self.x * other.x <= i64::MAX,
            i64::MIN <= self.y * other.y <= i64::MAX,
            i64::MIN <= self.x * other.x + self.y * other.y <= i64::MAX,
        ensures
            d == self.x * other.x + self.y * other.y,
    {
        self.x * other.x + self.y * other.y
    }
}

impl std::ops::Add for Point<i64> {
    type Output = Point<i64>;

    /// Componentwise addition.
    fn add(self, rhs: Point<i64>) -> (p: Point<i64>) {
        Point { x: self.x + rhs.x, y: self.y + rhs.y }
    }
}

impl vstd::std_specs::ops::AddSpecImpl for Point<i64> {
    open spec fn obeys_add_spec() -> bool {
        true
    }

    open spec fn add_req(self, rhs: Point<i64>) -> bool {
        &&& i64::MIN <= self.x + rhs.x <= i64::MAX
        &&& i64::MIN <= self.y + rhs.y <= i64::MAX
    }

    open spec fn add_spec(self, rhs: Point<i64>) -> Point<i64> {
        Point { x: (self.x + rhs.x) as i64, y: (self.y + rhs.y) as i64 }
    }
}

impl std::ops::Sub for Point<i64> {
    type Output = Point<i64>;

    /// Componentwise subtraction.
    fn sub(self, rhs: Point<i64>) -> (p: Point<i64>) {
        Point { x: self.x - rhs.x, y: self.y - rhs.y }
    }
}

impl vstd::std_specs::ops::SubSpecImpl for Point<i64> {
    open spec fn obeys_sub_spec() -> bool {
        true
    }

    open spec fn sub_req(self, rhs: Point<i64>) -> bool {
        &&& i64::MIN <= self.x - rhs.x <= i64::MAX
        &&& i64::MIN <= self.y - rhs.y <= i64::MAX
    }

    open spec fn sub_spec(self, rhs: Point<i64>) -> Point<i64> {
        Point { x: (self.x - rhs.x) as i64, y: (self.y - rhs.y) as i64 }
    }
}

impl std::ops::Mul<i64> for Point<i64> {
    type Output = Point<i64>;

    /// Scaling by a scalar.
    fn mul(self, rhs: i64) -> (p: Point<i64>) {
        Point { x: self.x * rhs, y: self.y * rhs }
    }
}

impl vstd::std_specs::ops::MulSpecImpl<i64> for Point<i64> {
    open spec fn obeys_mul_spec() -> bool {
        true
    }

    open spec fn mul_req(self, rhs: i64) -> bool {
        &&& i64::MIN <= self.x * rhs <= i64::MAX
        &&& i64::MIN <= self.y * rhs <= i64::MAX
    }

    open spec fn mul_spec(self, rhs: i64) -> Point<i64> {
        Point { x: (self.x * rhs) as i64, y: (self.y * rhs) as i64 }
    }
}

impl std::ops::Neg for Point<i64> {
    type Output = Point<i64>;

    /// Componentwise negation.
    fn neg(self) -> (p: Point<i64>) {
        Point { x: -self.x, y: -self.y }
    }
}

impl vstd::std_specs::ops::NegSpecImpl for Point<i64> {
    open spec fn obeys_neg_spec() -> bool {
        true
    }

    open spec fn neg_req(self) -> bool {
        &&& self.x != i64::MIN
        &&& self.y != i64::MIN
    }

    open spec fn neg_spec(self) -> Point<i64> {
        Point { x: (-self.x) as i64, y: (-self.y) as i64 }
    }
}

} // verus!
