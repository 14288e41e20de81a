use vstd::prelude::*;

verus! {

/// A point (or vector) of the plane in fixed-point coordinates.
#[derive(Clone, Copy, Debug, PartialEq, Eq, Structural)]
pub struct Point {
    pub x: i32,
    pub y: i32,
}

/// A coordinate whose negation is again a coordinate.
pub open spec fn sym_fits(v: int) -> bool {
    -(i32::MAX as int) <= v <= i32::MAX as int
}

/// `a + b` is representable.
pub open spec fn can_add(a: Point, b: Point) -> bool {
    i32::MIN <= a.x + b.x <= i32::MAX && i32::MIN <= a.y + b.y <= i32::MAX
}

/// `a - b` is representable.
pub open spec fn can_sub(a: Point, b: Point) -> bool {
    i32::MIN <= a.x - b.x <= i32::MAX && i32::MIN <= a.y - b.y <= i32::MAX
}

/// The dot product, over unbounded integers.
pub open spec fn dot(a: Point, b: Point) -> int {
    a.x * b.x + a.y * b.y
}

proof fn lemma_coord_product_bound(a: int, b: int)
    requires
        i32::MIN <= a <= i32::MAX,
        i32::MIN <= b <= i32::MAX,
    ensures
        -0x4000_0000_0000_0000 <= a * b <= 0x4000_0000_0000_0000,
{
    assert(-0x4000_0000_0000_0000 <= a * b <= 0x4000_0000_0000_0000) by (nonlinear_arith)
        requires
            -0x8000_0000 <= a <= 0x7fff_ffff,
            -0x8000_0000 <= b <= 0x7fff_ffff,
    ;
}

impl Point {
    pub fn new(x: i32, y: i32) -> (r: Point)
        ensures
            r.x == x,
            r.y == y,
    {
        Point { x, y }
    }

    pub fn plus(self, o: Point) -> (r: Point)
        requires
            can_add(self, o),
        ensures
            r.x == self.x + o.x,
            r.y == self.y + o.y,
    {
        Point { x: self.x + o.x, y: self.y + o.y }
    }

    pub fn minus(self, o: Point) -> (r: Point)
        requires
            can_sub(self, o),
        ensures
            r.x == self.x - o.x,
            r.y == self.y - o.y,
    {
        Point { x: self.x - o.x, y: self.y - o.y }
    }

    pub fn negated(self) -> (r: Point)
        requires
            self.x != i32::MIN,
            self.y != i32::MIN,
        ensures
            r.x == -self.x,
            r.y == -self.y,
    {
        Point { x: -self.x, y: -self.y }
    }

    /// The dot product; it cannot overflow an `i128`.
    pub fn dot(self, o: Point) -> (r: i128)
        ensures
            r == dot(self, o),
    {
        let (ax, ay, bx, by) = (self.x as i128, self.y as i128, o.x as i128, o.y as i128);
        proof {
            lemma_coord_product_bound(self.x as int, o.x as int);
            lemma_coord_product_bound(self.y as int, o.y as int);
        }
        ax * bx + ay * by
    }
}

} // verus!
