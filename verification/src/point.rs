//! Points of the integer plane.
use vstd::prelude::*;

verus! {

/// A point with integer coordinates.
pub struct Point {
    pub x: i32,
    pub y: i32,
}

impl Point {
    /// The square of the distance between `p1` and `p2`.
    pub open spec fn spec_squared_dis(p1: Point, p2: Point) -> int {
        (p1.x - p2.x) * (p1.x - p2.x) + (p1.y - p2.y) * (p1.y - p2.y)
    }

    /// The point `(x, y)`.
    pub fn new(x: i32, y: i32) -> (r: Point)
        ensures
            r.x == x,
            r.y == y,
    {
        Point { x, y }
    }

    /// The square of the distance between `p1` and `p2`, where that fits
    /// in the result.
    pub fn get_squared_dis(p1: Point, p2: Point) -> (r: i32)
        requires
            Point::spec_squared_dis(p1, p2) <= i32::MAX,
        ensures
            r == Point::spec_squared_dis(p1, p2),
    {
        let dx: i64 = p1.x as i64 - p2.x as i64;
        let dy: i64 = p1.y as i64 - p2.y as i64;
        assert(0 <= dx * dx <= 0x1_0000_0000 * 0x1_0000_0000) by (nonlinear_arith)
            requires
                -0x1_0000_0000 <= dx <= 0x1_0000_0000,
        ;
        assert(0 <= dy * dy <= 0x1_0000_0000 * 0x1_0000_0000) by (nonlinear_arith)
            requires
                -0x1_0000_0000 <= dy <= 0x1_0000_0000,
        ;
        let d: i128 = (dx as i128) * (dx as i128) + (dy as i128) * (dy as i128);
        d as i32
    }
}

} // verus!
