use vstd::prelude::*;

verus! {

/// Largest magnitude a coordinate may take for arithmetic on it to be safe.
pub const COORD_LIMIT: i32 = 1048576;

/// An integer point on the board grid: `.0` is the column, `.1` the row (row 0 at the bottom).
#[derive(Clone, Copy, PartialEq, Eq, Structural, Debug)]
pub struct Point(pub i32, pub i32);

pub open spec fn pt(x: int, y: int) -> Point
    recommends
        i32::MIN <= x <= i32::MAX,
        i32::MIN <= y <= i32::MAX,
{
    Point(x as i32, y as i32)
}

impl Point {
    pub fn new(x: i32, y: i32) -> (r: Point)
        ensures
            r.0 == x,
            r.1 == y,
    {
        Point(x, y)
    }

    pub fn diag(r: i32) -> (p: Point)
        ensures
            p.0 == r,
            p.1 == r,
    {
        Point(r, r)
    }

    pub fn unit_y(y: i32) -> (p: Point)
        ensures
            p.0 == 0,
            p.1 == y,
    {
        Point(0, y)
    }

    pub fn unit_x(x: i32) -> (p: Point)
        ensures
            p.0 == x,
            p.1 == 0,
    {
        Point(x, 0)
    }

    pub fn x(self) -> (r: i32)
        ensures
            r == self.0,
    {
        self.0
    }

    pub fn y(self) -> (r: i32)
        ensures
            r == self.1,
    {
        self.1
    }

    pub fn min(self) -> (r: i32)
        ensures
            r == if self.0 <= self.1 { self.0 } else { self.1 },
    {
        if self.0 <= self.1 { self.0 } else { self.1 }
    }

    pub fn max(self) -> (r: i32)
        ensures
            r == if self.0 >= self.1 { self.0 } else { self.1 },
    {
        if self.0 >= self.1 { self.0 } else { self.1 }
    }

    /// Component-wise sum.
    pub fn plus(self, o: Point) -> (r: Point)
        requires
            i32::MIN <= self.0 + o.0 <= i32::MAX,
            i32::MIN <= self.1 + o.1 <= i32::MAX,
        ensures
            r.0 == self.0 + o.0,
            r.1 == self.1 + o.1,
    {
        Point(self.0 + o.0, self.1 + o.1)
    }

    /// Component-wise difference.
    pub fn minus(self, o: Point) -> (r: Point)
        requires
            i32::MIN <= self.0 - o.0 <= i32::MAX,
            i32::MIN <= self.1 - o.1 <= i32::MAX,
        ensures
            r.0 == self.0 - o.0,
            r.1 == self.1 - o.1,
    {
        Point(self.0 - o.0, self.1 - o.1)
    }
}

/// A point with half-integer coordinates, stored doubled (`twice_x == 2 * x`).
/// Piece shapes are described with such points around a rotation pivot.
#[derive(Clone, Copy, PartialEq, Eq, Structural, Debug)]
pub struct PartialPoint {
    pub twice_x: i32,
    pub twice_y: i32,
}

/// Floor of `v / 2`.
pub open spec fn half_floor(v: int) -> int {
    if v >= 0 { v / 2 } else { -((-v + 1) / 2) }
}

impl PartialPoint {
    /// The grid cell containing this point: each coordinate rounded down.
    pub fn to_point(self) -> (r: Point)
        requires
            -COORD_LIMIT <= self.twice_x <= COORD_LIMIT,
            -COORD_LIMIT <= self.twice_y <= COORD_LIMIT,
        ensures
            r.0 == half_floor(self.twice_x as int),
            r.1 == half_floor(self.twice_y as int),
            2 * r.0 <= self.twice_x < 2 * r.0 + 2,
            2 * r.1 <= self.twice_y < 2 * r.1 + 2,
    {
        Point(floor_half(self.twice_x), floor_half(self.twice_y))
    }

    /// The point rotated a quarter turn clockwise about the origin.
    pub fn rotate_clockwise(self) -> (r: PartialPoint)
        requires
            self.twice_x != i32::MIN,
        ensures
            r.twice_x == self.twice_y,
            r.twice_y == -self.twice_x,
    {
        PartialPoint { twice_x: self.twice_y, twice_y: -self.twice_x }
    }
}

fn floor_half(v: i32) -> (r: i32)
    requires
        -COORD_LIMIT <= v <= COORD_LIMIT,
    ensures
        r == half_floor(v as int),
        2 * r <= v < 2 * r + 2,
{
    if v >= 0 {
        v / 2
    } else {
        -((-v + 1) / 2)
    }
}

} // verus!
