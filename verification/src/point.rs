use vstd::prelude::*;

use crate::{LEVEL_HEIGHT, LEVEL_WIDTH};

verus! {

/// A grid position in cells; `x` grows eastward, `y` grows southward.
#[derive(Clone, Copy, Debug, PartialEq, Eq, Hash, Structural)]
pub struct Point {
    pub x: i32,
    pub y: i32,
}

impl Point {
    pub fn new(x: i32, y: i32) -> (r: Point)
        ensures
            r.x == x && r.y == y,
    {
        Point { x, y }
    }

    /// True when the point lies on the level grid.
    pub open spec fn spec_in_bounds(self) -> bool {
        0 <= self.x < LEVEL_WIDTH && 0 <= self.y < LEVEL_HEIGHT
    }

    #[verifier::when_used_as_spec(spec_in_bounds)]
    pub fn in_bounds(self) -> (r: bool)
        ensures
            r == self.spec_in_bounds(),
    {
        self.x >= 0 && self.y >= 0 && self.x < LEVEL_WIDTH && self.y < LEVEL_HEIGHT
    }

    /// Orthogonal adjacency: at most one step apart along exactly one axis.
    /// A point neighbors itself; diagonal cells do not count.
    pub open spec fn spec_is_neighboring(self, other: Point) -> bool {
        ||| (self.x == other.x && -1 <= self.y - other.y <= 1)
        ||| (self.y == other.y && -1 <= self.x - other.x <= 1)
    }

    #[verifier::when_used_as_spec(spec_is_neighboring)]
    pub fn is_neighboring(self, other: Point) -> (r: bool)
        ensures
            r == self.spec_is_neighboring(other),
    {
        let dx: i64 = self.x as i64 - other.x as i64;
        let dy: i64 = self.y as i64 - other.y as i64;
        (dx == 0 && -1 <= dy && dy <= 1) || (dy == 0 && -1 <= dx && dx <= 1)
    }

    /// The four orthogonal neighbors, in the order south, east, north, west
    /// of the `y`-grows-southward convention: (x, y+1), (x+1, y), (x, y-1), (x-1, y).
    pub fn iter_neighbors(self) -> (r: Vec<Point>)
        requires
            i32::MIN < self.x < i32::MAX,
            i32::MIN < self.y < i32::MAX,
        ensures
            r@.len() == 4,
            r@[0].x == self.x && r@[0].y == self.y + 1,
            r@[1].x == self.x + 1 && r@[1].y == self.y,
            r@[2].x == self.x && r@[2].y == self.y - 1,
            r@[3].x == self.x - 1 && r@[3].y == self.y,
            forall|i: int| 0 <= i < 4 ==> self.spec_is_neighboring(#[trigger] r@[i]),
    {
        let mut r: Vec<Point> = Vec::new();
        r.push(Point { x: self.x, y: self.y + 1 });
        r.push(Point { x: self.x + 1, y: self.y });
        r.push(Point { x: self.x, y: self.y - 1 });
        r.push(Point { x: self.x - 1, y: self.y });
        r
    }

    /// The (row, column) pair of this point, as used by grid-order callers.
    pub fn into_pos(self) -> (r: (isize, isize))
        ensures
            r.0 == self.y as int && r.1 == self.x as int,
    {
        (self.y as isize, self.x as isize)
    }
}

impl core::ops::Add for Point {
    type Output = Point;

    /// Componentwise translation of one point by another.
    fn add(self, rhs: Point) -> (r: Point) {
        Point { x: self.x + rhs.x, y: self.y + rhs.y }
    }
}

impl vstd::std_specs::ops::AddSpecImpl for Point {
    open spec fn obeys_add_spec() -> bool {
        true
    }

    open spec fn add_req(self, rhs: Point) -> bool {
        i32::MIN <= self.x + rhs.x <= i32::MAX && i32::MIN <= self.y + rhs.y <= i32::MAX
    }

    open spec fn add_spec(self, rhs: Point) -> Point {
        Point { x: (self.x + rhs.x) as i32, y: (self.y + rhs.y) as i32 }
    }
}

} // verus!
