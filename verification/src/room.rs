use vstd::prelude::*;

use crate::point::Point;
use crate::rng::rand_range;
use crate::{LEVEL_HEIGHT, LEVEL_WIDTH, MAX_ROOM_WIDTH, MIN_ROOM_WIDTH};

verus! {

/// An axis-aligned rectangle of the level grid. The carved interior is the
/// open rectangle strictly between `top_left` and `bottom_right`; the border
/// itself stays wall.
#[derive(Clone, Copy, Debug)]
pub struct Room {
    pub top_left: Point,
    pub bottom_right: Point,
}

impl Room {
    /// A room shaped as the generator guarantees: corners on the grid and
    /// each side between the configured minimum and maximum.
    pub open spec fn wf(self) -> bool {
        &&& 0 <= self.top_left.x
        &&& 0 <= self.top_left.y
        &&& self.bottom_right.x <= LEVEL_WIDTH - 1
        &&& self.bottom_right.y <= LEVEL_HEIGHT - 1
        &&& MIN_ROOM_WIDTH <= self.bottom_right.x - self.top_left.x < MAX_ROOM_WIDTH
        &&& MIN_ROOM_WIDTH <= self.bottom_right.y - self.top_left.y < MAX_ROOM_WIDTH
    }

    pub fn new(top_left_x: i32, top_left_y: i32, width: i32, height: i32) -> (r: Room)
        requires
            i32::MIN <= top_left_x + width <= i32::MAX,
            i32::MIN <= top_left_y + height <= i32::MAX,
        ensures
            r.top_left.x == top_left_x && r.top_left.y == top_left_y,
            r.bottom_right.x == top_left_x + width && r.bottom_right.y == top_left_y + height,
    {
        Room {
            top_left: Point::new(top_left_x, top_left_y),
            bottom_right: Point::new(top_left_x + width, top_left_y + height),
        }
    }

    /// A random room that fits inside the level bounds.
    pub fn generate() -> (r: Room)
        ensures
            r.wf(),
            r.top_left.in_bounds(),
            r.bottom_right.in_bounds(),
    {
        let width = rand_range(MIN_ROOM_WIDTH, MAX_ROOM_WIDTH);
        let height = rand_range(MIN_ROOM_WIDTH, MAX_ROOM_WIDTH);
        let top_left_x = rand_range(0, LEVEL_WIDTH - width);
        let top_left_y = rand_range(0, LEVEL_HEIGHT - height);

        Room::new(top_left_x, top_left_y, width, height)
    }

    /// Open-interval intersection test: two rooms overlap iff each one's
    /// top-left is strictly less than the other's bottom-right on both axes.
    pub open spec fn spec_overlaps(self, other: Room) -> bool {
        &&& self.top_left.x < other.bottom_right.x
        &&& self.top_left.y < other.bottom_right.y
        &&& other.top_left.x < self.bottom_right.x
        &&& other.top_left.y < self.bottom_right.y
    }

    #[verifier::when_used_as_spec(spec_overlaps)]
    pub fn overlaps(self, other: Room) -> (r: bool)
        ensures
            r == self.spec_overlaps(other),
    {
        self.top_left.x < other.bottom_right.x && self.top_left.y < other.bottom_right.y
            && other.top_left.x < self.bottom_right.x && other.top_left.y < self.bottom_right.y
    }

    /// A random in-bounds room that does not overlap `room`. Random
    /// placement is retried a bounded number of times; if every try
    /// overlapped, a fixed corner room that cannot overlap `room` is used,
    /// so the search never loops forever.
    pub fn generate_not_overlapping(room: Room) -> (r: Room)
        requires
            room.bottom_right.x - room.top_left.x <= MAX_ROOM_WIDTH,
        ensures
            r.wf(),
            !room.spec_overlaps(r),
    {
        let mut i: usize = 0;
        while i < 1000
            decreases 1000 - i,
        {
            let proposed = Room::generate();
            if !room.overlaps(proposed) {
                return proposed;
            }
            i = i + 1;
        }
        if room.top_left.x >= MIN_ROOM_WIDTH || room.top_left.y >= MIN_ROOM_WIDTH {
            Room::new(0, 0, MIN_ROOM_WIDTH, MIN_ROOM_WIDTH)
        } else {
            Room::new(50, 0, MIN_ROOM_WIDTH, MIN_ROOM_WIDTH)
        }
    }

    /// A uniform random point strictly inside the room's border.
    pub fn generate_inner_point(self) -> (r: Point)
        requires
            self.top_left.x + 1 < self.bottom_right.x,
            self.top_left.y + 1 < self.bottom_right.y,
        ensures
            self.top_left.x < r.x < self.bottom_right.x,
            self.top_left.y < r.y < self.bottom_right.y,
    {
        Point::new(
            rand_range(self.top_left.x + 1, self.bottom_right.x),
            rand_range(self.top_left.y + 1, self.bottom_right.y),
        )
    }
}

} // verus!
