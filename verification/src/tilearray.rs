use vstd::prelude::*;

use crate::point::Point;
use crate::rng::{rand_coin, rand_range};
use crate::room::Room;
use crate::tile::Tile;
use crate::{LEVEL_HEIGHT, LEVEL_WIDTH};

verus! {

/// True when row `y`, column `x` is a cell of the level grid.
pub open spec fn on_grid(y: int, x: int) -> bool {
    0 <= y < LEVEL_HEIGHT && 0 <= x < LEVEL_WIDTH
}

/// The position of cell (`y`, `x`) in row-major order.
pub open spec fn cell(y: int, x: int) -> int {
    y * LEVEL_WIDTH + x
}

/// True when (`y`, `x`) lies strictly inside `room`'s border.
pub open spec fn room_interior(room: Room, y: int, x: int) -> bool {
    room.top_left.y < y < room.bottom_right.y && room.top_left.x < x < room.bottom_right.x
}

/// A dense fixed-size grid of `LEVEL_HEIGHT` rows by `LEVEL_WIDTH` columns,
/// stored in row-major order and viewed as the sequence of its cells.
#[derive(Debug)]
pub struct TileArray<T> {
    array: Vec<T>,
}

impl<T> View for TileArray<T> {
    type V = Seq<T>;

    closed spec fn view(&self) -> Seq<T> {
        self.array@
    }
}

impl<T> TileArray<T> {
    /// The grid holds exactly one value per cell.
    pub open spec fn wf(self) -> bool {
        self@.len() == LEVEL_WIDTH * LEVEL_HEIGHT
    }

    /// The value of cell (`y`, `x`).
    pub open spec fn spec_at(self, y: int, x: int) -> T {
        self@[cell(y, x)]
    }
}

impl<T: Copy> TileArray<T> {
    pub fn new(default: T) -> (r: Self)
        ensures
            r.wf(),
            forall|y: int, x: int| on_grid(y, x) ==> r.spec_at(y, x) == default,
    {
        let n: usize = (LEVEL_HEIGHT * LEVEL_WIDTH) as usize;
        let mut array: Vec<T> = Vec::new();
        while array.len() < n
            invariant
                array@.len() <= n,
                n == LEVEL_WIDTH * LEVEL_HEIGHT,
                forall|i: int| 0 <= i < array@.len() ==> array@[i] == default,
            decreases n - array@.len(),
        {
            array.push(default);
        }
        TileArray { array }
    }

    pub fn at(&self, y: i32, x: i32) -> (r: T)
        requires
            self.wf(),
            on_grid(y as int, x as int),
        ensures
            r == self.spec_at(y as int, x as int),
    {
        self.array[(y * LEVEL_WIDTH + x) as usize]
    }

    pub fn at_point(&self, p: Point) -> (r: T)
        requires
            self.wf(),
            p.in_bounds(),
        ensures
            r == self.spec_at(p.y as int, p.x as int),
    {
        self.at(p.y, p.x)
    }

    pub fn set(&mut self, y: i32, x: i32, value: T)
        requires
            old(self).wf(),
            on_grid(y as int, x as int),
        ensures
            final(self)@ == old(self)@.update(cell(y as int, x as int), value),
            final(self).wf(),
    {
        self.array[(y * LEVEL_WIDTH + x) as usize] = value;
    }

    pub fn set_point(&mut self, p: Point, value: T)
        requires
            old(self).wf(),
            p.in_bounds(),
        ensures
            final(self)@ == old(self)@.update(cell(p.y as int, p.x as int), value),
            final(self).wf(),
    {
        self.set(p.y, p.x, value);
    }
}

impl TileArray<Tile> {
    /// A random cell strictly inside the level border whose tile is plain
    /// floor. Random tries are bounded; if they all miss, the grid is
    /// scanned, so the search never loops forever. Only when the grid holds
    /// no interior floor cell at all does the fallback cell come back
    /// without its tile being floor.
    pub fn generate_floor_point(&self) -> (r: Point)
        requires
            self.wf(),
        ensures
            0 < r.x < LEVEL_WIDTH - 1,
            0 < r.y < LEVEL_HEIGHT - 1,
            (exists|y: int, x: int|
                0 < y < LEVEL_HEIGHT - 1 && 0 < x < LEVEL_WIDTH - 1 && self.spec_at(y, x)
                    == Tile::Room) ==> self.spec_at(r.y as int, r.x as int) == Tile::Room,
    {
        let whole_level = Room::new(0, 0, LEVEL_WIDTH - 1, LEVEL_HEIGHT - 1);
        let mut i: usize = 0;
        while i < 1000
            invariant
                self.wf(),
                whole_level.top_left.x == 0 && whole_level.top_left.y == 0,
                whole_level.bottom_right.x == LEVEL_WIDTH - 1,
                whole_level.bottom_right.y == LEVEL_HEIGHT - 1,
            decreases 1000 - i,
        {
            let proposed_position = whole_level.generate_inner_point();
            if self.at_point(proposed_position) == Tile::Room {
                return proposed_position;
            }
            i = i + 1;
        }
        let mut y: i32 = 1;
        while y < LEVEL_HEIGHT - 1
            invariant
                self.wf(),
                1 <= y <= LEVEL_HEIGHT - 1,
                forall|yy: int, xx: int|
                    0 < yy < y && 0 < xx < LEVEL_WIDTH - 1 ==> self.spec_at(yy, xx) != Tile::Room,
            decreases LEVEL_HEIGHT - y,
        {
            let mut x: i32 = 1;
            while x < LEVEL_WIDTH - 1
                invariant
                    self.wf(),
                    1 <= y < LEVEL_HEIGHT - 1,
                    1 <= x <= LEVEL_WIDTH - 1,
                    forall|yy: int, xx: int|
                        0 < yy < y && 0 < xx < LEVEL_WIDTH - 1 ==> self.spec_at(yy, xx)
                            != Tile::Room,
                    forall|xx: int| 0 < xx < x ==> self.spec_at(y as int, xx) != Tile::Room,
                decreases LEVEL_WIDTH - x,
            {
                if self.at(y, x) == Tile::Room {
                    return Point::new(x, y);
                }
                x = x + 1;
            }
            y = y + 1;
        }
        Point::new(1, 1)
    }

    /// Writes floor over the open interior of `room`, then patches up to
    /// three cells beside its corners where a corridor already met the
    /// border, exactly when the corner conditions on the prior grid hold.
    pub fn carve_room(&mut self, room: Room)
        requires
            old(self).wf(),
            0 <= room.top_left.x,
            0 <= room.top_left.y,
            room.bottom_right.x <= LEVEL_WIDTH - 1,
            room.bottom_right.y <= LEVEL_HEIGHT - 1,
            room.top_left.x + 3 <= room.bottom_right.x,
            room.top_left.y + 3 <= room.bottom_right.y,
        ensures
            final(self).wf(),
            forall|y: int, x: int|
                room_interior(room, y, x) ==> final(self).spec_at(y, x) == Tile::Room,
            final(self).spec_at(room.top_left.y + 1, room.top_left.x as int) == (
            if old(self).corner_carved_top_left(room) {
                Tile::Room
            } else {
                old(self).spec_at(room.top_left.y + 1, room.top_left.x as int)
            }),
            final(self).spec_at(room.bottom_right.y - 1, room.bottom_right.x as int) == (
            if (old(self).corner_carved_bottom_right(room) || old(self).corner_carved_bottom_left(
                room,
            )) {
                Tile::Room
            } else {
                old(self).spec_at(room.bottom_right.y - 1, room.bottom_right.x as int)
            }),
            final(self).spec_at(room.top_left.y + 1, room.bottom_right.x as int) == (
            if old(self).corner_carved_top_right(room) {
                Tile::Room
            } else {
                old(self).spec_at(room.top_left.y + 1, room.bottom_right.x as int)
            }),
            forall|y: int, x: int|
                on_grid(y, x) && !room_interior(room, y, x) && !(y == room.top_left.y + 1 && x
                    == room.top_left.x) && !(y == room.bottom_right.y - 1 && x
                    == room.bottom_right.x) && !(y == room.top_left.y + 1 && x
                    == room.bottom_right.x) ==> #[trigger] final(self).spec_at(y, x) == old(
                    self,
                ).spec_at(y, x),
            forall|y: int, x: int|
                on_grid(y, x) ==> #[trigger] final(self).spec_at(y, x) == old(self).spec_at(y, x)
                    || final(self).spec_at(y, x) == Tile::Room,
    {
        let mut y: i32 = room.top_left.y + 1;
        while y < room.bottom_right.y
            invariant
                self.wf(),
                room.top_left.y < y <= room.bottom_right.y,
                room.bottom_right.x <= LEVEL_WIDTH - 1,
                room.bottom_right.y <= LEVEL_HEIGHT - 1,
                0 <= room.top_left.x,
                0 <= room.top_left.y,
                room.top_left.x + 3 <= room.bottom_right.x,
                forall|yy: int, xx: int|
                    room_interior(room, yy, xx) && yy < y ==> self.spec_at(yy, xx) == Tile::Room,
                forall|yy: int, xx: int|
                    on_grid(yy, xx) && !(room_interior(room, yy, xx) && yy < y)
                        ==> #[trigger] self.spec_at(yy, xx) == old(self).spec_at(yy, xx),
            decreases room.bottom_right.y - y,
        {
            let mut x: i32 = room.top_left.x + 1;
            while x < room.bottom_right.x
                invariant
                    self.wf(),
                    room.top_left.y < y < room.bottom_right.y,
                    room.top_left.x < x <= room.bottom_right.x,
                    room.bottom_right.x <= LEVEL_WIDTH - 1,
                    room.bottom_right.y <= LEVEL_HEIGHT - 1,
                    0 <= room.top_left.x,
                    0 <= room.top_left.y,
                    forall|yy: int, xx: int|
                        room_interior(room, yy, xx) && (yy < y || (yy == y && xx < x))
                            ==> self.spec_at(yy, xx) == Tile::Room,
                    forall|yy: int, xx: int|
                        on_grid(yy, xx) && !(room_interior(room, yy, xx) && (yy < y || (yy == y
                            && xx < x))) ==> #[trigger] self.spec_at(yy, xx) == old(self).spec_at(
                            yy,
                            xx,
                        ),
                decreases room.bottom_right.x - x,
            {
                let ghost pre = *self;
                self.set(y, x, Tile::Room);
                proof {
                    assert forall|yy: int, xx: int|
                        room_interior(room, yy, xx) && (yy < y || (yy == y && xx < x + 1))
                        implies self.spec_at(yy, xx) == Tile::Room by {
                        if !(yy == y && xx == x) {
                            assert(pre.spec_at(yy, xx) == Tile::Room);
                            assert(cell(yy, xx) != cell(y as int, x as int));
                        }
                    }
                    assert forall|yy: int, xx: int|
                        on_grid(yy, xx) && !(room_interior(room, yy, xx) && (yy < y || (yy == y
                            && xx < x + 1))) implies self.spec_at(yy, xx) == old(self).spec_at(
                        yy,
                        xx,
                    ) by {
                        assert(pre.spec_at(yy, xx) == old(self).spec_at(yy, xx));
                        assert(cell(yy, xx) != cell(y as int, x as int));
                    }
                }
                x = x + 1;
            }
            y = y + 1;
        }

        let top_left_met = self.at(room.top_left.y, room.top_left.x) == Tile::Room && self.at(
            room.top_left.y,
            room.top_left.x + 1,
        ) == Tile::Wall && self.at(room.top_left.y + 1, room.top_left.x) == Tile::Wall;
        let bottom_right_met = self.at(room.bottom_right.y, room.bottom_right.x) == Tile::Room
            && self.at(room.bottom_right.y, room.bottom_right.x - 1) == Tile::Wall && self.at(
            room.bottom_right.y - 1,
            room.bottom_right.x,
        ) == Tile::Wall;
        let bottom_left_met = self.at(room.bottom_right.y, room.top_left.x) == Tile::Room
            && self.at(room.bottom_right.y, room.top_left.x + 1) == Tile::Wall && self.at(
            room.bottom_right.y - 1,
            room.top_left.x,
        ) == Tile::Wall;
        let top_right_met = self.at(room.top_left.y, room.bottom_right.x) == Tile::Room && self.at(
            room.top_left.y,
            room.bottom_right.x - 1,
        ) == Tile::Wall && self.at(room.top_left.y + 1, room.bottom_right.x) == Tile::Wall;
        proof {
            assert(top_left_met == old(self).corner_carved_top_left(room));
            assert(bottom_right_met == old(self).corner_carved_bottom_right(room));
            assert(bottom_left_met == old(self).corner_carved_bottom_left(room));
            assert(top_right_met == old(self).corner_carved_top_right(room));
        }
        let ghost carved = *self;
        if top_left_met {
            self.set(room.top_left.y + 1, room.top_left.x, Tile::Room);
        }
        proof {
            assert(self.spec_at(room.top_left.y + 1, room.top_left.x as int) == (
            if top_left_met {
                Tile::Room
            } else {
                carved.spec_at(room.top_left.y + 1, room.top_left.x as int)
            }));
        }
        let ghost step1 = *self;
        if bottom_right_met || bottom_left_met {
            self.set(room.bottom_right.y - 1, room.bottom_right.x, Tile::Room);
        }
        let ghost step2 = *self;
        if top_right_met {
            self.set(room.top_left.y + 1, room.bottom_right.x, Tile::Room);
        }
        proof {
            assert(carved.spec_at(room.bottom_right.y - 1, room.bottom_right.x as int) == old(
                self,
            ).spec_at(room.bottom_right.y - 1, room.bottom_right.x as int));
            assert(step1.spec_at(room.bottom_right.y - 1, room.bottom_right.x as int)
                == carved.spec_at(room.bottom_right.y - 1, room.bottom_right.x as int));
            assert(step2.spec_at(room.bottom_right.y - 1, room.bottom_right.x as int) == (
            if bottom_right_met || bottom_left_met {
                Tile::Room
            } else {
                step1.spec_at(room.bottom_right.y - 1, room.bottom_right.x as int)
            }));
            assert(self.spec_at(room.bottom_right.y - 1, room.bottom_right.x as int)
                == step2.spec_at(room.bottom_right.y - 1, room.bottom_right.x as int));
            assert forall|y: int, x: int|
                on_grid(y, x) && !room_interior(room, y, x) && !(y == room.top_left.y + 1 && x
                    == room.top_left.x) && !(y == room.bottom_right.y - 1 && x
                    == room.bottom_right.x) && !(y == room.top_left.y + 1 && x
                    == room.bottom_right.x) implies self.spec_at(y, x) == old(self).spec_at(
                y,
                x,
            ) by {
                assert(carved.spec_at(y, x) == old(self).spec_at(y, x));
                assert(step1.spec_at(y, x) == carved.spec_at(y, x));
                assert(step2.spec_at(y, x) == step1.spec_at(y, x));
                assert(self.spec_at(y, x) == step2.spec_at(y, x));
            }
            assert forall|y: int, x: int| on_grid(y, x) implies self.spec_at(y, x) == old(
                self,
            ).spec_at(y, x) || self.spec_at(y, x) == Tile::Room by {
                if !(room_interior(room, y, x) || (y == room.top_left.y + 1 && x
                    == room.top_left.x) || (y == room.bottom_right.y - 1 && x
                    == room.bottom_right.x) || (y == room.top_left.y + 1 && x
                    == room.bottom_right.x)) {
                    assert(carved.spec_at(y, x) == old(self).spec_at(y, x));
                    assert(step1.spec_at(y, x) == carved.spec_at(y, x));
                    assert(step2.spec_at(y, x) == step1.spec_at(y, x));
                    assert(self.spec_at(y, x) == step2.spec_at(y, x));
                }
            }
        }
    }

    /// A corridor already reached the top-left corner from the side.
    pub open spec fn corner_carved_top_left(self, room: Room) -> bool {
        &&& self.spec_at(room.top_left.y as int, room.top_left.x as int) == Tile::Room
        &&& self.spec_at(room.top_left.y as int, room.top_left.x + 1) == Tile::Wall
        &&& self.spec_at(room.top_left.y + 1, room.top_left.x as int) == Tile::Wall
    }

    /// A corridor already reached the bottom-right corner from the side.
    pub open spec fn corner_carved_bottom_right(self, room: Room) -> bool {
        &&& self.spec_at(room.bottom_right.y as int, room.bottom_right.x as int) == Tile::Room
        &&& self.spec_at(room.bottom_right.y as int, room.bottom_right.x - 1) == Tile::Wall
        &&& self.spec_at(room.bottom_right.y - 1, room.bottom_right.x as int) == Tile::Wall
    }

    /// A corridor already reached the bottom-left corner from the side.
    pub open spec fn corner_carved_bottom_left(self, room: Room) -> bool {
        &&& self.spec_at(room.bottom_right.y as int, room.top_left.x as int) == Tile::Room
        &&& self.spec_at(room.bottom_right.y as int, room.top_left.x + 1) == Tile::Wall
        &&& self.spec_at(room.bottom_right.y - 1, room.top_left.x as int) == Tile::Wall
    }

    /// A corridor already reached the top-right corner from the side.
    pub open spec fn corner_carved_top_right(self, room: Room) -> bool {
        &&& self.spec_at(room.top_left.y as int, room.bottom_right.x as int) == Tile::Room
        &&& self.spec_at(room.top_left.y as int, room.bottom_right.x - 1) == Tile::Wall
        &&& self.spec_at(room.top_left.y + 1, room.bottom_right.x as int) == Tile::Wall
    }

    /// Writes floor over the horizontal segment of row `y` between columns
    /// `x1` and `x2`, both ends included.
    pub fn carve_h_corridor(&mut self, y: i32, x1: i32, x2: i32)
        requires
            old(self).wf(),
            0 <= y < LEVEL_HEIGHT,
            0 <= x1 < LEVEL_WIDTH,
            0 <= x2 < LEVEL_WIDTH,
        ensures
            final(self).wf(),
            forall|x: int|
                vstd::math::min(x1 as int, x2 as int) <= x <= vstd::math::max(x1 as int, x2 as int)
                    ==> final(self).spec_at(y as int, x) == Tile::Room,
            forall|yy: int, xx: int|
                on_grid(yy, xx) && !(yy == y && vstd::math::min(x1 as int, x2 as int) <= xx
                    <= vstd::math::max(x1 as int, x2 as int)) ==> #[trigger] final(self).spec_at(
                    yy,
                    xx,
                ) == old(self).spec_at(yy, xx),
    {
        let lo: i32 = if x1 < x2 { x1 } else { x2 };
        let hi: i32 = if x1 < x2 { x2 } else { x1 };
        let mut x: i32 = lo;
        while x < hi + 1
            invariant
                self.wf(),
                lo == vstd::math::min(x1 as int, x2 as int),
                hi == vstd::math::max(x1 as int, x2 as int),
                lo <= x <= hi + 1,
                0 <= y < LEVEL_HEIGHT,
                0 <= lo,
                hi < LEVEL_WIDTH,
                forall|xx: int| lo <= xx < x ==> self.spec_at(y as int, xx) == Tile::Room,
                forall|yy: int, xx: int|
                    on_grid(yy, xx) && !(yy == y && lo <= xx < x) ==> self.spec_at(yy, xx) == old(
                        self,
                    ).spec_at(yy, xx),
            decreases hi + 1 - x,
        {
            let ghost pre = *self;
            self.set(y, x, Tile::Room);
            proof {
                assert forall|xx: int| lo <= xx < x + 1 implies self.spec_at(y as int, xx)
                    == Tile::Room by {
                    if xx < x {
                        assert(pre.spec_at(y as int, xx) == Tile::Room);
                        assert(cell(y as int, xx) != cell(y as int, x as int));
                    }
                }
                assert forall|yy: int, xx: int|
                    on_grid(yy, xx) && !(yy == y && lo <= xx < x + 1) implies self.spec_at(yy, xx)
                    == old(self).spec_at(yy, xx) by {
                    assert(pre.spec_at(yy, xx) == old(self).spec_at(yy, xx));
                    assert(cell(yy, xx) != cell(y as int, x as int));
                }
            }
            x = x + 1;
        }
    }

    /// Writes floor over the vertical segment of column `x` between rows
    /// `y1` and `y2`, both ends included.
    pub fn carve_v_corridor(&mut self, x: i32, y1: i32, y2: i32)
        requires
            old(self).wf(),
            0 <= x < LEVEL_WIDTH,
            0 <= y1 < LEVEL_HEIGHT,
            0 <= y2 < LEVEL_HEIGHT,
        ensures
            final(self).wf(),
            forall|y: int|
                vstd::math::min(y1 as int, y2 as int) <= y <= vstd::math::max(y1 as int, y2 as int)
                    ==> final(self).spec_at(y, x as int) == Tile::Room,
            forall|yy: int, xx: int|
                on_grid(yy, xx) && !(xx == x && vstd::math::min(y1 as int, y2 as int) <= yy
                    <= vstd::math::max(y1 as int, y2 as int)) ==> #[trigger] final(self).spec_at(
                    yy,
                    xx,
                ) == old(self).spec_at(yy, xx),
    {
        let lo: i32 = if y1 < y2 { y1 } else { y2 };
        let hi: i32 = if y1 < y2 { y2 } else { y1 };
        let mut y: i32 = lo;
        while y < hi + 1
            invariant
                self.wf(),
                lo == vstd::math::min(y1 as int, y2 as int),
                hi == vstd::math::max(y1 as int, y2 as int),
                lo <= y <= hi + 1,
                0 <= x < LEVEL_WIDTH,
                0 <= lo,
                hi < LEVEL_HEIGHT,
                forall|yy: int| lo <= yy < y ==> self.spec_at(yy, x as int) == Tile::Room,
                forall|yy: int, xx: int|
                    on_grid(yy, xx) && !(xx == x && lo <= yy < y) ==> self.spec_at(yy, xx) == old(
                        self,
                    ).spec_at(yy, xx),
            decreases hi + 1 - y,
        {
            let ghost pre = *self;
            self.set(y, x, Tile::Room);
            proof {
                assert forall|yy: int| lo <= yy < y + 1 implies self.spec_at(yy, x as int)
                    == Tile::Room by {
                    if yy < y {
                        assert(pre.spec_at(yy, x as int) == Tile::Room);
                        assert(cell(yy, x as int) != cell(y as int, x as int));
                    }
                }
                assert forall|yy: int, xx: int|
                    on_grid(yy, xx) && !(xx == x && lo <= yy < y + 1) implies self.spec_at(yy, xx)
                    == old(self).spec_at(yy, xx) by {
                    assert(pre.spec_at(yy, xx) == old(self).spec_at(yy, xx));
                    assert(cell(yy, xx) != cell(y as int, x as int));
                }
            }
            y = y + 1;
        }
    }

    /// A cell of the L-shaped corridor between the two carved cells:
    /// with `horizontal_first`, the row of `p1` between the two columns and
    /// then the column of `p2` between the two rows; otherwise the column
    /// of `p1` and then the row of `p2`.
    pub open spec fn corridor_cell(
        p1: Point,
        p2: Point,
        horizontal_first: bool,
        y: int,
        x: int,
    ) -> bool {
        if horizontal_first {
            ||| (y == p1.y && vstd::math::min(p1.x as int, p2.x as int) <= x <= vstd::math::max(
                p1.x as int,
                p2.x as int,
            ))
            ||| (x == p2.x && vstd::math::min(p1.y as int, p2.y as int) <= y <= vstd::math::max(
                p1.y as int,
                p2.y as int,
            ))
        } else {
            ||| (x == p1.x && vstd::math::min(p1.y as int, p2.y as int) <= y <= vstd::math::max(
                p1.y as int,
                p2.y as int,
            ))
            ||| (y == p2.y && vstd::math::min(p1.x as int, p2.x as int) <= x <= vstd::math::max(
                p1.x as int,
                p2.x as int,
            ))
        }
    }

    /// The whole L-shaped corridor between the two cells is floor.
    pub open spec fn l_path_carved(self, p1: Point, p2: Point, horizontal_first: bool) -> bool {
        forall|y: int, x: int|
            TileArray::<Tile>::corridor_cell(p1, p2, horizontal_first, y, x)
                ==> #[trigger] self.spec_at(y, x) == Tile::Room
    }

    /// Connects an inner point of each room with one horizontal and one
    /// vertical straight segment, in a random order; every touched cell
    /// becomes floor and every other cell keeps its tile.
    pub fn carve_corridor_between(&mut self, room1: Room, room2: Room)
        requires
            old(self).wf(),
            0 <= room1.top_left.x && 0 <= room1.top_left.y,
            room1.bottom_right.x <= LEVEL_WIDTH - 1 && room1.bottom_right.y <= LEVEL_HEIGHT - 1,
            room1.top_left.x + 1 < room1.bottom_right.x,
            room1.top_left.y + 1 < room1.bottom_right.y,
            0 <= room2.top_left.x && 0 <= room2.top_left.y,
            room2.bottom_right.x <= LEVEL_WIDTH - 1 && room2.bottom_right.y <= LEVEL_HEIGHT - 1,
            room2.top_left.x + 1 < room2.bottom_right.x,
            room2.top_left.y + 1 < room2.bottom_right.y,
        ensures
            final(self).wf(),
            forall|y: int, x: int|
                on_grid(y, x) ==> #[trigger] final(self).spec_at(y, x) == old(self).spec_at(y, x)
                    || final(self).spec_at(y, x) == Tile::Room,
            exists|p1: Point, p2: Point, horizontal_first: bool|
                room_interior(room1, p1.y as int, p1.x as int) && room_interior(
                    room2,
                    p2.y as int,
                    p2.x as int,
                ) && #[trigger] final(self).l_path_carved(p1, p2, horizontal_first) && (forall|
                    y: int,
                    x: int,
                |
                    on_grid(y, x) && final(self).spec_at(y, x) != old(self).spec_at(y, x)
                        ==> TileArray::<Tile>::corridor_cell(p1, p2, horizontal_first, y, x)),
    {
        let room1_point = room1.generate_inner_point();
        let room2_point = room2.generate_inner_point();

        if rand_coin() {
            let ghost mid0 = *self;
            self.carve_h_corridor(room1_point.y, room1_point.x, room2_point.x);
            let ghost mid1 = *self;
            self.carve_v_corridor(room2_point.x, room1_point.y, room2_point.y);
            proof {
                assert forall|y: int, x: int|
                    TileArray::<Tile>::corridor_cell(room1_point, room2_point, true, y, x)
                    implies #[trigger] self.spec_at(y, x) == Tile::Room by {
                    assert(on_grid(y, x));
                    if !(x == room2_point.x && vstd::math::min(
                        room1_point.y as int,
                        room2_point.y as int,
                    ) <= y <= vstd::math::max(room1_point.y as int, room2_point.y as int)) {
                        assert(mid1.spec_at(y, x) == Tile::Room);
                    }
                }
                assert forall|y: int, x: int|
                    on_grid(y, x) && self.spec_at(y, x) != mid0.spec_at(y, x)
                    implies TileArray::<Tile>::corridor_cell(
                    room1_point,
                    room2_point,
                    true,
                    y,
                    x,
                ) by {
                    if mid1.spec_at(y, x) == mid0.spec_at(y, x) {
                        assert(self.spec_at(y, x) != mid1.spec_at(y, x));
                    }
                }
                assert(self.l_path_carved(room1_point, room2_point, true));
            }
        } else {
            let ghost mid0 = *self;
            self.carve_v_corridor(room1_point.x, room1_point.y, room2_point.y);
            let ghost mid1 = *self;
            self.carve_h_corridor(room2_point.y, room1_point.x, room2_point.x);
            proof {
                assert forall|y: int, x: int|
                    TileArray::<Tile>::corridor_cell(room1_point, room2_point, false, y, x)
                    implies #[trigger] self.spec_at(y, x) == Tile::Room by {
                    assert(on_grid(y, x));
                    if !(y == room2_point.y && vstd::math::min(
                        room1_point.x as int,
                        room2_point.x as int,
                    ) <= x <= vstd::math::max(room1_point.x as int, room2_point.x as int)) {
                        assert(mid1.spec_at(y, x) == Tile::Room);
                    }
                }
                assert forall|y: int, x: int|
                    on_grid(y, x) && self.spec_at(y, x) != mid0.spec_at(y, x)
                    implies TileArray::<Tile>::corridor_cell(
                    room1_point,
                    room2_point,
                    false,
                    y,
                    x,
                ) by {
                    if mid1.spec_at(y, x) == mid0.spec_at(y, x) {
                        assert(self.spec_at(y, x) != mid1.spec_at(y, x));
                    }
                }
                assert(self.l_path_carved(room1_point, room2_point, false));
            }
        }
    }

    /// True when the cell and its whole 3-by-3 neighborhood are plain floor.
    pub open spec fn spec_pillar_worthy(self, p: Point) -> bool {
        forall|dy: int, dx: int|
            -1 <= dy <= 1 && -1 <= dx <= 1 ==> #[trigger] self.spec_at(p.y + dy, p.x + dx)
                == Tile::Room
    }

    pub fn is_pillar_worthy(&self, pillar: Point) -> (r: bool)
        requires
            self.wf(),
            0 < pillar.x < LEVEL_WIDTH - 1,
            0 < pillar.y < LEVEL_HEIGHT - 1,
        ensures
            r == self.spec_pillar_worthy(pillar),
    {
        let mut dy: i32 = -1;
        let mut all_floor = true;
        while dy <= 1
            invariant
                self.wf(),
                0 < pillar.x < LEVEL_WIDTH - 1,
                0 < pillar.y < LEVEL_HEIGHT - 1,
                -1 <= dy <= 2,
                all_floor == (forall|ddy: int, ddx: int|
                    -1 <= ddy < dy && -1 <= ddx <= 1 ==> #[trigger] self.spec_at(
                        pillar.y + ddy,
                        pillar.x + ddx,
                    ) == Tile::Room),
            decreases 2 - dy,
        {
            let mut dx: i32 = -1;
            while dx <= 1
                invariant
                    self.wf(),
                    0 < pillar.x < LEVEL_WIDTH - 1,
                    0 < pillar.y < LEVEL_HEIGHT - 1,
                    -1 <= dy <= 1,
                    -1 <= dx <= 2,
                    all_floor == ((forall|ddy: int, ddx: int|
                        -1 <= ddy < dy && -1 <= ddx <= 1 ==> #[trigger] self.spec_at(
                            pillar.y + ddy,
                            pillar.x + ddx,
                        ) == Tile::Room) && (forall|ddx: int|
                        -1 <= ddx < dx ==> #[trigger] self.spec_at(pillar.y + dy, pillar.x + ddx)
                            == Tile::Room)),
                decreases 2 - dx,
            {
                if self.at(pillar.y + dy, pillar.x + dx) != Tile::Room {
                    all_floor = false;
                }
                dx = dx + 1;
            }
            dy = dy + 1;
        }
        all_floor
    }

    /// True when the opposite neighbor pairs on each axis match each other
    /// and the two axes differ: the narrow junction where a corridor meets
    /// a room.
    pub open spec fn spec_door_worthy(self, p: Point) -> bool {
        &&& self.spec_at(p.y - 1, p.x as int) == self.spec_at(p.y + 1, p.x as int)
        &&& self.spec_at(p.y as int, p.x - 1) == self.spec_at(p.y as int, p.x + 1)
        &&& self.spec_at(p.y - 1, p.x as int) != self.spec_at(p.y as int, p.x - 1)
    }

    pub fn is_door_worthy(&self, door: Point) -> (r: bool)
        requires
            self.wf(),
            0 < door.x < LEVEL_WIDTH - 1,
            0 < door.y < LEVEL_HEIGHT - 1,
        ensures
            r == self.spec_door_worthy(door),
    {
        self.at(door.y - 1, door.x) == self.at(door.y + 1, door.x) && self.at(door.y, door.x - 1)
            == self.at(door.y, door.x + 1) && self.at(door.y - 1, door.x) != self.at(
            door.y,
            door.x - 1,
        )
    }
}

} // verus!
