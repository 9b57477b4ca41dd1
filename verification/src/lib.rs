use vstd::prelude::*;

pub mod being;
pub mod beingkind;
pub mod event;
mod fov;
pub mod gamecontext;
pub mod level;
mod pathfind;
pub mod pickupitem;
pub mod playeraction;
pub mod point;
pub mod reach;
mod rng;
pub mod room;
pub mod tile;
pub mod tilearray;

verus! {

/// Width of every level grid, in cells.
pub const LEVEL_WIDTH: i32 = 60;

/// Height of every level grid, in cells.
pub const LEVEL_HEIGHT: i32 = 24;

/// Number of floors in a whole game; descending past the last one wins.
pub const LEVEL_COUNT: i32 = 25;

/// Smallest width and height a generated room may have (inclusive).
pub const MIN_ROOM_WIDTH: i32 = 4;

/// Largest width and height a generated room may have (exclusive).
pub const MAX_ROOM_WIDTH: i32 = 10;

} // verus!
