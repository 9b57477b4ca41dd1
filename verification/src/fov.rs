use vstd::prelude::*;

use crate::point::Point;
use crate::tile::Tile;
use crate::tilearray::{cell, on_grid, TileArray};
use crate::{LEVEL_HEIGHT, LEVEL_WIDTH};

verus! {

/// The set of cells the shadow-casting pass marks visible from `origin`
/// when exactly the cells of `blocked` stop sight. It depends on those two
/// arguments alone.
pub uninterp spec fn visible_of(blocked: Set<(int, int)>, origin: (int, int)) -> Set<(int, int)>;

/// The cells that stop sight on this grid: walls and doors, the outermost
/// ring of the grid, and everything beyond it.
pub open spec fn fov_blocked(tiles: Seq<Tile>) -> Set<(int, int)> {
    Set::new(
        |p: (int, int)|
            !on_grid(p.0, p.1) || tiles[cell(p.0, p.1)].spec_is_blocking() || p.0 == 0 || p.1 == 0,
    )
}

/// Whether sight stops at the given (row, column) position.
fn fov_blocking(tiles: &TileArray<Tile>, pos: (isize, isize)) -> (r: bool)
    requires
        tiles.wf(),
    ensures
        r == fov_blocked(tiles@).contains((pos.0 as int, pos.1 as int)),
{
    let (y, x) = pos;
    if y < 0 || y >= LEVEL_HEIGHT as isize || x < 0 || x >= LEVEL_WIDTH as isize {
        true
    } else {
        tiles.at(y as i32, x as i32).is_blocking() || y == 0 || x == 0
    }
}

/// Stamps the given (row, column) position with the current turn number;
/// positions off the grid are left alone.
fn fov_mark(last_seen: &mut TileArray<u32>, pos: (isize, isize), turn: u32)
    requires
        old(last_seen).wf(),
    ensures
        final(last_seen).wf(),
        final(last_seen)@ == (if on_grid(pos.0 as int, pos.1 as int) {
            old(last_seen)@.update(cell(pos.0 as int, pos.1 as int), turn)
        } else {
            old(last_seen)@
        }),
{
    let (y, x) = pos;
    if y >= 0 && y < LEVEL_HEIGHT as isize && x >= 0 && x < LEVEL_WIDTH as isize {
        last_seen.set(y as i32, x as i32, turn);
    }
}

/// Recomputes the field of view from `origin` and stamps every visible
/// grid cell of `last_seen` with `turn`; every other cell keeps its stamp.
///
/// Relies on `symmetric_shadowcasting::compute_fov`: it calls the visit
/// callback on the origin and on each position its scan finds visible, a
/// set determined by the blocking predicate and the origin alone.
#[verifier::external_body]
pub(crate) fn compute_fov_stamps(
    tiles: &TileArray<Tile>,
    last_seen: &mut TileArray<u32>,
    origin: Point,
    turn: u32,
)
    requires
        tiles.wf(),
        old(last_seen).wf(),
        origin.in_bounds(),
    ensures
        final(last_seen).wf(),
        forall|y: int, x: int|
            on_grid(y, x) ==> final(last_seen).spec_at(y, x) == (if visible_of(
                fov_blocked(tiles@),
                (origin.y as int, origin.x as int),
            ).contains((y, x)) {
                turn
            } else {
                old(last_seen).spec_at(y, x)
            }),
        final(last_seen).spec_at(origin.y as int, origin.x as int) == turn,
{
    symmetric_shadowcasting::compute_fov(
        origin.into_pos(),
        &mut |pos| fov_blocking(tiles, pos),
        &mut |pos| fov_mark(last_seen, pos, turn),
    );
}

} // verus!
