use vstd::prelude::*;

use pathfinding::prelude::astar;

use crate::being::Being;
use crate::point::Point;
use crate::tile::Tile;
use crate::tilearray::{cell, TileArray};

verus! {

/// One legal move of a pursuing enemy: an orthogonal step onto a walkable
/// grid cell no enemy occupies.
pub open spec fn step_free(tiles: Seq<Tile>, enemies: Seq<Being>, from: Point, to: Point) -> bool {
    &&& from.spec_in_bounds()
    &&& to.spec_in_bounds()
    &&& ((to.x == from.x && (to.y == from.y + 1 || to.y == from.y - 1)) || (to.y == from.y && (
    to.x == from.x + 1 || to.x == from.x - 1)))
    &&& tiles[cell(to.y as int, to.x as int)].spec_is_walkable()
    &&& forall|j: int| 0 <= j < enemies.len() ==> (#[trigger] enemies[j]).position != to
}

/// True when some enemy stands on the given cell.
pub fn occupied_by_enemy(enemies: &Vec<Being>, pos: Point) -> (r: bool)
    ensures
        r == exists|j: int| 0 <= j < enemies@.len() && (#[trigger] enemies@[j]).position == pos,
{
    let mut j: usize = 0;
    while j < enemies.len()
        invariant
            j <= enemies@.len(),
            forall|i: int| 0 <= i < j ==> (#[trigger] enemies@[i]).position != pos,
        decreases enemies@.len() - j,
    {
        if enemies[j].position.x == pos.x && enemies[j].position.y == pos.y {
            return true;
        }
        j = j + 1;
    }
    false
}

/// The cells a pursuer may step to from `p`, each with unit cost: exactly
/// the orthogonal neighbors that are walkable and free of enemies.
pub fn path_successors(tiles: &TileArray<Tile>, enemies: &Vec<Being>, p: Point) -> (r: Vec<
    (Point, u32),
>)
    requires
        tiles.wf(),
    ensures
        r@.len() <= 4,
        forall|i: int|
            0 <= i < r@.len() ==> step_free(tiles@, enemies@, p, (#[trigger] r@[i]).0) && r@[i].1
                == 1,
        forall|q: Point| step_free(tiles@, enemies@, p, q) ==> exists|i: int|
            0 <= i < r@.len() && (#[trigger] r@[i]).0 == q,
{
    let mut r: Vec<(Point, u32)> = Vec::new();
    if !p.in_bounds() {
        return r;
    }
    let neighbors = p.iter_neighbors();
    let mut i: usize = 0;
    while i < neighbors.len()
        invariant
            tiles.wf(),
            p.in_bounds(),
            neighbors@.len() == 4,
            i <= 4,
            r@.len() <= i,
            neighbors@[0].x == p.x && neighbors@[0].y == p.y + 1,
            neighbors@[1].x == p.x + 1 && neighbors@[1].y == p.y,
            neighbors@[2].x == p.x && neighbors@[2].y == p.y - 1,
            neighbors@[3].x == p.x - 1 && neighbors@[3].y == p.y,
            forall|k: int|
                0 <= k < r@.len() ==> step_free(tiles@, enemies@, p, (#[trigger] r@[k]).0) && r@[k].1
                    == 1,
            forall|j: int|
                0 <= j < i ==> (step_free(tiles@, enemies@, p, neighbors@[j]) ==> exists|k: int|
                    0 <= k < r@.len() && (#[trigger] r@[k]).0 == neighbors@[j]),
        decreases 4 - i,
    {
        let q = neighbors[i];
        let ghost r_pre = r@;
        if q.in_bounds() {
            if tiles.at_point(q).is_walkable() {
                if !occupied_by_enemy(enemies, q) {
                    r.push((q, 1));
                }
            }
        }
        proof {
            assert forall|j: int| 0 <= j < i + 1 implies (step_free(tiles@, enemies@, p, neighbors@[j])
                ==> exists|k: int| 0 <= k < r@.len() && (#[trigger] r@[k]).0 == neighbors@[j]) by {
                if step_free(tiles@, enemies@, p, neighbors@[j]) {
                    if j < i {
                        let k = choose|k: int|
                            0 <= k < r_pre.len() && (#[trigger] r_pre[k]).0 == neighbors@[j];
                        assert(r@[k] == r_pre[k]);
                    } else {
                        assert(r@[r@.len() - 1].0 == q);
                    }
                }
            }
        }
        i = i + 1;
    }
    proof {
        assert forall|q: Point| step_free(tiles@, enemies@, p, q) implies exists|k: int|
            0 <= k < r@.len() && (#[trigger] r@[k]).0 == q by {
            assert(q == neighbors@[0] || q == neighbors@[1] || q == neighbors@[2] || q
                == neighbors@[3]);
        }
    }
    r
}

/// The grid distance between two cells along the axes.
pub fn manhattan(p: Point, goal: Point) -> (r: u32)
    requires
        p.in_bounds(),
        goal.in_bounds(),
    ensures
        r == vstd::math::abs(p.x - goal.x) + vstd::math::abs(p.y - goal.y),
{
    let dx: i32 = if p.x >= goal.x {
        p.x - goal.x
    } else {
        goal.x - p.x
    };
    let dy: i32 = if p.y >= goal.y {
        p.y - goal.y
    } else {
        goal.y - p.y
    };
    (dx + dy) as u32
}

/// The shortest route from `start` to `goal` along free steps, if one
/// exists.
///
/// Relies on `pathfinding::prelude::astar`: a returned path includes both
/// ends, starts at the start node, stops at the first node satisfying the
/// success test, and links each node to the next through the successors
/// callback.
#[verifier::external_body]
pub(crate) fn astar_to(
    tiles: &TileArray<Tile>,
    enemies: &Vec<Being>,
    start: Point,
    goal: Point,
) -> (r: Option<Vec<Point>>)
    requires
        tiles.wf(),
        start.in_bounds(),
        goal.in_bounds(),
    ensures
        r matches Some(path) ==> {
            &&& path@.len() >= 1
            &&& path@[0] == start
            &&& path@.last() == goal
            &&& forall|i: int|
                0 <= i < path@.len() - 1 ==> step_free(
                    tiles@,
                    enemies@,
                    #[trigger] path@[i],
                    path@[i + 1],
                )
        },
{
    astar(
        &start,
        |p: &Point| path_successors(tiles, enemies, *p),
        |p: &Point| manhattan(*p, goal),
        |p: &Point| *p == goal,
    ).map(|found| found.0)
}

} // verus!
