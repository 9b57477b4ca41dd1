use vstd::prelude::*;

use crate::being::Being;
use crate::beingkind::{enemies_kind, spec_enemies_kind, BeingKind, ENEMY_KIND_COUNT};
use crate::pathfind::occupied_by_enemy;
use crate::pickupitem::PickUpItem;
use crate::point::Point;
use crate::reach::{
    all_connected, lemma_avoid_pillar, lemma_reach_grow, lemma_reach_refl, lemma_reach_step,
    lemma_reach_sym, lemma_reach_trans, lemma_walk_h, lemma_walk_rect, lemma_walk_v,
    ortho_adjacent, reaches, ring_walkable, walk_ok,
};
use crate::rng::{rand_range, sample_weighted};
use crate::room::Room;
use crate::tile::Tile;
use crate::tilearray::{cell, on_grid, room_interior, TileArray};
use crate::{LEVEL_COUNT, LEVEL_HEIGHT, LEVEL_WIDTH};

verus! {

/// No cell of the grid holds a stairs tile yet.
pub open spec fn stairs_free(t: TileArray<Tile>) -> bool {
    forall|y: int, x: int|
        on_grid(y, x) ==> !((#[trigger] t.spec_at(y, x)) matches Tile::Stairs(_))
}

/// The up-stairs and down-stairs stand at `up` and `down`, and no other
/// cell of the grid holds a stairs tile.
pub open spec fn stairs_placed(t: TileArray<Tile>, up: Point, down: Point) -> bool {
    &&& t.spec_at(up.y as int, up.x as int) == Tile::Stairs(-1i32)
    &&& t.spec_at(down.y as int, down.x as int) == Tile::Stairs(1)
    &&& forall|y: int, x: int|
        on_grid(y, x) && ((#[trigger] t.spec_at(y, x)) matches Tile::Stairs(_)) ==> ((y == up.y
            && x == up.x) || (y == down.y && x == down.x))
}

/// No cell of the grid holds an item tile.
pub open spec fn items_free(t: TileArray<Tile>) -> bool {
    forall|y: int, x: int|
        on_grid(y, x) ==> !((#[trigger] t.spec_at(y, x)) matches Tile::Item(_))
}

/// No cell of the grid holds an item tile of the given kind.
pub open spec fn no_item_of(t: TileArray<Tile>, k: PickUpItem) -> bool {
    forall|y: int, x: int| on_grid(y, x) ==> #[trigger] t.spec_at(y, x) != Tile::Item(k)
}

/// At most one cell of the grid holds an item tile of the given kind.
pub open spec fn at_most_one_item(t: TileArray<Tile>, k: PickUpItem) -> bool {
    forall|y1: int, x1: int, y2: int, x2: int|
        on_grid(y1, x1) && on_grid(y2, x2) && #[trigger] t.spec_at(y1, x1) == Tile::Item(k) && (
        #[trigger] t.spec_at(y2, x2)) == Tile::Item(k) ==> y1 == y2 && x1 == x2
}

/// Writing a non-item tile never brings an item of any kind in.
proof fn lemma_update_keeps_items_free(
    pre: TileArray<Tile>,
    post: TileArray<Tile>,
    p: Point,
    v: Tile,
)
    requires
        pre.wf(),
        post.wf(),
        p.spec_in_bounds(),
        post@ == pre@.update(cell(p.y as int, p.x as int), v),
        !(v matches Tile::Item(_)),
        items_free(pre),
    ensures
        items_free(post),
{
    assert forall|y: int, x: int|
        on_grid(y, x) implies !((#[trigger] post.spec_at(y, x)) matches Tile::Item(_)) by {
        if cell(y, x) != cell(p.y as int, p.x as int) {
            assert(post.spec_at(y, x) == pre.spec_at(y, x));
        }
    }
}

/// Writing a tile that is not an item of kind `k` keeps the grid free of
/// such items.
proof fn lemma_update_keeps_no_item(
    pre: TileArray<Tile>,
    post: TileArray<Tile>,
    p: Point,
    v: Tile,
    k: PickUpItem,
)
    requires
        pre.wf(),
        post.wf(),
        p.spec_in_bounds(),
        post@ == pre@.update(cell(p.y as int, p.x as int), v),
        v != Tile::Item(k),
        no_item_of(pre, k),
    ensures
        no_item_of(post, k),
{
    assert forall|y: int, x: int|
        on_grid(y, x) implies #[trigger] post.spec_at(y, x) != Tile::Item(k) by {
        if cell(y, x) != cell(p.y as int, p.x as int) {
            assert(post.spec_at(y, x) == pre.spec_at(y, x));
        }
    }
}

/// Writing a tile that is not an item of kind `k` adds no such item.
proof fn lemma_update_keeps_one_item(
    pre: TileArray<Tile>,
    post: TileArray<Tile>,
    p: Point,
    v: Tile,
    k: PickUpItem,
)
    requires
        pre.wf(),
        post.wf(),
        p.spec_in_bounds(),
        post@ == pre@.update(cell(p.y as int, p.x as int), v),
        v != Tile::Item(k),
        at_most_one_item(pre, k),
    ensures
        at_most_one_item(post, k),
{
    assert forall|y1: int, x1: int, y2: int, x2: int|
        on_grid(y1, x1) && on_grid(y2, x2) && #[trigger] post.spec_at(y1, x1) == Tile::Item(k) && (
        #[trigger] post.spec_at(y2, x2)) == Tile::Item(k) implies y1 == y2 && x1 == x2 by {
        assert(cell(y1, x1) != cell(p.y as int, p.x as int));
        assert(cell(y2, x2) != cell(p.y as int, p.x as int));
        assert(post.spec_at(y1, x1) == pre.spec_at(y1, x1));
        assert(post.spec_at(y2, x2) == pre.spec_at(y2, x2));
    }
}

/// Placing an item of kind `k` on a grid that held none leaves exactly one.
proof fn lemma_update_places_item(
    pre: TileArray<Tile>,
    post: TileArray<Tile>,
    p: Point,
    k: PickUpItem,
)
    requires
        pre.wf(),
        post.wf(),
        p.spec_in_bounds(),
        post@ == pre@.update(cell(p.y as int, p.x as int), Tile::Item(k)),
        no_item_of(pre, k),
    ensures
        at_most_one_item(post, k),
{
    assert forall|y1: int, x1: int, y2: int, x2: int|
        on_grid(y1, x1) && on_grid(y2, x2) && #[trigger] post.spec_at(y1, x1) == Tile::Item(k) && (
        #[trigger] post.spec_at(y2, x2)) == Tile::Item(k) implies y1 == y2 && x1 == x2 by {
        assert(cell(y1, x1) == cell(p.y as int, p.x as int)) by {
            if cell(y1, x1) != cell(p.y as int, p.x as int) {
                assert(post.spec_at(y1, x1) == pre.spec_at(y1, x1));
            }
        }
        assert(cell(y2, x2) == cell(p.y as int, p.x as int)) by {
            if cell(y2, x2) != cell(p.y as int, p.x as int) {
                assert(post.spec_at(y2, x2) == pre.spec_at(y2, x2));
            }
        }
    }
}

/// One enemy as a level may hold it: a non-player kind with its kind's
/// stats, alive, standing on a walkable cell of the grid.
pub open spec fn enemy_ok(tiles: TileArray<Tile>, b: Being) -> bool {
    &&& b.kind != crate::beingkind::BeingKind::Player
    &&& b.stats_match_kind()
    &&& 1 <= b.health_points <= b.max_health_points
    &&& b.position.spec_in_bounds()
    &&& tiles.spec_at(b.position.y as int, b.position.x as int).spec_is_walkable()
}

/// The sampling weight floor `level` gives an enemy kind: its tier's
/// clamped linear ramp times the five-three-two share inside the tier.
pub open spec fn spec_kind_weight(level: int, kind: BeingKind) -> int {
    let tier_1 = if level + 1 < 12 - level {
        level + 1
    } else {
        12 - level
    };
    let tier_2 = if level - 4 < 20 - level {
        level - 4
    } else {
        20 - level
    };
    let tier_3 = if level - 12 < 26 - level {
        level - 12
    } else {
        26 - level
    };
    let ramp: int = match kind {
        BeingKind::Player => 0,
        BeingKind::Gnoll | BeingKind::Bat | BeingKind::AnimatedStatue => if tier_1 > 0 {
            tier_1
        } else {
            0
        },
        BeingKind::Kestrel | BeingKind::Emu | BeingKind::LazyImp => if tier_2 > 0 {
            tier_2
        } else {
            0
        },
        BeingKind::Troll | BeingKind::Zombie | BeingKind::StoneSatan => if tier_3 > 0 {
            tier_3
        } else {
            0
        },
    };
    let share: int = match kind {
        BeingKind::Player => 0,
        BeingKind::Gnoll | BeingKind::Kestrel | BeingKind::Troll => 5,
        BeingKind::Bat | BeingKind::Emu | BeingKind::Zombie => 3,
        BeingKind::AnimatedStatue | BeingKind::LazyImp | BeingKind::StoneSatan => 2,
    };
    ramp * share
}

/// Writing a non-stairs tile over a non-stairs cell moves no stairs.
pub proof fn lemma_overwrite_keeps_stairs(
    pre: TileArray<Tile>,
    post: TileArray<Tile>,
    p: Point,
    v: Tile,
    up: Point,
    down: Point,
)
    requires
        pre.wf(),
        post.wf(),
        p.spec_in_bounds(),
        up.spec_in_bounds(),
        down.spec_in_bounds(),
        post@ == pre@.update(cell(p.y as int, p.x as int), v),
        !(v matches Tile::Stairs(_)),
        !(pre.spec_at(p.y as int, p.x as int) matches Tile::Stairs(_)),
        stairs_placed(pre, up, down),
    ensures
        stairs_placed(post, up, down),
{
    assert(post.spec_at(up.y as int, up.x as int) == Tile::Stairs(-1i32)) by {
        if cell(up.y as int, up.x as int) == cell(p.y as int, p.x as int) {
            assert(pre.spec_at(up.y as int, up.x as int) == pre.spec_at(
                p.y as int,
                p.x as int,
            ));
        }
    }
    assert(post.spec_at(down.y as int, down.x as int) == Tile::Stairs(1)) by {
        if cell(down.y as int, down.x as int) == cell(p.y as int, p.x as int) {
            assert(pre.spec_at(down.y as int, down.x as int) == pre.spec_at(
                p.y as int,
                p.x as int,
            ));
        }
    }
    assert forall|y: int, x: int|
        on_grid(y, x) && ((#[trigger] post.spec_at(y, x)) matches Tile::Stairs(_)) implies ((y
        == up.y && x == up.x) || (y == down.y && x == down.x)) by {
        if cell(y, x) != cell(p.y as int, p.x as int) {
            assert(post.spec_at(y, x) == pre.spec_at(y, x));
        }
    }
}

/// Two grids with the same walkable cells connect the same cells.
proof fn lemma_conn_same_walk(t1: TileArray<Tile>, t2: TileArray<Tile>)
    requires
        forall|q: Point| #[trigger] walk_ok(t1, q) == walk_ok(t2, q),
        all_connected(t1),
    ensures
        all_connected(t2),
{
    assert forall|a: Point, b: Point| walk_ok(t2, a) && walk_ok(t2, b) implies #[trigger] reaches(
        t2,
        a,
        b,
    ) by {
        assert(reaches(t1, a, b));
        lemma_reach_grow(t1, t2, a, b);
    }
}

/// The carved corridor joins its first end to each of its cells.
proof fn lemma_corridor_reach(
    t: TileArray<Tile>,
    p1: Point,
    p2: Point,
    horizontal_first: bool,
    c: Point,
)
    requires
        p1.spec_in_bounds(),
        p2.spec_in_bounds(),
        t.wf(),
        t.l_path_carved(p1, p2, horizontal_first),
        TileArray::<Tile>::corridor_cell(p1, p2, horizontal_first, c.y as int, c.x as int),
    ensures
        reaches(t, p1, c),
{
    if horizontal_first {
        if c.y == p1.y && vstd::math::min(p1.x as int, p2.x as int) <= c.x <= vstd::math::max(
            p1.x as int,
            p2.x as int,
        ) {
            lemma_walk_h(t, p1.y, p1.x, c.x);
            assert(p1 == (Point { x: p1.x, y: p1.y }));
            assert(c == (Point { x: c.x, y: p1.y }));
        } else {
            let corner = Point { x: p2.x, y: p1.y };
            lemma_walk_h(t, p1.y, p1.x, p2.x);
            lemma_walk_v(t, p2.x, p1.y, c.y);
            assert(p1 == (Point { x: p1.x, y: p1.y }));
            assert(c == (Point { x: p2.x, y: c.y }));
            lemma_reach_trans(t, p1, corner, c);
        }
    } else {
        if c.x == p1.x && vstd::math::min(p1.y as int, p2.y as int) <= c.y <= vstd::math::max(
            p1.y as int,
            p2.y as int,
        ) {
            lemma_walk_v(t, p1.x, p1.y, c.y);
            assert(p1 == (Point { x: p1.x, y: p1.y }));
            assert(c == (Point { x: p1.x, y: c.y }));
        } else {
            let corner = Point { x: p1.x, y: p2.y };
            lemma_walk_v(t, p1.x, p1.y, p2.y);
            lemma_walk_h(t, p2.y, p1.x, c.x);
            assert(p1 == (Point { x: p1.x, y: p1.y }));
            assert(c == (Point { x: c.x, y: p2.y }));
            lemma_reach_trans(t, p1, corner, c);
        }
    }
}

/// Carving one more room and its corridor to the previous room keeps the
/// walkable cells of the grid connected: the old component, the new room's
/// interior with its corner patches, and the corridor all join up.
proof fn lemma_carve_step_connected(
    pre: TileArray<Tile>,
    mid: TileArray<Tile>,
    fin: TileArray<Tile>,
    prev_room: Room,
    new_room: Room,
)
    requires
        pre.wf(),
        mid.wf(),
        fin.wf(),
        0 <= prev_room.top_left.x && 0 <= prev_room.top_left.y,
        prev_room.bottom_right.x <= LEVEL_WIDTH - 1 && prev_room.bottom_right.y <= LEVEL_HEIGHT
            - 1,
        prev_room.top_left.x + 1 < prev_room.bottom_right.x,
        prev_room.top_left.y + 1 < prev_room.bottom_right.y,
        0 <= new_room.top_left.x && 0 <= new_room.top_left.y,
        new_room.bottom_right.x <= LEVEL_WIDTH - 1 && new_room.bottom_right.y <= LEVEL_HEIGHT - 1,
        new_room.top_left.x + 3 <= new_room.bottom_right.x,
        new_room.top_left.y + 3 <= new_room.bottom_right.y,
        forall|y: int, x: int|
            room_interior(prev_room, y, x) ==> #[trigger] pre.spec_at(y, x) == Tile::Room,
        all_connected(pre),
        forall|q: Point| #[trigger] walk_ok(pre, q) ==> walk_ok(mid, q),
        forall|y: int, x: int|
            on_grid(y, x) && #[trigger] mid.spec_at(y, x) != pre.spec_at(y, x) ==> mid.spec_at(
                y,
                x,
            ) == Tile::Room && (room_interior(new_room, y, x) || (y == new_room.top_left.y + 1 && x
                == new_room.top_left.x) || (y == new_room.bottom_right.y - 1 && x
                == new_room.bottom_right.x) || (y == new_room.top_left.y + 1 && x
                == new_room.bottom_right.x)),
        forall|y: int, x: int|
            room_interior(new_room, y, x) ==> #[trigger] mid.spec_at(y, x) == Tile::Room,
        forall|q: Point| #[trigger] walk_ok(mid, q) ==> walk_ok(fin, q),
        exists|p1: Point, p2: Point, horizontal_first: bool|
            room_interior(prev_room, p1.y as int, p1.x as int) && room_interior(
                new_room,
                p2.y as int,
                p2.x as int,
            ) && #[trigger] fin.l_path_carved(p1, p2, horizontal_first) && (forall|y: int, x: int|
                on_grid(y, x) && fin.spec_at(y, x) != mid.spec_at(y, x)
                    ==> TileArray::<Tile>::corridor_cell(p1, p2, horizontal_first, y, x)),
    ensures
        all_connected(fin),
        forall|y: int, x: int|
            room_interior(new_room, y, x) ==> #[trigger] fin.spec_at(y, x) == Tile::Room,
{
    let (p1, p2, horizontal_first) = choose|p1: Point, p2: Point, horizontal_first: bool|
        room_interior(prev_room, p1.y as int, p1.x as int) && room_interior(
            new_room,
            p2.y as int,
            p2.x as int,
        ) && #[trigger] fin.l_path_carved(p1, p2, horizontal_first) && (forall|y: int, x: int|
            on_grid(y, x) && fin.spec_at(y, x) != mid.spec_at(y, x)
                ==> TileArray::<Tile>::corridor_cell(p1, p2, horizontal_first, y, x));

    assert forall|y: int, x: int|
        room_interior(new_room, y, x) implies #[trigger] fin.spec_at(y, x) == Tile::Room by {
        if fin.spec_at(y, x) != mid.spec_at(y, x) {
            assert(on_grid(y, x));
            assert(TileArray::<Tile>::corridor_cell(p1, p2, horizontal_first, y, x));
            assert(fin.spec_at(y, x) == Tile::Room);
        }
    }

    assert(walk_ok(pre, p1));
    assert(walk_ok(fin, p1));
    assert(walk_ok(mid, p2));
    assert(walk_ok(fin, p2));

    // The corridor joins its two ends.
    assert(TileArray::<Tile>::corridor_cell(
        p1,
        p2,
        horizontal_first,
        p2.y as int,
        p2.x as int,
    ));
    lemma_corridor_reach(fin, p1, p2, horizontal_first, p2);

    // Every walkable cell of the final grid hangs off the first corridor end.
    assert forall|c: Point| walk_ok(fin, c) implies reaches(fin, p1, c) by {
        if fin.spec_at(c.y as int, c.x as int) != mid.spec_at(c.y as int, c.x as int) {
            assert(on_grid(c.y as int, c.x as int));
            assert(TileArray::<Tile>::corridor_cell(
                p1,
                p2,
                horizontal_first,
                c.y as int,
                c.x as int,
            ));
            lemma_corridor_reach(fin, p1, p2, horizontal_first, c);
        } else if walk_ok(pre, c) {
            assert(reaches(pre, p1, c));
            lemma_reach_grow(pre, mid, p1, c);
            lemma_reach_grow(mid, fin, p1, c);
        } else {
            // The cell first appeared with the room carve: interior or a
            // corner patch beside it.
            assert(walk_ok(mid, c));
            assert(mid.spec_at(c.y as int, c.x as int) != pre.spec_at(c.y as int, c.x as int));
            if room_interior(new_room, c.y as int, c.x as int) {
                lemma_walk_rect_interior(mid, fin, new_room, p2, c);
                lemma_reach_trans(fin, p1, p2, c);
            } else {
                let ic = (if c.y == new_room.top_left.y + 1 && c.x == new_room.top_left.x {
                    Point { x: (new_room.top_left.x + 1) as i32, y: c.y }
                } else if c.y == new_room.bottom_right.y - 1 && c.x == new_room.bottom_right.x {
                    Point { x: (new_room.bottom_right.x - 1) as i32, y: c.y }
                } else {
                    Point { x: (new_room.bottom_right.x - 1) as i32, y: c.y }
                });
                assert(room_interior(new_room, ic.y as int, ic.x as int));
                assert(ortho_adjacent(ic, c));
                lemma_walk_rect_interior(mid, fin, new_room, p2, ic);
                lemma_reach_step(fin, p2, ic, c);
                lemma_reach_trans(fin, p1, p2, c);
            }
        }
    }

    assert forall|a: Point, b: Point| walk_ok(fin, a) && walk_ok(fin, b) implies
        #[trigger] reaches(fin, a, b) by {
        assert(reaches(fin, p1, a));
        assert(reaches(fin, p1, b));
        lemma_reach_sym(fin, p1, a);
        lemma_reach_trans(fin, a, p1, b);
    }
}

/// Two cells of a carved room interior reach each other on the final grid.
proof fn lemma_walk_rect_interior(
    mid: TileArray<Tile>,
    fin: TileArray<Tile>,
    room: Room,
    a: Point,
    b: Point,
)
    requires
        mid.wf(),
        fin.wf(),
        0 <= room.top_left.x && 0 <= room.top_left.y,
        room.bottom_right.x <= LEVEL_WIDTH - 1 && room.bottom_right.y <= LEVEL_HEIGHT - 1,
        forall|y: int, x: int|
            room_interior(room, y, x) ==> #[trigger] mid.spec_at(y, x) == Tile::Room,
        forall|q: Point| #[trigger] walk_ok(mid, q) ==> walk_ok(fin, q),
        room_interior(room, a.y as int, a.x as int),
        room_interior(room, b.y as int, b.x as int),
    ensures
        reaches(fin, a, b),
{
    assert forall|p: Point|
        vstd::math::min(a.y as int, b.y as int) <= p.y <= vstd::math::max(a.y as int, b.y as int)
            && vstd::math::min(a.x as int, b.x as int) <= p.x <= vstd::math::max(
            a.x as int,
            b.x as int,
        ) implies #[trigger] walk_ok(fin, p) by {
        assert(room_interior(room, p.y as int, p.x as int));
        assert(walk_ok(mid, p));
    }
    lemma_walk_rect(fin, a, b);
}

/// Swapping one walkable tile for another walkable tile keeps the grid's
/// walkable cells connected.
proof fn lemma_overwrite_walkable_keeps_conn(
    pre: TileArray<Tile>,
    post: TileArray<Tile>,
    p: Point,
    v: Tile,
)
    requires
        pre.wf(),
        post.wf(),
        p.spec_in_bounds(),
        post@ == pre@.update(cell(p.y as int, p.x as int), v),
        v.spec_is_walkable(),
        pre.spec_at(p.y as int, p.x as int).spec_is_walkable(),
        all_connected(pre),
    ensures
        all_connected(post),
{
    assert forall|q: Point| #[trigger] walk_ok(pre, q) == walk_ok(post, q) by {
        if q.spec_in_bounds() {
            if cell(q.y as int, q.x as int) == cell(p.y as int, p.x as int) {
                assert(q.y == p.y && q.x == p.x);
                assert(post.spec_at(q.y as int, q.x as int) == v);
            } else {
                assert(post.spec_at(q.y as int, q.x as int) == pre.spec_at(
                    q.y as int,
                    q.x as int,
                ));
            }
        }
    }
    lemma_conn_same_walk(pre, post);
}

/// Turning a pillar-worthy floor cell into a wall keeps the remaining
/// walkable cells connected: walks detour around its all-floor ring.
proof fn lemma_pillar_keeps_conn(pre: TileArray<Tile>, post: TileArray<Tile>, p: Point)
    requires
        pre.wf(),
        post.wf(),
        0 < p.x < LEVEL_WIDTH - 1,
        0 < p.y < LEVEL_HEIGHT - 1,
        post@ == pre@.update(cell(p.y as int, p.x as int), Tile::Wall),
        pre.spec_pillar_worthy(p),
        all_connected(pre),
    ensures
        all_connected(post),
{
    assert forall|q: Point| #[trigger] walk_ok(post, q) == (walk_ok(pre, q) && q != p) by {
        if q.spec_in_bounds() {
            if cell(q.y as int, q.x as int) == cell(p.y as int, p.x as int) {
                assert(q.y == p.y && q.x == p.x);
                assert(post.spec_at(q.y as int, q.x as int) == Tile::Wall);
            } else {
                assert(post.spec_at(q.y as int, q.x as int) == pre.spec_at(
                    q.y as int,
                    q.x as int,
                ));
            }
        }
    }
    assert(ring_walkable(post, p)) by {
        assert forall|q: Point|
            q != p && p.x - 1 <= q.x <= p.x + 1 && p.y - 1 <= q.y <= p.y + 1
            implies #[trigger] walk_ok(post, q) by {
            assert(pre.spec_at(p.y + (q.y - p.y), p.x + (q.x - p.x)) == Tile::Room);
            assert(pre.spec_at(q.y as int, q.x as int) == Tile::Room);
            assert(cell(q.y as int, q.x as int) != cell(p.y as int, p.x as int));
            assert(post.spec_at(q.y as int, q.x as int) == Tile::Room);
        }
    }
    assert forall|a: Point, b: Point| walk_ok(post, a) && walk_ok(post, b) implies
        #[trigger] reaches(post, a, b) by {
        assert(reaches(pre, a, b));
        lemma_avoid_pillar(pre, post, p, a, b);
    }
}

/// One playable floor: its tiles, the per-cell last-seen turn stamps, the
/// enemies alive on it, and where its two stairs stand.
#[derive(Debug)]
pub struct Level {
    pub tiles: TileArray<Tile>,
    pub last_seen: TileArray<u32>,
    pub enemies: Vec<Being>,
    pub up_stairs: Point,
    pub down_stairs: Point,
}

impl Level {
    /// Everything the rest of the engine relies on: a full grid holding
    /// exactly one up-stairs and one down-stairs, at the recorded interior
    /// cells, and enemies that are alive, distinct in position, true to
    /// their kind's stats and standing on walkable cells.
    pub open spec fn wf(self) -> bool {
        &&& self.tiles.wf()
        &&& self.last_seen.wf()
        &&& 0 < self.up_stairs.x < LEVEL_WIDTH - 1 && 0 < self.up_stairs.y < LEVEL_HEIGHT - 1
        &&& 0 < self.down_stairs.x < LEVEL_WIDTH - 1 && 0 < self.down_stairs.y < LEVEL_HEIGHT - 1
        &&& stairs_placed(self.tiles, self.up_stairs, self.down_stairs)
        &&& self.enemies@.len() <= 6 + LEVEL_COUNT / 2
        &&& forall|i: int|
            0 <= i < self.enemies@.len() ==> enemy_ok(self.tiles, #[trigger] self.enemies@[i])
        &&& forall|i: int, j: int|
            0 <= i < j < self.enemies@.len() ==> (#[trigger] self.enemies@[i]).position != (
            #[trigger] self.enemies@[j]).position
    }

    /// Builds one whole floor: a chain of rooms joined by corridors, the
    /// two stairs, pillar and door post-processing, up to one item of each
    /// kind, and a weighted population of enemies that grows harder with
    /// the floor number.
    pub fn generate(level: i32) -> (r: Level)
        requires
            1 <= level <= LEVEL_COUNT,
        ensures
            r.wf(),
            forall|y: int, x: int| on_grid(y, x) ==> r.last_seen.spec_at(y, x) == 0,
            r.enemies@.len() <= 6 + level / 2,
            forall|i: int|
                0 <= i < r.enemies@.len() ==> (#[trigger] r.enemies@[i]).health_points
                    == r.enemies@[i].max_health_points,
            forall|i: int|
                0 <= i < r.enemies@.len() ==> r.tiles.spec_at(
                    (#[trigger] r.enemies@[i]).position.y as int,
                    r.enemies@[i].position.x as int,
                ) == Tile::Room,
            forall|c: Point| walk_ok(r.tiles, c) ==> #[trigger] reaches(r.tiles, r.up_stairs, c),
            forall|i: int|
                0 <= i < r.enemies@.len() ==> 0 < (#[trigger] r.enemies@[i]).position.x
                    < LEVEL_WIDTH - 1 && 0 < r.enemies@[i].position.y < LEVEL_HEIGHT - 1,
            forall|i: int|
                0 <= i < r.enemies@.len() ==> spec_kind_weight(
                    level as int,
                    (#[trigger] r.enemies@[i]).kind,
                ) > 0,
            at_most_one_item(r.tiles, PickUpItem::HealthBoost),
            at_most_one_item(r.tiles, PickUpItem::AttackBoost),
            at_most_one_item(r.tiles, PickUpItem::ShieldBoost),
    {
        let mut tiles = TileArray::new(Tile::Wall);

        let first_room = Room::generate();
        let ghost empty_grid = tiles;
        tiles.carve_room(first_room);
        proof {
            assert forall|a: Point, b: Point|
                walk_ok(tiles, a) && walk_ok(tiles, b) implies #[trigger] reaches(
                tiles,
                a,
                b,
            ) by {
                assert(on_grid(first_room.top_left.y as int, first_room.top_left.x as int));
                assert(on_grid(
                    first_room.bottom_right.y as int,
                    first_room.bottom_right.x as int,
                ));
                assert(on_grid(first_room.bottom_right.y as int, first_room.top_left.x as int));
                assert(on_grid(first_room.top_left.y as int, first_room.bottom_right.x as int));
                assert(empty_grid.spec_at(
                    first_room.top_left.y as int,
                    first_room.top_left.x as int,
                ) == Tile::Wall);
                assert(empty_grid.spec_at(
                    first_room.bottom_right.y as int,
                    first_room.bottom_right.x as int,
                ) == Tile::Wall);
                assert(empty_grid.spec_at(
                    first_room.bottom_right.y as int,
                    first_room.top_left.x as int,
                ) == Tile::Wall);
                assert(empty_grid.spec_at(
                    first_room.top_left.y as int,
                    first_room.bottom_right.x as int,
                ) == Tile::Wall);
                assert(!empty_grid.corner_carved_top_left(first_room));
                assert(!empty_grid.corner_carved_bottom_right(first_room));
                assert(!empty_grid.corner_carved_bottom_left(first_room));
                assert(!empty_grid.corner_carved_top_right(first_room));
                assert(room_interior(first_room, a.y as int, a.x as int)) by {
                    if !room_interior(first_room, a.y as int, a.x as int) {
                        assert(on_grid(a.y as int, a.x as int));
                        assert(empty_grid.spec_at(a.y as int, a.x as int) == Tile::Wall);
                        assert(tiles.spec_at(a.y as int, a.x as int) == Tile::Wall);
                    }
                }
                assert(room_interior(first_room, b.y as int, b.x as int)) by {
                    if !room_interior(first_room, b.y as int, b.x as int) {
                        assert(on_grid(b.y as int, b.x as int));
                        assert(empty_grid.spec_at(b.y as int, b.x as int) == Tile::Wall);
                        assert(tiles.spec_at(b.y as int, b.x as int) == Tile::Wall);
                    }
                }
                lemma_walk_rect_interior(tiles, tiles, first_room, a, b);
            }
            assert forall|y: int, x: int|
                on_grid(y, x) implies !((#[trigger] tiles.spec_at(y, x)) matches Tile::Item(
                _,
            )) by {
                assert(tiles.spec_at(y, x) == empty_grid.spec_at(y, x) || tiles.spec_at(y, x)
                    == Tile::Room);
            }
        }

        let mut prev_room = first_room;
        let mut i: usize = 0;
        while i < 10
            invariant
                tiles.wf(),
                prev_room.wf(),
                first_room.wf(),
                stairs_free(tiles),
                items_free(tiles),
                all_connected(tiles),
                forall|y: int, x: int|
                    room_interior(prev_room, y, x) ==> #[trigger] tiles.spec_at(y, x)
                        == Tile::Room,
                forall|y: int, x: int|
                    room_interior(first_room, y, x) ==> #[trigger] tiles.spec_at(y, x)
                        == Tile::Room,
            decreases 10 - i,
        {
            let ghost pre = tiles;
            let new_room = Room::generate();
            tiles.carve_room(new_room);
            let ghost mid = tiles;
            tiles.carve_corridor_between(prev_room, new_room);
            proof {
                assert forall|y: int, x: int|
                    on_grid(y, x) implies !((#[trigger] tiles.spec_at(y, x)) matches Tile::Stairs(
                    _,
                )) && !((tiles.spec_at(y, x)) matches Tile::Item(_)) by {
                    assert(mid.spec_at(y, x) == pre.spec_at(y, x) || mid.spec_at(y, x)
                        == Tile::Room);
                }
                assert forall|q: Point| #[trigger] walk_ok(pre, q) implies walk_ok(mid, q) by {
                    if q.spec_in_bounds() && mid.spec_at(q.y as int, q.x as int) != pre.spec_at(
                        q.y as int,
                        q.x as int,
                    ) {
                        assert(mid.spec_at(q.y as int, q.x as int) == Tile::Room);
                    }
                }
                assert forall|q: Point| #[trigger] walk_ok(mid, q) implies walk_ok(tiles, q) by {
                    if q.spec_in_bounds() && tiles.spec_at(q.y as int, q.x as int) != mid.spec_at(
                        q.y as int,
                        q.x as int,
                    ) {
                        assert(tiles.spec_at(q.y as int, q.x as int) == Tile::Room);
                    }
                }
                lemma_carve_step_connected(pre, mid, tiles, prev_room, new_room);
                assert forall|y: int, x: int|
                    room_interior(first_room, y, x) implies #[trigger] tiles.spec_at(y, x)
                    == Tile::Room by {
                    assert(pre.spec_at(y, x) == Tile::Room);
                    assert(mid.spec_at(y, x) == pre.spec_at(y, x) || mid.spec_at(y, x)
                        == Tile::Room);
                    assert(tiles.spec_at(y, x) == mid.spec_at(y, x) || tiles.spec_at(y, x)
                        == Tile::Room);
                }
            }
            prev_room = new_room;
            i = i + 1;
        }

        let last_room = Room::generate_not_overlapping(first_room);
        let ghost pre = tiles;
        tiles.carve_room(last_room);
        let ghost mid = tiles;
        tiles.carve_corridor_between(prev_room, last_room);
            proof {
                assert forall|y: int, x: int|
                    on_grid(y, x) implies !((#[trigger] tiles.spec_at(y, x)) matches Tile::Stairs(
                    _,
                )) && !((tiles.spec_at(y, x)) matches Tile::Item(_)) by {
                    assert(mid.spec_at(y, x) == pre.spec_at(y, x) || mid.spec_at(y, x)
                        == Tile::Room);
                }
                assert forall|q: Point| #[trigger] walk_ok(pre, q) implies walk_ok(mid, q) by {
                    if q.spec_in_bounds() && mid.spec_at(q.y as int, q.x as int) != pre.spec_at(
                        q.y as int,
                        q.x as int,
                    ) {
                        assert(mid.spec_at(q.y as int, q.x as int) == Tile::Room);
                    }
                }
                assert forall|q: Point| #[trigger] walk_ok(mid, q) implies walk_ok(tiles, q) by {
                    if q.spec_in_bounds() && tiles.spec_at(q.y as int, q.x as int) != mid.spec_at(
                        q.y as int,
                        q.x as int,
                    ) {
                        assert(tiles.spec_at(q.y as int, q.x as int) == Tile::Room);
                    }
                }
                lemma_carve_step_connected(pre, mid, tiles, prev_room, last_room);
                assert forall|y: int, x: int|
                    room_interior(first_room, y, x) implies #[trigger] tiles.spec_at(y, x)
                    == Tile::Room by {
                    assert(pre.spec_at(y, x) == Tile::Room);
                    assert(mid.spec_at(y, x) == pre.spec_at(y, x) || mid.spec_at(y, x)
                        == Tile::Room);
                    assert(tiles.spec_at(y, x) == mid.spec_at(y, x) || tiles.spec_at(y, x)
                        == Tile::Room);
                }
            }


        let up_stairs = first_room.generate_inner_point();
        let ghost carved = tiles;
        tiles.set_point(up_stairs, Tile::Stairs(-1i32));
        let ghost with_up = tiles;
        let down_stairs = last_room.generate_inner_point();
        tiles.set_point(down_stairs, Tile::Stairs(1));
        proof {
            assert(!first_room.spec_overlaps(last_room));
            assert(up_stairs != down_stairs);
            assert(cell(up_stairs.y as int, up_stairs.x as int) != cell(
                down_stairs.y as int,
                down_stairs.x as int,
            )) by {
                if up_stairs.y == down_stairs.y {
                    assert(up_stairs.x != down_stairs.x);
                }
            }
            assert(tiles.spec_at(up_stairs.y as int, up_stairs.x as int) == Tile::Stairs(-1i32));
            assert(tiles.spec_at(down_stairs.y as int, down_stairs.x as int) == Tile::Stairs(1));
            assert forall|y: int, x: int|
                on_grid(y, x) && ((#[trigger] tiles.spec_at(y, x)) matches Tile::Stairs(_))
                implies ((y == up_stairs.y && x == up_stairs.x) || (y == down_stairs.y && x
                == down_stairs.x)) by {
                if cell(y, x) != cell(up_stairs.y as int, up_stairs.x as int) && cell(y, x)
                    != cell(down_stairs.y as int, down_stairs.x as int) {
                    assert(tiles.spec_at(y, x) == with_up.spec_at(y, x));
                    assert(with_up.spec_at(y, x) == carved.spec_at(y, x));
                } else if cell(y, x) == cell(up_stairs.y as int, up_stairs.x as int) {
                    assert(y * LEVEL_WIDTH + x == up_stairs.y * LEVEL_WIDTH + up_stairs.x);
                    assert(y == up_stairs.y && x == up_stairs.x);
                } else {
                    assert(y * LEVEL_WIDTH + x == down_stairs.y * LEVEL_WIDTH + down_stairs.x);
                    assert(y == down_stairs.y && x == down_stairs.x);
                }
            }
            assert(stairs_placed(tiles, up_stairs, down_stairs));
            assert(carved.spec_at(up_stairs.y as int, up_stairs.x as int) == Tile::Room);
            lemma_overwrite_walkable_keeps_conn(carved, with_up, up_stairs, Tile::Stairs(-1i32));
            assert(with_up.spec_at(down_stairs.y as int, down_stairs.x as int) == Tile::Room) by {
                assert(carved.spec_at(down_stairs.y as int, down_stairs.x as int) == Tile::Room);
            }
            lemma_overwrite_walkable_keeps_conn(with_up, tiles, down_stairs, Tile::Stairs(1));
            lemma_update_keeps_items_free(carved, with_up, up_stairs, Tile::Stairs(-1i32));
            lemma_update_keeps_items_free(with_up, tiles, down_stairs, Tile::Stairs(1));
        }

        let mut i: usize = 0;
        while i < 50
            invariant
                tiles.wf(),
                up_stairs.in_bounds(),
                down_stairs.in_bounds(),
                stairs_placed(tiles, up_stairs, down_stairs),
                items_free(tiles),
                all_connected(tiles),
            decreases 50 - i,
        {
            let proposed_point = tiles.generate_floor_point();
            if tiles.at_point(proposed_point) == Tile::Room {
                let ghost pre = tiles;
                if tiles.is_pillar_worthy(proposed_point) {
                    tiles.set_point(proposed_point, Tile::Wall);
                    proof {
                        lemma_overwrite_keeps_stairs(
                            pre,
                            tiles,
                            proposed_point,
                            Tile::Wall,
                            up_stairs,
                            down_stairs,
                        );
                        lemma_pillar_keeps_conn(pre, tiles, proposed_point);
                        lemma_update_keeps_items_free(pre, tiles, proposed_point, Tile::Wall);
                    }
                } else if tiles.is_door_worthy(proposed_point) {
                    tiles.set_point(proposed_point, Tile::Door);
                    proof {
                        lemma_overwrite_keeps_stairs(
                            pre,
                            tiles,
                            proposed_point,
                            Tile::Door,
                            up_stairs,
                            down_stairs,
                        );
                        lemma_overwrite_walkable_keeps_conn(
                            pre,
                            tiles,
                            proposed_point,
                            Tile::Door,
                        );
                        lemma_update_keeps_items_free(pre, tiles, proposed_point, Tile::Door);
                    }
                }
            }
            i = i + 1;
        }

        if rand_range(0, 100) < 50 {
            let item_point = tiles.generate_floor_point();
            if tiles.at_point(item_point) == Tile::Room {
                let ghost pre = tiles;
                tiles.set_point(item_point, Tile::Item(PickUpItem::HealthBoost));
                proof {
                    lemma_overwrite_keeps_stairs(
                        pre,
                        tiles,
                        item_point,
                        Tile::Item(PickUpItem::HealthBoost),
                        up_stairs,
                        down_stairs,
                    );
                    lemma_overwrite_walkable_keeps_conn(
                        pre,
                        tiles,
                        item_point,
                        Tile::Item(PickUpItem::HealthBoost),
                    );
                    lemma_update_places_item(pre, tiles, item_point, PickUpItem::HealthBoost);
                    lemma_update_keeps_no_item(
                        pre,
                        tiles,
                        item_point,
                        Tile::Item(PickUpItem::HealthBoost),
                        PickUpItem::AttackBoost,
                    );
                    lemma_update_keeps_no_item(
                        pre,
                        tiles,
                        item_point,
                        Tile::Item(PickUpItem::HealthBoost),
                        PickUpItem::ShieldBoost,
                    );
                }
            }
        }
        proof {
            assert(at_most_one_item(tiles, PickUpItem::HealthBoost));
            assert(no_item_of(tiles, PickUpItem::AttackBoost));
            assert(no_item_of(tiles, PickUpItem::ShieldBoost));
        }
        if rand_range(0, 100) < 40 {
            let item_point = tiles.generate_floor_point();
            if tiles.at_point(item_point) == Tile::Room {
                let ghost pre = tiles;
                tiles.set_point(item_point, Tile::Item(PickUpItem::AttackBoost));
                proof {
                    lemma_overwrite_keeps_stairs(
                        pre,
                        tiles,
                        item_point,
                        Tile::Item(PickUpItem::AttackBoost),
                        up_stairs,
                        down_stairs,
                    );
                    lemma_overwrite_walkable_keeps_conn(
                        pre,
                        tiles,
                        item_point,
                        Tile::Item(PickUpItem::AttackBoost),
                    );
                    lemma_update_keeps_one_item(
                        pre,
                        tiles,
                        item_point,
                        Tile::Item(PickUpItem::AttackBoost),
                        PickUpItem::HealthBoost,
                    );
                    lemma_update_places_item(pre, tiles, item_point, PickUpItem::AttackBoost);
                    lemma_update_keeps_no_item(
                        pre,
                        tiles,
                        item_point,
                        Tile::Item(PickUpItem::AttackBoost),
                        PickUpItem::ShieldBoost,
                    );
                }
            }
        }
        proof {
            assert(at_most_one_item(tiles, PickUpItem::HealthBoost));
            assert(at_most_one_item(tiles, PickUpItem::AttackBoost));
            assert(no_item_of(tiles, PickUpItem::ShieldBoost));
        }
        if rand_range(0, 100) < 40 {
            let item_point = tiles.generate_floor_point();
            if tiles.at_point(item_point) == Tile::Room {
                let ghost pre = tiles;
                tiles.set_point(item_point, Tile::Item(PickUpItem::ShieldBoost));
                proof {
                    lemma_overwrite_keeps_stairs(
                        pre,
                        tiles,
                        item_point,
                        Tile::Item(PickUpItem::ShieldBoost),
                        up_stairs,
                        down_stairs,
                    );
                    lemma_overwrite_walkable_keeps_conn(
                        pre,
                        tiles,
                        item_point,
                        Tile::Item(PickUpItem::ShieldBoost),
                    );
                    lemma_update_keeps_one_item(
                        pre,
                        tiles,
                        item_point,
                        Tile::Item(PickUpItem::ShieldBoost),
                        PickUpItem::HealthBoost,
                    );
                    lemma_update_keeps_one_item(
                        pre,
                        tiles,
                        item_point,
                        Tile::Item(PickUpItem::ShieldBoost),
                        PickUpItem::AttackBoost,
                    );
                    lemma_update_places_item(pre, tiles, item_point, PickUpItem::ShieldBoost);
                }
            }
        }
        proof {
            assert(at_most_one_item(tiles, PickUpItem::HealthBoost));
            assert(at_most_one_item(tiles, PickUpItem::AttackBoost));
            assert(at_most_one_item(tiles, PickUpItem::ShieldBoost));
        }

        let mut enemies: Vec<Being> = Vec::new();
        let tier_1_bound = if level + 1 < 12 - level {
            level + 1
        } else {
            12 - level
        };
        let tier_1_enemy_weight = if tier_1_bound > 0 {
            tier_1_bound
        } else {
            0
        };
        let tier_2_bound = if level - 4 < 20 - level {
            level - 4
        } else {
            20 - level
        };
        let tier_2_enemy_weight = if tier_2_bound > 0 {
            tier_2_bound
        } else {
            0
        };
        let tier_3_bound = if level - 12 < 26 - level {
            level - 12
        } else {
            26 - level
        };
        let tier_3_enemy_weight = if tier_3_bound > 0 {
            tier_3_bound
        } else {
            0
        };
        let mut enemy_weights: Vec<i32> = Vec::new();
        enemy_weights.push(tier_1_enemy_weight * 5);
        enemy_weights.push(tier_1_enemy_weight * 3);
        enemy_weights.push(tier_1_enemy_weight * 2);
        enemy_weights.push(tier_2_enemy_weight * 5);
        enemy_weights.push(tier_2_enemy_weight * 3);
        enemy_weights.push(tier_2_enemy_weight * 2);
        enemy_weights.push(tier_3_enemy_weight * 5);
        enemy_weights.push(tier_3_enemy_weight * 3);
        enemy_weights.push(tier_3_enemy_weight * 2);
        proof {
            assert(enemy_weights@.len() == ENEMY_KIND_COUNT);
            assert(tier_1_enemy_weight > 0 || tier_2_enemy_weight > 0 || tier_3_enemy_weight > 0);
            assert(enemy_weights@[0] > 0 || enemy_weights@[3] > 0 || enemy_weights@[6] > 0);
            assert forall|k: int| 0 <= k < enemy_weights@.len() implies 0
                <= #[trigger] enemy_weights@[k] <= i32::MAX as int / enemy_weights@.len() as int by {}
            assert forall|k: int| 0 <= k < enemy_weights@.len() implies #[trigger] enemy_weights@[k]
                == spec_kind_weight(level as int, spec_enemies_kind(k)) by {}
        }

        let enemy_count: i32 = 6 + level / 2;
        let mut drawn: i32 = 0;
        while drawn < enemy_count
            invariant
                tiles.wf(),
                all_connected(tiles),
                at_most_one_item(tiles, PickUpItem::HealthBoost),
                at_most_one_item(tiles, PickUpItem::AttackBoost),
                at_most_one_item(tiles, PickUpItem::ShieldBoost),
                enemy_weights@.len() == ENEMY_KIND_COUNT,
                forall|k: int|
                    0 <= k < enemy_weights@.len() ==> 0 <= #[trigger] enemy_weights@[k]
                        <= i32::MAX as int / enemy_weights@.len() as int,
                enemy_weights@[0] > 0 || enemy_weights@[3] > 0 || enemy_weights@[6] > 0,
                0 <= drawn <= enemy_count,
                enemy_count == 6 + level / 2,
                1 <= level <= LEVEL_COUNT,
                enemies@.len() <= drawn,
                forall|k: int| 0 <= k < enemies@.len() ==> enemy_ok(tiles, #[trigger] enemies@[k]),
                forall|k: int|
                    0 <= k < enemies@.len() ==> tiles.spec_at(
                        (#[trigger] enemies@[k]).position.y as int,
                        enemies@[k].position.x as int,
                    ) == Tile::Room,
                forall|k: int|
                    0 <= k < enemies@.len() ==> (#[trigger] enemies@[k]).health_points
                        == enemies@[k].max_health_points,
                forall|k: int, l: int|
                    0 <= k < l < enemies@.len() ==> (#[trigger] enemies@[k]).position != (
                    #[trigger] enemies@[l]).position,
                forall|k: int|
                    0 <= k < enemies@.len() ==> 0 < (#[trigger] enemies@[k]).position.x
                        < LEVEL_WIDTH - 1 && 0 < enemies@[k].position.y < LEVEL_HEIGHT - 1,
                forall|k: int|
                    0 <= k < enemies@.len() ==> spec_kind_weight(
                        level as int,
                        (#[trigger] enemies@[k]).kind,
                    ) > 0,
                forall|k: int|
                    0 <= k < enemy_weights@.len() ==> #[trigger] enemy_weights@[k]
                        == spec_kind_weight(level as int, spec_enemies_kind(k)),
            decreases enemy_count - drawn,
        {
            let enemy_position = tiles.generate_floor_point();
            if tiles.at_point(enemy_position) == Tile::Room && !occupied_by_enemy(
                &enemies,
                enemy_position,
            ) {
                let ghost pre = enemies@;
                let kind_index = sample_weighted(&enemy_weights);
                proof {
                    assert(enemy_weights@[0] > 0 || enemy_weights@[3] > 0 || enemy_weights@[6]
                        > 0);
                }
                let kind = enemies_kind(kind_index);
                let enemy = Being::new_of_kind(kind, enemy_position);
                enemies.push(enemy);
                proof {
                    assert forall|k: int|
                        0 <= k < enemies@.len() implies enemy_ok(
                        tiles,
                        #[trigger] enemies@[k],
                    ) by {
                        if k < pre.len() {
                            assert(enemies@[k] == pre[k]);
                        } else {
                            assert(enemies@[k] == enemy);
                        }
                    }
                    assert forall|k: int, l: int|
                        0 <= k < l < enemies@.len() implies (#[trigger] enemies@[k]).position != (
                    #[trigger] enemies@[l]).position by {
                        if l < pre.len() {
                            assert(enemies@[k] == pre[k] && enemies@[l] == pre[l]);
                        } else {
                            assert(enemies@[k] == pre[k] && enemies@[l] == enemy);
                        }
                    }
                }
            }
            drawn = drawn + 1;
        }

        proof {
            assert(walk_ok(tiles, up_stairs));
            assert forall|c: Point| walk_ok(tiles, c) implies #[trigger] reaches(
                tiles,
                up_stairs,
                c,
            ) by {
                assert(reaches(tiles, up_stairs, c));
            }
        }
        Level { tiles, last_seen: TileArray::new(0), enemies, up_stairs, down_stairs }
    }
}

} // verus!
