use vstd::prelude::*;

use crate::point::Point;
use crate::tile::Tile;
use crate::tilearray::TileArray;

verus! {

/// A cell a being may stand on: on the grid and walkable.
pub open spec fn walk_ok(t: TileArray<Tile>, p: Point) -> bool {
    p.spec_in_bounds() && t.spec_at(p.y as int, p.x as int).spec_is_walkable()
}

/// One orthogonal step between distinct cells.
pub open spec fn ortho_adjacent(a: Point, b: Point) -> bool {
    ||| (a.x == b.x && (a.y == b.y + 1 || a.y == b.y - 1))
    ||| (a.y == b.y && (a.x == b.x + 1 || a.x == b.x - 1))
}

/// `b` can be reached from `a` in at most `n` orthogonal steps over
/// walkable cells, both ends included.
pub open spec fn reach_n(t: TileArray<Tile>, a: Point, b: Point, n: nat) -> bool
    decreases n,
{
    if n == 0 {
        a == b && walk_ok(t, a)
    } else {
        reach_n(t, a, b, (n - 1) as nat) || (walk_ok(t, b) && exists|c: Point|
            #[trigger] ortho_adjacent(c, b) && reach_n(t, a, c, (n - 1) as nat))
    }
}

/// `b` can be reached from `a` over walkable cells.
pub open spec fn reaches(t: TileArray<Tile>, a: Point, b: Point) -> bool {
    exists|n: nat| reach_n(t, a, b, n)
}

/// Every walkable cell can be reached from every other.
pub open spec fn all_connected(t: TileArray<Tile>) -> bool {
    forall|a: Point, b: Point| walk_ok(t, a) && walk_ok(t, b) ==> #[trigger] reaches(t, a, b)
}

/// Both ends of a bounded walk are walkable.
pub proof fn lemma_reach_ends(t: TileArray<Tile>, a: Point, b: Point, n: nat)
    requires
        reach_n(t, a, b, n),
    ensures
        walk_ok(t, a),
        walk_ok(t, b),
    decreases n,
{
    if n == 0 {
    } else {
        if reach_n(t, a, b, (n - 1) as nat) {
            lemma_reach_ends(t, a, b, (n - 1) as nat);
        } else {
            let c = choose|c: Point|
                #[trigger] ortho_adjacent(c, b) && reach_n(t, a, c, (n - 1) as nat);
            lemma_reach_ends(t, a, c, (n - 1) as nat);
        }
    }
}

pub proof fn lemma_reach_refl(t: TileArray<Tile>, a: Point)
    requires
        walk_ok(t, a),
    ensures
        reaches(t, a, a),
{
    assert(reach_n(t, a, a, 0));
}

/// A walk extends by one orthogonal step onto a walkable cell.
pub proof fn lemma_reach_step(t: TileArray<Tile>, a: Point, c: Point, b: Point)
    requires
        reaches(t, a, c),
        ortho_adjacent(c, b),
        walk_ok(t, b),
    ensures
        reaches(t, a, b),
{
    let n = choose|n: nat| reach_n(t, a, c, n);
    assert(reach_n(t, a, b, n + 1));
}

/// A walk that has not yet arrived came through some neighbor of its end.
pub proof fn lemma_reach_pred(t: TileArray<Tile>, a: Point, b: Point, n: nat)
    requires
        reach_n(t, a, b, n),
        a != b,
    ensures
        exists|c: Point|
            #[trigger] ortho_adjacent(c, b) && reach_n(t, a, c, (n - 1) as nat) && n >= 1,
    decreases n,
{
    if n == 0 {
    } else {
        if reach_n(t, a, b, (n - 1) as nat) {
            lemma_reach_pred(t, a, b, (n - 1) as nat);
            let c = choose|c: Point|
                #[trigger] ortho_adjacent(c, b) && reach_n(t, a, c, (n - 2) as nat);
            assert(reach_n(t, a, c, (n - 1) as nat));
        }
    }
}

/// Walks concatenate.
pub proof fn lemma_reach_trans(t: TileArray<Tile>, a: Point, b: Point, c: Point)
    requires
        reaches(t, a, b),
        reaches(t, b, c),
    ensures
        reaches(t, a, c),
{
    let n = choose|n: nat| reach_n(t, b, c, n);
    lemma_reach_trans_n(t, a, b, c, n);
}

proof fn lemma_reach_trans_n(t: TileArray<Tile>, a: Point, b: Point, c: Point, n: nat)
    requires
        reaches(t, a, b),
        reach_n(t, b, c, n),
    ensures
        reaches(t, a, c),
    decreases n,
{
    if b == c {
    } else {
        lemma_reach_pred(t, b, c, n);
        let d = choose|d: Point|
            #[trigger] ortho_adjacent(d, c) && reach_n(t, b, d, (n - 1) as nat);
        lemma_reach_trans_n(t, a, b, d, (n - 1) as nat);
        lemma_reach_ends(t, b, c, n);
        lemma_reach_step(t, a, d, c);
    }
}

/// Walks reverse, step by step.
pub proof fn lemma_reach_sym(t: TileArray<Tile>, a: Point, b: Point)
    requires
        reaches(t, a, b),
    ensures
        reaches(t, b, a),
{
    let n = choose|n: nat| reach_n(t, a, b, n);
    lemma_reach_sym_n(t, a, b, n);
}

proof fn lemma_reach_sym_n(t: TileArray<Tile>, a: Point, b: Point, n: nat)
    requires
        reach_n(t, a, b, n),
    ensures
        reaches(t, b, a),
    decreases n,
{
    if a == b {
        lemma_reach_ends(t, a, b, n);
        lemma_reach_refl(t, a);
    } else {
        lemma_reach_pred(t, a, b, n);
        let c = choose|c: Point|
            #[trigger] ortho_adjacent(c, b) && reach_n(t, a, c, (n - 1) as nat);
        lemma_reach_sym_n(t, a, c, (n - 1) as nat);
        lemma_reach_ends(t, a, b, n);
        lemma_reach_ends(t, a, c, (n - 1) as nat);
        assert(ortho_adjacent(b, c));
        assert(reach_n(t, b, b, 0));
        lemma_reach_refl(t, b);
        lemma_reach_step(t, b, b, c);
        lemma_reach_trans(t, b, c, a);
    }
}

/// A walk survives any tile change that leaves every walkable cell
/// walkable.
pub proof fn lemma_reach_grow(t1: TileArray<Tile>, t2: TileArray<Tile>, a: Point, b: Point)
    requires
        reaches(t1, a, b),
        forall|p: Point| walk_ok(t1, p) ==> walk_ok(t2, p),
    ensures
        reaches(t2, a, b),
{
    let n = choose|n: nat| reach_n(t1, a, b, n);
    lemma_reach_grow_n(t1, t2, a, b, n);
}

proof fn lemma_reach_grow_n(t1: TileArray<Tile>, t2: TileArray<Tile>, a: Point, b: Point, n: nat)
    requires
        reach_n(t1, a, b, n),
        forall|p: Point| walk_ok(t1, p) ==> walk_ok(t2, p),
    ensures
        reaches(t2, a, b),
    decreases n,
{
    if a == b {
        lemma_reach_ends(t1, a, b, n);
        lemma_reach_refl(t2, a);
    } else {
        lemma_reach_pred(t1, a, b, n);
        let c = choose|c: Point|
            #[trigger] ortho_adjacent(c, b) && reach_n(t1, a, c, (n - 1) as nat);
        lemma_reach_grow_n(t1, t2, a, c, (n - 1) as nat);
        lemma_reach_ends(t1, a, b, n);
        lemma_reach_step(t2, a, c, b);
    }
}

/// Every cell of a walkable horizontal segment reaches every other.
pub proof fn lemma_walk_h(t: TileArray<Tile>, y: i32, xa: i32, xb: i32)
    requires
        forall|p: Point|
            p.y == y && vstd::math::min(xa as int, xb as int) <= p.x <= vstd::math::max(
                xa as int,
                xb as int,
            ) ==> #[trigger] walk_ok(t, p),
    ensures
        reaches(t, Point { x: xa, y }, Point { x: xb, y }),
    decreases
            (if xa <= xb {
                xb - xa
            } else {
                xa - xb
            }),
{
    if xa == xb {
        lemma_reach_refl(t, Point { x: xa, y });
    } else if xa < xb {
        lemma_walk_h(t, y, xa, (xb - 1) as i32);
        assert(ortho_adjacent(Point { x: (xb - 1) as i32, y }, Point { x: xb, y }));
        lemma_reach_step(t, Point { x: xa, y }, Point { x: (xb - 1) as i32, y }, Point { x: xb, y });
    } else {
        lemma_walk_h(t, y, xa, (xb + 1) as i32);
        assert(ortho_adjacent(Point { x: (xb + 1) as i32, y }, Point { x: xb, y }));
        lemma_reach_step(t, Point { x: xa, y }, Point { x: (xb + 1) as i32, y }, Point { x: xb, y });
    }
}

/// Every cell of a walkable vertical segment reaches every other.
pub proof fn lemma_walk_v(t: TileArray<Tile>, x: i32, ya: i32, yb: i32)
    requires
        forall|p: Point|
            p.x == x && vstd::math::min(ya as int, yb as int) <= p.y <= vstd::math::max(
                ya as int,
                yb as int,
            ) ==> #[trigger] walk_ok(t, p),
    ensures
        reaches(t, Point { x, y: ya }, Point { x, y: yb }),
    decreases
            (if ya <= yb {
                yb - ya
            } else {
                ya - yb
            }),
{
    if ya == yb {
        lemma_reach_refl(t, Point { x, y: ya });
    } else if ya < yb {
        lemma_walk_v(t, x, ya, (yb - 1) as i32);
        assert(ortho_adjacent(Point { x, y: (yb - 1) as i32 }, Point { x, y: yb }));
        lemma_reach_step(t, Point { x, y: ya }, Point { x, y: (yb - 1) as i32 }, Point { x, y: yb });
    } else {
        lemma_walk_v(t, x, ya, (yb + 1) as i32);
        assert(ortho_adjacent(Point { x, y: (yb + 1) as i32 }, Point { x, y: yb }));
        lemma_reach_step(t, Point { x, y: ya }, Point { x, y: (yb + 1) as i32 }, Point { x, y: yb });
    }
}

/// Any two cells of an all-walkable rectangle reach each other, along one
/// row and one column of the rectangle.
pub proof fn lemma_walk_rect(t: TileArray<Tile>, a: Point, b: Point)
    requires
        forall|p: Point|
            vstd::math::min(a.y as int, b.y as int) <= p.y <= vstd::math::max(a.y as int, b.y as int)
                && vstd::math::min(a.x as int, b.x as int) <= p.x <= vstd::math::max(
                a.x as int,
                b.x as int,
            ) ==> #[trigger] walk_ok(t, p),
    ensures
        reaches(t, a, b),
{
    let corner = Point { x: b.x, y: a.y };
    lemma_walk_h(t, a.y, a.x, b.x);
    lemma_walk_v(t, b.x, a.y, b.y);
    assert(a == (Point { x: a.x, y: a.y }));
    lemma_reach_trans(t, a, corner, b);
}

/// The eight cells around an interior cell `p` are all walkable.
pub open spec fn ring_walkable(t: TileArray<Tile>, p: Point) -> bool {
    forall|q: Point|
        q != p && p.x - 1 <= q.x <= p.x + 1 && p.y - 1 <= q.y <= p.y + 1 ==> #[trigger] walk_ok(
            t,
            q,
        )
}

/// Around a cell whose whole neighborhood ring is walkable, any two of its
/// orthogonal neighbors reach each other without entering the cell itself.
pub proof fn lemma_ring_walk(t: TileArray<Tile>, p: Point, d: Point, b: Point)
    requires
        0 < p.x < crate::LEVEL_WIDTH - 1,
        0 < p.y < crate::LEVEL_HEIGHT - 1,
        ring_walkable(t, p),
        ortho_adjacent(d, p),
        ortho_adjacent(b, p),
    ensures
        reaches(t, d, b),
{
    let north = Point { x: p.x, y: (p.y - 1) as i32 };
    let ne = Point { x: (p.x + 1) as i32, y: (p.y - 1) as i32 };
    let east = Point { x: (p.x + 1) as i32, y: p.y };
    let se = Point { x: (p.x + 1) as i32, y: (p.y + 1) as i32 };
    let south = Point { x: p.x, y: (p.y + 1) as i32 };
    let sw = Point { x: (p.x - 1) as i32, y: (p.y + 1) as i32 };
    let west = Point { x: (p.x - 1) as i32, y: p.y };

    lemma_reach_refl(t, north);
    lemma_reach_step(t, north, north, ne);
    lemma_reach_step(t, north, ne, east);
    lemma_reach_step(t, north, east, se);
    lemma_reach_step(t, north, se, south);
    lemma_reach_step(t, north, south, sw);
    lemma_reach_step(t, north, sw, west);

    assert(d == north || d == east || d == south || d == west);
    assert(b == north || b == east || b == south || b == west);
    assert(reaches(t, north, d));
    assert(reaches(t, north, b));
    lemma_reach_sym(t, north, d);
    lemma_reach_trans(t, d, north, b);
}

/// Turning one cell with a fully walkable neighborhood ring into a wall
/// leaves every other pair of walkable cells connected: a walk that went
/// through the cell can detour around its ring.
pub proof fn lemma_avoid_pillar(
    t1: TileArray<Tile>,
    t2: TileArray<Tile>,
    p: Point,
    a: Point,
    b: Point,
)
    requires
        0 < p.x < crate::LEVEL_WIDTH - 1,
        0 < p.y < crate::LEVEL_HEIGHT - 1,
        forall|q: Point| #[trigger] walk_ok(t2, q) == (walk_ok(t1, q) && q != p),
        ring_walkable(t2, p),
        reaches(t1, a, b),
        a != p,
        b != p,
    ensures
        reaches(t2, a, b),
{
    let n = choose|n: nat| reach_n(t1, a, b, n);
    lemma_avoid_pillar_n(t1, t2, p, a, b, n);
}

proof fn lemma_avoid_pillar_n(
    t1: TileArray<Tile>,
    t2: TileArray<Tile>,
    p: Point,
    a: Point,
    b: Point,
    n: nat,
)
    requires
        0 < p.x < crate::LEVEL_WIDTH - 1,
        0 < p.y < crate::LEVEL_HEIGHT - 1,
        forall|q: Point| #[trigger] walk_ok(t2, q) == (walk_ok(t1, q) && q != p),
        ring_walkable(t2, p),
        reach_n(t1, a, b, n),
        a != p,
        b != p,
    ensures
        reaches(t2, a, b),
    decreases n,
{
    if a == b {
        lemma_reach_ends(t1, a, b, n);
        lemma_reach_refl(t2, a);
    } else {
        lemma_reach_pred(t1, a, b, n);
        let c = choose|c: Point|
            #[trigger] ortho_adjacent(c, b) && reach_n(t1, a, c, (n - 1) as nat);
        lemma_reach_ends(t1, a, b, n);
        if c != p {
            lemma_avoid_pillar_n(t1, t2, p, a, c, (n - 1) as nat);
            lemma_reach_step(t2, a, c, b);
        } else {
            lemma_reach_pred(t1, a, c, (n - 1) as nat);
            let d = choose|d: Point|
                #[trigger] ortho_adjacent(d, c) && reach_n(t1, a, d, (n - 2) as nat);
            lemma_avoid_pillar_n(t1, t2, p, a, d, (n - 2) as nat);
            lemma_ring_walk(t2, p, d, b);
            lemma_reach_trans(t2, a, d, b);
        }
    }
}

} // verus!
