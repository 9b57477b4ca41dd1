use vstd::prelude::*;

use crate::being::Being;
use crate::beingkind::BeingKind;
use crate::event::Event;
use crate::fov::{compute_fov_stamps, fov_blocked, visible_of};
use crate::level::{enemy_ok, lemma_overwrite_keeps_stairs, Level};
use crate::pathfind::{astar_to, path_successors, step_free};
use crate::pickupitem::PickUpItem;
use crate::playeraction::PlayerAction;
use crate::point::Point;
use crate::rng::rand_range;
use crate::tile::Tile;
use crate::tilearray::{cell, on_grid};
use crate::{LEVEL_COUNT, LEVEL_HEIGHT, LEVEL_WIDTH};

verus! {

/// Some enemy of the list stands next to the given cell (orthogonally, or
/// on it).
pub open spec fn enemy_adjacent(enemies: Seq<Being>, pos: Point) -> bool {
    exists|i: int|
        0 <= i < enemies.len() && (#[trigger] enemies[i]).position.spec_is_neighboring(pos)
}

/// Some enemy of the list stands exactly on the cell with the given
/// coordinates.
pub open spec fn enemy_at(enemies: Seq<Being>, y: int, x: int) -> bool {
    exists|i: int|
        0 <= i < enemies.len() && (#[trigger] enemies[i]).position.y == y && enemies[i].position.x
            == x
}

/// The health a being ends the turn with: one point regained on a
/// regeneration tick when strictly below the maximum, otherwise unchanged.
pub open spec fn regen_health(base: int, max: int, ticked: bool) -> int {
    if ticked && base < max {
        base + 1
    } else {
        base
    }
}

/// The whole game state: the floor being played, where the player stands
/// in the run, and the events of the most recently processed turn.
#[derive(Debug)]
pub struct GameContext {
    pub level: Level,
    pub current_level: i32,
    pub current_turn: u32,
    pub player: Being,
    pub events: Vec<Event>,
}

impl GameContext {
    /// Everything the engine maintains between turns: a well-formed level,
    /// a player of player kind standing on a walkable cell of the grid that
    /// no enemy shares, health never above its maximum, experience never
    /// negative, at least a point of maximum health and of shield, and
    /// visibility stamps never ahead of the turn counter.
    pub open spec fn wf(self) -> bool {
        &&& self.level.wf()
        &&& self.player.kind == BeingKind::Player
        &&& self.player.position.spec_in_bounds()
        &&& self.level.tiles.spec_at(
            self.player.position.y as int,
            self.player.position.x as int,
        ).spec_is_walkable()
        &&& self.player.health_points <= self.player.max_health_points
        &&& 1 <= self.player.max_health_points
        &&& 0 <= self.player.max_attack
        &&& 1 <= self.player.max_shield
        &&& 0 <= self.player.experience_points
        &&& 1 <= self.current_turn
        &&& forall|i: int|
            0 <= i < self.level.enemies@.len() ==> (#[trigger] self.level.enemies@[i]).position
                != self.player.position
        &&& forall|y: int, x: int|
            on_grid(y, x) ==> #[trigger] self.level.last_seen.spec_at(y, x)
                <= self.current_turn
    }

    /// A fully initialized run: the first floor generated, the player on
    /// its up-stairs with fresh stats, the field of view already computed,
    /// and no events yet.
    pub fn new() -> (r: GameContext)
        ensures
            r.wf(),
            r.current_level == 1,
            r.current_turn == 1,
            r.player.position == r.level.up_stairs,
            r.player.stats_match_kind(),
            r.player.kind == BeingKind::Player,
            r.player.health_points == r.player.max_health_points,
            r.player.experience_points == 0,
            r.events@.len() == 0,
            r.level.last_seen.spec_at(r.player.position.y as int, r.player.position.x as int)
                == 1,
            forall|y: int, x: int|
                on_grid(y, x) ==> #[trigger] r.level.last_seen.spec_at(y, x) == 0
                    || r.level.last_seen.spec_at(y, x) == 1,
    {
        let level = Level::generate(1);
        let mut player = Being::new_player();
        player.position = level.up_stairs;

        let mut context = GameContext {
            level,
            current_level: 1,
            current_turn: 1,
            player,
            events: Vec::new(),
        };
        proof {
            assert forall|i: int|
                0 <= i < context.level.enemies@.len() implies (
            #[trigger] context.level.enemies@[i]).position != context.player.position by {
                assert(context.level.tiles.spec_at(
                    context.level.enemies@[i].position.y as int,
                    context.level.enemies@[i].position.x as int,
                ) == Tile::Room);
            }
        }
        context.update_fov();
        context
    }

    /// Restamps every cell visible from the player's position with the
    /// current turn number; everything else in the context stays put.
    fn update_fov(&mut self)
        requires
            old(self).level.tiles.wf(),
            old(self).level.last_seen.wf(),
            old(self).player.position.spec_in_bounds(),
        ensures
            final(self).level.tiles == old(self).level.tiles,
            final(self).level.enemies == old(self).level.enemies,
            final(self).level.up_stairs == old(self).level.up_stairs,
            final(self).level.down_stairs == old(self).level.down_stairs,
            final(self).current_level == old(self).current_level,
            final(self).current_turn == old(self).current_turn,
            final(self).player == old(self).player,
            final(self).events == old(self).events,
            final(self).level.last_seen.wf(),
            forall|y: int, x: int|
                on_grid(y, x) ==> final(self).level.last_seen.spec_at(y, x) == (if visible_of(
                    fov_blocked(old(self).level.tiles@),
                    (old(self).player.position.y as int, old(self).player.position.x as int),
                ).contains((y, x)) {
                    old(self).current_turn
                } else {
                    old(self).level.last_seen.spec_at(y, x)
                }),
            final(self).level.last_seen.spec_at(
                old(self).player.position.y as int,
                old(self).player.position.x as int,
            ) == old(self).current_turn,
    {
        let origin = self.player.position;
        let turn = self.current_turn;
        compute_fov_stamps(&self.level.tiles, &mut self.level.last_seen, origin, turn);
    }
}

/// An enemy between combat and cleanup: as `enemy_ok`, except that its
/// health may have dropped to zero or below this turn.
pub open spec fn enemy_hurt_ok(tiles: crate::tilearray::TileArray<Tile>, b: Being) -> bool {
    &&& b.kind != BeingKind::Player
    &&& b.stats_match_kind()
    &&& b.health_points <= b.max_health_points
    &&& b.position.spec_in_bounds()
    &&& tiles.spec_at(b.position.y as int, b.position.x as int).spec_is_walkable()
}

impl GameContext {
    /// Drops the one enemy whose health fell to zero or below this turn,
    /// if any: the survivors keep their order, the enemy's experience
    /// yield goes to the player, and one kill event is recorded. The ghost
    /// argument names the dead entry; with none, nothing changes.
    #[verifier::loop_isolation(false)]
    fn remove_dead_enemies(&mut self, Ghost(dead): Ghost<Option<int>>)
        requires
            old(self).level.tiles.wf(),
            old(self).level.enemies@.len() <= 6 + LEVEL_COUNT / 2,
            forall|i: int|
                0 <= i < old(self).level.enemies@.len() ==> enemy_hurt_ok(
                    old(self).level.tiles,
                    #[trigger] old(self).level.enemies@[i],
                ),
            forall|i: int, j: int|
                0 <= i < j < old(self).level.enemies@.len() ==> (
                #[trigger] old(self).level.enemies@[i]).position != (
                #[trigger] old(self).level.enemies@[j]).position,
            forall|i: int|
                0 <= i < old(self).level.enemies@.len() ==> (
                #[trigger] old(self).level.enemies@[i]).position != old(self).player.position,
            0 <= old(self).player.experience_points <= i32::MAX - 1000,
            dead is None ==> forall|m: int|
                0 <= m < old(self).level.enemies@.len() ==> (#[trigger] old(self).level.enemies@[m]).health_points >= 1,
            dead is Some ==> 0 <= dead->Some_0 < old(self).level.enemies@.len() && old(self).level.enemies@[dead->Some_0].health_points < 1 && (forall|m: int|
                0 <= m < old(self).level.enemies@.len() && m != dead->Some_0 ==> (#[trigger] old(self).level.enemies@[m]).health_points >= 1),
        ensures
            final(self).level.tiles == old(self).level.tiles,
            final(self).level.last_seen == old(self).level.last_seen,
            final(self).level.up_stairs == old(self).level.up_stairs,
            final(self).level.down_stairs == old(self).level.down_stairs,
            final(self).current_level == old(self).current_level,
            final(self).current_turn == old(self).current_turn,
            final(self).player.position == old(self).player.position,
            final(self).player.kind == old(self).player.kind,
            final(self).player.health_points == old(self).player.health_points,
            final(self).player.max_health_points == old(self).player.max_health_points,
            final(self).player.max_attack == old(self).player.max_attack,
            final(self).player.max_shield == old(self).player.max_shield,
            old(self).player.experience_points <= final(self).player.experience_points <= old(self).player.experience_points + 1000,
            forall|i: int|
                0 <= i < final(self).level.enemies@.len() ==> enemy_ok(
                    old(self).level.tiles,
                    #[trigger] final(self).level.enemies@[i],
                ),
            forall|i: int, j: int|
                0 <= i < j < final(self).level.enemies@.len() ==> (
                #[trigger] final(self).level.enemies@[i]).position != (
                #[trigger] final(self).level.enemies@[j]).position,
            forall|i: int|
                0 <= i < final(self).level.enemies@.len() ==> (
                #[trigger] final(self).level.enemies@[i]).position != old(self).player.position,
            dead is None ==> final(self).level.enemies@ == old(self).level.enemies@ && final(self).events@ == old(self).events@ && final(self).player == old(self).player,
            dead is Some ==> final(self).level.enemies@ == old(self).level.enemies@.subrange(
                0,
                dead->Some_0,
            ) + old(self).level.enemies@.subrange(
                dead->Some_0 + 1,
                old(self).level.enemies@.len() as int,
            ) && final(self).events@ == old(self).events@.push(
                Event::Killed(
                    old(self).level.enemies@[dead->Some_0].kind,
                    old(self).level.enemies@[dead->Some_0].experience_points,
                ),
            ) && final(self).player.experience_points == old(self).player.experience_points
                + old(self).level.enemies@[dead->Some_0].experience_points,
    {
        let n = self.level.enemies.len();
        let mut survivors: Vec<Being> = Vec::new();
        let mut j: usize = 0;
        while j < n
            invariant
                j <= n,
                self.level.enemies@ == old(self).level.enemies@,
                self.level.tiles == old(self).level.tiles,
                self.level.last_seen == old(self).level.last_seen,
                self.level.up_stairs == old(self).level.up_stairs,
                self.level.down_stairs == old(self).level.down_stairs,
                self.current_level == old(self).current_level,
                self.current_turn == old(self).current_turn,
                dead is None ==> survivors@ == old(self).level.enemies@.subrange(0, j as int)
                    && self.events@ == old(self).events@ && self.player == old(self).player,
                dead is Some && j <= dead->Some_0 ==> survivors@ == old(self).level.enemies@.subrange(0, j as int) && self.events@ == old(self).events@
                    && self.player == old(self).player,
                dead is Some && j > dead->Some_0 ==> survivors@ == old(self).level.enemies@.subrange(0, dead->Some_0) + old(self).level.enemies@.subrange(
                    dead->Some_0 + 1,
                    j as int,
                ) && self.events@ == old(self).events@.push(
                    Event::Killed(
                        old(self).level.enemies@[dead->Some_0].kind,
                        old(self).level.enemies@[dead->Some_0].experience_points,
                    ),
                ) && self.player.experience_points == old(self).player.experience_points + old(self).level.enemies@[dead->Some_0].experience_points && self.player.position == old(self).player.position && self.player.kind == old(self).player.kind
                    && self.player.health_points == old(self).player.health_points
                    && self.player.max_health_points == old(self).player.max_health_points
                    && self.player.max_attack == old(self).player.max_attack
                    && self.player.max_shield == old(self).player.max_shield,
            decreases n - j,
        {
            let ghost survivors_pre = survivors@;
            let enemy = self.level.enemies[j];
            if enemy.health_points > 0 {
                survivors.push(enemy);
                proof {
                    if dead is None || j < dead->Some_0 {
                        assert(survivors@ =~= old(self).level.enemies@.subrange(0, j + 1));
                    } else {
                        let d = dead->Some_0;
                        assert(survivors@ =~= old(self).level.enemies@.subrange(0, d) + old(self).level.enemies@.subrange(d + 1, j + 1));
                    }
                }
            } else {
                proof {
                    assert(dead is Some && dead->Some_0 == j);
                }
                self.player.experience_points = self.player.experience_points
                    + enemy.experience_points;
                self.events.push(Event::Killed(enemy.kind, enemy.experience_points));
                proof {
                    assert(survivors@ =~= old(self).level.enemies@.subrange(0, j as int) + old(self).level.enemies@.subrange(j + 1, j + 1));
                }
            }
            j = j + 1;
        }
        self.level.enemies = survivors;
        proof {
            if dead is None {
                assert(self.level.enemies@ =~= old(self).level.enemies@);
            }
            assert forall|i: int| 0 <= i < self.level.enemies@.len() implies enemy_ok(
                old(self).level.tiles,
                #[trigger] self.level.enemies@[i],
            ) && self.level.enemies@[i].position != old(self).player.position by {
                if dead is Some && i >= dead->Some_0 {
                    assert(self.level.enemies@[i] == old(self).level.enemies@[i + 1]);
                } else {
                    assert(self.level.enemies@[i] == old(self).level.enemies@[i]);
                }
            }
            assert forall|i: int, j2: int|
                0 <= i < j2 < self.level.enemies@.len() implies (
            #[trigger] self.level.enemies@[i]).position != (
            #[trigger] self.level.enemies@[j2]).position by {
                let d = dead->Some_0;
                if dead is Some {
                    let oi: int = if i >= d { i + 1 } else { i };
                    let oj: int = if j2 >= d { j2 + 1 } else { j2 };
                    assert(self.level.enemies@[i] == old(self).level.enemies@[oi]);
                    assert(self.level.enemies@[j2] == old(self).level.enemies@[oj]);
                } else {
                    assert(self.level.enemies@[i] == old(self).level.enemies@[i]);
                    assert(self.level.enemies@[j2] == old(self).level.enemies@[j2]);
                }
            }
        }
    }
}

impl GameContext {
    /// One melee strike of the given enemy against the player: the player
    /// loses the damage rolled and one got-attacked event is recorded.
    fn enemy_strike(&mut self, i: usize)
        requires
            i < old(self).level.enemies@.len(),
            old(self).level.enemies@[i as int].stats_match_kind(),
            old(self).level.enemies@[i as int].kind != BeingKind::Player,
            1 <= old(self).player.max_shield,
            old(self).player.health_points >= i32::MIN + 100,
        ensures
            final(self).level == old(self).level,
            final(self).current_level == old(self).current_level,
            final(self).current_turn == old(self).current_turn,
            old(self).player.health_points - 15 <= final(self).player.health_points <= old(self).player.health_points,
            final(self).player.position == old(self).player.position,
            final(self).player.kind == old(self).player.kind,
            final(self).player.max_health_points == old(self).player.max_health_points,
            final(self).player.max_attack == old(self).player.max_attack,
            final(self).player.max_shield == old(self).player.max_shield,
            final(self).player.experience_points == old(self).player.experience_points,
            exists|d: i32|
                0 <= d && final(self).events@ == old(self).events@.push(
                    Event::GotAttacked(old(self).level.enemies@[i as int].kind, d),
                ),
    {
        let mut attacker = self.level.enemies[i];
        let damage_dealt = attacker.fight(&mut self.player);
        self.events.push(Event::GotAttacked(attacker.kind, damage_dealt));
    }

    /// The per-enemy reaction pass, in list order: pursuers chase or strike
    /// when the player sees them, erratic wanderers strike when adjacent and
    /// roam otherwise, guards strike only when adjacent. An enemy that moved
    /// earlier in the pass frees or takes cells for those after it.
    #[verifier::loop_isolation(false)]
    fn enemy_actions(&mut self)
        requires
            old(self).level.tiles.wf(),
            old(self).level.last_seen.wf(),
            old(self).level.enemies@.len() <= 6 + LEVEL_COUNT / 2,
            forall|i: int|
                0 <= i < old(self).level.enemies@.len() ==> enemy_ok(
                    old(self).level.tiles,
                    #[trigger] old(self).level.enemies@[i],
                ),
            forall|i: int, j: int|
                0 <= i < j < old(self).level.enemies@.len() ==> (
                #[trigger] old(self).level.enemies@[i]).position != (
                #[trigger] old(self).level.enemies@[j]).position,
            forall|i: int|
                0 <= i < old(self).level.enemies@.len() ==> (
                #[trigger] old(self).level.enemies@[i]).position != old(self).player.position,
            old(self).player.kind == BeingKind::Player,
            old(self).player.position.spec_in_bounds(),
            1 <= old(self).player.max_shield,
            1 <= old(self).player.health_points <= old(self).player.max_health_points,
        ensures
            final(self).level.tiles == old(self).level.tiles,
            final(self).level.last_seen == old(self).level.last_seen,
            final(self).level.up_stairs == old(self).level.up_stairs,
            final(self).level.down_stairs == old(self).level.down_stairs,
            final(self).current_level == old(self).current_level,
            final(self).current_turn == old(self).current_turn,
            final(self).player.position == old(self).player.position,
            final(self).player.kind == old(self).player.kind,
            final(self).player.max_health_points == old(self).player.max_health_points,
            final(self).player.max_attack == old(self).player.max_attack,
            final(self).player.max_shield == old(self).player.max_shield,
            final(self).player.experience_points == old(self).player.experience_points,
            old(self).player.health_points - 300 <= final(self).player.health_points <= old(self).player.health_points,
            final(self).level.enemies@.len() == old(self).level.enemies@.len(),
            forall|i: int|
                0 <= i < final(self).level.enemies@.len() ==> enemy_ok(
                    old(self).level.tiles,
                    #[trigger] final(self).level.enemies@[i],
                ),
            forall|i: int|
                0 <= i < final(self).level.enemies@.len() ==> (
                #[trigger] final(self).level.enemies@[i]).kind == old(self).level.enemies@[i].kind && final(self).level.enemies@[i].health_points == old(self).level.enemies@[i].health_points
                    && final(self).level.enemies@[i].max_health_points == old(self).level.enemies@[i].max_health_points
                    && final(self).level.enemies@[i].experience_points == old(self).level.enemies@[i].experience_points,
            forall|i: int, j: int|
                0 <= i < j < final(self).level.enemies@.len() ==> (
                #[trigger] final(self).level.enemies@[i]).position != (
                #[trigger] final(self).level.enemies@[j]).position,
            forall|i: int|
                0 <= i < final(self).level.enemies@.len() ==> (
                #[trigger] final(self).level.enemies@[i]).position != old(self).player.position,
            final(self).events@.len() >= old(self).events@.len(),
            forall|k: int|
                0 <= k < old(self).events@.len() ==> final(self).events@[k] == old(self).events@[k],
            forall|k: int|
                old(self).events@.len() <= k < final(self).events@.len() ==> ((
                #[trigger] final(self).events@[k]) matches Event::GotAttacked(kind, d) && 0 <= d
                    && (exists|i: int|
                    0 <= i < old(self).level.enemies@.len() && (#[trigger] old(self).level.enemies@[i]).kind == kind
                        && old(self).level.enemies@[i].position.spec_is_neighboring(
                        old(self).player.position,
                    ))),
            forall|i: int|
                0 <= i < final(self).level.enemies@.len() && (#[trigger] old(self).level.enemies@[i]).kind.is_stationary() ==> final(self).level.enemies@[i].position
                    == old(self).level.enemies@[i].position,
            !enemy_adjacent(old(self).level.enemies@, old(self).player.position) ==> final(self).player == old(self).player && final(self).events@ == old(self).events@,
    {
        let n = self.level.enemies.len();
        let mut i: usize = 0;
        while i < n
            invariant
                i <= n,
                self.level.tiles == old(self).level.tiles,
                self.level.last_seen == old(self).level.last_seen,
                self.level.up_stairs == old(self).level.up_stairs,
                self.level.down_stairs == old(self).level.down_stairs,
                self.current_level == old(self).current_level,
                self.current_turn == old(self).current_turn,
                self.player.position == old(self).player.position,
                self.player.kind == old(self).player.kind,
                self.player.max_health_points == old(self).player.max_health_points,
                self.player.max_attack == old(self).player.max_attack,
                self.player.max_shield == old(self).player.max_shield,
                self.player.experience_points == old(self).player.experience_points,
                self.player.health_points <= old(self).player.health_points,
                self.player.health_points >= old(self).player.health_points - 15 * i,
                self.level.enemies@.len() == n,
                forall|k: int|
                    0 <= k < n ==> enemy_ok(
                        old(self).level.tiles,
                        #[trigger] self.level.enemies@[k],
                    ),
                forall|k: int|
                    0 <= k < n ==> (#[trigger] self.level.enemies@[k]).kind == old(self).level.enemies@[k].kind && self.level.enemies@[k].health_points == old(self).level.enemies@[k].health_points
                        && self.level.enemies@[k].max_health_points == old(self).level.enemies@[k].max_health_points
                        && self.level.enemies@[k].experience_points == old(self).level.enemies@[k].experience_points,
                forall|k: int, l: int|
                    0 <= k < l < n ==> (#[trigger] self.level.enemies@[k]).position != (
                    #[trigger] self.level.enemies@[l]).position,
                forall|k: int|
                    0 <= k < n ==> (#[trigger] self.level.enemies@[k]).position
                        != self.player.position,
                forall|k: int|
                    i <= k < n ==> (#[trigger] self.level.enemies@[k]).position == old(self).level.enemies@[k].position,
                self.events@.len() >= old(self).events@.len(),
                forall|k: int|
                    0 <= k < old(self).events@.len() ==> self.events@[k] == old(self).events@[k],
                forall|k: int|
                    old(self).events@.len() <= k < self.events@.len() ==> ((
                    #[trigger] self.events@[k]) matches Event::GotAttacked(kind, d) && 0 <= d && (
                    exists|i2: int|
                        0 <= i2 < old(self).level.enemies@.len() && (#[trigger] old(self).level.enemies@[i2]).kind == kind
                            && old(self).level.enemies@[i2].position.spec_is_neighboring(
                            old(self).player.position,
                        ))),
                forall|k: int|
                    0 <= k < n && (#[trigger] old(self).level.enemies@[k]).kind.is_stationary()
                        ==> self.level.enemies@[k].position == old(self).level.enemies@[k].position,
                !enemy_adjacent(old(self).level.enemies@, old(self).player.position)
                    ==> self.player == old(self).player && self.events@ == old(self).events@,
            decreases n - i,
        {
            let enemy = self.level.enemies[i];
            let ghost events_pre = self.events@;
            let ghost enemies_pre = self.level.enemies@;
            match enemy.kind {
                BeingKind::Gnoll | BeingKind::Kestrel | BeingKind::Troll => {
                    if self.level.last_seen.at_point(enemy.position) == self.current_turn {
                        let found = astar_to(
                            &self.level.tiles,
                            &self.level.enemies,
                            enemy.position,
                            self.player.position,
                        );
                        match found {
                            Some(to_player) => {
                                proof {
                                    assert(to_player@[0] == enemy.position);
                                    assert(to_player@.len() >= 2) by {
                                        if to_player@.len() == 1 {
                                            assert(to_player@.last() == enemy.position);
                                        }
                                    }
                                    assert(step_free(
                                        self.level.tiles@,
                                        self.level.enemies@,
                                        to_player@[0],
                                        to_player@[1],
                                    ));
                                }
                                let step = to_player[1];
                                if step == self.player.position {
                                    proof {
                                        assert(enemy.position.spec_is_neighboring(
                                            self.player.position,
                                        ));
                                        assert(enemy_adjacent(
                                            old(self).level.enemies@,
                                            old(self).player.position,
                                        )) by {
                                            assert(old(self).level.enemies@[i as int].position
                                                == enemy.position);
                                        }
                                    }
                                    self.enemy_strike(i);
                                    proof {
                                        assert(old(self).level.enemies@[
                                            i as int
                                        ].position.spec_is_neighboring(old(self).player.position));
                                        assert forall|k: int|
                                            old(self).events@.len() <= k < self.events@.len()
                                            implies ((#[trigger] self.events@[k]) matches Event::GotAttacked(
                                            kind,
                                            d,
                                        ) && 0 <= d && (exists|i2: int|
                                            0 <= i2 < old(self).level.enemies@.len() && (
                                            #[trigger] old(self).level.enemies@[i2]).kind == kind
                                                && old(self).level.enemies@[i2].position.spec_is_neighboring(
                                                old(self).player.position,
                                            ))) by {
                                            if k < events_pre.len() {
                                                assert(self.events@[k] == events_pre[k]);
                                            } else {
                                                assert(self.events@[k] == self.events@.last());
                                            }
                                        }
                                    }
                                } else {
                                    let mut moved = self.level.enemies[i];
                                    moved.position = step;
                                    self.level.enemies[i] = moved;
                                    proof {
                                        assert forall|k: int, l: int|
                                            0 <= k < l < n implies (
                                        #[trigger] self.level.enemies@[k]).position != (
                                        #[trigger] self.level.enemies@[l]).position by {
                                            if k != i && l != i {
                                                assert(self.level.enemies@[k]
                                                    == enemies_pre[k]);
                                                assert(self.level.enemies@[l]
                                                    == enemies_pre[l]);
                                            } else if k == i {
                                                assert(enemies_pre[l].position != step);
                                                assert(self.level.enemies@[l]
                                                    == enemies_pre[l]);
                                            } else {
                                                assert(enemies_pre[k].position != step);
                                                assert(self.level.enemies@[k]
                                                    == enemies_pre[k]);
                                            }
                                        }
                                    }
                                }
                            },
                            None => {},
                        }
                    }
                },
                BeingKind::Bat | BeingKind::Emu | BeingKind::Zombie => {
                    if enemy.position.is_neighboring(self.player.position) {
                        proof {
                            assert(enemy_adjacent(
                                old(self).level.enemies@,
                                old(self).player.position,
                            )) by {
                                assert(old(self).level.enemies@[i as int].position
                                    == enemy.position);
                            }
                        }
                        self.enemy_strike(i);
                        proof {
                            assert(old(self).level.enemies@[i as int].position.spec_is_neighboring(
                                old(self).player.position,
                            ));
                            assert forall|k: int|
                                old(self).events@.len() <= k < self.events@.len() implies ((
                            #[trigger] self.events@[k]) matches Event::GotAttacked(kind, d) && 0
                                <= d && (exists|i2: int|
                                0 <= i2 < old(self).level.enemies@.len() && (#[trigger] old(self).level.enemies@[i2]).kind == kind
                                    && old(self).level.enemies@[i2].position.spec_is_neighboring(
                                    old(self).player.position,
                                ))) by {
                                if k < events_pre.len() {
                                    assert(self.events@[k] == events_pre[k]);
                                } else {
                                    assert(self.events@[k] == self.events@.last());
                                }
                            }
                        }
                    } else {
                        let possible_positions = path_successors(
                            &self.level.tiles,
                            &self.level.enemies,
                            enemy.position,
                        );
                        if possible_positions.len() > 0 {
                            let pick = rand_range(
                                0,
                                possible_positions.len() as i32,
                            ) as usize;
                            let step = possible_positions[pick].0;
                            proof {
                                assert(step_free(
                                    self.level.tiles@,
                                    self.level.enemies@,
                                    enemy.position,
                                    step,
                                ));
                                assert(step != self.player.position) by {
                                    if step == self.player.position {
                                        assert(enemy.position.spec_is_neighboring(
                                            self.player.position,
                                        ));
                                    }
                                }
                            }
                            let mut moved = self.level.enemies[i];
                            moved.position = step;
                            self.level.enemies[i] = moved;
                            proof {
                                assert forall|k: int, l: int|
                                    0 <= k < l < n implies (
                                #[trigger] self.level.enemies@[k]).position != (
                                #[trigger] self.level.enemies@[l]).position by {
                                    if k != i && l != i {
                                        assert(self.level.enemies@[k] == enemies_pre[k]);
                                        assert(self.level.enemies@[l] == enemies_pre[l]);
                                    } else if k == i {
                                        assert(enemies_pre[l].position != step);
                                        assert(self.level.enemies@[l] == enemies_pre[l]);
                                    } else {
                                        assert(enemies_pre[k].position != step);
                                        assert(self.level.enemies@[k] == enemies_pre[k]);
                                    }
                                }
                            }
                        }
                    }
                },
                BeingKind::AnimatedStatue | BeingKind::LazyImp | BeingKind::StoneSatan => {
                    if enemy.position.is_neighboring(self.player.position) {
                        proof {
                            assert(enemy_adjacent(
                                old(self).level.enemies@,
                                old(self).player.position,
                            )) by {
                                assert(old(self).level.enemies@[i as int].position
                                    == enemy.position);
                            }
                        }
                        self.enemy_strike(i);
                        proof {
                            assert(old(self).level.enemies@[i as int].position.spec_is_neighboring(
                                old(self).player.position,
                            ));
                            assert forall|k: int|
                                old(self).events@.len() <= k < self.events@.len() implies ((
                            #[trigger] self.events@[k]) matches Event::GotAttacked(kind, d) && 0
                                <= d && (exists|i2: int|
                                0 <= i2 < old(self).level.enemies@.len() && (#[trigger] old(self).level.enemies@[i2]).kind == kind
                                    && old(self).level.enemies@[i2].position.spec_is_neighboring(
                                    old(self).player.position,
                                ))) by {
                                if k < events_pre.len() {
                                    assert(self.events@[k] == events_pre[k]);
                                } else {
                                    assert(self.events@[k] == self.events@.last());
                                }
                            }
                        }
                    }
                },
                BeingKind::Player => {},
            }
            i = i + 1;
        }
    }
}

/// The index of the enemy standing on the given cell, if any.
fn find_enemy_at(enemies: &Vec<Being>, pos: Point) -> (r: Option<usize>)
    ensures
        r matches Some(j) ==> j < enemies@.len() && enemies@[j as int].position == pos,
        r is None ==> forall|j: int|
            0 <= j < enemies@.len() ==> (#[trigger] enemies@[j]).position != pos,
{
    let mut j: usize = 0;
    while j < enemies.len()
        invariant
            j <= enemies@.len(),
            forall|k: int| 0 <= k < j ==> (#[trigger] enemies@[k]).position != pos,
        decreases enemies@.len() - j,
    {
        if enemies[j].position.x == pos.x && enemies[j].position.y == pos.y {
            return Some(j);
        }
        j = j + 1;
    }
    None
}

impl GameContext {
    /// The periodic regeneration tick: the player and every enemy recover
    /// one health point, each capped at its own maximum.
    #[verifier::loop_isolation(false)]
    fn regen_pass(&mut self)
        ensures
            final(self).level.tiles == old(self).level.tiles,
            final(self).level.last_seen == old(self).level.last_seen,
            final(self).level.up_stairs == old(self).level.up_stairs,
            final(self).level.down_stairs == old(self).level.down_stairs,
            final(self).current_level == old(self).current_level,
            final(self).current_turn == old(self).current_turn,
            final(self).events == old(self).events,
            final(self).player.position == old(self).player.position,
            final(self).player.kind == old(self).player.kind,
            final(self).player.max_health_points == old(self).player.max_health_points,
            final(self).player.max_attack == old(self).player.max_attack,
            final(self).player.max_shield == old(self).player.max_shield,
            final(self).player.experience_points == old(self).player.experience_points,
            final(self).player.health_points == (if old(self).player.health_points < old(self).player.max_health_points {
                old(self).player.health_points + 1
            } else {
                old(self).player.health_points as int
            }),
            final(self).level.enemies@.len() == old(self).level.enemies@.len(),
            forall|k: int|
                0 <= k < final(self).level.enemies@.len() ==> {
                    let pre = old(self).level.enemies@[k];
                    let post = #[trigger] final(self).level.enemies@[k];
                    post.position == pre.position && post.kind == pre.kind
                        && post.max_health_points == pre.max_health_points && post.max_attack
                        == pre.max_attack && post.max_shield == pre.max_shield
                        && post.experience_points == pre.experience_points && post.health_points
                        == (if pre.health_points < pre.max_health_points {
                        pre.health_points + 1
                    } else {
                        pre.health_points as int
                    })
                },
    {
        self.player.bump_health();
        let n = self.level.enemies.len();
        let mut i: usize = 0;
        while i < n
            invariant
                i <= n,
                n == self.level.enemies@.len(),
                self.level.tiles == old(self).level.tiles,
                self.level.last_seen == old(self).level.last_seen,
                self.level.up_stairs == old(self).level.up_stairs,
                self.level.down_stairs == old(self).level.down_stairs,
                self.current_level == old(self).current_level,
                self.current_turn == old(self).current_turn,
                self.events == old(self).events,
                self.player.position == old(self).player.position,
                self.player.kind == old(self).player.kind,
                self.player.max_health_points == old(self).player.max_health_points,
                self.player.max_attack == old(self).player.max_attack,
                self.player.max_shield == old(self).player.max_shield,
                self.player.experience_points == old(self).player.experience_points,
                self.player.health_points == (if old(self).player.health_points < old(self).player.max_health_points {
                    old(self).player.health_points + 1
                } else {
                    old(self).player.health_points as int
                }),
                forall|k: int|
                    0 <= k < i ==> {
                        let pre = old(self).level.enemies@[k];
                        let post = #[trigger] self.level.enemies@[k];
                        post.position == pre.position && post.kind == pre.kind
                            && post.max_health_points == pre.max_health_points && post.max_attack
                            == pre.max_attack && post.max_shield == pre.max_shield
                            && post.experience_points == pre.experience_points
                            && post.health_points == (if pre.health_points
                            < pre.max_health_points {
                            pre.health_points + 1
                        } else {
                            pre.health_points as int
                        })
                    },
                forall|k: int|
                    i <= k < n ==> #[trigger] self.level.enemies@[k] == old(self).level.enemies@[k],
            decreases n - i,
        {
            let mut enemy = self.level.enemies[i];
            enemy.bump_health();
            self.level.enemies[i] = enemy;
            i = i + 1;
        }
    }

    /// Processes exactly one player decision and resolves the whole world
    /// by one discrete step: the player's move or interaction, removal of
    /// enemies that died of it, a fresh field of view, every enemy's
    /// reaction, win and death detection, the item or stairs prompt, and
    /// the periodic regeneration tick. The turn counter advances by one.
    ///
    /// A move onto a cell an enemy holds becomes an attack and the player
    /// stays put; a move out of bounds or into a wall does nothing.
    /// Interacting on the down-stairs of the last floor wins the run and
    /// generates no further level; on any earlier floor it replaces the
    /// level wholesale and puts the player on the new up-stairs.
    /// Interacting on an item applies its boost and clears the tile. When
    /// the player's health is gone a death event ends the turn, and the
    /// item or stairs prompt of that turn is suppressed. Outside a level
    /// change, no cell's last-seen stamp ever decreases.
    #[verifier::spinoff_prover]
    #[verifier::rlimit(50)]
    #[verifier::spinoff_prover]
    #[verifier::rlimit(100)]
    pub fn next_turn(&mut self, action: PlayerAction)
        requires
            old(self).wf(),
            1 <= old(self).current_level <= LEVEL_COUNT,
            old(self).current_turn < u32::MAX,
            1 <= old(self).player.health_points,
            old(self).player.experience_points <= i32::MAX - 1000,
            old(self).player.max_attack < i32::MAX,
            old(self).player.max_shield < i32::MAX,
            old(self).player.max_health_points < i32::MAX,
            action matches PlayerAction::MoveBy(d) ==> -1 <= d.x <= 1 && -1 <= d.y <= 1,
        ensures
            final(self).wf(),
            final(self).current_turn == old(self).current_turn + 1,
            final(self).player.experience_points >= old(self).player.experience_points,
            action matches PlayerAction::MoveBy(d) ==> ({
                let tx = old(self).player.position.x + d.x;
                let ty = old(self).player.position.y + d.y;
                let valid = 0 <= tx < LEVEL_WIDTH && 0 <= ty < LEVEL_HEIGHT && old(self).level.tiles.spec_at(ty, tx).spec_is_walkable();
                &&& final(self).current_level == old(self).current_level
                &&& final(self).level.tiles == old(self).level.tiles
                &&& final(self).level.up_stairs == old(self).level.up_stairs
                &&& final(self).level.down_stairs == old(self).level.down_stairs
                &&& final(self).player.max_health_points == old(self).player.max_health_points
                &&& final(self).player.max_attack == old(self).player.max_attack
                &&& final(self).player.max_shield == old(self).player.max_shield
                &&& (!valid ==> final(self).player.position == old(self).player.position)
                &&& ((valid && enemy_at(old(self).level.enemies@, ty, tx)) ==> final(self).player.position == old(self).player.position && final(self).events@.len() >= 1
                    && (exists|j: int|
                    0 <= j < old(self).level.enemies@.len() && (
                    #[trigger] old(self).level.enemies@[j]).position.y == ty && old(self).level.enemies@[j].position.x == tx && (final(self).events@[0] matches Event::Attacked(
                        k,
                        dmg,
                    ) && k == old(self).level.enemies@[j].kind && 0 <= dmg <= old(self).player.max_attack && (old(self).level.enemies@[j].health_points - dmg >= 1
                        ==> final(self).level.enemies@.len() == old(self).level.enemies@.len()
                        && final(self).player.experience_points == old(self).player.experience_points && (forall|i: int|
                        0 <= i < old(self).level.enemies@.len() ==> (#[trigger] final(self).level.enemies@[i]).kind == old(self).level.enemies@[i].kind)
                        && final(self).level.enemies@[j].health_points == regen_health(
                        old(self).level.enemies@[j].health_points - dmg,
                        old(self).level.enemies@[j].max_health_points as int,
                        (old(self).current_turn + 1) % 10 == 0 && final(self).player.health_points
                            > 0,
                    )) && (old(self).level.enemies@[j].health_points - dmg < 1 ==> final(self).level.enemies@.len() == old(self).level.enemies@.len() - 1 && final(self).events@.len() >= 2 && final(self).events@[1] == Event::Killed(
                        old(self).level.enemies@[j].kind,
                        old(self).level.enemies@[j].experience_points,
                    ) && final(self).player.experience_points == old(self).player.experience_points + old(self).level.enemies@[j].experience_points))))
                &&& ((valid && !enemy_at(old(self).level.enemies@, ty, tx)) ==> final(self).player.position.x == tx && final(self).player.position.y == ty)
            }),
            (action matches PlayerAction::MoveBy(d) && d.x == 0 && d.y == 0 && !enemy_adjacent(
                old(self).level.enemies@,
                old(self).player.position,
            ) && (old(self).current_turn + 1) % 10 != 0) ==> final(self).player == old(self).player,
            action matches PlayerAction::Select ==> ({
                let py = old(self).player.position.y as int;
                let px = old(self).player.position.x as int;
                let on_down = old(self).level.tiles.spec_at(py, px) == Tile::Stairs(1);
                &&& ((on_down && old(self).current_level == LEVEL_COUNT) ==> final(self).current_level == old(self).current_level + 1 && final(self).level == old(self).level && final(self).player == old(self).player && final(self).events@.len() == 1
                    && final(self).events@[0] == Event::Won(old(self).player.experience_points))
                &&& ((on_down && old(self).current_level < LEVEL_COUNT) ==> final(self).current_level == old(self).current_level + 1 && final(self).player.position
                    == final(self).level.up_stairs && final(self).events@.len() == 0 && final(self).player.health_points == old(self).player.health_points && final(self).player.experience_points == old(self).player.experience_points && final(self).player.max_health_points == old(self).player.max_health_points && final(self).player.max_attack == old(self).player.max_attack && final(self).player.max_shield == old(self).player.max_shield && (forall|y: int, x: int|
                    on_grid(y, x) ==> final(self).level.last_seen.spec_at(y, x) == 0 || final(self).level.last_seen.spec_at(y, x) == old(self).current_turn + 1) && final(self).level.last_seen.spec_at(
                    final(self).player.position.y as int,
                    final(self).player.position.x as int,
                ) == old(self).current_turn + 1)
                &&& (old(self).level.tiles.spec_at(py, px) matches Tile::Item(it) ==> final(self).level.tiles@ == old(self).level.tiles@.update(cell(py, px), Tile::Room) && final(self).player.position == old(self).player.position && final(self).current_level == old(self).current_level && (it == PickUpItem::HealthBoost ==> final(self).player.max_health_points == old(self).player.max_health_points + 1 && final(self).player.max_attack == old(self).player.max_attack && final(self).player.max_shield == old(self).player.max_shield) && (it
                    == PickUpItem::AttackBoost ==> final(self).player.max_attack == old(self).player.max_attack + 1 && final(self).player.max_health_points == old(self).player.max_health_points && final(self).player.max_shield == old(self).player.max_shield) && (it == PickUpItem::ShieldBoost ==> final(self).player.max_shield == old(self).player.max_shield + 1 && final(self).player.max_health_points == old(self).player.max_health_points && final(self).player.max_attack == old(self).player.max_attack))
                &&& ((!on_down && !(old(self).level.tiles.spec_at(py, px) matches Tile::Item(_)))
                    ==> final(self).level.tiles == old(self).level.tiles && final(self).player.position == old(self).player.position && final(self).current_level == old(self).current_level && final(self).player.max_health_points == old(self).player.max_health_points && final(self).player.max_attack == old(self).player.max_attack && final(self).player.max_shield == old(self).player.max_shield)
            }),
            final(self).player.health_points <= 0 ==> final(self).events@.len() >= 1 && final(self).events@.last() == Event::Died(final(self).player.experience_points) && (forall|
                k: int,
            |
                0 <= k < final(self).events@.len() ==> !((#[trigger] final(self).events@[k]) matches Event::OnItem(_))),
            (!(action matches PlayerAction::Select && old(self).level.tiles.spec_at(
                old(self).player.position.y as int,
                old(self).player.position.x as int,
            ) == Tile::Stairs(1) && old(self).current_level < LEVEL_COUNT)) ==> (forall|
                y: int,
                x: int,
            |
                on_grid(y, x) ==> final(self).level.last_seen.spec_at(y, x) >= old(self).level.last_seen.spec_at(y, x)),
            (!(action matches PlayerAction::Select && old(self).level.tiles.spec_at(
                old(self).player.position.y as int,
                old(self).player.position.x as int,
            ) == Tile::Stairs(1))) ==> final(self).level.last_seen.spec_at(
                final(self).player.position.y as int,
                final(self).player.position.x as int,
            ) == old(self).current_turn + 1,
            (action matches PlayerAction::MoveBy(d) && d.x == 0 && d.y == 0 && !enemy_adjacent(
                old(self).level.enemies@,
                old(self).player.position,
            ) && (old(self).current_turn + 1) % 10 == 0) ==> ({
                &&& final(self).player.position == old(self).player.position
                &&& final(self).player.experience_points == old(self).player.experience_points
                &&& final(self).player.health_points == regen_health(
                    old(self).player.health_points as int,
                    old(self).player.max_health_points as int,
                    true,
                )
                &&& final(self).level.enemies@.len() == old(self).level.enemies@.len()
                &&& forall|i: int|
                    0 <= i < final(self).level.enemies@.len() ==> (#[trigger] final(self).level.enemies@[i]).health_points == regen_health(
                        old(self).level.enemies@[i].health_points as int,
                        old(self).level.enemies@[i].max_health_points as int,
                        true,
                    )
            }),
            (action matches PlayerAction::MoveBy(d) && d.x == 0 && d.y == 0 && !enemy_adjacent(
                old(self).level.enemies@,
                old(self).player.position,
            )) ==> (forall|k: int|
                0 <= k < final(self).events@.len() ==> (#[trigger] final(self).events@[k]) matches Event::OnItem(_)),
            action matches PlayerAction::MoveBy(d) ==> ({
                let tx = old(self).player.position.x + d.x;
                let ty = old(self).player.position.y + d.y;
                !(0 <= tx < LEVEL_WIDTH && 0 <= ty < LEVEL_HEIGHT && old(self).level.tiles.spec_at(
                    ty,
                    tx,
                ).spec_is_walkable()) ==> (forall|k: int|
                    0 <= k < final(self).events@.len() ==> !((#[trigger] final(self).events@[k]) matches Event::Attacked(_, _)) && !((final(self).events@[k]) matches Event::Killed(_, _)))
            }),
            (action matches PlayerAction::Select && old(self).level.tiles.spec_at(
                old(self).player.position.y as int,
                old(self).player.position.x as int,
            ) == Tile::Item(PickUpItem::HealthBoost) && !enemy_adjacent(
                old(self).level.enemies@,
                old(self).player.position,
            )) ==> final(self).player.health_points == final(self).player.max_health_points,
            (final(self).level.enemies@.len() == old(self).level.enemies@.len() && !(
            action matches PlayerAction::Select && old(self).level.tiles.spec_at(
                old(self).player.position.y as int,
                old(self).player.position.x as int,
            ) == Tile::Stairs(1) && old(self).current_level < LEVEL_COUNT)) ==> (forall|i: int|
                0 <= i < final(self).level.enemies@.len() && (#[trigger] old(self).level.enemies@[i]).kind.is_stationary() ==> final(self).level.enemies@[i].position
                    == old(self).level.enemies@[i].position),
            (final(self).player.health_points > 0 && !(action matches PlayerAction::Select && old(self).level.tiles.spec_at(
                old(self).player.position.y as int,
                old(self).player.position.x as int,
            ) == Tile::Stairs(1))) ==> ({
                let ftile = final(self).level.tiles.spec_at(
                    final(self).player.position.y as int,
                    final(self).player.position.x as int,
                );
                &&& (ftile matches Tile::Item(it) ==> final(self).events@.len() >= 1 && final(self).events@.last() == Event::OnItem(Some(it)))
                &&& (ftile == Tile::Stairs(1) ==> final(self).events@.len() >= 1 && final(self).events@.last() == Event::OnItem(None))
                &&& forall|k: int|
                    0 <= k < final(self).events@.len() && ((#[trigger] final(self).events@[k]) matches Event::OnItem(_)) ==> k == final(self).events@.len() - 1
                        && (ftile matches Tile::Item(_) || ftile == Tile::Stairs(1))
            }),
            forall|k: int|
                0 <= k < final(self).events@.len() ==> ((#[trigger] final(self).events@[k]) matches Event::GotAttacked(kind, d) ==> (0 <= d && (exists|i: int|
                    0 <= i < old(self).level.enemies@.len() && (#[trigger] old(self).level.enemies@[i]).kind == kind
                        && old(self).level.enemies@[i].position.spec_is_neighboring(
                        final(self).player.position,
                    )))),
    {
        self.events = Vec::new();
        self.current_turn = self.current_turn + 1;
        let ghost mut dead_index: Option<int> = None;

        match action {
            PlayerAction::MoveBy(move_by) => {
                let new_position = self.player.position + move_by;
                if new_position.in_bounds() && self.level.tiles.at_point(
                    new_position,
                ).is_walkable() {
                    match find_enemy_at(&self.level.enemies, new_position) {
                        Some(j) => {
                            let mut target = self.level.enemies[j];
                            let damage_dealt = self.player.fight(&mut target);
                            self.level.enemies[j] = target;
                            self.events.push(Event::Attacked(target.kind, damage_dealt));
                            proof {
                                if target.health_points < 1 {
                                    dead_index = Some(j as int);
                                }
                            }
                        },
                        None => {
                            self.player.position = new_position;
                        },
                    }
                }
            },
            PlayerAction::Select => {
                let here = self.level.tiles.at_point(self.player.position);
                if here == Tile::Stairs(1) {
                    self.current_level = self.current_level + 1;
                    if self.current_level > LEVEL_COUNT {
                        self.events.push(Event::Won(self.player.experience_points));
                    } else {
                        self.level = Level::generate(self.current_level);
                        self.player.position = self.level.up_stairs;
                        proof {
                            assert forall|i: int|
                                0 <= i < self.level.enemies@.len() implies (
                            #[trigger] self.level.enemies@[i]).position
                                != self.player.position by {
                                assert(self.level.tiles.spec_at(
                                    self.level.enemies@[i].position.y as int,
                                    self.level.enemies@[i].position.x as int,
                                ) == Tile::Room);
                            }
                        }
                        self.update_fov();
                    }
                    return;
                } else {
                    match here {
                        Tile::Item(item) => {
                            match item {
                                PickUpItem::HealthBoost => {
                                    self.player.max_health_points = self.player.max_health_points
                                        + 1;
                                    self.player.health_points = self.player.max_health_points;
                                },
                                PickUpItem::AttackBoost => {
                                    self.player.max_attack = self.player.max_attack + 1;
                                },
                                PickUpItem::ShieldBoost => {
                                    self.player.max_shield = self.player.max_shield + 1;
                                },
                            }
                            let ghost tiles_pre = self.level.tiles;
                            self.level.tiles.set_point(self.player.position, Tile::Room);
                            proof {
                                lemma_overwrite_keeps_stairs(
                                    tiles_pre,
                                    self.level.tiles,
                                    self.player.position,
                                    Tile::Room,
                                    self.level.up_stairs,
                                    self.level.down_stairs,
                                );
                                assert forall|i: int|
                                    0 <= i < self.level.enemies@.len() implies enemy_ok(
                                    self.level.tiles,
                                    #[trigger] self.level.enemies@[i],
                                ) by {
                                    let e = self.level.enemies@[i];
                                    if cell(e.position.y as int, e.position.x as int) != cell(
                                        self.player.position.y as int,
                                        self.player.position.x as int,
                                    ) {
                                        assert(self.level.tiles.spec_at(
                                            e.position.y as int,
                                            e.position.x as int,
                                        ) == tiles_pre.spec_at(
                                            e.position.y as int,
                                            e.position.x as int,
                                        ));
                                    }
                                }
                            }
                        },
                        _ => {},
                    }
                }
            },
        }

        self.remove_dead_enemies(Ghost(dead_index));
        self.update_fov();
        let ghost pre_ai_enemies = self.level.enemies@;
        let ghost pre_ai_events = self.events@;
        self.enemy_actions();
        proof {
            assert forall|k: int|
                0 <= k < self.events@.len() implies ((#[trigger] self.events@[k]) matches Event::GotAttacked(
                kind,
                d,
            ) ==> (0 <= d && (exists|i: int|
                0 <= i < old(self).level.enemies@.len() && (#[trigger] old(self).level.enemies@[i]).kind == kind
                    && old(self).level.enemies@[i].position.spec_is_neighboring(
                    self.player.position,
                )))) by {
                match self.events@[k] {
                    Event::GotAttacked(event_kind, _) => {
                        if k >= pre_ai_events.len() {
                            let i2 = choose|i2: int|
                                0 <= i2 < pre_ai_enemies.len() && (
                                #[trigger] pre_ai_enemies[i2]).kind == event_kind
                                    && pre_ai_enemies[i2].position.spec_is_neighboring(
                                    self.player.position,
                                );
                            let m: int = if dead_index is Some && i2 >= dead_index->Some_0 {
                                i2 + 1
                            } else {
                                i2
                            };
                            assert(pre_ai_enemies[i2].kind == old(self).level.enemies@[m].kind);
                            assert(pre_ai_enemies[i2].position == old(self).level.enemies@[m].position);
                        }
                    },
                    _ => {},
                }
            }
        }

        if self.player.health_points <= 0 {
            self.events.push(Event::Died(self.player.experience_points));
            return;
        }

        let here = self.level.tiles.at_point(self.player.position);
        match here {
            Tile::Item(item) => {
                self.events.push(Event::OnItem(Some(item)));
            },
            Tile::Stairs(d) => {
                if d == 1 {
                    self.events.push(Event::OnItem(None));
                }
            },
            _ => {},
        }

        if self.current_turn % 10 == 0 {
            self.regen_pass();
        }
    }
}

} // verus!
