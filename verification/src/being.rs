use vstd::prelude::*;

use crate::beingkind::BeingKind;
use crate::point::Point;
use crate::rng::rand_range;

verus! {

/// Full health of a freshly created being of the given kind.
pub open spec fn kind_hp(kind: BeingKind) -> int {
    match kind {
        BeingKind::Player => 20,
        BeingKind::Gnoll => 9,
        BeingKind::Bat => 10,
        BeingKind::AnimatedStatue => 15,
        BeingKind::Kestrel => 10,
        BeingKind::Emu => 12,
        BeingKind::LazyImp => 20,
        BeingKind::Troll => 15,
        BeingKind::Zombie => 15,
        BeingKind::StoneSatan => 30,
    }
}

/// Largest damage roll of a being of the given kind.
pub open spec fn kind_attack(kind: BeingKind) -> int {
    match kind {
        BeingKind::Player => 5,
        BeingKind::Gnoll => 4,
        BeingKind::Bat => 2,
        BeingKind::AnimatedStatue => 3,
        BeingKind::Kestrel => 5,
        BeingKind::Emu => 3,
        BeingKind::LazyImp => 5,
        BeingKind::Troll => 7,
        BeingKind::Zombie => 9,
        BeingKind::StoneSatan => 15,
    }
}

/// Shield strength of a being of the given kind.
pub open spec fn kind_shield(kind: BeingKind) -> int {
    match kind {
        BeingKind::Player => 1,
        BeingKind::Gnoll => 2,
        BeingKind::Bat => 3,
        BeingKind::AnimatedStatue => 1,
        BeingKind::Kestrel => 5,
        BeingKind::Emu => 3,
        BeingKind::LazyImp => 1,
        BeingKind::Troll => 5,
        BeingKind::Zombie => 4,
        BeingKind::StoneSatan => 5,
    }
}

/// Smallest experience yield of a being of the given kind (inclusive).
pub open spec fn kind_xp_lo(kind: BeingKind) -> int {
    match kind {
        BeingKind::Player => 0,
        BeingKind::Gnoll => 10,
        BeingKind::Bat => 15,
        BeingKind::AnimatedStatue => 15,
        BeingKind::Kestrel => 20,
        BeingKind::Emu => 25,
        BeingKind::LazyImp => 25,
        BeingKind::Troll => 30,
        BeingKind::Zombie => 35,
        BeingKind::StoneSatan => 35,
    }
}

/// Largest experience yield of a being of the given kind (exclusive).
pub open spec fn kind_xp_hi(kind: BeingKind) -> int {
    match kind {
        BeingKind::Player => 1,
        BeingKind::Gnoll => 15,
        BeingKind::Bat => 20,
        BeingKind::AnimatedStatue => 20,
        BeingKind::Kestrel => 25,
        BeingKind::Emu => 30,
        BeingKind::LazyImp => 30,
        BeingKind::Troll => 35,
        BeingKind::Zombie => 40,
        BeingKind::StoneSatan => 40,
    }
}

/// A stat-bearing actor: the player or one enemy.
#[derive(Clone, Copy, Debug)]
pub struct Being {
    pub position: Point,
    pub max_health_points: i32,
    pub health_points: i32,
    pub experience_points: i32,
    pub max_attack: i32,
    pub max_shield: i32,
    pub kind: BeingKind,
}

impl Being {
    /// The being carries the stat tuple of its kind, with full health.
    pub open spec fn stats_match_kind(self) -> bool {
        &&& self.max_health_points == kind_hp(self.kind)
        &&& self.max_attack == kind_attack(self.kind)
        &&& self.max_shield == kind_shield(self.kind)
        &&& kind_xp_lo(self.kind) <= self.experience_points < kind_xp_hi(self.kind)
    }

    pub fn new(
        position: Point,
        hp: i32,
        experience_points: i32,
        max_attack: i32,
        max_shield: i32,
        kind: BeingKind,
    ) -> (r: Being)
        ensures
            r.position == position,
            r.max_health_points == hp,
            r.health_points == hp,
            r.experience_points == experience_points,
            r.max_attack == max_attack,
            r.max_shield == max_shield,
            r.kind == kind,
    {
        Being {
            position,
            max_health_points: hp,
            health_points: hp,
            experience_points,
            max_attack,
            max_shield,
            kind,
        }
    }

    /// A fresh being of the given kind at the given position, with the
    /// kind's fixed stats and a random experience yield from the kind's
    /// range; the player starts with no experience.
    pub fn new_of_kind(kind: BeingKind, position: Point) -> (r: Being)
        ensures
            r.kind == kind,
            r.position == position,
            r.health_points == r.max_health_points,
            r.stats_match_kind(),
            kind == BeingKind::Player ==> r.experience_points == 0,
    {
        match kind {
            BeingKind::Player => Being::new(position, 20, 0, 5, 1, kind),
            BeingKind::Gnoll => Being::new(position, 9, rand_range(10, 15), 4, 2, kind),
            BeingKind::Bat => Being::new(position, 10, rand_range(15, 20), 2, 3, kind),
            BeingKind::AnimatedStatue => Being::new(position, 15, rand_range(15, 20), 3, 1, kind),
            BeingKind::Kestrel => Being::new(position, 10, rand_range(20, 25), 5, 5, kind),
            BeingKind::Emu => Being::new(position, 12, rand_range(25, 30), 3, 3, kind),
            BeingKind::LazyImp => Being::new(position, 20, rand_range(25, 30), 5, 1, kind),
            BeingKind::Troll => Being::new(position, 15, rand_range(30, 35), 7, 5, kind),
            BeingKind::Zombie => Being::new(position, 15, rand_range(35, 40), 9, 4, kind),
            BeingKind::StoneSatan => Being::new(position, 30, rand_range(35, 40), 15, 5, kind),
        }
    }

    /// A fresh player; the position is a placeholder until the level's
    /// up-stairs is known.
    pub fn new_player() -> (r: Being)
        ensures
            r.kind == BeingKind::Player,
            r.health_points == r.max_health_points,
            r.stats_match_kind(),
            r.experience_points == 0,
            r.position == (Point { x: 0, y: 0 }),
    {
        Being::new_of_kind(BeingKind::Player, Point::new(0, 0))
    }

    /// One attack of `self` against `other`: the damage dealt is a random
    /// attack roll less a random shield roll, never negative, and comes off
    /// the defender's health. The defender's health never increases.
    pub fn fight(&mut self, other: &mut Being) -> (r: i32)
        requires
            0 <= old(self).max_attack < i32::MAX,
            old(other).max_shield >= 1,
            i32::MIN <= old(other).health_points - old(self).max_attack,
        ensures
            0 <= r <= old(self).max_attack,
            *final(self) == *old(self),
            final(other).health_points == old(other).health_points - r,
            final(other).health_points <= old(other).health_points,
            final(other).position == old(other).position,
            final(other).max_health_points == old(other).max_health_points,
            final(other).experience_points == old(other).experience_points,
            final(other).max_attack == old(other).max_attack,
            final(other).max_shield == old(other).max_shield,
            final(other).kind == old(other).kind,
    {
        let attack_roll = rand_range(0, self.max_attack + 1);
        let shield_roll = rand_range(0, other.max_shield);
        let damage_dealt = if attack_roll - shield_roll > 0 {
            attack_roll - shield_roll
        } else {
            0
        };
        other.health_points = other.health_points - damage_dealt;

        damage_dealt
    }

    /// Regenerates one health point, capped at the being's own maximum:
    /// health already at or above the maximum stays put, so health at most
    /// the maximum never climbs beyond it.
    pub fn bump_health(&mut self)
        ensures
            final(self).health_points == (if old(self).health_points < old(
                self,
            ).max_health_points {
                old(self).health_points + 1
            } else {
                old(self).health_points as int
            }),
            old(self).health_points <= old(self).max_health_points ==> final(self).health_points
                <= old(self).max_health_points,
            final(self).position == old(self).position,
            final(self).max_health_points == old(self).max_health_points,
            final(self).experience_points == old(self).experience_points,
            final(self).max_attack == old(self).max_attack,
            final(self).max_shield == old(self).max_shield,
            final(self).kind == old(self).kind,
    {
        if self.health_points < self.max_health_points {
            self.health_points = self.health_points + 1;
        }
    }
}

} // verus!
