use vstd::prelude::*;

verus! {

/// The player, or one of nine enemy archetypes, ordered weakest to
/// strongest in three tiers of three kinds each.
#[derive(Clone, Copy, Debug, PartialEq, Eq, Structural)]
pub enum BeingKind {
    Player,
    AnimatedStatue,
    Bat,
    Emu,
    Gnoll,
    Kestrel,
    LazyImp,
    StoneSatan,
    Troll,
    Zombie,
}

impl BeingKind {
    /// The human-readable name of the kind.
    pub open spec fn spec_name(self) -> Seq<char> {
        match self {
            BeingKind::Player => "Player"@,
            BeingKind::AnimatedStatue => "Animated Statue"@,
            BeingKind::Bat => "Bat"@,
            BeingKind::LazyImp => "Lazy Imp"@,
            BeingKind::Emu => "Emu"@,
            BeingKind::Gnoll => "Gnoll"@,
            BeingKind::Kestrel => "Kestrel"@,
            BeingKind::StoneSatan => "Stone Satan"@,
            BeingKind::Troll => "Troll"@,
            BeingKind::Zombie => "Zombie"@,
        }
    }

    pub fn name(self) -> (r: String)
        ensures
            r@ == self.spec_name(),
    {
        match self {
            BeingKind::Player => String::from_str("Player"),
            BeingKind::AnimatedStatue => String::from_str("Animated Statue"),
            BeingKind::Bat => String::from_str("Bat"),
            BeingKind::LazyImp => String::from_str("Lazy Imp"),
            BeingKind::Emu => String::from_str("Emu"),
            BeingKind::Gnoll => String::from_str("Gnoll"),
            BeingKind::Kestrel => String::from_str("Kestrel"),
            BeingKind::StoneSatan => String::from_str("Stone Satan"),
            BeingKind::Troll => String::from_str("Troll"),
            BeingKind::Zombie => String::from_str("Zombie"),
        }
    }

    /// True of the three stationary guard kinds: they strike an adjacent
    /// player but never move.
    pub open spec fn is_stationary(self) -> bool {
        ||| self == BeingKind::AnimatedStatue
        ||| self == BeingKind::LazyImp
        ||| self == BeingKind::StoneSatan
    }
}

/// The nine enemy kinds in sampling order: each tier of three is weighted
/// five, three and two within its tier.
pub open spec fn spec_enemies_kind(i: int) -> BeingKind {
    if i == 0 {
        BeingKind::Gnoll
    } else if i == 1 {
        BeingKind::Bat
    } else if i == 2 {
        BeingKind::AnimatedStatue
    } else if i == 3 {
        BeingKind::Kestrel
    } else if i == 4 {
        BeingKind::Emu
    } else if i == 5 {
        BeingKind::LazyImp
    } else if i == 6 {
        BeingKind::Troll
    } else if i == 7 {
        BeingKind::Zombie
    } else {
        BeingKind::StoneSatan
    }
}

/// The number of enemy kinds.
pub const ENEMY_KIND_COUNT: usize = 9;

pub fn enemies_kind(i: usize) -> (r: BeingKind)
    requires
        i < ENEMY_KIND_COUNT,
    ensures
        r == spec_enemies_kind(i as int),
        r != BeingKind::Player,
{
    match i {
        0 => BeingKind::Gnoll,
        1 => BeingKind::Bat,
        2 => BeingKind::AnimatedStatue,
        3 => BeingKind::Kestrel,
        4 => BeingKind::Emu,
        5 => BeingKind::LazyImp,
        6 => BeingKind::Troll,
        7 => BeingKind::Zombie,
        _ => BeingKind::StoneSatan,
    }
}

} // verus!
