use vstd::prelude::*;

use crate::pickupitem::PickUpItem;

verus! {

/// One cell of a level grid.
///
/// `Stairs(d)` leads to the floor `current + d`: `-1` is the way up,
/// `1` the way down.
#[derive(Clone, Copy, Debug, PartialEq, Eq, Structural)]
pub enum Tile {
    Wall,
    Room,
    Stairs(i32),
    Door,
    Item(PickUpItem),
}

impl Tile {
    /// Only walls stop movement.
    pub open spec fn spec_is_walkable(self) -> bool {
        !(self matches Tile::Wall)
    }

    #[verifier::when_used_as_spec(spec_is_walkable)]
    pub fn is_walkable(self) -> (r: bool)
        ensures
            r == self.spec_is_walkable(),
    {
        match self {
            Tile::Wall => false,
            Tile::Room | Tile::Stairs(_) | Tile::Door | Tile::Item(_) => true,
        }
    }

    /// Walls and doors block sight.
    pub open spec fn spec_is_blocking(self) -> bool {
        self matches Tile::Wall || self matches Tile::Door
    }

    #[verifier::when_used_as_spec(spec_is_blocking)]
    pub fn is_blocking(self) -> (r: bool)
        ensures
            r == self.spec_is_blocking(),
    {
        match self {
            Tile::Wall | Tile::Door => true,
            Tile::Room | Tile::Stairs(_) | Tile::Item(_) => false,
        }
    }

    /// The human-readable name of the tile kind.
    pub open spec fn spec_get_name(self) -> Seq<char> {
        match self {
            Tile::Room => "Room"@,
            Tile::Item(PickUpItem::HealthBoost) => "Health boost"@,
            Tile::Item(PickUpItem::AttackBoost) => "Attack boost"@,
            Tile::Item(PickUpItem::ShieldBoost) => "Shield boost"@,
            Tile::Wall => "Wall"@,
            Tile::Door => "Door"@,
            Tile::Stairs(_) => "Stairs"@,
        }
    }

    pub fn get_name(self) -> (r: String)
        ensures
            r@ == self.spec_get_name(),
    {
        match self {
            Tile::Room => String::from_str("Room"),
            Tile::Item(PickUpItem::HealthBoost) => String::from_str("Health boost"),
            Tile::Item(PickUpItem::AttackBoost) => String::from_str("Attack boost"),
            Tile::Item(PickUpItem::ShieldBoost) => String::from_str("Shield boost"),
            Tile::Wall => String::from_str("Wall"),
            Tile::Door => String::from_str("Door"),
            Tile::Stairs(_) => String::from_str("Stairs"),
        }
    }
}

} // verus!
