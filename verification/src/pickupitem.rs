use vstd::prelude::*;

verus! {

/// A one-shot boost the player can pick up from the floor.
#[derive(Clone, Copy, Debug, PartialEq, Eq, Structural)]
pub enum PickUpItem {
    HealthBoost,
    AttackBoost,
    ShieldBoost,
}

impl PickUpItem {
    /// The human-readable name of the item.
    pub open spec fn spec_name(self) -> Seq<char> {
        match self {
            PickUpItem::HealthBoost => "Health Boost"@,
            PickUpItem::AttackBoost => "Attack Boost"@,
            PickUpItem::ShieldBoost => "Shield Boost"@,
        }
    }

    pub fn name(self) -> (r: String)
        ensures
            r@ == self.spec_name(),
    {
        match self {
            PickUpItem::HealthBoost => String::from_str("Health Boost"),
            PickUpItem::AttackBoost => String::from_str("Attack Boost"),
            PickUpItem::ShieldBoost => String::from_str("Shield Boost"),
        }
    }
}

} // verus!
