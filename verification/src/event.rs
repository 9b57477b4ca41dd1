use vstd::prelude::*;

use crate::beingkind::BeingKind;
use crate::pickupitem::PickUpItem;
use crate::LEVEL_COUNT;

verus! {

/// The digit character for a value below ten.
pub open spec fn digit_char(d: nat) -> char {
    if d == 0 {
        '0'
    } else if d == 1 {
        '1'
    } else if d == 2 {
        '2'
    } else if d == 3 {
        '3'
    } else if d == 4 {
        '4'
    } else if d == 5 {
        '5'
    } else if d == 6 {
        '6'
    } else if d == 7 {
        '7'
    } else if d == 8 {
        '8'
    } else {
        '9'
    }
}

/// The decimal digits of `n`, most significant first.
pub open spec fn spec_digits(n: nat) -> Seq<char>
    decreases n,
{
    if n < 10 {
        seq![digit_char(n)]
    } else {
        spec_digits(n / 10).push(digit_char(n % 10))
    }
}

/// The decimal rendering of `n`, with a leading minus sign when negative.
pub open spec fn spec_i32_text(n: int) -> Seq<char> {
    if n < 0 {
        seq!['-'] + spec_digits((-n) as nat)
    } else {
        spec_digits(n as nat)
    }
}

/// Relies on `String::push`: appends the given character to the end of the
/// string.
#[verifier::external_body]
fn push_char(s: &mut String, c: char)
    ensures
        final(s)@ == old(s)@.push(c),
{
    s.push(c);
}

fn digit_of(d: u64) -> (c: char)
    requires
        d < 10,
    ensures
        c == digit_char(d as nat),
{
    match d {
        0 => '0',
        1 => '1',
        2 => '2',
        3 => '3',
        4 => '4',
        5 => '5',
        6 => '6',
        7 => '7',
        8 => '8',
        _ => '9',
    }
}

fn push_digits(s: &mut String, m: u64)
    ensures
        final(s)@ == old(s)@ + spec_digits(m as nat),
    decreases m,
{
    if m < 10 {
        push_char(s, digit_of(m));
        proof {
            assert(final(s)@ =~= old(s)@ + spec_digits(m as nat));
        }
    } else {
        push_digits(s, m / 10);
        push_char(s, digit_of(m % 10));
        proof {
            assert(final(s)@ =~= old(s)@ + spec_digits(m as nat));
        }
    }
}

/// The decimal rendering of a signed number as a string.
pub fn i32_text(n: i32) -> (r: String)
    ensures
        r@ == spec_i32_text(n as int),
{
    let mut s = String::from_str("");
    proof {
        reveal_strlit("");
    }
    if n < 0 {
        push_char(&mut s, '-');
        let magnitude: u64 = (-(n as i64)) as u64;
        push_digits(&mut s, magnitude);
        proof {
            assert(s@ =~= spec_i32_text(n as int));
        }
    } else {
        push_digits(&mut s, n as u64);
        proof {
            assert(s@ =~= spec_i32_text(n as int));
        }
    }
    s
}

/// A typed outcome of one processed turn, rendered to text by consumers.
///
/// `OnItem(None)` means the player stands on the descent stairs;
/// `OnItem(Some(item))` that an item can be picked up here.
#[derive(Clone, Copy, Debug, PartialEq, Eq, Structural)]
pub enum Event {
    Killed(BeingKind, i32),
    Attacked(BeingKind, i32),
    GotAttacked(BeingKind, i32),
    OnItem(Option<PickUpItem>),
    Died(i32),
    Won(i32),
}

impl Event {
    /// The one-line text shown for this event when the player is on floor
    /// `level`.
    pub open spec fn spec_message(self, level: int) -> Seq<char> {
        match self {
            Event::Killed(kind, xp) => "You killed "@ + kind.spec_name() + ", gaining "@
                + spec_i32_text(xp as int) + " XP.\n"@,
            Event::Attacked(kind, damage) => "You attacked "@ + kind.spec_name() + ", dealing "@
                + spec_i32_text(damage as int) + " damage.\n"@,
            Event::GotAttacked(kind, damage) => "You got attacked by "@ + kind.spec_name()
                + ", taking "@ + spec_i32_text(damage as int) + " damage.\n"@,
            Event::OnItem(Some(item)) => "Press Enter to apply the "@ + item.spec_name() + "\n"@,
            Event::OnItem(None) => if level < LEVEL_COUNT {
                "Press Enter to descend to level "@ + spec_i32_text(level + 1)
                    + ". You can't go back.\n"@
            } else {
                "Press enter to retrieve the Amulet of Yendor, thus winning the game\n"@
            },
            Event::Died(xp) => "YOU LOST THIS GAME...\nYou died with "@ + spec_i32_text(xp as int)
                + " XP.\n"@,
            Event::Won(xp) => "YOU WON! THE AMULET OF YENDOR IS YOURS!\nYou won with "@
                + spec_i32_text(xp as int) + " XP.\n"@,
        }
    }

    pub fn message(self, level: i32) -> (r: String)
        requires
            level < i32::MAX,
        ensures
            r@ == self.spec_message(level as int),
    {
        match self {
            Event::Killed(kind, xp) => {
                let mut s = String::from_str("You killed ");
                s.append(kind.name().as_str());
                s.append(", gaining ");
                s.append(i32_text(xp).as_str());
                s.append(" XP.\n");
                proof {
                    assert(s@ =~= self.spec_message(level as int));
                }
                s
            },
            Event::Attacked(kind, damage) => {
                let mut s = String::from_str("You attacked ");
                s.append(kind.name().as_str());
                s.append(", dealing ");
                s.append(i32_text(damage).as_str());
                s.append(" damage.\n");
                proof {
                    assert(s@ =~= self.spec_message(level as int));
                }
                s
            },
            Event::GotAttacked(kind, damage) => {
                let mut s = String::from_str("You got attacked by ");
                s.append(kind.name().as_str());
                s.append(", taking ");
                s.append(i32_text(damage).as_str());
                s.append(" damage.\n");
                proof {
                    assert(s@ =~= self.spec_message(level as int));
                }
                s
            },
            Event::OnItem(Some(item)) => {
                let mut s = String::from_str("Press Enter to apply the ");
                s.append(item.name().as_str());
                s.append("\n");
                proof {
                    assert(s@ =~= self.spec_message(level as int));
                }
                s
            },
            Event::OnItem(None) => {
                if level < LEVEL_COUNT {
                    let mut s = String::from_str("Press Enter to descend to level ");
                    s.append(i32_text(level + 1).as_str());
                    s.append(". You can't go back.\n");
                    proof {
                        assert(s@ =~= self.spec_message(level as int));
                    }
                    s
                } else {
                    String::from_str(
                        "Press enter to retrieve the Amulet of Yendor, thus winning the game\n",
                    )
                }
            },
            Event::Died(xp) => {
                let mut s = String::from_str("YOU LOST THIS GAME...\nYou died with ");
                s.append(i32_text(xp).as_str());
                s.append(" XP.\n");
                proof {
                    assert(s@ =~= self.spec_message(level as int));
                }
                s
            },
            Event::Won(xp) => {
                let mut s = String::from_str("YOU WON! THE AMULET OF YENDOR IS YOURS!\nYou won with ");
                s.append(i32_text(xp).as_str());
                s.append(" XP.\n");
                proof {
                    assert(s@ =~= self.spec_message(level as int));
                }
                s
            },
        }
    }
}

} // verus!
