use dungeon_core::beingkind::BeingKind;
use dungeon_core::event::{i32_text, Event};
use dungeon_core::pickupitem::PickUpItem;
use dungeon_core::tile::Tile;
use dungeon_core::LEVEL_COUNT;

#[test]
fn i32_text_renders_decimals() {
    assert_eq!(i32_text(0), "0");
    assert_eq!(i32_text(7), "7");
    assert_eq!(i32_text(1234567), "1234567");
    assert_eq!(i32_text(-1), "-1");
    assert_eq!(i32_text(i32::MAX), "2147483647");
    assert_eq!(i32_text(i32::MIN), "-2147483648");
}

#[test]
fn event_message_killed() {
    let message = Event::Killed(BeingKind::Bat, 17).message(3);
    assert_eq!(message, "You killed Bat, gaining 17 XP.\n");
}

#[test]
fn event_message_attacked() {
    let message = Event::Attacked(BeingKind::StoneSatan, 4).message(20);
    assert_eq!(message, "You attacked Stone Satan, dealing 4 damage.\n");
}

#[test]
fn event_message_got_attacked() {
    let message = Event::GotAttacked(BeingKind::LazyImp, 0).message(9);
    assert_eq!(message, "You got attacked by Lazy Imp, taking 0 damage.\n");
}

#[test]
fn event_message_on_item() {
    let message = Event::OnItem(Some(PickUpItem::HealthBoost)).message(2);
    assert_eq!(message, "Press Enter to apply the Health Boost\n");
}

#[test]
fn event_message_on_stairs() {
    let message = Event::OnItem(None).message(4);
    assert_eq!(message, "Press Enter to descend to level 5. You can't go back.\n");

    let last = Event::OnItem(None).message(LEVEL_COUNT);
    assert_eq!(
        last,
        "Press enter to retrieve the Amulet of Yendor, thus winning the game\n"
    );
}

#[test]
fn event_message_died_and_won() {
    assert_eq!(
        Event::Died(120).message(7),
        "YOU LOST THIS GAME...\nYou died with 120 XP.\n"
    );
    assert_eq!(
        Event::Won(999).message(25),
        "YOU WON! THE AMULET OF YENDOR IS YOURS!\nYou won with 999 XP.\n"
    );
}

#[test]
fn tile_names() {
    assert_eq!(Tile::Room.get_name(), "Room");
    assert_eq!(Tile::Wall.get_name(), "Wall");
    assert_eq!(Tile::Door.get_name(), "Door");
    assert_eq!(Tile::Stairs(1).get_name(), "Stairs");
    assert_eq!(Tile::Stairs(-1).get_name(), "Stairs");
    assert_eq!(Tile::Item(PickUpItem::HealthBoost).get_name(), "Health boost");
    assert_eq!(Tile::Item(PickUpItem::AttackBoost).get_name(), "Attack boost");
    assert_eq!(Tile::Item(PickUpItem::ShieldBoost).get_name(), "Shield boost");
}

#[test]
fn tile_walkable_and_blocking() {
    assert!(!Tile::Wall.is_walkable());
    assert!(Tile::Room.is_walkable());
    assert!(Tile::Door.is_walkable());
    assert!(Tile::Stairs(1).is_walkable());
    assert!(Tile::Item(PickUpItem::ShieldBoost).is_walkable());

    assert!(Tile::Wall.is_blocking());
    assert!(Tile::Door.is_blocking());
    assert!(!Tile::Room.is_blocking());
    assert!(!Tile::Stairs(-1).is_blocking());
    assert!(!Tile::Item(PickUpItem::AttackBoost).is_blocking());
}
