use dungeon_core::being::Being;
use dungeon_core::beingkind::BeingKind;
use dungeon_core::event::Event;
use dungeon_core::gamecontext::GameContext;
use dungeon_core::level::Level;
use dungeon_core::pickupitem::PickUpItem;
use dungeon_core::playeraction::PlayerAction;
use dungeon_core::point::Point;
use dungeon_core::room::Room;
use dungeon_core::tile::Tile;
use dungeon_core::tilearray::TileArray;
use dungeon_core::LEVEL_COUNT;

/// A bare context: one carved room with interior x in 5..=13 and
/// y in 5..=11, up-stairs at (5, 5), down-stairs at (13, 11), the player
/// standing at `player_at`, and no enemies.
fn test_context(player_at: Point) -> GameContext {
    let mut tiles = TileArray::<Tile>::new(Tile::Wall);
    tiles.carve_room(Room::new(4, 4, 10, 8));
    let up_stairs = Point::new(5, 5);
    let down_stairs = Point::new(13, 11);
    tiles.set_point(up_stairs, Tile::Stairs(-1));
    tiles.set_point(down_stairs, Tile::Stairs(1));
    let level = Level {
        tiles,
        last_seen: TileArray::new(0),
        enemies: vec![],
        up_stairs,
        down_stairs,
    };
    let mut player = Being::new_player();
    player.position = player_at;
    GameContext {
        level,
        current_level: 1,
        current_turn: 1,
        player,
        events: vec![],
    }
}

#[test]
fn waiting_changes_nothing_for_the_player() {
    let mut context = test_context(Point::new(8, 8));
    let before = context.player;

    context.next_turn(PlayerAction::MoveBy(Point::new(0, 0)));

    assert_eq!(context.current_turn, 2);
    assert_eq!(context.player.position, before.position);
    assert_eq!(context.player.health_points, before.health_points);
    assert_eq!(context.player.experience_points, before.experience_points);
}

#[test]
fn moving_into_an_enemy_attacks_instead() {
    let mut context = test_context(Point::new(8, 8));
    context.level.enemies.push(Being::new(
        Point::new(9, 8),
        1000,
        10,
        3,
        2,
        BeingKind::AnimatedStatue,
    ));

    context.next_turn(PlayerAction::MoveBy(Point::new(1, 0)));

    assert_eq!(context.player.position, Point::new(8, 8));
    assert!(matches!(context.events[0], Event::Attacked(_, d) if d >= 0));
    assert_eq!(context.level.enemies.len(), 1);
}

#[test]
fn moving_into_a_wall_is_a_no_op() {
    let mut context = test_context(Point::new(5, 6));

    context.next_turn(PlayerAction::MoveBy(Point::new(-1, 0)));

    assert_eq!(context.player.position, Point::new(5, 6));
    assert_eq!(context.current_turn, 2);
}

#[test]
fn moving_into_free_floor_moves_the_player() {
    let mut context = test_context(Point::new(8, 8));

    context.next_turn(PlayerAction::MoveBy(Point::new(1, 0)));

    assert_eq!(context.player.position, Point::new(9, 8));
}

#[test]
fn descending_from_the_last_floor_wins() {
    let mut context = test_context(Point::new(13, 11));
    context.current_level = LEVEL_COUNT;
    context.player.experience_points = 480;
    let enemies_before = context.level.enemies.len();

    context.next_turn(PlayerAction::Select);

    assert_eq!(context.events.len(), 1);
    assert!(matches!(context.events[0], Event::Won(480)));
    assert_eq!(context.current_level, LEVEL_COUNT + 1);
    assert_eq!(context.level.up_stairs, Point::new(5, 5));
    assert_eq!(context.level.down_stairs, Point::new(13, 11));
    assert_eq!(context.level.enemies.len(), enemies_before);
}

#[test]
fn descending_earlier_generates_a_fresh_floor() {
    let mut context = test_context(Point::new(13, 11));
    context.current_level = 3;

    context.next_turn(PlayerAction::Select);

    assert_eq!(context.current_level, 4);
    assert_eq!(context.player.position, context.level.up_stairs);
    assert!(context.events.is_empty());
    assert_eq!(
        context.level.tiles.at_point(context.level.up_stairs),
        Tile::Stairs(-1)
    );
}

#[test]
fn selecting_an_item_applies_and_clears_it() {
    let mut context = test_context(Point::new(8, 8));
    context.level.tiles.set_point(Point::new(8, 8), Tile::Item(PickUpItem::AttackBoost));
    let attack_before = context.player.max_attack;

    context.next_turn(PlayerAction::Select);

    assert_eq!(context.player.max_attack, attack_before + 1);
    assert_eq!(context.level.tiles.at_point(Point::new(8, 8)), Tile::Room);
}

#[test]
fn dying_emits_died_and_suppresses_the_prompt() {
    let mut context = test_context(Point::new(8, 8));
    context.level.tiles.set_point(Point::new(8, 8), Tile::Item(PickUpItem::ShieldBoost));
    context.player.health_points = 1;
    context.level.enemies.push(Being::new(
        Point::new(9, 8),
        1000,
        10,
        60,
        2,
        BeingKind::AnimatedStatue,
    ));

    let mut died = false;
    for _ in 0..10000 {
        context.next_turn(PlayerAction::MoveBy(Point::new(0, 0)));
        if context.player.health_points <= 0 {
            died = true;
            let last = context.events.last().expect("a final event");
            assert!(matches!(last, Event::Died(xp) if *xp == context.player.experience_points));
            assert!(!context
                .events
                .iter()
                .any(|e| matches!(e, Event::OnItem(_))));
            break;
        } else {
            assert!(context
                .events
                .iter()
                .any(|e| matches!(e, Event::OnItem(Some(PickUpItem::ShieldBoost)))));
        }
    }
    assert!(died);
}

#[test]
fn visible_pursuer_steps_toward_the_player() {
    let mut context = test_context(Point::new(6, 6));
    context.level.enemies.push(Being::new(
        Point::new(10, 6),
        50,
        10,
        4,
        2,
        BeingKind::Gnoll,
    ));

    context.next_turn(PlayerAction::MoveBy(Point::new(0, 0)));

    assert_eq!(context.level.enemies[0].position, Point::new(9, 6));
}

#[test]
fn distant_guard_never_moves() {
    let mut context = test_context(Point::new(6, 6));
    context.level.enemies.push(Being::new(
        Point::new(11, 9),
        50,
        10,
        4,
        2,
        BeingKind::StoneSatan,
    ));

    for _ in 0..20 {
        context.next_turn(PlayerAction::MoveBy(Point::new(0, 0)));
        assert_eq!(context.level.enemies[0].position, Point::new(11, 9));
    }
}

#[test]
fn distant_wanderer_takes_one_orthogonal_step() {
    let mut context = test_context(Point::new(6, 6));
    context.level.enemies.push(Being::new(
        Point::new(11, 9),
        50,
        10,
        2,
        3,
        BeingKind::Bat,
    ));

    let before = context.level.enemies[0].position;
    context.next_turn(PlayerAction::MoveBy(Point::new(0, 0)));
    let after = context.level.enemies[0].position;

    assert_ne!(after, before);
    assert!(after.is_neighboring(before));
    assert!(context.level.tiles.at_point(after).is_walkable());
}

#[test]
fn last_seen_stamps_never_decrease() {
    let mut context = GameContext::new();
    let moves = [
        Point::new(1, 0),
        Point::new(0, 1),
        Point::new(-1, 0),
        Point::new(0, -1),
    ];
    let mut previous = vec![0u32; (24 * 60) as usize];
    for turn in 0..40 {
        context.next_turn(PlayerAction::MoveBy(moves[turn % 4]));
        for y in 0..24 {
            for x in 0..60 {
                let stamp = context.level.last_seen.at(y, x);
                let slot = (y * 60 + x) as usize;
                assert!(stamp >= previous[slot]);
                previous[slot] = stamp;
            }
        }
    }
}

#[test]
fn field_of_view_stamps_player_and_skips_sealed_cells() {
    let mut context = test_context(Point::new(8, 8));

    context.next_turn(PlayerAction::MoveBy(Point::new(0, 0)));

    assert_eq!(context.level.last_seen.at_point(Point::new(8, 8)), 2);
    assert_eq!(context.level.last_seen.at(0, 59), 0);
    assert_eq!(context.level.last_seen.at(23, 0), 0);
}

#[test]
fn waiting_regenerates_on_every_tenth_turn() {
    let mut context = test_context(Point::new(8, 8));
    context.player.health_points = 10;

    for _ in 0..9 {
        context.next_turn(PlayerAction::MoveBy(Point::new(0, 0)));
    }

    assert_eq!(context.current_turn, 10);
    assert_eq!(context.player.health_points, 11);
}

#[test]
fn waiting_on_an_item_prompts_every_turn() {
    let mut context = test_context(Point::new(8, 8));
    context.level.tiles.set_point(Point::new(8, 8), Tile::Item(PickUpItem::AttackBoost));

    context.next_turn(PlayerAction::MoveBy(Point::new(0, 0)));

    assert_eq!(
        context.events.last(),
        Some(&Event::OnItem(Some(PickUpItem::AttackBoost)))
    );
}
