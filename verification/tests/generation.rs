use dungeon_core::beingkind::BeingKind;
use dungeon_core::gamecontext::GameContext;
use dungeon_core::level::Level;
use dungeon_core::pickupitem::PickUpItem;
use dungeon_core::tile::Tile;
use dungeon_core::{LEVEL_HEIGHT, LEVEL_WIDTH};

#[test]
fn level_generate_exactly_one_stairs_pair() {
    for level in [1, 5, 12, 19, 25] {
        for _ in 0..4 {
            let generated = Level::generate(level);
            let mut ups: i32 = 0;
            let mut downs: i32 = 0;
            for y in 0..LEVEL_HEIGHT {
                for x in 0..LEVEL_WIDTH {
                    match generated.tiles.at(y, x) {
                        Tile::Stairs(-1) => ups += 1,
                        Tile::Stairs(1) => downs += 1,
                        _ => {}
                    }
                }
            }
            assert_eq!(ups, 1);
            assert_eq!(downs, 1);
            assert_eq!(
                generated.tiles.at_point(generated.up_stairs),
                Tile::Stairs(-1)
            );
            assert_eq!(
                generated.tiles.at_point(generated.down_stairs),
                Tile::Stairs(1)
            );
        }
    }
}

#[test]
fn level_generate_floor_is_connected() {
    for level in [1, 10, 25] {
        for _ in 0..4 {
            let generated = Level::generate(level);
            let start = generated.up_stairs;
            let mut seen = vec![false; (LEVEL_HEIGHT * LEVEL_WIDTH) as usize];
            let mut queue = vec![start];
            seen[(start.y * LEVEL_WIDTH + start.x) as usize] = true;
            while let Some(p) = queue.pop() {
                for q in p.iter_neighbors() {
                    if q.in_bounds()
                        && generated.tiles.at_point(q).is_walkable()
                        && !seen[(q.y * LEVEL_WIDTH + q.x) as usize]
                    {
                        seen[(q.y * LEVEL_WIDTH + q.x) as usize] = true;
                        queue.push(q);
                    }
                }
            }
            for y in 0..LEVEL_HEIGHT {
                for x in 0..LEVEL_WIDTH {
                    if generated.tiles.at(y, x).is_walkable() {
                        assert!(
                            seen[(y * LEVEL_WIDTH + x) as usize],
                            "unreached walkable cell"
                        );
                    }
                }
            }
        }
    }
}

#[test]
fn level_generate_first_floor_enemies() {
    let generated = Level::generate(1);
    assert!(generated.enemies.len() <= 6);
    for (i, enemy) in generated.enemies.iter().enumerate() {
        assert!(matches!(
            enemy.kind,
            BeingKind::Gnoll | BeingKind::Bat | BeingKind::AnimatedStatue
        ));
        assert_eq!(enemy.health_points, enemy.max_health_points);
        assert_eq!(generated.tiles.at_point(enemy.position), Tile::Room);
        for other in generated.enemies.iter().skip(i + 1) {
            assert_ne!(enemy.position, other.position);
        }
    }
}

#[test]
fn level_generate_last_floor_enemies_are_strongest_tier() {
    let generated = Level::generate(25);
    for enemy in generated.enemies.iter() {
        assert!(matches!(
            enemy.kind,
            BeingKind::Troll | BeingKind::Zombie | BeingKind::StoneSatan
        ));
    }
}

#[test]
fn game_context_new_is_fully_initialized() {
    let context = GameContext::new();
    assert_eq!(context.current_level, 1);
    assert_eq!(context.current_turn, 1);
    assert!(context.events.is_empty());
    assert_eq!(context.player.position, context.level.up_stairs);
    assert_eq!(context.player.health_points, 20);
    assert_eq!(context.player.max_health_points, 20);
    assert_eq!(context.player.experience_points, 0);
    assert_eq!(context.level.last_seen.at_point(context.player.position), 1);
}

#[test]
fn level_generate_at_most_one_item_of_each_kind() {
    for level in [1, 8, 25] {
        for _ in 0..6 {
            let generated = Level::generate(level);
            let mut health: i32 = 0;
            let mut attack: i32 = 0;
            let mut shield: i32 = 0;
            for y in 0..LEVEL_HEIGHT {
                for x in 0..LEVEL_WIDTH {
                    match generated.tiles.at(y, x) {
                        Tile::Item(PickUpItem::HealthBoost) => health += 1,
                        Tile::Item(PickUpItem::AttackBoost) => attack += 1,
                        Tile::Item(PickUpItem::ShieldBoost) => shield += 1,
                        _ => {}
                    }
                }
            }
            assert!(health <= 1);
            assert!(attack <= 1);
            assert!(shield <= 1);
        }
    }
}
