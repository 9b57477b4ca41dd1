use dungeon_core::being::Being;
use dungeon_core::beingkind::BeingKind;
use dungeon_core::point::Point;

#[test]
fn being_new_player() {
    if let BeingKind::Player = Being::new_player().kind {
    } else {
        panic!();
    }
}

#[test]
fn being_fight() {
    let mut player = Being::new_player();
    let mut enemy = Being::new_of_kind(BeingKind::Bat, Point::new(0, 1));

    let damage_dealt = player.fight(&mut enemy);

    assert_eq!(player.health_points, player.max_health_points);
    assert_eq!(enemy.health_points + damage_dealt, enemy.max_health_points);
}

#[test]
fn being_bump_health() {
    let mut enemy = Being::new_of_kind(BeingKind::Bat, Point::new(1, 1));

    enemy.bump_health();
    assert_eq!(enemy.health_points, enemy.max_health_points);

    enemy.health_points = 1;
    enemy.bump_health();
    assert_eq!(enemy.health_points, 2);
}

#[test]
fn being_fight_damage_never_negative() {
    for _ in 0..200 {
        let mut player = Being::new_player();
        let mut enemy = Being::new_of_kind(BeingKind::StoneSatan, Point::new(0, 1));
        let before = enemy.health_points;
        let damage_dealt = player.fight(&mut enemy);
        assert!(damage_dealt >= 0);
        assert!(enemy.health_points <= before);
    }
}

#[test]
fn being_bump_health_never_exceeds_max() {
    let mut enemy = Being::new_of_kind(BeingKind::Gnoll, Point::new(1, 1));
    for start in 0..=enemy.max_health_points {
        enemy.health_points = start;
        enemy.bump_health();
        assert!(enemy.health_points <= enemy.max_health_points);
    }
}

#[test]
fn being_new_of_kind_stat_table() {
    let gnoll = Being::new_of_kind(BeingKind::Gnoll, Point::new(3, 4));
    assert_eq!(gnoll.max_health_points, 9);
    assert_eq!(gnoll.health_points, 9);
    assert_eq!(gnoll.max_attack, 4);
    assert_eq!(gnoll.max_shield, 2);
    assert!(gnoll.experience_points >= 10 && gnoll.experience_points < 15);
    assert_eq!(gnoll.position, Point::new(3, 4));

    let satan = Being::new_of_kind(BeingKind::StoneSatan, Point::new(5, 5));
    assert_eq!(satan.max_health_points, 30);
    assert_eq!(satan.max_attack, 15);
    assert_eq!(satan.max_shield, 5);
    assert!(satan.experience_points >= 35 && satan.experience_points < 40);
}
