use dungeon_core::point::Point;
use dungeon_core::room::Room;
use dungeon_core::{LEVEL_HEIGHT, LEVEL_WIDTH};

#[test]
fn point_new() {
    let point = Point::new(2, 1);
    assert_eq!(point.x, 2);
    assert_eq!(point.y, 1);
}

#[test]
fn point_eq() {
    let point = Point::new(3, 2);

    assert_eq!(point, Point::new(3, 2));

    assert_ne!(point, Point::new(2, 3));
    assert_ne!(point, Point::new(1, 4));
}

#[test]
fn point_in_bounds() {
    assert!(Point::new(0, 0).in_bounds());
    assert!(Point::new(5, 6).in_bounds());
    assert!(Point::new(50, 10).in_bounds());
    assert!(Point::new(LEVEL_WIDTH - 1, LEVEL_HEIGHT - 1).in_bounds());

    assert!(!Point::new(10, 50).in_bounds());
    assert!(!Point::new(0, -5).in_bounds());
    assert!(!Point::new(-1, 0).in_bounds());
    assert!(!Point::new(-4, -5).in_bounds());
    assert!(!Point::new(90, 10).in_bounds());
    assert!(!Point::new(90, 50).in_bounds());
    assert!(!Point::new(LEVEL_WIDTH, 0).in_bounds());
    assert!(!Point::new(0, LEVEL_HEIGHT).in_bounds());
    assert!(!Point::new(LEVEL_WIDTH, LEVEL_HEIGHT).in_bounds());
}

#[test]
fn point_is_neighboring() {
    let point = Point::new(2, 1);

    assert!(point.is_neighboring(Point::new(2, 0)));
    assert!(point.is_neighboring(Point::new(2, 2)));
    assert!(point.is_neighboring(Point::new(1, 1)));
    assert!(point.is_neighboring(Point::new(3, 1)));

    assert!(!point.is_neighboring(Point::new(2, 3)));
    assert!(!point.is_neighboring(Point::new(0, 3)));
    assert!(!point.is_neighboring(Point::new(20, 13)));
}

#[test]
fn point_iter_neighbors() {
    let point = Point::new(1, 2);

    let neighbors = point.iter_neighbors();
    assert_eq!(neighbors.len(), 4);

    assert!(neighbors.contains(&Point::new(1, 3)));
    assert!(neighbors.contains(&Point::new(1, 1)));
    assert!(neighbors.contains(&Point::new(0, 2)));
    assert!(neighbors.contains(&Point::new(2, 2)));
}

#[test]
fn point_into_isize_isize() {
    let point = Point::new(4, 2);
    let point_isize_isize: (isize, isize) = point.into_pos();

    assert_eq!(point_isize_isize, (2, 4));
}

#[test]
fn point_add() {
    let point = Point::new(4, 1);

    assert_eq!(point + Point::new(0, 0), point);
    assert_eq!(point + Point::new(0, 1), Point::new(4, 2));
    assert_eq!(point + Point::new(0, -1), Point::new(4, 0));
    assert_eq!(point + Point::new(-1, 0), Point::new(3, 1));
    assert_eq!(point + Point::new(1, 0), Point::new(5, 1));
}

#[test]
fn room_new() {
    let room = Room::new(5, 4, 10, 5);

    assert_eq!(room.top_left.x, 5);
    assert_eq!(room.top_left.y, 4);
    assert_eq!(room.bottom_right.x, 15);
    assert_eq!(room.bottom_right.y, 9);
}

#[test]
fn room_overlaps() {
    let room = Room::new(50, 16, 6, 7);

    assert!(room.overlaps(room));
    assert!(room.overlaps(Room::new(51, 10, 5, 7)));
    assert!(room.overlaps(Room::new(45, 11, 6, 6)));

    assert!(!room.overlaps(Room::new(5, 18, 8, 5)));
    assert!(!room.overlaps(Room::new(51, 10, 5, 6)));
    assert!(!room.overlaps(Room::new(45, 11, 5, 5)));
    assert!(!room.overlaps(Room::new(45, 11, 5, 6)));
}

#[test]
fn room_generate() {
    for _ in 0..100 {
        let room = Room::generate();
        assert!(room.top_left.in_bounds());
        assert!(room.bottom_right.in_bounds());
    }
}

#[test]
fn room_generate_not_overlapping() {
    let room = Room::new(30, 10, 9, 5);
    for _ in 0..100 {
        assert!(!Room::generate_not_overlapping(room).overlaps(room));
    }
}

#[test]
fn room_generate_inner_point() {
    let room = Room::new(16, 9, 8, 7);
    for _ in 0..100 {
        let point = room.generate_inner_point();
        assert!(
            point.x > room.top_left.x
                && point.x < room.bottom_right.x
                && point.y > room.top_left.y
                && point.y < room.bottom_right.y
        );
    }
}
