use syzygy::access::Access;
use syzygy::direction::Direction;
use syzygy::point::{Point, Rect};

#[test]
fn access_visits() {
    let mut access = Access::default();
    assert_eq!(access, Access::Unvisited);
    assert!(!access.is_visited());
    access.visit();
    assert_eq!(access, Access::Visited);
    access.visit();
    assert_eq!(access, Access::Visited);
    let mut replay = Access::BeginReplay;
    replay.visit();
    assert_eq!(replay, Access::Replaying);
    let mut solved = Access::Solved;
    solved.visit();
    assert_eq!(solved, Access::Solved);
    assert!(solved.is_solved());
    assert!(solved.has_been_solved());
    assert!(Access::Replaying.has_been_solved());
    assert!(!Access::Replaying.is_solved());
    assert!(!Access::Visited.has_been_solved());
}

#[test]
fn access_toml_round_trip() {
    let all = [
        Access::Unvisited,
        Access::Visited,
        Access::Solved,
        Access::BeginReplay,
        Access::Replaying,
    ];
    for &original in all.iter() {
        assert_eq!(Access::from_toml(Some(&original.to_toml())), original);
    }
    assert_eq!(Access::from_toml(None), Access::Unvisited);
    assert_eq!(Access::from_toml(Some(&toml::Value::Boolean(true))), Access::Unvisited);
    assert_eq!(Access::Solved.to_toml(), toml::Value::String("solved".to_string()));
    let mut table = toml::value::Table::new();
    table.insert("access".to_string(), toml::Value::String("replaying".to_string()));
    assert_eq!(Access::read_from(&table), Access::Replaying);
}

#[test]
fn direction_basics() {
    let all = [Direction::East, Direction::South, Direction::West, Direction::North];
    for &dir in all.iter() {
        assert_eq!(dir.opposite().opposite(), dir);
        assert_ne!(dir.opposite(), dir);
        let delta = dir.delta();
        let back = dir.opposite().delta();
        assert_eq!(delta.x() + back.x(), 0);
        assert_eq!(delta.y() + back.y(), 0);
        assert_eq!(delta.x().abs() + delta.y().abs(), 1);
        assert_eq!(Direction::from_toml(&dir.to_toml()), dir);
    }
    assert_eq!(Direction::East.delta(), Point::new(1, 0));
    assert_eq!(Direction::South.delta(), Point::new(0, 1));
    assert_eq!(Direction::West.opposite(), Direction::East);
    assert!(Direction::North.is_vertical());
    assert!(!Direction::West.is_vertical());
    assert_eq!(Direction::from_toml(&toml::Value::Integer(1)), Direction::East);
    assert_eq!(Direction::North.to_toml(), toml::Value::String("north".to_string()));
}

#[test]
fn point_steps_and_rect() {
    let p = Point::new(3, -2);
    assert_eq!(p.x(), 3);
    assert_eq!(p.y(), -2);
    assert_eq!(p.checked_step(Direction::East), Some(Point::new(4, -2)));
    assert_eq!(p.checked_step(Direction::North), Some(Point::new(3, -3)));
    assert_eq!(Point::new(i32::MAX, 0).checked_step(Direction::East), None);
    assert_eq!(Point::new(0, i32::MIN).checked_step(Direction::North), None);
    let rect = Rect::new(2, 1, 3, 2);
    assert_eq!(rect.width(), 3);
    assert_eq!(rect.height(), 2);
    assert!(rect.contains(Point::new(2, 1)));
    assert!(rect.contains(Point::new(4, 2)));
    assert!(!rect.contains(Point::new(5, 2)));
    assert!(!rect.contains(Point::new(4, 3)));
    assert!(!rect.contains(Point::new(1, 1)));
}
