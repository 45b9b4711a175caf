use fanorona::bitboard::BitBoard;
use fanorona::direction::Direction;
use fanorona::square::Square;

#[test]
fn direction_test_display() {
    assert_eq!("N", Direction::North.to_string());
    assert_eq!("NE", Direction::NorthEast.to_string());
    assert_eq!("E", Direction::East.to_string());
    assert_eq!("SE", Direction::SouthEast.to_string());
    assert_eq!("S", Direction::South.to_string());
    assert_eq!("SW", Direction::SouthWest.to_string());
    assert_eq!("W", Direction::West.to_string());
    assert_eq!("NW", Direction::NorthWest.to_string());
}

#[test]
fn direction_test_try_from() {
    assert_eq!(Direction::North, Direction::try_from("N").unwrap());
    assert_eq!(Direction::SouthEast, Direction::try_from("sE").unwrap());
    assert_ne!(Direction::NorthWest, Direction::try_from("Sw").unwrap());
    assert!(Direction::try_from("Sww").is_err());
}

#[test]
fn test_into() {
    assert_eq!(0usize, Direction::North.clockwise_index());
    assert_eq!(1usize, Direction::NorthEast.clockwise_index());
    assert_eq!(2usize, Direction::East.clockwise_index());
    assert_eq!(3usize, Direction::SouthEast.clockwise_index());
    assert_eq!(4usize, Direction::South.clockwise_index());
    assert_eq!(5usize, Direction::SouthWest.clockwise_index());
    assert_eq!(6usize, Direction::West.clockwise_index());
    assert_eq!(7usize, Direction::NorthWest.clockwise_index());
}

#[test]
fn direction_test_index() {
    let a1 = Square::new(0).unwrap();
    let all = Direction::all();
    assert_eq!(BitBoard::ray(a1, all[0]), BitBoard::ray(a1, Direction::North));
    assert_eq!(BitBoard::ray(a1, all[1]), BitBoard::ray(a1, Direction::NorthEast));
    assert_eq!(BitBoard::ray(a1, all[2]), BitBoard::ray(a1, Direction::East));
    assert_eq!(BitBoard::ray(a1, all[3]), BitBoard::ray(a1, Direction::SouthEast));
    assert_eq!(BitBoard::ray(a1, all[4]), BitBoard::ray(a1, Direction::South));
    assert_eq!(BitBoard::ray(a1, all[5]), BitBoard::ray(a1, Direction::SouthWest));
    assert_eq!(BitBoard::ray(a1, all[6]), BitBoard::ray(a1, Direction::West));
    assert_eq!(BitBoard::ray(a1, all[7]), BitBoard::ray(a1, Direction::NorthWest));
}

#[test]
fn test_mirror() {
    assert_eq!(Direction::South, Direction::North.mirror());
    assert_eq!(Direction::SouthWest, Direction::NorthEast.mirror());
    assert_eq!(Direction::West, Direction::East.mirror());
    assert_eq!(Direction::NorthWest, Direction::SouthEast.mirror());
    assert_eq!(Direction::North, Direction::South.mirror());
    assert_eq!(Direction::NorthEast, Direction::SouthWest.mirror());
    assert_eq!(Direction::East, Direction::West.mirror());
    assert_eq!(Direction::SouthEast, Direction::NorthWest.mirror());
}

#[test]
fn mirror_twice_is_identity() {
    for d in Direction::all() {
        assert_eq!(d.mirror().mirror(), d);
        assert_eq!(d.mirror().to_increment(), -d.to_increment());
    }
}

#[test]
fn increments() {
    assert_eq!(Direction::North.to_increment(), 9);
    assert_eq!(Direction::NorthEast.to_increment(), 10);
    assert_eq!(Direction::East.to_increment(), 1);
    assert_eq!(Direction::SouthEast.to_increment(), -8);
    assert_eq!(Direction::South.to_increment(), -9);
    assert_eq!(Direction::SouthWest.to_increment(), -10);
    assert_eq!(Direction::West.to_increment(), -1);
    assert_eq!(Direction::NorthWest.to_increment(), 8);
}

#[test]
fn direction_round_trip_all() {
    for d in Direction::all() {
        assert_eq!(Direction::parse_dir(d.to_string().as_str()), Some(d));
    }
    assert_eq!(Direction::parse_dir("nw"), Some(Direction::NorthWest));
    assert_eq!(Direction::parse_dir(""), None);
    assert_eq!(Direction::parse_dir("X"), None);
}
