use fanorona::direction::Direction;
use fanorona::square::{Square, SquareIterator};

#[test]
fn square_test_display() {
    assert_eq!("A1", Square::new(0).unwrap().to_string());
    assert_eq!("I5", Square::new(44).unwrap().to_string());
}

#[test]
fn test_from_usize() {
    assert_eq!(0, Square::new(0usize).unwrap().index());
    assert_eq!(33, Square::new(33usize).unwrap().index());
    // a square index must name one of the 45 squares
    assert!(Square::new(500usize).is_err());
}

#[test]
fn test_from_tuple() {
    assert_eq!(Square::new(0).unwrap(), Square::from_tuple((0, 0)).unwrap());
    assert_eq!(Square::new(33).unwrap(), Square::from_tuple((3, 6)).unwrap());
    // row 55 is off the board
    assert!(Square::from_tuple((55, 5)).is_err());
}

#[test]
fn test_into_tuple() {
    assert_eq!((0, 0), Square::new(0).unwrap().as_tuple());
    assert_eq!((3, 6), Square::new(33).unwrap().as_tuple());
    // index 500 names no square, so it has no (row, col)
    assert!(Square::new(500).is_err());
}

#[test]
fn square_test_try_from() {
    assert_eq!(Square::new(0).unwrap(), Square::try_from("A1").unwrap());
    assert!(Square::try_from("X1").is_err());
}

#[test]
fn square_test_new() {
    assert!(Square::new(0usize).is_ok());
    assert!(Square::new(33usize).is_ok());
    assert!(Square::new(500usize).is_err());
}

#[test]
fn test_translate() {
    assert_eq!(
        Square::new(1).unwrap(),
        Square::new(0).unwrap().translate(Direction::East).unwrap()
    );
}

#[test]
fn test_iterator() {
    for curr_sq in Square::all() {
        println!("{}", curr_sq.index());
        assert!(curr_sq.index() < 45);
    }
}

#[test]
fn test_square_itr() {
    let mut it = SquareIterator::new(Square::new(0).unwrap(), Direction::North);
    while let Some(square) = it.next() {
        assert_eq!(square.index() % 9, 0); // square goes as 0, 9, 18, 27, 36
    }
}

#[test]
fn square_notation_cases() {
    assert_eq!(Square::try_from("e2").unwrap().index(), 13);
    assert_eq!(Square::try_from("I5").unwrap().index(), 44);
    assert!(Square::try_from("A6").is_err());
    assert!(Square::try_from("J1").is_err());
    assert!(Square::try_from("A").is_err());
    assert!(Square::from_str("C0").is_none());
    // only the first two characters are read
    assert_eq!(Square::try_from("A3N").unwrap().index(), 18);
}

#[test]
fn square_round_trip_all() {
    for sq in Square::all() {
        assert_eq!(Square::try_from(sq.to_string().as_str()).unwrap(), sq);
    }
}

#[test]
fn translate_stays_on_board() {
    let i1 = Square::new(8).unwrap();
    assert!(i1.translate(Direction::East).is_none());
    assert!(i1.translate(Direction::South).is_none());
    assert_eq!(i1.translate(Direction::NorthWest).unwrap().index(), 16);
    let a5 = Square::new(36).unwrap();
    assert!(a5.translate(Direction::North).is_none());
    assert!(a5.translate(Direction::West).is_none());
    assert_eq!(a5.translate(Direction::SouthEast).unwrap().index(), 28);
}
