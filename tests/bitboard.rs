use fanorona::bitboard::{BitBoard, BLACK_START, WHITE_START};
use fanorona::direction::Direction;
use fanorona::square::Square;

fn sq(i: usize) -> Square {
    Square::new(i).unwrap()
}

#[test]
fn bitboard_test_display() {
    println!("Black:\n{}", BitBoard::from_bits(BLACK_START).to_string());
    println!("White:\n{}", BitBoard::from_bits(WHITE_START).to_string());
}

#[test]
fn test_get_capture_mask() {
    assert_eq!(
        BitBoard::get_capture_mask(BitBoard::empty(), sq(0), Direction::NorthEast),
        BitBoard::empty()
    );
}

#[test]
fn test_ray() {
    assert_eq!(BitBoard::ray(sq(12), Direction::NorthEast).bits(), 0x40100400000);
    assert_eq!(BitBoard::ray(sq(44), Direction::NorthEast).bits(), 0x0);
}

#[test]
fn test_as_squares() {
    assert_eq!(BitBoard::empty().as_squares(), vec![]);
    assert_eq!(BitBoard::pos(sq(0)).as_squares(), vec![sq(0)]);
    assert_eq!(BitBoard::pos(sq(44)).as_squares(), vec![sq(44)]);
}

#[test]
fn bitboard_test_try_from() {
    assert_eq!(
        BitBoard::try_from("A1,B2,C3").unwrap(),
        BitBoard::pos(sq(0)).or(&BitBoard::pos(sq(10))).or(&BitBoard::pos(sq(20)))
    );
    assert!(BitBoard::try_from("X1").is_err());
}

#[test]
fn capture_mask_stops_at_gap() {
    // opponent on E4 and E5, beyond E3 going north
    let opp = BitBoard::pos(sq(31)).or(&BitBoard::pos(sq(40)));
    assert_eq!(BitBoard::get_capture_mask(opp, sq(22), Direction::North), opp);
    // opponent on E3 and E5 seen from E2: the run stops at the gap on E4
    let gap = BitBoard::pos(sq(22)).or(&BitBoard::pos(sq(40)));
    assert_eq!(
        BitBoard::get_capture_mask(gap, sq(13), Direction::North),
        BitBoard::pos(sq(22))
    );
    // nothing adjacent: nothing captured
    assert_eq!(
        BitBoard::get_capture_mask(BitBoard::pos(sq(40)), sq(13), Direction::North),
        BitBoard::empty()
    );
    // a full row to the edge
    let row = BitBoard::from_bits(0x1fe);
    assert_eq!(BitBoard::get_capture_mask(row, sq(0), Direction::East), row);
}

#[test]
fn rays_follow_the_board() {
    assert_eq!(BitBoard::ray(sq(0), Direction::North).bits(), 0x1008040200);
    assert_eq!(BitBoard::ray(sq(0), Direction::East).bits(), 0x1fe);
    assert_eq!(BitBoard::ray(sq(4), Direction::NorthWest).bits(), 0x1010101000);
    assert_eq!(BitBoard::ray(sq(8), Direction::East).bits(), 0);
    assert_eq!(BitBoard::ray(sq(40), Direction::South).bits(), 0x80402010);
}

#[test]
fn set_operations() {
    let a = BitBoard::from_bits(0b1011);
    let b = BitBoard::from_bits(0b0110);
    assert_eq!(a.and(&b).bits(), 0b0010);
    assert_eq!(a.or(&b).bits(), 0b1111);
    assert_eq!(a.and_not(&b).bits(), 0b1001);
    assert!(BitBoard::empty().is_empty());
    assert!(!a.is_empty());
    assert!(a.contains(sq(3)));
    assert!(!a.contains(sq(2)));
    // bits above the board are dropped
    assert_eq!(BitBoard::from_bits(u64::MAX).bits(), 0x1fff_ffff_ffff);
}

#[test]
fn squares_text() {
    assert_eq!(BitBoard::empty().to_squares_string(), "-");
    let v = BitBoard::try_from("C3,A1,B2").unwrap();
    assert_eq!(v.to_squares_string(), "A1,B2,C3");
    assert_eq!(v.as_squares(), vec![sq(0), sq(10), sq(20)]);
}

#[test]
fn grid_text() {
    assert_eq!(
        BitBoard::from_bits(WHITE_START).to_string(),
        "000000000\n000000000\n010100101\n111111111\n111111111"
    );
    assert_eq!(
        BitBoard::from_bits(BLACK_START).to_string(),
        "111111111\n111111111\n101001010\n000000000\n000000000"
    );
}
