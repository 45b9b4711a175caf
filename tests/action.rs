use fanorona::action::Move;
use fanorona::capture_type::CaptureType;
use fanorona::direction::Direction;
use fanorona::square::Square;

#[test]
fn action_test_display() {
    let action: Move = Move::Move {
        from: Square::new(0).unwrap(),
        direction: Direction::North,
        capture_type: None,
    };
    assert_eq!("A1N", action.to_string());

    let end_turn: Move = Move::EndTurn;
    assert_eq!("X", end_turn.to_string());
}

#[test]
fn action_test_try_from() {
    let move_str = "A1N";
    let action = Move::Move {
        from: Square::new(0).unwrap(),
        direction: Direction::North,
        capture_type: None,
    };
    assert_eq!(action, Move::try_from(move_str).unwrap())
}

#[test]
fn move_notation_cases() {
    assert_eq!(
        Move::try_from("d2nef").unwrap(),
        Move::Move {
            from: Square::new(12).unwrap(),
            direction: Direction::NorthEast,
            capture_type: Some(CaptureType::Approach),
        }
    );
    assert_eq!(
        Move::try_from("D3EB").unwrap(),
        Move::Move {
            from: Square::new(21).unwrap(),
            direction: Direction::East,
            capture_type: Some(CaptureType::Withdrawal),
        }
    );
    assert_eq!(Move::try_from("x").unwrap(), Move::EndTurn);
    assert!(Move::try_from("A1").is_err());
    assert!(Move::try_from("A1Q").is_err());
    assert!(Move::try_from("A1NFF").is_err());
    assert!(Move::try_from("K1N").is_err());
    assert!(Move::try_from("XX").is_err());
}

#[test]
fn move_round_trip_examples() {
    for text in ["E2N", "D2NEF", "F2NWF", "D3EB", "I5SW", "A1E", "X"] {
        let m = Move::try_from(text).unwrap();
        assert_eq!(m.to_string(), text);
        assert_eq!(Move::try_from(m.to_string().as_str()).unwrap(), m);
    }
}
