use fanorona::action::Move;
use fanorona::base_board::IsCaptureReason;
use fanorona::bitboard::BitBoard;
use fanorona::board::{Board, IsLegalReason};
use fanorona::capture_type::CaptureType;
use fanorona::direction::Direction;
use fanorona::error::FanoronaError;
use fanorona::piece::Piece;
use fanorona::square::Square;
use rand::seq::SliceRandom;

const START: &str = "WWWWWWWWW/WWWWWWWWW/BWBW1BWBW/BBBBBBBBB/BBBBBBBBB";

fn step(from: &str, direction: Direction, capture_type: Option<CaptureType>) -> Move {
    Move::Move { from: Square::try_from(from).unwrap(), direction, capture_type }
}

#[test]
fn board_test_display() {
    let board = Board::new();
    let display = board.to_string();
    // an empty list of visited squares is written `-`
    assert_eq!(display, "WWWWWWWWW/WWWWWWWWW/BWBW1BWBW/BBBBBBBBB/BBBBBBBBB W - -");
}

#[test]
fn board_test_try_from() {
    let base_board_str = START;
    let turn_str = "W";
    let visited_str = "-";
    let last_capture_str = "-";

    let board_str = format!("{} {} {} {}", base_board_str, turn_str, visited_str, last_capture_str);
    let board = Board::try_from(board_str.as_str()).expect("Failed to parse board");

    assert_eq!(board.base_board().to_string(), base_board_str);
    assert_eq!(board.turn(), Piece::White);
    assert_eq!(board.visited(), BitBoard::empty());
    assert_eq!(board.last_capture(), None);
}

#[test]
fn board_test_new() {
    let board = Board::new();
    assert_eq!(board.base_board().to_string(), START);
    assert_eq!(board.turn(), Piece::White);
    assert_eq!(board.visited(), BitBoard::empty());
    assert_eq!(board.last_capture(), None);
}

#[test]
fn test_pass_turn() {
    let mut board = Board::new();
    assert_eq!(board.turn(), Piece::White);
    board.pass_turn();
    assert_eq!(board.turn(), Piece::Black);
}

#[test]
fn test_in_capture_seq() {
    let board = Board::new();
    assert_eq!(board.in_capture_seq(), false);
    let last = step("e2", Direction::North, None);
    let text = format!("{} W - {}", START, last.to_string());
    let board = Board::try_from(text.as_str()).expect("Failed to create move e2");
    assert_eq!(board.last_capture(), Some(last));
    assert_eq!(board.in_capture_seq(), true);
}

#[test]
fn test_push() {
    let mut board = Board::new();
    let move_ = Move::Move {
        from: Square::try_from("e2").expect("Failed to create move e2"),
        direction: Direction::North,
        capture_type: None,
    };
    assert!(board.push(move_).is_ok());
    assert_eq!(board.base_board().piece_at(Square::try_from("e3").unwrap()), Some(Piece::White));
}

#[test]
fn test_push_str() {
    let mut board = Board::new();
    let move_str = "E2N";
    assert!(board.push_str(move_str).is_ok());
    assert_eq!(board.base_board().piece_at(Square::try_from("e3").unwrap()), Some(Piece::White));
}

#[test]
fn board_test_is_capture() {
    let board = Board::new();
    let move_ = Move::Move {
        from: Square::try_from("e2").expect("Failed to create move e2"),
        direction: Direction::North,
        capture_type: Some(CaptureType::Approach),
    };
    assert!(board.is_capture(move_).is_ok());
}

#[test]
fn test_is_legal() {
    let board = Board::new();
    assert!(board
        .is_legal(Move::Move {
            from: Square::try_from("e2").expect("Failed to create move e2"),
            direction: Direction::North,
            capture_type: Some(CaptureType::Approach),
        })
        .is_ok());
}

#[test]
fn test_is_legal2() {
    let board = Board::try_from("9/5WBBB/B8/9/7B1 B - -").unwrap();
    let move_ = Move::Move {
        from: Square::try_from("A3N").unwrap(),
        direction: Direction::North,
        capture_type: Some(CaptureType::Approach),
    };
    assert!(board.is_legal(move_).is_ok());
}

#[test]
fn test_legal_moves() {
    let board = Board::new();
    let legal_moves = board.legal_moves();
    assert_eq!(legal_moves.len(), 5);
    assert!(legal_moves.contains(&Move::try_from("D2NEF").unwrap()));
    assert!(legal_moves.contains(&Move::try_from("D3EF").unwrap()));
    assert!(legal_moves.contains(&Move::try_from("D3EB").unwrap()));
    assert!(legal_moves.contains(&Move::try_from("E2NF").unwrap()));
    assert!(legal_moves.contains(&Move::try_from("F2NWF").unwrap()));
}

#[test]
fn test_legal_moves2() {
    let board = Board::try_from("9/5WBBB/B8/9/7B1 B - -").unwrap();
    let legal_moves = board.legal_moves();
    assert_ne!(legal_moves.len(), 0);
}

#[test]
fn test_endgame() {
    let board = Board::try_from("9/9/9/6W2/9 B - -").unwrap();
    let legal_moves = board.legal_moves();
    assert_eq!(legal_moves.len(), 0);
    assert_eq!(board.winner(), Some(Piece::White));
}

#[test]
fn test_endgame2() {
    let mut board = Board::try_from("W2WWW1W1/W1W1WW1W1/2W1W4/4W2W1/2WWW1W1W W - -").unwrap();
    board.push_str("H4SF").unwrap();
    let legal_moves = board.legal_moves();
    assert_eq!(legal_moves.len(), 0);
    assert_eq!(board.winner(), Some(Piece::White));
}

#[test]
fn test_stress() {
    let times = 20;
    // a random game need not end, so each one is cut off after a fixed number of moves
    let max_plies = 400;
    for _ in 1..times {
        let mut board = Board::new();
        for _ in 0..max_plies {
            let legal_moves = board.legal_moves();
            if legal_moves.is_empty() {
                break;
            }
            let move_ = legal_moves
                .choose(&mut rand::thread_rng())
                .expect("Failed to choose a legal move");
            let _ = board.push(*move_).expect("Failed to push move");
        }
    }
}

#[test]
fn legal_moves_in_listing_order() {
    let listed: Vec<String> = Board::new().legal_moves().iter().map(|m| m.to_string()).collect();
    assert_eq!(listed, vec!["D2NEF", "E2NF", "F2NWF", "D3EF", "D3EB"]);
}

#[test]
fn approach_capture_from_start() {
    let mut board = Board::new();
    let e2n = step("E2", Direction::North, None);
    assert!(board.is_legal(e2n).is_ok());
    assert!(board.is_capture(e2n).is_ok());
    board.push(e2n).unwrap();
    let pos = board.base_board();
    assert_eq!(pos.piece_at(Square::try_from("E3").unwrap()), Some(Piece::White));
    assert_eq!(pos.piece_at(Square::try_from("E2").unwrap()), None);
    assert_eq!(pos.piece_at(Square::try_from("E4").unwrap()), None);
    assert_eq!(pos.piece_at(Square::try_from("E5").unwrap()), None);
    assert_eq!(pos.pieces(Piece::White).as_squares().len(), 22);
    assert_eq!(pos.pieces(Piece::Black).as_squares().len(), 20);
    // the same side continues the capture sequence
    assert_eq!(board.turn(), Piece::White);
    assert_eq!(board.last_capture(), Some(e2n));
    assert_eq!(board.visited().to_squares_string(), "E2");
    assert!(board.in_capture_seq());
    assert_eq!(board.to_string(), "WWWWWWWWW/WWWW1WWWW/BWBWWBWBW/BBBB1BBBB/BBBB1BBBB W E2 E2N");
}

#[test]
fn end_turn_outside_a_sequence() {
    let board = Board::new();
    assert_eq!(board.is_legal(Move::EndTurn), Err(IsLegalReason::EndTurnWithoutCaptureSequence));
    assert_eq!(board.is_capture(Move::EndTurn), Err(IsCaptureReason::EndTurnMove));
}

#[test]
fn capture_sequence_rules() {
    let mut board = Board::new();
    board.push_str("E2N").unwrap();
    // back along the line just captured on
    assert_eq!(
        board.is_legal(step("E3", Direction::South, None)),
        Err(IsLegalReason::CannotCaptureSameDirection)
    );
    assert_eq!(
        board.is_legal(step("E3", Direction::North, None)),
        Err(IsLegalReason::CannotCaptureSameDirection)
    );
    assert_eq!(
        board.is_legal(step("D2", Direction::NorthEast, None)),
        Err(IsLegalReason::MovingToOccupiedSquare)
    );
    assert_eq!(
        board.is_legal(step("D2", Direction::East, None)),
        Err(IsLegalReason::MoveMustFollowLastCapture)
    );
    assert_eq!(
        board.is_legal(step("F4", Direction::South, None)),
        Err(IsLegalReason::OwnPieceNotMoved)
    );
    assert!(board.is_legal(Move::EndTurn).is_ok());
    let moves = board.legal_moves();
    assert_eq!(moves.last(), Some(&Move::EndTurn));
    board.push(Move::EndTurn).unwrap();
    assert_eq!(board.turn(), Piece::Black);
    assert_eq!(board.visited(), BitBoard::empty());
    assert_eq!(board.last_capture(), None);
}

#[test]
fn visited_square_is_refused() {
    // White on C3 has captured from B2 north-east; B2 is visited
    let mut board = Board::try_from("9/9/2W6/9/9 W B2 B2NEF").unwrap();
    assert_eq!(
        board.is_legal(step("C3", Direction::West, None)),
        Ok(())
    );
    board.push_str("C3W").unwrap();
    assert_eq!(board.turn(), Piece::Black);
    let board = Board::try_from("9/2W6/2W6/9/9 W B2,C2 B2NEF").unwrap();
    assert_eq!(
        board.is_legal(step("C3", Direction::South, None)),
        Err(IsLegalReason::MovingToOccupiedSquare)
    );
    let board = Board::try_from("9/9/2W6/9/9 W B2,C2 B2NEF").unwrap();
    assert_eq!(
        board.is_legal(step("C3", Direction::South, None)),
        Err(IsLegalReason::VisitingVisitedSquare)
    );
}

#[test]
fn idle_rules() {
    let board = Board::new();
    assert_eq!(
        board.is_legal(step("A1", Direction::South, None)),
        Err(IsLegalReason::PieceMovingOutOfBounds)
    );
    assert_eq!(
        board.is_legal(step("D3", Direction::East, None)),
        Err(IsLegalReason::AmbiguousCapture)
    );
    let board = Board::try_from("9/9/9/9/W7B W - -").unwrap();
    assert!(board.is_legal(step("A5", Direction::East, None)).is_ok());
    let board = Board::try_from("9/9/9/B8/W1B6 W - -").unwrap();
    // A5 can approach C5 by moving east; moving south is a paika
    assert_eq!(
        board.is_legal(step("A5", Direction::SouthEast, None)),
        Err(IsLegalReason::PaikaWhenCaptureExists)
    );
}

#[test]
fn end_turn_checks_the_last_capture() {
    let board = Board::try_from("9/9/4B4/9/9 W E2 E2N").unwrap();
    assert_eq!(board.is_legal(Move::EndTurn), Err(IsLegalReason::LastCaptureNotByCurrentPlayer));
    let board = Board::try_from("9/9/9/9/9 W A1 A1S").unwrap();
    assert_eq!(board.is_legal(Move::EndTurn), Err(IsLegalReason::LastCaptureOutOfBounds));
}

#[test]
fn push_errors_keep_the_state() {
    let mut board = Board::new();
    assert_eq!(
        board.push(step("E3", Direction::North, None)),
        Err(FanoronaError::MoveError(IsCaptureReason::FromEmpty))
    );
    assert_eq!(board.push_str("nonsense"), Err(FanoronaError::TryFromStrError));
    assert_eq!(board.to_string(), Board::new().to_string());
}

#[test]
fn state_text() {
    for text in [
        "WWWWWWWWW/WWWWWWWWW/BWBW1BWBW/BBBBBBBBB/BBBBBBBBB W - -",
        "9/9/2W6/9/9 W B2 B2NEF",
        "9/9/9/6W2/9 B - -",
        "W8/9/9/9/9 B A1,I5 A1N",
    ] {
        let b = Board::try_from(text).unwrap();
        assert_eq!(b.to_string(), text);
    }
    assert_eq!(Board::try_from("9/9/9/9/9 W -"), Err(FanoronaError::ParseError));
    assert_eq!(Board::try_from("9/9/9/9/9 W - - -"), Err(FanoronaError::ParseError));
    assert_eq!(Board::try_from("9/9/9/9/9 Q - -"), Err(FanoronaError::TryFromStrError));
    assert_eq!(Board::try_from("9/9/9/9/9 W Z9 -"), Err(FanoronaError::TryFromStrError));
    assert_eq!(Board::try_from("9/9/9/9 W - -"), Err(FanoronaError::TryFromStrError));
    // the end of a turn is not a capture
    assert_eq!(Board::try_from("W8/9/9/9/9 W A1 X"), Err(FanoronaError::TryFromStrError));
}

#[test]
fn no_winner_at_start() {
    assert_eq!(Board::new().winner(), None);
}

#[test]
fn push_end_turn_outside_a_sequence() {
    let mut board = Board::new();
    assert_eq!(
        board.push(Move::EndTurn),
        Err(FanoronaError::IllegalMove(IsLegalReason::EndTurnWithoutCaptureSequence))
    );
    assert_eq!(board, Board::new());
    assert_eq!(board.turn(), Piece::White);
}

#[test]
fn same_direction_onto_a_visited_square() {
    // C3 captured from B2 going north-east; D4 further north-east was visited
    let board = Board::try_from("9/9/2W6/9/9 W B2,D4 B2NEF").unwrap();
    assert_eq!(
        board.is_legal(step("C3", Direction::NorthEast, None)),
        Err(IsLegalReason::VisitingVisitedSquare)
    );
    assert_eq!(
        board.is_legal(step("C3", Direction::SouthWest, None)),
        Err(IsLegalReason::CannotCaptureSameDirection)
    );
    let board = Board::try_from("9/9/2W6/9/9 W B2 B2NEF").unwrap();
    assert_eq!(
        board.is_legal(step("C3", Direction::NorthEast, None)),
        Err(IsLegalReason::CannotCaptureSameDirection)
    );
}
