use fanorona::base_board::{BaseBoard, IsCaptureReason};
use fanorona::bitboard::{BLACK_START, WHITE_START};
use fanorona::capture_type::CaptureType;
use fanorona::direction::Direction;
use fanorona::error::FanoronaError;
use fanorona::piece::Piece;
use fanorona::square::Square;

const START: &str = "WWWWWWWWW/WWWWWWWWW/BWBW1BWBW/BBBBBBBBB/BBBBBBBBB";

fn at(row: usize, col: usize) -> Square {
    Square::from_tuple((row, col)).unwrap()
}

fn sq(i: usize) -> Square {
    Square::new(i).unwrap()
}

#[test]
fn base_board_test_display() {
    assert_eq!(START, BaseBoard::new().to_string());
    assert_eq!("9/9/9/9/9", BaseBoard::empty().to_string());
}

#[test]
fn base_board_test_try_from() {
    assert_eq!(BaseBoard::empty(), BaseBoard::try_from("9/9/9/9/9").unwrap());
    let b = BaseBoard::try_from(START).unwrap();
    assert_eq!(b.pieces(Piece::Black).bits(), BLACK_START);
    assert_eq!(b.pieces(Piece::White).bits(), WHITE_START);
}

#[test]
fn base_board_test_new() {
    let b = BaseBoard::new();
    assert_eq!(b.pieces(Piece::Black).bits(), BLACK_START);
    assert_eq!(b.pieces(Piece::White).bits(), WHITE_START);
}

#[test]
fn test_piece_at() {
    assert_eq!(BaseBoard::new().piece_at(at(0, 0)), Some(Piece::White));
}

#[test]
fn test_remove_piece_at() {
    let mut board: BaseBoard = BaseBoard::new();
    assert!(board.remove_piece_at(sq(0)).is_some());
    assert!(board.piece_at(sq(0)).is_none());
}

#[test]
fn test_set_piece_at() {
    let mut board: BaseBoard = BaseBoard::new();
    board.set_piece_at(Piece::Black, sq(0));
    assert_eq!(board.piece_at(sq(0)).unwrap(), Piece::Black);
}

#[test]
fn test_make_paika() {
    let mut board: BaseBoard = BaseBoard::try_from("W8/9/9/9/9").unwrap();
    assert!(board.make_paika(sq(0), Direction::North).is_ok());
    assert_eq!(board.piece_at(at(1, 0)), Some(Piece::White));
    assert_eq!(board.piece_at(at(0, 0)), None);
}

#[test]
fn test_is_approach_capture() {
    assert!(BaseBoard::new().is_approach_capture(at(1, 4), Direction::North).is_ok());
}

#[test]
fn test_is_withdraw_capture() {
    assert!(BaseBoard::new().is_withdraw_capture(at(2, 3), Direction::East).is_ok());
}

#[test]
fn base_board_test_is_capture() {
    assert!(BaseBoard::new()
        .is_capture(at(1, 4), Direction::North, Some(CaptureType::Approach))
        .is_ok());
}

#[test]
fn test_capture_exists() {
    assert!(BaseBoard::new().capture_exists(Piece::White));
}

#[test]
fn test_make_capture() {
    let mut board: BaseBoard = BaseBoard::new();
    assert!(board
        .make_capture(at(1, 4), Direction::North, Some(CaptureType::Approach))
        .is_ok());
}

#[test]
fn make_capture_removes_the_run() {
    let mut board = BaseBoard::new();
    board.make_capture(sq(13), Direction::North, Some(CaptureType::Approach)).unwrap();
    assert_eq!(board.piece_at(sq(22)), Some(Piece::White));
    assert_eq!(board.piece_at(sq(13)), None);
    assert_eq!(board.piece_at(sq(31)), None);
    assert_eq!(board.piece_at(sq(40)), None);
    assert_eq!(board.pieces(Piece::Black).as_squares().len(), 20);
    assert_eq!(board.pieces(Piece::White).as_squares().len(), 22);
    // withdrawal from D3 eastwards takes C3 only (B3 is White)
    let mut board = BaseBoard::new();
    board.make_capture(sq(21), Direction::East, Some(CaptureType::Withdrawal)).unwrap();
    assert_eq!(board.piece_at(sq(20)), None);
    assert_eq!(board.piece_at(sq(19)), Some(Piece::White));
    assert_eq!(board.piece_at(sq(23)), Some(Piece::Black));
    // with no type given both runs go
    let mut board = BaseBoard::new();
    board.make_capture(sq(21), Direction::East, None).unwrap();
    assert_eq!(board.piece_at(sq(20)), None);
    assert_eq!(board.piece_at(sq(23)), None);
}

#[test]
fn capture_reasons() {
    let b = BaseBoard::new();
    assert_eq!(b.is_approach_capture(sq(22), Direction::North), Err(IsCaptureReason::FromEmpty));
    assert_eq!(
        b.is_approach_capture(sq(0), Direction::South),
        Err(IsCaptureReason::SquareOutOfBounds)
    );
    assert_eq!(
        b.is_approach_capture(sq(27), Direction::North),
        Err(IsCaptureReason::CaptureOutOfBounds)
    );
    assert_eq!(
        b.is_withdraw_capture(sq(0), Direction::North),
        Err(IsCaptureReason::CaptureOutOfBounds)
    );
    assert_eq!(
        b.is_approach_capture(sq(1), Direction::North),
        Err(IsCaptureReason::SelfPieceOnCaptureSquare)
    );
    let lone = BaseBoard::try_from("W8/9/9/9/9").unwrap();
    assert_eq!(
        lone.is_approach_capture(sq(0), Direction::North),
        Err(IsCaptureReason::CaptureEmpty)
    );
    assert_eq!(
        b.is_capture(sq(21), Direction::East, None),
        Err(IsCaptureReason::AmbiguousCapture)
    );
    assert_eq!(b.is_capture(sq(13), Direction::North, None), Ok(()));
}

#[test]
fn move_errors_leave_the_board() {
    let mut b = BaseBoard::new();
    assert_eq!(
        b.make_paika(sq(22), Direction::North),
        Err(FanoronaError::MoveError(IsCaptureReason::FromEmpty))
    );
    assert_eq!(
        b.make_paika(sq(0), Direction::South),
        Err(FanoronaError::MoveError(IsCaptureReason::SquareOutOfBounds))
    );
    assert_eq!(
        b.make_capture(sq(0), Direction::West, None),
        Err(FanoronaError::MoveError(IsCaptureReason::SquareOutOfBounds))
    );
    assert_eq!(b, BaseBoard::new());
}

#[test]
fn no_capture_into_an_occupied_square() {
    // G2 could withdraw from F2 only by moving onto H2, which is occupied
    let b = BaseBoard::try_from("9/5WBBB/B8/9/7B1").unwrap();
    assert!(b.is_withdraw_capture(sq(15), Direction::East).is_ok());
    assert!(!b.capture_exists(Piece::Black));
    assert!(!BaseBoard::empty().capture_exists(Piece::White));
}

#[test]
fn sides_stay_disjoint() {
    let mut b = BaseBoard::new();
    b.set_piece_at(Piece::Black, sq(0));
    assert_eq!(b.pieces(Piece::White).and(&b.pieces(Piece::Black)).bits(), 0);
    assert!(!b.pieces(Piece::White).contains(sq(0)));
    assert_eq!(b.remove_piece_at(sq(40)), Some(Piece::Black));
    assert_eq!(b.remove_piece_at(sq(40)), None);
}

#[test]
fn position_text() {
    for text in [START, "9/9/9/9/9", "W8/9/9/9/9", "9/5WBBB/B8/9/7B1", "W2WWW1W1/W1W1WW1W1/2W1W4/4W2W1/2WWW1W1W"] {
        let b = BaseBoard::try_from(text).unwrap();
        assert_eq!(b.to_string(), text);
        assert_eq!(BaseBoard::try_from(b.to_string().as_str()).unwrap(), b);
    }
    assert_eq!(BaseBoard::try_from("w8/9/9/9/45").unwrap().to_string(), "W8/9/9/9/9");
    assert!(BaseBoard::try_from("9/9/9/9").is_err());
    assert!(BaseBoard::try_from("9/9/9/9/9/9").is_err());
    assert!(BaseBoard::try_from("8/9/9/9/9").is_err());
    assert!(BaseBoard::try_from("99/9/9/9/9").is_err());
    assert!(BaseBoard::try_from("9/9/9/9/X8").is_err());
    assert!(BaseBoard::try_from("9/9/9/9/09").is_err());
}
