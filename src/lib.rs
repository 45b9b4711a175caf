//! Rules engine for Fanorona: a bit-packed board, capture detection and the
//! turn / capture-chain state machine.
pub mod action;
pub mod base_board;
pub mod bitboard;
pub mod board;
pub mod board_notation;
pub mod capture_type;
pub mod direction;
pub mod error;
pub mod piece;
pub mod square;
pub mod state_notation;
pub mod text;
