//! Legal chess move generation on bitboards, with machine-checked contracts.

pub mod bitboard;
pub mod bits;
pub mod board;
pub mod fen;
pub mod geometry;
pub mod laws;
pub mod legal;
pub mod lists;
pub mod movegen;
pub mod moves;
pub mod piece;
pub mod position;
pub mod rays;
pub mod rules;
pub mod safety;
pub mod square;
pub mod state;
pub mod tables;
pub mod threats;

pub use bitboard::{BitBoard, SetIter};
pub use board::Board;
pub use movegen::{CastlingChecks, Generator, MoveList};
pub use moves::{Capture, Move, MoveExt};
pub use piece::{Color, Piece, PieceKind};
pub use position::{CastlingRights, Position};
pub use square::Square;
pub use state::{Attacks, BoardExt, Checkers, PositionState, PseudoScore};
