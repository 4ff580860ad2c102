//! Rule engine of a two-player chess-like board game: coordinates, pieces and
//! their movement rules, a sparse board, and the game that executes commands
//! as all-or-nothing transactions with check and end-of-game detection.

pub mod board;
pub mod game;
pub mod piece;
pub mod text;
pub mod vec2;

pub use board::ChessBoard;
pub use game::{Cmd, Game, MoveCmd, PromoteCmd, Stage};
pub use piece::{BasePiece, Bishop, Camp, King, Knight, MoveError, Pawn, Piece, Queen, Rook};
pub use vec2::Vec2;
