//! The rules of chess: legal moves of a position, playing a move, and the
//! position string that describes a position.
pub mod api;
pub mod chess_errors;
pub mod fen;
pub mod game;
pub mod geometry;
pub mod movegen;
pub mod notation;
pub mod pieces;
pub mod position;
pub mod rules;

pub use api::{game_move_piece, get_avaiable_actions, get_legal_moves, ActionIter, MoveMap, WebGame, FEN_INITIAL_STATE};
pub use chess_errors::ChessErrors;
pub use geometry::Direction;
pub use pieces::{Piece, PieceKind, PieceType, Player, Promotion};
pub use position::{Castling, Chess, ChessState, Move, MoveType};
