use vstd::prelude::*;

verus! {

/// Why a position string or a move was refused.
#[derive(Clone, Copy, Debug, PartialEq, Eq, Structural)]
pub enum ChessErrors {
    /// A position or move string that cannot be read.
    InvalidNotation,
    /// The piece to move belongs to the side that is not to move.
    WrongPlayer,
    /// There is no piece on the origin square.
    NoPiece,
    /// The destination holds a piece of the side to move.
    PlayerPieceAlreadyThere,
    /// A pawn cannot capture straight ahead.
    PawnCantAttackForward,
    /// A pawn moves diagonally only to capture.
    PawnCanOnlyAttackDiagonal,
    /// The piece cannot move that way.
    InvalidMove,
    /// A promotion outside the last rank, or to a piece kind that is not offered.
    InvalidPromotion,
    /// A piece stands between origin and destination.
    PieceBetween,
}

impl ChessErrors {
    /// A short description for people.
    pub fn message(&self) -> &'static str {
        match self {
            ChessErrors::InvalidNotation => "invalid chess notation",
            ChessErrors::WrongPlayer => "the piece belongs to the other player",
            ChessErrors::NoPiece => "there is no piece on that square",
            ChessErrors::PlayerPieceAlreadyThere => "you already have a piece on that square",
            ChessErrors::PawnCantAttackForward => "a pawn cannot capture straight ahead",
            ChessErrors::PawnCanOnlyAttackDiagonal => "a pawn moves diagonally only to capture",
            ChessErrors::InvalidMove => "the piece cannot move there",
            ChessErrors::InvalidPromotion => "invalid promotion",
            ChessErrors::PieceBetween => "a piece is in the way",
        }
    }
}

} // verus!
