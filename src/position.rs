//! The game state: board, side to move, castling rights, en-passant target and
//! the two move counters.
use vstd::prelude::*;
use crate::geometry::{row_of, col_of, abs};
use crate::pieces::{Piece, PieceType, Player, Promotion};

verus! {

/// Which castlings are still allowed.
#[derive(Clone, Copy, Debug, PartialEq, Eq, Structural)]
pub struct Castling {
    pub white_king_side: bool,
    pub white_queen_side: bool,
    pub black_king_side: bool,
    pub black_queen_side: bool,
}

/// The 64 squares, row-major from a8 to h1.
#[derive(Clone, Copy, Debug)]
pub struct ChessState {
    pub st: [Option<Piece>; 64],
}

/// A chess position.
#[derive(Clone, Copy, Debug)]
pub struct Chess {
    pub state: ChessState,
    pub player: Player,
    pub castling: Castling,
    pub halfmove_clock: u8,
    pub full_move_number: u16,
    pub en_passant_target: Option<usize>,
}

/// The mathematical value of a position.
pub struct ChessView {
    pub board: Seq<Option<Piece>>,
    pub player: Player,
    pub castling: Castling,
    pub halfmove_clock: u8,
    pub full_move_number: u16,
    pub en_passant_target: Option<usize>,
}

impl View for Chess {
    type V = ChessView;

    open spec fn view(&self) -> ChessView {
        ChessView {
            board: self.state.st@,
            player: self.player,
            castling: self.castling,
            halfmove_clock: self.halfmove_clock,
            full_move_number: self.full_move_number,
            en_passant_target: self.en_passant_target,
        }
    }
}

impl ChessView {
    /// Well-formed: 64 squares, and an en-passant target, if any, on a row
    /// that a two-square pawn advance passes over.
    pub open spec fn wf(self) -> bool {
        &&& self.board.len() == 64
        &&& self.en_passant_target matches Some(e) ==> e < 64 && (row_of(e as int) == 2 || row_of(
            e as int,
        ) == 5)
    }

    /// Square `s` holds a piece of `p`.
    pub open spec fn owned_by(self, s: int, p: Player) -> bool {
        self.board[s] matches Some(q) && q.player_spec() == p
    }
}

/// The row direction in which pawns of `p` advance.
pub open spec fn pawn_dir(p: Player) -> int {
    match p {
        Player::White => -1,
        Player::Black => 1,
    }
}

/// The row from which pawns of `p` start.
pub open spec fn pawn_start_row(p: Player) -> int {
    match p {
        Player::White => 6,
        Player::Black => 1,
    }
}

/// The row on which pawns of `p` promote.
pub open spec fn last_row(p: Player) -> int {
    match p {
        Player::White => 0,
        Player::Black => 7,
    }
}

/// A move from the rank before the last to the last rank, for `p`.
pub open spec fn promotion_ranks(p: Player, f: int, t: int) -> bool {
    row_of(f) == last_row(p) - pawn_dir(p) && row_of(t) == last_row(p)
}

/// What a move turns out to be once it has been validated.
#[derive(Clone, Copy, Debug, PartialEq, Eq, Structural)]
pub enum MoveType {
    /// An en-passant capture; the square of the captured pawn.
    Enpassant(usize),
    Castling,
    Regular,
    /// A pawn reaching the last rank; the piece it becomes.
    Promotion(PieceType),
}

/// A move: origin, destination and, for a pawn reaching the last rank, the
/// piece asked for.
#[derive(Clone, Copy, Debug, PartialEq, Eq, Structural)]
pub struct Move {
    pub from: usize,
    pub to: usize,
    pub promotion: Option<Promotion>,
}

/// The rook's origin and destination when the king castles onto `t`.
pub open spec fn castle_rook(t: int) -> (int, int) {
    if t == 62 {
        (63, 61)
    } else if t == 58 {
        (56, 59)
    } else if t == 6 {
        (7, 5)
    } else {
        (0, 3)
    }
}

pub open spec fn col_dist(f: int, t: int) -> int {
    abs(col_of(t) - col_of(f))
}

pub open spec fn row_delta(f: int, t: int) -> int {
    row_of(t) - row_of(f)
}

} // verus!
