use vstd::prelude::*;

verus! {

/// The two sides of a game.
#[derive(Clone, Copy, Debug, Hash, PartialEq, Eq, Structural)]
pub enum Player {
    White,
    Black,
}

impl Player {
    pub open spec fn opponent_spec(self) -> Player {
        match self {
            Player::White => Player::Black,
            Player::Black => Player::White,
        }
    }

    /// The side that moves after this one.
    #[verifier::when_used_as_spec(opponent_spec)]
    pub fn opponent(self) -> (r: Player)
        ensures
            r == self.opponent_spec(),
    {
        match self {
            Player::White => Player::Black,
            Player::Black => Player::White,
        }
    }
}

/// The kind of a piece, without its colour.
#[derive(Clone, Copy, Debug, PartialEq, Eq, Structural)]
pub enum PieceKind {
    Pawn,
    Knight,
    Bishop,
    Rook,
    Queen,
    King,
}

/// A piece kind that a pawn can be promoted to.
#[derive(Clone, Copy, Debug, PartialEq, Eq, Structural)]
pub enum Promotion {
    Queen,
    Rook,
    Knight,
    Bishop,
}

impl Promotion {
    pub open spec fn kind_spec(self) -> PieceKind {
        match self {
            Promotion::Queen => PieceKind::Queen,
            Promotion::Rook => PieceKind::Rook,
            Promotion::Knight => PieceKind::Knight,
            Promotion::Bishop => PieceKind::Bishop,
        }
    }

    #[verifier::when_used_as_spec(kind_spec)]
    pub fn kind(self) -> (r: PieceKind)
        ensures
            r == self.kind_spec(),
    {
        match self {
            Promotion::Queen => PieceKind::Queen,
            Promotion::Rook => PieceKind::Rook,
            Promotion::Knight => PieceKind::Knight,
            Promotion::Bishop => PieceKind::Bishop,
        }
    }
}

/// A piece: one colour and one kind.
#[derive(Clone, Copy, Debug, PartialEq, Eq, Structural)]
pub enum PieceType {
    WhitePawn,
    WhiteRook,
    WhiteKnight,
    WhiteBishop,
    WhiteQueen,
    WhiteKing,
    BlackPawn,
    BlackRook,
    BlackKnight,
    BlackBishop,
    BlackQueen,
    BlackKing,
}

impl PieceType {
    pub open spec fn player_spec(self) -> Player {
        match self {
            PieceType::WhitePawn | PieceType::WhiteRook | PieceType::WhiteKnight
            | PieceType::WhiteBishop | PieceType::WhiteQueen | PieceType::WhiteKing => Player::White,
            _ => Player::Black,
        }
    }

    pub open spec fn kind_spec(self) -> PieceKind {
        match self {
            PieceType::WhitePawn | PieceType::BlackPawn => PieceKind::Pawn,
            PieceType::WhiteRook | PieceType::BlackRook => PieceKind::Rook,
            PieceType::WhiteKnight | PieceType::BlackKnight => PieceKind::Knight,
            PieceType::WhiteBishop | PieceType::BlackBishop => PieceKind::Bishop,
            PieceType::WhiteQueen | PieceType::BlackQueen => PieceKind::Queen,
            PieceType::WhiteKing | PieceType::BlackKing => PieceKind::King,
        }
    }

    pub open spec fn of_spec(player: Player, kind: PieceKind) -> PieceType {
        match (player, kind) {
            (Player::White, PieceKind::Pawn) => PieceType::WhitePawn,
            (Player::White, PieceKind::Rook) => PieceType::WhiteRook,
            (Player::White, PieceKind::Knight) => PieceType::WhiteKnight,
            (Player::White, PieceKind::Bishop) => PieceType::WhiteBishop,
            (Player::White, PieceKind::Queen) => PieceType::WhiteQueen,
            (Player::White, PieceKind::King) => PieceType::WhiteKing,
            (Player::Black, PieceKind::Pawn) => PieceType::BlackPawn,
            (Player::Black, PieceKind::Rook) => PieceType::BlackRook,
            (Player::Black, PieceKind::Knight) => PieceType::BlackKnight,
            (Player::Black, PieceKind::Bishop) => PieceType::BlackBishop,
            (Player::Black, PieceKind::Queen) => PieceType::BlackQueen,
            (Player::Black, PieceKind::King) => PieceType::BlackKing,
        }
    }

    /// The side that owns a piece of this type.
    #[verifier::when_used_as_spec(player_spec)]
    pub fn player(self) -> (r: Player)
        ensures
            r == self.player_spec(),
    {
        match self {
            PieceType::WhitePawn | PieceType::WhiteRook | PieceType::WhiteKnight
            | PieceType::WhiteBishop | PieceType::WhiteQueen | PieceType::WhiteKing => Player::White,
            _ => Player::Black,
        }
    }

    /// The kind of a piece of this type.
    #[verifier::when_used_as_spec(kind_spec)]
    pub fn kind(self) -> (r: PieceKind)
        ensures
            r == self.kind_spec(),
    {
        match self {
            PieceType::WhitePawn | PieceType::BlackPawn => PieceKind::Pawn,
            PieceType::WhiteRook | PieceType::BlackRook => PieceKind::Rook,
            PieceType::WhiteKnight | PieceType::BlackKnight => PieceKind::Knight,
            PieceType::WhiteBishop | PieceType::BlackBishop => PieceKind::Bishop,
            PieceType::WhiteQueen | PieceType::BlackQueen => PieceKind::Queen,
            PieceType::WhiteKing | PieceType::BlackKing => PieceKind::King,
        }
    }

    /// The piece type of the given colour and kind.
    #[verifier::when_used_as_spec(of_spec)]
    pub fn of(player: Player, kind: PieceKind) -> (r: PieceType)
        ensures
            r == PieceType::of_spec(player, kind),
            r.player_spec() == player,
            r.kind_spec() == kind,
    {
        match (player, kind) {
            (Player::White, PieceKind::Pawn) => PieceType::WhitePawn,
            (Player::White, PieceKind::Rook) => PieceType::WhiteRook,
            (Player::White, PieceKind::Knight) => PieceType::WhiteKnight,
            (Player::White, PieceKind::Bishop) => PieceType::WhiteBishop,
            (Player::White, PieceKind::Queen) => PieceType::WhiteQueen,
            (Player::White, PieceKind::King) => PieceType::WhiteKing,
            (Player::Black, PieceKind::Pawn) => PieceType::BlackPawn,
            (Player::Black, PieceKind::Rook) => PieceType::BlackRook,
            (Player::Black, PieceKind::Knight) => PieceType::BlackKnight,
            (Player::Black, PieceKind::Bishop) => PieceType::BlackBishop,
            (Player::Black, PieceKind::Queen) => PieceType::BlackQueen,
            (Player::Black, PieceKind::King) => PieceType::BlackKing,
        }
    }
}

/// A piece standing on the board.
#[derive(Clone, Copy, Debug, PartialEq, Eq, Structural)]
pub struct Piece {
    pub piece_type: PieceType,
}

impl Piece {
    pub open spec fn player_spec(&self) -> Player {
        self.piece_type.player_spec()
    }

    pub open spec fn kind_spec(&self) -> PieceKind {
        self.piece_type.kind_spec()
    }

    /// The side that owns this piece.
    #[verifier::when_used_as_spec(player_spec)]
    pub fn get_player(&self) -> (r: Player)
        ensures
            r == self.player_spec(),
    {
        self.piece_type.player()
    }

    #[verifier::when_used_as_spec(kind_spec)]
    pub fn kind(&self) -> (r: PieceKind)
        ensures
            r == self.kind_spec(),
    {
        self.piece_type.kind()
    }
}

} // verus!
