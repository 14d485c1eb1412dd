//! The legality filter: which single moves the rules allow, and what kind of
//! move each one is.
use vstd::prelude::*;
use crate::chess_errors::ChessErrors;
use crate::geometry::{
    abs, Direction, on_ray, ray_steps, direction_between, delta_col, delta_row, knight_jump, row_of,
    col_of, square_at, get_bounds, opt_int, neighbor, lemma_ray_step, steps_taken,
    lemma_direction_between, direction_of, is_knight_jump,
};
use crate::pieces::{Piece, PieceKind, PieceType, Player, Promotion};
use crate::position::{
    ChessView, Chess, MoveType, pawn_dir, pawn_start_row, last_row, promotion_ranks,
    col_dist, row_delta,
};

verus! {

/// The piece that a pawn of `p` becomes; a queen when none was asked for.
pub open spec fn promotion_piece(p: Player, promo: Option<Promotion>) -> PieceType {
    PieceType::of_spec(
        p,
        match promo {
            Some(k) => k.kind_spec(),
            None => PieceKind::Queen,
        },
    )
}

/// No piece stands strictly between `f` and `t` on the ray in direction `d`.
pub open spec fn path_clear(b: Seq<Option<Piece>>, f: int, t: int, d: Direction) -> bool {
    forall|s: int| #[trigger]
        on_ray(f, s, d) && ray_steps(f, s, d) < ray_steps(f, t, d) ==> b[s] is None
}

/// The king of the side to move may castle from `f` to `t`: the right is
/// kept, the rook stands on its corner and the squares between are empty.
pub open spec fn castling_allowed(c: ChessView, f: int, t: int) -> bool {
    match c.player {
        Player::White => f == 60 && ((t == 62 && c.castling.white_king_side && c.board[63]
            == Some(Piece { piece_type: PieceType::WhiteRook }) && c.board[61] is None
            && c.board[62] is None) || (t == 58 && c.castling.white_queen_side && c.board[56]
            == Some(Piece { piece_type: PieceType::WhiteRook }) && c.board[57] is None
            && c.board[58] is None && c.board[59] is None)),
        Player::Black => f == 4 && ((t == 6 && c.castling.black_king_side && c.board[7] == Some(
            Piece { piece_type: PieceType::BlackRook },
        ) && c.board[5] is None && c.board[6] is None) || (t == 2 && c.castling.black_queen_side
            && c.board[0] == Some(Piece { piece_type: PieceType::BlackRook }) && c.board[1] is None
            && c.board[2] is None && c.board[3] is None)),
    }
}

/// A piece that moves like a rook, queen or king asks for no promotion.
pub open spec fn plain_move(promo: Option<Promotion>) -> Result<MoveType, ChessErrors> {
    if promo is Some {
        Err(ChessErrors::InvalidPromotion)
    } else {
        Ok(MoveType::Regular)
    }
}

/// A pawn moving straight ahead.
pub open spec fn pawn_vertical_rule(
    c: ChessView,
    p: Piece,
    f: int,
    t: int,
    promo: Option<Promotion>,
) -> Result<MoveType, ChessErrors> {
    let pl = p.player_spec();
    let dr = row_delta(f, t);
    if !(dr == pawn_dir(pl) || (dr == 2 * pawn_dir(pl) && row_of(f) == pawn_start_row(pl))) {
        Err(ChessErrors::InvalidMove)
    } else if c.board[t] is Some {
        Err(ChessErrors::PawnCantAttackForward)
    } else if row_of(t) == last_row(pl) {
        Ok(MoveType::Promotion(promotion_piece(pl, promo)))
    } else {
        Ok(MoveType::Regular)
    }
}

/// A pawn moving diagonally.
pub open spec fn pawn_diagonal_rule(
    c: ChessView,
    p: Piece,
    f: int,
    t: int,
    promo: Option<Promotion>,
) -> Result<MoveType, ChessErrors> {
    let pl = p.player_spec();
    if !(row_delta(f, t) == pawn_dir(pl) && col_dist(f, t) == 1) {
        Err(ChessErrors::InvalidMove)
    } else if c.board[t] is Some {
        if row_of(t) == last_row(pl) {
            Ok(MoveType::Promotion(promotion_piece(pl, promo)))
        } else {
            Ok(MoveType::Regular)
        }
    } else if c.en_passant_target == Some(t as usize) {
        Ok(MoveType::Enpassant(square_at(row_of(f), col_of(t)) as usize))
    } else {
        Err(ChessErrors::PawnCanOnlyAttackDiagonal)
    }
}

/// A move along a file.
pub open spec fn vertical_rule(c: ChessView, p: Piece, f: int, t: int, promo: Option<Promotion>) -> Result<
    MoveType,
    ChessErrors,
> {
    match p.kind_spec() {
        PieceKind::Bishop | PieceKind::Knight => Err(ChessErrors::InvalidMove),
        PieceKind::Rook | PieceKind::Queen => plain_move(promo),
        PieceKind::King => if abs(row_delta(f, t)) != 1 {
            Err(ChessErrors::InvalidMove)
        } else {
            plain_move(promo)
        },
        PieceKind::Pawn => pawn_vertical_rule(c, p, f, t, promo),
    }
}

/// A move along a rank.
pub open spec fn horizontal_rule(c: ChessView, p: Piece, f: int, t: int, promo: Option<Promotion>) -> Result<
    MoveType,
    ChessErrors,
> {
    match p.kind_spec() {
        PieceKind::Pawn | PieceKind::Bishop | PieceKind::Knight => Err(ChessErrors::InvalidMove),
        PieceKind::Rook | PieceKind::Queen => plain_move(promo),
        PieceKind::King => if col_dist(f, t) == 1 {
            plain_move(promo)
        } else if col_dist(f, t) == 2 {
            if promo is Some {
                Err(ChessErrors::InvalidPromotion)
            } else if castling_allowed(c, f, t) {
                Ok(MoveType::Castling)
            } else {
                Err(ChessErrors::InvalidMove)
            }
        } else {
            Err(ChessErrors::InvalidMove)
        },
    }
}

/// A move along a diagonal.
pub open spec fn diagonal_rule(c: ChessView, p: Piece, f: int, t: int, promo: Option<Promotion>) -> Result<
    MoveType,
    ChessErrors,
> {
    match p.kind_spec() {
        PieceKind::Knight | PieceKind::Rook => Err(ChessErrors::InvalidMove),
        PieceKind::Bishop | PieceKind::Queen => plain_move(promo),
        PieceKind::King => if col_dist(f, t) != 1 {
            Err(ChessErrors::InvalidMove)
        } else {
            plain_move(promo)
        },
        PieceKind::Pawn => pawn_diagonal_rule(c, p, f, t, promo),
    }
}

/// A knight-shaped move.
pub open spec fn knight_rule(p: Piece, promo: Option<Promotion>) -> Result<MoveType, ChessErrors> {
    match p.kind_spec() {
        PieceKind::Knight => plain_move(promo),
        _ => Err(ChessErrors::InvalidMove),
    }
}

/// Whether the side to move may play `f` to `t` (with the promotion `promo`),
/// check aside, and if so what kind of move it is.
pub open spec fn move_check(c: ChessView, f: int, t: int, promo: Option<Promotion>) -> Result<
    MoveType,
    ChessErrors,
> {
    match c.board[f] {
        None => Err(ChessErrors::NoPiece),
        Some(p) => if p.player_spec() != c.player {
            Err(ChessErrors::WrongPlayer)
        } else if c.owned_by(t, c.player) {
            Err(ChessErrors::PlayerPieceAlreadyThere)
        } else if promo is Some && !promotion_ranks(c.player, f, t) {
            Err(ChessErrors::InvalidPromotion)
        } else {
            match direction_between(f, t) {
                Some(d) => if ray_steps(f, t, d) > 1 && !path_clear(c.board, f, t, d) {
                    Err(ChessErrors::PieceBetween)
                } else if delta_col(d) == 0 {
                    vertical_rule(c, p, f, t, promo)
                } else if delta_row(d) == 0 {
                    horizontal_rule(c, p, f, t, promo)
                } else {
                    diagonal_rule(c, p, f, t, promo)
                },
                None => if knight_jump(f, t) {
                    knight_rule(p, promo)
                } else {
                    Err(ChessErrors::InvalidMove)
                },
            }
        },
    }
}

fn plain(promotion: Option<Promotion>) -> (r: Result<MoveType, ChessErrors>)
    ensures
        r == plain_move(promotion),
{
    if promotion.is_some() {
        Err(ChessErrors::InvalidPromotion)
    } else {
        Ok(MoveType::Regular)
    }
}

fn is_pawn_dir(player: Player, dr: i8) -> (r: bool)
    ensures
        r == (dr == pawn_dir(player)),
{
    match player {
        Player::White => dr == -1,
        Player::Black => dr == 1,
    }
}

fn is_last_row(player: Player, row: usize) -> (r: bool)
    ensures
        r == (row == last_row(player)),
{
    match player {
        Player::White => row == 0,
        Player::Black => row == 7,
    }
}

fn promoted(player: Player, promotion: Option<Promotion>) -> (r: PieceType)
    ensures
        r == promotion_piece(player, promotion),
{
    let kind = match promotion {
        Some(k) => k.kind(),
        None => PieceKind::Queen,
    };
    PieceType::of(player, kind)
}

/// A pawn moving straight ahead from `from` to `to`.
pub fn move_pawn_vertical(
    piece: &Piece,
    game: &Chess,
    from: usize,
    to: usize,
    promotion: Option<Promotion>,
) -> (r: Result<MoveType, ChessErrors>)
    requires
        from < 64,
        to < 64,
    ensures
        r == pawn_vertical_rule(game@, *piece, from as int, to as int, promotion),
{
    let player = piece.get_player();
    let dr: i8 = (to / 8) as i8 - (from / 8) as i8;
    let start: usize = match player {
        Player::White => 6,
        Player::Black => 1,
    };
    let two: i8 = match player {
        Player::White => -2,
        Player::Black => 2,
    };
    if !(is_pawn_dir(player, dr) || (dr == two && from / 8 == start)) {
        Err(ChessErrors::InvalidMove)
    } else if game.state.st[to].is_some() {
        Err(ChessErrors::PawnCantAttackForward)
    } else if is_last_row(player, to / 8) {
        Ok(MoveType::Promotion(promoted(player, promotion)))
    } else {
        Ok(MoveType::Regular)
    }
}

/// A pawn moving diagonally from `from` to `to`.
pub fn move_pawn_diagonal(
    piece: &Piece,
    game: &Chess,
    from: usize,
    to: usize,
    promotion: Option<Promotion>,
) -> (r: Result<MoveType, ChessErrors>)
    requires
        from < 64,
        to < 64,
    ensures
        r == pawn_diagonal_rule(game@, *piece, from as int, to as int, promotion),
{
    let player = piece.get_player();
    let dr: i8 = (to / 8) as i8 - (from / 8) as i8;
    let dc: i8 = (to % 8) as i8 - (from % 8) as i8;
    if !(is_pawn_dir(player, dr) && (dc == 1 || dc == -1)) {
        Err(ChessErrors::InvalidMove)
    } else if game.state.st[to].is_some() {
        if is_last_row(player, to / 8) {
            Ok(MoveType::Promotion(promoted(player, promotion)))
        } else {
            Ok(MoveType::Regular)
        }
    } else if game.en_passant_target == Some(to) {
        Ok(MoveType::Enpassant((from / 8) * 8 + to % 8))
    } else {
        Err(ChessErrors::PawnCanOnlyAttackDiagonal)
    }
}

fn is_piece(s: Option<Piece>, pt: PieceType) -> (r: bool)
    ensures
        r == (s == Some(Piece { piece_type: pt })),
{
    match s {
        Some(p) => p.piece_type == pt,
        None => false,
    }
}

impl Chess {
    /// Whether the side to move may castle with its king from `from` to `to`.
    pub fn castling_allowed(&self, from: usize, to: usize) -> (r: bool)
        requires
            self@.wf(),
        ensures
            r == castling_allowed(self@, from as int, to as int),
    {
        let b = &self.state.st;
        match self.player {
            Player::White => from == 60 && ((to == 62 && self.castling.white_king_side && is_piece(
                b[63],
                PieceType::WhiteRook,
            ) && b[61].is_none() && b[62].is_none()) || (to == 58
                && self.castling.white_queen_side && is_piece(b[56], PieceType::WhiteRook)
                && b[57].is_none() && b[58].is_none() && b[59].is_none())),
            Player::Black => from == 4 && ((to == 6 && self.castling.black_king_side && is_piece(
                b[7],
                PieceType::BlackRook,
            ) && b[5].is_none() && b[6].is_none()) || (to == 2 && self.castling.black_queen_side
                && is_piece(b[0], PieceType::BlackRook) && b[1].is_none() && b[2].is_none()
                && b[3].is_none())),
        }
    }
}

impl Piece {
    /// This piece moving along a rank from `from` to `to`.
    pub fn move_horizontal(
        &self,
        game: &Chess,
        from: usize,
        to: usize,
        promotion: Option<Promotion>,
    ) -> (r: Result<MoveType, ChessErrors>)
        requires
            game@.wf(),
            from < 64,
            to < 64,
        ensures
            r == horizontal_rule(game@, *self, from as int, to as int, promotion),
    {
        let dc: i8 = (to % 8) as i8 - (from % 8) as i8;
        match self.kind() {
            PieceKind::Pawn | PieceKind::Bishop | PieceKind::Knight => Err(ChessErrors::InvalidMove),
            PieceKind::Rook | PieceKind::Queen => plain(promotion),
            PieceKind::King => {
                if dc == 1 || dc == -1 {
                    plain(promotion)
                } else if dc == 2 || dc == -2 {
                    if promotion.is_some() {
                        Err(ChessErrors::InvalidPromotion)
                    } else if game.castling_allowed(from, to) {
                        Ok(MoveType::Castling)
                    } else {
                        Err(ChessErrors::InvalidMove)
                    }
                } else {
                    Err(ChessErrors::InvalidMove)
                }
            },
        }
    }

    /// This piece moving along a file from `from` to `to`.
    pub fn move_vertical(
        &self,
        game: &Chess,
        from: usize,
        to: usize,
        promotion: Option<Promotion>,
    ) -> (r: Result<MoveType, ChessErrors>)
        requires
            from < 64,
            to < 64,
        ensures
            r == vertical_rule(game@, *self, from as int, to as int, promotion),
    {
        let dr: i8 = (to / 8) as i8 - (from / 8) as i8;
        match self.kind() {
            PieceKind::Bishop | PieceKind::Knight => Err(ChessErrors::InvalidMove),
            PieceKind::Rook | PieceKind::Queen => plain(promotion),
            PieceKind::King => {
                if dr != 1 && dr != -1 {
                    Err(ChessErrors::InvalidMove)
                } else {
                    plain(promotion)
                }
            },
            PieceKind::Pawn => move_pawn_vertical(self, game, from, to, promotion),
        }
    }

    /// This piece moving along a diagonal from `from` to `to`.
    pub fn move_diagonal(
        &self,
        game: &Chess,
        from: usize,
        to: usize,
        promotion: Option<Promotion>,
    ) -> (r: Result<MoveType, ChessErrors>)
        requires
            from < 64,
            to < 64,
        ensures
            r == diagonal_rule(game@, *self, from as int, to as int, promotion),
    {
        let dc: i8 = (to % 8) as i8 - (from % 8) as i8;
        match self.kind() {
            PieceKind::Knight | PieceKind::Rook => Err(ChessErrors::InvalidMove),
            PieceKind::Bishop | PieceKind::Queen => plain(promotion),
            PieceKind::King => {
                if dc != 1 && dc != -1 {
                    Err(ChessErrors::InvalidMove)
                } else {
                    plain(promotion)
                }
            },
            PieceKind::Pawn => move_pawn_diagonal(self, game, from, to, promotion),
        }
    }

    /// This piece making a knight's jump.
    pub fn move_knight(&self, promotion: Option<Promotion>) -> (r: Result<MoveType, ChessErrors>)
        ensures
            r == knight_rule(*self, promotion),
    {
        match self.kind() {
            PieceKind::Knight => plain(promotion),
            _ => Err(ChessErrors::InvalidMove),
        }
    }
}

impl Chess {
    /// Walks from `from` towards `to` in direction `dir` and fails with
    /// `PieceBetween` at the first occupied square strictly between them.
    pub fn is_path_blocked(&self, from: usize, to: usize, dir: Direction) -> (r: Result<
        (),
        ChessErrors,
    >)
        requires
            from < 64,
            on_ray(from as int, to as int, dir),
        ensures
            r is Ok <==> path_clear(self@.board, from as int, to as int, dir),
            r is Err ==> r == Err::<(), ChessErrors>(ChessErrors::PieceBetween),
    {
        let ghost f = from as int;
        let ghost t = to as int;
        let mut pos = from;
        loop
            invariant
                f == from as int,
                t == to as int,
                from < 64,
                to < 64,
                on_ray(f, t, dir),
                pos < 64,
                pos == from || on_ray(f, pos as int, dir),
                steps_taken(f, pos as int, dir) < ray_steps(f, t, dir),
                forall|s: int|
                    #![trigger on_ray(f, s, dir)]
                    on_ray(f, s, dir) && ray_steps(f, s, dir) <= steps_taken(f, pos as int, dir)
                        ==> self@.board[s] is None,
            decreases ray_steps(f, t, dir) - steps_taken(f, pos as int, dir),
        {
            proof {
                lemma_ray_step(f, pos as int, dir, t);
            }
            let bounds = get_bounds(pos);
            assert(opt_int(bounds.toward(dir)) == neighbor(pos as int, dir));
            let next = bounds.toward(dir).unwrap();
            if next == to {
                proof {
                    assert forall|s: int| #[trigger]
                        on_ray(f, s, dir) && ray_steps(f, s, dir) < ray_steps(f, t, dir)
                            implies self@.board[s] is None by {
                        lemma_ray_step(f, pos as int, dir, s);
                    }
                }
                return Ok(());
            }
            if self.state.st[next].is_some() {
                proof {
                    lemma_ray_step(f, pos as int, dir, next as int);
                    lemma_ray_step(f, next as int, dir, t);
                    if ray_steps(f, next as int, dir) == ray_steps(f, t, dir) {
                        lemma_ray_step(f, pos as int, dir, t);
                    }
                    assert(on_ray(f, next as int, dir) && ray_steps(f, next as int, dir) < ray_steps(f, t, dir));
                }
                return Err(ChessErrors::PieceBetween);
            }
            proof {
                lemma_ray_step(f, pos as int, dir, next as int);
                if ray_steps(f, next as int, dir) == ray_steps(f, t, dir) {
                    lemma_ray_step(f, pos as int, dir, t);
                }
                assert forall|s: int|
                    #![trigger on_ray(f, s, dir)]
                    on_ray(f, s, dir) && ray_steps(f, s, dir) <= steps_taken(f, next as int, dir)
                        implies self@.board[s] is None by {
                    lemma_ray_step(f, pos as int, dir, s);
                }
            }
            pos = next;
        }
    }

    /// Whether the side to move may play `from_spot` to `to_spot`, leaving
    /// aside whether its own king is then attacked, and if so what kind of
    /// move that is.
    pub fn is_move_valid(&self, from_spot: usize, to_spot: usize, promotion_opt: Option<Promotion>) -> (r: Result<
        MoveType,
        ChessErrors,
    >)
        requires
            self@.wf(),
            from_spot < 64,
            to_spot < 64,
        ensures
            r == move_check(self@, from_spot as int, to_spot as int, promotion_opt),
    {
        let from = from_spot;
        let to = to_spot;
        let piece = match self.state.st[from] {
            None => {
                return Err(ChessErrors::NoPiece);
            },
            Some(p) => p,
        };
        if piece.get_player() != self.player {
            return Err(ChessErrors::WrongPlayer);
        }
        if let Some(target) = self.state.st[to] {
            if target.get_player() == self.player {
                return Err(ChessErrors::PlayerPieceAlreadyThere);
            }
        }
        if promotion_opt.is_some() {
            let from_row = from / 8;
            let to_row = to / 8;
            let ranks_ok = match self.player {
                Player::White => from_row == 1 && to_row == 0,
                Player::Black => from_row == 6 && to_row == 7,
            };
            if !ranks_ok {
                return Err(ChessErrors::InvalidPromotion);
            }
        }
        proof {
            lemma_direction_between(from as int, to as int);
        }
        match direction_of(from, to) {
            Some(dir) => {
                let dr: i8 = (to / 8) as i8 - (from / 8) as i8;
                let dc: i8 = (to % 8) as i8 - (from % 8) as i8;
                let far = dr > 1 || dr < -1 || dc > 1 || dc < -1;
                if far {
                    self.is_path_blocked(from, to, dir)?;
                }
                match dir {
                    Direction::Up | Direction::Down => piece.move_vertical(
                        self,
                        from,
                        to,
                        promotion_opt,
                    ),
                    Direction::Left | Direction::Right => piece.move_horizontal(
                        self,
                        from,
                        to,
                        promotion_opt,
                    ),
                    _ => piece.move_diagonal(self, from, to, promotion_opt),
                }
            },
            None => {
                if is_knight_jump(from, to) {
                    piece.move_knight(promotion_opt)
                } else {
                    Err(ChessErrors::InvalidMove)
                }
            },
        }
    }
}

} // verus!
