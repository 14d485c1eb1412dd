//! Playing moves: the position mutator, check detection and the legal move
//! set.
use vstd::prelude::*;
use crate::chess_errors::ChessErrors;
use crate::geometry::{
    abs, row_of, col_of, lemma_square, lemma_direction_between, direction_between, on_ray,
};
use crate::movegen::{candidate, lemma_push_contains, lemma_push_no_duplicates, lemma_not_earlier};
use crate::notation::{parse_move, parse_move_spec, fold_case};
use crate::pieces::{Piece, PieceKind, PieceType, Player, Promotion};
use crate::position::{
    Castling, Chess, ChessView, Move, MoveType, castle_rook, row_delta, last_row,
};
use crate::rules::{move_check};

verus! {

/// Castling rights after `p` moved from `f` to `t`: a king move gives up both
/// of its side's rights, and a rook moving from its home corner gives up the
/// right of that corner.
pub open spec fn updated_castling(cs: Castling, p: Piece, f: int, t: int) -> Castling {
    let pt = p.piece_type;
    Castling {
        white_king_side: cs.white_king_side && pt != PieceType::WhiteKing && !(pt
            == PieceType::WhiteRook && f == 63),
        white_queen_side: cs.white_queen_side && pt != PieceType::WhiteKing && !(pt
            == PieceType::WhiteRook && f == 56),
        black_king_side: cs.black_king_side && pt != PieceType::BlackKing && !(pt
            == PieceType::BlackRook && f == 7),
        black_queen_side: cs.black_queen_side && pt != PieceType::BlackKing && !(pt
            == PieceType::BlackRook && f == 0),
    }
}

/// The board after the piece on `f` moved to `t` as a move of kind `mt`.
pub open spec fn moved_board(c: ChessView, f: int, t: int, mt: MoveType) -> Seq<Option<Piece>> {
    let p = c.board[f];
    let cleared = c.board.update(f, None);
    match mt {
        MoveType::Promotion(pt) => cleared.update(t, Some(Piece { piece_type: pt })),
        MoveType::Castling => {
            let (rf, rt) = castle_rook(t);
            cleared.update(t, p).update(rf, None).update(rt, c.board[rf])
        },
        MoveType::Enpassant(cap) => cleared.update(cap as int, None).update(t, p),
        MoveType::Regular => cleared.update(t, p),
    }
}

/// The position after the side to move played `f` to `t`, a move of kind `mt`.
pub open spec fn apply_move(c: ChessView, f: int, t: int, mt: MoveType) -> ChessView {
    let p = c.board[f]->Some_0;
    ChessView {
        board: moved_board(c, f, t, mt),
        player: c.player.opponent_spec(),
        castling: updated_castling(c.castling, p, f, t),
        halfmove_clock: if p.kind_spec() == PieceKind::Pawn || c.board[t] is Some {
            0
        } else if c.halfmove_clock < 255 {
            (c.halfmove_clock + 1) as u8
        } else {
            255
        },
        full_move_number: if c.player == Player::Black && c.full_move_number < 65535 {
            (c.full_move_number + 1) as u16
        } else {
            c.full_move_number
        },
        en_passant_target: if p.kind_spec() == PieceKind::Pawn && abs(row_delta(f, t)) == 2 {
            Some(((f + t) / 2) as usize)
        } else {
            None
        },
    }
}

/// The result of playing `f` to `t` with promotion `promo`: the next position,
/// or why the move is refused.
pub open spec fn play(c: ChessView, f: int, t: int, promo: Option<Promotion>) -> Result<
    ChessView,
    ChessErrors,
> {
    match move_check(c, f, t, promo) {
        Ok(mt) => Ok(apply_move(c, f, t, mt)),
        Err(e) => Err(e),
    }
}

/// Some move of the side to move in `c` that the legality filter accepts
/// lands on a king of `victim`.
pub open spec fn king_attacked(c: ChessView, victim: Player) -> bool {
    exists|f: int, t: int|
        0 <= f < 64 && 0 <= t < 64 && c.board[t] == Some(
            Piece { piece_type: PieceType::of_spec(victim, PieceKind::King) },
        ) && (#[trigger] move_check(c, f, t, None)) is Ok
}

/// A legal move: accepted by the legality filter, and not leaving the
/// mover's king attacked.
pub open spec fn is_legal(c: ChessView, m: Move) -> bool {
    &&& m.from < 64
    &&& m.to < 64
    &&& move_check(c, m.from as int, m.to as int, m.promotion) matches Ok(mt)
    &&& !king_attacked(apply_move(c, m.from as int, m.to as int, mt), c.player)
}

/// A castling move of the side to move: its king, on its home square, two
/// files towards either corner.
pub open spec fn castle_candidate(c: ChessView, m: Move) -> bool {
    &&& m.promotion is None
    &&& c.board[m.from as int] matches Some(p) && p.piece_type == PieceType::of_spec(
        c.player,
        PieceKind::King,
    )
    &&& match c.player {
        Player::White => m.from == 60 && (m.to == 62 || m.to == 58),
        Player::Black => m.from == 4 && (m.to == 6 || m.to == 2),
    }
}

/// Every move the legality filter accepts is among the candidates or is a
/// castling move; the two kinds never overlap.
pub proof fn lemma_valid_is_candidate(c: ChessView, m: Move)
    requires
        c.wf(),
        m.from < 64,
        m.to < 64,
        move_check(c, m.from as int, m.to as int, m.promotion) is Ok,
    ensures
        candidate(c, m) || castle_candidate(c, m),
        !(candidate(c, m) && castle_candidate(c, m)),
{
    let f = m.from as int;
    let t = m.to as int;
    lemma_square(f);
    lemma_square(t);
    lemma_direction_between(f, t);
    let p = c.board[f]->Some_0;
    match direction_between(f, t) {
        Some(d) => {
            assert(on_ray(f, t, d));
        },
        None => {},
    }
}

/// A castling move is never a candidate move.
pub proof fn lemma_castle_not_candidate(c: ChessView, m: Move)
    requires
        castle_candidate(c, m),
    ensures
        !candidate(c, m),
{
    lemma_square(m.from as int);
    lemma_square(m.to as int);
}

/// A validated move keeps the position well formed.
pub proof fn lemma_apply_wf(c: ChessView, f: int, t: int, promo: Option<Promotion>)
    requires
        c.wf(),
        0 <= f < 64,
        0 <= t < 64,
        move_check(c, f, t, promo) is Ok,
    ensures
        apply_move(c, f, t, move_check(c, f, t, promo)->Ok_0).wf(),
{
    lemma_square(f);
    lemma_square(t);
    lemma_direction_between(f, t);
    let p = c.board[f]->Some_0;
    if p.kind_spec() == PieceKind::Pawn && abs(row_delta(f, t)) == 2 {
        lemma_square((f + t) / 2);
    }
}

impl Chess {
    /// Plays a move that the legality filter accepted as `move_type`.
    pub fn perform_move(&mut self, from: usize, to: usize, move_type: MoveType)
        requires
            old(self)@.wf(),
            from < 64,
            to < 64,
            exists|promo: Option<Promotion>|
                move_check(old(self)@, from as int, to as int, promo) == Ok::<
                    MoveType,
                    ChessErrors,
                >(move_type),
        ensures
            final(self)@ == apply_move(old(self)@, from as int, to as int, move_type),
            final(self)@.wf(),
    {
        let ghost promo = choose|promo: Option<Promotion>|
            move_check(old(self)@, from as int, to as int, promo) == Ok::<
                MoveType,
                ChessErrors,
            >(move_type);
        proof {
            lemma_apply_wf(self@, from as int, to as int, promo);
            lemma_square(from as int);
            lemma_square(to as int);
        }
        let piece = self.state.st[from].unwrap();
        let captured = self.state.st[to].is_some();
        let dr: i8 = (to / 8) as i8 - (from / 8) as i8;
        let is_pawn = piece.kind() == PieceKind::Pawn;
        // castling rights
        let pt = piece.piece_type;
        self.castling = Castling {
            white_king_side: self.castling.white_king_side && pt != PieceType::WhiteKing && !(pt
                == PieceType::WhiteRook && from == 63),
            white_queen_side: self.castling.white_queen_side && pt != PieceType::WhiteKing && !(pt
                == PieceType::WhiteRook && from == 56),
            black_king_side: self.castling.black_king_side && pt != PieceType::BlackKing && !(pt
                == PieceType::BlackRook && from == 7),
            black_queen_side: self.castling.black_queen_side && pt != PieceType::BlackKing && !(pt
                == PieceType::BlackRook && from == 0),
        };
        // en-passant target
        self.en_passant_target = if is_pawn && (dr == 2 || dr == -2) {
            Some((from + to) / 2)
        } else {
            None
        };
        // board
        let moving = self.state.st[from];
        self.state.st[from] = None;
        match move_type {
            MoveType::Promotion(new_type) => {
                self.state.st[to] = Some(Piece { piece_type: new_type });
            },
            MoveType::Castling => {
                let (rook_from, rook_to): (usize, usize) = if to == 62 {
                    (63, 61)
                } else if to == 58 {
                    (56, 59)
                } else if to == 6 {
                    (7, 5)
                } else {
                    (0, 3)
                };
                let rook = self.state.st[rook_from];
                self.state.st[to] = moving;
                self.state.st[rook_from] = None;
                self.state.st[rook_to] = rook;
            },
            MoveType::Enpassant(cap) => {
                self.state.st[cap] = None;
                self.state.st[to] = moving;
            },
            MoveType::Regular => {
                self.state.st[to] = moving;
            },
        }
        // counters and turn
        self.halfmove_clock = if is_pawn || captured {
            0
        } else if self.halfmove_clock < 255 {
            self.halfmove_clock + 1
        } else {
            255
        };
        if self.player == Player::Black && self.full_move_number < 65535 {
            self.full_move_number = self.full_move_number + 1;
        }
        self.player = self.player.opponent();
    }

    /// Plays the move that `chess_move` names, such as `e2e4` or `e7e8q`.
    /// A refused move leaves the position as it was.
    pub fn move_piece(&mut self, chess_move: &str) -> (r: Result<(), ChessErrors>)
        requires
            old(self)@.wf(),
        ensures
            final(self)@.wf(),
            match parse_move_spec(chess_move@) {
                Err(e) => r == Err::<(), ChessErrors>(e) && final(self)@ == old(self)@,
                Ok((f, t, promo)) => match play(old(self)@, f, t, promo) {
                    Ok(next) => r is Ok && final(self)@ == next && counters_follow(
                        old(self)@,
                        f,
                        t,
                        move_check(old(self)@, f, t, promo)->Ok_0,
                        next,
                    ),
                    Err(e) => r == Err::<(), ChessErrors>(e) && final(self)@ == old(self)@,
                },
            },
    {
        let (from, to, promotion) = parse_move(chess_move)?;
        let move_type = self.is_move_valid(from, to, promotion)?;
        self.perform_move(from, to, move_type);
        Ok(())
    }

    /// Whether some move of the side to move lands, by the legality filter,
    /// on a king of `victim`. Every move the filter accepts is a candidate
    /// move (`lemma_valid_is_candidate`), so trying every origin square finds
    /// exactly the attacks among the side's candidate moves.
    pub fn is_king_attacked(&self, victim: Player) -> (r: bool)
        requires
            self@.wf(),
        ensures
            r == king_attacked(self@, victim),
    {
        let king = Some(Piece { piece_type: PieceType::of(victim, PieceKind::King) });
        let mut t: usize = 0;
        while t < 64
            invariant
                t <= 64,
                self@.wf(),
                king == Some(Piece { piece_type: PieceType::of_spec(victim, PieceKind::King) }),
                forall|f: int, s: int|
                    0 <= f < 64 && 0 <= s < t && self@.board[s] == king ==> !(#[trigger] move_check(
                        self@,
                        f,
                        s,
                        None,
                    ) is Ok),
            decreases 64 - t,
        {
            let here = self.state.st[t];
            let is_king = match here {
                Some(p) => p.piece_type == PieceType::of(victim, PieceKind::King),
                None => false,
            };
            if is_king {
                let mut f: usize = 0;
                while f < 64
                    invariant
                        t < 64,
                        f <= 64,
                        self@.wf(),
                        self@.board[t as int] == Some(
                            Piece { piece_type: PieceType::of_spec(victim, PieceKind::King) },
                        ),
                        forall|g: int| 0 <= g < f ==> !(#[trigger] move_check(self@, g, t as int, None) is Ok),
                    decreases 64 - f,
                {
                    if self.is_move_valid(f, t, None).is_ok() {
                        assert(move_check(self@, f as int, t as int, None) is Ok);
                        return true;
                    }
                    f += 1;
                }
            }
            t += 1;
        }
        false
    }

    /// Whether playing `from` to `to`, validated as `move_type`, leaves the
    /// mover's king attacked. The move is tried on a copy of the position.
    pub fn check_for_check(&self, from: usize, to: usize, move_type: MoveType) -> (r: bool)
        requires
            self@.wf(),
            from < 64,
            to < 64,
            exists|promo: Option<Promotion>|
                move_check(self@, from as int, to as int, promo) == Ok::<MoveType, ChessErrors>(
                    move_type,
                ),
        ensures
            r == king_attacked(apply_move(self@, from as int, to as int, move_type), self@.player),
    {
        let mut cloned_game = *self;
        cloned_game.perform_move(from, to, move_type);
        cloned_game.is_king_attacked(self.player)
    }

    /// The legal moves of the side to move: the candidates, and the two
    /// castling moves of a king on its home square, that the legality filter
    /// accepts and that do not leave the mover's king attacked. Each is listed
    /// once.
    pub fn get_legal_moves(&self) -> (r: Vec<Move>)
        requires
            self@.wf(),
        ensures
            forall|m: Move| #[trigger] r@.contains(m) <==> is_legal(self@, m),
            r@.no_duplicates(),
    {
        let candidates = self.get_unvalidated_moves();
        let mut legal: Vec<Move> = Vec::new();
        let mut i: usize = 0;
        while i < candidates.len()
            invariant
                i <= candidates@.len(),
                self@.wf(),
                candidates@.no_duplicates(),
                legal@.no_duplicates(),
                forall|m: Move| #[trigger] candidates@.contains(m) <==> candidate(self@, m),
                forall|m: Move|
                    #[trigger] legal@.contains(m) <==> (candidates@.subrange(0, i as int).contains(m)
                        && is_legal(self@, m)),
            decreases candidates@.len() - i,
        {
            let m = candidates[i];
            let ghost before = legal@;
            proof {
                assert(candidates@.contains(m));
                assert(candidates@.subrange(0, i + 1) == candidates@.subrange(0, i as int).push(m));
                lemma_not_earlier(candidates@, i as int);
            }
            match self.is_move_valid(m.from, m.to, m.promotion) {
                Ok(move_type) => {
                    if !self.check_for_check(m.from, m.to, move_type) {
                        proof {
                            lemma_push_no_duplicates(before, m);
                        }
                        legal.push(m);
                    }
                },
                Err(_) => {},
            }
            proof {
                assert forall|x: Move| #[trigger] legal@.contains(x) <==> (candidates@.subrange(0, i + 1).contains(x)
                        && is_legal(self@, x)) by {
                    lemma_push_contains(candidates@.subrange(0, i as int), m, x);
                    lemma_push_contains(before, m, x);
                }
            }
            i += 1;
        }
        proof {
            assert(candidates@.subrange(0, i as int) == candidates@);
        }
        let home: usize = match self.player {
            Player::White => 60,
            Player::Black => 4,
        };
        let king_home = match self.state.st[home] {
            Some(p) => p.piece_type == PieceType::of(self.player, PieceKind::King),
            None => false,
        };
        if king_home {
            self.push_castle_if_legal(&mut legal, Move { from: home, to: home + 2, promotion: None });
            self.push_castle_if_legal(&mut legal, Move { from: home, to: home - 2, promotion: None });
        }
        proof {
            assert forall|m: Move| #[trigger] legal@.contains(m) <==> is_legal(self@, m) by {
                if is_legal(self@, m) {
                    lemma_valid_is_candidate(self@, m);
                }
            }
        }
        legal
    }

    /// Appends the castling move `m` to `legal` when it is legal.
    fn push_castle_if_legal(&self, legal: &mut Vec<Move>, m: Move)
        requires
            self@.wf(),
            castle_candidate(self@, m),
            old(legal)@.no_duplicates(),
            forall|x: Move|
                #[trigger] old(legal)@.contains(x) ==> is_legal(self@, x) && (candidate(self@, x)
                    || (castle_candidate(self@, x) && x.to != m.to)),
        ensures
            final(legal)@.no_duplicates(),
            forall|x: Move|
                #[trigger] final(legal)@.contains(x) <==> (old(legal)@.contains(x) || (x == m
                    && is_legal(self@, m))),
    {
        let ghost before = legal@;
        match self.is_move_valid(m.from, m.to, None) {
            Ok(move_type) => {
                if !self.check_for_check(m.from, m.to, move_type) {
                    proof {
                        lemma_castle_not_candidate(self@, m);
                        lemma_push_no_duplicates(before, m);
                    }
                    legal.push(m);
                }
            },
            Err(_) => {},
        }
        proof {
            assert forall|x: Move| #[trigger] legal@.contains(x) <==> (before.contains(x) || (x == m
                && is_legal(self@, m))) by {
                lemma_push_contains(before, m, x);
            }
        }
    }
}

/// The position after playing every move of `line` in turn, if each is accepted.
pub open spec fn play_line(c: ChessView, line: Seq<Move>) -> Option<ChessView>
    decreases line.len(),
{
    if line.len() == 0 {
        Some(c)
    } else {
        match play(c, line[0].from as int, line[0].to as int, line[0].promotion) {
            Ok(next) => play_line(next, line.drop_first()),
            Err(_) => None,
        }
    }
}

/// Every legal move can be played, and afterwards no move of the opponent
/// reaches the mover's king.
pub proof fn lemma_legal_moves_sound(c: ChessView, m: Move)
    requires
        c.wf(),
        is_legal(c, m),
    ensures
        play(c, m.from as int, m.to as int, m.promotion) matches Ok(next) && next.wf()
            && !king_attacked(next, c.player),
{
    lemma_apply_wf(c, m.from as int, m.to as int, m.promotion);
}

/// A castling right, once lost, stays lost whatever is played.
pub proof fn lemma_castling_rights_monotone(c: ChessView, line: Seq<Move>)
    requires
        play_line(c, line) is Some,
    ensures
        play_line(c, line)->Some_0.castling.white_king_side ==> c.castling.white_king_side,
        play_line(c, line)->Some_0.castling.white_queen_side ==> c.castling.white_queen_side,
        play_line(c, line)->Some_0.castling.black_king_side ==> c.castling.black_king_side,
        play_line(c, line)->Some_0.castling.black_queen_side ==> c.castling.black_queen_side,
    decreases line.len(),
{
    if line.len() > 0 {
        let next = play(c, line[0].from as int, line[0].to as int, line[0].promotion)->Ok_0;
        lemma_castling_rights_monotone(next, line.drop_first());
    }
}

/// Once White has castled king side, no later position offers White that
/// castling again, whatever moves follow and wherever king and rook go.
pub proof fn lemma_castling_gated(c: ChessView, line: Seq<Move>)
    requires
        c.wf(),
        move_check(c, 60, 62, None) == Ok::<MoveType, ChessErrors>(MoveType::Castling),
        play_line(apply_move(c, 60, 62, MoveType::Castling), line) is Some,
    ensures
        ({
            let later = play_line(apply_move(c, 60, 62, MoveType::Castling), line)->Some_0;
            !later.castling.white_king_side && forall|p: Option<Promotion>|
                move_check(later, 60, 62, p) != Ok::<MoveType, ChessErrors>(MoveType::Castling)
        }),
{
    let after = apply_move(c, 60, 62, MoveType::Castling);
    lemma_square(60);
    lemma_square(62);
    lemma_direction_between(60, 62);
    assert(!after.castling.white_king_side);
    lemma_castling_rights_monotone(after, line);
    let later = play_line(after, line)->Some_0;
    assert forall|p: Option<Promotion>|
        move_check(later, 60, 62, p) != Ok::<MoveType, ChessErrors>(MoveType::Castling) by {
        lemma_direction_between(60, 62);
    }
}

/// After a two-square pawn advance the en-passant target is the square passed
/// over; an opposing pawn moving diagonally onto it next is an en-passant
/// capture that removes the pawn that advanced.
pub proof fn lemma_en_passant(c: ChessView, f: int, t: int, g: int)
    requires
        c.wf(),
        0 <= f < 64,
        0 <= t < 64,
        0 <= g < 64,
        move_check(c, f, t, None) is Ok,
        c.board[f] matches Some(p) && p.kind_spec() == PieceKind::Pawn,
        abs(row_delta(f, t)) == 2,
        ({
            let next = apply_move(c, f, t, move_check(c, f, t, None)->Ok_0);
            &&& next.board[g] matches Some(q) && q.kind_spec() == PieceKind::Pawn
            &&& col_of(g) != col_of((f + t) / 2)
            &&& move_check(next, g, (f + t) / 2, None) is Ok
        }),
    ensures
        ({
            let next = apply_move(c, f, t, move_check(c, f, t, None)->Ok_0);
            let ep = (f + t) / 2;
            let taken = apply_move(next, g, ep, MoveType::Enpassant(t as usize));
            &&& next.en_passant_target == Some(ep as usize)
            &&& move_check(next, g, ep, None) == Ok::<MoveType, ChessErrors>(
                MoveType::Enpassant(t as usize),
            )
            &&& taken.board[t] is None
            &&& taken.board[ep] == next.board[g]
        }),
{
    let mt = move_check(c, f, t, None)->Ok_0;
    let next = apply_move(c, f, t, mt);
    let ep = (f + t) / 2;
    lemma_square(f);
    lemma_square(t);
    lemma_square(g);
    lemma_direction_between(f, t);
    let d = direction_between(f, t)->Some_0;
    assert(on_ray(f, ep, d));
    lemma_square(ep);
    lemma_direction_between(g, ep);
}

/// A pawn reaching the last rank becomes the piece its move string names:
/// a queen without a letter, and a rook, bishop or knight for `r`, `b`, `k`.
pub proof fn lemma_promotion_choice(c: ChessView, s: Seq<char>)
    requires
        c.wf(),
        parse_move_spec(s) is Ok,
        ({
            let (f, t, promo) = parse_move_spec(s)->Ok_0;
            &&& c.board[f] matches Some(p) && p.kind_spec() == PieceKind::Pawn
            &&& row_of(t) == last_row(c.player)
            &&& play(c, f, t, promo) is Ok
        }),
    ensures
        ({
            let (f, t, promo) = parse_move_spec(s)->Ok_0;
            let after = play(c, f, t, promo)->Ok_0;
            &&& s.len() == 4 ==> after.board[t] == Some(
                Piece { piece_type: PieceType::of_spec(c.player, PieceKind::Queen) },
            )
            &&& s.len() == 5 && fold_case(s[4]) == 'r' ==> after.board[t] == Some(
                Piece { piece_type: PieceType::of_spec(c.player, PieceKind::Rook) },
            )
            &&& s.len() == 5 && fold_case(s[4]) == 'b' ==> after.board[t] == Some(
                Piece { piece_type: PieceType::of_spec(c.player, PieceKind::Bishop) },
            )
            &&& s.len() == 5 && fold_case(s[4]) == 'k' ==> after.board[t] == Some(
                Piece { piece_type: PieceType::of_spec(c.player, PieceKind::Knight) },
            )
        }),
{
    let (f, t, promo) = parse_move_spec(s)->Ok_0;
    lemma_square(f);
    lemma_square(t);
    lemma_direction_between(f, t);
}

/// The counters after `f` to `t`, a move of kind `mt`, took `c` to `next`:
/// the halfmove clock restarts on a capture or a pawn move and otherwise goes
/// up by one (it stops at 255); the move number goes up after Black's move
/// only (it stops at 65535); the turn passes.
pub open spec fn counters_follow(c: ChessView, f: int, t: int, mt: MoveType, next: ChessView) -> bool {
    let pawn = c.board[f]->Some_0.kind_spec() == PieceKind::Pawn;
    let capture = c.board[t] is Some || mt is Enpassant;
    &&& (pawn || capture) ==> next.halfmove_clock == 0
    &&& (!pawn && !capture && c.halfmove_clock < 255) ==> next.halfmove_clock == c.halfmove_clock
        + 1
    &&& (!pawn && !capture && c.halfmove_clock == 255) ==> next.halfmove_clock == 255
    &&& c.player == Player::White ==> next.full_move_number == c.full_move_number
    &&& (c.player == Player::Black && c.full_move_number < 65535) ==> next.full_move_number
        == c.full_move_number + 1
    &&& next.player == c.player.opponent_spec()
}

/// Every accepted move updates the counters as `counters_follow` says.
pub proof fn lemma_clocks(c: ChessView, f: int, t: int, promo: Option<Promotion>)
    requires
        c.wf(),
        0 <= f < 64,
        0 <= t < 64,
        play(c, f, t, promo) is Ok,
    ensures
        counters_follow(c, f, t, move_check(c, f, t, promo)->Ok_0, play(c, f, t, promo)->Ok_0),
{
}

} // verus!
