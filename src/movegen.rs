//! Pseudo-legal move generation: the squares each piece could reach from its
//! square, whatever stands in the way and whether or not its king is then
//! attacked.
use vstd::prelude::*;
use crate::geometry::{
    Direction, on_board, square_at, row_of, col_of, lemma_square, offset_square,
    opt_int, neighbor, get_bounds, adjacent, knight_jump, straight_reach, diagonal_reach,
    squares_of, get_unvalidated_diag_moves, get_unvalidated_horiz_vert_moves,
    get_unvalidated_line_moves,
};
use crate::pieces::{Piece, PieceKind, Player, Promotion};
use crate::position::{
    Chess, ChessView, Move, pawn_dir, pawn_start_row, promotion_ranks, col_dist,
    row_delta,
};

verus! {

/// The squares a pawn of `pl` could reach from `f`: one step ahead, two from
/// its start row, and the two squares diagonally ahead.
pub open spec fn pawn_reach(pl: Player, f: int, t: int) -> bool {
    0 <= t < 64 && ((col_of(t) == col_of(f) && (row_delta(f, t) == pawn_dir(pl) || (row_delta(
        f,
        t,
    ) == 2 * pawn_dir(pl) && row_of(f) == pawn_start_row(pl)))) || (col_dist(f, t) == 1
        && row_delta(f, t) == pawn_dir(pl)))
}

/// The squares piece `p` standing on `f` could reach, ignoring what stands in
/// the way and check.
pub open spec fn pseudo_reach(p: Piece, f: int, t: int) -> bool {
    match p.kind_spec() {
        PieceKind::Pawn => pawn_reach(p.player_spec(), f, t),
        PieceKind::Knight => knight_jump(f, t),
        PieceKind::Bishop => diagonal_reach(f, t),
        PieceKind::Rook => straight_reach(f, t),
        PieceKind::Queen => straight_reach(f, t) || diagonal_reach(f, t),
        PieceKind::King => adjacent(f, t),
    }
}

/// A candidate move of the side to move: one of its pieces to a square the
/// piece could reach, with a promotion piece only for a pawn reaching the
/// last rank.
pub open spec fn candidate(c: ChessView, m: Move) -> bool {
    &&& m.from < 64
    &&& m.to < 64
    &&& c.board[m.from as int] matches Some(p)
    &&& p.player_spec() == c.player
    &&& pseudo_reach(p, m.from as int, m.to as int)
    &&& m.promotion is Some ==> p.kind_spec() == PieceKind::Pawn && promotion_ranks(
        c.player,
        m.from as int,
        m.to as int,
    )
}

fn mark(mask: &mut [bool; 64], s: Option<usize>)
    requires
        s matches Some(x) ==> x < 64,
    ensures
        final(mask)@ == (match s {
            Some(x) => old(mask)@.update(x as int, true),
            None => old(mask)@,
        }),
{
    if let Some(x) = s {
        mask[x] = true;
    }
}

/// The square `dr` rows and `dc` columns from `f`, if on the board, is `t`.
pub open spec fn hit(f: int, dr: int, dc: int, t: int) -> bool {
    on_board(row_of(f) + dr, col_of(f) + dc) && t == square_at(row_of(f) + dr, col_of(f) + dc)
}

/// The up to eight squares a knight on `spot` jumps to.
pub fn get_knight_unvalidated_moves(spot: usize) -> (r: Vec<usize>)
    requires
        spot < 64,
    ensures
        forall|t: usize| r@.contains(t) <==> knight_jump(spot as int, t as int),
        forall|i: int, j: int| 0 <= i < j < r@.len() ==> r@[i] < r@[j],
{
    let row = spot / 8;
    let col = spot % 8;
    let mut mask = [false; 64];
    mark(&mut mask, offset_square(row, col, -2, 1));
    mark(&mut mask, offset_square(row, col, -1, 2));
    mark(&mut mask, offset_square(row, col, -2, -1));
    mark(&mut mask, offset_square(row, col, -1, -2));
    mark(&mut mask, offset_square(row, col, 2, 1));
    mark(&mut mask, offset_square(row, col, 1, 2));
    mark(&mut mask, offset_square(row, col, 2, -1));
    mark(&mut mask, offset_square(row, col, 1, -2));
    proof {
        let f = spot as int;
        assert forall|t: int| 0 <= t < 64 implies #[trigger] mask@[t] == knight_jump(f, t) by {
            lemma_square(t);
            lemma_square(f);
            assert(mask@[t] == (hit(f, -2, 1, t) || hit(f, -1, 2, t) || hit(f, -2, -1, t) || hit(
                f,
                -1,
                -2,
                t,
            ) || hit(f, 2, 1, t) || hit(f, 1, 2, t) || hit(f, 2, -1, t) || hit(f, 1, -2, t)));
        }
    }
    squares_of(&mask)
}

/// The up to eight squares around a king on `spot`.
pub fn get_king_unvalidated_moves(spot: usize) -> (r: Vec<usize>)
    requires
        spot < 64,
    ensures
        forall|t: usize| r@.contains(t) <==> adjacent(spot as int, t as int),
        forall|i: int, j: int| 0 <= i < j < r@.len() ==> r@[i] < r@[j],
{
    let bounds = get_bounds(spot);
    let mut mask = [false; 64];
    mark(&mut mask, bounds.top_right_diag);
    mark(&mut mask, bounds.top_left_diag);
    mark(&mut mask, bounds.bottom_left_diag);
    mark(&mut mask, bounds.bottom_right_diag);
    mark(&mut mask, bounds.bottom);
    mark(&mut mask, bounds.top);
    mark(&mut mask, bounds.left);
    mark(&mut mask, bounds.right);
    proof {
        let f = spot as int;
        assert(opt_int(bounds.toward(Direction::Up)) == neighbor(f, Direction::Up));
        assert(opt_int(bounds.toward(Direction::Down)) == neighbor(f, Direction::Down));
        assert(opt_int(bounds.toward(Direction::Left)) == neighbor(f, Direction::Left));
        assert(opt_int(bounds.toward(Direction::Right)) == neighbor(f, Direction::Right));
        assert(opt_int(bounds.toward(Direction::UpLeft)) == neighbor(f, Direction::UpLeft));
        assert(opt_int(bounds.toward(Direction::UpRight)) == neighbor(f, Direction::UpRight));
        assert(opt_int(bounds.toward(Direction::DownLeft)) == neighbor(f, Direction::DownLeft));
        assert(opt_int(bounds.toward(Direction::DownRight)) == neighbor(f, Direction::DownRight));
        assert forall|t: int| 0 <= t < 64 implies #[trigger] mask@[t] == adjacent(f, t) by {
            lemma_square(t);
            lemma_square(f);
            assert(mask@[t] == (hit(f, -1, 1, t) || hit(f, -1, -1, t) || hit(f, 1, -1, t) || hit(
                f,
                1,
                1,
                t,
            ) || hit(f, 1, 0, t) || hit(f, -1, 0, t) || hit(f, 0, -1, t) || hit(f, 0, 1, t)));
        }
    }
    squares_of(&mask)
}

/// The squares a pawn on `spot` could move to: one step ahead, two from its
/// start row, and diagonally ahead.
pub fn get_pawn_unvalidated_moves(piece: &Piece, spot: usize) -> (r: Vec<usize>)
    requires
        spot < 64,
    ensures
        forall|t: usize| r@.contains(t) <==> pawn_reach(piece.player_spec(), spot as int, t as int),
        forall|i: int, j: int| 0 <= i < j < r@.len() ==> r@[i] < r@[j],
{
    let row = spot / 8;
    let col = spot % 8;
    let player = piece.get_player();
    let (dir, start): (i8, usize) = match player {
        Player::White => (-1, 6),
        Player::Black => (1, 1),
    };
    let mut mask = [false; 64];
    mark(&mut mask, offset_square(row, col, dir, 0));
    if row == start {
        mark(&mut mask, offset_square(row, col, 2 * dir, 0));
    }
    mark(&mut mask, offset_square(row, col, dir, 1));
    mark(&mut mask, offset_square(row, col, dir, -1));
    proof {
        let f = spot as int;
        let d = pawn_dir(player) as int;
        assert forall|t: int| 0 <= t < 64 implies #[trigger] mask@[t] == pawn_reach(player, f, t) by {
            lemma_square(t);
            lemma_square(f);
            assert(mask@[t] == (hit(f, d, 0, t) || (row_of(f) == pawn_start_row(player) && hit(
                f,
                2 * d,
                0,
                t,
            )) || hit(f, d, 1, t) || hit(f, d, -1, t)));
        }
    }
    squares_of(&mask)
}

/// The squares a rook on `spot` could reach.
pub fn get_rook_unvalidated_moves(spot: usize) -> (r: Vec<usize>)
    requires
        spot < 64,
    ensures
        forall|t: usize| r@.contains(t) <==> straight_reach(spot as int, t as int),
        forall|i: int, j: int| 0 <= i < j < r@.len() ==> r@[i] < r@[j],
{
    get_unvalidated_horiz_vert_moves(spot)
}

/// The squares a bishop on `spot` could reach.
pub fn get_bishop_unvalidated_moves(spot: usize) -> (r: Vec<usize>)
    requires
        spot < 64,
    ensures
        forall|t: usize| r@.contains(t) <==> diagonal_reach(spot as int, t as int),
        forall|i: int, j: int| 0 <= i < j < r@.len() ==> r@[i] < r@[j],
{
    get_unvalidated_diag_moves(spot)
}

/// The squares a queen on `spot` could reach.
pub fn get_queen_unvalidated_moves(spot: usize) -> (r: Vec<usize>)
    requires
        spot < 64,
    ensures
        forall|t: usize|
            r@.contains(t) <==> (straight_reach(spot as int, t as int) || diagonal_reach(
                spot as int,
                t as int,
            )),
        forall|i: int, j: int| 0 <= i < j < r@.len() ==> r@[i] < r@[j],
{
    get_unvalidated_line_moves(spot)
}

pub proof fn lemma_push_contains<T>(s: Seq<T>, x: T, y: T)
    ensures
        s.push(x).contains(y) <==> (s.contains(y) || x == y),
{
    if s.contains(y) {
        let i = choose|i: int| 0 <= i < s.len() && s[i] == y;
        assert(s.push(x)[i] == y);
    }
    if x == y {
        assert(s.push(x)[s.len() as int] == y);
    }
    if s.push(x).contains(y) {
        let i = choose|i: int| 0 <= i < s.push(x).len() && s.push(x)[i] == y;
        if i < s.len() {
            assert(s[i] == y);
        }
    }
}

pub proof fn lemma_push_no_duplicates<T>(s: Seq<T>, x: T)
    requires
        s.no_duplicates(),
        !s.contains(x),
    ensures
        s.push(x).no_duplicates(),
{
    assert forall|i: int, j: int| 0 <= i < s.push(x).len() && 0 <= j < s.push(x).len() && i != j
        implies s.push(x)[i] != s.push(x)[j] by {
        if i == s.len() {
            assert(s[j] == s.push(x)[j]);
        } else if j == s.len() {
            assert(s[i] == s.push(x)[i]);
        }
    }
}

/// In a sequence without duplicates, no element occurs before its own place.
pub proof fn lemma_not_earlier<T>(s: Seq<T>, i: int)
    requires
        s.no_duplicates(),
        0 <= i < s.len(),
    ensures
        !s.subrange(0, i).contains(s[i]),
{
    if s.subrange(0, i).contains(s[i]) {
        let k = choose|k: int| 0 <= k < i && s.subrange(0, i)[k] == s[i];
        assert(s[k] == s[i]);
    }
}

/// Appends to `out` a move from `from` to each of `dests`; where `promote`
/// holds, also one move per promotion piece.
fn push_moves(out: &mut Vec<Move>, from: usize, dests: &Vec<usize>, promote: bool)
    requires
        old(out)@.no_duplicates(),
        forall|m: Move| #[trigger] old(out)@.contains(m) ==> m.from != from,
        forall|i: int, j: int| 0 <= i < j < dests@.len() ==> dests@[i] < dests@[j],
    ensures
        forall|m: Move|
            #[trigger] final(out)@.contains(m) <==> (old(out)@.contains(m) || (m.from == from
                && dests@.contains(m.to) && (m.promotion is None || promote))),
        final(out)@.no_duplicates(),
{
    let mut j: usize = 0;
    while j < dests.len()
        invariant
            j <= dests@.len(),
            out@.no_duplicates(),
            forall|m: Move| #[trigger] old(out)@.contains(m) ==> m.from != from,
            forall|i: int, k: int| 0 <= i < k < dests@.len() ==> dests@[i] < dests@[k],
            forall|m: Move|
                #[trigger] out@.contains(m) <==> (old(out)@.contains(m) || (m.from == from
                    && dests@.subrange(0, j as int).contains(m.to) && (m.promotion is None
                    || promote))),
        decreases dests@.len() - j,
    {
        let to = dests[j];
        let ghost before = out@;
        proof {
            assert forall|m: Move| #[trigger] before.contains(m) implies m.to != to || m.from != from by {
                if m.from == from && m.to == to {
                    let i = choose|i: int| 0 <= i < j && dests@.subrange(0, j as int)[i] == to;
                    assert(dests@[i] == to);
                }
            }
        }
        let ghost s0 = before.push(Move { from, to, promotion: None });
        proof {
            lemma_push_no_duplicates(before, Move { from, to, promotion: None });
        }
        out.push(Move { from, to, promotion: None });
        if promote {
            let ghost s1 = s0.push(Move { from, to, promotion: Some(Promotion::Queen) });
            let ghost s2 = s1.push(Move { from, to, promotion: Some(Promotion::Rook) });
            let ghost s3 = s2.push(Move { from, to, promotion: Some(Promotion::Knight) });
            proof {
                lemma_push_contains(before, Move { from, to, promotion: None }, Move { from, to, promotion: Some(Promotion::Queen) });
                lemma_push_no_duplicates(s0, Move { from, to, promotion: Some(Promotion::Queen) });
                lemma_push_contains(s0, Move { from, to, promotion: Some(Promotion::Queen) }, Move { from, to, promotion: Some(Promotion::Rook) });
                lemma_push_contains(before, Move { from, to, promotion: None }, Move { from, to, promotion: Some(Promotion::Rook) });
                lemma_push_no_duplicates(s1, Move { from, to, promotion: Some(Promotion::Rook) });
                lemma_push_contains(s1, Move { from, to, promotion: Some(Promotion::Rook) }, Move { from, to, promotion: Some(Promotion::Knight) });
                lemma_push_contains(s0, Move { from, to, promotion: Some(Promotion::Queen) }, Move { from, to, promotion: Some(Promotion::Knight) });
                lemma_push_contains(before, Move { from, to, promotion: None }, Move { from, to, promotion: Some(Promotion::Knight) });
                lemma_push_no_duplicates(s2, Move { from, to, promotion: Some(Promotion::Knight) });
                lemma_push_contains(s2, Move { from, to, promotion: Some(Promotion::Knight) }, Move { from, to, promotion: Some(Promotion::Bishop) });
                lemma_push_contains(s1, Move { from, to, promotion: Some(Promotion::Rook) }, Move { from, to, promotion: Some(Promotion::Bishop) });
                lemma_push_contains(s0, Move { from, to, promotion: Some(Promotion::Queen) }, Move { from, to, promotion: Some(Promotion::Bishop) });
                lemma_push_contains(before, Move { from, to, promotion: None }, Move { from, to, promotion: Some(Promotion::Bishop) });
                lemma_push_no_duplicates(s3, Move { from, to, promotion: Some(Promotion::Bishop) });
            }
            out.push(Move { from, to, promotion: Some(Promotion::Queen) });
            out.push(Move { from, to, promotion: Some(Promotion::Rook) });
            out.push(Move { from, to, promotion: Some(Promotion::Knight) });
            out.push(Move { from, to, promotion: Some(Promotion::Bishop) });
        }
        proof {
            assert(dests@.subrange(0, j + 1) == dests@.subrange(0, j as int).push(to));
            assert forall|m: Move|
                #[trigger] out@.contains(m) <==> (old(out)@.contains(m) || (m.from == from
                    && dests@.subrange(0, j + 1).contains(m.to) && (m.promotion is None
                    || promote))) by {
                lemma_push_contains(dests@.subrange(0, j as int), to, m.to);
                let s0 = before.push(Move { from, to, promotion: None });
                lemma_push_contains(before, Move { from, to, promotion: None }, m);
                if promote {
                    let s1 = s0.push(Move { from, to, promotion: Some(Promotion::Queen) });
                    let s2 = s1.push(Move { from, to, promotion: Some(Promotion::Rook) });
                    let s3 = s2.push(Move { from, to, promotion: Some(Promotion::Knight) });
                    lemma_push_contains(s0, Move { from, to, promotion: Some(Promotion::Queen) }, m);
                    lemma_push_contains(s1, Move { from, to, promotion: Some(Promotion::Rook) }, m);
                    lemma_push_contains(s2, Move { from, to, promotion: Some(Promotion::Knight) }, m);
                    lemma_push_contains(s3, Move { from, to, promotion: Some(Promotion::Bishop) }, m);
                    assert(out@ == s3.push(Move { from, to, promotion: Some(Promotion::Bishop) }));
                    if m.from == from && m.to == to && m.promotion is Some {
                        let k = m.promotion->Some_0;
                        match k {
                            Promotion::Queen => {},
                            Promotion::Rook => {},
                            Promotion::Knight => {},
                            Promotion::Bishop => {},
                        }
                    }
                }
            }
        }
        j += 1;
    }
    assert(dests@.subrange(0, j as int) == dests@);
}

impl Chess {
    /// The squares the piece on `spot` could reach, in increasing order.
    pub fn piece_destinations(&self, piece: &Piece, spot: usize) -> (r: Vec<usize>)
        requires
            spot < 64,
        ensures
            forall|t: usize| r@.contains(t) <==> pseudo_reach(*piece, spot as int, t as int),
            forall|i: int, j: int| 0 <= i < j < r@.len() ==> r@[i] < r@[j],
    {
        match piece.kind() {
            PieceKind::Pawn => get_pawn_unvalidated_moves(piece, spot),
            PieceKind::Knight => get_knight_unvalidated_moves(spot),
            PieceKind::Bishop => get_bishop_unvalidated_moves(spot),
            PieceKind::Rook => get_rook_unvalidated_moves(spot),
            PieceKind::Queen => get_queen_unvalidated_moves(spot),
            PieceKind::King => get_king_unvalidated_moves(spot),
        }
    }

    /// Every candidate move of the side to move: each of its pieces to each
    /// square the piece could reach, and for a pawn about to promote, one
    /// move per promotion piece besides.
    pub fn get_unvalidated_moves(&self) -> (r: Vec<Move>)
        requires
            self@.wf(),
        ensures
            forall|m: Move| #[trigger] r@.contains(m) <==> candidate(self@, m),
            r@.no_duplicates(),
    {
        let mut out: Vec<Move> = Vec::new();
        let mut from: usize = 0;
        while from < 64
            invariant
                from <= 64,
                self@.wf(),
                out@.no_duplicates(),
                forall|m: Move| #[trigger] out@.contains(m) <==> (candidate(self@, m) && m.from < from),
            decreases 64 - from,
        {
            let ghost before = out@;
            match self.state.st[from] {
                Some(piece) => {
                    if piece.get_player() == self.player {
                        let dests = self.piece_destinations(&piece, from);
                        let pre_promotion: usize = match self.player {
                            Player::White => 1,
                            Player::Black => 6,
                        };
                        let promote = piece.kind() == PieceKind::Pawn && from / 8 == pre_promotion;
                        push_moves(&mut out, from, &dests, promote);
                        proof {
                            assert forall|m: Move| #[trigger] out@.contains(m) <==> (candidate(self@, m) && m.from < from + 1) by {
                                if m.from == from && m.to < 64 && pseudo_reach(piece, from as int, m.to as int) {
                                    lemma_square(m.to as int);
                                    lemma_square(from as int);
                                }
                            }
                        }
                    }
                },
                None => {},
            }
            from += 1;
        }
        out
    }
}

} // verus!
