//! The operations offered to clients: legal moves of a position string, and
//! playing a move on one.
use vstd::prelude::*;
use crate::chess_errors::ChessErrors;
use crate::fen::{decode_fen, encode_fen};
use crate::game::{is_legal, play};
use crate::notation::{
    destination_label, destination_text, index_to_spot, square_label, lemma_label_round_trip,
    file_letter, rank_digit, promotion_letter, promotion_char,
    parse_move_spec,
};
use crate::pieces::{Piece, Player, Promotion};
use crate::position::{Chess, ChessView, Move};

verus! {

/// The standard start position.
pub const FEN_INITIAL_STATE: &'static str = "rnbqkbnr/pppppppp/8/8/8/8/PPPPPPPP/RNBQKBNR w KQkq - 0 1";

/// Legal moves grouped by origin: each entry holds an origin label and the
/// labels of its destinations, a promotion letter after those that promote.
pub type MoveMap = Vec<(String, Vec<String>)>;

/// `r` lists exactly the legal moves of `c`, grouped by origin square, one
/// entry per origin.
pub open spec fn is_move_map(c: ChessView, r: Seq<(String, Vec<String>)>) -> bool {
    &&& forall|i: int, k: int| 0 <= i < k < r.len() ==> r[i].0@ != r[k].0@
    &&& forall|i: int| 0 <= i < r.len() ==> is_entry_of(c, #[trigger] r[i])
    &&& forall|i: int| 0 <= i < r.len() ==> distinct_labels(#[trigger] r[i].1@)
    &&& forall|m: Move|
        #[trigger] is_legal(c, m) ==> exists|i: int, j: int|
            0 <= i < r.len() && 0 <= j < r[i].1@.len() && r[i].0@ == square_label(m.from as int)
                && #[trigger] r[i].1@[j]@ == destination_text(m.to as int, m.promotion)
}

/// No label occurs twice in `d`.
pub open spec fn distinct_labels(d: Seq<String>) -> bool {
    forall|j: int, k: int| 0 <= j < k < d.len() ==> d[j]@ != d[k]@
}

/// Different destinations, or different promotion pieces, have different labels.
pub proof fn lemma_destination_text_injective(
    t1: int,
    p1: Option<Promotion>,
    t2: int,
    p2: Option<Promotion>,
)
    requires
        0 <= t1 < 64,
        0 <= t2 < 64,
        destination_text(t1, p1) == destination_text(t2, p2),
    ensures
        t1 == t2,
        p1 == p2,
{
    lemma_label_round_trip(t1);
    lemma_label_round_trip(t2);
    let d = destination_text(t1, p1);
    assert(d.subrange(0, 2) =~= square_label(t1));
    assert(destination_text(t2, p2).subrange(0, 2) =~= square_label(t2));
    if p1 is Some && p2 is Some {
        assert(d[2] == promotion_char(p1->Some_0));
        assert(destination_text(t2, p2)[2] == promotion_char(p2->Some_0));
    }
}

/// `d` is the destination label of a legal move of `c` from `f`.
pub open spec fn is_destination_of(c: ChessView, f: int, d: Seq<char>) -> bool {
    exists|m: Move|
        #[trigger] is_legal(c, m) && m.from == f && d == destination_text(m.to as int, m.promotion)
}

/// An entry of a move map: the label of an origin square and destination
/// labels of legal moves from it.
pub open spec fn is_entry_of(c: ChessView, e: (String, Vec<String>)) -> bool {
    exists|f: int| 0 <= f < 64 && #[trigger] square_label(f) == e.0@ && lists_moves_from(c, f, e.1@)
}

/// Each of `dests` is the destination label of a legal move from `f`.
pub open spec fn lists_moves_from(c: ChessView, f: int, dests: Seq<String>) -> bool {
    forall|j: int| 0 <= j < dests.len() ==> is_destination_of(c, f, #[trigger] dests[j]@)
}

proof fn lemma_lists_moves_from(c: ChessView, f: int, dests: Seq<String>, ws: Seq<Move>)
    requires
        ws.len() == dests.len(),
        forall|j: int|
            0 <= j < ws.len() ==> is_legal(c, #[trigger] ws[j]) && ws[j].from == f && dests[j]@
                == destination_text(ws[j].to as int, ws[j].promotion),
    ensures
        lists_moves_from(c, f, dests),
{
    assert forall|j: int| 0 <= j < dests.len() implies is_destination_of(c, f, #[trigger] dests[j]@) by {
        let w = ws[j];
        assert(is_legal(c, w) && w.from == f && dests[j]@ == destination_text(w.to as int, w.promotion));
    }
}

/// `a` is the five-character form of a legal move of `c`.
pub open spec fn is_action_of(c: ChessView, a: Seq<char>) -> bool {
    exists|m: Move| #[trigger] is_legal(c, m) && a == action_chars(m)
}

/// The square of each cell of a board picture: a piece letter, or `.`.
pub open spec fn web_char(p: Option<Piece>) -> char {
    match p {
        Some(q) => crate::fen::piece_char(q.piece_type),
        None => '.',
    }
}

/// A picture of the board, row by row from rank 8, for display.
#[derive(Debug)]
pub struct WebGame {
    pub state: [[char; 8]; 8],
}

impl WebGame {
    /// The picture of a position's board.
    pub fn from_chess(chess: &Chess) -> (r: WebGame)
        ensures
            forall|row: int, col: int|
                0 <= row < 8 && 0 <= col < 8 ==> #[trigger] r.state@[row]@[col] == web_char(
                    chess@.board[row * 8 + col],
                ),
    {
        let mut state: [[char; 8]; 8] = [['.'; 8]; 8];
        let mut row: usize = 0;
        while row < 8
            invariant
                row <= 8,
                forall|r: int, col: int|
                    0 <= r < row && 0 <= col < 8 ==> #[trigger] state@[r]@[col] == web_char(
                        chess@.board[r * 8 + col],
                    ),
            decreases 8 - row,
        {
            let mut line: [char; 8] = ['.'; 8];
            let mut col: usize = 0;
            while col < 8
                invariant
                    row < 8,
                    col <= 8,
                    forall|c: int| 0 <= c < col ==> #[trigger] line@[c] == web_char(chess@.board[row * 8 + c]),
                decreases 8 - col,
            {
                line[col] = match chess.state.st[row * 8 + col] {
                    Some(p) => crate::fen::piece_letter(p.piece_type),
                    None => '.',
                };
                col += 1;
            }
            state[row] = line;
            row += 1;
        }
        WebGame { state }
    }
}

/// Groups the legal moves `legal` of `chess` by origin.
fn group_moves(chess: &Chess, legal: &Vec<Move>) -> (r: MoveMap)
    requires
        chess@.wf(),
        legal@.no_duplicates(),
        forall|m: Move| #[trigger] legal@.contains(m) <==> is_legal(chess@, m),
    ensures
        is_move_map(chess@, r@),
{
    let ghost c = chess@;
    let mut out: MoveMap = Vec::new();
    let ghost mut keys: Seq<int> = seq![];
    let ghost mut wits: Seq<Seq<Move>> = seq![];
    let mut f: usize = 0;
    while f < 64
        invariant
            c == chess@,
            f <= 64,
            legal@.no_duplicates(),
            forall|m: Move| #[trigger] legal@.contains(m) <==> is_legal(c, m),
            forall|i: int| 0 <= i < out@.len() ==> distinct_labels(#[trigger] out@[i].1@),
            keys.len() == out@.len(),
            wits.len() == out@.len(),
            forall|i: int| 0 <= i < keys.len() ==> 0 <= #[trigger] keys[i] < f,
            forall|i: int, k: int| 0 <= i < k < keys.len() ==> keys[i] < keys[k],
            forall|i: int| 0 <= i < out@.len() ==> #[trigger] out@[i].0@ == square_label(keys[i]),
            forall|i: int| 0 <= i < out@.len() ==> (#[trigger] wits[i]).len() == out@[i].1@.len(),
            forall|i: int, j: int|
                0 <= i < out@.len() && 0 <= j < out@[i].1@.len() ==> is_legal(c, #[trigger] wits[i][j])
                    && wits[i][j].from == keys[i] && out@[i].1@[j]@ == destination_text(
                    wits[i][j].to as int,
                    wits[i][j].promotion,
                ),
            forall|m: Move|
                is_legal(c, m) && m.from < f ==> exists|i: int, j: int|
                    0 <= i < wits.len() && 0 <= j < wits[i].len() && #[trigger] wits[i][j] == m,
        decreases 64 - f,
    {
        let mut dests: Vec<String> = Vec::new();
        let ghost mut srcs: Seq<Move> = seq![];
        let ghost mut idx: Seq<int> = seq![];
        let mut k: usize = 0;
        while k < legal.len()
            invariant
                c == chess@,
                f < 64,
                k <= legal@.len(),
                forall|m: Move| #[trigger] legal@.contains(m) <==> is_legal(c, m),
                srcs.len() == dests@.len(),
                legal@.no_duplicates(),
                idx.len() == srcs.len(),
                forall|j: int| 0 <= j < idx.len() ==> 0 <= #[trigger] idx[j] < k && legal@[idx[j]] == srcs[j],
                distinct_labels(dests@),
                forall|j: int|
                    0 <= j < dests@.len() ==> is_legal(c, #[trigger] srcs[j]) && srcs[j].from == f
                        && dests@[j]@ == destination_text(srcs[j].to as int, srcs[j].promotion),
                forall|q: int|
                    0 <= q < k && (#[trigger] legal@[q]).from == f ==> exists|j: int|
                        0 <= j < srcs.len() && #[trigger] srcs[j] == legal@[q],
            decreases legal@.len() - k,
        {
            let m = legal[k];
            let ghost old_srcs = srcs;
            let ghost old_idx = idx;
            let ghost old_dests = dests@;
            if m.from == f {
                assert(legal@.contains(m));
                let label = destination_label(m.to, m.promotion);
                dests.push(label);
                proof {
                    srcs = srcs.push(m);
                    idx = idx.push(k as int);
                    assert(srcs[old_srcs.len() as int] == m);
                    assert forall|j: int, l: int| 0 <= j < l < dests@.len() implies dests@[j]@
                        != dests@[l]@ by {
                        if l == old_dests.len() {
                            assert(old_idx[j] < k);
                            assert(legal@[old_idx[j]] != legal@[k as int]);
                            if dests@[j]@ == dests@[l]@ {
                                lemma_destination_text_injective(
                                    srcs[j].to as int,
                                    srcs[j].promotion,
                                    m.to as int,
                                    m.promotion,
                                );
                            }
                        } else {
                            assert(dests@[j] == old_dests[j]);
                            assert(dests@[l] == old_dests[l]);
                        }
                    }
                }
            }
            proof {
                assert forall|q: int|
                    0 <= q < k + 1 && (#[trigger] legal@[q]).from == f implies exists|j: int|
                        0 <= j < srcs.len() && #[trigger] srcs[j] == legal@[q] by {
                    if q < k {
                        let j = choose|j: int| 0 <= j < old_srcs.len() && old_srcs[j] == legal@[q];
                        assert(srcs[j] == old_srcs[j]);
                    } else {
                        assert(srcs[old_srcs.len() as int] == m);
                    }
                }
            }
            k += 1;
        }
        let ghost old_wits = wits;
        let ghost old_out = out@;
        if dests.len() > 0 {
            out.push((index_to_spot(f), dests));
            proof {
                keys = keys.push(f as int);
                wits = wits.push(srcs);
                assert forall|i: int| 0 <= i < out@.len() implies distinct_labels(
                    #[trigger] out@[i].1@,
                ) by {
                    if i < old_out.len() {
                        assert(out@[i] == old_out[i]);
                    }
                }
                assert forall|i: int| 0 <= i < out@.len() implies (#[trigger] wits[i]).len()
                    == out@[i].1@.len() by {
                    if i < old_out.len() {
                        assert(out@[i] == old_out[i]);
                    }
                }
                assert forall|i: int, j: int|
                    0 <= i < out@.len() && 0 <= j < out@[i].1@.len() implies is_legal(
                        c,
                        #[trigger] wits[i][j],
                    ) && wits[i][j].from == keys[i] && out@[i].1@[j]@ == destination_text(
                        wits[i][j].to as int,
                        wits[i][j].promotion,
                    ) by {
                    if i < old_out.len() {
                        assert(out@[i] == old_out[i]);
                        assert(wits[i] == old_wits[i]);
                    } else {
                        assert(wits[i] == srcs);
                    }
                }
            }
        }
        proof {
            assert forall|m: Move| is_legal(c, m) && m.from < f + 1 implies exists|i: int, j: int|
                0 <= i < wits.len() && 0 <= j < wits[i].len() && #[trigger] wits[i][j] == m by {
                if m.from == f {
                    assert(legal@.contains(m));
                    let q = choose|q: int| 0 <= q < legal@.len() && legal@[q] == m;
                    assert(legal@[q].from == f);
                    let j = choose|j: int| 0 <= j < srcs.len() && #[trigger] srcs[j] == legal@[q];
                    assert(wits[old_wits.len() as int] == srcs);
                    assert(wits[old_wits.len() as int][j] == m);
                } else {
                    let (i, j) = choose|i: int, j: int|
                        0 <= i < old_wits.len() && 0 <= j < old_wits[i].len() && #[trigger] old_wits[i][j] == m;
                    assert(wits[i] == old_wits[i]);
                    assert(wits[i][j] == m);
                }
            }
        }
        f += 1;
    }
    proof {
        assert forall|i: int, k: int| 0 <= i < k < out@.len() implies out@[i].0@ != out@[k].0@ by {
            lemma_label_round_trip(keys[i]);
            lemma_label_round_trip(keys[k]);
        }
        assert forall|i: int| 0 <= i < out@.len() implies is_entry_of(c, #[trigger] out@[i]) by {
            let f = keys[i];
            lemma_lists_moves_from(c, f, out@[i].1@, wits[i]);
            assert(0 <= f < 64);
            assert(square_label(f) == out@[i].0@);
            assert(lists_moves_from(c, f, out@[i].1@));
        }
        assert forall|m: Move| #[trigger] is_legal(c, m) implies exists|i: int, j: int|
            0 <= i < out@.len() && 0 <= j < out@[i].1@.len() && out@[i].0@ == square_label(
                m.from as int,
            ) && #[trigger] out@[i].1@[j]@ == destination_text(m.to as int, m.promotion) by {
            let (i, j) = choose|i: int, j: int|
                0 <= i < wits.len() && 0 <= j < wits[i].len() && #[trigger] wits[i][j] == m;
            assert(out@[i].1@[j]@ == destination_text(m.to as int, m.promotion));
        }
        assert(is_move_map(c, out@));
    }
    out
}

/// The legal moves of the position that `state` describes, grouped by origin,
/// and a picture of its board.
pub fn get_legal_moves(state: &str) -> (r: Result<(MoveMap, WebGame), ChessErrors>)
    ensures
        match decode_fen(state@) {
            Ok(c) => r matches Ok((moves, _)) && is_move_map(c, moves@),
            Err(e) => r == Err::<(MoveMap, WebGame), ChessErrors>(e),
        },
{
    let chess = Chess::from_fen(state)?;
    let legal = chess.get_legal_moves();
    let moves = group_moves(&chess, &legal);
    Ok((moves, WebGame::from_chess(&chess)))
}

/// Plays `chess_move` on the position that `state` describes. On success,
/// returns the new position string, a picture of its board and its legal
/// moves grouped by origin.
pub fn game_move_piece(state: &str, chess_move: &str) -> (r: Result<
    (String, WebGame, MoveMap),
    ChessErrors,
>)
    ensures
        match decode_fen(state@) {
            Err(e) => r == Err::<(String, WebGame, MoveMap), ChessErrors>(e),
            Ok(c) => match parse_move_spec(chess_move@) {
                Err(e) => r == Err::<(String, WebGame, MoveMap), ChessErrors>(e),
                Ok((f, t, promo)) => match play(c, f, t, promo) {
                    Err(e) => r == Err::<(String, WebGame, MoveMap), ChessErrors>(e),
                    Ok(next) => r matches Ok((fen, _, moves)) && fen@ == encode_fen(next)
                        && is_move_map(next, moves@),
                },
            },
        },
{
    let mut chess = Chess::from_fen(state)?;
    chess.move_piece(chess_move)?;
    let legal = chess.get_legal_moves();
    let moves = group_moves(&chess, &legal);
    Ok((chess.to_fen(), WebGame::from_chess(&chess), moves))
}

/// The move as five characters: origin, destination, and the promotion
/// letter or a space.
pub open spec fn action_chars(m: Move) -> Seq<char> {
    square_label(m.from as int) + square_label(m.to as int) + seq![
        match m.promotion {
            Some(k) => promotion_char(k),
            None => ' ',
        },
    ]
}

/// The legal moves of the position that `state` describes, each as five
/// characters (`e2e4 `, `e7e8q`); none when `state` cannot be read.
pub fn get_avaiable_actions(state: &str) -> (r: Vec<[char; 5]>)
    ensures
        match decode_fen(state@) {
            Err(_) => r@.len() == 0,
            Ok(c) => (forall|i: int| 0 <= i < r@.len() ==> is_action_of(c, #[trigger] r@[i]@)) && (
            forall|m: Move|
                #[trigger] is_legal(c, m) ==> exists|i: int|
                    0 <= i < r@.len() && #[trigger] r@[i]@ == action_chars(m)) && r@.no_duplicates(),
        },
{
    let chess = match Chess::from_fen(state) {
        Ok(c) => c,
        Err(_) => {
            let none: Vec<[char; 5]> = Vec::new();
            assert(none@.len() == 0);
            return none;
        },
    };
    assert(decode_fen(state@) == Ok::<ChessView, ChessErrors>(chess@));
    let legal = chess.get_legal_moves();
    let mut out: Vec<[char; 5]> = Vec::new();
    let mut k: usize = 0;
    while k < legal.len()
        invariant
            k <= legal@.len(),
            legal@.no_duplicates(),
            forall|m: Move| #[trigger] legal@.contains(m) <==> is_legal(chess@, m),
            out@.len() == k,
            forall|i: int| 0 <= i < k ==> (#[trigger] out@[i])@ == action_chars(legal@[i]),
        decreases legal@.len() - k,
    {
        let m = legal[k];
        assert(legal@.contains(m));
        let last = match m.promotion {
            Some(p) => promotion_letter(p),
            None => ' ',
        };
        let action = [
            file_letter(m.from % 8),
            rank_digit(m.from / 8),
            file_letter(m.to % 8),
            rank_digit(m.to / 8),
            last,
        ];
        assert(action@ =~= action_chars(m));
        out.push(action);
        k += 1;
    }
    proof {
        assert forall|i: int| 0 <= i < out@.len() implies is_action_of(chess@, #[trigger] out@[i]@) by {
            assert(legal@.contains(legal@[i]));
            assert(is_legal(chess@, legal@[i]));
        }
        assert forall|m: Move| #[trigger] is_legal(chess@, m) implies exists|i: int|
            0 <= i < out@.len() && #[trigger] out@[i]@ == action_chars(m) by {
            assert(legal@.contains(m));
            let i = choose|i: int| 0 <= i < legal@.len() && legal@[i] == m;
            assert(out@[i]@ == action_chars(m));
        }
        assert forall|i: int, j: int| 0 <= i < out@.len() && 0 <= j < out@.len() && i != j
            implies out@[i] != out@[j] by {
            assert(legal@.contains(legal@[i]));
            assert(legal@.contains(legal@[j]));
            if out@[i] == out@[j] {
                lemma_action_chars_injective(legal@[i], legal@[j]);
            }
        }
    }
    out
}

/// Different moves have different five-character forms.
pub proof fn lemma_action_chars_injective(m1: Move, m2: Move)
    requires
        m1.from < 64,
        m1.to < 64,
        m2.from < 64,
        m2.to < 64,
        action_chars(m1) == action_chars(m2),
    ensures
        m1 == m2,
{
    lemma_label_round_trip(m1.from as int);
    lemma_label_round_trip(m1.to as int);
    lemma_label_round_trip(m2.from as int);
    lemma_label_round_trip(m2.to as int);
    let a = action_chars(m1);
    let b = action_chars(m2);
    assert(a.subrange(0, 2) =~= square_label(m1.from as int));
    assert(b.subrange(0, 2) =~= square_label(m2.from as int));
    assert(a.subrange(2, 4) =~= square_label(m1.to as int));
    assert(b.subrange(2, 4) =~= square_label(m2.to as int));
    assert(a[4] == b[4]);
}

/// Hands out a side's available actions one at a time.
pub struct ActionIter {
    pub player: Player,
    pub available_moves: Vec<[char; 5]>,
    pub next_index: usize,
}

impl ActionIter {
    /// An iterator over `available_moves`, each paired with `player`.
    pub fn new(player: Player, available_moves: Vec<[char; 5]>) -> (r: ActionIter)
        ensures
            r.player == player,
            r.available_moves@ == available_moves@,
            r.next_index == 0,
    {
        ActionIter { player, available_moves, next_index: 0 }
    }

    /// The next action, or `None` once all have been handed out.
    pub fn next_action(&mut self) -> (r: Option<(Player, [char; 5])>)
        ensures
            final(self).player == old(self).player,
            final(self).available_moves@ == old(self).available_moves@,
            old(self).next_index < old(self).available_moves@.len() ==> r == Some(
                (old(self).player, old(self).available_moves@[old(self).next_index as int]),
            ) && final(self).next_index == old(self).next_index + 1,
            old(self).next_index >= old(self).available_moves@.len() ==> r is None
                && final(self).next_index == old(self).next_index,
    {
        if self.next_index < self.available_moves.len() {
            let a = self.available_moves[self.next_index];
            self.next_index = self.next_index + 1;
            Some((self.player, a))
        } else {
            None
        }
    }
}

} // verus!
