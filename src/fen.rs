//! The position string: six space-separated fields, the first of which lists
//! the board rank by rank.
use vstd::prelude::*;
use crate::chess_errors::ChessErrors;
use crate::geometry::{row_of, lemma_square};
use crate::movegen::lemma_push_contains;
use crate::notation::{push_char, push_spot, notation_to_index, square_label, square_of_label, lemma_label_round_trip};
use crate::pieces::{Piece, PieceType, Player};
use crate::position::{Castling, Chess, ChessState, ChessView};

verus! {

pub open spec fn piece_char(pt: PieceType) -> char {
    match pt {
        PieceType::BlackPawn => 'p',
        PieceType::BlackRook => 'r',
        PieceType::BlackKnight => 'n',
        PieceType::BlackBishop => 'b',
        PieceType::BlackQueen => 'q',
        PieceType::BlackKing => 'k',
        PieceType::WhitePawn => 'P',
        PieceType::WhiteRook => 'R',
        PieceType::WhiteKnight => 'N',
        PieceType::WhiteBishop => 'B',
        PieceType::WhiteQueen => 'Q',
        PieceType::WhiteKing => 'K',
    }
}

pub open spec fn piece_of_char(ch: char) -> Option<PieceType> {
    if ch == 'p' {
        Some(PieceType::BlackPawn)
    } else if ch == 'r' {
        Some(PieceType::BlackRook)
    } else if ch == 'n' {
        Some(PieceType::BlackKnight)
    } else if ch == 'b' {
        Some(PieceType::BlackBishop)
    } else if ch == 'q' {
        Some(PieceType::BlackQueen)
    } else if ch == 'k' {
        Some(PieceType::BlackKing)
    } else if ch == 'P' {
        Some(PieceType::WhitePawn)
    } else if ch == 'R' {
        Some(PieceType::WhiteRook)
    } else if ch == 'N' {
        Some(PieceType::WhiteKnight)
    } else if ch == 'B' {
        Some(PieceType::WhiteBishop)
    } else if ch == 'Q' {
        Some(PieceType::WhiteQueen)
    } else if ch == 'K' {
        Some(PieceType::WhiteKing)
    } else {
        None
    }
}

pub open spec fn digit_char(k: int) -> char {
    if k == 0 {
        '0'
    } else if k == 1 {
        '1'
    } else if k == 2 {
        '2'
    } else if k == 3 {
        '3'
    } else if k == 4 {
        '4'
    } else if k == 5 {
        '5'
    } else if k == 6 {
        '6'
    } else if k == 7 {
        '7'
    } else if k == 8 {
        '8'
    } else {
        '9'
    }
}

pub open spec fn digit_of(ch: char) -> Option<int> {
    if ch == '0' {
        Some(0)
    } else if ch == '1' {
        Some(1)
    } else if ch == '2' {
        Some(2)
    } else if ch == '3' {
        Some(3)
    } else if ch == '4' {
        Some(4)
    } else if ch == '5' {
        Some(5)
    } else if ch == '6' {
        Some(6)
    } else if ch == '7' {
        Some(7)
    } else if ch == '8' {
        Some(8)
    } else if ch == '9' {
        Some(9)
    } else {
        None
    }
}

pub open spec fn empties(k: int) -> Seq<Option<Piece>> {
    Seq::new(k as nat, |i: int| None)
}

/// Reads the rest `s` of a placement field, having filled `board` so far
/// and passed `slashes` rank separators. Each rank holds exactly eight
/// squares, and there are eight ranks.
pub open spec fn decode_placement_from(s: Seq<char>, board: Seq<Option<Piece>>, slashes: int) -> Option<
    Seq<Option<Piece>>,
>
    decreases s.len(),
{
    if s.len() == 0 {
        if board.len() == 64 {
            Some(board)
        } else {
            None
        }
    } else {
        let ch = s[0];
        let rest = s.drop_first();
        if ch == '/' {
            if board.len() == 8 * (slashes + 1) && slashes < 7 {
                decode_placement_from(rest, board, slashes + 1)
            } else {
                None
            }
        } else {
            match piece_of_char(ch) {
                Some(pt) => if board.len() + 1 <= 8 * (slashes + 1) {
                    decode_placement_from(rest, board.push(Some(Piece { piece_type: pt })), slashes)
                } else {
                    None
                },
                None => match digit_of(ch) {
                    Some(k) => if 1 <= k && board.len() + k <= 8 * (slashes + 1) {
                        decode_placement_from(rest, board + empties(k), slashes)
                    } else {
                        None
                    },
                    None => None,
                },
            }
        }
    }
}

/// The board a placement field describes.
pub open spec fn decode_placement(s: Seq<char>) -> Option<Seq<Option<Piece>>> {
    decode_placement_from(s, seq![], 0)
}

/// A run of `run` empty squares, written as its length.
pub open spec fn flush(run: int) -> Seq<char> {
    if run > 0 {
        seq![digit_char(run)]
    } else {
        seq![]
    }
}

/// The rank separator after square `idx`, the last of its rank.
pub open spec fn row_end(idx: int) -> Seq<char> {
    if idx < 63 {
        seq!['/']
    } else {
        seq![]
    }
}

/// The placement text of squares `idx..64`, with `run` empty squares just
/// before `idx` still to be written.
pub open spec fn encode_placement_from(b: Seq<Option<Piece>>, idx: int, run: int) -> Seq<char>
    decreases 64 - idx,
{
    if idx >= 64 || idx < 0 {
        flush(run)
    } else {
        match b[idx] {
            None => if idx % 8 == 7 {
                flush(run + 1) + row_end(idx) + encode_placement_from(b, idx + 1, 0)
            } else {
                encode_placement_from(b, idx + 1, run + 1)
            },
            Some(p) => flush(run) + seq![piece_char(p.piece_type)] + (if idx % 8 == 7 {
                row_end(idx)
            } else {
                seq![]
            }) + encode_placement_from(b, idx + 1, 0),
        }
    }
}

/// The placement field of a board.
pub open spec fn encode_placement(b: Seq<Option<Piece>>) -> Seq<char> {
    encode_placement_from(b, 0, 0)
}

pub open spec fn min_int(a: int, b: int) -> int {
    if a < b {
        a
    } else {
        b
    }
}

proof fn lemma_decode_flush(
    run: int,
    rest: Seq<char>,
    board: Seq<Option<Piece>>,
    slashes: int,
)
    requires
        0 <= run <= 8,
        board.len() + run <= 8 * (slashes + 1),
    ensures
        decode_placement_from(flush(run) + rest, board, slashes) == decode_placement_from(
            rest,
            board + empties(run),
            slashes,
        ),
{
    if run > 0 {
        let s = flush(run) + rest;
        assert(s.drop_first() =~= rest);
        assert(s[0] == digit_char(run));
    } else {
        assert(flush(run) + rest =~= rest);
        assert(board + empties(run) =~= board);
    }
}

/// Reading back what `encode_placement_from` writes gives the board.
proof fn lemma_placement_from(b: Seq<Option<Piece>>, idx: int, run: int)
    requires
        b.len() == 64,
        0 <= idx <= 64,
        0 <= run <= 8,
        idx < 64 ==> run <= idx % 8,
        idx == 64 ==> run == 0,
        forall|j: int| idx - run <= j < idx ==> b[j] is None,
    ensures
        decode_placement_from(
            encode_placement_from(b, idx, run),
            b.subrange(0, idx - run),
            min_int(idx / 8, 7),
        ) == Some(b),
    decreases 64 - idx,
{
    let prefix = b.subrange(0, idx - run);
    let slashes = min_int(idx / 8, 7);
    if idx == 64 {
        assert(prefix =~= b);
        assert(encode_placement_from(b, idx, run) =~= seq![]);
    } else {
        let next_slashes = min_int((idx + 1) / 8, 7);
        match b[idx] {
            None => {
                if idx % 8 == 7 {
                    lemma_placement_from(b, idx + 1, 0);
                    let tail = encode_placement_from(b, idx + 1, 0);
                    let filled = prefix + empties(run + 1);
                    assert(filled =~= b.subrange(0, idx + 1));
                    assert(flush(run + 1) + row_end(idx) + tail =~= flush(run + 1) + (row_end(idx)
                        + tail));
                    lemma_decode_flush(run + 1, row_end(idx) + tail, prefix, slashes);
                    assert(idx + 1 == 8 * (idx / 8 + 1));
                    if idx < 63 {
                        let s = row_end(idx) + tail;
                        assert(s.drop_first() =~= tail);
                        assert(s[0] == '/');
                        assert(decode_placement_from(s, filled, slashes) == decode_placement_from(tail, filled, slashes + 1));
                    } else {
                        assert(row_end(idx) + tail =~= tail);
                    }
                    assert(decode_placement_from(row_end(idx) + tail, filled, slashes) == Some(b));
                    assert(encode_placement_from(b, idx, run) == flush(run + 1) + row_end(idx) + tail);
                } else {
                    lemma_placement_from(b, idx + 1, run + 1);
                    assert(b.subrange(0, idx + 1 - (run + 1)) =~= prefix);
                    assert((idx + 1) / 8 == idx / 8);
                }
            },
            Some(p) => {
                lemma_placement_from(b, idx + 1, 0);
                let tail = encode_placement_from(b, idx + 1, 0);
                let sep = if idx % 8 == 7 {
                    row_end(idx)
                } else {
                    seq![]
                };
                let after = seq![piece_char(p.piece_type)] + (sep + tail);
                assert(flush(run) + seq![piece_char(p.piece_type)] + sep + tail =~= flush(run)
                    + after);
                lemma_decode_flush(run, after, prefix, slashes);
                let filled = prefix + empties(run);
                assert(filled =~= b.subrange(0, idx));
                assert(after.drop_first() =~= sep + tail);
                assert(after[0] == piece_char(p.piece_type));
                assert(piece_of_char(piece_char(p.piece_type)) == Some(p.piece_type));
                assert(filled.push(Some(Piece { piece_type: p.piece_type })) =~= b.subrange(
                    0,
                    idx + 1,
                ));
                if idx % 8 == 7 {
                    assert(idx + 1 == 8 * (idx / 8 + 1));
                } else {
                    assert((idx + 1) / 8 == idx / 8);
                }
                if idx % 8 == 7 && idx < 63 {
                    let s = sep + tail;
                    assert(s.drop_first() =~= tail);
                    assert(s[0] == '/');
                } else {
                    assert(sep + tail =~= tail);
                }
                assert(decode_placement_from(sep + tail, b.subrange(0, idx + 1), slashes) == Some(b));
            },
        }
    }
}

/// The placement field of a board reads back as that board.
pub proof fn lemma_placement_round_trip(b: Seq<Option<Piece>>)
    requires
        b.len() == 64,
    ensures
        decode_placement(encode_placement(b)) == Some(b),
{
    lemma_placement_from(b, 0, 0);
    assert(b.subrange(0, 0) =~= seq![]);
}

pub(crate) fn piece_letter(pt: PieceType) -> (r: char)
    ensures
        r == piece_char(pt),
{
    match pt {
        PieceType::BlackPawn => 'p',
        PieceType::BlackRook => 'r',
        PieceType::BlackKnight => 'n',
        PieceType::BlackBishop => 'b',
        PieceType::BlackQueen => 'q',
        PieceType::BlackKing => 'k',
        PieceType::WhitePawn => 'P',
        PieceType::WhiteRook => 'R',
        PieceType::WhiteKnight => 'N',
        PieceType::WhiteBishop => 'B',
        PieceType::WhiteQueen => 'Q',
        PieceType::WhiteKing => 'K',
    }
}

fn piece_from_letter(ch: char) -> (r: Option<PieceType>)
    ensures
        r == piece_of_char(ch),
{
    match ch {
        'p' => Some(PieceType::BlackPawn),
        'r' => Some(PieceType::BlackRook),
        'n' => Some(PieceType::BlackKnight),
        'b' => Some(PieceType::BlackBishop),
        'q' => Some(PieceType::BlackQueen),
        'k' => Some(PieceType::BlackKing),
        'P' => Some(PieceType::WhitePawn),
        'R' => Some(PieceType::WhiteRook),
        'N' => Some(PieceType::WhiteKnight),
        'B' => Some(PieceType::WhiteBishop),
        'Q' => Some(PieceType::WhiteQueen),
        'K' => Some(PieceType::WhiteKing),
        _ => None,
    }
}

fn digit_letter(k: usize) -> (r: char)
    requires
        k <= 9,
    ensures
        r == digit_char(k as int),
{
    match k {
        0 => '0',
        1 => '1',
        2 => '2',
        3 => '3',
        4 => '4',
        5 => '5',
        6 => '6',
        7 => '7',
        8 => '8',
        _ => '9',
    }
}

fn digit_value(ch: char) -> (r: Option<usize>)
    ensures
        match digit_of(ch) {
            Some(k) => r == Some(k as usize),
            None => r is None,
        },
        r matches Some(k) ==> k <= 9,
{
    match ch {
        '0' => Some(0),
        '1' => Some(1),
        '2' => Some(2),
        '3' => Some(3),
        '4' => Some(4),
        '5' => Some(5),
        '6' => Some(6),
        '7' => Some(7),
        '8' => Some(8),
        '9' => Some(9),
        _ => None,
    }
}

/// Writes the placement field of `board`: one letter per piece, the length
/// of each run of empty squares, and `/` between ranks.
pub fn encode_board(board: &[Option<Piece>; 64]) -> (r: String)
    ensures
        r@ == encode_placement(board@),
{
    let ghost b = board@;
    let mut out = String::new();
    let mut run: usize = 0;
    let mut idx: usize = 0;
    while idx < 64
        invariant
            b == board@,
            idx <= 64,
            run <= 8,
            idx < 64 ==> run <= idx % 8,
            idx == 64 ==> run == 0,
            out@ + encode_placement_from(b, idx as int, run as int) == encode_placement(b),
        decreases 64 - idx,
    {
        let ghost before = out@;
        match board[idx] {
            None => {
                if idx % 8 == 7 {
                    push_char(&mut out, digit_letter(run + 1));
                    if idx < 63 {
                        push_char(&mut out, '/');
                    }
                    proof {
                        assert(before + encode_placement_from(b, idx as int, run as int) =~= out@
                            + encode_placement_from(b, idx + 1, 0));
                    }
                    run = 0;
                } else {
                    run += 1;
                }
            },
            Some(p) => {
                if run > 0 {
                    push_char(&mut out, digit_letter(run));
                }
                push_char(&mut out, piece_letter(p.piece_type));
                if idx % 8 == 7 && idx < 63 {
                    push_char(&mut out, '/');
                }
                proof {
                    assert(before + encode_placement_from(b, idx as int, run as int) =~= out@
                        + encode_placement_from(b, idx + 1, 0));
                }
                run = 0;
            },
        }
        idx += 1;
    }
    proof {
        assert(encode_placement_from(b, 64, 0) =~= seq![]);
        assert(out@ =~= out@ + encode_placement_from(b, 64, 0));
    }
    out
}

/// Reads a placement field into a board.
pub fn decode_board(s: &str) -> (r: Option<[Option<Piece>; 64]>)
    ensures
        match decode_placement(s@) {
            Some(b) => r matches Some(a) && a@ == b,
            None => r is None,
        },
{
    let n = s.unicode_len();
    let mut board: [Option<Piece>; 64] = [None; 64];
    let mut filled: usize = 0;
    let mut slashes: usize = 0;
    let mut i: usize = 0;
    assert(s@.subrange(0, n as int) =~= s@);
    assert(board@.subrange(0, 0) =~= seq![]);
    while i < n
        invariant
            n == s@.len(),
            i <= n,
            slashes <= 7,
            filled <= 8 * (slashes + 1),
            forall|j: int| filled <= j < 64 ==> board@[j] is None,
            decode_placement(s@) == decode_placement_from(
                s@.subrange(i as int, n as int),
                board@.subrange(0, filled as int),
                slashes as int,
            ),
        decreases n - i,
    {
        let ch = s.get_char(i);
        let ghost rest = s@.subrange(i as int, n as int);
        let ghost prefix = board@.subrange(0, filled as int);
        proof {
            assert(rest.drop_first() =~= s@.subrange(i + 1, n as int));
            assert(rest[0] == ch);
        }
        if ch == '/' {
            if filled == 8 * (slashes + 1) && slashes < 7 {
                slashes += 1;
            } else {
                return None;
            }
        } else {
            match piece_from_letter(ch) {
                Some(pt) => {
                    if filled + 1 <= 8 * (slashes + 1) {
                        board[filled] = Some(Piece { piece_type: pt });
                        filled += 1;
                        assert(board@.subrange(0, filled as int) =~= prefix.push(
                            Some(Piece { piece_type: pt }),
                        ));
                    } else {
                        return None;
                    }
                },
                None => match digit_value(ch) {
                    Some(k) => {
                        if 1 <= k && filled + k <= 8 * (slashes + 1) {
                            filled += k;
                            assert(board@.subrange(0, filled as int) =~= prefix + empties(k as int));
                        } else {
                            return None;
                        }
                    },
                    None => {
                        return None;
                    },
                },
            }
        }
        i += 1;
    }
    if filled == 64 {
        assert(board@.subrange(0, 64) =~= board@);
        Some(board)
    } else {
        None
    }
}

/// The fields of a position string, split at each space.
pub open spec fn split_from(s: Seq<char>, cur: Seq<char>, done: Seq<Seq<char>>) -> Seq<Seq<char>>
    decreases s.len(),
{
    if s.len() == 0 {
        done.push(cur)
    } else if s[0] == ' ' {
        split_from(s.drop_first(), seq![], done.push(cur))
    } else {
        split_from(s.drop_first(), cur.push(s[0]), done)
    }
}

pub open spec fn split_fields(s: Seq<char>) -> Seq<Seq<char>> {
    split_from(s, seq![], seq![])
}

/// Fields joined with one space between each two.
pub open spec fn join_fields(fs: Seq<Seq<char>>) -> Seq<char>
    decreases fs.len(),
{
    if fs.len() == 0 {
        seq![]
    } else if fs.len() == 1 {
        fs[0]
    } else {
        fs[0] + seq![' '] + join_fields(fs.drop_first())
    }
}

pub open spec fn no_space(f: Seq<char>) -> bool {
    forall|i: int| 0 <= i < f.len() ==> f[i] != ' '
}

proof fn lemma_split_word(a: Seq<char>, rest: Seq<char>, cur: Seq<char>, done: Seq<Seq<char>>)
    requires
        no_space(a),
    ensures
        split_from(a + rest, cur, done) == split_from(rest, cur + a, done),
    decreases a.len(),
{
    if a.len() == 0 {
        assert(a + rest =~= rest);
        assert(cur + a =~= cur);
    } else {
        let s = a + rest;
        assert(s[0] == a[0]);
        assert(s.drop_first() =~= a.drop_first() + rest);
        lemma_split_word(a.drop_first(), rest, cur.push(a[0]), done);
        assert(cur.push(a[0]) + a.drop_first() =~= cur + a);
    }
}

proof fn lemma_split_join(fs: Seq<Seq<char>>, cur: Seq<char>, done: Seq<Seq<char>>)
    requires
        fs.len() >= 1,
        forall|k: int| 0 <= k < fs.len() ==> no_space(#[trigger] fs[k]),
    ensures
        split_from(join_fields(fs), cur, done) == done.push(cur + fs[0]) + fs.drop_first(),
    decreases fs.len(),
{
    if fs.len() == 1 {
        lemma_split_word(fs[0], seq![], cur, done);
        assert(fs[0] + seq![] =~= fs[0]);
        assert(done.push(cur + fs[0]) + fs.drop_first() =~= done.push(cur + fs[0]));
    } else {
        let rest = join_fields(fs.drop_first());
        assert(join_fields(fs) =~= fs[0] + (seq![' '] + rest));
        lemma_split_word(fs[0], seq![' '] + rest, cur, done);
        let s = seq![' '] + rest;
        assert(s.drop_first() =~= rest);
        lemma_split_join(fs.drop_first(), seq![], done.push(cur + fs[0]));
        assert(seq![] + fs.drop_first()[0] =~= fs[1]);
        assert(done.push(cur + fs[0]).push(fs[1]) + fs.drop_first().drop_first() =~= done.push(
            cur + fs[0],
        ) + fs.drop_first());
    }
}

/// Splitting joined fields gives the fields back.
pub proof fn lemma_split_join_fields(fs: Seq<Seq<char>>)
    requires
        fs.len() >= 1,
        forall|k: int| 0 <= k < fs.len() ==> no_space(#[trigger] fs[k]),
    ensures
        split_fields(join_fields(fs)) == fs,
{
    lemma_split_join(fs, seq![], seq![]);
    assert(seq![] + fs[0] =~= fs[0]);
    assert(Seq::<Seq<char>>::empty().push(fs[0]) + fs.drop_first() =~= fs);
}

pub open spec fn all_digits(f: Seq<char>) -> bool {
    forall|i: int| 0 <= i < f.len() ==> digit_of(#[trigger] f[i]) is Some
}

/// The value of a string of decimal digits.
pub open spec fn digits_value(f: Seq<char>) -> int
    decreases f.len(),
{
    if f.len() == 0 {
        0
    } else {
        digits_value(f.drop_last()) * 10 + match digit_of(f.last()) {
            Some(d) => d,
            None => 0,
        }
    }
}

/// A counter field: one or more digits, with a value up to `max`.
pub open spec fn decode_number(f: Seq<char>, max: int) -> Option<int> {
    if f.len() >= 1 && all_digits(f) && digits_value(f) <= max {
        Some(digits_value(f))
    } else {
        None
    }
}

/// The decimal digits of `n`.
pub open spec fn to_decimal(n: nat) -> Seq<char>
    decreases n,
{
    if n < 10 {
        seq![digit_char(n as int)]
    } else {
        to_decimal(n / 10).push(digit_char((n % 10) as int))
    }
}

proof fn lemma_to_decimal(n: nat)
    ensures
        to_decimal(n).len() >= 1,
        all_digits(to_decimal(n)),
        no_space(to_decimal(n)),
        digits_value(to_decimal(n)) == n,
    decreases n,
{
    let d = (n % 10) as int;
    assert(0 <= d < 10);
    assert(digit_of(digit_char(d)) == Some(d));
    if n < 10 {
        assert(to_decimal(n).drop_last() =~= seq![]);
        assert(to_decimal(n).last() == digit_char(d));
        assert(digits_value(Seq::<char>::empty()) == 0);
        assert(digits_value(to_decimal(n)) == digits_value(to_decimal(n).drop_last()) * 10 + d);
    } else {
        lemma_to_decimal(n / 10);
        assert(to_decimal(n).drop_last() =~= to_decimal(n / 10));
        assert(to_decimal(n).last() == digit_char(d));
        assert(n == (n / 10) * 10 + d);
        assert(digits_value(to_decimal(n)) == digits_value(to_decimal(n).drop_last()) * 10 + d);
    }
}

/// The counter field of `n` reads back as `n`.
pub proof fn lemma_number_round_trip(n: nat, max: int)
    requires
        n <= max,
    ensures
        decode_number(to_decimal(n), max) == Some(n as int),
{
    lemma_to_decimal(n);
}

proof fn lemma_digits_nonneg(f: Seq<char>)
    ensures
        digits_value(f) >= 0,
    decreases f.len(),
{
    if f.len() > 0 {
        lemma_digits_nonneg(f.drop_last());
    }
}

proof fn lemma_digits_monotone(f: Seq<char>, i: int)
    requires
        0 <= i <= f.len(),
        all_digits(f),
    ensures
        digits_value(f.subrange(0, i)) <= digits_value(f),
    decreases f.len() - i,
{
    if i < f.len() {
        lemma_digits_monotone(f, i + 1);
        lemma_digits_nonneg(f.subrange(0, i));
        assert(f.subrange(0, i + 1).drop_last() =~= f.subrange(0, i));
        assert(digit_of(f[i]) is Some);
    } else {
        assert(f.subrange(0, i) =~= f);
    }
}

/// Reads a counter field; `None` unless it is one or more digits with a
/// value up to `max`.
pub fn parse_number(s: &str, max: u32) -> (r: Option<u32>)
    requires
        max <= 65535,
    ensures
        match decode_number(s@, max as int) {
            Some(v) => r == Some(v as u32) && 0 <= v <= max,
            None => r is None,
        },
{
    let n = s.unicode_len();
    if n == 0 {
        return None;
    }
    let mut value: u32 = 0;
    let mut i: usize = 0;
    assert(s@.subrange(0, 0) =~= seq![]);
    while i < n
        invariant
            n == s@.len(),
            i <= n,
            value <= max,
            max <= 65535,
            all_digits(s@.subrange(0, i as int)),
            value == digits_value(s@.subrange(0, i as int)),
        decreases n - i,
    {
        let ghost prefix = s@.subrange(0, i as int);
        let ghost next = s@.subrange(0, i + 1);
        assert(next.drop_last() =~= prefix);
        match digit_value(s.get_char(i)) {
            Some(d) => {
                let v = value * 10 + d as u32;
                assert(all_digits(next)) by {
                    assert forall|j: int| 0 <= j < next.len() implies digit_of(#[trigger] next[j]) is Some by {
                        if j < i {
                            assert(next[j] == prefix[j]);
                        }
                    }
                }
                if v > max {
                    proof {
                        if all_digits(s@) {
                            lemma_digits_monotone(s@, i + 1);
                        }
                    }
                    return None;
                }
                value = v;
            },
            None => {
                assert(!all_digits(s@)) by {
                    assert(s@[i as int] == next[i as int]);
                }
                return None;
            },
        }
        i += 1;
    }
    assert(s@.subrange(0, n as int) =~= s@);
    proof {
        lemma_digits_nonneg(s@);
    }
    Some(value)
}

/// Appends the decimal digits of `n` to `out`.
pub fn push_decimal(out: &mut String, n: u32)
    ensures
        final(out)@ == old(out)@ + to_decimal(n as nat),
    decreases n,
{
    if n >= 10 {
        push_decimal(out, n / 10);
    }
    push_char(out, digit_letter((n % 10) as usize));
    proof {
        if n < 10 {
            assert(final(out)@ =~= old(out)@ + to_decimal(n as nat));
        } else {
            assert(final(out)@ =~= old(out)@ + to_decimal(n as nat));
        }
    }
}

pub open spec fn side_char(p: Player) -> char {
    match p {
        Player::White => 'w',
        Player::Black => 'b',
    }
}

pub open spec fn decode_side(ch: char) -> Option<Player> {
    if ch == 'w' {
        Some(Player::White)
    } else if ch == 'b' {
        Some(Player::Black)
    } else {
        None
    }
}

pub open spec fn no_castling() -> Castling {
    Castling {
        white_king_side: false,
        white_queen_side: false,
        black_king_side: false,
        black_queen_side: false,
    }
}

pub open spec fn flag_text(on: bool, ch: char) -> Seq<char> {
    if on {
        seq![ch]
    } else {
        seq![]
    }
}

/// The castling field: the letters of the rights kept, in the order `KQkq`,
/// or `-` when none is.
pub open spec fn castling_text(cs: Castling) -> Seq<char> {
    if cs == no_castling() {
        seq!['-']
    } else {
        flag_text(cs.white_king_side, 'K') + flag_text(cs.white_queen_side, 'Q') + flag_text(
            cs.black_king_side,
            'k',
        ) + flag_text(cs.black_queen_side, 'q')
    }
}

pub open spec fn is_castling_char(ch: char) -> bool {
    ch == 'K' || ch == 'Q' || ch == 'k' || ch == 'q'
}

/// The rights a castling field names.
pub open spec fn decode_castling(f: Seq<char>) -> Option<Castling> {
    if f == seq!['-'] {
        Some(no_castling())
    } else if f.len() >= 1 && forall|i: int| 0 <= i < f.len() ==> is_castling_char(#[trigger] f[i]) {
        Some(
            Castling {
                white_king_side: f.contains('K'),
                white_queen_side: f.contains('Q'),
                black_king_side: f.contains('k'),
                black_queen_side: f.contains('q'),
            },
        )
    } else {
        None
    }
}

/// The en-passant field: a square on the third or sixth rank, or `-`.
pub open spec fn decode_ep(f: Seq<char>) -> Option<Option<usize>> {
    if f == seq!['-'] {
        Some(None)
    } else {
        match square_of_label(f) {
            Some(s) => if row_of(s) == 2 || row_of(s) == 5 {
                Some(Some(s as usize))
            } else {
                None
            },
            None => None,
        }
    }
}

pub open spec fn ep_text(ep: Option<usize>) -> Seq<char> {
    match ep {
        Some(s) => square_label(s as int),
        None => seq!['-'],
    }
}

/// The six fields of a position string, each read as far as it can be
/// without the others.
#[derive(Debug)]
pub struct FenRecord {
    pub piece_placement_data: String,
    pub player: char,
    pub castling: String,
    pub en_passant_target: String,
    pub halfmove_clock: u8,
    pub full_move_number: u16,
}

pub struct FenFields {
    pub placement: Seq<char>,
    pub player: char,
    pub castling: Seq<char>,
    pub en_passant: Seq<char>,
    pub halfmove_clock: u8,
    pub full_move_number: u16,
}

impl View for FenRecord {
    type V = FenFields;

    open spec fn view(&self) -> FenFields {
        FenFields {
            placement: self.piece_placement_data@,
            player: self.player,
            castling: self.castling@,
            en_passant: self.en_passant_target@,
            halfmove_clock: self.halfmove_clock,
            full_move_number: self.full_move_number,
        }
    }
}

pub open spec fn record_fields(r: FenFields) -> Seq<Seq<char>> {
    seq![
        r.placement,
        seq![r.player],
        r.castling,
        r.en_passant,
        to_decimal(r.halfmove_clock as nat),
        to_decimal(r.full_move_number as nat),
    ]
}

/// The text of a record: its six fields separated by spaces.
pub open spec fn record_text(r: FenFields) -> Seq<char> {
    join_fields(record_fields(r))
}

/// Splits a position string into its six fields and reads the counters.
pub open spec fn parse_record(s: Seq<char>) -> Result<FenFields, ChessErrors> {
    let fs = split_fields(s);
    if fs.len() != 6 || fs[1].len() != 1 {
        Err(ChessErrors::InvalidNotation)
    } else {
        match (decode_number(fs[4], 255), decode_number(fs[5], 65535)) {
            (Some(h), Some(m)) => Ok(
                FenFields {
                    placement: fs[0],
                    player: fs[1][0],
                    castling: fs[2],
                    en_passant: fs[3],
                    halfmove_clock: h as u8,
                    full_move_number: m as u16,
                },
            ),
            _ => Err(ChessErrors::InvalidNotation),
        }
    }
}

/// The position a record describes.
pub open spec fn record_to_chess(r: FenFields) -> Result<ChessView, ChessErrors> {
    match (
        decode_placement(r.placement),
        decode_side(r.player),
        decode_castling(r.castling),
        decode_ep(r.en_passant),
    ) {
        (Some(b), Some(p), Some(cs), Some(ep)) => Ok(
            ChessView {
                board: b,
                player: p,
                castling: cs,
                halfmove_clock: r.halfmove_clock,
                full_move_number: r.full_move_number,
                en_passant_target: ep,
            },
        ),
        _ => Err(ChessErrors::InvalidNotation),
    }
}

/// The record of a position.
pub open spec fn chess_to_record(c: ChessView) -> FenFields {
    FenFields {
        placement: encode_placement(c.board),
        player: side_char(c.player),
        castling: castling_text(c.castling),
        en_passant: ep_text(c.en_passant_target),
        halfmove_clock: c.halfmove_clock,
        full_move_number: c.full_move_number,
    }
}

/// The position a position string describes.
pub open spec fn decode_fen(s: Seq<char>) -> Result<ChessView, ChessErrors> {
    match parse_record(s) {
        Ok(r) => record_to_chess(r),
        Err(e) => Err(e),
    }
}

/// The position string of a position.
pub open spec fn encode_fen(c: ChessView) -> Seq<char> {
    record_text(chess_to_record(c))
}

proof fn lemma_placement_no_space(b: Seq<Option<Piece>>, idx: int, run: int)
    ensures
        no_space(encode_placement_from(b, idx, run)),
    decreases 64 - idx,
{
    if idx >= 0 && idx < 64 {
        match b[idx] {
            None => if idx % 8 == 7 {
                lemma_placement_no_space(b, idx + 1, 0);
            } else {
                lemma_placement_no_space(b, idx + 1, run + 1);
            },
            Some(p) => {
                lemma_placement_no_space(b, idx + 1, 0);
            },
        }
    }
}

proof fn lemma_castling_round_trip(cs: Castling)
    ensures
        decode_castling(castling_text(cs)) == Some(cs),
        no_space(castling_text(cs)),
{
    let f = castling_text(cs);
    if cs != no_castling() {
        let a = flag_text(cs.white_king_side, 'K');
        let b = flag_text(cs.white_queen_side, 'Q');
        let c = flag_text(cs.black_king_side, 'k');
        let d = flag_text(cs.black_queen_side, 'q');
        assert(f.len() >= 1);
        assert(forall|i: int| 0 <= i < f.len() ==> (f[i] == 'K' && cs.white_king_side) || (f[i]
            == 'Q' && cs.white_queen_side) || (f[i] == 'k' && cs.black_king_side) || (f[i] == 'q'
            && cs.black_queen_side));
        if cs.white_king_side {
            assert(f[0] == 'K');
        }
        if cs.white_queen_side {
            assert(f[a.len() as int] == 'Q');
        }
        if cs.black_king_side {
            assert(f[(a.len() + b.len()) as int] == 'k');
        }
        if cs.black_queen_side {
            assert(f[(a.len() + b.len() + c.len()) as int] == 'q');
        }
        assert(f != seq!['-']) by {
            assert(f[0] != '-');
        }
    }
}

proof fn lemma_ep_round_trip(ep: Option<usize>)
    requires
        ep matches Some(e) ==> e < 64 && (row_of(e as int) == 2 || row_of(e as int) == 5),
    ensures
        decode_ep(ep_text(ep)) == Some(ep),
        no_space(ep_text(ep)),
{
    if let Some(e) = ep {
        lemma_label_round_trip(e as int);
        lemma_square(e as int);
        assert(ep_text(ep) != seq!['-']) by {
            assert(ep_text(ep).len() == 2);
        }
    }
}

/// A position string read back gives the position it was written from.
pub proof fn lemma_fen_round_trip(c: ChessView)
    requires
        c.wf(),
    ensures
        decode_fen(encode_fen(c)) == Ok::<ChessView, ChessErrors>(c),
{
    let r = chess_to_record(c);
    let fs = record_fields(r);
    lemma_placement_no_space(c.board, 0, 0);
    lemma_castling_round_trip(c.castling);
    lemma_ep_round_trip(c.en_passant_target);
    lemma_to_decimal(c.halfmove_clock as nat);
    lemma_to_decimal(c.full_move_number as nat);
    assert(no_space(seq![side_char(c.player)]));
    assert forall|k: int| 0 <= k < fs.len() implies no_space(#[trigger] fs[k]) by {}
    lemma_split_join_fields(fs);
    lemma_number_round_trip(c.halfmove_clock as nat, 255);
    lemma_number_round_trip(c.full_move_number as nat, 65535);
    lemma_placement_round_trip(c.board);
}

proof fn lemma_join_six(fs: Seq<Seq<char>>)
    requires
        fs.len() == 6,
    ensures
        join_fields(fs) == fs[0] + seq![' '] + fs[1] + seq![' '] + fs[2] + seq![' '] + fs[3] + seq![' ']
            + fs[4] + seq![' '] + fs[5],
{
    let d1 = fs.drop_first();
    let d2 = d1.drop_first();
    let d3 = d2.drop_first();
    let d4 = d3.drop_first();
    let d5 = d4.drop_first();
    assert(d5 =~= seq![fs[5]]);
    assert(join_fields(d5) == fs[5]);
    assert(join_fields(d4) == fs[4] + seq![' '] + fs[5]);
    assert(join_fields(d3) == fs[3] + seq![' '] + (fs[4] + seq![' '] + fs[5]));
    assert(join_fields(d2) == fs[2] + seq![' '] + (fs[3] + seq![' '] + (fs[4] + seq![' '] + fs[5])));
    assert(join_fields(d1) == fs[1] + seq![' '] + (fs[2] + seq![' '] + (fs[3] + seq![' '] + (fs[4]
        + seq![' '] + fs[5]))));
    assert(join_fields(fs) == fs[0] + seq![' '] + (fs[1] + seq![' '] + (fs[2] + seq![' '] + (fs[3]
        + seq![' '] + (fs[4] + seq![' '] + fs[5])))));
    assert(fs[0] + seq![' '] + (fs[1] + seq![' '] + (fs[2] + seq![' '] + (fs[3] + seq![' '] + (fs[4]
        + seq![' '] + fs[5])))) =~= fs[0] + seq![' '] + fs[1] + seq![' '] + fs[2] + seq![' '] + fs[3]
        + seq![' '] + fs[4] + seq![' '] + fs[5]);
}

pub open spec fn views(v: Seq<String>) -> Seq<Seq<char>> {
    v.map_values(|x: String| x@)
}

/// Splits a position string at each space.
pub fn split_fields_exec(s: &str) -> (r: Vec<String>)
    ensures
        views(r@) == split_fields(s@),
{
    let n = s.unicode_len();
    let mut out: Vec<String> = Vec::new();
    let mut start: usize = 0;
    let mut i: usize = 0;
    assert(s@.subrange(0, n as int) =~= s@);
    assert(s@.subrange(0, 0) =~= seq![]);
    assert(views(out@) =~= seq![]);
    while i < n
        invariant
            n == s@.len(),
            start <= i <= n,
            split_fields(s@) == split_from(
                s@.subrange(i as int, n as int),
                s@.subrange(start as int, i as int),
                views(out@),
            ),
        decreases n - i,
    {
        let ghost rest = s@.subrange(i as int, n as int);
        assert(rest.drop_first() =~= s@.subrange(i + 1, n as int));
        let ch = s.get_char(i);
        assert(rest[0] == ch);
        if ch == ' ' {
            let field = String::from_str(s.substring_char(start, i));
            let ghost old_out = out@;
            out.push(field);
            assert(views(out@) =~= views(old_out).push(s@.subrange(start as int, i as int)));
            start = i + 1;
            assert(s@.subrange(start as int, i + 1) =~= seq![]);
        } else {
            assert(s@.subrange(start as int, i + 1) =~= s@.subrange(start as int, i as int).push(ch));
        }
        i += 1;
    }
    let field = String::from_str(s.substring_char(start, n));
    let ghost old_out = out@;
    out.push(field);
    assert(views(out@) =~= views(old_out).push(s@.subrange(start as int, n as int)));
    out
}

impl FenRecord {
    /// Splits a position string into its six fields and reads the two counters.
    pub fn from_fen_str(fen: &str) -> (r: Result<FenRecord, ChessErrors>)
        ensures
            match parse_record(fen@) {
                Ok(rec) => r matches Ok(x) && x@ == rec,
                Err(e) => r == Err::<FenRecord, ChessErrors>(e),
            },
    {
        let fields = split_fields_exec(fen);
        proof {
            assert(views(fields@).len() == fields@.len());
        }
        if fields.len() != 6 {
            return Err(ChessErrors::InvalidNotation);
        }
        proof {
            assert forall|k: int| 0 <= k < 6 implies #[trigger] fields@[k]@ == split_fields(fen@)[k] by {
                assert(views(fields@)[k] == fields@[k]@);
            }
        }
        if fields[1].as_str().unicode_len() != 1 {
            return Err(ChessErrors::InvalidNotation);
        }
        let player = fields[1].as_str().get_char(0);
        let half_text = fields[4].as_str();
        let full_text = fields[5].as_str();
        let halfmove = parse_number(half_text, 255);
        let fullmove = parse_number(full_text, 65535);
        proof {
            let fs = split_fields(fen@);
            assert(fields@[1]@ == fs[1]);
            assert(fields@[4]@ == fs[4]);
            assert(fields@[5]@ == fs[5]);
        }
        match (halfmove, fullmove) {
            (Some(h), Some(m)) => {
                let rec = FenRecord {
                    piece_placement_data: fields[0].clone(),
                    player,
                    castling: fields[2].clone(),
                    en_passant_target: fields[3].clone(),
                    halfmove_clock: h as u8,
                    full_move_number: m as u16,
                };
                Ok(rec)
            },
            _ => Err(ChessErrors::InvalidNotation),
        }
    }

    /// The record of a position.
    pub fn from_chess(chess: &Chess) -> (r: FenRecord)
        requires
            chess@.wf(),
        ensures
            r@ == chess_to_record(chess@),
    {
        let player = match chess.player {
            Player::White => 'w',
            Player::Black => 'b',
        };
        let mut castling = String::new();
        let cs = chess.castling;
        if !cs.white_king_side && !cs.white_queen_side && !cs.black_king_side
            && !cs.black_queen_side {
            push_char(&mut castling, '-');
        } else {
            if cs.white_king_side {
                push_char(&mut castling, 'K');
            }
            if cs.white_queen_side {
                push_char(&mut castling, 'Q');
            }
            if cs.black_king_side {
                push_char(&mut castling, 'k');
            }
            if cs.black_queen_side {
                push_char(&mut castling, 'q');
            }
        }
        assert(castling@ =~= castling_text(cs));
        let mut en_passant = String::new();
        match chess.en_passant_target {
            Some(e) => push_spot(&mut en_passant, e),
            None => push_char(&mut en_passant, '-'),
        }
        assert(en_passant@ =~= ep_text(chess.en_passant_target));
        FenRecord {
            piece_placement_data: encode_board(&chess.state.st),
            player,
            castling,
            en_passant_target: en_passant,
            halfmove_clock: chess.halfmove_clock,
            full_move_number: chess.full_move_number,
        }
    }

    /// The position string: the six fields separated by spaces.
    pub fn to_fen_string(&self) -> (r: String)
        ensures
            r@ == record_text(self@),
    {
        let mut out = self.piece_placement_data.clone();
        push_char(&mut out, ' ');
        push_char(&mut out, self.player);
        push_char(&mut out, ' ');
        out.append(self.castling.as_str());
        push_char(&mut out, ' ');
        out.append(self.en_passant_target.as_str());
        push_char(&mut out, ' ');
        push_decimal(&mut out, self.halfmove_clock as u32);
        push_char(&mut out, ' ');
        push_decimal(&mut out, self.full_move_number as u32);
        proof {
            lemma_join_six(record_fields(self@));
            assert(out@ =~= record_text(self@));
        }
        out
    }
}

fn decode_castling_exec(f: &str) -> (r: Option<Castling>)
    ensures
        r == decode_castling(f@),
{
    let n = f.unicode_len();
    if n == 1 && f.get_char(0) == '-' {
        assert(f@ =~= seq!['-']);
        return Some(
            Castling {
                white_king_side: false,
                white_queen_side: false,
                black_king_side: false,
                black_queen_side: false,
            },
        );
    }
    if n == 0 {
        return None;
    }
    assert(f@ != seq!['-']) by {
        if f@ == seq!['-'] {
            assert(f@[0] == '-');
        }
    }
    let mut cs = Castling {
        white_king_side: false,
        white_queen_side: false,
        black_king_side: false,
        black_queen_side: false,
    };
    let mut i: usize = 0;
    assert(f@.subrange(0, 0) =~= seq![]);
    while i < n
        invariant
            n == f@.len(),
            i <= n,
            n >= 1,
            f@ != seq!['-'],
            forall|j: int| 0 <= j < i ==> is_castling_char(#[trigger] f@[j]),
            cs.white_king_side == f@.subrange(0, i as int).contains('K'),
            cs.white_queen_side == f@.subrange(0, i as int).contains('Q'),
            cs.black_king_side == f@.subrange(0, i as int).contains('k'),
            cs.black_queen_side == f@.subrange(0, i as int).contains('q'),
        decreases n - i,
    {
        let ch = f.get_char(i);
        let ghost prefix = f@.subrange(0, i as int);
        assert(f@.subrange(0, i + 1) =~= prefix.push(ch));
        proof {
            lemma_push_contains(prefix, ch, 'K');
            lemma_push_contains(prefix, ch, 'Q');
            lemma_push_contains(prefix, ch, 'k');
            lemma_push_contains(prefix, ch, 'q');
        }
        match ch {
            'K' => {
                cs.white_king_side = true;
            },
            'Q' => {
                cs.white_queen_side = true;
            },
            'k' => {
                cs.black_king_side = true;
            },
            'q' => {
                cs.black_queen_side = true;
            },
            _ => {
                assert(!is_castling_char(f@[i as int]));
                return None;
            },
        }
        i += 1;
    }
    assert(f@.subrange(0, n as int) =~= f@);
    Some(cs)
}

fn decode_ep_exec(f: &str) -> (r: Option<Option<usize>>)
    ensures
        r == decode_ep(f@),
{
    if f.unicode_len() == 1 && f.get_char(0) == '-' {
        assert(f@ =~= seq!['-']);
        return Some(None);
    }
    assert(f@ != seq!['-']) by {
        if f@ == seq!['-'] {
            assert(f@[0] == '-');
        }
    }
    match notation_to_index(f) {
        Ok(s) => {
            if s / 8 == 2 || s / 8 == 5 {
                Some(Some(s))
            } else {
                None
            }
        },
        Err(_) => None,
    }
}

impl Chess {
    /// The position a record describes.
    pub fn from_record(record: &FenRecord) -> (r: Result<Chess, ChessErrors>)
        ensures
            match record_to_chess(record@) {
                Ok(c) => r matches Ok(x) && x@ == c,
                Err(e) => r == Err::<Chess, ChessErrors>(e),
            },
    {
        let board = decode_board(record.piece_placement_data.as_str());
        let player = match record.player {
            'w' => Some(Player::White),
            'b' => Some(Player::Black),
            _ => None,
        };
        let castling = decode_castling_exec(record.castling.as_str());
        let en_passant = decode_ep_exec(record.en_passant_target.as_str());
        match (board, player, castling, en_passant) {
            (Some(st), Some(player), Some(castling), Some(en_passant_target)) => Ok(
                Chess {
                    state: ChessState { st },
                    player,
                    castling,
                    halfmove_clock: record.halfmove_clock,
                    full_move_number: record.full_move_number,
                    en_passant_target,
                },
            ),
            _ => Err(ChessErrors::InvalidNotation),
        }
    }

    /// Reads a position string such as
    /// `rnbqkbnr/pppppppp/8/8/8/8/PPPPPPPP/RNBQKBNR w KQkq - 0 1`.
    pub fn from_fen(fen: &str) -> (r: Result<Chess, ChessErrors>)
        ensures
            match decode_fen(fen@) {
                Ok(c) => r matches Ok(x) && x@ == c && x@.wf(),
                Err(e) => r == Err::<Chess, ChessErrors>(e),
            },
    {
        let record = FenRecord::from_fen_str(fen)?;
        let r = Chess::from_record(&record);
        proof {
            if let Ok(x) = r {
                lemma_decoded_wf(record@);
            }
        }
        r
    }

    /// The position string of this position.
    pub fn to_fen(&self) -> (r: String)
        requires
            self@.wf(),
        ensures
            r@ == encode_fen(self@),
    {
        FenRecord::from_chess(self).to_fen_string()
    }
}

proof fn lemma_decoded_wf(r: FenFields)
    requires
        record_to_chess(r) is Ok,
    ensures
        record_to_chess(r)->Ok_0.wf(),
{
    lemma_decode_placement_len(r.placement, seq![], 0);
}

proof fn lemma_decode_placement_len(s: Seq<char>, board: Seq<Option<Piece>>, slashes: int)
    ensures
        decode_placement_from(s, board, slashes) matches Some(b) ==> b.len() == 64,
    decreases s.len(),
{
    if s.len() > 0 {
        let ch = s[0];
        let rest = s.drop_first();
        lemma_decode_placement_len(rest, board, slashes + 1);
        match piece_of_char(ch) {
            Some(pt) => lemma_decode_placement_len(rest, board.push(Some(Piece { piece_type: pt })), slashes),
            None => match digit_of(ch) {
                Some(k) => lemma_decode_placement_len(rest, board + empties(k), slashes),
                None => {},
            },
        }
    }
}

/// No digit directly follows another: runs of empty squares are written
/// whole, as the encoder writes them.
pub open spec fn no_adjacent_digits(s: Seq<char>) -> bool {
    forall|i: int| 0 < i < s.len() ==> !(digit_of(s[i - 1]) is Some && digit_of(#[trigger] s[i]) is Some)
}

proof fn lemma_decode_prefix(s: Seq<char>, board: Seq<Option<Piece>>, slashes: int)
    ensures
        decode_placement_from(s, board, slashes) matches Some(b) ==> b.len() >= board.len()
            && b.subrange(0, board.len() as int) == board,
    decreases s.len(),
{
    if s.len() == 0 {
        if board.len() == 64 {
            assert(board.subrange(0, board.len() as int) =~= board);
        }
    } else {
        let ch = s[0];
        let rest = s.drop_first();
        if ch == '/' {
            lemma_decode_prefix(rest, board, slashes + 1);
        } else {
            match piece_of_char(ch) {
                Some(pt) => {
                    let nb = board.push(Some(Piece { piece_type: pt }));
                    lemma_decode_prefix(rest, nb, slashes);
                    if let Some(b) = decode_placement_from(s, board, slashes) {
                        assert(b.subrange(0, board.len() as int) =~= nb.subrange(0, board.len() as int));
                    }
                },
                None => match digit_of(ch) {
                    Some(k) => {
                        let nb = board + empties(k);
                        lemma_decode_prefix(rest, nb, slashes);
                        if let Some(b) = decode_placement_from(s, board, slashes) {
                            assert(b.subrange(0, board.len() as int) =~= nb.subrange(0, board.len() as int));
                        }
                    },
                    None => {},
                },
            }
        }
    }
}

proof fn lemma_encode_run(b: Seq<Option<Piece>>, idx: int, j: int, run: int)
    requires
        0 <= idx,
        0 <= j,
        idx + j <= 64,
        forall|i: int| idx <= i < idx + j ==> b[i] is None && i % 8 != 7,
    ensures
        encode_placement_from(b, idx, run) == encode_placement_from(b, idx + j, run + j),
    decreases j,
{
    if j > 0 {
        lemma_encode_run(b, idx + 1, j - 1, run + 1);
    }
}

proof fn lemma_piece_char_of(ch: char)
    requires
        piece_of_char(ch) is Some,
    ensures
        piece_char(piece_of_char(ch)->Some_0) == ch,
{
}

proof fn lemma_digit_char_of(ch: char)
    requires
        digit_of(ch) is Some,
    ensures
        digit_char(digit_of(ch)->Some_0) == ch,
        0 <= digit_of(ch)->Some_0 <= 9,
{
}

/// A placement field read from `idx` on, with runs of empty squares written
/// whole, is what the encoder writes for the board it gives.
#[verifier::rlimit(100)]
#[verifier::spinoff_prover]
proof fn lemma_placement_canonical(s: Seq<char>, b: Seq<Option<Piece>>, idx: int)
    requires
        b.len() == 64,
        0 <= idx <= 64,
        decode_placement_from(s, b.subrange(0, idx), min_int(idx / 8, 7)) == Some(b),
        no_adjacent_digits(s),
    ensures
        encode_placement_from(b, idx, 0) == s,
    decreases s.len(),
{
    let prefix = b.subrange(0, idx);
    let sl = min_int(idx / 8, 7);
    if s.len() == 0 {
        assert(encode_placement_from(b, idx, 0) =~= s);
    } else {
        let ch = s[0];
        let rest = s.drop_first();
        assert(no_adjacent_digits(rest)) by {
            assert forall|i: int| 0 < i < rest.len() implies !(digit_of(rest[i - 1]) is Some
                && digit_of(#[trigger] rest[i]) is Some) by {
                assert(rest[i - 1] == s[i] && rest[i] == s[i + 1]);
            }
        }
        if ch == '/' {
            assert(false);
        } else if piece_of_char(ch) is Some {
            let pt = piece_of_char(ch)->Some_0;
            let nb = prefix.push(Some(Piece { piece_type: pt }));
            lemma_decode_prefix(rest, nb, sl);
            assert(nb.len() == idx + 1);
            assert(b.subrange(0, idx + 1) == nb);
            assert(b[idx] == nb[idx]);
            lemma_piece_char_of(ch);
            if idx % 8 == 7 && idx < 63 {
                assert(rest.len() > 0);
                let c2 = rest[0];
                assert(c2 == '/') by {
                    if c2 != '/' {
                        if piece_of_char(c2) is Some {
                        } else if digit_of(c2) is Some {
                        }
                    }
                }
                let rest2 = rest.drop_first();
                assert(min_int((idx + 1) / 8, 7) == sl + 1);
                lemma_placement_canonical(rest2, b, idx + 1);
                assert(no_adjacent_digits(rest2)) by {
                    assert forall|i: int| 0 < i < rest2.len() implies !(digit_of(rest2[i - 1]) is Some
                        && digit_of(#[trigger] rest2[i]) is Some) by {
                        assert(rest2[i - 1] == rest[i] && rest2[i] == rest[i + 1]);
                    }
                }
                assert(encode_placement_from(b, idx, 0) =~= seq![ch] + (seq!['/'] + rest2));
                assert(s =~= seq![ch] + (seq!['/'] + rest2));
            } else if idx == 63 {
                assert(rest.len() == 0) by {
                    if rest.len() > 0 {
                        let c2 = rest[0];
                        if piece_of_char(c2) is Some {
                        } else if digit_of(c2) is Some {
                        }
                    }
                }
                assert(encode_placement_from(b, 64, 0) =~= seq![]);
                assert(row_end(63) =~= seq![]);
                assert(s =~= seq![ch]);
                assert(encode_placement_from(b, idx, 0) =~= flush(0) + seq![ch] + row_end(63)
                    + encode_placement_from(b, 64, 0));
                assert(encode_placement_from(b, idx, 0) =~= s);
            } else {
                assert(min_int((idx + 1) / 8, 7) == sl);
                lemma_placement_canonical(rest, b, idx + 1);
                assert(encode_placement_from(b, idx, 0) =~= seq![ch] + rest);
                assert(s =~= seq![ch] + rest);
            }
        } else {
            let k = digit_of(ch)->Some_0;
            lemma_digit_char_of(ch);
            let nb = prefix + empties(k);
            lemma_decode_prefix(rest, nb, sl);
            let e = idx + k;
            assert(b.subrange(0, e) == nb);
            assert forall|i: int| idx <= i < e implies b[i] is None by {
                assert(b[i] == nb[i]);
            }
            if e % 8 != 0 {
                assert(rest.len() > 0);
                let c2 = rest[0];
                assert(digit_of(c2) is None) by {
                    assert(s[1] == c2);
                }
                assert(piece_of_char(c2) is Some) by {
                    if c2 == '/' {
                    }
                }
                assert(min_int(e / 8, 7) == sl);
                lemma_placement_canonical(rest, b, e);
                lemma_decode_prefix(rest.drop_first(), nb.push(Some(Piece { piece_type: piece_of_char(c2)->Some_0 })), sl);
                assert(b[e] is Some) by {
                    assert(b.subrange(0, e + 1) == nb.push(Some(Piece { piece_type: piece_of_char(c2)->Some_0 })));
                    assert(b[e] == b.subrange(0, e + 1)[e]);
                }
                lemma_encode_run(b, idx, k, 0);
                assert(encode_placement_from(b, e, k) =~= flush(k) + encode_placement_from(b, e, 0));
                assert(s =~= flush(k) + rest);
            } else {
                lemma_encode_run(b, idx, k - 1, 0);
                assert(encode_placement_from(b, e - 1, k - 1) == flush(k) + row_end(e - 1)
                    + encode_placement_from(b, e, 0));
                if e == 64 {
                    assert(rest.len() == 0) by {
                        if rest.len() > 0 {
                            let c2 = rest[0];
                            if piece_of_char(c2) is Some {
                            } else if digit_of(c2) is Some {
                            }
                        }
                    }
                    assert(encode_placement_from(b, e, 0) =~= seq![]);
                    assert(s =~= flush(k));
                    assert(encode_placement_from(b, idx, 0) =~= flush(k));
                } else {
                    assert(rest.len() > 0);
                    let c2 = rest[0];
                    assert(c2 == '/') by {
                        if c2 != '/' {
                            if piece_of_char(c2) is Some {
                            } else if digit_of(c2) is Some {
                            }
                        }
                    }
                    let rest2 = rest.drop_first();
                    assert(no_adjacent_digits(rest2)) by {
                        assert forall|i: int| 0 < i < rest2.len() implies !(digit_of(rest2[i - 1]) is Some
                            && digit_of(#[trigger] rest2[i]) is Some) by {
                            assert(rest2[i - 1] == rest[i] && rest2[i] == rest[i + 1]);
                        }
                    }
                    assert(min_int(e / 8, 7) == sl + 1);
                    lemma_placement_canonical(rest2, b, e);
                    assert(s =~= flush(k) + (seq!['/'] + rest2));
                    assert(encode_placement_from(b, idx, 0) =~= flush(k) + (seq!['/'] + rest2));
                }
            }
        }
    }
}

/// A counter written as the encoder writes it: digits, no leading zero.
pub open spec fn canonical_number(f: Seq<char>) -> bool {
    f.len() >= 1 && all_digits(f) && (f.len() > 1 ==> f[0] != '0')
}

proof fn lemma_leading_digit(f: Seq<char>)
    requires
        f.len() >= 1,
        all_digits(f),
        f[0] != '0',
    ensures
        digits_value(f) >= 1,
    decreases f.len(),
{
    let g = f.drop_last();
    if f.len() == 1 {
        assert(f.last() == f[0]);
        assert(digits_value(g) == 0);
    } else {
        assert(g[0] == f[0]);
        assert(all_digits(g)) by {
            assert forall|i: int| 0 <= i < g.len() implies digit_of(#[trigger] g[i]) is Some by {
                assert(g[i] == f[i]);
            }
        }
        lemma_leading_digit(g);
    }
}

/// Reading a counter written as the encoder writes it, and writing the
/// value again, gives the same text.
proof fn lemma_number_canonical(f: Seq<char>)
    requires
        canonical_number(f),
    ensures
        to_decimal(digits_value(f) as nat) == f,
    decreases f.len(),
{
    let g = f.drop_last();
    let d = digit_of(f.last())->Some_0;
    assert(digit_of(f[f.len() - 1]) is Some);
    lemma_digit_char_of(f.last());
    if f.len() == 1 {
        assert(digits_value(g) == 0);
        assert(f =~= seq![digit_char(d)]);
    } else {
        assert(g[0] == f[0]);
        assert(all_digits(g)) by {
            assert forall|i: int| 0 <= i < g.len() implies digit_of(#[trigger] g[i]) is Some by {
                assert(g[i] == f[i]);
            }
        }
        lemma_number_canonical(g);
        lemma_leading_digit(g);
        lemma_digits_nonneg(g);
        let v = digits_value(f);
        let x = digits_value(g);
        assert(v == x * 10 + d);
        assert(v / 10 == x && v % 10 == d) by (nonlinear_arith)
            requires
                v == x * 10 + d,
                0 <= d < 10,
                x >= 1,
        ;
        assert(f =~= g.push(digit_char(d)));
    }
}

pub open spec fn castling_rank(ch: char) -> int {
    if ch == 'K' {
        0
    } else if ch == 'Q' {
        1
    } else if ch == 'k' {
        2
    } else {
        3
    }
}

/// A castling field written as the encoder writes it: `-`, or some of the
/// letters `KQkq`, each once and in that order.
pub open spec fn canonical_castling(f: Seq<char>) -> bool {
    f == seq!['-'] || (f.len() >= 1 && (forall|i: int| 0 <= i < f.len() ==> is_castling_char(#[trigger] f[i]))
        && forall|i: int, j: int| 0 <= i < j < f.len() ==> castling_rank(f[i]) < castling_rank(f[j]))
}

proof fn lemma_castling_canonical(f: Seq<char>)
    requires
        canonical_castling(f),
    ensures
        decode_castling(f) is Some,
        castling_text(decode_castling(f)->Some_0) == f,
{
    if f != seq!['-'] {
        let cs = decode_castling(f)->Some_0;
        assert(f.len() <= 4) by {
            if f.len() > 4 {
                assert(castling_rank(f[0]) < castling_rank(f[1]));
                assert(castling_rank(f[1]) < castling_rank(f[2]));
                assert(castling_rank(f[2]) < castling_rank(f[3]));
                assert(castling_rank(f[3]) < castling_rank(f[4]));
                assert(is_castling_char(f[0]));
                assert(is_castling_char(f[4]));
            }
        }
        assert(is_castling_char(f[0]));
        assert(cs != no_castling()) by {
            if f[0] == 'K' {
                assert(f.contains('K'));
            } else if f[0] == 'Q' {
                assert(f.contains('Q'));
            } else if f[0] == 'k' {
                assert(f.contains('k'));
            } else {
                assert(f.contains('q'));
            }
        }
        let a = flag_text(cs.white_king_side, 'K');
        let b = flag_text(cs.white_queen_side, 'Q');
        let c = flag_text(cs.black_king_side, 'k');
        let d = flag_text(cs.black_queen_side, 'q');
        let t = a + b + c + d;
        if f.len() >= 2 {
            assert(castling_rank(f[0]) < castling_rank(f[1]));
        }
        if f.len() >= 3 {
            assert(castling_rank(f[1]) < castling_rank(f[2]));
        }
        if f.len() >= 4 {
            assert(castling_rank(f[2]) < castling_rank(f[3]));
            assert(is_castling_char(f[3]));
        }
        assert(cs.white_king_side == (f[0] == 'K')) by {
            if f.contains('K') {
                let i = choose|i: int| 0 <= i < f.len() && f[i] == 'K';
                if i > 0 {
                    assert(castling_rank(f[0]) < castling_rank(f[i]));
                }
            }
        }
        assert(cs.white_queen_side == exists|i: int| 0 <= i < f.len() && f[i] == 'Q');
        assert(cs.black_king_side == exists|i: int| 0 <= i < f.len() && f[i] == 'k');
        assert(cs.black_queen_side == exists|i: int| 0 <= i < f.len() && f[i] == 'q');
        if f.len() >= 2 {
            assert(is_castling_char(f[1]));
        }
        if f.len() >= 3 {
            assert(is_castling_char(f[2]));
        }
        assert(t =~= f);
    }
}

/// An en-passant field read back and written again gives the same text.
proof fn lemma_ep_canonical(f: Seq<char>)
    requires
        decode_ep(f) is Some,
    ensures
        ep_text(decode_ep(f)->Some_0) == f,
{
    if f != seq!['-'] {
        let sq = square_of_label(f)->Some_0;
        lemma_square(sq);
        assert(square_label(sq) =~= f);
    }
}

proof fn lemma_join_push(done: Seq<Seq<char>>, x: Seq<char>)
    requires
        done.len() >= 1,
    ensures
        join_fields(done.push(x)) == join_fields(done) + seq![' '] + x,
    decreases done.len(),
{
    let p = done.push(x);
    assert(p.drop_first() =~= done.drop_first().push(x));
    if done.len() == 1 {
        assert(p.drop_first() =~= seq![x]);
        assert(join_fields(seq![x]) == x);
    } else {
        lemma_join_push(done.drop_first(), x);
        assert(join_fields(p) =~= join_fields(done) + seq![' '] + x);
    }
}

proof fn lemma_split_rejoin(s: Seq<char>, cur: Seq<char>, done: Seq<Seq<char>>)
    ensures
        join_fields(split_from(s, cur, done)) == join_fields(done.push(cur)) + s,
    decreases s.len(),
{
    if s.len() == 0 {
        assert(join_fields(done.push(cur)) + s =~= join_fields(done.push(cur)));
    } else {
        let rest = s.drop_first();
        if s[0] == ' ' {
            lemma_split_rejoin(rest, seq![], done.push(cur));
            lemma_join_push(done.push(cur), seq![]);
            assert(join_fields(done.push(cur)) + seq![' '] + seq![] + rest =~= join_fields(done.push(cur)) + s);
        } else {
            lemma_split_rejoin(rest, cur.push(s[0]), done);
            if done.len() == 0 {
                assert(done.push(cur.push(s[0])) =~= seq![cur.push(s[0])]);
                assert(done.push(cur) =~= seq![cur]);
            } else {
                lemma_join_push(done, cur.push(s[0]));
                lemma_join_push(done, cur);
            }
            assert(join_fields(done.push(cur.push(s[0]))) + rest =~= join_fields(done.push(cur)) + s);
        }
    }
}

/// A position string written as the encoder writes it: it reads, runs of
/// empty squares are written whole, the castling letters come in the order
/// `KQkq` each once, and the counters have no leading zero.
pub open spec fn canonical_fen(s: Seq<char>) -> bool {
    let fs = split_fields(s);
    &&& decode_fen(s) is Ok
    &&& no_adjacent_digits(fs[0])
    &&& canonical_castling(fs[2])
    &&& canonical_number(fs[4])
    &&& canonical_number(fs[5])
}

/// A position string in the encoder's form, read and written again, is the
/// same string.
pub proof fn lemma_fen_canonical_round_trip(s: Seq<char>)
    requires
        canonical_fen(s),
    ensures
        encode_fen(decode_fen(s)->Ok_0) == s,
{
    let fs = split_fields(s);
    let rec = parse_record(s)->Ok_0;
    let c = decode_fen(s)->Ok_0;
    let b = c.board;
    assert(b.len() == 64) by {
        lemma_decode_placement_len(fs[0], seq![], 0);
    }
    assert(b.subrange(0, 0) =~= seq![]);
    lemma_placement_canonical(fs[0], b, 0);
    lemma_castling_canonical(fs[2]);
    lemma_ep_canonical(fs[3]);
    lemma_number_canonical(fs[4]);
    lemma_number_canonical(fs[5]);
    assert(seq![rec.player] =~= fs[1]);
    lemma_digits_nonneg(fs[4]);
    lemma_digits_nonneg(fs[5]);
    let out = record_fields(chess_to_record(c));
    assert(rec.placement == fs[0] && rec.castling == fs[2] && rec.en_passant == fs[3]);
    assert(out[0] == fs[0]);
    assert(out[1] == fs[1]);
    assert(out[2] == fs[2]);
    assert(out[3] == fs[3]);
    assert(c.halfmove_clock as nat == digits_value(fs[4]) as nat);
    assert(out[4] == fs[4]);
    assert(c.full_move_number as nat == digits_value(fs[5]) as nat);
    assert(out[5] == fs[5]);
    assert(out =~= fs);
    lemma_split_rejoin(s, seq![], seq![]);
    assert(seq![Seq::<char>::empty()] =~= Seq::<Seq<char>>::empty().push(seq![]));
    assert(join_fields(seq![Seq::<char>::empty()]) == Seq::<char>::empty());
    assert(Seq::<char>::empty() + s =~= s);
}

} // verus!
