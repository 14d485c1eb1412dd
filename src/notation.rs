//! Square labels such as `e4`, and move strings such as `e2e4` or `e7e8q`.
use vstd::prelude::*;
use crate::chess_errors::ChessErrors;
use crate::geometry::{row_of, col_of, square_at, lemma_square, opt_int};
use crate::pieces::Promotion;

verus! {

/// Relies on `String::push`: appends one character to the end of the string.
#[verifier::external_body]
pub(crate) fn push_char(s: &mut String, c: char)
    ensures
        final(s)@ == old(s)@.push(c),
{
    s.push(c)
}

pub open spec fn file_char(c: int) -> char {
    if c == 0 {
        'a'
    } else if c == 1 {
        'b'
    } else if c == 2 {
        'c'
    } else if c == 3 {
        'd'
    } else if c == 4 {
        'e'
    } else if c == 5 {
        'f'
    } else if c == 6 {
        'g'
    } else {
        'h'
    }
}

/// The rank digit of row `r` (row 0 is rank 8).
pub open spec fn rank_char(r: int) -> char {
    if r == 0 {
        '8'
    } else if r == 1 {
        '7'
    } else if r == 2 {
        '6'
    } else if r == 3 {
        '5'
    } else if r == 4 {
        '4'
    } else if r == 5 {
        '3'
    } else if r == 6 {
        '2'
    } else {
        '1'
    }
}

pub open spec fn file_of(ch: char) -> Option<int> {
    if ch == 'a' {
        Some(0)
    } else if ch == 'b' {
        Some(1)
    } else if ch == 'c' {
        Some(2)
    } else if ch == 'd' {
        Some(3)
    } else if ch == 'e' {
        Some(4)
    } else if ch == 'f' {
        Some(5)
    } else if ch == 'g' {
        Some(6)
    } else if ch == 'h' {
        Some(7)
    } else {
        None
    }
}

pub open spec fn row_of_rank(ch: char) -> Option<int> {
    if ch == '8' {
        Some(0)
    } else if ch == '7' {
        Some(1)
    } else if ch == '6' {
        Some(2)
    } else if ch == '5' {
        Some(3)
    } else if ch == '4' {
        Some(4)
    } else if ch == '3' {
        Some(5)
    } else if ch == '2' {
        Some(6)
    } else if ch == '1' {
        Some(7)
    } else {
        None
    }
}

/// The two-character label of square `s`.
pub open spec fn square_label(s: int) -> Seq<char> {
    seq![file_char(col_of(s)), rank_char(row_of(s))]
}

/// The square a file letter and a rank digit name.
pub open spec fn square_of_chars(a: char, b: char) -> Option<int> {
    match (file_of(a), row_of_rank(b)) {
        (Some(c), Some(r)) => Some(square_at(r, c)),
        _ => None,
    }
}

/// The square a label names.
pub open spec fn square_of_label(s: Seq<char>) -> Option<int> {
    if s.len() == 2 {
        square_of_chars(s[0], s[1])
    } else {
        None
    }
}

pub proof fn lemma_label_round_trip(s: int)
    requires
        0 <= s < 64,
    ensures
        square_of_label(square_label(s)) == Some(s),
{
    lemma_square(s);
}

/// The letters of a move string, folded to lower case.
pub open spec fn fold_case(ch: char) -> char {
    if ch == 'A' {
        'a'
    } else if ch == 'B' {
        'b'
    } else if ch == 'C' {
        'c'
    } else if ch == 'D' {
        'd'
    } else if ch == 'E' {
        'e'
    } else if ch == 'F' {
        'f'
    } else if ch == 'G' {
        'g'
    } else if ch == 'H' {
        'h'
    } else if ch == 'Q' {
        'q'
    } else if ch == 'R' {
        'r'
    } else if ch == 'N' {
        'n'
    } else if ch == 'K' {
        'k'
    } else {
        ch
    }
}

/// The piece a promotion letter asks for; `k` is taken for a knight too.
pub open spec fn promotion_of(ch: char) -> Option<Promotion> {
    if ch == 'q' {
        Some(Promotion::Queen)
    } else if ch == 'r' {
        Some(Promotion::Rook)
    } else if ch == 'b' {
        Some(Promotion::Bishop)
    } else if ch == 'n' || ch == 'k' {
        Some(Promotion::Knight)
    } else {
        None
    }
}

/// The letter that names a promotion piece in a move.
pub open spec fn promotion_char(p: Promotion) -> char {
    match p {
        Promotion::Queen => 'q',
        Promotion::Rook => 'r',
        Promotion::Knight => 'n',
        Promotion::Bishop => 'b',
    }
}

/// What a move string says: origin, destination and promotion piece.
pub open spec fn parse_move_spec(s: Seq<char>) -> Result<(int, int, Option<Promotion>), ChessErrors> {
    if !(s.len() == 4 || s.len() == 5) {
        Err(ChessErrors::InvalidNotation)
    } else {
        match (
            square_of_chars(fold_case(s[0]), fold_case(s[1])),
            square_of_chars(fold_case(s[2]), fold_case(s[3])),
        ) {
            (Some(f), Some(t)) => if s.len() == 5 {
                match promotion_of(fold_case(s[4])) {
                    Some(k) => Ok((f, t, Some(k))),
                    None => Err(ChessErrors::InvalidPromotion),
                }
            } else {
                Ok((f, t, None))
            },
            _ => Err(ChessErrors::InvalidNotation),
        }
    }
}

/// A destination label, followed by the promotion letter if there is one.
pub open spec fn destination_text(t: int, promo: Option<Promotion>) -> Seq<char> {
    match promo {
        Some(k) => square_label(t).push(promotion_char(k)),
        None => square_label(t),
    }
}

pub fn fold_char(ch: char) -> (r: char)
    ensures
        r == fold_case(ch),
{
    match ch {
        'A' => 'a',
        'B' => 'b',
        'C' => 'c',
        'D' => 'd',
        'E' => 'e',
        'F' => 'f',
        'G' => 'g',
        'H' => 'h',
        'Q' => 'q',
        'R' => 'r',
        'N' => 'n',
        'K' => 'k',
        _ => ch,
    }
}

/// The column of a file letter.
pub fn convert_col(ch: char) -> (r: Option<usize>)
    ensures
        opt_int(r) == file_of(ch),
{
    match ch {
        'a' => Some(0),
        'b' => Some(1),
        'c' => Some(2),
        'd' => Some(3),
        'e' => Some(4),
        'f' => Some(5),
        'g' => Some(6),
        'h' => Some(7),
        _ => None,
    }
}

/// The row of a rank digit.
pub fn convert_row(ch: char) -> (r: Option<usize>)
    ensures
        opt_int(r) == row_of_rank(ch),
{
    match ch {
        '8' => Some(0),
        '7' => Some(1),
        '6' => Some(2),
        '5' => Some(3),
        '4' => Some(4),
        '3' => Some(5),
        '2' => Some(6),
        '1' => Some(7),
        _ => None,
    }
}

/// The square named by a file letter and a rank digit.
pub fn square_from_chars(a: char, b: char) -> (r: Option<usize>)
    ensures
        opt_int(r) == square_of_chars(a, b),
        r matches Some(s) ==> s < 64,
{
    match (convert_col(a), convert_row(b)) {
        (Some(c), Some(row)) => Some(row * 8 + c),
        _ => None,
    }
}

/// The square a two-character label such as `e4` names.
pub fn notation_to_index(spot: &str) -> (r: Result<usize, ChessErrors>)
    ensures
        match square_of_label(spot@) {
            Some(s) => r == Ok::<usize, ChessErrors>(s as usize) && s < 64,
            None => r == Err::<usize, ChessErrors>(ChessErrors::InvalidNotation),
        },
{
    if spot.unicode_len() != 2 {
        return Err(ChessErrors::InvalidNotation);
    }
    match square_from_chars(spot.get_char(0), spot.get_char(1)) {
        Some(s) => Ok(s),
        None => Err(ChessErrors::InvalidNotation),
    }
}

pub fn file_letter(col: usize) -> (r: char)
    requires
        col < 8,
    ensures
        r == file_char(col as int),
{
    match col {
        0 => 'a',
        1 => 'b',
        2 => 'c',
        3 => 'd',
        4 => 'e',
        5 => 'f',
        6 => 'g',
        _ => 'h',
    }
}

pub fn rank_digit(row: usize) -> (r: char)
    requires
        row < 8,
    ensures
        r == rank_char(row as int),
{
    match row {
        0 => '8',
        1 => '7',
        2 => '6',
        3 => '5',
        4 => '4',
        5 => '3',
        6 => '2',
        _ => '1',
    }
}

/// Appends the label of square `index` to `out`.
pub fn push_spot(out: &mut String, index: usize)
    requires
        index < 64,
    ensures
        final(out)@ == old(out)@ + square_label(index as int),
{
    push_char(out, file_letter(index % 8));
    push_char(out, rank_digit(index / 8));
    assert(final(out)@ =~= old(out)@ + square_label(index as int));
}

/// The label of square `index`, such as `e4`.
pub fn index_to_spot(index: usize) -> (r: String)
    requires
        index < 64,
    ensures
        r@ == square_label(index as int),
{
    let mut s = String::new();
    push_spot(&mut s, index);
    assert(s@ =~= square_label(index as int));
    s
}

pub fn promotion_letter(p: Promotion) -> (r: char)
    ensures
        r == promotion_char(p),
{
    match p {
        Promotion::Queen => 'q',
        Promotion::Rook => 'r',
        Promotion::Knight => 'n',
        Promotion::Bishop => 'b',
    }
}

/// The label of a destination square, with the promotion letter if any.
pub fn destination_label(to: usize, promotion: Option<Promotion>) -> (r: String)
    requires
        to < 64,
    ensures
        r@ == destination_text(to as int, promotion),
{
    let mut s = index_to_spot(to);
    if let Some(k) = promotion {
        push_char(&mut s, promotion_letter(k));
    }
    s
}

/// Reads a move string: four characters naming origin and destination,
/// optionally followed by a promotion letter; letters in either case.
pub fn parse_move(chess_move: &str) -> (r: Result<(usize, usize, Option<Promotion>), ChessErrors>)
    ensures
        match parse_move_spec(chess_move@) {
            Ok((f, t, p)) => r == Ok::<(usize, usize, Option<Promotion>), ChessErrors>(
                (f as usize, t as usize, p),
            ) && 0 <= f < 64 && 0 <= t < 64,
            Err(e) => r == Err::<(usize, usize, Option<Promotion>), ChessErrors>(e),
        },
{
    let n = chess_move.unicode_len();
    if n != 4 && n != 5 {
        return Err(ChessErrors::InvalidNotation);
    }
    let from = square_from_chars(
        fold_char(chess_move.get_char(0)),
        fold_char(chess_move.get_char(1)),
    );
    let to = square_from_chars(fold_char(chess_move.get_char(2)), fold_char(chess_move.get_char(3)));
    match (from, to) {
        (Some(f), Some(t)) => {
            if n == 5 {
                let promotion = match fold_char(chess_move.get_char(4)) {
                    'q' => Some(Promotion::Queen),
                    'r' => Some(Promotion::Rook),
                    'b' => Some(Promotion::Bishop),
                    'n' | 'k' => Some(Promotion::Knight),
                    _ => None,
                };
                match promotion {
                    Some(k) => Ok((f, t, Some(k))),
                    None => Err(ChessErrors::InvalidPromotion),
                }
            } else {
                Ok((f, t, None))
            }
        },
        _ => Err(ChessErrors::InvalidNotation),
    }
}

} // verus!
