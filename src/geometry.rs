//! Squares of the 8x8 board and the directions between them.
//!
//! A square is an index in `0..64`, row-major from the top-left corner as a
//! position string lists it: row 0 is rank 8, column 0 is file `a`.
use vstd::prelude::*;

verus! {

pub open spec fn row_of(s: int) -> int {
    s / 8
}

pub open spec fn col_of(s: int) -> int {
    s % 8
}

pub open spec fn on_board(r: int, c: int) -> bool {
    0 <= r < 8 && 0 <= c < 8
}

pub open spec fn square_at(r: int, c: int) -> int {
    r * 8 + c
}

pub proof fn lemma_square(s: int)
    requires
        0 <= s < 64,
    ensures
        0 <= row_of(s) < 8,
        0 <= col_of(s) < 8,
        s == square_at(row_of(s), col_of(s)),
{
}

pub proof fn lemma_square_at(r: int, c: int)
    requires
        on_board(r, c),
    ensures
        0 <= square_at(r, c) < 64,
        row_of(square_at(r, c)) == r,
        col_of(square_at(r, c)) == c,
{
}

/// The eight directions of movement on the board; `Up` goes towards rank 8.
#[derive(Clone, Copy, Debug, PartialEq, Eq, Structural)]
pub enum Direction {
    Up,
    Down,
    Left,
    Right,
    UpLeft,
    UpRight,
    DownLeft,
    DownRight,
}

/// Row change of one step in `d`.
pub open spec fn delta_row(d: Direction) -> int {
    match d {
        Direction::Up | Direction::UpLeft | Direction::UpRight => -1,
        Direction::Down | Direction::DownLeft | Direction::DownRight => 1,
        _ => 0,
    }
}

/// Column change of one step in `d`.
pub open spec fn delta_col(d: Direction) -> int {
    match d {
        Direction::Left | Direction::UpLeft | Direction::DownLeft => -1,
        Direction::Right | Direction::UpRight | Direction::DownRight => 1,
        _ => 0,
    }
}

/// The square one step from `s` in direction `d`, if that stays on the board.
pub open spec fn neighbor(s: int, d: Direction) -> Option<int> {
    let r = row_of(s) + delta_row(d);
    let c = col_of(s) + delta_col(d);
    if on_board(r, c) {
        Some(square_at(r, c))
    } else {
        None
    }
}

/// How many steps in direction `d` lead from `f` to `t`; zero when `t` does
/// not lie on that ray.
pub open spec fn ray_steps(f: int, t: int, d: Direction) -> int {
    let dr = row_of(t) - row_of(f);
    let dc = col_of(t) - col_of(f);
    match d {
        Direction::Up => if dc == 0 && dr < 0 { -dr } else { 0 },
        Direction::Down => if dc == 0 && dr > 0 { dr } else { 0 },
        Direction::Left => if dr == 0 && dc < 0 { -dc } else { 0 },
        Direction::Right => if dr == 0 && dc > 0 { dc } else { 0 },
        Direction::UpLeft => if dr < 0 && dc == dr { -dr } else { 0 },
        Direction::UpRight => if dr < 0 && dc == -dr { -dr } else { 0 },
        Direction::DownLeft => if dr > 0 && dc == -dr { dr } else { 0 },
        Direction::DownRight => if dr > 0 && dc == dr { dr } else { 0 },
    }
}

/// `t` lies on the ray from `f` in direction `d` (and is not `f` itself).
pub open spec fn on_ray(f: int, t: int, d: Direction) -> bool {
    0 <= t < 64 && ray_steps(f, t, d) > 0
}

/// The direction of a straight or diagonal line from `f` to `t`, if there is one.
pub open spec fn direction_between(f: int, t: int) -> Option<Direction> {
    let dr = row_of(t) - row_of(f);
    let dc = col_of(t) - col_of(f);
    if dr == 0 && dc == 0 {
        None
    } else if dc == 0 {
        if dr < 0 { Some(Direction::Up) } else { Some(Direction::Down) }
    } else if dr == 0 {
        if dc < 0 { Some(Direction::Left) } else { Some(Direction::Right) }
    } else if dr == dc {
        if dr < 0 { Some(Direction::UpLeft) } else { Some(Direction::DownRight) }
    } else if dr == -dc {
        if dr < 0 { Some(Direction::UpRight) } else { Some(Direction::DownLeft) }
    } else {
        None
    }
}

/// A rook's reach from `f`, on an empty board.
pub open spec fn straight_reach(f: int, t: int) -> bool {
    on_ray(f, t, Direction::Up) || on_ray(f, t, Direction::Down) || on_ray(f, t, Direction::Left)
        || on_ray(f, t, Direction::Right)
}

/// A bishop's reach from `f`, on an empty board.
pub open spec fn diagonal_reach(f: int, t: int) -> bool {
    on_ray(f, t, Direction::UpLeft) || on_ray(f, t, Direction::UpRight) || on_ray(
        f,
        t,
        Direction::DownLeft,
    ) || on_ray(f, t, Direction::DownRight)
}

/// `t` is one of the up to eight squares around `f`.
pub open spec fn adjacent(f: int, t: int) -> bool {
    let dr = row_of(t) - row_of(f);
    let dc = col_of(t) - col_of(f);
    0 <= t < 64 && -1 <= dr <= 1 && -1 <= dc <= 1 && !(dr == 0 && dc == 0)
}

/// `t` is a knight's jump away from `f`.
pub open spec fn knight_jump(f: int, t: int) -> bool {
    let dr = row_of(t) - row_of(f);
    let dc = col_of(t) - col_of(f);
    0 <= t < 64 && ((dr == 1 || dr == -1) && (dc == 2 || dc == -2) || (dr == 2 || dr == -2) && (
    dc == 1 || dc == -1))
}

/// The neighbours of a square in the eight directions.
pub struct Bounds {
    pub top: Option<usize>,
    pub bottom: Option<usize>,
    pub left: Option<usize>,
    pub right: Option<usize>,
    pub top_left_diag: Option<usize>,
    pub top_right_diag: Option<usize>,
    pub bottom_left_diag: Option<usize>,
    pub bottom_right_diag: Option<usize>,
}

pub open spec fn opt_int(o: Option<usize>) -> Option<int> {
    match o {
        Some(v) => Some(v as int),
        None => None,
    }
}

impl Bounds {
    pub open spec fn toward_spec(&self, d: Direction) -> Option<usize> {
        match d {
            Direction::Up => self.top,
            Direction::Down => self.bottom,
            Direction::Left => self.left,
            Direction::Right => self.right,
            Direction::UpLeft => self.top_left_diag,
            Direction::UpRight => self.top_right_diag,
            Direction::DownLeft => self.bottom_left_diag,
            Direction::DownRight => self.bottom_right_diag,
        }
    }

    /// The neighbour in direction `d`.
    #[verifier::when_used_as_spec(toward_spec)]
    pub fn toward(&self, d: Direction) -> (r: Option<usize>)
        ensures
            r == self.toward_spec(d),
    {
        match d {
            Direction::Up => self.top,
            Direction::Down => self.bottom,
            Direction::Left => self.left,
            Direction::Right => self.right,
            Direction::UpLeft => self.top_left_diag,
            Direction::UpRight => self.top_right_diag,
            Direction::DownLeft => self.bottom_left_diag,
            Direction::DownRight => self.bottom_right_diag,
        }
    }
}

/// The square `dr` rows and `dc` columns away from row `r`, column `c`, if
/// it is on the board.
pub fn offset_square(r: usize, c: usize, dr: i8, dc: i8) -> (res: Option<usize>)
    requires
        r < 8,
        c < 8,
        -2 <= dr <= 2,
        -2 <= dc <= 2,
    ensures
        res matches Some(s) ==> s < 64,
        opt_int(res) == (if on_board(r + dr, c + dc) {
            Some(square_at(r + dr, c + dc))
        } else {
            None
        }),
{
    let nr: i8 = r as i8 + dr;
    let nc: i8 = c as i8 + dc;
    if 0 <= nr && nr < 8 && 0 <= nc && nc < 8 {
        Some(nr as usize * 8 + nc as usize)
    } else {
        None
    }
}

/// The neighbours of `spot` in all eight directions; a neighbour is absent
/// where `spot` lies on that edge of the board.
pub fn get_bounds(spot: usize) -> (b: Bounds)
    requires
        spot < 64,
    ensures
        forall|d: Direction| #[trigger] opt_int(b.toward(d)) == neighbor(spot as int, d),
        forall|d: Direction| #[trigger] b.toward(d) matches Some(n) ==> n < 64,
{
    let r = spot / 8;
    let c = spot % 8;
    Bounds {
        top: offset_square(r, c, -1, 0),
        bottom: offset_square(r, c, 1, 0),
        left: offset_square(r, c, 0, -1),
        right: offset_square(r, c, 0, 1),
        top_left_diag: offset_square(r, c, -1, -1),
        top_right_diag: offset_square(r, c, -1, 1),
        bottom_left_diag: offset_square(r, c, 1, -1),
        bottom_right_diag: offset_square(r, c, 1, 1),
    }
}

/// Number of steps from `s` to the edge of the board in direction `d`.
pub open spec fn steps_to_edge(s: int, d: Direction) -> int {
    let up = row_of(s);
    let down = 7 - row_of(s);
    let left = col_of(s);
    let right = 7 - col_of(s);
    match d {
        Direction::Up => up,
        Direction::Down => down,
        Direction::Left => left,
        Direction::Right => right,
        Direction::UpLeft => if up < left { up } else { left },
        Direction::UpRight => if up < right { up } else { right },
        Direction::DownLeft => if down < left { down } else { left },
        Direction::DownRight => if down < right { down } else { right },
    }
}

/// Steps already taken from `f` when standing on `p`.
pub open spec fn steps_taken(f: int, p: int, d: Direction) -> int {
    if p == f {
        0
    } else {
        ray_steps(f, p, d)
    }
}

pub proof fn lemma_ray_step(f: int, p: int, d: Direction, t: int)
    requires
        0 <= f < 64,
        0 <= p < 64,
        p == f || on_ray(f, p, d),
        0 <= t < 64,
    ensures
        neighbor(p, d) is None <==> steps_to_edge(p, d) == 0,
        neighbor(p, d) matches Some(n) ==> (0 <= n < 64 && n != f && on_ray(f, n, d) && ray_steps(
            f,
            n,
            d,
        ) == steps_taken(f, p, d) + 1 && steps_to_edge(n, d) == steps_to_edge(p, d) - 1),
        on_ray(f, t, d) ==> ray_steps(f, t, d) <= steps_taken(f, p, d) + steps_to_edge(p, d),
        on_ray(f, t, d) && ray_steps(f, t, d) == steps_taken(f, p, d) + 1 ==> neighbor(p, d)
            == Some(t),
{
    lemma_square(f);
    lemma_square(p);
    lemma_square(t);
    match neighbor(p, d) {
        Some(n) => {
            lemma_square_at(row_of(p) + delta_row(d), col_of(p) + delta_col(d));
        },
        None => {},
    }
}

/// Marks in `mask` every square on the ray from `from` in direction `d`,
/// walking from neighbour to neighbour up to the edge of the board.
pub fn cast_ray(mask: &mut [bool; 64], from: usize, d: Direction)
    requires
        from < 64,
    ensures
        forall|t: int|
            0 <= t < 64 ==> (#[trigger] final(mask)@[t] == (old(mask)@[t] || on_ray(
                from as int,
                t,
                d,
            ))),
{
    let mut pos = from;
    loop
        invariant
            from < 64,
            pos < 64,
            pos == from || on_ray(from as int, pos as int, d),
            forall|t: int|
                0 <= t < 64 ==> (#[trigger] mask@[t] == (old(mask)@[t] || (on_ray(
                    from as int,
                    t,
                    d,
                ) && ray_steps(from as int, t, d) <= steps_taken(from as int, pos as int, d)))),
        ensures
            forall|t: int|
                0 <= t < 64 ==> (#[trigger] mask@[t] == (old(mask)@[t] || on_ray(
                    from as int,
                    t,
                    d,
                ))),
        decreases steps_to_edge(pos as int, d),
    {
        proof {
            lemma_ray_step(from as int, pos as int, d, 0);
        }
        let bounds = get_bounds(pos);
        assert(opt_int(bounds.toward(d)) == neighbor(pos as int, d));
        match bounds.toward(d) {
            Some(next) => {
                let ghost old_mask = mask@;
                mask[next] = true;
                proof {
                    assert forall|t: int| 0 <= t < 64 implies (#[trigger] mask@[t] == (old(mask)@[t]
                        || (on_ray(from as int, t, d) && ray_steps(from as int, t, d)
                        <= steps_taken(from as int, next as int, d)))) by {
                        lemma_ray_step(from as int, pos as int, d, t);
                        assert(old_mask[t] == (old(mask)@[t] || (on_ray(from as int, t, d)
                            && ray_steps(from as int, t, d) <= steps_taken(
                            from as int,
                            pos as int,
                            d,
                        ))));
                    }
                }
                pos = next;
            },
            None => {
                proof {
                    assert forall|t: int| 0 <= t < 64 implies (#[trigger] mask@[t] == (old(mask)@[t]
                        || on_ray(from as int, t, d))) by {
                        lemma_ray_step(from as int, pos as int, d, t);
                    }
                }
                break;
            },
        }
    }
}

/// The squares that `mask` marks, in increasing order.
pub fn squares_of(mask: &[bool; 64]) -> (r: Vec<usize>)
    ensures
        forall|t: usize| r@.contains(t) <==> (t < 64 && mask@[t as int]),
        forall|i: int, j: int| 0 <= i < j < r@.len() ==> r@[i] < r@[j],
{
    let mut r: Vec<usize> = Vec::new();
    let mut t: usize = 0;
    while t < 64
        invariant
            t <= 64,
            forall|i: int| 0 <= i < r@.len() ==> r@[i] < t && mask@[r@[i] as int],
            forall|u: usize| u < t && mask@[u as int] ==> r@.contains(u),
            forall|i: int, j: int| 0 <= i < j < r@.len() ==> r@[i] < r@[j],
        decreases 64 - t,
    {
        if mask[t] {
            let ghost old_r = r@;
            r.push(t);
            proof {
                assert forall|u: usize| u < t + 1 && mask@[u as int] implies r@.contains(u) by {
                    if u < t {
                        let i = choose|i: int| 0 <= i < old_r.len() && old_r[i] == u;
                        assert(r@[i] == u);
                    } else {
                        assert(r@[old_r.len() as int] == u);
                    }
                }
            }
        }
        t += 1;
    }
    proof {
        assert forall|u: usize| r@.contains(u) implies (u < 64 && mask@[u as int]) by {
            let i = choose|i: int| 0 <= i < r@.len() && r@[i] == u;
        }
    }
    r
}

/// Every square a bishop could reach from `spot` on an empty board.
pub fn get_unvalidated_diag_moves(spot: usize) -> (r: Vec<usize>)
    requires
        spot < 64,
    ensures
        forall|t: usize| r@.contains(t) <==> diagonal_reach(spot as int, t as int),
        forall|i: int, j: int| 0 <= i < j < r@.len() ==> r@[i] < r@[j],
{
    let mut mask = [false; 64];
    cast_ray(&mut mask, spot, Direction::UpRight);
    cast_ray(&mut mask, spot, Direction::DownRight);
    cast_ray(&mut mask, spot, Direction::DownLeft);
    cast_ray(&mut mask, spot, Direction::UpLeft);
    squares_of(&mask)
}

/// Every square a queen could reach from `spot` on an empty board.
pub fn get_unvalidated_line_moves(spot: usize) -> (r: Vec<usize>)
    requires
        spot < 64,
    ensures
        forall|t: usize|
            r@.contains(t) <==> (straight_reach(spot as int, t as int) || diagonal_reach(
                spot as int,
                t as int,
            )),
        forall|i: int, j: int| 0 <= i < j < r@.len() ==> r@[i] < r@[j],
{
    let mut mask = [false; 64];
    cast_ray(&mut mask, spot, Direction::UpRight);
    cast_ray(&mut mask, spot, Direction::DownRight);
    cast_ray(&mut mask, spot, Direction::DownLeft);
    cast_ray(&mut mask, spot, Direction::UpLeft);
    cast_ray(&mut mask, spot, Direction::Right);
    cast_ray(&mut mask, spot, Direction::Up);
    cast_ray(&mut mask, spot, Direction::Down);
    cast_ray(&mut mask, spot, Direction::Left);
    squares_of(&mask)
}

/// Every square a rook could reach from `spot` on an empty board.
pub fn get_unvalidated_horiz_vert_moves(spot: usize) -> (r: Vec<usize>)
    requires
        spot < 64,
    ensures
        forall|t: usize| r@.contains(t) <==> straight_reach(spot as int, t as int),
        forall|i: int, j: int| 0 <= i < j < r@.len() ==> r@[i] < r@[j],
{
    let mut mask = [false; 64];
    cast_ray(&mut mask, spot, Direction::Right);
    cast_ray(&mut mask, spot, Direction::Up);
    cast_ray(&mut mask, spot, Direction::Down);
    cast_ray(&mut mask, spot, Direction::Left);
    squares_of(&mask)
}

/// The direction from `f` to `t` is the one whose ray holds `t`, and the
/// number of steps is the larger coordinate difference.
pub proof fn lemma_direction_between(f: int, t: int)
    requires
        0 <= f < 64,
        0 <= t < 64,
    ensures
        direction_between(f, t) matches Some(d) ==> on_ray(f, t, d) && ray_steps(f, t, d) == (if abs(
            row_of(t) - row_of(f),
        ) < abs(col_of(t) - col_of(f)) {
            abs(col_of(t) - col_of(f))
        } else {
            abs(row_of(t) - row_of(f))
        }),
        forall|d: Direction| #[trigger] on_ray(f, t, d) ==> direction_between(f, t) == Some(d),
{
    lemma_square(f);
    lemma_square(t);
}

pub open spec fn abs(x: int) -> int {
    if x < 0 {
        -x
    } else {
        x
    }
}

/// The direction of the straight or diagonal line from `from` to `to`.
pub fn direction_of(from: usize, to: usize) -> (r: Option<Direction>)
    requires
        from < 64,
        to < 64,
    ensures
        r == direction_between(from as int, to as int),
{
    let dr: i8 = (to / 8) as i8 - (from / 8) as i8;
    let dc: i8 = (to % 8) as i8 - (from % 8) as i8;
    if dr == 0 && dc == 0 {
        None
    } else if dc == 0 {
        if dr < 0 {
            Some(Direction::Up)
        } else {
            Some(Direction::Down)
        }
    } else if dr == 0 {
        if dc < 0 {
            Some(Direction::Left)
        } else {
            Some(Direction::Right)
        }
    } else if dr == dc {
        if dr < 0 {
            Some(Direction::UpLeft)
        } else {
            Some(Direction::DownRight)
        }
    } else if dr == -dc {
        if dr < 0 {
            Some(Direction::UpRight)
        } else {
            Some(Direction::DownLeft)
        }
    } else {
        None
    }
}

/// Whether `to` is a knight's jump from `from`.
pub fn is_knight_jump(from: usize, to: usize) -> (r: bool)
    requires
        from < 64,
        to < 64,
    ensures
        r == knight_jump(from as int, to as int),
{
    let dr: i8 = (to / 8) as i8 - (from / 8) as i8;
    let dc: i8 = (to % 8) as i8 - (from % 8) as i8;
    ((dr == 1 || dr == -1) && (dc == 2 || dc == -2)) || ((dr == 2 || dr == -2) && (dc == 1 || dc
        == -1))
}

} // verus!
