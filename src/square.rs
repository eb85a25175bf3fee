use vstd::prelude::*;

verus! {

/// A square index: file + 8 * rank, with A1 = 0 and H8 = 63.
pub type Square = u8;

/// Number of squares on the board.
pub const N: usize = 64;

pub open spec fn file_of(s: int) -> int {
    s % 8
}

pub open spec fn rank_of(s: int) -> int {
    s / 8
}

pub open spec fn on_board(f: int, r: int) -> bool {
    0 <= f < 8 && 0 <= r < 8
}

pub open spec fn square_at(f: int, r: int) -> int {
    f + 8 * r
}

/// The file (0 for A .. 7 for H) of a square.
pub fn file(s: Square) -> (r: u8)
    requires
        s < 64,
    ensures
        r == file_of(s as int),
        r < 8,
{
    s % 8
}

/// The rank (0 for the first .. 7 for the eighth) of a square.
pub fn rank(s: Square) -> (r: u8)
    requires
        s < 64,
    ensures
        r == rank_of(s as int),
        r < 8,
{
    s / 8
}

/// The square on file `f` and rank `r`.
pub fn from_idxs(f: u8, r: u8) -> (s: Square)
    requires
        f < 8,
        r < 8,
    ensures
        s == square_at(f as int, r as int),
        s < 64,
        file_of(s as int) == f,
        rank_of(s as int) == r,
{
    f + 8 * r
}

/// The square reached from `s` by moving `df` files and `dr` ranks, if it is on the board.
pub fn offset(s: Square, df: i8, dr: i8) -> (r: Option<Square>)
    requires
        s < 64,
        -8 <= df <= 8,
        -8 <= dr <= 8,
    ensures
        r == (if on_board(file_of(s as int) + df, rank_of(s as int) + dr) {
            Some(square_at(file_of(s as int) + df, rank_of(s as int) + dr) as u8)
        } else {
            None
        }),
{
    let f: i8 = (s % 8) as i8 + df;
    let r: i8 = (s / 8) as i8 + dr;
    if 0 <= f && f < 8 && 0 <= r && r < 8 {
        Some((f + 8 * r) as u8)
    } else {
        None
    }
}

} // verus!
