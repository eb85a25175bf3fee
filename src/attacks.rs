use vstd::prelude::*;
use crate::bitboard::{has_bit, lemma_or, lemma_empty, with};
use crate::piece::{Piece, PieceKind, Player};
use crate::square::{file_of, rank_of, on_board, square_at, Square, offset};

verus! {

/// The rank step of a pawn of `player`: up for White, down for Black.
pub open spec fn forward(player: Player) -> int {
    match player {
        Player::White => 1,
        Player::Black => -1,
    }
}

/// Square `t` lies `df` files and `dr` ranks away from square `s`.
pub open spec fn displaced(s: int, t: int, df: int, dr: int) -> bool {
    &&& 0 <= s < 64
    &&& 0 <= t < 64
    &&& file_of(t) == file_of(s) + df
    &&& rank_of(t) == rank_of(s) + dr
}

pub open spec fn knight_step(s: int, t: int) -> bool {
    ||| displaced(s, t, 1, 2)
    ||| displaced(s, t, 2, 1)
    ||| displaced(s, t, 2, -1)
    ||| displaced(s, t, 1, -2)
    ||| displaced(s, t, -1, -2)
    ||| displaced(s, t, -2, -1)
    ||| displaced(s, t, -2, 1)
    ||| displaced(s, t, -1, 2)
}

pub open spec fn king_step(s: int, t: int) -> bool {
    ||| displaced(s, t, 0, 1)
    ||| displaced(s, t, 1, 1)
    ||| displaced(s, t, 1, 0)
    ||| displaced(s, t, 1, -1)
    ||| displaced(s, t, 0, -1)
    ||| displaced(s, t, -1, -1)
    ||| displaced(s, t, -1, 0)
    ||| displaced(s, t, -1, 1)
}

/// A pawn of `player` on `s` attacks `t`.
pub open spec fn pawn_step(s: int, player: Player, t: int) -> bool {
    ||| displaced(s, t, 1, forward(player))
    ||| displaced(s, t, -1, forward(player))
}

/// The squares of a bitboard, as a set of indices.
pub open spec fn bits(b: u64) -> Set<int> {
    Set::new(|t: int| 0 <= t < 64 && has_bit(b, t as u64))
}

/// The squares reached from (f, r) stepping by (df, dr), at most `n` steps, up to and
/// including the first square in `blockers`.
pub open spec fn ray(blockers: Set<int>, f: int, r: int, df: int, dr: int, n: nat) -> Set<int>
    decreases n,
{
    if n == 0 || !on_board(f + df, r + dr) {
        Set::empty()
    } else {
        let t = square_at(f + df, r + dr);
        if blockers.contains(t) {
            set![t]
        } else {
            ray(blockers, f + df, r + dr, df, dr, (n - 1) as nat).insert(t)
        }
    }
}

pub open spec fn ray_from(blockers: Set<int>, s: int, df: int, dr: int) -> Set<int> {
    ray(blockers, file_of(s), rank_of(s), df, dr, 8)
}

pub open spec fn bishop_set(blockers: Set<int>, s: int) -> Set<int> {
    ray_from(blockers, s, 1, 1) + ray_from(blockers, s, 1, -1) + ray_from(blockers, s, -1, -1)
        + ray_from(blockers, s, -1, 1)
}

pub open spec fn rook_set(blockers: Set<int>, s: int) -> Set<int> {
    ray_from(blockers, s, 0, 1) + ray_from(blockers, s, 1, 0) + ray_from(blockers, s, 0, -1)
        + ray_from(blockers, s, -1, 0)
}

/// The occupied squares of a mailbox.
pub open spec fn occupied(board: Seq<Option<Piece>>) -> Set<int> {
    Set::new(|t: int| 0 <= t < 64 && board[t] is Some)
}

/// A piece of `kind` and side `by` on `t` attacks `sq`, seen from `sq`.
pub open spec fn attacks_back(
    board: Seq<Option<Piece>>,
    sq: int,
    t: int,
    kind: PieceKind,
    by: Player,
) -> bool {
    match kind {
        PieceKind::Pawn => pawn_step(sq, by.spec_other(), t),
        PieceKind::Knight => knight_step(sq, t),
        PieceKind::King => king_step(sq, t),
        PieceKind::Bishop => bishop_set(occupied(board), sq).contains(t),
        PieceKind::Rook => rook_set(occupied(board), sq).contains(t),
        PieceKind::Queen => bishop_set(occupied(board), sq).contains(t) || rook_set(
            occupied(board),
            sq,
        ).contains(t),
    }
}

/// Some piece of `by` attacks square `sq`.
pub open spec fn attacked_by(board: Seq<Option<Piece>>, sq: int, by: Player) -> bool {
    exists|t: int|
        0 <= t < 64 && #[trigger] board[t] is Some && board[t].unwrap().player == by
            && attacks_back(board, sq, t, board[t].unwrap().kind, by)
}

/// A king of `player` stands on an attacked square.
pub open spec fn in_check(board: Seq<Option<Piece>>, player: Player) -> bool {
    exists|k: int|
        0 <= k < 64 && #[trigger] board[k] == Some(Piece { kind: PieceKind::King, player })
            && attacked_by(board, k, player.spec_other())
}

/// `acc` with the square `df` files and `dr` ranks from `s` added, if it is on the board.
fn add_offset(acc: u64, s: Square, df: i8, dr: i8) -> (r: u64)
    requires
        s < 64,
        -2 <= df <= 2,
        -2 <= dr <= 2,
    ensures
        forall|t: u64|
            t < 64 ==> (#[trigger] has_bit(r, t) <==> (has_bit(acc, t) || displaced(
                s as int,
                t as int,
                df as int,
                dr as int,
            ))),
{
    match offset(s, df, dr) {
        Some(t) => {
            let r = with(acc, t);
            proof {
                assert forall|u: u64| u < 64 implies (#[trigger] has_bit(r, u) <==> (has_bit(acc, u)
                    || displaced(s as int, u as int, df as int, dr as int))) by {
                    if displaced(s as int, u as int, df as int, dr as int) {
                        assert(u == square_at(file_of(u as int), rank_of(u as int)));
                    }
                }
            }
            r
        },
        None => acc,
    }
}

/// The squares a knight on `s` attacks.
pub fn knight_attacks(s: Square) -> (r: u64)
    requires
        s < 64,
    ensures
        forall|t: u64| t < 64 ==> (#[trigger] has_bit(r, t) <==> knight_step(s as int, t as int)),
{
    let mut acc: u64 = 0;
    proof {
        assert forall|t: u64| t < 64 implies !#[trigger] has_bit(acc, t) by {
            lemma_empty(t);
        }
    }
    acc = add_offset(acc, s, 1, 2);
    acc = add_offset(acc, s, 2, 1);
    acc = add_offset(acc, s, 2, -1);
    acc = add_offset(acc, s, 1, -2);
    acc = add_offset(acc, s, -1, -2);
    acc = add_offset(acc, s, -2, -1);
    acc = add_offset(acc, s, -2, 1);
    acc = add_offset(acc, s, -1, 2);
    acc
}

/// The squares a king on `s` attacks.
pub fn king_attacks(s: Square) -> (r: u64)
    requires
        s < 64,
    ensures
        forall|t: u64| t < 64 ==> (#[trigger] has_bit(r, t) <==> king_step(s as int, t as int)),
{
    let mut acc: u64 = 0;
    proof {
        assert forall|t: u64| t < 64 implies !#[trigger] has_bit(acc, t) by {
            lemma_empty(t);
        }
    }
    acc = add_offset(acc, s, 0, 1);
    acc = add_offset(acc, s, 1, 1);
    acc = add_offset(acc, s, 1, 0);
    acc = add_offset(acc, s, 1, -1);
    acc = add_offset(acc, s, 0, -1);
    acc = add_offset(acc, s, -1, -1);
    acc = add_offset(acc, s, -1, 0);
    acc = add_offset(acc, s, -1, 1);
    acc
}

/// The squares a pawn of `player` on `s` attacks.
pub fn pawn_attacks(s: Square, player: Player) -> (r: u64)
    requires
        s < 64,
    ensures
        forall|t: u64|
            t < 64 ==> (#[trigger] has_bit(r, t) <==> pawn_step(s as int, player, t as int)),
{
    let mut acc: u64 = 0;
    proof {
        assert forall|t: u64| t < 64 implies !#[trigger] has_bit(acc, t) by {
            lemma_empty(t);
        }
    }
    let dr: i8 = match player {
        Player::White => 1,
        Player::Black => -1,
    };
    acc = add_offset(acc, s, 1, dr);
    acc = add_offset(acc, s, -1, dr);
    acc
}

/// The squares along one ray from `s`, up to and including the first occupied one.
fn ray_attacks(s: Square, occ: u64, df: i8, dr: i8) -> (r: u64)
    requires
        s < 64,
        -1 <= df <= 1,
        -1 <= dr <= 1,
    ensures
        forall|t: u64|
            t < 64 ==> (#[trigger] has_bit(r, t) <==> ray_from(bits(occ), s as int, df as int, dr as int).contains(t as int)),
{
    let ghost full = ray_from(bits(occ), s as int, df as int, dr as int);
    let mut acc: u64 = 0;
    let mut f: i8 = (s % 8) as i8;
    let mut r: i8 = (s / 8) as i8;
    let mut n: u8 = 8;
    let mut done = false;
    proof {
        assert forall|t: u64| t < 64 implies !#[trigger] has_bit(acc, t) by {
            lemma_empty(t);
        }
    }
    while !done
        invariant
            0 <= f < 8,
            0 <= r < 8,
            n <= 8,
            -1 <= df <= 1,
            -1 <= dr <= 1,
            full == ray_from(bits(occ), s as int, df as int, dr as int),
            forall|t: u64|
                t < 64 ==> ((#[trigger] has_bit(acc, t) || (!done && ray(
                    bits(occ),
                    f as int,
                    r as int,
                    df as int,
                    dr as int,
                    n as nat,
                ).contains(t as int))) <==> full.contains(t as int)),
        decreases n, (if done { 0int } else { 1int }),
    {
        let nf: i8 = f + df;
        let nr: i8 = r + dr;
        if n == 0 || nf < 0 || nf >= 8 || nr < 0 || nr >= 8 {
            proof {
                let rest = ray(bits(occ), f as int, r as int, df as int, dr as int, n as nat);
                assert(rest =~= Set::empty());
                assert forall|t: u64| t < 64 implies (#[trigger] has_bit(acc, t) <==> full.contains(t as int)) by {
                    assert(!rest.contains(t as int));
                }
            }
            done = true;
        } else {
            let t: u8 = (nf + 8 * nr) as u8;
            let old_acc = acc;
            acc = with(acc, t);
            let blocked = (occ >> (t as u64)) & 1u64 == 1u64;
            proof {
                let rest = ray(bits(occ), f as int, r as int, df as int, dr as int, n as nat);
                assert(bits(occ).contains(t as int) == blocked);
                if blocked {
                    assert(rest =~= set![t as int]);
                } else {
                    assert(rest =~= ray(bits(occ), nf as int, nr as int, df as int, dr as int, (n - 1) as nat).insert(t as int));
                }
            }
            let ghost f0 = f;
            let ghost r0 = r;
            let ghost n0 = n;
            if blocked {
                done = true;
            } else {
                f = nf;
                r = nr;
                n = n - 1;
            }
            proof {
                let rest = ray(bits(occ), f0 as int, r0 as int, df as int, dr as int, n0 as nat);
                assert forall|u: u64| u < 64 implies ((#[trigger] has_bit(acc, u) || (!done && ray(
                    bits(occ),
                    f as int,
                    r as int,
                    df as int,
                    dr as int,
                    n as nat,
                ).contains(u as int))) <==> full.contains(u as int)) by {
                    assert(has_bit(old_acc, u) || rest.contains(u as int) <==> full.contains(u as int));
                }
            }
        }
    }
    acc
}

/// The squares a bishop on `s` attacks when `occ` holds the occupied squares.
pub fn bishop_attacks(s: Square, occ: u64) -> (r: u64)
    requires
        s < 64,
    ensures
        forall|t: u64|
            t < 64 ==> (#[trigger] has_bit(r, t) <==> bishop_set(bits(occ), s as int).contains(t as int)),
{
    let a = ray_attacks(s, occ, 1, 1);
    let b = ray_attacks(s, occ, 1, -1);
    let c = ray_attacks(s, occ, -1, -1);
    let d = ray_attacks(s, occ, -1, 1);
    proof {
        assert forall|t: u64| t < 64 implies (#[trigger] has_bit(a | b | c | d, t) <==> bishop_set(bits(occ), s as int).contains(t as int)) by {
            lemma_or(a, b, t);
            lemma_or(a | b, c, t);
            lemma_or(a | b | c, d, t);
        }
    }
    a | b | c | d
}

/// The squares a rook on `s` attacks when `occ` holds the occupied squares.
pub fn rook_attacks(s: Square, occ: u64) -> (r: u64)
    requires
        s < 64,
    ensures
        forall|t: u64|
            t < 64 ==> (#[trigger] has_bit(r, t) <==> rook_set(bits(occ), s as int).contains(t as int)),
{
    let a = ray_attacks(s, occ, 0, 1);
    let b = ray_attacks(s, occ, 1, 0);
    let c = ray_attacks(s, occ, 0, -1);
    let d = ray_attacks(s, occ, -1, 0);
    proof {
        assert forall|t: u64| t < 64 implies (#[trigger] has_bit(a | b | c | d, t) <==> rook_set(bits(occ), s as int).contains(t as int)) by {
            lemma_or(a, b, t);
            lemma_or(a | b, c, t);
            lemma_or(a | b | c, d, t);
        }
    }
    a | b | c | d
}

/// The squares a queen on `s` attacks when `occ` holds the occupied squares.
pub fn queen_attacks(s: Square, occ: u64) -> (r: u64)
    requires
        s < 64,
    ensures
        forall|t: u64|
            t < 64 ==> (#[trigger] has_bit(r, t) <==> (bishop_set(bits(occ), s as int).contains(t as int)
                || rook_set(bits(occ), s as int).contains(t as int))),
{
    let a = bishop_attacks(s, occ);
    let b = rook_attacks(s, occ);
    proof {
        assert forall|t: u64| t < 64 implies (#[trigger] has_bit(a | b, t) <==> (bishop_set(bits(occ), s as int).contains(t as int)
            || rook_set(bits(occ), s as int).contains(t as int))) by {
            lemma_or(a, b, t);
        }
    }
    a | b
}

} // verus!
