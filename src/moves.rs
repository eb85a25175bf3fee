use vstd::prelude::*;
use crate::piece::{Player, PromotionPieceKind};
use crate::square::Square;

verus! {

/// A move from `src` to `dst`, with the kind a pawn promotes to, if it does.
#[derive(PartialEq, Eq, Structural, Clone, Copy, Debug)]
pub struct Move {
    pub src: Square,
    pub dst: Square,
    pub promotion: Option<PromotionPieceKind>,
}

impl Move {
    pub fn new(src: Square, dst: Square) -> (r: Move)
        ensures
            r == (Move { src, dst, promotion: None }),
    {
        Move { src, dst, promotion: None }
    }

    pub fn new_with_promotion(src: Square, dst: Square, promotion: PromotionPieceKind) -> (r: Move)
        ensures
            r == (Move { src, dst, promotion: Some(promotion) }),
    {
        Move { src, dst, promotion: Some(promotion) }
    }
}

/// The square a king starts on.
pub open spec fn king_start(p: Player) -> int {
    match p {
        Player::White => 4,
        Player::Black => 60,
    }
}

/// Where the king lands when castling kingside.
pub open spec fn kingside_castle_dest(p: Player) -> int {
    king_start(p) + 2
}

/// Where the king lands when castling queenside.
pub open spec fn queenside_castle_dest(p: Player) -> int {
    king_start(p) - 2
}

pub open spec fn kingside_rook_start(p: Player) -> int {
    king_start(p) + 3
}

pub open spec fn queenside_rook_start(p: Player) -> int {
    king_start(p) - 4
}

pub open spec fn kingside_rook_end(p: Player) -> int {
    king_start(p) + 1
}

pub open spec fn queenside_rook_end(p: Player) -> int {
    king_start(p) - 1
}

/// The base square of `player`'s back rank (A1 or A8).
pub fn back_rank_base(player: Player) -> (r: u8)
    ensures
        r == king_start(player) - 4,
{
    match player {
        Player::White => 0,
        Player::Black => 56,
    }
}

/// The king move that castles kingside.
pub fn kingside_castle_move(player: Player) -> (r: Move)
    ensures
        r == (Move {
            src: king_start(player) as u8,
            dst: kingside_castle_dest(player) as u8,
            promotion: None,
        }),
{
    let base = back_rank_base(player);
    Move::new(base + 4, base + 6)
}

/// The king move that castles queenside.
pub fn queenside_castle_move(player: Player) -> (r: Move)
    ensures
        r == (Move {
            src: king_start(player) as u8,
            dst: queenside_castle_dest(player) as u8,
            promotion: None,
        }),
{
    let base = back_rank_base(player);
    Move::new(base + 4, base + 2)
}

} // verus!
