use vstd::prelude::*;
use crate::bitboard::{count, count_spec};
use crate::board::PlayerPieces;
use crate::game::Game;
use crate::params::{param, param_at};
use crate::piece::PieceKind;

verus! {

/// The midgame value of a piece of `kind` (a king counts nothing).
pub open spec fn piece_value(kind: PieceKind) -> int {
    param(kind.spec_index() as usize).0
}

/// The material of one side: each piece count times its value, the king excluded.
pub open spec fn material(pp: PlayerPieces) -> int {
    count_spec(pp.pawns) * piece_value(PieceKind::Pawn) + count_spec(pp.knights) * piece_value(
        PieceKind::Knight,
    ) + count_spec(pp.bishops) * piece_value(PieceKind::Bishop) + count_spec(pp.rooks)
        * piece_value(PieceKind::Rook) + count_spec(pp.queens) * piece_value(PieceKind::Queen)
}

fn times_value(n: u32, kind: PieceKind) -> (r: i32)
    requires
        n <= 64,
    ensures
        r == n * piece_value(kind),
        -76800 <= r <= 76800,
{
    let (v, _) = param_at(kind.index() as usize);
    assert(-76800 <= n * v <= 76800) by (nonlinear_arith)
        requires
            n <= 64,
            -1200 <= v <= 1200,
    ;
    n as i32 * v
}

/// The material of one side.
pub fn count_piece_values(pieces: &PlayerPieces) -> (r: i32)
    ensures
        r == material(*pieces),
        -384000 <= r <= 384000,
{
    times_value(count(pieces.pawns), PieceKind::Pawn) + times_value(count(pieces.knights), PieceKind::Knight)
        + times_value(count(pieces.bishops), PieceKind::Bishop) + times_value(
        count(pieces.rooks),
        PieceKind::Rook,
    ) + times_value(count(pieces.queens), PieceKind::Queen)
}

pub fn white_piece_value(game: &Game) -> (r: i32)
    ensures
        r == material(game.board.white_pieces),
        -384000 <= r <= 384000,
{
    count_piece_values(&game.board.white_pieces)
}

pub fn black_piece_value(game: &Game) -> (r: i32)
    ensures
        r == -material(game.board.black_pieces),
        -384000 <= r <= 384000,
{
    -count_piece_values(&game.board.black_pieces)
}

/// White's material minus Black's.
pub fn material_diff(game: &Game) -> (r: i32)
    ensures
        r == material(game.board.white_pieces) - material(game.board.black_pieces),
{
    white_piece_value(game) + black_piece_value(game)
}

} // verus!
