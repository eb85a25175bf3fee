use vstd::prelude::*;

verus! {

/// The side that owns a piece or that is to move.
#[derive(Debug, PartialEq, Eq, Structural, Clone, Copy)]
pub enum Player {
    White,
    Black,
}

impl Player {
    pub open spec fn spec_other(self) -> Player {
        match self {
            Player::White => Player::Black,
            Player::Black => Player::White,
        }
    }

    /// The opposing side.
    #[verifier::when_used_as_spec(spec_other)]
    pub fn other(self) -> (r: Player)
        ensures
            r == self.spec_other(),
    {
        match self {
            Player::White => Player::Black,
            Player::Black => Player::White,
        }
    }
}

#[derive(Debug, PartialEq, Eq, Structural, Clone, Copy)]
pub enum PieceKind {
    Pawn,
    Knight,
    Bishop,
    Rook,
    Queen,
    King,
}

impl PieceKind {
    /// Index of the kind in tables ordered pawn, knight, bishop, rook, queen, king.
    pub open spec fn spec_index(self) -> u64 {
        match self {
            PieceKind::Pawn => 0,
            PieceKind::Knight => 1,
            PieceKind::Bishop => 2,
            PieceKind::Rook => 3,
            PieceKind::Queen => 4,
            PieceKind::King => 5,
        }
    }

    #[verifier::when_used_as_spec(spec_index)]
    pub fn index(self) -> (r: u64)
        ensures
            r == self.spec_index(),
            r < 6,
    {
        match self {
            PieceKind::Pawn => 0,
            PieceKind::Knight => 1,
            PieceKind::Bishop => 2,
            PieceKind::Rook => 3,
            PieceKind::Queen => 4,
            PieceKind::King => 5,
        }
    }
}

/// The kinds a pawn may promote to.
#[derive(Debug, PartialEq, Eq, Structural, Clone, Copy)]
pub enum PromotionPieceKind {
    Knight,
    Bishop,
    Rook,
    Queen,
}

impl PromotionPieceKind {
    pub open spec fn spec_piece(&self) -> PieceKind {
        match self {
            PromotionPieceKind::Knight => PieceKind::Knight,
            PromotionPieceKind::Bishop => PieceKind::Bishop,
            PromotionPieceKind::Rook => PieceKind::Rook,
            PromotionPieceKind::Queen => PieceKind::Queen,
        }
    }

    /// The piece kind that a promotion produces.
    #[verifier::when_used_as_spec(spec_piece)]
    pub fn piece(&self) -> (r: PieceKind)
        ensures
            r == self.spec_piece(),
    {
        match self {
            PromotionPieceKind::Knight => PieceKind::Knight,
            PromotionPieceKind::Bishop => PieceKind::Bishop,
            PromotionPieceKind::Rook => PieceKind::Rook,
            PromotionPieceKind::Queen => PieceKind::Queen,
        }
    }
}

#[derive(Debug, PartialEq, Eq, Structural, Clone, Copy)]
pub struct Piece {
    pub kind: PieceKind,
    pub player: Player,
}

impl Piece {
    pub fn new(player: Player, kind: PieceKind) -> (r: Piece)
        ensures
            r == (Piece { kind, player }),
    {
        Piece { kind, player }
    }

    pub fn white(kind: PieceKind) -> (r: Piece)
        ensures
            r == (Piece { kind, player: Player::White }),
    {
        Piece::new(Player::White, kind)
    }

    pub fn black(kind: PieceKind) -> (r: Piece)
        ensures
            r == (Piece { kind, player: Player::Black }),
    {
        Piece::new(Player::Black, kind)
    }

    /// Index of the piece among the twelve (kind, player) pairs: kind * 2 + player.
    pub open spec fn spec_index(self) -> u64 {
        (self.kind.spec_index() * 2 + match self.player {
            Player::White => 0u64,
            Player::Black => 1u64,
        }) as u64
    }

    #[verifier::when_used_as_spec(spec_index)]
    pub fn index(self) -> (r: u64)
        ensures
            r == self.spec_index(),
            r < 12,
    {
        self.kind.index() * 2 + match self.player {
            Player::White => 0u64,
            Player::Black => 1u64,
        }
    }
}

} // verus!
