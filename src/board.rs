use vstd::prelude::*;
use crate::attacks::{attacked_by, attacks_back, bishop_attacks, bits, in_check, king_attacks, knight_attacks, occupied, pawn_attacks, rook_attacks};
use crate::bitboard::{contains, has_bit, lemma_or, lemma_empty, with, without, Bitboard};
use crate::piece::{Piece, PieceKind, Player};
use crate::square::Square;

verus! {

/// The six piece sets of one side.
#[derive(Clone, Copy, Debug)]
pub struct PlayerPieces {
    pub pawns: Bitboard,
    pub knights: Bitboard,
    pub bishops: Bitboard,
    pub rooks: Bitboard,
    pub queens: Bitboard,
    pub king: Bitboard,
}

impl PlayerPieces {
    pub open spec fn spec_of_kind(&self, kind: PieceKind) -> u64 {
        match kind {
            PieceKind::Pawn => self.pawns,
            PieceKind::Knight => self.knights,
            PieceKind::Bishop => self.bishops,
            PieceKind::Rook => self.rooks,
            PieceKind::Queen => self.queens,
            PieceKind::King => self.king,
        }
    }

    /// The set of squares holding pieces of `kind`.
    #[verifier::when_used_as_spec(spec_of_kind)]
    pub fn of_kind(&self, kind: PieceKind) -> (r: u64)
        ensures
            r == self.spec_of_kind(kind),
    {
        match kind {
            PieceKind::Pawn => self.pawns,
            PieceKind::Knight => self.knights,
            PieceKind::Bishop => self.bishops,
            PieceKind::Rook => self.rooks,
            PieceKind::Queen => self.queens,
            PieceKind::King => self.king,
        }
    }

    pub fn empty() -> (r: PlayerPieces)
        ensures
            forall|k: PieceKind| #[trigger] r.spec_of_kind(k) == 0,
    {
        PlayerPieces { pawns: 0, knights: 0, bishops: 0, rooks: 0, queens: 0, king: 0 }
    }

    /// The union of the six sets.
    pub fn all(&self) -> (r: u64)
        ensures
            forall|t: u64|
                t < 64 ==> (#[trigger] has_bit(r, t) <==> exists|k: PieceKind|
                    has_bit(#[trigger] self.spec_of_kind(k), t)),
    {
        let r = self.pawns | self.knights | self.bishops | self.rooks | self.queens | self.king;
        proof {
            assert forall|t: u64| t < 64 implies (#[trigger] has_bit(r, t) <==> exists|k: PieceKind|
                has_bit(#[trigger] self.spec_of_kind(k), t)) by {
                lemma_or(self.pawns, self.knights, t);
                lemma_or(self.pawns | self.knights, self.bishops, t);
                lemma_or(self.pawns | self.knights | self.bishops, self.rooks, t);
                lemma_or(self.pawns | self.knights | self.bishops | self.rooks, self.queens, t);
                lemma_or(
                    self.pawns | self.knights | self.bishops | self.rooks | self.queens,
                    self.king,
                    t,
                );
                if has_bit(r, t) {
                    if has_bit(self.pawns, t) {
                        assert(has_bit(self.spec_of_kind(PieceKind::Pawn), t));
                    } else if has_bit(self.knights, t) {
                        assert(has_bit(self.spec_of_kind(PieceKind::Knight), t));
                    } else if has_bit(self.bishops, t) {
                        assert(has_bit(self.spec_of_kind(PieceKind::Bishop), t));
                    } else if has_bit(self.rooks, t) {
                        assert(has_bit(self.spec_of_kind(PieceKind::Rook), t));
                    } else if has_bit(self.queens, t) {
                        assert(has_bit(self.spec_of_kind(PieceKind::Queen), t));
                    } else {
                        assert(has_bit(self.spec_of_kind(PieceKind::King), t));
                    }
                }
            }
        }
        r
    }
}

/// The position of the pieces: per-side piece sets together with a square-indexed mailbox.
#[derive(Clone, Debug)]
pub struct Board {
    pub white_pieces: PlayerPieces,
    pub black_pieces: PlayerPieces,
    pub pieces: Vec<Option<Piece>>,
}

impl View for Board {
    type V = Seq<Option<Piece>>;

    open spec fn view(&self) -> Seq<Option<Piece>> {
        self.pieces@
    }
}

/// What stands on each square at the start of a game.
pub open spec fn start_piece(s: int) -> Option<Piece> {
    let f = s % 8;
    let r = s / 8;
    let player = if r < 2 {
        Player::White
    } else {
        Player::Black
    };
    if r == 1 || r == 6 {
        Some(Piece { kind: PieceKind::Pawn, player })
    } else if r == 0 || r == 7 {
        Some(Piece { kind: back_rank_kind(f), player })
    } else {
        None
    }
}

pub open spec fn back_rank_kind(f: int) -> PieceKind {
    if f == 0 || f == 7 {
        PieceKind::Rook
    } else if f == 1 || f == 6 {
        PieceKind::Knight
    } else if f == 2 || f == 5 {
        PieceKind::Bishop
    } else if f == 3 {
        PieceKind::Queen
    } else {
        PieceKind::King
    }
}

pub open spec fn start_board() -> Seq<Option<Piece>> {
    Seq::new(64, |s: int| start_piece(s))
}

impl Board {
    pub open spec fn spec_player_pieces(&self, player: Player) -> PlayerPieces {
        match player {
            Player::White => self.white_pieces,
            Player::Black => self.black_pieces,
        }
    }

    /// The set of squares that hold piece `p`.
    pub open spec fn bb(&self, p: Piece) -> u64 {
        self.spec_player_pieces(p.player).spec_of_kind(p.kind)
    }

    /// The mailbox has one slot per square, and square t is in the set of piece p
    /// exactly when the mailbox holds p on t.
    pub open spec fn wf(&self) -> bool {
        &&& self.pieces@.len() == 64
        &&& forall|p: Piece, t: u64|
            t < 64 ==> (#[trigger] has_bit(self.bb(p), t) <==> self.pieces@[t as int] == Some(p))
    }

    /// The piece sets of one side.
    pub fn player_pieces(&self, player: Player) -> (r: &PlayerPieces)
        ensures
            *r == self.spec_player_pieces(player),
    {
        match player {
            Player::White => &self.white_pieces,
            Player::Black => &self.black_pieces,
        }
    }

    /// A board with no pieces.
    pub fn empty() -> (r: Board)
        ensures
            r.wf(),
            r@ == Seq::new(64, |s: int| None::<Piece>),
    {
        let mut pieces: Vec<Option<Piece>> = Vec::new();
        let mut i: usize = 0;
        while i < 64
            invariant
                i <= 64,
                pieces@ == Seq::new(i as nat, |s: int| None::<Piece>),
            decreases 64 - i,
        {
            pieces.push(None);
            i = i + 1;
        }
        let r = Board { white_pieces: PlayerPieces::empty(), black_pieces: PlayerPieces::empty(), pieces };
        proof {
            assert forall|p: Piece, t: u64| t < 64 implies (#[trigger] has_bit(r.bb(p), t)
                <==> r.pieces@[t as int] == Some(p)) by {
                lemma_empty(t);
            }
        }
        r
    }

    /// The piece on `square`, if any.
    pub fn piece_at(&self, square: Square) -> (r: Option<Piece>)
        requires
            self.wf(),
            square < 64,
        ensures
            r == self@[square as int],
    {
        self.pieces[square as usize]
    }

    fn set_bb(&mut self, p: Piece, v: u64)
        ensures
            final(self).bb(p) == v,
            forall|q: Piece| q != p ==> #[trigger] final(self).bb(q) == old(self).bb(q),
            final(self).pieces == old(self).pieces,
    {
        let pp = match p.player {
            Player::White => &mut self.white_pieces,
            Player::Black => &mut self.black_pieces,
        };
        match p.kind {
            PieceKind::Pawn => pp.pawns = v,
            PieceKind::Knight => pp.knights = v,
            PieceKind::Bishop => pp.bishops = v,
            PieceKind::Rook => pp.rooks = v,
            PieceKind::Queen => pp.queens = v,
            PieceKind::King => pp.king = v,
        }
    }

    /// Puts `piece` on the empty square `square`.
    pub fn set_at(&mut self, square: Square, piece: Piece)
        requires
            old(self).wf(),
            square < 64,
            old(self)@[square as int] is None,
        ensures
            final(self).wf(),
            final(self)@ == old(self)@.update(square as int, Some(piece)),
    {
        let cur = match piece.player {
            Player::White => self.white_pieces.of_kind(piece.kind),
            Player::Black => self.black_pieces.of_kind(piece.kind),
        };
        let nv = with(cur, square);
        self.pieces.set(square as usize, Some(piece));
        self.set_bb(piece, nv);
        proof {
            let o = old(self);
            assert(cur == o.bb(piece));
            assert forall|p: Piece, t: u64| t < 64 implies (#[trigger] has_bit(self.bb(p), t)
                <==> self.pieces@[t as int] == Some(p)) by {
                assert(has_bit(o.bb(p), t) <==> o.pieces@[t as int] == Some(p));
                if p == piece {
                    assert(has_bit(nv, t) <==> (has_bit(cur, t) || t == square));
                } else {
                    assert(self.bb(p) == o.bb(p));
                    if t == square {
                        assert(!has_bit(o.bb(p), t));
                    }
                }
            }
        }
    }

    /// Takes the piece off `square`; returns whether there was one.
    pub fn remove_at(&mut self, square: Square) -> (r: bool)
        requires
            old(self).wf(),
            square < 64,
        ensures
            final(self).wf(),
            r == old(self)@[square as int] is Some,
            final(self)@ == old(self)@.update(square as int, None),
    {
        match self.pieces[square as usize] {
            None => {
                proof {
                    assert(self@ =~= old(self)@.update(square as int, None));
                }
                false
            },
            Some(piece) => {
                let cur = match piece.player {
                    Player::White => self.white_pieces.of_kind(piece.kind),
                    Player::Black => self.black_pieces.of_kind(piece.kind),
                };
                let nv = without(cur, square);
                self.pieces.set(square as usize, None);
                self.set_bb(piece, nv);
                proof {
                    let o = old(self);
                    assert(cur == o.bb(piece));
                    assert forall|p: Piece, t: u64| t < 64 implies (#[trigger] has_bit(
                        self.bb(p),
                        t,
                    ) <==> self.pieces@[t as int] == Some(p)) by {
                        assert(has_bit(o.bb(p), t) <==> o.pieces@[t as int] == Some(p));
                        if p == piece {
                            assert(has_bit(nv, t) <==> (has_bit(cur, t) && t != square));
                        } else {
                            assert(self.bb(p) == o.bb(p));
                        }
                    }
                }
                true
            },
        }
    }

    /// Builds a board from a mailbox of 64 squares.
    pub fn from_pieces(pieces: &Vec<Option<Piece>>) -> (r: Board)
        requires
            pieces@.len() == 64,
        ensures
            r.wf(),
            r@ == pieces@,
    {
        let mut b = Board::empty();
        let mut i: usize = 0;
        while i < 64
            invariant
                i <= 64,
                pieces@.len() == 64,
                b.wf(),
                forall|s: int| 0 <= s < i ==> b@[s] == pieces@[s],
                forall|s: int| i <= s < 64 ==> b@[s] is None,
            decreases 64 - i,
        {
            if let Some(p) = pieces[i] {
                b.set_at(i as u8, p);
            }
            i = i + 1;
        }
        assert(b@ =~= pieces@);
        b
    }

    /// The board at the start of a game.
    pub fn start() -> (r: Board)
        ensures
            r.wf(),
            r@ == start_board(),
    {
        let mut b = Board::empty();
        let mut f: u8 = 0;
        while f < 8
            invariant
                f <= 8,
                b.wf(),
                forall|s: int|
                    0 <= s < 64 ==> #[trigger] b@[s] == if s % 8 < f {
                        start_piece(s)
                    } else {
                        None
                    },
            decreases 8 - f,
        {
            let kind = if f == 0 || f == 7 {
                PieceKind::Rook
            } else if f == 1 || f == 6 {
                PieceKind::Knight
            } else if f == 2 || f == 5 {
                PieceKind::Bishop
            } else if f == 3 {
                PieceKind::Queen
            } else {
                PieceKind::King
            };
            b.set_at(f, Piece::white(kind));
            b.set_at(f + 8, Piece::white(PieceKind::Pawn));
            b.set_at(f + 48, Piece::black(PieceKind::Pawn));
            b.set_at(f + 56, Piece::black(kind));
            f = f + 1;
        }
        assert(b@ =~= start_board());
        b
    }

    /// The set of occupied squares.
    pub fn occupancy(&self) -> (r: u64)
        requires
            self.wf(),
        ensures
            forall|t: u64| t < 64 ==> (#[trigger] has_bit(r, t) <==> self@[t as int] is Some),
    {
        let w = self.white_pieces.all();
        let b = self.black_pieces.all();
        proof {
            assert forall|t: u64| t < 64 implies (#[trigger] has_bit(w | b, t) <==> self@[t as int] is Some) by {
                lemma_or(w, b, t);
                if let Some(p) = self@[t as int] {
                    assert(has_bit(self.bb(p), t));
                    assert(has_bit(self.spec_player_pieces(p.player).spec_of_kind(p.kind), t));
                }
                if has_bit(w, t) {
                    let k = choose|k: PieceKind| has_bit(self.white_pieces.spec_of_kind(k), t);
                    assert(has_bit(self.bb(Piece { kind: k, player: Player::White }), t));
                }
                if has_bit(b, t) {
                    let k = choose|k: PieceKind| has_bit(self.black_pieces.spec_of_kind(k), t);
                    assert(has_bit(self.bb(Piece { kind: k, player: Player::Black }), t));
                }
            }
        }
        w | b
    }

    /// Whether some piece of `by` attacks `sq`.
    pub fn attacked_by(&self, sq: Square, by: Player) -> (r: bool)
        requires
            self.wf(),
            sq < 64,
        ensures
            r == attacked_by(self@, sq as int, by),
    {
        let occ = self.occupancy();
        proof {
            assert(bits(occ) =~= occupied(self@));
        }
        let pawns = pawn_attacks(sq, by.other());
        let knights = knight_attacks(sq);
        let kings = king_attacks(sq);
        let diag = bishop_attacks(sq, occ);
        let orth = rook_attacks(sq, occ);
        let mut t: u8 = 0;
        while t < 64
            invariant
                self.wf(),
                sq < 64,
                t <= 64,
                bits(occ) == occupied(self@),
                forall|u: u64| u < 64 ==> (#[trigger] has_bit(pawns, u) <==> attacks_back(self@, sq as int, u as int, PieceKind::Pawn, by)),
                forall|u: u64| u < 64 ==> (#[trigger] has_bit(knights, u) <==> attacks_back(self@, sq as int, u as int, PieceKind::Knight, by)),
                forall|u: u64| u < 64 ==> (#[trigger] has_bit(kings, u) <==> attacks_back(self@, sq as int, u as int, PieceKind::King, by)),
                forall|u: u64| u < 64 ==> (#[trigger] has_bit(diag, u) <==> attacks_back(self@, sq as int, u as int, PieceKind::Bishop, by)),
                forall|u: u64| u < 64 ==> (#[trigger] has_bit(orth, u) <==> attacks_back(self@, sq as int, u as int, PieceKind::Rook, by)),
                forall|u: int|
                    0 <= u < t ==> !(#[trigger] self@[u] is Some && self@[u].unwrap().player == by
                        && attacks_back(self@, sq as int, u, self@[u].unwrap().kind, by)),
            decreases 64 - t,
        {
            if let Some(p) = self.pieces[t as usize] {
                if p.player == by {
                    let hit = match p.kind {
                        PieceKind::Pawn => contains(pawns, t),
                        PieceKind::Knight => contains(knights, t),
                        PieceKind::King => contains(kings, t),
                        PieceKind::Bishop => contains(diag, t),
                        PieceKind::Rook => contains(orth, t),
                        PieceKind::Queen => contains(diag, t) || contains(orth, t),
                    };
                    proof {
                        assert(has_bit(pawns, t as u64) <==> attacks_back(self@, sq as int, t as int, PieceKind::Pawn, by));
                        assert(has_bit(knights, t as u64) <==> attacks_back(self@, sq as int, t as int, PieceKind::Knight, by));
                        assert(has_bit(kings, t as u64) <==> attacks_back(self@, sq as int, t as int, PieceKind::King, by));
                        assert(has_bit(diag, t as u64) <==> attacks_back(self@, sq as int, t as int, PieceKind::Bishop, by));
                        assert(has_bit(orth, t as u64) <==> attacks_back(self@, sq as int, t as int, PieceKind::Rook, by));
                        assert(hit == attacks_back(self@, sq as int, t as int, p.kind, by));
                    }
                    if hit {
                        return true;
                    }
                }
            }
            t = t + 1;
        }
        false
    }

    /// Whether a king of `player` stands on a square that the other side attacks.
    pub fn king_in_check(&self, player: Player) -> (r: bool)
        requires
            self.wf(),
        ensures
            r == in_check(self@, player),
    {
        let mut k: u8 = 0;
        while k < 64
            invariant
                self.wf(),
                k <= 64,
                forall|u: int|
                    0 <= u < k ==> !(#[trigger] self@[u] == Some(Piece { kind: PieceKind::King, player })
                        && attacked_by(self@, u, player.spec_other())),
            decreases 64 - k,
        {
            if let Some(p) = self.pieces[k as usize] {
                if p.player == player && p.kind == PieceKind::King {
                    if self.attacked_by(k, player.other()) {
                        return true;
                    }
                }
            }
            k = k + 1;
        }
        false
    }
}

} // verus!
