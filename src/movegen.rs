use vstd::prelude::*;
use crate::attacks::{attacked_by, bishop_attacks, bishop_set, bits, displaced, forward, in_check, king_attacks, king_step, knight_attacks, knight_step, occupied, pawn_step, queen_attacks, rook_attacks, rook_set};
use crate::bitboard::{contains, has_bit};
use crate::game::MoveError;
use crate::game::{lemma_make_undo, lemma_wf_core, last_rank, pawn_home_rank, rook, Game, GameModel};
use crate::moves::{king_start, Move};
use crate::piece::{Piece, PieceKind, Player, PromotionPieceKind};
use crate::square::{offset, rank, rank_of, Square};

verus! {

pub open spec fn own_at(g: GameModel, s: int) -> bool {
    g.board[s] is Some && g.board[s].unwrap().player == g.player
}

pub open spec fn enemy_at(g: GameModel, s: int) -> bool {
    g.board[s] is Some && g.board[s].unwrap().player != g.player
}

/// A pawn move carries a promotion exactly when it reaches the last rank.
pub open spec fn promotion_ok(g: GameModel, m: Move) -> bool {
    if rank_of(m.dst as int) == last_rank(g.player) {
        m.promotion is Some
    } else {
        m.promotion is None
    }
}

/// Where a pawn of the side to move on `src` may go: one square ahead if empty, two from
/// its home rank if both are empty, diagonally ahead onto an enemy piece or the en-passant
/// target.
pub open spec fn pawn_reach(g: GameModel, src: int, dst: int) -> bool {
    let f = forward(g.player);
    ||| displaced(src, dst, 0, f) && g.board[dst] is None
    ||| rank_of(src) == pawn_home_rank(g.player) && displaced(src, dst, 0, 2 * f) && g.board[src
        + 8 * f] is None && g.board[dst] is None
    ||| pawn_step(src, g.player, dst) && (enemy_at(g, dst) || g.en_passant_target == Some(
        dst as u8,
    ))
}

/// Where a piece of `kind` other than a pawn on `src` attacks.
pub open spec fn piece_reach(g: GameModel, kind: PieceKind, src: int, dst: int) -> bool {
    match kind {
        PieceKind::Pawn => false,
        PieceKind::Knight => knight_step(src, dst),
        PieceKind::King => king_step(src, dst),
        PieceKind::Bishop => bishop_set(occupied(g.board), src).contains(dst),
        PieceKind::Rook => rook_set(occupied(g.board), src).contains(dst),
        PieceKind::Queen => bishop_set(occupied(g.board), src).contains(dst) || rook_set(
            occupied(g.board),
            src,
        ).contains(dst),
    }
}

/// A castle of the side to move: the right is held, the rook is in place, the squares
/// between are empty, and the king does not start on, pass or land on an attacked square.
pub open spec fn castle_move(g: GameModel, m: Move) -> bool {
    let p = g.player;
    let k = king_start(p);
    let o = p.spec_other();
    &&& m.src == k
    &&& m.promotion is None
    &&& g.board[k] == Some(Piece { kind: PieceKind::King, player: p })
    &&& {
        ||| m.dst == k + 2 && g.own_rights().king_side && g.board[k + 3] == Some(rook(p))
            && g.board[k + 1] is None && g.board[k + 2] is None && !attacked_by(g.board, k, o)
            && !attacked_by(g.board, k + 1, o) && !attacked_by(g.board, k + 2, o)
        ||| m.dst == k - 2 && g.own_rights().queen_side && g.board[k - 4] == Some(rook(p))
            && g.board[k - 1] is None && g.board[k - 2] is None && g.board[k - 3] is None
            && !attacked_by(g.board, k, o) && !attacked_by(g.board, k - 1, o) && !attacked_by(
            g.board,
            k - 2,
            o,
        )
    }
}

/// Move `m` follows the movement rules for the side to move, ignoring whether it leaves
/// its own king attacked.
pub open spec fn pseudo_legal(g: GameModel, m: Move) -> bool {
    let src = m.src as int;
    let dst = m.dst as int;
    &&& 0 <= src < 64
    &&& 0 <= dst < 64
    &&& own_at(g, src)
    &&& match g.board[src].unwrap().kind {
        PieceKind::Pawn => pawn_reach(g, src, dst) && promotion_ok(g, m),
        PieceKind::King => (piece_reach(g, PieceKind::King, src, dst) && !own_at(g, dst)
            && m.promotion is None) || castle_move(g, m),
        k => piece_reach(g, k, src, dst) && !own_at(g, dst) && m.promotion is None,
    }
}

/// Move `m` is pseudo-legal and does not leave the mover's king attacked.
pub open spec fn legal(g: GameModel, m: Move) -> bool {
    pseudo_legal(g, m) && !in_check(g.after_move(m).board, g.player)
}

/// A pseudo-legal move has the shape that make and undo rely on.
pub proof fn lemma_pseudo_legal_move_ok(g: GameModel, m: Move)
    requires
        g.wf_core(),
        pseudo_legal(g, m),
    ensures
        g.move_ok(m),
{
    let moved = g.moved(m);
    if moved.kind == PieceKind::King && m.src == king_start(g.player) {
        if m.dst == king_start(g.player) + 2 || m.dst == king_start(g.player) - 2 {
            assert(!king_step(m.src as int, m.dst as int));
        }
    }
}

fn push_move(moves: &mut Vec<Move>, m: Move)
    requires
        old(moves)@.no_duplicates(),
        !old(moves)@.contains(m),
    ensures
        final(moves)@.no_duplicates(),
        forall|x: Move| #[trigger] final(moves)@.contains(x) <==> old(moves)@.contains(x) || x == m,
{
    let ghost o = moves@;
    moves.push(m);
    proof {
        assert forall|x: Move| #[trigger] moves@.contains(x) <==> o.contains(x) || x == m by {
            if o.contains(x) {
                let i = choose|i: int| 0 <= i < o.len() && o[i] == x;
                assert(moves@[i] == x);
            }
            if x == m {
                assert(moves@[o.len() as int] == x);
            }
            if moves@.contains(x) {
                let i = choose|i: int| 0 <= i < moves@.len() && moves@[i] == x;
                if i < o.len() {
                    assert(o[i] == x);
                }
            }
        }
    }
}

/// Adds a move from `src` to each square of `att` that does not hold a piece of the side
/// to move.
fn push_targets(g: &Game, src: Square, kind: PieceKind, att: u64, moves: &mut Vec<Move>)
    requires
        old(moves)@.no_duplicates(),
        forall|x: Move| #[trigger] old(moves)@.contains(x) ==> x.src < src,
        g.board.wf(),
        src < 64,
        forall|t: u64|
            t < 64 ==> (#[trigger] has_bit(att, t) <==> piece_reach(g@, kind, src as int, t as int)),
    ensures
        final(moves)@.no_duplicates(),
        forall|x: Move|
            #[trigger] final(moves)@.contains(x) <==> old(moves)@.contains(x) || (x.src == src
                && x.promotion is None && x.dst < 64 && piece_reach(g@, kind, src as int, x.dst as int)
                && !own_at(g@, x.dst as int)),
{
    let ghost o = moves@;
    let mut t: u8 = 0;
    while t < 64
        invariant
            g.board.wf(),
            src < 64,
            t <= 64,
            moves@.no_duplicates(),
            forall|x: Move| #[trigger] o.contains(x) ==> x.src < src,
            forall|u: u64|
                u < 64 ==> (#[trigger] has_bit(att, u) <==> piece_reach(g@, kind, src as int, u as int)),
            forall|x: Move|
                #[trigger] moves@.contains(x) <==> o.contains(x) || (x.src == src && x.promotion is None
                    && x.dst < t && piece_reach(g@, kind, src as int, x.dst as int) && !own_at(
                    g@,
                    x.dst as int,
                )),
        decreases 64 - t,
    {
        if contains(att, t) {
            let own = match g.board.piece_at(t) {
                Some(q) => q.player == g.player,
                None => false,
            };
            if !own {
                push_move(moves, Move::new(src, t));
            }
        }
        t = t + 1;
    }
}

/// Adds the pawn move from `src` to `dst`, once per promotion kind on the last rank.
fn push_pawn_target(g: &Game, src: Square, dst: Square, moves: &mut Vec<Move>)
    requires
        dst < 64,
        old(moves)@.no_duplicates(),
        forall|x: Move| #[trigger] old(moves)@.contains(x) ==> !(x.src == src && x.dst == dst),
    ensures
        final(moves)@.no_duplicates(),
        forall|x: Move|
            #[trigger] final(moves)@.contains(x) <==> old(moves)@.contains(x) || (x.src == src
                && x.dst == dst && promotion_ok(g@, x)),
{
    let last: u8 = match g.player {
        Player::White => 7,
        Player::Black => 0,
    };
    if rank(dst) == last {
        let ghost m0 = moves@;
        push_move(moves, Move::new_with_promotion(src, dst, PromotionPieceKind::Queen));
        let ghost m1 = moves@;
        push_move(moves, Move::new_with_promotion(src, dst, PromotionPieceKind::Rook));
        let ghost m2 = moves@;
        push_move(moves, Move::new_with_promotion(src, dst, PromotionPieceKind::Bishop));
        let ghost m3 = moves@;
        push_move(moves, Move::new_with_promotion(src, dst, PromotionPieceKind::Knight));
        proof {
            assert forall|x: Move|
                #[trigger] moves@.contains(x) <==> m0.contains(x) || (x.src == src && x.dst == dst
                    && promotion_ok(g@, x)) by {
                assert(moves@.contains(x) <==> m3.contains(x) || x == Move { src, dst, promotion: Some(PromotionPieceKind::Knight) });
                assert(m3.contains(x) <==> m2.contains(x) || x == Move { src, dst, promotion: Some(PromotionPieceKind::Bishop) });
                assert(m2.contains(x) <==> m1.contains(x) || x == Move { src, dst, promotion: Some(PromotionPieceKind::Rook) });
                assert(m1.contains(x) <==> m0.contains(x) || x == Move { src, dst, promotion: Some(PromotionPieceKind::Queen) });
                assert(rank_of(dst as int) == last_rank(g.player));
                if x.src == src && x.dst == dst && x.promotion is Some {
                    let k = x.promotion.unwrap();
                    assert(x == Move { src, dst, promotion: Some(k) });
                    match k {
                        PromotionPieceKind::Knight => {},
                        PromotionPieceKind::Bishop => {},
                        PromotionPieceKind::Rook => {},
                        PromotionPieceKind::Queen => {},
                    }
                }
            }
        }
    } else {
        push_move(moves, Move::new(src, dst));
    }
}

/// Adds the moves of the pawn of the side to move on `src`.
#[verifier::rlimit(40)]
fn push_pawn_moves(g: &Game, src: Square, moves: &mut Vec<Move>)
    requires
        old(moves)@.no_duplicates(),
        forall|x: Move| #[trigger] old(moves)@.contains(x) ==> x.src < src,
        g.board.wf(),
        src < 64,
        g@.en_passant_target matches Some(t) ==> t < 64,
    ensures
        final(moves)@.no_duplicates(),
        forall|x: Move|
            #[trigger] final(moves)@.contains(x) <==> old(moves)@.contains(x) || (x.src == src
                && x.dst < 64 && pawn_reach(g@, src as int, x.dst as int) && promotion_ok(g@, x)),
{
    let ghost o = moves@;
    let ghost gm = g@;
    let fwd: i8 = match g.player {
        Player::White => 1,
        Player::Black => -1,
    };
    let home: u8 = match g.player {
        Player::White => 1,
        Player::Black => 6,
    };
    let ghost mut single: Option<u8> = None;
    let ghost mut double: Option<u8> = None;
    if let Some(d) = offset(src, 0, fwd) {
        if g.board.piece_at(d).is_none() {
            push_pawn_target(g, src, d, moves);
            proof { single = Some(d); }
            if rank(src) == home {
                if let Some(d2) = offset(src, 0, 2 * fwd) {
                    if g.board.piece_at(d2).is_none() {
                        push_pawn_target(g, src, d2, moves);
                        proof { double = Some(d2); }
                    }
                }
            }
        }
    }
    let ghost mid = moves@;
    let mut west: Option<u8> = None;
    let mut east: Option<u8> = None;
    if let Some(d) = offset(src, -1, fwd) {
        let enemy = match g.board.piece_at(d) {
            Some(q) => q.player != g.player,
            None => false,
        };
        let ep = match g.en_passant_target {
            Some(t) => t == d,
            None => false,
        };
        if enemy || ep {
            push_pawn_target(g, src, d, moves);
            west = Some(d);
        }
    }
    if let Some(d) = offset(src, 1, fwd) {
        let enemy = match g.board.piece_at(d) {
            Some(q) => q.player != g.player,
            None => false,
        };
        let ep = match g.en_passant_target {
            Some(t) => t == d,
            None => false,
        };
        if enemy || ep {
            push_pawn_target(g, src, d, moves);
            east = Some(d);
        }
    }
    proof {
        assert forall|x: Move|
            #[trigger] moves@.contains(x) <==> o.contains(x) || (x.src == src && x.dst < 64
                && pawn_reach(gm, src as int, x.dst as int) && promotion_ok(gm, x)) by {
            if x.src == src && x.dst < 64 && pawn_reach(gm, src as int, x.dst as int) && promotion_ok(gm, x) {
                let d = x.dst as int;
                if displaced(src as int, d, 0, forward(gm.player)) && gm.board[d] is None {
                    assert(single == Some(x.dst));
                } else if rank_of(src as int) == pawn_home_rank(gm.player) && displaced(src as int, d, 0, 2 * forward(gm.player)) && gm.board[src + 8 * forward(gm.player)] is None && gm.board[d] is None {
                    assert(double == Some(x.dst));
                } else if displaced(src as int, d, -1, forward(gm.player)) {
                    assert(west == Some(x.dst));
                } else {
                    assert(east == Some(x.dst));
                }
            }
        }
    }
}

/// Adds the castles open to the side to move.
fn push_castles(g: &Game, moves: &mut Vec<Move>)
    requires
        g.board.wf(),
        old(moves)@.no_duplicates(),
        forall|x: Move| #[trigger] old(moves)@.contains(x) ==> x.src < king_start(g.player) || king_step(x.src as int, x.dst as int),
    ensures
        final(moves)@.no_duplicates(),
        forall|x: Move|
            #[trigger] final(moves)@.contains(x) <==> old(moves)@.contains(x) || castle_move(g@, x),
{
    let ghost o = moves@;
    let player = g.player;
    let other = player.other();
    let base: u8 = match player {
        Player::White => 0,
        Player::Black => 56,
    };
    let k = base + 4;
    let rights = match player {
        Player::White => g.white_castle_rights,
        Player::Black => g.black_castle_rights,
    };
    let king_home = match g.board.piece_at(k) {
        Some(q) => q.kind == PieceKind::King && q.player == player,
        None => false,
    };
    let rook_at = |s: u8| -> (r: bool)
        requires
            s < 64,
            g.board.wf(),
        ensures
            r == (g@.board[s as int] == Some(rook(player))),
        {
            match g.board.piece_at(s) {
                Some(q) => q.kind == PieceKind::Rook && q.player == player,
                None => false,
            }
        };
    if king_home && rights.king_side && rook_at(k + 3) && g.board.piece_at(k + 1).is_none()
        && g.board.piece_at(k + 2).is_none() && !g.board.attacked_by(k, other) && !g.board.attacked_by(
        k + 1,
        other,
    ) && !g.board.attacked_by(k + 2, other) {
        push_move(moves, Move::new(k, k + 2));
    }
    if king_home && rights.queen_side && rook_at(k - 4) && g.board.piece_at(k - 1).is_none()
        && g.board.piece_at(k - 2).is_none() && g.board.piece_at(k - 3).is_none()
        && !g.board.attacked_by(k, other) && !g.board.attacked_by(k - 1, other)
        && !g.board.attacked_by(k - 2, other) {
        push_move(moves, Move::new(k, k - 2));
    }
}

/// All pseudo-legal moves of the side to move.
#[verifier::rlimit(40)]
pub fn generate_moves(g: &Game) -> (r: Vec<Move>)
    requires
        g.board.wf(),
        g@.en_passant_target matches Some(t) ==> t < 64,
    ensures
        forall|m: Move| #[trigger] r@.contains(m) <==> pseudo_legal(g@, m),
        r@.no_duplicates(),
{
    let mut moves: Vec<Move> = Vec::new();
    let occ = g.board.occupancy();
    proof {
        assert(bits(occ) =~= occupied(g@.board));
    }
    let king_square: u8 = match g.player {
        Player::White => 4,
        Player::Black => 60,
    };
    let mut src: u8 = 0;
    while src < 64
        invariant
            g.board.wf(),
            g@.en_passant_target matches Some(t) ==> t < 64,
            bits(occ) == occupied(g@.board),
            king_square == king_start(g.player),
            src <= 64,
            moves@.no_duplicates(),
            forall|m: Move| #[trigger] moves@.contains(m) <==> m.src < src && pseudo_legal(g@, m),
        decreases 64 - src,
    {
        let ghost before = moves@;
        match g.board.piece_at(src) {
            Some(p) => {
                if p.player == g.player {
                    match p.kind {
                        PieceKind::Pawn => push_pawn_moves(g, src, &mut moves),
                        PieceKind::Knight => push_targets(g, src, p.kind, knight_attacks(src), &mut moves),
                        PieceKind::Bishop => push_targets(g, src, p.kind, bishop_attacks(src, occ), &mut moves),
                        PieceKind::Rook => push_targets(g, src, p.kind, rook_attacks(src, occ), &mut moves),
                        PieceKind::Queen => push_targets(g, src, p.kind, queen_attacks(src, occ), &mut moves),
                        PieceKind::King => {
                            push_targets(g, src, p.kind, king_attacks(src), &mut moves);
                            if src == king_square {
                                push_castles(g, &mut moves);
                            }
                        },
                    }
                }
            },
            None => {},
        }
        proof {
            assert forall|m: Move| #[trigger] moves@.contains(m) <==> m.src < src + 1 && pseudo_legal(g@, m) by {
                if m.src == src && castle_move(g@, m) {
                    assert(g@.board[src as int] is Some);
                }
            }
        }
        src = src + 1;
    }
    moves
}

impl Game {
    /// The pseudo-legal moves of the side to move.
    pub fn pseudo_legal_moves(&self) -> (r: Vec<Move>)
        requires
            self.wf(),
        ensures
            forall|m: Move| #[trigger] r@.contains(m) <==> pseudo_legal(self@, m),
            r@.no_duplicates(),
    {
        proof {
            lemma_wf_core(self@);
        }
        generate_moves(self)
    }

    /// The legal moves of the side to move: the pseudo-legal moves after which the mover's
    /// king is not attacked. Each is tried by making and taking it back, so the game is left
    /// as it was.
    #[verifier::rlimit(40)]
    pub fn legal_moves(&mut self) -> (r: Vec<Move>)
        requires
            old(self).wf(),
            old(self)@.room(),
        ensures
            final(self).wf(),
            final(self)@ == old(self)@,
            forall|m: Move| #[trigger] r@.contains(m) <==> legal(old(self)@, m),
            r@.no_duplicates(),
    {
        let ghost g = self@;
        proof {
            lemma_wf_core(g);
        }
        let pseudo = generate_moves(self);
        let player = self.player;
        let mut r: Vec<Move> = Vec::new();
        let mut i: usize = 0;
        while i < pseudo.len()
            invariant
                self.wf(),
                self@ == g,
                g.wf_core(),
                g.room(),
                player == g.player,
                i <= pseudo@.len(),
                forall|m: Move| #[trigger] pseudo@.contains(m) <==> pseudo_legal(g, m),
                pseudo@.no_duplicates(),
                r@.no_duplicates(),
                forall|m: Move|
                    #[trigger] r@.contains(m) <==> (exists|j: int| 0 <= j < i && pseudo@[j] == m)
                        && legal(g, m),
            decreases pseudo@.len() - i,
        {
            let m = pseudo[i];
            proof {
                assert(pseudo@.contains(m));
                lemma_pseudo_legal_move_ok(g, m);
                lemma_make_undo(g, m);
            }
            self.make_move(&m);
            let check = self.board.king_in_check(player);
            self.undo_move();
            let ghost r0 = r@;
            if !check {
                proof {
                    if r@.contains(m) {
                        let j = choose|j: int| 0 <= j < i && pseudo@[j] == m;
                        assert(pseudo@[j] == pseudo@[i as int]);
                    }
                }
                push_move(&mut r, m);
            }
            proof {
                assert forall|x: Move|
                    #[trigger] r@.contains(x) <==> (exists|j: int| 0 <= j < i + 1 && pseudo@[j] == x)
                        && legal(g, x) by {
                    if exists|j: int| 0 <= j < i + 1 && pseudo@[j] == x {
                        let j = choose|j: int| 0 <= j < i + 1 && pseudo@[j] == x;
                        if j < i {
                            assert(exists|j: int| 0 <= j < i && pseudo@[j] == x);
                        }
                    }
                    if (exists|j: int| 0 <= j < i && pseudo@[j] == x) {
                        let j = choose|j: int| 0 <= j < i && pseudo@[j] == x;
                        assert(0 <= j < i + 1 && pseudo@[j] == x);
                    }
                    if x == m {
                        assert(pseudo@[i as int] == x);
                    }
                }
            }
            i = i + 1;
        }
        proof {
            assert forall|m: Move| #[trigger] r@.contains(m) <==> legal(g, m) by {
                if legal(g, m) {
                    assert(pseudo@.contains(m));
                }
            }
        }
        r
    }

    /// Plays `mv` if it is legal; otherwise leaves the game unchanged and reports it.
    pub fn play_move(&mut self, mv: &Move) -> (r: Result<(), MoveError>)
        requires
            old(self).wf(),
            old(self)@.room(),
        ensures
            final(self).wf(),
            r is Ok <==> legal(old(self)@, *mv),
            r is Ok ==> final(self)@ == old(self)@.after_move(*mv),
            r is Err ==> final(self)@ == old(self)@,
    {
        let ghost g = self@;
        let moves = self.legal_moves();
        let mut found = false;
        let mut i: usize = 0;
        while i < moves.len() && !found
            invariant
                i <= moves@.len(),
                found ==> moves@.contains(*mv),
                !found ==> forall|j: int| 0 <= j < i ==> moves@[j] != *mv,
            decreases moves@.len() - i,
        {
            if moves[i] == *mv {
                found = true;
                assert(moves@[i as int] == *mv);
            }
            i = i + 1;
        }
        if found {
            assert(legal(g, *mv));
            proof {
                lemma_wf_core(g);
                lemma_pseudo_legal_move_ok(g, *mv);
            }
            self.make_move(mv);
            Ok(())
        } else {
            assert(!moves@.contains(*mv));
            Err(MoveError::InvalidMove)
        }
    }
}

} // verus!
