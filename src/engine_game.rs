use vstd::prelude::*;
use crate::attacks::in_check;
use crate::eval::{eval_spec, eval_with_psqt, lemma_psqt_bound, lemma_psqt_update, psqt_of, psqt_score};
use crate::fen::{parse, FenError};
use crate::game::{lemma_make_undo, lemma_wf_core, repetitions, Game, GameModel};
use crate::movegen::legal;
use crate::moves::Move;
use crate::piece::{Piece, PieceKind, Player};
use crate::search::is_capture;
use crate::square::Square;
use crate::zobrist::ZobristHash;

verus! {

/// The running material and piece-square score, White minus Black.
#[derive(Clone, Copy, Debug)]
pub struct IncrementalEvalFields {
    pub mg: i32,
    pub eg: i32,
}

/// The score `f` is that of mailbox `b`.
pub open spec fn fields_match(f: IncrementalEvalFields, b: Seq<Option<Piece>>) -> bool {
    f.mg == psqt_score(b, 64).0 && f.eg == psqt_score(b, 64).1
}

/// Each saved score is that of the position its move was made from.
pub open spec fn chain_ok(g: GameModel, h: Seq<IncrementalEvalFields>) -> bool
    decreases h.len(),
{
    &&& h.len() == g.history.len()
    &&& h.len() > 0 ==> fields_match(h.last(), g.undone().board) && chain_ok(g.undone(), h.drop_last())
}

impl IncrementalEvalFields {
    /// The score of a board computed square by square.
    pub fn init(game: &Game) -> (r: IncrementalEvalFields)
        requires
            game.board.wf(),
        ensures
            fields_match(r, game.board@),
    {
        let ghost b = game.board@;
        let mut mg: i32 = 0;
        let mut eg: i32 = 0;
        let mut sq: u8 = 0;
        while sq < 64
            invariant
                game.board.wf(),
                b == game.board@,
                sq <= 64,
                mg == psqt_score(b, sq as nat).0,
                eg == psqt_score(b, sq as nat).1,
            decreases 64 - sq,
        {
            proof {
                lemma_psqt_bound(b, sq as nat);
                lemma_psqt_bound(b, (sq + 1) as nat);
            }
            if let Some(p) = game.board.piece_at(sq) {
                let (a, c) = psqt_of(p, sq);
                mg = mg + a;
                eg = eg + c;
            }
            sq = sq + 1;
        }
        IncrementalEvalFields { mg, eg }
    }

    /// Moves the score from mailbox `b` to `b` with square `sq` changed from `was` to `now`.
    fn update(&mut self, b: Ghost<Seq<Option<Piece>>>, sq: Square, was: Option<Piece>, now: Option<Piece>)
        requires
            b@.len() == 64,
            sq < 64,
            b@[sq as int] == was,
            fields_match(*old(self), b@),
        ensures
            fields_match(*final(self), b@.update(sq as int, now)),
    {
        proof {
            lemma_psqt_update(b@, sq as int, now, 64);
            lemma_psqt_bound(b@, 64);
            lemma_psqt_bound(b@.update(sq as int, now), 64);
        }
        if let Some(p) = was {
            let (a, c) = psqt_of(p, sq);
            self.mg = self.mg - a;
            self.eg = self.eg - c;
        }
        if let Some(p) = now {
            let (a, c) = psqt_of(p, sq);
            self.mg = self.mg + a;
            self.eg = self.eg + c;
        }
    }
}

/// Which moves to list.
#[derive(Clone, Copy, Debug, PartialEq, Eq, Structural)]
pub enum MoveTypes {
    All,
    Captures,
    Quiets,
}

/// A game together with its running material and piece-square score.
#[derive(Debug)]
pub struct EngineGame {
    pub game: Game,
    pub incremental_eval: IncrementalEvalFields,
    pub history: Vec<IncrementalEvalFields>,
}

impl EngineGame {
    pub open spec fn saved(&self) -> Seq<IncrementalEvalFields> {
        self.history@
    }

    pub open spec fn wf(&self) -> bool {
        &&& self.game.wf()
        &&& fields_match(self.incremental_eval, self.game.board@)
        &&& chain_ok(self.game@, self.saved())
    }

    pub fn new() -> (r: EngineGame)
        ensures
            r.wf(),
            r.game@.history.len() == 0,
    {
        EngineGame::from_game(Game::new())
    }

    /// Wraps a game with no moves behind it.
    pub fn from_game(game: Game) -> (r: EngineGame)
        requires
            game.wf(),
            game@.history.len() == 0,
        ensures
            r.wf(),
            r.game@ == game@,
    {
        let incremental_eval = IncrementalEvalFields::init(&game);
        EngineGame { game, incremental_eval, history: Vec::new() }
    }

    /// Reads the game from its canonical FEN.
    pub fn from_fen(fen: &str) -> (r: Result<EngineGame, FenError>)
        ensures
            r matches Ok(e) ==> e.wf() && crate::fen::fen_of(e.game@) == fen@,
    {
        match parse(fen) {
            Ok(game) => Ok(EngineGame::from_game(game)),
            Err(e) => Err(e),
        }
    }

    /// The legal moves of the side to move.
    pub fn moves(&mut self) -> (r: Vec<Move>)
        requires
            old(self).wf(),
            old(self).game@.room(),
        ensures
            final(self).wf(),
            final(self).game@ == old(self).game@,
            forall|m: Move| #[trigger] r@.contains(m) <==> legal(old(self).game@, m),
            r@.no_duplicates(),
    {
        let r = self.game.legal_moves();
        r
    }

    /// The legal moves of the side to move of the given type.
    #[verifier::rlimit(40)]
    pub fn moves_with_type(&mut self, move_types: &MoveTypes) -> (r: Vec<Move>)
        requires
            old(self).wf(),
            old(self).game@.room(),
        ensures
            final(self).wf(),
            final(self).game@ == old(self).game@,
            forall|m: Move|
                #[trigger] r@.contains(m) <==> legal(old(self).game@, m) && match move_types {
                    MoveTypes::All => true,
                    MoveTypes::Captures => is_capture(old(self).game@, m),
                    MoveTypes::Quiets => !is_capture(old(self).game@, m),
                },
    {
        let ghost g = self.game@;
        let all = self.game.legal_moves();
        let mut r: Vec<Move> = Vec::new();
        let mut i: usize = 0;
        while i < all.len()
            invariant
                self.wf(),
                self.game@ == g,
                g == old(self).game@,
                i <= all@.len(),
                forall|m: Move| #[trigger] all@.contains(m) <==> legal(g, m),
                forall|m: Move|
                    #[trigger] r@.contains(m) <==> (exists|j: int| 0 <= j < i && all@[j] == m) && match move_types {
                        MoveTypes::All => true,
                        MoveTypes::Captures => is_capture(g, m),
                        MoveTypes::Quiets => !is_capture(g, m),
                    },
            decreases all@.len() - i,
        {
            let m = all[i];
            proof {
                assert(all@.contains(m));
            }
            let mover = self.game.board.piece_at(m.src);
            let ep = match (self.game.en_passant_target, mover) {
                (Some(t), Some(p)) => p.kind == PieceKind::Pawn && t == m.dst,
                _ => false,
            };
            let capture = self.game.board.piece_at(m.dst).is_some() || ep;
            let keep = match move_types {
                MoveTypes::All => true,
                MoveTypes::Captures => capture,
                MoveTypes::Quiets => !capture,
            };
            let ghost r0 = r@;
            if keep {
                r.push(m);
            }
            proof {
                assert forall|x: Move|
                    #[trigger] r@.contains(x) <==> (exists|j: int| 0 <= j < i + 1 && all@[j] == x) && match move_types {
                        MoveTypes::All => true,
                        MoveTypes::Captures => is_capture(g, x),
                        MoveTypes::Quiets => !is_capture(g, x),
                    } by {
                    if r@.contains(x) {
                        let w = choose|w: int| 0 <= w < r@.len() && r@[w] == x;
                        if w < r0.len() {
                            assert(r0.contains(x));
                            let j = choose|j: int| 0 <= j < i && all@[j] == x;
                            assert(0 <= j < i + 1 && all@[j] == x);
                        } else {
                            assert(all@[i as int] == x);
                        }
                    }
                    if exists|j: int| 0 <= j < i + 1 && all@[j] == x {
                        let j = choose|j: int| 0 <= j < i + 1 && all@[j] == x;
                        if j < i {
                            assert(exists|j: int| 0 <= j < i && all@[j] == x);
                            if r0.contains(x) {
                                let w = choose|w: int| 0 <= w < r0.len() && r0[w] == x;
                                assert(r@[w] == x);
                            }
                        } else if keep {
                            assert(r@[r0.len() as int] == x);
                        }
                    }
                }
            }
            i = i + 1;
        }
        proof {
            assert forall|m: Move| #[trigger] r@.contains(m) implies legal(g, m) by {
                let j = choose|j: int| 0 <= j < all@.len() && all@[j] == m;
                assert(all@.contains(m));
            }
            assert forall|m: Move| legal(g, m) implies (exists|j: int| 0 <= j < all@.len() && #[trigger] all@[j] == m) by {
                assert(all@.contains(m));
            }
        }
        r
    }

    pub fn is_stalemate_by_fifty_move_rule(&self) -> (r: bool)
        ensures
            r == (self.game.halfmove_clock >= 100),
    {
        self.game.is_stalemate_by_fifty_move_rule()
    }

    /// Whether the position has occurred before.
    pub fn is_repeated_position(&self) -> (r: bool)
        ensures
            r == (repetitions(self.game.history@, self.game.zobrist, self.game.history@.len()) >= 1),
    {
        let ghost h = self.game.history@;
        let mut i: usize = 0;
        while i < self.game.history.len()
            invariant
                h == self.game.history@,
                i <= h.len(),
                repetitions(h, self.game.zobrist, i as nat) == 0,
            decreases h.len() - i,
        {
            if self.game.history[i].zobrist == self.game.zobrist {
                proof {
                    crate::game::lemma_repetitions_grow(h, self.game.zobrist, (i + 1) as nat, h.len());
                }
                return true;
            }
            i = i + 1;
        }
        false
    }

    pub fn is_stalemate_by_repetition(&self) -> (r: bool)
        ensures
            r == crate::game::is_repetition(self.game@),
    {
        self.game.is_stalemate_by_repetition()
    }

    pub fn is_king_in_check(&self) -> (r: bool)
        requires
            self.wf(),
        ensures
            r == in_check(self.game@.board, self.game.player),
    {
        self.game.board.king_in_check(self.game.player)
    }

    pub fn player(&self) -> (r: Player)
        ensures
            r == self.game.player,
    {
        self.game.player
    }

    pub fn zobrist(&self) -> (r: ZobristHash)
        ensures
            r == self.game.zobrist,
    {
        self.game.zobrist
    }

    /// The evaluation from the side to move's point of view, reusing the running score.
    pub fn eval(&self) -> (r: i32)
        requires
            self.wf(),
        ensures
            r == eval_spec(self.game@.board, self.game.player),
    {
        eval_with_psqt(&self.game.board, self.game.player, (self.incremental_eval.mg, self.incremental_eval.eg))
    }

    /// Plays `mv`, updating the running score square by square.
    #[verifier::rlimit(40)]
    pub fn make_move(&mut self, mv: &Move)
        requires
            old(self).wf(),
            old(self).game@.playable(*mv),
        ensures
            final(self).wf(),
            final(self).game@ == old(self).game@.after_move(*mv),
    {
        let ghost g = self.game@;
        let ghost m = *mv;
        proof {
            lemma_wf_core(g);
            lemma_make_undo(g, m);
        }
        let from = mv.src;
        let to = mv.dst;
        let player = self.game.player;
        let moved = self.game.board.piece_at(from).unwrap();
        let captured = self.game.board.piece_at(to);
        self.history.push(self.incremental_eval);
        let ghost mut cur = g.board;
        self.incremental_eval.update(Ghost(cur), from, Some(moved), None);
        proof {
            cur = cur.update(from as int, None);
        }
        let placed = match mv.promotion {
            Some(k) => Piece::new(player, k.piece()),
            None => moved,
        };
        self.incremental_eval.update(Ghost(cur), to, captured, Some(placed));
        proof {
            cur = cur.update(to as int, Some(placed));
        }
        if let Some(t) = self.game.en_passant_target {
            if moved.kind == PieceKind::Pawn && to == t {
                let cap = match player {
                    Player::White => to - 8,
                    Player::Black => to + 8,
                };
                self.incremental_eval.update(Ghost(cur), cap, Some(Piece::new(player.other(), PieceKind::Pawn)), None);
                proof {
                    cur = cur.update(cap as int, None);
                }
            }
        }
        let base: u8 = match player {
            Player::White => 0,
            Player::Black => 56,
        };
        if moved.kind == PieceKind::King && from == base + 4 {
            let rook = Piece::new(player, PieceKind::Rook);
            if to == base + 6 {
                self.incremental_eval.update(Ghost(cur), base + 7, Some(rook), None);
                proof {
                    cur = cur.update(base + 7, None);
                }
                self.incremental_eval.update(Ghost(cur), base + 5, None, Some(rook));
                proof {
                    cur = cur.update(base + 5, Some(rook));
                }
            } else if to == base + 2 {
                self.incremental_eval.update(Ghost(cur), base as u8, Some(rook), None);
                proof {
                    cur = cur.update(base as int, None);
                }
                self.incremental_eval.update(Ghost(cur), base + 3, None, Some(rook));
                proof {
                    cur = cur.update(base + 3, Some(rook));
                }
            }
        }
        proof {
            assert(cur =~= g.board_after(m));
        }
        self.game.make_move(mv);
        proof {
            let a = g.after_move(m);
            assert(self.history@.drop_last() =~= old(self).history@);
            assert(chain_ok(a, self.history@));
        }
    }

    /// Takes back the last move, restoring the saved score.
    pub fn undo_move(&mut self)
        requires
            old(self).wf(),
            old(self).game@.history.len() > 0,
        ensures
            final(self).wf(),
            final(self).game@ == old(self).game@.undone(),
    {
        let ghost g = self.game@;
        proof {
            lemma_wf_core(g);
        }
        let saved = self.history.pop().unwrap();
        self.incremental_eval = saved;
        self.game.undo_move();
    }
}

} // verus!
