use vstd::prelude::*;
use rand::Rng;
use crate::eval::{eval_board, eval_spec};
use crate::game::{lemma_make_undo, lemma_wf_core, Game, GameModel};
use crate::movegen::{legal, lemma_pseudo_legal_move_ok};
use crate::moves::Move;
use crate::search::{lemma_move_index, move_at, move_codes, move_index, no_legal_moves, room_for};

verus! {

/// Relies on rand's `thread_rng().gen_range(0..n)`: a number below `n` (which must not be
/// zero), drawn at random.
#[verifier::external_body]
fn random_index(n: usize) -> (r: usize)
    requires
        n > 0,
    ensures
        r < n,
{
    rand::thread_rng().gen_range(0..n)
}

/// Picks one of the legal moves at random; none when there is none.
pub fn random_move(game: &mut Game) -> (r: Option<Move>)
    requires
        old(game).wf(),
        old(game)@.room(),
    ensures
        final(game).wf(),
        final(game)@ == old(game)@,
        r is None <==> no_legal_moves(old(game)@),
        r matches Some(m) ==> legal(old(game)@, m),
{
    let ghost g = game@;
    let moves = game.legal_moves();
    if moves.len() == 0 {
        proof {
            assert forall|m: Move| !#[trigger] legal(g, m) by {
                if legal(g, m) {
                    assert(moves@.contains(m));
                }
            }
        }
        return None;
    }
    let i = random_index(moves.len());
    let m = moves[i];
    proof {
        assert(moves@.contains(m));
    }
    Some(m)
}

/// The evaluation, from the opponent's side, of the position after `m`.
pub open spec fn reply_eval(g: GameModel, m: Move) -> int {
    let a = g.after_move(m);
    eval_spec(a.board, a.player)
}

/// Picks the legal move after which the opponent's evaluation is lowest, the first such in
/// generation order; none when there is no legal move.
pub fn top_eval_move(game: &mut Game) -> (r: Option<Move>)
    requires
        old(game).wf(),
        old(game)@.room(),
    ensures
        final(game).wf(),
        final(game)@ == old(game)@,
        r is None <==> no_legal_moves(old(game)@),
        r matches Some(m) ==> legal(old(game)@, m) && forall|x: Move|
            legal(old(game)@, x) ==> reply_eval(old(game)@, m) <= #[trigger] reply_eval(old(game)@, x),
{
    let ghost g = game@;
    proof {
        lemma_wf_core(g);
    }
    let moves = game.legal_moves();
    if moves.len() == 0 {
        proof {
            assert forall|m: Move| !#[trigger] legal(g, m) by {
                if legal(g, m) {
                    assert(moves@.contains(m));
                }
            }
        }
        return None;
    }
    let mut best: Move = moves[0];
    let mut best_score: i32 = i32::MAX;
    let mut i: usize = 0;
    proof {
        assert(moves@.contains(best));
    }
    while i < moves.len()
        invariant
            game.wf(),
            game@ == g,
            g == old(game)@,
            g.wf_core(),
            g.room(),
            i <= moves@.len(),
            forall|m: Move| #[trigger] moves@.contains(m) <==> legal(g, m),
            legal(g, best),
            i > 0 ==> best_score == reply_eval(g, best),
            i == 0 ==> best == moves@[0],
            forall|j: int| 0 <= j < i ==> best_score <= #[trigger] reply_eval(g, moves@[j]),
        decreases moves@.len() - i,
    {
        let m = moves[i];
        proof {
            assert(moves@.contains(m));
            lemma_pseudo_legal_move_ok(g, m);
            lemma_make_undo(g, m);
        }
        game.make_move(&m);
        let score = eval_board(&game.board, game.player);
        game.undo_move();
        if i == 0 || score < best_score {
            best = m;
            best_score = score;
        }
        i = i + 1;
    }
    proof {
        assert forall|x: Move| legal(g, x) implies reply_eval(g, best) <= #[trigger] reply_eval(g, x) by {
            assert(moves@.contains(x));
            let j = choose|j: int| 0 <= j < moves@.len() && moves@[j] == x;
            assert(best_score <= reply_eval(g, moves@[j]));
        }
    }
    Some(best)
}

/// The set of legal moves of a position.
pub open spec fn legal_set(g: GameModel) -> Set<Move> {
    Set::new(|m: Move| legal(g, m))
}

/// The number of leaf positions `depth` plies below the game, counting with legal moves.
/// The game is left as it was.
pub fn perft(depth: u8, game: &mut Game) -> (r: u64)
    requires
        old(game).wf(),
        room_for(old(game)@, depth as int + 1),
    ensures
        final(game).wf(),
        final(game)@ == old(game)@,
        r == if perft_count(old(game)@, depth as nat) < u64::MAX {
            perft_count(old(game)@, depth as nat)
        } else {
            u64::MAX as nat
        },
    decreases depth,
{
    if depth == 0 {
        return 1;
    }
    let ghost g = game@;
    proof {
        lemma_wf_core(g);
    }
    let moves = game.legal_moves();
    let mut total: u64 = 0;
    let mut i: usize = 0;
    while i < moves.len()
        invariant
            game.wf(),
            game@ == g,
            g == old(game)@,
            g.wf_core(),
            room_for(g, depth as int + 1),
            depth >= 1,
            i <= moves@.len(),
            forall|m: Move| #[trigger] moves@.contains(m) <==> legal(g, m),
            moves@.no_duplicates(),
            total == if child_sum(g, (depth - 1) as nat, moves@.take(i as int)) < u64::MAX {
                child_sum(g, (depth - 1) as nat, moves@.take(i as int))
            } else {
                u64::MAX as nat
            },
        decreases moves@.len() - i,
    {
        let m = moves[i];
        proof {
            assert(moves@.contains(m));
            lemma_pseudo_legal_move_ok(g, m);
            lemma_make_undo(g, m);
        }
        game.make_move(&m);
        let n = perft(depth - 1, game);
        game.undo_move();
        total = if total <= u64::MAX - n {
            total + n
        } else {
            u64::MAX
        };
        proof {
            assert(moves@.take(i + 1).drop_last() =~= moves@.take(i as int));
        }
        i = i + 1;
    }
    proof {
        assert(moves@.take(moves@.len() as int) =~= moves@);
        lemma_child_sum_codes(g, (depth - 1) as nat, moves@, move_codes());
    }
    total
}

/// The number of leaf positions `d` plies below `g`, counting with legal moves.
pub open spec fn perft_count(g: GameModel, d: nat) -> nat
    decreases d, 20481nat,
{
    if d == 0 {
        1
    } else {
        perft_sum(g, d, move_codes())
    }
}

/// The leaf counts below the legal moves among the first `n` move codes.
pub open spec fn perft_sum(g: GameModel, d: nat, n: nat) -> nat
    decreases d, n,
{
    if d == 0 || n == 0 || n > move_codes() {
        0
    } else {
        perft_sum(g, d, (n - 1) as nat) + if legal(g, move_at(n - 1)) {
            perft_count(g.after_move(move_at(n - 1)), (d - 1) as nat)
        } else {
            0
        }
    }
}

/// The leaf counts, `d` plies down, below each move of `v`, summed.
pub open spec fn child_sum(g: GameModel, d: nat, v: Seq<Move>) -> nat
    decreases v.len(),
{
    if v.len() == 0 {
        0
    } else {
        child_sum(g, d, v.drop_last()) + perft_count(g.after_move(v.last()), d)
    }
}

proof fn lemma_child_sum_remove(g: GameModel, d: nat, v: Seq<Move>, k: int)
    requires
        0 <= k < v.len(),
    ensures
        child_sum(g, d, v) == child_sum(g, d, v.remove(k)) + perft_count(g.after_move(v[k]), d),
    decreases v.len(),
{
    if k == v.len() - 1 {
        assert(v.remove(k) =~= v.drop_last());
    } else {
        lemma_child_sum_remove(g, d, v.drop_last(), k);
        assert(v.remove(k).drop_last() =~= v.drop_last().remove(k));
        assert(v.remove(k).last() == v.last());
    }
}

/// Summing over a duplicate-free list of exactly the legal moves among the first `n` codes
/// gives the count over those codes.
#[verifier::rlimit(100)]
proof fn lemma_child_sum_codes(g: GameModel, d: nat, v: Seq<Move>, n: nat)
    requires
        n <= move_codes(),
        v.no_duplicates(),
        forall|m: Move| #[trigger] v.contains(m) ==> legal(g, m) && m.src < 64 && m.dst < 64 && move_index(m) < n,
        forall|i: int| 0 <= i < n && legal(g, #[trigger] move_at(i)) ==> v.contains(move_at(i)),
    ensures
        child_sum(g, d, v) == perft_sum(g, d + 1, n),
    decreases n,
{
    if n == 0 {
        if v.len() > 0 {
            assert(v.contains(v[0]));
        }
    } else {
        let c = move_at(n - 1);
        if legal(g, c) {
            assert(v.contains(c));
            let k = choose|k: int| 0 <= k < v.len() && v[k] == c;
            lemma_child_sum_remove(g, d, v, k);
            let w = v.remove(k);
            assert forall|m: Move| #[trigger] w.contains(m) implies legal(g, m) && m.src < 64 && m.dst < 64 && move_index(m) < n - 1 by {
                let j = choose|j: int| 0 <= j < w.len() && w[j] == m;
                let jj = if j < k { j } else { j + 1 };
                assert(v[jj] == m);
                assert(v.contains(m));
                lemma_move_index(m);
                if move_index(m) == n - 1 {
                    assert(m == c);
                    assert(jj != k);
                }
            }
            assert forall|i: int| 0 <= i < n - 1 && legal(g, #[trigger] move_at(i)) implies w.contains(move_at(i)) by {
                assert(v.contains(move_at(i)));
                let j = choose|j: int| 0 <= j < v.len() && v[j] == move_at(i);
                assert(j != k) by {
                    lemma_move_index(c);
                    lemma_move_index(move_at(i));
                }
                let jj = if j < k { j } else { j - 1 };
                assert(w[jj] == move_at(i));
            }
            lemma_child_sum_codes(g, d, w, (n - 1) as nat);
        } else {
            assert forall|m: Move| #[trigger] v.contains(m) implies legal(g, m) && m.src < 64 && m.dst < 64 && move_index(m) < n - 1 by {
                lemma_move_index(m);
                if move_index(m) == n - 1 {
                    assert(m == c);
                }
            }
            lemma_child_sum_codes(g, d, v, (n - 1) as nat);
        }
    }
}

/// Plays a random legal move.
#[derive(Debug, Default, Clone, Copy)]
pub struct RandomMoveStrategy;

impl RandomMoveStrategy {
    pub fn next_move(&mut self, game: &mut Game) -> (r: Option<Move>)
        requires
            old(game).wf(),
            old(game)@.room(),
        ensures
            final(game).wf(),
            final(game)@ == old(game)@,
            r is None <==> no_legal_moves(old(game)@),
            r matches Some(m) ==> legal(old(game)@, m),
    {
        random_move(game)
    }
}

/// Plays the legal move after which the opponent's evaluation is lowest.
#[derive(Debug, Default, Clone, Copy)]
pub struct TopEvalStrategy;

impl TopEvalStrategy {
    pub fn next_move(&mut self, game: &mut Game) -> (r: Option<Move>)
        requires
            old(game).wf(),
            old(game)@.room(),
        ensures
            final(game).wf(),
            final(game)@ == old(game)@,
            r is None <==> no_legal_moves(old(game)@),
            r matches Some(m) ==> legal(old(game)@, m) && forall|x: Move|
                legal(old(game)@, x) ==> reply_eval(old(game)@, m) <= #[trigger] reply_eval(old(game)@, x),
    {
        top_eval_move(game)
    }
}

} // verus!
