use vstd::prelude::*;
use crate::attacks::in_check;
use crate::eval::{eval_board, eval_spec};
use crate::movegen::lemma_pseudo_legal_move_ok;
use crate::game::lemma_make_undo;
use crate::game::{Game, GameModel, is_repetition, lemma_wf_core};
use crate::movegen::legal;
use crate::moves::Move;
use crate::piece::{PieceKind, PromotionPieceKind};
use crate::transposition_table::{TTOverwriteable, TranspositionTable};

verus! {

/// The score of a mate delivered at the root.
pub const MATE: i32 = 100_000_000;

/// Scores lie within plus or minus this bound.
pub const INF: i32 = 200_000_000;

/// How many plies quiescence search may look past the nominal depth.
pub const QUIESCENCE_PLIES: u8 = 32;

/// How often, in nodes, the search consults its time control.
pub const CHECK_INTERVAL: u64 = 4096;

pub const DRAW: i32 = 0;

/// The score of mating the opponent `plies` plies from the root.
pub fn mate_in(plies: u8) -> (r: i32)
    ensures
        r == MATE - plies,
{
    MATE - plies as i32
}

/// The score of being mated `plies` plies from the root.
pub fn mated_in(plies: u8) -> (r: i32)
    ensures
        r == -MATE + plies,
{
    -MATE + plies as i32
}

/// How a stored score bounds the true one.
#[derive(Clone, Copy, Debug, PartialEq, Eq, Structural)]
pub enum Bound {
    Exact,
    Lower,
    Upper,
}

/// What the search stores per position.
#[derive(Clone, Copy, Debug)]
pub struct SearchEntry {
    pub depth: u8,
    pub bound: Bound,
    pub score: i32,
    pub best_move: Option<Move>,
    pub generation: u16,
}

impl TTOverwriteable for SearchEntry {
    /// An entry of an earlier search always gives way; otherwise one searched at least as
    /// deep replaces it.
    open spec fn overwrites(&self, new: &Self) -> bool {
        self.generation != new.generation || new.depth >= self.depth
    }

    fn should_overwrite_with(&self, new: &Self) -> (r: bool) {
        self.generation != new.generation || new.depth >= self.depth
    }
}

/// Whether `m` takes a piece, en passant included.
pub open spec fn is_capture(g: GameModel, m: Move) -> bool {
    g.board[m.dst as int] is Some || (g.board[m.src as int] matches Some(p) && p.kind
        == PieceKind::Pawn && g.en_passant_target == Some(m.dst))
}

pub open spec fn victim_index(g: GameModel, m: Move) -> nat {
    match g.board[m.dst as int] {
        Some(p) => p.kind.spec_index() as nat,
        None => 0,
    }
}

pub open spec fn promotion_rank(k: PromotionPieceKind) -> nat {
    match k {
        PromotionPieceKind::Queen => 0,
        PromotionPieceKind::Rook => 1,
        PromotionPieceKind::Bishop => 2,
        PromotionPieceKind::Knight => 3,
    }
}

/// The ordering class of `m`, smallest first: the table's move, then captures by most
/// valuable victim and least valuable attacker, then promotions queen first, then the rest.
pub open spec fn move_class(g: GameModel, m: Move, first: Option<Move>) -> nat {
    if first == Some(m) {
        0
    } else if is_capture(g, m) {
        (1 + 6 * (5 - victim_index(g, m)) + g.board[m.src as int].unwrap().kind.spec_index()) as nat
    } else if m.promotion is Some {
        37 + promotion_rank(m.promotion.unwrap())
    } else {
        41
    }
}

fn class_of(game: &Game, m: Move, first: Option<Move>) -> (r: u8)
    requires
        game.board.wf(),
        m.src < 64,
        m.dst < 64,
        game@.board[m.src as int] is Some,
    ensures
        r == move_class(game@, m, first),
        r < 42,
{
    let is_first = match first {
        Some(f) => f == m,
        None => false,
    };
    if is_first {
        return 0;
    }
    let attacker = game.board.piece_at(m.src).unwrap();
    let victim = game.board.piece_at(m.dst);
    let ep = match game.en_passant_target {
        Some(t) => attacker.kind == PieceKind::Pawn && t == m.dst,
        None => false,
    };
    if victim.is_some() || ep {
        let v: u8 = match victim {
            Some(p) => p.kind.index() as u8,
            None => 0,
        };
        1 + 6 * (5 - v) + attacker.kind.index() as u8
    } else {
        match m.promotion {
            Some(PromotionPieceKind::Queen) => 37,
            Some(PromotionPieceKind::Rook) => 38,
            Some(PromotionPieceKind::Bishop) => 39,
            Some(PromotionPieceKind::Knight) => 40,
            None => 41,
        }
    }
}

/// The moves of `s` of class `c`, in their order in `s`.
pub open spec fn of_class(g: GameModel, s: Seq<Move>, c: nat, first: Option<Move>) -> Seq<Move>
    decreases s.len(),
{
    if s.len() == 0 {
        Seq::empty()
    } else {
        let rest = of_class(g, s.drop_last(), c, first);
        if move_class(g, s.last(), first) == c {
            rest.push(s.last())
        } else {
            rest
        }
    }
}

/// The moves of `s` of the classes below `c`, class by class, each in its order in `s`.
pub open spec fn by_class(g: GameModel, s: Seq<Move>, c: nat, first: Option<Move>) -> Seq<Move>
    decreases c,
{
    if c == 0 {
        Seq::empty()
    } else {
        by_class(g, s, (c - 1) as nat, first) + of_class(g, s, (c - 1) as nat, first)
    }
}

/// The moves reordered for search: the same moves, by nondecreasing class, keeping the
/// given order within a class.
#[verifier::rlimit(40)]
pub fn order_moves(game: &Game, moves: &Vec<Move>, first: Option<Move>) -> (r: Vec<Move>)
    requires
        game.board.wf(),
        forall|i: int|
            0 <= i < moves@.len() ==> (#[trigger] moves@[i]).src < 64 && moves@[i].dst < 64
                && game@.board[moves@[i].src as int] is Some,
    ensures
        r@ == by_class(game@, moves@, 42, first),
        forall|m: Move| #[trigger] r@.contains(m) <==> moves@.contains(m),
        forall|i: int, j: int|
            0 <= i < j < r@.len() ==> move_class(game@, #[trigger] r@[i], first) <= move_class(
                game@,
                #[trigger] r@[j],
                first,
            ),
{
    let mut classes: Vec<u8> = Vec::new();
    let mut i: usize = 0;
    while i < moves.len()
        invariant
            game.board.wf(),
            i <= moves@.len(),
            classes@.len() == i,
            forall|k: int|
                0 <= k < moves@.len() ==> (#[trigger] moves@[k]).src < 64 && moves@[k].dst < 64
                    && game@.board[moves@[k].src as int] is Some,
            forall|k: int| 0 <= k < i ==> #[trigger] classes@[k] == move_class(game@, moves@[k], first),
        decreases moves@.len() - i,
    {
        let c = class_of(game, moves[i], first);
        classes.push(c);
        i = i + 1;
    }
    let mut r: Vec<Move> = Vec::new();
    let mut c: u8 = 0;
    while c < 42
        invariant
            c <= 42,
            classes@.len() == moves@.len(),
            forall|k: int| 0 <= k < moves@.len() ==> #[trigger] classes@[k] == move_class(game@, moves@[k], first),
            forall|k: int| 0 <= k < moves@.len() ==> #[trigger] move_class(game@, moves@[k], first) < 42,
            forall|m: Move| #[trigger] r@.contains(m) <==> exists|k: int| 0 <= k < moves@.len() && moves@[k] == m && classes@[k] < c,
            forall|k: int| 0 <= k < r@.len() ==> move_class(game@, #[trigger] r@[k], first) < c,
            r@ == by_class(game@, moves@, c as nat, first),
            forall|a: int, b: int|
                0 <= a < b < r@.len() ==> move_class(game@, #[trigger] r@[a], first) <= move_class(game@, #[trigger] r@[b], first),
        decreases 42 - c,
    {
        let mut j: usize = 0;
        while j < moves.len()
            invariant
                c < 42,
                j <= moves@.len(),
                classes@.len() == moves@.len(),
                forall|k: int| 0 <= k < moves@.len() ==> #[trigger] classes@[k] == move_class(game@, moves@[k], first),
                forall|m: Move| #[trigger] r@.contains(m) <==> exists|k: int| 0 <= k < moves@.len() && moves@[k] == m && (classes@[k] < c || (classes@[k] == c && k < j)),
                forall|k: int| 0 <= k < r@.len() ==> move_class(game@, #[trigger] r@[k], first) <= c,
                r@ == by_class(game@, moves@, c as nat, first) + of_class(game@, moves@.take(j as int), c as nat, first),
                forall|a: int, b: int|
                    0 <= a < b < r@.len() ==> move_class(game@, #[trigger] r@[a], first) <= move_class(game@, #[trigger] r@[b], first),
            decreases moves@.len() - j,
        {
            proof {
                assert(moves@.take(j + 1).drop_last() =~= moves@.take(j as int));
                assert(moves@.take(j + 1).last() == moves@[j as int]);
            }
            if classes[j] == c {
                let ghost r0 = r@;
                let m = moves[j];
                r.push(m);
                proof {
                    assert forall|x: Move| #[trigger] r@.contains(x) <==> exists|k: int| 0 <= k < moves@.len() && moves@[k] == x && (classes@[k] < c || (classes@[k] == c && k < j + 1)) by {
                        if r@.contains(x) {
                            let w = choose|w: int| 0 <= w < r@.len() && r@[w] == x;
                            if w < r0.len() {
                                assert(r0.contains(x));
                                let k = choose|k: int| 0 <= k < moves@.len() && moves@[k] == x && (classes@[k] < c || (classes@[k] == c && k < j));
                                assert(0 <= k < moves@.len() && moves@[k] == x && (classes@[k] < c || (classes@[k] == c && k < j + 1)));
                            } else {
                                assert(0 <= j < moves@.len() && moves@[j as int] == x && (classes@[j as int] < c || (classes@[j as int] == c && j < j + 1)));
                            }
                        }
                        if exists|k: int| 0 <= k < moves@.len() && moves@[k] == x && (classes@[k] < c || (classes@[k] == c && k < j + 1)) {
                            let k = choose|k: int| 0 <= k < moves@.len() && moves@[k] == x && (classes@[k] < c || (classes@[k] == c && k < j + 1));
                            if k == j {
                                assert(r@[r0.len() as int] == x);
                            } else {
                                assert(r0.contains(x));
                                let w = choose|w: int| 0 <= w < r0.len() && r0[w] == x;
                                assert(r@[w] == x);
                            }
                        }
                    }
                }
            }
            j = j + 1;
        }
        proof {
            assert(moves@.take(moves@.len() as int) =~= moves@);
            assert forall|m: Move| #[trigger] r@.contains(m) <==> exists|k: int| 0 <= k < moves@.len() && moves@[k] == m && classes@[k] < c + 1 by {
                if exists|k: int| 0 <= k < moves@.len() && moves@[k] == m && classes@[k] < c + 1 {
                    let k = choose|k: int| 0 <= k < moves@.len() && moves@[k] == m && classes@[k] < c + 1;
                    assert(classes@[k] < c || (classes@[k] == c && k < moves@.len()));
                }
            }
        }
        c = c + 1;
    }
    proof {
        assert forall|m: Move| #[trigger] r@.contains(m) <==> moves@.contains(m) by {
            if moves@.contains(m) {
                let k = choose|k: int| 0 <= k < moves@.len() && moves@[k] == m;
                assert(classes@[k] < 42);
            }
        }
    }
    r
}

/// Relies on std::time::SystemTime::now: milliseconds since the Unix epoch, 0 if the clock
/// reads earlier. Nothing is promised of the value.
#[verifier::external_body]
fn now_ms() -> (r: u64) {
    std::time::SystemTime::now()
        .duration_since(std::time::UNIX_EPOCH)
        .map(|d| d.as_millis() as u64)
        .unwrap_or(0)
}

/// Whether a budget of `limit` milliseconds from `start` has run out at time `now`; a clock
/// reading before `start` has not.
pub fn deadline_passed(start: u64, now: u64, limit: u64) -> (r: bool)
    ensures
        r == (now >= start && now - start >= limit),
{
    now >= start && now - start >= limit
}

/// The time to spend on one move, in milliseconds: `movetime` when given, else a thirtieth
/// of the mover's clock, else 5000; less `overhead`, but at least 1. None (no limit) for an
/// infinite search, or for one bounded by depth alone.
pub fn move_budget(
    movetime: Option<u64>,
    own_time: Option<u64>,
    overhead: u64,
    infinite: bool,
    depth_given: bool,
) -> (r: Option<u64>)
    ensures
        infinite || (depth_given && movetime is None && own_time is None) ==> r is None,
        !infinite && !(depth_given && movetime is None && own_time is None) ==> r == Some(
            {
                let base: int = match movetime {
                    Some(t) => t as int,
                    None => match own_time {
                        Some(t) => t as int / 30,
                        None => 5000,
                    },
                };
                if base - overhead >= 1 {
                    base - overhead
                } else {
                    1
                }
            } as u64,
        ),
{
    if infinite || (depth_given && movetime.is_none() && own_time.is_none()) {
        return None;
    }
    let base: u64 = match movetime {
        Some(t) => t,
        None => match own_time {
            Some(t) => t / 30,
            None => 5000,
        },
    };
    if base > overhead && base - overhead >= 1 {
        Some(base - overhead)
    } else {
        Some(1)
    }
}

/// When a search must stop: after a time budget from its start, or after a number of nodes.
#[derive(Clone, Copy, Debug)]
pub struct TimeControl {
    pub start_ms: u64,
    pub limit_ms: Option<u64>,
    pub max_nodes: Option<u64>,
}

impl TimeControl {
    /// A control that starts now.
    pub fn new(limit_ms: Option<u64>, max_nodes: Option<u64>) -> (r: TimeControl)
        ensures
            r.limit_ms == limit_ms,
            r.max_nodes == max_nodes,
    {
        TimeControl { start_ms: now_ms(), limit_ms, max_nodes }
    }

    /// A control that never stops a search.
    pub fn unlimited() -> (r: TimeControl)
        ensures
            r.limit_ms is None,
            r.max_nodes is None,
    {
        TimeControl { start_ms: 0, limit_ms: None, max_nodes: None }
    }

    /// Whether a search that has visited `nodes` nodes must stop.
    pub fn should_stop(&self, nodes: u64) -> (r: bool)
        ensures
            (self.max_nodes matches Some(n) && nodes >= n) ==> r,
            self.limit_ms is None && !(self.max_nodes matches Some(n) && nodes >= n) ==> !r,
    {
        if let Some(n) = self.max_nodes {
            if nodes >= n {
                return true;
            }
        }
        match self.limit_ms {
            Some(limit) => deadline_passed(self.start_ms, now_ms(), limit),
            None => false,
        }
    }
}

/// Counters of one search.
#[derive(Debug)]
pub struct SearchState {
    pub nodes_visited: u64,
    pub beta_cutoffs: u64,
    pub max_depth_reached: u8,
    pub best_pv: Option<Vec<Move>>,
    pub generation: u16,
}

impl SearchState {
    pub fn new(generation: u16) -> (r: SearchState)
        ensures
            r.nodes_visited == 0,
            r.generation == generation,
    {
        SearchState { nodes_visited: 0, beta_cutoffs: 0, max_depth_reached: 0, best_pv: None, generation }
    }

    fn count_node(&mut self)
        ensures
            final(self).generation == old(self).generation,
            final(self).nodes_visited >= old(self).nodes_visited,
    {
        if self.nodes_visited < u64::MAX {
            self.nodes_visited = self.nodes_visited + 1;
        }
    }
}

/// Why a search gave no result.
#[derive(Debug, Clone, Copy, PartialEq, Eq, Structural)]
pub enum SearchError {
    /// The time control stopped it.
    Aborted,
    /// The side to move has no legal move.
    NoLegalMoves,
}

/// A mate score stored relative to the node rather than the root.
fn score_to_tt(score: i32, plies: u8) -> (r: i32)
    requires
        -INF <= score <= INF,
    ensures
        -INF - 256 <= r <= INF + 256,
{
    if score > MATE - 1000 {
        score + plies as i32
    } else if score < -MATE + 1000 {
        score - plies as i32
    } else {
        score
    }
}

fn score_from_tt(score: i32, plies: u8) -> (r: i32)
    ensures
        -INF <= r <= INF,
{
    let v = if score > MATE - 1000 && score < INF {
        score - plies as i32
    } else if score < -MATE + 1000 && score > -INF {
        score + plies as i32
    } else {
        score
    };
    if v > INF {
        INF
    } else if v < -INF {
        -INF
    } else {
        v
    }
}

/// Room for `n` more moves on the game's counters.
pub open spec fn room_for(g: GameModel, n: int) -> bool {
    g.plies + n < u32::MAX && g.halfmove_clock + n < u32::MAX
}

/// Evaluations lie within plus or minus this bound.
pub const EVAL_BOUND: i32 = 2_000_000;

pub open spec fn clamp(v: int, lo: int, hi: int) -> int {
    if v <= lo {
        lo
    } else if v >= hi {
        hi
    } else {
        v
    }
}

/// The static evaluation for the side to move (which lies within `EVAL_BOUND`).
pub open spec fn stand_pat(g: GameModel) -> int {
    clamp(eval_spec(g.board, g.player), -EVAL_BOUND as int, EVAL_BOUND as int)
}

/// A legal capture, en passant included, or a legal promotion.
pub open spec fn tactical(g: GameModel, m: Move) -> bool {
    legal(g, m) && (is_capture(g, m) || m.promotion is Some)
}

/// The move with index `i` in an enumeration of every (source, destination, promotion).
pub open spec fn move_at(i: int) -> Move {
    let k = i % 5;
    Move {
        src: (i / 320) as u8,
        dst: ((i / 5) % 64) as u8,
        promotion: if k == 1 {
            Some(PromotionPieceKind::Knight)
        } else if k == 2 {
            Some(PromotionPieceKind::Bishop)
        } else if k == 3 {
            Some(PromotionPieceKind::Rook)
        } else if k == 4 {
            Some(PromotionPieceKind::Queen)
        } else {
            None
        },
    }
}

pub open spec fn move_index(m: Move) -> int {
    m.src * 320 + m.dst * 5 + match m.promotion {
        None => 0int,
        Some(PromotionPieceKind::Knight) => 1,
        Some(PromotionPieceKind::Bishop) => 2,
        Some(PromotionPieceKind::Rook) => 3,
        Some(PromotionPieceKind::Queen) => 4,
    }
}

/// How many codes `move_at` enumerates.
pub open spec fn move_codes() -> nat {
    20480
}

pub proof fn lemma_move_index(m: Move)
    requires
        m.src < 64,
        m.dst < 64,
    ensures
        0 <= move_index(m) < move_codes(),
        move_at(move_index(m)) == m,
{
}

/// The quiescence value: the best of standing pat and of each tactical move's negated
/// value, looking `q` plies deep.
pub open spec fn q_value(g: GameModel, q: nat) -> int
    decreases q, 20481nat,
{
    if q == 0 {
        stand_pat(g)
    } else {
        q_best(g, q, move_codes())
    }
}

/// The best of standing pat and of the tactical moves among the first `n` codes.
pub open spec fn q_best(g: GameModel, q: nat, n: nat) -> int
    decreases q, n,
{
    if q == 0 || n == 0 || n > move_codes() {
        stand_pat(g)
    } else {
        let b = q_best(g, q, (n - 1) as nat);
        let m = move_at(n - 1);
        if tactical(g, m) && -q_value(g.after_move(m), (q - 1) as nat) > b {
            -q_value(g.after_move(m), (q - 1) as nat)
        } else {
            b
        }
    }
}

proof fn lemma_q_best(g: GameModel, q: nat, n: nat)
    requires
        q > 0,
        n <= move_codes(),
    ensures
        stand_pat(g) <= q_best(g, q, n),
        forall|i: int| 0 <= i < n && tactical(g, #[trigger] move_at(i)) ==> -q_value(g.after_move(move_at(i)), (q - 1) as nat) <= q_best(g, q, n),
        q_best(g, q, n) == stand_pat(g) || exists|i: int| 0 <= i < n && tactical(g, #[trigger] move_at(i)) && q_best(g, q, n) == -q_value(g.after_move(move_at(i)), (q - 1) as nat),
    decreases n,
{
    if n > 0 {
        lemma_q_best(g, q, (n - 1) as nat);
    }
}

/// The quiescence value bounds every tactical move's value and standing pat, and is one of
/// them.
proof fn lemma_q_value(g: GameModel, q: nat)
    requires
        q > 0,
    ensures
        stand_pat(g) <= q_value(g, q),
        forall|m: Move| #[trigger] tactical(g, m) ==> -q_value(g.after_move(m), (q - 1) as nat) <= q_value(g, q),
        q_value(g, q) == stand_pat(g) || exists|m: Move| #[trigger] tactical(g, m) && q_value(g, q) == -q_value(g.after_move(m), (q - 1) as nat),
{
    lemma_q_best(g, q, move_codes());
    assert forall|m: Move| #[trigger] tactical(g, m) implies -q_value(g.after_move(m), (q - 1) as nat) <= q_value(g, q) by {
        lemma_move_index(m);
        assert(tactical(g, move_at(move_index(m))));
    }
    if q_value(g, q) != stand_pat(g) {
        let i = choose|i: int| 0 <= i < move_codes() && tactical(g, #[trigger] move_at(i)) && q_best(g, q, move_codes()) == -q_value(g.after_move(move_at(i)), (q - 1) as nat);
        assert(tactical(g, move_at(i)));
    }
}

/// A value that bounds standing pat and every tactical move and is one of them is the
/// quiescence value.
proof fn lemma_q_value_max(g: GameModel, q: nat, mx: int)
    requires
        q > 0,
        stand_pat(g) <= mx,
        forall|m: Move| #[trigger] tactical(g, m) ==> -q_value(g.after_move(m), (q - 1) as nat) <= mx,
        mx == stand_pat(g) || exists|m: Move| #[trigger] tactical(g, m) && mx == -q_value(g.after_move(m), (q - 1) as nat),
    ensures
        q_value(g, q) == mx,
{
    lemma_q_value(g, q);
    if q_value(g, q) != stand_pat(g) {
        let w = choose|m: Move| #[trigger] tactical(g, m) && q_value(g, q) == -q_value(g.after_move(m), (q - 1) as nat);
        assert(tactical(g, w));
    }
    if mx != stand_pat(g) {
        let w = choose|m: Move| #[trigger] tactical(g, m) && mx == -q_value(g.after_move(m), (q - 1) as nat);
        assert(tactical(g, w));
    }
}

fn is_capture_move(game: &Game, m: Move) -> (r: bool)
    requires
        game.board.wf(),
        m.src < 64,
        m.dst < 64,
    ensures
        r == is_capture(game@, m),
{
    if game.board.piece_at(m.dst).is_some() {
        return true;
    }
    match (game.en_passant_target, game.board.piece_at(m.src)) {
        (Some(t), Some(p)) => p.kind == PieceKind::Pawn && t == m.dst,
        _ => false,
    }
}

/// Fail-hard search of captures and promotions only, standing pat on the static
/// evaluation, at most `qplies` plies deep: the quiescence value clamped to the window.
/// The game is left as it was.
#[verifier::rlimit(60)]
pub fn quiescence(
    game: &mut Game,
    alpha: i32,
    beta: i32,
    qplies: u8,
    state: &mut SearchState,
) -> (r: i32)
    requires
        old(game).wf(),
        room_for(old(game)@, qplies as int + 1),
        -INF <= alpha < beta <= INF,
    ensures
        final(game).wf(),
        final(game)@ == old(game)@,
        r == clamp(q_value(old(game)@, qplies as nat), alpha as int, beta as int),
        final(state).generation == old(state).generation,
    decreases qplies,
{
    let ghost g = game@;
    proof {
        lemma_wf_core(g);
    }
    let stand = eval_board(&game.board, game.player);
    assert(stand == stand_pat(g));
    if qplies == 0 {
        return if stand <= alpha {
            alpha
        } else if stand >= beta {
            beta
        } else {
            stand
        };
    }
    proof {
        lemma_q_value(g, qplies as nat);
    }
    if stand >= beta {
        return beta;
    }
    let mut a = alpha;
    if stand > a {
        a = stand;
    }
    let moves = game.legal_moves();
    let mut i: usize = 0;
    while i < moves.len()
        invariant
            game.wf(),
            game@ == g,
            g == old(game)@,
            g.wf_core(),
            room_for(g, qplies as int + 1),
            qplies > 0,
            alpha <= a < beta,
            stand == stand_pat(g),
            stand <= a,
            -INF <= alpha < beta <= INF,
            i <= moves@.len(),
            forall|m: Move| #[trigger] moves@.contains(m) <==> legal(g, m),
            forall|j: int| 0 <= j < i && tactical(g, #[trigger] moves@[j]) ==> -q_value(g.after_move(moves@[j]), (qplies - 1) as nat) <= a,
            a == alpha || a == stand || exists|j: int| 0 <= j < i && tactical(g, #[trigger] moves@[j]) && a == -q_value(g.after_move(moves@[j]), (qplies - 1) as nat),
            state.generation == old(state).generation,
        decreases moves@.len() - i,
    {
        let m = moves[i];
        proof {
            assert(moves@.contains(m));
        }
        let tactical_move = is_capture_move(game, m) || m.promotion.is_some();
        if tactical_move {
            proof {
                lemma_pseudo_legal_move_ok(g, m);
                lemma_make_undo(g, m);
            }
            game.make_move(&m);
            state.count_node();
            let child = quiescence(game, -beta, -a, qplies - 1, state);
            game.undo_move();
            let score = -child;
            if score >= beta {
                proof {
                    assert(tactical(g, m));
                    lemma_q_value(g, qplies as nat);
                    assert(-q_value(g.after_move(m), (qplies - 1) as nat) >= beta);
                }
                return beta;
            }
            if score > a {
                a = score;
            }
        }
        i = i + 1;
    }
    proof {
        assert forall|m: Move| #[trigger] tactical(g, m) implies -q_value(g.after_move(m), (qplies - 1) as nat) <= a by {
            assert(moves@.contains(m));
            let j = choose|j: int| 0 <= j < moves@.len() && moves@[j] == m;
            assert(tactical(g, moves@[j]));
        }
        if a == stand {
            lemma_q_value_max(g, qplies as nat, a as int);
        } else if exists|j: int| 0 <= j < i && tactical(g, #[trigger] moves@[j]) && a == -q_value(g.after_move(moves@[j]), (qplies - 1) as nat) {
            let j = choose|j: int| 0 <= j < i && tactical(g, #[trigger] moves@[j]) && a == -q_value(g.after_move(moves@[j]), (qplies - 1) as nat);
            assert(tactical(g, moves@[j]));
            lemma_q_value_max(g, qplies as nat, a as int);
        } else {
            assert(a == alpha);
            if q_value(g, qplies as nat) != stand_pat(g) {
                let w = choose|m: Move| #[trigger] tactical(g, m) && q_value(g, qplies as nat) == -q_value(g.after_move(m), (qplies - 1) as nat);
                assert(tactical(g, w));
            }
        }
    }
    a
}

/// No move is legal for the side to move.
pub open spec fn no_legal_moves(g: GameModel) -> bool {
    forall|m: Move| !#[trigger] legal(g, m)
}

/// The negamax value of `g` searched `d` plies deep at `p` plies from the root: the
/// quiescence value at the leaves; mated-in-`p` or a draw with no legal move; a draw by
/// the fifty-move rule or repetition; otherwise the best negated value of a legal move.
pub open spec fn ab_value(g: GameModel, d: nat, p: int) -> int
    decreases d, 20481nat,
{
    if d == 0 {
        q_value(g, QUIESCENCE_PLIES as nat)
    } else if no_legal_moves(g) {
        if in_check(g.board, g.player) {
            -MATE + p
        } else {
            DRAW as int
        }
    } else if g.halfmove_clock >= 100 || is_repetition(g) {
        DRAW as int
    } else {
        ab_best(g, d, p, move_codes())
    }
}

/// The best negated value of the legal moves among the first `n` codes (`-INF` if none).
pub open spec fn ab_best(g: GameModel, d: nat, p: int, n: nat) -> int
    decreases d, n,
{
    if d == 0 || n == 0 || n > move_codes() {
        -INF as int
    } else {
        let b = ab_best(g, d, p, (n - 1) as nat);
        let m = move_at(n - 1);
        if legal(g, m) && -ab_value(g.after_move(m), (d - 1) as nat, p + 1) > b {
            -ab_value(g.after_move(m), (d - 1) as nat, p + 1)
        } else {
            b
        }
    }
}

proof fn lemma_ab_best(g: GameModel, d: nat, p: int, n: nat)
    requires
        d > 0,
        n <= move_codes(),
    ensures
        forall|i: int| 0 <= i < n && legal(g, #[trigger] move_at(i)) ==> -ab_value(g.after_move(move_at(i)), (d - 1) as nat, p + 1) <= ab_best(g, d, p, n),
        ab_best(g, d, p, n) == -INF || exists|i: int| 0 <= i < n && legal(g, #[trigger] move_at(i)) && ab_best(g, d, p, n) == -ab_value(g.after_move(move_at(i)), (d - 1) as nat, p + 1),
    decreases n,
{
    if n > 0 {
        lemma_ab_best(g, d, p, (n - 1) as nat);
    }
}

/// The best value bounds every legal move's negated value, and is one of them unless it
/// is `-INF`.
proof fn lemma_ab_max(g: GameModel, d: nat, p: int)
    requires
        d > 0,
    ensures
        forall|m: Move| #[trigger] legal(g, m) ==> -ab_value(g.after_move(m), (d - 1) as nat, p + 1) <= ab_best(g, d, p, move_codes()),
        ab_best(g, d, p, move_codes()) == -INF || exists|m: Move| #[trigger] legal(g, m) && ab_best(g, d, p, move_codes()) == -ab_value(g.after_move(m), (d - 1) as nat, p + 1),
{
    lemma_ab_best(g, d, p, move_codes());
    assert forall|m: Move| #[trigger] legal(g, m) implies -ab_value(g.after_move(m), (d - 1) as nat, p + 1) <= ab_best(g, d, p, move_codes()) by {
        lemma_move_index(m);
        assert(legal(g, move_at(move_index(m))));
    }
    if ab_best(g, d, p, move_codes()) != -INF {
        let i = choose|i: int| 0 <= i < move_codes() && legal(g, #[trigger] move_at(i)) && ab_best(g, d, p, move_codes()) == -ab_value(g.after_move(move_at(i)), (d - 1) as nat, p + 1);
        assert(legal(g, move_at(i)));
    }
}

/// Each move of `line` is legal in the position that the moves before it lead to.
#[verifier::opaque]
pub open spec fn line_legal(g: GameModel, line: Seq<Move>) -> bool
    decreases line.len(),
{
    line.len() == 0 || (legal(g, line[0]) && line_legal(g.after_move(line[0]), line.drop_first()))
}

/// The empty line is legal.
pub proof fn lemma_line_empty(g: GameModel, line: Seq<Move>)
    requires
        line.len() == 0,
    ensures
        line_legal(g, line),
{
    reveal(line_legal);
}

/// A legal move followed by a line legal after it is a legal line.
pub proof fn lemma_line_cons(g: GameModel, m: Move, line: Seq<Move>)
    requires
        legal(g, m),
        line_legal(g.after_move(m), line),
    ensures
        line_legal(g, seq![m] + line),
{
    reveal(line_legal);
    assert((seq![m] + line).drop_first() =~= line);
}

/// `r` is what a fail-hard search with window (`lo`, `hi`) may return for true value `v`:
/// at most `lo` when `v` is, at least `hi` when `v` is, and `v` itself in between.
pub open spec fn fail_hard(r: int, v: int, lo: int, hi: int) -> bool {
    &&& v <= lo ==> r <= lo
    &&& v >= hi ==> r >= hi
    &&& lo < v < hi ==> r == v
}

/// Alpha-beta negamax (fail-hard) to `depth` plies with quiescence at the leaves, using
/// and filling the transposition table and writing the principal variation to `pv`. With
/// an empty table the result is fail-hard for the negamax value `ab_value`; a node with no
/// legal move returns its mate or draw score exactly. Only the time control stops it. The
/// game is left as it was.
#[verifier::rlimit(100)]
pub fn negamax_inner(
    game: &mut Game,
    alpha: i32,
    beta: i32,
    depth: u8,
    plies: u8,
    pv: &mut Vec<Move>,
    time_control: &TimeControl,
    state: &mut SearchState,
    tt: &mut TranspositionTable<SearchEntry>,
) -> (r: Result<i32, SearchError>)
    requires
        old(game).wf(),
        old(tt).wf(),
        room_for(old(game)@, depth as int + QUIESCENCE_PLIES as int + 1),
        plies as int + depth as int <= 200,
        -INF <= alpha < beta <= INF,
    ensures
        final(game).wf(),
        final(game)@ == old(game)@,
        final(tt).wf(),
        final(tt).slots().len() == old(tt).slots().len(),
        final(state).generation == old(state).generation,
        r matches Ok(v) ==> -INF <= v <= INF,
        r is Ok ==> final(pv)@.len() <= depth && line_legal(old(game)@, final(pv)@),
        r matches Err(e) ==> e == SearchError::Aborted,
        time_control.limit_ms is None && time_control.max_nodes is None ==> r is Ok,
        old(tt).slots().len() == 0 ==> (r matches Ok(v) ==> fail_hard(
            v as int,
            ab_value(old(game)@, depth as nat, plies as int),
            alpha as int,
            beta as int,
        )),
        depth > 0 && no_legal_moves(old(game)@) ==> final(pv)@.len() == 0 && r == Ok::<i32, SearchError>(
            if in_check(old(game)@.board, old(game)@.player) {
                (-MATE + plies) as i32
            } else {
                DRAW
            },
        ),
    decreases depth,
{
    let ghost g = game@;
    proof {
        lemma_wf_core(g);
    }
    let mut alpha = alpha;
    if plies > state.max_depth_reached {
        state.max_depth_reached = plies;
    }
    if depth == 0 {
        pv.clear();
        proof {
            lemma_line_empty(g, pv@);
        }
        return Ok(quiescence(game, alpha, beta, QUIESCENCE_PLIES, state));
    }
    let moves = game.legal_moves();
    if moves.len() == 0 {
        pv.clear();
        proof {
            lemma_line_empty(g, pv@);
        }
        proof {
            assert forall|m: Move| !#[trigger] legal(g, m) by {
                if legal(g, m) {
                    assert(moves@.contains(m));
                }
            }
        }
        if game.board.king_in_check(game.player) {
            return Ok(mated_in(plies));
        } else {
            return Ok(DRAW);
        }
    }
    proof {
        assert(moves@.contains(moves@[0]));
    }
    if game.is_stalemate_by_fifty_move_rule() || game.is_stalemate_by_repetition() {
        pv.clear();
        proof {
            lemma_line_empty(g, pv@);
        }
        return Ok(DRAW);
    }
    let key = game.zobrist;
    let mut first: Option<Move> = None;
    match tt.get(&key) {
        Some(entry) => {
            first = entry.best_move;
            if entry.depth >= depth {
                let stored = score_from_tt(entry.score, plies);
                match entry.bound {
                    Bound::Exact => {
                        pv.clear();
        proof {
            lemma_line_empty(g, pv@);
        }
                        return Ok(stored);
                    },
                    Bound::Lower => {
                        if stored >= beta {
                            pv.clear();
        proof {
            lemma_line_empty(g, pv@);
        }
                            return Ok(beta);
                        }
                    },
                    Bound::Upper => {
                        if stored <= alpha {
                            pv.clear();
        proof {
            lemma_line_empty(g, pv@);
        }
                            return Ok(alpha);
                        }
                    },
                }
            }
        },
        None => {},
    }
    if state.nodes_visited % CHECK_INTERVAL == 0 && time_control.should_stop(state.nodes_visited) {
        return Err(SearchError::Aborted);
    }
    proof {
        assert forall|i: int| 0 <= i < moves@.len() implies (#[trigger] moves@[i]).src < 64
            && moves@[i].dst < 64 && g.board[moves@[i].src as int] is Some by {
            assert(moves@.contains(moves@[i]));
        }
    }
    let ordered = order_moves(game, &moves, first);
    let mut best: Option<Move> = None;
    let mut raised = false;
    pv.clear();
        proof {
            lemma_line_empty(g, pv@);
        }
    let mut line: Vec<Move> = Vec::new();
    let ghost tt_len = tt.slots().len();
    let ghost alpha0 = alpha;
    let mut i: usize = 0;
    while i < ordered.len()
        invariant
            game.wf(),
            game@ == g,
            g == old(game)@,
            g.wf_core(),
            tt.wf(),
            tt.slots().len() == tt_len,
            tt_len == old(tt).slots().len(),
            room_for(g, depth as int + QUIESCENCE_PLIES as int + 1),
            depth > 0,
            !no_legal_moves(g),
            !(g.halfmove_clock >= 100 || is_repetition(g)),
            plies as int + depth as int <= 200,
            -INF <= alpha0 <= alpha < beta <= INF,
            i <= ordered@.len(),
            forall|m: Move| #[trigger] ordered@.contains(m) <==> legal(g, m),
            forall|j: int| 0 <= j < i && legal(g, #[trigger] ordered@[j]) ==> -ab_value(g.after_move(ordered@[j]), (depth - 1) as nat, plies + 1) <= alpha || tt_len != 0,
            alpha == alpha0 || tt_len != 0 || exists|j: int| 0 <= j < i && legal(g, #[trigger] ordered@[j]) && alpha == -ab_value(g.after_move(ordered@[j]), (depth - 1) as nat, plies + 1),
            state.generation == old(state).generation,
            pv@.len() <= depth,
            line_legal(g, pv@),
        decreases ordered@.len() - i,
    {
        let m = ordered[i];
        proof {
            assert(ordered@.contains(m));
            lemma_pseudo_legal_move_ok(g, m);
            lemma_make_undo(g, m);
        }
        game.make_move(&m);
        state.count_node();
        let child = negamax_inner(
            game,
            -beta,
            -alpha,
            depth - 1,
            plies + 1,
            &mut line,
            time_control,
            state,
            tt,
        );
        game.undo_move();
        let score = match child {
            Ok(v) => -v,
            Err(e) => {
                return Err(e);
            },
        };
        if score >= beta {
            state.beta_cutoffs = if state.beta_cutoffs < u64::MAX {
                state.beta_cutoffs + 1
            } else {
                state.beta_cutoffs
            };
            let entry = SearchEntry {
                depth,
                bound: Bound::Lower,
                score: score_to_tt(beta, plies),
                best_move: Some(m),
                generation: state.generation,
            };
            tt.insert(&key, entry);
            proof {
                if tt_len == 0 {
                    lemma_ab_max(g, depth as nat, plies as int);
                    assert(legal(g, m));
                }
            }
            return Ok(beta);
        }
        if score > alpha {
            alpha = score;
            raised = true;
            best = Some(m);
            pv.clear();
        proof {
            lemma_line_empty(g, pv@);
        }
            pv.push(m);
            let mut j: usize = 0;
            while j < line.len()
                invariant
                    j <= line@.len(),
                    line@.len() < depth,
                    pv@.len() == 1 + j,
                    pv@ == seq![m] + line@.take(j as int),
                decreases line@.len() - j,
            {
                pv.push(line[j]);
                proof {
                    assert(line@.take(j + 1) =~= line@.take(j as int).push(line@[j as int]));
                }
                j = j + 1;
            }
            proof {
                assert(line@.take(line@.len() as int) =~= line@);
                lemma_line_cons(g, m, line@);
            }
        }
        i = i + 1;
    }
    let entry = SearchEntry {
        depth,
        bound: if raised {
            Bound::Exact
        } else {
            Bound::Upper
        },
        score: score_to_tt(alpha, plies),
        best_move: best,
        generation: state.generation,
    };
    tt.insert(&key, entry);
    proof {
        if tt_len == 0 {
            lemma_ab_max(g, depth as nat, plies as int);
            assert forall|m: Move| #[trigger] legal(g, m) implies -ab_value(g.after_move(m), (depth - 1) as nat, plies + 1) <= alpha by {
                assert(ordered@.contains(m));
                let j = choose|j: int| 0 <= j < ordered@.len() && ordered@[j] == m;
                assert(legal(g, ordered@[j]));
            }
            if alpha != alpha0 {
                let j = choose|j: int| 0 <= j < i && legal(g, #[trigger] ordered@[j]) && alpha == -ab_value(g.after_move(ordered@[j]), (depth - 1) as nat, plies + 1);
                assert(legal(g, ordered@[j]));
            }
        }
    }
    Ok(alpha)
}

/// One iteration at the root: searches every legal move to `depth` and returns the best
/// move, its line and its score, trying the first move of the previous line first.
#[verifier::rlimit(100)]
pub fn negamax(
    game: &mut Game,
    depth: u8,
    state: &mut SearchState,
    time_control: &TimeControl,
    tt: &mut TranspositionTable<SearchEntry>,
) -> (r: Result<(Move, Vec<Move>, i32), SearchError>)
    requires
        old(game).wf(),
        old(tt).wf(),
        room_for(old(game)@, depth as int + QUIESCENCE_PLIES as int + 1),
        1 <= depth <= 100,
    ensures
        final(game).wf(),
        final(game)@ == old(game)@,
        final(tt).wf(),
        final(state).generation == old(state).generation,
        r == Err::<(Move, Vec<Move>, i32), SearchError>(SearchError::NoLegalMoves) <==> no_legal_moves(old(game)@),
        r matches Ok(res) ==> legal(old(game)@, res.0) && 0 < res.1@.len() <= depth && res.1@[0] == res.0
            && line_legal(old(game)@, res.1@),
        time_control.limit_ms is None && time_control.max_nodes is None && !no_legal_moves(old(game)@)
            ==> r is Ok,
        old(tt).slots().len() == 0 ==> (r matches Ok(res) ==> res.2 == clamp(
            ab_best(old(game)@, depth as nat, 0, move_codes()),
            -INF as int,
            INF as int,
        ) && res.2 == clamp(
            -ab_value(old(game)@.after_move(res.0), (depth - 1) as nat, 1),
            -INF as int,
            INF as int,
        )),
{
    let ghost g = game@;
    proof {
        lemma_wf_core(g);
    }
    let moves = game.legal_moves();
    if moves.len() == 0 {
        proof {
            assert forall|m: Move| !#[trigger] legal(g, m) by {
                if legal(g, m) {
                    assert(moves@.contains(m));
                }
            }
        }
        return Err(SearchError::NoLegalMoves);
    }
    proof {
        assert(moves@.contains(moves@[0]));
        assert forall|i: int| 0 <= i < moves@.len() implies (#[trigger] moves@[i]).src < 64
            && moves@[i].dst < 64 && g.board[moves@[i].src as int] is Some by {
            assert(moves@.contains(moves@[i]));
        }
    }
    let previous = match &state.best_pv {
        Some(line) => if line.len() > 0 {
            Some(line[0])
        } else {
            None
        },
        None => None,
    };
    let ordered = order_moves(game, &moves, previous);
    proof {
        assert(moves@.contains(moves@[0]));
        assert(ordered@.contains(moves@[0]));
    }
    let mut best_move = ordered[0];
    proof {
        assert(ordered@.contains(best_move));
    }
    let mut best_line: Vec<Move> = Vec::new();
    best_line.push(best_move);
    proof {
        lemma_line_empty(g.after_move(best_move), Seq::<Move>::empty());
        lemma_line_cons(g, best_move, Seq::<Move>::empty());
        assert(best_line@ =~= seq![best_move] + Seq::<Move>::empty());
    }
    let mut best_score: i32 = -INF;
    let ghost tt_len = tt.slots().len();
    let mut i: usize = 0;
    while i < ordered.len()
        invariant
            game.wf(),
            game@ == g,
            g == old(game)@,
            g.wf_core(),
            tt.wf(),
            room_for(g, depth as int + QUIESCENCE_PLIES as int + 1),
            1 <= depth <= 100,
            -INF <= best_score <= INF,
            forall|m: Move| #[trigger] ordered@.contains(m) <==> legal(g, m),
            legal(g, best_move),
            0 < best_line@.len() <= depth,
            best_line@[0] == best_move,
            line_legal(g, best_line@),
            state.generation == old(state).generation,
            tt.slots().len() == tt_len,
            tt_len == old(tt).slots().len(),
            i <= ordered@.len(),
            tt_len == 0 ==> forall|j: int| 0 <= j < i && legal(g, #[trigger] ordered@[j]) ==> clamp(-ab_value(g.after_move(ordered@[j]), (depth - 1) as nat, 1), -INF as int, INF as int) <= best_score,
            tt_len == 0 ==> (best_score == -INF || exists|j: int| 0 <= j < i && legal(g, #[trigger] ordered@[j]) && best_score == clamp(-ab_value(g.after_move(ordered@[j]), (depth - 1) as nat, 1), -INF as int, INF as int)),
            i == 0 ==> best_move == ordered@[0] && best_score == -INF,
            tt_len == 0 && i > 0 ==> best_score == clamp(-ab_value(g.after_move(best_move), (depth - 1) as nat, 1), -INF as int, INF as int),
            ordered@.len() > 0,
        decreases ordered@.len() - i,
    {
        let m = ordered[i];
        proof {
            assert(ordered@.contains(m));
            lemma_pseudo_legal_move_ok(g, m);
            lemma_make_undo(g, m);
        }
        game.make_move(&m);
        state.count_node();
        let mut line: Vec<Move> = Vec::new();
        let child = negamax_inner(game, -INF, INF, depth - 1, 1, &mut line, time_control, state, tt);
        game.undo_move();
        let score = match child {
            Ok(v) => -v,
            Err(e) => {
                return Err(SearchError::Aborted);
            },
        };
        if score > best_score {
            best_score = score;
            best_move = m;
            best_line = Vec::new();
            best_line.push(m);
            let mut j: usize = 0;
            while j < line.len()
                invariant
                    j <= line@.len(),
                    line@.len() < depth,
                    best_line@.len() == 1 + j,
                    best_line@[0] == m,
                    best_line@ == seq![m] + line@.take(j as int),
                decreases line@.len() - j,
            {
                best_line.push(line[j]);
                proof {
                    assert(line@.take(j + 1) =~= line@.take(j as int).push(line@[j as int]));
                }
                j = j + 1;
            }
            proof {
                assert(line@.take(line@.len() as int) =~= line@);
                lemma_line_cons(g, m, line@);
            }
        }
        proof {
            if tt_len == 0 {
                assert(score == clamp(-ab_value(g.after_move(m), (depth - 1) as nat, 1), -INF as int, INF as int));
            }
        }
        i = i + 1;
    }
    proof {
        if tt_len == 0 {
            lemma_ab_max(g, depth as nat, 0);
            let v = ab_best(g, depth as nat, 0, move_codes());
            if v != -INF {
                let w = choose|m: Move| #[trigger] legal(g, m) && v == -ab_value(g.after_move(m), (depth - 1) as nat, 0int + 1);
                assert(ordered@.contains(w));
                let j = choose|j: int| 0 <= j < ordered@.len() && ordered@[j] == w;
                assert(legal(g, ordered@[j]));
            }
            if best_score != -INF {
                let j = choose|j: int| 0 <= j < i && legal(g, #[trigger] ordered@[j]) && best_score == clamp(-ab_value(g.after_move(ordered@[j]), (depth - 1) as nat, 1), -INF as int, INF as int);
                assert(legal(g, ordered@[j]));
            }
        }
    }
    Ok((best_move, best_line, best_score))
}

/// Iterative deepening from depth 1 to `max_depth`, keeping the last iteration that
/// completed; if even the first is stopped, the first move in search order is returned.
/// There is a result exactly when the side to move has a legal move.
pub fn search(
    game: &mut Game,
    max_depth: u8,
    time_control: &TimeControl,
    tt: &mut TranspositionTable<SearchEntry>,
    state: &mut SearchState,
) -> (r: Option<(Move, Vec<Move>, i32)>)
    requires
        old(game).wf(),
        old(tt).wf(),
        room_for(old(game)@, max_depth as int + QUIESCENCE_PLIES as int + 1),
        1 <= max_depth <= 100,
    ensures
        final(game).wf(),
        final(game)@ == old(game)@,
        final(tt).wf(),
        r is Some <==> !no_legal_moves(old(game)@),
        r matches Some(res) ==> legal(old(game)@, res.0),
{
    let ghost g = game@;
    let mut result: Option<(Move, Vec<Move>, i32)> = None;
    let mut depth: u8 = 1;
    while depth <= max_depth
        invariant
            game.wf(),
            game@ == g,
            g == old(game)@,
            tt.wf(),
            room_for(g, max_depth as int + QUIESCENCE_PLIES as int + 1),
            1 <= depth,
            max_depth <= 100,
            result matches Some(res) ==> legal(g, res.0),
        decreases max_depth + 1 - depth,
    {
        match negamax(game, depth, state, time_control, tt) {
            Ok(res) => {
                state.best_pv = Some(res.1.clone());
                result = Some(res);
            },
            Err(SearchError::NoLegalMoves) => {
                return None;
            },
            Err(SearchError::Aborted) => {
                break;
            },
        }
        depth = depth + 1;
    }
    match result {
        Some(res) => Some(res),
        None => {
            let moves = game.legal_moves();
            if moves.len() == 0 {
                proof {
                    assert forall|m: Move| !#[trigger] legal(g, m) by {
                        if legal(g, m) {
                            assert(moves@.contains(m));
                        }
                    }
                }
                None
            } else {
                let m = moves[0];
                proof {
                    assert(moves@.contains(m));
                }
                let mut line: Vec<Move> = Vec::new();
                line.push(m);
                Some((m, line, 0))
            }
        },
    }
}

} // verus!
