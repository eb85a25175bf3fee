use vstd::prelude::*;
use crate::attacks::{bishop_attacks, bishop_set, bits, king_attacks, king_step, knight_attacks, knight_step, occupied, queen_attacks, rook_attacks, rook_set};
use crate::bitboard::{count, count_below, has_bit, lemma_and, lemma_empty, lemma_or};
use crate::board::Board;
use crate::game::Game;
use crate::game::pawn;
use crate::params::{param, param_at, ATTACKED_KING_SQUARES, BISHOP_MOBILITY, BISHOP_PAIR_BONUS, KNIGHT_MOBILITY, PASSED_PAWNS, PSQT, QUEEN_MOBILITY, ROOK_MOBILITY};
use crate::piece::{Piece, PieceKind, Player};
use crate::square::{file, file_of, rank, rank_of, Square};

verus! {

/// A score in midgame and endgame terms.
#[derive(Clone, Copy, Debug, PartialEq, Eq, Structural)]
pub struct PhasedEval {
    pub mg: i32,
    pub eg: i32,
}

pub fn s(mg: i32, eg: i32) -> (r: PhasedEval)
    ensures
        r == (PhasedEval { mg, eg }),
{
    PhasedEval { mg, eg }
}

pub open spec fn plus(a: (int, int), b: (int, int)) -> (int, int) {
    (a.0 + b.0, a.1 + b.1)
}

pub open spec fn minus(a: (int, int), b: (int, int)) -> (int, int) {
    (a.0 - b.0, a.1 - b.1)
}

pub open spec fn sign(p: Player) -> int {
    match p {
        Player::White => 1,
        Player::Black => -1,
    }
}

/// A White-positive score for a term of `p`.
pub open spec fn signed(p: Player, a: (int, int)) -> (int, int) {
    match p {
        Player::White => a,
        Player::Black => (-a.0, -a.1),
    }
}

/// The index of square `s` in a piece-square table, seen from `p`'s side.
pub open spec fn table_index(p: Player, s: int) -> int {
    match p {
        Player::White => (7 - rank_of(s)) * 8 + file_of(s),
        Player::Black => s,
    }
}

/// No enemy pawn stands ahead of the pawn of `p` on `s`, on its file or a neighbouring one.
pub open spec fn passed(b: Seq<Option<Piece>>, s: int, p: Player) -> bool {
    forall|t: int|
        0 <= t < 64 && #[trigger] b[t] == Some(pawn(p.spec_other())) && -1 <= file_of(t) - file_of(s)
            <= 1 ==> !(match p {
            Player::White => rank_of(t) > rank_of(s),
            Player::Black => rank_of(t) < rank_of(s),
        })
}

/// Material, piece-square and passed-pawn score of square `s`, White minus Black.
pub open spec fn piece_term(b: Seq<Option<Piece>>, s: int) -> (int, int) {
    match b[s] {
        None => (0, 0),
        Some(p) => {
            let k = p.kind.spec_index();
            let i = table_index(p.player, s);
            let base = plus(param(k as usize), param((PSQT + 64 * k + i) as usize));
            let extra = if p.kind == PieceKind::Pawn && passed(b, s, p.player) {
                param((PASSED_PAWNS + i) as usize)
            } else {
                (0, 0)
            };
            signed(p.player, plus(base, extra))
        },
    }
}

pub open spec fn board_score(b: Seq<Option<Piece>>, n: nat) -> (int, int)
    decreases n,
{
    if n == 0 {
        (0, 0)
    } else {
        plus(board_score(b, (n - 1) as nat), piece_term(b, n - 1))
    }
}

/// How many squares below `n` a set holds.
pub open spec fn set_count(st: Set<int>, n: nat) -> nat
    decreases n,
{
    if n == 0 {
        0
    } else {
        set_count(st, (n - 1) as nat) + if st.contains(n - 1) {
            1nat
        } else {
            0nat
        }
    }
}

pub proof fn lemma_count_set(b: u64, st: Set<int>, n: nat)
    requires
        n <= 64,
        forall|t: u64| t < 64 ==> (#[trigger] has_bit(b, t) <==> st.contains(t as int)),
    ensures
        count_below(b, n) == set_count(st, n),
        set_count(st, n) <= n,
    decreases n,
{
    if n > 0 {
        lemma_count_set(b, st, (n - 1) as nat);
        assert(has_bit(b, (n - 1) as u64) <==> st.contains(n - 1));
    }
}

/// The squares that a knight, bishop, rook or queen on `s` attacks.
pub open spec fn attack_set(b: Seq<Option<Piece>>, s: int, kind: PieceKind) -> Set<int> {
    match kind {
        PieceKind::Knight => Set::new(|t: int| knight_step(s, t)),
        PieceKind::Bishop => bishop_set(occupied(b), s),
        PieceKind::Rook => rook_set(occupied(b), s),
        PieceKind::Queen => bishop_set(occupied(b), s) + rook_set(occupied(b), s),
        _ => Set::empty(),
    }
}

pub open spec fn is_mobile(kind: PieceKind) -> bool {
    kind == PieceKind::Knight || kind == PieceKind::Bishop || kind == PieceKind::Rook || kind
        == PieceKind::Queen
}

pub open spec fn mobility_entry(kind: PieceKind, c: nat) -> usize {
    match kind {
        PieceKind::Knight => (KNIGHT_MOBILITY + if c < 8 { c } else { 8 }) as usize,
        PieceKind::Bishop => (BISHOP_MOBILITY + if c < 13 { c } else { 13 }) as usize,
        PieceKind::Rook => (ROOK_MOBILITY + if c < 14 { c } else { 14 }) as usize,
        _ => (QUEEN_MOBILITY + if c < 27 { c } else { 27 }) as usize,
    }
}

/// The mobility bonus of square `s` for side `p`: by the number of squares its knight,
/// bishop, rook or queen attacks; counts past a table's end use its last entry.
pub open spec fn mobility_term(b: Seq<Option<Piece>>, s: int, p: Player) -> (int, int) {
    match b[s] {
        Some(q) => if q.player == p && is_mobile(q.kind) {
            param(mobility_entry(q.kind, set_count(attack_set(b, s, q.kind), 64)))
        } else {
            (0, 0)
        },
        None => (0, 0),
    }
}

pub open spec fn mobility(b: Seq<Option<Piece>>, p: Player, n: nat) -> (int, int)
    decreases n,
{
    if n == 0 {
        (0, 0)
    } else {
        plus(mobility(b, p, (n - 1) as nat), mobility_term(b, n - 1, p))
    }
}

/// The squares that the knights, bishops, rooks and queens of `p` on squares below `n`
/// attack.
pub open spec fn attacked_set(b: Seq<Option<Piece>>, p: Player, n: nat) -> Set<int> {
    Set::new(
        |t: int|
            exists|s: int|
                0 <= s < n && #[trigger] b[s] is Some && b[s].unwrap().player == p && is_mobile(
                    b[s].unwrap().kind,
                ) && attack_set(b, s, b[s].unwrap().kind).contains(t),
    )
}

/// The penalty of the king of `p.other()` on `k` for the squares around it that `p`
/// attacks.
pub open spec fn king_term(b: Seq<Option<Piece>>, k: int, p: Player) -> (int, int) {
    if b[k] == Some(Piece { kind: PieceKind::King, player: p.spec_other() }) {
        let c = set_count(Set::new(|t: int| king_step(k, t)).intersect(attacked_set(b, p, 64)), 64);
        param((ATTACKED_KING_SQUARES + if c < 8 { c } else { 8 }) as usize)
    } else {
        (0, 0)
    }
}

pub open spec fn king_safety(b: Seq<Option<Piece>>, p: Player, n: nat) -> (int, int)
    decreases n,
{
    if n == 0 {
        (0, 0)
    } else {
        plus(king_safety(b, p, (n - 1) as nat), king_term(b, n - 1, p))
    }
}

/// The mobility of `p` minus the king-safety table's entry for the squares around the enemy
/// king that `p` attacks.
pub open spec fn mobility_and_king_safety(b: Seq<Option<Piece>>, p: Player) -> (int, int) {
    minus(mobility(b, p, 64), king_safety(b, p, 64))
}

pub open spec fn count_pieces(b: Seq<Option<Piece>>, q: Piece, n: nat) -> nat
    decreases n,
{
    if n == 0 {
        0
    } else {
        count_pieces(b, q, (n - 1) as nat) + if b[n - 1] == Some(q) {
            1nat
        } else {
            0nat
        }
    }
}

pub open spec fn bishop_pair(b: Seq<Option<Piece>>, p: Player) -> (int, int) {
    if count_pieces(b, Piece { kind: PieceKind::Bishop, player: p }, 64) >= 2 {
        param(BISHOP_PAIR_BONUS)
    } else {
        (0, 0)
    }
}

pub open spec fn phase_weight(q: Option<Piece>) -> nat {
    match q {
        Some(p) => match p.kind {
            PieceKind::Knight => 1,
            PieceKind::Bishop => 1,
            PieceKind::Rook => 2,
            PieceKind::Queen => 4,
            _ => 0,
        },
        None => 0,
    }
}

pub open spec fn phase_sum(b: Seq<Option<Piece>>, n: nat) -> nat
    decreases n,
{
    if n == 0 {
        0
    } else {
        phase_sum(b, (n - 1) as nat) + phase_weight(b[n - 1])
    }
}

/// The game phase from 0 (bare) to 24 (all non-pawn material).
pub open spec fn phase(b: Seq<Option<Piece>>) -> int {
    let s = phase_sum(b, 64);
    if s < 24 {
        s as int
    } else {
        24
    }
}

/// Division rounding toward zero.
pub open spec fn trunc_div(a: int, d: int) -> int {
    if a >= 0 {
        a / d
    } else {
        -((-a) / d)
    }
}

/// The total score, White minus Black, before tapering.
pub open spec fn total_score(b: Seq<Option<Piece>>) -> (int, int) {
    plus(
        plus(
            board_score(b, 64),
            minus(mobility_and_king_safety(b, Player::White), mobility_and_king_safety(b, Player::Black)),
        ),
        minus(bishop_pair(b, Player::White), bishop_pair(b, Player::Black)),
    )
}

/// The evaluation from the side to move's point of view.
pub open spec fn eval_spec(b: Seq<Option<Piece>>, player: Player) -> int {
    let t = total_score(b);
    let ph = phase(b);
    sign(player) * trunc_div(t.0 * ph + t.1 * (24 - ph), 24)
}

fn table_index_of(p: Player, sq: Square) -> (r: usize)
    requires
        sq < 64,
    ensures
        r == table_index(p, sq as int),
        r < 64,
{
    match p {
        Player::White => ((7 - rank(sq)) * 8 + file(sq)) as usize,
        Player::Black => sq as usize,
    }
}

/// Whether the pawn of `p` on `sq` is passed.
pub fn is_passed(board: &Board, sq: Square, p: Player) -> (r: bool)
    requires
        board.wf(),
        sq < 64,
    ensures
        r == passed(board@, sq as int, p),
{
    let fs = file(sq);
    let rs = rank(sq);
    let mut t: u8 = 0;
    while t < 64
        invariant
            board.wf(),
            sq < 64,
            fs == file_of(sq as int),
            rs == rank_of(sq as int),
            t <= 64,
            forall|u: int|
                0 <= u < t && #[trigger] board@[u] == Some(pawn(p.spec_other())) && -1 <= file_of(u)
                    - file_of(sq as int) <= 1 ==> !(match p {
                    Player::White => rank_of(u) > rank_of(sq as int),
                    Player::Black => rank_of(u) < rank_of(sq as int),
                }),
        decreases 64 - t,
    {
        if let Some(q) = board.piece_at(t) {
            if q.kind == PieceKind::Pawn && q.player != p {
                let ft = file(t);
                if ft + 1 >= fs && ft <= fs + 1 {
                    let ahead = match p {
                        Player::White => rank(t) > rs,
                        Player::Black => rank(t) < rs,
                    };
                    if ahead {
                        return false;
                    }
                }
            }
        }
        t = t + 1;
    }
    true
}

/// Material, piece-square and passed-pawn score of the whole board, White minus Black.
#[verifier::rlimit(40)]
pub fn board_score_of(board: &Board) -> (r: (i32, i32))
    requires
        board.wf(),
    ensures
        r.0 == board_score(board@, 64).0,
        r.1 == board_score(board@, 64).1,
        -230400 <= r.0 <= 230400,
        -230400 <= r.1 <= 230400,
{
    let mut mg: i32 = 0;
    let mut eg: i32 = 0;
    let mut sq: u8 = 0;
    while sq < 64
        invariant
            board.wf(),
            sq <= 64,
            mg == board_score(board@, sq as nat).0,
            eg == board_score(board@, sq as nat).1,
            -3600 * sq <= mg <= 3600 * sq,
            -3600 * sq <= eg <= 3600 * sq,
        decreases 64 - sq,
    {
        if let Some(p) = board.piece_at(sq) {
            let k = p.kind.index() as usize;
            let i = table_index_of(p.player, sq);
            let (a0, a1) = param_at(k);
            let (b0, b1) = param_at(PSQT + 64 * k + i);
            let (c0, c1) = if p.kind == PieceKind::Pawn && is_passed(board, sq, p.player) {
                param_at(PASSED_PAWNS + i)
            } else {
                (0, 0)
            };
            proof {
                let ks = p.kind.spec_index();
                let ti = table_index(p.player, sq as int);
                assert(k == ks as usize);
                assert(PSQT + 64 * k + i == (PSQT + 64 * ks + ti) as usize);
                assert(PASSED_PAWNS + i == (PASSED_PAWNS + ti) as usize);
            }
            match p.player {
                Player::White => {
                    mg = mg + (a0 + b0 + c0);
                    eg = eg + (a1 + b1 + c1);
                },
                Player::Black => {
                    mg = mg - (a0 + b0 + c0);
                    eg = eg - (a1 + b1 + c1);
                },
            }
        }
        sq = sq + 1;
    }
    (mg, eg)
}

fn attacks_for(board: &Board, sq: Square, kind: PieceKind, occ: u64) -> (r: u64)
    requires
        board.wf(),
        sq < 64,
        bits(occ) == occupied(board@),
        is_mobile(kind),
    ensures
        forall|t: u64| t < 64 ==> (#[trigger] has_bit(r, t) <==> attack_set(board@, sq as int, kind).contains(t as int)),
{
    match kind {
        PieceKind::Knight => knight_attacks(sq),
        PieceKind::Bishop => bishop_attacks(sq, occ),
        PieceKind::Rook => rook_attacks(sq, occ),
        _ => queen_attacks(sq, occ),
    }
}

fn mobility_index(kind: PieceKind, c: u32) -> (r: usize)
    requires
        is_mobile(kind),
    ensures
        r == mobility_entry(kind, c as nat),
        r < ATTACKED_KING_SQUARES,
{
    match kind {
        PieceKind::Knight => KNIGHT_MOBILITY + if c < 8 { c as usize } else { 8 },
        PieceKind::Bishop => BISHOP_MOBILITY + if c < 13 { c as usize } else { 13 },
        PieceKind::Rook => ROOK_MOBILITY + if c < 14 { c as usize } else { 14 },
        _ => QUEEN_MOBILITY + if c < 27 { c as usize } else { 27 },
    }
}

/// The mobility of `player` minus the king-safety entry for the squares around the enemy
/// king that `player` attacks.
#[verifier::rlimit(40)]
pub fn mobility_and_opp_king_safety_for(board: &Board, player: Player) -> (r: (i32, i32))
    requires
        board.wf(),
    ensures
        r.0 == mobility_and_king_safety(board@, player).0,
        r.1 == mobility_and_king_safety(board@, player).1,
        -153600 <= r.0 <= 153600,
        -153600 <= r.1 <= 153600,
{
    let ghost b = board@;
    let occ = board.occupancy();
    proof {
        assert(bits(occ) =~= occupied(b));
    }
    let mut mg: i32 = 0;
    let mut eg: i32 = 0;
    let mut attacked: u64 = 0;
    proof {
        assert forall|t: u64| t < 64 implies (#[trigger] has_bit(attacked, t) <==> attacked_set(b, player, 0).contains(t as int)) by {
            lemma_empty(t);
        }
    }
    let mut sq: u8 = 0;
    while sq < 64
        invariant
            board.wf(),
            b == board@,
            bits(occ) == occupied(b),
            sq <= 64,
            mg == mobility(b, player, sq as nat).0,
            eg == mobility(b, player, sq as nat).1,
            -1200 * sq <= mg <= 1200 * sq,
            -1200 * sq <= eg <= 1200 * sq,
            forall|t: u64| t < 64 ==> (#[trigger] has_bit(attacked, t) <==> attacked_set(b, player, sq as nat).contains(t as int)),
        decreases 64 - sq,
    {
        let ghost old_attacked = attacked;
        let mut hit = false;
        if let Some(q) = board.piece_at(sq) {
            if q.player == player && (q.kind == PieceKind::Knight || q.kind == PieceKind::Bishop
                || q.kind == PieceKind::Rook || q.kind == PieceKind::Queen) {
                let att = attacks_for(board, sq, q.kind, occ);
                let c = count(att);
                proof {
                    lemma_count_set(att, attack_set(b, sq as int, q.kind), 64);
                }
                let (a0, a1) = param_at(mobility_index(q.kind, c));
                mg = mg + a0;
                eg = eg + a1;
                attacked = attacked | att;
                hit = true;
                proof {
                    assert forall|t: u64| t < 64 implies (#[trigger] has_bit(attacked, t) <==> attacked_set(b, player, (sq + 1) as nat).contains(t as int)) by {
                        lemma_or(old_attacked, att, t);
                        if attacked_set(b, player, (sq + 1) as nat).contains(t as int) {
                            let w = choose|w: int| 0 <= w < sq + 1 && #[trigger] b[w] is Some && b[w].unwrap().player == player && is_mobile(b[w].unwrap().kind) && attack_set(b, w, b[w].unwrap().kind).contains(t as int);
                            if w < sq {
                                assert(attacked_set(b, player, sq as nat).contains(t as int));
                            }
                        }
                        if attacked_set(b, player, sq as nat).contains(t as int) {
                            let w = choose|w: int| 0 <= w < sq && #[trigger] b[w] is Some && b[w].unwrap().player == player && is_mobile(b[w].unwrap().kind) && attack_set(b, w, b[w].unwrap().kind).contains(t as int);
                            assert(0 <= w < sq + 1);
                        }
                        if has_bit(att, t) {
                            assert(b[sq as int] is Some);
                        }
                    }
                }
            }
        }
        if !hit {
            proof {
                assert forall|t: u64| t < 64 implies (#[trigger] has_bit(attacked, t) <==> attacked_set(b, player, (sq + 1) as nat).contains(t as int)) by {
                    if attacked_set(b, player, (sq + 1) as nat).contains(t as int) {
                        let w = choose|w: int| 0 <= w < sq + 1 && #[trigger] b[w] is Some && b[w].unwrap().player == player && is_mobile(b[w].unwrap().kind) && attack_set(b, w, b[w].unwrap().kind).contains(t as int);
                        assert(attacked_set(b, player, sq as nat).contains(t as int));
                    }
                    if attacked_set(b, player, sq as nat).contains(t as int) {
                        let w = choose|w: int| 0 <= w < sq && #[trigger] b[w] is Some && b[w].unwrap().player == player && is_mobile(b[w].unwrap().kind) && attack_set(b, w, b[w].unwrap().kind).contains(t as int);
                        assert(0 <= w < sq + 1);
                    }
                }
            }
        }
        sq = sq + 1;
    }
    let mut kmg: i32 = 0;
    let mut keg: i32 = 0;
    let mut k: u8 = 0;
    let enemy = player.other();
    while k < 64
        invariant
            board.wf(),
            b == board@,
            k <= 64,
            enemy == player.spec_other(),
            kmg == king_safety(b, player, k as nat).0,
            keg == king_safety(b, player, k as nat).1,
            -1200 * k <= kmg <= 1200 * k,
            -1200 * k <= keg <= 1200 * k,
            forall|t: u64| t < 64 ==> (#[trigger] has_bit(attacked, t) <==> attacked_set(b, player, 64).contains(t as int)),
        decreases 64 - k,
    {
        if let Some(q) = board.piece_at(k) {
            if q.kind == PieceKind::King && q.player == enemy {
                let ring = king_attacks(k);
                let hits = ring & attacked;
                let ghost st = Set::new(|t: int| king_step(k as int, t)).intersect(attacked_set(b, player, 64));
                proof {
                    assert forall|t: u64| t < 64 implies (#[trigger] has_bit(hits, t) <==> st.contains(t as int)) by {
                        lemma_and(ring, attacked, t);
                    }
                    lemma_count_set(hits, st, 64);
                }
                let c = count(hits);
                let i = ATTACKED_KING_SQUARES + if c < 8 { c as usize } else { 8 };
                let (a0, a1) = param_at(i);
                kmg = kmg + a0;
                keg = keg + a1;
            }
        }
        k = k + 1;
    }
    (mg - kmg, eg - keg)
}

/// The bishop-pair bonus of `player`.
pub fn bishop_pair_of(board: &Board, player: Player) -> (r: (i32, i32))
    requires
        board.wf(),
    ensures
        r.0 == bishop_pair(board@, player).0,
        r.1 == bishop_pair(board@, player).1,
        -1200 <= r.0 <= 1200,
        -1200 <= r.1 <= 1200,
{
    let mut n: u32 = 0;
    let mut sq: u8 = 0;
    while sq < 64
        invariant
            board.wf(),
            sq <= 64,
            n == count_pieces(board@, Piece { kind: PieceKind::Bishop, player }, sq as nat),
            n <= sq,
        decreases 64 - sq,
    {
        if let Some(q) = board.piece_at(sq) {
            if q.kind == PieceKind::Bishop && q.player == player {
                n = n + 1;
            }
        }
        sq = sq + 1;
    }
    if n >= 2 {
        param_at(BISHOP_PAIR_BONUS)
    } else {
        (0, 0)
    }
}

/// The game phase, from 0 to 24.
pub fn phase_of(board: &Board) -> (r: i64)
    requires
        board.wf(),
    ensures
        r == phase(board@),
        0 <= r <= 24,
{
    let mut n: u32 = 0;
    let mut sq: u8 = 0;
    while sq < 64
        invariant
            board.wf(),
            sq <= 64,
            n == phase_sum(board@, sq as nat),
            n <= 4 * sq,
        decreases 64 - sq,
    {
        if let Some(q) = board.piece_at(sq) {
            n = n + match q.kind {
                PieceKind::Knight => 1,
                PieceKind::Bishop => 1,
                PieceKind::Rook => 2,
                PieceKind::Queen => 4,
                _ => 0,
            };
        }
        sq = sq + 1;
    }
    if n < 24 {
        n as i64
    } else {
        24
    }
}

/// The static evaluation of the position on `board` with `player` to move, in centipawns
/// from the mover's point of view.
pub fn eval_board(board: &Board, player: Player) -> (r: i32)
    requires
        board.wf(),
    ensures
        r == eval_spec(board@, player),
        -2_000_000 <= r <= 2_000_000,
{
    let (tm, te) = total_of(board);
    let ph = phase_of(board);
    taper(tm, te, ph, player)
}

/// The total score before tapering.
fn total_of(board: &Board) -> (r: (i64, i64))
    requires
        board.wf(),
    ensures
        r.0 == total_score(board@).0,
        r.1 == total_score(board@).1,
        -1000000 <= r.0 <= 1000000,
        -1000000 <= r.1 <= 1000000,
{
    let (bm, be) = board_score_of(board);
    let (wm, we) = mobility_and_opp_king_safety_for(board, Player::White);
    let (km, ke) = mobility_and_opp_king_safety_for(board, Player::Black);
    let (pwm, pwe) = bishop_pair_of(board, Player::White);
    let (pbm, pbe) = bishop_pair_of(board, Player::Black);
    let tm: i64 = bm as i64 + (wm as i64 - km as i64) + (pwm as i64 - pbm as i64);
    let te: i64 = be as i64 + (we as i64 - ke as i64) + (pwe as i64 - pbe as i64);
    (tm, te)
}

#[verifier::rlimit(100)]
pub proof fn lemma_param_bound(i: usize)
    ensures
        -1200 <= param(i).0 <= 1200,
        -1200 <= param(i).1 <= 1200,
{
    reveal(param);
}

/// Material and piece-square score of square `s`, White minus Black: the part of the
/// evaluation that changes square by square.
pub open spec fn psqt_term(q: Option<Piece>, s: int) -> (int, int) {
    match q {
        None => (0, 0),
        Some(p) => {
            let k = p.kind.spec_index();
            let i = table_index(p.player, s);
            signed(p.player, plus(param(k as usize), param((PSQT + 64 * k + i) as usize)))
        },
    }
}

pub open spec fn psqt_score(b: Seq<Option<Piece>>, n: nat) -> (int, int)
    decreases n,
{
    if n == 0 {
        (0, 0)
    } else {
        plus(psqt_score(b, (n - 1) as nat), psqt_term(b[n - 1], n - 1))
    }
}

/// The passed-pawn bonuses, White minus Black.
pub open spec fn passed_term(b: Seq<Option<Piece>>, s: int) -> (int, int) {
    match b[s] {
        Some(p) => if p.kind == PieceKind::Pawn && passed(b, s, p.player) {
            signed(p.player, param((PASSED_PAWNS + table_index(p.player, s)) as usize))
        } else {
            (0, 0)
        },
        None => (0, 0),
    }
}

pub open spec fn passed_score(b: Seq<Option<Piece>>, n: nat) -> (int, int)
    decreases n,
{
    if n == 0 {
        (0, 0)
    } else {
        plus(passed_score(b, (n - 1) as nat), passed_term(b, n - 1))
    }
}

pub proof fn lemma_board_score_split(b: Seq<Option<Piece>>, n: nat)
    requires
        n <= b.len(),
    ensures
        board_score(b, n) == plus(psqt_score(b, n), passed_score(b, n)),
    decreases n,
{
    if n > 0 {
        lemma_board_score_split(b, (n - 1) as nat);
    }
}

pub proof fn lemma_psqt_bound(b: Seq<Option<Piece>>, n: nat)
    ensures
        -2400 * n <= psqt_score(b, n).0 <= 2400 * n,
        -2400 * n <= psqt_score(b, n).1 <= 2400 * n,
    decreases n,
{
    if n > 0 {
        lemma_psqt_bound(b, (n - 1) as nat);
        if let Some(p) = b[n - 1] {
            let k = p.kind.spec_index();
            lemma_param_bound(k as usize);
            lemma_param_bound((PSQT + 64 * k + table_index(p.player, n - 1)) as usize);
        }
    }
}

/// Changing one square changes the score by that square's two terms.
pub proof fn lemma_psqt_update(b: Seq<Option<Piece>>, i: int, v: Option<Piece>, n: nat)
    requires
        0 <= i < b.len(),
        n <= b.len(),
    ensures
        psqt_score(b.update(i, v), n) == if i < n {
            plus(minus(psqt_score(b, n), psqt_term(b[i], i)), psqt_term(v, i))
        } else {
            psqt_score(b, n)
        },
    decreases n,
{
    if n > 0 {
        lemma_psqt_update(b, i, v, (n - 1) as nat);
        assert(b.update(i, v)[n - 1] == if i == n - 1 { v } else { b[n - 1] });
    }
}

/// The material and piece-square score of one piece on `sq`.
pub fn psqt_of(p: Piece, sq: Square) -> (r: (i32, i32))
    requires
        sq < 64,
    ensures
        r.0 == psqt_term(Some(p), sq as int).0,
        r.1 == psqt_term(Some(p), sq as int).1,
        -2400 <= r.0 <= 2400,
        -2400 <= r.1 <= 2400,
{
    let k = p.kind.index() as usize;
    let i = table_index_of(p.player, sq);
    let (a0, a1) = param_at(k);
    let (b0, b1) = param_at(PSQT + 64 * k + i);
    match p.player {
        Player::White => (a0 + b0, a1 + b1),
        Player::Black => (-(a0 + b0), -(a1 + b1)),
    }
}

/// The passed-pawn bonuses of the board, White minus Black.
pub fn passed_score_of(board: &Board) -> (r: (i32, i32))
    requires
        board.wf(),
    ensures
        r.0 == passed_score(board@, 64).0,
        r.1 == passed_score(board@, 64).1,
        -76800 <= r.0 <= 76800,
        -76800 <= r.1 <= 76800,
{
    let mut mg: i32 = 0;
    let mut eg: i32 = 0;
    let mut sq: u8 = 0;
    while sq < 64
        invariant
            board.wf(),
            sq <= 64,
            mg == passed_score(board@, sq as nat).0,
            eg == passed_score(board@, sq as nat).1,
            -1200 * sq <= mg <= 1200 * sq,
            -1200 * sq <= eg <= 1200 * sq,
        decreases 64 - sq,
    {
        if let Some(p) = board.piece_at(sq) {
            if p.kind == PieceKind::Pawn && is_passed(board, sq, p.player) {
                let (a0, a1) = param_at(PASSED_PAWNS + table_index_of(p.player, sq));
                match p.player {
                    Player::White => {
                        mg = mg + a0;
                        eg = eg + a1;
                    },
                    Player::Black => {
                        mg = mg - a0;
                        eg = eg - a1;
                    },
                }
            }
        }
        sq = sq + 1;
    }
    (mg, eg)
}

/// Tapers a total score by the phase and turns it to the side to move's point of view.
fn taper(tm: i64, te: i64, ph: i64, player: Player) -> (r: i32)
    requires
        -1000000 <= tm <= 1000000,
        -1000000 <= te <= 1000000,
        0 <= ph <= 24,
    ensures
        r == sign(player) * trunc_div(tm * ph + te * (24 - ph), 24),
        -2_000_000 <= r <= 2_000_000,
{
    assert(-1000000 * 24 <= tm * ph <= 1000000 * 24) by (nonlinear_arith)
        requires
            -1000000 <= tm <= 1000000,
            0 <= ph <= 24,
    ;
    assert(-1000000 * 24 <= te * (24 - ph) <= 1000000 * 24) by (nonlinear_arith)
        requires
            -1000000 <= te <= 1000000,
            0 <= ph <= 24,
    ;
    let num: i64 = tm * ph + te * (24 - ph);
    let v: i64 = if num >= 0 {
        num / 24
    } else {
        -((-num) / 24)
    };
    match player {
        Player::White => v as i32,
        Player::Black => (-v) as i32,
    }
}

/// The total score before tapering, given the material and piece-square part.
fn total_with_psqt(board: &Board, psqt: (i32, i32)) -> (r: (i64, i64))
    requires
        board.wf(),
        psqt.0 == psqt_score(board@, 64).0,
        psqt.1 == psqt_score(board@, 64).1,
    ensures
        r.0 == total_score(board@).0,
        r.1 == total_score(board@).1,
        -1000000 <= r.0 <= 1000000,
        -1000000 <= r.1 <= 1000000,
{
    proof {
        lemma_board_score_split(board@, 64);
        lemma_psqt_bound(board@, 64);
    }
    let (pm, pe) = passed_score_of(board);
    let (wm, we) = mobility_and_opp_king_safety_for(board, Player::White);
    let (km, ke) = mobility_and_opp_king_safety_for(board, Player::Black);
    let (pwm, pwe) = bishop_pair_of(board, Player::White);
    let (pbm, pbe) = bishop_pair_of(board, Player::Black);
    let tm: i64 = (psqt.0 as i64 + pm as i64) + (wm as i64 - km as i64) + (pwm as i64 - pbm as i64);
    let te: i64 = (psqt.1 as i64 + pe as i64) + (we as i64 - ke as i64) + (pwe as i64 - pbe as i64);
    (tm, te)
}

/// The evaluation of the position on `board` with `player` to move, given its material
/// and piece-square score.
pub fn eval_with_psqt(board: &Board, player: Player, psqt: (i32, i32)) -> (r: i32)
    requires
        board.wf(),
        psqt.0 == psqt_score(board@, 64).0,
        psqt.1 == psqt_score(board@, 64).1,
    ensures
        r == eval_spec(board@, player),
{
    let (tm, te) = total_with_psqt(board, psqt);
    let ph = phase_of(board);
    taper(tm, te, ph, player)
}

/// Square `s` seen from the other side of the board: same file, rank counted from the
/// other end.
pub open spec fn flip(s: int) -> int {
    (7 - rank_of(s)) * 8 + file_of(s)
}

/// The position with colours swapped and the board turned over vertically.
pub open spec fn mirror(b: Seq<Option<Piece>>) -> Seq<Option<Piece>> {
    Seq::new(
        64,
        |s: int|
            match b[flip(s)] {
                Some(p) => Some(Piece { kind: p.kind, player: p.player.spec_other() }),
                None => None,
            },
    )
}

pub open spec fn sum_below(g: spec_fn(int) -> int, n: nat) -> int
    decreases n,
{
    if n == 0 {
        0
    } else {
        sum_below(g, (n - 1) as nat) + g(n - 1)
    }
}

proof fn lemma_sum_flip(g: spec_fn(int) -> int)
    ensures
        sum_below(|s: int| g(flip(s)), 64) == sum_below(g, 64),
{
    reveal_with_fuel(sum_below, 65);
}

proof fn lemma_psqt_as_sum(b: Seq<Option<Piece>>, n: nat)
    ensures
        psqt_score(b, n).0 == sum_below(|s: int| psqt_term(b[s], s).0, n),
        psqt_score(b, n).1 == sum_below(|s: int| psqt_term(b[s], s).1, n),
    decreases n,
{
    if n > 0 {
        lemma_psqt_as_sum(b, (n - 1) as nat);
    }
}

proof fn lemma_sum_ext(g: spec_fn(int) -> int, h: spec_fn(int) -> int, n: nat)
    requires
        forall|s: int| 0 <= s < n ==> #[trigger] g(s) == h(s),
    ensures
        sum_below(g, n) == sum_below(h, n),
    decreases n,
{
    if n > 0 {
        lemma_sum_ext(g, h, (n - 1) as nat);
    }
}

proof fn lemma_sum_neg(g: spec_fn(int) -> int, n: nat)
    ensures
        sum_below(|s: int| -g(s), n) == -sum_below(g, n),
    decreases n,
{
    if n > 0 {
        lemma_sum_neg(g, (n - 1) as nat);
    }
}

proof fn lemma_flip(s: int)
    requires
        0 <= s < 64,
    ensures
        0 <= flip(s) < 64,
        rank_of(flip(s)) == 7 - rank_of(s),
        file_of(flip(s)) == file_of(s),
        flip(flip(s)) == s,
        table_index(Player::Black, s) == table_index(Player::White, flip(s)),
        table_index(Player::White, s) == table_index(Player::Black, flip(s)),
{
}

proof fn lemma_term_mirror(b: Seq<Option<Piece>>, s: int)
    requires
        b.len() == 64,
        0 <= s < 64,
    ensures
        psqt_term(mirror(b)[s], s).0 == -psqt_term(b[flip(s)], flip(s)).0,
        psqt_term(mirror(b)[s], s).1 == -psqt_term(b[flip(s)], flip(s)).1,
{
    lemma_flip(s);
}

/// Swapping the colours and turning the board over negates the material and piece-square
/// score: the tables of the two sides are mirror images of each other.
#[verifier::rlimit(50)]
pub proof fn lemma_psqt_mirror(b: Seq<Option<Piece>>)
    requires
        b.len() == 64,
    ensures
        psqt_score(mirror(b), 64).0 == -psqt_score(b, 64).0,
        psqt_score(mirror(b), 64).1 == -psqt_score(b, 64).1,
{
    let m = mirror(b);
    let g0 = |s: int| psqt_term(b[s], s).0;
    let g1 = |s: int| psqt_term(b[s], s).1;
    lemma_psqt_as_sum(b, 64);
    lemma_psqt_as_sum(m, 64);
    assert forall|s: int| 0 <= s < 64 implies #[trigger] psqt_term(m[s], s).0 == -g0(flip(s)) && psqt_term(m[s], s).1 == -g1(flip(s)) by {
        lemma_term_mirror(b, s);
    }
    lemma_sum_ext(|s: int| psqt_term(m[s], s).0, |s: int| -(|t: int| g0(flip(t)))(s), 64);
    lemma_sum_ext(|s: int| psqt_term(m[s], s).1, |s: int| -(|t: int| g1(flip(t)))(s), 64);
    lemma_sum_neg(|t: int| g0(flip(t)), 64);
    lemma_sum_neg(|t: int| g1(flip(t)), 64);
    lemma_sum_flip(g0);
    lemma_sum_flip(g1);
}

} // verus!
