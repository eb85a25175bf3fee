use vstd::prelude::*;
use crate::attacks::forward;
use crate::board::{start_board, Board};
use crate::moves::{king_start, kingside_castle_dest, kingside_rook_end, kingside_rook_start, queenside_castle_dest, queenside_rook_end, queenside_rook_start, Move};
use crate::piece::{Piece, PieceKind, Player};
use crate::square::{file_of, rank_of, Square};
use crate::square::{file, rank};
use crate::zobrist::{board_hash, castle_key, ep_file_key, lemma_board_hash_update, lemma_xor, side_key, square_key, zobrist_key, ZobristHash};

verus! {

#[derive(Debug)]
pub enum MoveError {
    InvalidMove,
}

#[derive(Debug, Copy, Clone, PartialEq, Eq, Structural)]
pub enum CastleRightsSide {
    Kingside,
    Queenside,
}

impl CastleRightsSide {
    pub fn array_idx(&self) -> (r: usize)
        ensures
            r == match self {
                CastleRightsSide::Kingside => 0usize,
                CastleRightsSide::Queenside => 1usize,
            },
    {
        match self {
            CastleRightsSide::Kingside => 0,
            CastleRightsSide::Queenside => 1,
        }
    }
}

/// Which castles one side may still make.
#[derive(Copy, Clone, Debug, PartialEq, Eq, Structural)]
pub struct CastleRights {
    pub king_side: bool,
    pub queen_side: bool,
}

impl CastleRights {
    pub fn can_castle(&self) -> (r: bool)
        ensures
            r == (self.king_side || self.queen_side),
    {
        self.king_side || self.queen_side
    }

    pub fn none() -> (r: CastleRights)
        ensures
            r == (CastleRights { king_side: false, queen_side: false }),
    {
        CastleRights { king_side: false, queen_side: false }
    }

    pub fn all() -> (r: CastleRights)
        ensures
            r == (CastleRights { king_side: true, queen_side: true }),
    {
        CastleRights { king_side: true, queen_side: true }
    }

    pub fn without_kingside(&self) -> (r: CastleRights)
        ensures
            r == (CastleRights { king_side: false, queen_side: self.queen_side }),
    {
        CastleRights { king_side: false, queen_side: self.queen_side }
    }

    pub fn remove_kingside_rights(&mut self)
        ensures
            *final(self) == (CastleRights { king_side: false, queen_side: old(self).queen_side }),
    {
        self.king_side = false;
    }

    pub fn without_queenside(&self) -> (r: CastleRights)
        ensures
            r == (CastleRights { king_side: self.king_side, queen_side: false }),
    {
        CastleRights { king_side: self.king_side, queen_side: false }
    }

    pub fn remove_queenside_rights(&mut self)
        ensures
            *final(self) == (CastleRights { king_side: old(self).king_side, queen_side: false }),
    {
        self.queen_side = false;
    }
}

impl Default for CastleRights {
    fn default() -> (r: CastleRights)
        ensures
            r == (CastleRights { king_side: true, queen_side: true }),
    {
        CastleRights { king_side: true, queen_side: true }
    }
}

/// What a move destroys, kept so that the move can be taken back.
#[derive(Debug, Clone, Copy)]
pub struct History {
    pub mv: Move,
    pub captured: Option<Piece>,
    pub white_castle_rights: CastleRights,
    pub black_castle_rights: CastleRights,
    pub en_passant_target: Option<Square>,
    pub halfmove_clock: u32,
    pub zobrist: ZobristHash,
}

/// The mathematical value of a game.
pub struct GameModel {
    pub board: Seq<Option<Piece>>,
    pub player: Player,
    pub white_castle_rights: CastleRights,
    pub black_castle_rights: CastleRights,
    pub en_passant_target: Option<Square>,
    pub halfmove_clock: u32,
    pub plies: u32,
    pub zobrist: ZobristHash,
    pub history: Seq<History>,
}

// ---- hashing from scratch

pub open spec fn castle_hash(w: CastleRights, b: CastleRights) -> u64 {
    (if w.king_side { castle_key(0) } else { 0u64 }) ^ (if w.queen_side { castle_key(1) } else { 0u64 })
        ^ (if b.king_side { castle_key(2) } else { 0u64 }) ^ (if b.queen_side { castle_key(3) } else { 0u64 })
}

pub open spec fn ep_hash(ep: Option<Square>) -> u64 {
    match ep {
        Some(t) => ep_file_key(file_of(t as int)),
        None => 0,
    }
}

/// The hash of a position computed from scratch.
pub open spec fn hash_of(
    board: Seq<Option<Piece>>,
    player: Player,
    w: CastleRights,
    b: CastleRights,
    ep: Option<Square>,
) -> u64 {
    board_hash(board, 64) ^ castle_hash(w, b) ^ ep_hash(ep) ^ side_key(player)
}

// ---- rules of a move

pub open spec fn pawn_home_rank(p: Player) -> int {
    match p {
        Player::White => 1,
        Player::Black => 6,
    }
}

pub open spec fn double_push_rank(p: Player) -> int {
    match p {
        Player::White => 3,
        Player::Black => 4,
    }
}

pub open spec fn last_rank(p: Player) -> int {
    match p {
        Player::White => 7,
        Player::Black => 0,
    }
}

/// The rank of an en-passant target when `p` is to move.
pub open spec fn ep_rank(p: Player) -> int {
    match p {
        Player::White => 5,
        Player::Black => 2,
    }
}

/// Where the pawn captured en passant stands, for a capture onto `dst` by `mover`.
pub open spec fn ep_capture_square(dst: int, mover: Player) -> int {
    dst - 8 * forward(mover)
}

pub open spec fn pawn(p: Player) -> Piece {
    Piece { kind: PieceKind::Pawn, player: p }
}

pub open spec fn rook(p: Player) -> Piece {
    Piece { kind: PieceKind::Rook, player: p }
}

pub open spec fn is_kingside_castle(moved: Piece, m: Move) -> bool {
    moved.kind == PieceKind::King && m.src == king_start(moved.player) && m.dst
        == kingside_castle_dest(moved.player)
}

pub open spec fn is_queenside_castle(moved: Piece, m: Move) -> bool {
    moved.kind == PieceKind::King && m.src == king_start(moved.player) && m.dst
        == queenside_castle_dest(moved.player)
}

pub open spec fn placed_piece(moved: Piece, m: Move) -> Piece {
    match m.promotion {
        Some(k) => Piece { kind: k.spec_piece(), player: moved.player },
        None => moved,
    }
}

pub open spec fn is_double_push(moved: Piece, m: Move) -> bool {
    moved.kind == PieceKind::Pawn && rank_of(m.src as int) == pawn_home_rank(moved.player)
        && rank_of(m.dst as int) == double_push_rank(moved.player)
}

/// A pawn of the side other than `mover` stands beside `dst` on its rank.
pub open spec fn enemy_pawn_beside(b: Seq<Option<Piece>>, dst: int, mover: Player) -> bool {
    (file_of(dst) > 0 && b[dst - 1] == Some(pawn(mover.spec_other()))) || (file_of(dst) < 7 && b[dst
        + 1] == Some(pawn(mover.spec_other())))
}

/// The en-passant target left by `moved` making `m`, given the mailbox after the move.
pub open spec fn ep_from(b: Seq<Option<Piece>>, moved: Piece, m: Move) -> Option<Square> {
    if is_double_push(moved, m) && enemy_pawn_beside(b, m.dst as int, moved.player) {
        Some((m.src + 8 * forward(moved.player)) as u8)
    } else {
        None
    }
}

impl GameModel {
    pub open spec fn moved(self, m: Move) -> Piece {
        self.board[m.src as int].unwrap()
    }

    pub open spec fn is_ep_capture(self, m: Move) -> bool {
        self.moved(m).kind == PieceKind::Pawn && self.en_passant_target == Some(m.dst)
    }

    pub open spec fn own_rights(self) -> CastleRights {
        match self.player {
            Player::White => self.white_castle_rights,
            Player::Black => self.black_castle_rights,
        }
    }

    pub open spec fn other_rights(self) -> CastleRights {
        match self.player {
            Player::White => self.black_castle_rights,
            Player::Black => self.white_castle_rights,
        }
    }

    /// The mailbox after move `m`.
    pub open spec fn board_after(self, m: Move) -> Seq<Option<Piece>> {
        let moved = self.moved(m);
        let p = moved.player;
        let b1 = self.board.update(m.src as int, None).update(
            m.dst as int,
            Some(placed_piece(moved, m)),
        );
        let b2 = if self.is_ep_capture(m) {
            b1.update(ep_capture_square(m.dst as int, p), None)
        } else {
            b1
        };
        if is_kingside_castle(moved, m) {
            b2.update(kingside_rook_start(p), None).update(kingside_rook_end(p), Some(rook(p)))
        } else if is_queenside_castle(moved, m) {
            b2.update(queenside_rook_start(p), None).update(queenside_rook_end(p), Some(rook(p)))
        } else {
            b2
        }
    }

    /// The en-passant target after move `m`: set only when a double push lands beside an
    /// enemy pawn.
    pub open spec fn ep_after(self, m: Move) -> Option<Square> {
        ep_from(self.board_after(m), self.moved(m), m)
    }

    /// The mover's castle rights after `m`.
    pub open spec fn own_rights_after(self, m: Move) -> CastleRights {
        let moved = self.moved(m);
        let r = self.own_rights();
        if moved.kind == PieceKind::King && m.src == king_start(self.player) {
            CastleRights { king_side: false, queen_side: false }
        } else if moved.kind == PieceKind::Rook && m.src == kingside_rook_start(self.player) {
            CastleRights { king_side: false, queen_side: r.queen_side }
        } else if moved.kind == PieceKind::Rook && m.src == queenside_rook_start(self.player) {
            CastleRights { king_side: r.king_side, queen_side: false }
        } else {
            r
        }
    }

    /// The opponent's castle rights after `m`: lost on a capture on a rook's start square.
    pub open spec fn other_rights_after(self, m: Move) -> CastleRights {
        let r = self.other_rights();
        let o = self.player.spec_other();
        if self.board[m.dst as int] is Some && m.dst == kingside_rook_start(o) {
            CastleRights { king_side: false, queen_side: r.queen_side }
        } else if self.board[m.dst as int] is Some && m.dst == queenside_rook_start(o) {
            CastleRights { king_side: r.king_side, queen_side: false }
        } else {
            r
        }
    }

    pub open spec fn white_rights_after(self, m: Move) -> CastleRights {
        match self.player {
            Player::White => self.own_rights_after(m),
            Player::Black => self.other_rights_after(m),
        }
    }

    pub open spec fn black_rights_after(self, m: Move) -> CastleRights {
        match self.player {
            Player::White => self.other_rights_after(m),
            Player::Black => self.own_rights_after(m),
        }
    }

    pub open spec fn halfmove_after(self, m: Move) -> u32 {
        if self.board[m.dst as int] is Some || self.moved(m).kind == PieceKind::Pawn {
            0
        } else {
            (self.halfmove_clock + 1) as u32
        }
    }

    pub open spec fn history_entry(self, m: Move) -> History {
        History {
            mv: m,
            captured: self.board[m.dst as int],
            white_castle_rights: self.white_castle_rights,
            black_castle_rights: self.black_castle_rights,
            en_passant_target: self.en_passant_target,
            halfmove_clock: self.halfmove_clock,
            zobrist: self.zobrist,
        }
    }

    /// The game after move `m`.
    pub open spec fn after_move(self, m: Move) -> GameModel {
        let board = self.board_after(m);
        let player = self.player.spec_other();
        let w = self.white_rights_after(m);
        let b = self.black_rights_after(m);
        let ep = self.ep_after(m);
        GameModel {
            board,
            player,
            white_castle_rights: w,
            black_castle_rights: b,
            en_passant_target: ep,
            halfmove_clock: self.halfmove_after(m),
            plies: (self.plies + 1) as u32,
            zobrist: hash_of(board, player, w, b, ep),
            history: self.history.push(self.history_entry(m)),
        }
    }

    /// The mailbox after taking back the last move.
    pub open spec fn board_undone(self) -> Seq<Option<Piece>> {
        let h = self.history.last();
        let m = h.mv;
        let moved = self.board[m.dst as int].unwrap();
        let p = moved.player;
        let b1 = if is_kingside_castle(moved, m) {
            self.board.update(kingside_rook_end(p), None).update(kingside_rook_start(p), Some(rook(p)))
        } else if is_queenside_castle(moved, m) {
            self.board.update(queenside_rook_end(p), None).update(queenside_rook_start(p), Some(rook(p)))
        } else {
            self.board
        };
        let b2 = if moved.kind == PieceKind::Pawn && h.en_passant_target == Some(m.dst) {
            b1.update(ep_capture_square(m.dst as int, p), Some(pawn(p.spec_other())))
        } else {
            b1
        };
        let src_piece = if m.promotion is Some {
            pawn(self.player.spec_other())
        } else {
            moved
        };
        b2.update(m.dst as int, h.captured).update(m.src as int, Some(src_piece))
    }

    /// The game with its last move taken back.
    pub open spec fn undone(self) -> GameModel {
        let h = self.history.last();
        GameModel {
            board: self.board_undone(),
            player: self.player.spec_other(),
            white_castle_rights: h.white_castle_rights,
            black_castle_rights: h.black_castle_rights,
            en_passant_target: h.en_passant_target,
            halfmove_clock: h.halfmove_clock,
            plies: (self.plies - 1) as u32,
            zobrist: h.zobrist,
            history: self.history.drop_last(),
        }
    }

    /// The en-passant target, if any, is an empty square on the rank behind the pawn that
    /// just made a double push, and that pawn stands one square further along.
    pub open spec fn ep_ok(self) -> bool {
        match self.en_passant_target {
            None => true,
            Some(t) => {
                &&& t < 64
                &&& rank_of(t as int) == ep_rank(self.player)
                &&& self.board[t as int] is None
                &&& self.board[ep_capture_square(t as int, self.player)] == Some(
                    pawn(self.player.spec_other()),
                )
            },
        }
    }

    /// The invariants that hold of every position, whatever its past.
    pub open spec fn wf_core(self) -> bool {
        &&& self.board.len() == 64
        &&& self.zobrist == hash_of(
            self.board,
            self.player,
            self.white_castle_rights,
            self.black_castle_rights,
            self.en_passant_target,
        )
        &&& self.history.len() <= self.plies
        &&& self.ep_ok()
    }

    /// Move `m` has the shape that make and undo rely on: it moves a piece of the side to
    /// move, promotes only a pawn reaching the last rank, pushes a pawn two squares only
    /// straight over an empty square, and castles only with the rook in place and its landing
    /// square empty.
    pub open spec fn move_ok(self, m: Move) -> bool {
        let moved = self.moved(m);
        let p = self.player;
        &&& m.src < 64
        &&& m.dst < 64
        &&& m.src != m.dst
        &&& self.board[m.src as int] is Some
        &&& moved.player == p
        &&& m.promotion is Some ==> moved.kind == PieceKind::Pawn && rank_of(m.dst as int)
            == last_rank(p)
        &&& is_double_push(moved, m) ==> m.dst == m.src + 16 * forward(p) && self.board[m.src + 8
            * forward(p)] is None
        &&& is_kingside_castle(moved, m) ==> self.board[kingside_rook_start(p)] == Some(rook(p))
            && self.board[kingside_rook_end(p)] is None
        &&& is_queenside_castle(moved, m) ==> self.board[queenside_rook_start(p)] == Some(rook(p))
            && self.board[queenside_rook_end(p)] is None
    }

    /// The counters have room for one more move.
    pub open spec fn room(self) -> bool {
        self.plies < u32::MAX && self.halfmove_clock < u32::MAX
    }

    /// Move `m` can be made and taken back.
    pub open spec fn playable(self, m: Move) -> bool {
        self.move_ok(m) && self.room()
    }

    /// Every position reached is sound, and taking back the last move gives the sound
    /// position that it was played from.
    #[verifier::opaque]
    pub open spec fn wf(self) -> bool
        decreases self.history.len(),
    {
        &&& self.wf_core()
        &&& self.history.len() > 0 ==> {
            let pre = self.undone();
            &&& pre.playable(self.history.last().mv)
            &&& pre.after_move(self.history.last().mv) == self
            &&& pre.wf()
        }
    }
}

/// Making a playable move and taking it back restores the game exactly: board, side to
/// move, castle rights, en-passant target, counters, hash and history.
pub proof fn lemma_make_undo(g: GameModel, m: Move)
    requires
        g.wf_core(),
        g.playable(m),
    ensures
        g.after_move(m).undone() == g,
{
    let a = g.after_move(m);
    let moved = g.moved(m);
    let p = g.player;
    assert(a.history.last() == g.history_entry(m));
    assert(a.history.drop_last() =~= g.history);
    assert(a.board[m.dst as int] == Some(placed_piece(moved, m)));
    if g.is_ep_capture(m) {
        assert(m.promotion is None);
    }
    assert(a.board_undone() =~= g.board);
}

/// A sound game stays sound after a playable move; in particular its hash is again the
/// hash computed from scratch.
pub proof fn lemma_make_keeps_wf(g: GameModel, m: Move)
    requires
        g.wf(),
        g.playable(m),
    ensures
        g.after_move(m).wf(),
        g.after_move(m).zobrist == hash_of(
            g.after_move(m).board,
            g.after_move(m).player,
            g.after_move(m).white_castle_rights,
            g.after_move(m).black_castle_rights,
            g.after_move(m).en_passant_target,
        ),
{
    let a = g.after_move(m);
    reveal(GameModel::wf);
    lemma_make_undo(g, m);
    assert(a.history.last() == g.history_entry(m));
    if let Some(t) = a.en_passant_target {
        let moved = g.moved(m);
        assert(is_double_push(moved, m));
        assert(!g.is_ep_capture(m));
        assert(a.board[t as int] is None);
        assert(a.board[ep_capture_square(t as int, a.player)] == Some(pawn(a.player.spec_other())));
    }
    assert(a.wf_core());
    assert(a.wf());
}

/// Taking back the last move of a sound game gives a sound game, whose hash is again the
/// hash computed from scratch.
pub proof fn lemma_undo_keeps_wf(g: GameModel)
    requires
        g.wf(),
        g.history.len() > 0,
    ensures
        g.undone().wf(),
        g.undone().zobrist == hash_of(
            g.undone().board,
            g.undone().player,
            g.undone().white_castle_rights,
            g.undone().black_castle_rights,
            g.undone().en_passant_target,
        ),
{
    reveal(GameModel::wf);
    assert(g.undone().wf());
    assert(g.undone().wf_core());
}

/// A sound game meets the invariants of every position.
pub proof fn lemma_wf_core(g: GameModel)
    requires
        g.wf(),
    ensures
        g.wf_core(),
        g.history.len() > 0 ==> g.undone().playable(g.history.last().mv)
            && g.undone().after_move(g.history.last().mv) == g && g.undone().wf(),
{
    reveal(GameModel::wf);
}

proof fn lemma_xor_slots(a: u64, b: u64, c: u64, e: u64, d: u64)
    ensures
        (((a ^ d) ^ b) ^ c) ^ e == (((a ^ b) ^ c) ^ e) ^ d,
        ((a ^ (b ^ d)) ^ c) ^ e == (((a ^ b) ^ c) ^ e) ^ d,
        ((a ^ b) ^ (c ^ d)) ^ e == (((a ^ b) ^ c) ^ e) ^ d,
        ((a ^ b) ^ c) ^ (e ^ d) == (((a ^ b) ^ c) ^ e) ^ d,
        0u64 ^ d == d,
        d ^ 0u64 == d,
        c ^ (c ^ d) == d,
        b ^ (b ^ d) == d,
        e ^ (e ^ d) == d,
{
    assert((((a ^ d) ^ b) ^ c) ^ e == (((a ^ b) ^ c) ^ e) ^ d) by (bit_vector);
    assert(((a ^ (b ^ d)) ^ c) ^ e == (((a ^ b) ^ c) ^ e) ^ d) by (bit_vector);
    assert(((a ^ b) ^ (c ^ d)) ^ e == (((a ^ b) ^ c) ^ e) ^ d) by (bit_vector);
    assert(((a ^ b) ^ c) ^ (e ^ d) == (((a ^ b) ^ c) ^ e) ^ d) by (bit_vector);
    assert(0u64 ^ d == d) by (bit_vector);
    assert(d ^ 0u64 == d) by (bit_vector);
    assert(c ^ (c ^ d) == d) by (bit_vector);
    assert(b ^ (b ^ d) == d) by (bit_vector);
    assert(e ^ (e ^ d) == d) by (bit_vector);
}

fn castle_hash_of(w: CastleRights, b: CastleRights) -> (r: u64)
    ensures
        r == castle_hash(w, b),
{
    let k0 = if w.king_side { zobrist_key(768) } else { 0 };
    let k1 = if w.queen_side { zobrist_key(769) } else { 0 };
    let k2 = if b.king_side { zobrist_key(770) } else { 0 };
    let k3 = if b.queen_side { zobrist_key(771) } else { 0 };
    k0 ^ k1 ^ k2 ^ k3
}

fn ep_hash_of(ep: Option<Square>) -> (r: u64)
    requires
        ep matches Some(t) ==> t < 64,
    ensures
        r == ep_hash(ep),
{
    match ep {
        Some(t) => zobrist_key(772 + (t % 8) as u64),
        None => 0,
    }
}

fn side_hash_of(player: Player) -> (r: u64)
    ensures
        r == side_key(player),
{
    match player {
        Player::White => 0,
        Player::Black => zobrist_key(780),
    }
}

fn piece_key(p: Piece, sq: Square) -> (r: u64)
    requires
        sq < 64,
    ensures
        r == square_key(Some(p), sq as int),
{
    zobrist_key(p.index() * 64 + sq as u64)
}

/// A full chess position with the stack of moves that led to it.
#[derive(Debug)]
pub struct Game {
    pub player: Player,
    pub board: Board,
    pub white_castle_rights: CastleRights,
    pub black_castle_rights: CastleRights,
    pub en_passant_target: Option<Square>,
    pub halfmove_clock: u32,
    pub plies: u32,
    pub zobrist: ZobristHash,
    pub history: Vec<History>,
}

impl View for Game {
    type V = GameModel;

    open spec fn view(&self) -> GameModel {
        GameModel {
            board: self.board@,
            player: self.player,
            white_castle_rights: self.white_castle_rights,
            black_castle_rights: self.black_castle_rights,
            en_passant_target: self.en_passant_target,
            halfmove_clock: self.halfmove_clock,
            plies: self.plies,
            zobrist: self.zobrist,
            history: self.history@,
        }
    }
}

impl Game {
    /// The piece sets agree with the mailbox and the game is sound.
    pub open spec fn wf(&self) -> bool {
        self.board.wf() && self@.wf()
    }

    pub open spec fn hash_ok(&self) -> bool {
        self.zobrist == hash_of(
            self.board@,
            self.player,
            self.white_castle_rights,
            self.black_castle_rights,
            self.en_passant_target,
        )
    }

    /// The game at the standard starting position.
    pub fn new() -> (r: Game)
        ensures
            r.wf(),
            r@.board == start_board(),
            r@.player == Player::White,
            r@.white_castle_rights == (CastleRights { king_side: true, queen_side: true }),
            r@.black_castle_rights == (CastleRights { king_side: true, queen_side: true }),
            r@.en_passant_target is None,
            r@.halfmove_clock == 0,
            r@.plies == 0,
            r@.history.len() == 0,
    {
        Game::from_state(
            Board::start(),
            Player::White,
            CastleRights::default(),
            CastleRights::default(),
            None,
            0,
            0,
        )
    }

    /// A game at the given position, with no moves behind it; its hash is computed from
    /// scratch.
    pub fn from_state(
        board: Board,
        player: Player,
        white_castle_rights: CastleRights,
        black_castle_rights: CastleRights,
        en_passant_target: Option<Square>,
        halfmove_clock: u32,
        plies: u32,
    ) -> (r: Game)
        requires
            board.wf(),
            (GameModel {
                board: board@,
                player,
                white_castle_rights,
                black_castle_rights,
                en_passant_target,
                halfmove_clock,
                plies,
                zobrist: 0,
                history: Seq::empty(),
            }).ep_ok(),
        ensures
            r.wf(),
            r@.board == board@,
            r@.player == player,
            r@.white_castle_rights == white_castle_rights,
            r@.black_castle_rights == black_castle_rights,
            r@.en_passant_target == en_passant_target,
            r@.halfmove_clock == halfmove_clock,
            r@.plies == plies,
            r@.history.len() == 0,
    {
        let mut bh: u64 = 0;
        let mut i: u8 = 0;
        while i < 64
            invariant
                board.wf(),
                i <= 64,
                bh == board_hash(board@, i as nat),
            decreases 64 - i,
        {
            match board.piece_at(i) {
                Some(p) => {
                    bh = bh ^ piece_key(p, i);
                },
                None => {
                    proof {
                        lemma_xor(bh, 0, 0);
                    }
                },
            }
            i = i + 1;
        }
        let zobrist = bh ^ castle_hash_of(white_castle_rights, black_castle_rights) ^ ep_hash_of(
            en_passant_target,
        ) ^ side_hash_of(player);
        let r = Game {
            player,
            board,
            white_castle_rights,
            black_castle_rights,
            en_passant_target,
            halfmove_clock,
            plies,
            zobrist,
            history: Vec::new(),
        };
        proof {
            reveal(GameModel::wf);
        }
        r
    }

    /// The number of the full move being played, starting at 1.
    pub fn turn(&self) -> (r: u32)
        ensures
            r == self.plies / 2 + 1,
    {
        self.plies / 2 + 1
    }

    /// Whether the halfmove clock has reached one hundred.
    pub fn is_stalemate_by_fifty_move_rule(&self) -> (r: bool)
        ensures
            r == (self.halfmove_clock >= 100),
    {
        self.halfmove_clock >= 100
    }

    /// Whether the current hash appears at least twice among the positions since the last
    /// irreversible move (the last `halfmove_clock` entries of the history), so that the
    /// position has occurred three times.
    pub fn is_stalemate_by_repetition(&self) -> (r: bool)
        ensures
            r == is_repetition(self@),
    {
        let len = self.history.len();
        let floor: usize = if self.halfmove_clock as usize >= len {
            0
        } else {
            len - self.halfmove_clock as usize
        };
        let mut count: usize = 0;
        let mut i: usize = len;
        while i > floor
            invariant
                floor <= i <= len,
                len == self.history@.len(),
                floor == repetition_floor(self@),
                count == repetitions_from(self.history@, self.zobrist, floor as nat, len as nat)
                    - repetitions_from(self.history@, self.zobrist, floor as nat, i as nat),
                count < 2,
            decreases i,
        {
            proof {
                lemma_repetitions_from_grow(self.history@, self.zobrist, floor as nat, (i - 1) as nat, len as nat);
            }
            if self.history[i - 1].zobrist == self.zobrist {
                count = count + 1;
            }
            if count == 2 {
                return true;
            }
            i = i - 1;
        }
        false
    }

    /// Plays the playable move `mv`, updating the hash incrementally and pushing what is
    /// needed to take it back.
    #[verifier::rlimit(40)]
    pub fn make_move(&mut self, mv: &Move)
        requires
            old(self).wf(),
            old(self)@.playable(*mv),
        ensures
            final(self).wf(),
            final(self)@ == old(self)@.after_move(*mv),
    {
        let ghost g = self@;
        let ghost m = *mv;
        proof {
            lemma_make_keeps_wf(g, m);
            lemma_wf_core(g);
        }
        let from = mv.src;
        let to = mv.dst;
        let player = self.player;
        let moved = self.board.piece_at(from).unwrap();
        let captured = self.board.piece_at(to);
        let (own_after, opp_after) = self.rights_after(mv, moved, captured);
        self.history.push(
            History {
                mv: *mv,
                captured,
                white_castle_rights: self.white_castle_rights,
                black_castle_rights: self.black_castle_rights,
                en_passant_target: self.en_passant_target,
                halfmove_clock: self.halfmove_clock,
                zobrist: self.zobrist,
            },
        );
        assert(self.history@ == g.history.push(g.history_entry(m)));
        self.place_pieces(mv, moved, captured);
        let new_ep = self.new_en_passant(mv, moved);
        assert(new_ep == g.ep_after(m));
        self.set_en_passant(new_ep);
        match player {
            Player::White => self.set_castle_rights(own_after, opp_after),
            Player::Black => self.set_castle_rights(opp_after, own_after),
        }
        if captured.is_some() || moved.kind == PieceKind::Pawn {
            self.halfmove_clock = 0;
        } else {
            self.halfmove_clock = self.halfmove_clock + 1;
        }
        self.plies = self.plies + 1;
        self.switch_player();
        assert(self@ == g.after_move(m));
    }

    /// Takes back the last move, restoring every field from the history entry it pushed.
    #[verifier::rlimit(40)]
    pub fn undo_move(&mut self)
        requires
            old(self).wf(),
            old(self)@.history.len() > 0,
        ensures
            final(self).wf(),
            final(self)@ == old(self)@.undone(),
    {
        let ghost g = self@;
        proof {
            lemma_wf_core(g);
            lemma_undo_keeps_wf(g);
            lemma_wf_core(g.undone());
            lemma_make_undo(g.undone(), g.history.last().mv);
        }
        let h = self.history.pop().unwrap();
        assert(self.history@.push(h) =~= g.history);
        assert((GameModel { history: self@.history.push(h), ..self@ }) == g);
        self.unplace_pieces(h);
        self.player = self.player.other();
        self.white_castle_rights = h.white_castle_rights;
        self.black_castle_rights = h.black_castle_rights;
        self.en_passant_target = h.en_passant_target;
        self.halfmove_clock = h.halfmove_clock;
        self.plies = self.plies - 1;
        self.zobrist = h.zobrist;
        assert(self@ == g.undone());
    }

    /// Puts the pieces back as they stood before the move of `h`, when the board is the one
    /// that the move produced.
    #[verifier::rlimit(40)]
    fn unplace_pieces(&mut self, h: History)
        requires
            old(self).board.wf(),
            exists|pre: GameModel|
                pre.wf_core() && pre.playable(h.mv) && #[trigger] pre.after_move(h.mv).board
                    == old(self)@.board && pre.history_entry(h.mv) == h && pre.player
                    == old(self).player.spec_other(),
        ensures
            final(self).board.wf(),
            final(self)@.board == (GameModel { history: old(self)@.history.push(h), ..old(self)@ }).board_undone(),
            final(self).player == old(self).player,
            final(self).plies == old(self).plies,
            final(self).history == old(self).history,
    {
        let ghost pre = choose|pre: GameModel|
            pre.wf_core() && pre.playable(h.mv) && #[trigger] pre.after_move(h.mv).board
                == old(self)@.board && pre.history_entry(h.mv) == h && pre.player
                == old(self).player.spec_other();
        let ghost m = h.mv;
        let ghost gm = GameModel { history: old(self)@.history.push(h), ..old(self)@ };
        assert(gm.history.last() == h);
        let mv = h.mv;
        let from = mv.src;
        let to = mv.dst;
        let ghost pm = pre.moved(m);
        assert(self.board@[to as int] == Some(placed_piece(pm, m)));
        let moved = self.board.piece_at(to).unwrap();
        let mover = moved.player;
        let base: u8 = match mover {
            Player::White => 0,
            Player::Black => 56,
        };
        if moved.kind == PieceKind::King && from == base + 4 {
            if to == base + 6 {
                self.board.remove_at(base + 5);
                self.board.set_at(base + 7, Piece::new(mover, PieceKind::Rook));
            } else if to == base + 2 {
                self.board.remove_at(base + 3);
                self.board.set_at(base, Piece::new(mover, PieceKind::Rook));
            }
        }
        if let Some(t) = h.en_passant_target {
            if moved.kind == PieceKind::Pawn && to == t {
                assert(pre.is_ep_capture(m));
                let cap = match mover {
                    Player::White => to - 8,
                    Player::Black => to + 8,
                };
                self.board.set_at(cap, Piece::new(mover.other(), PieceKind::Pawn));
            }
        }
        self.board.remove_at(to);
        if let Some(c) = h.captured {
            self.board.set_at(to, c);
        }
        let src_piece = if mv.promotion.is_some() {
            Piece::new(mover, PieceKind::Pawn)
        } else {
            moved
        };
        self.board.set_at(from, src_piece);
        assert(self@.board =~= gm.board_undone());
    }

    /// The en-passant target that `moved`, having just made `mv`, leaves on this board.
    fn new_en_passant(&self, mv: &Move, moved: Piece) -> (r: Option<Square>)
        requires
            self.board.wf(),
            mv.src < 64,
            mv.dst < 64,
            moved.player == self.player,
        ensures
            r == ep_from(self.board@, moved, *mv),
            r matches Some(t) ==> t < 64,
    {
        let from = mv.src;
        let to = mv.dst;
        let player = self.player;
        let other = player.other();
        let (home, double) = match player {
            Player::White => (1u8, 3u8),
            Player::Black => (6u8, 4u8),
        };
        let new_ep = if moved.kind == PieceKind::Pawn && rank(from) == home && rank(to) == double {
            let west = if file(to) > 0 {
                match self.board.piece_at(to - 1) {
                    Some(q) => q.kind == PieceKind::Pawn && q.player == other,
                    None => false,
                }
            } else {
                false
            };
            let east = if file(to) < 7 {
                match self.board.piece_at(to + 1) {
                    Some(q) => q.kind == PieceKind::Pawn && q.player == other,
                    None => false,
                }
            } else {
                false
            };
            if west || east {
                Some(
                    match player {
                        Player::White => from + 8,
                        Player::Black => from - 8,
                    },
                )
            } else {
                None
            }
        } else {
            None
        };
        new_ep
    }

    /// The castle rights of the side to move and of the other side after `mv`.
    fn rights_after(&self, mv: &Move, moved: Piece, captured: Option<Piece>) -> (r: (
        CastleRights,
        CastleRights,
    ))
        requires
            self@.board.len() == 64,
            self@.playable(*mv),
            moved == self@.moved(*mv),
            captured == self@.board[mv.dst as int],
        ensures
            r.0 == self@.own_rights_after(*mv),
            r.1 == self@.other_rights_after(*mv),
    {
        let ghost g = self@;
        let ghost m = *mv;
        let from = mv.src;
        let to = mv.dst;
        let player = self.player;
        let base: u8 = match player {
            Player::White => 0,
            Player::Black => 56,
        };
        let (own, opp) = match player {
            Player::White => (self.white_castle_rights, self.black_castle_rights),
            Player::Black => (self.black_castle_rights, self.white_castle_rights),
        };
        let own_after = if moved.kind == PieceKind::King && from == base + 4 {
            CastleRights::none()
        } else if moved.kind == PieceKind::Rook && from == base + 7 {
            own.without_kingside()
        } else if moved.kind == PieceKind::Rook && from == base {
            own.without_queenside()
        } else {
            own
        };
        let opp_base: u8 = match player {
            Player::White => 56,
            Player::Black => 0,
        };
        let opp_after = if captured.is_some() && to == opp_base + 7 {
            opp.without_kingside()
        } else if captured.is_some() && to == opp_base {
            opp.without_queenside()
        } else {
            opp
        };
        assert(own_after == g.own_rights_after(m));
        assert(opp_after == g.other_rights_after(m));
        (own_after, opp_after)
    }

    /// Moves the pieces of `mv` on the board, toggling their keys.
    #[verifier::rlimit(40)]
    fn place_pieces(&mut self, mv: &Move, moved: Piece, captured: Option<Piece>)
        requires
            old(self).board.wf(),
            old(self).hash_ok(),
            old(self)@.board.len() == 64,
            old(self)@.ep_ok(),
            old(self)@.move_ok(*mv),
            moved == old(self)@.moved(*mv),
            captured == old(self)@.board[mv.dst as int],
        ensures
            final(self).board.wf(),
            final(self).hash_ok(),
            final(self)@ == (GameModel { board: old(self)@.board_after(*mv), zobrist: final(self).zobrist, ..old(self)@ }),
    {
        let ghost g = self@;
        let ghost m = *mv;
        let from = mv.src;
        let to = mv.dst;
        let player = self.player;
        let previous_ep = self.en_passant_target;
        self.remove_at(from);
        if captured.is_some() {
            self.remove_at(to);
        }
        let placed = match mv.promotion {
            Some(k) => Piece::new(moved.player, k.piece()),
            None => moved,
        };
        self.set_at(to, placed);
        assert(self.board@ =~= g.board.update(from as int, None).update(to as int, Some(placed)));
        if let Some(t) = previous_ep {
            if moved.kind == PieceKind::Pawn && to == t {
                let cap = match player {
                    Player::White => to - 8,
                    Player::Black => to + 8,
                };
                self.remove_at(cap);
            }
        }
        let base: u8 = match player {
            Player::White => 0,
            Player::Black => 56,
        };
        if moved.kind == PieceKind::King && from == base + 4 {
            if to == base + 6 {
                self.remove_at(base + 7);
                self.set_at(base + 5, Piece::new(player, PieceKind::Rook));
            } else if to == base + 2 {
                self.remove_at(base);
                self.set_at(base + 3, Piece::new(player, PieceKind::Rook));
            }
        }
        assert(self.board@ =~= g.board_after(m));
    }

    /// Toggles the key of `piece` on the empty square `sq` in, and puts it there.
    fn set_at(&mut self, sq: Square, piece: Piece)
        requires
            old(self).board.wf(),
            old(self).hash_ok(),
            sq < 64,
            old(self).board@[sq as int] is None,
        ensures
            final(self).board.wf(),
            final(self).hash_ok(),
            final(self)@ == (GameModel { board: old(self)@.board.update(sq as int, Some(piece)), zobrist: final(self).zobrist, ..old(self)@ }),
    {
        let k = piece_key(piece, sq);
        proof {
            let o = old(self);
            lemma_board_hash_update(o.board@, sq as int, Some(piece), 64);
            lemma_xor_slots(
                board_hash(o.board@, 64),
                castle_hash(o.white_castle_rights, o.black_castle_rights),
                ep_hash(o.en_passant_target),
                side_key(o.player),
                k,
            );
        }
        self.board.set_at(sq, piece);
        self.zobrist = self.zobrist ^ k;
    }

    /// Takes the piece off the occupied square `sq` and toggles its key out.
    fn remove_at(&mut self, sq: Square)
        requires
            old(self).board.wf(),
            old(self).hash_ok(),
            sq < 64,
            old(self).board@[sq as int] is Some,
        ensures
            final(self).board.wf(),
            final(self).hash_ok(),
            final(self)@ == (GameModel { board: old(self)@.board.update(sq as int, None), zobrist: final(self).zobrist, ..old(self)@ }),
    {
        let piece = self.board.piece_at(sq).unwrap();
        let k = piece_key(piece, sq);
        proof {
            let o = old(self);
            lemma_board_hash_update(o.board@, sq as int, None, 64);
            lemma_xor_slots(
                board_hash(o.board@, 64),
                castle_hash(o.white_castle_rights, o.black_castle_rights),
                ep_hash(o.en_passant_target),
                side_key(o.player),
                k,
            );
        }
        self.board.remove_at(sq);
        self.zobrist = self.zobrist ^ k;
    }

    fn set_en_passant(&mut self, ep: Option<Square>)
        requires
            old(self).hash_ok(),
            old(self).en_passant_target matches Some(t) ==> t < 64,
            ep matches Some(t) ==> t < 64,
        ensures
            final(self).hash_ok(),
            final(self)@ == (GameModel { en_passant_target: ep, zobrist: final(self).zobrist, ..old(self)@ }),
            final(self).board == old(self).board,
    {
        let d = ep_hash_of(self.en_passant_target) ^ ep_hash_of(ep);
        proof {
            let o = old(self);
            lemma_xor_slots(
                board_hash(o.board@, 64),
                castle_hash(o.white_castle_rights, o.black_castle_rights),
                ep_hash(o.en_passant_target),
                side_key(o.player),
                d,
            );
            lemma_xor_slots(0, 0, ep_hash(o.en_passant_target), 0, ep_hash(ep));
        }
        self.en_passant_target = ep;
        self.zobrist = self.zobrist ^ d;
    }

    fn set_castle_rights(&mut self, w: CastleRights, b: CastleRights)
        requires
            old(self).hash_ok(),
        ensures
            final(self).hash_ok(),
            final(self)@ == (GameModel { white_castle_rights: w, black_castle_rights: b, zobrist: final(self).zobrist, ..old(self)@ }),
            final(self).board == old(self).board,
    {
        let old_h = castle_hash_of(self.white_castle_rights, self.black_castle_rights);
        let new_h = castle_hash_of(w, b);
        let d = old_h ^ new_h;
        proof {
            let o = old(self);
            lemma_xor_slots(
                board_hash(o.board@, 64),
                old_h,
                ep_hash(o.en_passant_target),
                side_key(o.player),
                d,
            );
            lemma_xor_slots(0, old_h, 0, 0, new_h);
        }
        self.white_castle_rights = w;
        self.black_castle_rights = b;
        self.zobrist = self.zobrist ^ d;
    }

    fn switch_player(&mut self)
        requires
            old(self).hash_ok(),
        ensures
            final(self).hash_ok(),
            final(self)@ == (GameModel { player: old(self).player.spec_other(), zobrist: final(self).zobrist, ..old(self)@ }),
            final(self).board == old(self).board,
    {
        let old_h = side_hash_of(self.player);
        let new_h = side_hash_of(self.player.other());
        let d = old_h ^ new_h;
        proof {
            let o = old(self);
            lemma_xor_slots(
                board_hash(o.board@, 64),
                castle_hash(o.white_castle_rights, o.black_castle_rights),
                ep_hash(o.en_passant_target),
                old_h,
                d,
            );
            lemma_xor_slots(0, 0, 0, old_h, new_h);
        }
        self.player = self.player.other();
        self.zobrist = self.zobrist ^ d;
    }
}

/// How many entries of `h` from `lo` up to `n` hold hash `z`.
pub open spec fn repetitions_from(h: Seq<History>, z: u64, lo: nat, n: nat) -> nat
    decreases n,
{
    if n <= lo {
        0
    } else {
        repetitions_from(h, z, lo, (n - 1) as nat) + if h[n - 1].zobrist == z {
            1nat
        } else {
            0nat
        }
    }
}

/// The first history entry after the last irreversible move.
pub open spec fn repetition_floor(g: GameModel) -> nat {
    if g.halfmove_clock as nat >= g.history.len() {
        0
    } else {
        (g.history.len() - g.halfmove_clock) as nat
    }
}

/// The position has occurred at least twice before since the last irreversible move.
pub open spec fn is_repetition(g: GameModel) -> bool {
    repetitions_from(g.history, g.zobrist, repetition_floor(g), g.history.len()) >= 2
}

pub proof fn lemma_repetitions_from_grow(h: Seq<History>, z: u64, lo: nat, a: nat, b: nat)
    requires
        a <= b,
    ensures
        repetitions_from(h, z, lo, a) <= repetitions_from(h, z, lo, b),
    decreases b,
{
    if a < b {
        lemma_repetitions_from_grow(h, z, lo, a, (b - 1) as nat);
    }
}

/// How many entries of `h` below `n` hold hash `z`.
pub open spec fn repetitions(h: Seq<History>, z: u64, n: nat) -> nat
    decreases n,
{
    if n == 0 {
        0
    } else {
        repetitions(h, z, (n - 1) as nat) + if h[n - 1].zobrist == z {
            1nat
        } else {
            0nat
        }
    }
}

pub proof fn lemma_repetitions_grow(h: Seq<History>, z: u64, a: nat, b: nat)
    requires
        a <= b,
    ensures
        repetitions(h, z, a) <= repetitions(h, z, b),
    decreases b,
{
    if a < b {
        lemma_repetitions_grow(h, z, a, (b - 1) as nat);
    }
}

} // verus!
