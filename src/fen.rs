use vstd::prelude::*;
use crate::board::Board;
use crate::game::{CastleRights, Game, GameModel};
use crate::moves::Move;
use crate::piece::PromotionPieceKind;
use crate::piece::{Piece, PieceKind, Player};
use crate::square::{file_of, rank_of, Square};

verus! {

pub open spec fn piece_char(p: Piece) -> char {
    match (p.player, p.kind) {
        (Player::White, PieceKind::Pawn) => 'P',
        (Player::White, PieceKind::Knight) => 'N',
        (Player::White, PieceKind::Bishop) => 'B',
        (Player::White, PieceKind::Rook) => 'R',
        (Player::White, PieceKind::Queen) => 'Q',
        (Player::White, PieceKind::King) => 'K',
        (Player::Black, PieceKind::Pawn) => 'p',
        (Player::Black, PieceKind::Knight) => 'n',
        (Player::Black, PieceKind::Bishop) => 'b',
        (Player::Black, PieceKind::Rook) => 'r',
        (Player::Black, PieceKind::Queen) => 'q',
        (Player::Black, PieceKind::King) => 'k',
    }
}

pub open spec fn digit(n: nat) -> char {
    if n == 0 { '0' } else if n == 1 { '1' } else if n == 2 { '2' } else if n == 3 { '3' }
    else if n == 4 { '4' } else if n == 5 { '5' } else if n == 6 { '6' } else if n == 7 { '7' }
    else if n == 8 { '8' } else { '9' }
}

/// The decimal digits of `n`.
pub open spec fn decimal(n: nat) -> Seq<char>
    decreases n,
{
    if n < 10 {
        seq![digit(n)]
    } else {
        decimal(n / 10).push(digit(n % 10))
    }
}

/// A run of `e` empty squares, written as its length when there is one.
pub open spec fn run(e: nat) -> Seq<char> {
    if e > 0 {
        seq![digit(e)]
    } else {
        Seq::empty()
    }
}

/// Files `f` .. 7 of rank `r`, with `e` empty squares pending before them.
pub open spec fn rank_chars(b: Seq<Option<Piece>>, r: int, f: int, e: nat) -> Seq<char>
    decreases 8 - f,
{
    if f >= 8 {
        run(e)
    } else {
        match b[r * 8 + f] {
            None => rank_chars(b, r, f + 1, e + 1),
            Some(p) => run(e).push(piece_char(p)) + rank_chars(b, r, f + 1, 0),
        }
    }
}

/// Ranks `r` down to the first, separated by '/'.
pub open spec fn board_chars(b: Seq<Option<Piece>>, r: int) -> Seq<char>
    decreases r,
{
    if r <= 0 {
        rank_chars(b, 0, 0, 0)
    } else {
        rank_chars(b, r, 0, 0).push('/') + board_chars(b, r - 1)
    }
}

pub open spec fn castle_chars(w: CastleRights, b: CastleRights) -> Seq<char> {
    if !w.king_side && !w.queen_side && !b.king_side && !b.queen_side {
        seq!['-']
    } else {
        (if w.king_side { seq!['K'] } else { Seq::empty() }) + (if w.queen_side { seq!['Q'] } else { Seq::empty() })
            + (if b.king_side { seq!['k'] } else { Seq::empty() }) + (if b.queen_side { seq!['q'] } else { Seq::empty() })
    }
}

pub open spec fn file_char(f: int) -> char {
    if f == 0 { 'a' } else if f == 1 { 'b' } else if f == 2 { 'c' } else if f == 3 { 'd' }
    else if f == 4 { 'e' } else if f == 5 { 'f' } else if f == 6 { 'g' } else { 'h' }
}

/// A square in algebraic notation, such as "e4".
pub open spec fn square_chars(s: int) -> Seq<char> {
    seq![file_char(file_of(s)), digit((rank_of(s) + 1) as nat)]
}

pub open spec fn ep_chars(ep: Option<Square>) -> Seq<char> {
    match ep {
        Some(t) => square_chars(t as int),
        None => seq!['-'],
    }
}

/// The six-field FEN of a game: board, side to move, castle rights, en-passant target,
/// halfmove clock and fullmove number.
pub open spec fn fen_of(g: GameModel) -> Seq<char> {
    board_chars(g.board, 7) + seq![' '] + seq![
        if g.player == Player::White { 'w' } else { 'b' },
    ] + seq![' '] + castle_chars(g.white_castle_rights, g.black_castle_rights) + seq![' ']
        + ep_chars(g.en_passant_target) + seq![' '] + decimal(g.halfmove_clock as nat) + seq![' ']
        + decimal((g.plies / 2 + 1) as nat)
}

/// Relies on std's `FromIterator<char>` for `String`: the string of the given characters.
#[verifier::external_body]
fn string_of(chars: &Vec<char>) -> (r: String)
    ensures
        r@ == chars@,
{
    chars.iter().collect()
}

fn digit_of(n: u32) -> (r: char)
    requires
        n < 10,
    ensures
        r == digit(n as nat),
{
    match n {
        0 => '0',
        1 => '1',
        2 => '2',
        3 => '3',
        4 => '4',
        5 => '5',
        6 => '6',
        7 => '7',
        8 => '8',
        _ => '9',
    }
}

fn push_decimal(out: &mut Vec<char>, n: u32)
    ensures
        final(out)@ == old(out)@ + decimal(n as nat),
    decreases n,
{
    if n >= 10 {
        push_decimal(out, n / 10);
    }
    out.push(digit_of(n % 10));
    proof {
        assert(n < 10 ==> (n % 10) == n);
    }
}

fn format_piece(p: Piece) -> (r: char)
    ensures
        r == piece_char(p),
{
    match (p.player, p.kind) {
        (Player::White, PieceKind::Pawn) => 'P',
        (Player::White, PieceKind::Knight) => 'N',
        (Player::White, PieceKind::Bishop) => 'B',
        (Player::White, PieceKind::Rook) => 'R',
        (Player::White, PieceKind::Queen) => 'Q',
        (Player::White, PieceKind::King) => 'K',
        (Player::Black, PieceKind::Pawn) => 'p',
        (Player::Black, PieceKind::Knight) => 'n',
        (Player::Black, PieceKind::Bishop) => 'b',
        (Player::Black, PieceKind::Rook) => 'r',
        (Player::Black, PieceKind::Queen) => 'q',
        (Player::Black, PieceKind::King) => 'k',
    }
}

fn push_run(out: &mut Vec<char>, e: u32)
    requires
        e <= 8,
    ensures
        final(out)@ == old(out)@ + run(e as nat),
{
    if e > 0 {
        out.push(digit_of(e));
    } else {
        assert(old(out)@ + run(e as nat) =~= old(out)@);
    }
}

fn format_rank(board: &Board, r: u8, out: &mut Vec<char>)
    requires
        board.wf(),
        r < 8,
    ensures
        final(out)@ == old(out)@ + rank_chars(board@, r as int, 0, 0),
{
    let ghost o = out@;
    let mut f: u8 = 0;
    let mut e: u32 = 0;
    while f < 8
        invariant
            board.wf(),
            r < 8,
            f <= 8,
            e <= f,
            out@ + rank_chars(board@, r as int, f as int, e as nat) == o + rank_chars(board@, r as int, 0, 0),
        decreases 8 - f,
    {
        let ghost before = out@;
        match board.piece_at(r * 8 + f) {
            None => {
                e = e + 1;
            },
            Some(p) => {
                push_run(out, e);
                out.push(format_piece(p));
                proof {
                    let rest = rank_chars(board@, r as int, f + 1, 0);
                    assert(out@ + rest =~= before + (run(e as nat).push(piece_char(p)) + rest));
                }
                e = 0;
            },
        }
        f = f + 1;
    }
    push_run(out, e);
    assert(out@ =~= o + rank_chars(board@, r as int, 0, 0));
}

fn format_board(board: &Board, out: &mut Vec<char>)
    requires
        board.wf(),
    ensures
        final(out)@ == old(out)@ + board_chars(board@, 7),
{
    let ghost o = out@;
    let mut r: u8 = 7;
    while r > 0
        invariant
            board.wf(),
            r <= 7,
            out@ + board_chars(board@, r as int) == o + board_chars(board@, 7),
        decreases r,
    {
        let ghost before = out@;
        format_rank(board, r, out);
        out.push('/');
        proof {
            assert(out@ + board_chars(board@, r - 1) =~= before + board_chars(board@, r as int));
        }
        r = r - 1;
    }
    let ghost before = out@;
    format_rank(board, 0, out);
    assert(out@ =~= before + board_chars(board@, 0));
}

fn format_castle_rights(w: CastleRights, b: CastleRights, out: &mut Vec<char>)
    ensures
        final(out)@ == old(out)@ + castle_chars(w, b),
{
    if !w.king_side && !w.queen_side && !b.king_side && !b.queen_side {
        out.push('-');
    } else {
        let ghost o = out@;
        if w.king_side {
            out.push('K');
        }
        if w.queen_side {
            out.push('Q');
        }
        if b.king_side {
            out.push('k');
        }
        if b.queen_side {
            out.push('q');
        }
        assert(out@ =~= o + castle_chars(w, b));
    }
}

fn file_letter(f: u8) -> (r: char)
    requires
        f < 8,
    ensures
        r == file_char(f as int),
{
    match f {
        0 => 'a',
        1 => 'b',
        2 => 'c',
        3 => 'd',
        4 => 'e',
        5 => 'f',
        6 => 'g',
        _ => 'h',
    }
}

/// The square `s` in algebraic notation.
pub fn notation(s: Square) -> (r: String)
    requires
        s < 64,
    ensures
        r@ == square_chars(s as int),
{
    let mut out: Vec<char> = Vec::new();
    out.push(file_letter(s % 8));
    out.push(digit_of((s / 8 + 1) as u32));
    assert(out@ =~= square_chars(s as int));
    string_of(&out)
}

/// The FEN of a game.
pub fn write(game: &Game) -> (r: String)
    requires
        game.board.wf(),
        game.en_passant_target matches Some(t) ==> t < 64,
    ensures
        r@ == fen_of(game@),
{
    let out = fen_chars(game);
    string_of(&out)
}

/// The characters of the FEN of a game.
fn fen_chars(game: &Game) -> (out: Vec<char>)
    requires
        game.board.wf(),
        game.en_passant_target matches Some(t) ==> t < 64,
    ensures
        out@ == fen_of(game@),
{
    let mut out: Vec<char> = Vec::new();
    format_board(&game.board, &mut out);
    out.push(' ');
    out.push(
        match game.player {
            Player::White => 'w',
            Player::Black => 'b',
        },
    );
    out.push(' ');
    format_castle_rights(game.white_castle_rights, game.black_castle_rights, &mut out);
    out.push(' ');
    match game.en_passant_target {
        Some(t) => {
            out.push(file_letter(t % 8));
            out.push(digit_of((t / 8 + 1) as u32));
        },
        None => {
            out.push('-');
        },
    }
    out.push(' ');
    push_decimal(&mut out, game.halfmove_clock);
    out.push(' ');
    push_decimal(&mut out, game.plies / 2 + 1);
    assert(out@ =~= fen_of(game@));
    out
}

impl Game {
    /// The FEN of the game.
    pub fn to_fen(&self) -> (r: String)
        requires
            self.wf(),
        ensures
            r@ == fen_of(self@),
    {
        proof {
            crate::game::lemma_wf_core(self@);
        }
        write(self)
    }
}

/// Relies on `str::chars`: the characters of the text.
#[verifier::external_body]
fn chars_of(s: &str) -> (r: Vec<char>)
    ensures
        r@ == s@,
{
    s.chars().collect()
}

/// Why a text is not accepted as a FEN.
#[derive(Debug, Clone, Copy, PartialEq, Eq, Structural)]
pub enum FenError {
    /// A field is missing, malformed or not in canonical form.
    Malformed,
    /// The en-passant target does not fit the position.
    BadEnPassant,
}

fn piece_of_char(c: char) -> (r: Option<Piece>)
    ensures
        r matches Some(p) ==> piece_char(p) == c,
{
    match c {
        'P' => Some(Piece { kind: PieceKind::Pawn, player: Player::White }),
        'N' => Some(Piece { kind: PieceKind::Knight, player: Player::White }),
        'B' => Some(Piece { kind: PieceKind::Bishop, player: Player::White }),
        'R' => Some(Piece { kind: PieceKind::Rook, player: Player::White }),
        'Q' => Some(Piece { kind: PieceKind::Queen, player: Player::White }),
        'K' => Some(Piece { kind: PieceKind::King, player: Player::White }),
        'p' => Some(Piece { kind: PieceKind::Pawn, player: Player::Black }),
        'n' => Some(Piece { kind: PieceKind::Knight, player: Player::Black }),
        'b' => Some(Piece { kind: PieceKind::Bishop, player: Player::Black }),
        'r' => Some(Piece { kind: PieceKind::Rook, player: Player::Black }),
        'q' => Some(Piece { kind: PieceKind::Queen, player: Player::Black }),
        'k' => Some(Piece { kind: PieceKind::King, player: Player::Black }),
        _ => None,
    }
}

fn digit_value(c: char) -> (r: Option<u32>)
    ensures
        r matches Some(d) ==> d <= 9,
{
    match c {
        '0' => Some(0),
        '1' => Some(1),
        '2' => Some(2),
        '3' => Some(3),
        '4' => Some(4),
        '5' => Some(5),
        '6' => Some(6),
        '7' => Some(7),
        '8' => Some(8),
        '9' => Some(9),
        _ => None,
    }
}

/// Reads a decimal number from `pos`, stopping at a space or the end; returns it and the
/// position after it.
fn parse_number(t: &Vec<char>, pos: usize) -> (r: Option<(u32, usize)>)
    requires
        pos <= t@.len(),
    ensures
        r matches Some(v) ==> pos < v.1 <= t@.len(),
{
    let mut i = pos;
    let mut n: u32 = 0;
    while i < t.len() && t[i] != ' '
        invariant
            pos <= i <= t@.len(),
        decreases t@.len() - i,
    {
        match digit_value(t[i]) {
            Some(d) => {
                if n > 400_000_000 {
                    return None;
                }
                n = n * 10 + d;
            },
            None => {
                return None;
            },
        }
        i = i + 1;
    }
    if i == pos {
        None
    } else {
        Some((n, i))
    }
}

/// Reads the fields of a FEN; the text is checked for canonical form afterwards.
fn parse_fields(t: &Vec<char>) -> (r: Result<(Board, Player, CastleRights, CastleRights, Option<Square>, u32, u32), FenError>)
    ensures
        r matches Ok(v) ==> v.0.wf() && (v.4 matches Some(e) ==> e < 64),
{
    let mut pieces: Vec<Option<Piece>> = Vec::new();
    let mut k: usize = 0;
    while k < 64
        invariant
            k <= 64,
            pieces@.len() == k,
        decreases 64 - k,
    {
        pieces.push(None);
        k = k + 1;
    }
    let mut pos: usize = 0;
    let mut r: u8 = 8;
    while r > 0
        invariant
            r <= 8,
            pieces@.len() == 64,
            pos <= t@.len(),
        decreases r,
    {
        r = r - 1;
        let mut f: u8 = 0;
        while f < 8
            invariant
                f <= 8,
                r < 8,
                pieces@.len() == 64,
                pos <= t@.len(),
            decreases 8 - f,
        {
            if pos >= t.len() {
                return Err(FenError::Malformed);
            }
            let c = t[pos];
            pos = pos + 1;
            match digit_value(c) {
                Some(d) => {
                    if d == 0 || d as u8 > 8 - f {
                        return Err(FenError::Malformed);
                    }
                    f = f + d as u8;
                },
                None => match piece_of_char(c) {
                    Some(p) => {
                        pieces.set((r * 8 + f) as usize, Some(p));
                        f = f + 1;
                    },
                    None => {
                        return Err(FenError::Malformed);
                    },
                },
            }
        }
        if pos >= t.len() {
            return Err(FenError::Malformed);
        }
        let sep = if r > 0 {
            '/'
        } else {
            ' '
        };
        if t[pos] != sep {
            return Err(FenError::Malformed);
        }
        pos = pos + 1;
    }
    let board = Board::from_pieces(&pieces);
    if t.len() < 2 || pos > t.len() - 2 {
        return Err(FenError::Malformed);
    }
    let player = match t[pos] {
        'w' => Player::White,
        'b' => Player::Black,
        _ => {
            return Err(FenError::Malformed);
        },
    };
    if t[pos + 1] != ' ' {
        return Err(FenError::Malformed);
    }
    pos = pos + 2;
    let mut white = CastleRights { king_side: false, queen_side: false };
    let mut black = CastleRights { king_side: false, queen_side: false };
    if pos < t.len() && t[pos] == '-' {
        pos = pos + 1;
    } else {
        while pos < t.len() && t[pos] != ' '
            invariant
                pos <= t@.len(),
            decreases t@.len() - pos,
        {
            match t[pos] {
                'K' => white.king_side = true,
                'Q' => white.queen_side = true,
                'k' => black.king_side = true,
                'q' => black.queen_side = true,
                _ => {
                    return Err(FenError::Malformed);
                },
            }
            pos = pos + 1;
        }
    }
    if pos >= t.len() || t[pos] != ' ' {
        return Err(FenError::Malformed);
    }
    pos = pos + 1;
    let mut ep: Option<Square> = None;
    if pos < t.len() && t[pos] == '-' {
        pos = pos + 1;
    } else {
        if t.len() < 2 || pos > t.len() - 2 {
            return Err(FenError::Malformed);
        }
        let fc = t[pos];
        let rc = t[pos + 1];
        let f: u8 = match fc {
            'a' => 0,
            'b' => 1,
            'c' => 2,
            'd' => 3,
            'e' => 4,
            'f' => 5,
            'g' => 6,
            'h' => 7,
            _ => {
                return Err(FenError::Malformed);
            },
        };
        let rk: u8 = match digit_value(rc) {
            Some(d) => {
                if d == 0 || d > 8 {
                    return Err(FenError::Malformed);
                }
                (d - 1) as u8
            },
            None => {
                return Err(FenError::Malformed);
            },
        };
        ep = Some(rk * 8 + f);
        pos = pos + 2;
    }
    if pos >= t.len() || t[pos] != ' ' {
        return Err(FenError::Malformed);
    }
    pos = pos + 1;
    let (halfmove, after_halfmove) = match parse_number(t, pos) {
        Some(v) => v,
        None => {
            return Err(FenError::Malformed);
        },
    };
    pos = after_halfmove;
    if pos >= t.len() || t[pos] != ' ' {
        return Err(FenError::Malformed);
    }
    pos = pos + 1;
    let (fullmove, after_fullmove) = match parse_number(t, pos) {
        Some(v) => v,
        None => {
            return Err(FenError::Malformed);
        },
    };
    if after_fullmove != t.len() || fullmove == 0 || fullmove > 2_000_000_000 {
        return Err(FenError::Malformed);
    }
    let plies = (fullmove - 1) * 2 + match player {
        Player::White => 0,
        Player::Black => 1,
    };
    Ok((board, player, white, black, ep, halfmove, plies))
}

/// Whether the en-passant target fits the position (see `GameModel::ep_ok`).
fn ep_fits(board: &Board, player: Player, ep: Option<Square>) -> (r: bool)
    requires
        board.wf(),
        ep matches Some(t) ==> t < 64,
    ensures
        r == (GameModel {
            board: board@,
            player,
            white_castle_rights: CastleRights { king_side: false, queen_side: false },
            black_castle_rights: CastleRights { king_side: false, queen_side: false },
            en_passant_target: ep,
            halfmove_clock: 0,
            plies: 0,
            zobrist: 0,
            history: Seq::empty(),
        }).ep_ok(),
{
    match ep {
        None => true,
        Some(t) => {
            let want: u8 = match player {
                Player::White => 5,
                Player::Black => 2,
            };
            if t / 8 != want || board.piece_at(t).is_some() {
                return false;
            }
            let behind = match player {
                Player::White => t - 8,
                Player::Black => t + 8,
            };
            match board.piece_at(behind) {
                Some(q) => q.kind == PieceKind::Pawn && q.player == player.other(),
                None => false,
            }
        },
    }
}

/// Reads a game from its FEN. Only the canonical form is accepted, the one that `write`
/// produces, so a game read back is written out as the same text.
#[verifier::rlimit(40)]
pub fn parse(fen: &str) -> (r: Result<Game, FenError>)
    ensures
        r matches Ok(g) ==> g.wf() && g@.history.len() == 0 && fen_of(g@) == fen@,
{
    let t = chars_of(fen);
    let (board, player, white, black, ep, halfmove, plies) = match parse_fields(&t) {
        Ok(v) => v,
        Err(e) => {
            return Err(e);
        },
    };
    if !ep_fits(&board, player, ep) {
        return Err(FenError::BadEnPassant);
    }
    let game = Game::from_state(board, player, white, black, ep, halfmove, plies);
    proof {
        crate::game::lemma_wf_core(game@);
    }
    let written = fen_chars(&game);
    if written.len() != t.len() {
        return Err(FenError::Malformed);
    }
    let mut i: usize = 0;
    while i < t.len()
        invariant
            written@.len() == t@.len(),
            i <= t@.len(),
            forall|j: int| 0 <= j < i ==> written@[j] == t@[j],
        decreases t@.len() - i,
    {
        if written[i] != t[i] {
            return Err(FenError::Malformed);
        }
        i = i + 1;
    }
    assert(written@ =~= t@);
    Ok(game)
}

impl Game {
    /// Reads a game from its canonical FEN.
    pub fn from_fen(fen: &str) -> (r: Result<Game, FenError>)
        ensures
            r matches Ok(g) ==> g.wf() && g@.history.len() == 0 && fen_of(g@) == fen@,
    {
        parse(fen)
    }
}

pub open spec fn promotion_chars(p: Option<PromotionPieceKind>) -> Seq<char> {
    match p {
        Some(PromotionPieceKind::Knight) => seq!['n'],
        Some(PromotionPieceKind::Bishop) => seq!['b'],
        Some(PromotionPieceKind::Rook) => seq!['r'],
        Some(PromotionPieceKind::Queen) => seq!['q'],
        None => Seq::empty(),
    }
}

/// A move in long algebraic notation, such as "e2e4" or "e7e8q".
pub open spec fn move_chars(m: Move) -> Seq<char> {
    square_chars(m.src as int) + square_chars(m.dst as int) + promotion_chars(m.promotion)
}

impl Move {
    /// The move in long algebraic notation.
    pub fn notation(&self) -> (r: String)
        requires
            self.src < 64,
            self.dst < 64,
        ensures
            r@ == move_chars(*self),
    {
        let mut out: Vec<char> = Vec::new();
        out.push(file_letter(self.src % 8));
        out.push(digit_of((self.src / 8 + 1) as u32));
        out.push(file_letter(self.dst % 8));
        out.push(digit_of((self.dst / 8 + 1) as u32));
        match self.promotion {
            Some(PromotionPieceKind::Knight) => out.push('n'),
            Some(PromotionPieceKind::Bishop) => out.push('b'),
            Some(PromotionPieceKind::Rook) => out.push('r'),
            Some(PromotionPieceKind::Queen) => out.push('q'),
            None => {},
        }
        assert(out@ =~= move_chars(*self));
        string_of(&out)
    }
}

fn square_from(f: char, r: char) -> (s: Option<Square>)
    ensures
        s matches Some(v) ==> v < 64 && square_chars(v as int) == seq![f, r],
        forall|q: int| 0 <= q < 64 && square_chars(q) == seq![f, r] ==> s == Some(q as u8),
{
    proof {
        assert forall|q: int| 0 <= q < 64 && #[trigger] square_chars(q) == seq![f, r] implies
            file_char(file_of(q)) == f && digit((rank_of(q) + 1) as nat) == r by {
            assert(square_chars(q)[0] == f);
            assert(square_chars(q)[1] == r);
        }
    }
    let file: u8 = match f {
        'a' => 0,
        'b' => 1,
        'c' => 2,
        'd' => 3,
        'e' => 4,
        'f' => 5,
        'g' => 6,
        'h' => 7,
        _ => {
            return None;
        },
    };
    let rank: u8 = match r {
        '1' => 0,
        '2' => 1,
        '3' => 2,
        '4' => 3,
        '5' => 4,
        '6' => 5,
        '7' => 6,
        '8' => 7,
        _ => {
            return None;
        },
    };
    let s = file + 8 * rank;
    assert(square_chars(s as int) =~= seq![f, r]);
    Some(s)
}

/// Reads a move in long algebraic notation; the text read is the move's notation.
pub fn parse_move(text: &str) -> (r: Option<Move>)
    ensures
        r matches Some(m) ==> m.src < 64 && m.dst < 64 && move_chars(m) == text@,
        forall|m: Move| m.src < 64 && m.dst < 64 && move_chars(m) == text@ ==> r == Some(m),
{
    let t = chars_of(text);
    proof {
        assert forall|m: Move| m.src < 64 && m.dst < 64 && #[trigger] move_chars(m) == text@ implies
            square_chars(m.src as int) == seq![t@[0], t@[1]] && square_chars(m.dst as int) == seq![t@[2], t@[3]]
            && (m.promotion is None <==> t@.len() == 4) && (t@.len() == 5 ==> promotion_chars(m.promotion) == seq![t@[4]]) by {
            assert(move_chars(m) =~= square_chars(m.src as int) + square_chars(m.dst as int) + promotion_chars(m.promotion));
            assert(square_chars(m.src as int) =~= move_chars(m).subrange(0, 2));
            assert(square_chars(m.dst as int) =~= move_chars(m).subrange(2, 4));
            if t@.len() == 5 {
                assert(promotion_chars(m.promotion) =~= move_chars(m).subrange(4, 5));
            }
        }
    }
    if t.len() != 4 && t.len() != 5 {
        return None;
    }
    let src = match square_from(t[0], t[1]) {
        Some(s) => s,
        None => {
            return None;
        },
    };
    let dst = match square_from(t[2], t[3]) {
        Some(s) => s,
        None => {
            return None;
        },
    };
    let promotion = if t.len() == 5 {
        match t[4] {
            'n' => Some(PromotionPieceKind::Knight),
            'b' => Some(PromotionPieceKind::Bishop),
            'r' => Some(PromotionPieceKind::Rook),
            'q' => Some(PromotionPieceKind::Queen),
            _ => {
                return None;
            },
        }
    } else {
        None
    };
    let m = Move { src, dst, promotion };
    assert(move_chars(m) =~= t@);
    Some(m)
}

} // verus!
