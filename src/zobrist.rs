use vstd::prelude::*;
use crate::piece::{Piece, Player};

verus! {

/// A 64-bit position hash.
pub type ZobristHash = u64;

/// The splitmix64 finaliser: a fixed bijective scramble of 64-bit words.
pub open spec fn mix(x: u64) -> u64 {
    let z1 = (x ^ (x >> 30u64)).wrapping_mul(0xbf58476d1ce4e5b9u64);
    let z2 = (z1 ^ (z1 >> 27u64)).wrapping_mul(0x94d049bb133111ebu64);
    z2 ^ (z2 >> 31u64)
}

/// The key with index `i`: the (i + 1)-th output of a splitmix64 stream seeded with 0,
/// so every process derives the same keys.
pub open spec fn key(i: u64) -> u64 {
    mix(((i + 1) as u64).wrapping_mul(0x9e3779b97f4a7c15u64))
}

/// Keys 0 .. 767: one per (piece, square), at `piece index * 64 + square`.
pub open spec fn square_key(p: Option<Piece>, s: int) -> u64 {
    match p {
        Some(p) => key((p.spec_index() * 64 + s) as u64),
        None => 0,
    }
}

/// Keys 768 .. 771: castle rights, white kingside, white queenside, black kingside, black
/// queenside.
pub open spec fn castle_key(i: u64) -> u64 {
    key((768 + i) as u64)
}

/// Keys 772 .. 779: the file of the en-passant target.
pub open spec fn ep_file_key(f: int) -> u64 {
    key((772 + f) as u64)
}

/// Key 780: black to move.
pub open spec fn side_key(player: Player) -> u64 {
    match player {
        Player::White => 0,
        Player::Black => key(780),
    }
}

/// Computes `key(i)`.
pub fn zobrist_key(i: u64) -> (r: u64)
    requires
        i < 781,
    ensures
        r == key(i),
{
    let x = (i + 1).wrapping_mul(0x9e3779b97f4a7c15u64);
    let z1 = (x ^ (x >> 30u64)).wrapping_mul(0xbf58476d1ce4e5b9u64);
    let z2 = (z1 ^ (z1 >> 27u64)).wrapping_mul(0x94d049bb133111ebu64);
    z2 ^ (z2 >> 31u64)
}

/// XOR over the squares below `n` of each square's piece key.
pub open spec fn board_hash(b: Seq<Option<Piece>>, n: nat) -> u64
    decreases n,
{
    if n == 0 {
        0
    } else {
        board_hash(b, (n - 1) as nat) ^ square_key(b[n - 1], n - 1)
    }
}

pub proof fn lemma_xor(a: u64, b: u64, c: u64)
    ensures
        (a ^ b) ^ c == a ^ (b ^ c),
        a ^ b == b ^ a,
        a ^ a == 0,
        a ^ 0 == a,
        (a ^ b) ^ b == a,
        (a ^ c) ^ (b ^ c) == a ^ b,
        (a ^ b) ^ (b ^ c) == a ^ c,
{
    assert((a ^ b) ^ c == a ^ (b ^ c)) by (bit_vector);
    assert(a ^ b == b ^ a) by (bit_vector);
    assert(a ^ a == 0) by (bit_vector);
    assert(a ^ 0 == a) by (bit_vector);
    assert((a ^ b) ^ b == a) by (bit_vector);
    assert((a ^ c) ^ (b ^ c) == a ^ b) by (bit_vector);
    assert((a ^ b) ^ (b ^ c) == a ^ c) by (bit_vector);
}

/// Changing one square changes the board hash by the two keys of that square.
pub proof fn lemma_board_hash_update(b: Seq<Option<Piece>>, i: int, v: Option<Piece>, n: nat)
    requires
        0 <= i < b.len(),
        n <= b.len(),
    ensures
        board_hash(b.update(i, v), n) == if i < n {
            board_hash(b, n) ^ (square_key(b[i], i) ^ square_key(v, i))
        } else {
            board_hash(b, n)
        },
    decreases n,
{
    if n > 0 {
        let m = (n - 1) as nat;
        lemma_board_hash_update(b, i, v, m);
        let b2 = b.update(i, v);
        let d = square_key(b[i], i) ^ square_key(v, i);
        if i < m {
            assert(b2[m as int] == b[m as int]);
            lemma_xor(board_hash(b, m), d, square_key(b[m as int], m as int));
            lemma_xor(board_hash(b, m), square_key(b[m as int], m as int), d);
            lemma_xor(d, square_key(b[m as int], m as int), 0);
        } else if i == m {
            lemma_xor(board_hash(b, m), square_key(b[i], i), square_key(v, i));
        } else {
            assert(b2[m as int] == b[m as int]);
        }
    }
}

} // verus!
