use vstd::prelude::*;

verus! {

/// A set of squares: bit i stands for square i.
pub type Bitboard = u64;

/// Whether square `s` is in the set `b`.
pub open spec fn has_bit(b: u64, s: u64) -> bool {
    (b >> s) & 1u64 == 1u64
}

/// The number of squares below `n` that `b` holds.
pub open spec fn count_below(b: u64, n: nat) -> nat
    decreases n,
{
    if n == 0 {
        0
    } else {
        count_below(b, (n - 1) as nat) + if has_bit(b, (n - 1) as u64) {
            1nat
        } else {
            0nat
        }
    }
}

pub open spec fn count_spec(b: u64) -> nat {
    count_below(b, 64)
}

pub proof fn lemma_empty(t: u64)
    requires
        t < 64,
    ensures
        !has_bit(0u64, t),
{
    assert(!((0u64 >> t) & 1u64 == 1u64)) by (bit_vector)
        requires
            t < 64,
    ;
}

pub proof fn lemma_single(s: u64, t: u64)
    requires
        s < 64,
        t < 64,
    ensures
        has_bit(1u64 << s, t) == (s == t),
{
    assert((((1u64 << s) >> t) & 1u64 == 1u64) == (s == t)) by (bit_vector)
        requires
            s < 64,
            t < 64,
    ;
}

pub proof fn lemma_or(a: u64, b: u64, t: u64)
    requires
        t < 64,
    ensures
        has_bit(a | b, t) == (has_bit(a, t) || has_bit(b, t)),
{
    assert((((a | b) >> t) & 1u64 == 1u64) == (((a >> t) & 1u64 == 1u64) || ((b >> t) & 1u64
        == 1u64))) by (bit_vector)
        requires
            t < 64,
    ;
}

pub proof fn lemma_and(a: u64, b: u64, t: u64)
    requires
        t < 64,
    ensures
        has_bit(a & b, t) == (has_bit(a, t) && has_bit(b, t)),
{
    assert((((a & b) >> t) & 1u64 == 1u64) == (((a >> t) & 1u64 == 1u64) && ((b >> t) & 1u64
        == 1u64))) by (bit_vector)
        requires
            t < 64,
    ;
}

pub proof fn lemma_and_not(a: u64, b: u64, t: u64)
    requires
        t < 64,
    ensures
        has_bit(a & !b, t) == (has_bit(a, t) && !has_bit(b, t)),
{
    assert((((a & !b) >> t) & 1u64 == 1u64) == (((a >> t) & 1u64 == 1u64) && !((b >> t) & 1u64
        == 1u64))) by (bit_vector)
        requires
            t < 64,
    ;
}

/// The set holding the one square `s`.
pub fn single(s: u8) -> (r: u64)
    requires
        s < 64,
    ensures
        forall|t: u64| t < 64 ==> (has_bit(r, t) <==> t == s),
{
    proof {
        assert forall|t: u64| t < 64 implies (#[trigger] has_bit(1u64 << (s as u64), t) <==> t == s) by {
            lemma_single(s as u64, t);
        }
    }
    1u64 << (s as u64)
}

/// Whether `b` holds square `s`.
pub fn contains(b: u64, s: u8) -> (r: bool)
    requires
        s < 64,
    ensures
        r == has_bit(b, s as u64),
{
    (b >> (s as u64)) & 1u64 == 1u64
}

/// `b` with square `s` added.
pub fn with(b: u64, s: u8) -> (r: u64)
    requires
        s < 64,
    ensures
        forall|t: u64| t < 64 ==> (has_bit(r, t) <==> (has_bit(b, t) || t == s)),
{
    let one = single(s);
    proof {
        assert forall|t: u64| t < 64 implies (#[trigger] has_bit(b | one, t) <==> (has_bit(b, t) || t
            == s)) by {
            lemma_or(b, one, t);
        }
    }
    b | one
}

/// `b` with square `s` taken out.
pub fn without(b: u64, s: u8) -> (r: u64)
    requires
        s < 64,
    ensures
        forall|t: u64| t < 64 ==> (has_bit(r, t) <==> (has_bit(b, t) && t != s)),
{
    let one = single(s);
    proof {
        assert forall|t: u64| t < 64 implies (#[trigger] has_bit(b & !one, t) <==> (has_bit(b, t) && t
            != s)) by {
            lemma_and_not(b, one, t);
        }
    }
    b & !one
}

/// The number of squares in `b`.
pub fn count(b: u64) -> (r: u32)
    ensures
        r == count_spec(b),
        r <= 64,
{
    let mut n: u32 = 0;
    let mut i: u64 = 0;
    while i < 64
        invariant
            i <= 64,
            n == count_below(b, i as nat),
            n <= i,
        decreases 64 - i,
    {
        if (b >> i) & 1u64 == 1u64 {
            n = n + 1;
        }
        i = i + 1;
    }
    n
}

} // verus!
