//! Bit-level facts about 32-bit words, stated per bit position.
//!
//! Everything above this module reasons about a word as the set of its bit
//! positions; the lemmas here are the only place where the word operations
//! themselves are unfolded.

use vstd::prelude::*;
use vstd::std_specs::bits::{axiom_u32_trailing_zeros, u32_trailing_zeros};

verus! {

/// Whether bit `i` of `w` is set. No position outside `0..32` is ever set.
pub open spec fn bit(w: u32, i: int) -> bool {
    0 <= i < 32 && (w >> (i as u32)) & 1 == 1
}

pub proof fn lemma_bit_and(a: u32, b: u32)
    ensures
        forall|i: int| #[trigger] bit(a & b, i) == (bit(a, i) && bit(b, i)),
{
    assert forall|i: int| #[trigger] bit(a & b, i) == (bit(a, i) && bit(b, i)) by {
        if 0 <= i < 32 {
            let k = i as u32;
            assert((((a & b) >> k) & 1 == 1) == ((a >> k) & 1 == 1 && (b >> k) & 1 == 1))
                by (bit_vector);
        }
    }
}

pub proof fn lemma_bit_or(a: u32, b: u32)
    ensures
        forall|i: int| #[trigger] bit(a | b, i) == (bit(a, i) || bit(b, i)),
{
    assert forall|i: int| #[trigger] bit(a | b, i) == (bit(a, i) || bit(b, i)) by {
        if 0 <= i < 32 {
            let k = i as u32;
            assert((((a | b) >> k) & 1 == 1) == ((a >> k) & 1 == 1 || (b >> k) & 1 == 1))
                by (bit_vector);
        }
    }
}

pub proof fn lemma_bit_xor(a: u32, b: u32)
    ensures
        forall|i: int| #[trigger] bit(a ^ b, i) == (bit(a, i) != bit(b, i)),
{
    assert forall|i: int| #[trigger] bit(a ^ b, i) == (bit(a, i) != bit(b, i)) by {
        if 0 <= i < 32 {
            let k = i as u32;
            assert((((a ^ b) >> k) & 1 == 1) == (((a >> k) & 1 == 1) != ((b >> k) & 1 == 1)))
                by (bit_vector);
        }
    }
}

pub proof fn lemma_bit_not(a: u32)
    ensures
        forall|i: int| #[trigger] bit(!a, i) == (0 <= i < 32 && !bit(a, i)),
{
    assert forall|i: int| #[trigger] bit(!a, i) == (0 <= i < 32 && !bit(a, i)) by {
        if 0 <= i < 32 {
            let k = i as u32;
            assert((((!a) >> k) & 1 == 1) == !((a >> k) & 1 == 1)) by (bit_vector)
                requires
                    k < 32,
            ;
        }
    }
}

/// Shifting left by `k` moves every bit `k` positions up and drops what
/// leaves the word.
pub proof fn lemma_bit_shl(a: u32, k: u32)
    requires
        k < 32,
    ensures
        forall|i: int| #[trigger] bit(a << k, i) == (i < 32 && bit(a, i - k)),
{
    assert forall|i: int| #[trigger] bit(a << k, i) == (i < 32 && bit(a, i - k)) by {
        if 0 <= i < 32 {
            let j = i as u32;
            assert((((a << k) >> j) & 1 == 1) == (j >= k && (a >> ((j - k) as u32)) & 1 == 1))
                by (bit_vector)
                requires
                    k < 32,
                    j < 32,
            ;
        }
    }
}

/// Shifting right by `k` moves every bit `k` positions down and drops what
/// leaves the word.
pub proof fn lemma_bit_shr(a: u32, k: u32)
    requires
        k < 32,
    ensures
        forall|i: int| #[trigger] bit(a >> k, i) == (0 <= i && bit(a, i + k)),
{
    assert forall|i: int| #[trigger] bit(a >> k, i) == (0 <= i && bit(a, i + k)) by {
        if 0 <= i < 32 {
            let j = i as u32;
            assert((((a >> k) >> j) & 1 == 1) == (j + k < 32 && (a >> ((j + k) as u32)) & 1 == 1))
                by (bit_vector)
                requires
                    k < 32,
                    j < 32,
            ;
        }
    }
}

/// The word `1 << p` has bit `p` set and no other.
pub proof fn lemma_bit_single(p: u32)
    requires
        p < 32,
    ensures
        forall|i: int| #[trigger] bit(1u32 << p, i) == (i == p),
{
    assert forall|i: int| #[trigger] bit(1u32 << p, i) == (i == p) by {
        if 0 <= i < 32 {
            let j = i as u32;
            assert((((1u32 << p) >> j) & 1 == 1) == (j == p)) by (bit_vector)
                requires
                    p < 32,
                    j < 32,
            ;
        }
    }
}

/// The zero word has no bit set, and every other word has one: its lowest.
pub proof fn lemma_bit_zero(a: u32)
    ensures
        a == 0 ==> forall|i: int| !#[trigger] bit(a, i),
        a != 0 ==> bit(a, u32_trailing_zeros(a) as int),
        a != 0 ==> forall|i: int| 0 <= i < u32_trailing_zeros(a) ==> !#[trigger] bit(a, i),
{
    axiom_u32_trailing_zeros(a);
    if a == 0 {
        assert forall|i: int| !#[trigger] bit(a, i) by {
            if 0 <= i < 32 {
                let j = i as u32;
                assert((0u32 >> j) & 1 == 0) by (bit_vector);
            }
        }
    } else {
        assert forall|i: int| 0 <= i < u32_trailing_zeros(a) implies !#[trigger] bit(a, i) by {
            let j = i as u32;
            assert((a >> j) & 1u32 == 0u32);
        }
    }
}

/// Two words with the same bits are the same word.
pub proof fn lemma_bit_ext(a: u32, b: u32)
    requires
        forall|i: int| 0 <= i < 32 ==> bit(a, i) == bit(b, i),
    ensures
        a == b,
{
    if a != b {
        assert(a ^ b != 0) by (bit_vector)
            requires
                a != b,
        ;
        lemma_bit_zero(a ^ b);
        lemma_bit_xor(a, b);
        let k = u32_trailing_zeros(a ^ b) as int;
        assert(bit(a ^ b, k));
        assert(bit(a, k) != bit(b, k));
    }
}

} // verus!
