//! Population counts of machine words, stated over a recursive model.

use vstd::prelude::*;
use vstd::arithmetic::power2::{pow2, lemma2_to64, lemma_pow2_adds, lemma_pow2_unfold};

verus! {

/// Number of one bits of `x`.
pub open spec fn pop128(x: u128) -> nat
    decreases x,
{
    if x == 0 {
        0
    } else {
        (x % 2) as nat + pop128(x / 2)
    }
}

/// Number of one bits of `x`.
pub open spec fn pop64(x: u64) -> nat
    decreases x,
{
    if x == 0 {
        0
    } else {
        (x % 2) as nat + pop64(x / 2)
    }
}

/// A word below `2^k` has at most `k` one bits.
pub proof fn lemma_pop128_le(x: u128, k: nat)
    requires
        (x as int) < pow2(k),
    ensures
        pop128(x) <= k,
    decreases x,
{
    if x != 0 {
        if k == 0 {
            vstd::arithmetic::power2::lemma_pow2_pos(0);
            assert(pow2(0) == 1) by {
                lemma2_to64();
            }
        } else {
            lemma_pow2_unfold(k);
            assert(((x / 2) as int) < pow2((k - 1) as nat));
            lemma_pop128_le(x / 2, (k - 1) as nat);
        }
    }
}

/// Placing `y` above `k` low bits that hold `x` adds their one bits.
pub proof fn lemma_pop128_place(x: u128, y: u128, k: nat)
    requires
        (x as int) < pow2(k),
        x + y * pow2(k) <= u128::MAX,
    ensures
        pop128((x + y * pow2(k)) as u128) == pop128(x) + pop128(y),
    decreases k,
{
    if k == 0 {
        assert(pow2(0) == 1) by {
            lemma2_to64();
        }
        assert(x == 0);
        assert((x + y * pow2(k)) as u128 == y);
    } else {
        lemma_pow2_unfold(k);
        let p = pow2((k - 1) as nat);
        vstd::arithmetic::power2::lemma_pow2_pos((k - 1) as nat);
        let z = (x + y * pow2(k)) as u128;
        assert(z == x + y * (2 * p));
        let m: int = y * p;
        assert(y * (2 * p) == 2 * m) by (nonlinear_arith)
            requires
                m == y * p,
        ;
        assert(m >= 0) by (nonlinear_arith)
            requires
                m == y * p,
                y >= 0,
                p > 0,
        ;
        assert(z % 2 == x % 2 && z / 2 == x / 2 + m && x / 2 < p);
        lemma_pop128_place(x / 2, y, (k - 1) as nat);
        assert((x / 2 + y * p) as u128 == z / 2);
        if z == 0 {
            assert(x == 0 && y * (2 * p) == 0);
            assert(y == 0) by (nonlinear_arith)
                requires
                    y * (2 * p) == 0,
                    p > 0,
                    y >= 0,
            ;
        }
    }
}

/// A word below `2^k` has at most `k` one bits.
pub proof fn lemma_pop64_le(x: u64, k: nat)
    requires
        (x as int) < pow2(k),
    ensures
        pop64(x) <= k,
    decreases x,
{
    if x != 0 {
        if k == 0 {
            assert(pow2(0) == 1) by {
                lemma2_to64();
            }
        } else {
            lemma_pow2_unfold(k);
            assert(((x / 2) as int) < pow2((k - 1) as nat));
            lemma_pop64_le(x / 2, (k - 1) as nat);
        }
    }
}

/// Every 128-bit word has at most 128 one bits.
pub proof fn lemma_pop128_bound(x: u128)
    ensures
        pop128(x) <= 128,
{
    lemma2_to64();
    lemma_pow2_adds(64, 64);
    assert(pow2(128) == 0x1_0000_0000_0000_0000int * 0x1_0000_0000_0000_0000int);
    lemma_pop128_le(x, 128);
}

/// Every 64-bit word has at most 64 one bits.
pub proof fn lemma_pop64_bound(x: u64)
    ensures
        pop64(x) <= 64,
{
    lemma2_to64();
    lemma_pop64_le(x, 64);
}

/// A word has no one bit exactly when it is zero.
pub proof fn lemma_pop128_zero(x: u128)
    ensures
        pop128(x) == 0 <==> x == 0,
    decreases x,
{
    if x != 0 && x % 2 == 0 {
        lemma_pop128_zero(x / 2);
    }
}

/// A word has no one bit exactly when it is zero.
pub proof fn lemma_pop64_zero(x: u64)
    ensures
        pop64(x) == 0 <==> x == 0,
    decreases x,
{
    if x != 0 && x % 2 == 0 {
        lemma_pop64_zero(x / 2);
    }
}

/// Number of one bits of a 128-bit word.
pub fn count_ones_u128(x: u128) -> (r: u32)
    ensures
        r == pop128(x),
{
    proof {
        lemma_pop128_bound(x);
    }
    let mut y: u128 = x;
    let mut c: u32 = 0;
    while y != 0
        invariant
            c + pop128(y) == pop128(x),
            pop128(x) <= 128,
        decreases y,
    {
        c = c + (y % 2) as u32;
        y = y / 2;
    }
    c
}

/// Number of one bits of a 64-bit word.
pub fn count_ones_u64(x: u64) -> (r: u32)
    ensures
        r == pop64(x),
{
    proof {
        lemma_pop64_bound(x);
    }
    let mut y: u64 = x;
    let mut c: u32 = 0;
    while y != 0
        invariant
            c + pop64(y) == pop64(x),
            pop64(x) <= 64,
        decreases y,
    {
        c = c + (y % 2) as u32;
        y = y / 2;
    }
    c
}

} // verus!
