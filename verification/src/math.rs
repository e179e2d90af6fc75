//! Powers of two and binary logarithms on tree sizes.

use vstd::arithmetic::power2::{lemma2_to64, lemma_pow2_unfold, pow2};
use vstd::prelude::*;

verus! {

/// The least `e` with `x <= pow2(e)`; zero for `x == 0`.
pub open spec fn ceil_log2(x: nat) -> nat
    decreases x,
{
    if x <= 1 {
        0
    } else {
        1 + ceil_log2((x + 1) / 2)
    }
}

/// The greatest `e` with `pow2(e) <= x`; zero for `x == 0`.
pub open spec fn floor_log2(x: nat) -> nat
    decreases x,
{
    if x <= 1 {
        0
    } else {
        1 + floor_log2(x / 2)
    }
}

/// `ceil_log2(x)` is the least exponent whose power of two reaches `x`.
pub proof fn lemma_ceil_log2_bounds(x: nat)
    requires
        x >= 1,
    ensures
        x <= pow2(ceil_log2(x)),
        x > 1 ==> pow2((ceil_log2(x) - 1) as nat) < x,
        pow2(ceil_log2(x)) < 2 * x,
    decreases x,
{
    lemma2_to64();
    if x > 1 {
        let half = (x + 1) / 2;
        lemma_ceil_log2_bounds(half);
        lemma_pow2_unfold(ceil_log2(x));
        if half > 1 {
            lemma_pow2_unfold(ceil_log2(half));
        }
    }
}

/// Any exponent whose power of two reaches `x` is at least `ceil_log2(x)`.
pub proof fn lemma_ceil_log2_least(x: nat, e: nat)
    requires
        x <= pow2(e),
    ensures
        ceil_log2(x) <= e,
    decreases x,
{
    if x > 1 {
        if e == 0 {
            lemma2_to64();
        } else {
            lemma_pow2_unfold(e);
            lemma_ceil_log2_least((x + 1) / 2, (e - 1) as nat);
        }
    }
}

/// `floor_log2(x)` is the greatest exponent whose power of two stays within `x`.
pub proof fn lemma_floor_log2_bounds(x: nat)
    requires
        x >= 1,
    ensures
        pow2(floor_log2(x)) <= x,
        x < 2 * pow2(floor_log2(x)),
    decreases x,
{
    if x > 1 {
        lemma_floor_log2_bounds(x / 2);
        lemma_pow2_unfold(floor_log2(x));
    } else {
        lemma2_to64();
    }
}

/// The exponent `e` with `pow2(e) <= x < pow2(e + 1)` is `floor_log2(x)`.
pub proof fn lemma_floor_log2_unique(x: nat, e: nat)
    requires
        pow2(e) <= x < 2 * pow2(e),
    ensures
        floor_log2(x) == e,
    decreases e,
{
    if e == 0 {
        lemma2_to64();
    } else {
        lemma_pow2_unfold(e);
        lemma_floor_log2_unique(x / 2, (e - 1) as nat);
    }
}

/// The binary logarithm of `x`, rounded up; zero for `x == 0`.
pub fn log2(x: usize) -> (e: u32)
    ensures
        e == ceil_log2(x as nat),
        e <= 64,
{
    proof {
        lemma2_to64();
        lemma_ceil_log2_least(x as nat, 64);
    }
    let mut rest: usize = x;
    let mut e: u32 = 0;
    while rest > 1
        invariant
            e + ceil_log2(rest as nat) == ceil_log2(x as nat),
            ceil_log2(x as nat) <= 64,
        decreases rest,
    {
        rest = rest - rest / 2;
        e = e + 1;
    }
    e
}

/// The binary logarithm of `x`, rounded down: the depth of the tree node
/// with generalized index `x`. Zero for `x == 0`.
pub fn floor_log2_of(x: usize) -> (e: u32)
    ensures
        e == floor_log2(x as nat),
        e < 64,
{
    proof {
        lemma2_to64();
        if x >= 1 {
            lemma_floor_log2_bounds(x as nat);
            if floor_log2(x as nat) > 64 {
                vstd::arithmetic::power2::lemma_pow2_strictly_increases(64, floor_log2(x as nat));
            }
        }
    }
    let mut rest: usize = x;
    let mut e: u32 = 0;
    while rest > 1
        invariant
            e + floor_log2(rest as nat) == floor_log2(x as nat),
            floor_log2(x as nat) < 64,
        decreases rest,
    {
        rest = rest / 2;
        e = e + 1;
    }
    e
}

/// The least power of two that is not below `x`; one for `x == 0`.
pub fn get_power_of_two_ceil(x: usize) -> (p: usize)
    requires
        x <= usize::MAX / 2 + 1,
    ensures
        p == pow2(ceil_log2(x as nat)),
    decreases x,
{
    proof {
        lemma2_to64();
    }
    if x <= 1 {
        1
    } else if x == 2 {
        proof {
            assert(ceil_log2(2) == 1) by {
                reveal_with_fuel(ceil_log2, 3);
            }
        }
        2
    } else {
        proof {
            lemma_ceil_log2_bounds(x as nat);
            lemma_pow2_unfold(ceil_log2(x as nat));
        }
        2 * get_power_of_two_ceil((x + 1) / 2)
    }
}

} // verus!
