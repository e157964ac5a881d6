//! Derivation of the number of hash rounds from the array size and the
//! expected number of items.
use vstd::prelude::*;

verus! {

/// Numerator of ln 2 as the nearest 64-bit float holds it: the value is
/// exactly `LN2_NUM / LN2_DEN`.
pub const LN2_NUM: u128 = 6243314768165359;

/// Denominator of ln 2 as the nearest 64-bit float holds it (2^53).
pub const LN2_DEN: u128 = 9007199254740992;

/// The smallest integer `c` with `c * b >= a`, for `b > 0`.
pub open spec fn ceil_div(a: int, b: int) -> int
    recommends
        b > 0,
{
    (a + b - 1) / b
}

/// `max(1, ceil(m / n * ln 2))`, held to the range of `u32`.
///
/// With `n == 0` no items are expected and a single round is used.
pub open spec fn hash_rounds_for(m: nat, n: nat) -> nat {
    if n == 0 {
        1
    } else {
        let c = ceil_div(m * LN2_NUM, n * LN2_DEN);
        if c < 1 {
            1
        } else if c > u32::MAX {
            u32::MAX as nat
        } else {
            c as nat
        }
    }
}

/// The derived number of hash rounds is never below 1, whatever the ratio of
/// array size to item count, and fits in a `u32`.
pub proof fn lemma_hash_rounds_at_least_one(m: nat, n: nat)
    ensures
        1 <= hash_rounds_for(m, n) <= u32::MAX,
{
}

/// The number of hash rounds that minimises the false-positive rate of a
/// filter of `m` bits holding `n` items: `max(1, ceil(m / n * ln 2))`.
///
/// The result is never below 1. A result beyond `u32::MAX` is held at
/// `u32::MAX`; `n == 0` is treated as "no items expected" and gives 1.
pub fn optimal_hash_functions(m: u64, n: u64) -> (r: u32)
    ensures
        r as nat == hash_rounds_for(m as nat, n as nat),
        r >= 1,
{
    if n == 0 {
        return 1;
    }
    proof {
        assert(m as nat * LN2_NUM <= u64::MAX as nat * LN2_NUM) by (nonlinear_arith)
            requires m <= u64::MAX;
        assert(n as nat * LN2_DEN <= u64::MAX as nat * LN2_DEN) by (nonlinear_arith)
            requires n <= u64::MAX;
        assert(n as nat * LN2_DEN >= LN2_DEN) by (nonlinear_arith)
            requires n >= 1;
    }
    let num: u128 = m as u128 * LN2_NUM;
    let den: u128 = n as u128 * LN2_DEN;
    let c: u128 = (num + den - 1) / den;
    if c < 1 {
        1
    } else if c > u32::MAX as u128 {
        u32::MAX
    } else {
        c as u32
    }
}

} // verus!
