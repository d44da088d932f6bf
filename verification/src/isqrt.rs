//! Integer square roots: the mathematical floor of a square root, and a
//! verified executable computation of it. Distances in the engine are floors
//! of Euclidean norms, so everything geometric rests on this module.

use vstd::prelude::*;

verus! {

/// The floor of the square root of `n`: the unique `r >= 0` with
/// `r * r <= n < (r + 1) * (r + 1)`. Meaningful for `n >= 0`.
pub open spec fn sqrt_floor(n: int) -> int {
    choose|r: int| 0 <= r && #[trigger] (r * r) <= n && n < (r + 1) * (r + 1)
}

/// For every `n >= 0` a floor square root exists, so `sqrt_floor(n)`
/// really satisfies its defining inequalities.
pub proof fn lemma_sqrt_floor_def(n: int)
    requires
        0 <= n,
    ensures
        0 <= sqrt_floor(n),
        sqrt_floor(n) * sqrt_floor(n) <= n,
        n < (sqrt_floor(n) + 1) * (sqrt_floor(n) + 1),
    decreases n,
{
    if n == 0 {
        assert(0 <= 0 && 0 * 0 <= n && n < (0 + 1) * (0 + 1));
    } else {
        lemma_sqrt_floor_def(n - 1);
        let p = sqrt_floor(n - 1);
        if n < (p + 1) * (p + 1) {
            assert(0 <= p && p * p <= n && n < (p + 1) * (p + 1));
        } else {
            // n - 1 < (p + 1) * (p + 1) <= n forces n == (p + 1) * (p + 1).
            assert((p + 1) * (p + 1) <= n);
            assert(n == (p + 1) * (p + 1));
            assert(n < (p + 2) * (p + 2)) by (nonlinear_arith)
                requires
                    0 <= p,
                    n == (p + 1) * (p + 1),
            ;
            assert(0 <= p + 1 && (p + 1) * (p + 1) <= n && n < (p + 2) * (p + 2));
        }
    }
}

/// The defining inequalities pin the floor square root down: any `r`
/// satisfying them equals `sqrt_floor(n)`.
pub proof fn lemma_sqrt_floor_unique(n: int, r: int)
    requires
        0 <= r,
        r * r <= n,
        n < (r + 1) * (r + 1),
    ensures
        sqrt_floor(n) == r,
{
    lemma_sqrt_floor_def(n);
    let s = sqrt_floor(n);
    if s < r {
        assert((s + 1) * (s + 1) <= r * r) by (nonlinear_arith)
            requires
                0 <= s,
                s + 1 <= r,
        ;
    } else if r < s {
        assert((r + 1) * (r + 1) <= s * s) by (nonlinear_arith)
            requires
                0 <= r,
                r + 1 <= s,
        ;
    }
}

/// Floor square root of `n`, by binary search on the answer.
pub fn isqrt_u128(n: u128) -> (r: u128)
    ensures
        r == sqrt_floor(n as int),
        r * r <= n,
        (n as int) < (r + 1) * (r + 1),
{
    let mut lo: u128 = 0;
    let mut hi: u128 = 0x1_0000_0000_0000_0000;
    assert((hi as int) * (hi as int) > n as int) by (nonlinear_arith)
        requires
            hi == 0x1_0000_0000_0000_0000u128,
            n <= u128::MAX,
    ;
    while lo + 1 < hi
        invariant
            lo < hi <= 0x1_0000_0000_0000_0000u128,
            (lo as int) * (lo as int) <= n as int,
            (n as int) < (hi as int) * (hi as int),
        decreases hi - lo,
    {
        let mid = lo + (hi - lo) / 2;
        assert((mid as int) * (mid as int) <= u128::MAX) by (nonlinear_arith)
            requires
                mid < 0x1_0000_0000_0000_0000u128,
        ;
        if mid * mid <= n {
            lo = mid;
        } else {
            hi = mid;
        }
    }
    proof {
        lemma_sqrt_floor_unique(n as int, lo as int);
    }
    lo
}

} // verus!
