//! Integer geometry helpers: squared Euclidean distance and an integer
//! square root, the primitives behind targeting and movement.

use vstd::prelude::*;

verus! {

/// Squared Euclidean distance between two points, as a mathematical integer.
pub open spec fn dist2(ax: int, ay: int, bx: int, by: int) -> int {
    (ax - bx) * (ax - bx) + (ay - by) * (ay - by)
}

/// The integer square root: the greatest `r` with `r * r <= n`.
pub open spec fn is_isqrt(n: int, r: int) -> bool {
    &&& 0 <= r
    &&& r * r <= n
    &&& n < (r + 1) * (r + 1)
}

pub proof fn lemma_isqrt_unique(n: int, r1: int, r2: int)
    requires
        is_isqrt(n, r1),
        is_isqrt(n, r2),
    ensures
        r1 == r2,
{
    if r1 < r2 {
        assert((r1 + 1) * (r1 + 1) <= r2 * r2) by (nonlinear_arith)
            requires 0 <= r1, 0 <= r2, r1 < r2;
    }
    if r2 < r1 {
        assert((r2 + 1) * (r2 + 1) <= r1 * r1) by (nonlinear_arith)
            requires 0 <= r1, 0 <= r2, r2 < r1;
    }
}

/// The floor of the square root of `n`.
pub open spec fn sqrt_floor(n: int) -> int {
    choose|r: int| is_isqrt(n, r)
}

pub proof fn lemma_sqrt_floor_exists(n: int)
    requires
        n >= 0,
    ensures
        is_isqrt(n, sqrt_floor(n)),
    decreases n,
{
    if n == 0 {
        assert(is_isqrt(0, 0));
    } else {
        lemma_sqrt_floor_exists(n - 1);
        let r = sqrt_floor(n - 1);
        if n < (r + 1) * (r + 1) {
            assert(is_isqrt(n, r));
        } else {
            assert((r + 1) * (r + 1) < (r + 2) * (r + 2)) by (nonlinear_arith)
                requires
                    0 <= r,
            ;
            assert(is_isqrt(n, r + 1));
        }
    }
}

/// Integer square root of `n`, by binary search.
pub fn isqrt(n: u64) -> (r: u64)
    ensures
        is_isqrt(n as int, r as int),
        r as int == sqrt_floor(n as int),
{
    let mut lo: u64 = 0;
    let mut hi: u64 = 0x1_0000_0000;
    // Invariant: lo * lo <= n < hi * hi, lo < hi.
    while lo + 1 < hi
        invariant
            lo < hi <= 0x1_0000_0000u64,
            (lo * lo) as int <= n as int,
            n < (hi as int) * (hi as int),
        decreases hi - lo,
    {
        let mid: u64 = lo + (hi - lo) / 2;
        proof {
            assert((mid as int) * (mid as int) <= 0x1_0000_0000int * 0x1_0000_0000int)
                by (nonlinear_arith)
                requires 0 <= mid as int <= 0x1_0000_0000int;
        }
        let sq: u128 = (mid as u128) * (mid as u128);
        if sq <= n as u128 {
            lo = mid;
        } else {
            hi = mid;
        }
    }
    proof {
        lemma_sqrt_floor_exists(n as int);
        lemma_isqrt_unique(n as int, lo as int, sqrt_floor(n as int));
    }
    lo
}

} // verus!
