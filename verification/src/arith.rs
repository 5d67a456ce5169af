//! Integer helpers shared by the evaluators: division toward zero, the
//! ceiling of a square root, and the bounds that keep wide products in range.

use vstd::prelude::*;

verus! {

/// The absolute value of `v`.
pub open spec fn magnitude(v: int) -> int {
    if v < 0 {
        -v
    } else {
        v
    }
}

/// `n / d` rounded toward zero, for a positive `d`.
pub open spec fn trunc_div(n: int, d: int) -> int {
    if n >= 0 {
        n / d
    } else {
        -((-n) / d)
    }
}

/// `v` held to the range from `lo` to `hi`.
pub open spec fn clamp_to(v: int, lo: int, hi: int) -> int {
    if v < lo {
        lo
    } else if v > hi {
        hi
    } else {
        v
    }
}

/// `r` is the least natural number whose square reaches `n`.
pub open spec fn is_sqrt_ceil(n: int, r: int) -> bool {
    &&& r >= 0
    &&& r * r >= n
    &&& (r == 0 || (r - 1) * (r - 1) < n)
}

/// The least natural number whose square reaches `n`.
pub open spec fn sqrt_ceil(n: int) -> int {
    choose|r: int| is_sqrt_ceil(n, r)
}

/// Squaring keeps the order of natural numbers.
pub proof fn lemma_square_le(a: int, b: int)
    by (nonlinear_arith)
    requires
        0 <= a <= b,
    ensures
        a * a <= b * b,
{
}

/// Every number has a least natural number whose square reaches it.
pub proof fn lemma_sqrt_ceil_exists(n: int)
    ensures
        is_sqrt_ceil(n, sqrt_ceil(n)),
    decreases n,
{
    if n <= 0 {
        assert(is_sqrt_ceil(n, 0));
    } else {
        lemma_sqrt_ceil_exists(n - 1);
        let r = sqrt_ceil(n - 1);
        if r * r >= n {
            assert(is_sqrt_ceil(n, r));
        } else {
            assert(r * r == n - 1);
            assert((r + 1) * (r + 1) >= n) by (nonlinear_arith)
                requires
                    r * r == n - 1,
                    r >= 0,
            ;
            assert(is_sqrt_ceil(n, r + 1));
        }
    }
}

/// There is one least root only, so `sqrt_ceil` names it.
pub proof fn lemma_sqrt_ceil_unique(n: int, r: int)
    requires
        is_sqrt_ceil(n, r),
    ensures
        sqrt_ceil(n) == r,
{
    let c = sqrt_ceil(n);
    assert(is_sqrt_ceil(n, c));
    if c < r {
        lemma_square_le(c, r - 1);
    } else if r < c {
        lemma_square_le(r, c - 1);
    }
}

/// The product of two bounded natural numbers is bounded by the product of
/// the bounds.
pub proof fn lemma_mul_bound(a: int, b: int, x: int, y: int)
    by (nonlinear_arith)
    requires
        0 <= a <= x,
        0 <= b <= y,
    ensures
        0 <= a * b <= x * y,
{
}

/// The product of two numbers bounded in magnitude is bounded in magnitude
/// by the product of the bounds.
pub proof fn lemma_mul_bound_signed(a: int, b: int, x: int, y: int)
    by (nonlinear_arith)
    requires
        -x <= a <= x,
        -y <= b <= y,
    ensures
        -(x * y) <= a * b <= x * y,
{
}

/// Division toward zero by a positive number does not grow a magnitude, and
/// keeps the sign.
pub proof fn lemma_trunc_div_bound(n: int, d: int)
    requires
        d > 0,
    ensures
        n >= 0 ==> 0 <= trunc_div(n, d) <= n,
        n <= 0 ==> n <= trunc_div(n, d) <= 0,
{
    if n >= 0 {
        assert(0 <= n / d <= n) by (nonlinear_arith)
            requires
                n >= 0,
                d > 0,
        ;
    } else {
        let k = -n;
        assert(0 <= k / d <= k) by (nonlinear_arith)
            requires
                k >= 0,
                d > 0,
        ;
    }
}

/// The least natural number whose square reaches `n`.
pub fn ceil_sqrt(n: u128) -> (r: u64)
    requires
        n <= 0x4_0000_0000_0000_0000,
    ensures
        r == sqrt_ceil(n as int),
        is_sqrt_ceil(n as int, r as int),
        r <= 0x2_0000_0000,
{
    let mut lo: u64 = 0;
    let mut hi: u64 = 0x2_0000_0000;
    while lo < hi
        invariant
            lo <= hi <= 0x2_0000_0000,
            hi * hi >= n,
            lo == 0 || (lo - 1) * (lo - 1) < n,
        decreases hi - lo,
    {
        let mid: u64 = lo + (hi - lo) / 2;
        proof {
            lemma_mul_bound(mid as int, mid as int, 0x2_0000_0000, 0x2_0000_0000);
        }
        let sq: u128 = (mid as u128) * (mid as u128);
        if sq >= n {
            hi = mid;
        } else {
            lo = mid + 1;
        }
    }
    proof {
        lemma_sqrt_ceil_unique(n as int, lo as int);
    }
    lo
}

} // verus!
