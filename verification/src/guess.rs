//! The guess of the side of the canvas: the side of a square that has the
//! area of all sprites, rounded up to a power of two, and halved.
//!
//! The guess decides how many canvases are tried, not what is found.

use vstd::prelude::*;
use vstd::arithmetic::power2::{lemma2_to64, lemma2_to64_rest, lemma_pow2_pos, lemma_pow2_unfold, pow2};

verus! {

/// `r` is the least number whose square is at least `a`.
pub open spec fn is_ceil_sqrt(a: int, r: int) -> bool {
    &&& r >= 0
    &&& r * r >= a
    &&& r > 0 ==> (r - 1) * (r - 1) < a
}

/// The square root of `a`, rounded up.
pub open spec fn ceil_sqrt(a: int) -> int {
    choose|r: int| is_ceil_sqrt(a, r)
}

/// `p` is one of 1, 2, 4, 8, ...
pub open spec fn is_power_of_two(p: int) -> bool
    decreases p,
{
    p == 1 || (p > 1 && p % 2 == 0 && is_power_of_two(p / 2))
}

/// The first of `p`, `2p`, `4p`, ... that is at least `n`.
pub open spec fn doubled_until(p: int, n: int) -> int
    decreases
            (if p < n {
                n - p
            } else {
                0
            }),
{
    if p >= n || p <= 0 {
        p
    } else {
        doubled_until(2 * p, n)
    }
}

/// The least power of two that is at least `n`.
pub open spec fn next_power_of_two(n: int) -> int {
    doubled_until(1, n)
}

/// The side of the canvas to try first for sprites of the given area: the
/// side of the square of that area, rounded up to a power of two, and
/// halved. Areas beyond `u64::MAX` count as `u64::MAX`.
pub open spec fn side_len_guess(area: int) -> int {
    let capped = if area > u64::MAX {
        u64::MAX as int
    } else {
        area
    };
    next_power_of_two(ceil_sqrt(capped)) / 2
}

/// The square root rounded up is the only number that is one.
pub proof fn lemma_ceil_sqrt_unique(a: int, r: int)
    requires
        is_ceil_sqrt(a, r),
    ensures
        ceil_sqrt(a) == r,
{
    let c = ceil_sqrt(a);
    assert(is_ceil_sqrt(a, c));
    if c < r {
        assert(c * c <= (r - 1) * (r - 1)) by (nonlinear_arith)
            requires
                0 <= c <= r - 1,
        ;
    } else if r < c {
        assert(r * r <= (c - 1) * (c - 1)) by (nonlinear_arith)
            requires
                0 <= r <= c - 1,
        ;
    }
}

proof fn lemma_power_of_two_positive(p: int)
    requires
        is_power_of_two(p),
    ensures
        p >= 1,
    decreases p,
{
    if p != 1 {
        lemma_power_of_two_positive(p / 2);
    }
}

/// Doubling a power of two until it reaches `n` gives the least power of
/// two that is at least `n` and at least the one that was started with.
pub proof fn lemma_doubled_until(p: int, n: int)
    requires
        is_power_of_two(p),
    ensures
        is_power_of_two(doubled_until(p, n)),
        doubled_until(p, n) >= n,
        doubled_until(p, n) >= p,
        doubled_until(p, n) > p ==> doubled_until(p, n) / 2 < n,
    decreases
            (if p < n {
                n - p
            } else {
                0
            }),
{
    lemma_power_of_two_positive(p);
    if p < n {
        assert(is_power_of_two(2 * p)) by {
            assert((2 * p) / 2 == p);
        }
        lemma_doubled_until(2 * p, n);
    }
}

/// The least power of two that is at least `n` is a power of two, is at
/// least `n`, and half of it is less than `n` unless it is one.
pub proof fn lemma_next_power_of_two(n: int)
    ensures
        is_power_of_two(next_power_of_two(n)),
        next_power_of_two(n) >= n,
        next_power_of_two(n) > 1 ==> next_power_of_two(n) / 2 < n,
{
    lemma_doubled_until(1, n);
}

/// Twice a power of two is a power of two, and no power of two lies
/// strictly between them.
proof fn lemma_power_step(p: int)
    requires
        is_power_of_two(p),
    ensures
        is_power_of_two(2 * p),
        (2 * p) / 2 == p,
        p < 0x8000_0000_0000_0000 ==> 2 * p <= 0x8000_0000_0000_0000,
    decreases p,
{
    assert((2 * p) / 2 == p);
    lemma_power_of_two_positive(p);
    lemma2_to64_rest();
    if p < 0x8000_0000_0000_0000 {
        lemma_power_of_two_below_limit(p, 63);
    }
}

/// A power of two below `2^e` is at most `2^(e-1)`.
proof fn lemma_power_of_two_below_limit(p: int, e: nat)
    requires
        is_power_of_two(p),
        p < pow2(e),
        e >= 1,
    ensures
        2 * p <= pow2(e),
    decreases e,
{
    lemma2_to64();
    lemma2_to64_rest();
    lemma_pow2_unfold(e);
    if p == 1 {
        lemma_pow2_pos((e - 1) as nat);
    } else {
        if e == 1 {
            assert(pow2(1) == 2);
        } else {
            lemma_power_of_two_below_limit(p / 2, (e - 1) as nat);
        }
    }
}

/// A power of two that is less than twice a number up to `2^e` is at most
/// `2^e`.
proof fn lemma_power_of_two_at_most(p: int, n: int, e: nat)
    requires
        is_power_of_two(p),
        p > 1 ==> p / 2 < n,
        n <= pow2(e),
    ensures
        p <= pow2(e),
        e == 32 ==> p / 2 <= 0x8000_0000,
    decreases e,
{
    lemma2_to64();
    lemma_power_of_two_positive(p);
    lemma_pow2_pos(e);
    if p > 1 {
        if e == 0 {
            assert(pow2(0) == 1);
        } else {
            lemma_pow2_unfold(e);
            if p / 2 > 1 {
                lemma_power_of_two_at_most(p / 2, (n + 1) / 2, (e - 1) as nat);
            } else {
                lemma_pow2_pos((e - 1) as nat);
            }
        }
    }
}

/// The square root of `a`, rounded up.
pub fn ceil_sqrt_u64(a: u64) -> (r: u64)
    ensures
        r == ceil_sqrt(a as int),
        r <= 0x1_0000_0000,
{
    if a == 0 {
        proof {
            lemma_ceil_sqrt_unique(0, 0);
        }
        return 0;
    }
    let mut lo: u64 = 0;
    let mut hi: u64 = 0x1_0000_0000;
    assert(hi * hi >= a) by (nonlinear_arith)
        requires
            hi == 0x1_0000_0000,
            a <= u64::MAX,
    ;
    while hi - lo > 1
        invariant
            lo < hi <= 0x1_0000_0000,
            lo * lo < a,
            hi * hi >= a,
        decreases hi - lo,
    {
        let mid: u64 = lo + (hi - lo) / 2;
        assert(mid * mid <= 0xFFFF_FFFF * 0xFFFF_FFFF) by (nonlinear_arith)
            requires
                0 <= mid <= 0xFFFF_FFFF,
        ;
        if mid * mid >= a {
            hi = mid;
        } else {
            lo = mid;
        }
    }
    proof {
        lemma_ceil_sqrt_unique(a as int, hi as int);
    }
    hi
}

/// The least power of two that is at least `n`.
pub fn next_power_of_two_u64(n: u64) -> (p: u64)
    requires
        n <= 0x8000_0000_0000_0000,
    ensures
        p == next_power_of_two(n as int),
        is_power_of_two(p as int),
        p >= n,
        p > 1 ==> p / 2 < n,
{
    let mut p: u64 = 1;
    while p < n
        invariant
            1 <= p <= 0x8000_0000_0000_0000,
            n <= 0x8000_0000_0000_0000,
            is_power_of_two(p as int),
            doubled_until(p as int, n as int) == doubled_until(1, n as int),
            p > 1 ==> p / 2 < n,
        decreases
                (if p < n {
                    n - p
                } else {
                    0
                }),
    {
        proof {
            lemma_power_step(p as int);
        }
        p = p * 2;
    }
    p
}

/// The side of the canvas to try first for sprites of the given area.
pub fn guess_side_len(area: u64) -> (side: u32)
    ensures
        side == side_len_guess(area as int),
{
    let root: u64 = ceil_sqrt_u64(area);
    let power: u64 = next_power_of_two_u64(root);
    proof {
        lemma2_to64();
        lemma_power_of_two_at_most(power as int, root as int, 32);
    }
    (power / 2) as u32
}

} // verus!
