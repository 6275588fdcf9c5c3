//! Exact integer helpers for the field evaluator: floor division of a signed
//! coordinate by a positive cell size, and the floor of a square root.

use vstd::arithmetic::div_mod::{
    lemma_fundamental_div_mod, lemma_fundamental_div_mod_converse,
    lemma_mod_division_less_than_divisor,
};
use vstd::prelude::*;

verus! {

/// The floor of the square root of `n`, as a total spec function:
/// the largest `r` with `r * r <= n` (and `0` for negative `n`).
pub open spec fn spec_isqrt(n: int) -> int
    decreases n,
{
    if n <= 0 {
        0
    } else {
        let r = spec_isqrt(n - 1);
        if (r + 1) * (r + 1) <= n {
            r + 1
        } else {
            r
        }
    }
}

/// `spec_isqrt(n)` is the floor of the square root: it is non-negative,
/// its square is at most `n`, and the next square is beyond `n`.
pub proof fn lemma_isqrt_bounds(n: int)
    requires
        n >= 0,
    ensures
        0 <= spec_isqrt(n),
        spec_isqrt(n) * spec_isqrt(n) <= n,
        n < (spec_isqrt(n) + 1) * (spec_isqrt(n) + 1),
    decreases n,
{
    if n == 0 {
    } else {
        lemma_isqrt_bounds(n - 1);
        let r = spec_isqrt(n - 1);
        if (r + 1) * (r + 1) <= n {
            assert(n < (r + 2) * (r + 2)) by (nonlinear_arith)
                requires
                    r >= 0,
                    n - 1 < (r + 1) * (r + 1),
            ;
        }
    }
}

/// A floor square root is never negative, whatever its argument.
pub proof fn lemma_isqrt_nonneg(n: int)
    ensures
        spec_isqrt(n) >= 0,
{
    if n > 0 {
        lemma_isqrt_bounds(n);
    }
}

/// Any `r` whose square brackets `n` the way a floor square root does
/// is `spec_isqrt(n)`: the characterisation pins a unique value.
pub proof fn lemma_isqrt_unique(n: int, r: int)
    requires
        n >= 0,
        r >= 0,
        r * r <= n,
        n < (r + 1) * (r + 1),
    ensures
        r == spec_isqrt(n),
{
    lemma_isqrt_bounds(n);
    let s = spec_isqrt(n);
    assert(r == s) by (nonlinear_arith)
        requires
            r >= 0,
            s >= 0,
            r * r <= n,
            n < (r + 1) * (r + 1),
            s * s <= n,
            n < (s + 1) * (s + 1),
    ;
}

/// Floor of the square root of `n`, by bisection.
pub fn isqrt_u128(n: u128) -> (r: u64)
    requires
        n < 0x4000_0000_0000_0000_0000_0000_0000_0000u128,
    ensures
        r == spec_isqrt(n as int),
{
    let mut lo: u64 = 0;
    let mut hi: u64 = 0x7fff_ffff_ffff_ffffu64;
    proof {
        assert((hi as int + 1) * (hi as int + 1) > n as int) by (nonlinear_arith)
            requires
                hi == 0x7fff_ffff_ffff_ffffu64,
                n < 0x4000_0000_0000_0000_0000_0000_0000_0000u128,
        ;
    }
    while lo < hi
        invariant
            lo <= hi,
            hi <= 0x7fff_ffff_ffff_ffffu64,
            (lo as int) * (lo as int) <= n as int,
            (n as int) < (hi as int + 1) * (hi as int + 1),
        decreases hi - lo,
    {
        let half: u64 = (hi - lo + 1) / 2;
        let mid: u64 = lo + half;
        proof {
            assert((mid as int) * (mid as int) < 0x1_0000_0000_0000_0000_0000_0000_0000_0000int)
                by (nonlinear_arith)
                requires
                    mid <= 0x7fff_ffff_ffff_ffffu64,
            ;
        }
        let sq: u128 = (mid as u128) * (mid as u128);
        if sq <= n {
            lo = mid;
        } else {
            hi = mid - 1;
        }
    }
    proof {
        lemma_isqrt_unique(n as int, lo as int);
    }
    lo
}

/// Floor division of a signed coordinate by a positive cell size:
/// the mathematical (Euclidean) quotient, rounding toward minus infinity.
pub fn floor_div(s: i64, c: i64) -> (q: i64)
    requires
        c > 0,
        s > i64::MIN,
    ensures
        q == s as int / c as int,
        c * q <= s < c * (q + 1),
{
    if s >= 0 {
        let qu: u64 = (s as u64) / (c as u64);
        proof {
            lemma_fundamental_div_mod(s as int, c as int);
            lemma_mod_division_less_than_divisor(s as int, c as int);
            assert(qu as int == s as int / c as int);
            assert(c * (qu as int) <= s < c * ((qu as int) + 1)) by (nonlinear_arith)
                requires
                    c > 0,
                    s == c * ((s as int) / (c as int)) + (s as int) % (c as int),
                    0 <= (s as int) % (c as int) < c,
                    (qu as int) == (s as int) / (c as int),
            ;
        }
        qu as i64
    } else {
        let a: i64 = -s;
        let num: u64 = (a as u64) + (c as u64) - 1;
        let qm: u64 = num / (c as u64);
        proof {
            lemma_fundamental_div_mod(num as int, c as int);
            lemma_mod_division_less_than_divisor(num as int, c as int);
            // c * qm lands in [a, a + c), so -qm is the floor quotient of s = -a.
            assert(a <= c * (qm as int) < a + c) by (nonlinear_arith)
                requires
                    c > 0,
                    num == a + c - 1,
                    (num as int) == c * ((num as int) / (c as int)) + (num as int) % (c as int),
                    0 <= (num as int) % (c as int) < c,
                    (qm as int) == (num as int) / (c as int),
            ;
            assert((qm as int) <= (a as int)) by (nonlinear_arith)
                requires
                    c > 0,
                    a >= 1,
                    a <= c * (qm as int),
                    c * (qm as int) < a + c,
                    qm >= 0,
            ;
            let q: int = -(qm as int);
            let r: int = s - q * c;
            assert(0 <= r < c) by (nonlinear_arith)
                requires
                    s == -(a as int),
                    q == -(qm as int),
                    r == s - q * c,
                    a <= c * (qm as int) < a + c,
            ;
            lemma_fundamental_div_mod_converse(s as int, c as int, q, r);
            assert(c * q <= s < c * (q + 1)) by (nonlinear_arith)
                requires
                    r == s - q * c,
                    0 <= r < c,
            ;
        }
        -(qm as i64)
    }
}

} // verus!
