//! Exact ratio arithmetic on 128-bit balances.
//!
//! The liquidity formulas need `floor(a * b / c)` and `ceil(a * b / c)` where
//! each operand is a full `u128`; the product can take 256 bits. The product
//! is held in two 128-bit halves and divided by binary search on the
//! quotient, so the results are exact wherever they fit and saturate at
//! `u128::MAX` where they do not.

use vstd::arithmetic::div_mod::{
    lemma_div_is_ordered, lemma_div_multiples_vanish, lemma_fundamental_div_mod,
};
use vstd::arithmetic::mul::{lemma_mul_inequality, lemma_mul_upper_bound};
use vstd::prelude::*;

verus! {

/// One past the largest 64-bit value; the base of the limbs below.
pub const HALF_BASE: u128 = 0x10000000000000000;

/// The value of a 256-bit quantity held as a high and a low 128-bit half.
pub open spec fn wide_value(hi: u128, lo: u128) -> int {
    hi * 0x100000000000000000000000000000000int + lo
}

/// `x` clamped from above to the largest 128-bit value.
pub open spec fn sat_u128(x: int) -> int {
    if x > u128::MAX {
        u128::MAX as int
    } else {
        x
    }
}

/// Division of non-negative integers rounded towards positive infinity.
pub open spec fn div_ceil(n: int, d: int) -> int {
    if n % d == 0 {
        n / d
    } else {
        n / d + 1
    }
}

/// `x * d <= n` exactly when `x <= n / d`, for a positive divisor.
pub proof fn lemma_mul_le_iff_le_div(x: int, n: int, d: int)
    requires
        d > 0,
        n >= 0,
        x >= 0,
    ensures
        x * d <= n <==> x <= n / d,
{
    lemma_fundamental_div_mod(n, d);
    vstd::arithmetic::div_mod::lemma_mod_bound(n, d);
    if x <= n / d {
        lemma_mul_inequality(x, n / d, d);
        assert(x * d <= (n / d) * d);
        assert((n / d) * d == d * (n / d)) by (nonlinear_arith);
        assert(x * d <= n);
    }
    if x * d <= n && x > n / d {
        lemma_mul_inequality(n / d + 1, x, d);
        assert((n / d + 1) * d == d * (n / d) + d) by (nonlinear_arith);
        assert(false);
    }
}

/// The full product of two 128-bit values, as a high and a low half.
pub fn mul_wide(a: u128, b: u128) -> (r: (u128, u128))
    ensures
        wide_value(r.0, r.1) == a * b,
{
    let ah = a / HALF_BASE;
    let al = a % HALF_BASE;
    let bh = b / HALF_BASE;
    let bl = b % HALF_BASE;
    proof {
        lemma_fundamental_div_mod(a as int, HALF_BASE as int);
        lemma_fundamental_div_mod(b as int, HALF_BASE as int);
        assert(ah < HALF_BASE) by (nonlinear_arith)
            requires
                ah == a / HALF_BASE,
                a <= u128::MAX,
        ;
        assert(bh < HALF_BASE) by (nonlinear_arith)
            requires
                bh == b / HALF_BASE,
                b <= u128::MAX,
        ;
        lemma_mul_upper_bound(ah as int, (HALF_BASE - 1) as int, bh as int, (HALF_BASE - 1) as int);
        lemma_mul_upper_bound(ah as int, (HALF_BASE - 1) as int, bl as int, (HALF_BASE - 1) as int);
        lemma_mul_upper_bound(al as int, (HALF_BASE - 1) as int, bh as int, (HALF_BASE - 1) as int);
        lemma_mul_upper_bound(al as int, (HALF_BASE - 1) as int, bl as int, (HALF_BASE - 1) as int);
    }
    let p0 = al * bl;
    let p1 = al * bh;
    let p2 = ah * bl;
    let p3 = ah * bh;
    let m1 = p2 + p0 / HALF_BASE;
    let m2 = p1 + m1 % HALF_BASE;
    let hi = p3 + m1 / HALF_BASE + m2 / HALF_BASE;
    let lo = (m2 % HALF_BASE) * HALF_BASE + p0 % HALF_BASE;
    proof {
        let p = HALF_BASE as int;
        lemma_fundamental_div_mod(p0 as int, p);
        lemma_fundamental_div_mod(m1 as int, p);
        lemma_fundamental_div_mod(m2 as int, p);
        assert(wide_value(hi, lo) == a * b) by (nonlinear_arith)
            requires
                p == HALF_BASE as int,
                a == ah * p + al,
                b == bh * p + bl,
                p0 == al * bl,
                p1 == al * bh,
                p2 == ah * bl,
                p3 == ah * bh,
                m1 == p2 + p0 as int / p,
                m2 == p1 + m1 as int % p,
                p0 == p * (p0 as int / p) + p0 as int % p,
                m1 == p * (m1 as int / p) + m1 as int % p,
                m2 == p * (m2 as int / p) + m2 as int % p,
                hi == p3 + m1 as int / p + m2 as int / p,
                lo == (m2 as int % p) * p + p0 as int % p,
                wide_value(hi, lo) == hi * (p * p) + lo,
        ;
    }
    (hi, lo)
}

/// Whether the 256-bit value `(h1, l1)` is at most `(h2, l2)`.
fn wide_le(h1: u128, l1: u128, h2: u128, l2: u128) -> (r: bool)
    ensures
        r <==> wide_value(h1, l1) <= wide_value(h2, l2),
{
    h1 < h2 || (h1 == h2 && l1 <= l2)
}

/// The quotient of a 256-bit value by a 128-bit divisor, found by binary
/// search on the quotient; the caller guarantees that it fits in 128 bits.
fn div_wide(nh: u128, nl: u128, d: u128) -> (q: u128)
    requires
        d > 0,
        nh < d,
    ensures
        q == wide_value(nh, nl) / (d as int),
{
    let ghost n = wide_value(nh, nl);
    let ghost quot = n / (d as int);
    proof {
        lemma_fundamental_div_mod(n, d as int);
        // n < d * 2^128, so the quotient is below 2^128.
        assert(n < d * 0x100000000000000000000000000000000int) by (nonlinear_arith)
            requires
                n == nh * 0x100000000000000000000000000000000int + nl,
                nh < d,
                nl <= u128::MAX,
        ;
        assert(quot <= u128::MAX) by (nonlinear_arith)
            requires
                quot == n / (d as int),
                d > 0,
                n >= 0,
                n == d * quot + n % (d as int),
                0 <= n % (d as int),
                n < d * 0x100000000000000000000000000000000int,
        ;
        assert(quot >= 0) by {
            lemma_div_is_ordered(0, n, d as int);
        }
    }
    let mut low: u128 = 0;
    let mut high: u128 = u128::MAX;
    while low < high
        invariant
            d > 0,
            low <= high,
            n == wide_value(nh, nl),
            quot == n / (d as int),
            low <= quot <= high,
        decreases high - low,
    {
        let mid = low + (high - low) / 2 + 1;
        let (th, tl) = mul_wide(mid, d);
        if wide_le(th, tl, nh, nl) {
            proof {
                lemma_mul_le_iff_le_div(mid as int, n, d as int);
            }
            low = mid;
        } else {
            proof {
                lemma_mul_le_iff_le_div(mid as int, n, d as int);
            }
            high = mid - 1;
        }
    }
    low
}

/// `floor(a * b / c)`, exact wherever the quotient fits in 128 bits and
/// saturated at `u128::MAX` otherwise.
pub fn mul_div_floor(a: u128, b: u128, c: u128) -> (r: u128)
    requires
        c > 0,
    ensures
        r == sat_u128((a * b) / (c as int)),
{
    let (abh, abl) = mul_wide(a, b);
    let ghost n = wide_value(abh, abl);
    if abh >= c {
        proof {
            assert(n >= c * 0x100000000000000000000000000000000int) by (nonlinear_arith)
                requires
                    n == abh * 0x100000000000000000000000000000000int + abl,
                    abh >= c,
                    abl >= 0,
            ;
            lemma_div_multiples_vanish(0x100000000000000000000000000000000int, c as int);
            lemma_div_is_ordered(c * 0x100000000000000000000000000000000int, n, c as int);
            assert((c * 0x100000000000000000000000000000000int) as int == (c as int)
                * 0x100000000000000000000000000000000int);
        }
        u128::MAX
    } else {
        let q = div_wide(abh, abl, c);
        q
    }
}

/// `ceil(a * b / c)`, exact wherever the quotient fits in 128 bits and
/// saturated at `u128::MAX` otherwise.
pub fn mul_div_ceil(a: u128, b: u128, c: u128) -> (r: u128)
    requires
        c > 0,
    ensures
        r == sat_u128(div_ceil(a * b, c as int)),
{
    let (abh, abl) = mul_wide(a, b);
    let ghost n = wide_value(abh, abl);
    proof {
        lemma_fundamental_div_mod(n, c as int);
    }
    if abh >= c {
        proof {
            assert(n >= c * 0x100000000000000000000000000000000int) by (nonlinear_arith)
                requires
                    n == abh * 0x100000000000000000000000000000000int + abl,
                    abh >= c,
                    abl >= 0,
            ;
            lemma_div_multiples_vanish(0x100000000000000000000000000000000int, c as int);
            lemma_div_is_ordered(c * 0x100000000000000000000000000000000int, n, c as int);
            assert((c * 0x100000000000000000000000000000000int) as int == (c as int)
                * 0x100000000000000000000000000000000int);
        }
        u128::MAX
    } else {
        let q = div_wide(abh, abl, c);
        let (qh, ql) = mul_wide(q, c);
        if qh == abh && ql == abl {
            // The division was exact.
            assert(n % (c as int) == 0) by {
                assert(n == (n / (c as int)) * (c as int));
                vstd::arithmetic::div_mod::lemma_mod_multiples_basic(n / (c as int), c as int);
            }
            q
        } else {
            assert(n % (c as int) != 0) by {
                if n % (c as int) == 0 {
                    assert(wide_value(qh, ql) == (n / (c as int)) * (c as int));
                    assert(wide_value(qh, ql) == n);
                    lemma_wide_value_injective(qh, ql, abh, abl);
                }
            }
            if q == u128::MAX {
                u128::MAX
            } else {
                q + 1
            }
        }
    }
}

/// Two high/low pairs with the same 256-bit value are the same pair.
proof fn lemma_wide_value_injective(h1: u128, l1: u128, h2: u128, l2: u128)
    requires
        wide_value(h1, l1) == wide_value(h2, l2),
    ensures
        h1 == h2 && l1 == l2,
{
    assert(h1 == h2 && l1 == l2) by (nonlinear_arith)
        requires
            h1 * 0x100000000000000000000000000000000int + l1 == h2
                * 0x100000000000000000000000000000000int + l2,
            l1 <= u128::MAX,
            l2 <= u128::MAX,
            h1 <= u128::MAX,
            h2 <= u128::MAX,
    ;
}

} // verus!
