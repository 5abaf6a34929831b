//! Exact results of single-precision arithmetic on positive numbers that are
//! neither too small nor too large for the format's normal range.

use vstd::arithmetic::div_mod::lemma_fundamental_div_mod;
use vstd::arithmetic::power2::{lemma2_to64, lemma_pow2_unfold, pow2};
use vstd::prelude::*;

verus! {

/// The integer nearest to `n / d`, the even one of two equally near.
pub open spec fn nearest(n: nat, d: nat) -> nat {
    let q = n / d;
    let r = n % d;
    if 2 * r < d || (2 * r == d && q % 2 == 0) {
        q
    } else {
        q + 1
    }
}

/// The fraction with 24 significant bits that is nearest to `n / d`, as a
/// numerator and a denominator.
pub open spec fn rounded(n: nat, d: nat) -> (nat, nat)
    decreases
            (if n < 0x80_0000 * d {
                1int
            } else {
                0
            }),
            (if n < 0x80_0000 * d {
                0x80_0000 * d - n
            } else {
                n - d
            }),
{
    if n == 0 || d == 0 {
        (0, 1)
    } else if n < 0x80_0000 * d {
        let r = rounded(2 * n, d);
        (r.0, 2 * r.1)
    } else if n >= 0x100_0000 * d {
        let r = rounded(n, 2 * d);
        (2 * r.0, r.1)
    } else {
        (nearest(n, d), 1)
    }
}

pub(crate) fn nearest_integer(n: u64, d: u64) -> (r: u64)
    requires
        0 < d < 0x4000_0000_0000_0000,
    ensures
        r == nearest(n as nat, d as nat),
{
    let q: u64 = n / d;
    let r: u64 = n % d;
    if 2 * r < d || (2 * r == d && q % 2 == 0) {
        q
    } else {
        proof {
            lemma_fundamental_div_mod(n as int, d as int);
            assert(q < u64::MAX) by (nonlinear_arith)
                requires
                    n == d * q + r,
                    r > 0,
                    d > 0,
                    n <= u64::MAX,
            ;
        }
        q + 1
    }
}

/// Rounds `n / d` to 24 significant bits.
pub(crate) fn round_fraction(n: u64, d: u64) -> (r: (u64, u64))
    requires
        0 < n < 0x1000_0000_0000_0000,
        0 < d < 0x40_0000_0000,
    ensures
        (r.0 as nat, r.1 as nat) == rounded(n as nat, d as nat),
        r.0 >= 0x80_0000,
        r.0 <= 0x100_0000 || r.0 * d <= 2 * n,
        r.1 >= 1,
        r.1 == 1 || r.1 * n < 0x100_0000 * d,
{
    let mut top: u64 = n;
    let mut down: u64 = 1;
    while top < 0x80_0000 * d
        invariant
            0 < n < 0x1000_0000_0000_0000,
            0 < d < 0x40_0000_0000,
            top > 0,
            down > 0,
            down * n == top,
            down == 1 || top < 0x100_0000 * d,
            rounded(n as nat, d as nat).0 == rounded(top as nat, d as nat).0,
            rounded(n as nat, d as nat).1 == down * rounded(top as nat, d as nat).1,
        decreases 0x100_0000 * d - top,
    {
        proof {
            let r = rounded((2 * top) as nat, d as nat).1;
            assert(down * (2 * r) == (2 * down) * r) by (nonlinear_arith);
            assert((2 * down) * n == 2 * top) by (nonlinear_arith)
                requires
                    down * n == top,
            ;
            assert(2 * down <= (2 * down) * n) by (nonlinear_arith)
                requires
                    n >= 1,
                    down > 0,
            ;
        }
        top = 2 * top;
        down = 2 * down;
    }
    let mut bottom: u64 = d;
    let mut up: u64 = 1;
    while top >= 0x100_0000 * bottom
        invariant
            0 < top < 0x4000_0000_0000_0000,
            0 < d < 0x40_0000_0000,
            0 < bottom < 0x100_0000_0000,
            0x80_0000 * bottom <= top,
            up > 0,
            up * d == bottom,
            up == 1 || top >= 0x100_0000 * d,
            rounded(top as nat, d as nat).0 == up * rounded(top as nat, bottom as nat).0,
            rounded(top as nat, d as nat).1 == rounded(top as nat, bottom as nat).1,
        decreases top - bottom,
    {
        proof {
            let r = rounded(top as nat, (2 * bottom) as nat).0;
            assert(up * (2 * r) == (2 * up) * r) by (nonlinear_arith);
            assert((2 * up) * d == 2 * bottom) by (nonlinear_arith)
                requires
                    up * d == bottom,
            ;
            assert(2 * up <= (2 * up) * d) by (nonlinear_arith)
                requires
                    d >= 1,
                    up > 0,
            ;
        }
        bottom = 2 * bottom;
        up = 2 * up;
    }
    let p: u64 = nearest_integer(top, bottom);
    proof {
        lemma_nearest_stays_in_range(top as nat, bottom as nat);
        assert(up * p * d == p * bottom) by (nonlinear_arith)
            requires
                up * d == bottom,
        ;
        assert(up * p >= p) by (nonlinear_arith)
            requires
                up >= 1,
        ;
        assert(up * p <= up * p * d) by (nonlinear_arith)
            requires
                d >= 1,
        ;
    }
    (up * p, down)
}

/// The nearest integer lies within half a step.
pub(crate) proof fn lemma_nearest_is_near(n: nat, d: nat)
    requires
        0 < d,
    ensures
        2 * (nearest(n, d) * d) <= 2 * n + d,
        2 * n <= 2 * (nearest(n, d) * d) + d,
{
    lemma_fundamental_div_mod(n as int, d as int);
    let q = n / d;
    assert((q + 1) * d == q * d + d) by (nonlinear_arith);
    assert(d * q == q * d) by (nonlinear_arith);
}

pub(crate) proof fn lemma_nearest_stays_in_range(n: nat, d: nat)
    requires
        0 < d,
        0x80_0000 * d <= n < 0x100_0000 * d,
    ensures
        0x80_0000 <= nearest(n, d) <= 0x100_0000,
        nearest(n, d) * d <= 2 * n,
{
    lemma_nearest_is_near(n, d);
    lemma_fundamental_div_mod(n as int, d as int);
    let q = n / d;
    assert(0x80_0000 <= q < 0x100_0000) by (nonlinear_arith)
        requires
            n == d * q + n % d,
            n % d < d,
            0x80_0000 * d <= n < 0x100_0000 * d,
    ;
}

/// Below 2^24 the denominator of a rounded fraction is the power of two that
/// brings the numerator to 24 bits.
pub(crate) proof fn lemma_rounded_below(n: nat, d: nat) -> (k: nat)
    requires
        0 < n < 0x100_0000 * d,
    ensures
        rounded(n, d).1 == pow2(k),
        0x80_0000 * d <= n * pow2(k) < 0x100_0000 * d,
        rounded(n, d).0 == nearest(n * pow2(k), d),
    decreases 0x100_0000 * d - n,
{
    lemma2_to64();
    if n >= 0x80_0000 * d {
        0
    } else {
        let k = lemma_rounded_below(2 * n, d);
        lemma_pow2_unfold(k + 1);
        let p = pow2(k);
        assert(n * (2 * p) == (2 * n) * p) by (nonlinear_arith);
        k + 1
    }
}

/// From 2^23 on the numerator of a rounded fraction is 24 bits and the power of
/// two that was taken out of it.
pub(crate) proof fn lemma_rounded_above(n: nat, d: nat) -> (j: nat)
    requires
        0 < d,
        0x80_0000 * d <= n,
    ensures
        rounded(n, d).1 == 1,
        0x80_0000 * (d * pow2(j)) <= n < 0x100_0000 * (d * pow2(j)),
        rounded(n, d).0 == pow2(j) * nearest(n, d * pow2(j)),
    decreases n - d,
{
    lemma2_to64();
    if n < 0x100_0000 * d {
        0
    } else {
        let j = lemma_rounded_above(n, 2 * d);
        lemma_pow2_unfold(j + 1);
        let p = pow2(j);
        assert((2 * d) * p == d * (2 * p)) by (nonlinear_arith);
        let m = nearest(n, d * (2 * p));
        assert(2 * (p * m) == (2 * p) * m) by (nonlinear_arith);
        j + 1
    }
}

/// The nearest integer is within half a step, and even where it lies exactly half
/// a step away.
pub proof fn nearest_is_within_half_a_step(n: nat, d: nat)
    requires
        0 < d,
    ensures
        2 * (nearest(n, d) * d) <= 2 * n + d,
        2 * n <= 2 * (nearest(n, d) * d) + d,
        2 * (nearest(n, d) * d) == 2 * n + d || 2 * n == 2 * (nearest(n, d) * d) + d ==> nearest(
            n,
            d,
        ) % 2 == 0,
{
    lemma_nearest_is_near(n, d);
    lemma_fundamental_div_mod(n as int, d as int);
    let q = n / d;
    assert((q + 1) * d == q * d + d) by (nonlinear_arith);
    assert(d * q == q * d) by (nonlinear_arith);
}

/// A rounded fraction has 24 significant bits: it is the nearest integer once the
/// fraction was brought between 2^23 and 2^24 by a power of two, and that power
/// taken back.
pub proof fn rounding_keeps_24_bits(n: nat, d: nat)
    requires
        0 < d,
    ensures
        n == 0 ==> rounded(n, d) == (0nat, 1nat),
        0 < n < 0x80_0000 * d ==> exists|k: nat|
            0x80_0000 * d <= n * (#[trigger] pow2(k)) < 0x100_0000 * d && rounded(n, d) == (
                nearest(n * pow2(k), d),
                pow2(k),
            ),
        0x80_0000 * d <= n ==> exists|j: nat|
            0x80_0000 * (d * (#[trigger] pow2(j))) <= n < 0x100_0000 * (d * pow2(j)) && rounded(n, d)
                == (pow2(j) * nearest(n, d * pow2(j)), 1nat),
{
    if 0 < n < 0x80_0000 * d {
        let k = lemma_rounded_below(n, d);
        assert(rounded(n, d) == (nearest(n * pow2(k), d), pow2(k)));
    } else if n > 0 {
        let j = lemma_rounded_above(n, d);
        assert(rounded(n, d) == (pow2(j) * nearest(n, d * pow2(j)), 1nat));
    }
}

} // verus!
