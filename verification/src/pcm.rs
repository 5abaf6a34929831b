//! Samples as single-precision numbers from -1 to 1 and as 16-bit integers.

use crate::rounding::{
    lemma_nearest_is_near, lemma_nearest_stays_in_range, lemma_rounded_above, lemma_rounded_below,
    nearest, round_fraction, rounded,
};
use crate::single::{distance, lemma_distance_keeps_order, Single};
use vstd::arithmetic::div_mod::{lemma_basic_div, lemma_fundamental_div_mod};
use vstd::arithmetic::power2::{
    lemma2_to64, lemma_pow2_adds, lemma_pow2_pos, lemma_pow2_strictly_increases, lemma_pow2_unfold,
    pow2,
};
use vstd::bits::lemma_u64_shr_is_div;
use vstd::prelude::*;

verus! {

/// The bits of 1.
pub const ONE: u32 = 0x3f80_0000;

/// The bits of -1.
pub const MINUS_ONE: u32 = 0xbf80_0000;

/// The integer that stands for 1.
pub const FULL_SCALE: u32 = 32_767;

/// The integer of a number's fraction: the number whose bits without the sign
/// are `magnitude` is `significand / 2^scale`.
pub open spec fn significand(magnitude: nat) -> nat {
    if magnitude < 0x80_0000 {
        magnitude
    } else {
        0x80_0000 + magnitude % 0x80_0000
    }
}

/// The power of two that divides it.
pub open spec fn scale(magnitude: nat) -> nat {
    if magnitude < 0x80_0000 {
        149
    } else {
        (150 - magnitude / 0x80_0000) as nat
    }
}

/// A sample's distance from zero as an integer: its product with full scale in
/// single precision, cut to an integer. Dividing by a power of two leaves the
/// bits that rounding keeps the same.
pub open spec fn steps(magnitude: nat) -> nat {
    let product = rounded(significand(magnitude) * FULL_SCALE as nat, 1);
    product.0 / (product.1 * pow2(scale(magnitude)))
}

/// A sample as an integer: -1 and what is below it is the least one, 1 and what
/// is above it the greatest, and a NaN is zero.
pub open spec fn integer_sample(x: Single) -> int {
    let c = x.clamped(Single { bits: MINUS_ONE }, Single { bits: ONE });
    if c.is_nan() {
        0
    } else if c.is_negative() {
        -steps(c.magnitude())
    } else {
        steps(c.magnitude()) as int
    }
}

proof fn lemma_at_most_one(c: Single)
    requires
        !c.is_nan(),
        !c.below(Single { bits: MINUS_ONE }),
        !(Single { bits: ONE }).below(c),
    ensures
        c.magnitude() <= ONE,
{
    if c.magnitude() > ONE {
        lemma_distance_keeps_order(ONE as nat, c.magnitude());
    }
}

proof fn lemma_steps_fit(magnitude: nat)
    requires
        magnitude <= ONE,
    ensures
        steps(magnitude) <= FULL_SCALE,
{
    let s = significand(magnitude);
    let k = scale(magnitude);
    let n = s * FULL_SCALE as nat;
    let r = rounded(n, 1);
    lemma2_to64();
    lemma_pow2_pos(k);
    if n == 0 {
    } else if n < 0x80_0000 {
        let j = lemma_rounded_below(n, 1);
        assert(k == 149);
        lemma_pow2_pos(j);
        lemma_pow2_strictly_increases(32, 149);
        lemma_nearest_stays_in_range(n * pow2(j), 1);
        lemma_small_quotient(r.0, r.1 * pow2(k), pow2(j), pow2(k));
    } else {
        let j = lemma_rounded_above(n, 1);
        let p = pow2(j);
        assert(s <= pow2(k)) by {
            if magnitude < 0x80_0000 {
                lemma_pow2_strictly_increases(32, 149);
            } else if magnitude / 0x80_0000 < 127 {
                if k > 24 {
                    lemma_pow2_strictly_increases(24, k);
                }
            }
        }
        // 32767 * 2^k has few bits, so rounding does not carry a number across it
        assert(n <= 32_767 * pow2(k)) by (nonlinear_arith)
            requires
                n == s * 32_767,
                s <= pow2(k),
        ;
        if k < j {
            lemma_pow2_strictly_increases(k, j);
            assert(false) by (nonlinear_arith)
                requires
                    0x80_0000 * (1 * p) <= n,
                    n <= 32_767 * pow2(k),
                    pow2(k) < p,
            ;
        }
        lemma_pow2_adds(j, (k - j) as nat);
        let bound = 32_767 * pow2((k - j) as nat);
        assert(32_767 * pow2(k) == bound * p) by (nonlinear_arith)
            requires
                pow2(k) == p * pow2((k - j) as nat),
                bound == 32_767 * pow2((k - j) as nat),
        ;
        lemma_nearest_at_most(n, 1 * p, bound);
        assert(r.0 <= 32_767 * pow2(k)) by (nonlinear_arith)
            requires
                r.0 == p * nearest(n, 1 * p),
                nearest(n, 1 * p) <= bound,
                32_767 * pow2(k) == bound * p,
                p > 0,
        ;
        lemma_quotient_at_most(r.0, pow2(k), 32_767);
    }
}

proof fn lemma_small_quotient(n: nat, d: nat, a: nat, b: nat)
    requires
        n <= 0x100_0000,
        d == a * b,
        a >= 1,
        b > 0x100_0000,
    ensures
        n / d == 0,
{
    assert(d > n) by (nonlinear_arith)
        requires
            d == a * b,
            a >= 1,
            b > n,
    ;
    lemma_basic_div(n as int, d as int);
}

proof fn lemma_quotient_at_most(n: nat, d: nat, m: nat)
    requires
        d > 0,
        n <= m * d,
    ensures
        n / d <= m,
{
    lemma_fundamental_div_mod(n as int, d as int);
    assert(n / d <= m) by (nonlinear_arith)
        requires
            n == d * (n / d) + n % d,
            n % d >= 0,
            n <= m * d,
            d > 0,
    ;
}

proof fn lemma_nearest_at_most(n: nat, d: nat, m: nat)
    requires
        d > 0,
        n <= m * d,
    ensures
        nearest(n, d) <= m,
{
    lemma_fundamental_div_mod(n as int, d as int);
    let q = n / d;
    let r = n % d;
    if r == 0 {
        lemma_quotient_at_most(n, d, m);
    } else {
        assert(q < m) by (nonlinear_arith)
            requires
                n == d * q + r,
                r > 0,
                n <= m * d,
                d > 0,
        ;
    }
}

fn sample_to_integer(x: Single) -> (s: i16)
    ensures
        s == integer_sample(x),
{
    let c = x.clamp(Single { bits: MINUS_ONE }, Single { bits: ONE });
    let magnitude: u32 = c.bits % 0x8000_0000;
    if magnitude > 0x7f80_0000 {
        return 0;
    }
    proof {
        lemma_at_most_one(c);
        lemma_steps_fit(magnitude as nat);
        lemma2_to64();
    }
    let ghost m = magnitude as nat;
    let count: i16 = if magnitude < 0x80_0000 {
        proof {
            lemma_tiny_sample(m);
        }
        0
    } else {
        let top: u64 = (0x80_0000 + magnitude % 0x80_0000) as u64 * FULL_SCALE as u64;
        let product: (u64, u64) = round_fraction(top, 1);
        assert(product.1 == 1) by (nonlinear_arith)
            requires
                product.1 >= 1,
                product.1 == 1 || product.1 * top < 0x100_0000,
                top >= 0x100_0000,
        ;
        let shift: u32 = 150 - magnitude / 0x80_0000;
        proof {
            let p = pow2(shift as nat);
            assert(product.1 * p == p) by (nonlinear_arith)
                requires
                    product.1 == 1,
            ;
            assert(steps(m) == product.0 as nat / p);
        }
        if shift >= 64 {
            proof {
                if shift > 64 {
                    lemma_pow2_strictly_increases(64, shift as nat);
                }
                lemma_basic_div(
                    product.0 as int,
                    pow2(shift as nat) as int,
                );
            }
            0
        } else {
            let count: u64 = product.0 >> shift as u64;
            proof {
                lemma_u64_shr_is_div(product.0, shift as u64);
            }
            count as i16
        }
    };
    if c.bits >= 0x8000_0000 {
        -count
    } else {
        count
    }
}

proof fn lemma_tiny_sample(m: nat)
    requires
        m < 0x80_0000,
    ensures
        steps(m) == 0,
{
    let n = significand(m) * FULL_SCALE as nat;
    let r = rounded(n, 1);
    lemma2_to64();
    lemma_pow2_strictly_increases(64, 149);
    lemma_pow2_pos(149);
    assert(1 * pow2(149) == pow2(149));
    if n == 0 {
        assert(r == (0nat, 1nat));
        lemma_basic_div(0, pow2(149) as int);
    } else if n < 0x100_0000 {
        let j = lemma_rounded_below(n, 1);
        lemma_pow2_pos(j);
        lemma_nearest_stays_in_range(n * pow2(j), 1);
        lemma_small_quotient(r.0, r.1 * pow2(149), pow2(j), pow2(149));
    } else {
        let j = lemma_rounded_above(n, 1);
        let p = pow2(j);
        lemma_pow2_pos(j);
        lemma_nearest_stays_in_range(n, 1 * p);
        assert(r.0 <= 2 * n) by (nonlinear_arith)
            requires
                r.0 == p * nearest(n, 1 * p),
                nearest(n, 1 * p) * (1 * p) <= 2 * n,
        ;
        assert(r.1 * pow2(149) == pow2(149)) by (nonlinear_arith)
            requires
                r.1 == 1,
        ;
        lemma_basic_div(r.0 as int, pow2(149) as int);
    }
}

/// Converts samples to integers.
pub fn f32_to_i16(samples: &[Single]) -> (integers: Vec<i16>)
    ensures
        integers@.len() == samples@.len(),
        forall|i: int|
            0 <= i < samples@.len() ==> #[trigger] integers@[i] == integer_sample(samples@[i]),
{
    let mut integers: Vec<i16> = Vec::new();
    let mut i: usize = 0;
    while i < samples.len()
        invariant
            i <= samples@.len(),
            integers@.len() == i,
            forall|k: int| 0 <= k < i ==> #[trigger] integers@[k] == integer_sample(samples@[k]),
        decreases samples@.len() - i,
    {
        integers.push(sample_to_integer(samples[i]));
        i += 1;
    }
    integers
}

/// A number is the sample that an integer stands for: its quotient by full scale
/// in single precision, held at -1 for the one integer below full scale.
pub open spec fn is_sample_of(x: Single, n: int) -> bool {
    if n == 0 {
        x.bits == 0
    } else if n < -FULL_SCALE {
        x.bits == MINUS_ONE
    } else {
        let quotient = rounded(vstd::math::abs(n), FULL_SCALE as nat);
        &&& !x.is_nan()
        &&& x.is_negative() == (n < 0)
        &&& distance(x.magnitude()) * quotient.1 == quotient.0 * pow2(149)
    }
}

fn integer_to_sample(n: i16) -> (x: Single)
    ensures
        is_sample_of(x, n as int),
{
    if n == 0 {
        return Single { bits: 0 };
    }
    if n == i16::MIN {
        return Single { bits: MINUS_ONE };
    }
    let size: u64 = if n < 0 {
        (-(n as i64)) as u64
    } else {
        n as u64
    };
    let quotient: (u64, u64) = round_fraction(size, FULL_SCALE as u64);
    let ghost k = lemma_rounded_below(size as nat, FULL_SCALE as nat);
    proof {
        lemma2_to64();
        lemma_pow2_adds(32, 7);
        lemma_pow2_pos(k);
        lemma_nearest_stays_in_range(size as nat * pow2(k), FULL_SCALE as nat);
        assert(pow2(k) < 0x80_0000_0000) by (nonlinear_arith)
            requires
                size * pow2(k) < 0x100_0000 * 32_767,
                size >= 1,
        ;
    }
    let mut power: u64 = 1;
    let mut down: u32 = 0;
    while power < quotient.1
        invariant
            quotient.1 == pow2(k),
            pow2(k) < 0x80_0000_0000,
            power == pow2(down as nat),
            power <= quotient.1,
            down <= k,
            down <= 39,
            pow2(39) == 0x80_0000_0000,
        decreases quotient.1 - power,
    {
        proof {
            lemma_pow2_pos(down as nat);
            lemma_pow2_unfold((down + 1) as nat);
            if k <= down {
                assert(k == down);
            }
            if down + 1 < k {
                lemma_pow2_strictly_increases((down + 1) as nat, k);
            }
            if down >= 39 {
                assert(false);
            }
        }
        power = 2 * power;
        down = down + 1;
    }
    proof {
        if down < k {
            lemma_pow2_strictly_increases(down as nat, k);
        }
        lemma_assembled(quotient.0 as nat, k);
    }
    let magnitude: u32 = (149 - down) * 0x80_0000 + quotient.0 as u32;
    if n < 0 {
        Single { bits: 0x8000_0000 + magnitude }
    } else {
        Single { bits: magnitude }
    }
}

proof fn lemma_assembled(top: nat, k: nat)
    requires
        0x80_0000 <= top <= 0x100_0000,
        k <= 149,
    ensures
        distance(((149 - k) * 0x80_0000 + top) as nat) * pow2(k) == top * pow2(149),
{
    let m = ((149 - k) * 0x80_0000 + top) as nat;
    let p = pow2((149 - k) as nat);
    lemma_pow2_adds((149 - k) as nat, k);
    if top < 0x100_0000 {
        assert(m / 0x80_0000 == 150 - k && m % 0x80_0000 == top - 0x80_0000);
    } else {
        assert(m / 0x80_0000 == 151 - k && m % 0x80_0000 == 0);
        lemma_pow2_unfold((150 - k) as nat);
        assert(0x80_0000 * (2 * p) == 0x100_0000 * p);
    }
    assert(top * p * pow2(k) == top * pow2(149)) by (nonlinear_arith)
        requires
            p * pow2(k) == pow2(149),
    ;
}

/// A number from -1 to 1.
pub open spec fn within_one(x: Single) -> bool {
    &&& !x.is_nan()
    &&& (Single { bits: MINUS_ONE }).value() <= x.value()
    &&& x.value() <= (Single { bits: ONE }).value()
}

proof fn lemma_samples_within_one(x: Single, n: int)
    requires
        is_sample_of(x, n),
        -FULL_SCALE - 1 <= n <= FULL_SCALE,
    ensures
        within_one(x),
{
    lemma2_to64();
    lemma_pow2_pos(126);
    assert(distance(0) == 0);
    assert(distance(ONE as nat) == 0x80_0000 * pow2(126));
    if n != 0 && n >= -FULL_SCALE {
        let size = vstd::math::abs(n);
        let d = FULL_SCALE as nat;
        let quotient = rounded(size, d);
        let k = lemma_rounded_below(size, d);
        let p = pow2(k);
        let far = distance(x.magnitude());
        lemma_pow2_pos(k);
        assert(size * p <= p * d) by (nonlinear_arith)
            requires
                size <= d,
        ;
        lemma_nearest_at_most(size * p, d, p);
        lemma_pow2_adds(126, 23);
        assert(far <= pow2(149)) by (nonlinear_arith)
            requires
                far * p == quotient.0 * pow2(149),
                quotient.0 <= p,
                p > 0,
        ;
    }
}

/// Converts integers to samples, none of them outside -1 to 1.
pub fn i16_to_f32(integers: &[i16]) -> (samples: Vec<Single>)
    ensures
        samples@.len() == integers@.len(),
        forall|i: int|
            0 <= i < integers@.len() ==> is_sample_of(
                #[trigger] samples@[i],
                integers@[i] as int,
            ),
        forall|i: int| 0 <= i < samples@.len() ==> within_one(#[trigger] samples@[i]),
{
    let mut samples: Vec<Single> = Vec::new();
    let mut i: usize = 0;
    while i < integers.len()
        invariant
            i <= integers@.len(),
            samples@.len() == i,
            forall|k: int|
                0 <= k < i ==> is_sample_of(#[trigger] samples@[k], integers@[k] as int),
            forall|k: int| 0 <= k < i ==> within_one(#[trigger] samples@[k]),
        decreases integers@.len() - i,
    {
        let sample = integer_to_sample(integers[i]);
        proof {
            lemma_samples_within_one(sample, integers@[i as int] as int);
        }
        samples.push(sample);
        i += 1;
    }
    samples
}

proof fn lemma_distance_is_fraction(m: nat)
    requires
        m <= ONE,
    ensures
        distance(m) * pow2(scale(m)) == significand(m) * pow2(149),
{
    lemma2_to64();
    let e = m / 0x80_0000;
    if e > 0 {
        lemma_pow2_adds((e - 1) as nat, (150 - e) as nat);
        assert(significand(m) * pow2((e - 1) as nat) * pow2((150 - e) as nat) == significand(m)
            * pow2(149)) by (nonlinear_arith)
            requires
                pow2((e - 1) as nat) * pow2((150 - e) as nat) == pow2(149),
        ;
    }
}

/// The integer of a sample is within two steps of the sample.
proof fn lemma_steps_are_near(m: nat)
    requires
        m <= ONE,
    ensures
        steps(m) * pow2(149) <= 32_767 * distance(m) + 2 * pow2(149),
        32_767 * distance(m) <= steps(m) * pow2(149) + 2 * pow2(149),
{
    let s = significand(m);
    let k = scale(m);
    let n = s * FULL_SCALE as nat;
    let t = steps(m);
    let whole = pow2(149);
    lemma2_to64();
    lemma_distance_is_fraction(m);
    if m < 0x80_0000 {
        lemma_tiny_sample(m);
        lemma_pow2_strictly_increases(64, 149);
    } else {
        let r = rounded(n, 1);
        let j = lemma_rounded_above(n, 1);
        let p = pow2(j);
        let q = pow2(k);
        lemma_pow2_pos(k);
        lemma_pow2_pos(j);
        assert(s <= q) by {
            if k > 24 {
                lemma_pow2_strictly_increases(24, k);
            }
        }
        if k < j {
            lemma_pow2_strictly_increases(k, j);
            assert(false) by (nonlinear_arith)
                requires
                    0x80_0000 * (1 * p) <= n,
                    n == s * 32_767,
                    s <= q,
                    q < p,
            ;
        }
        if j < k {
            lemma_pow2_strictly_increases(j, k);
        }
        lemma_nearest_is_near(n, 1 * p);
        assert(2 * r.0 <= 2 * n + p && 2 * n <= 2 * r.0 + p) by (nonlinear_arith)
            requires
                r.0 == p * nearest(n, 1 * p),
                2 * (nearest(n, 1 * p) * (1 * p)) <= 2 * n + 1 * p,
                2 * n <= 2 * (nearest(n, 1 * p) * (1 * p)) + 1 * p,
        ;
        assert(r.1 * q == q) by (nonlinear_arith)
            requires
                r.1 == 1,
        ;
        lemma_fundamental_div_mod(r.0 as int, q as int);
        assert(q * t == t * q) by (nonlinear_arith);
        assert(t * q <= n + 2 * q && n <= t * q + 2 * q);
        let d = distance(m);
        lemma_pow2_pos(149);
        assert(n * whole == 32_767 * d * q) by (nonlinear_arith)
            requires
                n == s * 32_767,
                d * q == s * whole,
        ;
        lemma_divide_through(t as int, q as int, n as int, whole as int, d as int);
    }
}

proof fn lemma_divide_through(t: int, q: int, n: int, whole: int, d: int)
    requires
        q > 0,
        whole > 0,
        t * q <= n + 2 * q,
        n <= t * q + 2 * q,
        n * whole == 32_767 * d * q,
    ensures
        t * whole <= 32_767 * d + 2 * whole,
        32_767 * d <= t * whole + 2 * whole,
{
    assert(t * q * whole <= (n + 2 * q) * whole) by (nonlinear_arith)
        requires
            t * q <= n + 2 * q,
            whole > 0,
    ;
    assert(n * whole <= (t * q + 2 * q) * whole) by (nonlinear_arith)
        requires
            n <= t * q + 2 * q,
            whole > 0,
    ;
    assert(t * whole <= 32_767 * d + 2 * whole) by (nonlinear_arith)
        requires
            q > 0,
            t * q * whole <= (n + 2 * q) * whole,
            n * whole == 32_767 * d * q,
    ;
    assert(32_767 * d <= t * whole + 2 * whole) by (nonlinear_arith)
        requires
            q > 0,
            n * whole <= (t * q + 2 * q) * whole,
            n * whole == 32_767 * d * q,
    ;
}

/// The sample of an integer is within one step of the integer.
proof fn lemma_sample_is_near(n: nat, distant: nat)
    requires
        0 < n <= FULL_SCALE,
        distant * rounded(n, FULL_SCALE as nat).1 == rounded(n, FULL_SCALE as nat).0 * pow2(149),
    ensures
        32_767 * distant <= n * pow2(149) + pow2(149),
        n * pow2(149) <= 32_767 * distant + pow2(149),
{
    let q = rounded(n, FULL_SCALE as nat);
    let k = lemma_rounded_below(n, FULL_SCALE as nat);
    let p = pow2(k);
    let whole = pow2(149);
    lemma_pow2_pos(k);
    lemma_pow2_pos(149);
    lemma_nearest_is_near(n * p, FULL_SCALE as nat);
    assert(p >= 0x80_0000) by (nonlinear_arith)
        requires
            0x80_0000 * 32_767 <= n * p,
            n <= 32_767,
    ;
    assert(q.0 * 32_767 <= n * p + p && n * p <= q.0 * 32_767 + p);
    lemma_multiply_through(q.0 as int, p as int, n as int, whole as int, distant as int);
}

proof fn lemma_multiply_through(top: int, p: int, n: int, whole: int, d: int)
    requires
        p > 0,
        whole > 0,
        top * 32_767 <= n * p + p,
        n * p <= top * 32_767 + p,
        d * p == top * whole,
    ensures
        32_767 * d <= n * whole + whole,
        n * whole <= 32_767 * d + whole,
{
    assert(top * 32_767 * whole <= (n * p + p) * whole) by (nonlinear_arith)
        requires
            top * 32_767 <= n * p + p,
            whole > 0,
    ;
    assert(n * p * whole <= (top * 32_767 + p) * whole) by (nonlinear_arith)
        requires
            n * p <= top * 32_767 + p,
            whole > 0,
    ;
    assert(32_767 * d <= n * whole + whole) by (nonlinear_arith)
        requires
            p > 0,
            top * 32_767 * whole <= (n * p + p) * whole,
            d * p == top * whole,
    ;
    assert(n * whole <= 32_767 * d + whole) by (nonlinear_arith)
        requires
            p > 0,
            n * p * whole <= (top * 32_767 + p) * whole,
            d * p == top * whole,
    ;
}

/// A sample from -1 to 1 that becomes an integer and a sample again has moved by
/// less than a thousandth.
pub proof fn conversion_there_and_back_is_near(x: Single, back: Single)
    requires
        within_one(x),
        is_sample_of(back, integer_sample(x)),
    ensures
        -pow2(149) < 1000 * (back.value() - x.value()) < pow2(149),
{
    let m = x.magnitude();
    lemma_at_most_one(x);
    lemma_steps_fit(m);
    lemma_steps_are_near(m);
    lemma_pow2_pos(149);
    lemma2_to64();
    let t = steps(m);
    if t > 0 {
        assert(vstd::math::abs(integer_sample(x)) == t);
        lemma_sample_is_near(t, distance(back.magnitude()));
    } else {
        assert(distance(0) == 0);
        assert(t * pow2(149) == 0) by (nonlinear_arith)
            requires
                t == 0,
        ;
        assert(back.value() == 0);
    }
}

/// The integer of a sample from -1 to 1 is its product with full scale, cut to an
/// integer, but for the rounding of the product to 24 bits.
pub proof fn integer_is_the_product_cut(m: nat)
    requires
        m <= ONE,
    ensures
        0x100_0000 * (steps(m) * pow2(149)) <= 0x100_0001 * (32_767 * distance(m)),
        0xff_ffff * (32_767 * distance(m)) < 0x100_0000 * ((steps(m) + 1) * pow2(149)),
        steps(m) <= 32_767,
{
    let s = significand(m);
    let k = scale(m);
    let n = s * FULL_SCALE as nat;
    let t = steps(m);
    let whole = pow2(149);
    let d = distance(m);
    lemma2_to64();
    lemma_steps_fit(m);
    lemma_distance_is_fraction(m);
    lemma_pow2_pos(149);
    if m < 0x80_0000 {
        lemma_tiny_sample(m);
        lemma_pow2_strictly_increases(64, 149);
        assert(t * whole == 0 && (t + 1) * whole == whole) by (nonlinear_arith)
            requires
                t == 0,
        ;
    } else {
        let r = rounded(n, 1);
        let j = lemma_rounded_above(n, 1);
        let p = pow2(j);
        let q = pow2(k);
        lemma_pow2_pos(k);
        lemma_pow2_pos(j);
        lemma_nearest_is_near(n, 1 * p);
        assert(2 * r.0 <= 2 * n + p && 2 * n <= 2 * r.0 + p) by (nonlinear_arith)
            requires
                r.0 == p * nearest(n, 1 * p),
                2 * (nearest(n, 1 * p) * (1 * p)) <= 2 * n + 1 * p,
                2 * n <= 2 * (nearest(n, 1 * p) * (1 * p)) + 1 * p,
        ;
        assert(r.1 * q == q) by (nonlinear_arith)
            requires
                r.1 == 1,
        ;
        lemma_fundamental_div_mod(r.0 as int, q as int);
        assert(q * t == t * q && (t + 1) * q == t * q + q) by (nonlinear_arith);
        assert(0x100_0000 * (t * q) <= 0x100_0001 * n);
        assert(0xff_ffff * n < 0x100_0000 * ((t + 1) * q));
        assert(n * whole == 32_767 * d * q) by (nonlinear_arith)
            requires
                n == s * 32_767,
                d * q == s * whole,
        ;
        lemma_bounds_divide_through(t as int, q as int, n as int, whole as int, d as int);
    }
}

proof fn lemma_bounds_divide_through(t: int, q: int, n: int, whole: int, d: int)
    requires
        q > 0,
        whole > 0,
        0x100_0000 * (t * q) <= 0x100_0001 * n,
        0xff_ffff * n < 0x100_0000 * ((t + 1) * q),
        n * whole == 32_767 * d * q,
    ensures
        0x100_0000 * (t * whole) <= 0x100_0001 * (32_767 * d),
        0xff_ffff * (32_767 * d) < 0x100_0000 * ((t + 1) * whole),
{
    let a = 0x100_0000 * (t * whole);
    let b = 0x100_0001 * (32_767 * d);
    assert(a * q <= b * q) by (nonlinear_arith)
        requires
            0x100_0000 * (t * q) <= 0x100_0001 * n,
            whole > 0,
            n * whole == 32_767 * d * q,
            a == 0x100_0000 * (t * whole),
            b == 0x100_0001 * (32_767 * d),
    ;
    assert(a <= b) by (nonlinear_arith)
        requires
            a * q <= b * q,
            q > 0,
    ;
    let e = 0xff_ffff * (32_767 * d);
    let f = 0x100_0000 * ((t + 1) * whole);
    assert(e * q < f * q) by (nonlinear_arith)
        requires
            0xff_ffff * n < 0x100_0000 * ((t + 1) * q),
            whole > 0,
            n * whole == 32_767 * d * q,
            e == 0xff_ffff * (32_767 * d),
            f == 0x100_0000 * ((t + 1) * whole),
    ;
    assert(e < f) by (nonlinear_arith)
        requires
            e * q < f * q,
            q > 0,
    ;
}

/// A sample and its negative have integers that are each other's negative; what
/// lies beyond 1 has full scale, and what is no number has zero.
pub proof fn integers_of_samples_mirror_and_saturate(bits: u32)
    requires
        bits < 0x8000_0000,
    ensures
        ({
            let x = Single { bits };
            let y = Single { bits: (bits + 0x8000_0000) as u32 };
            &&& integer_sample(y) == -integer_sample(x)
            &&& bits > 0x7f80_0000 ==> integer_sample(x) == 0
            &&& bits <= 0x3f80_0000 ==> integer_sample(x) == steps(bits as nat)
            &&& 0x3f80_0000 <= bits <= 0x7f80_0000 ==> integer_sample(x) == 32_767
        }),
{
    let m = bits as nat;
    let x = Single { bits };
    let y = Single { bits: (bits + 0x8000_0000) as u32 };
    assert(distance(0) == 0);
    lemma_distance_keeps_order(0, ONE as nat);
    if bits <= 0x3f80_0000 {
        lemma_distance_keeps_order(m, ONE as nat);
    } else {
        lemma_distance_keeps_order(ONE as nat, m);
    }
    lemma_one_is_full_scale();
}

proof fn lemma_one_is_full_scale()
    ensures
        steps(ONE as nat) == 32_767,
{
    let n = 0x80_0000nat * 32_767;
    lemma2_to64();
    let j = lemma_rounded_above(n, 1);
    let p = pow2(j);
    lemma_pow2_pos(j);
    // 2^14 <= 32767 < 2^15, so 14 bits are taken out, and they are zero
    if j < 14 {
        if j < 13 {
            lemma_pow2_strictly_increases(j, 13);
        }
        assert(p <= 8192);
        assert(false) by (nonlinear_arith)
            requires
                n == 0x80_0000 * 32_767,
                n < 0x100_0000 * (1 * p),
                p <= 8192,
        ;
    }
    if j > 14 {
        if j > 15 {
            lemma_pow2_strictly_increases(15, j);
        }
        assert(p >= 32_768);
        assert(false) by (nonlinear_arith)
            requires
                n == 0x80_0000 * 32_767,
                0x80_0000 * (1 * p) <= n,
                p >= 32_768,
        ;
    }
    assert(p == 16_384);
    assert(nearest(n, 16_384) == 512 * 32_767);
    let q = nearest(n, 1 * p);
    assert(q == 512 * 32_767);
    let r = rounded(n, 1);
    assert(r.0 == p * q);
    assert(p * q == 274_869_518_336) by (nonlinear_arith)
        requires
            p == 16_384,
            q == 512 * 32_767,
    ;
    assert(significand(ONE as nat) == 0x80_0000 && scale(ONE as nat) == 23);
    assert(r.1 * pow2(23) == 0x80_0000) by (nonlinear_arith)
        requires
            r.1 == 1,
            pow2(23) == 0x80_0000,
    ;
    let s = significand(ONE as nat);
    let full = FULL_SCALE as nat;
    assert(s * full == n) by (nonlinear_arith)
        requires
            s == 0x80_0000,
            full == 32_767,
            n == 0x80_0000 * 32_767,
    ;
    let den = r.1 * pow2(23);
    assert(r.0 / den == 32_767) by (nonlinear_arith)
        requires
            r.0 == 274_869_518_336,
            den == 0x80_0000,
    ;
}

/// The integer of a sample is what lies whole below its product with full scale once
/// the product is rounded to 24 bits.
pub proof fn integer_lies_whole_below_the_rounded_product(m: nat)
    requires
        0x80_0000 <= m <= ONE,
    ensures
        ({
            let s = significand(m);
            let q = pow2(scale(m));
            let product = rounded(s * 32_767, 1);
            &&& 0x80_0000 <= s < 0x100_0000
            &&& distance(m) * q == s * pow2(149)
            &&& product.1 == 1
            &&& steps(m) * q <= product.0 < (steps(m) + 1) * q
        }),
{
    let s = significand(m);
    let q = pow2(scale(m));
    let t = steps(m);
    lemma_distance_is_fraction(m);
    lemma_pow2_pos(scale(m));
    let n = s * 32_767;
    let product = rounded(n, 1);
    let j = lemma_rounded_above(n, 1);
    assert(product.1 * q == q) by (nonlinear_arith)
        requires
            product.1 == 1,
    ;
    lemma_fundamental_div_mod(product.0 as int, q as int);
    assert(q * t == t * q && (t + 1) * q == t * q + q) by (nonlinear_arith);
}

/// A sample too small for the format's normal range is no step from zero.
pub proof fn smallest_samples_are_zero(m: nat)
    requires
        m < 0x80_0000,
    ensures
        steps(m) == 0,
{
    lemma_tiny_sample(m);
}

} // verus!
