//! IEEE-754 binary64 numbers, handled as their 64-bit patterns.
//!
//! A pattern holds, from the top, one sign bit, eleven exponent bits and
//! fifty-two fraction bits. Everything here is integer arithmetic on patterns.

use vstd::arithmetic::power2::*;
use vstd::prelude::*;

verus! {

/// The pattern with only the sign bit set.
pub const SIGN_BIT: u64 = 0x8000_0000_0000_0000;

/// The pattern of positive infinity; a greater magnitude is a NaN.
pub const INFINITY: u64 = 0x7ff0_0000_0000_0000;

/// Two to the power 52: the weight of the lowest exponent bit.
pub const FRACTION_RANGE: u64 = 0x0010_0000_0000_0000;

/// The pattern of 1.0.
pub const ONE: u64 = 0x3ff0_0000_0000_0000;

/// The pattern without its sign bit.
pub open spec fn magnitude(bits: u64) -> int {
    if bits >= SIGN_BIT {
        bits - SIGN_BIT
    } else {
        bits as int
    }
}

/// Whether the pattern encodes a NaN.
pub open spec fn encodes_nan(bits: u64) -> bool {
    magnitude(bits) > INFINITY
}

/// An integer that orders the patterns that are not NaN as the numbers they
/// encode are ordered: the magnitude, negated where the sign bit is set. Both
/// zeros get 0.
pub open spec fn order_key(bits: u64) -> int {
    if bits >= SIGN_BIT {
        -(bits - SIGN_BIT)
    } else {
        bits as int
    }
}

/// Whether the pattern encodes a NaN.
pub fn is_nan(bits: u64) -> (nan: bool)
    ensures
        nan == encodes_nan(bits),
{
    if bits >= SIGN_BIT {
        bits - SIGN_BIT > INFINITY
    } else {
        bits > INFINITY
    }
}

/// Computes [`order_key`].
pub fn sort_key(bits: u64) -> (key: i64)
    ensures
        key == order_key(bits),
{
    if bits >= SIGN_BIT {
        -((bits - SIGN_BIT) as i64)
    } else {
        bits as i64
    }
}

/// The number of doublings that bring `num` up to `den`: the least `k` with
/// `den <= num * 2^k`, and 0 where `num` is 0.
pub open spec fn binade(num: nat, den: nat) -> nat
    decreases (if num < den { den - num } else { 0 }),
{
    if num == 0 || den <= num {
        0
    } else {
        1 + binade(2 * num, den)
    }
}

/// The integer nearest to `n / d`; where two are equally near, the even one.
pub open spec fn round_half_even(n: nat, d: nat) -> nat {
    let q = n / d;
    let r = n % d;
    if 2 * r < d {
        q
    } else if 2 * r > d {
        q + 1
    } else if q % 2 == 0 {
        q
    } else {
        q + 1
    }
}

/// The pattern of the binary64 number nearest to `num / den`, ties going to
/// the even significand, for `num <= den`: what an IEEE-754 division of two
/// exactly represented numbers in that ratio returns.
///
/// With `k = binade(num, den)` the quotient lies in `[2^-k, 2^(1-k))`, so its
/// significand is `num * 2^(52+k) / den` rounded, and its exponent field is
/// `1023 - k`. A significand that rounds up to `2^53` carries into the
/// exponent field, which is the pattern of the next power of two.
pub open spec fn unit_ratio_bits(num: nat, den: nat) -> int {
    if num == 0 {
        0
    } else {
        let k = binade(num, den);
        (1022 - k) * pow2(52) + round_half_even(num * pow2(52 + k), den)
    }
}

/// After `binade(num, den)` doublings `num` has reached `den`, and not
/// overshot it by a factor of two.
pub proof fn lemma_binade_brackets(num: nat, den: nat)
    requires
        0 < num,
    ensures
        den <= num * pow2(binade(num, den)),
        binade(num, den) > 0 ==> num * pow2(binade(num, den)) < 2 * den,
    decreases (if num < den { den - num } else { 0 }),
{
    lemma2_to64();
    if den <= num {
        assert(num * pow2(0) == num) by (nonlinear_arith)
            requires
                pow2(0) == 1,
        ;
    } else {
        lemma_binade_brackets(2 * num, den);
        let k = binade(2 * num, den);
        if k == 0 {
            assert((2 * num) * pow2(0) == 2 * num) by (nonlinear_arith)
                requires
                    pow2(0) == 1,
            ;
        }
        assert(binade(num, den) == k + 1);
        lemma_pow2_unfold(k + 1);
        assert(pow2(k + 1) == 2 * pow2(k));
        assert(num * (2 * pow2(k)) == (2 * num) * pow2(k)) by (nonlinear_arith);
        assert(num * pow2(k + 1) == (2 * num) * pow2(k));
    }
}

/// With a denominator of at most 32 bits, at most 32 doublings are needed.
pub proof fn lemma_binade_small(num: nat, den: nat)
    requires
        0 < num,
        den <= u32::MAX,
    ensures
        binade(num, den) <= 32,
{
    let k = binade(num, den);
    lemma_binade_brackets(num, den);
    if k > 32 {
        lemma2_to64_rest();
        if k > 33 {
            lemma_pow2_strictly_increases(33, k);
        }
        assert(num * pow2(k) >= pow2(k)) by (nonlinear_arith)
            requires
                num >= 1,
        ;
    }
}

/// Rounding moves a quotient by at most one half.
pub proof fn lemma_round_half_even_near(n: nat, d: nat)
    requires
        0 < d,
    ensures
        -d <= 2 * (round_half_even(n, d) * d - n) <= d,
{
    let q = n / d;
    let r = n % d;
    assert(n == d * q + r && 0 <= r < d) by (nonlinear_arith)
        requires
            q == n / d,
            r == n % d,
            d > 0,
    ;
    assert((q + 1) * d == q * d + d) by (nonlinear_arith);
    assert(d * q == q * d) by (nonlinear_arith);
}

/// The significand of a ratio between 0 and 1 lies between `2^52` and `2^53`,
/// and it is `2^52` where the ratio is 1.
pub proof fn lemma_significand_range(num: nat, den: nat)
    requires
        0 < num <= den,
    ensures
        pow2(52) <= round_half_even(num * pow2(52 + binade(num, den)), den) <= 2 * pow2(52),
        num == den ==> round_half_even(num * pow2(52 + binade(num, den)), den) == pow2(52),
{
    let k = binade(num, den);
    let n = num * pow2(52 + k);
    let scaled = num * pow2(k);
    let p = pow2(52);
    lemma_binade_brackets(num, den);
    lemma_pow2_adds(52, k);
    lemma_pow2_pos(52);
    assert(n == scaled * p) by (nonlinear_arith)
        requires
            n == num * (p * pow2(k)),
            scaled == num * pow2(k),
    ;
    let q = n / den;
    let r = n % den;
    assert(n == den * q + r && 0 <= r < den) by (nonlinear_arith)
        requires
            q == n / den,
            r == n % den,
            den > 0,
    ;
    if num == den {
        assert(k == 0);
        lemma2_to64();
        assert(q == p && r == 0) by (nonlinear_arith)
            requires
                den * p == den * q + r,
                0 <= r < den,
        ;
    } else {
        assert(k > 0);
        assert(p <= q < 2 * p) by (nonlinear_arith)
            requires
                scaled * p == den * q + r,
                0 <= r < den,
                den <= scaled < 2 * den,
                p > 0,
        ;
    }
}

/// The pattern of a ratio between 0 and 1 lies between those of 0.0 and 1.0:
/// it is finite and not negative.
pub proof fn lemma_unit_ratio_bits_range(num: nat, den: nat)
    requires
        num <= den,
        0 < den <= u32::MAX,
    ensures
        0 <= unit_ratio_bits(num, den) <= ONE,
        num == den ==> unit_ratio_bits(num, den) == ONE,
{
    lemma2_to64_rest();
    if num > 0 {
        lemma_binade_small(num, den);
        lemma_significand_range(num, den);
        if num < den {
            assert(binade(num, den) > 0);
        }
    }
}

/// The absolute value of the number that a pattern other than a NaN or an
/// infinity encodes, times `2^1074`. Every such number is a whole multiple of
/// `2^-1074`, so this is an integer: the fraction field where the exponent
/// field is zero, and else the fraction with its hidden bit, doubled once for
/// each step of the exponent field above one.
pub open spec fn scaled_magnitude(bits: u64) -> int {
    let exponent = magnitude(bits) / (FRACTION_RANGE as int);
    let fraction = magnitude(bits) % (FRACTION_RANGE as int);
    if exponent == 0 {
        fraction
    } else {
        (FRACTION_RANGE + fraction) * pow2((exponent - 1) as nat)
    }
}

/// The number that a pattern other than a NaN or an infinity encodes, times
/// `2^1074`.
pub open spec fn scaled_value(bits: u64) -> int {
    if bits >= SIGN_BIT {
        -scaled_magnitude(bits)
    } else {
        scaled_magnitude(bits)
    }
}

/// A greater magnitude encodes a greater absolute value.
pub proof fn lemma_scaled_magnitude_increases(a: u64, b: u64)
    requires
        magnitude(a) < magnitude(b),
    ensures
        0 <= scaled_magnitude(a) < scaled_magnitude(b),
{
    let range = FRACTION_RANGE as int;
    let (ea, fa) = (magnitude(a) / range, magnitude(a) % range);
    let (eb, fb) = (magnitude(b) / range, magnitude(b) % range);
    assert(ea < eb || (ea == eb && fa < fb));
    if ea > 0 {
        let pa = pow2((ea - 1) as nat);
        let pb = pow2((eb - 1) as nat);
        lemma_pow2_pos((ea - 1) as nat);
        if ea < eb {
            lemma_pow2_unfold(ea as nat);
            if ea < eb - 1 {
                lemma_pow2_strictly_increases(ea as nat, (eb - 1) as nat);
            }
            assert((range + fa) * pa < (range + fb) * pb) by (nonlinear_arith)
                requires
                    0 <= fa < range,
                    0 <= fb,
                    0 < pa,
                    2 * pa <= pb,
            ;
        } else {
            assert((range + fa) * pa < (range + fb) * pa) by (nonlinear_arith)
                requires
                    0 <= fa < fb,
                    0 < pa,
                    0 < range,
            ;
        }
        assert(0 <= (range + fa) * pa) by (nonlinear_arith)
            requires
                0 <= fa,
                0 < pa,
                0 < range,
        ;
    } else if eb > 0 {
        let pb = pow2((eb - 1) as nat);
        lemma_pow2_pos((eb - 1) as nat);
        assert(range <= (range + fb) * pb) by (nonlinear_arith)
            requires
                0 <= fb,
                1 <= pb,
                0 < range,
        ;
    }
}

/// Patterns other than NaNs are ordered by [`order_key`] exactly as the
/// numbers that they encode are ordered, and have equal keys exactly where
/// they encode equal numbers, as the two zeros do.
pub proof fn lemma_order_key_orders_values(a: u64, b: u64)
    ensures
        order_key(a) < order_key(b) <==> scaled_value(a) < scaled_value(b),
        order_key(a) == order_key(b) <==> scaled_value(a) == scaled_value(b),
{
    if magnitude(a) < magnitude(b) {
        lemma_scaled_magnitude_increases(a, b);
    }
    if magnitude(b) < magnitude(a) {
        lemma_scaled_magnitude_increases(b, a);
    }
    if magnitude(a) > 0 {
        lemma_scaled_magnitude_increases(0, a);
    }
    if magnitude(b) > 0 {
        lemma_scaled_magnitude_increases(0, b);
    }
    assert(scaled_magnitude(0) == 0);
}

/// The pattern of a ratio encodes its significand at the ratio's binade.
proof fn lemma_unit_ratio_scaled(num: nat, den: nat)
    requires
        0 < num <= den <= u32::MAX,
    ensures
        binade(num, den) <= 32,
        scaled_value(unit_ratio_bits(num, den) as u64) == round_half_even(
            num * pow2(52 + binade(num, den)),
            den,
        ) * pow2((1022 - binade(num, den)) as nat),
{
    let k = binade(num, den);
    let m = round_half_even(num * pow2(52 + k), den);
    let bits = unit_ratio_bits(num, den);
    lemma2_to64_rest();
    lemma_binade_small(num, den);
    lemma_significand_range(num, den);
    lemma_unit_ratio_bits_range(num, den);
    assert(bits == (1022 - k) * 0x10_0000_0000_0000 + m);
    let low = pow2((1022 - k) as nat);
    if m < 0x20_0000_0000_0000 {
        assert((bits as u64) / FRACTION_RANGE == 1023 - k);
        assert((bits as u64) % FRACTION_RANGE == m - 0x10_0000_0000_0000);
    } else {
        assert((bits as u64) / FRACTION_RANGE == 1024 - k);
        assert((bits as u64) % FRACTION_RANGE == 0);
        lemma_pow2_unfold((1023 - k) as nat);
        assert(0x10_0000_0000_0000 * (2 * low) == 0x20_0000_0000_0000 * low) by (nonlinear_arith);
    }
}

/// The number that the pattern of a ratio encodes is within `2^-54` of the
/// ratio. Both sides are scaled by `2^1074` and by the denominator.
pub proof fn lemma_unit_ratio_near(num: nat, den: nat)
    requires
        num <= den,
        0 < den <= u32::MAX,
    ensures
        -(den * pow2(1020)) <= scaled_value(unit_ratio_bits(num, den) as u64) * den - num * pow2(
            1074,
        ) <= den * pow2(1020),
{
    let value = scaled_value(unit_ratio_bits(num, den) as u64);
    let unit = pow2(1020);
    lemma_pow2_pos(1020);
    assert(0 <= den * unit) by (nonlinear_arith)
        requires
            0 < den,
            0 < unit,
    ;
    if num == 0 {
        assert(value == 0);
        assert(0 * den - 0 * pow2(1074) == 0) by (nonlinear_arith);
    } else {
        let k = binade(num, den);
        let n = num * pow2(52 + k);
        let m = round_half_even(n, den);
        let low = pow2((1022 - k) as nat);
        lemma_unit_ratio_scaled(num, den);
        lemma_round_half_even_near(n, den);
        lemma_pow2_adds(52 + k, (1022 - k) as nat);
        lemma_pow2_pos((1022 - k) as nat);
        assert(pow2(1074) == pow2(52 + k) * low);
        assert(value * den - num * pow2(1074) == (m * den - n) * low) by (nonlinear_arith)
            requires
                value == m * low,
                n == num * pow2(52 + k),
                pow2(1074) == pow2(52 + k) * low,
        ;
        if num == den {
            lemma_significand_range(num, den);
            lemma2_to64_rest();
            assert(k == 0);
            assert(m * den - n == 0) by (nonlinear_arith)
                requires
                    m == pow2(52),
                    n == den * pow2(52),
            ;
            assert(0 * low == 0) by (nonlinear_arith);
        } else {
            assert(k >= 1);
            if k > 1 {
                lemma_pow2_strictly_increases((1022 - k) as nat, 1021);
            }
            lemma_pow2_unfold(1021);
            assert(low <= 2 * unit);
            assert(-(den * unit) <= (m * den - n) * low <= den * unit) by (nonlinear_arith)
                requires
                    -den <= 2 * (m * den - n) <= den,
                    0 < low <= 2 * unit,
                    0 < den,
            ;
        }
    }
}

/// Encodes `num / den`, a ratio between 0 and 1, as a binary64 pattern,
/// rounded to nearest with ties to even.
pub fn unit_ratio(num: u32, den: u32) -> (bits: u64)
    requires
        0 < den,
        num <= den,
    ensures
        bits == unit_ratio_bits(num as nat, den as nat),
{
    if num == 0 {
        return 0;
    }
    let mut scaled: u64 = num as u64;
    let mut k: u64 = 0;
    proof {
        lemma2_to64();
    }
    while scaled < den as u64
        invariant
            0 < num <= den,
            0 < scaled,
            scaled == num * pow2(k as nat),
            k <= 32,
            k > 0 ==> scaled < 2 * den,
            binade(num as nat, den as nat) == k + binade(scaled as nat, den as nat),
        decreases (if scaled < den { den - scaled } else { 0 }),
    {
        proof {
            lemma_pow2_unfold((k + 1) as nat);
            assert(num * (2 * pow2(k as nat)) == 2 * (num * pow2(k as nat))) by (nonlinear_arith);
            if k >= 32 {
                lemma2_to64();
                if k > 32 {
                    lemma_pow2_strictly_increases(32, k as nat);
                }
                assert(num * pow2(k as nat) >= pow2(k as nat)) by (nonlinear_arith)
                    requires
                        num >= 1,
                ;
            }
        }
        scaled = scaled * 2;
        k = k + 1;
    }
    let n: u128 = (scaled as u128) * (FRACTION_RANGE as u128);
    let d: u128 = den as u128;
    let q: u128 = n / d;
    let r: u128 = n % d;
    proof {
        lemma2_to64_rest();
        lemma_pow2_adds(52, k as nat);
        assert(num * (pow2(52) * pow2(k as nat)) == (num * pow2(k as nat)) * pow2(52))
            by (nonlinear_arith);
        assert(n == num * pow2((52 + k) as nat));
        assert(q < 2 * FRACTION_RANGE) by (nonlinear_arith)
            requires
                q == n / d,
                n == scaled * FRACTION_RANGE,
                scaled < 2 * d,
                d > 0,
        ;
    }
    let rounded: u128 = if 2 * r < d {
        q
    } else if 2 * r > d {
        q + 1
    } else if q % 2 == 0 {
        q
    } else {
        q + 1
    };
    ((1022 - k) * FRACTION_RANGE + rounded as u64)
}

} // verus!
