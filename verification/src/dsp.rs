//! Numeric primitives on single-precision bit patterns.
//!
//! A single-precision number is carried as its IEEE-754 encoding in a `u32`:
//! one sign bit, eight exponent bits, twenty-three fraction bits. Every finite
//! number of that format is a whole multiple of 2^-149, so its magnitude is
//! modelled by the natural number `scaled_magnitude`, the magnitude times
//! 2^149. The functions here compute what is exact on that model: splitting a
//! number into whole part and fraction after scaling by a power of two,
//! truncation, conversion to a fixed-point sample, sign transfer and clamping.

use vstd::arithmetic::div_mod::{
    lemma_basic_div, lemma_div_by_multiple, lemma_div_by_multiple_is_strongly_ordered,
    lemma_div_pos_is_pos, lemma_fundamental_div_mod, lemma_fundamental_div_mod_converse,
    lemma_mod_multiples_vanish, lemma_small_mod,
};
use vstd::arithmetic::mul::lemma_mul_is_associative;
use vstd::arithmetic::power2::{
    lemma2_to64, lemma2_to64_rest, lemma_pow2_adds, lemma_pow2_pos,
    lemma_pow2_strictly_increases, pow2,
};
use vstd::bits::{lemma_u32_shl_is_mul, lemma_u32_shr_is_div, lemma_u64_shl_is_mul};
use vstd::prelude::*;

verus! {

/// The sign bit of an encoding.
pub const SIGN_MASK: u32 = 0x8000_0000;

/// The weight of the implicit leading bit of a normal number's significand.
pub const HIDDEN_BIT: u32 = 0x0080_0000;

/// The encoding of one.
pub const ONE_BITS: u32 = 0x3f80_0000;

/// The encoding of one half.
pub const HALF_BITS: u32 = 0x3f00_0000;

/// The encoding of minus one.
pub const MINUS_ONE_BITS: u32 = 0xbf80_0000;

/// The encoding of 2^31, the first number that a signed 32-bit integer cannot hold.
pub const TWO_POW_31_BITS: u32 = 0x4f00_0000;

/// The encoding of 2^32, the first number that an unsigned 32-bit integer cannot hold.
pub const TWO_POW_32_BITS: u32 = 0x4f80_0000;

/// The encoding of 2^64, the first number that an unsigned 64-bit integer cannot hold.
pub const TWO_POW_64_BITS: u32 = 0x5f80_0000;

/// The encoding of positive infinity. The encodings above it, the sign bit
/// left out, are NaNs.
pub const INFINITY_BITS: u32 = 0x7f80_0000;

/// Whether the sign bit is set.
pub open spec fn sign_bit(bits: u32) -> bool {
    bits >= 0x8000_0000
}

/// The encoding with its sign bit cleared.
pub open spec fn magnitude_bits(bits: u32) -> u32 {
    (bits % 0x8000_0000) as u32
}

/// The exponent field.
pub open spec fn exponent(bits: u32) -> nat {
    (bits / 0x80_0000 % 256) as nat
}

/// The fraction field.
pub open spec fn fraction(bits: u32) -> nat {
    (bits % 0x80_0000) as nat
}

/// Neither an infinity nor a NaN.
pub open spec fn is_finite(bits: u32) -> bool {
    exponent(bits) != 255
}

/// A NaN.
pub open spec fn is_nan(bits: u32) -> bool {
    exponent(bits) == 255 && fraction(bits) != 0
}

/// The magnitude of a finite number, times 2^149.
pub open spec fn scaled_magnitude(bits: u32) -> nat {
    if exponent(bits) == 0 {
        fraction(bits)
    } else {
        (0x80_0000 + fraction(bits)) * pow2((exponent(bits) - 1) as nat)
    }
}

/// The value of a finite number, times 2^149.
pub open spec fn scaled(bits: u32) -> int {
    if sign_bit(bits) {
        -(scaled_magnitude(bits) as int)
    } else {
        scaled_magnitude(bits) as int
    }
}

/// One, times 2^149.
pub open spec fn unit() -> nat {
    pow2(149)
}

/// Division and remainder by a product cancel a common factor.
proof fn lemma_cancel_factor(a: int, b: int, c: int)
    requires
        0 <= a,
        0 < b,
        0 < c,
    ensures
        (a * c) / (b * c) == a / b,
        (a * c) % (b * c) == (a % b) * c,
{
    let q = a / b;
    let r = a % b;
    lemma_fundamental_div_mod(a, b);
    assert(a * c == (b * c) * q + r * c) by (nonlinear_arith)
        requires
            a == b * q + r,
    ;
    assert(0 <= r * c < b * c) by (nonlinear_arith)
        requires
            0 <= r < b,
            0 < c,
    ;
    lemma_fundamental_div_mod_converse(a * c, b * c, q, r * c);
}

/// A power of two below another has the smaller exponent.
proof fn lemma_pow2_lt_exponent(a: nat, b: nat)
    requires
        pow2(a) < pow2(b),
    ensures
        a < b,
{
    if a > b {
        lemma_pow2_strictly_increases(b, a);
    }
}

/// What the fields of the encoding add up to.
proof fn lemma_fields(bits: u32)
    requires
        bits < 0x8000_0000,
    ensures
        exponent(bits) == bits / 0x80_0000,
        bits == exponent(bits) * 0x80_0000 + fraction(bits),
        fraction(bits) < 0x80_0000,
{
}

/// The encoding of the number `mant * 2^(t - 150)`, which is below one.
fn encode(mant: u32, t: u32) -> (bits: u32)
    requires
        mant < 0x100_0000,
        1 <= t <= 254,
        mant * pow2((t - 1) as nat) < pow2(149),
    ensures
        bits < ONE_BITS,
        scaled_magnitude(bits) == mant * pow2((t - 1) as nat),
{
    if mant == 0 {
        assert(0 * pow2((t - 1) as nat) == 0) by (nonlinear_arith);
        return 0;
    }
    let ghost target = mant * pow2((t - 1) as nat);
    let mut m: u32 = mant;
    let mut e: u32 = t;
    while m < HIDDEN_BIT && e > 1
        invariant
            0 < m < 0x100_0000,
            1 <= e <= t,
            t <= 254,
            m * pow2((e - 1) as nat) == target,
            target < pow2(149),
        decreases e,
    {
        proof {
            lemma_pow2_adds(1, (e - 2) as nat);
            lemma2_to64();
            let p = pow2((e - 2) as nat) as int;
            assert((m * 2) * p == m * (2 * p)) by (nonlinear_arith);
        }
        m = m * 2;
        e = e - 1;
    }
    if m >= HIDDEN_BIT {
        proof {
            // The leading bit has weight 2^(e + 22), which the bound on the target caps.
            lemma_pow2_adds(23, (e - 1) as nat);
            lemma2_to64();
            let p = pow2((e - 1) as nat) as int;
            assert(0x80_0000 * p <= m * p) by (nonlinear_arith)
                requires
                    0x80_0000 <= m,
                    0 <= p,
            ;
            lemma_pow2_lt_exponent((22 + e) as nat, 149);
        }
        let bits: u32 = e * HIDDEN_BIT + (m - HIDDEN_BIT);
        assert(bits / 0x80_0000 == e && bits % 0x80_0000 == m - 0x80_0000) by {
            lemma_fundamental_div_mod_converse(
                bits as int,
                0x80_0000,
                e as int,
                (m - 0x80_0000) as int,
            );
        }
        bits
    } else {
        proof {
            lemma2_to64();
        }
        m
    }
}

/// Scales a number by a power of two and splits the product into its whole
/// part and its fraction.
///
/// The number must not be negative, and the product must be below 2^64.
/// The fraction comes back as an encoding: it is below one and exact.
pub fn split_pow2(bits: u32, shift: u32) -> (parts: (u64, u32))
    requires
        shift <= 63,
        below_pow2(bits, 64 - shift),
    ensures
        parts.0 == scaled_magnitude(bits) * pow2(shift as nat) / unit(),
        parts.1 < ONE_BITS,
        scaled_magnitude(parts.1) == scaled_magnitude(bits) * pow2(shift as nat) % unit(),
{
    proof {
        lemma_fields(bits);
    }
    let e: u32 = bits / HIDDEN_BIT;
    let f: u32 = bits % HIDDEN_BIT;
    // The product is `mant * 2^(t - 150)`.
    let (mant, t): (u32, u32) = if e == 0 {
        (f, 1 + shift)
    } else {
        (f + HIDDEN_BIT, e + shift)
    };
    let ghost product = scaled_magnitude(bits) * pow2(shift as nat);
    proof {
        let low = pow2((t - shift - 1) as nat) as int;
        let high = pow2(shift as nat) as int;
        lemma_pow2_adds((t - shift - 1) as nat, shift as nat);
        lemma2_to64();
        if e == 0 {
            assert(scaled_magnitude(bits) == mant * low) by (nonlinear_arith)
                requires
                    scaled_magnitude(bits) == mant,
                    low == 1,
            ;
        }
        assert(scaled_magnitude(bits) == mant * low);
        lemma_mul_is_associative(mant as int, low, high);
        assert(product == mant * pow2((t - 1) as nat));
        lemma_pow2_pos((t - 1) as nat);
    }
    if t >= 150 {
        let up: u32 = t - 150;
        proof {
            // 2^(t - 1) is 2^up times the unit.
            lemma_pow2_adds(up as nat, 149);
            lemma_pow2_pos(149);
            lemma_pow2_pos(up as nat);
            if up < 40 {
                lemma_pow2_strictly_increases(up as nat, 40);
            }
            lemma2_to64();
            lemma2_to64_rest();
            let p = pow2(up as nat) as int;
            let u = pow2(149) as int;
            assert(mant * p < 0x100_0000 * 0x100_0000_0000) by (nonlinear_arith)
                requires
                    0 <= mant < 0x100_0000,
                    0 < p <= 0x100_0000_0000,
            ;
            lemma_u64_shl_is_mul(mant as u64, up as u64);
            assert(mant * (p * u) == (mant * p) * u) by (nonlinear_arith);
            lemma_fundamental_div_mod_converse(product as int, u, mant * p, 0);
        }
        ((mant as u64) << (up as u64), 0)
    } else {
        let down: u32 = 150 - t;
        let (whole, rest): (u32, u32) = if down >= 24 {
            proof {
                if down > 24 {
                    lemma_pow2_strictly_increases(24, down as nat);
                }
                lemma2_to64();
                lemma_small_mod(mant as nat, pow2(down as nat));
                lemma_basic_div(
                    mant as int,
                    pow2(down as nat) as int,
                );
            }
            (0, mant)
        } else {
            let whole = mant >> down;
            proof {
                lemma_u32_shr_is_div(mant, down);
                lemma_pow2_pos(down as nat);
                lemma_pow2_strictly_increases(down as nat, 24);
                lemma2_to64();
                lemma_fundamental_div_mod(mant as int, pow2(down as nat) as int);
                lemma_u32_shl_is_mul(whole, down);
                assert(whole * pow2(down as nat) == pow2(down as nat) * whole) by (nonlinear_arith);
            }
            (whole, mant - (whole << down))
        };
        proof {
            // The unit is 2^down times 2^(t - 1).
            let p = pow2((t - 1) as nat) as int;
            let d = pow2(down as nat) as int;
            lemma_pow2_adds(down as nat, (t - 1) as nat);
            lemma_pow2_pos(down as nat);
            lemma_cancel_factor(mant as int, d, p);
            assert(whole == mant as int / d);
            assert(rest == mant as int % d);
            assert(rest * p < d * p) by (nonlinear_arith)
                requires
                    0 <= rest < d,
                    0 < p,
            ;
        }
        (whole as u64, encode(rest, t))
    }
}

/// Among the encodings of numbers that are not negative, the larger encoding
/// is that of the larger number. Positive infinity, read by the same formula
/// as a finite number, lies above them all.
pub proof fn lemma_scaled_strictly_increases(a: u32, b: u32)
    requires
        a < b,
        b <= INFINITY_BITS,
    ensures
        scaled_magnitude(a) < scaled_magnitude(b),
{
    lemma_fields(a);
    lemma_fields(b);
    let (ea, fa) = (exponent(a), fraction(a) as int);
    let (eb, fb) = (exponent(b), fraction(b) as int);
    if ea == eb {
        if ea > 0 {
            let p = pow2((ea - 1) as nat) as int;
            lemma_pow2_pos((ea - 1) as nat);
            assert((0x80_0000 + fa) * p < (0x80_0000 + fb) * p) by (nonlinear_arith)
                requires
                    fa < fb,
                    0 < p,
            ;
        }
    } else {
        assert(ea < eb) by (nonlinear_arith)
            requires
                a < b,
                a == ea * 0x80_0000 + fa,
                b == eb * 0x80_0000 + fb,
                0 <= fa < 0x80_0000,
                0 <= fb < 0x80_0000,
                ea != eb,
        ;
        let q = pow2((eb - 1) as nat) as int;
        lemma2_to64();
        if ea == 0 {
            lemma_pow2_pos((eb - 1) as nat);
            assert(fa < (0x80_0000 + fb) * q) by (nonlinear_arith)
                requires
                    fa < 0x80_0000,
                    0 <= fb,
                    1 <= q,
            ;
        } else {
            let p = pow2((ea - 1) as nat) as int;
            lemma_pow2_pos((ea - 1) as nat);
            lemma_pow2_adds(1, (ea - 1) as nat);
            if ea < eb - 1 {
                lemma_pow2_strictly_increases(ea, (eb - 1) as nat);
            }
            assert((0x80_0000 + fa) * p < (0x80_0000 + fb) * q) by (nonlinear_arith)
                requires
                    0 <= fa < 0x80_0000,
                    0 <= fb,
                    0 < p,
                    2 * p <= q,
            ;
        }
    }
}

/// Two encodings of finite numbers that are not negative stand for the same
/// number only if they are the same encoding.
pub proof fn lemma_scaled_is_injective(a: u32, b: u32)
    requires
        a < INFINITY_BITS,
        b < INFINITY_BITS,
        scaled_magnitude(a) == scaled_magnitude(b),
    ensures
        a == b,
{
    if a < b {
        lemma_scaled_strictly_increases(a, b);
    } else if b < a {
        lemma_scaled_strictly_increases(b, a);
    }
}

/// The encoding of one stands for one, and an encoding below it for a number below one.
pub proof fn lemma_below_one(bits: u32)
    requires
        bits <= ONE_BITS,
    ensures
        scaled_magnitude(ONE_BITS) == unit(),
        bits < ONE_BITS ==> scaled_magnitude(bits) < unit(),
{
    lemma_fields(ONE_BITS);
    lemma_pow2_adds(23, 126);
    lemma2_to64();
    if bits < ONE_BITS {
        lemma_scaled_strictly_increases(bits, ONE_BITS);
    }
}

/// A number that is not negative and below 2^`k`, for `k` from -126 to 128.
pub open spec fn below_pow2(bits: u32, k: int) -> bool {
    bits < (127 + k) * 0x80_0000
}

/// What `below_pow2` says of the number that an encoding stands for.
pub proof fn lemma_below_pow2(bits: u32, k: int)
    requires
        -126 <= k <= 128,
        bits <= INFINITY_BITS,
    ensures
        below_pow2(bits, k) <==> scaled_magnitude(bits) < pow2((149 + k) as nat),
{
    // The encoding of 2^k.
    let power = ((127 + k) * 0x80_0000) as u32;
    lemma_fields(power);
    lemma_fundamental_div_mod_converse(power as int, 0x80_0000, 127 + k, 0);
    lemma_pow2_adds(23, (126 + k) as nat);
    lemma2_to64();
    assert(scaled_magnitude(power) == pow2((149 + k) as nat));
    if bits < power {
        lemma_scaled_strictly_increases(bits, power);
    } else if bits > power {
        lemma_scaled_strictly_increases(power, bits);
    }
}

/// Gives `x` the sign of `y`.
pub fn si_copysign(x: u32, y: u32) -> (r: u32)
    ensures
        magnitude_bits(r) == magnitude_bits(x),
        sign_bit(r) == sign_bit(y),
{
    let mut xi: u32 = x;
    let yi: u32 = y;

    xi = xi & 0x7fff_ffff;
    xi = xi | (yi & SIGN_MASK);

    assert(((x & 0x7fff_ffff) | (y & 0x8000_0000)) % 0x8000_0000 == x % 0x8000_0000)
        by (bit_vector);
    assert(((x & 0x7fff_ffff) | (y & 0x8000_0000)) >= 0x8000_0000 <==> y >= 0x8000_0000)
        by (bit_vector);
    xi
}

/// A number that a fixed-point sample can hold: from minus one up to, but not
/// including, one.
pub open spec fn is_sample(bits: u32) -> bool {
    magnitude_bits(bits) < ONE_BITS || bits == MINUS_ONE_BITS
}

/// Whether a fixed-point sample can hold the number.
pub fn is_sample_bits(x: u32) -> (fits: bool)
    ensures
        fits == is_sample(x),
{
    let magnitude = if x >= SIGN_MASK {
        x - SIGN_MASK
    } else {
        x
    };
    magnitude < ONE_BITS || x == MINUS_ONE_BITS
}

/// The fixed-point sample of a number: the number times 2^31, truncated
/// toward zero.
pub open spec fn q31_of(bits: u32) -> int {
    let whole = (scaled_magnitude(magnitude_bits(bits)) * pow2(31) / unit()) as int;
    if sign_bit(bits) {
        -whole
    } else {
        whole
    }
}

/// Converts a number from minus one up to, but not including, one to a
/// signed fixed-point sample with 31 fractional bits.
pub fn f32_to_q31(x: u32) -> (q: i32)
    requires
        is_sample(x),
    ensures
        q == q31_of(x),
{
    let negative = x >= SIGN_MASK;
    let magnitude: u32 = if negative {
        x - SIGN_MASK
    } else {
        x
    };
    proof {
        lemma_below_one(magnitude);
        lemma2_to64();
        let s = scaled_magnitude(magnitude) as int;
        let p = pow2(31) as int;
        let u = unit() as int;
        lemma_pow2_pos(149);
        // The product is at most 2^31 units, and below that for a magnitude below one.
        assert(s * p <= u * p && (s < u ==> s * p < u * p)) by (nonlinear_arith)
            requires
                0 <= s <= u,
                0 < p,
        ;
        assert(u * p == p * u) by (nonlinear_arith);
        if s < u {
            lemma_div_by_multiple_is_strongly_ordered(
                s * p,
                p * u,
                p,
                u,
            );
        }
        lemma_div_by_multiple(p, u);
    }
    let (whole, _) = split_pow2(magnitude, 31);
    if negative {
        if whole >= 0x8000_0000 {
            i32::MIN
        } else {
            -(whole as i32)
        }
    } else {
        whole as i32
    }
}

/// A sample, read back as the number `q / 2^31`, is within one step of
/// 2^-31 of the number it was made from: the two, times 2^31, differ by less
/// than one, and the sample is never the larger in magnitude.
pub proof fn lemma_q31_round_trip(x: u32)
    requires
        is_sample(x),
    ensures
        -pow2(31) <= q31_of(x) < pow2(31),
        !sign_bit(x) ==> q31_of(x) * unit() <= scaled(x) * pow2(31) < (q31_of(x) + 1) * unit(),
        sign_bit(x) ==> (q31_of(x) - 1) * unit() < scaled(x) * pow2(31) <= q31_of(x) * unit(),
{
    let magnitude = magnitude_bits(x);
    lemma_below_one(magnitude);
    let s = scaled_magnitude(magnitude) as int;
    let p = pow2(31) as int;
    let u = unit() as int;
    lemma_pow2_pos(149);
    lemma_pow2_pos(31);
    lemma_magnitude(x);
    assert(0 <= s * p <= u * p && (s < u ==> s * p < u * p)) by (nonlinear_arith)
        requires
            0 <= s <= u,
            0 < p,
    ;
    assert(u * p == p * u) by (nonlinear_arith);
    lemma_fundamental_div_mod(s * p, u);
    let w = (s * p) / u;
    assert(u * w == w * u) by (nonlinear_arith);
    assert((w + 1) * u == w * u + u) by (nonlinear_arith);
    assert((-w - 1) * u == -(w * u) - u) by (nonlinear_arith);
    assert((-w) * u == -(w * u)) by (nonlinear_arith);
    assert((-s) * p == -(s * p)) by (nonlinear_arith);
    if s < u {
        lemma_div_by_multiple_is_strongly_ordered(s * p, p * u, p, u);
    }
    lemma_div_by_multiple(p, u);
    lemma_div_pos_is_pos(s * p, u);
}

/// The whole part of a number below 2^31 in magnitude, as a number: the
/// number truncated toward zero. A whole part of zero comes back as positive
/// zero, whatever the sign was.
pub fn truncf(x: u32) -> (r: u32)
    requires
        magnitude_bits(x) < TWO_POW_31_BITS,
    ensures
        scaled_magnitude(magnitude_bits(r)) == scaled_magnitude(magnitude_bits(x)) / unit()
            * unit(),
        magnitude_bits(r) <= magnitude_bits(x),
        magnitude_bits(r) == 0 ==> r == 0,
        magnitude_bits(r) != 0 ==> sign_bit(r) == sign_bit(x),
{
    let negative = x >= SIGN_MASK;
    let magnitude: u32 = if negative {
        x - SIGN_MASK
    } else {
        x
    };
    proof {
        lemma_fields(magnitude);
        lemma_pow2_pos(149);
    }
    let e: u32 = magnitude / HIDDEN_BIT;
    let f: u32 = magnitude % HIDDEN_BIT;
    let ghost mant = (0x80_0000 + f) as int;
    if e < 127 {
        proof {
            lemma_below_one(magnitude);
            lemma_basic_div(
                scaled_magnitude(magnitude) as int,
                unit() as int,
            );
            assert(scaled_magnitude(magnitude) / unit() == 0);
            assert(0 * unit() == 0) by (nonlinear_arith);
            assert(scaled_magnitude(0) == 0);
        }
        return 0;
    }
    let ghost p = pow2((e - 1) as nat) as int;
    proof {
        lemma_pow2_pos((e - 1) as nat);
    }
    if e >= 150 {
        proof {
            // The number is `mant * 2^(e - 150)` units.
            let up = pow2((e - 150) as nat) as int;
            lemma_pow2_adds((e - 150) as nat, 149);
            assert(mant * (up * unit()) == (mant * up) * unit()) by (nonlinear_arith);
            lemma_div_by_multiple(mant * up, unit() as int);
        }
        return x;
    }
    let down: u32 = 150 - e;
    let step: u32 = 1u32 << down;
    proof {
        let d = pow2(down as nat) as int;
        lemma_pow2_pos(down as nat);
        lemma_pow2_strictly_increases(down as nat, 24);
        lemma2_to64();
        lemma_u32_shl_is_mul(1, down);
        assert(step == d);
        // 2^23 is a multiple of the step, so the low bits of the encoding are
        // those of the significand.
        let rest = pow2((23 - down) as nat) as int;
        lemma_pow2_adds(down as nat, (23 - down) as nat);
        assert(magnitude == d * (e * rest) + f) by (nonlinear_arith)
            requires
                magnitude == e * 0x80_0000 + f,
                d * rest == 0x80_0000,
        ;
        assert(mant == d * rest + f);
        lemma_mod_multiples_vanish(e * rest, f as int, d);
        lemma_mod_multiples_vanish(rest, f as int, d);
        assert(magnitude as int % d == f as int % d);
        assert(mant % d == f as int % d);
        lemma_fundamental_div_mod(mant, d);
        lemma_fundamental_div_mod(f as int, d);
        // The unit is the step times 2^(e - 1).
        lemma_pow2_adds(down as nat, (e - 1) as nat);
        lemma_cancel_factor(mant, d, p);
    }
    let low: u32 = magnitude % step;
    let whole: u32 = magnitude - low;
    proof {
        let d = pow2(down as nat) as int;
        assert(whole == e * 0x80_0000 + (f - low));
        assert(0 <= f - low < 0x80_0000);
        lemma_fundamental_div_mod_converse(whole as int, 0x80_0000, e as int, (f - low) as int);
        lemma_fields(whole);
        assert(exponent(whole) == e && fraction(whole) == f - low);
        assert(mant - low == d * (mant / d));
        assert((mant - low) * p == (mant / d) * (d * p)) by (nonlinear_arith)
            requires
                mant - low == d * (mant / d),
        ;
    }
    if negative {
        whole + SIGN_MASK
    } else {
        whole
    }
}

/// The place of a number in the order of the numbers: the encoding of a
/// number that is not negative, and the negated encoding of the magnitude of
/// one that is. The two zeros share a place.
pub open spec fn order_key(bits: u32) -> int {
    if sign_bit(bits) {
        -(magnitude_bits(bits) as int)
    } else {
        bits as int
    }
}

/// The place of a number in the order of the numbers.
fn order_key_of(bits: u32) -> (key: i64)
    ensures
        key == order_key(bits),
{
    if bits >= SIGN_MASK {
        -((bits - SIGN_MASK) as i64)
    } else {
        bits as i64
    }
}

/// The sign bit does not weigh in the magnitude.
proof fn lemma_magnitude(bits: u32)
    ensures
        scaled_magnitude(bits) == scaled_magnitude(magnitude_bits(bits)),
        is_finite(bits) == is_finite(magnitude_bits(bits)),
        is_finite(bits) <==> magnitude_bits(bits) < INFINITY_BITS,
{
    let magnitude = magnitude_bits(bits);
    lemma_fields(magnitude);
    if sign_bit(bits) {
        assert(bits == magnitude + 0x8000_0000);
        assert(exponent(bits) == exponent(magnitude) && fraction(bits) == fraction(magnitude));
    }
}

/// Finite numbers stand in the order of their keys.
pub proof fn lemma_order_key(a: u32, b: u32)
    requires
        is_finite(a),
        is_finite(b),
    ensures
        order_key(a) <= order_key(b) <==> scaled(a) <= scaled(b),
{
    lemma_magnitude(a);
    lemma_magnitude(b);
    let (ma, mb) = (magnitude_bits(a), magnitude_bits(b));
    if ma < mb {
        lemma_scaled_strictly_increases(ma, mb);
    } else if mb < ma {
        lemma_scaled_strictly_increases(mb, ma);
    }
    assert(scaled_magnitude(0) == 0);
    if ma > 0 {
        lemma_scaled_strictly_increases(0, ma);
    }
    if mb > 0 {
        lemma_scaled_strictly_increases(0, mb);
    }
}

/// Whether the encoding is that of a NaN.
pub fn is_nan_bits(bits: u32) -> (nan: bool)
    ensures
        nan == is_nan(bits),
{
    let magnitude = if bits >= SIGN_MASK {
        bits - SIGN_MASK
    } else {
        bits
    };
    magnitude > INFINITY_BITS
}

/// Holds a number between `min` and `max`: a number below `min` gives `min`,
/// one above `max` gives `max`, any other, a NaN too, comes back as it is.
pub fn clampf(x: u32, min: u32, max: u32) -> (r: u32)
    requires
        !is_nan(min),
        !is_nan(max),
        order_key(min) <= order_key(max),
    ensures
        r == if is_nan(x) {
            x
        } else if order_key(x) < order_key(min) {
            min
        } else if order_key(x) > order_key(max) {
            max
        } else {
            x
        },
{
    if is_nan_bits(x) {
        return x;
    }
    let key = order_key_of(x);
    if key < order_key_of(min) {
        min
    } else if key > order_key_of(max) {
        max
    } else {
        x
    }
}

} // verus!
