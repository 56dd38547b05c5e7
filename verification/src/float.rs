//! 32-bit floating-point numbers as bit patterns: how the data of a program is
//! written down.

use vstd::prelude::*;
use vstd::arithmetic::power2::{lemma2_to64, lemma_pow2_unfold, pow2};

verus! {

/// The exponent and mantissa bits of `mantissa` times two to the power
/// `exponent - 150`, where the mantissa is brought to its full 24 bits.
pub open spec fn scaled(mantissa: int, exponent: int) -> int
    decreases 0x1000000 - mantissa,
{
    if mantissa <= 0 {
        0
    } else if mantissa >= 0x800000 {
        exponent * 0x800000 + (mantissa - 0x800000)
    } else {
        scaled(2 * mantissa, exponent - 1)
    }
}

/// The bits of `n / 128`.
pub open spec fn float_bits(n: int) -> int {
    if n < 0 {
        0x80000000 + scaled(-n, 143)
    } else {
        scaled(n, 143)
    }
}

/// The bits of a whole number of less than 25 bits.
pub open spec fn whole_bits(n: int) -> int {
    if n < 0 {
        0x80000000 + scaled(-n, 150)
    } else {
        scaled(n, 150)
    }
}

/// Whether `bits` are those of `n / 128`: the sign bit is set exactly for negative
/// numbers, zero has no bit set, and otherwise the mantissa with its leading one,
/// times two to the power of the exponent, is the number.
pub open spec fn stands_for(bits: int, n: int) -> bool {
    let size = if n < 0 {
        -n
    } else {
        n
    };
    let exponent = (bits / 0x800000) % 256;
    let mantissa = bits % 0x800000;
    &&& 0 <= bits < 0x100000000
    &&& bits >= 0x80000000 <==> n < 0
    &&& n == 0 ==> bits == 0
    &&& n != 0 ==> 1 <= exponent <= 143 && 0x800000 + mantissa == size * pow2(
        (143 - exponent) as nat,
    )
}

proof fn scaled_is_normal(size: int, mantissa: int, exponent: int)
    requires
        1 <= size < 0x10000,
        1 <= mantissa < 0x1000000,
        exponent <= 143,
        mantissa == size * pow2((143 - exponent) as nat),
    ensures
        ({
            let bits = scaled(mantissa, exponent);
            let e = bits / 0x800000;
            &&& 0 <= bits < 0x80000000
            &&& 1 <= e <= 143
            &&& 0x800000 + bits % 0x800000 == size * pow2((143 - e) as nat)
        }),
    decreases 0x1000000 - mantissa,
{
    if exponent < 119 {
        power_is_large((143 - exponent) as nat);
        assert(size * pow2((143 - exponent) as nat) >= 0x1000000) by (nonlinear_arith)
            requires
                size >= 1,
                pow2((143 - exponent) as nat) >= 0x1000000,
        ;
    }
    if mantissa < 0x800000 {
        let k = (143 - exponent) as nat;
        lemma_pow2_unfold(k + 1);
        assert(pow2(k + 1) == 2 * pow2(k));
        assert(2 * mantissa == size * pow2(k + 1)) by (nonlinear_arith)
            requires
                mantissa == size * pow2(k),
                pow2(k + 1) == 2 * pow2(k),
        ;
        scaled_is_normal(size, 2 * mantissa, exponent - 1);
    } else {
        let bits = scaled(mantissa, exponent);
        assert(bits == exponent * 0x800000 + (mantissa - 0x800000));
    }
}

proof fn power_is_large(k: nat)
    requires
        k >= 24,
    ensures
        pow2(k) >= 0x1000000,
    decreases k,
{
    if k == 24 {
        lemma2_to64();
    } else {
        power_is_large((k - 1) as nat);
        lemma_pow2_unfold(k);
    }
}

/// The bits of `n / 128` stand for it exactly: nothing is rounded.
pub proof fn samples_are_exact(n: int)
    requires
        -0x10000 < n < 0x10000,
    ensures
        stands_for(float_bits(n), n),
{
    let size = if n < 0 {
        -n
    } else {
        n
    };
    if n != 0 {
        lemma2_to64();
        assert(size * pow2(0) == size) by (nonlinear_arith)
            requires
                pow2(0) == 1,
        ;
        scaled_is_normal(size, size, 143);
        let bits = scaled(size, 143);
        if n < 0 {
            let all = 0x80000000 + bits;
            assert((all / 0x800000) % 256 == bits / 0x800000);
            assert(all % 0x800000 == bits % 0x800000);
        }
    }
}

/// The bits of `n / 128`.
pub fn to_float_bits(n: i16) -> (r: u32)
    ensures
        r == float_bits(n as int),
{
    let wide: i32 = n as i32;
    let size: u32 = if wide < 0 {
        (-wide) as u32
    } else {
        wide as u32
    };
    proof {
        samples_are_exact(n as int);
    }
    if size == 0 {
        return 0;
    }
    let mut mantissa: u32 = size;
    let mut exponent: u32 = 143;
    proof {
        lemma2_to64();
        assert(size * pow2(0) == size) by (nonlinear_arith)
            requires
                pow2(0) == 1,
        ;
    }
    while mantissa < 0x800000
        invariant
            1 <= size <= 0x8000,
            1 <= mantissa < 0x1000000,
            exponent <= 143,
            mantissa == size * pow2((143 - exponent) as nat),
            scaled(mantissa as int, exponent as int) == scaled(size as int, 143),
        decreases 0x1000000 - mantissa,
    {
        proof {
            let k = (143 - exponent) as nat;
            if k >= 24 {
                power_is_large(k);
                assert(size * pow2(k) >= 0x1000000) by (nonlinear_arith)
                    requires
                        size >= 1,
                        pow2(k) >= 0x1000000,
                ;
            }
            lemma_pow2_unfold(k + 1);
            assert(2 * mantissa == size * pow2(k + 1)) by (nonlinear_arith)
                requires
                    mantissa == size * pow2(k),
                    pow2(k + 1) == 2 * pow2(k),
            ;
        }
        mantissa = mantissa * 2;
        exponent = exponent - 1;
    }
    let bits: u32 = exponent * 0x800000 + (mantissa - 0x800000);
    if wide < 0 {
        0x80000000 + bits
    } else {
        bits
    }
}

/// Whether `z` is `x` with its sign flipped. A NaN stays a NaN.
pub open spec fn is_negated(x: u32, z: u32) -> bool {
    if crate::oracle::is_nan(x) {
        crate::oracle::is_nan(z)
    } else if x < 0x80000000 {
        z == x + 0x80000000
    } else {
        z == x - 0x80000000
    }
}

/// Whether `z` is `x` without its sign. A NaN stays a NaN.
pub open spec fn is_absolute(x: u32, z: u32) -> bool {
    if crate::oracle::is_nan(x) {
        crate::oracle::is_nan(z)
    } else if x < 0x80000000 {
        z == x
    } else {
        z == x - 0x80000000
    }
}

/// The place of a number in the order of numbers, by its bits. The two zeros share one.
pub open spec fn rank(bits: int) -> int {
    if bits < 0x80000000 {
        bits
    } else {
        0x80000000 - bits
    }
}

/// Whether `z` is `x` brought between two whole numbers: a bound where `x` lies beyond
/// it, and `x` itself otherwise. A NaN stays a NaN.
pub open spec fn is_clamped(x: u32, min: int, max: int, z: u32) -> bool {
    let low = whole_bits(min);
    let high = whole_bits(max);
    if crate::oracle::is_nan(x) {
        crate::oracle::is_nan(z)
    } else if rank(x as int) < rank(low) {
        z == low
    } else if rank(x as int) > rank(high) {
        z == high
    } else {
        z == x
    }
}

/// The bits stand for the number by the format of 32-bit floating-point numbers: one sign
/// bit, eight bits of exponent and 23 of fraction, the number being the fraction with a one
/// before it, times two to the power of the exponent less 127.
pub proof fn the_bits_are_those_of_the_number(n: int)
    requires
        -0x10000 < n < 0x10000,
    ensures
        ({
            let bits = float_bits(n);
            let size = if n < 0 {
                -n
            } else {
                n
            };
            let exponent = (bits / 8388608) % 256;
            let fraction = bits % 8388608;
            &&& 0 <= bits < 4294967296
            &&& bits / 2147483648 == 1 <==> n < 0
            &&& n == 0 ==> bits == 0
            &&& n != 0 ==> 1 <= exponent < 255 && (8388608 + fraction) * pow2(exponent as nat) * 128
                == size * pow2(150)
        }),
{
    samples_are_exact(n);
    if n != 0 {
        let bits = float_bits(n);
        let size = if n < 0 {
            -n
        } else {
            n
        };
        let e = (bits / 0x800000) % 256;
        let whole = 0x800000 + bits % 0x800000;
        lemma2_to64();
        vstd::arithmetic::power2::lemma_pow2_adds((143 - e) as nat, e as nat);
        vstd::arithmetic::power2::lemma_pow2_adds(143, 7);
        let (p, q) = (pow2((143 - e) as nat) as int, pow2(e as nat) as int);
        assert(whole * q * 128 == size * (p * q) * 128) by (nonlinear_arith)
            requires
                whole == size * p,
        ;
        assert(size * (p * q) * 128 == size * (p * q * 128)) by (nonlinear_arith);
    }
}

/// Doubling a number raises its exponent by one, negating it sets its sign bit, and a whole
/// number is written as 128 times as many parts of 128 are.
pub proof fn the_bits_follow_the_number(n: int)
    requires
        0 < n < 0x8000,
    ensures
        float_bits(2 * n) == float_bits(n) + 8388608,
        float_bits(-n) == float_bits(n) + 2147483648,
        n < 0x200 ==> whole_bits(n) == float_bits(128 * n),
        n < 0x200 ==> whole_bits(-n) == whole_bits(n) + 2147483648,
        float_bits(128) == 0x3f800000,
{
    scaled_doubles(n, 143);
    if n < 0x200 {
        reveal_with_fuel(scaled, 9);
    }
    reveal_with_fuel(scaled, 18);
}

proof fn scaled_doubles(mantissa: int, exponent: int)
    requires
        0 < mantissa < 0x800000,
    ensures
        scaled(2 * mantissa, exponent) == scaled(mantissa, exponent) + 0x800000,
    decreases 0x800000 - mantissa,
{
    if 2 * mantissa < 0x800000 {
        scaled_doubles(2 * mantissa, exponent - 1);
    } else {
        reveal_with_fuel(scaled, 2);
    }
}

/// What becomes of a sign, by the bits: flipped, the highest bit changes and no other;
/// cleared, the highest bit is clear and no other changes.
pub proof fn signs_are_the_highest_bit(x: u32, z: u32)
    requires
        !crate::oracle::is_nan(x),
    ensures
        is_negated(x, z) <==> z as int % 2147483648 == x as int % 2147483648 && z != x,
        is_absolute(x, z) <==> z as int % 2147483648 == x as int % 2147483648 && z < 2147483648,
{
}

/// A whole number of up to 24 bits is written exactly: the fraction with a one before it,
/// times two to the power of the exponent less 127, is the number.
pub proof fn whole_numbers_are_exact(n: int)
    requires
        -0x1000000 < n < 0x1000000,
    ensures
        ({
            let bits = whole_bits(n);
            let size = if n < 0 {
                -n
            } else {
                n
            };
            let exponent = (bits / 8388608) % 256;
            let fraction = bits % 8388608;
            &&& 0 <= bits < 4294967296
            &&& bits / 2147483648 == 1 <==> n < 0
            &&& n == 0 ==> bits == 0
            &&& n != 0 ==> 127 <= exponent <= 150 && 8388608 + fraction == size * pow2(
                (150 - exponent) as nat,
            )
        }),
{
    if n != 0 {
        let size = if n < 0 {
            -n
        } else {
            n
        };
        scaled_keeps_the_value(size, 150);
        let bits = scaled(size, 150);
        let e = bits / 0x800000;
        lemma2_to64();
        if n < 0 {
            let all = 0x80000000 + bits;
            assert((all / 0x800000) % 256 == e);
            assert(all % 0x800000 == bits % 0x800000);
        }
    }
}

proof fn scaled_keeps_the_value(mantissa: int, exponent: int)
    requires
        1 <= mantissa < 0x1000000,
        24 <= exponent <= 150,
    ensures
        ({
            let bits = scaled(mantissa, exponent);
            let e = bits / 0x800000;
            &&& 0 <= bits < 0x80000000
            &&& exponent - 23 <= e <= exponent
            &&& 0x800000 + bits % 0x800000 == mantissa * pow2((exponent - e) as nat)
        }),
{
    lemma2_to64();
    assert(mantissa * pow2(0) == mantissa) by (nonlinear_arith)
        requires
            pow2(0) == 1,
    ;
    scaled_keeps_the_value_of(mantissa, mantissa, exponent, 0);
}

proof fn scaled_keeps_the_value_of(size: int, mantissa: int, exponent: int, k: nat)
    requires
        1 <= size,
        1 <= mantissa < 0x1000000,
        24 <= exponent <= 150,
        k <= exponent,
        mantissa == size * pow2(k),
    ensures
        ({
            let bits = scaled(mantissa, exponent - k);
            let e = bits / 0x800000;
            &&& 0 <= bits < 0x80000000
            &&& exponent - 23 <= e <= exponent - k
            &&& 0x800000 + bits % 0x800000 == size * pow2((exponent - e) as nat)
        }),
    decreases 0x1000000 - mantissa,
{
    if k >= 24 {
        power_is_large(k);
        assert(size * pow2(k) >= 0x1000000) by (nonlinear_arith)
            requires
                size >= 1,
                pow2(k) >= 0x1000000,
        ;
    }
    lemma2_to64();
    if mantissa < 0x800000 {
        lemma_pow2_unfold(k + 1);
        assert(2 * mantissa == size * pow2(k + 1)) by (nonlinear_arith)
            requires
                mantissa == size * pow2(k),
                pow2(k + 1) == 2 * pow2(k),
        ;
        if k == 23 {
            assert(size * pow2(k) >= 0x800000) by (nonlinear_arith)
                requires
                    size >= 1,
                    pow2(k) == 0x800000,
            ;
        }
        scaled_keeps_the_value_of(size, 2 * mantissa, exponent, k + 1);
    } else {
        let bits = scaled(mantissa, exponent - k);
        assert(bits == (exponent - k) * 0x800000 + (mantissa - 0x800000));
        assert(bits / 0x800000 == exponent - k);
        assert(bits % 0x800000 == mantissa - 0x800000);
    }
}

/// A number brought between minus and plus a million stays where it is if it lies between
/// them, and becomes the nearer of the two if not. By its bits a number lies between them
/// if its bits but for the sign are at most those of a million.
pub proof fn a_million_bounds_what_is_clamped(x: u32, z: u32)
    requires
        !crate::oracle::is_nan(x),
        is_clamped(x, -1000000, 1000000, z),
    ensures
        x as int % 2147483648 <= 0x49742400 ==> z == x,
        x < 2147483648 && x > 0x49742400 ==> z == 0x49742400,
        x >= 2147483648 && x as int % 2147483648 > 0x49742400 ==> z == 0x49742400 + 2147483648,
        whole_bits(1000000) == 0x49742400,
        whole_bits(-1000000) == 0x49742400 + 2147483648,
{
    reveal_with_fuel(scaled, 6);
}

} // verus!
