//! Single-precision numbers by their IEEE 754 bits: order, whole parts, and integers rounded to
//! 24 significant bits.

use vstd::arithmetic::mul::*;
use vstd::arithmetic::power2::*;
use vstd::bits::*;
use vstd::prelude::*;

verus! {

/// The sign bit.
pub const SIGN: u32 = 0x8000_0000;

/// The bits of infinity; those of a NaN, without their sign, lie above.
pub const INFINITY: u32 = 0x7F80_0000;

/// The first number of more than 24 significant bits.
pub const EXACT_LIMIT: u64 = 0x100_0000;

/// A number as a PDF object gives it: an integer, or the bits of a single-precision real.
#[derive(Debug, Copy, Clone, PartialEq, Eq, Structural)]
pub enum Number {
    Integer(i64),
    Real(u32),
}

/// The bits without their sign.
pub open spec fn magnitude(bits: u32) -> u32 {
    bits % SIGN
}

/// Bits that stand for no number.
pub open spec fn is_nan(bits: u32) -> bool {
    magnitude(bits) > INFINITY
}

/// Where a number that is no NaN stands in the order of the reals. Both zeros stand at 0.
pub open spec fn rank(bits: u32) -> int {
    if bits >= SIGN {
        -(magnitude(bits) as int)
    } else {
        magnitude(bits) as int
    }
}

/// `a < b`. A NaN is on neither side of any number.
pub open spec fn is_less(a: u32, b: u32) -> bool {
    !is_nan(a) && !is_nan(b) && rank(a) < rank(b)
}

/// The biased exponent, with that of the subnormal numbers raised to 1.
pub open spec fn exponent(bits: u32) -> int {
    if magnitude(bits) < 0x80_0000 {
        1
    } else {
        magnitude(bits) as int / 0x80_0000
    }
}

/// The significand: a number's absolute value is this times two to its exponent less 150.
pub open spec fn significand(bits: u32) -> int {
    if magnitude(bits) < 0x80_0000 {
        magnitude(bits) as int
    } else {
        magnitude(bits) as int % 0x80_0000 + 0x80_0000
    }
}

/// A finite number in units of the smallest positive one.
pub open spec fn units(bits: u32) -> int {
    let size = significand(bits) * pow2((exponent(bits) - 1) as nat);
    if bits >= SIGN {
        -size
    } else {
        size
    }
}

/// The whole part of a number's absolute value.
pub open spec fn whole(bits: u32) -> int {
    if exponent(bits) <= 150 {
        significand(bits) / pow2((150 - exponent(bits)) as nat) as int
    } else {
        significand(bits) * pow2((exponent(bits) - 150) as nat)
    }
}

/// A real cut to a `u16`: the whole part, 0 below 0 and for a NaN, at most the largest.
pub open spec fn as_u16(bits: u32) -> u16 {
    if is_nan(bits) || bits >= SIGN {
        0
    } else if whole(bits) > u16::MAX {
        u16::MAX
    } else {
        whole(bits) as u16
    }
}

/// A real cut to an `i64`: towards 0, 0 for a NaN, at most the largest and at least the
/// smallest.
pub open spec fn as_i64(bits: u32) -> i64 {
    if is_nan(bits) {
        0
    } else if bits >= SIGN {
        if whole(bits) > -(i64::MIN as int) {
            i64::MIN
        } else {
            (-whole(bits)) as i64
        }
    } else if whole(bits) > i64::MAX {
        i64::MAX
    } else {
        whole(bits) as i64
    }
}

/// The distance between the single-precision numbers around an integer.
pub open spec fn spacing(n: nat) -> nat
    decreases n,
{
    if n < EXACT_LIMIT {
        1
    } else {
        2 * spacing(n / 2)
    }
}

/// The single-precision number nearest to an integer; of two equally near, the one with the
/// even significand.
pub open spec fn nearest(n: nat) -> nat {
    let step = spacing(n);
    let below = n / step;
    let over = n % step;
    if 2 * over > step || (2 * over == step && below % 2 == 1) {
        ((below + 1) * step) as nat
    } else {
        (below * step) as nat
    }
}

/// An integer made a single-precision real and cut to an `i64` again.
pub open spec fn through_real(n: i64) -> i64 {
    if n >= 0 {
        if nearest(n as nat) > i64::MAX {
            i64::MAX
        } else {
            nearest(n as nat) as i64
        }
    } else if nearest((-n) as nat) > -(i64::MIN as int) {
        i64::MIN
    } else {
        (-nearest((-n) as nat)) as i64
    }
}

/// A number read as flags: made a real, and cut to an `i64`.
pub open spec fn flag_bits(number: Number) -> i64 {
    match number {
        Number::Integer(n) => through_real(n),
        Number::Real(bits) => as_i64(bits),
    }
}

/// Whether `a < b`.
pub fn less(a: u32, b: u32) -> (r: bool)
    ensures
        r == is_less(a, b),
{
    let x = a % SIGN;
    let y = b % SIGN;
    if x > INFINITY || y > INFINITY {
        return false;
    }
    if a >= SIGN {
        if b >= SIGN {
            y < x
        } else {
            x > 0 || y > 0
        }
    } else if b >= SIGN {
        false
    } else {
        x < y
    }
}

/// Whether a number is a NaN.
pub fn nan(bits: u32) -> (r: bool)
    ensures
        r == is_nan(bits),
{
    bits % SIGN > INFINITY
}

/// A real cut to a `u16`.
pub fn to_u16(bits: u32) -> (n: u16)
    ensures
        n == as_u16(bits),
{
    let size = bits % SIGN;
    if size > INFINITY || bits >= SIGN {
        return 0;
    }
    let e = size / 0x80_0000;
    if e < 127 {
        proof {
            lemma_fraction_vanishes(bits);
        }
        return 0;
    }
    let m = size % 0x80_0000 + 0x80_0000;
    if e >= 143 {
        proof {
            lemma_large_whole(bits, 16);
            lemma2_to64();
        }
        return u16::MAX;
    }
    let shift = 150 - e;
    proof {
        lemma_u32_shr_is_div(m, shift);
        lemma_pow2_unfold(7);
        lemma2_to64();
        if shift > 8 {
            lemma_pow2_strictly_increases(8, shift as nat);
        }
        assert(m as int / pow2(shift as nat) as int <= 65535) by (nonlinear_arith)
            requires
                m < 0x100_0000,
                pow2(shift as nat) >= 256,
        ;
    }
    (m >> shift) as u16
}

/// A real cut to an `i64`.
pub fn to_i64(bits: u32) -> (n: i64)
    ensures
        n == as_i64(bits),
{
    let size = bits % SIGN;
    if size > INFINITY {
        return 0;
    }
    let e = size / 0x80_0000;
    if e < 127 {
        proof {
            lemma_fraction_vanishes(bits);
        }
        return 0;
    }
    if e >= 190 {
        proof {
            lemma_large_whole(bits, 63);
            lemma2_to64_rest();
        }
        return if bits >= SIGN {
            i64::MIN
        } else {
            i64::MAX
        };
    }
    let m = (size % 0x80_0000 + 0x80_0000) as u64;
    let whole_part: u64;
    if e <= 150 {
        let shift = (150 - e) as u64;
        proof {
            lemma_u64_shr_is_div(m, shift);
            lemma_pow2_pos(shift as nat);
            assert(0 <= m as int / pow2(shift as nat) as int <= m) by (nonlinear_arith)
                requires
                    pow2(shift as nat) >= 1,
                    m >= 0,
            ;
        }
        whole_part = m >> shift;
    } else {
        let shift = (e - 150) as u64;
        proof {
            lemma2_to64();
            lemma2_to64_rest();
            if shift < 39 {
                lemma_pow2_strictly_increases(shift as nat, 39);
            }
            assert(m * pow2(shift as nat) < 0x8000_0000_0000_0000) by (nonlinear_arith)
                requires
                    m < 0x100_0000,
                    0 <= pow2(shift as nat) <= 0x80_0000_0000,
            ;
            lemma_u64_shl_is_mul(m, shift);
        }
        whole_part = m << shift;
    }
    assert(whole_part == whole(bits));
    if bits >= SIGN {
        -(whole_part as i64)
    } else {
        whole_part as i64
    }
}

/// A number below 1 has no whole part.
proof fn lemma_fraction_vanishes(bits: u32)
    requires
        magnitude(bits) < 127 * 0x80_0000,
    ensures
        whole(bits) == 0,
{
    let shift = (150 - exponent(bits)) as nat;
    lemma2_to64();
    if shift > 24 {
        lemma_pow2_strictly_increases(24, shift);
    }
    let m = significand(bits);
    let p = pow2(shift) as int;
    assert(m / p == 0) by (nonlinear_arith)
        requires
            0 <= m < p,
    ;
}

/// A number with a large exponent has a large whole part.
proof fn lemma_large_whole(bits: u32, limit: nat)
    requires
        23 <= limit + 7,
        limit == 16 || limit == 63,
        magnitude(bits) >= (127 + limit) * 0x80_0000,
    ensures
        whole(bits) >= pow2(limit),
{
    let m = significand(bits);
    lemma2_to64();
    if exponent(bits) <= 150 {
        let shift = (150 - exponent(bits)) as nat;
        let p = pow2(shift) as int;
        assert(limit == 16);
        lemma_pow2_pos(shift);
        if shift < 7 {
            lemma_pow2_strictly_increases(shift, 7);
        }
        assert(m / p >= 0x1_0000) by (nonlinear_arith)
            requires
                m >= 0x80_0000,
                1 <= p <= 128,
        ;
    } else {
        let shift = (exponent(bits) - 150) as nat;
        lemma_pow2_pos(shift);
        if limit == 16 {
            assert(m * pow2(shift) >= 0x1_0000) by (nonlinear_arith)
                requires
                    m >= 0x80_0000,
                    pow2(shift) >= 1,
            ;
        } else {
            lemma_pow2_adds(23, 40);
            if shift > 40 {
                lemma_pow2_strictly_increases(40, shift);
            }
            let p = pow2(shift);
            let low = pow2(40);
            assert(m * p >= 0x80_0000 * low) by (nonlinear_arith)
                requires
                    m >= 0x80_0000,
                    p >= low,
                    low >= 0,
            ;
        }
    }
}

/// The order of ranks is the order of the numbers themselves.
pub proof fn law_order_is_numeric(a: u32, b: u32)
    requires
        magnitude(a) < INFINITY,
        magnitude(b) < INFINITY,
    ensures
        is_less(a, b) <==> units(a) < units(b),
{
    lemma_units_sign(a);
    lemma_units_sign(b);
    if magnitude(a) < magnitude(b) {
        lemma_size_grows(a, b);
    }
    if magnitude(b) < magnitude(a) {
        lemma_size_grows(b, a);
    }
}

proof fn lemma_units_sign(a: u32)
    ensures
        magnitude(a) == 0 <==> units(a) == 0,
        a < SIGN ==> units(a) >= 0,
        a >= SIGN ==> units(a) <= 0,
{
    let p = pow2((exponent(a) - 1) as nat);
    let m = significand(a);
    lemma_pow2_pos((exponent(a) - 1) as nat);
    assert(m * p >= 0 && (m * p == 0 <==> m == 0)) by (nonlinear_arith)
        requires
            m >= 0,
            p > 0,
    ;
}

proof fn lemma_size_grows(a: u32, b: u32)
    requires
        magnitude(a) < magnitude(b),
    ensures
        significand(a) * pow2((exponent(a) - 1) as nat) < significand(b) * pow2(
            (exponent(b) - 1) as nat,
        ),
{
    let x = (exponent(a) - 1) as nat;
    let y = (exponent(b) - 1) as nat;
    let m = significand(a);
    let n = significand(b);
    lemma_pow2_pos(x);
    lemma_pow2_pos(y);
    if x == y {
        assert(m < n);
        let p = pow2(x);
        assert(m * p < n * p) by (nonlinear_arith)
            requires
                m < n,
                p > 0,
        ;
    } else {
        assert(x < y);
        lemma_pow2_unfold(y);
        if x < y - 1 {
            lemma_pow2_strictly_increases(x, (y - 1) as nat);
        }
        let p = pow2(x);
        let q = pow2((y - 1) as nat);
        assert(m * p < n * (2 * q)) by (nonlinear_arith)
            requires
                0 <= m < 0x100_0000,
                n >= 0x80_0000,
                0 < p <= q,
        ;
    }
}

/// Integers of at most 24 bits pass through a real unchanged.
pub proof fn law_small_integers_are_exact(n: i64)
    requires
        -EXACT_LIMIT < n < EXACT_LIMIT,
    ensures
        through_real(n) == n,
{
    let m = if n >= 0 {
        n as nat
    } else {
        (-n) as nat
    };
    let step = spacing(m);
    assert(m / step == m && m % step == 0 && m * step == m) by (nonlinear_arith)
        requires
            step == 1,
    ;
}

fn nearest_real(n: u64) -> (r: u128)
    ensures
        r == nearest(n as nat),
{
    let mut step: u64 = 1;
    let mut rest: u64 = n;
    while rest >= EXACT_LIMIT
        invariant
            spacing(n as nat) == step * spacing(rest as nat),
            1 <= step,
            step * rest <= n,
        decreases rest,
    {
        proof {
            let half = rest as nat / 2;
            let wider = step as int * 2;
            assert(wider * half <= step * rest) by (nonlinear_arith)
                requires
                    wider == step * 2,
                    2 * half <= rest,
                    step >= 1,
            ;
            assert(wider <= step * rest) by (nonlinear_arith)
                requires
                    wider == step * 2,
                    rest >= 2,
                    step >= 1,
            ;
            assert(step * (2 * spacing(half)) == wider * spacing(half)) by (nonlinear_arith)
                requires
                    wider == step * 2,
            ;
        }
        rest = rest / 2;
        step = step * 2;
    }
    assert(step * 1 == step) by (nonlinear_arith);
    assert(spacing(n as nat) == step);
    let below = n / step;
    let over = n % step;
    proof {
        let (a, b, s) = (below as int, over as int, step as int);
        assert(a == n as int / s && b == n as int % s);
        assert(a * s + b == n as int && 0 <= b < s) by (nonlinear_arith)
            requires
                a == n as int / s,
                b == n as int % s,
                s > 0,
        ;
        assert((a + 1) * s == a * s + s) by (nonlinear_arith);
    }
    if over > step - over || (over == step - over && below % 2 == 1) {
        (below as u128 + 1) * (step as u128)
    } else {
        below as u128 * (step as u128)
    }
}

fn integer_flags(n: i64) -> (r: i64)
    ensures
        r == through_real(n),
{
    if n >= 0 {
        let near = nearest_real(n as u64);
        if near > i64::MAX as u128 {
            i64::MAX
        } else {
            near as i64
        }
    } else {
        let near = nearest_real((-(n as i128)) as u64);
        if near > 0x8000_0000_0000_0000 {
            i64::MIN
        } else {
            (-(near as i128)) as i64
        }
    }
}

/// A number read as flags.
pub fn flags(number: Number) -> (bits: i64)
    ensures
        bits == flag_bits(number),
{
    match number {
        Number::Integer(n) => integer_flags(n),
        Number::Real(bits) => to_i64(bits),
    }
}

}
