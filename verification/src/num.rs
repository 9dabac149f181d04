//! JavaScript Numbers as the bits of IEEE 754 doubles.
//!
//! The library compares, truncates and converts Numbers; it never adds or rounds them. All of
//! that is integer work on the sign, the exponent and the fraction of a double.
use vstd::arithmetic::power2::{
    lemma2_to64, lemma2_to64_rest, lemma_pow2_adds, lemma_pow2_pos, lemma_pow2_strictly_increases,
    lemma_pow2_unfold, pow2,
};
use vstd::bits::{lemma_u64_shl_is_mul, lemma_u64_shr_is_div};
use vstd::prelude::*;

verus! {

/// One canonical not-a-number.
pub const NAN: u64 = 0x7ff8_0000_0000_0000;

pub const INFINITY: u64 = 0x7ff0_0000_0000_0000;

pub const NEG_INFINITY: u64 = 0xfff0_0000_0000_0000;

/// Minus one.
pub const MINUS_ONE: u64 = 0xbff0_0000_0000_0000;

/// The largest integer up to which every integer is a Number.
pub const MAX_SAFE: u64 = 0x1f_ffff_ffff_ffff;

/// The first integer beyond which adding one no longer gives the next integer.
pub const COUNT_LIMIT: u64 = 0x20_0000_0000_0000;

/// The sign bit is set.
pub open spec fn negative(b: u64) -> bool {
    b >= 0x8000_0000_0000_0000
}

pub open spec fn exponent_bits(b: u64) -> int {
    (b as int / 0x10_0000_0000_0000) % 2048
}

pub open spec fn fraction(b: u64) -> int {
    b as int % 0x10_0000_0000_0000
}

pub open spec fn nan(b: u64) -> bool {
    exponent_bits(b) == 2047 && fraction(b) != 0
}

pub open spec fn infinite(b: u64) -> bool {
    exponent_bits(b) == 2047 && fraction(b) == 0
}

pub open spec fn finite(b: u64) -> bool {
    exponent_bits(b) != 2047
}

/// Plus or minus zero.
pub open spec fn zero(b: u64) -> bool {
    exponent_bits(b) == 0 && fraction(b) == 0
}

/// The significand as an integer.
pub open spec fn significand(b: u64) -> int {
    if exponent_bits(b) == 0 {
        fraction(b)
    } else {
        fraction(b) + 0x10_0000_0000_0000
    }
}

/// The significand is scaled by two to the power of `scale - 1075`.
pub open spec fn scale(b: u64) -> int {
    if exponent_bits(b) == 0 {
        1
    } else {
        exponent_bits(b)
    }
}

/// The integer part of a finite Number without its sign.
pub open spec fn magnitude(b: u64) -> int {
    if scale(b) >= 1075 {
        significand(b) * pow2((scale(b) - 1075) as nat)
    } else {
        significand(b) / pow2((1075 - scale(b)) as nat) as int
    }
}

/// A finite Number truncated toward zero.
pub open spec fn integer_part(b: u64) -> int {
    if negative(b) {
        -magnitude(b)
    } else {
        magnitude(b)
    }
}

/// A finite Number without a fractional part.
pub open spec fn integral(b: u64) -> bool {
    finite(b) && (scale(b) >= 1075 || significand(b) % (pow2((1075 - scale(b)) as nat) as int) == 0)
}

/// A key by which Numbers that are not NaN are ordered; both zeros have the key 0.
pub open spec fn order_key(b: u64) -> int {
    if negative(b) {
        0x8000_0000_0000_0000 - b
    } else {
        b as int
    }
}

/// `a < b` on Numbers.
pub open spec fn less(a: u64, b: u64) -> bool {
    !nan(a) && !nan(b) && order_key(a) < order_key(b)
}

/// `a == b` on Numbers.
pub open spec fn equal(a: u64, b: u64) -> bool {
    !nan(a) && !nan(b) && order_key(a) == order_key(b)
}

/// `x` held between `lo` and `hi`.
pub open spec fn clamp(x: int, lo: int, hi: int) -> int {
    if x < lo {
        lo
    } else if x > hi {
        hi
    } else {
        x
    }
}

/// The Number as an `i64`: truncated, held at the ends of the type, and 0 for NaN.
pub open spec fn cast_i64(b: u64) -> int {
    if nan(b) {
        0
    } else if infinite(b) {
        if negative(b) {
            i64::MIN as int
        } else {
            i64::MAX as int
        }
    } else {
        clamp(integer_part(b), i64::MIN as int, i64::MAX as int)
    }
}

/// The Number as a `u64`: truncated, held at the ends of the type, and 0 for NaN.
pub open spec fn cast_u64(b: u64) -> int {
    if nan(b) {
        0
    } else if infinite(b) {
        if negative(b) {
            0
        } else {
            u64::MAX as int
        }
    } else {
        clamp(integer_part(b), 0, u64::MAX as int)
    }
}

pub fn is_nan(b: u64) -> (r: bool)
    ensures
        r == nan(b),
{
    (b / 0x10_0000_0000_0000) % 2048 == 2047 && b % 0x10_0000_0000_0000 != 0
}

pub fn is_infinite(b: u64) -> (r: bool)
    ensures
        r == infinite(b),
{
    (b / 0x10_0000_0000_0000) % 2048 == 2047 && b % 0x10_0000_0000_0000 == 0
}

pub fn is_finite(b: u64) -> (r: bool)
    ensures
        r == finite(b),
{
    (b / 0x10_0000_0000_0000) % 2048 != 2047
}

pub fn is_zero(b: u64) -> (r: bool)
    ensures
        r == zero(b),
{
    (b / 0x10_0000_0000_0000) % 2048 == 0 && b % 0x10_0000_0000_0000 == 0
}

pub fn is_negative(b: u64) -> (r: bool)
    ensures
        r == negative(b),
{
    b >= 0x8000_0000_0000_0000
}

pub fn is_less(a: u64, b: u64) -> (r: bool)
    ensures
        r == less(a, b),
{
    if is_nan(a) || is_nan(b) {
        return false;
    }
    match (is_negative(a), is_negative(b)) {
        (true, true) => a > b,
        (false, false) => a < b,
        (true, false) => a > 0x8000_0000_0000_0000 || b > 0,
        (false, true) => false,
    }
}

pub fn is_equal(a: u64, b: u64) -> (r: bool)
    ensures
        r == equal(a, b),
{
    !is_nan(a) && !is_nan(b) && (a == b || (is_zero(a) && is_zero(b)))
}

/// The integer part without its sign, held at the largest `u64`.
pub fn magnitude_u64(b: u64) -> (r: u64)
    requires
        finite(b),
    ensures
        r == clamp(magnitude(b), 0, u64::MAX as int),
{
    let e: u64 = (b / 0x10_0000_0000_0000) % 2048;
    let f: u64 = b % 0x10_0000_0000_0000;
    let m: u64 = if e == 0 {
        f
    } else {
        f + 0x10_0000_0000_0000
    };
    let s: u64 = if e == 0 {
        1
    } else {
        e
    };
    assert(m == significand(b) && s == scale(b));
    if s >= 1075 {
        let k: u64 = s - 1075;
        proof {
            lemma2_to64();
            lemma_pow2_pos(k as nat);
        }
        if k > 11 {
            proof {
                lemma_pow2_strictly_increases(11, k as nat);
                let p = pow2(k as nat) as int;
                assert(p >= 4096) by {
                    if k > 12 {
                        lemma_pow2_strictly_increases(12, k as nat);
                    }
                }
                assert(m * p > u64::MAX) by (nonlinear_arith)
                    requires
                        m >= 0x10_0000_0000_0000,
                        p >= 4096,
                ;
            }
            return u64::MAX;
        }
        proof {
            let p = pow2(k as nat) as int;
            assert(p <= 2048) by {
                if k < 11 {
                    lemma_pow2_strictly_increases(k as nat, 11);
                }
            }
            assert(0 <= m * p <= u64::MAX) by (nonlinear_arith)
                requires
                    0 <= m < 0x20_0000_0000_0000,
                    0 < p <= 2048,
            ;
            lemma_u64_shl_is_mul(m, k);
        }
        m << k
    } else {
        let k: u64 = 1075 - s;
        if k >= 64 {
            proof {
                lemma2_to64_rest();
                if k > 64 {
                    lemma_pow2_strictly_increases(64, k as nat);
                }
                let p = pow2(k as nat) as int;
                assert(m as int / p == 0) by (nonlinear_arith)
                    requires
                        0 <= m < p,
                ;
            }
            return 0;
        }
        proof {
            lemma_u64_shr_is_div(m, k);
            lemma_pow2_pos(k as nat);
            let p = pow2(k as nat) as int;
            assert(0 <= m as int / p <= m) by (nonlinear_arith)
                requires
                    0 <= m,
                    0 < p,
            ;
        }
        m >> k
    }
}

pub fn as_u64(b: u64) -> (r: u64)
    ensures
        r == cast_u64(b),
{
    if is_nan(b) {
        0
    } else if is_infinite(b) {
        if is_negative(b) {
            0
        } else {
            u64::MAX
        }
    } else {
        proof {
            lemma_magnitude_nonneg(b);
        }
        let m: u64 = magnitude_u64(b);
        if is_negative(b) {
            0
        } else {
            m
        }
    }
}

pub fn as_i64(b: u64) -> (r: i64)
    ensures
        r == cast_i64(b),
{
    if is_nan(b) {
        0
    } else if is_infinite(b) {
        if is_negative(b) {
            i64::MIN
        } else {
            i64::MAX
        }
    } else {
        proof {
            lemma_magnitude_nonneg(b);
        }
        let m: u64 = magnitude_u64(b);
        if is_negative(b) {
            if m >= 0x8000_0000_0000_0000 {
                i64::MIN
            } else {
                -(m as i64)
            }
        } else if m >= 0x8000_0000_0000_0000 {
            i64::MAX
        } else {
            m as i64
        }
    }
}

pub proof fn lemma_magnitude_nonneg(b: u64)
    ensures
        magnitude(b) >= 0,
{
    let m = significand(b);
    if scale(b) >= 1075 {
        let p = pow2((scale(b) - 1075) as nat) as int;
        lemma_pow2_pos((scale(b) - 1075) as nat);
        assert(m * p >= 0) by (nonlinear_arith)
            requires
                m >= 0,
                p > 0,
        ;
    } else {
        let p = pow2((1075 - scale(b)) as nat) as int;
        lemma_pow2_pos((1075 - scale(b)) as nat);
        assert(m / p >= 0) by (nonlinear_arith)
            requires
                m >= 0,
                p > 0,
        ;
    }
}

/// Whether a Number is finite and has no fractional part.
pub fn is_integral(b: u64) -> (r: bool)
    ensures
        r == integral(b),
{
    if !is_finite(b) {
        return false;
    }
    let e: u64 = (b / 0x10_0000_0000_0000) % 2048;
    let f: u64 = b % 0x10_0000_0000_0000;
    let m: u64 = if e == 0 {
        f
    } else {
        f + 0x10_0000_0000_0000
    };
    let s: u64 = if e == 0 {
        1
    } else {
        e
    };
    if s >= 1075 {
        return true;
    }
    let k: u64 = 1075 - s;
    if k >= 64 {
        proof {
            lemma2_to64_rest();
            if k > 64 {
                lemma_pow2_strictly_increases(64, k as nat);
            }
            let p = pow2(k as nat) as int;
            assert(m as int % p == m) by (nonlinear_arith)
                requires
                    0 <= m < p,
            ;
        }
        return m == 0;
    }
    let q: u64 = m >> k;
    proof {
        lemma_u64_shr_is_div(m, k);
        lemma_pow2_pos(k as nat);
        let p = pow2(k as nat) as int;
        assert(0 <= q * p <= m) by (nonlinear_arith)
            requires
                q == m as int / p,
                0 <= m,
                0 < p,
        ;
        lemma_u64_shl_is_mul(q, k);
        assert((m as int % p == 0) == (q * p == m)) by (nonlinear_arith)
            requires
                q == m as int / p,
                0 < p,
        ;
    }
    q << k == m
}

/// An integer and a number of doublings that bring its leading bit to where the hidden bit of a
/// double stands.
pub open spec fn doubled(m: int, k: int) -> (int, int)
    decreases 0x20_0000_0000_0000 - m,
{
    if m <= 0 || m >= 0x10_0000_0000_0000 {
        (m, k)
    } else {
        doubled(m * 2, k + 1)
    }
}

/// The Number for an integer up to the count limit.
pub open spec fn number(n: int) -> u64 {
    if n == 0 {
        0
    } else if n == COUNT_LIMIT {
        0x4340_0000_0000_0000
    } else {
        let (m, k) = doubled(n, 0);
        ((1075 - k) * 0x10_0000_0000_0000 + (m - 0x10_0000_0000_0000)) as u64
    }
}

/// The count after one more, as adding one to a double gives it.
pub open spec fn counted(n: int) -> int {
    if n < COUNT_LIMIT {
        n + 1
    } else {
        n
    }
}

/// The Number for an integer.
pub fn of_u64(n: u64) -> (r: u64)
    requires
        n <= COUNT_LIMIT,
    ensures
        r == number(n as int),
        finite(r),
        !negative(r),
        integral(r),
        magnitude(r) == n,
{
    if n == 0 {
        proof {
            lemma_pow2_pos(1074);
            assert(0int / pow2(1074) as int == 0 && 0int % (pow2(1074) as int) == 0)
                by (nonlinear_arith)
                requires
                    pow2(1074) > 0,
            ;
        }
        return 0;
    }
    if n == COUNT_LIMIT {
        let r: u64 = 0x4340_0000_0000_0000;
        proof {
            lemma2_to64();
            assert(scale(r) == 1076 && significand(r) == 0x10_0000_0000_0000);
        }
        return r;
    }
    // Scale the integer up until its leading bit stands where the hidden bit belongs.
    let mut m: u64 = n;
    let mut k: u64 = 0;
    proof {
        lemma2_to64();
    }
    while m < 0x10_0000_0000_0000
        invariant
            0 < n < COUNT_LIMIT,
            doubled(n as int, 0) == doubled(m as int, k as int),
            0 < m < 0x20_0000_0000_0000,
            m == n * pow2(k as nat),
            k <= 52,
            k == 52 ==> m >= 0x10_0000_0000_0000,
        decreases 0x20_0000_0000_0000 - m,
    {
        proof {
            lemma2_to64();
            lemma2_to64_rest();
            lemma_pow2_adds(k as nat, 1);
            let p = pow2(k as nat) as int;
            assert(n * (p * 2) == (n * p) * 2) by (nonlinear_arith);
            if k == 51 {
                assert(n * (p * 2) >= p * 2) by (nonlinear_arith)
                    requires
                        n >= 1,
                        p > 0,
                ;
            }
            lemma_pow2_pos(k as nat);
        }
        m = m * 2;
        k = k + 1;
    }
    let r: u64 = (1075 - k) * 0x10_0000_0000_0000 + (m - 0x10_0000_0000_0000);
    proof {
        assert(exponent_bits(r) == 1075 - k && fraction(r) == m - 0x10_0000_0000_0000);
        assert(significand(r) == m && scale(r) == 1075 - k);
        let p = pow2(k as nat) as int;
        lemma_pow2_pos(k as nat);
        assert((n * p) / p == n && (n * p) % p == 0) by (nonlinear_arith)
            requires
                p > 0,
                n > 0,
        ;
        assert(m * 1 == m);
    }
    r
}

/// The Number for a count that stops growing where adding one to a double no longer changes it.
pub fn next_count(n: u64) -> (r: u64)
    requires
        n <= COUNT_LIMIT,
    ensures
        r == counted(n as int),
        r <= COUNT_LIMIT,
{
    if n < COUNT_LIMIT {
        n + 1
    } else {
        n
    }
}

/// The Number for a position in a list; beyond the count limit, which no list reaches, the limit.
pub open spec fn position(n: int) -> u64 {
    number(
        if n > COUNT_LIMIT {
            COUNT_LIMIT as int
        } else {
            n
        },
    )
}

pub fn of_position(n: usize) -> (r: u64)
    ensures
        r == position(n as int),
{
    if n as u64 > COUNT_LIMIT {
        of_u64(COUNT_LIMIT)
    } else {
        of_u64(n as u64)
    }
}

/// A relative index made absolute: counted from the end where it is negative, and held between 0
/// and the length.
pub open spec fn absolute_index(n: u64, len: int) -> int {
    if nan(n) {
        0
    } else if infinite(n) {
        if negative(n) {
            0
        } else {
            len
        }
    } else if integer_part(n) < 0 {
        if len + integer_part(n) < 0 {
            0
        } else {
            len + integer_part(n)
        }
    } else if integer_part(n) < len {
        integer_part(n)
    } else {
        len
    }
}

/// ToIntegerOrInfinity of a relative position, resolved against a length.
pub fn norm_index(n: u64, len: i64) -> (r: i64)
    requires
        len >= 0,
    ensures
        r == absolute_index(n, len as int),
        0 <= r <= len,
{
    if is_nan(n) {
        return 0;
    }
    if is_infinite(n) {
        return if is_negative(n) {
            0
        } else {
            len
        };
    }
    let i: i64 = as_i64(n);
    proof {
        lemma_magnitude_nonneg(n);
    }
    if i < 0 {
        if i < -len {
            0
        } else {
            len + i
        }
    } else if i < len {
        i
    } else {
        len
    }
}

/// No Number has the largest `u64` as its integer part: it would need more than 53 bits.
pub proof fn lemma_never_largest(b: u64)
    requires
        finite(b),
    ensures
        magnitude(b) != u64::MAX,
{
    let m = significand(b);
    if scale(b) > 1075 {
        let k = (scale(b) - 1075) as nat;
        lemma_pow2_unfold(k);
        let q = pow2((k - 1) as nat) as int;
        assert(m * (2 * q) == 2 * (m * q)) by (nonlinear_arith);
    } else if scale(b) == 1075 {
        lemma2_to64();
    } else {
        let p = pow2((1075 - scale(b)) as nat) as int;
        lemma_pow2_pos((1075 - scale(b)) as nat);
        assert(m / p <= m) by (nonlinear_arith)
            requires
                0 <= m,
                0 < p,
        ;
    }
}

/// ToIntegerOrInfinity of a position, held between 0 and the length.
pub open spec fn clamped_position(n: u64, len: int) -> int {
    if nan(n) {
        0
    } else if infinite(n) {
        if negative(n) {
            0
        } else {
            len
        }
    } else {
        clamp(integer_part(n), 0, len)
    }
}

/// ToIntegerOrInfinity of a position, held between 0 and the length.
pub fn clamp_position(n: u64, len: usize) -> (r: usize)
    ensures
        r == clamped_position(n, len as int),
        r <= len,
{
    let k: u64 = as_u64(n);
    proof {
        lemma_magnitude_nonneg(n);
    }
    if k > len as u64 {
        len
    } else {
        k as usize
    }
}

/// A relative position resolved against a length.
pub fn resolve_position(n: u64, len: usize) -> (r: usize)
    ensures
        r == absolute_index(n, len as int),
        r <= len,
{
    if is_nan(n) {
        return 0;
    }
    if is_infinite(n) {
        return if is_negative(n) {
            0
        } else {
            len
        };
    }
    proof {
        lemma_magnitude_nonneg(n);
    }
    let m: u64 = magnitude_u64(n);
    if is_negative(n) && m > 0 {
        if m > len as u64 {
            0
        } else {
            len - m as usize
        }
    } else if m < len as u64 {
        m as usize
    } else {
        len
    }
}

/// A Number modulo 2 to the 32nd, truncated first; 0 where it is not finite.
pub open spec fn modulo_u32(n: u64) -> int {
    if finite(n) {
        integer_part(n) % 0x1_0000_0000
    } else {
        0
    }
}

pub fn to_uint32(n: u64) -> (r: u32)
    ensures
        r == modulo_u32(n),
{
    if !is_finite(n) {
        return 0;
    }
    let e: u64 = (n / 0x10_0000_0000_0000) % 2048;
    let low: u64 = if e < 1075 + 12 {
        proof {
            lemma_small_magnitude(n);
        }
        magnitude_u64(n) % 0x1_0000_0000
    } else if e >= 1075 + 32 {
        proof {
            let k = (e - 1075) as nat;
            let m = significand(n);
            lemma2_to64();
            lemma_pow2_adds(32, (k - 32) as nat);
            let p = pow2((k - 32) as nat) as int;
            assert(m * (0x1_0000_0000 * p) == 0x1_0000_0000 * (m * p)) by (nonlinear_arith);
            vstd::arithmetic::div_mod::lemma_mod_multiples_basic(m * p, 0x1_0000_0000);
            assert(0x1_0000_0000 * (m * p) == (m * p) * 0x1_0000_0000);
        }
        0
    } else {
        // The low bits of the product depend on the low bits of the significand alone.
        let m: u64 = n % 0x10_0000_0000_0000 + 0x10_0000_0000_0000;
        let k: u64 = e - 1075;
        let t: u64 = m % 0x1_0000_0000;
        proof {
            lemma2_to64();
            let p = pow2(k as nat) as int;
            lemma_pow2_pos(k as nat);
            if k < 31 {
                lemma_pow2_strictly_increases(k as nat, 31);
            }
            assert(0 <= t * p <= u64::MAX) by (nonlinear_arith)
                requires
                    0 <= t < 0x1_0000_0000,
                    0 < p <= 0x8000_0000,
            ;
            lemma_u64_shl_is_mul(t, k);
            vstd::arithmetic::div_mod::lemma_mul_mod_noop_left(m as int, p, 0x1_0000_0000);
        }
        (t << k) % 0x1_0000_0000
    };
    proof {
        lemma_magnitude_nonneg(n);
        assert(low == magnitude(n) % 0x1_0000_0000);
        vstd::arithmetic::div_mod::lemma_fundamental_div_mod(magnitude(n), 0x1_0000_0000);
        let q = magnitude(n) / 0x1_0000_0000;
        if low == 0 {
            vstd::arithmetic::div_mod::lemma_mod_multiples_basic(-q, 0x1_0000_0000);
        } else {
            vstd::arithmetic::div_mod::lemma_mod_multiples_vanish(
                -q - 1,
                0x1_0000_0000 - low,
                0x1_0000_0000,
            );
            vstd::arithmetic::div_mod::lemma_small_mod(
                (0x1_0000_0000 - low) as nat,
                0x1_0000_0000,
            );
        }
    }
    if is_negative(n) && low != 0 {
        (0x1_0000_0000 - low) as u32
    } else {
        low as u32
    }
}

proof fn lemma_small_magnitude(n: u64)
    requires
        finite(n),
        exponent_bits(n) < 1087,
    ensures
        magnitude(n) <= u64::MAX,
{
    lemma_magnitude_nonneg(n);
    lemma2_to64();
    let m = significand(n);
    if scale(n) >= 1075 {
        let k = (scale(n) - 1075) as nat;
        if k < 11 {
            lemma_pow2_strictly_increases(k, 11);
        }
        let p = pow2(k) as int;
        lemma_pow2_pos(k);
        assert(m * p <= u64::MAX) by (nonlinear_arith)
            requires
                0 <= m < 0x20_0000_0000_0000,
                0 < p <= 2048,
        ;
    } else {
        let p = pow2((1075 - scale(n)) as nat) as int;
        lemma_pow2_pos((1075 - scale(n)) as nat);
        assert(m / p <= m) by (nonlinear_arith)
            requires
                0 <= m,
                0 < p,
        ;
    }
}

/// An integer survives the way into a Number and back.
pub proof fn law_integers_round_trip(n: int, b: u64)
    requires
        0 <= n <= COUNT_LIMIT,
        finite(b),
        !negative(b),
        magnitude(b) == n,
    ensures
        cast_u64(b) == n,
        cast_i64(b) == n,
{
}

proof fn lemma_doubled(n: int, m: int, k: nat)
    requires
        0 < n < COUNT_LIMIT,
        0 < m < 0x20_0000_0000_0000,
        m == n * pow2(k),
        k <= 52,
        k == 52 ==> m >= 0x10_0000_0000_0000,
    ensures
        ({
            let (d, j) = doubled(m, k as int);
            &&& 0x10_0000_0000_0000 <= d < 0x20_0000_0000_0000
            &&& 0 <= j <= 52
            &&& d == n * pow2(j as nat)
        }),
    decreases 0x20_0000_0000_0000 - m,
{
    if m < 0x10_0000_0000_0000 {
        lemma2_to64();
        lemma2_to64_rest();
        lemma_pow2_adds(k, 1);
        let p = pow2(k) as int;
        assert(n * (p * 2) == (n * p) * 2) by (nonlinear_arith);
        lemma_pow2_pos(k);
        if k == 51 {
            assert(n * (p * 2) >= p * 2) by (nonlinear_arith)
                requires
                    n >= 1,
                    p > 0,
            ;
        }
        lemma_doubled(n, m * 2, k + 1);
    }
}

/// The Number made for an integer has the value of that integer.
pub proof fn law_numbers_hold_their_integer(n: int)
    requires
        0 <= n <= COUNT_LIMIT,
    ensures
        finite(number(n)),
        !negative(number(n)),
        integral(number(n)),
        magnitude(number(n)) == n,
        integer_part(number(n)) == n,
{
    let r = number(n);
    lemma2_to64();
    if n == 0 {
        lemma_pow2_pos(1074);
        assert(0int / pow2(1074) as int == 0 && 0int % (pow2(1074) as int) == 0)
            by (nonlinear_arith)
            requires
                pow2(1074) > 0,
        ;
    } else if n == COUNT_LIMIT {
        assert(scale(r) == 1076 && significand(r) == 0x10_0000_0000_0000);
    } else {
        assert(n == n * 1);
        lemma_doubled(n, n, 0);
        let (m, k) = doubled(n, 0);
        assert(exponent_bits(r) == 1075 - k && fraction(r) == m - 0x10_0000_0000_0000);
        assert(significand(r) == m && scale(r) == 1075 - k);
        let p = pow2(k as nat) as int;
        lemma_pow2_pos(k as nat);
        assert((n * p) / p == n && (n * p) % p == 0) by (nonlinear_arith)
            requires
                p > 0,
                n > 0,
        ;
        assert(m * 1 == m);
    }
}

/// The order of Numbers is a strict one, and equality is what it leaves open.
pub proof fn law_order_is_strict(a: u64, b: u64, c: u64)
    ensures
        !less(a, a),
        less(a, b) && less(b, c) ==> less(a, c),
        !nan(a) && !nan(b) ==> less(a, b) || equal(a, b) || less(b, a),
        !(less(a, b) && equal(a, b)),
{
}

/// A resolved index lies between 0 and the length.
pub proof fn law_absolute_index_in_range(n: u64, len: int)
    requires
        len >= 0,
    ensures
        0 <= absolute_index(n, len) <= len,
        0 <= clamped_position(n, len) <= len,
{
}

// A small deterministic generator

/// The state of the generator behind a state.
pub open spec fn random_step(x: u64) -> u64 {
    let a = x ^ (x << 13);
    let b = a ^ (a >> 7);
    b ^ (b << 17)
}

pub fn next_state(x: u64) -> (r: u64)
    ensures
        r == random_step(x),
{
    let a: u64 = x ^ (x << 13);
    let b: u64 = a ^ (a >> 7);
    b ^ (b << 17)
}

/// The 53 bits of a state that a random Number is made of: it is this integer over 2^53.
pub fn random_bits(x: u64) -> (r: u64)
    ensures
        r == x >> 11,
        r < 0x20_0000_0000_0000,
{
    assert(x >> 11 < 0x20_0000_0000_0000) by (bit_vector);
    x >> 11
}

/// The generator does not run dry: no state leads to zero but zero itself.
pub proof fn law_generator_does_not_run_dry(x: u64)
    requires
        x != 0,
    ensures
        random_step(x) != 0,
{
    let a = x ^ (x << 13);
    let b = a ^ (a >> 7);
    assert(a != 0) by (bit_vector)
        requires
            a == x ^ (x << 13),
            x != 0,
    ;
    assert(b != 0) by (bit_vector)
        requires
            b == a ^ (a >> 7),
            a != 0,
    ;
    assert(b ^ (b << 17) != 0) by (bit_vector)
        requires
            b != 0,
    ;
}

} // verus!
