//! Signed 64-bit fixed-point arithmetic.
//!
//! A quantity `q` stands for the real number `q / SCALE`.  Every operation
//! truncates toward zero and saturates at the `i64` range, and its result is
//! pinned exactly by a spec function, so the whole physical model downstream
//! is described without any appeal to machine rounding behaviour.

use vstd::prelude::*;

verus! {

/// Number of fixed-point units in one whole unit.
pub const SCALE: i64 = 1_000_000;

/// Largest coordinate magnitude accepted for mesh locations; keeps every
/// squared-distance computation inside `u128`.
pub const COORD_MAX: i64 = 1_000_000_000_000_000;

/// Clamp an unbounded integer into the `i64` range.
pub open spec fn clamp(x: int) -> int {
    if x < i64::MIN as int {
        i64::MIN as int
    } else if x > i64::MAX as int {
        i64::MAX as int
    } else {
        x
    }
}

/// Quotient truncated toward zero, for a positive divisor.
pub open spec fn div_tz(a: int, b: int) -> int
    recommends
        b > 0,
{
    if a >= 0 {
        a / b
    } else {
        -((-a) / b)
    }
}

/// Saturating addition.
pub open spec fn sat_add_spec(a: int, b: int) -> int {
    clamp(a + b)
}

/// Saturating subtraction.
pub open spec fn sat_sub_spec(a: int, b: int) -> int {
    clamp(a - b)
}

/// Fixed-point product: `(a * b) / SCALE`, truncated toward zero and clamped.
pub open spec fn fp_mul_spec(a: int, b: int) -> int {
    clamp(div_tz(a * b, SCALE as int))
}

/// Fixed-point quotient: `(a * SCALE) / b`, truncated toward zero and clamped.
pub open spec fn fp_div_spec(a: int, b: int) -> int
    recommends
        b > 0,
{
    clamp(div_tz(a * (SCALE as int), b))
}

/// Clamp a signed 128-bit value into the `i64` range.
fn clamp_i128(x: i128) -> (r: i64)
    ensures
        r as int == clamp(x as int),
{
    if x < i64::MIN as i128 {
        i64::MIN
    } else if x > i64::MAX as i128 {
        i64::MAX
    } else {
        x as i64
    }
}

/// Magnitude of an `i64`, widened so that `i64::MIN` needs no special case.
fn abs_u128(a: i64) -> (r: u128)
    ensures
        r as int == if a >= 0 { a as int } else { -(a as int) },
{
    if a >= 0 {
        a as u128
    } else {
        (-(a as i128)) as u128
    }
}

/// Saturating addition of two fixed-point values.
pub fn sat_add(a: i64, b: i64) -> (r: i64)
    ensures
        r as int == sat_add_spec(a as int, b as int),
{
    clamp_i128(a as i128 + b as i128)
}

/// Saturating subtraction of two fixed-point values.
pub fn sat_sub(a: i64, b: i64) -> (r: i64)
    ensures
        r as int == sat_sub_spec(a as int, b as int),
{
    clamp_i128(a as i128 - b as i128)
}

/// Turn an unsigned magnitude and a sign into a clamped `i64`.
fn apply_sign(neg: bool, m: u128) -> (r: i64)
    ensures
        r as int == clamp(if neg { -(m as int) } else { m as int }),
{
    if neg {
        if m >= 9223372036854775808u128 {
            i64::MIN
        } else {
            -(m as i64)
        }
    } else {
        if m > i64::MAX as u128 {
            i64::MAX
        } else {
            m as i64
        }
    }
}

proof fn lemma_abs_mul(a: int, b: int)
    ensures
        (if a >= 0 { a } else { -a }) * (if b >= 0 { b } else { -b }) == if a * b >= 0 {
            a * b
        } else {
            -(a * b)
        },
        ((a < 0) != (b < 0)) ==> a * b <= 0,
        ((a < 0) == (b < 0)) ==> a * b >= 0,
{
    assert((if a >= 0 { a } else { -a }) * (if b >= 0 { b } else { -b }) == if a * b >= 0 {
        a * b
    } else {
        -(a * b)
    }) by (nonlinear_arith);
    assert(((a < 0) != (b < 0)) ==> a * b <= 0) by (nonlinear_arith);
    assert(((a < 0) == (b < 0)) ==> a * b >= 0) by (nonlinear_arith);
}

/// Fixed-point multiplication.
pub fn fp_mul(a: i64, b: i64) -> (r: i64)
    ensures
        r as int == fp_mul_spec(a as int, b as int),
{
    let neg: bool = (a < 0) != (b < 0);
    let aa: u128 = abs_u128(a);
    let bb: u128 = abs_u128(b);
    assert(aa * bb <= u128::MAX) by (nonlinear_arith)
        requires
            aa <= 0x8000_0000_0000_0000u128,
            bb <= 0x8000_0000_0000_0000u128,
    ;
    let m: u128 = aa * bb;
    let q: u128 = m / (SCALE as u128);
    proof {
        lemma_abs_mul(a as int, b as int);
    }
    apply_sign(neg && q > 0, q)
}

/// Fixed-point division by a positive divisor.
pub fn fp_div(a: i64, b: i64) -> (r: i64)
    requires
        b > 0,
    ensures
        r as int == fp_div_spec(a as int, b as int),
{
    let neg: bool = a < 0;
    let aa: u128 = abs_u128(a);
    assert(aa * (SCALE as u128) <= u128::MAX) by (nonlinear_arith)
        requires
            aa <= 0x8000_0000_0000_0000u128,
    ;
    let m: u128 = aa * (SCALE as u128);
    let q: u128 = m / (b as u128);
    proof {
        lemma_abs_mul(a as int, SCALE as int);
    }
    apply_sign(neg && q > 0, q)
}

/// `(a * b) / SCALE` exactly, truncated toward zero, without clamping.
pub fn mul_div_scale(a: i64, b: i64) -> (r: i128)
    ensures
        r as int == div_tz(a * b, SCALE as int),
        -0x4000_0000_0000_0000_0000_0000_0000_0000i128 <= r
            <= 0x4000_0000_0000_0000_0000_0000_0000_0000i128,
{
    let neg: bool = (a < 0) != (b < 0);
    let aa: u128 = abs_u128(a);
    let bb: u128 = abs_u128(b);
    assert(aa * bb <= 0x8000_0000_0000_0000u128 * 0x8000_0000_0000_0000u128) by (nonlinear_arith)
        requires
            aa <= 0x8000_0000_0000_0000u128,
            bb <= 0x8000_0000_0000_0000u128,
    ;
    let m: u128 = aa * bb;
    let q: u128 = m / (SCALE as u128);
    proof {
        lemma_abs_mul(a as int, b as int);
        vstd::arithmetic::div_mod::lemma_div_nonincreasing(m as int, SCALE as int);
    }
    assert(q < 0x8000_0000_0000_0000_0000_0000_0000_0000u128) by (nonlinear_arith)
        requires
            q <= m,
            m <= 0x8000_0000_0000_0000u128 * 0x8000_0000_0000_0000u128,
    ;
    if neg {
        -(q as i128)
    } else {
        q as i128
    }
}

/// Halve a value, truncating toward zero.
pub fn half_tz(a: i64) -> (r: i64)
    ensures
        r as int == div_tz(a as int, 2),
{
    let neg: bool = a < 0;
    let q: u128 = abs_u128(a) / 2;
    apply_sign(neg && q > 0, q)
}

/// The unique nonnegative integer square root, rounded down.
pub open spec fn sqrt_floor(n: int) -> int
    recommends
        n >= 0,
{
    choose|r: int| 0 <= r && #[trigger] (r * r) <= n && n < (r + 1) * (r + 1)
}

/// The defining property pins `sqrt_floor` down completely.
pub proof fn lemma_sqrt_floor_unique(n: int, r: int)
    requires
        0 <= r,
        r * r <= n,
        n < (r + 1) * (r + 1),
    ensures
        sqrt_floor(n) == r,
{
    assert(0 <= r && (r * r) <= n && n < (r + 1) * (r + 1));
    let s = sqrt_floor(n);
    assert(0 <= s && (s * s) <= n && n < (s + 1) * (s + 1));
    assert(s == r) by (nonlinear_arith)
        requires
            0 <= r,
            r * r <= n,
            n < (r + 1) * (r + 1),
            0 <= s,
            s * s <= n,
            n < (s + 1) * (s + 1),
    ;
}

/// Integer square root by bisection.
pub fn isqrt(n: u128) -> (r: u64)
    ensures
        r as int == sqrt_floor(n as int),
        (r as int) * (r as int) <= n as int,
        (n as int) < ((r as int) + 1) * ((r as int) + 1),
{
    let mut lo: u64 = 0;
    let mut hi: u128 = 0x1_0000_0000_0000_0000;
    assert((hi as int) * (hi as int) > n as int) by (nonlinear_arith)
        requires
            hi == 0x1_0000_0000_0000_0000u128,
            n <= u128::MAX,
    ;
    while (lo as u128) + 1 < hi
        invariant
            (lo as int) * (lo as int) <= n as int,
            (n as int) < (hi as int) * (hi as int),
            (lo as u128) < hi,
            hi <= 0x1_0000_0000_0000_0000u128,
        decreases hi - (lo as u128),
    {
        let mid: u128 = ((lo as u128) + hi) / 2;
        assert((lo as u128) < mid && mid < hi);
        assert(mid * mid <= u128::MAX) by (nonlinear_arith)
            requires
                mid < 0x1_0000_0000_0000_0000u128,
        ;
        if mid * mid <= n {
            lo = mid as u64;
        } else {
            hi = mid;
        }
    }
    proof {
        assert(hi == (lo as u128) + 1);
        lemma_sqrt_floor_unique(n as int, lo as int);
    }
    lo
}

} // verus!
