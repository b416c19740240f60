//! Saturating fixed-point scalar arithmetic.
//!
//! A scalar is an `i64` counting micro-units: the representation `v` stands
//! for the real number `v / SCALE`. Every operation clamps its mathematical
//! result into the `i64` range, and division by zero yields zero, so all
//! operations are total.

use vstd::prelude::*;

verus! {

/// Number of fixed-point steps per unit.
pub const SCALE: i64 = 1_000_000;

/// Sentinel scalar for "no intersection": the largest representable value.
pub const INF: i64 = i64::MAX;

/// The scalar two, in fixed-point.
pub const FX_TWO: i64 = 2_000_000;

/// The scalar four, in fixed-point.
pub const FX_FOUR: i64 = 4_000_000;

/// Clamps a mathematical integer into the `i64` range.
pub open spec fn sat(x: int) -> int {
    if x > i64::MAX {
        i64::MAX as int
    } else if x < i64::MIN {
        i64::MIN as int
    } else {
        x
    }
}

/// Division truncating toward zero (the behaviour of `/` on machine
/// integers), written over Euclidean `/`.
pub open spec fn tdiv(a: int, b: int) -> int
    recommends
        b != 0,
{
    if a >= 0 {
        a / b
    } else {
        -((-a) / b)
    }
}

/// Saturating addition.
pub open spec fn fadd(a: int, b: int) -> int {
    sat(a + b)
}

/// Saturating subtraction.
pub open spec fn fsub(a: int, b: int) -> int {
    sat(a - b)
}

/// Saturating negation.
pub open spec fn fneg(a: int) -> int {
    sat(-a)
}

/// Saturating fixed-point multiplication: the product rescaled by `SCALE`,
/// truncating toward zero.
pub open spec fn fmul(a: int, b: int) -> int {
    sat(tdiv(a * b, SCALE as int))
}

/// Saturating fixed-point division: the quotient rescaled by `SCALE`,
/// truncating toward zero; a zero divisor yields zero.
pub open spec fn fdiv(a: int, b: int) -> int {
    if b == 0 {
        0
    } else {
        sat(tdiv(a * (SCALE as int), b))
    }
}

/// Saturating product of a plain integer count with a fixed-point scalar.
pub open spec fn imul(n: int, f: int) -> int {
    sat(n * f)
}

/// A fixed-point scalar divided by a plain integer count, truncating toward
/// zero; a zero count yields zero.
pub open spec fn idiv(f: int, n: int) -> int {
    if n == 0 {
        0
    } else {
        sat(tdiv(f, n))
    }
}

/// `r` is the floor integer square root of `n`.
pub open spec fn is_floor_sqrt(n: int, r: int) -> bool {
    0 <= r && r * r <= n && n < (r + 1) * (r + 1)
}

/// The floor integer square root of a non-negative integer.
pub open spec fn sqrt_floor(n: int) -> int {
    choose|r: int| is_floor_sqrt(n, r)
}

/// Fixed-point square root: in micro-units it is the floor integer square
/// root of `a * SCALE`; non-positive inputs yield zero.
pub open spec fn fsqrt(a: int) -> int {
    if a <= 0 {
        0
    } else {
        sqrt_floor(a * (SCALE as int))
    }
}

/// Truncating division never grows the magnitude of the dividend.
pub proof fn lemma_tdiv_magnitude(a: int, b: int)
    requires
        b != 0,
    ensures
        a >= 0 ==> 0 <= tdiv(a, b) <= a || 0 >= tdiv(a, b) >= -a,
        a < 0 ==> 0 >= tdiv(a, b) >= a || 0 <= tdiv(a, b) <= -a,
{
    if a >= 0 {
        if b >= 1 {
            assert(0 <= a / b <= a) by (nonlinear_arith)
                requires
                    a >= 0,
                    b >= 1,
            ;
        } else {
            assert(0 >= a / b >= -a) by (nonlinear_arith)
                requires
                    a >= 0,
                    b <= -1,
            ;
        }
    } else {
        if b >= 1 {
            assert(0 <= (-a) / b <= -a) by (nonlinear_arith)
                requires
                    a < 0,
                    b >= 1,
            ;
        } else {
            assert(0 >= (-a) / b >= a) by (nonlinear_arith)
                requires
                    a < 0,
                    b <= -1,
            ;
        }
    }
}

/// The floor integer square root is unique.
pub proof fn lemma_floor_sqrt_unique(n: int, r1: int, r2: int)
    requires
        is_floor_sqrt(n, r1),
        is_floor_sqrt(n, r2),
    ensures
        r1 == r2,
{
    assert(r1 == r2) by (nonlinear_arith)
        requires
            0 <= r1,
            r1 * r1 <= n,
            n < (r1 + 1) * (r1 + 1),
            0 <= r2,
            r2 * r2 <= n,
            n < (r2 + 1) * (r2 + 1),
    ;
}

/// Saturating addition of two scalars.
pub fn fx_add(a: i64, b: i64) -> (r: i64)
    ensures
        r as int == fadd(a as int, b as int),
{
    let s: i128 = a as i128 + b as i128;
    if s > i64::MAX as i128 {
        i64::MAX
    } else if s < i64::MIN as i128 {
        i64::MIN
    } else {
        s as i64
    }
}

/// Saturating subtraction of two scalars.
pub fn fx_sub(a: i64, b: i64) -> (r: i64)
    ensures
        r as int == fsub(a as int, b as int),
{
    let s: i128 = a as i128 - b as i128;
    if s > i64::MAX as i128 {
        i64::MAX
    } else if s < i64::MIN as i128 {
        i64::MIN
    } else {
        s as i64
    }
}

/// Saturating negation of a scalar.
pub fn fx_neg(a: i64) -> (r: i64)
    ensures
        r as int == fneg(a as int),
{
    if a == i64::MIN {
        i64::MAX
    } else {
        -a
    }
}

/// Saturating fixed-point multiplication.
pub fn fx_mul(a: i64, b: i64) -> (r: i64)
    ensures
        r as int == fmul(a as int, b as int),
{
    proof {
        assert(a as int * b as int <= 0x4000_0000_0000_0000_0000_0000_0000_0000int
            && a as int * b as int >= -0x4000_0000_0000_0000_0000_0000_0000_0000int)
            by (nonlinear_arith)
            requires
                i64::MIN <= a <= i64::MAX,
                i64::MIN <= b <= i64::MAX,
        ;
    }
    let p: i128 = (a as i128) * (b as i128);
    let q: i128 = p / (SCALE as i128);
    if q > i64::MAX as i128 {
        i64::MAX
    } else if q < i64::MIN as i128 {
        i64::MIN
    } else {
        q as i64
    }
}

/// Saturating fixed-point division; a zero divisor yields zero.
pub fn fx_div(a: i64, b: i64) -> (r: i64)
    ensures
        r as int == fdiv(a as int, b as int),
{
    if b == 0 {
        0
    } else {
        proof {
            assert(a as int * (SCALE as int) <= 0x4000_0000_0000_0000_0000_0000_0000_0000int
                && a as int * (SCALE as int) >= -0x4000_0000_0000_0000_0000_0000_0000_0000int)
                by (nonlinear_arith)
                requires
                    i64::MIN <= a <= i64::MAX,
            ;
            lemma_tdiv_magnitude(a as int * (SCALE as int), b as int);
        }
        let p: i128 = (a as i128) * (SCALE as i128);
        let q: i128 = p / (b as i128);
        if q > i64::MAX as i128 {
            i64::MAX
        } else if q < i64::MIN as i128 {
            i64::MIN
        } else {
            q as i64
        }
    }
}

/// Saturating product of a plain integer count with a scalar.
pub fn fx_imul(n: i64, f: i64) -> (r: i64)
    ensures
        r as int == imul(n as int, f as int),
{
    proof {
        assert(n as int * f as int <= 0x4000_0000_0000_0000_0000_0000_0000_0000int
            && n as int * f as int >= -0x4000_0000_0000_0000_0000_0000_0000_0000int)
            by (nonlinear_arith)
            requires
                i64::MIN <= n <= i64::MAX,
                i64::MIN <= f <= i64::MAX,
        ;
    }
    let p: i128 = (n as i128) * (f as i128);
    if p > i64::MAX as i128 {
        i64::MAX
    } else if p < i64::MIN as i128 {
        i64::MIN
    } else {
        p as i64
    }
}

/// A scalar divided by a plain integer count; a zero count yields zero.
pub fn fx_idiv(f: i64, n: i64) -> (r: i64)
    ensures
        r as int == idiv(f as int, n as int),
{
    if n == 0 {
        0
    } else {
        proof {
            lemma_tdiv_magnitude(f as int, n as int);
        }
        let q: i128 = (f as i128) / (n as i128);
        if q > i64::MAX as i128 {
            i64::MAX
        } else if q < i64::MIN as i128 {
            i64::MIN
        } else {
            q as i64
        }
    }
}

/// Floor integer square root by binary search.
fn isqrt_u128(n: u128) -> (r: u128)
    requires
        n < 0x10_0000_0000_0000_0000_0000u128,
    ensures
        is_floor_sqrt(n as int, r as int),
        r <= 0x400_0000_0000u128,
{
    let mut lo: u128 = 0;
    let mut hi: u128 = 0x400_0000_0000;
    while lo < hi
        invariant
            lo <= hi,
            hi <= 0x400_0000_0000u128,
            (lo as int) * (lo as int) <= n as int,
            (n as int) < ((hi as int) + 1) * ((hi as int) + 1),
        decreases hi - lo,
    {
        let mid: u128 = lo + (hi - lo + 1) / 2;
        proof {
            assert(mid * mid <= 0x10_0000_0000_0000_0000_0000_0000u128)
                by (nonlinear_arith)
                requires
                    mid <= 0x400_0000_0001u128,
            ;
        }
        let sq: u128 = mid * mid;
        if sq <= n {
            lo = mid;
        } else {
            hi = mid - 1;
        }
    }
    lo
}

/// Fixed-point square root of a scalar.
pub fn fx_sqrt(a: i64) -> (r: i64)
    ensures
        r as int == fsqrt(a as int),
{
    if a <= 0 {
        0
    } else {
        proof {
            assert(a as int * (SCALE as int) < 0x10_0000_0000_0000_0000_0000int)
                by (nonlinear_arith)
                requires
                    0 < a <= i64::MAX,
            ;
        }
        let n: u128 = (a as u128) * (SCALE as u128);
        let s: u128 = isqrt_u128(n);
        proof {
            assert(is_floor_sqrt(n as int, s as int));
            lemma_floor_sqrt_unique(n as int, sqrt_floor(n as int), s as int);
        }
        s as i64
    }
}

} // verus!
