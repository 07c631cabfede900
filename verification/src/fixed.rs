//! Q31.32 fixed-point scalars: an `i64` carries `value * 2^32`.
//!
//! Every operation saturates at the `i64` range instead of overflowing, so
//! all operations are total and the exact result of each one is pinned down
//! by a spec-level mirror (`sat_i64`, `trunc_div`, `fx_mul_spec`, ...).

use vstd::prelude::*;

verus! {

/// The fixed-point scale: 2^32.
pub const SCALE: i64 = 0x1_0000_0000;

/// Absolute value of a mathematical integer.
pub open spec fn int_abs(x: int) -> int {
    if x >= 0 {
        x
    } else {
        -x
    }
}

/// Saturate a mathematical integer into the `i64` range.
pub open spec fn sat_i64(x: int) -> int {
    if x > i64::MAX {
        i64::MAX as int
    } else if x < i64::MIN {
        i64::MIN as int
    } else {
        x
    }
}

/// Division truncating toward zero (the machine behaviour for signed
/// integers), stated over mathematical integers.
pub open spec fn trunc_div(p: int, d: int) -> int
    recommends
        d != 0,
{
    let q = int_abs(p) / int_abs(d);
    if (p < 0) != (d < 0) {
        -q
    } else {
        q
    }
}

/// Fixed-point product: `(a * b) / 2^32`, truncated toward zero, saturated.
pub open spec fn fx_mul_spec(a: int, b: int) -> int {
    sat_i64(trunc_div(a * b, SCALE as int))
}

/// Fixed-point quotient: `(a * 2^32) / b`, truncated toward zero, saturated.
/// A zero divisor saturates to the sign of the dividend, standing in for the
/// infinite ratio a floating-point division would produce.
pub open spec fn fx_div_spec(a: int, b: int) -> int {
    if b == 0 {
        if a >= 0 {
            i64::MAX as int
        } else {
            i64::MIN as int
        }
    } else {
        sat_i64(trunc_div(a * (SCALE as int), b))
    }
}

proof fn lemma_mul_bounds(a: int, b: int, aa: int, bb: int)
    by (nonlinear_arith)
    requires
        -aa <= a <= aa,
        -bb <= b <= bb,
        0 <= aa,
        0 <= bb,
    ensures
        -(aa * bb) <= a * b <= aa * bb,
{
}

/// Narrow an `i128` into `i64`, saturating at the ends of the range.
fn sat_narrow(q: i128) -> (r: i64)
    ensures
        r as int == sat_i64(q as int),
{
    if q > i64::MAX as i128 {
        i64::MAX
    } else if q < i64::MIN as i128 {
        i64::MIN
    } else {
        q as i64
    }
}

/// Saturating sum of two fixed-point values.
pub fn sat_add(a: i64, b: i64) -> (r: i64)
    ensures
        r as int == sat_i64(a + b),
{
    sat_narrow(a as i128 + b as i128)
}

/// Saturating difference of two fixed-point values.
pub fn sat_sub(a: i64, b: i64) -> (r: i64)
    ensures
        r as int == sat_i64(a - b),
{
    sat_narrow(a as i128 - b as i128)
}

/// Fixed-point product, truncated toward zero and saturated.
pub fn fx_mul(a: i64, b: i64) -> (r: i64)
    ensures
        r as int == fx_mul_spec(a as int, b as int),
{
    proof {
        lemma_mul_bounds(
            a as int,
            b as int,
            0x8000_0000_0000_0000,
            0x8000_0000_0000_0000,
        );
    }
    let p: i128 = (a as i128) * (b as i128);
    if p >= 0 {
        let q: u128 = (p as u128) / (SCALE as u128);
        if q > i64::MAX as u128 {
            i64::MAX
        } else {
            q as i64
        }
    } else {
        let np: u128 = (-p) as u128;
        let q: u128 = np / (SCALE as u128);
        if q > i64::MAX as u128 {
            i64::MIN
        } else {
            -(q as i64)
        }
    }
}

/// Fixed-point quotient, truncated toward zero and saturated; a zero divisor
/// yields the saturated value with the dividend's sign.
pub fn fx_div(a: i64, b: i64) -> (r: i64)
    ensures
        r as int == fx_div_spec(a as int, b as int),
{
    if b == 0 {
        if a >= 0 {
            i64::MAX
        } else {
            i64::MIN
        }
    } else {
        proof {
            lemma_mul_bounds(a as int, SCALE as int, 0x8000_0000_0000_0000, SCALE as int);
        }
        let p: i128 = (a as i128) * (SCALE as i128);
        let pu: u128 = if p < 0 {
            (-p) as u128
        } else {
            p as u128
        };
        let du: u128 = if b < 0 {
            (-(b as i128)) as u128
        } else {
            b as u128
        };
        let q: u128 = pu / du;
        if (a < 0) != (b < 0) {
            if q > i64::MAX as u128 {
                i64::MIN
            } else {
                -(q as i64)
            }
        } else {
            if q > i64::MAX as u128 {
                i64::MAX
            } else {
                q as i64
            }
        }
    }
}

/// `r` is the integer square root of `n`.
pub open spec fn is_isqrt(n: int, r: int) -> bool {
    0 <= r && r * r <= n && n < (r + 1) * (r + 1)
}

/// The integer square root of a non-negative integer.
pub open spec fn isqrt_spec(n: int) -> int
    recommends
        n >= 0,
{
    choose|r: int| is_isqrt(n, r)
}

proof fn lemma_isqrt_exists(n: int)
    requires
        n >= 0,
    ensures
        exists|r: int| is_isqrt(n, r),
    decreases n,
{
    if n == 0 {
        assert(is_isqrt(0, 0));
    } else {
        lemma_isqrt_exists(n - 1);
        let r = choose|r: int| #[trigger] is_isqrt(n - 1, r);
        if n < (r + 1) * (r + 1) {
            assert(is_isqrt(n, r));
        } else {
            assert(n == (r + 1) * (r + 1));
            assert((r + 2) * (r + 2) > n) by (nonlinear_arith)
                requires
                    r >= 0,
                    n == (r + 1) * (r + 1),
            ;
            assert(is_isqrt(n, r + 1));
        }
    }
}

proof fn lemma_isqrt_unique(n: int, r1: int, r2: int)
    by (nonlinear_arith)
    requires
        is_isqrt(n, r1),
        is_isqrt(n, r2),
    ensures
        r1 == r2,
{
}

/// The integer square root exists, is unique, and `isqrt_spec` denotes it.
pub proof fn lemma_isqrt(n: int)
    requires
        n >= 0,
    ensures
        is_isqrt(n, isqrt_spec(n)),
        forall|r: int| is_isqrt(n, r) ==> r == isqrt_spec(n),
{
    lemma_isqrt_exists(n);
    assert forall|r: int| is_isqrt(n, r) implies r == isqrt_spec(n) by {
        lemma_isqrt_unique(n, r, isqrt_spec(n));
    }
}

/// Integer square root by binary search.
pub fn isqrt_u128(n: u128) -> (r: u128)
    ensures
        r as int == isqrt_spec(n as int),
        is_isqrt(n as int, r as int),
{
    let mut lo: u128 = 0;
    let mut hi: u128 = if n < 0xffff_ffff_ffff_ffff {
        n
    } else {
        0xffff_ffff_ffff_ffff
    };
    proof {
        assert((hi + 1) * (hi + 1) > n) by (nonlinear_arith)
            requires
                hi < 0x1_0000_0000_0000_0000,
                n <= u128::MAX,
                hi >= n || hi == 0xffff_ffff_ffff_ffff,
        ;
    }
    while lo < hi
        invariant
            lo <= hi,
            hi <= 0xffff_ffff_ffff_ffff,
            lo * lo <= n,
            n < (hi + 1) * (hi + 1),
        decreases hi - lo,
    {
        let mid: u128 = lo + (hi - lo + 1) / 2;
        proof {
            assert(mid * mid <= 0xffff_ffff_ffff_ffff * 0xffff_ffff_ffff_ffff)
                by (nonlinear_arith)
                requires
                    0 <= mid <= 0xffff_ffff_ffff_ffff,
            ;
        }
        if mid * mid <= n {
            lo = mid;
        } else {
            hi = mid - 1;
        }
    }
    proof {
        lemma_isqrt(n as int);
        lemma_isqrt_unique(n as int, lo as int, isqrt_spec(n as int));
    }
    lo
}

/// Fixed-point magnitude of a 2-vector: `sqrt(re^2 + im^2)`, saturated.
pub open spec fn amp_spec(re: int, im: int) -> int {
    sat_i64(isqrt_spec(re * re + im * im))
}

/// Fixed-point Euclidean norm of `(re, im)`.
pub fn fx_amp(re: i64, im: i64) -> (r: i64)
    ensures
        r as int == amp_spec(re as int, im as int),
{
    proof {
        lemma_mul_bounds(
            re as int,
            re as int,
            0x8000_0000_0000_0000,
            0x8000_0000_0000_0000,
        );
        lemma_mul_bounds(
            im as int,
            im as int,
            0x8000_0000_0000_0000,
            0x8000_0000_0000_0000,
        );
        assert(re as int * re as int >= 0) by (nonlinear_arith);
        assert(im as int * im as int >= 0) by (nonlinear_arith);
    }
    let sr: u128 = ((re as i128) * (re as i128)) as u128;
    let si: u128 = ((im as i128) * (im as i128)) as u128;
    let s: u128 = sr + si;
    let q = isqrt_u128(s);
    if q > i64::MAX as u128 {
        i64::MAX
    } else {
        q as i64
    }
}

} // verus!
