//! Fixed-point sine, cosine and arctangent.
//!
//! Arguments are reduced into `[-pi, pi]` with the fixed-point constant for
//! `2*pi`, folded into `[-pi/2, pi/2]`, and evaluated with truncated Taylor
//! polynomials in nested (Horner) form. Every step is built from the exact
//! saturating primitives of `fixed`, so each function's result is pinned by a
//! spec-level mirror; the truncation error against the real functions is
//! below 1e-8, well under the tolerances the transform tests use.

use vstd::prelude::*;

use crate::fixed::{
    fx_div, fx_div_spec, fx_mul, fx_mul_spec, int_abs, sat_add, sat_i64, sat_sub, trunc_div, SCALE,
};

verus! {

/// pi in Q31.32.
pub const PI_FX: i64 = 13493037705;

/// 2*pi in Q31.32.
pub const TWO_PI_FX: i64 = 26986075409;

/// pi/2 in Q31.32.
pub const HALF_PI_FX: i64 = 6746518852;

/// pi/4 in Q31.32.
pub const QUARTER_PI_FX: i64 = 3373259426;

/// tan(pi/8) in Q31.32.
pub const TAN_PI_8_FX: i64 = 1779033704;

pub const SIN_C6: i64 = 715827883;
pub const SIN_C20: i64 = 214748365;
pub const SIN_C42: i64 = 102261126;
pub const SIN_C72: i64 = 59652324;
pub const SIN_C110: i64 = 39045157;
pub const SIN_C156: i64 = 27531842;

pub const COS_C2: i64 = 2147483648;
pub const COS_C12: i64 = 357913941;
pub const COS_C30: i64 = 143165577;
pub const COS_C56: i64 = 76695845;
pub const COS_C90: i64 = 47721859;
pub const COS_C132: i64 = 32537631;

pub const ATAN_C3: i64 = 1431655765;
pub const ATAN_C5: i64 = 858993459;
pub const ATAN_C7: i64 = 613566757;
pub const ATAN_C9: i64 = 477218588;
pub const ATAN_C11: i64 = 390451572;
pub const ATAN_C13: i64 = 330382100;
pub const ATAN_C15: i64 = 286331153;
pub const ATAN_C17: i64 = 252645135;
pub const ATAN_C19: i64 = 226050910;
pub const ATAN_C21: i64 = 204522252;
pub const ATAN_C23: i64 = 186737709;
pub const ATAN_C25: i64 = 171798692;

/// The angle congruent to `x` modulo `2*pi`, brought into `[-pi, pi]`.
pub open spec fn reduce_spec(x: int) -> int {
    let y = x - trunc_div(x, TWO_PI_FX as int) * (TWO_PI_FX as int);
    if y > PI_FX {
        y - TWO_PI_FX
    } else if y < -(PI_FX as int) {
        y + TWO_PI_FX
    } else {
        y
    }
}

/// Taylor polynomial for sine on `[-pi/2, pi/2]`, in nested form.
#[verifier::opaque]
pub open spec fn sin_poly_spec(y: int) -> int {
    let z = fx_mul_spec(y, y);
    let p5 = sat_i64(SCALE - fx_mul_spec(z, SIN_C156 as int));
    let p4 = sat_i64(SCALE - fx_mul_spec(fx_mul_spec(z, SIN_C110 as int), p5));
    let p3 = sat_i64(SCALE - fx_mul_spec(fx_mul_spec(z, SIN_C72 as int), p4));
    let p2 = sat_i64(SCALE - fx_mul_spec(fx_mul_spec(z, SIN_C42 as int), p3));
    let p1 = sat_i64(SCALE - fx_mul_spec(fx_mul_spec(z, SIN_C20 as int), p2));
    let p0 = sat_i64(SCALE - fx_mul_spec(fx_mul_spec(z, SIN_C6 as int), p1));
    fx_mul_spec(y, p0)
}

/// Taylor polynomial for cosine on `[-pi/2, pi/2]`, in nested form.
#[verifier::opaque]
pub open spec fn cos_poly_spec(y: int) -> int {
    let z = fx_mul_spec(y, y);
    let p5 = sat_i64(SCALE - fx_mul_spec(z, COS_C132 as int));
    let p4 = sat_i64(SCALE - fx_mul_spec(fx_mul_spec(z, COS_C90 as int), p5));
    let p3 = sat_i64(SCALE - fx_mul_spec(fx_mul_spec(z, COS_C56 as int), p4));
    let p2 = sat_i64(SCALE - fx_mul_spec(fx_mul_spec(z, COS_C30 as int), p3));
    let p1 = sat_i64(SCALE - fx_mul_spec(fx_mul_spec(z, COS_C12 as int), p2));
    sat_i64(SCALE - fx_mul_spec(fx_mul_spec(z, COS_C2 as int), p1))
}

/// Fixed-point sine of an arbitrary fixed-point angle.
pub open spec fn sin_spec(x: int) -> int {
    let y = reduce_spec(x);
    let y2 = if y > HALF_PI_FX {
        PI_FX - y
    } else if y < -(HALF_PI_FX as int) {
        -(PI_FX as int) - y
    } else {
        y
    };
    sin_poly_spec(y2)
}

/// Fixed-point cosine of an arbitrary fixed-point angle.
pub open spec fn cos_spec(x: int) -> int {
    let y = reduce_spec(x);
    if y > HALF_PI_FX {
        sat_i64(-cos_poly_spec(PI_FX - y))
    } else if y < -(HALF_PI_FX as int) {
        sat_i64(-cos_poly_spec(-(PI_FX as int) - y))
    } else {
        cos_poly_spec(y)
    }
}

/// Taylor polynomial for arctangent on `[-tan(pi/8), tan(pi/8)]`.
#[verifier::opaque]
pub open spec fn atan_poly_spec(a: int) -> int {
    let z = fx_mul_spec(a, a);
    let q11 = sat_i64(ATAN_C23 - fx_mul_spec(z, ATAN_C25 as int));
    let q10 = sat_i64(ATAN_C21 - fx_mul_spec(z, q11));
    let q9 = sat_i64(ATAN_C19 - fx_mul_spec(z, q10));
    let q8 = sat_i64(ATAN_C17 - fx_mul_spec(z, q9));
    let q7 = sat_i64(ATAN_C15 - fx_mul_spec(z, q8));
    let q6 = sat_i64(ATAN_C13 - fx_mul_spec(z, q7));
    let q5 = sat_i64(ATAN_C11 - fx_mul_spec(z, q6));
    let q4 = sat_i64(ATAN_C9 - fx_mul_spec(z, q5));
    let q3 = sat_i64(ATAN_C7 - fx_mul_spec(z, q4));
    let q2 = sat_i64(ATAN_C5 - fx_mul_spec(z, q3));
    let q1 = sat_i64(ATAN_C3 - fx_mul_spec(z, q2));
    let q0 = sat_i64(SCALE - fx_mul_spec(z, q1));
    fx_mul_spec(a, q0)
}

/// Fixed-point arctangent of a fixed-point ratio, quadrant-unaware:
/// the result always lies in `[-pi/2, pi/2]`.
pub open spec fn atan_spec(v: int) -> int {
    let a = sat_i64(int_abs(v));
    let a1 = if a > SCALE {
        fx_div_spec(SCALE as int, a)
    } else {
        a
    };
    let a2 = if a1 > TAN_PI_8_FX {
        fx_div_spec(sat_i64(a1 - SCALE), sat_i64(a1 + SCALE))
    } else {
        a1
    };
    let t0 = atan_poly_spec(a2);
    let t1 = if a1 > TAN_PI_8_FX {
        sat_i64(QUARTER_PI_FX + t0)
    } else {
        t0
    };
    let t2 = if a > SCALE {
        sat_i64(HALF_PI_FX - t1)
    } else {
        t1
    };
    if v < 0 {
        sat_i64(-t2)
    } else {
        t2
    }
}

/// Reduce a wide fixed-point angle into `[-pi, pi]` modulo `2*pi`.
pub fn reduce_angle(x: i128) -> (r: i64)
    ensures
        r as int == reduce_spec(x as int),
        -(PI_FX as int) <= r as int <= PI_FX as int,
{
    let t: i128 = TWO_PI_FX as i128;
    let xu: u128 = if x >= 0 {
        x as u128
    } else {
        ((-(x + 1)) as u128) + 1
    };
    proof {
        assert(xu as int == int_abs(x as int));
    }
    let qu: u128 = xu / (TWO_PI_FX as u128);
    proof {
        vstd::arithmetic::div_mod::lemma_fundamental_div_mod(int_abs(x as int), TWO_PI_FX as int);
        vstd::arithmetic::div_mod::lemma_mod_division_less_than_divisor(
            int_abs(x as int),
            TWO_PI_FX as int,
        );
        assert((TWO_PI_FX as int) * (qu as int) <= xu as int);
        vstd::arithmetic::mul::lemma_mul_is_commutative(TWO_PI_FX as int, qu as int);
        vstd::arithmetic::mul::lemma_mul_nonnegative(qu as int, TWO_PI_FX as int);
    }
    let k: i128 = if x >= 0 {
        qu as i128
    } else {
        proof {
            vstd::arithmetic::mul::lemma_mul_unary_negation(qu as int, TWO_PI_FX as int);
        }
        -(qu as i128)
    };
    let y: i128 = x - k * t;
    if y > PI_FX as i128 {
        (y - t) as i64
    } else if y < -(PI_FX as i128) {
        (y + t) as i64
    } else {
        y as i64
    }
}

/// Fixed-point sine.
pub fn sin_fx(x: i64) -> (r: i64)
    ensures
        r as int == sin_spec(x as int),
{
    let y = reduce_angle(x as i128);
    let y2 = if y > HALF_PI_FX {
        sat_sub(PI_FX, y)
    } else if y < -HALF_PI_FX {
        sat_sub(-PI_FX, y)
    } else {
        y
    };
    sin_poly(y2)
}

/// Fixed-point cosine.
pub fn cos_fx(x: i64) -> (r: i64)
    ensures
        r as int == cos_spec(x as int),
{
    let y = reduce_angle(x as i128);
    if y > HALF_PI_FX {
        sat_sub(0, cos_poly(sat_sub(PI_FX, y)))
    } else if y < -HALF_PI_FX {
        sat_sub(0, cos_poly(sat_sub(-PI_FX, y)))
    } else {
        cos_poly(y)
    }
}

fn sin_poly(y: i64) -> (r: i64)
    ensures
        r as int == sin_poly_spec(y as int),
{
    proof {
        reveal(sin_poly_spec);
    }
    let z = fx_mul(y, y);
    let p5 = sat_sub(SCALE, fx_mul(z, SIN_C156));
    let p4 = sat_sub(SCALE, fx_mul(fx_mul(z, SIN_C110), p5));
    let p3 = sat_sub(SCALE, fx_mul(fx_mul(z, SIN_C72), p4));
    let p2 = sat_sub(SCALE, fx_mul(fx_mul(z, SIN_C42), p3));
    let p1 = sat_sub(SCALE, fx_mul(fx_mul(z, SIN_C20), p2));
    let p0 = sat_sub(SCALE, fx_mul(fx_mul(z, SIN_C6), p1));
    fx_mul(y, p0)
}

fn cos_poly(y: i64) -> (r: i64)
    ensures
        r as int == cos_poly_spec(y as int),
{
    proof {
        reveal(cos_poly_spec);
    }
    let z = fx_mul(y, y);
    let p5 = sat_sub(SCALE, fx_mul(z, COS_C132));
    let p4 = sat_sub(SCALE, fx_mul(fx_mul(z, COS_C90), p5));
    let p3 = sat_sub(SCALE, fx_mul(fx_mul(z, COS_C56), p4));
    let p2 = sat_sub(SCALE, fx_mul(fx_mul(z, COS_C30), p3));
    let p1 = sat_sub(SCALE, fx_mul(fx_mul(z, COS_C12), p2));
    sat_sub(SCALE, fx_mul(fx_mul(z, COS_C2), p1))
}

fn atan_poly(a: i64) -> (r: i64)
    ensures
        r as int == atan_poly_spec(a as int),
{
    proof {
        reveal(atan_poly_spec);
    }
    let z = fx_mul(a, a);
    let q11 = sat_sub(ATAN_C23, fx_mul(z, ATAN_C25));
    let q10 = sat_sub(ATAN_C21, fx_mul(z, q11));
    let q9 = sat_sub(ATAN_C19, fx_mul(z, q10));
    let q8 = sat_sub(ATAN_C17, fx_mul(z, q9));
    let q7 = sat_sub(ATAN_C15, fx_mul(z, q8));
    let q6 = sat_sub(ATAN_C13, fx_mul(z, q7));
    let q5 = sat_sub(ATAN_C11, fx_mul(z, q6));
    let q4 = sat_sub(ATAN_C9, fx_mul(z, q5));
    let q3 = sat_sub(ATAN_C7, fx_mul(z, q4));
    let q2 = sat_sub(ATAN_C5, fx_mul(z, q3));
    let q1 = sat_sub(ATAN_C3, fx_mul(z, q2));
    let q0 = sat_sub(SCALE, fx_mul(z, q1));
    fx_mul(a, q0)
}

/// Fixed-point arctangent of a ratio.
pub fn atan_fx(v: i64) -> (r: i64)
    ensures
        r as int == atan_spec(v as int),
{
    let a: i64 = if v < 0 {
        sat_sub(0, v)
    } else {
        v
    };
    let big = a > SCALE;
    let a1 = if big {
        fx_div(SCALE, a)
    } else {
        a
    };
    let half = a1 > TAN_PI_8_FX;
    let a2 = if half {
        fx_div(sat_sub(a1, SCALE), sat_add(a1, SCALE))
    } else {
        a1
    };
    let t0 = atan_poly(a2);
    let t1 = if half {
        sat_add(QUARTER_PI_FX, t0)
    } else {
        t0
    };
    let t2 = if big {
        sat_sub(HALF_PI_FX, t1)
    } else {
        t1
    };
    if v < 0 {
        sat_sub(0, t2)
    } else {
        t2
    }
}

} // verus!
