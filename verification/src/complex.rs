//! The complex value type: two Q31.32 fixed-point components.
//!
//! Arithmetic is exact saturating fixed-point arithmetic; `amplitude` is the
//! integer square root of `re^2 + im^2`; `phase` is the arctangent of the
//! single ratio `im / re`. The phase is therefore quadrant-unaware: it is off
//! by pi whenever `re < 0`, and a zero `re` saturates the ratio so the phase
//! comes out at (nearly) `pi/2` with the sign of `im`. This mirrors the
//! deliberate single-argument arctangent convention of the model.
//!
//! Equality is approximate, within an absolute per-component tolerance of
//! 1e-8 (43 fixed-point ulps), and hence not transitive for chains of
//! near-boundary values; it is meant for test assertions on float-like
//! pipelines, not for production logic.

use vstd::prelude::*;

use crate::fixed::{
    amp_spec, fx_amp, fx_div, fx_div_spec, fx_mul, fx_mul_spec, int_abs, lemma_isqrt, sat_add,
    sat_i64, sat_sub,
};
use crate::trig::{atan_fx, atan_spec};

verus! {

/// Per-component tolerance of the approximate equality: 1e-8 in Q31.32.
pub const EQ_TOL_FX: i64 = 43;

#[derive(Clone, Copy, Debug)]
pub struct Complex {
    pub re: i64,
    pub im: i64,
}

/// Componentwise saturating sum.
pub open spec fn cadd_spec(a: Complex, b: Complex) -> Complex {
    Complex { re: sat_i64(a.re + b.re) as i64, im: sat_i64(a.im + b.im) as i64 }
}

/// Componentwise saturating difference.
pub open spec fn csub_spec(a: Complex, b: Complex) -> Complex {
    Complex { re: sat_i64(a.re - b.re) as i64, im: sat_i64(a.im - b.im) as i64 }
}

/// Complex product in the form `(ac - bd, ad + bc)`.
pub open spec fn cmul_spec(a: Complex, b: Complex) -> Complex {
    Complex {
        re: sat_i64(fx_mul_spec(a.re as int, b.re as int) - fx_mul_spec(a.im as int, b.im as int))
            as i64,
        im: sat_i64(fx_mul_spec(a.re as int, b.im as int) + fx_mul_spec(a.im as int, b.re as int))
            as i64,
    }
}

/// Euclidean norm of the two components.
pub open spec fn camp_spec(a: Complex) -> int {
    amp_spec(a.re as int, a.im as int)
}

/// Quadrant-unaware phase: arctangent of the single ratio `im / re`.
pub open spec fn cphase_spec(a: Complex) -> int {
    atan_spec(fx_div_spec(a.im as int, a.re as int))
}

/// Approximate equality: each component within `EQ_TOL_FX`.
pub open spec fn capprox_spec(a: Complex, b: Complex) -> bool {
    int_abs(a.re - b.re) <= EQ_TOL_FX && int_abs(a.im - b.im) <= EQ_TOL_FX
}

impl Complex {
    /// Build a complex value from its fixed-point components.
    pub fn new(re: i64, im: i64) -> (r: Complex)
        ensures
            r.re == re,
            r.im == im,
    {
        Complex { re, im }
    }

    /// The phase angle, via a single-argument arctangent of `im / re`.
    pub fn phase(&self) -> (r: i64)
        ensures
            r as int == cphase_spec(*self),
    {
        atan_fx(fx_div(self.im, self.re))
    }

    /// The Euclidean norm `sqrt(re^2 + im^2)`.
    pub fn amplitude(&self) -> (r: i64)
        ensures
            r as int == camp_spec(*self),
            r >= 0,
    {
        proof {
            lemma_sq_sum_nonneg(self.re as int, self.im as int);
            lemma_isqrt((self.re as int) * (self.re as int) + (self.im as int) * (self.im as int));
        }
        fx_amp(self.re, self.im)
    }

    /// Componentwise sum.
    pub fn add(first: &Complex, second: &Complex) -> (r: Complex)
        ensures
            r == cadd_spec(*first, *second),
    {
        Complex { re: sat_add(first.re, second.re), im: sat_add(first.im, second.im) }
    }

    /// Componentwise difference `from - with`.
    pub fn minus(from: &Complex, with: &Complex) -> (r: Complex)
        ensures
            r == csub_spec(*from, *with),
    {
        Complex { re: sat_sub(from.re, with.re), im: sat_sub(from.im, with.im) }
    }

    /// Complex product, in the four-multiplication form `(ac - bd, ad + bc)`.
    pub fn multiply(first: &Complex, second: &Complex) -> (r: Complex)
        ensures
            r == cmul_spec(*first, *second),
    {
        let rr = sat_sub(fx_mul(first.re, second.re), fx_mul(first.im, second.im));
        let ri = sat_add(fx_mul(first.re, second.im), fx_mul(first.im, second.re));
        Complex { re: rr, im: ri }
    }
}

impl PartialEq for Complex {
    fn eq(&self, other: &Self) -> (r: bool) {
        let dr: i128 = self.re as i128 - other.re as i128;
        let di: i128 = self.im as i128 - other.im as i128;
        -(EQ_TOL_FX as i128) <= dr && dr <= EQ_TOL_FX as i128 && -(EQ_TOL_FX as i128) <= di
            && di <= EQ_TOL_FX as i128
    }
}

impl vstd::std_specs::cmp::PartialEqSpecImpl for Complex {
    open spec fn obeys_eq_spec() -> bool {
        true
    }

    open spec fn eq_spec(&self, other: &Complex) -> bool {
        capprox_spec(*self, *other)
    }
}

proof fn lemma_sq_sum_nonneg(a: int, b: int)
    by (nonlinear_arith)
    ensures
        a * a >= 0,
        b * b >= 0,
{
}

/// Subtracting a value from itself yields zero, and adding that zero back
/// leaves any value unchanged: `add(a, subtract(a, a)) == a`.
pub proof fn lemma_add_minus_identity(a: Complex)
    ensures
        csub_spec(a, a) == (Complex { re: 0i64, im: 0i64 }),
        cadd_spec(a, csub_spec(a, a)) == a,
{
}

/// Complex multiplication is commutative.
pub proof fn lemma_multiply_commutative(a: Complex, b: Complex)
    ensures
        cmul_spec(a, b) == cmul_spec(b, a),
{
    vstd::arithmetic::mul::lemma_mul_is_commutative(a.re as int, b.re as int);
    vstd::arithmetic::mul::lemma_mul_is_commutative(a.im as int, b.im as int);
    vstd::arithmetic::mul::lemma_mul_is_commutative(a.re as int, b.im as int);
    vstd::arithmetic::mul::lemma_mul_is_commutative(a.im as int, b.re as int);
}

/// Multiplying by the unit value one (amplitude 1, phase 0) is the
/// identity, so in particular it leaves the amplitude unchanged: the exact
/// instance of rotation invariance that fixed-point arithmetic preserves
/// without error.
pub proof fn lemma_multiply_one_identity(a: Complex)
    ensures
        cmul_spec(Complex { re: crate::fixed::SCALE, im: 0i64 }, a) == a,
{
    let sc = crate::fixed::SCALE as int;
    assert(sc * (a.re as int) == (a.re as int) * sc) by {
        vstd::arithmetic::mul::lemma_mul_is_commutative(sc, a.re as int);
    }
    assert(sc * (a.im as int) == (a.im as int) * sc) by {
        vstd::arithmetic::mul::lemma_mul_is_commutative(sc, a.im as int);
    }
    lemma_fx_mul_scale(a.re as int);
    lemma_fx_mul_scale(a.im as int);
    assert(fx_mul_spec(0, a.re as int) == 0 && fx_mul_spec(0, a.im as int) == 0) by {
        vstd::arithmetic::mul::lemma_mul_by_zero_is_zero(a.re as int);
        vstd::arithmetic::mul::lemma_mul_by_zero_is_zero(a.im as int);
        assert(int_abs(0int) == 0);
        vstd::arithmetic::div_mod::lemma_div_basics(crate::fixed::SCALE as int);
    }
}

proof fn lemma_fx_mul_scale(x: int)
    requires
        i64::MIN <= x <= i64::MAX,
    ensures
        fx_mul_spec(x, crate::fixed::SCALE as int) == x,
{
    let sc = crate::fixed::SCALE as int;
    assert(int_abs(x * sc) == int_abs(x) * sc) by (nonlinear_arith)
        requires
            sc > 0,
    ;
    assert((int_abs(x) * sc) / sc == int_abs(x)) by {
        vstd::arithmetic::div_mod::lemma_div_by_multiple(int_abs(x), sc);
        vstd::arithmetic::mul::lemma_mul_is_commutative(int_abs(x), sc);
    }
    assert(int_abs(sc) == sc);
}

/// Amplitudes are never negative.
pub proof fn lemma_amplitude_nonnegative(a: Complex)
    ensures
        camp_spec(a) >= 0,
{
    lemma_sq_sum_nonneg(a.re as int, a.im as int);
    lemma_isqrt((a.re as int) * (a.re as int) + (a.im as int) * (a.im as int));
}

} // verus!
