//! The normalized input path: a sequence of complex samples whose length is
//! a power of two, translated to the origin and scaled by the diagonal of
//! its bounding box.

use vstd::prelude::*;

use crate::complex::Complex;
use crate::fft::is_pow2;
use crate::fixed::{amp_spec, fx_amp, fx_div, fx_div_spec, sat_i64, sat_sub};

verus! {

/// The sample count is not a power of two.
#[derive(Clone, Copy, Debug)]
pub struct WrongPathLengthError {
    pub wrong_length: u64,
}

impl WrongPathLengthError {
    /// Record the offending length.
    pub fn new(wrong_length: u64) -> (r: WrongPathLengthError)
        ensures
            r.wrong_length == wrong_length,
    {
        WrongPathLengthError { wrong_length }
    }
}

/// A validated, normalized sample path.
#[derive(Debug)]
pub struct Path {
    pub data: Vec<Complex>,
}

/// Left fold of the minimum real component, seeded with `i64::MAX`.
pub open spec fn fold_min_re(s: Seq<Complex>, i: int, acc: int) -> int
    decreases s.len() - i,
{
    if i < 0 || i >= s.len() {
        acc
    } else {
        fold_min_re(s, i + 1, if (s[i].re as int) < acc { s[i].re as int } else { acc })
    }
}

/// Left fold of the maximum real component, seeded with `i64::MIN`.
pub open spec fn fold_max_re(s: Seq<Complex>, i: int, acc: int) -> int
    decreases s.len() - i,
{
    if i < 0 || i >= s.len() {
        acc
    } else {
        fold_max_re(s, i + 1, if (s[i].re as int) > acc { s[i].re as int } else { acc })
    }
}

/// Left fold of the minimum imaginary component, seeded with `i64::MAX`.
pub open spec fn fold_min_im(s: Seq<Complex>, i: int, acc: int) -> int
    decreases s.len() - i,
{
    if i < 0 || i >= s.len() {
        acc
    } else {
        fold_min_im(s, i + 1, if (s[i].im as int) < acc { s[i].im as int } else { acc })
    }
}

/// Left fold of the maximum imaginary component, seeded with `i64::MIN`.
pub open spec fn fold_max_im(s: Seq<Complex>, i: int, acc: int) -> int
    decreases s.len() - i,
{
    if i < 0 || i >= s.len() {
        acc
    } else {
        fold_max_im(s, i + 1, if (s[i].im as int) > acc { s[i].im as int } else { acc })
    }
}

/// The scaling divisor: the Euclidean diagonal of the bounding box.
pub open spec fn scale_spec(s: Seq<Complex>) -> int {
    let dx = sat_i64(fold_max_re(s, 0, i64::MIN as int) - fold_min_re(s, 0, i64::MAX as int));
    let dy = sat_i64(fold_max_im(s, 0, i64::MIN as int) - fold_min_im(s, 0, i64::MAX as int));
    amp_spec(dx, dy)
}

/// Every sample translated by the bounding-box minimum and divided by the
/// diagonal.
pub open spec fn normalize_spec(s: Seq<Complex>) -> Seq<Complex> {
    let min_x = fold_min_re(s, 0, i64::MAX as int);
    let min_y = fold_min_im(s, 0, i64::MAX as int);
    let scale = scale_spec(s);
    Seq::new(
        s.len(),
        |i: int|
            Complex {
                re: fx_div_spec(sat_i64(s[i].re - min_x), scale) as i64,
                im: fx_div_spec(sat_i64(s[i].im - min_y), scale) as i64,
            },
    )
}

impl Path {
    /// Validate that the sample count is a power of two, then normalize the
    /// samples into the unit-scale frame anchored at the origin.
    pub fn new(data: Vec<Complex>) -> (r: Result<Path, WrongPathLengthError>)
        ensures
            is_pow2(data@.len() as int) == (r is Ok),
            r is Ok ==> r->Ok_0.data@ == normalize_spec(data@),
            r is Err ==> r->Err_0.wrong_length == data@.len(),
    {
        let data_length: u64 = data.len() as u64;
        match Path::assert_power_of_2_length(data_length) {
            Err(e) => Err(e),
            Ok(()) => {
                let mut path = Path { data };
                path.normalize();
                Ok(path)
            },
        }
    }

    /// Succeeds exactly when `length` is a positive power of two; the error
    /// carries the offending length.
    pub fn assert_power_of_2_length(length: u64) -> (r: Result<(), WrongPathLengthError>)
        ensures
            is_pow2(length as int) == (r is Ok),
            r is Err ==> r->Err_0.wrong_length == length,
    {
        if length == 0 {
            return Err(WrongPathLengthError::new(length));
        }
        let mut m: u64 = length;
        while m > 1
            invariant
                1 <= m,
                is_pow2(length as int) == is_pow2(m as int),
            decreases m,
        {
            if m % 2 != 0 {
                return Err(WrongPathLengthError::new(length));
            }
            m = m / 2;
        }
        Ok(())
    }

    /// Translate every sample by the bounding-box minimum and divide by the
    /// box's Euclidean diagonal, in place.
    pub fn normalize(&mut self)
        ensures
            final(self).data@ == normalize_spec(old(self).data@),
    {
        let ghost s0 = self.data@;
        let n = self.data.len();
        let mut min_x: i64 = i64::MAX;
        let mut max_x: i64 = i64::MIN;
        let mut min_y: i64 = i64::MAX;
        let mut max_y: i64 = i64::MIN;
        let mut i: usize = 0;
        while i < n
            invariant
                self.data@ == s0,
                s0.len() == n,
                i <= n,
                fold_min_re(s0, i as int, min_x as int) == fold_min_re(s0, 0, i64::MAX as int),
                fold_max_re(s0, i as int, max_x as int) == fold_max_re(s0, 0, i64::MIN as int),
                fold_min_im(s0, i as int, min_y as int) == fold_min_im(s0, 0, i64::MAX as int),
                fold_max_im(s0, i as int, max_y as int) == fold_max_im(s0, 0, i64::MIN as int),
            decreases n - i,
        {
            let val = self.data[i];
            if val.re < min_x {
                min_x = val.re;
            }
            if val.re > max_x {
                max_x = val.re;
            }
            if val.im < min_y {
                min_y = val.im;
            }
            if val.im > max_y {
                max_y = val.im;
            }
            i = i + 1;
        }
        let scaling_factor = fx_amp(sat_sub(max_x, min_x), sat_sub(max_y, min_y));
        proof {
            assert(scaling_factor as int == scale_spec(s0));
        }
        let mut j: usize = 0;
        while j < n
            invariant
                self.data@.len() == n,
                s0.len() == n,
                j <= n,
                scaling_factor as int == scale_spec(s0),
                min_x as int == fold_min_re(s0, 0, i64::MAX as int),
                min_y as int == fold_min_im(s0, 0, i64::MAX as int),
                forall|t: int| 0 <= t < j ==> #[trigger] self.data@[t] == normalize_spec(s0)[t],
                forall|t: int| j <= t < n ==> #[trigger] self.data@[t] == s0[t],
            decreases n - j,
        {
            let val = self.data[j];
            let nre = fx_div(sat_sub(val.re, min_x), scaling_factor);
            let nim = fx_div(sat_sub(val.im, min_y), scaling_factor);
            self.data.set(j, Complex { re: nre, im: nim });
            j = j + 1;
        }
        proof {
            assert(self.data@ =~= normalize_spec(s0));
        }
    }
}

} // verus!
