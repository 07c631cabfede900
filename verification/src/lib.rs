//! Fourier-epicycle toolkit: a fixed-point complex value type, an in-place
//! radix-2 fast Fourier transform with its reference direct transform, and an
//! epicycle model that reconstructs 2-D coordinates from sorted frequency
//! components.
//!
//! All real quantities are carried as Q31.32 fixed-point numbers: an `i64`
//! holding `value * 2^32`, with saturating arithmetic. This keeps the whole
//! numeric pipeline inside verified integer code while reproducing the usual
//! floating-point results to well under the 1e-6 tolerance the transform
//! tests ask for.

pub mod fixed;
pub mod trig;
pub mod complex;
pub mod fft;
pub mod epicycle;
pub mod path;

use vstd::prelude::*;

verus! {

/// Relies on the standard library's slice `swap`: it exchanges the elements
/// at the two indices and leaves the rest of the vector unchanged (it panics
/// only when an index is out of bounds, which the precondition rules out).
#[verifier::external_body]
pub(crate) fn swap_in_vec<T>(data: &mut Vec<T>, a: usize, b: usize)
    requires
        a < old(data)@.len(),
        b < old(data)@.len(),
    ensures
        final(data)@ == old(data)@.update(a as int, old(data)@[b as int]).update(
            b as int,
            old(data)@[a as int],
        ),
{
    data.swap(a, b);
}

} // verus!
