//! The epicycle model: frequency-domain coefficients paired with their
//! original frequency indices, ordered by descending amplitude, and a
//! coordinate reconstruction that sums the leading rotating vectors.

use vstd::prelude::*;

use crate::complex::{camp_spec, cphase_spec, Complex};
use crate::fft;
use crate::fixed::{fx_mul, fx_mul_spec, sat_add, sat_i64};
use crate::path::Path;
use crate::trig::{cos_fx, cos_spec, reduce_angle, reduce_spec, sin_fx, sin_spec};

verus! {

/// Early-exit threshold on a term's radius: 1e-9 in Q31.32. Once a sorted
/// term falls below it, all later terms are at most as large, so the
/// reconstruction may stop accumulating.
pub const EPS_FX: i64 = 4;

/// A sequence of frequency-domain coefficients, each carrying the index of
/// the harmonic it belongs to, sorted by descending amplitude.
pub struct Epicycle {
    pub data: Vec<(Complex, u64)>,
}

/// A reconstructed 2-D point, in Q31.32 fixed point.
#[derive(Clone, Copy, Debug)]
pub struct Coordinate {
    pub x: i64,
    pub y: i64,
}

/// A coordinate query asked for more leading terms than the model holds.
#[derive(Clone, Copy, Debug)]
pub struct InvalidPrecisionError {
    pub requested_precision: usize,
    pub max_precision: usize,
}

impl InvalidPrecisionError {
    /// Record the requested and the largest usable precision.
    pub fn new(requested_precision: usize, max_precision: usize) -> (r: InvalidPrecisionError)
        ensures
            r.requested_precision == requested_precision,
            r.max_precision == max_precision,
    {
        InvalidPrecisionError { requested_precision, max_precision }
    }
}

/// Each coefficient paired with its 0-based position.
pub open spec fn pairs_spec(s: Seq<Complex>) -> Seq<(Complex, u64)> {
    Seq::new(s.len(), |i: int| (s[i], i as u64))
}

/// Sorted by descending amplitude of the coefficient.
pub open spec fn sorted_desc(s: Seq<(Complex, u64)>) -> bool {
    forall|i: int, j: int|
        #![trigger camp_spec(s[i].0), camp_spec(s[j].0)]
        0 <= i <= j < s.len() ==> camp_spec(s[i].0) >= camp_spec(s[j].0)
}

/// One reconstruction term folded into the running coordinates:
/// `radius * cos(freq * time + phase)` and the sine counterpart.
pub open spec fn coord_fold_spec(
    s: Seq<(Complex, u64)>,
    time: int,
    i: int,
    nth: int,
    x: int,
    y: int,
) -> (int, int)
    decreases nth - i,
{
    if i < 0 || i >= nth || i >= s.len() {
        (x, y)
    } else if camp_spec(s[i].0) < EPS_FX {
        (x, y)
    } else {
        let c = s[i].0;
        let ang = reduce_spec(reduce_spec((s[i].1 as int) * time) + cphase_spec(c));
        coord_fold_spec(
            s,
            time,
            i + 1,
            nth,
            sat_i64(x + fx_mul_spec(camp_spec(c), cos_spec(ang))),
            sat_i64(y + fx_mul_spec(camp_spec(c), sin_spec(ang))),
        )
    }
}

/// The reconstructed coordinate for the first `nth` sorted terms.
pub open spec fn coordinate_spec(s: Seq<(Complex, u64)>, time: int, nth: int) -> (int, int) {
    coord_fold_spec(s, time, 0, nth, 0, 0)
}

proof fn lemma_swap_preserves_multiset<T>(s: Seq<T>, i: int, j: int)
    requires
        0 <= i < s.len(),
        0 <= j < s.len(),
    ensures
        s.update(i, s[j]).update(j, s[i]).to_multiset() == s.to_multiset(),
{
    broadcast use vstd::seq_lib::group_to_multiset_ensures;

    if i == j {
        assert(s.update(i, s[j]).update(j, s[i]) =~= s);
    } else {
        let s1 = s.update(i, s[j]);
        assert(s1[j] == s[j]);
        assert(s1.to_multiset() == s.to_multiset().insert(s[j]).remove(s[i]));
        assert(s1.update(j, s[i]).to_multiset() == s1.to_multiset().insert(s[i]).remove(s1[j]));
        assert(s.contains(s[i]));
        assert(s.to_multiset().count(s[i]) > 0);
        assert(s.to_multiset().insert(s[j]).remove(s[i]).insert(s[i]).remove(s[j])
            =~= s.to_multiset());
    }
}

impl Epicycle {
    /// Run the forward transform over a normalized path and build the model.
    pub fn from_path(mut input_path: Path) -> (r: Epicycle)
        requires
            fft::is_pow2(input_path.data@.len() as int),
        ensures
            r.data@.len() == input_path.data@.len(),
            sorted_desc(r.data@),
            r.data@.to_multiset() == pairs_spec(fft::fft_spec(input_path.data@)).to_multiset(),
    {
        fft::fft(&mut input_path.data);
        Epicycle::new(input_path.data)
    }

    /// Pair each coefficient with its 0-based frequency index, then sort by
    /// descending amplitude. The sort is a selection sort and therefore not
    /// stable: coefficients of exactly equal amplitude may appear in either
    /// order.
    pub fn new(input: Vec<Complex>) -> (r: Epicycle)
        ensures
            r.data@.len() == input@.len(),
            sorted_desc(r.data@),
            r.data@.to_multiset() == pairs_spec(input@).to_multiset(),
    {
        let mut v: Vec<(Complex, u64)> = Vec::new();
        let mut i: usize = 0;
        while i < input.len()
            invariant
                i <= input@.len(),
                v@.len() == i,
                forall|t: int| 0 <= t < i ==> v@[t] == (input@[t], t as u64),
            decreases input@.len() - i,
        {
            v.push((input[i], i as u64));
            i = i + 1;
        }
        proof {
            assert(v@ =~= pairs_spec(input@));
        }
        let ghost pairs = v@;
        let n = v.len();
        let mut sorted: usize = 0;
        while sorted < n
            invariant
                v@.len() == n,
                pairs.len() == n,
                sorted <= n,
                v@.to_multiset() == pairs.to_multiset(),
                forall|a: int, b: int|
                    #![trigger camp_spec(v@[a].0), camp_spec(v@[b].0)]
                    0 <= a <= b < sorted ==> camp_spec(v@[a].0) >= camp_spec(v@[b].0),
                forall|a: int, b: int|
                    #![trigger camp_spec(v@[a].0), camp_spec(v@[b].0)]
                    0 <= a < sorted && sorted <= b < n ==> camp_spec(v@[a].0) >= camp_spec(
                        v@[b].0,
                    ),
            decreases n - sorted,
        {
            let mut best: usize = sorted;
            let mut best_amp: i64 = v[best].0.amplitude();
            let mut scan: usize = sorted + 1;
            while scan < n
                invariant
                    v@.len() == n,
                    sorted <= best < n,
                    sorted < n,
                    sorted + 1 <= scan <= n,
                    best_amp as int == camp_spec(v@[best as int].0),
                    forall|t: int|
                        sorted <= t < scan ==> camp_spec(#[trigger] v@[t].0) <= best_amp as int,
                decreases n - scan,
            {
                let a = v[scan].0.amplitude();
                if a > best_amp {
                    best = scan;
                    best_amp = a;
                }
                scan = scan + 1;
            }
            let ghost before = v@;
            crate::swap_in_vec(&mut v, sorted, best);
            proof {
                lemma_swap_preserves_multiset(before, sorted as int, best as int);
            }
            sorted = sorted + 1;
        }
        Epicycle { data: v }
    }

    /// The reconstructed coordinate at phase parameter `time` using the
    /// first `precision` sorted terms. Fails, reporting the requested and
    /// the largest usable precision, exactly when `precision` exceeds the
    /// number of terms; it never clamps.
    #[verifier::rlimit(100)]
    pub fn get_coordinate_for(&self, time: i64, precision: u32) -> (r: Result<
        Coordinate,
        InvalidPrecisionError,
    >)
        ensures
            (precision as int > self.data@.len()) == (r is Err),
            r is Err ==> r->Err_0.requested_precision == precision as int
                && r->Err_0.max_precision == self.data@.len(),
            r is Ok ==> (r->Ok_0.x as int, r->Ok_0.y as int) == coordinate_spec(
                self.data@,
                time as int,
                precision as int,
            ),
    {
        let nth = precision as usize;
        if nth > self.data.len() {
            return Err(InvalidPrecisionError::new(nth, self.data.len()));
        }
        let mut x_coord: i64 = 0;
        let mut y_coord: i64 = 0;
        let mut i: usize = 0;
        while i < nth
            invariant_except_break
                i <= nth,
                nth <= self.data@.len(),
                coord_fold_spec(
                    self.data@,
                    time as int,
                    i as int,
                    nth as int,
                    x_coord as int,
                    y_coord as int,
                ) == coordinate_spec(self.data@, time as int, nth as int),
            ensures
                (x_coord as int, y_coord as int) == coordinate_spec(
                    self.data@,
                    time as int,
                    nth as int,
                ),
            decreases nth - i,
        {
            let radius = self.data[i].0.amplitude();
            if radius < EPS_FX {
                break ;
            }
            let phase = self.data[i].0.phase();
            let frequency = self.data[i].1;
            proof {
                assert(-0x8000_0000_0000_0000_0000_0000_0000_0000 <= (frequency as int) * (
                time as int) < 0x8000_0000_0000_0000_0000_0000_0000_0000) by (nonlinear_arith)
                    requires
                        0 <= frequency <= 0xffff_ffff_ffff_ffff,
                        -0x8000_0000_0000_0000 <= time <= 0x7fff_ffff_ffff_ffff,
                ;
            }
            let a1 = reduce_angle((frequency as i128) * (time as i128));
            let ang = reduce_angle((a1 as i128) + (phase as i128));
            x_coord = sat_add(x_coord, fx_mul(radius, cos_fx(ang)));
            y_coord = sat_add(y_coord, fx_mul(radius, sin_fx(ang)));
            i = i + 1;
        }
        Ok(Coordinate { x: x_coord, y: y_coord })
    }
}

/// Reconstruction is a pure function of the model, the time and the
/// precision: two results for the same arguments are the same point.
pub proof fn lemma_coordinate_deterministic(
    s: Seq<(Complex, u64)>,
    time: int,
    nth: int,
    c1: (int, int),
    c2: (int, int),
)
    requires
        c1 == coordinate_spec(s, time, nth),
        c2 == coordinate_spec(s, time, nth),
    ensures
        c1 == c2,
{
}

} // verus!
