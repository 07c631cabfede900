//! The transform engine: bit-reversal permutation, iterative radix-2
//! decimation-in-time fast transform, and the direct reference transform.

use vstd::prelude::*;

use crate::complex::{cadd_spec, cmul_spec, csub_spec, Complex};
use crate::fixed::{sat_i64, sat_sub, trunc_div, SCALE};
use crate::trig::{cos_fx, cos_spec, sin_fx, sin_spec, PI_FX, TWO_PI_FX};

verus! {

/// 2 to the power `k`.
pub open spec fn pow2(k: nat) -> nat
    decreases k,
{
    if k == 0 {
        1
    } else {
        2 * pow2((k - 1) as nat)
    }
}

/// `n` is a positive power of two.
pub open spec fn is_pow2(n: int) -> bool
    decreases n,
{
    if n <= 0 {
        false
    } else if n == 1 {
        true
    } else {
        n % 2 == 0 && is_pow2(n / 2)
    }
}

pub proof fn lemma_pow2_pos(k: nat)
    ensures
        pow2(k) >= 1,
    decreases k,
{
    if k > 0 {
        lemma_pow2_pos((k - 1) as nat);
    }
}

pub proof fn lemma_pow2_strictly_increases(j: nat, k: nat)
    requires
        j < k,
    ensures
        pow2(j) < pow2(k),
    decreases k,
{
    lemma_pow2_pos(j);
    if j < k - 1 {
        lemma_pow2_strictly_increases(j, (k - 1) as nat);
    } else {
        lemma_pow2_pos((k - 1) as nat);
    }
}

/// The exponent is always below the power: `k < 2^k`.
pub proof fn lemma_pow2_gt_exp(k: nat)
    ensures
        k < pow2(k),
    decreases k,
{
    if k > 0 {
        lemma_pow2_gt_exp((k - 1) as nat);
    }
}

proof fn lemma_mul01(t: int, p: int)
    by (nonlinear_arith)
    ensures
        t == 0 ==> t * p == 0 && p * t == 0,
        t == 1 ==> t * p == p && p * t == p,
{
}

pub proof fn lemma_pow2_is_pow2(k: nat)
    ensures
        is_pow2(pow2(k) as int),
    decreases k,
{
    if k == 0 {
    } else {
        lemma_pow2_is_pow2((k - 1) as nat);
        lemma_pow2_pos((k - 1) as nat);
        let n = pow2(k) as int;
        assert(n == 2 * pow2((k - 1) as nat));
        assert(n % 2 == 0 && n / 2 == pow2((k - 1) as nat) as int) by {
            vstd::arithmetic::div_mod::lemma_fundamental_div_mod_converse_mod(
                n,
                2,
                pow2((k - 1) as nat) as int,
                0,
            );
            vstd::arithmetic::div_mod::lemma_fundamental_div_mod_converse_div(
                n,
                2,
                pow2((k - 1) as nat) as int,
                0,
            );
        }
    }
}

pub proof fn lemma_is_pow2_exists(n: int)
    requires
        is_pow2(n),
    ensures
        exists|k: nat| pow2(k) == n,
    decreases n,
{
    if n == 1 {
        assert(pow2(0) == n);
    } else {
        lemma_is_pow2_exists(n / 2);
        let k = choose|k: nat| pow2(k) == n / 2;
        assert(pow2(k + 1) == 2 * pow2(k));
        vstd::arithmetic::div_mod::lemma_fundamental_div_mod(n, 2);
        assert(pow2(k + 1) == n);
    }
}

/// The exponent of a power of two.
pub open spec fn log2(n: int) -> nat {
    choose|k: nat| pow2(k) == n
}

/// For a power of two `n`, `pow2(log2(n)) == n`, and the exponent is unique.
pub proof fn lemma_log2(n: int)
    requires
        is_pow2(n),
    ensures
        pow2(log2(n)) == n,
        forall|k: nat| pow2(k) == n ==> k == log2(n),
{
    lemma_is_pow2_exists(n);
    assert forall|k: nat| pow2(k) == n implies k == log2(n) by {
        if k < log2(n) {
            lemma_pow2_strictly_increases(k, log2(n));
        } else if k > log2(n) {
            lemma_pow2_strictly_increases(log2(n), k);
        }
    }
}

/// The `k`-bit reversal of an index: the lowest bit moves to the top of the
/// `k`-bit field, and so on.
pub open spec fn brev(k: nat, i: int) -> int
    decreases k,
{
    if k == 0 {
        0
    } else {
        (i % 2) * pow2((k - 1) as nat) + brev((k - 1) as nat, i / 2)
    }
}

pub proof fn lemma_brev_range(k: nat, i: int)
    requires
        0 <= i,
    ensures
        0 <= brev(k, i) < pow2(k),
    decreases k,
{
    if k == 0 {
    } else {
        lemma_brev_range((k - 1) as nat, i / 2);
        lemma_pow2_pos((k - 1) as nat);
        lemma_mul01(i % 2, pow2((k - 1) as nat) as int);
    }
}

/// Splitting off the top bit of the argument: reversing `m + t * 2^(k-1)`
/// in `k` bits yields `t` in the lowest bit and the `(k-1)`-bit reversal of
/// `m` shifted up by one.
proof fn lemma_brev_high(k: nat, m: int, t: int)
    requires
        k >= 1,
        0 <= m < pow2((k - 1) as nat),
        0 <= t <= 1,
    ensures
        brev(k, m + t * pow2((k - 1) as nat)) == t + 2 * brev((k - 1) as nat, m),
    decreases k,
{
    let p = pow2((k - 1) as nat) as int;
    let i = m + t * p;
    if k == 1 {
        assert(m == 0);
        lemma_mul01(t, p);
        assert(i == t);
        lemma_mul01(i % 2, pow2(0) as int);
    } else {
        let q = pow2((k - 2) as nat) as int;
        lemma_pow2_pos((k - 2) as nat);
        assert(p == 2 * q);
        let h = m / 2;
        let r = m % 2;
        vstd::arithmetic::div_mod::lemma_fundamental_div_mod(m, 2);
        assert(m == 2 * h + r && 0 <= r < 2);
        lemma_mul01(t, p);
        lemma_mul01(t, q);
        assert(i == 2 * (h + t * q) + r);
        vstd::arithmetic::div_mod::lemma_fundamental_div_mod_converse_mod(i, 2, h + t * q, r);
        vstd::arithmetic::div_mod::lemma_fundamental_div_mod_converse_div(i, 2, h + t * q, r);
        assert(i % 2 == r && i / 2 == h + t * q);
        assert(h < q);
        lemma_brev_high((k - 1) as nat, h, t);
        assert(brev((k - 1) as nat, h + t * q) == t + 2 * brev((k - 2) as nat, h));
        assert(brev(k, i) == r * p + t + 2 * brev((k - 2) as nat, h));
        assert(brev((k - 1) as nat, m) == r * q + brev((k - 2) as nat, h));
        lemma_mul01(r, p);
        lemma_mul01(r, q);
    }
}

/// Bit reversal is an involution on `[0, 2^k)`.
pub proof fn lemma_brev_involutive(k: nat, i: int)
    requires
        0 <= i < pow2(k),
    ensures
        brev(k, brev(k, i)) == i,
    decreases k,
{
    if k == 0 {
        assert(i == 0);
    } else {
        let p = pow2((k - 1) as nat) as int;
        let t = i % 2;
        let m = brev((k - 1) as nat, i / 2);
        lemma_brev_range((k - 1) as nat, i / 2);
        lemma_mul01(t, p);
        assert(brev(k, i) == m + t * p);
        lemma_brev_high(k, m, t);
        assert(i / 2 < p);
        lemma_brev_involutive((k - 1) as nat, i / 2);
        assert(brev(k, brev(k, i)) == t + 2 * (i / 2));
        vstd::arithmetic::div_mod::lemma_fundamental_div_mod(i, 2);
    }
}

/// The bit-reversal permutation of a sequence whose length is a power of two.
pub open spec fn bitrev_seq<T>(s: Seq<T>) -> Seq<T>
    recommends
        is_pow2(s.len() as int),
{
    Seq::new(s.len(), |i: int| s[brev(log2(s.len() as int), i)])
}

/// Applying the bit-reversal permutation twice gives back the original
/// sequence, for every power-of-two length.
pub proof fn lemma_bitrev_seq_involutive<T>(s: Seq<T>)
    requires
        is_pow2(s.len() as int),
    ensures
        bitrev_seq(bitrev_seq(s)) == s,
{
    let k = log2(s.len() as int);
    lemma_log2(s.len() as int);
    assert forall|i: int| 0 <= i < s.len() implies bitrev_seq(bitrev_seq(s))[i] == s[i] by {
        lemma_brev_range(k, i);
        lemma_brev_involutive(k, i);
        lemma_brev_range(k, brev(k, i));
    }
    assert(bitrev_seq(bitrev_seq(s)) =~= s);
}

/// The `k`-bit reversal of `i`, computed bit by bit.
fn rev_bits(i: usize, k: usize) -> (r: usize)
    requires
        pow2(k as nat) <= usize::MAX,
        i < pow2(k as nat),
    ensures
        r as int == brev(k as nat, i as int),
        r < pow2(k as nat),
{
    let mut r: usize = 0;
    let mut v: usize = i;
    let mut j: usize = 0;
    proof {
        vstd::arithmetic::div_mod::lemma_div_basics(i as int);
        vstd::arithmetic::div_mod::lemma_fundamental_div_mod(i as int, 1);
    }
    while j < k
        invariant
            j <= k,
            pow2(k as nat) <= usize::MAX,
            i < pow2(k as nat),
            v as int == i as int / pow2(j as nat) as int,
            r as int == brev(j as nat, i as int % pow2(j as nat) as int),
            r < pow2(j as nat),
        decreases k - j,
    {
        proof {
            lemma_pow2_pos(j as nat);
            lemma_pow2_strictly_increases(j as nat, (j + 1) as nat);
            if j + 1 < k {
                lemma_pow2_strictly_increases((j + 1) as nat, k as nat);
            }
            let pj = pow2(j as nat) as int;
            let ii = i as int;
            vstd::arithmetic::div_mod::lemma_breakdown(ii, pj, 2);
            assert(pj * 2 == pow2((j + 1) as nat));
            assert(ii % (pj * 2) == pj * ((ii / pj) % 2) + ii % pj);
            let mm = ii % pj;
            let tt = (ii / pj) % 2;
            assert(0 <= mm < pj) by {
                vstd::arithmetic::div_mod::lemma_mod_division_less_than_divisor(ii, pj);
            }
            lemma_mul01(tt, pj);
            lemma_brev_high((j + 1) as nat, mm, tt);
            assert(mm + tt * pj == ii % (pow2((j + 1) as nat) as int));
            assert(brev((j + 1) as nat, ii % (pow2((j + 1) as nat) as int)) == tt + 2 * brev(
                j as nat,
                mm,
            ));
            assert(v as int % 2 == tt);
            assert(v as int / 2 == ii / pow2((j + 1) as nat) as int) by {
                vstd::arithmetic::div_mod::lemma_div_denominator(ii, pj, 2);
            }
        }
        let bit = v % 2;
        r = r * 2 + bit;
        v = v / 2;
        j = j + 1;
    }
    proof {
        vstd::arithmetic::div_mod::lemma_small_mod(i as nat, pow2(k as nat));
    }
    r
}

/// Reorder a sequence in place so that the element at index `i` moves to the
/// index whose bits (within the power-of-two length) are those of `i`
/// reversed. Each index is swapped with its reversal exactly once, so the
/// result is exactly the standard bit-reversal permutation.
pub fn butterfly<T>(data: &mut Vec<T>)
    requires
        is_pow2(old(data)@.len() as int),
    ensures
        final(data)@ == bitrev_seq(old(data)@),
{
    let ghost orig = data@;
    let n = data.len();
    let ghost gk = log2(n as int);
    proof {
        lemma_log2(n as int);
    }
    let mut k: usize = 0;
    let mut p: usize = 1;
    while p < n
        invariant
            pow2(k as nat) == p,
            1 <= p <= n,
            pow2(gk) == n,
        decreases n - p,
    {
        proof {
            lemma_pow2_gt_exp(gk);
            if k as nat >= gk {
                if k as nat > gk {
                    lemma_pow2_strictly_increases(gk, k as nat);
                }
                assert(false);
            }
            assert(k as nat + 1 <= gk);
            if ((k + 1) as nat) < gk {
                lemma_pow2_strictly_increases((k + 1) as nat, gk);
            }
            assert(pow2((k + 1) as nat) == 2 * p);
            assert(2 * p <= n);
        }
        p = p * 2;
        k = k + 1;
    }
    proof {
        assert(pow2(k as nat) == n);
        lemma_log2(n as int);
        assert(k as nat == gk);
    }
    let mut position: usize = 0;
    proof {
        assert forall|i: int| 0 <= i < n implies 0 <= #[trigger] brev(gk, i) < n by {
            lemma_brev_range(gk, i);
        }
    }
    while position < n
        invariant
            data@.len() == n,
            orig.len() == n,
            position <= n,
            pow2(k as nat) == n,
            k as nat == gk,
            pow2(gk) == n,
            is_pow2(n as int),
            forall|i: int| 0 <= i < n ==> 0 <= #[trigger] brev(gk, i) < n,
            forall|i: int|
                0 <= i < n ==> data@[i] == (if i < position || brev(gk, i) < position {
                    orig[brev(gk, i)]
                } else {
                    orig[i]
                }),
        decreases n - position,
    {
        let target = rev_bits(position, k);
        proof {
            lemma_brev_range(gk, position as int);
            lemma_brev_involutive(gk, position as int);
        }
        if target > position {
            crate::swap_in_vec(data, position, target);
        }
        proof {
            assert forall|i: int|
                0 <= i < n implies data@[i] == (if i < position + 1 || brev(gk, i) < position + 1 {
                orig[brev(gk, i)]
            } else {
                orig[i]
            }) by {
                lemma_brev_range(gk, i);
                lemma_brev_involutive(gk, i);
            }
        }
        position = position + 1;
    }
    proof {
        assert forall|i: int| 0 <= i < n implies data@[i] == bitrev_seq(orig)[i] by {
            lemma_brev_range(gk, i);
        }
        assert(data@ =~= bitrev_seq(orig));
    }
}

/// `2^(a + b) == 2^a * 2^b`.
pub proof fn lemma_pow2_adds(a: nat, b: nat)
    ensures
        pow2(a + b) == pow2(a) * pow2(b),
    decreases a,
{
    if a == 0 {
        lemma_mul01(1, pow2(b) as int);
    } else {
        lemma_pow2_adds((a - 1) as nat, b);
        let pa1 = pow2((a - 1) as nat) as int;
        let pb = pow2(b) as int;
        assert((a - 1) as nat + b == (a + b - 1) as nat);
        assert(pow2((a + b - 1) as nat) == pa1 * pb);
        assert(pow2(a + b) == 2 * pow2((a + b - 1) as nat));
        vstd::arithmetic::mul::lemma_mul_is_associative(2, pa1, pb);
        assert(pow2(a + b) == (2 * pa1) * pb);
        assert(pow2(a) == 2 * pa1);
    }
}

pub proof fn lemma_pow2_increases(j: nat, k: nat)
    requires
        j <= k,
    ensures
        pow2(j) <= pow2(k),
{
    if j < k {
        lemma_pow2_strictly_increases(j, k);
    }
}

proof fn lemma_pow2_values()
    ensures
        pow2(31) == 0x8000_0000,
        pow2(32) == 0x1_0000_0000,
        pow2(63) == 0x8000_0000_0000_0000,
        pow2(64) == 0x1_0000_0000_0000_0000,
{
    lemma_pow2_small_values();
    assert(pow2(16) == 0x1_0000);
    assert(pow2(17) == 0x2_0000);
    assert(pow2(18) == 0x4_0000);
    assert(pow2(19) == 0x8_0000);
    assert(pow2(20) == 0x10_0000);
    assert(pow2(21) == 0x20_0000);
    assert(pow2(22) == 0x40_0000);
    assert(pow2(23) == 0x80_0000);
    assert(pow2(24) == 0x100_0000);
    assert(pow2(25) == 0x200_0000);
    assert(pow2(26) == 0x400_0000);
    assert(pow2(27) == 0x800_0000);
    assert(pow2(28) == 0x1000_0000);
    assert(pow2(29) == 0x2000_0000);
    assert(pow2(30) == 0x4000_0000);
    assert(pow2(31) == 0x8000_0000);
    assert(pow2(32) == 0x1_0000_0000);
    assert(pow2(33) == 0x2_0000_0000);
    assert(pow2(34) == 0x4_0000_0000);
    assert(pow2(35) == 0x8_0000_0000);
    assert(pow2(36) == 0x10_0000_0000);
    assert(pow2(37) == 0x20_0000_0000);
    assert(pow2(38) == 0x40_0000_0000);
    assert(pow2(39) == 0x80_0000_0000);
    assert(pow2(40) == 0x100_0000_0000);
    assert(pow2(41) == 0x200_0000_0000);
    assert(pow2(42) == 0x400_0000_0000);
    assert(pow2(43) == 0x800_0000_0000);
    assert(pow2(44) == 0x1000_0000_0000);
    assert(pow2(45) == 0x2000_0000_0000);
    assert(pow2(46) == 0x4000_0000_0000);
    assert(pow2(47) == 0x8000_0000_0000);
    assert(pow2(48) == 0x1_0000_0000_0000);
    assert(pow2(49) == 0x2_0000_0000_0000);
    assert(pow2(50) == 0x4_0000_0000_0000);
    assert(pow2(51) == 0x8_0000_0000_0000);
    assert(pow2(52) == 0x10_0000_0000_0000);
    assert(pow2(53) == 0x20_0000_0000_0000);
    assert(pow2(54) == 0x40_0000_0000_0000);
    assert(pow2(55) == 0x80_0000_0000_0000);
    assert(pow2(56) == 0x100_0000_0000_0000);
    assert(pow2(57) == 0x200_0000_0000_0000);
    assert(pow2(58) == 0x400_0000_0000_0000);
    assert(pow2(59) == 0x800_0000_0000_0000);
    assert(pow2(60) == 0x1000_0000_0000_0000);
    assert(pow2(61) == 0x2000_0000_0000_0000);
    assert(pow2(62) == 0x4000_0000_0000_0000);
    assert(pow2(63) == 0x8000_0000_0000_0000);
    assert(pow2(64) == 0x1_0000_0000_0000_0000);
}

proof fn lemma_pow2_small_values()
    ensures
        pow2(8) == 256,
        pow2(15) == 0x8000,
{
    assert(pow2(0) == 1);
    assert(pow2(1) == 2);
    assert(pow2(2) == 4);
    assert(pow2(3) == 8);
    assert(pow2(4) == 16);
    assert(pow2(5) == 32);
    assert(pow2(6) == 64);
    assert(pow2(7) == 128);
    assert(pow2(8) == 256);
    assert(pow2(9) == 512);
    assert(pow2(10) == 1024);
    assert(pow2(11) == 2048);
    assert(pow2(12) == 4096);
    assert(pow2(13) == 8192);
    assert(pow2(14) == 16384);
    assert(pow2(15) == 0x8000);
}

/// A power of two that fits in `usize` leaves room for half of itself more.
proof fn lemma_pow2_fits_usize(n: int)
    requires
        is_pow2(n),
        n <= usize::MAX,
    ensures
        2 * n <= usize::MAX as int + 1,
{
    lemma_log2(n);
    let k = log2(n);
    lemma_pow2_values();
    if usize::MAX == 0xffff_ffff_ffff_ffff {
        if k >= 64 {
            lemma_pow2_increases(64, k);
        }
        assert(k <= 63);
        lemma_pow2_increases(k, 63);
    } else {
        assert(usize::MAX == 0xffff_ffff);
        if k >= 32 {
            lemma_pow2_increases(32, k);
        }
        assert(k <= 31);
        lemma_pow2_increases(k, 31);
    }
}

/// The per-stage twiddle multiplier: `(-2 sin(d/2)^2, sin(d))` for
/// `d = -pi / step`, the angle-doubling form that derives each successive
/// twiddle factor from the previous one.
pub open spec fn stage_fm_spec(step: int) -> Complex
    recommends
        step >= 1,
{
    let delta = -trunc_div(PI_FX as int, step);
    let ts = sin_spec(trunc_div(delta, 2));
    Complex {
        re: sat_i64(trunc_div(-2 * ts * ts, SCALE as int)) as i64,
        im: sin_spec(delta) as i64,
    }
}

/// The twiddle factor for butterfly group `g`: factor 0 is one, and each
/// following factor is `fm * f + f`.
pub open spec fn stage_factor_spec(fm: Complex, g: int) -> Complex
    decreases g,
{
    if g <= 0 {
        Complex { re: SCALE, im: 0i64 }
    } else {
        let f = stage_factor_spec(fm, g - 1);
        cadd_spec(cmul_spec(fm, f), f)
    }
}

/// What one butterfly stage with half-width `step` makes of index `i`:
/// the paired elements at `i` and `i ^ step` are combined with the group's
/// twiddle factor.
pub open spec fn stage_val_spec(s: Seq<Complex>, step: int, i: int) -> Complex
    recommends
        1 <= step,
        0 <= i < s.len(),
        i + step < s.len() || i - step >= 0,
{
    let f = stage_factor_spec(stage_fm_spec(step), i % step);
    if i % (2 * step) < step {
        cadd_spec(s[i], cmul_spec(f, s[i + step]))
    } else {
        csub_spec(s[i - step], cmul_spec(f, s[i]))
    }
}

/// One butterfly stage applied to the whole sequence.
pub open spec fn stage_map_spec(s: Seq<Complex>, step: int) -> Seq<Complex> {
    Seq::new(s.len(), |i: int| stage_val_spec(s, step, i))
}

/// The stages with half-widths `1, 2, ..., 2^(k-1)` applied in order.
pub open spec fn fft_stages_spec(s: Seq<Complex>, k: nat) -> Seq<Complex>
    decreases k,
{
    if k == 0 {
        s
    } else {
        stage_map_spec(fft_stages_spec(s, (k - 1) as nat), pow2((k - 1) as nat) as int)
    }
}

/// The fast transform: the bit-reversal permutation followed by the
/// `log2(len)` butterfly stages.
pub open spec fn fft_spec(s: Seq<Complex>) -> Seq<Complex>
    recommends
        is_pow2(s.len() as int),
{
    fft_stages_spec(bitrev_seq(s), log2(s.len() as int))
}

/// Real part of the stage multiplier: `-2 * ts^2 / 2^32`, truncated and
/// saturated.
fn fm_re_of(ts: i64) -> (r: i64)
    ensures
        r as int == sat_i64(trunc_div(-2 * ts * ts, SCALE as int)),
{
    let a: u64 = if ts < 0 {
        (-(ts as i128)) as u64
    } else {
        ts as u64
    };
    proof {
        assert((a as int) * (a as int) == ts * ts && (a as int) * (a as int) >= 0)
            by (nonlinear_arith)
            requires
                a == ts || a as int == -(ts as int),
        ;
        assert((2 * (a as int)) * (a as int) <= 0x1_0000_0000_0000_0000 * 0x8000_0000_0000_0000)
            by (nonlinear_arith)
            requires
                0 <= a <= 0x8000_0000_0000_0000,
        ;
        vstd::arithmetic::mul::lemma_mul_is_associative(2, a as int, a as int);
    }
    let tu: u128 = 2 * (a as u128) * (a as u128);
    let q: u128 = tu / (SCALE as u128);
    proof {
        let x = 2 * ((a as int) * (a as int));
        assert(tu as int == x) by {
            vstd::arithmetic::mul::lemma_mul_is_associative(2, a as int, a as int);
        }
        assert(-2 * ts * ts == -x) by (nonlinear_arith)
            requires
                x == 2 * ((a as int) * (a as int)),
                (a as int) * (a as int) == ts * ts,
        ;
        assert(crate::fixed::int_abs(-x) == x);
        assert(q as int == x / (SCALE as int));
        assert(trunc_div(-x, SCALE as int) == -(q as int)) by {
            assert(crate::fixed::int_abs(SCALE as int) == SCALE as int);
            if x == 0 {
                assert(0int / (SCALE as int) == 0) by {
                    vstd::arithmetic::div_mod::lemma_div_basics(SCALE as int);
                }
            }
        }
    }
    if q > i64::MAX as u128 {
        i64::MIN
    } else {
        -(q as i64)
    }
}

/// Two indices with the same residue modulo `d` lie at least `d` apart.
proof fn lemma_same_residue_gap(a: int, b: int, d: int)
    requires
        d > 0,
        a < b,
        a % d == b % d,
    ensures
        b - a >= d,
{
    vstd::arithmetic::div_mod::lemma_fundamental_div_mod(a, d);
    vstd::arithmetic::div_mod::lemma_fundamental_div_mod(b, d);
    let qa = a / d;
    let qb = b / d;
    assert(b - a == d * qb - d * qa);
    assert(d * qb - d * qa == d * (qb - qa)) by {
        vstd::arithmetic::mul::lemma_mul_is_distributive_sub(d, qb, qa);
    }
    vstd::arithmetic::mul::lemma_mul_is_commutative(d, qb - qa);
    if qb - qa <= 0 {
        vstd::arithmetic::mul::lemma_mul_inequality(qb - qa, 0, d);
        vstd::arithmetic::mul::lemma_mul_by_zero_is_zero(d);
        assert(false);
    }
    vstd::arithmetic::mul::lemma_mul_inequality(1, qb - qa, d);
    lemma_mul01(1, d);
}

/// Indices whose pair slot is below `pair` have been combined already.
spec fn inner_done(step: int, g: int, pair: int, i: int) -> bool {
    i % step < g || (i % step == g && (if i % (2 * step) < step {
        i < pair
    } else {
        i < pair + step
    }))
}

/// One butterfly stage, in place: for every group `g` in `[0, step)` and
/// every pair slot `p = g, g + 2*step, ...`, combines `data[p]` and
/// `data[p + step]` with the group's twiddle factor.
#[verifier::rlimit(100)]
fn apply_stage(data: &mut Vec<Complex>, step: usize)
    requires
        is_pow2(old(data)@.len() as int),
        is_pow2(step as int),
        1 <= step,
        step < old(data)@.len(),
    ensures
        final(data)@ == stage_map_spec(old(data)@, step as int),
{
    let ghost s0 = old(data)@;
    let n = data.len();
    let ghost kn = log2(n as int);
    let ghost ks = log2(step as int);
    proof {
        lemma_log2(n as int);
        lemma_log2(step as int);
        if ks >= kn {
            lemma_pow2_increases(kn, ks);
        }
        assert(ks < kn);
        assert(pow2(ks + 1) == 2 * step);
        lemma_pow2_increases(ks + 1, kn);
        assert(2 * step <= n);
        lemma_pow2_fits_usize(n as int);
    }
    let jump: usize = step * 2;
    proof {
        // jump divides n
        lemma_pow2_adds(ks + 1, (kn - ks - 1) as nat);
        assert(n == (jump as int) * pow2((kn - ks - 1) as nat)) by {
            vstd::arithmetic::mul::lemma_mul_is_commutative(
                jump as int,
                pow2((kn - ks - 1) as nat) as int,
            );
        }
        vstd::arithmetic::div_mod::lemma_mod_multiples_basic(
            pow2((kn - ks - 1) as nat) as int,
            jump as int,
        );
        vstd::arithmetic::mul::lemma_mul_is_commutative(
            jump as int,
            pow2((kn - ks - 1) as nat) as int,
        );
        assert(n as int % (jump as int) == 0);
    }
    let dpos: u64 = PI_FX as u64 / step as u64;
    let delta: i64 = -(dpos as i64);
    let half_delta: i64 = -((dpos / 2) as i64);
    proof {
        assert(delta as int == -trunc_div(PI_FX as int, step as int));
        assert(half_delta as int == trunc_div(delta as int, 2));
    }
    let temp_sin = sin_fx(half_delta);
    let fm = Complex { re: fm_re_of(temp_sin), im: sin_fx(delta) };
    proof {
        assert(fm == stage_fm_spec(step as int));
    }
    let mut factor = Complex { re: SCALE, im: 0 };
    let mut group: usize = 0;
    while group < step
        invariant
            data@.len() == n,
            s0.len() == n,
            n == old(data)@.len(),
            s0 == old(data)@,
            1 <= step < n,
            jump == 2 * step,
            jump <= n,
            n as int % (jump as int) == 0,
            2 * (n as int) <= usize::MAX as int + 1,
            group <= step,
            fm == stage_fm_spec(step as int),
            factor == stage_factor_spec(stage_fm_spec(step as int), group as int),
            forall|i: int|
                0 <= i < n ==> #[trigger] data@[i] == (if i % (step as int) < group {
                    stage_val_spec(s0, step as int, i)
                } else {
                    s0[i]
                }),
        decreases step - group,
    {
        let mut pair: usize = group;
        let ghost mut m: int = 0;
        proof {
            assert(pair as int == group + m * (jump as int)) by {
                lemma_mul01(m, jump as int);
            }
            let st = step as int;
            let j = jump as int;
            let gp = group as int;
            assert forall|i: int|
                0 <= i < n implies #[trigger] data@[i] == (if inner_done(st, gp, gp, i) {
                stage_val_spec(s0, st, i)
            } else {
                s0[i]
            }) by {
                if i % st == gp {
                    vstd::arithmetic::div_mod::lemma_mod_division_less_than_divisor(i, st);
                    vstd::arithmetic::div_mod::lemma_fundamental_div_mod(i, st);
                    vstd::arithmetic::mul::lemma_mul_nonnegative(st, i / st);
                    vstd::arithmetic::div_mod::lemma_div_basics_4(i, st);
                    assert(i >= i % st);
                    if i % j >= st {
                        vstd::arithmetic::div_mod::lemma_mod_division_less_than_divisor(i, j);
                        vstd::arithmetic::div_mod::lemma_fundamental_div_mod(i, j);
                        vstd::arithmetic::mul::lemma_mul_nonnegative(j, i / j);
                        vstd::arithmetic::div_mod::lemma_div_basics_4(i, j);
                        assert(i >= i % j);
                        vstd::arithmetic::div_mod::lemma_breakdown(i, st, 2);
                        lemma_mul01((i / st) % 2, st);
                        vstd::arithmetic::mul::lemma_mul_is_commutative(st, 2);
                        assert(i % j == gp + st);
                    }
                }
            }
        }
        while pair < n
            invariant
                data@.len() == n,
                s0.len() == n,
                1 <= step < n,
                jump == 2 * step,
                jump <= n,
                n as int % (jump as int) == 0,
                2 * (n as int) <= usize::MAX as int + 1,
                group < step,
                m >= 0,
                pair as int == group + m * (jump as int),
                factor == stage_factor_spec(stage_fm_spec(step as int), group as int),
                forall|i: int|
                    0 <= i < n ==> #[trigger] data@[i] == (if inner_done(
                        step as int,
                        group as int,
                        pair as int,
                        i,
                    ) {
                        stage_val_spec(s0, step as int, i)
                    } else {
                        s0[i]
                    }),
            decreases n + jump - pair,
        {
            proof {
                // (m + 1) * jump <= n, so pair + step and pair + jump stay in range
                let j = jump as int;
                let q = n as int / j;
                vstd::arithmetic::div_mod::lemma_fundamental_div_mod(n as int, j);
                assert(n as int == q * j);
                assert(m * j < n as int);
                if m >= q {
                    vstd::arithmetic::mul::lemma_mul_inequality(q, m, j);
                }
                assert(m < q);
                vstd::arithmetic::mul::lemma_mul_inequality(m + 1, q, j);
                assert((m + 1) * j <= n as int);
                vstd::arithmetic::mul::lemma_mul_is_distributive_add_other_way(j, m, 1);
                assert((m + 1) * j == m * j + j);
                assert(pair + jump <= group + n);
                // mod facts for pair and matched
                vstd::arithmetic::mul::lemma_mul_is_associative(m, 2, step as int);
                vstd::arithmetic::mul::lemma_mul_is_commutative(m, 2);
                assert(m * j == (2 * m) * (step as int));
                vstd::arithmetic::div_mod::lemma_fundamental_div_mod_converse_mod(
                    pair as int,
                    j,
                    m,
                    group as int,
                );
                vstd::arithmetic::div_mod::lemma_fundamental_div_mod_converse_mod(
                    pair as int,
                    step as int,
                    2 * m,
                    group as int,
                );
                vstd::arithmetic::mul::lemma_mul_is_distributive_add_other_way(
                    step as int,
                    2 * m,
                    1,
                );
                assert((2 * m + 1) * (step as int) == (2 * m) * (step as int) + step);
                vstd::arithmetic::div_mod::lemma_fundamental_div_mod_converse_mod(
                    pair as int + step as int,
                    step as int,
                    2 * m + 1,
                    group as int,
                );
                vstd::arithmetic::div_mod::lemma_fundamental_div_mod_converse_mod(
                    pair as int + step as int,
                    j,
                    m,
                    group as int + step as int,
                );
                assert(pair as int % (step as int) == group as int);
                assert((pair as int + step) % (step as int) == group as int);
                assert(pair as int % j == group as int);
                assert((pair as int + step) % j == group as int + step);
            }
            let matched = pair + step;
            let ghost pre = data@;
            let dp: Complex = data[pair];
            let dm: Complex = data[matched];
            let product = Complex::multiply(&factor, &dm);
            let new_m = Complex::minus(&dp, &product);
            let new_p = Complex::add(&dp, &product);
            data.set(matched, new_m);
            data.set(pair, new_p);
            proof {
                let st = step as int;
                let j = jump as int;
                let gp = group as int;
                let pr = pair as int;
                let mt = pr + st;
                let fct = stage_factor_spec(stage_fm_spec(st), gp);
                assert(pre[pr] == s0[pr]);
                assert(pre[mt] == s0[mt]);
                assert(stage_val_spec(s0, st, pr) == cadd_spec(s0[pr], cmul_spec(fct, s0[mt])));
                assert(stage_val_spec(s0, st, mt) == csub_spec(s0[pr], cmul_spec(fct, s0[mt])));
                assert forall|i: int|
                    0 <= i < n implies #[trigger] data@[i] == (if inner_done(st, gp, pr + j, i) {
                    stage_val_spec(s0, st, i)
                } else {
                    s0[i]
                }) by {
                    assert(pre[i] == (if inner_done(st, gp, pr, i) {
                        stage_val_spec(s0, st, i)
                    } else {
                        s0[i]
                    }));
                    if i == pr {
                        assert(data@[i] == cadd_spec(s0[pr], cmul_spec(fct, s0[mt])));
                    } else if i == mt {
                        assert(data@[i] == csub_spec(s0[pr], cmul_spec(fct, s0[mt])));
                    } else {
                        assert(data@[i] == pre[i]);
                        if i % st == gp {
                            vstd::arithmetic::div_mod::lemma_breakdown(i, st, 2);
                            lemma_mul01((i / st) % 2, st);
                            vstd::arithmetic::mul::lemma_mul_is_commutative(st, 2);
                            assert(i % j == gp || i % j == gp + st);
                            if i % j == gp && (pr < i && i < pr + j) {
                                lemma_same_residue_gap(pr, i, j);
                                assert(false);
                            }
                            if i % j == gp + st && (mt < i && i < mt + j) {
                                lemma_same_residue_gap(mt, i, j);
                                assert(false);
                            }
                        }
                    }
                }
                m = m + 1;
                vstd::arithmetic::mul::lemma_mul_is_distributive_add_other_way(j, m - 1, 1);
            }
            pair = pair + jump;
        }
        proof {
            let st = step as int;
            assert forall|i: int|
                0 <= i < n implies #[trigger] data@[i] == (if i % st < group as int + 1 {
                stage_val_spec(s0, st, i)
            } else {
                s0[i]
            }) by {
                if i % st == group as int {
                    assert(inner_done(st, group as int, pair as int, i));
                }
            }
        }
        let next_factor = Complex::add(&Complex::multiply(&fm, &factor), &factor);
        factor = next_factor;
        group = group + 1;
    }
    proof {
        let st = step as int;
        assert forall|i: int| 0 <= i < n implies data@[i] == stage_map_spec(s0, st)[i] by {
            vstd::arithmetic::div_mod::lemma_mod_division_less_than_divisor(i, st);
        }
        assert(data@ =~= stage_map_spec(s0, st));
    }
}

/// The iterative radix-2 decimation-in-time fast Fourier transform, in
/// place: the bit-reversal permutation followed by stages of butterfly
/// combinations whose twiddle factors come from the angle-doubling
/// recurrence. The input length must be a power of two.
pub fn fft(data: &mut Vec<Complex>)
    requires
        is_pow2(old(data)@.len() as int),
    ensures
        final(data)@ == fft_spec(old(data)@),
        final(data)@.len() == old(data)@.len(),
{
    let ghost orig = data@;
    butterfly(data);
    let length = data.len();
    let ghost kn = log2(length as int);
    proof {
        lemma_log2(length as int);
    }
    let mut step: usize = 1;
    let ghost mut j: nat = 0;
    while step < length
        invariant
            data@.len() == length,
            orig.len() == length,
            is_pow2(length as int),
            pow2(kn) == length,
            kn == log2(length as int),
            pow2(j) == step,
            step <= length,
            data@ == fft_stages_spec(bitrev_seq(orig), j),
        decreases length - step,
    {
        proof {
            lemma_pow2_is_pow2(j);
            lemma_pow2_gt_exp(kn);
            if j >= kn {
                lemma_pow2_increases(kn, j);
            }
            assert(j < kn);
            if j + 1 < kn {
                lemma_pow2_strictly_increases((j + 1) as nat, kn);
            }
            assert(pow2((j + 1) as nat) == 2 * step);
            assert(2 * step <= length);
        }
        apply_stage(data, step);
        proof {
            j = j + 1;
            assert(fft_stages_spec(bitrev_seq(orig), j) == stage_map_spec(
                fft_stages_spec(bitrev_seq(orig), (j - 1) as nat),
                pow2((j - 1) as nat) as int,
            ));
        }
        step = step * 2;
    }
    proof {
        assert(step == length);
        assert(pow2(j) == pow2(kn));
        if j < kn {
            lemma_pow2_strictly_increases(j, kn);
        }
        if j > kn {
            lemma_pow2_strictly_increases(kn, j);
        }
        assert(j == kn);
    }
}


/// The angle `2*pi * k * j / len` in fixed point, truncated toward zero.
pub open spec fn dft_angle_spec(s_len: int, k: int, j: int) -> int {
    trunc_div(((TWO_PI_FX as int) * k) * j, s_len)
}

/// The direct-transform basis value `exp(-i * angle)`.
pub open spec fn dft_exp_spec(s_len: int, k: int, j: int) -> Complex {
    let ang = dft_angle_spec(s_len, k, j);
    Complex { re: cos_spec(ang) as i64, im: sat_i64(-sin_spec(ang)) as i64 }
}

/// Left fold of the direct-transform sum for output index `k`, starting at
/// input index `j` with accumulator `acc`.
pub open spec fn dft_sum_spec(s: Seq<Complex>, k: int, j: int, acc: Complex) -> Complex
    decreases s.len() - j,
{
    if j < 0 || j >= s.len() {
        acc
    } else {
        dft_sum_spec(
            s,
            k,
            j + 1,
            cadd_spec(acc, cmul_spec(s[j], dft_exp_spec(s.len() as int, k, j))),
        )
    }
}

/// The direct discrete Fourier transform, `X[k] = sum x[j] exp(-2 pi i k j / N)`.
pub open spec fn dft_spec(s: Seq<Complex>) -> Seq<Complex> {
    Seq::new(s.len(), |k: int| dft_sum_spec(s, k, 0, Complex { re: 0i64, im: 0i64 }))
}

/// The direct, quadratic-time reference transform: evaluates the transform
/// sum for every output index by explicit double summation. Valid for any
/// length (the length cap only keeps the angle arithmetic within `i64`).
pub fn dft(data: Vec<Complex>) -> (results: Vec<Complex>)
    requires
        data@.len() <= 0x400_0000,
    ensures
        results@ == dft_spec(data@),
{
    let mut results: Vec<Complex> = Vec::new();
    let n = data.len();
    let mut term: usize = 0;
    while term < n
        invariant
            n == data@.len(),
            n <= 0x400_0000,
            term <= n,
            results@.len() == term,
            forall|t: int|
                0 <= t < term ==> results@[t] == dft_sum_spec(
                    data@,
                    t,
                    0,
                    Complex { re: 0i64, im: 0i64 },
                ),
        decreases n - term,
    {
        let mut sum = Complex::new(0, 0);
        let mut idx: usize = 0;
        while idx < n
            invariant
                n == data@.len(),
                n <= 0x400_0000,
                term < n,
                idx <= n,
                dft_sum_spec(data@, term as int, idx as int, sum) == dft_sum_spec(
                    data@,
                    term as int,
                    0,
                    Complex { re: 0i64, im: 0i64 },
                ),
            decreases n - idx,
        {
            proof {
                let t = TWO_PI_FX as int;
                let kk = term as int;
                let jj = idx as int;
                let nn = n as int;
                assert((t * kk) * jj <= (t * (nn - 1)) * nn && 0 <= (t * kk) * jj && 0 <= t * (nn
                    - 1) && (t * kk) * jj < 0x1000_0000_0000_0000_0000_0000) by (nonlinear_arith)
                    requires
                        0 <= kk < nn,
                        0 <= jj < nn,
                        nn <= 0x400_0000,
                        t == 26986075409,
                ;
                vstd::arithmetic::div_mod::lemma_div_is_ordered((t * kk) * jj, (t * (nn - 1)) * nn, nn);
                vstd::arithmetic::div_mod::lemma_div_by_multiple(t * (nn - 1), nn);
                assert(((t * kk) * jj) / nn <= t * (nn - 1));
                assert(t * (nn - 1) < 0x2000_0000_0000_0000) by (nonlinear_arith)
                    requires
                        t == 26986075409,
                        nn <= 0x400_0000,
                ;
            }
            let x: u128 = (TWO_PI_FX as u128) * (term as u128) * (idx as u128);
            let q: u128 = x / (n as u128);
            let ang: i64 = q as i64;
            proof {
                assert(ang as int == dft_angle_spec(n as int, term as int, idx as int));
            }
            let exp = Complex::new(cos_fx(ang), sat_sub(0, sin_fx(ang)));
            let ghost pre_sum = sum;
            let mult = Complex::multiply(&data[idx], &exp);
            sum = Complex::add(&sum, &mult);
            proof {
                assert(exp == dft_exp_spec(n as int, term as int, idx as int));
                assert(dft_sum_spec(data@, term as int, idx as int, pre_sum) == dft_sum_spec(
                    data@,
                    term as int,
                    idx + 1,
                    cadd_spec(pre_sum, cmul_spec(data@[idx as int], exp)),
                ));
            }
            idx = idx + 1;
        }
        results.push(sum);
        term = term + 1;
    }
    proof {
        assert forall|t: int| 0 <= t < n implies results@[t] == dft_spec(data@)[t] by {
        }
        assert(results@ =~= dft_spec(data@));
    }
    results
}


} // verus!
