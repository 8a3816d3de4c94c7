//! Exact integer arithmetic for the time domain and the fixed-point
//! amplitude domain: mapping milliseconds to sample counts at the canonical
//! rate, and scaling a sample by a rational factor.

use vstd::prelude::*;
use vstd::arithmetic::div_mod::{
    lemma_div_is_ordered, lemma_div_multiples_vanish, lemma_div_multiples_vanish_fancy,
    lemma_div_of0, lemma_div_pos_is_pos,
};
use vstd::arithmetic::mul::{
    lemma_mul_inequality, lemma_mul_is_commutative, lemma_mul_nonnegative,
};
use vstd::math::abs;
use crate::types::{CANONICAL_SAMPLE_RATE, MAX_PROGRAM_SAMPLES, MAX_TIME_MS, MS_PER_SECOND};

verus! {

/// Samples at the canonical rate covering `ms` milliseconds, rounded half
/// up; a nonpositive time covers zero samples.
pub open spec fn spec_samples_of_ms(ms: int) -> int {
    if ms <= 0 {
        0
    } else {
        (ms * CANONICAL_SAMPLE_RATE + MS_PER_SECOND / 2) / (MS_PER_SECOND as int)
    }
}

/// A signed sample offset for a signed time offset: the rounding of
/// `spec_samples_of_ms` applied to the magnitude.
pub open spec fn spec_offset_samples(ms: int) -> int {
    if ms >= 0 {
        spec_samples_of_ms(ms)
    } else {
        -spec_samples_of_ms(-ms)
    }
}

/// `v * num / den`, the division truncating the magnitude toward zero.
/// This is the one rounding rule of the fixed-point amplitude domain: it is
/// used for gain, for the fade envelope and for normalization.
pub open spec fn spec_scale(v: int, num: int, den: int) -> int {
    if v >= 0 {
        v * num / den
    } else {
        -((-v) * num / den)
    }
}

/// The magnitude of a scaled value is the scaled magnitude.
pub proof fn lemma_scale_mag(v: int, num: int, den: int)
    requires
        num >= 0,
        den > 0,
    ensures
        abs(spec_scale(v, num, den)) == abs(v) * num / den,
        spec_scale(v, num, den) == if v >= 0 {
            abs(v) * num / den
        } else {
            -(abs(v) * num / den)
        },
        abs(v) * num / den >= 0,
{
    if v >= 0 {
        lemma_mul_nonnegative(v, num);
        lemma_div_pos_is_pos(v * num, den);
    } else {
        lemma_mul_nonnegative(-v, num);
        lemma_div_pos_is_pos((-v) * num, den);
    }
}

/// Scaling by `num/den <= 1` does not increase the magnitude.
pub proof fn lemma_scale_shrink(v: int, num: int, den: int)
    requires
        0 <= num <= den,
        den > 0,
    ensures
        abs(spec_scale(v, num, den)) <= abs(v),
{
    lemma_scale_mag(v, num, den);
    lemma_mul_inequality(num, den, abs(v) as int);
    lemma_mul_is_commutative(abs(v) as int, num);
    lemma_mul_is_commutative(abs(v) as int, den);
    lemma_div_is_ordered(abs(v) * num, abs(v) * den, den);
    lemma_div_multiples_vanish(abs(v) as int, den);
}

/// A magnitude bound on the input gives a magnitude bound on the scaled
/// value.
pub proof fn lemma_scale_bound(v: int, num: int, den: int, m: int)
    requires
        abs(v) <= m,
        num >= 0,
        den > 0,
    ensures
        abs(spec_scale(v, num, den)) <= m * num / den,
{
    lemma_scale_mag(v, num, den);
    lemma_mul_inequality(abs(v) as int, m, num);
    lemma_div_is_ordered(abs(v) * num, m * num, den);
}

/// Scaling zero gives zero.
pub proof fn lemma_scale_zero(num: int, den: int)
    requires
        num >= 0,
        den > 0,
    ensures
        spec_scale(0, num, den) == 0,
{
    lemma_div_of0(den);
}

/// A value of full magnitude `den` scales exactly to `±num`: the peak
/// sample of a normalized buffer lands exactly on the target.
pub proof fn lemma_scale_exact(v: int, num: int, den: int)
    requires
        num >= 0,
        den > 0,
        abs(v) == den,
    ensures
        abs(spec_scale(v, num, den)) == num,
{
    lemma_scale_mag(v, num, den);
    lemma_mul_is_commutative(den, num);
    lemma_div_multiples_vanish(num, den);
}

/// Any in-range time maps to at most `2 * MAX_TIME_MS` milliseconds' worth
/// of samples.
pub proof fn lemma_samples_of_ms_bound(ms: int)
    requires
        ms <= 2 * MAX_TIME_MS,
    ensures
        0 <= spec_samples_of_ms(ms) <= MAX_PROGRAM_SAMPLES,
{
    if ms > 0 {
        lemma_div_pos_is_pos(ms * CANONICAL_SAMPLE_RATE + MS_PER_SECOND / 2, MS_PER_SECOND as int);
        lemma_div_is_ordered(
            ms * CANONICAL_SAMPLE_RATE + MS_PER_SECOND / 2,
            2 * MAX_TIME_MS * CANONICAL_SAMPLE_RATE + MS_PER_SECOND / 2,
            MS_PER_SECOND as int,
        );
        assert(2 * MAX_TIME_MS * CANONICAL_SAMPLE_RATE + MS_PER_SECOND / 2 == 1000
            * 88_200_000_000_000 + 500);
        lemma_div_multiples_vanish_fancy(88_200_000_000_000, 500, 1000);
    }
}

/// The time-to-sample mapping is monotone.
pub proof fn lemma_samples_of_ms_monotone(ms1: int, ms2: int)
    requires
        ms1 <= ms2,
    ensures
        spec_samples_of_ms(ms1) <= spec_samples_of_ms(ms2),
{
    if ms1 > 0 {
        lemma_div_is_ordered(
            ms1 * CANONICAL_SAMPLE_RATE + MS_PER_SECOND / 2,
            ms2 * CANONICAL_SAMPLE_RATE + MS_PER_SECOND / 2,
            MS_PER_SECOND as int,
        );
    } else if ms2 > 0 {
        lemma_div_pos_is_pos(ms2 * CANONICAL_SAMPLE_RATE + MS_PER_SECOND / 2, MS_PER_SECOND as int);
    }
}

/// The signed offset mapping stays within the same bound on both sides.
pub proof fn lemma_offset_samples_bound(ms: int)
    requires
        -2 * MAX_TIME_MS <= ms <= 2 * MAX_TIME_MS,
    ensures
        -MAX_PROGRAM_SAMPLES <= spec_offset_samples(ms) <= MAX_PROGRAM_SAMPLES,
{
    if ms >= 0 {
        lemma_samples_of_ms_bound(ms);
    } else {
        lemma_samples_of_ms_bound(-ms);
    }
}

/// Number of whole samples for a nonnegative duration or position given in
/// milliseconds.
pub fn samples_of_ms(ms: i64) -> (r: u64)
    requires
        ms <= 2 * MAX_TIME_MS,
    ensures
        r as int == spec_samples_of_ms(ms as int),
{
    if ms <= 0 {
        0
    } else {
        let n: u64 = ms as u64;
        (n * CANONICAL_SAMPLE_RATE + MS_PER_SECOND / 2) / MS_PER_SECOND
    }
}

/// Signed sample offset for a signed millisecond offset.
pub fn offset_samples(ms: i64) -> (r: i64)
    requires
        -2 * MAX_TIME_MS <= ms <= 2 * MAX_TIME_MS,
    ensures
        r as int == spec_offset_samples(ms as int),
{
    if ms >= 0 {
        let n: u64 = ms as u64;
        let samples: u64 = (n * CANONICAL_SAMPLE_RATE + MS_PER_SECOND / 2) / MS_PER_SECOND;
        samples as i64
    } else {
        let n: u64 = (-ms) as u64;
        let samples: u64 = (n * CANONICAL_SAMPLE_RATE + MS_PER_SECOND / 2) / MS_PER_SECOND;
        -(samples as i64)
    }
}

/// Fixed-point scaling of one sample by `num / den`.
pub fn scale_i64(v: i64, num: u64, den: u64) -> (r: i64)
    requires
        den > 0,
        -i64::MAX <= v,
        abs(v as int) as int * (num as int) / (den as int) <= i64::MAX,
    ensures
        r as int == spec_scale(v as int, num as int, den as int),
{
    let mag: u64 = if v >= 0 {
        v as u64
    } else {
        (-v) as u64
    };
    proof {
        lemma_mul_inequality(mag as int, u64::MAX as int, num as int);
        lemma_mul_is_commutative(u64::MAX as int, num as int);
        lemma_mul_inequality(num as int, u64::MAX as int, u64::MAX as int);
        lemma_scale_mag(v as int, num as int, den as int);
    }
    let q128: u128 = (mag as u128) * (num as u128) / (den as u128);
    let q: i64 = q128 as i64;
    if v >= 0 {
        q
    } else {
        -q
    }
}

} // verus!
