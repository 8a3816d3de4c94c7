//! The decoder boundary: the trait a host's decoder implements, and the
//! verified sample-domain conversions such a decoder needs — rescaling
//! container integer formats to fixed point, downmixing multi-channel audio
//! to mono by equal-weight averaging, and clamping into the canonical
//! amplitude domain.

use vstd::prelude::*;
use vstd::arithmetic::div_mod::{
    lemma_div_is_ordered, lemma_div_multiples_vanish, lemma_div_pos_is_pos,
};
use vstd::arithmetic::mul::{lemma_mul_inequality, lemma_mul_nonnegative};
use vstd::math::abs;
use crate::timing::{lemma_scale_bound, scale_i64, spec_scale};
use crate::types::{AudioError, SAMPLE_UNIT};

verus! {

/// The external decoding capability: given a file path, produce mono
/// fixed-point PCM at the canonical sample rate, or fail. A decoder
/// resamples internally when the container's rate differs from the
/// canonical one; a mid-stream decode error truncates the output to the
/// samples decoded so far rather than failing.
pub trait AudioDecoder {
    /// Decode (and, if needed, resample) the file at `file_path`.
    fn decode(&mut self, file_path: &str) -> Result<Vec<i64>, AudioError>;
}

/// Clamp one sample into the canonical amplitude domain
/// `[-SAMPLE_UNIT, SAMPLE_UNIT]`.
pub open spec fn spec_clamp(v: int) -> int {
    if v > SAMPLE_UNIT {
        SAMPLE_UNIT as int
    } else if v < -SAMPLE_UNIT {
        -SAMPLE_UNIT as int
    } else {
        v
    }
}

/// An unsigned 8-bit sample rescaled to fixed point:
/// `(raw - 128) / 128` in the amplitude domain.
pub open spec fn spec_rescale_u8(raw: u8) -> int {
    spec_scale(raw - 128, SAMPLE_UNIT as int, 128)
}

/// An unsigned 16-bit sample rescaled to fixed point:
/// `(raw - 32768) / 32768` in the amplitude domain.
pub open spec fn spec_rescale_u16(raw: u16) -> int {
    spec_scale(raw - 32768, SAMPLE_UNIT as int, 32768)
}

/// The number of whole frames all channels have: the shortest channel
/// decides, as in a zip across channels.
pub open spec fn spec_frame_count(channels: Seq<Vec<i64>>) -> int {
    if channels.len() == 0 {
        0
    } else {
        spec_min_len_upto(channels, channels.len() as int)
    }
}

/// The shortest length among the first `k` channels (`k >= 1`).
pub open spec fn spec_min_len_upto(channels: Seq<Vec<i64>>, k: int) -> int
    decreases k,
{
    if k <= 1 {
        channels[0]@.len() as int
    } else {
        let rest = spec_min_len_upto(channels, k - 1);
        if channels[k - 1]@.len() < rest {
            channels[k - 1]@.len() as int
        } else {
            rest
        }
    }
}

/// The sum of the first `k` channels' samples at frame `i`.
pub open spec fn spec_channel_sum(channels: Seq<Vec<i64>>, k: int, i: int) -> int
    decreases k,
{
    if k <= 0 {
        0
    } else {
        spec_channel_sum(channels, k - 1, i) + channels[k - 1]@[i]
    }
}

/// The mono value of frame `i`: the equal-weight average of all channels,
/// truncated toward zero.
pub open spec fn spec_mono_frame(channels: Seq<Vec<i64>>, i: int) -> int {
    spec_scale(spec_channel_sum(channels, channels.len() as int, i), 1, channels.len() as int)
}

/// Clamp one sample into `[-SAMPLE_UNIT, SAMPLE_UNIT]`.
pub fn clamp_sample(v: i64) -> (r: i64)
    ensures
        r as int == spec_clamp(v as int),
        abs(r as int) <= SAMPLE_UNIT,
{
    if v > SAMPLE_UNIT {
        SAMPLE_UNIT
    } else if v < -SAMPLE_UNIT {
        -SAMPLE_UNIT
    } else {
        v
    }
}

/// Clamp a whole decoded signal into the canonical amplitude domain. On a
/// well-behaved decoder this is the identity; it shields the mix from
/// out-of-range samples.
pub fn clamp_samples(samples: Vec<i64>) -> (r: Vec<i64>)
    ensures
        r@.len() == samples@.len(),
        forall|i: int| 0 <= i < r@.len() ==> r@[i] as int == spec_clamp(samples@[i] as int),
        forall|i: int| 0 <= i < r@.len() ==> abs(r@[i] as int) <= SAMPLE_UNIT,
{
    let mut out: Vec<i64> = Vec::new();
    let mut j: usize = 0;
    while j < samples.len()
        invariant
            j <= samples@.len(),
            out@.len() == j,
            forall|i: int| 0 <= i < j ==> out@[i] as int == spec_clamp(samples@[i] as int),
            forall|i: int| 0 <= i < j ==> abs(out@[i] as int) <= SAMPLE_UNIT,
        decreases samples@.len() - j,
    {
        out.push(clamp_sample(samples[j]));
        j += 1;
    }
    out
}

/// Rescale one unsigned 8-bit sample: zero point 128, full scale 128.
pub fn rescale_u8(raw: u8) -> (r: i64)
    ensures
        r as int == spec_rescale_u8(raw),
        abs(r as int) <= SAMPLE_UNIT,
{
    proof {
        lemma_scale_bound(raw - 128, SAMPLE_UNIT as int, 128, 128);
        lemma_div_multiples_vanish(SAMPLE_UNIT as int, 128);
    }
    scale_i64((raw as i64) - 128, SAMPLE_UNIT as u64, 128)
}

/// Rescale one unsigned 16-bit sample: zero point 32768, full scale 32768.
pub fn rescale_u16(raw: u16) -> (r: i64)
    ensures
        r as int == spec_rescale_u16(raw),
        abs(r as int) <= SAMPLE_UNIT,
{
    proof {
        lemma_scale_bound(raw - 32768, SAMPLE_UNIT as int, 32768, 32768);
        lemma_div_multiples_vanish(SAMPLE_UNIT as int, 32768);
    }
    scale_i64((raw as i64) - 32768, SAMPLE_UNIT as u64, 32768)
}

/// Rescale a whole unsigned 8-bit channel to fixed point.
pub fn rescale_channel_u8(channel: &Vec<u8>) -> (r: Vec<i64>)
    ensures
        r@.len() == channel@.len(),
        forall|i: int| 0 <= i < r@.len() ==> r@[i] as int == spec_rescale_u8(channel@[i]),
        forall|i: int| 0 <= i < r@.len() ==> abs(r@[i] as int) <= SAMPLE_UNIT,
{
    let mut out: Vec<i64> = Vec::new();
    let mut j: usize = 0;
    while j < channel.len()
        invariant
            j <= channel@.len(),
            out@.len() == j,
            forall|i: int| 0 <= i < j ==> out@[i] as int == spec_rescale_u8(channel@[i]),
            forall|i: int| 0 <= i < j ==> abs(out@[i] as int) <= SAMPLE_UNIT,
        decreases channel@.len() - j,
    {
        out.push(rescale_u8(channel[j]));
        j += 1;
    }
    out
}

/// Rescale a whole unsigned 16-bit channel to fixed point.
pub fn rescale_channel_u16(channel: &Vec<u16>) -> (r: Vec<i64>)
    ensures
        r@.len() == channel@.len(),
        forall|i: int| 0 <= i < r@.len() ==> r@[i] as int == spec_rescale_u16(channel@[i]),
        forall|i: int| 0 <= i < r@.len() ==> abs(r@[i] as int) <= SAMPLE_UNIT,
{
    let mut out: Vec<i64> = Vec::new();
    let mut j: usize = 0;
    while j < channel.len()
        invariant
            j <= channel@.len(),
            out@.len() == j,
            forall|i: int| 0 <= i < j ==> out@[i] as int == spec_rescale_u16(channel@[i]),
            forall|i: int| 0 <= i < j ==> abs(out@[i] as int) <= SAMPLE_UNIT,
        decreases channel@.len() - j,
    {
        out.push(rescale_u16(channel[j]));
        j += 1;
    }
    out
}

/// Downmix any number of channels to mono by equal-weight averaging of the
/// per-channel amplitude at each frame.
pub fn downmix(channels: &Vec<Vec<i64>>) -> (r: Vec<i64>)
    requires
        channels@.len() > 0,
        forall|c: int, i: int|
            0 <= c < channels@.len() && 0 <= i < channels@[c]@.len() ==> abs(
                channels@[c]@[i] as int,
            ) <= SAMPLE_UNIT,
    ensures
        r@.len() == spec_frame_count(channels@),
        forall|i: int| 0 <= i < r@.len() ==> r@[i] as int == spec_mono_frame(channels@, i),
        forall|i: int| 0 <= i < r@.len() ==> abs(r@[i] as int) <= SAMPLE_UNIT,
{
    let n: usize = channels.len();
    let mut frames: usize = channels[0].len();
    let mut c: usize = 1;
    while c < n
        invariant
            1 <= c <= n,
            n == channels@.len(),
            frames == spec_min_len_upto(channels@, c as int),
        decreases n - c,
    {
        if channels[c].len() < frames {
            frames = channels[c].len();
        }
        c += 1;
    }
    assert(frames == spec_frame_count(channels@));
    let mut out: Vec<i64> = Vec::new();
    let mut i: usize = 0;
    while i < frames
        invariant
            i <= frames,
            n == channels@.len(),
            n >= 1,
            frames == spec_frame_count(channels@),
            forall|cc: int, ii: int|
                0 <= cc < channels@.len() && 0 <= ii < channels@[cc]@.len() ==> abs(
                    channels@[cc]@[ii] as int,
                ) <= SAMPLE_UNIT,
            out@.len() == i,
            forall|ii: int| 0 <= ii < i ==> out@[ii] as int == spec_mono_frame(channels@, ii),
            forall|ii: int| 0 <= ii < i ==> abs(out@[ii] as int) <= SAMPLE_UNIT,
        decreases frames - i,
    {
        proof {
            lemma_min_len_bound(channels@, n as int, i as int);
        }
        let mut sum: i128 = 0;
        let mut c2: usize = 0;
        while c2 < n
            invariant
                c2 <= n,
                n == channels@.len(),
                i < frames,
                frames == spec_frame_count(channels@),
                forall|cc: int, ii: int|
                    0 <= cc < channels@.len() && 0 <= ii < channels@[cc]@.len() ==> abs(
                        channels@[cc]@[ii] as int,
                    ) <= SAMPLE_UNIT,
                sum as int == spec_channel_sum(channels@, c2 as int, i as int),
                abs(sum as int) <= c2 * SAMPLE_UNIT,
            decreases n - c2,
        {
            proof {
                lemma_min_len_bound(channels@, n as int, i as int);
                lemma_mul_inequality(c2 as int, n as int, SAMPLE_UNIT as int);
                lemma_mul_inequality(n as int, usize::MAX as int, SAMPLE_UNIT as int);
                lemma_mul_inequality(c2 + 1, usize::MAX as int, SAMPLE_UNIT as int);
            }
            sum = sum + (channels[c2][i] as i128);
            c2 += 1;
        }
        proof {
            lemma_mul_inequality(n as int, usize::MAX as int, SAMPLE_UNIT as int);
        }
        let avg: i64 = average_i128(sum, n, Ghost(n * SAMPLE_UNIT as int));
        out.push(avg);
        i += 1;
    }
    out
}

/// Within the common frame range, every channel has the frame.
proof fn lemma_min_len_bound(channels: Seq<Vec<i64>>, k: int, i: int)
    requires
        1 <= k <= channels.len(),
        0 <= i < spec_min_len_upto(channels, channels.len() as int),
    ensures
        forall|c: int| 0 <= c < k ==> i < channels[c]@.len(),
    decreases channels.len() - k,
{
    lemma_min_len_le(channels, channels.len() as int);
    assert forall|c: int| 0 <= c < k implies i < channels[c]@.len() by {
        lemma_min_len_at(channels, channels.len() as int, c);
    }
}

/// The minimum over the first `k` channels is at most each channel's length.
proof fn lemma_min_len_at(channels: Seq<Vec<i64>>, k: int, c: int)
    requires
        0 <= c < k <= channels.len(),
    ensures
        spec_min_len_upto(channels, k) <= channels[c]@.len(),
    decreases k,
{
    if k > 1 && c < k - 1 {
        lemma_min_len_at(channels, k - 1, c);
    }
}

/// Helper: the minimum length is nonnegative.
proof fn lemma_min_len_le(channels: Seq<Vec<i64>>, k: int)
    requires
        1 <= k <= channels.len(),
    ensures
        spec_min_len_upto(channels, k) >= 0,
    decreases k,
{
    if k > 1 {
        lemma_min_len_le(channels, k - 1);
    }
}

/// The equal-weight average of a bounded sum: `sum / n`, truncated toward
/// zero, where `|sum| <= n * SAMPLE_UNIT`.
fn average_i128(sum: i128, n: usize, Ghost(bound): Ghost<int>) -> (r: i64)
    requires
        n > 0,
        bound == n * SAMPLE_UNIT,
        abs(sum as int) <= bound,
    ensures
        r as int == spec_scale(sum as int, 1, n as int),
        abs(r as int) <= SAMPLE_UNIT,
{
    let mag: u128 = if sum >= 0 {
        sum as u128
    } else {
        (-sum) as u128
    };
    proof {
        lemma_div_is_ordered(mag as int, n * SAMPLE_UNIT, n as int);
        lemma_div_multiples_vanish(SAMPLE_UNIT as int, n as int);
        lemma_div_pos_is_pos(mag as int, n as int);
        assert(sum as int * 1 == sum as int);
        assert((-(sum as int)) * 1 == -(sum as int));
    }
    let q: u128 = mag / (n as u128);
    if sum >= 0 {
        q as i64
    } else {
        -(q as i64)
    }
}

} // verus!
