//! The timeline compositor: resolving arrangements to sources, mapping
//! their windows onto sample ranges, trimming, looping, fading and scaling
//! source audio, mixing additively into the program buffer, and
//! peak-normalizing the result.

use vstd::prelude::*;
use vstd::arithmetic::div_mod::{
    lemma_div_is_ordered, lemma_div_multiples_vanish, lemma_div_pos_is_pos,
    lemma_mod_division_less_than_divisor,
};
use vstd::arithmetic::mul::{
    lemma_mul_inequality, lemma_mul_left_inequality, lemma_mul_nonnegative,
};
use vstd::string::StringExecFns;
use vstd::math::abs;
use crate::cache::{cache_bounded, SourceCache};
use crate::decode::{clamp_samples, AudioDecoder};
use crate::normalize::{normalize_audio, spec_as_ints, spec_normalize};
use crate::progress::{loading_progress, processing_progress, ProgressSink};
use crate::timing::{
    lemma_offset_samples_bound, lemma_samples_of_ms_bound, lemma_scale_bound, lemma_scale_mag,
    lemma_scale_shrink, offset_samples, samples_of_ms, scale_i64,
    spec_offset_samples, spec_samples_of_ms, spec_scale,
};
use crate::types::{
    Arrangement, AudioError, ExportProgress, ProgressStage, Source, TimeOfRecord,
    CANONICAL_SAMPLE_RATE, FADE_SAMPLES, MAX_ARRANGEMENTS, MAX_CONTRIBUTION, MAX_PROGRAM_SAMPLES,
    MAX_TIME_MS, MS_PER_SECOND, NORMALIZE_TARGET, PEAK_LIMIT, SAMPLE_UNIT,
};

verus! {

/// The spec-level key of a source reference: the category identifier's
/// characters, if any.
pub open spec fn spec_key(t: Option<String>) -> Option<Seq<char>> {
    match t {
        Some(s) => Some(s@),
        None => None,
    }
}

/// The first index at or after `k` whose source matches `key`, or -1.
pub open spec fn spec_find_from(sources: Seq<Source>, key: Option<Seq<char>>, k: int) -> int
    decreases sources.len() - k,
{
    if k < 0 || k >= sources.len() {
        -1
    } else if spec_key(sources[k].type_id) == key {
        k
    } else {
        spec_find_from(sources, key, k + 1)
    }
}

/// The index of the first source matching `key`, or -1.
pub open spec fn spec_find_source(sources: Seq<Source>, key: Option<Seq<char>>) -> int {
    spec_find_from(sources, key, 0)
}

/// The source index an arrangement resolves to, or -1.
pub open spec fn spec_resolved(sources: Seq<Source>, a: Arrangement) -> int {
    spec_find_source(sources, spec_key(a.type_id))
}

/// Every arrangement resolves to some source.
pub open spec fn spec_all_resolvable(arrs: Seq<Arrangement>, sources: Seq<Source>) -> bool {
    forall|n: int| 0 <= n < arrs.len() ==> spec_resolved(sources, #[trigger] arrs[n]) >= 0
}

/// `spec_find_from` finds a match if and only if one exists at or after
/// `k`, and it finds the first one.
pub proof fn lemma_find_from_props(sources: Seq<Source>, key: Option<Seq<char>>, k: int)
    requires
        0 <= k <= sources.len(),
    ensures
        spec_find_from(sources, key, k) == -1 ==> forall|j: int|
            k <= j < sources.len() ==> spec_key(#[trigger] sources[j].type_id) != key,
        spec_find_from(sources, key, k) != -1 ==> {
            &&& k <= spec_find_from(sources, key, k) < sources.len()
            &&& spec_key(sources[spec_find_from(sources, key, k)].type_id) == key
            &&& forall|j: int|
                k <= j < spec_find_from(sources, key, k) ==> spec_key(
                    #[trigger] sources[j].type_id,
                ) != key
        },
    decreases sources.len() - k,
{
    if k < sources.len() && spec_key(sources[k].type_id) != key {
        lemma_find_from_props(sources, key, k + 1);
    }
}

/// Whether two source references name the same category.
fn opt_key_eq(a: &Option<String>, b: &Option<String>) -> (r: bool)
    ensures
        r == (spec_key(*a) == spec_key(*b)),
{
    match (a, b) {
        (None, None) => true,
        (Some(x), Some(y)) => *x == *y,
        _ => false,
    }
}

/// Resolve an arrangement's source reference to the first matching source.
fn find_source(sources: &Vec<Source>, key: &Option<String>) -> (r: Option<usize>)
    ensures
        match r {
            Some(k) => k as int == spec_find_source(sources@, spec_key(*key)),
            None => spec_find_source(sources@, spec_key(*key)) == -1,
        },
{
    let n = sources.len();
    let mut i: usize = 0;
    while i < n
        invariant
            i <= n,
            n == sources@.len(),
            spec_find_from(sources@, spec_key(*key), 0) == spec_find_from(
                sources@,
                spec_key(*key),
                i as int,
            ),
        decreases n - i,
    {
        if opt_key_eq(&sources[i].type_id, key) {
            return Some(i);
        }
        i += 1;
    }
    None
}

/// The gain percentage of an arrangement; a missing loudness means 100
/// (unity gain).
pub open spec fn spec_gain(a: Arrangement) -> int {
    match a.loudness {
        Some(p) => p as int,
        None => 100,
    }
}

/// One sample of an arrangement's final looped sequence after gain and the
/// linear fade envelope. `i` counts from the arrangement's start, `dur` is
/// the requested duration in samples. Both fades compound where the
/// duration is shorter than two fade windows.
pub open spec fn spec_envelope(a: Arrangement, s: int, i: int, dur: int) -> int {
    let g = spec_scale(s, spec_gain(a), 100);
    let g1 = if a.fade_in && i < FADE_SAMPLES {
        spec_scale(g, i, FADE_SAMPLES as int)
    } else {
        g
    };
    if a.fade_out && i >= dur - FADE_SAMPLES {
        spec_scale(g1, dur - i, FADE_SAMPLES as int)
    } else {
        g1
    }
}

/// First sample of a source's usable region.
pub open spec fn spec_cut_start(src: Source) -> int {
    spec_samples_of_ms(src.cut.start_ms as int)
}

/// One past the last sample of the usable region, clamped to the decoded
/// length.
pub open spec fn spec_cut_end(src: Source, decoded_len: int) -> int {
    let e = spec_samples_of_ms(src.cut.end_ms as int);
    if e < decoded_len {
        e
    } else {
        decoded_len
    }
}

/// A cut region is usable when it is nonempty after clamping.
pub open spec fn spec_cut_valid(src: Source, decoded_len: int) -> bool {
    spec_cut_start(src) < spec_cut_end(src, decoded_len)
}

/// The arrangement's placement, in samples from the record start.
pub open spec fn spec_offset_of(a: Arrangement, rec_start_ms: int) -> int {
    spec_offset_samples(a.playing_time.start_ms - rec_start_ms)
}

/// The arrangement's requested duration, in samples.
pub open spec fn spec_duration_of(a: Arrangement) -> int {
    spec_samples_of_ms(a.playing_time.end_ms - a.playing_time.start_ms)
}

/// What one arrangement adds to program buffer position `j`, given the
/// decoded audio of its source: zero outside the buffer, outside the
/// arrangement's window and for an invalid cut; otherwise the enveloped
/// sample of the looped cut region.
pub open spec fn spec_contrib_at(
    a: Arrangement,
    src: Source,
    samples: Seq<i64>,
    rec_start_ms: int,
    buf_len: int,
    j: int,
) -> int {
    let offset = spec_offset_of(a, rec_start_ms);
    let dur = spec_duration_of(a);
    let cs = spec_cut_start(src);
    let ce = spec_cut_end(src, samples.len() as int);
    if !spec_cut_valid(src, samples.len() as int) {
        0
    } else {
        let i = j - offset;
        if 0 <= j < buf_len && 0 <= i < dur {
            spec_envelope(a, samples[cs + (i % (ce - cs))] as int, i, dur)
        } else {
            0
        }
    }
}

/// What one arrangement adds at position `j` once its source reference is
/// resolved against the source list and the cache: zero when the source's
/// decode failed.
pub open spec fn spec_arrangement_contrib(
    a: Arrangement,
    sources: Seq<Source>,
    cache: Seq<Option<Seq<i64>>>,
    rec_start_ms: int,
    buf_len: int,
    j: int,
) -> int {
    let k = spec_resolved(sources, a);
    if 0 <= k < cache.len() && cache[k] is Some {
        spec_contrib_at(a, sources[k], cache[k]->0, rec_start_ms, buf_len, j)
    } else {
        0
    }
}

/// The additive mix of all arrangements at position `j`, in supply order.
pub open spec fn spec_mixed_at(
    arrs: Seq<Arrangement>,
    sources: Seq<Source>,
    cache: Seq<Option<Seq<i64>>>,
    rec_start_ms: int,
    buf_len: int,
    j: int,
) -> int
    decreases arrs.len(),
{
    if arrs.len() == 0 {
        0
    } else {
        spec_mixed_at(arrs.drop_last(), sources, cache, rec_start_ms, buf_len, j)
            + spec_arrangement_contrib(arrs.last(), sources, cache, rec_start_ms, buf_len, j)
    }
}

/// The whole mixed (not yet normalized) program buffer.
pub open spec fn spec_mixed_buffer(
    arrs: Seq<Arrangement>,
    sources: Seq<Source>,
    cache: Seq<Option<Seq<i64>>>,
    rec_start_ms: int,
    buf_len: int,
) -> Seq<int> {
    Seq::new(
        buf_len as nat,
        |j: int| spec_mixed_at(arrs, sources, cache, rec_start_ms, buf_len, j),
    )
}

/// The program buffer's length: the record window's duration in samples.
pub open spec fn spec_buffer_len(rec: TimeOfRecord) -> int {
    spec_samples_of_ms(rec.end_ms - rec.start_ms)
}

/// The complete render: the mix of all arrangements, normalized.
pub open spec fn spec_composite(
    arrs: Seq<Arrangement>,
    sources: Seq<Source>,
    cache: Seq<Option<Seq<i64>>>,
    rec: TimeOfRecord,
) -> Seq<int> {
    spec_normalize(
        spec_mixed_buffer(arrs, sources, cache, rec.start_ms as int, spec_buffer_len(rec)),
    )
}

/// All sources are well-formed.
pub open spec fn spec_sources_wf(sources: Seq<Source>) -> bool {
    forall|k: int| 0 <= k < sources.len() ==> (#[trigger] sources[k]).wf()
}

/// All arrangements are well-formed.
pub open spec fn spec_arrangements_wf(arrs: Seq<Arrangement>) -> bool {
    forall|n: int| 0 <= n < arrs.len() ==> (#[trigger] arrs[n]).wf()
}

/// Sample counts are never negative.
pub proof fn lemma_samples_nonneg(ms: int)
    ensures
        spec_samples_of_ms(ms) >= 0,
{
    if ms > 0 {
        lemma_div_pos_is_pos(
            ms * CANONICAL_SAMPLE_RATE + MS_PER_SECOND / 2,
            MS_PER_SECOND as int,
        );
    }
}

/// One enveloped sample: the looped cut-region sample `s` under the
/// arrangement's gain and fades at position `i` of `dur`.
fn envelope_sample(a: &Arrangement, s: i64, i: u64, dur: u64) -> (r: i64)
    requires
        abs(s as int) <= SAMPLE_UNIT,
        i < dur,
    ensures
        r as int == spec_envelope(*a, s as int, i as int, dur as int),
        abs(r as int) <= MAX_CONTRIBUTION,
{
    let gain: u64 = match a.loudness {
        Some(p) => p as u64,
        None => 100,
    };
    proof {
        lemma_scale_bound(s as int, gain as int, 100, SAMPLE_UNIT as int);
        lemma_mul_left_inequality(SAMPLE_UNIT as int, gain as int, u32::MAX as int);
        lemma_div_is_ordered(
            SAMPLE_UNIT * (gain as int),
            SAMPLE_UNIT * (u32::MAX as int),
            100,
        );
        assert(SAMPLE_UNIT * (u32::MAX as int) == 100 * 42_949_672_950_000);
        lemma_div_multiples_vanish(42_949_672_950_000, 100);
    }
    let g: i64 = scale_i64(s, gain, 100);
    let g1: i64 = if a.fade_in && i < FADE_SAMPLES as u64 {
        proof {
            lemma_scale_mag(g as int, i as int, FADE_SAMPLES as int);
            lemma_scale_shrink(g as int, i as int, FADE_SAMPLES as int);
        }
        scale_i64(g, i, FADE_SAMPLES as u64)
    } else {
        g
    };
    if a.fade_out && (dur < FADE_SAMPLES as u64 || i >= dur - FADE_SAMPLES as u64) {
        proof {
            lemma_scale_mag(g1 as int, dur - i, FADE_SAMPLES as int);
            lemma_scale_shrink(g1 as int, dur - i, FADE_SAMPLES as int);
        }
        scale_i64(g1, dur - i, FADE_SAMPLES as u64)
    } else {
        g1
    }
}

/// Mix one arrangement into the program buffer: its window is mapped onto
/// sample offsets, the source's cut region is trimmed, looped to fill the
/// requested duration, enveloped, and added sample by sample; writes
/// outside the buffer are clipped. An invalid cut region contributes
/// nothing.
fn apply_arrangement_to_buffer(
    buffer: &mut Vec<i64>,
    samples: &Vec<i64>,
    source: &Source,
    arrangement: &Arrangement,
    record_start_ms: i64,
    Ghost(pre_bound): Ghost<int>,
)
    requires
        source.wf(),
        arrangement.wf(),
        -MAX_TIME_MS <= record_start_ms <= MAX_TIME_MS,
        old(buffer)@.len() <= MAX_PROGRAM_SAMPLES,
        forall|i: int| 0 <= i < samples@.len() ==> abs(samples@[i] as int) <= SAMPLE_UNIT,
        forall|j: int| 0 <= j < old(buffer)@.len() ==> abs(old(buffer)@[j] as int) <= pre_bound,
        0 <= pre_bound,
        pre_bound + MAX_CONTRIBUTION <= i64::MAX,
    ensures
        final(buffer)@.len() == old(buffer)@.len(),
        forall|j: int|
            0 <= j < final(buffer)@.len() ==> final(buffer)@[j] as int == old(buffer)@[j]
                + spec_contrib_at(
                *arrangement,
                *source,
                samples@,
                record_start_ms as int,
                old(buffer)@.len() as int,
                j,
            ),
        forall|j: int|
            0 <= j < final(buffer)@.len() ==> abs(final(buffer)@[j] as int) <= pre_bound
                + MAX_CONTRIBUTION,
{
    let ghost old_buf = old(buffer)@;
    let ghost buf_len_g = old(buffer)@.len() as int;
    let buf_len: usize = buffer.len();
    let cs: u64 = samples_of_ms(source.cut.start_ms as i64);
    let ce_raw: u64 = samples_of_ms(source.cut.end_ms as i64);
    let n_samp: u64 = samples.len() as u64;
    let ce: u64 = if ce_raw > n_samp {
        n_samp
    } else {
        ce_raw
    };
    proof {
        lemma_samples_of_ms_bound(source.cut.start_ms as int);
        lemma_samples_of_ms_bound(source.cut.end_ms as int);
    }
    if cs >= ce {
        // invalid cut region: the arrangement is skipped, not an error
        return ;
    }
    let cl: u64 = ce - cs;
    let offset: i64 = offset_samples(arrangement.playing_time.start_ms - record_start_ms);
    let dur: u64 = samples_of_ms(
        arrangement.playing_time.end_ms - arrangement.playing_time.start_ms,
    );
    proof {
        lemma_offset_samples_bound(arrangement.playing_time.start_ms - record_start_ms as int);
        lemma_samples_of_ms_bound(
            arrangement.playing_time.end_ms - arrangement.playing_time.start_ms as int,
        );
    }
    let start_i: u64 = if offset < 0 {
        let skip: u64 = (-offset) as u64;
        if skip > dur {
            dur
        } else {
            skip
        }
    } else {
        0
    };
    let mut i: u64 = start_i;
    while i < dur && offset + (i as i64) < buf_len as i64
        invariant
            buffer@.len() == old_buf.len(),
            buf_len == old_buf.len(),
            buf_len_g == old_buf.len() as int,
            buf_len <= MAX_PROGRAM_SAMPLES,
            source.wf(),
            arrangement.wf(),
            -MAX_TIME_MS <= record_start_ms <= MAX_TIME_MS,
            forall|ii: int| 0 <= ii < samples@.len() ==> abs(samples@[ii] as int) <= SAMPLE_UNIT,
            forall|j: int| 0 <= j < buf_len_g ==> abs(old_buf[j] as int) <= pre_bound,
            0 <= pre_bound,
            pre_bound + MAX_CONTRIBUTION <= i64::MAX,
            cs as int == spec_cut_start(*source),
            ce as int == spec_cut_end(*source, samples@.len() as int),
            cs < ce,
            spec_cut_valid(*source, samples@.len() as int),
            cl == ce - cs,
            ce <= samples@.len(),
            samples@.len() <= usize::MAX,
            offset as int == spec_offset_of(*arrangement, record_start_ms as int),
            -MAX_PROGRAM_SAMPLES <= offset as int <= MAX_PROGRAM_SAMPLES,
            dur as int == spec_duration_of(*arrangement),
            dur <= MAX_PROGRAM_SAMPLES,
            start_i <= i <= dur,
            offset < 0 ==> i >= start_i >= if -offset > dur {
                dur as int
            } else {
                -offset
            },
            offset >= 0 ==> start_i == 0,
            forall|j: int|
                0 <= j < buf_len_g && offset <= j < offset + i ==> buffer@[j] as int == old_buf[j]
                    + spec_contrib_at(
                    *arrangement,
                    *source,
                    samples@,
                    record_start_ms as int,
                    buf_len_g,
                    j,
                ),
            forall|j: int|
                0 <= j < buf_len_g && !(offset <= j < offset + i) ==> buffer@[j] == old_buf[j],
            forall|j: int| 0 <= j < buf_len_g ==> abs(buffer@[j] as int) <= pre_bound
                + MAX_CONTRIBUTION,
        decreases dur - i,
    {
        let target: i64 = offset + (i as i64);
        let j: usize = target as usize;
        proof {
            lemma_mod_division_less_than_divisor(i as int, cl as int);
            lemma_div_pos_is_pos(i as int, cl as int);
        }
        let idx: u64 = cs + (i % cl);
        proof {
            assert(idx < ce);
            assert(idx <= usize::MAX);
        }
        let s: i64 = samples[idx as usize];
        let v: i64 = envelope_sample(arrangement, s, i, dur);
        let cur: i64 = buffer[j];
        proof {
            assert(buffer@[j as int] == old_buf[j as int]);
            assert(j as int == offset + i);
            assert(spec_contrib_at(
                *arrangement,
                *source,
                samples@,
                record_start_ms as int,
                buf_len_g,
                j as int,
            ) == v as int);
        }
        let mixed: i64 = cur + v;
        buffer[j] = mixed;
        i += 1;
    }
    proof {
        assert forall|j: int|
            0 <= j < buf_len_g && !(offset <= j < offset + i) implies old_buf[j]
            + spec_contrib_at(
            *arrangement,
            *source,
            samples@,
            record_start_ms as int,
            buf_len_g,
            j,
        ) == buffer@[j] as int by {
            assert(spec_contrib_at(
                *arrangement,
                *source,
                samples@,
                record_start_ms as int,
                buf_len_g,
                j,
            ) == 0);
        }
    }
}

/// Appending one arrangement to a prefix mixes in exactly its
/// contribution.
pub proof fn lemma_mixed_at_take_step(
    arrs: Seq<Arrangement>,
    sources: Seq<Source>,
    cache: Seq<Option<Seq<i64>>>,
    rec_start_ms: int,
    buf_len: int,
    n: int,
    j: int,
)
    requires
        0 <= n < arrs.len(),
    ensures
        spec_mixed_at(arrs.take(n + 1), sources, cache, rec_start_ms, buf_len, j) == spec_mixed_at(
            arrs.take(n),
            sources,
            cache,
            rec_start_ms,
            buf_len,
            j,
        ) + spec_arrangement_contrib(arrs[n], sources, cache, rec_start_ms, buf_len, j),
{
    assert(arrs.take(n + 1).drop_last() =~= arrs.take(n));
    assert(arrs.take(n + 1).last() == arrs[n]);
}

/// One sample of a standalone faded signal: a linear ramp over the first
/// `fade` samples when fading in, and over the last `fade` when fading
/// out. Either fade applies only when the signal is longer than the fade
/// window.
pub open spec fn spec_faded(s: Seq<i64>, fade_in: bool, fade_out: bool, fade: int, j: int) -> int {
    let v = s[j] as int;
    let v1 = if fade_in && s.len() > fade && j < fade {
        spec_scale(v, j, fade)
    } else {
        v
    };
    if fade_out && s.len() > fade && j >= s.len() - fade {
        spec_scale(v1, s.len() - j, fade)
    } else {
        v1
    }
}

/// Apply linear fade-in and fade-out ramps to a signal in place.
pub fn apply_fade_effects(
    samples: &mut Vec<i64>,
    fade_in: bool,
    fade_out: bool,
    fade_duration_samples: usize,
)
    requires
        fade_duration_samples > 0,
        forall|j: int| 0 <= j < old(samples)@.len() ==> -i64::MAX <= #[trigger] old(samples)@[j],
    ensures
        final(samples)@.len() == old(samples)@.len(),
        forall|j: int|
            0 <= j < final(samples)@.len() ==> #[trigger] final(samples)@[j] as int == spec_faded(
                old(samples)@,
                fade_in,
                fade_out,
                fade_duration_samples as int,
                j,
            ),
{
    let len: usize = samples.len();
    let fade: usize = fade_duration_samples;
    let ghost s0 = old(samples)@;
    if fade_in && len > fade {
        let mut j: usize = 0;
        while j < fade
            invariant
                j <= fade < len,
                fade > 0,
                samples@.len() == len,
                len == s0.len(),
                forall|i: int| 0 <= i < len ==> -i64::MAX <= #[trigger] s0[i],
                forall|i: int| j <= i < len ==> samples@[i] == s0[i],
                forall|i: int| 0 <= i < len ==> -i64::MAX <= #[trigger] samples@[i],
                forall|i: int|
                    0 <= i < j ==> samples@[i] as int == spec_scale(
                        s0[i] as int,
                        i,
                        fade as int,
                    ),
            decreases fade - j,
        {
            let v: i64 = samples[j];
            proof {
                lemma_scale_mag(v as int, j as int, fade as int);
                lemma_scale_shrink(v as int, j as int, fade as int);
            }
            let w: i64 = scale_i64(v, j as u64, fade as u64);
            samples[j] = w;
            j += 1;
        }
    }
    let ghost s1 = samples@;
    if fade_out && len > fade {
        let start_fade: usize = len - fade;
        let mut j: usize = start_fade;
        while j < len
            invariant
                start_fade <= j <= len,
                start_fade == len - fade,
                fade > 0,
                len > fade,
                samples@.len() == len,
                len == s1.len(),
                forall|i: int| 0 <= i < len ==> -i64::MAX <= #[trigger] s1[i],
                forall|i: int| j <= i < len ==> samples@[i] == s1[i],
                forall|i: int| 0 <= i < len ==> -i64::MAX <= #[trigger] samples@[i],
                forall|i: int| 0 <= i < start_fade ==> samples@[i] == s1[i],
                forall|i: int|
                    start_fade <= i < j ==> #[trigger] samples@[i] as int == spec_scale(
                        s1[i] as int,
                        len - i,
                        fade as int,
                    ),
            decreases len - j,
        {
            let v: i64 = samples[j];
            proof {
                lemma_scale_mag(v as int, len - j, fade as int);
                lemma_scale_shrink(v as int, len - j, fade as int);
            }
            let w: i64 = scale_i64(v, (len - j) as u64, fade as u64);
            samples[j] = w;
            j += 1;
        }
    }
    proof {
        assert forall|j: int| 0 <= j < samples@.len() implies #[trigger] samples@[j] as int
            == spec_faded(s0, fade_in, fade_out, fade as int, j) by {
            if fade_in && len > fade && j < fade {
                assert(s1[j] as int == spec_scale(s0[j] as int, j, fade as int));
            } else {
                assert(s1[j] == s0[j]);
            }
            if fade_out && len > fade && j >= len - fade {
                assert(samples@[j] as int == spec_scale(s1[j] as int, len - j, fade as int));
            } else {
                assert(samples@[j] == s1[j]);
            }
        }
    }
}

/// A silent program buffer of the requested length.
fn zero_buffer(len: usize) -> (r: Vec<i64>)
    ensures
        r@.len() == len,
        forall|j: int| 0 <= j < len ==> r@[j] == 0i64,
{
    let mut out: Vec<i64> = Vec::new();
    let mut j: usize = 0;
    while j < len
        invariant
            j <= len,
            out@.len() == j,
            forall|i: int| 0 <= i < j ==> out@[i] == 0i64,
        decreases len - j,
    {
        out.push(0i64);
        j += 1;
    }
    out
}

/// The render engine. It carries the canonical sample rate every decoded
/// signal is normalized to.
pub struct AudioProcessor {
    sample_rate: u64,
}

impl AudioProcessor {
    /// The processor's rate is the canonical one.
    pub closed spec fn wf(self) -> bool {
        self.sample_rate == CANONICAL_SAMPLE_RATE
    }

    /// A processor at the canonical sample rate.
    pub fn new() -> (p: AudioProcessor)
        ensures
            p.wf(),
    {
        AudioProcessor { sample_rate: CANONICAL_SAMPLE_RATE }
    }

    /// The canonical sample rate.
    pub fn sample_rate(&self) -> (r: u64)
        ensures
            self.wf() ==> r == CANONICAL_SAMPLE_RATE,
    {
        self.sample_rate
    }

    /// Decode every source once into the per-render cache, reporting
    /// loading progress. A failed decode is non-fatal: its slot stays
    /// empty and arrangements referencing it contribute silence.
    pub fn build_cache<D: AudioDecoder, S: ProgressSink>(
        &self,
        record_name: &str,
        sources: &Vec<Source>,
        decoder: &mut D,
        sink: &mut S,
    ) -> (cache: SourceCache)
        ensures
            cache.wf(),
            cache@.len() == sources@.len(),
    {
        let mut cache = SourceCache::new();
        let n_sources = sources.len();
        let mut si: usize = 0;
        while si < n_sources
            invariant
                si <= n_sources,
                n_sources == sources@.len(),
                cache.wf(),
                cache@.len() == si,
            decreases n_sources - si,
        {
            let event = ExportProgress {
                stage: ProgressStage::Loading,
                progress: loading_progress(si, n_sources),
                message: "decoding ".to_owned().concat(sources[si].title.as_str()),
                record_name: Some(record_name.to_owned()),
            };
            sink.emit(event);
            match decoder.decode(sources[si].file_path.as_str()) {
                Ok(raw) => {
                    let clamped = clamp_samples(raw);
                    cache.push_decoded(clamped);
                },
                Err(_) => {
                    // non-fatal: the source stays absent from the cache
                    cache.push_missing();
                },
            }
            si += 1;
        }
        cache
    }

    /// Mix every arrangement into a fresh program buffer in supply order,
    /// over an already-built cache, and normalize the result: the
    /// deterministic half of a render. The returned buffer is a function
    /// of nothing but the inputs.
    ///
    /// Returns `Err(SourceNotFound)` exactly when some arrangement's
    /// reference matches no source; an absent cache slot or an invalid cut
    /// region only silences the arrangements involved.
    pub fn composite_record<S: ProgressSink>(
        &self,
        record_name: &str,
        arrangements: &Vec<Arrangement>,
        time_record: &TimeOfRecord,
        sources: &Vec<Source>,
        cache: &SourceCache,
        sink: &mut S,
    ) -> (result: Result<Vec<i64>, AudioError>)
        requires
            self.wf(),
            time_record.wf(),
            spec_sources_wf(sources@),
            spec_arrangements_wf(arrangements@),
            arrangements@.len() <= MAX_ARRANGEMENTS,
            cache.wf(),
            cache@.len() == sources@.len(),
        ensures
            match result {
                Ok(buf) => {
                    &&& spec_all_resolvable(arrangements@, sources@)
                    &&& buf@.len() == spec_buffer_len(*time_record)
                    &&& spec_as_ints(buf@) == spec_composite(
                        arrangements@,
                        sources@,
                        cache@,
                        *time_record,
                    )
                },
                Err(e) => {
                    &&& e is SourceNotFound
                    &&& !spec_all_resolvable(arrangements@, sources@)
                },
            },
    {
        let rec_start: i64 = time_record.start_ms;
        let dur_u: u64 = samples_of_ms(time_record.end_ms - time_record.start_ms);
        proof {
            lemma_samples_of_ms_bound(time_record.end_ms - time_record.start_ms as int);
        }
        let total_samples: usize = dur_u as usize;
        let mut buffer: Vec<i64> = zero_buffer(total_samples);
        let ghost cache_view = cache@;

        let start_event = ExportProgress {
            stage: ProgressStage::Processing,
            progress: 30,
            message: "processing arrangements".to_owned(),
            record_name: Some(record_name.to_owned()),
        };
        sink.emit(start_event);

        let n_arr = arrangements.len();
        let mut ai: usize = 0;
        while ai < n_arr
            invariant
                ai <= n_arr,
                n_arr == arrangements@.len(),
                n_arr <= MAX_ARRANGEMENTS,
                buffer@.len() == total_samples,
                total_samples as int == spec_buffer_len(*time_record),
                total_samples <= MAX_PROGRAM_SAMPLES,
                cache.wf(),
                cache@ == cache_view,
                cache_view.len() == sources@.len(),
                spec_sources_wf(sources@),
                spec_arrangements_wf(arrangements@),
                rec_start == time_record.start_ms,
                -MAX_TIME_MS <= rec_start <= MAX_TIME_MS,
                forall|n0: int|
                    0 <= n0 < ai ==> spec_resolved(sources@, #[trigger] arrangements@[n0]) >= 0,
                forall|j: int|
                    0 <= j < buffer@.len() ==> #[trigger] buffer@[j] as int == spec_mixed_at(
                        arrangements@.take(ai as int),
                        sources@,
                        cache_view,
                        rec_start as int,
                        total_samples as int,
                        j,
                    ),
                forall|j: int|
                    0 <= j < buffer@.len() ==> abs(#[trigger] buffer@[j] as int) <= ai
                        * MAX_CONTRIBUTION,
            decreases n_arr - ai,
        {
            let event = ExportProgress {
                stage: ProgressStage::Processing,
                progress: processing_progress(ai, n_arr),
                message: "mixing arrangement".to_owned(),
                record_name: Some(record_name.to_owned()),
            };
            sink.emit(event);
            let arr = &arrangements[ai];
            let found = find_source(sources, &arr.type_id);
            proof {
                lemma_find_from_props(sources@, spec_key(arr.type_id), 0);
            }
            match found {
                None => {
                    proof {
                        assert(spec_resolved(sources@, arrangements@[ai as int]) == -1);
                    }
                    return Err(AudioError::SourceNotFound);
                },
                Some(k) => {
                    proof {
                        assert((ai as int + 1) * MAX_CONTRIBUTION <= MAX_ARRANGEMENTS
                            * MAX_CONTRIBUTION) by {
                            lemma_mul_inequality(
                                ai as int + 1,
                                MAX_ARRANGEMENTS as int,
                                MAX_CONTRIBUTION as int,
                            );
                        }
                        assert(ai * MAX_CONTRIBUTION >= 0) by {
                            lemma_mul_nonnegative(ai as int, MAX_CONTRIBUTION as int);
                        }
                    }
                    match cache.get(k) {
                        Some(samples) => {
                            proof {
                                assert(cache_view[k as int] == Some(samples@));
                                assert forall|i: int| 0 <= i < samples@.len() implies abs(
                                    #[trigger] samples@[i] as int,
                                ) <= SAMPLE_UNIT by {
                                    assert(cache_bounded(cache_view));
                                    assert(cache_view[k as int]->0[i] == samples@[i]);
                                }
                            }
                            apply_arrangement_to_buffer(
                                &mut buffer,
                                samples,
                                &sources[k],
                                arr,
                                rec_start,
                                Ghost((ai as int) * (MAX_CONTRIBUTION as int)),
                            );
                            proof {
                                assert forall|j: int| 0 <= j < buffer@.len() implies #[trigger]
                                buffer@[j] as int == spec_mixed_at(
                                    arrangements@.take(ai as int + 1),
                                    sources@,
                                    cache_view,
                                    rec_start as int,
                                    total_samples as int,
                                    j,
                                ) by {
                                    lemma_mixed_at_take_step(
                                        arrangements@,
                                        sources@,
                                        cache_view,
                                        rec_start as int,
                                        total_samples as int,
                                        ai as int,
                                        j,
                                    );
                                    assert(spec_arrangement_contrib(
                                        arrangements@[ai as int],
                                        sources@,
                                        cache_view,
                                        rec_start as int,
                                        total_samples as int,
                                        j,
                                    ) == spec_contrib_at(
                                        *arr,
                                        sources@[k as int],
                                        samples@,
                                        rec_start as int,
                                        total_samples as int,
                                        j,
                                    ));
                                }
                            }
                        },
                        None => {
                            proof {
                                assert forall|j: int| 0 <= j < buffer@.len() implies #[trigger]
                                buffer@[j] as int == spec_mixed_at(
                                    arrangements@.take(ai as int + 1),
                                    sources@,
                                    cache_view,
                                    rec_start as int,
                                    total_samples as int,
                                    j,
                                ) by {
                                    lemma_mixed_at_take_step(
                                        arrangements@,
                                        sources@,
                                        cache_view,
                                        rec_start as int,
                                        total_samples as int,
                                        ai as int,
                                        j,
                                    );
                                    assert(spec_arrangement_contrib(
                                        arrangements@[ai as int],
                                        sources@,
                                        cache_view,
                                        rec_start as int,
                                        total_samples as int,
                                        j,
                                    ) == 0);
                                }
                            }
                        },
                    }
                },
            }
            ai += 1;
        }
        proof {
            assert(arrangements@.take(n_arr as int) =~= arrangements@);
            assert((n_arr as int) * (MAX_CONTRIBUTION as int) <= MAX_ARRANGEMENTS
                * MAX_CONTRIBUTION) by {
                lemma_mul_inequality(n_arr as int, MAX_ARRANGEMENTS as int, MAX_CONTRIBUTION as int);
            }
        }

        let norm_event = ExportProgress {
            stage: ProgressStage::Processing,
            progress: 90,
            message: "normalizing audio".to_owned(),
            record_name: Some(record_name.to_owned()),
        };
        sink.emit(norm_event);

        let ghost pre_norm = buffer@;
        normalize_audio(&mut buffer);
        proof {
            assert(spec_as_ints(pre_norm) =~= spec_mixed_buffer(
                arrangements@,
                sources@,
                cache_view,
                rec_start as int,
                total_samples as int,
            ));
            assert(cache_bounded(cache_view));
            assert(spec_as_ints(buffer@) == spec_composite(
                arrangements@,
                sources@,
                cache_view,
                *time_record,
            ));
        }
        Ok(buffer)
    }

    /// Render one record: decode and cache the sources, then composite and
    /// normalize.
    ///
    /// Returns `Err(SourceNotFound)` exactly when some arrangement's
    /// reference matches no source; a failed decode or an invalid cut
    /// region only silences the arrangements involved. On success the
    /// buffer is the composite over the decoded audio the decoder
    /// produced, clamped to the canonical amplitude domain.
    pub fn render_record<D: AudioDecoder, S: ProgressSink>(
        &self,
        record_name: &str,
        arrangements: &Vec<Arrangement>,
        time_record: &TimeOfRecord,
        sources: &Vec<Source>,
        decoder: &mut D,
        sink: &mut S,
    ) -> (result: Result<Vec<i64>, AudioError>)
        requires
            self.wf(),
            time_record.wf(),
            spec_sources_wf(sources@),
            spec_arrangements_wf(arrangements@),
            arrangements@.len() <= MAX_ARRANGEMENTS,
        ensures
            match result {
                Ok(buf) => {
                    &&& spec_all_resolvable(arrangements@, sources@)
                    &&& buf@.len() == spec_buffer_len(*time_record)
                    &&& exists|cache: Seq<Option<Seq<i64>>>|
                        {
                            &&& #[trigger] cache_bounded(cache)
                            &&& cache.len() == sources@.len()
                            &&& spec_as_ints(buf@) == spec_composite(
                                arrangements@,
                                sources@,
                                cache,
                                *time_record,
                            )
                        }
                },
                Err(e) => {
                    &&& e is SourceNotFound
                    &&& !spec_all_resolvable(arrangements@, sources@)
                },
            },
    {
        let cache = self.build_cache(record_name, sources, decoder, sink);
        let result = self.composite_record(
            record_name,
            arrangements,
            time_record,
            sources,
            &cache,
            sink,
        );
        proof {
            if result is Ok {
                assert(cache_bounded(cache@));
            }
        }
        result
    }
}


} // verus!
