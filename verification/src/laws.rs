//! Global laws of the compositor, proved from the same specifications its
//! executable functions are verified against: silence in, silence out; the
//! mix is independent of arrangement order; an arrangement's contribution
//! is its cut region looped whole, enveloped afterwards; normalization is
//! the identity under the limit and lands exactly on the target above it;
//! and an empty cut region contributes nothing.

use vstd::prelude::*;
use vstd::arithmetic::div_mod::{
    lemma_div_multiples_vanish, lemma_div_pos_is_pos, lemma_fundamental_div_mod,
    lemma_mod_division_less_than_divisor, lemma_mod_multiples_vanish, lemma_small_mod,
};
use vstd::arithmetic::mul::{lemma_mul_inequality, lemma_mul_is_commutative};
use vstd::math::abs;
use crate::compositor::{
    lemma_samples_nonneg, spec_all_resolvable, spec_arrangement_contrib, spec_buffer_len,
    spec_composite, spec_contrib_at, spec_cut_end, spec_cut_start, spec_cut_valid,
    spec_duration_of, spec_envelope, spec_gain, spec_mixed_at, spec_mixed_buffer, spec_offset_of,
    spec_resolved,
};
use crate::normalize::{
    lemma_peak_attained, lemma_peak_ge, lemma_peak_le, lemma_peak_nonneg, spec_normalize,
    spec_peak,
};
use crate::timing::{
    lemma_samples_of_ms_monotone, lemma_scale_bound, lemma_scale_exact, lemma_scale_zero,
    spec_scale,
};
use crate::types::{
    Arrangement, Source, TimeOfRecord, FADE_SAMPLES, NORMALIZE_TARGET, PEAK_LIMIT,
};

verus! {

/// Every cached sample is silent.
pub open spec fn spec_cache_silent(cache: Seq<Option<Seq<i64>>>) -> bool {
    forall|k: int, i: int|
        0 <= k < cache.len() && cache[k] is Some && 0 <= i < cache[k]->0.len() ==> cache[k]->0[i]
            == 0i64
}

/// The envelope of a silent sample is silent.
proof fn lemma_envelope_zero(a: Arrangement, i: int, dur: int)
    requires
        0 <= i < dur,
    ensures
        spec_envelope(a, 0, i, dur) == 0,
{
    lemma_scale_zero(spec_gain(a), 100);
    if a.fade_in && i < FADE_SAMPLES {
        lemma_scale_zero(i, FADE_SAMPLES as int);
    }
    if a.fade_out && i >= dur - FADE_SAMPLES {
        lemma_scale_zero(dur - i, FADE_SAMPLES as int);
    }
}

/// A silent source contributes silence everywhere.
proof fn lemma_contrib_silent(
    a: Arrangement,
    src: Source,
    samples: Seq<i64>,
    rec_start_ms: int,
    buf_len: int,
    j: int,
)
    requires
        forall|i: int| 0 <= i < samples.len() ==> #[trigger] samples[i] == 0i64,
    ensures
        spec_contrib_at(a, src, samples, rec_start_ms, buf_len, j) == 0,
{
    if spec_cut_valid(src, samples.len() as int) {
        let offset = spec_offset_of(a, rec_start_ms);
        let dur = spec_duration_of(a);
        let i = j - offset;
        if 0 <= j < buf_len && 0 <= i < dur {
            let cs = spec_cut_start(src);
            let ce = spec_cut_end(src, samples.len() as int);
            lemma_samples_nonneg(src.cut.start_ms as int);
            lemma_mod_division_less_than_divisor(i, ce - cs);
            assert(samples[cs + (i % (ce - cs))] == 0i64);
            lemma_envelope_zero(a, i, dur);
        }
    }
}

/// With a silent cache, the whole mix is silent.
proof fn lemma_mixed_silent(
    arrs: Seq<Arrangement>,
    sources: Seq<Source>,
    cache: Seq<Option<Seq<i64>>>,
    rec_start_ms: int,
    buf_len: int,
    j: int,
)
    requires
        spec_cache_silent(cache),
    ensures
        spec_mixed_at(arrs, sources, cache, rec_start_ms, buf_len, j) == 0,
    decreases arrs.len(),
{
    if arrs.len() > 0 {
        lemma_mixed_silent(arrs.drop_last(), sources, cache, rec_start_ms, buf_len, j);
        let a = arrs.last();
        let k = spec_resolved(sources, a);
        if 0 <= k < cache.len() && cache[k] is Some {
            assert forall|i: int| 0 <= i < cache[k]->0.len() implies #[trigger] cache[k]->0[i]
                == 0i64 by {}
            lemma_contrib_silent(a, sources[k], cache[k]->0, rec_start_ms, buf_len, j);
        }
    }
}

/// For silent (all-zero) sources the composited buffer is all zero, and
/// normalization is a no-op.
pub proof fn lemma_silent_sources_silent_render(
    arrs: Seq<Arrangement>,
    sources: Seq<Source>,
    cache: Seq<Option<Seq<i64>>>,
    rec: TimeOfRecord,
)
    requires
        spec_cache_silent(cache),
    ensures
        forall|j: int|
            0 <= j < spec_buffer_len(rec) ==> #[trigger] spec_mixed_buffer(
                arrs,
                sources,
                cache,
                rec.start_ms as int,
                spec_buffer_len(rec),
            )[j] == 0,
        spec_composite(arrs, sources, cache, rec) == spec_mixed_buffer(
            arrs,
            sources,
            cache,
            rec.start_ms as int,
            spec_buffer_len(rec),
        ),
{
    let bl = spec_buffer_len(rec);
    lemma_samples_nonneg(rec.end_ms - rec.start_ms);
    let m = spec_mixed_buffer(arrs, sources, cache, rec.start_ms as int, bl);
    assert forall|j: int| 0 <= j < bl implies #[trigger] m[j] == 0 by {
        lemma_mixed_silent(arrs, sources, cache, rec.start_ms as int, bl, j);
    }
    assert forall|j: int| 0 <= j < m.len() implies abs(#[trigger] m[j]) <= 0 by {}
    lemma_peak_le(m, 0);
    lemma_peak_nonneg(m);
}

/// Removing one arrangement removes exactly its contribution from the mix.
proof fn lemma_mixed_at_remove(
    arrs: Seq<Arrangement>,
    sources: Seq<Source>,
    cache: Seq<Option<Seq<i64>>>,
    rec_start_ms: int,
    buf_len: int,
    n: int,
    j: int,
)
    requires
        0 <= n < arrs.len(),
    ensures
        spec_mixed_at(arrs, sources, cache, rec_start_ms, buf_len, j) == spec_mixed_at(
            arrs.remove(n),
            sources,
            cache,
            rec_start_ms,
            buf_len,
            j,
        ) + spec_arrangement_contrib(arrs[n], sources, cache, rec_start_ms, buf_len, j),
    decreases arrs.len(),
{
    if n == arrs.len() - 1 {
        assert(arrs.remove(n) =~= arrs.drop_last());
    } else {
        let prefix = arrs.drop_last();
        lemma_mixed_at_remove(prefix, sources, cache, rec_start_ms, buf_len, n, j);
        assert(arrs.remove(n).drop_last() =~= prefix.remove(n));
        assert(arrs.remove(n).last() == arrs.last());
    }
}

/// The mix is the same for any two arrangement lists that are permutations
/// of one another.
pub proof fn lemma_mixed_at_permutation(
    a1: Seq<Arrangement>,
    a2: Seq<Arrangement>,
    sources: Seq<Source>,
    cache: Seq<Option<Seq<i64>>>,
    rec_start_ms: int,
    buf_len: int,
    j: int,
)
    requires
        a1.to_multiset() == a2.to_multiset(),
    ensures
        spec_mixed_at(a1, sources, cache, rec_start_ms, buf_len, j) == spec_mixed_at(
            a2,
            sources,
            cache,
            rec_start_ms,
            buf_len,
            j,
        ),
    decreases a1.len(),
{
    broadcast use vstd::seq_lib::group_to_multiset_ensures;

    if a1.len() == 0 {
        assert(a1.to_multiset().len() == a1.len());
        assert(a2.to_multiset().len() == a2.len());
        assert(a2.len() == 0);
    } else {
        let x = a1.last();
        assert(a1.contains(x));
        assert(a2.to_multiset().count(x) > 0);
        assert(a2.contains(x));
        let i = choose|i: int| 0 <= i < a2.len() && a2[i] == x;
        lemma_mixed_at_remove(a2, sources, cache, rec_start_ms, buf_len, i, j);
        assert(a1.remove(a1.len() - 1) =~= a1.drop_last());
        assert(a1.drop_last().to_multiset() =~= a1.to_multiset().remove(x));
        assert(a2.remove(i).to_multiset() =~= a2.to_multiset().remove(x));
        lemma_mixed_at_permutation(
            a1.drop_last(),
            a2.remove(i),
            sources,
            cache,
            rec_start_ms,
            buf_len,
            j,
        );
    }
}

/// Rendering arrangements in any permutation yields the same buffer, and
/// fails for the one exactly when it fails for the other.
pub proof fn lemma_render_order_independent(
    a1: Seq<Arrangement>,
    a2: Seq<Arrangement>,
    sources: Seq<Source>,
    cache: Seq<Option<Seq<i64>>>,
    rec: TimeOfRecord,
)
    requires
        a1.to_multiset() == a2.to_multiset(),
    ensures
        spec_all_resolvable(a1, sources) == spec_all_resolvable(a2, sources),
        spec_composite(a1, sources, cache, rec) == spec_composite(a2, sources, cache, rec),
{
    broadcast use vstd::seq_lib::group_to_multiset_ensures;

    if spec_all_resolvable(a1, sources) {
        lemma_all_resolvable_permutation(a1, a2, sources);
    }
    if spec_all_resolvable(a2, sources) {
        lemma_all_resolvable_permutation(a2, a1, sources);
    }
    let bl = spec_buffer_len(rec);
    let m1 = spec_mixed_buffer(a1, sources, cache, rec.start_ms as int, bl);
    let m2 = spec_mixed_buffer(a2, sources, cache, rec.start_ms as int, bl);
    assert(m1 =~= m2) by {
        assert forall|j: int| 0 <= j < bl implies #[trigger] m1[j] == m2[j] by {
            lemma_mixed_at_permutation(a1, a2, sources, cache, rec.start_ms as int, bl, j);
        }
    }
}

/// Resolvability of every arrangement carries over to any permutation.
proof fn lemma_all_resolvable_permutation(
    a1: Seq<Arrangement>,
    a2: Seq<Arrangement>,
    sources: Seq<Source>,
)
    requires
        a1.to_multiset() == a2.to_multiset(),
        spec_all_resolvable(a1, sources),
    ensures
        spec_all_resolvable(a2, sources),
{
    broadcast use vstd::seq_lib::group_to_multiset_ensures;

    assert forall|n: int| 0 <= n < a2.len() implies spec_resolved(sources, #[trigger] a2[n])
        >= 0 by {
        assert(a2.contains(a2[n]));
        assert(a1.to_multiset().count(a2[n]) > 0);
        assert(a1.contains(a2[n]));
        let m = choose|m: int| 0 <= m < a1.len() && a1[m] == a2[n];
        assert(spec_resolved(sources, a1[m]) >= 0);
    }
}

/// The cut region repeated `n` times.
pub open spec fn spec_repeat(cut: Seq<i64>, n: nat) -> Seq<i64>
    decreases n,
{
    if n == 0 {
        Seq::empty()
    } else {
        spec_repeat(cut, (n - 1) as nat) + cut
    }
}

/// The looped source sequence an arrangement plays: `d` samples cycling
/// through the cut region.
pub open spec fn spec_loop_samples(cut: Seq<i64>, d: int) -> Seq<i64> {
    Seq::new(d as nat, |i: int| cut[i % (cut.len() as int)])
}

proof fn lemma_repeat_len(cut: Seq<i64>, n: nat)
    ensures
        spec_repeat(cut, n).len() == n * cut.len(),
    decreases n,
{
    if n == 0 {
        assert(n * cut.len() == 0) by (nonlinear_arith)
            requires
                n == 0,
        ;
    } else {
        lemma_repeat_len(cut, (n - 1) as nat);
        assert(((n - 1) as nat) * cut.len() + cut.len() == n * cut.len()) by (nonlinear_arith)
            requires
                n > 0,
        ;
    }
}

proof fn lemma_repeat_index(cut: Seq<i64>, n: nat, i: int)
    requires
        cut.len() > 0,
        0 <= i < n * cut.len(),
    ensures
        spec_repeat(cut, n)[i] == cut[i % (cut.len() as int)],
    decreases n,
{
    let len = cut.len() as int;
    lemma_repeat_len(cut, n);
    assert((n - 1) * len == n * len - len) by (nonlinear_arith);
    lemma_repeat_len(cut, (n - 1) as nat);
    if i < (n - 1) * len {
        lemma_repeat_index(cut, (n - 1) as nat, i);
    } else {
        let r = i - (n - 1) * len;
        assert(spec_repeat(cut, n)[i] == cut[r]);
        lemma_mod_multiples_vanish(n - 1, r, len);
        lemma_small_mod(r as nat, len as nat);
    }
}

/// An arrangement whose cut region has `L` samples and whose requested
/// duration is `d` plays the cut region repeated `ceil(d / L)` times,
/// truncated to `d` samples.
pub proof fn lemma_looping_reproduces_cut(cut: Seq<i64>, d: int)
    requires
        cut.len() > 0,
        d >= 0,
    ensures
        spec_loop_samples(cut, d) == spec_repeat(
            cut,
            (((d + cut.len() - 1) / (cut.len() as int)) as nat),
        ).take(d),
{
    let len = cut.len() as int;
    let n = (d + len - 1) / len;
    lemma_div_pos_is_pos(d + len - 1, len);
    lemma_fundamental_div_mod(d + len - 1, len);
    lemma_mod_division_less_than_divisor(d + len - 1, len);
    assert(len * n >= d);
    lemma_repeat_len(cut, n as nat);
    assert(n * len == len * n) by (nonlinear_arith);
    let rep = spec_repeat(cut, n as nat).take(d);
    assert(spec_loop_samples(cut, d) =~= rep) by {
        assert forall|i: int| 0 <= i < d implies spec_loop_samples(cut, d)[i] == #[trigger] rep[i] by {
            lemma_repeat_index(cut, n as nat, i);
        }
    }
}

/// Inside its window, an arrangement's contribution is the enveloped
/// sample of that looped sequence: gain and fades apply to the final
/// looped sequence, never per loop iteration.
pub proof fn lemma_contrib_is_enveloped_loop(
    a: Arrangement,
    src: Source,
    samples: Seq<i64>,
    rec_start_ms: int,
    buf_len: int,
    j: int,
)
    requires
        spec_cut_valid(src, samples.len() as int),
        0 <= j < buf_len,
        spec_offset_of(a, rec_start_ms) <= j < spec_offset_of(a, rec_start_ms) + spec_duration_of(
            a,
        ),
    ensures
        spec_contrib_at(a, src, samples, rec_start_ms, buf_len, j) == spec_envelope(
            a,
            spec_loop_samples(
                samples.subrange(
                    spec_cut_start(src),
                    spec_cut_end(src, samples.len() as int),
                ),
                spec_duration_of(a),
            )[j - spec_offset_of(a, rec_start_ms)] as int,
            j - spec_offset_of(a, rec_start_ms),
            spec_duration_of(a),
        ),
{
    let cs = spec_cut_start(src);
    let ce = spec_cut_end(src, samples.len() as int);
    let i = j - spec_offset_of(a, rec_start_ms);
    lemma_samples_nonneg(src.cut.start_ms as int);
    lemma_mod_division_less_than_divisor(i, ce - cs);
    let sub = samples.subrange(cs, ce);
    assert(sub[i % (ce - cs)] == samples[cs + (i % (ce - cs))]);
}

/// Normalization leaves a buffer whose peak is within the limit untouched.
pub proof fn lemma_normalize_identity(s: Seq<int>)
    requires
        spec_peak(s) <= PEAK_LIMIT,
    ensures
        spec_normalize(s) == s,
{
}

/// Above the limit, every sample is scaled by the same factor
/// `NORMALIZE_TARGET / peak`, and the resulting peak is exactly
/// `NORMALIZE_TARGET`.
pub proof fn lemma_normalize_peak(s: Seq<int>)
    requires
        spec_peak(s) > PEAK_LIMIT,
    ensures
        spec_normalize(s).len() == s.len(),
        forall|j: int|
            0 <= j < s.len() ==> #[trigger] spec_normalize(s)[j] == spec_scale(
                s[j],
                NORMALIZE_TARGET as int,
                spec_peak(s),
            ),
        spec_peak(spec_normalize(s)) == NORMALIZE_TARGET,
{
    let p = spec_peak(s);
    let t = spec_normalize(s);
    lemma_peak_attained(s);
    let j0 = choose|j: int| 0 <= j < s.len() && abs(#[trigger] s[j]) == p;
    assert forall|j: int| 0 <= j < t.len() implies abs(#[trigger] t[j]) <= NORMALIZE_TARGET by {
        lemma_peak_ge(s, j);
        lemma_scale_bound(s[j], NORMALIZE_TARGET as int, p, p);
        lemma_mul_is_commutative(p, NORMALIZE_TARGET as int);
        lemma_div_multiples_vanish(NORMALIZE_TARGET as int, p);
    }
    lemma_peak_le(t, NORMALIZE_TARGET as int);
    lemma_scale_exact(s[j0], NORMALIZE_TARGET as int, p);
    lemma_peak_ge(t, j0);
}

/// An arrangement whose cut region is empty (its start at or past its end)
/// contributes nothing, at any position. The render as a whole treats it
/// as a skip, never as an error.
pub proof fn lemma_empty_cut_contributes_nothing(
    a: Arrangement,
    src: Source,
    samples: Seq<i64>,
    rec_start_ms: int,
    buf_len: int,
    j: int,
)
    requires
        src.cut.start_ms >= src.cut.end_ms,
    ensures
        spec_contrib_at(a, src, samples, rec_start_ms, buf_len, j) == 0,
{
    lemma_samples_of_ms_monotone(src.cut.end_ms as int, src.cut.start_ms as int);
}

} // verus!
