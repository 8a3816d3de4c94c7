//! The normalizer: one global pass over the composited program buffer,
//! applied once after all mixing. When the peak magnitude exceeds
//! `PEAK_LIMIT`, every sample is scaled by `NORMALIZE_TARGET / peak`,
//! bringing the new peak to exactly `NORMALIZE_TARGET`; otherwise the
//! buffer is left untouched.

use vstd::prelude::*;
use vstd::arithmetic::div_mod::{lemma_div_is_ordered, lemma_div_multiples_vanish};
use vstd::arithmetic::mul::{lemma_mul_inequality, lemma_mul_is_commutative};
use vstd::math::abs;
use crate::timing::{scale_i64, spec_scale};
use crate::types::{NORMALIZE_TARGET, PEAK_LIMIT};

verus! {

/// The largest sample magnitude of a buffer.
pub open spec fn spec_peak(s: Seq<int>) -> int
    decreases s.len(),
{
    if s.len() == 0 {
        0
    } else {
        let rest = spec_peak(s.drop_last());
        if abs(s.last()) > rest {
            abs(s.last()) as int
        } else {
            rest
        }
    }
}

/// The normalized buffer: untouched when the peak is within `PEAK_LIMIT`,
/// otherwise every sample scaled by `NORMALIZE_TARGET / peak`.
pub open spec fn spec_normalize(s: Seq<int>) -> Seq<int> {
    if spec_peak(s) <= PEAK_LIMIT {
        s
    } else {
        Seq::new(s.len(), |j: int| spec_scale(s[j], NORMALIZE_TARGET as int, spec_peak(s)))
    }
}

/// A buffer of `i64` samples as its mathematical value.
pub open spec fn spec_as_ints(s: Seq<i64>) -> Seq<int> {
    s.map_values(|v: i64| v as int)
}

/// The peak is never negative.
pub proof fn lemma_peak_nonneg(s: Seq<int>)
    ensures
        spec_peak(s) >= 0,
    decreases s.len(),
{
    if s.len() > 0 {
        lemma_peak_nonneg(s.drop_last());
    }
}

/// The peak bounds every element's magnitude.
pub proof fn lemma_peak_ge(s: Seq<int>, j: int)
    requires
        0 <= j < s.len(),
    ensures
        abs(s[j]) <= spec_peak(s),
    decreases s.len(),
{
    if j < s.len() - 1 {
        lemma_peak_ge(s.drop_last(), j);
    }
}

/// A bound on every element's magnitude bounds the peak.
pub proof fn lemma_peak_le(s: Seq<int>, m: int)
    requires
        m >= 0,
        forall|j: int| 0 <= j < s.len() ==> abs(#[trigger] s[j]) <= m,
    ensures
        spec_peak(s) <= m,
    decreases s.len(),
{
    if s.len() > 0 {
        assert forall|j: int| 0 <= j < s.drop_last().len() implies abs(
            #[trigger] s.drop_last()[j],
        ) <= m by {
            assert(s.drop_last()[j] == s[j]);
        }
        lemma_peak_le(s.drop_last(), m);
    }
}

/// A nonempty buffer attains its peak at some position.
pub proof fn lemma_peak_attained(s: Seq<int>)
    requires
        s.len() > 0,
    ensures
        exists|j: int| 0 <= j < s.len() && abs(#[trigger] s[j]) == spec_peak(s),
    decreases s.len(),
{
    let rest = s.drop_last();
    if s.len() == 1 {
        assert(spec_peak(rest) == 0);
        assert(abs(s[0]) == spec_peak(s));
    } else if abs(s.last()) > spec_peak(rest) {
        assert(abs(s[s.len() - 1]) == spec_peak(s));
    } else {
        lemma_peak_attained(rest);
        let j = choose|j: int| 0 <= j < rest.len() && abs(#[trigger] rest[j]) == spec_peak(rest);
        assert(s[j] == rest[j]);
        assert(abs(s[j]) == spec_peak(s));
    }
}

/// Peak-normalize the program buffer to prevent clipping: one global pass,
/// never per-arrangement.
pub fn normalize_audio(buffer: &mut Vec<i64>)
    requires
        forall|j: int| 0 <= j < old(buffer)@.len() ==> -i64::MAX <= #[trigger] old(buffer)@[j],
    ensures
        final(buffer)@.len() == old(buffer)@.len(),
        spec_as_ints(final(buffer)@) == spec_normalize(spec_as_ints(old(buffer)@)),
{
    let ghost s0 = spec_as_ints(old(buffer)@);
    let n: usize = buffer.len();
    let mut peak: i64 = 0;
    let mut j: usize = 0;
    while j < n
        invariant
            j <= n,
            n == buffer@.len(),
            n == s0.len(),
            buffer@ == old(buffer)@,
            s0 == spec_as_ints(old(buffer)@),
            forall|k: int| 0 <= k < n ==> -i64::MAX <= #[trigger] old(buffer)@[k],
            peak as int == spec_peak(s0.take(j as int)),
            peak >= 0,
        decreases n - j,
    {
        let v: i64 = buffer[j];
        let m: i64 = if v >= 0 {
            v
        } else {
            -v
        };
        proof {
            assert(s0.take(j as int + 1).drop_last() =~= s0.take(j as int));
            assert(s0.take(j as int + 1).last() == v as int);
        }
        if m > peak {
            peak = m;
        }
        j += 1;
    }
    proof {
        assert(s0.take(n as int) =~= s0);
    }
    if peak <= PEAK_LIMIT {
        return ;
    }
    let mut k: usize = 0;
    while k < n
        invariant
            k <= n,
            n == buffer@.len(),
            n == s0.len(),
            s0 == spec_as_ints(old(buffer)@),
            forall|jj: int| 0 <= jj < n ==> -i64::MAX <= #[trigger] old(buffer)@[jj],
            peak as int == spec_peak(s0),
            peak > PEAK_LIMIT,
            forall|jj: int| k <= jj < n ==> buffer@[jj] == old(buffer)@[jj],
            forall|jj: int|
                0 <= jj < k ==> buffer@[jj] as int == spec_scale(
                    s0[jj],
                    NORMALIZE_TARGET as int,
                    spec_peak(s0),
                ),
        decreases n - k,
    {
        let v: i64 = buffer[k];
        proof {
            lemma_peak_ge(s0, k as int);
            lemma_mul_inequality(abs(v as int) as int, peak as int, NORMALIZE_TARGET as int);
            lemma_div_is_ordered(
                abs(v as int) * NORMALIZE_TARGET,
                (peak as int) * NORMALIZE_TARGET,
                peak as int,
            );
            lemma_mul_is_commutative(peak as int, NORMALIZE_TARGET as int);
            lemma_div_multiples_vanish(NORMALIZE_TARGET as int, peak as int);
        }
        let w: i64 = scale_i64(v, NORMALIZE_TARGET as u64, peak as u64);
        buffer[k] = w;
        k += 1;
    }
    proof {
        assert(spec_as_ints(buffer@) =~= spec_normalize(s0));
    }
}

} // verus!
