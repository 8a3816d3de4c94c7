//! The per-render source cache: decoded, canonical-rate audio, one slot per
//! source position. A source whose decode failed has an empty slot and any
//! arrangement referencing it later contributes silence. The cache lives
//! for one render and is dropped at its end.

use vstd::prelude::*;
use vstd::math::abs;
use crate::types::SAMPLE_UNIT;

verus! {

/// One render's cache of decoded audio, aligned with the source list: slot
/// `k` belongs to source `k`. An empty slot records a failed decode.
pub struct SourceCache {
    slots: Vec<Option<Vec<i64>>>,
}

impl View for SourceCache {
    type V = Seq<Option<Seq<i64>>>;

    closed spec fn view(&self) -> Seq<Option<Seq<i64>>> {
        self.slots.deep_view()
    }
}

/// Every cached sample is inside the canonical amplitude domain.
pub open spec fn cache_bounded(cache: Seq<Option<Seq<i64>>>) -> bool {
    forall|k: int, i: int|
        0 <= k < cache.len() && cache[k] is Some && 0 <= i < cache[k]->0.len() ==> abs(
            cache[k]->0[i] as int,
        ) <= SAMPLE_UNIT
}

impl SourceCache {
    /// All cached audio is inside the canonical amplitude domain.
    pub open spec fn wf(self) -> bool {
        cache_bounded(self@)
    }

    /// An empty cache.
    pub fn new() -> (c: SourceCache)
        ensures
            c@ =~= Seq::<Option<Seq<i64>>>::empty(),
            c.wf(),
    {
        let c = SourceCache { slots: Vec::new() };
        proof {
            assert(c.slots.deep_view() =~~= Seq::<Option<Seq<i64>>>::empty());
        }
        c
    }

    /// The number of slots.
    pub fn len(&self) -> (n: usize)
        ensures
            n == self@.len(),
    {
        self.slots.len()
    }

    /// Record the decoded audio of the next source.
    pub fn push_decoded(&mut self, samples: Vec<i64>)
        requires
            forall|i: int| 0 <= i < samples@.len() ==> abs(samples@[i] as int) <= SAMPLE_UNIT,
        ensures
            final(self)@ == old(self)@.push(Some(samples@)),
            old(self).wf() ==> final(self).wf(),
    {
        let ghost pre = self.slots.deep_view();
        self.slots.push(Some(samples));
        proof {
            assert(self.slots.deep_view() =~~= pre.push(Some(samples@)));
        }
    }

    /// Record that the next source failed to decode.
    pub fn push_missing(&mut self)
        ensures
            final(self)@ == old(self)@.push(None),
            old(self).wf() ==> final(self).wf(),
    {
        let ghost pre = self.slots.deep_view();
        self.slots.push(None);
        proof {
            assert(self.slots.deep_view() =~~= pre.push(None));
        }
    }

    /// The cached audio of source `k`, if its decode succeeded.
    pub fn get(&self, k: usize) -> (r: Option<&Vec<i64>>)
        requires
            k < self@.len(),
        ensures
            match r {
                Some(v) => self@[k as int] == Some(v@),
                None => self@[k as int] is None,
            },
    {
        match &self.slots[k] {
            Some(v) => Some(v),
            None => None,
        }
    }
}

} // verus!
