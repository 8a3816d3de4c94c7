//! Progress reporting: the event sink the host application supplies, and
//! the exact progress percentages the pipeline reports at each stage.
//!
//! Loading takes the range `0..30`, processing `30..90`, encoding `80..=95`
//! of the overall operation, as whole percentages.

use vstd::prelude::*;
use vstd::arithmetic::div_mod::{
    lemma_div_pos_is_pos, lemma_multiply_divide_le, lemma_multiply_divide_lt,
};
use vstd::arithmetic::mul::{
    lemma_mul_inequality, lemma_mul_nonnegative, lemma_mul_strict_inequality,
};
use crate::types::ExportProgress;

verus! {

/// A synchronous sink for progress events, supplied by the host
/// application. It is assumed cheap: a slow sink stalls the pipeline, which
/// has no separate reporting thread.
pub trait ProgressSink {
    /// Deliver one progress event to the host.
    fn emit(&mut self, event: ExportProgress);
}

/// Percentage reported while decoding source `i` of `n`.
pub open spec fn spec_loading_progress(i: int, n: int) -> int {
    i * 30 / n
}

/// Percentage reported while mixing arrangement `i` of `n`.
pub open spec fn spec_processing_progress(i: int, n: int) -> int {
    30 + i * 60 / n
}

/// Percentage reported after sending chunk `i + 1` of `n` to the encoder.
pub open spec fn spec_encoding_progress(i: int, n: int) -> int {
    80 + i * 15 / n
}

/// Progress while loading: `i * 30 / n`, always in `0..30` for `i < n`.
pub fn loading_progress(i: usize, n: usize) -> (r: u32)
    requires
        i < n,
    ensures
        r as int == spec_loading_progress(i as int, n as int),
        r < 30,
{
    proof {
        lemma_mul_strict_inequality(i as int, n as int, 30);
        lemma_multiply_divide_lt((i as int) * 30, n as int, 30);
        lemma_mul_nonnegative(i as int, 30);
        lemma_div_pos_is_pos((i as int) * 30, n as int);
    }
    let p: u128 = (i as u128) * 30 / (n as u128);
    p as u32
}

/// Progress while processing: `30 + i * 60 / n`, always in `30..90` for
/// `i < n`.
pub fn processing_progress(i: usize, n: usize) -> (r: u32)
    requires
        i < n,
    ensures
        r as int == spec_processing_progress(i as int, n as int),
        30 <= r < 90,
{
    proof {
        lemma_mul_strict_inequality(i as int, n as int, 60);
        lemma_multiply_divide_lt((i as int) * 60, n as int, 60);
        lemma_mul_nonnegative(i as int, 60);
        lemma_div_pos_is_pos((i as int) * 60, n as int);
    }
    let p: u128 = (i as u128) * 60 / (n as u128);
    30 + (p as u32)
}

/// Progress while encoding: `80 + i * 15 / n`, always in `80..=95` for
/// `i <= n`.
pub fn encoding_progress(i: usize, n: usize) -> (r: u32)
    requires
        0 < n,
        i <= n,
    ensures
        r as int == spec_encoding_progress(i as int, n as int),
        80 <= r <= 95,
{
    proof {
        lemma_mul_inequality(i as int, n as int, 15);
        lemma_multiply_divide_le((i as int) * 15, n as int, 15);
        lemma_mul_nonnegative(i as int, 15);
        lemma_div_pos_is_pos((i as int) * 15, n as int);
    }
    let p: u128 = (i as u128) * 15 / (n as u128);
    80 + (p as u32)
}

} // verus!
