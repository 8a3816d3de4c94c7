//! A timeline compositor for scheduled audio programs.
//!
//! Named clips ("sources") are scheduled into time-stamped placements
//! ("arrangements") within a program window ("record"). The compositor
//! decodes every source into a common fixed-point mono PCM domain at the
//! canonical rate, maps each arrangement onto sample offsets, trims, loops,
//! fades and scales the source audio, mixes everything additively into one
//! program buffer, and peak-normalizes the result. Helpers for driving an
//! external encoder process (argument profiles, chunking, progress values)
//! are provided as verified building blocks.
//!
//! Samples are fixed-point: the amplitude 1.0 is represented by
//! [`types::SAMPLE_UNIT`]. Decoding and resampling themselves are outside
//! capabilities reached through the [`decode::AudioDecoder`] trait; progress
//! reporting goes through the [`progress::ProgressSink`] trait.

pub mod cache;
pub mod compositor;
pub mod decode;
pub mod encode;
pub mod laws;
pub mod normalize;
pub mod progress;
pub mod timing;
pub mod types;
