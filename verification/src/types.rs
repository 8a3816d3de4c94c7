//! The data model: sources, arrangements, the record window, export
//! settings, progress events, and the error taxonomy.
//!
//! All times are plain integers: absolute timestamps and cut positions are
//! milliseconds, so that the sample mapping is exact integer arithmetic.
//! Audio amplitude is fixed-point, with `SAMPLE_UNIT` standing for 1.0.

use vstd::prelude::*;

verus! {

/// The single sample rate all decoded audio is normalized to before mixing.
pub const CANONICAL_SAMPLE_RATE: u64 = 44100;

/// Milliseconds per second, for the time-to-sample mapping.
pub const MS_PER_SECOND: u64 = 1000;

/// Fixed-point representation of the amplitude 1.0.
pub const SAMPLE_UNIT: i64 = 1_000_000;

/// Peak amplitude above which the program buffer is normalized
/// (0.95 in fixed point).
pub const PEAK_LIMIT: i64 = 950_000;

/// Peak amplitude the normalizer scales the buffer down to
/// (0.9 in fixed point).
pub const NORMALIZE_TARGET: i64 = 900_000;

/// Length of the linear fade window: 300 ms at the canonical rate.
pub const FADE_SAMPLES: usize = 13230;

/// Largest magnitude accepted for a timestamp or cut position, in
/// milliseconds. Keeps every sample-offset computation inside `i64`.
pub const MAX_TIME_MS: i64 = 1_000_000_000_000;

/// Largest number of samples any in-range time window can span:
/// `2 * MAX_TIME_MS` milliseconds at the canonical rate.
pub const MAX_PROGRAM_SAMPLES: u64 = 88_200_000_000_000;

/// Largest number of arrangements one render accepts. Keeps the additive
/// mix of per-arrangement contributions inside `i64` at any gain.
pub const MAX_ARRANGEMENTS: usize = 100_000;

/// Largest magnitude one arrangement can add to one buffer sample:
/// `SAMPLE_UNIT * (u32::MAX / 100 + 1)`.
pub const MAX_CONTRIBUTION: i64 = 42_949_673_000_000;

/// An absolute `[start, end)` wall-clock window, in milliseconds since an
/// arbitrary epoch.
#[derive(Debug, Clone)]
pub struct PlayingTime {
    pub start_ms: i64,
    pub end_ms: i64,
}

impl PlayingTime {
    /// Both timestamps are within the machine range.
    pub open spec fn wf(self) -> bool {
        &&& -MAX_TIME_MS <= self.start_ms <= MAX_TIME_MS
        &&& -MAX_TIME_MS <= self.end_ms <= MAX_TIME_MS
    }
}

/// The usable portion `[start, end)` of a source's decoded audio, in
/// milliseconds from the start of the decoded signal. The end is clamped to
/// the decoded length at use time, not at construction.
#[derive(Debug, Clone)]
pub struct Cut {
    pub start_ms: u64,
    pub end_ms: u64,
}

impl Cut {
    /// Both positions are within the machine range.
    pub open spec fn wf(self) -> bool {
        &&& self.start_ms <= MAX_TIME_MS
        &&& self.end_ms <= MAX_TIME_MS
    }
}

/// A decodable audio asset with an identity and a usable trimmed region.
#[derive(Debug, Clone)]
pub struct Source {
    pub id: String,
    pub title: String,
    pub type_id: Option<String>,
    pub file_path: String,
    pub cut: Cut,
}

impl Source {
    pub open spec fn wf(self) -> bool {
        self.cut.wf()
    }
}

/// A scheduled placement of a source within the program timeline, with
/// timing, gain and fade parameters. `loudness` is a percentage; `None`
/// means 100 (unity gain).
#[derive(Debug, Clone)]
pub struct Arrangement {
    pub id: String,
    pub type_id: Option<String>,
    pub playing_time: PlayingTime,
    pub loudness: Option<u32>,
    pub fade_in: bool,
    pub fade_out: bool,
}

impl Arrangement {
    pub open spec fn wf(self) -> bool {
        self.playing_time.wf()
    }
}

/// The overall program window being rendered, in milliseconds since the
/// same epoch as `PlayingTime`.
#[derive(Debug, Clone)]
pub struct TimeOfRecord {
    pub start_ms: i64,
    pub end_ms: i64,
}

impl TimeOfRecord {
    /// Timestamps are in range and the program buffer fits in memory.
    pub open spec fn wf(self) -> bool {
        &&& -MAX_TIME_MS <= self.start_ms <= MAX_TIME_MS
        &&& -MAX_TIME_MS <= self.end_ms <= MAX_TIME_MS
        &&& crate::timing::spec_samples_of_ms(self.end_ms - self.start_ms) <= usize::MAX
    }
}

/// Target container/codec extension and bitrate for the encoded output.
/// The bitrate is in kilobits per second and is ignored for lossless
/// formats.
#[derive(Debug, Clone)]
pub struct ExportSettings {
    pub extension: String,
    pub bitrate: u32,
}

/// One render request: the sources, the per-record arrangements and
/// windows, the export settings, and which record to export.
#[derive(Debug, Clone)]
pub struct ExportRequest {
    pub sources: Vec<Source>,
    pub arrangements: Vec<(String, Vec<Arrangement>)>,
    pub time_of_records: Vec<(String, TimeOfRecord)>,
    pub settings: ExportSettings,
    pub record_name: String,
}

/// A progress event handed to the host application. `progress` is a whole
/// percentage in `0 ..= 100`.
#[derive(Debug, Clone)]
pub struct ExportProgress {
    pub stage: ProgressStage,
    pub progress: u32,
    pub message: String,
    pub record_name: Option<String>,
}

/// The fixed vocabulary of progress stages.
#[derive(Debug, Clone, Copy, PartialEq, Eq, Structural)]
pub enum ProgressStage {
    Loading,
    Processing,
    Encoding,
    Completed,
    Error,
}

/// The error taxonomy of the render and export pipeline.
///
/// `DecodeError` and `ResampleError` are per-source and absorbed (the
/// source is skipped); `SourceNotFound` aborts a render; the encoder errors
/// and `UnsupportedFormat` abort an export. `InvalidCutRegion` is only ever
/// a diagnostic: an arrangement with an invalid cut is skipped.
#[derive(Debug, Clone)]
pub enum AudioError {
    DecodeError(String),
    ResampleError(String),
    SourceNotFound,
    InvalidCutRegion,
    UnsupportedFormat,
    EncoderSpawnError(String),
    EncoderProcessError(String),
}

} // verus!
