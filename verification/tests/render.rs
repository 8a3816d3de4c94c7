use timeline_compositor::cache::SourceCache;
use timeline_compositor::compositor::AudioProcessor;
use timeline_compositor::decode::AudioDecoder;
use timeline_compositor::progress::ProgressSink;
use timeline_compositor::types::{
    Arrangement, AudioError, Cut, ExportProgress, PlayingTime, ProgressStage, Source,
    TimeOfRecord,
};

/// A decoder that hands out a fixed signal per file path.
struct FakeDecoder {
    files: Vec<(String, Result<Vec<i64>, String>)>,
}

impl AudioDecoder for FakeDecoder {
    fn decode(&mut self, file_path: &str) -> Result<Vec<i64>, AudioError> {
        for (path, outcome) in &self.files {
            if path == file_path {
                return match outcome {
                    Ok(samples) => Ok(samples.clone()),
                    Err(msg) => Err(AudioError::DecodeError(msg.clone())),
                };
            }
        }
        Err(AudioError::DecodeError("no such file".to_string()))
    }
}

/// A sink that keeps every event.
struct CollectSink {
    events: Vec<ExportProgress>,
}

impl ProgressSink for CollectSink {
    fn emit(&mut self, event: ExportProgress) {
        self.events.push(event);
    }
}

fn source(id: &str, type_id: Option<&str>, path: &str, cut_start_ms: u64, cut_end_ms: u64) -> Source {
    Source {
        id: id.to_string(),
        title: id.to_string(),
        type_id: type_id.map(|t| t.to_string()),
        file_path: path.to_string(),
        cut: Cut { start_ms: cut_start_ms, end_ms: cut_end_ms },
    }
}

fn arrangement(
    id: &str,
    type_id: Option<&str>,
    start_ms: i64,
    end_ms: i64,
    loudness: Option<u32>,
    fade_in: bool,
    fade_out: bool,
) -> Arrangement {
    Arrangement {
        id: id.to_string(),
        type_id: type_id.map(|t| t.to_string()),
        playing_time: PlayingTime { start_ms, end_ms },
        loudness,
        fade_in,
        fade_out,
    }
}

fn render(
    arrangements: &Vec<Arrangement>,
    record: &TimeOfRecord,
    sources: &Vec<Source>,
    decoder: &mut FakeDecoder,
) -> Result<Vec<i64>, AudioError> {
    let processor = AudioProcessor::new();
    let mut sink = CollectSink { events: Vec::new() };
    processor.render_record("test", arrangements, record, sources, decoder, &mut sink)
}

#[test]
fn silent_sources_give_silent_buffer() {
    let record = TimeOfRecord { start_ms: 0, end_ms: 2_000 };
    let sources = vec![source("s1", Some("tone"), "tone.wav", 0, 1_000)];
    let arrangements = vec![arrangement("a1", Some("tone"), 0, 2_000, None, false, false)];
    let mut decoder = FakeDecoder { files: vec![("tone.wav".to_string(), Ok(vec![0i64; 44_100]))] };
    let buffer = render(&arrangements, &record, &sources, &mut decoder).unwrap();
    assert_eq!(buffer.len(), 88_200);
    assert!(buffer.iter().all(|&s| s == 0));
}

#[test]
fn mixing_is_order_independent() {
    let record = TimeOfRecord { start_ms: 0, end_ms: 3_000 };
    let sources = vec![
        source("s1", Some("a"), "a.wav", 0, 1_000),
        source("s2", Some("b"), "b.wav", 0, 1_000),
    ];
    let a = arrangement("a1", Some("a"), 0, 2_000, Some(80), true, false);
    let b = arrangement("a2", Some("b"), 500, 2_500, None, false, true);
    let mut decoder = FakeDecoder {
        files: vec![
            ("a.wav".to_string(), Ok((0..44_100).map(|i| ((i % 7) as i64 - 3) * 50_000).collect())),
            ("b.wav".to_string(), Ok((0..44_100).map(|i| ((i % 5) as i64) * 40_000).collect())),
        ],
    };
    let buf_ab = render(&vec![a.clone(), b.clone()], &record, &sources, &mut decoder).unwrap();
    let buf_ba = render(&vec![b, a], &record, &sources, &mut decoder).unwrap();
    assert_eq!(buf_ab, buf_ba);
}

#[test]
fn looping_reproduces_cut_region() {
    // a 10 ms cut region (441 samples) looped over a 30 ms arrangement
    let record = TimeOfRecord { start_ms: 0, end_ms: 1_000 };
    let sources = vec![source("s1", Some("sting"), "sting.wav", 0, 10)];
    let arrangements = vec![arrangement("a1", Some("sting"), 0, 30, None, false, false)];
    let pattern: Vec<i64> = (0..441).map(|i| (i as i64 + 1) * 1_000).collect();
    let mut decoder = FakeDecoder { files: vec![("sting.wav".to_string(), Ok(pattern.clone()))] };
    let buffer = render(&arrangements, &record, &sources, &mut decoder).unwrap();
    // 30 ms -> 1323 samples: exactly three full repetitions of the cut
    for i in 0..1_323usize {
        assert_eq!(buffer[i], pattern[i % 441], "at {i}");
    }
    assert!(buffer[1_323..].iter().all(|&s| s == 0));
}

#[test]
fn empty_cut_region_is_skipped_without_error() {
    let record = TimeOfRecord { start_ms: 0, end_ms: 1_000 };
    let sources = vec![source("s1", Some("tone"), "tone.wav", 500, 500)];
    let arrangements = vec![arrangement("a1", Some("tone"), 0, 1_000, None, false, false)];
    let mut decoder =
        FakeDecoder { files: vec![("tone.wav".to_string(), Ok(vec![700_000i64; 44_100]))] };
    let buffer = render(&arrangements, &record, &sources, &mut decoder).unwrap();
    assert!(buffer.iter().all(|&s| s == 0));
}

#[test]
fn inverted_cut_region_is_skipped_without_error() {
    let record = TimeOfRecord { start_ms: 0, end_ms: 1_000 };
    let sources = vec![source("s1", Some("tone"), "tone.wav", 800, 200)];
    let arrangements = vec![arrangement("a1", Some("tone"), 0, 1_000, None, false, false)];
    let mut decoder =
        FakeDecoder { files: vec![("tone.wav".to_string(), Ok(vec![700_000i64; 44_100]))] };
    let buffer = render(&arrangements, &record, &sources, &mut decoder).unwrap();
    assert!(buffer.iter().all(|&s| s == 0));
}

#[test]
fn missing_source_aborts_with_source_not_found() {
    let record = TimeOfRecord { start_ms: 0, end_ms: 1_000 };
    let sources = vec![source("s1", Some("tone"), "tone.wav", 0, 1_000)];
    let arrangements = vec![arrangement("a1", Some("absent"), 0, 1_000, None, false, false)];
    let mut decoder =
        FakeDecoder { files: vec![("tone.wav".to_string(), Ok(vec![100_000i64; 44_100]))] };
    let result = render(&arrangements, &record, &sources, &mut decoder);
    assert!(matches!(result, Err(AudioError::SourceNotFound)));
}

#[test]
fn failed_decode_silences_only_that_source() {
    let record = TimeOfRecord { start_ms: 0, end_ms: 1_000 };
    let sources = vec![
        source("s1", Some("bad"), "bad.wav", 0, 1_000),
        source("s2", Some("good"), "good.wav", 0, 1_000),
    ];
    let arrangements = vec![
        arrangement("a1", Some("bad"), 0, 1_000, None, false, false),
        arrangement("a2", Some("good"), 0, 1_000, None, false, false),
    ];
    let mut decoder = FakeDecoder {
        files: vec![
            ("bad.wav".to_string(), Err("corrupt".to_string())),
            ("good.wav".to_string(), Ok(vec![250_000i64; 44_100])),
        ],
    };
    let buffer = render(&arrangements, &record, &sources, &mut decoder).unwrap();
    assert_eq!(buffer[0], 250_000);
    assert_eq!(buffer[44_099], 250_000);
}

#[test]
fn none_type_id_matches_none_reference() {
    let record = TimeOfRecord { start_ms: 0, end_ms: 1_000 };
    let sources = vec![source("s1", None, "tone.wav", 0, 1_000)];
    let arrangements = vec![arrangement("a1", None, 0, 1_000, None, false, false)];
    let mut decoder =
        FakeDecoder { files: vec![("tone.wav".to_string(), Ok(vec![300_000i64; 44_100]))] };
    let buffer = render(&arrangements, &record, &sources, &mut decoder).unwrap();
    assert_eq!(buffer[0], 300_000);
}

#[test]
fn overlapping_arrangements_sum() {
    let record = TimeOfRecord { start_ms: 0, end_ms: 1_000 };
    let sources = vec![source("s1", Some("tone"), "tone.wav", 0, 1_000)];
    let arrangements = vec![
        arrangement("a1", Some("tone"), 0, 1_000, None, false, false),
        arrangement("a2", Some("tone"), 0, 1_000, None, false, false),
    ];
    let mut decoder =
        FakeDecoder { files: vec![("tone.wav".to_string(), Ok(vec![400_000i64; 44_100]))] };
    let buffer = render(&arrangements, &record, &sources, &mut decoder).unwrap();
    // 400_000 + 400_000 = 800_000: under the 950_000 limit, no normalization
    assert_eq!(buffer[0], 800_000);
}

#[test]
fn loudness_percentage_scales_samples() {
    let record = TimeOfRecord { start_ms: 0, end_ms: 1_000 };
    let sources = vec![source("s1", Some("tone"), "tone.wav", 0, 1_000)];
    let arrangements = vec![arrangement("a1", Some("tone"), 0, 1_000, Some(50), false, false)];
    let mut decoder =
        FakeDecoder { files: vec![("tone.wav".to_string(), Ok(vec![600_001i64; 44_100]))] };
    let buffer = render(&arrangements, &record, &sources, &mut decoder).unwrap();
    // 600_001 * 50 / 100, truncated toward zero
    assert_eq!(buffer[0], 300_000);
}

#[test]
fn out_of_range_samples_are_clamped_before_mixing() {
    let record = TimeOfRecord { start_ms: 0, end_ms: 1_000 };
    let sources = vec![source("s1", Some("tone"), "tone.wav", 0, 1_000)];
    let arrangements = vec![arrangement("a1", Some("tone"), 0, 1_000, Some(50), false, false)];
    let mut decoder =
        FakeDecoder { files: vec![("tone.wav".to_string(), Ok(vec![5_000_000i64; 44_100]))] };
    let buffer = render(&arrangements, &record, &sources, &mut decoder).unwrap();
    // clamped to 1_000_000 full scale, then 50% gain
    assert_eq!(buffer[0], 500_000);
}

#[test]
fn ten_second_window_with_faded_looped_arrangement() {
    // 10 s record, one arrangement at [2 s, 5 s) of a 1 s cut, fade_in on
    let record = TimeOfRecord { start_ms: 0, end_ms: 10_000 };
    let sources = vec![source("s1", Some("ad"), "ad.wav", 0, 1_000)];
    let arrangements = vec![arrangement("a1", Some("ad"), 2_000, 5_000, None, true, false)];
    let pattern: Vec<i64> = (0..44_100).map(|i| ((i % 10) as i64 + 1) * 10_000).collect();
    let mut decoder = FakeDecoder { files: vec![("ad.wav".to_string(), Ok(pattern.clone()))] };
    let buffer = render(&arrangements, &record, &sources, &mut decoder).unwrap();
    assert_eq!(buffer.len(), 441_000);
    // zero before 2 s and from 5 s on
    assert!(buffer[..88_200].iter().all(|&s| s == 0));
    assert!(buffer[88_200 + 132_300..].iter().all(|&s| s == 0));
    // the ramp starts at zero and is fully open after 300 ms
    assert_eq!(buffer[88_200], 0);
    for i in 13_230..132_300usize {
        assert_eq!(buffer[88_200 + i], pattern[i % 44_100], "at {i}");
    }
    // inside the ramp, the value is the looped sample scaled by i/13230
    let i = 6_615usize;
    let expected = pattern[i % 44_100] * (i as i64) / 13_230;
    assert_eq!(buffer[88_200 + i], expected);
}

#[test]
fn progress_events_cover_all_stages() {
    let record = TimeOfRecord { start_ms: 0, end_ms: 1_000 };
    let sources = vec![source("s1", Some("tone"), "tone.wav", 0, 1_000)];
    let arrangements = vec![arrangement("a1", Some("tone"), 0, 1_000, None, false, false)];
    let mut decoder =
        FakeDecoder { files: vec![("tone.wav".to_string(), Ok(vec![100_000i64; 44_100]))] };
    let processor = AudioProcessor::new();
    let mut sink = CollectSink { events: Vec::new() };
    processor
        .render_record("jingle", &arrangements, &record, &sources, &mut decoder, &mut sink)
        .unwrap();
    assert!(sink.events.iter().any(|e| e.stage == ProgressStage::Loading && e.progress == 0));
    assert!(sink.events.iter().any(|e| e.stage == ProgressStage::Processing && e.progress == 30));
    assert!(sink.events.iter().any(|e| e.stage == ProgressStage::Processing && e.progress == 90));
    assert!(sink.events.iter().all(|e| e.progress <= 100));
    assert!(sink.events.iter().all(|e| e.record_name.as_deref() == Some("jingle")));
}

#[test]
fn placement_before_the_window_is_clipped_not_shifted() {
    // record [1 s, 2 s), arrangement [0.5 s, 1.5 s): only the in-range
    // half lands in the buffer, keeping its own alignment
    let record = TimeOfRecord { start_ms: 1_000, end_ms: 2_000 };
    let sources = vec![source("s1", Some("tone"), "tone.wav", 0, 1_000)];
    let arrangements = vec![arrangement("a1", Some("tone"), 500, 1_500, None, false, false)];
    let pattern: Vec<i64> = (0..44_100).map(|i| (i % 97) as i64 * 100).collect();
    let mut decoder = FakeDecoder { files: vec![("tone.wav".to_string(), Ok(pattern.clone()))] };
    let buffer = render(&arrangements, &record, &sources, &mut decoder).unwrap();
    assert_eq!(buffer.len(), 44_100);
    assert_eq!(buffer[0], pattern[22_050]);
    assert_eq!(buffer[22_049], pattern[44_099]);
    assert!(buffer[22_050..].iter().all(|&s| s == 0));
}

#[test]
fn placement_past_the_window_end_is_clipped() {
    let record = TimeOfRecord { start_ms: 1_000, end_ms: 2_000 };
    let sources = vec![source("s1", Some("tone"), "tone.wav", 0, 1_000)];
    let arrangements = vec![arrangement("a1", Some("tone"), 1_500, 2_500, None, false, false)];
    let pattern: Vec<i64> = (0..44_100).map(|i| (i % 89) as i64 * 100).collect();
    let mut decoder = FakeDecoder { files: vec![("tone.wav".to_string(), Ok(pattern.clone()))] };
    let buffer = render(&arrangements, &record, &sources, &mut decoder).unwrap();
    assert!(buffer[..22_050].iter().all(|&s| s == 0));
    assert_eq!(buffer[22_050], pattern[0]);
    assert_eq!(buffer[44_099], pattern[22_049]);
}

#[test]
fn composite_over_a_prebuilt_cache_is_deterministic() {
    let record = TimeOfRecord { start_ms: 0, end_ms: 1_000 };
    let sources = vec![
        source("s1", Some("a"), "a.wav", 0, 1_000),
        source("s2", Some("b"), "b.wav", 0, 1_000),
    ];
    let arrangements = vec![
        arrangement("a1", Some("a"), 0, 1_000, None, false, false),
        arrangement("a2", Some("b"), 0, 1_000, None, false, false),
    ];
    let mut cache = SourceCache::new();
    cache.push_decoded(vec![100_000i64; 44_100]);
    cache.push_decoded(vec![-30_000i64; 44_100]);
    let processor = AudioProcessor::new();
    let mut sink = CollectSink { events: Vec::new() };
    let buffer = processor
        .composite_record("rec", &arrangements, &record, &sources, &cache, &mut sink)
        .unwrap();
    assert!(buffer.iter().all(|&s| s == 70_000));
}

#[test]
fn composite_with_an_empty_cache_slot_skips_that_source() {
    let record = TimeOfRecord { start_ms: 0, end_ms: 1_000 };
    let sources = vec![source("s1", Some("a"), "a.wav", 0, 1_000)];
    let arrangements = vec![arrangement("a1", Some("a"), 0, 1_000, None, false, false)];
    let mut cache = SourceCache::new();
    cache.push_missing();
    let processor = AudioProcessor::new();
    let mut sink = CollectSink { events: Vec::new() };
    let buffer = processor
        .composite_record("rec", &arrangements, &record, &sources, &cache, &mut sink)
        .unwrap();
    assert!(buffer.iter().all(|&s| s == 0));
}

#[test]
fn build_cache_has_one_slot_per_source() {
    let sources = vec![
        source("s1", Some("a"), "a.wav", 0, 1_000),
        source("s2", Some("b"), "missing.wav", 0, 1_000),
    ];
    let mut decoder =
        FakeDecoder { files: vec![("a.wav".to_string(), Ok(vec![1_000i64; 100]))] };
    let processor = AudioProcessor::new();
    let mut sink = CollectSink { events: Vec::new() };
    let cache: SourceCache = processor.build_cache("rec", &sources, &mut decoder, &mut sink);
    assert_eq!(cache.len(), 2);
}
