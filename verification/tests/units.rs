use timeline_compositor::compositor::apply_fade_effects;
use timeline_compositor::decode::{
    clamp_sample, clamp_samples, downmix, rescale_channel_u16, rescale_channel_u8, rescale_u16,
    rescale_u8,
};
use timeline_compositor::normalize::normalize_audio;
use timeline_compositor::progress::{encoding_progress, loading_progress, processing_progress};
use timeline_compositor::timing::{offset_samples, samples_of_ms, scale_i64};

#[test]
fn sample_counts_round_half_up() {
    assert_eq!(samples_of_ms(0), 0);
    assert_eq!(samples_of_ms(-500), 0);
    assert_eq!(samples_of_ms(1_000), 44_100);
    // 15 ms -> 661.5 samples, rounded half up
    assert_eq!(samples_of_ms(15), 662);
    // 300 ms fade window
    assert_eq!(samples_of_ms(300), 13_230);
    assert_eq!(samples_of_ms(10_000), 441_000);
}

#[test]
fn offsets_are_signed() {
    assert_eq!(offset_samples(2_000), 88_200);
    assert_eq!(offset_samples(-2_000), -88_200);
    assert_eq!(offset_samples(0), 0);
}

#[test]
fn scaling_truncates_magnitude_toward_zero() {
    assert_eq!(scale_i64(999, 1, 2), 499);
    assert_eq!(scale_i64(-999, 1, 2), -499);
    assert_eq!(scale_i64(600_001, 50, 100), 300_000);
    assert_eq!(scale_i64(0, 7, 13), 0);
}

#[test]
fn unsigned_formats_rescale_around_their_zero_point() {
    assert_eq!(rescale_u8(128), 0);
    assert_eq!(rescale_u8(0), -1_000_000);
    // (255 - 128) / 128 of full scale, truncated
    assert_eq!(rescale_u8(255), 992_187);
    assert_eq!(rescale_u16(32_768), 0);
    assert_eq!(rescale_u16(0), -1_000_000);
    assert_eq!(rescale_u16(65_535), 999_969);
    assert_eq!(rescale_channel_u8(&vec![0, 128, 255]), vec![-1_000_000, 0, 992_187]);
    assert_eq!(rescale_channel_u16(&vec![0, 32_768]), vec![-1_000_000, 0]);
}

#[test]
fn downmix_averages_all_channels() {
    let left: Vec<i64> = vec![100_000, 200_000, -300_000];
    let right: Vec<i64> = vec![300_000, -100_000, -100_000];
    let mono = downmix(&vec![left, right]);
    assert_eq!(mono, vec![200_000, 50_000, -200_000]);
    // a mono input passes through unchanged
    let one = downmix(&vec![vec![123_456, -654_321]]);
    assert_eq!(one, vec![123_456, -654_321]);
    // three channels, and the shortest channel decides the frame count
    let three = downmix(&vec![vec![90_000, 1], vec![60_000], vec![30_001]]);
    assert_eq!(three, vec![60_000]);
}

#[test]
fn clamping_limits_full_scale() {
    assert_eq!(clamp_sample(2_000_000), 1_000_000);
    assert_eq!(clamp_sample(-2_000_000), -1_000_000);
    assert_eq!(clamp_sample(999_999), 999_999);
    assert_eq!(clamp_samples(vec![5_000_000, -5_000_000, 7]), vec![1_000_000, -1_000_000, 7]);
}

#[test]
fn normalization_is_identity_under_the_limit() {
    let mut buffer: Vec<i64> = vec![400_000, -950_000, 0];
    let before = buffer.clone();
    normalize_audio(&mut buffer);
    assert_eq!(buffer, before);
}

#[test]
fn normalization_brings_peak_to_target_exactly() {
    let mut buffer: Vec<i64> = vec![0, 1_000_000, -500_000, 250_000];
    normalize_audio(&mut buffer);
    assert_eq!(buffer, vec![0, 900_000, -450_000, 225_000]);
    let peak = buffer.iter().map(|s| s.abs()).max().unwrap();
    assert_eq!(peak, 900_000);
}

#[test]
fn normalization_scales_negative_peaks_too() {
    let mut buffer: Vec<i64> = vec![-2_000_000, 1_000_000];
    normalize_audio(&mut buffer);
    assert_eq!(buffer, vec![-900_000, 450_000]);
}

#[test]
fn fades_ramp_linearly_when_long_enough() {
    let mut samples: Vec<i64> = vec![100_000; 10];
    apply_fade_effects(&mut samples, true, true, 4);
    // fade in over the first 4, fade out over the last 4
    assert_eq!(
        samples,
        vec![0, 25_000, 50_000, 75_000, 100_000, 100_000, 100_000, 75_000, 50_000, 25_000]
    );
}

#[test]
fn fades_are_skipped_on_short_signals() {
    let mut samples: Vec<i64> = vec![100_000; 3];
    apply_fade_effects(&mut samples, true, true, 4);
    assert_eq!(samples, vec![100_000; 3]);
}

#[test]
fn progress_percentages() {
    assert_eq!(loading_progress(0, 4), 0);
    assert_eq!(loading_progress(3, 4), 22);
    assert_eq!(processing_progress(0, 3), 30);
    assert_eq!(processing_progress(2, 3), 70);
    assert_eq!(encoding_progress(0, 10), 80);
    assert_eq!(encoding_progress(10, 10), 95);
    assert_eq!(encoding_progress(7, 10), 90);
}
