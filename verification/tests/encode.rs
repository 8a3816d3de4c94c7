use timeline_compositor::encode::{
    bitrate_arg, chunk_count, encoder_args, output_file_name, sample_to_i16, u32_decimal,
    CHUNK_SIZE,
};
use timeline_compositor::types::{AudioError, ExportSettings};

fn settings(extension: &str, bitrate: u32) -> ExportSettings {
    ExportSettings { extension: extension.to_string(), bitrate }
}

#[test]
fn mp3_profile_is_constant_bitrate() {
    let args = encoder_args(&settings("mp3", 192), "/tmp/out.mp3").unwrap();
    let expected = vec![
        "-f", "f32le", "-ar", "44100", "-ac", "1", "-i", "pipe:0", "-codec:a", "libmp3lame",
        "-b:a", "192k", "-cbr", "1", "-reservoir", "0", "-avoid_negative_ts", "make_zero",
        "-fflags", "+genpts", "-y", "/tmp/out.mp3",
    ];
    assert_eq!(args, expected);
}

#[test]
fn ogg_profile_pins_min_and_max_rate() {
    let args = encoder_args(&settings("ogg", 128), "out.ogg").unwrap();
    let expected = vec![
        "-f", "f32le", "-ar", "44100", "-ac", "1", "-i", "pipe:0", "-codec:a", "libvorbis",
        "-b:a", "128k", "-minrate", "128k", "-maxrate", "128k", "-avoid_negative_ts",
        "make_zero", "-fflags", "+genpts", "-y", "out.ogg",
    ];
    assert_eq!(args, expected);
}

#[test]
fn flac_profile_ignores_bitrate() {
    let args = encoder_args(&settings("flac", 320), "out.flac").unwrap();
    let expected = vec![
        "-f", "f32le", "-ar", "44100", "-ac", "1", "-i", "pipe:0", "-codec:a", "flac",
        "-compression_level", "5", "-exact_rice_parameters", "1", "-avoid_negative_ts",
        "make_zero", "-fflags", "+genpts", "-y", "out.flac",
    ];
    assert_eq!(args, expected);
}

#[test]
fn wav_profile_is_uncompressed_16_bit() {
    let args = encoder_args(&settings("wav", 128), "out.wav").unwrap();
    let expected = vec![
        "-f", "f32le", "-ar", "44100", "-ac", "1", "-i", "pipe:0", "-codec:a", "pcm_s16le",
        "-avoid_negative_ts", "make_zero", "-fflags", "+genpts", "-y", "out.wav",
    ];
    assert_eq!(args, expected);
}

#[test]
fn unknown_extension_is_unsupported() {
    let result = encoder_args(&settings("aiff", 128), "out.aiff");
    assert!(matches!(result, Err(AudioError::UnsupportedFormat)));
}

#[test]
fn bitrate_strings() {
    assert_eq!(u32_decimal(0), "0");
    assert_eq!(u32_decimal(7), "7");
    assert_eq!(u32_decimal(320), "320");
    assert_eq!(u32_decimal(4_294_967_295), "4294967295");
    assert_eq!(bitrate_arg(192), "192k");
}

#[test]
fn output_file_names() {
    assert_eq!(output_file_name("morning show", "mp3"), "morning show.mp3");
    assert_eq!(output_file_name("", "wav"), ".wav");
}

#[test]
fn chunk_counts_round_up() {
    assert_eq!(chunk_count(0), 0);
    assert_eq!(chunk_count(1), 1);
    assert_eq!(chunk_count(CHUNK_SIZE), 1);
    assert_eq!(chunk_count(CHUNK_SIZE + 1), 2);
    assert_eq!(chunk_count(10 * CHUNK_SIZE), 10);
}

#[test]
fn sixteen_bit_conversion_clamps_and_scales() {
    assert_eq!(sample_to_i16(0), 0);
    assert_eq!(sample_to_i16(1_000_000), 32_767);
    assert_eq!(sample_to_i16(-1_000_000), -32_767);
    assert_eq!(sample_to_i16(2_500_000), 32_767);
    assert_eq!(sample_to_i16(-9_000_000), -32_767);
    assert_eq!(sample_to_i16(500_000), 16_383);
}
