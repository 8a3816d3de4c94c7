//! The encoder bridge's verified building blocks: the external encoder's
//! argument profile per target format, decimal formatting of the bitrate,
//! the output file name, the chunk layout of the streamed PCM, and the
//! 16-bit conversion used for direct WAV output.

use vstd::prelude::*;
use vstd::arithmetic::div_mod::{
    lemma_div_decreases, lemma_div_multiples_vanish, lemma_div_multiples_vanish_fancy,
    lemma_fundamental_div_mod, lemma_mod_division_less_than_divisor,
};
use vstd::arithmetic::mul::lemma_mul_is_commutative;
use vstd::string::StringExecFns;
use crate::decode::{clamp_sample, spec_clamp};
use crate::timing::{lemma_scale_bound, scale_i64, spec_scale};
use crate::types::{AudioError, ExportSettings, SAMPLE_UNIT};

verus! {

/// Samples per streamed chunk: one second of audio at the canonical rate.
pub const CHUNK_SIZE: usize = 44100;

/// The decimal digit characters.
pub open spec fn spec_digit(d: int) -> char {
    if d == 0 {
        '0'
    } else if d == 1 {
        '1'
    } else if d == 2 {
        '2'
    } else if d == 3 {
        '3'
    } else if d == 4 {
        '4'
    } else if d == 5 {
        '5'
    } else if d == 6 {
        '6'
    } else if d == 7 {
        '7'
    } else if d == 8 {
        '8'
    } else {
        '9'
    }
}

/// The decimal digits of `n`, most significant first.
pub open spec fn spec_decimal(n: nat) -> Seq<char>
    decreases n,
{
    if n < 10 {
        seq![spec_digit(n as int)]
    } else {
        spec_decimal(n / 10).push(spec_digit((n % 10) as int))
    }
}

/// One decimal digit as a string.
fn digit_str(d: u32) -> (r: &'static str)
    requires
        d < 10,
    ensures
        r@ =~= seq![spec_digit(d as int)],
{
    if d == 0 {
        proof {
            reveal_strlit("0");
        }
        "0"
    } else if d == 1 {
        proof {
            reveal_strlit("1");
        }
        "1"
    } else if d == 2 {
        proof {
            reveal_strlit("2");
        }
        "2"
    } else if d == 3 {
        proof {
            reveal_strlit("3");
        }
        "3"
    } else if d == 4 {
        proof {
            reveal_strlit("4");
        }
        "4"
    } else if d == 5 {
        proof {
            reveal_strlit("5");
        }
        "5"
    } else if d == 6 {
        proof {
            reveal_strlit("6");
        }
        "6"
    } else if d == 7 {
        proof {
            reveal_strlit("7");
        }
        "7"
    } else if d == 8 {
        proof {
            reveal_strlit("8");
        }
        "8"
    } else {
        proof {
            reveal_strlit("9");
        }
        "9"
    }
}

/// The decimal representation of `n`.
pub fn u32_decimal(n: u32) -> (s: String)
    ensures
        s@ == spec_decimal(n as nat),
    decreases n,
{
    if n < 10 {
        let s = digit_str(n).to_owned();
        proof {
            assert(s@ =~= spec_decimal(n as nat));
        }
        s
    } else {
        proof {
            lemma_div_decreases(n as int, 10);
            lemma_mod_division_less_than_divisor(n as int, 10);
        }
        let mut s = u32_decimal(n / 10);
        s.append(digit_str(n % 10));
        proof {
            assert(s@ =~= spec_decimal(n as nat));
        }
        s
    }
}

/// The bitrate argument handed to the encoder: the decimal kilobit rate
/// followed by `k`.
pub fn bitrate_arg(bitrate: u32) -> (s: String)
    ensures
        s@ == spec_decimal(bitrate as nat).push('k'),
{
    let mut s = u32_decimal(bitrate);
    proof {
        reveal_strlit("k");
    }
    s.append("k");
    proof {
        assert(s@ =~= spec_decimal(bitrate as nat).push('k'));
    }
    s
}

/// The output file's name: `<record_name>.<extension>`.
pub fn output_file_name(record_name: &str, extension: &str) -> (s: String)
    ensures
        s@ == record_name@.push('.') + extension@,
{
    let mut s = record_name.to_owned();
    proof {
        reveal_strlit(".");
    }
    s.append(".");
    s.append(extension);
    proof {
        assert(s@ =~= record_name@.push('.') + extension@);
    }
    s
}

/// The fixed argument prefix: raw 32-bit float mono input at the canonical
/// rate, read from the standard input.
pub open spec fn spec_input_args() -> Seq<Seq<char>> {
    seq!["-f"@, "f32le"@, "-ar"@, "44100"@, "-ac"@, "1"@, "-i"@, "pipe:0"@]
}

/// The fixed argument suffix: timestamp handling and the output path.
pub open spec fn spec_output_args(out: Seq<char>) -> Seq<Seq<char>> {
    seq!["-avoid_negative_ts"@, "make_zero"@, "-fflags"@, "+genpts"@, "-y"@, out]
}

/// The codec arguments per target format: constant-bitrate mp3; vorbis
/// with the minimum and maximum pinned to the target (CBR emulation);
/// lossless flac at a fixed compression level; uncompressed 16-bit PCM
/// for wav. Any other extension is unsupported.
pub open spec fn spec_codec_args(ext: Seq<char>, bitrate: nat) -> Option<Seq<Seq<char>>> {
    let b = spec_decimal(bitrate).push('k');
    if ext == "mp3"@ {
        Some(seq!["-codec:a"@, "libmp3lame"@, "-b:a"@, b, "-cbr"@, "1"@, "-reservoir"@, "0"@])
    } else if ext == "ogg"@ {
        Some(seq!["-codec:a"@, "libvorbis"@, "-b:a"@, b, "-minrate"@, b, "-maxrate"@, b])
    } else if ext == "flac"@ {
        Some(
            seq![
                "-codec:a"@,
                "flac"@,
                "-compression_level"@,
                "5"@,
                "-exact_rice_parameters"@,
                "1"@,
            ],
        )
    } else if ext == "wav"@ {
        Some(seq!["-codec:a"@, "pcm_s16le"@])
    } else {
        None
    }
}

/// The whole encoder invocation for one export, or `None` for an
/// unsupported format.
pub open spec fn spec_encoder_args(ext: Seq<char>, bitrate: nat, out: Seq<char>) -> Option<
    Seq<Seq<char>>,
> {
    match spec_codec_args(ext, bitrate) {
        Some(codec) => Some(spec_input_args() + codec + spec_output_args(out)),
        None => None,
    }
}

/// Build the external encoder's argument list for one export. Fails with
/// `UnsupportedFormat`, before any process is spawned, exactly when the
/// extension is none of the four supported formats.
pub fn encoder_args(settings: &ExportSettings, output_path: &str) -> (r: Result<
    Vec<String>,
    AudioError,
>)
    ensures
        match r {
            Ok(args) => spec_encoder_args(
                settings.extension@,
                settings.bitrate as nat,
                output_path@,
            ) == Some(args.deep_view()),
            Err(e) => {
                &&& e is UnsupportedFormat
                &&& spec_encoder_args(
                    settings.extension@,
                    settings.bitrate as nat,
                    output_path@,
                ) is None
            },
        },
{
    let mut args: Vec<String> = Vec::new();
    args.push("-f".to_owned());
    args.push("f32le".to_owned());
    args.push("-ar".to_owned());
    args.push("44100".to_owned());
    args.push("-ac".to_owned());
    args.push("1".to_owned());
    args.push("-i".to_owned());
    args.push("pipe:0".to_owned());
    if settings.extension == "mp3".to_owned() {
        args.push("-codec:a".to_owned());
        args.push("libmp3lame".to_owned());
        args.push("-b:a".to_owned());
        args.push(bitrate_arg(settings.bitrate));
        args.push("-cbr".to_owned());
        args.push("1".to_owned());
        args.push("-reservoir".to_owned());
        args.push("0".to_owned());
    } else if settings.extension == "ogg".to_owned() {
        args.push("-codec:a".to_owned());
        args.push("libvorbis".to_owned());
        args.push("-b:a".to_owned());
        args.push(bitrate_arg(settings.bitrate));
        args.push("-minrate".to_owned());
        args.push(bitrate_arg(settings.bitrate));
        args.push("-maxrate".to_owned());
        args.push(bitrate_arg(settings.bitrate));
    } else if settings.extension == "flac".to_owned() {
        args.push("-codec:a".to_owned());
        args.push("flac".to_owned());
        args.push("-compression_level".to_owned());
        args.push("5".to_owned());
        args.push("-exact_rice_parameters".to_owned());
        args.push("1".to_owned());
    } else if settings.extension == "wav".to_owned() {
        args.push("-codec:a".to_owned());
        args.push("pcm_s16le".to_owned());
    } else {
        return Err(AudioError::UnsupportedFormat);
    }
    args.push("-avoid_negative_ts".to_owned());
    args.push("make_zero".to_owned());
    args.push("-fflags".to_owned());
    args.push("+genpts".to_owned());
    args.push("-y".to_owned());
    args.push(output_path.to_owned());
    proof {
        assert(args.deep_view() =~~= spec_input_args() + spec_codec_args(
            settings.extension@,
            settings.bitrate as nat,
        )->0 + spec_output_args(output_path@));
    }
    Ok(args)
}

/// The number of chunks a buffer streams as: its length divided by the
/// chunk size, rounded up.
pub open spec fn spec_chunk_count(len: int) -> int {
    (len + CHUNK_SIZE - 1) / (CHUNK_SIZE as int)
}

/// Number of chunks for a buffer of `len` samples.
pub fn chunk_count(len: usize) -> (r: usize)
    ensures
        r as int == spec_chunk_count(len as int),
{
    let q: usize = len / CHUNK_SIZE;
    let m: usize = len % CHUNK_SIZE;
    proof {
        lemma_fundamental_div_mod(len as int, CHUNK_SIZE as int);
        lemma_mod_division_less_than_divisor(len as int, CHUNK_SIZE as int);
        if m == 0 {
            lemma_div_multiples_vanish_fancy(q as int, CHUNK_SIZE as int - 1, CHUNK_SIZE as int);
        } else {
            lemma_div_decreases(len as int, CHUNK_SIZE as int);
            lemma_div_multiples_vanish_fancy(q as int + 1, m as int - 1, CHUNK_SIZE as int);
        }
    }
    if m == 0 {
        q
    } else {
        q + 1
    }
}

/// A mixed sample as a 16-bit PCM value: clamped to full scale, then
/// rescaled to the 16-bit range.
pub open spec fn spec_sample_to_i16(v: int) -> int {
    spec_scale(spec_clamp(v), 32767, SAMPLE_UNIT as int)
}

/// Convert one sample to 16-bit PCM for direct WAV output.
pub fn sample_to_i16(v: i64) -> (r: i16)
    ensures
        r as int == spec_sample_to_i16(v as int),
{
    let c: i64 = clamp_sample(v);
    proof {
        lemma_scale_bound(c as int, 32767, SAMPLE_UNIT as int, SAMPLE_UNIT as int);
        lemma_mul_is_commutative(SAMPLE_UNIT as int, 32767);
        lemma_div_multiples_vanish(32767, SAMPLE_UNIT as int);
    }
    let s: i64 = scale_i64(c, 32767, SAMPLE_UNIT as u64);
    s as i16
}

} // verus!
