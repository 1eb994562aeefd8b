//! The encoder pipeline: one `ffmpeg` process that captures once and encodes
//! every rung, so that segment boundaries agree between rungs.

use vstd::prelude::*;

use crate::state::{AacCodec, Rung, RungId, StreamProfile};
use crate::store;
use crate::text::{self, chars_of, has_text, push_decimal, push_padded};

verus! {

/// Where audio comes from.
#[derive(Clone, Debug, PartialEq, Eq)]
pub enum Source {
    /// A PulseAudio source.
    Device(String),
    /// A synthetic tone, paced at real time.
    SineTest,
    /// Interleaved stereo samples on standard input.
    Pcm { sample_rate: u32 },
}

/// Texts as plain values.
pub open spec fn texts(list: Seq<String>) -> Seq<Seq<char>> {
    list.map_values(|s: String| s@)
}

/// Borrowed texts as plain values.
pub open spec fn str_texts(list: Seq<&'static str>) -> Seq<Seq<char>> {
    list.map_values(|s: &'static str| s@)
}

/// A list of encoders names the one that can produce HE-AAC.
pub fn encoders_list_has_libfdk_aac(encoders_output: &str) -> (b: bool)
    ensures
        b == text::contains_text(encoders_output@, "libfdk_aac"@),
{
    has_text(encoders_output, "libfdk_aac")
}

/// Name of the codec that a rung is encoded with.
pub open spec fn codec_name(codec: AacCodec, has_libfdk: bool) -> Seq<char> {
    if codec == AacCodec::He && has_libfdk {
        "libfdk_aac"@
    } else {
        "aac"@
    }
}

/// Profile arguments of the codec that a rung is encoded with.
pub open spec fn profile_args(codec: AacCodec, has_libfdk: bool) -> Seq<Seq<char>> {
    if codec == AacCodec::He && has_libfdk {
        seq!["-profile:a"@, "aac_he"@]
    } else {
        Seq::empty()
    }
}

/// A rung falls back from HE-AAC to AAC-LC.
pub open spec fn falls_back(codec: AacCodec, has_libfdk: bool) -> bool {
    codec == AacCodec::He && !has_libfdk
}

/// What is said about a rung that falls back.
pub open spec fn fallback_text(name: Seq<char>) -> Seq<char> {
    "ffmpeg build lacks libfdk_aac: rung \""@ + name
        + "\" encoding as AAC-LC instead of HE-AAC"@
}

/// The codec of a rung, its profile arguments, and a warning where the rung
/// wants HE-AAC and the local `ffmpeg` cannot produce it.
pub fn codec_args(rung: &Rung, has_libfdk: bool) -> (args: (
    &'static str,
    Vec<&'static str>,
    Option<String>,
))
    ensures
        args.0@ == codec_name(rung.codec, has_libfdk),
        str_texts(args.1@) == profile_args(rung.codec, has_libfdk),
        args.2 is Some <==> falls_back(rung.codec, has_libfdk),
        args.2 matches Some(warning) ==> warning@ == fallback_text(rung.name@),
{
    let mut extra: Vec<&'static str> = Vec::new();
    match rung.codec {
        AacCodec::He => {
            if has_libfdk {
                extra.push("-profile:a");
                extra.push("aac_he");
                assert(str_texts(extra@) =~= profile_args(rung.codec, has_libfdk));
                ("libfdk_aac", extra, None)
            } else {
                let mut warning = "ffmpeg build lacks libfdk_aac: rung \"".to_owned();
                warning.append(rung.name.as_str());
                warning.append("\" encoding as AAC-LC instead of HE-AAC");
                assert(str_texts(extra@) =~= profile_args(rung.codec, has_libfdk));
                ("aac", extra, Some(warning))
            }
        },
        AacCodec::Lc => {
            assert(str_texts(extra@) =~= profile_args(rung.codec, has_libfdk));
            ("aac", extra, None)
        },
    }
}

/// A length in seconds, without trailing zeros.
pub open spec fn short_seconds(ms: u32) -> Seq<char> {
    let frac = (ms % 1000) as nat;
    text::decimal((ms / 1000) as nat) + (if frac == 0 {
        Seq::empty()
    } else if frac % 100 == 0 {
        "."@ + text::decimal_padded(frac / 100, 1)
    } else if frac % 10 == 0 {
        "."@ + text::decimal_padded(frac / 10, 2)
    } else {
        "."@ + text::decimal_padded(frac, 3)
    })
}

/// A length in seconds, without trailing zeros.
pub fn short_seconds_text(ms: u32) -> (s: String)
    ensures
        s@ == short_seconds(ms),
{
    let mut s = String::new();
    push_decimal(&mut s, (ms / 1000) as u64);
    let frac: u64 = (ms % 1000) as u64;
    if frac != 0 {
        s.append(".");
        if frac % 100 == 0 {
            push_padded(&mut s, frac / 100, 1);
        } else if frac % 10 == 0 {
            push_padded(&mut s, frac / 10, 2);
        } else {
            push_padded(&mut s, frac, 3);
        }
    }
    assert(s@ =~= short_seconds(ms));
    s
}

/// Directory of a rung's segments.
pub open spec fn rung_dir_of(out_dir: Seq<char>, rung: RungId) -> Seq<char> {
    store::dir_prefix(out_dir) + text::decimal(rung as nat)
}

/// Directory of a rung's segments.
pub fn rung_dir(out_dir: &str, rung: RungId) -> (dir: String)
    ensures
        dir@ == rung_dir_of(out_dir@, rung),
{
    let mut dir = out_dir.to_owned();
    let chars = chars_of(out_dir);
    if chars.len() > 0 && chars[chars.len() - 1] != '/' {
        dir.append("/");
    }
    assert(dir@ =~= store::dir_prefix(out_dir@));
    push_decimal(&mut dir, rung as u64);
    dir
}

/// Arguments that name the source.
pub open spec fn source_args(source: Source) -> Seq<Seq<char>> {
    match source {
        Source::Device(name) => seq!["-f"@, "pulse"@, "-i"@, name@],
        Source::SineTest => seq![
            "-re"@,
            "-f"@,
            "lavfi"@,
            "-i"@,
            "sine=frequency=440:sample_rate=44100"@,
        ],
        Source::Pcm { sample_rate } => seq![
            "-f"@,
            "f32le"@,
            "-ar"@,
            text::decimal(sample_rate as nat),
            "-ac"@,
            "2"@,
            "-i"@,
            "pipe:0"@,
        ],
    }
}

/// Arguments of the output of one rung.
pub open spec fn rung_args(
    rung: Rung,
    segment_ms: u32,
    out_dir: Seq<char>,
    has_libfdk: bool,
) -> Seq<Seq<char>> {
    seq!["-map"@, "0:a"@, "-c:a"@, codec_name(rung.codec, has_libfdk)] + profile_args(
        rung.codec,
        has_libfdk,
    ) + seq![
        "-b:a"@,
        text::decimal(rung.bitrate_kbps as nat) + "k"@,
        "-f"@,
        "segment"@,
        "-segment_time"@,
        short_seconds(segment_ms),
        "-segment_format"@,
        "mpegts"@,
        "-reset_timestamps"@,
        "1"@,
        rung_dir_of(out_dir, rung.id) + "/%d.ts"@,
    ]
}

/// Arguments of the outputs of the first `n` rungs.
pub open spec fn outputs_args(
    profile: StreamProfile,
    out_dir: Seq<char>,
    has_libfdk: bool,
    n: int,
) -> Seq<Seq<char>>
    decreases n,
{
    if n <= 0 {
        Seq::empty()
    } else {
        outputs_args(profile, out_dir, has_libfdk, n - 1) + rung_args(
            profile.rungs@[n - 1],
            profile.segment_ms,
            out_dir,
            has_libfdk,
        )
    }
}

/// Warnings about the first `n` rungs.
pub open spec fn fallback_warnings(rungs: Seq<Rung>, has_libfdk: bool, n: int) -> Seq<Seq<char>>
    decreases n,
{
    if n <= 0 {
        Seq::empty()
    } else {
        let earlier = fallback_warnings(rungs, has_libfdk, n - 1);
        if falls_back(rungs[n - 1].codec, has_libfdk) {
            earlier.push(fallback_text(rungs[n - 1].name@))
        } else {
            earlier
        }
    }
}

/// Appends an argument.
pub fn arg(args: &mut Vec<String>, text: &str)
    ensures
        texts(final(args)@) == texts(old(args)@).push(text@),
{
    args.push(text.to_owned());
    assert(texts(args@) =~= texts(old(args)@).push(text@));
}

/// Appends the arguments that name the source.
fn push_source_args(args: &mut Vec<String>, source: &Source)
    ensures
        texts(final(args)@) == texts(old(args)@) + source_args(*source),
{
    let ghost before = texts(args@);
    match source {
        Source::Device(name) => {
            arg(args, "-f");
            arg(args, "pulse");
            arg(args, "-i");
            arg(args, name.as_str());
        },
        Source::SineTest => {
            arg(args, "-re");
            arg(args, "-f");
            arg(args, "lavfi");
            arg(args, "-i");
            arg(args, "sine=frequency=440:sample_rate=44100");
        },
        Source::Pcm { sample_rate } => {
            arg(args, "-f");
            arg(args, "f32le");
            arg(args, "-ar");
            let rate = text::decimal_text(*sample_rate as u64);
            arg(args, rate.as_str());
            arg(args, "-ac");
            arg(args, "2");
            arg(args, "-i");
            arg(args, "pipe:0");
        },
    }
    assert(texts(args@) =~= before + source_args(*source));
}

/// Appends the arguments of the output of one rung, and a warning if there is
/// one.
fn push_rung_args(
    args: &mut Vec<String>,
    warnings: &mut Vec<String>,
    rung: &Rung,
    segment_ms: u32,
    out_dir: &str,
    has_libfdk: bool,
)
    ensures
        texts(final(args)@) == texts(old(args)@) + rung_args(
            *rung,
            segment_ms,
            out_dir@,
            has_libfdk,
        ),
        texts(final(warnings)@) == (if falls_back(rung.codec, has_libfdk) {
            texts(old(warnings)@).push(fallback_text(rung.name@))
        } else {
            texts(old(warnings)@)
        }),
{
    let ghost before = texts(args@);
    let (codec, extra, warning) = codec_args(rung, has_libfdk);
    if let Some(w) = warning {
        let ghost w_text = w@;
        warnings.push(w);
        assert(texts(warnings@) =~= texts(old(warnings)@).push(w_text));
    }
    arg(args, "-map");
    arg(args, "0:a");
    arg(args, "-c:a");
    arg(args, codec);
    let ghost head = texts(args@);
    let mut i: usize = 0;
    assert(head + str_texts(extra@).take(0) =~= head);
    while i < extra.len()
        invariant
            i <= extra@.len(),
            texts(args@) == head + str_texts(extra@).take(i as int),
        decreases extra@.len() - i,
    {
        arg(args, extra[i]);
        assert(head + str_texts(extra@).take(i + 1) =~= (head + str_texts(extra@).take(
            i as int,
        )).push(extra@[i as int]@));
        i = i + 1;
    }
    assert(str_texts(extra@).take(i as int) =~= str_texts(extra@));
    let ghost middle = texts(args@);
    arg(args, "-b:a");
    let mut rate = text::decimal_text(rung.bitrate_kbps as u64);
    rate.append("k");
    arg(args, rate.as_str());
    arg(args, "-f");
    arg(args, "segment");
    arg(args, "-segment_time");
    let secs = short_seconds_text(segment_ms);
    arg(args, secs.as_str());
    arg(args, "-segment_format");
    arg(args, "mpegts");
    arg(args, "-reset_timestamps");
    arg(args, "1");
    let mut file = rung_dir(out_dir, rung.id);
    file.append("/%d.ts");
    arg(args, file.as_str());
    assert(texts(args@) =~= before + rung_args(*rung, segment_ms, out_dir@, has_libfdk));
}

/// The arguments of the encoder process, and the warnings to show.
pub fn ffmpeg_args(source: &Source, profile: &StreamProfile, out_dir: &str, has_libfdk: bool) -> (
    out: (Vec<String>, Vec<String>))
    ensures
        texts(out.0@) == seq!["-hide_banner"@, "-loglevel"@, "warning"@, "-y"@] + source_args(
            *source,
        ) + outputs_args(*profile, out_dir@, has_libfdk, profile.rungs@.len() as int),
        texts(out.1@) == fallback_warnings(
            profile.rungs@,
            has_libfdk,
            profile.rungs@.len() as int,
        ),
{
    let mut args: Vec<String> = Vec::new();
    let mut warnings: Vec<String> = Vec::new();
    arg(&mut args, "-hide_banner");
    arg(&mut args, "-loglevel");
    arg(&mut args, "warning");
    arg(&mut args, "-y");
    let ghost head = texts(args@);
    assert(head =~= seq!["-hide_banner"@, "-loglevel"@, "warning"@, "-y"@]);
    push_source_args(&mut args, source);
    let ghost start = texts(args@);
    let mut i: usize = 0;
    assert(start + outputs_args(*profile, out_dir@, has_libfdk, 0) =~= start);
    assert(texts(warnings@) =~= fallback_warnings(profile.rungs@, has_libfdk, 0));
    while i < profile.rungs.len()
        invariant
            i <= profile.rungs@.len(),
            texts(args@) == start + outputs_args(*profile, out_dir@, has_libfdk, i as int),
            texts(warnings@) == fallback_warnings(profile.rungs@, has_libfdk, i as int),
        decreases profile.rungs@.len() - i,
    {
        push_rung_args(
            &mut args,
            &mut warnings,
            &profile.rungs[i],
            profile.segment_ms,
            out_dir,
            has_libfdk,
        );
        assert(texts(args@) =~= start + outputs_args(*profile, out_dir@, has_libfdk, i + 1));
        i = i + 1;
    }
    (args, warnings)
}

/// The encoder reads samples from its standard input.
pub fn reads_stdin(source: &Source) -> (b: bool)
    ensures
        b == (*source is Pcm),
{
    match source {
        Source::Pcm { .. } => true,
        Source::Device(_) | Source::SineTest => false,
    }
}

} // verus!
