//! The encoder process.

use obcast::encode::{
    codec_args, encoders_list_has_libfdk_aac, ffmpeg_args, reads_stdin, rung_dir,
    short_seconds_text, Source,
};
use obcast::state::{AacCodec, Rung, StreamProfile};

fn rung(id: u8, codec: AacCodec) -> Rung {
    Rung {
        id,
        name: "lo".into(),
        bitrate_kbps: 48,
        codec,
    }
}

#[test]
fn encoders_list_has_libfdk_aac_detects_a_real_encoders_dump() {
    let output = "Encoders:\n V..... libx264   H.264\n A....D aac      AAC (Advanced Audio Coding)\n A....D libfdk_aac libfdk AAC\n";
    assert!(encoders_list_has_libfdk_aac(output));
}

#[test]
fn encoders_list_has_libfdk_aac_is_false_without_it() {
    let output =
        "Encoders:\n V..... libx264   H.264\n A....D aac      AAC (Advanced Audio Coding)\n";
    assert!(!encoders_list_has_libfdk_aac(output));
}

#[test]
fn encoders_list_has_libfdk_aac_handles_empty_output() {
    assert!(!encoders_list_has_libfdk_aac(""));
}

#[test]
fn codec_args_uses_libfdk_for_he_when_available() {
    let (name, args, warning) = codec_args(&rung(0, AacCodec::He), true);
    assert_eq!(name, "libfdk_aac");
    assert_eq!(args, vec!["-profile:a", "aac_he"]);
    assert!(warning.is_none());
}

#[test]
fn codec_args_falls_back_to_lc_for_he_when_libfdk_unavailable() {
    let (name, args, warning) = codec_args(&rung(0, AacCodec::He), false);
    assert_eq!(name, "aac");
    assert!(args.is_empty());
    assert!(warning.is_some(), "must warn when falling back from HE-AAC");
}

#[test]
fn codec_args_never_warns_for_a_plain_lc_rung() {
    let (name, args, warning) = codec_args(&rung(1, AacCodec::Lc), true);
    assert_eq!(name, "aac");
    assert!(args.is_empty());
    assert!(warning.is_none());

    let (name, args, warning) = codec_args(&rung(1, AacCodec::Lc), false);
    assert_eq!(name, "aac");
    assert!(args.is_empty());
    assert!(warning.is_none());
}

#[test]
fn the_encoder_is_told_every_rung() {
    let profile = StreamProfile {
        segment_ms: 2_500,
        rungs: vec![rung(0, AacCodec::He), rung(3, AacCodec::Lc)],
    };
    let (args, warnings) = ffmpeg_args(
        &Source::Pcm {
            sample_rate: 48_000,
        },
        &profile,
        "/out",
        true,
    );
    assert!(warnings.is_empty());
    assert_eq!(
        args.join(" "),
        "-hide_banner -loglevel warning -y -f f32le -ar 48000 -ac 2 -i pipe:0 \
         -map 0:a -c:a libfdk_aac -profile:a aac_he -b:a 48k -f segment -segment_time 2.5 \
         -segment_format mpegts -reset_timestamps 1 /out/0/%d.ts \
         -map 0:a -c:a aac -b:a 48k -f segment -segment_time 2.5 \
         -segment_format mpegts -reset_timestamps 1 /out/3/%d.ts"
    );
    let (_, warnings) = ffmpeg_args(&Source::SineTest, &profile, "/out", false);
    assert_eq!(warnings.len(), 1);
}

#[test]
fn only_a_pcm_source_is_fed_through_a_pipe() {
    assert!(reads_stdin(&Source::Pcm { sample_rate: 1 }));
    assert!(!reads_stdin(&Source::SineTest));
    assert!(!reads_stdin(&Source::Device("mic".into())));
    assert_eq!(rung_dir("/out", 2), "/out/2");
}

#[test]
fn segment_lengths_are_written_short() {
    assert_eq!(short_seconds_text(2_000), "2");
    assert_eq!(short_seconds_text(2_500), "2.5");
    assert_eq!(short_seconds_text(1_001), "1.001");
    assert_eq!(short_seconds_text(50), "0.05");
}
