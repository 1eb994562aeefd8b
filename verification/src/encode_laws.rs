//! What holds of the command line of the encoder process.

use vstd::prelude::*;

use crate::encode::{self, Source};
use crate::state::{AacCodec, Rung, RungId, SeqNo, StreamProfile};
use crate::{store, text};

verus! {

/// The command line that [`encode::ffmpeg_args`] returns.
pub open spec fn command_line(
    source: Source,
    profile: StreamProfile,
    out_dir: Seq<char>,
    has_libfdk: bool,
) -> Seq<Seq<char>> {
    seq!["-hide_banner"@, "-loglevel"@, "warning"@, "-y"@] + encode::source_args(source)
        + encode::outputs_args(profile, out_dir, has_libfdk, profile.rungs@.len() as int)
}

/// The arguments of one rung's output, cut out of those of all outputs.
proof fn lemma_output_of(
    profile: StreamProfile,
    out_dir: Seq<char>,
    has_libfdk: bool,
    n: int,
    k: int,
) -> (at: int)
    requires
        0 <= k < n <= profile.rungs@.len(),
    ensures
        ({
            let all = encode::outputs_args(profile, out_dir, has_libfdk, n);
            let one = encode::rung_args(profile.rungs@[k], profile.segment_ms, out_dir, has_libfdk);
            &&& 0 <= at
            &&& at + one.len() <= all.len()
            &&& forall|i: int| 0 <= i < one.len() ==> #[trigger] all[at + i] == one[i]
        }),
    decreases n,
{
    let before = encode::outputs_args(profile, out_dir, has_libfdk, n - 1);
    let all = encode::outputs_args(profile, out_dir, has_libfdk, n);
    if k == n - 1 {
        before.len() as int
    } else {
        let at = lemma_output_of(profile, out_dir, has_libfdk, n - 1, k);
        let one = encode::rung_args(profile.rungs@[k], profile.segment_ms, out_dir, has_libfdk);
        assert forall|i: int| 0 <= i < one.len() implies #[trigger] all[at + i] == one[i] by {
            assert(before[at + i] == one[i]);
        }
        at
    }
}

/// Every rung of the ladder is encoded, at its own bitrate, into its own directory: the
/// output that writes the numbered files there carries the rung's bitrate, and is cut
/// into segments of the profile's length, counted from the start.
pub proof fn law_every_rung_has_its_bitrate(
    source: Source,
    profile: StreamProfile,
    out_dir: Seq<char>,
    has_libfdk: bool,
    k: int,
) -> (at: int)
    requires
        0 <= k < profile.rungs@.len(),
        out_dir.len() > 0,
        out_dir.last() != '/',
    ensures
        ({
            let args = command_line(source, profile, out_dir, has_libfdk);
            let rung = profile.rungs@[k];
            &&& 6 <= at && at + 10 < args.len()
            &&& args[at] == "-b:a"@
            &&& args[at + 1] == text::decimal(rung.bitrate_kbps as nat) + "k"@
            &&& args[at + 2] == "-f"@ && args[at + 3] == "segment"@
            &&& args[at + 4] == "-segment_time"@
            &&& args[at + 5] == encode::short_seconds(profile.segment_ms)
            &&& args[at + 6] == "-segment_format"@ && args[at + 7] == "mpegts"@
            &&& args[at + 8] == "-reset_timestamps"@ && args[at + 9] == "1"@
            &&& args[at + 10] == out_dir + "/"@ + text::decimal(rung.id as nat) + "/%d.ts"@
            &&& if rung.codec == AacCodec::He && has_libfdk {
                &&& args[at - 6] == "-map"@ && args[at - 5] == "0:a"@
                &&& args[at - 4] == "-c:a"@ && args[at - 3] == "libfdk_aac"@
                &&& args[at - 2] == "-profile:a"@ && args[at - 1] == "aac_he"@
            } else {
                &&& args[at - 4] == "-map"@ && args[at - 3] == "0:a"@
                &&& args[at - 2] == "-c:a"@ && args[at - 1] == "aac"@
            }
        }),
{
    let n = profile.rungs@.len() as int;
    let rung = profile.rungs@[k];
    let args = command_line(source, profile, out_dir, has_libfdk);
    let one = encode::rung_args(rung, profile.segment_ms, out_dir, has_libfdk);
    let extra = encode::profile_args(rung.codec, has_libfdk);
    let from = lemma_output_of(profile, out_dir, has_libfdk, n, k);
    let outputs = encode::outputs_args(profile, out_dir, has_libfdk, n);
    let head: int = 4 + encode::source_args(source).len() as int;
    assert forall|i: int| 0 <= i < one.len() implies #[trigger] args[head + from + i] == one[i] by {
        assert(args[head + (from + i)] == outputs[from + i]);
    }
    let b: int = 4 + extra.len() as int;
    let at = head + from + b;
    assert(one.len() == b + 11);
    assert(one[b] == "-b:a"@);
    assert(args[head + from + b] == one[b]);
    assert(args[head + from + (b + 1)] == one[b + 1]);
    assert(args[head + from + (b + 2)] == one[b + 2]);
    assert(args[head + from + (b + 3)] == one[b + 3]);
    assert(args[head + from + (b + 4)] == one[b + 4]);
    assert(args[head + from + (b + 5)] == one[b + 5]);
    assert(args[head + from + (b + 6)] == one[b + 6]);
    assert(args[head + from + (b + 7)] == one[b + 7]);
    assert(args[head + from + (b + 8)] == one[b + 8]);
    assert(args[head + from + (b + 9)] == one[b + 9]);
    assert(args[head + from + (b + 10)] == one[b + 10]);
    assert(args[head + from + (b - 1)] == one[b - 1]);
    assert(args[head + from + (b - 2)] == one[b - 2]);
    assert(args[head + from + (b - 3)] == one[b - 3]);
    assert(args[head + from + (b - 4)] == one[b - 4]);
    if extra.len() > 0 {
        assert(args[head + from + (b - 5)] == one[b - 5]);
        assert(args[head + from + (b - 6)] == one[b - 6]);
    }
    at
}

/// Two rungs of different bitrates are never encoded at the same one.
pub proof fn law_bitrate_arguments_differ(a: Rung, b: Rung)
    requires
        a.bitrate_kbps != b.bitrate_kbps,
    ensures
        text::decimal(a.bitrate_kbps as nat) + "k"@ != text::decimal(b.bitrate_kbps as nat) + "k"@,
{
    let x = text::decimal(a.bitrate_kbps as nat);
    let y = text::decimal(b.bitrate_kbps as nat);
    if x + "k"@ == y + "k"@ {
        assert(x.len() + "k"@.len() == (x + "k"@).len());
        assert(y.len() + "k"@.len() == (y + "k"@).len());
        assert(x =~= (x + "k"@).take(x.len() as int));
        assert(y =~= (y + "k"@).take(y.len() as int));
        text::law_decimal_is_injective(a.bitrate_kbps as nat, b.bitrate_kbps as nat);
    }
}

/// The input is named before every output: the device that was chosen, the generator,
/// or standard input, where samples of two channels come at the rate they were captured
/// with.
pub proof fn law_the_input_comes_first(
    source: Source,
    profile: StreamProfile,
    out_dir: Seq<char>,
    has_libfdk: bool,
) -> (at: int)
    ensures
        ({
            let args = command_line(source, profile, out_dir, has_libfdk);
            &&& 4 <= at && at + 1 < args.len()
            &&& args[at] == "-i"@
            &&& match source {
                Source::Device(name) => args[at - 2] == "-f"@ && args[at - 1] == "pulse"@ && args[at
                    + 1] == name@,
                Source::SineTest => {
                    &&& args[at - 3] == "-re"@ && args[at - 2] == "-f"@ && args[at - 1] == "lavfi"@
                    &&& args[at + 1] == "sine=frequency=440:sample_rate=44100"@
                },
                Source::Pcm { sample_rate } => {
                    &&& args[at + 1] == "pipe:0"@
                    &&& args[at - 6] == "-f"@ && args[at - 5] == "f32le"@
                    &&& args[at - 4] == "-ar"@ && args[at - 3] == text::decimal(sample_rate as nat)
                    &&& args[at - 2] == "-ac"@ && args[at - 1] == "2"@
                },
            }
            &&& profile.rungs@.len() > 0 ==> at + 2 < args.len() && args[at + 2] == "-map"@
            &&& args.take(4).contains("-y"@)
        }),
{
    let args = command_line(source, profile, out_dir, has_libfdk);
    let input = encode::source_args(source);
    let at: int = 4 + input.len() - 2;
    assert forall|i: int| 0 <= i < input.len() implies #[trigger] args[4 + i] == input[i] by {}
    assert(args.take(4)[3] == "-y"@);
    assert(args[4 + (input.len() - 2)] == input[input.len() - 2]);
    assert(args[4 + (input.len() - 1)] == input[input.len() - 1]);
    assert(args[4 + (input.len() - 3)] == input[input.len() - 3]);
    assert(args[4 + (input.len() - 4)] == input[input.len() - 4]);
    if input.len() >= 5 {
        assert(args[4 + (input.len() - 5)] == input[input.len() - 5]);
    }
    if input.len() >= 8 {
        assert(args[4 + (input.len() - 6)] == input[input.len() - 6]);
        assert(args[4 + (input.len() - 7)] == input[input.len() - 7]);
        assert(args[4 + (input.len() - 8)] == input[input.len() - 8]);
    }
    let n = profile.rungs@.len() as int;
    if n > 0 {
        lemma_first_output(profile, out_dir, has_libfdk, n);
        assert(args[at + 2] == encode::outputs_args(profile, out_dir, has_libfdk, n)[0]);
    }
    at
}

proof fn lemma_first_output(profile: StreamProfile, out_dir: Seq<char>, has_libfdk: bool, n: int)
    requires
        0 < n <= profile.rungs@.len(),
    ensures
        encode::outputs_args(profile, out_dir, has_libfdk, n).len() > 0,
        encode::outputs_args(profile, out_dir, has_libfdk, n)[0] == "-map"@,
    decreases n,
{
    let before = encode::outputs_args(profile, out_dir, has_libfdk, n - 1);
    if n > 1 {
        lemma_first_output(profile, out_dir, has_libfdk, n - 1);
        assert(encode::outputs_args(profile, out_dir, has_libfdk, n)[0] == before[0]);
    } else {
        let one = encode::rung_args(profile.rungs@[0], profile.segment_ms, out_dir, has_libfdk);
        assert(before =~= Seq::<Seq<char>>::empty());
        assert(encode::outputs_args(profile, out_dir, has_libfdk, n) =~= one);
        assert(one[0] == "-map"@);
    }
}

/// What the encoder writes for segment `seq` of a rung is the file under which the
/// segment is looked for.
pub proof fn law_files_are_where_they_are_looked_for(out_dir: Seq<char>, rung: RungId, seq: SeqNo)
    ensures
        encode::rung_dir_of(out_dir, rung) + "/"@ + text::decimal(seq as nat) + ".ts"@
            == store::segment_file(out_dir, rung, seq),
        out_dir.len() > 0 && out_dir.last() != '/' ==> store::segment_file(out_dir, rung, seq)
            == out_dir + "/"@ + text::decimal(rung as nat) + "/"@ + text::decimal(seq as nat)
            + ".ts"@,
{
}

/// A length in seconds stands for the length in milliseconds that it was made of: whole
/// seconds as they are, else with a fraction of one to three digits.
pub proof fn law_seconds_stand_for_milliseconds(ms: u32)
    ensures
        ms % 1000 == 0 ==> encode::short_seconds(ms) == text::decimal((ms / 1000) as nat),
        ms % 1000 != 0 ==> exists|digits: Seq<char>, unit: nat|
            {
                &&& encode::short_seconds(ms) == #[trigger] (text::decimal((ms / 1000) as nat)
                    + "."@ + digits)
                &&& digits.len() == 1 && unit == 100 || digits.len() == 2 && unit == 10
                    || digits.len() == 3 && unit == 1
                &&& text::all_digits(digits)
                &&& digits.last() != '0'
                &&& #[trigger] (text::digits_value(digits) * unit) == ms % 1000
            },
{
    let frac = (ms % 1000) as nat;
    let whole = text::decimal((ms / 1000) as nat);
    reveal_with_fuel(text::decimal_padded, 4);
    reveal_with_fuel(text::digits_value, 4);
    if frac == 0 {
        assert(encode::short_seconds(ms) =~= whole);
    } else {
        let (unit, digits) = if frac % 100 == 0 {
            (100nat, text::decimal_padded(frac / 100, 1))
        } else if frac % 10 == 0 {
            (10nat, text::decimal_padded(frac / 10, 2))
        } else {
            (1nat, text::decimal_padded(frac, 3))
        };
        assert(digits.drop_last().len() == digits.len() - 1);
        lemma_padded(frac, unit);
        assert(encode::short_seconds(ms) =~= whole + "."@ + digits);
        assert(text::digits_value(digits) * unit == frac);
    }
}

proof fn lemma_padded(frac: nat, unit: nat)
    requires
        0 < frac < 1000,
        unit == 100 || unit == 10 || unit == 1,
        frac % unit == 0,
        unit < 100 ==> frac % (10 * unit) != 0,
    ensures
        ({
            let width: nat = if unit == 100 {
                1
            } else if unit == 10 {
                2
            } else {
                3
            };
            let digits = text::decimal_padded(frac / unit, width);
            &&& digits.len() == width
            &&& text::all_digits(digits)
            &&& digits.last() != '0'
            &&& text::digits_value(digits) * unit == frac
        }),
{
    reveal_with_fuel(text::decimal_padded, 4);
    let n = frac / unit;
    let none = text::decimal_padded(n / 1000, 0);
    assert(none.len() == 0);
    assert(text::digits_value(Seq::<char>::empty()) == 0);
    if unit == 100 {
        let one = text::decimal_padded(n, 1);
        assert(one.drop_last() =~= Seq::<char>::empty());
        assert(text::digits_value(one) == n);
        assert(n % 10 != 0);
        assert(n * 100 == frac);
    } else if unit == 10 {
        let one = text::decimal_padded(n / 10, 1);
        let two = text::decimal_padded(n, 2);
        assert(one.drop_last() =~= Seq::<char>::empty());
        assert(two.drop_last() =~= one);
        assert(text::digits_value(one) == n / 10);
        assert(text::digits_value(two) == n);
        assert(frac % 100 != 0);
        assert(n * 10 == frac);
        assert(n % 10 != 0);
    } else {
        let one = text::decimal_padded(n / 10 / 10, 1);
        let two = text::decimal_padded(n / 10, 2);
        let three = text::decimal_padded(n, 3);
        assert(one.drop_last() =~= Seq::<char>::empty());
        assert(two.drop_last() =~= one);
        assert(three.drop_last() =~= two);
        assert(text::digits_value(one) == n / 10 / 10);
        assert(text::digits_value(two) == n / 10);
        assert(text::digits_value(three) == n);
        assert(n % 10 != 0);
    }
}

/// The operator is told of every rung that is not encoded as it should be, by its name,
/// once: of those that want HE-AAC where it cannot be had, and of no other.
pub proof fn law_every_fallback_is_told(rungs: Seq<Rung>, has_libfdk: bool, n: int)
    requires
        0 <= n <= rungs.len(),
    ensures
        has_libfdk ==> encode::fallback_warnings(rungs, has_libfdk, n).len() == 0,
        !has_libfdk ==> encode::fallback_warnings(rungs, has_libfdk, n).len() == rungs.take(
            n,
        ).filter(|r: Rung| r.codec == AacCodec::He).len(),
        !has_libfdk ==> forall|k: int|
            0 <= k < n && (#[trigger] rungs[k]).codec == AacCodec::He ==> exists|i: int|
                0 <= i < encode::fallback_warnings(rungs, has_libfdk, n).len()
                    && text::contains_text(
                    #[trigger] encode::fallback_warnings(rungs, has_libfdk, n)[i],
                    rungs[k].name@,
                ),
    decreases n,
{
    let he = |r: Rung| r.codec == AacCodec::He;
    let all = encode::fallback_warnings(rungs, has_libfdk, n);
    reveal(Seq::filter);
    if n > 0 {
        law_every_fallback_is_told(rungs, has_libfdk, n - 1);
        let earlier = encode::fallback_warnings(rungs, has_libfdk, n - 1);
        assert(rungs.take(n).drop_last() =~= rungs.take(n - 1));
        if !has_libfdk {
            assert forall|k: int| 0 <= k < n && (#[trigger] rungs[k]).codec
                == AacCodec::He implies exists|i: int|
                0 <= i < all.len() && text::contains_text(#[trigger] all[i], rungs[k].name@) by {
                if k < n - 1 {
                    let i = choose|i: int|
                        0 <= i < earlier.len() && text::contains_text(
                            #[trigger] earlier[i],
                            rungs[k].name@,
                        );
                    assert(all[i] == earlier[i]);
                } else {
                    let last = all[all.len() - 1];
                    let name = rungs[k].name@;
                    let before = "ffmpeg build lacks libfdk_aac: rung \""@;
                    assert(last == encode::fallback_text(name));
                    let b = before.len() as int;
                    assert(last.subrange(b, b + name.len()) =~= name);
                    assert(text::stands_at(last, name, before.len() as int));
                }
            }
        }
    } else {
        assert(rungs.take(0) =~= Seq::<Rung>::empty());
    }
}

/// There is one output for each rung of the ladder and no other: so many arguments as those
/// of all rungs take, two more for each that is encoded as HE-AAC.
pub proof fn law_nothing_else_is_encoded(
    profile: StreamProfile,
    out_dir: Seq<char>,
    has_libfdk: bool,
    n: int,
)
    requires
        0 <= n <= profile.rungs@.len(),
    ensures
        encode::outputs_args(profile, out_dir, has_libfdk, n).len() == 15 * n + (if has_libfdk {
            2 * profile.rungs@.take(n).filter(|r: Rung| r.codec == AacCodec::He).len()
        } else {
            0
        }),
    decreases n,
{
    reveal(Seq::filter);
    if n > 0 {
        law_nothing_else_is_encoded(profile, out_dir, has_libfdk, n - 1);
        assert(profile.rungs@.take(n).drop_last() =~= profile.rungs@.take(n - 1));
    } else {
        assert(profile.rungs@.take(0) =~= Seq::<Rung>::empty());
    }
}

} // verus!
