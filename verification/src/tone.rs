//! The test-tone pattern: 2 s on both channels, then half a second each of
//! silence, left, silence, right, silence, over and over.

use vstd::prelude::*;

verus! {

/// Channels that a section of the pattern sounds on.
#[derive(Clone, Copy, Debug, PartialEq, Eq, Structural)]
pub enum ToneChannels {
    Both,
    Left,
    Right,
    Silent,
}

/// Half a second in samples, rounded up.
pub open spec fn half_second(sample_rate: u32) -> int {
    (sample_rate + 1) / 2
}

/// The channels that sound `pos` samples into the pattern.
pub open spec fn channels_at(sample_rate: u32, pos: int) -> ToneChannels {
    let both = 2 * sample_rate;
    let half = half_second(sample_rate);
    if pos < both {
        ToneChannels::Both
    } else if pos < both + half {
        ToneChannels::Silent
    } else if pos < both + 2 * half {
        ToneChannels::Left
    } else if pos < both + 3 * half {
        ToneChannels::Silent
    } else if pos < both + 4 * half {
        ToneChannels::Right
    } else {
        ToneChannels::Silent
    }
}

/// The first section that ends after `pos`; silence past all of them.
pub open spec fn section_at(bounds: Seq<(u64, ToneChannels)>, pos: u64) -> ToneChannels
    decreases bounds.len(),
{
    if bounds.len() == 0 {
        ToneChannels::Silent
    } else if pos < bounds[0].0 {
        bounds[0].1
    } else {
        section_at(bounds.drop_first(), pos)
    }
}

/// The sections of the pattern at a sample rate, each with the sample at which
/// it ends, and the length of the pattern in samples.
pub fn build_test_tone_pattern(sample_rate: u32) -> (pattern: (Vec<(u64, ToneChannels)>, u64))
    ensures
        pattern.0@.len() == 6,
        forall|pos: u64| #[trigger] section_at(pattern.0@, pos) == channels_at(
            sample_rate,
            pos as int,
        ),
        pattern.1 == (if sample_rate == 0 {
            1
        } else {
            2 * sample_rate + 5 * half_second(sample_rate)
        }),
        pattern.0@[5].0 == 2 * sample_rate + 5 * half_second(sample_rate),
        sample_rate > 0 ==> 9 * sample_rate <= 2 * pattern.1 <= 9 * sample_rate + 5,
{
    let both: u64 = 2 * sample_rate as u64;
    let half: u64 = (sample_rate as u64 + 1) / 2;
    let mut bounds: Vec<(u64, ToneChannels)> = Vec::new();
    bounds.push((both, ToneChannels::Both));
    bounds.push((both + half, ToneChannels::Silent));
    bounds.push((both + 2 * half, ToneChannels::Left));
    bounds.push((both + 3 * half, ToneChannels::Silent));
    bounds.push((both + 4 * half, ToneChannels::Right));
    bounds.push((both + 5 * half, ToneChannels::Silent));
    assert forall|pos: u64| #[trigger] section_at(bounds@, pos) == channels_at(
        sample_rate,
        pos as int,
    ) by {
        reveal_with_fuel(section_at, 7);
    }
    let total: u64 = both + 5 * half;
    (
        bounds,
        if total == 0 {
            1
        } else {
            total
        },
    )
}

/// The channels that sound at a position of the pattern.
pub fn test_tone_channels_at(pos: u64, bounds: &[(u64, ToneChannels)]) -> (channels: ToneChannels)
    ensures
        channels == section_at(bounds@, pos),
{
    let mut i: usize = 0;
    assert(bounds@.skip(0) =~= bounds@);
    while i < bounds.len()
        invariant
            i <= bounds@.len(),
            section_at(bounds@, pos) == section_at(bounds@.skip(i as int), pos),
        decreases bounds@.len() - i,
    {
        assert(bounds@.skip(i as int)[0] == bounds@[i as int]);
        assert(bounds@.skip(i as int).drop_first() =~= bounds@.skip(i + 1));
        let (end, channels) = bounds[i];
        if pos < end {
            return channels;
        }
        i = i + 1;
    }
    ToneChannels::Silent
}

/// The position one sample on, back at the start after the last one.
pub fn next_tone_pos(pos: u64, total: u64) -> (next: u64)
    requires
        pos < total,
    ensures
        next == (if pos + 1 == total {
            0
        } else {
            pos + 1
        }),
        next < total,
{
    if pos + 1 == total {
        0
    } else {
        pos + 1
    }
}

/// The pattern tells the channels apart: after two seconds on both of them, each sounds
/// alone for half a second, the left one first, with as much silence before, between and
/// behind.
pub proof fn law_each_channel_sounds_alone(sample_rate: u32, half: int, pos: int)
    requires
        sample_rate <= 2 * half <= sample_rate + 1,
        0 <= pos,
    ensures
        channels_at(sample_rate, pos) == ToneChannels::Both <==> pos < 2 * sample_rate,
        channels_at(sample_rate, pos) == ToneChannels::Left <==> half <= pos - 2 * sample_rate < 2
            * half,
        channels_at(sample_rate, pos) == ToneChannels::Right <==> 3 * half <= pos - 2 * sample_rate
            < 4 * half,
{
}

} // verus!
