//! HLS playlists, and which file serves a segment request.

use vstd::prelude::*;

use crate::ingest::ApiError;
use crate::state::{AacCodec, Rung, RungId, SeqNo, StreamProfile};
use crate::store::{self, DvrStore};
use crate::text::{self, parse_number, push_decimal, push_padded, same_text, strip_suffix};

verus! {

/// What a request below a rendition asks for.
#[derive(Clone, Copy, Debug, PartialEq, Eq, Structural)]
pub enum Tail {
    Playlist,
    Segment(SeqNo),
    /// Neither a playlist nor a segment.
    NotFound,
    /// A segment whose number cannot be read.
    BadRequest,
}

/// HLS `CODECS` tag of a codec.
pub open spec fn codec_tag_of(codec: AacCodec) -> Seq<char> {
    match codec {
        AacCodec::Lc => "mp4a.40.2"@,
        AacCodec::He => "mp4a.40.5"@,
    }
}

/// HLS `CODECS` tag of a codec.
pub fn codec_tag(codec: AacCodec) -> (tag: &'static str)
    ensures
        tag@ == codec_tag_of(codec),
{
    match codec {
        AacCodec::Lc => "mp4a.40.2",
        AacCodec::He => "mp4a.40.5",
    }
}

/// The two lines of a rung in the master playlist.
pub open spec fn variant_text(rung: Rung) -> Seq<char> {
    "#EXT-X-STREAM-INF:BANDWIDTH="@ + text::decimal((rung.bitrate_kbps * 1000) as nat)
        + ",CODECS=\""@ + codec_tag_of(rung.codec) + "\"\n"@ + text::decimal(rung.id as nat)
        + "/index.m3u8\n"@
}

/// The lines of the first `n` rungs in the master playlist.
pub open spec fn variants_text(rungs: Seq<Rung>, n: int) -> Seq<char>
    decreases n,
{
    if n <= 0 {
        Seq::empty()
    } else {
        variants_text(rungs, n - 1) + variant_text(rungs[n - 1])
    }
}

/// The master playlist: one variant per rung.
pub fn master_playlist(profile: &StreamProfile) -> (playlist: String)
    ensures
        playlist@ == "#EXTM3U\n#EXT-X-VERSION:3\n"@ + variants_text(
            profile.rungs@,
            profile.rungs@.len() as int,
        ),
{
    let mut out = "#EXTM3U\n#EXT-X-VERSION:3\n".to_owned();
    let ghost head = out@;
    let mut i: usize = 0;
    assert(out@ =~= head + variants_text(profile.rungs@, 0));
    while i < profile.rungs.len()
        invariant
            i <= profile.rungs@.len(),
            out@ == head + variants_text(profile.rungs@, i as int),
        decreases profile.rungs@.len() - i,
    {
        let rung = &profile.rungs[i];
        let ghost before = out@;
        out.append("#EXT-X-STREAM-INF:BANDWIDTH=");
        push_decimal(&mut out, rung.bitrate_kbps as u64 * 1000);
        out.append(",CODECS=\"");
        out.append(codec_tag(rung.codec));
        out.append("\"\n");
        push_decimal(&mut out, rung.id as u64);
        out.append("/index.m3u8\n");
        assert(out@ =~= before + variant_text(*rung));
        assert(out@ =~= head + variants_text(profile.rungs@, i + 1));
        i = i + 1;
    }
    out
}

/// What the tail of a request path asks for.
pub open spec fn tail_of(tail: Seq<char>) -> Tail {
    if tail == "index.m3u8"@ {
        Tail::Playlist
    } else if !text::ends_in(tail, ".ts"@) {
        Tail::NotFound
    } else {
        match text::number_in(tail.take(tail.len() - ".ts"@.len()), u64::MAX as nat) {
            Some(n) => Tail::Segment(n as u64),
            None => Tail::BadRequest,
        }
    }
}

/// What the tail of a request path asks for: `index.m3u8` or `{seq}.ts`.
pub fn rendition_tail(tail: &str) -> (request: Tail)
    ensures
        request == tail_of(tail@),
{
    if same_text(tail, "index.m3u8") {
        return Tail::Playlist;
    }
    match strip_suffix(tail, ".ts") {
        Some(stem) => {
            assert(stem@ =~= tail@.take(tail@.len() - ".ts"@.len()));
            match parse_number(stem, u64::MAX) {
                Some(seq) => Tail::Segment(seq),
                None => Tail::BadRequest,
            }
        },
        None => Tail::NotFound,
    }
}

/// A length in seconds with three decimals.
pub open spec fn seconds_text(ms: u32) -> Seq<char> {
    text::decimal((ms / 1000) as nat) + "."@ + text::decimal_padded((ms % 1000) as nat, 3)
}

/// The lines of one segment: a gap marker where there is no media, its length,
/// its name.
pub open spec fn entry_text(segment_ms: u32, seq: int, present: bool) -> Seq<char> {
    (if present {
        Seq::empty()
    } else {
        "#EXT-X-GAP\n"@
    }) + "#EXTINF:"@ + seconds_text(segment_ms) + ",\n"@ + text::decimal(seq as nat) + ".ts\n"@
}

/// The lines of so many segments from `start` on, where `media` says which of
/// them have media.
pub open spec fn entries_text(segment_ms: u32, start: int, media: Seq<bool>) -> Seq<char>
    decreases media.len(),
{
    if media.len() == 0 {
        Seq::empty()
    } else {
        entries_text(segment_ms, start, media.drop_last()) + entry_text(
            segment_ms,
            start + media.len() - 1,
            media.last(),
        )
    }
}

/// The entries of a rendition playlist: every segment from `start` to `end` has
/// one, with media or without, so that the place of an entry is always that of
/// its segment.
pub fn playlist_body<F: Fn(SeqNo) -> bool>(
    segment_ms: u32,
    start: SeqNo,
    end: SeqNo,
    has_media: F,
) -> (body: String)
    requires
        forall|seq: SeqNo| #[trigger] has_media.requires((seq,)),
    ensures
        exists|media: Seq<bool>|
            {
                &&& media.len() == (if start <= end {
                    end - start + 1
                } else {
                    0
                })
                &&& forall|i: int|
                    0 <= i < media.len() ==> has_media.ensures(
                        ((start + i) as u64,),
                        #[trigger] media[i],
                    )
                &&& body@ == #[trigger] entries_text(segment_ms, start as int, media)
            },
{
    let mut out = String::new();
    let ghost mut media: Seq<bool> = Seq::empty();
    let mut seq: SeqNo = start;
    assert(out@ =~= entries_text(segment_ms, start as int, media));
    while seq <= end
        invariant
            forall|seq: SeqNo| #[trigger] has_media.requires((seq,)),
            start <= seq,
            seq <= end || seq == start,
            media.len() == seq - start,
            forall|i: int|
                0 <= i < media.len() ==> has_media.ensures(
                    ((start + i) as u64,),
                    #[trigger] media[i],
                ),
            out@ == entries_text(segment_ms, start as int, media),
        decreases end + 1 - seq,
    {
        let present = has_media(seq);
        let ghost before = out@;
        if !present {
            out.append("#EXT-X-GAP\n");
        }
        out.append("#EXTINF:");
        push_decimal(&mut out, (segment_ms / 1000) as u64);
        out.append(".");
        push_padded(&mut out, (segment_ms % 1000) as u64, 3);
        out.append(",\n");
        push_decimal(&mut out, seq);
        out.append(".ts\n");
        proof {
            assert(out@ =~= before + entry_text(segment_ms, seq as int, present));
            let next = media.push(present);
            assert(next.drop_last() =~= media);
            media = next;
        }
        if seq == end {
            assert(out@ == entries_text(segment_ms, start as int, media));
            assert(forall|i: int|
                0 <= i < media.len() ==> has_media.ensures(
                    ((start + i) as u64,),
                    #[trigger] media[i],
                ));
            return out;
        }
        seq = seq + 1;
    }
    out
}

/// The text of a rendition playlist over a window, where `media` says which of
/// its segments have media.
pub open spec fn playlist_text(segment_ms: u32, window: Option<(SeqNo, Seq<bool>)>) -> Seq<char> {
    let head = "#EXTM3U\n#EXT-X-VERSION:3\n#EXT-X-TARGETDURATION:"@ + text::decimal(
        ((segment_ms + 999) / 1000) as nat,
    ) + "\n"@;
    match window {
        Some((start, media)) => head + "#EXT-X-MEDIA-SEQUENCE:"@ + text::decimal(start as nat)
            + "\n"@ + entries_text(segment_ms, start as int, media),
        None => head,
    }
}

/// Which segments from `start` to `end` have media.
pub open spec fn media_flags(held: store::Holdings, start: SeqNo, end: SeqNo) -> Seq<bool> {
    Seq::new(
        (end - start + 1) as nat,
        |i: int| held.contains_key((start + i) as u64),
    )
}

/// The rendition playlist over the DVR window. It is the same for every
/// rendition.
pub fn rendition_playlist(s: &DvrStore) -> (playlist: String)
    requires
        s.wf(),
    ensures
        playlist@ == playlist_text(
            s.profile_of().segment_ms,
            match (store::oldest(s.held()), store::newest(s.held())) {
                (Some(start), Some(end)) => Some((start, media_flags(s.held(), start, end))),
                _ => None,
            },
        ),
{
    let segment_ms: u32 = s.profile().segment_ms;
    let mut out = "#EXTM3U\n#EXT-X-VERSION:3\n#EXT-X-TARGETDURATION:".to_owned();
    push_decimal(&mut out, (segment_ms as u64 + 999) / 1000);
    out.append("\n");
    if let (Some(start), Some(end)) = (s.dvr_start_seq(), s.live_seq()) {
        out.append("#EXT-X-MEDIA-SEQUENCE:");
        push_decimal(&mut out, start);
        out.append("\n");
        let has_media = |seq: SeqNo| -> (b: bool)
            ensures
                b == s.held().contains_key(seq),
            { s.has_media(seq) };
        let body = playlist_body(segment_ms, start, end, has_media);
        proof {
            let media = choose|media: Seq<bool>|
                {
                    &&& media.len() == (if start <= end {
                        end - start + 1
                    } else {
                        0
                    })
                    &&& forall|i: int|
                        0 <= i < media.len() ==> has_media.ensures(
                            ((start + i) as u64,),
                            #[trigger] media[i],
                        )
                    &&& body@ == #[trigger] entries_text(segment_ms, start as int, media)
                };
            let flags = media_flags(s.held(), start, end);
            assert(start <= end);
            assert forall|i: int| 0 <= i < media.len() implies media[i] == flags[i] by {
                assert(has_media.ensures(((start + i) as u64,), media[i]));
            }
            assert(media =~= flags);
        }
        out.append(body.as_str());
    }
    out
}

/// The rung and the file that serve a segment: the rung asked for if it is on
/// disk, else the best one that is.
pub fn segment_source(s: &DvrStore, rendition: RungId, seq: SeqNo) -> (source: Option<
    (RungId, String),
>)
    requires
        s.wf(),
    ensures
        source is Some <==> s.held().contains_key(seq),
        source matches Some((rung, path)) ==> {
            &&& path@ == store::segment_file(s.dir(), rung, seq)
            &&& if s.held()[seq].contains(rendition) {
                rung == rendition
            } else {
                store::is_best(s.held(), seq, rung)
            }
        },
{
    let rung: RungId = if s.has_rung(seq, rendition) {
        rendition
    } else {
        match s.best_rung(seq) {
            Some(rung) => rung,
            None => {
                return None;
            },
        }
    };
    Some((rung, s.segment_path(rung, seq)))
}

/// What a read-only route answers for a stream that was never ingested into.
pub fn no_such_stream(stream: &str) -> (e: ApiError)
    ensures
        crate::ingest::is_error(e, 404, "no such stream: "@ + stream@),
{
    let mut message = "no such stream: ".to_owned();
    message.append(stream);
    ApiError(404, message)
}

/// Text of the entry of the segment `i` places after `start`, cut out of the
/// whole.
proof fn lemma_entries_split(segment_ms: u32, start: int, media: Seq<bool>, i: int)
    requires
        0 <= i < media.len(),
    ensures
        exists|before: Seq<char>, after: Seq<char>|
            {
                &&& before == entries_text(segment_ms, start, media.take(i))
                &&& #[trigger] (before + entry_text(segment_ms, start + i, media[i]) + after)
                    == entries_text(segment_ms, start, media)
            },
    decreases media.len(),
{
    let before = entries_text(segment_ms, start, media.take(i));
    let entry = entry_text(segment_ms, start + i, media[i]);
    if i == media.len() - 1 {
        assert(media.take(i) =~= media.drop_last());
        assert(before + entry + Seq::<char>::empty() =~= entries_text(segment_ms, start, media));
    } else {
        let front = media.drop_last();
        lemma_entries_split(segment_ms, start, front, i);
        assert(front.take(i) =~= media.take(i));
        let after = choose|after: Seq<char>|
            before + entry + after == entries_text(segment_ms, start, front);
        let last = entry_text(segment_ms, start + media.len() - 1, media.last());
        assert(before + entry + (after + last) =~= entries_text(segment_ms, start, media));
    }
}

/// Every segment of the window has its entry at its own place: the one at place
/// `i` is that of segment `start + i`, after the entries of the segments before
/// it.
pub proof fn law_entries_keep_their_places(segment_ms: u32, start: int, media: Seq<bool>, i: int)
    requires
        0 <= i < media.len(),
    ensures
        exists|after: Seq<char>|
            #[trigger] (entries_text(segment_ms, start, media.take(i)) + entry_text(
                segment_ms,
                start + i,
                media[i],
            ) + after) == entries_text(segment_ms, start, media),
{
    lemma_entries_split(segment_ms, start, media, i);
}

/// A late arrival changes the entry of its own segment and no other: what is
/// before it and what is after it stays.
pub proof fn law_late_arrival_changes_only_its_entry(
    segment_ms: u32,
    start: int,
    media: Seq<bool>,
    i: int,
)
    requires
        0 <= i < media.len(),
    ensures
        exists|before: Seq<char>, after: Seq<char>|
            {
                &&& #[trigger] (before + entry_text(segment_ms, start + i, media[i]) + after)
                    == entries_text(segment_ms, start, media)
                &&& before + entry_text(segment_ms, start + i, true) + after == entries_text(
                    segment_ms,
                    start,
                    media.update(i, true),
                )
            },
{
    let before = entries_text(segment_ms, start, media.take(i));
    let after = lemma_late_split(segment_ms, start, media, i);
    assert(before + entry_text(segment_ms, start + i, media[i]) + after == entries_text(
        segment_ms,
        start,
        media,
    ));
}

/// A late arrival takes one line away, the gap marker of its own segment, which
/// stands behind the entries of the segments before it; every other line stays.
pub proof fn law_late_arrival_drops_its_gap_marker(
    segment_ms: u32,
    start: int,
    media: Seq<bool>,
    i: int,
)
    requires
        0 <= i < media.len(),
        !media[i],
    ensures
        ({
            let before = entries_text(segment_ms, start, media.take(i));
            exists|rest: Seq<char>|
                {
                    &&& #[trigger] (before + "#EXT-X-GAP\n"@ + rest) == entries_text(
                        segment_ms,
                        start,
                        media,
                    )
                    &&& before + rest == entries_text(segment_ms, start, media.update(i, true))
                }
        }),
{
    let late = media.update(i, true);
    let before = entries_text(segment_ms, start, media.take(i));
    let gone = entry_text(segment_ms, start + i, false);
    let come = entry_text(segment_ms, start + i, true);
    let after = lemma_late_split(segment_ms, start, media, i);
    let rest = come + after;
    assert(gone =~= "#EXT-X-GAP\n"@ + come);
    assert(before + gone + after =~= before + "#EXT-X-GAP\n"@ + rest);
    assert(before + come + after =~= before + rest);
    assert(entries_text(segment_ms, start, late) == before + rest);
}

/// What follows an entry is the same whether its segment has media or not.
proof fn lemma_late_split(segment_ms: u32, start: int, media: Seq<bool>, i: int) -> (after: Seq<
    char,
>)
    requires
        0 <= i < media.len(),
    ensures
        entries_text(segment_ms, start, media) == entries_text(segment_ms, start, media.take(i))
            + entry_text(segment_ms, start + i, media[i]) + after,
        entries_text(segment_ms, start, media.update(i, true)) == entries_text(
            segment_ms,
            start,
            media.take(i),
        ) + entry_text(segment_ms, start + i, true) + after,
    decreases media.len(),
{
    let late = media.update(i, true);
    let before = entries_text(segment_ms, start, media.take(i));
    let old_entry = entry_text(segment_ms, start + i, media[i]);
    let new_entry = entry_text(segment_ms, start + i, true);
    if i == media.len() - 1 {
        assert(late.drop_last() =~= media.take(i));
        assert(media.drop_last() =~= media.take(i));
        let after = Seq::<char>::empty();
        assert(before + old_entry + after =~= before + old_entry);
        assert(before + new_entry + after =~= before + new_entry);
        after
    } else {
        let front = media.drop_last();
        let a = lemma_late_split(segment_ms, start, front, i);
        assert(front.take(i) =~= media.take(i));
        assert(late.drop_last() =~= front.update(i, true));
        let last = entry_text(segment_ms, start + media.len() - 1, media.last());
        let after = a + last;
        assert(before + old_entry + after =~= before + old_entry + a + last);
        assert(before + new_entry + after =~= before + new_entry + a + last);
        after
    }
}

/// Where the lines of rung `k` stand in the master playlist.
proof fn lemma_variant_at(rungs: Seq<Rung>, n: int, k: int) -> (at: int)
    requires
        0 <= k < n <= rungs.len(),
    ensures
        text::stands_at(variants_text(rungs, n), variant_text(rungs[k]), at),
    decreases n,
{
    let before = variants_text(rungs, n - 1);
    let all = variants_text(rungs, n);
    let one = variant_text(rungs[k]);
    if k == n - 1 {
        let at = before.len() as int;
        assert(all.subrange(at, at + one.len()) =~= one);
        at
    } else {
        let at = lemma_variant_at(rungs, n - 1, k);
        assert(all.subrange(at, at + one.len()) =~= before.subrange(at, at + one.len()));
        at
    }
}

/// The master playlist offers every rung: its bandwidth in bits per second, its codec, and
/// behind them the playlist under its id.
pub proof fn law_every_rung_is_offered(profile: &StreamProfile, k: int)
    requires
        0 <= k < profile.rungs@.len(),
    ensures
        ({
            let rung = profile.rungs@[k];
            let codec = if rung.codec == AacCodec::He {
                "mp4a.40.5"@
            } else {
                "mp4a.40.2"@
            };
            text::contains_text(
                "#EXTM3U\n#EXT-X-VERSION:3\n"@ + variants_text(
                    profile.rungs@,
                    profile.rungs@.len() as int,
                ),
                "#EXT-X-STREAM-INF:BANDWIDTH="@ + text::decimal(
                    (rung.bitrate_kbps * 1000) as nat,
                ) + ",CODECS=\""@ + codec + "\"\n"@ + text::decimal(rung.id as nat)
                    + "/index.m3u8\n"@,
            )
        }),
{
    let rungs = profile.rungs@;
    let n = rungs.len() as int;
    let head = "#EXTM3U\n#EXT-X-VERSION:3\n"@;
    let body = variants_text(rungs, n);
    let one = variant_text(rungs[k]);
    let at = lemma_variant_at(rungs, n, k);
    let place = head.len() + at;
    assert((head + body).subrange(place, place + one.len()) =~= body.subrange(at, at + one.len()));
    assert(text::stands_at(head + body, one, place));
}

/// The name under which a playlist lists a segment leads to that segment, and the name of
/// the playlist to the playlist; a name that ends otherwise leads nowhere.
pub proof fn law_listed_names_are_served(seq: SeqNo, other: Seq<char>)
    ensures
        tail_of(text::decimal(seq as nat) + ".ts"@) == Tail::Segment(seq),
        tail_of("index.m3u8"@) == Tail::Playlist,
        other != "index.m3u8"@ && !text::ends_in(other, ".ts"@) ==> tail_of(other)
            == Tail::NotFound,
{
    text::lemma_stem_reads_back(seq as nat, ".ts"@, u64::MAX as nat);
    reveal_strlit("index.m3u8");
    let tail = text::decimal(seq as nat) + ".ts"@;
    if tail == "index.m3u8"@ {
        assert(tail[0] == 'i');
    }
}

/// The length of a segment is listed in seconds with three decimals, and the length that
/// no segment exceeds in whole seconds, rounded up.
pub proof fn law_lengths_are_listed_in_seconds(segment_ms: u32)
    ensures
        exists|digits: Seq<char>|
            {
                &&& seconds_text(segment_ms) == #[trigger] (text::decimal(
                    (segment_ms / 1000) as nat,
                ) + "."@ + digits)
                &&& digits.len() == 3
                &&& text::all_digits(digits)
                &&& text::digits_value(digits) == segment_ms % 1000
            },
        exists|longest: nat|
            {
                &&& longest * 1000 >= segment_ms
                &&& segment_ms > 0 ==> (longest - 1) * 1000 < segment_ms
                &&& playlist_text(segment_ms, None)
                    == "#EXTM3U\n#EXT-X-VERSION:3\n#EXT-X-TARGETDURATION:"@
                    + #[trigger] text::decimal(longest) + "\n"@
            },
{
    let n = (segment_ms % 1000) as nat;
    let one = text::decimal_padded(n / 10 / 10, 1);
    let two = text::decimal_padded(n / 10, 2);
    let three = text::decimal_padded(n, 3);
    reveal_with_fuel(text::decimal_padded, 4);
    assert(text::digits_value(Seq::<char>::empty()) == 0);
    assert(one.drop_last() =~= Seq::<char>::empty());
    assert(two.drop_last() =~= one);
    assert(three.drop_last() =~= two);
    assert(text::digits_value(one) == n / 10 / 10);
    assert(text::digits_value(two) == n / 10);
    assert(text::digits_value(three) == n);
    assert(seconds_text(segment_ms) == text::decimal((segment_ms / 1000) as nat) + "."@ + three);
    let longest = ((segment_ms + 999) / 1000) as nat;
    assert(playlist_text(segment_ms, None) == "#EXTM3U\n#EXT-X-VERSION:3\n#EXT-X-TARGETDURATION:"@
        + text::decimal(longest) + "\n"@);
}

/// Every segment from the oldest to the newest is listed under its number, and exactly those
/// that are not on disk are marked as gaps; the list starts with the oldest one, and says
/// so.
pub proof fn law_the_whole_window_is_listed(s: &DvrStore, start: SeqNo, end: SeqNo, seq: SeqNo)
    requires
        store::is_oldest(s.held(), start),
        store::is_newest(s.held(), end),
        start <= seq <= end,
    ensures
        ({
            let media = media_flags(s.held(), start, end);
            let ms = s.profile_of().segment_ms;
            let list = entries_text(ms, start as int, media);
            let before = entries_text(ms, start as int, media.take(seq - start));
            let entry = (if s.held().contains_key(seq) {
                Seq::empty()
            } else {
                "#EXT-X-GAP\n"@
            }) + "#EXTINF:"@ + seconds_text(ms) + ",\n"@ + text::decimal(seq as nat) + ".ts\n"@;
            &&& media.len() == end - start + 1
            &&& text::stands_at(list, entry, before.len() as int)
            &&& playlist_text(ms, Some((start, media))) == playlist_text(ms, None)
                + "#EXT-X-MEDIA-SEQUENCE:"@ + text::decimal(start as nat) + "\n"@ + list
        }),
{
    let media = media_flags(s.held(), start, end);
    let ms = s.profile_of().segment_ms;
    let list = entries_text(ms, start as int, media);
    let i = seq - start;
    let before = entries_text(ms, start as int, media.take(i));
    let entry = entry_text(ms, start + i, media[i]);
    law_entries_keep_their_places(ms, start as int, media, i);
    let after = choose|after: Seq<char>| #[trigger] (before + entry + after) == list;
    let at = before.len() as int;
    assert(list.subrange(at, at + entry.len()) =~= entry);
    assert(media[i] == s.held().contains_key(seq));
    if media[i] {
        assert(entry =~= Seq::<char>::empty() + "#EXTINF:"@ + seconds_text(ms) + ",\n"@
            + text::decimal(seq as nat) + ".ts\n"@);
    }
    assert(playlist_text(ms, Some((start, media))) =~= playlist_text(ms, None)
        + "#EXT-X-MEDIA-SEQUENCE:"@ + text::decimal(start as nat) + "\n"@ + list);
}

} // verus!
