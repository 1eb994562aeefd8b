//! Settings of the two programs and the rules on them.

use std::collections::BTreeSet;
use vstd::prelude::*;

use crate::state::{self, AacCodec, Rung, RungId, StreamProfile};
use crate::text::{self, push_decimal, same_text};
use crate::uploader;

verus! {

broadcast use vstd::std_specs::btree::group_btree_axioms;

/// The audio subsystem and the device that playout opens. Empty means the
/// platform's default.
#[derive(Clone, Debug, PartialEq, Eq)]
pub struct AudioConfig {
    pub host: String,
    pub device: String,
}

/// The settings in the server's file.
#[derive(Clone, Debug, PartialEq, Eq)]
pub struct ServerConfig {
    pub audio: AudioConfig,
}

impl Default for AudioConfig {
    fn default() -> (config: Self)
        ensures
            config.host@ == ""@,
            config.device@ == ""@,
    {
        AudioConfig { host: "".to_owned(), device: "".to_owned() }
    }
}

impl Default for ServerConfig {
    fn default() -> (config: Self)
        ensures
            config.audio.host@ == ""@,
            config.audio.device@ == ""@,
    {
        ServerConfig { audio: AudioConfig::default() }
    }
}

/// Which peak reading the level meters mark.
#[derive(Clone, Copy, Debug, PartialEq, Eq)]
pub enum PeakMode {
    /// The broadcast standard's quasi-peak.
    Ppm,
    /// The true sample peak.
    DigitalPeak,
}

impl Default for PeakMode {
    fn default() -> (mode: Self)
        ensures
            mode == PeakMode::Ppm,
    {
        PeakMode::Ppm
    }
}

/// What the encoder remembers from one run to the next.
#[derive(Clone, Debug, PartialEq, Eq)]
pub struct AppConfig {
    pub server: String,
    pub stream: String,
    pub ingest_token: String,
    pub segment_ms: u32,
    pub out_dir: String,
    /// The audio subsystem of `device_name`; empty means the platform's default.
    pub audio_host: String,
    pub device_name: String,
    pub mono: bool,
    pub left_channel: u16,
    pub right_channel: u16,
    /// The input gain in dB, as the bits of its 32-bit form.
    pub gain_db_bits: u32,
    pub peak_mode: PeakMode,
    /// The server shall start playout on its own once enough is buffered.
    pub auto_start: bool,
    pub auto_start_buffer_secs: u32,
    /// The rungs that are encoded; never empty once normalized.
    pub enabled_rungs: Vec<RungId>,
    /// The rung that is assumed before the link has been measured.
    pub default_rung: RungId,
}

/// The ids of the rungs that every component ships, in ascending order.
pub fn all_rung_ids() -> (ids: Vec<RungId>)
    ensures
        ids@ == seq![0u8, 1u8, 2u8, 3u8],
{
    let ladder = StreamProfile::default_ladder(0);
    let mut ids: Vec<RungId> = Vec::new();
    let mut i: usize = 0;
    while i < ladder.rungs.len()
        invariant
            i <= ladder.rungs@.len(),
            ids@ == uploader::ids_of(ladder).take(i as int),
        decreases ladder.rungs@.len() - i,
    {
        ids.push(ladder.rungs[i].id);
        assert(uploader::ids_of(ladder).take(i + 1) =~= uploader::ids_of(ladder).take(
            i as int,
        ).push(ladder.rungs@[i as int].id));
        i = i + 1;
    }
    assert(ids@ =~= seq![0u8, 1u8, 2u8, 3u8]);
    ids
}

impl Default for AppConfig {
    fn default() -> (config: Self)
        ensures
            config.server@ == "http://127.0.0.1:8080"@,
            config.stream@ == "obshow"@,
            config.ingest_token@ == ""@,
            config.segment_ms == 2000,
            config.out_dir@ == "./client-buffer"@,
            config.audio_host@ == ""@,
            config.device_name@ == ""@,
            !config.mono,
            config.left_channel == 0,
            config.right_channel == 1,
            config.gain_db_bits == 0,
            config.peak_mode == PeakMode::Ppm,
            !config.auto_start,
            config.auto_start_buffer_secs == 300,
            config.enabled_rungs@ == seq![0u8, 1u8, 2u8, 3u8],
            config.default_rung == 0,
    {
        AppConfig {
            server: "http://127.0.0.1:8080".to_owned(),
            stream: "obshow".to_owned(),
            ingest_token: "".to_owned(),
            segment_ms: 2000,
            out_dir: "./client-buffer".to_owned(),
            audio_host: "".to_owned(),
            device_name: "".to_owned(),
            mono: false,
            left_channel: 0,
            right_channel: 1,
            gain_db_bits: 0,
            peak_mode: PeakMode::Ppm,
            auto_start: false,
            auto_start_buffer_secs: 300,
            enabled_rungs: all_rung_ids(),
            default_rung: 0,
        }
    }
}

/// What the command line says of a session with a window.
#[derive(Clone, Debug, PartialEq, Eq)]
pub struct Overrides {
    pub server: String,
    pub stream: String,
    pub ingest_token: Option<String>,
    pub out_dir: String,
    pub segment_ms: u32,
    pub auto_start_secs: Option<u32>,
}

/// `chosen`, unless it is what stands there when nothing was said.
pub open spec fn overridden(kept: Seq<char>, chosen: Seq<char>, default: Seq<char>) -> Seq<char> {
    if chosen == default {
        kept
    } else {
        chosen
    }
}

/// Ids in ascending order.
pub open spec fn in_order(ids: Seq<RungId>) -> bool {
    forall|i: int, j: int| 0 <= i <= j < ids.len() ==> ids[i] <= ids[j]
}

/// The ids of a list but one.
pub open spec fn others(ids: Seq<RungId>, id: RungId) -> Seq<RungId> {
    ids.filter(|r: RungId| r != id)
}

/// `after` is the list of enabled rungs once one of them is switched on or off.
/// A rung that is new to the list puts it into ascending order. The last rung
/// stays on.
pub open spec fn is_toggled(
    after: Seq<RungId>,
    before: Seq<RungId>,
    rung: RungId,
    enable: bool,
) -> bool {
    if enable && !before.contains(rung) {
        &&& in_order(after)
        &&& after.to_multiset() == before.to_multiset().insert(rung)
    } else if !enable && before.len() > 1 {
        after == others(before, rung)
    } else {
        after == before
    }
}

/// An id is in the list.
fn has_id(ids: &Vec<RungId>, id: RungId) -> (b: bool)
    ensures
        b == ids@.contains(id),
{
    let mut i: usize = 0;
    while i < ids.len()
        invariant
            i <= ids@.len(),
            forall|k: int| 0 <= k < i ==> ids@[k] != id,
        decreases ids@.len() - i,
    {
        if ids[i] == id {
            return true;
        }
        i = i + 1;
    }
    false
}

/// Puts an id into an ascending list.
fn add_id(ids: &mut Vec<RungId>, id: RungId)
    requires
        in_order(old(ids)@),
    ensures
        in_order(final(ids)@),
        final(ids)@.to_multiset() == old(ids)@.to_multiset().insert(id),
{
    let ghost before = ids@;
    let mut i: usize = ids.len();
    while i > 0 && ids[i - 1] > id
        invariant
            i <= before.len(),
            ids@ == before,
            forall|k: int| i <= k < before.len() ==> before[k] > id,
        decreases i,
    {
        i = i - 1;
    }
    ids.insert(i, id);
    proof {
        let after = ids@;
        assert(after.remove(i as int) =~= before);
        after.to_multiset_ensures();
        assert(after[i as int] == id);
        assert(after.contains(id));
        assert(before.to_multiset() == after.to_multiset().remove(id));
        assert(after.to_multiset() =~= before.to_multiset().insert(id));
    }
}

/// Puts a list of ids into ascending order.
fn sort_ids(ids: &Vec<RungId>) -> (ordered: Vec<RungId>)
    ensures
        in_order(ordered@),
        ordered@.to_multiset() == ids@.to_multiset(),
{
    let mut ordered: Vec<RungId> = Vec::new();
    let mut i: usize = 0;
    assert(ids@.take(0) =~= ordered@);
    while i < ids.len()
        invariant
            i <= ids@.len(),
            in_order(ordered@),
            ordered@.to_multiset() == ids@.take(i as int).to_multiset(),
        decreases ids@.len() - i,
    {
        proof {
            assert(ids@.take(i + 1) =~= ids@.take(i as int).push(ids@[i as int]));
            ids@.take(i as int).to_multiset_ensures();
        }
        add_id(&mut ordered, ids[i]);
        i = i + 1;
    }
    assert(ids@.take(i as int) =~= ids@);
    ordered
}

/// The ids of a list but one.
fn without_id(ids: &Vec<RungId>, id: RungId) -> (kept: Vec<RungId>)
    ensures
        kept@ == others(ids@, id),
{
    let mut kept: Vec<RungId> = Vec::new();
    let mut i: usize = 0;
    proof {
        reveal(Seq::filter);
    }
    while i < ids.len()
        invariant
            i <= ids@.len(),
            kept@ == others(ids@.take(i as int), id),
        decreases ids@.len() - i,
    {
        proof {
            reveal(Seq::filter);
            assert(ids@.take(i + 1).drop_last() =~= ids@.take(i as int));
        }
        if ids[i] != id {
            kept.push(ids[i]);
        }
        i = i + 1;
    }
    assert(ids@.take(i as int) =~= ids@);
    kept
}

/// What a session starts with.
#[derive(Clone, Debug, PartialEq, Eq)]
pub struct GoLive {
    pub upload: uploader::Config,
    pub sample_rate: u32,
}

/// The lowest rate that the encoder is given.
pub const MIN_SAMPLE_RATE: u32 = 44_100;

/// A rung in the list of rungs.
#[derive(Clone, Debug, PartialEq, Eq)]
pub struct RungRow {
    pub id: RungId,
    pub label: String,
    pub checked: bool,
    /// The only rung left cannot be switched off.
    pub locked: bool,
}

/// The label of a rung in the list of rungs.
pub open spec fn row_label(rung: Rung) -> Seq<char> {
    let plain = rung.name@ + " — "@ + text::decimal(rung.bitrate_kbps as nat) + " kbps"@;
    match rung.codec {
        AacCodec::He => plain + " · HE-AAC"@,
        AacCodec::Lc => plain,
    }
}

/// The label of a rung in the choice of the default quality.
pub open spec fn quality_label(rung: Rung) -> Seq<char> {
    rung.name@ + " ("@ + text::decimal(rung.bitrate_kbps as nat) + " kbps)"@
}

/// The first rung of the shipped ladder, from a place on, that is enabled.
pub open spec fn first_enabled(enabled: Seq<RungId>, from: int) -> Option<int>
    decreases 4 - from,
{
    if from >= 4 {
        None
    } else if enabled.contains(from as u8) {
        Some(from)
    } else {
        first_enabled(enabled, from + 1)
    }
}

/// The rung of the shipped ladder that stands as the default quality: the chosen
/// one if it is enabled, else the first one that is.
pub open spec fn shown_quality(enabled: Seq<RungId>, chosen: RungId) -> Option<int> {
    if chosen < 4 && enabled.contains(chosen) {
        Some(chosen as int)
    } else {
        first_enabled(enabled, 0)
    }
}

impl AppConfig {
    /// `profile` is the shipped ladder without the rungs that are off.
    pub open spec fn is_profile(&self, profile: StreamProfile) -> bool {
        &&& profile.segment_ms == self.segment_ms
        &&& exists|ladder: StreamProfile|
            {
                &&& #[trigger] state::is_default_ladder(ladder, self.segment_ms)
                &&& profile.rungs@ == state::filtered_rungs(
                    ladder.rungs@,
                    self.enabled_rungs@.to_set(),
                )
            }
    }

    /// `row` stands for `rung` in the list of rungs.
    pub open spec fn is_row(&self, row: RungRow, rung: Rung) -> bool {
        &&& row.id == rung.id
        &&& row.label@ == row_label(rung)
        &&& row.checked == self.enabled_rungs@.contains(rung.id)
        &&& row.locked == (row.checked && self.enabled_rungs@.len() <= 1)
    }

    /// Repairs a list of rungs that was left empty: the link needs a cheap
    /// option.
    pub fn normalize(&mut self)
        ensures
            final(self).enabled_rungs@ == (if old(self).enabled_rungs@.len() == 0 {
                seq![0u8]
            } else {
                old(self).enabled_rungs@
            }),
            *final(self) == (AppConfig { enabled_rungs: final(self).enabled_rungs, ..*old(self) }),
    {
        if self.enabled_rungs.len() == 0 {
            let mut ids: Vec<RungId> = Vec::new();
            ids.push(0);
            self.enabled_rungs = ids;
        }
    }

    /// Takes over what the command line says, but for settings that stand there
    /// at their defaults.
    pub fn apply_overrides(&mut self, args: Overrides)
        ensures
            final(self).server@ == overridden(
                old(self).server@,
                args.server@,
                "http://127.0.0.1:8080"@,
            ),
            final(self).stream@ == overridden(old(self).stream@, args.stream@, "obshow"@),
            final(self).ingest_token@ == (match args.ingest_token {
                Some(token) => token@,
                None => old(self).ingest_token@,
            }),
            final(self).out_dir@ == overridden(
                old(self).out_dir@,
                args.out_dir@,
                "./client-buffer"@,
            ),
            final(self).segment_ms == (if args.segment_ms == 2000 {
                old(self).segment_ms
            } else {
                args.segment_ms
            }),
            final(self).auto_start == (old(self).auto_start || args.auto_start_secs is Some),
            final(self).auto_start_buffer_secs == (match args.auto_start_secs {
                Some(secs) => secs,
                None => old(self).auto_start_buffer_secs,
            }),
            *final(self) == (AppConfig {
                server: final(self).server,
                stream: final(self).stream,
                ingest_token: final(self).ingest_token,
                out_dir: final(self).out_dir,
                segment_ms: final(self).segment_ms,
                auto_start: final(self).auto_start,
                auto_start_buffer_secs: final(self).auto_start_buffer_secs,
                ..*old(self)
            }),
    {
        if !same_text(&args.server, "http://127.0.0.1:8080") {
            self.server = args.server;
        }
        if !same_text(&args.stream, "obshow") {
            self.stream = args.stream;
        }
        if let Some(token) = args.ingest_token {
            self.ingest_token = token;
        }
        if !same_text(&args.out_dir, "./client-buffer") {
            self.out_dir = args.out_dir;
        }
        if args.segment_ms != 2000 {
            self.segment_ms = args.segment_ms;
        }
        if let Some(secs) = args.auto_start_secs {
            self.auto_start = true;
            self.auto_start_buffer_secs = secs;
        }
    }

    /// The ladder of a session: the shipped one without the rungs that are off.
    pub fn profile(&self) -> (profile: StreamProfile)
        ensures
            self.is_profile(profile),
    {
        let mut enabled: BTreeSet<RungId> = BTreeSet::new();
        let mut i: usize = 0;
        while i < self.enabled_rungs.len()
            invariant
                i <= self.enabled_rungs@.len(),
                enabled@ == self.enabled_rungs@.take(i as int).to_set(),
            decreases self.enabled_rungs@.len() - i,
        {
            proof {
                let ids = self.enabled_rungs@;
                let head = ids.take(i as int);
                let next = ids.take(i + 1);
                assert(next =~= head.push(ids[i as int]));
                assert forall|r: RungId| next.contains(r) <==> head.contains(r) || r
                    == ids[i as int] by {
                    if head.contains(r) {
                        let k = choose|k: int| 0 <= k < head.len() && head[k] == r;
                        assert(next[k] == r);
                    }
                    if r == ids[i as int] {
                        assert(next[i as int] == r);
                    }
                }
                assert(next.to_set() =~= head.to_set().insert(ids[i as int]));
            }
            enabled.insert(self.enabled_rungs[i]);
            i = i + 1;
        }
        assert(self.enabled_rungs@.take(i as int) =~= self.enabled_rungs@);
        let ladder = StreamProfile::default_ladder(self.segment_ms);
        assert(state::is_default_ladder(ladder, self.segment_ms));
        ladder.filtered(&enabled)
    }

    /// Switches a rung on or off.
    pub fn apply_rung_toggle(&mut self, rung: RungId, enable: bool)
        ensures
            is_toggled(final(self).enabled_rungs@, old(self).enabled_rungs@, rung, enable),
            *final(self) == (AppConfig { enabled_rungs: final(self).enabled_rungs, ..*old(self) }),
    {
        if enable {
            if !has_id(&self.enabled_rungs, rung) {
                let ghost before = self.enabled_rungs@;
                self.enabled_rungs.push(rung);
                proof {
                    before.to_multiset_ensures();
                }
                self.enabled_rungs = sort_ids(&self.enabled_rungs);
                assert(self.enabled_rungs@.to_multiset() == before.to_multiset().insert(rung));
            }
        } else if self.enabled_rungs.len() > 1 {
            self.enabled_rungs = without_id(&self.enabled_rungs, rung);
        }
    }

    /// What a session starts with, on a device that runs at a rate.
    pub fn go_live(&self, device_rate: u32) -> (start: GoLive)
        requires
            self.auto_start ==> self.auto_start_buffer_secs * 1000 <= u32::MAX,
        ensures
            start.upload.base_url@ == self.server@,
            start.upload.stream@ == self.stream@,
            self.ingest_token@.len() == 0 <==> start.upload.ingest_token is None,
            start.upload.ingest_token matches Some(token) ==> token@ == self.ingest_token@,
            start.upload.out_dir@ == self.out_dir@,
            self.is_profile(start.upload.profile),
            start.upload.auto_start_buffer_ms == (if self.auto_start {
                Some((self.auto_start_buffer_secs * 1000) as u32)
            } else {
                None
            }),
            start.upload.bootstrap_rung == self.default_rung,
            start.sample_rate == (if device_rate < MIN_SAMPLE_RATE {
                MIN_SAMPLE_RATE
            } else {
                device_rate
            }),
            start.sample_rate >= 44_100 && start.sample_rate >= device_rate,
            start.sample_rate == 44_100 || start.sample_rate == device_rate,
            start.upload.auto_start_buffer_ms matches Some(ms) ==> self.auto_start && ms
                / 1000 == self.auto_start_buffer_secs && ms % 1000 == 0,
    {
        let ingest_token: Option<String> = if same_text(&self.ingest_token, "") {
            None
        } else {
            Some(self.ingest_token.as_str().to_owned())
        };
        proof {
            reveal_strlit("");
            assert(self.ingest_token@.len() == 0 ==> self.ingest_token@ =~= ""@);
        }
        GoLive {
            upload: uploader::Config {
                base_url: self.server.as_str().to_owned(),
                stream: self.stream.as_str().to_owned(),
                ingest_token,
                out_dir: self.out_dir.as_str().to_owned(),
                profile: self.profile(),
                auto_start_buffer_ms: if self.auto_start {
                    Some(self.auto_start_buffer_secs * 1000)
                } else {
                    None
                },
                bootstrap_rung: self.default_rung,
            },
            sample_rate: if device_rate < MIN_SAMPLE_RATE {
                MIN_SAMPLE_RATE
            } else {
                device_rate
            },
        }
    }

    /// The list of rungs to switch on and off.
    pub fn rung_rows(&self) -> (rows: Vec<RungRow>)
        ensures
            exists|ladder: StreamProfile|
                {
                    &&& #[trigger] state::is_default_ladder(ladder, self.segment_ms)
                    &&& rows@.len() == 4
                    &&& forall|i: int|
                        0 <= i < 4 ==> self.is_row(#[trigger] rows@[i], ladder.rungs@[i])
                },
    {
        let ladder = StreamProfile::default_ladder(self.segment_ms);
        let mut rows: Vec<RungRow> = Vec::new();
        let mut i: usize = 0;
        while i < ladder.rungs.len()
            invariant
                i <= ladder.rungs@.len(),
                rows@.len() == i,
                forall|k: int| 0 <= k < i ==> self.is_row(#[trigger] rows@[k], ladder.rungs@[k]),
            decreases ladder.rungs@.len() - i,
        {
            let rung = &ladder.rungs[i];
            let mut label = rung.name.as_str().to_owned();
            label.append(" — ");
            push_decimal(&mut label, rung.bitrate_kbps as u64);
            label.append(" kbps");
            match rung.codec {
                AacCodec::He => {
                    label.append(" · HE-AAC");
                },
                AacCodec::Lc => {},
            }
            let checked = has_id(&self.enabled_rungs, rung.id);
            let locked = checked && self.enabled_rungs.len() <= 1;
            rows.push(RungRow { id: rung.id, label, checked, locked });
            assert(self.is_row(rows@[i as int], ladder.rungs@[i as int]));
            i = i + 1;
        }
        assert(state::is_default_ladder(ladder, self.segment_ms));
        rows
    }

    /// The label of the default quality.
    pub fn default_quality_label(&self) -> (label: String)
        ensures
            exists|ladder: StreamProfile|
                {
                    &&& #[trigger] state::is_default_ladder(ladder, self.segment_ms)
                    &&& label@ == (match shown_quality(self.enabled_rungs@, self.default_rung) {
                        Some(i) => quality_label(ladder.rungs@[i]),
                        None => "—"@,
                    })
                },
    {
        let ladder = StreamProfile::default_ladder(self.segment_ms);
        assert(state::is_default_ladder(ladder, self.segment_ms));
        let mut i: usize = 0;
        if self.default_rung < 4 && has_id(&self.enabled_rungs, self.default_rung) {
            i = self.default_rung as usize;
        } else {
            while i < 4 && !has_id(&self.enabled_rungs, ladder.rungs[i].id)
                invariant
                    i <= 4,
                    state::is_default_ladder(ladder, self.segment_ms),
                    first_enabled(self.enabled_rungs@, 0) == first_enabled(
                        self.enabled_rungs@,
                        i as int,
                    ),
                decreases 4 - i,
            {
                i = i + 1;
            }
        }
        if i >= 4 {
            return "—".to_owned();
        }
        let rung = &ladder.rungs[i];
        let mut label = rung.name.as_str().to_owned();
        label.append(" (");
        push_decimal(&mut label, rung.bitrate_kbps as u64);
        label.append(" kbps)");
        label
    }
}

/// A session always has a rung to encode.
pub proof fn law_a_session_has_a_rung(config: &AppConfig, profile: StreamProfile)
    requires
        config.is_profile(profile),
    ensures
        profile.rungs@.len() > 0,
{
    let ladder = choose|ladder: StreamProfile|
        {
            &&& #[trigger] state::is_default_ladder(ladder, config.segment_ms)
            &&& profile.rungs@ == state::filtered_rungs(
                ladder.rungs@,
                config.enabled_rungs@.to_set(),
            )
        };
    state::law_filtering_leaves_a_rung(ladder.rungs@, config.enabled_rungs@.to_set());
}

/// Switching rungs on and off never leaves none enabled, as long as none is
/// listed twice.
pub proof fn law_toggling_leaves_a_rung(
    before: Seq<RungId>,
    after: Seq<RungId>,
    rung: RungId,
    enable: bool,
)
    requires
        before.len() > 0,
        before.no_duplicates(),
        is_toggled(after, before, rung, enable),
    ensures
        after.len() > 0,
{
    if enable && !before.contains(rung) {
        after.to_multiset_ensures();
        before.to_multiset_ensures();
    } else if !enable && before.len() > 1 {
        broadcast use vstd::seq_lib::group_filter_ensures;

        let k: int = if before[0] == rung {
            1
        } else {
            0
        };
        assert(before[k] != rung);
        assert(others(before, rung).contains(before[k]));
    }
}

/// Switching a rung on lists it and keeps the others; switching it off removes
/// it unless it is the last one listed.
pub proof fn law_toggling_sets_one_rung(
    before: Seq<RungId>,
    after: Seq<RungId>,
    rung: RungId,
    enable: bool,
    other: RungId,
)
    requires
        is_toggled(after, before, rung, enable),
        other != rung,
    ensures
        enable ==> after.contains(rung),
        !enable && before.len() > 1 ==> !after.contains(rung),
        after.contains(other) <==> before.contains(other),
{
    if enable && !before.contains(rung) {
        after.to_multiset_ensures();
        before.to_multiset_ensures();
        assert(after.to_multiset().count(rung) > 0);
        assert(after.contains(other) <==> after.to_multiset().count(other) > 0);
        assert(before.contains(other) <==> before.to_multiset().count(other) > 0);
    } else if !enable && before.len() > 1 {
        broadcast use vstd::seq_lib::group_filter_ensures;

        if before.contains(other) {
            let k = choose|k: int| 0 <= k < before.len() && before[k] == other;
            assert(others(before, rung).contains(before[k]));
        }
        if after.contains(other) {
            let k = choose|k: int| 0 <= k < after.len() && after[k] == other;
            lemma_others_from(before, rung, k);
        }
    }
}

/// What is left of a list was there.
proof fn lemma_others_from(ids: Seq<RungId>, id: RungId, i: int)
    requires
        0 <= i < others(ids, id).len(),
    ensures
        ids.contains(others(ids, id)[i]),
    decreases ids.len(),
{
    reveal(Seq::filter);
    if ids.len() > 0 {
        let head = ids.drop_last();
        if i < others(head, id).len() {
            lemma_others_from(head, id, i);
            let k = choose|k: int| 0 <= k < head.len() && head[k] == others(head, id)[i];
            assert(ids[k] == others(ids, id)[i]);
        } else {
            assert(ids[ids.len() - 1] == others(ids, id)[i]);
        }
    }
}

/// What is said on the command line counts, and what is left at its default leaves the
/// saved setting as it is.
pub proof fn law_the_command_line_comes_first(
    kept: Seq<char>,
    chosen: Seq<char>,
    default: Seq<char>,
)
    ensures
        chosen != default ==> overridden(kept, chosen, default) == chosen,
        overridden(kept, default, default) == kept,
{
}

/// A session encodes exactly the rungs of the shipped ladder that are enabled, if any is.
pub proof fn law_a_session_encodes_what_is_enabled(
    config: &AppConfig,
    profile: StreamProfile,
    id: RungId,
)
    requires
        config.is_profile(profile),
        exists|r: RungId| r < 4 && #[trigger] config.enabled_rungs@.contains(r),
    ensures
        profile.segment_ms == config.segment_ms,
        state::has_rung_id(profile.rungs@, id) <==> id < 4 && config.enabled_rungs@.contains(id),
{
    let enabled = config.enabled_rungs@.to_set();
    let ladder = choose|ladder: StreamProfile|
        {
            &&& #[trigger] state::is_default_ladder(ladder, config.segment_ms)
            &&& profile.rungs@ == state::filtered_rungs(ladder.rungs@, enabled)
        };
    let rungs = ladder.rungs@;
    let r = choose|r: RungId| r < 4 && #[trigger] config.enabled_rungs@.contains(r);
    assert(rungs[r as int].id == r);
    assert(enabled.contains(rungs[r as int].id));
    if id < 4 && config.enabled_rungs@.contains(id) {
        assert(rungs[id as int].id == id);
        state::law_filtering_drops_only_disabled_rungs(rungs, enabled, id as int);
        let k = choose|k: int| 0 <= k < profile.rungs@.len() && profile.rungs@[k] == rungs[id as int];
        assert(profile.rungs@[k].id == id);
    }
    if state::has_rung_id(profile.rungs@, id) {
        let i = choose|i: int| 0 <= i < profile.rungs@.len() && #[trigger] profile.rungs@[i].id == id;
        state::law_filtering_keeps_enabled_rungs(rungs, enabled, i);
        let k = choose|k: int| 0 <= k < rungs.len() && rungs[k] == profile.rungs@[i];
        assert(rungs[k].id == k);
        assert(enabled.contains(id));
    }
}

/// The quality that is shown as the default is one that is enabled: the chosen one where it
/// is, else the lowest. None is shown only where none is enabled.
pub proof fn law_the_shown_quality_is_enabled(enabled: Seq<RungId>, chosen: RungId, other: RungId)
    ensures
        chosen < 4 && enabled.contains(chosen) ==> shown_quality(enabled, chosen) == Some(
            chosen as int,
        ),
        shown_quality(enabled, chosen) matches Some(i) ==> 0 <= i < 4 && enabled.contains(i as u8),
        other < 4 && enabled.contains(other) ==> shown_quality(enabled, chosen) is Some,
        other < 4 && enabled.contains(other) && !enabled.contains(chosen) ==> shown_quality(
            enabled,
            chosen,
        )->0 <= other,
{
    reveal_with_fuel(first_enabled, 5);
}

/// A rung is listed with its name and its bitrate, and as HE-AAC exactly if it is encoded so
/// by design.
pub proof fn law_a_rung_is_listed_by_name_and_bitrate(rung: Rung)
    ensures
        ({
            let plain = rung.name@ + " — "@ + text::decimal(rung.bitrate_kbps as nat) + " kbps"@;
            &&& row_label(rung).take(plain.len() as int) == plain
            &&& row_label(rung) == plain <==> rung.codec == AacCodec::Lc
            &&& rung.codec == AacCodec::He ==> text::ends_in(row_label(rung), "HE-AAC"@)
        }),
{
    let plain = rung.name@ + " — "@ + text::decimal(rung.bitrate_kbps as nat) + " kbps"@;
    let label = row_label(rung);
    reveal_strlit(" · HE-AAC");
    reveal_strlit("HE-AAC");
    assert(label.take(plain.len() as int) =~= plain);
    if rung.codec == AacCodec::He {
        assert(label.len() == plain.len() + 9);
        assert(label.subrange(label.len() - 6, label.len() as int) =~= "HE-AAC"@);
    }
}

/// A rung in the list is checked exactly if it is enabled, and cannot be switched off
/// exactly if it is the only one that is.
pub proof fn law_only_the_last_rung_is_locked(config: &AppConfig, row: RungRow, rung: Rung)
    requires
        config.is_row(row, rung),
    ensures
        row.id == rung.id,
        row.checked <==> config.enabled_rungs@.contains(rung.id),
        row.locked <==> config.enabled_rungs@ == seq![rung.id],
{
    let ids = config.enabled_rungs@;
    if ids.contains(rung.id) && ids.len() <= 1 {
        assert(ids =~= seq![rung.id]);
    }
    if ids == seq![rung.id] {
        assert(ids[0] == rung.id);
    }
}

/// The default quality is shown with its name first and its bitrate behind it.
pub proof fn law_a_quality_is_shown_by_name_and_bitrate(rung: Rung)
    ensures
        quality_label(rung).take(rung.name@.len() as int) == rung.name@,
        text::contains_text(
            quality_label(rung),
            text::decimal(rung.bitrate_kbps as nat) + " kbps"@,
        ),
{
    let label = quality_label(rung);
    reveal_strlit(" (");
    reveal_strlit(" kbps)");
    reveal_strlit(" kbps");
    assert(label.take(rung.name@.len() as int) =~= rung.name@);
    let rate = text::decimal(rung.bitrate_kbps as nat) + " kbps"@;
    let at: int = rung.name@.len() + 2int;
    assert(label.subrange(at, at + rate.len()) =~= rate);
    assert(text::stands_at(label, rate, at));
}

} // verus!
