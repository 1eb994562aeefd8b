//! What the server makes of uploads, heartbeats and abandon requests.

use vstd::prelude::*;

use crate::state::{PlayoutState, PlayoutStatus, RungId, SeqNo, ServerState};
use crate::store::{self, DvrStore};
use crate::text::{self, parse_number, push_decimal, same_text};

verus! {

/// A refused request: HTTP status and message.
#[derive(Clone, Debug, PartialEq, Eq)]
pub struct ApiError(pub u16, pub String);

/// The value of a request header.
#[derive(Clone, Copy, Debug, PartialEq, Eq)]
pub enum HeaderText<'a> {
    Missing,
    /// Present, but not visible ASCII.
    NotText,
    Text(&'a str),
}

/// Body of an abandon request.
#[derive(Clone, Debug, PartialEq, Eq)]
pub struct AbandonRequest {
    pub seqs: Vec<SeqNo>,
}

/// An error with that status and message.
pub open spec fn is_error(e: ApiError, status: int, message: Seq<char>) -> bool {
    e.0 == status && e.1@ == message
}

/// A message in two pieces.
fn message2(before: &str, after: &str) -> (s: String)
    ensures
        s@ == before@ + after@,
{
    let mut s = String::new();
    s.append(before);
    s.append(after);
    assert(s@ =~= before@ + after@);
    s
}

/// A malformed request.
fn bad_request(message: String) -> (e: ApiError)
    ensures
        is_error(e, 400, message@),
{
    ApiError(400, message)
}

/// The text of a header that must be there.
pub fn header_str<'a>(header: HeaderText<'a>, name: &str) -> (value: Result<&'a str, ApiError>)
    ensures
        header matches HeaderText::Text(t) ==> value == Ok::<&'a str, ApiError>(t),
        header is Missing ==> value is Err && is_error(
            value->Err_0,
            400,
            "missing header "@ + name@,
        ),
        header is NotText ==> value is Err && is_error(
            value->Err_0,
            400,
            "header "@ + name@ + " is not valid ASCII"@,
        ),
{
    match header {
        HeaderText::Text(t) => Ok(t),
        HeaderText::Missing => Err(bad_request(message2("missing header ", name))),
        HeaderText::NotText => {
            let mut message = message2("header ", name);
            message.append(" is not valid ASCII");
            Err(bad_request(message))
        },
    }
}

/// What a numeric header must be answered with.
pub open spec fn is_header_number(
    header: HeaderText,
    name: Seq<char>,
    max: nat,
    value: Result<int, ApiError>,
) -> bool {
    match header {
        HeaderText::Text(t) => match text::number_in(t@, max) {
            Some(n) => value == Ok::<int, ApiError>(n as int),
            None => value is Err && is_error(value->Err_0, 400, "invalid "@ + name),
        },
        HeaderText::Missing => value is Err && is_error(
            value->Err_0,
            400,
            "missing header "@ + name,
        ),
        HeaderText::NotText => value is Err && is_error(
            value->Err_0,
            400,
            "header "@ + name + " is not valid ASCII"@,
        ),
    }
}

/// The value of a numeric header.
pub fn header_u64(header: HeaderText, name: &str) -> (value: Result<u64, ApiError>)
    ensures
        is_header_number(
            header,
            name@,
            u64::MAX as nat,
            match value {
                Ok(n) => Ok(n as int),
                Err(e) => Err(e),
            },
        ),
{
    match header_str(header, name) {
        Ok(t) => match parse_number(t, u64::MAX) {
            Some(n) => Ok(n),
            None => Err(bad_request(message2("invalid ", name))),
        },
        Err(e) => Err(e),
    }
}

/// The value of a header that names a rung.
pub fn header_u8(header: HeaderText, name: &str) -> (value: Result<u8, ApiError>)
    ensures
        is_header_number(
            header,
            name@,
            u8::MAX as nat,
            match value {
                Ok(n) => Ok(n as int),
                Err(e) => Err(e),
            },
        ),
{
    match header_str(header, name) {
        Ok(t) => match parse_number(t, u8::MAX as u64) {
            Some(n) => Ok(n as u8),
            None => Err(bad_request(message2("invalid ", name))),
        },
        Err(e) => Err(e),
    }
}

/// A credential is in order: none is asked for, or the right one is there.
pub open spec fn authorized(expected: Option<&str>, got: HeaderText) -> bool {
    match expected {
        Some(token) => got matches HeaderText::Text(t) && t@ == token@,
        None => true,
    }
}

/// Checks the credential of an upload.
pub fn check_auth(expected: Option<&str>, got: HeaderText) -> (res: Result<(), ApiError>)
    ensures
        res is Ok <==> authorized(expected, got),
        res matches Err(e) ==> is_error(e, 401, "invalid or missing X-Auth"@),
{
    let ok = match expected {
        Some(token) => match got {
            HeaderText::Text(t) => same_text(t, token),
            HeaderText::Missing | HeaderText::NotText => false,
        },
        None => true,
    };
    if ok {
        Ok(())
    } else {
        Err(ApiError(401, "invalid or missing X-Auth".to_owned()))
    }
}

/// What an upload names, or why it is refused. The credential is looked at first,
/// then the rung, then the segment.
pub fn check_upload(
    expected: Option<&str>,
    auth: HeaderText,
    rendition: HeaderText,
    seq: HeaderText,
) -> (upload: Result<(RungId, SeqNo), ApiError>)
    ensures
        !authorized(expected, auth) ==> upload is Err && is_error(
            upload->Err_0,
            401,
            "invalid or missing X-Auth"@,
        ),
        authorized(expected, auth) ==> match upload {
            Ok((rung, number)) => {
                &&& is_header_number(rendition, "x-rendition"@, u8::MAX as nat, Ok(rung as int))
                &&& is_header_number(seq, "x-seq"@, u64::MAX as nat, Ok(number as int))
            },
            Err(e) => {
                ||| is_header_number(rendition, "x-rendition"@, u8::MAX as nat, Err(e))
                ||| {
                    &&& exists|rung: RungId| #[trigger]
                        is_header_number(rendition, "x-rendition"@, u8::MAX as nat, Ok(rung as int))
                    &&& is_header_number(seq, "x-seq"@, u64::MAX as nat, Err(e))
                }
            },
        },
{
    match check_auth(expected, auth) {
        Ok(()) => {},
        Err(e) => {
            return Err(e);
        },
    }
    match header_u8(rendition, "x-rendition") {
        Ok(rung) => {
            assert(is_header_number(rendition, "x-rendition"@, u8::MAX as nat, Ok(rung as int)));
            match header_u64(seq, "x-seq") {
                Ok(number) => Ok((rung, number)),
                Err(e) => Err(e),
            }
        },
        Err(e) => Err(e),
    }
}

/// How a look at the encoder's request for a start, with playout in a state, changes the
/// store into `after`: `start` is where playout is started, if it is.
pub open spec fn starts_by_itself(
    before: &DvrStore,
    state: PlayoutState,
    start: Option<SeqNo>,
    after: &DvrStore,
) -> bool {
    &&& start == (if state == PlayoutState::Stopped {
        before.auto_start_seq()
    } else {
        None
    })
    &&& start is Some ==> after.auto_started() == before.auto_start_target()
    &&& start is None ==> after.auto_started() == before.auto_started()
    &&& after.same_setup(before)
    &&& after.held() == before.held()
    &&& after.given_up() == before.given_up()
    &&& after.revision() == before.revision()
    &&& after.telemetry() == before.telemetry()
}

/// Where to start playout on the encoder's request, if now is the time. Only a
/// stopped engine is started, and once per requested buffer.
pub fn maybe_auto_start(store: &mut DvrStore, state: PlayoutState) -> (start: Option<SeqNo>)
    requires
        old(store).wf(),
    ensures
        starts_by_itself(old(store), state, start, final(store)),
        final(store).wf(),
{
    if state != PlayoutState::Stopped {
        return None;
    }
    let start = store.due_for_auto_start();
    if start.is_some() {
        let target: u32 = match store.encoder_state() {
            Some(encoder) => match encoder.auto_start_buffer_ms {
                Some(target) => target,
                None => 0,
            },
            None => 0,
        };
        store.mark_auto_start_fired(target);
    }
    start
}

/// What is logged when playout starts on its own.
pub fn auto_start_message(seq: SeqNo) -> (s: String)
    ensures
        s@ == "auto-start: requested buffer reached, starting playout at seq "@ + text::decimal(
            seq as nat,
        ),
{
    let mut s = "auto-start: requested buffer reached, starting playout at seq ".to_owned();
    push_decimal(&mut s, seq);
    s
}

/// What is logged when the encoder gives a segment up.
pub fn abandoned_message(seq: SeqNo) -> (s: String)
    ensures
        s@ == "segment "@ + text::decimal(seq as nat) + " abandoned"@,
{
    let mut s = "segment ".to_owned();
    push_decimal(&mut s, seq);
    s.append(" abandoned");
    s
}

/// An upload starts a fresh DVR session: the encoder says that its session is
/// new, the last upload is long ago, and there is something to reset. A quick
/// restart, and an encoder that recovers from a long outage, both append.
pub fn should_reset_for_new_session(new_session: bool, is_stale: bool, has_content: bool) -> (b:
    bool)
    ensures
        b == (new_session && is_stale && has_content),
{
    new_session && is_stale && has_content
}

/// The last upload is at least `stale_reset_ms` ago, or there never was one.
pub open spec fn has_gone_stale(last_ingest_age_ms: Option<u64>, stale_reset_ms: u64) -> bool {
    match last_ingest_age_ms {
        Some(age) => age >= stale_reset_ms,
        None => true,
    }
}

/// The last upload is at least `stale_reset_ms` ago, or there never was one.
pub fn is_stale(last_ingest_age_ms: Option<u64>, stale_reset_ms: u64) -> (b: bool)
    ensures
        b == has_gone_stale(last_ingest_age_ms, stale_reset_ms),
{
    match last_ingest_age_ms {
        Some(age) => age >= stale_reset_ms,
        None => true,
    }
}

/// What the encoder is told now. An encoder that starts anew on a stream without
/// recent uploads is to count from 0 again.
pub fn current_state(
    store: &DvrStore,
    playout: PlayoutStatus,
    last_ingest_age_ms: Option<u64>,
    stale_reset_ms: u64,
) -> (state: ServerState)
    requires
        store.wf(),
    ensures
        store.tells(playout, state),
        state.stale_session == has_gone_stale(last_ingest_age_ms, stale_reset_ms),
{
    let mut state = store.build_server_state(playout);
    state.stale_session = is_stale(last_ingest_age_ms, stale_reset_ms);
    state
}

/// What is known of an upload before it is taken.
#[derive(Clone, Copy, Debug, PartialEq, Eq, Structural)]
pub struct UploadSetting {
    /// The encoder says that its session is new.
    pub new_session: bool,
    pub last_ingest_age_ms: Option<u64>,
    pub stale_reset_ms: u64,
}

impl UploadSetting {
    /// The upload starts a fresh DVR session on a store that holds so much.
    pub open spec fn resets(self, held: store::Holdings) -> bool {
        &&& self.new_session
        &&& has_gone_stale(self.last_ingest_age_ms, self.stale_reset_ms)
        &&& store::newest(held) is Some
    }
}

/// An upload starts a fresh DVR session on a store.
pub fn resets_store(store: &DvrStore, upload: &UploadSetting) -> (reset: bool)
    requires
        store.wf(),
    ensures
        reset == upload.resets(store.held()),
        !upload.new_session ==> !reset,
        upload.last_ingest_age_ms matches Some(age) && age < upload.stale_reset_ms ==> !reset,
        store.held() == store::Holdings::empty() ==> !reset,
{
    should_reset_for_new_session(
        upload.new_session,
        is_stale(upload.last_ingest_age_ms, upload.stale_reset_ms),
        store.live_seq().is_some(),
    )
}

/// A header that holds a number in decimal is read as that number, up to the greatest one
/// allowed; one that holds a greater number, or nothing, or is not there, is refused as a
/// malformed request.
pub proof fn law_a_numeric_header_is_read(
    header: HeaderText,
    name: Seq<char>,
    max: nat,
    value: Result<int, ApiError>,
    n: nat,
)
    requires
        is_header_number(header, name, max, value),
    ensures
        (header matches HeaderText::Text(t) && t@ == text::decimal(n) && n <= max) ==> value == Ok::<
            int,
            ApiError,
        >(n as int),
        (header matches HeaderText::Text(t) && t@ == text::decimal(n) && n > max) ==> value is Err,
        (header matches HeaderText::Text(t) && t@.len() == 0) ==> value is Err,
        !(header is Text) ==> value is Err,
        value matches Err(e) ==> e.0 == 400,
        value matches Ok(v) ==> 0 <= v <= max,
{
    text::law_only_numbers_in_range_are_read(n, Seq::empty(), 0, max);
    if n <= max {
        text::law_decimal_reads_back(n, max);
    }
    if let HeaderText::Text(t) = header {
        text::law_only_numbers_in_range_are_read(n, t@, 0, max);
    }
}

/// Playout is started once for a buffer that the encoder asks for: after it was stopped
/// again by hand, the same request does not start it a second time. A running engine is
/// never started.
pub proof fn law_playout_starts_once_per_request(
    before: &DvrStore,
    middle: &DvrStore,
    after: &DvrStore,
    seq: SeqNo,
    state: PlayoutState,
    start: Option<SeqNo>,
)
    requires
        starts_by_itself(before, PlayoutState::Stopped, Some(seq), middle),
        starts_by_itself(middle, state, start, after),
    ensures
        start is None,
        store::oldest(before.held()) == Some(seq),
{
}

/// Playout that is not stopped is left alone, and so is the store.
pub proof fn law_only_a_stopped_engine_is_started(
    before: &DvrStore,
    after: &DvrStore,
    state: PlayoutState,
    start: Option<SeqNo>,
)
    requires
        starts_by_itself(before, state, start, after),
        state != PlayoutState::Stopped,
    ensures
        start is None,
        after.auto_started() == before.auto_started(),
{
}

/// A quick restart of the encoder, and one that recovers from a long outage, append to what
/// is there; only a new session after a long silence starts over, and only where there is
/// something to start over from. A stream without any upload counts as silent.
pub proof fn law_only_a_new_session_after_a_silence_starts_over(
    upload: UploadSetting,
    held: store::Holdings,
    live: SeqNo,
)
    ensures
        !upload.new_session ==> !upload.resets(held),
        upload.last_ingest_age_ms matches Some(age) && age < upload.stale_reset_ms
            ==> !upload.resets(held),
        held == store::Holdings::empty() ==> !upload.resets(held),
        (upload.new_session && store::is_newest(held, live) && (
        upload.last_ingest_age_ms is None || upload.last_ingest_age_ms->0 >= upload.stale_reset_ms))
            ==> upload.resets(held),
{
    if held == store::Holdings::empty() {
        assert(forall|s: SeqNo| !store::is_newest(held, s));
    }
}

} // verus!
