//! A live session of the encoder: it runs as long as audio comes in.

use vstd::prelude::*;

use crate::text;

verus! {

/// A session whose capture has been silent for so many segments is stopped.
pub const PCM_STALL_MULTIPLIER: u64 = 3;

/// How often a session is looked after.
pub const WATCHDOG_MS: u64 = 500;

/// What is known of the session.
#[derive(Clone, Copy, Debug, PartialEq, Eq, Structural)]
pub struct LiveSession {
    /// The encoder process is there.
    pub running: bool,
    pub segment_ms: u32,
    /// When audio last came in.
    pub last_pcm_at_ms: Option<u64>,
}

/// Why a session was stopped for want of audio.
pub open spec fn stall_message(error: Option<Seq<char>>) -> Seq<char> {
    match error {
        Some(err) => "audio capture stopped ("@ + err + "); live stopped"@,
        None => "no audio received from capture device; live stopped"@,
    }
}

/// Why a session was stopped when the encoder took no more audio.
pub open spec fn write_failure_message(exit: Option<Seq<char>>, err: Seq<char>) -> Seq<char> {
    match exit {
        Some(status) => "ffmpeg exited ("@ + status + "); live stopped"@,
        None => "ffmpeg stdin write failed: "@ + err + "; live stopped"@,
    }
}

/// The text in an option.
pub open spec fn text_in(text: Option<String>) -> Option<Seq<char>> {
    match text {
        Some(t) => Some(t@),
        None => None,
    }
}

impl LiveSession {
    /// Audio has been missing for too long.
    pub open spec fn is_stalled(&self, now_ms: u64) -> bool {
        &&& self.running
        &&& self.last_pcm_at_ms matches Some(at) && now_ms >= at && now_ms - at >= self.segment_ms
            * PCM_STALL_MULTIPLIER
    }

    /// After the encoder process has started.
    pub open spec fn after_start(&self, segment_ms: u32, now_ms: u64) -> Self {
        LiveSession { running: true, segment_ms, last_pcm_at_ms: Some(now_ms) }
    }

    /// After audio has come in.
    pub open spec fn after_audio(&self, now_ms: u64) -> Self {
        LiveSession { last_pcm_at_ms: Some(now_ms), ..*self }
    }

    /// After a look at the session.
    pub open spec fn after_check(&self, now_ms: u64) -> Self {
        LiveSession { running: self.running && !self.is_stalled(now_ms), ..*self }
    }

    /// No session.
    pub fn new() -> (session: Self)
        ensures
            session == (LiveSession { running: false, segment_ms: 0, last_pcm_at_ms: None }),
    {
        LiveSession { running: false, segment_ms: 0, last_pcm_at_ms: None }
    }

    /// The encoder process has started. The wait for audio counts from here.
    pub fn started(&mut self, segment_ms: u32, now_ms: u64)
        ensures
            *final(self) == old(self).after_start(segment_ms, now_ms),
    {
        self.running = true;
        self.segment_ms = segment_ms;
        self.last_pcm_at_ms = Some(now_ms);
    }

    /// The session is over.
    pub fn stopped(&mut self)
        ensures
            *final(self) == (LiveSession { running: false, ..*old(self) }),
    {
        self.running = false;
    }

    /// Audio has come in, whatever becomes of it.
    pub fn heard(&mut self, now_ms: u64)
        ensures
            *final(self) == old(self).after_audio(now_ms),
    {
        self.last_pcm_at_ms = Some(now_ms);
    }

    /// Stops the session if audio has been missing for too long, and says why.
    pub fn check(&mut self, error: &Option<String>, now_ms: u64) -> (reason: Option<String>)
        ensures
            reason is Some <==> old(self).is_stalled(now_ms),
            reason matches Some(r) ==> r@ == stall_message(text_in(*error)),
            *final(self) == old(self).after_check(now_ms),
    {
        if !self.running {
            return None;
        }
        let stalled = match self.last_pcm_at_ms {
            Some(at) => now_ms >= at && now_ms - at >= self.segment_ms as u64
                * PCM_STALL_MULTIPLIER,
            None => false,
        };
        if !stalled {
            return None;
        }
        self.running = false;
        match error {
            Some(err) => {
                let mut reason = "audio capture stopped (".to_owned();
                reason.append(err.as_str());
                reason.append("); live stopped");
                Some(reason)
            },
            None => Some("no audio received from capture device; live stopped".to_owned()),
        }
    }

    /// The encoder takes no more audio: most likely it has exited. Stops the
    /// session and says why.
    pub fn write_failed(&mut self, exit: &Option<String>, err: &str) -> (reason: String)
        ensures
            reason@ == write_failure_message(text_in(*exit), err@),
            *final(self) == (LiveSession { running: false, ..*old(self) }),
    {
        self.running = false;
        match exit {
            Some(status) => {
                let mut reason = "ffmpeg exited (".to_owned();
                reason.append(status.as_str());
                reason.append("); live stopped");
                reason
            },
            None => {
                let mut reason = "ffmpeg stdin write failed: ".to_owned();
                reason.append(err);
                reason.append("; live stopped");
                reason
            },
        }
    }
}

/// A session that has just heard audio, or has just started, is not stalled
/// before the limit has passed, and is from then on.
pub proof fn law_silence_is_given_time(session: LiveSession, heard_ms: u64, now_ms: u64)
    requires
        session.running,
        session.last_pcm_at_ms == Some(heard_ms),
        now_ms >= heard_ms,
    ensures
        session.is_stalled(now_ms) <==> now_ms >= heard_ms + session.segment_ms
            * PCM_STALL_MULTIPLIER,
{
}

/// A session without audio is stopped once three segments' worth of it is missing, and not
/// before; one that is not running is never stopped for that.
pub proof fn law_a_session_outlives_three_silent_segments(
    session: LiveSession,
    heard_ms: u64,
    now_ms: u64,
)
    requires
        session.last_pcm_at_ms == Some(heard_ms),
        now_ms >= heard_ms,
    ensures
        session.running ==> (session.is_stalled(now_ms) <==> now_ms - heard_ms >= 3
            * session.segment_ms),
        !session.running ==> !session.is_stalled(now_ms),
{
}

/// What a session was stopped for is told in the words of what went wrong, where there are
/// any.
pub proof fn law_a_stop_says_what_went_wrong(err: Seq<char>, status: Seq<char>)
    ensures
        text::contains_text(stall_message(Some(err)), err),
        text::contains_text(write_failure_message(Some(status), err), status),
        text::contains_text(write_failure_message(None, err), err),
{
    let a = "audio capture stopped ("@.len() as int;
    let b = "ffmpeg exited ("@.len() as int;
    let c = "ffmpeg stdin write failed: "@.len() as int;
    let x = stall_message(Some(err));
    let y = write_failure_message(Some(status), err);
    let z = write_failure_message(None, err);
    assert(x.subrange(a, a + err.len()) =~= err);
    assert(y.subrange(b, b + status.len()) =~= status);
    assert(z.subrange(c, c + err.len()) =~= err);
    assert(text::stands_at(x, err, a) && text::stands_at(y, status, b) && text::stands_at(
        z,
        err,
        c,
    ));
}

/// A session runs as long as audio comes in at least every three segments: from its start,
/// and from the last audio, it has that time again. One that was stopped stays so.
pub proof fn law_audio_keeps_a_session_running(
    session: LiveSession,
    segment_ms: u32,
    start_ms: u64,
    heard_ms: u64,
    now_ms: u64,
)
    requires
        start_ms <= heard_ms <= now_ms,
    ensures
        ({
            let started = session.after_start(segment_ms, start_ms);
            let heard = started.after_audio(heard_ms);
            &&& started.after_check(now_ms).running <==> now_ms < start_ms + 3 * segment_ms
            &&& heard.after_check(now_ms).running <==> now_ms < heard_ms + 3 * segment_ms
            &&& !heard.after_check(now_ms).running ==> !heard.after_check(now_ms).after_audio(
                now_ms,
            ).running
        }),
{
}

} // verus!
