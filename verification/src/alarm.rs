//! The alarm of the encoder's window: a border that flashes on a clipped input
//! and while the server cannot be reached.

use vstd::prelude::*;

use crate::control::LogLevel;
use crate::shared::STALE_AFTER_MS;
use crate::state::{PlayoutState, ServerState};
use crate::text::{self, push_decimal};

verus! {

/// How often the border flashes after a clip.
pub const CLIP_FLASH_COUNT: u64 = 4;

/// How long the border stays on, and off, in a flash.
pub const FLASH_HALF_PERIOD_MS: u64 = 200;

/// Buffer below which an outage is critical.
pub const FLASH_BUFFER_THRESHOLD_MS: u32 = 45_000;

/// What the border says.
#[derive(Clone, Copy, Debug, PartialEq, Eq, Structural)]
pub enum FlashColor {
    /// An input has clipped.
    Clip,
    /// The server cannot be reached.
    LinkDown,
    /// The server cannot be reached and the buffer runs out.
    Critical,
}

/// A line for the log.
#[derive(Clone, Debug, PartialEq, Eq)]
pub struct AlarmLine {
    pub level: LogLevel,
    pub message: String,
}

/// What the alarm remembers from one frame to the next.
#[derive(Clone, Copy, Debug, PartialEq, Eq, Structural)]
pub struct Alarm {
    /// The zero point of the blinking during an outage.
    pub created_at_ms: u64,
    pub was_clipping: bool,
    pub clip_flash_started_at_ms: Option<u64>,
    pub was_link_down: bool,
    /// The outage has been logged as critical.
    pub logged_critical: bool,
}

/// The buffer left at the server, if what it held when last heard of has only
/// shrunk since, and whether the server has been quiet for too long.
pub open spec fn estimate(state: ServerState, age_ms: u64) -> (u32, bool) {
    let held = if state.playout.state == PlayoutState::Stopped {
        state.buffered_ms
    } else {
        state.lead_ms
    };
    let left = if held > age_ms {
        (held - age_ms) as u32
    } else {
        0
    };
    (left, age_ms >= STALE_AFTER_MS)
}

/// The buffer left at the server, and whether the server has been quiet for too
/// long.
pub fn buffer_estimate(state: &ServerState, age_ms: u64) -> (left: (u32, bool))
    ensures
        left == estimate(*state, age_ms),
{
    let held: u32 = if state.playout.state == PlayoutState::Stopped {
        state.buffered_ms
    } else {
        state.lead_ms
    };
    let left: u32 = if held as u64 > age_ms {
        (held as u64 - age_ms) as u32
    } else {
        0
    };
    (left, age_ms >= STALE_AFTER_MS)
}

/// Half periods since a time.
pub open spec fn half_periods(since_ms: u64, now_ms: u64) -> int {
    if now_ms > since_ms {
        (now_ms - since_ms) / FLASH_HALF_PERIOD_MS as int
    } else {
        0
    }
}

/// Half periods since a time.
fn count_half_periods(since_ms: u64, now_ms: u64) -> (n: u64)
    ensures
        n == half_periods(since_ms, now_ms),
{
    if now_ms > since_ms {
        (now_ms - since_ms) / FLASH_HALF_PERIOD_MS
    } else {
        0
    }
}

/// The line of a critical outage.
pub open spec fn critical_message(buffer_ms: u32) -> Seq<char> {
    "server link down and buffer critical ("@ + text::decimal(buffer_ms as nat) + " ms left)"@
}

/// The lines as plain values.
pub open spec fn lines_of(lines: Seq<AlarmLine>) -> Seq<(LogLevel, Seq<char>)> {
    lines.map_values(|l: AlarmLine| (l.level, l.message@))
}

impl Alarm {
    /// When the flashing for a clip began, if it does in this frame or has before.
    pub open spec fn clip_start(&self, clipping: bool, now_ms: u64) -> Option<u64> {
        if clipping && !self.was_clipping {
            Some(now_ms)
        } else {
            self.clip_flash_started_at_ms
        }
    }

    /// The border flashes for a clip in this frame.
    pub open spec fn flashes_clip(&self, clipping: bool, now_ms: u64) -> bool {
        self.clip_start(clipping, now_ms) matches Some(started) && half_periods(started, now_ms)
            < 2 * CLIP_FLASH_COUNT
    }

    /// What is remembered after a frame.
    pub open spec fn after(&self, clipping: bool, link: Option<(u32, bool)>, now_ms: u64) -> Alarm {
        if self.flashes_clip(clipping, now_ms) {
            Alarm {
                was_clipping: clipping,
                clip_flash_started_at_ms: self.clip_start(clipping, now_ms),
                ..*self
            }
        } else {
            let down = link matches Some((_, true));
            Alarm {
                was_clipping: clipping,
                clip_flash_started_at_ms: None,
                was_link_down: down,
                logged_critical: down && (self.logged_critical || (link->0).0
                    < FLASH_BUFFER_THRESHOLD_MS),
                ..*self
            }
        }
    }

    /// What is logged in a frame.
    pub open spec fn lines(&self, clipping: bool, link: Option<(u32, bool)>, now_ms: u64) -> Seq<
        (LogLevel, Seq<char>),
    > {
        if self.flashes_clip(clipping, now_ms) {
            if clipping && !self.was_clipping {
                seq![(LogLevel::Warn, "input clip detected"@)]
            } else {
                Seq::empty()
            }
        } else if let Some((buffer_ms, true)) = link {
            (if self.was_link_down {
                Seq::empty()
            } else {
                seq![(LogLevel::Warn, "server link down"@)]
            }) + (if buffer_ms < FLASH_BUFFER_THRESHOLD_MS && !self.logged_critical {
                seq![(LogLevel::Error, critical_message(buffer_ms))]
            } else {
                Seq::empty()
            })
        } else {
            Seq::empty()
        }
    }

    /// What the border says in a frame.
    pub open spec fn color(&self, clipping: bool, link: Option<(u32, bool)>, now_ms: u64) -> Option<
        FlashColor,
    > {
        if self.flashes_clip(clipping, now_ms) {
            if half_periods(self.clip_start(clipping, now_ms)->0, now_ms) % 2 == 0 {
                Some(FlashColor::Clip)
            } else {
                None
            }
        } else if let Some((buffer_ms, true)) = link {
            if half_periods(self.created_at_ms, now_ms) % 2 != 0 {
                None
            } else if buffer_ms < FLASH_BUFFER_THRESHOLD_MS {
                Some(FlashColor::Critical)
            } else {
                Some(FlashColor::LinkDown)
            }
        } else {
            None
        }
    }

    /// Nothing has happened yet.
    pub fn new(now_ms: u64) -> (alarm: Self)
        ensures
            alarm == (Alarm {
                created_at_ms: now_ms,
                was_clipping: false,
                clip_flash_started_at_ms: None,
                was_link_down: false,
                logged_critical: false,
            }),
    {
        Alarm {
            created_at_ms: now_ms,
            was_clipping: false,
            clip_flash_started_at_ms: None,
            was_link_down: false,
            logged_critical: false,
        }
    }

    /// The border in this frame, and what is to be logged. A fresh clip comes
    /// first: an outage would mask it.
    pub fn flash(&mut self, clipping: bool, link: Option<(u32, bool)>, now_ms: u64) -> (shown: (
        Option<FlashColor>,
        Vec<AlarmLine>,
    ))
        ensures
            *final(self) == old(self).after(clipping, link, now_ms),
            shown.0 == old(self).color(clipping, link, now_ms),
            lines_of(shown.1@) == old(self).lines(clipping, link, now_ms),
    {
        let mut lines: Vec<AlarmLine> = Vec::new();
        if clipping && !self.was_clipping {
            self.clip_flash_started_at_ms = Some(now_ms);
            lines.push(
                AlarmLine { level: LogLevel::Warn, message: "input clip detected".to_owned() },
            );
        }
        self.was_clipping = clipping;
        if let Some(started) = self.clip_flash_started_at_ms {
            let n: u64 = count_half_periods(started, now_ms);
            if n < 2 * CLIP_FLASH_COUNT {
                assert(lines_of(lines@) =~= old(self).lines(clipping, link, now_ms));
                return (
                    if n % 2 == 0 {
                        Some(FlashColor::Clip)
                    } else {
                        None
                    },
                    lines,
                );
            }
            self.clip_flash_started_at_ms = None;
        }
        match link {
            Some((buffer_ms, true)) => {
                if !self.was_link_down {
                    lines.push(
                        AlarmLine { level: LogLevel::Warn, message: "server link down".to_owned() },
                    );
                }
                self.was_link_down = true;
                let critical = buffer_ms < FLASH_BUFFER_THRESHOLD_MS;
                if critical && !self.logged_critical {
                    let mut message = "server link down and buffer critical (".to_owned();
                    push_decimal(&mut message, buffer_ms as u64);
                    message.append(" ms left)");
                    lines.push(AlarmLine { level: LogLevel::Error, message });
                    self.logged_critical = true;
                }
                assert(lines_of(lines@) =~= old(self).lines(clipping, link, now_ms));
                let on = count_half_periods(self.created_at_ms, now_ms) % 2 == 0;
                (
                    if !on {
                        None
                    } else if critical {
                        Some(FlashColor::Critical)
                    } else {
                        Some(FlashColor::LinkDown)
                    },
                    lines,
                )
            },
            _ => {
                self.was_link_down = false;
                self.logged_critical = false;
                assert(lines_of(lines@) =~= old(self).lines(clipping, link, now_ms));
                (None, lines)
            },
        }
    }
}

/// A clip is logged when it begins and not again while it lasts.
pub proof fn law_a_clip_is_logged_once(alarm: Alarm, link: Option<(u32, bool)>, now_ms: u64)
    ensures
        !alarm.was_clipping ==> alarm.lines(true, link, now_ms) == seq![
            (LogLevel::Warn, "input clip detected"@),
        ],
        alarm.was_clipping && alarm.flashes_clip(true, now_ms) ==> alarm.lines(
            true,
            link,
            now_ms,
        ).len() == 0,
        alarm.after(true, link, now_ms).was_clipping,
{
}

/// An outage is logged when it begins and, once, when it becomes critical;
/// while it goes on after that, nothing is.
pub proof fn law_an_outage_is_logged_once(
    alarm: Alarm,
    first: u32,
    second: u32,
    at_ms: u64,
    later_ms: u64,
)
    requires
        !alarm.flashes_clip(alarm.was_clipping, at_ms),
    ensures
        ({
            let next = alarm.after(alarm.was_clipping, Some((first, true)), at_ms);
            let lines = next.lines(next.was_clipping, Some((second, true)), later_ms);
            &&& next.was_link_down
            &&& first < FLASH_BUFFER_THRESHOLD_MS || second >= FLASH_BUFFER_THRESHOLD_MS
                ==> lines.len() == 0
            &&& !alarm.logged_critical && first >= FLASH_BUFFER_THRESHOLD_MS && second
                < FLASH_BUFFER_THRESHOLD_MS ==> lines == seq![
                (LogLevel::Error, critical_message(second)),
            ]
        }),
{
    let next = alarm.after(alarm.was_clipping, Some((first, true)), at_ms);
    let lines = next.lines(next.was_clipping, Some((second, true)), later_ms);
    assert(!next.flashes_clip(next.was_clipping, later_ms));
    if !alarm.logged_critical && first >= FLASH_BUFFER_THRESHOLD_MS && second
        < FLASH_BUFFER_THRESHOLD_MS {
        assert(lines =~= seq![(LogLevel::Error, critical_message(second))]);
    }
}

/// A link that answers again ends the outage: the next one is logged afresh.
pub proof fn law_a_new_outage_is_logged_again(alarm: Alarm, buffer_ms: u32, left: u32, at_ms: u64, later_ms: u64)
    requires
        !alarm.flashes_clip(alarm.was_clipping, at_ms),
    ensures
        alarm.after(alarm.was_clipping, Some((buffer_ms, false)), at_ms).lines(
            alarm.was_clipping,
            Some((left, true)),
            later_ms,
        ).len() > 0,
        alarm.after(alarm.was_clipping, Some((buffer_ms, false)), at_ms).lines(
            alarm.was_clipping,
            Some((left, true)),
            later_ms,
        )[0] == (LogLevel::Warn, "server link down"@),
{
    let next = alarm.after(alarm.was_clipping, Some((buffer_ms, false)), at_ms);
    assert(!next.flashes_clip(alarm.was_clipping, later_ms));
}

/// What is left at the server is what it last reported, the whole buffer while playout is
/// stopped and the lead while it is not, and shrinks by a millisecond in each millisecond
/// without news. After five seconds without any it is a guess.
pub proof fn law_the_buffer_drains_in_real_time(state: ServerState, age_ms: u64, more_ms: u64)
    requires
        age_ms + more_ms <= u64::MAX,
    ensures
        estimate(state, 0).0 == (if state.playout.state == PlayoutState::Stopped {
            state.buffered_ms
        } else {
            state.lead_ms
        }),
        estimate(state, (age_ms + more_ms) as u64).0 == (if estimate(state, age_ms).0 > more_ms {
            estimate(state, age_ms).0 - more_ms
        } else {
            0
        }),
        estimate(state, age_ms).1 <==> age_ms >= 5_000,
{
}

/// A clip flashes the border four times, from the moment it begins: on for a fifth of a
/// second and off for as long, whatever the link does. Then it is over, also where the
/// input still clips.
pub proof fn law_a_clip_flashes_four_times(
    alarm: Alarm,
    link: Option<(u32, bool)>,
    later: Option<(u32, bool)>,
    clipping: bool,
    start_ms: u64,
    now_ms: u64,
)
    requires
        !alarm.was_clipping,
        start_ms <= now_ms,
    ensures
        alarm.color(true, link, start_ms) == Some(FlashColor::Clip),
        ({
            let next = alarm.after(true, link, start_ms);
            let flash = (now_ms - start_ms) / 200;
            &&& now_ms < start_ms + 1_600 ==> next.color(clipping, later, now_ms) == (if flash % 2
                == 0 {
                Some(FlashColor::Clip)
            } else {
                None
            })
            &&& now_ms >= start_ms + 1_600 ==> next.color(clipping, later, now_ms) != Some(
                FlashColor::Clip,
            )
        }),
{
    let next = alarm.after(true, link, start_ms);
    assert(half_periods(start_ms, start_ms) == 0);
    assert(next.clip_start(clipping, now_ms) == Some(start_ms));
    assert(half_periods(start_ms, now_ms) == (now_ms - start_ms) / 200);
}

/// While no clip flashes, the border is dark as long as the link is up, and during an
/// outage blinks all the time: as critical exactly while less than 45 seconds are left.
pub proof fn law_an_outage_blinks(alarm: Alarm, link: Option<(u32, bool)>, now_ms: u64)
    requires
        !alarm.was_clipping,
        alarm.clip_flash_started_at_ms is None,
        alarm.created_at_ms <= now_ms,
    ensures
        !(link matches Some((left, true))) ==> alarm.color(false, link, now_ms) is None,
        link matches Some((left, true)) ==> alarm.color(false, link, now_ms) == (if (now_ms
            - alarm.created_at_ms) / 200 % 2 != 0 {
            None
        } else if left < 45_000 {
            Some(FlashColor::Critical)
        } else {
            Some(FlashColor::LinkDown)
        }),
{
    assert(half_periods(alarm.created_at_ms, now_ms) == (now_ms - alarm.created_at_ms) / 200);
}

/// What is logged of an outage says how much is left at the server when that becomes
/// critical; a link that is up is not logged.
pub proof fn law_a_critical_outage_says_what_is_left(alarm: Alarm, left: u32, up: u32, now_ms: u64)
    requires
        !alarm.was_clipping,
        alarm.clip_flash_started_at_ms is None,
        !alarm.was_link_down,
        !alarm.logged_critical,
    ensures
        alarm.lines(false, Some((up, false)), now_ms).len() == 0,
        alarm.lines(false, None, now_ms).len() == 0,
        left >= 45_000 ==> alarm.lines(false, Some((left, true)), now_ms) == seq![
            (LogLevel::Warn, "server link down"@),
        ],
        left < 45_000 ==> alarm.lines(false, Some((left, true)), now_ms) == seq![
            (LogLevel::Warn, "server link down"@),
            (
                LogLevel::Error,
                "server link down and buffer critical ("@ + text::decimal(left as nat)
                    + " ms left)"@,
            ),
        ],
{
    assert(alarm.lines(false, Some((left, true)), now_ms) =~= if left >= 45_000 {
        seq![(LogLevel::Warn, "server link down"@)]
    } else {
        seq![
            (LogLevel::Warn, "server link down"@),
            (
                LogLevel::Error,
                "server link down and buffer critical ("@ + text::decimal(left as nat)
                    + " ms left)"@,
            ),
        ]
    });
}

/// A clip hides an outage that begins while it flashes, but does not swallow it: the outage
/// is logged once the flashing is over.
pub proof fn law_a_clip_hides_no_outage_for_good(
    alarm: Alarm,
    clipping: bool,
    left: u32,
    now_ms: u64,
    later_ms: u64,
    later_left: u32,
)
    requires
        alarm.flashes_clip(clipping, now_ms),
        !alarm.was_link_down,
        !alarm.after(clipping, Some((left, true)), now_ms).flashes_clip(false, later_ms),
    ensures
        ({
            let next = alarm.after(clipping, Some((left, true)), now_ms);
            let lines = next.lines(false, Some((later_left, true)), later_ms);
            lines.len() > 0 && lines[0] == (LogLevel::Warn, "server link down"@)
        }),
{
}

} // verus!
