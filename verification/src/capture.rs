//! Audio devices: which one is opened, when it is opened again, and which of its
//! channels are used.

use vstd::prelude::*;

use crate::text::{chars_of, same_text};

verus! {

/// The encoder always gets two channels.
pub const OUT_CHANNELS: usize = 2;

/// How long to wait before a device is tried again.
pub const DEVICE_RETRY_MS: u64 = 3_000;

/// An input device.
#[derive(Clone, Debug, PartialEq, Eq)]
pub struct DeviceInfo {
    pub name: String,
    pub channels: u16,
    pub sample_rate: u32,
}

/// A character's code, with the capital letters of ASCII as small ones.
pub open spec fn folded(c: char) -> int {
    if 'A' <= c <= 'Z' {
        c as int + 32
    } else {
        c as int
    }
}

/// Two texts are the same but for the case of ASCII letters.
pub open spec fn same_but_case(a: Seq<char>, b: Seq<char>) -> bool {
    &&& a.len() == b.len()
    &&& forall|i: int| 0 <= i < a.len() ==> folded(#[trigger] a[i]) == folded(b[i])
}

/// A character's code, with the capital letters of ASCII as small ones.
fn fold(c: char) -> (code: u32)
    ensures
        code == folded(c),
{
    if 'A' <= c && c <= 'Z' {
        c as u32 + 32
    } else {
        c as u32
    }
}

/// Two texts are the same but for the case of ASCII letters.
fn is_same_but_case(a: &str, b: &str) -> (same: bool)
    ensures
        same == same_but_case(a@, b@),
{
    let x = chars_of(a);
    let y = chars_of(b);
    if x.len() != y.len() {
        return false;
    }
    let mut i: usize = 0;
    while i < x.len()
        invariant
            i <= x@.len(),
            x@ == a@,
            y@ == b@,
            x@.len() == y@.len(),
            forall|k: int| 0 <= k < i ==> folded(#[trigger] x@[k]) == folded(y@[k]),
        decreases x@.len() - i,
    {
        if fold(x[i]) != fold(y[i]) {
            assert(folded(a@[i as int]) != folded(b@[i as int]));
            return false;
        }
        i = i + 1;
    }
    true
}

/// `i` is the first place at which the texts meet a condition.
pub open spec fn is_first(names: Seq<String>, wanted: spec_fn(Seq<char>) -> bool, i: int) -> bool {
    &&& 0 <= i < names.len()
    &&& wanted(names[i]@)
    &&& forall|k: int| 0 <= k < i ==> !wanted(#[trigger] names[k]@)
}

/// The place of the audio subsystem to use: the first one with the name, in any
/// case. `None` stands for the platform's default, which is also taken where the
/// name is unknown.
pub fn choose_host(names: &Vec<String>, wanted: &str) -> (chosen: Option<usize>)
    ensures
        chosen matches Some(i) ==> wanted@.len() > 0 && is_first(
            names@,
            |name: Seq<char>| same_but_case(name, wanted@),
            i as int,
        ),
        chosen is None ==> wanted@.len() == 0 || forall|k: int|
            0 <= k < names@.len() ==> !same_but_case(#[trigger] names@[k]@, wanted@),
{
    proof {
        reveal_strlit("");
        assert(wanted@.len() == 0 ==> wanted@ =~= ""@);
    }
    if same_text(wanted, "") {
        return None;
    }
    let mut i: usize = 0;
    while i < names.len()
        invariant
            i <= names@.len(),
            wanted@.len() > 0,
            forall|k: int| 0 <= k < i ==> !same_but_case(#[trigger] names@[k]@, wanted@),
        decreases names@.len() - i,
    {
        if is_same_but_case(names[i].as_str(), wanted) {
            return Some(i);
        }
        i = i + 1;
    }
    None
}

/// The device to open.
#[derive(Clone, Copy, Debug, PartialEq, Eq, Structural)]
pub enum DeviceChoice {
    /// The subsystem's default.
    Default,
    /// The one at a place of the list.
    Listed(usize),
    /// There is none of that name.
    Missing,
}

/// The place of the first device with exactly a name.
fn find_device(names: &Vec<String>, wanted: &str) -> (found: Option<usize>)
    ensures
        found matches Some(i) ==> is_first(names@, |name: Seq<char>| name == wanted@, i as int),
        found is None ==> forall|k: int|
            0 <= k < names@.len() ==> #[trigger] names@[k]@ != wanted@,
{
    let mut i: usize = 0;
    while i < names.len()
        invariant
            i <= names@.len(),
            forall|k: int| 0 <= k < i ==> #[trigger] names@[k]@ != wanted@,
        decreases names@.len() - i,
    {
        if same_text(names[i].as_str(), wanted) {
            return Some(i);
        }
        i = i + 1;
    }
    None
}

/// `choice` is what is opened for a name: the default device where `any` device
/// will do, else the first one with exactly the name.
pub open spec fn is_choice(
    names: Seq<String>,
    wanted: Seq<char>,
    any: bool,
    choice: DeviceChoice,
) -> bool {
    if any {
        choice == DeviceChoice::Default
    } else {
        match choice {
            DeviceChoice::Default => false,
            DeviceChoice::Listed(i) => is_first(
                names,
                |name: Seq<char>| name == wanted,
                i as int,
            ),
            DeviceChoice::Missing => forall|k: int|
                0 <= k < names.len() ==> #[trigger] names[k]@ != wanted,
        }
    }
}

/// The input device to open. No name, and the name `default`, stand for the
/// default one.
pub fn choose_device(names: &Vec<String>, wanted: &str) -> (choice: DeviceChoice)
    ensures
        is_choice(names@, wanted@, wanted@ == ""@ || wanted@ == "default"@, choice),
{
    if same_text(wanted, "") || same_text(wanted, "default") {
        return DeviceChoice::Default;
    }
    match find_device(names, wanted) {
        Some(i) => DeviceChoice::Listed(i),
        None => DeviceChoice::Missing,
    }
}

/// The output device to open. No name stands for the default one.
pub fn choose_output_device(names: &Vec<String>, wanted: &str) -> (choice: DeviceChoice)
    ensures
        is_choice(names@, wanted@, wanted@ == ""@, choice),
{
    if same_text(wanted, "") {
        return DeviceChoice::Default;
    }
    match find_device(names, wanted) {
        Some(i) => DeviceChoice::Listed(i),
        None => DeviceChoice::Missing,
    }
}

/// A device, by its subsystem and its name.
#[derive(Clone, Debug, PartialEq, Eq)]
pub struct Target {
    pub host: String,
    pub device: String,
}

/// `a` names what `b` names.
pub open spec fn same_target(a: Target, b: Target) -> bool {
    a.host@ == b.host@ && a.device@ == b.device@
}

fn copy_target(target: &Target) -> (copy: Target)
    ensures
        same_target(copy, *target),
{
    Target { host: target.host.as_str().to_owned(), device: target.device.as_str().to_owned() }
}

/// Keeps a capture device open.
#[derive(Clone, Debug, PartialEq, Eq)]
pub struct CaptureKeeper {
    /// The device that was last asked for; `None` before that, and once it was
    /// closed.
    pub target: Option<Target>,
    /// A stream of it is there.
    pub open: bool,
    /// It could not be opened, or was lost.
    pub retrying: bool,
}

/// What is to be done after a while without a command.
#[derive(Clone, Debug, PartialEq, Eq)]
pub struct KeeperTick {
    /// The stream was lost and is to be dropped.
    pub lost: bool,
    /// The device to try again.
    pub retry: Option<Target>,
}

impl CaptureKeeper {
    /// What is known once a device was asked for.
    pub open spec fn after_asking(&self, target: Target) -> Self {
        CaptureKeeper { target: Some(target), open: false, retrying: false }
    }

    /// What is known once the device was given up.
    pub open spec fn after_closing(&self) -> Self {
        CaptureKeeper { target: None, open: false, retrying: false }
    }

    /// What is known once the device was tried.
    pub open spec fn after_try(&self, opened: bool) -> Self {
        CaptureKeeper { target: self.target, open: opened, retrying: !opened }
    }

    /// What is known after a while without a command.
    pub open spec fn after_tick(&self, running: bool) -> Self {
        CaptureKeeper {
            target: self.target,
            open: self.open && running,
            retrying: self.retrying || (self.open && !running),
        }
    }

    /// The device is then tried again.
    pub open spec fn tries_again(&self, running: bool) -> bool {
        self.after_tick(running).retrying && self.target is Some
    }

    /// No device has been asked for.
    pub fn new() -> (keeper: Self)
        ensures
            keeper == (CaptureKeeper { target: None, open: false, retrying: false }),
    {
        CaptureKeeper { target: None, open: false, retrying: false }
    }

    /// A device is asked for. The stream that is there is dropped, and the device
    /// is to be tried.
    pub fn ask(&mut self, target: Target)
        ensures
            *final(self) == old(self).after_asking(target),
    {
        self.target = Some(target);
        self.open = false;
        self.retrying = false;
    }

    /// The device was tried.
    pub fn tried(&mut self, opened: bool)
        ensures
            *final(self) == old(self).after_try(opened),
    {
        self.open = opened;
        self.retrying = !opened;
    }

    /// The device is to be closed and not tried again.
    pub fn close(&mut self)
        ensures
            *final(self) == old(self).after_closing(),
    {
        self.target = None;
        self.open = false;
        self.retrying = false;
    }

    /// Looks after the device: `running` says whether its stream still delivers.
    pub fn tick(&mut self, running: bool) -> (tick: KeeperTick)
        ensures
            tick.lost == (old(self).open && !running),
            *final(self) == old(self).after_tick(running),
            tick.retry is Some <==> old(self).tries_again(running),
            tick.retry matches Some(target) ==> same_target(target, old(self).target->0),
    {
        let lost = self.open && !running;
        if lost {
            self.open = false;
            self.retrying = true;
        }
        let retry: Option<Target> = match &self.target {
            Some(target) => if self.retrying {
                Some(copy_target(target))
            } else {
                None
            },
            None => None,
        };
        KeeperTick { lost, retry }
    }
}

/// The channel that is used for a chosen one: the last one where the device has
/// too few.
pub open spec fn used_channel(chosen: u16, channels: usize) -> int {
    if chosen < channels {
        chosen as int
    } else {
        channels - 1
    }
}

/// Picks two channels out of interleaved samples. In mono the left one stands on
/// both sides. A frame that is cut off is dropped.
pub fn pick_stereo(
    raw: &Vec<u32>,
    channels: usize,
    left: u16,
    right: u16,
    mono: bool,
) -> (out: Vec<u32>)
    requires
        channels > 0,
        raw@.len() / channels as nat * 2 <= usize::MAX,
    ensures
        out@.len() == raw@.len() / channels as nat * 2,
        forall|f: int|
            0 <= f < raw@.len() / channels as nat ==> out@[f * 2] == raw@[#[trigger] (f * channels)
                + used_channel(left, channels)] && out@[f * 2 + 1] == raw@[f * channels
                + used_channel(
                if mono {
                    left
                } else {
                    right
                },
                channels,
            )],
        mono ==> forall|f: int|
            0 <= f < raw@.len() / channels as nat ==> #[trigger] out@[f * 2] == out@[f * 2 + 1],
        left < channels && right < channels && !mono ==> forall|f: int|
            0 <= f < raw@.len() / channels as nat ==> out@[f * 2] == raw@[#[trigger] (f * channels)
                + left] && out@[f * 2 + 1] == raw@[f * channels + right],
{
    let frames: usize = raw.len() / channels;
    let last: usize = channels - 1;
    let l: usize = if (left as usize) < channels {
        left as usize
    } else {
        last
    };
    let r: usize = if mono {
        l
    } else if (right as usize) < channels {
        right as usize
    } else {
        last
    };
    let ghost lc = used_channel(left, channels);
    let ghost rc = used_channel(
        if mono {
            left
        } else {
            right
        },
        channels,
    );
    let mut out: Vec<u32> = Vec::new();
    let mut base: usize = 0;
    let mut f: usize = 0;
    proof {
        assert(frames * channels <= raw@.len()) by (nonlinear_arith)
            requires
                channels > 0,
                frames == raw@.len() / channels as nat,
        ;
    }
    while f < frames
        invariant
            f <= frames,
            frames * channels <= raw@.len(),
            raw@.len() <= usize::MAX,
            base == f * channels,
            l == lc,
            r == rc,
            l < channels,
            r < channels,
            out@.len() == f * 2,
            forall|k: int|
                0 <= k < f ==> out@[k * 2] == raw@[#[trigger] (k * channels) + lc] && out@[k * 2
                    + 1] == raw@[k * channels + rc],
        decreases frames - f,
    {
        proof {
            assert((f + 1) * channels <= frames * channels) by (nonlinear_arith)
                requires
                    f + 1 <= frames,
                    channels > 0,
            ;
            assert((f + 1) * channels == f * channels + channels) by (nonlinear_arith);
        }
        let ghost before = out@;
        out.push(raw[base + l]);
        out.push(raw[base + r]);
        assert forall|k: int| 0 <= k < f + 1 implies out@[k * 2] == raw@[#[trigger] (k * channels)
            + lc] && out@[k * 2 + 1] == raw@[k * channels + rc] by {
            if k < f {
                assert(out@[k * 2] == before[k * 2]);
                assert(out@[k * 2 + 1] == before[k * 2 + 1]);
            }
        }
        base = base + channels;
        f = f + 1;
    }
    assert(mono ==> lc == rc);
    assert forall|k: int| mono && 0 <= k < frames implies #[trigger] out@[k * 2] == out@[k * 2
        + 1] by {
        assert(out@[k * 2] == raw@[(k * channels) + lc]);
    }
    out
}

/// A device that was asked for is tried again at every tick after it could not be
/// opened or was lost, and one that delivers is left alone.
pub proof fn law_a_device_is_retried_until_it_opens(keeper: CaptureKeeper, running: bool)
    requires
        keeper.target is Some,
    ensures
        keeper.after_try(false).tries_again(running),
        keeper.open ==> keeper.tries_again(false),
        keeper.tries_again(running) ==> keeper.after_tick(running).tries_again(running),
        !keeper.after_try(true).tries_again(true),
{
}

/// A channel that the device has is used as it was chosen; for one that it lacks, a channel
/// that it has stands in.
pub proof fn law_a_channel_of_the_device_is_used(chosen: u16, channels: usize)
    requires
        channels > 0,
    ensures
        0 <= used_channel(chosen, channels) < channels,
        chosen < channels ==> used_channel(chosen, channels) == chosen,
        chosen >= channels ==> used_channel(chosen, channels) + 1 == channels,
{
}

/// Names are the same but for case exactly if, letter by letter, they are equal or one is
/// the capital of the other.
pub proof fn law_case_is_all_that_may_differ(a: Seq<char>, b: Seq<char>)
    ensures
        same_but_case(a, b) <==> a.len() == b.len() && forall|i: int|
            0 <= i < a.len() ==> {
                ||| #[trigger] a[i] == b[i]
                ||| 'A' <= a[i] <= 'Z' && b[i] as int == a[i] as int + 32
                ||| 'A' <= b[i] <= 'Z' && a[i] as int == b[i] as int + 32
            },
        same_but_case(a, a),
        same_but_case(a, b) ==> same_but_case(b, a),
{
    if same_but_case(a, b) {
        assert forall|i: int| 0 <= i < a.len() implies {
            ||| #[trigger] a[i] == b[i]
            ||| 'A' <= a[i] <= 'Z' && b[i] as int == a[i] as int + 32
            ||| 'A' <= b[i] <= 'Z' && a[i] as int == b[i] as int + 32
        } by {
            assert(folded(a[i]) == folded(b[i]));
        }
        assert forall|i: int| 0 <= i < b.len() implies folded(#[trigger] b[i]) == folded(a[i]) by {
            assert(folded(a[i]) == folded(b[i]));
        }
    }
}

/// A device that is asked for by name is the one that is opened, if it is there; another
/// one never is.
pub proof fn law_the_named_device_is_opened(
    names: Seq<String>,
    wanted: Seq<char>,
    choice: DeviceChoice,
    k: int,
)
    requires
        is_choice(names, wanted, false, choice),
    ensures
        choice != DeviceChoice::Default,
        choice matches DeviceChoice::Listed(i) ==> i < names.len() && names[i as int]@ == wanted,
        0 <= k < names.len() && names[k]@ == wanted ==> choice is Listed,
{
}

/// A device that was closed is not tried again, whatever happened before; one that is asked
/// for takes the place of the one before it, and is tried until it opens.
pub proof fn law_the_last_request_counts(
    keeper: CaptureKeeper,
    target: Target,
    running: bool,
    later: bool,
)
    ensures
        !keeper.after_closing().tries_again(running),
        !keeper.after_closing().after_tick(running).tries_again(later),
        keeper.after_asking(target).target == Some(target),
        keeper.after_asking(target).after_try(false).tries_again(running),
        keeper.after_asking(target).after_try(false).after_tick(running).target == Some(target),
        !keeper.after_asking(target).after_try(true).tries_again(true),
        keeper.after_asking(target).after_try(true).tries_again(false),
{
}

} // verus!
