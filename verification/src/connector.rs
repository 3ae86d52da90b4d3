//! A host that calls devices: when it calls again, which of the devices it discovered it calls,
//! and when it gives a silent device up.

use vstd::prelude::*;
use vstd::string::*;
use crate::device_id::DeviceId;
use crate::discovery::DiscoveredDevice;
use crate::frame;
use crate::frame::protocol_compatible;
use crate::messages::SecurityMode;
use crate::outbound;
use crate::table::Table;
use crate::text;

verus! {

pub const HEARTBEAT_INTERVAL_SECS: u64 = 10;

pub const HEARTBEAT_TIMEOUT_SECS: u64 = 10;

pub const HEARTBEAT_MAX_MISSES: u32 = 3;

/// The longest pause between two calls of a device that was named.
pub const CONNECT_BACKOFF_MAX_SECS: u64 = 30;

/// The longest pause between two calls of a device that was discovered.
pub const DISCOVERED_BACKOFF_MAX_SECS: u64 = 10;

/// How the device answered a heartbeat.
#[derive(Debug, Clone, Copy, PartialEq, Eq, Structural)]
pub enum Beat {
    Answered,
    Failed,
    TimedOut,
}

/// What is done after a heartbeat.
#[derive(Debug, Clone, Copy, PartialEq, Eq, Structural)]
pub enum BeatAction {
    /// Go on.
    Continue,
    /// Go on; the device has recovered from so many misses.
    Recovered(u32),
    /// Go on; so many heartbeats in a row were missed.
    Missed(u32),
    /// Close the connection.
    Close,
}

/// The heartbeats that a device missed in a row.
#[derive(Debug, Clone, Copy, PartialEq, Eq, Structural)]
pub struct Heartbeat {
    pub misses: u32,
}

impl Heartbeat {
    pub open spec fn after(self, beat: Beat) -> Heartbeat {
        Heartbeat {
            misses: if beat == Beat::Answered {
                0
            } else {
                (self.misses + 1) as u32
            },
        }
    }

    /// What is done after a heartbeat.
    pub open spec fn says(self, beat: Beat) -> BeatAction {
        if beat == Beat::Answered {
            if self.misses > 0 {
                BeatAction::Recovered(self.misses)
            } else {
                BeatAction::Continue
            }
        } else if self.misses + 1 >= HEARTBEAT_MAX_MISSES {
            BeatAction::Close
        } else {
            BeatAction::Missed((self.misses + 1) as u32)
        }
    }

    pub fn new() -> (r: Heartbeat)
        ensures
            r.misses == 0,
    {
        Heartbeat { misses: 0 }
    }

    /// Accounts for a heartbeat; a device that missed too many in a row is given up.
    pub fn step(&mut self, beat: Beat) -> (r: BeatAction)
        requires
            old(self).misses < HEARTBEAT_MAX_MISSES,
        ensures
            *final(self) == old(self).after(beat),
            r == old(self).says(beat),
    {
        match beat {
            Beat::Answered => {
                let before = self.misses;
                self.misses = 0;
                if before > 0 {
                    BeatAction::Recovered(before)
                } else {
                    BeatAction::Continue
                }
            },
            _ => {
                self.misses = self.misses + 1;
                if self.misses >= HEARTBEAT_MAX_MISSES {
                    BeatAction::Close
                } else {
                    BeatAction::Missed(self.misses)
                }
            },
        }
    }
}

/// The misses in a row at the end of some heartbeats; `None` once the device was given up.
pub open spec fn misses_after(beats: Seq<Beat>) -> Option<Heartbeat>
    decreases beats.len(),
{
    if beats.len() == 0 {
        Some(Heartbeat { misses: 0 })
    } else {
        match misses_after(beats.drop_last()) {
            None => None,
            Some(before) => {
                let after = before.after(beats.last());
                if after.misses >= HEARTBEAT_MAX_MISSES {
                    None
                } else {
                    Some(after)
                }
            },
        }
    }
}

/// Whether a heartbeat and the two before it were missed.
pub open spec fn third_miss(beats: Seq<Beat>, i: int) -> bool {
    2 <= i < beats.len() && beats[i] != Beat::Answered && beats[i - 1] != Beat::Answered
        && beats[i - 2] != Beat::Answered
}

/// A device is given up once it missed three heartbeats in a row, and not before.
pub proof fn lemma_three_misses_close(beats: Seq<Beat>)
    ensures
        misses_after(beats) is None <==> exists|i: int| #[trigger] third_miss(beats, i),
        misses_after(beats) matches Some(h) ==> {
            &&& h.misses <= beats.len()
            &&& h.misses < 3
            &&& forall|i: int|
                beats.len() - h.misses <= i < beats.len() ==> #[trigger] beats[i] != Beat::Answered
            &&& h.misses < beats.len() ==> beats[beats.len() - h.misses - 1] == Beat::Answered
        },
    decreases beats.len(),
{
    if beats.len() > 0 {
        let init = beats.drop_last();
        lemma_three_misses_close(init);
        assert forall|i: int| third_miss(init, i) implies third_miss(beats, i) by {}
        assert forall|i: int| third_miss(beats, i) && i < beats.len() - 1 implies third_miss(
            init,
            i,
        ) by {}
        match misses_after(init) {
            None => {},
            Some(before) => {
                assert forall|i: int| 0 <= i < init.len() implies init[i] == beats[i] by {}
                if before.misses == 2 && beats.last() != Beat::Answered {
                    assert(init[init.len() - 2] != Beat::Answered);
                    assert(init[init.len() - 1] != Beat::Answered);
                    assert(third_miss(beats, beats.len() - 1));
                } else {
                    let n = beats.len() - 1;
                    if third_miss(beats, n) {
                        assert(init[n - 1] != Beat::Answered);
                        assert(init[n - 2] != Beat::Answered);
                    }
                }
            },
        }
    }
}

/// The pause that follows a pause: twice as long, up to a longest one.
pub open spec fn pause_after(delay: nat, max: nat) -> nat {
    if delay * 2 > max {
        max
    } else {
        delay * 2
    }
}

/// The pauses between the calls of one device.
#[derive(Debug, Clone, Copy, PartialEq, Eq, Structural)]
pub struct Backoff {
    pub delay: u64,
    pub max: u64,
}

impl Backoff {
    pub open spec fn wf(self) -> bool {
        1 <= self.delay <= self.max
    }

    /// The pause to make when a call has ended.
    pub open spec fn pause_due(self, connected: bool) -> u64 {
        if connected {
            1
        } else {
            self.delay
        }
    }

    pub open spec fn after(self, connected: bool) -> Backoff {
        Backoff {
            delay: pause_after(self.pause_due(connected) as nat, self.max as nat) as u64,
            max: self.max,
        }
    }

    /// The pauses start at one second.
    pub fn new(max: u64) -> (r: Backoff)
        requires
            1 <= max,
        ensures
            r == (Backoff { delay: 1, max }),
            r.wf(),
    {
        Backoff { delay: 1, max }
    }

    /// A call has ended: the pause to make now.
    pub fn ended(&mut self, connected: bool) -> (r: u64)
        requires
            old(self).wf(),
        ensures
            final(self).wf(),
            r == old(self).pause_due(connected),
            *final(self) == old(self).after(connected),
    {
        let pause = if connected {
            1
        } else {
            self.delay
        };
        self.delay = if pause > self.max / 2 {
            self.max
        } else {
            pause * 2
        };
        pause
    }

    /// The device is connected by other means: the pauses start over.
    pub fn idle(&mut self)
        requires
            old(self).wf(),
        ensures
            final(self).wf(),
            *final(self) == (Backoff { delay: 1, ..*old(self) }),
    {
        self.delay = 1;
    }
}

/// The pause that follows a number of failed calls.
pub open spec fn pause(failures: nat, max: nat) -> nat
    decreases failures,
{
    if failures == 0 {
        1
    } else {
        pause_after(pause((failures - 1) as nat, max), max)
    }
}

/// The pauses double with each failure until the longest is reached, and stay there.
pub proof fn lemma_pauses_are_bounded(failures: nat, max: nat)
    requires
        max >= 1,
    ensures
        pause(failures, max) == if outbound::power_of_two(failures) > max {
            max
        } else {
            outbound::power_of_two(failures)
        },
    decreases failures,
{
    if failures > 0 {
        lemma_pauses_are_bounded((failures - 1) as nat, max);
    }
}

/// Whether a device is the one that was expected.
pub open spec fn is_expected(expected: Option<DeviceId>, found: DeviceId) -> bool {
    match expected {
        None => true,
        Some(id) => id.0@ == found.0@,
    }
}

/// A device that was discovered under one identity must prove that one.
pub fn check_identity(endpoint: &str, expected: Option<DeviceId>, found: DeviceId) -> (r: Result<
    (),
    String,
>)
    ensures
        r is Ok <==> is_expected(expected, found),
        r matches Err(message) ==> message@ == "discovery identity changed at "@ + endpoint@
            + ": expected "@ + expected->0.hex().take(8) + ", got "@ + found.hex().take(8),
{
    match expected {
        None => Ok(()),
        Some(id) => {
            if id == found {
                return Ok(());
            }
            let mut message = text::cat4(
                "discovery identity changed at ",
                endpoint,
                ": expected ",
                id.short().as_str(),
            );
            message.append(", got ");
            message.append(found.short().as_str());
            Err(message)
        },
    }
}

/// What is done about a device that answered a discovery.
#[derive(Debug, Clone, Copy, PartialEq, Eq, Structural)]
pub enum Considered {
    /// It speaks another major version.
    Incompatible,
    /// It is in the other security mode.
    OtherSecurity,
    /// It is new: it is to be called from now on.
    Start,
    /// It is being called already; its endpoint is noted.
    Known,
}

/// What is done about a device that answered, when these are being called.
pub open spec fn considered(
    endpoints: Map<Seq<char>, String>,
    device: DiscoveredDevice,
    security: SecurityMode,
) -> Considered {
    if !frame::compatible(device.protocol_version) {
        Considered::Incompatible
    } else if device.security != security {
        Considered::OtherSecurity
    } else if endpoints.contains_key(device.device_id.hex()) {
        Considered::Known
    } else {
        Considered::Start
    }
}

/// The devices that are being called then.
pub open spec fn noted(
    endpoints: Map<Seq<char>, String>,
    device: DiscoveredDevice,
    security: SecurityMode,
) -> Map<Seq<char>, String> {
    match considered(endpoints, device, security) {
        Considered::Start | Considered::Known => endpoints.insert(
            device.device_id.hex(),
            device.endpoint,
        ),
        _ => endpoints,
    }
}

/// The endpoints of the devices that are called because they were discovered, by identity in
/// hexadecimal.
pub struct Discovered {
    pub endpoints: Table<String>,
}

impl Discovered {
    pub fn new() -> (r: Discovered)
        ensures
            r.endpoints.wf(),
            r.endpoints@ == Map::<Seq<char>, String>::empty(),
    {
        Discovered { endpoints: Table::new() }
    }

    /// Considers a device that answered. The endpoint of one that is called is always the one
    /// it answered from last.
    pub fn consider(&mut self, device: DiscoveredDevice, security: SecurityMode) -> (r: Considered)
        requires
            old(self).endpoints.wf(),
        ensures
            final(self).endpoints.wf(),
            r == considered(old(self).endpoints@, device, security),
            final(self).endpoints@ == noted(old(self).endpoints@, device, security),
    {
        if !protocol_compatible(device.protocol_version) {
            return Considered::Incompatible;
        }
        if device.security != security {
            return Considered::OtherSecurity;
        }
        let key = device.device_id.to_hex();
        let known = match self.endpoints.get(key.as_str()) {
            Some(_) => true,
            None => false,
        };
        self.endpoints.insert(key, device.endpoint);
        if known {
            Considered::Known
        } else {
            Considered::Start
        }
    }

    /// Where a device is called.
    pub fn endpoint(&self, id: DeviceId) -> (r: Option<&String>)
        requires
            self.endpoints.wf(),
        ensures
            match r {
                Some(endpoint) => self.endpoints@.contains_key(id.hex()) && *endpoint
                    == self.endpoints@[id.hex()],
                None => !self.endpoints@.contains_key(id.hex()),
            },
    {
        self.endpoints.get(id.to_hex().as_str())
    }
}

/// The next thing to do about a device that was discovered.
#[derive(Debug, Clone, Copy, PartialEq, Eq, Structural)]
pub enum CallStep {
    /// It is connected: wait a second, and start the pauses over.
    Connected,
    /// Its endpoint is not known: wait a second.
    Unknown,
    /// Call it.
    Call,
}

pub open spec fn next_step(connected: bool, endpoint_known: bool) -> CallStep {
    if connected {
        CallStep::Connected
    } else if !endpoint_known {
        CallStep::Unknown
    } else {
        CallStep::Call
    }
}

pub fn call_step(connected: bool, endpoint_known: bool) -> (r: CallStep)
    ensures
        r == next_step(connected, endpoint_known),
{
    if connected {
        CallStep::Connected
    } else if !endpoint_known {
        CallStep::Unknown
    } else {
        CallStep::Call
    }
}

/// What is said of a heartbeat fits the heartbeats before it: the connection is closed with the
/// heartbeat at which the device is given up, a recovery is told only behind misses, and the
/// misses that are told are those in a row.
pub proof fn lemma_heartbeats_are_told(beats: Seq<Beat>, beat: Beat)
    requires
        misses_after(beats) is Some,
    ensures
        ({
            let h = misses_after(beats)->0;
            let all = beats.push(beat);
            &&& h.says(beat) is Close <==> misses_after(all) is None
            &&& h.says(beat) is Close <==> third_miss(all, all.len() - 1)
            &&& h.says(beat) matches BeatAction::Missed(n) ==> beat != Beat::Answered
                && misses_after(all) == Some(Heartbeat { misses: n })
            &&& h.says(beat) matches BeatAction::Recovered(n) ==> beat == Beat::Answered
                && beats.len() > 0 && beats.last() != Beat::Answered && misses_after(beats) == Some(
                Heartbeat { misses: n },
            )
            &&& beat == Beat::Answered && (beats.len() == 0 || beats.last() == Beat::Answered)
                ==> h.says(beat) is Continue
            &&& beat == Beat::Answered && beats.len() > 0 && beats.last() != Beat::Answered
                ==> h.says(beat) is Recovered
            &&& beat != Beat::Answered && misses_after(all) is Some ==> h.says(beat) is Missed
            &&& beat == Beat::Answered ==> misses_after(all) == Some(Heartbeat { misses: 0 })
        }),
{
    let all = beats.push(beat);
    assert(all.drop_last() =~= beats);
    lemma_three_misses_close(beats);
    lemma_three_misses_close(all);
    let h = misses_after(beats)->0;
    if misses_after(all) is None {
        let i = choose|i: int| third_miss(all, i);
        if i < all.len() - 1 {
            assert(third_miss(beats, i));
        }
    }
    if h.misses > 0 {
        assert(beats[beats.len() - 1] != Beat::Answered);
    } else if beats.len() > 0 {
        assert(beats[beats.len() - 1] == Beat::Answered);
    }
}

/// The state of the pauses after some calls, of each of which is told whether it connected.
pub open spec fn after_calls(max: u64, calls: Seq<bool>) -> Backoff
    decreases calls.len(),
{
    if calls.len() == 0 {
        Backoff { delay: 1, max }
    } else {
        after_calls(max, calls.drop_last()).after(calls.last())
    }
}

/// How many calls at the end of some failed in a row.
pub open spec fn failed_in_a_row(calls: Seq<bool>) -> nat
    decreases calls.len(),
{
    if calls.len() == 0 || calls.last() {
        0
    } else {
        1 + failed_in_a_row(calls.drop_last())
    }
}

/// Whether any of some calls connected.
pub open spec fn any_connected(calls: Seq<bool>) -> bool {
    exists|i: int| 0 <= i < calls.len() && #[trigger] calls[i]
}

/// The pause after a call that connected is a second, and each failure behind it doubles the pause
/// up to the longest: only the calls since the last connection count.
pub proof fn lemma_pauses_count_failures(max: u64, calls: Seq<bool>)
    requires
        max >= 1,
    ensures
        ({
            let b = after_calls(max, calls);
            let failures = failed_in_a_row(calls);
            &&& b.wf()
            &&& b.max == max
            &&& b.delay == pause(
                if any_connected(calls) {
                    failures + 1
                } else {
                    failures
                },
                max as nat,
            )
            &&& b.pause_due(true) == 1
            &&& b.pause_due(false) == b.delay
        }),
    decreases calls.len(),
{
    if calls.len() > 0 {
        let init = calls.drop_last();
        lemma_pauses_count_failures(max, init);
        assert(pause(0, max as nat) == 1);
        if calls.last() {
            assert(calls[calls.len() - 1]);
            assert(any_connected(calls));
            assert(pause(1, max as nat) == pause_after(pause(0, max as nat), max as nat));
        } else {
            assert(any_connected(calls) <==> any_connected(init)) by {
                if any_connected(init) {
                    let i = choose|i: int| 0 <= i < init.len() && #[trigger] init[i];
                    assert(calls[i]);
                }
                if any_connected(calls) {
                    let i = choose|i: int| 0 <= i < calls.len() && #[trigger] calls[i];
                    assert(init[i]);
                }
            }
        }
    }
}

/// A device that is expected under an identity must show it, and any device will do where none is
/// expected.
pub proof fn lemma_identity_must_be_shown(expected: DeviceId, found: DeviceId)
    ensures
        is_expected(Some(expected), found) <==> expected.hex() == found.hex(),
        is_expected(None, found),
        is_expected(Some(found), found),
{
    if expected.hex() == found.hex() {
        crate::device_id::lemma_device_id_hex_injective(expected, found);
    }
}

/// A device of this major version and security mode is called, and no other; it is started once,
/// however often it answers, and called where it answered last. What is noted of other devices
/// stays.
pub proof fn lemma_discovered_device_is_started_once(
    endpoints: Map<Seq<char>, String>,
    device: DiscoveredDevice,
    again: DiscoveredDevice,
    other: Seq<char>,
    security: SecurityMode,
)
    requires
        device.device_id.hex() == again.device_id.hex(),
    ensures
        ({
            let after = noted(endpoints, device, security);
            let fits = device.protocol_version / 256 == frame::VERSION / 256
                && device.security == security;
            &&& fits <==> after.contains_key(device.device_id.hex())
                && after[device.device_id.hex()] == device.endpoint && (considered(
                endpoints,
                device,
                security,
            ) is Start || considered(endpoints, device, security) is Known)
            &&& fits ==> !(considered(after, again, security) is Start)
            &&& fits && !endpoints.contains_key(device.device_id.hex()) ==> considered(
                endpoints,
                device,
                security,
            ) is Start
            &&& !fits ==> after == endpoints
            &&& other != device.device_id.hex() ==> (after.contains_key(other)
                <==> endpoints.contains_key(other)) && after[other] == endpoints[other]
        }),
{
}

/// A device is called exactly when it is not connected and its endpoint is known.
pub proof fn lemma_only_the_missing_are_called(connected: bool, endpoint_known: bool)
    ensures
        next_step(connected, endpoint_known) == CallStep::Call <==> !connected && endpoint_known,
        next_step(connected, endpoint_known) == CallStep::Connected <==> connected,
{
}

} // verus!
