//! A device that calls its host: when it calls again after a failure, and how often it says so.

use vstd::prelude::*;
use vstd::string::*;

verus! {

pub const CONNECT_TIMEOUT_SECS: u64 = 5;

pub const CONNECTION_SETUP_TIMEOUT_SECS: u64 = 10;

/// The longest pause between two calls.
pub const OUTBOUND_BACKOFF_MAX_SECS: u64 = 30;

/// How long failures are passed over in silence after one was told, in nanoseconds.
pub const OUTBOUND_FAILURE_LOG_INTERVAL_NANOS: u64 = 30_000_000_000;

/// For how many calls a device that was just paired does not wait longer than a second.
pub const PAIRING_GRACE: u8 = 60;

/// The pause after a pause: twice as long, up to the longest.
pub open spec fn grown(delay: nat) -> nat {
    if delay * 2 > OUTBOUND_BACKOFF_MAX_SECS {
        OUTBOUND_BACKOFF_MAX_SECS as nat
    } else {
        delay * 2
    }
}

/// The pause after a pause. While there is grace left, it is one second and costs some grace.
pub fn next_outbound_delay(delay: u64, pairing_grace: &mut u8) -> (r: u64)
    ensures
        r == if *old(pairing_grace) > 0 {
            1
        } else {
            grown(delay as nat)
        },
        *final(pairing_grace) == if *old(pairing_grace) > 0 {
            *old(pairing_grace) - 1
        } else {
            0
        },
{
    if *pairing_grace > 0 {
        *pairing_grace = *pairing_grace - 1;
        return 1;
    }
    if delay > OUTBOUND_BACKOFF_MAX_SECS {
        return OUTBOUND_BACKOFF_MAX_SECS;
    }
    let twice = delay * 2;
    if twice > OUTBOUND_BACKOFF_MAX_SECS {
        OUTBOUND_BACKOFF_MAX_SECS
    } else {
        twice
    }
}

/// The calls of a device, as far as they bear on the next.
#[derive(Debug, Clone, Copy, PartialEq, Eq, Structural)]
pub struct Outbound {
    /// The pause before the next call, in seconds.
    pub delay: u64,
    pub grace: u8,
    /// When a failure was last told, in nanoseconds.
    pub told: Option<u64>,
    /// How many failures were passed over since.
    pub suppressed: u32,
}

/// How a call ended.
#[derive(Debug)]
pub enum CallEnd {
    /// A session was established; how it ended.
    Session(Result<(), String>),
    /// The host was reached, and no session was established.
    NoSession(Result<(), String>),
    /// The host was not reached.
    NotReached(String),
    /// The host was not reached in time.
    TimedOut,
}

/// What is said of a call that ended.
#[derive(Debug)]
pub enum CallReport {
    Nothing,
    /// The session failed.
    SessionEnded(String),
    /// The call failed; so many failures were passed over before.
    Failed { message: String, suppressed: u32 },
    /// The call failed; this is passed over.
    PassedOver(String),
}

/// Why a call failed; `None` where it did not.
pub open spec fn call_failure(end: CallEnd) -> Option<Seq<char>> {
    match end {
        CallEnd::Session(_) => None,
        CallEnd::NoSession(Ok(_)) => Some(
            "connection ended before SideWire handshake completed"@,
        ),
        CallEnd::NoSession(Err(message)) => Some(message@),
        CallEnd::NotReached(message) => Some(message@),
        CallEnd::TimedOut => Some("TCP connect timed out after 5s"@),
    }
}

fn failure(end: CallEnd) -> (r: Option<String>)
    ensures
        match r {
            Some(message) => call_failure(end) == Some(message@),
            None => call_failure(end) is None,
        },
{
    match end {
        CallEnd::Session(_) => None,
        CallEnd::NoSession(Ok(())) => Some(
            String::from_str("connection ended before SideWire handshake completed"),
        ),
        CallEnd::NoSession(Err(message)) => Some(message),
        CallEnd::NotReached(message) => Some(message),
        CallEnd::TimedOut => Some(String::from_str("TCP connect timed out after 5s")),
    }
}

/// One more, as far as can be counted.
pub open spec fn one_more(n: u32) -> u32 {
    if n == u32::MAX {
        u32::MAX
    } else {
        (n + 1) as u32
    }
}

impl Outbound {
    pub fn new() -> (r: Outbound)
        ensures
            r == (Outbound { delay: 1, grace: 0, told: None, suppressed: 0 }),
    {
        Outbound { delay: 1, grace: 0, told: None, suppressed: 0 }
    }

    /// Whether a failure at a time in nanoseconds is told: the first one, and then none until a
    /// whole interval has passed.
    pub open spec fn tells(self, now: u64) -> bool {
        match self.told {
            None => true,
            Some(last) => now - last >= OUTBOUND_FAILURE_LOG_INTERVAL_NANOS,
        }
    }

    /// The state after a call that did or did not lead to a session.
    pub open spec fn after_call(self, session: bool, now: u64) -> Outbound {
        if session {
            Outbound { delay: 1, told: None, suppressed: 0, ..self }
        } else if self.tells(now) {
            Outbound { told: Some(now), suppressed: 0, ..self }
        } else {
            Outbound { suppressed: one_more(self.suppressed), ..self }
        }
    }

    /// Accounts for a call that failed; tells whether that is to be said, and how many failures
    /// were passed over before.
    pub fn log_outbound_failure(&mut self, now: u64) -> (r: Option<u32>)
        ensures
            r == if old(self).tells(now) {
                Some(old(self).suppressed)
            } else {
                None
            },
            *final(self) == old(self).after_call(false, now),
    {
        let due = match self.told {
            None => true,
            Some(last) => now >= last && now - last >= OUTBOUND_FAILURE_LOG_INTERVAL_NANOS,
        };
        if due {
            let before = self.suppressed;
            self.told = Some(now);
            self.suppressed = 0;
            return Some(before);
        }
        if self.suppressed < u32::MAX {
            self.suppressed = self.suppressed + 1;
        }
        None
    }

    /// Accounts for a call that ended: a session makes up for all failures before it.
    pub fn ended(&mut self, end: CallEnd, now: u64) -> (r: CallReport)
        ensures
            *final(self) == old(self).after_call(end is Session, now),
            match end {
                CallEnd::Session(Ok(_)) => r is Nothing,
                CallEnd::Session(Err(message)) => r == CallReport::SessionEnded(message),
                _ => match r {
                    CallReport::Failed { message, suppressed } => old(self).tells(now)
                        && suppressed == old(self).suppressed && call_failure(end) == Some(
                        message@,
                    ),
                    CallReport::PassedOver(message) => !old(self).tells(now) && call_failure(end)
                        == Some(message@),
                    _ => false,
                },
            },
    {
        match end {
            CallEnd::Session(result) => {
                self.told = None;
                self.suppressed = 0;
                self.delay = 1;
                match result {
                    Ok(()) => CallReport::Nothing,
                    Err(message) => CallReport::SessionEnded(message),
                }
            },
            _ => match failure(end) {
                None => CallReport::Nothing,
                Some(message) => match self.log_outbound_failure(now) {
                    Some(suppressed) => CallReport::Failed { message, suppressed },
                    None => CallReport::PassedOver(message),
                },
            },
        }
    }

    /// The pause is over.
    pub fn waited(&mut self)
        ensures
            *final(self) == old(self).after_pause(),
    {
        self.delay = next_outbound_delay(self.delay, &mut self.grace);
    }

    pub open spec fn after_pause(self) -> Outbound {
        Outbound {
            delay: if self.grace > 0 {
                1
            } else {
                grown(self.delay as nat) as u64
            },
            grace: if self.grace > 0 {
                (self.grace - 1) as u8
            } else {
                0
            },
            ..self
        }
    }

    /// The device was paired meanwhile: it calls again at once, and then every second.
    pub fn paired(&mut self)
        ensures
            *final(self) == (Outbound { delay: 1, grace: PAIRING_GRACE, ..*old(self) }),
    {
        self.grace = PAIRING_GRACE;
        self.delay = 1;
    }
}

/// The state after some pauses, if every call fails.
pub open spec fn after_pauses(o: Outbound, n: nat) -> Outbound
    decreases n,
{
    if n == 0 {
        o
    } else {
        after_pauses(o, (n - 1) as nat).after_pause()
    }
}

/// A device that was just paired calls every second for sixty seconds, however often it fails.
pub proof fn lemma_paired_device_calls_every_second(o: Outbound, n: nat)
    requires
        o.delay == 1,
        o.grace == PAIRING_GRACE,
        n <= 60,
    ensures
        after_pauses(o, n).delay == 1,
        after_pauses(o, n).grace == 60 - n,
    decreases n,
{
    if n > 0 {
        lemma_paired_device_calls_every_second(o, (n - 1) as nat);
    }
}

/// Two to the power of a number.
pub open spec fn power_of_two(n: nat) -> nat
    decreases n,
{
    if n == 0 {
        1
    } else {
        2 * power_of_two((n - 1) as nat)
    }
}

/// Without grace, the pause doubles with each failure, up to half a minute.
pub proof fn lemma_pauses_double(o: Outbound, n: nat)
    requires
        o.delay == 1,
        o.grace == 0,
    ensures
        after_pauses(o, n).delay == if power_of_two(n) > 30 {
            30
        } else {
            power_of_two(n)
        },
        after_pauses(o, n).grace == 0,
    decreases n,
{
    if n > 0 {
        lemma_pauses_double(o, (n - 1) as nat);
    }
}

/// A call counts as failed unless it led to a session, however it ended, and then the reason is
/// the one that was given.
pub proof fn lemma_only_sessions_succeed(end: CallEnd)
    ensures
        call_failure(end) is None <==> end is Session,
        end matches CallEnd::NotReached(message) ==> call_failure(end) == Some(message@),
        end matches CallEnd::NoSession(Err(message)) ==> call_failure(end) == Some(message@),
{
}

/// The first failure is told, and after it none for half a minute; the next that is told says how
/// many were passed over. A session makes up for all failures: the next one is told again, and the
/// next call comes after a second.
pub proof fn lemma_failures_are_told_now_and_then(o: Outbound, now: u64, later: u64, n: nat)
    requires
        o.tells(now),
        now <= later,
        n <= u32::MAX,
    ensures
        ({
            let told = o.after_call(false, now);
            &&& told.told == Some(now)
            &&& told.suppressed == 0
            &&& told.tells(later) <==> later - now >= 30 * 1_000_000_000
            &&& later - now < 30 * 1_000_000_000 ==> failures_passed(told, later, n).suppressed == n
                && failures_passed(told, later, n).told == Some(now)
            &&& o.after_call(true, now).tells(later)
            &&& o.after_call(true, now).delay == 1
            &&& o.after_call(false, now).delay == o.delay
        }),
    decreases n,
{
    let told = o.after_call(false, now);
    if n > 0 {
        lemma_failures_are_told_now_and_then(o, now, later, (n - 1) as nat);
    }
}

/// The state after some failures at one time.
pub open spec fn failures_passed(o: Outbound, now: u64, n: nat) -> Outbound
    decreases n,
{
    if n == 0 {
        o
    } else {
        failures_passed(o, now, (n - 1) as nat).after_call(false, now)
    }
}

} // verus!
