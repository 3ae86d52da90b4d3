//! Where a device takes hosts that want to pair: whom it listens to, and what it does when an
//! attempt has ended.

use vstd::prelude::*;
use vstd::string::*;
use crate::pairing;
use crate::pairing::{PairingGuard, PeerAddr, MAX_PAIRING_CONNECTIONS};

verus! {

/// How long a failed attempt keeps its place, in milliseconds.
pub const FAILURE_PAUSE_MILLIS: u64 = 300;

/// The attempts to pair that are under way, and what guards the PIN.
pub struct PairingDesk {
    pub guard: PairingGuard,
    pub active: usize,
}

/// What becomes of a host that wants to pair.
#[derive(Debug, Clone, Copy, PartialEq, Eq, Structural)]
pub enum Arrival {
    /// Its address has tried too often.
    RateLimited,
    /// Too many are pairing already.
    Busy,
    Accepted,
}

/// How an attempt ended.
#[derive(Debug, Clone, Copy, PartialEq, Eq, Structural)]
pub enum PairEnd {
    Paired,
    Failed,
    TimedOut,
}

/// What is done then.
#[derive(Debug, Clone, Copy, PartialEq, Eq, Structural)]
pub struct AfterPair {
    /// The device calls its host again at once.
    pub reconnect: bool,
    /// The PIN is withdrawn: it was tried too often.
    pub withdraw_pin: bool,
    /// The attempt keeps its place for a while.
    pub pause: bool,
}

/// What becomes of a host whose address may or may not try again, while so many are pairing.
pub open spec fn arrival(allowed: bool, active: usize) -> Arrival {
    if !allowed {
        Arrival::RateLimited
    } else if active >= MAX_PAIRING_CONNECTIONS {
        Arrival::Busy
    } else {
        Arrival::Accepted
    }
}

/// A host is taken while fewer than four are pairing and its address has tried fewer than five
/// times within a minute, and only then; one that waits for a minute is never limited.
pub proof fn lemma_host_may_pair(attempts: Seq<u64>, now: u64, active: usize)
    requires
        forall|i: int, j: int|
            0 <= i <= j < attempts.len() ==> #[trigger] attempts[i] <= #[trigger] attempts[j],
    ensures
        attempts.len() < 5 ==> arrival(pairing::attempted(attempts, now).0, active) == if active < 4 {
            Arrival::Accepted
        } else {
            Arrival::Busy
        },
        attempts.len() >= 5 && now - attempts[attempts.len() - 5] <= 60_000_000_000 ==> arrival(
            pairing::attempted(attempts, now).0,
            active,
        ) == Arrival::RateLimited,
        attempts.len() == 0 || now - attempts[attempts.len() - 1] > 60_000_000_000
            ==> pairing::attempted(attempts, now) == (true, seq![now]),
{
    pairing::lemma_recent_by_age(attempts, now);
}

/// What is done when an attempt has ended, after so many failures against a PIN and while one
/// is offered.
pub open spec fn after_pair(
    end: PairEnd,
    current: Option<Seq<char>>,
    failures: u8,
    offered: Option<Seq<char>>,
) -> AfterPair {
    AfterPair {
        reconnect: end == PairEnd::Paired,
        withdraw_pin: end != PairEnd::Paired && (offered matches Some(pin) && pairing::withdraws(
            pairing::failures_after(current, failures, pin),
        )),
        pause: end == PairEnd::Failed,
    }
}

impl PairingDesk {
    /// Never too many attempts at a time.
    pub open spec fn wf(&self) -> bool {
        self.guard.wf() && self.active <= MAX_PAIRING_CONNECTIONS
    }

    pub fn new() -> (r: PairingDesk)
        ensures
            r.wf(),
            r.active == 0,
            forall|ip: PeerAddr| #[trigger] r.guard.attempts(ip) == Seq::<u64>::empty(),
            r.guard.current_pin is None,
            r.guard.failures == 0,
    {
        PairingDesk { guard: PairingGuard::new(), active: 0 }
    }

    /// Takes a host that wants to pair. It counts as an attempt of its address even where too
    /// many are pairing already.
    pub fn arrives(&mut self, ip: PeerAddr, now: u64) -> (r: Arrival)
        requires
            old(self).wf(),
        ensures
            final(self).wf(),
            ({
                let (allowed, attempts) = pairing::attempted(old(self).guard.attempts(ip), now);
                &&& final(self).guard.attempts(ip) == attempts
                &&& r == arrival(allowed, old(self).active)
            }),
            forall|other: PeerAddr|
                other != ip ==> #[trigger] final(self).guard.attempts(other) == old(self).guard.attempts(other),
            final(self).guard.current_pin == old(self).guard.current_pin,
            final(self).guard.failures == old(self).guard.failures,
            final(self).active == old(self).active + if r == Arrival::Accepted {
                1int
            } else {
                0
            },
    {
        if !self.guard.allow_ip(ip, now) {
            return Arrival::RateLimited;
        }
        if self.active >= MAX_PAIRING_CONNECTIONS {
            return Arrival::Busy;
        }
        self.active = self.active + 1;
        Arrival::Accepted
    }

    /// Accounts for an attempt that ended; `offered` is the PIN that is valid now, if one is.
    pub fn ended(&mut self, end: PairEnd, offered: Option<String>) -> (r: AfterPair)
        requires
            old(self).wf(),
        ensures
            final(self).wf(),
            final(self).active == old(self).active,
            final(self).guard.per_ip@ == old(self).guard.per_ip@,
            r == after_pair(
                end,
                match old(self).guard.current_pin {
                    Some(p) => Some(p@),
                    None => None,
                },
                old(self).guard.failures,
                match offered {
                    Some(p) => Some(p@),
                    None => None,
                },
            ),
            match end {
                PairEnd::Paired => final(self).guard.current_pin is None
                    && final(self).guard.failures == 0,
                _ => match offered {
                    None => final(self).guard.current_pin == old(self).guard.current_pin && final(self).guard.failures == old(self).guard.failures,
                    Some(pin) => {
                        let counted = pairing::failures_after(
                            match old(self).guard.current_pin {
                                Some(p) => Some(p@),
                                None => None,
                            },
                            old(self).guard.failures,
                            pin@,
                        );
                        &&& final(self).guard.failures == if r.withdraw_pin {
                            0
                        } else {
                            counted
                        }
                        &&& r.withdraw_pin ==> final(self).guard.current_pin is None
                        &&& !r.withdraw_pin ==> (final(self).guard.current_pin matches Some(p)
                            && p@ == pin@)
                    },
                },
            },
    {
        match end {
            PairEnd::Paired => {
                self.guard.clear_success();
                AfterPair { reconnect: true, withdraw_pin: false, pause: false }
            },
            _ => {
                let withdraw_pin = self.guard.record_failure(offered);
                AfterPair { reconnect: false, withdraw_pin, pause: end == PairEnd::Failed }
            },
        }
    }

    /// An attempt gives its place up.
    pub fn leaves(&mut self)
        requires
            old(self).wf(),
            old(self).active > 0,
        ensures
            final(self).wf(),
            final(self).active == old(self).active - 1,
            final(self).guard == old(self).guard,
    {
        self.active = self.active - 1;
    }
}

/// The PIN that is offered after an attempt with a PIN came to its commit: a commit succeeds
/// only with the PIN that is offered, and withdraws it.
pub open spec fn offered_after(offered: Option<Seq<char>>, pin: Seq<char>) -> Option<Seq<char>> {
    if offered == Some(pin) {
        None
    } else {
        offered
    }
}

/// The PIN that is offered after some attempts came to their commits, one after the other.
pub open spec fn offered_after_all(offered: Option<Seq<char>>, pins: Seq<Seq<char>>) -> Option<
    Seq<char>,
>
    decreases pins.len(),
{
    if pins.len() == 0 {
        offered
    } else {
        offered_after(offered_after_all(offered, pins.drop_last()), pins.last())
    }
}

/// How many of some attempts commit.
pub open spec fn commits(offered: Option<Seq<char>>, pins: Seq<Seq<char>>) -> nat
    decreases pins.len(),
{
    if pins.len() == 0 {
        0
    } else {
        commits(offered, pins.drop_last()) + if offered_after_all(offered, pins.drop_last())
            == Some(pins.last()) {
            1nat
        } else {
            0
        }
    }
}

/// A PIN is good for one pairing: however many attempts run at a time, at most one of them
/// commits, and none does once the PIN is withdrawn.
pub proof fn lemma_pin_is_single_use(offered: Option<Seq<char>>, pins: Seq<Seq<char>>)
    ensures
        commits(offered, pins) <= 1,
        commits(offered, pins) == 1 ==> offered_after_all(offered, pins) is None,
        commits(offered, pins) == 0 ==> offered_after_all(offered, pins) == offered,
        offered is None ==> commits(offered, pins) == 0,
    decreases pins.len(),
{
    if pins.len() > 0 {
        lemma_pin_is_single_use(offered, pins.drop_last());
    }
}

/// A device that was paired calls its host at once, and only then; its PIN is not withdrawn for
/// having been tried. An attempt that failed or took too long counts against the PIN: the fifth
/// withdraws it. A failure keeps its place for a while, a timeout has kept it long enough.
pub proof fn lemma_failed_attempts_count(
    end: PairEnd,
    pin: Seq<char>,
    before: u8,
    offered: Option<Seq<char>>,
)
    ensures
        after_pair(end, Some(pin), before, offered).reconnect <==> end == PairEnd::Paired,
        after_pair(end, Some(pin), before, offered).pause ==> end != PairEnd::Paired,
        after_pair(PairEnd::Failed, Some(pin), before, offered).pause,
        !after_pair(PairEnd::TimedOut, Some(pin), before, offered).pause,
        !after_pair(PairEnd::Paired, Some(pin), before, offered).withdraw_pin,
        !after_pair(end, Some(pin), before, None).withdraw_pin,
        end != PairEnd::Paired ==> (after_pair(end, Some(pin), before, Some(pin)).withdraw_pin
            <==> before >= 4),
        !after_pair(end, None, before, Some(pin)).withdraw_pin,
{
}

} // verus!
