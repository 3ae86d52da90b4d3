//! How a connection begins: which peers are let in, and what their session is bound to.

use vstd::prelude::*;
use vstd::string::*;
use vstd::utf8::*;
use crate::capabilities;
use crate::capabilities::{ALL, CORE};
use crate::device_id::DeviceId;
use crate::frame;
use crate::frame::{negotiated_version, protocol_compatible, protocol_label, FrameKind, VERSION};
use crate::messages::{PeerRole, SecurityDecision, SecurityMode};
use crate::security;
use crate::security::security_prologue;
use crate::text;

verus! {

/// Why a peer is not let in.
#[derive(Debug, Clone, Copy)]
pub enum SecurityFault {
    /// Its version has another major part.
    Protocol(u16),
    /// It is of the first mode, this side of the second.
    Mode(SecurityMode, SecurityMode),
    /// No secret is shared with it.
    NotPaired(DeviceId),
}

/// What a side calls its peer: a host that was called does not know yet that it is a device.
pub open spec fn peer_name(role: PeerRole, called: bool) -> Seq<char> {
    match role {
        PeerRole::Host => if called {
            "peer "@
        } else {
            "device "@
        },
        PeerRole::Device => "host "@,
    }
}

pub open spec fn own_name(role: PeerRole) -> Seq<char> {
    match role {
        PeerRole::Host => ", host "@,
        PeerRole::Device => ", device "@,
    }
}

impl SecurityFault {
    /// What is said of the fault by a host or a device that was called or that called.
    pub open spec fn text(self, role: PeerRole, called: bool) -> Seq<char> {
        match self {
            SecurityFault::Protocol(theirs) => "protocol mismatch: "@ + peer_name(role, called)
                + frame::label(theirs) + own_name(role) + frame::label(VERSION),
            SecurityFault::Mode(theirs, ours) => {
                let clash = "security mode mismatch: "@ + peer_name(role, called) + theirs.name()
                    + own_name(role) + ours.name();
                if called {
                    clash
                } else {
                    clash + "; both sides must explicitly use the same mode"@
                }
            },
            SecurityFault::NotPaired(id) => match role {
                PeerRole::Host => "device "@ + id.hex().take(8)
                    + " is not paired; run sidewire pair first"@,
                PeerRole::Device => "host "@ + id.hex().take(8) + " is not paired"@,
            },
        }
    }

    pub fn message(self, role: PeerRole, called: bool) -> (r: String)
        ensures
            r@ == self.text(role, called),
    {
        let peer = match role {
            PeerRole::Host => if called {
                "peer "
            } else {
                "device "
            },
            PeerRole::Device => "host ",
        };
        let own = match role {
            PeerRole::Host => ", host ",
            PeerRole::Device => ", device ",
        };
        match self {
            SecurityFault::Protocol(theirs) => {
                let mut out = text::cat4(
                    "protocol mismatch: ",
                    peer,
                    protocol_label(theirs).as_str(),
                    own,
                );
                out.append(protocol_label(VERSION).as_str());
                out
            },
            SecurityFault::Mode(theirs, ours) => {
                let mut out = text::cat4("security mode mismatch: ", peer, theirs.as_str(), own);
                out.append(ours.as_str());
                if !called {
                    out.append("; both sides must explicitly use the same mode");
                }
                out
            },
            SecurityFault::NotPaired(id) => match role {
                PeerRole::Host => text::cat3(
                    "device ",
                    id.short().as_str(),
                    " is not paired; run sidewire pair first",
                ),
                PeerRole::Device => text::cat3("host ", id.short().as_str(), " is not paired"),
            },
        }
    }
}

/// What speaks against a peer before its secret is looked up.
pub open spec fn peer_fault(
    version: u16,
    theirs: SecurityMode,
    ours: SecurityMode,
) -> Option<SecurityFault> {
    if !frame::compatible(version) {
        Some(SecurityFault::Protocol(version))
    } else if theirs != ours {
        Some(SecurityFault::Mode(theirs, ours))
    } else {
        None
    }
}

/// Whether a peer may be let in, before its secret is looked up.
pub fn check_peer(version: u16, theirs: SecurityMode, ours: SecurityMode) -> (r: Result<
    (),
    SecurityFault,
>)
    ensures
        r == match peer_fault(version, theirs, ours) {
            Some(fault) => Err::<(), SecurityFault>(fault),
            None => Ok(()),
        },
{
    if !protocol_compatible(version) {
        return Err(SecurityFault::Protocol(version));
    }
    if theirs != ours {
        return Err(SecurityFault::Mode(theirs, ours));
    }
    Ok(())
}

/// What a session with a peer that was let in is made of.
pub struct Admission {
    /// The secret that both share; none in insecure mode.
    pub secret: Option<[u8; 32]>,
    /// What an encrypted session is bound to.
    pub prologue: Vec<u8>,
}

/// What a session with a peer is made of, or why it is not let in: a secure side takes only peers
/// that it shares a secret with, an insecure side encrypts nothing.
pub open spec fn admitted(
    ours: SecurityMode,
    theirs: SecurityMode,
    version: u16,
    peer: DeviceId,
    secret: Option<[u8; 32]>,
    initiator: DeviceId,
    responder: DeviceId,
) -> Result<(Option<[u8; 32]>, Seq<u8>), SecurityFault> {
    match peer_fault(version, theirs, ours) {
        Some(fault) => Err(fault),
        None => if ours == SecurityMode::Secure && secret is None {
            Err(SecurityFault::NotPaired(peer))
        } else {
            Ok(
                (
                    if ours == SecurityMode::Secure {
                        secret
                    } else {
                        None
                    },
                    encode_utf8(
                        security::prologue_text(
                            frame::negotiated(version)->0,
                            initiator,
                            responder,
                        ),
                    ),
                ),
            )
        },
    }
}

/// Lets a peer in.
pub fn let_in(
    ours: SecurityMode,
    theirs: SecurityMode,
    version: u16,
    peer: DeviceId,
    secret: Option<[u8; 32]>,
    initiator: DeviceId,
    responder: DeviceId,
) -> (r: Result<Admission, SecurityFault>)
    ensures
        match r {
            Ok(admission) => admitted(ours, theirs, version, peer, secret, initiator, responder)
                == Ok::<(Option<[u8; 32]>, Seq<u8>), SecurityFault>(
                (admission.secret, admission.prologue@),
            ),
            Err(fault) => admitted(ours, theirs, version, peer, secret, initiator, responder)
                == Err::<(Option<[u8; 32]>, Seq<u8>), SecurityFault>(fault),
        },
{
    match check_peer(version, theirs, ours) {
        Err(fault) => {
            return Err(fault);
        },
        Ok(()) => {},
    }
    let kept = match ours {
        SecurityMode::Secure => {
            if secret.is_none() {
                return Err(SecurityFault::NotPaired(peer));
            }
            secret
        },
        SecurityMode::Insecure => None,
    };
    let agreed: u16 = match negotiated_version(version) {
        Some(v) => v,
        None => VERSION,
    };
    Ok(Admission { secret: kept, prologue: security_prologue(agreed, initiator, responder) })
}

/// Whether a peer that called is told so.
pub open spec fn is_decision(refusal: Option<String>, r: SecurityDecision) -> bool {
    match refusal {
        None => r.accepted && r.message@ == "ok"@,
        Some(message) => !r.accepted && r.message == message,
    }
}

/// What an answer comes to for the side that called.
pub open spec fn answered(answer: SecurityDecision) -> Result<(), String> {
    if answer.accepted {
        Ok(())
    } else {
        Err(answer.message)
    }
}

/// What a peer that called is told.
pub fn decision(refusal: Option<String>) -> (r: SecurityDecision)
    ensures
        is_decision(refusal, r),
{
    match refusal {
        None => SecurityDecision { accepted: true, message: String::from_str("ok") },
        Some(message) => SecurityDecision { accepted: false, message },
    }
}

/// What a side that called makes of the answer.
pub fn check_decision(answer: SecurityDecision) -> (r: Result<(), String>)
    ensures
        r == answered(answer),
{
    if answer.accepted {
        Ok(())
    } else {
        Err(answer.message)
    }
}

/// A secure side never falls back to plaintext, nor an insecure one to encryption: a peer of the
/// other mode is refused, whatever its version.
pub proof fn lemma_mode_mismatch_is_refused(version: u16, theirs: SecurityMode, ours: SecurityMode)
    requires
        theirs != ours,
    ensures
        peer_fault(version, theirs, ours) is Some,
{
}

/// Two sides of this version that hold the same secret, or none, decide alike about each other:
/// either both are let in, with the same secret and the same prologue, or neither is.
pub proof fn lemma_both_sides_agree(
    caller_mode: SecurityMode,
    called_mode: SecurityMode,
    secret: Option<[u8; 32]>,
    caller: DeviceId,
    called: DeviceId,
)
    ensures
        ({
            let by_caller = admitted(
                caller_mode,
                called_mode,
                VERSION,
                called,
                secret,
                caller,
                called,
            );
            let by_called = admitted(
                called_mode,
                caller_mode,
                VERSION,
                caller,
                secret,
                caller,
                called,
            );
            &&& by_caller is Ok <==> by_called is Ok
            &&& by_caller is Ok ==> by_caller == by_called
            &&& by_caller is Ok <==> caller_mode == called_mode && (caller_mode
                == SecurityMode::Secure ==> secret is Some)
        }),
{
}

/// Why a host does not take a device that greeted or answered.
#[derive(Debug, Clone, Copy, PartialEq, Eq, Structural)]
pub enum GreetingFault {
    Expected(bool),
    Incompatible,
    NoCore,
    NoId(bool),
    IdChanged,
    EmptyName,
}

impl GreetingFault {
    pub open spec fn text(self) -> Seq<char> {
        match self {
            GreetingFault::Expected(hello) => if hello {
                "expected device Hello"@
            } else {
                "expected device HelloAck"@
            },
            GreetingFault::Incompatible => "device protocol major is incompatible"@,
            GreetingFault::NoCore => "device does not advertise the core capability"@,
            GreetingFault::NoId(hello) => if hello {
                "device Hello did not include device_id"@
            } else {
                "device HelloAck did not include device_id"@
            },
            GreetingFault::IdChanged => "device identity changed after security handshake"@,
            GreetingFault::EmptyName => "device returned an empty name"@,
        }
    }

    pub fn message(self) -> (r: String)
        ensures
            r@ == self.text(),
    {
        match self {
            GreetingFault::Expected(hello) => if hello {
                String::from_str("expected device Hello")
            } else {
                String::from_str("expected device HelloAck")
            },
            GreetingFault::Incompatible => String::from_str(
                "device protocol major is incompatible",
            ),
            GreetingFault::NoCore => String::from_str(
                "device does not advertise the core capability",
            ),
            GreetingFault::NoId(hello) => if hello {
                String::from_str("device Hello did not include device_id")
            } else {
                String::from_str("device HelloAck did not include device_id")
            },
            GreetingFault::IdChanged => String::from_str(
                "device identity changed after security handshake",
            ),
            GreetingFault::EmptyName => String::from_str("device returned an empty name"),
        }
    }
}

/// What a host makes of the first frame of a device.
pub open spec fn first_of_device(kind: FrameKind, device_called: bool) -> Result<
    (),
    GreetingFault,
> {
    if kind == (if device_called {
        FrameKind::Hello
    } else {
        FrameKind::HelloAck
    }) {
        Ok(())
    } else {
        Err(GreetingFault::Expected(device_called))
    }
}

/// The first frame of a device: a greeting from one that called, an answer from one that was
/// called.
pub fn check_device_frame(kind: FrameKind, device_called: bool) -> (r: Result<(), GreetingFault>)
    ensures
        r == first_of_device(kind, device_called),
{
    let expected = if device_called {
        FrameKind::Hello
    } else {
        FrameKind::HelloAck
    };
    if kind != expected {
        return Err(GreetingFault::Expected(device_called));
    }
    Ok(())
}

/// What a host has to say against a device that greeted or answered, the first thing first.
pub open spec fn greeting_fault(
    device_called: bool,
    version: u16,
    offered: u64,
    id: Option<DeviceId>,
    secured: DeviceId,
    name: Seq<char>,
) -> Option<GreetingFault> {
    if !frame::compatible(version) {
        Some(GreetingFault::Incompatible)
    } else if !capabilities::has(offered & ALL, CORE) {
        Some(GreetingFault::NoCore)
    } else if id is None {
        Some(GreetingFault::NoId(device_called))
    } else if (id->0).0@ != secured.0@ {
        Some(GreetingFault::IdChanged)
    } else if !device_called && text::trim(name).len() == 0 {
        Some(GreetingFault::EmptyName)
    } else {
        None
    }
}

/// What a host makes of a device: its capabilities that this host knows, and the version to speak.
pub open spec fn greeted(
    device_called: bool,
    version: u16,
    offered: u64,
    id: Option<DeviceId>,
    secured: DeviceId,
    name: Seq<char>,
) -> Result<(u64, u16), GreetingFault> {
    match greeting_fault(device_called, version, offered, id, secured, name) {
        Some(fault) => Err(fault),
        None => Ok((offered & ALL, frame::negotiated(version)->0)),
    }
}

/// Takes a device: its capabilities that this host knows, and the version to speak.
pub fn check_device(
    device_called: bool,
    version: u16,
    offered: u64,
    id: Option<DeviceId>,
    secured: DeviceId,
    name: &str,
) -> (r: Result<(u64, u16), GreetingFault>)
    ensures
        r == greeted(device_called, version, offered, id, secured, name@),
{
    let agreed: u16 = match negotiated_version(version) {
        None => {
            return Err(GreetingFault::Incompatible);
        },
        Some(v) => v,
    };
    let known: u64 = offered & ALL;
    if known & CORE == 0 {
        return Err(GreetingFault::NoCore);
    }
    match id {
        None => {
            return Err(GreetingFault::NoId(device_called));
        },
        Some(id) => {
            if id != secured {
                return Err(GreetingFault::IdChanged);
            }
        },
    }
    if !device_called {
        let chars = text::chars_of(name);
        if text::trimmed(chars.as_slice()).len() == 0 {
            return Err(GreetingFault::EmptyName);
        }
    }
    Ok((known, agreed))
}

/// Whether a text has a character that is not white space.
pub open spec fn visible(name: Seq<char>) -> bool {
    exists|i: int| 0 <= i < name.len() && !text::is_space(#[trigger] name[i])
}

/// A device is taken if and only if its version has this major part, it can do the core, it
/// repeats the identity that it has proved, and, if it was called, has a name that can be seen.
/// What the host then counts on are the capabilities that both know, and the version to speak is
/// one that both know: the lower of the two.
pub proof fn lemma_device_is_taken(
    device_called: bool,
    version: u16,
    offered: u64,
    id: Option<DeviceId>,
    secured: DeviceId,
    name: Seq<char>,
)
    ensures
        greeted(device_called, version, offered, id, secured, name) is Ok <==> {
            &&& version / 256 == VERSION / 256
            &&& offered % 2 == 1
            &&& id == Some(secured)
            &&& device_called || visible(name)
        },
        greeted(device_called, version, offered, id, secured, name) matches Ok((known, agreed))
            ==> {
            &&& known < 128
            &&& forall|bit: u64| bit < 128 ==> #[trigger] (known & bit) == offered & bit
            &&& agreed <= version && agreed <= VERSION
            &&& agreed == version || agreed == VERSION
        },
{
    assert((offered & 127u64) & 1u64 != 0 <==> offered % 2 == 1) by (bit_vector);
    assert(offered & 127u64 < 128) by (bit_vector);
    assert forall|bit: u64| bit < 128 implies #[trigger] ((offered & ALL) & bit) == offered
        & bit by {
        assert(bit < 128 ==> (offered & 127u64) & bit == offered & bit) by (bit_vector);
    }
    text::lemma_trim_blank(name);
    if visible(name) {
        let i = choose|i: int| 0 <= i < name.len() && !text::is_space(#[trigger] name[i]);
        assert(!text::is_space(name[i]));
    }
    if text::trim(name).len() > 0 {
        let i = choose|i: int| 0 <= i < name.len() && !text::is_space(name[i]);
        assert(!text::is_space(name[i]));
    }
    if id is Some && (id->0).0@ == secured.0@ {
        assert((id->0).0 =~= secured.0);
        assert(id->0 == secured);
    }
}

/// What is said against a device that is not taken is true of it: another major part, no core,
/// no identity, another identity, or a blank name of a device that was called.
pub proof fn lemma_refusal_has_its_reason(
    device_called: bool,
    version: u16,
    offered: u64,
    id: Option<DeviceId>,
    secured: DeviceId,
    name: Seq<char>,
)
    ensures
        greeted(device_called, version, offered, id, secured, name) matches Err(fault) ==> match fault {
            GreetingFault::Incompatible => version / 256 != VERSION / 256,
            GreetingFault::NoCore => offered % 2 == 0,
            GreetingFault::NoId(hello) => hello == device_called && id is None,
            GreetingFault::IdChanged => id is Some && id != Some(secured),
            GreetingFault::EmptyName => !device_called && !visible(name),
            GreetingFault::Expected(_) => false,
        },
{
    assert((offered & 127u64) & 1u64 != 0 <==> offered % 2 == 1) by (bit_vector);
    text::lemma_trim_blank(name);
    if visible(name) {
        let i = choose|i: int| 0 <= i < name.len() && !text::is_space(#[trigger] name[i]);
        assert(!text::is_space(name[i]));
    }
}

/// A side that called goes on exactly if the other side let it in, and is otherwise told why not,
/// in the words of that side.
pub proof fn lemma_refusal_is_told(refusal: Option<String>, told: SecurityDecision)
    requires
        is_decision(refusal, told),
    ensures
        answered(told) is Ok <==> refusal is None,
        refusal matches Some(message) ==> answered(told) == Err::<(), String>(message),
{
}

/// A peer is let in exactly if its version has the major part of this side, both sides are in the
/// same mode, and a secure side shares a secret with it. In insecure mode no secret is used, and
/// of the things that speak against a peer the version is told first.
pub proof fn lemma_peer_is_let_in(
    ours: SecurityMode,
    theirs: SecurityMode,
    version: u16,
    peer: DeviceId,
    secret: Option<[u8; 32]>,
    initiator: DeviceId,
    responder: DeviceId,
)
    ensures
        ({
            let r = admitted(ours, theirs, version, peer, secret, initiator, responder);
            &&& r is Ok <==> version / 256 == VERSION / 256 && theirs == ours && (ours
                == SecurityMode::Secure ==> secret is Some)
            &&& ours == SecurityMode::Insecure ==> (r matches Ok((kept, _)) ==> kept is None)
            &&& ours == SecurityMode::Secure ==> (r matches Ok((kept, _)) ==> kept == secret)
            &&& version / 256 != VERSION / 256 ==> r == Err::<
                (Option<[u8; 32]>, Seq<u8>),
                SecurityFault,
            >(SecurityFault::Protocol(version))
            &&& version / 256 == VERSION / 256 && theirs == ours && r is Err ==> r == Err::<
                (Option<[u8; 32]>, Seq<u8>),
                SecurityFault,
            >(SecurityFault::NotPaired(peer))
        }),
{
    frame::lemma_version_has_two_parts(version);
}

} // verus!
