//! The Noise session: handshake, sealing and opening of records.

use snow::{HandshakeState, TransportState};
use vstd::prelude::*;
use vstd::string::*;
use crate::frame;
use crate::record;
use crate::record::NOISE_CHUNK;
use crate::text;

verus! {

/// The Noise protocol of every session: ephemeral keys on both sides, bound to a shared key.
pub const NOISE_PATTERN: &'static str = "Noise_NNpsk0_25519_ChaChaPoly_BLAKE2s";

/// The longest message of the Noise protocol.
pub const NOISE_MESSAGE: usize = 65535;

/// The bytes that authenticate a sealed message.
pub const NOISE_TAG: usize = 16;

/// What a message of the handshake holds besides its payload: a public key and a tag.
pub const NOISE_OVERHEAD: usize = 48;

#[verifier::external_type_specification]
#[verifier::external_body]
pub struct ExHandshakeState(HandshakeState);

#[verifier::external_type_specification]
#[verifier::external_body]
pub struct ExTransportState(TransportState);

#[verifier::external_type_specification]
#[verifier::external_body]
pub struct ExSnowError(snow::Error);

/// What a handshake was begun with, and the messages that it has written and read so far, in
/// order: whether it is the initiator, the pattern, the shared key, the prologue, the messages.
pub uninterp spec fn handshake(state: HandshakeState) -> (
    bool,
    Seq<char>,
    Seq<u8>,
    Seq<u8>,
    Seq<Seq<u8>>,
);

/// The key and the next nonce of the cipher that seals what a session sends; `None` where the
/// pattern lets this side send nothing.
pub uninterp spec fn sending(state: TransportState) -> Option<(Seq<u8>, u64)>;

/// The key and the next nonce of the cipher that opens what a session receives; `None` where
/// the pattern lets this side receive nothing.
pub uninterp spec fn receiving(state: TransportState) -> Option<(Seq<u8>, u64)>;

/// The key that a finished handshake gives to one direction: from the initiator to the
/// responder, or back. It depends on the pattern, the shared key, the prologue and the messages
/// that went over the wire, and on nothing else.
pub uninterp spec fn session_key(
    pattern: Seq<char>,
    psk: Seq<u8>,
    prologue: Seq<u8>,
    messages: Seq<Seq<u8>>,
    from_initiator: bool,
) -> Seq<u8>;

/// A message sealed under a key and a nonce, with nothing but the message authenticated.
pub uninterp spec fn sealed(key: Seq<u8>, nonce: u64, plaintext: Seq<u8>) -> Seq<u8>;

/// `snow::Builder`, asked for the initiator of a handshake of this library's pattern with one shared
/// key in slot zero. It is not refused, was begun with these arguments and has seen no message.
#[verifier::external_body]
fn build_initiator(pattern: &str, psk: &[u8; 32], prologue: &[u8]) -> (r: Result<
    HandshakeState,
    snow::Error,
>)
    requires
        pattern@ == NOISE_PATTERN@,
    ensures
        r is Ok,
        r matches Ok(state) ==> handshake(state) == (
            true,
            pattern@,
            psk@,
            prologue@,
            Seq::<Seq<u8>>::empty(),
        ),
{
    let params: snow::params::NoiseParams = pattern.parse()?;
    snow::Builder::new(params).prologue(prologue).psk(0, psk).build_initiator()
}

/// `snow::Builder`, asked for the responder of a handshake of this library's pattern with one shared
/// key in slot zero. It is not refused, was begun with these arguments and has seen no message.
#[verifier::external_body]
fn build_responder(pattern: &str, psk: &[u8; 32], prologue: &[u8]) -> (r: Result<
    HandshakeState,
    snow::Error,
>)
    requires
        pattern@ == NOISE_PATTERN@,
    ensures
        r is Ok,
        r matches Ok(state) ==> handshake(state) == (
            false,
            pattern@,
            psk@,
            prologue@,
            Seq::<Seq<u8>>::empty(),
        ),
{
    let params: snow::params::NoiseParams = pattern.parse()?;
    snow::Builder::new(params).prologue(prologue).psk(0, psk).build_responder()
}

/// Whether the next message of the handshake of this library is this side's to write.
pub open spec fn writes_next(initiator: bool, seen: nat) -> bool {
    seen == if initiator {
        0nat
    } else {
        1
    }
}

/// Whether the next message of the handshake of this library is this side's to read.
pub open spec fn reads_next(initiator: bool, seen: nat) -> bool {
    seen == if initiator {
        1nat
    } else {
        0
    }
}

/// Whether some side of a handshake has gone through these messages.
pub open spec fn gone_through(
    initiator: bool,
    psk: Seq<u8>,
    prologue: Seq<u8>,
    messages: Seq<Seq<u8>>,
) -> bool {
    exists|side: HandshakeState| #[trigger]
        handshake(side) == (initiator, NOISE_PATTERN@, psk, prologue, messages)
}

/// `HandshakeState::write_message` puts a message into the buffer and returns its length. The
/// handshake has then seen that message, too; a refusal leaves what it has seen as it was.
/// In the pattern of this library each message holds a fresh public key and an authenticated
/// payload; it is refused out of turn, or where it exceeds the buffer or the protocol. The bytes
/// of the message rest on a fresh random key, so nothing is said of them. Other patterns are left
/// out, since a message with a static key may run over the buffer and panic; so are payloads that
/// no message holds, since the cipher panics on one of hundreds of gigabytes.
pub assume_specification[ HandshakeState::write_message ](
    state: &mut HandshakeState,
    payload: &[u8],
    message: &mut [u8],
) -> (r: Result<usize, snow::Error>)
    requires
        handshake(*old(state)).1 == NOISE_PATTERN@,
        payload@.len() <= NOISE_MESSAGE,
    ensures
        final(message)@.len() == old(message)@.len(),
        r is Ok <==> {
            &&& writes_next(handshake(*old(state)).0, handshake(*old(state)).4.len())
            &&& payload@.len() + NOISE_OVERHEAD <= old(message)@.len()
            &&& payload@.len() + NOISE_OVERHEAD <= NOISE_MESSAGE
        },
        r matches Ok(n) ==> n == payload@.len() + NOISE_OVERHEAD,
        handshake(*final(state)) == match r {
            Ok(n) => (
                handshake(*old(state)).0,
                handshake(*old(state)).1,
                handshake(*old(state)).2,
                handshake(*old(state)).3,
                handshake(*old(state)).4.push(final(message)@.take(n as int)),
            ),
            Err(_) => handshake(*old(state)),
        },
;

/// `HandshakeState::read_message` takes a message of the peer, or refuses it. The handshake has
/// then seen that message, too; a refusal leaves what it has seen as it was. In the pattern of
/// this library the message of a peer that was begun alike and has seen the same is taken, given
/// a buffer for the longest one. Which other messages are refused rests on random keys, so it is
/// not said.
pub assume_specification[ HandshakeState::read_message ](
    state: &mut HandshakeState,
    message: &[u8],
    payload: &mut [u8],
) -> (r: Result<usize, snow::Error>)
    ensures
        final(payload)@.len() == old(payload)@.len(),
        r matches Ok(n) ==> n <= old(payload)@.len(),
        ({
            let (initiator, pattern, psk, prologue, seen) = handshake(*old(state));
            pattern == NOISE_PATTERN@ && reads_next(initiator, seen.len()) && NOISE_MESSAGE
                <= old(payload)@.len() && gone_through(
                !initiator,
                psk,
                prologue,
                seen.push(message@),
            ) ==> r is Ok
        }),
        handshake(*final(state)) == match r {
            Ok(_) => (
                handshake(*old(state)).0,
                handshake(*old(state)).1,
                handshake(*old(state)).2,
                handshake(*old(state)).3,
                handshake(*old(state)).4.push(message@),
            ),
            Err(_) => handshake(*old(state)),
        },
;

/// `HandshakeState::into_transport_mode` turns a finished handshake into a session. Each
/// direction has its key and begins at nonce zero. Said of the pattern of this library, whose
/// handshake is finished after two messages.
pub assume_specification[ HandshakeState::into_transport_mode ](state: HandshakeState) -> (r:
    Result<TransportState, snow::Error>)
    ensures
        ({
            let (initiator, pattern, psk, prologue, messages) = handshake(state);
            pattern == NOISE_PATTERN@ ==> match r {
                Ok(session) => {
                    &&& messages.len() == 2
                    &&& sending(session) == Some(
                        (session_key(pattern, psk, prologue, messages, initiator), 0u64),
                    )
                    &&& receiving(session) == Some(
                        (session_key(pattern, psk, prologue, messages, !initiator), 0u64),
                    )
                },
                Err(_) => messages.len() != 2,
            }
        }),
;

/// `TransportState::write_message` seals a message under the sending key and the next nonce.
/// It refuses a message that is too long for the protocol or the buffer, and any message once
/// the nonces are used up.
pub assume_specification[ TransportState::write_message ](
    state: &mut TransportState,
    payload: &[u8],
    message: &mut [u8],
) -> (r: Result<usize, snow::Error>)
    ensures
        final(message)@.len() == old(message)@.len(),
        receiving(*final(state)) == receiving(*old(state)),
        r is Ok <==> {
            &&& sending(*old(state)) is Some
            &&& (sending(*old(state))->0).1 < u64::MAX
            &&& payload@.len() + NOISE_TAG <= NOISE_MESSAGE
            &&& payload@.len() + NOISE_TAG <= old(message)@.len()
        },
        match r {
            Ok(n) => {
                let (key, nonce) = sending(*old(state))->0;
                &&& n == payload@.len() + NOISE_TAG
                &&& final(message)@.take(n as int) == sealed(key, nonce, payload@)
                &&& sending(*final(state)) == Some((key, (nonce + 1) as u64))
            },
            Err(_) => sending(*final(state)) == sending(*old(state)),
        },
;

/// `TransportState::read_message` opens a message: it gives back the plaintext exactly when the
/// message is what sealing that plaintext under the receiving key and the next nonce makes.
pub assume_specification[ TransportState::read_message ](
    state: &mut TransportState,
    payload: &[u8],
    message: &mut [u8],
) -> (r: Result<usize, snow::Error>)
    ensures
        final(message)@.len() == old(message)@.len(),
        sending(*final(state)) == sending(*old(state)),
        match r {
            Ok(n) => {
                let (key, nonce) = receiving(*old(state))->0;
                &&& receiving(*old(state)) is Some
                &&& n <= old(message)@.len()
                &&& payload@.len() == n + NOISE_TAG
                &&& payload@ == sealed(key, nonce, final(message)@.take(n as int))
                &&& nonce < u64::MAX
                &&& receiving(*final(state)) == Some((key, (nonce + 1) as u64))
            },
            Err(_) => receiving(*final(state)) == receiving(*old(state)),
        },
        forall|plaintext: Seq<u8>|
            {
                &&& receiving(*old(state)) is Some
                &&& (receiving(*old(state))->0).1 < u64::MAX
                &&& payload@.len() <= NOISE_MESSAGE
                &&& plaintext.len() <= old(message)@.len()
                &&& payload@ == #[trigger] sealed(
                    (receiving(*old(state))->0).0,
                    (receiving(*old(state))->0).1,
                    plaintext,
                )
            } ==> r is Ok && final(message)@.take(r->Ok_0 as int) == plaintext,
;

/// Why a session could not be made or used.
#[derive(Debug)]
pub enum NoiseError {
    /// The Noise implementation refused.
    Refused(snow::Error),
    /// A record is longer than a frame's records ever are.
    RecordTooLarge(usize),
}

impl NoiseError {
    pub open spec fn text(self) -> Seq<char> {
        match self {
            NoiseError::Refused(_) => "Noise session refused"@,
            NoiseError::RecordTooLarge(n) => "Noise plaintext record too large: "@ + text::decimal(
                n as nat,
            ) + " bytes"@,
        }
    }

    pub fn message(&self) -> (r: String)
        ensures
            r@ == self.text(),
    {
        match self {
            NoiseError::Refused(_) => String::from_str("Noise session refused"),
            NoiseError::RecordTooLarge(n) => {
                let mut out = String::from_str("Noise plaintext record too large: ");
                out.append(text::decimal_string(*n as u64).as_str());
                out.append(" bytes");
                out
            },
        }
    }
}

/// A session at its beginning, made by one side of a handshake.
pub open spec fn established(
    session: TransportState,
    initiator: bool,
    psk: Seq<u8>,
    prologue: Seq<u8>,
    first: Seq<u8>,
    second: Seq<u8>,
) -> bool {
    let messages = seq![first, second];
    &&& sending(session) == Some(
        (session_key(NOISE_PATTERN@, psk, prologue, messages, initiator), 0u64),
    )
    &&& receiving(session) == Some(
        (session_key(NOISE_PATTERN@, psk, prologue, messages, !initiator), 0u64),
    )
}

/// What each side sends, the other opens.
pub open spec fn linked(a: TransportState, b: TransportState) -> bool {
    &&& sending(a) == receiving(b)
    &&& receiving(a) == sending(b)
}

/// The two sides of a handshake that shared key, prologue and both messages are linked.
pub proof fn lemma_handshake_links(
    initiator: TransportState,
    responder: TransportState,
    psk: Seq<u8>,
    prologue: Seq<u8>,
    first: Seq<u8>,
    second: Seq<u8>,
)
    requires
        established(initiator, true, psk, prologue, first, second),
        established(responder, false, psk, prologue, first, second),
    ensures
        linked(initiator, responder),
        linked(responder, initiator),
{
}

/// Begins a handshake: the state to go on with and the message for the responder. It does not
/// fail.
pub fn noise_initiator(psk: &[u8; 32], prologue: &[u8]) -> (r: Result<
    (HandshakeState, Vec<u8>),
    NoiseError,
>)
    ensures
        r matches Ok((state, first)) && handshake(state) == (
            true,
            NOISE_PATTERN@,
            psk@,
            prologue@,
            seq![first@],
        ) && first@.len() == NOISE_OVERHEAD && gone_through(true, psk@, prologue@, seq![first@]),
{
    match build_initiator(NOISE_PATTERN, psk, prologue) {
        Err(e) => Err(NoiseError::Refused(e)),
        Ok(mut state) => {
            let mut output: Vec<u8> = vec![0u8; NOISE_MESSAGE];
            let empty: Vec<u8> = Vec::new();
            match state.write_message(empty.as_slice(), output.as_mut_slice()) {
                Err(e) => Err(NoiseError::Refused(e)),
                Ok(written) => {
                    output.truncate(written);
                    assert(handshake(state).4 =~= seq![output@]);
                    Ok((state, output))
                },
            }
        },
    }
}

/// Ends a handshake with the responder's message. The message of a responder with the same shared
/// key and prologue, which answered this handshake, is taken.
pub fn noise_initiator_finish(state: HandshakeState, incoming: &[u8]) -> (r: Result<
    TransportState,
    NoiseError,
>)
    requires
        handshake(state).0,
        handshake(state).1 == NOISE_PATTERN@,
        handshake(state).4.len() == 1,
    ensures
        match r {
            Ok(session) => established(
                session,
                true,
                handshake(state).2,
                handshake(state).3,
                handshake(state).4[0],
                incoming@,
            ),
            Err(e) => e is Refused && !gone_through(
                false,
                handshake(state).2,
                handshake(state).3,
                seq![handshake(state).4[0], incoming@],
            ),
        },
{
    let ghost begun = state;
    let mut state = state;
    let mut output: Vec<u8> = vec![0u8; NOISE_MESSAGE];
    let ghost first = handshake(state).4[0];
    assert(handshake(begun).4.push(incoming@) =~= seq![first, incoming@]);
    match state.read_message(incoming, output.as_mut_slice()) {
        Err(e) => Err(NoiseError::Refused(e)),
        Ok(_) => {
            assert(handshake(state).4 =~= seq![first, incoming@]);
            match state.into_transport_mode() {
                Err(e) => Err(NoiseError::Refused(e)),
                Ok(session) => Ok(session),
            }
        },
    }
}

/// Answers a handshake: the session and the message for the initiator. The message of an initiator
/// with the same shared key and prologue is taken.
pub fn noise_responder(psk: &[u8; 32], prologue: &[u8], incoming: &[u8]) -> (r: Result<
    (TransportState, Vec<u8>),
    NoiseError,
>)
    ensures
        match r {
            Ok((session, second)) => established(
                session,
                false,
                psk@,
                prologue@,
                incoming@,
                second@,
            ) && second@.len() == NOISE_OVERHEAD && gone_through(
                false,
                psk@,
                prologue@,
                seq![incoming@, second@],
            ),
            Err(e) => e is Refused && !gone_through(true, psk@, prologue@, seq![incoming@]),
        },
{
    match build_responder(NOISE_PATTERN, psk, prologue) {
        Err(e) => Err(NoiseError::Refused(e)),
        Ok(mut state) => {
            let mut output: Vec<u8> = vec![0u8; NOISE_MESSAGE];
            assert(handshake(state).4.push(incoming@) =~= seq![incoming@]);
            match state.read_message(incoming, output.as_mut_slice()) {
                Err(e) => Err(NoiseError::Refused(e)),
                Ok(_) => {
                    let empty: Vec<u8> = Vec::new();
                    match state.write_message(empty.as_slice(), output.as_mut_slice()) {
                        Err(e) => Err(NoiseError::Refused(e)),
                        Ok(written) => {
                            output.truncate(written);
                            assert(handshake(state).4 =~= seq![incoming@, output@]);
                            match state.into_transport_mode() {
                                Err(e) => Err(NoiseError::Refused(e)),
                                Ok(session) => Ok((session, output)),
                            }
                        },
                    }
                },
            }
        },
    }
}

/// What sealing one record does to a session; `None` where nothing is sealed. That is so for a
/// record that is too long, and once the nonces are used up.
pub open spec fn seals(
    before: TransportState,
    after: TransportState,
    plaintext: Seq<u8>,
    encrypted: Option<Seq<u8>>,
) -> bool {
    &&& receiving(after) == receiving(before)
    &&& encrypted is Some <==> {
        &&& plaintext.len() <= NOISE_CHUNK + 1
        &&& sending(before) is Some
        &&& (sending(before)->0).1 < u64::MAX
    }
    &&& match encrypted {
        Some(b) => {
            let (key, nonce) = sending(before)->0;
            &&& b == sealed(key, nonce, plaintext)
            &&& b.len() == plaintext.len() + NOISE_TAG
            &&& sending(after) == Some((key, (nonce + 1) as u64))
        },
        None => sending(after) == sending(before),
    }
}

/// What opening one record does to a session; `None` where it is refused. The plaintext comes back
/// exactly when the record is that plaintext, sealed with the key and nonce that are expected next.
pub open spec fn opens(
    before: TransportState,
    after: TransportState,
    encrypted: Seq<u8>,
    plaintext: Option<Seq<u8>>,
) -> bool {
    &&& sending(after) == sending(before)
    &&& match plaintext {
        Some(b) => {
            let (key, nonce) = receiving(before)->0;
            &&& receiving(before) is Some
            &&& nonce < u64::MAX
            &&& encrypted == sealed(key, nonce, b)
            &&& receiving(after) == Some((key, (nonce + 1) as u64))
        },
        None => receiving(after) == receiving(before),
    }
    &&& forall|b: Seq<u8>|
        {
            &&& receiving(before) is Some
            &&& (receiving(before)->0).1 < u64::MAX
            &&& encrypted.len() <= NOISE_MESSAGE
            &&& b.len() <= encrypted.len()
            &&& encrypted == #[trigger] sealed(
                (receiving(before)->0).0,
                (receiving(before)->0).1,
                b,
            )
        } ==> plaintext == Some(b)
}

/// Seals one record.
pub fn seal_record(session: &mut TransportState, plaintext: &[u8]) -> (r: Result<
    Vec<u8>,
    NoiseError,
>)
    ensures
        seals(
            *old(session),
            *final(session),
            plaintext@,
            match r {
                Ok(encrypted) => Some(encrypted@),
                Err(_) => None,
            },
        ),
        match r {
            Ok(_) => true,
            Err(NoiseError::RecordTooLarge(n)) => plaintext@.len() > NOISE_CHUNK + 1 && n
                == plaintext@.len(),
            Err(NoiseError::Refused(_)) => plaintext@.len() <= NOISE_CHUNK + 1,
        },
{
    if plaintext.len() > NOISE_CHUNK + 1 {
        return Err(NoiseError::RecordTooLarge(plaintext.len()));
    }
    let mut output: Vec<u8> = vec![0u8; plaintext.len() + 32];
    match session.write_message(plaintext, output.as_mut_slice()) {
        Err(e) => Err(NoiseError::Refused(e)),
        Ok(written) => {
            output.truncate(written);
            Ok(output)
        },
    }
}

/// Opens one record.
pub fn open_record(session: &mut TransportState, encrypted: &[u8]) -> (r: Result<
    Vec<u8>,
    NoiseError,
>)
    ensures
        opens(
            *old(session),
            *final(session),
            encrypted@,
            match r {
                Ok(plaintext) => Some(plaintext@),
                Err(_) => None,
            },
        ),
        r matches Err(e) ==> e is Refused,
{
    let mut plaintext: Vec<u8> = vec![0u8; encrypted.len()];
    match session.read_message(encrypted, plaintext.as_mut_slice()) {
        Err(e) => Err(NoiseError::Refused(e)),
        Ok(written) => {
            plaintext.truncate(written);
            Ok(plaintext)
        },
    }
}

/// Whether records went from one session to another: each was sealed by the sender and what came
/// of it was opened by the receiver, one after the other. The lists of sessions hold their states
/// before, between and after the records.
pub open spec fn carried(
    senders: Seq<TransportState>,
    receivers: Seq<TransportState>,
    records: Seq<Seq<u8>>,
    encrypted: Seq<Option<Seq<u8>>>,
    opened: Seq<Option<Seq<u8>>>,
) -> bool {
    &&& senders.len() == records.len() + 1
    &&& receivers.len() == records.len() + 1
    &&& encrypted.len() == records.len()
    &&& opened.len() == records.len()
    &&& forall|i: int|
        0 <= i < records.len() ==> #[trigger] seals(
            senders[i],
            senders[i + 1],
            records[i],
            encrypted[i],
        )
    &&& forall|i: int|
        0 <= i < records.len() && encrypted[i] is Some ==> #[trigger] opens(
            receivers[i],
            receivers[i + 1],
            encrypted[i]->0,
            opened[i],
        )
}

proof fn lemma_records_cross(
    senders: Seq<TransportState>,
    receivers: Seq<TransportState>,
    records: Seq<Seq<u8>>,
    encrypted: Seq<Option<Seq<u8>>>,
    opened: Seq<Option<Seq<u8>>>,
    n: int,
)
    requires
        carried(senders, receivers, records, encrypted, opened),
        linked(senders[0], receivers[0]),
        sending(senders[0]) is Some,
        (sending(senders[0])->0).1 + records.len() <= u64::MAX,
        forall|i: int| 0 <= i < records.len() ==> (#[trigger] records[i]).len() <= NOISE_CHUNK + 1,
        0 <= n <= records.len(),
    ensures
        linked(senders[n], receivers[n]),
        sending(senders[n]) == Some(
            ((sending(senders[0])->0).0, ((sending(senders[0])->0).1 + n) as u64),
        ),
        forall|i: int|
            0 <= i < n ==> encrypted[i] is Some && (#[trigger] opened[i]) is Some && opened[i]->0
                == records[i],
    decreases n,
{
    if n > 0 {
        let i = n - 1;
        lemma_records_cross(senders, receivers, records, encrypted, opened, i);
        assert(seals(senders[i], senders[i + 1], records[i], encrypted[i]));
        assert(records[i].len() <= NOISE_CHUNK + 1);
        assert(encrypted[i] is Some);
        assert(opens(receivers[i], receivers[i + 1], encrypted[i]->0, opened[i]));
        let (key, nonce) = receiving(receivers[i])->0;
        assert(encrypted[i]->0 == sealed(key, nonce, records[i]));
        assert(opened[i] == Some(records[i]));
    }
}

/// A frame crosses a pair of linked sessions as it is, as long as there are nonces left: every
/// record of it is sealed and opened, the records that were opened give back exactly that frame,
/// with the last of them and not before, and the sessions stay linked for the next frame.
pub proof fn lemma_frame_crosses(
    sent: frame::FrameView,
    senders: Seq<TransportState>,
    receivers: Seq<TransportState>,
    encrypted: Seq<Option<Seq<u8>>>,
    opened: Seq<Option<Seq<u8>>>,
)
    requires
        sent.payload.len() <= frame::MAX_PAYLOAD,
        carried(senders, receivers, record::records(frame::encoded(sent)), encrypted, opened),
        linked(senders[0], receivers[0]),
        sending(senders[0]) is Some,
        (sending(senders[0])->0).1 + encrypted.len() <= u64::MAX,
    ensures
        forall|i: int| 0 <= i < encrypted.len() ==> (#[trigger] encrypted[i]) is Some,
        forall|i: int| 0 <= i < opened.len() ==> (#[trigger] opened[i]) is Some,
        record::assembled(
            Seq::empty(),
            opened.map_values(|plaintext: Option<Seq<u8>>| plaintext->0),
        ) == record::Fed::Done(frame::encoded(sent)),
        frame::decodes(frame::encoded(sent), sent),
        linked(senders.last(), receivers.last()),
        linked(receivers.last(), senders.last()),
        sending(senders.last()) == Some(
            ((sending(senders[0])->0).0, ((sending(senders[0])->0).1 + encrypted.len()) as u64),
        ),
{
    let records = record::records(frame::encoded(sent));
    assert forall|i: int| 0 <= i < records.len() implies (#[trigger] records[i]).len()
        <= NOISE_CHUNK + 1 by {
        record::lemma_record_len(frame::encoded(sent), i);
    }
    lemma_records_cross(
        senders,
        receivers,
        records,
        encrypted,
        opened,
        records.len() as int,
    );
    assert forall|i: int| 0 <= i < encrypted.len() implies (#[trigger] encrypted[i]) is Some by {
        assert(opened[i] == Some(records[i]));
    }
    assert(opened.map_values(|plaintext: Option<Seq<u8>>| plaintext->0) =~= records);
    record::lemma_records_reassemble(sent);
}

} // verus!
