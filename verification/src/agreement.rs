//! What the two ends of a connection rely on of each other: what one of them sends, the other
//! takes, and both come to the same.

use vstd::prelude::*;
use crate::capabilities;
use crate::client;
use crate::connector;
use crate::control;
use crate::device;
use crate::device_id::DeviceId;
use crate::frame;
use crate::frame::FrameKind;
use crate::handshake;
use crate::handlers;
use crate::messages::{ProxyTokenMode, SecurityMode};
use crate::mux;
use crate::registry;
use crate::remote;
use crate::serve;
use crate::streams;

verus! {

/// On a connection each side expects exactly one kind of first frame. Whoever was called expects a
/// greeting, whoever called expects the answer to one, and the two are not the same.
pub proof fn lemma_greetings_meet(device_called: bool, kind: FrameKind, other: FrameKind)
    ensures
        handshake::first_of_device(kind, device_called) is Ok && handshake::first_of_device(
            other,
            device_called,
        ) is Ok ==> kind == other,
        serve::first_of_host(kind, !device_called) is Ok && serve::first_of_host(
            other,
            !device_called,
        ) is Ok ==> kind == other,
        handshake::first_of_device(kind, device_called) is Ok ==> serve::first_of_host(
            kind,
            !device_called,
        ) is Err,
        handshake::first_of_device(kind, device_called) is Ok <==> serve::first_of_host(
            kind,
            device_called,
        ) is Ok,
        handshake::first_of_device(FrameKind::Hello, true) is Ok,
        handshake::first_of_device(FrameKind::HelloAck, false) is Ok,
{
}

/// A host and a device of one major version that both can do the core take each other, and speak
/// the same version: each takes the other if and only if the other takes it.
pub proof fn lemma_host_and_device_take_each_other(
    device_called: bool,
    offered: u64,
    host_offers: u64,
    id: DeviceId,
    name: Seq<char>,
)
    requires
        device_called || handshake::visible(name),
        offered % 2 == 1,
        host_offers % 2 == 1,
    ensures
        handshake::greeted(device_called, frame::VERSION, offered, Some(id), id, name) matches Ok(
            (known, agreed),
        ) && serve::host_taken(frame::VERSION, host_offers) == Ok::<u16, serve::ServeError>(agreed)
            && agreed == frame::VERSION,
{
    handshake::lemma_device_is_taken(
        device_called,
        frame::VERSION,
        offered,
        Some(id),
        id,
        name,
    );
    assert(host_offers & 1u64 != 0 <==> host_offers % 2 == 1) by (bit_vector);
}

/// A device takes a host if and only if the host's version has this major part and it can do the
/// core; the version to speak is then the lower of the two, which is what the host comes to.
pub proof fn lemma_host_is_taken(version: u16, host_offers: u64)
    ensures
        serve::host_taken(version, host_offers) is Ok <==> version / 256 == frame::VERSION / 256
            && host_offers % 2 == 1,
        serve::host_taken(version, host_offers) matches Ok(agreed) ==> {
            &&& agreed <= version && agreed <= frame::VERSION
            &&& agreed == version || agreed == frame::VERSION
            &&& Some(agreed) == frame::agreed(version, frame::VERSION)
        },
        serve::host_taken(version, host_offers) == Err::<u16, serve::ServeError>(
            serve::ServeError::Incompatible,
        ) <==> version / 256 != frame::VERSION / 256,
{
    assert(host_offers & 1u64 != 0 <==> host_offers % 2 == 1) by (bit_vector);
    frame::lemma_peers_agree(frame::VERSION, version);
}

/// A device offers all that there is, the clipboard only with its helper, and a host takes it and
/// counts on all that it offers.
pub proof fn lemma_device_offer_is_taken(
    clipboard: bool,
    device_called: bool,
    id: DeviceId,
    name: Seq<char>,
)
    requires
        device_called || handshake::visible(name),
    ensures
        handshake::greeted(
            device_called,
            frame::VERSION,
            serve::offered(clipboard),
            Some(id),
            id,
            name,
        ) == Ok::<(u64, u16), handshake::GreetingFault>(
            (serve::offered(clipboard), frame::VERSION),
        ),
        capabilities::has(serve::offered(clipboard), 8) <==> clipboard,
        forall|bit: u64|
            bit == 1 || bit == 2 || bit == 4 || bit == 16 || bit == 32 || bit == 64
                ==> #[trigger] capabilities::has(serve::offered(clipboard), bit),
{
    assert(127u64 & 127 == 127 && 119u64 & 127 == 119) by (bit_vector);
    assert(127u64 & 1 != 0 && 119u64 & 1 != 0 && 127u64 & 8 != 0 && 119u64 & 8 == 0)
        by (bit_vector);
    assert forall|bit: u64|
        bit == 1 || bit == 2 || bit == 4 || bit == 16 || bit == 32 || bit == 64
        implies #[trigger] capabilities::has(serve::offered(clipboard), bit) by {
        assert(bit == 1 || bit == 2 || bit == 4 || bit == 16 || bit == 32 || bit == 64 ==> 127u64
            & bit != 0 && 119u64 & bit != 0) by (bit_vector);
    }
    handshake::lemma_device_is_taken(
        device_called,
        frame::VERSION,
        serve::offered(clipboard),
        Some(id),
        id,
        name,
    );
}

/// A device that hears heartbeats waits longer for the next frame of its host than the host can
/// take for them, even where the device misses all but the last that it may; one that hears none
/// waits without end.
pub proof fn lemma_silence_outlasts_heartbeats(link: serve::Link)
    ensures
        link.heartbeat <==> link.silence() is Some,
        link.silence() matches Some(limit) ==> limit > connector::HEARTBEAT_INTERVAL_SECS
            + connector::HEARTBEAT_TIMEOUT_SECS * (connector::HEARTBEAT_MAX_MISSES - 1),
        link.silence() matches Some(limit) ==> limit == 45,
{
}

/// Peers that hold a secret in common and are both secure are let in with exactly that secret;
/// peers that are both insecure with none, whatever they hold. Peers of one major version bind
/// their session to the same words, whatever their minor versions are.
pub proof fn lemma_admission_keeps_the_secret(
    mode: SecurityMode,
    version: u16,
    peer: DeviceId,
    secret: [u8; 32],
    initiator: DeviceId,
    responder: DeviceId,
)
    requires
        version / 256 == frame::VERSION / 256,
    ensures
        handshake::admitted(
            mode,
            mode,
            version,
            peer,
            Some(secret),
            initiator,
            responder,
        ) matches Ok((kept, prologue)) && kept == (if mode == SecurityMode::Secure {
            Some(secret)
        } else {
            None
        }) && prologue == vstd::utf8::encode_utf8(
            crate::security::prologue_text(
                frame::agreed(version, frame::VERSION)->0,
                initiator,
                responder,
            ),
        ),
        handshake::admitted(
            mode,
            mode,
            version,
            peer,
            None,
            initiator,
            responder,
        ) is Ok <==> mode == SecurityMode::Insecure,
{
    frame::lemma_peers_agree(frame::VERSION, version);
}

/// What a command prints on one of its outputs goes to that output on the host, as it was printed,
/// and to that output of the command line; the end of an output sends nothing, and the outputs
/// have ended once both have. A command that is canceled is killed, and nothing else kills it.
pub proof fn lemma_command_output_is_shown(
    streams: device::ExecStreams,
    stream_id: u32,
    n: usize,
    output: (Seq<u8>, Seq<u8>),
    printed: Seq<u8>,
)
    requires
        n > 0,
    ensures
        ({
            let (sent, after) = streams.after(stream_id, device::ExecEvent::Stdout(n));
            sent matches device::ExecAction::Send(kind) && remote::output_after(
                output,
                kind,
                printed,
            ) == (output.0 + printed, output.1) && client::goes_to(kind) is Stdout && after
                == streams
        }),
        ({
            let (sent, after) = streams.after(stream_id, device::ExecEvent::Stderr(n));
            sent matches device::ExecAction::Send(kind) && remote::output_after(
                output,
                kind,
                printed,
            ) == (output.0, output.1 + printed) && client::goes_to(kind) is Stderr && after
                == streams
        }),
        ({
            let (a, one) = streams.after(stream_id, device::ExecEvent::Stdout(0));
            let (b, both) = one.after(stream_id, device::ExecEvent::Stderr(0));
            &&& a is Nothing && b is Nothing
            &&& one.ended() <==> streams.stderr_done
            &&& both.ended()
        }),
        forall|alive: bool, canceled: bool|
            streams.after(
                stream_id,
                #[trigger] cancel_changed(alive, canceled),
            ).0 is Kill <==> alive && canceled,
{
}

/// A change of the flag that cancels a command.
pub open spec fn cancel_changed(alive: bool, canceled: bool) -> device::ExecEvent {
    device::ExecEvent::CancelChanged { alive, canceled }
}

/// The server ends the stream of a command with exactly the frames with which the command line
/// stops reading it: its exit, or an error that the device reports. What it prints is no end.
pub proof fn lemma_command_ends_on_both_sides(kind: FrameKind)
    ensures
        control::ends_command(kind) <==> client::goes_to(kind) is Exit || client::goes_to(
            kind,
        ) is Reported,
        control::ends_command(kind) ==> streams::completes(kind),
        client::goes_to(kind) is Stdout || client::goes_to(kind) is Stderr ==> !streams::completes(
            kind,
        ),
        client::goes_to(kind) is Exit <==> kind == FrameKind::ExecExit,
        client::goes_to(kind) is Reported <==> kind == FrameKind::Error,
{
}

/// The last frame of a stream is the one that settles what was asked for: the exit of a command or
/// of a terminal, the end of a file, an answer that stands alone, or an error. Nothing that more
/// must follow is last.
pub proof fn lemma_last_frame_settles_the_request(
    kind: FrameKind,
    payload: Seq<u8>,
    run: remote::PullRun,
)
    ensures
        control::ends_terminal(kind) ==> streams::completes(kind),
        run.verdict(kind) is Done ==> streams::completes(kind),
        run.verdict(kind) is Write ==> !streams::completes(kind),
        remote::PushPhase::Closing.after_reply(kind, payload).0 is Done ==> streams::completes(kind),
        remote::PushPhase::Opening.after_reply(kind, payload).0 is ReadNext ==> !streams::completes(
            kind,
        ),
        kind == FrameKind::Pong || kind == FrameKind::ClipboardData || kind
            == FrameKind::ProxyStartAck || kind == FrameKind::Error ==> streams::completes(kind),
        kind == FrameKind::PtyOpenAck || kind == FrameKind::PtyOutput || kind
            == FrameKind::PtyCompleteResult || kind == FrameKind::FileMeta ==> !streams::completes(
            kind,
        ),
{
}

/// What a device sends of a file is what a host takes: the size first, then every chunk, and the
/// end, with which the pull is done if the chunks were as long as the size.
pub proof fn lemma_pulled_file_is_taken(stream_id: u32, size: u64, n: usize, lens: Seq<nat>)
    requires
        n > 0,
        device::total(lens) == size,
    ensures
        ({
            let start = handlers::PullHandler { stream_id, stage: handlers::PullStage::Opening };
            let (announced, sending) = start.after(handlers::PullInput::Opened { size });
            let (read, still) = sending.after(handlers::PullInput::Read(n));
            let (_, closing) = sending.after(handlers::PullInput::Read(0));
            let (ended, _) = closing.after(handlers::PullInput::Closed);
            let run = remote::after_chunks(remote::PullRun { size, written: 0 }, lens);
            &&& announced.frame() matches Some(kind) && remote::reply_fault(
                FrameKind::FileMeta,
                ""@,
                ""@,
                kind,
                Seq::empty(),
            ) is None
            &&& read.frame() matches Some(kind) && run.verdict(kind) is Write && still == sending
            &&& ended.frame() matches Some(kind) && run.verdict(kind) == remote::PullVerdict::Done(
                size,
            )
        }),
{
    remote::lemma_pull_ends_with_the_whole_file(size, lens, FrameKind::FileEnd);
}

/// The two ends of a proxied connection fit together: over an encrypted session one begins the
/// handshake and the other answers it, both bound to the same words; else one sends the token that
/// the other expects. Never do both do the same.
pub proof fn lemma_proxy_ends_fit(mode: ProxyTokenMode, encrypted: bool, token: Seq<u8>)
    ensures
        match (
            device::device_end(mode, encrypted, token),
            remote::host_end(mode, encrypted, token),
        ) {
            (
                device::ProxyEnd::Noise { initiator: a, prologue: p },
                device::ProxyEnd::Noise { initiator: b, prologue: q },
            ) => encrypted && a != b && p == q,
            (device::ProxyEnd::ExpectToken, device::ProxyEnd::SendToken) => !encrypted && mode
                == ProxyTokenMode::Expect,
            (device::ProxyEnd::SendToken, device::ProxyEnd::ExpectToken) => !encrypted && mode
                == ProxyTokenMode::Send,
            _ => false,
        },
{
}

/// A host that cancels a stream is understood: it does so with a cancel frame exactly if the
/// device knows them, and both ends see that in the same way. A device that cancels a stream ends
/// it at the host in either case: by a cancel frame, or by a frame that is the last of any
/// request.
pub proof fn lemma_cancel_is_understood(
    host: u64,
    peer: u64,
    protocol: u16,
    s: mux::MuxView,
    router: streams::RouterView,
    id: u32,
)
    requires
        capabilities::has(host, 32),
        router.routes.contains(id),
    ensures
        streams::knows_cancel(protocol, peer) <==> serve::linked(peer, host, protocol).stream_cancel,
        s.cancel ==> router.routed(s.cancel_kind(), id).0 is Cancel,
        !s.cancel ==> router.routed(s.cancel_kind(), id).0 is Deliver && streams::completes(
            s.cancel_kind(),
        ),
{
    serve::lemma_link_is_what_both_offer(peer, host, protocol, 32);
}

/// A host sends heartbeats to exactly those devices that listen for them: to a device of a host
/// that offers heartbeats, that is the same on both ends.
pub proof fn lemma_heartbeats_are_heard(host: u64, peer: u64, protocol: u16)
    requires
        capabilities::has(host, 16),
    ensures
        registry::answers_heartbeats(peer) <==> serve::linked(peer, host, protocol).heartbeat,
{
    serve::lemma_link_is_what_both_offer(peer, host, protocol, 16);
}

/// Both ends of a proxied connection take the token that was given out, and differ on no other:
/// whatever is missing, added or changed in it, neither end takes it.
pub proof fn lemma_token_must_be_whole(received: Seq<u8>, token: Seq<u8>, i: int)
    ensures
        device::token_taken(token, token),
        device::token_taken(received, token) <==> remote::relay_token_taken(received, token),
        device::token_taken(received, token) ==> received.len() == token.len(),
        device::token_taken(received, token) && 0 <= i < token.len() ==> received[i] == token[i],
        received != token ==> !device::token_taken(received, token),
{
}

/// A host asks a device for something exactly where the device has the capability for it, and what
/// the device offers is what it can then be asked for.
pub proof fn lemma_offers_can_be_asked_for(clipboard: bool, capabilities: u64, bit: u64)
    ensures
        remote::promised(capabilities, bit) <==> capabilities::has(capabilities, bit),
        remote::promised(serve::offered(clipboard), 8) <==> clipboard,
        remote::promised(serve::offered(clipboard), 1) && remote::promised(
            serve::offered(clipboard),
            2,
        ) && remote::promised(serve::offered(clipboard), 4),
{
    assert(127u64 & 8 != 0 && 119u64 & 8 == 0) by (bit_vector);
    assert(127u64 & 1 != 0 && 119u64 & 1 != 0 && 127u64 & 2 != 0 && 119u64 & 2 != 0 && 127u64 & 4
        != 0 && 119u64 & 4 != 0) by (bit_vector);
}

/// Answers are taken where they are waited for, and nowhere else: the data of a clipboard, the
/// start of a proxy, and the size of a file. The first two stand alone and end their stream; the
/// file is still to come.
pub proof fn lemma_answers_are_waited_for(kind: FrameKind, payload: Seq<u8>, held: Option<Seq<char>>)
    ensures
        remote::clipboard_fault(kind, payload) is None <==> kind == FrameKind::ClipboardData,
        remote::proxy_fault(kind, payload) is None <==> kind == FrameKind::ProxyStartAck,
        remote::pull_fault(kind, payload) is None <==> kind == FrameKind::FileMeta,
        remote::pull_fault(kind, payload) is None ==> !streams::completes(kind),
        remote::clipboard_fault(kind, payload) is None || remote::proxy_fault(kind, payload) is None
            ==> streams::completes(kind),
        held is None <==> held != Some(remote::contents_of(held)),
        held is None ==> remote::contents_of(held).len() == 0,
{
}

/// A command whose output is collected ends with the same frames as one whose output is shown:
/// with its exit, or with an error; what it prints meanwhile ends neither.
pub proof fn lemma_collected_command_ends_alike(kind: FrameKind)
    ensures
        remote::exec_goes(kind) is More <==> !control::ends_command(kind),
        remote::exec_goes(kind) is Exit <==> client::goes_to(kind) is Exit,
        remote::exec_goes(kind) is Failed <==> client::goes_to(kind) is Reported,
{
}

} // verus!
