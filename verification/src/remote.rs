//! The host's half of the requests that a device serves: what each reply means, and what the
//! outcome of a request is.

use vstd::prelude::*;
use vstd::string::*;
use crate::bytes;
use crate::device;
use crate::frame::FrameKind;
use crate::messages::{ClipboardData, ProxyStartRequest, ProxyTokenMode};
use crate::text;

verus! {

/// What a device reported.
pub open spec fn reported(prefix: Seq<char>, payload: Seq<u8>) -> Seq<char> {
    prefix + text::lossy(payload)
}

fn report(prefix: &str, payload: &[u8]) -> (r: String)
    ensures
        r@ == reported(prefix@, payload@),
{
    text::cat2(prefix, text::lossy_text(payload).as_str())
}

/// A reply that is wanted to be of one kind: any other fails, an error with what the device
/// reported.
pub open spec fn reply_fault(
    wanted: FrameKind,
    failure: Seq<char>,
    surprise: Seq<char>,
    kind: FrameKind,
    payload: Seq<u8>,
) -> Option<Seq<char>> {
    if kind == wanted {
        None
    } else if kind == FrameKind::Error {
        Some(reported(failure, payload))
    } else {
        Some(surprise + kind.name())
    }
}

fn check_reply(
    wanted: FrameKind,
    failure: &str,
    surprise: &str,
    kind: FrameKind,
    payload: &[u8],
) -> (r: Result<(), String>)
    ensures
        match reply_fault(wanted, failure@, surprise@, kind, payload@) {
            None => r is Ok,
            Some(text) => r matches Err(message) && message@ == text,
        },
{
    if kind == wanted {
        return Ok(());
    }
    if kind == FrameKind::Error {
        return Err(report(failure, payload));
    }
    Err(text::cat2(surprise, kind.label()))
}

/// Whether a device has promised a capability.
pub open spec fn promised(capabilities: u64, capability: u64) -> bool {
    capabilities & capability != 0
}

/// A request for something that the device did not promise is refused.
pub fn require_capability(capabilities: u64, capability: u64, name: &str) -> (r: Result<(), String>)
    ensures
        r is Ok <==> promised(capabilities, capability),
        r matches Err(message) ==> message@ == "device does not support "@ + name@,
{
    if capabilities & capability == 0 {
        return Err(text::cat2("device does not support ", name));
    }
    Ok(())
}

/// The outcome of a ping: the round trip in milliseconds, as far as it can be counted.
pub open spec fn ping_outcome(
    kind: FrameKind,
    payload: Seq<u8>,
    nonce: Seq<u8>,
    elapsed_ms: nat,
) -> Result<nat, Seq<char>> {
    match reply_fault(
        FrameKind::Pong,
        "remote ping error: "@,
        "unexpected ping response "@,
        kind,
        payload,
    ) {
        Some(text) => Err(text),
        None => if payload != nonce {
            Err("ping nonce mismatch"@)
        } else if elapsed_ms > u64::MAX {
            Ok(u64::MAX as nat)
        } else {
            Ok(elapsed_ms)
        },
    }
}

/// The outcome of a ping: the round trip in milliseconds, if the reply carries the nonce.
pub fn ping_reply(kind: FrameKind, payload: &[u8], nonce: &[u8], elapsed_ms: u128) -> (r: Result<
    u64,
    String,
>)
    ensures
        match r {
            Ok(latency) => ping_outcome(kind, payload@, nonce@, elapsed_ms as nat) == Ok::<
                nat,
                Seq<char>,
            >(latency as nat),
            Err(message) => ping_outcome(kind, payload@, nonce@, elapsed_ms as nat) == Err::<
                nat,
                Seq<char>,
            >(message@),
        },
{
    if kind == FrameKind::Pong {
        if !bytes::same(payload, nonce) {
            return Err(String::from_str("ping nonce mismatch"));
        }
        if elapsed_ms > 0xffff_ffff_ffff_ffff {
            return Ok(u64::MAX);
        }
        return Ok(elapsed_ms as u64);
    }
    match check_reply(
        FrameKind::Pong,
        "remote ping error: ",
        "unexpected ping response ",
        kind,
        payload,
    ) {
        Err(message) => Err(message),
        Ok(()) => Ok(0),
    }
}

/// What speaks against an answer to a clipboard request.
pub open spec fn clipboard_fault(kind: FrameKind, payload: Seq<u8>) -> Option<Seq<char>> {
    reply_fault(
        FrameKind::ClipboardData,
        "remote clipboard error: "@,
        "unexpected clipboard response "@,
        kind,
        payload,
    )
}

/// What speaks against an answer to a request for a proxy.
pub open spec fn proxy_fault(kind: FrameKind, payload: Seq<u8>) -> Option<Seq<char>> {
    reply_fault(
        FrameKind::ProxyStartAck,
        "remote proxy error: "@,
        "unexpected proxy response "@,
        kind,
        payload,
    )
}

/// Whether a clipboard request was served.
pub fn clipboard_reply(kind: FrameKind, payload: &[u8]) -> (r: Result<(), String>)
    ensures
        match clipboard_fault(kind, payload@) {
            None => r is Ok,
            Some(text) => r matches Err(message) && message@ == text,
        },
{
    check_reply(
        FrameKind::ClipboardData,
        "remote clipboard error: ",
        "unexpected clipboard response ",
        kind,
        payload,
    )
}

/// The text of a clipboard that holds a text or nothing.
pub open spec fn contents_of(held: Option<Seq<char>>) -> Seq<char> {
    match held {
        Some(t) => t,
        None => Seq::empty(),
    }
}

/// The text of a clipboard; an empty clipboard has an empty text.
pub fn clipboard_contents(data: ClipboardData) -> (r: String)
    ensures
        r@ == contents_of(
            match data.text {
                Some(t) => Some(t@),
                None => None,
            },
        ),
{
    match data.text {
        Some(t) => t,
        None => String::new(),
    }
}

/// Whether a proxy was started.
pub fn proxy_reply(kind: FrameKind, payload: &[u8]) -> (r: Result<(), String>)
    ensures
        match proxy_fault(kind, payload@) {
            None => r is Ok,
            Some(text) => r matches Err(message) && message@ == text,
        },
{
    check_reply(
        FrameKind::ProxyStartAck,
        "remote proxy error: ",
        "unexpected proxy response ",
        kind,
        payload,
    )
}

/// The output of a command, as it comes in.
pub struct ExecOutput {
    pub stdout: Vec<u8>,
    pub stderr: Vec<u8>,
}

/// What a frame means to a command that runs.
pub enum ExecReply {
    /// There is more to come.
    More,
    /// The command has ended; the payload tells how.
    Exit,
    Failed(String),
}

/// What a frame means to a command that runs, apart from what is said of it.
pub enum ExecGoes {
    More,
    Exit,
    Failed,
}

pub open spec fn exec_goes(kind: FrameKind) -> ExecGoes {
    match kind {
        FrameKind::ExecExit => ExecGoes::Exit,
        FrameKind::Error => ExecGoes::Failed,
        _ => ExecGoes::More,
    }
}

impl ExecOutput {
    pub fn new() -> (r: ExecOutput)
        ensures
            r.stdout@ == Seq::<u8>::empty(),
            r.stderr@ == Seq::<u8>::empty(),
    {
        ExecOutput { stdout: Vec::new(), stderr: Vec::new() }
    }

    /// Takes the next frame. What is neither output nor an end is passed over.
    pub fn step(&mut self, kind: FrameKind, payload: &[u8]) -> (r: ExecReply)
        ensures
            (final(self).stdout@, final(self).stderr@) == output_after(
                (old(self).stdout@, old(self).stderr@),
                kind,
                payload@,
            ),
            match r {
                ExecReply::Exit => exec_goes(kind) is Exit,
                ExecReply::Failed(message) => exec_goes(kind) is Failed && message@ == reported(
                    "remote error: "@,
                    payload@,
                ),
                ExecReply::More => exec_goes(kind) is More,
            },
    {
        match kind {
            FrameKind::ExecStdout => {
                bytes::append(&mut self.stdout, payload);
                ExecReply::More
            },
            FrameKind::ExecStderr => {
                bytes::append(&mut self.stderr, payload);
                ExecReply::More
            },
            FrameKind::ExecExit => ExecReply::Exit,
            FrameKind::Error => ExecReply::Failed(report("remote error: ", payload)),
            _ => ExecReply::More,
        }
    }

    /// The two outputs as text.
    pub fn finish(&self) -> (r: (String, String))
        ensures
            r.0@ == text::lossy(self.stdout@),
            r.1@ == text::lossy(self.stderr@),
    {
        (text::lossy_text(self.stdout.as_slice()), text::lossy_text(self.stderr.as_slice()))
    }
}

/// The output of a command after one more frame.
pub open spec fn output_after(
    output: (Seq<u8>, Seq<u8>),
    kind: FrameKind,
    payload: Seq<u8>,
) -> (Seq<u8>, Seq<u8>) {
    match kind {
        FrameKind::ExecStdout => (output.0 + payload, output.1),
        FrameKind::ExecStderr => (output.0, output.1 + payload),
        _ => output,
    }
}

/// The output of a command after some frames.
pub open spec fn output_of(frames: Seq<(FrameKind, Seq<u8>)>) -> (Seq<u8>, Seq<u8>)
    decreases frames.len(),
{
    if frames.len() == 0 {
        (Seq::empty(), Seq::empty())
    } else {
        output_after(output_of(frames.drop_last()), frames.last().0, frames.last().1)
    }
}

/// All that frames of one kind carry, in their order.
pub open spec fn carried(frames: Seq<(FrameKind, Seq<u8>)>, kind: FrameKind) -> Seq<u8>
    decreases frames.len(),
{
    if frames.len() == 0 {
        Seq::empty()
    } else if frames.last().0 == kind {
        carried(frames.drop_last(), kind) + frames.last().1
    } else {
        carried(frames.drop_last(), kind)
    }
}

/// However the frames of the two outputs are mixed, each output is what its own frames carry, in
/// their order.
pub proof fn lemma_outputs_are_kept_apart(frames: Seq<(FrameKind, Seq<u8>)>)
    ensures
        output_of(frames).0 == carried(frames, FrameKind::ExecStdout),
        output_of(frames).1 == carried(frames, FrameKind::ExecStderr),
    decreases frames.len(),
{
    if frames.len() > 0 {
        lemma_outputs_are_kept_apart(frames.drop_last());
    }
}

/// How far a file is pushed.
#[derive(Debug, Clone, Copy, PartialEq, Eq, Structural)]
pub enum PushPhase {
    /// The device is to say that it is ready.
    Opening,
    /// Chunks are being sent.
    Uploading,
    /// The device is to say that it has the file.
    Closing,
}

/// What happens while a file is pushed.
pub enum PushEvent<'a> {
    /// A frame from the device.
    Reply { kind: FrameKind, payload: &'a [u8] },
    /// So many bytes were read from the file; none at its end.
    Read(usize),
}

/// What is done about it.
pub enum PushAction {
    /// Read the next part of the file.
    ReadNext,
    /// Send the bytes that were read.
    SendChunk,
    /// Tell the device that the file is complete.
    SendEnd,
    /// The file is pushed.
    Done,
    Fail(String),
}

/// Why a frame from the device fails a push, if it does.
pub open spec fn push_fault(phase: PushPhase, kind: FrameKind, payload: Seq<u8>) -> Option<
    Seq<char>,
> {
    match phase {
        PushPhase::Opening => reply_fault(
            FrameKind::FileMeta,
            "remote push error: "@,
            "unexpected push response "@,
            kind,
            payload,
        ),
        PushPhase::Uploading => if kind == FrameKind::Error {
            Some(reported("remote push error: "@, payload))
        } else if kind == FrameKind::FileEnd {
            Some("remote ended push before upload completed"@)
        } else {
            Some("unexpected push response during upload "@ + kind.name())
        },
        PushPhase::Closing => reply_fault(
            FrameKind::FileEnd,
            "remote push error: "@,
            "unexpected push completion "@,
            kind,
            payload,
        ),
    }
}

/// What is done next when a file is pushed.
pub enum PushStep {
    ReadNext,
    SendChunk,
    SendEnd,
    Done,
    Fault(Seq<char>),
}

/// Whether this is what is done.
pub open spec fn is_push_step(action: PushAction, step: PushStep) -> bool {
    match (action, step) {
        (PushAction::ReadNext, PushStep::ReadNext) => true,
        (PushAction::SendChunk, PushStep::SendChunk) => true,
        (PushAction::SendEnd, PushStep::SendEnd) => true,
        (PushAction::Done, PushStep::Done) => true,
        (PushAction::Fail(message), PushStep::Fault(text)) => message@ == text,
        _ => false,
    }
}

impl PushPhase {
    /// What is done after so many bytes were read from the file.
    pub open spec fn after_read(self, n: nat) -> (PushStep, PushPhase) {
        if n == 0 {
            (PushStep::SendEnd, PushPhase::Closing)
        } else {
            (PushStep::SendChunk, PushPhase::Uploading)
        }
    }

    /// What is done after a frame from the device.
    pub open spec fn after_reply(self, kind: FrameKind, payload: Seq<u8>) -> (PushStep, PushPhase) {
        match push_fault(self, kind, payload) {
            Some(text) => (PushStep::Fault(text), self),
            None => if self == PushPhase::Opening {
                (PushStep::ReadNext, PushPhase::Uploading)
            } else {
                (PushStep::Done, self)
            },
        }
    }

    /// Takes the next event. What is read from the file counts only while chunks are sent.
    pub fn step(&mut self, event: PushEvent) -> (r: PushAction)
        requires
            event is Read ==> *old(self) == PushPhase::Uploading,
        ensures
            match event {
                PushEvent::Read(n) => {
                    &&& *final(self) == old(self).after_read(n as nat).1
                    &&& is_push_step(r, old(self).after_read(n as nat).0)
                },
                PushEvent::Reply { kind, payload } => {
                    &&& *final(self) == old(self).after_reply(kind, payload@).1
                    &&& is_push_step(r, old(self).after_reply(kind, payload@).0)
                },
            },
    {
        match event {
            PushEvent::Read(n) => {
                if n == 0 {
                    *self = PushPhase::Closing;
                    return PushAction::SendEnd;
                }
                PushAction::SendChunk
            },
            PushEvent::Reply { kind, payload } => match *self {
                PushPhase::Opening => match check_reply(
                    FrameKind::FileMeta,
                    "remote push error: ",
                    "unexpected push response ",
                    kind,
                    payload,
                ) {
                    Ok(()) => {
                        *self = PushPhase::Uploading;
                        PushAction::ReadNext
                    },
                    Err(message) => PushAction::Fail(message),
                },
                PushPhase::Uploading => {
                    if kind == FrameKind::Error {
                        return PushAction::Fail(report("remote push error: ", payload));
                    }
                    if kind == FrameKind::FileEnd {
                        return PushAction::Fail(
                            String::from_str("remote ended push before upload completed"),
                        );
                    }
                    PushAction::Fail(
                        text::cat2("unexpected push response during upload ", kind.label()),
                    )
                },
                PushPhase::Closing => match check_reply(
                    FrameKind::FileEnd,
                    "remote push error: ",
                    "unexpected push completion ",
                    kind,
                    payload,
                ) {
                    Ok(()) => PushAction::Done,
                    Err(message) => PushAction::Fail(message),
                },
            },
        }
    }
}

/// The frames in which a file goes over the wire, chunk by chunk.
pub open spec fn file_frames(chunks: Seq<Seq<u8>>) -> Seq<(FrameKind, Seq<u8>)> {
    chunks.map_values(|chunk: Seq<u8>| (FrameKind::FileChunk, chunk)).push(
        (FrameKind::FileEnd, Seq::empty()),
    )
}

/// What the receiver of a file has written after some frames, while none of them ended the file
/// or failed it.
pub open spec fn written(frames: Seq<(FrameKind, Seq<u8>)>) -> Option<Seq<u8>>
    decreases frames.len(),
{
    if frames.len() == 0 {
        Some(Seq::empty())
    } else {
        match written(frames.drop_last()) {
            Some(file) if frames.last().0 == FrameKind::FileChunk => Some(file + frames.last().1),
            _ => None,
        }
    }
}

/// The file that a receiver has once its end was announced.
pub open spec fn received_file(frames: Seq<(FrameKind, Seq<u8>)>) -> Option<Seq<u8>> {
    if frames.len() > 0 && frames.last().0 == FrameKind::FileEnd {
        written(frames.drop_last())
    } else {
        None
    }
}

/// All of a file, from the chunks that were read of it.
pub open spec fn whole(chunks: Seq<Seq<u8>>) -> Seq<u8>
    decreases chunks.len(),
{
    if chunks.len() == 0 {
        Seq::empty()
    } else {
        whole(chunks.drop_last()) + chunks.last()
    }
}

/// A file arrives as it was read, however it was cut into chunks.
pub proof fn lemma_file_arrives(chunks: Seq<Seq<u8>>)
    ensures
        received_file(file_frames(chunks)) == Some(whole(chunks)),
    decreases chunks.len(),
{
    let frames = file_frames(chunks);
    let sent = chunks.map_values(|chunk: Seq<u8>| (FrameKind::FileChunk, chunk));
    assert(frames.drop_last() =~= sent);
    if chunks.len() > 0 {
        lemma_file_arrives(chunks.drop_last());
        let before = chunks.drop_last().map_values(
            |chunk: Seq<u8>| (FrameKind::FileChunk, chunk),
        );
        assert(file_frames(chunks.drop_last()).drop_last() =~= before);
        assert(sent.drop_last() =~= before);
    }
}

/// A file that is being pulled.
#[derive(Debug, Clone, Copy, PartialEq, Eq, Structural)]
pub struct PullRun {
    pub size: u64,
    pub written: u64,
}

/// What a frame means to a file that is being pulled.
pub enum PullAction {
    /// Write the payload to the file.
    Write,
    /// The file is complete, so many bytes long.
    Done(u64),
    Fail(String),
}

/// What speaks against the answer to a request for a file.
pub open spec fn pull_fault(kind: FrameKind, payload: Seq<u8>) -> Option<Seq<char>> {
    reply_fault(
        FrameKind::FileMeta,
        "remote pull error: "@,
        "unexpected pull response "@,
        kind,
        payload,
    )
}

/// Whether a device has a file to send.
pub fn pull_reply(kind: FrameKind, payload: &[u8]) -> (r: Result<(), String>)
    ensures
        match pull_fault(kind, payload@) {
            None => r is Ok,
            Some(text) => r matches Err(message) && message@ == text,
        },
{
    check_reply(
        FrameKind::FileMeta,
        "remote pull error: ",
        "unexpected pull response ",
        kind,
        payload,
    )
}

/// What a frame means to a file that is being pulled, apart from what is said of it.
pub enum PullVerdict {
    Write,
    Done(u64),
    /// The file is not as long as was announced.
    Mismatch,
    /// The device reports an error.
    Reported,
    Surprise,
}

impl PullRun {
    /// What a frame means.
    pub open spec fn verdict(self, kind: FrameKind) -> PullVerdict {
        match kind {
            FrameKind::FileChunk => PullVerdict::Write,
            FrameKind::FileEnd => if self.written == self.size {
                PullVerdict::Done(self.written)
            } else {
                PullVerdict::Mismatch
            },
            FrameKind::Error => PullVerdict::Reported,
            _ => PullVerdict::Surprise,
        }
    }

    /// How far the file is after a frame with so many bytes.
    pub open spec fn after(self, kind: FrameKind, len: nat) -> PullRun {
        PullRun {
            written: if kind == FrameKind::FileChunk {
                (self.written + len) as u64
            } else {
                self.written
            },
            ..self
        }
    }

    /// A file of the size that the device announced.
    pub fn new(size: u64) -> (r: PullRun)
        ensures
            r.size == size,
            r.written == 0,
    {
        PullRun { size, written: 0 }
    }

    /// Takes the next frame. A file that is not as long as the device announced fails.
    pub fn step(&mut self, kind: FrameKind, payload: &[u8]) -> (r: PullAction)
        requires
            old(self).written + payload@.len() <= u64::MAX,
        ensures
            *final(self) == old(self).after(kind, payload@.len()),
            match r {
                PullAction::Write => old(self).verdict(kind) is Write,
                PullAction::Done(n) => old(self).verdict(kind) == PullVerdict::Done(n),
                PullAction::Fail(message) => match old(self).verdict(kind) {
                    PullVerdict::Mismatch => message@ == "pull size mismatch: expected "@
                        + text::decimal(old(self).size as nat) + ", got "@ + text::decimal(
                        old(self).written as nat,
                    ),
                    PullVerdict::Reported => message@ == reported("remote pull error: "@, payload@),
                    PullVerdict::Surprise => message@ == "unexpected pull frame "@ + kind.name(),
                    _ => false,
                },
            },
    {
        match kind {
            FrameKind::FileChunk => {
                let n: usize = payload.len();
                self.written = self.written + n as u64;
                PullAction::Write
            },
            FrameKind::FileEnd => {
                if self.written != self.size {
                    let mut message = text::cat_number(
                        "pull size mismatch: expected ",
                        self.size,
                        ", got ",
                    );
                    message.append(text::decimal_string(self.written).as_str());
                    return PullAction::Fail(message);
                }
                PullAction::Done(self.written)
            },
            FrameKind::Error => PullAction::Fail(report("remote pull error: ", payload)),
            _ => PullAction::Fail(text::cat2("unexpected pull frame ", kind.label())),
        }
    }
}

/// The name of a forwarded port, where the device listens, and where it passes connections on to.
pub open spec fn forward_asks(local_port: u16, remote_port: u16) -> (Seq<char>, Seq<char>, Seq<char>) {
    (
        "forward-"@ + text::decimal(local_port as nat) + "-"@ + text::decimal(remote_port as nat),
        "0.0.0.0:0"@,
        "127.0.0.1:"@ + text::decimal(remote_port as nat),
    )
}

/// The name of a reversed port, where the device listens, and where it passes connections on to.
pub open spec fn reverse_asks(
    device_port: u16,
    host_port: u16,
    local_ip: Seq<char>,
    relay_port: u16,
) -> (Seq<char>, Seq<char>, Seq<char>) {
    (
        "reverse-"@ + text::decimal(device_port as nat) + "-"@ + text::decimal(host_port as nat),
        "127.0.0.1:"@ + text::decimal(device_port as nat),
        local_ip + ":"@ + text::decimal(relay_port as nat),
    )
}

/// What a device is asked for a forwarded port: to listen anywhere, to expect the token, and to
/// pass connections on to one of its own ports.
pub fn forward_request(local_port: u16, remote_port: u16, token: Vec<u8>) -> (r: ProxyStartRequest)
    ensures
        (r.id@, r.bind@, r.target@) == forward_asks(local_port, remote_port),
        r.token == token,
        r.token_mode == ProxyTokenMode::Expect,
{
    let remote = text::decimal_string(remote_port as u64);
    let mut id = text::cat_number("forward-", local_port as u64, "-");
    id.append(remote.as_str());
    ProxyStartRequest {
        id,
        bind: String::from_str("0.0.0.0:0"),
        target: text::cat2("127.0.0.1:", remote.as_str()),
        token,
        token_mode: ProxyTokenMode::Expect,
    }
}

/// What a device is asked for a reversed port: to listen on one of its own ports, to send the
/// token, and to pass connections on to a port of the host.
pub fn reverse_request(
    device_port: u16,
    host_port: u16,
    local_ip: &str,
    relay_port: u16,
    token: Vec<u8>,
) -> (r: ProxyStartRequest)
    ensures
        (r.id@, r.bind@, r.target@) == reverse_asks(device_port, host_port, local_ip@, relay_port),
        r.token == token,
        r.token_mode == ProxyTokenMode::Send,
{
    let device = text::decimal_string(device_port as u64);
    let mut id = text::cat_number("reverse-", device_port as u64, "-");
    id.append(text::decimal_string(host_port as u64).as_str());
    ProxyStartRequest {
        id,
        bind: text::cat2("127.0.0.1:", device.as_str()),
        target: text::cat3(local_ip, ":", text::decimal_string(relay_port as u64).as_str()),
        token,
        token_mode: ProxyTokenMode::Send,
    }
}

/// What is said of a forwarded port.
pub fn forward_message(local_port: u16, remote_port: u16) -> (r: String)
    ensures
        r@ == "tcp:"@ + text::decimal(local_port as nat) + " -> device tcp:"@ + text::decimal(
            remote_port as nat,
        ),
{
    let mut out = text::cat_number("tcp:", local_port as u64, " -> device tcp:");
    out.append(text::decimal_string(remote_port as u64).as_str());
    out
}

/// What is said of a reversed port.
pub fn reverse_message(device_port: u16, host_port: u16) -> (r: String)
    ensures
        r@ == "device tcp:"@ + text::decimal(device_port as nat) + " -> host tcp:"@ + text::decimal(
            host_port as nat,
        ),
{
    let mut out = text::cat_number("device tcp:", device_port as u64, " -> host tcp:");
    out.append(text::decimal_string(host_port as u64).as_str());
    out
}

/// What follows the last colon; all of a text without one.
pub open spec fn after_last_colon(s: Seq<char>) -> Seq<char> {
    text::split(s, ':').last()
}

/// The port of an address.
pub open spec fn port_of(address: Seq<char>) -> Option<nat> {
    text::parse_unsigned(after_last_colon(address), 65535)
}

/// The port of an address that a device listens on.
pub fn bound_port(bound: &str) -> (r: Option<u16>)
    ensures
        match r {
            Some(port) => port_of(bound@) == Some(port as nat),
            None => port_of(bound@) is None,
        },
{
    let chars = text::chars_of(bound);
    let parts = text::split_chars(chars.as_slice(), ':');
    proof {
        text::lemma_split_joins(chars@, ':');
        assert(text::contents(parts@).last() == parts@[parts@.len() - 1]@);
    }
    let last = parts.len() - 1;
    match text::read_unsigned(parts[last].as_slice(), 65535) {
        Some(port) => Some(port as u16),
        None => None,
    }
}

/// The host's end of a proxied connection.
pub open spec fn host_end(mode: ProxyTokenMode, encrypted: bool, token: Seq<u8>) -> device::ProxyEnd {
    if encrypted {
        device::ProxyEnd::Noise {
            initiator: mode == ProxyTokenMode::Expect,
            prologue: device::proxy_binding(mode, token),
        }
    } else if mode == ProxyTokenMode::Expect {
        device::ProxyEnd::SendToken
    } else {
        device::ProxyEnd::ExpectToken
    }
}

/// How the host's end of a proxied connection is protected: it is the other end of what the
/// device was asked to do.
pub fn relay_plan(mode: ProxyTokenMode, encrypted: bool, token: &[u8]) -> (r: device::ProxyPlan)
    ensures
        r.end() == host_end(mode, encrypted, token@),
{
    match device::proxy_plan(mode, encrypted, token) {
        device::ProxyPlan::Noise { initiator, prologue } => device::ProxyPlan::Noise {
            initiator: !initiator,
            prologue,
        },
        device::ProxyPlan::ExpectToken => device::ProxyPlan::SendToken,
        device::ProxyPlan::SendToken => device::ProxyPlan::ExpectToken,
    }
}

/// Whether a connection to a relay presents the token that was given out.
pub open spec fn relay_token_taken(received: Seq<u8>, token: Seq<u8>) -> bool {
    received == token
}

/// A connection to the relay of a reversed port that presents any other token is refused.
pub fn check_relay_token(received: &[u8], token: &[u8]) -> (r: Result<(), String>)
    ensures
        r is Ok <==> relay_token_taken(received@, token@),
        r matches Err(message) ==> message@ == "reverse relay token mismatch"@,
{
    if bytes::same(received, token) {
        Ok(())
    } else {
        Err(String::from_str("reverse relay token mismatch"))
    }
}

/// A device answers a ping with what it was sent; such an answer, and no other, gives the round
/// trip, which is the time that has passed as far as it can be counted.
pub proof fn lemma_ping_needs_its_own_answer(
    kind: FrameKind,
    payload: Seq<u8>,
    nonce: Seq<u8>,
    elapsed_ms: nat,
)
    ensures
        ping_outcome(kind, payload, nonce, elapsed_ms) is Ok <==> kind == FrameKind::Pong && payload
            == nonce,
        ping_outcome(kind, payload, nonce, elapsed_ms) matches Ok(latency) ==> latency
            <= elapsed_ms && latency <= u64::MAX && (latency == elapsed_ms || latency == u64::MAX),
{
}

/// A reply that is wanted is taken, and only that; an error is told in the words of the device,
/// anything else by its kind.
pub proof fn lemma_only_the_wanted_reply_is_taken(
    wanted: FrameKind,
    failure: Seq<char>,
    surprise: Seq<char>,
    kind: FrameKind,
    payload: Seq<u8>,
)
    requires
        wanted != FrameKind::Error,
    ensures
        reply_fault(wanted, failure, surprise, kind, payload) is None <==> kind == wanted,
        reply_fault(wanted, failure, surprise, FrameKind::Error, payload) == Some(
            failure + text::lossy(payload),
        ),
        reply_fault(wanted, failure, surprise, kind, payload) matches Some(text) ==> kind
            != FrameKind::Error ==> text == surprise + kind.name(),
{
}

/// A push goes through its phases in order: nothing of the file is read before the device is
/// ready, every part that was read is sent, the end is told once nothing more is read, and it is
/// done only when the device has confirmed that; whatever else the device says ends it.
pub proof fn lemma_push_goes_in_order(kind: FrameKind, payload: Seq<u8>, n: nat)
    ensures
        ({
            let opened = PushPhase::Opening.after_reply(kind, payload);
            let uploaded = PushPhase::Uploading.after_read(n);
            let meanwhile = PushPhase::Uploading.after_reply(kind, payload);
            let closed = PushPhase::Closing.after_reply(kind, payload);
            &&& kind == FrameKind::FileMeta ==> opened == (
                PushStep::ReadNext,
                PushPhase::Uploading,
            )
            &&& kind != FrameKind::FileMeta ==> opened.0 is Fault
            &&& n > 0 ==> uploaded == (PushStep::SendChunk, PushPhase::Uploading)
            &&& n == 0 ==> uploaded == (PushStep::SendEnd, PushPhase::Closing)
            &&& meanwhile.0 is Fault
            &&& kind == FrameKind::FileEnd ==> closed.0 is Done
            &&& kind != FrameKind::FileEnd ==> closed.0 is Fault
        }),
{
}

/// How far a file is after chunks of the given lengths.
pub open spec fn after_chunks(run: PullRun, lens: Seq<nat>) -> PullRun
    decreases lens.len(),
{
    if lens.len() == 0 {
        run
    } else {
        after_chunks(run, lens.drop_last()).after(FrameKind::FileChunk, lens.last())
    }
}

/// A pull takes every chunk, and is done at the end of the file if and only if as many bytes came
/// as the device announced; it then says how many. An error of the device, or what is no part of
/// a file, fails it at any time.
pub proof fn lemma_pull_ends_with_the_whole_file(size: u64, lens: Seq<nat>, kind: FrameKind)
    requires
        device::total(lens) <= u64::MAX,
    ensures
        ({
            let run = after_chunks(PullRun { size, written: 0 }, lens);
            &&& run.verdict(FrameKind::FileChunk) is Write
            &&& device::total(lens) == size ==> run.verdict(FrameKind::FileEnd)
                == PullVerdict::Done(size)
            &&& device::total(lens) != size ==> run.verdict(FrameKind::FileEnd) is Mismatch
            &&& kind != FrameKind::FileChunk && kind != FrameKind::FileEnd ==> run.verdict(
                kind,
            ) is Reported || run.verdict(kind) is Surprise
            &&& run.verdict(kind) is Reported <==> kind == FrameKind::Error
        }),
    decreases lens.len(),
{
    lemma_chunks_add_up(size, lens);
}

proof fn lemma_chunks_add_up(size: u64, lens: Seq<nat>)
    requires
        device::total(lens) <= u64::MAX,
    ensures
        after_chunks(PullRun { size, written: 0 }, lens) == (PullRun {
            size,
            written: device::total(lens) as u64,
        }),
    decreases lens.len(),
{
    if lens.len() > 0 {
        lemma_chunks_add_up(size, lens.drop_last());
    }
}

/// An address that ends with a colon and a port names that port, whatever stands before it.
pub proof fn lemma_port_is_named(host: Seq<char>, port: u16)
    ensures
        port_of(host + ":"@ + text::decimal(port as nat)) == Some(port as nat),
{
    let digits = text::decimal(port as nat);
    reveal_strlit(":");
    text::lemma_decimal_value(port as nat);
    text::lemma_decimal_round_trip(port as nat, 65535);
    if digits.contains(':') {
        let k = digits.index_of(':');
        assert(text::is_digit(digits[k]));
    }
    crate::transfer::lemma_split_push(host, ':', digits);
    assert(host + ":"@ + digits =~= host.push(':') + digits);
}

/// A forwarded port leads to the port of the device that was asked for, at the device itself, and
/// any port of the device may listen for it. A reversed port listens on the port of the device
/// that was asked for, at the device itself, and leads to the relay of the host.
pub proof fn lemma_proxies_lead_where_they_should(
    near: u16,
    far: u16,
    local_ip: Seq<char>,
    relay_port: u16,
)
    ensures
        ({
            let (_, bind, target) = forward_asks(near, far);
            &&& port_of(target) == Some(far as nat)
            &&& text::starts_with(target, "127.0.0.1:"@)
            &&& port_of(bind) == Some(0nat)
        }),
        ({
            let (_, bind, target) = reverse_asks(near, far, local_ip, relay_port);
            &&& port_of(bind) == Some(near as nat)
            &&& text::starts_with(bind, "127.0.0.1:"@)
            &&& port_of(target) == Some(relay_port as nat)
            &&& text::starts_with(target, local_ip)
        }),
{
    reveal_strlit("127.0.0.1:");
    reveal_strlit("0.0.0.0:0");
    reveal_strlit(":");
    let home = seq!['1', '2', '7', '.', '0', '.', '0', '.', '1'];
    assert("127.0.0.1:"@ =~= home + ":"@);
    lemma_port_is_named(home, far);
    lemma_port_is_named(home, near);
    lemma_port_is_named(local_ip, relay_port);
    lemma_port_is_named(seq!['0', '.', '0', '.', '0', '.', '0'], 0);
    assert(text::decimal(0) =~= seq!['0']);
    assert("0.0.0.0:0"@ =~= seq!['0', '.', '0', '.', '0', '.', '0'] + ":"@ + text::decimal(0));
    assert(("127.0.0.1:"@ + text::decimal(far as nat)).take(10) =~= "127.0.0.1:"@);
    assert(("127.0.0.1:"@ + text::decimal(near as nat)).take(10) =~= "127.0.0.1:"@);
    let target = local_ip + ":"@ + text::decimal(relay_port as nat);
    assert(target.take(local_ip.len() as int) =~= local_ip);
}

} // verus!
