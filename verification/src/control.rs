//! The local control channel of a host: its requests, what is answered, and how the terminal of a
//! device is relayed through it.

use vstd::prelude::*;
use vstd::string::*;
use crate::device;
use crate::device::PtyEvent;
use crate::frame::FrameKind;
use crate::messages::ExecIdentity;
use crate::registry;
use crate::registry::{DeviceInfo, Registry};
use crate::text;

verus! {

/// What the command line asks of the server.
#[derive(Debug)]
pub enum ControlRequest {
    Devices,
    Ping { device: Option<String> },
    Exec {
        device: Option<String>,
        program: String,
        args: Vec<String>,
        cwd: Option<String>,
        run_as: ExecIdentity,
    },
    ExecStream {
        device: Option<String>,
        program: String,
        args: Vec<String>,
        cwd: Option<String>,
        run_as: ExecIdentity,
    },
    Push { device: Option<String>, local: String, remote: String, run_as: ExecIdentity },
    Pull { device: Option<String>, remote: String, local: String, run_as: ExecIdentity },
    Pty {
        device: Option<String>,
        program: String,
        args: Vec<String>,
        run_as: ExecIdentity,
        cols: u16,
        rows: u16,
        term: String,
        echo: bool,
    },
    ClipboardGet { device: Option<String> },
    ClipboardSet { device: Option<String>, text: String },
    ClipboardClear { device: Option<String> },
    Forward { device: Option<String>, local_port: u16, remote_port: u16 },
    Reverse { device: Option<String>, device_port: u16, host_port: u16 },
}

/// What the server answers.
#[derive(Debug)]
pub enum ControlResponse {
    Devices { devices: Vec<DeviceInfo> },
    Pong { latency_ms: u64 },
    Exec { stdout: String, stderr: String, code: Option<i32> },
    Clipboard { text: String },
    Done { message: String },
    Error { message: String },
}

/// The text of an optional string.
pub open spec fn text_of(s: Option<String>) -> Option<Seq<char>> {
    match s {
        Some(t) => Some(t@),
        None => None,
    }
}

impl ControlRequest {
    /// The device that a request is for, if it is for one; an inner `None` leaves the choice to
    /// the server.
    pub open spec fn target(self) -> Option<Option<Seq<char>>> {
        match self {
            ControlRequest::Devices => None,
            ControlRequest::Ping { device } => Some(text_of(device)),
            ControlRequest::Exec { device, .. } => Some(text_of(device)),
            ControlRequest::ExecStream { device, .. } => Some(text_of(device)),
            ControlRequest::Push { device, .. } => Some(text_of(device)),
            ControlRequest::Pull { device, .. } => Some(text_of(device)),
            ControlRequest::Pty { device, .. } => Some(text_of(device)),
            ControlRequest::ClipboardGet { device } => Some(text_of(device)),
            ControlRequest::ClipboardSet { device, .. } => Some(text_of(device)),
            ControlRequest::ClipboardClear { device } => Some(text_of(device)),
            ControlRequest::Forward { device, .. } => Some(text_of(device)),
            ControlRequest::Reverse { device, .. } => Some(text_of(device)),
        }
    }

    /// The device that a request is for.
    pub fn device(&self) -> (r: Option<&str>)
        ensures
            registry::view_of(r) == match self.target() {
                Some(device) => device,
                None => None,
            },
    {
        let device: &Option<String> = match self {
            ControlRequest::Devices => return None,
            ControlRequest::Ping { device } => device,
            ControlRequest::Exec { device, .. } => device,
            ControlRequest::ExecStream { device, .. } => device,
            ControlRequest::Push { device, .. } => device,
            ControlRequest::Pull { device, .. } => device,
            ControlRequest::Pty { device, .. } => device,
            ControlRequest::ClipboardGet { device } => device,
            ControlRequest::ClipboardSet { device, .. } => device,
            ControlRequest::ClipboardClear { device } => device,
            ControlRequest::Forward { device, .. } => device,
            ControlRequest::Reverse { device, .. } => device,
        };
        match device {
            Some(name) => Some(name.as_str()),
            None => None,
        }
    }
}

/// How a request is served.
#[derive(Debug, Clone, Copy, PartialEq, Eq, Structural)]
pub enum ControlRoute {
    /// One answer, then the connection ends.
    Answer,
    /// The connection carries the frames of a command.
    ExecStream,
    /// The connection carries the frames of a terminal.
    Pty,
}

impl ControlRequest {
    pub open spec fn route(self) -> ControlRoute {
        match self {
            ControlRequest::ExecStream { .. } => ControlRoute::ExecStream,
            ControlRequest::Pty { .. } => ControlRoute::Pty,
            _ => ControlRoute::Answer,
        }
    }

    /// Why a request cannot have one answer, if it cannot.
    pub open spec fn streams(self) -> Option<Seq<char>> {
        match self {
            ControlRequest::ExecStream { .. } => Some(
                "exec stream request must use streaming control"@,
            ),
            ControlRequest::Pty { .. } => Some("PTY request must use streaming control"@),
            _ => None,
        }
    }
}

pub fn control_route(request: &ControlRequest) -> (r: ControlRoute)
    ensures
        r == request.route(),
{
    match request {
        ControlRequest::ExecStream { .. } => ControlRoute::ExecStream,
        ControlRequest::Pty { .. } => ControlRoute::Pty,
        _ => ControlRoute::Answer,
    }
}

/// What is done about a request that has one answer.
pub enum ControlPlan {
    /// Answer at once.
    Respond(ControlResponse),
    /// Ask the device of the session at this position, then answer with its outcome.
    Ask(usize),
}

/// Decides about a request that has one answer.
pub fn process_control(request: &ControlRequest, devices: &Registry) -> (r: ControlPlan)
    ensures
        match *request {
            ControlRequest::Devices => r matches ControlPlan::Respond(response) && response matches
                ControlResponse::Devices { devices: list } && registry::is_listing(
                devices.sessions.entries@,
                list@,
            ),
            _ => match request.streams() {
                Some(text) => answers_error(r, text),
                None => match registry::resolution(
                    devices.sessions.entries@,
                    request.target().unwrap(),
                ) {
                    Ok(i) => r matches ControlPlan::Ask(at) && at == i && at
                        < devices.sessions.entries@.len(),
                    Err(text) => answers_error(r, text),
                },
            },
        },
{
    match request {
        ControlRequest::Devices => {
            return ControlPlan::Respond(ControlResponse::Devices { devices: devices.list() });
        },
        ControlRequest::ExecStream { .. } => {
            return ControlPlan::Respond(
                ControlResponse::Error {
                    message: String::from_str("exec stream request must use streaming control"),
                },
            );
        },
        ControlRequest::Pty { .. } => {
            return ControlPlan::Respond(
                ControlResponse::Error {
                    message: String::from_str("PTY request must use streaming control"),
                },
            );
        },
        _ => {},
    }
    match devices.resolve(request.device()) {
        Ok(at) => ControlPlan::Ask(at),
        Err(message) => ControlPlan::Respond(ControlResponse::Error { message }),
    }
}

/// Whether a request is answered with an error at once.
pub open spec fn answers_error(plan: ControlPlan, text: Seq<char>) -> bool {
    plan matches ControlPlan::Respond(response) && response matches ControlResponse::Error {
        message,
    } && message@ == text
}

/// What came of asking a device.
pub enum Outcome {
    Latency(u64),
    Exec { stdout: String, stderr: String, code: Option<i32> },
    Pushed(u64),
    Pulled(u64),
    Clipboard(String),
    ClipboardUpdated,
    ClipboardCleared,
    /// A port is forwarded or reversed, as the text says.
    Proxied(String),
}

/// Whether a request with an outcome is answered so.
pub open spec fn is_response(outcome: Result<Outcome, String>, r: ControlResponse) -> bool {
    match outcome {
        Err(error) => r == (ControlResponse::Error { message: error }),
        Ok(Outcome::Latency(n)) => r == (ControlResponse::Pong { latency_ms: n }),
        Ok(Outcome::Exec { stdout, stderr, code }) => r == (ControlResponse::Exec {
            stdout,
            stderr,
            code,
        }),
        Ok(Outcome::Pushed(n)) => r matches ControlResponse::Done { message } && message@
            == "pushed "@ + text::decimal(n as nat) + " bytes"@,
        Ok(Outcome::Pulled(n)) => r matches ControlResponse::Done { message } && message@
            == "pulled "@ + text::decimal(n as nat) + " bytes"@,
        Ok(Outcome::Clipboard(t)) => r == (ControlResponse::Clipboard { text: t }),
        Ok(Outcome::ClipboardUpdated) => r matches ControlResponse::Done { message } && message@
            == "Android clipboard updated"@,
        Ok(Outcome::ClipboardCleared) => r matches ControlResponse::Done { message } && message@
            == "Android clipboard cleared"@,
        Ok(Outcome::Proxied(message)) => r == (ControlResponse::Done { message }),
    }
}

/// Answers a request with the outcome.
pub fn control_response(outcome: Result<Outcome, String>) -> (r: ControlResponse)
    ensures
        is_response(outcome, r),
{
    match outcome {
        Err(message) => ControlResponse::Error { message },
        Ok(Outcome::Latency(latency_ms)) => ControlResponse::Pong { latency_ms },
        Ok(Outcome::Exec { stdout, stderr, code }) => ControlResponse::Exec {
            stdout,
            stderr,
            code,
        },
        Ok(Outcome::Pushed(n)) => ControlResponse::Done {
            message: text::cat_number("pushed ", n, " bytes"),
        },
        Ok(Outcome::Pulled(n)) => ControlResponse::Done {
            message: text::cat_number("pulled ", n, " bytes"),
        },
        Ok(Outcome::Clipboard(text)) => ControlResponse::Clipboard { text },
        Ok(Outcome::ClipboardUpdated) => ControlResponse::Done {
            message: String::from_str("Android clipboard updated"),
        },
        Ok(Outcome::ClipboardCleared) => ControlResponse::Done {
            message: String::from_str("Android clipboard cleared"),
        },
        Ok(Outcome::Proxied(message)) => ControlResponse::Done { message },
    }
}

/// Whether a frame from the device is the last of a command.
pub open spec fn ends_command(kind: FrameKind) -> bool {
    kind == FrameKind::ExecExit || kind == FrameKind::Error
}

/// Whether a frame from the device is the last of a command.
pub fn exec_stream_done(kind: FrameKind) -> (r: bool)
    ensures
        r == ends_command(kind),
{
    kind == FrameKind::ExecExit || kind == FrameKind::Error
}

/// What is answered when a command's stream is open.
pub fn exec_stream_ready() -> (r: ControlResponse)
    ensures
        r matches ControlResponse::Done { message } && message@ == "exec stream ready"@,
{
    ControlResponse::Done { message: String::from_str("exec stream ready") }
}

/// Why a relayed terminal fails.
#[derive(Debug, Clone, Copy, PartialEq, Eq, Structural)]
pub enum RelayError {
    Open(FrameKind),
    Local(FrameKind),
    Remote(u32),
    NotTerminated,
}

impl RelayError {
    pub open spec fn text(self) -> Seq<char> {
        match self {
            RelayError::Open(kind) => "unexpected PTY open response "@ + kind.name(),
            RelayError::Local(kind) => "unexpected local PTY frame "@ + kind.name(),
            RelayError::Remote(id) => "unexpected remote stream "@ + text::decimal(id as nat)
                + " during PTY"@,
            RelayError::NotTerminated => "PTY did not terminate after client disconnect"@,
        }
    }

    pub fn message(self) -> (r: String)
        ensures
            r@ == self.text(),
    {
        match self {
            RelayError::Open(kind) => text::cat2("unexpected PTY open response ", kind.label()),
            RelayError::Local(kind) => text::cat2("unexpected local PTY frame ", kind.label()),
            RelayError::Remote(id) => text::cat_number(
                "unexpected remote stream ",
                id as u64,
                " during PTY",
            ),
            RelayError::NotTerminated => String::from_str(
                "PTY did not terminate after client disconnect",
            ),
        }
    }
}

/// What the first frame of a terminal's stream means.
#[derive(Debug, Clone, Copy, PartialEq, Eq, Structural)]
pub enum Opened {
    /// The payload tells the process.
    Yes,
    /// The payload tells why not.
    No,
}

pub open spec fn opened_by(kind: FrameKind) -> Result<Opened, RelayError> {
    match kind {
        FrameKind::PtyOpenAck => Ok(Opened::Yes),
        FrameKind::Error => Ok(Opened::No),
        _ => Err(RelayError::Open(kind)),
    }
}

pub fn pty_opened(kind: FrameKind) -> (r: Result<Opened, RelayError>)
    ensures
        r == opened_by(kind),
{
    match kind {
        FrameKind::PtyOpenAck => Ok(Opened::Yes),
        FrameKind::Error => Ok(Opened::No),
        _ => Err(RelayError::Open(kind)),
    }
}

/// What is answered when a terminal is open.
pub fn pty_ready(pid: u32) -> (r: ControlResponse)
    ensures
        r matches ControlResponse::Done { message } && message@ == "pty pid="@ + text::decimal(
            pid as nat,
        ),
{
    ControlResponse::Done {
        message: text::cat2("pty pid=", text::decimal_string(pid as u64).as_str()),
    }
}

/// What is answered when a terminal could not be opened.
pub fn pty_refused(payload: &[u8]) -> (r: ControlResponse)
    ensures
        r matches ControlResponse::Error { message } && message@ == text::lossy(payload@),
{
    ControlResponse::Error { message: text::lossy_text(payload) }
}

/// How long a terminal may go on once its client is gone.
pub const DRAIN_SECONDS: u64 = 3;

/// A terminal that is relayed between its client and the device.
#[derive(Debug, Clone, Copy, PartialEq, Eq, Structural)]
pub struct PtyRelay {
    pub stream_id: u32,
    /// The client still takes output.
    pub client_reads: bool,
    /// The client still gives input.
    pub client_writes: bool,
    /// The relay has ended.
    pub ended: bool,
}

/// What happens while a terminal is relayed.
#[derive(Debug, Clone, Copy, PartialEq, Eq, Structural)]
pub enum RelayEvent {
    /// A frame from the client.
    Client(FrameKind),
    /// The client is gone, or what it sent cannot be read.
    ClientGone,
    /// A frame from the device.
    Device { kind: FrameKind, stream_id: u32 },
    /// The client did not take the last output.
    ClientWriteFailed,
    /// The device has not ended the terminal in time after its client was gone.
    DrainTimeout,
}

/// What is done about it.
#[derive(Debug, Clone, Copy, PartialEq, Eq, Structural)]
pub enum RelayAction {
    Nothing,
    /// Send the client's frame to the device, under the terminal's stream.
    Forward,
    /// Send the client's frame to the device; from now on wait only for the device.
    ForwardLast,
    /// Tell the device to close the terminal; from now on wait only for the device.
    Close,
    /// Pass the device's frame to the client, if `write`; the terminal ends with it, if `done`.
    Deliver { write: bool, done: bool },
    Fail(RelayError),
}

/// Whether a client may send frames of a kind.
pub open spec fn client_may_send(kind: FrameKind) -> bool {
    kind == FrameKind::PtyInput || kind == FrameKind::PtyResize || kind == FrameKind::PtyClose
        || kind == FrameKind::PtyComplete
}

/// Whether a frame ends a terminal.
pub open spec fn ends_terminal(kind: FrameKind) -> bool {
    kind == FrameKind::PtyExit || kind == FrameKind::Error
}

impl PtyRelay {
    pub open spec fn after(self, event: RelayEvent) -> (RelayAction, PtyRelay) {
        match event {
            RelayEvent::Client(kind) => if !client_may_send(kind) {
                (RelayAction::Fail(RelayError::Local(kind)), PtyRelay { ended: true, ..self })
            } else if kind == FrameKind::PtyClose {
                (RelayAction::ForwardLast, PtyRelay { client_writes: false, ..self })
            } else {
                (RelayAction::Forward, self)
            },
            RelayEvent::ClientGone => (
                RelayAction::Close,
                PtyRelay { client_writes: false, ..self },
            ),
            RelayEvent::Device { kind, stream_id } => if stream_id != self.stream_id {
                (RelayAction::Fail(RelayError::Remote(stream_id)), PtyRelay { ended: true, ..self })
            } else {
                (
                    RelayAction::Deliver { write: self.client_reads, done: ends_terminal(kind) },
                    PtyRelay { ended: ends_terminal(kind), ..self },
                )
            },
            RelayEvent::ClientWriteFailed => (
                RelayAction::Nothing,
                PtyRelay { client_reads: false, ..self },
            ),
            RelayEvent::DrainTimeout => (
                RelayAction::Fail(RelayError::NotTerminated),
                PtyRelay { ended: true, ..self },
            ),
        }
    }

    pub fn new(stream_id: u32) -> (r: PtyRelay)
        ensures
            r == (PtyRelay { stream_id, client_reads: true, client_writes: true, ended: false }),
    {
        PtyRelay { stream_id, client_reads: true, client_writes: true, ended: false }
    }

    /// Takes the next event. A client that is gone gives no more input, and its terminal is timed
    /// only then.
    pub fn step(&mut self, event: RelayEvent) -> (r: RelayAction)
        requires
            !old(self).ended || event is ClientWriteFailed,
            event is Client || event is ClientGone ==> old(self).client_writes,
            event is DrainTimeout ==> !old(self).client_writes,
        ensures
            (r, *final(self)) == old(self).after(event),
    {
        match event {
            RelayEvent::Client(kind) => match kind {
                FrameKind::PtyInput | FrameKind::PtyResize | FrameKind::PtyComplete => {
                    RelayAction::Forward
                },
                FrameKind::PtyClose => {
                    self.client_writes = false;
                    RelayAction::ForwardLast
                },
                _ => {
                    self.ended = true;
                    RelayAction::Fail(RelayError::Local(kind))
                },
            },
            RelayEvent::ClientGone => {
                self.client_writes = false;
                RelayAction::Close
            },
            RelayEvent::Device { kind, stream_id } => {
                if stream_id != self.stream_id {
                    self.ended = true;
                    return RelayAction::Fail(RelayError::Remote(stream_id));
                }
                let done = kind == FrameKind::PtyExit || kind == FrameKind::Error;
                self.ended = done;
                RelayAction::Deliver { write: self.client_reads, done }
            },
            RelayEvent::ClientWriteFailed => {
                self.client_reads = false;
                RelayAction::Nothing
            },
            RelayEvent::DrainTimeout => {
                self.ended = true;
                RelayAction::Fail(RelayError::NotTerminated)
            },
        }
    }
}

/// The relay after some events.
pub open spec fn relay_after(relay: PtyRelay, events: Seq<RelayEvent>) -> PtyRelay
    decreases events.len(),
{
    if events.len() == 0 {
        relay
    } else {
        relay_after(relay, events.drop_last()).after(events.last()).1
    }
}

/// A client that failed to take output is given none afterwards, and one that is gone is not
/// read from again; the terminal keeps its stream throughout.
pub proof fn lemma_lost_client_stays_lost(relay: PtyRelay, events: Seq<RelayEvent>)
    ensures
        relay_after(relay, events).stream_id == relay.stream_id,
        !relay.client_reads ==> !relay_after(relay, events).client_reads,
        !relay.client_writes ==> !relay_after(relay, events).client_writes,
    decreases events.len(),
{
    if events.len() > 0 {
        lemma_lost_client_stays_lost(relay, events.drop_last());
    }
}

/// What a client of a terminal sends is passed on exactly where the device's terminal takes it:
/// input, a new size, a line to complete and the wish to close reach the device, each under the
/// terminal's own stream, and no frame does that would make the terminal fail. Only the wish to
/// close ends the client's side; nothing that is passed on ends the relay.
pub proof fn lemma_relay_passes_what_the_terminal_takes(relay: PtyRelay, kind: FrameKind)
    ensures
        ({
            let (action, after) = relay.after(RelayEvent::Client(kind));
            let done = device::terminal_action(
                relay.stream_id,
                PtyEvent::Frame { kind, stream_id: relay.stream_id },
            );
            &&& action is Fail <==> done is Fail
            &&& action is Fail || action is Forward || action is ForwardLast
            &&& action is ForwardLast <==> done is Close
            &&& kind == FrameKind::PtyInput ==> done is Write
            &&& kind == FrameKind::PtyResize ==> done is Resize
            &&& kind == FrameKind::PtyComplete ==> done is Complete
            &&& kind == FrameKind::PtyClose ==> done is Close
            &&& after.ended == (relay.ended || action is Fail)
            &&& action is Forward ==> after == relay
            &&& !(action is Fail) ==> after.client_reads == relay.client_reads
        }),
{
}

/// A frame of the device under the terminal's stream always reaches a client that reads, and the
/// relay ends with it exactly when it is the exit of the program or an error; a frame of another
/// stream never does. While the client is there, nothing but that and its own faults ends the
/// relay.
pub proof fn lemma_relay_delivers_until_the_end(relay: PtyRelay, event: RelayEvent)
    requires
        !relay.ended,
    ensures
        ({
            let (action, after) = relay.after(event);
            &&& event matches RelayEvent::Device { kind, stream_id } ==> {
                &&& action is Deliver <==> stream_id == relay.stream_id
                &&& action matches RelayAction::Deliver { write, done } ==> {
                    &&& write == relay.client_reads
                    &&& done == after.ended
                    &&& done <==> kind == FrameKind::PtyExit || kind == FrameKind::Error
                }
            }
            &&& after.ended ==> event is Device || event is Client || event is DrainTimeout
            &&& event is ClientGone ==> action is Close && !after.ended && !after.client_writes
                && after.client_reads == relay.client_reads
            &&& event is ClientWriteFailed ==> action is Nothing && !after.ended
                && after.client_writes == relay.client_writes
        }),
{
}

/// A request has one answer exactly if nothing stands against it, and every request but the one
/// for the list of devices is for the device that it names, or for the one that the server
/// chooses where it names none.
pub proof fn lemma_requests_are_for_their_device(request: ControlRequest)
    ensures
        request.route() is Answer <==> request.streams() is None,
        request.target() is None <==> request is Devices,
        request matches ControlRequest::Ping { device: d } ==> request.target() == Some(text_of(d)),
        request matches ControlRequest::Exec { device: d, .. } ==> request.target() == Some(
            text_of(d),
        ),
        request matches ControlRequest::ExecStream { device: d, .. } ==> request.target() == Some(
            text_of(d),
        ) && request.route() is ExecStream,
        request matches ControlRequest::Push { device: d, .. } ==> request.target() == Some(
            text_of(d),
        ),
        request matches ControlRequest::Pull { device: d, .. } ==> request.target() == Some(
            text_of(d),
        ),
        request matches ControlRequest::Pty { device: d, .. } ==> request.target() == Some(
            text_of(d),
        ) && request.route() is Pty,
        request matches ControlRequest::ClipboardGet { device: d } ==> request.target() == Some(
            text_of(d),
        ),
        request matches ControlRequest::ClipboardSet { device: d, .. } ==> request.target() == Some(
            text_of(d),
        ),
        request matches ControlRequest::ClipboardClear { device: d } ==> request.target() == Some(
            text_of(d),
        ),
        request matches ControlRequest::Forward { device: d, .. } ==> request.target() == Some(
            text_of(d),
        ),
        request matches ControlRequest::Reverse { device: d, .. } ==> request.target() == Some(
            text_of(d),
        ),
{
}

/// The command line is told of a failure exactly where there was one, and in the words of whatever
/// failed. What a device printed, how long it took and what its clipboard holds come through
/// unchanged, and of a file that was moved the number of bytes is told.
pub proof fn lemma_outcomes_come_through(outcome: Result<Outcome, String>, r: ControlResponse)
    requires
        is_response(outcome, r),
    ensures
        r is Error <==> outcome is Err,
        r matches ControlResponse::Error { message } ==> outcome == Err::<Outcome, String>(message),
        r matches ControlResponse::Pong { latency_ms } ==> outcome == Ok::<Outcome, String>(
            Outcome::Latency(latency_ms),
        ),
        r matches ControlResponse::Exec { stdout, stderr, code } ==> outcome == Ok::<
            Outcome,
            String,
        >(Outcome::Exec { stdout, stderr, code }),
        r matches ControlResponse::Clipboard { text: t } ==> outcome == Ok::<Outcome, String>(
            Outcome::Clipboard(t),
        ),
        !(r is Devices),
        (outcome matches Ok(Outcome::Pushed(n)) ==> (r matches ControlResponse::Done { message }
            && message@.len() > 13 && text::parse_unsigned(
            message@.subrange(7, message@.len() - 6),
            u64::MAX as nat,
        ) == Some(n as nat))),
        (outcome matches Ok(Outcome::Pulled(n)) ==> (r matches ControlResponse::Done { message }
            && message@.len() > 13 && text::parse_unsigned(
            message@.subrange(7, message@.len() - 6),
            u64::MAX as nat,
        ) == Some(n as nat))),
{
    reveal_strlit("pushed ");
    reveal_strlit("pulled ");
    reveal_strlit(" bytes");
    if let Ok(Outcome::Pushed(n)) = outcome {
        text::lemma_decimal_round_trip(n as nat, u64::MAX as nat);
        text::lemma_decimal_value(n as nat);
        if let ControlResponse::Done { message } = r {
            assert(message@.subrange(7, message@.len() - 6) =~= text::decimal(n as nat));
        }
    }
    if let Ok(Outcome::Pulled(n)) = outcome {
        text::lemma_decimal_round_trip(n as nat, u64::MAX as nat);
        text::lemma_decimal_value(n as nat);
        if let ControlResponse::Done { message } = r {
            assert(message@.subrange(7, message@.len() - 6) =~= text::decimal(n as nat));
        }
    }
}

/// A terminal is open once the device has acknowledged it, and refused once the device has
/// reported an error; what ends a terminal never opens one.
pub proof fn lemma_terminal_is_opened_once(kind: FrameKind)
    ensures
        opened_by(kind) == Ok::<Opened, RelayError>(Opened::Yes) <==> kind == FrameKind::PtyOpenAck,
        opened_by(kind) == Ok::<Opened, RelayError>(Opened::No) <==> kind == FrameKind::Error,
        ends_terminal(kind) ==> opened_by(kind) != Ok::<Opened, RelayError>(Opened::Yes),
{
}

} // verus!
