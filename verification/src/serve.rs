//! The device's side of a session: what the peers agree on at its beginning, and where each
//! frame of the host goes.

use std::collections::HashSet;
use vstd::prelude::*;
use vstd::string::*;
use crate::capabilities;
use crate::capabilities::{CLIPBOARD, CORE, FLOW_CONTROL, HEARTBEAT, PTY_COMPLETION, SECURE_PROXY, STREAM_CANCEL};
use crate::frame;
use crate::frame::{negotiated_version, protocol_minor, Frame, FrameKind};
use crate::mux;
use crate::mux::{MuxError, MuxState, MuxView};
use crate::text;

verus! {

broadcast use vstd::std_specs::hash::group_hash_axioms;

pub const STREAM_ROUTE_CAPACITY: usize = 16;

/// A host that answers heartbeats is gone after so many seconds of silence.
pub const HOST_SILENCE_TIMEOUT_SECS: u64 = 45;

pub const CONNECTION_SETUP_TIMEOUT_SECS: u64 = 10;

pub const STREAM_CANCEL_PROTOCOL_MINOR: u8 = 1;

pub const FLOW_CONTROL_PROTOCOL_MINOR: u8 = 2;

/// What this device can do; the clipboard only with its helper.
pub open spec fn offered(clipboard: bool) -> u64 {
    if clipboard {
        capabilities::ALL
    } else {
        (capabilities::ALL - CLIPBOARD) as u64
    }
}

/// What this device can do; the clipboard only with its helper.
pub fn daemon_capabilities(clipboard: bool) -> (r: u64)
    ensures
        r == offered(clipboard),
{
    let base: u64 = CORE | PTY_COMPLETION | SECURE_PROXY | HEARTBEAT | STREAM_CANCEL | FLOW_CONTROL;
    assert(1u64 | 2 | 4 | 16 | 32 | 64 == 119) by (bit_vector);
    assert(119u64 | 8 == 127) by (bit_vector);
    if clipboard {
        base | CLIPBOARD
    } else {
        base
    }
}

/// Why a session ends or does not begin.
#[derive(Debug, Clone, Copy, PartialEq, Eq, Structural)]
pub enum ServeError {
    ExpectedHello,
    ExpectedHelloAck,
    Incompatible,
    NoCore,
    SetupTimedOut,
    Silent,
    CancelRouteExists(u32),
    Mux(MuxError),
}

impl ServeError {
    pub open spec fn text(self) -> Seq<char> {
        match self {
            ServeError::ExpectedHello => "expected host Hello"@,
            ServeError::ExpectedHelloAck => "expected host HelloAck"@,
            ServeError::Incompatible => "host protocol major is incompatible"@,
            ServeError::NoCore => "host does not advertise the core capability"@,
            ServeError::SetupTimedOut => "SideWire connection handshake timed out"@,
            ServeError::Silent => "host heartbeat timeout"@,
            ServeError::CancelRouteExists(id) => "stream "@ + text::decimal(id as nat)
                + " already has a cancellation route"@,
            ServeError::Mux(e) => e.text(),
        }
    }

    pub fn message(self) -> (r: String)
        ensures
            r@ == self.text(),
    {
        match self {
            ServeError::ExpectedHello => String::from_str("expected host Hello"),
            ServeError::ExpectedHelloAck => String::from_str("expected host HelloAck"),
            ServeError::Incompatible => String::from_str("host protocol major is incompatible"),
            ServeError::NoCore => String::from_str("host does not advertise the core capability"),
            ServeError::SetupTimedOut => String::from_str(
                "SideWire connection handshake timed out",
            ),
            ServeError::Silent => String::from_str("host heartbeat timeout"),
            ServeError::CancelRouteExists(id) => text::cat_number(
                "stream ",
                id as u64,
                " already has a cancellation route",
            ),
            ServeError::Mux(e) => e.message(),
        }
    }
}

/// What a device makes of the first frame of the host.
pub open spec fn first_of_host(kind: FrameKind, inbound: bool) -> Result<(), ServeError> {
    if inbound && kind != FrameKind::Hello {
        Err(ServeError::ExpectedHello)
    } else if !inbound && kind != FrameKind::HelloAck {
        Err(ServeError::ExpectedHelloAck)
    } else {
        Ok(())
    }
}

/// The first frame of the host: a greeting to a device that was called, an answer to a device
/// that called.
pub fn check_first_frame(kind: FrameKind, inbound: bool) -> (r: Result<(), ServeError>)
    ensures
        r == first_of_host(kind, inbound),
{
    if inbound {
        if kind != FrameKind::Hello {
            return Err(ServeError::ExpectedHello);
        }
    } else if kind != FrameKind::HelloAck {
        return Err(ServeError::ExpectedHelloAck);
    }
    Ok(())
}

/// What a device makes of a host.
pub open spec fn host_taken(version: u16, host_capabilities: u64) -> Result<u16, ServeError> {
    match frame::negotiated(version) {
        None => Err(ServeError::Incompatible),
        Some(agreed) => if capabilities::has(host_capabilities, CORE) {
            Ok(agreed)
        } else {
            Err(ServeError::NoCore)
        },
    }
}

/// The version to speak with a host that greeted or answered; an error for a host that cannot
/// be spoken with.
pub fn check_host(version: u16, host_capabilities: u64) -> (r: Result<u16, ServeError>)
    ensures
        r == host_taken(version, host_capabilities),
{
    match negotiated_version(version) {
        None => Err(ServeError::Incompatible),
        Some(agreed) => {
            if host_capabilities & CORE == 0 {
                return Err(ServeError::NoCore);
            }
            Ok(agreed)
        },
    }
}

/// What both peers of a session can do.
#[derive(Debug, Clone, Copy, PartialEq, Eq, Structural)]
pub struct Link {
    pub capabilities: u64,
    pub stream_cancel: bool,
    pub flow_control: bool,
    pub heartbeat: bool,
}

impl Link {
    /// How long to wait for the next frame of the host, in seconds; `None` without end.
    pub open spec fn silence(self) -> Option<u64> {
        if self.heartbeat {
            Some(HOST_SILENCE_TIMEOUT_SECS)
        } else {
            None
        }
    }

    /// How long to wait for the next frame of the host, in seconds.
    pub fn silence_limit(self) -> (r: Option<u64>)
        ensures
            r == self.silence(),
    {
        if self.heartbeat {
            Some(HOST_SILENCE_TIMEOUT_SECS)
        } else {
            None
        }
    }
}

/// Something can be used when both peers have the capability, and cancellation and flow control
/// when the protocol version has them as well.
pub open spec fn linked(local: u64, peer: u64, protocol: u16) -> Link {
    Link {
        capabilities: local & peer,
        stream_cancel: frame::minor(protocol) >= STREAM_CANCEL_PROTOCOL_MINOR && capabilities::has(
            local & peer,
            STREAM_CANCEL,
        ),
        flow_control: frame::minor(protocol) >= FLOW_CONTROL_PROTOCOL_MINOR && capabilities::has(
            local & peer,
            FLOW_CONTROL,
        ),
        heartbeat: capabilities::has(local & peer, HEARTBEAT),
    }
}

/// What two peers can do together.
pub fn link(local: u64, peer: u64, protocol: u16) -> (r: Link)
    ensures
        r == linked(local, peer, protocol),
{
    let both: u64 = local & peer;
    let minor: u8 = protocol_minor(protocol);
    Link {
        capabilities: both,
        stream_cancel: minor >= STREAM_CANCEL_PROTOCOL_MINOR && both & STREAM_CANCEL != 0,
        flow_control: minor >= FLOW_CONTROL_PROTOCOL_MINOR && both & FLOW_CONTROL != 0,
        heartbeat: both & HEARTBEAT != 0,
    }
}

/// What two peers can do together does not depend on which of them asks, and it is only what both
/// can do.
pub proof fn lemma_link_symmetric(local: u64, peer: u64, protocol: u16, bit: u64)
    ensures
        linked(local, peer, protocol) == linked(peer, local, protocol),
        capabilities::has(linked(local, peer, protocol).capabilities, bit) ==> capabilities::has(
            local,
            bit,
        ) && capabilities::has(peer, bit),
{
    assert(local & peer == peer & local) by (bit_vector);
    assert((local & peer) & bit != 0 ==> local & bit != 0 && peer & bit != 0) by (bit_vector);
}

/// What serves a request of the host.
#[derive(Debug, Clone, Copy, PartialEq, Eq, Structural)]
pub enum Handler {
    Exec,
    Push,
    Pull,
    Pty,
    ClipboardGet,
    ClipboardSet,
    ClipboardClear,
    Proxy,
}

impl Handler {
    /// Later frames of the stream are for the handler.
    pub open spec fn has_inbox(self) -> bool {
        self == Handler::Push || self == Handler::Pty
    }

    /// The handler is told when the host cancels the stream.
    pub open spec fn hears_cancel(self) -> bool {
        self != Handler::Pty
    }

    /// The handler sends file data.
    pub open spec fn sends_file(self) -> bool {
        self == Handler::Pull
    }

    fn inbox(self) -> (r: bool)
        ensures
            r == self.has_inbox(),
    {
        match self {
            Handler::Push | Handler::Pty => true,
            _ => false,
        }
    }

    fn cancel(self) -> (r: bool)
        ensures
            r == self.hears_cancel(),
    {
        match self {
            Handler::Pty => false,
            _ => true,
        }
    }
}

/// The handler of a request.
pub open spec fn handler_of(kind: FrameKind) -> Option<Handler> {
    match kind {
        FrameKind::ExecRequest => Some(Handler::Exec),
        FrameKind::PushRequest => Some(Handler::Push),
        FrameKind::PullRequest => Some(Handler::Pull),
        FrameKind::PtyOpen => Some(Handler::Pty),
        FrameKind::ClipboardGet => Some(Handler::ClipboardGet),
        FrameKind::ClipboardSet => Some(Handler::ClipboardSet),
        FrameKind::ClipboardClear => Some(Handler::ClipboardClear),
        FrameKind::ProxyStartRequest => Some(Handler::Proxy),
        _ => None,
    }
}

fn handler(kind: FrameKind) -> (r: Option<Handler>)
    ensures
        r == handler_of(kind),
{
    match kind {
        FrameKind::ExecRequest => Some(Handler::Exec),
        FrameKind::PushRequest => Some(Handler::Push),
        FrameKind::PullRequest => Some(Handler::Pull),
        FrameKind::PtyOpen => Some(Handler::Pty),
        FrameKind::ClipboardGet => Some(Handler::ClipboardGet),
        FrameKind::ClipboardSet => Some(Handler::ClipboardSet),
        FrameKind::ClipboardClear => Some(Handler::ClipboardClear),
        FrameKind::ProxyStartRequest => Some(Handler::Proxy),
        _ => None,
    }
}

/// Where a frame of the host goes.
#[derive(Debug, Clone, Copy, PartialEq, Eq, Structural)]
pub enum Dispatch {
    /// The host canceled the stream. `routed`: its inbox is closed. `signaled`: its handler is
    /// to be told.
    Canceled { routed: bool, signaled: bool },
    /// Into the inbox of the stream's handler.
    Deliver,
    /// To a new handler.
    Start(Handler),
    /// Back to the host, as a pong with the same payload.
    Pong,
    /// Nowhere: the host is told that the request is unknown.
    Unsupported,
}

/// What became of a frame for an inbox.
#[derive(Debug, Clone, Copy, PartialEq, Eq, Structural)]
pub enum Delivery {
    Taken,
    Full,
    Closed,
}

/// The streams of a session.
pub struct ServeState {
    pub routes: HashSet<u32>,
    pub cancels: HashSet<u32>,
    pub mux: MuxState,
}

/// The streams of a session.
#[verifier::ext_equal]
pub struct ServeView {
    /// The streams whose handlers have an inbox.
    pub routes: Set<u32>,
    /// The streams whose handlers hear of a cancellation.
    pub cancels: Set<u32>,
    pub mux: MuxView,
}

impl View for ServeState {
    type V = ServeView;

    open spec fn view(&self) -> ServeView {
        ServeView { routes: self.routes@, cancels: self.cancels@, mux: self.mux@ }
    }
}

impl ServeView {
    /// Nothing is known of a stream.
    pub open spec fn unknown(self, id: u32) -> bool {
        &&& !self.routes.contains(id)
        &&& !self.cancels.contains(id)
        &&& !self.mux.canceled.contains(id)
        &&& !self.mux.credits.contains_key(id)
    }

    /// A handler begins to serve a stream.
    pub open spec fn begun(self, handler: Handler, id: u32) -> ServeView {
        ServeView {
            routes: if handler.has_inbox() {
                self.routes.insert(id)
            } else {
                self.routes
            },
            cancels: if handler.hears_cancel() {
                self.cancels.insert(id)
            } else {
                self.cancels
            },
            mux: if handler.sends_file() && self.mux.flow && !self.cancels.contains(id) {
                self.mux.with_credit(id, 0)
            } else {
                self.mux
            },
        }
    }

    /// Why a handler cannot begin to serve a stream.
    pub open spec fn begin_fault(self, handler: Handler, id: u32) -> Option<ServeError> {
        if handler.hears_cancel() && self.cancels.contains(id) {
            Some(ServeError::CancelRouteExists(id))
        } else if handler.sends_file() && self.mux.flow && self.mux.credits.contains_key(id) {
            Some(ServeError::Mux(MuxError::FlowExists(id)))
        } else {
            None
        }
    }

    /// A handler has ended.
    pub open spec fn ended(self, handler: Handler, id: u32) -> ServeView {
        ServeView {
            routes: if handler.has_inbox() {
                self.routes.remove(id)
            } else {
                self.routes
            },
            cancels: if handler.hears_cancel() {
                self.cancels.remove(id)
            } else {
                self.cancels
            },
            mux: self.mux.finish(id),
        }
    }

    /// Whether the host is told of a handler that has failed or not.
    pub open spec fn reports(self, id: u32, failed: bool) -> bool {
        failed && !self.mux.canceled.contains(id)
    }

    /// A frame was offered to the inbox of a stream.
    pub open spec fn after_delivery(self, id: u32, delivery: Delivery) -> ServeView {
        match delivery {
            Delivery::Taken => self,
            Delivery::Closed => ServeView { routes: self.routes.remove(id), ..self },
            Delivery::Full => ServeView {
                routes: self.routes.remove(id),
                mux: self.mux.cancel_stream(id),
                ..self
            },
        }
    }

    /// The session has ended.
    pub open spec fn shut(self) -> ServeView {
        ServeView {
            routes: Set::empty(),
            cancels: Set::empty(),
            mux: MuxView {
                canceled: self.mux.canceled.union(self.routes).union(self.cancels),
                failed: true,
                ..self.mux
            },
        }
    }

    /// The host has canceled a stream.
    pub open spec fn host_canceled(self, id: u32) -> ServeView {
        ServeView {
            routes: self.routes.remove(id),
            cancels: self.cancels.remove(id),
            mux: self.mux.cancel_stream(id),
        }
    }

    /// Where a frame goes, and what the session is then.
    pub open spec fn dispatched(self, kind: FrameKind, id: u32) -> (
        Result<Dispatch, ServeError>,
        ServeView,
    ) {
        if kind == FrameKind::StreamCancel {
            (
                Ok(
                    Dispatch::Canceled {
                        routed: self.routes.contains(id),
                        signaled: self.cancels.contains(id),
                    },
                ),
                self.host_canceled(id),
            )
        } else if self.routes.contains(id) {
            (Ok(Dispatch::Deliver), self)
        } else {
            match handler_of(kind) {
                Some(handler) => match self.begin_fault(handler, id) {
                    Some(e) => (Err(e), self.begun(handler, id)),
                    None => (Ok(Dispatch::Start(handler)), self.begun(handler, id)),
                },
                None => if kind == FrameKind::Ping {
                    (Ok(Dispatch::Pong), self)
                } else {
                    (Ok(Dispatch::Unsupported), self)
                },
            }
        }
    }
}

impl ServeState {
    pub fn new(link: Link) -> (r: ServeState)
        ensures
            r@.routes == Set::<u32>::empty(),
            r@.cancels == Set::<u32>::empty(),
            r@.mux.canceled == Set::<u32>::empty(),
            r@.mux.credits == Map::<u32, usize>::empty(),
            !r@.mux.failed,
            r@.mux.cancel == link.stream_cancel,
            r@.mux.flow == link.flow_control,
            r@.mux.wf(),
    {
        ServeState {
            routes: HashSet::new(),
            cancels: HashSet::new(),
            mux: MuxState::new(link.stream_cancel, link.flow_control),
        }
    }

    /// Takes a frame of the host. An error ends the session.
    pub fn dispatch(&mut self, kind: FrameKind, stream_id: u32) -> (r: Result<Dispatch, ServeError>)
        ensures
            (r, final(self)@) == old(self)@.dispatched(kind, stream_id),
            old(self)@.mux.wf() ==> final(self)@.mux.wf(),
    {
        if kind == FrameKind::StreamCancel {
            self.mux.cancel_local(stream_id);
            let routed = self.routes.remove(&stream_id);
            let signaled = self.cancels.remove(&stream_id);
            return Ok(Dispatch::Canceled { routed, signaled });
        }
        if self.routes.contains(&stream_id) {
            return Ok(Dispatch::Deliver);
        }
        match handler(kind) {
            Some(handler) => match self.begin(handler, stream_id) {
                Err(e) => Err(e),
                Ok(()) => Ok(Dispatch::Start(handler)),
            },
            None => {
                if kind == FrameKind::Ping {
                    Ok(Dispatch::Pong)
                } else {
                    Ok(Dispatch::Unsupported)
                }
            },
        }
    }

    fn begin(&mut self, handler: Handler, stream_id: u32) -> (r: Result<(), ServeError>)
        ensures
            final(self)@ == old(self)@.begun(handler, stream_id),
            old(self)@.mux.wf() ==> final(self)@.mux.wf(),
            r == match old(self)@.begin_fault(handler, stream_id) {
                Some(e) => Err::<(), ServeError>(e),
                None => Ok(()),
            },
    {
        if handler.inbox() {
            self.routes.insert(stream_id);
        }
        if handler.cancel() {
            if !self.cancels.insert(stream_id) {
                return Err(ServeError::CancelRouteExists(stream_id));
            }
        }
        match handler {
            Handler::Pull => match self.mux.register_flow_stream(stream_id) {
                Err(e) => {
                    return Err(ServeError::Mux(e));
                },
                Ok(()) => {},
            },
            _ => {},
        }
        Ok(())
    }

    /// Accounts for a frame that was offered to an inbox. An inbox that is full costs the stream
    /// its life: the frame to send to the host is returned.
    pub fn delivered(&mut self, stream_id: u32, delivery: Delivery) -> (r: Option<Frame>)
        ensures
            final(self)@ == old(self)@.after_delivery(stream_id, delivery),
            match delivery {
                Delivery::Full => {
                    &&& r matches Some(f)
                    &&& f@.stream_id == stream_id
                    &&& f@.kind == old(self)@.mux.cancel_kind()
                    &&& f@.payload == vstd::utf8::encode_utf8(overflow_reason(stream_id))
                },
                _ => r is None,
            },
    {
        match delivery {
            Delivery::Taken => None,
            Delivery::Closed => {
                self.routes.remove(&stream_id);
                None
            },
            Delivery::Full => {
                self.routes.remove(&stream_id);
                let reason = text::cat_number(
                    "stream ",
                    stream_id as u64,
                    " receive queue overflow; stream canceled",
                );
                Some(self.mux.send_cancel(stream_id, reason.as_str()))
            },
        }
    }

    /// Accounts for a handler that has ended. The frame that tells the host of an error is
    /// returned, unless the stream was canceled.
    pub fn finished(&mut self, handler: Handler, stream_id: u32, result: Result<(), String>) -> (r:
        Option<Frame>)
        ensures
            final(self)@ == old(self)@.ended(handler, stream_id),
            old(self)@.mux.wf() ==> final(self)@.mux.wf(),
            r is Some <==> old(self)@.reports(stream_id, result is Err),
            r matches Some(f) ==> f@.kind == FrameKind::Error && f@.stream_id == stream_id
                && f@.payload == vstd::utf8::encode_utf8(result->Err_0@),
    {
        if handler.inbox() {
            self.routes.remove(&stream_id);
        }
        if handler.cancel() {
            self.cancels.remove(&stream_id);
        }
        let told = match result {
            Ok(()) => None,
            Err(message) => self.mux.send_error(stream_id, message.as_str()),
        };
        self.mux.finish_stream(stream_id);
        told
    }

    /// The answer to a request that this device does not know.
    pub fn unsupported(&mut self, kind: FrameKind, stream_id: u32) -> (r: Option<Frame>)
        ensures
            final(self)@ == (ServeView { mux: old(self)@.mux.finish(stream_id), ..old(self)@ }),
            old(self)@.mux.wf() ==> final(self)@.mux.wf(),
            r is None <==> old(self)@.mux.canceled.contains(stream_id),
            r matches Some(f) ==> f@.kind == FrameKind::Error && f@.stream_id == stream_id
                && f@.payload == vstd::utf8::encode_utf8("unsupported request "@ + kind.name()),
    {
        let message = text::cat2("unsupported request ", kind.label());
        let told = self.mux.send_error(stream_id, message.as_str());
        self.mux.finish_stream(stream_id);
        told
    }

    /// Ends the session: every stream is canceled. The streams whose handlers are to be told
    /// are those that hear of a cancellation.
    pub fn shutdown(&mut self)
        ensures
            final(self)@ == old(self)@.shut(),
    {
        cancel_all(&mut self.mux, &self.routes);
        self.routes.clear();
        cancel_all(&mut self.mux, &self.cancels);
        self.cancels.clear();
        self.mux.close();
        assert(self@ =~= old(self)@.shut());
    }
}

fn cancel_all(mux: &mut MuxState, ids: &HashSet<u32>)
    ensures
        final(mux)@ == (MuxView { canceled: old(mux)@.canceled.union(ids@), ..old(mux)@ }),
{
    let ghost before = mux@;
    proof {
        assert(before.canceled.union(Seq::<u32>::empty().to_set()) =~= before.canceled);
    }
    for id in it: ids.iter()
        invariant
            it.seq().unref().to_set() == ids@,
            mux@ == (MuxView {
                canceled: before.canceled.union(it.seq().unref().take(it.index()).to_set()),
                ..before
            }),
            it.index() == it.seq().len() ==> mux@.canceled == before.canceled.union(ids@),
    {
        mux.cancel_local(*id);
        proof {
            let s = it.seq().unref();
            let i = it.index();
            assert(s.take(i + 1) =~= s.take(i).push(s[i]));
            assert(s.take(i + 1).to_set() =~= s.take(i).to_set().insert(s[i])) by {
                assert forall|x: u32| s.take(i).to_set().insert(s[i]).contains(x) implies s.take(
                    i + 1,
                ).to_set().contains(x) by {
                    if x == s[i] {
                        assert(s.take(i + 1)[i] == x);
                    } else {
                        let k = choose|k: int| 0 <= k < s.take(i).len() && s.take(i)[k] == x;
                        assert(s.take(i + 1)[k] == x);
                    }
                }
            }
            assert(mux@.canceled =~= before.canceled.union(s.take(i + 1).to_set()));
            assert(i + 1 == s.len() ==> s.take(i + 1) =~= s);
        }
    }
}

/// Why a stream whose inbox is full is canceled.
pub open spec fn overflow_reason(id: u32) -> Seq<char> {
    "stream "@ + text::decimal(id as nat) + " receive queue overflow; stream canceled"@
}

/// A stream leaves no trace: once its handler has ended, the session is what it was before.
pub proof fn lemma_stream_leaves_no_trace(s: ServeView, handler: Handler, id: u32)
    requires
        s.unknown(id),
    ensures
        s.begin_fault(handler, id) is None,
        s.begun(handler, id).ended(handler, id) == s,
        s.begun(handler, id).host_canceled(id).ended(handler, id) == s,
{
    assert(s.begun(handler, id).ended(handler, id) =~= s);
    assert(s.begun(handler, id).host_canceled(id).ended(handler, id) =~= s);
    assert(s.begun(handler, id).ended(handler, id).mux =~= s.mux);
    assert(s.begun(handler, id).host_canceled(id).ended(handler, id).mux =~= s.mux);
}

/// A frame concerns only its own stream.
pub proof fn lemma_dispatch_is_stream_scoped(s: ServeView, kind: FrameKind, id: u32, other: u32)
    requires
        id != other,
    ensures
        ({
            let after = s.dispatched(kind, id).1;
            &&& after.routes.contains(other) == s.routes.contains(other)
            &&& after.cancels.contains(other) == s.cancels.contains(other)
            &&& after.mux.canceled.contains(other) == s.mux.canceled.contains(other)
            &&& after.mux.credits.contains_key(other) == s.mux.credits.contains_key(other)
            &&& after.mux.credits[other] == s.mux.credits[other]
        }),
{
}

/// A stream that the host has canceled has no inbox any more, and its handler's errors are not
/// reported.
pub proof fn lemma_canceled_stream_is_silent(s: ServeView, id: u32)
    ensures
        ({
            let after = s.dispatched(FrameKind::StreamCancel, id).1;
            &&& !after.routes.contains(id)
            &&& !after.cancels.contains(id)
            &&& after.mux.canceled.contains(id)
        }),
{
}

/// What two peers can use together is exactly what both of them offer: cancellation from the first
/// minor version on, flow control from the second, a heartbeat in any. Two peers of this version
/// that offer everything have all of it but flow control.
pub proof fn lemma_link_is_what_both_offer(local: u64, peer: u64, protocol: u16, bit: u64)
    requires
        bit == 1 || bit == 2 || bit == 4 || bit == 8 || bit == 16 || bit == 32 || bit == 64,
    ensures
        ({
            let link = linked(local, peer, protocol);
            let both = capabilities::has(local, bit) && capabilities::has(peer, bit);
            &&& capabilities::has(link.capabilities, bit) <==> both
            &&& bit == 32 ==> (link.stream_cancel <==> both && protocol % 256 >= 1)
            &&& bit == 64 ==> (link.flow_control <==> both && protocol % 256 >= 2)
            &&& bit == 16 ==> (link.heartbeat <==> both)
        }),
{
    assert(bit == 1 || bit == 2 || bit == 4 || bit == 8 || bit == 16 || bit == 32 || bit == 64 ==> (
    local & peer & bit != 0 <==> local & bit != 0 && peer & bit != 0)) by (bit_vector);
    assert(local & peer & 32u64 != 0 <==> local & 32u64 != 0 && peer & 32u64 != 0) by (bit_vector);
    assert(local & peer & 64u64 != 0 <==> local & 64u64 != 0 && peer & 64u64 != 0) by (bit_vector);
    assert(local & peer & 16u64 != 0 <==> local & 16u64 != 0 && peer & 16u64 != 0) by (bit_vector);
}

/// Each kind of request has a handler of its own, and every handler serves one; a request on a
/// stream that nothing is known of starts its handler, and the handler alone. A ping is answered,
/// and whatever else comes unasked is refused; neither leaves a trace.
pub proof fn lemma_requests_are_served(s: ServeView, id: u32, a: FrameKind, b: FrameKind)
    requires
        s.unknown(id),
        a != FrameKind::StreamCancel,
    ensures
        handler_of(a) is Some && handler_of(a) == handler_of(b) ==> a == b,
        handler_of(a) matches Some(handler) ==> s.dispatched(a, id).0 == Ok::<Dispatch, ServeError>(
            Dispatch::Start(handler),
        ) && s.dispatched(a, id).1 == s.begun(handler, id),
        handler_of(a) is None ==> s.dispatched(a, id).1 == s && (s.dispatched(a, id).0 == Ok::<
            Dispatch,
            ServeError,
        >(
            if a == FrameKind::Ping {
                Dispatch::Pong
            } else {
                Dispatch::Unsupported
            },
        )),
        handler_of(FrameKind::ExecRequest) == Some(Handler::Exec),
        handler_of(FrameKind::PushRequest) == Some(Handler::Push),
        handler_of(FrameKind::PullRequest) == Some(Handler::Pull),
        handler_of(FrameKind::PtyOpen) == Some(Handler::Pty),
        handler_of(FrameKind::ClipboardGet) == Some(Handler::ClipboardGet),
        handler_of(FrameKind::ClipboardSet) == Some(Handler::ClipboardSet),
        handler_of(FrameKind::ClipboardClear) == Some(Handler::ClipboardClear),
        handler_of(FrameKind::ProxyStartRequest) == Some(Handler::Proxy),
{
}

/// What comes later on a stream reaches the handler that has an inbox, whatever kind it is, until
/// the host cancels the stream; that a handler which does not take frames is canceled is told to
/// it once.
pub proof fn lemma_stream_belongs_to_its_handler(
    s: ServeView,
    id: u32,
    handler: Handler,
    kind: FrameKind,
)
    requires
        s.unknown(id),
    ensures
        ({
            let busy = s.begun(handler, id);
            &&& handler == Handler::Push || handler == Handler::Pty ==> (kind
                != FrameKind::StreamCancel ==> busy.dispatched(kind, id) == (
                Ok::<Dispatch, ServeError>(Dispatch::Deliver),
                busy,
            ))
            &&& busy.dispatched(FrameKind::StreamCancel, id).0 == Ok::<Dispatch, ServeError>(
                Dispatch::Canceled {
                    routed: handler == Handler::Push || handler == Handler::Pty,
                    signaled: handler != Handler::Pty,
                },
            )
            &&& busy.dispatched(FrameKind::StreamCancel, id).1.dispatched(
                FrameKind::StreamCancel,
                id,
            ).0 == Ok::<Dispatch, ServeError>(
                Dispatch::Canceled { routed: false, signaled: false },
            )
        }),
{
}

/// The host hears of every handler that fails, unless it has canceled the stream itself or was
/// told already that the stream is canceled, and of none that succeeds.
pub proof fn lemma_failures_are_reported_once(s: ServeView, id: u32, other: u32)
    requires
        s.unknown(id),
        id != other,
    ensures
        s.reports(id, true),
        !s.reports(id, false),
        !s.dispatched(FrameKind::StreamCancel, id).1.reports(id, true),
        !s.after_delivery(id, Delivery::Full).reports(id, true),
        s.after_delivery(id, Delivery::Taken).reports(id, true),
        s.after_delivery(id, Delivery::Closed).reports(id, true),
        s.dispatched(FrameKind::StreamCancel, other).1.reports(id, true),
        s.after_delivery(other, Delivery::Full).reports(id, true),
{
}

/// An inbox that took a frame stays open; one that is full or closed takes no more, and a full one
/// cancels its stream. Other streams are not touched.
pub proof fn lemma_full_inbox_costs_its_stream(
    s: ServeView,
    id: u32,
    delivery: Delivery,
    other: u32,
    kind: FrameKind,
)
    requires
        s.routes.contains(id),
        kind != FrameKind::StreamCancel,
    ensures
        ({
            let after = s.after_delivery(id, delivery);
            &&& after.dispatched(kind, id).0 == Ok::<Dispatch, ServeError>(Dispatch::Deliver)
                <==> delivery == Delivery::Taken
            &&& !s.mux.canceled.contains(id) ==> (after.mux.canceled.contains(id) <==> delivery
                == Delivery::Full)
            &&& other != id ==> (after.routes.contains(other) <==> s.routes.contains(other)) && (
            after.mux.canceled.contains(other) <==> s.mux.canceled.contains(other))
            &&& after.cancels == s.cancels
        }),
{
}

/// Once a session has ended, every stream that had a handler is canceled, nothing is delivered any
/// more, and nothing is sent: a stream that waits for credit is refused.
pub proof fn lemma_ended_session_is_silent(s: ServeView, id: u32, bytes: nat)
    ensures
        s.shut().mux.failed,
        s.routes.contains(id) || s.cancels.contains(id) ==> s.shut().mux.canceled.contains(id)
            && !s.shut().reports(id, true),
        !s.shut().routes.contains(id),
        !s.shut().cancels.contains(id),
        s.mux.canceled.contains(id) ==> s.shut().mux.canceled.contains(id),
        s.mux.flow && bytes > 0 ==> s.shut().mux.attempted(FrameKind::FileChunk, id, bytes).0
            is Refused,
{
}

} // verus!
