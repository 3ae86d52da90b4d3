//! The host's streams over one connection to a device: how they are numbered, where frames go,
//! and what ends them.

use vstd::prelude::*;
use vstd::set_lib::*;
use vstd::string::*;
use std::collections::HashSet;
use crate::bytes;
use crate::capabilities;
use crate::capabilities::STREAM_CANCEL;
use crate::frame;
use crate::frame::{protocol_minor, Frame, FrameKind};
use crate::serve;
use crate::serve::Delivery;
use crate::text;

verus! {

broadcast use vstd::std_specs::hash::group_hash_axioms;

/// How many frames may wait for the reader of a stream.
pub const ROUTE_CAPACITY: usize = 16;

/// The first minor version that knows how to cancel a stream.
pub const STREAM_CANCEL_PROTOCOL_MINOR: u8 = 1;

/// Why a stream cannot go on.
#[derive(Debug)]
pub enum StreamError {
    Closed,
    ClosedWhileActive,
    WriterStopped,
    Mismatch { frame: u32, stream: u32 },
    Canceled(String),
}

impl StreamError {
    pub open spec fn text(self) -> Seq<char> {
        match self {
            StreamError::Closed => "device connection is closed"@,
            StreamError::ClosedWhileActive => "device connection closed while stream was active"@,
            StreamError::WriterStopped => "device connection writer stopped"@,
            StreamError::Mismatch { frame, stream } => "frame stream "@ + text::decimal(
                frame as nat,
            ) + " does not match routed stream "@ + text::decimal(stream as nat),
            StreamError::Canceled(reason) => reason@,
        }
    }

    pub fn message(self) -> (r: String)
        ensures
            r@ == self.text(),
    {
        match self {
            StreamError::Closed => String::from_str("device connection is closed"),
            StreamError::ClosedWhileActive => String::from_str(
                "device connection closed while stream was active",
            ),
            StreamError::WriterStopped => String::from_str("device connection writer stopped"),
            StreamError::Mismatch { frame, stream } => {
                let mut out = text::cat_number(
                    "frame stream ",
                    frame as u64,
                    " does not match routed stream ",
                );
                out.append(text::decimal_string(stream as u64).as_str());
                out
            },
            StreamError::Canceled(reason) => reason,
        }
    }
}

/// The streams that are open on a connection.
pub struct Router {
    pub routes: HashSet<u32>,
    pub next_stream_id: u32,
    pub closed: bool,
    pub supports_stream_cancel: bool,
}

/// The streams that are open on a connection.
#[verifier::ext_equal]
pub struct RouterView {
    pub routes: Set<u32>,
    pub next: u32,
    pub closed: bool,
    pub cancel: bool,
}

impl View for Router {
    type V = RouterView;

    open spec fn view(&self) -> RouterView {
        RouterView {
            routes: self.routes@,
            next: self.next_stream_id,
            closed: self.closed,
            cancel: self.supports_stream_cancel,
        }
    }
}

/// Where a frame from the device goes.
#[derive(Debug)]
pub enum Routed {
    /// To the reader of its stream.
    Deliver,
    /// Nowhere: its stream is canceled, for this reason.
    Cancel(String),
    /// Nowhere: the answer to a heartbeat came too late.
    LatePong,
    /// Nowhere: its stream is not open.
    Inactive,
}

/// How many numbers, counted round the clock, lie from one number to another.
pub open spec fn ahead(from: u32, to: u32) -> int {
    if to >= from {
        to - from
    } else {
        to - from + 0x1_0000_0000
    }
}

/// The number after a number, round the clock.
pub open spec fn following(id: u32) -> u32 {
    if id == u32::MAX {
        0
    } else {
        (id + 1) as u32
    }
}

/// Why a stream was canceled by the device.
pub open spec fn remote_reason(id: u32, payload: Seq<u8>) -> Seq<char> {
    if payload.len() == 0 {
        "remote canceled stream "@ + text::decimal(id as nat)
    } else {
        text::lossy(payload)
    }
}

impl RouterView {
    /// Whether a number may be given to a new stream.
    pub open spec fn free(self, id: u32) -> bool {
        id != 0 && !self.routes.contains(id)
    }

    /// Whether frames may join the writer's queue.
    pub open spec fn takes_frames(self) -> bool {
        !self.closed
    }

    /// Everything ends.
    pub open spec fn all_closed(self) -> RouterView {
        RouterView { routes: Set::empty(), closed: true, ..self }
    }

    /// Whether the device is told of a canceled stream.
    pub open spec fn tells(self) -> bool {
        self.cancel && !self.closed
    }

    pub open spec fn without(self, id: u32) -> RouterView {
        RouterView { routes: self.routes.remove(id), ..self }
    }

    /// Whether a stream with a number may be the next, and what is open then.
    pub open spec fn opens(self, id: u32, after: RouterView) -> bool {
        &&& !self.closed
        &&& self.free(id)
        &&& forall|other: u32|
            ahead(self.next, other) < ahead(self.next, id) ==> !#[trigger] self.free(other)
        &&& after == (RouterView {
            routes: self.routes.insert(id),
            next: following(id),
            ..self
        })
    }

    /// Where a frame goes, and what is open then.
    pub open spec fn routed(self, kind: FrameKind, id: u32) -> (RouteGoes, RouterView) {
        let goes = if !self.routes.contains(id) {
            if kind == FrameKind::Pong {
                RouteGoes::LatePong
            } else {
                RouteGoes::Inactive
            }
        } else if kind == FrameKind::StreamCancel {
            RouteGoes::Cancel
        } else {
            RouteGoes::Deliver
        };
        (
            goes,
            if kind == FrameKind::StreamCancel {
                self.without(id)
            } else {
                self
            },
        )
    }

    /// What is open after a frame was offered to the reader of a stream.
    pub open spec fn after_delivery(self, id: u32, delivery: Delivery) -> RouterView {
        match delivery {
            Delivery::Taken => self,
            _ => self.without(id),
        }
    }
}

/// Whether a peer of a version and with some capabilities knows cancel frames.
pub open spec fn knows_cancel(protocol: u16, peer_capabilities: u64) -> bool {
    frame::minor(protocol) >= STREAM_CANCEL_PROTOCOL_MINOR && capabilities::has(
        peer_capabilities,
        STREAM_CANCEL,
    )
}

/// Where a frame from the device goes, apart from what is said of it.
pub enum RouteGoes {
    Deliver,
    Cancel,
    LatePong,
    Inactive,
}

/// Whether a frame cancels a stream for a reason.
pub open spec fn is_cancel(f: Frame, id: u32, reason: Seq<char>) -> bool {
    &&& f@.kind == FrameKind::StreamCancel
    &&& f@.stream_id == id
    &&& f@.payload == vstd::utf8::encode_utf8(reason)
}

proof fn lemma_some_free(routes: Set<u32>)
    requires
        routes.len() < u32::MAX,
    ensures
        exists|id: u32| id != 0 && !routes.contains(id),
{
    let every = set_int_range(0, 0x1_0000_0000);
    let ids = every.map(|n: int| n as u32);
    lemma_int_range(0, 0x1_0000_0000);
    lemma_map_size_bound(every, ids, |n: int| n as u32);
    assert forall|id: u32| routes.contains(id) implies ids.contains(id) by {
        assert(every.contains(id as int));
        assert((id as int) as u32 == id);
    }
    lemma_len_subset(routes, ids);
    if forall|id: u32| id != 0 ==> routes.contains(id) {
        let numbers = routes.map(|id: u32| id as int);
        lemma_map_size(routes, numbers, |id: u32| id as int);
        let all = set_int_range(1, 0x1_0000_0000);
        lemma_int_range(1, 0x1_0000_0000);
        assert(all.subset_of(numbers)) by {
            assert forall|n: int| all.contains(n) implies numbers.contains(n) by {
                let id = n as u32;
                assert(id != 0 && routes.contains(id));
                assert(n == id as int);
            }
        }
        lemma_len_subset(all, numbers);
    }
}

impl Router {
    /// A connection without streams, to a peer of a version and with some capabilities.
    pub fn new(protocol: u16, peer_capabilities: u64) -> (r: Router)
        ensures
            r@ == (RouterView {
                routes: Set::empty(),
                next: 1,
                closed: false,
                cancel: knows_cancel(protocol, peer_capabilities),
            }),
    {
        Router {
            routes: HashSet::new(),
            next_stream_id: 1,
            closed: false,
            supports_stream_cancel: protocol_minor(protocol) >= STREAM_CANCEL_PROTOCOL_MINOR
                && peer_capabilities & STREAM_CANCEL != 0,
        }
    }

    /// Opens a stream: it gets the next number that is not zero and not in use.
    pub fn open_stream(&mut self) -> (r: Result<u32, StreamError>)
        requires
            old(self)@.routes.len() < u32::MAX,
        ensures
            match r {
                Err(e) => e == StreamError::Closed && old(self)@.closed && final(self)@ == old(self)@,
                Ok(id) => old(self)@.opens(id, final(self)@),
            },
    {
        if self.closed {
            return Err(StreamError::Closed);
        }
        let ghost start = self@;
        proof {
            lemma_some_free(self@.routes);
        }
        let ghost some = choose|id: u32| id != 0 && !self@.routes.contains(id);
        loop
            invariant
                self@ == (RouterView { next: self@.next, ..start }),
                old(self)@ == start,
                !start.closed,
                start.free(some),
                ahead(start.next, self@.next) + ahead(self@.next, some) == ahead(start.next, some),
                forall|other: u32|
                    ahead(start.next, other) < ahead(start.next, self@.next)
                        ==> !#[trigger] start.free(other),
            decreases ahead(self@.next, some),
        {
            let id = self.next_stream_id;
            self.next_stream_id = if id == u32::MAX {
                0
            } else {
                id + 1
            };
            if id == 0 || self.routes.contains(&id) {
                assert(!start.free(id));
                assert(id != some);
                continue ;
            }
            self.routes.insert(id);
            return Ok(id);
        }
    }

    /// Where a frame from the device goes. A stream that the device cancels is open no more.
    pub fn route(&mut self, kind: FrameKind, stream_id: u32, payload: &[u8]) -> (r: Routed)
        ensures
            ({
                let (goes, after) = old(self)@.routed(kind, stream_id);
                &&& final(self)@ == after
                &&& match r {
                    Routed::Cancel(reason) => goes is Cancel && reason@ == remote_reason(
                        stream_id,
                        payload@,
                    ),
                    Routed::Deliver => goes is Deliver,
                    Routed::LatePong => goes is LatePong,
                    Routed::Inactive => goes is Inactive,
                }
            }),
    {
        if kind == FrameKind::StreamCancel {
            if !self.routes.contains(&stream_id) {
                assert(self@ =~= old(self)@.without(stream_id));
                return Routed::Inactive;
            }
            self.routes.remove(&stream_id);
            if payload.len() == 0 {
                return Routed::Cancel(
                    text::cat2(
                        "remote canceled stream ",
                        text::decimal_string(stream_id as u64).as_str(),
                    ),
                );
            }
            return Routed::Cancel(text::lossy_text(payload));
        }
        if self.routes.contains(&stream_id) {
            Routed::Deliver
        } else if kind == FrameKind::Pong {
            Routed::LatePong
        } else {
            Routed::Inactive
        }
    }

    fn cancel_frame(&self, stream_id: u32, reason: &str) -> (r: Option<Frame>)
        ensures
            r is Some <==> self@.tells(),
            r matches Some(f) ==> is_cancel(f, stream_id, reason@),
    {
        if !self.supports_stream_cancel || self.closed {
            return None;
        }
        Some(
            Frame {
                kind: FrameKind::StreamCancel,
                stream_id,
                payload: bytes::copy(reason.as_bytes()),
            },
        )
    }

    /// Accounts for a frame that was offered to the reader of a stream. A reader that has too
    /// much waiting costs the stream its life: the reason is returned, and the frame that tells
    /// the device.
    pub fn delivered(&mut self, stream_id: u32, delivery: Delivery) -> (r: Option<
        (String, Option<Frame>),
    >)
        ensures
            final(self)@ == old(self)@.after_delivery(stream_id, delivery),
            r is Some <==> delivery == Delivery::Full,
            r matches Some(lost) ==> {
                &&& lost.0@ == serve::overflow_reason(stream_id)
                &&& lost.1 is Some <==> old(self)@.tells()
                &&& lost.1 matches Some(f) ==> is_cancel(f, stream_id, lost.0@)
            },
    {
        match delivery {
            Delivery::Taken => None,
            Delivery::Closed => {
                self.routes.remove(&stream_id);
                None
            },
            Delivery::Full => {
                self.routes.remove(&stream_id);
                let reason = text::cat_number(
                    "stream ",
                    stream_id as u64,
                    " receive queue overflow; stream canceled",
                );
                let told = self.cancel_frame(stream_id, reason.as_str());
                Some((reason, told))
            },
        }
    }

    /// Forgets a stream that is used no more. The device is told if the stream had not ended.
    pub fn drop_stream(&mut self, stream_id: u32, completed: bool) -> (r: Option<Frame>)
        ensures
            final(self)@ == old(self)@.without(stream_id),
            r is Some <==> !completed && old(self)@.tells(),
            r matches Some(f) ==> is_cancel(
                f,
                stream_id,
                "local stream dropped before completion"@,
            ),
    {
        self.routes.remove(&stream_id);
        if completed {
            return None;
        }
        self.cancel_frame(stream_id, "local stream dropped before completion")
    }

    /// Closes the connection and with it all streams; tells whether it was still open.
    pub fn close(&mut self) -> (r: bool)
        ensures
            r == !old(self)@.closed,
            final(self)@ == old(self)@.all_closed(),
    {
        let open = !self.closed;
        self.closed = true;
        self.routes = HashSet::new();
        open
    }

    /// Whether a frame may join the writer's queue.
    pub fn check_queue(&self) -> (r: Result<(), StreamError>)
        ensures
            r is Ok <==> self@.takes_frames(),
            r matches Err(e) ==> e == StreamError::Closed,
    {
        if self.closed {
            return Err(StreamError::Closed);
        }
        Ok(())
    }
}

/// What a sender is told of a frame that joined the writer's queue: what the writer says, or
/// that it has stopped.
pub fn write_outcome(done: Option<Result<(), String>>) -> (r: Result<(), String>)
    ensures
        match done {
            Some(result) => r == result,
            None => r matches Err(message) && message@ == StreamError::WriterStopped.text(),
        },
{
    match done {
        Some(result) => result,
        None => Err(StreamError::WriterStopped.message()),
    }
}

/// Whether a frame from the device is the last of its stream.
pub open spec fn completes(kind: FrameKind) -> bool {
    kind == FrameKind::ExecExit || kind == FrameKind::FileEnd || kind == FrameKind::PtyExit || kind
        == FrameKind::ClipboardData || kind == FrameKind::Pong || kind == FrameKind::ProxyStartAck
        || kind == FrameKind::Error
}

/// Whether a frame from the device is the last of its stream.
pub fn frame_completes_stream(kind: FrameKind) -> (r: bool)
    ensures
        r == completes(kind),
{
    match kind {
        FrameKind::ExecExit
        | FrameKind::FileEnd
        | FrameKind::PtyExit
        | FrameKind::ClipboardData
        | FrameKind::Pong
        | FrameKind::ProxyStartAck
        | FrameKind::Error => true,
        _ => false,
    }
}

/// One end of a stream.
#[derive(Debug)]
pub struct DeviceStream {
    pub id: u32,
    pub completed: bool,
}

/// What the reader of a stream found.
pub enum Received {
    Frame(FrameKind),
    /// No frame waits.
    Empty,
    /// No frame will come.
    Disconnected,
}

/// Whether a stream can be used.
pub open spec fn usable(canceled: Option<String>, closed: bool) -> Result<(), StreamError> {
    match canceled {
        Some(reason) => Err(StreamError::Canceled(reason)),
        None => if closed {
            Err(StreamError::Closed)
        } else {
            Ok(())
        },
    }
}

/// Whether a frame may be sent on a stream.
pub open spec fn sendable(
    id: u32,
    frame_stream: u32,
    canceled: Option<String>,
    closed: bool,
) -> Result<(), StreamError> {
    match usable(canceled, closed) {
        Err(e) => Err(e),
        Ok(_) => if frame_stream != id {
            Err(StreamError::Mismatch { frame: frame_stream, stream: id })
        } else {
            Ok(())
        },
    }
}

/// What the reader of a stream is told of what it found.
pub open spec fn reading(canceled: Option<String>, found: Received) -> Result<bool, StreamError> {
    match canceled {
        Some(reason) => Err(StreamError::Canceled(reason)),
        None => match found {
            Received::Frame(_) => Ok(true),
            Received::Empty => Ok(false),
            Received::Disconnected => Err(StreamError::ClosedWhileActive),
        },
    }
}

/// Whether a stream is complete once its reader has found something.
pub open spec fn completed_after(completed: bool, canceled: bool, found: Received) -> bool {
    completed || canceled || (found matches Received::Frame(kind) && completes(kind))
}

impl DeviceStream {
    pub fn new(id: u32) -> (r: DeviceStream)
        ensures
            r.id == id,
            !r.completed,
    {
        DeviceStream { id, completed: false }
    }

    /// Whether a stream can be used: a canceled stream fails with its reason.
    pub fn ensure_active(&self, canceled: Option<String>, closed: bool) -> (r: Result<
        (),
        StreamError,
    >)
        ensures
            r == usable(canceled, closed),
    {
        match canceled {
            Some(reason) => Err(StreamError::Canceled(reason)),
            None => {
                if closed {
                    return Err(StreamError::Closed);
                }
                Ok(())
            },
        }
    }

    /// Whether a frame may be sent on this stream.
    pub fn check_send(&self, frame_stream: u32, canceled: Option<String>, closed: bool) -> (r:
        Result<(), StreamError>)
        ensures
            r == sendable(self.id, frame_stream, canceled, closed),
    {
        match self.ensure_active(canceled, closed) {
            Err(e) => Err(e),
            Ok(()) => {
                if frame_stream != self.id {
                    return Err(StreamError::Mismatch { frame: frame_stream, stream: self.id });
                }
                Ok(())
            },
        }
    }

    /// What a sender is told: that the stream was canceled or closed meanwhile, or what the
    /// writer said.
    pub fn sent(&self, canceled: Option<String>, closed: bool, written: Result<(), String>) -> (r:
        Result<(), String>)
        ensures
            match usable(canceled, closed) {
                Ok(_) => r == written,
                Err(e) => r matches Err(message) && message@ == e.text() && (
                canceled matches Some(reason) ==> message == reason),
            },
    {
        match self.ensure_active(canceled, closed) {
            Err(e) => match e {
                StreamError::Canceled(reason) => Err(reason),
                other => Err(other.message()),
            },
            Ok(()) => written,
        }
    }

    /// Accounts for what the reader found; tells whether it has a frame. A stream that was
    /// canceled fails with the reason and is complete: the device need not be told of its end.
    pub fn received(&mut self, canceled: Option<String>, found: Received) -> (r: Result<
        bool,
        StreamError,
    >)
        ensures
            final(self).id == old(self).id,
            final(self).completed == completed_after(old(self).completed, canceled is Some, found),
            r == reading(canceled, found),
    {
        match canceled {
            Some(reason) => {
                self.completed = true;
                Err(StreamError::Canceled(reason))
            },
            None => match found {
                Received::Frame(kind) => {
                    self.completed = self.completed || frame_completes_stream(kind);
                    Ok(true)
                },
                Received::Empty => Ok(false),
                Received::Disconnected => Err(StreamError::ClosedWhileActive),
            },
        }
    }
}

/// Whatever becomes of one stream, every other stays open, and the connection with it.
pub proof fn lemma_other_streams_stay_open(s: RouterView, id: u32, other: u32)
    requires
        id != other,
    ensures
        s.without(id).routes.contains(other) == s.routes.contains(other),
        s.without(id).closed == s.closed,
        s.without(id).next == s.next,
{
}

/// A number is given again only after the clock went round: right after a stream was opened, no
/// free number is farther away than its own.
pub proof fn lemma_numbers_are_not_reused_soon(id: u32, other: u32)
    ensures
        ahead(following(id), other) <= ahead(following(id), id),
{
}

/// A new stream has a number that no other open stream has and that is not zero, and frames with
/// that number reach it from then on. The streams that were open stay open, two that are opened
/// one after the other have different numbers, and on a closed connection none is opened.
pub proof fn lemma_new_stream_is_its_own(
    s: RouterView,
    id: u32,
    t: RouterView,
    next: u32,
    u: RouterView,
    other: u32,
    kind: FrameKind,
)
    requires
        s.opens(id, t),
        t.opens(next, u),
        kind != FrameKind::StreamCancel,
    ensures
        id != 0,
        id != next,
        !s.closed,
        !s.routes.contains(id),
        !(s.routed(kind, id).0 is Deliver),
        t.routed(kind, id).0 is Deliver,
        u.routed(kind, id).0 is Deliver,
        other != id ==> (t.routes.contains(other) <==> s.routes.contains(other)),
        s.next != 0 && s.free(s.next) ==> id == s.next,
{
    if s.next != 0 && s.free(s.next) {
        assert(ahead(s.next, s.next) == 0);
        if ahead(s.next, id) > 0 {
            assert(!s.free(s.next));
        }
    }
}

/// A frame reaches the reader of its stream exactly if the stream is open and the frame does not
/// cancel it; a frame for one stream changes nothing of another, and once the device has canceled
/// a stream nothing more is delivered to it.
pub proof fn lemma_frames_reach_their_stream(s: RouterView, kind: FrameKind, id: u32, other: u32)
    ensures
        s.routed(kind, id).0 is Deliver <==> s.routes.contains(id) && kind
            != FrameKind::StreamCancel,
        s.routed(kind, id).0 is Cancel <==> s.routes.contains(id) && kind
            == FrameKind::StreamCancel,
        s.routed(kind, id).0 is LatePong ==> kind == FrameKind::Pong,
        kind != FrameKind::StreamCancel ==> s.routed(kind, id).1 == s,
        other != id ==> (s.routed(kind, id).1.routes.contains(other) <==> s.routes.contains(other)),
        !(s.routed(FrameKind::StreamCancel, id).1.routed(kind, id).0 is Deliver),
        s.routed(kind, id).1.closed == s.closed,
{
}

/// A reader that took a frame keeps its stream; one that is gone or has too much waiting loses it,
/// and no other stream is touched.
pub proof fn lemma_slow_reader_loses_its_stream(
    s: RouterView,
    id: u32,
    delivery: Delivery,
    other: u32,
)
    ensures
        delivery == Delivery::Taken ==> s.after_delivery(id, delivery) == s,
        delivery != Delivery::Taken ==> !s.after_delivery(id, delivery).routes.contains(id),
        other != id ==> (s.after_delivery(id, delivery).routes.contains(other)
            <==> s.routes.contains(other)),
{
}

/// A stream that is complete stays complete. It becomes so by the last frame of its request or by
/// a cancellation, and not because nothing has come or nothing will.
pub proof fn lemma_stream_completes_with_its_last_frame(
    completed: bool,
    canceled: bool,
    found: Received,
    kind: FrameKind,
)
    ensures
        completed_after(true, canceled, found),
        completed_after(completed, true, found),
        completed_after(false, false, Received::Frame(kind)) <==> completes(kind),
        !completed_after(false, false, Received::Empty),
        !completed_after(false, false, Received::Disconnected),
{
}

/// A stream sends frames of its own and of no other stream, while it is neither canceled nor
/// closed; its reader gets each frame that came, is told when none has come yet, and fails when
/// none will. Whoever is canceled is told why, in either direction.
pub proof fn lemma_stream_speaks_for_itself(
    id: u32,
    frame_stream: u32,
    canceled: Option<String>,
    closed: bool,
    kind: FrameKind,
    reason: String,
)
    ensures
        sendable(id, frame_stream, canceled, closed) is Ok <==> frame_stream == id && canceled
            is None && !closed,
        usable(canceled, closed) is Ok <==> sendable(id, id, canceled, closed) is Ok,
        usable(Some(reason), closed) == Err::<(), StreamError>(StreamError::Canceled(reason)),
        sendable(id, frame_stream, Some(reason), closed) == Err::<(), StreamError>(
            StreamError::Canceled(reason),
        ),
        reading(Some(reason), Received::Frame(kind)) == Err::<bool, StreamError>(
            StreamError::Canceled(reason),
        ),
        reading(None, Received::Frame(kind)) == Ok::<bool, StreamError>(true),
        reading(None, Received::Empty) == Ok::<bool, StreamError>(false),
        reading(None, Received::Disconnected) is Err,
{
}

/// A connection that is closed has no open streams, takes no frames, opens none and tells the
/// device nothing more.
pub proof fn lemma_closed_connection_has_no_streams(s: RouterView, id: u32, kind: FrameKind, t: RouterView)
    ensures
        !s.all_closed().takes_frames(),
        !s.all_closed().tells(),
        !(s.all_closed().routed(kind, id).0 is Deliver),
        !s.all_closed().opens(id, t),
        s.takes_frames() <==> !s.closed,
        s.takes_frames() && s.cancel ==> s.tells(),
        s.without(id).takes_frames() == s.takes_frames(),
{
}

} // verus!
