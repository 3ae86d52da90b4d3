//! The device's side of many streams on one connection: cancellation, flow control and what may
//! be sent.

use std::collections::{HashMap, HashSet};
use vstd::prelude::*;
use vstd::string::*;
use crate::bytes;
use crate::frame::{Frame, FrameKind};
use crate::text;

verus! {

broadcast use vstd::std_specs::hash::group_hash_axioms;

pub const WRITER_QUEUE_CAPACITY: usize = 16;

pub const MAX_FLOW_CREDIT: usize = 16777216;

/// Why a stream cannot go on.
#[derive(Debug, Clone, Copy, PartialEq, Eq, Structural)]
pub enum MuxError {
    Canceled(u32),
    WriterStopped,
    FlowExists(u32),
    NotNegotiated,
    EmptyGrant,
    CreditOverflow,
    CreditTooLarge,
    FrameTooLarge,
    MissingFlow(u32),
    WindowTooLarge,
}

impl MuxError {
    pub open spec fn text(self) -> Seq<char> {
        match self {
            MuxError::Canceled(id) => "stream "@ + text::decimal(id as nat) + " canceled"@,
            MuxError::WriterStopped => "device connection writer stopped"@,
            MuxError::FlowExists(id) => "stream "@ + text::decimal(id as nat)
                + " already has flow control state"@,
            MuxError::NotNegotiated => "peer sent flow control update without negotiation"@,
            MuxError::EmptyGrant => "stream window update must grant at least one byte"@,
            MuxError::CreditOverflow => "stream flow credit overflow"@,
            MuxError::CreditTooLarge => "stream flow credit exceeds 16777216 bytes"@,
            MuxError::FrameTooLarge => "frame requires more than 16777216 bytes of flow credit"@,
            MuxError::MissingFlow(id) => "missing flow control state for stream "@ + text::decimal(
                id as nat,
            ),
            MuxError::WindowTooLarge => "stream window update exceeds u32"@,
        }
    }

    pub fn message(self) -> (r: String)
        ensures
            r@ == self.text(),
    {
        match self {
            MuxError::Canceled(id) => text::cat_number("stream ", id as u64, " canceled"),
            MuxError::WriterStopped => String::from_str("device connection writer stopped"),
            MuxError::FlowExists(id) => text::cat_number(
                "stream ",
                id as u64,
                " already has flow control state",
            ),
            MuxError::NotNegotiated => String::from_str(
                "peer sent flow control update without negotiation",
            ),
            MuxError::EmptyGrant => String::from_str(
                "stream window update must grant at least one byte",
            ),
            MuxError::CreditOverflow => String::from_str("stream flow credit overflow"),
            MuxError::CreditTooLarge => String::from_str(
                "stream flow credit exceeds 16777216 bytes",
            ),
            MuxError::FrameTooLarge => String::from_str(
                "frame requires more than 16777216 bytes of flow credit",
            ),
            MuxError::MissingFlow(id) => text::cat2(
                "missing flow control state for stream ",
                text::decimal_string(id as u64).as_str(),
            ),
            MuxError::WindowTooLarge => String::from_str("stream window update exceeds u32"),
        }
    }
}

/// What the peer has granted a stream and the stream has not used yet, in bytes.
#[derive(Debug, Clone, Copy, PartialEq, Eq, Structural)]
pub struct FlowCredit {
    pub available: usize,
}

impl FlowCredit {
    pub open spec fn wf(self) -> bool {
        self.available <= MAX_FLOW_CREDIT
    }

    pub fn new() -> (r: FlowCredit)
        ensures
            r == (FlowCredit { available: 0 }),
            r.wf(),
    {
        FlowCredit { available: 0 }
    }

    /// The credit after a grant, or what is wrong with the grant.
    pub open spec fn granted(self, bytes: nat) -> Result<FlowCredit, MuxError> {
        if bytes == 0 {
            Err(MuxError::EmptyGrant)
        } else if self.available + bytes > usize::MAX {
            Err(MuxError::CreditOverflow)
        } else if self.available + bytes > MAX_FLOW_CREDIT {
            Err(MuxError::CreditTooLarge)
        } else {
            Ok(FlowCredit { available: (self.available + bytes) as usize })
        }
    }

    /// Takes a grant of the peer. A grant that is refused changes nothing.
    pub fn add(&mut self, bytes: usize) -> (r: Result<(), MuxError>)
        ensures
            match old(self).granted(bytes as nat) {
                Ok(after) => r == Ok::<(), MuxError>(()) && *final(self) == after && final(self).wf(),
                Err(e) => r == Err::<(), MuxError>(e) && *final(self) == *old(self),
            },
    {
        if bytes == 0 {
            return Err(MuxError::EmptyGrant);
        }
        match self.available.checked_add(bytes) {
            None => Err(MuxError::CreditOverflow),
            Some(updated) => {
                if updated > MAX_FLOW_CREDIT {
                    return Err(MuxError::CreditTooLarge);
                }
                self.available = updated;
                Ok(())
            },
        }
    }

    /// Whether there is enough credit, and what is left then.
    pub open spec fn taken(self, bytes: nat) -> (bool, FlowCredit) {
        if self.available >= bytes {
            (true, FlowCredit { available: (self.available - bytes) as usize })
        } else {
            (false, self)
        }
    }

    /// Uses credit, if there is enough of it.
    pub fn try_take(&mut self, bytes: usize) -> (r: bool)
        ensures
            (r, *final(self)) == old(self).taken(bytes as nat),
    {
        if self.available < bytes {
            return false;
        }
        self.available = self.available - bytes;
        true
    }
}

/// What a sender of file data has to do before it sends.
#[derive(Debug, Clone, Copy, PartialEq, Eq, Structural)]
pub enum Acquire {
    Granted,
    Wait,
    Refused(MuxError),
}

/// What the streams of one connection share.
pub struct MuxState {
    pub canceled: HashSet<u32>,
    pub credits: HashMap<u32, usize>,
    pub failed: bool,
    pub supports_stream_cancel: bool,
    pub supports_flow_control: bool,
}

/// What the streams of one connection share.
#[verifier::ext_equal]
pub struct MuxView {
    /// The streams that were canceled and have not ended yet.
    pub canceled: Set<u32>,
    /// The flow credit of each stream that sends file data.
    pub credits: Map<u32, usize>,
    /// The connection takes no more frames.
    pub failed: bool,
    /// The peer knows cancel frames.
    pub cancel: bool,
    /// The peer takes part in flow control.
    pub flow: bool,
}

impl View for MuxState {
    type V = MuxView;

    open spec fn view(&self) -> MuxView {
        MuxView {
            canceled: self.canceled@,
            credits: self.credits@,
            failed: self.failed,
            cancel: self.supports_stream_cancel,
            flow: self.supports_flow_control,
        }
    }
}

impl MuxView {
    /// No credit exceeds the limit.
    pub open spec fn wf(self) -> bool {
        forall|id: u32|
            self.credits.contains_key(id) ==> #[trigger] self.credits[id] <= MAX_FLOW_CREDIT
    }

    pub open spec fn with_credit(self, id: u32, available: usize) -> MuxView {
        MuxView { credits: self.credits.insert(id, available), ..self }
    }

    /// A stream is canceled by either side.
    pub open spec fn cancel_stream(self, id: u32) -> MuxView {
        MuxView { canceled: self.canceled.insert(id), ..self }
    }

    /// A stream has ended: nothing is kept of it.
    pub open spec fn finish(self, id: u32) -> MuxView {
        MuxView { canceled: self.canceled.remove(id), credits: self.credits.remove(id), ..self }
    }

    /// Whether a stream may ask for credit at all.
    pub open spec fn credit_fault(self, id: u32, bytes: nat) -> Option<MuxError> {
        if !self.flow || bytes == 0 {
            None
        } else if bytes > MAX_FLOW_CREDIT {
            Some(MuxError::FrameTooLarge)
        } else if !self.credits.contains_key(id) {
            Some(MuxError::MissingFlow(id))
        } else {
            None
        }
    }

    /// What a stream that asks for credit is told, and what is left then.
    pub open spec fn acquired(self, id: u32, bytes: nat) -> (Acquire, MuxView) {
        if !self.flow || bytes == 0 {
            (Acquire::Granted, self)
        } else if self.canceled.contains(id) {
            (Acquire::Refused(MuxError::Canceled(id)), self)
        } else if self.failed {
            (Acquire::Refused(MuxError::WriterStopped), self)
        } else if self.credits.contains_key(id) && self.credits[id] >= bytes {
            (Acquire::Granted, self.with_credit(id, (self.credits[id] - bytes) as usize))
        } else {
            (Acquire::Wait, self)
        }
    }

    /// Why a stream cannot be used any more.
    pub open spec fn active_fault(self, id: u32) -> Option<MuxError> {
        if self.canceled.contains(id) {
            Some(MuxError::Canceled(id))
        } else {
            None
        }
    }

    /// Why a frame may not join the writer's queue.
    pub open spec fn queue_fault(self) -> Option<MuxError> {
        if self.failed {
            Some(MuxError::WriterStopped)
        } else {
            None
        }
    }

    /// A stream is given an empty credit.
    pub open spec fn registered(self, id: u32) -> (Result<(), MuxError>, MuxView) {
        if !self.flow {
            (Ok(()), self)
        } else if self.credits.contains_key(id) {
            (Err(MuxError::FlowExists(id)), self.with_credit(id, 0))
        } else {
            (Ok(()), self.with_credit(id, 0))
        }
    }

    /// The peer grants a stream some bytes.
    pub open spec fn credited(self, id: u32, bytes: nat) -> (Result<bool, MuxError>, MuxView) {
        if !self.flow {
            (Err(MuxError::NotNegotiated), self)
        } else if !self.credits.contains_key(id) {
            (Ok(false), self)
        } else {
            match (FlowCredit { available: self.credits[id] }).granted(bytes) {
                Ok(after) => (Ok(true), self.with_credit(id, after.available)),
                Err(e) => (Err(e), self),
            }
        }
    }

    /// The grant that is sent to the peer for some bytes that were taken.
    pub open spec fn grant_to_send(self, id: u32, bytes: nat) -> Result<Option<u32>, MuxError> {
        if !self.flow || bytes == 0 {
            Ok(None)
        } else if self.canceled.contains(id) {
            Err(MuxError::Canceled(id))
        } else if bytes > u32::MAX {
            Err(MuxError::WindowTooLarge)
        } else {
            Ok(Some(bytes as u32))
        }
    }

    /// Why a frame may not be sent on its stream.
    pub open spec fn send_fault(self, kind: FrameKind, id: u32, len: nat) -> Option<MuxError> {
        if self.canceled.contains(id) {
            Some(MuxError::Canceled(id))
        } else if kind == FrameKind::FileChunk {
            self.credit_fault(id, len)
        } else {
            None
        }
    }

    /// What an attempt to send a frame is told, and what is left then.
    pub open spec fn attempted(self, kind: FrameKind, id: u32, len: nat) -> (Acquire, MuxView) {
        if self.canceled.contains(id) {
            (Acquire::Refused(MuxError::Canceled(id)), self)
        } else if kind == FrameKind::FileChunk {
            self.acquired(id, len)
        } else {
            (Acquire::Granted, self)
        }
    }

    /// The kind of frame that tells the peer of a canceled stream.
    pub open spec fn cancel_kind(self) -> FrameKind {
        if self.cancel {
            FrameKind::StreamCancel
        } else {
            FrameKind::Error
        }
    }
}

impl MuxState {
    pub fn new(supports_stream_cancel: bool, supports_flow_control: bool) -> (r: MuxState)
        ensures
            r@ == (MuxView {
                canceled: Set::empty(),
                credits: Map::empty(),
                failed: false,
                cancel: supports_stream_cancel,
                flow: supports_flow_control,
            }),
            r@.wf(),
    {
        MuxState {
            canceled: HashSet::new(),
            credits: HashMap::new(),
            failed: false,
            supports_stream_cancel,
            supports_flow_control,
        }
    }

    /// Gives a stream that is to send file data an empty credit. A stream that has one already
    /// is refused, and loses what it had.
    pub fn register_flow_stream(&mut self, stream_id: u32) -> (r: Result<(), MuxError>)
        ensures
            old(self)@.wf() ==> final(self)@.wf(),
            (r, final(self)@) == old(self)@.registered(stream_id),
    {
        if !self.supports_flow_control {
            return Ok(());
        }
        proof {
            if self@.wf() {
                lemma_limits_kept(self@, stream_id, 0);
            }
        }
        if self.credits.insert(stream_id, 0).is_some() {
            return Err(MuxError::FlowExists(stream_id));
        }
        Ok(())
    }

    /// Takes a grant of the peer for a stream. Late grants, for streams without credit, count
    /// for nothing.
    pub fn add_flow_credit(&mut self, stream_id: u32, bytes: u32) -> (r: Result<bool, MuxError>)
        ensures
            old(self)@.wf() ==> final(self)@.wf(),
            (r, final(self)@) == old(self)@.credited(stream_id, bytes as nat),
    {
        if !self.supports_flow_control {
            return Err(MuxError::NotNegotiated);
        }
        let mut credit = match self.credits.get(&stream_id) {
            None => {
                return Ok(false);
            },
            Some(available) => FlowCredit { available: *available },
        };
        match credit.add(bytes as usize) {
            Err(e) => Err(e),
            Ok(()) => {
                proof {
                    if self@.wf() {
                        lemma_limits_kept(self@, stream_id, credit.available);
                    }
                }
                self.credits.insert(stream_id, credit.available);
                Ok(true)
            },
        }
    }

    /// Whether a stream may ask for credit to send so many bytes.
    pub fn check_credit(&self, stream_id: u32, bytes: usize) -> (r: Result<(), MuxError>)
        ensures
            match self@.credit_fault(stream_id, bytes as nat) {
                None => r == Ok::<(), MuxError>(()),
                Some(e) => r == Err::<(), MuxError>(e),
            },
    {
        if !self.supports_flow_control || bytes == 0 {
            return Ok(());
        }
        if bytes > MAX_FLOW_CREDIT {
            return Err(MuxError::FrameTooLarge);
        }
        if !self.credits.contains_key(&stream_id) {
            return Err(MuxError::MissingFlow(stream_id));
        }
        Ok(())
    }

    /// One attempt to use credit. A stream that is to wait tries again after the next grant,
    /// cancellation or failure.
    pub fn acquire_flow_credit(&mut self, stream_id: u32, bytes: usize) -> (r: Acquire)
        ensures
            (r, final(self)@) == old(self)@.acquired(stream_id, bytes as nat),
            old(self)@.wf() ==> final(self)@.wf(),
    {
        if !self.supports_flow_control || bytes == 0 {
            return Acquire::Granted;
        }
        if self.canceled.contains(&stream_id) {
            return Acquire::Refused(MuxError::Canceled(stream_id));
        }
        if self.failed {
            return Acquire::Refused(MuxError::WriterStopped);
        }
        let mut credit = match self.credits.get(&stream_id) {
            None => {
                return Acquire::Wait;
            },
            Some(available) => FlowCredit { available: *available },
        };
        if credit.try_take(bytes) {
            proof {
                if self@.wf() {
                    assert(self@.credits[stream_id] <= MAX_FLOW_CREDIT);
                    lemma_limits_kept(self@, stream_id, credit.available);
                }
            }
            self.credits.insert(stream_id, credit.available);
            Acquire::Granted
        } else {
            Acquire::Wait
        }
    }

    /// The grant to send to the peer, if one is to be sent.
    pub fn send_window_update(&self, stream_id: u32, bytes: usize) -> (r: Result<
        Option<u32>,
        MuxError,
    >)
        ensures
            r == self@.grant_to_send(stream_id, bytes as nat),
    {
        if !self.supports_flow_control || bytes == 0 {
            return Ok(None);
        }
        match self.ensure_active(stream_id) {
            Err(e) => Err(e),
            Ok(()) => {
                if bytes > 0xffff_ffff {
                    return Err(MuxError::WindowTooLarge);
                }
                Ok(Some(bytes as u32))
            },
        }
    }

    pub fn cancel_local(&mut self, stream_id: u32)
        ensures
            final(self)@ == old(self)@.cancel_stream(stream_id),
    {
        self.canceled.insert(stream_id);
    }

    pub fn finish_stream(&mut self, stream_id: u32)
        ensures
            final(self)@ == old(self)@.finish(stream_id),
            old(self)@.wf() ==> final(self)@.wf(),
    {
        proof {
            if self@.wf() {
                lemma_limits_kept(self@, stream_id, 0);
            }
        }
        self.canceled.remove(&stream_id);
        self.credits.remove(&stream_id);
    }

    pub fn is_canceled(&self, stream_id: u32) -> (r: bool)
        ensures
            r == self@.canceled.contains(stream_id),
    {
        self.canceled.contains(&stream_id)
    }

    pub fn ensure_active(&self, stream_id: u32) -> (r: Result<(), MuxError>)
        ensures
            match self@.active_fault(stream_id) {
                Some(e) => r == Err::<(), MuxError>(e),
                None => r == Ok::<(), MuxError>(()),
            },
    {
        if self.is_canceled(stream_id) {
            return Err(MuxError::Canceled(stream_id));
        }
        Ok(())
    }

    /// Whether a frame may be sent on its stream, before any credit is used.
    pub fn check_send(&self, kind: FrameKind, stream_id: u32, len: usize) -> (r: Result<
        (),
        MuxError,
    >)
        ensures
            match self@.send_fault(kind, stream_id, len as nat) {
                Some(e) => r == Err::<(), MuxError>(e),
                None => r == Ok::<(), MuxError>(()),
            },
    {
        match self.ensure_active(stream_id) {
            Err(e) => Err(e),
            Ok(()) => {
                if kind == FrameKind::FileChunk {
                    self.check_credit(stream_id, len)
                } else {
                    Ok(())
                }
            },
        }
    }

    /// One attempt to send a frame: file data uses credit, everything else goes at once.
    pub fn try_send(&mut self, kind: FrameKind, stream_id: u32, len: usize) -> (r: Acquire)
        ensures
            old(self)@.wf() ==> final(self)@.wf(),
            (r, final(self)@) == old(self)@.attempted(kind, stream_id, len as nat),
    {
        if self.is_canceled(stream_id) {
            return Acquire::Refused(MuxError::Canceled(stream_id));
        }
        if kind == FrameKind::FileChunk {
            self.acquire_flow_credit(stream_id, len)
        } else {
            Acquire::Granted
        }
    }

    /// What the sender of a frame is told once the frame was written or refused: a stream that
    /// was canceled meanwhile is told so in either case.
    pub fn sent(&self, stream_id: u32, written: Result<(), String>) -> (r: Result<(), String>)
        ensures
            match self@.active_fault(stream_id) {
                Some(e) => r matches Err(message) && message@ == e.text(),
                None => r == written,
            },
    {
        match self.ensure_active(stream_id) {
            Err(e) => Err(e.message()),
            Ok(()) => written,
        }
    }

    /// Cancels a stream and gives the frame that tells the peer: a cancel frame, or an error to
    /// a peer that does not know cancel frames.
    pub fn send_cancel(&mut self, stream_id: u32, reason: &str) -> (r: Frame)
        ensures
            final(self)@ == old(self)@.cancel_stream(stream_id),
            r@.kind == old(self)@.cancel_kind(),
            r@.stream_id == stream_id,
            r@.payload == vstd::utf8::encode_utf8(reason@),
    {
        self.cancel_local(stream_id);
        let kind = if self.supports_stream_cancel {
            FrameKind::StreamCancel
        } else {
            FrameKind::Error
        };
        Frame { kind, stream_id, payload: bytes::copy(reason.as_bytes()) }
    }

    /// The frame that tells the peer of an error, unless the stream was canceled.
    pub fn send_error(&self, stream_id: u32, error: &str) -> (r: Option<Frame>)
        ensures
            r is Some <==> self@.active_fault(stream_id) is None,
            r matches Some(f) ==> f@.kind == FrameKind::Error && f@.stream_id == stream_id
                && f@.payload == vstd::utf8::encode_utf8(error@),
    {
        if self.is_canceled(stream_id) {
            return None;
        }
        Some(
            Frame { kind: FrameKind::Error, stream_id, payload: bytes::copy(error.as_bytes()) },
        )
    }

    /// Stops the connection; tells whether it was still running.
    pub fn close(&mut self) -> (r: bool)
        ensures
            r == !old(self)@.failed,
            final(self)@ == (MuxView { failed: true, ..old(self)@ }),
    {
        let running = !self.failed;
        self.failed = true;
        running
    }

    /// Whether a frame may join the writer's queue.
    pub fn check_queue(&self) -> (r: Result<(), MuxError>)
        ensures
            match self@.queue_fault() {
                Some(e) => r == Err::<(), MuxError>(e),
                None => r == Ok::<(), MuxError>(()),
            },
    {
        if self.failed {
            return Err(MuxError::WriterStopped);
        }
        Ok(())
    }
}

/// What wakes the task that writes frames.
#[derive(Debug, Clone, Copy, PartialEq, Eq, Structural)]
pub enum WriterEvent {
    /// The connection is to be closed.
    Shutdown,
    /// No sender is left.
    QueueClosed,
    /// A frame was taken from the queue.
    Command,
    /// The frame was written.
    Written,
    /// The frame could not be written.
    WriteFailed,
}

/// What the task that writes frames does next.
#[derive(Debug, Clone, Copy, PartialEq, Eq, Structural)]
pub enum WriterAction {
    /// Write the frame that was taken.
    Write,
    /// Tell the sender that the writer has stopped, and end.
    Refuse,
    /// Tell the sender that the frame was written, and take the next.
    Confirm,
    /// Tell the sender what went wrong, and end.
    Report,
    /// End.
    Stop,
}

/// What the task that writes frames does about an event.
pub open spec fn writer_does(failed: bool, event: WriterEvent) -> WriterAction {
    match event {
        WriterEvent::Shutdown => WriterAction::Stop,
        WriterEvent::QueueClosed => WriterAction::Stop,
        WriterEvent::Command => if failed {
            WriterAction::Refuse
        } else {
            WriterAction::Write
        },
        WriterEvent::Written => WriterAction::Confirm,
        WriterEvent::WriteFailed => WriterAction::Report,
    }
}

/// The task that writes frames, one at a time, until the connection has failed.
pub fn writer_step(failed: bool, event: WriterEvent) -> (r: WriterAction)
    ensures
        r == writer_does(failed, event),
{
    match event {
        WriterEvent::Shutdown => WriterAction::Stop,
        WriterEvent::QueueClosed => WriterAction::Stop,
        WriterEvent::Command => if failed {
            WriterAction::Refuse
        } else {
            WriterAction::Write
        },
        WriterEvent::Written => WriterAction::Confirm,
        WriterEvent::WriteFailed => WriterAction::Report,
    }
}

/// Ending a stream, and giving one a credit within the limit, keeps every credit within it.
proof fn lemma_limits_kept(s: MuxView, id: u32, available: usize)
    requires
        s.wf(),
        available <= MAX_FLOW_CREDIT,
    ensures
        s.with_credit(id, available).wf(),
        s.finish(id).wf(),
{
    assert forall|other: u32| s.finish(id).credits.contains_key(other) implies #[trigger] s.finish(
        id,
    ).credits[other] <= MAX_FLOW_CREDIT by {
        assert(s.credits.contains_key(other));
        assert(s.credits[other] <= MAX_FLOW_CREDIT);
    }
    let t = s.with_credit(id, available);
    assert forall|other: u32| t.credits.contains_key(other) implies #[trigger] t.credits[other]
        <= MAX_FLOW_CREDIT by {
        if other != id {
            assert(s.credits.contains_key(other));
            assert(s.credits[other] <= MAX_FLOW_CREDIT);
        }
    }
}

/// Cancelling, crediting or ending one stream leaves every other stream as it was.
pub proof fn lemma_streams_independent(s: MuxView, id: u32, other: u32, available: usize)
    requires
        id != other,
    ensures
        s.cancel_stream(id).canceled.contains(other) == s.canceled.contains(other),
        s.finish(id).canceled.contains(other) == s.canceled.contains(other),
        s.finish(id).credits.contains_key(other) == s.credits.contains_key(other),
        s.finish(id).credits[other] == s.credits[other],
        s.with_credit(id, available).credits.contains_key(other) == s.credits.contains_key(other),
        s.with_credit(id, available).credits[other] == s.credits[other],
{
}

/// A canceled stream gets no credit until it has ended, whatever is granted.
pub proof fn lemma_canceled_gets_nothing(s: MuxView, id: u32, bytes: nat)
    requires
        s.canceled.contains(id),
        s.flow,
        bytes > 0,
    ensures
        s.acquired(id, bytes) == (Acquire::Refused(MuxError::Canceled(id)), s),
{
}

/// A stream that waits for credit goes on as soon as the grants make up what it asked for, and
/// uses exactly that.
pub proof fn lemma_credit_is_conserved(s: MuxView, id: u32, bytes: nat, grant: nat)
    requires
        s.wf(),
        s.flow,
        bytes > 0,
        !s.canceled.contains(id),
        !s.failed,
        s.credits.contains_key(id),
        s.acquired(id, bytes).0 == Acquire::Wait,
        (FlowCredit { available: s.credits[id] }).granted(grant) is Ok,
    ensures
        ({
            let credit = (FlowCredit { available: s.credits[id] }).granted(grant)->Ok_0;
            let after = s.with_credit(id, credit.available).acquired(id, bytes);
            if s.credits[id] + grant >= bytes {
                after.0 == Acquire::Granted && after.1.credits[id] == s.credits[id] + grant - bytes
            } else {
                after.0 == Acquire::Wait
            }
        }),
{
}

/// A grant is taken unless it is empty or would lift the credit above 16 MiB, and what was granted
/// can be used to the last byte, once.
pub proof fn lemma_grant_can_be_used_once(credit: FlowCredit, bytes: nat, more: nat)
    requires
        credit.wf(),
    ensures
        credit.granted(bytes) is Ok <==> 0 < bytes && credit.available + bytes <= 16 * 1024 * 1024,
        credit.granted(bytes) matches Ok(after) ==> after.taken(bytes) == (true, credit),
        credit.taken(bytes).0 <==> bytes <= credit.available,
        credit.taken(bytes).0 && credit.taken(bytes).1.taken(more).0 ==> bytes + more
            <= credit.available,
        !credit.taken(bytes).0 ==> credit.taken(bytes).1 == credit,
{
}

/// A stream that is to send file data waits until it is granted some, and may then send what it
/// was granted and not a byte more. What is granted to one stream is of no use to another.
pub proof fn lemma_stream_sends_what_it_is_granted(s: MuxView, id: u32, other: u32, grant: nat)
    requires
        s.flow,
        !s.failed,
        !s.canceled.contains(id),
        !s.credits.contains_key(id),
        other != id,
        0 < grant <= 16 * 1024 * 1024,
    ensures
        ({
            let ready = s.registered(id).1;
            let granted = ready.credited(id, grant).1;
            &&& s.registered(id).0 is Ok
            &&& s.send_fault(FrameKind::FileChunk, id, grant) is Some
            &&& ready.send_fault(FrameKind::FileChunk, id, grant) is None
            &&& ready.attempted(FrameKind::FileChunk, id, grant) == (Acquire::Wait, ready)
            &&& ready.credited(id, grant).0 == Ok::<bool, MuxError>(true)
            &&& granted.attempted(FrameKind::FileChunk, id, grant).0 == Acquire::Granted
            &&& granted.attempted(FrameKind::FileChunk, id, grant).1.attempted(
                FrameKind::FileChunk,
                id,
                1,
            ).0 == Acquire::Wait
            &&& granted.attempted(FrameKind::FileChunk, id, grant + 1).0 == Acquire::Wait
            &&& granted.attempted(FrameKind::FileChunk, other, grant).0 == s.attempted(
                FrameKind::FileChunk,
                other,
                grant,
            ).0
        }),
{
}

/// Only file data waits for credit, and only where flow control is in use: everything else goes
/// at once. A canceled stream sends nothing, and what passes the check before is not refused on a
/// connection that has not failed.
pub proof fn lemma_only_file_data_waits(s: MuxView, kind: FrameKind, id: u32, len: nat)
    ensures
        !s.canceled.contains(id) && (kind != FrameKind::FileChunk || !s.flow || len == 0)
            ==> s.attempted(kind, id, len) == (Acquire::Granted, s) && s.send_fault(kind, id, len)
            is None,
        s.canceled.contains(id) ==> s.attempted(kind, id, len) == (
            Acquire::Refused(MuxError::Canceled(id)),
            s,
        ) && s.send_fault(kind, id, len) is Some,
        s.send_fault(kind, id, len) is None && !s.failed ==> !(s.attempted(kind, id, len).0
            is Refused),
        s.attempted(kind, id, len).0 is Wait ==> kind == FrameKind::FileChunk && s.flow,
{
}

/// What one end grants is what the other end is credited with: the same number of bytes, and none
/// where flow control is not in use at either end.
pub proof fn lemma_grants_arrive_whole(receiver: MuxView, sender: MuxView, id: u32, bytes: nat)
    requires
        receiver.flow == sender.flow,
        !receiver.canceled.contains(id),
        sender.credits.contains_key(id),
        sender.credits[id] + bytes <= 16 * 1024 * 1024,
    ensures
        receiver.grant_to_send(id, bytes) is Ok,
        receiver.grant_to_send(id, bytes) matches Ok(Some(n)) ==> n == bytes && sender.credited(
            id,
            n as nat,
        ) == (
            Ok::<bool, MuxError>(true),
            sender.with_credit(id, (sender.credits[id] + bytes) as usize),
        ),
        receiver.grant_to_send(id, bytes) matches Ok(None) ==> !sender.flow || bytes == 0,
{
}

/// A sender is told that its frame was written only when it was. Nothing is written once the
/// connection has failed, and the task goes on only after a frame that was written or is to be.
pub proof fn lemma_writer_tells_the_truth(failed: bool, event: WriterEvent)
    ensures
        writer_does(failed, event) == WriterAction::Confirm <==> event == WriterEvent::Written,
        writer_does(failed, event) == WriterAction::Write <==> event == WriterEvent::Command
            && !failed,
        writer_does(failed, event) == WriterAction::Report <==> event == WriterEvent::WriteFailed,
        writer_does(true, WriterEvent::Command) == WriterAction::Refuse,
        event == WriterEvent::Shutdown || event == WriterEvent::QueueClosed ==> writer_does(
            failed,
            event,
        ) == WriterAction::Stop,
{
}

/// A stream can be used until it is canceled, by either side, and again by another request once it
/// has ended; that another stream is canceled does not matter to it. Frames join the queue until
/// the connection has failed.
pub proof fn lemma_stream_is_active_until_canceled(s: MuxView, id: u32, other: u32)
    requires
        other != id,
    ensures
        s.cancel_stream(id).active_fault(id) == Some(MuxError::Canceled(id)),
        s.cancel_stream(other).active_fault(id) == s.active_fault(id),
        s.cancel_stream(id).finish(id).active_fault(id) is None,
        s.active_fault(id) is Some ==> s.send_fault(FrameKind::Error, id, 0) is Some,
        s.active_fault(id) is None ==> s.send_fault(FrameKind::Error, id, 0) is None,
        s.queue_fault() is None <==> !s.failed,
        s.cancel_stream(id).queue_fault() == s.queue_fault(),
{
}

} // verus!
