//! The frame format: a sixteen byte header and a payload.

use vstd::prelude::*;
use vstd::string::*;
use crate::bytes;
use crate::text;

verus! {

pub const MAGIC: [u8; 4] = [83, 73, 68, 69];

pub const PROTOCOL_MAJOR: u8 = 1;

pub const PROTOCOL_MINOR: u8 = 1;

pub const VERSION: u16 = PROTOCOL_MAJOR as u16 * 256 + PROTOCOL_MINOR as u16;

pub const HEADER_LEN: usize = 16;

pub const MAX_PAYLOAD: usize = 16777216;

/// The high byte of a version.
pub open spec fn major(version: u16) -> u8 {
    (version / 256) as u8
}

/// The low byte of a version.
pub open spec fn minor(version: u16) -> u8 {
    (version % 256) as u8
}

/// Versions that agree in their major part understand each other.
pub open spec fn compatible(version: u16) -> bool {
    major(version) == PROTOCOL_MAJOR
}

/// The version that two peers speak: the lower one, if they understand each other.
pub open spec fn agreed(a: u16, b: u16) -> Option<u16> {
    if major(a) == major(b) {
        Some(if a < b { a } else { b })
    } else {
        None
    }
}

/// The version that is spoken with a peer.
pub open spec fn negotiated(peer: u16) -> Option<u16> {
    agreed(VERSION, peer)
}

/// Two peers agree on the same version, whichever of them asks: the major part of both, and the
/// lower of the two minor parts.
pub proof fn lemma_peers_agree(a: u16, b: u16)
    ensures
        agreed(a, b) == agreed(b, a),
        agreed(a, b) is Some <==> major(a) == major(b),
        agreed(a, b) matches Some(v) ==> major(v) == major(a) && minor(v) == if minor(a) < minor(
            b,
        ) {
            minor(a)
        } else {
            minor(b)
        },
{
}

/// A version as people write it.
pub open spec fn label(version: u16) -> Seq<char> {
    text::decimal(major(version) as nat) + "."@ + text::decimal(minor(version) as nat)
}

pub fn protocol_major(version: u16) -> (r: u8)
    ensures
        r == major(version),
{
    (version / 256) as u8
}

pub fn protocol_minor(version: u16) -> (r: u8)
    ensures
        r == minor(version),
{
    (version % 256) as u8
}

pub fn protocol_compatible(version: u16) -> (r: bool)
    ensures
        r == compatible(version),
{
    protocol_major(version) == PROTOCOL_MAJOR
}

pub fn negotiated_version(peer: u16) -> (r: Option<u16>)
    ensures
        r == negotiated(peer),
{
    if protocol_compatible(peer) {
        let theirs: u8 = protocol_minor(peer);
        let agreed: u8 = if PROTOCOL_MINOR < theirs {
            PROTOCOL_MINOR
        } else {
            theirs
        };
        Some(PROTOCOL_MAJOR as u16 * 256 + agreed as u16)
    } else {
        None
    }
}

pub fn protocol_label(version: u16) -> (r: String)
    ensures
        r@ == label(version),
{
    let mut out = text::decimal_string(protocol_major(version) as u64);
    out.append(".");
    out.append(text::decimal_string(protocol_minor(version) as u64).as_str());
    out
}

/// What a frame is about.
#[derive(Debug, Clone, Copy, PartialEq, Eq, Structural)]
pub enum FrameKind {
    Hello,
    HelloAck,
    ExecRequest,
    ExecStdout,
    ExecStderr,
    ExecExit,
    PushRequest,
    FileChunk,
    FileEnd,
    PullRequest,
    FileMeta,
    ProxyStartRequest,
    ProxyStartAck,
    PtyOpen,
    PtyOpenAck,
    PtyInput,
    PtyOutput,
    PtyResize,
    PtyExit,
    PtyClose,
    PtyComplete,
    PtyCompleteResult,
    ClipboardGet,
    ClipboardSet,
    ClipboardClear,
    ClipboardData,
    Ping,
    Pong,
    StreamCancel,
    Error,
}

impl FrameKind {
    /// The number that stands for the kind on the wire.
    pub open spec fn number(self) -> u16 {
        match self {
            FrameKind::Hello => 1,
            FrameKind::HelloAck => 2,
            FrameKind::ExecRequest => 10,
            FrameKind::ExecStdout => 11,
            FrameKind::ExecStderr => 12,
            FrameKind::ExecExit => 13,
            FrameKind::Ping => 20,
            FrameKind::Pong => 21,
            FrameKind::StreamCancel => 22,
            FrameKind::PushRequest => 30,
            FrameKind::FileChunk => 31,
            FrameKind::FileEnd => 32,
            FrameKind::PullRequest => 33,
            FrameKind::FileMeta => 34,
            FrameKind::ProxyStartRequest => 40,
            FrameKind::ProxyStartAck => 41,
            FrameKind::PtyOpen => 50,
            FrameKind::PtyOpenAck => 51,
            FrameKind::PtyInput => 52,
            FrameKind::PtyOutput => 53,
            FrameKind::PtyResize => 54,
            FrameKind::PtyExit => 55,
            FrameKind::PtyClose => 56,
            FrameKind::PtyComplete => 57,
            FrameKind::PtyCompleteResult => 58,
            FrameKind::ClipboardGet => 60,
            FrameKind::ClipboardSet => 61,
            FrameKind::ClipboardClear => 62,
            FrameKind::ClipboardData => 63,
            FrameKind::Error => 255,
        }
    }

    /// The number that stands for the kind on the wire.
    pub fn code(self) -> (r: u16)
        ensures
            r == self.number(),
    {
        match self {
            FrameKind::Hello => 1,
            FrameKind::HelloAck => 2,
            FrameKind::ExecRequest => 10,
            FrameKind::ExecStdout => 11,
            FrameKind::ExecStderr => 12,
            FrameKind::ExecExit => 13,
            FrameKind::Ping => 20,
            FrameKind::Pong => 21,
            FrameKind::StreamCancel => 22,
            FrameKind::PushRequest => 30,
            FrameKind::FileChunk => 31,
            FrameKind::FileEnd => 32,
            FrameKind::PullRequest => 33,
            FrameKind::FileMeta => 34,
            FrameKind::ProxyStartRequest => 40,
            FrameKind::ProxyStartAck => 41,
            FrameKind::PtyOpen => 50,
            FrameKind::PtyOpenAck => 51,
            FrameKind::PtyInput => 52,
            FrameKind::PtyOutput => 53,
            FrameKind::PtyResize => 54,
            FrameKind::PtyExit => 55,
            FrameKind::PtyClose => 56,
            FrameKind::PtyComplete => 57,
            FrameKind::PtyCompleteResult => 58,
            FrameKind::ClipboardGet => 60,
            FrameKind::ClipboardSet => 61,
            FrameKind::ClipboardClear => 62,
            FrameKind::ClipboardData => 63,
            FrameKind::Error => 255,
        }
    }

    /// The name of the kind, as messages show it.
    pub open spec fn name(self) -> Seq<char> {
        match self {
            FrameKind::Hello => "Hello"@,
            FrameKind::HelloAck => "HelloAck"@,
            FrameKind::ExecRequest => "ExecRequest"@,
            FrameKind::ExecStdout => "ExecStdout"@,
            FrameKind::ExecStderr => "ExecStderr"@,
            FrameKind::ExecExit => "ExecExit"@,
            FrameKind::PushRequest => "PushRequest"@,
            FrameKind::FileChunk => "FileChunk"@,
            FrameKind::FileEnd => "FileEnd"@,
            FrameKind::PullRequest => "PullRequest"@,
            FrameKind::FileMeta => "FileMeta"@,
            FrameKind::ProxyStartRequest => "ProxyStartRequest"@,
            FrameKind::ProxyStartAck => "ProxyStartAck"@,
            FrameKind::PtyOpen => "PtyOpen"@,
            FrameKind::PtyOpenAck => "PtyOpenAck"@,
            FrameKind::PtyInput => "PtyInput"@,
            FrameKind::PtyOutput => "PtyOutput"@,
            FrameKind::PtyResize => "PtyResize"@,
            FrameKind::PtyExit => "PtyExit"@,
            FrameKind::PtyClose => "PtyClose"@,
            FrameKind::PtyComplete => "PtyComplete"@,
            FrameKind::PtyCompleteResult => "PtyCompleteResult"@,
            FrameKind::ClipboardGet => "ClipboardGet"@,
            FrameKind::ClipboardSet => "ClipboardSet"@,
            FrameKind::ClipboardClear => "ClipboardClear"@,
            FrameKind::ClipboardData => "ClipboardData"@,
            FrameKind::Ping => "Ping"@,
            FrameKind::Pong => "Pong"@,
            FrameKind::StreamCancel => "StreamCancel"@,
            FrameKind::Error => "Error"@,
        }
    }

    /// The name of the kind, as messages show it.
    pub fn label(self) -> (r: &'static str)
        ensures
            r@ == self.name(),
    {
        match self {
            FrameKind::Hello => "Hello",
            FrameKind::HelloAck => "HelloAck",
            FrameKind::ExecRequest => "ExecRequest",
            FrameKind::ExecStdout => "ExecStdout",
            FrameKind::ExecStderr => "ExecStderr",
            FrameKind::ExecExit => "ExecExit",
            FrameKind::PushRequest => "PushRequest",
            FrameKind::FileChunk => "FileChunk",
            FrameKind::FileEnd => "FileEnd",
            FrameKind::PullRequest => "PullRequest",
            FrameKind::FileMeta => "FileMeta",
            FrameKind::ProxyStartRequest => "ProxyStartRequest",
            FrameKind::ProxyStartAck => "ProxyStartAck",
            FrameKind::PtyOpen => "PtyOpen",
            FrameKind::PtyOpenAck => "PtyOpenAck",
            FrameKind::PtyInput => "PtyInput",
            FrameKind::PtyOutput => "PtyOutput",
            FrameKind::PtyResize => "PtyResize",
            FrameKind::PtyExit => "PtyExit",
            FrameKind::PtyClose => "PtyClose",
            FrameKind::PtyComplete => "PtyComplete",
            FrameKind::PtyCompleteResult => "PtyCompleteResult",
            FrameKind::ClipboardGet => "ClipboardGet",
            FrameKind::ClipboardSet => "ClipboardSet",
            FrameKind::ClipboardClear => "ClipboardClear",
            FrameKind::ClipboardData => "ClipboardData",
            FrameKind::Ping => "Ping",
            FrameKind::Pong => "Pong",
            FrameKind::StreamCancel => "StreamCancel",
            FrameKind::Error => "Error",
        }
    }

    /// The kind that a number stands for.
    pub fn from_code(value: u16) -> (r: Result<FrameKind, FrameError>)
        ensures
            match r {
                Ok(kind) => kind.number() == value,
                Err(e) => e == FrameError::UnknownKind(value) && forall|kind: FrameKind|
                    #[trigger] kind.number() != value,
            },
    {
        Ok(
            match value {
                1 => FrameKind::Hello,
                2 => FrameKind::HelloAck,
                10 => FrameKind::ExecRequest,
                11 => FrameKind::ExecStdout,
                12 => FrameKind::ExecStderr,
                13 => FrameKind::ExecExit,
                20 => FrameKind::Ping,
                21 => FrameKind::Pong,
                22 => FrameKind::StreamCancel,
                30 => FrameKind::PushRequest,
                31 => FrameKind::FileChunk,
                32 => FrameKind::FileEnd,
                33 => FrameKind::PullRequest,
                34 => FrameKind::FileMeta,
                40 => FrameKind::ProxyStartRequest,
                41 => FrameKind::ProxyStartAck,
                50 => FrameKind::PtyOpen,
                51 => FrameKind::PtyOpenAck,
                52 => FrameKind::PtyInput,
                53 => FrameKind::PtyOutput,
                54 => FrameKind::PtyResize,
                55 => FrameKind::PtyExit,
                56 => FrameKind::PtyClose,
                57 => FrameKind::PtyComplete,
                58 => FrameKind::PtyCompleteResult,
                60 => FrameKind::ClipboardGet,
                61 => FrameKind::ClipboardSet,
                62 => FrameKind::ClipboardClear,
                63 => FrameKind::ClipboardData,
                255 => FrameKind::Error,
                _ => { return Err(FrameError::UnknownKind(value)) },
            },
        )
    }
}

/// Two kinds with the same number are the same kind.
pub proof fn lemma_number_injective(a: FrameKind, b: FrameKind)
    requires
        a.number() == b.number(),
    ensures
        a == b,
{
}

/// Why bytes are no frame, or a frame has no bytes.
#[derive(Debug, Clone, Copy, PartialEq, Eq, Structural)]
pub enum FrameError {
    PayloadTooLarge(usize),
    Truncated,
    Magic,
    Version(u16),
    UnknownKind(u16),
    Length,
}

impl FrameError {
    pub open spec fn text(self) -> Seq<char> {
        match self {
            FrameError::PayloadTooLarge(n) => "payload too large: "@ + text::decimal(n as nat)
                + " bytes"@,
            FrameError::Truncated => "truncated SideWire frame"@,
            FrameError::Magic => "invalid SideWire frame magic"@,
            FrameError::Version(v) => "unsupported protocol version "@ + label(v),
            FrameError::UnknownKind(k) => "unknown frame kind "@ + text::decimal(k as nat),
            FrameError::Length => "invalid SideWire frame length"@,
        }
    }

    pub fn message(self) -> (r: String)
        ensures
            r@ == self.text(),
    {
        match self {
            FrameError::PayloadTooLarge(n) => {
                let mut out = String::from_str("payload too large: ");
                out.append(text::decimal_string(n as u64).as_str());
                out.append(" bytes");
                out
            },
            FrameError::Truncated => String::from_str("truncated SideWire frame"),
            FrameError::Magic => String::from_str("invalid SideWire frame magic"),
            FrameError::Version(v) => {
                let mut out = String::from_str("unsupported protocol version ");
                out.append(protocol_label(v).as_str());
                out
            },
            FrameError::UnknownKind(k) => {
                let mut out = String::from_str("unknown frame kind ");
                out.append(text::decimal_string(k as u64).as_str());
                out
            },
            FrameError::Length => String::from_str("invalid SideWire frame length"),
        }
    }
}

/// One message of the protocol.
#[derive(Debug, Clone)]
pub struct Frame {
    pub kind: FrameKind,
    pub stream_id: u32,
    pub payload: Vec<u8>,
}

/// What a frame says.
#[verifier::ext_equal]
pub struct FrameView {
    pub kind: FrameKind,
    pub stream_id: u32,
    pub payload: Seq<u8>,
}

impl View for Frame {
    type V = FrameView;

    open spec fn view(&self) -> FrameView {
        FrameView { kind: self.kind, stream_id: self.stream_id, payload: self.payload@ }
    }
}

/// The header of a frame: magic, version, kind, stream and payload length.
pub open spec fn header(kind: FrameKind, stream_id: u32, payload_len: nat) -> Seq<u8> {
    MAGIC@ + bytes::be16(VERSION) + bytes::be16(kind.number()) + bytes::be32(stream_id)
        + bytes::be32(payload_len as u32)
}

/// The bytes of a frame.
pub open spec fn encoded(frame: FrameView) -> Seq<u8> {
    header(frame.kind, frame.stream_id, frame.payload.len()) + frame.payload
}

/// What is wrong with a header, the first fault first.
pub open spec fn header_fault(h: Seq<u8>) -> Option<FrameError> {
    if h.subrange(0, 4) != MAGIC@ {
        Some(FrameError::Magic)
    } else if !compatible(header_version(h)) {
        Some(FrameError::Version(header_version(h)))
    } else if forall|kind: FrameKind| #[trigger] kind.number() != header_kind(h) {
        Some(FrameError::UnknownKind(header_kind(h)))
    } else if header_payload_len(h) > MAX_PAYLOAD {
        Some(FrameError::PayloadTooLarge(header_payload_len(h) as usize))
    } else {
        None
    }
}

pub open spec fn header_version(h: Seq<u8>) -> u16 {
    bytes::value16(h.subrange(4, 6))
}

pub open spec fn header_kind(h: Seq<u8>) -> u16 {
    bytes::value16(h.subrange(6, 8))
}

pub open spec fn header_stream(h: Seq<u8>) -> u32 {
    bytes::value32(h.subrange(8, 12))
}

pub open spec fn header_payload_len(h: Seq<u8>) -> u32 {
    bytes::value32(h.subrange(12, 16))
}

/// Whether bytes are a whole frame, and which.
pub open spec fn decodes(b: Seq<u8>, frame: FrameView) -> bool {
    &&& b.len() >= HEADER_LEN
    &&& header_fault(b.take(HEADER_LEN as int)) is None
    &&& b.len() == HEADER_LEN + header_payload_len(b)
    &&& frame.kind.number() == header_kind(b)
    &&& frame.stream_id == header_stream(b)
    &&& frame.payload == b.skip(HEADER_LEN as int)
}

/// What is wrong with bytes that are no whole frame, the first fault first.
pub open spec fn decode_fault(b: Seq<u8>) -> Option<FrameError> {
    if b.len() < HEADER_LEN {
        Some(FrameError::Truncated)
    } else if header_fault(b.take(HEADER_LEN as int)) is Some {
        header_fault(b.take(HEADER_LEN as int))
    } else if b.len() != HEADER_LEN + header_payload_len(b) {
        Some(FrameError::Length)
    } else {
        None
    }
}

/// The fields of a header are what it was made of.
pub proof fn lemma_header_fields(kind: FrameKind, stream_id: u32, payload_len: nat)
    requires
        payload_len <= MAX_PAYLOAD,
    ensures
        header(kind, stream_id, payload_len).len() == HEADER_LEN,
        header_fault(header(kind, stream_id, payload_len)) is None,
        header_kind(header(kind, stream_id, payload_len)) == kind.number(),
        header_stream(header(kind, stream_id, payload_len)) == stream_id,
        header_payload_len(header(kind, stream_id, payload_len)) == payload_len,
{
    let h = header(kind, stream_id, payload_len);
    bytes::lemma_be16_round_trip(VERSION);
    bytes::lemma_be16_round_trip(kind.number());
    bytes::lemma_be32_round_trip(stream_id);
    bytes::lemma_be32_round_trip(payload_len as u32);
    assert(MAGIC@.len() == 4);
    assert(h.len() == 16);
    assert(h.subrange(0, 4) =~= MAGIC@);
    assert(h.subrange(4, 6) =~= bytes::be16(VERSION));
    assert(h.subrange(6, 8) =~= bytes::be16(kind.number()));
    assert(h.subrange(8, 12) =~= bytes::be32(stream_id));
    assert(h.subrange(12, 16) =~= bytes::be32(payload_len as u32));
    assert(kind.number() == header_kind(h));
}

/// Reading the bytes of a frame gives the frame.
pub proof fn lemma_frame_round_trip(frame: FrameView)
    requires
        frame.payload.len() <= MAX_PAYLOAD,
    ensures
        decodes(encoded(frame), frame),
        decode_fault(encoded(frame)) is None,
        forall|other: FrameView| decodes(encoded(frame), other) ==> other == frame,
{
    let h = header(frame.kind, frame.stream_id, frame.payload.len());
    let b = encoded(frame);
    lemma_header_fields(frame.kind, frame.stream_id, frame.payload.len());
    assert(b.take(16) =~= h);
    assert(b.subrange(6, 8) =~= h.subrange(6, 8));
    assert(b.subrange(8, 12) =~= h.subrange(8, 12));
    assert(b.subrange(12, 16) =~= h.subrange(12, 16));
    assert(b.skip(16) =~= frame.payload);
    assert forall|other: FrameView| decodes(b, other) implies other == frame by {
        lemma_number_injective(other.kind, frame.kind);
        assert(other.payload == frame.payload);
    }
}

/// Bytes of our own version that are a frame are exactly the bytes of that frame.
pub proof fn lemma_bytes_round_trip(b: Seq<u8>, frame: FrameView)
    requires
        decodes(b, frame),
        header_version(b) == VERSION,
    ensures
        encoded(frame) == b,
{
    bytes::lemma_value16_round_trip(b.subrange(4, 6));
    bytes::lemma_value16_round_trip(b.subrange(6, 8));
    bytes::lemma_value32_round_trip(b.subrange(8, 12));
    bytes::lemma_value32_round_trip(b.subrange(12, 16));
    assert(b.take(16).subrange(0, 4) =~= b.subrange(0, 4));
    assert(MAGIC@.len() == 4);
    assert(b =~= b.subrange(0, 4) + b.subrange(4, 6) + b.subrange(6, 8) + b.subrange(8, 12)
        + b.subrange(12, 16) + b.skip(16));
    assert(frame.payload.len() == header_payload_len(b));
}

/// The header of a frame; an error when the payload is too long.
pub fn frame_header(kind: FrameKind, stream_id: u32, payload_len: usize) -> (r: Result<
    Vec<u8>,
    FrameError,
>)
    ensures
        match r {
            Ok(h) => payload_len <= MAX_PAYLOAD && h@ == header(kind, stream_id, payload_len as nat),
            Err(e) => payload_len > MAX_PAYLOAD && e == FrameError::PayloadTooLarge(payload_len),
        },
{
    if payload_len > MAX_PAYLOAD {
        return Err(FrameError::PayloadTooLarge(payload_len));
    }
    let mut out: Vec<u8> = Vec::with_capacity(HEADER_LEN);
    bytes::append(&mut out, MAGIC.as_slice());
    bytes::push_be16(&mut out, VERSION);
    bytes::push_be16(&mut out, kind.code());
    bytes::push_be32(&mut out, stream_id);
    bytes::push_be32(&mut out, payload_len as u32);
    assert(out@ =~= header(kind, stream_id, payload_len as nat));
    Ok(out)
}

/// The kind, stream and payload length of a header.
pub fn decode_frame_header(h: &[u8]) -> (r: Result<(FrameKind, u32, usize), FrameError>)
    requires
        h@.len() == HEADER_LEN,
    ensures
        match r {
            Ok((kind, stream_id, len)) => header_fault(h@) is None && kind.number() == header_kind(h@)
                && stream_id == header_stream(h@) && len == header_payload_len(h@),
            Err(e) => header_fault(h@) == Some(e),
        },
{
    let magic = bytes::copy_range(h, 0, 4);
    if !bytes::same(magic.as_slice(), MAGIC.as_slice()) {
        return Err(FrameError::Magic);
    }
    let version: u16 = bytes::read_be16(h, 4);
    if !protocol_compatible(version) {
        return Err(FrameError::Version(version));
    }
    match FrameKind::from_code(bytes::read_be16(h, 6)) {
        Err(e) => Err(e),
        Ok(kind) => {
            let stream_id: u32 = bytes::read_be32(h, 8);
            let len: usize = bytes::read_be32(h, 12) as usize;
            assert(kind.number() == header_kind(h@));
            if len > MAX_PAYLOAD {
                return Err(FrameError::PayloadTooLarge(len));
            }
            Ok((kind, stream_id, len))
        },
    }
}

/// The bytes of a frame; an error when the payload is too long.
pub fn encode_frame_bytes(frame: &Frame) -> (r: Result<Vec<u8>, FrameError>)
    ensures
        match r {
            Ok(b) => frame@.payload.len() <= MAX_PAYLOAD && b@ == encoded(frame@),
            Err(e) => frame@.payload.len() > MAX_PAYLOAD && e == FrameError::PayloadTooLarge(
                frame@.payload.len() as usize,
            ),
        },
{
    match frame_header(frame.kind, frame.stream_id, frame.payload.len()) {
        Err(e) => Err(e),
        Ok(mut out) => {
            bytes::append(&mut out, frame.payload.as_slice());
            Ok(out)
        },
    }
}

/// Reads a whole frame.
pub fn decode_frame_bytes(b: &[u8]) -> (r: Result<Frame, FrameError>)
    ensures
        match r {
            Ok(frame) => decodes(b@, frame@) && decode_fault(b@) is None,
            Err(e) => decode_fault(b@) == Some(e),
        },
{
    if b.len() < HEADER_LEN {
        return Err(FrameError::Truncated);
    }
    let h = bytes::copy_range(b, 0, HEADER_LEN);
    assert(h@ =~= b@.take(HEADER_LEN as int));
    assert(h@.subrange(6, 8) =~= b@.subrange(6, 8));
    assert(h@.subrange(8, 12) =~= b@.subrange(8, 12));
    assert(h@.subrange(12, 16) =~= b@.subrange(12, 16));
    match decode_frame_header(h.as_slice()) {
        Err(e) => Err(e),
        Ok((kind, stream_id, len)) => {
            if b.len() != HEADER_LEN + len {
                return Err(FrameError::Length);
            }
            let payload = bytes::copy_range(b, HEADER_LEN, b.len());
            assert(payload@ =~= b@.skip(HEADER_LEN as int));
            Ok(Frame { kind, stream_id, payload })
        },
    }
}

/// A frame with the given payload.
pub fn raw_frame(kind: FrameKind, stream_id: u32, payload: Vec<u8>) -> (r: Frame)
    ensures
        r@ == (FrameView { kind, stream_id, payload: payload@ }),
        r.payload == payload,
{
    Frame { kind, stream_id, payload }
}

/// A version is made up of its two parts and of nothing else. A peer is spoken with exactly if its
/// major part is that of this side, and then in no version that either side does not know.
pub proof fn lemma_version_has_two_parts(version: u16)
    ensures
        major(version) * 256 + minor(version) == version,
        compatible(version) <==> negotiated(version) is Some,
        compatible(version) <==> version / 256 == VERSION / 256,
        negotiated(version) matches Some(v) ==> v <= version && v <= VERSION && (v == version || v
            == VERSION),
{
}

/// The numbers on the wire are fixed: each of them stands for one kind, and peers of any version
/// read it in the same way.
pub proof fn lemma_wire_numbers_are_fixed(kind: FrameKind)
    ensures
        kind.number() == 1 <==> kind == FrameKind::Hello,
        kind.number() == 2 <==> kind == FrameKind::HelloAck,
        kind.number() == 10 <==> kind == FrameKind::ExecRequest,
        kind.number() == 11 <==> kind == FrameKind::ExecStdout,
        kind.number() == 12 <==> kind == FrameKind::ExecStderr,
        kind.number() == 13 <==> kind == FrameKind::ExecExit,
        kind.number() == 20 <==> kind == FrameKind::Ping,
        kind.number() == 21 <==> kind == FrameKind::Pong,
        kind.number() == 22 <==> kind == FrameKind::StreamCancel,
        kind.number() == 30 <==> kind == FrameKind::PushRequest,
        kind.number() == 31 <==> kind == FrameKind::FileChunk,
        kind.number() == 32 <==> kind == FrameKind::FileEnd,
        kind.number() == 33 <==> kind == FrameKind::PullRequest,
        kind.number() == 34 <==> kind == FrameKind::FileMeta,
        kind.number() == 40 <==> kind == FrameKind::ProxyStartRequest,
        kind.number() == 41 <==> kind == FrameKind::ProxyStartAck,
        kind.number() == 50 <==> kind == FrameKind::PtyOpen,
        kind.number() == 51 <==> kind == FrameKind::PtyOpenAck,
        kind.number() == 52 <==> kind == FrameKind::PtyInput,
        kind.number() == 53 <==> kind == FrameKind::PtyOutput,
        kind.number() == 54 <==> kind == FrameKind::PtyResize,
        kind.number() == 55 <==> kind == FrameKind::PtyExit,
        kind.number() == 56 <==> kind == FrameKind::PtyClose,
        kind.number() == 57 <==> kind == FrameKind::PtyComplete,
        kind.number() == 58 <==> kind == FrameKind::PtyCompleteResult,
        kind.number() == 60 <==> kind == FrameKind::ClipboardGet,
        kind.number() == 61 <==> kind == FrameKind::ClipboardSet,
        kind.number() == 62 <==> kind == FrameKind::ClipboardClear,
        kind.number() == 63 <==> kind == FrameKind::ClipboardData,
        kind.number() == 255 <==> kind == FrameKind::Error,
{
}

/// A header is read exactly if it begins with the magic, its version has the major part of this
/// side, whatever the minor part is, its kind is known, and its payload is no longer than 16 MiB.
pub proof fn lemma_any_minor_version_is_read(
    magic: Seq<u8>,
    version: u16,
    number: u16,
    stream_id: u32,
    payload_len: u32,
    kind: FrameKind,
)
    requires
        magic.len() == 4,
    ensures
        ({
            let h = magic + bytes::be16(version) + bytes::be16(number) + bytes::be32(stream_id)
                + bytes::be32(payload_len);
            &&& header_fault(h) is None <==> magic == seq!['S' as u8, 'I' as u8, 'D' as u8, 'E' as u8] && version / 256
                == VERSION / 256 && payload_len <= 16 * 1024 * 1024 && exists|k: FrameKind| #[trigger]
                k.number() == number
            &&& number == kind.number() && magic == seq!['S' as u8, 'I' as u8, 'D' as u8, 'E' as u8] && version / 256
                == VERSION / 256 && payload_len <= 16 * 1024 * 1024 ==> header_fault(h) is None
            &&& header_stream(h) == stream_id
            &&& header_payload_len(h) == payload_len
        }),
{
    let h = magic + bytes::be16(version) + bytes::be16(number) + bytes::be32(stream_id)
        + bytes::be32(payload_len);
    bytes::lemma_be16_round_trip(version);
    bytes::lemma_be16_round_trip(number);
    bytes::lemma_be32_round_trip(stream_id);
    bytes::lemma_be32_round_trip(payload_len);
    assert(h.subrange(0, 4) =~= magic);
    assert(h.subrange(4, 6) =~= bytes::be16(version));
    assert(h.subrange(6, 8) =~= bytes::be16(number));
    assert(h.subrange(8, 12) =~= bytes::be32(stream_id));
    assert(h.subrange(12, 16) =~= bytes::be32(payload_len));
    lemma_version_has_two_parts(version);
    assert(MAGIC@ =~= seq!['S' as u8, 'I' as u8, 'D' as u8, 'E' as u8]);
    assert(kind.number() == kind.number());
}

} // verus!
