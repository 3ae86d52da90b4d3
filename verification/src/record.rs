//! Frames cut into encrypted records, and the records of a proxy tunnel.

use vstd::prelude::*;
use vstd::string::*;
use crate::bytes;
use crate::frame;
use crate::frame::{decode_frame_header, frame_header, Frame, FrameError, FrameKind, HEADER_LEN, MAX_PAYLOAD};
use crate::text;

verus! {

/// The most bytes of a frame that one record carries.
pub const NOISE_CHUNK: usize = 61440;

/// The records of some bytes: each carries a flag, one in the last record and zero before it,
/// and up to [`NOISE_CHUNK`] bytes.
pub open spec fn records(b: Seq<u8>) -> Seq<Seq<u8>>
    decreases b.len(),
{
    if b.len() <= NOISE_CHUNK {
        seq![seq![1u8] + b]
    } else {
        seq![seq![0u8] + b.take(NOISE_CHUNK as int)] + records(b.skip(NOISE_CHUNK as int))
    }
}

/// A frame on its way into records.
pub struct FrameRecords<'a> {
    pub header: Vec<u8>,
    pub payload: &'a [u8],
    pub offset: usize,
}

impl<'a> FrameRecords<'a> {
    pub open spec fn wf(&self) -> bool {
        &&& self.header@.len() == HEADER_LEN
        &&& self.payload@.len() <= MAX_PAYLOAD
        &&& self.offset <= HEADER_LEN + self.payload@.len()
    }

    /// The records that are still to come.
    pub open spec fn remaining(&self) -> Seq<Seq<u8>> {
        let all = self.header@ + self.payload@;
        if self.offset < all.len() {
            records(all.skip(self.offset as int))
        } else {
            Seq::empty()
        }
    }

    /// The records of a frame; an error when its payload is too long.
    pub fn new(kind: FrameKind, stream_id: u32, payload: &'a [u8]) -> (r: Result<
        FrameRecords<'a>,
        FrameError,
    >)
        ensures
            match r {
                Ok(all) => payload@.len() <= MAX_PAYLOAD && all.wf() && all.remaining() == records(
                    frame::encoded(
                        (frame::FrameView { kind, stream_id, payload: payload@ }),
                    ),
                ),
                Err(e) => payload@.len() > MAX_PAYLOAD && e == FrameError::PayloadTooLarge(
                    payload@.len() as usize,
                ),
            },
    {
        match frame_header(kind, stream_id, payload.len()) {
            Err(e) => Err(e),
            Ok(header) => {
                proof {
                    frame::lemma_header_fields(kind, stream_id, payload@.len());
                    assert((header@ + payload@).skip(0) =~= header@ + payload@);
                }
                Ok(FrameRecords { header, payload, offset: 0 })
            },
        }
    }

    /// The next record, if one is left.
    pub fn next_record(&mut self) -> (r: Option<Vec<u8>>)
        requires
            old(self).wf(),
        ensures
            final(self).wf(),
            match r {
                Some(record) => old(self).remaining().len() > 0 && record@ == old(self).remaining()[0] && final(self).remaining() == old(self).remaining().drop_first(),
                None => old(self).remaining().len() == 0 && final(self).remaining() == old(self).remaining(),
            },
    {
        let total: usize = HEADER_LEN + self.payload.len();
        if self.offset >= total {
            return None;
        }
        let left: usize = total - self.offset;
        let chunk: usize = if left < NOISE_CHUNK {
            left
        } else {
            NOISE_CHUNK
        };
        let end: usize = self.offset + chunk;
        let mut out: Vec<u8> = Vec::with_capacity(chunk + 1);
        out.push(
            if end == total {
                1
            } else {
                0
            },
        );
        let ghost all = self.header@ + self.payload@;
        let ghost flag = out@;
        if self.offset < HEADER_LEN {
            let header_end: usize = if end < HEADER_LEN {
                end
            } else {
                HEADER_LEN
            };
            bytes::append_range(&mut out, self.header.as_slice(), self.offset, header_end);
            bytes::append_range(&mut out, self.payload, 0, end - header_end);
        } else {
            bytes::append_range(&mut out, self.payload, self.offset - HEADER_LEN, end - HEADER_LEN);
        }
        assert(out@ =~= flag + all.subrange(self.offset as int, end as int));
        let ghost rest = all.skip(self.offset as int);
        proof {
            assert(rest.len() == left);
            if left <= NOISE_CHUNK {
                assert(all.subrange(self.offset as int, end as int) =~= rest);
                assert(records(rest) == seq![seq![1u8] + rest]);
                assert(records(rest).drop_first() =~= Seq::<Seq<u8>>::empty());
            } else {
                assert(all.subrange(self.offset as int, end as int) =~= rest.take(
                    NOISE_CHUNK as int,
                ));
                assert(rest.skip(NOISE_CHUNK as int) =~= all.skip(end as int));
                assert(records(rest).drop_first() =~= records(rest.skip(NOISE_CHUNK as int)));
            }
        }
        self.offset = end;
        Some(out)
    }
}

/// Why a record cannot be part of a frame.
#[derive(Debug, Clone, Copy, PartialEq, Eq, Structural)]
pub enum RecordError {
    Empty,
    Flag(u8),
    Frame(FrameError),
    Exceeded,
    MissingFinal,
    TruncatedHeader,
}

impl RecordError {
    pub open spec fn text(self) -> Seq<char> {
        match self {
            RecordError::Empty => "empty encrypted SideWire record"@,
            RecordError::Flag(f) => "invalid encrypted SideWire record flag "@ + text::decimal(
                f as nat,
            ),
            RecordError::Frame(e) => e.text(),
            RecordError::Exceeded => "encrypted SideWire frame exceeded declared payload length"@,
            RecordError::MissingFinal => "encrypted SideWire frame missing final record flag"@,
            RecordError::TruncatedHeader => "truncated encrypted SideWire frame header"@,
        }
    }

    pub fn message(self) -> (r: String)
        ensures
            r@ == self.text(),
    {
        match self {
            RecordError::Empty => String::from_str("empty encrypted SideWire record"),
            RecordError::Flag(f) => {
                let mut out = String::from_str("invalid encrypted SideWire record flag ");
                out.append(text::decimal_string(f as u64).as_str());
                out
            },
            RecordError::Frame(e) => e.message(),
            RecordError::Exceeded => String::from_str(
                "encrypted SideWire frame exceeded declared payload length",
            ),
            RecordError::MissingFinal => String::from_str(
                "encrypted SideWire frame missing final record flag",
            ),
            RecordError::TruncatedHeader => String::from_str(
                "truncated encrypted SideWire frame header",
            ),
        }
    }
}

/// What a record makes of the bytes received before it.
pub enum Fed {
    /// The record is refused.
    Fault(RecordError),
    /// These bytes are received and the frame goes on.
    More(Seq<u8>),
    /// These bytes are the whole frame.
    Done(Seq<u8>),
}

/// Receiving `record` behind the bytes `received`.
pub open spec fn fed(received: Seq<u8>, record: Seq<u8>) -> Fed {
    if record.len() == 0 {
        Fed::Fault(RecordError::Empty)
    } else if record[0] > 1 {
        Fed::Fault(RecordError::Flag(record[0]))
    } else {
        let b = received + record.drop_first();
        let last = record[0] == 1;
        if b.len() < HEADER_LEN {
            if last {
                Fed::Fault(RecordError::TruncatedHeader)
            } else {
                Fed::More(b)
            }
        } else if frame::header_fault(b.take(HEADER_LEN as int)) is Some {
            Fed::Fault(RecordError::Frame(frame::header_fault(b.take(HEADER_LEN as int))->0))
        } else {
            let expected = HEADER_LEN + frame::header_payload_len(b);
            if b.len() > expected {
                Fed::Fault(RecordError::Exceeded)
            } else if last && b.len() < expected {
                Fed::Fault(RecordError::Frame(FrameError::Length))
            } else if last {
                Fed::Done(b)
            } else if b.len() == expected {
                Fed::Fault(RecordError::MissingFinal)
            } else {
                Fed::More(b)
            }
        }
    }
}

/// A frame on its way out of records.
pub struct FrameAssembler {
    header: Vec<u8>,
    metadata: Option<(FrameKind, u32, usize)>,
    payload: Vec<u8>,
}

impl View for FrameAssembler {
    type V = Seq<u8>;

    /// The bytes of the frame that have arrived.
    closed spec fn view(&self) -> Seq<u8> {
        self.header@ + self.payload@
    }
}

impl FrameAssembler {
    pub closed spec fn wf(&self) -> bool {
        &&& self.header@.len() <= HEADER_LEN
        &&& match self.metadata {
            None => self.header@.len() < HEADER_LEN && self.payload@.len() == 0,
            Some((kind, stream_id, expected)) => {
                &&& self.header@.len() == HEADER_LEN
                &&& frame::header_fault(self.header@) is None
                &&& kind.number() == frame::header_kind(self.header@)
                &&& stream_id == frame::header_stream(self.header@)
                &&& expected == frame::header_payload_len(self.header@)
                &&& self.payload@.len() <= expected <= MAX_PAYLOAD
            },
        }
    }

    pub fn new() -> (r: FrameAssembler)
        ensures
            r.wf(),
            r@ == Seq::<u8>::empty(),
    {
        let r = FrameAssembler { header: Vec::new(), metadata: None, payload: Vec::new() };
        assert(r@ =~= Seq::<u8>::empty());
        r
    }

    /// Takes one record. A whole frame leaves the assembler empty again.
    pub fn feed(&mut self, record: &[u8]) -> (r: Result<Option<Frame>, RecordError>)
        requires
            old(self).wf(),
        ensures
            final(self).wf(),
            match fed(old(self)@, record@) {
                Fed::Fault(e) => r == Err::<Option<Frame>, RecordError>(e),
                Fed::More(b) => r == Ok::<Option<Frame>, RecordError>(None) && final(self)@ == b,
                Fed::Done(b) => {
                    &&& r matches Ok(Some(frame)) && frame::decodes(b, frame@)
                    &&& final(self)@ == Seq::<u8>::empty()
                },
            },
    {
        if record.len() == 0 {
            return Err(RecordError::Empty);
        }
        let flag: u8 = record[0];
        if flag > 1 {
            return Err(RecordError::Flag(flag));
        }
        let ghost b = self@ + record@.drop_first();
        assert(Seq::<u8>::empty() + (seq![flag] + b).drop_first() =~= b);
        if self.metadata.is_none() {
            match self.fill_header(record) {
                Err(e) => Err(RecordError::Frame(e)),
                Ok(at) => self.take_body(record, at, flag == 1),
            }
        } else {
            assert(record@.skip(1) =~= record@.drop_first());
            self.take_body(record, 1, flag == 1)
        }
    }

    /// Moves bytes of a record into the header until it is full, and says where the rest of
    /// the record begins.
    fn fill_header(&mut self, record: &[u8]) -> (r: Result<usize, FrameError>)
        requires
            old(self).wf(),
            old(self).metadata is None,
            record@.len() > 0,
        ensures
            final(self).wf(),
            ({
                let b = old(self)@ + record@.drop_first();
                match r {
                    Ok(at) => {
                        &&& 1 <= at <= record@.len()
                        &&& b == final(self)@ + record@.skip(at as int)
                        &&& b.len() < HEADER_LEN ==> final(self).metadata is None && at
                            == record@.len()
                        &&& b.len() >= HEADER_LEN ==> final(self).metadata is Some
                    },
                    Err(e) => b.len() >= HEADER_LEN && frame::header_fault(
                        b.take(HEADER_LEN as int),
                    ) == Some(e),
                }
            }),
    {
        let ghost b = self@ + record@.drop_first();
        let missing: usize = HEADER_LEN - self.header.len();
        let available: usize = record.len() - 1;
        let take: usize = if missing < available {
            missing
        } else {
            available
        };
        let at: usize = 1 + take;
        bytes::append_range(&mut self.header, record, 1, at);
        assert(b =~= self.header@ + record@.skip(at as int));
        assert(self@ =~= self.header@);
        if self.header.len() == HEADER_LEN {
            assert(self.header@ =~= b.take(HEADER_LEN as int));
            match decode_frame_header(self.header.as_slice()) {
                Err(e) => {
                    *self = FrameAssembler::new();
                    return Err(e);
                },
                Ok(decoded) => {
                    self.metadata = Some(decoded);
                },
            }
        }
        Ok(at)
    }

    /// Takes the part of a record behind the header.
    fn take_body(&mut self, record: &[u8], at: usize, last: bool) -> (r: Result<
        Option<Frame>,
        RecordError,
    >)
        requires
            old(self).wf(),
            1 <= at <= record@.len(),
            old(self).metadata is None ==> at == record@.len(),
        ensures
            final(self).wf(),
            ({
                let b = old(self)@ + record@.skip(at as int);
                let flag: u8 = if last {
                    1
                } else {
                    0
                };
                match fed(Seq::empty(), seq![flag] + b) {
                    Fed::Fault(e) => r == Err::<Option<Frame>, RecordError>(e),
                    Fed::More(b) => r == Ok::<Option<Frame>, RecordError>(None) && final(self)@
                        == b,
                    Fed::Done(b) => {
                        &&& r matches Ok(Some(frame)) && frame::decodes(b, frame@)
                        &&& final(self)@ == Seq::<u8>::empty()
                    },
                }
            }),
    {
        let ghost b = self@ + record@.skip(at as int);
        let ghost flag: u8 = if last {
            1
        } else {
            0
        };
        assert(Seq::<u8>::empty() + (seq![flag] + b).drop_first() =~= b);
        match self.metadata {
            None => {
                assert(self@ =~= b);
                if last {
                    Err(RecordError::TruncatedHeader)
                } else {
                    Ok(None)
                }
            },
            Some((kind, stream_id, expected)) => {
                assert(b.take(HEADER_LEN as int) =~= self.header@);
                assert(b.subrange(6, 8) =~= self.header@.subrange(6, 8));
                assert(b.subrange(8, 12) =~= self.header@.subrange(8, 12));
                assert(b.subrange(12, 16) =~= self.header@.subrange(12, 16));
                if record.len() - at > expected - self.payload.len() {
                    return Err(RecordError::Exceeded);
                }
                bytes::append_range(&mut self.payload, record, at, record.len());
                assert(self@ =~= b);
                if !last {
                    if self.payload.len() == expected {
                        return Err(RecordError::MissingFinal);
                    }
                    return Ok(None);
                }
                if self.payload.len() != expected {
                    return Err(RecordError::Frame(FrameError::Length));
                }
                assert(b.skip(HEADER_LEN as int) =~= self.payload@);
                let payload = bytes::copy(self.payload.as_slice());
                *self = FrameAssembler::new();
                Ok(Some(Frame { kind, stream_id, payload }))
            },
        }
    }
}

/// Receiving several records, one after the other. A frame that is whole before the last of
/// them counts as a fault.
pub open spec fn assembled(received: Seq<u8>, recs: Seq<Seq<u8>>) -> Fed
    decreases recs.len(),
{
    if recs.len() == 0 {
        Fed::More(received)
    } else {
        match fed(received, recs[0]) {
            Fed::More(b) => assembled(b, recs.drop_first()),
            Fed::Done(b) => if recs.len() == 1 {
                Fed::Done(b)
            } else {
                Fed::Fault(RecordError::Exceeded)
            },
            Fed::Fault(e) => Fed::Fault(e),
        }
    }
}

proof fn lemma_rest_reassembles(frame: frame::FrameView, received: Seq<u8>, rest: Seq<u8>)
    requires
        frame.payload.len() <= MAX_PAYLOAD,
        received + rest == frame::encoded(frame),
        rest.len() > 0,
    ensures
        assembled(received, records(rest)) == Fed::Done(frame::encoded(frame)),
    decreases rest.len(),
{
    let whole = frame::encoded(frame);
    let recs = records(rest);
    frame::lemma_frame_round_trip(frame);
    assert(frame::header_payload_len(whole) == frame.payload.len());
    if rest.len() <= NOISE_CHUNK {
        assert(recs[0].drop_first() =~= rest);
    } else {
        let chunk = rest.take(NOISE_CHUNK as int);
        let tail = rest.skip(NOISE_CHUNK as int);
        assert(recs[0] == seq![0u8] + chunk);
        assert(recs[0].drop_first() =~= chunk);
        assert(recs.drop_first() =~= records(tail));
        let b = received + chunk;
        assert(b + tail =~= whole);
        assert(b.take(HEADER_LEN as int) =~= whole.take(HEADER_LEN as int));
        assert(b.subrange(12, 16) =~= whole.subrange(12, 16));
        lemma_rest_reassembles(frame, b, tail);
    }
}

/// The records of a frame, received in order, give back exactly that frame, with the last
/// record and not before.
pub proof fn lemma_records_reassemble(frame: frame::FrameView)
    requires
        frame.payload.len() <= MAX_PAYLOAD,
    ensures
        assembled(Seq::empty(), records(frame::encoded(frame))) == Fed::Done(
            frame::encoded(frame),
        ),
        frame::decodes(frame::encoded(frame), frame),
{
    frame::lemma_frame_round_trip(frame);
    assert(Seq::<u8>::empty() + frame::encoded(frame) =~= frame::encoded(frame));
    lemma_rest_reassembles(frame, Seq::empty(), frame::encoded(frame));
}

/// No record of a frame is longer than one flag and [`NOISE_CHUNK`] bytes.
pub proof fn lemma_record_len(b: Seq<u8>, i: int)
    requires
        0 <= i < records(b).len(),
    ensures
        records(b)[i].len() <= NOISE_CHUNK + 1,
    decreases b.len(),
{
    if b.len() > NOISE_CHUNK {
        if i > 0 {
            lemma_record_len(b.skip(NOISE_CHUNK as int), i - 1);
            assert(records(b)[i] == records(b.skip(NOISE_CHUNK as int))[i - 1]);
        }
    }
}

/// A record of a proxy tunnel that was received.
pub enum TunnelRecord {
    Data(Vec<u8>),
    End,
}

/// Why a record of a proxy tunnel is refused.
#[derive(Debug, Clone, Copy, PartialEq, Eq, Structural)]
pub enum TunnelError {
    Empty,
    Invalid,
}

impl TunnelError {
    pub open spec fn text(self) -> Seq<char> {
        match self {
            TunnelError::Empty => "empty encrypted proxy record"@,
            TunnelError::Invalid => "invalid encrypted proxy record"@,
        }
    }

    pub fn message(self) -> (r: String)
        ensures
            r@ == self.text(),
    {
        match self {
            TunnelError::Empty => String::from_str("empty encrypted proxy record"),
            TunnelError::Invalid => String::from_str("invalid encrypted proxy record"),
        }
    }
}

/// The record for one read of the plain side: a zero and the bytes, or a one at the end of the
/// stream, where a read gives no bytes.
pub open spec fn tunnel_record_spec(read: Seq<u8>) -> Seq<u8> {
    if read.len() == 0 {
        seq![1u8]
    } else {
        seq![0u8] + read
    }
}

pub fn tunnel_record(read: &[u8]) -> (r: Vec<u8>)
    ensures
        r@ == tunnel_record_spec(read@),
{
    let mut out: Vec<u8> = Vec::new();
    if read.len() == 0 {
        out.push(1);
    } else {
        out.push(0);
        bytes::append(&mut out, read);
    }
    assert(out@ =~= tunnel_record_spec(read@));
    out
}

/// The bytes in a tunnel record; `None` at the end of the stream.
pub open spec fn tunnel_read(record: Seq<u8>) -> Result<Option<Seq<u8>>, TunnelError> {
    if record.len() == 0 {
        Err(TunnelError::Empty)
    } else if record[0] == 0 {
        Ok(Some(record.drop_first()))
    } else if record == seq![1u8] {
        Ok(None)
    } else {
        Err(TunnelError::Invalid)
    }
}

/// What a received tunnel record says.
pub fn read_tunnel_record(record: &[u8]) -> (r: Result<TunnelRecord, TunnelError>)
    ensures
        match r {
            Ok(TunnelRecord::Data(data)) => tunnel_read(record@) == Ok::<
                Option<Seq<u8>>,
                TunnelError,
            >(Some(data@)),
            Ok(TunnelRecord::End) => tunnel_read(record@) == Ok::<Option<Seq<u8>>, TunnelError>(
                None,
            ),
            Err(e) => tunnel_read(record@) == Err::<Option<Seq<u8>>, TunnelError>(e),
        },
{
    if record.len() == 0 {
        return Err(TunnelError::Empty);
    }
    if record[0] == 0 {
        let data = bytes::copy_range(record, 1, record.len());
        assert(data@ =~= record@.drop_first());
        Ok(TunnelRecord::Data(data))
    } else if record[0] == 1 && record.len() == 1 {
        assert(record@ =~= seq![1u8]);
        Ok(TunnelRecord::End)
    } else {
        Err(TunnelError::Invalid)
    }
}

/// A tunnel record gives back the bytes that were read, and the end of the stream as the end.
pub proof fn lemma_tunnel_round_trip(read: Seq<u8>)
    ensures
        read.len() > 0 ==> tunnel_record_spec(read).len() > 0 && tunnel_record_spec(read)[0] == 0
            && tunnel_record_spec(read).drop_first() == read,
        read.len() == 0 ==> tunnel_record_spec(read) == seq![1u8],
{
    assert((seq![0u8] + read).drop_first() =~= read);
}

/// What one side of a tunnel read the other side gets, and the end of the stream is told as such.
/// A record with another flag is refused, and so is an end with anything behind it.
pub proof fn lemma_tunnel_carries_the_stream(read: Seq<u8>, record: Seq<u8>)
    ensures
        tunnel_read(tunnel_record_spec(read)) == Ok::<Option<Seq<u8>>, TunnelError>(
            if read.len() == 0 {
                None
            } else {
                Some(read)
            },
        ),
        record.len() > 0 && record[0] > 1 ==> tunnel_read(record) is Err,
        record.len() > 1 && record[0] == 1 ==> tunnel_read(record) is Err,
        record.len() == 0 ==> tunnel_read(record) is Err,
{
    lemma_tunnel_round_trip(read);
    if record.len() > 1 {
        assert(record.len() != seq![1u8].len());
    }
}

/// A frame comes out of a record only if the record says that it is the last, and if the bytes
/// make up a whole frame, to the byte; it goes on only if the record says so and bytes are missing.
/// Whatever is received is kept in order, and nothing is added to it.
pub proof fn lemma_only_whole_frames_come_out(received: Seq<u8>, record: Seq<u8>)
    ensures
        fed(received, record) matches Fed::Done(b) ==> record.len() > 0 && record[0] == 1 && b
            == received + record.drop_first() && frame::decode_fault(b) is None,
        fed(received, record) matches Fed::More(b) ==> record.len() > 0 && record[0] == 0 && b
            == received + record.drop_first() && frame::decode_fault(b) is Some,
        record.len() > 0 && record[0] > 1 ==> fed(received, record) is Fault,
        record.len() == 0 ==> fed(received, record) is Fault,
{
}

/// A frame goes in as few records as it takes at 60 KiB each: all but the last are full, the last
/// is marked and no other, and together they carry the bytes in order.
pub proof fn lemma_records_are_full(b: Seq<u8>, i: int)
    requires
        0 <= i < records(b).len(),
    ensures
        records(b)[i].len() > 0,
        records(b)[i][0] == 1 <==> i == records(b).len() - 1,
        i < records(b).len() - 1 ==> records(b)[i][0] == 0 && records(b)[i].drop_first()
            == b.subrange(i * 61440, (i + 1) * 61440),
        (records(b).len() - 1) * 61440 <= b.len() <= records(b).len() * 61440,
        b.len() > 0 ==> (records(b).len() - 1) * 61440 < b.len(),
        i == records(b).len() - 1 ==> records(b)[i].drop_first() == b.skip(i * 61440),
    decreases b.len(),
{
    if b.len() <= NOISE_CHUNK {
        assert(records(b) =~= seq![seq![1u8] + b]);
        assert((seq![1u8] + b).drop_first() =~= b);
        assert(b.skip(0) =~= b);
    } else {
        let rest = b.skip(61440);
        let head = seq![0u8] + b.take(61440);
        assert(records(b) =~= seq![head] + records(rest));
        assert(records(rest).len() > 0) by {
            assert(rest.len() <= NOISE_CHUNK ==> records(rest) =~= seq![seq![1u8] + rest]);
        }
        assert(head.drop_first() =~= b.subrange(0, 61440));
        if i > 0 {
            lemma_records_are_full(rest, i - 1);
            assert(records(b)[i] == records(rest)[i - 1]);
            if i < records(b).len() - 1 {
                assert(rest.subrange((i - 1) * 61440, i * 61440) =~= b.subrange(
                    i * 61440,
                    (i + 1) * 61440,
                )) by {
                    lemma_records_are_full(rest, records(rest).len() - 1);
                }
            } else {
                assert(rest.skip((i - 1) * 61440) =~= b.skip(i * 61440));
            }
        } else {
            lemma_records_are_full(rest, 0);
        }
    }
}

} // verus!
