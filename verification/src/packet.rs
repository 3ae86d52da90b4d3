//! Length-prefixed packets of the security handshake, and the bookkeeping of vectored writes.

use vstd::prelude::*;
use vstd::string::*;
use crate::bytes;
use crate::text;

verus! {

pub const MAX_PACKET: usize = 131072;

/// A packet of more than [`MAX_PACKET`] bytes, to be written or announced by the peer.
#[derive(Debug, Clone, Copy, PartialEq, Eq, Structural)]
pub struct PacketTooLarge(pub usize);

impl PacketTooLarge {
    pub open spec fn text(self) -> Seq<char> {
        "security packet too large: "@ + text::decimal(self.0 as nat) + " bytes"@
    }

    pub fn message(self) -> (r: String)
        ensures
            r@ == self.text(),
    {
        let mut out = String::from_str("security packet too large: ");
        out.append(text::decimal_string(self.0 as u64).as_str());
        out.append(" bytes");
        out
    }
}

/// Whether a packet of some length may be written.
pub open spec fn packet_fits(len: nat) -> bool {
    len <= MAX_PACKET
}

/// The length that a header announces, unless it is too large.
pub open spec fn announced(header: Seq<u8>) -> Result<usize, PacketTooLarge> {
    if bytes::value32(header) <= MAX_PACKET {
        Ok(bytes::value32(header) as usize)
    } else {
        Err(PacketTooLarge(bytes::value32(header) as usize))
    }
}

/// The four bytes that precede a packet.
pub fn packet_header(len: usize) -> (r: Result<Vec<u8>, PacketTooLarge>)
    ensures
        match r {
            Ok(h) => packet_fits(len as nat) && h@ == bytes::be32(len as u32),
            Err(e) => !packet_fits(len as nat) && e == PacketTooLarge(len),
        },
{
    if len > MAX_PACKET {
        return Err(PacketTooLarge(len));
    }
    let mut out: Vec<u8> = Vec::with_capacity(4);
    bytes::push_be32(&mut out, len as u32);
    assert(out@ =~= bytes::be32(len as u32));
    Ok(out)
}

/// The number of bytes that follow a packet header.
pub fn packet_len(header: &[u8]) -> (r: Result<usize, PacketTooLarge>)
    requires
        header@.len() == 4,
    ensures
        r == announced(header@),
{
    let len: usize = bytes::read_be32(header, 0) as usize;
    assert(header@.subrange(0, 4) =~= header@);
    if len > MAX_PACKET {
        return Err(PacketTooLarge(len));
    }
    Ok(len)
}

/// The length read from the header of a packet is the length that was written.
pub proof fn lemma_packet_len_round_trip(len: usize)
    requires
        len <= MAX_PACKET,
    ensures
        bytes::value32(bytes::be32(len as u32)) == len,
{
    bytes::lemma_be32_round_trip(len as u32);
}

/// How much of a header and of the body behind it a writer has taken so far.
#[derive(Debug, Clone, Copy, PartialEq, Eq, Structural)]
pub struct WriteCursor {
    pub header_len: usize,
    pub body_len: usize,
    pub header_offset: usize,
    pub body_offset: usize,
}

impl WriteCursor {
    /// The header is taken before the body.
    pub open spec fn wf(self) -> bool {
        &&& self.header_offset <= self.header_len
        &&& self.body_offset <= self.body_len
        &&& self.body_offset > 0 ==> self.header_offset == self.header_len
        &&& self.header_len + self.body_len <= usize::MAX
    }

    /// The number of bytes taken.
    pub open spec fn taken(self) -> int {
        self.header_offset + self.body_offset
    }

    pub fn new(header_len: usize, body_len: usize) -> (r: WriteCursor)
        requires
            header_len + body_len <= usize::MAX,
        ensures
            r.wf(),
            r.taken() == 0,
            r.header_len == header_len,
            r.body_len == body_len,
    {
        WriteCursor { header_len, body_len, header_offset: 0, body_offset: 0 }
    }

    /// Whether part of the header is still to be written, together with the body.
    pub fn in_header(self) -> (r: bool)
        ensures
            r == (self.header_offset < self.header_len),
    {
        self.header_offset < self.header_len
    }

    /// Accounts for one vectored write of the rest of the header and of the body. A write
    /// that takes nothing is refused.
    pub fn advance(&mut self, written: usize) -> (r: bool)
        requires
            old(self).wf(),
            old(self).header_offset < old(self).header_len,
            old(self).taken() + written <= old(self).header_len + old(self).body_len,
        ensures
            r == (written > 0),
            final(self).wf(),
            final(self).taken() == old(self).taken() + written,
            final(self).header_len == old(self).header_len,
            final(self).body_len == old(self).body_len,
    {
        if written == 0 {
            return false;
        }
        let header_left: usize = self.header_len - self.header_offset;
        if written < header_left {
            self.header_offset = self.header_offset + written;
        } else {
            self.header_offset = self.header_len;
            self.body_offset = self.body_offset + (written - header_left);
        }
        true
    }
}

/// What a cursor has taken and what it has still to take make up header and body, in order.
pub proof fn lemma_cursor_splits(cursor: WriteCursor, header: Seq<u8>, body: Seq<u8>)
    requires
        cursor.wf(),
        cursor.header_len == header.len(),
        cursor.body_len == body.len(),
    ensures
        (header + body).take(cursor.taken()) == header.take(cursor.header_offset as int)
            + body.take(cursor.body_offset as int),
        (header + body).skip(cursor.taken()) == header.skip(cursor.header_offset as int)
            + body.skip(cursor.body_offset as int),
{
    let h = cursor.header_offset as int;
    let b = cursor.body_offset as int;
    assert((header + body).take(h + b) =~= header.take(h) + body.take(b));
    assert((header + body).skip(h + b) =~= header.skip(h) + body.skip(b));
}

/// What one peer may write the other may read, and nothing more: packets of up to 128 KiB, whose
/// length the header tells exactly.
pub proof fn lemma_written_packets_are_read(len: u32)
    ensures
        packet_fits(len as nat) <==> announced(bytes::be32(len)) is Ok,
        packet_fits(len as nat) <==> len <= 128 * 1024,
        announced(bytes::be32(len)) matches Ok(n) ==> n == len,
{
    bytes::lemma_be32_round_trip(len);
}

} // verus!
