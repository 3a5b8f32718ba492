//! The length-prefixed segment format shared by every mini-protocol that
//! runs over one multiplexed connection.
//!
//! A segment is an 8-byte big-endian header (32-bit timestamp, 16-bit
//! protocol id, 16-bit payload length) followed by the payload. The protocol
//! id is kept as it is on the wire, direction bit included; `channel_of`
//! takes the channel out of it.
//!
//! The runner in `app/` does not use this module: it drives the connection
//! through pallas's multiplexer, which frames segments itself. This module
//! states and checks the wire format for callers that hold the byte stream.
use vstd::prelude::*;

verus! {

/// Size of the fixed segment header, in bytes.
pub const HEADER_LEN: usize = 8;

/// Largest payload one segment can carry.
pub const MAX_PAYLOAD_LEN: usize = 65535;

/// Bit of the protocol id that marks a segment as sent by the node.
pub const DIRECTION_BIT: u16 = 0x8000;

/// One decoded segment.
pub struct Segment {
    pub timestamp: u32,
    pub protocol_id: u16,
    pub payload: Vec<u8>,
}

#[derive(Debug, PartialEq, Eq, Structural)]
pub enum FramingError {
    /// The payload does not fit in the 16-bit length field.
    PayloadTooLarge,
}

/// Result of trying to read one segment from the front of a buffer.
pub enum Decoded {
    /// A whole segment, and the number of bytes it took.
    Complete(Segment, usize),
    /// The buffer holds less than one whole segment.
    Incomplete,
}

pub open spec fn be_u16(v: u16) -> Seq<u8> {
    seq![(v >> 8u16) as u8, (v & 0xffu16) as u8]
}

pub open spec fn be_u32(v: u32) -> Seq<u8> {
    seq![(v >> 24u32) as u8, ((v >> 16u32) & 0xffu32) as u8, ((v >> 8u32) & 0xffu32) as u8, (v & 0xffu32) as u8]
}

pub open spec fn read_u16(b0: u8, b1: u8) -> u16 {
    ((b0 as u16) << 8u16) | (b1 as u16)
}

pub open spec fn read_u32(b0: u8, b1: u8, b2: u8, b3: u8) -> u32 {
    ((b0 as u32) << 24u32) | ((b1 as u32) << 16u32) | ((b2 as u32) << 8u32) | (b3 as u32)
}

/// The bytes of one segment on the wire.
pub open spec fn segment_bytes(timestamp: u32, protocol_id: u16, payload: Seq<u8>) -> Seq<u8> {
    be_u32(timestamp) + be_u16(protocol_id) + be_u16(payload.len() as u16) + payload
}

/// What a buffer starts with: a whole segment as (timestamp, protocol id,
/// payload, bytes taken), or `None` while the segment is incomplete.
pub open spec fn decode_spec(buf: Seq<u8>) -> Option<(u32, u16, Seq<u8>, nat)> {
    if buf.len() < HEADER_LEN {
        None
    } else {
        let len = read_u16(buf[6], buf[7]) as nat;
        if buf.len() < HEADER_LEN + len {
            None
        } else {
            Some((
                read_u32(buf[0], buf[1], buf[2], buf[3]),
                read_u16(buf[4], buf[5]),
                buf.subrange(HEADER_LEN as int, HEADER_LEN + len),
                (HEADER_LEN + len) as nat,
            ))
        }
    }
}

/// The channel a protocol id selects: its low 15 bits.
pub open spec fn channel_of(protocol_id: u16) -> u16 {
    protocol_id & 0x7fffu16
}

/// Encodes one segment. Fails when the payload is longer than a segment can carry.
pub fn encode_segment(timestamp: u32, protocol_id: u16, payload: &[u8]) -> (r: Result<
    Vec<u8>,
    FramingError,
>)
    ensures
        payload@.len() > MAX_PAYLOAD_LEN <==> r is Err,
        r matches Ok(bytes) ==> bytes@ == segment_bytes(timestamp, protocol_id, payload@),
        r matches Err(e) ==> e == FramingError::PayloadTooLarge,
{
    if payload.len() > MAX_PAYLOAD_LEN {
        return Err(FramingError::PayloadTooLarge);
    }
    let len = payload.len() as u16;
    let mut out: Vec<u8> = Vec::with_capacity(HEADER_LEN + payload.len());
    out.push((timestamp >> 24u32) as u8);
    out.push(((timestamp >> 16u32) & 0xffu32) as u8);
    out.push(((timestamp >> 8u32) & 0xffu32) as u8);
    out.push((timestamp & 0xffu32) as u8);
    out.push((protocol_id >> 8u16) as u8);
    out.push((protocol_id & 0xffu16) as u8);
    out.push((len >> 8u16) as u8);
    out.push((len & 0xffu16) as u8);
    let mut i: usize = 0;
    while i < payload.len()
        invariant
            i <= payload@.len(),
            len == payload@.len(),
            out@ == be_u32(timestamp) + be_u16(protocol_id) + be_u16(len) + payload@.subrange(0, i as int),
        decreases payload@.len() - i,
    {
        out.push(payload[i]);
        proof {
            assert(payload@.subrange(0, i + 1) == payload@.subrange(0, i as int).push(payload@[i as int]));
        }
        i = i + 1;
    }
    proof {
        assert(payload@.subrange(0, payload@.len() as int) == payload@);
    }
    Ok(out)
}

/// Reads the segment at the front of `buf`, if all of it is there.
pub fn decode_segment(buf: &[u8]) -> (r: Decoded)
    ensures
        decode_spec(buf@) is None <==> r is Incomplete,
        r matches Decoded::Complete(seg, used) ==> decode_spec(buf@) == Some(
            (seg.timestamp, seg.protocol_id, seg.payload@, used as nat),
        ),
{
    if buf.len() < HEADER_LEN {
        return Decoded::Incomplete;
    }
    let len: u16 = ((buf[6] as u16) << 8u16) | (buf[7] as u16);
    let total: usize = HEADER_LEN + len as usize;
    if buf.len() < total {
        return Decoded::Incomplete;
    }
    let timestamp: u32 = ((buf[0] as u32) << 24u32) | ((buf[1] as u32) << 16u32) | ((buf[2] as u32)
        << 8u32) | (buf[3] as u32);
    let protocol_id: u16 = ((buf[4] as u16) << 8u16) | (buf[5] as u16);
    let mut payload: Vec<u8> = Vec::with_capacity(len as usize);
    let mut i: usize = HEADER_LEN;
    while i < total
        invariant
            HEADER_LEN <= i <= total <= buf@.len(),
            payload@ == buf@.subrange(HEADER_LEN as int, i as int),
        decreases total - i,
    {
        payload.push(buf[i]);
        proof {
            assert(buf@.subrange(HEADER_LEN as int, i + 1) == buf@.subrange(
                HEADER_LEN as int,
                i as int,
            ).push(buf@[i as int]));
        }
        i = i + 1;
    }
    Decoded::Complete(Segment { timestamp, protocol_id, payload }, total)
}


/// Collects bytes as they are read from the connection and hands out whole
/// segments once all of their bytes have arrived.
pub struct SegmentReader {
    pending: Vec<u8>,
}

impl View for SegmentReader {
    type V = Seq<u8>;

    /// Bytes received and not yet handed out as a segment.
    closed spec fn view(&self) -> Seq<u8> {
        self.pending@
    }
}

impl SegmentReader {
    pub fn new() -> (r: SegmentReader)
        ensures
            r@ == Seq::<u8>::empty(),
    {
        SegmentReader { pending: Vec::new() }
    }

    /// Appends bytes just read.
    pub fn feed(&mut self, bytes: &[u8])
        ensures
            final(self)@ == old(self)@ + bytes@,
    {
        let ghost start = self@;
        let mut i: usize = 0;
        while i < bytes.len()
            invariant
                i <= bytes@.len(),
                self@ == start + bytes@.subrange(0, i as int),
            decreases bytes@.len() - i,
        {
            self.pending.push(bytes[i]);
            proof {
                assert(bytes@.subrange(0, i + 1) == bytes@.subrange(0, i as int).push(
                    bytes@[i as int],
                ));
            }
            i = i + 1;
        }
        proof {
            assert(bytes@.subrange(0, bytes@.len() as int) == bytes@);
        }
    }

    /// The next whole segment, which leaves the buffer; `None` while its bytes
    /// are still incomplete, and then nothing is taken.
    pub fn next_segment(&mut self) -> (r: Option<Segment>)
        ensures
            decode_spec(old(self)@) is None ==> r is None && final(self)@ == old(self)@,
            decode_spec(old(self)@) matches Some((ts, id, payload, used)) ==> r is Some
                && r->Some_0.timestamp == ts && r->Some_0.protocol_id == id
                && r->Some_0.payload@ == payload && final(self)@ == old(self)@.skip(used as int),
    {
        match decode_segment(self.pending.as_slice()) {
            Decoded::Incomplete => None,
            Decoded::Complete(seg, used) => {
                let ghost before = self@;
                let mut rest: Vec<u8> = Vec::new();
                let mut i: usize = used;
                while i < self.pending.len()
                    invariant
                        used <= i <= before.len(),
                        self@ == before,
                        rest@ == before.subrange(used as int, i as int),
                    decreases before.len() - i,
                {
                    rest.push(self.pending[i]);
                    proof {
                        assert(before.subrange(used as int, i + 1) == before.subrange(
                            used as int,
                            i as int,
                        ).push(before[i as int]));
                    }
                    i = i + 1;
                }
                self.pending = rest;
                proof {
                    assert(before.subrange(used as int, before.len() as int) == before.skip(
                        used as int,
                    ));
                }
                Some(seg)
            },
        }
    }
}

/// Decoding the bytes of an encoded segment, whatever follows them, gives back
/// its timestamp, protocol id and payload, and takes exactly its bytes.
pub proof fn lemma_round_trip(timestamp: u32, protocol_id: u16, payload: Seq<u8>, rest: Seq<u8>)
    requires
        payload.len() <= MAX_PAYLOAD_LEN,
    ensures
        decode_spec(segment_bytes(timestamp, protocol_id, payload) + rest) == Some(
            (timestamp, protocol_id, payload, (HEADER_LEN + payload.len()) as nat),
        ),
{
    let len = payload.len() as u16;
    let buf = segment_bytes(timestamp, protocol_id, payload) + rest;
    assert(read_u32(
        (timestamp >> 24u32) as u8,
        ((timestamp >> 16u32) & 0xffu32) as u8,
        ((timestamp >> 8u32) & 0xffu32) as u8,
        (timestamp & 0xffu32) as u8,
    ) == timestamp) by (bit_vector);
    assert(read_u16((protocol_id >> 8u16) as u8, (protocol_id & 0xffu16) as u8) == protocol_id)
        by (bit_vector);
    assert(read_u16((len >> 8u16) as u8, (len & 0xffu16) as u8) == len) by (bit_vector);
    assert(buf[6] == (len >> 8u16) as u8);
    assert(buf[7] == (len & 0xffu16) as u8);
    assert(buf.subrange(HEADER_LEN as int, HEADER_LEN + payload.len()) == payload);
}

} // verus!
