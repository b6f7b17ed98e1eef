//! The frame header codec and the raw frame as it is read from the wire.

use vstd::prelude::*;
use vstd::slice::slice_subrange;

verus! {

/// The components of a frame header: `(length, frame_type, flags, stream_id)`.
pub type FrameHeader = (u32, u8, u8, u32);

/// The 9 bytes that hold a frame header on the wire.
pub type FrameHeaderBuffer = [u8; 9];

/// The big-endian number that three bytes spell.
pub open spec fn be24(b0: u8, b1: u8, b2: u8) -> u32 {
    (b0 as u32 * 65536 + b1 as u32 * 256 + b2 as u32) as u32
}

/// The big-endian number that four bytes spell.
pub open spec fn be32(b0: u8, b1: u8, b2: u8, b3: u8) -> u32 {
    (b0 as u32 * 16777216 + b1 as u32 * 65536 + b2 as u32 * 256 + b3 as u32) as u32
}

/// The header that 9 wire bytes spell: a 24-bit length, the type octet, the
/// flags octet, and a 32-bit stream identifier field, all big endian.
pub open spec fn header_of(b: Seq<u8>) -> FrameHeader {
    (be24(b[0], b[1], b[2]), b[3], b[4], be32(b[5], b[6], b[7], b[8]))
}

/// The 9 wire bytes of a header. Only the low 24 bits of the length are
/// written.
pub open spec fn bytes_of(h: FrameHeader) -> Seq<u8> {
    seq![
        ((h.0 / 65536) % 256) as u8,
        ((h.0 / 256) % 256) as u8,
        (h.0 % 256) as u8,
        h.1,
        h.2,
        ((h.3 / 16777216) % 256) as u8,
        ((h.3 / 65536) % 256) as u8,
        ((h.3 / 256) % 256) as u8,
        (h.3 % 256) as u8,
    ]
}

/// Deconstructs a header buffer into `(length, frame_type, flags, stream_id)`.
/// Type and flags are handed out as the octets they are.
pub fn unpack_header(header: &FrameHeaderBuffer) -> (h: FrameHeader)
    ensures
        h == header_of(header@),
        h.0 < 0x100_0000,
{
    let b0 = header[0];
    let b1 = header[1];
    let b2 = header[2];
    let b5 = header[5];
    let b6 = header[6];
    let b7 = header[7];
    let b8 = header[8];
    let length: u32 = ((b0 as u32) << 16) | ((b1 as u32) << 8) | (b2 as u32);
    let stream_id: u32 = ((b5 as u32) << 24) | ((b6 as u32) << 16) | ((b7 as u32) << 8) | (
    b8 as u32);
    assert(length == b0 as u32 * 65536 + b1 as u32 * 256 + b2 as u32 && length < 0x100_0000)
        by (bit_vector)
        requires
            length == ((b0 as u32) << 16) | ((b1 as u32) << 8) | (b2 as u32),
    ;
    assert(stream_id == b5 as u32 * 16777216 + b6 as u32 * 65536 + b7 as u32 * 256 + b8 as u32)
        by (bit_vector)
        requires
            stream_id == ((b5 as u32) << 24) | ((b6 as u32) << 16) | ((b7 as u32) << 8) | (
            b8 as u32),
    ;
    (length, header[3], header[4], stream_id)
}

/// Builds the 9 bytes that represent the given header.
pub fn pack_header(header: &FrameHeader) -> (buf: FrameHeaderBuffer)
    ensures
        buf@ =~= bytes_of(*header),
{
    let length: u32 = header.0;
    let stream_id: u32 = header.3;
    let len0: u8 = ((length >> 16) & 0xFF) as u8;
    let len1: u8 = ((length >> 8) & 0xFF) as u8;
    let len2: u8 = (length & 0xFF) as u8;
    let id0: u8 = ((stream_id >> 24) & 0xFF) as u8;
    let id1: u8 = ((stream_id >> 16) & 0xFF) as u8;
    let id2: u8 = ((stream_id >> 8) & 0xFF) as u8;
    let id3: u8 = (stream_id & 0xFF) as u8;
    assert(((length >> 16) & 0xFF) == (length / 65536) % 256 && ((length >> 8) & 0xFF) == (length
        / 256) % 256 && (length & 0xFF) == length % 256) by (bit_vector);
    assert(((stream_id >> 24) & 0xFF) == (stream_id / 16777216) % 256 && ((stream_id >> 16) & 0xFF)
        == (stream_id / 65536) % 256 && ((stream_id >> 8) & 0xFF) == (stream_id / 256) % 256 && (
    stream_id & 0xFF) == stream_id % 256) by (bit_vector);
    [len0, len1, len2, header.1, header.2, id0, id1, id2, id3]
}

/// Packing a header and unpacking the bytes gives the header back, with the
/// length reduced to its low 24 bits.
pub proof fn lemma_unpack_pack(h: FrameHeader)
    ensures
        header_of(bytes_of(h)) == ((h.0 % 0x100_0000) as u32, h.1, h.2, h.3),
{
    let l = h.0;
    let s = h.3;
    assert(((l / 65536) % 256) * 65536 + ((l / 256) % 256) * 256 + l % 256 == l % 0x100_0000)
        by (bit_vector);
    assert(((s / 16777216) % 256) * 16777216 + ((s / 65536) % 256) * 65536 + ((s / 256) % 256)
        * 256 + s % 256 == s) by (bit_vector);
}

/// Unpacking 9 bytes and packing the header gives the bytes back.
pub proof fn lemma_pack_unpack(b: Seq<u8>)
    requires
        b.len() == 9,
    ensures
        bytes_of(header_of(b)) =~= b,
{
    let (b0, b1, b2) = (b[0], b[1], b[2]);
    let (b5, b6, b7, b8) = (b[5], b[6], b[7], b[8]);
    let l: u32 = be24(b0, b1, b2);
    let s: u32 = be32(b5, b6, b7, b8);
    assert(l == b0 as u32 * 65536 + b1 as u32 * 256 + b2 as u32);
    assert(s == b5 as u32 * 16777216 + b6 as u32 * 65536 + b7 as u32 * 256 + b8 as u32);
    assert((l / 65536) % 256 == b0 as u32 && (l / 256) % 256 == b1 as u32 && l % 256 == b2 as u32)
        by (bit_vector)
        requires
            l == b0 as u32 * 65536 + b1 as u32 * 256 + b2 as u32,
    ;
    assert((s / 16777216) % 256 == b5 as u32 && (s / 65536) % 256 == b6 as u32 && (s / 256) % 256
        == b7 as u32 && s % 256 == b8 as u32) by (bit_vector)
        requires
            s == b5 as u32 * 16777216 + b6 as u32 * 65536 + b7 as u32 * 256 + b8 as u32,
    ;
}

/// What a padded payload holds: `None` where it is empty or the padding
/// length in its first byte is not less than its length; otherwise the bytes
/// between the first byte and the padding, and the padding length.
pub open spec fn padded_parts(payload: Seq<u8>) -> Option<(Seq<u8>, u8)> {
    if payload.len() == 0 || payload[0] as int >= payload.len() {
        None
    } else {
        Some((payload.subrange(1, payload.len() - payload[0] as int), payload[0]))
    }
}

/// Parses a payload as padded: the first byte is the length of the padding,
/// and that many bytes at the end are padding.
pub fn parse_padded_payload<'a>(payload: &'a [u8]) -> (r: Option<(&'a [u8], u8)>)
    ensures
        match r {
            Some((data, pad_len)) => padded_parts(payload@) == Some((data@, pad_len)),
            None => padded_parts(payload@) is None,
        },
{
    if payload.len() == 0 {
        return None;
    }
    let pad_len: usize = payload[0] as usize;
    if pad_len >= payload.len() {
        return None;
    }
    let data = slice_subrange(payload, 1, payload.len() - pad_len);
    Some((data, payload[0]))
}

/// A frame as it is read from the wire: the parsed header and the payload
/// bytes, neither interpreted nor checked against the frame type.
#[derive(Debug)]
pub struct RawFrame {
    /// The parsed header of the frame.
    pub header: FrameHeader,
    /// The payload as received.
    pub payload: Vec<u8>,
}

/// What a buffer holds as its first frame: `None` where it is shorter than a
/// header, or shorter than the header and the payload length the header
/// gives; otherwise the header and the payload bytes behind it.
pub open spec fn frame_parts(buf: Seq<u8>) -> Option<(FrameHeader, Seq<u8>)> {
    if buf.len() < 9 {
        None
    } else {
        let header = header_of(buf.subrange(0, 9));
        if buf.len() - 9 < header.0 {
            None
        } else {
            Some((header, buf.subrange(9, 9 + header.0)))
        }
    }
}

impl RawFrame {
    /// A frame with the given header and an empty payload.
    pub fn new(header: FrameHeader) -> (frame: RawFrame)
        ensures
            frame.header == header,
            frame.payload@ =~= Seq::<u8>::empty(),
    {
        RawFrame::with_payload(header, Vec::new())
    }

    /// A frame with the given header and payload.
    pub fn with_payload(header: FrameHeader, payload: Vec<u8>) -> (frame: RawFrame)
        ensures
            frame.header == header,
            frame.payload == payload,
    {
        RawFrame { header: header, payload: payload }
    }

    /// Parses the frame at the start of the buffer. Bytes behind the frame
    /// are left alone.
    pub fn from_buf(buf: &[u8]) -> (r: Option<RawFrame>)
        ensures
            r is None <==> frame_parts(buf@) is None,
            r is Some ==> (r->0.header, r->0.payload@) == frame_parts(buf@)->0,
    {
        if buf.len() < 9 {
            return None;
        }
        let head: FrameHeaderBuffer = [
            buf[0],
            buf[1],
            buf[2],
            buf[3],
            buf[4],
            buf[5],
            buf[6],
            buf[7],
            buf[8],
        ];
        assert(head@ =~= buf@.subrange(0, 9));
        let header = unpack_header(&head);
        let payload_len: usize = header.0 as usize;
        if buf.len() - 9 < payload_len {
            return None;
        }
        let mut payload: Vec<u8> = Vec::new();
        let mut i: usize = 0;
        while i < payload_len
            invariant
                0 <= i <= payload_len,
                9 + payload_len <= buf.len(),
                payload@ =~= buf@.subrange(9, 9 + i),
            decreases payload_len - i,
        {
            payload.push(buf[9 + i]);
            i = i + 1;
        }
        Some(RawFrame { header: header, payload: payload })
    }

    /// The frame type octet.
    pub fn frame_type(&self) -> (t: u8)
        ensures
            t == self.header.1,
    {
        self.header.1
    }

    /// The flags octet.
    pub fn flags(&self) -> (f: u8)
        ensures
            f == self.header.2,
    {
        self.header.2
    }

    /// The stream identifier.
    pub fn stream_id(&self) -> (id: u32)
        ensures
            id == self.header.3,
    {
        self.header.3
    }
}

/// The identifier of a stream.
pub type StreamId = u32;

/// A frame header flag.
pub trait Flag {
    /// The bit mask of the flag.
    fn bitmask(&self) -> u8;
}

/// What every frame type offers.
pub trait Frame: Sized {
    /// The flags that the frame type can carry.
    type FlagType: Flag;

    /// Whether a raw frame with this header and payload is a valid frame of
    /// this type.
    spec fn accepts(header: FrameHeader, payload: Seq<u8>) -> bool;

    /// Whether the frame is what a raw frame with this header and payload
    /// holds.
    spec fn holds(&self, header: FrameHeader, payload: Seq<u8>) -> bool;

    /// Builds the frame from a raw frame; `None` where the raw frame is no
    /// valid frame of this type.
    fn from_raw(raw_frame: RawFrame) -> (r: Option<Self>)
        ensures
            r is Some <==> Self::accepts(raw_frame.header, raw_frame.payload@),
            r is Some ==> r->0.holds(raw_frame.header, raw_frame.payload@),
    ;

    /// Whether the given flag is set.
    fn is_set(&self, flag: Self::FlagType) -> bool;

    /// The stream the frame belongs to.
    fn get_stream_id(&self) -> StreamId;

    /// The header that describes the frame as it stands.
    fn get_header(&self) -> FrameHeader;

    /// Sets the given flag.
    fn set_flag(&mut self, flag: Self::FlagType);

    /// The wire bytes of the frame: header, then payload.
    fn serialize(&self) -> Vec<u8>;
}

/// Appends the bytes of `tail` to `buf`.
pub fn append_bytes(buf: &mut Vec<u8>, tail: &[u8])
    ensures
        final(buf)@ =~= old(buf)@ + tail@,
{
    let mut i: usize = 0;
    while i < tail.len()
        invariant
            0 <= i <= tail.len(),
            buf@ =~= old(buf)@ + tail@.subrange(0, i as int),
        decreases tail.len() - i,
    {
        buf.push(tail[i]);
        i = i + 1;
    }
}

} // verus!
