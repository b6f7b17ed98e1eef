//! The CONTINUATION frame.

use crate::frame::frames::{
    append_bytes, bytes_of, pack_header, Flag, Frame, FrameHeader, RawFrame, StreamId,
};
use crate::frame::pingframe::length_field;
use vstd::prelude::*;

verus! {

/// The flags that a CONTINUATION frame can carry.
#[derive(Clone, Copy, PartialEq, Debug)]
pub enum ContinuationFlag {
    /// The frame ends the header block; bit 0x4.
    EndHeaders,
}

impl Flag for ContinuationFlag {
    fn bitmask(&self) -> (mask: u8)
        ensures
            mask == 0x4,
    {
        0x4
    }
}

/// A CONTINUATION frame: a fragment of a header block.
#[derive(Debug)]
pub struct ContinuationFrame {
    /// The header block fragment.
    pub header_fragment: Vec<u8>,
    /// The stream the frame belongs to.
    pub stream_id: StreamId,
    /// The flags of the frame, packed into one byte.
    pub flags: u8,
}

/// Whether a raw frame is a CONTINUATION frame: the type is 9, the header's
/// length is that of the payload, and the stream is not 0.
pub open spec fn is_continuation(header: FrameHeader, payload: Seq<u8>) -> bool {
    header.1 == 0x9 && header.0 as int == payload.len() && header.3 != 0
}

impl ContinuationFrame {
    /// The header that describes the frame.
    pub open spec fn header(&self) -> FrameHeader {
        (length_field(self.header_fragment@.len()), 0x9, self.flags, self.stream_id)
    }

    /// A frame with the given fragment and stream, and no flags.
    pub fn new(fragment: Vec<u8>, stream_id: StreamId) -> (frame: ContinuationFrame)
        ensures
            frame.header_fragment == fragment,
            frame.stream_id == stream_id,
            frame.flags == 0,
    {
        ContinuationFrame { header_fragment: fragment, stream_id: stream_id, flags: 0 }
    }

    /// Whether this frame ends the header block. If not, further
    /// CONTINUATION frames follow.
    pub fn is_headers_end(&self) -> (r: bool)
        ensures
            r == (self.flags & 0x4 != 0),
    {
        self.is_set(ContinuationFlag::EndHeaders)
    }

    /// The length of the payload in bytes.
    pub fn payload_len(&self) -> (len: u32)
        ensures
            len == length_field(self.header_fragment@.len()),
    {
        let len: u64 = self.header_fragment.len() as u64;
        (len % 0x1_0000_0000) as u32
    }
}

impl Frame for ContinuationFrame {
    type FlagType = ContinuationFlag;

    open spec fn accepts(header: FrameHeader, payload: Seq<u8>) -> bool {
        is_continuation(header, payload)
    }

    open spec fn holds(&self, header: FrameHeader, payload: Seq<u8>) -> bool {
        self.header_fragment@ == payload && self.stream_id == header.3 && self.flags == header.2
    }

    fn from_raw(raw_frame: RawFrame) -> (r: Option<ContinuationFrame>)
        ensures
            r is Some ==> r->0.header_fragment@ == raw_frame.payload@ && r->0.stream_id
                == raw_frame.header.3 && r->0.flags == raw_frame.header.2,
    {
        let (len, frame_type, flags, stream_id) = raw_frame.header;
        if frame_type != 0x9 {
            return None;
        }
        if (len as usize) != raw_frame.payload.len() {
            return None;
        }
        if stream_id == 0 {
            return None;
        }
        Some(
            ContinuationFrame {
                header_fragment: raw_frame.payload,
                stream_id: stream_id,
                flags: flags,
            },
        )
    }

    fn is_set(&self, flag: ContinuationFlag) -> (r: bool)
        ensures
            r == (self.flags & 0x4 != 0),
    {
        (self.flags & flag.bitmask()) != 0
    }

    fn get_stream_id(&self) -> (id: StreamId)
        ensures
            id == self.stream_id,
    {
        self.stream_id
    }

    fn get_header(&self) -> (h: FrameHeader)
        ensures
            h == self.header(),
    {
        (self.payload_len(), 0x9, self.flags, self.stream_id)
    }

    fn set_flag(&mut self, flag: ContinuationFlag)
        ensures
            final(self).header_fragment == old(self).header_fragment,
            final(self).stream_id == old(self).stream_id,
            final(self).flags == old(self).flags | 0x4,
    {
        self.flags = self.flags | flag.bitmask();
    }

    fn serialize(&self) -> (buf: Vec<u8>)
        ensures
            buf@ =~= bytes_of(self.header()) + self.header_fragment@,
    {
        let mut buf: Vec<u8> = Vec::new();
        let head = pack_header(&self.get_header());
        append_bytes(&mut buf, head.as_slice());
        append_bytes(&mut buf, self.header_fragment.as_slice());
        buf
    }
}

} // verus!
