//! The PING frame.

use crate::frame::frames::{
    append_bytes, bytes_of, pack_header, Flag, Frame, FrameHeader, RawFrame, StreamId,
};
use vstd::prelude::*;

verus! {

/// The flags that a PING frame can carry.
#[derive(Clone, Copy, PartialEq, Debug)]
pub enum PingFlag {
    /// The frame answers a PING; bit 0x1.
    Ack,
}

impl Flag for PingFlag {
    fn bitmask(&self) -> (mask: u8)
        ensures
            mask == 0x1,
    {
        0x1
    }
}

/// A PING frame: 8 opaque bytes, or an acknowledgement.
#[derive(PartialEq, Debug)]
pub struct PingFrame {
    /// The opaque data of the frame.
    pub data: Vec<u8>,
    /// The flags of the frame, packed into one byte.
    pub flags: u8,
}

/// The payload length as a header gives it. A payload too long for the
/// field does not occur on the wire; its length is cut to 32 bits.
pub open spec fn length_field(len: nat) -> u32 {
    (len % 0x1_0000_0000) as u32
}

/// What a raw frame holds as a PING frame, as data and flags: `None` unless
/// the type is 6, the header's length is that of the payload, and the stream
/// is 0; an acknowledgement has no payload, any other PING exactly 8 bytes.
pub open spec fn ping_parts(header: FrameHeader, payload: Seq<u8>) -> Option<(Seq<u8>, u8)> {
    if header.1 != 0x6 || header.0 as int != payload.len() || header.3 != 0 {
        None
    } else if header.2 & 0x1 != 0 {
        if header.0 != 0 {
            None
        } else {
            Some((Seq::empty(), header.2))
        }
    } else if payload.len() != 8 {
        None
    } else {
        Some((payload, header.2))
    }
}

impl PingFrame {
    /// The flags octet.
    pub open spec fn flag_bits(&self) -> u8 {
        self.flags
    }

    /// The header that describes the frame.
    pub open spec fn header(&self) -> FrameHeader {
        (length_field(self.data@.len()), 0x6, self.flag_bits(), 0)
    }

    /// A PING frame without data and without flags.
    pub fn new() -> (frame: PingFrame)
        ensures
            frame.data@ =~= Seq::<u8>::empty(),
            frame.flag_bits() == 0,
    {
        PingFrame { data: Vec::new(), flags: 0 }
    }

    /// A PING frame without data, with the ACK flag set.
    pub fn new_ack() -> (frame: PingFrame)
        ensures
            frame.data@ =~= Seq::<u8>::empty(),
            frame.flag_bits() == 0x1,
    {
        PingFrame { data: Vec::new(), flags: 0x1 }
    }

    /// Sets the ACK flag.
    pub fn set_ack(&mut self)
        ensures
            final(self).data == old(self).data,
            final(self).flag_bits() == old(self).flag_bits() | 0x1,
    {
        self.set_flag(PingFlag::Ack)
    }

    /// Whether the ACK flag is set.
    pub fn is_ack(&self) -> (r: bool)
        ensures
            r == (self.flag_bits() & 0x1 != 0),
    {
        self.is_set(PingFlag::Ack)
    }

    /// The length of the payload in bytes.
    pub fn payload_len(&self) -> (len: u32)
        ensures
            len == length_field(self.data@.len()),
    {
        let len: u64 = self.data.len() as u64;
        (len % 0x1_0000_0000) as u32
    }

    /// Parses the payload of a PING frame: exactly 8 opaque bytes.
    pub fn parse_payload(payload: &[u8]) -> (r: Option<Vec<u8>>)
        ensures
            r is Some <==> payload@.len() == 8,
            r is Some ==> r->0@ == payload@,
    {
        if payload.len() != 8 {
            return None;
        }
        let mut data: Vec<u8> = Vec::new();
        append_bytes(&mut data, payload);
        Some(data)
    }
}

impl Frame for PingFrame {
    type FlagType = PingFlag;

    open spec fn accepts(header: FrameHeader, payload: Seq<u8>) -> bool {
        ping_parts(header, payload) is Some
    }

    open spec fn holds(&self, header: FrameHeader, payload: Seq<u8>) -> bool {
        ping_parts(header, payload) == Some((self.data@, self.flags))
    }

    fn from_raw(raw_frame: RawFrame) -> (r: Option<PingFrame>)
        ensures
            match r {
                Some(frame) => ping_parts(raw_frame.header, raw_frame.payload@) == Some(
                    (frame.data@, frame.flag_bits()),
                ),
                None => ping_parts(raw_frame.header, raw_frame.payload@) is None,
            },
    {
        let (len, frame_type, flags, stream_id) = raw_frame.header;
        if frame_type != 0x6 {
            return None;
        }
        if (len as usize) != raw_frame.payload.len() {
            return None;
        }
        if stream_id != 0 {
            return None;
        }
        if (flags & PingFlag::Ack.bitmask()) != 0 {
            if len != 0 {
                return None;
            } else {
                return Some(PingFrame { data: Vec::new(), flags: flags });
            }
        }
        match PingFrame::parse_payload(raw_frame.payload.as_slice()) {
            Some(data) => Some(PingFrame { flags: flags, data: data }),
            None => None,
        }
    }

    fn is_set(&self, flag: PingFlag) -> (r: bool)
        ensures
            r == (self.flag_bits() & 0x1 != 0),
    {
        (self.flags & flag.bitmask()) != 0
    }

    fn get_stream_id(&self) -> (id: StreamId)
        ensures
            id == 0,
    {
        0
    }

    fn get_header(&self) -> (h: FrameHeader)
        ensures
            h == self.header(),
    {
        (self.payload_len(), 0x6, self.flags, 0)
    }

    fn set_flag(&mut self, flag: PingFlag)
        ensures
            final(self).data == old(self).data,
            final(self).flag_bits() == old(self).flag_bits() | 0x1,
    {
        self.flags = self.flags | flag.bitmask();
    }

    fn serialize(&self) -> (buf: Vec<u8>)
        ensures
            buf@ =~= bytes_of(self.header()) + self.data@,
    {
        let mut buf: Vec<u8> = Vec::new();
        let head = pack_header(&self.get_header());
        append_bytes(&mut buf, head.as_slice());
        append_bytes(&mut buf, self.data.as_slice());
        buf
    }
}

} // verus!
