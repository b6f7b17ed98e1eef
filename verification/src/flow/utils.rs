//! The frame validator: whether a frame is admissible on its stream right
//! now, decided before the frame is parsed any further and without changing
//! anything.

use crate::flow::status::{StreamStates, StreamStatus};
use crate::flow::streammanager::StreamManager;
use crate::flow::streamstate::{
    admits, is_stream_kind, kind_of, priority_parts, verdict, ErrorKind, FrameKind, Verdict,
};
use crate::frame::frames::{be32, RawFrame};
use vstd::prelude::*;

verus! {

/// The big-endian number that four bytes spell.
pub fn unpack_u32(b0: u8, b1: u8, b2: u8, b3: u8) -> (x: u32)
    ensures
        x == be32(b0, b1, b2, b3),
{
    let x: u32 = ((b0 as u32) << 24) | ((b1 as u32) << 16) | ((b2 as u32) << 8) | (b3 as u32);
    assert(x == b0 as u32 * 16777216 + b1 as u32 * 65536 + b2 as u32 * 256 + b3 as u32)
        by (bit_vector)
        requires
            x == ((b0 as u32) << 24) | ((b1 as u32) << 16) | ((b2 as u32) << 8) | (b3 as u32),
    ;
    x
}

/// Parses the payload of a PRIORITY frame into the stream depended on,
/// whether exclusively, and the weight from 1 to 256; `None` unless the
/// payload has 5 bytes.
pub fn parse_priority(payload: &[u8]) -> (r: Option<(u32, bool, u32)>)
    ensures
        r == priority_parts(payload@),
{
    if payload.len() != 5 {
        return None;
    }
    let parent_id = unpack_u32(payload[0] & 0x7F, payload[1], payload[2], payload[3]);
    let exclusive = payload[0] & 0x80 != 0;
    let weight: u32 = payload[4] as u32 + 1;
    Some((parent_id, exclusive, weight))
}

/// Idle streams: HEADERS, PRIORITY and PUSH_PROMISE; RST_STREAM when sent;
/// CONTINUATION on a promised stream.
pub fn check_idle(receiving: bool, reserved: bool, frame: &RawFrame) -> (r: bool)
    ensures
        r == match kind_of(frame.header.1) {
            FrameKind::Headers | FrameKind::Priority | FrameKind::PushPromise => true,
            FrameKind::RstStream => !receiving,
            FrameKind::Continuation => reserved,
            _ => false,
        },
{
    match FrameKind::from_type(frame.header.1) {
        FrameKind::Headers => true,
        FrameKind::Priority => true,
        FrameKind::PushPromise => true,
        FrameKind::RstStream => !receiving,
        FrameKind::Continuation => reserved,
        _ => false,
    }
}

/// Reserved (local) streams: HEADERS and CONTINUATION when sent; PRIORITY,
/// RST_STREAM and WINDOW_UPDATE.
pub fn check_reserved_local(receiving: bool, frame: &RawFrame) -> (r: bool)
    ensures
        r == match kind_of(frame.header.1) {
            FrameKind::Headers | FrameKind::Continuation => !receiving,
            FrameKind::Priority | FrameKind::RstStream | FrameKind::WindowUpdate => true,
            _ => false,
        },
{
    match FrameKind::from_type(frame.header.1) {
        FrameKind::Headers => !receiving,
        FrameKind::Continuation => !receiving,
        FrameKind::RstStream => true,
        FrameKind::Priority => true,
        FrameKind::WindowUpdate => true,
        _ => false,
    }
}

/// Reserved (remote) streams: HEADERS and CONTINUATION when received;
/// PRIORITY, RST_STREAM and WINDOW_UPDATE.
pub fn check_reserved_remote(receiving: bool, frame: &RawFrame) -> (r: bool)
    ensures
        r == match kind_of(frame.header.1) {
            FrameKind::Headers | FrameKind::Continuation => receiving,
            FrameKind::Priority | FrameKind::RstStream | FrameKind::WindowUpdate => true,
            _ => false,
        },
{
    match FrameKind::from_type(frame.header.1) {
        FrameKind::Headers => receiving,
        FrameKind::Continuation => receiving,
        FrameKind::RstStream => true,
        FrameKind::Priority => true,
        FrameKind::WindowUpdate => true,
        _ => false,
    }
}

/// Open streams: every frame that belongs to a stream.
pub fn check_open(receiving: bool, frame: &RawFrame) -> (r: bool)
    ensures
        r == is_stream_kind(kind_of(frame.header.1)),
{
    match FrameKind::from_type(frame.header.1) {
        FrameKind::Data => true,
        FrameKind::Headers => true,
        FrameKind::Priority => true,
        FrameKind::RstStream => true,
        FrameKind::PushPromise => true,
        FrameKind::WindowUpdate => true,
        FrameKind::Continuation => true,
        _ => false,
    }
}

/// Half-closed (local) streams: DATA, HEADERS and WINDOW_UPDATE when
/// received; PRIORITY, RST_STREAM and CONTINUATION.
pub fn check_half_closed_local(receiving: bool, frame: &RawFrame) -> (r: bool)
    ensures
        r == match kind_of(frame.header.1) {
            FrameKind::Data | FrameKind::Headers | FrameKind::WindowUpdate => receiving,
            FrameKind::Priority | FrameKind::RstStream | FrameKind::Continuation => true,
            _ => false,
        },
{
    match FrameKind::from_type(frame.header.1) {
        FrameKind::Data => receiving,
        FrameKind::Headers => receiving,
        FrameKind::WindowUpdate => receiving,
        FrameKind::Continuation => true,
        FrameKind::RstStream => true,
        FrameKind::Priority => true,
        _ => false,
    }
}

/// Half-closed (remote) streams: DATA and WINDOW_UPDATE when sent;
/// PRIORITY, RST_STREAM and CONTINUATION.
pub fn check_half_closed_remote(receiving: bool, frame: &RawFrame) -> (r: bool)
    ensures
        r == match kind_of(frame.header.1) {
            FrameKind::Data | FrameKind::WindowUpdate => !receiving,
            FrameKind::Priority | FrameKind::RstStream | FrameKind::Continuation => true,
            _ => false,
        },
{
    match FrameKind::from_type(frame.header.1) {
        FrameKind::Data => !receiving,
        FrameKind::WindowUpdate => !receiving,
        FrameKind::Continuation => true,
        FrameKind::RstStream => true,
        FrameKind::Priority => true,
        _ => false,
    }
}

/// Closed streams: PRIORITY; RST_STREAM when sent; RST_STREAM and
/// WINDOW_UPDATE when received, as long as late frames are tolerated.
pub fn check_closed(receiving: bool, tolerate: bool, frame: &RawFrame) -> (r: bool)
    ensures
        r == match kind_of(frame.header.1) {
            FrameKind::Priority => true,
            FrameKind::RstStream => !receiving || tolerate,
            FrameKind::WindowUpdate => receiving && tolerate,
            _ => false,
        },
{
    match FrameKind::from_type(frame.header.1) {
        FrameKind::Priority => true,
        FrameKind::RstStream => !receiving || tolerate,
        FrameKind::WindowUpdate => receiving && tolerate,
        _ => false,
    }
}

/// Whether the state of a stream admits the frame, by the table of states
/// and frame types.
pub fn check_state(receiving: bool, status: &StreamStatus, tolerate: bool, frame: &RawFrame) -> (r:
    bool)
    ensures
        r == admits(tolerate, *status, kind_of(frame.header.1), receiving),
{
    match status.state {
        StreamStates::Idle => check_idle(receiving, status.is_reserved, frame),
        StreamStates::Open => check_open(receiving, frame),
        StreamStates::Closed => check_closed(receiving, tolerate, frame),
        StreamStates::ReservedLocal => check_reserved_local(receiving, frame),
        StreamStates::ReservedRemote => check_reserved_remote(receiving, frame),
        StreamStates::HalfClosedLocal => check_half_closed_local(receiving, frame),
        StreamStates::HalfClosedRemote => check_half_closed_remote(receiving, frame),
    }
}

/// Whether a frame fits what its stream expects next: a stream whose header
/// block is open takes CONTINUATION only, and any other stream takes none.
/// For an unknown stream the answer is `false`.
pub fn check_continue(stream_manager: &StreamManager, frame: &RawFrame) -> (r: bool)
    ensures
        r == (stream_manager@.table.contains_key(frame.header.3)
            && stream_manager@.table[frame.header.3].expects_continuation == (kind_of(
            frame.header.1,
        ) == FrameKind::Continuation)),
{
    let frame_type = frame.header.1;
    let stream_id = frame.header.3;
    match stream_manager.get_stream_status(&stream_id) {
        None => false,
        Some(status) => status.expects_continuation == (frame_type == 0x9),
    }
}

/// The verdict on a frame, given the state of its stream and the direction.
/// Nothing is changed.
pub fn frame_verdict(stream_manager: &StreamManager, frame: &RawFrame, receiving: bool) -> (v:
    Verdict)
    requires
        stream_manager.wf(),
    ensures
        v == verdict(stream_manager@, receiving, frame.header.1, frame.header.3),
{
    let kind = FrameKind::from_type(frame.header.1);
    let stream_id = frame.header.3;
    let found = stream_manager.get_stream_status(&stream_id);
    let known = found.is_some();
    let status = match found {
        Some(s) => s,
        None => StreamStatus::new(),
    };
    let is_continuation = match kind {
        FrameKind::Continuation => true,
        _ => false,
    };
    let opens = match kind {
        FrameKind::Headers => true,
        FrameKind::PushPromise => true,
        _ => false,
    };
    if stream_manager.is_blocked(stream_id) {
        return Verdict::ConnectionError(ErrorKind::ProtocolError);
    }
    if status.expects_continuation && !is_continuation {
        return Verdict::ConnectionError(ErrorKind::ProtocolError);
    }
    match kind {
        FrameKind::Settings | FrameKind::Ping | FrameKind::GoAway => {
            return if stream_id == 0 {
                Verdict::Admitted
            } else {
                Verdict::ConnectionError(ErrorKind::ProtocolError)
            };
        },
        FrameKind::Unknown => {
            return Verdict::Admitted;
        },
        _ => {},
    }
    if stream_id == 0 {
        return match kind {
            FrameKind::Priority => Verdict::Admitted,
            FrameKind::WindowUpdate => Verdict::Admitted,
            _ => Verdict::ConnectionError(ErrorKind::ProtocolError),
        };
    }
    if opens && !known && !stream_manager.check_valid_open_request(stream_id, receiving) {
        return Verdict::ConnectionError(ErrorKind::ProtocolError);
    }
    if known {
        match kind {
            FrameKind::PushPromise => {
                return Verdict::ConnectionError(ErrorKind::ProtocolError);
            },
            _ => {},
        }
    }
    if is_continuation && !status.expects_continuation {
        return Verdict::ConnectionError(ErrorKind::ProtocolError);
    }
    if !check_state(receiving, &status, stream_manager.tolerates_closed(), frame) {
        let code = match status.state {
            StreamStates::Closed => ErrorKind::StreamClosed,
            StreamStates::HalfClosedRemote => ErrorKind::StreamClosed,
            _ => ErrorKind::ProtocolError,
        };
        return Verdict::StreamError(stream_id, code);
    }
    match (kind, status.state) {
        (FrameKind::Headers, StreamStates::Idle) => {
            let limit: u32 = stream_manager.max_concurrent_streams();
            if stream_manager.active_streams() as u64 >= limit as u64 {
                return Verdict::StreamError(stream_id, ErrorKind::RefusedStream);
            }
        },
        _ => {},
    }
    Verdict::Admitted
}

/// Whether a frame is admissible on its stream right now.
pub fn check_valid_frame(stream_manager: &StreamManager, frame: &RawFrame, receiving: bool) -> (r:
    bool)
    requires
        stream_manager.wf(),
    ensures
        r == (verdict(stream_manager@, receiving, frame.header.1, frame.header.3)
            == Verdict::Admitted),
{
    frame_verdict(stream_manager, frame, receiving).is_admitted()
}

} // verus!
