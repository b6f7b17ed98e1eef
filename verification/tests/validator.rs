use h2flow::flow::status::{Flags, StreamStates, StreamStatus};
use h2flow::flow::streammanager::StreamManager;
use h2flow::flow::streamstate::{ErrorKind, FrameKind, Verdict};
use h2flow::flow::utils;
use h2flow::frame::frames::RawFrame;

const DATA: u8 = 0x0;
const HEADERS: u8 = 0x1;
const PRIORITY: u8 = 0x2;
const RST_STREAM: u8 = 0x3;
const SETTINGS: u8 = 0x4;
const PUSH_PROMISE: u8 = 0x5;
const PING: u8 = 0x6;
const GOAWAY: u8 = 0x7;
const WINDOW_UPDATE: u8 = 0x8;
const CONTINUATION: u8 = 0x9;

const END_STREAM: u8 = 0x1;
const END_HEADERS: u8 = 0x4;

fn frame(kind: u8, flags: u8, stream_id: u32) -> RawFrame {
    RawFrame::new((0, kind, flags, stream_id))
}

fn status(sm: &StreamManager, id: u32) -> StreamStatus {
    sm.get_stream_status(&id).unwrap()
}

fn protocol_error() -> Verdict {
    Verdict::ConnectionError(ErrorKind::ProtocolError)
}

// HEADERS with END_HEADERS opens the stream, RST_STREAM closes it
#[test]
fn open_then_reset_stream() {
    let mut sm = StreamManager::new(4, false);
    assert_eq!(sm.handle_frame(true, &frame(HEADERS, END_HEADERS, 2)), Verdict::Admitted);
    assert_eq!(status(&sm, 2).state, StreamStates::Open);
    assert_eq!(status(&sm, 2).expects_continuation, false);
    assert_eq!(sm.handle_frame(true, &frame(RST_STREAM, 0, 2)), Verdict::Admitted);
    assert_eq!(status(&sm, 2).state, StreamStates::Closed);
}

// HEADERS without flags, then a chain of CONTINUATION frames
#[test]
fn implicit_open_and_continuation_chain() {
    let mut sm = StreamManager::new(4, false);
    assert_eq!(sm.handle_frame(true, &frame(HEADERS, 0, 2)), Verdict::Admitted);
    assert_eq!(status(&sm, 2).state, StreamStates::Open);
    assert_eq!(status(&sm, 2).expects_continuation, true);
    assert_eq!(sm.handle_frame(true, &frame(CONTINUATION, 0, 2)), Verdict::Admitted);
    assert_eq!(status(&sm, 2).state, StreamStates::Open);
    assert_eq!(status(&sm, 2).expects_continuation, true);
    assert_eq!(sm.handle_frame(true, &frame(CONTINUATION, END_HEADERS, 2)), Verdict::Admitted);
    assert_eq!(status(&sm, 2).state, StreamStates::Open);
    assert_eq!(status(&sm, 2).expects_continuation, false);
}

// PUSH_PROMISE completed by CONTINUATION, then HEADERS with END_STREAM
// completed by CONTINUATION
#[test]
fn push_promise_with_chained_continuation() {
    let mut sm = StreamManager::new(4, false);
    assert_eq!(sm.handle_frame(true, &frame(PUSH_PROMISE, 0, 2)), Verdict::Admitted);
    assert_eq!(status(&sm, 2).state, StreamStates::Idle);
    assert_eq!(status(&sm, 2).is_reserved, true);
    assert_eq!(status(&sm, 2).expects_continuation, true);

    assert_eq!(sm.handle_frame(true, &frame(CONTINUATION, END_HEADERS, 2)), Verdict::Admitted);
    assert_eq!(status(&sm, 2).state, StreamStates::ReservedRemote);
    assert_eq!(status(&sm, 2).is_reserved, false);
    assert_eq!(status(&sm, 2).expects_continuation, false);

    assert_eq!(sm.handle_frame(true, &frame(HEADERS, END_STREAM, 2)), Verdict::Admitted);
    assert_eq!(status(&sm, 2).state, StreamStates::ReservedRemote);
    assert_eq!(status(&sm, 2).expects_continuation, true);
    assert_eq!(status(&sm, 2).should_end, true);

    assert_eq!(sm.handle_frame(true, &frame(CONTINUATION, END_HEADERS, 2)), Verdict::Admitted);
    assert_eq!(status(&sm, 2).state, StreamStates::Closed);
}

// DATA with END_STREAM received on a stream that is half closed (local)
#[test]
fn end_stream_on_data_closes_half_closed_stream() {
    let mut sm = StreamManager::new(4, false);
    sm.open(2, true);
    sm.set_state(&2, StreamStates::HalfClosedLocal);
    assert_eq!(sm.handle_frame(true, &frame(DATA, END_STREAM, 2)), Verdict::Admitted);
    assert_eq!(status(&sm, 2).state, StreamStates::Closed);
}

// END_STREAM on DATA half closes an open stream, on the side that ended
#[test]
fn data_end_stream_half_closes_open_stream() {
    let mut sm = StreamManager::new(4, false);
    sm.open(2, true);
    assert_eq!(sm.handle_frame(true, &frame(DATA, END_STREAM, 2)), Verdict::Admitted);
    assert_eq!(status(&sm, 2).state, StreamStates::HalfClosedRemote);
    // the other side ends: closed
    assert_eq!(sm.handle_frame(false, &frame(DATA, END_STREAM, 2)), Verdict::Admitted);
    assert_eq!(status(&sm, 2).state, StreamStates::Closed);

    let mut sm = StreamManager::new(4, false);
    sm.open(1, false);
    assert_eq!(sm.handle_frame(false, &frame(DATA, END_STREAM, 1)), Verdict::Admitted);
    assert_eq!(status(&sm, 1).state, StreamStates::HalfClosedLocal);
    // DATA without END_STREAM changes nothing
    assert_eq!(sm.handle_frame(true, &frame(DATA, 0, 1)), Verdict::Admitted);
    assert_eq!(status(&sm, 1).state, StreamStates::HalfClosedLocal);
}

// A closed stream never leaves the closed state
#[test]
fn closed_is_final() {
    let mut sm = StreamManager::new(4, false);
    sm.open(2, true);
    sm.close(2);
    assert_eq!(
        sm.handle_frame(true, &frame(HEADERS, END_HEADERS, 2)),
        Verdict::StreamError(2, ErrorKind::StreamClosed)
    );
    assert_eq!(status(&sm, 2).state, StreamStates::Closed);
    assert_eq!(
        sm.handle_frame(true, &frame(DATA, END_STREAM, 2)),
        Verdict::StreamError(2, ErrorKind::StreamClosed)
    );
    assert_eq!(sm.handle_frame(false, &frame(RST_STREAM, 0, 2)), Verdict::Admitted);
    assert_eq!(sm.handle_frame(true, &frame(PRIORITY, 0, 2)), Verdict::Admitted);
    assert_eq!(status(&sm, 2).state, StreamStates::Closed);
    sm.set_state(&2, StreamStates::Open);
    assert_eq!(status(&sm, 2).state, StreamStates::Closed);
    sm.open(2, true);
    assert_eq!(status(&sm, 2).state, StreamStates::Closed);
    sm.handle_header(true, &frame(HEADERS, END_HEADERS | END_STREAM, 2));
    assert_eq!(status(&sm, 2).state, StreamStates::Closed);
    sm.handle_data(true, &frame(DATA, END_STREAM, 2));
    assert_eq!(status(&sm, 2).state, StreamStates::Closed);
}

// Frames that arrive late on a closed stream are ignored while tolerated
#[test]
fn closed_stream_tolerance() {
    let mut sm = StreamManager::new(4, false);
    sm.open(2, true);
    sm.close(2);
    assert_eq!(sm.tolerates_closed(), true);
    assert_eq!(sm.handle_frame(true, &frame(WINDOW_UPDATE, 0, 2)), Verdict::Admitted);
    assert_eq!(sm.handle_frame(true, &frame(RST_STREAM, 0, 2)), Verdict::Admitted);
    assert_eq!(
        sm.handle_frame(false, &frame(WINDOW_UPDATE, 0, 2)),
        Verdict::StreamError(2, ErrorKind::StreamClosed)
    );
    sm.set_closed_tolerance(false);
    assert_eq!(sm.tolerates_closed(), false);
    assert_eq!(
        sm.handle_frame(true, &frame(WINDOW_UPDATE, 0, 2)),
        Verdict::StreamError(2, ErrorKind::StreamClosed)
    );
    assert_eq!(
        sm.handle_frame(true, &frame(RST_STREAM, 0, 2)),
        Verdict::StreamError(2, ErrorKind::StreamClosed)
    );
    assert_eq!(sm.handle_frame(false, &frame(RST_STREAM, 0, 2)), Verdict::Admitted);
}

// Identifiers grow within their parity, and the parity follows the opener
#[test]
fn identifiers_are_monotone_per_parity() {
    let mut sm = StreamManager::new(10, false);
    assert_eq!(sm.handle_frame(true, &frame(HEADERS, END_HEADERS, 4)), Verdict::Admitted);
    assert_eq!(sm.last_server_id(), 4);
    assert_eq!(sm.last_client_id(), 0);
    // lower and equal identifiers cannot open
    assert_eq!(sm.handle_frame(true, &frame(HEADERS, END_HEADERS, 2)), protocol_error());
    assert_eq!(sm.get_stream_status(&2), None);
    assert_eq!(sm.check_valid_open_request(4, true), false);
    assert_eq!(sm.check_valid_open_request(6, true), true);
    // a client receives no odd streams, and sends no even ones
    assert_eq!(sm.handle_frame(true, &frame(HEADERS, END_HEADERS, 7)), protocol_error());
    assert_eq!(sm.handle_frame(false, &frame(HEADERS, END_HEADERS, 8)), protocol_error());
    assert_eq!(sm.handle_frame(false, &frame(HEADERS, END_HEADERS, 7)), Verdict::Admitted);
    assert_eq!(sm.last_client_id(), 7);
    assert_eq!(sm.last_server_id(), 4);
    assert_eq!(sm.handle_frame(false, &frame(HEADERS, END_HEADERS, 5)), protocol_error());
    // HEADERS on a known stream needs no new identifier
    assert_eq!(sm.handle_frame(true, &frame(HEADERS, END_HEADERS, 4)), Verdict::Admitted);
    // stream 0 is never opened
    sm.open(0, true);
    assert_eq!(sm.get_stream_status(&0), None);
}

// A server receives odd streams and sends even ones
#[test]
fn server_role_parity() {
    let mut sm = StreamManager::new(10, true);
    assert_eq!(sm.is_server(), true);
    assert_eq!(sm.check_valid_open_request(1, true), true);
    assert_eq!(sm.check_valid_open_request(3, true), true);
    assert_eq!(sm.check_valid_open_request(2, true), false);
    assert_eq!(sm.check_valid_open_request(2, false), true);
    assert_eq!(sm.check_valid_open_request(1, false), false);
    assert_eq!(sm.handle_frame(true, &frame(HEADERS, END_HEADERS, 3)), Verdict::Admitted);
    assert_eq!(sm.last_client_id(), 3);
    assert_eq!(sm.handle_frame(true, &frame(HEADERS, END_HEADERS, 1)), protocol_error());
    assert_eq!(sm.handle_frame(true, &frame(HEADERS, END_HEADERS, 4)), protocol_error());
    assert_eq!(sm.handle_frame(false, &frame(PUSH_PROMISE, END_HEADERS, 2)), Verdict::Admitted);
    assert_eq!(status(&sm, 2).state, StreamStates::ReservedLocal);
    assert_eq!(sm.handle_frame(false, &frame(HEADERS, END_HEADERS, 2)), Verdict::Admitted);
    assert_eq!(status(&sm, 2).state, StreamStates::HalfClosedRemote);
}

// While a header block is open nothing but its CONTINUATION is admitted
#[test]
fn open_header_block_locks_the_connection() {
    let mut sm = StreamManager::new(10, false);
    assert_eq!(sm.handle_frame(true, &frame(HEADERS, 0, 2)), Verdict::Admitted);
    assert_eq!(sm.is_blocked(4), true);
    assert_eq!(sm.is_blocked(2), false);
    assert_eq!(sm.handle_frame(true, &frame(HEADERS, END_HEADERS, 4)), protocol_error());
    assert_eq!(sm.get_stream_status(&4), None);
    assert_eq!(sm.handle_frame(true, &frame(DATA, 0, 2)), protocol_error());
    assert_eq!(sm.handle_frame(true, &frame(RST_STREAM, 0, 2)), protocol_error());
    assert_eq!(sm.handle_frame(true, &frame(PING, 0, 0)), protocol_error());
    assert_eq!(sm.handle_frame(true, &frame(0x20, 0, 2)), protocol_error());
    assert_eq!(sm.handle_frame(true, &frame(CONTINUATION, 0, 4)), protocol_error());
    assert_eq!(status(&sm, 2).state, StreamStates::Open);
    assert_eq!(status(&sm, 2).expects_continuation, true);
    // the handlers leave other streams alone as well
    sm.handle_header(true, &frame(HEADERS, END_HEADERS, 4));
    assert_eq!(sm.get_stream_status(&4), None);
    sm.handle_push_promise(true, &frame(PUSH_PROMISE, END_HEADERS, 4));
    assert_eq!(sm.get_stream_status(&4), None);
    assert_eq!(sm.handle_frame(true, &frame(CONTINUATION, END_HEADERS, 2)), Verdict::Admitted);
    assert_eq!(sm.is_blocked(4), false);
    // the block is complete: no further CONTINUATION, other streams again
    assert_eq!(sm.handle_frame(true, &frame(CONTINUATION, END_HEADERS, 2)), protocol_error());
    assert_eq!(sm.handle_frame(true, &frame(HEADERS, END_HEADERS, 4)), Verdict::Admitted);
    assert_eq!(utils::check_continue(&sm, &frame(DATA, 0, 4)), true);
    assert_eq!(utils::check_continue(&sm, &frame(CONTINUATION, 0, 4)), false);
}

// Closing a stream gives up its open header block
#[test]
fn close_releases_the_header_block() {
    let mut sm = StreamManager::new(10, false);
    sm.handle_frame(true, &frame(HEADERS, 0, 2));
    assert_eq!(sm.is_blocked(4), true);
    sm.close(2);
    assert_eq!(status(&sm, 2).expects_continuation, false);
    assert_eq!(sm.is_blocked(4), false);
    assert_eq!(sm.handle_frame(true, &frame(HEADERS, END_HEADERS, 4)), Verdict::Admitted);
}

// HEADERS opens a stream only below the concurrency limit
#[test]
fn concurrency_limit_refuses_streams() {
    let mut sm = StreamManager::new(1, false);
    assert_eq!(sm.max_concurrent_streams(), 1);
    assert_eq!(sm.active_streams(), 0);
    assert_eq!(sm.handle_frame(true, &frame(HEADERS, END_HEADERS, 2)), Verdict::Admitted);
    assert_eq!(sm.active_streams(), 1);
    assert_eq!(
        sm.handle_frame(true, &frame(HEADERS, END_HEADERS, 4)),
        Verdict::StreamError(4, ErrorKind::RefusedStream)
    );
    assert_eq!(sm.get_stream_status(&4), None);
    assert_eq!(utils::check_valid_frame(&sm, &frame(HEADERS, END_HEADERS, 4), true), false);
    // reserved streams do not count
    assert_eq!(sm.handle_frame(true, &frame(PUSH_PROMISE, END_HEADERS, 4)), Verdict::Admitted);
    assert_eq!(sm.active_streams(), 1);
    // a closed stream makes room
    assert_eq!(sm.handle_frame(true, &frame(RST_STREAM, 0, 2)), Verdict::Admitted);
    assert_eq!(sm.active_streams(), 0);
    assert_eq!(sm.handle_frame(true, &frame(HEADERS, END_HEADERS, 6)), Verdict::Admitted);
    assert_eq!(sm.active_streams(), 1);
}

// SETTINGS sets the concurrency limit
#[test]
fn settings_set_the_concurrency_limit() {
    let mut sm = StreamManager::new(1, false);
    let payload = vec![0, 1, 0, 0, 16, 0, 0, 3, 0, 0, 1, 2, 0, 4, 0, 0, 255, 255];
    let settings = RawFrame::with_payload((18, SETTINGS, 0, 0), payload.clone());
    assert_eq!(sm.handle_frame(true, &settings), Verdict::Admitted);
    assert_eq!(sm.max_concurrent_streams(), 258);
    // the last entry counts, bytes behind the last whole entry do not
    let twice = RawFrame::with_payload(
        (14, SETTINGS, 0, 0),
        vec![0, 3, 0, 0, 0, 7, 0, 3, 0, 0, 0, 9, 0, 3],
    );
    assert_eq!(sm.handle_frame(true, &twice), Verdict::Admitted);
    assert_eq!(sm.max_concurrent_streams(), 9);
    // an acknowledgement changes nothing
    let ack = RawFrame::with_payload((6, SETTINGS, 1, 0), vec![0, 3, 0, 0, 0, 1]);
    assert_eq!(sm.handle_frame(true, &ack), Verdict::Admitted);
    assert_eq!(sm.max_concurrent_streams(), 9);
    // SETTINGS belongs to stream 0
    let stray = RawFrame::with_payload((6, SETTINGS, 0, 3), vec![0, 3, 0, 0, 0, 1]);
    assert_eq!(sm.handle_frame(true, &stray), protocol_error());
    assert_eq!(sm.max_concurrent_streams(), 9);
    assert_eq!(utils::unpack_u32(1, 2, 3, 4), 0x0102_0304);
}

// Stream 0 carries connection frames, and PRIORITY and WINDOW_UPDATE
#[test]
fn connection_stream_frames() {
    let mut sm = StreamManager::new(4, false);
    assert_eq!(sm.handle_frame(true, &frame(PING, 0, 0)), Verdict::Admitted);
    assert_eq!(sm.handle_frame(true, &frame(GOAWAY, 0, 0)), Verdict::Admitted);
    assert_eq!(sm.handle_frame(true, &frame(PRIORITY, 0, 0)), Verdict::Admitted);
    assert_eq!(sm.handle_frame(true, &frame(WINDOW_UPDATE, 0, 0)), Verdict::Admitted);
    assert_eq!(sm.handle_frame(true, &frame(DATA, 0, 0)), protocol_error());
    assert_eq!(sm.handle_frame(true, &frame(HEADERS, END_HEADERS, 0)), protocol_error());
    assert_eq!(sm.handle_frame(true, &frame(RST_STREAM, 0, 0)), protocol_error());
    assert_eq!(sm.handle_frame(true, &frame(PING, 0, 2)), protocol_error());
    assert_eq!(sm.handle_frame(true, &frame(GOAWAY, 0, 2)), protocol_error());
    // frames of unknown type are let through and change nothing
    assert_eq!(sm.handle_frame(true, &frame(0x20, 0, 2)), Verdict::Admitted);
    assert_eq!(sm.get_stream_status(&2), None);
    assert_eq!(sm.get_stream_status(&0), None);
}

// The admissibility table, state by state
#[test]
fn admissibility_by_state() {
    let idle = StreamStatus::new();
    let mut reserved_idle = StreamStatus::new();
    reserved_idle.set_reserved(true);
    let at = |state: StreamStates| {
        let mut s = StreamStatus::new();
        s.set_state(state);
        s
    };
    let kinds = [DATA, HEADERS, PRIORITY, RST_STREAM, PUSH_PROMISE, WINDOW_UPDATE, CONTINUATION];
    let row = |s: &StreamStatus, receiving: bool, tolerate: bool| -> Vec<bool> {
        kinds.iter().map(|k| utils::check_state(receiving, s, tolerate, &frame(*k, 0, 2))).collect()
    };
    let (y, n) = (true, false);
    assert_eq!(row(&idle, true, true), vec![n, y, y, n, y, n, n]);
    assert_eq!(row(&idle, false, true), vec![n, y, y, y, y, n, n]);
    assert_eq!(row(&reserved_idle, true, true), vec![n, y, y, n, y, n, y]);
    let rl = at(StreamStates::ReservedLocal);
    assert_eq!(row(&rl, true, true), vec![n, n, y, y, n, y, n]);
    assert_eq!(row(&rl, false, true), vec![n, y, y, y, n, y, y]);
    let rr = at(StreamStates::ReservedRemote);
    assert_eq!(row(&rr, true, true), vec![n, y, y, y, n, y, y]);
    assert_eq!(row(&rr, false, true), vec![n, n, y, y, n, y, n]);
    let open = at(StreamStates::Open);
    assert_eq!(row(&open, true, true), vec![y, y, y, y, y, y, y]);
    assert_eq!(row(&open, false, true), vec![y, y, y, y, y, y, y]);
    let hl = at(StreamStates::HalfClosedLocal);
    assert_eq!(row(&hl, true, true), vec![y, y, y, y, n, y, y]);
    assert_eq!(row(&hl, false, true), vec![n, n, y, y, n, n, y]);
    let hr = at(StreamStates::HalfClosedRemote);
    assert_eq!(row(&hr, true, true), vec![n, n, y, y, n, n, y]);
    assert_eq!(row(&hr, false, true), vec![y, n, y, y, n, y, y]);
    let closed = at(StreamStates::Closed);
    assert_eq!(row(&closed, true, true), vec![n, n, y, y, n, y, n]);
    assert_eq!(row(&closed, true, false), vec![n, n, y, n, n, n, n]);
    assert_eq!(row(&closed, false, true), vec![n, n, y, y, n, n, n]);
    // frames that belong to no stream are in no row
    assert_eq!(utils::check_state(true, &open, true, &frame(PING, 0, 2)), false);
    assert_eq!(utils::check_open(true, &frame(SETTINGS, 0, 2)), false);
    assert_eq!(utils::check_idle(false, false, &frame(RST_STREAM, 0, 2)), true);
    assert_eq!(utils::check_reserved_local(true, &frame(HEADERS, 0, 2)), false);
    assert_eq!(utils::check_reserved_remote(true, &frame(HEADERS, 0, 2)), true);
    assert_eq!(utils::check_half_closed_local(false, &frame(DATA, 0, 2)), false);
    assert_eq!(utils::check_half_closed_remote(false, &frame(DATA, 0, 2)), true);
    assert_eq!(utils::check_closed(true, true, &frame(WINDOW_UPDATE, 0, 2)), true);
}

// A frame that the state does not admit is a stream error and closes the
// stream
#[test]
fn stream_errors_close_the_stream() {
    let mut sm = StreamManager::new(4, false);
    // DATA on an idle stream: the stream is unknown and stays so
    assert_eq!(
        sm.handle_frame(true, &frame(DATA, 0, 2)),
        Verdict::StreamError(2, ErrorKind::ProtocolError)
    );
    assert_eq!(sm.get_stream_status(&2), None);
    // DATA received on a stream that the peer has half closed
    sm.open(2, true);
    sm.set_state(&2, StreamStates::HalfClosedRemote);
    assert_eq!(
        sm.handle_frame(true, &frame(DATA, 0, 2)),
        Verdict::StreamError(2, ErrorKind::StreamClosed)
    );
    assert_eq!(status(&sm, 2).state, StreamStates::Closed);
    // PUSH_PROMISE refers to a known stream
    sm.open(4, true);
    assert_eq!(sm.handle_frame(true, &frame(PUSH_PROMISE, END_HEADERS, 4)), protocol_error());
    assert_eq!(status(&sm, 4).state, StreamStates::Open);
    // HEADERS sent on a stream reserved by the peer
    assert_eq!(sm.handle_frame(true, &frame(PUSH_PROMISE, END_HEADERS, 6)), Verdict::Admitted);
    assert_eq!(
        sm.handle_frame(false, &frame(HEADERS, END_HEADERS, 6)),
        Verdict::StreamError(6, ErrorKind::ProtocolError)
    );
    assert_eq!(status(&sm, 6).state, StreamStates::Closed);
    assert_eq!(Verdict::Admitted.is_admitted(), true);
    assert_eq!(protocol_error().is_admitted(), false);
}

// HEADERS with both flags: a reserved stream is activated and closed at once
#[test]
fn headers_with_both_flags() {
    let mut sm = StreamManager::new(4, false);
    sm.handle_frame(true, &frame(PUSH_PROMISE, END_HEADERS, 2));
    sm.handle_frame(true, &frame(HEADERS, END_HEADERS | END_STREAM, 2));
    assert_eq!(status(&sm, 2).state, StreamStates::Closed);
    assert_eq!(status(&sm, 2).should_end, true);
    // a new stream is opened and half closed
    sm.handle_frame(true, &frame(HEADERS, END_HEADERS | END_STREAM, 4));
    assert_eq!(status(&sm, 4).state, StreamStates::HalfClosedRemote);
    assert_eq!(status(&sm, 4).expects_continuation, false);
    sm.handle_frame(false, &frame(HEADERS, END_HEADERS | END_STREAM, 5));
    assert_eq!(status(&sm, 5).state, StreamStates::HalfClosedLocal);
}

// open_idle registers a stream, where the identifier is valid
#[test]
fn open_idle_registers_streams() {
    let mut sm = StreamManager::new(4, false);
    sm.open_idle(true, 2);
    assert_eq!(sm.get_stream_status(&2), Some(StreamStatus::new()));
    assert_eq!(sm.last_server_id(), 2);
    sm.open_idle(true, 3);
    assert_eq!(sm.get_stream_status(&3), None);
    sm.open_idle(false, 3);
    assert_eq!(status(&sm, 3).state, StreamStates::Idle);
    assert_eq!(sm.last_client_id(), 3);
    // an invalid identifier opens nothing
    sm.open(1, false);
    assert_eq!(sm.get_stream_status(&1), None);
    sm.close(1);
    assert_eq!(sm.get_stream_status(&1), None);
    sm.set_state(&1, StreamStates::Open);
    assert_eq!(sm.get_stream_status(&1), None);
    // handlers on unknown streams
    sm.handle_continuation(true, &frame(CONTINUATION, END_HEADERS, 9));
    sm.handle_data(true, &frame(DATA, END_STREAM, 9));
    sm.handle_rst_stream(true, &frame(RST_STREAM, 0, 9));
    sm.handle_priority(true, &frame(PRIORITY, 0, 9));
    sm.handle_window_update(true, &frame(WINDOW_UPDATE, 0, 9));
    assert_eq!(sm.get_stream_status(&9), None);
}

#[test]
fn flags_and_kinds() {
    assert_eq!(Flags::EndStream.bitmask(), 0x1);
    assert_eq!(Flags::EndHeaders.bitmask(), 0x4);
    assert_eq!(Flags::Padded.bitmask(), 0x8);
    assert_eq!(Flags::Priority.bitmask(), 0x20);
    assert_eq!(Flags::EndHeaders.is_set(0x5), true);
    assert_eq!(Flags::EndHeaders.is_set(0x1), false);
    assert_eq!(Flags::Padded.is_set(0x8), true);
    assert_eq!(Flags::Priority.is_set(0x1F), false);
    assert_eq!(FrameKind::from_type(0x0), FrameKind::Data);
    assert_eq!(FrameKind::from_type(0x1), FrameKind::Headers);
    assert_eq!(FrameKind::from_type(0x2), FrameKind::Priority);
    assert_eq!(FrameKind::from_type(0x3), FrameKind::RstStream);
    assert_eq!(FrameKind::from_type(0x4), FrameKind::Settings);
    assert_eq!(FrameKind::from_type(0x5), FrameKind::PushPromise);
    assert_eq!(FrameKind::from_type(0x6), FrameKind::Ping);
    assert_eq!(FrameKind::from_type(0x7), FrameKind::GoAway);
    assert_eq!(FrameKind::from_type(0x8), FrameKind::WindowUpdate);
    assert_eq!(FrameKind::from_type(0x9), FrameKind::Continuation);
    assert_eq!(FrameKind::from_type(0x20), FrameKind::Unknown);
}

#[test]
fn status_setters() {
    let mut s = StreamStatus::new();
    assert_eq!(s.state, StreamStates::Idle);
    assert_eq!((s.priority, s.dependancy, s.is_exclusive), (None, None, false));
    s.set_priority(Some(16));
    s.set_dependancy(Some(3), true);
    assert_eq!((s.priority, s.dependancy, s.is_exclusive), (Some(16), Some(3), true));
    s.remove_dependancies();
    assert_eq!((s.priority, s.dependancy, s.is_exclusive), (Some(16), None, false));
    s.set_continue(true);
    s.set_end(true);
    s.set_reserved(true);
    assert_eq!((s.expects_continuation, s.should_end, s.is_reserved), (true, true, true));
    // a pending END_STREAM closes the stream when the header block ends
    s.set_state(StreamStates::HalfClosedRemote);
    let done = s.after_continuation(true, 0x4);
    assert_eq!(done.state, StreamStates::Closed);
    assert_eq!(done.expects_continuation, false);
    // without END_HEADERS nothing happens
    assert_eq!(s.after_continuation(true, 0x0), s);
}

fn priority_frame(stream_id: u32, payload: Vec<u8>) -> RawFrame {
    RawFrame::with_payload((payload.len() as u32, PRIORITY, 0, stream_id), payload)
}

// The payload of a PRIORITY frame: exclusive bit, 31 bits of stream, weight
#[test]
fn priority_payload_is_parsed() {
    assert_eq!(utils::parse_priority(&[0x80, 0, 0, 3, 255]), Some((3, true, 256)));
    assert_eq!(utils::parse_priority(&[0x7F, 0xFF, 0xFF, 0xFF, 0]), Some((0x7FFF_FFFF, false, 1)));
    assert_eq!(utils::parse_priority(&[0, 0, 1, 2, 15]), Some((258, false, 16)));
    assert_eq!(utils::parse_priority(&[0xFF, 0xFF, 0xFF, 0xFF, 7]), Some((0x7FFF_FFFF, true, 8)));
    assert_eq!(utils::parse_priority(&[0, 0, 0, 3]), None);
    assert_eq!(utils::parse_priority(&[0, 0, 0, 3, 1, 1]), None);
    assert_eq!(utils::parse_priority(&[]), None);
}

// A PRIORITY frame is noted on the stream's record and shapes the tree; the
// state of the stream stays
#[test]
fn priority_frames_shape_the_tree() {
    let mut sm = StreamManager::new(10, false);
    sm.handle_frame(true, &frame(HEADERS, END_HEADERS, 2));
    sm.handle_frame(true, &frame(HEADERS, END_HEADERS, 4));
    assert_eq!(sm.priorities().contains(2), false);

    // stream 2 depends on nothing that is known: it is independent and queued
    let v = sm.handle_frame(true, &priority_frame(2, vec![0, 0, 0, 0, 15]));
    assert_eq!(v, Verdict::Admitted);
    assert_eq!(status(&sm, 2).state, StreamStates::Open);
    assert_eq!(status(&sm, 2).priority, Some(16));
    assert_eq!(status(&sm, 2).dependancy, Some(0));
    assert_eq!(status(&sm, 2).is_exclusive, false);
    assert_eq!(status(&sm, 2).expects_continuation, false);
    assert_eq!(sm.priorities().parent_of(2), Some(0));
    assert_eq!(sm.priorities().queue_len(), 1);

    // stream 4 depends on stream 2: it is not queued
    let v = sm.handle_frame(true, &priority_frame(4, vec![0, 0, 0, 2, 255]));
    assert_eq!(v, Verdict::Admitted);
    assert_eq!(status(&sm, 4).priority, Some(256));
    assert_eq!(status(&sm, 4).dependancy, Some(2));
    assert_eq!(sm.priorities().parent_of(4), Some(2));
    assert_eq!(sm.priorities().depth_of(4), Some(2));
    assert_eq!(sm.priorities().queue_len(), 1);

    // a stream unknown to the table depends exclusively on stream 2
    let v = sm.handle_frame(true, &priority_frame(7, vec![0x80, 0, 0, 2, 0]));
    assert_eq!(v, Verdict::Admitted);
    assert_eq!(sm.get_stream_status(&7), None);
    assert_eq!(sm.priorities().parent_of(7), Some(2));
    assert_eq!(sm.priorities().exclusive_child_of(2), Some(7));
    assert_eq!(sm.priorities().children_count(2), Some(1));
    assert_eq!(sm.priorities().parent_of(4), Some(7));
    assert_eq!(sm.priorities().depth_of(4), Some(3));

    // the exclusive dependency is noted on a known stream
    sm.handle_priority(true, &priority_frame(4, vec![0x80, 0, 0, 7, 3]));
    assert_eq!(status(&sm, 4).is_exclusive, true);
    assert_eq!(status(&sm, 4).dependancy, Some(7));
    assert_eq!(status(&sm, 4).priority, Some(4));
    assert_eq!(status(&sm, 4).state, StreamStates::Open);
    assert_eq!(sm.priorities().exclusive_child_of(7), Some(4));

    // the scheduler gets the independent stream, once
    assert_eq!(sm.priorities_mut().get(), Some(2));
    assert_eq!(sm.priorities_mut().get(), None);
    assert_eq!(sm.priorities().queue_len(), 0);
    assert_eq!(sm.active_streams(), 2);
    // a stream is queued again, and a retired one leaves the tree
    sm.priorities_mut().add(2);
    assert_eq!(sm.priorities().queue_len(), 1);
    sm.priorities_mut().retire(7);
    assert_eq!(sm.priorities().contains(7), false);
    assert_eq!(sm.priorities().parent_of(4), Some(2));
    assert_eq!(status(&sm, 4).state, StreamStates::Open);
    assert_eq!(sm.last_server_id(), 4);
}

// What a PRIORITY frame does not do
#[test]
fn priority_frames_that_change_nothing() {
    let mut sm = StreamManager::new(10, false);
    sm.handle_frame(true, &frame(HEADERS, END_HEADERS, 2));
    let before = status(&sm, 2);
    // a payload that is not 5 bytes long
    assert_eq!(sm.handle_frame(true, &priority_frame(2, vec![0, 0, 0, 4])), Verdict::Admitted);
    assert_eq!(status(&sm, 2), before);
    assert_eq!(sm.priorities().contains(2), false);
    // stream 0 is no node
    assert_eq!(sm.handle_frame(true, &priority_frame(0, vec![0, 0, 0, 2, 1])), Verdict::Admitted);
    assert_eq!(sm.priorities().contains(0), false);
    assert_eq!(sm.priorities().queue_len(), 0);
    // a stream that depends on itself is added, and stays independent
    h2flow::flow::handlers::handle_priority(&mut sm, true, &priority_frame(2, vec![0, 0, 0, 2, 1]));
    assert_eq!(sm.priorities().parent_of(2), Some(0));
    assert_eq!(status(&sm, 2).dependancy, Some(2));
    // while another stream's header block is open nothing is noted
    sm.handle_frame(true, &frame(HEADERS, 0, 4));
    assert_eq!(sm.handle_frame(true, &priority_frame(2, vec![0, 0, 0, 0, 9])), protocol_error());
    sm.handle_priority(true, &priority_frame(2, vec![0, 0, 0, 0, 9]));
    sm.handle_priority(true, &priority_frame(6, vec![0, 0, 0, 0, 9]));
    assert_eq!(status(&sm, 2).priority, Some(2));
    assert_eq!(sm.priorities().contains(6), false);
    // on the stream of the open block the handler still notes the priority
    sm.handle_priority(true, &priority_frame(4, vec![0, 0, 0, 2, 9]));
    assert_eq!(status(&sm, 4).priority, Some(10));
    assert_eq!(status(&sm, 4).expects_continuation, true);
    assert_eq!(sm.priorities().parent_of(4), Some(2));
    assert_eq!(sm.is_blocked(2), true);
    // a closed stream stays closed, and its priority is noted
    sm.close(4);
    sm.handle_frame(true, &priority_frame(4, vec![0, 0, 0, 0, 0]));
    assert_eq!(status(&sm, 4).state, StreamStates::Closed);
    assert_eq!(status(&sm, 4).priority, Some(1));
    // a WINDOW_UPDATE frame leaves every record as it is
    let record = status(&sm, 2);
    assert_eq!(sm.handle_frame(true, &frame(WINDOW_UPDATE, 0, 2)), Verdict::Admitted);
    assert_eq!(status(&sm, 2), record);
}
