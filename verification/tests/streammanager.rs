use h2flow::flow::handlers;
use h2flow::flow::streammanager::StreamManager;
use h2flow::flow::utils;
use h2flow::flow::{Flags, StreamStates, StreamStatus};
use h2flow::frame::frames::{pack_header, RawFrame};

fn build_test_rawframe(stream_id: u32, frame_type: &str, flags: &str) -> RawFrame {
    let data = b"123";
    let flag = match flags {
        "endstream" => 0x1,
        "endheaders" => 0x4,
        _ => 0x0,
    };
    let kind = match frame_type {
        "data" => 0x0,
        "headers" => 0x1,
        "priority" => 0x2,
        "rststream" => 0x3,
        "settings" => 0x4,
        "pushpromise" => 0x5,
        "ping" => 0x6,
        "goaway" => 0x7,
        "windowsupdate" => 0x8,
        "continuation" => 0x9,
        _ => 0x7,
    };
    let header = (data.len() as u32, kind, flag, stream_id);
    let buf = {
        let mut buf = Vec::new();
        buf.extend(pack_header(&header).to_vec().into_iter());
        buf.extend(data.to_vec().into_iter());
        buf
    };
    RawFrame::from_buf(&buf).unwrap()
}

fn state_of(stream_manager: &StreamManager, stream_id: u32) -> StreamStates {
    stream_manager.get_stream_status(&stream_id).unwrap().state
}

fn status_of(stream_manager: &StreamManager, stream_id: u32) -> StreamStatus {
    stream_manager.get_stream_status(&stream_id).unwrap()
}

// Should return true if a given flag has been set
#[test]
fn streammanager_test_bitmask_flag() {
    let check_pass = Flags::EndStream.is_set(0x1);
    assert_eq!(check_pass, true);
}

// The validator lets the appropriate frames through
#[test]
fn streammanager_test_handle_frame() {
    let stream_id = 2;
    let mut stream_manager = StreamManager::new(4, false);
    let raw_header = build_test_rawframe(stream_id, "headers", "endstream");
    let raw_continue = build_test_rawframe(stream_id, "continuation", "endheaders");

    let check_pass1 = stream_manager.handle_frame(true, &raw_header).is_admitted();
    assert_eq!(check_pass1, true);

    let check_pass2 = stream_manager.handle_frame(true, &raw_continue).is_admitted();
    assert_eq!(check_pass2, true);
}

// Calling open should open a new stream
#[test]
fn streammanager_test_open_stream() {
    let stream_id = 1;
    let mut stream_manager = StreamManager::new(4, false);

    stream_manager.open(stream_id, false);
    assert_eq!(state_of(&stream_manager, stream_id), StreamStates::Open);
}

// Handling a received headers frame should open a new stream
#[test]
fn streammanager_test_implicit_open() {
    let stream_id = 2;
    let mut stream_manager = StreamManager::new(4, false);
    let raw_header = build_test_rawframe(stream_id, "headers", "none");

    stream_manager.handle_frame(true, &raw_header);
    assert_eq!(state_of(&stream_manager, stream_id), StreamStates::Open);
}

// Calling close should close a given stream
#[test]
fn streammanager_test_close_stream() {
    let stream_id = 1;
    let mut stream_manager = StreamManager::new(4, false);
    stream_manager.open(stream_id, false);
    stream_manager.close(stream_id);

    assert_eq!(state_of(&stream_manager, stream_id), StreamStates::Closed);
}

// A new stream does not expect continuation: a continuation frame is rejected
#[test]
fn streammanager_test_check_continue() {
    let stream_id = 2;
    let mut stream_manager = StreamManager::new(4, false);
    let raw_continue = build_test_rawframe(stream_id, "continuation", "none");

    let check_fail = utils::check_continue(&mut stream_manager, &raw_continue);
    assert_eq!(check_fail, false);
}

// An open stream accepts continuation frames only while it expects them
#[test]
fn streammanager_test_open_with_continuation() {
    let stream_id = 2;
    let mut stream_manager = StreamManager::new(4, false);
    let raw_header = build_test_rawframe(stream_id, "headers", "none");
    let raw_continue = build_test_rawframe(stream_id, "continuation", "none");
    let raw_continue_end = build_test_rawframe(stream_id, "continuation", "endheaders");

    stream_manager.handle_frame(true, &raw_header);
    stream_manager.handle_frame(true, &raw_continue);

    assert_eq!(state_of(&stream_manager, stream_id), StreamStates::Open);

    stream_manager.handle_frame(true, &raw_continue_end);

    assert_eq!(state_of(&stream_manager, stream_id), StreamStates::Open);
    assert_eq!(status_of(&stream_manager, stream_id).expects_continuation, false);
}

// Receiving a header opens a new stream, which expects continuation frames
// if the end header flag is not set; the last stream id is updated
#[test]
fn streammanager_test_handle_header_continue() {
    let stream_id = 2;
    let mut stream_manager = StreamManager::new(4, false);
    let raw_header = build_test_rawframe(stream_id, "headers", "none");

    handlers::handle_header(&mut stream_manager, true, &raw_header);

    let updated_server_id = stream_manager.last_server_id();
    let stream_status = stream_manager.get_stream_status(&stream_id).unwrap();

    assert_eq!(stream_status.state, StreamStates::Open);
    assert_eq!(stream_status.expects_continuation, true);
    assert_eq!(updated_server_id, 2);
}

// Receiving a header with the end stream flag half closes the stream
#[test]
fn streammanager_test_handle_header_end_stream() {
    let stream_id = 2;
    let mut stream_manager = StreamManager::new(4, false);
    let raw_header = build_test_rawframe(stream_id, "headers", "endstream");

    handlers::handle_header(&mut stream_manager, true, &raw_header);

    let updated_server_id = stream_manager.last_server_id();
    let stream_status = stream_manager.get_stream_status(&stream_id).unwrap();

    assert_eq!(stream_status.state, StreamStates::HalfClosedRemote);
    assert_eq!(stream_status.expects_continuation, true);
    assert_eq!(stream_status.should_end, true);
    assert_eq!(updated_server_id, 2);
}

// A rst stream frame closes the stream
#[test]
fn streammanager_test_handle_rst() {
    let stream_id = 1;
    let mut stream_manager = StreamManager::new(4, false);
    let raw_rst_stream = build_test_rawframe(stream_id, "rststream", "none");

    stream_manager.open(stream_id, false);
    handlers::handle_rst_stream(&mut stream_manager, false, &raw_rst_stream);

    assert_eq!(state_of(&stream_manager, stream_id), StreamStates::Closed);
}

// A continuation frame with the end header flag ends the continuation
#[test]
fn streammanager_test_handle_continuation() {
    let stream_id = 2;
    let mut stream_manager = StreamManager::new(4, false);
    let raw_header = build_test_rawframe(stream_id, "headers", "none");
    let raw_continue_end = build_test_rawframe(stream_id, "continuation", "endheaders");

    stream_manager.handle_frame(true, &raw_header);

    assert_eq!(status_of(&stream_manager, stream_id).expects_continuation, true);

    handlers::handle_continuation(&mut stream_manager, true, &raw_continue_end);
    assert_eq!(state_of(&stream_manager, stream_id), StreamStates::Open);
    assert_eq!(status_of(&stream_manager, stream_id).expects_continuation, false);
}

// A push promise without end headers leaves the stream idle and reserved
#[test]
fn streammanager_test_handle_push_promise() {
    let stream_id = 2;
    let mut stream_manager = StreamManager::new(4, false);
    let raw_ppromise = build_test_rawframe(stream_id, "pushpromise", "none");
    let _raw_continue_end = build_test_rawframe(stream_id, "continuation", "endheaders");

    handlers::handle_push_promise(&mut stream_manager, true, &raw_ppromise);

    assert_eq!(state_of(&stream_manager, stream_id), StreamStates::Idle);
    assert_eq!(status_of(&stream_manager, stream_id).expects_continuation, true);
    assert_eq!(status_of(&stream_manager, stream_id).is_reserved, true);
}

// A data frame with end stream closes a half closed stream
#[test]
fn streammanager_test_handle_data() {
    let stream_id = 2;
    let mut stream_manager = StreamManager::new(4, false);
    let raw_data = build_test_rawframe(stream_id, "data", "endstream");

    stream_manager.open(stream_id, true);
    stream_manager.set_state(&stream_id, StreamStates::HalfClosedLocal);
    handlers::handle_data(&mut stream_manager, true, &raw_data);

    assert_eq!(state_of(&stream_manager, stream_id), StreamStates::Closed);
}

// Idle -> Open -> Closed
#[test]
fn streammanager_test_simple_integration() {
    let stream_id = 2;
    let mut stream_manager = StreamManager::new(4, false);
    let raw_header = build_test_rawframe(stream_id, "headers", "none");
    let raw_continue_end = build_test_rawframe(stream_id, "continuation", "endheaders");
    let raw_rst = build_test_rawframe(stream_id, "rststream", "none");

    stream_manager.handle_frame(true, &raw_header);
    assert_eq!(state_of(&stream_manager, stream_id), StreamStates::Open);
    assert_eq!(status_of(&stream_manager, stream_id).expects_continuation, true);

    stream_manager.handle_frame(true, &raw_continue_end);
    assert_eq!(status_of(&stream_manager, stream_id).expects_continuation, false);
    assert_eq!(state_of(&stream_manager, stream_id), StreamStates::Open);

    stream_manager.handle_frame(true, &raw_rst);
    assert_eq!(state_of(&stream_manager, stream_id), StreamStates::Closed);
}

// Idle -> ReservedRemote -> HalfClosedLocal -> Closed (without continuation)
#[test]
fn streammanager_test_simple_push_promise_integration() {
    let stream_id = 2;
    let mut stream_manager = StreamManager::new(4, false);
    let raw_ppromise = build_test_rawframe(stream_id, "pushpromise", "endheaders");
    let raw_header = build_test_rawframe(stream_id, "headers", "endheaders");
    let raw_rst = build_test_rawframe(stream_id, "rststream", "none");

    stream_manager.handle_frame(true, &raw_ppromise);
    assert_eq!(state_of(&stream_manager, stream_id), StreamStates::ReservedRemote);
    assert_eq!(status_of(&stream_manager, stream_id).expects_continuation, false);
    assert_eq!(status_of(&stream_manager, stream_id).is_reserved, true);

    stream_manager.handle_frame(true, &raw_header);
    assert_eq!(state_of(&stream_manager, stream_id), StreamStates::HalfClosedLocal);
    assert_eq!(status_of(&stream_manager, stream_id).expects_continuation, false);

    stream_manager.handle_frame(true, &raw_rst);
    assert_eq!(state_of(&stream_manager, stream_id), StreamStates::Closed);
}

// Idle -> ReservedRemote -> HalfClosedLocal -> Closed (with continuation)
#[test]
fn streammanager_test_recv_push_promise_integration_with_continuation() {
    let stream_id = 2;
    let mut stream_manager = StreamManager::new(4, false);
    let raw_ppromise = build_test_rawframe(stream_id, "pushpromise", "none");
    let raw_header = build_test_rawframe(stream_id, "headers", "endstream");
    let raw_continue_end = build_test_rawframe(stream_id, "continuation", "endheaders");
    let _raw_rst = build_test_rawframe(stream_id, "rststream", "none");

    stream_manager.handle_frame(true, &raw_ppromise);
    assert_eq!(state_of(&stream_manager, stream_id), StreamStates::Idle);
    assert_eq!(status_of(&stream_manager, stream_id).expects_continuation, true);
    assert_eq!(status_of(&stream_manager, stream_id).is_reserved, true);

    stream_manager.handle_frame(true, &raw_continue_end);
    assert_eq!(state_of(&stream_manager, stream_id), StreamStates::ReservedRemote);
    assert_eq!(status_of(&stream_manager, stream_id).expects_continuation, false);

    stream_manager.handle_frame(true, &raw_header);
    assert_eq!(state_of(&stream_manager, stream_id), StreamStates::ReservedRemote);
    assert_eq!(status_of(&stream_manager, stream_id).expects_continuation, true);

    stream_manager.handle_frame(true, &raw_continue_end);
    assert_eq!(state_of(&stream_manager, stream_id), StreamStates::Closed);
    assert_eq!(status_of(&stream_manager, stream_id).expects_continuation, false);
}

// The same for frames that are sent
#[test]
fn streammanager_test_send_push_promise_integration_with_continuation() {
    let stream_id = 1;
    let mut stream_manager = StreamManager::new(4, false);
    let raw_ppromise = build_test_rawframe(stream_id, "pushpromise", "none");
    let raw_header = build_test_rawframe(stream_id, "headers", "endstream");
    let raw_continue_end = build_test_rawframe(stream_id, "continuation", "endheaders");
    let _raw_rst = build_test_rawframe(stream_id, "rststream", "none");

    stream_manager.handle_frame(false, &raw_ppromise);
    assert_eq!(state_of(&stream_manager, stream_id), StreamStates::Idle);
    assert_eq!(status_of(&stream_manager, stream_id).expects_continuation, true);
    assert_eq!(status_of(&stream_manager, stream_id).is_reserved, true);

    stream_manager.handle_frame(false, &raw_continue_end);
    assert_eq!(state_of(&stream_manager, stream_id), StreamStates::ReservedLocal);
    assert_eq!(status_of(&stream_manager, stream_id).expects_continuation, false);

    stream_manager.handle_frame(false, &raw_header);
    assert_eq!(state_of(&stream_manager, stream_id), StreamStates::ReservedLocal);
    assert_eq!(status_of(&stream_manager, stream_id).expects_continuation, true);

    stream_manager.handle_frame(false, &raw_continue_end);
    assert_eq!(state_of(&stream_manager, stream_id), StreamStates::Closed);
    assert_eq!(status_of(&stream_manager, stream_id).expects_continuation, false);
}
