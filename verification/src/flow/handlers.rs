//! The handlers that move a stream through its states, one per frame type.
//! Each leaves the table alone while the header block of another stream is
//! open.

use crate::flow::status::StreamStates;
use crate::flow::streammanager::StreamManager;
use crate::flow::streamstate::{
    after_close, after_continuation, after_data, after_header, after_priority, after_push_promise,
};
use crate::flow::utils::parse_priority;
use crate::frame::frames::RawFrame;
use vstd::prelude::*;

verus! {

/// HEADERS: opens an idle stream, activates a reserved one once the header
/// block is complete, and notes END_STREAM.
pub fn handle_header(stream_manager: &mut StreamManager, receiving: bool, frame: &RawFrame)
    requires
        old(stream_manager).wf(),
    ensures
        final(stream_manager).wf(),
        final(stream_manager)@ == after_header(
            old(stream_manager)@,
            receiving,
            frame.header.2,
            frame.header.3,
        ),
{
    let flag = frame.header.2;
    let stream_id = frame.header.3;
    if stream_manager.is_blocked(stream_id) {
        return ;
    }
    let state = match stream_manager.get_stream_status(&stream_id) {
        None => StreamStates::Idle,
        Some(status) => status.state,
    };
    if state == StreamStates::Idle {
        stream_manager.open(stream_id, receiving);
    }
    match stream_manager.get_stream_status(&stream_id) {
        Some(status) => {
            stream_manager.store(stream_id, status.after_headers(receiving, flag));
        },
        None => {},
    }
}

/// PUSH_PROMISE: reserves an unknown stream; the reservation is complete
/// once the header block is.
pub fn handle_push_promise(stream_manager: &mut StreamManager, receiving: bool, frame: &RawFrame)
    requires
        old(stream_manager).wf(),
    ensures
        final(stream_manager).wf(),
        final(stream_manager)@ == after_push_promise(
            old(stream_manager)@,
            receiving,
            frame.header.2,
            frame.header.3,
        ),
{
    let flag = frame.header.2;
    let stream_id = frame.header.3;
    if stream_manager.is_blocked(stream_id) {
        return ;
    }
    if stream_manager.get_stream_status(&stream_id).is_none() {
        stream_manager.open_idle(receiving, stream_id);
        match stream_manager.get_stream_status(&stream_id) {
            Some(status) => {
                stream_manager.store(stream_id, status.after_push_promise(receiving, flag));
            },
            None => {},
        }
    }
}

/// CONTINUATION: with END_HEADERS, completes the header block and makes the
/// transition that waited for it.
pub fn handle_continuation(stream_manager: &mut StreamManager, receiving: bool, frame: &RawFrame)
    requires
        old(stream_manager).wf(),
    ensures
        final(stream_manager).wf(),
        final(stream_manager)@ == after_continuation(
            old(stream_manager)@,
            receiving,
            frame.header.2,
            frame.header.3,
        ),
{
    let flag = frame.header.2;
    let stream_id = frame.header.3;
    if stream_manager.is_blocked(stream_id) {
        return ;
    }
    match stream_manager.get_stream_status(&stream_id) {
        Some(status) => {
            proof {
                stream_manager.lemma_wf();
            }
            stream_manager.store(stream_id, status.after_continuation(receiving, flag));
        },
        None => {},
    }
}

/// DATA: with END_STREAM, half closes an open stream and closes one that
/// was half closed on the other side.
pub fn handle_data(stream_manager: &mut StreamManager, receiving: bool, frame: &RawFrame)
    requires
        old(stream_manager).wf(),
    ensures
        final(stream_manager).wf(),
        final(stream_manager)@ == after_data(
            old(stream_manager)@,
            receiving,
            frame.header.2,
            frame.header.3,
        ),
{
    let flag = frame.header.2;
    let stream_id = frame.header.3;
    if stream_manager.is_blocked(stream_id) {
        return ;
    }
    match stream_manager.get_stream_status(&stream_id) {
        Some(status) => {
            proof {
                stream_manager.lemma_wf();
            }
            stream_manager.store(stream_id, status.after_data(receiving, flag));
        },
        None => {},
    }
}

/// PRIORITY: reads the dependency and the weight from the payload, notes
/// them on the record of a known stream, and has the dependency tree follow
/// the dependency. The state of the stream stays as it is. A payload that
/// is not 5 bytes long is passed over.
pub fn handle_priority(stream_manager: &mut StreamManager, receiving: bool, frame: &RawFrame)
    requires
        old(stream_manager).wf(),
    ensures
        final(stream_manager).wf(),
        final(stream_manager)@ == after_priority(
            old(stream_manager)@,
            frame.header.3,
            frame.payload@,
        ),
{
    let stream_id = frame.header.3;
    if stream_manager.is_blocked(stream_id) {
        return ;
    }
    match parse_priority(frame.payload.as_slice()) {
        Some((parent_id, exclusive, weight)) => {
            stream_manager.record_priority(stream_id, parent_id, exclusive, weight);
        },
        None => {},
    }
}

/// WINDOW_UPDATE: leaves the stream table as it is; flow control is kept
/// elsewhere.
pub fn handle_window_update(stream_manager: &mut StreamManager, receiving: bool, frame: &RawFrame)
    requires
        old(stream_manager).wf(),
    ensures
        final(stream_manager).wf(),
        final(stream_manager)@ == old(stream_manager)@,
{
}

/// RST_STREAM: closes the stream.
pub fn handle_rst_stream(stream_manager: &mut StreamManager, receiving: bool, frame: &RawFrame)
    requires
        old(stream_manager).wf(),
    ensures
        final(stream_manager).wf(),
        final(stream_manager)@ == after_close(old(stream_manager)@, frame.header.3),
{
    let stream_id = frame.header.3;
    stream_manager.close(stream_id);
}

} // verus!
