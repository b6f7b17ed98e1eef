//! The stream table of a connection as a mathematical model: what the table
//! holds, which frames it admits, and what each frame does to it. The
//! manager's functions are specified by the functions of this module, and
//! the laws of the state machine are proved here.

use crate::flow::status::{
    continuation_step, data_step, has_flag, header_step, idle_status, promise_step, Flags,
    StreamStates, StreamStatus,
};
use crate::flow::forest::{
    forest_wf, lemma_reprioritized_wf, reprioritized, reprioritized_queue, NodeView,
};
use crate::frame::frames::be32;
use vstd::prelude::*;

verus! {

/// The frame types the core tells apart.
#[derive(Debug, Clone, Copy, PartialEq, Eq, Structural)]
pub enum FrameKind {
    Data,
    Headers,
    Priority,
    RstStream,
    Settings,
    PushPromise,
    Ping,
    GoAway,
    WindowUpdate,
    Continuation,
    Unknown,
}

/// The error codes the core reports.
#[derive(Debug, Clone, Copy, PartialEq, Eq, Structural)]
pub enum ErrorKind {
    ProtocolError,
    StreamClosed,
    RefusedStream,
}

/// What the core says of a frame.
#[derive(Debug, Clone, Copy, PartialEq, Eq, Structural)]
pub enum Verdict {
    /// The frame was admitted and applied.
    Admitted,
    /// The frame breaks the connection.
    ConnectionError(ErrorKind),
    /// The frame is an error on the given stream, which is closed.
    StreamError(u32, ErrorKind),
}

impl Verdict {
    /// Whether the frame was admitted.
    pub fn is_admitted(&self) -> (r: bool)
        ensures
            r == (*self == Verdict::Admitted),
    {
        match self {
            Verdict::Admitted => true,
            _ => false,
        }
    }
}

/// The kind of a frame with the given type octet.
pub open spec fn kind_of(frame_type: u8) -> FrameKind {
    if frame_type == 0x0 {
        FrameKind::Data
    } else if frame_type == 0x1 {
        FrameKind::Headers
    } else if frame_type == 0x2 {
        FrameKind::Priority
    } else if frame_type == 0x3 {
        FrameKind::RstStream
    } else if frame_type == 0x4 {
        FrameKind::Settings
    } else if frame_type == 0x5 {
        FrameKind::PushPromise
    } else if frame_type == 0x6 {
        FrameKind::Ping
    } else if frame_type == 0x7 {
        FrameKind::GoAway
    } else if frame_type == 0x8 {
        FrameKind::WindowUpdate
    } else if frame_type == 0x9 {
        FrameKind::Continuation
    } else {
        FrameKind::Unknown
    }
}

impl FrameKind {
    /// The kind of a frame with the given type octet.
    pub fn from_type(frame_type: u8) -> (kind: FrameKind)
        ensures
            kind == kind_of(frame_type),
    {
        match frame_type {
            0x0 => FrameKind::Data,
            0x1 => FrameKind::Headers,
            0x2 => FrameKind::Priority,
            0x3 => FrameKind::RstStream,
            0x4 => FrameKind::Settings,
            0x5 => FrameKind::PushPromise,
            0x6 => FrameKind::Ping,
            0x7 => FrameKind::GoAway,
            0x8 => FrameKind::WindowUpdate,
            0x9 => FrameKind::Continuation,
            _ => FrameKind::Unknown,
        }
    }
}

/// The stream table of a connection with its settings, as contracts see it.
pub struct ManagerView {
    /// The streams that a frame has referred to, by identifier. A stream
    /// that is absent is idle.
    pub table: Map<u32, StreamStatus>,
    /// The highest even identifier opened so far.
    pub last_server_id: u32,
    /// The highest odd identifier opened so far.
    pub last_client_id: u32,
    /// The number of streams that may be active at once.
    pub max_concurrent_streams: u32,
    /// Whether this endpoint is the server.
    pub is_server: bool,
    /// The stream whose header block is open; 0 where none is.
    pub open_block: u32,
    /// Whether WINDOW_UPDATE and RST_STREAM frames received on a closed
    /// stream are still ignored rather than rejected.
    pub tolerate_closed: bool,
    /// The dependency tree of the streams, as PRIORITY frames have shaped it.
    pub tree: Map<u32, NodeView>,
    /// The queue of the streams to serve, oldest first; see the priority
    /// manager for what its entries mean.
    pub queue: Seq<u32>,
}

/// The status of stream `id`: idle where the table does not hold it.
pub open spec fn status_of(m: ManagerView, id: u32) -> StreamStatus {
    if m.table.contains_key(id) {
        m.table[id]
    } else {
        idle_status()
    }
}

/// Whether a stream in this state counts towards the concurrency limit.
pub open spec fn is_active(state: StreamStates) -> bool {
    state == StreamStates::Open || state == StreamStates::HalfClosedLocal || state
        == StreamStates::HalfClosedRemote
}

/// The streams that count towards the concurrency limit.
pub open spec fn active_set(table: Map<u32, StreamStatus>) -> Set<u32> {
    Set::new(|k: u32| table.contains_key(k) && is_active(table[k].state))
}

/// The invariant of the stream table: stream 0 is not in it, no stream is
/// above the last identifier of its parity, and at most one header block is
/// open, that of `open_block`.
pub open spec fn table_wf(m: ManagerView) -> bool {
    &&& m.table.dom().finite()
    &&& !m.table.contains_key(0)
    &&& forall|k: u32| #[trigger]
        m.table.contains_key(k) ==> {
            &&& (k % 2 == 1 ==> k <= m.last_client_id)
            &&& (k % 2 == 0 ==> k <= m.last_server_id)
            &&& (m.table[k].expects_continuation ==> k == m.open_block)
        }
    &&& (m.open_block != 0 ==> m.table.contains_key(m.open_block)
        && m.table[m.open_block].expects_continuation)
}

/// Whether a new stream `id` may be opened in the given direction: it has
/// the parity of the endpoint that opens it (odd for the client, even for
/// the server) and exceeds every identifier of that parity opened before.
pub open spec fn valid_open(m: ManagerView, id: u32, receiving: bool) -> bool {
    if receiving == m.is_server {
        id > m.last_client_id && id % 2 == 1
    } else {
        id > m.last_server_id && id % 2 == 0
    }
}

/// Whether the header block of another stream is open, so that no frame on
/// stream `id` may come in between.
pub open spec fn blocked(m: ManagerView, id: u32) -> bool {
    m.open_block != 0 && m.open_block != id
}

/// The table with status `s` for stream `id`, and with the open header
/// block following the status.
pub open spec fn put(m: ManagerView, id: u32, s: StreamStatus) -> ManagerView {
    ManagerView {
        table: m.table.insert(id, s),
        open_block: if s.expects_continuation {
            id
        } else if m.open_block == id {
            0
        } else {
            m.open_block
        },
        ..m
    }
}

/// The table after stream `id` was registered as idle, which happens where
/// the identifier may be opened and not otherwise.
pub open spec fn after_open_idle(m: ManagerView, receiving: bool, id: u32) -> ManagerView {
    if valid_open(m, id, receiving) {
        ManagerView {
            table: m.table.insert(id, idle_status()),
            last_server_id: if id % 2 == 0 {
                id
            } else {
                m.last_server_id
            },
            last_client_id: if id % 2 == 0 {
                m.last_client_id
            } else {
                id
            },
            ..m
        }
    } else {
        m
    }
}

/// The table with stream `id` in the given state. An unknown stream is left
/// unknown, and a closed stream stays closed.
pub open spec fn with_state(m: ManagerView, id: u32, state: StreamStates) -> ManagerView {
    if m.table.contains_key(id) && m.table[id].state != StreamStates::Closed {
        ManagerView { table: m.table.insert(id, StreamStatus { state: state, ..m.table[id] }), ..m }
    } else {
        m
    }
}

/// The table after stream `id` was opened: an unknown stream is registered
/// where its identifier is valid, and an idle stream becomes open.
pub open spec fn after_open(m: ManagerView, id: u32, receiving: bool) -> ManagerView {
    let m1 = if m.table.contains_key(id) {
        m
    } else {
        after_open_idle(m, receiving, id)
    };
    if m1.table.contains_key(id) && m1.table[id].state == StreamStates::Idle {
        with_state(m1, id, StreamStates::Open)
    } else {
        m1
    }
}

/// The table after stream `id` was closed: a known stream is closed and its
/// header block, if open, is given up.
pub open spec fn after_close(m: ManagerView, id: u32) -> ManagerView {
    if m.table.contains_key(id) {
        put(
            m,
            id,
            StreamStatus {
                state: StreamStates::Closed,
                expects_continuation: false,
                ..m.table[id]
            },
        )
    } else {
        m
    }
}

/// The table after stream `id` was retired: a closed stream leaves the
/// table, and counts as idle from then on; its identifier stays used. Any
/// other stream stays.
pub open spec fn after_retire(m: ManagerView, id: u32) -> ManagerView {
    if m.table.contains_key(id) && m.table[id].state == StreamStates::Closed {
        ManagerView {
            table: m.table.remove(id),
            open_block: if m.open_block == id {
                0
            } else {
                m.open_block
            },
            ..m
        }
    } else {
        m
    }
}

/// The table after a HEADERS frame on stream `id`: an idle stream is opened
/// first, then the flags act on its status. Nothing happens while another
/// stream's header block is open, or where the stream cannot be opened.
pub open spec fn after_header(m: ManagerView, receiving: bool, flags: u8, id: u32) -> ManagerView {
    if blocked(m, id) {
        m
    } else {
        let m1 = if status_of(m, id).state == StreamStates::Idle {
            after_open(m, id, receiving)
        } else {
            m
        };
        if m1.table.contains_key(id) {
            put(m1, id, header_step(m1.table[id], receiving, flags))
        } else {
            m1
        }
    }
}

/// The table after a PUSH_PROMISE frame that promises stream `id`: an
/// unknown stream with a valid identifier is registered and reserved.
/// Nothing happens while another stream's header block is open, where the
/// stream is known already, or where its identifier is not valid.
pub open spec fn after_push_promise(
    m: ManagerView,
    receiving: bool,
    flags: u8,
    id: u32,
) -> ManagerView {
    if blocked(m, id) || m.table.contains_key(id) || !valid_open(m, id, receiving) {
        m
    } else {
        put(after_open_idle(m, receiving, id), id, promise_step(idle_status(), receiving, flags))
    }
}

/// The table after a CONTINUATION frame on stream `id`. Nothing happens
/// while another stream's header block is open or where the stream is
/// unknown.
pub open spec fn after_continuation(
    m: ManagerView,
    receiving: bool,
    flags: u8,
    id: u32,
) -> ManagerView {
    if blocked(m, id) || !m.table.contains_key(id) {
        m
    } else {
        put(m, id, continuation_step(m.table[id], receiving, flags))
    }
}

/// The table after a DATA frame on stream `id`. Nothing happens while
/// another stream's header block is open or where the stream is unknown.
pub open spec fn after_data(m: ManagerView, receiving: bool, flags: u8, id: u32) -> ManagerView {
    if blocked(m, id) || !m.table.contains_key(id) {
        m
    } else {
        put(m, id, data_step(m.table[id], receiving, flags))
    }
}

/// What the payload of a PRIORITY frame holds, as the stream depended on,
/// whether exclusively, and the weight from 1 to 256: `None` unless the
/// payload has 5 bytes. The first bit is the exclusive flag, the next 31
/// bits are the stream, and the last byte is the weight less one.
pub open spec fn priority_parts(payload: Seq<u8>) -> Option<(u32, bool, u32)> {
    if payload.len() != 5 {
        None
    } else {
        Some(
            (
                be32(payload[0] & 0x7F, payload[1], payload[2], payload[3]),
                payload[0] & 0x80 != 0,
                (payload[4] as u32 + 1) as u32,
            ),
        )
    }
}

/// The table after stream `id` was given a priority: a known stream has the
/// dependency and the weight on its record, with its state and flags as
/// they were, and the dependency tree and the queue follow the dependency,
/// whether the stream is known to the table or not.
pub open spec fn with_priority(
    m: ManagerView,
    id: u32,
    dep: u32,
    exclusive: bool,
    weight: u32,
) -> ManagerView {
    let m1 = if m.table.contains_key(id) {
        put(
            m,
            id,
            StreamStatus {
                priority: Some(weight),
                dependancy: Some(dep),
                is_exclusive: exclusive,
                ..m.table[id]
            },
        )
    } else {
        m
    };
    ManagerView {
        tree: reprioritized(m.tree, id, dep, exclusive),
        queue: reprioritized_queue(m.tree, m.queue, id, dep),
        ..m1
    }
}

/// The table after a PRIORITY frame on stream `id`. Nothing happens while
/// another stream's header block is open, or where the payload is not that
/// of a PRIORITY frame.
pub open spec fn after_priority(m: ManagerView, id: u32, payload: Seq<u8>) -> ManagerView {
    if blocked(m, id) {
        m
    } else {
        match priority_parts(payload) {
            Some((dep, exclusive, weight)) => with_priority(m, id, dep, exclusive, weight),
            None => m,
        }
    }
}

/// The concurrency limit after a SETTINGS payload: the value of the last
/// MAX_CONCURRENT_STREAMS entry (identifier 3) among its 6-byte entries,
/// `current` where there is none. Bytes behind the last whole entry are not
/// read.
pub open spec fn settings_max_streams(payload: Seq<u8>, current: u32) -> u32
    decreases payload.len(),
{
    if payload.len() < 6 {
        current
    } else {
        settings_max_streams(
            payload.skip(6),
            if payload[0] == 0 && payload[1] == 3 {
                be32(payload[2], payload[3], payload[4], payload[5])
            } else {
                current
            },
        )
    }
}

/// The table after a SETTINGS frame: unless the frame is an acknowledgement
/// (flag 0x1) the concurrency limit follows the payload.
pub open spec fn after_settings(m: ManagerView, flags: u8, payload: Seq<u8>) -> ManagerView {
    if flags & 0x1 != 0 {
        m
    } else {
        ManagerView {
            max_concurrent_streams: settings_max_streams(payload, m.max_concurrent_streams),
            ..m
        }
    }
}

/// Whether a frame of the given kind is admissible on a stream with status
/// `s`, by state and direction.
pub open spec fn admits(
    tolerate_closed: bool,
    s: StreamStatus,
    kind: FrameKind,
    receiving: bool,
) -> bool {
    match s.state {
        StreamStates::Idle => match kind {
            FrameKind::Headers | FrameKind::Priority | FrameKind::PushPromise => true,
            FrameKind::RstStream => !receiving,
            FrameKind::Continuation => s.is_reserved,
            _ => false,
        },
        StreamStates::ReservedLocal => match kind {
            FrameKind::Headers | FrameKind::Continuation => !receiving,
            FrameKind::Priority | FrameKind::RstStream | FrameKind::WindowUpdate => true,
            _ => false,
        },
        StreamStates::ReservedRemote => match kind {
            FrameKind::Headers | FrameKind::Continuation => receiving,
            FrameKind::Priority | FrameKind::RstStream | FrameKind::WindowUpdate => true,
            _ => false,
        },
        StreamStates::Open => is_stream_kind(kind),
        StreamStates::HalfClosedLocal => match kind {
            FrameKind::Data | FrameKind::Headers | FrameKind::WindowUpdate => receiving,
            FrameKind::Priority | FrameKind::RstStream | FrameKind::Continuation => true,
            _ => false,
        },
        StreamStates::HalfClosedRemote => match kind {
            FrameKind::Data | FrameKind::WindowUpdate => !receiving,
            FrameKind::Priority | FrameKind::RstStream | FrameKind::Continuation => true,
            _ => false,
        },
        StreamStates::Closed => match kind {
            FrameKind::Priority => true,
            FrameKind::RstStream => !receiving || tolerate_closed,
            FrameKind::WindowUpdate => receiving && tolerate_closed,
            _ => false,
        },
    }
}

/// Whether frames of this kind belong to a stream and go through the state
/// table.
pub open spec fn is_stream_kind(kind: FrameKind) -> bool {
    match kind {
        FrameKind::Data
        | FrameKind::Headers
        | FrameKind::Priority
        | FrameKind::RstStream
        | FrameKind::PushPromise
        | FrameKind::WindowUpdate
        | FrameKind::Continuation => true,
        _ => false,
    }
}

/// The error that a frame inadmissible in the given state is: STREAM_CLOSED
/// on a stream the peer has closed, PROTOCOL_ERROR otherwise.
pub open spec fn rejection_kind(state: StreamStates) -> ErrorKind {
    if state == StreamStates::Closed || state == StreamStates::HalfClosedRemote {
        ErrorKind::StreamClosed
    } else {
        ErrorKind::ProtocolError
    }
}

/// The verdict on a frame with the given type on stream `id`. In order:
/// no frame may interrupt the header block of another stream, and within a
/// header block only CONTINUATION may follow; connection frames belong to
/// stream 0 and stream frames, but for PRIORITY and WINDOW_UPDATE, do not;
/// HEADERS and PUSH_PROMISE on an unknown stream need a valid identifier,
/// and PUSH_PROMISE needs an unknown stream; CONTINUATION needs an open
/// header block; the state must admit the frame; and HEADERS may open an
/// idle stream only below the concurrency limit.
pub open spec fn verdict(m: ManagerView, receiving: bool, frame_type: u8, id: u32) -> Verdict {
    let kind = kind_of(frame_type);
    let s = status_of(m, id);
    let known = m.table.contains_key(id);
    if blocked(m, id) {
        Verdict::ConnectionError(ErrorKind::ProtocolError)
    } else if s.expects_continuation && kind != FrameKind::Continuation {
        Verdict::ConnectionError(ErrorKind::ProtocolError)
    } else if !is_stream_kind(kind) {
        if kind == FrameKind::Unknown || id == 0 {
            Verdict::Admitted
        } else {
            Verdict::ConnectionError(ErrorKind::ProtocolError)
        }
    } else if id == 0 {
        if kind == FrameKind::Priority || kind == FrameKind::WindowUpdate {
            Verdict::Admitted
        } else {
            Verdict::ConnectionError(ErrorKind::ProtocolError)
        }
    } else if (kind == FrameKind::Headers || kind == FrameKind::PushPromise) && !known
        && !valid_open(m, id, receiving) {
        Verdict::ConnectionError(ErrorKind::ProtocolError)
    } else if kind == FrameKind::PushPromise && known {
        Verdict::ConnectionError(ErrorKind::ProtocolError)
    } else if kind == FrameKind::Continuation && !s.expects_continuation {
        Verdict::ConnectionError(ErrorKind::ProtocolError)
    } else if !admits(m.tolerate_closed, s, kind, receiving) {
        Verdict::StreamError(id, rejection_kind(s.state))
    } else if kind == FrameKind::Headers && s.state == StreamStates::Idle && active_set(
        m.table,
    ).len() >= m.max_concurrent_streams {
        Verdict::StreamError(id, ErrorKind::RefusedStream)
    } else {
        Verdict::Admitted
    }
}

/// What an admitted frame does to the table.
pub open spec fn dispatched(
    m: ManagerView,
    receiving: bool,
    frame_type: u8,
    flags: u8,
    id: u32,
    payload: Seq<u8>,
) -> ManagerView {
    match kind_of(frame_type) {
        FrameKind::Data => after_data(m, receiving, flags, id),
        FrameKind::Headers => after_header(m, receiving, flags, id),
        FrameKind::Priority => after_priority(m, id, payload),
        FrameKind::RstStream => after_close(m, id),
        FrameKind::Settings => after_settings(m, flags, payload),
        FrameKind::PushPromise => after_push_promise(m, receiving, flags, id),
        FrameKind::Continuation => after_continuation(m, receiving, flags, id),
        _ => m,
    }
}

/// The table after a frame was handled: an admitted frame is applied, a
/// stream error closes the stream, a connection error changes nothing.
pub open spec fn after_frame(
    m: ManagerView,
    receiving: bool,
    frame_type: u8,
    flags: u8,
    id: u32,
    payload: Seq<u8>,
) -> ManagerView {
    match verdict(m, receiving, frame_type, id) {
        Verdict::Admitted => dispatched(m, receiving, frame_type, flags, id, payload),
        Verdict::ConnectionError(_) => m,
        Verdict::StreamError(stream, _) => after_close(m, stream),
    }
}

/// Handling a frame keeps the table's invariant.
pub proof fn lemma_after_frame_wf(
    m: ManagerView,
    receiving: bool,
    frame_type: u8,
    flags: u8,
    id: u32,
    payload: Seq<u8>,
)
    requires
        table_wf(m),
    ensures
        table_wf(after_frame(m, receiving, frame_type, flags, id, payload)),
{
    lemma_steps_wf(m, receiving, flags, id);
    lemma_steps_wf(m, receiving, flags, 0);
    lemma_priority_keeps_states(m, id, payload);
}

/// Every single step keeps the table's invariant.
pub proof fn lemma_steps_wf(m: ManagerView, receiving: bool, flags: u8, id: u32)
    requires
        table_wf(m),
    ensures
        table_wf(after_open_idle(m, receiving, id)),
        table_wf(after_open(m, id, receiving)),
        table_wf(after_close(m, id)),
        table_wf(after_retire(m, id)),
        table_wf(after_header(m, receiving, flags, id)),
        table_wf(after_push_promise(m, receiving, flags, id)),
        table_wf(after_continuation(m, receiving, flags, id)),
        table_wf(after_data(m, receiving, flags, id)),
        forall|state: StreamStates| table_wf(#[trigger] with_state(m, id, state)),
{
    let m1 = after_open_idle(m, receiving, id);
    assert(table_wf(m1));
    assert(table_wf(after_open(m, id, receiving)));
    assert(table_wf(after_close(m, id)));
    assert(table_wf(after_header(m, receiving, flags, id)));
    assert(table_wf(after_push_promise(m, receiving, flags, id)));
    assert(table_wf(after_continuation(m, receiving, flags, id)));
    assert(table_wf(after_data(m, receiving, flags, id)));
}

/// A PRIORITY frame changes no stream's state and no flag of the state
/// machine, adds no stream to the table and takes none out, and keeps the
/// table's invariant. Only the priority of stream `id` is on record
/// afterwards.
pub proof fn lemma_priority_keeps_states(m: ManagerView, id: u32, payload: Seq<u8>)
    requires
        table_wf(m),
    ensures
        table_wf(after_priority(m, id, payload)),
        after_priority(m, id, payload).table.dom() =~= m.table.dom(),
        after_priority(m, id, payload).open_block == m.open_block,
        forall|k: u32| #[trigger]
            m.table.contains_key(k) ==> {
                let before = m.table[k];
                let after = after_priority(m, id, payload).table[k];
                &&& after.state == before.state
                &&& after.expects_continuation == before.expects_continuation
                &&& after.should_end == before.should_end
                &&& after.is_reserved == before.is_reserved
                &&& (k != id ==> after == before)
            },
{
}

/// A PRIORITY frame keeps the dependency tree a well-formed forest.
pub proof fn lemma_priority_keeps_forest(m: ManagerView, id: u32, payload: Seq<u8>)
    requires
        forest_wf(m.tree),
    ensures
        forest_wf(after_priority(m, id, payload).tree),
{
    match priority_parts(payload) {
        Some((dep, exclusive, weight)) => {
            lemma_reprioritized_wf(m.tree, id, dep, exclusive);
        },
        None => {},
    }
}

/// A closed stream stays closed, whatever frame is handled, on whatever
/// stream.
pub proof fn lemma_closed_is_final(
    m: ManagerView,
    receiving: bool,
    frame_type: u8,
    flags: u8,
    id: u32,
    payload: Seq<u8>,
    stream: u32,
)
    requires
        m.table.contains_key(stream),
        m.table[stream].state == StreamStates::Closed,
    ensures
        after_frame(m, receiving, frame_type, flags, id, payload).table.contains_key(stream),
        after_frame(m, receiving, frame_type, flags, id, payload).table[stream].state
            == StreamStates::Closed,
        after_open(m, id, receiving).table[stream].state == StreamStates::Closed,
        after_close(m, id).table[stream].state == StreamStates::Closed,
        forall|state: StreamStates| (#[trigger] with_state(m, id, state)).table[stream].state
                == StreamStates::Closed,
{
}

/// Identifiers only grow: handling a frame never lowers the last identifier
/// of either parity, and a stream that the frame adds to the table has an
/// identifier above every earlier one of its parity, which is the last one
/// from then on.
pub proof fn lemma_identifiers_grow(
    m: ManagerView,
    receiving: bool,
    frame_type: u8,
    flags: u8,
    id: u32,
    payload: Seq<u8>,
)
    requires
        table_wf(m),
    ensures
        ({
            let n = after_frame(m, receiving, frame_type, flags, id, payload);
            &&& n.last_client_id >= m.last_client_id
            &&& n.last_server_id >= m.last_server_id
            &&& forall|k: u32| #[trigger]
                n.table.contains_key(k) && !m.table.contains_key(k) ==> {
                    &&& k == id
                    &&& (k % 2 == 1 ==> k > m.last_client_id && n.last_client_id == k)
                    &&& (k % 2 == 0 ==> k > m.last_server_id && n.last_server_id == k)
                }
            &&& forall|k: u32| m.table.contains_key(k) ==> n.table.contains_key(k)
        }),
{
}

/// While a stream's header block is open, no frame but CONTINUATION is
/// admitted on it, and no frame at all on any other stream.
pub proof fn lemma_open_block_admits_continuation_only(
    m: ManagerView,
    receiving: bool,
    frame_type: u8,
    id: u32,
    stream: u32,
)
    requires
        table_wf(m),
        m.table.contains_key(stream),
        m.table[stream].expects_continuation,
        verdict(m, receiving, frame_type, id) == Verdict::Admitted,
    ensures
        id == stream,
        kind_of(frame_type) == FrameKind::Continuation,
{
}

/// Whether every idle stream in the table is a promised stream whose header
/// block is still open: the only idle streams that frames put there.
pub open spec fn idle_means_reserved(m: ManagerView) -> bool {
    forall|k: u32| #[trigger]
        m.table.contains_key(k) && m.table[k].state == StreamStates::Idle
            ==> m.table[k].is_reserved
}

/// Frames put no idle stream into the table but a promised one: where every
/// idle stream in the table is reserved, the same holds after any frame.
pub proof fn lemma_frames_keep_idle_reserved(
    m: ManagerView,
    receiving: bool,
    frame_type: u8,
    flags: u8,
    id: u32,
    payload: Seq<u8>,
)
    requires
        idle_means_reserved(m),
    ensures
        idle_means_reserved(after_frame(m, receiving, frame_type, flags, id, payload)),
{
    let n = after_frame(m, receiving, frame_type, flags, id, payload);
    assert forall|k: u32| #[trigger]
        n.table.contains_key(k) && n.table[k].state == StreamStates::Idle
        implies n.table[k].is_reserved by {
        if k != id {
            assert(m.table.contains_key(k));
        }
    }
}

/// A retired stream cannot be opened again: no HEADERS or PUSH_PROMISE frame
/// on its identifier is admitted.
pub proof fn lemma_retired_stays_out(m: ManagerView, receiving: bool, frame_type: u8, id: u32)
    requires
        table_wf(m),
        m.table.contains_key(id),
        m.table[id].state == StreamStates::Closed,
        kind_of(frame_type) == FrameKind::Headers || kind_of(frame_type) == FrameKind::PushPromise,
    ensures
        verdict(after_retire(m, id), receiving, frame_type, id) != Verdict::Admitted,
{
}

/// An END_STREAM that waits for the end of a header block closes the
/// stream as soon as a CONTINUATION frame with END_HEADERS ends the block,
/// whatever state the stream is in, and ends the wait for CONTINUATION.
pub proof fn lemma_pending_end_closes(s: StreamStatus, receiving: bool, flags: u8)
    requires
        s.should_end,
        has_flag(flags, Flags::EndHeaders),
    ensures
        continuation_step(s, receiving, flags).state == StreamStates::Closed,
        !continuation_step(s, receiving, flags).expects_continuation,
{
}

/// A CONTINUATION frame is admitted only on a stream whose header block is
/// open.
pub proof fn lemma_continuation_needs_open_block(
    m: ManagerView,
    receiving: bool,
    frame_type: u8,
    id: u32,
)
    requires
        kind_of(frame_type) == FrameKind::Continuation,
        verdict(m, receiving, frame_type, id) == Verdict::Admitted,
    ensures
        m.table.contains_key(id),
        m.table[id].expects_continuation,
{
}

} // verus!
