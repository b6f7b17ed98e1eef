//! The stream table of one connection: it assigns and checks stream
//! identifiers, judges every frame before it is parsed any further, moves
//! the streams through their states, and has the dependency tree follow the
//! PRIORITY frames.

use crate::flow::forest::forest_wf;
use crate::flow::handlers;
use crate::flow::prioritymanager::PriorityManager;
use crate::flow::status::{StreamStates, StreamStatus};
use crate::flow::streamstate::{
    active_set, after_close, after_continuation, after_data, after_frame, after_header, after_open,
    after_open_idle, after_priority, after_push_promise, after_retire, after_settings, blocked,
    lemma_steps_wf, put, settings_max_streams, table_wf, valid_open, verdict, with_priority,
    with_state, FrameKind, ManagerView, Verdict,
};
use crate::flow::utils;
use crate::frame::frames::RawFrame;
use std::collections::HashMap;
use vstd::prelude::*;
use vstd::set_lib::{lemma_len_subset, lemma_set_subset_finite};

verus! {

broadcast use vstd::std_specs::hash::group_hash_axioms;

/// The stream table with the identifier counters and the settings of the
/// connection, and the dependency tree of its streams.
#[derive(Debug)]
pub struct StreamManager {
    last_server_id: u32,
    last_client_id: u32,
    max_concurrent_streams: u32,
    streams: HashMap<u32, StreamStatus>,
    is_server: bool,
    open_block: u32,
    tolerate_closed: bool,
    active: usize,
    priorities: PriorityManager,
}

impl View for StreamManager {
    type V = ManagerView;

    closed spec fn view(&self) -> ManagerView {
        ManagerView {
            table: self.streams@,
            last_server_id: self.last_server_id,
            last_client_id: self.last_client_id,
            max_concurrent_streams: self.max_concurrent_streams,
            is_server: self.is_server,
            open_block: self.open_block,
            tolerate_closed: self.tolerate_closed,
            tree: self.priorities.tree(),
            queue: self.priorities.queue(),
        }
    }
}

impl StreamManager {
    /// The invariant of the manager: the table's invariant holds, the count
    /// of active streams is right, and the dependency tree is well formed.
    pub closed spec fn wf(&self) -> bool {
        &&& table_wf(self@)
        &&& self.active == active_set(self@.table).len()
        &&& self.priorities.wf()
    }

    /// The invariant of the manager implies the invariant of its view.
    pub proof fn lemma_wf(&self)
        requires
            self.wf(),
        ensures
            table_wf(self@),
            forest_wf(self@.tree),
    {
    }

    /// A manager without streams, for a server or a client, with the given
    /// concurrency limit and an empty dependency tree. Frames that arrive
    /// late on closed streams are tolerated until told otherwise.
    pub fn new(max_streams: u32, is_server: bool) -> (sm: StreamManager)
        ensures
            sm.wf(),
            sm@ == (ManagerView {
                table: Map::empty(),
                last_server_id: 0,
                last_client_id: 0,
                max_concurrent_streams: max_streams,
                is_server: is_server,
                open_block: 0,
                tolerate_closed: true,
                tree: Map::empty(),
                queue: Seq::empty(),
            }),
    {
        let sm = StreamManager {
            last_client_id: 0,
            last_server_id: 0,
            max_concurrent_streams: max_streams,
            streams: HashMap::new(),
            is_server: is_server,
            open_block: 0,
            tolerate_closed: true,
            active: 0,
            priorities: PriorityManager::new(),
        };
        assert(active_set(sm@.table) =~= Set::<u32>::empty());
        assert(sm@.table =~= Map::<u32, StreamStatus>::empty());
        sm
    }

    /// Says whether WINDOW_UPDATE and RST_STREAM frames received on closed
    /// streams are still to be ignored. The connection switches this off
    /// when the time it grants such frames is over.
    pub fn set_closed_tolerance(&mut self, tolerate: bool)
        requires
            old(self).wf(),
        ensures
            final(self).wf(),
            final(self)@ == (ManagerView { tolerate_closed: tolerate, ..old(self)@ }),
    {
        self.tolerate_closed = tolerate;
    }

    /// The highest even identifier opened so far.
    pub fn last_server_id(&self) -> (id: u32)
        ensures
            id == self@.last_server_id,
    {
        self.last_server_id
    }

    /// The highest odd identifier opened so far.
    pub fn last_client_id(&self) -> (id: u32)
        ensures
            id == self@.last_client_id,
    {
        self.last_client_id
    }

    /// The number of streams that may be active at once.
    pub fn max_concurrent_streams(&self) -> (n: u32)
        ensures
            n == self@.max_concurrent_streams,
    {
        self.max_concurrent_streams
    }

    /// The number of streams that are open or half closed.
    pub fn active_streams(&self) -> (n: usize)
        requires
            self.wf(),
        ensures
            n == active_set(self@.table).len(),
    {
        self.active
    }

    /// Whether this endpoint is the server.
    pub fn is_server(&self) -> (r: bool)
        ensures
            r == self@.is_server,
    {
        self.is_server
    }

    /// Whether frames received late on closed streams are tolerated.
    pub fn tolerates_closed(&self) -> (r: bool)
        ensures
            r == self@.tolerate_closed,
    {
        self.tolerate_closed
    }

    /// Whether the header block of a stream other than `stream_id` is open.
    pub fn is_blocked(&self, stream_id: u32) -> (r: bool)
        ensures
            r == blocked(self@, stream_id),
    {
        self.open_block != 0 && self.open_block != stream_id
    }

    /// The status of a stream; `None` where no frame has referred to it yet.
    pub fn get_stream_status(&self, stream_id: &u32) -> (r: Option<StreamStatus>)
        ensures
            r == (if self@.table.contains_key(*stream_id) {
                Some(self@.table[*stream_id])
            } else {
                None
            }),
    {
        match self.streams.get(stream_id) {
            Some(status) => Some(*status),
            None => None,
        }
    }

    /// Writes the status of a known stream, and keeps track of the open
    /// header block and of the number of active streams.
    pub(crate) fn store(&mut self, stream_id: u32, status: StreamStatus)
        requires
            old(self).wf(),
            old(self)@.table.contains_key(stream_id),
            status.expects_continuation ==> !blocked(old(self)@, stream_id),
        ensures
            final(self).wf(),
            final(self)@ == put(old(self)@, stream_id, status),
    {
        let ghost before = self@.table;
        let was_active = match self.streams.get(&stream_id) {
            Some(s) => s.state == StreamStates::Open || s.state == StreamStates::HalfClosedLocal
                || s.state == StreamStates::HalfClosedRemote,
            None => false,
        };
        let now_active = status.state == StreamStates::Open || status.state
            == StreamStates::HalfClosedLocal || status.state == StreamStates::HalfClosedRemote;
        self.streams.insert(stream_id, status);
        if status.expects_continuation {
            self.open_block = stream_id;
        } else if self.open_block == stream_id {
            self.open_block = 0;
        }
        proof {
            let after = self@.table;
            lemma_set_subset_finite(before.dom(), active_set(before));
            lemma_set_subset_finite(after.dom(), active_set(after));
            lemma_len_subset(active_set(after), after.dom());
            if now_active {
                assert(active_set(after) =~= active_set(before).insert(stream_id));
            } else {
                assert(active_set(after) =~= active_set(before).remove(stream_id));
            }
            assert(active_set(before).contains(stream_id) == was_active);
            assert(self.streams.len() == after.dom().len());
        }
        if was_active && !now_active {
            self.active = self.active - 1;
        } else if !was_active && now_active {
            self.active = self.active + 1;
        }
    }

    /// Sets the state of a stream. An unknown stream is left unknown, and a
    /// closed stream stays closed.
    pub fn set_state(&mut self, stream_id: &u32, state: StreamStates)
        requires
            old(self).wf(),
        ensures
            final(self).wf(),
            final(self)@ == with_state(old(self)@, *stream_id, state),
    {
        match self.get_stream_status(stream_id) {
            Some(status) => {
                if status.state != StreamStates::Closed {
                    let mut next = status;
                    next.set_state(state);
                    self.store(*stream_id, next);
                    assert(self@.table =~= with_state(old(self)@, *stream_id, state).table);
                }
            },
            None => {},
        }
    }

    /// Whether the direction of a frame and the local role allow it to open
    /// stream `stream_id`: clients open odd streams, servers even ones, and
    /// identifiers only grow.
    pub fn check_valid_open_request(&self, stream_id: u32, receiving: bool) -> (r: bool)
        ensures
            r == valid_open(self@, stream_id, receiving),
    {
        if receiving == self.is_server {
            stream_id > self.last_client_id && stream_id % 2 == 1
        } else {
            stream_id > self.last_server_id && stream_id % 2 == 0
        }
    }

    /// Registers a stream as idle, where its identifier may be opened.
    pub fn open_idle(&mut self, receiving: bool, stream_id: u32)
        requires
            old(self).wf(),
        ensures
            final(self).wf(),
            final(self)@ == after_open_idle(old(self)@, receiving, stream_id),
    {
        if self.check_valid_open_request(stream_id, receiving) {
            let ghost before = self@.table;
            self.streams.insert(stream_id, StreamStatus::new());
            if stream_id % 2 == 0 {
                self.last_server_id = stream_id;
            } else {
                self.last_client_id = stream_id;
            }
            proof {
                assert(!before.contains_key(stream_id));
                assert(active_set(self@.table) =~= active_set(before));
                lemma_steps_wf(old(self)@, receiving, 0, stream_id);
            }
        }
    }

    /// Opens a stream: an unknown stream is registered where its identifier
    /// is valid, and an idle stream becomes open. A stream in any other
    /// state is left as it is.
    pub fn open(&mut self, stream_id: u32, receiving: bool)
        requires
            old(self).wf(),
        ensures
            final(self).wf(),
            final(self)@ == after_open(old(self)@, stream_id, receiving),
    {
        if self.get_stream_status(&stream_id).is_none() {
            self.open_idle(receiving, stream_id);
        }
        match self.get_stream_status(&stream_id) {
            Some(status) => {
                if status.state == StreamStates::Idle {
                    self.set_state(&stream_id, StreamStates::Open);
                }
            },
            None => {},
        }
    }

    /// Closes a stream: a known stream becomes closed, and its header block,
    /// if open, is given up.
    pub fn close(&mut self, stream_id: u32)
        requires
            old(self).wf(),
        ensures
            final(self).wf(),
            final(self)@ == after_close(old(self)@, stream_id),
    {
        match self.get_stream_status(&stream_id) {
            Some(status) => {
                let mut next = status;
                next.set_state(StreamStates::Closed);
                next.set_continue(false);
                self.store(stream_id, next);
            },
            None => {},
        }
    }

    /// Takes a closed stream out of the table and says whether it did. A
    /// stream that is unknown or not closed stays.
    pub fn retire(&mut self, stream_id: u32) -> (removed: bool)
        requires
            old(self).wf(),
        ensures
            final(self).wf(),
            final(self)@ == after_retire(old(self)@, stream_id),
            removed == (old(self)@.table.contains_key(stream_id)
                && old(self)@.table[stream_id].state == StreamStates::Closed),
    {
        match self.get_stream_status(&stream_id) {
            Some(status) => {
                if status.state == StreamStates::Closed {
                    let ghost before = self@.table;
                    self.streams.remove(&stream_id);
                    if self.open_block == stream_id {
                        self.open_block = 0;
                    }
                    proof {
                        assert(active_set(self@.table) =~= active_set(before));
                        lemma_steps_wf(old(self)@, true, 0, stream_id);
                    }
                    true
                } else {
                    false
                }
            },
            None => false,
        }
    }

    /// Gives a stream the priority that a frame names: a known stream gets
    /// the dependency and the weight on its record, and the dependency tree
    /// follows the dependency.
    pub(crate) fn record_priority(
        &mut self,
        stream_id: u32,
        parent_id: u32,
        exclusive: bool,
        weight: u32,
    )
        requires
            old(self).wf(),
            !blocked(old(self)@, stream_id),
        ensures
            final(self).wf(),
            final(self)@ == with_priority(old(self)@, stream_id, parent_id, exclusive, weight),
    {
        match self.get_stream_status(&stream_id) {
            Some(status) => {
                let mut next = status;
                next.set_priority(Some(weight));
                next.set_dependancy(Some(parent_id), exclusive);
                self.store(stream_id, next);
            },
            None => {},
        }
        self.priorities.reprioritize(stream_id, parent_id, exclusive);
    }

    /// The dependency tree and the queue, for reading.
    pub fn priorities(&self) -> (pm: &PriorityManager)
        requires
            self.wf(),
        ensures
            pm.wf(),
            pm.tree() == self@.tree,
            pm.queue() == self@.queue,
    {
        &self.priorities
    }

    /// The dependency tree and the queue, for the scheduler and the
    /// connection to work on: to take the next stream, to queue a stream
    /// again, to retire one. The stream table stays as it is, and the
    /// manager is well formed again once the tree is.
    pub fn priorities_mut(&mut self) -> (pm: &mut PriorityManager)
        requires
            old(self).wf(),
        ensures
            pm.wf(),
            pm.tree() == old(self)@.tree,
            pm.queue() == old(self)@.queue,
            final(self)@ == (ManagerView {
                tree: final(pm).tree(),
                queue: final(pm).queue(),
                ..old(self)@
            }),
            final(pm).wf() ==> final(self).wf(),
    {
        &mut self.priorities
    }

    /// Reads a SETTINGS payload for the concurrency limit. Nothing happens
    /// where the frame is an acknowledgement.
    pub fn handle_settings(&mut self, frame: &RawFrame)
        requires
            old(self).wf(),
        ensures
            final(self).wf(),
            final(self)@ == after_settings(old(self)@, frame.header.2, frame.payload@),
    {
        if frame.header.2 & 0x1 != 0 {
            return ;
        }
        let payload = &frame.payload;
        let mut limit: u32 = self.max_concurrent_streams;
        let mut i: usize = 0;
        assert(payload@.skip(0) =~= payload@);
        while payload.len() - i >= 6
            invariant
                0 <= i <= payload.len(),
                settings_max_streams(payload@, old(self)@.max_concurrent_streams)
                    == settings_max_streams(payload@.skip(i as int), limit),
            decreases payload.len() - i,
        {
            let ghost rest = payload@.skip(i as int);
            proof {
                assert(rest.skip(6) =~= payload@.skip(i + 6));
            }
            if payload[i] == 0 && payload[i + 1] == 3 {
                limit = utils::unpack_u32(
                    payload[i + 2],
                    payload[i + 3],
                    payload[i + 4],
                    payload[i + 5],
                );
            }
            i = i + 6;
        }
        self.max_concurrent_streams = limit;
    }

    /// Handles a HEADERS frame; see the handler of the same name.
    pub fn handle_header(&mut self, receiving: bool, frame: &RawFrame)
        requires
            old(self).wf(),
        ensures
            final(self).wf(),
            final(self)@ == after_header(old(self)@, receiving, frame.header.2, frame.header.3),
    {
        handlers::handle_header(self, receiving, frame)
    }

    /// Handles a PUSH_PROMISE frame; see the handler of the same name.
    pub fn handle_push_promise(&mut self, receiving: bool, frame: &RawFrame)
        requires
            old(self).wf(),
        ensures
            final(self).wf(),
            final(self)@ == after_push_promise(
                old(self)@,
                receiving,
                frame.header.2,
                frame.header.3,
            ),
    {
        handlers::handle_push_promise(self, receiving, frame)
    }

    /// Handles a CONTINUATION frame; see the handler of the same name.
    pub fn handle_continuation(&mut self, receiving: bool, frame: &RawFrame)
        requires
            old(self).wf(),
        ensures
            final(self).wf(),
            final(self)@ == after_continuation(
                old(self)@,
                receiving,
                frame.header.2,
                frame.header.3,
            ),
    {
        handlers::handle_continuation(self, receiving, frame)
    }

    /// Handles a DATA frame; see the handler of the same name.
    pub fn handle_data(&mut self, receiving: bool, frame: &RawFrame)
        requires
            old(self).wf(),
        ensures
            final(self).wf(),
            final(self)@ == after_data(old(self)@, receiving, frame.header.2, frame.header.3),
    {
        handlers::handle_data(self, receiving, frame)
    }

    /// Handles a PRIORITY frame; see the handler of the same name.
    pub fn handle_priority(&mut self, receiving: bool, frame: &RawFrame)
        requires
            old(self).wf(),
        ensures
            final(self).wf(),
            final(self)@ == after_priority(old(self)@, frame.header.3, frame.payload@),
    {
        handlers::handle_priority(self, receiving, frame)
    }

    /// Handles a WINDOW_UPDATE frame; see the handler of the same name.
    pub fn handle_window_update(&mut self, receiving: bool, frame: &RawFrame)
        requires
            old(self).wf(),
        ensures
            final(self).wf(),
            final(self)@ == old(self)@,
    {
        handlers::handle_window_update(self, receiving, frame)
    }

    /// Handles a RST_STREAM frame; see the handler of the same name.
    pub fn handle_rst_stream(&mut self, receiving: bool, frame: &RawFrame)
        requires
            old(self).wf(),
        ensures
            final(self).wf(),
            final(self)@ == after_close(old(self)@, frame.header.3),
    {
        handlers::handle_rst_stream(self, receiving, frame)
    }

    /// Judges a frame against the state of its stream and, where it is
    /// admitted, applies it. A stream error closes the stream; a connection
    /// error leaves the table as it is.
    pub fn handle_frame(&mut self, receiving: bool, frame: &RawFrame) -> (v: Verdict)
        requires
            old(self).wf(),
        ensures
            final(self).wf(),
            v == verdict(old(self)@, receiving, frame.header.1, frame.header.3),
            final(self)@ == after_frame(
                old(self)@,
                receiving,
                frame.header.1,
                frame.header.2,
                frame.header.3,
                frame.payload@,
            ),
            forall|k: u32|
                old(self)@.table.contains_key(k) && old(self)@.table[k].state
                    == StreamStates::Closed ==> #[trigger] final(self)@.table.contains_key(k)
                    && final(self)@.table[k].state == StreamStates::Closed,
            final(self)@.last_client_id >= old(self)@.last_client_id,
            final(self)@.last_server_id >= old(self)@.last_server_id,
    {
        let v = utils::frame_verdict(self, frame, receiving);
        match v {
            Verdict::Admitted => {
                match FrameKind::from_type(frame.header.1) {
                    FrameKind::Data => {
                        handlers::handle_data(self, receiving, frame);
                    },
                    FrameKind::Headers => {
                        handlers::handle_header(self, receiving, frame);
                    },
                    FrameKind::Priority => {
                        handlers::handle_priority(self, receiving, frame);
                    },
                    FrameKind::RstStream => {
                        handlers::handle_rst_stream(self, receiving, frame);
                    },
                    FrameKind::Settings => {
                        self.handle_settings(frame);
                    },
                    FrameKind::PushPromise => {
                        handlers::handle_push_promise(self, receiving, frame);
                    },
                    FrameKind::WindowUpdate => {
                        handlers::handle_window_update(self, receiving, frame);
                    },
                    FrameKind::Continuation => {
                        handlers::handle_continuation(self, receiving, frame);
                    },
                    _ => {},
                }
            },
            Verdict::ConnectionError(_) => {},
            Verdict::StreamError(stream, _) => {
                self.close(stream);
            },
        }
        v
    }
}

} // verus!
