//! The state of one stream and the frame flags that drive it.

use vstd::prelude::*;

verus! {

/// The states of a stream.
#[derive(Hash, Eq, PartialEq, Debug, Clone, Copy, Structural)]
pub enum StreamStates {
    Idle,
    Open,
    Closed,
    ReservedLocal,
    ReservedRemote,
    HalfClosedLocal,
    HalfClosedRemote,
}

/// The frame header flags that the stream state machine reads.
#[derive(Debug, Clone, Copy)]
pub enum Flags {
    /// END_STREAM, bit 0x1.
    EndStream,
    /// END_HEADERS, bit 0x4.
    EndHeaders,
    /// PADDED, bit 0x8.
    Padded,
    /// PRIORITY, bit 0x20.
    Priority,
}

impl Flags {
    /// The bit of the flag in the flags octet.
    pub open spec fn mask(self) -> u8 {
        match self {
            Flags::EndStream => 0x1,
            Flags::EndHeaders => 0x4,
            Flags::Padded => 0x8,
            Flags::Priority => 0x20,
        }
    }

    /// The bit of the flag in the flags octet.
    pub fn bitmask(self) -> (m: u8)
        ensures
            m == self.mask(),
    {
        match self {
            Flags::EndStream => 0x1,
            Flags::EndHeaders => 0x4,
            Flags::Padded => 0x8,
            Flags::Priority => 0x20,
        }
    }

    /// Whether the flag is set in the given flags octet.
    pub fn is_set(self, flags: u8) -> (r: bool)
        ensures
            r == has_flag(flags, self),
    {
        (flags & self.bitmask()) != 0
    }
}

/// Whether `flag` is set in the flags octet `flags`.
pub open spec fn has_flag(flags: u8, flag: Flags) -> bool {
    (flags & flag.mask()) != 0
}

/// The record kept for one stream.
#[derive(Hash, Eq, PartialEq, Debug, Clone, Copy)]
pub struct StreamStatus {
    /// The state of the stream.
    pub state: StreamStates,
    /// The weight of the stream, where one was given.
    pub priority: Option<u32>,
    /// The stream this one depends on, where one was given.
    pub dependancy: Option<u32>,
    /// Whether the dependency is exclusive.
    pub is_exclusive: bool,
    /// A header block is open: only CONTINUATION may follow.
    pub expects_continuation: bool,
    /// END_STREAM was seen inside a header block that is still open.
    pub should_end: bool,
    /// The stream was promised and its header block is still open.
    pub is_reserved: bool,
}

/// The status of a stream of which nothing is known yet.
pub open spec fn idle_status() -> StreamStatus {
    StreamStatus {
        state: StreamStates::Idle,
        priority: None,
        dependancy: None,
        is_exclusive: false,
        expects_continuation: false,
        should_end: false,
        is_reserved: false,
    }
}

/// The status after a HEADERS frame with the given flags. END_HEADERS
/// activates a reserved stream in the matching direction and closes the
/// header block; without it the block stays open. END_STREAM is noted, half
/// closes an open stream, and closes a half-closed stream whose header block
/// is complete.
pub open spec fn header_step(s: StreamStatus, receiving: bool, flags: u8) -> StreamStatus {
    let mid = if has_flag(flags, Flags::EndHeaders) {
        StreamStatus {
            state: if s.state == StreamStates::ReservedLocal && !receiving {
                StreamStates::HalfClosedRemote
            } else if s.state == StreamStates::ReservedRemote && receiving {
                StreamStates::HalfClosedLocal
            } else {
                s.state
            },
            expects_continuation: false,
            ..s
        }
    } else {
        StreamStatus { expects_continuation: true, ..s }
    };
    if has_flag(flags, Flags::EndStream) {
        StreamStatus {
            should_end: true,
            state: if mid.state == StreamStates::Open {
                if receiving {
                    StreamStates::HalfClosedRemote
                } else {
                    StreamStates::HalfClosedLocal
                }
            } else if (mid.state == StreamStates::HalfClosedRemote || mid.state
                == StreamStates::HalfClosedLocal) && !mid.expects_continuation {
                StreamStates::Closed
            } else {
                mid.state
            },
            ..mid
        }
    } else {
        mid
    }
}

/// The status of a newly promised stream after its PUSH_PROMISE frame: with
/// END_HEADERS it is reserved at once, without it the header block is open
/// and the stream stays idle.
pub open spec fn promise_step(s: StreamStatus, receiving: bool, flags: u8) -> StreamStatus {
    if has_flag(flags, Flags::EndHeaders) {
        StreamStatus {
            is_reserved: true,
            state: if receiving {
                StreamStates::ReservedRemote
            } else {
                StreamStates::ReservedLocal
            },
            expects_continuation: false,
            ..s
        }
    } else {
        StreamStatus { is_reserved: true, expects_continuation: true, ..s }
    }
}

/// The status after a CONTINUATION frame. Only END_HEADERS acts: it closes
/// the header block, reserves a promised stream or activates a reserved one
/// in the matching direction, and closes the stream where END_STREAM was
/// pending.
pub open spec fn continuation_step(s: StreamStatus, receiving: bool, flags: u8) -> StreamStatus {
    if !has_flag(flags, Flags::EndHeaders) {
        s
    } else {
        let mid = if s.state == StreamStates::Idle && s.is_reserved {
            StreamStatus {
                state: if receiving {
                    StreamStates::ReservedRemote
                } else {
                    StreamStates::ReservedLocal
                },
                is_reserved: false,
                expects_continuation: false,
                ..s
            }
        } else if s.state == StreamStates::ReservedLocal && !receiving {
            StreamStatus {
                state: StreamStates::HalfClosedRemote,
                expects_continuation: false,
                ..s
            }
        } else if s.state == StreamStates::ReservedRemote && receiving {
            StreamStatus { state: StreamStates::HalfClosedLocal, expects_continuation: false, ..s }
        } else {
            StreamStatus { expects_continuation: false, ..s }
        };
        if mid.should_end {
            StreamStatus { state: StreamStates::Closed, ..mid }
        } else {
            mid
        }
    }
}

/// The status after a DATA frame. Only END_STREAM acts: it half closes an
/// open stream on the side that ended, and closes a stream that was half
/// closed on the other side already.
pub open spec fn data_step(s: StreamStatus, receiving: bool, flags: u8) -> StreamStatus {
    if !has_flag(flags, Flags::EndStream) {
        s
    } else {
        StreamStatus {
            state: if s.state == StreamStates::Open {
                if receiving {
                    StreamStates::HalfClosedRemote
                } else {
                    StreamStates::HalfClosedLocal
                }
            } else if s.state == StreamStates::HalfClosedLocal && receiving {
                StreamStates::Closed
            } else if s.state == StreamStates::HalfClosedRemote && !receiving {
                StreamStates::Closed
            } else {
                s.state
            },
            ..s
        }
    }
}

impl StreamStatus {
    /// The status of a stream of which nothing is known yet: idle, no
    /// priority, no flags.
    pub fn new() -> (s: StreamStatus)
        ensures
            s == idle_status(),
    {
        StreamStatus {
            state: StreamStates::Idle,
            priority: None,
            dependancy: None,
            is_exclusive: false,
            expects_continuation: false,
            should_end: false,
            is_reserved: false,
        }
    }

    /// Sets the state.
    pub fn set_state(&mut self, state: StreamStates)
        ensures
            *final(self) == (StreamStatus { state: state, ..*old(self) }),
    {
        self.state = state;
    }

    /// Sets the weight.
    pub fn set_priority(&mut self, priority: Option<u32>)
        ensures
            *final(self) == (StreamStatus { priority: priority, ..*old(self) }),
    {
        self.priority = priority;
    }

    /// Sets the stream this one depends on, and whether exclusively.
    pub fn set_dependancy(&mut self, dependancy: Option<u32>, is_exclusive: bool)
        ensures
            *final(self) == (StreamStatus {
                dependancy: dependancy,
                is_exclusive: is_exclusive,
                ..*old(self)
            }),
    {
        self.dependancy = dependancy;
        self.is_exclusive = is_exclusive;
    }

    /// Clears the dependency.
    pub fn remove_dependancies(&mut self)
        ensures
            *final(self) == (StreamStatus { dependancy: None, is_exclusive: false, ..*old(self) }),
    {
        self.dependancy = None;
        self.is_exclusive = false;
    }

    /// Sets whether a header block is open.
    pub fn set_continue(&mut self, expects_continuation: bool)
        ensures
            *final(self) == (StreamStatus {
                expects_continuation: expects_continuation,
                ..*old(self)
            }),
    {
        self.expects_continuation = expects_continuation;
    }

    /// Sets whether END_STREAM is pending.
    pub fn set_end(&mut self, should_end: bool)
        ensures
            *final(self) == (StreamStatus { should_end: should_end, ..*old(self) }),
    {
        self.should_end = should_end;
    }

    /// Sets whether the stream is a promised one whose header block is open.
    pub fn set_reserved(&mut self, reserved: bool)
        ensures
            *final(self) == (StreamStatus { is_reserved: reserved, ..*old(self) }),
    {
        self.is_reserved = reserved;
    }

    /// The status after a HEADERS frame with the given flags.
    pub fn after_headers(self, receiving: bool, flags: u8) -> (r: StreamStatus)
        ensures
            r == header_step(self, receiving, flags),
    {
        let mut status = self;
        if Flags::EndHeaders.is_set(flags) {
            match status.state {
                StreamStates::ReservedLocal => {
                    if !receiving {
                        status.set_state(StreamStates::HalfClosedRemote);
                    }
                },
                StreamStates::ReservedRemote => {
                    if receiving {
                        status.set_state(StreamStates::HalfClosedLocal);
                    }
                },
                _ => {},
            }
            status.set_continue(false);
        } else {
            status.set_continue(true);
        }
        if Flags::EndStream.is_set(flags) {
            status.set_end(true);
            match status.state {
                StreamStates::Open => {
                    if receiving {
                        status.set_state(StreamStates::HalfClosedRemote);
                    } else {
                        status.set_state(StreamStates::HalfClosedLocal);
                    }
                },
                StreamStates::HalfClosedRemote | StreamStates::HalfClosedLocal => {
                    if !status.expects_continuation {
                        status.set_state(StreamStates::Closed);
                    }
                },
                _ => {},
            }
        }
        status
    }

    /// The status of a newly promised stream after its PUSH_PROMISE frame.
    pub fn after_push_promise(self, receiving: bool, flags: u8) -> (r: StreamStatus)
        ensures
            r == promise_step(self, receiving, flags),
    {
        let mut status = self;
        status.set_reserved(true);
        if Flags::EndHeaders.is_set(flags) {
            if receiving {
                status.set_state(StreamStates::ReservedRemote);
            } else {
                status.set_state(StreamStates::ReservedLocal);
            }
            status.set_continue(false);
        } else {
            status.set_continue(true);
        }
        status
    }

    /// The status after a CONTINUATION frame with the given flags.
    pub fn after_continuation(self, receiving: bool, flags: u8) -> (r: StreamStatus)
        ensures
            r == continuation_step(self, receiving, flags),
    {
        let mut status = self;
        if Flags::EndHeaders.is_set(flags) {
            status.set_continue(false);
            match status.state {
                StreamStates::Idle => {
                    if status.is_reserved {
                        if receiving {
                            status.set_state(StreamStates::ReservedRemote);
                        } else {
                            status.set_state(StreamStates::ReservedLocal);
                        }
                        status.set_reserved(false);
                    }
                },
                StreamStates::ReservedLocal => {
                    if !receiving {
                        status.set_state(StreamStates::HalfClosedRemote);
                    }
                },
                StreamStates::ReservedRemote => {
                    if receiving {
                        status.set_state(StreamStates::HalfClosedLocal);
                    }
                },
                _ => {},
            }
            if status.should_end {
                status.set_state(StreamStates::Closed);
            }
        }
        status
    }

    /// The status after a DATA frame with the given flags.
    pub fn after_data(self, receiving: bool, flags: u8) -> (r: StreamStatus)
        ensures
            r == data_step(self, receiving, flags),
    {
        let mut status = self;
        if Flags::EndStream.is_set(flags) {
            match status.state {
                StreamStates::Open => {
                    if receiving {
                        status.set_state(StreamStates::HalfClosedRemote);
                    } else {
                        status.set_state(StreamStates::HalfClosedLocal);
                    }
                },
                StreamStates::HalfClosedLocal => {
                    if receiving {
                        status.set_state(StreamStates::Closed);
                    }
                },
                StreamStates::HalfClosedRemote => {
                    if !receiving {
                        status.set_state(StreamStates::Closed);
                    }
                },
                _ => {},
            }
        }
        status
    }
}

} // verus!
