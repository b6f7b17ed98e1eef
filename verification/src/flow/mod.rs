//! Stream states, the stream table and the dependency tree of one connection.
//!
//! A stream is an independent, bidirectional sequence of frames within one
//! connection. Each stream walks through the states below; `send` and `recv`
//! say whether the endpoint sends or receives the frame, H is a HEADERS frame
//! with its CONTINUATION frames, PP a PUSH_PROMISE frame with its
//! CONTINUATION frames, ES the END_STREAM flag and R a RST_STREAM frame:
//!
//! ```text
//!                          +--------+
//!                  send PP |        | recv PP
//!                 ,--------|  idle  |--------.
//!                /         |        |         \
//!               v          +--------+          v
//!        +----------+          |           +----------+
//!        |          |          | send H /  |          |
//! ,------| reserved |          | recv H    | reserved |------.
//! |      | (local)  |          |           | (remote) |      |
//! |      +----------+          v           +----------+      |
//! |          |             +--------+             |          |
//! |          |     recv ES |        | send ES     |          |
//! |   send H |     ,-------|  open  |-------.     | recv H   |
//! |          |    /        |        |        \    |          |
//! |          v   v         +--------+         v   v          |
//! |      +----------+          |           +----------+      |
//! |      |   half   |          |           |   half   |      |
//! |      |  closed  |          | send R /  |  closed  |      |
//! |      | (remote) |          | recv R    | (local)  |      |
//! |      +----------+          |           +----------+      |
//! |           |                |                 |           |
//! |           | send ES /      |       recv ES / |           |
//! |           | send R /       v        send R / |           |
//! |           | recv R     +--------+   recv R   |           |
//! | send R /  `----------->|        |<-----------'  send R / |
//! | recv R                 | closed |               recv R   |
//! `----------------------->|        |<----------------------'
//!                          +--------+
//! ```

pub mod forest;
pub mod handlers;
pub mod prioritymanager;
pub mod status;
pub mod streammanager;
pub mod streamstate;
pub mod utils;

pub use status::{Flags, StreamStates, StreamStatus};
