//! Stream-lifecycle core of an HTTP/2 endpoint: the per-stream state machine,
//! the frame admissibility gate, and the stream dependency tree.

pub mod flow;
pub mod frame;
