//! Raw HTTP/2 frames: the 9-byte frame header, padded payloads, and the
//! PING and CONTINUATION frame types.

pub mod continuationframe;
pub mod frames;
pub mod pingframe;
