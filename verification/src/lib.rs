//! Host-side driver core for a framed binary serial protocol.
//!
//! The wire format is `[0x55, 0xAA, LEN, PAYLOAD, CSUM]`, where `LEN` is the
//! payload length plus a fixed offset of 4 and `CSUM` is an 8-bit wrapping
//! sum over `LEN` and the payload bytes. This crate holds the verified core:
//! the frame codec (encoding and a byte-at-a-time decoder state machine),
//! the decision logic of the task that owns the serial device, and the
//! driver's error taxonomy. The surrounding process (argument handling,
//! the serial device itself, the async channel plumbing and the HTTP
//! adapter) lives outside the library and hands it plain values.

pub mod codec;
pub mod error;
pub mod fanout;
pub mod link;
pub mod queue;
