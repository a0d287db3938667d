//! Streaming core of a real-time audio transmitter.
//!
//! Captured samples are framed into timestamped datagrams and announced with a
//! redundant stream header. This crate holds the wire format, the fixed-size
//! frame accumulation, the compression compatibility rules, the per-buffer
//! streaming policy and the session state machine; sockets, audio devices and
//! the compressor itself are driven by the caller.

pub mod accumulator;
pub mod clock;
pub mod codec;
pub mod session;
pub mod stream;
pub mod wire;
