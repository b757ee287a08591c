//! Messages, record framing and the buffers they pass through.

pub mod buffers;
pub mod deframer;
pub mod handshake_buffer;
pub mod message;
