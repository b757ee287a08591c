//! The unbuffered TLS connection engine: records go in as bytes, records come out as bytes,
//! and the caller owns every buffer.
//!
//! * [`msgs`] holds messages, record framing and the handshake buffer;
//! * [`crypto`] holds the TLS 1.3 record protection and key derivation over `aws-lc-rs`;
//! * [`conn`] holds the connection itself: the record layer, the state shared by both sides,
//!   the TLS 1.3 traffic state and the unbuffered API.

use vstd::prelude::*;

pub mod conn;
pub mod crypto;
pub mod enums;
pub mod error;
pub mod msgs;

verus! {

} // verus!
