//! Errors of a connection.

use vstd::prelude::*;

use crate::enums::{AlertDescription, ContentType};

verus! {

/// What was wrong with a message that could not be decoded.
#[derive(Clone, Copy, Debug, PartialEq, Eq, Structural)]
pub enum InvalidMessage {
    InvalidCcs,
    InvalidContentType,
    InvalidEmptyPayload,
    InvalidKeyUpdate,
    MessageTooLarge,
    MissingData,
    TrailingData,
    UnknownProtocolVersion,
}

/// What a peer did that the protocol forbids.
#[derive(Clone, Copy, Debug, PartialEq, Eq, Structural)]
pub enum PeerMisbehaved {
    IllegalMiddleboxChangeCipherSpec,
    IllegalTlsInnerPlaintext,
    KeyEpochWithPendingFragment,
    MessageInterleavedWithHandshakeMessage,
}

/// The reasons for which a connection fails.
#[allow(inconsistent_fields)]
#[derive(Clone, Copy, Debug, PartialEq, Eq)]
pub enum Error {
    /// A message of this type came where it has no place.
    InappropriateMessage { got_type: ContentType },
    /// A handshake message of this type came where it has no place.
    InappropriateHandshakeMessage { got_type: u8 },
    /// The peer sent bytes that are not a message.
    InvalidMessage(InvalidMessage),
    /// The peer broke the protocol.
    PeerMisbehaved(PeerMisbehaved),
    /// The peer sent an alert.
    AlertReceived(AlertDescription),
    /// A record could not be protected.
    EncryptError,
    /// A record failed to authenticate.
    DecryptError,
    /// The handshake is not done yet.
    HandshakeNotComplete,
    /// The peer sent a record that is larger than the protocol allows.
    PeerSentOversizedRecord,
    /// Any other failure.
    General(&'static str),
}

} // verus!
