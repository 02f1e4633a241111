//! Error kinds surfaced by the protocol core.

use vstd::prelude::*;

verus! {

/// Every failure the protocol core can report.
#[derive(Debug, Clone, PartialEq, Eq)]
pub enum ProtocolError {
    /// Underlying socket failure, carried up from the I/O layer.
    Io(String),
    /// AEAD failure, or an encrypted packet arrived with no crypto provider.
    Encryption(String),
    /// Codec failure, or a compressed packet arrived with no compression provider.
    Compression(String),
    /// A request, connection, or acknowledgment wait ran out of time.
    Timeout,
    /// Framing or UTF-8 violation found while deserializing a packet.
    InvalidPacket(String),
    /// A delivery channel closed before its value arrived.
    ConnectionClosed,
    /// No handler is registered for the requested route.
    RouteNotFound(String),
    /// The packet header carried a protocol version other than the expected one.
    VersionMismatch { expected: u8, actual: u8 },
    /// A pending packet used up every retransmission attempt.
    MaxRetransmitReached,
    /// An address could not be parsed.
    InvalidAddress(String),
    /// An internal delivery channel failed unexpectedly.
    Channel(String),
    /// Generic parsing or domain error.
    Other(String),
}

impl ProtocolError {
    /// True when the error reports the given unexpected version.
    pub open spec fn is_version_mismatch(self, seen: u8) -> bool {
        self matches ProtocolError::VersionMismatch { expected, actual } && expected
            == crate::PROTOCOL_VERSION && actual == seen
    }
}

} // verus!
