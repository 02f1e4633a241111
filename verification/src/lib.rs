//! A datagram-based request/response protocol core: binary packet codec,
//! reliable delivery with acknowledgments and bounded retransmission,
//! optional payload transforms (compression, then encryption), a
//! route-dispatched server core and a sequence-correlating client core.

use vstd::prelude::*;

pub mod client;
pub mod compression;
pub mod crypto;
pub mod encoding;
pub mod error;
pub mod middleware;
pub mod packet;
pub mod protocol;
pub mod server;
pub mod transport;
pub mod wire;

verus! {

/// Wire protocol version carried in every packet header.
pub const PROTOCOL_VERSION: u8 = 1;

/// Largest datagram the protocol will emit (UDP payload limit).
pub const MAX_PACKET_SIZE: usize = 65507;

/// Default time to wait for an acknowledgment before retransmitting, in milliseconds.
pub const DEFAULT_ACK_TIMEOUT_MS: u64 = 1000;

/// Default number of retransmission attempts before a pending packet is dropped.
pub const MAX_RETRANSMIT_ATTEMPTS: u8 = 3;

} // verus!
