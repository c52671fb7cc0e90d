//! Core of a local-network file-drop system: a relay groups browser peers
//! into rooms keyed by network origin and routes signaling messages between
//! them; each pair of peers then runs an offer/answer/ICE handshake to open a
//! direct data channel, over which large payloads are streamed as fixed-size
//! chunks under a low-buffer flow-control signal.

use vstd::prelude::*;

pub mod handshake;
pub mod messages;
pub mod peer;
pub mod peer_list;
pub mod platform;
pub mod room;
pub mod rooms;
pub mod transfer;

verus! {

/// How a failed operation is classified; see the error-handling design.
#[derive(Debug, Clone, Copy, PartialEq, Eq, Structural)]
pub enum RelayError {
    /// A room or peer that an operation named is absent. Recoverable: the
    /// caller decides whether that is a protocol violation or a benign race.
    NotFound,
    /// An inbound frame failed to parse against the message schema. Fatal to
    /// the connection it arrived on.
    MalformedMessage,
    /// The transport under a connection closed. Fatal to that connection's
    /// loops and triggers disconnect cleanup.
    TransportClosed,
}

/// Largest number of payload bytes carried by one transfer frame.
pub const MAX_CHUNK_SIZE: u32 = 16384;

/// Buffered-amount threshold below which a saturated data channel signals
/// readiness to accept more frames: a fixed multiple of the chunk size.
pub const BUFFERED_AMOUNT_LOW_THRESHOLD: u32 = MAX_CHUNK_SIZE * 4;

} // verus!
