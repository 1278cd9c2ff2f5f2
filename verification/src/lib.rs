//! The point-to-point transport of a publish/subscribe middleware for
//! strongly typed data streams: the length-prefixed header codec used during
//! the connection handshake, the type negotiation that validates a peer
//! against the expected message type, the connection lifecycle, the
//! subscriber's stream-decoding core, and the publisher's fan-out peer set.
//!
//! Socket I/O, threads, the hand-off queue and process identity live with
//! the embedding program; the library states and proves what happens to the
//! plain values they carry.

pub mod connection;
pub mod errors;
pub mod handshake;
pub mod header;
pub mod message;
pub mod publisher;
pub mod ros;
pub mod subscriber;
pub mod wire;
