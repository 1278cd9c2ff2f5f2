use vstd::prelude::*;

verus! {

/// Failures of the point-to-point transport, one variant per failure class:
/// socket trouble, malformed header framing, a handshake whose peer speaks a
/// different message type, and a streaming payload that cannot be parsed.
#[derive(Clone, Copy, PartialEq, Eq, Structural, Debug)]
pub enum Error {
    /// Underlying socket failure; fatal to the one connection attempt.
    Transport,
    /// Malformed header framing; fatal to the handshake attempt.
    Format,
    /// Parsed reply whose `type`/`md5sum` disagree with the expected message type.
    Mismatch,
    /// A streaming payload that is not one well-formed message; fatal to that connection.
    Decode,
}

/// Failure reported by the directory service for one remote call.
#[derive(PartialEq, Eq, Debug)]
pub enum MasterError {
    /// The directory answered with a status code other than success.
    Failure(String),
}

} // verus!
