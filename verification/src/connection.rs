use vstd::prelude::*;

verus! {

/// Lifecycle states of one point-to-point connection.
#[derive(Clone, Copy, PartialEq, Eq, Structural, Debug)]
pub enum ConnState {
    /// The transport connect is under way.
    Connecting,
    /// The handshake headers are being exchanged and validated.
    Negotiating,
    /// The handshake succeeded; typed payloads flow.
    Streaming,
    /// The connection is finished; nothing revives it.
    Closed,
}

/// Events that drive one connection's lifecycle.
#[derive(Clone, Copy, PartialEq, Eq, Structural, Debug)]
pub enum ConnEvent {
    /// The transport connect finished; the handshake begins.
    Opened,
    /// The reply header carried the expected type name and checksum.
    HandshakeOk,
    /// Handshake I/O failed, the header was malformed, or the fields mismatched.
    HandshakeFailed,
    /// One streamed payload was decoded and handed to the consumer.
    Delivered,
    /// A streamed payload failed to decode, or the socket closed.
    StreamBroken,
    /// The consuming side dropped its handle.
    ConsumerGone,
}

/// The one allowed transition for each state and event. A connection only
/// ever moves forward: any event out of protocol, and any failure, closes it.
pub open spec fn spec_conn_step(s: ConnState, e: ConnEvent) -> ConnState {
    match s {
        ConnState::Connecting => if e == ConnEvent::Opened {
            ConnState::Negotiating
        } else {
            ConnState::Closed
        },
        ConnState::Negotiating => if e == ConnEvent::HandshakeOk {
            ConnState::Streaming
        } else {
            ConnState::Closed
        },
        ConnState::Streaming => if e == ConnEvent::Delivered {
            ConnState::Streaming
        } else {
            ConnState::Closed
        },
        ConnState::Closed => ConnState::Closed,
    }
}

/// Advances one connection's state by one event.
pub fn conn_step(s: ConnState, e: ConnEvent) -> (r: ConnState)
    ensures
        r == spec_conn_step(s, e),
{
    match s {
        ConnState::Connecting => if e == ConnEvent::Opened {
            ConnState::Negotiating
        } else {
            ConnState::Closed
        },
        ConnState::Negotiating => if e == ConnEvent::HandshakeOk {
            ConnState::Streaming
        } else {
            ConnState::Closed
        },
        ConnState::Streaming => if e == ConnEvent::Delivered {
            ConnState::Streaming
        } else {
            ConnState::Closed
        },
        ConnState::Closed => ConnState::Closed,
    }
}

/// Losing the consumer closes a streaming connection at the very next step,
/// and a closed connection stays closed whatever happens afterwards.
pub proof fn lemma_consumer_drop_terminates(later: ConnEvent)
    ensures
        spec_conn_step(ConnState::Streaming, ConnEvent::ConsumerGone) == ConnState::Closed,
        spec_conn_step(ConnState::Closed, later) == ConnState::Closed,
{
}

/// A connection enters `Streaming` only out of `Negotiating`, and only on a
/// validated handshake.
pub proof fn lemma_streaming_needs_handshake(s: ConnState, e: ConnEvent)
    requires
        s != ConnState::Streaming,
        spec_conn_step(s, e) == ConnState::Streaming,
    ensures
        s == ConnState::Negotiating,
        e == ConnEvent::HandshakeOk,
{
}

} // verus!
