//! The transport engine boundary. The packet-level reliability protocol
//! (acknowledgement, retransmission, sequencing, heartbeats) is delegated to
//! an external engine reached through the [`TransportSocket`] trait; the
//! session logic is verified for every behaviour of that engine, so the
//! trait's methods promise nothing.

use vstd::prelude::*;

use crate::error::TransportFault;
use crate::types::{NetworkDelivery, PeerAddress};

verus! {

/// The transport engine a socket is bound with.
pub enum Transport {
    Laminar(LaminarConfig),
}

/// Per-bind options, passed opaquely to the transport engine. Durations are
/// plain milliseconds.
pub struct LaminarConfig {
    /// How long a connection may idle before the engine reports a timeout.
    pub idle_connection_timeout_ms: u64,
    /// How often the engine sends heartbeats on an otherwise quiet
    /// connection; absent means no heartbeats.
    pub heartbeat_interval_ms: Option<u64>,
    /// The engine's cap on unacknowledged packets in flight.
    pub max_packets_in_flight: u16,
}

impl Default for LaminarConfig {
    /// A five-second idle timeout, a one-second heartbeat, and 1024 packets
    /// in flight.
    fn default() -> (r: Self)
        ensures
            r.idle_connection_timeout_ms == 5000,
            r.heartbeat_interval_ms == Some(1000u64),
            r.max_packets_in_flight == 1024,
    {
        LaminarConfig {
            idle_connection_timeout_ms: 5000,
            heartbeat_interval_ms: Some(1000),
            max_packets_in_flight: 1024,
        }
    }
}

/// One transport-level report for a socket, already reduced to plain values.
pub enum TransportEvent {
    /// A remote endpoint completed the engine's connection handshake.
    Connect(PeerAddress),
    /// A remote endpoint disconnected.
    Disconnect(PeerAddress),
    /// A remote endpoint idled past the configured timeout.
    Timeout(PeerAddress),
    /// A payload arrived from a remote endpoint.
    Packet(PeerAddress, Vec<u8>),
}

/// A live socket owned by the worker: the session's view of the external
/// transport engine. All methods are non-blocking. They carry no contract:
/// the worker is verified to behave correctly whatever an implementation
/// returns.
pub trait TransportSocket: Sized {
    /// Bind a socket at the given local address with the given options.
    fn bind(addr: PeerAddress, config: LaminarConfig) -> Result<Self, TransportFault>;

    /// Let the engine advance its retransmission and heartbeat timers.
    fn poll(&mut self);

    /// Hand one payload to the engine for delivery under the given
    /// guarantee.
    fn try_send(
        &mut self,
        destination: PeerAddress,
        payload: Vec<u8>,
        delivery: NetworkDelivery,
    ) -> Result<(), TransportFault>;

    /// Drain one pending transport event, if any.
    fn try_recv(&mut self) -> Option<TransportEvent>;
}

} // verus!
