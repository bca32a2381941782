//! Core data model: socket handles, peer addresses, connections, delivery
//! modes and the events the worker reports back to callers.

use vstd::prelude::*;

use crate::error::NetworkError;
use crate::payload::bytes_data;

verus! {

/// Opaque identifier for a bound local endpoint.
///
/// A handle is minted once per successful bind from a freshly drawn random
/// 128-bit value and is never reused; equality is purely by identity.
#[derive(Debug, Copy, Clone, PartialEq, Eq, Hash, Structural)]
pub struct SocketHandle(pub(crate) u128);

impl SocketHandle {
    /// The handle's identity bits.
    pub closed spec fn id(&self) -> u128 {
        self.0
    }

    /// The handle's identity bits.
    pub fn id_bits(&self) -> (r: u128)
        ensures
            r == self.id(),
    {
        self.0
    }
}

/// A peer's datagram address as plain values: the 128-bit IP (IPv6 bits,
/// with IPv4 addresses in their v4-mapped form) and the UDP port.
#[derive(Debug, Copy, Clone, PartialEq, Eq, Hash, Structural)]
pub struct PeerAddress {
    pub ip: u128,
    pub port: u16,
}

/// A remote endpoint on a given local socket: the pair uniquely identifies
/// an established connection.
#[derive(Debug, Copy, Clone, PartialEq, Eq, Hash, Structural)]
pub struct Connection {
    pub addr: PeerAddress,
    pub socket: SocketHandle,
}

/// Delivery guarantee for an outbound payload; the optional stream id
/// distinguishes independent ordering lanes on the same socket.
#[derive(Debug, Copy, Clone, PartialEq)]
pub enum NetworkDelivery {
    UnreliableUnordered,
    UnreliableSequenced(Option<u8>),
    ReliableUnordered,
    ReliableSequenced(Option<u8>),
    ReliableOrdered(Option<u8>),
}

/// An event the worker reports back to the session's caller.
#[derive(Debug)]
pub enum NetworkEvent {
    Connected(Connection),
    Disconnected(Connection),
    Message(Connection, bytes::Bytes),
    SendError(NetworkError),
}

/// Per-send options; an absent socket means the default socket.
pub struct SendConfig {
    pub socket: Option<SocketHandle>,
}

impl Default for SendConfig {
    /// The default send options name no explicit socket.
    fn default() -> (r: Self)
        ensures
            r.socket is None,
    {
        SendConfig { socket: None }
    }
}

/// One outbound payload, created by the session facade and consumed exactly
/// once by the worker.
pub(crate) struct Message {
    pub message: bytes::Bytes,
    pub delivery: NetworkDelivery,
    pub socket_handle: SocketHandle,
    pub destination: PeerAddress,
}

/// The ghost mirror of one outbound message, used by the session's contracts
/// to describe exactly what was handed to the worker.
pub ghost struct OutboundRecord {
    pub destination: PeerAddress,
    pub payload: Seq<u8>,
    pub delivery: NetworkDelivery,
    pub socket: SocketHandle,
}

/// The ghost mirror of one control-plane instruction handed to the worker:
/// the registration of a freshly bound socket under its handle, or the
/// request to terminate.
pub ghost enum InstructionRecord {
    AddSocket(SocketHandle),
    Terminate,
}

impl Message {
    /// The ghost record a message stands for.
    pub(crate) open spec fn record(&self) -> OutboundRecord {
        OutboundRecord {
            destination: self.destination,
            payload: bytes_data(self.message),
            delivery: self.delivery,
            socket: self.socket_handle,
        }
    }
}

/// Relies on `uuid::Uuid::new_v4` (with `as_u128` for the raw bits): a
/// freshly drawn random 128-bit identifier. The value is random, so nothing
/// is promised of it.
#[verifier::external_body]
pub(crate) fn mint_handle_bits() -> u128 {
    uuid::Uuid::new_v4().as_u128()
}

/// Linear search for a connection in a vector.
pub(crate) fn vec_contains_connection(v: &Vec<Connection>, c: Connection) -> (r: bool)
    ensures
        r == v@.contains(c),
{
    let n: usize = v.len();
    let mut i: usize = 0;
    while i < n
        invariant
            0 <= i <= n,
            n == v@.len(),
            forall|j: int| 0 <= j < i ==> v@[j] != c,
        decreases n - i,
    {
        if v[i] == c {
            assert(v@.contains(c));
            return true;
        }
        i = i + 1;
    }
    assert(forall|j: int| 0 <= j < v@.len() ==> v@[j] != c);
    false
}

/// Linear search for a handle in a vector.
pub(crate) fn vec_contains_handle(v: &Vec<SocketHandle>, h: SocketHandle) -> (r: bool)
    ensures
        r == v@.contains(h),
{
    let n: usize = v.len();
    let mut i: usize = 0;
    while i < n
        invariant
            0 <= i <= n,
            n == v@.len(),
            forall|j: int| 0 <= j < i ==> v@[j] != h,
        decreases n - i,
    {
        if v[i] == h {
            assert(v@.contains(h));
            return true;
        }
        i = i + 1;
    }
    assert(forall|j: int| 0 <= j < v@.len() ==> v@[j] != h);
    false
}

} // verus!
