use bytes::Bytes;
use net_session::{
    create_session, Connection, LaminarConfig, NetworkDelivery, NetworkError, NetworkEvent,
    NetworkResource, NetworkWorker, PeerAddress, SocketHandle, TransportEvent, TransportFault,
    TransportSocket,
};

/// A transport engine that binds to anything and reports nothing; the pump
/// tests below feed the facade drained backlogs directly.
struct IdleSocket;

impl TransportSocket for IdleSocket {
    fn bind(_addr: PeerAddress, _config: LaminarConfig) -> Result<Self, TransportFault> {
        Ok(IdleSocket)
    }

    fn poll(&mut self) {}

    fn try_send(
        &mut self,
        _destination: PeerAddress,
        _payload: Vec<u8>,
        _delivery: NetworkDelivery,
    ) -> Result<(), TransportFault> {
        Ok(())
    }

    fn try_recv(&mut self) -> Option<TransportEvent> {
        None
    }
}

fn bound_session() -> (NetworkResource<IdleSocket>, NetworkWorker<IdleSocket>, SocketHandle) {
    let (mut net, worker) = create_session::<IdleSocket>();
    let handle = net.bind(PeerAddress { ip: 1, port: 10 }).unwrap();
    (net, worker, handle)
}

fn peer(n: u16) -> PeerAddress {
    PeerAddress { ip: 100, port: n }
}

#[test]
fn duplicate_connect_reports_emit_one_connected() {
    let (mut net, _worker, handle) = bound_session();
    let conn = Connection { addr: peer(1), socket: handle };

    let out = net.pump_events(vec![
        NetworkEvent::Connected(conn),
        NetworkEvent::Connected(conn),
        NetworkEvent::Connected(conn),
    ]);

    assert_eq!(out.len(), 1);
    assert!(matches!(out[0], NetworkEvent::Connected(c) if c == conn));
    assert_eq!(net.connections().as_slice(), &[conn]);
}

#[test]
fn duplicate_disconnect_reports_emit_one_disconnected() {
    let (mut net, _worker, handle) = bound_session();
    let conn = Connection { addr: peer(1), socket: handle };
    net.add_connection(conn);

    let out = net.pump_events(vec![
        NetworkEvent::Disconnected(conn),
        NetworkEvent::Disconnected(conn),
    ]);

    assert_eq!(out.len(), 1);
    assert!(matches!(out[0], NetworkEvent::Disconnected(c) if c == conn));
    assert!(net.connections().is_empty());
}

#[test]
fn connect_report_for_known_connection_is_swallowed() {
    let (mut net, _worker, handle) = bound_session();
    let conn = Connection { addr: peer(1), socket: handle };
    net.add_connection(conn);

    let out = net.pump_events(vec![NetworkEvent::Connected(conn)]);

    assert!(out.is_empty());
    assert_eq!(net.connections().as_slice(), &[conn]);
}

#[test]
fn disconnect_report_for_unknown_connection_is_swallowed() {
    let (mut net, _worker, handle) = bound_session();
    let conn = Connection { addr: peer(1), socket: handle };

    let out = net.pump_events(vec![NetworkEvent::Disconnected(conn)]);

    assert!(out.is_empty());
    assert!(net.connections().is_empty());
}

#[test]
fn messages_pass_through_in_order_before_lifecycle_events() {
    let (mut net, _worker, handle) = bound_session();
    let conn = Connection { addr: peer(1), socket: handle };

    let out = net.pump_events(vec![
        NetworkEvent::Message(conn, Bytes::copy_from_slice(b"one")),
        NetworkEvent::Connected(conn),
        NetworkEvent::Message(conn, Bytes::copy_from_slice(b"two")),
    ]);

    assert_eq!(out.len(), 3);
    assert!(matches!(&out[0], NetworkEvent::Message(c, b) if *c == conn && b.as_ref() == b"one"));
    assert!(matches!(&out[1], NetworkEvent::Message(c, b) if *c == conn && b.as_ref() == b"two"));
    assert!(matches!(out[2], NetworkEvent::Connected(c) if c == conn));
    assert_eq!(net.connections().as_slice(), &[conn]);
}

#[test]
fn send_errors_pass_through() {
    let (mut net, _worker, _handle) = bound_session();

    let out = net.pump_events(vec![NetworkEvent::SendError(NetworkError::NoDefaultSocket)]);

    assert_eq!(out.len(), 1);
    assert!(matches!(
        out[0],
        NetworkEvent::SendError(NetworkError::NoDefaultSocket)
    ));
}

#[test]
fn one_backlog_mixing_peers_settles_each_once() {
    let (mut net, _worker, handle) = bound_session();
    let first = Connection { addr: peer(1), socket: handle };
    let second = Connection { addr: peer(2), socket: handle };
    net.add_connection(first);

    let out = net.pump_events(vec![
        NetworkEvent::Connected(second),
        NetworkEvent::Disconnected(first),
        NetworkEvent::Connected(second),
        NetworkEvent::Disconnected(first),
    ]);

    assert_eq!(out.len(), 2);
    assert!(matches!(out[0], NetworkEvent::Connected(c) if c == second));
    assert!(matches!(out[1], NetworkEvent::Disconnected(c) if c == first));
    assert_eq!(net.connections().as_slice(), &[second]);
}

#[test]
fn empty_backlog_changes_nothing() {
    let (mut net, _worker, handle) = bound_session();
    let conn = Connection { addr: peer(1), socket: handle };
    net.add_connection(conn);

    let out = net.pump_events(Vec::new());

    assert!(out.is_empty());
    assert_eq!(net.connections().as_slice(), &[conn]);
}

#[test]
fn pump_on_quiet_session_returns_nothing() {
    let (mut net, _worker, _handle) = bound_session();
    let out = net.pump();
    assert!(out.is_empty());
}
