use net_session::{
    create_session, Connection, LaminarConfig, NetworkDelivery, NetworkError, NetworkResource,
    NetworkWorker, PeerAddress, SendConfig, TransportEvent, TransportFault, TransportSocket,
};

/// An in-memory transport engine: a send is reflected back into the
/// socket's own inbox as a packet from the destination, preceded by a
/// connect report the first time a peer is seen. Binding to port 0 fails.
struct FakeSocket {
    known_peers: Vec<PeerAddress>,
    inbox: Vec<TransportEvent>,
}

impl TransportSocket for FakeSocket {
    fn bind(addr: PeerAddress, _config: LaminarConfig) -> Result<Self, TransportFault> {
        if addr.port == 0 {
            return Err(TransportFault::Io(String::from("bind refused")));
        }
        Ok(FakeSocket { known_peers: Vec::new(), inbox: Vec::new() })
    }

    fn poll(&mut self) {}

    fn try_send(
        &mut self,
        destination: PeerAddress,
        payload: Vec<u8>,
        _delivery: NetworkDelivery,
    ) -> Result<(), TransportFault> {
        if destination.port == 65535 {
            return Err(TransportFault::Other(String::from("peer unreachable")));
        }
        if !self.known_peers.contains(&destination) {
            self.known_peers.push(destination);
            self.inbox.push(TransportEvent::Connect(destination));
        }
        self.inbox.push(TransportEvent::Packet(destination, payload));
        Ok(())
    }

    fn try_recv(&mut self) -> Option<TransportEvent> {
        if self.inbox.is_empty() {
            None
        } else {
            Some(self.inbox.remove(0))
        }
    }
}

fn fake_session() -> (NetworkResource<FakeSocket>, NetworkWorker<FakeSocket>) {
    create_session::<FakeSocket>()
}

const LOCALHOST: u128 = 0xffff_7f00_0001;

#[test]
fn network_resource_has_no_default_connections() {
    let (network_resource, _worker) = fake_session();

    assert!(network_resource.default_socket().is_none());
    assert!(network_resource.bound_sockets().is_empty());
}

#[test]
fn binding_network_resource_sets_the_default_socket() {
    let (mut network_resource, _worker) = fake_session();

    assert!(network_resource.bind(PeerAddress { ip: LOCALHOST, port: 12591 }).is_ok());
    assert!(network_resource.default_socket().is_some());
}

#[test]
fn default_laminar_config_values() {
    let config = LaminarConfig::default();
    assert_eq!(config.idle_connection_timeout_ms, 5000);
    assert_eq!(config.heartbeat_interval_ms, Some(1000));
    assert_eq!(config.max_packets_in_flight, 1024);
}

#[test]
fn default_send_config_names_no_socket() {
    assert!(SendConfig::default().socket.is_none());
}

#[test]
fn first_bind_stays_default_after_more_binds() {
    let (mut net, _worker) = fake_session();
    let first = net.bind(PeerAddress { ip: 1, port: 10 }).unwrap();
    let second = net.bind(PeerAddress { ip: 2, port: 20 }).unwrap();
    assert_ne!(first, second);
    assert_eq!(net.default_socket(), Some(first));
    assert_eq!(net.bound_sockets().as_slice(), &[first, second]);
}

#[test]
fn add_connection_is_idempotent() {
    let (mut net, _worker) = fake_session();
    let handle = net.bind(PeerAddress { ip: 1, port: 10 }).unwrap();
    let conn = Connection { addr: PeerAddress { ip: 9, port: 99 }, socket: handle };

    net.add_connection(conn);
    assert_eq!(net.connections().len(), 1);
    net.add_connection(conn);
    assert_eq!(net.connections().len(), 1);
    assert_eq!(net.connections()[0], conn);
}

#[test]
fn remove_absent_connection_changes_nothing() {
    let (mut net, _worker) = fake_session();
    let handle = net.bind(PeerAddress { ip: 1, port: 10 }).unwrap();
    let present = Connection { addr: PeerAddress { ip: 9, port: 99 }, socket: handle };
    let absent = Connection { addr: PeerAddress { ip: 8, port: 88 }, socket: handle };

    net.add_connection(present);
    net.remove_connection(absent);
    assert_eq!(net.connections().len(), 1);
    assert_eq!(net.connections()[0], present);
}

#[test]
fn remove_present_connection_forgets_it() {
    let (mut net, _worker) = fake_session();
    let handle = net.bind(PeerAddress { ip: 1, port: 10 }).unwrap();
    let conn = Connection { addr: PeerAddress { ip: 9, port: 99 }, socket: handle };

    net.add_connection(conn);
    assert!(net.has_connection(conn));
    net.remove_connection(conn);
    assert!(!net.has_connection(conn));
    assert!(net.connections().is_empty());
}

#[test]
fn connections_for_socket_filters_by_handle() {
    let (mut net, _worker) = fake_session();
    let a = net.bind(PeerAddress { ip: 1, port: 10 }).unwrap();
    let b = net.bind(PeerAddress { ip: 2, port: 20 }).unwrap();
    let on_a = Connection { addr: PeerAddress { ip: 9, port: 99 }, socket: a };
    let on_b1 = Connection { addr: PeerAddress { ip: 9, port: 99 }, socket: b };
    let on_b2 = Connection { addr: PeerAddress { ip: 7, port: 77 }, socket: b };

    net.add_connection(on_a);
    net.add_connection(on_b1);
    net.add_connection(on_b2);

    assert_eq!(net.connections_for_socket(a), vec![on_a]);
    assert_eq!(net.connections_for_socket(b), vec![on_b1, on_b2]);
}

#[test]
fn send_without_sockets_reports_no_default_socket() {
    let (mut net, _worker) = fake_session();
    let r = net.send(
        PeerAddress { ip: 9, port: 99 },
        b"hi",
        NetworkDelivery::ReliableUnordered,
    );
    assert!(matches!(r, Err(NetworkError::NoDefaultSocket)));
}

#[test]
fn broadcast_without_sockets_reports_no_default_socket() {
    let (mut net, _worker) = fake_session();
    let r = net.broadcast(b"hi", NetworkDelivery::ReliableUnordered);
    assert!(matches!(r, Err(NetworkError::NoDefaultSocket)));
}

#[test]
fn send_with_unknown_handle_reports_no_socket() {
    let (mut net, _worker) = fake_session();
    let _home = net.bind(PeerAddress { ip: 1, port: 10 }).unwrap();

    let (mut other, _other_worker) = fake_session();
    let foreign = other.bind(PeerAddress { ip: 3, port: 30 }).unwrap();

    let r = net.send_with_config(
        PeerAddress { ip: 9, port: 99 },
        b"hi",
        NetworkDelivery::ReliableUnordered,
        SendConfig { socket: Some(foreign) },
    );
    match r {
        Err(NetworkError::NoSocket(h)) => assert_eq!(h, foreign),
        other_result => panic!("expected NoSocket, got {:?}", other_result),
    }
}

#[test]
fn failed_transport_bind_surfaces_io_error() {
    let (mut net, _worker) = fake_session();
    let r = net.bind(PeerAddress { ip: 1, port: 0 });
    assert!(matches!(r, Err(NetworkError::IOError(_))));
    assert!(net.default_socket().is_none());
    assert!(net.bound_sockets().is_empty());
}

#[test]
fn closed_channels_surface_internal_errors() {
    let (mut net, worker) = fake_session();
    let handle = net.bind(PeerAddress { ip: 1, port: 10 }).unwrap();
    drop(worker);

    let r = net.send(
        PeerAddress { ip: 9, port: 99 },
        b"hi",
        NetworkDelivery::ReliableUnordered,
    );
    assert!(matches!(
        r,
        Err(NetworkError::InternalError(
            net_session::InternalErrorKind::SendMessageError(_)
        ))
    ));

    let r2 = net.bind(PeerAddress { ip: 2, port: 20 });
    assert!(matches!(
        r2,
        Err(NetworkError::InternalError(
            net_session::InternalErrorKind::SendWorkerInstructionsError(_)
        ))
    ));

    let r3 = net.shutdown();
    assert!(matches!(
        r3,
        Err(NetworkError::InternalError(
            net_session::InternalErrorKind::SendWorkerInstructionsError(_)
        ))
    ));

    assert_eq!(net.bound_sockets().as_slice(), &[handle]);
}

#[test]
fn decimal_rendering_is_exact() {
    assert_eq!(net_session::u128_to_string(0), "0");
    assert_eq!(net_session::u128_to_string(7), "7");
    assert_eq!(net_session::u128_to_string(10), "10");
    assert_eq!(net_session::u128_to_string(12345), "12345");
    assert_eq!(
        net_session::u128_to_string(u128::MAX),
        "340282366920938463463374607431768211455"
    );
}

#[test]
fn error_descriptions_match_the_taxonomy() {
    assert_eq!(
        NetworkError::NoDefaultSocket.describe(),
        "No default socket is bound."
    );
    let (mut net, _worker) = fake_session();
    let handle = net.bind(PeerAddress { ip: 1, port: 10 }).unwrap();
    let text = NetworkError::NoSocket(handle).describe();
    assert!(text.starts_with("No socket is currently bound for the handle "));
    let id = text
        .strip_prefix("No socket is currently bound for the handle ")
        .unwrap();
    assert!(!id.is_empty());
    assert!(id.chars().all(|c| c.is_ascii_digit()));
    assert_eq!(
        NetworkError::IOError(String::from("oops")).describe(),
        "An IO error occurred: oops"
    );
    assert_eq!(
        net_session::InternalErrorKind::MutexLockError.describe(),
        "A lock could not be acquired."
    );
    assert_eq!(
        NetworkError::InternalError(net_session::InternalErrorKind::SendMessageError(
            String::from("gone")
        ))
        .describe(),
        "An internal error occurred: A message could not be sent to the worker thread (gone)"
    );
    assert_eq!(
        net_session::InternalErrorKind::LaminarError(String::from("odd")).describe(),
        "An unexpected laminar error occurred (odd)"
    );
}
