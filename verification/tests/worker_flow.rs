use net_session::{
    apply_instructions, create_session, translate_event, Connection, LaminarConfig,
    NetworkDelivery, NetworkError, NetworkEvent, NetworkResource, NetworkWorker, PeerAddress,
    SendConfig, SocketHandle, TrackedSockets, TransportEvent, TransportFault, TransportSocket,
    WorkerInstruction,
};

/// An in-memory transport engine with echo semantics: a send is reflected
/// back into the socket's own inbox as a packet from the destination,
/// preceded by a connect report the first time that peer is seen. Sends to
/// port 65535 fail; binds to port 0 fail.
struct EchoSocket {
    known_peers: Vec<PeerAddress>,
    inbox: Vec<TransportEvent>,
}

impl TransportSocket for EchoSocket {
    fn bind(addr: PeerAddress, _config: LaminarConfig) -> Result<Self, TransportFault> {
        if addr.port == 0 {
            return Err(TransportFault::Io(String::from("bind refused")));
        }
        Ok(EchoSocket { known_peers: Vec::new(), inbox: Vec::new() })
    }

    fn poll(&mut self) {}

    fn try_send(
        &mut self,
        destination: PeerAddress,
        payload: Vec<u8>,
        _delivery: NetworkDelivery,
    ) -> Result<(), TransportFault> {
        if destination.port == 65535 {
            return Err(TransportFault::Other(String::from("peer unreachable")));
        }
        if !self.known_peers.contains(&destination) {
            self.known_peers.push(destination);
            self.inbox.push(TransportEvent::Connect(destination));
        }
        self.inbox.push(TransportEvent::Packet(destination, payload));
        Ok(())
    }

    fn try_recv(&mut self) -> Option<TransportEvent> {
        if self.inbox.is_empty() {
            None
        } else {
            Some(self.inbox.remove(0))
        }
    }
}

fn echo_session() -> (NetworkResource<EchoSocket>, NetworkWorker<EchoSocket>) {
    create_session::<EchoSocket>()
}

fn addr(ip: u128, port: u16) -> PeerAddress {
    PeerAddress { ip, port }
}

fn messages_of(events: &[NetworkEvent]) -> Vec<(Connection, Vec<u8>)> {
    let mut found: Vec<(Connection, Vec<u8>)> = Vec::new();
    for e in events {
        if let NetworkEvent::Message(c, b) = e {
            found.push((*c, b.as_ref().to_vec()));
        }
    }
    found
}

#[test]
fn explicit_send_arrives_once_with_its_payload() {
    let (mut net, mut worker) = echo_session();
    let addr1 = addr(1, 11);
    let addr2 = addr(2, 22);
    let a = net.bind(addr1).unwrap();
    let b = net.bind(addr2).unwrap();

    net.send_with_config(
        addr2,
        b"hello",
        NetworkDelivery::ReliableOrdered(Some(1)),
        SendConfig { socket: Some(a) },
    )
    .unwrap();

    assert!(!worker.step());
    assert!(worker.sockets().has_socket(a));
    assert!(worker.sockets().has_socket(b));
    let out = net.pump();

    let messages = messages_of(&out);
    assert_eq!(messages.len(), 1);
    assert_eq!(messages[0].0, Connection { addr: addr2, socket: a });
    assert_eq!(messages[0].1, b"hello");
}

#[test]
fn inbound_packet_surfaces_as_one_message_on_its_socket() {
    let (mut net, mut worker) = echo_session();
    let addr1 = addr(1, 11);
    let addr2 = addr(2, 22);
    let _a = net.bind(addr1).unwrap();
    let b = net.bind(addr2).unwrap();

    net.send_with_config(
        addr1,
        b"hello",
        NetworkDelivery::ReliableOrdered(Some(1)),
        SendConfig { socket: Some(b) },
    )
    .unwrap();

    assert!(!worker.step());
    let out = net.pump();

    let messages = messages_of(&out);
    assert_eq!(messages.len(), 1);
    assert_eq!(messages[0].0, Connection { addr: addr1, socket: b });
    assert_eq!(messages[0].1, b"hello");
    assert!(net.has_connection(Connection { addr: addr1, socket: b }));
}

#[test]
fn two_sends_on_one_stream_arrive_in_order() {
    let (mut net, mut worker) = echo_session();
    let a = net.bind(addr(1, 11)).unwrap();
    let peer = addr(2, 22);

    net.send(peer, b"first", NetworkDelivery::ReliableOrdered(Some(7))).unwrap();
    net.send(peer, b"second", NetworkDelivery::ReliableOrdered(Some(7))).unwrap();

    assert!(!worker.step());
    let out = net.pump();

    let messages = messages_of(&out);
    assert_eq!(messages.len(), 2);
    assert_eq!(messages[0].1, b"first");
    assert_eq!(messages[1].1, b"second");
    assert_eq!(messages[0].0, Connection { addr: peer, socket: a });
    assert_eq!(messages[1].0, Connection { addr: peer, socket: a });
}

#[test]
fn explicit_handle_dispatches_only_through_that_socket() {
    let (mut net, mut worker) = echo_session();
    let addr1 = addr(1, 11);
    let addr2 = addr(2, 22);
    let a = net.bind(addr1).unwrap();
    let b = net.bind(addr2).unwrap();
    assert_eq!(net.default_socket(), Some(a));

    net.send_with_config(
        addr(9, 99),
        b"via-b",
        NetworkDelivery::ReliableUnordered,
        SendConfig { socket: Some(b) },
    )
    .unwrap();

    assert!(!worker.step());
    let out = net.pump();

    let messages = messages_of(&out);
    assert_eq!(messages.len(), 1);
    assert_eq!(messages[0].0.socket, b);
    assert_ne!(messages[0].0.socket, a);
}

#[test]
fn broadcast_reaches_each_connection_present_at_call_time() {
    let (mut net, mut worker) = echo_session();
    let a = net.bind(addr(1, 11)).unwrap();
    let one = addr(10, 1);
    let two = addr(10, 2);

    net.send(one, b"hi", NetworkDelivery::ReliableUnordered).unwrap();
    net.send(two, b"hi", NetworkDelivery::ReliableUnordered).unwrap();
    assert!(!worker.step());
    net.pump();
    assert_eq!(net.connections().len(), 2);

    net.broadcast(b"all", NetworkDelivery::ReliableUnordered).unwrap();
    net.add_connection(Connection { addr: addr(10, 3), socket: a });

    assert!(!worker.step());
    let out = net.pump();

    let messages = messages_of(&out);
    let broadcast_copies: Vec<&(Connection, Vec<u8>)> = messages
        .iter()
        .filter(|(_, payload)| payload == b"all")
        .collect();
    assert_eq!(broadcast_copies.len(), 2);
    let mut reached: Vec<PeerAddress> = broadcast_copies.iter().map(|(c, _)| c.addr).collect();
    reached.sort_by_key(|p| p.port);
    assert_eq!(reached, vec![one, two]);
}

#[test]
fn terminate_is_observed_before_queued_sends() {
    let (mut net, mut worker) = echo_session();
    net.bind(addr(1, 11)).unwrap();

    net.send(addr(2, 22), b"late", NetworkDelivery::ReliableUnordered).unwrap();
    net.shutdown().unwrap();

    assert!(worker.step());
    let out = net.pump();
    assert!(messages_of(&out).is_empty());
}

#[test]
fn failed_transport_send_becomes_a_send_error_event() {
    let (mut net, mut worker) = echo_session();
    net.bind(addr(1, 11)).unwrap();

    net.send(addr(2, 65535), b"x", NetworkDelivery::ReliableUnordered).unwrap();

    assert!(!worker.step());
    let out = net.pump();

    assert_eq!(out.len(), 1);
    match &out[0] {
        NetworkEvent::SendError(NetworkError::InternalError(
            net_session::InternalErrorKind::LaminarError(text),
        )) => assert_eq!(text, "peer unreachable"),
        other => panic!("expected a SendError event, got {:?}", other),
    }
}

#[test]
fn registry_keeps_the_earlier_socket_on_handle_collision() {
    let (mut net, _worker) = echo_session();
    let handle = net.bind(addr(1, 11)).unwrap();

    let mut registry: TrackedSockets<EchoSocket> = TrackedSockets::new();
    assert_eq!(registry.len(), 0);
    assert!(!registry.has_socket(handle));

    let first = EchoSocket::bind(addr(1, 11), LaminarConfig::default()).unwrap();
    let second = EchoSocket::bind(addr(2, 22), LaminarConfig::default()).unwrap();
    registry.add_socket(handle, first);
    registry.add_socket(handle, second);

    assert_eq!(registry.len(), 1);
    assert!(registry.has_socket(handle));
    assert!(registry.get_socket(handle).is_ok());
    assert_eq!(registry.handle_at(0), handle);
}

#[test]
fn registry_lookup_of_unknown_handle_reports_no_socket() {
    let (mut net, _worker) = echo_session();
    let handle = net.bind(addr(1, 11)).unwrap();

    let registry: TrackedSockets<EchoSocket> = TrackedSockets::new();
    match registry.get_socket(handle) {
        Err(NetworkError::NoSocket(h)) => assert_eq!(h, handle),
        other => panic!("expected NoSocket, got {:?}", other.map(|_| ())),
    }
}

#[test]
fn instructions_after_terminate_are_not_applied() {
    let (mut net, _worker) = echo_session();
    let handle = net.bind(addr(1, 11)).unwrap();
    let socket = EchoSocket::bind(addr(1, 11), LaminarConfig::default()).unwrap();

    let mut registry: TrackedSockets<EchoSocket> = TrackedSockets::new();
    let terminate = apply_instructions(
        &mut registry,
        vec![
            WorkerInstruction::Terminate,
            WorkerInstruction::AddSocket(handle, socket),
        ],
    );

    assert!(terminate);
    assert_eq!(registry.len(), 0);
}

#[test]
fn instructions_before_terminate_are_applied() {
    let (mut net, _worker) = echo_session();
    let handle = net.bind(addr(1, 11)).unwrap();
    let socket = EchoSocket::bind(addr(1, 11), LaminarConfig::default()).unwrap();

    let mut registry: TrackedSockets<EchoSocket> = TrackedSockets::new();
    let terminate = apply_instructions(
        &mut registry,
        vec![
            WorkerInstruction::AddSocket(handle, socket),
            WorkerInstruction::Terminate,
        ],
    );

    assert!(terminate);
    assert_eq!(registry.len(), 1);
    assert!(registry.has_socket(handle));
}

#[test]
fn translate_maps_each_transport_report() {
    let (mut net, _worker) = echo_session();
    let handle: SocketHandle = net.bind(addr(1, 11)).unwrap();
    let peer = addr(5, 55);
    let conn = Connection { addr: peer, socket: handle };

    assert!(matches!(
        translate_event(handle, TransportEvent::Connect(peer)),
        NetworkEvent::Connected(c) if c == conn
    ));
    assert!(matches!(
        translate_event(handle, TransportEvent::Disconnect(peer)),
        NetworkEvent::Disconnected(c) if c == conn
    ));
    assert!(matches!(
        translate_event(handle, TransportEvent::Timeout(peer)),
        NetworkEvent::Disconnected(c) if c == conn
    ));
    match translate_event(handle, TransportEvent::Packet(peer, b"payload".to_vec())) {
        NetworkEvent::Message(c, b) => {
            assert_eq!(c, conn);
            assert_eq!(b.as_ref(), b"payload");
        }
        other => panic!("expected a Message event, got {:?}", other),
    }
}
