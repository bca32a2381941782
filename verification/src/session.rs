//! The session facade: the object callers hold. It resolves default or
//! explicit socket handles, enqueues instructions and outbound messages for
//! the worker, tracks the known connection set, and pumps the worker's
//! events into a deduplicated, caller-visible stream.

use vstd::prelude::*;

use crate::channels::{chan_send, chan_try_recv, channel, guard_ref, lock_or_fail, lock_salvage, new_lock};
use crate::error::{InternalErrorKind, NetworkError};
use crate::payload::bytes_copy;
use crate::transport::{LaminarConfig, Transport, TransportSocket};
use crate::types::{
    mint_handle_bits, vec_contains_connection, vec_contains_handle, Connection, InstructionRecord,
    Message, NetworkDelivery, NetworkEvent, OutboundRecord, PeerAddress, SendConfig, SocketHandle,
};
use crate::worker::{NetworkWorker, WorkerInstruction};

verus! {

/// The mathematical state of a session facade: the default socket, the bound
/// handles in bind order, the known connections in arrival order, the log of
/// every outbound message handed to the worker so far, and the log of every
/// control-plane instruction handed to it.
pub ghost struct SessionView {
    pub default_socket: Option<SocketHandle>,
    pub bound_sockets: Seq<SocketHandle>,
    pub connections: Seq<Connection>,
    pub sent: Seq<OutboundRecord>,
    pub instructed: Seq<InstructionRecord>,
}

impl SessionView {
    /// A facade's state is well-formed when the connection set holds no
    /// duplicates and the default socket is exactly the first bound handle:
    /// absent before the first bind, and fixed from then on.
    pub open spec fn wf(self) -> bool {
        &&& self.connections.no_duplicates()
        &&& (self.bound_sockets.len() == 0 <==> self.default_socket is None)
        &&& (self.bound_sockets.len() > 0 ==> self.default_socket == Some(self.bound_sockets[0]))
    }
}

/// Which socket an operation acts on: the explicit handle when one is given,
/// else the default socket.
pub open spec fn resolved_socket(v: SessionView, explicit: Option<SocketHandle>) -> Option<
    SocketHandle,
> {
    match explicit {
        Some(h) => Some(h),
        None => v.default_socket,
    }
}

/// What adding a connection does: nothing when it is already known,
/// otherwise it is appended.
pub open spec fn add_conn_spec(conns: Seq<Connection>, c: Connection) -> Seq<Connection> {
    if conns.contains(c) {
        conns
    } else {
        conns.push(c)
    }
}

/// What removing a connection does: nothing when it is absent, otherwise its
/// first occurrence is removed.
pub open spec fn remove_conn_spec(conns: Seq<Connection>, c: Connection) -> Seq<Connection> {
    conns.remove_value(c)
}

/// The ghost records for one broadcast: one outbound message per connection
/// of the snapshot, in snapshot order, all with the same payload, delivery
/// and socket.
pub open spec fn broadcast_records(
    snapshot: Seq<Connection>,
    payload: Seq<u8>,
    delivery: NetworkDelivery,
    socket: SocketHandle,
) -> Seq<OutboundRecord> {
    snapshot.map_values(
        |c: Connection| OutboundRecord { destination: c.addr, payload, delivery, socket },
    )
}

/// Everything but the connection set is unchanged.
pub open spec fn same_but_connections(pre: SessionView, post: SessionView) -> bool {
    &&& post.default_socket == pre.default_socket
    &&& post.bound_sockets == pre.bound_sockets
    &&& post.sent == pre.sent
    &&& post.instructed == pre.instructed
}

/// What a bind returns and does to the facade's state: on success the new
/// handle is fresh (it names no already-bound socket, so the default is
/// never displaced), it is appended to the bound sockets, it becomes the
/// default exactly when it is the first, and exactly one `AddSocket`
/// instruction carrying it was handed to the worker; on failure — a
/// transport bind failure, a poisoned lock, or a lost instruction channel —
/// the state is unchanged and nothing was handed to the worker.
pub open spec fn bind_outcome(
    pre: SessionView,
    post: SessionView,
    r: Result<SocketHandle, NetworkError>,
) -> bool {
    match r {
        Ok(h) => {
            &&& !pre.bound_sockets.contains(h)
            &&& post.bound_sockets == pre.bound_sockets.push(h)
            &&& post.default_socket == (if pre.default_socket is None {
                Some(h)
            } else {
                pre.default_socket
            })
            &&& (pre.default_socket matches Some(d) ==> h != d)
            &&& post.connections == pre.connections
            &&& post.sent == pre.sent
            &&& post.instructed == pre.instructed.push(InstructionRecord::AddSocket(h))
        },
        Err(e) => post == pre && (e matches NetworkError::IOError(_) || e matches
            NetworkError::InternalError(_)),
    }
}

/// What a send returns and does to the facade's state. Resolution failures
/// are exact: no explicit handle and no default socket yields
/// `NoDefaultSocket`; a resolved handle that is not bound yields `NoSocket`
/// with that handle. On success exactly one outbound record — this payload,
/// delivery and destination, on the resolved socket — is appended to the
/// sent log; a plumbing failure appends nothing.
pub open spec fn send_outcome(
    pre: SessionView,
    post: SessionView,
    addr: PeerAddress,
    payload: Seq<u8>,
    delivery: NetworkDelivery,
    explicit: Option<SocketHandle>,
    r: Result<(), NetworkError>,
) -> bool {
    &&& post.default_socket == pre.default_socket
    &&& post.bound_sockets == pre.bound_sockets
    &&& post.connections == pre.connections
    &&& post.instructed == pre.instructed
    &&& match r {
        Ok(()) => resolved_socket(pre, explicit) matches Some(h) && pre.bound_sockets.contains(h)
            && post.sent == pre.sent.push(
            (OutboundRecord { destination: addr, payload, delivery, socket: h }),
        ),
        Err(e) => match e {
            NetworkError::NoDefaultSocket => explicit is None && pre.default_socket is None
                && post.sent == pre.sent,
            NetworkError::NoSocket(h) => resolved_socket(pre, explicit) == Some(h)
                && !pre.bound_sockets.contains(h) && post.sent == pre.sent,
            NetworkError::InternalError(k) => post.sent == pre.sent && (resolved_socket(
                pre,
                explicit,
            ) matches Some(h) && pre.bound_sockets.contains(h)) && (k matches
            InternalErrorKind::MutexLockError || k matches InternalErrorKind::SendMessageError(_)),
            _ => false,
        },
    }
}

/// What a broadcast returns and does to the facade's state. Resolution
/// failures are exact, as for a send. On success the sent log grows by
/// exactly one record per connection of the resolved socket's snapshot, in
/// snapshot order; a plumbing failure mid-way leaves the log extended by a
/// prefix of those records.
pub open spec fn broadcast_outcome(
    pre: SessionView,
    post: SessionView,
    payload: Seq<u8>,
    delivery: NetworkDelivery,
    explicit: Option<SocketHandle>,
    r: Result<(), NetworkError>,
) -> bool {
    &&& post.default_socket == pre.default_socket
    &&& post.bound_sockets == pre.bound_sockets
    &&& post.connections == pre.connections
    &&& post.instructed == pre.instructed
    &&& match r {
        Ok(()) => resolved_socket(pre, explicit) matches Some(h) && pre.bound_sockets.contains(h)
            && post.sent == pre.sent + broadcast_records(
            pre.connections.filter(|c: Connection| c.socket == h),
            payload,
            delivery,
            h,
        ),
        Err(e) => match e {
            NetworkError::NoDefaultSocket => explicit is None && pre.default_socket is None
                && post.sent == pre.sent,
            NetworkError::NoSocket(h) => resolved_socket(pre, explicit) == Some(h)
                && !pre.bound_sockets.contains(h) && post.sent == pre.sent,
            NetworkError::InternalError(k) => (k matches InternalErrorKind::MutexLockError || k
                matches InternalErrorKind::SendMessageError(_)) && (resolved_socket(pre, explicit)
                matches Some(h) && pre.bound_sockets.contains(h) && pre.sent.len()
                <= post.sent.len() && post.sent.len() - pre.sent.len() <= pre.connections.filter(
                |c: Connection| c.socket == h,
            ).len() && post.sent == pre.sent + broadcast_records(
                pre.connections.filter(|c: Connection| c.socket == h),
                payload,
                delivery,
                h,
            ).take(post.sent.len() - pre.sent.len())),
            _ => false,
        },
    }
}

/// Whether an event is a connection-lifecycle report.
pub open spec fn is_lifecycle_event(e: NetworkEvent) -> bool {
    e matches NetworkEvent::Connected(_) || e matches NetworkEvent::Disconnected(_)
}

/// The connections a drained backlog newly establishes: one entry per
/// distinct connection that has a `Connected` report in the backlog and is
/// not already known, in first-report order.
pub open spec fn pending_additions(conns: Seq<Connection>, raw: Seq<NetworkEvent>) -> Seq<
    Connection,
>
    decreases raw.len(),
{
    if raw.len() == 0 {
        Seq::empty()
    } else {
        let prev = pending_additions(conns, raw.drop_last());
        match raw.last() {
            NetworkEvent::Connected(c) => if !conns.contains(c) && !prev.contains(c) {
                prev.push(c)
            } else {
                prev
            },
            _ => prev,
        }
    }
}

/// The connections a drained backlog tears down: one entry per distinct
/// known connection with a `Disconnected` report in the backlog, in
/// first-report order.
pub open spec fn pending_removals(conns: Seq<Connection>, raw: Seq<NetworkEvent>) -> Seq<
    Connection,
>
    decreases raw.len(),
{
    if raw.len() == 0 {
        Seq::empty()
    } else {
        let prev = pending_removals(conns, raw.drop_last());
        match raw.last() {
            NetworkEvent::Disconnected(c) => if conns.contains(c) && !prev.contains(c) {
                prev.push(c)
            } else {
                prev
            },
            _ => prev,
        }
    }
}

/// The non-lifecycle events of a backlog (messages and send errors), in
/// order.
pub open spec fn passthrough_events(raw: Seq<NetworkEvent>) -> Seq<NetworkEvent> {
    raw.filter(|e: NetworkEvent| !is_lifecycle_event(e))
}

/// The connection set after a list of removals is applied in order.
pub open spec fn without_connections(conns: Seq<Connection>, removals: Seq<Connection>) -> Seq<
    Connection,
>
    decreases removals.len(),
{
    if removals.len() == 0 {
        conns
    } else {
        without_connections(
            remove_conn_spec(conns, removals[0]),
            removals.subrange(1, removals.len() as int),
        )
    }
}

/// What one pump over a drained backlog does: messages and send errors pass
/// straight through in order; then each newly established connection is
/// recorded and re-emitted as one `Connected`; then each torn-down
/// connection is forgotten and re-emitted as one `Disconnected`.
pub open spec fn pump_outcome(
    pre: Seq<Connection>,
    post: Seq<Connection>,
    raw: Seq<NetworkEvent>,
    out: Seq<NetworkEvent>,
) -> bool {
    &&& post == without_connections(
        pre + pending_additions(pre, raw),
        pending_removals(pre, raw),
    )
    &&& out == passthrough_events(raw) + pending_additions(pre, raw).map_values(
        |c: Connection| NetworkEvent::Connected(c),
    ) + pending_removals(pre, raw).map_values(|c: Connection| NetworkEvent::Disconnected(c))
}

/// The candidate handle at an offset from a starting identity.
pub(crate) open spec fn candidate_handle(start: u128, j: int) -> SocketHandle {
    SocketHandle(((start as int) + j) as u128)
}

/// A sequence of distinct values that are all drawn from a pool is no
/// longer than the pool.
proof fn lemma_distinct_bounded(cands: Seq<u128>, pool: Seq<u128>)
    requires
        cands.no_duplicates(),
        forall|j: int| 0 <= j < cands.len() ==> pool.contains(#[trigger] cands[j]),
    ensures
        cands.len() <= pool.len(),
    decreases cands.len(),
{
    if cands.len() > 0 {
        let c = cands.last();
        assert(pool.contains(c));
        let k = choose|k: int| 0 <= k < pool.len() && pool[k] == c;
        let pool2 = pool.remove(k);
        pool.remove_ensures(k);
        let cands2 = cands.drop_last();
        assert(cands2.no_duplicates()) by {
            assert(forall|a: int| 0 <= a < cands2.len() ==> cands2[a] == cands[a]);
        }
        assert forall|j: int| 0 <= j < cands2.len() implies pool2.contains(
            #[trigger] cands2[j],
        ) by {
            let v = cands2[j];
            assert(v == cands[j]);
            assert(v != c);
            assert(pool.contains(v));
            let k2 = choose|k2: int| 0 <= k2 < pool.len() && pool[k2] == v;
            if k2 < k {
                assert(pool2[k2] == v);
            } else {
                assert(pool2[k2 - 1] == v);
            }
        }
        lemma_distinct_bounded(cands2, pool2);
    }
}

/// The session facade. Callers hold this object; the matching
/// [`NetworkWorker`] half owns the live sockets. All cross-thread work is
/// enqueued on the channel triad and never blocks on the worker's progress.
#[verifier::reject_recursive_types(S)]
pub struct NetworkResource<S> {
    default_socket: Option<SocketHandle>,
    bound_sockets: Vec<SocketHandle>,
    connections: Vec<Connection>,
    event_rx: std::sync::Mutex<crossbeam_channel::Receiver<NetworkEvent>>,
    message_tx: std::sync::Mutex<crossbeam_channel::Sender<Message>>,
    instruction_tx: std::sync::Mutex<crossbeam_channel::Sender<WorkerInstruction<S>>>,
    sent: Ghost<Seq<OutboundRecord>>,
    instructed: Ghost<Seq<InstructionRecord>>,
}

impl<S> View for NetworkResource<S> {
    type V = SessionView;

    closed spec fn view(&self) -> SessionView {
        SessionView {
            default_socket: self.default_socket,
            bound_sockets: self.bound_sockets@,
            connections: self.connections@,
            sent: self.sent@,
            instructed: self.instructed@,
        }
    }
}

/// Create a connected facade/worker pair around a fresh channel triad: no
/// socket bound, no default socket, no connections, nothing sent, nothing
/// instructed.
pub fn create_session<S>() -> (r: (NetworkResource<S>, NetworkWorker<S>))
    ensures
        r.0.wf(),
        r.0@.default_socket is None,
        r.0@.bound_sockets.len() == 0,
        r.0@.connections.len() == 0,
        r.0@.sent.len() == 0,
        r.0@.instructed.len() == 0,
        r.1.wf(),
        r.1.handles().len() == 0,
        r.1.polled().len() == 0,
        r.1.forwarded().len() == 0,
        r.1.emitted().len() == 0,
{
    let (event_tx, event_rx) = channel::<NetworkEvent>();
    let (message_tx, message_rx) = channel::<Message>();
    let (instruction_tx, instruction_rx) = channel::<WorkerInstruction<S>>();
    let worker = NetworkWorker::assemble(instruction_rx, message_rx, event_tx);
    let resource = NetworkResource {
        default_socket: None,
        bound_sockets: Vec::new(),
        connections: Vec::new(),
        event_rx: new_lock(event_rx),
        message_tx: new_lock(message_tx),
        instruction_tx: new_lock(instruction_tx),
        sent: Ghost(Seq::empty()),
        instructed: Ghost(Seq::empty()),
    };
    (resource, worker)
}

impl<S> NetworkResource<S> {
    /// The facade's state is well-formed; see [`SessionView::wf`].
    pub open spec fn wf(&self) -> bool {
        self@.wf()
    }

    /// The default socket: the handle of the first successful bind, if any.
    pub fn default_socket(&self) -> (r: Option<SocketHandle>)
        ensures
            r == self@.default_socket,
    {
        self.default_socket
    }

    /// The bound socket handles, in bind order.
    pub fn bound_sockets(&self) -> (r: &Vec<SocketHandle>)
        ensures
            r@ == self@.bound_sockets,
    {
        &self.bound_sockets
    }

    /// The known connections, in arrival order.
    pub fn connections(&self) -> (r: &Vec<Connection>)
        ensures
            r@ == self@.connections,
    {
        &self.connections
    }

    /// The known connections on one socket, in arrival order.
    pub fn connections_for_socket(&self, socket: SocketHandle) -> (r: Vec<Connection>)
        ensures
            r@ == self@.connections.filter(|c: Connection| c.socket == socket),
    {
        let mut result: Vec<Connection> = Vec::new();
        let n: usize = self.connections.len();
        let mut i: usize = 0;
        while i < n
            invariant
                i <= n,
                n == self@.connections.len(),
                result@ == self@.connections.take(i as int).filter(
                    |c: Connection| c.socket == socket,
                ),
            decreases n - i,
        {
            let c = self.connections[i];
            proof {
                reveal(Seq::filter);
                let pred = |x: Connection| x.socket == socket;
                assert(self@.connections.take(i as int + 1).drop_last() =~= self@.connections.take(
                    i as int,
                ));
                assert(self@.connections.take(i as int + 1).last() == c);
                assert(self@.connections.take(i as int + 1).filter(pred) == (if c.socket == socket {
                    self@.connections.take(i as int).filter(pred).push(c)
                } else {
                    self@.connections.take(i as int).filter(pred)
                }));
            }
            if c.socket == socket {
                result.push(c);
            }
            i = i + 1;
        }
        proof {
            assert(self@.connections.take(n as int) =~= self@.connections);
        }
        result
    }

    /// Whether a connection is known.
    pub fn has_connection(&self, connection: Connection) -> (r: bool)
        ensures
            r == self@.connections.contains(connection),
    {
        vec_contains_connection(&self.connections, connection)
    }

    /// Record a connection. Adding one that is already known changes
    /// nothing, so the call is idempotent.
    pub fn add_connection(&mut self, connection: Connection)
        ensures
            final(self)@.connections == add_conn_spec(old(self)@.connections, connection),
            same_but_connections(old(self)@, final(self)@),
            old(self).wf() ==> final(self).wf(),
    {
        if self.has_connection(connection) {
            return;
        }
        self.connections.push(connection);
        proof {
            assert(self@.connections =~= old(self)@.connections.push(connection));
            if old(self).wf() {
                let post = self@.connections;
                assert forall|i: int, j: int|
                    0 <= i < post.len() && 0 <= j < post.len() && i != j implies post[i]
                    != post[j] by {
                    if i < post.len() - 1 && j < post.len() - 1 {
                    } else {
                        assert(!old(self)@.connections.contains(connection));
                    }
                }
            }
        }
    }

    /// Forget a connection. Removing one that is not known changes nothing.
    pub fn remove_connection(&mut self, connection: Connection)
        requires
            old(self).wf(),
        ensures
            final(self)@.connections == remove_conn_spec(old(self)@.connections, connection),
            same_but_connections(old(self)@, final(self)@),
            final(self).wf(),
    {
        let n: usize = self.connections.len();
        let mut i: usize = 0;
        while i < n
            invariant
                i <= n,
                self@ == old(self)@,
                self.wf(),
                n == self@.connections.len(),
                forall|j: int| 0 <= j < i ==> self@.connections[j] != connection,
            decreases n - i,
        {
            if self.connections[i] == connection {
                proof {
                    let conns = self@.connections;
                    conns.index_of_first_ensures(connection);
                    assert(conns.contains(connection));
                    let k = conns.index_of_first(connection)->Some_0;
                    assert(conns[k] == connection);
                    assert(k == i as int) by {
                        if k < i as int {
                            assert(conns[k] != connection);
                        }
                        if k > i as int {
                            assert(conns[i as int] != connection);
                        }
                    }
                }
                self.connections.remove(i);
                proof {
                    let pre = old(self)@.connections;
                    let post = self@.connections;
                    pre.remove_ensures(i as int);
                    assert(post == remove_conn_spec(pre, connection));
                    assert forall|p: int, q: int|
                        0 <= p < post.len() && 0 <= q < post.len() && p != q implies post[p]
                        != post[q] by {
                        if p < i as int {
                            assert(post[p] == pre[p]);
                        } else {
                            assert(post[p] == pre[p + 1]);
                        }
                        if q < i as int {
                            assert(post[q] == pre[q]);
                        } else {
                            assert(post[q] == pre[q + 1]);
                        }
                    }
                }
                return;
            }
            i = i + 1;
        }
        proof {
            let conns = self@.connections;
            assert(!conns.contains(connection));
            conns.index_of_first_ensures(connection);
            assert(conns.index_of_first(connection) is None);
        }
    }

    /// Resolve which socket an operation acts on: the explicit handle if one
    /// is given, else the default socket. Fails with `NoDefaultSocket` when
    /// neither names a socket, and with `NoSocket` when the named handle is
    /// not bound.
    fn get_socket_or_default(&self, socket: Option<SocketHandle>) -> (r: Result<
        SocketHandle,
        NetworkError,
    >)
        ensures
            match r {
                Ok(h) => resolved_socket(self@, socket) == Some(h) && self@.bound_sockets.contains(
                    h,
                ),
                Err(e) => match e {
                    NetworkError::NoDefaultSocket => socket is None && self@.default_socket
                        is None,
                    NetworkError::NoSocket(h) => resolved_socket(self@, socket) == Some(h)
                        && !self@.bound_sockets.contains(h),
                    _ => false,
                },
            },
    {
        let chosen: Option<SocketHandle> = match socket {
            Some(h) => Some(h),
            None => self.default_socket,
        };
        match chosen {
            None => Err(NetworkError::NoDefaultSocket),
            Some(h) => {
                if vec_contains_handle(&self.bound_sockets, h) {
                    Ok(h)
                } else {
                    Err(NetworkError::NoSocket(h))
                }
            },
        }
    }

    /// Ask the facade to stop its worker: enqueue a `Terminate` instruction,
    /// recorded on the instruction log exactly when the hand-over succeeds.
    /// The worker observes it at the start of its next iteration and exits
    /// without touching the messages still queued.
    pub fn shutdown(&mut self) -> (r: Result<(), NetworkError>)
        ensures
            final(self)@.default_socket == old(self)@.default_socket,
            final(self)@.bound_sockets == old(self)@.bound_sockets,
            final(self)@.connections == old(self)@.connections,
            final(self)@.sent == old(self)@.sent,
            old(self).wf() ==> final(self).wf(),
            match r {
                Ok(()) => final(self)@.instructed == old(self)@.instructed.push(
                    InstructionRecord::Terminate,
                ),
                Err(e) => final(self)@.instructed == old(self)@.instructed && (e matches
                    NetworkError::InternalError(k) && (k matches
                    InternalErrorKind::MutexLockError || k matches
                    InternalErrorKind::SendWorkerInstructionsError(_))),
            },
    {
        let send_result: Result<(), String>;
        {
            let guard = match lock_or_fail(&self.instruction_tx) {
                Some(g) => g,
                None => {
                    return Err(NetworkError::InternalError(InternalErrorKind::MutexLockError));
                },
            };
            send_result = chan_send(guard_ref(&guard), WorkerInstruction::Terminate);
        }
        match send_result {
            Ok(()) => {
                self.instructed = Ghost(self.instructed@.push(InstructionRecord::Terminate));
                Ok(())
            },
            Err(text) => Err(
                NetworkError::InternalError(InternalErrorKind::SendWorkerInstructionsError(text)),
            ),
        }
    }

    /// Enqueue one payload for the worker, addressed to `addr` on the
    /// default socket.
    pub fn send(&mut self, addr: PeerAddress, message: &[u8], delivery: NetworkDelivery) -> (r:
        Result<(), NetworkError>)
        requires
            old(self).wf(),
        ensures
            final(self).wf(),
            send_outcome(old(self)@, final(self)@, addr, message@, delivery, None, r),
    {
        self.send_with_config(addr, message, delivery, SendConfig::default())
    }

    /// Enqueue one payload for the worker, addressed to `addr` on the
    /// socket the options name (else the default socket).
    pub fn send_with_config(
        &mut self,
        addr: PeerAddress,
        message: &[u8],
        delivery: NetworkDelivery,
        config: SendConfig,
    ) -> (r: Result<(), NetworkError>)
        requires
            old(self).wf(),
        ensures
            final(self).wf(),
            send_outcome(old(self)@, final(self)@, addr, message@, delivery, config.socket, r),
    {
        let socket = match self.get_socket_or_default(config.socket) {
            Ok(h) => h,
            Err(e) => {
                return Err(e);
            },
        };
        let msg = Message {
            destination: addr,
            delivery,
            socket_handle: socket,
            message: bytes_copy(message),
        };
        let ghost record = msg.record();
        let send_result: Result<(), String>;
        {
            let guard = match lock_or_fail(&self.message_tx) {
                Some(g) => g,
                None => {
                    return Err(NetworkError::InternalError(InternalErrorKind::MutexLockError));
                },
            };
            send_result = chan_send(guard_ref(&guard), msg);
        }
        match send_result {
            Err(text) => Err(
                NetworkError::InternalError(InternalErrorKind::SendMessageError(text)),
            ),
            Ok(()) => {
                proof {
                    assert(record == (OutboundRecord {
                        destination: addr,
                        payload: message@,
                        delivery,
                        socket,
                    }));
                }
                self.sent = Ghost(self.sent@.push(record));
                Ok(())
            },
        }
    }

    /// Enqueue one payload per connection currently known on the default
    /// socket. Connections recorded after the snapshot is taken are not
    /// included.
    pub fn broadcast(&mut self, message: &[u8], delivery: NetworkDelivery) -> (r: Result<
        (),
        NetworkError,
    >)
        requires
            old(self).wf(),
        ensures
            final(self).wf(),
            broadcast_outcome(old(self)@, final(self)@, message@, delivery, None, r),
    {
        self.broadcast_with_config(message, delivery, SendConfig::default())
    }

    /// Enqueue one payload per connection currently known on the socket the
    /// options name (else the default socket). Connections recorded after
    /// the snapshot is taken are not included.
    pub fn broadcast_with_config(
        &mut self,
        message: &[u8],
        delivery: NetworkDelivery,
        config: SendConfig,
    ) -> (r: Result<(), NetworkError>)
        requires
            old(self).wf(),
        ensures
            final(self).wf(),
            broadcast_outcome(old(self)@, final(self)@, message@, delivery, config.socket, r),
    {
        let socket = match self.get_socket_or_default(config.socket) {
            Ok(h) => h,
            Err(e) => {
                return Err(e);
            },
        };
        let broadcast_to = self.connections_for_socket(socket);
        let ghost records = broadcast_records(broadcast_to@, message@, delivery, socket);
        let n: usize = broadcast_to.len();
        let mut i: usize = 0;
        while i < n
            invariant
                i <= n,
                n == broadcast_to@.len(),
                self.wf(),
                broadcast_to@ == old(self)@.connections.filter(
                    |c: Connection| c.socket == socket,
                ),
                records == broadcast_records(broadcast_to@, message@, delivery, socket),
                old(self)@.bound_sockets.contains(socket),
                resolved_socket(old(self)@, config.socket) == Some(socket),
                self@.default_socket == old(self)@.default_socket,
                self@.bound_sockets == old(self)@.bound_sockets,
                self@.connections == old(self)@.connections,
                self@.instructed == old(self)@.instructed,
                self@.sent == old(self)@.sent + records.take(i as int),
            decreases n - i,
        {
            let conn = broadcast_to[i];
            let msg = Message {
                destination: conn.addr,
                delivery,
                socket_handle: socket,
                message: bytes_copy(message),
            };
            let ghost record = msg.record();
            let send_result: Result<(), String>;
            {
                let guard = match lock_or_fail(&self.message_tx) {
                    Some(g) => g,
                    None => {
                        return Err(
                            NetworkError::InternalError(InternalErrorKind::MutexLockError),
                        );
                    },
                };
                send_result = chan_send(guard_ref(&guard), msg);
            }
            match send_result {
                Err(text) => {
                    return Err(
                        NetworkError::InternalError(InternalErrorKind::SendMessageError(text)),
                    );
                },
                Ok(()) => {
                    proof {
                        assert(records.take(i as int + 1) =~= records.take(i as int).push(record));
                    }
                    self.sent = Ghost(self.sent@.push(record));
                },
            }
            i = i + 1;
        }
        proof {
            assert(records.take(n as int) =~= records);
        }
        Ok(())
    }

    /// Drain the worker's event queue completely and republish it as a
    /// clean stream: see [`pump_outcome`] for the exact relation between the
    /// drained backlog, the connection set, and the returned events. Invoke
    /// once per host tick. If the lock guarding the queue was poisoned by an
    /// earlier panic on this path, the queue's contents are salvaged and the
    /// pump proceeds (degraded but alive) rather than failing.
    pub fn pump(&mut self) -> (out: Vec<NetworkEvent>)
        requires
            old(self).wf(),
        ensures
            final(self).wf(),
            same_but_connections(old(self)@, final(self)@),
            exists|raw: Seq<NetworkEvent>|
                pump_outcome(old(self)@.connections, final(self)@.connections, raw, out@),
    {
        let mut raw: Vec<NetworkEvent> = Vec::new();
        {
            let guard = lock_salvage(&self.event_rx);
            let mut budget: usize = usize::MAX;
            while budget > 0
                decreases budget,
            {
                budget = budget - 1;
                match chan_try_recv(guard_ref(&guard)) {
                    Some(e) => raw.push(e),
                    None => {
                        break;
                    },
                }
            }
        }
        let ghost raw_view = raw@;
        let out = self.pump_events(raw);
        proof {
            assert(pump_outcome(old(self)@.connections, self@.connections, raw_view, out@));
        }
        out
    }

    /// Apply one drained backlog of raw worker events to the facade, and
    /// return the caller-visible stream: messages and send errors pass
    /// through in order, then exactly one `Connected` per newly established
    /// connection and one `Disconnected` per torn-down connection are
    /// applied and re-emitted, however many duplicate raw reports the
    /// backlog held.
    pub fn pump_events(&mut self, raw: Vec<NetworkEvent>) -> (out: Vec<NetworkEvent>)
        requires
            old(self).wf(),
        ensures
            final(self).wf(),
            same_but_connections(old(self)@, final(self)@),
            pump_outcome(old(self)@.connections, final(self)@.connections, raw@, out@),
    {
        let ghost pre_conns = self@.connections;
        let mut added: Vec<Connection> = Vec::new();
        let mut removed: Vec<Connection> = Vec::new();
        let mut out: Vec<NetworkEvent> = Vec::new();
        let mut remaining = raw;
        let ghost mut done: int = 0;
        while remaining.len() > 0
            invariant
                self@ == old(self)@,
                self.wf(),
                pre_conns == old(self)@.connections,
                0 <= done <= raw@.len(),
                remaining@ == raw@.subrange(done, raw@.len() as int),
                added@ == pending_additions(pre_conns, raw@.take(done)),
                removed@ == pending_removals(pre_conns, raw@.take(done)),
                out@ == passthrough_events(raw@.take(done)),
            decreases remaining@.len(),
        {
            let e = remaining.remove(0);
            proof {
                reveal(Seq::filter);
                assert(e == raw@[done]);
                assert(remaining@ =~= raw@.subrange(done + 1, raw@.len() as int));
                assert(raw@.take(done + 1).drop_last() =~= raw@.take(done));
                assert(raw@.take(done + 1).last() == raw@[done]);
                assert(passthrough_events(raw@.take(done + 1)) == (if is_lifecycle_event(
                    raw@[done],
                ) {
                    passthrough_events(raw@.take(done))
                } else {
                    passthrough_events(raw@.take(done)).push(raw@[done])
                }));
            }
            match &e {
                NetworkEvent::Connected(c) => {
                    let known = self.has_connection(*c);
                    let pending = vec_contains_connection(&added, *c);
                    if !known && !pending {
                        added.push(*c);
                    }
                },
                NetworkEvent::Disconnected(c) => {
                    let known = self.has_connection(*c);
                    let pending = vec_contains_connection(&removed, *c);
                    if known && !pending {
                        removed.push(*c);
                    }
                },
                _ => {
                    out.push(e);
                },
            }
            proof {
                done = done + 1;
            }
        }
        proof {
            assert(done == raw@.len());
            assert(raw@.take(done) =~= raw@);
            lemma_pending_additions_props(pre_conns, raw@);
            lemma_pending_removals_props(pre_conns, raw@);
        }
        let ghost adds = pending_additions(pre_conns, raw@);
        let ghost rems = pending_removals(pre_conns, raw@);
        let m: usize = added.len();
        let mut i: usize = 0;
        while i < m
            invariant
                i <= m,
                m == added@.len(),
                added@ == adds,
                removed@ == rems,
                adds == pending_additions(pre_conns, raw@),
                rems == pending_removals(pre_conns, raw@),
                pre_conns == old(self)@.connections,
                adds.no_duplicates(),
                forall|c: Connection| #[trigger] adds.contains(c) ==> !pre_conns.contains(c),
                same_but_connections(old(self)@, self@),
                self@.connections == pre_conns + adds.take(i as int),
                self.wf(),
                out@ == passthrough_events(raw@) + adds.take(i as int).map_values(
                    |c: Connection| NetworkEvent::Connected(c),
                ),
            decreases m - i,
        {
            let c = added[i];
            proof {
                assert(adds[i as int] == c);
                assert(adds.contains(c));
                let cur = pre_conns + adds.take(i as int);
                assert(!cur.contains(c)) by {
                    if cur.contains(c) {
                        let j = choose|j: int| 0 <= j < cur.len() && cur[j] == c;
                        if j < pre_conns.len() {
                            assert(pre_conns[j] == c);
                            assert(pre_conns.contains(c));
                        } else {
                            assert(adds.take(i as int)[j - pre_conns.len()] == c);
                            assert(adds[j - pre_conns.len()] == c);
                        }
                    }
                }
            }
            self.add_connection(c);
            out.push(NetworkEvent::Connected(c));
            proof {
                assert(self@.connections =~= pre_conns + adds.take(i as int + 1));
                assert(adds.take(i as int + 1).map_values(
                    |x: Connection| NetworkEvent::Connected(x),
                ) =~= adds.take(i as int).map_values(
                    |x: Connection| NetworkEvent::Connected(x),
                ).push(NetworkEvent::Connected(c)));
                assert(out@ =~= passthrough_events(raw@) + adds.take(i as int + 1).map_values(
                    |x: Connection| NetworkEvent::Connected(x),
                ));
            }
            i = i + 1;
        }
        proof {
            assert(adds.take(m as int) =~= adds);
        }
        let ghost mid_conns = self@.connections;
        let m2: usize = removed.len();
        proof {
            assert(rems.subrange(0, m2 as int) =~= rems);
        }
        let mut j: usize = 0;
        while j < m2
            invariant
                j <= m2,
                m2 == removed@.len(),
                removed@ == rems,
                rems == pending_removals(pre_conns, raw@),
                adds == pending_additions(pre_conns, raw@),
                pre_conns == old(self)@.connections,
                mid_conns == pre_conns + adds,
                same_but_connections(old(self)@, self@),
                self.wf(),
                without_connections(self@.connections, rems.subrange(j as int, m2 as int))
                    == without_connections(mid_conns, rems),
                out@ == passthrough_events(raw@) + adds.map_values(
                    |x: Connection| NetworkEvent::Connected(x),
                ) + rems.take(j as int).map_values(|x: Connection| NetworkEvent::Disconnected(x)),
            decreases m2 - j,
        {
            let c = removed[j];
            proof {
                let tail = rems.subrange(j as int, m2 as int);
                assert(tail[0] == rems[j as int]);
                assert(tail.subrange(1, tail.len() as int) =~= rems.subrange(
                    j as int + 1,
                    m2 as int,
                ));
                assert(without_connections(self@.connections, tail) == without_connections(
                    remove_conn_spec(self@.connections, c),
                    rems.subrange(j as int + 1, m2 as int),
                ));
            }
            self.remove_connection(c);
            out.push(NetworkEvent::Disconnected(c));
            proof {
                assert(rems.take(j as int + 1).map_values(
                    |x: Connection| NetworkEvent::Disconnected(x),
                ) =~= rems.take(j as int).map_values(
                    |x: Connection| NetworkEvent::Disconnected(x),
                ).push(NetworkEvent::Disconnected(c)));
                assert(out@ =~= passthrough_events(raw@) + adds.map_values(
                    |x: Connection| NetworkEvent::Connected(x),
                ) + rems.take(j as int + 1).map_values(
                    |x: Connection| NetworkEvent::Disconnected(x),
                ));
            }
            j = j + 1;
        }
        proof {
            assert(rems.subrange(m2 as int, m2 as int) =~= Seq::<Connection>::empty());
            assert(without_connections(self@.connections, Seq::<Connection>::empty())
                == self@.connections);
            assert(rems.take(m2 as int) =~= rems);
        }
        out
    }
}

impl<S: TransportSocket> NetworkResource<S> {
    /// Bind a socket at `addr` with the default transport options, register
    /// it with the worker, and return its handle. The first successful bind
    /// also sets the default socket.
    pub fn bind(&mut self, addr: PeerAddress) -> (r: Result<SocketHandle, NetworkError>)
        requires
            old(self).wf(),
        ensures
            final(self).wf(),
            bind_outcome(old(self)@, final(self)@, r),
    {
        self.bind_with_transport(addr, Transport::Laminar(LaminarConfig::default()))
    }

    /// Bind a socket at `addr` with the given transport and options.
    pub fn bind_with_transport(&mut self, addr: PeerAddress, transport: Transport) -> (r: Result<
        SocketHandle,
        NetworkError,
    >)
        requires
            old(self).wf(),
        ensures
            final(self).wf(),
            bind_outcome(old(self)@, final(self)@, r),
    {
        match transport {
            Transport::Laminar(config) => self.bind_with_laminar(addr, config),
        }
    }

    /// Mint a handle that names no currently bound socket. A freshly drawn
    /// random identity is used as it is when it is fresh; on a collision the
    /// scan forward from it must find a free identity among `bound + 1`
    /// consecutive candidates.
    fn mint_fresh_handle(&self) -> (h: SocketHandle)
        ensures
            !self@.bound_sockets.contains(h),
    {
        let bits = mint_handle_bits();
        let n: usize = self.bound_sockets.len();
        let start: u128 = if bits <= u128::MAX - (n as u128) {
            bits
        } else {
            0
        };
        let mut i: usize = 0;
        while i < n
            invariant
                i <= n,
                n == self@.bound_sockets.len(),
                start <= u128::MAX - (n as u128),
                forall|j: int|
                    0 <= j < i ==> self@.bound_sockets.contains(
                        #[trigger] candidate_handle(start, j),
                    ),
            decreases n - i,
        {
            let candidate = SocketHandle(start + (i as u128));
            proof {
                assert(candidate == candidate_handle(start, i as int));
            }
            if !vec_contains_handle(&self.bound_sockets, candidate) {
                return candidate;
            }
            i = i + 1;
        }
        let last = SocketHandle(start + (n as u128));
        proof {
            assert(last == candidate_handle(start, n as int));
        }
        if !vec_contains_handle(&self.bound_sockets, last) {
            return last;
        }
        proof {
            let ids = self@.bound_sockets;
            let cands = Seq::new((n + 1) as nat, |j: int| ((start as int) + j) as u128);
            assert(cands.no_duplicates()) by {
                assert forall|a: int, b: int|
                    0 <= a < cands.len() && 0 <= b < cands.len() && a != b implies cands[a]
                    != cands[b] by {
                    assert(cands[a] == ((start as int) + a) as u128);
                    assert(cands[b] == ((start as int) + b) as u128);
                }
            }
            let pool = ids.map_values(|hh: SocketHandle| hh.0);
            assert forall|j: int| 0 <= j < cands.len() implies pool.contains(
                #[trigger] cands[j],
            ) by {
                assert(ids.contains(candidate_handle(start, j)));
                let idx = choose|idx: int|
                    0 <= idx < ids.len() && ids[idx] == candidate_handle(start, j);
                assert(pool[idx] == cands[j]);
            }
            lemma_distinct_bounded(cands, pool);
        }
        SocketHandle(0)
    }

    /// Mint a fresh handle, ask the transport engine to bind, hand the
    /// socket to the worker under an `AddSocket` instruction, and record the
    /// handle; the first success becomes the default socket.
    fn bind_with_laminar(&mut self, addr: PeerAddress, config: LaminarConfig) -> (r: Result<
        SocketHandle,
        NetworkError,
    >)
        requires
            old(self).wf(),
        ensures
            final(self).wf(),
            bind_outcome(old(self)@, final(self)@, r),
    {
        let handle = self.mint_fresh_handle();
        let socket = match S::bind(addr, config) {
            Ok(s) => s,
            Err(fault) => {
                return Err(NetworkError::from(fault));
            },
        };
        let send_result: Result<(), String>;
        {
            let guard = match lock_or_fail(&self.instruction_tx) {
                Some(g) => g,
                None => {
                    return Err(NetworkError::InternalError(InternalErrorKind::MutexLockError));
                },
            };
            send_result = chan_send(guard_ref(&guard), WorkerInstruction::AddSocket(handle, socket));
        }
        match send_result {
            Err(text) => {
                return Err(
                    NetworkError::InternalError(
                        InternalErrorKind::SendWorkerInstructionsError(text),
                    ),
                );
            },
            Ok(()) => {},
        }
        self.bound_sockets.push(handle);
        if self.default_socket.is_none() {
            self.default_socket = Some(handle);
        }
        self.instructed = Ghost(self.instructed@.push(InstructionRecord::AddSocket(handle)));
        proof {
            match old(self)@.default_socket {
                Some(d) => {
                    assert(old(self)@.bound_sockets[0] == d);
                    assert(old(self)@.bound_sockets.contains(d));
                },
                None => {},
            }
        }
        Ok(handle)
    }
}

/// A pump emits exactly one addition per newly established connection: the
/// pending additions hold no duplicates, and a connection is among them
/// precisely when it is not yet known and the backlog reports it connected —
/// however many times the backlog repeats that report.
pub proof fn lemma_pending_additions_props(conns: Seq<Connection>, raw: Seq<NetworkEvent>)
    ensures
        pending_additions(conns, raw).no_duplicates(),
        forall|c: Connection| #[trigger]
            pending_additions(conns, raw).contains(c) <==> (!conns.contains(c) && raw.contains(
                NetworkEvent::Connected(c),
            )),
    decreases raw.len(),
{
    if raw.len() == 0 {
    } else {
        let prefix = raw.drop_last();
        lemma_pending_additions_props(conns, prefix);
        let prev = pending_additions(conns, prefix);
        let cur = pending_additions(conns, raw);
        assert(forall|i: int| 0 <= i < prefix.len() ==> prefix[i] == raw[i]);
        assert forall|c: Connection| #[trigger] cur.contains(c) implies (!conns.contains(c)
            && raw.contains(NetworkEvent::Connected(c))) by {
            let i = choose|i: int| 0 <= i < cur.len() && cur[i] == c;
            if i < prev.len() {
                assert(prev[i] == c);
                assert(prev.contains(c));
                let k = choose|k: int|
                    0 <= k < prefix.len() && prefix[k] == NetworkEvent::Connected(c);
                assert(raw[k] == NetworkEvent::Connected(c));
            } else {
                assert(raw.last() == NetworkEvent::Connected(c));
                assert(raw[raw.len() - 1] == NetworkEvent::Connected(c));
            }
        }
        assert forall|c: Connection| (!conns.contains(c) && raw.contains(
            NetworkEvent::Connected(c),
        )) implies #[trigger] cur.contains(c) by {
            let k = choose|k: int| 0 <= k < raw.len() && raw[k] == NetworkEvent::Connected(c);
            if k < raw.len() - 1 {
                assert(prefix[k] == NetworkEvent::Connected(c));
                assert(prefix.contains(NetworkEvent::Connected(c)));
                assert(prev.contains(c));
                if prev.len() < cur.len() {
                    assert(forall|i: int| 0 <= i < prev.len() ==> cur[i] == prev[i]);
                    let i = choose|i: int| 0 <= i < prev.len() && prev[i] == c;
                    assert(cur[i] == c);
                } else {
                    assert(cur == prev);
                }
            } else {
                assert(raw.last() == NetworkEvent::Connected(c));
                if prev.contains(c) {
                    assert(cur == prev);
                } else {
                    assert(cur == prev.push(c));
                    assert(cur[cur.len() - 1] == c);
                }
            }
        }
        match raw.last() {
            NetworkEvent::Connected(c0) => {
                if !conns.contains(c0) && !prev.contains(c0) {
                    assert(cur == prev.push(c0));
                    assert forall|p: int, q: int|
                        0 <= p < cur.len() && 0 <= q < cur.len() && p != q implies cur[p]
                        != cur[q] by {
                        if p < prev.len() && q < prev.len() {
                        } else if p < prev.len() {
                            assert(cur[p] == prev[p]);
                            assert(prev.contains(prev[p]) && !prev.contains(c0));
                        } else {
                            assert(cur[q] == prev[q]);
                            assert(prev.contains(prev[q]) && !prev.contains(c0));
                        }
                    }
                }
            },
            _ => {},
        }
    }
}

/// A pump emits exactly one removal per torn-down connection: the pending
/// removals hold no duplicates, and a connection is among them precisely
/// when it is currently known and the backlog reports it disconnected —
/// however many times the backlog repeats that report.
pub proof fn lemma_pending_removals_props(conns: Seq<Connection>, raw: Seq<NetworkEvent>)
    ensures
        pending_removals(conns, raw).no_duplicates(),
        forall|c: Connection| #[trigger]
            pending_removals(conns, raw).contains(c) <==> (conns.contains(c) && raw.contains(
                NetworkEvent::Disconnected(c),
            )),
    decreases raw.len(),
{
    if raw.len() == 0 {
    } else {
        let prefix = raw.drop_last();
        lemma_pending_removals_props(conns, prefix);
        let prev = pending_removals(conns, prefix);
        let cur = pending_removals(conns, raw);
        assert(forall|i: int| 0 <= i < prefix.len() ==> prefix[i] == raw[i]);
        assert forall|c: Connection| #[trigger] cur.contains(c) implies (conns.contains(c)
            && raw.contains(NetworkEvent::Disconnected(c))) by {
            let i = choose|i: int| 0 <= i < cur.len() && cur[i] == c;
            if i < prev.len() {
                assert(prev[i] == c);
                assert(prev.contains(c));
                let k = choose|k: int|
                    0 <= k < prefix.len() && prefix[k] == NetworkEvent::Disconnected(c);
                assert(raw[k] == NetworkEvent::Disconnected(c));
            } else {
                assert(raw.last() == NetworkEvent::Disconnected(c));
                assert(raw[raw.len() - 1] == NetworkEvent::Disconnected(c));
            }
        }
        assert forall|c: Connection| (conns.contains(c) && raw.contains(
            NetworkEvent::Disconnected(c),
        )) implies #[trigger] cur.contains(c) by {
            let k = choose|k: int| 0 <= k < raw.len() && raw[k] == NetworkEvent::Disconnected(c);
            if k < raw.len() - 1 {
                assert(prefix[k] == NetworkEvent::Disconnected(c));
                assert(prefix.contains(NetworkEvent::Disconnected(c)));
                assert(prev.contains(c));
                if prev.len() < cur.len() {
                    assert(forall|i: int| 0 <= i < prev.len() ==> cur[i] == prev[i]);
                    let i = choose|i: int| 0 <= i < prev.len() && prev[i] == c;
                    assert(cur[i] == c);
                } else {
                    assert(cur == prev);
                }
            } else {
                assert(raw.last() == NetworkEvent::Disconnected(c));
                if prev.contains(c) {
                    assert(cur == prev);
                } else {
                    assert(cur == prev.push(c));
                    assert(cur[cur.len() - 1] == c);
                }
            }
        }
        match raw.last() {
            NetworkEvent::Disconnected(c0) => {
                if conns.contains(c0) && !prev.contains(c0) {
                    assert(cur == prev.push(c0));
                    assert forall|p: int, q: int|
                        0 <= p < cur.len() && 0 <= q < cur.len() && p != q implies cur[p]
                        != cur[q] by {
                        if p < prev.len() && q < prev.len() {
                        } else if p < prev.len() {
                            assert(cur[p] == prev[p]);
                            assert(prev.contains(prev[p]) && !prev.contains(c0));
                        } else {
                            assert(cur[q] == prev[q]);
                            assert(prev.contains(prev[q]) && !prev.contains(c0));
                        }
                    }
                }
            },
            _ => {},
        }
    }
}

/// Adding a connection is idempotent: adding the same connection twice
/// leaves exactly the state that adding it once leaves, in length and in
/// order.
pub proof fn lemma_add_connection_idempotent(conns: Seq<Connection>, c: Connection)
    ensures
        add_conn_spec(add_conn_spec(conns, c), c) == add_conn_spec(conns, c),
{
    if !conns.contains(c) {
        assert(conns.push(c)[conns.len() as int] == c);
        assert(conns.push(c).contains(c));
    }
}

/// Removing an absent connection changes nothing.
pub proof fn lemma_remove_connection_absent(conns: Seq<Connection>, c: Connection)
    requires
        !conns.contains(c),
    ensures
        remove_conn_spec(conns, c) == conns,
{
    conns.index_of_first_ensures(c);
}

/// The first successful bind is the default socket, and every well-formed
/// state keeps it so: as long as any socket is bound, the default is the
/// handle of the earliest bind.
pub proof fn lemma_first_bind_is_default(v: SessionView)
    requires
        v.wf(),
        v.bound_sockets.len() > 0,
    ensures
        v.default_socket == Some(v.bound_sockets[0]),
{
}

/// A broadcast stands for exactly one outbound record per connection of the
/// snapshot, in snapshot order, each carrying the broadcast's payload,
/// delivery mode and socket, addressed to that connection's peer.
pub proof fn lemma_broadcast_one_record_per_connection(
    snapshot: Seq<Connection>,
    payload: Seq<u8>,
    delivery: NetworkDelivery,
    socket: SocketHandle,
)
    ensures
        broadcast_records(snapshot, payload, delivery, socket).len() == snapshot.len(),
        forall|i: int|
            0 <= i < snapshot.len() ==> #[trigger] broadcast_records(
                snapshot,
                payload,
                delivery,
                socket,
            )[i] == (OutboundRecord {
                destination: snapshot[i].addr,
                payload,
                delivery,
                socket,
            }),
{
}

} // verus!
