//! The worker side of the session: the socket registry, the facade→worker
//! instruction plane, and one iteration of the background worker loop. The
//! worker exclusively owns the live sockets; callers reach it only through
//! the channel triad.

use vstd::prelude::*;

use crate::channels::{chan_send, chan_try_recv};
use crate::error::{InternalErrorKind, NetworkError};
use crate::payload::{bytes_data, bytes_copy, bytes_to_vec};
use crate::transport::{TransportEvent, TransportSocket};
use crate::types::{Connection, Message, NetworkEvent, OutboundRecord, SocketHandle};

verus! {

/// A control-plane instruction from the facade to the worker, kept separate
/// from the message data plane to avoid head-of-line blocking.
pub enum WorkerInstruction<S> {
    /// Register a freshly bound socket under its handle.
    AddSocket(SocketHandle, S),
    /// End the worker loop after the current iteration.
    Terminate,
}

/// The handles of a registry entry sequence, in order.
pub open spec fn handles_of<S>(entries: Seq<(SocketHandle, S)>) -> Seq<SocketHandle> {
    entries.map_values(|e: (SocketHandle, S)| e.0)
}

/// What adding one socket does to the registry: a colliding handle leaves
/// the registry unchanged (the earlier socket wins), otherwise the entry is
/// appended.
pub open spec fn add_entry_spec<S>(
    entries: Seq<(SocketHandle, S)>,
    handle: SocketHandle,
    socket: S,
) -> Seq<(SocketHandle, S)> {
    if handles_of(entries).contains(handle) {
        entries
    } else {
        entries.push((handle, socket))
    }
}

/// What a drained batch of instructions does to the registry: additions are
/// applied in order until the first `Terminate`, which stops processing and
/// asks the worker to exit.
pub open spec fn apply_instructions_spec<S>(
    entries: Seq<(SocketHandle, S)>,
    instructions: Seq<WorkerInstruction<S>>,
) -> (Seq<(SocketHandle, S)>, bool)
    decreases instructions.len(),
{
    if instructions.len() == 0 {
        (entries, false)
    } else {
        match instructions[0] {
            WorkerInstruction::Terminate => (entries, true),
            WorkerInstruction::AddSocket(handle, socket) => apply_instructions_spec(
                add_entry_spec(entries, handle, socket),
                instructions.subrange(1, instructions.len() as int),
            ),
        }
    }
}

/// The socket registry: the worker-owned mapping from handle to live socket.
/// Handles are never duplicated; a colliding `add` keeps the earlier socket.
pub struct TrackedSockets<S> {
    sockets: Vec<(SocketHandle, S)>,
}

impl<S> TrackedSockets<S> {
    /// The registry's entries, in insertion order.
    pub closed spec fn entries(&self) -> Seq<(SocketHandle, S)> {
        self.sockets@
    }

    /// The registered handles, in insertion order.
    pub open spec fn handles(&self) -> Seq<SocketHandle> {
        handles_of(self.entries())
    }

    /// Whether a handle is registered.
    pub open spec fn spec_has(&self, handle: SocketHandle) -> bool {
        self.handles().contains(handle)
    }

    /// No two entries share a handle.
    pub open spec fn wf(&self) -> bool {
        self.handles().no_duplicates()
    }

    /// An empty registry.
    pub fn new() -> (r: Self)
        ensures
            r.entries() == Seq::<(SocketHandle, S)>::empty(),
            r.wf(),
    {
        TrackedSockets { sockets: Vec::new() }
    }

    /// How many sockets are registered.
    pub fn len(&self) -> (r: usize)
        ensures
            r == self.entries().len(),
    {
        self.sockets.len()
    }

    /// The handle of the entry at an index.
    pub fn handle_at(&self, i: usize) -> (r: SocketHandle)
        requires
            i < self.entries().len(),
        ensures
            r == self.entries()[i as int].0,
    {
        self.sockets[i].0
    }

    /// Register a socket under its handle; a collision leaves the registry
    /// unchanged and drops the new socket.
    pub fn add_socket(&mut self, handle: SocketHandle, socket: S)
        ensures
            final(self).entries() == add_entry_spec(old(self).entries(), handle, socket),
            old(self).wf() ==> final(self).wf(),
    {
        if self.has_socket(handle) {
            return;
        }
        self.sockets.push((handle, socket));
        proof {
            assert(self.handles() =~= old(self).handles().push(handle));
        }
    }

    /// Whether a handle is registered.
    pub fn has_socket(&self, handle: SocketHandle) -> (r: bool)
        ensures
            r == self.spec_has(handle),
    {
        match self.find_index(handle) {
            Some(_) => true,
            None => false,
        }
    }

    /// The position of a handle's entry, if any.
    pub(crate) fn find_index(&self, handle: SocketHandle) -> (r: Option<usize>)
        ensures
            match r {
                Some(i) => i < self.entries().len() && self.entries()[i as int].0 == handle
                    && self.spec_has(handle),
                None => !self.spec_has(handle),
            },
    {
        let n: usize = self.sockets.len();
        let mut i: usize = 0;
        while i < n
            invariant
                i <= n,
                n == self.entries().len(),
                forall|j: int| 0 <= j < i ==> self.entries()[j].0 != handle,
            decreases n - i,
        {
            if self.sockets[i].0 == handle {
                proof {
                    assert(self.handles()[i as int] == handle);
                }
                return Some(i);
            }
            i = i + 1;
        }
        proof {
            assert(forall|j: int|
                0 <= j < self.handles().len() ==> self.handles()[j] != handle);
        }
        None
    }

    /// Borrow the socket registered under a handle, or report `NoSocket`.
    pub fn get_socket(&self, handle: SocketHandle) -> (r: Result<&S, NetworkError>)
        ensures
            match r {
                Ok(s) => self.spec_has(handle) && (exists|i: int|
                    0 <= i < self.entries().len() && self.entries()[i].0 == handle
                        && self.entries()[i].1 == *s),
                Err(e) => !self.spec_has(handle) && (e matches NetworkError::NoSocket(h)
                    && h == handle),
            },
    {
        match self.find_index(handle) {
            Some(i) => Ok(&self.sockets[i].1),
            None => Err(NetworkError::NoSocket(handle)),
        }
    }

    /// Mutably borrow the socket registered under a handle, or report
    /// `NoSocket`. The borrow refers to exactly the entry registered under
    /// that handle; whatever the caller does with it, the registry's handles
    /// stay as they were.
    pub fn get_socket_mut(&mut self, handle: SocketHandle) -> (r: Result<&mut S, NetworkError>)
        requires
            old(self).wf(),
        ensures
            final(self).wf(),
            final(self).handles() == old(self).handles(),
            match r {
                Ok(s) => old(self).spec_has(handle) && (exists|i: int|
                    0 <= i < old(self).entries().len() && old(self).entries()[i].0 == handle
                        && *s == old(self).entries()[i].1 && final(self).entries() == old(
                        self,
                    ).entries().update(i, (handle, *final(s)))),
                Err(e) => !old(self).spec_has(handle) && (e matches NetworkError::NoSocket(h)
                    && h == handle) && final(self).entries() == old(self).entries(),
            },
    {
        match self.find_index(handle) {
            Some(i) => {
                let ghost pre = self.entries();
                let s = self.socket_at(i);
                proof {
                    lemma_handles_of_update(pre, i as int, *final(s));
                }
                Ok(s)
            },
            None => Err(NetworkError::NoSocket(handle)),
        }
    }

    /// Mutably borrow the socket at an index; only that entry's socket can
    /// change, its handle stays.
    pub(crate) fn socket_at(&mut self, i: usize) -> (s: &mut S)
        requires
            i < old(self).entries().len(),
        ensures
            *s == old(self).entries()[i as int].1,
            final(self).entries() == old(self).entries().update(
                i as int,
                (old(self).entries()[i as int].0, *final(s)),
            ),
    {
        &mut self.sockets[i].1
    }
}

/// Replacing the socket of one entry leaves the registry's handles as they
/// were.
pub proof fn lemma_handles_of_update<S>(entries: Seq<(SocketHandle, S)>, i: int, socket: S)
    requires
        0 <= i < entries.len(),
    ensures
        handles_of(entries.update(i, (entries[i].0, socket))) == handles_of(entries),
{
    assert(handles_of(entries.update(i, (entries[i].0, socket))) =~= handles_of(entries));
}

/// Apply a drained batch of instructions to the registry, in order, stopping
/// at the first `Terminate`; the result says whether the worker must exit.
pub fn apply_instructions<S>(
    sockets: &mut TrackedSockets<S>,
    instructions: Vec<WorkerInstruction<S>>,
) -> (terminate: bool)
    requires
        old(sockets).wf(),
    ensures
        final(sockets).wf(),
        (final(sockets).entries(), terminate) == apply_instructions_spec(
            old(sockets).entries(),
            instructions@,
        ),
{
    let mut remaining = instructions;
    while remaining.len() > 0
        invariant
            sockets.wf(),
            apply_instructions_spec(old(sockets).entries(), instructions@)
                == apply_instructions_spec(sockets.entries(), remaining@),
        decreases remaining@.len(),
    {
        let ghost pre = remaining@;
        let instruction = remaining.remove(0);
        proof {
            assert(remaining@ == pre.subrange(1, pre.len() as int));
        }
        match instruction {
            WorkerInstruction::Terminate => {
                proof {
                    assert(apply_instructions_spec(sockets.entries(), pre) == (
                        sockets.entries(),
                        true,
                    ));
                }
                return true;
            }
            WorkerInstruction::AddSocket(handle, socket) => {
                proof {
                    assert(apply_instructions_spec(sockets.entries(), pre)
                        == apply_instructions_spec(
                        add_entry_spec(sockets.entries(), handle, socket),
                        pre.subrange(1, pre.len() as int),
                    ));
                }
                sockets.add_socket(handle, socket);
            }
        }
    }
    false
}

/// Whether `e` is the caller-visible translation of the transport report
/// `te` on the socket `handle`: a connect becomes `Connected`, a disconnect
/// or an idle timeout becomes `Disconnected`, and a packet becomes
/// `Message` carrying exactly the packet's payload, each tagged with the
/// owning socket's handle.
pub open spec fn translated_event(handle: SocketHandle, te: TransportEvent, e: NetworkEvent) -> bool {
    match te {
        TransportEvent::Connect(addr) => e == NetworkEvent::Connected(
            (Connection { addr, socket: handle }),
        ),
        TransportEvent::Disconnect(addr) => e == NetworkEvent::Disconnected(
            (Connection { addr, socket: handle }),
        ),
        TransportEvent::Timeout(addr) => e == NetworkEvent::Disconnected(
            (Connection { addr, socket: handle }),
        ),
        TransportEvent::Packet(addr, payload) => e matches NetworkEvent::Message(c, b) && c == (
        Connection { addr, socket: handle }) && bytes_data(b) == payload@,
    }
}

/// A batch of transport reports and their translations: the reports all
/// come from registered sockets, and each output event is the translation
/// of the report at the same position.
pub open spec fn translated_batch(
    handles: Seq<SocketHandle>,
    srcs: Seq<(SocketHandle, TransportEvent)>,
    tail: Seq<NetworkEvent>,
) -> bool {
    &&& tail.len() == srcs.len()
    &&& forall|k: int|
        0 <= k < srcs.len() ==> handles.contains((#[trigger] srcs[k]).0) && translated_event(
            srcs[k].0,
            srcs[k].1,
            tail[k],
        )
}

/// Every record of the batch targets a registered socket.
pub open spec fn forwarded_to_registered(
    handles: Seq<SocketHandle>,
    recs: Seq<OutboundRecord>,
) -> bool {
    forall|k: int| 0 <= k < recs.len() ==> handles.contains((#[trigger] recs[k]).socket)
}

/// The caller-visible events for a batch of send failures, in order.
pub open spec fn send_error_events(errs: Seq<NetworkError>) -> Seq<NetworkEvent> {
    errs.map_values(|e: NetworkError| NetworkEvent::SendError(e))
}

/// What one worker iteration does, as observed through the registry and the
/// worker's ghost logs, given the batch of instructions it drained: the
/// registry becomes exactly what applying the batch leaves; a drained
/// `Terminate` forces the iteration to report termination and to perform no
/// transport work at all — nothing polled, nothing forwarded, nothing
/// emitted; otherwise every registered socket's engine is polled exactly
/// once, in registry order.
pub open spec fn step_outcome<S>(
    pre_entries: Seq<(SocketHandle, S)>,
    pre_polled: Seq<SocketHandle>,
    pre_forwarded: Seq<OutboundRecord>,
    pre_emitted: Seq<NetworkEvent>,
    post_handles: Seq<SocketHandle>,
    post_polled: Seq<SocketHandle>,
    post_forwarded: Seq<OutboundRecord>,
    post_emitted: Seq<NetworkEvent>,
    terminated: bool,
    ins: Seq<WorkerInstruction<S>>,
) -> bool {
    let applied = apply_instructions_spec(pre_entries, ins);
    &&& post_handles == handles_of(applied.0)
    &&& (applied.1 ==> terminated && post_polled == pre_polled && post_forwarded == pre_forwarded
        && post_emitted == pre_emitted)
    &&& (!applied.1 ==> post_polled == pre_polled + handles_of(applied.0))
}

/// Translate one transport-level report for a socket into the event the
/// session's caller sees; see [`translated_event`] for the exact mapping.
pub fn translate_event(handle: SocketHandle, event: TransportEvent) -> (r: NetworkEvent)
    ensures
        translated_event(handle, event, r),
{
    match event {
        TransportEvent::Connect(addr) => NetworkEvent::Connected(
            Connection { addr, socket: handle },
        ),
        TransportEvent::Disconnect(addr) => NetworkEvent::Disconnected(
            Connection { addr, socket: handle },
        ),
        TransportEvent::Timeout(addr) => NetworkEvent::Disconnected(
            Connection { addr, socket: handle },
        ),
        TransportEvent::Packet(addr, payload) => NetworkEvent::Message(
            Connection { addr, socket: handle },
            bytes_copy(payload.as_slice()),
        ),
    }
}

/// The worker-owned half of a session: the registry plus the worker's ends
/// of the channel triad, with ghost logs of everything the worker does at
/// its boundaries: which sockets were handed to their engine's poll, which
/// outbound payloads were handed to an engine's send, and which events were
/// handed back to the callers.
#[verifier::reject_recursive_types(S)]
pub struct NetworkWorker<S> {
    sockets: TrackedSockets<S>,
    instruction_rx: crossbeam_channel::Receiver<WorkerInstruction<S>>,
    message_rx: crossbeam_channel::Receiver<Message>,
    event_tx: crossbeam_channel::Sender<NetworkEvent>,
    polled_log: Ghost<Seq<SocketHandle>>,
    forwarded_log: Ghost<Seq<OutboundRecord>>,
    emitted_log: Ghost<Seq<NetworkEvent>>,
}

impl<S> NetworkWorker<S> {
    /// The registered handles, in insertion order.
    pub closed spec fn handles(&self) -> Seq<SocketHandle> {
        self.sockets.handles()
    }

    /// The registry never holds two sockets under one handle.
    pub closed spec fn wf(&self) -> bool {
        self.sockets.wf()
    }

    /// The registry's entries, in insertion order.
    pub closed spec fn entries(&self) -> Seq<(SocketHandle, S)> {
        self.sockets.entries()
    }

    /// The handle of every socket handed to its engine's poll so far, one
    /// entry per call, in call order.
    pub closed spec fn polled(&self) -> Seq<SocketHandle> {
        self.polled_log@
    }

    /// The ghost record of every outbound payload handed to a socket's
    /// engine so far, in hand-over order.
    pub closed spec fn forwarded(&self) -> Seq<OutboundRecord> {
        self.forwarded_log@
    }

    /// Every event handed back to the callers on the event channel so far,
    /// in emission order.
    pub closed spec fn emitted(&self) -> Seq<NetworkEvent> {
        self.emitted_log@
    }

    /// The registry the worker owns.
    pub fn sockets(&self) -> (r: &TrackedSockets<S>)
        ensures
            r.entries() == self.entries(),
    {
        &self.sockets
    }

    /// Assemble the worker's half around its channel endpoints, with an
    /// empty registry and empty logs.
    pub(crate) fn assemble(
        instruction_rx: crossbeam_channel::Receiver<WorkerInstruction<S>>,
        message_rx: crossbeam_channel::Receiver<Message>,
        event_tx: crossbeam_channel::Sender<NetworkEvent>,
    ) -> (r: Self)
        ensures
            r.wf(),
            r.handles().len() == 0,
            r.polled().len() == 0,
            r.forwarded().len() == 0,
            r.emitted().len() == 0,
    {
        NetworkWorker {
            sockets: TrackedSockets::new(),
            instruction_rx,
            message_rx,
            event_tx,
            polled_log: Ghost(Seq::empty()),
            forwarded_log: Ghost(Seq::empty()),
            emitted_log: Ghost(Seq::empty()),
        }
    }

    /// Hand one event back to the callers; the emission log grows by
    /// exactly that event when the channel accepted it, and not otherwise.
    fn emit_event(&mut self, e: NetworkEvent) -> (ok: bool)
        ensures
            final(self).entries() == old(self).entries(),
            final(self).handles() == old(self).handles(),
            final(self).polled() == old(self).polled(),
            final(self).forwarded() == old(self).forwarded(),
            ok ==> final(self).emitted() == old(self).emitted().push(e),
            !ok ==> final(self).emitted() == old(self).emitted(),
    {
        let ghost ge = e;
        match chan_send(&self.event_tx, e) {
            Ok(()) => {
                self.emitted_log = Ghost(self.emitted_log@.push(ge));
                true
            },
            Err(_) => false,
        }
    }
}

impl<S: TransportSocket> NetworkWorker<S> {
    /// One iteration of the worker loop, in order: drain and apply pending
    /// instructions (a `Terminate` ends the loop before any transport work);
    /// let every socket's engine advance its timers; forward queued outbound
    /// messages; translate and forward each socket's pending transport
    /// events. The result says whether the worker must exit — after a
    /// `Terminate`, or once the event channel back to the callers is lost.
    /// The contract ties the registry, the poll log and the quiescence after
    /// a `Terminate` to the drained instruction batch, and pins every
    /// forwarded payload to a registered socket.
    pub fn step(&mut self) -> (terminated: bool)
        requires
            old(self).wf(),
        ensures
            final(self).wf(),
            exists|ins: Seq<WorkerInstruction<S>>|
                #[trigger] step_outcome(
                    old(self).entries(),
                    old(self).polled(),
                    old(self).forwarded(),
                    old(self).emitted(),
                    final(self).handles(),
                    final(self).polled(),
                    final(self).forwarded(),
                    final(self).emitted(),
                    terminated,
                    ins,
                ),
            exists|recs: Seq<OutboundRecord>|
                final(self).forwarded() == old(self).forwarded() + recs
                    && #[trigger] forwarded_to_registered(final(self).handles(), recs),
    {
        let mut instructions: Vec<WorkerInstruction<S>> = Vec::new();
        let mut budget: usize = usize::MAX;
        while budget > 0
            decreases budget,
        {
            budget = budget - 1;
            match chan_try_recv(&self.instruction_rx) {
                Some(instruction) => instructions.push(instruction),
                None => { break; }
            }
        }
        let ghost ins_view = instructions@;
        let terminated = apply_instructions(&mut self.sockets, instructions);
        let ghost applied = apply_instructions_spec(old(self).entries(), ins_view);
        proof {
            assert(self.handles() == handles_of(applied.0));
        }
        if terminated {
            proof {
                assert(step_outcome(
                    old(self).entries(),
                    old(self).polled(),
                    old(self).forwarded(),
                    old(self).emitted(),
                    self.handles(),
                    self.polled(),
                    self.forwarded(),
                    self.emitted(),
                    true,
                    ins_view,
                ));
                assert(self.forwarded() =~= old(self).forwarded()
                    + Seq::<OutboundRecord>::empty());
                assert(forwarded_to_registered(
                    self.handles(),
                    Seq::<OutboundRecord>::empty(),
                ));
            }
            return true;
        }
        self.poll_sockets();
        let ghost pre_forwarded = self.forwarded();
        let ghost pre_handles = self.handles();
        let fatal_outbound = self.forward_outbound();
        let ghost recs_witness = choose|recs: Seq<OutboundRecord>|
            self.forwarded() == pre_forwarded + recs && forwarded_to_registered(
                pre_handles,
                recs,
            );
        proof {
            assert(self.forwarded() == pre_forwarded + recs_witness && forwarded_to_registered(
                pre_handles,
                recs_witness,
            ));
            assert(step_outcome(
                old(self).entries(),
                old(self).polled(),
                old(self).forwarded(),
                old(self).emitted(),
                self.handles(),
                self.polled(),
                self.forwarded(),
                self.emitted(),
                fatal_outbound,
                ins_view,
            ));
        }
        if fatal_outbound {
            return true;
        }
        let fatal_inbound = self.forward_inbound();
        proof {
            assert(self.forwarded() == pre_forwarded + recs_witness);
            assert(step_outcome(
                old(self).entries(),
                old(self).polled(),
                old(self).forwarded(),
                old(self).emitted(),
                self.handles(),
                self.polled(),
                self.forwarded(),
                self.emitted(),
                fatal_inbound,
                ins_view,
            ));
        }
        if fatal_inbound {
            return true;
        }
        false
    }

    /// Let every registered socket's engine advance its internal timers:
    /// each socket is polled exactly once, in registry order, and nothing
    /// else happens.
    fn poll_sockets(&mut self)
        ensures
            final(self).handles() == old(self).handles(),
            final(self).forwarded() == old(self).forwarded(),
            final(self).emitted() == old(self).emitted(),
            final(self).polled() == old(self).polled() + old(self).handles(),
    {
        let n: usize = self.sockets.len();
        let mut i: usize = 0;
        proof {
            assert(self.polled() =~= old(self).polled() + old(self).handles().take(0));
        }
        while i < n
            invariant
                i <= n,
                n == self.sockets.entries().len(),
                self.handles() == old(self).handles(),
                self.forwarded() == old(self).forwarded(),
                self.emitted() == old(self).emitted(),
                self.polled() == old(self).polled() + old(self).handles().take(i as int),
            decreases n - i,
        {
            let handle = self.sockets.handle_at(i);
            proof {
                assert(self.handles()[i as int] == handle);
            }
            let ghost pre = self.sockets.entries();
            let s = self.sockets.socket_at(i);
            s.poll();
            proof {
                lemma_handles_of_update(pre, i as int, self.sockets.entries()[i as int].1);
            }
            self.polled_log = Ghost(self.polled_log@.push(handle));
            proof {
                assert(old(self).handles().take(i as int + 1) =~= old(self).handles().take(
                    i as int,
                ).push(handle));
                assert(self.polled() =~= old(self).polled() + old(self).handles().take(
                    i as int + 1,
                ));
            }
            i = i + 1;
        }
        proof {
            assert(old(self).handles().take(n as int) =~= old(self).handles());
        }
    }

    /// Decide what one dequeued outbound message does. A registered socket
    /// gets the payload handed to its engine under the message's own
    /// delivery mode, logged as exactly one forwarded record; an
    /// unregistered handle yields `NoSocket` and nothing is forwarded; an
    /// engine fault yields its converted error. The returned error, if any,
    /// is what the caller reports as a `SendError` event.
    fn dispatch_message(&mut self, msg: Message) -> (r: Option<NetworkError>)
        requires
            old(self).wf(),
        ensures
            final(self).wf(),
            final(self).handles() == old(self).handles(),
            final(self).polled() == old(self).polled(),
            final(self).emitted() == old(self).emitted(),
            old(self).handles().contains(msg.socket_handle) ==> final(self).forwarded() == old(
                self,
            ).forwarded().push(msg.record()) && (r matches Some(e) ==> (e matches
                NetworkError::IOError(_) || (e matches NetworkError::InternalError(k)
                && k matches InternalErrorKind::LaminarError(_)))),
            !old(self).handles().contains(msg.socket_handle) ==> final(self).forwarded() == old(
                self,
            ).forwarded() && r == Some(NetworkError::NoSocket(msg.socket_handle)),
    {
        let ghost rec = msg.record();
        match self.sockets.find_index(msg.socket_handle) {
            Some(i) => {
                let payload = bytes_to_vec(&msg.message);
                let ghost pre = self.sockets.entries();
                let s = self.sockets.socket_at(i);
                let sent = s.try_send(msg.destination, payload, msg.delivery);
                proof {
                    lemma_handles_of_update(pre, i as int, self.sockets.entries()[i as int].1);
                }
                self.forwarded_log = Ghost(self.forwarded_log@.push(rec));
                match sent {
                    Ok(()) => None,
                    Err(fault) => Some(NetworkError::from(fault)),
                }
            },
            None => Some(NetworkError::NoSocket(msg.socket_handle)),
        }
    }

    /// Drain the outbound message queue, dispatching each message in
    /// dequeue order: every payload handed to an engine is appended to the
    /// forwarded log (so per-socket hand-over order is the dequeue order)
    /// and targets a registered socket; each failed message becomes exactly
    /// one `SendError` event for the callers. The result is true only if
    /// such an event could no longer be delivered, which is fatal for the
    /// worker.
    fn forward_outbound(&mut self) -> (fatal: bool)
        requires
            old(self).wf(),
        ensures
            final(self).wf(),
            final(self).handles() == old(self).handles(),
            final(self).polled() == old(self).polled(),
            exists|recs: Seq<OutboundRecord>|
                final(self).forwarded() == old(self).forwarded() + recs
                    && #[trigger] forwarded_to_registered(old(self).handles(), recs),
            exists|errs: Seq<NetworkError>|
                final(self).emitted() == old(self).emitted() + #[trigger] send_error_events(
                    errs,
                ),
    {
        let ghost mut recs: Seq<OutboundRecord> = Seq::empty();
        let ghost mut errs: Seq<NetworkError> = Seq::empty();
        proof {
            assert(self.forwarded() =~= old(self).forwarded() + recs);
            assert(send_error_events(errs) =~= Seq::<NetworkEvent>::empty());
            assert(self.emitted() =~= old(self).emitted() + send_error_events(errs));
        }
        let mut budget: usize = usize::MAX;
        while budget > 0
            invariant
                self.wf(),
                self.handles() == old(self).handles(),
                self.polled() == old(self).polled(),
                self.forwarded() == old(self).forwarded() + recs,
                forwarded_to_registered(old(self).handles(), recs),
                self.emitted() == old(self).emitted() + send_error_events(errs),
            decreases budget,
        {
            budget = budget - 1;
            let next = chan_try_recv(&self.message_rx);
            match next {
                None => { break; }
                Some(msg) => {
                    let ghost rec = msg.record();
                    let ghost registered = self.handles().contains(msg.socket_handle);
                    let outcome = self.dispatch_message(msg);
                    proof {
                        if registered {
                            recs = recs.push(rec);
                            assert(forwarded_to_registered(old(self).handles(), recs));
                        }
                        assert(self.forwarded() =~= old(self).forwarded() + recs);
                    }
                    match outcome {
                        None => {}
                        Some(err) => {
                            let ghost ge = err;
                            if !self.emit_event(NetworkEvent::SendError(err)) {
                                return true;
                            }
                            proof {
                                errs = errs.push(ge);
                                assert(send_error_events(errs) =~= send_error_events(
                                    errs.drop_last(),
                                ).push(NetworkEvent::SendError(ge)));
                                assert(self.emitted() =~= old(self).emitted()
                                    + send_error_events(errs));
                            }
                        }
                    }
                }
            }
        }
        false
    }

    /// Drain every registered socket's pending transport events in registry
    /// order, preserving each socket's own report order: each report is
    /// translated (see [`translated_event`]) and handed to the callers
    /// exactly once, and no outbound transport work happens. The result is
    /// true only if the event channel back to the callers is lost, which is
    /// fatal for the worker.
    fn forward_inbound(&mut self) -> (fatal: bool)
        ensures
            final(self).handles() == old(self).handles(),
            final(self).polled() == old(self).polled(),
            final(self).forwarded() == old(self).forwarded(),
            exists|srcs: Seq<(SocketHandle, TransportEvent)>, tail: Seq<NetworkEvent>|
                final(self).emitted() == old(self).emitted() + tail
                    && #[trigger] translated_batch(old(self).handles(), srcs, tail),
    {
        let ghost mut srcs: Seq<(SocketHandle, TransportEvent)> = Seq::empty();
        let ghost mut tail: Seq<NetworkEvent> = Seq::empty();
        proof {
            assert(self.emitted() =~= old(self).emitted() + tail);
        }
        let n: usize = self.sockets.len();
        let mut i: usize = 0;
        while i < n
            invariant
                i <= n,
                n == self.sockets.entries().len(),
                self.handles() == old(self).handles(),
                self.polled() == old(self).polled(),
                self.forwarded() == old(self).forwarded(),
                self.emitted() == old(self).emitted() + tail,
                translated_batch(old(self).handles(), srcs, tail),
            decreases n - i,
        {
            let handle = self.sockets.handle_at(i);
            proof {
                assert(self.handles()[i as int] == handle);
                assert(old(self).handles().contains(handle));
            }
            let mut budget: usize = usize::MAX;
            while budget > 0
                invariant
                    i < n,
                    n == self.sockets.entries().len(),
                    self.handles() == old(self).handles(),
                    self.polled() == old(self).polled(),
                    self.forwarded() == old(self).forwarded(),
                    self.emitted() == old(self).emitted() + tail,
                    translated_batch(old(self).handles(), srcs, tail),
                    old(self).handles().contains(handle),
                decreases budget,
            {
                budget = budget - 1;
                let ghost pre = self.sockets.entries();
                let event = {
                    let s = self.sockets.socket_at(i);
                    s.try_recv()
                };
                proof {
                    lemma_handles_of_update(pre, i as int, self.sockets.entries()[i as int].1);
                }
                match event {
                    None => { break; }
                    Some(transport_event) => {
                        let ghost gte = transport_event;
                        let e = translate_event(handle, transport_event);
                        let ghost ge = e;
                        if !self.emit_event(e) {
                            return true;
                        }
                        proof {
                            srcs = srcs.push((handle, gte));
                            tail = tail.push(ge);
                            assert(self.emitted() =~= old(self).emitted() + tail);
                            assert(translated_batch(old(self).handles(), srcs, tail));
                        }
                    }
                }
            }
            i = i + 1;
        }
        false
    }
}

} // verus!
