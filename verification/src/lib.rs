//! A thread-safe session layer over an unreliable datagram transport.
//!
//! Callers bind logical endpoints, send or broadcast payloads with a chosen
//! delivery guarantee, and observe connection lifecycle and inbound-message
//! events. The packet-level reliability protocol is delegated to a transport
//! engine behind the [`TransportSocket`] trait; a single background worker
//! (driven by [`NetworkWorker::step`]) exclusively owns the live sockets,
//! while callers talk to it only through three one-way channels.

mod channels;
mod decimal;
mod error;
mod payload;
mod session;
mod transport;
mod types;
mod worker;

pub use decimal::{decimal_digits, u128_to_string};
pub use error::{InternalErrorKind, NetworkError, TransportFault};
pub use payload::bytes_data;
pub use session::{
    add_conn_spec, bind_outcome, broadcast_outcome, broadcast_records, create_session,
    is_lifecycle_event, lemma_add_connection_idempotent,
    lemma_broadcast_one_record_per_connection, lemma_first_bind_is_default,
    lemma_pending_additions_props, lemma_pending_removals_props, lemma_remove_connection_absent,
    passthrough_events, pending_additions, pending_removals, pump_outcome, remove_conn_spec,
    resolved_socket, same_but_connections, send_outcome, without_connections, NetworkResource,
    SessionView,
};
pub use transport::{LaminarConfig, Transport, TransportEvent, TransportSocket};
pub use types::{
    Connection, InstructionRecord, NetworkDelivery, NetworkEvent, OutboundRecord, PeerAddress,
    SendConfig, SocketHandle,
};
pub use worker::{
    add_entry_spec, apply_instructions, apply_instructions_spec, forwarded_to_registered,
    handles_of, lemma_handles_of_update, send_error_events, step_outcome, translate_event,
    translated_batch, translated_event, NetworkWorker, TrackedSockets, WorkerInstruction,
};
