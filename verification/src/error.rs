//! The session's error taxonomy: unknown or missing sockets, bind-time I/O
//! failures, and internal plumbing failures (locks, channels, transport).

use vstd::prelude::*;
use vstd::string::StringExecFns;

use crate::decimal::{decimal_digits, u128_to_string};
use crate::types::SocketHandle;

verus! {

/// A failure reported by a transport engine behind [`crate::TransportSocket`]:
/// either an I/O failure or any other transport-layer failure, each described
/// in text.
#[derive(Debug)]
pub enum TransportFault {
    Io(String),
    Other(String),
}

/// An error returned by a session operation.
#[derive(Debug)]
pub enum NetworkError {
    /// The operation referenced a handle no bound socket is registered for.
    NoSocket(SocketHandle),
    /// No socket has been bound yet and no explicit handle was supplied.
    NoDefaultSocket,
    /// A plumbing failure: a poisoned lock, a closed channel, or an
    /// unclassified transport-layer error.
    InternalError(InternalErrorKind),
    /// A bind-time transport I/O failure, surfaced directly to the caller.
    IOError(String),
}

/// The kinds of internal plumbing failure.
#[derive(Debug)]
pub enum InternalErrorKind {
    /// A lock guarding a channel handle could not be acquired.
    MutexLockError,
    /// An instruction could not be sent to the worker thread.
    SendWorkerInstructionsError(String),
    /// An outbound message could not be sent to the worker thread.
    SendMessageError(String),
    /// An unclassified transport-layer failure.
    LaminarError(String),
}

impl From<TransportFault> for NetworkError {
    /// An I/O fault surfaces directly; any other transport fault is wrapped
    /// as an internal error.
    fn from(fault: TransportFault) -> (r: NetworkError) {
        match fault {
            TransportFault::Io(text) => NetworkError::IOError(text),
            TransportFault::Other(text) => NetworkError::InternalError(
                InternalErrorKind::LaminarError(text),
            ),
        }
    }
}

impl vstd::std_specs::convert::FromSpecImpl<TransportFault> for NetworkError {
    open spec fn obeys_from_spec() -> bool {
        true
    }

    open spec fn from_spec(fault: TransportFault) -> NetworkError {
        match fault {
            TransportFault::Io(text) => NetworkError::IOError(text),
            TransportFault::Other(text) => NetworkError::InternalError(
                InternalErrorKind::LaminarError(text),
            ),
        }
    }
}

impl InternalErrorKind {
    /// The text [`Self::describe`] returns.
    pub open spec fn describe_spec(&self) -> Seq<char> {
        match self {
            InternalErrorKind::MutexLockError => "A lock could not be acquired."@,
            InternalErrorKind::SendWorkerInstructionsError(e) =>
                "A worker instruction could not be sent to the worker thread ("@ + e@ + ")"@,
            InternalErrorKind::SendMessageError(e) =>
                "A message could not be sent to the worker thread ("@ + e@ + ")"@,
            InternalErrorKind::LaminarError(e) =>
                "An unexpected laminar error occurred ("@ + e@ + ")"@,
        }
    }

    /// A human-readable description of the failure.
    pub fn describe(&self) -> (r: String)
        ensures
            r@ == self.describe_spec(),
    {
        match self {
            InternalErrorKind::MutexLockError => String::from_str(
                "A lock could not be acquired.",
            ),
            InternalErrorKind::SendWorkerInstructionsError(e) => String::from_str(
                "A worker instruction could not be sent to the worker thread (",
            ).concat(e.as_str()).concat(")"),
            InternalErrorKind::SendMessageError(e) => String::from_str(
                "A message could not be sent to the worker thread (",
            ).concat(e.as_str()).concat(")"),
            InternalErrorKind::LaminarError(e) => String::from_str(
                "An unexpected laminar error occurred (",
            ).concat(e.as_str()).concat(")"),
        }
    }
}

impl NetworkError {
    /// The text [`Self::describe`] returns.
    pub open spec fn describe_spec(&self) -> Seq<char> {
        match self {
            NetworkError::NoSocket(h) => "No socket is currently bound for the handle "@
                + decimal_digits(h.id() as nat),
            NetworkError::NoDefaultSocket => "No default socket is bound."@,
            NetworkError::IOError(e) => "An IO error occurred: "@ + e@,
            NetworkError::InternalError(e) =>
                "An internal error occurred: "@ + e.describe_spec(),
        }
    }

    /// A human-readable description of the error.
    pub fn describe(&self) -> (r: String)
        ensures
            r@ == self.describe_spec(),
    {
        match self {
            NetworkError::NoSocket(h) => String::from_str(
                "No socket is currently bound for the handle ",
            ).concat(u128_to_string(h.id_bits()).as_str()),
            NetworkError::NoDefaultSocket => String::from_str("No default socket is bound."),
            NetworkError::IOError(e) => String::from_str("An IO error occurred: ").concat(
                e.as_str(),
            ),
            NetworkError::InternalError(e) => String::from_str(
                "An internal error occurred: ",
            ).concat(e.describe().as_str()),
        }
    }
}

} // verus!
