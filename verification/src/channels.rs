//! The channel triad's trusted boundary. The three one-way queues between
//! the session facade and the worker are crossbeam channels; the facade's
//! endpoint handles sit behind `std::sync::Mutex`es. Both types are opaque
//! to the verifier, so each call the session logic makes is wrapped here
//! with the little its documentation plainly promises.

use vstd::prelude::*;

verus! {

#[verifier::external_type_specification]
#[verifier::external_body]
#[verifier::reject_recursive_types(T)]
pub struct ExSender<T>(crossbeam_channel::Sender<T>);

#[verifier::external_type_specification]
#[verifier::external_body]
#[verifier::reject_recursive_types(T)]
pub struct ExReceiver<T>(crossbeam_channel::Receiver<T>);

#[verifier::external_type_specification]
#[verifier::external_body]
#[verifier::reject_recursive_types(T)]
pub struct ExMutex<T: ?Sized>(std::sync::Mutex<T>);

#[verifier::external_type_specification]
#[verifier::external_body]
#[verifier::reject_recursive_types(T)]
pub struct ExMutexGuard<'a, T: ?Sized + 'a>(std::sync::MutexGuard<'a, T>);

/// Relies on `crossbeam_channel::unbounded`: a connected sender/receiver
/// pair for a fresh queue of unbounded capacity.
#[verifier::external_body]
pub(crate) fn channel<T>() -> (crossbeam_channel::Sender<T>, crossbeam_channel::Receiver<T>) {
    crossbeam_channel::unbounded()
}

/// Relies on `std::sync::Mutex::new`.
#[verifier::external_body]
pub(crate) fn new_lock<T>(value: T) -> std::sync::Mutex<T> {
    std::sync::Mutex::new(value)
}

/// Relies on `std::sync::Mutex::lock`: `Some` carries the guard; `None`
/// means another holder panicked and the lock is poisoned.
#[verifier::external_body]
pub(crate) fn lock_or_fail<'a, T>(
    mutex: &'a std::sync::Mutex<T>,
) -> Option<std::sync::MutexGuard<'a, T>> {
    match mutex.lock() {
        Ok(guard) => Some(guard),
        Err(_) => None,
    }
}

/// Relies on `std::sync::Mutex::lock` and `PoisonError::into_inner`: the
/// guard is handed out even when the lock is poisoned, so a consumer can
/// salvage the value behind it rather than fail.
#[verifier::external_body]
pub(crate) fn lock_salvage<'a, T>(
    mutex: &'a std::sync::Mutex<T>,
) -> std::sync::MutexGuard<'a, T> {
    match mutex.lock() {
        Ok(guard) => guard,
        Err(poisoned) => poisoned.into_inner(),
    }
}

/// Relies on `std::sync::MutexGuard`'s `Deref`: a borrow of the value the
/// guard protects.
#[verifier::external_body]
pub(crate) fn guard_ref<'a, 'b, T>(guard: &'a std::sync::MutexGuard<'b, T>) -> &'a T {
    &**guard
}

/// Relies on `crossbeam_channel::Sender::send`: on an unbounded channel the
/// call does not block; it fails only when the channel is disconnected, and
/// the error's text describes the failure.
#[verifier::external_body]
pub(crate) fn chan_send<T>(tx: &crossbeam_channel::Sender<T>, value: T) -> Result<(), String> {
    match tx.send(value) {
        Ok(()) => Ok(()),
        Err(e) => Err(format!("{}", e)),
    }
}

/// Relies on `crossbeam_channel::Receiver::try_recv`: `Some` carries one
/// received value; `None` means the channel is currently empty or
/// disconnected. The call does not block.
#[verifier::external_body]
pub(crate) fn chan_try_recv<T>(rx: &crossbeam_channel::Receiver<T>) -> Option<T> {
    match rx.try_recv() {
        Ok(value) => Some(value),
        Err(_) => None,
    }
}

} // verus!
