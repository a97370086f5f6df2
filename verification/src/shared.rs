//! State shared between a bus worker and the user code it calls: a value
//! behind `std::sync::Mutex`, and the cancellation token of a worker.

use vstd::prelude::*;

use std::sync::{Arc, Mutex};
use tokio_util::sync::CancellationToken;

verus! {

#[verifier::external_type_specification]
#[verifier::external_body]
#[verifier::reject_recursive_types(T)]
pub struct ExMutex<T: ?Sized>(Mutex<T>);

#[verifier::external_type_specification]
#[verifier::external_body]
pub struct ExCancellationToken(CancellationToken);

/// Calls `Mutex::new`: a lock around `value`, which nothing here can look into.
#[verifier::external_body]
fn new_mutex<S>(value: S) -> Mutex<S> {
    Mutex::new(value)
}

/// `value` behind a lock, ready to be shared.
pub fn share<S>(value: S) -> Arc<Mutex<S>> {
    Arc::new(new_mutex(value))
}

/// Calls `Mutex::try_lock`, which never blocks, and clones the value inside;
/// `None` when the lock is held elsewhere (by this thread too) or a panic
/// poisoned it. What the value is depends on the code that shares the lock,
/// so nothing is stated of it.
#[verifier::external_body]
pub(crate) fn read_shared<S: Clone>(shared: &Mutex<S>) -> Option<S> {
    match shared.try_lock() {
        Ok(guard) => Some(guard.clone()),
        Err(_) => None,
    }
}

/// Calls `CancellationToken::new`.
#[verifier::external_body]
pub(crate) fn new_token() -> CancellationToken {
    CancellationToken::new()
}

/// Calls `CancellationToken::cancel`.
#[verifier::external_body]
pub(crate) fn cancel_token(token: &CancellationToken) {
    token.cancel()
}

} // verus!
