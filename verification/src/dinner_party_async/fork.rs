use vstd::prelude::*;

use std::sync::Arc;

verus! {

#[verifier::external_type_specification]
#[verifier::external_body]
#[verifier::reject_recursive_types(T)]
pub struct ExAsyncMutex<T: ?Sized>(futures::lock::Mutex<T>);

/// A new, unlocked `futures::lock::Mutex` around `value` (`futures::lock::Mutex::new`).
/// A mutex is opaque here: nothing is said of it.
#[verifier::external_body]
pub(crate) fn new_async_mutex<T>(value: T) -> futures::lock::Mutex<T> {
    futures::lock::Mutex::new(value)
}

/// A fork on the table; a philosopher eats while holding two.
#[derive(Debug, PartialEq, Eq)]
pub struct Fork {}

impl Fork {
    /// A new fork behind its own asynchronous lock, to be shared between two neighbours.
    pub fn new() -> Arc<futures::lock::Mutex<Self>> {
        Arc::new(new_async_mutex(Fork {}))
    }
}

} // verus!
