use vstd::prelude::*;

use std::sync::Arc;

verus! {

#[verifier::external_type_specification]
#[verifier::external_body]
#[verifier::reject_recursive_types(T)]
pub struct ExMutex<T: ?Sized>(std::sync::Mutex<T>);

/// A new, unlocked `std::sync::Mutex` around `value` (`std::sync::Mutex::new`). A mutex
/// is opaque here: nothing is said of it.
#[verifier::external_body]
pub(crate) fn new_mutex<T>(value: T) -> std::sync::Mutex<T> {
    std::sync::Mutex::new(value)
}

/// A fork on the table; a philosopher eats while holding two.
#[derive(Debug, PartialEq, Eq)]
pub struct Fork {}

impl Fork {
    /// A new fork behind its own lock, to be shared between two neighbours.
    pub fn new() -> Arc<std::sync::Mutex<Self>> {
        Arc::new(new_mutex(Fork {}))
    }
}

} // verus!
