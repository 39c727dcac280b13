use vstd::prelude::*;

verus! {

/// An entry of the log: the term in which it was added, and what it holds.
#[derive(Clone, Copy, Debug, PartialEq, Eq, Default)]
pub struct LogEntry<T> {
    pub term: u32,
    pub entry: T,
}

} // verus!
