use vstd::prelude::*;

use crate::random::gen_range;

verus! {

/// A guest at the table.
#[derive(Debug, PartialEq, Eq)]
pub struct Philosopher {
    name: String,
}

impl Philosopher {
    pub closed spec fn name(&self) -> Seq<char> {
        self.name@
    }

    pub fn new(name: String) -> (r: Self)
        ensures
            r.name() == name@,
    {
        Self { name }
    }

    /// The philosopher's name.
    pub fn to_string(&self) -> (r: String)
        ensures
            r@ == self.name(),
    {
        self.name.clone()
    }
}

/// The longest a philosopher waits, in milliseconds, before trying again after
/// `attempts` failed attempts: 128 doubled `attempts` times.
pub open spec fn backoff_bound(attempts: u32) -> u64 {
    (128u64 << attempts) as u64
}

/// How long a philosopher who failed `attempts` times to get both forks waits before
/// trying again: a random number of milliseconds from 10 up to `backoff_bound(attempts)`.
pub fn backoff_millis(attempts: u32) -> (r: u64)
    requires
        attempts <= 56,
    ensures
        10 <= r < backoff_bound(attempts),
{
    assert(attempts <= 56 ==> (128u64 << attempts) >= 128u64) by (bit_vector);
    gen_range(10, 128u64 << attempts)
}

/// How long a philosopher holds the left fork before reaching for the right one.
pub const LEFT_HOLD_MILLIS: u64 = 1000;

/// How long a philosopher eats.
pub const EATING_MILLIS: u64 = 1000;

impl Philosopher {
    /// What a philosopher who holds the left fork and has failed `attempts` times
    /// before does after trying the right one: `None` when it got it (it eats and is
    /// done), and otherwise the new count of failures and how many milliseconds to
    /// wait before trying again.
    pub fn after_right(&self, got_right: bool, attempts: u32) -> (r: Option<(u32, u64)>)
        requires
            !got_right ==> attempts < 56,
        ensures
            got_right ==> r is None,
            !got_right ==> (r matches Some((n, ms)) && n == attempts + 1 && 10 <= ms
                < backoff_bound(n)),
    {
        if got_right {
            None
        } else {
            let attempts = attempts + 1;
            Some((attempts, backoff_millis(attempts)))
        }
    }
}

} // verus!
