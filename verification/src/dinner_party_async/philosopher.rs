use vstd::prelude::*;

use crate::random::gen_range;

verus! {

/// A guest at the table.
#[derive(Debug, PartialEq, Eq)]
pub struct Philosopher {
    name: String,
}

/// What a philosopher who tries to eat does next.
#[derive(Debug, PartialEq, Eq, Clone, Copy)]
pub enum EatStep {
    /// Both forks are held: eat, and be done.
    Eat,
    /// The left fork is held: wait this many milliseconds, then try the right one.
    WaitForRight(u64),
    /// A fork was missing: wait this many milliseconds, then try again from the left.
    Backoff(u64),
}

/// How long a philosopher holds the left fork before reaching for the right one.
pub const LEFT_HOLD_MILLIS: u64 = 100;

/// The longest a philosopher waits, in milliseconds, after `attempts` failed attempts:
/// 100 doubled `attempts` times.
pub open spec fn backoff_bound(attempts: u32) -> u64 {
    (100u64 << attempts) as u64
}

/// How long a philosopher who failed `attempts` times waits before trying again: a
/// random number of milliseconds from 10 up to `backoff_bound(attempts)`.
pub fn backoff_millis(attempts: u32) -> (r: u64)
    requires
        attempts <= 61,
    ensures
        10 <= r < backoff_bound(attempts),
{
    assert(attempts <= 61 ==> (100u64 << attempts) > 10u64) by (bit_vector);
    gen_range(10, 100u64 << attempts)
}

impl Philosopher {
    pub closed spec fn name(&self) -> Seq<char> {
        self.name@
    }

    pub fn new(name: String) -> (r: Self)
        ensures
            r.name() == name@,
    {
        Self { name }
    }

    /// The philosopher's name.
    pub fn to_string(&self) -> (r: String)
        ensures
            r@ == self.name(),
    {
        self.name.clone()
    }

    /// What to do after trying the left fork, having failed `attempts` times before.
    pub fn after_left(&self, got_left: bool, attempts: u32) -> (r: EatStep)
        requires
            !got_left ==> attempts <= 61,
        ensures
            got_left ==> r == EatStep::WaitForRight(LEFT_HOLD_MILLIS),
            !got_left ==> (r matches EatStep::Backoff(ms) && 10 <= ms < backoff_bound(attempts)),
    {
        if got_left {
            EatStep::WaitForRight(LEFT_HOLD_MILLIS)
        } else {
            EatStep::Backoff(backoff_millis(attempts))
        }
    }

    /// What to do after trying the right fork, holding the left one, having failed
    /// `attempts` times before.
    pub fn after_right(&self, got_right: bool, attempts: u32) -> (r: EatStep)
        requires
            !got_right ==> attempts <= 61,
        ensures
            got_right ==> r == EatStep::Eat,
            !got_right ==> (r matches EatStep::Backoff(ms) && 10 <= ms < backoff_bound(attempts)),
    {
        if got_right {
            EatStep::Eat
        } else {
            EatStep::Backoff(backoff_millis(attempts))
        }
    }
}

} // verus!
