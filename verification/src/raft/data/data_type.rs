use vstd::prelude::*;

verus! {

/// What a log entry can carry as a command.
pub trait CommandType: Copy {}

impl<T: Copy> CommandType for T {}

/// What a state machine answers when asked for its value.
pub trait OutputType {}

impl<T> OutputType for T {}

} // verus!
