use vstd::prelude::*;

use crate::raft::log_entry::LogEntry;

verus! {

/// A message between servers, in the sender's term.
#[derive(Copy, Clone, Debug, PartialEq, Eq)]
pub struct RaftRequest<DataType> {
    pub term: u32,
    pub sender: u32,
    pub request: RequestType<DataType>,
}

/// What a message asks or answers.
#[derive(Copy, Clone, Debug, PartialEq, Eq)]
pub enum RequestType<DataType> {
    /// A leader's request to put `entry` (if any) after the first `prev_length` entries,
    /// the last of which is of term `prev_term`, and its commit index.
    Append {
        prev_length: usize,
        prev_term: u32,
        commit_index: usize,
        entry: Option<LogEntry<DataType>>,
    },
    AppendResponse { success: bool },
    Vote { log_length: usize, log_term: u32 },
    VoteResponse { vote: bool },
}

} // verus!
