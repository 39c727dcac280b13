pub mod concrete;
pub mod raft_state;
pub mod state;
