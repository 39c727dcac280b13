pub mod data;
pub mod laws;
pub mod log_entry;
pub mod machine;
pub mod raft_request;
pub mod raft_server;
pub mod server;
pub mod state;
