pub mod client;
pub mod cluster;
pub mod raft_cluster;
pub mod switch;
