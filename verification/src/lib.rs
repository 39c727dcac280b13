pub mod dinner_party;
pub mod dinner_party_async;
pub mod raft;
mod random;
