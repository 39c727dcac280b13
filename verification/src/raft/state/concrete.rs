pub mod candidate;
pub mod follower;
pub mod leader;
pub mod offline;
