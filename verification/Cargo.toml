[package]
name = "raft_async"
version = "0.1.0"
edition = "2021"
publish = false

[dependencies]
rand = "0.8"
async-std = "1"
futures = "0.3"
