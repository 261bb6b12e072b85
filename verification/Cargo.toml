[package]
name = "ox_shared"
version = "0.1.0"
edition = "2021"
publish = false

[dependencies]
dashmap = "6"
crossbeam-channel = "0.5"
smallvec = "1"
parking_lot = "0.12"
tokio = { version = "1", default-features = false, features = ["sync"] }
libc = "0.2"
