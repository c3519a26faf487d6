[package]
name = "tokio_block_on_deadlock"
version = "0.1.0"
edition = "2021"
publish = false

[dependencies]
futures = "0.3"
tokio = { version = "1", features = ["rt-multi-thread", "sync", "macros"] }
