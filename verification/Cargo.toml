[package]
name = "rs_events"
version = "0.1.0"
edition = "2021"
publish = false

[dependencies]
dashmap = "6"
futures = "0.3"
tokio = { version = "1", features = ["rt", "rt-multi-thread"] }
