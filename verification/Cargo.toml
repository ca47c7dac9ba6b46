[package]
name = "flexc"
version = "0.1.0"
edition = "2021"
publish = false

[dependencies]
crossbeam-queue = "0.3"
tokio = { version = "1", features = ["sync", "time", "rt-multi-thread", "macros"] }
