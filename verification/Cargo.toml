[package]
name = "mc_server_wrapper"
version = "0.1.0"
edition = "2021"
publish = false

[dependencies]
log = "0.4"
notify = "4"
tokio = { version = "1", features = ["fs", "io-util", "macros", "rt", "rt-multi-thread", "sync", "time"] }
