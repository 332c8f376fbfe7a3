[package]
name = "session_pool"
version = "0.1.0"
edition = "2021"
publish = false

[dependencies]
rand = { version = "0.8", features = ["small_rng"] }
num_cpus = "1"
tokio-postgres = "0.7"
tokio = { version = "1", features = ["rt", "net", "io-util"] }
futures-util = "0.3"
