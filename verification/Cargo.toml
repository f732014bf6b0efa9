[package]
name = "work_server"
version = "0.1.0"
edition = "2021"
publish = false

[dependencies]
blake2 = "0.10"
digest = "0.10"
hex = "0.4"
rand = "0.8"
rand_xorshift = "0.3"
futures = "0.3"
hyper = { version = "0.14", features = ["full"] }
tokio = { version = "1", features = ["full"] }
serde_json = "1"
parking_lot = "0.12"
clap = "2"
chrono = "0.4"
