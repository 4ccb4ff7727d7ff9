[package]
name = "mines"
version = "0.1.0"
edition = "2021"
publish = false

[dependencies]
rand = "0.8"
wyrand = { version = "0.2", features = ["rand_core"] }
pathfinding = "4"
anyhow = "1"
clap = { version = "4", features = ["derive"] }
walkdir = "2"
ron = "0.8"
cbor4ii = { version = "0.3", features = ["serde1"] }
serde = { version = "1", features = ["derive"] }
tracing = "0.1"
tracing-subscriber = "0.3"
bytesize = "1"
