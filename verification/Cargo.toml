[package]
name = "eventsourcing"
version = "0.1.0"
edition = "2021"
publish = false

[dependencies]
prost = "*"
uuid = { version = "*", features = ["v6", "v7", "std"] }
wasi = "*"
