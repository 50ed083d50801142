[package]
name = "gantt_purely_rust"
version = "0.1.0"
edition = "2021"
publish = false

[dependencies]
chrono = { version = "0.4", default-features = false, features = ["std", "serde"] }
ciborium = "0.2"
serde = { version = "1", features = ["derive"] }
wasm-minimal-protocol = "*"
