[package]
name = "svod_tensor"
version = "0.1.0"
edition = "2021"
publish = false

[dependencies]
bincode = "1"
libc = "0.2"
papaya = "0.2"
parking_lot = "0.12"
rayon = "1"
serde = { version = "1", features = ["derive"] }
serde_json = "1"
tracing = "0.1"
