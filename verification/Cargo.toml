[package]
name = "ttcore"
version = "0.1.0"
edition = "2021"
publish = false

[dependencies]
base64 = "0.13"
flate2 = "1"
serde = { version = "1", features = ["derive"] }
serde_json = "1"
parking_lot = "0.11"
futures = { version = "0.3", features = ["thread-pool"] }
futures-timer = "3"
lazy_static = "1"
libc = "0.2"
nix = "0.19"

[dev-dependencies]
rand = "0.7"
