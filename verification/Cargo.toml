[package]
name = "makcu_rs"
version = "0.1.0"
edition = "2021"
publish = false

[dependencies]
bytes = "1"
memchr = "2"
rustc-hash = "2"
crossbeam-channel = "0.5"
parking_lot = "0.12"
once_cell = "1"
thiserror = "1"
anyhow = "1"
serialport = { version = "4", default-features = false }
tokio = { version = "1", features = ["sync", "io-util", "rt", "macros"] }
tokio-serial = { version = "5", default-features = false }
