[package]
name = "makcu-rs"
version = "0.1.0"
edition = "2021"
publish = false

[dependencies]
memchr = "2"
bytes = "1"
thiserror = "2"
crossbeam-channel = "0.5"
parking_lot = "0.12"
once_cell = "1"
rustc-hash = "2"
serialport = { version = "4", default-features = false }
tokio = { version = "1", features = ["sync", "io-util", "rt", "macros"] }
tokio-serial = { version = "5", default-features = false }
libc = "0.2"
core-foundation = "0.10"
core-foundation-sys = "0.8"
anyhow = "1"
