[package]
name = "iox_util"
version = "0.1.0"
edition = "2021"
publish = false

[dependencies]
chrono = { version = "0.4", default-features = false, features = ["std", "clock"] }
once_cell = "1"
parking_lot = "0.12"
tonic = { version = "0.12", default-features = false }
tokio = { version = "1", features = ["time"] }
