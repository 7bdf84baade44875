[package]
name = "sockudo_ws"
version = "0.1.0"
edition = "2021"
publish = false

[dependencies]
simdutf8 = "0.1"
fastrand = "2"
napi = { version = "3", features = ["napi4"] }
napi-derive = "3"
serde = { version = "1", features = ["derive"] }
tokio = { version = "1", features = ["rt-multi-thread", "sync", "time"] }
parking_lot = "0.12"
once_cell = "1"
