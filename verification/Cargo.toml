[package]
name = "pumpkin_core"
version = "0.1.0"
edition = "2021"
publish = false

[dependencies]
time = "*"
log = "*"
uuid = "*"
tokio = { version = "*", features = ["sync", "rt", "macros"] }
