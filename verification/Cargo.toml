[package]
name = "silent"
version = "0.1.0"
edition = "2021"
publish = false

[dependencies]
ring = "0.16"
uuid = { version = "1", features = ["v4"] }
chrono = "0.4"
local-ip-address = "*"
