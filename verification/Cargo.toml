[package]
name = "tsuki_scheduler"
version = "0.1.0"
edition = "2021"
publish = false

[dependencies]
chrono = "0.4"
cron = "*"
uuid = { version = "1", features = ["v4"] }
wasm-bindgen-futures = "0.4"
