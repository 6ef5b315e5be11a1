[package]
name = "fixcore"
version = "0.1.0"
edition = "2021"
publish = false

[dependencies]
chrono = "0.4"
uuid = { version = "1", features = ["v4"] }
futures = "0.3"
futures-timer = "3"
