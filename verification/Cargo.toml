[package]
name = "heartrate_bridge"
version = "0.1.0"
edition = "2021"
publish = false

[dependencies]
rosc = "*"
arctic = "*"
tokio = { version = "1", features = ["macros", "rt-multi-thread"] }
