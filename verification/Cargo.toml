[package]
name = "xuanmi_base_support"
version = "0.1.0"
edition = "2021"
publish = false

[dependencies]
rand = "0.8"
uuid = { version = "1", features = ["v4"] }
serde = { version = "1", features = ["derive"] }
serde_json = "1"
reqwest = { version = "0.11", default-features = false, features = ["blocking"] }
shellexpand = "3"
tracing = "0.1"
tracing-appender = "0.2"
tracing-subscriber = "0.3"
