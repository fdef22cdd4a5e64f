[package]
name = "haptic_core"
version = "0.1.0"
edition = "2021"
publish = false

[dependencies]
memchr = "=2.8.3"
uuid = { version = "=1.29.0", features = ["v4"] }
urlencoding = "=2.1.3"
serde = { version = "=1.0.229", features = ["derive"] }
serde_json = "=1.0.154"
slotmap = "=1.1.1"
rosc = "0.10"
