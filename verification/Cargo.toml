[package]
name = "exam_monitor_core"
version = "0.1.0"
edition = "2021"
publish = false

[dependencies]
anyhow = "1"
base64 = "0.22"
if-addrs = "*"
image = { version = "0.24", default-features = false, features = ["jpeg"] }
screenshots = "0.8"
serde = { version = "1", features = ["derive"] }
