[package]
name = "ferry"
version = "0.1.0"
edition = "2021"
publish = false

[dependencies]
serde = { version = "1", features = ["derive"] }
serde_json = "1"
mdns-sd = "*"
crossbeam-channel = "0.5"
ctrlc = "3"
