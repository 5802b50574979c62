[package]
name = "psitool"
version = "0.1.0"
edition = "2021"
publish = false

[dependencies]
uuid = { version = "1", features = ["v5"] }
rand = "0.9"
serde = { version = "1", features = ["derive"] }
serde_yaml = "0.9"
serde_json = "1"
shellexpand = "3"
open = "5"
