[package]
name = "stilla"
version = "0.1.0"
edition = "2021"
publish = false

[dependencies]
xxhash-rust = { version = "*", features = ["xxh3"] }
serde = { version = "1", features = ["derive"] }
serde_json = "1"
tokio = { version = "1", features = ["full"] }
tao = "*"
tray-icon = "*"
open = "*"
notify-rust = "*"
dirs = "*"
