[package]
name = "conduit"
version = "0.1.0"
edition = "2021"
publish = false

[dependencies]
serde = { version = "1", features = ["derive"] }
serde_json = "1"
tokio = { version = "1", features = ["process", "time", "sync", "net", "io-util", "rt-multi-thread"] }
async-trait = "0.1"
chrono = { version = "0.4", default-features = false, features = ["serde", "std"] }
dirs = "6"
tauri = { version = "2", default-features = false, features = ["wry", "tray-icon"] }
