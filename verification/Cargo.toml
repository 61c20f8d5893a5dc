[package]
name = "codextray"
version = "1.2.1"
edition = "2021"
publish = false

[dependencies]
chrono = "=0.4.45"
serde = { version = "=1.0.229", features = ["derive"] }
serde_json = "=1.0.154"
tokio = { version = "1", features = ["process", "io-util", "time", "rt", "macros"] }
url = "2"
rfd = { version = "0.15", default-features = false }
tauri = { version = "2", default-features = false }
tauri-plugin-global-shortcut = "2"
tauri-plugin-positioner = "2"
