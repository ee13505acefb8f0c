[package]
name = "repo_wizard"
version = "0.1.0"
edition = "2021"
publish = false

[dependencies]
anyhow = "=1.0.104"
base64 = "=0.22.1"
crossbeam-channel = "=0.5.17"
diffy = "=0.5.2"
dunce = "=1.0.5"
ignore = "=0.4.33"
log = "=0.4.34"
notify-debouncer-full = "=0.7.0"
once_cell = "=1.21.4"
portable-pty = "=0.9.0"
serde = { version = "=1.0.229", features = ["derive"] }
serde_json = "=1.0.154"
thiserror = "=1.0.69"
tokio = { version = "=1.54.1", features = ["fs", "io-util", "rt", "time"] }
uuid = { version = "=1.29.0", features = ["v4"] }
