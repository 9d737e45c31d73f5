[package]
name = "livetty"
version = "0.1.0"
edition = "2021"
publish = false

[dependencies]
axum = { version = "=0.8.9", features = ["ws"] }
bytes = "=1.12.1"
clap = { version = "=4.6.7", features = ["derive"] }
futures-util = "=0.3.34"
mime_guess = "=2.0.5"
portable-pty = "=0.9.0"
rand = "=0.9.5"
rust-embed = { version = "=8.13.0", features = ["interpolate-folder-path"] }
serde = { version = "=1.0.229", features = ["derive"] }
serde_json = "=1.0.154"
tokio = { version = "=1.54.1", features = ["full"] }
tokio-tungstenite = "=0.28.0"
tracing = "=0.1.44"
tracing-subscriber = "=0.3.23"
vt100 = "=0.16.2"
