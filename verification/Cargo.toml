[package]
name = "demo_stage"
version = "0.1.0"
edition = "2021"
publish = false

[dependencies]
regex = "=1.13.1"
clap = { version = "=4.6.7", features = ["derive"] }
serde = { version = "=1.0.229", features = ["derive"] }
serde_json = "=1.0.154"
thiserror = "=2.0.21"
png = "*"
toml = "*"
crossterm = "*"
inquire = "*"
portable-pty = "*"
vt100 = "*"
fontdue = "*"
headless_chrome = "*"
ffmpeg-sidecar = "*"
hayro = "*"
