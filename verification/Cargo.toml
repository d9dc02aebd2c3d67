[package]
name = "heimdall"
version = "0.1.0"
edition = "2021"
publish = false

[dependencies]
anyhow = "*"
auto-launch = "*"
clap = { version = "*", features = ["derive"] }
global-hotkey = "*"
serde = { version = "*", features = ["derive"] }
toml = "*"
tracing = "*"
tracing-subscriber = { version = "*", features = ["env-filter"] }
winit = "*"
