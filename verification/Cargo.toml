[package]
name = "tty_web"
version = "0.1.0"
edition = "2021"
publish = false

[dependencies]
uuid = { version = "*", features = ["v4"] }
tokio = { version = "*", features = ["full"] }
axum = { version = "*", features = ["ws"] }
clap = { version = "*", features = ["derive", "env"] }
nix = { version = "*", features = ["term", "process", "signal", "fs", "ioctl"] }
tracing = "*"
tracing-subscriber = { version = "*", features = ["env-filter"] }
