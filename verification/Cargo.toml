[package]
name = "atctl"
version = "0.1.0"
edition = "2021"
publish = false

[dependencies]
clap = { version = "=4.6.7", features = ["derive"] }
ctrlc = "=3.5.2"
portable-pty = "=0.9.0"
rusb = "=0.9.4"
serde = { version = "=1.0.229", features = ["derive"] }
serde_json = "=1.0.154"
thiserror = "=2.0.21"
toml = "=0.8.23"
tracing-subscriber = { version = "=0.3.23", features = ["env-filter"] }
