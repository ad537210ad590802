[package]
name = "chat_hooks"
version = "0.1.0"
edition = "2021"
publish = false

[dependencies]
tokio = { version = "*", features = ["full"] }
clap = { version = "*", features = ["derive"] }
crossterm = "*"
dirs = "*"
eyre = "*"
libproc = "*"
serde = { version = "*", features = ["derive"] }
serde_json = "*"
async-trait = "*"
tracing = "*"
