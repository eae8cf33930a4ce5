[package]
name = "codex_usage"
version = "0.1.0"
edition = "2021"
publish = false

[dependencies]
dirs = "*"
log = "0.4"
reqwest = { version = "0.12", features = ["blocking", "json"] }
serde = { version = "1", features = ["derive"] }
serde_json = "1"
time = { version = "0.3", features = ["formatting"] }
